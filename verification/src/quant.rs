//! Dequantization.
use crate::coeff::signed_levels;
use crate::coeff_tables::{TX_32X32, TX_64X64};
use crate::math::{clampi, clamp64, lemma_product_bound};
use vstd::prelude::*;

verus! {

/// The quantizer step of the first coefficient, by index.
pub const DC_QLOOKUP_8: [i32; 256] = [
    4, 8, 8, 9, 10, 11, 12, 12, 13, 14, 15, 16, 17, 18, 19, 19, 20, 21, 22, 23, 24, 25, 26, 26, 27,
    28, 29, 30, 31, 32, 32, 33, 34, 35, 36, 37, 38, 38, 39, 40, 41, 42, 43, 43, 44, 45, 46, 47, 48,
    48, 49, 50, 51, 52, 53, 53, 54, 55, 56, 57, 57, 58, 59, 60, 61, 62, 62, 63, 64, 65, 66, 66, 67,
    68, 69, 70, 70, 71, 72, 73, 74, 74, 75, 76, 77, 78, 78, 79, 80, 81, 81, 82, 83, 84, 85, 85, 87,
    88, 90, 92, 93, 95, 96, 98, 99, 101, 102, 104, 105, 107, 108, 110, 111, 113, 114, 116, 117,
    118, 120, 121, 123, 125, 127, 129, 131, 134, 136, 138, 140, 142, 144, 146, 148, 150, 152, 154,
    156, 158, 161, 164, 166, 169, 172, 174, 177, 180, 182, 185, 187, 190, 192, 195, 199, 202, 205,
    208, 211, 214, 217, 220, 223, 226, 230, 233, 237, 240, 243, 247, 250, 253, 257, 261, 265, 269,
    272, 276, 280, 284, 288, 292, 296, 300, 304, 309, 313, 317, 322, 326, 330, 335, 340, 344, 349,
    354, 359, 364, 369, 374, 379, 384, 389, 395, 400, 406, 411, 417, 423, 429, 435, 441, 447, 454,
    461, 467, 475, 482, 489, 497, 505, 513, 522, 530, 539, 549, 559, 569, 579, 590, 602, 614, 626,
    640, 654, 668, 684, 700, 717, 736, 755, 775, 796, 819, 843, 869, 896, 925, 955, 988, 1022,
    1058, 1098, 1139, 1184, 1232, 1282, 1336,
];

/// The quantizer step of the other coefficients, by index.
pub const AC_QLOOKUP_8: [i32; 256] = [
    4, 8, 9, 10, 11, 12, 13, 14, 15, 16, 17, 18, 19, 20, 21, 22, 23, 24, 25, 26, 27, 28, 29, 30,
    31, 32, 33, 34, 35, 36, 37, 38, 39, 40, 41, 42, 43, 44, 45, 46, 47, 48, 49, 50, 51, 52, 53, 54,
    55, 56, 57, 58, 59, 60, 61, 62, 63, 64, 65, 66, 67, 68, 69, 70, 71, 72, 73, 74, 75, 76, 77, 78,
    79, 80, 81, 82, 83, 84, 85, 86, 87, 88, 89, 90, 91, 92, 93, 94, 95, 96, 97, 98, 99, 100, 101,
    102, 104, 106, 108, 110, 112, 114, 116, 118, 120, 122, 124, 126, 128, 130, 132, 134, 136, 138,
    140, 142, 144, 146, 148, 150, 152, 155, 158, 161, 164, 167, 170, 173, 176, 179, 182, 185, 188,
    191, 194, 197, 200, 203, 207, 211, 215, 219, 223, 227, 231, 235, 239, 243, 247, 251, 255, 260,
    265, 270, 275, 280, 285, 290, 295, 300, 305, 311, 317, 323, 329, 335, 341, 347, 353, 359, 366,
    373, 380, 387, 394, 401, 408, 416, 424, 432, 440, 448, 456, 465, 474, 483, 492, 501, 510, 520,
    530, 540, 550, 560, 571, 582, 593, 604, 615, 627, 639, 651, 663, 676, 689, 702, 715, 729, 743,
    757, 771, 786, 801, 816, 832, 848, 864, 881, 898, 915, 933, 951, 969, 988, 1007, 1026, 1046,
    1066, 1087, 1108, 1129, 1151, 1173, 1196, 1219, 1243, 1267, 1292, 1317, 1343, 1369, 1396, 1423,
    1451, 1479, 1508, 1537, 1567, 1597, 1628, 1660, 1692, 1725, 1759, 1793, 1828,
];

proof fn lemma_dc_table()
    ensures
        forall|k: int| 0 <= k < 256 ==> 4 <= #[trigger] DC_QLOOKUP_8[k] <= 2000,
{
}

proof fn lemma_ac_table()
    ensures
        forall|k: int| 0 <= k < 256 ==> 4 <= #[trigger] AC_QLOOKUP_8[k] <= 2000,
{
}

/// The quantizer step of an index.
#[verifier::opaque]
pub open spec fn step_size(qindex: int, is_dc: bool) -> int {
    if is_dc {
        DC_QLOOKUP_8[qindex] as int
    } else {
        AC_QLOOKUP_8[qindex] as int
    }
}

/// Every quantizer step is at least four.
pub proof fn lemma_step_size(qindex: int, is_dc: bool)
    requires
        0 <= qindex < 256,
    ensures
        4 <= step_size(qindex, is_dc) <= 2000,
{
    reveal(step_size);
    lemma_dc_table();
    lemma_ac_table();
}

/// The quantizer step of an index.
pub fn quant_step(qindex: u8, is_dc: bool) -> (r: i32)
    ensures
        r == step_size(qindex as int, is_dc),
{
    proof {
        reveal(step_size);
    }
    if is_dc {
        DC_QLOOKUP_8[qindex as usize]
    } else {
        AC_QLOOKUP_8[qindex as usize]
    }
}

/// The quantizer step of the other coefficients.
pub fn ac_dequant(qindex: u8) -> (r: i32)
    ensures
        r == step_size(qindex as int, false),
{
    quant_step(qindex, false)
}

/// The quantizer step of the first coefficient.
pub fn dc_dequant(qindex: u8) -> (r: i32)
    ensures
        r == step_size(qindex as int, true),
{
    quant_step(qindex, true)
}

/// The divisor of dequantized coefficients: two for squares of 32, four for
/// squares of 64.
pub open spec fn denom_of(tx_size: int) -> int {
    if tx_size == TX_32X32 {
        2
    } else if tx_size == TX_64X64 {
        4
    } else {
        1
    }
}

/// The divisor of dequantized coefficients.
pub fn dq_denom(tx_size: usize) -> (r: i32)
    ensures
        r == denom_of(tx_size as int),
{
    if tx_size == TX_32X32 {
        2
    } else if tx_size == TX_64X64 {
        4
    } else {
        1
    }
}

/// A dequantized level: the product with the step, its magnitude cut to 24 bits and
/// divided, saturated to sixteen bits.
pub open spec fn dequant_at(level: int, step: int, denom: int) -> int {
    let p = level * step;
    let m = ((if p < 0 {
        -p
    } else {
        p
    }) % 0x100_0000) / denom;
    clampi(
        if p < 0 {
            -m
        } else {
            m
        },
        -32768,
        32767,
    )
}

/// The dequantized coefficients of a block.
pub open spec fn dequantized(quant: Seq<i32>, tx_size: int, qindex: int) -> Seq<i32> {
    Seq::new(
        quant.len(),
        |i: int|
            dequant_at(quant[i] as int, step_size(qindex, i == 0), denom_of(tx_size)) as i32,
    )
}

/// Dequantizes the coefficients of a block.
pub fn dequantize_coeffs(quant: &[i32], tx_size: usize, qindex: u8) -> (r: Vec<i32>)
    requires
        signed_levels(quant@, quant@.len() as int),
    ensures
        r@ == dequantized(quant@, tx_size as int, qindex as int),
        forall|k: int| 0 <= k < r@.len() ==> -32768 <= #[trigger] r@[k] <= 32767,
{
    let dc: i64 = dc_dequant(qindex) as i64;
    let ac: i64 = ac_dequant(qindex) as i64;
    let denom: i64 = dq_denom(tx_size) as i64;
    proof {
        lemma_step_size(qindex as int, true);
        lemma_step_size(qindex as int, false);
    }
    let mut r: Vec<i32> = Vec::new();
    let mut i: usize = 0;
    while i < quant.len()
        invariant
            i <= quant@.len(),
            signed_levels(quant@, quant@.len() as int),
            dc == step_size(qindex as int, true),
            ac == step_size(qindex as int, false),
            4 <= dc <= 2000,
            4 <= ac <= 2000,
            denom == denom_of(tx_size as int),
            r@.len() == i,
            forall|k: int|
                0 <= k < i ==> #[trigger] r@[k] == dequantized(
                    quant@,
                    tx_size as int,
                    qindex as int,
                )[k],
            forall|k: int| 0 <= k < i ==> -32768 <= #[trigger] r@[k] <= 32767,
        decreases quant@.len() - i,
    {
        let step: i64 = if i == 0 {
            dc
        } else {
            ac
        };
        let level: i64 = quant[i] as i64;
        proof {
            lemma_product_bound(level as int, step as int, 0x10_0000, 2000);
        }
        let p: i64 = level * step;
        let mag: i64 = if p < 0 {
            -p
        } else {
            p
        };
        let m: i64 = (mag % 0x100_0000) / denom;
        let v: i64 = clamp64(
            if p < 0 {
                -m
            } else {
                m
            },
            -32768,
            32767,
        );
        assert(v == dequant_at(
            quant@[i as int] as int,
            step_size(qindex as int, i == 0),
            denom_of(tx_size as int),
        ));
        r.push(v as i32);
        i = i + 1;
    }
    assert(r@ =~= dequantized(quant@, tx_size as int, qindex as int));
    r
}

} // verus!
