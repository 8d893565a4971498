//! The tables that steer coefficient parsing.
use vstd::prelude::*;

verus! {

pub const TX_4X4: usize = 0;

pub const TX_8X8: usize = 1;

pub const TX_16X16: usize = 2;

pub const TX_32X32: usize = 3;

pub const TX_64X64: usize = 4;

pub const TX_4X8: usize = 5;

pub const TX_8X4: usize = 6;

pub const TX_8X16: usize = 7;

pub const TX_16X8: usize = 8;

pub const TX_16X32: usize = 9;

pub const TX_32X16: usize = 10;

pub const TX_32X64: usize = 11;

pub const TX_64X32: usize = 12;

pub const TX_4X16: usize = 13;

pub const TX_16X4: usize = 14;

pub const TX_8X32: usize = 15;

pub const TX_32X8: usize = 16;

pub const TX_16X64: usize = 17;

pub const TX_64X16: usize = 18;

pub const DCT_DCT: usize = 0;

pub const ADST_DCT: usize = 1;

pub const DCT_ADST: usize = 2;

pub const ADST_ADST: usize = 3;

pub const FLIPADST_DCT: usize = 4;

pub const DCT_FLIPADST: usize = 5;

pub const FLIPADST_FLIPADST: usize = 6;

pub const ADST_FLIPADST: usize = 7;

pub const FLIPADST_ADST: usize = 8;

pub const IDTX: usize = 9;

pub const V_DCT: usize = 10;

pub const H_DCT: usize = 11;

pub const V_ADST: usize = 12;

pub const H_ADST: usize = 13;

pub const V_FLIPADST: usize = 14;

pub const H_FLIPADST: usize = 15;

pub const TX_CLASS_2D: usize = 0;

pub const TX_CLASS_HORIZ: usize = 1;

pub const TX_CLASS_VERT: usize = 2;

pub const TX_SET_DCTONLY: usize = 0;

pub const TX_SET_INTRA_1: usize = 1;

pub const TX_SET_INTRA_2: usize = 2;

/// The transform types of the larger intra set, in coding order.
pub const TX_TYPE_INTRA_INV_SET1: [usize; 7] = [IDTX, DCT_DCT, V_DCT, H_DCT, ADST_ADST, ADST_DCT, DCT_ADST];

/// The transform types of the smaller intra set, in coding order.
pub const TX_TYPE_INTRA_INV_SET2: [usize; 5] = [IDTX, DCT_DCT, ADST_ADST, ADST_DCT, DCT_ADST];

/// Transform block width in samples.
pub const TX_WIDTH: [usize; 19] = [
    4, 8, 16, 32, 64, 4, 8, 8, 16, 16, 32, 32, 64, 4, 16, 8, 32, 16, 64,
];

/// Transform block height in samples.
pub const TX_HEIGHT: [usize; 19] = [
    4, 8, 16, 32, 64, 8, 4, 16, 8, 32, 16, 64, 32, 16, 4, 32, 8, 64, 16,
];

/// Binary logarithm of the transform block width.
pub const TX_WIDTH_LOG2: [usize; 19] = [2, 3, 4, 5, 6, 2, 3, 3, 4, 4, 5, 5, 6, 2, 4, 3, 5, 4, 6];

/// Binary logarithm of the transform block height.
pub const TX_HEIGHT_LOG2: [usize; 19] = [2, 3, 4, 5, 6, 3, 2, 4, 3, 5, 4, 6, 5, 4, 2, 5, 3, 6, 4];

/// The square transform size with the smaller side.
pub const TX_SIZE_SQR: [usize; 19] = [0, 1, 2, 3, 4, 0, 0, 1, 1, 2, 2, 3, 3, 0, 0, 1, 1, 2, 2];

/// The square transform size with the larger side.
pub const TX_SIZE_SQR_UP: [usize; 19] = [0, 1, 2, 3, 4, 1, 1, 2, 2, 3, 3, 4, 4, 2, 2, 3, 3, 4, 4];

/// The transform size with no side above 32.
pub const ADJUSTED_TX_SIZE: [usize; 19] = [
    0, 1, 2, 3, 3, 5, 6, 7, 8, 9, 10, 3, 3, 13, 14, 15, 16, 9, 10,
];

/// The largest transform size of each block size.
pub const MAX_TX_SIZE_RECT: [usize; 22] = [
    TX_4X4, TX_4X8, TX_8X4, TX_8X8, TX_8X16, TX_16X8, TX_16X16, TX_16X32, TX_32X16, TX_32X32,
    TX_32X64, TX_64X32, TX_64X64, TX_64X64, TX_64X64, TX_64X64, TX_4X16, TX_16X4, TX_8X32, TX_32X8,
    TX_16X64, TX_64X16,
];

/// The transform size one split down.
pub const SPLIT_TX_SIZE: [usize; 19] = [
    TX_4X4, TX_4X4, TX_8X8, TX_16X16, TX_32X32, TX_4X4, TX_4X4, TX_8X8, TX_8X8, TX_16X16, TX_16X16,
    TX_32X32, TX_32X32, TX_4X8, TX_8X4, TX_8X16, TX_16X8, TX_16X32, TX_32X16,
];

/// The shift behind the row pass of the inverse transform.
pub const TRANSFORM_ROW_SHIFT: [u32; 19] = [0, 1, 2, 2, 2, 0, 0, 1, 1, 1, 1, 1, 1, 1, 1, 2, 2, 2, 2];

/// The base level context offset by transform size, row and column.
pub const COEFF_BASE_CTX_OFFSET: [[[usize; 5]; 5]; 19] = [
    [
        [0, 1, 6, 6, 0],
        [1, 6, 6, 21, 0],
        [6, 6, 21, 21, 0],
        [6, 21, 21, 21, 0],
        [0, 0, 0, 0, 0],
    ],
    [
        [0, 1, 6, 6, 21],
        [1, 6, 6, 21, 21],
        [6, 6, 21, 21, 21],
        [6, 21, 21, 21, 21],
        [21, 21, 21, 21, 21],
    ],
    [
        [0, 1, 6, 6, 21],
        [1, 6, 6, 21, 21],
        [6, 6, 21, 21, 21],
        [6, 21, 21, 21, 21],
        [21, 21, 21, 21, 21],
    ],
    [
        [0, 1, 6, 6, 21],
        [1, 6, 6, 21, 21],
        [6, 6, 21, 21, 21],
        [6, 21, 21, 21, 21],
        [21, 21, 21, 21, 21],
    ],
    [
        [0, 1, 6, 6, 21],
        [1, 6, 6, 21, 21],
        [6, 6, 21, 21, 21],
        [6, 21, 21, 21, 21],
        [21, 21, 21, 21, 21],
    ],
    [
        [0, 11, 11, 11, 0],
        [11, 11, 11, 11, 0],
        [6, 6, 21, 21, 0],
        [6, 21, 21, 21, 0],
        [21, 21, 21, 21, 0],
    ],
    [
        [0, 16, 6, 6, 21],
        [16, 16, 6, 21, 21],
        [16, 16, 21, 21, 21],
        [16, 16, 21, 21, 21],
        [0, 0, 0, 0, 0],
    ],
    [
        [0, 11, 11, 11, 11],
        [11, 11, 11, 11, 11],
        [6, 6, 21, 21, 21],
        [6, 21, 21, 21, 21],
        [21, 21, 21, 21, 21],
    ],
    [
        [0, 16, 6, 6, 21],
        [16, 16, 6, 21, 21],
        [16, 16, 21, 21, 21],
        [16, 16, 21, 21, 21],
        [16, 16, 21, 21, 21],
    ],
    [
        [0, 11, 11, 11, 11],
        [11, 11, 11, 11, 11],
        [6, 6, 21, 21, 21],
        [6, 21, 21, 21, 21],
        [21, 21, 21, 21, 21],
    ],
    [
        [0, 16, 6, 6, 21],
        [16, 16, 6, 21, 21],
        [16, 16, 21, 21, 21],
        [16, 16, 21, 21, 21],
        [16, 16, 21, 21, 21],
    ],
    [
        [0, 11, 11, 11, 11],
        [11, 11, 11, 11, 11],
        [6, 6, 21, 21, 21],
        [6, 21, 21, 21, 21],
        [21, 21, 21, 21, 21],
    ],
    [
        [0, 16, 6, 6, 21],
        [16, 16, 6, 21, 21],
        [16, 16, 21, 21, 21],
        [16, 16, 21, 21, 21],
        [16, 16, 21, 21, 21],
    ],
    [
        [0, 11, 11, 11, 0],
        [11, 11, 11, 11, 0],
        [6, 6, 21, 21, 0],
        [6, 21, 21, 21, 0],
        [21, 21, 21, 21, 0],
    ],
    [
        [0, 16, 6, 6, 21],
        [16, 16, 6, 21, 21],
        [16, 16, 21, 21, 21],
        [16, 16, 21, 21, 21],
        [0, 0, 0, 0, 0],
    ],
    [
        [0, 11, 11, 11, 11],
        [11, 11, 11, 11, 11],
        [6, 6, 21, 21, 21],
        [6, 21, 21, 21, 21],
        [21, 21, 21, 21, 21],
    ],
    [
        [0, 16, 6, 6, 21],
        [16, 16, 6, 21, 21],
        [16, 16, 21, 21, 21],
        [16, 16, 21, 21, 21],
        [16, 16, 21, 21, 21],
    ],
    [
        [0, 11, 11, 11, 11],
        [11, 11, 11, 11, 11],
        [6, 6, 21, 21, 21],
        [6, 21, 21, 21, 21],
        [21, 21, 21, 21, 21],
    ],
    [
        [0, 16, 6, 6, 21],
        [16, 16, 6, 21, 21],
        [16, 16, 21, 21, 21],
        [16, 16, 21, 21, 21],
        [16, 16, 21, 21, 21],
    ],
];

/// The base level context offset of the one-dimensional classes.
pub const COEFF_BASE_POS_CTX_OFFSET: [usize; 3] = [26, 31, 36];

/// The transform type that a chroma prediction mode implies.
pub const MODE_TO_TXFM: [usize; 14] = [
    0, 
    1, 
    2, 
    0, 
    3, 
    1, 
    2, 
    2, 
    1, 
    3, 
    1, 
    2, 
    3, 
    0, 
];

/// Whether a transform type belongs to an intra set.
pub const TX_TYPE_IN_SET_INTRA: [[usize; 16]; 3] = [
    [1, 0, 0, 0, 0, 0, 0, 0, 0, 0, 0, 0, 0, 0, 0, 0],
    [1, 1, 1, 1, 0, 0, 0, 0, 0, 1, 1, 1, 0, 0, 0, 0],
    [1, 1, 1, 1, 0, 0, 0, 0, 0, 1, 0, 0, 0, 0, 0, 0],
];

/// The diagonal scan of a 4x4 block.
pub const DEFAULT_SCAN_4X4: [u16; 16] = [0, 1, 4, 8, 5, 2, 3, 6, 9, 12, 13, 10, 7, 11, 14, 15];

/// The column scan of a 4x4 block.
pub const MCOL_SCAN_4X4: [u16; 16] = [0, 4, 8, 12, 1, 5, 9, 13, 2, 6, 10, 14, 3, 7, 11, 15];

/// The row scan of a 4x4 block.
pub const MROW_SCAN_4X4: [u16; 16] = [0, 1, 2, 3, 4, 5, 6, 7, 8, 9, 10, 11, 12, 13, 14, 15];

/// The diagonal scan of a 8x8 block.
pub const DEFAULT_SCAN_8X8: [u16; 64] = [
    0, 1, 8, 16, 9, 2, 3, 10, 17, 24, 32, 25, 18, 11, 4, 5, 12, 19, 26, 33, 40, 48, 41, 34, 27, 20,
    13, 6, 7, 14, 21, 28, 35, 42, 49, 56, 57, 50, 43, 36, 29, 22, 15, 23, 30, 37, 44, 51, 58, 59,
    52, 45, 38, 31, 39, 46, 53, 60, 61, 54, 47, 55, 62, 63,
];

/// The column scan of a 8x8 block.
pub const MCOL_SCAN_8X8: [u16; 64] = [
    0, 8, 16, 24, 32, 40, 48, 56, 1, 9, 17, 25, 33, 41, 49, 57, 2, 10, 18, 26, 34, 42, 50, 58, 3,
    11, 19, 27, 35, 43, 51, 59, 4, 12, 20, 28, 36, 44, 52, 60, 5, 13, 21, 29, 37, 45, 53, 61, 6,
    14, 22, 30, 38, 46, 54, 62, 7, 15, 23, 31, 39, 47, 55, 63,
];

/// The row scan of a 8x8 block.
pub const MROW_SCAN_8X8: [u16; 64] = [
    0, 1, 2, 3, 4, 5, 6, 7, 8, 9, 10, 11, 12, 13, 14, 15, 16, 17, 18, 19, 20, 21, 22, 23, 24, 25,
    26, 27, 28, 29, 30, 31, 32, 33, 34, 35, 36, 37, 38, 39, 40, 41, 42, 43, 44, 45, 46, 47, 48, 49,
    50, 51, 52, 53, 54, 55, 56, 57, 58, 59, 60, 61, 62, 63,
];

/// The diagonal scan of a 16x16 block.
pub const DEFAULT_SCAN_16X16: [u16; 256] = [
    0, 1, 16, 32, 17, 2, 3, 18, 33, 48, 64, 49, 34, 19, 4, 5, 20, 35, 50, 65, 80, 96, 81, 66, 51,
    36, 21, 6, 7, 22, 37, 52, 67, 82, 97, 112, 128, 113, 98, 83, 68, 53, 38, 23, 8, 9, 24, 39, 54,
    69, 84, 99, 114, 129, 144, 160, 145, 130, 115, 100, 85, 70, 55, 40, 25, 10, 11, 26, 41, 56, 71,
    86, 101, 116, 131, 146, 161, 176, 192, 177, 162, 147, 132, 117, 102, 87, 72, 57, 42, 27, 12,
    13, 28, 43, 58, 73, 88, 103, 118, 133, 148, 163, 178, 193, 208, 224, 209, 194, 179, 164, 149,
    134, 119, 104, 89, 74, 59, 44, 29, 14, 15, 30, 45, 60, 75, 90, 105, 120, 135, 150, 165, 180,
    195, 210, 225, 240, 241, 226, 211, 196, 181, 166, 151, 136, 121, 106, 91, 76, 61, 46, 31, 47,
    62, 77, 92, 107, 122, 137, 152, 167, 182, 197, 212, 227, 242, 243, 228, 213, 198, 183, 168,
    153, 138, 123, 108, 93, 78, 63, 79, 94, 109, 124, 139, 154, 169, 184, 199, 214, 229, 244, 245,
    230, 215, 200, 185, 170, 155, 140, 125, 110, 95, 111, 126, 141, 156, 171, 186, 201, 216, 231,
    246, 247, 232, 217, 202, 187, 172, 157, 142, 127, 143, 158, 173, 188, 203, 218, 233, 248, 249,
    234, 219, 204, 189, 174, 159, 175, 190, 205, 220, 235, 250, 251, 236, 221, 206, 191, 207, 222,
    237, 252, 253, 238, 223, 239, 254, 255,
];

/// The column scan of a 16x16 block.
pub const MCOL_SCAN_16X16: [u16; 256] = [
    0, 16, 32, 48, 64, 80, 96, 112, 128, 144, 160, 176, 192, 208, 224, 240, 1, 17, 33, 49, 65, 81,
    97, 113, 129, 145, 161, 177, 193, 209, 225, 241, 2, 18, 34, 50, 66, 82, 98, 114, 130, 146, 162,
    178, 194, 210, 226, 242, 3, 19, 35, 51, 67, 83, 99, 115, 131, 147, 163, 179, 195, 211, 227,
    243, 4, 20, 36, 52, 68, 84, 100, 116, 132, 148, 164, 180, 196, 212, 228, 244, 5, 21, 37, 53,
    69, 85, 101, 117, 133, 149, 165, 181, 197, 213, 229, 245, 6, 22, 38, 54, 70, 86, 102, 118, 134,
    150, 166, 182, 198, 214, 230, 246, 7, 23, 39, 55, 71, 87, 103, 119, 135, 151, 167, 183, 199,
    215, 231, 247, 8, 24, 40, 56, 72, 88, 104, 120, 136, 152, 168, 184, 200, 216, 232, 248, 9, 25,
    41, 57, 73, 89, 105, 121, 137, 153, 169, 185, 201, 217, 233, 249, 10, 26, 42, 58, 74, 90, 106,
    122, 138, 154, 170, 186, 202, 218, 234, 250, 11, 27, 43, 59, 75, 91, 107, 123, 139, 155, 171,
    187, 203, 219, 235, 251, 12, 28, 44, 60, 76, 92, 108, 124, 140, 156, 172, 188, 204, 220, 236,
    252, 13, 29, 45, 61, 77, 93, 109, 125, 141, 157, 173, 189, 205, 221, 237, 253, 14, 30, 46, 62,
    78, 94, 110, 126, 142, 158, 174, 190, 206, 222, 238, 254, 15, 31, 47, 63, 79, 95, 111, 127,
    143, 159, 175, 191, 207, 223, 239, 255,
];

/// The row scan of a 16x16 block.
pub const MROW_SCAN_16X16: [u16; 256] = [
    0, 1, 2, 3, 4, 5, 6, 7, 8, 9, 10, 11, 12, 13, 14, 15, 16, 17, 18, 19, 20, 21, 22, 23, 24, 25,
    26, 27, 28, 29, 30, 31, 32, 33, 34, 35, 36, 37, 38, 39, 40, 41, 42, 43, 44, 45, 46, 47, 48, 49,
    50, 51, 52, 53, 54, 55, 56, 57, 58, 59, 60, 61, 62, 63, 64, 65, 66, 67, 68, 69, 70, 71, 72, 73,
    74, 75, 76, 77, 78, 79, 80, 81, 82, 83, 84, 85, 86, 87, 88, 89, 90, 91, 92, 93, 94, 95, 96, 97,
    98, 99, 100, 101, 102, 103, 104, 105, 106, 107, 108, 109, 110, 111, 112, 113, 114, 115, 116,
    117, 118, 119, 120, 121, 122, 123, 124, 125, 126, 127, 128, 129, 130, 131, 132, 133, 134, 135,
    136, 137, 138, 139, 140, 141, 142, 143, 144, 145, 146, 147, 148, 149, 150, 151, 152, 153, 154,
    155, 156, 157, 158, 159, 160, 161, 162, 163, 164, 165, 166, 167, 168, 169, 170, 171, 172, 173,
    174, 175, 176, 177, 178, 179, 180, 181, 182, 183, 184, 185, 186, 187, 188, 189, 190, 191, 192,
    193, 194, 195, 196, 197, 198, 199, 200, 201, 202, 203, 204, 205, 206, 207, 208, 209, 210, 211,
    212, 213, 214, 215, 216, 217, 218, 219, 220, 221, 222, 223, 224, 225, 226, 227, 228, 229, 230,
    231, 232, 233, 234, 235, 236, 237, 238, 239, 240, 241, 242, 243, 244, 245, 246, 247, 248, 249,
    250, 251, 252, 253, 254, 255,
];

/// The class of a transform type: one-dimensional vertical or horizontal, or both.
pub open spec fn tx_class_of(tx_type: int) -> int {
    if tx_type == V_DCT || tx_type == V_ADST || tx_type == V_FLIPADST {
        TX_CLASS_VERT as int
    } else if tx_type == H_DCT || tx_type == H_ADST || tx_type == H_FLIPADST {
        TX_CLASS_HORIZ as int
    } else {
        TX_CLASS_2D as int
    }
}

/// The class of a transform type.
pub fn get_tx_class(tx_type: usize) -> (r: usize)
    ensures
        r == tx_class_of(tx_type as int),
        r < 3,
{
    if tx_type == V_DCT || tx_type == V_ADST || tx_type == V_FLIPADST {
        TX_CLASS_VERT
    } else if tx_type == H_DCT || tx_type == H_ADST || tx_type == H_FLIPADST {
        TX_CLASS_HORIZ
    } else {
        TX_CLASS_2D
    }
}

/// The transform set of an intra block: sides of 32 and more allow one type,
/// blocks of 16 and frames with a reduced set the smaller set.
pub open spec fn tx_set_of(tx_size: int, reduced: bool) -> int {
    if TX_SIZE_SQR_UP[tx_size] >= TX_32X32 {
        TX_SET_DCTONLY as int
    } else if reduced || TX_SIZE_SQR[tx_size] == TX_16X16 {
        TX_SET_INTRA_2 as int
    } else {
        TX_SET_INTRA_1 as int
    }
}

/// The transform set of an intra block.
pub fn get_tx_set_intra(tx_size: usize, reduced_tx_set: bool) -> (r: usize)
    requires
        tx_size < 19,
    ensures
        r == tx_set_of(tx_size as int, reduced_tx_set),
        r < 3,
{
    if TX_SIZE_SQR_UP[tx_size] >= TX_32X32 {
        TX_SET_DCTONLY
    } else if reduced_tx_set || TX_SIZE_SQR[tx_size] == TX_16X16 {
        TX_SET_INTRA_2
    } else {
        TX_SET_INTRA_1
    }
}

/// Whether a transform size has a scan: the squares of side 4, 8 and 16.
pub open spec fn has_scan(tx_size: int) -> bool {
    tx_size == TX_4X4 || tx_size == TX_8X8 || tx_size == TX_16X16
}

/// The scan of a transform size with one: rows for vertical types, columns for
/// horizontal ones, diagonals for the rest.
#[verifier::opaque]
pub open spec fn scan_of(tx_size: int, tx_type: int) -> Seq<u16> {
    let class = tx_class_of(tx_type);
    if tx_size == TX_4X4 {
        if class == TX_CLASS_VERT {
            MROW_SCAN_4X4@
        } else if class == TX_CLASS_HORIZ {
            MCOL_SCAN_4X4@
        } else {
            DEFAULT_SCAN_4X4@
        }
    } else if tx_size == TX_8X8 {
        if class == TX_CLASS_VERT {
            MROW_SCAN_8X8@
        } else if class == TX_CLASS_HORIZ {
            MCOL_SCAN_8X8@
        } else {
            DEFAULT_SCAN_8X8@
        }
    } else {
        if class == TX_CLASS_VERT {
            MROW_SCAN_16X16@
        } else if class == TX_CLASS_HORIZ {
            MCOL_SCAN_16X16@
        } else {
            DEFAULT_SCAN_16X16@
        }
    }
}

/// The number of coefficients of a square transform of size index 0, 1 or 2.
pub open spec fn square_area(tx_size: int) -> int {
    if tx_size == TX_4X4 {
        16
    } else if tx_size == TX_8X8 {
        64
    } else {
        256
    }
}

proof fn lemma_scan_4x4()
    ensures
        forall|k: int| 0 <= k < 16 ==> #[trigger] DEFAULT_SCAN_4X4[k] < 16,
        forall|k: int| 0 <= k < 16 ==> #[trigger] MROW_SCAN_4X4[k] < 16,
        forall|k: int| 0 <= k < 16 ==> #[trigger] MCOL_SCAN_4X4[k] < 16,
        DEFAULT_SCAN_4X4[0] == 0 && MROW_SCAN_4X4[0] == 0 && MCOL_SCAN_4X4[0] == 0,
{
}

proof fn lemma_scan_8x8()
    ensures
        forall|k: int| 0 <= k < 64 ==> #[trigger] DEFAULT_SCAN_8X8[k] < 64,
        forall|k: int| 0 <= k < 64 ==> #[trigger] MROW_SCAN_8X8[k] < 64,
        forall|k: int| 0 <= k < 64 ==> #[trigger] MCOL_SCAN_8X8[k] < 64,
        DEFAULT_SCAN_8X8[0] == 0 && MROW_SCAN_8X8[0] == 0 && MCOL_SCAN_8X8[0] == 0,
{
}

proof fn lemma_scan_16x16_default()
    ensures
        forall|k: int| 0 <= k < 256 ==> #[trigger] DEFAULT_SCAN_16X16[k] < 256,
        DEFAULT_SCAN_16X16[0] == 0,
{
}

proof fn lemma_scan_16x16_row()
    ensures
        forall|k: int| 0 <= k < 256 ==> #[trigger] MROW_SCAN_16X16[k] < 256,
        MROW_SCAN_16X16[0] == 0,
{
}

proof fn lemma_scan_16x16_col()
    ensures
        forall|k: int| 0 <= k < 256 ==> #[trigger] MCOL_SCAN_16X16[k] < 256,
        MCOL_SCAN_16X16[0] == 0,
{
}

/// A scan visits positions of the block, the first of them position zero.
pub proof fn lemma_scan(tx_size: int, tx_type: int)
    requires
        has_scan(tx_size),
    ensures
        scan_of(tx_size, tx_type).len() == square_area(tx_size),
        forall|k: int|
            0 <= k < square_area(tx_size) ==> #[trigger] scan_of(tx_size, tx_type)[k] < square_area(
                tx_size,
            ),
        scan_of(tx_size, tx_type)[0] == 0,
{
    reveal(scan_of);
    if tx_size == TX_4X4 {
        lemma_scan_4x4();
    } else if tx_size == TX_8X8 {
        lemma_scan_8x8();
    } else {
        lemma_scan_16x16_default();
        lemma_scan_16x16_row();
        lemma_scan_16x16_col();
    }
}

/// The scan of a transform size and type; `None` for the sizes without one.
pub fn get_scan(tx_size: usize, plane_tx_type: usize) -> (r: Option<&'static [u16]>)
    ensures
        r is Some <==> has_scan(tx_size as int),
        r matches Some(v) ==> v@ == scan_of(tx_size as int, plane_tx_type as int),
{
    let class: usize = get_tx_class(plane_tx_type);
    proof {
        reveal(scan_of);
    }
    if tx_size == TX_4X4 {
        if class == TX_CLASS_VERT {
            Some(&MROW_SCAN_4X4)
        } else if class == TX_CLASS_HORIZ {
            Some(&MCOL_SCAN_4X4)
        } else {
            Some(&DEFAULT_SCAN_4X4)
        }
    } else if tx_size == TX_8X8 {
        if class == TX_CLASS_VERT {
            Some(&MROW_SCAN_8X8)
        } else if class == TX_CLASS_HORIZ {
            Some(&MCOL_SCAN_8X8)
        } else {
            Some(&DEFAULT_SCAN_8X8)
        }
    } else if tx_size == TX_16X16 {
        if class == TX_CLASS_VERT {
            Some(&MROW_SCAN_16X16)
        } else if class == TX_CLASS_HORIZ {
            Some(&MCOL_SCAN_16X16)
        } else {
            Some(&DEFAULT_SCAN_16X16)
        }
    } else {
        None
    }
}

/// The sides of every transform size lie between 4 and 64, its coefficients within
/// 4096, and its context index within the tables.
pub proof fn lemma_tx_dims(t: int)
    requires
        0 <= t < 19,
    ensures
        4 <= TX_WIDTH[t] <= 64,
        4 <= TX_HEIGHT[t] <= 64,
        TX_WIDTH[t] % 4 == 0,
        TX_HEIGHT[t] % 4 == 0,
        TX_WIDTH[t] * TX_HEIGHT[t] <= 4096,
        TX_SIZE_SQR[t] <= 4,
        TX_SIZE_SQR_UP[t] <= 4,
        has_scan(t) ==> {
            &&& TX_SIZE_SQR[t] == t
            &&& TX_SIZE_SQR_UP[t] == t
            &&& ADJUSTED_TX_SIZE[t] == t
            &&& TX_WIDTH[t] == TX_HEIGHT[t]
            &&& TX_WIDTH[t] * TX_HEIGHT[t] == square_area(t)
            &&& TX_WIDTH_LOG2[t] == t + 2
            &&& TX_HEIGHT_LOG2[t] == t + 2
        },
{
    let w = TX_WIDTH[t] as int;
    let h = TX_HEIGHT[t] as int;
    assert(4 <= w <= 64);
    assert(4 <= h <= 64);
    assert(w * h <= 4096) by (nonlinear_arith)
        requires
            4 <= w <= 64,
            4 <= h <= 64,
    ;
    if has_scan(t) {
        let side = if t == TX_4X4 {
            4int
        } else if t == TX_8X8 {
            8
        } else {
            16
        };
        assert(w * h == side * side) by (nonlinear_arith)
            requires
                w == side,
                h == side,
        ;
        let area = square_area(t);
        assert(side * side == area) by (nonlinear_arith)
            requires
                (side == 4 && area == 16) || (side == 8 && area == 64) || (side == 16 && area
                    == 256),
        ;
    }
}

} // verus!
