//! The inverse transforms: integer butterfly networks with fixed rounding.
//!
//! A one-dimensional transform is a schedule of rotations. Each stage of a
//! schedule is a list of independent steps; `step_of` gives every step, and
//! `stage_run` applies a stage in order.
use crate::bits::{lemma_pow2i_mono, lemma_pow2i_values, lemma_shl_pow2, pow2i};
use crate::coeff_tables::{
    lemma_tx_dims, ADJUSTED_TX_SIZE, ADST_ADST, ADST_DCT, DCT_ADST, DCT_DCT, H_ADST, H_DCT,
    TRANSFORM_ROW_SHIFT, TX_4X4, TX_HEIGHT, TX_HEIGHT_LOG2, TX_WIDTH, TX_WIDTH_LOG2, V_ADST, V_DCT,
};
use crate::math::{
    clamp64, clampi, lemma_product_bound, round2, round_shift, shr32,
};
use vstd::prelude::*;

verus! {

/// 4096 times the cosine of multiples of pi / 128, up to a quarter turn.
pub const COS128_LOOKUP: [i32; 65] = [
    4096, 4095, 4091, 4085, 4076, 4065, 4052, 4036, 4017, 3996, 3973, 3948, 3920, 3889, 3857, 3822,
    3784, 3745, 3703, 3659, 3612, 3564, 3513, 3461, 3406, 3349, 3290, 3229, 3166, 3102, 3035, 2967,
    2896, 2824, 2751, 2675, 2598, 2520, 2440, 2359, 2276, 2191, 2106, 2019, 1931, 1842, 1751, 1660,
    1567, 1474, 1380, 1285, 1189, 1092, 995, 897, 799, 700, 601, 501, 401, 301, 201, 101, 0,
];

/// The cosine of an angle in 256ths of a turn, by its quadrant.
#[verifier::opaque]
pub open spec fn cos_of(angle: int) -> int {
    let a = angle % 256;
    if a <= 64 {
        COS128_LOOKUP[a] as int
    } else if a <= 128 {
        -(COS128_LOOKUP[128 - a] as int)
    } else if a <= 192 {
        -(COS128_LOOKUP[a - 128] as int)
    } else {
        COS128_LOOKUP[256 - a] as int
    }
}

/// The sine of an angle in 256ths of a turn.
pub open spec fn sin_of(angle: int) -> int {
    cos_of(angle - 64)
}

proof fn lemma_cos_table()
    ensures
        forall|k: int| 0 <= k <= 64 ==> 0 <= #[trigger] COS128_LOOKUP[k] <= 4096,
{
}

/// A cosine lies between -4096 and 4096.
pub proof fn law_cos_bound(angle: int)
    ensures
        -4096 <= cos_of(angle) <= 4096,
{
    reveal(cos_of);
    lemma_cos_table();
}

/// Cosines repeat after a whole turn and change sign after half a turn.
pub proof fn law_cos_periodic(angle: int)
    ensures
        cos_of(angle + 256) == cos_of(angle),
        cos_of(angle + 128) == -cos_of(angle),
        cos_of(-angle) == cos_of(angle),
{
    reveal(cos_of);
    assert((angle + 256) % 256 == angle % 256);
    assert(COS128_LOOKUP[64] == 0);
    let a = angle % 256;
    assert((angle + 128) % 256 == if a < 128 {
        a + 128
    } else {
        a - 128
    });
    assert((-angle) % 256 == if a == 0 {
        0
    } else {
        256 - a
    });
}

/// The cosine of an angle in 256ths of a turn.
pub fn cos128(angle: i32) -> (r: i64)
    requires
        i32::MIN < angle,
    ensures
        r == cos_of(angle as int),
        -4096 <= r <= 4096,
{
    proof {
        reveal(cos_of);
        lemma_cos_table();
    }
    let a: i32 = if angle >= 0 {
        angle % 256
    } else {
        let m: i32 = (-angle) % 256;
        if m == 0 {
            0
        } else {
            256 - m
        }
    };
    assert(a == angle as int % 256);
    let v: i32 = if a <= 64 {
        COS128_LOOKUP[a as usize]
    } else if a <= 128 {
        -COS128_LOOKUP[(128 - a) as usize]
    } else if a <= 192 {
        -COS128_LOOKUP[(a - 128) as usize]
    } else {
        COS128_LOOKUP[(256 - a) as usize]
    };
    v as i64
}

/// The sine of an angle in 256ths of a turn.
pub fn sin128(angle: i32) -> (r: i64)
    requires
        i32::MIN + 64 < angle,
    ensures
        r == sin_of(angle as int),
        -4096 <= r <= 4096,
{
    cos128(angle - 64)
}

/// The low `n` bits of `x` in reverse order.
pub open spec fn brev_of(n: int, x: int) -> int
    decreases n,
{
    if n <= 0 {
        0
    } else {
        (x % 2) * pow2i(n - 1) + brev_of(n - 1, x / 2)
    }
}

/// Reversed bits spell a number of as many bits.
pub proof fn lemma_brev_range(n: int, x: int)
    requires
        0 <= n,
    ensures
        0 <= brev_of(n, x) < pow2i(n),
    decreases n,
{
    if n > 0 {
        lemma_brev_range(n - 1, x / 2);
        let b = x % 2;
        assert(b * pow2i(n - 1) == if b == 1 {
            pow2i(n - 1)
        } else {
            0
        }) by (nonlinear_arith)
            requires
                0 <= b <= 1,
        ;
    }
}

/// The low `num_bits` bits of `x` in reverse order.
pub fn brev(num_bits: u32, x: usize) -> (r: usize)
    requires
        num_bits <= 16,
    ensures
        r == brev_of(num_bits as int, x as int),
        r < pow2i(num_bits as int),
    decreases num_bits,
{
    proof {
        lemma_brev_range(num_bits as int, x as int);
        lemma_pow2i_values();
        lemma_pow2i_mono(num_bits as int, 16);
    }
    if num_bits == 0 {
        return 0;
    }
    let rest: usize = brev(num_bits - 1, x / 2);
    proof {
        lemma_shl_pow2((num_bits - 1) as u32);
    }
    let top: usize = (1u32 << (num_bits - 1)) as usize;
    proof {
        let b = x as int % 2;
        let p = pow2i(num_bits - 1);
        assert(b * p == if b == 1 {
            p
        } else {
            0
        }) by (nonlinear_arith)
            requires
                0 <= b <= 1,
        ;
    }
    if x % 2 == 1 {
        top + rest
    } else {
        rest
    }
}

// ---------------------------------------------------------------------------
// Steps and stages
// ---------------------------------------------------------------------------

/// One step of a schedule: a rotation by an angle, or a sum and difference.
pub struct StepModel {
    pub rotate: bool,
    pub a: int,
    pub b: int,
    pub angle: int,
    pub flip: bool,
}

/// A rotation step.
pub open spec fn rot(a: int, b: int, angle: int, flip: bool) -> StepModel {
    StepModel { rotate: true, a, b, angle, flip }
}

/// A sum and difference step.
pub open spec fn had(a: int, b: int, flip: bool) -> StepModel {
    StepModel { rotate: false, a, b, angle: 0, flip }
}

/// The number of steps of a stage. Stages 0 to 29 are those of the cosine
/// transform of two to the power `n` points, 30 to 34 those of the eight point sine
/// transform, 35 to 41 those of the sixteen point one.
pub open spec fn stage_len(stage: int, n: int) -> int {
    if stage == 0 || stage == 2 || stage == 9 || stage == 19 || stage == 26 {
        if n == 6 {
            16
        } else {
            0
        }
    } else if stage == 5 || stage == 14 || stage == 23 || stage == 28 {
        if n == 6 {
            8
        } else {
            0
        }
    } else if stage == 29 {
        if n == 6 {
            32
        } else {
            0
        }
    } else if stage == 1 || stage == 4 || stage == 13 || stage == 22 {
        if n >= 5 {
            8
        } else {
            0
        }
    } else if stage == 8 || stage == 18 || stage == 25 {
        if n >= 5 {
            4
        } else {
            0
        }
    } else if stage == 27 {
        if n >= 5 {
            16
        } else {
            0
        }
    } else if stage == 3 || stage == 7 || stage == 17 {
        if n >= 4 {
            4
        } else {
            0
        }
    } else if stage == 12 || stage == 21 {
        if n >= 4 {
            2
        } else {
            0
        }
    } else if stage == 24 {
        if n >= 4 {
            8
        } else {
            0
        }
    } else if stage == 6 || stage == 11 {
        if n >= 3 {
            2
        } else {
            0
        }
    } else if stage == 16 {
        if n >= 3 {
            1
        } else {
            0
        }
    } else if stage == 20 {
        if n >= 3 {
            4
        } else {
            0
        }
    } else if stage == 10 || stage == 15 {
        2
    } else if stage == 30 || stage == 31 || stage == 33 || stage == 37 || stage == 39 || stage
        == 41 {
        4
    } else if stage == 32 || stage == 34 {
        2
    } else {
        8
    }
}

/// Step `k` of a stage.
pub open spec fn step_of(stage: int, k: int) -> StepModel {
    let odd = k % 2 == 1;
    let i2 = k / 2;
    let j2 = k % 2;
    let i4 = k / 4;
    let j4 = k % 4;
    if stage == 0 {
        rot(32 + k, 63 - k, 63 - 4 * brev_of(4, k), false)
    } else if stage == 1 {
        rot(16 + k, 31 - k, 6 + 8 * brev_of(3, 7 - k), false)
    } else if stage == 2 {
        had(32 + 2 * k, 33 + 2 * k, odd)
    } else if stage == 3 {
        rot(8 + k, 15 - k, 12 + 16 * brev_of(2, 3 - k), false)
    } else if stage == 4 {
        had(16 + 2 * k, 17 + 2 * k, odd)
    } else if stage == 5 {
        rot(62 - 4 * i2 - j2, 33 + 4 * i2 + j2, 60 - 16 * brev_of(2, i2) + 64 * j2, true)
    } else if stage == 6 {
        rot(4 + k, 7 - k, 56 - 32 * k, false)
    } else if stage == 7 {
        had(8 + 2 * k, 9 + 2 * k, odd)
    } else if stage == 8 {
        rot(30 - 4 * i2 - j2, 17 + 4 * i2 + j2, 24 + 64 * j2 + 32 * (1 - i2), true)
    } else if stage == 9 {
        had(32 + 4 * i2 + j2, 35 + 4 * i2 - j2, i2 % 2 == 1)
    } else if stage == 10 {
        rot(2 * k, 2 * k + 1, 32 + 16 * k, k == 0)
    } else if stage == 11 {
        had(4 + 2 * k, 5 + 2 * k, k != 0)
    } else if stage == 12 {
        rot(14 - k, 9 + k, 48 + 64 * k, true)
    } else if stage == 13 {
        had(16 + 4 * i2 + j2, 19 + 4 * i2 - j2, i2 % 2 == 1)
    } else if stage == 14 {
        rot(61 - 8 * i4 - j4, 34 + 8 * i4 + j4, 56 - 32 * i4 + 64 * (j4 / 2), true)
    } else if stage == 15 {
        had(k, 3 - k, false)
    } else if stage == 16 {
        rot(6, 5, 32, true)
    } else if stage == 17 {
        had(8 + 4 * i2 + j2, 11 + 4 * i2 - j2, i2 != 0)
    } else if stage == 18 {
        rot(29 - k, 18 + k, 48 + 64 * i2, true)
    } else if stage == 19 {
        had(32 + 8 * i4 + j4, 39 + 8 * i4 - j4, i4 % 2 == 1)
    } else if stage == 20 {
        had(k, 7 - k, false)
    } else if stage == 21 {
        rot(13 - k, 10 + k, 32, true)
    } else if stage == 22 {
        had(16 + 8 * i4 + j4, 23 + 8 * i4 - j4, i4 != 0)
    } else if stage == 23 {
        rot(
            59 - k,
            36 + k,
            if k < 4 {
                48
            } else {
                112
            },
            true,
        )
    } else if stage == 24 {
        had(k, 15 - k, false)
    } else if stage == 25 {
        rot(27 - k, 20 + k, 32, true)
    } else if stage == 26 {
        if odd {
            had(48 + i2, 63 - i2, true)
        } else {
            had(32 + i2, 47 - i2, false)
        }
    } else if stage == 27 {
        had(k, 31 - k, false)
    } else if stage == 28 {
        rot(55 - k, 40 + k, 32, true)
    } else if stage == 29 {
        had(k, 63 - k, false)
    } else if stage == 30 {
        rot(2 * k, 2 * k + 1, 60 - 16 * k, true)
    } else if stage == 31 {
        had(k, 4 + k, false)
    } else if stage == 32 {
        rot(4 + 3 * k, 5 + k, 48 - 32 * k, true)
    } else if stage == 33 {
        had(4 * i2 + j2, 2 + 4 * i2 + j2, false)
    } else if stage == 34 {
        rot(2 + 4 * k, 3 + 4 * k, 32, true)
    } else if stage == 35 {
        rot(2 * k, 2 * k + 1, 62 - 8 * k, true)
    } else if stage == 36 {
        had(k, 8 + k, false)
    } else if stage == 37 {
        if odd {
            rot(13 + 2 * i2, 12 + 2 * i2, 8 + 32 * i2, true)
        } else {
            rot(8 + 2 * i2, 9 + 2 * i2, 56 - 32 * i2, true)
        }
    } else if stage == 38 {
        had(8 * i4 + j4, 4 + 8 * i4 + j4, false)
    } else if stage == 39 {
        rot(4 + 8 * i2 + 3 * j2, 5 + 8 * i2 + j2, 48 - 32 * j2, true)
    } else if stage == 40 {
        had(4 * i2 + j2, 2 + 4 * i2 + j2, false)
    } else {
        rot(2 + 4 * k, 3 + 4 * k, 32, true)
    }
}

/// The number of points of the transform that a stage belongs to.
pub open spec fn stage_points(stage: int, n: int) -> int {
    if stage >= 35 {
        16
    } else if stage >= 30 {
        8
    } else {
        pow2i(n)
    }
}

/// A step of a schedule.
struct Step {
    rotate: bool,
    a: usize,
    b: usize,
    angle: i32,
    flip: bool,
}

impl Step {
    spec fn models(self, m: StepModel) -> bool {
        &&& self.rotate == m.rotate
        &&& self.a == m.a
        &&& self.b == m.b
        &&& self.angle == m.angle
        &&& self.flip == m.flip
    }
}

fn rotation(a: usize, b: usize, angle: i32, flip: bool) -> (r: Step)
    ensures
        r.models(rot(a as int, b as int, angle as int, flip)),
{
    Step { rotate: true, a, b, angle, flip }
}

fn sum_diff(a: usize, b: usize, flip: bool) -> (r: Step)
    ensures
        r.models(had(a as int, b as int, flip)),
{
    Step { rotate: false, a, b, angle: 0, flip }
}

/// Step `k` of one of the first ten stages.
fn step_low(stage: u32, k: usize) -> (r: Step)
    requires
        0 <= stage < 10,
        k < stage_len(stage as int, 6),
    ensures
        r.models(step_of(stage as int, k as int)),
        0 <= r.angle <= 256,
{
    let i2: usize = k / 2;
    let j2: usize = k % 2;
    let i4: usize = k / 4;
    let j4: usize = k % 4;
    proof {
        lemma_pow2i_values();
    }
    if stage == 0 {
        rotation(32 + k, 63 - k, 63 - 4 * (brev(4, k) as i32), false)
    } else if stage == 1 {
        rotation(16 + k, 31 - k, 6 + 8 * (brev(3, 7 - k) as i32), false)
    } else if stage == 2 {
        sum_diff(32 + 2 * k, 33 + 2 * k, k % 2 == 1)
    } else if stage == 3 {
        rotation(8 + k, 15 - k, 12 + 16 * (brev(2, 3 - k) as i32), false)
    } else if stage == 4 {
        sum_diff(16 + 2 * k, 17 + 2 * k, k % 2 == 1)
    } else if stage == 5 {
        rotation(62 - 4 * i2 - j2, 33 + 4 * i2 + j2, 60 - 16 * (brev(2, i2) as i32) + 64 * (j2 as i32), true)
    } else if stage == 6 {
        rotation(4 + k, 7 - k, 56 - 32 * (k as i32), false)
    } else if stage == 7 {
        sum_diff(8 + 2 * k, 9 + 2 * k, k % 2 == 1)
    } else if stage == 8 {
        rotation(30 - 4 * i2 - j2, 17 + 4 * i2 + j2, 24 + 64 * (j2 as i32) + 32 * (1 - i2 as i32), true)
    } else {
        sum_diff(32 + 4 * i2 + j2, 35 + 4 * i2 - j2, i2 % 2 == 1)
    }
}

/// Step `k` of one of the next ten stages.
fn step_mid(stage: u32, k: usize) -> (r: Step)
    requires
        10 <= stage < 20,
        k < stage_len(stage as int, 6),
    ensures
        r.models(step_of(stage as int, k as int)),
        0 <= r.angle <= 256,
{
    let i2: usize = k / 2;
    let j2: usize = k % 2;
    let i4: usize = k / 4;
    let j4: usize = k % 4;
    proof {
        lemma_pow2i_values();
    }
    if stage == 10 {
        rotation(2 * k, 2 * k + 1, 32 + 16 * (k as i32), k == 0)
    } else if stage == 11 {
        sum_diff(4 + 2 * k, 5 + 2 * k, k != 0)
    } else if stage == 12 {
        rotation(14 - k, 9 + k, 48 + 64 * (k as i32), true)
    } else if stage == 13 {
        sum_diff(16 + 4 * i2 + j2, 19 + 4 * i2 - j2, i2 % 2 == 1)
    } else if stage == 14 {
        rotation(61 - 8 * i4 - j4, 34 + 8 * i4 + j4, 56 - 32 * (i4 as i32) + 64 * ((j4 / 2) as i32), true)
    } else if stage == 15 {
        sum_diff(k, 3 - k, false)
    } else if stage == 16 {
        rotation(6, 5, 32, true)
    } else if stage == 17 {
        sum_diff(8 + 4 * i2 + j2, 11 + 4 * i2 - j2, i2 != 0)
    } else if stage == 18 {
        rotation(29 - k, 18 + k, 48 + 64 * (i2 as i32), true)
    } else {
        sum_diff(32 + 8 * i4 + j4, 39 + 8 * i4 - j4, i4 % 2 == 1)
    }
}

/// Step `k` of one of the last cosine stages.
fn step_high(stage: u32, k: usize) -> (r: Step)
    requires
        20 <= stage < 30,
        k < stage_len(stage as int, 6),
    ensures
        r.models(step_of(stage as int, k as int)),
        0 <= r.angle <= 256,
{
    let i2: usize = k / 2;
    let j2: usize = k % 2;
    let i4: usize = k / 4;
    let j4: usize = k % 4;
    proof {
        lemma_pow2i_values();
    }
    if stage == 20 {
        sum_diff(k, 7 - k, false)
    } else if stage == 21 {
        rotation(13 - k, 10 + k, 32, true)
    } else if stage == 22 {
        sum_diff(16 + 8 * i4 + j4, 23 + 8 * i4 - j4, i4 != 0)
    } else if stage == 23 {
        rotation(59 - k, 36 + k, if k < 4 { 48 } else { 112 }, true)
    } else if stage == 24 {
        sum_diff(k, 15 - k, false)
    } else if stage == 25 {
        rotation(27 - k, 20 + k, 32, true)
    } else if stage == 26 {
        if k % 2 == 1 { sum_diff(48 + i2, 63 - i2, true) } else { sum_diff(32 + i2, 47 - i2, false) }
    } else if stage == 27 {
        sum_diff(k, 31 - k, false)
    } else if stage == 28 {
        rotation(55 - k, 40 + k, 32, true)
    } else {
        sum_diff(k, 63 - k, false)
    }
}

/// Step `k` of a sine stage.
fn step_sine(stage: u32, k: usize) -> (r: Step)
    requires
        30 <= stage < 42,
        k < stage_len(stage as int, 6),
    ensures
        r.models(step_of(stage as int, k as int)),
        0 <= r.angle <= 256,
{
    let i2: usize = k / 2;
    let j2: usize = k % 2;
    let i4: usize = k / 4;
    let j4: usize = k % 4;
    proof {
        lemma_pow2i_values();
    }
    if stage == 30 {
        rotation(2 * k, 2 * k + 1, 60 - 16 * (k as i32), true)
    } else if stage == 31 {
        sum_diff(k, 4 + k, false)
    } else if stage == 32 {
        rotation(4 + 3 * k, 5 + k, 48 - 32 * (k as i32), true)
    } else if stage == 33 {
        sum_diff(4 * i2 + j2, 2 + 4 * i2 + j2, false)
    } else if stage == 34 {
        rotation(2 + 4 * k, 3 + 4 * k, 32, true)
    } else if stage == 35 {
        rotation(2 * k, 2 * k + 1, 62 - 8 * (k as i32), true)
    } else if stage == 36 {
        sum_diff(k, 8 + k, false)
    } else if stage == 37 {
        if k % 2 == 1 { rotation(13 + 2 * i2, 12 + 2 * i2, 8 + 32 * (i2 as i32), true) } else { rotation(8 + 2 * i2, 9 + 2 * i2, 56 - 32 * (i2 as i32), true) }
    } else if stage == 38 {
        sum_diff(8 * i4 + j4, 4 + 8 * i4 + j4, false)
    } else if stage == 39 {
        rotation(4 + 8 * i2 + 3 * j2, 5 + 8 * i2 + j2, 48 - 32 * (j2 as i32), true)
    } else if stage == 40 {
        sum_diff(4 * i2 + j2, 2 + 4 * i2 + j2, false)
    } else {
        rotation(2 + 4 * k, 3 + 4 * k, 32, true)
    }
}

/// Two steps touch different points.
pub open spec fn apart(s: StepModel, t: StepModel) -> bool {
    &&& s.a != t.a
    &&& s.a != t.b
    &&& s.b != t.a
    &&& s.b != t.b
}

proof fn lemma_apart_0(stage: int, n: int, i: int, k: int)
    requires
        0 <= stage < 5,
        2 <= n <= 6,
        0 <= i < k < stage_len(stage, n),
    ensures
        apart(step_of(stage, i), step_of(stage, k)),
{
}

proof fn lemma_apart_1(stage: int, n: int, i: int, k: int)
    requires
        5 <= stage < 10,
        2 <= n <= 6,
        0 <= i < k < stage_len(stage, n),
    ensures
        apart(step_of(stage, i), step_of(stage, k)),
{
}

proof fn lemma_apart_2(stage: int, n: int, i: int, k: int)
    requires
        10 <= stage < 15,
        2 <= n <= 6,
        0 <= i < k < stage_len(stage, n),
    ensures
        apart(step_of(stage, i), step_of(stage, k)),
{
}

proof fn lemma_apart_3(stage: int, n: int, i: int, k: int)
    requires
        15 <= stage < 20,
        2 <= n <= 6,
        0 <= i < k < stage_len(stage, n),
    ensures
        apart(step_of(stage, i), step_of(stage, k)),
{
}

proof fn lemma_apart_4(stage: int, n: int, i: int, k: int)
    requires
        20 <= stage < 25,
        2 <= n <= 6,
        0 <= i < k < stage_len(stage, n),
    ensures
        apart(step_of(stage, i), step_of(stage, k)),
{
}

proof fn lemma_apart_5(stage: int, n: int, i: int, k: int)
    requires
        25 <= stage < 30,
        2 <= n <= 6,
        0 <= i < k < stage_len(stage, n),
    ensures
        apart(step_of(stage, i), step_of(stage, k)),
{
}

proof fn lemma_apart_6(stage: int, n: int, i: int, k: int)
    requires
        30 <= stage < 36,
        2 <= n <= 6,
        0 <= i < k < stage_len(stage, n),
    ensures
        apart(step_of(stage, i), step_of(stage, k)),
{
}

proof fn lemma_apart_7(stage: int, n: int, i: int, k: int)
    requires
        36 <= stage < 42,
        2 <= n <= 6,
        0 <= i < k < stage_len(stage, n),
    ensures
        apart(step_of(stage, i), step_of(stage, k)),
{
}

/// The steps of a stage touch different points.
pub proof fn lemma_steps_apart(stage: int, n: int, i: int, k: int)
    requires
        0 <= stage < 42,
        2 <= n <= 6,
        0 <= i < k < stage_len(stage, n),
    ensures
        apart(step_of(stage, i), step_of(stage, k)),
{
    if stage < 5 {
        lemma_apart_0(stage, n, i, k);
    } else if stage < 10 {
        lemma_apart_1(stage, n, i, k);
    } else if stage < 15 {
        lemma_apart_2(stage, n, i, k);
    } else if stage < 20 {
        lemma_apart_3(stage, n, i, k);
    } else if stage < 25 {
        lemma_apart_4(stage, n, i, k);
    } else if stage < 30 {
        lemma_apart_5(stage, n, i, k);
    } else if stage < 36 {
        lemma_apart_6(stage, n, i, k);
    } else {
        lemma_apart_7(stage, n, i, k);
    }
}

/// A step touches two different points of the transform.
pub proof fn lemma_step_in_range(stage: int, n: int, k: int)
    requires
        0 <= stage < 42,
        2 <= n <= 6,
        0 <= k < stage_len(stage, n),
    ensures
        0 <= step_of(stage, k).a < stage_points(stage, n),
        0 <= step_of(stage, k).b < stage_points(stage, n),
        step_of(stage, k).a != step_of(stage, k).b,
{
    lemma_pow2i_values();
}

/// Step `k` of a stage.
fn stage_step(stage: u32, k: usize) -> (r: Step)
    requires
        stage < 42,
        k < stage_len(stage as int, 6),
    ensures
        r.models(step_of(stage as int, k as int)),
        0 <= r.angle <= 256,
{
    if stage < 10 {
        step_low(stage, k)
    } else if stage < 20 {
        step_mid(stage, k)
    } else if stage < 30 {
        step_high(stage, k)
    } else {
        step_sine(stage, k)
    }
}

/// The number of steps of a stage.
fn stage_count(stage: u32, n: u32) -> (r: usize)
    requires
        stage < 42,
    ensures
        r == stage_len(stage as int, n as int),
{
    let least: u32 = if stage == 0 || stage == 2 || stage == 9 || stage == 19 || stage == 26 || stage
        == 5 || stage == 14 || stage == 23 || stage == 28 || stage == 29 {
        6
    } else if stage == 1 || stage == 4 || stage == 13 || stage == 22 || stage == 8 || stage == 18
        || stage == 25 || stage == 27 {
        5
    } else if stage == 3 || stage == 7 || stage == 17 || stage == 12 || stage == 21 || stage == 24 {
        4
    } else if stage == 6 || stage == 11 || stage == 16 || stage == 20 {
        3
    } else {
        0
    };
    if n < least || (least == 6 && n != 6) {
        return 0;
    }
    if stage == 29 {
        32
    } else if stage == 0 || stage == 2 || stage == 9 || stage == 19 || stage == 26 || stage == 27 {
        16
    } else if stage == 5 || stage == 14 || stage == 23 || stage == 28 || stage == 1 || stage == 4
        || stage == 13 || stage == 22 || stage == 24 || stage == 35 || stage == 36 || stage == 38
        || stage == 40 {
        8
    } else if stage == 8 || stage == 18 || stage == 25 || stage == 3 || stage == 7 || stage == 17
        || stage == 20 || stage == 30 || stage == 31 || stage == 33 || stage == 37 || stage == 39
        || stage == 41 {
        4
    } else if stage == 16 {
        1
    } else {
        2
    }
}

/// Sixteen-bit saturation.
pub open spec fn sat16(x: int) -> int {
    clampi(x, -32768, 32767)
}

/// A number of sixteen bits.
pub open spec fn is16(x: int) -> bool {
    -32768 <= x <= 32767
}

/// Every point lies within `m` of zero.
pub open spec fn bounded(t: Seq<i64>, m: int) -> bool {
    forall|i: int| 0 <= i < t.len() ==> -m <= #[trigger] t[i] <= m
}

/// The points after one step.
#[verifier::opaque]
pub open spec fn step_apply(t: Seq<i64>, s: StepModel) -> Seq<i64> {
    let u = t[s.a] as int;
    let v = t[s.b] as int;
    if s.rotate {
        let x = round_shift(u * cos_of(s.angle) - v * sin_of(s.angle), 12) as i64;
        let y = round_shift(u * sin_of(s.angle) + v * cos_of(s.angle), 12) as i64;
        if s.flip {
            t.update(s.a, y).update(s.b, x)
        } else {
            t.update(s.a, x).update(s.b, y)
        }
    } else if s.flip {
        t.update(s.b, sat16(v + u) as i64).update(s.a, sat16(v - u) as i64)
    } else {
        t.update(s.a, sat16(u + v) as i64).update(s.b, sat16(u - v) as i64)
    }
}

/// The points after the first `k` steps of a stage.
pub open spec fn stage_run(t: Seq<i64>, stage: int, k: int) -> Seq<i64>
    decreases k,
{
    if k <= 0 {
        t
    } else {
        step_apply(stage_run(t, stage, k - 1), step_of(stage, k - 1))
    }
}

/// The points after the stages from `from` up to `to`.
pub open spec fn stages_run(t: Seq<i64>, n: int, from: int, to: int) -> Seq<i64>
    decreases to - from,
{
    if to <= from {
        t
    } else {
        stage_run(stages_run(t, n, from, to - 1), to - 1, stage_len(to - 1, n))
    }
}

/// Applies one step to points within `m` of zero; they stay within twice that.
fn apply_step(t: &mut Vec<i64>, s: &Step, Ghost(sm): Ghost<StepModel>, Ghost(m): Ghost<int>)
    requires
        s.models(sm),
        0 <= s.angle <= 256,
        s.a < old(t)@.len(),
        s.b < old(t)@.len(),
        s.a != s.b,
        1 <= m <= 0x4000_0000_0000,
        -m <= old(t)@[s.a as int] <= m,
        -m <= old(t)@[s.b as int] <= m,
    ensures
        final(t)@ == step_apply(old(t)@, sm),
        final(t)@.len() == old(t)@.len(),
        -2 * m <= final(t)@[s.a as int] <= 2 * m,
        -2 * m <= final(t)@[s.b as int] <= 2 * m,
        !s.rotate ==> is16(final(t)@[s.a as int] as int) && is16(final(t)@[s.b as int] as int),
        forall|i: int|
            0 <= i < old(t)@.len() && i != s.a && i != s.b ==> #[trigger] final(t)@[i] == old(t)@[i],
{
    proof {
        reveal(step_apply);
    }
    let ghost t0 = t@;
    let u: i64 = t[s.a];
    let v: i64 = t[s.b];
    if s.rotate {
        let c: i64 = cos128(s.angle);
        let d: i64 = sin128(s.angle);
        proof {
            lemma_product_bound(u as int, c as int, m, 4096);
            lemma_product_bound(v as int, d as int, m, 4096);
            lemma_product_bound(u as int, d as int, m, 4096);
            lemma_product_bound(v as int, c as int, m, 4096);
            lemma_pow2i_values();
        }
        let x: i64 = round2(u * c - v * d, 12);
        let y: i64 = round2(u * d + v * c, 12);
        if s.flip {
            t[s.a] = y;
            t[s.b] = x;
        } else {
            t[s.a] = x;
            t[s.b] = y;
        }
    } else if s.flip {
        t[s.b] = clamp64(v + u, -32768, 32767);
        t[s.a] = clamp64(v - u, -32768, 32767);
    } else {
        t[s.a] = clamp64(u + v, -32768, 32767);
        t[s.b] = clamp64(u - v, -32768, 32767);
    }
}

/// Runs one stage on points within `m` of zero.
fn run_stage(t: &mut Vec<i64>, stage: u32, n: u32, Ghost(m): Ghost<int>)
    requires
        stage < 42,
        2 <= n <= 6,
        stage_points(stage as int, n as int) <= old(t)@.len(),
        1 <= m <= 0x4000_0000_0000,
        bounded(old(t)@, m),
    ensures
        final(t)@ == stage_run(old(t)@, stage as int, stage_len(stage as int, n as int)),
        final(t)@.len() == old(t)@.len(),
        bounded(final(t)@, 2 * m),
        forall|k: int|
            0 <= k < stage_len(stage as int, n as int) && !(#[trigger] step_of(
                stage as int,
                k,
            )).rotate ==> is16(final(t)@[step_of(stage as int, k).a] as int) && is16(
                final(t)@[step_of(stage as int, k).b] as int,
            ),
{
    let ghost t0 = t@;
    let ghost g = stage as int;
    let count: usize = stage_count(stage, n);
    proof {
        assert forall|j: int| 0 <= j < count implies -m <= t@[(#[trigger] step_of(g, j)).a] <= m
            && -m <= t@[step_of(g, j).b] <= m by {
            lemma_step_in_range(g, n as int, j);
        }
    }
    let mut k: usize = 0;
    while k < count
        invariant
            k <= count,
            stage < 42,
            g == stage,
            2 <= n <= 6,
            count == stage_len(g, n as int),
            stage_points(g, n as int) <= t@.len(),
            t@.len() == t0.len(),
            1 <= m <= 0x4000_0000_0000,
            t@ == stage_run(t0, g, k as int),
            bounded(t@, 2 * m),
            forall|j: int|
                k <= j < count ==> -m <= t@[(#[trigger] step_of(g, j)).a] <= m && -m <= t@[step_of(
                    g,
                    j,
                ).b] <= m,
            forall|j: int|
                0 <= j < k && !(#[trigger] step_of(g, j)).rotate ==> is16(
                    t@[step_of(g, j).a] as int,
                ) && is16(t@[step_of(g, j).b] as int),
        decreases count - k,
    {
        proof {
            lemma_step_in_range(g, n as int, k as int);
            assert(stage_len(g, n as int) <= stage_len(g, 6));
        }
        let ghost before = t@;
        let s: Step = stage_step(stage, k);
        apply_step(t, &s, Ghost(step_of(g, k as int)), Ghost(m));
        proof {
            assert forall|j: int| k + 1 <= j < count implies -m <= t@[(#[trigger] step_of(g, j)).a]
                <= m && -m <= t@[step_of(g, j).b] <= m by {
                lemma_steps_apart(g, n as int, k as int, j);
                lemma_step_in_range(g, n as int, j);
            }
            assert forall|j: int| 0 <= j < k + 1 && !(#[trigger] step_of(g, j)).rotate implies is16(
                t@[step_of(g, j).a] as int,
            ) && is16(t@[step_of(g, j).b] as int) by {
                if j < k {
                    lemma_steps_apart(g, n as int, j, k as int);
                    lemma_step_in_range(g, n as int, j);
                }
            }
        }
        k = k + 1;
    }
}

// ---------------------------------------------------------------------------
// The cosine transform
// ---------------------------------------------------------------------------

/// The points in bit-reversed order.
pub open spec fn dct_permuted(t: Seq<i64>, n: int) -> Seq<i64> {
    Seq::new(
        t.len(),
        |i: int|
            if i < pow2i(n) {
                t[brev_of(n, i)]
            } else {
                t[i]
            },
    )
}

/// The inverse cosine transform of the first two to the power `n` points.
#[verifier::opaque]
pub open spec fn dct_of(t: Seq<i64>, n: int) -> Seq<i64> {
    stages_run(dct_permuted(t, n), n, 0, 30)
}

/// Puts the first two to the power `n` points into bit-reversed order.
pub fn inverse_dct_permute(t: &mut Vec<i64>, n: u32)
    requires
        n <= 6,
        pow2i(n as int) <= old(t)@.len(),
    ensures
        final(t)@ == dct_permuted(old(t)@, n as int),
{
    let ghost t0 = t@;
    let mut out: Vec<i64> = Vec::new();
    proof {
        lemma_shl_pow2(n);
        lemma_pow2i_values();
        lemma_pow2i_mono(n as int, 6);
    }
    let len: usize = (1u32 << n) as usize;
    let mut i: usize = 0;
    while i < t.len()
        invariant
            i <= t@.len(),
            n <= 6,
            t@ == t0,
            len == pow2i(n as int),
            len <= t0.len(),
            out@.len() == i,
            forall|k: int| 0 <= k < i ==> #[trigger] out@[k] == dct_permuted(t0, n as int)[k],
        decreases t@.len() - i,
    {
        if i < len {
            out.push(t[brev(n, i)]);
        } else {
            out.push(t[i]);
        }
        i = i + 1;
    }
    assert(out@ =~= dct_permuted(t0, n as int));
    *t = out;
}

/// The last stage with steps of the cosine transform of two to the power `n` points.
spec fn last_stage(n: int) -> int {
    if n == 2 {
        15
    } else if n == 3 {
        20
    } else if n == 4 {
        24
    } else if n == 5 {
        27
    } else {
        29
    }
}

/// The last stage covers every point.
proof fn lemma_last_stage(n: int, i: int)
    requires
        2 <= n <= 6,
        0 <= i < pow2i(n),
    ensures
        ({
            let k = if i < pow2i(n - 1) {
                i
            } else {
                pow2i(n) - 1 - i
            };
            let s = step_of(last_stage(n), k);
            &&& 0 <= k < stage_len(last_stage(n), n)
            &&& !s.rotate
            &&& s.a == i || s.b == i
        }),
{
    lemma_pow2i_values();
}

proof fn lemma_no_more_stages(stage: int, n: int)
    requires
        2 <= n <= 6,
        last_stage(n) < stage < 30,
    ensures
        stage_len(stage, n) == 0,
{
}

/// Inverse cosine transform of the first two to the power `n` points.
pub fn inverse_dct(t: &mut Vec<i64>, n: u32)
    requires
        2 <= n <= 6,
        pow2i(n as int) <= old(t)@.len(),
        bounded(old(t)@, 65536),
    ensures
        final(t)@ == dct_of(old(t)@, n as int),
        final(t)@.len() == old(t)@.len(),
        forall|i: int| 0 <= i < pow2i(n as int) ==> is16(#[trigger] final(t)@[i] as int),
{
    let ghost t0 = t@;
    proof {
        reveal(dct_of);
        lemma_pow2i_values();
    }
    inverse_dct_permute(t, n);
    let ghost p = t@;
    proof {
        assert forall|i: int| 0 <= i < p.len() implies -65536 <= #[trigger] p[i] <= 65536 by {
            lemma_brev_range(n as int, i);
        }
    }
    let mut stage: u32 = 0;
    while stage < 30
        invariant
            stage <= 30,
            2 <= n <= 6,
            pow2i(n as int) <= t@.len(),
            t@.len() == t0.len(),
            t@ == stages_run(p, n as int, 0, stage as int),
            bounded(t@, 65536 * pow2i(stage as int)),
            stage > last_stage(n as int) ==> forall|i: int|
                0 <= i < pow2i(n as int) ==> is16(#[trigger] t@[i] as int),
        decreases 30 - stage,
    {
        let ghost before = t@;
        let ghost m = 65536 * pow2i(stage as int);
        proof {
            lemma_pow2i_mono(0, stage as int);
            lemma_pow2i_mono(stage as int, 30);
            lemma_pow2i_values();
            assert(pow2i(stage + 1) == 2 * pow2i(stage as int));
        }
        run_stage(t, stage, n, Ghost(m));
        proof {
            if stage == last_stage(n as int) {
                assert forall|i: int| 0 <= i < pow2i(n as int) implies is16(
                    #[trigger] t@[i] as int,
                ) by {
                    lemma_last_stage(n as int, i);
                }
            } else if stage > last_stage(n as int) {
                lemma_no_more_stages(stage as int, n as int);
                assert(t@ == before);
            }
        }
        stage = stage + 1;
    }
}

// ---------------------------------------------------------------------------
// The sine transforms
// ---------------------------------------------------------------------------

/// The points of a sine transform in input order.
pub open spec fn adst_in(t: Seq<i64>, len: int) -> Seq<i64> {
    Seq::new(
        t.len(),
        |i: int|
            if i >= len {
                t[i]
            } else if i % 2 == 1 {
                t[i - 1]
            } else {
                t[len - i - 1]
            },
    )
}

/// Where output point `i` of a sine transform of eight or sixteen points comes from.
pub open spec fn adst_source(i: int, len: int) -> int {
    let b0 = i % 2;
    let b1 = (i / 2) % 2;
    let b2 = (i / 4) % 2;
    let b3 = (i / 8) % 2;
    let x = ((b0 + b1) % 2) * 8 + ((b1 + b2) % 2) * 4 + ((b2 + b3) % 2) * 2 + b3;
    if len == 8 {
        x / 2
    } else {
        x
    }
}

/// The points of a sine transform in output order, every other one negated.
pub open spec fn adst_out(t: Seq<i64>, len: int) -> Seq<i64> {
    Seq::new(
        t.len(),
        |i: int|
            if i >= len {
                t[i]
            } else if i % 2 == 1 {
                (-t[adst_source(i, len)]) as i64
            } else {
                t[adst_source(i, len)]
            },
    )
}

proof fn lemma_adst_source(i: int, len: int)
    requires
        len == 8 || len == 16,
        0 <= i < len,
    ensures
        0 <= adst_source(i, len) < len,
{
}

/// Puts the points of a sine transform into input order.
fn adst_input_permute(t: &mut Vec<i64>, len: usize)
    requires
        len == 8 || len == 16,
        len <= old(t)@.len(),
    ensures
        final(t)@ == adst_in(old(t)@, len as int),
{
    let ghost t0 = t@;
    let mut out: Vec<i64> = Vec::new();
    let mut i: usize = 0;
    while i < t.len()
        invariant
            i <= t@.len(),
            t@ == t0,
            len == 8 || len == 16,
            len <= t0.len(),
            out@.len() == i,
            forall|k: int| 0 <= k < i ==> #[trigger] out@[k] == adst_in(t0, len as int)[k],
        decreases t@.len() - i,
    {
        if i >= len {
            out.push(t[i]);
        } else if i % 2 == 1 {
            out.push(t[i - 1]);
        } else {
            out.push(t[len - i - 1]);
        }
        i = i + 1;
    }
    assert(out@ =~= adst_in(t0, len as int));
    *t = out;
}

/// Puts the points of a sine transform into output order.
fn adst_output_permute(t: &mut Vec<i64>, len: usize)
    requires
        len == 8 || len == 16,
        len <= old(t)@.len(),
        bounded(old(t)@, 0x4000_0000_0000),
    ensures
        final(t)@ == adst_out(old(t)@, len as int),
{
    let ghost t0 = t@;
    let mut out: Vec<i64> = Vec::new();
    let mut i: usize = 0;
    while i < t.len()
        invariant
            i <= t@.len(),
            t@ == t0,
            bounded(t0, 0x4000_0000_0000),
            len == 8 || len == 16,
            len <= t0.len(),
            out@.len() == i,
            forall|k: int| 0 <= k < i ==> #[trigger] out@[k] == adst_out(t0, len as int)[k],
        decreases t@.len() - i,
    {
        if i >= len {
            out.push(t[i]);
        } else {
            proof {
                lemma_adst_source(i as int, len as int);
            }
            let b0: usize = i % 2;
            let b1: usize = (i / 2) % 2;
            let b2: usize = (i / 4) % 2;
            let b3: usize = (i / 8) % 2;
            let x: usize = ((b0 + b1) % 2) * 8 + ((b1 + b2) % 2) * 4 + ((b2 + b3) % 2) * 2 + b3;
            let source: usize = if len == 8 {
                x / 2
            } else {
                x
            };
            assert(source == adst_source(i as int, len as int));
            if i % 2 == 1 {
                out.push(-t[source]);
            } else {
                out.push(t[source]);
            }
        }
        i = i + 1;
    }
    assert(out@ =~= adst_out(t0, len as int));
    *t = out;
}

/// The four point inverse sine transform; the factors are sines of multiples of
/// pi / 9.
#[verifier::opaque]
pub open spec fn adst4_of(t: Seq<i64>) -> Seq<i64> {
    let s0 = 1321 * t[0] + 3803 * t[2] + 2482 * t[3];
    let s1 = 2482 * t[0] - 1321 * t[2] - 3803 * t[3];
    let s2 = 3344 * (t[0] - t[2] + t[3]);
    let s3 = 3344 * t[1];
    t.update(0, round_shift(s0 + s3, 12) as i64).update(1, round_shift(s1 + s3, 12) as i64).update(
        2,
        round_shift(s2, 12) as i64,
    ).update(3, round_shift(s0 + s1 - s3, 12) as i64)
}

/// The inverse sine transform: of four or eight points, or of the first sixteen.
#[verifier::opaque]
pub open spec fn adst_of(t: Seq<i64>, n: int) -> Seq<i64> {
    if n == 2 {
        adst4_of(t)
    } else if n == 3 {
        adst_out(stages_run(adst_in(t, 8), 3, 30, 35), 8)
    } else {
        adst_out(stages_run(adst_in(t, 16), 4, 35, 42), 16)
    }
}

/// Inverse sine transform of four points.
fn inverse_adst4(t: &mut Vec<i64>)
    requires
        4 <= old(t)@.len(),
        bounded(old(t)@, 65536),
    ensures
        final(t)@ == adst4_of(old(t)@),
        final(t)@.len() == old(t)@.len(),
        bounded(final(t)@, 0x80_0000),
{
    proof {
        reveal(adst4_of);
        lemma_pow2i_values();
    }
    let ghost t0 = t@;
    let t0e: i64 = t[0];
    let t1e: i64 = t[1];
    let t2e: i64 = t[2];
    let t3e: i64 = t[3];
    let s0: i64 = 1321 * t0e + 3803 * t2e + 2482 * t3e;
    let s1: i64 = 2482 * t0e - 1321 * t2e - 3803 * t3e;
    let s2: i64 = 3344 * (t0e - t2e + t3e);
    let s3: i64 = 3344 * t1e;
    let x0: i64 = round2(s0 + s3, 12);
    let x1: i64 = round2(s1 + s3, 12);
    let x2: i64 = round2(s2, 12);
    let x3: i64 = round2(s0 + s1 - s3, 12);
    assert(-0x80_0000 <= x0 <= 0x80_0000);
    assert(-0x80_0000 <= x1 <= 0x80_0000);
    assert(-0x80_0000 <= x2 <= 0x80_0000);
    assert(-0x80_0000 <= x3 <= 0x80_0000);
    t[0] = x0;
    t[1] = x1;
    t[2] = x2;
    t[3] = x3;
}

/// Runs the stages from `from` up to `to` of a sine transform.
fn run_sine_stages(t: &mut Vec<i64>, n: u32, from: u32, to: u32)
    requires
        (n == 3 && from == 30 && to == 35) || (n == 4 && from == 35 && to == 42),
        pow2i(n as int) <= old(t)@.len(),
        bounded(old(t)@, 65536),
    ensures
        final(t)@ == stages_run(old(t)@, n as int, from as int, to as int),
        final(t)@.len() == old(t)@.len(),
        bounded(final(t)@, 0x80_0000),
{
    let ghost p = t@;
    let mut stage: u32 = from;
    proof {
        lemma_pow2i_values();
    }
    while stage < to
        invariant
            (n == 3 && from == 30 && to == 35) || (n == 4 && from == 35 && to == 42),
            from <= stage <= to,
            pow2i(n as int) <= t@.len(),
            t@.len() == p.len(),
            t@ == stages_run(p, n as int, from as int, stage as int),
            bounded(t@, 65536 * pow2i(stage - from)),
        decreases to - stage,
    {
        let ghost m = 65536 * pow2i(stage - from);
        proof {
            lemma_pow2i_mono(0, stage - from);
            lemma_pow2i_mono(stage - from, 7);
            lemma_pow2i_values();
            assert(pow2i(stage + 1 - from) == 2 * pow2i(stage - from));
        }
        run_stage(t, stage, n, Ghost(m));
        stage = stage + 1;
    }
    proof {
        lemma_pow2i_mono(to - from, 7);
        lemma_pow2i_values();
    }
}

/// Inverse sine transform: of four or eight points, or of the first sixteen.
pub fn inverse_adst(t: &mut Vec<i64>, n: u32)
    requires
        2 <= n <= 6,
        pow2i(n as int) <= old(t)@.len(),
        bounded(old(t)@, 65536),
    ensures
        final(t)@ == adst_of(old(t)@, n as int),
        final(t)@.len() == old(t)@.len(),
        bounded(final(t)@, 0x80_0000),
{
    proof {
        reveal(adst_of);
        lemma_pow2i_values();
        lemma_pow2i_mono(4, if n >= 4 {
            n as int
        } else {
            4
        });
    }
    if n == 2 {
        inverse_adst4(t);
    } else if n == 3 {
        adst_input_permute(t, 8);
        run_sine_stages(t, 3, 30, 35);
        let ghost before = t@;
        adst_output_permute(t, 8);
        proof {
            assert forall|i: int| 0 <= i < t@.len() implies -0x80_0000 <= #[trigger] t@[i]
                <= 0x80_0000 by {
                if i < 8 {
                    lemma_adst_source(i, 8);
                    assert(-0x80_0000 <= before[adst_source(i, 8)] <= 0x80_0000);
                }
            }
        }
    } else {
        adst_input_permute(t, 16);
        run_sine_stages(t, 4, 35, 42);
        let ghost before = t@;
        adst_output_permute(t, 16);
        proof {
            assert forall|i: int| 0 <= i < t@.len() implies -0x80_0000 <= #[trigger] t@[i]
                <= 0x80_0000 by {
                if i < 16 {
                    lemma_adst_source(i, 16);
                    assert(-0x80_0000 <= before[adst_source(i, 16)] <= 0x80_0000);
                }
            }
        }
    }
}

// ---------------------------------------------------------------------------
// The identity transforms
// ---------------------------------------------------------------------------

/// The identity transform of one point: a scale by the size.
pub open spec fn identity_at(v: int, n: int) -> int {
    if n == 2 {
        round_shift(v * 5793, 12)
    } else if n == 3 {
        v * 2
    } else if n == 4 {
        round_shift(v * 11586, 12)
    } else {
        v * 4
    }
}

/// The identity transform: of four, eight or sixteen points, or the first 32.
#[verifier::opaque]
pub open spec fn identity_of(t: Seq<i64>, n: int) -> Seq<i64> {
    Seq::new(
        t.len(),
        |i: int|
            if i < pow2i(n) && i < 32 {
                identity_at(t[i] as int, n) as i64
            } else {
                t[i]
            },
    )
}

/// Identity transform: of four, eight or sixteen points, or the first 32.
pub fn inverse_identity(t: &mut Vec<i64>, n: u32)
    requires
        2 <= n <= 6,
        pow2i(n as int) <= old(t)@.len(),
        bounded(old(t)@, 65536),
    ensures
        final(t)@ == identity_of(old(t)@, n as int),
        final(t)@.len() == old(t)@.len(),
        bounded(final(t)@, 0x80_0000),
{
    let ghost t0 = t@;
    proof {
        reveal(identity_of);
        lemma_pow2i_values();
    }
    let len: usize = if n == 2 {
        4
    } else if n == 3 {
        8
    } else if n == 4 {
        16
    } else {
        32
    };
    let mut i: usize = 0;
    while i < len
        invariant
            i <= len <= t0.len(),
            t@.len() == t0.len(),
            bounded(t0, 65536),
            bounded(t@, 0x80_0000),
            2 <= n <= 6,
            pow2i(12) == 4096,
            pow2i(11) == 2048,
            forall|k: int| i <= k < t0.len() ==> #[trigger] t@[k] == t0[k],
            forall|k: int|
                0 <= k < i ==> #[trigger] t@[k] == identity_at(t0[k] as int, n as int) as i64,
        decreases len - i,
    {
        let v: i64 = t[i];
        assert(v == t0[i as int]);
        let x: i64 = if n == 2 {
            round2(v * 5793, 12)
        } else if n == 3 {
            v * 2
        } else if n == 4 {
            round2(v * 11586, 12)
        } else {
            v * 4
        };
        t[i] = x;
        i = i + 1;
    }
    assert(t@ =~= identity_of(t0, n as int));
}

// ---------------------------------------------------------------------------
// Two dimensions
// ---------------------------------------------------------------------------

/// The kind of one-dimensional transform along an axis.
#[derive(Debug, Clone, Copy, PartialEq, Eq, Structural)]
pub enum AxisTransform {
    Dct,
    Adst,
    Identity,
}

/// The transform along the rows.
pub open spec fn row_axis(tx_type: int) -> AxisTransform {
    if tx_type == DCT_DCT || tx_type == ADST_DCT || tx_type == H_DCT {
        AxisTransform::Dct
    } else if tx_type == DCT_ADST || tx_type == ADST_ADST || tx_type == H_ADST {
        AxisTransform::Adst
    } else {
        AxisTransform::Identity
    }
}

/// The transform along the columns.
pub open spec fn col_axis(tx_type: int) -> AxisTransform {
    if tx_type == DCT_DCT || tx_type == DCT_ADST || tx_type == V_DCT {
        AxisTransform::Dct
    } else if tx_type == ADST_DCT || tx_type == ADST_ADST || tx_type == V_ADST {
        AxisTransform::Adst
    } else {
        AxisTransform::Identity
    }
}

/// The transform along the rows.
pub fn row_axis_transform(tx_type: usize) -> (r: AxisTransform)
    ensures
        r == row_axis(tx_type as int),
{
    if tx_type == DCT_DCT || tx_type == ADST_DCT || tx_type == H_DCT {
        AxisTransform::Dct
    } else if tx_type == DCT_ADST || tx_type == ADST_ADST || tx_type == H_ADST {
        AxisTransform::Adst
    } else {
        AxisTransform::Identity
    }
}

/// The transform along the columns.
pub fn col_axis_transform(tx_type: usize) -> (r: AxisTransform)
    ensures
        r == col_axis(tx_type as int),
{
    if tx_type == DCT_DCT || tx_type == DCT_ADST || tx_type == V_DCT {
        AxisTransform::Dct
    } else if tx_type == ADST_DCT || tx_type == ADST_ADST || tx_type == V_ADST {
        AxisTransform::Adst
    } else {
        AxisTransform::Identity
    }
}

/// A one-dimensional transform of a kind.
pub open spec fn axis_of(t: Seq<i64>, kind: AxisTransform, n: int) -> Seq<i64> {
    match kind {
        AxisTransform::Dct => dct_of(t, n),
        AxisTransform::Adst => adst_of(t, n),
        AxisTransform::Identity => identity_of(t, n),
    }
}

/// Applies a one-dimensional transform of a kind to two to the power `n` points.
fn axis_transform(t: &mut Vec<i64>, kind: AxisTransform, n: u32)
    requires
        2 <= n <= 6,
        pow2i(n as int) == old(t)@.len(),
        bounded(old(t)@, 65536),
    ensures
        final(t)@ == axis_of(old(t)@, kind, n as int),
        final(t)@.len() == old(t)@.len(),
        bounded(final(t)@, 0x80_0000),
{
    match kind {
        AxisTransform::Dct => {
            inverse_dct(t, n);
            assert forall|i: int| 0 <= i < t@.len() implies -0x80_0000 <= #[trigger] t@[i]
                <= 0x80_0000 by {
                assert(is16(t@[i] as int));
            }
        },
        AxisTransform::Adst => inverse_adst(t, n),
        AxisTransform::Identity => inverse_identity(t, n),
    }
}

/// The binary logarithms of the sides of a transform.
pub open spec fn log_w(tx: int) -> int {
    TX_WIDTH_LOG2[tx] as int
}

pub open spec fn log_h(tx: int) -> int {
    TX_HEIGHT_LOG2[tx] as int
}

/// Input point `j` of row `i`: zero outside the coded corner, and scaled by the
/// square root of one half where one side is twice the other.
pub open spec fn row_input(dq: Seq<i32>, tx: int, i: int, j: int) -> int {
    let adj = ADJUSTED_TX_SIZE[tx] as int;
    let aw = TX_WIDTH[adj] as int;
    let ah = TX_HEIGHT[adj] as int;
    let v = if i < ah && j < aw {
        dq[i * aw + j] as int
    } else {
        0
    };
    if log_w(tx) - log_h(tx) == 1 || log_h(tx) - log_w(tx) == 1 {
        round_shift(v * 2896, 12)
    } else {
        v
    }
}

/// The points of row `i` before the row pass.
pub open spec fn row_points(dq: Seq<i32>, tx: int, i: int) -> Seq<i64> {
    Seq::new(TX_WIDTH[tx] as nat, |j: int| row_input(dq, tx, i, j) as i64)
}

/// The point at row `i` and column `j` between the passes.
pub open spec fn mid_point(dq: Seq<i32>, tx_type: int, tx: int, i: int, j: int) -> int {
    sat16(
        round_shift(
            axis_of(row_points(dq, tx, i), row_axis(tx_type), log_w(tx))[j] as int,
            TRANSFORM_ROW_SHIFT[tx] as int,
        ),
    )
}

/// The points of column `j` before the column pass.
pub open spec fn col_points(dq: Seq<i32>, tx_type: int, tx: int, j: int) -> Seq<i64> {
    Seq::new(TX_HEIGHT[tx] as nat, |i: int| mid_point(dq, tx_type, tx, i, j) as i64)
}

/// The residual at row `i` and column `j`: rows first, then columns, each pass
/// rounded.
#[verifier::opaque]
pub open spec fn residual_at(dq: Seq<i32>, tx_type: int, tx: int, i: int, j: int) -> int {
    round_shift(
        axis_of(col_points(dq, tx_type, tx, j), col_axis(tx_type), log_h(tx))[i] as int,
        4,
    )
}

/// Row `r` of the first pass of the Walsh-Hadamard transform.
pub open spec fn wht_row(src: Seq<i32>, r: int, c: int) -> int {
    let a = src[4 * r] as int;
    let b = src[4 * r + 1] as int;
    let d = src[4 * r + 2] as int;
    let e = src[4 * r + 3] as int;
    if c == 0 {
        (a + e) + (b + d)
    } else if c == 1 {
        (a - e) + (b - d)
    } else if c == 2 {
        (b - d) - (b + d)
    } else {
        (a - e) - (b + d)
    }
}

/// The Walsh-Hadamard residual at row `r` and column `c`.
pub open spec fn wht_at(src: Seq<i32>, r: int, c: int) -> int {
    let s0 = wht_row(src, 0, c) + wht_row(src, 3, c);
    let s1 = wht_row(src, 1, c) + wht_row(src, 2, c);
    let s2 = wht_row(src, 1, c) - wht_row(src, 2, c);
    let s3 = wht_row(src, 0, c) - wht_row(src, 3, c);
    (if r == 0 {
        s0 + s1 + 2
    } else if r == 1 {
        s3 + s2 + 2
    } else if r == 2 {
        s2 - s1 + 2
    } else {
        s3 - s2 + 2
    }) / 4
}

/// The four by four Walsh-Hadamard transform.
pub fn wht_4x4(src: &[i32; 16]) -> (dst: [i32; 16])
    requires
        forall|i: int| 0 <= i < 16 ==> -65536 <= #[trigger] src[i] <= 65536,
    ensures
        forall|i: int| 0 <= i < 16 ==> #[trigger] dst[i] == wht_at(src@, i / 4, i % 4),
{
    let mut tmp: [i32; 16] = [0; 16];
    let mut row: usize = 0;
    while row < 4
        invariant
            row <= 4,
            forall|i: int| 0 <= i < 16 ==> -65536 <= #[trigger] src[i] <= 65536,
            forall|i: int| 0 <= i < 4 * row ==> #[trigger] tmp[i] == wht_row(src@, i / 4, i % 4),
            forall|i: int| 0 <= i < 16 ==> -262144 <= #[trigger] tmp[i] <= 262144,
        decreases 4 - row,
    {
        let i: usize = row * 4;
        let s0: i32 = src[i] + src[i + 3];
        let s1: i32 = src[i + 1] + src[i + 2];
        let s2: i32 = src[i + 1] - src[i + 2];
        let s3: i32 = src[i] - src[i + 3];
        tmp[i] = s0 + s1;
        tmp[i + 1] = s3 + s2;
        tmp[i + 2] = s2 - s1;
        tmp[i + 3] = s3 - s1;
        row = row + 1;
    }
    let mut dst: [i32; 16] = [0; 16];
    let mut col: usize = 0;
    while col < 4
        invariant
            col <= 4,
            forall|i: int| 0 <= i < 16 ==> #[trigger] tmp[i] == wht_row(src@, i / 4, i % 4),
            forall|i: int| 0 <= i < 16 ==> -262144 <= #[trigger] tmp[i] <= 262144,
            forall|i: int|
                0 <= i < 16 && i % 4 < col ==> #[trigger] dst[i] == wht_at(src@, i / 4, i % 4),
        decreases 4 - col,
    {
        let s0: i32 = tmp[col] + tmp[col + 12];
        let s1: i32 = tmp[col + 4] + tmp[col + 8];
        let s2: i32 = tmp[col + 4] - tmp[col + 8];
        let s3: i32 = tmp[col] - tmp[col + 12];
        proof {
            lemma_pow2i_values();
        }
        dst[col] = shr32(s0 + s1 + 2, 2);
        dst[col + 4] = shr32(s3 + s2 + 2, 2);
        dst[col + 8] = shr32(s2 - s1 + 2, 2);
        dst[col + 12] = shr32(s3 - s2 + 2, 2);
        col = col + 1;
    }
    dst
}

proof fn lemma_tx_logs(t: int)
    requires
        0 <= t < 19,
    ensures
        2 <= log_w(t) <= 6,
        2 <= log_h(t) <= 6,
        TX_WIDTH[t] == pow2i(log_w(t)),
        TX_HEIGHT[t] == pow2i(log_h(t)),
        TRANSFORM_ROW_SHIFT[t] <= 2,
        ADJUSTED_TX_SIZE[t] < 19,
        TX_WIDTH[ADJUSTED_TX_SIZE[t] as int] <= TX_WIDTH[t],
        TX_HEIGHT[ADJUSTED_TX_SIZE[t] as int] <= TX_HEIGHT[t],
        TX_WIDTH[ADJUSTED_TX_SIZE[t] as int] <= 32,
{
    lemma_pow2i_values();
    lemma_tx_dims(t);
}

/// A cell of a block lies inside it.
pub proof fn lemma_block_cell(w: int, h: int, i: int, j: int)
    requires
        0 <= i < h,
        0 <= j < w,
    ensures
        0 <= i * w + j < w * h,
        i * w + w <= w * h,
{
    assert(0 <= i * w + j < w * h && i * w + w <= w * h) by (nonlinear_arith)
        requires
            0 <= i < h,
            0 <= j < w,
    ;
}

/// Two cells of a block in one place are the same cell.
pub proof fn lemma_cell_unique(w: int, i: int, j: int, i2: int, j2: int)
    requires
        0 <= j < w,
        0 <= j2 < w,
        i * w + j == i2 * w + j2,
    ensures
        i == i2,
        j == j2,
{
    assert(i == i2) by (nonlinear_arith)
        requires
            0 <= j < w,
            0 <= j2 < w,
            i * w + j == i2 * w + j2,
    ;
}

/// Whether the rows of a transform are scaled.
fn needs_rescale(tx: usize) -> (r: bool)
    requires
        tx < 19,
    ensures
        r == (log_w(tx as int) - log_h(tx as int) == 1 || log_h(tx as int) - log_w(tx as int) == 1),
{
    proof {
        lemma_tx_logs(tx as int);
    }
    TX_WIDTH_LOG2[tx] == TX_HEIGHT_LOG2[tx] + 1 || TX_HEIGHT_LOG2[tx] == TX_WIDTH_LOG2[tx] + 1
}

/// The points of row `i` before the row pass.
fn load_row(dq: &[i32], tx: usize, i: usize) -> (t: Vec<i64>)
    requires
        tx < 19,
        i < TX_HEIGHT[tx as int],
        dq@.len() >= coded_area(tx as int),
        forall|k: int| 0 <= k < dq@.len() ==> -65536 <= #[trigger] dq@[k] <= 65536,
    ensures
        t@ == row_points(dq@, tx as int, i as int),
        bounded(t@, 65536),
{
    proof {
        lemma_tx_logs(tx as int);
        lemma_tx_dims(tx as int);
        lemma_pow2i_values();
    }
    let w: usize = TX_WIDTH[tx];
    let adj: usize = ADJUSTED_TX_SIZE[tx];
    let aw: usize = TX_WIDTH[adj];
    let ah: usize = TX_HEIGHT[adj];
    let scale: bool = needs_rescale(tx);
    let mut t: Vec<i64> = Vec::new();
    let mut j: usize = 0;
    while j < w
        invariant
            j <= w,
            tx < 19,
            w == TX_WIDTH[tx as int],
            adj == ADJUSTED_TX_SIZE[tx as int],
            aw == TX_WIDTH[adj as int],
            ah == TX_HEIGHT[adj as int],
            aw <= w <= 64,
            ah <= TX_HEIGHT[tx as int] <= 64,
            i < TX_HEIGHT[tx as int],
            dq@.len() >= coded_area(tx as int),
            forall|k: int| 0 <= k < dq@.len() ==> -65536 <= #[trigger] dq@[k] <= 65536,
            scale == (log_w(tx as int) - log_h(tx as int) == 1 || log_h(tx as int) - log_w(tx as int)
                == 1),
            pow2i(12) == 4096,
            pow2i(11) == 2048,
            t@.len() == j,
            bounded(t@, 65536),
            forall|k: int|
                0 <= k < j ==> #[trigger] t@[k] == row_input(dq@, tx as int, i as int, k) as i64,
        decreases w - j,
    {
        let mut v: i64 = 0;
        if i < ah && j < aw {
            proof {
                lemma_block_cell(aw as int, ah as int, i as int, j as int);
                assert(i * aw <= 4096) by (nonlinear_arith)
                    requires
                        i <= 64,
                        aw <= 64,
                ;
            }
            v = dq[i * aw + j] as i64;
        }
        if scale {
            v = round2(v * 2896, 12);
        }
        t.push(v);
        j = j + 1;
    }
    assert(t@ =~= row_points(dq@, tx as int, i as int));
    t
}

/// The row pass: the points between the passes, in raster order.
fn row_pass(dq: &[i32], tx_type: usize, tx: usize) -> (mid: Vec<i64>)
    requires
        tx < 19,
        dq@.len() >= coded_area(tx as int),
        forall|k: int| 0 <= k < dq@.len() ==> -65536 <= #[trigger] dq@[k] <= 65536,
    ensures
        mid@.len() == TX_WIDTH[tx as int] * TX_HEIGHT[tx as int],
        forall|i: int, j: int|
            0 <= i < TX_HEIGHT[tx as int] && 0 <= j < TX_WIDTH[tx as int] ==> mid@[i
                * TX_WIDTH[tx as int] + j] == #[trigger] mid_point(
                dq@,
                tx_type as int,
                tx as int,
                i,
                j,
            ),
{
    let ghost d = dq@;
    let ghost ty = tx_type as int;
    let ghost x = tx as int;
    proof {
        lemma_tx_logs(x);
        lemma_tx_dims(x);
        lemma_pow2i_values();
    }
    let w: usize = TX_WIDTH[tx];
    let h: usize = TX_HEIGHT[tx];
    let kind: AxisTransform = row_axis_transform(tx_type);
    let shift: u32 = TRANSFORM_ROW_SHIFT[tx];
    let mut mid: Vec<i64> = Vec::new();
    let mut i: usize = 0;
    while i < h
        invariant
            i <= h,
            tx < 19,
            x == tx,
            d == dq@,
            ty == tx_type,
            w == TX_WIDTH[x],
            h == TX_HEIGHT[x],
            4 <= w <= 64,
            4 <= h <= 64,
            w == pow2i(log_w(x)),
            2 <= log_w(x) <= 6,
            kind == row_axis(ty),
            shift == TRANSFORM_ROW_SHIFT[x],
            shift <= 2,
            d.len() >= coded_area(x),
            forall|k: int| 0 <= k < d.len() ==> -65536 <= #[trigger] d[k] <= 65536,
            mid@.len() == i * w,
            forall|a: int, b: int|
                0 <= a < i && 0 <= b < w ==> mid@[a * w + b] == #[trigger] mid_point(d, ty, x, a, b),
        decreases h - i,
    {
        let mut t: Vec<i64> = load_row(dq, tx, i);
        axis_transform(&mut t, kind, TX_WIDTH_LOG2[tx] as u32);
        let ghost tt = t@;
        let ghost base = mid@;
        let mut j: usize = 0;
        while j < w
            invariant
                j <= w,
                4 <= w <= 64,
                i < h,
                w == TX_WIDTH[x],
                tt == t@,
                tt == axis_of(row_points(d, x, i as int), row_axis(ty), log_w(x)),
                tt.len() == w,
                bounded(tt, 0x80_0000),
                shift == TRANSFORM_ROW_SHIFT[x],
                shift <= 2,
                base.len() == i * w,
                mid@.len() == i * w + j,
                forall|k: int| 0 <= k < i * w ==> #[trigger] mid@[k] == base[k],
                forall|b: int|
                    0 <= b < j ==> mid@[i * w + b] == #[trigger] mid_point(d, ty, x, i as int, b),
            decreases w - j,
        {
            let v: i64 = clamp64(round2(t[j], shift), -32768, 32767);
            mid.push(v);
            j = j + 1;
        }
        proof {
            assert((i + 1) * w == i * w + w) by (nonlinear_arith);
            assert forall|a: int, b: int| 0 <= a < i + 1 && 0 <= b < w implies mid@[a * w + b]
                == #[trigger] mid_point(d, ty, x, a, b) by {
                if a < i {
                    assert(a * w + b < i * w) by (nonlinear_arith)
                        requires
                            a < i,
                            0 <= b < w,
                    ;
                    assert(0 <= a * w + b) by (nonlinear_arith)
                        requires
                            0 <= a,
                            0 <= b,
                            0 <= w,
                    ;
                    assert(base[a * w + b] == mid_point(d, ty, x, a, b));
                }
            }
        }
        i = i + 1;
    }
    assert(h * w == w * h) by (nonlinear_arith);
    mid
}

/// The column pass: writes the residual of every column.
fn col_pass(mid: &Vec<i64>, dq: Ghost<Seq<i32>>, tx_type: usize, tx: usize, dst: &mut [i32])
    requires
        tx < 19,
        mid@.len() == TX_WIDTH[tx as int] * TX_HEIGHT[tx as int],
        forall|i: int, j: int|
            0 <= i < TX_HEIGHT[tx as int] && 0 <= j < TX_WIDTH[tx as int] ==> mid@[i
                * TX_WIDTH[tx as int] + j] == #[trigger] mid_point(
                dq@,
                tx_type as int,
                tx as int,
                i,
                j,
            ),
        old(dst)@.len() >= TX_WIDTH[tx as int] * TX_HEIGHT[tx as int],
    ensures
        final(dst)@.len() == old(dst)@.len(),
        forall|k: int|
            TX_WIDTH[tx as int] * TX_HEIGHT[tx as int] <= k < old(dst)@.len() ==> #[trigger] final(dst)@[k] == old(dst)@[k],
        forall|i: int, j: int|
            0 <= i < TX_HEIGHT[tx as int] && 0 <= j < TX_WIDTH[tx as int] ==> final(dst)@[i
                * TX_WIDTH[tx as int] + j] == #[trigger] residual_at(
                dq@,
                tx_type as int,
                tx as int,
                i,
                j,
            ) && -0x80_0000 <= final(dst)@[i * TX_WIDTH[tx as int] + j] <= 0x80_0000,
{
    let ghost d = dq@;
    let ghost ty = tx_type as int;
    let ghost x = tx as int;
    let ghost dst0 = dst@;
    proof {
        lemma_tx_logs(x);
        lemma_tx_dims(x);
        lemma_pow2i_values();
        reveal(residual_at);
    }
    let w: usize = TX_WIDTH[tx];
    let h: usize = TX_HEIGHT[tx];
    let kind: AxisTransform = col_axis_transform(tx_type);
    let mut j: usize = 0;
    while j < w
        invariant
            j <= w,
            tx < 19,
            x == tx,
            d == dq@,
            ty == tx_type,
            w == TX_WIDTH[x],
            h == TX_HEIGHT[x],
            4 <= w <= 64,
            4 <= h <= 64,
            h == pow2i(log_h(x)),
            2 <= log_h(x) <= 6,
            kind == col_axis(ty),
            mid@.len() == w * h,
            dst0.len() >= w * h,
            dst@.len() == dst0.len(),
            forall|a: int, b: int|
                0 <= a < h && 0 <= b < w ==> mid@[a * w + b] == #[trigger] mid_point(d, ty, x, a, b),
            forall|k: int| w * h <= k < dst0.len() ==> #[trigger] dst@[k] == dst0[k],
            forall|a: int, b: int|
                0 <= a < h && 0 <= b < j ==> dst@[a * w + b] == #[trigger] residual_at(d, ty, x, a, b)
                    && -0x80_0000 <= dst@[a * w + b] <= 0x80_0000,
        decreases w - j,
    {
        let mut t: Vec<i64> = Vec::new();
        let mut i: usize = 0;
        while i < h
            invariant
                i <= h <= 64,
                j < w <= 64,
                w == TX_WIDTH[x],
                h == TX_HEIGHT[x],
                mid@.len() == w * h,
                t@.len() == i,
                forall|a: int, b: int|
                    0 <= a < h && 0 <= b < w ==> mid@[a * w + b] == #[trigger] mid_point(
                        d,
                        ty,
                        x,
                        a,
                        b,
                    ),
                forall|k: int|
                    0 <= k < i ==> #[trigger] t@[k] == mid_point(d, ty, x, k, j as int) as i64,
            decreases h - i,
        {
            proof {
                lemma_block_cell(w as int, h as int, i as int, j as int);
                assert(i * w <= 4096) by (nonlinear_arith)
                    requires
                        i <= 64,
                        w <= 64,
                ;
                assert(mid@[i * w + j] == mid_point(d, ty, x, i as int, j as int));
            }
            t.push(mid[i * w + j]);
            i = i + 1;
        }
        assert(t@ =~= col_points(d, ty, x, j as int));
        assert(bounded(t@, 65536));
        axis_transform(&mut t, kind, TX_HEIGHT_LOG2[tx] as u32);
        let ghost tt = t@;
        let ghost base = dst@;
        proof {
            lemma_pow2i_values();
        }
        let mut i: usize = 0;
        while i < h
            invariant
                i <= h <= 64,
                j < w <= 64,
                w == TX_WIDTH[x],
                h == TX_HEIGHT[x],
                tt == t@,
                tt == axis_of(col_points(d, ty, x, j as int), col_axis(ty), log_h(x)),
                tt.len() == h,
                bounded(tt, 0x80_0000),
                pow2i(4) == 16,
                pow2i(3) == 8,
                dst0.len() >= w * h,
                dst@.len() == dst0.len(),
                base.len() == dst0.len(),
                forall|k: int| w * h <= k < dst0.len() ==> #[trigger] dst@[k] == dst0[k],
                forall|a: int, b: int|
                    0 <= a < h && 0 <= b < j ==> dst@[a * w + b] == #[trigger] residual_at(
                        d,
                        ty,
                        x,
                        a,
                        b,
                    ) && -0x80_0000 <= dst@[a * w + b] <= 0x80_0000,
                forall|a: int|
                    0 <= a < i ==> dst@[a * w + j] == #[trigger] residual_at(d, ty, x, a, j as int)
                        && -0x80_0000 <= dst@[a * w + j] <= 0x80_0000,
            decreases h - i,
        {
            proof {
                reveal(residual_at);
                lemma_block_cell(w as int, h as int, i as int, j as int);
                assert(i * w <= 4096) by (nonlinear_arith)
                    requires
                        i <= 64,
                        w <= 64,
                ;
            }
            let v: i64 = round2(t[i], 4);
            let ghost before = dst@;
            dst[i * w + j] = v as i32;
            proof {
                assert forall|a: int, b: int| 0 <= a < h && 0 <= b < j implies dst@[a * w + b]
                    == #[trigger] residual_at(d, ty, x, a, b) && -0x80_0000 <= dst@[a * w + b]
                    <= 0x80_0000 by {
                    lemma_block_cell(w as int, h as int, a, b);
                    if a * w + b == i * w + j {
                        lemma_cell_unique(w as int, a, b, i as int, j as int);
                    }
                    assert(before[a * w + b] == residual_at(d, ty, x, a, b));
                }
                assert forall|a: int| 0 <= a < i + 1 implies dst@[a * w + j]
                    == #[trigger] residual_at(d, ty, x, a, j as int) && -0x80_0000 <= dst@[a * w + j]
                    <= 0x80_0000 by {
                    lemma_block_cell(w as int, h as int, a, j as int);
                    if a < i {
                        if a * w + j == i * w + j {
                            lemma_cell_unique(w as int, a, j as int, i as int, j as int);
                        }
                        assert(before[a * w + j] == residual_at(d, ty, x, a, j as int));
                    }
                }
            }
            i = i + 1;
        }
        proof {
            assert forall|a: int, b: int| 0 <= a < h && 0 <= b < j + 1 implies dst@[a * w + b]
                == #[trigger] residual_at(d, ty, x, a, b) && -0x80_0000 <= dst@[a * w + b]
                <= 0x80_0000 by {
                if b == j {
                    assert(dst@[a * w + j] == residual_at(d, ty, x, a, j as int));
                }
            }
        }
        j = j + 1;
    }
}

/// The number of coefficients that are coded for a transform size: those of at most 32
/// by 32.
pub open spec fn coded_area(tx: int) -> int {
    TX_WIDTH[ADJUSTED_TX_SIZE[tx] as int] * TX_HEIGHT[ADJUSTED_TX_SIZE[tx] as int]
}

/// The residual that a transform writes at row `i` and column `j`.
pub open spec fn transform_at(
    dq: Seq<i32>,
    tx_type: int,
    tx: int,
    lossless: bool,
    i: int,
    j: int,
) -> int {
    if lossless && tx == TX_4X4 {
        wht_at(dq, i, j)
    } else {
        residual_at(dq, tx_type, tx, i, j)
    }
}

/// Inverse transforms a block of dequantized coefficients and writes the residual
/// into the front of `dst`. Lossless blocks of side four take the Walsh-Hadamard
/// transform, whatever their type.
pub fn inverse_transform(
    dequant: &[i32],
    av1_tx_type: usize,
    tx_size: usize,
    lossless: bool,
    dst: &mut [i32],
)
    requires
        tx_size < 19,
        dequant@.len() >= coded_area(tx_size as int),
        forall|k: int| 0 <= k < dequant@.len() ==> -65536 <= #[trigger] dequant@[k] <= 65536,
        old(dst)@.len() >= TX_WIDTH[tx_size as int] * TX_HEIGHT[tx_size as int],
    ensures
        final(dst)@.len() == old(dst)@.len(),
        forall|k: int|
            TX_WIDTH[tx_size as int] * TX_HEIGHT[tx_size as int] <= k < old(dst)@.len()
                ==> #[trigger] final(dst)@[k] == old(dst)@[k],
        residual_block(
            final(dst)@,
            dequant@,
            av1_tx_type as int,
            tx_size as int,
            lossless,
        ),
{
    if lossless && tx_size == TX_4X4 {
        let mut c: [i32; 16] = [0; 16];
        assert(TX_WIDTH[0] == 4 && TX_HEIGHT[0] == 4);
        assert(4 * 4 == 16int);
        let mut k: usize = 0;
        while k < 16
            invariant
                k <= 16,
                dequant@.len() >= 16,
                forall|i: int| 0 <= i < dequant@.len() ==> -65536 <= #[trigger] dequant@[i] <= 65536,
                forall|i: int| 0 <= i < k ==> #[trigger] c[i] == dequant@[i],
                forall|i: int| 0 <= i < 16 ==> -65536 <= #[trigger] c[i] <= 65536,
            decreases 16 - k,
        {
            c[k] = dequant[k];
            k = k + 1;
        }
        let d: [i32; 16] = wht_4x4(&c);
        let ghost dst0 = dst@;
        let mut k: usize = 0;
        while k < 16
            invariant
                k <= 16,
                dst@.len() == dst0.len(),
                dst0.len() >= 16,
                forall|i: int| k <= i < dst0.len() ==> #[trigger] dst@[i] == dst0[i],
                forall|i: int| 0 <= i < k ==> #[trigger] dst@[i] == d[i],
            decreases 16 - k,
        {
            dst[k] = d[k];
            k = k + 1;
        }
        proof {
            assert forall|i: int, j: int| 0 <= i < 4 && 0 <= j < 4 implies dst@[i * 4 + j]
                == #[trigger] transform_at(
                dequant@,
                av1_tx_type as int,
                tx_size as int,
                lossless,
                i,
                j,
            ) && -0x80_0000 <= dst@[i * 4 + j] <= 0x80_0000 by {
                let p = i * 4 + j;
                assert(p / 4 == i && p % 4 == j);
                assert(d[p] == wht_at(c@, i, j));
                lemma_wht_congruent(c@, dequant@, i, j);
            }
        }
        return ;
    }
    let mid: Vec<i64> = row_pass(dequant, av1_tx_type, tx_size);
    let ghost dst0 = dst@;
    col_pass(&mid, Ghost(dequant@), av1_tx_type, tx_size, dst);
    proof {
        lemma_block_is(dst@, dequant@, av1_tx_type as int, tx_size as int, lossless);
    }
}

/// `dst` starts with the residual of a transform block.
pub open spec fn residual_block(
    dst: Seq<i32>,
    dq: Seq<i32>,
    tx_type: int,
    tx: int,
    lossless: bool,
) -> bool {
    forall|i: int, j: int|
        0 <= i < TX_HEIGHT[tx] && 0 <= j < TX_WIDTH[tx] ==> dst[i * TX_WIDTH[tx] + j]
            == #[trigger] transform_at(dq, tx_type, tx, lossless, i, j) && -0x80_0000 <= dst[i
            * TX_WIDTH[tx] + j] <= 0x80_0000
}

proof fn lemma_block_is(dst: Seq<i32>, dq: Seq<i32>, tx_type: int, tx: int, lossless: bool)
    requires
        !(lossless && tx == TX_4X4),
        forall|i: int, j: int|
            0 <= i < TX_HEIGHT[tx] && 0 <= j < TX_WIDTH[tx] ==> dst[i * TX_WIDTH[tx] + j]
                == #[trigger] residual_at(dq, tx_type, tx, i, j) && -0x80_0000 <= dst[i
                * TX_WIDTH[tx] + j] <= 0x80_0000,
    ensures
        residual_block(dst, dq, tx_type, tx, lossless),
{
    assert forall|i: int, j: int| 0 <= i < TX_HEIGHT[tx] && 0 <= j < TX_WIDTH[tx] implies dst[i
        * TX_WIDTH[tx] + j] == #[trigger] transform_at(dq, tx_type, tx, lossless, i, j)
        && -0x80_0000 <= dst[i * TX_WIDTH[tx] + j] <= 0x80_0000 by {
        let r = residual_at(dq, tx_type, tx, i, j);
        assert(dst[i * TX_WIDTH[tx] + j] == r);
    }
}

/// The Walsh-Hadamard transform reads its first sixteen points only, and its values
/// stay small.
proof fn lemma_wht_congruent(a: Seq<i32>, b: Seq<i32>, i: int, j: int)
    requires
        a.len() == 16,
        b.len() >= 16,
        forall|k: int| 0 <= k < 16 ==> #[trigger] a[k] == b[k],
        forall|k: int| 0 <= k < 16 ==> -65536 <= #[trigger] a[k] <= 65536,
        0 <= i < 4,
        0 <= j < 4,
    ensures
        wht_at(a, i, j) == wht_at(b, i, j),
        -0x80_0000 <= wht_at(a, i, j) <= 0x80_0000,
{
    assert forall|r: int| 0 <= r < 4 implies #[trigger] wht_row(a, r, j) == wht_row(b, r, j)
        && -262144 <= wht_row(a, r, j) <= 262144 by {
        assert(a[4 * r] == b[4 * r]);
        assert(a[4 * r + 1] == b[4 * r + 1]);
        assert(a[4 * r + 2] == b[4 * r + 2]);
        assert(a[4 * r + 3] == b[4 * r + 3]);
    }
}

} // verus!
