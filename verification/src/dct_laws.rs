//! The cosine transforms of four and eight points are sums of cosines, and those of all
//! sizes tell even from odd.
use crate::bits::{lemma_pow2i_values, pow2i};
use crate::math::round_shift;
use crate::transform::{
    brev_of, cos_of, dct_of, dct_permuted, lemma_step_in_range, sat16, sin_of, stage_len, stage_run,
    stages_run, step_apply, step_of, StepModel, COS128_LOOKUP,
};
use vstd::prelude::*;

verus! {

// ---------------------------------------------------------------------------
// Steps
// ---------------------------------------------------------------------------

pub proof fn lemma_rotated(t: Seq<i64>, s: StepModel, c: int, d: int)
    requires
        s.rotate,
        0 <= s.a < t.len(),
        0 <= s.b < t.len(),
        s.a != s.b,
        cos_of(s.angle) == c,
        sin_of(s.angle) == d,
        -0x10_0000 <= t[s.a] <= 0x10_0000,
        -0x10_0000 <= t[s.b] <= 0x10_0000,
        -4096 <= c <= 4096,
        -4096 <= d <= 4096,
    ensures
        ({
            let x = round_shift(t[s.a] * c - t[s.b] * d, 12);
            let y = round_shift(t[s.a] * d + t[s.b] * c, 12);
            let r = step_apply(t, s);
            &&& r.len() == t.len()
            &&& r[s.a] == if s.flip {
                y
            } else {
                x
            }
            &&& r[s.b] == if s.flip {
                x
            } else {
                y
            }
            &&& forall|i: int|
                0 <= i < t.len() && i != s.a && i != s.b ==> #[trigger] r[i] == t[i]
        }),
{
    reveal(step_apply);
    lemma_pow2i_values();
    let u = t[s.a] as int;
    let v = t[s.b] as int;
    crate::math::lemma_product_bound(u, c, 0x10_0000, 4096);
    crate::math::lemma_product_bound(v, d, 0x10_0000, 4096);
    crate::math::lemma_product_bound(u, d, 0x10_0000, 4096);
    crate::math::lemma_product_bound(v, c, 0x10_0000, 4096);
}

pub proof fn lemma_summed(t: Seq<i64>, s: StepModel)
    requires
        !s.rotate,
        0 <= s.a < t.len(),
        0 <= s.b < t.len(),
        s.a != s.b,
        -16384 <= t[s.a] < 16384,
        -16384 <= t[s.b] < 16384,
    ensures
        ({
            let r = step_apply(t, s);
            &&& r.len() == t.len()
            &&& r[s.a] == if s.flip {
                t[s.b] - t[s.a]
            } else {
                t[s.a] + t[s.b]
            }
            &&& r[s.b] == if s.flip {
                t[s.b] + t[s.a]
            } else {
                t[s.a] - t[s.b]
            }
            &&& forall|i: int|
                0 <= i < t.len() && i != s.a && i != s.b ==> #[trigger] r[i] == t[i]
        }),
{
    reveal(step_apply);
}

proof fn lemma_cosines()
    ensures
        cos_of(32) == 2896,
        sin_of(32) == 2896,
        cos_of(48) == 1567,
        sin_of(48) == 3784,
        cos_of(56) == 799,
        sin_of(56) == 4017,
        cos_of(24) == 3406,
        sin_of(24) == 2276,
{
    reveal(cos_of);
    assert(COS128_LOOKUP[32] == 2896 && COS128_LOOKUP[48] == 1567 && COS128_LOOKUP[16] == 3784
        && COS128_LOOKUP[56] == 799 && COS128_LOOKUP[8] == 4017 && COS128_LOOKUP[24] == 3406
        && COS128_LOOKUP[40] == 2276);
    assert((-32int) % 256 == 224 && (-16int) % 256 == 240 && (-8int) % 256 == 248 && (-40int) % 256
        == 216);
}

pub proof fn lemma_skip_stage(t: Seq<i64>, n: int, g: int)
    requires
        0 <= g,
        stage_len(g, n) == 0,
    ensures
        stages_run(t, n, 0, g + 1) == stages_run(t, n, 0, g),
{
    let p = stages_run(t, n, 0, g);
    assert(stage_run(p, g, 0) == p);
}

// ---------------------------------------------------------------------------
// Four points
// ---------------------------------------------------------------------------

/// The points of a four point transform.
pub open spec fn small4(t: Seq<i64>) -> bool {
    &&& t.len() == 4
    &&& forall|i: int| 0 <= i < 4 ==> -4096 <= #[trigger] t[i] <= 4096
}

proof fn lemma_permuted_4(t: Seq<i64>)
    requires
        t.len() == 4,
    ensures
        dct_permuted(t, 2) == seq![t[0], t[2], t[1], t[3]],
{
    lemma_pow2i_values();
    reveal_with_fuel(brev_of, 4);
    assert(dct_permuted(t, 2) =~= seq![t[0], t[2], t[1], t[3]]);
}

proof fn lemma_early_stages_4(t: Seq<i64>)
    ensures
        stages_run(t, 2, 0, 10) == t,
{
    lemma_skip_stage(t, 2, 0);
    lemma_skip_stage(t, 2, 1);
    lemma_skip_stage(t, 2, 2);
    lemma_skip_stage(t, 2, 3);
    lemma_skip_stage(t, 2, 4);
    lemma_skip_stage(t, 2, 5);
    lemma_skip_stage(t, 2, 6);
    lemma_skip_stage(t, 2, 7);
    lemma_skip_stage(t, 2, 8);
    lemma_skip_stage(t, 2, 9);
}

proof fn lemma_late_stages_4(t: Seq<i64>, g: int)
    requires
        16 <= g <= 30,
    ensures
        stages_run(t, 2, 0, g) == stages_run(t, 2, 0, 16),
    decreases g,
{
    if g > 16 {
        lemma_late_stages_4(t, g - 1);
        lemma_skip_stage(t, 2, g - 1);
    }
}

proof fn lemma_dct_4(t: Seq<i64>)
    requires
        small4(t),
    ensures
        ({
            let r = dct_of(t, 2);
            let a = round_shift(2896 * (t[0] + t[2]), 12);
            let b = round_shift(2896 * (t[0] - t[2]), 12);
            let c = round_shift(1567 * t[1] - 3784 * t[3], 12);
            let d = round_shift(3784 * t[1] + 1567 * t[3], 12);
            &&& r.len() == 4
            &&& r[0] == a + d
            &&& r[1] == b + c
            &&& r[2] == b - c
            &&& r[3] == a - d
        }),
{
    reveal(dct_of);
    lemma_pow2i_values();
    lemma_cosines();
    lemma_permuted_4(t);
    let p0 = seq![t[0], t[2], t[1], t[3]];
    assert(-4096 <= t[0] <= 4096 && -4096 <= t[1] <= 4096 && -4096 <= t[2] <= 4096 && -4096 <= t[3]
        <= 4096);
    lemma_early_stages_4(p0);
    let p1 = step_apply(p0, step_of(10, 0));
    lemma_rotated(p0, step_of(10, 0), 2896, 2896);
    let p2 = step_apply(p1, step_of(10, 1));
    lemma_rotated(p1, step_of(10, 1), 1567, 3784);
    reveal_with_fuel(stage_run, 4);
    assert(stage_run(p0, 10, 2) == p2);
    assert(stages_run(p0, 2, 0, 11) == p2);
    lemma_skip_stage(p0, 2, 11);
    lemma_skip_stage(p0, 2, 12);
    lemma_skip_stage(p0, 2, 13);
    lemma_skip_stage(p0, 2, 14);
    assert(stages_run(p0, 2, 0, 15) == p2);
    let p3 = step_apply(p2, step_of(15, 0));
    lemma_summed(p2, step_of(15, 0));
    let p4 = step_apply(p3, step_of(15, 1));
    lemma_summed(p3, step_of(15, 1));
    assert(stage_run(p2, 15, 2) == p4);
    assert(stages_run(p0, 2, 0, 16) == p4);
    lemma_late_stages_4(p0, 30);
}

/// The weight of coefficient `k` at point `i` of a transform of four points: the cosine of
/// the odd multiples of its frequency.
pub open spec fn wave4(k: int, i: int) -> int {
    if k == 0 {
        cos_of(32)
    } else {
        cos_of(16 * k * (2 * i + 1))
    }
}

/// Every point of a four point transform is the sum of the waves of its coefficients, within
/// one.
pub proof fn law_four_points(t: Seq<i64>, i: int)
    requires
        small4(t),
        0 <= i < 4,
    ensures
        ({
            let s = t[0] * wave4(0, i) + t[1] * wave4(1, i) + t[2] * wave4(2, i) + t[3] * wave4(
                3,
                i,
            );
            -4096 <= 4096 * dct_of(t, 2)[i] - s <= 4096
        }),
{
    lemma_dct_4(t);
    lemma_pow2i_values();
    lemma_waves4(i);
    let (a, b, c, d) = (t[0] as int, t[1] as int, t[2] as int, t[3] as int);
    lemma_times(a, 2896);
    lemma_times(b, wave4(1, i));
    lemma_times(c, wave4(2, i));
    lemma_times(d, wave4(3, i));
}

proof fn lemma_times(x: int, w: int)
    ensures
        w == 2896 ==> x * w == 2896 * x,
        w == -2896 ==> x * w == -2896 * x,
        w == 3784 ==> x * w == 3784 * x,
        w == -3784 ==> x * w == -3784 * x,
        w == 1567 ==> x * w == 1567 * x,
        w == -1567 ==> x * w == -1567 * x,
        w == 4017 ==> x * w == 4017 * x,
        w == -4017 ==> x * w == -4017 * x,
        w == 3406 ==> x * w == 3406 * x,
        w == -3406 ==> x * w == -3406 * x,
        w == 2276 ==> x * w == 2276 * x,
        w == -2276 ==> x * w == -2276 * x,
        w == 799 ==> x * w == 799 * x,
        w == -799 ==> x * w == -799 * x,
{
}

proof fn lemma_waves4(i: int)
    requires
        0 <= i < 4,
    ensures
        wave4(0, i) == 2896,
        wave4(1, i) == if i == 0 {
            3784int
        } else if i == 1 {
            1567
        } else if i == 2 {
            -1567
        } else {
            -3784
        },
        wave4(2, i) == if i == 0 || i == 3 {
            2896int
        } else {
            -2896
        },
        wave4(3, i) == if i == 0 {
            1567int
        } else if i == 1 {
            -3784
        } else if i == 2 {
            3784
        } else {
            -1567
        },
{
    reveal(cos_of);
    assert(COS128_LOOKUP[32] == 2896 && COS128_LOOKUP[48] == 1567 && COS128_LOOKUP[16] == 3784);
    assert(i == 0 || i == 1 || i == 2 || i == 3);
    assert(16 * 1 * (2 * i + 1) == 32 * i + 16) by (nonlinear_arith);
    assert(16 * 2 * (2 * i + 1) == 64 * i + 32) by (nonlinear_arith);
    assert(16 * 3 * (2 * i + 1) == 96 * i + 48) by (nonlinear_arith);
}

// ---------------------------------------------------------------------------
// Eight points
// ---------------------------------------------------------------------------

/// The points of an eight point transform.
pub open spec fn small8(t: Seq<i64>) -> bool {
    &&& t.len() == 8
    &&& forall|i: int| 0 <= i < 8 ==> -2048 <= #[trigger] t[i] <= 2048
}

proof fn lemma_permuted_8(t: Seq<i64>)
    requires
        t.len() == 8,
    ensures
        dct_permuted(t, 3) == seq![t[0], t[4], t[2], t[6], t[1], t[5], t[3], t[7]],
{
    lemma_pow2i_values();
    reveal_with_fuel(brev_of, 5);
    assert(dct_permuted(t, 3) =~= seq![t[0], t[4], t[2], t[6], t[1], t[5], t[3], t[7]]);
}

proof fn lemma_idle_stages_8(t: Seq<i64>, from: int, to: int)
    requires
        0 <= from <= to <= 30,
        forall|g: int| from <= g < to ==> #[trigger] stage_len(g, 3) == 0,
    ensures
        stages_run(t, 3, 0, to) == stages_run(t, 3, 0, from),
    decreases to - from,
{
    if from < to {
        lemma_idle_stages_8(t, from, to - 1);
        assert(stage_len(to - 1, 3) == 0);
        lemma_skip_stage(t, 3, to - 1);
    }
}

/// The even half of an eight point transform and the rotated odd half.
spec fn halves(t: Seq<i64>) -> Seq<int> {
    let a = round_shift(2896 * (t[0] + t[4]), 12);
    let b = round_shift(2896 * (t[0] - t[4]), 12);
    let c = round_shift(1567 * t[2] - 3784 * t[6], 12);
    let d = round_shift(3784 * t[2] + 1567 * t[6], 12);
    let p4 = round_shift(799 * t[1] - 4017 * t[7], 12);
    let p7 = round_shift(4017 * t[1] + 799 * t[7], 12);
    let p5 = round_shift(3406 * t[5] - 2276 * t[3], 12);
    let p6 = round_shift(2276 * t[5] + 3406 * t[3], 12);
    seq![a + d, b + c, b - c, a - d, p4 + p5, p4 - p5, p7 - p6, p7 + p6]
}

proof fn lemma_first_stages_8(t: Seq<i64>)
    requires
        small8(t),
    ensures
        ({
            let p = seq![t[0], t[4], t[2], t[6], t[1], t[5], t[3], t[7]];
            let r = stages_run(p, 3, 0, 16);
            let h = halves(t);
            &&& r.len() == 8
            &&& r[0] == h[0] && r[1] == h[1] && r[2] == h[2] && r[3] == h[3]
            &&& r[4] == h[4] && r[5] == h[5] && r[6] == h[6] && r[7] == h[7]
        }),
{
    lemma_pow2i_values();
    lemma_cosines();
    let p = seq![t[0], t[4], t[2], t[6], t[1], t[5], t[3], t[7]];
    assert(-2048 <= t[0] <= 2048 && -2048 <= t[1] <= 2048 && -2048 <= t[2] <= 2048 && -2048 <= t[3]
        <= 2048 && -2048 <= t[4] <= 2048 && -2048 <= t[5] <= 2048 && -2048 <= t[6] <= 2048 && -2048
        <= t[7] <= 2048);
    reveal_with_fuel(stage_run, 3);
    lemma_idle_stages_8(p, 0, 6);
    let q0 = step_apply(p, step_of(6, 0));
    lemma_rotated(p, step_of(6, 0), 799, 4017);
    let q1 = step_apply(q0, step_of(6, 1));
    lemma_rotated(q0, step_of(6, 1), 3406, 2276);
    assert(stage_run(p, 6, 2) == q1);
    assert(stages_run(p, 3, 0, 7) == q1);
    lemma_idle_stages_8(p, 7, 10);
    let q2 = step_apply(q1, step_of(10, 0));
    lemma_rotated(q1, step_of(10, 0), 2896, 2896);
    let q3 = step_apply(q2, step_of(10, 1));
    lemma_rotated(q2, step_of(10, 1), 1567, 3784);
    assert(stage_run(q1, 10, 2) == q3);
    assert(stages_run(p, 3, 0, 11) == q3);
    let q4 = step_apply(q3, step_of(11, 0));
    lemma_summed(q3, step_of(11, 0));
    let q5 = step_apply(q4, step_of(11, 1));
    lemma_summed(q4, step_of(11, 1));
    assert(stage_run(q3, 11, 2) == q5);
    assert(stages_run(p, 3, 0, 12) == q5);
    lemma_idle_stages_8(p, 12, 15);
    let q6 = step_apply(q5, step_of(15, 0));
    lemma_summed(q5, step_of(15, 0));
    let q7 = step_apply(q6, step_of(15, 1));
    lemma_summed(q6, step_of(15, 1));
    assert(stage_run(q5, 15, 2) == q7);
    assert(stages_run(p, 3, 0, 16) == q7);
}

proof fn lemma_dct_8(t: Seq<i64>)
    requires
        small8(t),
    ensures
        ({
            let r = dct_of(t, 3);
            let h = halves(t);
            let x = round_shift(2896 * (h[6] - h[5]), 12);
            let y = round_shift(2896 * (h[6] + h[5]), 12);
            &&& r.len() == 8
            &&& r[0] == h[0] + h[7] && r[7] == h[0] - h[7]
            &&& r[1] == h[1] + y && r[6] == h[1] - y
            &&& r[2] == h[2] + x && r[5] == h[2] - x
            &&& r[3] == h[3] + h[4] && r[4] == h[3] - h[4]
        }),
{
    reveal(dct_of);
    lemma_pow2i_values();
    lemma_cosines();
    lemma_permuted_8(t);
    let p = seq![t[0], t[4], t[2], t[6], t[1], t[5], t[3], t[7]];
    lemma_first_stages_8(t);
    lemma_halves_small(t);
    let q7 = stages_run(p, 3, 0, 16);
    reveal_with_fuel(stage_run, 5);
    let q8 = step_apply(q7, step_of(16, 0));
    lemma_rotated(q7, step_of(16, 0), 2896, 2896);
    assert(stage_run(q7, 16, 1) == q8);
    assert(stages_run(p, 3, 0, 17) == q8);
    lemma_idle_stages_8(p, 17, 20);
    let q9 = step_apply(q8, step_of(20, 0));
    lemma_summed(q8, step_of(20, 0));
    let q10 = step_apply(q9, step_of(20, 1));
    lemma_summed(q9, step_of(20, 1));
    let q11 = step_apply(q10, step_of(20, 2));
    lemma_summed(q10, step_of(20, 2));
    let q12 = step_apply(q11, step_of(20, 3));
    lemma_summed(q11, step_of(20, 3));
    assert(stage_run(q8, 20, 4) == q12);
    assert(stages_run(p, 3, 0, 21) == q12);
    lemma_idle_stages_8(p, 21, 30);
}

proof fn lemma_halves_small(t: Seq<i64>)
    requires
        small8(t),
    ensures
        forall|i: int| 0 <= i < 8 ==> -7000 <= #[trigger] halves(t)[i] <= 7000,
{
    lemma_pow2i_values();
    assert(-2048 <= t[0] <= 2048 && -2048 <= t[1] <= 2048 && -2048 <= t[2] <= 2048 && -2048 <= t[3]
        <= 2048 && -2048 <= t[4] <= 2048 && -2048 <= t[5] <= 2048 && -2048 <= t[6] <= 2048 && -2048
        <= t[7] <= 2048);
}

/// The weight of coefficient `k` at point `i` of a transform of eight points.
pub open spec fn wave8(k: int, i: int) -> int {
    if k == 0 {
        cos_of(32)
    } else {
        cos_of(8 * k * (2 * i + 1))
    }
}

/// The sum of the waves of all coefficients at point `i`.
pub open spec fn waves8(t: Seq<i64>, i: int) -> int {
    t[0] * wave8(0, i) + t[1] * wave8(1, i) + t[2] * wave8(2, i) + t[3] * wave8(3, i) + t[4]
        * wave8(4, i) + t[5] * wave8(5, i) + t[6] * wave8(6, i) + t[7] * wave8(7, i)
}

/// The table of the first waves, the last four points being those of the first four from
/// the other end.
proof fn lemma_waves8(i: int)
    requires
        0 <= i < 8,
    ensures
        wave8(0, i) == 2896,
        i == 0 ==> wave8(1, i) == 4017 && wave8(2, i) == 3784 && wave8(3, i) == 3406 && wave8(4, i)
            == 2896 && wave8(5, i) == 2276 && wave8(6, i) == 1567 && wave8(7, i) == 799,
        i == 1 ==> wave8(1, i) == 3406 && wave8(2, i) == 1567 && wave8(3, i) == -799 && wave8(4, i)
            == -2896 && wave8(5, i) == -4017 && wave8(6, i) == -3784 && wave8(7, i) == -2276,
        i == 2 ==> wave8(1, i) == 2276 && wave8(2, i) == -1567 && wave8(3, i) == -4017
            && wave8(4, i)
            == -2896 && wave8(5, i) == 799 && wave8(6, i) == 3784 && wave8(7, i) == 3406,
        i == 3 ==> wave8(1, i) == 799 && wave8(2, i) == -3784 && wave8(3, i) == -2276 && wave8(4, i)
            == 2896 && wave8(5, i) == 3406 && wave8(6, i) == -1567 && wave8(7, i) == -4017,
        i == 4 ==> wave8(1, i) == -799 && wave8(2, i) == -3784 && wave8(3, i) == 2276 && wave8(4, i)
            == 2896 && wave8(5, i) == -3406 && wave8(6, i) == -1567 && wave8(7, i) == 4017,
        i == 5 ==> wave8(1, i) == -2276 && wave8(2, i) == -1567 && wave8(3, i) == 4017
            && wave8(4, i)
            == -2896 && wave8(5, i) == -799 && wave8(6, i) == 3784 && wave8(7, i) == -3406,
        i == 6 ==> wave8(1, i) == -3406 && wave8(2, i) == 1567 && wave8(3, i) == 799 && wave8(4, i)
            == -2896 && wave8(5, i) == 4017 && wave8(6, i) == -3784 && wave8(7, i) == 2276,
        i == 7 ==> wave8(1, i) == -4017 && wave8(2, i) == 3784 && wave8(3, i) == -3406
            && wave8(4, i)
            == 2896 && wave8(5, i) == -2276 && wave8(6, i) == 1567 && wave8(7, i) == -799,
{
    reveal(cos_of);
    assert(COS128_LOOKUP[32] == 2896 && COS128_LOOKUP[48] == 1567 && COS128_LOOKUP[16] == 3784
        && COS128_LOOKUP[56] == 799 && COS128_LOOKUP[8] == 4017 && COS128_LOOKUP[24] == 3406
        && COS128_LOOKUP[40] == 2276);
    assert(8 * 1 * (2 * i + 1) == 16 * i + 8) by (nonlinear_arith);
    assert(8 * 2 * (2 * i + 1) == 32 * i + 16) by (nonlinear_arith);
    assert(8 * 3 * (2 * i + 1) == 48 * i + 24) by (nonlinear_arith);
    assert(8 * 4 * (2 * i + 1) == 64 * i + 32) by (nonlinear_arith);
    assert(8 * 5 * (2 * i + 1) == 80 * i + 40) by (nonlinear_arith);
    assert(8 * 6 * (2 * i + 1) == 96 * i + 48) by (nonlinear_arith);
    assert(8 * 7 * (2 * i + 1) == 112 * i + 56) by (nonlinear_arith);
}

/// Every point of an eight point transform is the sum of the waves of its coefficients,
/// within six.
pub proof fn law_eight_points(t: Seq<i64>, i: int)
    requires
        small8(t),
        0 <= i < 8,
    ensures
        -24576 <= 4096 * dct_of(t, 3)[i] - waves8(t, i) <= 24576,
{
    lemma_dct_8(t);
    lemma_waves8(i);
    lemma_times(t[0] as int, 2896);
    lemma_times(t[1] as int, wave8(1, i));
    lemma_times(t[2] as int, wave8(2, i));
    lemma_times(t[3] as int, wave8(3, i));
    lemma_times(t[4] as int, wave8(4, i));
    lemma_times(t[5] as int, wave8(5, i));
    lemma_times(t[6] as int, wave8(6, i));
    lemma_times(t[7] as int, wave8(7, i));
    lemma_pow2i_values();
    lemma_near_waves(t[1] as int, t[3] as int, t[5] as int, t[7] as int);
}

/// Rounding of a scaled number.
spec fn r12(x: int) -> int {
    (x + 2048) / 4096
}

proof fn lemma_near_waves(b: int, d: int, f: int, h: int)
    requires
        -2048 <= b <= 2048,
        -2048 <= d <= 2048,
        -2048 <= f <= 2048,
        -2048 <= h <= 2048,
    ensures
        ({
            let p4 = r12(799 * b - 4017 * h);
            let p7 = r12(4017 * b + 799 * h);
            let p5 = r12(3406 * f - 2276 * d);
            let p6 = r12(2276 * f + 3406 * d);
            let x = r12(2896 * ((p7 - p6) - (p4 - p5)));
            let y = r12(2896 * ((p7 - p6) + (p4 - p5)));
            &&& -18000 <= 4096 * x - (2276 * b - 4017 * d + 799 * f + 3406 * h) <= 18000
            &&& -18000 <= 4096 * y - (3406 * b - 799 * d - 4017 * f - 2276 * h) <= 18000
        }),
{
}

// ---------------------------------------------------------------------------
// All sizes
// ---------------------------------------------------------------------------

/// The stage that joins the two halves of a transform.
spec fn joining(n: int) -> int {
    if n == 2 {
        15
    } else if n == 3 {
        20
    } else if n == 4 {
        24
    } else if n == 5 {
        27
    } else {
        29
    }
}

proof fn lemma_halves_apart(g: int, n: int, k: int)
    requires
        0 <= g < 30,
        2 <= n <= 6,
        0 <= k < stage_len(g, n),
        g != joining(n),
    ensures
        2 * step_of(g, k).a < pow2i(n) <==> 2 * step_of(g, k).b < pow2i(n),
        g < joining(n),
{
    lemma_pow2i_values();
    lemma_step_in_range(g, n, k);
}

/// The first or the second half of the points is zero.
spec fn half_zero(t: Seq<i64>, n: int, upper: bool) -> bool {
    forall|i: int|
        0 <= i < t.len() && (2 * i >= pow2i(n)) == upper ==> #[trigger] t[i] == 0
}

proof fn lemma_stage_keeps_half(t: Seq<i64>, n: int, g: int, k: int, upper: bool)
    requires
        2 <= n <= 6,
        t.len() == pow2i(n),
        0 <= g < 30,
        g != joining(n),
        0 <= k <= stage_len(g, n),
        half_zero(t, n, upper),
    ensures
        half_zero(stage_run(t, g, k), n, upper),
        stage_run(t, g, k).len() == t.len(),
    decreases k,
{
    if k > 0 {
        lemma_stage_keeps_half(t, n, g, k - 1, upper);
        lemma_halves_apart(g, n, k - 1);
        lemma_step_in_range(g, n, k - 1);
        let p = stage_run(t, g, k - 1);
        let s = step_of(g, k - 1);
        if (2 * s.a >= pow2i(n)) == upper {
            assert(p[s.a] == 0 && p[s.b] == 0);
            crate::flat::lemma_step_still(p, s);
        } else {
            reveal(step_apply);
            assert((2 * s.b >= pow2i(n)) != upper);
        }
    }
}

proof fn lemma_stages_keep_half(t: Seq<i64>, n: int, g: int, upper: bool)
    requires
        2 <= n <= 6,
        t.len() == pow2i(n),
        0 <= g <= joining(n),
        half_zero(t, n, upper),
    ensures
        half_zero(stages_run(t, n, 0, g), n, upper),
        stages_run(t, n, 0, g).len() == t.len(),
    decreases g,
{
    if g > 0 {
        lemma_stages_keep_half(t, n, g - 1, upper);
        let len = stage_len(g - 1, n);
        lemma_stage_keeps_half(stages_run(t, n, 0, g - 1), n, g - 1, len, upper);
    }
}

proof fn lemma_joined(t: Seq<i64>, n: int, k: int)
    requires
        2 <= n <= 6,
        t.len() == pow2i(n),
        0 <= k,
        2 * k <= pow2i(n),
    ensures
        stage_run(t, joining(n), k).len() == t.len(),
        forall|j: int|
            0 <= j < t.len() ==> #[trigger] stage_run(t, joining(n), k)[j] == if j < k {
                sat16(t[j] + t[t.len() - 1 - j]) as i64
            } else if j >= t.len() - k {
                sat16(t[t.len() - 1 - j] - t[j]) as i64
            } else {
                t[j]
            },
    decreases k,
{
    lemma_pow2i_values();
    if k > 0 {
        lemma_joined(t, n, k - 1);
        reveal(step_apply);
        let s = step_of(joining(n), k - 1);
        assert(s.a == k - 1 && s.b == t.len() - k && !s.rotate && !s.flip);
    }
}

proof fn lemma_after_joining(t: Seq<i64>, n: int, g: int)
    requires
        2 <= n <= 6,
        joining(n) < g <= 30,
    ensures
        stages_run(t, n, 0, g) == stages_run(t, n, 0, joining(n) + 1),
    decreases g,
{
    if g > joining(n) + 1 {
        lemma_after_joining(t, n, g - 1);
        assert(stage_len(g - 1, n) == 0);
        lemma_skip_stage(t, n, g - 1);
    }
}

proof fn lemma_reversed_parity(n: int, i: int)
    requires
        1 <= n <= 6,
        0 <= i < pow2i(n),
    ensures
        2 * i >= pow2i(n) <==> brev_of(n, i) % 2 == 1,
        0 <= brev_of(n, i) < pow2i(n),
{
    lemma_pow2i_values();
    crate::transform::lemma_brev_range(n, i);
    crate::flat::lemma_brev_low(n, i);
    let h = pow2i(n - 1);
    crate::bits::lemma_pow2i_mono(0, n - 1);
    assert(pow2i(n) == 2 * h);
    assert(i / h == if i >= h {
        1int
    } else {
        0
    }) by (nonlinear_arith)
        requires
            0 <= i < 2 * h,
            1 <= h,
    ;
}

/// Coefficients of even frequency give points that read the same from either end; those of
/// odd frequency give opposite points, but for saturation. This holds at every size.
pub proof fn law_even_and_odd(t: Seq<i64>, n: int, i: int)
    requires
        2 <= n <= 6,
        t.len() == pow2i(n),
        0 <= i < t.len(),
    ensures
        (forall|k: int| 0 <= k < t.len() && k % 2 == 1 ==> #[trigger] t[k] == 0) ==> dct_of(t, n)[i]
            == dct_of(t, n)[t.len() - 1 - i],
        (forall|k: int| 0 <= k < t.len() && k % 2 == 0 ==> #[trigger] t[k] == 0) ==> -1 <= dct_of(
            t,
            n,
        )[i] + dct_of(t, n)[t.len() - 1 - i] <= 0,
{
    reveal(dct_of);
    lemma_pow2i_values();
    let p = dct_permuted(t, n);
    let len = t.len() as int;
    let g = joining(n);
    let q = stages_run(p, n, 0, g);
    assert forall|j: int| 0 <= j < len implies #[trigger] p[j] == t[brev_of(n, j)] && 0 <= brev_of(
        n,
        j,
    ) < len && (2 * j >= len <==> brev_of(n, j) % 2 == 1) by {
        lemma_reversed_parity(n, j);
    }
    lemma_after_joining(p, n, 30);
    assert(2 * stage_len(g, n) == len);
    if forall|k: int| 0 <= k < t.len() && k % 2 == 1 ==> #[trigger] t[k] == 0 {
        assert(half_zero(p, n, true));
        lemma_stages_keep_half(p, n, g, true);
        lemma_joined(q, n, stage_len(g, n));
    }
    if forall|k: int| 0 <= k < t.len() && k % 2 == 0 ==> #[trigger] t[k] == 0 {
        assert(half_zero(p, n, false));
        lemma_stages_keep_half(p, n, g, false);
        lemma_joined(q, n, stage_len(g, n));
    }
}

} // verus!
