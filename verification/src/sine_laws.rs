//! The sine transforms of four and eight points are sums of sines, and that of sixteen points
//! starts with a quarter wave.
use crate::bits::lemma_pow2i_values;
use crate::dct_laws::{lemma_rotated, lemma_summed};
use crate::transform::{
    adst4_of, adst_in, adst_of, adst_source, cos_of, sin_of, stage_run, stages_run, step_apply,
    step_of, COS128_LOOKUP,
};
use vstd::prelude::*;

verus! {

/// The points of an eight point transform.
pub open spec fn tiny8(t: Seq<i64>) -> bool {
    &&& t.len() == 8
    &&& forall|i: int| 0 <= i < 8 ==> -1024 <= #[trigger] t[i] <= 1024
}

/// Rounding of a scaled number.
#[verifier::opaque]
spec fn r12(x: int) -> int {
    (x + 2048) / 4096
}

proof fn lemma_sines()
    ensures
        cos_of(60) == 401 && sin_of(60) == 4076,
        cos_of(44) == 1931 && sin_of(44) == 3612,
        cos_of(28) == 3166 && sin_of(28) == 2598,
        cos_of(12) == 3920 && sin_of(12) == 1189,
        cos_of(48) == 1567 && sin_of(48) == 3784,
        cos_of(16) == 3784 && sin_of(16) == 1567,
        cos_of(32) == 2896 && sin_of(32) == 2896,
{
    reveal(cos_of);
    assert(COS128_LOOKUP[60] == 401 && COS128_LOOKUP[4] == 4076 && COS128_LOOKUP[44] == 1931
        && COS128_LOOKUP[20] == 3612 && COS128_LOOKUP[28] == 3166 && COS128_LOOKUP[36] == 2598
        && COS128_LOOKUP[12] == 3920 && COS128_LOOKUP[52] == 1189 && COS128_LOOKUP[48] == 1567
        && COS128_LOOKUP[16] == 3784 && COS128_LOOKUP[32] == 2896);
    assert((-4int) % 256 == 252 && (-20int) % 256 == 236 && (-36int) % 256 == 220 && (-52int) % 256
        == 204 && (-16int) % 256 == 240 && (-48int) % 256 == 208 && (-32int) % 256 == 224);
}

/// The points behind the first rotations.
#[verifier::opaque]
spec fn turned8(t: Seq<i64>) -> Seq<int> {
    seq![
        r12(4076 * t[7] + 401 * t[0]),
        r12(401 * t[7] - 4076 * t[0]),
        r12(3612 * t[5] + 1931 * t[2]),
        r12(1931 * t[5] - 3612 * t[2]),
        r12(2598 * t[3] + 3166 * t[4]),
        r12(3166 * t[3] - 2598 * t[4]),
        r12(1189 * t[1] + 3920 * t[6]),
        r12(3920 * t[1] - 1189 * t[6]),
    ]
}

proof fn lemma_first_rotations(t: Seq<i64>)
    requires
        tiny8(t),
    ensures
        ({
            let r = stage_run(adst_in(t, 8), 30, 4);
            let m = turned8(t);
            &&& r.len() == 8
            &&& r[0] == m[0] && r[1] == m[1] && r[2] == m[2] && r[3] == m[3]
            &&& r[4] == m[4] && r[5] == m[5] && r[6] == m[6] && r[7] == m[7]
        }),
        forall|i: int| 0 <= i < 8 ==> -1500 <= #[trigger] turned8(t)[i] <= 1500,
{
    reveal(r12);
    reveal(turned8);
    lemma_pow2i_values();
    lemma_sines();
    assert(-1024 <= t[0] <= 1024 && -1024 <= t[1] <= 1024 && -1024 <= t[2] <= 1024 && -1024 <= t[3]
        <= 1024 && -1024 <= t[4] <= 1024 && -1024 <= t[5] <= 1024 && -1024 <= t[6] <= 1024 && -1024
        <= t[7] <= 1024);
    let p = adst_in(t, 8);
    assert(p[0] == t[7] && p[1] == t[0] && p[2] == t[5] && p[3] == t[2] && p[4] == t[3] && p[5]
        == t[4] && p[6] == t[1] && p[7] == t[6]);
    reveal_with_fuel(stage_run, 5);
    lemma_rotated(p, step_of(30, 0), 401, 4076);
    let q0 = step_apply(p, step_of(30, 0));
    lemma_rotated(q0, step_of(30, 1), 1931, 3612);
    let q1 = step_apply(q0, step_of(30, 1));
    lemma_rotated(q1, step_of(30, 2), 3166, 2598);
    let q2 = step_apply(q1, step_of(30, 2));
    lemma_rotated(q2, step_of(30, 3), 3920, 1189);
    let q3 = step_apply(q2, step_of(30, 3));
    assert(stage_run(p, 30, 4) == q3);
}

/// The points behind the second rotations.
#[verifier::opaque]
spec fn turned_again8(m: Seq<int>) -> Seq<int> {
    let a4 = m[0] - m[4];
    let a5 = m[1] - m[5];
    let a6 = m[2] - m[6];
    let a7 = m[3] - m[7];
    seq![
        m[0] + m[4],
        m[1] + m[5],
        m[2] + m[6],
        m[3] + m[7],
        r12(3784 * a4 + 1567 * a5),
        r12(1567 * a4 - 3784 * a5),
        r12(3784 * a7 - 1567 * a6),
        r12(1567 * a7 + 3784 * a6),
    ]
}

proof fn lemma_second_rotations(p: Seq<i64>, m: Seq<int>)
    requires
        p.len() == 8,
        forall|i: int| 0 <= i < 8 ==> #[trigger] p[i] == m[i],
        forall|i: int| 0 <= i < 8 ==> -1500 <= #[trigger] m[i] <= 1500,
    ensures
        ({
            let r = stage_run(stage_run(p, 31, 4), 32, 2);
            let k = turned_again8(m);
            &&& r.len() == 8
            &&& r[0] == k[0] && r[1] == k[1] && r[2] == k[2] && r[3] == k[3]
            &&& r[4] == k[4] && r[5] == k[5] && r[6] == k[6] && r[7] == k[7]
        }),
        forall|i: int| 0 <= i < 8 ==> -4300 <= #[trigger] turned_again8(m)[i] <= 4300,
{
    reveal(r12);
    reveal(turned_again8);
    lemma_pow2i_values();
    lemma_sines();
    assert(p[0] == m[0] && p[1] == m[1] && p[2] == m[2] && p[3] == m[3] && p[4] == m[4] && p[5]
        == m[5] && p[6] == m[6] && p[7] == m[7]);
    reveal_with_fuel(stage_run, 5);
    lemma_summed(p, step_of(31, 0));
    let q0 = step_apply(p, step_of(31, 0));
    lemma_summed(q0, step_of(31, 1));
    let q1 = step_apply(q0, step_of(31, 1));
    lemma_summed(q1, step_of(31, 2));
    let q2 = step_apply(q1, step_of(31, 2));
    lemma_summed(q2, step_of(31, 3));
    let q3 = step_apply(q2, step_of(31, 3));
    assert(stage_run(p, 31, 4) == q3);
    lemma_rotated(q3, step_of(32, 0), 1567, 3784);
    let q4 = step_apply(q3, step_of(32, 0));
    lemma_rotated(q4, step_of(32, 1), 3784, 1567);
    let q5 = step_apply(q4, step_of(32, 1));
    assert(stage_run(q3, 32, 2) == q5);
}

/// The points behind all rotations.
#[verifier::opaque]
spec fn turned_last8(k: Seq<int>) -> Seq<int> {
    seq![
        k[0] + k[2],
        k[1] + k[3],
        r12(2896 * (k[0] - k[2]) + 2896 * (k[1] - k[3])),
        r12(2896 * (k[0] - k[2]) - 2896 * (k[1] - k[3])),
        k[4] + k[6],
        k[5] + k[7],
        r12(2896 * (k[4] - k[6]) + 2896 * (k[5] - k[7])),
        r12(2896 * (k[4] - k[6]) - 2896 * (k[5] - k[7])),
    ]
}

proof fn lemma_last_rotations(p: Seq<i64>, k: Seq<int>)
    requires
        p.len() == 8,
        forall|i: int| 0 <= i < 8 ==> #[trigger] p[i] == k[i],
        forall|i: int| 0 <= i < 8 ==> -4300 <= #[trigger] k[i] <= 4300,
    ensures
        ({
            let r = stage_run(stage_run(p, 33, 4), 34, 2);
            let z = turned_last8(k);
            &&& r.len() == 8
            &&& r[0] == z[0] && r[1] == z[1] && r[2] == z[2] && r[3] == z[3]
            &&& r[4] == z[4] && r[5] == z[5] && r[6] == z[6] && r[7] == z[7]
        }),
{
    reveal(r12);
    reveal(turned_last8);
    lemma_pow2i_values();
    lemma_sines();
    assert(p[0] == k[0] && p[1] == k[1] && p[2] == k[2] && p[3] == k[3] && p[4] == k[4] && p[5]
        == k[5] && p[6] == k[6] && p[7] == k[7]);
    reveal_with_fuel(stage_run, 5);
    lemma_summed(p, step_of(33, 0));
    let q0 = step_apply(p, step_of(33, 0));
    lemma_summed(q0, step_of(33, 1));
    let q1 = step_apply(q0, step_of(33, 1));
    lemma_summed(q1, step_of(33, 2));
    let q2 = step_apply(q1, step_of(33, 2));
    lemma_summed(q2, step_of(33, 3));
    let q3 = step_apply(q2, step_of(33, 3));
    assert(stage_run(p, 33, 4) == q3);
    lemma_rotated(q3, step_of(34, 0), 2896, 2896);
    let q4 = step_apply(q3, step_of(34, 0));
    lemma_rotated(q4, step_of(34, 1), 2896, 2896);
    let q5 = step_apply(q4, step_of(34, 1));
    assert(stage_run(q3, 34, 2) == q5);
}

proof fn lemma_sine_8(t: Seq<i64>)
    requires
        tiny8(t),
    ensures
        ({
            let r = adst_of(t, 3);
            let z = turned_last8(turned_again8(turned8(t)));
            &&& r.len() == 8
            &&& r[0] == z[0] && r[1] == -z[4] && r[2] == z[6] && r[3] == -z[2]
            &&& r[4] == z[3] && r[5] == -z[7] && r[6] == z[5] && r[7] == -z[1]
        }),
{
    reveal(r12);
    reveal(adst_of);
    let p = adst_in(t, 8);
    lemma_first_rotations(t);
    let m = turned8(t);
    let p1 = stage_run(p, 30, 4);
    lemma_second_rotations(p1, m);
    let k = turned_again8(m);
    let p2 = stage_run(stage_run(p1, 31, 4), 32, 2);
    lemma_last_rotations(p2, k);
    let p3 = stage_run(stage_run(p2, 33, 4), 34, 2);
    reveal_with_fuel(stages_run, 6);
    assert(stages_run(p, 3, 30, 31) == p1);
    assert(stages_run(p, 3, 30, 33) == p2);
    assert(stages_run(p, 3, 30, 35) == p3);
    assert(adst_source(0, 8) == 0 && adst_source(1, 8) == 4 && adst_source(2, 8) == 6
        && adst_source(3, 8) == 2 && adst_source(4, 8) == 3 && adst_source(5, 8) == 7
        && adst_source(6, 8) == 5 && adst_source(7, 8) == 1);
    reveal(turned_last8);
    let z = turned_last8(k);
    assert(-20000 <= z[0] <= 20000 && -20000 <= z[1] <= 20000 && -20000 <= z[2] <= 20000 && -20000
        <= z[3] <= 20000 && -20000 <= z[4] <= 20000 && -20000 <= z[5] <= 20000 && -20000 <= z[6]
        <= 20000 && -20000 <= z[7] <= 20000) by {
        assert(-4300 <= k[0] <= 4300 && -4300 <= k[1] <= 4300 && -4300 <= k[2] <= 4300 && -4300
            <= k[3] <= 4300 && -4300 <= k[4] <= 4300 && -4300 <= k[5] <= 4300 && -4300 <= k[6]
            <= 4300 && -4300 <= k[7] <= 4300);
    }
}

/// The weight of coefficient `k` at point `i`: the sine of an odd multiple of an odd
/// frequency.
pub open spec fn sine8(k: int, i: int) -> int {
    sin_of(4 * (2 * k + 1) * (2 * i + 1))
}

/// The sum of the waves of all coefficients at point `i`.
pub open spec fn sines8(t: Seq<i64>, i: int) -> int {
    t[0] * sine8(0, i) + t[1] * sine8(1, i) + t[2] * sine8(2, i) + t[3] * sine8(3, i) + t[4]
        * sine8(4, i) + t[5] * sine8(5, i) + t[6] * sine8(6, i) + t[7] * sine8(7, i)
}

proof fn lemma_sine_row(t: Seq<i64>, i: int)
    requires
        0 <= i < 8,
    ensures
        i == 0 ==> sines8(t, i) == 401 * t[0] + 1189 * t[1] + 1931 * t[2] + 2598 * t[3]
            + 3166 * t[4] + 3612 * t[5] + 3920 * t[6] + 4076 * t[7],
        i == 1 ==> sines8(t, i) == 1189 * t[0] + 3166 * t[1] + 4076 * t[2] + 3612 * t[3]
            + 1931 * t[4] - 401 * t[5] - 2598 * t[6] - 3920 * t[7],
        i == 2 ==> sines8(t, i) == 1931 * t[0] + 4076 * t[1]
            + 2598 * t[2] - 1189 * t[3] - 3920 * t[4] - 3166 * t[5] + 401 * t[6] + 3612 * t[7],
        i == 3 ==> sines8(t, i) == 2598 * t[0]
            + 3612 * t[1] - 1189 * t[2] - 4076 * t[3] - 401 * t[4] + 3920 * t[5]
            + 1931 * t[6] - 3166 * t[7],
        i == 4 ==> sines8(t, i) == 3166 * t[0] + 1931 * t[1] - 3920 * t[2] - 401 * t[3]
            + 4076 * t[4] - 1189 * t[5] - 3612 * t[6] + 2598 * t[7],
        i == 5 ==> sines8(t, i) == 3612 * t[0] - 401 * t[1] - 3166 * t[2]
            + 3920 * t[3] - 1189 * t[4] - 2598 * t[5] + 4076 * t[6] - 1931 * t[7],
        i == 6 ==> sines8(t, i) == 3920 * t[0] - 2598 * t[1] + 401 * t[2]
            + 1931 * t[3] - 3612 * t[4] + 4076 * t[5] - 3166 * t[6] + 1189 * t[7],
        i == 7 ==> sines8(t, i) == 4076 * t[0] - 3920 * t[1] + 3612 * t[2] - 3166 * t[3]
            + 2598 * t[4] - 1931 * t[5] + 1189 * t[6] - 401 * t[7],
{
    lemma_angle_table(i);
    let w0 = sine8(0, i);
    let w1 = sine8(1, i);
    let w2 = sine8(2, i);
    let w3 = sine8(3, i);
    let w4 = sine8(4, i);
    let w5 = sine8(5, i);
    let w6 = sine8(6, i);
    let w7 = sine8(7, i);
    let x0 = t[0] as int;
    assert(w0 == 401 ==> x0 * w0 == 401 * x0);
    assert(w0 == 1189 ==> x0 * w0 == 1189 * x0);
    assert(w0 == 1931 ==> x0 * w0 == 1931 * x0);
    assert(w0 == 2598 ==> x0 * w0 == 2598 * x0);
    assert(w0 == 3166 ==> x0 * w0 == 3166 * x0);
    assert(w0 == 3612 ==> x0 * w0 == 3612 * x0);
    assert(w0 == 3920 ==> x0 * w0 == 3920 * x0);
    assert(w0 == 4076 ==> x0 * w0 == 4076 * x0);
    let x1 = t[1] as int;
    assert(w1 == -3920 ==> x1 * w1 == -3920 * x1);
    assert(w1 == -2598 ==> x1 * w1 == -2598 * x1);
    assert(w1 == -401 ==> x1 * w1 == -401 * x1);
    assert(w1 == 1189 ==> x1 * w1 == 1189 * x1);
    assert(w1 == 1931 ==> x1 * w1 == 1931 * x1);
    assert(w1 == 3166 ==> x1 * w1 == 3166 * x1);
    assert(w1 == 3612 ==> x1 * w1 == 3612 * x1);
    assert(w1 == 4076 ==> x1 * w1 == 4076 * x1);
    let x2 = t[2] as int;
    assert(w2 == -3920 ==> x2 * w2 == -3920 * x2);
    assert(w2 == -3166 ==> x2 * w2 == -3166 * x2);
    assert(w2 == -1189 ==> x2 * w2 == -1189 * x2);
    assert(w2 == 401 ==> x2 * w2 == 401 * x2);
    assert(w2 == 1931 ==> x2 * w2 == 1931 * x2);
    assert(w2 == 2598 ==> x2 * w2 == 2598 * x2);
    assert(w2 == 3612 ==> x2 * w2 == 3612 * x2);
    assert(w2 == 4076 ==> x2 * w2 == 4076 * x2);
    let x3 = t[3] as int;
    assert(w3 == -4076 ==> x3 * w3 == -4076 * x3);
    assert(w3 == -3166 ==> x3 * w3 == -3166 * x3);
    assert(w3 == -1189 ==> x3 * w3 == -1189 * x3);
    assert(w3 == -401 ==> x3 * w3 == -401 * x3);
    assert(w3 == 1931 ==> x3 * w3 == 1931 * x3);
    assert(w3 == 2598 ==> x3 * w3 == 2598 * x3);
    assert(w3 == 3612 ==> x3 * w3 == 3612 * x3);
    assert(w3 == 3920 ==> x3 * w3 == 3920 * x3);
    let x4 = t[4] as int;
    assert(w4 == -3920 ==> x4 * w4 == -3920 * x4);
    assert(w4 == -3612 ==> x4 * w4 == -3612 * x4);
    assert(w4 == -1189 ==> x4 * w4 == -1189 * x4);
    assert(w4 == -401 ==> x4 * w4 == -401 * x4);
    assert(w4 == 1931 ==> x4 * w4 == 1931 * x4);
    assert(w4 == 2598 ==> x4 * w4 == 2598 * x4);
    assert(w4 == 3166 ==> x4 * w4 == 3166 * x4);
    assert(w4 == 4076 ==> x4 * w4 == 4076 * x4);
    let x5 = t[5] as int;
    assert(w5 == -3166 ==> x5 * w5 == -3166 * x5);
    assert(w5 == -2598 ==> x5 * w5 == -2598 * x5);
    assert(w5 == -1931 ==> x5 * w5 == -1931 * x5);
    assert(w5 == -1189 ==> x5 * w5 == -1189 * x5);
    assert(w5 == -401 ==> x5 * w5 == -401 * x5);
    assert(w5 == 3612 ==> x5 * w5 == 3612 * x5);
    assert(w5 == 3920 ==> x5 * w5 == 3920 * x5);
    assert(w5 == 4076 ==> x5 * w5 == 4076 * x5);
    let x6 = t[6] as int;
    assert(w6 == -3612 ==> x6 * w6 == -3612 * x6);
    assert(w6 == -3166 ==> x6 * w6 == -3166 * x6);
    assert(w6 == -2598 ==> x6 * w6 == -2598 * x6);
    assert(w6 == 401 ==> x6 * w6 == 401 * x6);
    assert(w6 == 1189 ==> x6 * w6 == 1189 * x6);
    assert(w6 == 1931 ==> x6 * w6 == 1931 * x6);
    assert(w6 == 3920 ==> x6 * w6 == 3920 * x6);
    assert(w6 == 4076 ==> x6 * w6 == 4076 * x6);
    let x7 = t[7] as int;
    assert(w7 == -3920 ==> x7 * w7 == -3920 * x7);
    assert(w7 == -3166 ==> x7 * w7 == -3166 * x7);
    assert(w7 == -1931 ==> x7 * w7 == -1931 * x7);
    assert(w7 == -401 ==> x7 * w7 == -401 * x7);
    assert(w7 == 1189 ==> x7 * w7 == 1189 * x7);
    assert(w7 == 2598 ==> x7 * w7 == 2598 * x7);
    assert(w7 == 3612 ==> x7 * w7 == 3612 * x7);
    assert(w7 == 4076 ==> x7 * w7 == 4076 * x7);
}

proof fn lemma_angle_table(i: int)
    requires
        0 <= i < 8,
    ensures
        i == 0 ==> sine8(0, i) == 401 && sine8(1, i) == 1189 && sine8(2, i) == 1931
            && sine8(3, i) == 2598 && sine8(4, i) == 3166 && sine8(5, i) == 3612
            && sine8(6, i) == 3920 && sine8(7, i) == 4076,
        i == 1 ==> sine8(0, i) == 1189 && sine8(1, i) == 3166 && sine8(2, i) == 4076
            && sine8(3, i) == 3612 && sine8(4, i) == 1931 && sine8(5, i) == -401
            && sine8(6, i) == -2598 && sine8(7, i) == -3920,
        i == 2 ==> sine8(0, i) == 1931 && sine8(1, i) == 4076 && sine8(2, i) == 2598
            && sine8(3, i) == -1189 && sine8(4, i) == -3920 && sine8(5, i) == -3166
            && sine8(6, i) == 401 && sine8(7, i) == 3612,
        i == 3 ==> sine8(0, i) == 2598 && sine8(1, i) == 3612 && sine8(2, i) == -1189
            && sine8(3, i) == -4076 && sine8(4, i) == -401 && sine8(5, i) == 3920
            && sine8(6, i) == 1931 && sine8(7, i) == -3166,
        i == 4 ==> sine8(0, i) == 3166 && sine8(1, i) == 1931 && sine8(2, i) == -3920
            && sine8(3, i) == -401 && sine8(4, i) == 4076 && sine8(5, i) == -1189
            && sine8(6, i) == -3612 && sine8(7, i) == 2598,
        i == 5 ==> sine8(0, i) == 3612 && sine8(1, i) == -401 && sine8(2, i) == -3166
            && sine8(3, i) == 3920 && sine8(4, i) == -1189 && sine8(5, i) == -2598
            && sine8(6, i) == 4076 && sine8(7, i) == -1931,
        i == 6 ==> sine8(0, i) == 3920 && sine8(1, i) == -2598 && sine8(2, i) == 401
            && sine8(3, i) == 1931 && sine8(4, i) == -3612 && sine8(5, i) == 4076
            && sine8(6, i) == -3166 && sine8(7, i) == 1189,
        i == 7 ==> sine8(0, i) == 4076 && sine8(1, i) == -3920 && sine8(2, i) == 3612
            && sine8(3, i) == -3166 && sine8(4, i) == 2598 && sine8(5, i) == -1931
            && sine8(6, i) == 1189 && sine8(7, i) == -401,
{
    reveal(cos_of);
    assert(COS128_LOOKUP[0] == 4096 && COS128_LOOKUP[4] == 4076 && COS128_LOOKUP[8] == 4017
        && COS128_LOOKUP[12] == 3920 && COS128_LOOKUP[16] == 3784 && COS128_LOOKUP[20] == 3612
        && COS128_LOOKUP[24] == 3406 && COS128_LOOKUP[28] == 3166 && COS128_LOOKUP[32] == 2896
        && COS128_LOOKUP[36] == 2598 && COS128_LOOKUP[40] == 2276 && COS128_LOOKUP[44] == 1931
        && COS128_LOOKUP[48] == 1567 && COS128_LOOKUP[52] == 1189 && COS128_LOOKUP[56] == 799
        && COS128_LOOKUP[60] == 401 && COS128_LOOKUP[64] == 0);
    assert(4 * (2 * 0 + 1) * (2 * i + 1) == 8 * i + 4) by (nonlinear_arith);
    assert(4 * (2 * 1 + 1) * (2 * i + 1) == 24 * i + 12) by (nonlinear_arith);
    assert(4 * (2 * 2 + 1) * (2 * i + 1) == 40 * i + 20) by (nonlinear_arith);
    assert(4 * (2 * 3 + 1) * (2 * i + 1) == 56 * i + 28) by (nonlinear_arith);
    assert(4 * (2 * 4 + 1) * (2 * i + 1) == 72 * i + 36) by (nonlinear_arith);
    assert(4 * (2 * 5 + 1) * (2 * i + 1) == 88 * i + 44) by (nonlinear_arith);
    assert(4 * (2 * 6 + 1) * (2 * i + 1) == 104 * i + 52) by (nonlinear_arith);
    assert(4 * (2 * 7 + 1) * (2 * i + 1) == 120 * i + 60) by (nonlinear_arith);
}

proof fn lemma_near_sines(a: int, b: int, c: int, d: int, e: int, f: int, g: int, h: int)
    requires
        -1024 <= a <= 1024,
        -1024 <= b <= 1024,
        -1024 <= c <= 1024,
        -1024 <= d <= 1024,
        -1024 <= e <= 1024,
        -1024 <= f <= 1024,
        -1024 <= g <= 1024,
        -1024 <= h <= 1024,
    ensures
        ({
            let m0 = r12(4076 * h + 401 * a);
            let m1 = r12(401 * h - 4076 * a);
            let m2 = r12(3612 * f + 1931 * c);
            let m3 = r12(1931 * f - 3612 * c);
            let m4 = r12(2598 * d + 3166 * e);
            let m5 = r12(3166 * d - 2598 * e);
            let m6 = r12(1189 * b + 3920 * g);
            let m7 = r12(3920 * b - 1189 * g);
            let k4 = r12(3784 * (m0 - m4) + 1567 * (m1 - m5));
            let k5 = r12(1567 * (m0 - m4) - 3784 * (m1 - m5));
            let k6 = r12(3784 * (m3 - m7) - 1567 * (m2 - m6));
            let k7 = r12(1567 * (m3 - m7) + 3784 * (m2 - m6));
            let k0 = m0 + m4;
            let k1 = m1 + m5;
            let k2 = m2 + m6;
            let k3 = m3 + m7;
            let z2 = r12(2896 * (k0 - k2) + 2896 * (k1 - k3));
            let z3 = r12(2896 * (k0 - k2) - 2896 * (k1 - k3));
            let z6 = r12(2896 * (k4 - k6) + 2896 * (k5 - k7));
            let z7 = r12(2896 * (k4 - k6) - 2896 * (k5 - k7));
            &&& -32768 <= 4096 * (k0 + k2) - (401 * a + 1189 * b + 1931 * c + 2598 * d
                + 3166 * e + 3612 * f + 3920 * g + 4076 * h) <= 32768
            &&& -32768 <= 4096 * (-(k4 + k6)) - (1189 * a + 3166 * b + 4076 * c + 3612 * d
                + 1931 * e - 401 * f - 2598 * g - 3920 * h) <= 32768
            &&& -32768 <= 4096 * (z6) - (1931 * a + 4076 * b
                + 2598 * c - 1189 * d - 3920 * e - 3166 * f + 401 * g + 3612 * h) <= 32768
            &&& -32768 <= 4096 * (-z2) - (2598 * a + 3612 * b - 1189 * c - 4076 * d - 401 * e
                + 3920 * f + 1931 * g - 3166 * h) <= 32768
            &&& -32768 <= 4096 * (z3) - (3166 * a + 1931 * b - 3920 * c - 401 * d
                + 4076 * e - 1189 * f - 3612 * g + 2598 * h) <= 32768
            &&& -32768 <= 4096 * (-z7) - (3612 * a - 401 * b - 3166 * c
                + 3920 * d - 1189 * e - 2598 * f + 4076 * g - 1931 * h) <= 32768
            &&& -32768 <= 4096 * (k5 + k7) - (3920 * a - 2598 * b + 401 * c
                + 1931 * d - 3612 * e + 4076 * f - 3166 * g + 1189 * h) <= 32768
            &&& -32768 <= 4096 * (-(k1 + k3)) - (4076 * a - 3920 * b + 3612 * c - 3166 * d
                + 2598 * e - 1931 * f + 1189 * g - 401 * h) <= 32768
        }),
{
    reveal(r12);
}

proof fn lemma_sines_near(t: Seq<i64>)
    requires
        tiny8(t),
    ensures
        ({
            let z = turned_last8(turned_again8(turned8(t)));
            &&& -32768 <= 4096 * (z[0]) - (401 * t[0] + 1189 * t[1] + 1931 * t[2] + 2598 * t[3]
                + 3166 * t[4] + 3612 * t[5] + 3920 * t[6] + 4076 * t[7]) <= 32768
            &&& -32768 <= 4096 * (-z[4]) - (1189 * t[0] + 3166 * t[1] + 4076 * t[2]
                + 3612 * t[3] + 1931 * t[4] - 401 * t[5] - 2598 * t[6] - 3920 * t[7]) <= 32768
            &&& -32768 <= 4096 * (z[6]) - (1931 * t[0] + 4076 * t[1]
                + 2598 * t[2] - 1189 * t[3] - 3920 * t[4] - 3166 * t[5] + 401 * t[6]
                + 3612 * t[7]) <= 32768
            &&& -32768 <= 4096 * (-z[2]) - (2598 * t[0]
                + 3612 * t[1] - 1189 * t[2] - 4076 * t[3] - 401 * t[4] + 3920 * t[5]
                + 1931 * t[6] - 3166 * t[7]) <= 32768
            &&& -32768 <= 4096 * (z[3]) - (3166 * t[0] + 1931 * t[1] - 3920 * t[2] - 401 * t[3]
                + 4076 * t[4] - 1189 * t[5] - 3612 * t[6] + 2598 * t[7]) <= 32768
            &&& -32768 <= 4096 * (-z[7]) - (3612 * t[0] - 401 * t[1] - 3166 * t[2]
                + 3920 * t[3] - 1189 * t[4] - 2598 * t[5] + 4076 * t[6] - 1931 * t[7]) <= 32768
            &&& -32768 <= 4096 * (z[5]) - (3920 * t[0] - 2598 * t[1] + 401 * t[2]
                + 1931 * t[3] - 3612 * t[4] + 4076 * t[5] - 3166 * t[6] + 1189 * t[7]) <= 32768
            &&& -32768 <= 4096 * (-z[1]) - (4076 * t[0] - 3920 * t[1]
                + 3612 * t[2] - 3166 * t[3] + 2598 * t[4] - 1931 * t[5]
                + 1189 * t[6] - 401 * t[7]) <= 32768
        }),
{
    reveal(turned8);
    reveal(turned_again8);
    reveal(turned_last8);
    assert(-1024 <= t[0] <= 1024 && -1024 <= t[1] <= 1024 && -1024 <= t[2] <= 1024 && -1024 <= t[3]
        <= 1024 && -1024 <= t[4] <= 1024 && -1024 <= t[5] <= 1024 && -1024 <= t[6] <= 1024 && -1024
        <= t[7] <= 1024);
    let m = turned8(t);
    let k = turned_again8(m);
    let z = turned_last8(k);
    assert(m[0] == r12(4076 * t[7] + 401 * t[0]));
    assert(m[1] == r12(401 * t[7] - 4076 * t[0]));
    assert(m[2] == r12(3612 * t[5] + 1931 * t[2]));
    assert(m[3] == r12(1931 * t[5] - 3612 * t[2]));
    assert(m[4] == r12(2598 * t[3] + 3166 * t[4]));
    assert(m[5] == r12(3166 * t[3] - 2598 * t[4]));
    assert(m[6] == r12(1189 * t[1] + 3920 * t[6]));
    assert(m[7] == r12(3920 * t[1] - 1189 * t[6]));
    assert(k[4] == r12(3784 * (m[0] - m[4]) + 1567 * (m[1] - m[5])));
    assert(k[5] == r12(1567 * (m[0] - m[4]) - 3784 * (m[1] - m[5])));
    assert(k[6] == r12(3784 * (m[3] - m[7]) - 1567 * (m[2] - m[6])));
    assert(k[7] == r12(1567 * (m[3] - m[7]) + 3784 * (m[2] - m[6])));
    assert(z[2] == r12(2896 * (k[0] - k[2]) + 2896 * (k[1] - k[3])));
    assert(z[3] == r12(2896 * (k[0] - k[2]) - 2896 * (k[1] - k[3])));
    assert(z[6] == r12(2896 * (k[4] - k[6]) + 2896 * (k[5] - k[7])));
    assert(z[7] == r12(2896 * (k[4] - k[6]) - 2896 * (k[5] - k[7])));
    lemma_near_sines(
        t[0] as int,
        t[1] as int,
        t[2] as int,
        t[3] as int,
        t[4] as int,
        t[5] as int,
        t[6] as int,
        t[7] as int,
    );
}

/// Every point of an eight point sine transform is the sum of the waves of its coefficients,
/// within eight.
pub proof fn law_eight_sines(t: Seq<i64>, i: int)
    requires
        tiny8(t),
        0 <= i < 8,
    ensures
        -32768 <= 4096 * adst_of(t, 3)[i] - sines8(t, i) <= 32768,
{
    lemma_sine_8(t);
    lemma_sines_near(t);
    lemma_sine_row(t, i);
}

/// The sine of `m` ninths of half a turn, scaled as the four point transform has it.
pub open spec fn ninth(m: int) -> int {
    let a = m % 18;
    if a == 0 || a == 9 {
        0
    } else if a == 1 || a == 8 {
        1321
    } else if a == 2 || a == 7 {
        2482
    } else if a == 3 || a == 6 {
        3344
    } else if a == 4 || a == 5 {
        3803
    } else if a == 10 || a == 17 {
        -1321
    } else if a == 11 || a == 16 {
        -2482
    } else if a == 12 || a == 15 {
        -3344
    } else {
        -3803
    }
}

/// Every point of a four point sine transform is the sum of the waves of its coefficients,
/// rounded to nearest.
pub proof fn law_four_sines(t: Seq<i64>, i: int)
    requires
        t.len() == 4,
        forall|k: int| 0 <= k < 4 ==> -65536 <= #[trigger] t[k] <= 65536,
        0 <= i < 4,
    ensures
        ({
            let s = t[0] * ninth(i + 1) + t[1] * ninth(3 * (i + 1)) + t[2] * ninth(5 * (i + 1))
                + t[3] * ninth(7 * (i + 1));
            -2048 <= 4096 * adst_of(t, 2)[i] - s <= 2048
        }),
{
    reveal(adst_of);
    reveal(adst4_of);
    lemma_pow2i_values();
    assert(-65536 <= t[0] <= 65536 && -65536 <= t[1] <= 65536 && -65536 <= t[2] <= 65536 && -65536
        <= t[3] <= 65536);
    let (a, b, c, d) = (t[0] as int, t[1] as int, t[2] as int, t[3] as int);
    lemma_ninths(a, ninth(i + 1));
    lemma_ninths(b, ninth(3 * (i + 1)));
    lemma_ninths(c, ninth(5 * (i + 1)));
    lemma_ninths(d, ninth(7 * (i + 1)));
    assert(i == 0 || i == 1 || i == 2 || i == 3);
}

proof fn lemma_ninths(x: int, w: int)
    ensures
        w == 0 ==> x * w == 0,
        w == 1321 ==> x * w == 1321 * x,
        w == -1321 ==> x * w == -1321 * x,
        w == 2482 ==> x * w == 2482 * x,
        w == -2482 ==> x * w == -2482 * x,
        w == 3344 ==> x * w == 3344 * x,
        w == -3344 ==> x * w == -3344 * x,
        w == 3803 ==> x * w == 3803 * x,
        w == -3803 ==> x * w == -3803 * x,
{
}

// ---------------------------------------------------------------------------
// Sixteen points
// ---------------------------------------------------------------------------

proof fn lemma_sines16()
    ensures
        cos_of(32) == 2896 && sin_of(32) == 2896,
        cos_of(48) == 1567 && sin_of(48) == 3784,
        cos_of(56) == 799 && sin_of(56) == 4017,
        cos_of(62) == 201 && sin_of(62) == 4091,
{
    reveal(cos_of);
    assert(COS128_LOOKUP[2] == 4091 && COS128_LOOKUP[8] == 4017 && COS128_LOOKUP[16] == 3784
        && COS128_LOOKUP[32] == 2896 && COS128_LOOKUP[48] == 1567 && COS128_LOOKUP[56] == 799
        && COS128_LOOKUP[62] == 201);
    assert((-32int) % 256 == 224 && (-16int) % 256 == 240 && (-8int) % 256 == 248
        && (-2int) % 256 == 254);
}

/// What the rotations of the sixteen point transform make of a first coefficient.
#[verifier::opaque]
spec fn parts16(v: int) -> Seq<int> {
    let m0 = r12(201 * v);
    let m1 = r12(-4091 * v);
    let m2 = r12(4017 * m0 + 799 * m1);
    let m3 = r12(799 * m0 - 4017 * m1);
    let m4 = r12(3784 * m0 + 1567 * m1);
    let m5 = r12(1567 * m0 - 3784 * m1);
    let m6 = r12(3784 * m2 + 1567 * m3);
    let m7 = r12(1567 * m2 - 3784 * m3);
    let m8 = r12(2896 * m0 + 2896 * m1);
    let m9 = r12(2896 * m0 - 2896 * m1);
    let m10 = r12(2896 * m4 + 2896 * m5);
    let m11 = r12(2896 * m4 - 2896 * m5);
    let m12 = r12(2896 * m2 + 2896 * m3);
    let m13 = r12(2896 * m2 - 2896 * m3);
    let m14 = r12(2896 * m6 + 2896 * m7);
    let m15 = r12(2896 * m6 - 2896 * m7);
    seq![m0, m1, m2, m3, m4, m5, m6, m7, m8, m9, m10, m11, m12, m13, m14, m15]
}

proof fn lemma_parts16(v: int)
    requires
        -4096 <= v <= 4096,
    ensures
        forall|i: int| 0 <= i < 16 ==> -7000 <= #[trigger] parts16(v)[i] <= 7000,
        parts16(v).len() == 16,
{
    reveal(parts16);
    reveal(r12);
}

proof fn lemma_stage_35(p: Seq<i64>, v: int)
    requires
        -4096 <= v <= 4096,
        p.len() == 16,
        ({
            let m = parts16(v);
            &&& p[0] == 0
            &&& p[1] == v
            &&& p[2] == 0
            &&& p[3] == 0
            &&& p[4] == 0
            &&& p[5] == 0
            &&& p[6] == 0
            &&& p[7] == 0
            &&& p[8] == 0
            &&& p[9] == 0
            &&& p[10] == 0
            &&& p[11] == 0
            &&& p[12] == 0
            &&& p[13] == 0
            &&& p[14] == 0
            &&& p[15] == 0
        }),
    ensures
        ({
            let m = parts16(v);
            let r = stage_run(p, 35, 8);
            &&& r.len() == 16
            &&& r[0] == m[0]
            &&& r[1] == m[1]
            &&& r[2] == 0
            &&& r[3] == 0
            &&& r[4] == 0
            &&& r[5] == 0
            &&& r[6] == 0
            &&& r[7] == 0
            &&& r[8] == 0
            &&& r[9] == 0
            &&& r[10] == 0
            &&& r[11] == 0
            &&& r[12] == 0
            &&& r[13] == 0
            &&& r[14] == 0
            &&& r[15] == 0
        }),
{
    reveal(parts16);
    lemma_parts16(v);
    lemma_pow2i_values();
    lemma_sines16();
    reveal(r12);
    let m = parts16(v);
    assert(-7000 <= m[0] <= 7000);
    assert(-7000 <= m[1] <= 7000);
    reveal_with_fuel(stage_run, 9);
    lemma_rotated(p, step_of(35, 0), 201, 4091);
    let q0 = step_apply(p, step_of(35, 0));
    crate::flat::lemma_step_still(q0, step_of(35, 1));
    let q1 = q0;
    crate::flat::lemma_step_still(q1, step_of(35, 2));
    let q2 = q1;
    crate::flat::lemma_step_still(q2, step_of(35, 3));
    let q3 = q2;
    crate::flat::lemma_step_still(q3, step_of(35, 4));
    let q4 = q3;
    crate::flat::lemma_step_still(q4, step_of(35, 5));
    let q5 = q4;
    crate::flat::lemma_step_still(q5, step_of(35, 6));
    let q6 = q5;
    crate::flat::lemma_step_still(q6, step_of(35, 7));
    let q7 = q6;
    assert(stage_run(p, 35, 8) == q7);
}

proof fn lemma_stage_36(p: Seq<i64>, v: int)
    requires
        -4096 <= v <= 4096,
        p.len() == 16,
        ({
            let m = parts16(v);
            &&& p[0] == m[0]
            &&& p[1] == m[1]
            &&& p[2] == 0
            &&& p[3] == 0
            &&& p[4] == 0
            &&& p[5] == 0
            &&& p[6] == 0
            &&& p[7] == 0
            &&& p[8] == 0
            &&& p[9] == 0
            &&& p[10] == 0
            &&& p[11] == 0
            &&& p[12] == 0
            &&& p[13] == 0
            &&& p[14] == 0
            &&& p[15] == 0
        }),
    ensures
        ({
            let m = parts16(v);
            let r = stage_run(p, 36, 8);
            &&& r.len() == 16
            &&& r[0] == m[0]
            &&& r[1] == m[1]
            &&& r[2] == 0
            &&& r[3] == 0
            &&& r[4] == 0
            &&& r[5] == 0
            &&& r[6] == 0
            &&& r[7] == 0
            &&& r[8] == m[0]
            &&& r[9] == m[1]
            &&& r[10] == 0
            &&& r[11] == 0
            &&& r[12] == 0
            &&& r[13] == 0
            &&& r[14] == 0
            &&& r[15] == 0
        }),
{
    reveal(parts16);
    lemma_parts16(v);
    lemma_pow2i_values();
    lemma_sines16();
    reveal(r12);
    let m = parts16(v);
    assert(-7000 <= m[0] <= 7000);
    assert(-7000 <= m[1] <= 7000);
    reveal_with_fuel(stage_run, 9);
    lemma_summed(p, step_of(36, 0));
    let q0 = step_apply(p, step_of(36, 0));
    lemma_summed(q0, step_of(36, 1));
    let q1 = step_apply(q0, step_of(36, 1));
    crate::flat::lemma_step_still(q1, step_of(36, 2));
    let q2 = q1;
    crate::flat::lemma_step_still(q2, step_of(36, 3));
    let q3 = q2;
    crate::flat::lemma_step_still(q3, step_of(36, 4));
    let q4 = q3;
    crate::flat::lemma_step_still(q4, step_of(36, 5));
    let q5 = q4;
    crate::flat::lemma_step_still(q5, step_of(36, 6));
    let q6 = q5;
    crate::flat::lemma_step_still(q6, step_of(36, 7));
    let q7 = q6;
    assert(stage_run(p, 36, 8) == q7);
}

proof fn lemma_stage_37(p: Seq<i64>, v: int)
    requires
        -4096 <= v <= 4096,
        p.len() == 16,
        ({
            let m = parts16(v);
            &&& p[0] == m[0]
            &&& p[1] == m[1]
            &&& p[2] == 0
            &&& p[3] == 0
            &&& p[4] == 0
            &&& p[5] == 0
            &&& p[6] == 0
            &&& p[7] == 0
            &&& p[8] == m[0]
            &&& p[9] == m[1]
            &&& p[10] == 0
            &&& p[11] == 0
            &&& p[12] == 0
            &&& p[13] == 0
            &&& p[14] == 0
            &&& p[15] == 0
        }),
    ensures
        ({
            let m = parts16(v);
            let r = stage_run(p, 37, 4);
            &&& r.len() == 16
            &&& r[0] == m[0]
            &&& r[1] == m[1]
            &&& r[2] == 0
            &&& r[3] == 0
            &&& r[4] == 0
            &&& r[5] == 0
            &&& r[6] == 0
            &&& r[7] == 0
            &&& r[8] == m[2]
            &&& r[9] == m[3]
            &&& r[10] == 0
            &&& r[11] == 0
            &&& r[12] == 0
            &&& r[13] == 0
            &&& r[14] == 0
            &&& r[15] == 0
        }),
{
    reveal(parts16);
    lemma_parts16(v);
    lemma_pow2i_values();
    lemma_sines16();
    reveal(r12);
    let m = parts16(v);
    assert(-7000 <= m[0] <= 7000);
    assert(-7000 <= m[1] <= 7000);
    assert(-7000 <= m[2] <= 7000);
    assert(-7000 <= m[3] <= 7000);
    reveal_with_fuel(stage_run, 5);
    lemma_rotated(p, step_of(37, 0), 799, 4017);
    let q0 = step_apply(p, step_of(37, 0));
    crate::flat::lemma_step_still(q0, step_of(37, 1));
    let q1 = q0;
    crate::flat::lemma_step_still(q1, step_of(37, 2));
    let q2 = q1;
    crate::flat::lemma_step_still(q2, step_of(37, 3));
    let q3 = q2;
    assert(stage_run(p, 37, 4) == q3);
}

proof fn lemma_stage_38(p: Seq<i64>, v: int)
    requires
        -4096 <= v <= 4096,
        p.len() == 16,
        ({
            let m = parts16(v);
            &&& p[0] == m[0]
            &&& p[1] == m[1]
            &&& p[2] == 0
            &&& p[3] == 0
            &&& p[4] == 0
            &&& p[5] == 0
            &&& p[6] == 0
            &&& p[7] == 0
            &&& p[8] == m[2]
            &&& p[9] == m[3]
            &&& p[10] == 0
            &&& p[11] == 0
            &&& p[12] == 0
            &&& p[13] == 0
            &&& p[14] == 0
            &&& p[15] == 0
        }),
    ensures
        ({
            let m = parts16(v);
            let r = stage_run(p, 38, 8);
            &&& r.len() == 16
            &&& r[0] == m[0]
            &&& r[1] == m[1]
            &&& r[2] == 0
            &&& r[3] == 0
            &&& r[4] == m[0]
            &&& r[5] == m[1]
            &&& r[6] == 0
            &&& r[7] == 0
            &&& r[8] == m[2]
            &&& r[9] == m[3]
            &&& r[10] == 0
            &&& r[11] == 0
            &&& r[12] == m[2]
            &&& r[13] == m[3]
            &&& r[14] == 0
            &&& r[15] == 0
        }),
{
    reveal(parts16);
    lemma_parts16(v);
    lemma_pow2i_values();
    lemma_sines16();
    reveal(r12);
    let m = parts16(v);
    assert(-7000 <= m[0] <= 7000);
    assert(-7000 <= m[1] <= 7000);
    assert(-7000 <= m[2] <= 7000);
    assert(-7000 <= m[3] <= 7000);
    reveal_with_fuel(stage_run, 9);
    lemma_summed(p, step_of(38, 0));
    let q0 = step_apply(p, step_of(38, 0));
    lemma_summed(q0, step_of(38, 1));
    let q1 = step_apply(q0, step_of(38, 1));
    crate::flat::lemma_step_still(q1, step_of(38, 2));
    let q2 = q1;
    crate::flat::lemma_step_still(q2, step_of(38, 3));
    let q3 = q2;
    lemma_summed(q3, step_of(38, 4));
    let q4 = step_apply(q3, step_of(38, 4));
    lemma_summed(q4, step_of(38, 5));
    let q5 = step_apply(q4, step_of(38, 5));
    crate::flat::lemma_step_still(q5, step_of(38, 6));
    let q6 = q5;
    crate::flat::lemma_step_still(q6, step_of(38, 7));
    let q7 = q6;
    assert(stage_run(p, 38, 8) == q7);
}

proof fn lemma_stage_39(p: Seq<i64>, v: int)
    requires
        -4096 <= v <= 4096,
        p.len() == 16,
        ({
            let m = parts16(v);
            &&& p[0] == m[0]
            &&& p[1] == m[1]
            &&& p[2] == 0
            &&& p[3] == 0
            &&& p[4] == m[0]
            &&& p[5] == m[1]
            &&& p[6] == 0
            &&& p[7] == 0
            &&& p[8] == m[2]
            &&& p[9] == m[3]
            &&& p[10] == 0
            &&& p[11] == 0
            &&& p[12] == m[2]
            &&& p[13] == m[3]
            &&& p[14] == 0
            &&& p[15] == 0
        }),
    ensures
        ({
            let m = parts16(v);
            let r = stage_run(p, 39, 4);
            &&& r.len() == 16
            &&& r[0] == m[0]
            &&& r[1] == m[1]
            &&& r[2] == 0
            &&& r[3] == 0
            &&& r[4] == m[4]
            &&& r[5] == m[5]
            &&& r[6] == 0
            &&& r[7] == 0
            &&& r[8] == m[2]
            &&& r[9] == m[3]
            &&& r[10] == 0
            &&& r[11] == 0
            &&& r[12] == m[6]
            &&& r[13] == m[7]
            &&& r[14] == 0
            &&& r[15] == 0
        }),
{
    reveal(parts16);
    lemma_parts16(v);
    lemma_pow2i_values();
    lemma_sines16();
    reveal(r12);
    let m = parts16(v);
    assert(-7000 <= m[0] <= 7000);
    assert(-7000 <= m[1] <= 7000);
    assert(-7000 <= m[2] <= 7000);
    assert(-7000 <= m[3] <= 7000);
    assert(-7000 <= m[4] <= 7000);
    assert(-7000 <= m[5] <= 7000);
    assert(-7000 <= m[6] <= 7000);
    assert(-7000 <= m[7] <= 7000);
    reveal_with_fuel(stage_run, 5);
    lemma_rotated(p, step_of(39, 0), 1567, 3784);
    let q0 = step_apply(p, step_of(39, 0));
    crate::flat::lemma_step_still(q0, step_of(39, 1));
    let q1 = q0;
    lemma_rotated(q1, step_of(39, 2), 1567, 3784);
    let q2 = step_apply(q1, step_of(39, 2));
    crate::flat::lemma_step_still(q2, step_of(39, 3));
    let q3 = q2;
    assert(stage_run(p, 39, 4) == q3);
}

proof fn lemma_stage_40(p: Seq<i64>, v: int)
    requires
        -4096 <= v <= 4096,
        p.len() == 16,
        ({
            let m = parts16(v);
            &&& p[0] == m[0]
            &&& p[1] == m[1]
            &&& p[2] == 0
            &&& p[3] == 0
            &&& p[4] == m[4]
            &&& p[5] == m[5]
            &&& p[6] == 0
            &&& p[7] == 0
            &&& p[8] == m[2]
            &&& p[9] == m[3]
            &&& p[10] == 0
            &&& p[11] == 0
            &&& p[12] == m[6]
            &&& p[13] == m[7]
            &&& p[14] == 0
            &&& p[15] == 0
        }),
    ensures
        ({
            let m = parts16(v);
            let r = stage_run(p, 40, 8);
            &&& r.len() == 16
            &&& r[0] == m[0]
            &&& r[1] == m[1]
            &&& r[2] == m[0]
            &&& r[3] == m[1]
            &&& r[4] == m[4]
            &&& r[5] == m[5]
            &&& r[6] == m[4]
            &&& r[7] == m[5]
            &&& r[8] == m[2]
            &&& r[9] == m[3]
            &&& r[10] == m[2]
            &&& r[11] == m[3]
            &&& r[12] == m[6]
            &&& r[13] == m[7]
            &&& r[14] == m[6]
            &&& r[15] == m[7]
        }),
{
    reveal(parts16);
    lemma_parts16(v);
    lemma_pow2i_values();
    lemma_sines16();
    reveal(r12);
    let m = parts16(v);
    assert(-7000 <= m[0] <= 7000);
    assert(-7000 <= m[1] <= 7000);
    assert(-7000 <= m[2] <= 7000);
    assert(-7000 <= m[3] <= 7000);
    assert(-7000 <= m[4] <= 7000);
    assert(-7000 <= m[5] <= 7000);
    assert(-7000 <= m[6] <= 7000);
    assert(-7000 <= m[7] <= 7000);
    reveal_with_fuel(stage_run, 9);
    lemma_summed(p, step_of(40, 0));
    let q0 = step_apply(p, step_of(40, 0));
    lemma_summed(q0, step_of(40, 1));
    let q1 = step_apply(q0, step_of(40, 1));
    lemma_summed(q1, step_of(40, 2));
    let q2 = step_apply(q1, step_of(40, 2));
    lemma_summed(q2, step_of(40, 3));
    let q3 = step_apply(q2, step_of(40, 3));
    lemma_summed(q3, step_of(40, 4));
    let q4 = step_apply(q3, step_of(40, 4));
    lemma_summed(q4, step_of(40, 5));
    let q5 = step_apply(q4, step_of(40, 5));
    lemma_summed(q5, step_of(40, 6));
    let q6 = step_apply(q5, step_of(40, 6));
    lemma_summed(q6, step_of(40, 7));
    let q7 = step_apply(q6, step_of(40, 7));
    assert(stage_run(p, 40, 8) == q7);
}

proof fn lemma_stage_41(p: Seq<i64>, v: int)
    requires
        -4096 <= v <= 4096,
        p.len() == 16,
        ({
            let m = parts16(v);
            &&& p[0] == m[0]
            &&& p[1] == m[1]
            &&& p[2] == m[0]
            &&& p[3] == m[1]
            &&& p[4] == m[4]
            &&& p[5] == m[5]
            &&& p[6] == m[4]
            &&& p[7] == m[5]
            &&& p[8] == m[2]
            &&& p[9] == m[3]
            &&& p[10] == m[2]
            &&& p[11] == m[3]
            &&& p[12] == m[6]
            &&& p[13] == m[7]
            &&& p[14] == m[6]
            &&& p[15] == m[7]
        }),
    ensures
        ({
            let m = parts16(v);
            let r = stage_run(p, 41, 4);
            &&& r.len() == 16
            &&& r[0] == m[0]
            &&& r[1] == m[1]
            &&& r[2] == m[8]
            &&& r[3] == m[9]
            &&& r[4] == m[4]
            &&& r[5] == m[5]
            &&& r[6] == m[10]
            &&& r[7] == m[11]
            &&& r[8] == m[2]
            &&& r[9] == m[3]
            &&& r[10] == m[12]
            &&& r[11] == m[13]
            &&& r[12] == m[6]
            &&& r[13] == m[7]
            &&& r[14] == m[14]
            &&& r[15] == m[15]
        }),
{
    reveal(parts16);
    lemma_parts16(v);
    lemma_pow2i_values();
    lemma_sines16();
    reveal(r12);
    let m = parts16(v);
    assert(-7000 <= m[0] <= 7000);
    assert(-7000 <= m[10] <= 7000);
    assert(-7000 <= m[11] <= 7000);
    assert(-7000 <= m[12] <= 7000);
    assert(-7000 <= m[13] <= 7000);
    assert(-7000 <= m[14] <= 7000);
    assert(-7000 <= m[15] <= 7000);
    assert(-7000 <= m[1] <= 7000);
    assert(-7000 <= m[2] <= 7000);
    assert(-7000 <= m[3] <= 7000);
    assert(-7000 <= m[4] <= 7000);
    assert(-7000 <= m[5] <= 7000);
    assert(-7000 <= m[6] <= 7000);
    assert(-7000 <= m[7] <= 7000);
    assert(-7000 <= m[8] <= 7000);
    assert(-7000 <= m[9] <= 7000);
    reveal_with_fuel(stage_run, 5);
    lemma_rotated(p, step_of(41, 0), 2896, 2896);
    let q0 = step_apply(p, step_of(41, 0));
    lemma_rotated(q0, step_of(41, 1), 2896, 2896);
    let q1 = step_apply(q0, step_of(41, 1));
    lemma_rotated(q1, step_of(41, 2), 2896, 2896);
    let q2 = step_apply(q1, step_of(41, 2));
    lemma_rotated(q2, step_of(41, 3), 2896, 2896);
    let q3 = step_apply(q2, step_of(41, 3));
    assert(stage_run(p, 41, 4) == q3);
}

proof fn lemma_first_sine_16(t: Seq<i64>, v: i64)
    requires
        t.len() == 16,
        crate::flat::level(t, 1, v),
        -4096 <= v <= 4096,
    ensures
        ({
            let r = adst_of(t, 4);
            let m = parts16(v as int);
            &&& r.len() == 16
            &&& r[0] == (m[0])
            &&& r[1] == -(m[2])
            &&& r[2] == (m[6])
            &&& r[3] == -(m[4])
            &&& r[4] == (m[10])
            &&& r[5] == -(m[14])
            &&& r[6] == (m[12])
            &&& r[7] == -(m[8])
            &&& r[8] == (m[9])
            &&& r[9] == -(m[13])
            &&& r[10] == (m[15])
            &&& r[11] == -(m[11])
            &&& r[12] == (m[5])
            &&& r[13] == -(m[7])
            &&& r[14] == (m[3])
            &&& r[15] == -(m[1])
        }),
{
    reveal(adst_of);
    let p = adst_in(t, 16);
    assert(p[1] == v);
    assert(p[0] == 0);
    assert(p[2] == 0);
    assert(p[3] == 0);
    assert(p[4] == 0);
    assert(p[5] == 0);
    assert(p[6] == 0);
    assert(p[7] == 0);
    assert(p[8] == 0);
    assert(p[9] == 0);
    assert(p[10] == 0);
    assert(p[11] == 0);
    assert(p[12] == 0);
    assert(p[13] == 0);
    assert(p[14] == 0);
    assert(p[15] == 0);
    lemma_stage_35(p, v as int);
    let s35 = stage_run(p, 35, 8);
    lemma_stage_36(s35, v as int);
    let s36 = stage_run(s35, 36, 8);
    lemma_stage_37(s36, v as int);
    let s37 = stage_run(s36, 37, 4);
    lemma_stage_38(s37, v as int);
    let s38 = stage_run(s37, 38, 8);
    lemma_stage_39(s38, v as int);
    let s39 = stage_run(s38, 39, 4);
    lemma_stage_40(s39, v as int);
    let s40 = stage_run(s39, 40, 8);
    lemma_stage_41(s40, v as int);
    let s41 = stage_run(s40, 41, 4);
    reveal_with_fuel(stages_run, 8);
    assert(stages_run(p, 4, 35, 36) == s35);
    assert(stages_run(p, 4, 35, 37) == s36);
    assert(stages_run(p, 4, 35, 38) == s37);
    assert(stages_run(p, 4, 35, 39) == s38);
    assert(stages_run(p, 4, 35, 40) == s39);
    assert(stages_run(p, 4, 35, 41) == s40);
    assert(stages_run(p, 4, 35, 42) == s41);
    assert(adst_source(0, 16) == 0);
    assert(adst_source(1, 16) == 8);
    assert(adst_source(2, 16) == 12);
    assert(adst_source(3, 16) == 4);
    assert(adst_source(4, 16) == 6);
    assert(adst_source(5, 16) == 14);
    assert(adst_source(6, 16) == 10);
    assert(adst_source(7, 16) == 2);
    assert(adst_source(8, 16) == 3);
    assert(adst_source(9, 16) == 11);
    assert(adst_source(10, 16) == 15);
    assert(adst_source(11, 16) == 7);
    assert(adst_source(12, 16) == 5);
    assert(adst_source(13, 16) == 13);
    assert(adst_source(14, 16) == 9);
    assert(adst_source(15, 16) == 1);
    lemma_parts16(v as int);
    let m = parts16(v as int);
    assert(-7000 <= m[0] <= 7000);
    assert(-7000 <= m[10] <= 7000);
    assert(-7000 <= m[11] <= 7000);
    assert(-7000 <= m[12] <= 7000);
    assert(-7000 <= m[13] <= 7000);
    assert(-7000 <= m[14] <= 7000);
    assert(-7000 <= m[15] <= 7000);
    assert(-7000 <= m[1] <= 7000);
    assert(-7000 <= m[2] <= 7000);
    assert(-7000 <= m[3] <= 7000);
    assert(-7000 <= m[4] <= 7000);
    assert(-7000 <= m[5] <= 7000);
    assert(-7000 <= m[6] <= 7000);
    assert(-7000 <= m[7] <= 7000);
    assert(-7000 <= m[8] <= 7000);
    assert(-7000 <= m[9] <= 7000);
}

proof fn lemma_near_sines_16(v: int)
    requires
        -4096 <= v <= 4096,
    ensures
        ({
            let m = parts16(v);
            &&& -20480 <= 4096 * ((m[0])) - 201 * v <= 20480
            &&& -20480 <= 4096 * (-(m[2])) - 601 * v <= 20480
            &&& -20480 <= 4096 * ((m[6])) - 995 * v <= 20480
            &&& -20480 <= 4096 * (-(m[4])) - 1380 * v <= 20480
            &&& -20480 <= 4096 * ((m[10])) - 1751 * v <= 20480
            &&& -20480 <= 4096 * (-(m[14])) - 2106 * v <= 20480
            &&& -20480 <= 4096 * ((m[12])) - 2440 * v <= 20480
            &&& -20480 <= 4096 * (-(m[8])) - 2751 * v <= 20480
            &&& -20480 <= 4096 * ((m[9])) - 3035 * v <= 20480
            &&& -20480 <= 4096 * (-(m[13])) - 3290 * v <= 20480
            &&& -20480 <= 4096 * ((m[15])) - 3513 * v <= 20480
            &&& -20480 <= 4096 * (-(m[11])) - 3703 * v <= 20480
            &&& -20480 <= 4096 * ((m[5])) - 3857 * v <= 20480
            &&& -20480 <= 4096 * (-(m[7])) - 3973 * v <= 20480
            &&& -20480 <= 4096 * ((m[3])) - 4052 * v <= 20480
            &&& -20480 <= 4096 * (-(m[1])) - 4091 * v <= 20480
        }),
{
    reveal(parts16);
    reveal(r12);
}

proof fn lemma_rising(i: int)
    requires
        0 <= i < 16,
    ensures
        i == 0 ==> sin_of(2 * (2 * i + 1)) == 201,
        i == 1 ==> sin_of(2 * (2 * i + 1)) == 601,
        i == 2 ==> sin_of(2 * (2 * i + 1)) == 995,
        i == 3 ==> sin_of(2 * (2 * i + 1)) == 1380,
        i == 4 ==> sin_of(2 * (2 * i + 1)) == 1751,
        i == 5 ==> sin_of(2 * (2 * i + 1)) == 2106,
        i == 6 ==> sin_of(2 * (2 * i + 1)) == 2440,
        i == 7 ==> sin_of(2 * (2 * i + 1)) == 2751,
        i == 8 ==> sin_of(2 * (2 * i + 1)) == 3035,
        i == 9 ==> sin_of(2 * (2 * i + 1)) == 3290,
        i == 10 ==> sin_of(2 * (2 * i + 1)) == 3513,
        i == 11 ==> sin_of(2 * (2 * i + 1)) == 3703,
        i == 12 ==> sin_of(2 * (2 * i + 1)) == 3857,
        i == 13 ==> sin_of(2 * (2 * i + 1)) == 3973,
        i == 14 ==> sin_of(2 * (2 * i + 1)) == 4052,
        i == 15 ==> sin_of(2 * (2 * i + 1)) == 4091,
{
    reveal(cos_of);
    assert(COS128_LOOKUP[62] == 201 && COS128_LOOKUP[58] == 601 && COS128_LOOKUP[54] == 995
        && COS128_LOOKUP[50] == 1380 && COS128_LOOKUP[46] == 1751 && COS128_LOOKUP[42] == 2106
        && COS128_LOOKUP[38] == 2440 && COS128_LOOKUP[34] == 2751 && COS128_LOOKUP[30] == 3035
        && COS128_LOOKUP[26] == 3290 && COS128_LOOKUP[22] == 3513 && COS128_LOOKUP[18] == 3703
        && COS128_LOOKUP[14] == 3857 && COS128_LOOKUP[10] == 3973 && COS128_LOOKUP[6] == 4052
        && COS128_LOOKUP[2] == 4091);
}

/// A first coefficient of a sixteen point sine transform gives a wave that rises through a
/// quarter turn, within five.
pub proof fn law_first_sine_16(t: Seq<i64>, v: i64, i: int)
    requires
        t.len() == 16,
        crate::flat::level(t, 1, v),
        -4096 <= v <= 4096,
        0 <= i < 16,
    ensures
        -20480 <= 4096 * adst_of(t, 4)[i] - v * sin_of(2 * (2 * i + 1)) <= 20480,
{
    lemma_first_sine_16(t, v);
    lemma_near_sines_16(v as int);
    lemma_rising(i);
    let w = sin_of(2 * (2 * i + 1));
    let x = v as int;
    assert(w == 201 ==> x * w == 201 * x);
    assert(w == 601 ==> x * w == 601 * x);
    assert(w == 995 ==> x * w == 995 * x);
    assert(w == 1380 ==> x * w == 1380 * x);
    assert(w == 1751 ==> x * w == 1751 * x);
    assert(w == 2106 ==> x * w == 2106 * x);
    assert(w == 2440 ==> x * w == 2440 * x);
    assert(w == 2751 ==> x * w == 2751 * x);
    assert(w == 3035 ==> x * w == 3035 * x);
    assert(w == 3290 ==> x * w == 3290 * x);
    assert(w == 3513 ==> x * w == 3513 * x);
    assert(w == 3703 ==> x * w == 3703 * x);
    assert(w == 3857 ==> x * w == 3857 * x);
    assert(w == 3973 ==> x * w == 3973 * x);
    assert(w == 4052 ==> x * w == 4052 * x);
    assert(w == 4091 ==> x * w == 4091 * x);
}

} // verus!
