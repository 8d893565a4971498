//! The cosine transform of sixteen points: half a wave from its second coefficient.
use crate::bits::lemma_pow2i_values;
use crate::dct_laws::{lemma_rotated, lemma_skip_stage, lemma_summed};
use crate::transform::{
    brev_of, cos_of, dct_of, dct_permuted, sin_of, stage_len, stage_run, stages_run, step_apply,
    step_of, COS128_LOOKUP,
};
use vstd::prelude::*;

verus! {

/// Rounding of a scaled number.
#[verifier::opaque]
spec fn r12(x: int) -> int {
    (x + 2048) / 4096
}

proof fn lemma_cosines16()
    ensures
        cos_of(32) == 2896 && sin_of(32) == 2896,
        cos_of(48) == 1567 && sin_of(48) == 3784,
        cos_of(60) == 401 && sin_of(60) == 4076,
{
    reveal(cos_of);
    assert(COS128_LOOKUP[4] == 4076 && COS128_LOOKUP[16] == 3784 && COS128_LOOKUP[32] == 2896
        && COS128_LOOKUP[48] == 1567 && COS128_LOOKUP[60] == 401);
    assert((-32int) % 256 == 224 && (-16int) % 256 == 240 && (-4int) % 256 == 252);
}

/// What the rotations of the sixteen point transform make of a second coefficient.
#[verifier::opaque]
spec fn odd16(v: int) -> Seq<int> {
    let m0 = r12(4076 * v);
    let m1 = r12(401 * v);
    let m2 = r12(3784 * m0 + 1567 * m1);
    let m3 = r12(1567 * m0 - 3784 * m1);
    let m4 = r12(2896 * m2 + 2896 * m3);
    let m5 = r12(2896 * m2 - 2896 * m3);
    let m6 = r12(2896 * m0 + 2896 * m1);
    let m7 = r12(2896 * m0 - 2896 * m1);
    seq![m0, m1, m2, m3, m4, m5, m6, m7]
}

proof fn lemma_odd16(v: int)
    requires
        -4096 <= v <= 4096,
    ensures
        forall|i: int| 0 <= i < 8 ==> -7000 <= #[trigger] odd16(v)[i] <= 7000,
        odd16(v).len() == 8,
{
    reveal(odd16);
    reveal(r12);
}

proof fn lemma_cosine_stage_3(p: Seq<i64>, v: int)
    requires
        -4096 <= v <= 4096,
        p.len() == 16,
        ({
            let m = odd16(v);
            &&& p[0] == 0
            &&& p[1] == 0
            &&& p[2] == 0
            &&& p[3] == 0
            &&& p[4] == 0
            &&& p[5] == 0
            &&& p[6] == 0
            &&& p[7] == 0
            &&& p[8] == v
            &&& p[9] == 0
            &&& p[10] == 0
            &&& p[11] == 0
            &&& p[12] == 0
            &&& p[13] == 0
            &&& p[14] == 0
            &&& p[15] == 0
        }),
    ensures
        ({
            let m = odd16(v);
            let r = stage_run(p, 3, 4);
            &&& r.len() == 16
            &&& r[0] == 0
            &&& r[1] == 0
            &&& r[2] == 0
            &&& r[3] == 0
            &&& r[4] == 0
            &&& r[5] == 0
            &&& r[6] == 0
            &&& r[7] == 0
            &&& r[8] == m[1]
            &&& r[9] == 0
            &&& r[10] == 0
            &&& r[11] == 0
            &&& r[12] == 0
            &&& r[13] == 0
            &&& r[14] == 0
            &&& r[15] == m[0]
        }),
{
    reveal(odd16);
    lemma_odd16(v);
    lemma_pow2i_values();
    lemma_cosines16();
    reveal(r12);
    let m = odd16(v);
    assert(-7000 <= m[0] <= 7000);
    assert(-7000 <= m[1] <= 7000);
    reveal_with_fuel(brev_of, 4);
    reveal_with_fuel(stage_run, 5);
    lemma_rotated(p, step_of(3, 0), 401, 4076);
    let q0 = step_apply(p, step_of(3, 0));
    crate::flat::lemma_step_still(q0, step_of(3, 1));
    let q1 = q0;
    crate::flat::lemma_step_still(q1, step_of(3, 2));
    let q2 = q1;
    crate::flat::lemma_step_still(q2, step_of(3, 3));
    let q3 = q2;
    assert(stage_run(p, 3, 4) == q3);
}

proof fn lemma_cosine_stage_6(p: Seq<i64>, v: int)
    requires
        -4096 <= v <= 4096,
        p.len() == 16,
        ({
            let m = odd16(v);
            &&& p[0] == 0
            &&& p[1] == 0
            &&& p[2] == 0
            &&& p[3] == 0
            &&& p[4] == 0
            &&& p[5] == 0
            &&& p[6] == 0
            &&& p[7] == 0
            &&& p[8] == m[1]
            &&& p[9] == 0
            &&& p[10] == 0
            &&& p[11] == 0
            &&& p[12] == 0
            &&& p[13] == 0
            &&& p[14] == 0
            &&& p[15] == m[0]
        }),
    ensures
        ({
            let m = odd16(v);
            let r = stage_run(p, 6, 2);
            &&& r.len() == 16
            &&& r[0] == 0
            &&& r[1] == 0
            &&& r[2] == 0
            &&& r[3] == 0
            &&& r[4] == 0
            &&& r[5] == 0
            &&& r[6] == 0
            &&& r[7] == 0
            &&& r[8] == m[1]
            &&& r[9] == 0
            &&& r[10] == 0
            &&& r[11] == 0
            &&& r[12] == 0
            &&& r[13] == 0
            &&& r[14] == 0
            &&& r[15] == m[0]
        }),
{
    reveal(odd16);
    lemma_odd16(v);
    lemma_pow2i_values();
    lemma_cosines16();
    reveal(r12);
    let m = odd16(v);
    assert(-7000 <= m[0] <= 7000);
    assert(-7000 <= m[1] <= 7000);
    reveal_with_fuel(stage_run, 3);
    crate::flat::lemma_step_still(p, step_of(6, 0));
    let q0 = p;
    crate::flat::lemma_step_still(q0, step_of(6, 1));
    let q1 = q0;
    assert(stage_run(p, 6, 2) == q1);
}

proof fn lemma_cosine_stage_7(p: Seq<i64>, v: int)
    requires
        -4096 <= v <= 4096,
        p.len() == 16,
        ({
            let m = odd16(v);
            &&& p[0] == 0
            &&& p[1] == 0
            &&& p[2] == 0
            &&& p[3] == 0
            &&& p[4] == 0
            &&& p[5] == 0
            &&& p[6] == 0
            &&& p[7] == 0
            &&& p[8] == m[1]
            &&& p[9] == 0
            &&& p[10] == 0
            &&& p[11] == 0
            &&& p[12] == 0
            &&& p[13] == 0
            &&& p[14] == 0
            &&& p[15] == m[0]
        }),
    ensures
        ({
            let m = odd16(v);
            let r = stage_run(p, 7, 4);
            &&& r.len() == 16
            &&& r[0] == 0
            &&& r[1] == 0
            &&& r[2] == 0
            &&& r[3] == 0
            &&& r[4] == 0
            &&& r[5] == 0
            &&& r[6] == 0
            &&& r[7] == 0
            &&& r[8] == m[1]
            &&& r[9] == m[1]
            &&& r[10] == 0
            &&& r[11] == 0
            &&& r[12] == 0
            &&& r[13] == 0
            &&& r[14] == m[0]
            &&& r[15] == m[0]
        }),
{
    reveal(odd16);
    lemma_odd16(v);
    lemma_pow2i_values();
    lemma_cosines16();
    reveal(r12);
    let m = odd16(v);
    assert(-7000 <= m[0] <= 7000);
    assert(-7000 <= m[1] <= 7000);
    reveal_with_fuel(stage_run, 5);
    lemma_summed(p, step_of(7, 0));
    let q0 = step_apply(p, step_of(7, 0));
    crate::flat::lemma_step_still(q0, step_of(7, 1));
    let q1 = q0;
    crate::flat::lemma_step_still(q1, step_of(7, 2));
    let q2 = q1;
    lemma_summed(q2, step_of(7, 3));
    let q3 = step_apply(q2, step_of(7, 3));
    assert(stage_run(p, 7, 4) == q3);
}

proof fn lemma_cosine_stage_10(p: Seq<i64>, v: int)
    requires
        -4096 <= v <= 4096,
        p.len() == 16,
        ({
            let m = odd16(v);
            &&& p[0] == 0
            &&& p[1] == 0
            &&& p[2] == 0
            &&& p[3] == 0
            &&& p[4] == 0
            &&& p[5] == 0
            &&& p[6] == 0
            &&& p[7] == 0
            &&& p[8] == m[1]
            &&& p[9] == m[1]
            &&& p[10] == 0
            &&& p[11] == 0
            &&& p[12] == 0
            &&& p[13] == 0
            &&& p[14] == m[0]
            &&& p[15] == m[0]
        }),
    ensures
        ({
            let m = odd16(v);
            let r = stage_run(p, 10, 2);
            &&& r.len() == 16
            &&& r[0] == 0
            &&& r[1] == 0
            &&& r[2] == 0
            &&& r[3] == 0
            &&& r[4] == 0
            &&& r[5] == 0
            &&& r[6] == 0
            &&& r[7] == 0
            &&& r[8] == m[1]
            &&& r[9] == m[1]
            &&& r[10] == 0
            &&& r[11] == 0
            &&& r[12] == 0
            &&& r[13] == 0
            &&& r[14] == m[0]
            &&& r[15] == m[0]
        }),
{
    reveal(odd16);
    lemma_odd16(v);
    lemma_pow2i_values();
    lemma_cosines16();
    reveal(r12);
    let m = odd16(v);
    assert(-7000 <= m[0] <= 7000);
    assert(-7000 <= m[1] <= 7000);
    reveal_with_fuel(stage_run, 3);
    crate::flat::lemma_step_still(p, step_of(10, 0));
    let q0 = p;
    crate::flat::lemma_step_still(q0, step_of(10, 1));
    let q1 = q0;
    assert(stage_run(p, 10, 2) == q1);
}

proof fn lemma_cosine_stage_11(p: Seq<i64>, v: int)
    requires
        -4096 <= v <= 4096,
        p.len() == 16,
        ({
            let m = odd16(v);
            &&& p[0] == 0
            &&& p[1] == 0
            &&& p[2] == 0
            &&& p[3] == 0
            &&& p[4] == 0
            &&& p[5] == 0
            &&& p[6] == 0
            &&& p[7] == 0
            &&& p[8] == m[1]
            &&& p[9] == m[1]
            &&& p[10] == 0
            &&& p[11] == 0
            &&& p[12] == 0
            &&& p[13] == 0
            &&& p[14] == m[0]
            &&& p[15] == m[0]
        }),
    ensures
        ({
            let m = odd16(v);
            let r = stage_run(p, 11, 2);
            &&& r.len() == 16
            &&& r[0] == 0
            &&& r[1] == 0
            &&& r[2] == 0
            &&& r[3] == 0
            &&& r[4] == 0
            &&& r[5] == 0
            &&& r[6] == 0
            &&& r[7] == 0
            &&& r[8] == m[1]
            &&& r[9] == m[1]
            &&& r[10] == 0
            &&& r[11] == 0
            &&& r[12] == 0
            &&& r[13] == 0
            &&& r[14] == m[0]
            &&& r[15] == m[0]
        }),
{
    reveal(odd16);
    lemma_odd16(v);
    lemma_pow2i_values();
    lemma_cosines16();
    reveal(r12);
    let m = odd16(v);
    assert(-7000 <= m[0] <= 7000);
    assert(-7000 <= m[1] <= 7000);
    reveal_with_fuel(stage_run, 3);
    crate::flat::lemma_step_still(p, step_of(11, 0));
    let q0 = p;
    crate::flat::lemma_step_still(q0, step_of(11, 1));
    let q1 = q0;
    assert(stage_run(p, 11, 2) == q1);
}

proof fn lemma_cosine_stage_12(p: Seq<i64>, v: int)
    requires
        -4096 <= v <= 4096,
        p.len() == 16,
        ({
            let m = odd16(v);
            &&& p[0] == 0
            &&& p[1] == 0
            &&& p[2] == 0
            &&& p[3] == 0
            &&& p[4] == 0
            &&& p[5] == 0
            &&& p[6] == 0
            &&& p[7] == 0
            &&& p[8] == m[1]
            &&& p[9] == m[1]
            &&& p[10] == 0
            &&& p[11] == 0
            &&& p[12] == 0
            &&& p[13] == 0
            &&& p[14] == m[0]
            &&& p[15] == m[0]
        }),
    ensures
        ({
            let m = odd16(v);
            let r = stage_run(p, 12, 2);
            &&& r.len() == 16
            &&& r[0] == 0
            &&& r[1] == 0
            &&& r[2] == 0
            &&& r[3] == 0
            &&& r[4] == 0
            &&& r[5] == 0
            &&& r[6] == 0
            &&& r[7] == 0
            &&& r[8] == m[1]
            &&& r[9] == m[3]
            &&& r[10] == 0
            &&& r[11] == 0
            &&& r[12] == 0
            &&& r[13] == 0
            &&& r[14] == m[2]
            &&& r[15] == m[0]
        }),
{
    reveal(odd16);
    lemma_odd16(v);
    lemma_pow2i_values();
    lemma_cosines16();
    reveal(r12);
    let m = odd16(v);
    assert(-7000 <= m[0] <= 7000);
    assert(-7000 <= m[1] <= 7000);
    assert(-7000 <= m[2] <= 7000);
    assert(-7000 <= m[3] <= 7000);
    reveal_with_fuel(stage_run, 3);
    lemma_rotated(p, step_of(12, 0), 1567, 3784);
    let q0 = step_apply(p, step_of(12, 0));
    crate::flat::lemma_step_still(q0, step_of(12, 1));
    let q1 = q0;
    assert(stage_run(p, 12, 2) == q1);
}

proof fn lemma_cosine_stage_15(p: Seq<i64>, v: int)
    requires
        -4096 <= v <= 4096,
        p.len() == 16,
        ({
            let m = odd16(v);
            &&& p[0] == 0
            &&& p[1] == 0
            &&& p[2] == 0
            &&& p[3] == 0
            &&& p[4] == 0
            &&& p[5] == 0
            &&& p[6] == 0
            &&& p[7] == 0
            &&& p[8] == m[1]
            &&& p[9] == m[3]
            &&& p[10] == 0
            &&& p[11] == 0
            &&& p[12] == 0
            &&& p[13] == 0
            &&& p[14] == m[2]
            &&& p[15] == m[0]
        }),
    ensures
        ({
            let m = odd16(v);
            let r = stage_run(p, 15, 2);
            &&& r.len() == 16
            &&& r[0] == 0
            &&& r[1] == 0
            &&& r[2] == 0
            &&& r[3] == 0
            &&& r[4] == 0
            &&& r[5] == 0
            &&& r[6] == 0
            &&& r[7] == 0
            &&& r[8] == m[1]
            &&& r[9] == m[3]
            &&& r[10] == 0
            &&& r[11] == 0
            &&& r[12] == 0
            &&& r[13] == 0
            &&& r[14] == m[2]
            &&& r[15] == m[0]
        }),
{
    reveal(odd16);
    lemma_odd16(v);
    lemma_pow2i_values();
    lemma_cosines16();
    reveal(r12);
    let m = odd16(v);
    assert(-7000 <= m[0] <= 7000);
    assert(-7000 <= m[1] <= 7000);
    assert(-7000 <= m[2] <= 7000);
    assert(-7000 <= m[3] <= 7000);
    reveal_with_fuel(stage_run, 3);
    crate::flat::lemma_step_still(p, step_of(15, 0));
    let q0 = p;
    crate::flat::lemma_step_still(q0, step_of(15, 1));
    let q1 = q0;
    assert(stage_run(p, 15, 2) == q1);
}

proof fn lemma_cosine_stage_16(p: Seq<i64>, v: int)
    requires
        -4096 <= v <= 4096,
        p.len() == 16,
        ({
            let m = odd16(v);
            &&& p[0] == 0
            &&& p[1] == 0
            &&& p[2] == 0
            &&& p[3] == 0
            &&& p[4] == 0
            &&& p[5] == 0
            &&& p[6] == 0
            &&& p[7] == 0
            &&& p[8] == m[1]
            &&& p[9] == m[3]
            &&& p[10] == 0
            &&& p[11] == 0
            &&& p[12] == 0
            &&& p[13] == 0
            &&& p[14] == m[2]
            &&& p[15] == m[0]
        }),
    ensures
        ({
            let m = odd16(v);
            let r = stage_run(p, 16, 1);
            &&& r.len() == 16
            &&& r[0] == 0
            &&& r[1] == 0
            &&& r[2] == 0
            &&& r[3] == 0
            &&& r[4] == 0
            &&& r[5] == 0
            &&& r[6] == 0
            &&& r[7] == 0
            &&& r[8] == m[1]
            &&& r[9] == m[3]
            &&& r[10] == 0
            &&& r[11] == 0
            &&& r[12] == 0
            &&& r[13] == 0
            &&& r[14] == m[2]
            &&& r[15] == m[0]
        }),
{
    reveal(odd16);
    lemma_odd16(v);
    lemma_pow2i_values();
    lemma_cosines16();
    reveal(r12);
    let m = odd16(v);
    assert(-7000 <= m[0] <= 7000);
    assert(-7000 <= m[1] <= 7000);
    assert(-7000 <= m[2] <= 7000);
    assert(-7000 <= m[3] <= 7000);
    reveal_with_fuel(stage_run, 2);
    crate::flat::lemma_step_still(p, step_of(16, 0));
    let q0 = p;
    assert(stage_run(p, 16, 1) == q0);
}

proof fn lemma_cosine_stage_17(p: Seq<i64>, v: int)
    requires
        -4096 <= v <= 4096,
        p.len() == 16,
        ({
            let m = odd16(v);
            &&& p[0] == 0
            &&& p[1] == 0
            &&& p[2] == 0
            &&& p[3] == 0
            &&& p[4] == 0
            &&& p[5] == 0
            &&& p[6] == 0
            &&& p[7] == 0
            &&& p[8] == m[1]
            &&& p[9] == m[3]
            &&& p[10] == 0
            &&& p[11] == 0
            &&& p[12] == 0
            &&& p[13] == 0
            &&& p[14] == m[2]
            &&& p[15] == m[0]
        }),
    ensures
        ({
            let m = odd16(v);
            let r = stage_run(p, 17, 4);
            &&& r.len() == 16
            &&& r[0] == 0
            &&& r[1] == 0
            &&& r[2] == 0
            &&& r[3] == 0
            &&& r[4] == 0
            &&& r[5] == 0
            &&& r[6] == 0
            &&& r[7] == 0
            &&& r[8] == m[1]
            &&& r[9] == m[3]
            &&& r[10] == m[3]
            &&& r[11] == m[1]
            &&& r[12] == m[0]
            &&& r[13] == m[2]
            &&& r[14] == m[2]
            &&& r[15] == m[0]
        }),
{
    reveal(odd16);
    lemma_odd16(v);
    lemma_pow2i_values();
    lemma_cosines16();
    reveal(r12);
    let m = odd16(v);
    assert(-7000 <= m[0] <= 7000);
    assert(-7000 <= m[1] <= 7000);
    assert(-7000 <= m[2] <= 7000);
    assert(-7000 <= m[3] <= 7000);
    reveal_with_fuel(stage_run, 5);
    lemma_summed(p, step_of(17, 0));
    let q0 = step_apply(p, step_of(17, 0));
    lemma_summed(q0, step_of(17, 1));
    let q1 = step_apply(q0, step_of(17, 1));
    lemma_summed(q1, step_of(17, 2));
    let q2 = step_apply(q1, step_of(17, 2));
    lemma_summed(q2, step_of(17, 3));
    let q3 = step_apply(q2, step_of(17, 3));
    assert(stage_run(p, 17, 4) == q3);
}

proof fn lemma_cosine_stage_20(p: Seq<i64>, v: int)
    requires
        -4096 <= v <= 4096,
        p.len() == 16,
        ({
            let m = odd16(v);
            &&& p[0] == 0
            &&& p[1] == 0
            &&& p[2] == 0
            &&& p[3] == 0
            &&& p[4] == 0
            &&& p[5] == 0
            &&& p[6] == 0
            &&& p[7] == 0
            &&& p[8] == m[1]
            &&& p[9] == m[3]
            &&& p[10] == m[3]
            &&& p[11] == m[1]
            &&& p[12] == m[0]
            &&& p[13] == m[2]
            &&& p[14] == m[2]
            &&& p[15] == m[0]
        }),
    ensures
        ({
            let m = odd16(v);
            let r = stage_run(p, 20, 4);
            &&& r.len() == 16
            &&& r[0] == 0
            &&& r[1] == 0
            &&& r[2] == 0
            &&& r[3] == 0
            &&& r[4] == 0
            &&& r[5] == 0
            &&& r[6] == 0
            &&& r[7] == 0
            &&& r[8] == m[1]
            &&& r[9] == m[3]
            &&& r[10] == m[3]
            &&& r[11] == m[1]
            &&& r[12] == m[0]
            &&& r[13] == m[2]
            &&& r[14] == m[2]
            &&& r[15] == m[0]
        }),
{
    reveal(odd16);
    lemma_odd16(v);
    lemma_pow2i_values();
    lemma_cosines16();
    reveal(r12);
    let m = odd16(v);
    assert(-7000 <= m[0] <= 7000);
    assert(-7000 <= m[1] <= 7000);
    assert(-7000 <= m[2] <= 7000);
    assert(-7000 <= m[3] <= 7000);
    reveal_with_fuel(stage_run, 5);
    crate::flat::lemma_step_still(p, step_of(20, 0));
    let q0 = p;
    crate::flat::lemma_step_still(q0, step_of(20, 1));
    let q1 = q0;
    crate::flat::lemma_step_still(q1, step_of(20, 2));
    let q2 = q1;
    crate::flat::lemma_step_still(q2, step_of(20, 3));
    let q3 = q2;
    assert(stage_run(p, 20, 4) == q3);
}

proof fn lemma_cosine_stage_21(p: Seq<i64>, v: int)
    requires
        -4096 <= v <= 4096,
        p.len() == 16,
        ({
            let m = odd16(v);
            &&& p[0] == 0
            &&& p[1] == 0
            &&& p[2] == 0
            &&& p[3] == 0
            &&& p[4] == 0
            &&& p[5] == 0
            &&& p[6] == 0
            &&& p[7] == 0
            &&& p[8] == m[1]
            &&& p[9] == m[3]
            &&& p[10] == m[3]
            &&& p[11] == m[1]
            &&& p[12] == m[0]
            &&& p[13] == m[2]
            &&& p[14] == m[2]
            &&& p[15] == m[0]
        }),
    ensures
        ({
            let m = odd16(v);
            let r = stage_run(p, 21, 2);
            &&& r.len() == 16
            &&& r[0] == 0
            &&& r[1] == 0
            &&& r[2] == 0
            &&& r[3] == 0
            &&& r[4] == 0
            &&& r[5] == 0
            &&& r[6] == 0
            &&& r[7] == 0
            &&& r[8] == m[1]
            &&& r[9] == m[3]
            &&& r[10] == m[5]
            &&& r[11] == m[7]
            &&& r[12] == m[6]
            &&& r[13] == m[4]
            &&& r[14] == m[2]
            &&& r[15] == m[0]
        }),
{
    reveal(odd16);
    lemma_odd16(v);
    lemma_pow2i_values();
    lemma_cosines16();
    reveal(r12);
    let m = odd16(v);
    assert(-7000 <= m[0] <= 7000);
    assert(-7000 <= m[1] <= 7000);
    assert(-7000 <= m[2] <= 7000);
    assert(-7000 <= m[3] <= 7000);
    assert(-7000 <= m[4] <= 7000);
    assert(-7000 <= m[5] <= 7000);
    assert(-7000 <= m[6] <= 7000);
    assert(-7000 <= m[7] <= 7000);
    reveal_with_fuel(stage_run, 3);
    lemma_rotated(p, step_of(21, 0), 2896, 2896);
    let q0 = step_apply(p, step_of(21, 0));
    lemma_rotated(q0, step_of(21, 1), 2896, 2896);
    let q1 = step_apply(q0, step_of(21, 1));
    assert(stage_run(p, 21, 2) == q1);
}

proof fn lemma_cosine_stage_24(p: Seq<i64>, v: int)
    requires
        -4096 <= v <= 4096,
        p.len() == 16,
        ({
            let m = odd16(v);
            &&& p[0] == 0
            &&& p[1] == 0
            &&& p[2] == 0
            &&& p[3] == 0
            &&& p[4] == 0
            &&& p[5] == 0
            &&& p[6] == 0
            &&& p[7] == 0
            &&& p[8] == m[1]
            &&& p[9] == m[3]
            &&& p[10] == m[5]
            &&& p[11] == m[7]
            &&& p[12] == m[6]
            &&& p[13] == m[4]
            &&& p[14] == m[2]
            &&& p[15] == m[0]
        }),
    ensures
        ({
            let m = odd16(v);
            let r = stage_run(p, 24, 8);
            &&& r.len() == 16
            &&& r[0] == m[0]
            &&& r[1] == m[2]
            &&& r[2] == m[4]
            &&& r[3] == m[6]
            &&& r[4] == m[7]
            &&& r[5] == m[5]
            &&& r[6] == m[3]
            &&& r[7] == m[1]
            &&& r[8] == -m[1]
            &&& r[9] == -m[3]
            &&& r[10] == -m[5]
            &&& r[11] == -m[7]
            &&& r[12] == -m[6]
            &&& r[13] == -m[4]
            &&& r[14] == -m[2]
            &&& r[15] == -m[0]
        }),
{
    reveal(odd16);
    lemma_odd16(v);
    lemma_pow2i_values();
    lemma_cosines16();
    reveal(r12);
    let m = odd16(v);
    assert(-7000 <= m[0] <= 7000);
    assert(-7000 <= m[1] <= 7000);
    assert(-7000 <= m[2] <= 7000);
    assert(-7000 <= m[3] <= 7000);
    assert(-7000 <= m[4] <= 7000);
    assert(-7000 <= m[5] <= 7000);
    assert(-7000 <= m[6] <= 7000);
    assert(-7000 <= m[7] <= 7000);
    reveal_with_fuel(stage_run, 9);
    lemma_summed(p, step_of(24, 0));
    let q0 = step_apply(p, step_of(24, 0));
    lemma_summed(q0, step_of(24, 1));
    let q1 = step_apply(q0, step_of(24, 1));
    lemma_summed(q1, step_of(24, 2));
    let q2 = step_apply(q1, step_of(24, 2));
    lemma_summed(q2, step_of(24, 3));
    let q3 = step_apply(q2, step_of(24, 3));
    lemma_summed(q3, step_of(24, 4));
    let q4 = step_apply(q3, step_of(24, 4));
    lemma_summed(q4, step_of(24, 5));
    let q5 = step_apply(q4, step_of(24, 5));
    lemma_summed(q5, step_of(24, 6));
    let q6 = step_apply(q5, step_of(24, 6));
    lemma_summed(q6, step_of(24, 7));
    let q7 = step_apply(q6, step_of(24, 7));
    assert(stage_run(p, 24, 8) == q7);
}

proof fn lemma_idle_stages_16(t: Seq<i64>, from: int, to: int)
    requires
        0 <= from <= to <= 30,
        forall|g: int| from <= g < to ==> #[trigger] stage_len(g, 4) == 0,
    ensures
        stages_run(t, 4, 0, to) == stages_run(t, 4, 0, from),
    decreases to - from,
{
    if from < to {
        lemma_idle_stages_16(t, from, to - 1);
        assert(stage_len(to - 1, 4) == 0);
        lemma_skip_stage(t, 4, to - 1);
    }
}

proof fn lemma_second_16(t: Seq<i64>, v: int)
    requires
        t.len() == 16,
        -4096 <= v <= 4096,
        forall|i: int| 0 <= i < 16 ==> #[trigger] t[i] == if i == 1 {
            v
        } else {
            0
        },
    ensures
        ({
            let r = dct_of(t, 4);
            let m = odd16(v);
            &&& r.len() == 16
            &&& r[0] == m[0]
            &&& r[1] == m[2]
            &&& r[2] == m[4]
            &&& r[3] == m[6]
            &&& r[4] == m[7]
            &&& r[5] == m[5]
            &&& r[6] == m[3]
            &&& r[7] == m[1]
            &&& r[8] == -m[1]
            &&& r[9] == -m[3]
            &&& r[10] == -m[5]
            &&& r[11] == -m[7]
            &&& r[12] == -m[6]
            &&& r[13] == -m[4]
            &&& r[14] == -m[2]
            &&& r[15] == -m[0]
        }),
{
    reveal(dct_of);
    lemma_pow2i_values();
    reveal_with_fuel(brev_of, 6);
    let p = dct_permuted(t, 4);
    assert(p[0] == 0);
    assert(p[1] == 0);
    assert(p[2] == 0);
    assert(p[3] == 0);
    assert(p[4] == 0);
    assert(p[5] == 0);
    assert(p[6] == 0);
    assert(p[7] == 0);
    assert(p[8] == v);
    assert(p[9] == 0);
    assert(p[10] == 0);
    assert(p[11] == 0);
    assert(p[12] == 0);
    assert(p[13] == 0);
    assert(p[14] == 0);
    assert(p[15] == 0);
    assert(stages_run(p, 4, 0, 0) == p);
    lemma_idle_stages_16(p, 0, 3);
    lemma_cosine_stage_3(p, v);
    let s3 = stage_run(p, 3, 4);
    assert(stages_run(p, 4, 0, 4) == s3);
    lemma_idle_stages_16(p, 4, 6);
    lemma_cosine_stage_6(s3, v);
    let s6 = stage_run(s3, 6, 2);
    assert(stages_run(p, 4, 0, 7) == s6);
    lemma_idle_stages_16(p, 7, 7);
    lemma_cosine_stage_7(s6, v);
    let s7 = stage_run(s6, 7, 4);
    assert(stages_run(p, 4, 0, 8) == s7);
    lemma_idle_stages_16(p, 8, 10);
    lemma_cosine_stage_10(s7, v);
    let s10 = stage_run(s7, 10, 2);
    assert(stages_run(p, 4, 0, 11) == s10);
    lemma_idle_stages_16(p, 11, 11);
    lemma_cosine_stage_11(s10, v);
    let s11 = stage_run(s10, 11, 2);
    assert(stages_run(p, 4, 0, 12) == s11);
    lemma_idle_stages_16(p, 12, 12);
    lemma_cosine_stage_12(s11, v);
    let s12 = stage_run(s11, 12, 2);
    assert(stages_run(p, 4, 0, 13) == s12);
    lemma_idle_stages_16(p, 13, 15);
    lemma_cosine_stage_15(s12, v);
    let s15 = stage_run(s12, 15, 2);
    assert(stages_run(p, 4, 0, 16) == s15);
    lemma_idle_stages_16(p, 16, 16);
    lemma_cosine_stage_16(s15, v);
    let s16 = stage_run(s15, 16, 1);
    assert(stages_run(p, 4, 0, 17) == s16);
    lemma_idle_stages_16(p, 17, 17);
    lemma_cosine_stage_17(s16, v);
    let s17 = stage_run(s16, 17, 4);
    assert(stages_run(p, 4, 0, 18) == s17);
    lemma_idle_stages_16(p, 18, 20);
    lemma_cosine_stage_20(s17, v);
    let s20 = stage_run(s17, 20, 4);
    assert(stages_run(p, 4, 0, 21) == s20);
    lemma_idle_stages_16(p, 21, 21);
    lemma_cosine_stage_21(s20, v);
    let s21 = stage_run(s20, 21, 2);
    assert(stages_run(p, 4, 0, 22) == s21);
    lemma_idle_stages_16(p, 22, 24);
    lemma_cosine_stage_24(s21, v);
    let s24 = stage_run(s21, 24, 8);
    assert(stages_run(p, 4, 0, 25) == s24);
    lemma_idle_stages_16(p, 25, 30);
}

proof fn lemma_near_cosines_16(v: int)
    requires
        -4096 <= v <= 4096,
    ensures
        ({
            let m = odd16(v);
            &&& -20480 <= 4096 * (m[0]) - 4076 * v <= 20480
            &&& -20480 <= 4096 * (m[2]) - 3920 * v <= 20480
            &&& -20480 <= 4096 * (m[4]) - 3612 * v <= 20480
            &&& -20480 <= 4096 * (m[6]) - 3166 * v <= 20480
            &&& -20480 <= 4096 * (m[7]) - 2598 * v <= 20480
            &&& -20480 <= 4096 * (m[5]) - 1931 * v <= 20480
            &&& -20480 <= 4096 * (m[3]) - 1189 * v <= 20480
            &&& -20480 <= 4096 * (m[1]) - 401 * v <= 20480
            &&& -20480 <= 4096 * (-m[1]) - (-401) * v <= 20480
            &&& -20480 <= 4096 * (-m[3]) - (-1189) * v <= 20480
            &&& -20480 <= 4096 * (-m[5]) - (-1931) * v <= 20480
            &&& -20480 <= 4096 * (-m[7]) - (-2598) * v <= 20480
            &&& -20480 <= 4096 * (-m[6]) - (-3166) * v <= 20480
            &&& -20480 <= 4096 * (-m[4]) - (-3612) * v <= 20480
            &&& -20480 <= 4096 * (-m[2]) - (-3920) * v <= 20480
            &&& -20480 <= 4096 * (-m[0]) - (-4076) * v <= 20480
        }),
{
    reveal(odd16);
    reveal(r12);
}

proof fn lemma_falling(i: int)
    requires
        0 <= i < 16,
    ensures
        i == 0 ==> cos_of(4 * (2 * i + 1)) == 4076,
        i == 1 ==> cos_of(4 * (2 * i + 1)) == 3920,
        i == 2 ==> cos_of(4 * (2 * i + 1)) == 3612,
        i == 3 ==> cos_of(4 * (2 * i + 1)) == 3166,
        i == 4 ==> cos_of(4 * (2 * i + 1)) == 2598,
        i == 5 ==> cos_of(4 * (2 * i + 1)) == 1931,
        i == 6 ==> cos_of(4 * (2 * i + 1)) == 1189,
        i == 7 ==> cos_of(4 * (2 * i + 1)) == 401,
        i == 8 ==> cos_of(4 * (2 * i + 1)) == -401,
        i == 9 ==> cos_of(4 * (2 * i + 1)) == -1189,
        i == 10 ==> cos_of(4 * (2 * i + 1)) == -1931,
        i == 11 ==> cos_of(4 * (2 * i + 1)) == -2598,
        i == 12 ==> cos_of(4 * (2 * i + 1)) == -3166,
        i == 13 ==> cos_of(4 * (2 * i + 1)) == -3612,
        i == 14 ==> cos_of(4 * (2 * i + 1)) == -3920,
        i == 15 ==> cos_of(4 * (2 * i + 1)) == -4076,
{
    reveal(cos_of);
    assert(COS128_LOOKUP[4] == 4076 && COS128_LOOKUP[12] == 3920 && COS128_LOOKUP[20] == 3612
        && COS128_LOOKUP[28] == 3166 && COS128_LOOKUP[36] == 2598 && COS128_LOOKUP[44] == 1931
        && COS128_LOOKUP[52] == 1189 && COS128_LOOKUP[60] == 401);
}

/// A second coefficient of a sixteen point cosine transform gives a wave that falls through
/// half a turn, within five.
pub proof fn law_second_cosine_16(t: Seq<i64>, v: int, i: int)
    requires
        t.len() == 16,
        -4096 <= v <= 4096,
        forall|k: int| 0 <= k < 16 ==> #[trigger] t[k] == if k == 1 {
            v
        } else {
            0
        },
        0 <= i < 16,
    ensures
        -20480 <= 4096 * dct_of(t, 4)[i] - v * cos_of(4 * (2 * i + 1)) <= 20480,
{
    lemma_second_16(t, v);
    lemma_near_cosines_16(v);
    lemma_falling(i);
    let w = cos_of(4 * (2 * i + 1));
    assert(w == 4076 ==> v * w == 4076 * v);
    assert(w == 3920 ==> v * w == 3920 * v);
    assert(w == 3612 ==> v * w == 3612 * v);
    assert(w == 3166 ==> v * w == 3166 * v);
    assert(w == 2598 ==> v * w == 2598 * v);
    assert(w == 1931 ==> v * w == 1931 * v);
    assert(w == 1189 ==> v * w == 1189 * v);
    assert(w == 401 ==> v * w == 401 * v);
    assert(w == -401 ==> v * w == -401 * v);
    assert(w == -1189 ==> v * w == -1189 * v);
    assert(w == -1931 ==> v * w == -1931 * v);
    assert(w == -2598 ==> v * w == -2598 * v);
    assert(w == -3166 ==> v * w == -3166 * v);
    assert(w == -3612 ==> v * w == -3612 * v);
    assert(w == -3920 ==> v * w == -3920 * v);
    assert(w == -4076 ==> v * w == -4076 * v);
}

} // verus!
