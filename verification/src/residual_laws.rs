//! From levels to samples.
use crate::coeff_tables::{TX_HEIGHT, TX_WIDTH};
use crate::quant::{denom_of, dequant_at, dequantized, step_size, AC_QLOOKUP_8, DC_QLOOKUP_8};
use crate::tx_block::{
    blitted, no_residual, reconstructed, residual_read, tx_done, tx_place, tx_pred, Place, TxModel,
    TxState,
};
use vstd::prelude::*;

verus! {

// ---------------------------------------------------------------------------
// Dequantizing
// ---------------------------------------------------------------------------

/// A larger index has a larger step, and the first coefficient never a larger step than the
/// others.
pub proof fn law_steps_grow(a: int, b: int)
    requires
        0 <= a < b < 256,
    ensures
        step_size(a, true) <= step_size(b, true),
        step_size(a, false) < step_size(b, false),
        step_size(a, true) <= step_size(a, false),
    decreases b - a,
{
    reveal(step_size);
    lemma_dc_step(a);
    lemma_ac_step(a);
    lemma_steps_compare(a);
    if a + 1 < b {
        law_steps_grow(a + 1, b);
    }
}

proof fn lemma_dc_step(a: int)
    requires
        0 <= a < 255,
    ensures
        DC_QLOOKUP_8[a] <= DC_QLOOKUP_8[a + 1],
{
}

proof fn lemma_ac_step(a: int)
    requires
        0 <= a < 255,
    ensures
        AC_QLOOKUP_8[a] < AC_QLOOKUP_8[a + 1],
{
}

proof fn lemma_steps_compare(a: int)
    requires
        0 <= a < 256,
    ensures
        DC_QLOOKUP_8[a] <= AC_QLOOKUP_8[a],
{
}

/// A level becomes its product with the step, where that fits: the first coefficient with
/// the step of the first, the others with the other. Squares of 32 take half of it, squares
/// of 64 a quarter, cut toward zero.
pub proof fn law_dequantized(quant: Seq<i32>, tx_size: int, qindex: int, i: int)
    requires
        0 <= i < quant.len(),
        0 <= qindex < 256,
        -32768 <= quant[i] * step_size(qindex, i == 0) <= 32767,
    ensures
        ({
            let p = quant[i] * step_size(qindex, i == 0);
            let r = dequantized(quant, tx_size, qindex)[i];
            &&& denom_of(tx_size) == 1 ==> r == p
            &&& denom_of(tx_size) == 2 ==> (p >= 0 ==> 0 <= p - 2 * r <= 1)
                && (p <= 0 ==> 0 <= 2 * r
                - p <= 1)
            &&& denom_of(tx_size) == 4 ==> (p >= 0 ==> 0 <= p - 4 * r <= 3)
                && (p <= 0 ==> 0 <= 4 * r
                - p <= 3)
        }),
{
}

/// Dequantizing keeps the sign, and zero stays zero. Opposite levels have opposite
/// coefficients, but for the least one.
pub proof fn law_dequantized_sign(level: int, step: int, denom: int)
    requires
        1 <= step,
        denom == 1 || denom == 2 || denom == 4,
    ensures
        level >= 0 ==> dequant_at(level, step, denom) >= 0,
        level <= 0 ==> dequant_at(level, step, denom) <= 0,
        dequant_at(level, step, denom) > -32768 && level < 0 ==> dequant_at(-level, step, denom)
            == -dequant_at(level, step, denom),
{
    assert((level >= 0 ==> level * step >= 0) && (level <= 0 ==> level * step <= 0) && (-level)
        * step == -(level * step)) by (nonlinear_arith)
        requires
            1 <= step,
    ;
    assert(level < 0 ==> level * step < 0) by (nonlinear_arith)
        requires
            1 <= step,
    ;
}

// ---------------------------------------------------------------------------
// Adding the residual
// ---------------------------------------------------------------------------

/// A sample is the prediction plus the residual, as near as samples come.
pub proof fn law_residual_is_added(pred: Seq<i32>, res: Seq<i32>, p: int)
    requires
        0 <= p < pred.len(),
    ensures
        ({
            let r = reconstructed(pred, res)[p];
            &&& 0 <= pred[p] + res[p] <= 255 ==> r == pred[p] + res[p]
            &&& pred[p] + res[p] < 0 ==> r == 0
            &&& pred[p] + res[p] > 255 ==> r == 255
        }),
{
}

// ---------------------------------------------------------------------------
// Writing a block
// ---------------------------------------------------------------------------

/// A block that is written stands in the plane at its place, row by row, as far as the
/// plane goes.
pub proof fn law_block_stands(plane: Seq<u8>, a: Place, vals: Seq<u8>, y: int, x: int)
    requires
        0 <= a.x,
        0 <= a.y,
        a.w <= a.stride,
        1 <= a.stride,
        0 <= y < a.bh,
        0 <= x < a.bw,
        a.y + y < a.h,
        a.x + x < a.w,
        (a.y + y) * a.stride + a.x + x < plane.len(),
    ensures
        blitted(plane, a, vals)[(a.y + y) * a.stride + (a.x + x)] == vals[y * a.bw + x],
{
    let p = (a.y + y) * a.stride + (a.x + x);
    vstd::arithmetic::div_mod::lemma_fundamental_div_mod_converse(
        p,
        a.stride,
        a.y + y,
        a.x + x,
    );
    assert(p / a.stride == a.y + y && p % a.stride == a.x + x);
    assert(0 <= p) by (nonlinear_arith)
        requires
            p == (a.y + y) * a.stride + (a.x + x),
            0 <= a.y + y,
            0 <= a.x + x,
            1 <= a.stride,
    ;
}

/// Outside a block that is written the plane stays as it was.
pub proof fn law_rest_stays(plane: Seq<u8>, a: Place, vals: Seq<u8>, y: int, x: int)
    requires
        0 <= x < a.stride,
        0 <= y,
        y * a.stride + x < plane.len(),
        y < a.y || y >= a.y + a.bh || x < a.x || x >= a.x + a.bw || x >= a.w || y >= a.h,
    ensures
        blitted(plane, a, vals)[y * a.stride + x] == plane[y * a.stride + x],
{
    let p = y * a.stride + x;
    vstd::arithmetic::div_mod::lemma_fundamental_div_mod_converse(p, a.stride, y, x);
    assert(0 <= p) by (nonlinear_arith)
        requires
            p == y * a.stride + x,
            0 <= y,
            0 <= x < a.stride,
    ;
}

/// A block that is skipped reads nothing, and its samples are the prediction.
pub proof fn law_skipped_block(st: TxState, m: TxModel)
    requires
        m.skip,
        0 <= m.tx < 19,
        tx_pred(st.plane, m).len() == TX_WIDTH[m.tx] * TX_HEIGHT[m.tx],
    ensures
        ({
            let (after, e) = tx_done(st, m);
            let pred = tx_pred(st.plane, m);
            &&& e is None
            &&& after.c == st.c
            &&& after.ctx == st.ctx
            &&& (forall|i: int| 0 <= i < pred.len() ==> 0 <= #[trigger] pred[i] <= 255)
                ==> after.plane == blitted(
                st.plane,
                tx_place(m),
                Seq::new(pred.len(), |i: int| pred[i] as u8),
            )
        }),
{
    reveal(tx_done);
    reveal(residual_read);
    let pred = tx_pred(st.plane, m);
    if forall|i: int| 0 <= i < pred.len() ==> 0 <= #[trigger] pred[i] <= 255 {
        assert(reconstructed(pred, no_residual(m.tx)) =~= Seq::new(
            pred.len(),
            |i: int| pred[i] as u8,
        ));
    }
}

} // verus!
