//! What a transform type does along the rows and down the columns.
use crate::bits::{lemma_pow2i_mono, lemma_pow2i_values, pow2i};
use crate::coeff_tables::{
    ADST_DCT, DCT_ADST, DCT_DCT, H_ADST, H_DCT, IDTX, TRANSFORM_ROW_SHIFT, TX_4X4, TX_HEIGHT,
    TX_WIDTH, V_ADST, V_DCT,
};
use crate::flat::{
    law_dct_flat, lemma_round_zero, lemma_row_level, lemma_sides, lemma_stage_still, level,
    spread_of,
};
use crate::math::round_shift;
use crate::transform::{
    adst4_of, adst_in, adst_of, adst_source, axis_of, coded_area, col_axis, col_points, identity_at,
    identity_of, lemma_step_in_range, log_h, log_w, mid_point, residual_at, row_axis, row_input,
    row_points, sat16, stage_len, stages_run, step_of, transform_at, AxisTransform,
};
use vstd::prelude::*;

verus! {

// ---------------------------------------------------------------------------
// Points that are all zero
// ---------------------------------------------------------------------------

/// All points are zero.
pub open spec fn zero(t: Seq<i64>) -> bool {
    forall|i: int| 0 <= i < t.len() ==> #[trigger] t[i] == 0
}

proof fn lemma_stages_still(t: Seq<i64>, n: int, from: int, to: int)
    requires
        zero(t),
        30 <= from <= to <= 42,
        2 <= n <= 6,
        from >= 35 ==> 16 <= t.len(),
        to <= 35 || from >= 35,
        8 <= t.len(),
    ensures
        stages_run(t, n, from, to) == t,
    decreases to - from,
{
    if from < to {
        lemma_stages_still(t, n, from, to - 1);
        let g = to - 1;
        assert forall|j: int| 0 <= j < stage_len(g, n) implies 0 <= (#[trigger] step_of(g, j)).a
            < t.len() && 0 <= step_of(g, j).b < t.len() by {
            lemma_step_in_range(g, n, j);
        }
        lemma_stage_still(t, g, stage_len(g, n), 0, 0);
    }
}

proof fn lemma_axis_zero(t: Seq<i64>, kind: AxisTransform, n: int)
    requires
        zero(t),
        2 <= n <= 6,
        t.len() == pow2i(n),
    ensures
        zero(axis_of(t, kind, n)),
        axis_of(t, kind, n).len() == t.len(),
{
    lemma_pow2i_values();
    lemma_pow2i_mono(2, n);
    lemma_round_zero(12);
    match kind {
        AxisTransform::Dct => {
            law_dct_flat(t, n, 0);
            assert(spread_of(0) == 0);
        },
        AxisTransform::Adst => {
            reveal(adst_of);
            if n == 2 {
                reveal(adst4_of);
                assert(t[0] == 0 && t[1] == 0 && t[2] == 0 && t[3] == 0);
            } else {
                let len: int = if n == 3 {
                    8
                } else {
                    16
                };
                if n > 3 {
                    lemma_pow2i_mono(4, n);
                }
                let p = adst_in(t, len);
                assert(zero(p));
                if n == 3 {
                    lemma_stages_still(p, 3, 30, 35);
                } else {
                    lemma_stages_still(p, 4, 35, 42);
                }
                assert forall|i: int| 0 <= i < len implies 0 <= #[trigger] adst_source(i, len)
                    < len by {}
            }
        },
        AxisTransform::Identity => {
            reveal(identity_of);
            assert(identity_at(0, n) == 0);
        },
    }
}

// ---------------------------------------------------------------------------
// One first coefficient
// ---------------------------------------------------------------------------

/// A block has nothing but a first coefficient.
pub open spec fn only_first(dq: Seq<i32>, tx: int) -> bool {
    &&& dq.len() >= coded_area(tx)
    &&& -65536 <= dq[0] <= 65536
    &&& forall|k: int| 1 <= k < dq.len() ==> #[trigger] dq[k] == 0
}

proof fn lemma_other_rows(dq: Seq<i32>, tx_type: int, tx: int, i: int, j: int)
    requires
        0 <= tx < 19,
        only_first(dq, tx),
        0 < i < TX_HEIGHT[tx],
        0 <= j < TX_WIDTH[tx],
    ensures
        mid_point(dq, tx_type, tx, i, j) == 0,
{
    lemma_sides(tx);
    lemma_row_level(dq, tx, i);
    let t = row_points(dq, tx, i);
    assert(zero(t));
    lemma_axis_zero(t, row_axis(tx_type), log_w(tx));
    lemma_round_zero(TRANSFORM_ROW_SHIFT[tx] as int);
}

proof fn lemma_first_column(dq: Seq<i32>, tx_type: int, tx: int, j: int)
    requires
        0 <= tx < 19,
        only_first(dq, tx),
        0 <= j < TX_WIDTH[tx],
    ensures
        ({
            let p = col_points(dq, tx_type, tx, j);
            &&& level(p, 1, p[0])
            &&& p.len() == pow2i(log_h(tx))
            &&& -32768 <= p[0] <= 32767
            &&& p[0] == mid_point(dq, tx_type, tx, 0, j)
        }),
{
    lemma_sides(tx);
    let p = col_points(dq, tx_type, tx, j);
    assert forall|i: int| 0 <= i < p.len() implies #[trigger] p[i] == if i < 1 {
        p[0]
    } else {
        0
    } by {
        if i > 0 {
            lemma_other_rows(dq, tx_type, tx, i, j);
        }
    }
}

/// Types with a cosine transform along the rows spread a first coefficient evenly along
/// every row: all columns of the residual are equal.
pub proof fn law_rows_even(dq: Seq<i32>, tx_type: int, tx: int, i: int, j: int)
    requires
        tx_type == DCT_DCT || tx_type == ADST_DCT || tx_type == H_DCT,
        0 <= tx < 19,
        only_first(dq, tx),
        0 <= i < TX_HEIGHT[tx],
        0 <= j < TX_WIDTH[tx],
    ensures
        residual_at(dq, tx_type, tx, i, j) == residual_at(dq, tx_type, tx, i, 0),
{
    reveal(residual_at);
    lemma_sides(tx);
    lemma_pow2i_values();
    lemma_row_level(dq, tx, 0);
    law_dct_flat(row_points(dq, tx, 0), log_w(tx), row_input(dq, tx, 0, 0) as i64);
    lemma_first_column(dq, tx_type, tx, j);
    lemma_first_column(dq, tx_type, tx, 0);
    assert(mid_point(dq, tx_type, tx, 0, j) == mid_point(dq, tx_type, tx, 0, 0));
    assert(col_points(dq, tx_type, tx, j) =~= col_points(dq, tx_type, tx, 0));
}

/// Types with a cosine transform down the columns spread a first coefficient evenly down
/// every column: all rows of the residual are equal.
pub proof fn law_columns_even(dq: Seq<i32>, tx_type: int, tx: int, i: int, j: int)
    requires
        tx_type == DCT_DCT || tx_type == DCT_ADST || tx_type == V_DCT,
        0 <= tx < 19,
        only_first(dq, tx),
        0 <= i < TX_HEIGHT[tx],
        0 <= j < TX_WIDTH[tx],
    ensures
        residual_at(dq, tx_type, tx, i, j) == residual_at(dq, tx_type, tx, 0, j),
{
    reveal(residual_at);
    lemma_sides(tx);
    lemma_first_column(dq, tx_type, tx, j);
    let p = col_points(dq, tx_type, tx, j);
    law_dct_flat(p, log_h(tx), p[0]);
}

/// Types without a transform down the columns leave a first coefficient in the first row.
pub proof fn law_first_row_only(dq: Seq<i32>, tx_type: int, tx: int, i: int, j: int)
    requires
        tx_type == H_DCT || tx_type == H_ADST || tx_type == IDTX,
        0 <= tx < 19,
        only_first(dq, tx),
        0 < i < TX_HEIGHT[tx],
        0 <= j < TX_WIDTH[tx],
    ensures
        residual_at(dq, tx_type, tx, i, j) == 0,
{
    reveal(residual_at);
    reveal(identity_of);
    lemma_sides(tx);
    lemma_round_zero(12);
    lemma_round_zero(4);
    lemma_first_column(dq, tx_type, tx, j);
    assert(identity_at(0, log_h(tx)) == 0);
}

/// Types without a transform along the rows leave a first coefficient in the first column.
pub proof fn law_first_column_only(dq: Seq<i32>, tx_type: int, tx: int, i: int, j: int)
    requires
        tx_type == V_DCT || tx_type == V_ADST || tx_type == IDTX,
        0 <= tx < 19,
        only_first(dq, tx),
        0 <= i < TX_HEIGHT[tx],
        0 < j < TX_WIDTH[tx],
    ensures
        residual_at(dq, tx_type, tx, i, j) == 0,
{
    reveal(residual_at);
    reveal(identity_of);
    lemma_sides(tx);
    lemma_round_zero(12);
    lemma_round_zero(4);
    lemma_round_zero(TRANSFORM_ROW_SHIFT[tx] as int);
    lemma_row_level(dq, tx, 0);
    lemma_first_column(dq, tx_type, tx, j);
    assert(identity_at(0, log_w(tx)) == 0);
    let p = col_points(dq, tx_type, tx, j);
    assert(row_points(dq, tx, 0)[j] == 0);
    assert(p[0] == 0);
    assert(zero(p));
    lemma_axis_zero(p, col_axis(tx_type), log_h(tx));
}

/// Without coefficients there is no residual, whatever the type.
pub proof fn law_no_coefficients(dq: Seq<i32>, tx_type: int, tx: int, i: int, j: int)
    requires
        0 <= tx < 19,
        only_first(dq, tx),
        dq[0] == 0,
        0 <= i < TX_HEIGHT[tx],
        0 <= j < TX_WIDTH[tx],
    ensures
        residual_at(dq, tx_type, tx, i, j) == 0,
{
    reveal(residual_at);
    lemma_sides(tx);
    lemma_round_zero(12);
    lemma_round_zero(4);
    lemma_round_zero(TRANSFORM_ROW_SHIFT[tx] as int);
    lemma_row_level(dq, tx, 0);
    lemma_first_column(dq, tx_type, tx, j);
    let t = row_points(dq, tx, 0);
    assert(row_input(dq, tx, 0, 0) == 0);
    assert(zero(t));
    lemma_axis_zero(t, row_axis(tx_type), log_w(tx));
    let p = col_points(dq, tx_type, tx, j);
    assert(zero(p));
    lemma_axis_zero(p, col_axis(tx_type), log_h(tx));
}

// ---------------------------------------------------------------------------
// The sine transform rises
// ---------------------------------------------------------------------------

/// The four point sine transform of a first point that is positive rises from a third of it
/// to nearly all of it; that of a negative one falls likewise.
pub proof fn law_sine_rises(t: Seq<i64>, v: i64)
    requires
        t.len() == 4,
        level(t, 1, v),
        -65536 <= v <= 65536,
    ensures
        ({
            let r = adst_of(t, 2);
            &&& r.len() == 4
            &&& v >= 0 ==> 0 <= r[0] <= r[1] <= r[2] <= r[3] <= v
            &&& v <= 0 ==> 0 >= r[0] >= r[1] >= r[2] >= r[3] >= v
            &&& v >= 9 ==> r[0] < r[1] < r[2] < r[3]
            &&& v <= -9 ==> r[0] > r[1] > r[2] > r[3]
            &&& v >= 0 ==> v - v / 30 - 4 <= 3 * r[0] <= v + 2
        }),
{
    reveal(adst_of);
    reveal(adst4_of);
    lemma_pow2i_values();
    assert(t[0] == v && t[1] == 0 && t[2] == 0 && t[3] == 0);
}

/// In a four by four block, a positive first coefficient of a type with a sine transform
/// down the columns and a cosine transform along the rows gives rows that do not fall
/// downward.
pub proof fn law_sine_down(dq: Seq<i32>, i: int, j: int)
    requires
        only_first(dq, TX_4X4 as int),
        dq[0] >= 0,
        0 <= i < 3,
        0 <= j < 4,
    ensures
        0 <= residual_at(dq, ADST_DCT as int, TX_4X4 as int, i, j) <= residual_at(
            dq,
            ADST_DCT as int,
            TX_4X4 as int,
            i + 1,
            j,
        ),
        dq[0] >= 1024 ==> residual_at(dq, ADST_DCT as int, TX_4X4 as int, i, j) < residual_at(
            dq,
            ADST_DCT as int,
            TX_4X4 as int,
            i + 1,
            j,
        ),
{
    reveal(residual_at);
    let d = ADST_DCT as int;
    let tx = TX_4X4 as int;
    lemma_sides(tx);
    lemma_pow2i_values();
    lemma_row_level(dq, tx, 0);
    let v = row_input(dq, tx, 0, 0);
    assert(v == dq[0]) by {
        assert(0 * 4 + 0 == 0);
    }
    law_dct_flat(row_points(dq, tx, 0), 2, v as i64);
    lemma_first_column(dq, d, tx, j);
    let p = col_points(dq, d, tx, j);
    assert(p[0] == sat16(round_shift(spread_of(v), 0)));
    law_sine_rises(p, p[0]);
    lemma_sine_steps(p, p[0]);
}

proof fn lemma_sine_steps(t: Seq<i64>, v: i64)
    requires
        t.len() == 4,
        level(t, 1, v),
        -65536 <= v <= 65536,
    ensures
        v >= 720 ==> {
            let r = adst_of(t, 2);
            &&& r[0] + 16 <= r[1]
            &&& r[1] + 16 <= r[2]
            &&& r[2] + 16 <= r[3]
        },
{
    reveal(adst_of);
    reveal(adst4_of);
    lemma_pow2i_values();
    assert(t[0] == v && t[1] == 0 && t[2] == 0 && t[3] == 0);
}

/// In a four by four block, a positive first coefficient of a type with a sine transform
/// along the rows and a cosine transform down the columns gives columns that do not fall
/// rightward.
pub proof fn law_sine_across(dq: Seq<i32>, i: int, j: int)
    requires
        only_first(dq, TX_4X4 as int),
        dq[0] >= 0,
        0 <= i < 4,
        0 <= j < 3,
    ensures
        0 <= residual_at(dq, DCT_ADST as int, TX_4X4 as int, i, j) <= residual_at(
            dq,
            DCT_ADST as int,
            TX_4X4 as int,
            i,
            j + 1,
        ),
        1024 <= dq[0] <= 32767 ==> residual_at(dq, DCT_ADST as int, TX_4X4 as int, i, j)
            < residual_at(dq, DCT_ADST as int, TX_4X4 as int, i, j + 1),
{
    reveal(residual_at);
    let d = DCT_ADST as int;
    let tx = TX_4X4 as int;
    lemma_sides(tx);
    lemma_pow2i_values();
    lemma_row_level(dq, tx, 0);
    let v = row_input(dq, tx, 0, 0);
    assert(v == dq[0]) by {
        assert(0 * 4 + 0 == 0);
    }
    let t = row_points(dq, tx, 0);
    law_sine_rises(t, v as i64);
    lemma_sine_gaps(t, v as i64);
    lemma_first_column(dq, d, tx, j);
    lemma_first_column(dq, d, tx, j + 1);
    let p = col_points(dq, d, tx, j);
    let q = col_points(dq, d, tx, j + 1);
    law_dct_flat(p, 2, p[0]);
    law_dct_flat(q, 2, q[0]);
    assert(p[0] <= q[0]);
}

proof fn lemma_sine_gaps(t: Seq<i64>, v: i64)
    requires
        t.len() == 4,
        level(t, 1, v),
        -65536 <= v <= 65536,
    ensures
        v >= 1024 ==> {
            let r = adst_of(t, 2);
            &&& r[0] + 24 <= r[1]
            &&& r[1] + 24 <= r[2]
            &&& r[2] + 24 <= r[3]
        },
{
    reveal(adst_of);
    reveal(adst4_of);
    lemma_pow2i_values();
    assert(t[0] == v && t[1] == 0 && t[2] == 0 && t[3] == 0);
}

// ---------------------------------------------------------------------------
// No transform
// ---------------------------------------------------------------------------

/// Scaling without a transform keeps order and sign. It doubles at eight points and
/// quadruples from 32 on; at four points it is half of what it is at sixteen, which is seven
/// fifths and a seventieth of the number.
pub proof fn law_scales(v: int, u: int, n: int)
    requires
        v <= u,
        2 <= n <= 6,
        -65536 <= v,
        u <= 65536,
    ensures
        identity_at(v, n) <= identity_at(u, n),
        identity_at(0, n) == 0,
        identity_at(v, 3) == v + v,
        identity_at(v, 5) == 4 * v,
        -1 <= identity_at(v, 4) - 2 * identity_at(v, 2) <= 1,
        v >= 0 ==> -4 <= 5 * identity_at(v, 2) - 7 * v - v / 14 <= 12,
{
    lemma_pow2i_values();
    lemma_round_zero(12);
}

/// Without a transform every point stays in its place: it depends on no other point.
pub proof fn law_points_stay(t: Seq<i64>, u: Seq<i64>, n: int, i: int)
    requires
        t.len() == u.len(),
        0 <= i < t.len(),
        t[i] == u[i],
    ensures
        identity_of(t, n)[i] == identity_of(u, n)[i],
{
    reveal(identity_of);
}

// ---------------------------------------------------------------------------
// Without loss
// ---------------------------------------------------------------------------

/// A lossless block of side four has one residual, whatever its type. Its first coefficient
/// goes in equal parts to all rows and columns but the third.
pub proof fn law_lossless_first(dq: Seq<i32>, tx_type: int, other: int, i: int, j: int)
    requires
        dq.len() >= 16,
        forall|k: int| 1 <= k < 16 ==> #[trigger] dq[k] == 0,
        0 <= i < 4,
        0 <= j < 4,
    ensures
        transform_at(dq, tx_type, TX_4X4 as int, true, i, j) == transform_at(
            dq,
            other,
            TX_4X4 as int,
            true,
            i,
            j,
        ),
        transform_at(dq, tx_type, TX_4X4 as int, true, i, j) == if i == 2 || j == 2 {
            0
        } else {
            (dq[0] + 2) / 4
        },
{
    assert(dq[1] == 0 && dq[2] == 0 && dq[3] == 0 && dq[4] == 0 && dq[5] == 0 && dq[6] == 0 && dq[7]
        == 0 && dq[8] == 0 && dq[9] == 0 && dq[10] == 0 && dq[11] == 0 && dq[12] == 0 && dq[13] == 0
        && dq[14] == 0 && dq[15] == 0);
}

} // verus!
