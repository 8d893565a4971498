//! Blocks with nothing but a first coefficient have a flat residual.
use crate::bits::{lemma_pow2i_mono, lemma_pow2i_values, pow2i};
use crate::coeff_tables::{ADJUSTED_TX_SIZE, DCT_DCT, TRANSFORM_ROW_SHIFT, TX_HEIGHT, TX_WIDTH};
use crate::math::round_shift;
use crate::transform::{
    brev_of, coded_area, col_points, cos_of, dct_of, dct_permuted, had, log_h, log_w,
    lemma_brev_range, mid_point, residual_at, row_input, row_points, sat16, sin_of, stage_len,
    stage_run, stages_run, step_apply, step_of, StepModel, COS128_LOOKUP,
};
use vstd::prelude::*;

verus! {

// ---------------------------------------------------------------------------
// Reversed bits
// ---------------------------------------------------------------------------

pub proof fn lemma_brev_low(n: int, x: int)
    requires
        1 <= n,
        0 <= x < pow2i(n),
    ensures
        brev_of(n, x) == 2 * brev_of(n - 1, x % pow2i(n - 1)) + x / pow2i(n - 1),
    decreases n,
{
    lemma_pow2i_mono(0, n - 1);
    let h = pow2i(n - 1);
    if n == 1 {
        assert(pow2i(1) == 2 * pow2i(0));
        assert(pow2i(0) == 1);
        assert(brev_of(0, x / 2) == 0);
        assert((x % 2) * pow2i(0) == x % 2) by (nonlinear_arith)
            requires
                pow2i(0) == 1,
        ;
        assert(x / 1 == x);
    } else {
        lemma_pow2i_mono(0, n - 2);
        let q = pow2i(n - 2);
        assert(h == 2 * q);
        assert(0 <= x / 2 < h);
        lemma_brev_low(n - 1, x / 2);
        let y = x % h;
        let top = x / h;
        assert(x == h * top + y && 0 <= y < h) by {
            vstd::arithmetic::div_mod::lemma_fundamental_div_mod(x, h);
            vstd::arithmetic::div_mod::lemma_mod_bound(x, h);
        }
        assert(0 <= top <= 1) by (nonlinear_arith)
            requires
                x == h * top + y,
                0 <= y < h,
                0 <= x < 2 * h,
        ;
        assert(x % 2 == y % 2 && x / 2 == q * top + y / 2) by {
            if top == 0 {
                assert(h * top == 0 && q * top == 0) by (nonlinear_arith)
                    requires
                        top == 0,
                ;
            } else {
                assert(h * top == h && q * top == q) by (nonlinear_arith)
                    requires
                        top == 1,
                ;
            }
        }
        assert((x / 2) / q == top && (x / 2) % q == y / 2) by {
            assert(0 <= y / 2 < q);
            vstd::arithmetic::div_mod::lemma_fundamental_div_mod_converse(x / 2, q, top, y / 2);
        }
        let b = x % 2;
        assert(brev_of(n - 1, y) == b * q + brev_of(n - 2, y / 2));
        assert(brev_of(n, x) == b * h + brev_of(n - 1, x / 2));
        assert(b * h == 2 * (b * q)) by (nonlinear_arith)
            requires
                h == 2 * q,
        ;
    }
}

/// Reversing bits twice gives them back, so that no two numbers have the same reversed
/// bits.
pub proof fn law_brev_twice(n: int, x: int)
    requires
        0 <= n,
        0 <= x < pow2i(n),
    ensures
        brev_of(n, brev_of(n, x)) == x,
        0 <= brev_of(n, x) < pow2i(n),
    decreases n,
{
    lemma_brev_range(n, x);
    if n > 0 {
        lemma_pow2i_mono(0, n - 1);
        let h = pow2i(n - 1);
        lemma_brev_low(n, x);
        let y = x % h;
        let top = x / h;
        assert(x == h * top + y && 0 <= y < h) by {
            vstd::arithmetic::div_mod::lemma_fundamental_div_mod(x, h);
            vstd::arithmetic::div_mod::lemma_mod_bound(x, h);
        }
        assert(0 <= top <= 1) by (nonlinear_arith)
            requires
                x == h * top + y,
                0 <= y < h,
                0 <= x < 2 * h,
        ;
        law_brev_twice(n - 1, y);
        let r = brev_of(n, x);
        assert(r % 2 == top && r / 2 == brev_of(n - 1, y));
        assert(top * h == h * top) by (nonlinear_arith);
    }
}

// ---------------------------------------------------------------------------
// One dimension
// ---------------------------------------------------------------------------

/// The first `m` points are `c`, the others zero.
pub open spec fn level(t: Seq<i64>, m: int, c: i64) -> bool {
    forall|i: int|
        0 <= i < t.len() ==> #[trigger] t[i] == if i < m {
            c
        } else {
            0
        }
}

pub proof fn lemma_round_zero(n: int)
    requires
        0 <= n,
    ensures
        round_shift(0, n) == 0,
{
    lemma_pow2i_mono(0, n);
    if n > 0 {
        lemma_pow2i_mono(0, n - 1);
        assert(pow2i(n) == 2 * pow2i(n - 1));
        vstd::arithmetic::div_mod::lemma_basic_div(pow2i(n - 1), pow2i(n));
    }
}

pub proof fn lemma_step_still(t: Seq<i64>, s: StepModel)
    requires
        0 <= s.a < t.len(),
        0 <= s.b < t.len(),
        t[s.a] == 0,
        t[s.b] == 0,
    ensures
        step_apply(t, s) == t,
{
    reveal(step_apply);
    lemma_round_zero(12);
    let c = cos_of(s.angle);
    let d = sin_of(s.angle);
    assert(0 * c - 0 * d == 0 && 0 * d + 0 * c == 0) by (nonlinear_arith);
    assert(step_apply(t, s) =~= t);
}

pub proof fn lemma_stage_still(t: Seq<i64>, g: int, k: int, m: int, c: i64)
    requires
        0 <= k,
        level(t, m, c),
        forall|j: int|
            0 <= j < k ==> m <= (#[trigger] step_of(g, j)).a < t.len() && m <= step_of(g, j).b
                < t.len(),
        0 <= m,
    ensures
        stage_run(t, g, k) == t,
    decreases k,
{
    if k > 0 {
        lemma_stage_still(t, g, k - 1, m, c);
        let s = step_of(g, k - 1);
        assert(m <= s.a < t.len());
        lemma_step_still(t, s);
    }
}

proof fn lemma_stage_grows(t: Seq<i64>, g: int, k: int, m: int, c: i64)
    requires
        0 <= k <= m,
        1 <= m,
        2 * m <= t.len(),
        level(t, m, c),
        forall|j: int| 0 <= j < m ==> #[trigger] step_of(g, j) == had(j, 2 * m - 1 - j, false),
    ensures
        stage_run(t, g, k).len() == t.len(),
        forall|i: int|
            0 <= i < t.len() ==> #[trigger] stage_run(t, g, k)[i] == if i < k || (2 * m - 1 - k < i
                && i < 2 * m) {
                sat16(c as int) as i64
            } else if i < m {
                c
            } else {
                0
            },
    decreases k,
{
    if k > 0 {
        lemma_stage_grows(t, g, k - 1, m, c);
        let p = stage_run(t, g, k - 1);
        let s = step_of(g, k - 1);
        assert(s == had(k - 1, 2 * m - k, false));
        reveal(step_apply);
        assert(p[k - 1] == c);
        assert(p[2 * m - k] == 0);
        assert(stage_run(t, g, k) =~= p.update(s.a, sat16(c as int) as i64).update(
            s.b,
            sat16(c as int) as i64,
        ));
    }
}

/// The number of equal points before stage `g`.
spec fn spread(g: int, n: int) -> int {
    let m: int = if g <= 10 {
        1
    } else if g <= 15 {
        2
    } else if g <= 20 {
        4
    } else if g <= 24 {
        8
    } else if g <= 27 {
        16
    } else if g <= 29 {
        32
    } else {
        64
    };
    if m < pow2i(n) {
        m
    } else {
        pow2i(n)
    }
}

/// The value of the equal points before stage `g`.
spec fn spread_value(g: int, v: int) -> int {
    let c = round_shift(v * 2896, 12);
    if g <= 10 {
        v
    } else if g <= 15 {
        c
    } else {
        sat16(c)
    }
}

proof fn lemma_upper_steps(g: int, n: int, k: int)
    requires
        0 <= g < 30,
        g != 10,
        g != 15,
        g != 20,
        g != 24,
        g != 27,
        g != 29,
        2 <= n <= 6,
        0 <= k < stage_len(g, n),
    ensures
        spread(g, n) <= step_of(g, k).a < pow2i(n),
        spread(g, n) <= step_of(g, k).b < pow2i(n),
{
    lemma_pow2i_values();
    crate::transform::lemma_step_in_range(g, n, k);
}

proof fn lemma_stage_10(t: Seq<i64>, v: i64)
    requires
        4 <= t.len(),
        level(t, 1, v),
        -65536 <= v <= 65536,
    ensures
        level(stage_run(t, 10, 2), 2, spread_value(11, v as int) as i64),
        stage_run(t, 10, 2).len() == t.len(),
{
    reveal(step_apply);
    reveal(cos_of);
    lemma_pow2i_values();
    assert(cos_of(32) == 2896) by {
        assert(COS128_LOOKUP[32] == 2896);
    }
    assert(sin_of(32) == 2896) by {
        assert((-32int) % 256 == 224);
    }
    let c = round_shift(v * 2896, 12) as i64;
    let p = stage_run(t, 10, 1);
    assert(stage_run(t, 10, 0) == t);
    assert(t[0] == v && t[1] == 0);
    assert(v * 2896 - 0 * 2896 == v * 2896);
    assert(p =~= t.update(0, c).update(1, c));
    assert(p[2] == 0 && p[3] == 0);
    lemma_step_still(p, step_of(10, 1));
    assert(stage_run(t, 10, 2) == p);
}

proof fn lemma_stages(t: Seq<i64>, n: int, g: int, v: i64)
    requires
        2 <= n <= 6,
        0 <= g <= 30,
        t.len() == pow2i(n),
        level(t, 1, v),
        -65536 <= v <= 65536,
    ensures
        stages_run(t, n, 0, g).len() == t.len(),
        level(stages_run(t, n, 0, g), spread(g, n), spread_value(g, v as int) as i64),
    decreases g,
{
    lemma_pow2i_values();
    lemma_pow2i_mono(2, n);
    if g > 0 {
        let h = g - 1;
        lemma_stages(t, n, h, v);
        let p = stages_run(t, n, 0, h);
        let c = spread_value(h, v as int) as i64;
        let m = spread(h, n);
        let len = stage_len(h, n);
        if h == 10 {
            lemma_stage_10(p, v);
        } else if h == 15 || h == 20 || h == 24 || h == 27 || h == 29 {
            if len > 0 {
                assert(len == m);
                assert(2 * m <= p.len());
                assert forall|j: int| 0 <= j < m implies #[trigger] step_of(h, j) == had(
                    j,
                    2 * m - 1 - j,
                    false,
                ) by {}
                lemma_stage_grows(p, h, m, m, c);
            } else {
                assert(stage_run(p, h, 0) == p);
            }
        } else {
            assert forall|j: int| 0 <= j < len implies m <= (#[trigger] step_of(h, j)).a < p.len()
                && m <= step_of(h, j).b < p.len() by {
                lemma_upper_steps(h, n, j);
            }
            lemma_stage_still(p, h, len, m, c);
        }
    }
}

/// The value that the cosine transform spreads over all points from the first one.
pub open spec fn spread_of(v: int) -> int {
    sat16(round_shift(v * 2896, 12))
}

/// The cosine transform of points of which only the first is not zero has equal points.
pub proof fn law_dct_flat(t: Seq<i64>, n: int, v: i64)
    requires
        2 <= n <= 6,
        t.len() == pow2i(n),
        level(t, 1, v),
        -65536 <= v <= 65536,
    ensures
        dct_of(t, n).len() == t.len(),
        forall|i: int| 0 <= i < t.len() ==> #[trigger] dct_of(t, n)[i] == spread_of(v as int),
{
    reveal(dct_of);
    lemma_pow2i_values();
    lemma_pow2i_mono(2, n);
    let p = dct_permuted(t, n);
    assert forall|i: int| 0 <= i < p.len() implies #[trigger] p[i] == if i < 1 {
        v
    } else {
        0
    } by {
        law_brev_twice(n, i);
        law_brev_twice(n, 0);
        if i == 0 {
            lemma_brev_zero(n);
        } else if brev_of(n, i) == 0 {
            lemma_brev_zero(n);
        }
    }
    lemma_stages(p, n, 30, v);
}

pub proof fn lemma_brev_zero(n: int)
    ensures
        brev_of(n, 0) == 0,
    decreases n,
{
    if n > 0 {
        lemma_brev_zero(n - 1);
        assert(0 * pow2i(n - 1) == 0) by (nonlinear_arith);
    }
}

// ---------------------------------------------------------------------------
// Two dimensions
// ---------------------------------------------------------------------------

/// A block with nothing but a first coefficient has the same residual everywhere, at
/// every transform size.
pub proof fn law_first_coefficient_is_flat(dq: Seq<i32>, tx: int, i: int, j: int)
    requires
        0 <= tx < 19,
        dq.len() >= coded_area(tx),
        -65536 <= dq[0] <= 65536,
        forall|k: int| 1 <= k < dq.len() ==> #[trigger] dq[k] == 0,
        0 <= i < TX_HEIGHT[tx],
        0 <= j < TX_WIDTH[tx],
    ensures
        residual_at(dq, DCT_DCT as int, tx, i, j) == residual_at(dq, DCT_DCT as int, tx, 0, 0),
{
    reveal(residual_at);
    lemma_flat_column(dq, tx, j);
    lemma_flat_column(dq, tx, 0);
    let a = col_points(dq, DCT_DCT as int, tx, j);
    let b = col_points(dq, DCT_DCT as int, tx, 0);
    lemma_sides(tx);
    law_dct_flat(a, log_h(tx), a[0]);
    law_dct_flat(b, log_h(tx), b[0]);
}

pub proof fn lemma_sides(tx: int)
    requires
        0 <= tx < 19,
    ensures
        2 <= log_w(tx) <= 6,
        2 <= log_h(tx) <= 6,
        TX_WIDTH[tx] == pow2i(log_w(tx)),
        TX_HEIGHT[tx] == pow2i(log_h(tx)),
        1 <= TX_WIDTH[ADJUSTED_TX_SIZE[tx] as int] <= TX_WIDTH[tx],
        1 <= TX_HEIGHT[ADJUSTED_TX_SIZE[tx] as int] <= TX_HEIGHT[tx],
        0 <= TRANSFORM_ROW_SHIFT[tx] <= 2,
{
    lemma_pow2i_values();
}

pub proof fn lemma_row_level(dq: Seq<i32>, tx: int, i: int)
    requires
        0 <= tx < 19,
        dq.len() >= coded_area(tx),
        -65536 <= dq[0] <= 65536,
        forall|k: int| 1 <= k < dq.len() ==> #[trigger] dq[k] == 0,
        0 <= i < TX_HEIGHT[tx],
    ensures
        level(row_points(dq, tx, i), 1, row_input(dq, tx, i, 0) as i64),
        -65536 <= row_input(dq, tx, i, 0) <= 65536,
        i > 0 ==> row_input(dq, tx, i, 0) == 0,
{
    lemma_sides(tx);
    lemma_pow2i_values();
    lemma_round_zero(12);
    let aw = TX_WIDTH[ADJUSTED_TX_SIZE[tx] as int] as int;
    let ah = TX_HEIGHT[ADJUSTED_TX_SIZE[tx] as int] as int;
    assert forall|j: int| 0 <= j < TX_WIDTH[tx] && (i > 0 || j > 0) implies #[trigger] row_input(
        dq,
        tx,
        i,
        j,
    ) == 0 by {
        if i < ah && j < aw {
            assert(1 <= i * aw + j < coded_area(tx)) by (nonlinear_arith)
                requires
                    0 <= i < ah,
                    0 <= j < aw,
                    i > 0 || j > 0,
                    coded_area(tx) == aw * ah,
            ;
        }
    }
    if i == 0 {
        assert(0 * aw + 0 == 0);
        let v = dq[0] as int;
        assert(-65536 <= round_shift(v * 2896, 12) <= 65536);
    }
    assert forall|j: int| 0 <= j < row_points(dq, tx, i).len() implies #[trigger] row_points(
        dq,
        tx,
        i,
    )[j] == if j < 1 {
        row_input(dq, tx, i, 0) as i64
    } else {
        0
    } by {
        if j > 0 {
            assert(row_input(dq, tx, i, j) == 0);
        }
    }
}

proof fn lemma_flat_column(dq: Seq<i32>, tx: int, j: int)
    requires
        0 <= tx < 19,
        dq.len() >= coded_area(tx),
        -65536 <= dq[0] <= 65536,
        forall|k: int| 1 <= k < dq.len() ==> #[trigger] dq[k] == 0,
        0 <= j < TX_WIDTH[tx],
    ensures
        level(
            col_points(dq, DCT_DCT as int, tx, j),
            1,
            col_points(dq, DCT_DCT as int, tx, j)[0],
        ),
        col_points(dq, DCT_DCT as int, tx, j)[0] == col_points(dq, DCT_DCT as int, tx, 0)[0],
        -65536 <= col_points(dq, DCT_DCT as int, tx, j)[0] <= 65536,
{
    let d = DCT_DCT as int;
    lemma_sides(tx);
    lemma_pow2i_values();
    let p = col_points(dq, d, tx, j);
    assert forall|i: int| 0 <= i < TX_HEIGHT[tx] && i > 0 implies #[trigger] mid_point(
        dq,
        d,
        tx,
        i,
        j,
    ) == 0 by {
        lemma_row_level(dq, tx, i);
        law_dct_flat(row_points(dq, tx, i), log_w(tx), 0);
        lemma_round_zero(12);
        lemma_round_zero(TRANSFORM_ROW_SHIFT[tx] as int);
        assert(spread_of(0) == 0);
    }
    lemma_row_level(dq, tx, 0);
    law_dct_flat(row_points(dq, tx, 0), log_w(tx), row_input(dq, tx, 0, 0) as i64);
    assert(mid_point(dq, d, tx, 0, j) == mid_point(dq, d, tx, 0, 0));
}

} // verus!
