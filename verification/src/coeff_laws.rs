//! What the code of a block says of its coefficients.
use crate::bits::{lemma_pow2i_mono, lemma_pow2i_values, pow2i};
use crate::coeff::{
    all_zero_of, base_ctx_of, base_mag, br_ctx_of, br_rounds, c_next, c_val, coded_tx_type,
    coeffs_of, ctx_max, ctx_signs, dc_sign_of, eob_class, eob_ctx_of, eob_key, eob_of, golomb_of,
    golomb_prefix, lemma_eob_class, level_at, level_of, levels_of, plane_type, side_of, sign_of,
    sign_step, signs_of, sz_ctx, tx_type_next, tx_type_of, CState, CoeffKey, CtxModel, SignState,
    TxBlockCtx, MAX_GOLOMB_LENGTH,
};
use crate::coeff_tables::{
    has_scan, lemma_scan, lemma_tx_dims, scan_of, square_area, tx_class_of, COEFF_BASE_CTX_OFFSET,
    H_ADST, H_DCT, H_FLIPADST, TX_CLASS_2D, TX_CLASS_HORIZ, TX_HEIGHT, TX_WIDTH, V_ADST, V_DCT,
    V_FLIPADST,
};
use crate::entropy::{
    bool_next, bool_value, cdf_symbols, cdf_wf, lemma_literal, lemma_sym_next_wf, lemma_sym_value,
    literal_next, literal_value, min_of, SymState,
};
use crate::scans::law_scan_visits_once;
use vstd::prelude::*;

verus! {

// ---------------------------------------------------------------------------
// Literals
// ---------------------------------------------------------------------------

/// A literal is its first bits followed by the others.
pub proof fn law_literal_joins(st: SymState, a: int, b: int)
    requires
        0 <= a,
        0 <= b,
    ensures
        literal_value(st, a + b) == literal_value(st, a) * pow2i(b) + literal_value(
            literal_next(st, a),
            b,
        ),
        literal_next(st, a + b) == literal_next(literal_next(st, a), b),
    decreases b,
{
    lemma_pow2i_values();
    if b > 0 {
        law_literal_joins(st, a, b - 1);
        let hi = literal_value(st, a);
        assert(pow2i(b) == 2 * pow2i(b - 1)) by {
            lemma_pow2i_mono(0, b);
        }
        assert(2 * (hi * pow2i(b - 1)) == hi * (2 * pow2i(b - 1))) by (nonlinear_arith);
    } else {
        assert(literal_value(st, a) * pow2i(0) == literal_value(st, a)) by (nonlinear_arith)
            requires
                pow2i(0) == 1,
        ;
    }
}

// ---------------------------------------------------------------------------
// Large levels
// ---------------------------------------------------------------------------

proof fn lemma_zero_prefix(st: SymState, n: int)
    requires
        st.wf(),
        0 <= n <= MAX_GOLOMB_LENGTH,
        literal_value(st, n) == 0,
    ensures
        golomb_prefix(st, 1) == golomb_prefix(literal_next(st, n), n + 1),
    decreases n,
{
    if n > 0 {
        lemma_literal(st, n - 1);
        lemma_zero_prefix(st, n - 1);
        assert(!bool_value(literal_next(st, n - 1)));
    }
}

/// A large level is coded in as many zeros as its offset from 14 has binary digits behind
/// the first, and then these digits.
pub proof fn law_large_levels(st: SymState, digits: int)
    requires
        st.wf(),
        1 <= digits <= MAX_GOLOMB_LENGTH + 1,
        pow2i(digits - 1) <= literal_value(st, 2 * digits - 1) < pow2i(digits),
    ensures
        golomb_of(st) == (
            Some(14 + literal_value(st, 2 * digits - 1)),
            literal_next(st, 2 * digits - 1),
        ),
{
    let l = digits;
    let x = literal_value(st, 2 * l - 1);
    law_literal_joins(st, l - 1, l);
    lemma_literal(st, l - 1);
    let s1 = literal_next(st, l - 1);
    lemma_literal(s1, l);
    lemma_pow2i_mono(0, l);
    let hi = literal_value(st, l - 1);
    assert(hi == 0) by (nonlinear_arith)
        requires
            0 <= hi,
            hi * pow2i(l) + literal_value(s1, l) < pow2i(l),
            0 <= literal_value(s1, l),
            1 <= pow2i(l),
    ;
    assert(hi * pow2i(l) == 0) by (nonlinear_arith)
        requires
            hi == 0,
    ;
    lemma_zero_prefix(st, l - 1);
    law_literal_joins(s1, 1, l - 1);
    lemma_literal(s1, 1);
    let s2 = literal_next(s1, 1);
    lemma_literal(s2, l - 1);
    assert(literal_next(s1, 1) == bool_next(literal_next(s1, 0)));
    assert(literal_next(s1, 0) == s1);
    assert(literal_value(s1, 0) == 0);
    lemma_pow2i_values();
    let bit = literal_value(s1, 1);
    assert(0 <= bit < 2);
    if bit == 0 {
        assert(bit * pow2i(l - 1) == 0) by (nonlinear_arith)
            requires
                bit == 0,
        ;
    }
    assert(bit == 1);
    assert(bool_value(s1));
    assert(bit * pow2i(l - 1) == pow2i(l - 1)) by (nonlinear_arith)
        requires
            bit == 1,
    ;
    assert(golomb_prefix(s1, l) == (Some(l), bool_next(s1)));
}

/// A code that starts with too many zeros is no level.
pub proof fn law_endless_levels(st: SymState)
    requires
        st.wf(),
        literal_value(st, MAX_GOLOMB_LENGTH + 1) == 0,
    ensures
        golomb_of(st).0 is None,
{
    let n = MAX_GOLOMB_LENGTH as int;
    lemma_literal(st, n);
    lemma_zero_prefix(st, n);
    let s1 = literal_next(st, n);
    assert(!bool_value(s1));
    assert(golomb_prefix(s1, n + 1).0 is None);
}

// ---------------------------------------------------------------------------
// Signs
// ---------------------------------------------------------------------------

/// The magnitude of a coefficient.
pub open spec fn magnitude(v: i32) -> int {
    if v < 0 {
        -v
    } else {
        v as int
    }
}

/// A level up to 14 at a position other than the first keeps its magnitude. It is positive
/// where the next one-bit literal is 0 and negative where that is 1. Nothing else is read,
/// and no other level changes.
pub proof fn law_sign(st: SignState, pos: int, ptype: int, dc_ctx: int)
    requires
        0 < pos < st.q.len(),
        1 <= st.q[pos] <= 14,
    ensures
        ({
            let (after, fine) = sign_step(st, pos, ptype, dc_ctx);
            &&& fine
            &&& literal_value(st.s.sym, 1) == 0 ==> after.q[pos] == st.q[pos]
            &&& literal_value(st.s.sym, 1) == 1 ==> after.q[pos] == -st.q[pos]
            &&& after.s.sym == literal_next(st.s.sym, 1)
            &&& after.s.bank == st.s.bank
            &&& forall|i: int|
                0 <= i < st.q.len() && i != pos ==> #[trigger] after.q[i] == st.q[i]
        }),
{
    reveal(sign_step);
    assert(literal_value(st.s.sym, 0) == 0);
    assert(literal_next(st.s.sym, 0) == st.s.sym);
    assert(literal_value(st.s.sym, 1) == if bool_value(st.s.sym) {
        1int
    } else {
        0
    });
    let v = st.q[pos] as int;
    assert(v % 0x10_0000 == v);
}

/// The first level is positive where the symbol of its sign table is 0 and negative where
/// that is 1, and its sign is what its neighbours will see: 1 for a negative one, 2 for a
/// positive one.
pub proof fn law_first_sign(st: SignState, ptype: int, dc_ctx: int)
    requires
        0 < st.q.len(),
        1 <= st.q[0] <= 14,
    ensures
        ({
            let k = CoeffKey::DcSign(ptype, dc_ctx);
            let (after, fine) = sign_step(st, 0, ptype, dc_ctx);
            &&& fine
            &&& c_val(st.s, k) == 0 ==> after.q[0] == st.q[0] && after.dc == 2
            &&& c_val(st.s, k) == 1 ==> after.q[0] == -st.q[0] && after.dc == 1
            &&& after.s == c_next(st.s, k)
        }),
{
    reveal(sign_step);
    let v = st.q[0] as int;
    assert(v % 0x10_0000 == v);
}

/// A level above 14 has its tail behind its sign, and the tail is its magnitude.
pub proof fn law_sign_of_large_level(st: SignState, pos: int, ptype: int, dc_ctx: int)
    requires
        0 < pos < st.q.len(),
        st.q[pos] > 14,
    ensures
        ({
            let (after, fine) = sign_step(st, pos, ptype, dc_ctx);
            let tail = golomb_of(literal_next(st.s.sym, 1));
            &&& fine <==> tail.0 is Some
            &&& tail.0 matches Some(g) ==> {
                &&& 0 <= g < 0x10_0000 && literal_value(st.s.sym, 1) == 0 ==> after.q[pos] == g
                &&& 0 <= g < 0x10_0000 && literal_value(st.s.sym, 1) == 1 ==> after.q[pos] == -g
            }
            &&& after.s.sym == tail.1
        }),
{
    reveal(sign_step);
    assert(literal_value(st.s.sym, 0) == 0);
    assert(literal_next(st.s.sym, 0) == st.s.sym);
    assert(literal_value(st.s.sym, 1) == if bool_value(st.s.sym) {
        1int
    } else {
        0
    });
    match golomb_of(literal_next(st.s.sym, 1)).0 {
        Some(g) => {
            if 0 <= g < 0x10_0000 {
                assert(g % 0x10_0000 == g);
            }
        },
        None => {},
    }
}

/// A level of zero codes no sign.
pub proof fn law_zero_has_no_sign(st: SignState, pos: int, ptype: int, dc_ctx: int)
    requires
        0 <= pos < st.q.len(),
        st.q[pos] == 0,
    ensures
        sign_step(st, pos, ptype, dc_ctx) == (st, true),
{
    reveal(sign_step);
    assert(st.q.update(pos, 0i32) =~= st.q);
    assert((-0int) as i32 == 0i32);
}

proof fn lemma_step_keeps(st: SignState, pos: int, ptype: int, dc_ctx: int)
    requires
        0 <= pos < st.q.len(),
    ensures
        ({
            let after = sign_step(st, pos, ptype, dc_ctx).0;
            &&& after.q.len() == st.q.len()
            &&& forall|i: int|
                0 <= i < st.q.len() && i != pos ==> #[trigger] after.q[i] == st.q[i]
            &&& pos != 0 ==> after.dc == st.dc
        }),
{
    reveal(sign_step);
}

/// The first `n` places of a scan are different positions of a block.
pub open spec fn visits(scan: Seq<u16>, n: int, area: int) -> bool {
    &&& n <= scan.len()
    &&& forall|i: int| 0 <= i < n ==> #[trigger] scan[i] < area
    &&& forall|i: int, j: int|
        0 <= i < n && 0 <= j < n && i != j ==> #[trigger] scan[i] != #[trigger] scan[j]
}

proof fn lemma_signs_keep(
    st: SignState,
    scan: Seq<u16>,
    ptype: int,
    dc_ctx: int,
    n: int,
    p: int,
)
    requires
        0 <= n,
        visits(scan, n, st.q.len() as int),
        0 <= p < st.q.len(),
        forall|i: int| 0 <= i < n ==> #[trigger] scan[i] != p,
    ensures
        signs_of(st, scan, ptype, dc_ctx, n).0.q.len() == st.q.len(),
        signs_of(st, scan, ptype, dc_ctx, n).0.q[p] == st.q[p],
    decreases n,
{
    if n > 0 {
        lemma_signs_keep(st, scan, ptype, dc_ctx, n - 1, p);
        let before = signs_of(st, scan, ptype, dc_ctx, n - 1).0;
        lemma_step_keeps(before, scan[n - 1] as int, ptype, dc_ctx);
    }
}

proof fn lemma_signs_settle(
    st: SignState,
    scan: Seq<u16>,
    ptype: int,
    dc_ctx: int,
    m: int,
    n: int,
)
    requires
        0 <= m <= n,
        visits(scan, n, st.q.len() as int),
    ensures
        signs_of(st, scan, ptype, dc_ctx, m).0.q.len() == st.q.len(),
        signs_of(st, scan, ptype, dc_ctx, n).1 ==> signs_of(st, scan, ptype, dc_ctx, m).1,
        forall|i: int|
            0 <= i < m ==> signs_of(st, scan, ptype, dc_ctx, n).0.q[#[trigger] scan[i] as int]
                == signs_of(st, scan, ptype, dc_ctx, m).0.q[scan[i] as int],
    decreases n,
{
    lemma_signs_len(st, scan, ptype, dc_ctx, m, n);
    if m < n {
        lemma_signs_settle(st, scan, ptype, dc_ctx, m, n - 1);
        lemma_signs_len(st, scan, ptype, dc_ctx, n - 1, n);
        let before = signs_of(st, scan, ptype, dc_ctx, n - 1).0;
        lemma_step_keeps(before, scan[n - 1] as int, ptype, dc_ctx);
        assert forall|i: int| 0 <= i < m implies signs_of(
            st,
            scan,
            ptype,
            dc_ctx,
            n,
        ).0.q[#[trigger] scan[i] as int] == signs_of(st, scan, ptype, dc_ctx,
            m).0.q[scan[i] as int] by {
            assert(scan[i] != scan[n - 1]);
        }
    }
}

proof fn lemma_signs_len(
    st: SignState,
    scan: Seq<u16>,
    ptype: int,
    dc_ctx: int,
    m: int,
    n: int,
)
    requires
        0 <= m <= n,
        visits(scan, n, st.q.len() as int),
    ensures
        signs_of(st, scan, ptype, dc_ctx, m).0.q.len() == st.q.len(),
    decreases m,
{
    if m > 0 {
        lemma_signs_len(st, scan, ptype, dc_ctx, m - 1, n);
        lemma_step_keeps(
            signs_of(st, scan, ptype, dc_ctx, m - 1).0,
            scan[m - 1] as int,
            ptype,
            dc_ctx,
        );
    }
}

/// In a whole block, the coefficient at place `i` of the scan has the magnitude that was
/// read for it. Beyond the first position it is positive or negative as the one-bit literal
/// that is read behind the signs before it is 0 or 1.
pub proof fn law_signs_of_block(
    st: SignState,
    scan: Seq<u16>,
    ptype: int,
    dc_ctx: int,
    n: int,
    i: int,
)
    requires
        0 <= i < n,
        visits(scan, n, st.q.len() as int),
        signs_of(st, scan, ptype, dc_ctx, n).1,
        0 <= st.q[scan[i] as int] <= 14,
    ensures
        ({
            let pos = scan[i] as int;
            let v = st.q[pos];
            let r = signs_of(st, scan, ptype, dc_ctx, n).0.q[pos];
            let sym = signs_of(st, scan, ptype, dc_ctx, i).0.s.sym;
            &&& v == 0 ==> r == 0
            &&& pos != 0 && v != 0 && literal_value(sym, 1) == 0 ==> r == v
            &&& pos != 0 && v != 0 && literal_value(sym, 1) == 1 ==> r == -v
        }),
{
    let pos = scan[i] as int;
    lemma_signs_settle(st, scan, ptype, dc_ctx, i + 1, n);
    assert(scan[i] < st.q.len());
    assert forall|j: int| 0 <= j < i implies #[trigger] scan[j] != pos by {
        assert(scan[j] != scan[i]);
    }
    lemma_signs_keep(st, scan, ptype, dc_ctx, i, pos);
    let before = signs_of(st, scan, ptype, dc_ctx, i).0;
    lemma_signs_len(st, scan, ptype, dc_ctx, i, n);
    assert(signs_of(st, scan, ptype, dc_ctx, i + 1).1);
    assert(signs_of(st, scan, ptype, dc_ctx, i).1);
    if st.q[pos] == 0 {
        law_zero_has_no_sign(before, pos, ptype, dc_ctx);
    } else if pos != 0 {
        law_sign(before, pos, ptype, dc_ctx);
    }
}

/// The sum of the magnitudes at the first `n` places of a scan.
pub open spec fn magnitudes(q: Seq<i32>, scan: Seq<u16>, n: int) -> int
    decreases n,
{
    if n <= 0 {
        0
    } else {
        magnitudes(q, scan, n - 1) + magnitude(q[scan[n - 1] as int])
    }
}

proof fn lemma_magnitudes_same(a: Seq<i32>, b: Seq<i32>, scan: Seq<u16>, n: int)
    requires
        forall|i: int| 0 <= i < n ==> a[#[trigger] scan[i] as int] == b[scan[i] as int],
    ensures
        magnitudes(a, scan, n) == magnitudes(b, scan, n),
    decreases n,
{
    if n > 0 {
        lemma_magnitudes_same(a, b, scan, n - 1);
        assert(a[scan[n - 1] as int] == b[scan[n - 1] as int]);
    }
}

/// What the neighbours of a block will see of it is true of its coefficients: the sum of
/// their magnitudes, and whether the first is negative or positive.
pub proof fn law_contexts_describe_block(
    st: SignState,
    scan: Seq<u16>,
    ptype: int,
    dc_ctx: int,
    n: int,
)
    requires
        0 <= n,
        visits(scan, n, st.q.len() as int),
        signs_of(st, scan, ptype, dc_ctx, n).1,
        st.sum == 0,
        st.dc == 0,
    ensures
        ({
            let after = signs_of(st, scan, ptype, dc_ctx, n).0;
            &&& after.sum == magnitudes(after.q, scan, n)
            &&& forall|i: int|
                0 <= i < n && #[trigger] scan[i] == 0 ==> {
                    &&& after.q[0] < 0 ==> after.dc == 1
                    &&& after.q[0] > 0 ==> after.dc == 2
                }
        }),
    decreases n,
{
    if n > 0 {
        law_contexts_describe_block(st, scan, ptype, dc_ctx, n - 1);
        lemma_signs_len(st, scan, ptype, dc_ctx, n - 1, n);
        let before = signs_of(st, scan, ptype, dc_ctx, n - 1).0;
        let pos = scan[n - 1] as int;
        let after = sign_step(before, pos, ptype, dc_ctx).0;
        lemma_step_keeps(before, pos, ptype, dc_ctx);
        assert forall|i: int| 0 <= i < n - 1 implies after.q[#[trigger] scan[i] as int]
            == before.q[scan[i] as int] by {
            assert(scan[i] != scan[n - 1]);
        }
        lemma_magnitudes_same(after.q, before.q, scan, n - 1);
        lemma_step_sum(before, pos, ptype, dc_ctx);
        assert forall|i: int| 0 <= i < n && #[trigger] scan[i] == 0 implies {
            &&& after.q[0] < 0 ==> after.dc == 1
            &&& after.q[0] > 0 ==> after.dc == 2
        } by {
            if i < n - 1 {
                assert(scan[i] != scan[n - 1]);
            }
        }
    }
}

proof fn lemma_step_sum(st: SignState, pos: int, ptype: int, dc_ctx: int)
    requires
        0 <= pos < st.q.len(),
        sign_step(st, pos, ptype, dc_ctx).1,
    ensures
        ({
            let after = sign_step(st, pos, ptype, dc_ctx).0;
            &&& after.sum == st.sum + magnitude(after.q[pos])
            &&& pos == 0 && after.q[0] < 0 ==> after.dc == 1
            &&& pos == 0 && after.q[0] > 0 ==> after.dc == 2
        }),
{
    reveal(sign_step);
    let v = st.q[pos] as int;
    let (neg, s1) = sign_of(st.s, v, pos, ptype, dc_ctx);
    let g = if v > 14 || v < 0 {
        golomb_of(s1.sym).0->Some_0
    } else {
        v
    };
    let m = g % 0x10_0000;
    assert(0 <= m < 0x10_0000);
    if v > 14 || v < 0 {
        lemma_golomb_positive(s1.sym);
    }
}

proof fn lemma_golomb_positive(st: SymState)
    ensures
        golomb_of(st).0 matches Some(g) ==> g > 0,
{
    lemma_prefix_positive(st, 1);
    match golomb_prefix(st, 1) {
        (Some(l), s1) => {
            lemma_pow2i_mono(0, l - 1);
            lemma_pow2i_values();
            lemma_literal_positive(s1, l - 1);
        },
        _ => {},
    }
}

proof fn lemma_prefix_positive(st: SymState, l: int)
    requires
        1 <= l,
    ensures
        golomb_prefix(st, l).0 matches Some(k) ==> k >= 1,
    decreases 26 - l,
{
    if !bool_value(st) && l <= MAX_GOLOMB_LENGTH {
        lemma_prefix_positive(bool_next(st), l + 1);
    }
}

proof fn lemma_literal_positive(st: SymState, n: int)
    ensures
        0 <= literal_value(st, n),
    decreases n,
{
    if n > 0 {
        lemma_literal_positive(st, n - 1);
    }
}

// ---------------------------------------------------------------------------
// Levels
// ---------------------------------------------------------------------------

proof fn lemma_levels_kept(
    s: CState,
    t: int,
    ptype: int,
    tx_type: int,
    eob: int,
    n: int,
    p: int,
)
    requires
        0 <= n <= eob,
        visits(scan_of(t, tx_type), eob, square_area(t)),
        0 <= p < square_area(t),
        forall|i: int| eob - n <= i < eob ==> #[trigger] scan_of(t, tx_type)[i] != p,
    ensures
        levels_of(s, t, ptype, tx_type, eob, n).0.len() == square_area(t),
        levels_of(s, t, ptype, tx_type, eob, n).0[p] == 0,
    decreases n,
{
    if n > 0 {
        lemma_levels_kept(s, t, ptype, tx_type, eob, n - 1, p);
        assert(scan_of(t, tx_type)[eob - n] != p);
        assert(scan_of(t, tx_type)[eob - n] < square_area(t));
    }
}

/// Positions behind the last coded one have no level.
pub proof fn law_levels_end(s: CState, t: int, ptype: int, tx_type: int, eob: int, i: int)
    requires
        0 <= eob <= i < square_area(t),
        visits(scan_of(t, tx_type), square_area(t), square_area(t)),
    ensures
        levels_of(s, t, ptype, tx_type, eob, eob).0[scan_of(t, tx_type)[i] as int] == 0,
{
    let scan = scan_of(t, tx_type);
    assert forall|j: int| 0 <= j < eob implies #[trigger] scan[j] != scan[i] as int by {}
    assert(scan[i] < square_area(t));
    lemma_levels_kept(s, t, ptype, tx_type, eob, eob, scan[i] as int);
}

/// The level at the last coded position is one more than the symbol that is read first, as
/// it is not zero. Up to two nothing else is read for it.
pub proof fn law_last_level(
    s: CState,
    t: int,
    ptype: int,
    tx_type: int,
    eob: int,
    q: Seq<i32>,
    symbol: int,
)
    requires
        1 <= eob,
        symbol == c_val(
            s,
            CoeffKey::CoeffBaseEob(t, ptype, eob_ctx_of(square_area(t), eob - 1)),
        ),
        0 <= symbol < 2,
    ensures
        level_of(s, t, ptype, tx_type, eob, eob - 1, q).0 == symbol + 1,
{
    reveal(level_of);
}

/// Range symbols add up on top of a level: each but the last is the largest.
pub proof fn law_range_adds_up(s: CState, k: CoeffKey, level: int, n: int)
    requires
        0 < n,
    ensures
        0 <= c_val(s, k) < 3 ==> br_rounds(s, k, level, n) == (
            level + c_val(s, k),
            c_next(s, k),
        ),
        c_val(s, k) == 3 ==> br_rounds(s, k, level, n) == br_rounds(
            c_next(s, k),
            k,
            level + 3,
            n - 1,
        ),
        br_rounds(s, k, level, 0) == (level, s),
{
}

/// The number of coded positions lies in the class that the first symbol names: one, two,
/// three or four, five to eight, and so on. The next symbol says in which half.
pub proof fn law_eob_class(s: CState, tx_size: int, ptype: int, tx_type: int)
    requires
        s.sym.wf(),
        forall|k: CoeffKey| k.valid() ==> cdf_wf(#[trigger] s.bank[k]) && cdf_symbols(s.bank[k])
            == k.symbols(),
        0 <= tx_size < 19,
        0 <= ptype < 2,
    ensures
        ({
            let ctx = if tx_class_of(tx_type) == TX_CLASS_2D {
                0int
            } else {
                1
            };
            let k = eob_key(eob_class(tx_size), ptype, ctx);
            let v = c_val(s, k);
            let eob = eob_of(s, tx_size, ptype, tx_type).0;
            &&& v == 0 ==> eob == 1
            &&& v == 1 ==> eob == 2
            &&& v >= 2 ==> {
                let half = c_val(c_next(s, k), CoeffKey::EobExtra(sz_ctx(tx_size), ptype, v - 2));
                &&& pow2i(v - 1) < eob <= pow2i(v)
                &&& half == 1 <==> eob > pow2i(v - 1) + pow2i(v - 2)
            }
        }),
{
    reveal(eob_of);
    lemma_eob_class(tx_size);
    let ctx = if tx_class_of(tx_type) == TX_CLASS_2D {
        0int
    } else {
        1
    };
    let k = eob_key(eob_class(tx_size), ptype, ctx);
    let v = c_val(s, k);
    assert(k.valid());
    assert(cdf_wf(s.bank[k]));
    lemma_sym_value(s.sym, s.bank[k]);
    lemma_sym_next_wf(s.sym, s.bank[k]);
    if v >= 2 {
        let s1 = c_next(s, k);
        let e = CoeffKey::EobExtra(sz_ctx(tx_size), ptype, v - 2);
        assert(e.valid());
        assert(cdf_wf(s.bank[e]));
        assert(e != k);
        assert(s1.bank[e] == s.bank[e]);
        lemma_sym_value(s1.sym, s1.bank[e]);
        lemma_sym_next_wf(s1.sym, s1.bank[e]);
        let half = c_val(s1, e);
        let s2 = c_next(s1, e);
        lemma_literal(s2.sym, v - 2);
        lemma_pow2i_mono(0, v - 2);
        assert(pow2i(v) == 2 * pow2i(v - 1) && pow2i(v - 1) == 2 * pow2i(v - 2));
        assert(half == 0 || half == 1);
        assert(half * pow2i(v - 2) == if half == 1 {
            pow2i(v - 2)
        } else {
            0
        }) by (nonlinear_arith)
            requires
                half == 0 || half == 1,
        ;
    }
}

// ---------------------------------------------------------------------------
// Contexts of levels
// ---------------------------------------------------------------------------

/// The transform type with rows and columns exchanged.
pub open spec fn turned_type(tx_type: int) -> int {
    if tx_type == V_DCT {
        H_DCT as int
    } else if tx_type == H_DCT {
        V_DCT as int
    } else if tx_type == V_ADST {
        H_ADST as int
    } else if tx_type == H_ADST {
        V_ADST as int
    } else if tx_type == V_FLIPADST {
        H_FLIPADST as int
    } else if tx_type == H_FLIPADST {
        V_FLIPADST as int
    } else {
        tx_type
    }
}

/// Two squares of levels are each other with rows and columns exchanged.
pub open spec fn turned_levels(a: Seq<i32>, b: Seq<i32>, n: int) -> bool {
    forall|r: int, c: int, cap: int|
        #[trigger] level_at(a, n, r, c, cap) == level_at(b, n, c, r, cap)
}

/// Exchanging rows and columns of the levels exchanges the contexts: those of a type along
/// the rows are those of the type along the columns.
pub proof fn law_contexts_turned(
    t: int,
    tx_type: int,
    a: Seq<i32>,
    b: Seq<i32>,
    row: int,
    col: int,
)
    requires
        0 <= t < 3,
        turned_levels(a, b, side_of(t)),
        0 <= row < side_of(t),
        0 <= col < side_of(t),
    ensures
        ({
            let n = side_of(t);
            let p = row * n + col;
            let q = col * n + row;
            &&& base_ctx_of(t, tx_type, a, p) == base_ctx_of(t, turned_type(tx_type), b, q)
            &&& br_ctx_of(t, tx_type, a, p) == br_ctx_of(t, turned_type(tx_type), b, q)
        }),
{
    reveal(base_mag);
    let n = side_of(t);
    let p = row * n + col;
    let q = col * n + row;
    lemma_place(n, row, col);
    lemma_place(n, col, row);
    lemma_offsets_even(t, min_of(row, 4), min_of(col, 4));
    assert(p == 0 <==> q == 0) by {
        lemma_origin(n, row, col);
        lemma_origin(n, col, row);
    }
}

proof fn lemma_place(n: int, row: int, col: int)
    requires
        0 <= row,
        0 <= col < n,
    ensures
        (row * n + col) / n == row,
        (row * n + col) % n == col,
{
    assert(row * n + col == row * n + col);
    vstd::arithmetic::div_mod::lemma_fundamental_div_mod_converse(row * n + col, n, row, col);
}

proof fn lemma_origin(n: int, row: int, col: int)
    requires
        1 <= n,
        0 <= row,
        0 <= col,
    ensures
        row * n + col == 0 <==> row == 0 && col == 0,
{
    assert(row * n + col == 0 <==> row == 0 && col == 0) by (nonlinear_arith)
        requires
            1 <= n,
            0 <= row,
            0 <= col,
    ;
}

proof fn lemma_offsets_even(t: int, r: int, c: int)
    requires
        0 <= t < 3,
        0 <= r < 5,
        0 <= c < 5,
    ensures
        COEFF_BASE_CTX_OFFSET[t][r][c] == COEFF_BASE_CTX_OFFSET[t][c][r],
{
    assert(t == 0 || t == 1 || t == 2);
    assert(r == 0 || r == 1 || r == 2 || r == 3 || r == 4);
    assert(c == 0 || c == 1 || c == 2 || c == 3 || c == 4);
}

/// Larger levels around a position do not lower its contexts.
pub proof fn law_contexts_grow(t: int, tx_type: int, a: Seq<i32>, b: Seq<i32>, pos: int)
    requires
        forall|r: int, c: int, cap: int|
            #[trigger] level_at(a, side_of(t), r, c, cap) <= level_at(b, side_of(t), r, c, cap),
    ensures
        base_ctx_of(t, tx_type, a, pos) <= base_ctx_of(t, tx_type, b, pos),
        br_ctx_of(t, tx_type, a, pos) <= br_ctx_of(t, tx_type, b, pos),
{
    reveal(base_mag);
}

/// All levels of a square but the one at a row and column are zero.
pub open spec fn one_level(q: Seq<i32>, n: int, row: int, col: int, v: int) -> bool {
    forall|r: int, c: int, cap: int|
        0 <= cap ==> #[trigger] level_at(q, n, r, c, cap) == if r == row && c == col {
            min_of(v, cap)
        } else {
            0
        }
}

/// What one level alone does to the contexts of a position that lies `down` rows above it
/// and `right` columns to its left. With a transform both ways the base level looks one and
/// two steps to the right and down, and one step both ways; along one axis it looks four
/// steps that way and one step the other. The range looks less far.
pub proof fn law_one_neighbour(
    t: int,
    tx_type: int,
    q: Seq<i32>,
    row: int,
    col: int,
    down: int,
    right: int,
    v: int,
)
    requires
        0 <= t < 3,
        0 <= row < side_of(t),
        0 <= col < side_of(t),
        row + col > 0,
        0 <= down,
        0 <= right,
        down + right > 0,
        1 <= v,
        one_level(q, side_of(t), row + down, col + right, v),
    ensures
        ({
            let n = side_of(t);
            let pos = row * n + col;
            let none = Seq::new((n * n) as nat, |i: int| 0i32);
            let class = tx_class_of(tx_type);
            let seen = (down == 0 && right == 1) || (down == 1 && right == 0) || if class
                == TX_CLASS_2D {
                (down == 1 && right == 1) || (down == 0 && right == 2) || (down == 2 && right == 0)
            } else if class == TX_CLASS_HORIZ {
                down == 0 && right <= 4
            } else {
                right == 0 && down <= 4
            };
            let near = (down == 0 && right == 1) || (down == 1 && right == 0) || if class
                == TX_CLASS_2D {
                down == 1 && right == 1
            } else if class == TX_CLASS_HORIZ {
                down == 0 && right == 2
            } else {
                right == 0 && down == 2
            };
            &&& base_ctx_of(t, tx_type, q, pos) - base_ctx_of(t, tx_type, none, pos) == if seen {
                (min_of(v, 3) + 1) / 2
            } else {
                0
            }
            &&& br_ctx_of(t, tx_type, q, pos) - br_ctx_of(t, tx_type, none, pos) == if near {
                min_of((min_of(v, 15) + 1) / 2, 6)
            } else {
                0
            }
        }),
{
    reveal(base_mag);
    let n = side_of(t);
    let pos = row * n + col;
    lemma_place(n, row, col);
    lemma_origin(n, row, col);
    let none = Seq::new((n * n) as nat, |i: int| 0i32);
    assert forall|r: int, c: int, cap: int| 0 <= cap implies #[trigger] level_at(
        none,
        n,
        r,
        c,
        cap,
    ) == 0 by {
        if 0 <= r < n && 0 <= c < n {
            crate::coeff::lemma_cell(n, r, c);
        }
    }
}

// ---------------------------------------------------------------------------
// Contexts of blocks
// ---------------------------------------------------------------------------

proof fn lemma_signs_agree(row: Seq<u8>, start: int, n: int, limit: int, v: u8)
    requires
        0 <= start,
        0 <= n,
        start + n <= limit,
        start + n <= row.len(),
        forall|i: int| start <= i < start + n ==> #[trigger] row[i] == v,
    ensures
        ctx_signs(row, start, n, limit) == if v == 1 {
            -n
        } else if v == 2 {
            n
        } else {
            0
        },
    decreases n,
{
    if n > 0 {
        lemma_signs_agree(row, start, n - 1, limit, v);
        assert(row[start + n - 1] == v);
    }
}

/// The sign of the first coefficient is read as the signs of the neighbours suggest:
/// context 1 beside negative ones, 2 beside positive ones, 0 beside none.
pub proof fn law_sign_context(blk: TxBlockCtx, c: CtxModel, v: u8)
    requires
        blk.tx_size < 19,
        blk.plane < 3,
        ({
            let p = blk.plane as int;
            let w4 = TX_WIDTH[blk.tx_size as int] as int / 4;
            let h4 = TX_HEIGHT[blk.tx_size as int] as int / 4;
            &&& blk.x4 + w4 <= blk.max_x4
            &&& blk.y4 + h4 <= blk.max_y4
            &&& blk.x4 + w4 <= c.above_dc[p].len()
            &&& blk.y4 + h4 <= c.left_dc[p].len()
            &&& forall|i: int| blk.x4 <= i < blk.x4 + w4 ==> #[trigger] c.above_dc[p][i] == v
            &&& forall|i: int| blk.y4 <= i < blk.y4 + h4 ==> #[trigger] c.left_dc[p][i] == v
        }),
        v <= 2,
    ensures
        dc_sign_of(blk, c) == v,
{
    let p = blk.plane as int;
    let w4 = TX_WIDTH[blk.tx_size as int] as int / 4;
    let h4 = TX_HEIGHT[blk.tx_size as int] as int / 4;
    lemma_tx_dims(blk.tx_size as int);
    assert(w4 >= 1 && h4 >= 1);
    lemma_signs_agree(c.above_dc[p], blk.x4 as int, w4, blk.max_x4 as int, v);
    lemma_signs_agree(c.left_dc[p], blk.y4 as int, h4, blk.max_y4 as int, v);
}

/// A block that codes coefficients leaves beside itself the sum of their magnitudes, at
/// most 63, and the sign of the first one; what lies elsewhere stays. A block without
/// coefficients leaves zeros.
pub proof fn law_block_leaves_contexts(s: CState, c: CtxModel, blk: TxBlockCtx)
    requires
        blk.tx_size < 19,
        blk.plane < 3,
        c.above_level.len() == 3,
        c.left_level.len() == 3,
        c.above_dc.len() == 3,
        c.left_dc.len() == 3,
        coeffs_of(s, c, blk).result matches Ok(d) && 0 <= d.eob <= TX_WIDTH[blk.tx_size as int]
            * TX_HEIGHT[blk.tx_size as int],
    ensures
        ({
            let m = coeffs_of(s, c, blk);
            let d = m.result->Ok_0;
            let p = blk.plane as int;
            let w4 = TX_WIDTH[blk.tx_size as int] as int / 4;
            let h4 = TX_HEIGHT[blk.tx_size as int] as int / 4;
            let total = magnitudes(d.quant, scan_of(blk.tx_size as int, d.tx_type), d.eob);
            let level = if d.eob == 0 {
                0
            } else {
                min_of(total, 63)
            };
            &&& forall|i: int|
                0 <= i < c.above_level[p].len() ==> #[trigger] m.ctx.above_level[p][i] == if blk.x4
                    <= i < blk.x4 + w4 {
                    level
                } else {
                    c.above_level[p][i] as int
                }
            &&& forall|i: int|
                0 <= i < c.left_level[p].len() ==> #[trigger] m.ctx.left_level[p][i] == if blk.y4
                    <= i < blk.y4 + h4 {
                    level
                } else {
                    c.left_level[p][i] as int
                }
            &&& forall|i: int|
                0 <= i < c.above_dc[p].len() && blk.x4 <= i < blk.x4 + w4 && d.eob > 0 ==> {
                    &&& d.quant[0] < 0 ==> #[trigger] m.ctx.above_dc[p][i] == 1
                    &&& d.quant[0] > 0 ==> m.ctx.above_dc[p][i] == 2
                }
            &&& forall|i: int|
                0 <= i < c.left_dc[p].len() && blk.y4 <= i < blk.y4 + h4 && d.eob > 0 ==> {
                    &&& d.quant[0] < 0 ==> #[trigger] m.ctx.left_dc[p][i] == 1
                    &&& d.quant[0] > 0 ==> m.ctx.left_dc[p][i] == 2
                }
        }),
{
    reveal(coeffs_of);
    let t = blk.tx_size as int;
    let m = coeffs_of(s, c, blk);
    let d = m.result->Ok_0;
    let ptype = plane_type(blk.plane as int);
    let k = CoeffKey::TxbSkip(sz_ctx(t), all_zero_of(blk, c));
    if c_val(s, k) != 1 {
        let s1 = c_next(s, k);
        let tx_type = tx_type_of(blk, coded_tx_type(s1, blk));
        let (eob, s3) = eob_of(tx_type_next(s1, blk), t, ptype, tx_type);
        let (q, s4) = levels_of(s3, t, ptype, tx_type, eob, eob);
        let st = SignState { s: s4, q, sum: 0, dc: 0 };
        let scan = scan_of(t, tx_type);
        assert(d.eob == eob && d.tx_type == tx_type);
        assert(has_scan(t));
        assert(t == 0 || t == 1 || t == 2);
        assert(4 * 4 == 16int && 8 * 8 == 64int && 16 * 16 == 256int);
        assert(TX_WIDTH[t] == TX_HEIGHT[t]);
        assert(square_area(t) == TX_WIDTH[t] * TX_HEIGHT[t]) by {
            if t == 0 {
                assert(TX_WIDTH[0] == 4);
            } else if t == 1 {
                assert(TX_WIDTH[1] == 8);
            } else {
                assert(TX_WIDTH[2] == 16);
            }
        }
        if 0 < eob {
            lemma_visits(t, tx_type, eob);
            lemma_levels_len(s3, t, ptype, tx_type, eob, eob);
            law_contexts_describe_block(st, scan, ptype, dc_sign_of(blk, c), eob);
            law_scan_visits_once(t, tx_type, 0, 1);
            assert(scan[0] == 0);
            lemma_magnitudes_positive(d.quant, scan, eob);
        }
    }
}

proof fn lemma_visits(t: int, tx_type: int, n: int)
    requires
        has_scan(t),
        0 <= n <= square_area(t),
    ensures
        visits(scan_of(t, tx_type), n, square_area(t)),
{
    let scan = scan_of(t, tx_type);
    lemma_scan(t, tx_type);
    assert forall|i: int, j: int| 0 <= i < n && 0 <= j < n && i != j implies #[trigger] scan[i]
        != #[trigger] scan[j] by {
        law_scan_visits_once(t, tx_type, i, j);
    }
}

proof fn lemma_levels_len(s: CState, t: int, ptype: int, tx_type: int, eob: int, n: int)
    requires
        0 <= n <= eob,
        0 <= square_area(t),
        visits(scan_of(t, tx_type), eob, square_area(t)),
    ensures
        levels_of(s, t, ptype, tx_type, eob, n).0.len() == square_area(t),
    decreases n,
{
    if n > 0 {
        lemma_levels_len(s, t, ptype, tx_type, eob, n - 1);
        assert(scan_of(t, tx_type)[eob - n] < square_area(t));
    }
}

proof fn lemma_magnitudes_positive(q: Seq<i32>, scan: Seq<u16>, n: int)
    ensures
        0 <= magnitudes(q, scan, n),
    decreases n,
{
    if n > 0 {
        lemma_magnitudes_positive(q, scan, n - 1);
    }
}

proof fn lemma_no_levels(row: Seq<u8>, start: int, n: int, limit: int)
    requires
        forall|i: int| 0 <= i < row.len() ==> #[trigger] row[i] == 0,
    ensures
        ctx_max(row, start, n, limit) == 0,
    decreases n,
{
    if n > 0 {
        lemma_no_levels(row, start, n - 1, limit);
    }
}

/// Beside blocks without coefficients, the flag of no coefficients takes the first table of
/// its kind: for luma one for transforms of the whole block and one for parts of it, for
/// chroma likewise.
pub proof fn law_no_coefficients_around(blk: TxBlockCtx, c: CtxModel)
    requires
        blk.plane < 3,
        blk.tx_size < 19,
        ({
            let p = blk.plane as int;
            &&& forall|i: int| 0 <= i < c.above_level[p].len() ==> #[trigger] c.above_level[p][i]
                == 0
            &&& forall|i: int| 0 <= i < c.left_level[p].len() ==> #[trigger] c.left_level[p][i] == 0
            &&& forall|i: int| 0 <= i < c.above_dc[p].len() ==> #[trigger] c.above_dc[p][i] == 0
            &&& forall|i: int| 0 <= i < c.left_dc[p].len() ==> #[trigger] c.left_dc[p][i] == 0
        }),
    ensures
        ({
            let w = TX_WIDTH[blk.tx_size as int];
            let h = TX_HEIGHT[blk.tx_size as int];
            all_zero_of(blk, c) == if blk.plane == 0 {
                if blk.block_w == w && blk.block_h == h {
                    0int
                } else {
                    1
                }
            } else {
                if blk.block_w * blk.block_h > w * h {
                    10
                } else {
                    7
                }
            }
        }),
{
    let p = blk.plane as int;
    let w4 = TX_WIDTH[blk.tx_size as int] as int / 4;
    let h4 = TX_HEIGHT[blk.tx_size as int] as int / 4;
    lemma_no_levels(c.above_level[p], blk.x4 as int, w4, blk.max_x4 as int);
    lemma_no_levels(c.left_level[p], blk.y4 as int, h4, blk.max_y4 as int);
}

} // verus!
