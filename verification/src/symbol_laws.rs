//! How tables and data decide what is read.
use crate::bits::{bits_at, lemma_pow2i_values, pow2i};
use crate::entropy::{
    bool_cdf, bool_value, cdf_next, cdf_rate, cdf_sorted, cdf_symbols, cdf_wf, lemma_cdf_rate,
    lemma_sym_value, sym_cut, sym_init, sym_search, sym_top, sym_value, SymState,
};
use vstd::prelude::*;

verus! {

/// The share of symbol `k` of a table, in 32768ths.
pub open spec fn share(cdf: Seq<u16>, k: int) -> int {
    if k <= 0 {
        cdf[0] as int
    } else {
        cdf[k] - cdf[k - 1]
    }
}

proof fn lemma_part(c: int, step: int)
    requires
        0 <= c,
        1 <= step,
    ensures
        0 <= c / step <= c,
        c >= step ==> c / step >= 1,
{
    vstd::arithmetic::div_mod::lemma_div_pos_is_pos(c, step);
    vstd::arithmetic::div_mod::lemma_div_is_ordered_by_denominator(c, 1, step);
    if c >= step {
        vstd::arithmetic::div_mod::lemma_div_is_ordered(step, c, step);
    }
}

/// Once a symbol was read its share is larger, or as large as it can get, and no other
/// symbol has a larger share than before.
pub proof fn law_read_symbols_gain(cdf: Seq<u16>, k: int, j: int)
    requires
        cdf_wf(cdf),
        cdf_sorted(cdf),
        0 <= k < cdf_symbols(cdf),
        0 <= j < cdf_symbols(cdf),
    ensures
        share(cdf_next(cdf, k), k) >= share(cdf, k),
        j != k ==> share(cdf_next(cdf, k), j) <= share(cdf, j),
        cdf_symbols(cdf) == 2 && share(cdf, k) <= 32640 ==> share(cdf_next(cdf, k), k) > share(
            cdf,
            k,
        ),
{
    reveal(cdf_next);
    lemma_cdf_rate(cdf);
    let s = pow2i(cdf_rate(cdf));
    let n = cdf.len() - 2;
    assert forall|i: int| 0 <= i <= n implies 0 <= (#[trigger] cdf[i]) as int / s <= cdf[i]
        && 0 <= (
    32768 - cdf[i]) / s <= 32768 - cdf[i] by {
        lemma_part(cdf[i] as int, s);
        lemma_part(32768 - cdf[i], s);
    }
    if j > 0 {
        assert(cdf[j - 1] <= cdf[j]);
        vstd::arithmetic::div_mod::lemma_div_is_ordered(cdf[j - 1] as int, cdf[j] as int, s);
        vstd::arithmetic::div_mod::lemma_div_is_ordered(32768 - cdf[j], 32768 - cdf[j - 1], s);
    }
    assert((32768 - cdf[n]) / s == 0) by {
        assert(cdf[n] == 32768);
    }
    if cdf_symbols(cdf) == 2 {
        assert(n == 1);
        if k == 0 {
            if cdf[0] <= 32640 {
                lemma_part(32768 - cdf[0], s);
            }
        } else {
            if cdf[0] >= 128 {
                lemma_part(cdf[0] as int, s);
            }
        }
    }
}

/// The more often a table was read with, the less a read changes it.
pub proof fn law_tables_settle(a: Seq<u16>, b: Seq<u16>, k: int)
    requires
        cdf_wf(a),
        a.len() == b.len(),
        a[a.len() - 1] <= b[b.len() - 1],
    ensures
        cdf_rate(a) <= cdf_rate(b),
        b[b.len() - 1] > 31 && a[a.len() - 1] <= 15 ==> cdf_rate(b) == cdf_rate(a) + 2,
        cdf_next(a, k).len() == a.len(),
{
    reveal(cdf_next);
}

proof fn lemma_search_order(range: int, v: int, u: int, cdf: Seq<u16>, k: int)
    requires
        v >= u,
    ensures
        sym_search(range, v, cdf, k) <= sym_search(range, u, cdf, k),
        k <= sym_search(range, v, cdf, k),
    decreases cdf.len() - k,
{
    if !(k >= cdf.len() - 2 || v >= sym_cut(range, cdf, k)) {
        lemma_search_order(range, v, u, cdf, k + 1);
    } else if !(k >= cdf.len() - 2 || u >= sym_cut(range, cdf, k)) {
        lemma_search_order(range, u, u, cdf, k + 1);
    }
}

/// No symbol is negative.
pub proof fn lemma_symbol_sign(st: SymState, cdf: Seq<u16>)
    ensures
        sym_value(st, cdf) >= 0,
{
    reveal(sym_value);
    lemma_search_order(st.range, st.value, st.value, cdf, 0);
}

/// At the start of the data, larger data reads a symbol that is not smaller.
pub proof fn law_larger_data_larger_symbol(d: Seq<u8>, e: Seq<u8>, cdf: Seq<u16>)
    requires
        2 <= d.len(),
        2 <= e.len(),
        bits_at(d, 0, 15) <= bits_at(e, 0, 15),
    ensures
        sym_value(sym_init(d, 0), cdf) <= sym_value(sym_init(e, 0), cdf),
{
    reveal(sym_value);
    lemma_pow2i_values();
    assert(bits_at(d, 0, 15) * 1 == bits_at(d, 0, 15));
    assert(bits_at(e, 0, 15) * 1 == bits_at(e, 0, 15));
    lemma_search_order(
        32768,
        sym_init(d, 0).value,
        sym_init(e, 0).value,
        cdf,
        0,
    );
}

/// The first fair bit of the data is its first bit, but for data that comes within four of
/// the next half from below.
pub proof fn law_first_fair_bit(d: Seq<u8>)
    requires
        2 <= d.len(),
    ensures
        bits_at(d, 0, 15) >= 16384 ==> bool_value(sym_init(d, 0)),
        bits_at(d, 0, 15) < 16380 ==> !bool_value(sym_init(d, 0)),
{
    reveal(sym_value);
    lemma_pow2i_values();
    let st = sym_init(d, 0);
    let c = bool_cdf();
    assert(bits_at(d, 0, 15) * 1 == bits_at(d, 0, 15));
    assert(sym_cut(32768, c, 0) == 16388) by {
        assert(32768int / 256 == 128);
        assert((32768 - c[0]) / 64 == 256);
        assert(128 * 256 == 32768int);
    }
    assert(sym_search(32768, st.value, c, 1) == 1);
}

/// The values that stand for a symbol are as many as its share of the range, in steps of
/// 64, and a few that every symbol has.
pub proof fn law_values_by_share(st: SymState, cdf: Seq<u16>, k: int)
    requires
        st.wf(),
        cdf_wf(cdf),
        1 <= k < cdf_symbols(cdf),
        cdf[k] % 64 == 0,
        cdf[k - 1] % 64 == 0,
    ensures
        ({
            let width = sym_top(st.range, cdf, k) - sym_cut(st.range, cdf, k);
            let exact = (st.range / 256) * (share(cdf, k) / 64);
            exact - 1 <= 2 * (width - 4) <= exact + 1
        }),
{
    let r = st.range / 256;
    let a = (32768 - cdf[k - 1]) / 64;
    let b = (32768 - cdf[k]) / 64;
    assert(share(cdf, k) / 64 == a - b);
    assert(r * a == r * b + r * (a - b)) by (nonlinear_arith);
}

/// The symbol that is read is the one whose values hold that of the decoder.
pub proof fn law_symbol_holds_value(st: SymState, cdf: Seq<u16>, k: int)
    requires
        st.wf(),
        cdf_wf(cdf),
        cdf_sorted(cdf),
        0 <= k < cdf_symbols(cdf),
    ensures
        sym_value(st, cdf) == k <==> sym_cut(st.range, cdf, k) <= st.value < sym_top(
            st.range,
            cdf,
            k,
        ),
{
    lemma_sym_value(st, cdf);
    let j = sym_value(st, cdf);
    if j < k {
        lemma_cuts_fall(st.range, cdf, j, k - 1);
    } else if k < j {
        lemma_cuts_fall(st.range, cdf, k, j - 1);
    }
}

proof fn lemma_cuts_fall(range: int, cdf: Seq<u16>, i: int, j: int)
    requires
        32768 <= range < 65536,
        cdf_wf(cdf),
        cdf_sorted(cdf),
        0 <= i <= j < cdf_symbols(cdf),
    ensures
        sym_cut(range, cdf, j) <= sym_cut(range, cdf, i),
{
    let r = range / 256;
    let a = (32768 - cdf[i]) / 64;
    let b = (32768 - cdf[j]) / 64;
    assert(cdf[i] <= cdf[j]);
    assert(r * b <= r * a) by (nonlinear_arith)
        requires
            b <= a,
            0 <= r,
    ;
}

} // verus!
