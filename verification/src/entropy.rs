//! The adaptive multi-symbol range decoder.
//!
//! A probability table for `n` symbols has `n + 1` entries: `n` cumulative
//! probabilities in units of 1/32768, the last of them 32768, and a counter of
//! how often the table has adapted. The decoder keeps a range and a value below
//! it; a symbol is the first whose cut lies at or below the value.
use crate::bits::{
    bit_at, bits_at, floor_log2, lemma_bit_range, lemma_bits_range, lemma_floor_log2,
    lemma_pow2i_mono, lemma_pow2i_values, lemma_shl_pow2, pow2i,
};
use crate::trace::{no_trace, push_symbol_trace, recorded, SymbolTrace, TraceModel};
use vstd::prelude::*;

verus! {

/// Where the decoder stops counting bits that it would have needed.
pub const MAX_BITS_FLOOR: i64 = -0x4000_0000_0000_0000;

/// The state of a symbol decoder.
#[verifier::ext_equal]
pub struct SymState {
    /// The coded bytes.
    pub data: Seq<u8>,
    /// The position of the next bit.
    pub pos: int,
    /// The value, below the range.
    pub value: int,
    /// The range, at least 32768 and below 65536.
    pub range: int,
    /// The number of coded bits left; negative when padding has been read.
    pub max_bits: int,
    /// The record of the symbols that were read.
    pub trace: TraceModel,
}

/// The larger of a number and zero.
pub open spec fn at_least_0(x: int) -> int {
    if x < 0 {
        0
    } else {
        x
    }
}

/// The smaller of two numbers.
pub open spec fn min_of(a: int, b: int) -> int {
    if a <= b {
        a
    } else {
        b
    }
}

impl SymState {
    /// The range is normalized, the value lies below it, and the counters fit.
    pub open spec fn wf(self) -> bool {
        &&& 32768 <= self.range < 65536
        &&& 0 <= self.value < self.range
        &&& 0 <= self.pos
        &&& self.pos + at_least_0(self.max_bits) <= usize::MAX
        &&& MAX_BITS_FLOOR - 16 <= self.max_bits <= i64::MAX
        &&& 8 * self.data.len() <= usize::MAX
    }
}

/// The number of symbols of a table.
pub open spec fn cdf_symbols(cdf: Seq<u16>) -> int {
    cdf.len() - 1
}

/// A table of between two and sixty-four symbols whose probabilities end in one.
pub open spec fn cdf_wf(cdf: Seq<u16>) -> bool {
    &&& 3 <= cdf.len() <= 65
    &&& cdf[cdf.len() - 2] == 32768
    &&& forall|i: int| 0 <= i < cdf.len() - 1 ==> #[trigger] cdf[i] <= 32768
}

/// The cumulative probabilities of a table do not decrease.
pub open spec fn cdf_sorted(cdf: Seq<u16>) -> bool {
    forall|i: int, j: int| 0 <= i <= j < cdf.len() - 1 ==> cdf[i] <= cdf[j]
}

/// The cut of symbol `k`: its share of the range, and a least share for every
/// symbol behind it.
pub open spec fn sym_cut(range: int, cdf: Seq<u16>, k: int) -> int {
    ((range / 256) * ((32768 - cdf[k]) / 64)) / 2 + 4 * (cdf_symbols(cdf) - k - 1)
}

/// The first symbol from `k` on whose cut lies at or below the value.
pub open spec fn sym_search(range: int, value: int, cdf: Seq<u16>, k: int) -> int
    decreases cdf.len() - k,
{
    if k >= cdf.len() - 2 || value >= sym_cut(range, cdf, k) {
        k
    } else {
        sym_search(range, value, cdf, k + 1)
    }
}

/// The symbol that is read next with the table `cdf`.
#[verifier::opaque]
pub open spec fn sym_value(st: SymState, cdf: Seq<u16>) -> int {
    sym_search(st.range, st.value, cdf, 0)
}

/// The upper end of the part of the range that stands for symbol `k`.
pub open spec fn sym_top(range: int, cdf: Seq<u16>, k: int) -> int {
    if k <= 0 {
        range
    } else {
        sym_cut(range, cdf, k - 1)
    }
}

/// The state once the range has shrunk to `width` above `low`: it is doubled
/// until normalized, and the value is refilled with complemented bits.
pub open spec fn sym_renormalized(st: SymState, low: int, width: int) -> SymState {
    let bits = 15 - floor_log2(width);
    let num = min_of(bits, at_least_0(st.max_bits));
    let padded = bits_at(st.data, st.pos, num) * pow2i(bits - num);
    SymState {
        data: st.data,
        pos: st.pos + num,
        value: (st.value - low + 1) * pow2i(bits) - 1 - padded,
        range: width * pow2i(bits),
        max_bits: if st.max_bits < MAX_BITS_FLOOR {
            st.max_bits
        } else {
            st.max_bits - bits
        },
        trace: st.trace,
    }
}

/// The state after a symbol is read with the table `cdf`. The read is recorded.
#[verifier::opaque]
pub open spec fn sym_next(st: SymState, cdf: Seq<u16>) -> SymState {
    let k = sym_value(st, cdf);
    let cut = sym_cut(st.range, cdf, k);
    let next = sym_renormalized(st, cut, sym_top(st.range, cdf, k) - cut);
    SymState { trace: recorded(st.trace, cdf_symbols(cdf), k, st.pos, next.pos), ..next }
}

/// The binary logarithm of the adaptation divisor: slower the more often a table
/// has adapted and the more symbols it has.
pub open spec fn cdf_rate(cdf: Seq<u16>) -> int {
    let count = cdf[cdf.len() - 1];
    3 + (if count > 15 {
        1int
    } else {
        0
    }) + (if count > 31 {
        1int
    } else {
        0
    }) + min_of(floor_log2(cdf_symbols(cdf)), 2)
}

/// The table after symbol `k` was read: probabilities below it move toward zero,
/// the others toward one, and the counter moves up to 32.
#[verifier::opaque]
pub open spec fn cdf_next(cdf: Seq<u16>, k: int) -> Seq<u16> {
    Seq::new(
        cdf.len(),
        |i: int|
            if i < cdf.len() - 2 {
                let step = pow2i(cdf_rate(cdf));
                if i < k {
                    (cdf[i] - cdf[i] as int / step) as u16
                } else {
                    (cdf[i] + (32768 - cdf[i]) / step) as u16
                }
            } else if i == cdf.len() - 1 && cdf[i] < 32 {
                (cdf[i] + 1) as u16
            } else {
                cdf[i]
            },
    )
}

/// The table for a fair bit.
pub open spec fn bool_cdf() -> Seq<u16> {
    seq![16384u16, 32768u16, 0u16]
}

/// The fair bit that is read next.
pub open spec fn bool_value(st: SymState) -> bool {
    sym_value(st, bool_cdf()) == 1
}

/// The state after a fair bit is read.
pub open spec fn bool_next(st: SymState) -> SymState {
    sym_next(st, bool_cdf())
}

/// One for a set bit.
pub open spec fn bool_int(b: bool) -> int {
    if b {
        1
    } else {
        0
    }
}

/// The state after `n` fair bits are read.
pub open spec fn literal_next(st: SymState, n: int) -> SymState
    decreases n,
{
    if n <= 0 {
        st
    } else {
        bool_next(literal_next(st, n - 1))
    }
}

/// The number that the next `n` fair bits spell.
pub open spec fn literal_value(st: SymState, n: int) -> int
    decreases n,
{
    if n <= 0 {
        0
    } else {
        2 * literal_value(st, n - 1) + bool_int(bool_value(literal_next(st, n - 1)))
    }
}

/// The state of a decoder that starts `offset` bits into `data`.
pub open spec fn sym_init(data: Seq<u8>, offset: int) -> SymState {
    let remaining = at_least_0(8 * data.len() - offset);
    let num = min_of(remaining, 15);
    SymState {
        data,
        pos: offset + num,
        value: 32767 - bits_at(data, offset, num) * pow2i(15 - num),
        range: 32768,
        max_bits: remaining - 15,
        trace: no_trace(),
    }
}

/// Reading with the table that `bank` holds for `k` gives the symbol `r`, and leaves
/// the tables `bank2` and the decoder state `st2`: the one table has adapted.
pub open spec fn table_read<K>(
    bank: Map<K, Seq<u16>>,
    st: SymState,
    k: K,
    r: usize,
    bank2: Map<K, Seq<u16>>,
    st2: SymState,
) -> bool {
    &&& r == sym_value(st, bank[k])
    &&& st2 == sym_next(st, bank[k])
    &&& bank2 == bank.insert(k, cdf_next(bank[k], r as int))
}

/// A decoder together with the tables that its symbols are read with.
#[verifier::ext_equal]
#[verifier::reject_recursive_types(K)]
pub struct Coder<K> {
    pub sym: SymState,
    pub bank: Map<K, Seq<u16>>,
}

impl<K> Coder<K> {
    /// The symbol that is read next with table `k`.
    pub open spec fn val(self, k: K) -> int {
        sym_value(self.sym, self.bank[k])
    }

    /// The decoder after a symbol is read with table `k`, which has adapted.
    pub open spec fn next(self, k: K) -> Coder<K> {
        Coder {
            sym: sym_next(self.sym, self.bank[k]),
            bank: self.bank.insert(k, cdf_next(self.bank[k], self.val(k))),
        }
    }
}

// ---------------------------------------------------------------------------
// Facts about the model
// ---------------------------------------------------------------------------

proof fn lemma_cut_range(range: int, cdf: Seq<u16>, k: int)
    requires
        cdf_wf(cdf),
        0 <= range < 65536,
        0 <= k < cdf.len() - 1,
    ensures
        0 <= sym_cut(range, cdf, k) <= 65280 + 4 * (cdf_symbols(cdf) - k - 1),
        0 <= (range / 256) * ((32768 - cdf[k]) / 64) <= 130560,
        k == cdf.len() - 2 ==> sym_cut(range, cdf, k) == 0,
{
    let a = range / 256;
    let b = (32768 - cdf[k]) / 64;
    assert(0 <= b <= 512);
    assert(0 <= a * b <= 130560) by (nonlinear_arith)
        requires
            0 <= a <= 255,
            0 <= b <= 512,
    ;
    if k == cdf.len() - 2 {
        assert(a * b == 0) by (nonlinear_arith)
            requires
                b == 0,
        ;
    }
}

/// The search finds a symbol whose part of the range holds the value.
proof fn lemma_search(range: int, value: int, cdf: Seq<u16>, k: int)
    requires
        cdf_wf(cdf),
        0 <= range < 65536,
        0 <= value < sym_top(range, cdf, k),
        0 <= k < cdf.len() - 1,
    ensures
        ({
            let s = sym_search(range, value, cdf, k);
            &&& k <= s < cdf.len() - 1
            &&& sym_cut(range, cdf, s) <= value < sym_top(range, cdf, s)
        }),
    decreases cdf.len() - k,
{
    lemma_cut_range(range, cdf, k);
    if k < cdf.len() - 2 && value < sym_cut(range, cdf, k) {
        lemma_search(range, value, cdf, k + 1);
    }
}

/// A symbol is one of the table's, and its part of the range holds the value.
pub proof fn lemma_sym_value(st: SymState, cdf: Seq<u16>)
    requires
        st.wf(),
        cdf_wf(cdf),
    ensures
        ({
            let k = sym_value(st, cdf);
            &&& 0 <= k < cdf_symbols(cdf)
            &&& 0 <= sym_cut(st.range, cdf, k) <= st.value < sym_top(st.range, cdf, k) < 65536
        }),
{
    reveal(sym_value);
    lemma_search(st.range, st.value, cdf, 0);
    let k = sym_value(st, cdf);
    lemma_cut_range(st.range, cdf, k);
    if k > 0 {
        lemma_cut_range(st.range, cdf, k - 1);
    }
}

/// Doubling a part of the range until it is normalized keeps the invariant.
proof fn lemma_renormalized(st: SymState, low: int, width: int)
    requires
        st.wf(),
        0 <= low <= st.value < low + width,
        1 <= width < 65536,
    ensures
        sym_renormalized(st, low, width).wf(),
        ({
            let bits = 15 - floor_log2(width);
            let num = min_of(bits, at_least_0(st.max_bits));
            &&& 0 <= bits <= 15
            &&& 0 <= num <= bits
            &&& 1 <= pow2i(bits) <= 32768
            &&& 0 <= bits_at(st.data, st.pos, num) * pow2i(bits - num) < pow2i(bits)
            &&& 32768 <= width * pow2i(bits) < 65536
            &&& 0 < (st.value - low + 1) * pow2i(bits) <= width * pow2i(bits)
            &&& (st.value - low + 1) * pow2i(bits) >= pow2i(bits)
        }),
{
    let fl = floor_log2(width);
    lemma_floor_log2(width);
    lemma_pow2i_values();
    if fl > 15 {
        lemma_pow2i_mono(16, fl);
    }
    let bits = 15 - fl;
    let num = min_of(bits, at_least_0(st.max_bits));
    lemma_pow2i_mono(0, bits);
    lemma_pow2i_mono(bits, 15);
    lemma_pow2_sum(fl, bits);
    lemma_pow2_sum(fl + 1, bits);
    assert(pow2i(fl) * pow2i(bits) == 32768);
    assert(pow2i(fl + 1) * pow2i(bits) == 65536);
    let pb = pow2i(bits);
    assert(32768 <= width * pb < 65536) by (nonlinear_arith)
        requires
            pow2i(fl) <= width < pow2i(fl + 1),
            pow2i(fl) * pb == 32768,
            pow2i(fl + 1) * pb == 65536,
            pb >= 1,
    ;
    let v = st.value - low;
    assert(0 < (v + 1) * pb <= width * pb) by (nonlinear_arith)
        requires
            0 <= v < width,
            pb >= 1,
    ;
    assert((v + 1) * pb >= pb) by (nonlinear_arith)
        requires
            0 <= v,
            pb >= 1,
    ;
    lemma_bits_range(st.data, st.pos, num);
    lemma_pow2_sum(num, bits - num);
    lemma_pow2i_mono(0, bits - num);
    let b = bits_at(st.data, st.pos, num);
    assert(0 <= b * pow2i(bits - num) < pb) by (nonlinear_arith)
        requires
            0 <= b < pow2i(num),
            pow2i(num) * pow2i(bits - num) == pb,
            pow2i(bits - num) >= 1,
    ;
}

/// Exponents of a product of powers of two add up.
pub proof fn lemma_pow2_sum(a: int, b: int)
    requires
        0 <= a,
        0 <= b,
    ensures
        pow2i(a) * pow2i(b) == pow2i(a + b),
    decreases b,
{
    if b == 0 {
        assert(pow2i(a) * pow2i(b) == pow2i(a)) by (nonlinear_arith)
            requires
                pow2i(b) == 1,
        ;
    } else {
        lemma_pow2_sum(a, b - 1);
        assert(pow2i(a + b) == 2 * pow2i(a + b - 1));
        assert(pow2i(a) * pow2i(b) == 2 * (pow2i(a) * pow2i(b - 1))) by (nonlinear_arith)
            requires
                pow2i(b) == 2 * pow2i(b - 1),
        ;
    }
}

/// Reading a symbol keeps the decoder's invariant.
pub proof fn lemma_sym_next_wf(st: SymState, cdf: Seq<u16>)
    requires
        st.wf(),
        cdf_wf(cdf),
    ensures
        sym_next(st, cdf).wf(),
        sym_next(st, cdf).data == st.data,
{
    reveal(sym_next);
    lemma_sym_value(st, cdf);
    let k = sym_value(st, cdf);
    let cut = sym_cut(st.range, cdf, k);
    lemma_renormalized(st, cut, sym_top(st.range, cdf, k) - cut);
}

/// The adaptation divisor is between 16 and 128.
pub proof fn lemma_cdf_rate(cdf: Seq<u16>)
    requires
        cdf_wf(cdf),
    ensures
        4 <= cdf_rate(cdf) <= 7,
        16 <= pow2i(cdf_rate(cdf)) <= 128,
{
    lemma_floor_log2(cdf_symbols(cdf));
    lemma_pow2i_values();
    assert(floor_log2(cdf_symbols(cdf)) >= 1);
    lemma_pow2i_mono(4, cdf_rate(cdf));
    lemma_pow2i_mono(cdf_rate(cdf), 7);
}

/// A share of a number lies between zero and the number.
proof fn lemma_share(c: int, step: int)
    requires
        0 <= c,
        1 <= step,
    ensures
        0 <= c / step <= c,
{
    vstd::arithmetic::div_mod::lemma_div_pos_is_pos(c, step);
    vstd::arithmetic::div_mod::lemma_div_is_ordered_by_denominator(c, 1, step);
}

/// Adapting a table keeps it a table.
pub proof fn lemma_cdf_next_wf(cdf: Seq<u16>, k: int)
    requires
        cdf_wf(cdf),
    ensures
        cdf_wf(cdf_next(cdf, k)),
        cdf_next(cdf, k).len() == cdf.len(),
{
    reveal(cdf_next);
    lemma_cdf_rate(cdf);
    let step = pow2i(cdf_rate(cdf));
    assert forall|i: int| 0 <= i < cdf.len() - 1 implies #[trigger] cdf_next(cdf, k)[i] <= 32768 by {
        assert(cdf[i] <= 32768);
        lemma_share(cdf[i] as int, step);
        lemma_share(32768 - cdf[i], step);
    }
}

/// Adapting a table keeps its probabilities in order, and its counter within 32.
pub proof fn law_cdf_stays_sorted(cdf: Seq<u16>, k: int)
    requires
        cdf_wf(cdf),
        cdf_sorted(cdf),
    ensures
        cdf_sorted(cdf_next(cdf, k)),
        cdf[cdf.len() - 1] <= 32 ==> cdf_next(cdf, k)[cdf.len() - 1] <= 32,
{
    reveal(cdf_next);
    lemma_cdf_rate(cdf);
    lemma_cdf_next_wf(cdf, k);
    let step = pow2i(cdf_rate(cdf));
    let next = cdf_next(cdf, k);
    assert forall|i: int, j: int| 0 <= i <= j < next.len() - 1 implies next[i] <= next[j] by {
        let a = cdf[i] as int;
        let b = cdf[j] as int;
        assert(a <= b <= 32768);
        lemma_share(a, step);
        lemma_share(b, step);
        lemma_share(32768 - a, step);
        lemma_share(32768 - b, step);
        lemma_share_mono(a, b, step);
        lemma_share_mono(32768 - b, 32768 - a, step);
    }
}

/// Shares grow no faster than what they are taken of.
proof fn lemma_share_mono(a: int, b: int, step: int)
    requires
        0 <= a <= b,
        1 <= step,
    ensures
        a / step <= b / step <= a / step + (b - a),
{
    vstd::arithmetic::div_mod::lemma_div_is_ordered(a, b, step);
    vstd::arithmetic::div_mod::lemma_fundamental_div_mod(a, step);
    vstd::arithmetic::div_mod::lemma_fundamental_div_mod(b, step);
    let qa = a / step;
    let qb = b / step;
    assert(qb <= qa + (b - a)) by (nonlinear_arith)
        requires
            a == step * qa + a % step,
            b == step * qb + b % step,
            0 <= a % step < step,
            0 <= b % step < step,
            a <= b,
            1 <= step,
    ;
}

/// The bit table is a table.
pub proof fn lemma_bool_cdf()
    ensures
        cdf_wf(bool_cdf()),
        cdf_symbols(bool_cdf()) == 2,
{
}

/// Reading fair bits keeps the decoder's invariant, and `n` of them spell a number
/// below two to the power `n`.
pub proof fn lemma_literal(st: SymState, n: int)
    requires
        st.wf(),
        0 <= n,
    ensures
        literal_next(st, n).wf(),
        literal_next(st, n).data == st.data,
        0 <= literal_value(st, n) < pow2i(n),
    decreases n,
{
    if n > 0 {
        lemma_literal(st, n - 1);
        lemma_bool_cdf();
        lemma_sym_next_wf(literal_next(st, n - 1), bool_cdf());
    }
}

// ---------------------------------------------------------------------------
// The decoder
// ---------------------------------------------------------------------------

/// The position of the highest one bit.
pub fn floor_log2_of(x: u32) -> (r: u32)
    requires
        1 <= x < 0x8000_0000,
    ensures
        r == floor_log2(x as int),
        r <= 30,
{
    let mut s: u32 = 0;
    let mut y: u32 = x;
    proof {
        lemma_floor_log2(x as int);
    }
    while y >= 2
        invariant
            1 <= y,
            s + floor_log2(y as int) == floor_log2(x as int),
            0 <= floor_log2(y as int),
            floor_log2(x as int) <= 30,
        decreases y,
    {
        proof {
            lemma_floor_log2(y as int / 2);
        }
        y = y / 2;
        s = s + 1;
    }
    s
}

/// The symbol decoder over a byte string. Behind its end it reads zeros.
pub struct SymbolDecoder<'a> {
    data: &'a [u8],
    bit_pos: usize,
    symbol_value: u32,
    symbol_range: u32,
    symbol_max_bits: i64,
    trace: SymbolTrace,
}

impl<'a> View for SymbolDecoder<'a> {
    type V = SymState;

    closed spec fn view(&self) -> SymState {
        SymState {
            data: self.data@,
            pos: self.bit_pos as int,
            value: self.symbol_value as int,
            range: self.symbol_range as int,
            max_bits: self.symbol_max_bits as int,
            trace: self.trace@,
        }
    }
}

impl<'a> SymbolDecoder<'a> {
    /// A decoder that starts at the first bit of `data`.
    pub fn new(data: &'a [u8]) -> (r: Self)
        requires
            8 * data@.len() <= usize::MAX,
            8 * data@.len() <= i64::MAX,
        ensures
            r@ == sym_init(data@, 0),
            r@.wf(),
    {
        Self::new_with_bit_offset(data, 0)
    }

    /// A decoder that starts `bit_offset` bits into `data`. Its first window and its
    /// bit budget are those of the data from there on.
    pub fn new_with_bit_offset(data: &'a [u8], bit_offset: usize) -> (r: Self)
        requires
            8 * data@.len() <= usize::MAX,
            8 * data@.len() <= i64::MAX,
        ensures
            r@ == sym_init(data@, bit_offset as int),
            r@.wf(),
    {
        let total: usize = data.len() * 8;
        let remaining: usize = if total >= bit_offset {
            total - bit_offset
        } else {
            0
        };
        let num: u32 = if remaining < 15 {
            remaining as u32
        } else {
            15
        };
        let mut dec: SymbolDecoder = SymbolDecoder {
            data,
            bit_pos: bit_offset,
            symbol_value: 0,
            symbol_range: 32768,
            symbol_max_bits: remaining as i64 - 15,
            trace: SymbolTrace::new(),
        };
        let buf: u32 = dec.f(num);
        proof {
            lemma_pow2i_values();
            lemma_bits_range(data@, bit_offset as int, num as int);
            lemma_pow2_sum(num as int, 15 - num);
            lemma_pow2i_mono(0, 15 - num);
            lemma_pow2i_mono(15 - num, 15);
            lemma_shl_pow2((15 - num) as u32);
            assert(0 <= buf * pow2i(15 - num) < 32768) by (nonlinear_arith)
                requires
                    0 <= buf < pow2i(num as int),
                    pow2i(num as int) * pow2i(15 - num) == 32768,
                    pow2i(15 - num) >= 1,
            ;
        }
        let scale: u32 = 1u32 << (15 - num);
        dec.symbol_value = 32767 - buf * scale;
        dec
    }

    /// How far the decoder has read, the bits that are left, and the bits in all.
    pub fn dbg_bit_pos(&self) -> (r: (usize, i64, usize))
        requires
            self@.wf(),
        ensures
            r.0 == self@.pos,
            r.1 == self@.max_bits,
            r.2 == 8 * self@.data.len(),
    {
        (self.bit_pos, self.symbol_max_bits, self.data.len() * 8)
    }

    /// The position of the next bit.
    pub fn bit_position(&self) -> (r: usize)
        ensures
            r == self@.pos,
    {
        self.bit_pos
    }

    /// The record of the symbols that were read.
    pub fn trace(&self) -> (r: &SymbolTrace)
        ensures
            r@ == self@.trace,
    {
        &self.trace
    }

    /// Exchanges the record of the symbols that were read. A decoder starts with one that
    /// is off.
    pub fn swap_trace(&mut self, t: &mut SymbolTrace)
        ensures
            final(self)@ == (SymState { trace: old(t)@, ..old(self)@ }),
            final(t)@ == old(self)@.trace,
    {
        core::mem::swap(&mut self.trace, t);
    }

    /// The bytes from byte `from` on.
    pub fn bytes_from(&self, from: usize) -> (r: Vec<u8>)
        ensures
            r@ == if from < self@.data.len() {
                self@.data.skip(from as int)
            } else {
                Seq::<u8>::empty()
            },
    {
        let mut r: Vec<u8> = Vec::new();
        if from < self.data.len() {
            let mut i: usize = from;
            while i < self.data.len()
                invariant
                    from <= i <= self.data@.len(),
                    r@.len() == i - from,
                    forall|k: int| 0 <= k < r@.len() ==> #[trigger] r@[k] == self.data@[from + k],
                decreases self.data.len() - i,
            {
                r.push(self.data[i]);
                i = i + 1;
            }
            assert(r@ =~= self@.data.skip(from as int));
        }
        r
    }

    /// Reads one bit; zero behind the end.
    fn read_bit(&mut self) -> (r: u32)
        requires
            old(self).bit_pos < usize::MAX,
        ensures
            r == bit_at(old(self)@.data, old(self)@.pos),
            r <= 1,
            final(self)@ == (SymState { pos: old(self)@.pos + 1, ..old(self)@ }),
            final(self).data == old(self).data,
    {
        proof {
            reveal(bit_at);
            lemma_bit_range(self.data@, self.bit_pos as int);
        }
        let byte_idx: usize = self.bit_pos / 8;
        let bit: u8 = if byte_idx < self.data.len() {
            (self.data[byte_idx] >> ((7 - self.bit_pos % 8) as u8)) & 1
        } else {
            0
        };
        self.bit_pos = self.bit_pos + 1;
        bit as u32
    }

    /// Reads `n` bits, the first being the most significant.
    fn f(&mut self, n: u32) -> (r: u32)
        requires
            n <= 15,
            old(self).bit_pos + n <= usize::MAX,
        ensures
            r == bits_at(old(self)@.data, old(self)@.pos, n as int),
            r < pow2i(n as int),
            final(self)@ == (SymState { pos: old(self)@.pos + n, ..old(self)@ }),
            final(self).data == old(self).data,
    {
        let ghost st = self@;
        let mut x: u32 = 0;
        let mut i: u32 = 0;
        proof {
            lemma_pow2i_values();
        }
        while i < n
            invariant
                i <= n <= 15,
                st == old(self)@,
                self.data == old(self).data,
                st.pos + n <= usize::MAX,
                self@ == (SymState { pos: st.pos + i, ..st }),
                x == bits_at(st.data, st.pos, i as int),
                x < 32768,
                pow2i(15) == 32768,
            decreases n - i,
        {
            let b: u32 = self.read_bit();
            proof {
                lemma_bits_range(st.data, st.pos, i + 1);
                lemma_pow2i_mono(i + 1, 15);
            }
            x = 2 * x + b;
            i = i + 1;
        }
        proof {
            lemma_bits_range(st.data, st.pos, n as int);
        }
        x
    }

    /// Narrows the range to the `width` values from `low` on and renormalizes.
    fn renormalize(&mut self, low: u32, width: u32)
        requires
            old(self)@.wf(),
            low <= old(self)@.value < low + width,
            1 <= width < 65536,
        ensures
            final(self)@ == sym_renormalized(old(self)@, low as int, width as int),
            final(self)@.wf(),
    {
        let ghost st = self@;
        proof {
            lemma_renormalized(st, low as int, width as int);
        }
        let bits: u32 = 15 - floor_log2_of(width);
        let num: u32 = if self.symbol_max_bits <= 0 {
            0
        } else if self.symbol_max_bits < bits as i64 {
            self.symbol_max_bits as u32
        } else {
            bits
        };
        let new_data: u32 = self.f(num);
        proof {
            lemma_shl_pow2(bits);
            lemma_shl_pow2((bits - num) as u32);
            lemma_pow2i_mono(0, bits - num);
            lemma_pow2i_values();
            lemma_pow2i_mono(bits - num, 15);
        }
        let scale: u32 = 1u32 << bits;
        let pad: u32 = 1u32 << (bits - num);
        assert(new_data * pad < 65536);
        let padded: u32 = new_data * pad;
        assert((st.value - low + 1) * scale <= 65536);
        self.symbol_value = (self.symbol_value - low + 1) * scale - 1 - padded;
        assert(width * scale < 65536);
        self.symbol_range = width * scale;
        if self.symbol_max_bits >= MAX_BITS_FLOOR {
            self.symbol_max_bits = self.symbol_max_bits - bits as i64;
        }
    }

    /// Reads a symbol with the table `cdf` and adapts the table to it. While the trace is
    /// on, the read is recorded.
    pub fn read_symbol(&mut self, cdf: &mut [u16]) -> (r: usize)
        requires
            old(self)@.wf(),
            cdf_wf(old(cdf)@),
        ensures
            r == sym_value(old(self)@, old(cdf)@),
            r < cdf_symbols(old(cdf)@),
            final(self)@ == sym_next(old(self)@, old(cdf)@),
            final(self)@.wf(),
            final(self)@.data == old(self)@.data,
            final(cdf)@ == cdf_next(old(cdf)@, r as int),
            cdf_wf(final(cdf)@),
            final(cdf)@.len() == old(cdf)@.len(),
    {
        let ghost st = self@;
        let ghost t = cdf@;
        let n: usize = cdf.len() - 1;
        let bit_pos_before: usize = self.bit_pos;
        let mut symbol: usize = 0;
        let mut prev: u32 = self.symbol_range;
        let mut cur: u32 = 0;
        proof {
            reveal(sym_value);
            reveal(sym_next);
            lemma_sym_value(st, t);
            lemma_sym_next_wf(st, t);
        }
        loop
            invariant_except_break
                symbol < n,
                prev == sym_top(st.range, t, symbol as int),
                st.value < prev,
                sym_search(st.range, st.value, t, symbol as int) == sym_value(st, t),
            invariant
                n == t.len() - 1,
                cdf@ == t,
                cdf_wf(t),
                self@ == st,
                st.wf(),
                prev < 65536,
            ensures
                symbol == sym_value(st, t),
                prev == sym_top(st.range, t, symbol as int),
                cur == sym_cut(st.range, t, symbol as int),
                symbol < n,
            decreases n - symbol,
        {
            proof {
                lemma_cut_range(st.range, t, symbol as int);
            }
            let f: u32 = 32768 - cdf[symbol] as u32;
            cur = ((self.symbol_range / 256) * (f / 64)) / 2 + 4 * (n as u32 - symbol as u32 - 1);
            assert(cur == sym_cut(st.range, t, symbol as int));
            if self.symbol_value >= cur {
                break;
            }
            prev = cur;
            symbol = symbol + 1;
        }
        self.renormalize(cur, prev - cur);
        let bit_pos_after: usize = self.bit_pos;
        push_symbol_trace(&mut self.trace, n, symbol, bit_pos_before, bit_pos_after);
        Self::adapt(cdf, symbol);
        symbol
    }

    /// Adapts the table `cdf` to the symbol `symbol`.
    fn adapt(cdf: &mut [u16], symbol: usize)
        requires
            cdf_wf(old(cdf)@),
        ensures
            final(cdf)@ == cdf_next(old(cdf)@, symbol as int),
            cdf_wf(final(cdf)@),
            final(cdf)@.len() == old(cdf)@.len(),
    {
        let ghost t = cdf@;
        proof {
            lemma_cdf_rate(t);
            lemma_cdf_next_wf(t, symbol as int);
            lemma_floor_log2(cdf_symbols(t));
            reveal(cdf_next);
        }
        let n: usize = cdf.len() - 1;
        let count: u16 = cdf[n];
        let mut rate: u32 = 3;
        if count > 15 {
            rate = rate + 1;
        }
        if count > 31 {
            rate = rate + 1;
        }
        let spread: u32 = floor_log2_of(n as u32);
        rate = rate + if spread < 2 {
            spread
        } else {
            2
        };
        proof {
            lemma_shl_pow2(rate);
        }
        let step: u32 = 1u32 << rate;
        let mut i: usize = 0;
        while i < n - 1
            invariant
                n == t.len() - 1,
                n >= 2,
                i <= n - 1,
                cdf_wf(t),
                step == pow2i(cdf_rate(t)),
                16 <= step <= 128,
                cdf@.len() == t.len(),
                forall|k: int| i <= k < t.len() ==> #[trigger] cdf@[k] == t[k],
                forall|k: int| 0 <= k < i ==> #[trigger] cdf@[k] == cdf_next(t, symbol as int)[k],
            decreases n - i,
        {
            let c: u32 = cdf[i] as u32;
            proof {
                reveal(cdf_next);
                assert(t[i as int] <= 32768);
                lemma_share(c as int, step as int);
                lemma_share(32768 - c, step as int);
            }
            if i < symbol {
                cdf[i] = (c - c / step) as u16;
            } else {
                cdf[i] = (c + (32768 - c) / step) as u16;
            }
            i = i + 1;
        }
        if cdf[n] < 32 {
            cdf[n] = cdf[n] + 1;
        }
        assert(cdf@ =~= cdf_next(t, symbol as int));
    }

    /// Reads a fair bit.
    pub fn read_bool(&mut self) -> (r: bool)
        requires
            old(self)@.wf(),
        ensures
            r == bool_value(old(self)@),
            final(self)@ == bool_next(old(self)@),
            final(self)@.wf(),
            final(self)@.data == old(self)@.data,
    {
        let mut cdf: [u16; 3] = [16384, 32768, 0];
        assert(cdf@ =~= bool_cdf());
        proof {
            lemma_bool_cdf();
        }
        let k: usize = self.read_symbol(&mut cdf);
        k == 1
    }

    /// Reads an `n`-bit number of fair bits, the first being the most significant.
    pub fn read_literal(&mut self, n: u32) -> (r: u32)
        requires
            old(self)@.wf(),
            n <= 32,
        ensures
            r == literal_value(old(self)@, n as int),
            r < pow2i(n as int),
            final(self)@ == literal_next(old(self)@, n as int),
            final(self)@.wf(),
            final(self)@.data == old(self)@.data,
    {
        let ghost st = self@;
        let mut x: u32 = 0;
        let mut i: u32 = 0;
        while i < n
            invariant
                i <= n <= 32,
                st == old(self)@,
                st.wf(),
                self@.wf(),
                self@ == literal_next(st, i as int),
                x == literal_value(st, i as int),
            decreases n - i,
        {
            proof {
                lemma_literal(st, i + 1);
                lemma_pow2i_mono(i + 1, 32);
                lemma_pow2i_values();
            }
            let b: bool = self.read_bool();
            x = 2 * x + if b {
                1u32
            } else {
                0u32
            };
            i = i + 1;
        }
        proof {
            lemma_literal(st, n as int);
        }
        x
    }
}

} // verus!
