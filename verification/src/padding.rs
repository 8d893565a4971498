//! Where a symbol decoder reads: behind the end of its data zeros, and from a byte offset
//! what the rest of the data codes, whether or not the reads are recorded.
use crate::bits::{bit_at, bits_at, lemma_bits_split, lemma_floor_log2, lemma_pow2i_mono, pow2i};
use crate::entropy::{
    at_least_0, bool_cdf, cdf_wf, lemma_bool_cdf, lemma_literal, lemma_sym_value, literal_next,
    literal_value, min_of, sym_cut, sym_init, sym_next, sym_renormalized, sym_top, sym_value,
    SymState,
};
use crate::trace::TraceModel;
use vstd::prelude::*;

verus! {

/// Bytes that are all zero.
pub open spec fn zeros(z: Seq<u8>) -> bool {
    forall|i: int| 0 <= i < z.len() ==> #[trigger] z[i] == 0
}

/// The decoder counts the bits that are left: those between its position and the end of
/// its data.
pub open spec fn counted(s: SymState) -> bool {
    &&& s.max_bits >= 0 ==> s.pos + s.max_bits == 8 * s.data.len()
    &&& s.max_bits <= 0 ==> s.pos >= 8 * s.data.len()
    &&& s.pos >= 0
}

/// Two decoders that read the same bits from here on, as one has zero bytes where the
/// data of the other has ended.
pub open spec fn reads_alike(a: SymState, b: SymState, z: Seq<u8>) -> bool {
    &&& zeros(z)
    &&& b.data == a.data + z
    &&& counted(a)
    &&& counted(b)
    &&& a.range == b.range
    &&& a.value == b.value
    &&& a.pos == b.pos || (a.pos >= 8 * a.data.len() && b.pos >= 8 * a.data.len())
}

proof fn lemma_bit_padded(d: Seq<u8>, z: Seq<u8>, p: int)
    requires
        zeros(z),
        0 <= p,
    ensures
        bit_at(d + z, p) == bit_at(d, p),
        p >= 8 * d.len() ==> bit_at(d, p) == 0,
{
    reveal(bit_at);
    let e = d + z;
    if p < 8 * d.len() {
        assert(e[p / 8] == d[p / 8]);
    } else if p < 8 * e.len() {
        assert(e[p / 8] == z[p / 8 - d.len()]);
        let k = (7 - p % 8) as u8;
        assert((0u8 >> k) & 1 == 0) by (bit_vector);
    }
}

proof fn lemma_bits_padded(d: Seq<u8>, z: Seq<u8>, p: int, n: int)
    requires
        zeros(z),
        0 <= p,
        0 <= n,
    ensures
        bits_at(d + z, p, n) == bits_at(d, p, n),
        p >= 8 * d.len() ==> bits_at(d, p, n) == 0,
    decreases n,
{
    if n > 0 {
        lemma_bits_padded(d, z, p, n - 1);
        lemma_bit_padded(d, z, p + n - 1);
    }
}

/// The bits that a decoder takes, padded with zeros, are those from its position on.
proof fn lemma_taken(d: Seq<u8>, p: int, num: int, n: int)
    requires
        0 <= p,
        0 <= num <= n,
        num == n || p + num >= 8 * d.len(),
    ensures
        bits_at(d, p, num) * pow2i(n - num) == bits_at(d, p, n),
{
    lemma_bits_split(d, p, num, n - num);
    if num < n {
        lemma_bits_padded(d, seq![], p + num, n - num);
        assert(d + Seq::<u8>::empty() =~= d);
    }
}

/// Two decoders that read alike read the same symbol, and then still read alike. So data
/// may be padded with zero bytes.
pub proof fn law_padding_is_zeros(a: SymState, b: SymState, z: Seq<u8>, cdf: Seq<u16>)
    requires
        reads_alike(a, b, z),
        a.wf(),
        b.wf(),
        cdf_wf(cdf),
    ensures
        sym_value(a, cdf) == sym_value(b, cdf),
        reads_alike(sym_next(a, cdf), sym_next(b, cdf), z),
{
    lemma_sym_value(a, cdf);
    lemma_sym_value(b, cdf);
    reveal(sym_value);
    reveal(sym_next);
    let k = sym_value(a, cdf);
    let low = sym_cut(a.range, cdf, k);
    let width = sym_top(a.range, cdf, k) - low;
    lemma_renormalized_alike(a, b, z, low, width);
}

proof fn lemma_renormalized_alike(a: SymState, b: SymState, z: Seq<u8>, low: int, width: int)
    requires
        reads_alike(a, b, z),
        1 <= width < 65536,
    ensures
        reads_alike(sym_renormalized(a, low, width), sym_renormalized(b, low, width), z),
{
    lemma_floor_log2(width);
    let bits = 15 - crate::bits::floor_log2(width);
    lemma_log_small(width);
    let na = min_of(bits, at_least_0(a.max_bits));
    let nb = min_of(bits, at_least_0(b.max_bits));
    lemma_taken(a.data, a.pos, na, bits);
    lemma_taken(b.data, b.pos, nb, bits);
    lemma_bits_padded(a.data, z, a.pos, bits);
    lemma_bits_padded(a.data, z, b.pos, bits);
    assert(bits_at(a.data, a.pos, bits) == bits_at(b.data, b.pos, bits));
}

proof fn lemma_log_small(width: int)
    requires
        1 <= width < 65536,
    ensures
        0 <= crate::bits::floor_log2(width) <= 15,
{
    lemma_floor_log2(width);
    let f = crate::bits::floor_log2(width);
    if f >= 16 {
        lemma_pow2i_mono(16, f);
        crate::bits::lemma_pow2i_values();
    }
}

/// Decoders over data and over the same data with zero bytes behind it start alike.
pub proof fn law_padding_start(d: Seq<u8>, z: Seq<u8>, offset: int)
    requires
        zeros(z),
        0 <= offset <= 8 * d.len(),
    ensures
        reads_alike(sym_init(d, offset), sym_init(d + z, offset), z),
{
    let e = d + z;
    let ra = at_least_0(8 * d.len() - offset);
    let rb = at_least_0(8 * e.len() - offset);
    lemma_taken(d, offset, min_of(ra, 15), 15);
    lemma_taken(e, offset, min_of(rb, 15), 15);
    lemma_bits_padded(d, z, offset, 15);
}

// ---------------------------------------------------------------------------
// Positions
// ---------------------------------------------------------------------------

/// A decoder somewhere between `from` and the end of its data: the position and the bits
/// that are left add up to the bits of the data.
pub open spec fn placed(s: SymState, from: int) -> bool {
    &&& from <= s.pos <= 8 * s.data.len()
    &&& s.pos + at_least_0(s.max_bits) == 8 * s.data.len()
}

/// A decoder that starts within its data is placed.
pub proof fn law_starts_placed(d: Seq<u8>, offset: int)
    requires
        0 <= offset <= 8 * d.len(),
    ensures
        placed(sym_init(d, offset), offset),
{
}

/// No read passes the end of the data, and the bits that are left are those between the
/// position and the end.
pub proof fn law_stays_placed(s: SymState, cdf: Seq<u16>, from: int)
    requires
        placed(s, from),
        s.wf(),
        cdf_wf(cdf),
    ensures
        placed(sym_next(s, cdf), from),
        s.pos <= sym_next(s, cdf).pos,
{
    lemma_sym_value(s, cdf);
    reveal(sym_next);
    let k = sym_value(s, cdf);
    lemma_log_small(sym_top(s.range, cdf, k) - sym_cut(s.range, cdf, k));
}

/// The same of every bit of a literal.
pub proof fn law_literal_stays_placed(s: SymState, n: int, from: int)
    requires
        placed(s, from),
        s.wf(),
        0 <= n,
    ensures
        placed(literal_next(s, n), from),
        s.pos <= literal_next(s, n).pos,
    decreases n,
{
    if n > 0 {
        law_literal_stays_placed(s, n - 1, from);
        lemma_literal(s, n - 1);
        lemma_bool_cdf();
        law_stays_placed(literal_next(s, n - 1), bool_cdf(), from);
    }
}

// ---------------------------------------------------------------------------
// Offsets
// ---------------------------------------------------------------------------

/// A decoder over data and one over the data from byte `k` on that stand at the same bit.
pub open spec fn reads_from(a: SymState, b: SymState, k: int) -> bool {
    &&& 0 <= k <= a.data.len()
    &&& b.data == a.data.skip(k)
    &&& a.pos == b.pos + 8 * k
    &&& b.pos >= 0
    &&& a.range == b.range
    &&& a.value == b.value
    &&& a.max_bits == b.max_bits
}

proof fn lemma_bits_skipped(d: Seq<u8>, k: int, p: int, n: int)
    requires
        0 <= k <= d.len(),
        0 <= p,
    ensures
        bits_at(d, p + 8 * k, n) == bits_at(d.skip(k), p, n),
    decreases n,
{
    if n > 0 {
        lemma_bits_skipped(d, k, p, n - 1);
        reveal(bit_at);
        let q = p + n - 1;
        assert((q + 8 * k) / 8 == q / 8 + k && (q + 8 * k) % 8 == q % 8);
        if q < 8 * d.skip(k).len() {
            assert(d.skip(k)[q / 8] == d[q / 8 + k]);
        }
    }
}

/// A decoder that starts at byte `k` stands where one over the rest of the data starts.
pub proof fn law_offset_start(d: Seq<u8>, k: int)
    requires
        0 <= k <= d.len(),
    ensures
        reads_from(sym_init(d, 8 * k), sym_init(d.skip(k), 0), k),
{
    let r = at_least_0(8 * d.len() - 8 * k);
    lemma_bits_skipped(d, k, 0, min_of(r, 15));
}

/// Two decoders at the same bit read the same symbol, and then still stand at the same
/// bit. So decoding from a byte offset is decoding the rest of the data.
pub proof fn law_offset_reads(a: SymState, b: SymState, k: int, cdf: Seq<u16>)
    requires
        reads_from(a, b, k),
        a.wf(),
        b.wf(),
        cdf_wf(cdf),
    ensures
        sym_value(a, cdf) == sym_value(b, cdf),
        reads_from(sym_next(a, cdf), sym_next(b, cdf), k),
{
    lemma_sym_value(a, cdf);
    lemma_sym_value(b, cdf);
    reveal(sym_value);
    reveal(sym_next);
    let v = sym_value(a, cdf);
    let width = sym_top(a.range, cdf, v) - sym_cut(a.range, cdf, v);
    lemma_log_small(width);
    let bits = 15 - crate::bits::floor_log2(width);
    lemma_bits_skipped(a.data, k, b.pos, min_of(bits, at_least_0(a.max_bits)));
}

/// The same of a literal.
pub proof fn law_offset_literal(a: SymState, b: SymState, k: int, n: int)
    requires
        reads_from(a, b, k),
        a.wf(),
        b.wf(),
        0 <= n,
    ensures
        literal_value(a, n) == literal_value(b, n),
        reads_from(literal_next(a, n), literal_next(b, n), k),
    decreases n,
{
    if n > 0 {
        law_offset_literal(a, b, k, n - 1);
        lemma_literal(a, n - 1);
        lemma_literal(b, n - 1);
        lemma_bool_cdf();
        law_offset_reads(literal_next(a, n - 1), literal_next(b, n - 1), k, bool_cdf());
    }
}

// ---------------------------------------------------------------------------
// Records
// ---------------------------------------------------------------------------

/// The same decoder with another trace.
pub open spec fn retraced(s: SymState, t: TraceModel) -> SymState {
    SymState { trace: t, ..s }
}

/// Recording does not change what is read, and a trace that is off stays as it is.
pub proof fn law_trace_apart(s: SymState, t: TraceModel, cdf: Seq<u16>)
    ensures
        sym_value(retraced(s, t), cdf) == sym_value(s, cdf),
        retraced(sym_next(retraced(s, t), cdf), t) == retraced(sym_next(s, cdf), t),
        t.entries is None ==> sym_next(retraced(s, t), cdf).trace == t,
{
    reveal(sym_value);
    reveal(sym_next);
    assert(sym_value(retraced(s, t), cdf) == sym_value(s, cdf));
}

/// The same of a literal.
pub proof fn law_trace_apart_literal(s: SymState, t: TraceModel, n: int)
    ensures
        literal_value(retraced(s, t), n) == literal_value(s, n),
        retraced(literal_next(retraced(s, t), n), t) == retraced(literal_next(s, n), t),
        t.entries is None ==> literal_next(retraced(s, t), n).trace == t,
    decreases n,
{
    if n > 0 {
        law_trace_apart_literal(s, t, n - 1);
        let a = literal_next(retraced(s, t), n - 1);
        let b = literal_next(s, n - 1);
        law_trace_apart(b, a.trace, bool_cdf());
        assert(retraced(b, a.trace) == a);
        law_trace_apart(a, t, bool_cdf());
        law_trace_apart(b, t, bool_cdf());
    }
}

} // verus!
