//! Numbers and units as they are written, and what reading them gives back.
use crate::bits::{
    bit_at, bits_at, flag_at, floor_log2, lemma_bits_one, lemma_bits_range, lemma_bits_split,
    lemma_floor_log2, lemma_pow2i_mono, lemma_pow2i_values, pow2i,
};
use crate::header_parts::{delta_at, delta_len, ns_len, ns_value, su_at};
use crate::obu::{header_len, leb128_spans, leb128_value, obu_spans, obu_type_of, ObuModel};
use vstd::prelude::*;

verus! {

// ---------------------------------------------------------------------------
// Bits
// ---------------------------------------------------------------------------

/// Bytes are read from their most significant bit on: the eight bits of a byte spell it, and
/// its first bit is set where it is at least 128.
pub proof fn law_bits_of_a_byte(d: Seq<u8>, i: int)
    requires
        0 <= i < d.len(),
    ensures
        bits_at(d, 8 * i, 8) == d[i],
        flag_at(d, 8 * i) == (d[i] >= 128),
        flag_at(d, 8 * i + 7) == (d[i] % 2 == 1),
{
    let b = d[i];
    reveal(bit_at);
    reveal_with_fuel(bits_at, 9);
    assert forall|k: int| 0 <= k < 8 implies #[trigger] bit_at(d, 8 * i + k) == ((b >> ((7
        - k) as u8)) & 1) as int by {
        assert((8 * i + k) / 8 == i && (8 * i + k) % 8 == k);
    }
    assert(bit_at(d, 8 * i + 0) == ((b >> 7u8) & 1) as int);
    assert(bit_at(d, 8 * i + 1) == ((b >> 6u8) & 1) as int);
    assert(bit_at(d, 8 * i + 2) == ((b >> 5u8) & 1) as int);
    assert(bit_at(d, 8 * i + 3) == ((b >> 4u8) & 1) as int);
    assert(bit_at(d, 8 * i + 4) == ((b >> 3u8) & 1) as int);
    assert(bit_at(d, 8 * i + 5) == ((b >> 2u8) & 1) as int);
    assert(bit_at(d, 8 * i + 6) == ((b >> 1u8) & 1) as int);
    assert(bit_at(d, 8 * i + 7) == ((b >> 0u8) & 1) as int);
    let (b7, b6, b5, b4, b3, b2, b1, b0): (u8, u8, u8, u8, u8, u8, u8, u8) = (
        (b >> 7u8) & 1,
        (b >> 6u8) & 1,
        (b >> 5u8) & 1,
        (b >> 4u8) & 1,
        (b >> 3u8) & 1,
        (b >> 2u8) & 1,
        (b >> 1u8) & 1,
        (b >> 0u8) & 1,
    );
    assert(b7 <= 1 && b6 <= 1 && b5 <= 1 && b4 <= 1 && b3 <= 1 && b2 <= 1 && b1 <= 1 && b0 <= 1
        && b == 128u8 * b7 + 64u8 * b6 + 32u8 * b5 + 16u8 * b4 + 8u8 * b3 + 4u8 * b2 + 2u8 * b1
        + b0) by (bit_vector)
        requires
            b7 == (b >> 7u8) & 1,
            b6 == (b >> 6u8) & 1,
            b5 == (b >> 5u8) & 1,
            b4 == (b >> 4u8) & 1,
            b3 == (b >> 3u8) & 1,
            b2 == (b >> 2u8) & 1,
            b1 == (b >> 1u8) & 1,
            b0 == (b >> 0u8) & 1,
    ;
}

// ---------------------------------------------------------------------------
// Numbers in a header
// ---------------------------------------------------------------------------

/// A signed number is written in two's complement.
pub proof fn law_signed_number(d: Seq<u8>, p: int, n: int, v: int)
    requires
        1 <= n,
        -pow2i(n - 1) <= v < pow2i(n - 1),
        bits_at(d, p, n) == if v < 0 {
            v + pow2i(n)
        } else {
            v
        },
    ensures
        su_at(d, p, n) == v,
{
    lemma_pow2i_mono(0, n - 1);
    assert(pow2i(n) == 2 * pow2i(n - 1));
}

/// A delta is written as a clear bit where it is zero, else as a set bit and seven bits in
/// two's complement.
pub proof fn law_delta(d: Seq<u8>, p: int, v: int)
    requires
        -64 <= v < 64,
        v == 0 ==> !flag_at(d, p),
        v != 0 ==> flag_at(d, p) && bits_at(d, p + 1, 7) == if v < 0 {
            v + 128
        } else {
            v
        },
    ensures
        delta_at(d, p) == v,
        delta_len(d, p) == if v == 0 {
            1int
        } else {
            8
        },
{
    lemma_pow2i_values();
    if v != 0 {
        law_signed_number(d, p + 1, 7, v);
    }
}

/// A number below `n` is written in one bit less than all such numbers need where that
/// reaches, and else in all of them, moved up behind the short codes.
pub proof fn law_number_below(d: Seq<u8>, p: int, n: int, v: int)
    requires
        3 <= n,
        0 <= v < n,
        ({
            let w = floor_log2(n - 1);
            let short = pow2i(w + 1) - n;
            if v < short {
                bits_at(d, p, w) == v
            } else {
                bits_at(d, p, w + 1) == v + short
            }
        }),
    ensures
        ns_value(d, p, n) == v,
        ns_len(d, p, n) == floor_log2(n - 1) + if v < pow2i(floor_log2(n - 1) + 1) - n {
            0int
        } else {
            1
        },
{
    let w = floor_log2(n - 1);
    let short = pow2i(w + 1) - n;
    lemma_floor_log2(n - 1);
    if v >= short {
        lemma_bits_split(d, p, w, 1);
        lemma_bits_one(d, p + w);
        lemma_pow2i_values();
        let a = bits_at(d, p, w);
        let b = bit_at(d, p + w);
        lemma_bits_range(d, p + w, 1);
        assert(2 * a + b == v + short);
        assert(a >= short) by {
            assert(v + short >= 2 * short);
        }
    }
}

// ---------------------------------------------------------------------------
// Sizes of units
// ---------------------------------------------------------------------------

/// A number as it is written in groups of seven bits, the least significant first, each but
/// the last with its top bit set.
pub open spec fn leb128_code(v: int) -> Seq<u8>
    decreases v,
{
    if v < 128 {
        seq![v as u8]
    } else {
        seq![(128 + v % 128) as u8] + leb128_code(v / 128)
    }
}

proof fn lemma_groups_shift(b: u8, t: Seq<u8>, n: int)
    requires
        0 <= n <= t.len(),
    ensures
        leb128_value(seq![b] + t, n + 1) == b % 128 + 128 * leb128_value(t, n),
    decreases n,
{
    let d = seq![b] + t;
    lemma_pow2i_values();
    if n == 0 {
        assert(leb128_value(d, 0) == 0);
        assert(7 * (1 - 1) == 0int);
        assert((d[0] % 128) * pow2i(0) == b % 128) by (nonlinear_arith)
            requires
                pow2i(0) == 1,
                d[0] == b,
        ;
    } else {
        lemma_groups_shift(b, t, n - 1);
        assert(d[n] == t[n - 1]);
        lemma_shift_seven(7 * (n - 1));
        assert(7 * n == 7 * (n - 1) + 7);
        let g = (t[n - 1] % 128) as int;
        let q = pow2i(7 * (n - 1));
        assert(g * (128 * q) == 128 * (g * q)) by (nonlinear_arith);
    }
}

proof fn lemma_shift_seven(k: int)
    requires
        0 <= k,
    ensures
        pow2i(k + 7) == 128 * pow2i(k),
{
    assert(pow2i(k + 1) == 2 * pow2i(k));
    assert(pow2i(k + 2) == 2 * pow2i(k + 1));
    assert(pow2i(k + 3) == 2 * pow2i(k + 2));
    assert(pow2i(k + 4) == 2 * pow2i(k + 3));
    assert(pow2i(k + 5) == 2 * pow2i(k + 4));
    assert(pow2i(k + 6) == 2 * pow2i(k + 5));
    assert(pow2i(k + 7) == 2 * pow2i(k + 6));
}

proof fn lemma_code(v: int, rest: Seq<u8>, n: int)
    requires
        0 <= v,
        1 <= n,
        v < pow2i(7 * n),
    ensures
        ({
            let c = leb128_code(v);
            let d = c + rest;
            let k = c.len() as int;
            &&& 1 <= k <= n
            &&& d[k - 1] < 128
            &&& forall|i: int| 0 <= i < k - 1 ==> #[trigger] d[i] >= 128
            &&& leb128_value(d, k) == v
        }),
    decreases v,
{
    lemma_pow2i_values();
    let c = leb128_code(v);
    let d = c + rest;
    if v < 128 {
        assert(d =~= seq![v as u8] + rest);
        lemma_groups_shift(v as u8, rest, 0);
        assert(leb128_value(rest, 0) == 0);
    } else {
        assert(n >= 2) by {
            if n == 1 {
                assert(pow2i(7) == 128);
            }
        }
        lemma_shift_seven(7 * (n - 1));
        assert(7 * (n - 1) + 7 == 7 * n);
        assert(v / 128 < pow2i(7 * (n - 1)));
        lemma_code(v / 128, rest, n - 1);
        let t = leb128_code(v / 128) + rest;
        let b = (128 + v % 128) as u8;
        assert(d =~= seq![b] + t);
        let k = leb128_code(v / 128).len() as int;
        lemma_groups_shift(b, t, k);
        assert(c.len() == k + 1);
        assert(d[k] == t[k - 1]);
        assert forall|i: int| 0 <= i < k implies #[trigger] d[i] >= 128 by {
            if i > 0 {
                assert(d[i] == t[i - 1]);
            }
        }
    }
}

/// A number that is written reads back, whatever follows.
pub proof fn law_written_number(v: int, rest: Seq<u8>)
    requires
        0 <= v < pow2i(56),
    ensures
        leb128_spans(leb128_code(v) + rest, leb128_code(v).len() as int),
        leb128_value(leb128_code(v) + rest, leb128_code(v).len() as int) == v,
{
    lemma_code(v, rest, 8);
}

/// A unit as it is written: its type in the four bits below the top one, a size, and the
/// payload.
pub open spec fn unit_code(kind: int, payload: Seq<u8>) -> Seq<u8> {
    seq![(8 * kind + 2) as u8] + leb128_code(payload.len() as int) + payload
}

/// A unit that is written reads back with its type and its payload, whatever follows.
pub proof fn law_written_unit(kind: int, payload: Seq<u8>, rest: Seq<u8>)
    requires
        0 <= kind < 16,
        payload.len() < pow2i(56),
    ensures
        obu_spans(
            unit_code(kind, payload) + rest,
            unit_code(kind, payload).len() as int,
            (ObuModel {
                obu_type: obu_type_of(kind),
                extension_flag: false,
                has_size_field: true,
                payload,
            }),
        ),
{
    let n = payload.len() as int;
    let c = leb128_code(n);
    let d = unit_code(kind, payload) + rest;
    let h = (8 * kind + 2) as u8;
    law_written_number(n, payload + rest);
    assert(d[0] == h);
    assert((h / 8) % 16 == kind && (h / 4) % 2 == 0 && (h / 2) % 2 == 1 && h < 128);
    assert(d.skip(1) =~= c + (payload + rest));
    assert(d.subrange(1 + c.len() as int, 1 + c.len() as int + n) =~= payload);
    assert(leb128_spans(d.skip(header_len(d[0])), c.len() as int));
}

} // verus!
