//! Capturing a transform block: which block is asked for, and what is kept of it.
use crate::coeff::TxBlockCtx;
use crate::entropy::SymbolDecoder;
use crate::trace::symbol_trace_values;
use vstd::prelude::*;

verus! {

/// The number that decimal digits spell.
pub open spec fn digits_value(d: Seq<u8>) -> int
    decreases d.len(),
{
    if d.len() == 0 {
        0
    } else {
        10 * digits_value(d.drop_last()) + (d.last() - 48)
    }
}

/// Decimal digits, at least one.
pub open spec fn all_digits(d: Seq<u8>) -> bool {
    &&& d.len() > 0
    &&& forall|i: int| 0 <= i < d.len() ==> 48 <= #[trigger] d[i] <= 57
}

/// Text without the plus sign that it may start with.
pub open spec fn without_plus(d: Seq<u8>) -> Seq<u8> {
    if d.len() > 0 && d[0] == 43 {
        d.skip(1)
    } else {
        d
    }
}

/// The size that text spells: decimal digits behind an optional plus sign, with a value
/// that a size can hold.
pub open spec fn size_of_text(d: Seq<u8>) -> Option<usize> {
    let t = without_plus(d);
    if all_digits(t) && digits_value(t) <= usize::MAX {
        Some(digits_value(t) as usize)
    } else {
        None
    }
}

/// Where the first colon of text is; its length where there is none.
pub open spec fn first_colon(d: Seq<u8>) -> int
    decreases d.len(),
{
    if d.len() == 0 || d[0] == 58 {
        0
    } else {
        1 + first_colon(d.skip(1))
    }
}

/// The text before the first colon.
pub open spec fn before_colon(d: Seq<u8>) -> Seq<u8> {
    d.take(first_colon(d))
}

/// The text behind the first colon, where there is one.
pub open spec fn behind_colon(d: Seq<u8>) -> Option<Seq<u8>> {
    if first_colon(d) < d.len() {
        Some(d.skip(first_colon(d) + 1))
    } else {
        None
    }
}

/// The plane and the sample position that text names: three sizes between colons. Text
/// behind a further colon does not matter.
pub open spec fn target_of(d: Seq<u8>) -> Option<(usize, usize, usize)> {
    match (size_of_text(before_colon(d)), behind_colon(d)) {
        (Some(plane), Some(rest)) => match (size_of_text(before_colon(rest)), behind_colon(rest)) {
            (Some(x), Some(last)) => match size_of_text(before_colon(last)) {
                Some(y) => Some((plane, x, y)),
                None => None,
            },
            _ => None,
        },
        _ => None,
    }
}

/// Where the first colon at or behind `from` is.
fn find_colon(data: &[u8], from: usize) -> (r: usize)
    requires
        from <= data@.len(),
    ensures
        from <= r <= data@.len(),
        r - from == first_colon(data@.skip(from as int)),
{
    let mut i: usize = from;
    while i < data.len() && data[i] != 58
        invariant
            from <= i <= data@.len(),
            first_colon(data@.skip(from as int)) == (i - from) + first_colon(data@.skip(i as int)),
        decreases data.len() - i,
    {
        assert(data@.skip(i as int).skip(1) =~= data@.skip(i + 1));
        i = i + 1;
    }
    i
}

proof fn lemma_digits_grow(d: Seq<u8>, n: int)
    requires
        all_digits(d),
        0 <= n <= d.len(),
    ensures
        0 <= digits_value(d.take(n)) <= digits_value(d),
    decreases d.len(),
{
    let p = d.drop_last();
    if n < d.len() {
        assert(d.take(n) =~= p.take(n));
        if p.len() > 0 {
            lemma_digits_grow(p, n);
        }
    } else {
        assert(d.take(n) =~= d);
        if p.len() > 0 {
            lemma_digits_grow(p, p.len() as int);
            assert(p.take(p.len() as int) =~= p);
        }
    }
}

/// Reads the size that the text from `from` to `to` spells.
fn read_size(data: &[u8], from: usize, to: usize) -> (r: Option<usize>)
    requires
        from <= to <= data@.len(),
    ensures
        r == size_of_text(data@.subrange(from as int, to as int)),
{
    let ghost d = data@.subrange(from as int, to as int);
    let ghost t = without_plus(d);
    let mut start: usize = from;
    if from < to && data[from] == 43 {
        start = from + 1;
    }
    assert(t =~= data@.subrange(start as int, to as int));
    if start == to {
        return None;
    }
    let mut value: usize = 0;
    let mut i: usize = start;
    assert(t.take(0) =~= seq![]);
    while i < to
        invariant
            from <= start <= i <= to <= data@.len(),
            d == data@.subrange(from as int, to as int),
            t == without_plus(d),
            t == data@.subrange(start as int, to as int),
            forall|k: int| 0 <= k < i - start ==> 48 <= #[trigger] t[k] <= 57,
            value == digits_value(t.take(i - start)),
        decreases to - i,
    {
        let c: u8 = data[i];
        let ghost k = i - start;
        assert(t[k] == c);
        if c < 48 || c > 57 {
            return None;
        }
        assert(t.take(k + 1).drop_last() =~= t.take(k));
        let digit: usize = (c - 48) as usize;
        proof {
            if all_digits(t) {
                lemma_digits_grow(t, k + 1);
            }
        }
        let tens: usize = match value.checked_mul(10) {
            Some(v) => v,
            None => {
                return None;
            },
        };
        value = match tens.checked_add(digit) {
            Some(v) => v,
            None => {
                return None;
            },
        };
        i = i + 1;
    }
    assert(t.take(t.len() as int) =~= t);
    Some(value)
}

/// The plane and the sample position that text such as `0:32:8` names.
pub fn parse_capture_target(text: &[u8]) -> (r: Option<(usize, usize, usize)>)
    ensures
        r == target_of(text@),
{
    let a: usize = find_colon(text, 0);
    assert(text@.skip(0) =~= text@);
    assert(before_colon(text@) =~= text@.subrange(0, a as int));
    let plane: usize = match read_size(text, 0, a) {
        Some(v) => v,
        None => {
            return None;
        },
    };
    if a >= text.len() {
        return None;
    }
    let ghost rest = text@.skip(a + 1);
    let b: usize = find_colon(text, a + 1);
    assert(before_colon(rest) =~= text@.subrange(a + 1, b as int));
    let x: usize = match read_size(text, a + 1, b) {
        Some(v) => v,
        None => {
            return None;
        },
    };
    if b >= text.len() {
        return None;
    }
    let ghost last = text@.skip(b + 1);
    assert(rest.skip(first_colon(rest) + 1) =~= last);
    let c: usize = find_colon(text, b + 1);
    assert(before_colon(last) =~= text@.subrange(b + 1, c as int));
    match read_size(text, b + 1, c) {
        Some(y) => Some((plane, x, y)),
        None => None,
    }
}

/// What is kept of a block.
pub struct BlockCapture {
    /// The bytes from the one where the block starts on.
    pub data: Vec<u8>,
    /// The symbols of the block.
    pub reference_values: Vec<usize>,
}

/// The block at these samples of this plane is the one that is asked for.
pub open spec fn is_target(target: (usize, usize, usize), blk: TxBlockCtx) -> bool {
    &&& target.0 == blk.plane
    &&& target.1 == 4 * blk.x4
    &&& target.2 == 4 * blk.y4
}

/// Keeps a block where it is the one that is asked for: the bytes from the bit position
/// before it on, and the symbols that were read since.
pub fn capture_block(
    target: (usize, usize, usize),
    dec: &SymbolDecoder<'_>,
    blk: &TxBlockCtx,
    pre_bit_pos: usize,
    pre_trace_len: usize,
) -> (r: Option<BlockCapture>)
    requires
        blk.wf(),
    ensures
        r is Some <==> is_target(target, *blk),
        r matches Some(c) ==> {
            let from = pre_bit_pos as int / 8;
            &&& c.data@ == if from < dec@.data.len() {
                dec@.data.skip(from)
            } else {
                seq![]
            }
            &&& c.reference_values@.len() == if pre_trace_len < dec@.trace.reads() {
                dec@.trace.reads() - pre_trace_len
            } else {
                0
            }
            &&& forall|i: int|
                0 <= i < c.reference_values@.len() ==> #[trigger] c.reference_values@[i] == (
                dec@.trace.entries->Some_0)[pre_trace_len + i].value
        },
{
    if target.0 != blk.plane || target.1 != blk.x4 * 4 || target.2 != blk.y4 * 4 {
        return None;
    }
    let data: Vec<u8> = dec.bytes_from(pre_bit_pos / 8);
    let all: Vec<usize> = symbol_trace_values(dec.trace());
    let mut reference_values: Vec<usize> = Vec::new();
    if pre_trace_len < all.len() {
        let mut i: usize = pre_trace_len;
        while i < all.len()
            invariant
                pre_trace_len <= i <= all@.len(),
                all@.len() == dec@.trace.reads(),
                reference_values@.len() == i - pre_trace_len,
                forall|k: int|
                    0 <= k < dec@.trace.reads() ==> #[trigger] all@[k] == (
                    dec@.trace.entries->Some_0)[k].value,
                forall|k: int|
                    0 <= k < reference_values@.len() ==> #[trigger] reference_values@[k] == all@[
                    pre_trace_len + k],
            decreases all.len() - i,
        {
            reference_values.push(all[i]);
            i = i + 1;
        }
    }
    Some(BlockCapture { data, reference_values })
}

/// The hexadecimal digit of a number below sixteen.
pub open spec fn hex_digit(v: int) -> u8 {
    if v < 10 {
        (48 + v) as u8
    } else {
        (87 + v) as u8
    }
}

fn hex_digit_of(v: u8) -> (r: u8)
    requires
        v < 16,
    ensures
        r == hex_digit(v as int),
{
    if v < 10 {
        48 + v
    } else {
        87 + v
    }
}

/// Bytes in hexadecimal: two digits a byte, in small letters.
pub fn hex_encode(bytes: &[u8]) -> (r: Vec<u8>)
    ensures
        r@ == Seq::new(
            2 * bytes@.len(),
            |i: int|
                if i % 2 == 0 {
                    hex_digit(bytes@[i / 2] as int / 16)
                } else {
                    hex_digit(bytes@[i / 2] as int % 16)
                },
        ),
{
    let mut r: Vec<u8> = Vec::new();
    let mut i: usize = 0;
    while i < bytes.len()
        invariant
            i <= bytes@.len(),
            r@.len() == 2 * i,
            forall|k: int|
                0 <= k < r@.len() ==> #[trigger] r@[k] == if k % 2 == 0 {
                    hex_digit(bytes@[k / 2] as int / 16)
                } else {
                    hex_digit(bytes@[k / 2] as int % 16)
                },
        decreases bytes.len() - i,
    {
        let b: u8 = bytes[i];
        r.push(hex_digit_of(b / 16));
        r.push(hex_digit_of(b % 16));
        i = i + 1;
    }
    assert(r@ =~= Seq::new(
        2 * bytes@.len(),
        |i: int|
            if i % 2 == 0 {
                hex_digit(bytes@[i / 2] as int / 16)
            } else {
                hex_digit(bytes@[i / 2] as int % 16)
            },
    ));
    r
}

/// Different bytes have different hexadecimal digits, so that the digits spell the bytes.
pub proof fn law_hex_digits(a: u8, b: u8)
    requires
        hex_digit(a as int / 16) == hex_digit(b as int / 16),
        hex_digit(a as int % 16) == hex_digit(b as int % 16),
    ensures
        a == b,
{
}

} // verus!
