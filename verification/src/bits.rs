//! Most-significant-bit-first reading of a byte string.
//!
//! The model of a byte string is the sequence of its bits, continued by zeros
//! behind its end. `bit_at` is one such bit and `bits_at` the number that a run
//! of them spells. A reader is a position in that sequence; a read succeeds
//! exactly when it ends at or before the last bit of the data.
use crate::error::{KinetixError, ParseError};
use vstd::prelude::*;

verus! {

/// Bit `p` of `d`, counted from the most significant bit of the first byte;
/// zero behind the end.
#[verifier::opaque]
pub open spec fn bit_at(d: Seq<u8>, p: int) -> int {
    if 0 <= p < 8 * d.len() {
        ((d[p / 8] >> ((7 - p % 8) as u8)) & 1) as int
    } else {
        0
    }
}

/// Bit `p` of `d` as a flag.
pub open spec fn flag_at(d: Seq<u8>, p: int) -> bool {
    bit_at(d, p) == 1
}

/// The number spelled by the `n` bits of `d` that start at `p`.
pub open spec fn bits_at(d: Seq<u8>, p: int, n: int) -> int
    decreases n,
{
    if n <= 0 {
        0
    } else {
        2 * bits_at(d, p, n - 1) + bit_at(d, p + n - 1)
    }
}

/// Two to the power `n`.
pub open spec fn pow2i(n: int) -> int
    decreases n,
{
    if n <= 0 {
        1
    } else {
        2 * pow2i(n - 1)
    }
}

/// Powers of two grow with their exponent and are positive.
pub proof fn lemma_pow2i_mono(a: int, b: int)
    requires
        a <= b,
    ensures
        1 <= pow2i(a) <= pow2i(b),
    decreases b - a, b,
{
    if b <= 0 {
    } else if a == b {
        lemma_pow2i_mono(a - 1, b - 1);
    } else {
        lemma_pow2i_mono(a, b - 1);
    }
}

/// The powers of two up to the width of a `u32`.
pub proof fn lemma_pow2i_values()
    ensures
        pow2i(0) == 1,
        pow2i(1) == 2,
        pow2i(2) == 4,
        pow2i(3) == 8,
        pow2i(4) == 16,
        pow2i(5) == 32,
        pow2i(6) == 64,
        pow2i(7) == 128,
        pow2i(8) == 256,
        pow2i(9) == 512,
        pow2i(10) == 1024,
        pow2i(11) == 2048,
        pow2i(12) == 4096,
        pow2i(13) == 8192,
        pow2i(14) == 16384,
        pow2i(15) == 32768,
        pow2i(16) == 65536,
        pow2i(20) == 1048576,
        pow2i(30) == 0x4000_0000,
        pow2i(31) == 0x8000_0000,
        pow2i(32) == 0x1_0000_0000,
{
    reveal_with_fuel(pow2i, 17);
    assert(pow2i(16) == 65536);
    assert(pow2i(20) == 16 * pow2i(16));
    assert(pow2i(30) == 1024 * pow2i(20));
}

/// The position of the highest one bit of a positive number.
pub open spec fn floor_log2(x: int) -> int
    decreases x,
{
    if x < 2 {
        0
    } else {
        1 + floor_log2(x / 2)
    }
}

/// A positive number lies between two neighbouring powers of two.
pub proof fn lemma_floor_log2(x: int)
    requires
        1 <= x,
    ensures
        0 <= floor_log2(x),
        pow2i(floor_log2(x)) <= x < pow2i(floor_log2(x) + 1),
        x < 0x8000_0000 ==> floor_log2(x) <= 30,
    decreases x,
{
    lemma_pow2i_values();
    if x >= 2 {
        lemma_floor_log2(x / 2);
        let k = floor_log2(x / 2);
        assert(pow2i(k + 2) == 2 * pow2i(k + 1));
    }
    if x < 0x8000_0000 && floor_log2(x) > 30 {
        lemma_pow2i_mono(31, floor_log2(x));
    }
}

/// A bit is zero or one.
pub proof fn lemma_bit_range(d: Seq<u8>, p: int)
    ensures
        0 <= bit_at(d, p) <= 1,
{
    reveal(bit_at);
    if 0 <= p < 8 * d.len() {
        let b = d[p / 8];
        let s = (7 - p % 8) as u8;
        assert(((b >> s) & 1) <= 1) by (bit_vector);
    }
}

/// `n` bits spell a number below two to the power `n`.
pub proof fn lemma_bits_range(d: Seq<u8>, p: int, n: int)
    ensures
        0 <= bits_at(d, p, n) < pow2i(n),
    decreases n,
{
    if n > 0 {
        lemma_bits_range(d, p, n - 1);
        lemma_bit_range(d, p + n - 1);
    }
}

/// One bit spells itself.
pub proof fn lemma_bits_one(d: Seq<u8>, p: int)
    ensures
        bits_at(d, p, 1) == bit_at(d, p),
        0 <= bit_at(d, p) <= 1,
{
    reveal_with_fuel(bits_at, 2);
    lemma_bit_range(d, p);
}

/// A run of bits is spelled by its two parts: the first `n` bits, then `m` more.
pub proof fn lemma_bits_split(d: Seq<u8>, p: int, n: int, m: int)
    requires
        0 <= n,
        0 <= m,
    ensures
        bits_at(d, p, n + m) == bits_at(d, p, n) * pow2i(m) + bits_at(d, p + n, m),
    decreases m,
{
    if m > 0 {
        lemma_bits_split(d, p, n, m - 1);
        assert(p + n + (m - 1) == p + (n + m) - 1);
        assert(n + (m - 1) == (n + m) - 1);
        let a = bits_at(d, p, n);
        assert(a * pow2i(m) == 2 * (a * pow2i(m - 1))) by (nonlinear_arith)
            requires
                pow2i(m) == 2 * pow2i(m - 1),
        ;
    }
}

/// Appending a bit to a number below two to the power 31.
proof fn lemma_append_bit(r: u32, b: u32)
    requires
        r < 0x8000_0000,
        b <= 1,
    ensures
        ((r << 1) | b) == 2 * r + b,
{
    assert(((r << 1) | b) == 2 * r + b) by (bit_vector)
        requires
            r < 0x8000_0000u32,
            b <= 1u32,
    ;
}

/// A cursor over the bits of a byte string.
pub struct BitReader<'a> {
    data: &'a [u8],
    byte_pos: usize,
    bit_pos: u8,
}

impl<'a> BitReader<'a> {
    /// The bytes that are read.
    pub closed spec fn data(&self) -> Seq<u8> {
        self.data@
    }

    /// The number of bits read so far.
    pub closed spec fn pos(&self) -> int {
        self.byte_pos * 8 + self.bit_pos
    }

    /// The cursor stands on a bit of the data or right behind its last one.
    pub closed spec fn wf(&self) -> bool {
        &&& self.bit_pos < 8
        &&& self.pos() <= 8 * self.data@.len()
    }

    /// What `wf` says of the position.
    pub proof fn lemma_wf(&self)
        requires
            self.wf(),
        ensures
            0 <= self.pos() <= 8 * self.data().len(),
            self.data().len() <= usize::MAX,
    {
        assert(self.data.len() <= usize::MAX);
    }

    /// A cursor at the first bit of `data`.
    pub fn new(data: &'a [u8]) -> (r: Self)
        ensures
            r.wf(),
            r.data() == data@,
            r.pos() == 0,
    {
        Self { data, byte_pos: 0, bit_pos: 0 }
    }

    /// Reads `n` bits, the first read being the most significant. `None` when the
    /// data ends before; the cursor then stands at the end of the data.
    pub fn read_bits(&mut self, n: u8) -> (r: Option<u32>)
        requires
            old(self).wf(),
            1 <= n <= 32,
        ensures
            final(self).wf(),
            final(self).data() == old(self).data(),
            old(self).pos() + n <= 8 * old(self).data().len() ==> {
                &&& r matches Some(v) && v == bits_at(old(self).data(), old(self).pos(), n as int)
                &&& final(self).pos() == old(self).pos() + n
            },
            old(self).pos() + n > 8 * old(self).data().len() ==> {
                &&& r is None
                &&& final(self).pos() == 8 * old(self).data().len()
            },
    {
        let ghost d = self.data@;
        let ghost p0 = self.pos();
        let mut result: u32 = 0;
        let mut i: u8 = 0;
        while i < n
            invariant
                i <= n <= 32,
                self.wf(),
                self.data@ == d,
                d == old(self).data(),
                p0 == old(self).pos(),
                self.pos() == p0 + i,
                result == bits_at(d, p0, i as int),
            decreases n - i,
        {
            if self.byte_pos >= self.data.len() {
                return None;
            }
            proof {
                lemma_bits_range(d, p0, i as int);
                lemma_pow2i_mono(i as int, 31);
                lemma_pow2i_values();
                lemma_bit_range(d, p0 + i);
                reveal(bit_at);
                assert((p0 + i) / 8 == self.byte_pos);
                assert((p0 + i) % 8 == self.bit_pos);
            }
            let byte: u8 = self.data[self.byte_pos];
            let bit: u8 = (byte >> (7 - self.bit_pos)) & 1;
            proof {
                lemma_append_bit(result, bit as u32);
                assert(bit == bit_at(d, p0 + i));
            }
            result = (result << 1) | (bit as u32);
            i = i + 1;
            if self.bit_pos == 7 {
                self.bit_pos = 0;
                self.byte_pos = self.byte_pos + 1;
            } else {
                self.bit_pos = self.bit_pos + 1;
            }
        }
        Some(result)
    }

    /// Reads one bit.
    pub fn read_bit(&mut self) -> (r: Option<u8>)
        requires
            old(self).wf(),
        ensures
            final(self).wf(),
            final(self).data() == old(self).data(),
            old(self).pos() < 8 * old(self).data().len() ==> {
                &&& r matches Some(v) && v == bit_at(old(self).data(), old(self).pos())
                &&& final(self).pos() == old(self).pos() + 1
            },
            old(self).pos() >= 8 * old(self).data().len() ==> {
                &&& r is None
                &&& final(self).pos() == old(self).pos()
            },
    {
        proof {
            lemma_bits_one(self.data(), self.pos());
        }
        match self.read_bits(1) {
            Some(v) => Some(v as u8),
            None => None,
        }
    }

    /// Reads one bit as a flag.
    pub fn read_flag(&mut self) -> (r: Option<bool>)
        requires
            old(self).wf(),
        ensures
            final(self).wf(),
            final(self).data() == old(self).data(),
            old(self).pos() < 8 * old(self).data().len() ==> {
                &&& r matches Some(v) && v == flag_at(old(self).data(), old(self).pos())
                &&& final(self).pos() == old(self).pos() + 1
            },
            old(self).pos() >= 8 * old(self).data().len() ==> {
                &&& r is None
                &&& final(self).pos() == old(self).pos()
            },
    {
        proof {
            lemma_bits_one(self.data(), self.pos());
        }
        match self.read_bits(1) {
            Some(v) => Some(v != 0),
            None => None,
        }
    }

    /// The number of bits read so far.
    pub fn bits_read(&self) -> (r: usize)
        requires
            self.wf(),
            8 * self.data().len() <= usize::MAX,
        ensures
            r == self.pos(),
    {
        self.byte_pos * 8 + self.bit_pos as usize
    }

    /// The number of bits read so far.
    pub fn bit_position(&self) -> (r: usize)
        requires
            self.wf(),
            8 * self.data().len() <= usize::MAX,
        ensures
            r == self.pos(),
    {
        self.bits_read()
    }

    /// Skips to the next byte boundary.
    pub fn byte_align(&mut self)
        requires
            old(self).wf(),
        ensures
            final(self).wf(),
            final(self).data() == old(self).data(),
            final(self).pos() == (old(self).pos() + 7) / 8 * 8,
    {
        proof {
            self.lemma_wf();
        }
        if self.bit_pos != 0 {
            self.bit_pos = 0;
            self.byte_pos = self.byte_pos + 1;
        }
    }
}

/// The error for data that ends inside a syntax element.
pub open spec fn truncated() -> KinetixError {
    KinetixError::Parse(ParseError::Truncated)
}

/// The outcome of reading `n` bits at the cursor `old`: `value` when the data
/// holds them, the truncation error otherwise.
pub open spec fn reads<T>(before: BitReader, after: BitReader, n: int, r: Result<T, KinetixError>) -> bool {
    &&& after.wf()
    &&& after.data() == before.data()
    &&& before.pos() + n <= 8 * before.data().len() ==> r is Ok && after.pos() == before.pos() + n
    &&& before.pos() + n > 8 * before.data().len() ==> r == Err::<T, _>(truncated())
}

/// Reads an `n`-bit number; no bits spell zero.
pub fn read_f(br: &mut BitReader<'_>, n: u8) -> (r: Result<u32, KinetixError>)
    requires
        old(br).wf(),
        n <= 32,
    ensures
        reads(*old(br), *final(br), n as int, r),
        r matches Ok(v) ==> v == bits_at(old(br).data(), old(br).pos(), n as int),
        r matches Ok(v) ==> v < pow2i(n as int),
{
    proof {
        br.lemma_wf();
        lemma_bits_range(br.data(), br.pos(), n as int);
    }
    if n == 0 {
        return Ok(0);
    }
    match br.read_bits(n) {
        Some(v) => Ok(v),
        None => Err(KinetixError::Parse(ParseError::Truncated)),
    }
}

/// Reads an `n`-bit number of at most eight bits.
pub fn read_f8(br: &mut BitReader<'_>, n: u8) -> (r: Result<u8, KinetixError>)
    requires
        old(br).wf(),
        n <= 8,
    ensures
        reads(*old(br), *final(br), n as int, r),
        r matches Ok(v) ==> v == bits_at(old(br).data(), old(br).pos(), n as int),
        r matches Ok(v) ==> v < pow2i(n as int),
{
    proof {
        lemma_pow2i_mono(n as int, 8);
        lemma_pow2i_values();
    }
    match read_f(br, n) {
        Ok(v) => Ok(v as u8),
        Err(e) => Err(e),
    }
}

/// Reads one bit as a flag.
pub fn read_flag(br: &mut BitReader<'_>) -> (r: Result<bool, KinetixError>)
    requires
        old(br).wf(),
    ensures
        reads(*old(br), *final(br), 1, r),
        r matches Ok(v) ==> v == flag_at(old(br).data(), old(br).pos()),
{
    proof {
        br.lemma_wf();
    }
    match br.read_flag() {
        Some(v) => Ok(v),
        None => Err(KinetixError::Parse(ParseError::Truncated)),
    }
}

/// The number of zero bits of `d` from `p + k` on, `k` counted in, at most 32.
pub open spec fn leading_zeros_at(d: Seq<u8>, p: int, k: int) -> int
    decreases 32 - k,
{
    if k >= 32 || flag_at(d, p + k) {
        k
    } else {
        leading_zeros_at(d, p, k + 1)
    }
}

/// The value of the variable-length code at `p`.
pub open spec fn uvlc_value(d: Seq<u8>, p: int) -> int {
    let z = leading_zeros_at(d, p, 0);
    if z >= 32 {
        u32::MAX as int
    } else {
        pow2i(z) + bits_at(d, p + z + 1, z) - 1
    }
}

/// Where the variable-length code at `p` ends.
pub open spec fn uvlc_end(d: Seq<u8>, p: int) -> int {
    let z = leading_zeros_at(d, p, 0);
    if z >= 32 {
        p + 32
    } else {
        p + 2 * z + 1
    }
}

/// The count of leading zeros is between its start and 32.
pub proof fn lemma_leading_zeros(d: Seq<u8>, p: int, k: int)
    requires
        0 <= k <= 32,
    ensures
        k <= leading_zeros_at(d, p, k) <= 32,
    decreases 32 - k,
{
    if k < 32 && !flag_at(d, p + k) {
        lemma_leading_zeros(d, p, k + 1);
    }
}

/// Reads a variable-length code: `z` zeros, a one and `z` more bits; thirty-two
/// zeros alone spell the largest value.
pub fn read_uvlc(br: &mut BitReader<'_>) -> (r: Result<u32, KinetixError>)
    requires
        old(br).wf(),
    ensures
        final(br).wf(),
        final(br).data() == old(br).data(),
        uvlc_end(old(br).data(), old(br).pos()) <= 8 * old(br).data().len() ==> {
            &&& r matches Ok(v) && v == uvlc_value(old(br).data(), old(br).pos())
            &&& final(br).pos() == uvlc_end(old(br).data(), old(br).pos())
        },
        uvlc_end(old(br).data(), old(br).pos()) > 8 * old(br).data().len() ==> r == Err::<u32, _>(
            truncated(),
        ),
{
    let ghost d = br.data();
    let ghost p = br.pos();
    let mut zeros: u32 = 0;
    proof {
        br.lemma_wf();
        lemma_leading_zeros(d, p, 0);
        lemma_pow2i_values();
    }
    loop
        invariant_except_break
            br.pos() == p + zeros,
        invariant
            zeros < 32,
            br.wf(),
            br.data() == d,
            d == old(br).data(),
            p == old(br).pos(),
            0 <= p,
            leading_zeros_at(d, p, zeros as int) == leading_zeros_at(d, p, 0),
            zeros <= leading_zeros_at(d, p, 0) <= 32,
            pow2i(31) == 0x8000_0000,
        ensures
            br.wf(),
            br.data() == d,
            zeros < 32,
            zeros == leading_zeros_at(d, p, 0),
            br.pos() == p + zeros + 1,
        decreases 32 - zeros,
    {
        let bit: bool = read_flag(br)?;
        if bit {
            break;
        }
        proof {
            lemma_leading_zeros(d, p, zeros + 1);
        }
        zeros = zeros + 1;
        if zeros >= 32 {
            return Ok(u32::MAX);
        }
    }
    proof {
        lemma_pow2i_mono(zeros as int, 31);
        assert((1u32 << zeros) == pow2i(zeros as int)) by {
            lemma_shl_pow2(zeros);
        }
    }
    if zeros == 0 {
        return Ok(0);
    }
    let value: u32 = read_f(br, zeros as u8)?;
    Ok((1u32 << zeros) - 1 + value)
}

/// A one shifted left by `n` is two to the power `n`.
pub proof fn lemma_shl_pow2(n: u32)
    requires
        n < 32,
    ensures
        (1u32 << n) == pow2i(n as int),
    decreases n,
{
    if n == 0 {
        assert((1u32 << 0u32) == 1) by (bit_vector);
    } else {
        let m = (n - 1) as u32;
        lemma_shl_pow2(m);
        assert((1u32 << n) == 2 * (1u32 << m)) by (bit_vector)
            requires
                0 < n < 32,
                m == n - 1,
        ;
    }
}

} // verus!
