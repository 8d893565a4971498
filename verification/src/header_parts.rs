//! The parts of the uncompressed frame header.
//!
//! Each part has a model: the values it codes and the position where it ends,
//! both as functions of the payload bits. A part fails to parse exactly when its
//! model ends behind the payload.
use crate::bits::{
    bit_at, bits_at, flag_at, floor_log2, lemma_bits_range, lemma_floor_log2, lemma_pow2i_mono,
    lemma_pow2i_values, lemma_shl_pow2, pow2i, read_f, read_f8, read_flag, reads, BitReader,
};
use crate::error::{Feature, KinetixError, ParseError};
use crate::frame::{
    frame_type_of, FrameType, LoopFilterDeltas, GM_AFFINE, GM_IDENTITY, GM_ROTZOOM, GM_TRANSLATION,
    INTERP_SWITCHABLE,
};
use crate::obu::SequenceHeaderObu;
use vstd::prelude::*;

verus! {

/// `n` if `c` holds, else zero: the width of an optional syntax element.
pub open spec fn opt(c: bool, n: int) -> int {
    if c {
        n
    } else {
        0
    }
}

/// Quotient rounded up.
pub open spec fn ceil_div(a: int, b: int) -> int {
    if a % b == 0 {
        a / b
    } else {
        a / b + 1
    }
}

/// Quotient rounded up.
pub fn div_ceil(a: u32, b: u32) -> (r: u32)
    requires
        b > 0,
    ensures
        r == ceil_div(a as int, b as int),
        r <= a,
        a > 0 ==> r > 0,
{
    proof {
        vstd::arithmetic::div_mod::lemma_div_is_ordered_by_denominator(a as int, 1, b as int);
        vstd::arithmetic::div_mod::lemma_fundamental_div_mod(a as int, b as int);
        if a > 0 && a / b == 0 {
            assert(b * (a / b) == 0) by (nonlinear_arith)
                requires
                    a / b == 0,
            ;
        }
        if a % b != 0 && a / b >= a {
            assert(b * (a / b) >= a) by (nonlinear_arith)
                requires
                    a / b >= a,
                    b >= 1,
            ;
        }
    }
    if a % b == 0 {
        a / b
    } else {
        a / b + 1
    }
}

// ---------------------------------------------------------------------------
// Syntax elements
// ---------------------------------------------------------------------------

/// The signed number that the `n` bits at `p` spell in two's complement.
pub open spec fn su_at(d: Seq<u8>, p: int, n: int) -> int {
    if n <= 0 {
        0
    } else if bits_at(d, p, n) >= pow2i(n - 1) {
        bits_at(d, p, n) - pow2i(n)
    } else {
        bits_at(d, p, n)
    }
}

/// Reads an `n`-bit signed number.
pub fn read_su(br: &mut BitReader<'_>, n: u8) -> (r: Result<i32, KinetixError>)
    requires
        old(br).wf(),
        n <= 30,
    ensures
        reads(*old(br), *final(br), n as int, r),
        r matches Ok(v) ==> v == su_at(old(br).data(), old(br).pos(), n as int),
        r matches Ok(v) ==> -pow2i(n - 1) <= v <= pow2i(n - 1),
{
    proof {
        br.lemma_wf();
        lemma_pow2i_values();
        lemma_pow2i_mono(n as int, 30);
        lemma_pow2i_mono(n - 1, 30);
    }
    if n == 0 {
        return Ok(0);
    }
    let v: u32 = read_f(br, n)?;
    proof {
        lemma_shl_pow2((n - 1) as u32);
        lemma_shl_pow2(n as u32);
    }
    let half: u32 = 1u32 << ((n - 1) as u32);
    let full: u32 = 1u32 << (n as u32);
    if v >= half {
        Ok(v as i32 - full as i32)
    } else {
        Ok(v as i32)
    }
}

/// The optional delta at `p`: a flag, then a seven-bit signed number.
pub open spec fn delta_at(d: Seq<u8>, p: int) -> int {
    if flag_at(d, p) {
        su_at(d, p + 1, 7)
    } else {
        0
    }
}

/// The width of the optional delta at `p`.
pub open spec fn delta_len(d: Seq<u8>, p: int) -> int {
    1 + opt(flag_at(d, p), 7)
}

/// Reads an optional delta.
fn read_delta(br: &mut BitReader<'_>) -> (r: Result<i32, KinetixError>)
    requires
        old(br).wf(),
    ensures
        reads(*old(br), *final(br), delta_len(old(br).data(), old(br).pos()), r),
        r matches Ok(v) ==> v == delta_at(old(br).data(), old(br).pos()),
        r matches Ok(v) ==> -64 <= v <= 64,
{
    proof {
        lemma_pow2i_values();
    }
    let has: bool = read_flag(br)?;
    if has {
        read_su(br, 7)
    } else {
        Ok(0)
    }
}

/// The number below `n` that is coded at `p` with the fewest bits: `w` bits, and
/// one more for the values that `w` bits do not reach.
pub open spec fn ns_value(d: Seq<u8>, p: int, n: int) -> int {
    if n <= 2 {
        0
    } else {
        let w = floor_log2(n - 1);
        let m = pow2i(w + 1) - n;
        let v = bits_at(d, p, w);
        if v >= m {
            2 * v - m + bit_at(d, p + w)
        } else {
            v
        }
    }
}

/// The width of the number below `n` that is coded at `p`.
pub open spec fn ns_len(d: Seq<u8>, p: int, n: int) -> int {
    if n <= 2 {
        0
    } else {
        let w = floor_log2(n - 1);
        w + opt(bits_at(d, p, w) >= pow2i(w + 1) - n, 1)
    }
}

/// A number coded below `n` is below `n`.
pub proof fn lemma_ns_range(d: Seq<u8>, p: int, n: int)
    requires
        1 <= n,
    ensures
        0 <= ns_value(d, p, n) < n,
        0 <= ns_len(d, p, n),
{
    if n > 2 {
        let w = floor_log2(n - 1);
        lemma_floor_log2(n - 1);
        lemma_bits_range(d, p, w);
        crate::bits::lemma_bit_range(d, p + w);
        assert(pow2i(w + 1) == 2 * pow2i(w));
    }
}

/// Reads a number below `n`.
pub fn read_ns(br: &mut BitReader<'_>, n: u32) -> (r: Result<u32, KinetixError>)
    requires
        old(br).wf(),
        1 <= n <= 0x8000_0000,
    ensures
        reads(*old(br), *final(br), ns_len(old(br).data(), old(br).pos(), n as int), r),
        r matches Ok(v) ==> v == ns_value(old(br).data(), old(br).pos(), n as int) && v < n,
{
    let ghost d = br.data();
    let ghost p = br.pos();
    proof {
        br.lemma_wf();
        lemma_ns_range(d, p, n as int);
        lemma_pow2i_values();
    }
    if n <= 2 {
        return Ok(0);
    }
    proof {
        lemma_floor_log2(n - 1);
    }
    let mut w: u32 = 0;
    let mut x: u32 = n - 1;
    while x >= 2
        invariant
            1 <= x,
            w + floor_log2(x as int) == floor_log2(n - 1),
            floor_log2(x as int) <= 30,
            w <= 30,
            floor_log2(n - 1) <= 30,
            0 <= floor_log2(x as int),
        decreases x,
    {
        proof {
            lemma_floor_log2(x as int / 2);
        }
        x = x / 2;
        w = w + 1;
    }
    proof {
        lemma_floor_log2(n - 1);
        lemma_pow2i_mono(w + 1, 31);
        lemma_shl_pow2((w + 1) as u32);
        crate::bits::lemma_bits_one(d, p + w);
        assert(w >= 1) by {
            if w == 0 {
                assert(pow2i(1) == 2);
            }
        }
        assert(pow2i(w + 1) == 2 * pow2i(w as int));
    }
    let m: u32 = (1u32 << (w + 1)) - n;
    let v: u32 = read_f(br, w as u8)?;
    if v >= m {
        let extra: u32 = read_f(br, 1)?;
        return Ok((v - m) + v + extra);
    }
    Ok(v)
}

/// The smallest `k` for which `blk` times two to the power `k` reaches `target`.
pub open spec fn tile_log2(blk: int, target: int) -> int
    decreases 2 * target - blk,
{
    if blk >= target || blk <= 0 {
        0
    } else {
        1 + tile_log2(2 * blk, target)
    }
}

/// `tile_log2` is the smallest such `k`.
pub proof fn lemma_tile_log2(blk: int, target: int)
    requires
        1 <= blk,
    ensures
        0 <= tile_log2(blk, target),
        blk * pow2i(tile_log2(blk, target)) >= target,
        forall|k: int| 0 <= k && #[trigger] (blk * pow2i(k)) >= target ==> tile_log2(blk, target) <= k,
    decreases 2 * target - blk,
{
    if blk < target {
        lemma_tile_log2(2 * blk, target);
        let t = tile_log2(2 * blk, target);
        assert(blk * pow2i(t + 1) == (2 * blk) * pow2i(t)) by (nonlinear_arith)
            requires
                pow2i(t + 1) == 2 * pow2i(t),
        ;
        assert forall|k: int| 0 <= k && #[trigger] (blk * pow2i(k)) >= target implies tile_log2(
            blk,
            target,
        ) <= k by {
            if k > 0 {
                assert(blk * pow2i(k) == (2 * blk) * pow2i(k - 1)) by (nonlinear_arith)
                    requires
                        pow2i(k) == 2 * pow2i(k - 1),
                ;
            } else {
                assert(blk * pow2i(0) == blk) by (nonlinear_arith)
                    requires
                        pow2i(0) == 1,
                ;
            }
        }
    } else {
        assert(blk * pow2i(0) == blk) by (nonlinear_arith)
            requires
                pow2i(0) == 1,
        ;
    }
}

/// Computes `tile_log2`.
fn tile_log2_calc(blk_size: u32, target: u32) -> (r: u32)
    requires
        1 <= blk_size,
        target <= 0x4000_0000,
    ensures
        r == tile_log2(blk_size as int, target as int),
        r <= 30,
{
    let mut k: u32 = 0;
    let mut b: u32 = blk_size;
    proof {
        lemma_tile_log2(blk_size as int, target as int);
        lemma_pow2i_values();
        assert(blk_size * pow2i(30) >= target) by (nonlinear_arith)
            requires
                blk_size >= 1,
                pow2i(30) == 0x4000_0000,
                target <= 0x4000_0000,
        ;
    }
    while b < target
        invariant
            1 <= b,
            target <= 0x4000_0000,
            k + tile_log2(b as int, target as int) == tile_log2(blk_size as int, target as int),
            tile_log2(blk_size as int, target as int) <= 30,
            0 <= tile_log2(b as int, target as int),
        decreases 2 * target - b,
    {
        proof {
            lemma_tile_log2(2 * b, target as int);
        }
        b = b * 2;
        k = k + 1;
    }
    k
}

// ---------------------------------------------------------------------------
// From the first flag to the reference order hints
// ---------------------------------------------------------------------------

/// The number of bits that the buffer removal times of the first `k` operating
/// points take.
pub open spec fn removal_bits(seq: SequenceHeaderObu, k: int) -> int
    decreases k,
{
    if k <= 0 {
        0
    } else {
        removal_bits(seq, k - 1) + opt(
            seq.decoder_model_present_for_this_op[k - 1],
            seq.buffer_removal_time_length_minus_1 + 1,
        )
    }
}

pub proof fn lemma_removal_bits(seq: SequenceHeaderObu, j: int, k: int)
    requires
        0 <= j <= k,
    ensures
        removal_bits(seq, j) <= removal_bits(seq, k),
    decreases k - j,
{
    if j < k {
        lemma_removal_bits(seq, j, k - 1);
    }
}

/// Skips the buffer removal times.
fn skip_removal_times(br: &mut BitReader<'_>, seq: &SequenceHeaderObu) -> (r: Result<
    (),
    KinetixError,
>)
    requires
        old(br).wf(),
        seq.wf(),
    ensures
        reads(*old(br), *final(br), removal_bits(*seq, seq.operating_points_cnt_minus_1 + 1), r),
{
    let ghost d = br.data();
    let ghost p = br.pos();
    let count: usize = seq.operating_points_cnt_minus_1 as usize + 1;
    let mut op: usize = 0;
    proof {
        br.lemma_wf();
    }
    while op < count
        invariant
            op <= count <= 32,
            count == seq.operating_points_cnt_minus_1 + 1,
            seq.wf(),
            br.wf(),
            br.data() == d,
            d == old(br).data(),
            p == old(br).pos(),
            br.pos() == p + removal_bits(*seq, op as int),
            br.pos() <= 8 * d.len(),
        decreases count - op,
    {
        proof {
            lemma_removal_bits(*seq, op + 1, count as int);
        }
        if seq.decoder_model_present_for_this_op[op] {
            let n: u8 = seq.buffer_removal_time_length_minus_1 + 1;
            let _time: u32 = read_f(br, n)?;
        }
        op = op + 1;
        proof {
            br.lemma_wf();
        }
    }
    Ok(())
}

/// The kind of a frame and the tools it allows.
pub struct KindModel {
    pub show_existing_frame: bool,
    pub frame_type: FrameType,
    pub show_frame: bool,
    pub showable_frame: bool,
    pub error_resilient_mode: bool,
    pub disable_cdf_update: bool,
    pub allow_screen_content_tools: bool,
    pub force_integer_mv: bool,
    pub frame_size_override_flag: bool,
    pub end: int,
}

/// Key frames and intra-only frames carry no motion.
pub open spec fn type_is_intra(t: FrameType) -> bool {
    t == FrameType::KeyFrame || t == FrameType::IntraOnlyFrame
}

/// Switch frames and shown key frames are error resilient and refresh every slot.
pub open spec fn type_resets(t: FrameType, show: bool) -> bool {
    t == FrameType::SwitchFrame || (t == FrameType::KeyFrame && show)
}

/// The kind of the frame whose header starts at bit 0 of `d`. A reduced still
/// picture header codes neither the frame type nor its visibility.
#[verifier::opaque]
pub open spec fn kind_model(d: Seq<u8>, seq: SequenceHeaderObu) -> KindModel {
    let full = !seq.reduced_still_picture_header;
    let p1 = opt(full, 1);
    let frame_type = if full {
        frame_type_of(bits_at(d, p1, 2))
    } else {
        FrameType::KeyFrame
    };
    let intra = type_is_intra(frame_type);
    let p2 = p1 + opt(full, 2);
    let show = !full || flag_at(d, p2);
    let p3 = p2 + opt(full, 1);
    let asks_showable = full && !show && frame_type != FrameType::KeyFrame;
    let p4 = p3 + opt(asks_showable, 1);
    let resets = type_resets(frame_type, show);
    let resilient = resets || (full && flag_at(d, p4));
    let p5 = p4 + opt(!resets && full, 1);
    let p6 = p5 + 1;
    let screen = if seq.seq_choose_screen_content_tools {
        flag_at(d, p6)
    } else {
        seq.seq_force_screen_content_tools
    };
    let p7 = p6 + opt(seq.seq_choose_screen_content_tools, 1);
    let asks_mv = screen && seq.seq_choose_integer_mv;
    let integer_mv = if asks_mv {
        flag_at(d, p7)
    } else {
        screen && seq.seq_force_integer_mv
    };
    let p8 = p7 + opt(asks_mv, 1);
    let switch = frame_type == FrameType::SwitchFrame;
    KindModel {
        show_existing_frame: full && flag_at(d, 0),
        frame_type,
        show_frame: show,
        showable_frame: asks_showable && flag_at(d, p3),
        error_resilient_mode: resilient,
        disable_cdf_update: flag_at(d, p5),
        allow_screen_content_tools: screen,
        force_integer_mv: intra || integer_mv,
        frame_size_override_flag: switch || (full && flag_at(d, p8)),
        end: p8 + opt(!switch && full, 1),
    }
}

/// The order hints of a frame and the slots it refreshes.
pub struct HintsModel {
    pub order_hint: int,
    pub primary_ref_frame: int,
    pub buffer_removal_time_present: bool,
    pub refresh_frame_flags: int,
    pub ref_order_hint: Seq<int>,
    pub end: int,
}

/// The order hint part that starts at `p`, of a frame of kind `k`.
#[verifier::opaque]
pub open spec fn hints_model(d: Seq<u8>, p: int, seq: SequenceHeaderObu, k: KindModel) -> HintsModel {
    let hint_bits = seq.spec_order_hint_bits();
    let intra = type_is_intra(k.frame_type);
    let resets = type_resets(k.frame_type, k.show_frame);
    let p10 = p + hint_bits;
    let asks_primary = !intra && !k.error_resilient_mode;
    let p11 = p10 + opt(asks_primary, 3);
    let asks_removal = seq.decoder_model_info_present && !seq.reduced_still_picture_header;
    let removal = asks_removal && flag_at(d, p11);
    let p12 = p11 + opt(asks_removal, 1);
    let p13 = p12 + opt(removal, removal_bits(seq, seq.operating_points_cnt_minus_1 + 1));
    let refresh = if resets {
        255
    } else {
        bits_at(d, p13, 8)
    };
    let p14 = p13 + opt(!resets, 8);
    let asks_hints = (!intra || refresh != 255) && k.error_resilient_mode && seq.enable_order_hint;
    HintsModel {
        order_hint: bits_at(d, p, hint_bits),
        primary_ref_frame: if asks_primary {
            bits_at(d, p10, 3)
        } else {
            7
        },
        buffer_removal_time_present: removal,
        refresh_frame_flags: refresh,
        ref_order_hint: Seq::new(
            8,
            |i: int|
                if asks_hints {
                    bits_at(d, p14 + i * hint_bits, hint_bits)
                } else {
                    0
                },
        ),
        end: p14 + opt(asks_hints, 8 * hint_bits),
    }
}

/// The kind of a frame and the tools it allows.
pub struct Kind {
    pub frame_type: FrameType,
    pub show_frame: bool,
    pub showable_frame: bool,
    pub error_resilient_mode: bool,
    pub disable_cdf_update: bool,
    pub allow_screen_content_tools: bool,
    pub force_integer_mv: bool,
    pub frame_size_override_flag: bool,
}

impl Kind {
    pub open spec fn models(self, m: KindModel) -> bool {
        &&& self.frame_type == m.frame_type
        &&& self.show_frame == m.show_frame
        &&& self.showable_frame == m.showable_frame
        &&& self.error_resilient_mode == m.error_resilient_mode
        &&& self.disable_cdf_update == m.disable_cdf_update
        &&& self.allow_screen_content_tools == m.allow_screen_content_tools
        &&& self.force_integer_mv == m.force_integer_mv
        &&& self.frame_size_override_flag == m.frame_size_override_flag
    }
}

/// The order hints of a frame and the slots it refreshes.
pub struct Hints {
    pub order_hint: u32,
    pub primary_ref_frame: u8,
    pub buffer_removal_time_present: bool,
    pub refresh_frame_flags: u8,
    pub ref_order_hint: [u8; 8],
}

impl Hints {
    pub open spec fn models(self, m: HintsModel) -> bool {
        &&& self.order_hint == m.order_hint
        &&& self.primary_ref_frame == m.primary_ref_frame
        &&& self.primary_ref_frame < 8
        &&& self.buffer_removal_time_present == m.buffer_removal_time_present
        &&& self.refresh_frame_flags == m.refresh_frame_flags
        &&& m.ref_order_hint.len() == 8
        &&& forall|i: int| 0 <= i < 8 ==> #[trigger] self.ref_order_hint[i] == m.ref_order_hint[i]
    }
}

/// Reads the eight reference order hints of `bits` bits each.
fn read_order_hints(br: &mut BitReader<'_>, bits: u8) -> (r: Result<[u8; 8], KinetixError>)
    requires
        old(br).wf(),
        bits <= 8,
    ensures
        reads(*old(br), *final(br), 8 * bits, r),
        r matches Ok(a) ==> forall|i: int|
            0 <= i < 8 ==> #[trigger] a[i] == bits_at(
                old(br).data(),
                old(br).pos() + i * bits,
                bits as int,
            ),
{
    let ghost d = br.data();
    let ghost p = br.pos();
    let mut a: [u8; 8] = [0; 8];
    let mut i: usize = 0;
    proof {
        br.lemma_wf();
    }
    while i < 8
        invariant
            i <= 8,
            bits <= 8,
            br.wf(),
            br.data() == d,
            d == old(br).data(),
            p == old(br).pos(),
            br.pos() == p + i * bits,
            br.pos() <= 8 * d.len(),
            forall|k: int|
                0 <= k < i ==> #[trigger] a[k] == bits_at(d, p + k * bits, bits as int),
        decreases 8 - i,
    {
        proof {
            assert((i + 1) * bits == i * bits + bits) by (nonlinear_arith);
            assert((i + 1) * bits <= 8 * bits) by (nonlinear_arith)
                requires
                    i + 1 <= 8,
            ;
        }
        let v: u8 = read_f8(br, bits)?;
        a[i] = v;
        i = i + 1;
        proof {
            br.lemma_wf();
        }
    }
    Ok(a)
}

/// Every bit of an empty payload is zero.
proof fn lemma_empty(d: Seq<u8>, p: int)
    requires
        d.len() == 0,
    ensures
        !flag_at(d, p),
{
    reveal(bit_at);
}

/// Parses the kind of a frame. A frame that shows an earlier one is not decoded.
pub(crate) fn parse_kind(br: &mut BitReader<'_>, seq: &SequenceHeaderObu) -> (r: Result<
    Kind,
    KinetixError,
>)
    requires
        old(br).wf(),
        old(br).pos() == 0,
    ensures
        final(br).wf(),
        final(br).data() == old(br).data(),
        ({
            let d = old(br).data();
            let m = kind_model(d, *seq);
            &&& m.show_existing_frame ==> r == Err::<Kind, _>(
                KinetixError::Unsupported(Feature::ShowExistingFrame),
            )
            &&& !m.show_existing_frame ==> reads(*old(br), *final(br), m.end, r)
            &&& r matches Ok(t) ==> t.models(m)
        }),
{
    proof {
        reveal(kind_model);
        lemma_pow2i_values();
        if br.data().len() == 0 {
            lemma_empty(br.data(), 0);
        }
        br.lemma_wf();
    }
    let reduced: bool = seq.reduced_still_picture_header;
    if !reduced {
        let show_existing_frame: bool = read_flag(br)?;
        if show_existing_frame {
            return Err(KinetixError::Unsupported(Feature::ShowExistingFrame));
        }
    }
    let mut frame_type: FrameType = FrameType::KeyFrame;
    let mut show_frame: bool = true;
    if !reduced {
        let v: u8 = read_f8(br, 2)?;
        frame_type = FrameType::from_u8(v);
        show_frame = read_flag(br)?;
    }
    let key: bool = frame_type == FrameType::KeyFrame;
    let switch: bool = frame_type == FrameType::SwitchFrame;
    let resets: bool = switch || (key && show_frame);
    let mut showable_frame: bool = false;
    if !reduced && !show_frame && !key {
        showable_frame = read_flag(br)?;
    }
    let mut error_resilient_mode: bool = resets;
    if !resets && !reduced {
        error_resilient_mode = read_flag(br)?;
    }
    let disable_cdf_update: bool = read_flag(br)?;
    let mut allow_screen_content_tools: bool = seq.seq_force_screen_content_tools;
    if seq.seq_choose_screen_content_tools {
        allow_screen_content_tools = read_flag(br)?;
    }
    let mut force_integer_mv: bool = allow_screen_content_tools && seq.seq_force_integer_mv;
    if allow_screen_content_tools && seq.seq_choose_integer_mv {
        force_integer_mv = read_flag(br)?;
    }
    if frame_type.is_intra() {
        force_integer_mv = true;
    }
    let mut frame_size_override_flag: bool = switch;
    if !switch && !reduced {
        frame_size_override_flag = read_flag(br)?;
    }
    Ok(
        Kind {
            frame_type,
            show_frame,
            showable_frame,
            error_resilient_mode,
            disable_cdf_update,
            allow_screen_content_tools,
            force_integer_mv,
            frame_size_override_flag,
        },
    )
}

/// Parses the order hints.
pub(crate) fn parse_hints(
    br: &mut BitReader<'_>,
    seq: &SequenceHeaderObu,
    kind: &Kind,
    Ghost(k): Ghost<KindModel>,
) -> (r: Result<Hints, KinetixError>)
    requires
        old(br).wf(),
        seq.wf(),
        kind.models(k),
    ensures
        ({
            let m = hints_model(old(br).data(), old(br).pos(), *seq, k);
            &&& reads(*old(br), *final(br), m.end - old(br).pos(), r)
            &&& r matches Ok(t) ==> t.models(m)
        }),
{
    proof {
        reveal(hints_model);
        lemma_pow2i_values();
        lemma_removal_bits(*seq, 0, seq.operating_points_cnt_minus_1 + 1);
        br.lemma_wf();
    }
    let order_hint_bits: u8 = seq.order_hint_bits();
    let frame_is_intra: bool = kind.frame_type.is_intra();
    let resets: bool = kind.frame_type == FrameType::SwitchFrame || (kind.frame_type
        == FrameType::KeyFrame && kind.show_frame);
    let order_hint: u32 = read_f(br, order_hint_bits)?;
    let mut primary_ref_frame: u8 = 7;
    if !frame_is_intra && !kind.error_resilient_mode {
        primary_ref_frame = read_f8(br, 3)?;
    }
    let mut buffer_removal_time_present: bool = false;
    if seq.decoder_model_info_present && !seq.reduced_still_picture_header {
        buffer_removal_time_present = read_flag(br)?;
    }
    if buffer_removal_time_present {
        skip_removal_times(br, seq)?;
    }
    let mut refresh_frame_flags: u8 = 0xFF;
    if !resets {
        refresh_frame_flags = read_f8(br, 8)?;
    }
    let mut ref_order_hint: [u8; 8] = [0; 8];
    if (!frame_is_intra || refresh_frame_flags != 0xFF) && kind.error_resilient_mode
        && seq.enable_order_hint {
        ref_order_hint = read_order_hints(br, order_hint_bits)?;
    }
    Ok(
        Hints {
            order_hint,
            primary_ref_frame,
            buffer_removal_time_present,
            refresh_frame_flags,
            ref_order_hint,
        },
    )
}

// ---------------------------------------------------------------------------
// Frame size and references
// ---------------------------------------------------------------------------

/// A frame size and the size to render it at.
pub struct FrameSizeModel {
    pub width: int,
    pub height: int,
    pub render_width: int,
    pub render_height: int,
    pub end: int,
}

/// The frame size part at `p`: the sequence's size unless overridden, and the
/// frame's own size as render size unless one is coded.
#[verifier::opaque]
pub open spec fn frame_size_model(
    d: Seq<u8>,
    p: int,
    seq: SequenceHeaderObu,
    overridden: bool,
) -> FrameSizeModel {
    let max_w = seq.max_frame_width_minus_1 + 1;
    let max_h = seq.max_frame_height_minus_1 + 1;
    let p1 = p + opt(overridden, ns_len(d, p, max_w));
    let p2 = p1 + opt(overridden, ns_len(d, p1, max_h));
    let w = if overridden {
        ns_value(d, p, max_w) + 1
    } else {
        max_w
    };
    let h = if overridden {
        ns_value(d, p1, max_h) + 1
    } else {
        max_h
    };
    let full = !seq.reduced_still_picture_header;
    let render = full && flag_at(d, p2);
    let p3 = p2 + opt(full, 1);
    let p4 = p3 + opt(render, ns_len(d, p3, w));
    FrameSizeModel {
        width: w,
        height: h,
        render_width: if render {
            ns_value(d, p3, w) + 1
        } else {
            w
        },
        render_height: if render {
            ns_value(d, p4, h) + 1
        } else {
            h
        },
        end: p4 + opt(render, ns_len(d, p4, h)),
    }
}

/// A coded frame size lies within the sequence's, and the render size within it.
pub proof fn lemma_frame_size(d: Seq<u8>, p: int, seq: SequenceHeaderObu, overridden: bool)
    requires
        seq.wf(),
    ensures
        ({
            let m = frame_size_model(d, p, seq, overridden);
            &&& 1 <= m.width <= seq.max_frame_width_minus_1 + 1
            &&& 1 <= m.height <= seq.max_frame_height_minus_1 + 1
            &&& 1 <= m.render_width <= m.width
            &&& 1 <= m.render_height <= m.height
            &&& p <= m.end
        }),
{
    reveal(frame_size_model);
    let m = frame_size_model(d, p, seq, overridden);
    let max_w = seq.max_frame_width_minus_1 + 1;
    let max_h = seq.max_frame_height_minus_1 + 1;
    let p1 = p + opt(overridden, ns_len(d, p, max_w));
    let p2 = p1 + opt(overridden, ns_len(d, p1, max_h));
    let p3 = p2 + opt(!seq.reduced_still_picture_header, 1);
    let render = !seq.reduced_still_picture_header && flag_at(d, p2);
    lemma_ns_range(d, p, max_w);
    lemma_ns_range(d, p1, max_h);
    lemma_ns_range(d, p3, m.width);
    lemma_ns_range(d, p3 + opt(render, ns_len(d, p3, m.width)), m.height);
}

/// Parses the frame size part.
fn parse_frame_size(
    br: &mut BitReader<'_>,
    seq: &SequenceHeaderObu,
    frame_size_override: bool,
) -> (r: Result<(u32, u32, u32, u32), KinetixError>)
    requires
        old(br).wf(),
        seq.wf(),
    ensures
        ({
            let m = frame_size_model(old(br).data(), old(br).pos(), *seq, frame_size_override);
            &&& reads(*old(br), *final(br), m.end - old(br).pos(), r)
            &&& r matches Ok((w, h, rw, rh)) ==> {
                &&& w == m.width
                &&& h == m.height
                &&& rw == m.render_width
                &&& rh == m.render_height
                &&& 1 <= w <= 0x1_0000
                &&& 1 <= h <= 0x1_0000
            }
        }),
{
    proof {
        reveal(frame_size_model);
        let d = br.data();
        let p = br.pos();
        let seq = *seq;
        let overridden = frame_size_override;
        let m = frame_size_model(d, p, seq, overridden);
        let max_w = seq.max_frame_width_minus_1 + 1;
        let max_h = seq.max_frame_height_minus_1 + 1;
        let p1 = p + opt(overridden, ns_len(d, p, max_w));
        let p2 = p1 + opt(overridden, ns_len(d, p1, max_h));
        let p3 = p2 + opt(!seq.reduced_still_picture_header, 1);
        let render = !seq.reduced_still_picture_header && flag_at(d, p2);
        lemma_ns_range(d, p, max_w);
        lemma_ns_range(d, p1, max_h);
        lemma_ns_range(d, p3, m.width);
        lemma_ns_range(d, p3 + opt(render, ns_len(d, p3, m.width)), m.height);
        br.lemma_wf();
    }
    let mut w: u32 = seq.frame_width();
    let mut h: u32 = seq.frame_height();
    if frame_size_override {
        w = read_ns(br, w)? + 1;
        h = read_ns(br, h)? + 1;
    }
    let mut rw: u32 = w;
    let mut rh: u32 = h;
    if !seq.reduced_still_picture_header {
        let render: bool = read_flag(br)?;
        if render {
            rw = read_ns(br, w)? + 1;
            rh = read_ns(br, h)? + 1;
        }
    }
    Ok((w, h, rw, rh))
}

/// Eight-bit addition with wraparound.
pub open spec fn wrap8(x: int) -> int {
    x % 256
}

/// The seven reference slots that the slots of the last and the golden frame
/// imply.
pub open spec fn implied_refs(last: int, gold: int) -> Seq<int> {
    seq![
        wrap8(last + 1),
        last,
        wrap8(last - 1),
        wrap8(last - 2),
        wrap8(gold + 1),
        gold,
        wrap8(gold - 1),
    ]
}

/// Computes the implied reference slots.
fn set_frame_refs(last: u8, gold: u8) -> (r: [u8; 7])
    ensures
        forall|i: int| 0 <= i < 7 ==> #[trigger] r[i] == implied_refs(last as int, gold as int)[i],
{
    [
        last.wrapping_add(1),
        last,
        last.wrapping_sub(1),
        last.wrapping_sub(2),
        gold.wrapping_add(1),
        gold,
        gold.wrapping_sub(1),
    ]
}

/// The size and references of a frame.
pub struct RefsModel {
    pub frame_refs_short_signaling: bool,
    pub last_frame_idx: int,
    pub gold_frame_idx: int,
    pub ref_frame_idx: Seq<int>,
    pub size: FrameSizeModel,
    pub allow_intrabc: bool,
    pub allow_high_precision_mv: bool,
    pub interpolation_filter: int,
    pub is_motion_mode_switchable: bool,
    pub use_ref_frame_mvs: bool,
    pub end: int,
}

/// The size and reference part at `p`, of a frame of kind `k`.
#[verifier::opaque]
pub open spec fn refs_model(d: Seq<u8>, p: int, seq: SequenceHeaderObu, k: KindModel) -> RefsModel {
    if type_is_intra(k.frame_type) {
        let size = frame_size_model(d, p, seq, k.frame_size_override_flag);
        let asks_copy = k.allow_screen_content_tools && size.width == size.render_width;
        RefsModel {
            frame_refs_short_signaling: false,
            last_frame_idx: 0,
            gold_frame_idx: 0,
            ref_frame_idx: Seq::new(7, |i: int| 0int),
            size,
            allow_intrabc: asks_copy && flag_at(d, size.end),
            allow_high_precision_mv: false,
            interpolation_filter: 0,
            is_motion_mode_switchable: false,
            use_ref_frame_mvs: false,
            end: size.end + opt(asks_copy, 1),
        }
    } else {
        let short = seq.enable_order_hint && flag_at(d, p);
        let p1 = p + opt(seq.enable_order_hint, 1);
        let last = if short {
            bits_at(d, p1, 3)
        } else {
            0
        };
        let gold = if short {
            bits_at(d, p1 + 3, 3)
        } else {
            0
        };
        let p2 = p1 + if short {
            6int
        } else {
            21
        };
        let size = frame_size_model(
            d,
            p2,
            seq,
            k.frame_size_override_flag && !k.error_resilient_mode,
        );
        let p3 = size.end + opt(!k.force_integer_mv, 1);
        let switchable = flag_at(d, p3);
        let p4 = p3 + 1 + opt(!switchable, 2);
        let asks_mvs = !k.error_resilient_mode && seq.enable_ref_frame_mvs;
        RefsModel {
            frame_refs_short_signaling: short,
            last_frame_idx: last,
            gold_frame_idx: gold,
            ref_frame_idx: Seq::new(
                7,
                |i: int|
                    if short {
                        implied_refs(last, gold)[i]
                    } else {
                        bits_at(d, p1 + 3 * i, 3)
                    },
            ),
            size,
            allow_intrabc: false,
            allow_high_precision_mv: !k.force_integer_mv && flag_at(d, size.end),
            interpolation_filter: if switchable {
                INTERP_SWITCHABLE as int
            } else {
                bits_at(d, p3 + 1, 2)
            },
            is_motion_mode_switchable: flag_at(d, p4),
            use_ref_frame_mvs: asks_mvs && flag_at(d, p4 + 1),
            end: p4 + 1 + opt(asks_mvs, 1),
        }
    }
}

/// The size and references of a frame.
pub struct Refs {
    pub frame_refs_short_signaling: bool,
    pub last_frame_idx: u8,
    pub gold_frame_idx: u8,
    pub ref_frame_idx: [u8; 7],
    pub width: u32,
    pub height: u32,
    pub render_width: u32,
    pub render_height: u32,
    pub allow_intrabc: bool,
    pub allow_high_precision_mv: bool,
    pub interpolation_filter: u8,
    pub is_motion_mode_switchable: bool,
    pub use_ref_frame_mvs: bool,
}

impl Refs {
    pub open spec fn models(self, m: RefsModel) -> bool {
        &&& self.frame_refs_short_signaling == m.frame_refs_short_signaling
        &&& self.last_frame_idx == m.last_frame_idx
        &&& self.gold_frame_idx == m.gold_frame_idx
        &&& m.ref_frame_idx.len() == 7
        &&& forall|i: int| 0 <= i < 7 ==> #[trigger] self.ref_frame_idx[i] == m.ref_frame_idx[i]
        &&& self.width == m.size.width
        &&& self.height == m.size.height
        &&& self.render_width == m.size.render_width
        &&& self.render_height == m.size.render_height
        &&& self.allow_intrabc == m.allow_intrabc
        &&& self.allow_high_precision_mv == m.allow_high_precision_mv
        &&& self.interpolation_filter == m.interpolation_filter
        &&& self.is_motion_mode_switchable == m.is_motion_mode_switchable
        &&& self.use_ref_frame_mvs == m.use_ref_frame_mvs
        &&& 1 <= self.width <= 0x1_0000
        &&& 1 <= self.height <= 0x1_0000
        &&& self.interpolation_filter <= 4
    }
}

/// Reads the seven reference slots of three bits each.
fn read_ref_slots(br: &mut BitReader<'_>) -> (r: Result<[u8; 7], KinetixError>)
    requires
        old(br).wf(),
    ensures
        reads(*old(br), *final(br), 21, r),
        r matches Ok(a) ==> forall|i: int|
            0 <= i < 7 ==> #[trigger] a[i] == bits_at(old(br).data(), old(br).pos() + 3 * i, 3),
{
    let ghost d = br.data();
    let ghost p = br.pos();
    let mut a: [u8; 7] = [0; 7];
    let mut i: usize = 0;
    proof {
        br.lemma_wf();
    }
    while i < 7
        invariant
            i <= 7,
            br.wf(),
            br.data() == d,
            d == old(br).data(),
            p == old(br).pos(),
            br.pos() == p + 3 * i,
            br.pos() <= 8 * d.len(),
            forall|k: int| 0 <= k < i ==> #[trigger] a[k] == bits_at(d, p + 3 * k, 3),
        decreases 7 - i,
    {
        let v: u8 = read_f8(br, 3)?;
        a[i] = v;
        i = i + 1;
        proof {
            br.lemma_wf();
        }
    }
    Ok(a)
}

/// The filter that a frame interpolates with: switchable, or one of four.
fn read_interpolation_filter(br: &mut BitReader<'_>) -> (r: Result<(u8, bool), KinetixError>)
    requires
        old(br).wf(),
    ensures
        ({
            let d = old(br).data();
            let p = old(br).pos();
            let switchable = flag_at(d, p);
            &&& reads(*old(br), *final(br), 1 + opt(!switchable, 2), r)
            &&& r matches Ok((f, s)) ==> s == switchable && f == if switchable {
                INTERP_SWITCHABLE as int
            } else {
                bits_at(d, p + 1, 2)
            } && f <= 4
        }),
{
    proof {
        lemma_pow2i_values();
    }
    let switchable: bool = read_flag(br)?;
    if switchable {
        Ok((INTERP_SWITCHABLE, true))
    } else {
        let f: u8 = read_f8(br, 2)?;
        Ok((f, false))
    }
}

/// Parses the size and references of a frame.
pub(crate) fn parse_refs(
    br: &mut BitReader<'_>,
    seq: &SequenceHeaderObu,
    kind: &Kind,
    Ghost(k): Ghost<KindModel>,
) -> (r: Result<Refs, KinetixError>)
    requires
        old(br).wf(),
        seq.wf(),
        kind.models(k),
    ensures
        ({
            let m = refs_model(old(br).data(), old(br).pos(), *seq, k);
            &&& reads(*old(br), *final(br), m.end - old(br).pos(), r)
            &&& r matches Ok(t) ==> t.models(m)
        }),
{
    let ghost d = br.data();
    let ghost p = br.pos();
    proof {
        reveal(refs_model);
        lemma_pow2i_values();
        br.lemma_wf();
    }
    let mut refs: Refs = Refs {
        frame_refs_short_signaling: false,
        last_frame_idx: 0,
        gold_frame_idx: 0,
        ref_frame_idx: [0; 7],
        width: 0,
        height: 0,
        render_width: 0,
        render_height: 0,
        allow_intrabc: false,
        allow_high_precision_mv: false,
        interpolation_filter: 0,
        is_motion_mode_switchable: false,
        use_ref_frame_mvs: false,
    };
    if kind.frame_type.is_intra() {
        proof {
            lemma_frame_size(d, p, *seq, k.frame_size_override_flag);
        }
        let (w, h, rw, rh): (u32, u32, u32, u32) = parse_frame_size(
            br,
            seq,
            kind.frame_size_override_flag,
        )?;
        refs.width = w;
        refs.height = h;
        refs.render_width = rw;
        refs.render_height = rh;
        if kind.allow_screen_content_tools && w == rw {
            refs.allow_intrabc = read_flag(br)?;
        }
    } else {
        proof {
            let p1 = p + opt(seq.enable_order_hint, 1);
            let short = seq.enable_order_hint && flag_at(d, p);
            let p2 = p1 + if short {
                6int
            } else {
                21
            };
            lemma_frame_size(
                d,
                p2,
                *seq,
                k.frame_size_override_flag && !k.error_resilient_mode,
            );
        }
        if seq.enable_order_hint {
            refs.frame_refs_short_signaling = read_flag(br)?;
        }
        if refs.frame_refs_short_signaling {
            refs.last_frame_idx = read_f8(br, 3)?;
            refs.gold_frame_idx = read_f8(br, 3)?;
            refs.ref_frame_idx = set_frame_refs(refs.last_frame_idx, refs.gold_frame_idx);
        } else {
            refs.ref_frame_idx = read_ref_slots(br)?;
        }
        let (w, h, rw, rh): (u32, u32, u32, u32) = parse_frame_size(
            br,
            seq,
            kind.frame_size_override_flag && !kind.error_resilient_mode,
        )?;
        refs.width = w;
        refs.height = h;
        refs.render_width = rw;
        refs.render_height = rh;
        if !kind.force_integer_mv {
            refs.allow_high_precision_mv = read_flag(br)?;
        }
        let (filter, _switchable): (u8, bool) = read_interpolation_filter(br)?;
        refs.interpolation_filter = filter;
        refs.is_motion_mode_switchable = read_flag(br)?;
        if !kind.error_resilient_mode && seq.enable_ref_frame_mvs {
            refs.use_ref_frame_mvs = read_flag(br)?;
        }
    }
    Ok(refs)
}

// ---------------------------------------------------------------------------
// Tiles
// ---------------------------------------------------------------------------

/// The count reached from `v` by one flag per step while below `max`.
pub open spec fn counted(d: Seq<u8>, p: int, v: int, max: int) -> int
    decreases max - v,
{
    if v < max && flag_at(d, p) {
        counted(d, p + 1, v + 1, max)
    } else {
        v
    }
}

/// Where the flags that `counted` follows end.
pub open spec fn counted_end(d: Seq<u8>, p: int, v: int, max: int) -> int
    decreases max - v,
{
    if v >= max {
        p
    } else if flag_at(d, p) {
        counted_end(d, p + 1, v + 1, max)
    } else {
        p + 1
    }
}

pub proof fn lemma_counted(d: Seq<u8>, p: int, v: int, max: int)
    ensures
        v <= counted(d, p, v, max),
        counted(d, p, v, max) <= v || counted(d, p, v, max) <= max,
        p <= counted_end(d, p, v, max),
    decreases max - v,
{
    if v < max && flag_at(d, p) {
        lemma_counted(d, p + 1, v + 1, max);
    }
}

/// Counts up from `v` while below `max` and while the next flag is set.
fn read_count(br: &mut BitReader<'_>, v: u32, max: u32) -> (r: Result<u32, KinetixError>)
    requires
        old(br).wf(),
        v <= 64,
        max <= 64,
    ensures
        ({
            let d = old(br).data();
            let p = old(br).pos();
            &&& reads(*old(br), *final(br), counted_end(d, p, v as int, max as int) - p, r)
            &&& r matches Ok(c) ==> c == counted(d, p, v as int, max as int)
        }),
{
    let ghost d = br.data();
    let ghost p = br.pos();
    let mut c: u32 = v;
    proof {
        br.lemma_wf();
    }
    while c < max
        invariant
            v <= c,
            c <= v || c <= max,
            v <= 64,
            max <= 64,
            br.wf(),
            br.data() == d,
            d == old(br).data(),
            p == old(br).pos(),
            br.pos() <= 8 * d.len(),
            counted(d, br.pos(), c as int, max as int) == counted(d, p, v as int, max as int),
            counted_end(d, br.pos(), c as int, max as int) == counted_end(
                d,
                p,
                v as int,
                max as int,
            ),
        decreases max - c,
    {
        proof {
            lemma_counted(d, br.pos(), c as int, max as int);
            lemma_counted(d, br.pos() + 1, c + 1, max as int);
        }
        let more: bool = read_flag(br)?;
        if !more {
            return Ok(c);
        }
        c = c + 1;
        proof {
            br.lemma_wf();
        }
    }
    Ok(c)
}

/// The tiling of a frame.
pub struct TileModel {
    pub cols_log2: int,
    pub rows_log2: int,
    pub width_in_sb: int,
    pub height_in_sb: int,
    pub end: int,
}

/// The number of superblocks along a frame side of `n` pixels; mode info units
/// are counted in pairs.
pub open spec fn sb_count(n: int, use_128: bool) -> int {
    ceil_div(
        2 * ceil_div(n, 8),
        if use_128 {
            32
        } else {
            16
        },
    )
}

/// The least binary logarithm of the number of tile columns.
pub open spec fn min_cols_log2(sb_cols: int, use_128: bool) -> int {
    tile_log2(
        if use_128 {
            32
        } else {
            64
        },
        sb_cols,
    )
}

/// The least binary logarithm of the number of tiles.
pub open spec fn min_tiles_log2(sb_cols: int, sb_rows: int, use_128: bool) -> int {
    let by_area = tile_log2(
        if use_128 {
            576
        } else {
            2304
        },
        sb_rows * sb_cols,
    );
    let by_width = min_cols_log2(sb_cols, use_128);
    if by_width >= by_area {
        by_width
    } else {
        by_area
    }
}

/// The greatest binary logarithm of the number of tiles along a side.
pub open spec fn max_side_log2(sb: int) -> int {
    tile_log2(
        1,
        if sb <= 64 {
            sb
        } else {
            64
        },
    )
}

/// The tile part at `p`. Uniform tiles are counted up from the least allowed
/// number; an explicit tile list is taken to hold one tile that spans the frame.
#[verifier::opaque]
pub open spec fn tile_model(d: Seq<u8>, p: int, width: int, height: int, use_128: bool) -> TileModel {
    let sb_cols = sb_count(width, use_128);
    let sb_rows = sb_count(height, use_128);
    let min_cols = min_cols_log2(sb_cols, use_128);
    let max_cols = max_side_log2(sb_cols);
    let cols = if flag_at(d, p) {
        counted(d, p + 1, min_cols, max_cols)
    } else {
        0
    };
    let min_tiles = min_tiles_log2(sb_cols, sb_rows, use_128);
    let min_rows = if min_tiles >= cols {
        min_tiles - cols
    } else {
        0
    };
    let p1 = counted_end(d, p + 1, min_cols, max_cols);
    let q1 = p + 2 + ns_len(d, p + 2, sb_cols);
    let rows = if flag_at(d, p) {
        counted(d, p1, min_rows, max_side_log2(sb_rows))
    } else {
        0
    };
    TileModel {
        cols_log2: cols,
        rows_log2: rows,
        width_in_sb: ceil_div(sb_cols, pow2i(cols)),
        height_in_sb: ceil_div(sb_rows, pow2i(rows)),
        end: if flag_at(d, p) {
            counted_end(d, p1, min_rows, max_side_log2(sb_rows))
        } else {
            q1 + 1 + ns_len(d, q1 + 1, sb_rows)
        },
    }
}

/// The tiling of a frame.
pub struct Tiling {
    pub cols_log2: u8,
    pub rows_log2: u8,
    pub cols: u32,
    pub rows: u32,
    pub width_in_sb: u32,
    pub height_in_sb: u32,
}

impl Tiling {
    pub open spec fn models(self, m: TileModel) -> bool {
        &&& self.cols_log2 == m.cols_log2
        &&& self.rows_log2 == m.rows_log2
        &&& self.cols_log2 <= 6
        &&& self.rows_log2 <= 11
        &&& self.cols == pow2i(m.cols_log2)
        &&& self.rows == pow2i(m.rows_log2)
        &&& self.width_in_sb == m.width_in_sb
        &&& self.height_in_sb == m.height_in_sb
        &&& self.width_in_sb >= 1
        &&& self.height_in_sb >= 1
    }
}

/// Skips an explicit tile list, which is taken to hold one tile.
fn compute_log2_from_increments(br: &mut BitReader<'_>, sb_total: u32) -> (r: Result<
    u32,
    KinetixError,
>)
    requires
        old(br).wf(),
        1 <= sb_total <= 0x8000_0000,
    ensures
        reads(
            *old(br),
            *final(br),
            1 + ns_len(old(br).data(), old(br).pos() + 1, sb_total as int),
            r,
        ),
        r matches Ok(v) ==> v == 0,
{
    proof {
        lemma_ns_range(br.data(), br.pos() + 1, sb_total as int);
    }
    let _present: u32 = read_f(br, 1)?;
    let _width: u32 = read_ns(br, sb_total)?;
    Ok(0)
}

proof fn lemma_tile_bounds(sb_cols: int, sb_rows: int, use_128: bool)
    requires
        1 <= sb_cols <= 1024,
        1 <= sb_rows <= 1024,
    ensures
        0 <= min_cols_log2(sb_cols, use_128) <= 5,
        0 <= min_tiles_log2(sb_cols, sb_rows, use_128) <= 11,
        0 <= max_side_log2(sb_cols) <= 6,
        0 <= max_side_log2(sb_rows) <= 6,
        sb_rows * sb_cols <= 0x10_0000,
{
    lemma_pow2i_values();
    assert(0 <= sb_rows * sb_cols <= 0x10_0000) by (nonlinear_arith)
        requires
            1 <= sb_cols <= 1024,
            1 <= sb_rows <= 1024,
    ;
    lemma_tile_log2(32, sb_cols);
    lemma_tile_log2(64, sb_cols);
    lemma_tile_log2(576, sb_rows * sb_cols);
    lemma_tile_log2(2304, sb_rows * sb_cols);
    let c = if sb_cols <= 64 {
        sb_cols
    } else {
        64
    };
    let w = if sb_rows <= 64 {
        sb_rows
    } else {
        64
    };
    lemma_tile_log2(1, c);
    lemma_tile_log2(1, w);
    assert(32 * pow2i(5) >= sb_cols);
    assert(64 * pow2i(5) >= sb_cols);
    assert(576 * pow2i(11) >= sb_rows * sb_cols);
    assert(2304 * pow2i(11) >= sb_rows * sb_cols);
    assert(1 * pow2i(6) >= c);
    assert(1 * pow2i(6) >= w);
}

/// Parses the tile part.
pub(crate) fn parse_tile_info(
    br: &mut BitReader<'_>,
    width: u32,
    height: u32,
    use_128: bool,
) -> (r: Result<Tiling, KinetixError>)
    requires
        old(br).wf(),
        1 <= width <= 0x1_0000,
        1 <= height <= 0x1_0000,
    ensures
        ({
            let m = tile_model(old(br).data(), old(br).pos(), width as int, height as int, use_128);
            &&& reads(*old(br), *final(br), m.end - old(br).pos(), r)
            &&& r matches Ok(t) ==> t.models(m)
        }),
{
    let ghost d = br.data();
    let ghost p = br.pos();
    let unit: u32 = if use_128 {
        32
    } else {
        16
    };
    let sb_cols: u32 = div_ceil(2 * div_ceil(width, 8), unit);
    let sb_rows: u32 = div_ceil(2 * div_ceil(height, 8), unit);
    proof {
        reveal(tile_model);
        br.lemma_wf();
        lemma_tile_bounds(sb_cols as int, sb_rows as int, use_128);
    }
    let max_tile_width_sb: u32 = if use_128 {
        32
    } else {
        64
    };
    let max_tile_area_sb: u32 = if use_128 {
        576
    } else {
        2304
    };
    let min_log2_tile_cols: u32 = tile_log2_calc(max_tile_width_sb, sb_cols);
    let max_log2_tile_cols: u32 = tile_log2_calc(
        1,
        if sb_cols <= 64 {
            sb_cols
        } else {
            64
        },
    );
    let max_log2_tile_rows: u32 = tile_log2_calc(
        1,
        if sb_rows <= 64 {
            sb_rows
        } else {
            64
        },
    );
    let by_area: u32 = tile_log2_calc(max_tile_area_sb, sb_rows * sb_cols);
    let min_log2_tiles: u32 = if min_log2_tile_cols >= by_area {
        min_log2_tile_cols
    } else {
        by_area
    };
    let ghost min_cols = min_log2_tile_cols as int;
    let ghost max_cols = max_log2_tile_cols as int;
    proof {
        lemma_counted(d, p + 1, min_cols, max_cols);
        let p1 = counted_end(d, p + 1, min_cols, max_cols);
        let c = counted(d, p + 1, min_cols, max_cols);
        let min_rows = if min_log2_tiles >= c {
            min_log2_tiles - c
        } else {
            0
        };
        lemma_counted(d, p1, min_rows, max_log2_tile_rows as int);
        lemma_ns_range(d, p + 2, sb_cols as int);
        lemma_ns_range(d, p + 3 + ns_len(d, p + 2, sb_cols as int), sb_rows as int);
    }
    let uniform: bool = read_flag(br)?;
    let mut cols_log2: u32 = 0;
    let mut rows_log2: u32 = 0;
    if uniform {
        cols_log2 = read_count(br, min_log2_tile_cols, max_log2_tile_cols)?;
        let min_log2_tile_rows: u32 = if min_log2_tiles >= cols_log2 {
            min_log2_tiles - cols_log2
        } else {
            0
        };
        rows_log2 = read_count(br, min_log2_tile_rows, max_log2_tile_rows)?;
    } else {
        cols_log2 = compute_log2_from_increments(br, sb_cols)?;
        rows_log2 = compute_log2_from_increments(br, sb_rows)?;
    }
    assert(cols_log2 <= 6 && rows_log2 <= 11);
    proof {
        lemma_shl_pow2(cols_log2);
        lemma_shl_pow2(rows_log2);
        lemma_pow2i_mono(0, cols_log2 as int);
        lemma_pow2i_mono(0, rows_log2 as int);
    }
    let cols: u32 = 1u32 << cols_log2;
    let rows: u32 = 1u32 << rows_log2;
    let width_in_sb: u32 = div_ceil(sb_cols, cols);
    let height_in_sb: u32 = div_ceil(sb_rows, rows);
    Ok(
        Tiling {
            cols_log2: cols_log2 as u8,
            rows_log2: rows_log2 as u8,
            cols,
            rows,
            width_in_sb,
            height_in_sb,
        },
    )
}

// ---------------------------------------------------------------------------
// Quantizer
// ---------------------------------------------------------------------------

/// The quantizer of a frame.
pub struct QuantModel {
    pub base_q_idx: int,
    pub y_dc: int,
    pub u_dc: int,
    pub u_ac: int,
    pub v_dc: int,
    pub v_ac: int,
    pub using_qmatrix: bool,
    pub qm_y: int,
    pub qm_u: int,
    pub qm_v: int,
    pub end: int,
}

/// The quantizer part at `p`. Without separate deltas the V plane uses those of
/// the U plane.
#[verifier::opaque]
pub open spec fn quant_model(d: Seq<u8>, p: int, chroma: bool, separate_uv: bool) -> QuantModel {
    let p1 = p + 8;
    let p2 = p1 + delta_len(d, p1);
    let differs = chroma && separate_uv && flag_at(d, p2);
    let p3 = p2 + opt(chroma && separate_uv, 1);
    let p4 = p3 + opt(chroma, delta_len(d, p3));
    let p5 = p4 + opt(chroma, delta_len(d, p4));
    let p6 = p5 + opt(differs, delta_len(d, p5));
    let p7 = p6 + opt(differs, delta_len(d, p6));
    let u_dc = opt(chroma, delta_at(d, p3));
    let u_ac = opt(chroma, delta_at(d, p4));
    let qm = flag_at(d, p7);
    let p8 = p7 + 1;
    QuantModel {
        base_q_idx: bits_at(d, p, 8),
        y_dc: delta_at(d, p1),
        u_dc,
        u_ac,
        v_dc: if differs {
            delta_at(d, p5)
        } else {
            u_dc
        },
        v_ac: if differs {
            delta_at(d, p6)
        } else {
            u_ac
        },
        using_qmatrix: qm,
        qm_y: opt(qm, bits_at(d, p8, 4)),
        qm_u: opt(qm, bits_at(d, p8 + 4, 4)),
        qm_v: opt(
            qm,
            if separate_uv {
                bits_at(d, p8 + 8, 4)
            } else {
                bits_at(d, p8 + 4, 4)
            },
        ),
        end: p8 + opt(qm, 8 + opt(separate_uv, 4)),
    }
}

/// The quantizer of a frame.
pub struct Quant {
    pub base_q_idx: u8,
    pub y_dc: i32,
    pub u_dc: i32,
    pub u_ac: i32,
    pub v_dc: i32,
    pub v_ac: i32,
    pub using_qmatrix: bool,
    pub qm_y: u8,
    pub qm_u: u8,
    pub qm_v: u8,
}

impl Quant {
    pub open spec fn models(self, m: QuantModel) -> bool {
        &&& self.base_q_idx == m.base_q_idx
        &&& self.y_dc == m.y_dc
        &&& self.u_dc == m.u_dc
        &&& self.u_ac == m.u_ac
        &&& self.v_dc == m.v_dc
        &&& self.v_ac == m.v_ac
        &&& self.using_qmatrix == m.using_qmatrix
        &&& self.qm_y == m.qm_y
        &&& self.qm_u == m.qm_u
        &&& self.qm_v == m.qm_v
        &&& -64 <= self.y_dc <= 64
        &&& -64 <= self.u_dc <= 64
        &&& -64 <= self.u_ac <= 64
        &&& -64 <= self.v_dc <= 64
        &&& -64 <= self.v_ac <= 64
    }
}

/// Parses the quantizer part.
pub(crate) fn parse_quant(br: &mut BitReader<'_>, chroma: bool, separate_uv: bool) -> (r: Result<
    Quant,
    KinetixError,
>)
    requires
        old(br).wf(),
    ensures
        ({
            let m = quant_model(old(br).data(), old(br).pos(), chroma, separate_uv);
            &&& reads(*old(br), *final(br), m.end - old(br).pos(), r)
            &&& r matches Ok(t) ==> t.models(m)
        }),
{
    proof {
        reveal(quant_model);
        br.lemma_wf();
    }
    let base_q_idx: u8 = read_f8(br, 8)?;
    let y_dc: i32 = read_delta(br)?;
    let mut differs: bool = false;
    let mut u_dc: i32 = 0;
    let mut u_ac: i32 = 0;
    let mut v_dc: i32 = 0;
    let mut v_ac: i32 = 0;
    if chroma {
        if separate_uv {
            differs = read_flag(br)?;
        }
        u_dc = read_delta(br)?;
        u_ac = read_delta(br)?;
        v_dc = u_dc;
        v_ac = u_ac;
        if differs {
            v_dc = read_delta(br)?;
            v_ac = read_delta(br)?;
        }
    }
    let using_qmatrix: bool = read_flag(br)?;
    let mut qm_y: u8 = 0;
    let mut qm_u: u8 = 0;
    let mut qm_v: u8 = 0;
    if using_qmatrix {
        qm_y = read_f8(br, 4)?;
        qm_u = read_f8(br, 4)?;
        qm_v = qm_u;
        if separate_uv {
            qm_v = read_f8(br, 4)?;
        }
    }
    Ok(Quant { base_q_idx, y_dc, u_dc, u_ac, v_dc, v_ac, using_qmatrix, qm_y, qm_u, qm_v })
}

// ---------------------------------------------------------------------------
// Segmentation
// ---------------------------------------------------------------------------

/// The width of the value of segmentation feature `j`, its sign counted in.
pub open spec fn feature_bits(j: int) -> int {
    if j == 0 {
        9
    } else if j <= 4 {
        7
    } else if j == 5 {
        3
    } else {
        0
    }
}

/// The value of segmentation feature `j` coded at `p`; the first five are signed.
pub open spec fn feature_at(d: Seq<u8>, p: int, j: int) -> int {
    if j <= 4 {
        su_at(d, p, feature_bits(j))
    } else {
        bits_at(d, p, feature_bits(j))
    }
}

/// Where entry `k` of the feature grid at `p` stands; entry `8 * i + j` is
/// feature `j` of segment `i`, a flag and, if set, a value.
pub open spec fn feature_pos(d: Seq<u8>, p: int, k: int) -> int
    decreases k,
{
    if k <= 0 {
        p
    } else {
        let q = feature_pos(d, p, k - 1);
        q + 1 + opt(flag_at(d, q), feature_bits((k - 1) % 8))
    }
}

pub proof fn lemma_feature_pos(d: Seq<u8>, p: int, j: int, k: int)
    requires
        0 <= j <= k,
    ensures
        feature_pos(d, p, j) <= feature_pos(d, p, k),
    decreases k - j,
{
    if j < k {
        lemma_feature_pos(d, p, j, k - 1);
    }
}

/// The value of feature `j` of segment `i`, zero where it is off.
pub open spec fn feature_value(d: Seq<u8>, p: int, i: int, j: int) -> int {
    let q = feature_pos(d, p, 8 * i + j);
    opt(flag_at(d, q), feature_at(d, q + 1, j))
}

/// Feature `j` is on in one of the first `n` segments.
pub open spec fn feature_used(d: Seq<u8>, p: int, j: int, n: int) -> bool {
    exists|i: int| 0 <= i < n && flag_at(d, #[trigger] feature_pos(d, p, 8 * i + j))
}

/// Feature `j` is on in one of the segments before entry `k` of the grid.
spec fn used_before(d: Seq<u8>, p: int, j: int, k: int) -> bool {
    exists|i: int| 0 <= i && 8 * i + j < k && flag_at(d, #[trigger] feature_pos(d, p, 8 * i + j))
}

/// Segmentation of a frame.
pub struct SegModel {
    pub enabled: bool,
    pub update_map: bool,
    pub temporal_update: bool,
    /// Whether a feature grid is coded, and where.
    pub update_data: bool,
    pub grid: int,
    pub end: int,
}

/// The segmentation part at `p`. Without a primary reference frame the map and
/// the features are always coded.
#[verifier::opaque]
pub open spec fn seg_model(d: Seq<u8>, p: int, primary_ref_frame: int) -> SegModel {
    let enabled = flag_at(d, p);
    let p1 = p + 1;
    let asks = enabled && primary_ref_frame != 7;
    let update_map = enabled && (!asks || flag_at(d, p1));
    let p2 = p1 + opt(asks, 1);
    let temporal = asks && update_map && flag_at(d, p2);
    let p3 = p2 + opt(asks && update_map, 1);
    let update_data = enabled && (!asks || flag_at(d, p3));
    let p4 = p3 + opt(asks, 1);
    SegModel {
        enabled,
        update_map,
        temporal_update: temporal,
        update_data,
        grid: p4,
        end: if update_data {
            feature_pos(d, p4, 64)
        } else {
            p4
        },
    }
}

/// Segmentation of a frame.
pub struct Segmentation {
    pub enabled: bool,
    pub update_map: bool,
    pub temporal_update: bool,
    pub feature_enabled: [bool; 8],
    pub feature_data: [[i16; 8]; 8],
}

/// The feature arrays are those of the grid of `m`, or off.
#[verifier::opaque]
pub open spec fn seg_arrays(d: Seq<u8>, m: SegModel, on: [bool; 8], data: [[i16; 8]; 8]) -> bool {
    &&& forall|j: int|
        0 <= j < 8 ==> #[trigger] on[j] == (m.update_data && feature_used(d, m.grid, j, 8))
    &&& forall|i: int, j: int|
        0 <= i < 8 && 0 <= j < 8 ==> #[trigger] data[i][j] == opt(
            m.update_data,
            feature_value(d, m.grid, i, j),
        )
}

impl Segmentation {
    pub open spec fn models(self, d: Seq<u8>, m: SegModel) -> bool {
        &&& self.enabled == m.enabled
        &&& self.update_map == m.update_map
        &&& self.temporal_update == m.temporal_update
        &&& seg_arrays(d, m, self.feature_enabled, self.feature_data)
    }
}

/// Reads the value of segmentation feature `j`.
fn read_feature(br: &mut BitReader<'_>, j: usize) -> (r: Result<i16, KinetixError>)
    requires
        old(br).wf(),
        j < 8,
    ensures
        reads(*old(br), *final(br), feature_bits(j as int), r),
        r matches Ok(v) ==> v == feature_at(old(br).data(), old(br).pos(), j as int),
{
    proof {
        lemma_pow2i_values();
        br.lemma_wf();
    }
    if j == 0 {
        let v: i32 = read_su(br, 9)?;
        Ok(v as i16)
    } else if j <= 4 {
        let v: i32 = read_su(br, 7)?;
        Ok(v as i16)
    } else if j == 5 {
        let v: u32 = read_f(br, 3)?;
        Ok(v as i16)
    } else {
        Ok(0)
    }
}

/// Reads the feature grid.
fn read_segmentation_features(br: &mut BitReader<'_>) -> (r: Result<
    ([bool; 8], [[i16; 8]; 8]),
    KinetixError,
>)
    requires
        old(br).wf(),
    ensures
        ({
            let d = old(br).data();
            let p = old(br).pos();
            &&& reads(*old(br), *final(br), feature_pos(d, p, 64) - p, r)
            &&& r matches Ok((on, data)) ==> {
                &&& forall|j: int| 0 <= j < 8 ==> #[trigger] on[j] == feature_used(d, p, j, 8)
                &&& forall|i: int, j: int|
                    0 <= i < 8 && 0 <= j < 8 ==> #[trigger] data[i][j] == feature_value(d, p, i, j)
            }
        }),
{
    let ghost d = br.data();
    let ghost p = br.pos();
    let mut on: [bool; 8] = [false; 8];
    let mut data: [[i16; 8]; 8] = [[0; 8]; 8];
    let mut k: usize = 0;
    proof {
        br.lemma_wf();
        assert forall|j: int| 0 <= j < 8 implies #[trigger] on[j] == used_before(d, p, j, 0) by {}
    }
    while k < 64
        invariant
            k <= 64,
            br.wf(),
            br.data() == d,
            d == old(br).data(),
            p == old(br).pos(),
            br.pos() == feature_pos(d, p, k as int),
            br.pos() <= 8 * d.len(),
            forall|j: int| 0 <= j < 8 ==> #[trigger] on[j] == used_before(d, p, j, k as int),
            forall|i: int, j: int|
                0 <= i < 8 && 0 <= j < 8 ==> #[trigger] data[i][j] == opt(
                    8 * i + j < k,
                    feature_value(d, p, i, j),
                ),
        decreases 64 - k,
    {
        let i: usize = k / 8;
        let j: usize = k % 8;
        let ghost on0 = on;
        let ghost data0 = data;
        proof {
            lemma_feature_pos(d, p, k + 1, 64);
            assert(8 * i + j == k);
        }
        let en: bool = read_flag(br)?;
        if en {
            on[j] = true;
            let v: i16 = read_feature(br, j)?;
            data[i][j] = v;
        }
        proof {
            br.lemma_wf();
            assert(en == flag_at(d, feature_pos(d, p, 8 * i + j)));
            assert forall|c: int| 0 <= c < 8 implies #[trigger] on[c] == used_before(
                d,
                p,
                c,
                k + 1,
            ) by {
                assert(on0[c] == used_before(d, p, c, k as int));
                if used_before(d, p, c, k + 1) {
                    let a = choose|a: int|
                        0 <= a && 8 * a + c < k + 1 && flag_at(
                            d,
                            #[trigger] feature_pos(d, p, 8 * a + c),
                        );
                    if 8 * a + c == k {
                        assert(c == j && a == i);
                    }
                }
                if on[c] {
                    if c == j && en {
                        assert(flag_at(d, feature_pos(d, p, 8 * i + c)));
                    } else {
                        let a = choose|a: int|
                            0 <= a && 8 * a + c < k && flag_at(
                                d,
                                #[trigger] feature_pos(d, p, 8 * a + c),
                            );
                        assert(flag_at(d, feature_pos(d, p, 8 * a + c)));
                    }
                }
            }
            assert forall|a: int, c: int| 0 <= a < 8 && 0 <= c < 8 implies #[trigger] data[a][c]
                == opt(8 * a + c < k + 1, feature_value(d, p, a, c)) by {
                assert(data0[a][c] == opt(8 * a + c < k, feature_value(d, p, a, c)));
                if 8 * a + c == k {
                    assert(a == i && c == j);
                } else if a == i {
                    assert(c != j);
                }
            }
        }
        k = k + 1;
    }
    proof {
        assert forall|j: int| 0 <= j < 8 implies #[trigger] on[j] == feature_used(d, p, j, 8) by {
            if feature_used(d, p, j, 8) {
                let a = choose|a: int|
                    0 <= a < 8 && flag_at(d, #[trigger] feature_pos(d, p, 8 * a + j));
                assert(8 * a + j < 64);
            }
            if used_before(d, p, j, 64) {
                let a = choose|a: int|
                    0 <= a && 8 * a + j < 64 && flag_at(d, #[trigger] feature_pos(d, p, 8 * a + j));
                assert(a < 8);
            }
        }
    }
    Ok((on, data))
}

/// Parses the segmentation part.
pub(crate) fn parse_segmentation(br: &mut BitReader<'_>, primary_ref_frame: u8) -> (r: Result<
    Segmentation,
    KinetixError,
>)
    requires
        old(br).wf(),
    ensures
        ({
            let m = seg_model(old(br).data(), old(br).pos(), primary_ref_frame as int);
            &&& reads(*old(br), *final(br), m.end - old(br).pos(), r)
            &&& r matches Ok(t) ==> t.models(old(br).data(), m)
        }),
{
    let ghost d = br.data();
    let ghost p = br.pos();
    let ghost m = seg_model(d, p, primary_ref_frame as int);
    proof {
        reveal(seg_model);
        reveal(seg_arrays);
        br.lemma_wf();
        lemma_feature_pos(d, m.grid, 0, 64);
    }
    let enabled: bool = read_flag(br)?;
    let mut update_map: bool = enabled;
    let mut temporal_update: bool = false;
    let mut update_data: bool = enabled;
    if enabled && primary_ref_frame != 7 {
        update_map = read_flag(br)?;
        if update_map {
            temporal_update = read_flag(br)?;
        }
        update_data = read_flag(br)?;
    }
    let mut feature_enabled: [bool; 8] = [false; 8];
    let mut feature_data: [[i16; 8]; 8] = [[0; 8]; 8];
    if update_data {
        let (on, data): ([bool; 8], [[i16; 8]; 8]) = read_segmentation_features(br)?;
        feature_enabled = on;
        feature_data = data;
    }
    Ok(Segmentation { enabled, update_map, temporal_update, feature_enabled, feature_data })
}

// ---------------------------------------------------------------------------
// Quantizer and loop filter deltas
// ---------------------------------------------------------------------------

/// The block-level delta parameters of a frame.
pub struct DeltasModel {
    pub q_present: bool,
    pub q_res: int,
    pub lf_present: bool,
    pub lf_res: int,
    pub lf_multi: bool,
    pub end: int,
}

/// The block-level delta part at `p`.
#[verifier::opaque]
pub open spec fn deltas_model(
    d: Seq<u8>,
    p: int,
    base_q_idx: int,
    allow_intrabc: bool,
) -> DeltasModel {
    let q = base_q_idx > 0 && flag_at(d, p);
    let p1 = p + opt(base_q_idx > 0, 1);
    let p2 = p1 + opt(q, 2);
    let asks = q && !allow_intrabc;
    let lf = asks && flag_at(d, p2);
    let p3 = p2 + opt(asks, 1);
    DeltasModel {
        q_present: q,
        q_res: opt(q, bits_at(d, p1, 2)),
        lf_present: lf,
        lf_res: opt(lf, bits_at(d, p3, 2)),
        lf_multi: lf && flag_at(d, p3 + 2),
        end: p3 + opt(lf, 3),
    }
}

/// The block-level delta parameters of a frame.
pub struct Deltas {
    pub q_present: bool,
    pub q_res: u8,
    pub lf_present: bool,
    pub lf_res: u8,
    pub lf_multi: bool,
}

impl Deltas {
    pub open spec fn models(self, m: DeltasModel) -> bool {
        &&& self.q_present == m.q_present
        &&& self.q_res == m.q_res
        &&& self.lf_present == m.lf_present
        &&& self.lf_res == m.lf_res
        &&& self.lf_multi == m.lf_multi
    }
}

/// Parses the block-level delta part.
pub(crate) fn parse_deltas(br: &mut BitReader<'_>, base_q_idx: u8, allow_intrabc: bool) -> (r:
    Result<Deltas, KinetixError>)
    requires
        old(br).wf(),
    ensures
        ({
            let m = deltas_model(
                old(br).data(),
                old(br).pos(),
                base_q_idx as int,
                allow_intrabc,
            );
            &&& reads(*old(br), *final(br), m.end - old(br).pos(), r)
            &&& r matches Ok(t) ==> t.models(m)
        }),
{
    proof {
        reveal(deltas_model);
        br.lemma_wf();
    }
    let mut t: Deltas = Deltas {
        q_present: false,
        q_res: 0,
        lf_present: false,
        lf_res: 0,
        lf_multi: false,
    };
    if base_q_idx > 0 {
        t.q_present = read_flag(br)?;
    }
    if t.q_present {
        t.q_res = read_f8(br, 2)?;
        if !allow_intrabc {
            t.lf_present = read_flag(br)?;
        }
        if t.lf_present {
            t.lf_res = read_f8(br, 2)?;
            t.lf_multi = read_flag(br)?;
        }
    }
    Ok(t)
}

// ---------------------------------------------------------------------------
// Loop filter
// ---------------------------------------------------------------------------

/// Where entry `k` of a list of optional seven-bit numbers at `p` stands.
pub open spec fn delta_pos(d: Seq<u8>, p: int, k: int) -> int
    decreases k,
{
    if k <= 0 {
        p
    } else {
        let q = delta_pos(d, p, k - 1);
        q + delta_len(d, q)
    }
}

pub proof fn lemma_delta_pos(d: Seq<u8>, p: int, j: int, k: int)
    requires
        0 <= j <= k,
    ensures
        delta_pos(d, p, j) <= delta_pos(d, p, k),
    decreases k - j,
{
    if j < k {
        lemma_delta_pos(d, p, j, k - 1);
    }
}

/// The loop filter of a frame.
pub struct LoopModel {
    pub level: Seq<int>,
    pub sharpness: int,
    pub delta_enabled: bool,
    pub ref_deltas: Seq<int>,
    pub mode_deltas: Seq<int>,
    pub end: int,
}

/// The loop filter part at `p`; `off` for frames that are never filtered.
#[verifier::opaque]
pub open spec fn loop_model(d: Seq<u8>, p: int, off: bool, chroma: bool) -> LoopModel {
    if off {
        LoopModel {
            level: seq![0, 0, 0, 0],
            sharpness: 0,
            delta_enabled: false,
            ref_deltas: seq![1, 0, 0, 0, 0, -1, -1, -1],
            mode_deltas: seq![0, 0],
            end: p,
        }
    } else {
        let l0 = bits_at(d, p, 6);
        let l1 = bits_at(d, p + 6, 6);
        let more = chroma && (l0 != 0 || l1 != 0);
        let p1 = p + 12 + opt(more, 12);
        let enabled = flag_at(d, p1 + 3);
        let p2 = p1 + 4 + opt(enabled, 1);
        let update = enabled && flag_at(d, p1 + 4);
        LoopModel {
            level: seq![l0, l1, opt(more, bits_at(d, p + 12, 6)), opt(more, bits_at(d, p + 18, 6))],
            sharpness: bits_at(d, p1, 3),
            delta_enabled: enabled,
            ref_deltas: Seq::new(8, |i: int| opt(update, delta_at(d, delta_pos(d, p2, i)))),
            mode_deltas: Seq::new(2, |i: int| opt(update, delta_at(d, delta_pos(d, p2, 8 + i)))),
            end: if update {
                delta_pos(d, p2, 10)
            } else {
                p2
            },
        }
    }
}

/// The loop filter of a frame.
pub struct LoopFilter {
    pub level: [u8; 4],
    pub sharpness: u8,
    pub delta_enabled: bool,
    pub deltas: LoopFilterDeltas,
}

impl LoopFilter {
    pub open spec fn models(self, m: LoopModel) -> bool {
        &&& m.level.len() == 4
        &&& forall|i: int| 0 <= i < 4 ==> #[trigger] self.level[i] == m.level[i]
        &&& forall|i: int| 0 <= i < 4 ==> #[trigger] self.level[i] < 64
        &&& self.sharpness == m.sharpness
        &&& self.sharpness < 8
        &&& self.delta_enabled == m.delta_enabled
        &&& m.ref_deltas.len() == 8
        &&& forall|i: int|
            0 <= i < 8 ==> #[trigger] self.deltas.loop_filter_ref_deltas[i] == m.ref_deltas[i]
        &&& m.mode_deltas.len() == 2
        &&& forall|i: int|
            0 <= i < 2 ==> #[trigger] self.deltas.loop_filter_mode_deltas[i] == m.mode_deltas[i]
    }
}

/// Reads the ten optional loop filter deltas.
fn read_loop_deltas(br: &mut BitReader<'_>) -> (r: Result<LoopFilterDeltas, KinetixError>)
    requires
        old(br).wf(),
    ensures
        ({
            let d = old(br).data();
            let p = old(br).pos();
            &&& reads(*old(br), *final(br), delta_pos(d, p, 10) - p, r)
            &&& r matches Ok(t) ==> {
                &&& forall|i: int|
                    0 <= i < 8 ==> #[trigger] t.loop_filter_ref_deltas[i] == delta_at(
                        d,
                        delta_pos(d, p, i),
                    )
                &&& forall|i: int|
                    0 <= i < 2 ==> #[trigger] t.loop_filter_mode_deltas[i] == delta_at(
                        d,
                        delta_pos(d, p, 8 + i),
                    )
            }
        }),
{
    let ghost d = br.data();
    let ghost p = br.pos();
    let mut refs: [i8; 8] = [0; 8];
    let mut modes: [i8; 2] = [0; 2];
    let mut i: usize = 0;
    proof {
        br.lemma_wf();
    }
    while i < 10
        invariant
            i <= 10,
            br.wf(),
            br.data() == d,
            d == old(br).data(),
            p == old(br).pos(),
            br.pos() == delta_pos(d, p, i as int),
            br.pos() <= 8 * d.len(),
            forall|k: int|
                0 <= k < 8 && k < i ==> #[trigger] refs[k] == delta_at(d, delta_pos(d, p, k)),
            forall|k: int|
                0 <= k < 2 && 8 + k < i ==> #[trigger] modes[k] == delta_at(
                    d,
                    delta_pos(d, p, 8 + k),
                ),
        decreases 10 - i,
    {
        proof {
            lemma_delta_pos(d, p, i + 1, 10);
        }
        let v: i32 = read_delta(br)?;
        if i < 8 {
            refs[i] = v as i8;
        } else {
            modes[i - 8] = v as i8;
        }
        i = i + 1;
        proof {
            br.lemma_wf();
        }
    }
    Ok(LoopFilterDeltas { loop_filter_ref_deltas: refs, loop_filter_mode_deltas: modes })
}

/// Parses the loop filter part.
pub(crate) fn parse_loop_filter(br: &mut BitReader<'_>, off: bool, chroma: bool) -> (r: Result<
    LoopFilter,
    KinetixError,
>)
    requires
        old(br).wf(),
    ensures
        ({
            let m = loop_model(old(br).data(), old(br).pos(), off, chroma);
            &&& reads(*old(br), *final(br), m.end - old(br).pos(), r)
            &&& r matches Ok(t) ==> t.models(m)
        }),
{
    let ghost d = br.data();
    let ghost p = br.pos();
    proof {
        reveal(loop_model);
        lemma_pow2i_values();
        br.lemma_wf();
    }
    if off {
        return Ok(
            LoopFilter {
                level: [0, 0, 0, 0],
                sharpness: 0,
                delta_enabled: false,
                deltas: LoopFilterDeltas {
                    loop_filter_ref_deltas: [1, 0, 0, 0, 0, -1, -1, -1],
                    loop_filter_mode_deltas: [0, 0],
                },
            },
        );
    }
    proof {
        let more = chroma && (bits_at(d, p, 6) != 0 || bits_at(d, p + 6, 6) != 0);
        let p1 = p + 12 + opt(more, 12);
        lemma_delta_pos(d, p1 + 5, 0, 10);
    }
    let l0: u8 = read_f8(br, 6)?;
    let l1: u8 = read_f8(br, 6)?;
    let mut l2: u8 = 0;
    let mut l3: u8 = 0;
    if chroma && (l0 != 0 || l1 != 0) {
        l2 = read_f8(br, 6)?;
        l3 = read_f8(br, 6)?;
    }
    let sharpness: u8 = read_f8(br, 3)?;
    let delta_enabled: bool = read_flag(br)?;
    let mut deltas: LoopFilterDeltas = LoopFilterDeltas {
        loop_filter_ref_deltas: [0; 8],
        loop_filter_mode_deltas: [0; 2],
    };
    if delta_enabled {
        let update: bool = read_flag(br)?;
        if update {
            deltas = read_loop_deltas(br)?;
        }
    }
    Ok(LoopFilter { level: [l0, l1, l2, l3], sharpness, delta_enabled, deltas })
}

// ---------------------------------------------------------------------------
// CDEF and loop restoration
// ---------------------------------------------------------------------------

/// The packed strength at `p`: four bits of primary strength plus four times the
/// two bits of secondary strength.
pub open spec fn strength_at(d: Seq<u8>, p: int) -> int {
    bits_at(d, p, 4) + 4 * bits_at(d, p + 4, 2)
}

/// The directional enhancement filter of a frame.
pub struct CdefModel {
    pub damping: int,
    pub bits: int,
    pub y: Seq<int>,
    pub uv: Seq<int>,
    pub end: int,
}

/// The directional enhancement part at `p`.
#[verifier::opaque]
pub open spec fn cdef_model(d: Seq<u8>, p: int, off: bool, chroma: bool) -> CdefModel {
    if off {
        CdefModel { damping: 3, bits: 0, y: seq![0], uv: seq![0], end: p }
    } else {
        let bits = bits_at(d, p + 2, 2);
        let n = pow2i(bits);
        CdefModel {
            damping: bits_at(d, p, 2) + 3,
            bits,
            y: Seq::new(n as nat, |i: int| strength_at(d, p + 4 + 6 * i)),
            uv: Seq::new(opt(chroma, n) as nat, |i: int| strength_at(d, p + 4 + 6 * (n + i))),
            end: p + 4 + 6 * n + opt(chroma, 6 * n),
        }
    }
}

/// The directional enhancement filter of a frame.
pub struct Cdef {
    pub damping: u8,
    pub bits: u8,
    pub y: Vec<u8>,
    pub uv: Vec<u8>,
}

/// `v` holds the numbers `s`.
pub open spec fn same_bytes(v: Seq<u8>, s: Seq<int>) -> bool {
    &&& v.len() == s.len()
    &&& forall|i: int| 0 <= i < s.len() ==> #[trigger] v[i] == s[i]
}

impl Cdef {
    pub open spec fn models(self, m: CdefModel) -> bool {
        &&& self.damping == m.damping
        &&& 3 <= self.damping <= 6
        &&& self.bits == m.bits
        &&& self.bits <= 3
        &&& same_bytes(self.y@, m.y)
        &&& same_bytes(self.uv@, m.uv)
        &&& self.y@.len() >= 1
        &&& forall|i: int| 0 <= i < self.y@.len() ==> #[trigger] self.y@[i] <= 27
        &&& forall|i: int| 0 <= i < self.uv@.len() ==> #[trigger] self.uv@[i] <= 27
    }
}

/// Reads `n` packed strengths.
fn read_strengths(br: &mut BitReader<'_>, n: u32) -> (r: Result<Vec<u8>, KinetixError>)
    requires
        old(br).wf(),
        n <= 8,
    ensures
        ({
            let d = old(br).data();
            let p = old(br).pos();
            &&& reads(*old(br), *final(br), 6 * n, r)
            &&& r matches Ok(v) ==> {
                &&& v@.len() == n
                &&& forall|i: int|
                    0 <= i < n ==> #[trigger] v@[i] == strength_at(d, p + 6 * i) && v@[i] <= 27
            }
        }),
{
    let ghost d = br.data();
    let ghost p = br.pos();
    let mut v: Vec<u8> = Vec::new();
    let mut i: u32 = 0;
    proof {
        br.lemma_wf();
    }
    while i < n
        invariant
            i <= n <= 8,
            br.wf(),
            br.data() == d,
            d == old(br).data(),
            p == old(br).pos(),
            br.pos() == p + 6 * i,
            br.pos() <= 8 * d.len(),
            v@.len() == i,
            forall|k: int|
                0 <= k < i ==> #[trigger] v@[k] == strength_at(d, p + 6 * k) && v@[k] <= 27,
        decreases n - i,
    {
        proof {
            lemma_pow2i_values();
        }
        let pri: u8 = read_f8(br, 4)?;
        let sec: u8 = read_f8(br, 2)?;
        v.push(pri + sec * 4);
        i = i + 1;
        proof {
            br.lemma_wf();
        }
    }
    Ok(v)
}

/// Parses the directional enhancement part.
pub(crate) fn parse_cdef(br: &mut BitReader<'_>, off: bool, chroma: bool) -> (r: Result<
    Cdef,
    KinetixError,
>)
    requires
        old(br).wf(),
    ensures
        ({
            let m = cdef_model(old(br).data(), old(br).pos(), off, chroma);
            &&& reads(*old(br), *final(br), m.end - old(br).pos(), r)
            &&& r matches Ok(t) ==> t.models(m)
        }),
{
    proof {
        reveal(cdef_model);
        lemma_pow2i_values();
        br.lemma_wf();
        lemma_bits_range(br.data(), br.pos() + 2, 2);
        lemma_pow2i_mono(0, bits_at(br.data(), br.pos() + 2, 2));
    }
    if off {
        let mut y: Vec<u8> = Vec::new();
        y.push(0);
        let mut uv: Vec<u8> = Vec::new();
        uv.push(0);
        return Ok(Cdef { damping: 3, bits: 0, y, uv });
    }
    let damping: u8 = read_f8(br, 2)? + 3;
    let bits: u8 = read_f8(br, 2)?;
    proof {
        lemma_shl_pow2(bits as u32);
        lemma_pow2i_mono(bits as int, 3);
    }
    let n: u32 = 1u32 << (bits as u32);
    let y: Vec<u8> = read_strengths(br, n)?;
    let mut uv: Vec<u8> = Vec::new();
    if chroma {
        uv = read_strengths(br, n)?;
    }
    Ok(Cdef { damping, bits, y, uv })
}

/// Where the loop restoration part at `p` ends: a type per plane, then the unit
/// size if a plane is restored, and a chroma shift if a subsampled one is.
#[verifier::opaque]
pub open spec fn lr_end(
    d: Seq<u8>,
    p: int,
    off: bool,
    chroma: bool,
    subsampled: bool,
    use_128: bool,
) -> int {
    if off {
        p
    } else {
        let chroma_used = chroma && (bits_at(d, p + 2, 2) != 0 || bits_at(d, p + 4, 2) != 0);
        let used = bits_at(d, p, 2) != 0 || chroma_used;
        let p1 = p + 2 + opt(chroma, 4);
        let p2 = p1 + opt(used, 1);
        let p3 = p2 + opt(used && !use_128 && flag_at(d, p1), 1);
        p3 + opt(subsampled && chroma_used, 1)
    }
}

/// Skips the loop restoration part.
pub(crate) fn parse_lr(
    br: &mut BitReader<'_>,
    off: bool,
    chroma: bool,
    subsampled: bool,
    use_128: bool,
) -> (r: Result<(), KinetixError>)
    requires
        old(br).wf(),
    ensures
        reads(
            *old(br),
            *final(br),
            lr_end(old(br).data(), old(br).pos(), off, chroma, subsampled, use_128) - old(br).pos(),
            r,
        ),
{
    proof {
        reveal(lr_end);
        br.lemma_wf();
    }
    if off {
        return Ok(());
    }
    let y_type: u8 = read_f8(br, 2)?;
    let mut uses_chroma_lr: bool = false;
    if chroma {
        let u_type: u8 = read_f8(br, 2)?;
        let v_type: u8 = read_f8(br, 2)?;
        uses_chroma_lr = u_type != 0 || v_type != 0;
    }
    if y_type != 0 || uses_chroma_lr {
        let shift: bool = read_flag(br)?;
        if !use_128 && shift {
            let _extra: bool = read_flag(br)?;
        }
        if subsampled && uses_chroma_lr {
            let _uv: bool = read_flag(br)?;
        }
    }
    Ok(())
}

// ---------------------------------------------------------------------------
// Global motion
// ---------------------------------------------------------------------------

/// Undoes the folding of a number around the centre `r`.
pub open spec fn recentered(r: int, v: int) -> int {
    if v > 2 * r {
        v - r
    } else if v % 2 != 0 {
        (v + 1) / 2
    } else {
        -(v / 2)
    }
}

/// Undoes the folding of a number around the centre `r`.
fn inverse_recenter(r: i32, v: i32) -> (x: i32)
    requires
        0 <= r <= 0x10_0000,
        0 <= v <= 0x10_0000,
    ensures
        x == recentered(r as int, v as int),
{
    if v > 2 * r {
        v - r
    } else if v % 2 != 0 {
        (v + 1) / 2
    } else {
        -(v / 2)
    }
}

/// The step width of round `i` of an exponential code: eight, then eight, sixteen
/// and so on.
pub open spec fn subexp_bits(i: int) -> int {
    if i <= 0 {
        3
    } else {
        2 + i
    }
}

/// The number below `n` coded at `p`, from round `i` with `mk` numbers behind it.
pub open spec fn subexp_value(d: Seq<u8>, p: int, n: int, i: int, mk: int) -> int
    decreases n - mk,
{
    let a = pow2i(subexp_bits(i));
    if n <= mk + 3 * a || a <= 0 {
        ns_value(d, p, n - mk) + mk
    } else if flag_at(d, p) {
        subexp_value(d, p + 1, n, i + 1, mk + a)
    } else {
        bits_at(d, p + 1, subexp_bits(i)) + mk
    }
}

/// Where the number that `subexp_value` gives ends.
pub open spec fn subexp_end(d: Seq<u8>, p: int, n: int, i: int, mk: int) -> int
    decreases n - mk,
{
    let a = pow2i(subexp_bits(i));
    if n <= mk + 3 * a || a <= 0 {
        p + ns_len(d, p, n - mk)
    } else if flag_at(d, p) {
        subexp_end(d, p + 1, n, i + 1, mk + a)
    } else {
        p + 1 + subexp_bits(i)
    }
}

/// An exponential code of a number below `n` gives a number below `n`.
pub proof fn lemma_subexp(d: Seq<u8>, p: int, n: int, i: int, mk: int)
    requires
        0 <= mk < n,
        0 <= i,
    ensures
        0 <= subexp_value(d, p, n, i, mk) < n,
        p <= subexp_end(d, p, n, i, mk),
    decreases n - mk,
{
    let a = pow2i(subexp_bits(i));
    lemma_pow2i_mono(0, subexp_bits(i));
    if n <= mk + 3 * a || a <= 0 {
        lemma_ns_range(d, p, n - mk);
    } else if flag_at(d, p) {
        lemma_subexp(d, p + 1, n, i + 1, mk + a);
    } else {
        lemma_bits_range(d, p + 1, subexp_bits(i));
    }
}

/// Reads an exponential code of a number below `num_syms`.
fn decode_subexp(br: &mut BitReader<'_>, num_syms: u32) -> (r: Result<u32, KinetixError>)
    requires
        old(br).wf(),
        1 <= num_syms <= 0x10_0000,
    ensures
        ({
            let d = old(br).data();
            let p = old(br).pos();
            let n = num_syms as int;
            &&& reads(*old(br), *final(br), subexp_end(d, p, n, 0, 0) - p, r)
            &&& r matches Ok(v) ==> v == subexp_value(d, p, n, 0, 0) && v < num_syms
        }),
{
    let ghost d = br.data();
    let ghost p = br.pos();
    let ghost n = num_syms as int;
    let mut i: u32 = 0;
    let mut mk: u32 = 0;
    proof {
        lemma_subexp(d, p, n, 0, 0);
        lemma_pow2i_values();
        br.lemma_wf();
    }
    loop
        invariant
            mk < num_syms,
            num_syms <= 0x10_0000,
            n == num_syms,
            i <= 18,
            i > 0 ==> pow2i(1 + i) <= num_syms,
            br.wf(),
            br.data() == d,
            br.pos() <= 8 * d.len(),
            d == old(br).data(),
            p == old(br).pos(),
            subexp_value(d, br.pos(), n, i as int, mk as int) == subexp_value(d, p, n, 0, 0),
            subexp_end(d, br.pos(), n, i as int, mk as int) == subexp_end(d, p, n, 0, 0),
            0 <= subexp_value(d, p, n, 0, 0) < n,
            pow2i(3) == 8,
            pow2i(20) == 0x10_0000,
        decreases num_syms - mk,
    {
        let b2: u32 = if i == 0 {
            3
        } else {
            2 + i
        };
        proof {
            lemma_shl_pow2(b2);
            lemma_pow2i_mono(b2 as int, 20);
            lemma_pow2i_mono(0, b2 as int);
            lemma_subexp(d, br.pos(), n, i as int, mk as int);
        }
        let a: u32 = 1u32 << b2;
        if num_syms <= mk + 3 * a {
            let sub: u32 = read_ns(br, num_syms - mk)?;
            return Ok(sub + mk);
        }
        proof {
            if flag_at(d, br.pos()) {
                lemma_subexp(d, br.pos() + 1, n, i + 1, mk + a);
            }
            if i + 1 > 18 {
                lemma_pow2i_mono(20, b2 as int);
            }
        }
        let more: bool = read_flag(br)?;
        if more {
            i = i + 1;
            mk = mk + a;
            proof {
                br.lemma_wf();
            }
        } else {
            let bits: u32 = read_f(br, b2 as u8)?;
            return Ok(bits + mk);
        }
    }
}

/// The number that is coded relative to `r`, below `mx` where the code is sound.
pub open spec fn unsigned_ref_value(d: Seq<u8>, p: int, mx: int, r: int) -> int {
    let v = subexp_value(d, p, mx, 0, 0);
    if 2 * r <= mx {
        recentered(r, v)
    } else {
        mx - 1 - recentered(mx - 1 - r, v)
    }
}

/// Reads a number coded relative to `r`.
fn decode_unsigned_subexp_with_ref(br: &mut BitReader<'_>, mx: u32, r: i32) -> (x: Result<
    i32,
    KinetixError,
>)
    requires
        old(br).wf(),
        1 <= mx <= 0x10_0000,
        0 <= r < mx,
    ensures
        ({
            let d = old(br).data();
            let p = old(br).pos();
            &&& reads(*old(br), *final(br), subexp_end(d, p, mx as int, 0, 0) - p, x)
            &&& x matches Ok(v) ==> v == unsigned_ref_value(d, p, mx as int, r as int)
            &&& x matches Ok(v) ==> -(mx as int) <= v <= 2 * mx
        }),
{
    let v: u32 = decode_subexp(br, mx)?;
    if 2 * r <= mx as i32 {
        Ok(inverse_recenter(r, v as i32))
    } else {
        Ok(mx as i32 - 1 - inverse_recenter(mx as i32 - 1 - r, v as i32))
    }
}

/// Reads a number from `low` up to `high`, coded relative to `r`.
fn decode_signed_subexp_with_ref(br: &mut BitReader<'_>, low: i32, high: i32, r: i32) -> (x: Result<
    i32,
    KinetixError,
>)
    requires
        old(br).wf(),
        -0x8_0000 <= low <= r < high <= 0x8_0000,
    ensures
        ({
            let d = old(br).data();
            let p = old(br).pos();
            &&& reads(*old(br), *final(br), subexp_end(d, p, high - low, 0, 0) - p, x)
            &&& x matches Ok(v) ==> v == unsigned_ref_value(d, p, high - low, r - low) + low
            &&& x matches Ok(v) ==> low - (high - low) <= v <= low + 2 * (high - low)
        }),
{
    let v: i32 = decode_unsigned_subexp_with_ref(br, (high - low) as u32, r - low)?;
    Ok(v + low)
}

/// The number of magnitude bits of global motion parameter `idx`.
pub open spec fn gm_abs_bits(idx: int, kind: int, hp: bool) -> int {
    if idx >= 2 {
        12
    } else if kind == GM_TRANSLATION && !hp {
        8
    } else {
        9
    }
}

/// The number of fraction bits of global motion parameter `idx`.
pub open spec fn gm_prec_bits(idx: int, kind: int, hp: bool) -> int {
    if idx >= 2 {
        10
    } else if kind != GM_TRANSLATION {
        7
    } else if hp {
        6
    } else {
        5
    }
}

/// The value that a global motion parameter is coded relative to: the identity,
/// but for the second diagonal entry, whose previous value is zero.
pub open spec fn gm_reference(idx: int) -> int {
    if idx == 5 {
        -1024
    } else {
        0
    }
}

/// Global motion parameter `idx` coded at `p`, in sixteen fraction bits; diagonal
/// entries are coded as differences from one.
pub open spec fn gm_param(d: Seq<u8>, p: int, idx: int, kind: int, hp: bool) -> int {
    let mx = pow2i(gm_abs_bits(idx, kind, hp));
    let v = unsigned_ref_value(d, p, 2 * mx + 1, gm_reference(idx) + mx) - mx;
    v * pow2i(16 - gm_prec_bits(idx, kind, hp)) + opt(idx == 2 || idx == 5, 65536)
}

/// Where global motion parameter `idx` coded at `p` ends.
pub open spec fn gm_param_end(d: Seq<u8>, p: int, idx: int, kind: int, hp: bool) -> int {
    subexp_end(d, p, 2 * pow2i(gm_abs_bits(idx, kind, hp)) + 1, 0, 0)
}

/// Reads global motion parameter `idx`.
fn read_global_param(br: &mut BitReader<'_>, idx: usize, kind: u8, hp: bool) -> (r: Result<
    i32,
    KinetixError,
>)
    requires
        old(br).wf(),
        idx < 6,
        1 <= kind <= 3,
    ensures
        ({
            let d = old(br).data();
            let p = old(br).pos();
            &&& reads(
                *old(br),
                *final(br),
                gm_param_end(d, p, idx as int, kind as int, hp) - p,
                r,
            )
            &&& p <= gm_param_end(d, p, idx as int, kind as int, hp)
            &&& r matches Ok(v) ==> v == gm_param(d, p, idx as int, kind as int, hp)
            &&& r matches Ok(v) ==> -0x1000_0000 <= v <= 0x1000_0000
        }),
{
    proof {
        lemma_pow2i_values();
        let mx = pow2i(gm_abs_bits(idx as int, kind as int, hp));
        lemma_subexp(br.data(), br.pos(), 2 * mx + 1, 0, 0);
    }
    let mut mx: i32 = 4096;
    let mut scale: i32 = 64;
    if idx < 2 {
        if kind != GM_TRANSLATION {
            mx = 512;
            scale = 512;
        } else if hp {
            mx = 512;
            scale = 1024;
        } else {
            mx = 256;
            scale = 2048;
        }
    }
    let reference: i32 = if idx == 5 {
        -1024
    } else {
        0
    };
    let base: i32 = if idx == 2 || idx == 5 {
        65536
    } else {
        0
    };
    let v: i32 = decode_signed_subexp_with_ref(br, -mx, mx + 1, reference)?;
    proof {
        assert(-0x800_0000 <= v * scale <= 0x800_0000) by (nonlinear_arith)
            requires
                -20000 <= v <= 20000,
                0 <= scale <= 2048,
        ;
    }
    Ok(v * scale + base)
}

/// The global motion of one reference frame.
pub struct GmModel {
    pub kind: int,
    pub params: Seq<int>,
    pub end: int,
}

/// The parameters of no motion.
pub open spec fn gm_identity() -> Seq<int> {
    seq![0, 0, 65536, 0, 0, 0]
}

/// The global motion coded at `p`: none, a translation, a rotation with zoom
/// (whose matrix is given by its first row), or an affine map.
#[verifier::opaque]
pub open spec fn gm_model(d: Seq<u8>, p: int, hp: bool) -> GmModel {
    if !flag_at(d, p) {
        GmModel { kind: GM_IDENTITY as int, params: gm_identity(), end: p + 1 }
    } else {
        let rotzoom = flag_at(d, p + 1);
        let kind = if rotzoom {
            GM_ROTZOOM as int
        } else if flag_at(d, p + 2) {
            GM_TRANSLATION as int
        } else {
            GM_AFFINE as int
        };
        let affine = kind == GM_AFFINE;
        let matrix = rotzoom || affine;
        let q = p + 2 + opt(!rotzoom, 1);
        let q2 = if matrix {
            gm_param_end(d, q, 2, kind, hp)
        } else {
            q
        };
        let q3 = if matrix {
            gm_param_end(d, q2, 3, kind, hp)
        } else {
            q2
        };
        let q4 = if affine {
            gm_param_end(d, q3, 4, kind, hp)
        } else {
            q3
        };
        let q5 = if affine {
            gm_param_end(d, q4, 5, kind, hp)
        } else {
            q4
        };
        let q0 = gm_param_end(d, q5, 0, kind, hp);
        let m2 = if matrix {
            gm_param(d, q, 2, kind, hp)
        } else {
            65536
        };
        let m3 = if matrix {
            gm_param(d, q2, 3, kind, hp)
        } else {
            0
        };
        GmModel {
            kind,
            params: seq![
                gm_param(d, q5, 0, kind, hp),
                gm_param(d, q0, 1, kind, hp),
                m2,
                m3,
                if affine {
                    gm_param(d, q3, 4, kind, hp)
                } else if rotzoom {
                    -m3
                } else {
                    0
                },
                if affine {
                    gm_param(d, q4, 5, kind, hp)
                } else if rotzoom {
                    m2
                } else {
                    0
                },
            ],
            end: gm_param_end(d, q0, 1, kind, hp),
        }
    }
}

/// Parses the global motion of one reference frame.
fn parse_gm(br: &mut BitReader<'_>, hp: bool) -> (r: Result<(u8, [i32; 6]), KinetixError>)
    requires
        old(br).wf(),
    ensures
        ({
            let m = gm_model(old(br).data(), old(br).pos(), hp);
            &&& reads(*old(br), *final(br), m.end - old(br).pos(), r)
            &&& r matches Ok((kind, params)) ==> {
                &&& kind == m.kind
                &&& m.params.len() == 6
                &&& forall|i: int| 0 <= i < 6 ==> #[trigger] params[i] == m.params[i]
            }
        }),
{
    let ghost d = br.data();
    let ghost p = br.pos();
    proof {
        reveal(gm_model);
        br.lemma_wf();
        lemma_gm_end(d, p, hp);
    }
    let mut params: [i32; 6] = [0, 0, 65536, 0, 0, 0];
    let is_global: bool = read_flag(br)?;
    if !is_global {
        return Ok((GM_IDENTITY, params));
    }
    let mut kind: u8 = GM_ROTZOOM;
    let rotzoom: bool = read_flag(br)?;
    if !rotzoom {
        let translation: bool = read_flag(br)?;
        kind = if translation {
            GM_TRANSLATION
        } else {
            GM_AFFINE
        };
    }
    if kind >= GM_ROTZOOM {
        params[2] = read_global_param(br, 2, kind, hp)?;
        params[3] = read_global_param(br, 3, kind, hp)?;
        if kind == GM_AFFINE {
            params[4] = read_global_param(br, 4, kind, hp)?;
            params[5] = read_global_param(br, 5, kind, hp)?;
        } else {
            params[4] = -params[3];
            params[5] = params[2];
        }
    }
    params[0] = read_global_param(br, 0, kind, hp)?;
    params[1] = read_global_param(br, 1, kind, hp)?;
    Ok((kind, params))
}

pub proof fn lemma_gm_param_end(d: Seq<u8>, p: int, idx: int, kind: int, hp: bool)
    ensures
        p <= gm_param_end(d, p, idx, kind, hp),
{
    let mx = pow2i(gm_abs_bits(idx, kind, hp));
    lemma_pow2i_mono(0, gm_abs_bits(idx, kind, hp));
    lemma_subexp(d, p, 2 * mx + 1, 0, 0);
}

/// The positions inside a global motion part do not go back.
pub proof fn lemma_gm_end(d: Seq<u8>, p: int, hp: bool)
    ensures
        p < gm_model(d, p, hp).end,
        flag_at(d, p) ==> ({
            let rotzoom = flag_at(d, p + 1);
            let kind = if rotzoom {
                GM_ROTZOOM as int
            } else if flag_at(d, p + 2) {
                GM_TRANSLATION as int
            } else {
                GM_AFFINE as int
            };
            let affine = kind == GM_AFFINE;
            let matrix = rotzoom || affine;
            let q = p + 2 + opt(!rotzoom, 1);
            let q2 = if matrix {
                gm_param_end(d, q, 2, kind, hp)
            } else {
                q
            };
            let q3 = if matrix {
                gm_param_end(d, q2, 3, kind, hp)
            } else {
                q2
            };
            let q4 = if affine {
                gm_param_end(d, q3, 4, kind, hp)
            } else {
                q3
            };
            let q5 = if affine {
                gm_param_end(d, q4, 5, kind, hp)
            } else {
                q4
            };
            let q0 = gm_param_end(d, q5, 0, kind, hp);
            &&& q <= q2 <= q3 <= q4 <= q5 <= q0 <= gm_model(d, p, hp).end
        }),
{
    reveal(gm_model);
    if flag_at(d, p) {
        let rotzoom = flag_at(d, p + 1);
        let kind = if rotzoom {
            GM_ROTZOOM as int
        } else if flag_at(d, p + 2) {
            GM_TRANSLATION as int
        } else {
            GM_AFFINE as int
        };
        let affine = kind == GM_AFFINE;
        let matrix = rotzoom || affine;
        let q = p + 2 + opt(!rotzoom, 1);
        lemma_gm_param_end(d, q, 2, kind, hp);
        let q2 = if matrix {
            gm_param_end(d, q, 2, kind, hp)
        } else {
            q
        };
        lemma_gm_param_end(d, q2, 3, kind, hp);
        let q3 = if matrix {
            gm_param_end(d, q2, 3, kind, hp)
        } else {
            q2
        };
        lemma_gm_param_end(d, q3, 4, kind, hp);
        let q4 = if affine {
            gm_param_end(d, q3, 4, kind, hp)
        } else {
            q3
        };
        lemma_gm_param_end(d, q4, 5, kind, hp);
        let q5 = if affine {
            gm_param_end(d, q4, 5, kind, hp)
        } else {
            q4
        };
        lemma_gm_param_end(d, q5, 0, kind, hp);
        lemma_gm_param_end(d, gm_param_end(d, q5, 0, kind, hp), 1, kind, hp);
    }
}

/// Where the global motion of reference frame `k` starts, that of frame 1
/// standing at `p`.
pub open spec fn gm_pos(d: Seq<u8>, p: int, hp: bool, k: int) -> int
    decreases k,
{
    if k <= 1 {
        p
    } else {
        gm_model(d, gm_pos(d, p, hp, k - 1), hp).end
    }
}

pub proof fn lemma_gm_pos(d: Seq<u8>, p: int, hp: bool, j: int, k: int)
    requires
        1 <= j <= k,
    ensures
        gm_pos(d, p, hp, j) <= gm_pos(d, p, hp, k),
    decreases k - j,
{
    if j < k {
        lemma_gm_pos(d, p, hp, j, k - 1);
        lemma_gm_end(d, gm_pos(d, p, hp, k - 1), hp);
    }
}

/// Where the global motion part at `p` ends; intra frames have none.
pub open spec fn gm_end(d: Seq<u8>, p: int, intra: bool, hp: bool) -> int {
    if intra {
        p
    } else {
        gm_pos(d, p, hp, 8)
    }
}

/// The motion of every reference frame is the one coded for it, or none.
#[verifier::opaque]
pub open spec fn gm_arrays(
    d: Seq<u8>,
    p: int,
    intra: bool,
    hp: bool,
    kinds: [u8; 8],
    params: [[i32; 6]; 8],
) -> bool {
    &&& forall|k: int|
        0 <= k < 8 ==> #[trigger] kinds[k] == if intra || k == 0 {
            GM_IDENTITY as int
        } else {
            gm_model(d, gm_pos(d, p, hp, k), hp).kind
        }
    &&& forall|k: int, i: int|
        0 <= k < 8 && 0 <= i < 6 ==> #[trigger] params[k][i] == if intra || k == 0 {
            gm_identity()[i]
        } else {
            gm_model(d, gm_pos(d, p, hp, k), hp).params[i]
        }
}

/// Parses the global motion part.
pub(crate) fn parse_global_motion(br: &mut BitReader<'_>, intra: bool, hp: bool) -> (r: Result<
    ([u8; 8], [[i32; 6]; 8]),
    KinetixError,
>)
    requires
        old(br).wf(),
    ensures
        ({
            let d = old(br).data();
            let p = old(br).pos();
            &&& reads(*old(br), *final(br), gm_end(d, p, intra, hp) - p, r)
            &&& r matches Ok((kinds, params)) ==> gm_arrays(d, p, intra, hp, kinds, params)
        }),
{
    let ghost d = br.data();
    let ghost p = br.pos();
    let mut kinds: [u8; 8] = [GM_IDENTITY; 8];
    let mut params: [[i32; 6]; 8] = [[0, 0, 65536, 0, 0, 0]; 8];
    proof {
        reveal(gm_arrays);
        br.lemma_wf();
    }
    if intra {
        return Ok((kinds, params));
    }
    let mut k: usize = 1;
    while k < 8
        invariant
            1 <= k <= 8,
            !intra,
            br.wf(),
            br.data() == d,
            br.pos() <= 8 * d.len(),
            d == old(br).data(),
            p == old(br).pos(),
            br.pos() == gm_pos(d, p, hp, k as int),
            forall|j: int|
                0 <= j < 8 ==> #[trigger] kinds[j] == if j == 0 || j >= k {
                    GM_IDENTITY as int
                } else {
                    gm_model(d, gm_pos(d, p, hp, j), hp).kind
                },
            forall|j: int, i: int|
                0 <= j < 8 && 0 <= i < 6 ==> #[trigger] params[j][i] == if j == 0 || j >= k {
                    gm_identity()[i]
                } else {
                    gm_model(d, gm_pos(d, p, hp, j), hp).params[i]
                },
        decreases 8 - k,
    {
        proof {
            lemma_gm_pos(d, p, hp, k + 1, 8);
        }
        let (kind, motion): (u8, [i32; 6]) = parse_gm(br, hp)?;
        kinds[k] = kind;
        params[k] = motion;
        k = k + 1;
        proof {
            br.lemma_wf();
        }
    }
    Ok((kinds, params))
}

// ---------------------------------------------------------------------------
// Film grain
// ---------------------------------------------------------------------------

/// Skips `n` bytes.
fn skip_bytes(br: &mut BitReader<'_>, n: u32) -> (r: Result<(), KinetixError>)
    requires
        old(br).wf(),
    ensures
        reads(*old(br), *final(br), 8 * n, r),
{
    let ghost d = br.data();
    let ghost p = br.pos();
    let mut i: u32 = 0;
    proof {
        br.lemma_wf();
    }
    while i < n
        invariant
            i <= n,
            br.wf(),
            br.data() == d,
            br.pos() <= 8 * d.len(),
            d == old(br).data(),
            p == old(br).pos(),
            br.pos() == p + 8 * i,
        decreases n - i,
    {
        let _byte: u8 = read_f8(br, 8)?;
        i = i + 1;
        proof {
            br.lemma_wf();
        }
    }
    Ok(())
}

/// The points of the grain scaling functions: how many there are per plane, and
/// where they end.
pub struct PointsModel {
    pub luma: int,
    pub from_luma: bool,
    pub cb: int,
    pub cr: int,
    pub end: int,
}

/// The scaling points at `p`: four bits of count and two bytes each.
#[verifier::opaque]
pub open spec fn grain_points(d: Seq<u8>, p: int, mono: bool, subsampled: bool) -> PointsModel {
    let luma = bits_at(d, p, 4);
    let p1 = p + 4 + 16 * luma;
    let from_luma = !mono && flag_at(d, p1);
    let p2 = p1 + opt(!mono, 1);
    let chroma = !mono && !from_luma && !(subsampled && luma == 0);
    let cb = opt(chroma, bits_at(d, p2, 4));
    let p3 = p2 + opt(chroma, 4 + 16 * cb);
    let cr = opt(chroma, bits_at(d, p3, 4));
    PointsModel { luma, from_luma, cb, cr, end: p3 + opt(chroma, 4 + 16 * cr) }
}

/// Skips the scaling points and counts them.
fn parse_grain_points(br: &mut BitReader<'_>, mono: bool, subsampled: bool) -> (r: Result<
    (u8, bool, u8, u8),
    KinetixError,
>)
    requires
        old(br).wf(),
    ensures
        ({
            let m = grain_points(old(br).data(), old(br).pos(), mono, subsampled);
            &&& reads(*old(br), *final(br), m.end - old(br).pos(), r)
            &&& r matches Ok((luma, from_luma, cb, cr)) ==> {
                &&& luma == m.luma
                &&& from_luma == m.from_luma
                &&& cb == m.cb
                &&& cr == m.cr
            }
        }),
{
    let ghost d = br.data();
    let ghost p = br.pos();
    proof {
        reveal(grain_points);
        lemma_pow2i_values();
        lemma_bits_range(d, p, 4);
        let m = grain_points(d, p, mono, subsampled);
        let p2 = p + 4 + 16 * m.luma + opt(!mono, 1);
        lemma_bits_range(d, p2, 4);
        lemma_bits_range(d, p2 + 4 + 16 * bits_at(d, p2, 4), 4);
        br.lemma_wf();
    }
    let luma: u8 = read_f8(br, 4)?;
    skip_bytes(br, 2 * luma as u32)?;
    let mut from_luma: bool = false;
    if !mono {
        from_luma = read_flag(br)?;
    }
    let mut cb: u8 = 0;
    let mut cr: u8 = 0;
    if !(mono || from_luma || (subsampled && luma == 0)) {
        cb = read_f8(br, 4)?;
        skip_bytes(br, 2 * cb as u32)?;
        cr = read_f8(br, 4)?;
        skip_bytes(br, 2 * cr as u32)?;
    }
    Ok((luma, from_luma, cb, cr))
}

/// Where the film grain parameters end whose scaling points are `m`.
#[verifier::opaque]
pub open spec fn grain_tail(d: Seq<u8>, m: PointsModel) -> int {
    let lag = bits_at(d, m.end + 2, 2);
    let positions = 2 * lag * (lag + 1);
    let chroma_positions = positions + opt(m.luma > 0, 1);
    let p1 = m.end + 4 + opt(m.luma > 0, 8 * positions);
    let p2 = p1 + opt(m.from_luma || m.cb > 0, 8 * chroma_positions);
    let p3 = p2 + opt(m.from_luma || m.cr > 0, 8 * chroma_positions);
    p3 + 4 + opt(m.cb > 0, 25) + opt(m.cr > 0, 25) + 2
}

/// Skips the film grain parameters behind the scaling points.
fn skip_grain_tail(
    br: &mut BitReader<'_>,
    luma: u8,
    from_luma: bool,
    cb: u8,
    cr: u8,
) -> (r: Result<(), KinetixError>)
    requires
        old(br).wf(),
    ensures
        ({
            let m = PointsModel {
                luma: luma as int,
                from_luma,
                cb: cb as int,
                cr: cr as int,
                end: old(br).pos(),
            };
            &&& reads(*old(br), *final(br), grain_tail(old(br).data(), m) - old(br).pos(), r)
            &&& old(br).pos() <= grain_tail(old(br).data(), m)
        }),
{
    proof {
        reveal(grain_tail);
        lemma_pow2i_values();
        lemma_bits_range(br.data(), br.pos() + 2, 2);
        let lag = bits_at(br.data(), br.pos() + 2, 2);
        assert(0 <= 2 * lag * (lag + 1) <= 24) by (nonlinear_arith)
            requires
                0 <= lag <= 3,
        ;
        br.lemma_wf();
    }
    let _scaling: u8 = read_f8(br, 2)?;
    let lag: u32 = read_f8(br, 2)? as u32;
    assert(2 * lag * (lag + 1) <= 24) by (nonlinear_arith)
        requires
            0 <= lag <= 3,
    ;
    let positions: u32 = 2 * lag * (lag + 1);
    let chroma_positions: u32 = if luma > 0 {
        positions + 1
    } else {
        positions
    };
    if luma > 0 {
        skip_bytes(br, positions)?;
    }
    if from_luma || cb > 0 {
        skip_bytes(br, chroma_positions)?;
    }
    if from_luma || cr > 0 {
        skip_bytes(br, chroma_positions)?;
    }
    let _ar_shift: u8 = read_f8(br, 2)?;
    let _grain_shift: u8 = read_f8(br, 2)?;
    if cb > 0 {
        let _mult: u32 = read_f(br, 25)?;
    }
    if cr > 0 {
        let _mult: u32 = read_f(br, 25)?;
    }
    let _overlap: bool = read_flag(br)?;
    let _clip: bool = read_flag(br)?;
    Ok(())
}

/// Where the film grain part at `p` ends; `off` where a frame has none.
#[verifier::opaque]
pub open spec fn grain_end(
    d: Seq<u8>,
    p: int,
    off: bool,
    frame_type: FrameType,
    mono: bool,
    subsampled: bool,
) -> int {
    if off {
        p
    } else if !flag_at(d, p) {
        p + 1
    } else {
        let q = p + 17 + opt(frame_type == FrameType::InterFrame, 1);
        grain_tail(d, grain_points(d, q, mono, subsampled))
    }
}

pub proof fn lemma_grain(d: Seq<u8>, p: int, mono: bool, subsampled: bool)
    ensures
        p <= grain_points(d, p, mono, subsampled).end <= grain_tail(
            d,
            grain_points(d, p, mono, subsampled),
        ),
{
    reveal(grain_points);
    reveal(grain_tail);
    let m = grain_points(d, p, mono, subsampled);
    lemma_bits_range(d, p, 4);
    let p2 = p + 4 + 16 * m.luma + opt(!mono, 1);
    lemma_bits_range(d, p2, 4);
    lemma_bits_range(d, p2 + 4 + 16 * bits_at(d, p2, 4), 4);
    lemma_bits_range(d, m.end + 2, 2);
    let lag = bits_at(d, m.end + 2, 2);
    assert(0 <= 2 * lag * (lag + 1)) by (nonlinear_arith)
        requires
            0 <= lag,
    ;
}

/// Skips the film grain part.
pub(crate) fn parse_film_grain(
    br: &mut BitReader<'_>,
    off: bool,
    frame_type: FrameType,
    mono: bool,
    subsampled: bool,
) -> (r: Result<(), KinetixError>)
    requires
        old(br).wf(),
    ensures
        reads(
            *old(br),
            *final(br),
            grain_end(old(br).data(), old(br).pos(), off, frame_type, mono, subsampled) - old(
                br,
            ).pos(),
            r,
        ),
{
    let ghost d = br.data();
    let ghost p = br.pos();
    proof {
        reveal(grain_end);
        br.lemma_wf();
        lemma_grain(
            d,
            p + 17 + opt(frame_type == FrameType::InterFrame, 1),
            mono,
            subsampled,
        );
    }
    if off {
        return Ok(());
    }
    let apply: bool = read_flag(br)?;
    if !apply {
        return Ok(());
    }
    let _seed: u32 = read_f(br, 16)?;
    if frame_type == FrameType::InterFrame {
        let _update: bool = read_flag(br)?;
    }
    let (luma, from_luma, cb, cr): (u8, bool, u8, u8) = parse_grain_points(br, mono, subsampled)?;
    skip_grain_tail(br, luma, from_luma, cb, cr)
}

// ---------------------------------------------------------------------------
// Alignment
// ---------------------------------------------------------------------------

/// The first byte boundary at or behind `p`.
pub open spec fn aligned(p: int) -> int {
    (p + 7) / 8 * 8
}

/// Every bit from `p` up to the next byte boundary is zero.
pub open spec fn padding_clear(d: Seq<u8>, p: int) -> bool {
    forall|q: int| p <= q < aligned(p) ==> #[trigger] bit_at(d, q) == 0
}

/// Reads zero bits up to the next byte boundary.
pub(crate) fn byte_align(br: &mut BitReader<'_>) -> (r: Result<(), KinetixError>)
    requires
        old(br).wf(),
        8 * old(br).data().len() <= usize::MAX,
    ensures
        final(br).wf(),
        final(br).data() == old(br).data(),
        padding_clear(old(br).data(), old(br).pos()) ==> r is Ok && final(br).pos() == aligned(
            old(br).pos(),
        ),
        !padding_clear(old(br).data(), old(br).pos()) ==> r == Err::<(), _>(
            KinetixError::Parse(ParseError::TrailingBits),
        ),
{
    let ghost d = br.data();
    let ghost p = br.pos();
    proof {
        br.lemma_wf();
    }
    while br.bits_read() % 8 != 0
        invariant
            br.wf(),
            br.data() == d,
            d == old(br).data(),
            p == old(br).pos(),
            8 * d.len() <= usize::MAX,
            p <= br.pos() <= aligned(p) <= 8 * d.len(),
            forall|q: int| p <= q < br.pos() ==> #[trigger] bit_at(d, q) == 0,
        decreases aligned(p) - br.pos(),
    {
        match br.read_bit() {
            Some(b) => {
                if b != 0 {
                    return Err(KinetixError::Parse(ParseError::TrailingBits));
                }
            },
            None => {
                return Err(KinetixError::Parse(ParseError::Truncated));
            },
        }
    }
    Ok(())
}

/// The parts of a header follow one another.
pub proof fn lemma_header_ends(d: Seq<u8>, seq: SequenceHeaderObu)
    requires
        seq.wf(),
    ensures
        ({
            let m = crate::frame::header_model(d, seq);
            &&& 0 <= m.kind.end <= m.hints.end <= m.refs.end < m.tile.end < m.quant.end < m.seg.end
            &&& m.seg.end <= m.deltas.end <= m.filter.end <= m.cdef.end < m.end
        }),
{
    let m = crate::frame::header_model(d, seq);
    let chroma = !seq.color_config.mono_chrome;
    lemma_kind_end(d, seq);
    lemma_hints_end(d, m.kind.end, seq, m.kind);
    lemma_refs_end(d, m.hints.end, seq, m.kind);
    let t = m.refs.end + opt(!(seq.reduced_still_picture_header || m.kind.disable_cdf_update), 1);
    lemma_tile_end(d, t, m.refs.size.width, m.refs.size.height, seq.use_128x128_superblock);
    lemma_quant_end(d, m.tile.end, chroma, seq.color_config.separate_uv_delta_q);
    lemma_seg_end(d, m.quant.end, m.hints.primary_ref_frame);
    assert(m.seg.end <= m.deltas.end) by {
        reveal(deltas_model);
    }
    let off = m.lossless || m.refs.allow_intrabc;
    lemma_loop_end(d, m.deltas.end, off, chroma);
    assert(m.filter.end <= m.cdef.end) by {
        reveal(cdef_model);
        lemma_bits_range(d, m.filter.end + 2, 2);
        lemma_pow2i_mono(0, bits_at(d, m.filter.end + 2, 2));
    }
    lemma_back_ends(d, m.cdef.end, seq, m.kind, m.refs, m.lossless);
}

/// The parts of a header behind the filters follow one another.
pub proof fn lemma_back_ends(
    d: Seq<u8>,
    p: int,
    seq: SequenceHeaderObu,
    kind: KindModel,
    refs: RefsModel,
    lossless: bool,
)
    ensures
        ({
            let m = crate::frame::back_model(d, p, seq, kind, refs, lossless);
            &&& p <= crate::frame::restoration_end(d, p, seq, refs, lossless) < m.gm
            &&& m.gm <= gm_end(
                d,
                m.gm,
                type_is_intra(kind.frame_type),
                refs.allow_high_precision_mv,
            ) <= m.end
        }),
{
    reveal(crate::frame::back_model);
    reveal(lr_end);
    let m = crate::frame::back_model(d, p, seq, kind, refs, lossless);
    lemma_gm_pos(d, m.gm, refs.allow_high_precision_mv, 1, 8);
    let g = gm_end(d, m.gm, type_is_intra(kind.frame_type), refs.allow_high_precision_mv);
    lemma_grain(
        d,
        g + 17 + opt(kind.frame_type == FrameType::InterFrame, 1),
        seq.color_config.mono_chrome,
        seq.color_config.subsampling_x && seq.color_config.subsampling_y,
    );
    reveal(grain_end);
}

proof fn lemma_kind_end(d: Seq<u8>, seq: SequenceHeaderObu)
    ensures
        0 <= kind_model(d, seq).end,
{
    reveal(kind_model);
}

proof fn lemma_hints_end(d: Seq<u8>, p: int, seq: SequenceHeaderObu, k: KindModel)
    ensures
        p <= hints_model(d, p, seq, k).end,
{
    reveal(hints_model);
    lemma_removal_bits(seq, 0, seq.operating_points_cnt_minus_1 + 1);
}

pub proof fn lemma_refs_end(d: Seq<u8>, p: int, seq: SequenceHeaderObu, k: KindModel)
    requires
        seq.wf(),
    ensures
        p <= refs_model(d, p, seq, k).end,
        1 <= refs_model(d, p, seq, k).size.width <= 0x1_0000,
        1 <= refs_model(d, p, seq, k).size.height <= 0x1_0000,
{
    reveal(refs_model);
    if type_is_intra(k.frame_type) {
        lemma_frame_size(d, p, seq, k.frame_size_override_flag);
    } else {
        let short = seq.enable_order_hint && flag_at(d, p);
        let p2 = p + opt(seq.enable_order_hint, 1) + if short {
            6int
        } else {
            21
        };
        lemma_frame_size(d, p2, seq, k.frame_size_override_flag && !k.error_resilient_mode);
    }
}

pub proof fn lemma_sb_count(n: int, use_128: bool)
    requires
        1 <= n <= 0x1_0000,
    ensures
        1 <= sb_count(n, use_128) <= 1024,
{
}

pub proof fn lemma_tile_end(d: Seq<u8>, p: int, width: int, height: int, use_128: bool)
    requires
        1 <= width <= 0x1_0000,
        1 <= height <= 0x1_0000,
    ensures
        p < tile_model(d, p, width, height, use_128).end,
{
    reveal(tile_model);
    let sb_cols = sb_count(width, use_128);
    let sb_rows = sb_count(height, use_128);
    lemma_sb_count(width, use_128);
    lemma_sb_count(height, use_128);
    let min_cols = min_cols_log2(sb_cols, use_128);
    lemma_counted(d, p + 1, min_cols, max_side_log2(sb_cols));
    let p1 = counted_end(d, p + 1, min_cols, max_side_log2(sb_cols));
    let c = counted(d, p + 1, min_cols, max_side_log2(sb_cols));
    let min_tiles = min_tiles_log2(sb_cols, sb_rows, use_128);
    let min_rows = if min_tiles >= c {
        min_tiles - c
    } else {
        0
    };
    lemma_counted(d, p1, min_rows, max_side_log2(sb_rows));
    lemma_ns_range(d, p + 2, sb_cols);
    lemma_ns_range(d, p + 3 + ns_len(d, p + 2, sb_cols), sb_rows);
}

proof fn lemma_quant_end(d: Seq<u8>, p: int, chroma: bool, separate_uv: bool)
    ensures
        p < quant_model(d, p, chroma, separate_uv).end,
{
    reveal(quant_model);
}

proof fn lemma_seg_end(d: Seq<u8>, p: int, primary_ref_frame: int)
    ensures
        p < seg_model(d, p, primary_ref_frame).end,
{
    reveal(seg_model);
    lemma_feature_pos(d, seg_model(d, p, primary_ref_frame).grid, 0, 64);
}

proof fn lemma_loop_end(d: Seq<u8>, p: int, off: bool, chroma: bool)
    ensures
        p <= loop_model(d, p, off, chroma).end,
{
    reveal(loop_model);
    let more = chroma && (bits_at(d, p, 6) != 0 || bits_at(d, p + 6, 6) != 0);
    let p1 = p + 12 + opt(more, 12);
    lemma_delta_pos(d, p1 + 5, 0, 10);
}

} // verus!
