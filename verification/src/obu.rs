//! Open bitstream units: framing, and the sequence header payload.
use crate::bits::{
    bits_at, flag_at, lemma_leading_zeros, lemma_pow2i_mono, lemma_pow2i_values, pow2i, read_f,
    read_f8, read_flag, read_uvlc, reads, truncated, uvlc_end, BitReader,
};
use crate::error::KinetixError;
use vstd::prelude::*;

verus! {

/// The value of the first `n` groups of seven bits, least significant first.
pub open spec fn leb128_value(d: Seq<u8>, n: int) -> int
    decreases n,
{
    if n <= 0 {
        0
    } else {
        leb128_value(d, n - 1) + (d[n - 1] % 128) * pow2i(7 * (n - 1))
    }
}

/// `d` starts with a number of `n` bytes: all but the last continue.
pub open spec fn leb128_spans(d: Seq<u8>, n: int) -> bool {
    &&& 1 <= n <= 8
    &&& n <= d.len()
    &&& d[n - 1] < 128
    &&& forall|i: int| 0 <= i < n - 1 ==> #[trigger] d[i] >= 128
}

/// A byte string starts with at most one such number.
pub proof fn law_leb128_unique(d: Seq<u8>, n: int, m: int)
    requires
        leb128_spans(d, n),
        leb128_spans(d, m),
    ensures
        n == m,
{
    if n < m {
        assert(d[n - 1] >= 128);
    }
    if m < n {
        assert(d[m - 1] >= 128);
    }
}

pub proof fn lemma_leb128_range(d: Seq<u8>, n: int)
    requires
        0 <= n <= 8,
        n <= d.len(),
    ensures
        0 <= leb128_value(d, n) < pow2i(7 * n),
    decreases n,
{
    if n > 0 {
        lemma_leb128_range(d, n - 1);
        let k = 7 * (n - 1);
        assert(pow2i(7 * n) == 128 * pow2i(k)) by {
            reveal_with_fuel(pow2i, 8);
        }
        let x = (d[n - 1] % 128) as int;
        assert(x * pow2i(k) <= 127 * pow2i(k)) by (nonlinear_arith)
            requires
                0 <= x <= 127,
                0 <= pow2i(k),
        ;
        assert(0 <= x * pow2i(k)) by (nonlinear_arith)
            requires
                0 <= x,
                0 <= pow2i(k),
        ;
    }
}

/// Adding a group of seven bits above the lower ones.
proof fn lemma_leb128_step(value: u64, low: u64, s: u64)
    requires
        s <= 49,
        low < 128,
        value < (1u64 << s),
    ensures
        (value | (low << s)) == value + low * (1u64 << s),
        (1u64 << (s + 7) as u64) == 128 * (1u64 << s),
{
    assert((value | (low << s)) == value + low * (1u64 << s)) by (bit_vector)
        requires
            s <= 49,
            low < 128,
            value < (1u64 << s),
    ;
    assert((1u64 << ((s + 7) as u64)) == 128 * (1u64 << s)) by (bit_vector)
        requires
            s <= 49,
    ;
}

/// Decodes a little-endian base-128 number from the front of `data`: its value
/// and the number of bytes it takes. `None` when the data ends before the number
/// does, or when eight bytes do not end it.
pub fn read_leb128(data: &[u8]) -> (r: Option<(u64, usize)>)
    ensures
        match r {
            Some((value, n)) => leb128_spans(data@, n as int) && value == leb128_value(data@, n as int),
            None => forall|n: int| !leb128_spans(data@, n),
        },
        r matches Some((value, n)) ==> value < 0x100_0000_0000_0000,
{
    let mut value: u64 = 0;
    let mut i: usize = 0;
    assert((1u64 << 0u64) == 1) by (bit_vector);
    while i < data.len() && i < 8
        invariant
            i <= 8,
            i <= data@.len(),
            value == leb128_value(data@, i as int),
            value < pow2i(7 * i),
            i <= 7 ==> (1u64 << ((7 * i) as u64)) == pow2i(7 * i),
            forall|k: int| 0 <= k < i ==> #[trigger] data@[k] >= 128,
        decreases 8 - i,
    {
        let byte: u8 = data[i];
        let low7: u64 = (byte & 0x7F) as u64;
        let ghost s = (7 * i) as u64;
        proof {
            assert((byte & 0x7F) == byte % 128) by (bit_vector);
            assert((byte & 0x80 == 0) == (byte < 128)) by (bit_vector);
            lemma_leb128_step(value, low7, s);
            lemma_leb128_range(data@, i + 1);
            assert(pow2i(7 * (i + 1)) == 128 * pow2i(7 * i)) by {
                reveal_with_fuel(pow2i, 8);
            }
            lemma_pow2i_mono(7 * (i + 1), 56);
            assert(pow2i(56) == 0x100_0000_0000_0000) by {
                lemma_pow2i_values();
                reveal_with_fuel(pow2i, 27);
            }
        }
        value = value | (low7 << ((7 * i) as u64));
        if byte & 0x80 == 0 {
            return Some((value, i + 1));
        }
        i = i + 1;
    }
    proof {
        assert forall|n: int| !leb128_spans(data@, n) by {
            if leb128_spans(data@, n) {
                assert(data@[n - 1] >= 128);
            }
        }
    }
    None
}

/// The kinds of open bitstream units.
#[derive(Debug, Clone, Copy, PartialEq, Eq, Structural)]
pub enum ObuType {
    SequenceHeader,
    TemporalDelimiter,
    FrameHeader,
    TileGroup,
    Metadata,
    Frame,
    RedundantFrameHeader,
    TileList,
    Padding,
    Reserved,
}

/// The unit kind that a type field value stands for.
pub open spec fn obu_type_of(v: int) -> ObuType {
    if v == 1 {
        ObuType::SequenceHeader
    } else if v == 2 {
        ObuType::TemporalDelimiter
    } else if v == 3 {
        ObuType::FrameHeader
    } else if v == 4 {
        ObuType::TileGroup
    } else if v == 5 {
        ObuType::Metadata
    } else if v == 6 {
        ObuType::Frame
    } else if v == 7 {
        ObuType::RedundantFrameHeader
    } else if v == 8 {
        ObuType::TileList
    } else if v == 15 {
        ObuType::Padding
    } else {
        ObuType::Reserved
    }
}

impl ObuType {
    /// The unit kind of a type field value; values without one are reserved.
    pub fn from_u8(v: u8) -> (r: Self)
        ensures
            r == obu_type_of(v as int),
    {
        match v {
            1 => Self::SequenceHeader,
            2 => Self::TemporalDelimiter,
            3 => Self::FrameHeader,
            4 => Self::TileGroup,
            5 => Self::Metadata,
            6 => Self::Frame,
            7 => Self::RedundantFrameHeader,
            8 => Self::TileList,
            15 => Self::Padding,
            _ => Self::Reserved,
        }
    }
}

/// One unit: the header fields and the payload.
#[derive(Debug, Clone)]
pub struct Obu {
    pub obu_type: ObuType,
    /// Whether an extension byte follows the header byte.
    pub extension_flag: bool,
    /// Whether the unit states its payload size.
    pub has_size_field: bool,
    /// The payload bytes.
    pub payload: Vec<u8>,
}

/// The model of a unit.
#[verifier::ext_equal]
pub struct ObuModel {
    pub obu_type: ObuType,
    pub extension_flag: bool,
    pub has_size_field: bool,
    pub payload: Seq<u8>,
}

impl View for Obu {
    type V = ObuModel;

    open spec fn view(&self) -> ObuModel {
        ObuModel {
            obu_type: self.obu_type,
            extension_flag: self.extension_flag,
            has_size_field: self.has_size_field,
            payload: self.payload@,
        }
    }
}

/// Whether a unit header byte announces an extension byte.
pub open spec fn header_extension(h: u8) -> bool {
    (h / 4) % 2 == 1
}

/// Whether a unit header byte announces a size field.
pub open spec fn header_sized(h: u8) -> bool {
    (h / 2) % 2 == 1
}

/// Where the optional size field of a unit with header byte `h` starts.
pub open spec fn header_len(h: u8) -> int {
    if header_extension(h) {
        2
    } else {
        1
    }
}

/// The unit that takes exactly the first `end` bytes of `d`, if one does.
pub open spec fn obu_spans(d: Seq<u8>, end: int, o: ObuModel) -> bool {
    &&& 1 <= d.len()
    &&& d[0] < 128
    &&& o.obu_type == obu_type_of(((d[0] / 8) % 16) as int)
    &&& o.extension_flag == header_extension(d[0])
    &&& o.has_size_field == header_sized(d[0])
    &&& header_len(d[0]) <= end <= d.len()
    &&& if header_sized(d[0]) {
        exists|n: int|
            {
                &&& #[trigger] leb128_spans(d.skip(header_len(d[0])), n)
                &&& end == header_len(d[0]) + n + leb128_value(d.skip(header_len(d[0])), n)
                &&& o.payload == d.subrange(header_len(d[0]) + n, end)
            }
    } else {
        end == d.len() && o.payload == d.subrange(header_len(d[0]), end)
    }
}

/// The first unit of `d` and its length are determined by `d`.
pub proof fn law_obu_unique(d: Seq<u8>, e1: int, o1: ObuModel, e2: int, o2: ObuModel)
    requires
        obu_spans(d, e1, o1),
        obu_spans(d, e2, o2),
    ensures
        e1 == e2,
        o1 == o2,
{
    if header_sized(d[0]) {
        let t = d.skip(header_len(d[0]));
        let n1 = choose|n: int|
            {
                &&& #[trigger] leb128_spans(t, n)
                &&& e1 == header_len(d[0]) + n + leb128_value(t, n)
                &&& o1.payload == d.subrange(header_len(d[0]) + n, e1)
            };
        let n2 = choose|n: int|
            {
                &&& #[trigger] leb128_spans(t, n)
                &&& e2 == header_len(d[0]) + n + leb128_value(t, n)
                &&& o2.payload == d.subrange(header_len(d[0]) + n, e2)
            };
        law_leb128_unique(t, n1, n2);
    }
}

impl Obu {
    /// Parses one unit from the front of `data`: the unit and the number of bytes
    /// it takes. `None` when the forbidden bit is set or the data does not hold
    /// the whole unit.
    pub fn parse(data: &[u8]) -> (r: Option<(Self, usize)>)
        ensures
            match r {
                Some((obu, end)) => obu_spans(data@, end as int, obu@),
                None => forall|end: int, o: ObuModel| !obu_spans(data@, end, o),
            },
            r matches Some((obu, end)) ==> 1 <= end <= data@.len(),
    {
        if data.is_empty() {
            return None;
        }
        let header_byte: u8 = data[0];
        let ghost d = data@;
        proof {
            let h = header_byte;
            assert((h & 0x80 != 0) == (h >= 128)) by (bit_vector);
            assert(((h >> 3) & 0x0F) == (h / 8) % 16) by (bit_vector);
            assert((((h >> 2) & 1) != 0) == ((h / 4) % 2 == 1)) by (bit_vector);
            assert((((h >> 1) & 1) != 0) == ((h / 2) % 2 == 1)) by (bit_vector);
        }
        if header_byte & 0x80 != 0 {
            return None;
        }
        let obu_type: ObuType = ObuType::from_u8((header_byte >> 3) & 0x0F);
        let extension_flag: bool = (header_byte >> 2) & 1 != 0;
        let has_size_field: bool = (header_byte >> 1) & 1 != 0;
        let mut offset: usize = 1;
        if extension_flag {
            if offset >= data.len() {
                return None;
            }
            offset = offset + 1;
        }
        let ghost hl = offset as int;
        assert(hl == header_len(d[0]));
        let payload_len: usize = if has_size_field {
            let rest: &[u8] = vstd::slice::slice_subrange(data, offset, data.len());
            assert(rest@ == d.skip(hl));
            match read_leb128(rest) {
                None => {
                    return None;
                },
                Some((size, leb_bytes)) => {
                    offset = offset + leb_bytes;
                    proof {
                        assert forall|end: int, o: ObuModel| obu_spans(d, end, o) implies end
                            == offset + size by {
                            let n = choose|n: int|
                                {
                                    &&& #[trigger] leb128_spans(d.skip(hl), n)
                                    &&& end == hl + n + leb128_value(d.skip(hl), n)
                                    &&& o.payload == d.subrange(hl + n, end)
                                };
                            law_leb128_unique(d.skip(hl), n, leb_bytes as int);
                        }
                    }
                    if size > (data.len() - offset) as u64 {
                        return None;
                    }
                    size as usize
                },
            }
        } else {
            data.len() - offset
        };
        let end: usize = offset + payload_len;
        let payload: Vec<u8> = vstd::slice::slice_to_vec(
            vstd::slice::slice_subrange(data, offset, end),
        );
        let obu: Obu = Obu { obu_type, extension_flag, has_size_field, payload };
        proof {
            if has_size_field {
                let n = offset - hl;
                assert(leb128_spans(d.skip(hl), n));
            }
            assert(obu_spans(d, end as int, obu@));
        }
        Some((obu, end))
    }
}

/// The units of `d` in order, up to the first place where none starts.
pub open spec fn obus_of(d: Seq<u8>) -> Seq<ObuModel>
    decreases d.len(),
{
    if exists|end: int, o: ObuModel| #[trigger] obu_spans(d, end, o) && 1 <= end <= d.len() {
        let (end, o) = choose|end: int, o: ObuModel| #[trigger]
            obu_spans(d, end, o) && 1 <= end <= d.len();
        if 1 <= end <= d.len() {
            seq![o] + obus_of(d.skip(end))
        } else {
            seq![]
        }
    } else {
        seq![]
    }
}

/// Unfolds the unit list at a unit that is there.
pub proof fn lemma_obus_step(d: Seq<u8>, end: int, o: ObuModel)
    requires
        obu_spans(d, end, o),
        1 <= end,
    ensures
        obus_of(d) == seq![o] + obus_of(d.skip(end)),
{
    let (e2, o2) = choose|e2: int, o2: ObuModel| #[trigger] obu_spans(d, e2, o2) && 1 <= e2 <= d.len();
    law_obu_unique(d, end, o, e2, o2);
}

/// The models of a list of units.
pub open spec fn obu_models(v: Seq<Obu>) -> Seq<ObuModel> {
    v.map_values(|o: Obu| o@)
}

/// Parses the units of a whole bitstream, up to the first that does not parse.
pub fn parse_obu_sequence(data: &[u8]) -> (r: Vec<Obu>)
    ensures
        obu_models(r@) == obus_of(data@),
{
    let mut obus: Vec<Obu> = Vec::new();
    let mut pos: usize = 0;
    assert(data@.skip(0) == data@);
    assert(obu_models(obus@) + obus_of(data@) == obus_of(data@));
    while pos < data.len()
        invariant
            pos <= data@.len(),
            obu_models(obus@) + obus_of(data@.skip(pos as int)) == obus_of(data@),
        decreases data@.len() - pos,
    {
        let rest: &[u8] = vstd::slice::slice_subrange(data, pos, data.len());
        assert(rest@ == data@.skip(pos as int));
        let ghost before = obus@;
        match Obu::parse(rest) {
            Some((obu, consumed)) => {
                proof {
                    lemma_obus_step(rest@, consumed as int, obu@);
                    assert(rest@.skip(consumed as int) == data@.skip(pos + consumed));
                    assert(obu_models(before.push(obu)) == obu_models(before) + seq![obu@]);
                    assert(obu_models(before) + (seq![obu@] + obus_of(data@.skip(pos + consumed)))
                        == (obu_models(before) + seq![obu@]) + obus_of(data@.skip(pos + consumed)));
                }
                obus.push(obu);
                pos = pos + consumed;
            },
            None => {
                assert(obus_of(rest@) == Seq::<ObuModel>::empty());
                assert(obu_models(obus@) + Seq::<ObuModel>::empty() == obu_models(obus@));
                return obus;
            },
        }
    }
    assert(data@.skip(pos as int).len() == 0);
    assert(obus_of(data@.skip(pos as int)) == Seq::<ObuModel>::empty());
    assert(obu_models(obus@) + Seq::<ObuModel>::empty() == obu_models(obus@));
    obus
}

/// The largest number of operating points that a sequence header can signal.
pub const MAX_OPERATING_POINTS: usize = 32;

/// The forced value that leaves a choice to each frame header.
pub const SELECT_SCREEN_CONTENT_TOOLS: u8 = 2;

/// The forced value that leaves a choice to each frame header.
pub const SELECT_INTEGER_MV: u8 = 2;

/// The color configuration of a sequence.
#[derive(Debug, Clone, Copy, PartialEq, Eq, Structural)]
pub struct ColorConfig {
    pub high_bitdepth: bool,
    /// Twelve bits rather than ten; coded for profile 2 with high bit depth.
    pub twelve_bit: bool,
    /// Bits per sample: 8, 10 or 12.
    pub bit_depth: u8,
    pub mono_chrome: bool,
    pub color_primaries: u8,
    pub transfer_characteristics: u8,
    pub matrix_coefficients: u8,
    pub color_range: bool,
    pub subsampling_x: bool,
    pub subsampling_y: bool,
    /// Coded for 4:2:0 chroma only.
    pub chroma_sample_position: u8,
    /// Whether the V plane has quantizer deltas of its own.
    pub separate_uv_delta_q: bool,
}

/// The sequence header.
#[derive(Debug, Clone, Copy)]
pub struct SequenceHeaderObu {
    pub seq_profile: u8,
    pub still_picture: bool,
    pub reduced_still_picture_header: bool,
    pub frame_width_bits_minus_1: u8,
    pub frame_height_bits_minus_1: u8,
    pub max_frame_width_minus_1: u32,
    pub max_frame_height_minus_1: u32,
    pub color_config: ColorConfig,
    /// Coded when order hints are enabled; see `order_hint_bits`.
    pub order_hint_bits_minus_1: u8,
    /// Each frame header codes `allow_screen_content_tools` itself.
    pub seq_choose_screen_content_tools: bool,
    /// Otherwise, the value that every frame uses.
    pub seq_force_screen_content_tools: bool,
    /// Each frame header codes `force_integer_mv` itself.
    pub seq_choose_integer_mv: bool,
    /// Otherwise, the value that every frame uses.
    pub seq_force_integer_mv: bool,
    pub frame_id_numbers_present_flag: bool,
    pub delta_frame_id_length_minus_2: u8,
    pub additional_frame_id_length_minus_1: u8,
    pub use_128x128_superblock: bool,
    pub enable_superres: bool,
    pub enable_intra_edge_filter: bool,
    pub enable_filter_intra: bool,
    pub enable_interintra_compound: bool,
    pub enable_masked_compound: bool,
    pub enable_warped_motion: bool,
    pub enable_dual_filter: bool,
    /// Never set: intra block copy is allowed by a frame, not by a sequence.
    pub allow_intrabc: bool,
    pub enable_order_hint: bool,
    pub enable_jnt_comp: bool,
    pub enable_ref_frame_mvs: bool,
    pub enable_cdef: bool,
    pub enable_restoration: bool,
    pub film_grain_params_present: bool,
    pub decoder_model_info_present: bool,
    pub equal_picture_interval: bool,
    pub buffer_delay_length_minus_1: u8,
    pub buffer_removal_time_length_minus_1: u8,
    pub frame_presentation_time_length_minus_1: u8,
    pub operating_points_cnt_minus_1: u8,
    pub operating_point_idc: [u16; MAX_OPERATING_POINTS],
    pub decoder_model_present_for_this_op: [bool; MAX_OPERATING_POINTS],
}

/// The timing part of a sequence header, and where it ends.
pub struct TimingModel {
    pub equal_picture_interval: bool,
    pub decoder_model_info_present: bool,
    pub buffer_delay_length_minus_1: int,
    pub buffer_removal_time_length_minus_1: int,
    pub frame_presentation_time_length_minus_1: int,
    pub end: int,
}

/// The timing part that starts at `p`.
#[verifier::opaque]
pub open spec fn timing_model(d: Seq<u8>, p: int) -> TimingModel {
    if !flag_at(d, p) {
        TimingModel {
            equal_picture_interval: false,
            decoder_model_info_present: false,
            buffer_delay_length_minus_1: 0,
            buffer_removal_time_length_minus_1: 0,
            frame_presentation_time_length_minus_1: 0,
            end: p + 1,
        }
    } else {
        // A 32-bit tick count and a 32-bit time scale come first.
        let equal = flag_at(d, p + 65);
        let q = if equal {
            uvlc_end(d, p + 66)
        } else {
            p + 66
        };
        if !flag_at(d, q) {
            TimingModel {
                equal_picture_interval: equal,
                decoder_model_info_present: false,
                buffer_delay_length_minus_1: 0,
                buffer_removal_time_length_minus_1: 0,
                frame_presentation_time_length_minus_1: 0,
                end: q + 1,
            }
        } else {
            TimingModel {
                equal_picture_interval: equal,
                decoder_model_info_present: true,
                buffer_delay_length_minus_1: bits_at(d, q + 1, 5),
                buffer_removal_time_length_minus_1: bits_at(d, q + 38, 5),
                frame_presentation_time_length_minus_1: bits_at(d, q + 43, 5),
                end: q + 48,
            }
        }
    }
}

proof fn lemma_timing_end(d: Seq<u8>, p: int)
    ensures
        p + 1 <= timing_model(d, p).end,
{
    reveal(timing_model);
    lemma_leading_zeros(d, p + 66, 0);
}

/// Parses the timing part.
fn parse_timing(br: &mut BitReader<'_>) -> (r: Result<(bool, bool, u8, u8, u8), KinetixError>)
    requires
        old(br).wf(),
    ensures
        ({
            let m = timing_model(old(br).data(), old(br).pos());
            &&& reads(*old(br), *final(br), m.end - old(br).pos(), r)
            &&& r matches Ok((equal, present, delay, removal, presentation)) ==> {
                &&& equal == m.equal_picture_interval
                &&& present == m.decoder_model_info_present
                &&& delay == m.buffer_delay_length_minus_1
                &&& removal == m.buffer_removal_time_length_minus_1
                &&& presentation == m.frame_presentation_time_length_minus_1
                &&& delay < 32 && removal < 32 && presentation < 32
            }
        }),
{
    let ghost d = br.data();
    let ghost p = br.pos();
    proof {
        reveal(timing_model);
        lemma_leading_zeros(d, p + 66, 0);
        lemma_pow2i_values();
    }
    let present: bool = read_flag(br)?;
    if !present {
        return Ok((false, false, 0, 0, 0));
    }
    let _units: u32 = read_f(br, 32)?;
    let _scale: u32 = read_f(br, 32)?;
    let equal: bool = read_flag(br)?;
    if equal {
        let _ticks: u32 = read_uvlc(br)?;
    }
    let model: bool = read_flag(br)?;
    if !model {
        return Ok((equal, false, 0, 0, 0));
    }
    let delay: u8 = read_f8(br, 5)?;
    let _tick: u32 = read_f(br, 32)?;
    let removal: u8 = read_f8(br, 5)?;
    let presentation: u8 = read_f8(br, 5)?;
    Ok((equal, true, delay, removal, presentation))
}

/// How operating points are coded: with a decoder model of a given delay width,
/// and with a display delay.
pub struct OpCoding {
    pub model: bool,
    pub delay_minus_1: int,
    pub display_delay: bool,
}

/// Where the decoder model flag of the operating point at `p` stands: behind the
/// twelve bits of its layers, five bits of level and a tier bit for high levels.
pub open spec fn op_model_pos(d: Seq<u8>, p: int) -> int {
    p + 17 + if bits_at(d, p + 12, 5) > 7 {
        1int
    } else {
        0
    }
}

/// Whether the operating point at `p` has a decoder model.
pub open spec fn op_has_model(d: Seq<u8>, p: int, c: OpCoding) -> bool {
    c.model && flag_at(d, op_model_pos(d, p))
}

/// Where the operating point at `p` ends.
pub open spec fn op_end(d: Seq<u8>, p: int, c: OpCoding) -> int {
    let m = op_model_pos(d, p);
    let q = if op_has_model(d, p, c) {
        m + 1 + 2 * (c.delay_minus_1 + 1) + 1
    } else if c.model {
        m + 1
    } else {
        m
    };
    if !c.display_delay {
        q
    } else if flag_at(d, q) {
        q + 5
    } else {
        q + 1
    }
}

/// Where operating point `k` starts, the first standing at `p`.
pub open spec fn op_start(d: Seq<u8>, p: int, c: OpCoding, k: int) -> int
    decreases k,
{
    if k <= 0 {
        p
    } else {
        op_end(d, op_start(d, p, c, k - 1), c)
    }
}

proof fn lemma_op_start_mono(d: Seq<u8>, p: int, c: OpCoding, j: int, k: int)
    requires
        0 <= j <= k,
        0 <= c.delay_minus_1,
    ensures
        op_start(d, p, c, j) <= op_start(d, p, c, k),
    decreases k - j,
{
    if j < k {
        lemma_op_start_mono(d, p, c, j, k - 1);
    }
}

/// Parses one operating point: its layers and whether it has a decoder model.
fn parse_operating_point(
    br: &mut BitReader<'_>,
    model: bool,
    delay_minus_1: u8,
    display_delay: bool,
) -> (r: Result<(u16, bool), KinetixError>)
    requires
        old(br).wf(),
        delay_minus_1 < 32,
    ensures
        ({
            let d = old(br).data();
            let p = old(br).pos();
            let c = OpCoding { model, delay_minus_1: delay_minus_1 as int, display_delay };
            &&& reads(*old(br), *final(br), op_end(d, p, c) - p, r)
            &&& r matches Ok((idc, has)) ==> idc == bits_at(d, p, 12) && has == op_has_model(d, p, c)
        }),
{
    proof {
        lemma_pow2i_values();
    }
    let idc: u32 = read_f(br, 12)?;
    let level: u32 = read_f(br, 5)?;
    if level > 7 {
        let _tier: u32 = read_f(br, 1)?;
    }
    let mut has: bool = false;
    if model {
        has = read_flag(br)?;
        if has {
            let n: u8 = delay_minus_1 + 1;
            let _decoder: u32 = read_f(br, n)?;
            let _encoder: u32 = read_f(br, n)?;
            let _low: u32 = read_f(br, 1)?;
        }
    }
    if display_delay {
        let this: bool = read_flag(br)?;
        if this {
            let _delay: u32 = read_f(br, 4)?;
        }
    }
    Ok((idc as u16, has))
}

/// The list of operating points: the `i`-th entry of each array is what the
/// `i`-th operating point codes, entries behind the last are zero.
#[verifier::opaque]
pub open spec fn op_arrays(
    d: Seq<u8>,
    p: int,
    c: OpCoding,
    n: int,
    idc: Seq<u16>,
    has: Seq<bool>,
) -> bool {
    &&& idc.len() == MAX_OPERATING_POINTS
    &&& has.len() == MAX_OPERATING_POINTS
    &&& forall|i: int|
        0 <= i < MAX_OPERATING_POINTS ==> #[trigger] idc[i] == if i < n {
            bits_at(d, op_start(d, p, c, i), 12)
        } else {
            0
        }
    &&& forall|i: int|
        0 <= i < MAX_OPERATING_POINTS ==> #[trigger] has[i] == (i < n && op_has_model(
            d,
            op_start(d, p, c, i),
            c,
        ))
}

/// Parses `count` operating points.
fn parse_operating_points(
    br: &mut BitReader<'_>,
    count: usize,
    model: bool,
    delay_minus_1: u8,
    display_delay: bool,
) -> (r: Result<([u16; MAX_OPERATING_POINTS], [bool; MAX_OPERATING_POINTS]), KinetixError>)
    requires
        old(br).wf(),
        delay_minus_1 < 32,
        count <= MAX_OPERATING_POINTS,
    ensures
        ({
            let d = old(br).data();
            let p = old(br).pos();
            let c = OpCoding { model, delay_minus_1: delay_minus_1 as int, display_delay };
            &&& reads(*old(br), *final(br), op_start(d, p, c, count as int) - p, r)
            &&& r matches Ok((idc, has)) ==> op_arrays(d, p, c, count as int, idc@, has@)
        }),
{
    let ghost d = br.data();
    let ghost p = br.pos();
    let ghost c = OpCoding { model, delay_minus_1: delay_minus_1 as int, display_delay };
    reveal(op_arrays);
    let mut idc: [u16; MAX_OPERATING_POINTS] = [0; MAX_OPERATING_POINTS];
    let mut has: [bool; MAX_OPERATING_POINTS] = [false; MAX_OPERATING_POINTS];
    proof {
        br.lemma_wf();
    }
    let mut i: usize = 0;
    while i < count
        invariant
            i <= count <= MAX_OPERATING_POINTS,
            delay_minus_1 < 32,
            c == (OpCoding { model, delay_minus_1: delay_minus_1 as int, display_delay }),
            d == old(br).data(),
            p == old(br).pos(),
            br.wf(),
            br.data() == d,
            br.pos() == op_start(d, p, c, i as int),
            br.pos() <= 8 * d.len(),
            op_arrays(d, p, c, i as int, idc@, has@),
        decreases count - i,
    {
        proof {
            reveal(op_arrays);
            lemma_op_start_mono(d, p, c, i + 1, count as int);
        }
        let (point, present): (u16, bool) = parse_operating_point(
            br,
            model,
            delay_minus_1,
            display_delay,
        )?;
        idc[i] = point;
        has[i] = present;
        i = i + 1;
        proof {
            br.lemma_wf();
        }
    }
    Ok((idc, has))
}

/// The prediction tools of a sequence header, and where they end.
pub struct ToolsModel {
    pub interintra: bool,
    pub masked: bool,
    pub warped: bool,
    pub dual: bool,
    pub order_hint: bool,
    pub jnt: bool,
    pub ref_mvs: bool,
    pub screen: int,
    pub integer_mv: int,
    pub hint_bits_minus_1: int,
    pub end: int,
}

/// The prediction tools that start at `p`; a reduced header codes none and
/// leaves both forced values to the frames.
#[verifier::opaque]
pub open spec fn tools_model(d: Seq<u8>, p: int, reduced: bool) -> ToolsModel {
    if reduced {
        ToolsModel {
            interintra: false,
            masked: false,
            warped: false,
            dual: false,
            order_hint: false,
            jnt: false,
            ref_mvs: false,
            screen: 2,
            integer_mv: 2,
            hint_bits_minus_1: 0,
            end: p,
        }
    } else {
        let hint = flag_at(d, p + 4);
        let a = if hint {
            p + 7
        } else {
            p + 5
        };
        let screen = if flag_at(d, a) {
            2
        } else {
            bits_at(d, a + 1, 1)
        };
        let b = if flag_at(d, a) {
            a + 1
        } else {
            a + 2
        };
        let integer_mv = if screen > 0 && !flag_at(d, b) {
            bits_at(d, b + 1, 1)
        } else {
            2
        };
        let e = if screen <= 0 {
            b
        } else if flag_at(d, b) {
            b + 1
        } else {
            b + 2
        };
        ToolsModel {
            interintra: flag_at(d, p),
            masked: flag_at(d, p + 1),
            warped: flag_at(d, p + 2),
            dual: flag_at(d, p + 3),
            order_hint: hint,
            jnt: hint && flag_at(d, p + 5),
            ref_mvs: hint && flag_at(d, p + 6),
            screen,
            integer_mv,
            hint_bits_minus_1: if hint {
                bits_at(d, e, 3)
            } else {
                0
            },
            end: if hint {
                e + 3
            } else {
                e
            },
        }
    }
}

/// The prediction tools that a sequence enables.
struct Tools {
    interintra: bool,
    masked: bool,
    warped: bool,
    dual: bool,
    order_hint: bool,
    jnt: bool,
    ref_mvs: bool,
    screen: u8,
    integer_mv: u8,
    hint_bits_minus_1: u8,
}

impl Tools {
    closed spec fn models(self, m: ToolsModel) -> bool {
        &&& self.interintra == m.interintra
        &&& self.masked == m.masked
        &&& self.warped == m.warped
        &&& self.dual == m.dual
        &&& self.order_hint == m.order_hint
        &&& self.jnt == m.jnt
        &&& self.ref_mvs == m.ref_mvs
        &&& self.screen == m.screen
        &&& self.integer_mv == m.integer_mv
        &&& self.hint_bits_minus_1 == m.hint_bits_minus_1
        &&& self.hint_bits_minus_1 < 8
    }
}

/// Parses the prediction tools.
fn parse_tools(br: &mut BitReader<'_>, reduced: bool) -> (r: Result<Tools, KinetixError>)
    requires
        old(br).wf(),
    ensures
        ({
            let m = tools_model(old(br).data(), old(br).pos(), reduced);
            &&& reads(*old(br), *final(br), m.end - old(br).pos(), r)
            &&& r matches Ok(t) ==> t.models(m)
        }),
{
    proof {
        reveal(tools_model);
        lemma_pow2i_values();
        br.lemma_wf();
    }
    let mut t: Tools = Tools {
        interintra: false,
        masked: false,
        warped: false,
        dual: false,
        order_hint: false,
        jnt: false,
        ref_mvs: false,
        screen: SELECT_SCREEN_CONTENT_TOOLS,
        integer_mv: SELECT_INTEGER_MV,
        hint_bits_minus_1: 0,
    };
    if reduced {
        return Ok(t);
    }
    t.interintra = read_flag(br)?;
    t.masked = read_flag(br)?;
    t.warped = read_flag(br)?;
    t.dual = read_flag(br)?;
    t.order_hint = read_flag(br)?;
    if t.order_hint {
        t.jnt = read_flag(br)?;
        t.ref_mvs = read_flag(br)?;
    }
    let choose_screen: bool = read_flag(br)?;
    if !choose_screen {
        t.screen = read_f8(br, 1)?;
    }
    if t.screen > 0 {
        let choose_mv: bool = read_flag(br)?;
        if !choose_mv {
            t.integer_mv = read_f8(br, 1)?;
        }
    }
    if t.order_hint {
        t.hint_bits_minus_1 = read_f8(br, 3)?;
    }
    Ok(t)
}

/// The color configuration that starts at `p`, and where it ends.
#[verifier::opaque]
pub open spec fn color_model(d: Seq<u8>, p: int, profile: int) -> (ColorConfig, int) {
    let high = flag_at(d, p);
    let twelve = profile == 2 && high && flag_at(d, p + 1);
    let depth = if twelve {
        12u8
    } else if high {
        10
    } else {
        8
    };
    let a = if profile == 2 && high {
        p + 2
    } else {
        p + 1
    };
    let mono = profile != 1 && flag_at(d, a);
    let b = if profile == 1 {
        a
    } else {
        a + 1
    };
    let described = flag_at(d, b);
    let primaries = if described {
        bits_at(d, b + 1, 8)
    } else {
        2
    };
    let transfer = if described {
        bits_at(d, b + 9, 8)
    } else {
        2
    };
    let matrix = if described {
        bits_at(d, b + 17, 8)
    } else {
        2
    };
    let c = if described {
        b + 25
    } else {
        b + 1
    };
    let base = ColorConfig {
        high_bitdepth: high,
        twelve_bit: twelve,
        bit_depth: depth,
        mono_chrome: mono,
        color_primaries: primaries as u8,
        transfer_characteristics: transfer as u8,
        matrix_coefficients: matrix as u8,
        color_range: flag_at(d, c),
        subsampling_x: true,
        subsampling_y: true,
        chroma_sample_position: 0,
        separate_uv_delta_q: false,
    };
    if mono {
        (base, c + 1)
    } else if primaries == 1 && transfer == 13 && matrix == 0 {
        // Identity coded RGB has full range and no subsampling.
        (
            ColorConfig {
                color_range: true,
                subsampling_x: false,
                subsampling_y: false,
                separate_uv_delta_q: flag_at(d, c),
                ..base
            },
            c + 1,
        )
    } else {
        let coded = profile != 0 && profile != 1 && depth == 12;
        let sx = if coded {
            flag_at(d, c + 1)
        } else {
            profile != 1
        };
        let sy = if coded {
            sx && flag_at(d, c + 2)
        } else {
            profile == 0
        };
        let e = if coded && sx {
            c + 3
        } else if coded {
            c + 2
        } else {
            c + 1
        };
        let csp = if sx && sy {
            bits_at(d, e, 2)
        } else {
            0
        };
        let g = if sx && sy {
            e + 2
        } else {
            e
        };
        (
            ColorConfig {
                subsampling_x: sx,
                subsampling_y: sy,
                chroma_sample_position: csp as u8,
                separate_uv_delta_q: flag_at(d, g),
                ..base
            },
            g + 1,
        )
    }
}

impl SequenceHeaderObu {
    /// The bounds that the coded field widths put on a sequence header.
    pub open spec fn wf(&self) -> bool {
        &&& self.seq_profile < 8
        &&& self.max_frame_width_minus_1 < 0x1_0000
        &&& self.max_frame_height_minus_1 < 0x1_0000
        &&& self.order_hint_bits_minus_1 < 8
        &&& self.delta_frame_id_length_minus_2 < 16
        &&& self.additional_frame_id_length_minus_1 < 8
        &&& self.buffer_delay_length_minus_1 < 32
        &&& self.buffer_removal_time_length_minus_1 < 32
        &&& self.frame_presentation_time_length_minus_1 < 32
        &&& self.operating_points_cnt_minus_1 < 32
    }

    /// The width in bits of an order hint in a frame header.
    pub open spec fn spec_order_hint_bits(&self) -> int {
        if self.enable_order_hint {
            self.order_hint_bits_minus_1 + 1
        } else {
            0
        }
    }

    /// The width in bits of an order hint in a frame header.
    pub fn order_hint_bits(&self) -> (r: u8)
        requires
            self.order_hint_bits_minus_1 < 255,
        ensures
            r == self.spec_order_hint_bits(),
    {
        if self.enable_order_hint {
            self.order_hint_bits_minus_1 + 1
        } else {
            0
        }
    }

    /// The width in bits of a frame number.
    pub fn frame_id_len(&self) -> (r: u8)
        requires
            self.additional_frame_id_length_minus_1 + self.delta_frame_id_length_minus_2 + 3 <= 255,
        ensures
            r == self.additional_frame_id_length_minus_1 + self.delta_frame_id_length_minus_2 + 3,
    {
        self.additional_frame_id_length_minus_1 + self.delta_frame_id_length_minus_2 + 3
    }

    /// The frame width in pixels.
    pub fn frame_width(&self) -> (r: u32)
        requires
            self.max_frame_width_minus_1 < u32::MAX,
        ensures
            r == self.max_frame_width_minus_1 + 1,
    {
        self.max_frame_width_minus_1 + 1
    }

    /// The frame height in pixels.
    pub fn frame_height(&self) -> (r: u32)
        requires
            self.max_frame_height_minus_1 < u32::MAX,
        ensures
            r == self.max_frame_height_minus_1 + 1,
    {
        self.max_frame_height_minus_1 + 1
    }

    /// Parses the color configuration.
    fn parse_color_config(br: &mut BitReader<'_>, seq_profile: u8) -> (r: Result<
        ColorConfig,
        KinetixError,
    >)
        requires
            old(br).wf(),
        ensures
            ({
                let (m, end) = color_model(old(br).data(), old(br).pos(), seq_profile as int);
                &&& reads(*old(br), *final(br), end - old(br).pos(), r)
                &&& r matches Ok(c) ==> c == m
            }),
    {
        proof {
            reveal(color_model);
            lemma_pow2i_values();
            br.lemma_wf();
        }
        let high_bitdepth: bool = read_flag(br)?;
        let mut twelve_bit: bool = false;
        if seq_profile == 2 && high_bitdepth {
            twelve_bit = read_flag(br)?;
        }
        let bit_depth: u8 = if twelve_bit {
            12
        } else if high_bitdepth {
            10
        } else {
            8
        };
        let mut mono_chrome: bool = false;
        if seq_profile != 1 {
            mono_chrome = read_flag(br)?;
        }
        let described: bool = read_flag(br)?;
        let mut color_primaries: u8 = 2;
        let mut transfer_characteristics: u8 = 2;
        let mut matrix_coefficients: u8 = 2;
        if described {
            color_primaries = read_f8(br, 8)?;
            transfer_characteristics = read_f8(br, 8)?;
            matrix_coefficients = read_f8(br, 8)?;
        }
        let mut config: ColorConfig = ColorConfig {
            high_bitdepth,
            twelve_bit,
            bit_depth,
            mono_chrome,
            color_primaries,
            transfer_characteristics,
            matrix_coefficients,
            color_range: true,
            subsampling_x: true,
            subsampling_y: true,
            chroma_sample_position: 0,
            separate_uv_delta_q: false,
        };
        if mono_chrome {
            config.color_range = read_flag(br)?;
            return Ok(config);
        }
        if color_primaries == 1 && transfer_characteristics == 13 && matrix_coefficients == 0 {
            config.subsampling_x = false;
            config.subsampling_y = false;
        } else {
            config.color_range = read_flag(br)?;
            if seq_profile == 0 {
                // 4:2:0
            } else if seq_profile == 1 {
                config.subsampling_x = false;
                config.subsampling_y = false;
            } else if bit_depth == 12 {
                config.subsampling_x = read_flag(br)?;
                if config.subsampling_x {
                    config.subsampling_y = read_flag(br)?;
                } else {
                    config.subsampling_y = false;
                }
            } else {
                config.subsampling_y = false;
            }
            if config.subsampling_x && config.subsampling_y {
                config.chroma_sample_position = read_f8(br, 2)?;
            }
        }
        config.separate_uv_delta_q = read_flag(br)?;
        Ok(config)
    }

    /// The profile, timing and operating points are those that `d` codes.
    pub open spec fn coded_points(&self, d: Seq<u8>) -> bool {
        let m = sequence_model(d);
        &&& self.seq_profile == bits_at(d, 0, 3)
        &&& self.still_picture == flag_at(d, 3)
        &&& self.reduced_still_picture_header == flag_at(d, 4)
        &&& self.equal_picture_interval == m.points.timing.equal_picture_interval
        &&& self.decoder_model_info_present == m.points.timing.decoder_model_info_present
        &&& self.buffer_delay_length_minus_1 == m.points.timing.buffer_delay_length_minus_1
        &&& self.buffer_removal_time_length_minus_1
            == m.points.timing.buffer_removal_time_length_minus_1
        &&& self.frame_presentation_time_length_minus_1
            == m.points.timing.frame_presentation_time_length_minus_1
        &&& self.operating_points_cnt_minus_1 == if m.points.op_count == 0 {
            0
        } else {
            m.points.op_count - 1
        }
        &&& op_arrays(
            d,
            m.points.ops,
            m.points.coding,
            m.points.op_count,
            self.operating_point_idc@,
            self.decoder_model_present_for_this_op@,
        )
    }

    /// The frame size and block tools are those that `d` codes.
    pub open spec fn coded_size(&self, d: Seq<u8>) -> bool {
        let m = sequence_model(d);
        &&& self.frame_width_bits_minus_1 == m.size.width_bits_minus_1
        &&& self.frame_height_bits_minus_1 == m.size.height_bits_minus_1
        &&& self.max_frame_width_minus_1 == m.size.width_minus_1
        &&& self.max_frame_height_minus_1 == m.size.height_minus_1
        &&& self.frame_id_numbers_present_flag == m.size.has_ids
        &&& self.delta_frame_id_length_minus_2 == m.size.delta_minus_2
        &&& self.additional_frame_id_length_minus_1 == m.size.additional_minus_1
        &&& self.use_128x128_superblock == flag_at(d, m.size.end)
        &&& self.enable_filter_intra == flag_at(d, m.size.end + 1)
        &&& self.enable_intra_edge_filter == flag_at(d, m.size.end + 2)
    }

    /// The prediction tools are those that `d` codes.
    pub open spec fn coded_tools(&self, d: Seq<u8>) -> bool {
        let m = sequence_model(d);
        &&& self.enable_interintra_compound == m.tools.interintra
        &&& self.enable_masked_compound == m.tools.masked
        &&& self.enable_warped_motion == m.tools.warped
        &&& self.enable_dual_filter == m.tools.dual
        &&& self.enable_order_hint == m.tools.order_hint
        &&& self.enable_jnt_comp == m.tools.jnt
        &&& self.enable_ref_frame_mvs == m.tools.ref_mvs
        &&& self.seq_choose_screen_content_tools == (m.tools.screen == 2)
        &&& self.seq_force_screen_content_tools == (m.tools.screen > 0)
        &&& self.seq_choose_integer_mv == (m.tools.integer_mv == 2)
        &&& self.seq_force_integer_mv == (m.tools.integer_mv > 0)
        &&& self.order_hint_bits_minus_1 == m.tools.hint_bits_minus_1
        &&& !self.allow_intrabc
    }

    /// The filters, colors and film grain flag are those that `d` codes.
    pub open spec fn coded_rest(&self, d: Seq<u8>) -> bool {
        let m = sequence_model(d);
        &&& self.enable_superres == flag_at(d, m.tools.end)
        &&& self.enable_cdef == flag_at(d, m.tools.end + 1)
        &&& self.enable_restoration == flag_at(d, m.tools.end + 2)
        &&& self.color_config == m.color
        &&& self.film_grain_params_present == flag_at(d, m.end - 1)
    }

    /// The header is what the payload `d` codes.
    pub open spec fn coded_in(&self, d: Seq<u8>) -> bool {
        &&& self.coded_points(d)
        &&& self.coded_size(d)
        &&& self.coded_tools(d)
        &&& self.coded_rest(d)
    }

    /// Parses a sequence header payload. It fails exactly when the payload ends
    /// before the header does.
    pub fn parse(payload: &[u8]) -> (r: Result<Self, KinetixError>)
        ensures
            sequence_model(payload@).end <= 8 * payload@.len() ==> r is Ok,
            sequence_model(payload@).end > 8 * payload@.len() ==> r == Err::<Self, _>(truncated()),
            r matches Ok(h) ==> h.wf() && h.coded_in(payload@),
    {
        let mut br: BitReader = BitReader::new(payload);
        Self::parse_header(&mut br)
    }

    /// Parses a sequence header at the start of a payload.
    fn parse_header(br: &mut BitReader<'_>) -> (r: Result<Self, KinetixError>)
        requires
            old(br).wf(),
            old(br).pos() == 0,
        ensures
            ({
                let d = old(br).data();
                &&& reads(*old(br), *final(br), sequence_model(d).end, r)
                &&& r matches Ok(h) ==> h.wf() && h.coded_in(d)
            }),
    {
        let ghost d = br.data();
        let ghost m = sequence_model(d);
        proof {
            lemma_pow2i_values();
            lemma_sequence_ends(d);
        }
        let seq_profile: u8 = read_f8(br, 3)?;
        let still_picture: bool = read_flag(br)?;
        let reduced: bool = read_flag(br)?;

        let points: Points = parse_points(br, reduced)?;
        let size: Size = parse_size(br, reduced)?;
        let use_128x128_superblock: bool = read_flag(br)?;
        let enable_filter_intra: bool = read_flag(br)?;
        let enable_intra_edge_filter: bool = read_flag(br)?;
        let tools: Tools = parse_tools(br, reduced)?;
        let enable_superres: bool = read_flag(br)?;
        let enable_cdef: bool = read_flag(br)?;
        let enable_restoration: bool = read_flag(br)?;
        let color_config: ColorConfig = Self::parse_color_config(br, seq_profile)?;
        let film_grain_params_present: bool = read_flag(br)?;
        Ok(
            Self::assemble(
                (seq_profile, still_picture, reduced),
                points,
                size,
                (use_128x128_superblock, enable_filter_intra, enable_intra_edge_filter),
                tools,
                (enable_superres, enable_cdef, enable_restoration),
                color_config,
                film_grain_params_present,
                Ghost(d),
            ),
        )
    }

    /// Puts a header together from its parts.
    fn assemble(
        intro: (u8, bool, bool),
        points: Points,
        size: Size,
        block: (bool, bool, bool),
        tools: Tools,
        filters: (bool, bool, bool),
        color_config: ColorConfig,
        film_grain_params_present: bool,
        Ghost(d): Ghost<Seq<u8>>,
    ) -> (h: Self)
        requires
            intro.0 < 8,
            intro.0 == bits_at(d, 0, 3),
            intro.1 == flag_at(d, 3),
            intro.2 == flag_at(d, 4),
            points.models(d, sequence_model(d).points),
            size.models(sequence_model(d).size),
            block.0 == flag_at(d, sequence_model(d).size.end),
            block.1 == flag_at(d, sequence_model(d).size.end + 1),
            block.2 == flag_at(d, sequence_model(d).size.end + 2),
            tools.models(sequence_model(d).tools),
            filters.0 == flag_at(d, sequence_model(d).tools.end),
            filters.1 == flag_at(d, sequence_model(d).tools.end + 1),
            filters.2 == flag_at(d, sequence_model(d).tools.end + 2),
            color_config == sequence_model(d).color,
            film_grain_params_present == flag_at(d, sequence_model(d).end - 1),
        ensures
            h.wf(),
            h.coded_in(d),
    {
        SequenceHeaderObu {
            seq_profile: intro.0,
            still_picture: intro.1,
            reduced_still_picture_header: intro.2,
            frame_width_bits_minus_1: size.width_bits_minus_1,
            frame_height_bits_minus_1: size.height_bits_minus_1,
            max_frame_width_minus_1: size.width_minus_1,
            max_frame_height_minus_1: size.height_minus_1,
            color_config,
            order_hint_bits_minus_1: tools.hint_bits_minus_1,
            seq_choose_screen_content_tools: tools.screen == SELECT_SCREEN_CONTENT_TOOLS,
            seq_force_screen_content_tools: tools.screen > 0,
            seq_choose_integer_mv: tools.integer_mv == SELECT_INTEGER_MV,
            seq_force_integer_mv: tools.integer_mv > 0,
            frame_id_numbers_present_flag: size.has_ids,
            delta_frame_id_length_minus_2: size.delta_minus_2,
            additional_frame_id_length_minus_1: size.additional_minus_1,
            use_128x128_superblock: block.0,
            enable_superres: filters.0,
            enable_intra_edge_filter: block.2,
            enable_filter_intra: block.1,
            enable_interintra_compound: tools.interintra,
            enable_masked_compound: tools.masked,
            enable_warped_motion: tools.warped,
            enable_dual_filter: tools.dual,
            allow_intrabc: false,
            enable_order_hint: tools.order_hint,
            enable_jnt_comp: tools.jnt,
            enable_ref_frame_mvs: tools.ref_mvs,
            enable_cdef: filters.1,
            enable_restoration: filters.2,
            film_grain_params_present,
            decoder_model_info_present: points.timing.1,
            equal_picture_interval: points.timing.0,
            buffer_delay_length_minus_1: points.timing.2,
            buffer_removal_time_length_minus_1: points.timing.3,
            frame_presentation_time_length_minus_1: points.timing.4,
            operating_points_cnt_minus_1: points.count_minus_1,
            operating_point_idc: points.idc,
            decoder_model_present_for_this_op: points.has_model,
        }
    }
}

/// The operating points of a sequence header, how they are coded, and where
/// they start and end.
pub struct PointsModel {
    pub timing: TimingModel,
    pub op_count: int,
    pub ops: int,
    pub coding: OpCoding,
    pub end: int,
}

/// The operating point part that starts at `p`. A reduced header codes the level
/// of its one operating point only.
#[verifier::opaque]
pub open spec fn points_model(d: Seq<u8>, p: int, reduced: bool) -> PointsModel {
    if reduced {
        PointsModel {
            timing: TimingModel {
                equal_picture_interval: false,
                decoder_model_info_present: false,
                buffer_delay_length_minus_1: 0,
                buffer_removal_time_length_minus_1: 0,
                frame_presentation_time_length_minus_1: 0,
                end: p,
            },
            op_count: 0,
            ops: p,
            coding: OpCoding { model: false, delay_minus_1: 0, display_delay: false },
            end: p + 5,
        }
    } else {
        let timing = timing_model(d, p);
        let op_count = bits_at(d, timing.end + 1, 5) + 1;
        let coding = OpCoding {
            model: timing.decoder_model_info_present,
            delay_minus_1: timing.buffer_delay_length_minus_1,
            display_delay: flag_at(d, timing.end),
        };
        PointsModel {
            timing,
            op_count,
            ops: timing.end + 6,
            coding,
            end: op_start(d, timing.end + 6, coding, op_count),
        }
    }
}

/// The operating points of a sequence.
struct Points {
    timing: (bool, bool, u8, u8, u8),
    count_minus_1: u8,
    idc: [u16; MAX_OPERATING_POINTS],
    has_model: [bool; MAX_OPERATING_POINTS],
}

impl Points {
    closed spec fn models(self, d: Seq<u8>, m: PointsModel) -> bool {
        &&& self.timing.0 == m.timing.equal_picture_interval
        &&& self.timing.1 == m.timing.decoder_model_info_present
        &&& self.timing.2 == m.timing.buffer_delay_length_minus_1
        &&& self.timing.3 == m.timing.buffer_removal_time_length_minus_1
        &&& self.timing.4 == m.timing.frame_presentation_time_length_minus_1
        &&& self.timing.2 < 32 && self.timing.3 < 32 && self.timing.4 < 32
        &&& self.count_minus_1 < 32
        &&& self.count_minus_1 == if m.op_count == 0 {
            0
        } else {
            m.op_count - 1
        }
        &&& op_arrays(d, m.ops, m.coding, m.op_count, self.idc@, self.has_model@)
    }
}

proof fn lemma_points_end(d: Seq<u8>, p: int, reduced: bool)
    ensures
        p <= points_model(d, p, reduced).end,
{
    reveal(points_model);
    if !reduced {
        lemma_timing_end(d, p);
        let m = points_model(d, p, reduced);
        crate::bits::lemma_bits_range(d, m.timing.end + 1, 5);
        assert(0 <= m.coding.delay_minus_1) by {
            reveal(timing_model);
            let t = if flag_at(d, p + 65) {
                uvlc_end(d, p + 66)
            } else {
                p + 66
            };
            crate::bits::lemma_bits_range(d, t + 1, 5);
        }
        lemma_op_start_mono(d, m.ops, m.coding, 0, m.op_count);
    }
}

/// Parses the operating point part.
fn parse_points(br: &mut BitReader<'_>, reduced: bool) -> (r: Result<Points, KinetixError>)
    requires
        old(br).wf(),
    ensures
        ({
            let m = points_model(old(br).data(), old(br).pos(), reduced);
            &&& reads(*old(br), *final(br), m.end - old(br).pos(), r)
            &&& r matches Ok(t) ==> t.models(old(br).data(), m)
        }),
{
    let ghost d = br.data();
    let ghost p = br.pos();
    proof {
        reveal(points_model);
        lemma_points_end(d, p, reduced);
        lemma_timing_end(d, p);
        lemma_pow2i_values();
    }
    if reduced {
        reveal(op_arrays);
        let _level: u32 = read_f(br, 5)?;
        return Ok(
            Points {
                timing: (false, false, 0, 0, 0),
                count_minus_1: 0,
                idc: [0; MAX_OPERATING_POINTS],
                has_model: [false; MAX_OPERATING_POINTS],
            },
        );
    }
    proof {
        let m = points_model(d, p, reduced);
        crate::bits::lemma_bits_range(d, m.timing.end + 1, 5);
        assert(0 <= m.coding.delay_minus_1) by {
            reveal(timing_model);
            let t = if flag_at(d, p + 65) {
                uvlc_end(d, p + 66)
            } else {
                p + 66
            };
            crate::bits::lemma_bits_range(d, t + 1, 5);
        }
        lemma_op_start_mono(d, m.ops, m.coding, 0, m.op_count);
    }
    let timing: (bool, bool, u8, u8, u8) = parse_timing(br)?;
    let display_delay: bool = read_flag(br)?;
    let count_minus_1: u8 = read_f8(br, 5)?;
    let (idc, has_model): (
        [u16; MAX_OPERATING_POINTS],
        [bool; MAX_OPERATING_POINTS],
    ) = parse_operating_points(
        br,
        count_minus_1 as usize + 1,
        timing.1,
        timing.2,
        display_delay,
    )?;
    Ok(Points { timing, count_minus_1, idc, has_model })
}

/// The frame size and frame number part of a sequence header, and where it ends.
pub struct SizeModel {
    pub width_bits_minus_1: int,
    pub height_bits_minus_1: int,
    pub width_minus_1: int,
    pub height_minus_1: int,
    pub has_ids: bool,
    pub delta_minus_2: int,
    pub additional_minus_1: int,
    pub end: int,
}

/// The frame size part that starts at `p`.
#[verifier::opaque]
pub open spec fn size_model(d: Seq<u8>, p: int, reduced: bool) -> SizeModel {
    let wb = bits_at(d, p, 4);
    let hb = bits_at(d, p + 4, 4);
    let q = p + 10 + wb + hb;
    let has_ids = !reduced && flag_at(d, q);
    SizeModel {
        width_bits_minus_1: wb,
        height_bits_minus_1: hb,
        width_minus_1: bits_at(d, p + 8, wb + 1),
        height_minus_1: bits_at(d, p + 9 + wb, hb + 1),
        has_ids,
        delta_minus_2: if has_ids {
            bits_at(d, q + 1, 4)
        } else {
            0
        },
        additional_minus_1: if has_ids {
            bits_at(d, q + 5, 3)
        } else {
            0
        },
        end: if reduced {
            q
        } else if has_ids {
            q + 8
        } else {
            q + 1
        },
    }
}

/// The frame size of a sequence and its frame number lengths.
struct Size {
    width_bits_minus_1: u8,
    height_bits_minus_1: u8,
    width_minus_1: u32,
    height_minus_1: u32,
    has_ids: bool,
    delta_minus_2: u8,
    additional_minus_1: u8,
}

impl Size {
    closed spec fn models(self, m: SizeModel) -> bool {
        &&& self.width_bits_minus_1 == m.width_bits_minus_1
        &&& self.height_bits_minus_1 == m.height_bits_minus_1
        &&& self.width_minus_1 == m.width_minus_1
        &&& self.height_minus_1 == m.height_minus_1
        &&& self.has_ids == m.has_ids
        &&& self.delta_minus_2 == m.delta_minus_2
        &&& self.additional_minus_1 == m.additional_minus_1
        &&& self.width_minus_1 < 0x1_0000
        &&& self.height_minus_1 < 0x1_0000
        &&& self.delta_minus_2 < 16
        &&& self.additional_minus_1 < 8
    }
}

/// Parses the frame size part.
fn parse_size(br: &mut BitReader<'_>, reduced: bool) -> (r: Result<Size, KinetixError>)
    requires
        old(br).wf(),
    ensures
        ({
            let m = size_model(old(br).data(), old(br).pos(), reduced);
            &&& reads(*old(br), *final(br), m.end - old(br).pos(), r)
            &&& r matches Ok(t) ==> t.models(m)
        }),
{
    proof {
        reveal(size_model);
        lemma_pow2i_values();
        crate::bits::lemma_bits_range(br.data(), br.pos(), 4);
        crate::bits::lemma_bits_range(br.data(), br.pos() + 4, 4);
    }
    let width_bits_minus_1: u8 = read_f8(br, 4)?;
    let height_bits_minus_1: u8 = read_f8(br, 4)?;
    proof {
        lemma_pow2i_mono(width_bits_minus_1 + 1, 16);
        lemma_pow2i_mono(height_bits_minus_1 + 1, 16);
    }
    let width_minus_1: u32 = read_f(br, width_bits_minus_1 + 1)?;
    let height_minus_1: u32 = read_f(br, height_bits_minus_1 + 1)?;
    let mut has_ids: bool = false;
    let mut delta_minus_2: u8 = 0;
    let mut additional_minus_1: u8 = 0;
    if !reduced {
        has_ids = read_flag(br)?;
    }
    if has_ids {
        delta_minus_2 = read_f8(br, 4)?;
        additional_minus_1 = read_f8(br, 3)?;
    }
    Ok(
        Size {
            width_bits_minus_1,
            height_bits_minus_1,
            width_minus_1,
            height_minus_1,
            has_ids,
            delta_minus_2,
            additional_minus_1,
        },
    )
}

/// The parts of a sequence header.
pub struct SequenceModel {
    pub points: PointsModel,
    pub size: SizeModel,
    pub tools: ToolsModel,
    pub color: ColorConfig,
    pub end: int,
}

/// The parts of the sequence header that `d` codes.
pub open spec fn sequence_model(d: Seq<u8>) -> SequenceModel {
    let reduced = flag_at(d, 4);
    let points = points_model(d, 5, reduced);
    let size = size_model(d, points.end, reduced);
    let tools = tools_model(d, size.end + 3, reduced);
    let color = color_model(d, tools.end + 3, bits_at(d, 0, 3));
    SequenceModel { points, size, tools, color: color.0, end: color.1 + 1 }
}

proof fn lemma_sequence_ends(d: Seq<u8>)
    ensures
        ({
            let m = sequence_model(d);
            &&& 5 <= m.points.end
            &&& m.points.end <= m.size.end
            &&& m.size.end + 3 <= m.tools.end
            &&& m.tools.end + 4 <= m.end
        }),
{
    let m = sequence_model(d);
    lemma_points_end(d, 5, flag_at(d, 4));
    reveal(size_model);
    reveal(tools_model);
    reveal(color_model);
    crate::bits::lemma_bits_range(d, m.points.end, 4);
    crate::bits::lemma_bits_range(d, m.points.end + 4, 4);
}

/// A unit that states its size is read by itself: the units of the bytes behind it follow
/// it.
pub proof fn law_units_follow(u: Seq<u8>, o: ObuModel, rest: Seq<u8>)
    requires
        obu_spans(u, u.len() as int, o),
        header_sized(u[0]),
    ensures
        obus_of(u + rest) == seq![o] + obus_of(rest),
{
    let d = u + rest;
    let end = u.len() as int;
    let h = header_len(u[0]);
    assert(d[0] == u[0]);
    let n = choose|n: int|
        {
            &&& #[trigger] leb128_spans(u.skip(h), n)
            &&& end == h + n + leb128_value(u.skip(h), n)
            &&& o.payload == u.subrange(h + n, end)
        };
    lemma_leb128_range(u.skip(h), n);
    assert forall|i: int| 0 <= i < n implies #[trigger] d.skip(h)[i] == u.skip(h)[i] by {}
    lemma_leb128_same(u.skip(h), d.skip(h), n);
    assert(leb128_spans(d.skip(h), n));
    assert(d.subrange(h + n, end) =~= u.subrange(h + n, end));
    assert(obu_spans(d, end, o));
    lemma_obus_step(d, end, o);
    assert(d.skip(end) =~= rest);
}

proof fn lemma_leb128_same(a: Seq<u8>, b: Seq<u8>, n: int)
    requires
        forall|i: int| 0 <= i < n ==> #[trigger] b[i] == a[i],
    ensures
        leb128_value(a, n) == leb128_value(b, n),
    decreases n,
{
    if n > 0 {
        lemma_leb128_same(a, b, n - 1);
    }
}

} // verus!
