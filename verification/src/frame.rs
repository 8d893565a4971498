//! The uncompressed frame header.
use crate::bits::{flag_at, pow2i, read_flag, reads, truncated, BitReader};
use crate::error::{Feature, KinetixError, ParseError};
use crate::header_parts::{
    aligned, byte_align, cdef_model, deltas_model, gm_arrays, gm_end, grain_end, hints_model,
    kind_model, lemma_back_ends, lemma_header_ends, loop_model, lr_end, opt, padding_clear, parse_cdef, parse_deltas,
    parse_film_grain, parse_global_motion, parse_hints, parse_kind, parse_loop_filter, parse_lr,
    parse_quant, parse_refs, parse_segmentation, parse_tile_info, quant_model, refs_model,
    same_bytes, seg_arrays, seg_model, tile_model, type_is_intra, Cdef, CdefModel, Deltas,
    DeltasModel, Hints, HintsModel, Kind, KindModel, LoopFilter, LoopModel, Quant, QuantModel, Refs,
    RefsModel, SegModel, Segmentation, TileModel, Tiling,
};
use crate::obu::{color_model, SequenceHeaderObu};
use vstd::prelude::*;

verus! {

/// The kinds of frames.
#[derive(Debug, Clone, Copy, PartialEq, Eq, Structural)]
pub enum FrameType {
    KeyFrame,
    InterFrame,
    IntraOnlyFrame,
    SwitchFrame,
    Reserved,
}

/// The frame kind that a type field value stands for.
pub open spec fn frame_type_of(v: int) -> FrameType {
    if v == 0 {
        FrameType::KeyFrame
    } else if v == 1 {
        FrameType::InterFrame
    } else if v == 2 {
        FrameType::IntraOnlyFrame
    } else if v == 3 {
        FrameType::SwitchFrame
    } else {
        FrameType::Reserved
    }
}

impl FrameType {
    /// The frame kind of a type field value.
    pub fn from_u8(v: u8) -> (r: Self)
        ensures
            r == frame_type_of(v as int),
    {
        match v {
            0 => Self::KeyFrame,
            1 => Self::InterFrame,
            2 => Self::IntraOnlyFrame,
            3 => Self::SwitchFrame,
            _ => Self::Reserved,
        }
    }

    /// Whether frames of this kind carry no motion.
    pub fn is_intra(self) -> (r: bool)
        ensures
            r == (self == FrameType::KeyFrame || self == FrameType::IntraOnlyFrame),
    {
        matches!(self, Self::KeyFrame | Self::IntraOnlyFrame)
    }
}

/// Loop filter deltas per reference frame and per mode.
#[derive(Debug, Clone, Copy)]
pub struct LoopFilterDeltas {
    pub loop_filter_ref_deltas: [i8; 8],
    pub loop_filter_mode_deltas: [i8; 2],
}

pub const INTERP_EIGHTTAP_REGULAR: u8 = 0;

pub const INTERP_EIGHTTAP_SMOOTH: u8 = 1;

pub const INTERP_EIGHTTAP_SHARP: u8 = 2;

pub const INTERP_BILINEAR: u8 = 3;

pub const INTERP_SWITCHABLE: u8 = 4;

pub const GM_IDENTITY: u8 = 0;

pub const GM_TRANSLATION: u8 = 1;

pub const GM_ROTZOOM: u8 = 2;

pub const GM_AFFINE: u8 = 3;

/// The quantizer step of `qindex` before its scale: piecewise linear in the index.
pub open spec fn quant_step(q: int) -> int {
    if q <= 0 {
        4
    } else if q <= 4 {
        q + q / 2 + 2
    } else if q <= 8 {
        2 * q
    } else if q <= 167 {
        2 * q - (2 * q) / 128 * 2
    } else {
        q + (2 * (q - 167)) / 128 * 2
    }
}

/// The base quantizer of an index: four times its step for AC, twice for DC.
pub fn av1_quant_base(qindex: u8, ac: bool) -> (r: i32)
    ensures
        r == quant_step(qindex as int) * if ac {
            4int
        } else {
            2
        },
{
    let q: i32 = qindex as i32;
    let base: i32 = if q <= 0 {
        4
    } else if q <= 4 {
        q + q / 2 + 2
    } else if q <= 8 {
        2 * q
    } else if q <= 167 {
        2 * q - (2 * q) / 128 * 2
    } else {
        q + (2 * (q - 167)) / 128 * 2
    };
    if ac {
        base * 4
    } else {
        base * 2
    }
}

/// The base quantizers of every index.
pub fn quant_table(ac: bool) -> (t: [i32; 256])
    ensures
        forall|i: int|
            0 <= i < 256 ==> #[trigger] t[i] == quant_step(i) * if ac {
                4int
            } else {
                2
            },
{
    let mut t: [i32; 256] = [0; 256];
    let mut i: usize = 0;
    while i < 256
        invariant
            i <= 256,
            forall|k: int|
                0 <= k < i ==> #[trigger] t[k] == quant_step(k) * if ac {
                    4int
                } else {
                    2
                },
        decreases 256 - i,
    {
        t[i] = av1_quant_base(i as u8, ac);
        i = i + 1;
    }
    t
}

/// The parsed frame header.
#[derive(Debug, Clone)]
pub struct FrameHeader {
    pub frame_type: FrameType,
    pub show_frame: bool,
    pub show_existing_frame: bool,
    pub showable_frame: bool,
    pub frame_id: Option<u32>,
    pub width: u32,
    pub height: u32,
    pub render_width: u32,
    pub render_height: u32,
    pub subsampling_x: bool,
    pub subsampling_y: bool,
    pub bit_depth: u8,
    pub use_128x128_superblock: bool,
    pub allow_screen_content_tools: bool,
    pub allow_intrabc: bool,
    pub frame_context_idx: u8,
    pub primary_ref_frame: u8,
    pub refresh_frame_flags: u8,
    pub error_resilient_mode: bool,
    pub disable_cdf_update: bool,
    pub allow_warp: bool,
    pub reduced_tx_set: bool,
    pub tx_mode_select: bool,
    pub skip_mode_allowed: bool,
    /// Whether the frame carries no motion.
    pub frame_is_intra: bool,
    /// Whether every plane is coded without loss.
    pub coded_lossless: bool,
    pub base_q_idx: u8,
    pub delta_q_y_dc: i32,
    pub delta_q_u_dc: i32,
    pub delta_q_u_ac: i32,
    pub delta_q_v_dc: i32,
    pub delta_q_v_ac: i32,
    pub using_qmatrix: bool,
    pub qm_y: u8,
    pub qm_u: u8,
    pub qm_v: u8,
    pub segmentation_enabled: bool,
    pub segmentation_update_map: bool,
    pub segmentation_temporal_update: bool,
    pub seg_feature_enabled: [bool; 8],
    pub seg_feature_data: [[i16; 8]; 8],
    pub loop_filter_level: [u8; 4],
    pub loop_filter_sharpness: u8,
    pub loop_filter_delta_enabled: bool,
    pub loop_filter_deltas: LoopFilterDeltas,
    pub cdef_damping: u8,
    pub cdef_bits: u8,
    pub cdef_y_strength: Vec<u8>,
    pub cdef_uv_strength: Vec<u8>,
    pub delta_q_present: bool,
    pub delta_q_res: u8,
    pub delta_lf_present: bool,
    pub delta_lf_res: u8,
    pub delta_lf_multi: bool,
    pub ref_frame_idx: [u8; 7],
    pub ref_order_hint: [u8; 8],
    pub order_hint: u32,
    pub order_hint_bits: u8,
    pub frame_refs_short_signaling: bool,
    pub last_frame_idx: u8,
    pub gold_frame_idx: u8,
    /// Motion vectors in eighth rather than quarter pixels.
    pub allow_high_precision_mv: bool,
    pub interpolation_filter: u8,
    pub is_motion_mode_switchable: bool,
    pub use_ref_frame_mvs: bool,
    pub reference_select: bool,
    pub skip_mode_present: bool,
    pub disable_frame_end_update_cdf: bool,
    pub gm_type: [u8; 8],
    pub gm_params: [[i32; 6]; 8],
    pub tile_cols_log2: u8,
    pub tile_rows_log2: u8,
    pub tile_cols: u32,
    pub tile_rows: u32,
    pub tile_width_in_sb: u32,
    pub tile_height_in_sb: u32,
    pub lossless: bool,
    pub buffer_removal_time_present: bool,
    pub enable_intra_edge_filter: bool,
    pub enable_filter_intra: bool,
    pub enable_cdef: bool,
    pub enable_restoration: bool,
}

/// Bits per sample: eight, or with high bit depth ten, or twelve in profile 2 with the
/// flag for twelve bits.
pub open spec fn spec_bit_depth(seq: SequenceHeaderObu) -> int {
    if !seq.color_config.high_bitdepth {
        8
    } else if seq.seq_profile == 2 && seq.color_config.twelve_bit {
        12
    } else {
        10
    }
}

/// Bits per sample of a sequence.
pub fn seq_bit_depth(seq: &SequenceHeaderObu) -> (r: u8)
    ensures
        r == spec_bit_depth(*seq),
{
    if seq.color_config.high_bitdepth {
        if seq.seq_profile == 2 && seq.color_config.twelve_bit {
            12
        } else {
            10
        }
    } else {
        8
    }
}

/// A parsed sequence header holds the bits per sample that its flags select.
pub proof fn law_bit_depth(d: Seq<u8>, seq: SequenceHeaderObu)
    requires
        seq.coded_in(d),
    ensures
        spec_bit_depth(seq) == seq.color_config.bit_depth,
{
    reveal(color_model);
}

/// A quantizer at rest codes without loss.
pub open spec fn quant_is_lossless(q: QuantModel) -> bool {
    &&& q.base_q_idx == 0
    &&& q.y_dc == 0
    &&& q.u_dc == 0
    &&& q.u_ac == 0
    &&& q.v_dc == 0
    &&& q.v_ac == 0
    &&& !q.using_qmatrix
}

/// The parts of a frame header behind the filters.
pub struct BackModel {
    pub tx_mode_select: bool,
    pub reference_select: bool,
    pub allow_warp: bool,
    pub reduced_tx_set: bool,
    /// Where the global motion starts.
    pub gm: int,
    pub end: int,
}

/// Where the loop restoration part at `p` ends.
pub open spec fn restoration_end(
    d: Seq<u8>,
    p: int,
    seq: SequenceHeaderObu,
    refs: RefsModel,
    lossless: bool,
) -> int {
    lr_end(
        d,
        p,
        lossless || refs.allow_intrabc || !seq.enable_restoration,
        !seq.color_config.mono_chrome,
        seq.color_config.subsampling_x && seq.color_config.subsampling_y,
        seq.use_128x128_superblock,
    )
}

/// The parts from `p` on, behind the filters.
#[verifier::opaque]
pub open spec fn back_model(
    d: Seq<u8>,
    p: int,
    seq: SequenceHeaderObu,
    kind: KindModel,
    refs: RefsModel,
    lossless: bool,
) -> BackModel {
    let intra = type_is_intra(kind.frame_type);
    let f1 = restoration_end(d, p, seq, refs, lossless);
    let f2 = f1 + opt(!lossless, 1);
    let f3 = f2 + opt(!intra, 1);
    let asks_warp = !intra && !kind.error_resilient_mode && seq.enable_warped_motion;
    let f4 = f3 + opt(asks_warp, 1);
    BackModel {
        tx_mode_select: !lossless && flag_at(d, f1),
        reference_select: !intra && flag_at(d, f2),
        allow_warp: asks_warp && flag_at(d, f3),
        reduced_tx_set: flag_at(d, f4),
        gm: f4 + 1,
        end: grain_end(
            d,
            gm_end(d, f4 + 1, intra, refs.allow_high_precision_mv),
            !seq.film_grain_params_present || (!kind.show_frame && !kind.showable_frame),
            kind.frame_type,
            seq.color_config.mono_chrome,
            seq.color_config.subsampling_x && seq.color_config.subsampling_y,
        ),
    }
}

/// The parts of a frame header.
pub struct HeaderModel {
    pub kind: KindModel,
    pub hints: HintsModel,
    pub refs: RefsModel,
    /// Whether contexts are kept as they are at the end of the frame.
    pub disable_frame_end_update_cdf: bool,
    pub tile: TileModel,
    pub quant: QuantModel,
    pub seg: SegModel,
    pub deltas: DeltasModel,
    pub lossless: bool,
    pub filter: LoopModel,
    pub cdef: CdefModel,
    pub back: BackModel,
    pub end: int,
}

/// The parts of the frame header that `d` codes for the sequence `seq`.
pub open spec fn header_model(d: Seq<u8>, seq: SequenceHeaderObu) -> HeaderModel {
    let chroma = !seq.color_config.mono_chrome;
    let subsampled = seq.color_config.subsampling_x && seq.color_config.subsampling_y;
    let kind = kind_model(d, seq);
    let intra = type_is_intra(kind.frame_type);
    let hints = hints_model(d, kind.end, seq, kind);
    let refs = refs_model(d, hints.end, seq, kind);
    let keeps = seq.reduced_still_picture_header || kind.disable_cdf_update;
    let t = refs.end + opt(!keeps, 1);
    let tile = tile_model(d, t, refs.size.width, refs.size.height, seq.use_128x128_superblock);
    let quant = quant_model(d, tile.end, chroma, seq.color_config.separate_uv_delta_q);
    let seg = seg_model(d, quant.end, hints.primary_ref_frame);
    let deltas = deltas_model(d, seg.end, quant.base_q_idx, refs.allow_intrabc);
    let lossless = quant_is_lossless(quant);
    let off = lossless || refs.allow_intrabc;
    let filter = loop_model(d, deltas.end, off, chroma);
    let cdef = cdef_model(d, filter.end, off || !seq.enable_cdef, chroma);
    let back = back_model(d, cdef.end, seq, kind, refs, lossless);
    HeaderModel {
        kind,
        hints,
        refs,
        disable_frame_end_update_cdf: keeps || flag_at(d, refs.end),
        tile,
        quant,
        seg,
        deltas,
        lossless,
        filter,
        cdef,
        back,
        end: back.end,
    }
}

/// The flags behind the loop restoration part.
struct Tail {
    tx_mode_select: bool,
    reference_select: bool,
    allow_warp: bool,
    reduced_tx_set: bool,
}

/// The parts of a parsed header up to the tiling.
struct Front {
    kind: Kind,
    hints: Hints,
    refs: Refs,
    disable_frame_end_update_cdf: bool,
    tiling: Tiling,
}

/// The parts of a parsed header from the quantizer to the filters.
struct Middle {
    quant: Quant,
    seg: Segmentation,
    deltas: Deltas,
    coded_lossless: bool,
    filter: LoopFilter,
    cdef: Cdef,
}

/// The parts of a parsed header behind the filters.
struct Back {
    tail: Tail,
    gm_type: [u8; 8],
    gm_params: [[i32; 6]; 8],
}

/// The parts of a parsed header.
struct Parts {
    front: Front,
    middle: Middle,
    back: Back,
}

impl Front {
    closed spec fn models(self, m: HeaderModel) -> bool {
        &&& self.kind.models(m.kind)
        &&& self.hints.models(m.hints)
        &&& self.refs.models(m.refs)
        &&& self.disable_frame_end_update_cdf == m.disable_frame_end_update_cdf
        &&& self.tiling.models(m.tile)
    }
}

impl Middle {
    closed spec fn models(self, d: Seq<u8>, m: HeaderModel) -> bool {
        &&& self.quant.models(m.quant)
        &&& self.seg.models(d, m.seg)
        &&& self.deltas.models(m.deltas)
        &&& self.coded_lossless == m.lossless
        &&& self.filter.models(m.filter)
        &&& self.cdef.models(m.cdef)
    }
}

impl Back {
    closed spec fn models(self, d: Seq<u8>, kind: KindModel, refs: RefsModel, m: BackModel) -> bool {
        &&& self.tail.tx_mode_select == m.tx_mode_select
        &&& self.tail.reference_select == m.reference_select
        &&& self.tail.allow_warp == m.allow_warp
        &&& self.tail.reduced_tx_set == m.reduced_tx_set
        &&& gm_arrays(
            d,
            m.gm,
            type_is_intra(kind.frame_type),
            refs.allow_high_precision_mv,
            self.gm_type,
            self.gm_params,
        )
    }
}

impl Parts {
    closed spec fn models(self, d: Seq<u8>, m: HeaderModel) -> bool {
        &&& self.front.models(m)
        &&& self.middle.models(d, m)
        &&& self.back.models(d, m.kind, m.refs, m.back)
    }
}

impl FrameHeader {
    /// The bounds that the coded field widths put on a frame header.
    pub open spec fn wf(&self) -> bool {
        &&& 1 <= self.width <= 0x1_0000
        &&& 1 <= self.height <= 0x1_0000
        &&& self.tile_cols_log2 <= 6
        &&& self.tile_rows_log2 <= 11
        &&& self.tile_cols == pow2i(self.tile_cols_log2 as int)
        &&& self.tile_rows == pow2i(self.tile_rows_log2 as int)
        &&& self.tile_width_in_sb >= 1
        &&& self.tile_height_in_sb >= 1
        &&& forall|i: int| 0 <= i < 4 ==> #[trigger] self.loop_filter_level[i] < 64
        &&& self.loop_filter_sharpness < 8
        &&& 3 <= self.cdef_damping <= 6
        &&& self.cdef_bits <= 3
        &&& self.interpolation_filter <= 4
        &&& -64 <= self.delta_q_y_dc <= 64
        &&& -64 <= self.delta_q_u_dc <= 64
        &&& -64 <= self.delta_q_u_ac <= 64
        &&& -64 <= self.delta_q_v_dc <= 64
        &&& -64 <= self.delta_q_v_ac <= 64
        &&& self.cdef_y_strength@.len() >= 1
        &&& forall|i: int|
            0 <= i < self.cdef_y_strength@.len() ==> #[trigger] self.cdef_y_strength@[i] <= 27
        &&& forall|i: int|
            0 <= i < self.cdef_uv_strength@.len() ==> #[trigger] self.cdef_uv_strength@[i] <= 27
    }

    /// The frame's kind and order hints are those that `m` holds.
    pub open spec fn codes_kind(&self, m: HeaderModel) -> bool {
        &&& self.frame_type == m.kind.frame_type
        &&& self.show_frame == m.kind.show_frame
        &&& !self.show_existing_frame
        &&& self.showable_frame == m.kind.showable_frame
        &&& self.frame_id is None
        &&& self.allow_screen_content_tools == m.kind.allow_screen_content_tools
        &&& self.error_resilient_mode == m.kind.error_resilient_mode
        &&& self.disable_cdf_update == m.kind.disable_cdf_update
        &&& self.frame_is_intra == type_is_intra(m.kind.frame_type)
        &&& self.order_hint == m.hints.order_hint
        &&& self.primary_ref_frame == m.hints.primary_ref_frame
        &&& self.frame_context_idx == m.hints.primary_ref_frame
        &&& self.buffer_removal_time_present == m.hints.buffer_removal_time_present
        &&& self.refresh_frame_flags == m.hints.refresh_frame_flags
        &&& forall|i: int|
            0 <= i < 8 ==> #[trigger] self.ref_order_hint[i] == m.hints.ref_order_hint[i]
    }

    /// The frame's size, references and tiling are those that `m` holds.
    pub open spec fn codes_refs(&self, m: HeaderModel) -> bool {
        &&& self.width == m.refs.size.width
        &&& self.height == m.refs.size.height
        &&& self.render_width == m.refs.size.render_width
        &&& self.render_height == m.refs.size.render_height
        &&& self.allow_intrabc == m.refs.allow_intrabc
        &&& forall|i: int|
            0 <= i < 7 ==> #[trigger] self.ref_frame_idx[i] == m.refs.ref_frame_idx[i]
        &&& self.frame_refs_short_signaling == m.refs.frame_refs_short_signaling
        &&& self.last_frame_idx == m.refs.last_frame_idx
        &&& self.gold_frame_idx == m.refs.gold_frame_idx
        &&& self.allow_high_precision_mv == m.refs.allow_high_precision_mv
        &&& self.interpolation_filter == m.refs.interpolation_filter
        &&& self.is_motion_mode_switchable == m.refs.is_motion_mode_switchable
        &&& self.use_ref_frame_mvs == m.refs.use_ref_frame_mvs
        &&& self.disable_frame_end_update_cdf == m.disable_frame_end_update_cdf
        &&& self.tile_cols_log2 == m.tile.cols_log2
        &&& self.tile_rows_log2 == m.tile.rows_log2
        &&& self.tile_cols == pow2i(m.tile.cols_log2)
        &&& self.tile_rows == pow2i(m.tile.rows_log2)
        &&& self.tile_width_in_sb == m.tile.width_in_sb
        &&& self.tile_height_in_sb == m.tile.height_in_sb
    }

    /// The frame's quantizer, segmentation and deltas are those that `m` holds.
    pub open spec fn codes_quant(&self, d: Seq<u8>, m: HeaderModel) -> bool {
        &&& self.base_q_idx == m.quant.base_q_idx
        &&& self.delta_q_y_dc == m.quant.y_dc
        &&& self.delta_q_u_dc == m.quant.u_dc
        &&& self.delta_q_u_ac == m.quant.u_ac
        &&& self.delta_q_v_dc == m.quant.v_dc
        &&& self.delta_q_v_ac == m.quant.v_ac
        &&& self.using_qmatrix == m.quant.using_qmatrix
        &&& self.qm_y == m.quant.qm_y
        &&& self.qm_u == m.quant.qm_u
        &&& self.qm_v == m.quant.qm_v
        &&& self.coded_lossless == m.lossless
        &&& self.lossless == m.lossless
        &&& self.segmentation_enabled == m.seg.enabled
        &&& self.segmentation_update_map == m.seg.update_map
        &&& self.segmentation_temporal_update == m.seg.temporal_update
        &&& seg_arrays(d, m.seg, self.seg_feature_enabled, self.seg_feature_data)
        &&& self.delta_q_present == m.deltas.q_present
        &&& self.delta_q_res == m.deltas.q_res
        &&& self.delta_lf_present == m.deltas.lf_present
        &&& self.delta_lf_res == m.deltas.lf_res
        &&& self.delta_lf_multi == m.deltas.lf_multi
    }

    /// The frame's filters, modes and global motion are those that `m` holds.
    pub open spec fn codes_filters(&self, d: Seq<u8>, m: HeaderModel) -> bool {
        &&& forall|i: int| 0 <= i < 4 ==> #[trigger] self.loop_filter_level[i] == m.filter.level[i]
        &&& self.loop_filter_sharpness == m.filter.sharpness
        &&& self.loop_filter_delta_enabled == m.filter.delta_enabled
        &&& forall|i: int|
            0 <= i < 8 ==> #[trigger] self.loop_filter_deltas.loop_filter_ref_deltas[i]
                == m.filter.ref_deltas[i]
        &&& forall|i: int|
            0 <= i < 2 ==> #[trigger] self.loop_filter_deltas.loop_filter_mode_deltas[i]
                == m.filter.mode_deltas[i]
        &&& self.cdef_damping == m.cdef.damping
        &&& self.cdef_bits == m.cdef.bits
        &&& same_bytes(self.cdef_y_strength@, m.cdef.y)
        &&& same_bytes(self.cdef_uv_strength@, m.cdef.uv)
        &&& self.tx_mode_select == m.back.tx_mode_select
        &&& self.reference_select == m.back.reference_select
        &&& self.allow_warp == m.back.allow_warp
        &&& self.reduced_tx_set == m.back.reduced_tx_set
        &&& !self.skip_mode_allowed
        &&& !self.skip_mode_present
        &&& gm_arrays(
            d,
            m.back.gm,
            type_is_intra(m.kind.frame_type),
            m.refs.allow_high_precision_mv,
            self.gm_type,
            self.gm_params,
        )
    }

    /// What a frame header takes over from its sequence.
    pub open spec fn inherits(&self, seq: SequenceHeaderObu) -> bool {
        &&& self.subsampling_x == seq.color_config.subsampling_x
        &&& self.subsampling_y == seq.color_config.subsampling_y
        &&& self.bit_depth == spec_bit_depth(seq)
        &&& self.use_128x128_superblock == seq.use_128x128_superblock
        &&& self.order_hint_bits == seq.spec_order_hint_bits()
        &&& self.enable_intra_edge_filter == seq.enable_intra_edge_filter
        &&& self.enable_filter_intra == seq.enable_filter_intra
        &&& self.enable_cdef == seq.enable_cdef
        &&& self.enable_restoration == seq.enable_restoration
    }

    /// The header is what the payload `d` codes for the sequence `seq`.
    pub open spec fn coded_in(&self, d: Seq<u8>, seq: SequenceHeaderObu) -> bool {
        &&& self.codes_kind(header_model(d, seq))
        &&& self.codes_refs(header_model(d, seq))
        &&& self.codes_quant(d, header_model(d, seq))
        &&& self.codes_filters(d, header_model(d, seq))
        &&& self.inherits(seq)
    }

    /// The header of a frame that shows a picture that is kept: it is shown, and codes
    /// nothing else. It has the size of the sequence and keeps nothing.
    pub open spec fn shows_kept_in(&self, seq: SequenceHeaderObu) -> bool {
        &&& self.show_existing_frame
        &&& self.show_frame
        &&& !self.showable_frame
        &&& self.frame_type == FrameType::InterFrame
        &&& self.frame_id is None
        &&& self.width == seq.max_frame_width_minus_1 + 1
        &&& self.height == seq.max_frame_height_minus_1 + 1
        &&& self.render_width == self.width
        &&& self.render_height == self.height
        &&& self.refresh_frame_flags == 0
        &&& self.order_hint == 0
        &&& self.base_q_idx == 0
        &&& self.tile_cols == 1
        &&& self.tile_rows == 1
        &&& self.cdef_y_strength@.len() == 0
        &&& self.cdef_uv_strength@.len() == 0
        &&& self.inherits(seq)
        &&& self.codes_no_tools()
        &&& self.codes_no_values()
    }

    /// No flag of the header is set.
    pub open spec fn codes_no_tools(&self) -> bool {
        &&& !self.allow_screen_content_tools
        &&& !self.allow_intrabc
        &&& !self.error_resilient_mode
        &&& !self.disable_cdf_update
        &&& !self.allow_warp
        &&& !self.reduced_tx_set
        &&& !self.tx_mode_select
        &&& !self.skip_mode_allowed
        &&& !self.frame_is_intra
        &&& !self.coded_lossless
        &&& !self.using_qmatrix
        &&& !self.segmentation_enabled
        &&& !self.segmentation_update_map
        &&& !self.segmentation_temporal_update
        &&& forall|i: int| 0 <= i < 8 ==> !#[trigger] self.seg_feature_enabled[i]
        &&& !self.loop_filter_delta_enabled
        &&& !self.delta_q_present
        &&& !self.delta_lf_present
        &&& !self.delta_lf_multi
        &&& !self.frame_refs_short_signaling
        &&& !self.allow_high_precision_mv
        &&& !self.is_motion_mode_switchable
        &&& !self.use_ref_frame_mvs
        &&& !self.reference_select
        &&& !self.skip_mode_present
        &&& !self.disable_frame_end_update_cdf
        &&& !self.lossless
        &&& !self.buffer_removal_time_present
    }

    /// Every value of the header that nothing else gives is zero.
    pub open spec fn codes_no_values(&self) -> bool {
        &&& self.frame_context_idx == 0
        &&& self.primary_ref_frame == 0
        &&& self.delta_q_y_dc == 0
        &&& self.delta_q_u_dc == 0
        &&& self.delta_q_u_ac == 0
        &&& self.delta_q_v_dc == 0
        &&& self.delta_q_v_ac == 0
        &&& self.qm_y == 0
        &&& self.qm_u == 0
        &&& self.qm_v == 0
        &&& forall|i: int, j: int|
            0 <= i < 8 && 0 <= j < 8 ==> #[trigger] self.seg_feature_data[i][j] == 0
        &&& forall|i: int| 0 <= i < 4 ==> #[trigger] self.loop_filter_level[i] == 0
        &&& self.loop_filter_sharpness == 0
        &&& forall|i: int|
            0 <= i < 8 ==> #[trigger] self.loop_filter_deltas.loop_filter_ref_deltas[i] == 0
        &&& forall|i: int|
            0 <= i < 2 ==> #[trigger] self.loop_filter_deltas.loop_filter_mode_deltas[i] == 0
        &&& self.cdef_damping == 0
        &&& self.cdef_bits == 0
        &&& self.delta_q_res == 0
        &&& self.delta_lf_res == 0
        &&& forall|i: int| 0 <= i < 7 ==> #[trigger] self.ref_frame_idx[i] == 0
        &&& forall|i: int| 0 <= i < 8 ==> #[trigger] self.ref_order_hint[i] == 0
        &&& self.last_frame_idx == 0
        &&& self.gold_frame_idx == 0
        &&& self.interpolation_filter == 0
        &&& forall|i: int| 0 <= i < 8 ==> #[trigger] self.gm_type[i] == 0
        &&& forall|i: int, j: int|
            0 <= i < 8 && 0 <= j < 6 ==> #[trigger] self.gm_params[i][j] == 0
        &&& self.tile_cols_log2 == 0
        &&& self.tile_rows_log2 == 0
        &&& self.tile_width_in_sb == 0
        &&& self.tile_height_in_sb == 0
    }

    /// The header of a frame that shows a picture that is kept.
    pub fn showing_kept(seq: &SequenceHeaderObu) -> (r: Self)
        requires
            seq.wf(),
        ensures
            r.shows_kept_in(*seq),
    {
        let bit_depth: u8 = seq_bit_depth(seq);
        let width: u32 = seq.frame_width();
        let height: u32 = seq.frame_height();
        FrameHeader {
            frame_type: FrameType::InterFrame,
            show_frame: true,
            show_existing_frame: true,
            showable_frame: false,
            frame_id: None,
            width,
            height,
            render_width: width,
            render_height: height,
            subsampling_x: seq.color_config.subsampling_x,
            subsampling_y: seq.color_config.subsampling_y,
            bit_depth,
            use_128x128_superblock: seq.use_128x128_superblock,
            allow_screen_content_tools: false,
            allow_intrabc: false,
            frame_context_idx: 0,
            primary_ref_frame: 0,
            refresh_frame_flags: 0,
            error_resilient_mode: false,
            disable_cdf_update: false,
            allow_warp: false,
            reduced_tx_set: false,
            tx_mode_select: false,
            skip_mode_allowed: false,
            frame_is_intra: false,
            coded_lossless: false,
            base_q_idx: 0,
            delta_q_y_dc: 0,
            delta_q_u_dc: 0,
            delta_q_u_ac: 0,
            delta_q_v_dc: 0,
            delta_q_v_ac: 0,
            using_qmatrix: false,
            qm_y: 0,
            qm_u: 0,
            qm_v: 0,
            segmentation_enabled: false,
            segmentation_update_map: false,
            segmentation_temporal_update: false,
            seg_feature_enabled: [false; 8],
            seg_feature_data: [[0i16; 8]; 8],
            loop_filter_level: [0u8; 4],
            loop_filter_sharpness: 0,
            loop_filter_delta_enabled: false,
            loop_filter_deltas: LoopFilterDeltas {
                loop_filter_ref_deltas: [0; 8],
                loop_filter_mode_deltas: [0; 2],
            },
            cdef_damping: 0,
            cdef_bits: 0,
            cdef_y_strength: Vec::new(),
            cdef_uv_strength: Vec::new(),
            delta_q_present: false,
            delta_q_res: 0,
            delta_lf_present: false,
            delta_lf_res: 0,
            delta_lf_multi: false,
            ref_frame_idx: [0u8; 7],
            ref_order_hint: [0u8; 8],
            order_hint: 0,
            order_hint_bits: seq.order_hint_bits(),
            frame_refs_short_signaling: false,
            last_frame_idx: 0,
            gold_frame_idx: 0,
            allow_high_precision_mv: false,
            interpolation_filter: 0,
            is_motion_mode_switchable: false,
            use_ref_frame_mvs: false,
            reference_select: false,
            skip_mode_present: false,
            disable_frame_end_update_cdf: false,
            gm_type: [0u8; 8],
            gm_params: [[0i32; 6]; 8],
            tile_cols_log2: 0,
            tile_rows_log2: 0,
            tile_cols: 1,
            tile_rows: 1,
            tile_width_in_sb: 0,
            tile_height_in_sb: 0,
            lossless: false,
            buffer_removal_time_present: false,
            enable_intra_edge_filter: seq.enable_intra_edge_filter,
            enable_filter_intra: seq.enable_filter_intra,
            enable_cdef: seq.enable_cdef,
            enable_restoration: seq.enable_restoration,
        }
    }

    /// Parses the frame header at the start of `data`. Returns the header and the
    /// number of bits up to the byte boundary behind it, where tile data starts in
    /// a frame unit.
    pub fn parse(data: &[u8], seq: &SequenceHeaderObu) -> (r: Result<(Self, usize), KinetixError>)
        requires
            seq.wf(),
            8 * data@.len() <= usize::MAX,
        ensures
            r == match header_outcome(data@, *seq) {
                Err(e) => Err(e),
                Ok(bits) => Ok((r->Ok_0.0, bits as usize)),
            },
            r matches Ok((h, bits)) ==> {
                &&& h.wf()
                &&& h.coded_in(data@, *seq)
                &&& bits == aligned(header_model(data@, *seq).end) <= 8 * data@.len()
            },
    {
        let mut br: BitReader = BitReader::new(data);
        let parts: Parts = match Self::parse_parts(&mut br, seq) {
            Ok(parts) => parts,
            Err(e) => {
                return Err(e);
            },
        };
        proof {
            br.lemma_wf();
        }
        match byte_align(&mut br) {
            Ok(()) => {
                let bits: usize = br.bits_read();
                let header: FrameHeader = Self::assemble(parts, seq, Ghost(data@));
                proof {
                    br.lemma_wf();
                }
                Ok((header, bits))
            },
            Err(e) => Err(e),
        }
    }

    /// Parses the parts of a frame header.
    fn parse_parts(br: &mut BitReader<'_>, seq: &SequenceHeaderObu) -> (r: Result<
        Parts,
        KinetixError,
    >)
        requires
            old(br).wf(),
            old(br).pos() == 0,
            seq.wf(),
        ensures
            final(br).wf(),
            final(br).data() == old(br).data(),
            ({
                let d = old(br).data();
                let m = header_model(d, *seq);
                &&& m.kind.show_existing_frame ==> r == Err::<Parts, _>(
                    KinetixError::Unsupported(Feature::ShowExistingFrame),
                )
                &&& !m.kind.show_existing_frame ==> reads(*old(br), *final(br), m.end, r)
                &&& r matches Ok(t) ==> t.models(d, m)
            }),
    {
        let ghost m = header_model(br.data(), *seq);
        proof {
            lemma_header_ends(br.data(), *seq);
        }
        let front: Front = Self::parse_front(br, seq)?;
        let middle: Middle = Self::parse_middle(br, seq, &front)?;
        let back: Back = Self::parse_back(
            br,
            seq,
            &front,
            middle.coded_lossless,
            Ghost(m.kind),
            Ghost(m.refs),
        )?;
        Ok(Parts { front, middle, back })
    }

    /// Parses the parts up to the tiling.
    fn parse_front(br: &mut BitReader<'_>, seq: &SequenceHeaderObu) -> (r: Result<
        Front,
        KinetixError,
    >)
        requires
            old(br).wf(),
            old(br).pos() == 0,
            seq.wf(),
        ensures
            final(br).wf(),
            final(br).data() == old(br).data(),
            ({
                let d = old(br).data();
                let m = header_model(d, *seq);
                &&& m.kind.show_existing_frame ==> r == Err::<Front, _>(
                    KinetixError::Unsupported(Feature::ShowExistingFrame),
                )
                &&& !m.kind.show_existing_frame ==> reads(*old(br), *final(br), m.tile.end, r)
                &&& r matches Ok(t) ==> t.models(m)
            }),
    {
        let ghost m = header_model(br.data(), *seq);
        proof {
            lemma_header_ends(br.data(), *seq);
        }
        let kind: Kind = parse_kind(br, seq)?;
        let hints: Hints = parse_hints(br, seq, &kind, Ghost(m.kind))?;
        let refs: Refs = parse_refs(br, seq, &kind, Ghost(m.kind))?;
        let mut disable_frame_end_update_cdf: bool = true;
        if !seq.reduced_still_picture_header && !kind.disable_cdf_update {
            disable_frame_end_update_cdf = read_flag(br)?;
        }
        let tiling: Tiling = parse_tile_info(
            br,
            refs.width,
            refs.height,
            seq.use_128x128_superblock,
        )?;
        Ok(Front { kind, hints, refs, disable_frame_end_update_cdf, tiling })
    }

    /// Parses the parts from the quantizer to the filters.
    fn parse_middle(br: &mut BitReader<'_>, seq: &SequenceHeaderObu, front: &Front) -> (r: Result<
        Middle,
        KinetixError,
    >)
        requires
            old(br).wf(),
            seq.wf(),
            old(br).pos() == header_model(old(br).data(), *seq).tile.end,
            front.models(header_model(old(br).data(), *seq)),
        ensures
            ({
                let d = old(br).data();
                let m = header_model(d, *seq);
                &&& reads(*old(br), *final(br), m.cdef.end - m.tile.end, r)
                &&& r matches Ok(t) ==> t.models(d, m)
            }),
    {
        proof {
            lemma_header_ends(br.data(), *seq);
        }
        let chroma: bool = !seq.color_config.mono_chrome;
        let copies: bool = front.refs.allow_intrabc;
        let quant: Quant = parse_quant(br, chroma, seq.color_config.separate_uv_delta_q)?;
        let seg: Segmentation = parse_segmentation(br, front.hints.primary_ref_frame)?;
        let deltas: Deltas = parse_deltas(br, quant.base_q_idx, copies)?;
        let coded_lossless: bool = quant.base_q_idx == 0 && quant.y_dc == 0 && quant.u_dc == 0
            && quant.u_ac == 0 && quant.v_dc == 0 && quant.v_ac == 0 && !quant.using_qmatrix;
        let off: bool = coded_lossless || copies;
        let filter: LoopFilter = parse_loop_filter(br, off, chroma)?;
        let cdef: Cdef = parse_cdef(br, off || !seq.enable_cdef, chroma)?;
        Ok(Middle { quant, seg, deltas, coded_lossless, filter, cdef })
    }

    /// Parses the parts behind the filters.
    fn parse_back(
        br: &mut BitReader<'_>,
        seq: &SequenceHeaderObu,
        front: &Front,
        coded_lossless: bool,
        Ghost(kind): Ghost<KindModel>,
        Ghost(refs): Ghost<RefsModel>,
    ) -> (r: Result<Back, KinetixError>)
        requires
            old(br).wf(),
            front.kind.models(kind),
            front.refs.models(refs),
        ensures
            ({
                let d = old(br).data();
                let m = back_model(d, old(br).pos(), *seq, kind, refs, coded_lossless);
                &&& reads(*old(br), *final(br), m.end - old(br).pos(), r)
                &&& r matches Ok(t) ==> t.models(d, kind, refs, m)
            }),
    {
        proof {
            lemma_back_ends(br.data(), br.pos(), *seq, kind, refs, coded_lossless);
            reveal(back_model);
        }
        let subsampled: bool = seq.color_config.subsampling_x && seq.color_config.subsampling_y;
        let intra: bool = front.kind.frame_type.is_intra();
        let unrestored: bool = coded_lossless || front.refs.allow_intrabc
            || !seq.enable_restoration;
        let asks_warp: bool = !intra && !front.kind.error_resilient_mode
            && seq.enable_warped_motion;
        let plain: bool = !seq.film_grain_params_present || (!front.kind.show_frame
            && !front.kind.showable_frame);
        let ghost p = br.pos();
        assert(subsampled == (seq.color_config.subsampling_x && seq.color_config.subsampling_y));
        assert(intra == type_is_intra(kind.frame_type));
        assert(unrestored == (coded_lossless || refs.allow_intrabc || !seq.enable_restoration));
        assert(plain == (!seq.film_grain_params_present || (!kind.show_frame
            && !kind.showable_frame)));
        parse_lr(
            br,
            unrestored,
            !seq.color_config.mono_chrome,
            subsampled,
            seq.use_128x128_superblock,
        )?;
        assert(br.pos() == restoration_end(br.data(), p, *seq, refs, coded_lossless));
        let tail: Tail = Self::parse_tail(br, coded_lossless, intra, asks_warp)?;
        assert(br.pos() == back_model(br.data(), p, *seq, kind, refs, coded_lossless).gm);
        let (gm_type, gm_params): ([u8; 8], [[i32; 6]; 8]) = parse_global_motion(
            br,
            intra,
            front.refs.allow_high_precision_mv,
        )?;
        parse_film_grain(
            br,
            plain,
            front.kind.frame_type,
            seq.color_config.mono_chrome,
            subsampled,
        )?;
        Ok(Back { tail, gm_type, gm_params })
    }

    /// Parses the flags behind the loop restoration part.
    fn parse_tail(br: &mut BitReader<'_>, lossless: bool, intra: bool, asks_warp: bool) -> (r:
        Result<Tail, KinetixError>)
        requires
            old(br).wf(),
        ensures
            ({
                let d = old(br).data();
                let f1 = old(br).pos();
                let f2 = f1 + opt(!lossless, 1);
                let f3 = f2 + opt(!intra, 1);
                let f4 = f3 + opt(asks_warp, 1);
                &&& reads(*old(br), *final(br), f4 + 1 - f1, r)
                &&& r matches Ok(t) ==> {
                    &&& t.tx_mode_select == (!lossless && flag_at(d, f1))
                    &&& t.reference_select == (!intra && flag_at(d, f2))
                    &&& t.allow_warp == (asks_warp && flag_at(d, f3))
                    &&& t.reduced_tx_set == flag_at(d, f4)
                }
            }),
    {
        let mut t: Tail = Tail {
            tx_mode_select: false,
            reference_select: false,
            allow_warp: false,
            reduced_tx_set: false,
        };
        if !lossless {
            t.tx_mode_select = read_flag(br)?;
        }
        if !intra {
            t.reference_select = read_flag(br)?;
        }
        if asks_warp {
            t.allow_warp = read_flag(br)?;
        }
        t.reduced_tx_set = read_flag(br)?;
        Ok(t)
    }

    /// Puts a header together from its parts.
    fn assemble(p: Parts, seq: &SequenceHeaderObu, Ghost(d): Ghost<Seq<u8>>) -> (h: Self)
        requires
            seq.wf(),
            p.models(d, header_model(d, *seq)),
        ensures
            h.wf(),
            h.coded_in(d, *seq),
    {
        let Parts { front, middle, back } = p;
        let order_hint_bits: u8 = seq.order_hint_bits();
        let bit_depth: u8 = seq_bit_depth(seq);
        let frame_is_intra: bool = front.kind.frame_type.is_intra();
        FrameHeader {
            frame_type: front.kind.frame_type,
            show_frame: front.kind.show_frame,
            show_existing_frame: false,
            showable_frame: front.kind.showable_frame,
            frame_id: None,
            width: front.refs.width,
            height: front.refs.height,
            render_width: front.refs.render_width,
            render_height: front.refs.render_height,
            subsampling_x: seq.color_config.subsampling_x,
            subsampling_y: seq.color_config.subsampling_y,
            bit_depth,
            use_128x128_superblock: seq.use_128x128_superblock,
            allow_screen_content_tools: front.kind.allow_screen_content_tools,
            allow_intrabc: front.refs.allow_intrabc,
            frame_context_idx: front.hints.primary_ref_frame,
            primary_ref_frame: front.hints.primary_ref_frame,
            refresh_frame_flags: front.hints.refresh_frame_flags,
            error_resilient_mode: front.kind.error_resilient_mode,
            disable_cdf_update: front.kind.disable_cdf_update,
            allow_warp: back.tail.allow_warp,
            reduced_tx_set: back.tail.reduced_tx_set,
            tx_mode_select: back.tail.tx_mode_select,
            skip_mode_allowed: false,
            frame_is_intra,
            coded_lossless: middle.coded_lossless,
            base_q_idx: middle.quant.base_q_idx,
            delta_q_y_dc: middle.quant.y_dc,
            delta_q_u_dc: middle.quant.u_dc,
            delta_q_u_ac: middle.quant.u_ac,
            delta_q_v_dc: middle.quant.v_dc,
            delta_q_v_ac: middle.quant.v_ac,
            using_qmatrix: middle.quant.using_qmatrix,
            qm_y: middle.quant.qm_y,
            qm_u: middle.quant.qm_u,
            qm_v: middle.quant.qm_v,
            segmentation_enabled: middle.seg.enabled,
            segmentation_update_map: middle.seg.update_map,
            segmentation_temporal_update: middle.seg.temporal_update,
            seg_feature_enabled: middle.seg.feature_enabled,
            seg_feature_data: middle.seg.feature_data,
            loop_filter_level: middle.filter.level,
            loop_filter_sharpness: middle.filter.sharpness,
            loop_filter_delta_enabled: middle.filter.delta_enabled,
            loop_filter_deltas: middle.filter.deltas,
            cdef_damping: middle.cdef.damping,
            cdef_bits: middle.cdef.bits,
            cdef_y_strength: middle.cdef.y,
            cdef_uv_strength: middle.cdef.uv,
            delta_q_present: middle.deltas.q_present,
            delta_q_res: middle.deltas.q_res,
            delta_lf_present: middle.deltas.lf_present,
            delta_lf_res: middle.deltas.lf_res,
            delta_lf_multi: middle.deltas.lf_multi,
            ref_frame_idx: front.refs.ref_frame_idx,
            ref_order_hint: front.hints.ref_order_hint,
            order_hint: front.hints.order_hint,
            order_hint_bits,
            frame_refs_short_signaling: front.refs.frame_refs_short_signaling,
            last_frame_idx: front.refs.last_frame_idx,
            gold_frame_idx: front.refs.gold_frame_idx,
            allow_high_precision_mv: front.refs.allow_high_precision_mv,
            interpolation_filter: front.refs.interpolation_filter,
            is_motion_mode_switchable: front.refs.is_motion_mode_switchable,
            use_ref_frame_mvs: front.refs.use_ref_frame_mvs,
            reference_select: back.tail.reference_select,
            skip_mode_present: false,
            disable_frame_end_update_cdf: front.disable_frame_end_update_cdf,
            gm_type: back.gm_type,
            gm_params: back.gm_params,
            tile_cols_log2: front.tiling.cols_log2,
            tile_rows_log2: front.tiling.rows_log2,
            tile_cols: front.tiling.cols,
            tile_rows: front.tiling.rows,
            tile_width_in_sb: front.tiling.width_in_sb,
            tile_height_in_sb: front.tiling.height_in_sb,
            lossless: middle.coded_lossless,
            buffer_removal_time_present: front.hints.buffer_removal_time_present,
            enable_intra_edge_filter: seq.enable_intra_edge_filter,
            enable_filter_intra: seq.enable_filter_intra,
            enable_cdef: seq.enable_cdef,
            enable_restoration: seq.enable_restoration,
        }
    }
}

/// What parsing the frame header at the start of `d` comes to: the number of bits
/// up to the byte boundary behind it, or the error.
pub open spec fn header_outcome(d: Seq<u8>, seq: SequenceHeaderObu) -> Result<int, KinetixError> {
    let m = header_model(d, seq);
    if m.kind.show_existing_frame {
        Err(KinetixError::Unsupported(Feature::ShowExistingFrame))
    } else if m.end > 8 * d.len() {
        Err(truncated())
    } else if !padding_clear(d, m.end) {
        Err(KinetixError::Parse(ParseError::TrailingBits))
    } else {
        Ok(aligned(m.end))
    }
}

} // verus!
