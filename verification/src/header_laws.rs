//! Frame headers as they are written, and what reading them gives back.
use crate::bits::{bits_at, flag_at, lemma_bits_range, pow2i};
use crate::code_laws::law_delta;
use crate::frame::{frame_type_of, quant_is_lossless, FrameType};
use crate::header_parts::{
    cdef_model, delta_at, delta_len, deltas_model, hints_model, kind_model, loop_model, opt,
    quant_model, seg_model, strength_at, type_is_intra, type_resets, DeltasModel, KindModel,
    LoopModel, QuantModel,
};
use crate::obu::SequenceHeaderObu;
use vstd::prelude::*;

verus! {

// ---------------------------------------------------------------------------
// Writing
// ---------------------------------------------------------------------------

/// How far a header is written, and whether the data holds what was written so far.
pub struct Pen {
    pub at: int,
    pub holds: bool,
}

/// The pen at bit `p`, with nothing written.
pub open spec fn pen_at(p: int) -> Pen {
    Pen { at: p, holds: true }
}

/// The number `v` written in `n` bits.
pub open spec fn put(d: Seq<u8>, w: Pen, n: int, v: int) -> Pen {
    Pen { at: w.at + n, holds: w.holds && bits_at(d, w.at, n) == v }
}

/// A flag written in one bit.
pub open spec fn put_flag(d: Seq<u8>, w: Pen, v: bool) -> Pen {
    Pen { at: w.at + 1, holds: w.holds && flag_at(d, w.at) == v }
}

/// The number `v` written in `n` bits where `c` holds.
pub open spec fn put_if(d: Seq<u8>, w: Pen, c: bool, n: int, v: int) -> Pen {
    if c {
        put(d, w, n, v)
    } else {
        w
    }
}

/// A flag written where `c` holds.
pub open spec fn put_flag_if(d: Seq<u8>, w: Pen, c: bool, v: bool) -> Pen {
    if c {
        put_flag(d, w, v)
    } else {
        w
    }
}

/// A delta written where `c` holds: a flag, and seven bits where it is not zero.
pub open spec fn put_delta_if(d: Seq<u8>, w: Pen, c: bool, v: int) -> Pen {
    if !c {
        w
    } else if v == 0 {
        put_flag(d, w, false)
    } else {
        put(
            d,
            put_flag(d, w, true),
            7,
            if v < 0 {
                v + 128
            } else {
                v
            },
        )
    }
}

proof fn lemma_put_delta(d: Seq<u8>, w: Pen, c: bool, v: int)
    requires
        -64 <= v < 64,
    ensures
        put_delta_if(d, w, c, v).holds ==> w.holds,
        c && put_delta_if(d, w, c, v).holds ==> delta_at(d, w.at) == v && put_delta_if(
            d,
            w,
            c,
            v,
        ).at == w.at + delta_len(d, w.at),
        !c ==> put_delta_if(d, w, c, v) == w,
{
    if c && put_delta_if(d, w, c, v).holds {
        law_delta(d, w.at, v);
    }
}

// ---------------------------------------------------------------------------
// The kind of a frame
// ---------------------------------------------------------------------------

/// The code of a frame type.
pub open spec fn type_code(t: FrameType) -> int {
    match t {
        FrameType::KeyFrame => 0,
        FrameType::InterFrame => 1,
        FrameType::IntraOnlyFrame => 2,
        FrameType::SwitchFrame => 3,
        FrameType::Reserved => 4,
    }
}

/// The kind of a frame as it is written in a sequence of full headers.
pub open spec fn written_kind(d: Seq<u8>, seq: SequenceHeaderObu, k: KindModel) -> Pen {
    let w = put_flag(d, pen_at(0), k.show_existing_frame);
    let w = put(d, w, 2, type_code(k.frame_type));
    let w = put_flag(d, w, k.show_frame);
    let w = put_flag_if(
        d,
        w,
        !k.show_frame && k.frame_type != FrameType::KeyFrame,
        k.showable_frame,
    );
    let w = put_flag_if(d, w, !type_resets(k.frame_type, k.show_frame), k.error_resilient_mode);
    let w = put_flag(d, w, k.disable_cdf_update);
    let w = put_flag_if(
        d,
        w,
        seq.seq_choose_screen_content_tools,
        k.allow_screen_content_tools,
    );
    let w = put_flag_if(
        d,
        w,
        k.allow_screen_content_tools && seq.seq_choose_integer_mv && !type_is_intra(k.frame_type),
        k.force_integer_mv,
    );
    put_flag_if(d, w, k.frame_type != FrameType::SwitchFrame, k.frame_size_override_flag)
}

/// What is not written has the value that the rest implies. Key frames that are shown and
/// switch frames are resilient; nothing is showable later that is shown now; intra frames
/// have whole vectors; switch frames state their size.
pub open spec fn kind_follows(seq: SequenceHeaderObu, k: KindModel) -> bool {
    &&& k.frame_type != FrameType::Reserved
    &&& k.show_frame || k.frame_type == FrameType::KeyFrame ==> !k.showable_frame
    &&& type_resets(k.frame_type, k.show_frame) ==> k.error_resilient_mode
    &&& !seq.seq_choose_screen_content_tools ==> k.allow_screen_content_tools
        == seq.seq_force_screen_content_tools
    &&& type_is_intra(k.frame_type) ==> k.force_integer_mv
    &&& !type_is_intra(k.frame_type) && !(k.allow_screen_content_tools
        && seq.seq_choose_integer_mv) ==> k.force_integer_mv == (k.allow_screen_content_tools
        && seq.seq_force_integer_mv)
    &&& k.frame_type == FrameType::SwitchFrame ==> k.frame_size_override_flag
}

/// The kind of a frame that is written reads back, unless the frame is intra and could have
/// coded whole vectors, where one more bit is passed over.
pub proof fn law_written_kind(d: Seq<u8>, seq: SequenceHeaderObu, k: KindModel)
    requires
        !seq.reduced_still_picture_header,
        kind_follows(seq, k),
        written_kind(d, seq, k).holds,
        k.end == written_kind(d, seq, k).at,
        !(type_is_intra(k.frame_type) && k.allow_screen_content_tools && seq.seq_choose_integer_mv),
    ensures
        kind_model(d, seq) == k,
{
    reveal(kind_model);
    assert(frame_type_of(type_code(k.frame_type)) == k.frame_type);
}

/// A reduced header is that of a key frame that is shown.
pub proof fn law_reduced_kind(d: Seq<u8>, seq: SequenceHeaderObu)
    requires
        seq.reduced_still_picture_header,
    ensures
        kind_model(d, seq).frame_type == FrameType::KeyFrame,
        kind_model(d, seq).show_frame,
        !kind_model(d, seq).show_existing_frame,
        kind_model(d, seq).error_resilient_mode,
        !kind_model(d, seq).frame_size_override_flag,
        kind_model(d, seq).disable_cdf_update == flag_at(d, 0),
{
    reveal(kind_model);
}

// ---------------------------------------------------------------------------
// Slots
// ---------------------------------------------------------------------------

/// A frame that resets everything refreshes all slots. Other frames refresh those that the
/// header flags, with the flag of the last slot first.
pub proof fn law_refreshed_slots(d: Seq<u8>, p: int, seq: SequenceHeaderObu, k: KindModel)
    requires
        !seq.decoder_model_info_present,
    ensures
        ({
            let m = hints_model(d, p, seq, k);
            let q = p + seq.spec_order_hint_bits() + opt(
                !type_is_intra(k.frame_type) && !k.error_resilient_mode,
                3,
            );
            &&& type_resets(k.frame_type, k.show_frame) ==> m.refresh_frame_flags == 255
            &&& !type_resets(k.frame_type, k.show_frame) ==> m.refresh_frame_flags == bits_at(
                d,
                q,
                8,
            )
            &&& m.order_hint == bits_at(d, p, seq.spec_order_hint_bits())
            &&& type_is_intra(k.frame_type) || k.error_resilient_mode ==> m.primary_ref_frame == 7
            &&& !type_is_intra(k.frame_type) && !k.error_resilient_mode ==> m.primary_ref_frame
                == bits_at(d, q - 3, 3)
        }),
{
    reveal(hints_model);
}

// ---------------------------------------------------------------------------
// Quantizers
// ---------------------------------------------------------------------------

/// The quantizers as they are written.
pub open spec fn written_quant(
    d: Seq<u8>,
    p: int,
    chroma: bool,
    separate_uv: bool,
    differs: bool,
    m: QuantModel,
) -> Pen {
    let w = put(d, pen_at(p), 8, m.base_q_idx);
    let w = put_delta_if(d, w, true, m.y_dc);
    let w = put_flag_if(d, w, chroma && separate_uv, differs);
    let w = put_delta_if(d, w, chroma, m.u_dc);
    let w = put_delta_if(d, w, chroma, m.u_ac);
    let w = put_delta_if(d, w, differs, m.v_dc);
    let w = put_delta_if(d, w, differs, m.v_ac);
    let w = put_flag(d, w, m.using_qmatrix);
    let w = put_if(d, w, m.using_qmatrix, 4, m.qm_y);
    let w = put_if(d, w, m.using_qmatrix, 4, m.qm_u);
    put_if(d, w, m.using_qmatrix && separate_uv, 4, m.qm_v)
}

/// What is not written of the quantizers: no chroma deltas without chroma, and one set for
/// both chroma planes where they do not differ.
pub open spec fn quant_follows(
    chroma: bool,
    separate_uv: bool,
    differs: bool,
    m: QuantModel,
) -> bool {
    &&& -64 <= m.y_dc < 64
    &&& -64 <= m.u_dc < 64
    &&& -64 <= m.u_ac < 64
    &&& -64 <= m.v_dc < 64
    &&& -64 <= m.v_ac < 64
    &&& differs ==> chroma && separate_uv
    &&& !differs ==> m.v_dc == m.u_dc && m.v_ac == m.u_ac
    &&& !chroma ==> m.u_dc == 0 && m.u_ac == 0
    &&& !m.using_qmatrix ==> m.qm_y == 0 && m.qm_u == 0 && m.qm_v == 0
    &&& m.using_qmatrix && !separate_uv ==> m.qm_v == m.qm_u
}

/// Quantizers that are written read back.
pub proof fn law_written_quant(
    d: Seq<u8>,
    p: int,
    chroma: bool,
    separate_uv: bool,
    differs: bool,
    m: QuantModel,
)
    requires
        quant_follows(chroma, separate_uv, differs, m),
        written_quant(d, p, chroma, separate_uv, differs, m).holds,
        m.end == written_quant(d, p, chroma, separate_uv, differs, m).at,
    ensures
        quant_model(d, p, chroma, separate_uv) == m,
{
    reveal(quant_model);
    let w0 = put(d, pen_at(p), 8, m.base_q_idx);
    lemma_put_delta(d, w0, true, m.y_dc);
    let w1 = put_flag_if(d, put_delta_if(d, w0, true, m.y_dc), chroma && separate_uv, differs);
    lemma_put_delta(d, w1, chroma, m.u_dc);
    let w2 = put_delta_if(d, w1, chroma, m.u_dc);
    lemma_put_delta(d, w2, chroma, m.u_ac);
    let w3 = put_delta_if(d, w2, chroma, m.u_ac);
    lemma_put_delta(d, w3, differs, m.v_dc);
    let w4 = put_delta_if(d, w3, differs, m.v_dc);
    lemma_put_delta(d, w4, differs, m.v_ac);
}

/// A frame is lossless exactly where its index and all deltas of its quantizers are zero and
/// it uses no matrices.
pub proof fn law_lossless(m: QuantModel)
    ensures
        quant_is_lossless(m) <==> m.base_q_idx == 0 && m.y_dc == 0 && m.u_dc == 0 && m.u_ac == 0
            && m.v_dc == 0 && m.v_ac == 0 && !m.using_qmatrix,
{
}

// ---------------------------------------------------------------------------
// Deltas of blocks
// ---------------------------------------------------------------------------

/// The deltas of blocks as they are written.
pub open spec fn written_deltas(
    d: Seq<u8>,
    p: int,
    base_q_idx: int,
    allow_intrabc: bool,
    m: DeltasModel,
) -> Pen {
    let w = put_flag_if(d, pen_at(p), base_q_idx > 0, m.q_present);
    let w = put_if(d, w, m.q_present, 2, m.q_res);
    let w = put_flag_if(d, w, m.q_present && !allow_intrabc, m.lf_present);
    let w = put_if(d, w, m.lf_present, 2, m.lf_res);
    put_flag_if(d, w, m.lf_present, m.lf_multi)
}

/// Deltas of blocks that are written read back.
pub proof fn law_written_deltas(
    d: Seq<u8>,
    p: int,
    base_q_idx: int,
    allow_intrabc: bool,
    m: DeltasModel,
)
    requires
        m.q_present ==> base_q_idx > 0,
        m.lf_present ==> m.q_present && !allow_intrabc,
        !m.q_present ==> m.q_res == 0,
        !m.lf_present ==> m.lf_res == 0 && !m.lf_multi,
        written_deltas(d, p, base_q_idx, allow_intrabc, m).holds,
        m.end == written_deltas(d, p, base_q_idx, allow_intrabc, m).at,
    ensures
        deltas_model(d, p, base_q_idx, allow_intrabc) == m,
{
    reveal(deltas_model);
}

// ---------------------------------------------------------------------------
// Filters
// ---------------------------------------------------------------------------

/// The loop filter as it is written without deltas.
pub open spec fn written_loop(d: Seq<u8>, p: int, chroma: bool, m: LoopModel) -> Pen {
    let w = put(d, pen_at(p), 6, m.level[0]);
    let w = put(d, w, 6, m.level[1]);
    let more = chroma && (m.level[0] != 0 || m.level[1] != 0);
    let w = put_if(d, w, more, 6, m.level[2]);
    let w = put_if(d, w, more, 6, m.level[3]);
    let w = put(d, w, 3, m.sharpness);
    put_flag(d, w, false)
}

/// A loop filter that is written without deltas reads back: the level of vertical edges,
/// that of horizontal edges, those of the two chroma planes, and the sharpness.
pub proof fn law_written_loop(d: Seq<u8>, p: int, chroma: bool, m: LoopModel)
    requires
        m.level.len() == 4,
        !(chroma && (m.level[0] != 0 || m.level[1] != 0)) ==> m.level[2] == 0 && m.level[3] == 0,
        written_loop(d, p, chroma, m).holds,
    ensures
        ({
            let r = loop_model(d, p, false, chroma);
            &&& r.level == m.level
            &&& r.sharpness == m.sharpness
            &&& !r.delta_enabled
            &&& r.end == written_loop(d, p, chroma, m).at
        }),
{
    reveal(loop_model);
    assert(loop_model(d, p, false, chroma).level =~= m.level);
}

/// A loop filter that is off has no levels.
pub proof fn law_loop_off(d: Seq<u8>, p: int, chroma: bool)
    ensures
        loop_model(d, p, true, chroma).level == seq![0int, 0, 0, 0],
        loop_model(d, p, true, chroma).end == p,
{
    reveal(loop_model);
}

/// The damping, the number of strengths and the strengths of the enhancement are read in
/// this order, all of luma before all of chroma; each takes six bits.
pub proof fn law_strengths_in_order(d: Seq<u8>, p: int, chroma: bool, i: int)
    requires
        0 <= i,
        ({
            let n = cdef_model(d, p, false, chroma).y.len() as int;
            i < n
        }),
    ensures
        ({
            let m = cdef_model(d, p, false, chroma);
            let n = m.y.len() as int;
            &&& m.damping == 3 + bits_at(d, p, 2)
            &&& n == pow2i(bits_at(d, p + 2, 2))
            &&& m.y[i] == bits_at(d, p + 4 + 6 * i, 4) + 4 * bits_at(d, p + 4 + 6 * i + 4, 2)
            &&& chroma ==> m.uv.len() == n && m.uv[i] == strength_at(d, p + 4 + 6 * n + 6 * i)
            &&& m.end == p + 4 + 6 * (n + opt(chroma, n))
        }),
{
    reveal(cdef_model);
    lemma_bits_range(d, p + 2, 2);
    crate::bits::lemma_pow2i_mono(0, bits_at(d, p + 2, 2));
}

// ---------------------------------------------------------------------------
// Segments
// ---------------------------------------------------------------------------

/// Segmentation that is off has no map and no features. Without a frame to take them from,
/// segmentation that is on has both.
pub proof fn law_segments(d: Seq<u8>, p: int, primary: int)
    ensures
        ({
            let m = seg_model(d, p, primary);
            &&& m.enabled == flag_at(d, p)
            &&& !m.enabled ==> !m.update_map && !m.update_data && !m.temporal_update && m.end == p
                + 1
            &&& m.enabled && primary == 7 ==> m.update_map && m.update_data && !m.temporal_update
            &&& m.enabled && primary != 7 ==> m.update_map == flag_at(d, p + 1)
            &&& m.enabled && primary != 7 && m.update_map ==> m.temporal_update == flag_at(d, p + 2)
                && m.update_data == flag_at(d, p + 3)
            &&& m.enabled && primary != 7 && !m.update_map ==> m.update_data == flag_at(d, p + 2)
        }),
{
    reveal(seg_model);
}

} // verus!
