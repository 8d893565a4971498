//! Sequence headers as they are written, and what reading them gives back.
use crate::header_laws::{pen_at, put, put_flag, put_flag_if, put_if, Pen};
use crate::obu::{
    color_model, points_model, sequence_model, size_model, tools_model, ColorConfig,
    SequenceHeaderObu, SizeModel, ToolsModel,
};
use vstd::prelude::*;

verus! {

/// The frame size as it is written: the widths of the two numbers, then the numbers, then
/// the widths of frame numbers where frames have them.
pub open spec fn written_size(d: Seq<u8>, w: Pen, reduced: bool, m: SizeModel) -> Pen {
    let w = put(d, w, 4, m.width_bits_minus_1);
    let w = put(d, w, 4, m.height_bits_minus_1);
    let w = put(d, w, m.width_bits_minus_1 + 1, m.width_minus_1);
    let w = put(d, w, m.height_bits_minus_1 + 1, m.height_minus_1);
    let w = put_flag_if(d, w, !reduced, m.has_ids);
    let w = put_if(d, w, m.has_ids, 4, m.delta_minus_2);
    put_if(d, w, m.has_ids, 3, m.additional_minus_1)
}

/// A frame size that is written reads back.
pub proof fn law_written_size(d: Seq<u8>, p: int, reduced: bool, m: SizeModel)
    requires
        reduced ==> !m.has_ids,
        !m.has_ids ==> m.delta_minus_2 == 0 && m.additional_minus_1 == 0,
        written_size(d, pen_at(p), reduced, m).holds,
        m.end == written_size(d, pen_at(p), reduced, m).at,
    ensures
        size_model(d, p, reduced) == m,
{
    reveal(size_model);
}

/// The prediction tools as they are written.
pub open spec fn written_tools(d: Seq<u8>, w: Pen, m: ToolsModel) -> Pen {
    let w = put_flag(d, w, m.interintra);
    let w = put_flag(d, w, m.masked);
    let w = put_flag(d, w, m.warped);
    let w = put_flag(d, w, m.dual);
    let w = put_flag(d, w, m.order_hint);
    let w = put_flag_if(d, w, m.order_hint, m.jnt);
    let w = put_flag_if(d, w, m.order_hint, m.ref_mvs);
    let w = put_flag(d, w, m.screen == 2);
    let w = put_if(d, w, m.screen != 2, 1, m.screen);
    let w = put_flag_if(d, w, m.screen > 0, m.integer_mv == 2);
    let w = put_if(d, w, m.screen > 0 && m.integer_mv != 2, 1, m.integer_mv);
    put_if(d, w, m.order_hint, 3, m.hint_bits_minus_1)
}

/// Prediction tools that are written read back. Without order hints there are no joint
/// weights and no vectors of references; frames choose whole vectors themselves where
/// screen content tools are off.
pub proof fn law_written_tools(d: Seq<u8>, p: int, m: ToolsModel)
    requires
        0 <= m.screen <= 2,
        0 <= m.integer_mv <= 2,
        m.screen == 0 ==> m.integer_mv == 2,
        !m.order_hint ==> !m.jnt && !m.ref_mvs && m.hint_bits_minus_1 == 0,
        written_tools(d, pen_at(p), m).holds,
        m.end == written_tools(d, pen_at(p), m).at,
    ensures
        tools_model(d, p, false) == m,
{
    reveal(tools_model);
}

/// The colors of the main profile as they are written without a description.
pub open spec fn written_color(d: Seq<u8>, w: Pen, c: ColorConfig) -> Pen {
    let w = put_flag(d, w, c.high_bitdepth);
    let w = put_flag(d, w, c.mono_chrome);
    let w = put_flag(d, w, false);
    let w = put_flag(d, w, c.color_range);
    let w = put_if(d, w, !c.mono_chrome, 2, c.chroma_sample_position as int);
    put_flag_if(d, w, !c.mono_chrome, c.separate_uv_delta_q)
}

/// Colors of the main profile that are written read back: eight or ten bits, halved both
/// ways.
pub proof fn law_written_color(d: Seq<u8>, p: int, c: ColorConfig)
    requires
        c.chroma_sample_position < 4,
        c.mono_chrome ==> c.chroma_sample_position == 0 && !c.separate_uv_delta_q,
        written_color(d, pen_at(p), c).holds,
    ensures
        ({
            let (r, end) = color_model(d, p, 0);
            &&& r.high_bitdepth == c.high_bitdepth
            &&& r.bit_depth == if c.high_bitdepth {
                10u8
            } else {
                8
            }
            &&& r.mono_chrome == c.mono_chrome
            &&& r.color_range == c.color_range
            &&& r.chroma_sample_position == c.chroma_sample_position
            &&& r.separate_uv_delta_q == c.separate_uv_delta_q
            &&& r.subsampling_x && r.subsampling_y
            &&& end == written_color(d, pen_at(p), c).at
        }),
{
    reveal(color_model);
}

/// The header of a sequence of one picture as it is written in the main profile.
pub open spec fn written_still(d: Seq<u8>, x: SequenceHeaderObu, level: int, m: SizeModel) -> Pen {
    let w = put(d, pen_at(0), 3, 0);
    let w = put_flag(d, w, x.still_picture);
    let w = put_flag(d, w, true);
    let w = put(d, w, 5, level);
    let w = written_size(d, w, true, m);
    let w = put_flag(d, w, x.use_128x128_superblock);
    let w = put_flag(d, w, x.enable_filter_intra);
    let w = put_flag(d, w, x.enable_intra_edge_filter);
    let w = put_flag(d, w, x.enable_superres);
    let w = put_flag(d, w, x.enable_cdef);
    let w = put_flag(d, w, x.enable_restoration);
    let w = written_color(d, w, x.color_config);
    put_flag(d, w, x.film_grain_params_present)
}

/// A header of a sequence of one picture that is written reads back with its size, its
/// tools and its filters.
pub proof fn law_written_still(
    d: Seq<u8>,
    x: SequenceHeaderObu,
    level: int,
    m: SizeModel,
    h: SequenceHeaderObu,
)
    requires
        x.color_config.chroma_sample_position < 4,
        x.color_config.mono_chrome ==> x.color_config.chroma_sample_position == 0
            && !x.color_config.separate_uv_delta_q,
        !m.has_ids,
        m.delta_minus_2 == 0,
        m.additional_minus_1 == 0,
        written_still(d, x, level, m).holds,
        h.coded_in(d),
    ensures
        h.seq_profile == 0,
        h.still_picture == x.still_picture,
        h.reduced_still_picture_header,
        h.max_frame_width_minus_1 == m.width_minus_1,
        h.max_frame_height_minus_1 == m.height_minus_1,
        h.use_128x128_superblock == x.use_128x128_superblock,
        h.enable_filter_intra == x.enable_filter_intra,
        h.enable_intra_edge_filter == x.enable_intra_edge_filter,
        h.enable_superres == x.enable_superres,
        h.enable_cdef == x.enable_cdef,
        h.enable_restoration == x.enable_restoration,
        h.color_config.high_bitdepth == x.color_config.high_bitdepth,
        h.color_config.mono_chrome == x.color_config.mono_chrome,
        h.color_config.color_range == x.color_config.color_range,
        h.color_config.separate_uv_delta_q == x.color_config.separate_uv_delta_q,
        h.film_grain_params_present == x.film_grain_params_present,
        !h.enable_order_hint,
        h.seq_choose_screen_content_tools,
        h.seq_choose_integer_mv,
{
    let s = SizeModel { end: written_size(d, pen_at(10), true, m).at, ..m };
    law_written_size(d, 10, true, s);
    reveal(points_model);
    let q = sequence_model(d);
    assert(q.points.end == 10);
    assert(q.size == s);
    assert(q.size.width_minus_1 == m.width_minus_1);
    assert(q.size.height_minus_1 == m.height_minus_1);
    assert(h.coded_size(d));
    reveal(tools_model);
    law_written_color(d, s.end + 6, x.color_config);
}

} // verus!
