//! Reconstructing a frame from its tile groups.
use crate::bits::lemma_pow2i_values;
use crate::coeff::{q_bucket, TileCdfs};
use crate::error::KinetixError;
use crate::frame::{FrameHeader, FrameType};
use crate::inter::RefFrames;
use crate::inter_block::{refs_model, refs_wf};
use crate::intra_syntax::TileConfig;
use crate::loop_filter::{
    apply_post_filters, chroma_filtered, fresh_cell, luma_filtered, FrameMeta, MetaModel,
};
use crate::media::{
    append_bytes, build_ref_frames, chroma_area, lemma_areas, luma_area, no_time, store_model,
    store_wf, FrameModel, PixelFormat, Planes, RefFrameStore, Timestamp, VideoFrame,
};
use crate::mode_cdfs::ModeDefaults;
use crate::obu::SequenceHeaderObu;
use crate::planes::{grid_of, lemma_plane_of, plane_of};
use crate::tile_group::{
    decode_tile, group_decoded, tile_samples, tile_span, Tables, TilePlace,
};
use crate::trace::{SymbolTrace, TraceModel};
use crate::tx_block::{blit, blitted, Place};
use vstd::prelude::*;

verus! {

/// The type of a tile group among the units of a frame.
pub const TILE_GROUP_TYPE: u8 = 13;

/// The reference slot of every reference name.
pub open spec fn slots_of(fh: FrameHeader) -> [u8; 9] {
    let r = fh.ref_frame_idx;
    [0, 0, r[0], r[1], r[2], r[3], r[4], r[5], r[6]]
}

/// Decodes a tile group into the planes of a tile, whose rows take `y_stride` and
/// `uv_stride` samples. While the trace is on, every symbol that is read is recorded.
pub fn decode_tile_group(
    data: &[u8],
    width: usize,
    height: usize,
    _bit_depth: u8,
    qindex: u8,
    use_128x128_sb: bool,
    tile_x: usize,
    tile_y: usize,
    tile_cols: usize,
    tile_rows: usize,
    y_plane: &mut Vec<u8>,
    u_plane: &mut Vec<u8>,
    v_plane: &mut Vec<u8>,
    y_stride: usize,
    uv_stride: usize,
    tx_mode_select: bool,
    reduced_tx_set: bool,
    segmentation_enabled: bool,
    seg_feature_skip: bool,
    _seg_feature_alt_q: bool,
    enable_filter_intra: bool,
    enable_intra_edge_filter: bool,
    allow_screen_content_tools: bool,
    frame_is_intra: bool,
    allow_high_precision_mv: bool,
    reference_select: bool,
    interpolation_filter: u8,
    ref_to_slot: [u8; 9],
    ref_slots: RefFrames<'_>,
    meta: &mut FrameMeta,
    tables: &Tables,
    trace: &mut SymbolTrace,
) -> (r: Result<(), KinetixError>)
    requires
        8 * data@.len() <= usize::MAX,
        8 * data@.len() <= i64::MAX,
        1 <= width <= 0x1_0000,
        1 <= height <= 0x1_0000,
        tile_cols <= 0x1_0000,
        tile_rows <= 0x1_0000,
        ({
            let (x0, x1) = tile_span(
                width as int,
                use_128x128_sb,
                tile_x as int,
                tile_cols as int,
            );
            &&& x1 - x0 <= y_stride <= 0x1_0000
            &&& (x1 - x0) / 2 <= uv_stride <= 0x1_0000
        }),
        refs_wf(ref_slots),
        old(meta).wf(),
        tables.wf(),
    ensures
        final(y_plane)@.len() == old(y_plane)@.len(),
        final(u_plane)@.len() == old(u_plane)@.len(),
        final(v_plane)@.len() == old(v_plane)@.len(),
        final(meta).wf(),
        final(meta).w8 == old(meta).w8,
        final(meta).h8 == old(meta).h8,
        ({
            let (x0, x1) = tile_span(
                width as int,
                use_128x128_sb,
                tile_x as int,
                tile_cols as int,
            );
            let (y0, y1) = tile_span(
                height as int,
                use_128x128_sb,
                tile_y as int,
                tile_rows as int,
            );
            let cfg = TileConfig {
                width,
                height,
                uv_w: (width as int / 2) as usize,
                uv_h: (height as int / 2) as usize,
                y_stride,
                uv_stride,
                qindex,
                tx_mode_select,
                reduced_tx_set,
                subsampling_x: true,
                subsampling_y: true,
                tile_px_x0: x0 as usize,
                tile_px_y0: y0 as usize,
                tile_w: (x1 - x0) as usize,
                tile_h: (y1 - y0) as usize,
                monochrome: false,
                segmentation_enabled,
                seg_feature_skip,
                enable_filter_intra,
                enable_intra_edge_filter,
                allow_screen_content_tools,
                frame_is_intra,
                allow_high_precision_mv,
                reference_select,
                interpolation_filter,
                ref_to_slot,
            };
            let s = group_decoded(
                data@,
                cfg,
                TilePlace {
                    use_128: use_128x128_sb,
                    tile_x: tile_x as int,
                    tile_y: tile_y as int,
                    cols: tile_cols as int,
                    rows: tile_rows as int,
                },
                refs_model(ref_slots),
                old(y_plane)@,
                old(u_plane)@,
                old(v_plane)@,
                old(meta)@,
                tables.coeff[q_bucket(qindex as int)],
                tables.modes,
                old(trace)@,
            );
            &&& final(trace)@ == s.0.sym.trace
            &&& final(y_plane)@ == s.0.y
            &&& final(u_plane)@ == s.0.u
            &&& final(v_plane)@ == s.0.v
            &&& final(meta)@ == s.0.meta
            &&& match s.1 {
                Some(e) => r == Err::<(), KinetixError>(e),
                None => r == Ok::<(), KinetixError>(()),
            }
        }),
{
    let x: (usize, usize) = tile_samples(width, use_128x128_sb, tile_x, tile_cols);
    let y: (usize, usize) = tile_samples(height, use_128x128_sb, tile_y, tile_rows);
    let cfg: TileConfig = TileConfig {
        width,
        height,
        uv_w: width / 2,
        uv_h: height / 2,
        y_stride,
        uv_stride,
        qindex,
        tx_mode_select,
        reduced_tx_set,
        subsampling_x: true,
        subsampling_y: true,
        tile_px_x0: x.0,
        tile_px_y0: y.0,
        tile_w: x.1 - x.0,
        tile_h: y.1 - y.0,
        monochrome: false,
        segmentation_enabled,
        seg_feature_skip,
        enable_filter_intra,
        enable_intra_edge_filter,
        allow_screen_content_tools,
        frame_is_intra,
        allow_high_precision_mv,
        reference_select,
        interpolation_filter,
        ref_to_slot,
    };
    decode_tile(
        data,
        cfg,
        use_128x128_sb,
        tile_x,
        tile_y,
        tile_cols,
        tile_rows,
        y_plane,
        u_plane,
        v_plane,
        ref_slots,
        meta,
        tables,
        trace,
    )
}

// ---------------------------------------------------------------------------
// Tiles of a frame
// ---------------------------------------------------------------------------

/// A plane of neutral grey.
pub open spec fn grey(n: int) -> Seq<u8> {
    Seq::new(n as nat, |i: int| 128u8)
}

/// Metadata without records.
pub open spec fn fresh_meta(w: int, h: int) -> MetaModel {
    let w8 = (w + 7) / 8;
    let h8 = (h + 7) / 8;
    MetaModel { w8, h8, cells: Seq::new((w8 * h8) as nat, |i: int| fresh_cell()) }
}

/// A header whose frame can be reconstructed: sizes and tile counts within those that a
/// header can code, and a damping that a filter can use. Every parsed header is one.
pub open spec fn decodable(fh: FrameHeader) -> bool {
    &&& 1 <= fh.width <= 0x1_0000
    &&& 1 <= fh.height <= 0x1_0000
    &&& fh.tile_cols <= 0x1_0000
    &&& fh.tile_rows <= 0x1_0000
    &&& fh.cdef_damping < 31
}

/// A parsed header can be decoded.
pub proof fn lemma_decodable(fh: FrameHeader)
    requires
        fh.wf(),
    ensures
        decodable(fh),
{
    lemma_pow2i_values();
    crate::bits::lemma_pow2i_mono(fh.tile_cols_log2 as int, 6);
    crate::bits::lemma_pow2i_mono(fh.tile_rows_log2 as int, 11);
}

/// The number of tile columns, at least one.
pub open spec fn columns(fh: FrameHeader) -> int {
    if fh.tile_cols < 1 {
        1
    } else {
        fh.tile_cols as int
    }
}

/// The place of tile `i` of a frame, in raster order.
pub open spec fn frame_place(fh: FrameHeader, i: int) -> TilePlace {
    let cols = columns(fh);
    TilePlace {
        use_128: fh.use_128x128_superblock,
        tile_x: i % cols,
        tile_y: i / cols,
        cols,
        rows: fh.tile_rows as int,
    }
}

/// The samples of tile `i` of a frame across.
pub open spec fn across_span(fh: FrameHeader, i: int) -> (int, int) {
    let p = frame_place(fh, i);
    tile_span(fh.width as int, p.use_128, p.tile_x, p.cols)
}

/// The samples of tile `i` of a frame down.
pub open spec fn down_span(fh: FrameHeader, i: int) -> (int, int) {
    let p = frame_place(fh, i);
    tile_span(fh.height as int, p.use_128, p.tile_y, p.rows)
}

/// What holds throughout tile `i` of a frame, whose planes hold just the tile.
pub open spec fn frame_config(fh: FrameHeader, seq: SequenceHeaderObu, i: int) -> TileConfig {
    let (x0, x1) = across_span(fh, i);
    let (y0, y1) = down_span(fh, i);
    TileConfig {
        width: fh.width as usize,
        height: fh.height as usize,
        uv_w: (fh.width as int / 2) as usize,
        uv_h: (fh.height as int / 2) as usize,
        y_stride: (x1 - x0) as usize,
        uv_stride: ((x1 - x0) / 2) as usize,
        qindex: fh.base_q_idx,
        tx_mode_select: fh.tx_mode_select,
        reduced_tx_set: fh.reduced_tx_set,
        subsampling_x: true,
        subsampling_y: true,
        tile_px_x0: x0 as usize,
        tile_px_y0: y0 as usize,
        tile_w: (x1 - x0) as usize,
        tile_h: (y1 - y0) as usize,
        monochrome: false,
        segmentation_enabled: fh.segmentation_enabled,
        seg_feature_skip: false,
        enable_filter_intra: seq.enable_filter_intra,
        enable_intra_edge_filter: seq.enable_intra_edge_filter,
        allow_screen_content_tools: fh.allow_screen_content_tools,
        frame_is_intra: fh.frame_type == FrameType::KeyFrame || fh.frame_type
            == FrameType::IntraOnlyFrame,
        allow_high_precision_mv: fh.allow_high_precision_mv,
        reference_select: fh.reference_select,
        interpolation_filter: fh.interpolation_filter,
        ref_to_slot: slots_of(fh),
    }
}

/// The planes of tile `i` of a frame behind all filters, or its error, and the trace
/// behind its symbols.
#[verifier::opaque]
pub open spec fn tile_planes(
    data: Seq<u8>,
    fh: FrameHeader,
    seq: SequenceHeaderObu,
    refs: Seq<Option<Planes>>,
    coeff: TileCdfs,
    modes: ModeDefaults,
    i: int,
    t: TraceModel,
) -> (Result<Planes, KinetixError>, TraceModel) {
    let (x0, x1) = across_span(fh, i);
    let (y0, y1) = down_span(fh, i);
    let w = x1 - x0;
    let h = y1 - y0;
    let cw = w / 2;
    let ch = h / 2;
    let s = group_decoded(
        data,
        frame_config(fh, seq, i),
        frame_place(fh, i),
        refs,
        grey(w * h),
        grey(cw * ch),
        grey(cw * ch),
        fresh_meta(w, h),
        coeff,
        modes,
        t,
    );
    let r = match s.1 {
        Some(e) => Err(e),
        None => {
            let m = s.0.meta;
            Ok(
                Planes {
                    y: plane_of(luma_filtered(grid_of(s.0.y, w, h), w, h, m, fh), w, h),
                    u: plane_of(
                        chroma_filtered(grid_of(s.0.u, cw, ch), 1, cw, ch, true, true, m, fh),
                        cw,
                        ch,
                    ),
                    v: plane_of(
                        chroma_filtered(grid_of(s.0.v, cw, ch), 2, cw, ch, true, true, m, fh),
                        cw,
                        ch,
                    ),
                    width: w,
                    height: h,
                },
            )
        },
    };
    (r, s.0.sym.trace)
}

/// A frame with the planes of a tile laid at `x`, `y`.
pub open spec fn with_tile(p: Planes, t: Planes, x: int, y: int) -> Planes {
    let cw = p.width / 2;
    let ch = p.height / 2;
    let a = Place {
        stride: p.width,
        w: p.width,
        h: p.height,
        x,
        y,
        bw: t.width,
        bh: t.height,
    };
    let c = Place {
        stride: cw,
        w: cw,
        h: ch,
        x: x / 2,
        y: y / 2,
        bw: t.width / 2,
        bh: t.height / 2,
    };
    Planes {
        y: blitted(p.y, a, t.y),
        u: blitted(p.u, c, t.u),
        v: blitted(p.v, c, t.v),
        ..p
    }
}

/// A grey frame.
pub open spec fn grey_planes(w: int, h: int) -> Planes {
    Planes {
        y: grey(luma_area(w, h)),
        u: grey(chroma_area(w, h)),
        v: grey(chroma_area(w, h)),
        width: w,
        height: h,
    }
}

/// The units of a frame.
pub open spec fn units_model(obus: Seq<(u8, Vec<u8>)>) -> Seq<(u8, Seq<u8>)> {
    Seq::new(obus.len(), |i: int| (obus[i].0, obus[i].1@))
}

/// The frame after the first `n` units and the number of tiles among them, or the first
/// error, and the trace behind their symbols. Units that are no tile groups are passed
/// over.
pub open spec fn frame_after(
    obus: Seq<(u8, Seq<u8>)>,
    fh: FrameHeader,
    seq: SequenceHeaderObu,
    refs: Seq<Option<Planes>>,
    coeff: TileCdfs,
    modes: ModeDefaults,
    t: TraceModel,
    n: int,
) -> (Result<(Planes, int), KinetixError>, TraceModel)
    decreases n,
{
    if n <= 0 {
        (Ok((grey_planes(fh.width as int, fh.height as int), 0)), t)
    } else {
        let before = frame_after(obus, fh, seq, refs, coeff, modes, t, n - 1);
        match before.0 {
            Err(_) => before,
            Ok((p, i)) => if obus[n - 1].0 == TILE_GROUP_TYPE {
                let x = tile_planes(obus[n - 1].1, fh, seq, refs, coeff, modes, i, before.1);
                match x.0 {
                    Err(e) => (Err(e), x.1),
                    Ok(q) => (
                        Ok((with_tile(p, q, across_span(fh, i).0, down_span(fh, i).0), i + 1)),
                        x.1,
                    ),
                }
            } else {
                before
            },
        }
    }
}

/// The picture of a frame.
pub open spec fn picture(p: Planes, key: bool) -> FrameModel {
    FrameModel {
        pts: no_time(),
        dts: no_time(),
        data: p.y + p.u + p.v,
        width: p.width,
        height: p.height,
        is_key_frame: key,
    }
}

fn grey_plane(n: usize) -> (r: Vec<u8>)
    ensures
        r@ == grey(n as int),
{
    let r: Vec<u8> = vec![128u8; n];
    assert(r@ =~= grey(n as int));
    r
}

proof fn lemma_spans(fh: FrameHeader, i: int)
    requires
        decodable(fh),
        0 <= i,
    ensures
        0 <= across_span(fh, i).0 <= across_span(fh, i).1 <= fh.width,
        0 <= down_span(fh, i).0 <= down_span(fh, i).1 <= fh.height,
        0 <= i % columns(fh),
        0 <= i / columns(fh),
{
    let c = columns(fh);
    vstd::arithmetic::div_mod::lemma_mod_bound(i, c);
    vstd::arithmetic::div_mod::lemma_div_pos_is_pos(i, c);
    crate::tile_group::lemma_tile_sbs(
        fh.width as int,
        fh.use_128x128_superblock,
        i % c,
        c,
    );
    crate::tile_group::lemma_tile_sbs(
        fh.height as int,
        fh.use_128x128_superblock,
        i / c,
        fh.tile_rows as int,
    );
}

/// A tile of a frame behind all filters.
pub struct DecodedTile {
    pub x0: usize,
    pub y0: usize,
    pub x1: usize,
    pub y1: usize,
    pub y: Vec<u8>,
    pub u: Vec<u8>,
    pub v: Vec<u8>,
}

impl DecodedTile {
    /// The planes of the tile.
    pub open spec fn planes(&self) -> Planes {
        Planes {
            y: self.y@,
            u: self.u@,
            v: self.v@,
            width: self.x1 - self.x0,
            height: self.y1 - self.y0,
        }
    }

    /// The tile lies in a frame and has planes of its size.
    pub open spec fn wf(&self, w: int, h: int) -> bool {
        &&& self.x0 <= self.x1 <= w
        &&& self.y0 <= self.y1 <= h
        &&& self.planes().wf()
    }
}

/// What holds throughout tile `i` of a frame.
fn tile_config(i: usize, seq: &SequenceHeaderObu, fh: &FrameHeader) -> (r: TileConfig)
    requires
        decodable(*fh),
    ensures
        r == frame_config(*fh, *seq, i as int),
{
    proof {
        lemma_spans(*fh, i as int);
    }
    let cols: usize = if fh.tile_cols < 1 {
        1
    } else {
        fh.tile_cols as usize
    };
    let w128: bool = fh.use_128x128_superblock;
    let xs: (usize, usize) = tile_samples(fh.width as usize, w128, i % cols, cols);
    let ys: (usize, usize) = tile_samples(
        fh.height as usize,
        w128,
        i / cols,
        fh.tile_rows as usize,
    );
    let tw: usize = xs.1 - xs.0;
    let th: usize = ys.1 - ys.0;
    let idx: [u8; 7] = fh.ref_frame_idx;
    let cfg: TileConfig = TileConfig {
        width: fh.width as usize,
        height: fh.height as usize,
        uv_w: fh.width as usize / 2,
        uv_h: fh.height as usize / 2,
        y_stride: tw,
        uv_stride: tw / 2,
        qindex: fh.base_q_idx,
        tx_mode_select: fh.tx_mode_select,
        reduced_tx_set: fh.reduced_tx_set,
        subsampling_x: true,
        subsampling_y: true,
        tile_px_x0: xs.0,
        tile_px_y0: ys.0,
        tile_w: tw,
        tile_h: th,
        monochrome: false,
        segmentation_enabled: fh.segmentation_enabled,
        seg_feature_skip: false,
        enable_filter_intra: seq.enable_filter_intra,
        enable_intra_edge_filter: seq.enable_intra_edge_filter,
        allow_screen_content_tools: fh.allow_screen_content_tools,
        frame_is_intra: fh.frame_type.is_intra(),
        allow_high_precision_mv: fh.allow_high_precision_mv,
        reference_select: fh.reference_select,
        interpolation_filter: fh.interpolation_filter,
        ref_to_slot: [0, 0, idx[0], idx[1], idx[2], idx[3], idx[4], idx[5], idx[6]],
    };
    assert(cfg.ref_to_slot == slots_of(*fh));
    cfg
}

/// Decodes tile `i` of a frame and runs the filters on it. Tiles depend on nothing but
/// their own data and the references. Symbols are recorded while the trace is on.
pub fn decode_frame_tile(
    payload: &Vec<u8>,
    i: usize,
    seq: &SequenceHeaderObu,
    fh: &FrameHeader,
    refs: RefFrames<'_>,
    tables: &Tables,
    trace: &mut SymbolTrace,
) -> (r: Result<DecodedTile, KinetixError>)
    requires
        decodable(*fh),
        refs_wf(refs),
        tables.wf(),
        luma_area(fh.width as int, fh.height as int) <= usize::MAX,
        8 * payload@.len() <= usize::MAX,
        8 * payload@.len() <= i64::MAX,
    ensures
        ({
            let x = tile_planes(
                payload@,
                *fh,
                *seq,
                refs_model(refs),
                tables.coeff[q_bucket(fh.base_q_idx as int)],
                tables.modes,
                i as int,
                old(trace)@,
            );
            &&& final(trace)@ == x.1
            &&& match x.0 {
                Err(e) => r == Err::<DecodedTile, KinetixError>(e),
                Ok(p) => r matches Ok(t) && t.planes() == p && t.x0 == across_span(
                    *fh,
                    i as int,
                ).0 && t.y0 == down_span(*fh, i as int).0,
            }
        }),
        r matches Ok(t) ==> t.wf(fh.width as int, fh.height as int),
{
    proof {
        reveal(tile_planes);
        lemma_spans(*fh, i as int);
    }
    let cols: usize = if fh.tile_cols < 1 {
        1
    } else {
        fh.tile_cols as usize
    };
    let rows: usize = fh.tile_rows as usize;
    let tx: usize = i % cols;
    let ty: usize = i / cols;
    let w128: bool = fh.use_128x128_superblock;
    let xs: (usize, usize) = tile_samples(fh.width as usize, w128, tx, cols);
    let ys: (usize, usize) = tile_samples(fh.height as usize, w128, ty, rows);
    let tw: usize = xs.1 - xs.0;
    let th: usize = ys.1 - ys.0;
    proof {
        lemma_areas(tw as int, th as int);
        assert(tw * th <= fh.width * fh.height) by (nonlinear_arith)
            requires
                0 <= tw <= fh.width,
                0 <= th <= fh.height,
        ;
        assert(tw * th == luma_area(tw as int, th as int));
    }
    let cw: usize = tw / 2;
    let ch: usize = th / 2;
    let mut y: Vec<u8> = grey_plane(tw * th);
    let mut u: Vec<u8> = grey_plane(cw * ch);
    let mut v: Vec<u8> = grey_plane(cw * ch);
    proof {
        let a = (tw + 7) / 8;
        let b = (th + 7) / 8;
        assert(a * b <= 0x400_0000) by (nonlinear_arith)
            requires
                0 <= a <= 0x2000,
                0 <= b <= 0x2000,
        ;
    }
    let mut meta: FrameMeta = FrameMeta::new(tw, th);
    assert(meta@ =~= fresh_meta(tw as int, th as int));
    let cfg: TileConfig = tile_config(i, seq, fh);
    match decode_tile(
        payload.as_slice(),
        cfg,
        w128,
        tx,
        ty,
        cols,
        rows,
        &mut y,
        &mut u,
        &mut v,
        refs,
        &mut meta,
        tables,
        trace,
    ) {
        Ok(()) => {},
        Err(e) => {
            return Err(e);
        },
    }
    let _filtered: Result<(), KinetixError> = apply_post_filters(
        y.as_mut_slice(),
        u.as_mut_slice(),
        v.as_mut_slice(),
        tw,
        th,
        true,
        true,
        &meta,
        fh,
        seq,
    );
    proof {
        lemma_plane_of(y@, tw as int, th as int);
        lemma_plane_of(u@, cw as int, ch as int);
        lemma_plane_of(v@, cw as int, ch as int);
    }
    Ok(DecodedTile { x0: xs.0, y0: ys.0, x1: xs.1, y1: ys.1, y, u, v })
}

/// Lays a tile into the planes of a frame.
pub fn lay_tile(
    y: &mut Vec<u8>,
    u: &mut Vec<u8>,
    v: &mut Vec<u8>,
    width: usize,
    height: usize,
    tile: &DecodedTile,
)
    requires
        width <= 0x1_0000,
        height <= 0x1_0000,
        tile.wf(width as int, height as int),
    ensures
        ({
            let p = with_tile(
                Planes {
                    y: old(y)@,
                    u: old(u)@,
                    v: old(v)@,
                    width: width as int,
                    height: height as int,
                },
                tile.planes(),
                tile.x0 as int,
                tile.y0 as int,
            );
            &&& final(y)@ == p.y
            &&& final(u)@ == p.u
            &&& final(v)@ == p.v
        }),
        final(y)@.len() == old(y)@.len(),
        final(u)@.len() == old(u)@.len(),
        final(v)@.len() == old(v)@.len(),
{
    let tw: usize = tile.x1 - tile.x0;
    let th: usize = tile.y1 - tile.y0;
    blit(y, width, width, height, tile.x0, tile.y0, tw, th, &tile.y);
    let cw: usize = width / 2;
    let ch: usize = height / 2;
    blit(u, cw, cw, ch, tile.x0 / 2, tile.y0 / 2, tw / 2, th / 2, &tile.u);
    blit(v, cw, cw, ch, tile.x0 / 2, tile.y0 / 2, tw / 2, th / 2, &tile.v);
}

/// What reconstructing a frame comes to: its picture, or the first error, and the trace
/// behind its symbols.
pub open spec fn frame_outcome(
    obus: Seq<(u8, Seq<u8>)>,
    fh: FrameHeader,
    seq: SequenceHeaderObu,
    refs: Seq<Option<Planes>>,
    tables: Tables,
    t: TraceModel,
) -> (Result<FrameModel, KinetixError>, TraceModel) {
    let x = frame_after(
        obus,
        fh,
        seq,
        refs,
        tables.coeff[q_bucket(fh.base_q_idx as int)],
        tables.modes,
        t,
        obus.len() as int,
    );
    (
        match x.0 {
            Err(e) => Err(e),
            Ok((p, _)) => Ok(picture(p, true)),
        },
        x.1,
    )
}

proof fn lemma_frame_error(
    obus: Seq<(u8, Seq<u8>)>,
    fh: FrameHeader,
    seq: SequenceHeaderObu,
    refs: Seq<Option<Planes>>,
    coeff: TileCdfs,
    modes: ModeDefaults,
    t: TraceModel,
    m: int,
    n: int,
)
    requires
        m <= n,
        frame_after(obus, fh, seq, refs, coeff, modes, t, m).0 is Err,
    ensures
        frame_after(obus, fh, seq, refs, coeff, modes, t, n) == frame_after(
            obus,
            fh,
            seq,
            refs,
            coeff,
            modes,
            t,
            m,
        ),
    decreases n - m,
{
    if m < n {
        lemma_frame_error(obus, fh, seq, refs, coeff, modes, t, m, n - 1);
    }
}

/// Reconstructs a frame from its units. The tile groups are laid into a grey frame in
/// their order; the first one that fails fails the frame. While the trace is on, every
/// symbol that is read is recorded.
pub fn reconstruct_av1_frame(
    obus: &[(u8, Vec<u8>)],
    seq: &SequenceHeaderObu,
    frame_header: &FrameHeader,
    ref_store: Option<&RefFrameStore>,
    tables: &Tables,
    trace: &mut SymbolTrace,
) -> (r: Result<Option<VideoFrame>, KinetixError>)
    requires
        decodable(*frame_header),
        tables.wf(),
        luma_area(frame_header.width as int, frame_header.height as int) <= usize::MAX,
        match ref_store {
            Some(s) => store_wf(s@),
            None => true,
        },
        forall|i: int|
            0 <= i < obus@.len() ==> 8 * (#[trigger] obus@[i]).1@.len() <= usize::MAX && 8
                * obus@[i].1@.len() <= i64::MAX,
    ensures
        ({
            let x = frame_outcome(
                units_model(obus@),
                *frame_header,
                *seq,
                store_model(ref_store),
                *tables,
                old(trace)@,
            );
            &&& final(trace)@ == x.1
            &&& match x.0 {
                Err(e) => r == Err::<Option<VideoFrame>, KinetixError>(e),
                Ok(m) => r matches Ok(Some(f)) && f@ == m,
            }
        }),
        r matches Ok(Some(f)) ==> f@.wf() && f.width == frame_header.width && f.height
            == frame_header.height,
{
    let refs: RefFrames<'_> = build_ref_frames(ref_store);
    let width: usize = frame_header.width as usize;
    let height: usize = frame_header.height as usize;
    let ghost t0 = trace@;
    let ghost um = units_model(obus@);
    let ghost rm = store_model(ref_store);
    let ghost coeff = tables.coeff[q_bucket(frame_header.base_q_idx as int)];
    proof {
        lemma_areas(width as int, height as int);
    }
    let luma: usize = width * height;
    let chroma: usize = (width / 2) * (height / 2);
    let mut y: Vec<u8> = grey_plane(luma);
    let mut u: Vec<u8> = grey_plane(chroma);
    let mut v: Vec<u8> = grey_plane(chroma);
    let mut tile_index: usize = 0;
    let mut k: usize = 0;
    while k < obus.len()
        invariant
            k <= obus@.len(),
            tile_index <= k,
            decodable(*frame_header),
            luma_area(frame_header.width as int, frame_header.height as int) <= usize::MAX,
            tables.wf(),
            refs_wf(refs),
            refs_model(refs) == rm,
            um == units_model(obus@),
            coeff == tables.coeff[q_bucket(frame_header.base_q_idx as int)],
            rm == store_model(ref_store),
            width == frame_header.width,
            height == frame_header.height,
            width <= 0x1_0000,
            height <= 0x1_0000,
            y@.len() == luma_area(width as int, height as int),
            u@.len() == chroma_area(width as int, height as int),
            v@.len() == chroma_area(width as int, height as int),
            forall|i: int|
                0 <= i < obus@.len() ==> 8 * (#[trigger] obus@[i]).1@.len() <= usize::MAX && 8
                    * obus@[i].1@.len() <= i64::MAX,
            t0 == old(trace)@,
            frame_after(um, *frame_header, *seq, rm, coeff, tables.modes, t0, k as int) == (
                Ok::<(Planes, int), KinetixError>(
                    (
                        Planes {
                            y: y@,
                            u: u@,
                            v: v@,
                            width: width as int,
                            height: height as int,
                        },
                        tile_index as int,
                    ),
                ),
                trace@,
            ),
        decreases obus.len() - k,
    {
        assert(um[k as int] == (obus@[k as int].0, obus@[k as int].1@));
        if obus[k].0 == TILE_GROUP_TYPE {
            match decode_frame_tile(
                &obus[k].1,
                tile_index,
                seq,
                frame_header,
                refs,
                tables,
                trace,
            ) {
                Ok(tile) => {
                    lay_tile(&mut y, &mut u, &mut v, width, height, &tile);
                },
                Err(e) => {
                    proof {
                        lemma_frame_error(
                            um,
                            *frame_header,
                            *seq,
                            rm,
                            coeff,
                            tables.modes,
                            t0,
                            k + 1,
                            obus@.len() as int,
                        );
                    }
                    return Err(e);
                },
            }
            tile_index = tile_index + 1;
        }
        k = k + 1;
    }
    let ghost y1 = y@;
    append_bytes(&mut y, &u);
    append_bytes(&mut y, &v);
    Ok(
        Some(
            VideoFrame {
                pts: Timestamp::none(),
                dts: Timestamp::none(),
                data: y,
                width: frame_header.width,
                height: frame_header.height,
                pixel_format: PixelFormat::Yuv420p,
                is_key_frame: true,
            },
        ),
    )
}

// ---------------------------------------------------------------------------
// Laws
// ---------------------------------------------------------------------------

/// A frame without tile groups is grey.
pub proof fn law_no_tiles(
    obus: Seq<(u8, Seq<u8>)>,
    fh: FrameHeader,
    seq: SequenceHeaderObu,
    refs: Seq<Option<Planes>>,
    tables: Tables,
    t: TraceModel,
)
    requires
        forall|i: int| 0 <= i < obus.len() ==> (#[trigger] obus[i]).0 != TILE_GROUP_TYPE,
    ensures
        frame_outcome(obus, fh, seq, refs, tables, t) == (
            Ok::<FrameModel, KinetixError>(
                picture(grey_planes(fh.width as int, fh.height as int), true),
            ),
            t,
        ),
{
    lemma_no_tiles(
        obus,
        fh,
        seq,
        refs,
        tables.coeff[q_bucket(fh.base_q_idx as int)],
        tables.modes,
        t,
        obus.len() as int,
    );
}

proof fn lemma_no_tiles(
    obus: Seq<(u8, Seq<u8>)>,
    fh: FrameHeader,
    seq: SequenceHeaderObu,
    refs: Seq<Option<Planes>>,
    coeff: TileCdfs,
    modes: ModeDefaults,
    t: TraceModel,
    n: int,
)
    requires
        n <= obus.len(),
        forall|i: int| 0 <= i < obus.len() ==> (#[trigger] obus[i]).0 != TILE_GROUP_TYPE,
    ensures
        frame_after(obus, fh, seq, refs, coeff, modes, t, n) == (
            Ok::<(Planes, int), KinetixError>(
                (grey_planes(fh.width as int, fh.height as int), 0),
            ),
            t,
        ),
    decreases n,
{
    if n > 0 {
        assert(obus[n - 1].0 != TILE_GROUP_TYPE);
        lemma_no_tiles(obus, fh, seq, refs, coeff, modes, t, n - 1);
    }
}

/// A unit at the end that is no tile group changes nothing.
pub proof fn law_other_units(
    obus: Seq<(u8, Seq<u8>)>,
    o: (u8, Seq<u8>),
    fh: FrameHeader,
    seq: SequenceHeaderObu,
    refs: Seq<Option<Planes>>,
    tables: Tables,
    t: TraceModel,
)
    requires
        o.0 != TILE_GROUP_TYPE,
    ensures
        frame_outcome(obus.push(o), fh, seq, refs, tables, t) == frame_outcome(
            obus,
            fh,
            seq,
            refs,
            tables,
            t,
        ),
{
    lemma_prefix(
        obus,
        o,
        fh,
        seq,
        refs,
        tables.coeff[q_bucket(fh.base_q_idx as int)],
        tables.modes,
        t,
        obus.len() as int,
    );
}

proof fn lemma_prefix(
    obus: Seq<(u8, Seq<u8>)>,
    o: (u8, Seq<u8>),
    fh: FrameHeader,
    seq: SequenceHeaderObu,
    refs: Seq<Option<Planes>>,
    coeff: TileCdfs,
    modes: ModeDefaults,
    t: TraceModel,
    n: int,
)
    requires
        n <= obus.len(),
    ensures
        frame_after(obus.push(o), fh, seq, refs, coeff, modes, t, n) == frame_after(
            obus,
            fh,
            seq,
            refs,
            coeff,
            modes,
            t,
            n,
        ),
    decreases n,
{
    if n > 0 {
        lemma_prefix(obus, o, fh, seq, refs, coeff, modes, t, n - 1);
    }
}

/// A frame that fails keeps failing with the same error, whatever units follow.
pub proof fn law_failed_frame(
    obus: Seq<(u8, Seq<u8>)>,
    o: (u8, Seq<u8>),
    fh: FrameHeader,
    seq: SequenceHeaderObu,
    refs: Seq<Option<Planes>>,
    tables: Tables,
    t: TraceModel,
)
    requires
        frame_outcome(obus, fh, seq, refs, tables, t).0 is Err,
    ensures
        frame_outcome(obus.push(o), fh, seq, refs, tables, t) == frame_outcome(
            obus,
            fh,
            seq,
            refs,
            tables,
            t,
        ),
{
    lemma_prefix(
        obus,
        o,
        fh,
        seq,
        refs,
        tables.coeff[q_bucket(fh.base_q_idx as int)],
        tables.modes,
        t,
        obus.len() as int,
    );
}

} // verus!
