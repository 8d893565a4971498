//! The samples of an intra block: its luma transform blocks, then its chroma transform
//! blocks, each predicted from what is there and corrected by its residual.
use crate::blocks::{
    chroma_block, chroma_block_size, chroma_tx, chroma_tx_size, law_chroma_tx, lemma_block_dims,
    BLOCK_HEIGHT, BLOCK_WIDTH,
};
use crate::cfl::{CflModel, CflParams};
use crate::coeff::{c_state, CState, CoeffContexts, CtxModel, TileCdfs, TxBlockCtx};
use crate::coeff_tables::{lemma_tx_dims, TX_HEIGHT, TX_WIDTH};
use crate::entropy::{at_least_0, SymbolDecoder};
use crate::error::KinetixError;
use crate::intra_syntax::{units, InfoModel, IntraInfo, TileConfig};
use crate::loop_filter::{chroma_recorded, luma_recorded, FrameMeta, MetaModel};
use crate::tx_block::{
    reconstruct_tx_block, tx_done, PaletteBlockInfo, PaletteModel, TxJob, TxModel, TxState,
};
use vstd::prelude::*;

verus! {

/// An intra block whose modes are known.
#[verifier::ext_equal]
pub struct IntraJob {
    pub cfg: TileConfig,
    pub row: int,
    pub col: int,
    pub bsize: int,
    pub skip: bool,
    pub info: InfoModel,
}

impl IntraJob {
    /// The place of the block in the tile.
    pub open spec fn x(self) -> int {
        self.col * 4 - self.cfg.tile_px_x0
    }

    pub open spec fn y(self) -> int {
        self.row * 4 - self.cfg.tile_px_y0
    }

    /// The place of the block in the chroma planes of the tile.
    pub open spec fn cx(self) -> int {
        if self.cfg.subsampling_x {
            (self.col / 2) * 4 - self.cfg.tile_px_x0 as int / 2
        } else {
            self.x()
        }
    }

    pub open spec fn cy(self) -> int {
        if self.cfg.subsampling_y {
            (self.row / 2) * 4 - self.cfg.tile_px_y0 as int / 2
        } else {
            self.y()
        }
    }

    /// A block in the tile whose modes the syntax can code.
    pub open spec fn wf(self) -> bool {
        &&& self.cfg.wf()
        &&& self.cfg.holds(self.row, self.col)
        &&& 0 <= self.bsize < 22
        &&& self.info.wf()
    }

    /// The chroma transform size.
    pub open spec fn c_tx(self) -> int {
        chroma_tx(self.bsize, self.cfg.subsampling_x, self.cfg.subsampling_y)
    }

    /// The size of the block in the chroma planes.
    pub open spec fn c_size(self) -> int {
        chroma_block(self.bsize, self.cfg.subsampling_x, self.cfg.subsampling_y)
    }
}

// ---------------------------------------------------------------------------
// Luma
// ---------------------------------------------------------------------------

/// The coefficient context of a transform block at `x`, `y` of a plane.
pub open spec fn tx_ctx_of(
    cfg: TileConfig,
    plane: int,
    tx: int,
    x: int,
    y: int,
    dir: usize,
    uv_mode: usize,
) -> TxBlockCtx {
    TxBlockCtx {
        plane: plane as usize,
        tx_size: tx as usize,
        x4: (x / 4) as usize,
        y4: (y / 4) as usize,
        max_x4: units(
            if plane == 0 {
                cfg.width as int
            } else {
                cfg.uv_w as int
            },
        ) as usize,
        max_y4: units(
            if plane == 0 {
                cfg.height as int
            } else {
                cfg.uv_h as int
            },
        ) as usize,
        block_w: TX_WIDTH[tx],
        block_h: TX_HEIGHT[tx],
        intra_dir: dir,
        uv_mode,
        qindex_positive: !cfg.lossless(),
        reduced_tx_set: cfg.reduced_tx_set,
        lossless: cfg.lossless(),
    }
}

/// A palette at a place of a block, where the block has one.
pub open spec fn palette_at(colors: Seq<i32>, map: Seq<u8>, stride: int, x: int, y: int) -> Option<
    PaletteModel,
> {
    if colors.len() > 0 {
        Some(PaletteModel { colors, map, stride, x, y })
    } else {
        None
    }
}

/// The luma transform block at `tx`, `ty` of a block.
pub open spec fn luma_job(j: IntraJob, tx: int, ty: int) -> TxModel {
    let m = j.info.modes;
    let x = j.x() + tx;
    let y = j.y() + ty;
    TxModel {
        blk: tx_ctx_of(j.cfg, 0, j.info.luma_tx, x, y, m.y_mode, m.uv_mode),
        stride: j.cfg.y_stride as int,
        w: j.cfg.tile_w as int,
        h: j.cfg.tile_h as int,
        x,
        y,
        tx: j.info.luma_tx,
        qindex: j.cfg.qindex as int,
        mode: m.y_mode as int,
        skip: j.skip,
        filter: j.info.filter,
        edge_filter: j.cfg.enable_intra_edge_filter,
        cfl: None,
        angle: m.angle_y as int,
        palette: palette_at(j.info.colors.y, j.info.map_y, j.info.stride_y, tx, ty),
    }
}

/// The state after the luma transform blocks of the row at `ty`, from `tx` on, and the
/// first error.
pub open spec fn luma_row(st: TxState, j: IntraJob, tx: int, ty: int) -> (
    TxState,
    Option<KinetixError>,
)
    decreases at_least_0(BLOCK_WIDTH[j.bsize] - tx),
{
    let w = TX_WIDTH[j.info.luma_tx] as int;
    if tx >= BLOCK_WIDTH[j.bsize] || w <= 0 {
        (st, None)
    } else {
        let (s, e) = tx_done(st, luma_job(j, tx, ty));
        if e is Some {
            (s, e)
        } else {
            luma_row(s, j, tx + w, ty)
        }
    }
}

/// The state after the luma transform blocks from the row at `ty` on, and the first
/// error.
pub open spec fn luma_rows(st: TxState, j: IntraJob, ty: int) -> (TxState, Option<KinetixError>)
    decreases at_least_0(BLOCK_HEIGHT[j.bsize] - ty),
{
    let h = TX_HEIGHT[j.info.luma_tx] as int;
    if ty >= BLOCK_HEIGHT[j.bsize] || h <= 0 {
        (st, None)
    } else {
        let (s, e) = luma_row(st, j, 0, ty);
        if e is Some {
            (s, e)
        } else {
            luma_rows(s, j, ty + h)
        }
    }
}

pub(crate) fn tx_context(
    cfg: &TileConfig,
    plane: usize,
    tx: usize,
    x: usize,
    y: usize,
    dir: usize,
    uv_mode: usize,
) -> (r: TxBlockCtx)
    requires
        cfg.wf(),
        tx < 19,
        x <= 0x1_8000,
        y <= 0x1_8000,
    ensures
        r == tx_ctx_of(*cfg, plane as int, tx as int, x as int, y as int, dir, uv_mode),
        r.wf(),
{
    proof {
        lemma_tx_dims(tx as int);
    }
    let w: usize = if plane == 0 {
        cfg.width
    } else {
        cfg.uv_w
    };
    let h: usize = if plane == 0 {
        cfg.height
    } else {
        cfg.uv_h
    };
    TxBlockCtx {
        plane,
        tx_size: tx,
        x4: x / 4,
        y4: y / 4,
        max_x4: (w + 3) / 4,
        max_y4: (h + 3) / 4,
        block_w: TX_WIDTH[tx],
        block_h: TX_HEIGHT[tx],
        intra_dir: dir,
        uv_mode,
        qindex_positive: cfg.qindex != 0,
        reduced_tx_set: cfg.reduced_tx_set,
        lossless: cfg.qindex == 0,
    }
}

/// Reconstructs the luma transform block at `tx`, `ty` of a block.
fn luma_tx_block(
    dec: &mut SymbolDecoder<'_>,
    cdfs: &mut TileCdfs,
    ctxs: &mut CoeffContexts,
    plane: &mut Vec<u8>,
    cfg: &TileConfig,
    row: usize,
    col: usize,
    skip: bool,
    info: &IntraInfo,
    tx: usize,
    ty: usize,
    Ghost(j): Ghost<IntraJob>,
) -> (r: Result<(), KinetixError>)
    requires
        old(dec)@.wf(),
        old(cdfs).wf(),
        j.wf(),
        j.cfg == *cfg,
        j.row == row,
        j.col == col,
        j.skip == skip,
        j.info == info@,
        tx < 128,
        ty < 128,
    ensures
        final(dec)@.wf(),
        final(cdfs).wf(),
        final(plane)@.len() == old(plane)@.len(),
        ({
            let m = tx_done(
                TxState { c: c_state(*old(dec), *old(cdfs)), ctx: old(ctxs)@, plane: old(plane)@ },
                luma_job(j, tx as int, ty as int),
            );
            &&& m.0 == (TxState {
                c: c_state(*final(dec), *final(cdfs)),
                ctx: final(ctxs)@,
                plane: final(plane)@,
            })
            &&& match m.1 {
                Some(e) => r == Err::<(), _>(e),
                None => r == Ok::<(), KinetixError>(()),
            }
        }),
{
    let x: usize = col * 4 + tx - cfg.tile_px_x0;
    let y: usize = row * 4 + ty - cfg.tile_px_y0;
    let blk: TxBlockCtx = tx_context(
        cfg,
        0,
        info.luma_tx,
        x,
        y,
        info.modes.y_mode,
        info.modes.uv_mode,
    );
    let palette: Option<PaletteBlockInfo<'_>> = if info.colors_y.len() > 0 {
        Some(
            PaletteBlockInfo {
                colors: &info.colors_y,
                color_map: &info.map_y,
                map_stride: info.stride_y,
                off_x: tx,
                off_y: ty,
            },
        )
    } else {
        None
    };
    let job: TxJob<'_> = TxJob {
        blk,
        stride: cfg.y_stride,
        plane_w: cfg.tile_w,
        plane_h: cfg.tile_h,
        px_x: x,
        px_y: y,
        tx_size: info.luma_tx,
        qindex: cfg.qindex,
        mode: info.modes.y_mode,
        skip,
        filter: info.filter,
        edge_filter: cfg.enable_intra_edge_filter,
        cfl: None,
        angle: info.modes.angle_y,
        palette,
    };
    assert(job@ =~= luma_job(j, tx as int, ty as int));
    reconstruct_tx_block(dec, cdfs, ctxs, plane, &job)
}

/// What the reconstruction of luma comes to.
pub open spec fn luma_done(st: TxState, j: IntraJob) -> (TxState, Option<KinetixError>) {
    luma_rows(st, j, 0)
}

/// Reconstructs the luma of a block. The first refused transform block ends it.
pub fn reconstruct_luma(
    dec: &mut SymbolDecoder<'_>,
    cdfs: &mut TileCdfs,
    ctxs: &mut CoeffContexts,
    plane: &mut Vec<u8>,
    cfg: &TileConfig,
    row: usize,
    col: usize,
    bsize: usize,
    skip: bool,
    info: &IntraInfo,
) -> (r: Result<(), KinetixError>)
    requires
        old(dec)@.wf(),
        old(cdfs).wf(),
        cfg.wf(),
        cfg.holds(row as int, col as int),
        bsize < 22,
        info@.wf(),
    ensures
        final(dec)@.wf(),
        final(cdfs).wf(),
        final(plane)@.len() == old(plane)@.len(),
        ({
            let m = luma_done(
                TxState { c: c_state(*old(dec), *old(cdfs)), ctx: old(ctxs)@, plane: old(plane)@ },
                IntraJob {
                    cfg: *cfg,
                    row: row as int,
                    col: col as int,
                    bsize: bsize as int,
                    skip,
                    info: info@,
                },
            );
            &&& m.0 == (TxState {
                c: c_state(*final(dec), *final(cdfs)),
                ctx: final(ctxs)@,
                plane: final(plane)@,
            })
            &&& match m.1 {
                Some(e) => r == Err::<(), _>(e),
                None => r == Ok::<(), KinetixError>(()),
            }
        }),
{
    let ghost j = IntraJob {
        cfg: *cfg,
        row: row as int,
        col: col as int,
        bsize: bsize as int,
        skip,
        info: info@,
    };
    proof {
        lemma_block_dims(bsize as int);
        lemma_tx_dims(info.luma_tx as int);
    }
    let w: usize = BLOCK_WIDTH[bsize];
    let h: usize = BLOCK_HEIGHT[bsize];
    let tw: usize = TX_WIDTH[info.luma_tx];
    let th: usize = TX_HEIGHT[info.luma_tx];
    let ghost st0 = TxState { c: c_state(*dec, *cdfs), ctx: ctxs@, plane: plane@ };
    let ghost len = plane@.len();
    let mut ty: usize = 0;
    while ty < h
        invariant
            dec@.wf(),
            cdfs.wf(),
            plane@.len() == len,
            len == old(plane)@.len(),
            j.wf(),
            j.cfg == *cfg,
            j.row == row,
            j.col == col,
            j.bsize == bsize,
            j.skip == skip,
            j.info == info@,
            w == BLOCK_WIDTH[j.bsize],
            h == BLOCK_HEIGHT[j.bsize],
            tw == TX_WIDTH[j.info.luma_tx],
            th == TX_HEIGHT[j.info.luma_tx],
            4 <= tw <= 64,
            4 <= th <= 64,
            w <= 128,
            h <= 128,
            ty <= 256,
            st0 == (TxState {
                c: c_state(*old(dec), *old(cdfs)),
                ctx: old(ctxs)@,
                plane: old(plane)@,
            }),
            luma_rows(st0, j, 0) == luma_rows(
                TxState { c: c_state(*dec, *cdfs), ctx: ctxs@, plane: plane@ },
                j,
                ty as int,
            ),
        decreases 256 - ty,
    {
        let ghost st1 = TxState { c: c_state(*dec, *cdfs), ctx: ctxs@, plane: plane@ };
        let mut tx: usize = 0;
        while tx < w
            invariant
                dec@.wf(),
                cdfs.wf(),
                plane@.len() == len,
                len == old(plane)@.len(),
                j.wf(),
                j.cfg == *cfg,
                j.row == row,
                j.col == col,
                j.bsize == bsize,
                j.skip == skip,
                j.info == info@,
                w == BLOCK_WIDTH[j.bsize],
                h == BLOCK_HEIGHT[j.bsize],
                tw == TX_WIDTH[j.info.luma_tx],
                th == TX_HEIGHT[j.info.luma_tx],
                4 <= tw <= 64,
                4 <= th <= 64,
                w <= 128,
                h <= 128,
                ty < h,
                tx <= 256,
                st0 == (TxState {
                    c: c_state(*old(dec), *old(cdfs)),
                    ctx: old(ctxs)@,
                    plane: old(plane)@,
                }),
                luma_rows(st0, j, 0) == luma_rows(st1, j, ty as int),
                luma_row(st1, j, 0, ty as int) == luma_row(
                    TxState { c: c_state(*dec, *cdfs), ctx: ctxs@, plane: plane@ },
                    j,
                    tx as int,
                    ty as int,
                ),
            decreases 256 - tx,
        {
            match luma_tx_block(
                dec,
                cdfs,
                ctxs,
                plane,
                cfg,
                row,
                col,
                skip,
                info,
                tx,
                ty,
                Ghost(j),
            ) {
                Ok(()) => {},
                Err(e) => {
                    return Err(e);
                },
            }
            tx = tx + tw;
        }
        ty = ty + th;
    }
    Ok(())
}

// ---------------------------------------------------------------------------
// Chroma
// ---------------------------------------------------------------------------

/// The decoder, the contexts and the chroma planes.
#[verifier::ext_equal]
pub struct ChromaState {
    pub c: CState,
    pub ctx: CtxModel,
    pub u: Seq<u8>,
    pub v: Seq<u8>,
}

/// The luma plane of a block whose chroma is predicted from it.
pub open spec fn cfl_of(j: IntraJob, luma: Seq<u8>, second: bool) -> Option<CflModel> {
    match j.info.modes.cfl {
        Some(a) => Some(
            CflModel {
                luma,
                stride: j.cfg.y_stride as int,
                sub_x: j.cfg.subsampling_x,
                sub_y: j.cfg.subsampling_y,
                max_w: j.x() + BLOCK_WIDTH[j.bsize],
                max_h: j.y() + BLOCK_HEIGHT[j.bsize],
                alpha: if second {
                    a.1 as int
                } else {
                    a.0 as int
                },
            },
        ),
        None => None,
    }
}

/// The chroma transform block at `tx`, `ty` of a block, in U or V.
pub open spec fn chroma_job(j: IntraJob, luma: Seq<u8>, second: bool, tx: int, ty: int) -> TxModel {
    let m = j.info.modes;
    let x = j.cx() + tx;
    let y = j.cy() + ty;
    TxModel {
        blk: tx_ctx_of(
            j.cfg,
            if second {
                2
            } else {
                1
            },
            j.c_tx(),
            x,
            y,
            m.uv_mode,
            m.uv_mode,
        ),
        stride: j.cfg.uv_stride as int,
        w: j.cfg.tile_cw(),
        h: j.cfg.tile_ch(),
        x,
        y,
        tx: j.c_tx(),
        qindex: j.cfg.qindex as int,
        mode: m.uv_mode as int,
        skip: j.skip,
        filter: None,
        edge_filter: j.cfg.enable_intra_edge_filter,
        cfl: cfl_of(j, luma, second),
        angle: m.angle_uv as int,
        palette: palette_at(
            if second {
                j.info.colors.v
            } else {
                j.info.colors.u
            },
            j.info.map_uv,
            j.info.stride_uv,
            tx,
            ty,
        ),
    }
}

/// The state after both chroma transform blocks at `tx`, `ty` of a block, U first, and
/// the first error. Blocks beyond the tile are left out.
#[verifier::opaque]
pub open spec fn chroma_pair(
    st: ChromaState,
    luma: Seq<u8>,
    j: IntraJob,
    tx: int,
    ty: int,
) -> (ChromaState, Option<KinetixError>) {
    if j.cx() + tx >= j.cfg.tile_cw() || j.cy() + ty >= j.cfg.tile_ch() {
        (st, None)
    } else {
        let (su, eu) = tx_done(
            TxState { c: st.c, ctx: st.ctx, plane: st.u },
            chroma_job(j, luma, false, tx, ty),
        );
        if eu is Some {
            (ChromaState { c: su.c, ctx: su.ctx, u: su.plane, v: st.v }, eu)
        } else {
            let (sv, ev) = tx_done(
                TxState { c: su.c, ctx: su.ctx, plane: st.v },
                chroma_job(j, luma, true, tx, ty),
            );
            (ChromaState { c: sv.c, ctx: sv.ctx, u: su.plane, v: sv.plane }, ev)
        }
    }
}

/// The state after the chroma transform blocks of the row at `ty`, from `tx` on, and
/// the first error.
pub open spec fn chroma_row(st: ChromaState, luma: Seq<u8>, j: IntraJob, tx: int, ty: int) -> (
    ChromaState,
    Option<KinetixError>,
)
    decreases at_least_0(BLOCK_WIDTH[j.c_size()] - tx),
{
    let w = TX_WIDTH[j.c_tx()] as int;
    if tx >= BLOCK_WIDTH[j.c_size()] || w <= 0 {
        (st, None)
    } else {
        let (s, e) = chroma_pair(st, luma, j, tx, ty);
        if e is Some {
            (s, e)
        } else {
            chroma_row(s, luma, j, tx + w, ty)
        }
    }
}

/// The state after the chroma transform blocks from the row at `ty` on, and the first
/// error.
pub open spec fn chroma_rows(st: ChromaState, luma: Seq<u8>, j: IntraJob, ty: int) -> (
    ChromaState,
    Option<KinetixError>,
)
    decreases at_least_0(BLOCK_HEIGHT[j.c_size()] - ty),
{
    let h = TX_HEIGHT[j.c_tx()] as int;
    if ty >= BLOCK_HEIGHT[j.c_size()] || h <= 0 {
        (st, None)
    } else {
        let (s, e) = chroma_row(st, luma, j, 0, ty);
        if e is Some {
            (s, e)
        } else {
            chroma_rows(s, luma, j, ty + h)
        }
    }
}

/// What the reconstruction of chroma comes to.
pub open spec fn chroma_done(st: ChromaState, luma: Seq<u8>, j: IntraJob) -> (
    ChromaState,
    Option<KinetixError>,
) {
    chroma_rows(st, luma, j, 0)
}

/// Reconstructs a chroma transform block at `tx`, `ty` of a block, at `x`, `y` of the
/// plane.
fn chroma_tx_block(
    dec: &mut SymbolDecoder<'_>,
    cdfs: &mut TileCdfs,
    ctxs: &mut CoeffContexts,
    luma: &Vec<u8>,
    plane: &mut Vec<u8>,
    cfg: &TileConfig,
    row: usize,
    col: usize,
    bsize: usize,
    skip: bool,
    info: &IntraInfo,
    c_tx: usize,
    second: bool,
    x: usize,
    y: usize,
    tx: usize,
    ty: usize,
    Ghost(j): Ghost<IntraJob>,
) -> (r: Result<(), KinetixError>)
    requires
        old(dec)@.wf(),
        old(cdfs).wf(),
        j.wf(),
        j.cfg == *cfg,
        j.row == row,
        j.col == col,
        j.bsize == bsize,
        j.skip == skip,
        j.info == info@,
        j.c_tx() == c_tx,
        c_tx < 19,
        x == j.cx() + tx,
        y == j.cy() + ty,
        x < cfg.tile_cw(),
        y < cfg.tile_ch(),
        tx < 128,
        ty < 128,
    ensures
        final(dec)@.wf(),
        final(cdfs).wf(),
        final(plane)@.len() == old(plane)@.len(),
        ({
            let m = tx_done(
                TxState { c: c_state(*old(dec), *old(cdfs)), ctx: old(ctxs)@, plane: old(plane)@ },
                chroma_job(j, luma@, second, tx as int, ty as int),
            );
            &&& m.0 == (TxState {
                c: c_state(*final(dec), *final(cdfs)),
                ctx: final(ctxs)@,
                plane: final(plane)@,
            })
            &&& match m.1 {
                Some(e) => r == Err::<(), _>(e),
                None => r == Ok::<(), KinetixError>(()),
            }
        }),
{
    proof {
        lemma_block_dims(bsize as int);
    }
    let plane_index: usize = if second {
        2
    } else {
        1
    };
    let blk: TxBlockCtx = tx_context(
        cfg,
        plane_index,
        c_tx,
        x,
        y,
        info.modes.uv_mode,
        info.modes.uv_mode,
    );
    let colors: &Vec<i32> = if second {
        &info.colors_v
    } else {
        &info.colors_u
    };
    let palette: Option<PaletteBlockInfo<'_>> = if colors.len() > 0 {
        Some(
            PaletteBlockInfo {
                colors,
                color_map: &info.map_uv,
                map_stride: info.stride_uv,
                off_x: tx,
                off_y: ty,
            },
        )
    } else {
        None
    };
    let cfl: Option<CflParams<'_>> = match info.modes.cfl {
        Some(a) => Some(
            CflParams {
                luma: luma.as_slice(),
                luma_stride: cfg.y_stride,
                sub_x: cfg.subsampling_x,
                sub_y: cfg.subsampling_y,
                max_luma_w: col * 4 - cfg.tile_px_x0 + BLOCK_WIDTH[bsize],
                max_luma_h: row * 4 - cfg.tile_px_y0 + BLOCK_HEIGHT[bsize],
                alpha: if second {
                    a.1
                } else {
                    a.0
                },
            },
        ),
        None => None,
    };
    let job: TxJob<'_> = TxJob {
        blk,
        stride: cfg.uv_stride,
        plane_w: cfg.chroma_width(),
        plane_h: cfg.chroma_height(),
        px_x: x,
        px_y: y,
        tx_size: c_tx,
        qindex: cfg.qindex,
        mode: info.modes.uv_mode,
        skip,
        filter: None,
        edge_filter: cfg.enable_intra_edge_filter,
        cfl,
        angle: info.modes.angle_uv,
        palette,
    };
    assert(job@ =~= chroma_job(j, luma@, second, tx as int, ty as int));
    reconstruct_tx_block(dec, cdfs, ctxs, plane, &job)
}

/// Reconstructs both chroma transform blocks at `tx`, `ty` of a block.
fn chroma_tx_blocks(
    dec: &mut SymbolDecoder<'_>,
    cdfs: &mut TileCdfs,
    ctxs: &mut CoeffContexts,
    luma: &Vec<u8>,
    u: &mut Vec<u8>,
    v: &mut Vec<u8>,
    cfg: &TileConfig,
    row: usize,
    col: usize,
    bsize: usize,
    skip: bool,
    info: &IntraInfo,
    c_tx: usize,
    tx: usize,
    ty: usize,
    Ghost(j): Ghost<IntraJob>,
) -> (r: Result<(), KinetixError>)
    requires
        old(dec)@.wf(),
        old(cdfs).wf(),
        j.wf(),
        j.cfg == *cfg,
        j.row == row,
        j.col == col,
        j.bsize == bsize,
        j.skip == skip,
        j.info == info@,
        j.c_tx() == c_tx,
        c_tx < 19,
        tx < 128,
        ty < 128,
    ensures
        final(dec)@.wf(),
        final(cdfs).wf(),
        final(u)@.len() == old(u)@.len(),
        final(v)@.len() == old(v)@.len(),
        ({
            let m = chroma_pair(
                ChromaState {
                    c: c_state(*old(dec), *old(cdfs)),
                    ctx: old(ctxs)@,
                    u: old(u)@,
                    v: old(v)@,
                },
                luma@,
                j,
                tx as int,
                ty as int,
            );
            &&& m.0 == (ChromaState {
                c: c_state(*final(dec), *final(cdfs)),
                ctx: final(ctxs)@,
                u: final(u)@,
                v: final(v)@,
            })
            &&& match m.1 {
                Some(e) => r == Err::<(), _>(e),
                None => r == Ok::<(), KinetixError>(()),
            }
        }),
{
    proof {
        reveal(chroma_pair);
    }
    let bx: usize = if cfg.subsampling_x {
        (col / 2) * 4 - cfg.tile_px_x0 / 2
    } else {
        col * 4 - cfg.tile_px_x0
    };
    let by: usize = if cfg.subsampling_y {
        (row / 2) * 4 - cfg.tile_px_y0 / 2
    } else {
        row * 4 - cfg.tile_px_y0
    };
    let x: usize = bx + tx;
    let y: usize = by + ty;
    if x >= cfg.chroma_width() || y >= cfg.chroma_height() {
        return Ok(());
    }
    match chroma_tx_block(
        dec,
        cdfs,
        ctxs,
        luma,
        u,
        cfg,
        row,
        col,
        bsize,
        skip,
        info,
        c_tx,
        false,
        x,
        y,
        tx,
        ty,
        Ghost(j),
    ) {
        Ok(()) => {},
        Err(e) => {
            return Err(e);
        },
    }
    chroma_tx_block(
        dec,
        cdfs,
        ctxs,
        luma,
        v,
        cfg,
        row,
        col,
        bsize,
        skip,
        info,
        c_tx,
        true,
        x,
        y,
        tx,
        ty,
        Ghost(j),
    )
}

/// Reconstructs the chroma of a block. The first refused transform block ends it.
pub fn reconstruct_chroma(
    dec: &mut SymbolDecoder<'_>,
    cdfs: &mut TileCdfs,
    ctxs: &mut CoeffContexts,
    luma: &Vec<u8>,
    u: &mut Vec<u8>,
    v: &mut Vec<u8>,
    cfg: &TileConfig,
    row: usize,
    col: usize,
    bsize: usize,
    skip: bool,
    info: &IntraInfo,
) -> (r: Result<(), KinetixError>)
    requires
        old(dec)@.wf(),
        old(cdfs).wf(),
        cfg.wf(),
        cfg.holds(row as int, col as int),
        bsize < 22,
        info@.wf(),
    ensures
        final(dec)@.wf(),
        final(cdfs).wf(),
        final(u)@.len() == old(u)@.len(),
        final(v)@.len() == old(v)@.len(),
        ({
            let m = chroma_done(
                ChromaState {
                    c: c_state(*old(dec), *old(cdfs)),
                    ctx: old(ctxs)@,
                    u: old(u)@,
                    v: old(v)@,
                },
                luma@,
                IntraJob {
                    cfg: *cfg,
                    row: row as int,
                    col: col as int,
                    bsize: bsize as int,
                    skip,
                    info: info@,
                },
            );
            &&& m.0 == (ChromaState {
                c: c_state(*final(dec), *final(cdfs)),
                ctx: final(ctxs)@,
                u: final(u)@,
                v: final(v)@,
            })
            &&& match m.1 {
                Some(e) => r == Err::<(), _>(e),
                None => r == Ok::<(), KinetixError>(()),
            }
        }),
{
    let ghost j = IntraJob {
        cfg: *cfg,
        row: row as int,
        col: col as int,
        bsize: bsize as int,
        skip,
        info: info@,
    };
    let c_tx: usize = chroma_tx_size(bsize, cfg.subsampling_x, cfg.subsampling_y);
    let size: usize = chroma_block_size(bsize, cfg.subsampling_x, cfg.subsampling_y);
    proof {
        law_chroma_tx(bsize as int, cfg.subsampling_x, cfg.subsampling_y);
        lemma_block_dims(size as int);
        lemma_tx_dims(c_tx as int);
    }
    let w: usize = BLOCK_WIDTH[size];
    let h: usize = BLOCK_HEIGHT[size];
    let tw: usize = TX_WIDTH[c_tx];
    let th: usize = TX_HEIGHT[c_tx];
    let ghost st0 = ChromaState { c: c_state(*dec, *cdfs), ctx: ctxs@, u: u@, v: v@ };
    let mut ty: usize = 0;
    while ty < h
        invariant
            dec@.wf(),
            cdfs.wf(),
            u@.len() == old(u)@.len(),
            v@.len() == old(v)@.len(),
            j.wf(),
            j.cfg == *cfg,
            j.row == row,
            j.col == col,
            j.bsize == bsize,
            j.skip == skip,
            j.info == info@,
            j.c_tx() == c_tx,
            c_tx < 19,
            w == BLOCK_WIDTH[j.c_size()],
            h == BLOCK_HEIGHT[j.c_size()],
            tw == TX_WIDTH[j.c_tx()],
            th == TX_HEIGHT[j.c_tx()],
            4 <= tw <= 64,
            4 <= th <= 64,
            w <= 128,
            h <= 128,
            ty <= 256,
            st0 == (ChromaState {
                c: c_state(*old(dec), *old(cdfs)),
                ctx: old(ctxs)@,
                u: old(u)@,
                v: old(v)@,
            }),
            chroma_rows(st0, luma@, j, 0) == chroma_rows(
                ChromaState { c: c_state(*dec, *cdfs), ctx: ctxs@, u: u@, v: v@ },
                luma@,
                j,
                ty as int,
            ),
        decreases 256 - ty,
    {
        let ghost st1 = ChromaState { c: c_state(*dec, *cdfs), ctx: ctxs@, u: u@, v: v@ };
        let mut tx: usize = 0;
        while tx < w
            invariant
                dec@.wf(),
                cdfs.wf(),
                u@.len() == old(u)@.len(),
                v@.len() == old(v)@.len(),
                j.wf(),
                j.cfg == *cfg,
                j.row == row,
                j.col == col,
                j.bsize == bsize,
                j.skip == skip,
                j.info == info@,
                j.c_tx() == c_tx,
                c_tx < 19,
                w == BLOCK_WIDTH[j.c_size()],
                h == BLOCK_HEIGHT[j.c_size()],
                tw == TX_WIDTH[j.c_tx()],
                th == TX_HEIGHT[j.c_tx()],
                4 <= tw <= 64,
                4 <= th <= 64,
                w <= 128,
                h <= 128,
                ty < h,
                tx <= 256,
                st0 == (ChromaState {
                    c: c_state(*old(dec), *old(cdfs)),
                    ctx: old(ctxs)@,
                    u: old(u)@,
                    v: old(v)@,
                }),
                chroma_rows(st0, luma@, j, 0) == chroma_rows(st1, luma@, j, ty as int),
                chroma_row(st1, luma@, j, 0, ty as int) == chroma_row(
                    ChromaState { c: c_state(*dec, *cdfs), ctx: ctxs@, u: u@, v: v@ },
                    luma@,
                    j,
                    tx as int,
                    ty as int,
                ),
            decreases 256 - tx,
        {
            match chroma_tx_blocks(
                dec,
                cdfs,
                ctxs,
                luma,
                u,
                v,
                cfg,
                row,
                col,
                bsize,
                skip,
                info,
                c_tx,
                tx,
                ty,
                Ghost(j),
            ) {
                Ok(()) => {},
                Err(e) => {
                    return Err(e);
                },
            }
            tx = tx + tw;
        }
        ty = ty + th;
    }
    Ok(())
}

// ---------------------------------------------------------------------------
// What the filters will know
// ---------------------------------------------------------------------------

/// A transform that is recorded for the filters.
pub struct Record {
    pub chroma: bool,
    pub w: u8,
    pub h: u8,
    pub skip: bool,
}

/// The metadata with a transform recorded at a block of eight by eight samples.
pub open spec fn recorded_at(m: MetaModel, r: Record, bx: int, by: int) -> MetaModel {
    if r.chroma {
        chroma_recorded(m, bx, by, r.w, r.h, r.skip)
    } else {
        luma_recorded(m, bx, by, r.w, r.h, r.skip)
    }
}

/// The metadata with a transform recorded from block `bx` of row `by` on, up to `x1`.
pub open spec fn recorded_row(m: MetaModel, r: Record, bx: int, x1: int, by: int) -> MetaModel
    decreases x1 - bx,
{
    if bx >= x1 {
        m
    } else {
        recorded_row(recorded_at(m, r, bx, by), r, bx + 1, x1, by)
    }
}

/// The metadata with a transform recorded in all blocks from `x0`, `by` on, up to `x1`,
/// `y1`.
pub open spec fn recorded_rows(m: MetaModel, r: Record, x0: int, x1: int, by: int, y1: int) -> MetaModel
    decreases y1 - by,
{
    if by >= y1 {
        m
    } else {
        recorded_rows(recorded_row(m, r, x0, x1, by), r, x0, x1, by + 1, y1)
    }
}

/// The metadata with a transform of a block recorded.
#[verifier::opaque]
pub open spec fn recorded(m: MetaModel, j: IntraJob, chroma: bool) -> MetaModel {
    let tx = if chroma {
        j.c_tx()
    } else {
        j.info.luma_tx
    };
    recorded_rows(
        m,
        Record { chroma, w: TX_WIDTH[tx] as u8, h: TX_HEIGHT[tx] as u8, skip: j.skip },
        j.x() / 8,
        (j.x() + BLOCK_WIDTH[j.bsize] + 7) / 8,
        j.y() / 8,
        (j.y() + BLOCK_HEIGHT[j.bsize] + 7) / 8,
    )
}

/// Records a transform of `tx` of a block for the filters.
pub(crate) fn record_transform(
    meta: &mut FrameMeta,
    cfg: &TileConfig,
    row: usize,
    col: usize,
    bsize: usize,
    skip: bool,
    tx: usize,
    chroma: bool,
    Ghost(j): Ghost<IntraJob>,
)
    requires
        old(meta).wf(),
        j.wf(),
        j.cfg == *cfg,
        j.row == row,
        j.col == col,
        j.bsize == bsize,
        j.skip == skip,
        tx < 19,
        tx == if chroma {
            j.c_tx()
        } else {
            j.info.luma_tx
        },
    ensures
        final(meta).wf(),
        final(meta)@ == recorded(old(meta)@, j, chroma),
        final(meta).w8 == old(meta).w8,
        final(meta).h8 == old(meta).h8,
{
    proof {
        reveal(recorded);
        lemma_block_dims(bsize as int);
        lemma_tx_dims(tx as int);
    }
    let x: usize = col * 4 - cfg.tile_px_x0;
    let y: usize = row * 4 - cfg.tile_px_y0;
    let x0: usize = x / 8;
    let y0: usize = y / 8;
    let x1: usize = (x + BLOCK_WIDTH[bsize] + 7) / 8;
    let y1: usize = (y + BLOCK_HEIGHT[bsize] + 7) / 8;
    let w: u8 = TX_WIDTH[tx] as u8;
    let h: u8 = TX_HEIGHT[tx] as u8;
    let ghost r = Record { chroma, w, h, skip };
    let ghost m0 = meta@;
    let mut by: usize = y0;
    while by < y1
        invariant
            meta.wf(),
            meta.w8 == old(meta).w8,
            meta.h8 == old(meta).h8,
            by <= y1 || by == y0,
            y1 <= 0x1_0000,
            x1 <= 0x1_0000,
            r == (Record { chroma, w, h, skip }),
            recorded_rows(m0, r, x0 as int, x1 as int, y0 as int, y1 as int) == recorded_rows(
                meta@,
                r,
                x0 as int,
                x1 as int,
                by as int,
                y1 as int,
            ),
        decreases y1 - by,
    {
        let ghost m1 = meta@;
        let mut bx: usize = x0;
        while bx < x1
            invariant
                meta.wf(),
                meta.w8 == old(meta).w8,
                meta.h8 == old(meta).h8,
                bx <= x1 || bx == x0,
                x1 <= 0x1_0000,
                r == (Record { chroma, w, h, skip }),
                recorded_row(m1, r, x0 as int, x1 as int, by as int) == recorded_row(
                    meta@,
                    r,
                    bx as int,
                    x1 as int,
                    by as int,
                ),
            decreases x1 - bx,
        {
            if chroma {
                meta.record_chroma(bx, by, w, h, skip);
            } else {
                meta.record_luma(bx, by, w, h, skip);
            }
            bx = bx + 1;
        }
        by = by + 1;
    }
}

} // verus!
