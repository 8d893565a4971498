//! What a tile decodes to: the partition tree of its superblocks and the blocks at its
//! leaves, as steps from one state of the tile to the next.
use crate::blocks::{
    parts_of, SubBlock, BLOCK_128X128, BLOCK_16X16, BLOCK_32X32, BLOCK_64X64, BLOCK_8X8,
    BLOCK_HEIGHT, BLOCK_WIDTH, MI_HEIGHT_LOG2, MI_WIDTH_LOG2, PARTITION_CDF_LOOKUP,
    PARTITION_HORZ, PARTITION_SPLIT, PARTITION_VERT,
};
use crate::coeff::{left_cleared, CState, CoeffKey, CtxModel};
use crate::coeff_tables::{TX_HEIGHT, TX_WIDTH};
use crate::entropy::{min_of, sym_next, sym_value, Coder, SymState};
use crate::error::KinetixError;
use crate::inter::{chroma_component, Mv, INTERP_BILINEAR, INTERP_SWITCHABLE};
use crate::inter_block::{
    inter_chroma_rows, inter_luma_rows, motion_of, plane_predicted, InterJob, Motion,
};
use crate::inter_cdfs::InterKey;
use crate::intra_block::{chroma_done, luma_done, recorded, ChromaState, IntraJob};
use crate::intra_syntax::{block_chroma, info_of, luma_tx_of, TileConfig};
use crate::loop_filter::MetaModel;
use crate::media::Planes;
use crate::mode_cdfs::ModeKey;
use crate::mode_syntax::{partition_key, split_mass_horz, split_mass_vert, two_way};
use crate::sides::{Mark, SidesModel};
use crate::trace::TraceModel;
use crate::tx_block::TxState;
use vstd::prelude::*;

verus! {

/// What decoding a tile advances.
#[verifier::ext_equal]
pub struct Tile {
    pub sym: SymState,
    pub coef: Map<CoeffKey, Seq<u16>>,
    pub mode: Map<ModeKey, Seq<u16>>,
    pub inter: Map<InterKey, Seq<u16>>,
    pub ctx: CtxModel,
    pub sides: SidesModel,
    pub y: Seq<u8>,
    pub u: Seq<u8>,
    pub v: Seq<u8>,
    pub meta: MetaModel,
}

impl Tile {
    /// The decoder with the tables of the block syntax.
    pub open spec fn modes(self) -> Coder<ModeKey> {
        Coder { sym: self.sym, bank: self.mode }
    }

    pub open spec fn with_modes(self, c: Coder<ModeKey>) -> Tile {
        Tile { sym: c.sym, mode: c.bank, ..self }
    }

    /// The decoder with the inter tables.
    pub open spec fn inters(self) -> Coder<InterKey> {
        Coder { sym: self.sym, bank: self.inter }
    }

    pub open spec fn with_inters(self, c: Coder<InterKey>) -> Tile {
        Tile { sym: c.sym, inter: c.bank, ..self }
    }

    /// The decoder with the coefficient tables, the contexts and the luma plane.
    pub open spec fn luma(self) -> TxState {
        TxState { c: CState { sym: self.sym, bank: self.coef }, ctx: self.ctx, plane: self.y }
    }

    pub open spec fn with_luma(self, s: TxState) -> Tile {
        Tile { sym: s.c.sym, coef: s.c.bank, ctx: s.ctx, y: s.plane, ..self }
    }

    /// The decoder with the coefficient tables, the contexts and the chroma planes.
    pub open spec fn chroma(self) -> ChromaState {
        ChromaState {
            c: CState { sym: self.sym, bank: self.coef },
            ctx: self.ctx,
            u: self.u,
            v: self.v,
        }
    }

    pub open spec fn with_chroma(self, s: ChromaState) -> Tile {
        Tile { sym: s.c.sym, coef: s.c.bank, ctx: s.ctx, u: s.u, v: s.v, ..self }
    }

    pub open spec fn with_sides(self, s: SidesModel) -> Tile {
        Tile { sides: s, ..self }
    }

    pub open spec fn with_trace(self, t: TraceModel) -> Tile {
        Tile { sym: SymState { trace: t, ..self.sym }, ..self }
    }

    pub open spec fn with_meta(self, m: MetaModel) -> Tile {
        Tile { meta: m, ..self }
    }
}

/// What a step of decoding comes to: the tile behind it, and the error that ended it.
pub type Step = (Tile, Option<KinetixError>);

/// The tile and the result are those of a step.
pub open spec fn ends(s: (Tile, Option<KinetixError>), t: Tile, r: Result<(), KinetixError>) -> bool {
    &&& s.0 == t
    &&& match s.1 {
        Some(e) => r == Err::<(), KinetixError>(e),
        None => r == Ok::<(), KinetixError>(()),
    }
}

// ---------------------------------------------------------------------------
// Intra blocks
// ---------------------------------------------------------------------------

/// One for a block without residual.
pub open spec fn flag(b: bool) -> u8 {
    if b {
        1
    } else {
        0
    }
}

/// The width and height of a block in units of four samples.
pub open spec fn units_across(bsize: int) -> int {
    BLOCK_WIDTH[bsize] as int / 4
}

pub open spec fn units_down(bsize: int) -> int {
    BLOCK_HEIGHT[bsize] as int / 4
}

/// The sides after an intra block has left its modes and palettes.
#[verifier::opaque]
pub open spec fn left_by_intra(s: SidesModel, j: IntraJob) -> SidesModel {
    let m = j.info.modes;
    let bw = units_across(j.bsize);
    let bh = units_down(j.bsize);
    let skip = flag(j.skip);
    s.with_marks(
        j.row,
        j.col,
        bw,
        bh,
        Mark::Intra(m.y_mode as u8, m.uv_mode as u8, TX_WIDTH[j.info.luma_tx] as u8, skip),
        Mark::Intra(m.y_mode as u8, m.uv_mode as u8, TX_HEIGHT[j.info.luma_tx] as u8, skip),
    ).with_palettes(j.row, j.col, bw, bh, j.info.colors.y, j.info.colors.u)
}

/// The chroma of an intra block, where it carries any.
#[verifier::opaque]
pub open spec fn intra_chroma(t: Tile, j: IntraJob, chroma: bool) -> Step {
    if chroma {
        let (c, e) = chroma_done(t.chroma(), t.y, j);
        let t1 = t.with_chroma(c);
        if e is Some {
            (t1, e)
        } else {
            (t1.with_meta(recorded(t1.meta, j, true)), None)
        }
    } else {
        (t, None)
    }
}

/// The samples of an intra block: luma, then chroma, then what it leaves behind.
#[verifier::opaque]
pub open spec fn intra_samples(t: Tile, j: IntraJob, chroma: bool) -> Step {
    let (l, e1) = luma_done(t.luma(), j);
    let t1 = t.with_luma(l);
    if e1 is Some {
        (t1, e1)
    } else {
        let (t2, e2) = intra_chroma(t1.with_meta(recorded(t1.meta, j, false)), j, chroma);
        if e2 is Some {
            (t2, e2)
        } else {
            (t2.with_sides(left_by_intra(t2.sides, j)), None)
        }
    }
}

/// Whether a block has no residual, and the decoder behind it.
pub open spec fn skip_of(
    c: Coder<ModeKey>,
    s: SidesModel,
    forced: bool,
    row: int,
    col: int,
) -> (bool, Coder<ModeKey>) {
    if forced {
        (true, c)
    } else {
        let k = ModeKey::Skip(min_of(s.above[col].skip + s.left[row].skip, 2));
        (c.val(k) == 1, c.next(k))
    }
}

/// An intra block: what is coded of it, then its samples.
#[verifier::opaque]
pub open spec fn intra_from(
    t: Tile,
    cfg: TileConfig,
    row: int,
    col: int,
    bsize: int,
    skip: bool,
) -> Step {
    let (info, c) = info_of(t.modes(), t.sides, cfg, row, col, bsize);
    intra_samples(
        t.with_modes(c),
        IntraJob { cfg, row, col, bsize, skip, info },
        block_chroma(cfg, row, col, bsize),
    )
}

/// A block of an intra frame: the segment, the skip flag, then the intra block.
#[verifier::opaque]
pub open spec fn intra_block(t: Tile, cfg: TileConfig, row: int, col: int, bsize: int) -> Step {
    let c0 = t.modes();
    let c1 = if cfg.segmentation_enabled {
        c0.next(ModeKey::SegmentId(0))
    } else {
        c0
    };
    let (skip, c2) = skip_of(c1, t.sides, cfg.seg_feature_skip, row, col);
    intra_from(t.with_modes(c2), cfg, row, col, bsize, skip)
}

// ---------------------------------------------------------------------------
// Inter blocks
// ---------------------------------------------------------------------------

/// The larger of a size and four samples.
pub open spec fn at_least_4(n: int) -> int {
    if n < 4 {
        4
    } else {
        n
    }
}

/// The vectors of a block in the chroma planes.
pub open spec fn chroma_motion(m: Motion) -> Motion {
    Motion {
        ref0: m.ref0,
        ref1: m.ref1,
        mv0: Mv {
            row: chroma_component(m.mv0.row as int) as i32,
            col: chroma_component(m.mv0.col as int) as i32,
        },
        mv1: Mv {
            row: chroma_component(m.mv1.row as int) as i32,
            col: chroma_component(m.mv1.col as int) as i32,
        },
    }
}

/// The planes with the prediction of an inter block.
#[verifier::opaque]
pub open spec fn predicted(
    t: Tile,
    refs: Seq<Option<Planes>>,
    cfg: TileConfig,
    row: int,
    col: int,
    bsize: int,
    m: Motion,
    filter: u8,
) -> Tile {
    let x = col * 4 - cfg.tile_px_x0;
    let y = row * 4 - cfg.tile_px_y0;
    let w = BLOCK_WIDTH[bsize] as int;
    let h = BLOCK_HEIGHT[bsize] as int;
    let cm = chroma_motion(m);
    let cw = at_least_4(w / 2);
    let ch = at_least_4(h / 2);
    Tile {
        y: plane_predicted(t.y, refs, cfg, 0, x, y, w, h, m, filter),
        u: plane_predicted(t.u, refs, cfg, 1, x / 2, y / 2, cw, ch, cm, filter),
        v: plane_predicted(t.v, refs, cfg, 2, x / 2, y / 2, cw, ch, cm, filter),
        ..t
    }
}

/// The residual of an inter block. Blocks without one, or with a transform beyond 16 by
/// 16 samples, keep their prediction.
#[verifier::opaque]
pub open spec fn inter_residual(t: Tile, j: InterJob, skip: bool) -> Step {
    if skip || j.tx > 2 {
        (t, None)
    } else {
        let (l, e1) = inter_luma_rows(t.luma(), j, 0);
        let t1 = t.with_luma(l);
        if e1 is Some {
            (t1, e1)
        } else {
            let (c, e2) = inter_chroma_rows(t1.chroma(), j, 0);
            (t1.with_chroma(c), e2)
        }
    }
}

/// The sides after an inter block has left its references and vectors.
#[verifier::opaque]
pub open spec fn left_by_inter(
    s: SidesModel,
    row: int,
    col: int,
    bsize: int,
    skip: bool,
    tx: int,
    m: Motion,
) -> SidesModel {
    s.with_marks(
        row,
        col,
        units_across(bsize),
        units_down(bsize),
        Mark::Inter(TX_WIDTH[tx] as u8, flag(skip), m.ref0, m.ref1, m.mv0, m.mv1),
        Mark::Inter(TX_HEIGHT[tx] as u8, flag(skip), m.ref0, m.ref1, m.mv0, m.mv1),
    )
}

/// The interpolation filter of a block, coded where every block has its own.
pub open spec fn filter_of(c: Coder<ModeKey>, frame_filter: u8) -> (u8, Coder<ModeKey>) {
    if frame_filter == INTERP_SWITCHABLE {
        (c.val(ModeKey::InterpFilter(0)) as u8, c.next(ModeKey::InterpFilter(0)))
    } else {
        (frame_filter, c)
    }
}

/// An inter block: its references and vectors, its filter, its prediction, its transform
/// size, its residual, then what it leaves behind.
#[verifier::opaque]
pub open spec fn inter_from(
    t: Tile,
    refs: Seq<Option<Planes>>,
    cfg: TileConfig,
    row: int,
    col: int,
    bsize: int,
    skip: bool,
) -> Step {
    let hp = cfg.allow_high_precision_mv && cfg.interpolation_filter != INTERP_BILINEAR;
    let (m, ci) = motion_of(t.inters(), t.sides, row, col, cfg.reference_select, hp);
    let t1 = t.with_inters(ci);
    let (filter, cm) = filter_of(t1.modes(), cfg.interpolation_filter);
    let t2 = predicted(t1.with_modes(cm), refs, cfg, row, col, bsize, m, filter);
    let (tx, ct) = luma_tx_of(
        t2.modes(),
        t2.sides,
        row,
        col,
        bsize,
        !skip && cfg.tx_mode_select && !cfg.lossless(),
    );
    let (t3, e) = inter_residual(
        t2.with_modes(ct),
        InterJob { cfg, row, col, bsize, tx },
        skip,
    );
    if e is Some {
        (t3, e)
    } else {
        (t3.with_sides(left_by_inter(t3.sides, row, col, bsize, skip, tx, m)), None)
    }
}

/// The table that tells inter blocks from intra blocks.
pub open spec fn is_inter_key(s: SidesModel, row: int, col: int) -> InterKey {
    InterKey::IsInter(min_of(s.left[row].is_inter + s.above[col].is_inter, 3))
}

/// An intra block of an inter frame.
#[verifier::opaque]
pub open spec fn intra_in_inter(
    t: Tile,
    cfg: TileConfig,
    row: int,
    col: int,
    bsize: int,
    skip: bool,
) -> Step {
    let (t1, e) = intra_from(t, cfg, row, col, bsize, skip);
    if e is Some {
        (t1, e)
    } else {
        (
            t1.with_sides(
                t1.sides.with_marks(
                    row,
                    col,
                    units_across(bsize),
                    units_down(bsize),
                    Mark::NotInter,
                    Mark::NotInter,
                ),
            ),
            None,
        )
    }
}

/// A block of an inter frame: the skip flag, whether it is an inter block, then the
/// block.
#[verifier::opaque]
pub open spec fn inter_block(
    t: Tile,
    refs: Seq<Option<Planes>>,
    cfg: TileConfig,
    row: int,
    col: int,
    bsize: int,
) -> Step {
    let (skip, c1) = skip_of(t.modes(), t.sides, cfg.seg_feature_skip, row, col);
    let t1 = t.with_modes(c1);
    let k = is_inter_key(t1.sides, row, col);
    let t2 = t1.with_inters(t1.inters().next(k));
    if t1.inters().val(k) == 1 {
        inter_from(t2, refs, cfg, row, col, bsize, skip)
    } else {
        intra_in_inter(t2, cfg, row, col, bsize, skip)
    }
}

// ---------------------------------------------------------------------------
// The partition tree
// ---------------------------------------------------------------------------

/// The sides after a block has left its size.
pub open spec fn sized(s: SidesModel, row: int, col: int, bsize: int) -> SidesModel {
    s.with_marks(
        row,
        col,
        units_across(bsize),
        units_down(bsize),
        Mark::Size(MI_WIDTH_LOG2[bsize] as u8),
        Mark::Size(MI_HEIGHT_LOG2[bsize] as u8),
    )
}

/// A leaf of the partition tree.
#[verifier::opaque]
pub open spec fn leaf(
    t: Tile,
    refs: Seq<Option<Planes>>,
    cfg: TileConfig,
    row: int,
    col: int,
    bsize: int,
) -> Step {
    let t1 = t.with_sides(sized(t.sides, row, col, bsize));
    if cfg.frame_is_intra {
        intra_block(t1, cfg, row, col, bsize)
    } else {
        inter_block(t1, refs, cfg, row, col, bsize)
    }
}

/// The context of a partition: whether the blocks above and to the left are smaller.
pub open spec fn partition_ctx(s: SidesModel, row: int, col: int, bsize: int) -> int {
    let log = MI_WIDTH_LOG2[bsize] as int;
    let above = row > 0 && s.above[min_of(col, s.above.len() - 1)].size_log2 < log;
    let left = col > 0 && s.left[min_of(row, s.left.len() - 1)].size_log2 < log;
    (if left {
        2int
    } else {
        0
    }) + (if above {
        1int
    } else {
        0
    })
}

/// The partition of a block and the decoder behind it. A block that reaches beyond the
/// frame is halved or split; one that does so both ways is split.
#[verifier::opaque]
pub open spec fn partition_of(
    c: Coder<ModeKey>,
    s: SidesModel,
    cfg: TileConfig,
    row: int,
    col: int,
    bsize: int,
) -> (u8, Coder<ModeKey>) {
    let half = units_across(bsize) / 2;
    let has_rows = row + half < cfg.rows();
    let has_cols = col + half < cfg.cols();
    let k = partition_key(
        PARTITION_CDF_LOOKUP[bsize] as int,
        partition_ctx(s, row, col, bsize),
    );
    if has_rows && has_cols {
        (c.val(k) as u8, c.next(k))
    } else if has_cols {
        let t = two_way(split_mass_horz(c.bank[k], bsize));
        (
            if sym_value(c.sym, t) == 1 {
                PARTITION_SPLIT
            } else {
                PARTITION_HORZ
            },
            Coder { sym: sym_next(c.sym, t), bank: c.bank },
        )
    } else if has_rows {
        let t = two_way(split_mass_vert(c.bank[k], bsize));
        (
            if sym_value(c.sym, t) == 1 {
                PARTITION_SPLIT
            } else {
                PARTITION_VERT
            },
            Coder { sym: sym_next(c.sym, t), bank: c.bank },
        )
    } else {
        (PARTITION_SPLIT, c)
    }
}

/// The leaves from part `i` on, and the first error. Parts beyond the frame are left
/// out.
pub open spec fn leaves(
    t: Tile,
    refs: Seq<Option<Planes>>,
    cfg: TileConfig,
    row: int,
    col: int,
    parts: Seq<SubBlock>,
    i: int,
) -> Step
    decreases parts.len() - i,
{
    if i < 0 || i >= parts.len() {
        (t, None)
    } else {
        let r = row + parts[i].row;
        let c = col + parts[i].col;
        let (t1, e) = if r < cfg.rows() && c < cfg.cols() {
            leaf(t, refs, cfg, r, c, parts[i].bsize as int)
        } else {
            (t, None)
        };
        if e is Some {
            (t1, e)
        } else {
            leaves(t1, refs, cfg, row, col, parts, i + 1)
        }
    }
}

/// The size of the quarters of a square block.
pub open spec fn quarter(bsize: int) -> int {
    if bsize == BLOCK_128X128 {
        BLOCK_64X64 as int
    } else if bsize == BLOCK_64X64 {
        BLOCK_32X32 as int
    } else if bsize == BLOCK_32X32 {
        BLOCK_16X16 as int
    } else {
        BLOCK_8X8 as int
    }
}

/// A square block from 8 by 8 samples on.
pub open spec fn square(bsize: int) -> bool {
    bsize == BLOCK_8X8 || bsize == BLOCK_16X16 || bsize == BLOCK_32X32 || bsize == BLOCK_64X64
        || bsize == BLOCK_128X128
}

/// The partition tree of a square block: leaves, or four trees of half its side.
pub open spec fn tree(
    t: Tile,
    refs: Seq<Option<Planes>>,
    cfg: TileConfig,
    row: int,
    col: int,
    bsize: int,
) -> Step
    decreases bsize,
{
    if !square(bsize) || row >= cfg.rows() || col >= cfg.cols() {
        (t, None)
    } else {
        let (p, c) = partition_of(t.modes(), t.sides, cfg, row, col, bsize);
        let t0 = t.with_modes(c);
        if p == PARTITION_SPLIT && bsize > BLOCK_8X8 {
            let q = quarter(bsize);
            let h = units_across(bsize) / 2;
            let s1 = tree(t0, refs, cfg, row, col, q);
            let s2 = if s1.1 is Some {
                s1
            } else {
                tree(s1.0, refs, cfg, row, col + h, q)
            };
            let s3 = if s2.1 is Some {
                s2
            } else {
                tree(s2.0, refs, cfg, row + h, col, q)
            };
            if s3.1 is Some {
                s3
            } else {
                tree(s3.0, refs, cfg, row + h, col + h, q)
            }
        } else {
            leaves(
                t0,
                refs,
                cfg,
                row,
                col,
                parts_of(units_across(bsize), units_down(bsize), p as int),
                0,
            )
        }
    }
}

/// A superblock: the contexts to its left are cleared, then its tree is decoded.
pub open spec fn superblock(
    t: Tile,
    refs: Seq<Option<Planes>>,
    cfg: TileConfig,
    row: int,
    col: int,
    bsize: int,
) -> Step {
    tree(
        Tile { ctx: left_cleared(t.ctx), ..t },
        refs,
        cfg,
        row,
        col,
        bsize,
    )
}

} // verus!
