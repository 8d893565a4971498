//! What a block reads from its place, and what it leaves there.
use crate::blocks::{
    BLOCK_HEIGHT, BLOCK_WIDTH, PARTITION_HORZ, PARTITION_HORZ_4, PARTITION_HORZ_A, PARTITION_HORZ_B,
    PARTITION_SPLIT, PARTITION_VERT, PARTITION_VERT_4, PARTITION_VERT_A, PARTITION_VERT_B,
};
use crate::coeff_tables::{TX_HEIGHT, TX_WIDTH};
use crate::entropy::Coder;
use crate::inter::{chroma_component, Mv, NONE_FRAME};
use crate::inter_block::{inter_pred, plane_place, plane_predicted, Motion};
use crate::intra_block::{chroma_job, chroma_pair, luma_job, ChromaState, IntraJob};
use crate::intra_syntax::TileConfig;
use crate::media::Planes;
use crate::mode_cdfs::ModeKey;
use crate::mode_syntax::{mass, split_mass_horz, split_mass_vert};
use crate::motion_laws::law_block_without_motion;
use crate::residual_laws::law_block_stands;
use crate::sides::SidesModel;
use crate::tile::{
    chroma_motion, flag, left_by_inter, left_by_intra, partition_of, predicted, skip_of,
    units_across, units_down, Tile,
};
use vstd::prelude::*;

verus! {

// ---------------------------------------------------------------------------
// Partitions
// ---------------------------------------------------------------------------

/// A block whose lower half lies outside the frame is cut across, one whose right half does
/// is cut down, so that no block starts outside. Where both do it is split, and nothing is
/// read.
pub proof fn law_partition_at_border(
    c: Coder<ModeKey>,
    s: SidesModel,
    cfg: TileConfig,
    row: int,
    col: int,
    bsize: int,
)
    ensures
        ({
            let (p, after) = partition_of(c, s, cfg, row, col, bsize);
            let half = units_across(bsize) / 2;
            let below = row + half >= cfg.rows();
            let beside = col + half >= cfg.cols();
            &&& below && !beside ==> p == PARTITION_HORZ || p == PARTITION_SPLIT
            &&& beside && !below ==> p == PARTITION_VERT || p == PARTITION_SPLIT
            &&& below && beside ==> p == PARTITION_SPLIT && after == c
            &&& below || beside ==> after.bank == c.bank
        }),
{
    reveal(partition_of);
}

/// The partition with rows and columns exchanged.
pub open spec fn turned_partition(p: int) -> int {
    if p == PARTITION_HORZ {
        PARTITION_VERT as int
    } else if p == PARTITION_VERT {
        PARTITION_HORZ as int
    } else if p == PARTITION_HORZ_A {
        PARTITION_VERT_A as int
    } else if p == PARTITION_VERT_A {
        PARTITION_HORZ_A as int
    } else if p == PARTITION_HORZ_B {
        PARTITION_VERT_B as int
    } else if p == PARTITION_VERT_B {
        PARTITION_HORZ_B as int
    } else if p == PARTITION_HORZ_4 {
        PARTITION_VERT_4 as int
    } else if p == PARTITION_VERT_4 {
        PARTITION_HORZ_4 as int
    } else {
        p
    }
}

/// How likely a split is at the lower border is how likely it is at the right border once
/// rows and columns are exchanged. A block that is never split or cut down is not split at
/// the lower border.
pub proof fn law_split_masses(a: Seq<u16>, b: Seq<u16>, bsize: int)
    requires
        forall|p: int| 0 <= p < 10 ==> #[trigger] mass(a, p) == mass(b, turned_partition(p)),
    ensures
        split_mass_horz(a, bsize) == split_mass_vert(b, bsize),
        mass(a, PARTITION_SPLIT as int) == 0 && mass(a, PARTITION_VERT as int) == 0 && mass(
            a,
            PARTITION_HORZ_A as int,
        ) == 0 && mass(a, PARTITION_VERT_A as int) == 0 && mass(a, PARTITION_VERT_B as int) == 0
            && mass(a, PARTITION_VERT_4 as int) == 0 ==> split_mass_horz(a, bsize) == 0,
{
    assert(mass(a, 1) == mass(b, 2));
    assert(mass(a, 2) == mass(b, 1));
    assert(mass(a, 3) == mass(b, 3));
    assert(mass(a, 4) == mass(b, 6));
    assert(mass(a, 6) == mass(b, 4));
    assert(mass(a, 7) == mass(b, 5));
    assert(mass(a, 9) == mass(b, 8));
}

// ---------------------------------------------------------------------------
// What a block leaves
// ---------------------------------------------------------------------------

/// An intra block leaves its modes and its skip flag above and to the left of what follows,
/// as far as it reaches: its transform width above, its transform height to the left, and
/// its palettes. Elsewhere nothing changes.
pub proof fn law_left_by_intra(s: SidesModel, j: IntraJob, i: int)
    requires
        0 <= i,
    ensures
        ({
            let r = left_by_intra(s, j);
            let m = j.info.modes;
            &&& i < s.above.len() && j.col <= i < j.col + units_across(j.bsize) ==> {
                &&& r.above[i].ymode == m.y_mode as u8
                &&& r.above[i].uv == m.uv_mode as u8
                &&& r.above[i].tx == TX_WIDTH[j.info.luma_tx] as u8
                &&& r.above[i].skip == flag(j.skip)
            }
            &&& i < s.left.len() && j.row <= i < j.row + units_down(j.bsize) ==> {
                &&& r.left[i].ymode == m.y_mode as u8
                &&& r.left[i].uv == m.uv_mode as u8
                &&& r.left[i].tx == TX_HEIGHT[j.info.luma_tx] as u8
                &&& r.left[i].skip == flag(j.skip)
            }
            &&& i < s.above.len() && !(j.col <= i < j.col + units_across(j.bsize)) ==> r.above[i]
                == s.above[i]
            &&& i < s.left.len() && !(j.row <= i < j.row + units_down(j.bsize)) ==> r.left[i]
                == s.left[i]
            &&& i < s.y_above.len() && j.col <= i < j.col + units_across(j.bsize) ==> r.y_above[i]
                == j.info.colors.y
            &&& i < s.y_left.len() && j.row <= i < j.row + units_down(j.bsize) ==> r.y_left[i]
                == j.info.colors.y
            &&& i < s.u_above.len() && j.col <= i < j.col + units_across(j.bsize) ==> r.u_above[i]
                == j.info.colors.u
            &&& i < s.u_left.len() && j.row <= i < j.row + units_down(j.bsize) ==> r.u_left[i]
                == j.info.colors.u
        }),
{
    reveal(left_by_intra);
}

/// An inter block leaves its references and vectors, for the blocks below and to the right
/// to take up.
pub proof fn law_left_by_inter(
    s: SidesModel,
    row: int,
    col: int,
    bsize: int,
    skip: bool,
    tx: int,
    m: Motion,
    i: int,
)
    requires
        0 <= i,
    ensures
        ({
            let r = left_by_inter(s, row, col, bsize, skip, tx, m);
            &&& i < s.above.len() && col <= i < col + units_across(bsize) ==> {
                &&& r.above[i].is_inter == 1
                &&& r.above[i].ref0 == m.ref0 && r.above[i].mv0 == m.mv0
                &&& r.above[i].ref1 == m.ref1 && r.above[i].mv1 == m.mv1
                &&& r.above[i].skip == flag(skip)
                &&& r.above[i].tx == TX_WIDTH[tx] as u8
            }
            &&& i < s.left.len() && row <= i < row + units_down(bsize) ==> {
                &&& r.left[i].is_inter == 1
                &&& r.left[i].ref0 == m.ref0 && r.left[i].mv0 == m.mv0
                &&& r.left[i].ref1 == m.ref1 && r.left[i].mv1 == m.mv1
                &&& r.left[i].skip == flag(skip)
                &&& r.left[i].tx == TX_HEIGHT[tx] as u8
            }
            &&& i < s.above.len() && !(col <= i < col + units_across(bsize)) ==> r.above[i]
                == s.above[i]
            &&& i < s.left.len() && !(row <= i < row + units_down(bsize)) ==> r.left[i] == s.left[i]
        }),
{
    reveal(left_by_inter);
}

/// A block is marked as skipped where its flag is set, and takes the table for as many
/// skipped neighbours as it has.
pub proof fn law_skip(c: Coder<ModeKey>, s: SidesModel, row: int, col: int)
    requires
        s.above[col].skip <= 1,
        s.left[row].skip <= 1,
    ensures
        skip_of(c, s, true, row, col) == (true, c),
        skip_of(c, s, false, row, col).0 <==> c.val(
            ModeKey::Skip(s.above[col].skip + s.left[row].skip),
        ) == 1,
{
}

// ---------------------------------------------------------------------------
// Planes
// ---------------------------------------------------------------------------

/// The two chroma transform blocks at a place: the first is coded for and written into the
/// first chroma plane, with the first share of luma and the first colors; the second
/// likewise. Neither plane depends on the other but for what was read.
pub proof fn law_chroma_planes(
    a: ChromaState,
    b: ChromaState,
    luma: Seq<u8>,
    j: IntraJob,
    tx: int,
    ty: int,
)
    requires
        a.c == b.c,
        a.ctx == b.ctx,
        a.u == b.u,
    ensures
        chroma_pair(a, luma, j, tx, ty).0.u == chroma_pair(b, luma, j, tx, ty).0.u,
        chroma_job(j, luma, false, tx, ty).blk.plane == 1,
        chroma_job(j, luma, true, tx, ty).blk.plane == 2,
        luma_job(j, tx, ty).blk.plane == 0,
        j.info.modes.cfl matches Some(s) ==> chroma_job(j, luma, false, tx, ty).cfl->Some_0.alpha
            == s.0 && chroma_job(j, luma, true, tx, ty).cfl->Some_0.alpha == s.1,
        j.info.colors.u.len() > 0 ==> chroma_job(j, luma, false, tx, ty).palette->Some_0.colors
            == j.info.colors.u,
        j.info.colors.v.len() > 0 ==> chroma_job(j, luma, true, tx, ty).palette->Some_0.colors
            == j.info.colors.v,
{
    reveal(chroma_pair);
}

/// Chroma lies at half the place of luma where it is halved.
pub proof fn law_chroma_place(j: IntraJob)
    requires
        j.cfg.subsampling_x,
        j.cfg.subsampling_y,
        j.col % 2 == 0,
        j.row % 2 == 0,
        j.cfg.tile_px_x0 % 8 == 0,
        j.cfg.tile_px_y0 % 8 == 0,
    ensures
        2 * j.cx() == j.x(),
        2 * j.cy() == j.y(),
{
}

/// The vectors in the chroma planes go with the references and are half of those in luma.
pub proof fn law_chroma_motion(m: Motion)
    ensures
        chroma_motion(m).ref0 == m.ref0,
        chroma_motion(m).ref1 == m.ref1,
        chroma_motion(m).mv0.row == chroma_component(m.mv0.row as int),
        chroma_motion(m).mv0.col == chroma_component(m.mv0.col as int),
        chroma_motion(m).mv1.row == chroma_component(m.mv1.row as int),
        chroma_motion(m).mv1.col == chroma_component(m.mv1.col as int),
{
}

/// A block without motion copies its reference at its own place, each plane from the same
/// plane: the luma sample at row `i` and column `k` of the block is that of the reference.
pub proof fn law_still_luma(
    t: Tile,
    refs: Seq<Option<Planes>>,
    cfg: TileConfig,
    row: int,
    col: int,
    bsize: int,
    m: Motion,
    filter: u8,
    s: Planes,
    i: int,
    k: int,
)
    requires
        m.ref1 == NONE_FRAME,
        m.mv0 == (Mv { row: 0, col: 0 }),
        m.ref0 <= 8,
        cfg.ref_to_slot[m.ref0 as int] < 8,
        refs.len() == 8,
        refs[cfg.ref_to_slot[m.ref0 as int] as int] == Some(s),
        ({
            let x = col * 4 - cfg.tile_px_x0;
            let y = row * 4 - cfg.tile_px_y0;
            &&& 0 <= x
            &&& 0 <= y
            &&& 0 <= i < BLOCK_HEIGHT[bsize]
            &&& 0 <= k < BLOCK_WIDTH[bsize]
            &&& x + k < cfg.tile_w <= cfg.y_stride
            &&& y + i < cfg.tile_h
            &&& x + k < s.width
            &&& y + i < s.height
            &&& 0 <= (y + i) * cfg.y_stride + (x + k) < t.y.len()
        }),
    ensures
        ({
            let x = col * 4 - cfg.tile_px_x0;
            let y = row * 4 - cfg.tile_px_y0;
            predicted(t, refs, cfg, row, col, bsize, m, filter).y[(y + i) * cfg.y_stride + (x + k)]
                == s.y[(y + i) * s.width + (x + k)]
        }),
{
    reveal(predicted);
    reveal(plane_predicted);
    let x = col * 4 - cfg.tile_px_x0;
    let y = row * 4 - cfg.tile_px_y0;
    let w = BLOCK_WIDTH[bsize] as int;
    let h = BLOCK_HEIGHT[bsize] as int;
    let vals = inter_pred(refs, cfg, 0, x, y, w, h, m, filter);
    law_block_without_motion(refs, cfg, 0, x, y, w, h, m, filter, s, i, k);
    law_block_stands(t.y, plane_place(cfg, 0, x, y, w, h), vals, i, k);
}

/// The same of the chroma planes at half the place.
pub proof fn law_still_chroma(
    t: Tile,
    refs: Seq<Option<Planes>>,
    cfg: TileConfig,
    row: int,
    col: int,
    bsize: int,
    m: Motion,
    filter: u8,
    s: Planes,
    i: int,
    k: int,
)
    requires
        m.ref1 == NONE_FRAME,
        m.mv0 == (Mv { row: 0, col: 0 }),
        m.ref0 <= 8,
        cfg.ref_to_slot[m.ref0 as int] < 8,
        refs.len() == 8,
        refs[cfg.ref_to_slot[m.ref0 as int] as int] == Some(s),
        ({
            let x = (col * 4 - cfg.tile_px_x0) / 2;
            let y = (row * 4 - cfg.tile_px_y0) / 2;
            &&& 0 <= x
            &&& 0 <= y
            &&& 0 <= i < BLOCK_HEIGHT[bsize] / 2
            &&& 0 <= k < BLOCK_WIDTH[bsize] / 2
            &&& x + k < cfg.tile_cw() <= cfg.uv_stride
            &&& y + i < cfg.tile_ch()
            &&& x + k < s.width / 2
            &&& y + i < s.height / 2
            &&& 0 <= (y + i) * cfg.uv_stride + (x + k) < t.u.len()
            &&& t.v.len() == t.u.len()
        }),
    ensures
        ({
            let x = (col * 4 - cfg.tile_px_x0) / 2;
            let y = (row * 4 - cfg.tile_px_y0) / 2;
            let r = predicted(t, refs, cfg, row, col, bsize, m, filter);
            let p = (y + i) * cfg.uv_stride + (x + k);
            &&& r.u[p] == s.u[(y + i) * (s.width / 2) + (x + k)]
            &&& r.v[p] == s.v[(y + i) * (s.width / 2) + (x + k)]
        }),
{
    reveal(predicted);
    reveal(plane_predicted);
    let x = (col * 4 - cfg.tile_px_x0) / 2;
    let y = (row * 4 - cfg.tile_px_y0) / 2;
    let w = crate::tile::at_least_4(BLOCK_WIDTH[bsize] as int / 2);
    let h = crate::tile::at_least_4(BLOCK_HEIGHT[bsize] as int / 2);
    let cm = chroma_motion(m);
    assert(chroma_component(0) == 0);
    assert(cm.mv0 == (Mv { row: 0, col: 0 }));
    law_block_without_motion(refs, cfg, 1, x, y, w, h, cm, filter, s, i, k);
    law_block_without_motion(refs, cfg, 2, x, y, w, h, cm, filter, s, i, k);
    law_block_stands(
        t.u,
        plane_place(cfg, 1, x, y, w, h),
        inter_pred(refs, cfg, 1, x, y, w, h, cm, filter),
        i,
        k,
    );
    law_block_stands(
        t.v,
        plane_place(cfg, 2, x, y, w, h),
        inter_pred(refs, cfg, 2, x, y, w, h, cm, filter),
        i,
        k,
    );
}

} // verus!
