//! The deblocking filter, and the chain of filters behind reconstruction.
//!
//! A filtered plane is given row by row, then column by column: each row is
//! filtered at its vertical edges from left to right, each column of the result at
//! its horizontal edges from top to bottom.
use crate::bits::{lemma_pow2i_values, pow2i};
use crate::cdef::{
    byte_grid, cdef_filtered, cdef_plane_chroma, cdef_plane_luma, law_zero_strength, CdefPass,
};
use crate::error::KinetixError;
use crate::frame::FrameHeader;
use crate::math::{absi, clamp32, clampi, shr32};
use crate::obu::SequenceHeaderObu;
use crate::planes::{
    column, grid_of, read_column, read_row, with_column, write_column, write_row,
};
use crate::transform::{lemma_block_cell, lemma_cell_unique};
use vstd::prelude::*;

verus! {

/// The largest filter level.
pub const MAX_LOOP_FILTER: i32 = 63;

// ---------------------------------------------------------------------------
// Block metadata
// ---------------------------------------------------------------------------

/// What the filters know of every eight by eight luma block: the largest transform
/// width and height in it per plane, and whether it was skipped throughout.
#[derive(Debug, Clone)]
pub struct FrameMeta {
    /// Blocks per row.
    pub w8: usize,
    /// Blocks per column.
    pub h8: usize,
    pub luma_tx_w: Vec<u8>,
    pub luma_tx_h: Vec<u8>,
    pub luma_skip: Vec<bool>,
    pub u_tx_w: Vec<u8>,
    pub u_tx_h: Vec<u8>,
    pub u_skip: Vec<bool>,
    pub v_tx_w: Vec<u8>,
    pub v_tx_h: Vec<u8>,
    pub v_skip: Vec<bool>,
}

/// What is known of one block.
#[verifier::ext_equal]
pub struct CellModel {
    pub luma_w: u8,
    pub luma_h: u8,
    pub luma_skip: bool,
    pub u_w: u8,
    pub u_h: u8,
    pub u_skip: bool,
    pub v_w: u8,
    pub v_h: u8,
    pub v_skip: bool,
}

/// The model of the metadata: a grid of blocks in raster order.
#[verifier::ext_equal]
pub struct MetaModel {
    pub w8: int,
    pub h8: int,
    pub cells: Seq<CellModel>,
}

/// The larger of two numbers.
pub open spec fn max8(a: u8, b: u8) -> u8 {
    if a >= b {
        a
    } else {
        b
    }
}

/// A block with a luma transform recorded.
pub open spec fn with_luma(c: CellModel, w: u8, h: u8, skip: bool) -> CellModel {
    CellModel {
        luma_w: max8(c.luma_w, w),
        luma_h: max8(c.luma_h, h),
        luma_skip: c.luma_skip && skip,
        ..c
    }
}

/// A block with a chroma transform recorded.
pub open spec fn with_chroma(c: CellModel, w: u8, h: u8, skip: bool) -> CellModel {
    CellModel {
        u_w: max8(c.u_w, w),
        u_h: max8(c.u_h, h),
        u_skip: c.u_skip && skip,
        v_w: max8(c.v_w, w),
        v_h: max8(c.v_h, h),
        v_skip: c.v_skip && skip,
        ..c
    }
}

/// A block without records.
pub open spec fn fresh_cell() -> CellModel {
    CellModel {
        luma_w: 0,
        luma_h: 0,
        luma_skip: true,
        u_w: 0,
        u_h: 0,
        u_skip: true,
        v_w: 0,
        v_h: 0,
        v_skip: true,
    }
}

/// The grid with a luma transform recorded at a block; blocks outside are ignored.
pub open spec fn luma_recorded(m: MetaModel, bx: int, by: int, w: u8, h: u8, skip: bool) -> MetaModel {
    if bx >= m.w8 || by >= m.h8 {
        m
    } else {
        let i = by * m.w8 + bx;
        MetaModel { cells: m.cells.update(i, with_luma(m.cells[i], w, h, skip)), ..m }
    }
}

/// The grid with a chroma transform recorded at a block.
pub open spec fn chroma_recorded(
    m: MetaModel,
    bx: int,
    by: int,
    w: u8,
    h: u8,
    skip: bool,
) -> MetaModel {
    if bx >= m.w8 || by >= m.h8 {
        m
    } else {
        let i = by * m.w8 + bx;
        MetaModel { cells: m.cells.update(i, with_chroma(m.cells[i], w, h, skip)), ..m }
    }
}

/// The grid after the first `n` blocks of another grid, laid over it from block
/// column `ox` and row `oy` on, were merged in.
pub open spec fn tile_merged(m: MetaModel, s: MetaModel, ox: int, oy: int, n: int) -> MetaModel
    decreases n,
{
    if n <= 0 {
        m
    } else {
        let p = tile_merged(m, s, ox, oy, n - 1);
        let bx = (n - 1) % s.w8 + ox;
        let by = (n - 1) / s.w8 + oy;
        let c = s.cells[n - 1];
        chroma_recorded(
            luma_recorded(p, bx, by, c.luma_w, c.luma_h, c.luma_skip),
            bx,
            by,
            c.u_w,
            c.u_h,
            c.u_skip,
        )
    }
}

impl View for FrameMeta {
    type V = MetaModel;

    open spec fn view(&self) -> MetaModel {
        MetaModel {
            w8: self.w8 as int,
            h8: self.h8 as int,
            cells: Seq::new(
                (self.w8 * self.h8) as nat,
                |i: int|
                    CellModel {
                        luma_w: self.luma_tx_w@[i],
                        luma_h: self.luma_tx_h@[i],
                        luma_skip: self.luma_skip@[i],
                        u_w: self.u_tx_w@[i],
                        u_h: self.u_tx_h@[i],
                        u_skip: self.u_skip@[i],
                        v_w: self.v_tx_w@[i],
                        v_h: self.v_tx_h@[i],
                        v_skip: self.v_skip@[i],
                    },
            ),
        }
    }
}

/// The number of groups of eight that hold `n`.
fn eighths(n: usize) -> (r: usize)
    ensures
        r == (n + 7) / 8,
{
    n / 8 + if n % 8 == 0 {
        0
    } else {
        1
    }
}

impl FrameMeta {
    /// Every array covers the grid.
    pub open spec fn wf(&self) -> bool {
        let n = self.w8 * self.h8;
        &&& n <= usize::MAX
        &&& self.luma_tx_w@.len() == n
        &&& self.luma_tx_h@.len() == n
        &&& self.luma_skip@.len() == n
        &&& self.u_tx_w@.len() == n
        &&& self.u_tx_h@.len() == n
        &&& self.u_skip@.len() == n
        &&& self.v_tx_w@.len() == n
        &&& self.v_tx_h@.len() == n
        &&& self.v_skip@.len() == n
    }

    /// A grid without records for a frame of `width` by `height` pixels.
    pub fn new(width: usize, height: usize) -> (r: Self)
        requires
            ((width + 7) / 8) * ((height + 7) / 8) <= usize::MAX,
        ensures
            r.wf(),
            r.w8 == (width + 7) / 8,
            r.h8 == (height + 7) / 8,
            r@.cells == Seq::new((r.w8 * r.h8) as nat, |i: int| fresh_cell()),
    {
        let w8: usize = eighths(width);
        let h8: usize = eighths(height);
        let len: usize = w8 * h8;
        let r: FrameMeta = FrameMeta {
            w8,
            h8,
            luma_tx_w: vec![0u8; len],
            luma_tx_h: vec![0u8; len],
            luma_skip: vec![true; len],
            u_tx_w: vec![0u8; len],
            u_tx_h: vec![0u8; len],
            u_skip: vec![true; len],
            v_tx_w: vec![0u8; len],
            v_tx_h: vec![0u8; len],
            v_skip: vec![true; len],
        };
        assert(r@.cells =~= Seq::new((r.w8 * r.h8) as nat, |i: int| fresh_cell()));
        r
    }

    /// Records a luma transform of `tx_w` by `tx_h` samples in a block.
    pub fn record_luma(&mut self, bx: usize, by: usize, tx_w: u8, tx_h: u8, skip: bool)
        requires
            old(self).wf(),
        ensures
            final(self).wf(),
            final(self)@ == luma_recorded(old(self)@, bx as int, by as int, tx_w, tx_h, skip),
    {
        if bx >= self.w8 || by >= self.h8 {
            return ;
        }
        proof {
            lemma_block_cell(self.w8 as int, self.h8 as int, by as int, bx as int);
            assert(by * self.w8 <= self.w8 * self.h8) by (nonlinear_arith)
                requires
                    by <= self.h8,
            ;
        }
        let ghost before = *self;
        let i: usize = by * self.w8 + bx;
        if tx_w > self.luma_tx_w[i] {
            self.luma_tx_w[i] = tx_w;
        }
        if tx_h > self.luma_tx_h[i] {
            self.luma_tx_h[i] = tx_h;
        }
        self.luma_skip[i] = self.luma_skip[i] && skip;
        assert(self@.cells =~= luma_recorded(
            before@,
            bx as int,
            by as int,
            tx_w,
            tx_h,
            skip,
        ).cells);
    }

    /// Records a chroma transform of `tx_w` by `tx_h` samples in a block.
    pub fn record_chroma(&mut self, bx: usize, by: usize, tx_w: u8, tx_h: u8, skip: bool)
        requires
            old(self).wf(),
        ensures
            final(self).wf(),
            final(self)@ == chroma_recorded(old(self)@, bx as int, by as int, tx_w, tx_h, skip),
    {
        if bx >= self.w8 || by >= self.h8 {
            return ;
        }
        proof {
            lemma_block_cell(self.w8 as int, self.h8 as int, by as int, bx as int);
            assert(by * self.w8 <= self.w8 * self.h8) by (nonlinear_arith)
                requires
                    by <= self.h8,
            ;
        }
        let ghost before = *self;
        let i: usize = by * self.w8 + bx;
        if tx_w > self.u_tx_w[i] {
            self.u_tx_w[i] = tx_w;
        }
        if tx_h > self.u_tx_h[i] {
            self.u_tx_h[i] = tx_h;
        }
        if tx_w > self.v_tx_w[i] {
            self.v_tx_w[i] = tx_w;
        }
        if tx_h > self.v_tx_h[i] {
            self.v_tx_h[i] = tx_h;
        }
        self.u_skip[i] = self.u_skip[i] && skip;
        self.v_skip[i] = self.v_skip[i] && skip;
        assert(self@.cells =~= chroma_recorded(
            before@,
            bx as int,
            by as int,
            tx_w,
            tx_h,
            skip,
        ).cells);
    }

    /// Merges the records of a tile that starts at block column `ox` and row `oy`.
    pub fn merge_tile(&mut self, src: &FrameMeta, ox: usize, oy: usize)
        requires
            old(self).wf(),
            src.wf(),
            ox + src.w8 <= usize::MAX,
            oy + src.h8 <= usize::MAX,
        ensures
            final(self).wf(),
            final(self)@ == tile_merged(old(self)@, src@, ox as int, oy as int, src.w8 * src.h8),
    {
        let ghost m0 = self@;
        let mut by: usize = 0;
        let mut n: usize = 0;
        while by < src.h8
            invariant
                by <= src.h8,
                n == by * src.w8,
                self.wf(),
                src.wf(),
                ox + src.w8 <= usize::MAX,
                oy + src.h8 <= usize::MAX,
                self@ == tile_merged(m0, src@, ox as int, oy as int, n as int),
            decreases src.h8 - by,
        {
            let mut bx: usize = 0;
            while bx < src.w8
                invariant
                    by < src.h8,
                    bx <= src.w8,
                    n == by * src.w8 + bx,
                    self.wf(),
                    src.wf(),
                    ox + src.w8 <= usize::MAX,
                    oy + src.h8 <= usize::MAX,
                    self@ == tile_merged(m0, src@, ox as int, oy as int, n as int),
                decreases src.w8 - bx,
            {
                proof {
                    lemma_block_cell(src.w8 as int, src.h8 as int, by as int, bx as int);
                    assert(by * src.w8 == src.w8 * by) by (nonlinear_arith);
                    vstd::arithmetic::div_mod::lemma_fundamental_div_mod_converse(
                        n as int,
                        src.w8 as int,
                        by as int,
                        bx as int,
                    );
                }
                self.record_luma(
                    ox + bx,
                    oy + by,
                    src.luma_tx_w[n],
                    src.luma_tx_h[n],
                    src.luma_skip[n],
                );
                self.record_chroma(
                    ox + bx,
                    oy + by,
                    src.u_tx_w[n],
                    src.u_tx_h[n],
                    src.u_skip[n],
                );
                bx = bx + 1;
                n = n + 1;
            }
            assert((by + 1) * src.w8 == by * src.w8 + src.w8) by (nonlinear_arith);
            by = by + 1;
        }
        assert(src.h8 * src.w8 == src.w8 * src.h8) by (nonlinear_arith);
    }
}

// ---------------------------------------------------------------------------
// Filter levels
// ---------------------------------------------------------------------------

/// The filter size at an edge between transforms of which the smaller has
/// `tx_samples` samples: at most 16 for luma, 8 for chroma.
pub open spec fn filter_size_of(tx_samples: int, plane: int) -> int {
    let cap = if plane == 0 {
        16int
    } else {
        8
    };
    if tx_samples <= cap {
        tx_samples
    } else {
        cap
    }
}

/// The filter size at an edge.
pub fn filter_size_from_tx_samples(tx_samples: usize, plane: usize) -> (r: usize)
    ensures
        r == filter_size_of(tx_samples as int, plane as int),
{
    let cap: usize = if plane == 0 {
        16
    } else {
        8
    };
    if tx_samples <= cap {
        tx_samples
    } else {
        cap
    }
}

/// `x` between two bounds in either order.
pub open spec fn clip3_of(x: int, lo: int, hi: int) -> int {
    if lo <= hi {
        clampi(x, lo, hi)
    } else {
        clampi(x, hi, lo)
    }
}

/// `x` between two bounds in either order.
pub fn clip3(x: i32, lo: i32, hi: i32) -> (r: i32)
    ensures
        r == clip3_of(x as int, lo as int, hi as int),
{
    if lo <= hi {
        clamp32(x, lo, hi)
    } else {
        clamp32(x, hi, lo)
    }
}

/// `x` divided by two to the power `n`, rounded to nearest, halves away from zero.
pub open spec fn round_half_away(x: int, n: int) -> int {
    if x >= 0 {
        (x + pow2i(n - 1)) / pow2i(n)
    } else {
        (x + pow2i(n - 1) - 1) / pow2i(n)
    }
}

/// The filter level of a plane in a pass: the frame's level with the deltas of
/// intra blocks, between 0 and 63.
pub open spec fn level_of(fh: FrameHeader, plane: int, pass: int) -> int {
    let i = if plane == 0 {
        pass
    } else {
        plane + 1
    };
    let base = if i < 4 {
        fh.loop_filter_level[i] as int
    } else {
        0
    };
    clampi(
        base + if fh.loop_filter_delta_enabled {
            fh.loop_filter_deltas.loop_filter_ref_deltas[0]
                + fh.loop_filter_deltas.loop_filter_mode_deltas[0]
        } else {
            0
        },
        0,
        63,
    )
}

/// The filter level of a plane in a pass.
pub fn compute_level(fh: &FrameHeader, plane: usize, pass: usize) -> (r: i32)
    requires
        plane < 3,
        pass < 2,
    ensures
        r == level_of(*fh, plane as int, pass as int),
        0 <= r <= 63,
{
    let i: usize = if plane == 0 {
        pass
    } else {
        plane + 1
    };
    let mut lvl: i32 = if i < 4 {
        fh.loop_filter_level[i] as i32
    } else {
        0
    };
    if fh.loop_filter_delta_enabled {
        lvl = lvl + fh.loop_filter_deltas.loop_filter_ref_deltas[0] as i32;
        lvl = lvl + fh.loop_filter_deltas.loop_filter_mode_deltas[0] as i32;
    }
    clamp32(lvl, 0, MAX_LOOP_FILTER)
}

/// The thresholds of a filter level.
#[derive(Debug, Clone, Copy)]
pub struct LevelParams {
    pub limit: i32,
    pub blimit: i32,
    pub thresh: i32,
}

/// The step limit of a level at a sharpness.
pub open spec fn limit_of(lvl: int, sharpness: int) -> int {
    let reduced = if sharpness > 4 {
        lvl / 4
    } else if sharpness > 0 {
        lvl / 2
    } else {
        lvl
    };
    if sharpness > 0 {
        clip3_of(1, 9 - sharpness, reduced)
    } else if reduced > 1 {
        reduced
    } else {
        1
    }
}

/// The thresholds of a filter level.
pub fn level_params(lvl: i32, sharpness: u8) -> (r: LevelParams)
    requires
        0 <= lvl <= 63,
    ensures
        r.limit == limit_of(lvl as int, sharpness as int),
        r.blimit == 2 * (lvl + 2) + limit_of(lvl as int, sharpness as int),
        r.thresh == lvl as int / 16,
        -1000 <= r.limit <= 1000,
        -1000 <= r.blimit <= 2000,
        0 <= r.thresh <= 3,
{
    let reduced: i32 = if sharpness > 4 {
        lvl / 4
    } else if sharpness > 0 {
        lvl / 2
    } else {
        lvl
    };
    let limit: i32 = if sharpness > 0 {
        clip3(1, 9 - sharpness as i32, reduced)
    } else if reduced > 1 {
        reduced
    } else {
        1
    };
    LevelParams { limit, blimit: 2 * (lvl + 2) + limit, thresh: lvl / 16 }
}

// ---------------------------------------------------------------------------
// One line
// ---------------------------------------------------------------------------

/// How an edge of a line is filtered.
pub struct EdgeModel {
    pub edge: int,
    pub limit: int,
    pub blimit: int,
    pub thresh: int,
    pub size: int,
    pub luma: bool,
}

/// The sample `off` behind the edge, the ends of the line repeated.
pub open spec fn tap(line: Seq<i32>, edge: int, off: int) -> int {
    line[clampi(edge + off, 0, line.len() - 1)] as int
}

/// The distance between two samples around the edge.
pub open spec fn step_at(line: Seq<i32>, edge: int, a: int, b: int) -> int {
    absi(tap(line, edge, a) - tap(line, edge, b))
}

/// The number of samples that the filter mask looks at.
pub open spec fn filter_len(e: EdgeModel) -> int {
    if e.size == 4 {
        4
    } else if !e.luma {
        6
    } else if e.size == 8 {
        8
    } else {
        16
    }
}

/// The steps next to the edge are large.
pub open spec fn high_variance(line: Seq<i32>, e: EdgeModel) -> bool {
    step_at(line, e.edge, -2, -1) > e.thresh || step_at(line, e.edge, 1, 0) > e.thresh
}

/// The edge is filtered at all: the steps around it are small.
pub open spec fn mask_passes(line: Seq<i32>, e: EdgeModel) -> bool {
    &&& step_at(line, e.edge, -2, -1) <= e.limit
    &&& step_at(line, e.edge, 1, 0) <= e.limit
    &&& step_at(line, e.edge, -1, 0) * 2 + step_at(line, e.edge, -2, 1) / 2 <= e.blimit
    &&& filter_len(e) < 6 || (step_at(line, e.edge, -3, -2) <= e.limit && step_at(
        line,
        e.edge,
        2,
        1,
    ) <= e.limit)
    &&& filter_len(e) < 8 || (step_at(line, e.edge, -4, -3) <= e.limit && step_at(
        line,
        e.edge,
        3,
        2,
    ) <= e.limit)
}

/// Both sides lie within one of their sample at the edge, near it.
pub open spec fn flat_near(line: Seq<i32>, e: EdgeModel) -> bool {
    e.size < 8 || {
        &&& step_at(line, e.edge, -2, -1) <= 1
        &&& step_at(line, e.edge, 1, 0) <= 1
        &&& step_at(line, e.edge, -3, -1) <= 1
        &&& step_at(line, e.edge, 2, 0) <= 1
        &&& filter_len(e) < 8 || (step_at(line, e.edge, -4, -1) <= 1 && step_at(line, e.edge, 3, 0)
            <= 1)
    }
}

/// Both sides lie within one of their sample at the edge, far from it.
pub open spec fn flat_far(line: Seq<i32>, e: EdgeModel) -> bool {
    e.size < 16 || {
        &&& step_at(line, e.edge, -7, -1) <= 1
        &&& step_at(line, e.edge, 6, 0) <= 1
        &&& step_at(line, e.edge, -6, -1) <= 1
        &&& step_at(line, e.edge, 5, 0) <= 1
        &&& step_at(line, e.edge, -5, -1) <= 1
        &&& step_at(line, e.edge, 4, 0) <= 1
    }
}

/// Eight-bit signed saturation.
pub open spec fn sat8(x: int) -> int {
    clampi(x, -128, 127)
}

/// The line after the narrow filter: up to two samples on each side move.
pub open spec fn narrow(line: Seq<i32>, e: EdgeModel) -> Seq<i32> {
    let hev = high_variance(line, e);
    let p1 = tap(line, e.edge, -2);
    let p0 = tap(line, e.edge, -1);
    let q0 = tap(line, e.edge, 0);
    let q1 = tap(line, e.edge, 1);
    let base = if hev {
        sat8(p1 - q1)
    } else {
        0
    };
    let f = sat8(base + 3 * (q0 - p0));
    let f1 = sat8(f + 4) / 8;
    let f2 = sat8(f + 3) / 8;
    let inner = line.update(e.edge, clampi(q0 - f1, 0, 255) as i32).update(
        e.edge - 1,
        clampi(p0 + f2, 0, 255) as i32,
    );
    if hev {
        inner
    } else {
        let g = round_half_away(f1, 1);
        let right = if e.edge + 1 < line.len() {
            inner.update(e.edge + 1, clampi(q1 - g, 0, 255) as i32)
        } else {
            inner
        };
        if e.edge >= 2 {
            right.update(e.edge - 2, clampi(p1 + g, 0, 255) as i32)
        } else {
            right
        }
    }
}

/// The binary logarithm of the weight of the wide filter.
pub open spec fn wide_log2(line: Seq<i32>, e: EdgeModel) -> int {
    if e.size == 8 || !flat_far(line, e) {
        3
    } else {
        4
    }
}

/// The samples on each side that the wide filter moves.
pub open spec fn wide_reach(log2: int, luma: bool) -> int {
    if log2 == 4 {
        6
    } else if luma {
        3
    } else {
        2
    }
}

/// The samples with double weight on each side of the middle of the wide filter.
pub open spec fn wide_core(log2: int, luma: bool) -> int {
    if log2 == 3 && luma {
        0
    } else {
        1
    }
}

/// The weighted sum of the first `k` of the `2 n + 1` samples around offset `i`.
pub open spec fn wide_sum(line: Seq<i32>, edge: int, n: int, n2: int, i: int, k: int) -> int
    decreases k,
{
    if k <= 0 {
        0
    } else {
        let j = k - 1 - n;
        wide_sum(line, edge, n, n2, i, k - 1) + tap(line, edge, clampi(i + j, -(n + 1), n)) * if absi(
            j,
        ) <= n2 {
            2int
        } else {
            1
        }
    }
}

/// The line after the first `k` of the `2 n` samples around the edge are moved by
/// the wide filter.
pub open spec fn wide(line: Seq<i32>, e: EdgeModel, k: int) -> Seq<i32>
    decreases k,
{
    if k <= 0 {
        line
    } else {
        let log2 = wide_log2(line, e);
        let n = wide_reach(log2, e.luma);
        let i = k - 1 - n;
        wide(line, e, k - 1).update(
            clampi(e.edge + i, 0, line.len() - 1),
            clampi(
                round_half_away(
                    wide_sum(line, e.edge, n, wide_core(log2, e.luma), i, 2 * n + 1),
                    log2,
                ),
                0,
                255,
            ) as i32,
        )
    }
}

/// The line after its edge is filtered.
#[verifier::opaque]
pub open spec fn edge_filtered(line: Seq<i32>, e: EdgeModel) -> Seq<i32> {
    if e.edge <= 0 || e.edge >= line.len() || !mask_passes(line, e) {
        line
    } else if e.size == 4 || !flat_near(line, e) {
        narrow(line, e)
    } else {
        wide(line, e, 2 * wide_reach(wide_log2(line, e), e.luma))
    }
}

/// Every entry is a sample.
pub open spec fn pixels(s: Seq<i32>) -> bool {
    forall|i: int| 0 <= i < s.len() ==> 0 <= #[trigger] s[i] <= 255
}

/// No weighted sum of a filter leaves the range of the entries.
pub open spec fn summable(s: Seq<i32>) -> bool {
    forall|i: int| 0 <= i < s.len() ==> -0x400_0000 <= #[trigger] s[i] <= 0x400_0000
}

/// The position `off` behind the edge, within a line.
fn near(edge: usize, off: i32, len: usize) -> (r: usize)
    requires
        edge < len,
        -16 <= off <= 16,
    ensures
        r == clampi(edge + off, 0, len - 1),
        r < len,
{
    if off < 0 {
        let d: usize = (-off) as usize;
        if edge >= d {
            edge - d
        } else {
            0
        }
    } else {
        let d: usize = off as usize;
        if d <= len - 1 - edge {
            edge + d
        } else {
            len - 1
        }
    }
}

/// The sample `off` behind the edge.
fn get_tap(line: &Vec<i32>, edge: usize, off: i32) -> (r: i32)
    requires
        1 <= line@.len(),
        edge < line@.len(),
        -16 <= off <= 16,
        summable(line@),
    ensures
        r == tap(line@, edge as int, off as int),
        -0x400_0000 <= r <= 0x400_0000,
{
    line[near(edge, off, line.len())]
}

/// The distance between two samples.
fn gap(line: &Vec<i32>, edge: usize, a: i32, b: i32) -> (r: i32)
    requires
        1 <= line@.len(),
        edge < line@.len(),
        -16 <= a <= 16,
        -16 <= b <= 16,
        summable(line@),
    ensures
        r == step_at(line@, edge as int, a as int, b as int),
        0 <= r <= 0x800_0000,
{
    let d: i32 = get_tap(line, edge, a) - get_tap(line, edge, b);
    if d < 0 {
        -d
    } else {
        d
    }
}

/// How an edge of a line is filtered.
#[derive(Clone, Copy)]
struct Edge {
    edge: usize,
    limit: i32,
    blimit: i32,
    thresh: i32,
    size: usize,
    luma: bool,
}

impl View for Edge {
    type V = EdgeModel;

    closed spec fn view(&self) -> EdgeModel {
        EdgeModel {
            edge: self.edge as int,
            limit: self.limit as int,
            blimit: self.blimit as int,
            thresh: self.thresh as int,
            size: self.size as int,
            luma: self.luma,
        }
    }
}

impl Edge {
    /// The edge lies inside the line.
    spec fn inside(&self, line: Seq<i32>) -> bool {
        &&& 2 <= line.len()
        &&& 1 <= self.edge < line.len()
        &&& summable(line)
    }

    fn length(&self) -> (r: i32)
        ensures
            r == filter_len(self@),
    {
        if self.size == 4 {
            4
        } else if !self.luma {
            6
        } else if self.size == 8 {
            8
        } else {
            16
        }
    }

    fn mask(&self, line: &Vec<i32>) -> (r: bool)
        requires
            self.inside(line@),
        ensures
            r == mask_passes(line@, self@),
    {
        let len: i32 = self.length();
        let e: usize = self.edge;
        if gap(line, e, -2, -1) > self.limit || gap(line, e, 1, 0) > self.limit {
            return false;
        }
        if gap(line, e, -1, 0) * 2 + gap(line, e, -2, 1) / 2 > self.blimit {
            return false;
        }
        if len >= 6 && (gap(line, e, -3, -2) > self.limit || gap(line, e, 2, 1) > self.limit) {
            return false;
        }
        !(len >= 8 && (gap(line, e, -4, -3) > self.limit || gap(line, e, 3, 2) > self.limit))
    }

    fn flat(&self, line: &Vec<i32>) -> (r: bool)
        requires
            self.inside(line@),
        ensures
            r == flat_near(line@, self@),
    {
        let len: i32 = self.length();
        let e: usize = self.edge;
        if self.size < 8 {
            return true;
        }
        if gap(line, e, -2, -1) > 1 || gap(line, e, 1, 0) > 1 || gap(line, e, -3, -1) > 1 || gap(
            line,
            e,
            2,
            0,
        ) > 1 {
            return false;
        }
        !(len >= 8 && (gap(line, e, -4, -1) > 1 || gap(line, e, 3, 0) > 1))
    }

    fn flat2(&self, line: &Vec<i32>) -> (r: bool)
        requires
            self.inside(line@),
        ensures
            r == flat_far(line@, self@),
    {
        let e: usize = self.edge;
        if self.size < 16 {
            return true;
        }
        gap(line, e, -7, -1) <= 1 && gap(line, e, 6, 0) <= 1 && gap(line, e, -6, -1) <= 1 && gap(
            line,
            e,
            5,
            0,
        ) <= 1 && gap(line, e, -5, -1) <= 1 && gap(line, e, 4, 0) <= 1
    }

    fn narrow_filter(&self, line: &Vec<i32>) -> (r: Vec<i32>)
        requires
            self.inside(line@),
        ensures
            r@ == narrow(line@, self@),
            r@.len() == line@.len(),
            pixels(line@) ==> pixels(r@),
    {
        proof {
            lemma_pow2i_values();
        }
        let e: usize = self.edge;
        let hev: bool = gap(line, e, -2, -1) > self.thresh || gap(line, e, 1, 0) > self.thresh;
        let p1: i32 = get_tap(line, e, -2);
        let p0: i32 = get_tap(line, e, -1);
        let q0: i32 = get_tap(line, e, 0);
        let q1: i32 = get_tap(line, e, 1);
        let base: i32 = if hev {
            clip3(p1 - q1, -128, 127)
        } else {
            0
        };
        let f: i32 = clip3(base + 3 * (q0 - p0), -128, 127);
        let f1: i32 = shr32(clip3(f + 4, -128, 127), 3);
        let f2: i32 = shr32(clip3(f + 3, -128, 127), 3);
        let mut out: Vec<i32> = copy_line(line);
        out[e] = clip3(q0 - f1, 0, 255);
        out[e - 1] = clip3(p0 + f2, 0, 255);
        if !hev {
            let g: i32 = if f1 >= 0 {
                shr32(f1 + 1, 1)
            } else {
                shr32(f1, 1)
            };
            assert(g == round_half_away(f1 as int, 1));
            if e < out.len() - 1 {
                out[e + 1] = clip3(q1 - g, 0, 255);
            }
            if e >= 2 {
                out[e - 2] = clip3(p1 + g, 0, 255);
            }
        }
        out
    }

    fn wide_filter(&self, line: &Vec<i32>) -> (r: Vec<i32>)
        requires
            self.inside(line@),
        ensures
            r@ == wide(line@, self@, 2 * wide_reach(wide_log2(line@, self@), self.luma)),
            r@.len() == line@.len(),
            pixels(line@) ==> pixels(r@),
    {
        proof {
            lemma_pow2i_values();
        }
        let ghost m = self@;
        let e: usize = self.edge;
        let far: bool = self.flat2(line);
        let log2: u32 = if self.size == 8 || !far {
            3
        } else {
            4
        };
        let n: i32 = if log2 == 4 {
            6
        } else if self.luma {
            3
        } else {
            2
        };
        let n2: i32 = if log2 == 3 && self.luma {
            0
        } else {
            1
        };
        let mut out: Vec<i32> = copy_line(line);
        let mut k: i32 = 0;
        while k < 2 * n
            invariant
                0 <= k <= 2 * n,
                2 <= n <= 6,
                0 <= n2 <= 1,
                m == self@,
                self.inside(line@),
                e == self.edge,
                log2 == wide_log2(line@, m),
                3 <= log2 <= 4,
                n == wide_reach(log2 as int, m.luma),
                n2 == wide_core(log2 as int, m.luma),
                out@ == wide(line@, m, k as int),
                out@.len() == line@.len(),
                pixels(line@) ==> pixels(out@),
                pow2i(2) == 4 && pow2i(3) == 8 && pow2i(4) == 16,
            decreases 2 * n - k,
        {
            let i: i32 = k - n;
            let mut t: i32 = 0;
            let mut c: i32 = 0;
            while c < 2 * n + 1
                invariant
                    0 <= c <= 2 * n + 1,
                    2 <= n <= 6,
                    0 <= n2 <= 1,
                    -n <= i < n,
                    self.inside(line@),
                    e == self.edge,
                    t == wide_sum(line@, e as int, n as int, n2 as int, i as int, c as int),
                    -0x800_0000 * c <= t <= 0x800_0000 * c,
                decreases 2 * n + 1 - c,
            {
                let j: i32 = c - n;
                let v: i32 = get_tap(line, e, clamp32(i + j, -(n + 1), n));
                if -n2 <= j && j <= n2 {
                    t = t + 2 * v;
                } else {
                    t = t + v;
                }
                c = c + 1;
            }
            let half: i32 = if log2 == 3 {
                4
            } else {
                8
            };
            let f: i32 = if t >= 0 {
                shr32(t + half, log2)
            } else {
                shr32(t + (half - 1), log2)
            };
            assert(f == round_half_away(t as int, log2 as int));
            let idx: usize = near(e, i, out.len());
            out[idx] = clip3(f, 0, 255);
            k = k + 1;
        }
        out
    }
}

/// A copy of a line.
fn copy_line(line: &Vec<i32>) -> (r: Vec<i32>)
    ensures
        r@ == line@,
{
    vstd::slice::slice_to_vec(line.as_slice())
}

/// Filters the line at the boundary between samples `edge - 1` and `edge`. A line
/// without such a boundary stays as it is.
pub fn filter_line_1d(
    line: &Vec<i32>,
    edge: usize,
    limit: i32,
    blimit: i32,
    thresh: i32,
    filter_size: usize,
    is_luma: bool,
) -> (r: Vec<i32>)
    requires
        summable(line@),
    ensures
        r@ == edge_filtered(
            line@,
            EdgeModel {
                edge: edge as int,
                limit: limit as int,
                blimit: blimit as int,
                thresh: thresh as int,
                size: filter_size as int,
                luma: is_luma,
            },
        ),
        r@.len() == line@.len(),
        pixels(line@) ==> pixels(r@),
        2 <= edge && edge + 2 <= line@.len() && (2 * absi(line@[edge as int] - line@[edge - 1])
            > blimit || absi(line@[edge - 2] - line@[edge - 1]) > limit || absi(
            line@[edge + 1] - line@[edge as int],
        ) > limit) ==> r@ == line@,
        2 <= edge && edge + 2 <= line@.len() && filter_size == 4 && pixels(line@) && absi(
            line@[edge - 2] - line@[edge - 1],
        ) <= thresh && absi(line@[edge + 1] - line@[edge as int]) <= thresh ==> {
            &&& line@[edge - 1] <= line@[edge as int] ==> line@[edge - 1] <= r@[edge - 1]
                <= r@[edge as int] <= line@[edge as int]
            &&& line@[edge - 1] >= line@[edge as int] ==> line@[edge - 1] >= r@[edge - 1]
                >= r@[edge as int] >= line@[edge as int]
        },
{
    proof {
        let e = EdgeModel {
            edge: edge as int,
            limit: limit as int,
            blimit: blimit as int,
            thresh: thresh as int,
            size: filter_size as int,
            luma: is_luma,
        };
        if 2 <= edge && edge + 2 <= line@.len() {
            if 2 * absi(line@[edge as int] - line@[edge - 1]) > blimit || absi(
                line@[edge - 2] - line@[edge - 1],
            ) > limit || absi(line@[edge + 1] - line@[edge as int]) > limit {
                crate::deblock_laws::law_large_steps_stay(line@, e);
            }
            if filter_size == 4 && pixels(line@) && !high_variance(line@, e) {
                crate::deblock_laws::law_narrow_closes_steps(line@, e);
            }
        }
        reveal(edge_filtered);
    }
    if edge == 0 || edge >= line.len() {
        return copy_line(line);
    }
    let e: Edge = Edge { edge, limit, blimit, thresh, size: filter_size, luma: is_luma };
    if !e.mask(line) {
        return copy_line(line);
    }
    if filter_size == 4 || !e.flat(line) {
        e.narrow_filter(line)
    } else {
        e.wide_filter(line)
    }
}

// ---------------------------------------------------------------------------
// Planes
// ---------------------------------------------------------------------------

/// How a plane is deblocked: its size, its block grid with transform sizes, and the
/// level of each pass.
pub struct DeblockModel {
    pub w: int,
    pub h: int,
    /// The side of a block in samples, 4 or 8.
    pub step: int,
    pub plane: int,
    pub grid_w: int,
    pub grid_h: int,
    pub tx_w: Seq<u8>,
    pub tx_h: Seq<u8>,
    pub level_v: int,
    pub level_h: int,
    pub sharpness: int,
}

/// The block that a sample belongs to along a side.
pub open spec fn block_index(step: int, i: int) -> int {
    if step == 8 {
        i / 8
    } else {
        i / 4
    }
}

/// The start of block `b` along a side.
pub open spec fn block_start(step: int, b: int) -> int {
    if step == 8 {
        b * 8
    } else {
        b * 4
    }
}

/// The smaller of two transform sizes.
pub open spec fn min_tx(a: u8, b: u8) -> int {
    if a <= b {
        a as int
    } else {
        b as int
    }
}

/// How the edge at sample `edge` between two transforms is filtered at a level.
pub open spec fn edge_between(m: DeblockModel, level: int, edge: int, a: u8, b: u8) -> EdgeModel {
    EdgeModel {
        edge,
        limit: limit_of(level, m.sharpness),
        blimit: 2 * (level + 2) + limit_of(level, m.sharpness),
        thresh: level / 16,
        size: filter_size_of(min_tx(a, b), m.plane),
        luma: m.plane == 0,
    }
}

/// A row in block row `by` after its first `k` vertical edges are filtered.
pub open spec fn row_filtered(line: Seq<i32>, m: DeblockModel, by: int, k: int) -> Seq<i32>
    decreases k,
{
    if k <= 0 {
        line
    } else {
        let prev = row_filtered(line, m, by, k - 1);
        let edge = block_start(m.step, k);
        if edge >= m.w {
            prev
        } else {
            edge_filtered(
                prev,
                edge_between(
                    m,
                    m.level_v,
                    edge,
                    m.tx_w[by * m.grid_w + (k - 1)],
                    m.tx_w[by * m.grid_w + k],
                ),
            )
        }
    }
}

/// A column in block column `bx` after its first `k` horizontal edges are filtered.
pub open spec fn column_filtered(line: Seq<i32>, m: DeblockModel, bx: int, k: int) -> Seq<i32>
    decreases k,
{
    if k <= 0 {
        line
    } else {
        let prev = column_filtered(line, m, bx, k - 1);
        let edge = block_start(m.step, k);
        if edge >= m.h {
            prev
        } else {
            edge_filtered(
                prev,
                edge_between(
                    m,
                    m.level_h,
                    edge,
                    m.tx_h[(k - 1) * m.grid_w + bx],
                    m.tx_h[k * m.grid_w + bx],
                ),
            )
        }
    }
}

/// The rows of a plane after the vertical edges of the first `n` rows are filtered.
pub open spec fn rows_deblocked(g: Seq<Seq<i32>>, m: DeblockModel, n: int) -> Seq<Seq<i32>>
    decreases n,
{
    if n <= 0 {
        g
    } else {
        let prev = rows_deblocked(g, m, n - 1);
        let by = block_index(m.step, n - 1);
        if m.level_v == 0 || by >= m.grid_h {
            prev
        } else {
            prev.update(n - 1, row_filtered(prev[n - 1], m, by, m.grid_w - 1))
        }
    }
}

/// The rows of a plane after the horizontal edges of the first `n` columns are
/// filtered.
pub open spec fn columns_deblocked(g: Seq<Seq<i32>>, m: DeblockModel, n: int) -> Seq<Seq<i32>>
    decreases n,
{
    if n <= 0 {
        g
    } else {
        let prev = columns_deblocked(g, m, n - 1);
        let bx = block_index(m.step, n - 1);
        if m.level_h == 0 || bx >= m.grid_w {
            prev
        } else {
            with_column(
                prev,
                n - 1,
                column_filtered(column(prev, n - 1), m, bx, m.grid_h - 1),
            )
        }
    }
}

/// The rows of a deblocked plane.
#[verifier::opaque]
pub open spec fn deblocked(g: Seq<Seq<i32>>, m: DeblockModel) -> Seq<Seq<i32>> {
    columns_deblocked(rows_deblocked(g, m, m.h), m, m.w)
}

/// Filters one row at its vertical edges.
fn deblock_row(
    line: Vec<i32>,
    step: usize,
    plane_index: usize,
    tx_w_grid: &Vec<u8>,
    grid_w: usize,
    grid_h: usize,
    by: usize,
    lp: &LevelParams,
    Ghost(m): Ghost<DeblockModel>,
) -> (r: Vec<i32>)
    requires
        line@.len() == m.w,
        0 <= m.w <= 0x1_0000,
        pixels(line@),
        step == m.step,
        step == 4 || step == 8,
        plane_index == m.plane,
        grid_w == m.grid_w,
        grid_h == m.grid_h,
        grid_w <= 0x4000,
        by < grid_h,
        tx_w_grid@ == m.tx_w,
        m.tx_w.len() == grid_w * grid_h,
        lp.limit == limit_of(m.level_v, m.sharpness),
        lp.blimit == 2 * (m.level_v + 2) + limit_of(m.level_v, m.sharpness),
        lp.thresh == m.level_v / 16,
    ensures
        r@ == row_filtered(line@, m, by as int, grid_w - 1),
        r@.len() == line@.len(),
        pixels(r@),
{
    let ghost line0 = line@;
    let width: usize = line.len();
    let mut cur: Vec<i32> = line;
    let mut bx: usize = 1;
    while bx < grid_w
        invariant
            1 <= bx,
            bx <= grid_w || bx == 1,
            width == m.w,
            0 <= m.w <= 0x1_0000,
            cur@.len() == m.w,
            pixels(cur@),
            step == m.step,
            step == 4 || step == 8,
            plane_index == m.plane,
            grid_w == m.grid_w,
            grid_h == m.grid_h,
            grid_w <= 0x4000,
            by < grid_h,
            tx_w_grid@ == m.tx_w,
            m.tx_w.len() == grid_w * grid_h,
            lp.limit == limit_of(m.level_v, m.sharpness),
            lp.blimit == 2 * (m.level_v + 2) + limit_of(m.level_v, m.sharpness),
            lp.thresh == m.level_v / 16,
            cur@ == row_filtered(line0, m, by as int, bx - 1),
        decreases grid_w - bx,
    {
        let edge: usize = if step == 8 {
            bx * 8
        } else {
            bx * 4
        };
        if edge < width {
            proof {
                lemma_block_cell(grid_w as int, grid_h as int, by as int, bx as int);
                lemma_block_cell(grid_w as int, grid_h as int, by as int, bx - 1);
                assert(tx_w_grid.len() <= usize::MAX);
            }
            let left_tx: u8 = tx_w_grid[by * grid_w + (bx - 1)];
            let right_tx: u8 = tx_w_grid[by * grid_w + bx];
            let least: u8 = if left_tx <= right_tx {
                left_tx
            } else {
                right_tx
            };
            let size: usize = filter_size_from_tx_samples(least as usize, plane_index);
            cur =
            filter_line_1d(&cur, edge, lp.limit, lp.blimit, lp.thresh, size, plane_index == 0);
        }
        bx = bx + 1;
    }
    proof {
        if grid_w == 0 {
            assert(cur@ == row_filtered(line0, m, by as int, 0));
        }
    }
    cur
}

/// Filters one column at its horizontal edges.
fn deblock_column(
    line: Vec<i32>,
    step: usize,
    plane_index: usize,
    tx_h_grid: &Vec<u8>,
    grid_w: usize,
    grid_h: usize,
    bx: usize,
    lp: &LevelParams,
    Ghost(m): Ghost<DeblockModel>,
) -> (r: Vec<i32>)
    requires
        line@.len() == m.h,
        0 <= m.h <= 0x1_0000,
        pixels(line@),
        step == m.step,
        step == 4 || step == 8,
        plane_index == m.plane,
        grid_w == m.grid_w,
        grid_h == m.grid_h,
        grid_h <= 0x4000,
        bx < grid_w,
        tx_h_grid@ == m.tx_h,
        m.tx_h.len() == grid_w * grid_h,
        lp.limit == limit_of(m.level_h, m.sharpness),
        lp.blimit == 2 * (m.level_h + 2) + limit_of(m.level_h, m.sharpness),
        lp.thresh == m.level_h / 16,
    ensures
        r@ == column_filtered(line@, m, bx as int, grid_h - 1),
        r@.len() == line@.len(),
        pixels(r@),
{
    let ghost line0 = line@;
    let height: usize = line.len();
    let mut cur: Vec<i32> = line;
    let mut by: usize = 1;
    while by < grid_h
        invariant
            1 <= by,
            by <= grid_h || by == 1,
            height == m.h,
            0 <= m.h <= 0x1_0000,
            cur@.len() == m.h,
            pixels(cur@),
            step == m.step,
            step == 4 || step == 8,
            plane_index == m.plane,
            grid_w == m.grid_w,
            grid_h == m.grid_h,
            grid_h <= 0x4000,
            bx < grid_w,
            tx_h_grid@ == m.tx_h,
            m.tx_h.len() == grid_w * grid_h,
            lp.limit == limit_of(m.level_h, m.sharpness),
            lp.blimit == 2 * (m.level_h + 2) + limit_of(m.level_h, m.sharpness),
            lp.thresh == m.level_h / 16,
            cur@ == column_filtered(line0, m, bx as int, by - 1),
        decreases grid_h - by,
    {
        let edge: usize = if step == 8 {
            by * 8
        } else {
            by * 4
        };
        if edge < height {
            proof {
                lemma_block_cell(grid_w as int, grid_h as int, by as int, bx as int);
                lemma_block_cell(grid_w as int, grid_h as int, by - 1, bx as int);
                assert(tx_h_grid.len() <= usize::MAX);
            }
            let top_tx: u8 = tx_h_grid[(by - 1) * grid_w + bx];
            let bot_tx: u8 = tx_h_grid[by * grid_w + bx];
            let least: u8 = if top_tx <= bot_tx {
                top_tx
            } else {
                bot_tx
            };
            let size: usize = filter_size_from_tx_samples(least as usize, plane_index);
            cur =
            filter_line_1d(&cur, edge, lp.limit, lp.blimit, lp.thresh, size, plane_index == 0);
        }
        by = by + 1;
    }
    proof {
        if grid_h == 0 {
            assert(cur@ == column_filtered(line0, m, bx as int, 0));
        }
    }
    cur
}

/// The model of a deblocked plane of a frame.
pub open spec fn deblock_model(
    w: int,
    h: int,
    step: int,
    plane: int,
    tx_w: Seq<u8>,
    tx_h: Seq<u8>,
    grid_w: int,
    grid_h: int,
    fh: FrameHeader,
) -> DeblockModel {
    DeblockModel {
        w,
        h,
        step,
        plane,
        grid_w,
        grid_h,
        tx_w,
        tx_h,
        level_v: level_of(fh, plane, 0),
        level_h: level_of(fh, plane, 1),
        sharpness: fh.loop_filter_sharpness as int,
    }
}

/// Deblocks one plane. `step` is the side of a block in samples.
pub fn deblock_plane(
    plane: &mut [u8],
    width: usize,
    height: usize,
    step: usize,
    plane_index: usize,
    tx_w_grid: &Vec<u8>,
    tx_h_grid: &Vec<u8>,
    grid_w: usize,
    grid_h: usize,
    fh: &FrameHeader,
)
    requires
        old(plane)@.len() == width * height,
        width <= 0x1_0000,
        height <= 0x1_0000,
        step == 4 || step == 8,
        plane_index < 3,
        grid_w <= 0x4000,
        grid_h <= 0x4000,
        tx_w_grid@.len() == grid_w * grid_h,
        tx_h_grid@.len() == grid_w * grid_h,
    ensures
        final(plane)@.len() == old(plane)@.len(),
        grid_of(final(plane)@, width as int, height as int) == deblocked(
            grid_of(old(plane)@, width as int, height as int),
            deblock_model(
                width as int,
                height as int,
                step as int,
                plane_index as int,
                tx_w_grid@,
                tx_h_grid@,
                grid_w as int,
                grid_h as int,
                *fh,
            ),
        ),
{
    let ghost m = deblock_model(
        width as int,
        height as int,
        step as int,
        plane_index as int,
        tx_w_grid@,
        tx_h_grid@,
        grid_w as int,
        grid_h as int,
        *fh,
    );
    let ghost wi = width as int;
    let ghost hi = height as int;
    let ghost g0 = grid_of(plane@, wi, hi);
    proof {
        reveal(deblocked);
    }
    let level_v: i32 = compute_level(fh, plane_index, 0);
    let level_h: i32 = compute_level(fh, plane_index, 1);
    let lv: LevelParams = level_params(level_v, fh.loop_filter_sharpness);
    let lh: LevelParams = level_params(level_h, fh.loop_filter_sharpness);
    let mut y: usize = 0;
    while y < height
        invariant
            y <= height,
            wi == width,
            hi == height,
            width <= 0x1_0000,
            height <= 0x1_0000,
            plane@.len() == width * height,
            step == 4 || step == 8,
            step == m.step,
            plane_index == m.plane,
            grid_w == m.grid_w,
            grid_h == m.grid_h,
            grid_w <= 0x4000,
            tx_w_grid@ == m.tx_w,
            m.tx_w.len() == grid_w * grid_h,
            m.w == width,
            level_v == m.level_v,
            lv.limit == limit_of(m.level_v, m.sharpness),
            lv.blimit == 2 * (m.level_v + 2) + limit_of(m.level_v, m.sharpness),
            lv.thresh == m.level_v / 16,
            grid_of(plane@, wi, hi) == rows_deblocked(g0, m, y as int),
        decreases height - y,
    {
        let by: usize = if step == 8 {
            y / 8
        } else {
            y / 4
        };
        if level_v != 0 && by < grid_h {
            let line: Vec<i32> = read_row(plane, width, height, y);
            let out: Vec<i32> = deblock_row(
                line,
                step,
                plane_index,
                tx_w_grid,
                grid_w,
                grid_h,
                by,
                &lv,
                Ghost(m),
            );
            write_row(plane, width, height, y, &out);
        }
        y = y + 1;
    }
    let ghost g1 = grid_of(plane@, wi, hi);
    let mut x: usize = 0;
    while x < width
        invariant
            x <= width,
            wi == width,
            hi == height,
            width <= 0x1_0000,
            height <= 0x1_0000,
            plane@.len() == width * height,
            step == 4 || step == 8,
            step == m.step,
            plane_index == m.plane,
            grid_w == m.grid_w,
            grid_h == m.grid_h,
            grid_h <= 0x4000,
            tx_h_grid@ == m.tx_h,
            m.tx_h.len() == grid_w * grid_h,
            m.h == height,
            level_h == m.level_h,
            lh.limit == limit_of(m.level_h, m.sharpness),
            lh.blimit == 2 * (m.level_h + 2) + limit_of(m.level_h, m.sharpness),
            lh.thresh == m.level_h / 16,
            grid_of(plane@, wi, hi) == columns_deblocked(g1, m, x as int),
        decreases width - x,
    {
        let bx: usize = if step == 8 {
            x / 8
        } else {
            x / 4
        };
        if level_h != 0 && bx < grid_w {
            let line: Vec<i32> = read_column(plane, width, height, x);
            let out: Vec<i32> = deblock_column(
                line,
                step,
                plane_index,
                tx_h_grid,
                grid_w,
                grid_h,
                bx,
                &lh,
                Ghost(m),
            );
            write_column(plane, width, height, x, &out);
        }
        x = x + 1;
    }
}

// ---------------------------------------------------------------------------
// The chain of filters
// ---------------------------------------------------------------------------

/// The directional enhancement filter runs on the frame.
pub open spec fn cdef_runs(fh: FrameHeader) -> bool {
    fh.enable_cdef && !fh.coded_lossless && fh.cdef_y_strength@.len() > 0
}

/// The first of a list of strengths, zero where there is none.
pub open spec fn first_strength(s: Seq<u8>) -> int {
    if s.len() > 0 {
        s[0] as int
    } else {
        0
    }
}

/// How a plane is enhanced at a packed strength: four bits along the direction, two
/// beside it.
pub open spec fn enhancement(
    w: int,
    h: int,
    sub_x: bool,
    sub_y: bool,
    packed: int,
    damping: int,
) -> CdefPass {
    CdefPass { w, h, sub_x, sub_y, pri: packed % 16, sec: ((packed / 16) % 4) * 16, damping }
}

/// The rows of a plane behind all filters.
pub open spec fn post_filtered(
    g: Seq<Seq<i32>>,
    d: DeblockModel,
    runs: bool,
    c: CdefPass,
) -> Seq<Seq<i32>> {
    if runs {
        cdef_filtered(deblocked(g, d), c)
    } else {
        deblocked(g, d)
    }
}

/// Half of a size, where it is halved.
pub open spec fn halved(n: int, sub: bool) -> int {
    if sub {
        n / 2
    } else {
        n
    }
}

fn half(n: usize, sub: bool) -> (r: usize)
    ensures
        r == halved(n as int, sub),
{
    if sub {
        n / 2
    } else {
        n
    }
}

/// The first strength of a list, along the direction and beside it.
fn strengths(s: &Vec<u8>) -> (r: (i32, i32))
    ensures
        r.0 == first_strength(s@) % 16,
        r.1 == ((first_strength(s@) / 16) % 4) * 16,
        0 <= r.0 < 16,
        0 <= r.1 <= 48,
{
    let packed: i32 = if s.len() > 0 {
        s[0] as i32
    } else {
        0
    };
    (packed % 16, ((packed / 16) % 4) * 16)
}

/// Runs the filters behind reconstruction on the planes of a frame: deblocking, then
/// directional enhancement where the frame asks for it. Restoration leaves the planes
/// as they are.
pub fn apply_post_filters(
    y_plane: &mut [u8],
    u_plane: &mut [u8],
    v_plane: &mut [u8],
    width: usize,
    height: usize,
    subsampling_x: bool,
    subsampling_y: bool,
    meta: &FrameMeta,
    fh: &FrameHeader,
    seq: &SequenceHeaderObu,
) -> (r: Result<(), KinetixError>)
    requires
        width <= 0x1_0000,
        height <= 0x1_0000,
        old(y_plane)@.len() == width * height,
        old(u_plane)@.len() == halved(width as int, subsampling_x) * halved(
            height as int,
            subsampling_y,
        ),
        old(v_plane)@.len() == old(u_plane)@.len(),
        meta.wf(),
        meta.w8 <= 0x4000,
        meta.h8 <= 0x4000,
        fh.cdef_damping < 31,
    ensures
        r == Ok::<(), KinetixError>(()),
        final(y_plane)@.len() == old(y_plane)@.len(),
        final(u_plane)@.len() == old(u_plane)@.len(),
        final(v_plane)@.len() == old(v_plane)@.len(),
        grid_of(final(y_plane)@, width as int, height as int) == luma_filtered(
            grid_of(old(y_plane)@, width as int, height as int),
            width as int,
            height as int,
            meta@,
            *fh,
        ),
        ({
            let w = halved(width as int, subsampling_x);
            let h = halved(height as int, subsampling_y);
            &&& grid_of(final(u_plane)@, w, h) == chroma_filtered(
                grid_of(old(u_plane)@, w, h),
                1,
                w,
                h,
                subsampling_x,
                subsampling_y,
                meta@,
                *fh,
            )
            &&& grid_of(final(v_plane)@, w, h) == chroma_filtered(
                grid_of(old(v_plane)@, w, h),
                2,
                w,
                h,
                subsampling_x,
                subsampling_y,
                meta@,
                *fh,
            )
        }),
{
    proof {
        lemma_cells(*meta);
    }
    let uv_w: usize = half(width, subsampling_x);
    let uv_h: usize = half(height, subsampling_y);
    deblock_plane(
        y_plane,
        width,
        height,
        8,
        0,
        &meta.luma_tx_w,
        &meta.luma_tx_h,
        meta.w8,
        meta.h8,
        fh,
    );
    deblock_plane(u_plane, uv_w, uv_h, 4, 1, &meta.u_tx_w, &meta.u_tx_h, meta.w8, meta.h8, fh);
    deblock_plane(v_plane, uv_w, uv_h, 4, 2, &meta.v_tx_w, &meta.v_tx_h, meta.w8, meta.h8, fh);
    if fh.enable_cdef && !fh.coded_lossless && fh.cdef_y_strength.len() > 0 {
        let damping: i32 = fh.cdef_damping as i32;
        let luma: (i32, i32) = strengths(&fh.cdef_y_strength);
        cdef_plane_luma(y_plane, width, height, luma.0, luma.1, damping);
        let chroma: (i32, i32) = strengths(&fh.cdef_uv_strength);
        cdef_plane_chroma(
            u_plane,
            uv_w,
            uv_h,
            subsampling_x,
            subsampling_y,
            chroma.0,
            chroma.1,
            damping,
        );
        cdef_plane_chroma(
            v_plane,
            uv_w,
            uv_h,
            subsampling_x,
            subsampling_y,
            chroma.0,
            chroma.1,
            damping,
        );
    }
    Ok(())
}

/// The transform widths that the metadata hold for a plane.
pub open spec fn cell_widths(m: MetaModel, plane: int) -> Seq<u8> {
    Seq::new(
        m.cells.len(),
        |i: int|
            if plane == 0 {
                m.cells[i].luma_w
            } else if plane == 1 {
                m.cells[i].u_w
            } else {
                m.cells[i].v_w
            },
    )
}

/// The transform heights that the metadata hold for a plane.
pub open spec fn cell_heights(m: MetaModel, plane: int) -> Seq<u8> {
    Seq::new(
        m.cells.len(),
        |i: int|
            if plane == 0 {
                m.cells[i].luma_h
            } else if plane == 1 {
                m.cells[i].u_h
            } else {
                m.cells[i].v_h
            },
    )
}

proof fn lemma_cells(meta: FrameMeta)
    requires
        meta.wf(),
    ensures
        meta.luma_tx_w@ == cell_widths(meta@, 0),
        meta.luma_tx_h@ == cell_heights(meta@, 0),
        meta.u_tx_w@ == cell_widths(meta@, 1),
        meta.u_tx_h@ == cell_heights(meta@, 1),
        meta.v_tx_w@ == cell_widths(meta@, 2),
        meta.v_tx_h@ == cell_heights(meta@, 2),
{
    assert(meta.luma_tx_w@ =~= cell_widths(meta@, 0));
    assert(meta.luma_tx_h@ =~= cell_heights(meta@, 0));
    assert(meta.u_tx_w@ =~= cell_widths(meta@, 1));
    assert(meta.u_tx_h@ =~= cell_heights(meta@, 1));
    assert(meta.v_tx_w@ =~= cell_widths(meta@, 2));
    assert(meta.v_tx_h@ =~= cell_heights(meta@, 2));
}

/// The rows of a luma plane behind all filters.
pub open spec fn luma_filtered(
    g: Seq<Seq<i32>>,
    w: int,
    h: int,
    meta: MetaModel,
    fh: FrameHeader,
) -> Seq<Seq<i32>> {
    post_filtered(
        g,
        deblock_model(
            w,
            h,
            8,
            0,
            cell_widths(meta, 0),
            cell_heights(meta, 0),
            meta.w8,
            meta.h8,
            fh,
        ),
        cdef_runs(fh),
        enhancement(
            w,
            h,
            false,
            false,
            first_strength(fh.cdef_y_strength@),
            fh.cdef_damping as int,
        ),
    )
}

/// The rows of a chroma plane behind all filters.
pub open spec fn chroma_filtered(
    g: Seq<Seq<i32>>,
    plane: int,
    w: int,
    h: int,
    sub_x: bool,
    sub_y: bool,
    meta: MetaModel,
    fh: FrameHeader,
) -> Seq<Seq<i32>> {
    post_filtered(
        g,
        deblock_model(
            w,
            h,
            4,
            plane,
            cell_widths(meta, plane),
            cell_heights(meta, plane),
            meta.w8,
            meta.h8,
            fh,
        ),
        cdef_runs(fh),
        enhancement(
            w,
            h,
            sub_x,
            sub_y,
            first_strength(fh.cdef_uv_strength@),
            fh.cdef_damping as int,
        ),
    )
}

// ---------------------------------------------------------------------------
// Laws
// ---------------------------------------------------------------------------

/// A level of zero in both passes leaves a plane as it is.
pub proof fn law_level_zero(g: Seq<Seq<i32>>, m: DeblockModel)
    requires
        m.level_v == 0,
        m.level_h == 0,
    ensures
        deblocked(g, m) == g,
{
    reveal(deblocked);
    lemma_rows_still(g, m, m.h);
    lemma_columns_still(g, m, m.w);
}

proof fn lemma_rows_still(g: Seq<Seq<i32>>, m: DeblockModel, n: int)
    requires
        m.level_v == 0,
    ensures
        rows_deblocked(g, m, n) == g,
    decreases n,
{
    if n > 0 {
        lemma_rows_still(g, m, n - 1);
    }
}

proof fn lemma_columns_still(g: Seq<Seq<i32>>, m: DeblockModel, n: int)
    requires
        m.level_h == 0,
    ensures
        columns_deblocked(g, m, n) == g,
    decreases n,
{
    if n > 0 {
        lemma_columns_still(g, m, n - 1);
    }
}

/// A frame whose filter levels are zero and that is not enhanced, or enhanced at no
/// strength, leaves the luma plane as it is.
pub proof fn law_unfiltered_luma(g: Seq<Seq<i32>>, w: int, h: int, meta: MetaModel, fh: FrameHeader)
    requires
        0 <= w,
        0 <= h,
        byte_grid(g, w, h),
        level_of(fh, 0, 0) == 0,
        level_of(fh, 0, 1) == 0,
        !cdef_runs(fh) || fh.cdef_y_strength@[0] == 0,
    ensures
        luma_filtered(g, w, h, meta, fh) == g,
{
    let d = deblock_model(
        w,
        h,
        8,
        0,
        cell_widths(meta, 0),
        cell_heights(meta, 0),
        meta.w8,
        meta.h8,
        fh,
    );
    law_level_zero(g, d);
    if cdef_runs(fh) {
        law_zero_strength(
            g,
            enhancement(
                w,
                h,
                false,
                false,
                first_strength(fh.cdef_y_strength@),
                fh.cdef_damping as int,
            ),
        );
    }
}

/// The weights of the first `k` samples of the wide filter, added up.
pub open spec fn wide_weight(n: int, n2: int, k: int) -> int
    decreases k,
{
    if k <= 0 {
        0
    } else {
        wide_weight(n, n2, k - 1) + if absi(k - 1 - n) <= n2 {
            2int
        } else {
            1
        }
    }
}

/// The weights of the wide filter add up to a power of two.
pub proof fn law_wide_weights(log2: int, luma: bool)
    requires
        log2 == 3 || log2 == 4,
    ensures
        wide_weight(wide_reach(log2, luma), wide_core(log2, luma), 2 * wide_reach(log2, luma) + 1)
            == pow2i(log2),
{
    reveal_with_fuel(wide_weight, 14);
    lemma_pow2i_values();
}

/// Every sample of the line is `c`.
pub open spec fn flat_line(line: Seq<i32>, c: int) -> bool {
    forall|i: int| 0 <= i < line.len() ==> #[trigger] line[i] == c
}

proof fn lemma_flat_sum(line: Seq<i32>, c: int, edge: int, n: int, n2: int, i: int, k: int)
    requires
        line.len() > 0,
        flat_line(line, c),
        0 <= k,
    ensures
        wide_sum(line, edge, n, n2, i, k) == c * wide_weight(n, n2, k),
    decreases k,
{
    if k > 0 {
        lemma_flat_sum(line, c, edge, n, n2, i, k - 1);
        let t = if absi(k - 1 - n) <= n2 {
            2int
        } else {
            1
        };
        assert(c * (wide_weight(n, n2, k - 1) + t) == c * wide_weight(n, n2, k - 1) + c * t)
            by (nonlinear_arith);
    } else {
        assert(c * 0 == 0);
    }
}

proof fn lemma_flat_wide(line: Seq<i32>, c: int, e: EdgeModel, k: int)
    requires
        line.len() > 0,
        flat_line(line, c),
        0 <= c <= 255,
        0 <= k,
    ensures
        wide(line, e, k) == line,
    decreases k,
{
    if k > 0 {
        lemma_flat_wide(line, c, e, k - 1);
        let log2 = wide_log2(line, e);
        let n = wide_reach(log2, e.luma);
        let n2 = wide_core(log2, e.luma);
        let i = k - 1 - n;
        lemma_flat_sum(line, c, e.edge, n, n2, i, 2 * n + 1);
        law_wide_weights(log2, e.luma);
        lemma_pow2i_values();
        assert(round_half_away(wide_sum(line, e.edge, n, n2, i, 2 * n + 1), log2) == c);
        assert(wide(line, e, k) =~= line);
    }
}

/// A line of equal samples stays as it is, whatever the limits.
pub proof fn law_flat_line(line: Seq<i32>, c: int, e: EdgeModel)
    requires
        flat_line(line, c),
        0 <= c <= 255,
    ensures
        edge_filtered(line, e) == line,
{
    reveal(edge_filtered);
    if 0 < e.edge < line.len() {
        lemma_pow2i_values();
        lemma_flat_wide(line, c, e, 2 * wide_reach(wide_log2(line, e), e.luma));
        assert(round_half_away(0, 1) == 0);
        assert(narrow(line, e) =~= line);
    }
}

/// How far on each side of the edge the filter of a line moves samples.
pub open spec fn reach_of(line: Seq<i32>, e: EdgeModel) -> int {
    let r = wide_reach(wide_log2(line, e), e.luma);
    if r < 2 {
        2
    } else {
        r
    }
}

proof fn lemma_wide_reach(line: Seq<i32>, e: EdgeModel, k: int, i: int)
    requires
        0 <= i < line.len(),
        0 < e.edge < line.len(),
        0 <= k <= 2 * wide_reach(wide_log2(line, e), e.luma),
        i < e.edge - wide_reach(wide_log2(line, e), e.luma) || i >= e.edge + wide_reach(
            wide_log2(line, e),
            e.luma,
        ),
    ensures
        wide(line, e, k).len() == line.len(),
        wide(line, e, k)[i] == line[i],
    decreases k,
{
    if k > 0 {
        lemma_wide_reach(line, e, k - 1, i);
    }
}

/// No sample farther from the edge than the filter reaches moves: at most six on each
/// side, three where the transforms are of eight samples, and then two for chroma.
pub proof fn law_filter_reach(line: Seq<i32>, e: EdgeModel, i: int)
    requires
        0 <= i < line.len(),
        i < e.edge - reach_of(line, e) || i >= e.edge + reach_of(line, e),
    ensures
        edge_filtered(line, e)[i] == line[i],
        reach_of(line, e) <= 6,
        e.size == 8 ==> reach_of(line, e) <= 3,
        e.size == 8 && !e.luma ==> reach_of(line, e) == 2,
{
    reveal(edge_filtered);
    if 0 < e.edge < line.len() {
        lemma_wide_reach(line, e, 2 * wide_reach(wide_log2(line, e), e.luma), i);
    }
}

// ---------------------------------------------------------------------------
// Records
// ---------------------------------------------------------------------------

impl MetaModel {
    /// The grid has a cell for every block.
    pub open spec fn whole(self) -> bool {
        &&& 0 <= self.w8
        &&& 0 <= self.h8
        &&& self.cells.len() == self.w8 * self.h8
    }
}

proof fn lemma_grid_index(w: int, h: int, x: int, y: int)
    requires
        0 <= x < w,
        0 <= y < h,
    ensures
        0 <= y * w + x < w * h,
{
    lemma_block_cell(w, h, y, x);
}

/// The order of two luma records does not matter.
pub proof fn law_luma_records_commute(
    m: MetaModel,
    x1: int,
    y1: int,
    w1: u8,
    h1: u8,
    s1: bool,
    x2: int,
    y2: int,
    w2: u8,
    h2: u8,
    s2: bool,
)
    requires
        m.whole(),
        0 <= x1,
        0 <= y1,
        0 <= x2,
        0 <= y2,
    ensures
        luma_recorded(luma_recorded(m, x1, y1, w1, h1, s1), x2, y2, w2, h2, s2) == luma_recorded(
            luma_recorded(m, x2, y2, w2, h2, s2),
            x1,
            y1,
            w1,
            h1,
            s1,
        ),
{
    if x1 < m.w8 && y1 < m.h8 {
        lemma_grid_index(m.w8, m.h8, x1, y1);
    }
    if x2 < m.w8 && y2 < m.h8 {
        lemma_grid_index(m.w8, m.h8, x2, y2);
    }
    let a = luma_recorded(luma_recorded(m, x1, y1, w1, h1, s1), x2, y2, w2, h2, s2);
    let b = luma_recorded(luma_recorded(m, x2, y2, w2, h2, s2), x1, y1, w1, h1, s1);
    assert(a.cells =~= b.cells);
}

/// A luma record that is repeated changes nothing.
pub proof fn law_luma_record_repeats(m: MetaModel, x: int, y: int, w: u8, h: u8, skip: bool)
    requires
        m.whole(),
        0 <= x,
        0 <= y,
    ensures
        luma_recorded(luma_recorded(m, x, y, w, h, skip), x, y, w, h, skip) == luma_recorded(
            m,
            x,
            y,
            w,
            h,
            skip,
        ),
{
    if x < m.w8 && y < m.h8 {
        lemma_grid_index(m.w8, m.h8, x, y);
    }
    let a = luma_recorded(m, x, y, w, h, skip);
    assert(luma_recorded(a, x, y, w, h, skip).cells =~= a.cells);
}

/// A block with the records of another one. Both chroma planes take the record of the
/// first.
pub open spec fn merged(c: CellModel, s: CellModel) -> CellModel {
    with_chroma(with_luma(c, s.luma_w, s.luma_h, s.luma_skip), s.u_w, s.u_h, s.u_skip)
}

/// Block `x`, `y` of a grid lies under a grid of `w` by `h` blocks laid at `ox`, `oy`.
pub open spec fn under(x: int, y: int, ox: int, oy: int, w: int, h: int) -> bool {
    ox <= x < ox + w && oy <= y < oy + h
}

proof fn lemma_merged_cell(
    m: MetaModel,
    s: MetaModel,
    ox: int,
    oy: int,
    n: int,
    x: int,
    y: int,
)
    requires
        m.whole(),
        s.whole(),
        0 <= ox,
        0 <= oy,
        0 <= n <= s.w8 * s.h8,
        0 <= x < m.w8,
        0 <= y < m.h8,
    ensures
        ({
            let p = tile_merged(m, s, ox, oy, n);
            let k = (y - oy) * s.w8 + (x - ox);
            &&& p.w8 == m.w8
            &&& p.h8 == m.h8
            &&& p.cells.len() == m.cells.len()
            &&& p.cells[y * m.w8 + x] == if under(x, y, ox, oy, s.w8, s.h8) && k < n {
                merged(m.cells[y * m.w8 + x], s.cells[k])
            } else {
                m.cells[y * m.w8 + x]
            }
        }),
    decreases n,
{
    lemma_grid_index(m.w8, m.h8, x, y);
    if n > 0 {
        lemma_merged_cell(m, s, ox, oy, n - 1, x, y);
        assert(s.w8 > 0) by (nonlinear_arith)
            requires
                0 < n <= s.w8 * s.h8,
                0 <= s.w8,
                0 <= s.h8,
        ;
        let c = (n - 1) % s.w8;
        let r = (n - 1) / s.w8;
        vstd::arithmetic::div_mod::lemma_fundamental_div_mod(n - 1, s.w8);
        vstd::arithmetic::div_mod::lemma_mod_bound(n - 1, s.w8);
        assert(s.w8 * r == r * s.w8) by (nonlinear_arith);
        assert(0 <= r < s.h8) by (nonlinear_arith)
            requires
                n - 1 == s.w8 * r + c,
                0 <= c < s.w8,
                0 <= n - 1 < s.w8 * s.h8,
        ;
        let bx = c + ox;
        let by = r + oy;
        if bx < m.w8 && by < m.h8 {
            lemma_grid_index(m.w8, m.h8, bx, by);
            if by * m.w8 + bx == y * m.w8 + x {
                lemma_cell_unique(m.w8, by, bx, y, x);
            }
        }
        if under(x, y, ox, oy, s.w8, s.h8) && (y - oy) * s.w8 + (x - ox) == n - 1 {
            lemma_cell_unique(s.w8, y - oy, x - ox, r, c);
        }
    }
}

/// Merging a grid acts block by block: a block under the grid takes its records, any
/// other stays as it is.
pub proof fn law_merge_by_cell(m: MetaModel, s: MetaModel, ox: int, oy: int, x: int, y: int)
    requires
        m.whole(),
        s.whole(),
        0 <= ox,
        0 <= oy,
        0 <= x < m.w8,
        0 <= y < m.h8,
    ensures
        ({
            let p = tile_merged(m, s, ox, oy, s.w8 * s.h8);
            &&& p.w8 == m.w8
            &&& p.h8 == m.h8
            &&& p.cells.len() == m.cells.len()
            &&& p.cells[y * m.w8 + x] == if under(x, y, ox, oy, s.w8, s.h8) {
                merged(m.cells[y * m.w8 + x], s.cells[(y - oy) * s.w8 + (x - ox)])
            } else {
                m.cells[y * m.w8 + x]
            }
        }),
{
    assert(0 <= s.w8 * s.h8) by (nonlinear_arith)
        requires
            0 <= s.w8,
            0 <= s.h8,
    ;
    lemma_merged_cell(m, s, ox, oy, s.w8 * s.h8, x, y);
    if under(x, y, ox, oy, s.w8, s.h8) {
        lemma_grid_index(s.w8, s.h8, x - ox, y - oy);
    }
}

proof fn lemma_merged_size(m: MetaModel, s: MetaModel, ox: int, oy: int, n: int)
    requires
        m.whole(),
        0 <= ox,
        0 <= oy,
        0 <= s.w8,
        n > 0 ==> s.w8 > 0,
    ensures
        tile_merged(m, s, ox, oy, n).w8 == m.w8,
        tile_merged(m, s, ox, oy, n).h8 == m.h8,
        tile_merged(m, s, ox, oy, n).cells.len() == m.cells.len(),
    decreases n,
{
    if n > 0 {
        lemma_merged_size(m, s, ox, oy, n - 1);
        vstd::arithmetic::div_mod::lemma_mod_bound(n - 1, s.w8);
        vstd::arithmetic::div_mod::lemma_div_pos_is_pos(n - 1, s.w8);
        let bx = (n - 1) % s.w8 + ox;
        let by = (n - 1) / s.w8 + oy;
        if bx < m.w8 && by < m.h8 {
            lemma_grid_index(m.w8, m.h8, bx, by);
        }
    }
}

proof fn lemma_area_sign(s: MetaModel)
    requires
        s.whole(),
    ensures
        s.w8 * s.h8 > 0 ==> s.w8 > 0,
{
    if s.w8 == 0 {
        assert(s.w8 * s.h8 == 0) by (nonlinear_arith)
            requires
                s.w8 == 0,
        ;
    }
}

proof fn lemma_cells_equal(a: MetaModel, b: MetaModel)
    requires
        a.whole(),
        b.whole(),
        a.w8 == b.w8,
        a.h8 == b.h8,
        forall|y: int, x: int|
            0 <= y < a.h8 && 0 <= x < a.w8 ==> #[trigger] same_cell(a, b, y, x),
    ensures
        a == b,
{
    assert forall|i: int| 0 <= i < a.cells.len() implies #[trigger] a.cells[i] == b.cells[i] by {
        assert(a.w8 > 0) by (nonlinear_arith)
            requires
                0 <= i < a.w8 * a.h8,
                0 <= a.w8,
                0 <= a.h8,
        ;
        let y = i / a.w8;
        let x = i % a.w8;
        vstd::arithmetic::div_mod::lemma_fundamental_div_mod(i, a.w8);
        vstd::arithmetic::div_mod::lemma_mod_bound(i, a.w8);
        assert(a.w8 * y == y * a.w8) by (nonlinear_arith);
        assert(0 <= y < a.h8) by (nonlinear_arith)
            requires
                i == a.w8 * y + x,
                0 <= x < a.w8,
                0 <= i < a.w8 * a.h8,
        ;
        assert(same_cell(a, b, y, x));
    }
    assert(a.cells =~= b.cells);
}

/// Two grids agree at a block.
pub open spec fn same_cell(a: MetaModel, b: MetaModel, y: int, x: int) -> bool {
    a.cells[y * a.w8 + x] == b.cells[y * a.w8 + x]
}

/// The order in which two grids are merged does not matter.
pub proof fn law_merges_commute(
    m: MetaModel,
    s: MetaModel,
    ox: int,
    oy: int,
    t: MetaModel,
    px: int,
    py: int,
)
    requires
        m.whole(),
        s.whole(),
        t.whole(),
        0 <= ox,
        0 <= oy,
        0 <= px,
        0 <= py,
    ensures
        tile_merged(tile_merged(m, s, ox, oy, s.w8 * s.h8), t, px, py, t.w8 * t.h8) == tile_merged(
            tile_merged(m, t, px, py, t.w8 * t.h8),
            s,
            ox,
            oy,
            s.w8 * s.h8,
        ),
{
    let ms = tile_merged(m, s, ox, oy, s.w8 * s.h8);
    let mt = tile_merged(m, t, px, py, t.w8 * t.h8);
    let a = tile_merged(ms, t, px, py, t.w8 * t.h8);
    let b = tile_merged(mt, s, ox, oy, s.w8 * s.h8);
    lemma_area_sign(s);
    lemma_area_sign(t);
    lemma_merged_size(m, s, ox, oy, s.w8 * s.h8);
    lemma_merged_size(m, t, px, py, t.w8 * t.h8);
    lemma_merged_size(ms, t, px, py, t.w8 * t.h8);
    lemma_merged_size(mt, s, ox, oy, s.w8 * s.h8);
    assert forall|y: int, x: int| 0 <= y < a.h8 && 0 <= x < a.w8 implies #[trigger] same_cell(
        a,
        b,
        y,
        x,
    ) by {
        law_merge_by_cell(m, s, ox, oy, x, y);
        law_merge_by_cell(m, t, px, py, x, y);
        law_merge_by_cell(ms, t, px, py, x, y);
        law_merge_by_cell(mt, s, ox, oy, x, y);
    }
    lemma_cells_equal(a, b);
}

/// A grid that is merged again changes nothing.
pub proof fn law_merge_repeats(m: MetaModel, s: MetaModel, ox: int, oy: int)
    requires
        m.whole(),
        s.whole(),
        0 <= ox,
        0 <= oy,
    ensures
        tile_merged(tile_merged(m, s, ox, oy, s.w8 * s.h8), s, ox, oy, s.w8 * s.h8) == tile_merged(
            m,
            s,
            ox,
            oy,
            s.w8 * s.h8,
        ),
{
    let a = tile_merged(m, s, ox, oy, s.w8 * s.h8);
    let b = tile_merged(a, s, ox, oy, s.w8 * s.h8);
    lemma_area_sign(s);
    lemma_merged_size(m, s, ox, oy, s.w8 * s.h8);
    lemma_merged_size(a, s, ox, oy, s.w8 * s.h8);
    assert forall|y: int, x: int| 0 <= y < a.h8 && 0 <= x < a.w8 implies #[trigger] same_cell(
        a,
        b,
        y,
        x,
    ) by {
        law_merge_by_cell(m, s, ox, oy, x, y);
        law_merge_by_cell(a, s, ox, oy, x, y);
    }
    lemma_cells_equal(a, b);
}

} // verus!
