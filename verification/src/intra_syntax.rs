//! The syntax of an intra block: its modes, its palettes, its filter and its transform
//! size.
use crate::blocks::{
    carries_chroma, cfl_allowed_for_bsize, cfl_fits, has_chroma, lemma_block_dims,
    max_tx_size_for_bsize, split_times, split_tx, BLOCK_HEIGHT, BLOCK_WIDTH, INTRA_MODE_CONTEXT,
    MAX_TX_DEPTH_TABLE, MI_HEIGHT_LOG2, MI_WIDTH_LOG2,
};
use crate::coeff_tables::{MAX_TX_SIZE_RECT, TX_HEIGHT, TX_WIDTH};
use crate::color_map::{block_map_of, read_color_map};
use crate::entropy::{Coder, SymbolDecoder};
use crate::intra_pred::{is_directional, is_directional_mode};
use crate::mode_cdfs::{ModeCdfs, ModeKey};
use crate::mode_syntax::{
    cfl_alphas_of, filter_intra_of, m_state, tx_level_key, uv_mode_key, UV_CFL_PRED,
};
use crate::palette_colors::{
    merge_colors, merged_colors, palette_ok, palette_v_of, palette_yu_of, read_palette_colors_v,
    read_palette_colors_yu, sample_colors,
};
use crate::sides::{Sides, SidesModel};
use vstd::prelude::*;

verus! {

// ---------------------------------------------------------------------------
// Tiles
// ---------------------------------------------------------------------------

/// What holds throughout a tile.
#[derive(Debug, Clone, Copy)]
pub struct TileConfig {
    /// The size of the frame.
    pub width: usize,
    pub height: usize,
    /// The size of the chroma planes of the frame.
    pub uv_w: usize,
    pub uv_h: usize,
    /// The rows of the planes of the tile.
    pub y_stride: usize,
    pub uv_stride: usize,
    pub qindex: u8,
    pub tx_mode_select: bool,
    pub reduced_tx_set: bool,
    pub subsampling_x: bool,
    pub subsampling_y: bool,
    /// The place of the tile in the frame.
    pub tile_px_x0: usize,
    pub tile_px_y0: usize,
    pub tile_w: usize,
    pub tile_h: usize,
    pub monochrome: bool,
    pub segmentation_enabled: bool,
    pub seg_feature_skip: bool,
    pub enable_filter_intra: bool,
    pub enable_intra_edge_filter: bool,
    pub allow_screen_content_tools: bool,
    pub frame_is_intra: bool,
    pub allow_high_precision_mv: bool,
    pub reference_select: bool,
    pub interpolation_filter: u8,
    /// The reference slot of every reference name.
    pub ref_to_slot: [u8; 9],
}

/// The number of units of four samples that `n` samples take.
pub open spec fn units(n: int) -> int {
    (n + 3) / 4
}

impl TileConfig {
    /// A frame that planes can hold, a tile whose origin is a multiple of eight, planes
    /// that hold the tile, chroma halved both ways or not at all.
    pub open spec fn wf(self) -> bool {
        &&& 1 <= self.width <= 0x1_0000
        &&& 1 <= self.height <= 0x1_0000
        &&& self.uv_w <= 0x1_0000
        &&& self.uv_h <= 0x1_0000
        &&& self.tile_px_x0 % 8 == 0
        &&& self.tile_px_y0 % 8 == 0
        &&& 1 <= self.y_stride <= 0x1_0000
        &&& self.tile_w <= self.y_stride
        &&& self.tile_h <= 0x1_0000
        &&& self.subsampling_x == self.subsampling_y
        &&& self.tile_cw() <= self.uv_stride <= 0x1_0000
    }

    /// The size of the chroma planes of the tile.
    pub open spec fn tile_cw(self) -> int {
        if self.subsampling_x {
            self.tile_w as int / 2
        } else {
            self.tile_w as int
        }
    }

    pub open spec fn tile_ch(self) -> int {
        if self.subsampling_y {
            self.tile_h as int / 2
        } else {
            self.tile_h as int
        }
    }

    /// The columns and rows of the frame in units of four samples.
    pub open spec fn cols(self) -> int {
        units(self.width as int)
    }

    pub open spec fn rows(self) -> int {
        units(self.height as int)
    }

    /// Blocks are coded without loss.
    pub open spec fn lossless(self) -> bool {
        self.qindex == 0
    }

    /// A place in the frame and in the tile.
    pub open spec fn holds(self, row: int, col: int) -> bool {
        &&& 0 <= row < self.rows()
        &&& 0 <= col < self.cols()
        &&& self.tile_px_y0 <= row * 4
        &&& self.tile_px_x0 <= col * 4
    }

    /// The columns of the frame in units of four samples.
    pub fn mi_cols(&self) -> (r: usize)
        requires
            self.wf(),
        ensures
            r == self.cols(),
            1 <= r <= 0x4000,
    {
        (self.width + 3) / 4
    }

    /// The rows of the frame in units of four samples.
    pub fn mi_rows(&self) -> (r: usize)
        requires
            self.wf(),
        ensures
            r == self.rows(),
            1 <= r <= 0x4000,
    {
        (self.height + 3) / 4
    }

    /// The width of the chroma planes of the tile.
    pub fn chroma_width(&self) -> (r: usize)
        ensures
            r == self.tile_cw(),
    {
        if self.subsampling_x {
            self.tile_w / 2
        } else {
            self.tile_w
        }
    }

    /// The height of the chroma planes of the tile.
    pub fn chroma_height(&self) -> (r: usize)
        ensures
            r == self.tile_ch(),
    {
        if self.subsampling_y {
            self.tile_h / 2
        } else {
            self.tile_h
        }
    }
}

// ---------------------------------------------------------------------------
// Modes
// ---------------------------------------------------------------------------

/// The modes of an intra block.
#[derive(Debug, Clone, Copy)]
pub struct Modes {
    pub y_mode: usize,
    pub angle_y: i32,
    pub uv_mode: usize,
    /// The shares of luma in both chroma planes.
    pub cfl: Option<(i32, i32)>,
    pub angle_uv: i32,
}

impl Modes {
    /// Modes that exist.
    pub open spec fn wf(self) -> bool {
        &&& self.y_mode < 13
        &&& self.uv_mode < 14
        &&& -3 <= self.angle_y <= 3
        &&& -3 <= self.angle_uv <= 3
        &&& self.cfl matches Some(a) ==> -16 <= a.0 <= 16 && -16 <= a.1 <= 16
    }
}

/// The angle of a mode, coded for directional modes of blocks from 8 by 8 on.
pub open spec fn angle_of(c: Coder<ModeKey>, there: bool, bsize: int, mode: int) -> (
    i32,
    Coder<ModeKey>,
) {
    if there && bsize >= 3 && is_directional(mode) {
        let k = ModeKey::AngleDelta(mode - 1);
        ((c.val(k) - 3) as i32, c.next(k))
    } else {
        (0, c)
    }
}

/// The table of the luma mode, by the modes above and to the left.
pub open spec fn y_mode_key(s: SidesModel, row: int, col: int) -> ModeKey {
    ModeKey::IntraYMode(
        INTRA_MODE_CONTEXT[s.above[col].ymode as int] as int,
        INTRA_MODE_CONTEXT[s.left[row].ymode as int] as int,
    )
}

/// The chroma mode, coded where the block carries chroma.
pub open spec fn uv_mode_of(c: Coder<ModeKey>, there: bool, bsize: int, y_mode: int) -> (
    usize,
    Coder<ModeKey>,
) {
    if there {
        let k = uv_mode_key(cfl_fits(bsize), y_mode);
        (c.val(k) as usize, c.next(k))
    } else {
        (0, c)
    }
}

/// The shares of luma, coded for chroma that is predicted from it.
pub open spec fn shares_of(c: Coder<ModeKey>, there: bool) -> (
    Option<(i32, i32)>,
    Coder<ModeKey>,
) {
    if there {
        let (a, b, c1) = cfl_alphas_of(c);
        (Some((a as i32, b as i32)), c1)
    } else {
        (None, c)
    }
}

/// The modes of an intra block and the decoder behind them: the luma mode with its
/// angle, then the chroma mode with its shares of luma or its angle.
#[verifier::opaque]
pub open spec fn modes_of(
    c: Coder<ModeKey>,
    s: SidesModel,
    row: int,
    col: int,
    bsize: int,
    chroma: bool,
) -> (Modes, Coder<ModeKey>) {
    let ky = y_mode_key(s, row, col);
    let y_mode = c.val(ky) as usize;
    let (angle_y, c2) = angle_of(c.next(ky), true, bsize, y_mode as int);
    let (uv_mode, c3) = uv_mode_of(c2, chroma, bsize, y_mode as int);
    let (cfl, c4) = shares_of(c3, chroma && uv_mode == UV_CFL_PRED);
    let (angle_uv, c5) = angle_of(c4, chroma, bsize, uv_mode as int);
    (Modes { y_mode, angle_y, uv_mode, cfl, angle_uv }, c5)
}

fn read_angle(
    dec: &mut SymbolDecoder<'_>,
    cdfs: &mut ModeCdfs,
    there: bool,
    bsize: usize,
    mode: usize,
) -> (r: i32)
    requires
        old(dec)@.wf(),
        old(cdfs).wf(),
        mode < 14,
    ensures
        final(dec)@.wf(),
        final(cdfs).wf(),
        (r, m_state(*final(dec), *final(cdfs))) == angle_of(
            m_state(*old(dec), *old(cdfs)),
            there,
            bsize as int,
            mode as int,
        ),
        -3 <= r <= 3,
{
    if there && bsize >= 3 && is_directional_mode(mode as u8) {
        cdfs.read_turn(dec, mode)
    } else {
        0
    }
}

/// Reads the modes of an intra block.
pub fn read_modes(
    dec: &mut SymbolDecoder<'_>,
    cdfs: &mut ModeCdfs,
    sides: &Sides,
    row: usize,
    col: usize,
    bsize: usize,
    chroma: bool,
) -> (r: Modes)
    requires
        old(dec)@.wf(),
        old(cdfs).wf(),
        bsize < 22,
        row < sides@.left.len(),
        col < sides@.above.len(),
        crate::sides::side_wf(sides@.above),
        crate::sides::side_wf(sides@.left),
    ensures
        final(dec)@.wf(),
        final(cdfs).wf(),
        (r, m_state(*final(dec), *final(cdfs))) == modes_of(
            m_state(*old(dec), *old(cdfs)),
            sides@,
            row as int,
            col as int,
            bsize as int,
            chroma,
        ),
        r.wf(),
{
    proof {
        reveal(modes_of);
        assert(sides@.above[col as int].wf());
        assert(sides@.left[row as int].wf());
    }
    let a: usize = INTRA_MODE_CONTEXT[sides.above[col].ymode as usize];
    let l: usize = INTRA_MODE_CONTEXT[sides.left[row].ymode as usize];
    proof {
        lemma_mode_context(sides@.above[col as int].ymode as int);
        lemma_mode_context(sides@.left[row as int].ymode as int);
    }
    let y_mode: usize = cdfs.read_intra_y_mode(dec, a, l);
    let angle_y: i32 = read_angle(dec, cdfs, true, bsize, y_mode);
    let uv_mode: usize = if chroma {
        cdfs.read_uv_mode(dec, cfl_allowed_for_bsize(bsize), y_mode)
    } else {
        0
    };
    let cfl: Option<(i32, i32)> = if chroma && uv_mode == UV_CFL_PRED {
        Some(cdfs.read_cfl_alphas(dec))
    } else {
        None
    };
    let angle_uv: i32 = read_angle(dec, cdfs, chroma, bsize, uv_mode);
    Modes { y_mode, angle_y, uv_mode, cfl, angle_uv }
}

proof fn lemma_mode_context(m: int)
    requires
        0 <= m < 13,
    ensures
        INTRA_MODE_CONTEXT[m] < 5,
{
}

// ---------------------------------------------------------------------------
// Palettes
// ---------------------------------------------------------------------------

/// The colors that the neighbours of a block have. The ones above count only inside a
/// row of 64 samples.
pub open spec fn cache_of(above: Seq<Seq<i32>>, left: Seq<Seq<i32>>, row: int, col: int) -> Seq<
    i32,
> {
    merged_colors(
        if (row * 4) % 64 != 0 {
            above[col]
        } else {
            Seq::empty()
        },
        if col > 0 {
            left[row]
        } else {
            Seq::empty()
        },
    )
}

/// A block may have palettes: from 8 by 8 to 64 by 64 samples.
pub open spec fn palette_fits(bsize: int, allowed: bool) -> bool {
    bsize >= 3 && BLOCK_WIDTH[bsize] <= 64 && BLOCK_HEIGHT[bsize] <= 64 && allowed
}

/// The context of a block size.
pub open spec fn palette_size_ctx(bsize: int) -> int {
    MI_WIDTH_LOG2[bsize] + MI_HEIGHT_LOG2[bsize] - 2
}

/// One if a neighbour is there and has a palette.
pub open spec fn has_colors(there: bool, colors: Seq<i32>) -> int {
    if there && colors.len() > 0 {
        1
    } else {
        0
    }
}

/// The luma palette of a block that may have one, and the decoder behind it.
#[verifier::opaque]
pub open spec fn palette_y_of(c: Coder<ModeKey>, s: SidesModel, row: int, col: int, ctx: int) -> (
    Seq<i32>,
    Coder<ModeKey>,
) {
    let k = ModeKey::PaletteYMode(
        ctx,
        has_colors(row > 0, s.y_above[col]) + has_colors(col > 0, s.y_left[row]),
    );
    let c1 = c.next(k);
    if c.val(k) == 1 {
        let kz = ModeKey::PaletteYSize(ctx);
        let c2 = c1.next(kz);
        let (colors, sym) = palette_yu_of(
            c2.sym,
            2 + c1.val(kz),
            cache_of(s.y_above, s.y_left, row, col),
            false,
        );
        (colors, Coder { sym, bank: c2.bank })
    } else {
        (Seq::empty(), c1)
    }
}

/// The chroma palettes of a block that may have them, and the decoder behind them.
#[verifier::opaque]
pub open spec fn palette_uv_of(
    c: Coder<ModeKey>,
    s: SidesModel,
    row: int,
    col: int,
    ctx: int,
    with_y: bool,
) -> (Seq<i32>, Seq<i32>, Coder<ModeKey>) {
    let k = ModeKey::PaletteUvMode(
        if with_y {
            1
        } else {
            0
        },
    );
    let c1 = c.next(k);
    if c.val(k) == 1 {
        let kz = ModeKey::PaletteUvSize(ctx);
        let c2 = c1.next(kz);
        let n = 2 + c1.val(kz);
        let (u, s1) = palette_yu_of(c2.sym, n, cache_of(s.u_above, s.u_left, row, col), true);
        let (v, s2) = palette_v_of(s1, n);
        (u, v, Coder { sym: s2, bank: c2.bank })
    } else {
        (Seq::empty(), Seq::empty(), c1)
    }
}

/// The palettes of a block.
#[verifier::ext_equal]
pub struct Colors {
    pub y: Seq<i32>,
    pub u: Seq<i32>,
    pub v: Seq<i32>,
}

/// The palettes of a block and the decoder behind them. Only planes that are predicted
/// by their mean have one.
#[verifier::opaque]
pub open spec fn palettes_of(
    c: Coder<ModeKey>,
    s: SidesModel,
    row: int,
    col: int,
    bsize: int,
    allowed: bool,
    luma: bool,
    chroma: bool,
) -> (Colors, Coder<ModeKey>) {
    let none = Seq::<i32>::empty();
    if !palette_fits(bsize, allowed) {
        (Colors { y: none, u: none, v: none }, c)
    } else {
        let ctx = palette_size_ctx(bsize);
        let (y, c1) = if luma {
            palette_y_of(c, s, row, col, ctx)
        } else {
            (none, c)
        };
        let (u, v, c2) = if chroma {
            palette_uv_of(c1, s, row, col, ctx, y.len() > 0)
        } else {
            (none, none, c1)
        };
        (Colors { y, u, v }, c2)
    }
}

fn read_cache(above: &Vec<Vec<i32>>, left: &Vec<Vec<i32>>, row: usize, col: usize) -> (r: Vec<i32>)
    requires
        row < left@.len(),
        col < above@.len(),
        row <= 0x1_0000,
        crate::sides::palettes_ok(crate::sides::palettes(above@)),
        crate::sides::palettes_ok(crate::sides::palettes(left@)),
    ensures
        r@ == cache_of(
            crate::sides::palettes(above@),
            crate::sides::palettes(left@),
            row as int,
            col as int,
        ),
        sample_colors(r@),
{
    let none: Vec<i32> = Vec::new();
    assert(none@ =~= Seq::empty());
    proof {
        assert(palette_ok(crate::sides::palettes(above@)[col as int]));
        assert(palette_ok(crate::sides::palettes(left@)[row as int]));
    }
    let a: &Vec<i32> = if (row * 4) % 64 != 0 {
        &above[col]
    } else {
        &none
    };
    let l: &Vec<i32> = if col > 0 {
        &left[row]
    } else {
        &none
    };
    merge_colors(a, l)
}

fn read_palette_y(
    dec: &mut SymbolDecoder<'_>,
    cdfs: &mut ModeCdfs,
    sides: &Sides,
    row: usize,
    col: usize,
    ctx: usize,
    Ghost(cols): Ghost<int>,
    Ghost(rows): Ghost<int>,
) -> (r: Vec<i32>)
    requires
        old(dec)@.wf(),
        old(cdfs).wf(),
        sides@.wf(cols, rows),
        row < rows <= 0x4000,
        col < cols,
        ctx < 7,
    ensures
        final(dec)@.wf(),
        final(cdfs).wf(),
        (r@, m_state(*final(dec), *final(cdfs))) == palette_y_of(
            m_state(*old(dec), *old(cdfs)),
            sides@,
            row as int,
            col as int,
            ctx as int,
        ),
        palette_ok(r@),
        r@.len() == 0 || 2 <= r@.len() <= 8,
{
    proof {
        reveal(palette_y_of);
    }
    let a: usize = if row > 0 && sides.y_above[col].len() > 0 {
        1
    } else {
        0
    };
    let l: usize = if col > 0 && sides.y_left[row].len() > 0 {
        1
    } else {
        0
    };
    let there: usize = cdfs.read_palette_y_mode(dec, ctx, a + l);
    if there == 1 {
        let size: usize = 2 + cdfs.read_palette_y_size(dec, ctx);
        let cache: Vec<i32> = read_cache(&sides.y_above, &sides.y_left, row, col);
        read_palette_colors_yu(dec, size, &cache, false)
    } else {
        let none: Vec<i32> = Vec::new();
        assert(none@ =~= Seq::empty());
        none
    }
}

fn read_palette_uv(
    dec: &mut SymbolDecoder<'_>,
    cdfs: &mut ModeCdfs,
    sides: &Sides,
    row: usize,
    col: usize,
    ctx: usize,
    with_y: bool,
    Ghost(cols): Ghost<int>,
    Ghost(rows): Ghost<int>,
) -> (r: (Vec<i32>, Vec<i32>))
    requires
        old(dec)@.wf(),
        old(cdfs).wf(),
        sides@.wf(cols, rows),
        row < rows <= 0x4000,
        col < cols,
        ctx < 7,
    ensures
        final(dec)@.wf(),
        final(cdfs).wf(),
        (r.0@, r.1@, m_state(*final(dec), *final(cdfs))) == palette_uv_of(
            m_state(*old(dec), *old(cdfs)),
            sides@,
            row as int,
            col as int,
            ctx as int,
            with_y,
        ),
        palette_ok(r.0@),
        palette_ok(r.1@),
        r.0@.len() == r.1@.len(),
        r.0@.len() == 0 || 2 <= r.0@.len() <= 8,
{
    proof {
        reveal(palette_uv_of);
    }
    let k: usize = if with_y {
        1
    } else {
        0
    };
    let there: usize = cdfs.read_palette_uv_mode(dec, k);
    if there == 1 {
        let size: usize = 2 + cdfs.read_palette_uv_size(dec, ctx);
        let cache: Vec<i32> = read_cache(&sides.u_above, &sides.u_left, row, col);
        let u: Vec<i32> = read_palette_colors_yu(dec, size, &cache, true);
        let v: Vec<i32> = read_palette_colors_v(dec, size);
        (u, v)
    } else {
        let none_u: Vec<i32> = Vec::new();
        let none_v: Vec<i32> = Vec::new();
        assert(none_u@ =~= Seq::empty());
        assert(none_v@ =~= Seq::empty());
        (none_u, none_v)
    }
}

/// Reads the palettes of a block.
fn read_palette_mode_info(
    dec: &mut SymbolDecoder<'_>,
    cdfs: &mut ModeCdfs,
    sides: &Sides,
    row: usize,
    col: usize,
    bsize: usize,
    allowed: bool,
    luma: bool,
    chroma: bool,
    Ghost(cols): Ghost<int>,
    Ghost(rows): Ghost<int>,
) -> (r: (Vec<i32>, Vec<i32>, Vec<i32>))
    requires
        old(dec)@.wf(),
        old(cdfs).wf(),
        sides@.wf(cols, rows),
        row < rows <= 0x4000,
        col < cols,
        bsize < 22,
    ensures
        final(dec)@.wf(),
        final(cdfs).wf(),
        (Colors { y: r.0@, u: r.1@, v: r.2@ }, m_state(*final(dec), *final(cdfs))) == palettes_of(
            m_state(*old(dec), *old(cdfs)),
            sides@,
            row as int,
            col as int,
            bsize as int,
            allowed,
            luma,
            chroma,
        ),
        palette_ok(r.0@),
        palette_ok(r.1@),
        palette_ok(r.2@),
        r.1@.len() == r.2@.len(),
        r.0@.len() == 0 || 2 <= r.0@.len() <= 8,
        r.1@.len() == 0 || 2 <= r.1@.len() <= 8,
{
    proof {
        reveal(palettes_of);
        lemma_block_dims(bsize as int);
    }
    let mut y: Vec<i32> = Vec::new();
    let mut u: Vec<i32> = Vec::new();
    let mut v: Vec<i32> = Vec::new();
    assert(y@ =~= Seq::empty());
    assert(u@ =~= Seq::empty());
    assert(v@ =~= Seq::empty());
    if bsize < 3 || BLOCK_WIDTH[bsize] > 64 || BLOCK_HEIGHT[bsize] > 64 || !allowed {
        return (y, u, v);
    }
    proof {
        lemma_palette_ctx(bsize as int);
    }
    let ctx: usize = MI_WIDTH_LOG2[bsize] + MI_HEIGHT_LOG2[bsize] - 2;
    if luma {
        y = read_palette_y(dec, cdfs, sides, row, col, ctx, Ghost(cols), Ghost(rows));
    }
    if chroma {
        let uv: (Vec<i32>, Vec<i32>) = read_palette_uv(
            dec,
            cdfs,
            sides,
            row,
            col,
            ctx,
            y.len() > 0,
            Ghost(cols),
            Ghost(rows),
        );
        u = uv.0;
        v = uv.1;
    }
    (y, u, v)
}

proof fn lemma_palette_ctx(bsize: int)
    requires
        3 <= bsize < 22,
        BLOCK_WIDTH[bsize] <= 64,
        BLOCK_HEIGHT[bsize] <= 64,
    ensures
        0 <= palette_size_ctx(bsize) < 7,
{
}

// ---------------------------------------------------------------------------
// Transform size
// ---------------------------------------------------------------------------

/// One if a number is not below another.
pub open spec fn reaches(a: int, b: int) -> int {
    if a >= b {
        1
    } else {
        0
    }
}

/// The context of the transform depth, by the transforms above and to the left.
pub open spec fn tx_ctx(s: SidesModel, row: int, col: int, max_tx: int) -> int {
    reaches(s.above[col].tx as int, TX_WIDTH[max_tx] as int) + reaches(
        s.left[row].tx as int,
        TX_HEIGHT[max_tx] as int,
    )
}

/// The table of the transform depth.
pub open spec fn tx_bucket(bsize: int) -> int {
    let d = MAX_TX_DEPTH_TABLE[bsize];
    if d == 4 {
        3
    } else if d == 3 {
        2
    } else if d == 2 {
        1
    } else {
        0
    }
}

/// The transform size of a block and the decoder behind it: the largest one, split as
/// often as is coded.
#[verifier::opaque]
pub open spec fn tx_size_of(
    c: Coder<ModeKey>,
    s: SidesModel,
    row: int,
    col: int,
    bsize: int,
    max_tx: int,
) -> (int, Coder<ModeKey>) {
    let k = tx_level_key(tx_bucket(bsize), tx_ctx(s, row, col, max_tx));
    (split_times(max_tx, c.val(k)), c.next(k))
}

/// The context of the transform depth.
pub fn tx_depth_context(sides: &Sides, row: usize, col: usize, max_tx: usize) -> (r: usize)
    requires
        row < sides@.left.len(),
        col < sides@.above.len(),
        max_tx < 19,
    ensures
        r == tx_ctx(sides@, row as int, col as int, max_tx as int),
        r < 3,
{
    let a: usize = if sides.above[col].tx as usize >= TX_WIDTH[max_tx] {
        1
    } else {
        0
    };
    let l: usize = if sides.left[row].tx as usize >= TX_HEIGHT[max_tx] {
        1
    } else {
        0
    };
    a + l
}

/// Reads the transform size of a block.
pub fn read_tx_size(
    dec: &mut SymbolDecoder<'_>,
    cdfs: &mut ModeCdfs,
    sides: &Sides,
    bsize: usize,
    max_tx: usize,
    row: usize,
    col: usize,
) -> (r: usize)
    requires
        old(dec)@.wf(),
        old(cdfs).wf(),
        row < sides@.left.len(),
        col < sides@.above.len(),
        bsize < 22,
        max_tx < 19,
    ensures
        final(dec)@.wf(),
        final(cdfs).wf(),
        (r as int, m_state(*final(dec), *final(cdfs))) == tx_size_of(
            m_state(*old(dec), *old(cdfs)),
            sides@,
            row as int,
            col as int,
            bsize as int,
            max_tx as int,
        ),
        r < 19,
        TX_WIDTH[r as int] <= TX_WIDTH[max_tx as int],
        TX_HEIGHT[r as int] <= TX_HEIGHT[max_tx as int],
{
    proof {
        reveal(tx_size_of);
    }
    let d: usize = MAX_TX_DEPTH_TABLE[bsize];
    let bucket: usize = if d == 4 {
        3
    } else if d == 3 {
        2
    } else if d == 2 {
        1
    } else {
        0
    };
    let ctx: usize = tx_depth_context(sides, row, col, max_tx);
    let depth: usize = cdfs.read_tx_level(dec, bucket, ctx);
    split_tx(max_tx, depth)
}

/// The luma transform size of a block, coded where `coded` holds, else the largest.
#[verifier::opaque]
pub open spec fn luma_tx_of(
    c: Coder<ModeKey>,
    s: SidesModel,
    row: int,
    col: int,
    bsize: int,
    coded: bool,
) -> (int, Coder<ModeKey>) {
    let max_tx = MAX_TX_SIZE_RECT[bsize] as int;
    if coded {
        tx_size_of(c, s, row, col, bsize, max_tx)
    } else {
        (max_tx, c)
    }
}

/// Reads the luma transform size of a block.
pub fn read_luma_tx(
    dec: &mut SymbolDecoder<'_>,
    cdfs: &mut ModeCdfs,
    sides: &Sides,
    row: usize,
    col: usize,
    bsize: usize,
    coded: bool,
) -> (r: usize)
    requires
        old(dec)@.wf(),
        old(cdfs).wf(),
        row < sides@.left.len(),
        col < sides@.above.len(),
        bsize < 22,
    ensures
        final(dec)@.wf(),
        final(cdfs).wf(),
        (r as int, m_state(*final(dec), *final(cdfs))) == luma_tx_of(
            m_state(*old(dec), *old(cdfs)),
            sides@,
            row as int,
            col as int,
            bsize as int,
            coded,
        ),
        r < 19,
{
    proof {
        reveal(luma_tx_of);
    }
    let max_tx: usize = max_tx_size_for_bsize(bsize);
    if coded {
        read_tx_size(dec, cdfs, sides, bsize, max_tx, row, col)
    } else {
        max_tx
    }
}

// ---------------------------------------------------------------------------
// Everything that is coded before the residual
// ---------------------------------------------------------------------------

/// What is coded of an intra block before its residual.
pub struct IntraInfo {
    pub modes: Modes,
    pub filter: Option<usize>,
    pub colors_y: Vec<i32>,
    pub colors_u: Vec<i32>,
    pub colors_v: Vec<i32>,
    pub map_y: Vec<u8>,
    pub stride_y: usize,
    pub map_uv: Vec<u8>,
    pub stride_uv: usize,
    pub luma_tx: usize,
}

/// The model of what is coded of an intra block before its residual.
#[verifier::ext_equal]
pub struct InfoModel {
    pub modes: Modes,
    pub filter: Option<usize>,
    pub colors: Colors,
    pub map_y: Seq<u8>,
    pub stride_y: int,
    pub map_uv: Seq<u8>,
    pub stride_uv: int,
    pub luma_tx: int,
}

impl View for IntraInfo {
    type V = InfoModel;

    open spec fn view(&self) -> InfoModel {
        InfoModel {
            modes: self.modes,
            filter: self.filter,
            colors: Colors { y: self.colors_y@, u: self.colors_u@, v: self.colors_v@ },
            map_y: self.map_y@,
            stride_y: self.stride_y as int,
            map_uv: self.map_uv@,
            stride_uv: self.stride_uv as int,
            luma_tx: self.luma_tx as int,
        }
    }
}

impl InfoModel {
    /// Values that the syntax can code.
    pub open spec fn wf(self) -> bool {
        &&& self.modes.wf()
        &&& self.filter matches Some(f) ==> f < 5
        &&& palette_ok(self.colors.y)
        &&& palette_ok(self.colors.u)
        &&& palette_ok(self.colors.v)
        &&& 0 <= self.stride_y <= 256
        &&& 0 <= self.stride_uv <= 256
        &&& 0 <= self.luma_tx < 19
    }
}

/// The filter and the maps of a block, and the decoder behind them.
#[verifier::opaque]
pub open spec fn tail_of(
    c: Coder<ModeKey>,
    cfg: TileConfig,
    row: int,
    col: int,
    bsize: int,
    y_mode: int,
    ny: int,
    nuv: int,
) -> (Option<usize>, (Seq<u8>, int), (Seq<u8>, int), Coder<ModeKey>) {
    let (filter, c1) = if ny == 0 {
        filter_intra_of(c, cfg.enable_filter_intra, y_mode, bsize)
    } else {
        (None, c)
    };
    let sx = cfg.subsampling_x;
    let sy = cfg.subsampling_y;
    let (my, wy, c2) = block_map_of(
        c1,
        bsize,
        cfg.rows() - row,
        cfg.cols() - col,
        ny,
        false,
        sx,
        sy,
    );
    let (mc, wc, c3) = block_map_of(
        c2,
        bsize,
        cfg.rows() - row,
        cfg.cols() - col,
        nuv,
        true,
        sx,
        sy,
    );
    (filter, (my, wy), (mc, wc), c3)
}

/// A block carries chroma in a tile.
pub open spec fn block_chroma(cfg: TileConfig, row: int, col: int, bsize: int) -> bool {
    !cfg.monochrome && carries_chroma(bsize, row, col, cfg.subsampling_x, cfg.subsampling_y)
}

/// What is coded of an intra block before its residual, and the decoder behind it: the
/// modes, the palettes, the filter, the maps, the transform size.
#[verifier::opaque]
pub open spec fn info_of(
    c: Coder<ModeKey>,
    s: SidesModel,
    cfg: TileConfig,
    row: int,
    col: int,
    bsize: int,
) -> (InfoModel, Coder<ModeKey>) {
    let chroma = block_chroma(cfg, row, col, bsize);
    let (modes, c1) = modes_of(c, s, row, col, bsize, chroma);
    let (colors, c2) = palettes_of(
        c1,
        s,
        row,
        col,
        bsize,
        cfg.allow_screen_content_tools,
        modes.y_mode == 0,
        chroma && modes.uv_mode == 0,
    );
    let (filter, my, mc, c3) = tail_of(
        c2,
        cfg,
        row,
        col,
        bsize,
        modes.y_mode as int,
        colors.y.len() as int,
        colors.u.len() as int,
    );
    let (luma_tx, c4) = luma_tx_of(
        c3,
        s,
        row,
        col,
        bsize,
        cfg.tx_mode_select && !cfg.lossless(),
    );
    (
        InfoModel {
            modes,
            filter,
            colors,
            map_y: my.0,
            stride_y: my.1,
            map_uv: mc.0,
            stride_uv: mc.1,
            luma_tx,
        },
        c4,
    )
}

fn read_tail(
    dec: &mut SymbolDecoder<'_>,
    cdfs: &mut ModeCdfs,
    cfg: &TileConfig,
    row: usize,
    col: usize,
    bsize: usize,
    y_mode: usize,
    ny: usize,
    nuv: usize,
) -> (r: (Option<usize>, (Vec<u8>, usize), (Vec<u8>, usize)))
    requires
        old(dec)@.wf(),
        old(cdfs).wf(),
        cfg.wf(),
        cfg.holds(row as int, col as int),
        bsize < 22,
        ny == 0 || 2 <= ny <= 8,
        nuv == 0 || 2 <= nuv <= 8,
    ensures
        final(dec)@.wf(),
        final(cdfs).wf(),
        (
            r.0,
            (r.1.0@, r.1.1 as int),
            (r.2.0@, r.2.1 as int),
            m_state(*final(dec), *final(cdfs)),
        ) == tail_of(
            m_state(*old(dec), *old(cdfs)),
            *cfg,
            row as int,
            col as int,
            bsize as int,
            y_mode as int,
            ny as int,
            nuv as int,
        ),
        r.0 matches Some(f) ==> f < 5,
        r.1.1 <= 256,
        r.2.1 <= 256,
{
    proof {
        reveal(tail_of);
    }
    let filter: Option<usize> = if ny == 0 {
        cdfs.read_filter_intra_mode_info(dec, cfg.enable_filter_intra, y_mode, bsize)
    } else {
        None
    };
    let rows: usize = cfg.mi_rows() - row;
    let cols: usize = cfg.mi_cols() - col;
    let my: (Vec<u8>, usize) = read_color_map(
        dec,
        cdfs,
        bsize,
        rows,
        cols,
        ny,
        false,
        cfg.subsampling_x,
        cfg.subsampling_y,
    );
    let mc: (Vec<u8>, usize) = read_color_map(
        dec,
        cdfs,
        bsize,
        rows,
        cols,
        nuv,
        true,
        cfg.subsampling_x,
        cfg.subsampling_y,
    );
    (filter, my, mc)
}

/// Reads what is coded of an intra block before its residual.
pub fn read_info(
    dec: &mut SymbolDecoder<'_>,
    cdfs: &mut ModeCdfs,
    sides: &Sides,
    cfg: &TileConfig,
    row: usize,
    col: usize,
    bsize: usize,
) -> (r: IntraInfo)
    requires
        old(dec)@.wf(),
        old(cdfs).wf(),
        cfg.wf(),
        cfg.holds(row as int, col as int),
        sides@.wf(cfg.cols(), cfg.rows()),
        bsize < 22,
    ensures
        final(dec)@.wf(),
        final(cdfs).wf(),
        (r@, m_state(*final(dec), *final(cdfs))) == info_of(
            m_state(*old(dec), *old(cdfs)),
            sides@,
            *cfg,
            row as int,
            col as int,
            bsize as int,
        ),
        r@.wf(),
{
    proof {
        reveal(info_of);
    }
    let chroma: bool = !cfg.monochrome && has_chroma(
        bsize,
        row,
        col,
        cfg.subsampling_x,
        cfg.subsampling_y,
    );
    let modes: Modes = read_modes(dec, cdfs, sides, row, col, bsize, chroma);
    let flat_y: bool = modes.y_mode == 0;
    let flat_uv: bool = chroma && modes.uv_mode == 0;
    let colors: (Vec<i32>, Vec<i32>, Vec<i32>) = read_palette_mode_info(
        dec,
        cdfs,
        sides,
        row,
        col,
        bsize,
        cfg.allow_screen_content_tools,
        flat_y,
        flat_uv,
        Ghost(cfg.cols()),
        Ghost(cfg.rows()),
    );
    let tail: (Option<usize>, (Vec<u8>, usize), (Vec<u8>, usize)) = read_tail(
        dec,
        cdfs,
        cfg,
        row,
        col,
        bsize,
        modes.y_mode,
        colors.0.len(),
        colors.1.len(),
    );
    let coded: bool = cfg.tx_mode_select && cfg.qindex != 0;
    assert(coded == (cfg.tx_mode_select && !cfg.lossless()));
    let luma_tx: usize = read_luma_tx(dec, cdfs, sides, row, col, bsize, coded);
    IntraInfo {
        modes,
        filter: tail.0,
        colors_y: colors.0,
        colors_u: colors.1,
        colors_v: colors.2,
        map_y: tail.1.0,
        stride_y: tail.1.1,
        map_uv: tail.2.0,
        stride_uv: tail.2.1,
        luma_tx,
    }
}

} // verus!
