//! Tile groups: where a tile lies in the frame, where its data start, and its
//! superblocks.
use crate::bits::{lemma_pow2i_values, truncated, BitReader};
use crate::blocks::{BLOCK_128X128, BLOCK_64X64};
use crate::coeff::{q_bucket, CoeffKey, TileCdfs};
use crate::entropy::{at_least_0, cdf_wf};
use crate::error::KinetixError;
use crate::inter::RefFrames;
use crate::inter_block::{refs_model, refs_wf};
use crate::intra_syntax::{units, TileConfig};
use crate::loop_filter::{FrameMeta, MetaModel};
use crate::media::Planes;
use crate::mode_cdfs::ModeDefaults;
use crate::palette::{ceil_log2, ceil_log2_of};
use crate::tile::{ends, superblock, Step, Tile};
use crate::tile_decoder::{fresh_tile, TileDecodeState};
use crate::trace::{SymbolTrace, TraceModel};
use vstd::prelude::*;

verus! {

/// The tables that every tile starts with.
pub struct Tables {
    /// By the bucket of the quantizer index.
    pub coeff: [TileCdfs; 4],
    pub modes: ModeDefaults,
}

impl Tables {
    /// Every table is a probability table. Those of coefficients have a counter in range,
    /// and those of transform types are the same in all buckets.
    pub open spec fn wf(&self) -> bool {
        &&& forall|i: int| 0 <= i < 4 ==> (#[trigger] self.coeff[i]).wf()
        &&& forall|i: int| 0 <= i < 4 ==> (#[trigger] self.coeff[i]).counts()
        &&& forall|i: int|
            0 <= i < 4 ==> (#[trigger] self.coeff[i]).intra_tx_type_set1
                == self.coeff[0].intra_tx_type_set1
        &&& forall|i: int|
            0 <= i < 4 ==> (#[trigger] self.coeff[i]).intra_tx_type_set2
                == self.coeff[0].intra_tx_type_set2
        &&& self.modes.wf()
    }
}

/// The tables that a tile starts with add up and have a counter in range. They depend on
/// the quantizer index only by its bucket, and those of transform types do not depend on
/// it.
pub proof fn law_tile_tables(t: Tables, a: u8, b: u8, k: CoeffKey)
    requires
        t.wf(),
        k.valid(),
    ensures
        ({
            let x = t.coeff[q_bucket(a as int)];
            let y = t.coeff[q_bucket(b as int)];
            let cdf = x@[k];
            &&& cdf[cdf.len() - 2] == 32768
            &&& cdf[cdf.len() - 1] <= 32
            &&& q_bucket(a as int) == q_bucket(b as int) ==> x == y
            &&& x.intra_tx_type_set1 == y.intra_tx_type_set1
            &&& x.intra_tx_type_set2 == y.intra_tx_type_set2
        }),
{
    let x = t.coeff[q_bucket(a as int)];
    let y = t.coeff[q_bucket(b as int)];
    assert(x.wf() && y.wf());
    assert(x.counts());
    assert(cdf_wf(x@[k]));
}

// ---------------------------------------------------------------------------
// Geometry
// ---------------------------------------------------------------------------

/// The number of superblocks along a side of `n` samples.
pub open spec fn superblocks(n: int, use_128: bool) -> int {
    if use_128 {
        (units(n) + 31) / 32
    } else {
        (units(n) + 15) / 16
    }
}

/// The quotient rounded up.
pub open spec fn quotient_up(a: int, b: int) -> int {
    (a + b - 1) / b
}

/// At least one.
pub open spec fn at_least_1(n: int) -> int {
    if n < 1 {
        1
    } else {
        n
    }
}

/// The smaller of two numbers.
pub open spec fn least(a: int, b: int) -> int {
    if a <= b {
        a
    } else {
        b
    }
}

/// The superblocks of tile `i` of `n` along a side of `size` samples: the first and the
/// one behind the last.
pub open spec fn tile_sbs(size: int, use_128: bool, i: int, n: int) -> (int, int) {
    let all = superblocks(size, use_128);
    let per = quotient_up(all, at_least_1(n));
    let t = least(i, at_least_1(n) - 1);
    (t * per, least((t + 1) * per, all))
}

/// The start of superblock `i` in samples.
pub open spec fn sb_start(i: int, use_128: bool) -> int {
    if use_128 {
        i * 128
    } else {
        i * 64
    }
}

/// The samples of tile `i` of `n` along a side: the first and the one behind the last.
pub open spec fn tile_span(size: int, use_128: bool, i: int, n: int) -> (int, int) {
    let (a, b) = tile_sbs(size, use_128, i, n);
    (least(sb_start(a, use_128), size), least(sb_start(b, use_128), size))
}

pub proof fn lemma_tile_sbs(size: int, use_128: bool, i: int, n: int)
    requires
        0 <= size <= 0x1_0000,
        0 <= i,
    ensures
        ({
            let (a, b) = tile_sbs(size, use_128, i, n);
            let (x0, x1) = tile_span(size, use_128, i, n);
            &&& 0 <= a
            &&& 0 <= b <= 1024
            &&& 0 <= x0 <= x1 <= size
            &&& a < b ==> x0 < x1 && x0 == sb_start(a, use_128)
            &&& a >= b ==> x0 == x1
        }),
{
    let all = superblocks(size, use_128);
    let m = at_least_1(n);
    let per = quotient_up(all, m);
    let t = least(i, m - 1);
    assert(0 <= per) by {
        vstd::arithmetic::div_mod::lemma_div_pos_is_pos(all + m - 1, m);
    }
    assert(0 <= t * per && (t + 1) * per == t * per + per) by (nonlinear_arith)
        requires
            0 <= t,
            0 <= per,
    ;
}

/// Two tiles of a frame share no superblock along a side, and tiles follow each other.
pub proof fn law_tiles_apart(size: int, use_128: bool, i: int, j: int, n: int)
    requires
        0 <= size <= 0x1_0000,
        0 <= i < j < n,
    ensures
        tile_sbs(size, use_128, i, n).1 <= tile_sbs(size, use_128, j, n).0,
        tile_span(size, use_128, i, n).1 <= tile_span(size, use_128, j, n).0,
{
    let all = superblocks(size, use_128);
    let per = quotient_up(all, n);
    vstd::arithmetic::div_mod::lemma_div_pos_is_pos(all + n - 1, n);
    assert((i + 1) * per <= j * per) by (nonlinear_arith)
        requires
            i + 1 <= j,
            0 <= per,
    ;
}

/// The tiles of a frame cover all superblocks along a side.
pub proof fn law_tiles_cover(size: int, use_128: bool, n: int)
    requires
        0 <= size <= 0x1_0000,
        1 <= n,
    ensures
        tile_sbs(size, use_128, 0, n).0 == 0,
        tile_sbs(size, use_128, n - 1, n).1 == superblocks(size, use_128),
        forall|i: int|
            0 <= i < n - 1 ==> (#[trigger] tile_sbs(size, use_128, i, n)).1 == least(
                tile_sbs(size, use_128, i + 1, n).0,
                superblocks(size, use_128),
            ),
{
    let all = superblocks(size, use_128);
    let per = quotient_up(all, n);
    let x = all + n - 1;
    vstd::arithmetic::div_mod::lemma_fundamental_div_mod(x, n);
    assert(n * per >= all) by (nonlinear_arith)
        requires
            x == n * per + x % n,
            0 <= x % n < n,
            x == all + n - 1,
    ;
    assert(0 * per == 0) by (nonlinear_arith);
}

// ---------------------------------------------------------------------------
// Where the data start
// ---------------------------------------------------------------------------

/// The bits of a tile number.
pub open spec fn tile_bits(cols: int, rows: int) -> int {
    ceil_log2_of(at_least_1(cols)) + ceil_log2_of(at_least_1(rows))
}

/// The position of the tile data: behind a flag and two tile numbers where the frame has
/// several tiles, at the next byte; `None` where the data end before.
pub open spec fn data_start(d: Seq<u8>, cols: int, rows: int) -> Option<int> {
    if at_least_1(cols) == 1 && at_least_1(rows) == 1 {
        Some(0)
    } else {
        let n = 1 + 2 * tile_bits(cols, rows);
        if n <= 8 * d.len() {
            Some((n + 7) / 8 * 8)
        } else {
            None
        }
    }
}

fn find_data(data: &[u8], tile_cols: usize, tile_rows: usize) -> (r: Result<usize, KinetixError>)
    requires
        8 * data@.len() <= usize::MAX,
        1 <= tile_cols <= 0x1_0000,
        1 <= tile_rows <= 0x1_0000,
    ensures
        match data_start(data@, tile_cols as int, tile_rows as int) {
            Some(p) => r == Ok::<usize, KinetixError>(p as usize) && 0 <= p <= usize::MAX,
            None => r == Err::<usize, KinetixError>(truncated()),
        },
{
    let mut br: BitReader = BitReader::new(data);
    if tile_cols > 1 || tile_rows > 1 {
        let a: u32 = ceil_log2(tile_cols as u32);
        let b: u32 = ceil_log2(tile_rows as u32);
        proof {
            lemma_pow2i_values();
            br.lemma_wf();
            lemma_tile_bits(tile_cols as int, a as int);
            lemma_tile_bits(tile_rows as int, b as int);
        }
        let n: u8 = (a + b) as u8;
        if br.read_bit().is_none() {
            return Err(KinetixError::Parse(crate::error::ParseError::Truncated));
        }
        if br.read_bits(n).is_none() {
            return Err(KinetixError::Parse(crate::error::ParseError::Truncated));
        }
        if br.read_bits(n).is_none() {
            return Err(KinetixError::Parse(crate::error::ParseError::Truncated));
        }
    }
    br.byte_align();
    Ok(br.bit_position())
}

proof fn lemma_tile_bits(n: int, b: int)
    requires
        1 <= n <= 0x1_0000,
        b == ceil_log2_of(n),
    ensures
        0 <= b <= 16,
        n > 1 ==> b >= 1,
{
    if n >= 2 {
        crate::bits::lemma_floor_log2(n - 1);
        lemma_pow2i_values();
        if b > 16 {
            crate::bits::lemma_pow2i_mono(16, b - 1);
        }
    }
}

// ---------------------------------------------------------------------------
// Superblocks
// ---------------------------------------------------------------------------

/// The block size of a superblock.
pub open spec fn sb_size(use_128: bool) -> int {
    if use_128 {
        BLOCK_128X128 as int
    } else {
        BLOCK_64X64 as int
    }
}

/// The side of a superblock in units of four samples.
pub open spec fn sb_units(use_128: bool) -> int {
    if use_128 {
        32
    } else {
        16
    }
}

/// The superblocks of the row at `row` from `col` on, up to `end`, and the first error.
pub open spec fn sb_row(
    t: Tile,
    refs: Seq<Option<Planes>>,
    cfg: TileConfig,
    use_128: bool,
    row: int,
    col: int,
    end: int,
) -> Step
    decreases at_least_0(end - col),
{
    if col >= end {
        (t, None)
    } else {
        let (t1, e) = superblock(t, refs, cfg, row, col, sb_size(use_128));
        if e is Some {
            (t1, e)
        } else {
            sb_row(t1, refs, cfg, use_128, row, col + sb_units(use_128), end)
        }
    }
}

/// The rows of superblocks from `row` on, up to `row_end`. An error ends its row; the
/// error of the last row that has one is kept, `out` being that of the rows before.
pub open spec fn sb_rows(
    t: Tile,
    refs: Seq<Option<Planes>>,
    cfg: TileConfig,
    use_128: bool,
    row: int,
    row_end: int,
    col: int,
    col_end: int,
    out: Option<KinetixError>,
) -> Step
    decreases at_least_0(row_end - row),
{
    if row >= row_end {
        (t, out)
    } else {
        let (t1, e) = sb_row(t, refs, cfg, use_128, row, col, col_end);
        sb_rows(
            t1,
            refs,
            cfg,
            use_128,
            row + sb_units(use_128),
            row_end,
            col,
            col_end,
            if e is Some {
                e
            } else {
                out
            },
        )
    }
}

/// The place of a tile in its frame.
pub struct TilePlace {
    pub use_128: bool,
    pub tile_x: int,
    pub tile_y: int,
    pub cols: int,
    pub rows: int,
}

/// What decoding a tile comes to, from its state before the first superblock.
pub open spec fn tile_decoded(
    t: Tile,
    refs: Seq<Option<Planes>>,
    cfg: TileConfig,
    p: TilePlace,
) -> Step {
    let (c0, c1) = tile_sbs(cfg.width as int, p.use_128, p.tile_x, p.cols);
    let (r0, r1) = tile_sbs(cfg.height as int, p.use_128, p.tile_y, p.rows);
    let u = sb_units(p.use_128);
    if c0 >= c1 || r0 >= r1 {
        (t, None)
    } else {
        sb_rows(t, refs, cfg, p.use_128, r0 * u, r1 * u, c0 * u, c1 * u, None)
    }
}

/// What a tile group comes to: the state of the tile behind it and its error. A group
/// that ends within its header leaves the planes as they are. A group without data has
/// nothing that could be wrong: it always decodes, as far as its padding does.
#[verifier::opaque]
pub open spec fn group_decoded(
    data: Seq<u8>,
    cfg: TileConfig,
    p: TilePlace,
    refs: Seq<Option<Planes>>,
    y: Seq<u8>,
    u: Seq<u8>,
    v: Seq<u8>,
    meta: MetaModel,
    coeff: TileCdfs,
    modes: ModeDefaults,
    trace: TraceModel,
) -> Step {
    match data_start(data, p.cols, p.rows) {
        None => (
            fresh_tile(data, 0, cfg, y, u, v, meta, coeff, modes).with_trace(trace),
            Some(truncated()),
        ),
        Some(at) => {
            let s = tile_decoded(
                fresh_tile(data, at, cfg, y, u, v, meta, coeff, modes).with_trace(trace),
                refs,
                cfg,
                p,
            );
            if data.len() == 0 {
                (s.0, None)
            } else {
                s
            }
        },
    }
}

fn decode_sb_row(
    state: &mut TileDecodeState<'_>,
    use_128: bool,
    row: usize,
    from: usize,
    to: usize,
) -> (r: Result<(), KinetixError>)
    requires
        old(state).wf(),
        row <= 0x1_0000,
        to <= 0x8000,
        old(state).cfg.tile_px_y0 <= row * 4,
        old(state).cfg.tile_px_x0 <= from * 4,
    ensures
        final(state).continues(*old(state)),
        ends(
            sb_row(
                old(state).model(),
                refs_model(old(state).refs),
                old(state).cfg,
                use_128,
                row as int,
                from as int,
                to as int,
            ),
            final(state).model(),
            r,
        ),
{
    let ghost t0 = state.model();
    let unit: usize = if use_128 {
        32
    } else {
        16
    };
    let bsize: usize = if use_128 {
        BLOCK_128X128
    } else {
        BLOCK_64X64
    };
    let mut col: usize = from;
    while col < to
        invariant
            old(state).wf(),
            state.continues(*old(state)),
            row <= 0x1_0000,
            to <= 0x8000,
            from <= col,
            old(state).cfg.tile_px_y0 <= row * 4,
            old(state).cfg.tile_px_x0 <= from * 4,
            unit == sb_units(use_128),
            bsize == sb_size(use_128),
            t0 == old(state).model(),
            sb_row(
                t0,
                refs_model(old(state).refs),
                old(state).cfg,
                use_128,
                row as int,
                from as int,
                to as int,
            ) == sb_row(
                state.model(),
                refs_model(old(state).refs),
                old(state).cfg,
                use_128,
                row as int,
                col as int,
                to as int,
            ),
        decreases 0x1_0000 - col,
    {
        match state.decode_superblock(row, col, bsize) {
            Ok(()) => {},
            Err(e) => {
                return Err(e);
            },
        }
        col = col + unit;
    }
    Ok(())
}

fn decode_sb_rows(
    state: &mut TileDecodeState<'_>,
    use_128: bool,
    row_from: usize,
    row_to: usize,
    from: usize,
    to: usize,
) -> (r: Result<(), KinetixError>)
    requires
        old(state).wf(),
        row_to <= 0x8000,
        to <= 0x8000,
        old(state).cfg.tile_px_y0 <= row_from * 4,
        old(state).cfg.tile_px_x0 <= from * 4,
    ensures
        final(state).continues(*old(state)),
        ends(
            sb_rows(
                old(state).model(),
                refs_model(old(state).refs),
                old(state).cfg,
                use_128,
                row_from as int,
                row_to as int,
                from as int,
                to as int,
                None,
            ),
            final(state).model(),
            r,
        ),
{
    let ghost t0 = state.model();
    let unit: usize = if use_128 {
        32
    } else {
        16
    };
    let mut out: Option<KinetixError> = None;
    let mut row: usize = row_from;
    while row < row_to
        invariant
            old(state).wf(),
            state.continues(*old(state)),
            row_to <= 0x8000,
            to <= 0x8000,
            row_from <= row,
            old(state).cfg.tile_px_y0 <= row_from * 4,
            old(state).cfg.tile_px_x0 <= from * 4,
            unit == sb_units(use_128),
            t0 == old(state).model(),
            sb_rows(
                t0,
                refs_model(old(state).refs),
                old(state).cfg,
                use_128,
                row_from as int,
                row_to as int,
                from as int,
                to as int,
                None,
            ) == sb_rows(
                state.model(),
                refs_model(old(state).refs),
                old(state).cfg,
                use_128,
                row as int,
                row_to as int,
                from as int,
                to as int,
                out,
            ),
        decreases 0x1_0000 - row,
    {
        match decode_sb_row(state, use_128, row, from, to) {
            Ok(()) => {},
            Err(e) => {
                out = Some(e);
            },
        }
        row = row + unit;
    }
    match out {
        None => Ok(()),
        Some(e) => Err(e),
    }
}

/// The superblocks of a tile along a side.
pub fn tile_superblocks(size: usize, use_128: bool, i: usize, n: usize) -> (r: (usize, usize))
    requires
        size <= 0x1_0000,
        n <= 0x1_0000,
    ensures
        (r.0 as int, r.1 as int) == tile_sbs(size as int, use_128, i as int, n as int),
        r.1 <= 1024,
        r.0 <= 0x800_0000,
{
    let all: usize = if use_128 {
        ((size + 3) / 4 + 31) / 32
    } else {
        ((size + 3) / 4 + 15) / 16
    };
    let m: usize = if n < 1 {
        1
    } else {
        n
    };
    let per: usize = (all + m - 1) / m;
    let t: usize = if i <= m - 1 {
        i
    } else {
        m - 1
    };
    proof {
        assert(per <= 1024) by (nonlinear_arith)
            requires
                per == (all + m - 1) / (m as int),
                all <= 1024,
                1 <= m,
        ;
        assert(t * per <= 0x400_0000 && (t + 1) * per <= 0x400_0400) by (nonlinear_arith)
            requires
                t <= 0x1_0000,
                per <= 1024,
        ;
    }
    let a: usize = t * per;
    let b: usize = (t + 1) * per;
    (
        a,
        if b <= all {
            b
        } else {
            all
        },
    )
}

/// The samples of a tile along a side.
pub fn tile_samples(size: usize, use_128: bool, i: usize, n: usize) -> (r: (usize, usize))
    requires
        size <= 0x1_0000,
        n <= 0x1_0000,
    ensures
        (r.0 as int, r.1 as int) == tile_span(size as int, use_128, i as int, n as int),
        r.0 <= r.1 <= size,
{
    proof {
        lemma_tile_sbs(size as int, use_128, i as int, n as int);
    }
    let sbs: (usize, usize) = tile_superblocks(size, use_128, i, n);
    let a: u64 = if use_128 {
        sbs.0 as u64 * 128
    } else {
        sbs.0 as u64 * 64
    };
    let b: u64 = if use_128 {
        sbs.1 as u64 * 128
    } else {
        sbs.1 as u64 * 64
    };
    (
        if a <= size as u64 {
            a as usize
        } else {
            size
        },
        if b <= size as u64 {
            b as usize
        } else {
            size
        },
    )
}

/// Decodes a tile group into the planes of a tile. An error in a row of superblocks
/// leaves the rest of the row as it is; the last error is returned.
pub fn decode_tile(
    data: &[u8],
    cfg: TileConfig,
    use_128: bool,
    tile_x: usize,
    tile_y: usize,
    tile_cols: usize,
    tile_rows: usize,
    y_plane: &mut Vec<u8>,
    u_plane: &mut Vec<u8>,
    v_plane: &mut Vec<u8>,
    refs: RefFrames<'_>,
    meta: &mut FrameMeta,
    tables: &Tables,
    trace: &mut SymbolTrace,
) -> (r: Result<(), KinetixError>)
    requires
        8 * data@.len() <= usize::MAX,
        8 * data@.len() <= i64::MAX,
        1 <= cfg.width <= 0x1_0000,
        1 <= cfg.height <= 0x1_0000,
        tile_cols <= 0x1_0000,
        tile_rows <= 0x1_0000,
        cfg.uv_w <= 0x1_0000,
        cfg.uv_h <= 0x1_0000,
        cfg.subsampling_x == cfg.subsampling_y,
        ({
            let (x0, x1) = tile_span(cfg.width as int, use_128, tile_x as int, tile_cols as int);
            let (y0, y1) = tile_span(cfg.height as int, use_128, tile_y as int, tile_rows as int);
            &&& cfg.tile_px_x0 == x0
            &&& cfg.tile_px_y0 == y0
            &&& cfg.tile_w == x1 - x0
            &&& cfg.tile_h == y1 - y0
        }),
        cfg.tile_w <= cfg.y_stride <= 0x1_0000,
        cfg.tile_cw() <= cfg.uv_stride <= 0x1_0000,
        refs_wf(refs),
        old(meta).wf(),
        tables.wf(),
    ensures
        final(y_plane)@.len() == old(y_plane)@.len(),
        final(u_plane)@.len() == old(u_plane)@.len(),
        final(v_plane)@.len() == old(v_plane)@.len(),
        final(meta).wf(),
        final(meta).w8 == old(meta).w8,
        final(meta).h8 == old(meta).h8,
        ({
            let s = group_decoded(
                data@,
                cfg,
                TilePlace {
                    use_128,
                    tile_x: tile_x as int,
                    tile_y: tile_y as int,
                    cols: tile_cols as int,
                    rows: tile_rows as int,
                },
                refs_model(refs),
                old(y_plane)@,
                old(u_plane)@,
                old(v_plane)@,
                old(meta)@,
                tables.coeff[q_bucket(cfg.qindex as int)],
                tables.modes,
                old(trace)@,
            );
            &&& final(trace)@ == s.0.sym.trace
            &&& final(y_plane)@ == s.0.y
            &&& final(u_plane)@ == s.0.u
            &&& final(v_plane)@ == s.0.v
            &&& final(meta)@ == s.0.meta
            &&& match s.1 {
                Some(e) => r == Err::<(), KinetixError>(e),
                None => r == Ok::<(), KinetixError>(()),
            }
        }),
{
    proof {
        reveal(group_decoded);
        lemma_tile_sbs(cfg.width as int, use_128, tile_x as int, tile_cols as int);
        lemma_tile_sbs(cfg.height as int, use_128, tile_y as int, tile_rows as int);
    }
    let cols: usize = if tile_cols < 1 {
        1
    } else {
        tile_cols
    };
    let rows: usize = if tile_rows < 1 {
        1
    } else {
        tile_rows
    };
    let at: usize = match find_data(data, cols, rows) {
        Ok(p) => p,
        Err(e) => {
            return Err(e);
        },
    };
    let c: (usize, usize) = tile_superblocks(cfg.width, use_128, tile_x, tile_cols);
    let q: (usize, usize) = tile_superblocks(cfg.height, use_128, tile_y, tile_rows);
    if c.0 >= c.1 || q.0 >= q.1 {
        return Ok(());
    }
    let mut y: Vec<u8> = Vec::new();
    let mut u: Vec<u8> = Vec::new();
    let mut v: Vec<u8> = Vec::new();
    let mut m: FrameMeta = FrameMeta::new(0, 0);
    core::mem::swap(&mut y, y_plane);
    core::mem::swap(&mut u, u_plane);
    core::mem::swap(&mut v, v_plane);
    core::mem::swap(&mut m, meta);
    let mut state: TileDecodeState<'_> = TileDecodeState::new(
        data,
        at,
        cfg,
        y,
        u,
        v,
        m,
        refs,
        &tables.coeff,
        &tables.modes,
    );
    state.dec.swap_trace(trace);
    let r: Result<(), KinetixError> = if use_128 {
        decode_sb_rows(&mut state, use_128, q.0 * 32, q.1 * 32, c.0 * 32, c.1 * 32)
    } else {
        decode_sb_rows(&mut state, use_128, q.0 * 16, q.1 * 16, c.0 * 16, c.1 * 16)
    };
    state.dec.swap_trace(trace);
    let TileDecodeState { y_plane: y1, u_plane: u1, v_plane: v1, meta: m1, .. } = state;
    *y_plane = y1;
    *u_plane = u1;
    *v_plane = v1;
    *meta = m1;
    if data.len() == 0 {
        Ok(())
    } else {
        r
    }
}

/// A tile group without data decodes, where the frame has but one tile.
pub proof fn law_empty_group(
    cfg: TileConfig,
    p: TilePlace,
    refs: Seq<Option<Planes>>,
    y: Seq<u8>,
    u: Seq<u8>,
    v: Seq<u8>,
    meta: MetaModel,
    coeff: TileCdfs,
    modes: ModeDefaults,
    trace: TraceModel,
)
    requires
        p.cols <= 1,
        p.rows <= 1,
    ensures
        group_decoded(seq![], cfg, p, refs, y, u, v, meta, coeff, modes, trace).1 is None,
{
    reveal(group_decoded);
}

} // verus!
