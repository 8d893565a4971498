//! The map of a palette block: the color of every sample.
//!
//! The samples on screen are coded along diagonals, from the upper right to the lower
//! left; the samples beyond repeat the last column and the last row.
use crate::blocks::{lemma_block_dims, BLOCK_HEIGHT, BLOCK_WIDTH};
use crate::cdef::held;
use crate::entropy::{Coder, SymbolDecoder};
use crate::intra_pred::MID_SAMPLE;
use crate::mode_cdfs::{ModeCdfs, ModeKey};
use crate::mode_syntax::{color_key, m_state};
use crate::palette::{color_context, get_palette_color_context, neighbours_below, ns_of, read_ns};
use crate::transform::lemma_block_cell;
use vstd::prelude::*;

verus! {

/// The row and the column of position `i * w + j`.
pub proof fn lemma_position(w: int, i: int, j: int)
    requires
        0 <= j < w,
    ensures
        (i * w + j) / w == i,
        (i * w + j) % w == j,
{
    vstd::arithmetic::div_mod::lemma_fundamental_div_mod_converse(i * w + j, w, i, j);
}

/// A map and the decoder behind it.
#[verifier::ext_equal]
pub struct MapState {
    pub map: Seq<u8>,
    pub c: Coder<ModeKey>,
}

/// What the samples of a map are coded with.
pub struct MapCode {
    /// The width of the map.
    pub stride: int,
    /// The number of colors.
    pub n: int,
    pub uv: bool,
    /// The size of the part on screen.
    pub ow: int,
    pub oh: int,
}

/// The map after the sample in row `r` and column `j` is read.
pub open spec fn map_cell(st: MapState, m: MapCode, r: int, j: int) -> MapState {
    let (ctx, order) = color_context(st.map, m.stride, r, j, m.n);
    let k = color_key(m.uv, m.n, ctx);
    MapState { map: st.map.update(r * m.stride + j, order[st.c.val(k)]), c: st.c.next(k) }
}

/// The first column of diagonal `i`, which is read first.
pub open spec fn diag_start(m: MapCode, i: int) -> int {
    if i < m.ow {
        i
    } else {
        m.ow - 1
    }
}

/// The last column of diagonal `i`.
pub open spec fn diag_end(m: MapCode, i: int) -> int {
    if i < m.oh {
        0
    } else {
        i + 1 - m.oh
    }
}

/// The map after the first `k` samples of diagonal `i` are read.
pub open spec fn map_diag(st: MapState, m: MapCode, i: int, k: int) -> MapState
    decreases k,
{
    if k <= 0 {
        st
    } else {
        let j = diag_start(m, i) - (k - 1);
        map_cell(map_diag(st, m, i, k - 1), m, i - j, j)
    }
}

/// The map after diagonals 1 to `i` are read.
pub open spec fn map_diags(st: MapState, m: MapCode, i: int) -> MapState
    decreases i,
{
    if i <= 0 {
        st
    } else {
        map_diag(
            map_diags(st, m, i - 1),
            m,
            i,
            diag_start(m, i) - diag_end(m, i) + 1,
        )
    }
}

/// A map whose last column and last row on screen are repeated.
pub open spec fn map_extended(map: Seq<u8>, bw: int, bh: int, ow: int, oh: int) -> Seq<u8> {
    Seq::new((bw * bh) as nat, |p: int| map[held(p / bw, oh) * bw + held(p % bw, ow)])
}

/// A map before its first sample is read.
pub open spec fn blank_map(bw: int, bh: int) -> Seq<u8> {
    Seq::new((bw * bh) as nat, |p: int| 0u8)
}

/// The map of `bw` by `bh` samples, `ow` by `oh` of them on screen, and the decoder
/// behind it.
#[verifier::opaque]
pub open spec fn color_map_of(
    c: Coder<ModeKey>,
    n: int,
    uv: bool,
    bw: int,
    bh: int,
    ow: int,
    oh: int,
) -> MapState {
    let (first, sym) = ns_of(c.sym, n);
    let m = MapCode { stride: bw, n, uv, ow, oh };
    let st = map_diags(
        MapState {
            map: blank_map(bw, bh).update(0, first as u8),
            c: Coder { sym, bank: c.bank },
        },
        m,
        ow + oh - 2,
    );
    MapState { map: map_extended(st.map, bw, bh, ow, oh), c: st.c }
}

/// Every sample names a color below `n`.
pub open spec fn map_below(map: Seq<u8>, n: int) -> bool {
    forall|p: int| 0 <= p < map.len() ==> #[trigger] map[p] < n
}

/// The sizes of a part on screen.
spec fn code_ok(m: MapCode, len: int) -> bool {
    &&& 2 <= m.n <= 8
    &&& 1 <= m.ow <= m.stride <= 256
    &&& 1 <= m.oh <= 256
    &&& m.oh * m.stride <= len
}

proof fn lemma_cell_inside(m: MapCode, len: int, r: int, j: int)
    requires
        code_ok(m, len),
        0 <= r < m.oh,
        0 <= j < m.ow,
    ensures
        0 <= r * m.stride + j < len,
        r > 0 ==> 0 <= (r - 1) * m.stride + j < len,
{
    lemma_block_cell(m.stride, m.oh, r, j);
    assert(m.oh * m.stride == m.stride * m.oh) by (nonlinear_arith);
    if r > 0 {
        lemma_block_cell(m.stride, m.oh, r - 1, j);
    }
}

proof fn lemma_below_neighbours(map: Seq<u8>, m: MapCode, r: int, j: int)
    requires
        code_ok(m, map.len() as int),
        map_below(map, m.n),
        0 <= r < m.oh,
        0 <= j < m.ow,
    ensures
        neighbours_below(map, m.stride, r, j, m.n),
{
    lemma_cell_inside(m, map.len() as int, r, j);
    if j > 0 {
        lemma_cell_inside(m, map.len() as int, r, j - 1);
        assert(r * m.stride + j - 1 == r * m.stride + (j - 1));
        if r > 0 {
            assert((r - 1) * m.stride + j - 1 == (r - 1) * m.stride + (j - 1));
        }
    }
}

/// Reads one sample of a map.
fn read_cell(
    dec: &mut SymbolDecoder<'_>,
    cdfs: &mut ModeCdfs,
    map: &mut Vec<u8>,
    stride: usize,
    n: usize,
    is_uv: bool,
    r: usize,
    j: usize,
    Ghost(m): Ghost<MapCode>,
)
    requires
        old(dec)@.wf(),
        old(cdfs).wf(),
        code_ok(m, old(map)@.len() as int),
        m.stride == stride,
        m.n == n,
        m.uv == is_uv,
        r < m.oh,
        j < m.ow,
        map_below(old(map)@, n as int),
    ensures
        final(dec)@.wf(),
        final(cdfs).wf(),
        final(map)@.len() == old(map)@.len(),
        map_below(final(map)@, n as int),
        (MapState { map: final(map)@, c: m_state(*final(dec), *final(cdfs)) }) == map_cell(
            MapState { map: old(map)@, c: m_state(*old(dec), *old(cdfs)) },
            m,
            r as int,
            j as int,
        ),
{
    proof {
        lemma_cell_inside(m, map@.len() as int, r as int, j as int);
        lemma_below_neighbours(map@, m, r as int, j as int);
    }
    let found: (usize, [u8; 8]) = get_palette_color_context(map.as_slice(), stride, r, j, n);
    let sym: usize = if is_uv {
        cdfs.read_palette_color_idx_uv(dec, n, found.0)
    } else {
        cdfs.read_palette_color_idx_y(dec, n, found.0)
    };
    assert(sym < n);
    let color: u8 = found.1[sym];
    proof {
        assert(found.1@[sym as int] < n);
        assert(map.len() <= usize::MAX);
        assert(0 <= r * stride) by (nonlinear_arith);
    }
    map.set(r * stride + j, color);
}

/// Reads one diagonal of a map.
fn read_diag(
    dec: &mut SymbolDecoder<'_>,
    cdfs: &mut ModeCdfs,
    map: &mut Vec<u8>,
    stride: usize,
    n: usize,
    is_uv: bool,
    ow: usize,
    oh: usize,
    i: usize,
    Ghost(m): Ghost<MapCode>,
)
    requires
        old(dec)@.wf(),
        old(cdfs).wf(),
        code_ok(m, old(map)@.len() as int),
        m.stride == stride,
        m.n == n,
        m.uv == is_uv,
        m.ow == ow,
        m.oh == oh,
        1 <= i <= ow + oh - 2,
        map_below(old(map)@, n as int),
    ensures
        final(dec)@.wf(),
        final(cdfs).wf(),
        final(map)@.len() == old(map)@.len(),
        map_below(final(map)@, n as int),
        (MapState { map: final(map)@, c: m_state(*final(dec), *final(cdfs)) }) == map_diag(
            MapState { map: old(map)@, c: m_state(*old(dec), *old(cdfs)) },
            m,
            i as int,
            diag_start(m, i as int) - diag_end(m, i as int) + 1,
        ),
{
    let ghost st0 = MapState { map: map@, c: m_state(*dec, *cdfs) };
    let ghost len = map@.len();
    let hi: usize = if i < ow {
        i
    } else {
        ow - 1
    };
    let lo: usize = if i < oh {
        0
    } else {
        i + 1 - oh
    };
    let count: usize = hi - lo + 1;
    let mut k: usize = 0;
    while k < count
        invariant
            k <= count,
            count == hi - lo + 1,
            lo <= hi < ow,
            hi <= i,
            i - lo < oh,
            hi == diag_start(m, i as int),
            lo == diag_end(m, i as int),
            dec@.wf(),
            cdfs.wf(),
            map@.len() == len,
            code_ok(m, len as int),
            m.stride == stride,
            m.n == n,
            m.uv == is_uv,
            m.ow == ow,
            m.oh == oh,
            map_below(map@, n as int),
            (MapState { map: map@, c: m_state(*dec, *cdfs) }) == map_diag(
                st0,
                m,
                i as int,
                k as int,
            ),
        decreases count - k,
    {
        let j: usize = hi - k;
        read_cell(dec, cdfs, map, stride, n, is_uv, i - j, j, Ghost(m));
        k = k + 1;
    }
}

/// Repeats the last column and the last row on screen.
fn extend_map(map: &Vec<u8>, bw: usize, bh: usize, ow: usize, oh: usize) -> (r: Vec<u8>)
    requires
        1 <= ow <= bw <= 256,
        1 <= oh <= bh <= 256,
        map@.len() == bw * bh,
    ensures
        r@ == map_extended(map@, bw as int, bh as int, ow as int, oh as int),
{
    let mut r: Vec<u8> = Vec::new();
    let mut i: usize = 0;
    while i < bh
        invariant
            i <= bh,
            1 <= ow <= bw <= 256,
            1 <= oh <= bh <= 256,
            map@.len() == bw * bh,
            r@.len() == i * bw,
            forall|p: int|
                0 <= p < r@.len() ==> #[trigger] r@[p] == map@[held(p / bw as int, oh as int) * bw
                    + held(p % bw as int, ow as int)],
        decreases bh - i,
    {
        let mut j: usize = 0;
        while j < bw
            invariant
                j <= bw,
                i < bh,
                1 <= ow <= bw <= 256,
                1 <= oh <= bh <= 256,
                map@.len() == bw * bh,
                r@.len() == i * bw + j,
                forall|p: int|
                    0 <= p < r@.len() ==> #[trigger] r@[p] == map@[held(p / bw as int, oh as int)
                        * bw + held(p % bw as int, ow as int)],
            decreases bw - j,
        {
            let si: usize = if i < oh {
                i
            } else {
                oh - 1
            };
            let sj: usize = if j < ow {
                j
            } else {
                ow - 1
            };
            proof {
                lemma_position(bw as int, i as int, j as int);
                lemma_block_cell(bw as int, bh as int, si as int, sj as int);
                assert(si * bw <= 256 * 256) by (nonlinear_arith)
                    requires
                        si <= 256,
                        bw <= 256,
                ;
            }
            r.push(map[si * bw + sj]);
            j = j + 1;
        }
        proof {
            assert((i + 1) * bw == i * bw + bw) by (nonlinear_arith);
        }
        i = i + 1;
    }
    assert(bh * bw == bw * bh) by (nonlinear_arith);
    assert(r@ =~= map_extended(map@, bw as int, bh as int, ow as int, oh as int));
    r
}

proof fn lemma_extended_below(map: Seq<u8>, n: int, bw: int, bh: int, ow: int, oh: int)
    requires
        map_below(map, n),
        1 <= ow <= bw,
        1 <= oh <= bh,
        map.len() == bw * bh,
    ensures
        map_below(map_extended(map, bw, bh, ow, oh), n),
{
    let e = map_extended(map, bw, bh, ow, oh);
    assert forall|p: int| 0 <= p < e.len() implies #[trigger] e[p] < n by {
        vstd::arithmetic::div_mod::lemma_div_pos_is_pos(p, bw);
        vstd::arithmetic::div_mod::lemma_mod_bound(p, bw);
        let i = held(p / bw, oh);
        let j = held(p % bw, ow);
        lemma_block_cell(bw, bh, i, j);
        assert(map[i * bw + j] < n);
    }
}

/// Reads the map of a block.
pub fn read_map(
    dec: &mut SymbolDecoder<'_>,
    cdfs: &mut ModeCdfs,
    n: usize,
    is_uv: bool,
    bw: usize,
    bh: usize,
    ow: usize,
    oh: usize,
) -> (r: Vec<u8>)
    requires
        old(dec)@.wf(),
        old(cdfs).wf(),
        2 <= n <= 8,
        1 <= ow <= bw <= 256,
        1 <= oh <= bh <= 256,
    ensures
        final(dec)@.wf(),
        final(cdfs).wf(),
        (MapState { map: r@, c: m_state(*final(dec), *final(cdfs)) }) == color_map_of(
            m_state(*old(dec), *old(cdfs)),
            n as int,
            is_uv,
            bw as int,
            bh as int,
            ow as int,
            oh as int,
        ),
        map_below(r@, n as int),
{
    proof {
        reveal(color_map_of);
        assert(1 <= bw * bh <= 65536) by (nonlinear_arith)
            requires
                1 <= bw <= 256,
                1 <= bh <= 256,
        ;
        assert(oh * bw <= bw * bh) by (nonlinear_arith)
            requires
                oh <= bh,
        ;
    }
    let ghost m = MapCode { stride: bw as int, n: n as int, uv: is_uv, ow: ow as int, oh: oh as int };
    let len: usize = bw * bh;
    let mut map: Vec<u8> = vec![0u8; len];
    assert(map@ =~= blank_map(bw as int, bh as int));
    let first: u32 = read_ns(dec, n as u32);
    map.set(0, first as u8);
    let ghost st0 = MapState { map: map@, c: m_state(*dec, *cdfs) };
    let last: usize = ow + oh - 2;
    let mut i: usize = 0;
    while i < last
        invariant
            i <= last,
            last == ow + oh - 2,
            dec@.wf(),
            cdfs.wf(),
            map@.len() == len,
            code_ok(m, len as int),
            m == (MapCode {
                stride: bw as int,
                n: n as int,
                uv: is_uv,
                ow: ow as int,
                oh: oh as int,
            }),
            map_below(map@, n as int),
            (MapState { map: map@, c: m_state(*dec, *cdfs) }) == map_diags(st0, m, i as int),
        decreases last - i,
    {
        read_diag(dec, cdfs, &mut map, bw, n, is_uv, ow, oh, i + 1, Ghost(m));
        i = i + 1;
    }
    proof {
        lemma_extended_below(map@, n as int, bw as int, bh as int, ow as int, oh as int);
    }
    extend_map(&map, bw, bh, ow, oh)
}

/// The sizes of the map of a block: the whole of it, then the part on screen.
pub struct MapSize {
    pub bw: int,
    pub bh: int,
    pub ow: int,
    pub oh: int,
}

/// A side of a map that is halved, but not below four samples.
pub open spec fn halved_side(n: int, whole: int, sub: bool) -> int {
    let h = if sub {
        n / 2
    } else {
        n
    };
    let w = if sub {
        whole / 2
    } else {
        whole
    };
    if w < 4 {
        h + 2
    } else {
        h
    }
}

/// The part of a side that is on screen.
pub open spec fn onscreen(size: int, left: int) -> int {
    if size < left * 4 {
        size
    } else {
        left * 4
    }
}

/// The sizes of the map of a block, with `rows` and `cols` units of four samples left
/// on screen.
pub open spec fn map_size(
    bsize: int,
    rows: int,
    cols: int,
    uv: bool,
    sub_x: bool,
    sub_y: bool,
) -> MapSize {
    let w = BLOCK_WIDTH[bsize] as int;
    let h = BLOCK_HEIGHT[bsize] as int;
    let ow = onscreen(w, cols);
    let oh = onscreen(h, rows);
    if uv {
        MapSize {
            bw: halved_side(w, w, sub_x),
            bh: halved_side(h, h, sub_y),
            ow: halved_side(ow, w, sub_x),
            oh: halved_side(oh, h, sub_y),
        }
    } else {
        MapSize { bw: w, bh: h, ow, oh }
    }
}

/// A map with its width, and the decoder behind it; no map for no colors.
#[verifier::opaque]
pub open spec fn block_map_of(
    c: Coder<ModeKey>,
    bsize: int,
    rows: int,
    cols: int,
    n: int,
    uv: bool,
    sub_x: bool,
    sub_y: bool,
) -> (Seq<u8>, int, Coder<ModeKey>) {
    if n == 0 {
        (Seq::empty(), 0, c)
    } else {
        let z = map_size(bsize, rows, cols, uv, sub_x, sub_y);
        let st = color_map_of(c, n, uv, z.bw, z.bh, z.ow, z.oh);
        (st.map, z.bw, st.c)
    }
}

fn halve_side(n: usize, whole: usize, sub: bool) -> (r: usize)
    requires
        n <= 256,
        whole <= 256,
    ensures
        r == halved_side(n as int, whole as int, sub),
{
    let h: usize = if sub {
        n / 2
    } else {
        n
    };
    let w: usize = if sub {
        whole / 2
    } else {
        whole
    };
    if w < 4 {
        h + 2
    } else {
        h
    }
}

/// Reads the map of a block of which `rows` and `cols` units of four samples are left
/// on screen. Returns it with its width.
pub fn read_color_map(
    dec: &mut SymbolDecoder<'_>,
    cdfs: &mut ModeCdfs,
    bsize: usize,
    rows: usize,
    cols: usize,
    n: usize,
    is_uv: bool,
    sub_x: bool,
    sub_y: bool,
) -> (r: (Vec<u8>, usize))
    requires
        old(dec)@.wf(),
        old(cdfs).wf(),
        bsize < 22,
        1 <= rows <= 0x1_0000,
        1 <= cols <= 0x1_0000,
        n == 0 || 2 <= n <= 8,
    ensures
        final(dec)@.wf(),
        final(cdfs).wf(),
        (r.0@, r.1 as int, m_state(*final(dec), *final(cdfs))) == block_map_of(
            m_state(*old(dec), *old(cdfs)),
            bsize as int,
            rows as int,
            cols as int,
            n as int,
            is_uv,
            sub_x,
            sub_y,
        ),
        r.1 <= 256,
{
    proof {
        reveal(block_map_of);
        lemma_block_dims(bsize as int);
    }
    if n == 0 {
        let none: Vec<u8> = Vec::new();
        assert(none@ =~= Seq::empty());
        return (none, 0);
    }
    let w: usize = BLOCK_WIDTH[bsize];
    let h: usize = BLOCK_HEIGHT[bsize];
    let ow: usize = if w < cols * 4 {
        w
    } else {
        cols * 4
    };
    let oh: usize = if h < rows * 4 {
        h
    } else {
        rows * 4
    };
    if is_uv {
        let bw2: usize = halve_side(w, w, sub_x);
        let bh2: usize = halve_side(h, h, sub_y);
        let ow2: usize = halve_side(ow, w, sub_x);
        let oh2: usize = halve_side(oh, h, sub_y);
        let map: Vec<u8> = read_map(dec, cdfs, n, is_uv, bw2, bh2, ow2, oh2);
        (map, bw2)
    } else {
        let map: Vec<u8> = read_map(dec, cdfs, n, is_uv, w, h, ow, oh);
        (map, w)
    }
}

// ---------------------------------------------------------------------------
// Prediction
// ---------------------------------------------------------------------------

/// The color of row `i` and column `j` of a transform block at `x`, `y` of a block. A
/// position without a color has the first one.
pub open spec fn palette_pixel(
    colors: Seq<i32>,
    map: Seq<u8>,
    stride: int,
    x: int,
    y: int,
    i: int,
    j: int,
) -> i32 {
    let p = (y + i) * stride + x + j;
    if 0 <= p < map.len() && map[p] < colors.len() {
        colors[map[p] as int]
    } else if colors.len() > 0 {
        colors[0]
    } else {
        MID_SAMPLE
    }
}

/// The prediction of a transform block of `w` by `h` samples from a palette.
pub open spec fn palette_pred(
    colors: Seq<i32>,
    map: Seq<u8>,
    stride: int,
    x: int,
    y: int,
    w: int,
    h: int,
) -> Seq<i32> {
    Seq::new((w * h) as nat, |p: int| palette_pixel(colors, map, stride, x, y, p / w, p % w))
}

/// Predicts a transform block from a palette.
pub fn predict_palette(
    colors: &Vec<i32>,
    color_map: &Vec<u8>,
    map_stride: usize,
    off_x: usize,
    off_y: usize,
    tx_w: usize,
    tx_h: usize,
) -> (r: Vec<i32>)
    requires
        map_stride <= 256,
        off_x <= 256,
        off_y <= 256,
        1 <= tx_w <= 64,
        1 <= tx_h <= 64,
    ensures
        r@ == palette_pred(
            colors@,
            color_map@,
            map_stride as int,
            off_x as int,
            off_y as int,
            tx_w as int,
            tx_h as int,
        ),
{
    let fallback: i32 = if colors.len() > 0 {
        colors[0]
    } else {
        MID_SAMPLE
    };
    let mut r: Vec<i32> = Vec::new();
    let mut i: usize = 0;
    while i < tx_h
        invariant
            i <= tx_h,
            map_stride <= 256,
            off_x <= 256,
            off_y <= 256,
            1 <= tx_w <= 64,
            1 <= tx_h <= 64,
            fallback == if colors@.len() > 0 {
                colors@[0]
            } else {
                MID_SAMPLE
            },
            r@.len() == i * tx_w,
            forall|p: int|
                0 <= p < r@.len() ==> #[trigger] r@[p] == palette_pixel(
                    colors@,
                    color_map@,
                    map_stride as int,
                    off_x as int,
                    off_y as int,
                    p / tx_w as int,
                    p % tx_w as int,
                ),
        decreases tx_h - i,
    {
        let mut j: usize = 0;
        while j < tx_w
            invariant
                j <= tx_w,
                i < tx_h,
                map_stride <= 256,
                off_x <= 256,
                off_y <= 256,
                1 <= tx_w <= 64,
                1 <= tx_h <= 64,
                fallback == if colors@.len() > 0 {
                    colors@[0]
                } else {
                    MID_SAMPLE
                },
                r@.len() == i * tx_w + j,
                forall|p: int|
                    0 <= p < r@.len() ==> #[trigger] r@[p] == palette_pixel(
                        colors@,
                        color_map@,
                        map_stride as int,
                        off_x as int,
                        off_y as int,
                        p / tx_w as int,
                        p % tx_w as int,
                    ),
            decreases tx_w - j,
        {
            proof {
                lemma_position(tx_w as int, i as int, j as int);
                assert(0 <= (off_y + i) * map_stride <= 320 * 256) by (nonlinear_arith)
                    requires
                        off_y + i <= 320,
                        map_stride <= 256,
                ;
            }
            let p: usize = (off_y + i) * map_stride + off_x + j;
            let v: i32 = if p < color_map.len() && (color_map[p] as usize) < colors.len() {
                colors[color_map[p] as usize]
            } else {
                fallback
            };
            r.push(v);
            j = j + 1;
        }
        proof {
            assert((i + 1) * tx_w == i * tx_w + tx_w) by (nonlinear_arith);
        }
        i = i + 1;
    }
    assert(tx_h * tx_w == tx_w * tx_h) by (nonlinear_arith);
    assert(r@ =~= palette_pred(
        colors@,
        color_map@,
        map_stride as int,
        off_x as int,
        off_y as int,
        tx_w as int,
        tx_h as int,
    ));
    r
}

} // verus!
