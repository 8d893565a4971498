//! Block sizes: their dimensions, how they split, and the transform sizes that belong
//! to them.
use crate::coeff_tables::{
    MAX_TX_SIZE_RECT, SPLIT_TX_SIZE, TX_16X32, TX_32X16, TX_32X32, TX_HEIGHT, TX_WIDTH,
};
use vstd::prelude::*;

verus! {

pub const BLOCK_4X4: usize = 0;

pub const BLOCK_4X8: usize = 1;

pub const BLOCK_8X4: usize = 2;

pub const BLOCK_8X8: usize = 3;

pub const BLOCK_8X16: usize = 4;

pub const BLOCK_16X8: usize = 5;

pub const BLOCK_16X16: usize = 6;

pub const BLOCK_16X32: usize = 7;

pub const BLOCK_32X16: usize = 8;

pub const BLOCK_32X32: usize = 9;

pub const BLOCK_32X64: usize = 10;

pub const BLOCK_64X32: usize = 11;

pub const BLOCK_64X64: usize = 12;

pub const BLOCK_64X128: usize = 13;

pub const BLOCK_128X64: usize = 14;

pub const BLOCK_128X128: usize = 15;

pub const BLOCK_4X16: usize = 16;

pub const BLOCK_16X4: usize = 17;

pub const BLOCK_8X32: usize = 18;

pub const BLOCK_32X8: usize = 19;

pub const BLOCK_16X64: usize = 20;

pub const BLOCK_64X16: usize = 21;

/// No block size.
pub const BLOCK_INVALID: usize = 255;

/// Block widths in samples.
pub const BLOCK_WIDTH: [usize; 22] = [
    4, 4, 8, 8, 8, 16, 16, 16, 32, 32, 32, 64, 64, 64, 128, 128, 4, 16, 8, 32, 16, 64,
];

/// Block heights in samples.
pub const BLOCK_HEIGHT: [usize; 22] = [
    4, 8, 4, 8, 16, 8, 16, 32, 16, 32, 64, 32, 64, 128, 64, 128, 16, 4, 32, 8, 64, 16,
];

/// Binary logarithms of the block widths in units of four samples.
pub const MI_WIDTH_LOG2: [usize; 22] = [
    0, 0, 1, 1, 1, 2, 2, 2, 3, 3, 3, 4, 4, 4, 5, 5, 0, 2, 1, 3, 2, 4,
];

/// Binary logarithms of the block heights in units of four samples.
pub const MI_HEIGHT_LOG2: [usize; 22] = [
    0, 1, 0, 1, 2, 1, 2, 3, 2, 3, 4, 3, 4, 5, 4, 5, 2, 0, 3, 1, 4, 2,
];

/// How many times the largest transform of a block may be split.
pub const MAX_TX_DEPTH_TABLE: [usize; 22] = [
    0, 1, 1, 1, 2, 2, 2, 3, 3, 3, 4, 4, 4, 4, 4, 4, 2, 2, 3, 3, 4, 4,
];

/// The group of partition tables of a block.
pub const PARTITION_CDF_LOOKUP: [usize; 22] = [
    0, 0, 0, 0, 1, 1, 1, 2, 2, 2, 3, 3, 3, 4, 4, 4, 0, 0, 1, 1, 2, 2,
];

/// The context class of an intra mode.
pub const INTRA_MODE_CONTEXT: [usize; 13] = [0, 1, 2, 3, 4, 4, 4, 3, 3, 1, 1, 2, 0];

pub const PARTITION_NONE: u8 = 0;

pub const PARTITION_HORZ: u8 = 1;

pub const PARTITION_VERT: u8 = 2;

pub const PARTITION_SPLIT: u8 = 3;

pub const PARTITION_HORZ_A: u8 = 4;

pub const PARTITION_HORZ_B: u8 = 5;

pub const PARTITION_VERT_A: u8 = 6;

pub const PARTITION_VERT_B: u8 = 7;

pub const PARTITION_HORZ_4: u8 = 8;

pub const PARTITION_VERT_4: u8 = 9;

/// The size of a block in a plane that is halved across and down.
pub const HALVED_SIZE: [usize; 22] = [
    BLOCK_4X4, BLOCK_4X4, BLOCK_4X4, BLOCK_4X4, BLOCK_4X8, BLOCK_8X4, BLOCK_8X8, BLOCK_8X16,
    BLOCK_16X8, BLOCK_16X16, BLOCK_16X32, BLOCK_32X16, BLOCK_32X32, BLOCK_32X64, BLOCK_64X32,
    BLOCK_64X64, BLOCK_4X8, BLOCK_8X4, BLOCK_4X16, BLOCK_16X4, BLOCK_8X32, BLOCK_32X8,
];

/// The size of a block in a plane that is halved across only.
pub const HALVED_WIDTH: [usize; 22] = [
    BLOCK_4X4, BLOCK_INVALID, BLOCK_4X4, BLOCK_4X8, BLOCK_INVALID, BLOCK_8X8, BLOCK_8X16,
    BLOCK_INVALID, BLOCK_16X16, BLOCK_16X32, BLOCK_INVALID, BLOCK_32X32, BLOCK_32X64,
    BLOCK_INVALID, BLOCK_64X64, BLOCK_64X128, BLOCK_INVALID, BLOCK_8X4, BLOCK_INVALID, BLOCK_16X8,
    BLOCK_INVALID, BLOCK_32X16,
];

/// The size of a block in a plane that is halved down only.
pub const HALVED_HEIGHT: [usize; 22] = [
    BLOCK_4X4, BLOCK_4X4, BLOCK_INVALID, BLOCK_8X4, BLOCK_8X8, BLOCK_INVALID, BLOCK_16X8,
    BLOCK_16X16, BLOCK_INVALID, BLOCK_32X16, BLOCK_32X32, BLOCK_INVALID, BLOCK_64X32, BLOCK_64X64,
    BLOCK_INVALID, BLOCK_128X64, BLOCK_4X8, BLOCK_INVALID, BLOCK_8X16, BLOCK_INVALID,
    BLOCK_16X32, BLOCK_INVALID,
];

/// The facts about a block size that bounds rest on.
pub proof fn lemma_block_dims(b: int)
    requires
        0 <= b < 22,
    ensures
        4 <= BLOCK_WIDTH[b] <= 128,
        4 <= BLOCK_HEIGHT[b] <= 128,
        BLOCK_WIDTH[b] % 4 == 0,
        BLOCK_HEIGHT[b] % 4 == 0,
        MI_WIDTH_LOG2[b] <= 5,
        MI_HEIGHT_LOG2[b] <= 5,
        MAX_TX_DEPTH_TABLE[b] <= 4,
        PARTITION_CDF_LOOKUP[b] <= 4,
        MAX_TX_SIZE_RECT[b] < 19,
        HALVED_SIZE[b] < 22,
        HALVED_WIDTH[b] < 22 || HALVED_WIDTH[b] == BLOCK_INVALID,
        HALVED_HEIGHT[b] < 22 || HALVED_HEIGHT[b] == BLOCK_INVALID,
{
}

/// The logarithms are those of the dimensions.
pub proof fn law_mi_logs(b: int)
    requires
        0 <= b < 22,
    ensures
        BLOCK_WIDTH[b] == 4 * crate::bits::pow2i(MI_WIDTH_LOG2[b] as int),
        BLOCK_HEIGHT[b] == 4 * crate::bits::pow2i(MI_HEIGHT_LOG2[b] as int),
{
    crate::bits::lemma_pow2i_values();
}

/// A plane that is halved holds half of a block across and down, but no less than
/// four samples.
pub proof fn law_halved_size(b: int)
    requires
        0 <= b < 22,
    ensures
        BLOCK_WIDTH[HALVED_SIZE[b] as int] == if BLOCK_WIDTH[b] > 4 {
            BLOCK_WIDTH[b] as int / 2
        } else {
            4
        },
        BLOCK_HEIGHT[HALVED_SIZE[b] as int] == if BLOCK_HEIGHT[b] > 4 {
            BLOCK_HEIGHT[b] as int / 2
        } else {
            4
        },
{
}

/// The largest transform of a block.
pub fn max_tx_size_for_bsize(bsize: usize) -> (r: usize)
    requires
        bsize < 22,
    ensures
        r == MAX_TX_SIZE_RECT[bsize as int],
        r < 19,
{
    proof {
        lemma_block_dims(bsize as int);
    }
    MAX_TX_SIZE_RECT[bsize]
}

/// The size of a block in a plane, `BLOCK_INVALID` where it has none.
pub open spec fn plane_size(bsize: int, sub_x: bool, sub_y: bool) -> int {
    if sub_x && sub_y {
        HALVED_SIZE[bsize] as int
    } else if sub_x {
        HALVED_WIDTH[bsize] as int
    } else if sub_y {
        HALVED_HEIGHT[bsize] as int
    } else {
        bsize
    }
}

/// The size of a block in a plane, `BLOCK_INVALID` where it has none.
pub fn get_plane_residual_size(bsize: usize, subsampling_x: bool, subsampling_y: bool) -> (r: usize)
    requires
        bsize < 22,
    ensures
        r == plane_size(bsize as int, subsampling_x, subsampling_y),
        r < 22 || r == BLOCK_INVALID,
{
    proof {
        lemma_block_dims(bsize as int);
    }
    if subsampling_x && subsampling_y {
        HALVED_SIZE[bsize]
    } else if subsampling_x {
        HALVED_WIDTH[bsize]
    } else if subsampling_y {
        HALVED_HEIGHT[bsize]
    } else {
        bsize
    }
}

/// The size of a block in a plane, its own where the plane has none for it.
pub open spec fn chroma_block(bsize: int, sub_x: bool, sub_y: bool) -> int {
    let p = plane_size(bsize, sub_x, sub_y);
    if p == BLOCK_INVALID {
        bsize
    } else {
        p
    }
}

/// The size of a block in a plane, its own where the plane has none for it.
pub fn chroma_block_size(bsize: usize, subsampling_x: bool, subsampling_y: bool) -> (r: usize)
    requires
        bsize < 22,
    ensures
        r == chroma_block(bsize as int, subsampling_x, subsampling_y),
        r < 22,
{
    let p: usize = get_plane_residual_size(bsize, subsampling_x, subsampling_y);
    if p == BLOCK_INVALID {
        bsize
    } else {
        p
    }
}

/// A block carries chroma, unless it is the first of two that share four samples.
pub open spec fn carries_chroma(
    bsize: int,
    mi_row: int,
    mi_col: int,
    sub_x: bool,
    sub_y: bool,
) -> bool {
    &&& !(BLOCK_HEIGHT[bsize] == 4 && sub_y && mi_row % 2 == 0)
    &&& !(BLOCK_WIDTH[bsize] == 4 && sub_x && mi_col % 2 == 0)
}

/// A block carries chroma, unless it is the first of two that share four samples.
pub fn has_chroma(
    bsize: usize,
    mi_row: usize,
    mi_col: usize,
    subsampling_x: bool,
    subsampling_y: bool,
) -> (r: bool)
    requires
        bsize < 22,
    ensures
        r == carries_chroma(
            bsize as int,
            mi_row as int,
            mi_col as int,
            subsampling_x,
            subsampling_y,
        ),
{
    !(BLOCK_HEIGHT[bsize] == 4 && subsampling_y && mi_row % 2 == 0) && !(BLOCK_WIDTH[bsize] == 4
        && subsampling_x && mi_col % 2 == 0)
}

/// The transform size of the chroma of a block: the largest of its size in the plane,
/// no side above 32.
pub open spec fn chroma_tx(bsize: int, sub_x: bool, sub_y: bool) -> int {
    let uv = MAX_TX_SIZE_RECT[chroma_block(bsize, sub_x, sub_y)] as int;
    if TX_WIDTH[uv] == 64 || TX_HEIGHT[uv] == 64 {
        if TX_WIDTH[uv] == 16 {
            TX_16X32 as int
        } else if TX_HEIGHT[uv] == 16 {
            TX_32X16 as int
        } else {
            TX_32X32 as int
        }
    } else {
        uv
    }
}

/// The transform size of the chroma of a block.
pub fn chroma_tx_size(bsize: usize, subsampling_x: bool, subsampling_y: bool) -> (r: usize)
    requires
        bsize < 22,
    ensures
        r == chroma_tx(bsize as int, subsampling_x, subsampling_y),
        r < 19,
{
    let p: usize = chroma_block_size(bsize, subsampling_x, subsampling_y);
    proof {
        lemma_block_dims(p as int);
    }
    let uv: usize = MAX_TX_SIZE_RECT[p];
    let tw: usize = TX_WIDTH[uv];
    let th: usize = TX_HEIGHT[uv];
    if tw == 64 || th == 64 {
        if tw == 16 {
            TX_16X32
        } else if th == 16 {
            TX_32X16
        } else {
            TX_32X32
        }
    } else {
        uv
    }
}

/// A chroma transform has no side above 32.
pub proof fn law_chroma_tx(bsize: int, sub_x: bool, sub_y: bool)
    requires
        0 <= bsize < 22,
    ensures
        0 <= chroma_tx(bsize, sub_x, sub_y) < 19,
        TX_WIDTH[chroma_tx(bsize, sub_x, sub_y)] <= 32,
        TX_HEIGHT[chroma_tx(bsize, sub_x, sub_y)] <= 32,
{
    lemma_block_dims(bsize);
    let p = chroma_block(bsize, sub_x, sub_y);
    lemma_block_dims(p);
    let uv = MAX_TX_SIZE_RECT[p] as int;
    crate::coeff_tables::lemma_tx_dims(uv);
    lemma_tx_sides(uv);
}

proof fn lemma_tx_sides(t: int)
    requires
        0 <= t < 19,
    ensures
        TX_WIDTH[t] <= 32 || TX_WIDTH[t] == 64,
        TX_HEIGHT[t] <= 32 || TX_HEIGHT[t] == 64,
{
}

/// Chroma may be predicted from luma in blocks of at most 32 by 32 samples.
pub open spec fn cfl_fits(bsize: int) -> bool {
    BLOCK_WIDTH[bsize] <= 32 && BLOCK_HEIGHT[bsize] <= 32
}

/// Chroma may be predicted from luma in blocks of at most 32 by 32 samples.
pub fn cfl_allowed_for_bsize(bsize: usize) -> (r: bool)
    requires
        bsize < 22,
    ensures
        r == cfl_fits(bsize as int),
{
    BLOCK_WIDTH[bsize] <= 32 && BLOCK_HEIGHT[bsize] <= 32
}

/// The first block size from `i` on with these dimensions, 8 by 8 if there is none.
pub open spec fn size_from(w: int, h: int, i: int) -> int
    decreases 22 - i,
{
    if i >= 22 {
        BLOCK_8X8 as int
    } else if BLOCK_WIDTH[i] == w && BLOCK_HEIGHT[i] == h {
        i
    } else {
        size_from(w, h, i + 1)
    }
}

/// The block size with these dimensions, 8 by 8 if there is none.
pub open spec fn size_of(w: int, h: int) -> int {
    size_from(w, h, 0)
}

/// The block size with these dimensions, 8 by 8 if there is none.
pub fn bsize_from_wh(w: usize, h: usize) -> (r: usize)
    ensures
        r == size_of(w as int, h as int),
        r < 22,
{
    let mut i: usize = 0;
    while i < 22
        invariant
            i <= 22,
            size_of(w as int, h as int) == size_from(w as int, h as int, i as int),
        decreases 22 - i,
    {
        if BLOCK_WIDTH[i] == w && BLOCK_HEIGHT[i] == h {
            return i;
        }
        i = i + 1;
    }
    BLOCK_8X8
}

/// The binary logarithm of the width of a block in units of four samples.
pub fn mi_width_log2(bsize: usize) -> (r: usize)
    requires
        bsize < 22,
    ensures
        r == MI_WIDTH_LOG2[bsize as int],
        r <= 5,
{
    proof {
        lemma_block_dims(bsize as int);
    }
    MI_WIDTH_LOG2[bsize]
}

/// The binary logarithm of the height of a block in units of four samples.
pub fn mi_height_log2(bsize: usize) -> (r: usize)
    requires
        bsize < 22,
    ensures
        r == MI_HEIGHT_LOG2[bsize as int],
        r <= 5,
{
    proof {
        lemma_block_dims(bsize as int);
    }
    MI_HEIGHT_LOG2[bsize]
}

/// A part of a block: its size, and how far down and to the right it lies, in units of
/// four samples.
#[derive(Debug, Clone, Copy, PartialEq, Eq, Structural)]
pub struct SubBlock {
    pub bsize: usize,
    pub row: usize,
    pub col: usize,
}

/// A part of `w` by `h` units at a position.
pub open spec fn part(w: int, h: int, row: int, col: int) -> SubBlock {
    SubBlock { bsize: size_of(w * 4, h * 4) as usize, row: row as usize, col: col as usize }
}

/// The parts of a block of `bw` by `bh` units.
pub open spec fn parts_of(bw: int, bh: int, partition: int) -> Seq<SubBlock> {
    let hw = bw / 2;
    let hh = bh / 2;
    let qw = bw / 4;
    let qh = bh / 4;
    if partition == PARTITION_HORZ {
        seq![part(bw, hh, 0, 0), part(bw, hh, hh, 0)]
    } else if partition == PARTITION_VERT {
        seq![part(hw, bh, 0, 0), part(hw, bh, 0, hw)]
    } else if partition == PARTITION_SPLIT {
        seq![part(hw, hh, 0, 0), part(hw, hh, 0, hw), part(hw, hh, hh, 0), part(hw, hh, hh, hw)]
    } else if partition == PARTITION_HORZ_A {
        seq![part(bw, qh, 0, 0), part(bw, 3 * qh, qh, 0)]
    } else if partition == PARTITION_HORZ_B {
        seq![part(bw, 3 * qh, 0, 0), part(bw, qh, 3 * qh, 0)]
    } else if partition == PARTITION_VERT_A {
        seq![part(qw, bh, 0, 0), part(3 * qw, bh, 0, qw)]
    } else if partition == PARTITION_VERT_B {
        seq![part(3 * qw, bh, 0, 0), part(qw, bh, 0, 3 * qw)]
    } else if partition == PARTITION_HORZ_4 {
        seq![
            part(bw, qh, 0, 0),
            part(bw, qh, qh, 0),
            part(bw, qh, 2 * qh, 0),
            part(bw, qh, 3 * qh, 0),
        ]
    } else if partition == PARTITION_VERT_4 {
        seq![
            part(qw, bh, 0, 0),
            part(qw, bh, 0, qw),
            part(qw, bh, 0, 2 * qw),
            part(qw, bh, 0, 3 * qw),
        ]
    } else {
        seq![part(bw, bh, 0, 0)]
    }
}

fn sub_block(w: usize, h: usize, row: usize, col: usize) -> (r: SubBlock)
    requires
        w <= 96,
        h <= 96,
    ensures
        r == part(w as int, h as int, row as int, col as int),
        r.bsize < 22,
{
    SubBlock { bsize: bsize_from_wh(w * 4, h * 4), row, col }
}

/// The parts of a block of `bw` by `bh` units of four samples. Parts without a size of
/// their own count as 8 by 8.
pub fn split_into_subblocks(bw: usize, bh: usize, partition: u8) -> (r: Vec<SubBlock>)
    requires
        bw <= 32,
        bh <= 32,
    ensures
        r@ == parts_of(bw as int, bh as int, partition as int),
        1 <= r@.len() <= 4,
        forall|i: int|
            0 <= i < r@.len() ==> (#[trigger] r@[i]).bsize < 22 && r@[i].row <= bh && r@[i].col
                <= bw,
{
    let hw: usize = bw / 2;
    let hh: usize = bh / 2;
    let qw: usize = bw / 4;
    let qh: usize = bh / 4;
    let mut r: Vec<SubBlock> = Vec::new();
    if partition == PARTITION_HORZ {
        r.push(sub_block(bw, hh, 0, 0));
        r.push(sub_block(bw, hh, hh, 0));
    } else if partition == PARTITION_VERT {
        r.push(sub_block(hw, bh, 0, 0));
        r.push(sub_block(hw, bh, 0, hw));
    } else if partition == PARTITION_SPLIT {
        r.push(sub_block(hw, hh, 0, 0));
        r.push(sub_block(hw, hh, 0, hw));
        r.push(sub_block(hw, hh, hh, 0));
        r.push(sub_block(hw, hh, hh, hw));
    } else if partition == PARTITION_HORZ_A {
        r.push(sub_block(bw, qh, 0, 0));
        r.push(sub_block(bw, 3 * qh, qh, 0));
    } else if partition == PARTITION_HORZ_B {
        r.push(sub_block(bw, 3 * qh, 0, 0));
        r.push(sub_block(bw, qh, 3 * qh, 0));
    } else if partition == PARTITION_VERT_A {
        r.push(sub_block(qw, bh, 0, 0));
        r.push(sub_block(3 * qw, bh, 0, qw));
    } else if partition == PARTITION_VERT_B {
        r.push(sub_block(3 * qw, bh, 0, 0));
        r.push(sub_block(qw, bh, 0, 3 * qw));
    } else if partition == PARTITION_HORZ_4 {
        r.push(sub_block(bw, qh, 0, 0));
        r.push(sub_block(bw, qh, qh, 0));
        r.push(sub_block(bw, qh, 2 * qh, 0));
        r.push(sub_block(bw, qh, 3 * qh, 0));
    } else if partition == PARTITION_VERT_4 {
        r.push(sub_block(qw, bh, 0, 0));
        r.push(sub_block(qw, bh, 0, qw));
        r.push(sub_block(qw, bh, 0, 2 * qw));
        r.push(sub_block(qw, bh, 0, 3 * qw));
    } else {
        r.push(sub_block(bw, bh, 0, 0));
    }
    assert(r@ =~= parts_of(bw as int, bh as int, partition as int));
    r
}

/// A transform size after `n` splits.
pub open spec fn split_times(t: int, n: int) -> int
    decreases n,
{
    if n <= 0 {
        t
    } else {
        SPLIT_TX_SIZE[split_times(t, n - 1)] as int
    }
}

/// A split transform is no larger on either side, and smaller on one unless it is the
/// smallest.
pub proof fn law_split_shrinks(t: int)
    requires
        0 <= t < 19,
    ensures
        SPLIT_TX_SIZE[t] < 19,
        TX_WIDTH[SPLIT_TX_SIZE[t] as int] <= TX_WIDTH[t],
        TX_HEIGHT[SPLIT_TX_SIZE[t] as int] <= TX_HEIGHT[t],
        t == 0 || TX_WIDTH[SPLIT_TX_SIZE[t] as int] < TX_WIDTH[t] || TX_HEIGHT[SPLIT_TX_SIZE[t]
            as int] < TX_HEIGHT[t],
{
}

/// Splitting four times always ends at the smallest transform.
pub proof fn law_split_ends(t: int)
    requires
        0 <= t < 19,
    ensures
        split_times(t, 4) == 0,
{
    reveal_with_fuel(split_times, 5);
}

proof fn lemma_split_times(t: int, n: int)
    requires
        0 <= t < 19,
        0 <= n,
    ensures
        0 <= split_times(t, n) < 19,
        TX_WIDTH[split_times(t, n)] <= TX_WIDTH[t],
        TX_HEIGHT[split_times(t, n)] <= TX_HEIGHT[t],
    decreases n,
{
    if n > 0 {
        lemma_split_times(t, n - 1);
        law_split_shrinks(split_times(t, n - 1));
    }
}

/// Splits a transform size `n` times.
pub fn split_tx(t: usize, n: usize) -> (r: usize)
    requires
        t < 19,
    ensures
        r == split_times(t as int, n as int),
        r < 19,
        TX_WIDTH[r as int] <= TX_WIDTH[t as int],
        TX_HEIGHT[r as int] <= TX_HEIGHT[t as int],
{
    let mut r: usize = t;
    let mut i: usize = 0;
    while i < n
        invariant
            i <= n,
            t < 19,
            r < 19,
            r == split_times(t as int, i as int),
        decreases n - i,
    {
        proof {
            law_split_shrinks(r as int);
        }
        r = SPLIT_TX_SIZE[r];
        i = i + 1;
    }
    proof {
        lemma_split_times(t as int, n as int);
    }
    r
}

/// A part of a block takes the unit at row `r`, column `c`.
pub open spec fn takes(p: SubBlock, r: int, c: int) -> bool {
    &&& p.row <= r < p.row + BLOCK_HEIGHT[p.bsize as int] / 4
    &&& p.col <= c < p.col + BLOCK_WIDTH[p.bsize as int] / 4
}

/// The partitions whose parts are blocks of their own: into halves and quarters at every
/// size, into four strips between 16 and 64 samples.
pub open spec fn plain_partition(side: int, partition: int) -> bool {
    ||| partition == PARTITION_NONE
    ||| partition == PARTITION_HORZ
    ||| partition == PARTITION_VERT
    ||| partition == PARTITION_SPLIT
    ||| (partition == PARTITION_HORZ_4 || partition == PARTITION_VERT_4) && 4 <= side <= 16
}

proof fn lemma_square_sizes()
    ensures
        size_of(128, 128) == BLOCK_128X128,
        size_of(128, 64) == BLOCK_128X64,
        size_of(64, 128) == BLOCK_64X128,
        size_of(64, 64) == BLOCK_64X64,
        size_of(64, 32) == BLOCK_64X32,
        size_of(32, 64) == BLOCK_32X64,
        size_of(32, 32) == BLOCK_32X32,
        size_of(32, 16) == BLOCK_32X16,
        size_of(16, 32) == BLOCK_16X32,
        size_of(16, 16) == BLOCK_16X16,
        size_of(16, 8) == BLOCK_16X8,
        size_of(8, 16) == BLOCK_8X16,
        size_of(8, 8) == BLOCK_8X8,
        size_of(8, 4) == BLOCK_8X4,
        size_of(4, 8) == BLOCK_4X8,
        size_of(4, 4) == BLOCK_4X4,
{
    reveal_with_fuel(size_from, 23);
}

proof fn lemma_strip_sizes()
    ensures
        size_of(64, 16) == BLOCK_64X16,
        size_of(16, 64) == BLOCK_16X64,
        size_of(32, 8) == BLOCK_32X8,
        size_of(8, 32) == BLOCK_8X32,
        size_of(16, 4) == BLOCK_16X4,
        size_of(4, 16) == BLOCK_4X16,
{
    reveal_with_fuel(size_from, 23);
}

/// The parts of a square block take every unit of it once.
pub proof fn law_parts_take_every_unit_once(side: int, partition: int, r: int, c: int)
    requires
        side == 2 || side == 4 || side == 8 || side == 16 || side == 32,
        plain_partition(side, partition),
        0 <= r < side,
        0 <= c < side,
    ensures
        exists|i: int|
            0 <= i < parts_of(side, side, partition).len() && takes(
                #[trigger] parts_of(side, side, partition)[i],
                r,
                c,
            ),
        forall|i: int, j: int|
            0 <= i < j < parts_of(side, side, partition).len() ==> !(takes(
                #[trigger] parts_of(side, side, partition)[i],
                r,
                c,
            ) && takes(#[trigger] parts_of(side, side, partition)[j], r, c)),
{
    lemma_square_sizes();
    lemma_strip_sizes();
    let p = parts_of(side, side, partition);
    let half = side / 2;
    let quarter = side / 4;
    if partition == PARTITION_HORZ {
        assert(takes(p[if r < half { 0 } else { 1 }], r, c));
    } else if partition == PARTITION_VERT {
        assert(takes(p[if c < half { 0 } else { 1 }], r, c));
    } else if partition == PARTITION_SPLIT {
        let i: int = if r < half { 0 } else { 2 };
        let j: int = if c < half { 0 } else { 1 };
        assert(takes(p[i + j], r, c));
    } else if partition == PARTITION_HORZ_4 {
        let i: int = if r < quarter {
            0
        } else if r < 2 * quarter {
            1
        } else if r < 3 * quarter {
            2
        } else {
            3
        };
        assert(takes(p[i], r, c));
    } else if partition == PARTITION_VERT_4 {
        let i: int = if c < quarter {
            0
        } else if c < 2 * quarter {
            1
        } else if c < 3 * quarter {
            2
        } else {
            3
        };
        assert(takes(p[i], r, c));
    } else {
        assert(takes(p[0], r, c));
    }
}

} // verus!
