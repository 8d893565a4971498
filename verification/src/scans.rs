//! Every scan visits every position of its block once.
use crate::coeff_tables::{
    has_scan, lemma_scan, scan_of, square_area, tx_class_of, DEFAULT_SCAN_16X16, DEFAULT_SCAN_4X4,
    DEFAULT_SCAN_8X8, MCOL_SCAN_16X16, MCOL_SCAN_4X4, MCOL_SCAN_8X8, MROW_SCAN_16X16,
    MROW_SCAN_4X4, MROW_SCAN_8X8, TX_4X4, TX_8X8, TX_CLASS_HORIZ, TX_CLASS_VERT,
};
use vstd::prelude::*;

verus! {

/// The number of places before diagonal `d`, which is at most 16: one, two, three and so
/// on.
pub open spec fn triangle(d: int) -> int {
    if d <= 0 {
        0
    } else if d == 1 {
        1
    } else if d == 2 {
        3
    } else if d == 3 {
        6
    } else if d == 4 {
        10
    } else if d == 5 {
        15
    } else if d == 6 {
        21
    } else if d == 7 {
        28
    } else if d == 8 {
        36
    } else if d == 9 {
        45
    } else if d == 10 {
        55
    } else if d == 11 {
        66
    } else if d == 12 {
        78
    } else if d == 13 {
        91
    } else if d == 14 {
        105
    } else if d == 15 {
        120
    } else {
        136
    }
}

/// The place of row `r`, column `c` in a zigzag through a square of side 4, 8 or 16: diagonals
/// in order, up the even ones and down the odd ones.
pub open spec fn zigzag_place(n: int, r: int, c: int) -> int {
    let d = r + c;
    let first = if d < n {
        0
    } else {
        d - n + 1
    };
    let before = if d < n {
        triangle(d)
    } else if n == 4 {
        16 - triangle(7 - d)
    } else if n == 8 {
        64 - triangle(15 - d)
    } else {
        256 - triangle(31 - d)
    };
    before + if d % 2 == 0 {
        c - first
    } else {
        r - first
    }
}

/// The side of a square transform with a scan.
pub open spec fn square_side(tx_size: int) -> int {
    if tx_size == TX_4X4 {
        4
    } else if tx_size == TX_8X8 {
        8
    } else {
        16
    }
}

/// The place of a position in a scan: row by row, column by column, or in a zigzag.
pub open spec fn place_of(tx_size: int, tx_type: int, p: int) -> int {
    let n = square_side(tx_size);
    let class = tx_class_of(tx_type);
    if class == TX_CLASS_VERT {
        p
    } else if class == TX_CLASS_HORIZ {
        (p % n) * n + p / n
    } else {
        zigzag_place(n, p / n, p % n)
    }
}

proof fn lemma_places_4(k: int)
    requires
        0 <= k < 16,
    ensures
        zigzag_place(4, DEFAULT_SCAN_4X4[k] as int / 4, DEFAULT_SCAN_4X4[k] as int % 4) == k,
        MROW_SCAN_4X4[k] == k,
        (MCOL_SCAN_4X4[k] % 4) * 4 + MCOL_SCAN_4X4[k] / 4 == k,
{
}

proof fn lemma_places_8(k: int)
    requires
        0 <= k < 64,
    ensures
        zigzag_place(8, DEFAULT_SCAN_8X8[k] as int / 8, DEFAULT_SCAN_8X8[k] as int % 8) == k,
        MROW_SCAN_8X8[k] == k,
        (MCOL_SCAN_8X8[k] % 8) * 8 + MCOL_SCAN_8X8[k] / 8 == k,
{
}

proof fn lemma_places_16_lines(k: int)
    requires
        0 <= k < 256,
    ensures
        MROW_SCAN_16X16[k] == k,
        (MCOL_SCAN_16X16[k] % 16) * 16 + MCOL_SCAN_16X16[k] / 16 == k,
{
}

proof fn lemma_places_16_0(k: int)
    requires
        0 <= k < 32,
    ensures
        zigzag_place(16, DEFAULT_SCAN_16X16[k] as int / 16, DEFAULT_SCAN_16X16[k] as int % 16) == k,
{
}

proof fn lemma_places_16_1(k: int)
    requires
        32 <= k < 64,
    ensures
        zigzag_place(16, DEFAULT_SCAN_16X16[k] as int / 16, DEFAULT_SCAN_16X16[k] as int % 16) == k,
{
}

proof fn lemma_places_16_2(k: int)
    requires
        64 <= k < 96,
    ensures
        zigzag_place(16, DEFAULT_SCAN_16X16[k] as int / 16, DEFAULT_SCAN_16X16[k] as int % 16) == k,
{
}

proof fn lemma_places_16_3(k: int)
    requires
        96 <= k < 128,
    ensures
        zigzag_place(16, DEFAULT_SCAN_16X16[k] as int / 16, DEFAULT_SCAN_16X16[k] as int % 16) == k,
{
}

proof fn lemma_places_16_4(k: int)
    requires
        128 <= k < 160,
    ensures
        zigzag_place(16, DEFAULT_SCAN_16X16[k] as int / 16, DEFAULT_SCAN_16X16[k] as int % 16) == k,
{
}

proof fn lemma_places_16_5(k: int)
    requires
        160 <= k < 192,
    ensures
        zigzag_place(16, DEFAULT_SCAN_16X16[k] as int / 16, DEFAULT_SCAN_16X16[k] as int % 16) == k,
{
}

proof fn lemma_places_16_6(k: int)
    requires
        192 <= k < 224,
    ensures
        zigzag_place(16, DEFAULT_SCAN_16X16[k] as int / 16, DEFAULT_SCAN_16X16[k] as int % 16) == k,
{
}

proof fn lemma_places_16_7(k: int)
    requires
        224 <= k < 256,
    ensures
        zigzag_place(16, DEFAULT_SCAN_16X16[k] as int / 16, DEFAULT_SCAN_16X16[k] as int % 16) == k,
{
}

proof fn lemma_places_16(k: int)
    requires
        0 <= k < 256,
    ensures
        zigzag_place(16, DEFAULT_SCAN_16X16[k] as int / 16, DEFAULT_SCAN_16X16[k] as int % 16) == k,
{
    if k < 32 {
        lemma_places_16_0(k);
    } else if k < 64 {
        lemma_places_16_1(k);
    } else if k < 96 {
        lemma_places_16_2(k);
    } else if k < 128 {
        lemma_places_16_3(k);
    } else if k < 160 {
        lemma_places_16_4(k);
    } else if k < 192 {
        lemma_places_16_5(k);
    } else if k < 224 {
        lemma_places_16_6(k);
    } else {
        lemma_places_16_7(k);
    }
}

/// The position that a scan visits at place `k` has place `k`.
pub proof fn law_scan_places(tx_size: int, tx_type: int, k: int)
    requires
        has_scan(tx_size),
        0 <= k < square_area(tx_size),
    ensures
        place_of(tx_size, tx_type, scan_of(tx_size, tx_type)[k] as int) == k,
{
    reveal(scan_of);
    if tx_size == TX_4X4 {
        lemma_places_4(k);
    } else if tx_size == TX_8X8 {
        lemma_places_8(k);
    } else {
        lemma_places_16(k);
        lemma_places_16_lines(k);
    }
}

/// A scan visits no position twice, and starts at the first one. As it has as many places
/// as the block has positions, it visits all of them.
pub proof fn law_scan_visits_once(tx_size: int, tx_type: int, i: int, j: int)
    requires
        has_scan(tx_size),
        0 <= i < square_area(tx_size),
        0 <= j < square_area(tx_size),
        i != j,
    ensures
        scan_of(tx_size, tx_type)[i] != scan_of(tx_size, tx_type)[j],
        scan_of(tx_size, tx_type)[0] == 0,
        scan_of(tx_size, tx_type)[i] < square_area(tx_size),
        scan_of(tx_size, tx_type).len() == square_area(tx_size),
{
    law_scan_places(tx_size, tx_type, i);
    law_scan_places(tx_size, tx_type, j);
    lemma_scan(tx_size, tx_type);
}

} // verus!
