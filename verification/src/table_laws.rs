//! The order in which coefficients are coded, and the types that modes imply.
use crate::coeff_tables::{
    has_scan, lemma_scan, scan_of, square_area, tx_class_of, ADST_ADST, ADST_DCT, DCT_ADST, DCT_DCT,
    MODE_TO_TXFM, TX_CLASS_2D, TX_CLASS_HORIZ, TX_CLASS_VERT, TX_TYPE_INTRA_INV_SET1,
    TX_TYPE_INTRA_INV_SET2, TX_TYPE_IN_SET_INTRA,
};
use crate::intra_pred::{
    D113_PRED, D135_PRED, D157_PRED, D207_PRED, D45_PRED, D67_PRED, DC_PRED, H_PRED, V_PRED,
};
use crate::scans::{law_scan_places, square_side, zigzag_place};
use vstd::prelude::*;

verus! {

// ---------------------------------------------------------------------------
// Scans
// ---------------------------------------------------------------------------

/// Types down the columns alone are coded row by row, types along the rows alone column by
/// column.
pub proof fn law_scan_of_lines(tx_size: int, tx_type: int, k: int)
    requires
        has_scan(tx_size),
        0 <= k < square_area(tx_size),
    ensures
        ({
            let n = square_side(tx_size);
            let p = scan_of(tx_size, tx_type)[k] as int;
            &&& tx_class_of(tx_type) == TX_CLASS_VERT ==> p / n == k / n && p % n == k % n
            &&& tx_class_of(tx_type) == TX_CLASS_HORIZ ==> p / n == k % n && p % n == k / n
        }),
{
    law_scan_places(tx_size, tx_type, k);
    lemma_scan(tx_size, tx_type);
    let n = square_side(tx_size);
    let p = scan_of(tx_size, tx_type)[k] as int;
    assert(0 <= p < square_area(tx_size));
    assert(n == 4 || n == 8 || n == 16);
}

proof fn lemma_diagonal(n: int, r: int, c: int, s: int, t: int)
    requires
        n == 4 || n == 8 || n == 16,
        0 <= r < n,
        0 <= c < n,
        0 <= s < n,
        0 <= t < n,
        r + c < s + t,
    ensures
        zigzag_place(n, r, c) < zigzag_place(n, s, t),
{
    lemma_diagonal_ends(n, r, c);
    lemma_diagonal_ends(n, s, t);
    lemma_starts_grow(n, r + c + 1, s + t);
}

/// The number of places before diagonal `d` of a square of side `n`.
spec fn before(n: int, d: int) -> int {
    if d < n {
        (d * (d + 1)) / 2
    } else {
        n * n - ((2 * n - 1 - d) * (2 * n - d)) / 2
    }
}

proof fn lemma_starts_grow(n: int, a: int, b: int)
    requires
        n == 4 || n == 8 || n == 16,
        0 <= a <= b <= 2 * n - 1,
    ensures
        before(n, a) <= before(n, b),
    decreases b - a,
{
    if a < b {
        lemma_starts_grow(n, a, b - 1);
        let d = b - 1;
        if b < n {
            assert((d + 1) * (d + 2) == d * (d + 1) + 2 * (d + 1)) by (nonlinear_arith);
        } else if d >= n {
            let x = 2 * n - 1 - d;
            assert(x * (x + 1) == (x - 1) * x + 2 * x) by (nonlinear_arith);
        } else {
            assert(d == n - 1);
            assert(before(n, d) <= before(n, b)) by {
                if n == 4 {
                    assert(3 * 4 == 12int && 4 * 4 == 16int);
                } else if n == 8 {
                    assert(7 * 8 == 56int && 8 * 8 == 64int);
                } else {
                    assert(15 * 16 == 240int && 16 * 16 == 256int);
                }
            }
        }
    }
}

proof fn lemma_diagonal_ends(n: int, r: int, c: int)
    requires
        n == 4 || n == 8 || n == 16,
        0 <= r < n,
        0 <= c < n,
    ensures
        before(n, r + c) <= zigzag_place(n, r, c) < before(n, r + c + 1),
{
    let d = r + c;
    lemma_products(d);
    lemma_products(d + 1);
    lemma_products(2 * n - 1 - d);
    lemma_products(2 * n - 2 - d);
    assert(4 * 4 == 16int && 8 * 8 == 64int && 16 * 16 == 256int);
}

proof fn lemma_products(d: int)
    requires
        -1 <= d <= 31,
    ensures
        d >= 0 && d <= 16 ==> (d * (d + 1)) / 2 == crate::scans::triangle(d),
{
    if 0 <= d <= 16 {
        let p = d * (d + 1);
        assert(d == 0 ==> p == 0) by (nonlinear_arith)
            requires
                p == d * (d + 1),
        ;
        if d == 1 {
            assert(1 * 2 == 2int);
        } else if d == 2 {
            assert(2 * 3 == 6int);
        } else if d == 3 {
            assert(3 * 4 == 12int);
        } else if d == 4 {
            assert(4 * 5 == 20int);
        } else if d == 5 {
            assert(5 * 6 == 30int);
        } else if d == 6 {
            assert(6 * 7 == 42int);
        } else if d == 7 {
            assert(7 * 8 == 56int);
        } else if d == 8 {
            assert(8 * 9 == 72int);
        } else if d == 9 {
            assert(9 * 10 == 90int);
        } else if d == 10 {
            assert(10 * 11 == 110int);
        } else if d == 11 {
            assert(11 * 12 == 132int);
        } else if d == 12 {
            assert(12 * 13 == 156int);
        } else if d == 13 {
            assert(13 * 14 == 182int);
        } else if d == 14 {
            assert(14 * 15 == 210int);
        } else if d == 15 {
            assert(15 * 16 == 240int);
        } else if d == 16 {
            assert(16 * 17 == 272int);
        }
    }
}

proof fn lemma_in_square(n: int, p: int)
    requires
        n == 4 || n == 8 || n == 16,
        0 <= p < n * n,
    ensures
        0 <= p / n < n,
        0 <= p % n < n,
{
    if n == 4 {
        assert(p / 4 < 4);
    } else if n == 8 {
        assert(p / 8 < 8);
    } else {
        assert(p / 16 < 16);
    }
}

/// All other types are coded from low frequencies to high: the diagonal of a position, its
/// row and column together, does not fall along the scan.
pub proof fn law_scan_of_diagonals(tx_size: int, tx_type: int, i: int, j: int)
    requires
        has_scan(tx_size),
        0 <= i < j < square_area(tx_size),
        tx_class_of(tx_type) == TX_CLASS_2D,
    ensures
        ({
            let n = square_side(tx_size);
            let p = scan_of(tx_size, tx_type)[i] as int;
            let q = scan_of(tx_size, tx_type)[j] as int;
            p / n + p % n <= q / n + q % n
        }),
{
    law_scan_places(tx_size, tx_type, i);
    law_scan_places(tx_size, tx_type, j);
    lemma_scan(tx_size, tx_type);
    let n = square_side(tx_size);
    let p = scan_of(tx_size, tx_type)[i] as int;
    let q = scan_of(tx_size, tx_type)[j] as int;
    assert(0 <= p < square_area(tx_size) && 0 <= q < square_area(tx_size));
    assert(n == 4 || n == 8 || n == 16);
    assert(4 * 4 == 16int && 8 * 8 == 64int && 16 * 16 == 256int);
    assert(square_area(tx_size) == n * n);
    lemma_in_square(n, p);
    lemma_in_square(n, q);
    if p / n + p % n > q / n + q % n {
        lemma_diagonal(n, q / n, q % n, p / n, p % n);
    }
}

// ---------------------------------------------------------------------------
// Types
// ---------------------------------------------------------------------------

/// A block that continues the row above has errors that grow downward, and takes the sine
/// transform down the columns; one that continues the column to the left takes it along the
/// rows. Angles near an axis do as the axis, the diagonal toward the corner takes it both
/// ways, and the mean takes none.
pub proof fn law_types_of_modes()
    ensures
        MODE_TO_TXFM[DC_PRED as int] == DCT_DCT,
        MODE_TO_TXFM[V_PRED as int] == ADST_DCT,
        MODE_TO_TXFM[D67_PRED as int] == ADST_DCT,
        MODE_TO_TXFM[D113_PRED as int] == ADST_DCT,
        MODE_TO_TXFM[H_PRED as int] == DCT_ADST,
        MODE_TO_TXFM[D157_PRED as int] == DCT_ADST,
        MODE_TO_TXFM[D207_PRED as int] == DCT_ADST,
        MODE_TO_TXFM[D135_PRED as int] == ADST_ADST,
        MODE_TO_TXFM[D45_PRED as int] == DCT_DCT,
{
}

/// Every type that a symbol names belongs to the set that it is read for, and different
/// symbols name different types.
pub proof fn law_types_of_symbols(v: int, u: int)
    ensures
        0 <= v < 7 ==> TX_TYPE_IN_SET_INTRA[1][TX_TYPE_INTRA_INV_SET1[v] as int] == 1,
        0 <= v < 5 ==> TX_TYPE_IN_SET_INTRA[2][TX_TYPE_INTRA_INV_SET2[v] as int] == 1,
        0 <= v < u < 7 ==> TX_TYPE_INTRA_INV_SET1[v] != TX_TYPE_INTRA_INV_SET1[u],
        0 <= v < u < 5 ==> TX_TYPE_INTRA_INV_SET2[v] != TX_TYPE_INTRA_INV_SET2[u],
{
}

} // verus!
