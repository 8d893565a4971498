//! What motion compensation does with fractions of a sample, whatever the filter.
use crate::inter::{
    filter_index, kernel_of, law_identity_kernel, mc_column_sum, mc_mid, mc_pixel, mc_row_sum,
    mc_sample, McModel, INTERP_BILINEAR, SUBPEL_FILTERS,
};
use crate::math::clampi;
use vstd::prelude::*;

verus! {

// ---------------------------------------------------------------------------
// Samples
// ---------------------------------------------------------------------------

/// A sample within the plane is that of the plane; outside it is that of the nearest
/// position within.
pub proof fn law_reference_sample(m: McModel, x: int, y: int)
    requires
        1 <= m.w,
        1 <= m.h,
    ensures
        0 <= x < m.w && 0 <= y < m.h ==> mc_sample(m, x, y) == m.plane[y * m.stride + x],
        x < 0 ==> mc_sample(m, x, y) == mc_sample(m, 0, y),
        x >= m.w ==> mc_sample(m, x, y) == mc_sample(m, m.w - 1, y),
        y < 0 ==> mc_sample(m, x, y) == mc_sample(m, x, 0),
        y >= m.h ==> mc_sample(m, x, y) == mc_sample(m, x, m.h - 1),
{
}

// ---------------------------------------------------------------------------
// One fraction
// ---------------------------------------------------------------------------

/// The taps of a filter on eight samples in a row, of which `at(3)` is the one that the
/// vector points behind.
pub open spec fn tapped(kernel: Seq<i32>, at: spec_fn(int) -> int) -> int {
    at(0) * kernel[0] + at(1) * kernel[1] + at(2) * kernel[2] + at(3) * kernel[3] + at(4)
        * kernel[4] + at(5) * kernel[5] + at(6) * kernel[6] + at(7) * kernel[7]
}

/// The sample behind both passes from that behind one.
pub open spec fn rounded(sum: int) -> int {
    clampi((sum + 64) / 128, 0, 255)
}

proof fn lemma_row_taps(m: McModel, y: int, x: int)
    ensures
        mc_row_sum(m, y, x, 8) == tapped(
            kernel_of(m.filter, m.col),
            |k: int| mc_sample(m, m.x + m.col / 8 + x + k - 3, m.y + m.row / 8 + y),
        ),
{
    reveal_with_fuel(mc_row_sum, 9);
}

proof fn lemma_column_taps(m: McModel, y: int, x: int)
    ensures
        mc_column_sum(m, y, x, 8) == tapped(
            kernel_of(m.filter, m.row),
            |k: int| mc_mid(m, y + k - 3, x),
        ),
{
    reveal_with_fuel(mc_column_sum, 9);
}

proof fn lemma_whole_kernel(filter: u8, v: int)
    requires
        v % 8 == 0,
    ensures
        forall|i: int|
            0 <= i < 8 ==> #[trigger] kernel_of(filter, v)[i] == if i == 3 {
                128int
            } else {
                0
            },
{
    law_identity_kernel(filter);
    assert(kernel_of(filter, v) == kernel_of(filter, 0));
}

proof fn lemma_only_middle(kernel: Seq<i32>, at: spec_fn(int) -> int)
    requires
        forall|i: int|
            0 <= i < 8 ==> #[trigger] kernel[i] == if i == 3 {
                128int
            } else {
                0
            },
    ensures
        tapped(kernel, at) == 128 * at(3),
{
    assert(kernel[0] == 0 && kernel[1] == 0 && kernel[2] == 0 && kernel[3] == 128 && kernel[4] == 0
        && kernel[5] == 0 && kernel[6] == 0 && kernel[7] == 0);
    assert forall|v: int| #[trigger] (v * 0) == 0 by {}
    assert(at(3) * 128 == 128 * at(3));
}

/// With a vector of whole rows, a pixel is the filtered row of eight samples from three
/// before its place up to four behind it.
pub proof fn law_fraction_across(m: McModel, y: int, x: int)
    requires
        m.row % 8 == 0,
    ensures
        mc_pixel(m, y, x) == rounded(
            tapped(
                kernel_of(m.filter, m.col),
                |k: int| mc_sample(m, m.x + x + m.col / 8 + k - 3, m.y + y + m.row / 8),
            ),
        ),
{
    reveal(mc_pixel);
    lemma_column_taps(m, y, x);
    lemma_whole_kernel(m.filter, m.row);
    let at = |k: int| mc_mid(m, y + k - 3, x);
    lemma_only_middle(kernel_of(m.filter, m.row), at);
    lemma_row_taps(m, y, x);
    let a = |k: int| mc_sample(m, m.x + m.col / 8 + x + k - 3, m.y + m.row / 8 + y);
    let b = |k: int| mc_sample(m, m.x + x + m.col / 8 + k - 3, m.y + y + m.row / 8);
    assert forall|k: int| #[trigger] a(k) == b(k) by {}
    assert(tapped(kernel_of(m.filter, m.col), a) == tapped(kernel_of(m.filter, m.col), b));
    let mid = mc_mid(m, y, x);
    assert((128 * mid + 64) / 128 == mid);
}

/// With a vector of whole columns, a pixel is the filtered column of eight samples from
/// three above its place down to four below it.
pub proof fn law_fraction_down(m: McModel, y: int, x: int)
    requires
        m.col % 8 == 0,
    ensures
        mc_pixel(m, y, x) == rounded(
            tapped(
                kernel_of(m.filter, m.row),
                |k: int| mc_sample(m, m.x + x + m.col / 8, m.y + y + m.row / 8 + k - 3),
            ),
        ),
{
    reveal(mc_pixel);
    lemma_column_taps(m, y, x);
    lemma_whole_kernel(m.filter, m.col);
    let a = |k: int| mc_mid(m, y + k - 3, x);
    let b = |k: int| mc_sample(m, m.x + x + m.col / 8, m.y + y + m.row / 8 + k - 3);
    assert forall|k: int| #[trigger] a(k) == b(k) by {
        lemma_row_taps(m, y + k - 3, x);
        let at = |j: int|
            mc_sample(m, m.x + m.col / 8 + x + j - 3, m.y + m.row / 8 + (y + k - 3));
        lemma_only_middle(kernel_of(m.filter, m.col), at);
        let v = b(k);
        assert(at(3) == v);
        assert((128 * v + 64) / 128 == v);
    }
    assert(tapped(kernel_of(m.filter, m.row), a) == tapped(kernel_of(m.filter, m.row), b));
}

// ---------------------------------------------------------------------------
// Bilinear
// ---------------------------------------------------------------------------

proof fn lemma_bilinear_kernel(v: int)
    ensures
        forall|i: int|
            0 <= i < 8 ==> #[trigger] kernel_of(INTERP_BILINEAR, v)[i] == if i == 3 {
                16 * (8 - v % 8)
            } else if i == 4 {
                16 * (v % 8)
            } else {
                0
            },
{
    let p = v % 8;
    assert(p == 0 || p == 1 || p == 2 || p == 3 || p == 4 || p == 5 || p == 6 || p == 7);
}

proof fn lemma_bilinear_taps(v: int, at: spec_fn(int) -> int)
    requires
        0 <= at(3) <= 255,
        0 <= at(4) <= 255,
    ensures
        rounded(tapped(kernel_of(INTERP_BILINEAR, v), at)) == ((8 - v % 8) * at(3) + (v % 8) * at(
            4,
        ) + 4) / 8,
{
    let f = v % 8;
    let k = kernel_of(INTERP_BILINEAR, v);
    lemma_bilinear_kernel(v);
    assert(k[0] == 0 && k[1] == 0 && k[2] == 0 && k[3] == 16 * (8 - f) && k[4] == 16 * f && k[5]
        == 0 && k[6] == 0 && k[7] == 0);
    assert forall|v: int| #[trigger] (v * 0) == 0 by {}
    let a = at(3);
    let b = at(4);
    let s = (8 - f) * a + f * b;
    assert(a * (16 * (8 - f)) + b * (16 * f) == 16 * s && 0 <= s <= 255 * 8) by (nonlinear_arith)
        requires
            s == (8 - f) * a + f * b,
            0 <= f < 8,
            0 <= a <= 255,
            0 <= b <= 255,
    ;
    assert((16 * s + 64) / 128 == (s + 4) / 8);
}

/// Between two samples of a row the bilinear filter takes each in proportion to how near
/// it is: `f` eighths of the way from one to the next, the next weighs `f` in eight.
pub proof fn law_bilinear_across(m: McModel, y: int, x: int)
    requires
        m.filter == INTERP_BILINEAR,
        m.row % 8 == 0,
    ensures
        ({
            let f = m.col % 8;
            let here = mc_sample(m, m.x + x + m.col / 8, m.y + y + m.row / 8);
            let next = mc_sample(m, m.x + x + m.col / 8 + 1, m.y + y + m.row / 8);
            mc_pixel(m, y, x) == ((8 - f) * here + f * next + 4) / 8
        }),
{
    law_fraction_across(m, y, x);
    lemma_bilinear_taps(
        m.col,
        |k: int| mc_sample(m, m.x + x + m.col / 8 + k - 3, m.y + y + m.row / 8),
    );
}

/// The same between two samples of a column.
pub proof fn law_bilinear_down(m: McModel, y: int, x: int)
    requires
        m.filter == INTERP_BILINEAR,
        m.col % 8 == 0,
    ensures
        ({
            let f = m.row % 8;
            let here = mc_sample(m, m.x + x + m.col / 8, m.y + y + m.row / 8);
            let next = mc_sample(m, m.x + x + m.col / 8, m.y + y + m.row / 8 + 1);
            mc_pixel(m, y, x) == ((8 - f) * here + f * next + 4) / 8
        }),
{
    law_fraction_down(m, y, x);
    lemma_bilinear_taps(
        m.row,
        |k: int| mc_sample(m, m.x + x + m.col / 8, m.y + y + m.row / 8 + k - 3),
    );
}

// ---------------------------------------------------------------------------
// Symmetry
// ---------------------------------------------------------------------------

/// One plane is the other with rows and columns exchanged.
pub open spec fn transposed(a: McModel, b: McModel) -> bool {
    &&& forall|x: int, y: int| #[trigger] mc_sample(a, x, y) == mc_sample(b, y, x)
    &&& b.x == a.y
    &&& b.y == a.x
    &&& b.row == a.col
    &&& b.col == a.row
    &&& b.filter == a.filter
}

/// Where one component has no fraction, exchanging the rows and columns of the reference
/// and the components of the vector exchanges the rows and columns of the prediction.
pub proof fn law_transposed(a: McModel, b: McModel, y: int, x: int)
    requires
        transposed(a, b),
        a.row % 8 == 0 || a.col % 8 == 0,
    ensures
        mc_pixel(b, x, y) == mc_pixel(a, y, x),
{
    if a.row % 8 == 0 {
        law_fraction_across(a, y, x);
        law_fraction_down(b, x, y);
        let p = |k: int| mc_sample(a, a.x + x + a.col / 8 + k - 3, a.y + y + a.row / 8);
        let q = |k: int| mc_sample(b, b.x + y + b.col / 8, b.y + x + b.row / 8 + k - 3);
        assert forall|k: int| #[trigger] p(k) == q(k) by {
            assert(mc_sample(a, a.x + x + a.col / 8 + k - 3, a.y + y + a.row / 8) == mc_sample(
                b,
                a.y + y + a.row / 8,
                a.x + x + a.col / 8 + k - 3,
            ));
        }
        assert(tapped(kernel_of(a.filter, a.col), p) == tapped(kernel_of(a.filter, a.col), q));
    } else {
        law_fraction_down(a, y, x);
        law_fraction_across(b, x, y);
        let p = |k: int| mc_sample(a, a.x + x + a.col / 8, a.y + y + a.row / 8 + k - 3);
        let q = |k: int| mc_sample(b, b.x + y + b.col / 8 + k - 3, b.y + x + b.row / 8);
        assert forall|k: int| #[trigger] p(k) == q(k) by {
            assert(mc_sample(a, a.x + x + a.col / 8, a.y + y + a.row / 8 + k - 3) == mc_sample(
                b,
                a.y + y + a.row / 8 + k - 3,
                a.x + x + a.col / 8,
            ));
        }
        assert(tapped(kernel_of(a.filter, a.row), p) == tapped(kernel_of(a.filter, a.row), q));
    }
}

/// The weights at a fraction are those at the fraction that is left to the next sample,
/// backward. Half way they are the same in both directions.
pub proof fn law_kernel_mirrored(kind: u8, v: int, i: int)
    requires
        v % 8 != 0,
        0 <= i < 8,
    ensures
        kernel_of(kind, -v)[7 - i] == kernel_of(kind, v)[i],
{
    let f = filter_index(kind);
    let p = v % 8;
    assert((-v) % 8 == 8 - p);
    lemma_mirrored_rows(f, p, i);
}

proof fn lemma_mirrored_rows(f: int, p: int, i: int)
    requires
        0 <= f < 4,
        1 <= p < 8,
        0 <= i < 8,
    ensures
        SUBPEL_FILTERS[f][8 - p]@[7 - i] == SUBPEL_FILTERS[f][p]@[i],
{
    assert(p == 1 || p == 2 || p == 3 || p == 4 || p == 5 || p == 6 || p == 7);
    assert(i == 0 || i == 1 || i == 2 || i == 3 || i == 4 || i == 5 || i == 6 || i == 7);
}

/// Where the weight of the two nearest samples lies: the nearer one weighs more, and the
/// weight moves to the next sample as the fraction grows.
pub proof fn law_kernel_moves(kind: u8, p: int)
    requires
        0 <= p < 7,
    ensures
        kernel_of(kind, p)[4] < kernel_of(kind, p + 1)[4],
        kernel_of(kind, p + 1)[3] < kernel_of(kind, p)[3],
        p < 4 ==> kernel_of(kind, p)[4] < kernel_of(kind, p)[3],
{
    let f = filter_index(kind);
    assert(f == 0 || f == 1 || f == 2 || f == 3);
    assert(p == 0 || p == 1 || p == 2 || p == 3 || p == 4 || p == 5 || p == 6);
}

/// One plane is the other with left and right exchanged, and so is the vector.
pub open spec fn mirrored(a: McModel, b: McModel) -> bool {
    &&& forall|x: int, y: int| #[trigger] mc_sample(a, x, y) == mc_sample(b, a.w - 1 - x, y)
    &&& b.y == a.y
    &&& b.row == a.row
    &&& b.col == -a.col
    &&& b.filter == a.filter
}

/// Exchanging left and right of the reference and turning the vector round gives the same
/// pixel at the opposite place, with every filter and fraction.
pub proof fn law_mirrored(a: McModel, b: McModel, y: int, x: int, z: int)
    requires
        mirrored(a, b),
        b.x + z == a.w - 1 - (a.x + x),
    ensures
        mc_pixel(b, y, z) == mc_pixel(a, y, x),
{
    reveal(mc_pixel);
    assert forall|r: int| #[trigger] mc_mid(b, r, z) == mc_mid(a, r, x) by {
        lemma_mirrored_row(a, b, r, x, z);
    }
    lemma_column_taps(a, y, x);
    lemma_column_taps(b, y, z);
    let p = |k: int| mc_mid(a, y + k - 3, x);
    let q = |k: int| mc_mid(b, y + k - 3, z);
    assert forall|k: int| #[trigger] p(k) == q(k) by {
        assert(mc_mid(b, y + k - 3, z) == mc_mid(a, y + k - 3, x));
    }
    assert(tapped(kernel_of(a.filter, a.row), p) == tapped(kernel_of(a.filter, a.row), q));
}

proof fn lemma_mirrored_row(a: McModel, b: McModel, y: int, x: int, z: int)
    requires
        mirrored(a, b),
        b.x + z == a.w - 1 - (a.x + x),
    ensures
        mc_mid(b, y, z) == mc_mid(a, y, x),
{
    lemma_row_taps(a, y, x);
    lemma_row_taps(b, y, z);
    let ry = a.y + a.row / 8 + y;
    let p = |k: int| mc_sample(a, a.x + a.col / 8 + x + k - 3, a.y + a.row / 8 + y);
    let q = |k: int| mc_sample(b, b.x + b.col / 8 + z + k - 3, b.y + b.row / 8 + y);
    if a.col % 8 == 0 {
        lemma_whole_kernel(a.filter, a.col);
        lemma_whole_kernel(b.filter, b.col);
        lemma_only_middle(kernel_of(a.filter, a.col), p);
        lemma_only_middle(kernel_of(b.filter, b.col), q);
        assert(b.col / 8 == -(a.col / 8));
        let ax = a.x + a.col / 8 + x;
        assert(mc_sample(a, ax, ry) == mc_sample(b, a.w - 1 - ax, ry));
    } else {
        assert(b.col / 8 == -(a.col / 8) - 1);
        assert forall|k: int| 0 <= k < 8 implies #[trigger] q(k) == p(7 - k) by {
            let ax = a.x + a.col / 8 + x + (7 - k) - 3;
            assert(mc_sample(a, ax, ry) == mc_sample(b, a.w - 1 - ax, ry));
        }
        let c = kernel_of(a.filter, a.col);
        let d = kernel_of(b.filter, b.col);
        assert forall|k: int| 0 <= k < 8 implies #[trigger] d[k] == c[7 - k] by {
            law_kernel_mirrored(a.filter, a.col, 7 - k);
        }
        assert(q(0) == p(7) && q(1) == p(6) && q(2) == p(5) && q(3) == p(4) && q(4) == p(3) && q(5)
            == p(2) && q(6) == p(1) && q(7) == p(0));
        assert(d[0] == c[7] && d[1] == c[6] && d[2] == c[5] && d[3] == c[4] && d[4] == c[3] && d[5]
            == c[2] && d[6] == c[1] && d[7] == c[0]);
    }
}

/// A flat reference predicts a flat block, whatever the vector.
pub proof fn law_flat_reference(m: McModel, c: int, y: int, x: int)
    requires
        0 <= c <= 255,
        forall|a: int, b: int| #[trigger] mc_sample(m, a, b) == c,
    ensures
        mc_pixel(m, y, x) == c,
{
    reveal(mc_pixel);
    crate::inter::law_kernel_sum(m.filter, m.col);
    crate::inter::law_kernel_sum(m.filter, m.row);
    reveal_with_fuel(crate::inter::kernel_sum, 9);
    assert forall|r: int| #[trigger] mc_mid(m, r, x) == c by {
        lemma_row_taps(m, r, x);
        lemma_same_taps(
            kernel_of(m.filter, m.col),
            |k: int| mc_sample(m, m.x + m.col / 8 + x + k - 3, m.y + m.row / 8 + r),
            c,
        );
        assert((128 * c + 64) / 128 == c);
    }
    lemma_column_taps(m, y, x);
    lemma_same_taps(kernel_of(m.filter, m.row), |k: int| mc_mid(m, y + k - 3, x), c);
}

proof fn lemma_same_taps(k: Seq<i32>, at: spec_fn(int) -> int, c: int)
    requires
        forall|j: int| #[trigger] at(j) == c,
        k[0] + k[1] + k[2] + k[3] + k[4] + k[5] + k[6] + k[7] == 128,
    ensures
        tapped(k, at) == 128 * c,
{
    let s = k[0] + k[1] + k[2] + k[3] + k[4] + k[5] + k[6] + k[7];
    assert(c * k[0] + c * k[1] + c * k[2] + c * k[3] + c * k[4] + c * k[5] + c * k[6] + c * k[7]
        == c * s) by (nonlinear_arith)
        requires
            s == k[0] + k[1] + k[2] + k[3] + k[4] + k[5] + k[6] + k[7],
    ;
    assert(at(0) == c && at(1) == c && at(2) == c && at(3) == c && at(4) == c && at(5) == c && at(6)
        == c && at(7) == c);
}

} // verus!
