//! Sample planes as grids.
//!
//! A plane is stored row after row. Its model is the sequence of its rows.
use crate::transform::{lemma_block_cell, lemma_cell_unique};
use vstd::prelude::*;

verus! {

/// Row `y` of a plane of `w` samples per row.
pub open spec fn row_of(plane: Seq<u8>, w: int, y: int) -> Seq<i32> {
    Seq::new(w as nat, |x: int| plane[y * w + x] as i32)
}

/// The rows of a plane of `w` by `h` samples.
pub open spec fn grid_of(plane: Seq<u8>, w: int, h: int) -> Seq<Seq<i32>> {
    Seq::new(h as nat, |y: int| row_of(plane, w, y))
}

/// Column `x` of a grid.
pub open spec fn column(g: Seq<Seq<i32>>, x: int) -> Seq<i32> {
    Seq::new(g.len(), |y: int| g[y][x])
}

/// A grid with column `x` replaced.
pub open spec fn with_column(g: Seq<Seq<i32>>, x: int, c: Seq<i32>) -> Seq<Seq<i32>> {
    Seq::new(g.len(), |y: int| g[y].update(x, c[y]))
}

/// Two planes with the same rows are the same plane.
pub proof fn law_grid_injective(a: Seq<u8>, b: Seq<u8>, w: int, h: int)
    requires
        0 <= w,
        0 <= h,
        a.len() == w * h,
        b.len() == w * h,
        grid_of(a, w, h) == grid_of(b, w, h),
    ensures
        a == b,
{
    assert forall|p: int| 0 <= p < a.len() implies a[p] == b[p] by {
        if w == 0 {
            assert(w * h == 0) by (nonlinear_arith)
                requires
                    w == 0,
            ;
        } else {
            vstd::arithmetic::div_mod::lemma_fundamental_div_mod(p, w);
            let y = p / w;
            let x = p % w;
            assert(w * y == y * w) by (nonlinear_arith);
            assert(0 <= y < h) by (nonlinear_arith)
                requires
                    p == w * y + x,
                    0 <= p < w * h,
                    0 <= x < w,
            ;
            assert(grid_of(a, w, h)[y][x] == a[y * w + x] as i32);
            assert(grid_of(b, w, h)[y][x] == b[y * w + x] as i32);
        }
    }
    assert(a =~= b);
}

/// The plane with these rows.
pub open spec fn plane_of(g: Seq<Seq<i32>>, w: int, h: int) -> Seq<u8> {
    Seq::new((w * h) as nat, |p: int| g[p / w][p % w] as u8)
}

/// A plane is the one with its rows.
pub proof fn lemma_plane_of(a: Seq<u8>, w: int, h: int)
    requires
        0 <= w,
        0 <= h,
        a.len() == w * h,
    ensures
        plane_of(grid_of(a, w, h), w, h) == a,
{
    assert forall|p: int| 0 <= p < a.len() implies #[trigger] plane_of(grid_of(a, w, h), w, h)[p]
        == a[p] by {
        if w == 0 {
            assert(w * h == 0) by (nonlinear_arith)
                requires
                    w == 0,
            ;
        } else {
            vstd::arithmetic::div_mod::lemma_fundamental_div_mod(p, w);
            let y = p / w;
            let x = p % w;
            assert(w * y == y * w) by (nonlinear_arith);
            assert(0 <= y < h) by (nonlinear_arith)
                requires
                    p == w * y + x,
                    0 <= p < w * h,
                    0 <= x < w,
            ;
        }
    }
    assert(plane_of(grid_of(a, w, h), w, h) =~= a);
}

/// Reads row `y` of a plane.
pub fn read_row(plane: &[u8], w: usize, h: usize, y: usize) -> (r: Vec<i32>)
    requires
        plane@.len() == w * h,
        y < h,
    ensures
        r@ == row_of(plane@, w as int, y as int),
        forall|i: int| 0 <= i < r@.len() ==> 0 <= #[trigger] r@[i] <= 255,
{
    let mut r: Vec<i32> = Vec::new();
    let mut x: usize = 0;
    proof {
        assert(y * w <= w * h) by (nonlinear_arith)
            requires
                y <= h,
        ;
        assert(plane.len() <= usize::MAX);
    }
    let base: usize = y * w;
    while x < w
        invariant
            x <= w,
            y < h,
            base == y * w,
            plane@.len() == w * h,
            r@.len() == x,
            forall|i: int| 0 <= i < x ==> #[trigger] r@[i] == plane@[y * w + i] as i32,
            forall|i: int| 0 <= i < r@.len() ==> 0 <= #[trigger] r@[i] <= 255,
        decreases w - x,
    {
        proof {
            lemma_block_cell(w as int, h as int, y as int, x as int);
            assert(plane.len() <= usize::MAX);
        }
        r.push(plane[base + x] as i32);
        x = x + 1;
    }
    assert(r@ =~= row_of(plane@, w as int, y as int));
    r
}

/// Writes row `y` of a plane.
pub fn write_row(plane: &mut [u8], w: usize, h: usize, y: usize, line: &Vec<i32>)
    requires
        old(plane)@.len() == w * h,
        y < h,
        line@.len() == w,
        forall|i: int| 0 <= i < line@.len() ==> 0 <= #[trigger] line@[i] <= 255,
    ensures
        final(plane)@.len() == old(plane)@.len(),
        grid_of(final(plane)@, w as int, h as int) == grid_of(
            old(plane)@,
            w as int,
            h as int,
        ).update(y as int, line@),
{
    let ghost p0 = plane@;
    let mut x: usize = 0;
    proof {
        assert(y * w <= w * h) by (nonlinear_arith)
            requires
                y <= h,
        ;
        assert(plane.len() <= usize::MAX);
    }
    let base: usize = y * w;
    while x < w
        invariant
            x <= w,
            y < h,
            base == y * w,
            plane@.len() == w * h,
            p0.len() == w * h,
            line@.len() == w,
            forall|i: int| 0 <= i < line@.len() ==> 0 <= #[trigger] line@[i] <= 255,
            forall|k: int|
                0 <= k < p0.len() ==> #[trigger] plane@[k] == if base <= k < base + x {
                    line@[k - base] as u8
                } else {
                    p0[k]
                },
        decreases w - x,
    {
        proof {
            lemma_block_cell(w as int, h as int, y as int, x as int);
            assert(plane.len() <= usize::MAX);
        }
        plane[base + x] = line[x] as u8;
        x = x + 1;
    }
    proof {
        let wi = w as int;
        let hi = h as int;
        assert forall|a: int| 0 <= a < hi implies grid_of(plane@, wi, hi)[a] == grid_of(
            p0,
            wi,
            hi,
        ).update(y as int, line@)[a] by {
            assert forall|b: int| 0 <= b < wi implies row_of(plane@, wi, a)[b] == grid_of(
                p0,
                wi,
                hi,
            ).update(y as int, line@)[a][b] by {
                lemma_block_cell(wi, hi, a, b);
                let k = a * wi + b;
                if base <= k < base + wi {
                    lemma_cell_unique(wi, a, b, y as int, k - base);
                }
                if a == y {
                    assert(k == base + b);
                }
            }
            assert(row_of(plane@, wi, a) =~= grid_of(p0, wi, hi).update(y as int, line@)[a]);
        }
        assert(grid_of(plane@, wi, hi) =~= grid_of(p0, wi, hi).update(y as int, line@));
    }
}

/// Reads column `x` of a plane.
pub fn read_column(plane: &[u8], w: usize, h: usize, x: usize) -> (r: Vec<i32>)
    requires
        plane@.len() == w * h,
        x < w,
    ensures
        r@ == column(grid_of(plane@, w as int, h as int), x as int),
        forall|i: int| 0 <= i < r@.len() ==> 0 <= #[trigger] r@[i] <= 255,
{
    let ghost g = grid_of(plane@, w as int, h as int);
    let mut r: Vec<i32> = Vec::new();
    let mut y: usize = 0;
    while y < h
        invariant
            y <= h,
            x < w,
            plane@.len() == w * h,
            g == grid_of(plane@, w as int, h as int),
            r@.len() == y,
            forall|i: int| 0 <= i < y ==> #[trigger] r@[i] == g[i][x as int],
            forall|i: int| 0 <= i < r@.len() ==> 0 <= #[trigger] r@[i] <= 255,
        decreases h - y,
    {
        proof {
            lemma_block_cell(w as int, h as int, y as int, x as int);
            assert(plane.len() <= usize::MAX);
            assert(y * w <= w * h) by (nonlinear_arith)
                requires
                    y <= h,
            ;
        }
        r.push(plane[y * w + x] as i32);
        y = y + 1;
    }
    assert(r@ =~= column(g, x as int));
    r
}

/// Writes column `x` of a plane.
pub fn write_column(plane: &mut [u8], w: usize, h: usize, x: usize, line: &Vec<i32>)
    requires
        old(plane)@.len() == w * h,
        x < w,
        line@.len() == h,
        forall|i: int| 0 <= i < line@.len() ==> 0 <= #[trigger] line@[i] <= 255,
    ensures
        final(plane)@.len() == old(plane)@.len(),
        grid_of(final(plane)@, w as int, h as int) == with_column(
            grid_of(old(plane)@, w as int, h as int),
            x as int,
            line@,
        ),
{
    let ghost p0 = plane@;
    let ghost wi = w as int;
    let ghost hi = h as int;
    let ghost g0 = grid_of(p0, wi, hi);
    let mut y: usize = 0;
    while y < h
        invariant
            y <= h,
            x < w,
            wi == w,
            hi == h,
            plane@.len() == w * h,
            p0.len() == w * h,
            line@.len() == h,
            forall|i: int| 0 <= i < line@.len() ==> 0 <= #[trigger] line@[i] <= 255,
            forall|a: int, b: int|
                0 <= a < hi && 0 <= b < wi ==> #[trigger] row_of(plane@, wi, a)[b] == if b == x && a
                    < y {
                    line@[a]
                } else {
                    row_of(p0, wi, a)[b]
                },
        decreases h - y,
    {
        proof {
            lemma_block_cell(wi, hi, y as int, x as int);
            assert(plane.len() <= usize::MAX);
            assert(y * w <= w * h) by (nonlinear_arith)
                requires
                    y <= h,
            ;
        }
        let ghost before = plane@;
        plane[y * w + x] = line[y] as u8;
        proof {
            assert forall|a: int, b: int| 0 <= a < hi && 0 <= b < wi implies #[trigger] row_of(
                plane@,
                wi,
                a,
            )[b] == if b == x && a < y + 1 {
                line@[a]
            } else {
                row_of(p0, wi, a)[b]
            } by {
                lemma_block_cell(wi, hi, a, b);
                if a * wi + b == y * wi + x {
                    lemma_cell_unique(wi, a, b, y as int, x as int);
                }
                assert(row_of(before, wi, a)[b] == if b == x && a < y {
                    line@[a]
                } else {
                    row_of(p0, wi, a)[b]
                });
            }
        }
        y = y + 1;
    }
    proof {
        assert forall|a: int| 0 <= a < hi implies grid_of(plane@, wi, hi)[a] == with_column(
            g0,
            x as int,
            line@,
        )[a] by {
            assert(row_of(plane@, wi, a) =~= with_column(g0, x as int, line@)[a]);
        }
        assert(grid_of(plane@, wi, hi) =~= with_column(g0, x as int, line@));
    }
}

} // verus!
