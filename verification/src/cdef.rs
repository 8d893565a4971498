//! The directional enhancement filter.
//!
//! Every block has a direction, along which its samples vary least, and a variance.
//! Every sample is then moved toward its neighbours along that direction and along
//! two directions beside it, and stays between the least and the largest of them.
use crate::bits::{floor_log2, lemma_floor_log2, lemma_pow2i_values, pow2i};
use crate::entropy::{at_least_0, floor_log2_of, min_of};
use crate::loop_filter::{block_index, block_start, clip3, clip3_of};
use crate::math::{absi, lemma_div_bound, shr32};
use crate::planes::{grid_of, write_row};
use crate::transform::lemma_block_cell;
use vstd::prelude::*;

verus! {

/// The weight of a line of `n` samples, 840 divided by `n`.
pub const DIV_TABLE: [i64; 9] = [0, 840, 420, 280, 210, 168, 140, 120, 105];

/// The step of direction `d` at distance `k`, down and to the right.
pub open spec fn direction_step(d: int, k: int) -> (int, int) {
    if d == 0 {
        (-1 - k, 1 + k)
    } else if d == 1 {
        (-k, 1 + k)
    } else if d == 2 {
        (0, 1 + k)
    } else if d == 3 {
        (k, 1 + k)
    } else if d == 4 {
        (1 + k, 1 + k)
    } else if d == 5 {
        (1 + k, k)
    } else if d == 6 {
        (1 + k, 0)
    } else {
        (1 + k, -k)
    }
}

/// The step of a direction.
pub fn cdef_step(d: usize, k: usize) -> (r: (i32, i32))
    requires
        d < 8,
        k < 2,
    ensures
        (r.0 as int, r.1 as int) == direction_step(d as int, k as int),
        -2 <= r.0 <= 2,
        -2 <= r.1 <= 2,
{
    let n: i32 = k as i32;
    if d == 0 {
        (-1 - n, 1 + n)
    } else if d == 1 {
        (-n, 1 + n)
    } else if d == 2 {
        (0, 1 + n)
    } else if d == 3 {
        (n, 1 + n)
    } else if d == 4 {
        (1 + n, 1 + n)
    } else if d == 5 {
        (1 + n, n)
    } else if d == 6 {
        (1 + n, 0)
    } else {
        (1 + n, -n)
    }
}

/// A direction as a plane sees it whose samples are halved across or down.
pub open spec fn remapped(sub_x: bool, sub_y: bool, d: int) -> int {
    if sub_x == sub_y {
        d
    } else if sub_y {
        if d == 0 {
            1
        } else if d <= 3 {
            2
        } else if d == 4 {
            3
        } else if d == 5 {
            4
        } else if d == 6 {
            6
        } else {
            0
        }
    } else {
        if d == 0 {
            7
        } else if d == 1 {
            0
        } else if d == 2 {
            2
        } else if d == 3 {
            4
        } else if d == 4 {
            5
        } else {
            6
        }
    }
}

/// A direction as a plane sees it whose samples are halved across or down.
pub fn cdef_uv_dir(sub_x: bool, sub_y: bool, d: usize) -> (r: usize)
    requires
        d < 8,
    ensures
        r == remapped(sub_x, sub_y, d as int),
        r < 8,
{
    if sub_x == sub_y {
        d
    } else if sub_y {
        if d == 0 {
            1
        } else if d <= 3 {
            2
        } else if d == 4 {
            3
        } else if d == 5 {
            4
        } else if d == 6 {
            6
        } else {
            0
        }
    } else {
        if d == 0 {
            7
        } else if d == 1 {
            0
        } else if d == 2 {
            2
        } else if d == 3 {
            4
        } else if d == 4 {
            5
        } else {
            6
        }
    }
}

// ---------------------------------------------------------------------------
// Constraining a difference
// ---------------------------------------------------------------------------

/// How far a difference may act: all of it up to the threshold, less the farther it
/// goes beyond.
pub open spec fn constrained(diff: int, threshold: int, damping: int) -> int {
    if threshold == 0 {
        0
    } else {
        let shift = at_least_0(damping - floor_log2(threshold));
        let least = min_of(absi(diff), at_least_0(threshold - absi(diff) / pow2i(shift)));
        if diff < 0 {
            -least
        } else {
            least
        }
    }
}

/// How far a difference may act.
pub fn cdef_constrain(diff: i32, threshold: i32, damping: i32) -> (r: i32)
    requires
        i32::MIN < diff,
        0 <= threshold,
        0 <= damping < 31,
    ensures
        r == constrained(diff as int, threshold as int, damping as int),
        absi(r as int) <= absi(diff as int),
        absi(r as int) <= threshold,
{
    if threshold == 0 {
        return 0;
    }
    let log: i32 = floor_log2_of(threshold as u32) as i32;
    let shift: u32 = if damping > log {
        (damping - log) as u32
    } else {
        0
    };
    let magnitude: i32 = if diff < 0 {
        -diff
    } else {
        diff
    };
    proof {
        lemma_div_bound(magnitude as int, shift as int, magnitude as int);
        crate::bits::lemma_pow2i_mono(0, shift as int);
        vstd::arithmetic::div_mod::lemma_div_pos_is_pos(magnitude as int, pow2i(shift as int));
    }
    let capped: i32 = threshold - shr32(magnitude, shift);
    let allowed: i32 = if capped < 0 {
        0
    } else {
        capped
    };
    let least: i32 = if magnitude <= allowed {
        magnitude
    } else {
        allowed
    };
    if diff < 0 {
        -least
    } else {
        least
    }
}

// ---------------------------------------------------------------------------
// Direction and variance
// ---------------------------------------------------------------------------

/// The line in direction `k` that the sample in row `i` and column `j` of a block
/// lies on.
pub open spec fn line_of(k: int, i: int, j: int) -> int {
    if k == 0 {
        i + j
    } else if k == 1 {
        i + j / 2
    } else if k == 2 {
        i
    } else if k == 3 {
        3 + i - j / 2
    } else if k == 4 {
        7 + i - j
    } else if k == 5 {
        3 - i / 2 + j
    } else if k == 6 {
        j
    } else {
        i / 2 + j
    }
}

/// The smaller of a position and the last one.
pub open spec fn held(p: int, n: int) -> int {
    if p < n {
        p
    } else {
        n - 1
    }
}

/// The 64 samples of the block at `x0`, `y0`, less the middle value. Beyond the plane
/// the last sample is repeated.
pub open spec fn block_at(g: Seq<Seq<i32>>, w: int, h: int, x0: int, y0: int) -> Seq<i64> {
    Seq::new(64, |p: int| (g[held(y0 + p / 8, h)][held(x0 + p % 8, w)] - 128) as i64)
}

/// The sum of the first `n` samples of a block as far as they lie on line `l` of
/// direction `k`.
pub open spec fn line_sum(b: Seq<i64>, k: int, l: int, n: int) -> int
    decreases n,
{
    if n <= 0 {
        0
    } else {
        line_sum(b, k, l, n - 1) + (if line_of(k, (n - 1) / 8, (n - 1) % 8) == l {
            b[n - 1] as int
        } else {
            0
        })
    }
}

/// The sums along all lines of direction `k`.
pub open spec fn line_sums(b: Seq<i64>, k: int) -> Seq<int> {
    Seq::new(15, |l: int| line_sum(b, k, l, 64))
}

/// The square of a number.
pub open spec fn sq(x: int) -> int {
    x * x
}

/// The sum of the squares of the `n` numbers from `from` on.
pub open spec fn square_sum(s: Seq<int>, from: int, n: int) -> int
    decreases n,
{
    if n <= 0 {
        0
    } else {
        square_sum(s, from, n - 1) + sq(s[from + n - 1])
    }
}

/// The weighted squares of the outermost `n` pairs of lines, out of lines up to
/// `last`, a line being longer by `step` than the one outside it.
pub open spec fn pair_sum(s: Seq<int>, last: int, step: int, n: int) -> int
    decreases n,
{
    if n <= 0 {
        0
    } else {
        pair_sum(s, last, step, n - 1) + (sq(s[n - 1]) + sq(s[last - (n - 1)]))
            * DIV_TABLE[if step == 1 {
            n
        } else {
            2 * n
        }]
    }
}

/// How well direction `k` fits, from the sums along its lines.
pub open spec fn cost_of(s: Seq<int>, k: int) -> int {
    if k == 0 {
        8 * square_sum(s, 0, 15) + pair_sum(s, 14, 1, 7) + 105 * sq(s[7])
    } else if k == 4 {
        pair_sum(s, 14, 1, 7) + 105 * sq(s[7])
    } else if k == 2 || k == 6 {
        105 * square_sum(s, 0, 15)
    } else {
        105 * square_sum(s, 3, 5) + pair_sum(s, 10, 2, 3)
    }
}

/// How well direction `k` fits a block.
pub open spec fn block_cost(b: Seq<i64>, k: int) -> int {
    cost_of(line_sums(b, k), k)
}

/// The best of the first `n` directions and its cost. The first of equals wins, and
/// direction zero where no cost is positive.
pub open spec fn best_direction(b: Seq<i64>, n: int) -> (int, int)
    decreases n,
{
    if n <= 0 {
        (0, 0)
    } else {
        let prev = best_direction(b, n - 1);
        if block_cost(b, n - 1) > prev.1 {
            (n - 1, block_cost(b, n - 1))
        } else {
            prev
        }
    }
}

/// The direction across another one.
pub open spec fn across(d: int) -> int {
    if d < 4 {
        d + 4
    } else {
        d - 4
    }
}

/// The direction of a block.
pub open spec fn direction_of(b: Seq<i64>) -> int {
    best_direction(b, 8).0
}

/// The variance of a block: how much better its direction fits than the one across
/// it.
pub open spec fn variance_of(b: Seq<i64>) -> int {
    (best_direction(b, 8).1 - block_cost(b, across(direction_of(b)))) / 1024
}

/// The samples of a block are bytes less the middle value.
pub open spec fn centred(b: Seq<i64>) -> bool {
    &&& b.len() == 64
    &&& forall|p: int| 0 <= p < 64 ==> -128 <= #[trigger] b[p] <= 127
}

proof fn lemma_line_sum_bound(b: Seq<i64>, k: int, l: int, n: int)
    requires
        centred(b),
        0 <= n <= 64,
    ensures
        -128 * n <= line_sum(b, k, l, n) <= 128 * n,
    decreases n,
{
    if n > 0 {
        lemma_line_sum_bound(b, k, l, n - 1);
        assert(-128 <= b[n - 1] <= 127);
    }
}

proof fn lemma_sq_bound(x: int)
    requires
        -8192 <= x <= 8192,
    ensures
        0 <= sq(x) <= 0x400_0000,
{
    assert(0 <= x * x <= 0x400_0000) by (nonlinear_arith)
        requires
            -8192 <= x <= 8192,
    ;
}

/// The sums of a block are small enough to be squared.
pub open spec fn small_sums(s: Seq<int>) -> bool {
    &&& s.len() == 15
    &&& forall|l: int| 0 <= l < 15 ==> -8192 <= #[trigger] s[l] <= 8192
}

proof fn lemma_square_sum_bound(s: Seq<int>, from: int, n: int)
    requires
        small_sums(s),
        0 <= from,
        0 <= n,
        from + n <= 15,
    ensures
        0 <= square_sum(s, from, n) <= 0x400_0000 * n,
    decreases n,
{
    if n > 0 {
        lemma_square_sum_bound(s, from, n - 1);
        lemma_sq_bound(s[from + n - 1]);
    }
}

proof fn lemma_weight(n: int)
    requires
        1 <= n <= 8,
    ensures
        105 <= DIV_TABLE[n] <= 840,
{
}

proof fn lemma_weighted(x: int, y: int)
    requires
        0 <= x <= 0x800_0000,
        0 <= y <= 840,
    ensures
        0 <= x * y <= 0x1_A400_0000_0,
{
    assert(0 <= x * y <= 0x800_0000 * 840) by (nonlinear_arith)
        requires
            0 <= x <= 0x800_0000,
            0 <= y <= 840,
    ;
}

proof fn lemma_pair_sum_bound(s: Seq<int>, last: int, step: int, n: int)
    requires
        small_sums(s),
        0 <= n,
        (step == 1 && last == 14 && n <= 7) || (step == 2 && last == 10 && n <= 3),
    ensures
        0 <= pair_sum(s, last, step, n) <= 0x1_A400_0000_0 * n,
    decreases n,
{
    if n > 0 {
        lemma_pair_sum_bound(s, last, step, n - 1);
        lemma_sq_bound(s[n - 1]);
        lemma_sq_bound(s[last - (n - 1)]);
        let k = if step == 1 {
            n
        } else {
            2 * n
        };
        lemma_weight(k);
        lemma_weighted(sq(s[n - 1]) + sq(s[last - (n - 1)]), DIV_TABLE[k] as int);
    }
}

proof fn lemma_cost_bound(s: Seq<int>, k: int)
    requires
        small_sums(s),
        0 <= k < 8,
    ensures
        0 <= cost_of(s, k) <= 0x10_0000_0000_0000,
{
    lemma_square_sum_bound(s, 0, 15);
    lemma_square_sum_bound(s, 3, 5);
    lemma_pair_sum_bound(s, 14, 1, 7);
    lemma_pair_sum_bound(s, 10, 2, 3);
    lemma_sq_bound(s[7]);
}

proof fn lemma_sums_small(b: Seq<i64>, k: int)
    requires
        centred(b),
    ensures
        small_sums(line_sums(b, k)),
{
    assert forall|l: int| 0 <= l < 15 implies -8192 <= #[trigger] line_sums(b, k)[l] <= 8192 by {
        lemma_line_sum_bound(b, k, l, 64);
    }
}

proof fn lemma_best(b: Seq<i64>, n: int)
    requires
        centred(b),
        0 <= n <= 8,
    ensures
        0 <= best_direction(b, n).0 < 8,
        0 <= best_direction(b, n).1 <= 0x10_0000_0000_0000,
        forall|k: int| 0 <= k < n ==> #[trigger] block_cost(b, k) <= best_direction(b, n).1,
    decreases n,
{
    if n > 0 {
        lemma_best(b, n - 1);
        lemma_sums_small(b, n - 1);
        lemma_cost_bound(line_sums(b, n - 1), n - 1);
    }
}

/// The direction of a block is the one that fits best, and its variance is not
/// negative.
pub proof fn lemma_direction(b: Seq<i64>)
    requires
        centred(b),
    ensures
        0 <= direction_of(b) < 8,
        forall|k: int| 0 <= k < 8 ==> #[trigger] block_cost(b, k) <= best_direction(b, 8).1,
        0 <= variance_of(b) <= 0x400_0000_0000,
{
    lemma_best(b, 8);
    let d = across(direction_of(b));
    lemma_sums_small(b, d);
    lemma_cost_bound(line_sums(b, d), d);
    assert(block_cost(b, d) <= best_direction(b, 8).1);
}

/// The line that a sample lies on.
fn line_index(k: usize, i: usize, j: usize) -> (r: usize)
    requires
        k < 8,
        i < 8,
        j < 8,
    ensures
        r == line_of(k as int, i as int, j as int),
        r < 15,
{
    if k == 0 {
        i + j
    } else if k == 1 {
        i + j / 2
    } else if k == 2 {
        i
    } else if k == 3 {
        3 + i - j / 2
    } else if k == 4 {
        7 + i - j
    } else if k == 5 {
        3 - i / 2 + j
    } else if k == 6 {
        j
    } else {
        i / 2 + j
    }
}

/// The sums along the lines of a direction, as integers.
pub open spec fn wide_ints(s: Seq<i64>) -> Seq<int> {
    Seq::new(s.len(), |i: int| s[i] as int)
}

/// Sums a block along the lines of direction `k`.
fn sum_lines(b: &Vec<i64>, k: usize) -> (r: Vec<i64>)
    requires
        centred(b@),
        k < 8,
    ensures
        r@.len() == 15,
        wide_ints(r@) == line_sums(b@, k as int),
        small_sums(line_sums(b@, k as int)),
{
    let mut sums: Vec<i64> = Vec::new();
    while sums.len() < 15
        invariant
            sums@.len() <= 15,
            forall|l: int| 0 <= l < sums@.len() ==> #[trigger] sums@[l] == 0,
        decreases 15 - sums.len(),
    {
        sums.push(0);
    }
    let mut p: usize = 0;
    while p < 64
        invariant
            p <= 64,
            k < 8,
            centred(b@),
            sums@.len() == 15,
            forall|l: int| 0 <= l < 15 ==> #[trigger] sums@[l] == line_sum(b@, k as int, l, p as int),
        decreases 64 - p,
    {
        let l: usize = line_index(k, p / 8, p % 8);
        proof {
            lemma_line_sum_bound(b@, k as int, l as int, p as int);
            assert(-128 <= b@[p as int] <= 127);
        }
        let s: i64 = sums[l] + b[p];
        sums.set(l, s);
        p = p + 1;
    }
    proof {
        lemma_sums_small(b@, k as int);
        assert(wide_ints(sums@) =~= line_sums(b@, k as int));
    }
    sums
}

fn squares(s: &Vec<i64>, from: usize, n: usize) -> (r: i64)
    requires
        small_sums(wide_ints(s@)),
        from + n <= 15,
    ensures
        r == square_sum(wide_ints(s@), from as int, n as int),
{
    let ghost w = wide_ints(s@);
    let mut i: usize = 0;
    let mut sum: i64 = 0;
    while i < n
        invariant
            i <= n,
            from + n <= 15,
            w == wide_ints(s@),
            small_sums(w),
            sum == square_sum(w, from as int, i as int),
        decreases n - i,
    {
        let v: i64 = s[from + i];
        proof {
            lemma_square_sum_bound(w, from as int, i as int);
            assert(v == w[from + i]);
            lemma_sq_bound(v as int);
        }
        sum = sum + v * v;
        i = i + 1;
    }
    sum
}

fn pairs(s: &Vec<i64>, last: usize, step: usize, n: usize) -> (r: i64)
    requires
        small_sums(wide_ints(s@)),
        (step == 1 && last == 14 && n <= 7) || (step == 2 && last == 10 && n <= 3),
    ensures
        r == pair_sum(wide_ints(s@), last as int, step as int, n as int),
{
    let ghost w = wide_ints(s@);
    let mut i: usize = 0;
    let mut sum: i64 = 0;
    while i < n
        invariant
            i <= n,
            (step == 1 && last == 14 && n <= 7) || (step == 2 && last == 10 && n <= 3),
            w == wide_ints(s@),
            small_sums(w),
            sum == pair_sum(w, last as int, step as int, i as int),
        decreases n - i,
    {
        let a: i64 = s[i];
        let b: i64 = s[last - i];
        let weight: i64 = DIV_TABLE[if step == 1 { i + 1 } else { 2 * (i + 1) }];
        proof {
            lemma_pair_sum_bound(w, last as int, step as int, i as int);
            assert(a == w[i as int]);
            assert(b == w[last - i]);
            lemma_sq_bound(a as int);
            lemma_sq_bound(b as int);
            lemma_weight(if step == 1 {
                i + 1
            } else {
                2 * (i + 1)
            });
            lemma_weighted(sq(a as int) + sq(b as int), weight as int);
        }
        sum = sum + (a * a + b * b) * weight;
        i = i + 1;
    }
    sum
}

/// How well a direction fits.
fn line_cost(s: &Vec<i64>, k: usize) -> (r: i64)
    requires
        s@.len() == 15,
        small_sums(wide_ints(s@)),
        k < 8,
    ensures
        r == cost_of(wide_ints(s@), k as int),
        0 <= r <= 0x10_0000_0000_0000,
{
    proof {
        let w = wide_ints(s@);
        lemma_square_sum_bound(w, 0, 15);
        lemma_square_sum_bound(w, 3, 5);
        lemma_pair_sum_bound(w, 14, 1, 7);
        lemma_pair_sum_bound(w, 10, 2, 3);
        lemma_sq_bound(w[7]);
        assert(w[7] == s@[7]);
    }
    let mid: i64 = s[7];
    if k == 0 {
        8 * squares(s, 0, 15) + pairs(s, 14, 1, 7) + 105 * (mid * mid)
    } else if k == 4 {
        pairs(s, 14, 1, 7) + 105 * (mid * mid)
    } else if k == 2 || k == 6 {
        105 * squares(s, 0, 15)
    } else {
        105 * squares(s, 3, 5) + pairs(s, 10, 2, 3)
    }
}

/// The sample at a position of a plane.
fn sample_of(src: &Vec<u8>, w: usize, h: usize, x: usize, y: usize) -> (r: i32)
    requires
        src@.len() == w * h,
        x < w,
        y < h,
    ensures
        r == grid_of(src@, w as int, h as int)[y as int][x as int],
        0 <= r <= 255,
{
    proof {
        lemma_block_cell(w as int, h as int, y as int, x as int);
        assert(src.len() <= usize::MAX);
    }
    src[y * w + x] as i32
}

/// Reads the block at `x0`, `y0`.
fn read_block(src: &Vec<u8>, w: usize, h: usize, x0: usize, y0: usize) -> (r: Vec<i64>)
    requires
        src@.len() == w * h,
        x0 < w <= 0x1_0000,
        y0 < h <= 0x1_0000,
    ensures
        r@ == block_at(grid_of(src@, w as int, h as int), w as int, h as int, x0 as int, y0 as int),
        centred(r@),
{
    let ghost g = grid_of(src@, w as int, h as int);
    let mut r: Vec<i64> = Vec::new();
    let mut p: usize = 0;
    while p < 64
        invariant
            p <= 64,
            src@.len() == w * h,
            x0 < w <= 0x1_0000,
            y0 < h <= 0x1_0000,
            g == grid_of(src@, w as int, h as int),
            r@.len() == p,
            forall|i: int|
                0 <= i < p ==> #[trigger] r@[i] == g[held(y0 + i / 8, h as int)][held(
                    x0 + i % 8,
                    w as int,
                )] - 128,
            forall|i: int| 0 <= i < p ==> -128 <= #[trigger] r@[i] <= 127,
        decreases 64 - p,
    {
        let yy: usize = if y0 + p / 8 < h {
            y0 + p / 8
        } else {
            h - 1
        };
        let xx: usize = if x0 + p % 8 < w {
            x0 + p % 8
        } else {
            w - 1
        };
        let v: i32 = sample_of(src, w, h, xx, yy);
        r.push((v - 128) as i64);
        p = p + 1;
    }
    assert(r@ =~= block_at(g, w as int, h as int, x0 as int, y0 as int));
    r
}

/// The direction and the variance of the block at `x0`, `y0`.
pub fn cdef_direction(src: &Vec<u8>, w: usize, h: usize, x0: usize, y0: usize) -> (r: (usize, i64))
    requires
        src@.len() == w * h,
        x0 < w <= 0x1_0000,
        y0 < h <= 0x1_0000,
    ensures
        r.0 == direction_of(
            block_at(grid_of(src@, w as int, h as int), w as int, h as int, x0 as int, y0 as int),
        ),
        r.1 == variance_of(
            block_at(grid_of(src@, w as int, h as int), w as int, h as int, x0 as int, y0 as int),
        ),
        r.0 < 8,
        0 <= r.1 <= 0x400_0000_0000,
{
    let b: Vec<i64> = read_block(src, w, h, x0, y0);
    let mut costs: Vec<i64> = Vec::new();
    let mut dir: usize = 0;
    let mut best: i64 = 0;
    let mut k: usize = 0;
    while k < 8
        invariant
            k <= 8,
            centred(b@),
            costs@.len() == k,
            forall|i: int| 0 <= i < k ==> #[trigger] costs@[i] == block_cost(b@, i),
            (dir as int, best as int) == best_direction(b@, k as int),
        decreases 8 - k,
    {
        let sums: Vec<i64> = sum_lines(&b, k);
        let c: i64 = line_cost(&sums, k);
        costs.push(c);
        if c > best {
            best = c;
            dir = k;
        }
        k = k + 1;
    }
    proof {
        lemma_direction(b@);
        lemma_best(b@, 8);
        let d = across(dir as int);
        lemma_sums_small(b@, d);
        lemma_cost_bound(line_sums(b@, d), d);
    }
    let other: usize = if dir < 4 {
        dir + 4
    } else {
        dir - 4
    };
    let var: i64 = (best - costs[other]) / 1024;
    (dir, var)
}

// ---------------------------------------------------------------------------
// Filtering
// ---------------------------------------------------------------------------

/// How the samples of a block are filtered.
pub struct BlockFilter {
    pub pri: int,
    pub sec: int,
    pub damping: int,
    pub dir: int,
}

/// Tap `n` of twelve, as a step down and to the right: for each of two distances and
/// two senses the one along the direction, then the two beside it.
pub open spec fn tap_step(dir: int, n: int) -> (int, int) {
    let d = if n % 3 == 0 {
        dir
    } else if n % 3 == 1 {
        (dir + 6) % 8
    } else {
        (dir + 2) % 8
    };
    let s = direction_step(d, n / 6);
    if (n / 3) % 2 == 0 {
        (-s.0, -s.1)
    } else {
        s
    }
}

/// The weight of tap `n`.
pub open spec fn tap_weight(pri: int, n: int) -> int {
    if n % 3 == 0 {
        if pri % 2 == 0 {
            if n / 6 == 0 {
                4
            } else {
                2
            }
        } else {
            3
        }
    } else {
        if n / 6 == 0 {
            2
        } else {
            1
        }
    }
}

/// What the first taps of a sample have gathered.
#[derive(Clone, Copy)]
pub struct Gathered {
    pub sum: i32,
    pub max: i32,
    pub min: i32,
}

/// The position that tap `n` of the sample at `x`, `y` reads, and whether it lies in
/// the plane.
pub open spec fn tap_inside(f: BlockFilter, w: int, h: int, x: int, y: int, n: int) -> bool {
    let s = tap_step(f.dir, n);
    &&& 0 <= y + s.0 < h
    &&& 0 <= x + s.1 < w
}

/// What one tap adds to the sum: its weight times the constrained difference.
pub open spec fn tap_term(f: BlockFilter, n: int, diff: int) -> int {
    tap_weight(f.pri, n) * constrained(
        diff,
        if n % 3 == 0 {
            f.pri
        } else {
            f.sec
        },
        f.damping,
    )
}

/// What the first `n` taps of the sample at `x`, `y` gather: the sum, the largest and
/// the least sample.
pub open spec fn gathered(
    g: Seq<Seq<i32>>,
    f: BlockFilter,
    w: int,
    h: int,
    x: int,
    y: int,
    n: int,
) -> (int, int, int)
    decreases n,
{
    let here = g[y][x] as int;
    if n <= 0 {
        (0, here, here)
    } else {
        let prev = gathered(g, f, w, h, x, y, n - 1);
        if tap_inside(f, w, h, x, y, n - 1) {
            let s = tap_step(f.dir, n - 1);
            let p = g[y + s.0][x + s.1] as int;
            (
                prev.0 + tap_term(f, n - 1, p - here),
                if p > prev.1 {
                    p
                } else {
                    prev.1
                },
                if p < prev.2 {
                    p
                } else {
                    prev.2
                },
            )
        } else {
            prev
        }
    }
}

/// The filtered sample at `x`, `y`.
pub open spec fn cdef_pixel(g: Seq<Seq<i32>>, f: BlockFilter, w: int, h: int, x: int, y: int) -> int {
    let t = gathered(g, f, w, h, x, y, 12);
    let moved = g[y][x] + (8 + t.0 - (if t.0 < 0 {
        1int
    } else {
        0
    })) / 16;
    clip3_of(moved, t.2, t.1)
}

/// How a plane is filtered.
pub struct CdefPass {
    pub w: int,
    pub h: int,
    pub sub_x: bool,
    pub sub_y: bool,
    pub pri: int,
    pub sec: int,
    pub damping: int,
}

/// The side of a block of a plane.
pub open spec fn cdef_block_side(sub: bool) -> int {
    if sub {
        4
    } else {
        8
    }
}

/// The strength along the direction, by the variance of the block.
pub open spec fn adjusted_strength(pri: int, var: int) -> int {
    if var == 0 {
        0
    } else {
        let log = if var / 64 == 0 {
            0
        } else {
            min_of(floor_log2(var / 64), 12)
        };
        (pri * (4 + log) + 8) / 16
    }
}

/// How the block in block column `bx` and block row `by` is filtered.
pub open spec fn block_filter(g: Seq<Seq<i32>>, m: CdefPass, bx: int, by: int) -> BlockFilter {
    let b = block_at(
        g,
        m.w,
        m.h,
        block_start(cdef_block_side(m.sub_x), bx),
        block_start(cdef_block_side(m.sub_y), by),
    );
    BlockFilter {
        pri: adjusted_strength(m.pri, variance_of(b)),
        sec: m.sec,
        damping: m.damping,
        dir: if m.pri == 0 {
            0
        } else {
            remapped(m.sub_x, m.sub_y, direction_of(b))
        },
    }
}

/// Row `y` of a filtered plane.
pub open spec fn cdef_row(g: Seq<Seq<i32>>, m: CdefPass, y: int) -> Seq<i32> {
    Seq::new(
        m.w as nat,
        |x: int|
            cdef_pixel(
                g,
                block_filter(
                    g,
                    m,
                    block_index(cdef_block_side(m.sub_x), x),
                    block_index(cdef_block_side(m.sub_y), y),
                ),
                m.w,
                m.h,
                x,
                y,
            ) as i32,
    )
}

/// The rows of a filtered plane.
#[verifier::opaque]
pub open spec fn cdef_filtered(g: Seq<Seq<i32>>, m: CdefPass) -> Seq<Seq<i32>> {
    Seq::new(m.h as nat, |y: int| cdef_row(g, m, y))
}

/// The samples of a grid are bytes.
pub open spec fn byte_grid(g: Seq<Seq<i32>>, w: int, h: int) -> bool {
    &&& g.len() == h
    &&& forall|y: int| 0 <= y < h ==> (#[trigger] g[y]).len() == w
    &&& forall|y: int, x: int| 0 <= y < h && 0 <= x < w ==> 0 <= #[trigger] g[y][x] <= 255
}

/// The rows of a plane are bytes.
pub proof fn lemma_byte_grid(p: Seq<u8>, w: int, h: int)
    requires
        0 <= w,
        0 <= h,
    ensures
        byte_grid(grid_of(p, w, h), w, h),
{
}

/// With both strengths zero a tap adds nothing.
proof fn lemma_gathered_still(
    g: Seq<Seq<i32>>,
    f: BlockFilter,
    w: int,
    h: int,
    x: int,
    y: int,
    n: int,
)
    requires
        f.pri == 0,
        f.sec == 0,
        0 <= n,
    ensures
        gathered(g, f, w, h, x, y, n).0 == 0,
        gathered(g, f, w, h, x, y, n).2 <= g[y][x] <= gathered(g, f, w, h, x, y, n).1,
    decreases n,
{
    if n > 0 {
        lemma_gathered_still(g, f, w, h, x, y, n - 1);
        let s = tap_step(f.dir, n - 1);
        let d = g[y + s.0][x + s.1] - g[y][x];
        assert(tap_term(f, n - 1, d) == 0) by {
            let t = tap_weight(f.pri, n - 1);
            assert(t * 0 == 0);
        }
    }
}

/// A filter without strength leaves a plane as it is.
pub proof fn law_zero_strength(g: Seq<Seq<i32>>, m: CdefPass)
    requires
        0 <= m.w,
        0 <= m.h,
        byte_grid(g, m.w, m.h),
        m.pri == 0,
        m.sec == 0,
    ensures
        cdef_filtered(g, m) == g,
{
    reveal(cdef_filtered);
    assert forall|y: int| 0 <= y < m.h implies cdef_row(g, m, y) == g[y] by {
        assert forall|x: int| 0 <= x < m.w implies cdef_row(g, m, y)[x] == g[y][x] by {
            let f = block_filter(
                g,
                m,
                block_index(cdef_block_side(m.sub_x), x),
                block_index(cdef_block_side(m.sub_y), y),
            );
            assert(0 <= g[y][x] <= 255);
            lemma_gathered_still(g, f, m.w, m.h, x, y, 12);
        }
        assert(cdef_row(g, m, y) =~= g[y]);
    }
    assert(cdef_filtered(g, m) =~= g);
}

proof fn lemma_gathered_bound(
    g: Seq<Seq<i32>>,
    f: BlockFilter,
    w: int,
    h: int,
    x: int,
    y: int,
    n: int,
)
    requires
        byte_grid(g, w, h),
        0 <= x < w,
        0 <= y < h,
        0 <= f.pri,
        0 <= f.sec,
        0 <= n <= 12,
    ensures
        -1020 * n <= gathered(g, f, w, h, x, y, n).0 <= 1020 * n,
        0 <= gathered(g, f, w, h, x, y, n).2 <= g[y][x] <= gathered(g, f, w, h, x, y, n).1 <= 255,
    decreases n,
{
    assert(0 <= g[y][x] <= 255);
    if n > 0 {
        lemma_gathered_bound(g, f, w, h, x, y, n - 1);
        if tap_inside(f, w, h, x, y, n - 1) {
            let s = tap_step(f.dir, n - 1);
            assert(0 <= g[y + s.0][x + s.1] <= 255);
            let d = g[y + s.0][x + s.1] - g[y][x];
            lemma_term_bound(f, n - 1, d);
        }
    }
}

proof fn lemma_term_bound(f: BlockFilter, n: int, d: int)
    requires
        -255 <= d <= 255,
        0 <= f.pri,
        0 <= f.sec,
    ensures
        -1020 <= tap_term(f, n, d) <= 1020,
{
    let t = tap_weight(f.pri, n);
    let thr = if n % 3 == 0 {
        f.pri
    } else {
        f.sec
    };
    let c = constrained(d, thr, f.damping);
    assert(-255 <= c <= 255);
    assert(-1020 <= t * c <= 1020) by (nonlinear_arith)
        requires
            -255 <= c <= 255,
            1 <= t <= 4,
    ;
}

/// A sample stays between the least and the largest of those that it is filtered
/// from, itself among them.
pub proof fn law_between_neighbours(
    g: Seq<Seq<i32>>,
    f: BlockFilter,
    w: int,
    h: int,
    x: int,
    y: int,
)
    requires
        byte_grid(g, w, h),
        0 <= x < w,
        0 <= y < h,
        0 <= f.pri,
        0 <= f.sec,
    ensures
        gathered(g, f, w, h, x, y, 12).2 <= cdef_pixel(g, f, w, h, x, y) <= gathered(
            g,
            f,
            w,
            h,
            x,
            y,
            12,
        ).1,
        0 <= cdef_pixel(g, f, w, h, x, y) <= 255,
{
    lemma_gathered_bound(g, f, w, h, x, y, 12);
}

/// The parameters of a block.
#[derive(Clone, Copy)]
struct Filter {
    pri: i32,
    sec: i32,
    damping: i32,
    dir: usize,
}

impl Filter {
    spec fn model(self) -> BlockFilter {
        BlockFilter {
            pri: self.pri as int,
            sec: self.sec as int,
            damping: self.damping as int,
            dir: self.dir as int,
        }
    }

    spec fn wf(self) -> bool {
        &&& 0 <= self.pri <= 0x1_0000
        &&& 0 <= self.sec <= 0x1_0000
        &&& 0 <= self.damping < 31
        &&& self.dir < 8
    }
}

/// The parameters of every block in block row `by` are at hand.
spec fn row_ready(f: Seq<Filter>, g: Seq<Seq<i32>>, m: CdefPass, by: int) -> bool {
    &&& block_start(cdef_block_side(m.sub_x), f.len() as int) >= m.w
    &&& forall|bx: int|
        0 <= bx < f.len() ==> #[trigger] f[bx].wf() && f[bx].model() == block_filter(g, m, bx, by)
}

fn tap_offset(dir: usize, n: usize) -> (r: (i32, i32))
    requires
        dir < 8,
        n < 12,
    ensures
        (r.0 as int, r.1 as int) == tap_step(dir as int, n as int),
        -2 <= r.0 <= 2,
        -2 <= r.1 <= 2,
{
    let d: usize = if n % 3 == 0 {
        dir
    } else if n % 3 == 1 {
        (dir + 6) % 8
    } else {
        (dir + 2) % 8
    };
    let s: (i32, i32) = cdef_step(d, n / 6);
    if (n / 3) % 2 == 0 {
        (-s.0, -s.1)
    } else {
        s
    }
}

fn weight_of(pri: i32, n: usize) -> (r: i32)
    requires
        0 <= pri,
        n < 12,
    ensures
        r == tap_weight(pri as int, n as int),
        1 <= r <= 4,
{
    if n % 3 == 0 {
        if pri % 2 == 0 {
            if n / 6 == 0 {
                4
            } else {
                2
            }
        } else {
            3
        }
    } else {
        if n / 6 == 0 {
            2
        } else {
            1
        }
    }
}

/// Filters one sample.
fn filter_sample(src: &Vec<u8>, w: usize, h: usize, x: usize, y: usize, f: Filter) -> (r: i32)
    requires
        src@.len() == w * h,
        x < w <= 0x1_0000,
        y < h <= 0x1_0000,
        f.wf(),
    ensures
        r == cdef_pixel(
            grid_of(src@, w as int, h as int),
            f.model(),
            w as int,
            h as int,
            x as int,
            y as int,
        ),
        0 <= r <= 255,
{
    let ghost g = grid_of(src@, w as int, h as int);
    let here: i32 = sample_of(src, w, h, x, y);
    let mut t: Gathered = Gathered { sum: 0, max: here, min: here };
    let mut n: usize = 0;
    proof {
        lemma_byte_grid(src@, w as int, h as int);
    }
    while n < 12
        invariant
            n <= 12,
            src@.len() == w * h,
            x < w <= 0x1_0000,
            y < h <= 0x1_0000,
            f.wf(),
            g == grid_of(src@, w as int, h as int),
            byte_grid(g, w as int, h as int),
            here == g[y as int][x as int],
            0 <= here <= 255,
            (t.sum as int, t.max as int, t.min as int) == gathered(
                g,
                f.model(),
                w as int,
                h as int,
                x as int,
                y as int,
                n as int,
            ),
        decreases 12 - n,
    {
        let s: (i32, i32) = tap_offset(f.dir, n);
        let yy: i32 = y as i32 + s.0;
        let xx: i32 = x as i32 + s.1;
        proof {
            lemma_gathered_bound(g, f.model(), w as int, h as int, x as int, y as int, n as int);
        }
        if 0 <= yy && yy < h as i32 && 0 <= xx && xx < w as i32 {
            let p: i32 = sample_of(src, w, h, xx as usize, yy as usize);
            let thr: i32 = if n % 3 == 0 {
                f.pri
            } else {
                f.sec
            };
            let c: i32 = cdef_constrain(p - here, thr, f.damping);
            let wt: i32 = weight_of(f.pri, n);
            proof {
                lemma_term_bound(f.model(), n as int, p - here);
                assert(wt * c == tap_term(f.model(), n as int, p - here));
            }
            t = Gathered {
                sum: t.sum + wt * c,
                max: if p > t.max {
                    p
                } else {
                    t.max
                },
                min: if p < t.min {
                    p
                } else {
                    t.min
                },
            };
        }
        n = n + 1;
    }
    proof {
        law_between_neighbours(g, f.model(), w as int, h as int, x as int, y as int);
        lemma_gathered_bound(g, f.model(), w as int, h as int, x as int, y as int, 12);
        lemma_pow2i_values();
    }
    let borrow: i32 = if t.sum < 0 {
        1
    } else {
        0
    };
    let moved: i32 = here + shr32(8 + t.sum - borrow, 4);
    clip3(moved, t.min, t.max)
}

fn strength_for(pri: i32, var: i64) -> (r: i32)
    requires
        0 <= pri <= 0xFFFF,
        0 <= var <= 0x400_0000_0000,
    ensures
        r == adjusted_strength(pri as int, var as int),
        0 <= r <= 0x1_0000,
        pri == 0 ==> r == 0,
{
    if var == 0 {
        return 0;
    }
    let v: i64 = var / 64;
    let log: i32 = if v == 0 {
        0
    } else if v >= 0x4000_0000 {
        proof {
            lemma_pow2i_values();
            lemma_floor_log2(v as int);
            if floor_log2(v as int) < 12 {
                crate::bits::lemma_pow2i_mono(floor_log2(v as int) + 1, 12);
            }
        }
        12
    } else {
        let l: i32 = floor_log2_of(v as u32) as i32;
        if l <= 12 {
            l
        } else {
            12
        }
    };
    proof {
        assert(0 <= pri * (4 + log) <= 0xFFFF * 16) by (nonlinear_arith)
            requires
                0 <= pri <= 0xFFFF,
                0 <= log <= 12,
        ;
        assert(pri == 0 ==> pri * (4 + log) == 0) by (nonlinear_arith);
    }
    (pri * (4 + log) + 8) / 16
}

/// The parameters of the blocks in block row `by`.
fn row_filters(
    src: &Vec<u8>,
    w: usize,
    h: usize,
    sub_x: bool,
    sub_y: bool,
    pri: i32,
    sec: i32,
    damping: i32,
    by: usize,
    Ghost(m): Ghost<CdefPass>,
) -> (r: Vec<Filter>)
    requires
        src@.len() == w * h,
        w <= 0x1_0000,
        h <= 0x1_0000,
        m == (CdefPass {
            w: w as int,
            h: h as int,
            sub_x,
            sub_y,
            pri: pri as int,
            sec: sec as int,
            damping: damping as int,
        }),
        0 <= pri <= 0xFFFF,
        0 <= sec <= 0xFFFF,
        0 <= damping < 31,
        block_start(cdef_block_side(sub_y), by as int) < h,
    ensures
        row_ready(r@, grid_of(src@, w as int, h as int), m, by as int),
{
    let side_x: usize = if sub_x {
        4
    } else {
        8
    };
    let side_y: usize = if sub_y {
        4
    } else {
        8
    };
    let y0: usize = if sub_y {
        by * 4
    } else {
        by * 8
    };
    let ghost g = grid_of(src@, w as int, h as int);
    let mut r: Vec<Filter> = Vec::new();
    let mut x0: usize = 0;
    while x0 < w
        invariant
            src@.len() == w * h,
            w <= 0x1_0000,
            h <= 0x1_0000,
            g == grid_of(src@, w as int, h as int),
            m == (CdefPass {
                w: w as int,
                h: h as int,
                sub_x,
                sub_y,
                pri: pri as int,
                sec: sec as int,
                damping: damping as int,
            }),
            0 <= pri <= 0xFFFF,
            0 <= sec <= 0xFFFF,
            0 <= damping < 31,
            y0 < h,
            y0 == block_start(cdef_block_side(sub_y), by as int),
            side_x == cdef_block_side(sub_x),
            x0 == block_start(side_x as int, r@.len() as int),
            x0 <= w + 8,
            forall|bx: int|
                0 <= bx < r@.len() ==> #[trigger] r@[bx].wf() && r@[bx].model() == block_filter(
                    g,
                    m,
                    bx,
                    by as int,
                ),
        decreases w + 8 - x0,
    {
        let found: (usize, i64) = cdef_direction(src, w, h, x0, y0);
        let dir: usize = if pri == 0 {
            0
        } else {
            cdef_uv_dir(sub_x, sub_y, found.0)
        };
        let p: i32 = strength_for(pri, found.1);
        r.push(Filter { pri: p, sec, damping, dir });
        x0 = x0 + side_x;
    }
    r
}

/// Filters a plane.
fn cdef_plane(
    plane: &mut [u8],
    w: usize,
    h: usize,
    sub_x: bool,
    sub_y: bool,
    pri: i32,
    sec: i32,
    damping: i32,
)
    requires
        old(plane)@.len() == w * h,
        w <= 0x1_0000,
        h <= 0x1_0000,
        0 <= pri <= 0xFFFF,
        0 <= sec <= 0xFFFF,
        0 <= damping < 31,
    ensures
        final(plane)@.len() == old(plane)@.len(),
        grid_of(final(plane)@, w as int, h as int) == cdef_filtered(
            grid_of(old(plane)@, w as int, h as int),
            (CdefPass {
                w: w as int,
                h: h as int,
                sub_x,
                sub_y,
                pri: pri as int,
                sec: sec as int,
                damping: damping as int,
            }),
        ),
{
    let ghost m = CdefPass {
        w: w as int,
        h: h as int,
        sub_x,
        sub_y,
        pri: pri as int,
        sec: sec as int,
        damping: damping as int,
    };
    let src: Vec<u8> = vstd::slice::slice_to_vec(plane);
    let ghost wi = w as int;
    let ghost hi = h as int;
    let ghost g = grid_of(src@, wi, hi);
    proof {
        reveal(cdef_filtered);
        lemma_byte_grid(src@, wi, hi);
    }
    let mut filters: Vec<Filter> = Vec::new();
    let mut y: usize = 0;
    while y < h
        invariant
            y <= h,
            wi == w,
            hi == h,
            w <= 0x1_0000,
            h <= 0x1_0000,
            plane@.len() == w * h,
            src@.len() == w * h,
            g == grid_of(src@, wi, hi),
            byte_grid(g, wi, hi),
            m == (CdefPass {
                w: w as int,
                h: h as int,
                sub_x,
                sub_y,
                pri: pri as int,
                sec: sec as int,
                damping: damping as int,
            }),
            0 <= pri <= 0xFFFF,
            0 <= sec <= 0xFFFF,
            0 <= damping < 31,
            y > 0 ==> row_ready(filters@, g, m, block_index(cdef_block_side(sub_y), y - 1)),
            forall|a: int|
                0 <= a < h ==> #[trigger] grid_of(plane@, wi, hi)[a] == if a < y {
                    cdef_row(g, m, a)
                } else {
                    g[a]
                },
        decreases h - y,
    {
        let by: usize = if sub_y {
            y / 4
        } else {
            y / 8
        };
        let first: usize = if sub_y {
            by * 4
        } else {
            by * 8
        };
        if y == first {
            filters = row_filters(&src, w, h, sub_x, sub_y, pri, sec, damping, by, Ghost(m));
        }
        assert(by == block_index(cdef_block_side(sub_y), y as int));
        assert(y != first ==> by == block_index(cdef_block_side(sub_y), y - 1));
        let mut line: Vec<i32> = Vec::new();
        let mut x: usize = 0;
        while x < w
            invariant
                x <= w,
                y < h,
                wi == w,
                hi == h,
                w <= 0x1_0000,
                h <= 0x1_0000,
                src@.len() == w * h,
                g == grid_of(src@, wi, hi),
                m.w == w,
                m.h == h,
                m.sub_x == sub_x,
                m.sub_y == sub_y,
                by == block_index(cdef_block_side(sub_y), y as int),
                row_ready(filters@, g, m, by as int),
                line@.len() == x,
                forall|i: int| 0 <= i < x ==> #[trigger] line@[i] == cdef_row(g, m, y as int)[i],
                forall|i: int| 0 <= i < x ==> 0 <= #[trigger] line@[i] <= 255,
            decreases w - x,
        {
            let bx: usize = if sub_x {
                x / 4
            } else {
                x / 8
            };
            proof {
                assert(block_start(cdef_block_side(sub_x), bx as int) < w);
                assert(filters@[bx as int].wf());
            }
            let v: i32 = filter_sample(&src, w, h, x, y, filters[bx]);
            line.push(v);
            x = x + 1;
        }
        assert(line@ =~= cdef_row(g, m, y as int));
        write_row(plane, w, h, y, &line);
        y = y + 1;
    }
    assert(grid_of(plane@, wi, hi) =~= cdef_filtered(g, m));
}

/// Filters a luma plane.
pub fn cdef_plane_luma(
    plane: &mut [u8],
    width: usize,
    height: usize,
    pri_str: i32,
    sec_str: i32,
    damping: i32,
)
    requires
        old(plane)@.len() == width * height,
        width <= 0x1_0000,
        height <= 0x1_0000,
        0 <= pri_str <= 0xFFFF,
        0 <= sec_str <= 0xFFFF,
        0 <= damping < 31,
    ensures
        final(plane)@.len() == old(plane)@.len(),
        grid_of(final(plane)@, width as int, height as int) == cdef_filtered(
            grid_of(old(plane)@, width as int, height as int),
            (CdefPass {
                w: width as int,
                h: height as int,
                sub_x: false,
                sub_y: false,
                pri: pri_str as int,
                sec: sec_str as int,
                damping: damping as int,
            }),
        ),
{
    cdef_plane(plane, width, height, false, false, pri_str, sec_str, damping);
}

/// Filters a chroma plane, whose samples may be halved across and down.
pub fn cdef_plane_chroma(
    plane: &mut [u8],
    width: usize,
    height: usize,
    sub_x: bool,
    sub_y: bool,
    pri_str: i32,
    sec_str: i32,
    damping: i32,
)
    requires
        old(plane)@.len() == width * height,
        width <= 0x1_0000,
        height <= 0x1_0000,
        0 <= pri_str <= 0xFFFF,
        0 <= sec_str <= 0xFFFF,
        0 <= damping < 31,
    ensures
        final(plane)@.len() == old(plane)@.len(),
        grid_of(final(plane)@, width as int, height as int) == cdef_filtered(
            grid_of(old(plane)@, width as int, height as int),
            (CdefPass {
                w: width as int,
                h: height as int,
                sub_x,
                sub_y,
                pri: pri_str as int,
                sec: sec_str as int,
                damping: damping as int,
            }),
        ),
{
    cdef_plane(plane, width, height, sub_x, sub_y, pri_str, sec_str, damping);
}

/// A difference never acts further than the threshold or than itself, and never in the
/// other direction.
pub proof fn law_constrained(diff: int, threshold: int, damping: int)
    requires
        0 <= threshold,
    ensures
        absi(constrained(diff, threshold, damping)) <= threshold,
        absi(constrained(diff, threshold, damping)) <= absi(diff),
        diff >= 0 ==> constrained(diff, threshold, damping) >= 0,
        diff <= 0 ==> constrained(diff, threshold, damping) <= 0,
{
    let shift = at_least_0(damping - floor_log2(threshold));
    crate::bits::lemma_pow2i_mono(0, shift);
    vstd::arithmetic::div_mod::lemma_div_pos_is_pos(absi(diff), pow2i(shift));
}

} // verus!
