//! Which way the enhancement filter moves a sample.
use crate::bits::{floor_log2, lemma_floor_log2, lemma_pow2i_mono, pow2i};
use crate::cdef::{
    adjusted_strength, block_at, block_filter, byte_grid, cdef_block_side, cdef_filtered,
    cdef_pixel, cdef_row, centred, constrained, direction_step, gathered, law_constrained,
    lemma_direction, line_of, remapped, tap_inside, tap_step, tap_term, tap_weight, variance_of,
    BlockFilter, CdefPass,
};
use crate::entropy::at_least_0;
use crate::loop_filter::{block_index, block_start};
use crate::math::absi;
use vstd::prelude::*;

verus! {

// ---------------------------------------------------------------------------
// Differences
// ---------------------------------------------------------------------------

/// A difference acts in full while it and what it loses stay within the threshold. It acts
/// not at all once it is as many times the threshold as the damping allows.
pub proof fn law_small_differences_act(diff: int, threshold: int, damping: int)
    requires
        1 <= threshold,
    ensures
        ({
            let reach = pow2i(at_least_0(damping - floor_log2(threshold)));
            &&& absi(diff) + absi(diff) / reach <= threshold ==> constrained(
                diff,
                threshold,
                damping,
            ) == diff
            &&& absi(diff) >= threshold * reach ==> constrained(diff, threshold, damping) == 0
            &&& constrained(-diff, threshold, damping) == -constrained(diff, threshold, damping)
        }),
{
    let reach = pow2i(at_least_0(damping - floor_log2(threshold)));
    lemma_pow2i_mono(0, at_least_0(damping - floor_log2(threshold)));
    let a = absi(diff);
    if a >= threshold * reach {
        assert(a / reach >= threshold) by (nonlinear_arith)
            requires
                a >= threshold * reach,
                reach >= 1,
        ;
    }
}

/// The farther a difference exceeds what may act, the less of it acts.
pub proof fn law_large_differences_fade(a: int, b: int, threshold: int, damping: int)
    requires
        1 <= threshold,
        0 <= a <= b,
        constrained(a, threshold, damping) < a,
    ensures
        constrained(b, threshold, damping) <= constrained(a, threshold, damping),
{
    let reach = pow2i(at_least_0(damping - floor_log2(threshold)));
    lemma_pow2i_mono(0, at_least_0(damping - floor_log2(threshold)));
    vstd::arithmetic::div_mod::lemma_div_is_ordered(a, b, reach);
}

// ---------------------------------------------------------------------------
// Taps
// ---------------------------------------------------------------------------

/// Two steps along a direction stay on the line of samples that the direction was found
/// by.
pub proof fn law_steps_follow_lines(k: int, i: int, j: int)
    requires
        0 <= k < 8,
    ensures
        line_of(k, i + direction_step(k, 1).0, j + direction_step(k, 1).1) == line_of(k, i, j),
        k % 2 == 0 ==> line_of(k, i + direction_step(k, 0).0, j + direction_step(k, 0).1)
            == line_of(k, i, j),
{
}

/// The direction four further is across: the two steps meet at a right angle.
pub proof fn law_directions_across(k: int, n: int)
    requires
        0 <= k < 8,
        0 <= n < 2,
    ensures
        ({
            let a = direction_step(k, n);
            let b = direction_step((k + 4) % 8, n);
            a.0 * b.0 + a.1 * b.1 == 0
        }),
{
    let a = direction_step(k, n);
    let b = direction_step((k + 4) % 8, n);
    assert(n == 0 || n == 1);
    assert((a.0 == b.1 && a.1 == -b.0) || (a.0 == -b.1 && a.1 == b.0));
    assert(a.0 * b.0 + a.1 * b.1 == 0) by (nonlinear_arith)
        requires
            (a.0 == b.1 && a.1 == -b.0) || (a.0 == -b.1 && a.1 == b.0),
    ;
}

/// Taps come in opposite pairs of one weight. The taps along the direction lie on its
/// line; the others lie on the lines at half a right angle to it.
pub proof fn law_taps_in_pairs(f: BlockFilter, n: int)
    requires
        0 <= f.dir < 8,
        0 <= n < 12,
        (n / 3) % 2 == 0,
    ensures
        tap_step(f.dir, n).0 == -tap_step(f.dir, n + 3).0,
        tap_step(f.dir, n).1 == -tap_step(f.dir, n + 3).1,
        tap_weight(f.pri, n) == tap_weight(f.pri, n + 3),
        n % 3 == 0 ==> tap_step(f.dir, n + 3) == direction_step(f.dir, n / 6),
        n % 3 == 1 ==> tap_step(f.dir, n + 3) == direction_step((f.dir + 6) % 8, n / 6),
        n % 3 == 2 ==> tap_step(f.dir, n + 3) == direction_step((f.dir + 2) % 8, n / 6),
{
}

/// The taps along the direction act by the first strength alone, the others by the second.
pub proof fn law_strengths_of_taps(f: BlockFilter, n: int, diff: int)
    requires
        0 <= n < 12,
    ensures
        n % 3 == 0 && f.pri == 0 ==> tap_term(f, n, diff) == 0,
        n % 3 != 0 && f.sec == 0 ==> tap_term(f, n, diff) == 0,
        n % 3 == 0 ==> tap_term(f, n, diff) == tap_weight(f.pri, n) * constrained(
            diff,
            f.pri,
            f.damping,
        ),
        n % 3 != 0 ==> tap_term(f, n, diff) == tap_weight(f.pri, n) * constrained(
            diff,
            f.sec,
            f.damping,
        ),
{
    assert(tap_weight(f.pri, n) * 0 == 0);
}

/// A plane whose samples are halved both ways or not at all sees the direction as it is.
/// Halved one way, the two axes stay axes.
pub proof fn law_directions_of_planes(d: int)
    requires
        0 <= d < 8,
    ensures
        remapped(false, false, d) == d,
        remapped(true, true, d) == d,
        remapped(true, false, 2) == 2 && remapped(true, false, 6) == 6,
        remapped(false, true, 2) == 2 && remapped(false, true, 6) == 6,
        0 <= remapped(true, false, d) < 8 && 0 <= remapped(false, true, d) < 8,
{
}

/// All the taps along the direction weigh twelve, and so do all the others.
pub proof fn law_weights(pri: int)
    ensures
        tap_weight(pri, 0) + tap_weight(pri, 3) + tap_weight(pri, 6) + tap_weight(pri, 9) == 12,
        tap_weight(pri, 1) + tap_weight(pri, 2) + tap_weight(pri, 4) + tap_weight(pri, 5)
            + tap_weight(pri, 7) + tap_weight(pri, 8) + tap_weight(pri, 10) + tap_weight(pri, 11)
            == 12,
        forall|n: int| #![trigger tap_weight(pri, n)] tap_weight(pri, n) >= 1,
        forall|n: int|
            0 <= n < 6 ==> #[trigger] tap_weight(pri, n + 6) <= tap_weight(pri, n),
{
}

proof fn lemma_tap_near(dir: int, n: int)
    requires
        0 <= dir < 8,
        0 <= n < 12,
    ensures
        -2 <= tap_step(dir, n).0 <= 2,
        -2 <= tap_step(dir, n).1 <= 2,
        tap_step(dir, n) != (0int, 0int),
{
}

// ---------------------------------------------------------------------------
// Samples
// ---------------------------------------------------------------------------

/// The sample at `x`, `y` is at least as large as every other one within two rows and two
/// columns of it.
pub open spec fn tops(g: Seq<Seq<i32>>, w: int, h: int, x: int, y: int) -> bool {
    forall|a: int, b: int|
        0 <= a < w && 0 <= b < h && x - 2 <= a <= x + 2
            && y - 2 <= b <= y + 2 ==> #[trigger] g[b][a]
            <= g[y][x]
}

/// The sample at `x`, `y` is at most as large as every other one within two rows and two
/// columns of it.
pub open spec fn bottoms(g: Seq<Seq<i32>>, w: int, h: int, x: int, y: int) -> bool {
    forall|a: int, b: int|
        0 <= a < w && 0 <= b < h && x - 2 <= a <= x + 2
            && y - 2 <= b <= y + 2 ==> #[trigger] g[b][a]
            >= g[y][x]
}

proof fn lemma_term_sign(f: BlockFilter, n: int, d: int)
    requires
        0 <= f.pri,
        0 <= f.sec,
    ensures
        d >= 0 ==> tap_term(f, n, d) >= 0,
        d <= 0 ==> tap_term(f, n, d) <= 0,
{
    let thr = if n % 3 == 0 {
        f.pri
    } else {
        f.sec
    };
    law_constrained(d, thr, f.damping);
    let t = tap_weight(f.pri, n);
    let c = constrained(d, thr, f.damping);
    assert((c >= 0 ==> t * c >= 0) && (c <= 0 ==> t * c <= 0)) by (nonlinear_arith)
        requires
            t >= 1,
    ;
}

/// What taps gather: a negative sum has met a smaller sample, a positive one a larger.
proof fn lemma_sum_sign(
    g: Seq<Seq<i32>>,
    f: BlockFilter,
    w: int,
    h: int,
    x: int,
    y: int,
    n: int,
)
    requires
        0 <= f.pri,
        0 <= f.sec,
        0 <= f.dir < 8,
        0 <= n <= 12,
    ensures
        gathered(g, f, w, h, x, y, n).2 <= g[y][x] <= gathered(g, f, w, h, x, y, n).1,
        gathered(g, f, w, h, x, y, n).0 < 0 ==> gathered(g, f, w, h, x, y, n).2 < g[y][x],
        gathered(g, f, w, h, x, y, n).0 > 0 ==> gathered(g, f, w, h, x, y, n).1 > g[y][x],
        tops(g, w, h, x, y) ==> gathered(g, f, w, h, x, y, n).0 <= 0,
        bottoms(g, w, h, x, y) ==> gathered(g, f, w, h, x, y, n).0 >= 0,
    decreases n,
{
    if n > 0 {
        lemma_sum_sign(g, f, w, h, x, y, n - 1);
        lemma_tap_near(f.dir, n - 1);
        if tap_inside(f, w, h, x, y, n - 1) {
            let s = tap_step(f.dir, n - 1);
            let p = g[y + s.0][x + s.1];
            lemma_term_sign(f, n - 1, p - g[y][x]);
        }
    }
}

/// A sample moves the way its weighted differences point: not below itself where their sum
/// is positive, not above itself where it is negative. A sum of half a step or more moves
/// it.
pub proof fn law_moves_with_differences(
    g: Seq<Seq<i32>>,
    f: BlockFilter,
    w: int,
    h: int,
    x: int,
    y: int,
)
    requires
        0 <= f.pri,
        0 <= f.sec,
        0 <= f.dir < 8,
    ensures
        ({
            let sum = gathered(g, f, w, h, x, y, 12).0;
            let r = cdef_pixel(g, f, w, h, x, y);
            &&& sum >= 0 ==> r >= g[y][x]
            &&& sum <= 0 ==> r <= g[y][x]
            &&& sum >= 8 ==> r > g[y][x]
            &&& sum <= -8 ==> r < g[y][x]
            &&& -8 < sum < 8 ==> r == g[y][x]
        }),
{
    lemma_sum_sign(g, f, w, h, x, y, 12);
}

/// A sample that no sample near it exceeds does not grow, and one that exceeds none does
/// not shrink: the filter takes peaks down and fills pits.
pub proof fn law_smooths(g: Seq<Seq<i32>>, f: BlockFilter, w: int, h: int, x: int, y: int)
    requires
        0 <= f.pri,
        0 <= f.sec,
        0 <= f.dir < 8,
    ensures
        tops(g, w, h, x, y) ==> cdef_pixel(g, f, w, h, x, y) <= g[y][x],
        bottoms(g, w, h, x, y) ==> cdef_pixel(g, f, w, h, x, y) >= g[y][x],
        tops(g, w, h, x, y) && bottoms(g, w, h, x, y) ==> cdef_pixel(g, f, w, h, x, y) == g[y][x],
{
    lemma_sum_sign(g, f, w, h, x, y, 12);
    law_moves_with_differences(g, f, w, h, x, y);
}

/// All samples within two rows and columns of the one at `x`, `y` are `v`, but for itself.
pub open spec fn alone(g: Seq<Seq<i32>>, x: int, y: int, v: int) -> bool {
    forall|a: int, b: int|
        x - 2 <= a <= x + 2 && y - 2 <= b <= y + 2 && (a != x || b != y) ==> #[trigger] g[b][a] == v
}

/// A sample among equal ones moves toward them by three quarters of what may act of the
/// difference, for each of the two strengths.
pub proof fn law_lone_sample(
    g: Seq<Seq<i32>>,
    f: BlockFilter,
    w: int,
    h: int,
    x: int,
    y: int,
    v: int,
)
    requires
        0 <= f.pri,
        0 <= f.sec,
        0 <= f.dir < 8,
        2 <= x < w - 2,
        2 <= y < h - 2,
        alone(g, x, y, v),
        g[y][x] < v,
    ensures
        ({
            let d = v - g[y][x];
            let acts = constrained(d, f.pri, f.damping) + constrained(d, f.sec, f.damping);
            let r = g[y][x] + (12 * acts + 8) / 16;
            cdef_pixel(g, f, w, h, x, y) == if r < v {
                r
            } else {
                v
            }
        }),
{
    lemma_lone_sum(g, f, w, h, x, y, v);
    let d = v - g[y][x];
    law_constrained(d, f.pri, f.damping);
    law_constrained(d, f.sec, f.damping);
}

proof fn lemma_lone_sum(
    g: Seq<Seq<i32>>,
    f: BlockFilter,
    w: int,
    h: int,
    x: int,
    y: int,
    v: int,
)
    requires
        0 <= f.dir < 8,
        2 <= x < w - 2,
        2 <= y < h - 2,
        alone(g, x, y, v),
        g[y][x] < v,
    ensures
        gathered(g, f, w, h, x, y, 12) == (
            12 * (constrained(v - g[y][x], f.pri, f.damping) + constrained(
                v - g[y][x],
                f.sec,
                f.damping,
            )),
            v,
            g[y][x] as int,
        ),
{
    let d = v - g[y][x];
    let p = constrained(d, f.pri, f.damping);
    let q = constrained(d, f.sec, f.damping);
    assert forall|n: int| 0 <= n < 12 implies #[trigger] tap_inside(f, w, h, x, y, n) && g[y
        + tap_step(f.dir, n).0][x + tap_step(f.dir, n).1] == v by {
        lemma_tap_near(f.dir, n);
        let s = tap_step(f.dir, n);
        assert(g[y + s.0][x + s.1] == v);
    }
    lemma_lone_step(g, f, w, h, x, y, v, 3);
    lemma_lone_step(g, f, w, h, x, y, v, 6);
    lemma_lone_step(g, f, w, h, x, y, v, 9);
    lemma_lone_step(g, f, w, h, x, y, v, 12);
    law_weights(f.pri);
    let t = |n: int| tap_weight(f.pri, n);
    assert(t(0) * p + t(3) * p + t(6) * p + t(9) * p == 12 * p) by (nonlinear_arith)
        requires
            t(0) + t(3) + t(6) + t(9) == 12,
    ;
    assert(t(1) * q + t(2) * q + t(4) * q + t(5) * q + t(7) * q + t(8) * q + t(10) * q + t(11) * q
        == 12 * q) by (nonlinear_arith)
        requires
            t(1) + t(2) + t(4) + t(5) + t(7) + t(8) + t(10) + t(11) == 12,
    ;
}

proof fn lemma_lone_step(
    g: Seq<Seq<i32>>,
    f: BlockFilter,
    w: int,
    h: int,
    x: int,
    y: int,
    v: int,
    n: int,
)
    requires
        n == 3 || n == 6 || n == 9 || n == 12,
        g[y][x] < v,
        forall|k: int|
            0 <= k < 12 ==> #[trigger] tap_inside(f, w, h, x, y, k) && g[y + tap_step(
                f.dir,
                k,
            ).0][x + tap_step(f.dir, k).1] == v,
    ensures
        ({
            let a = gathered(g, f, w, h, x, y, n - 3);
            let b = gathered(g, f, w, h, x, y, n);
            let d = v - g[y][x];
            let p = constrained(d, f.pri, f.damping);
            let q = constrained(d, f.sec, f.damping);
            &&& b.0 == a.0 + tap_weight(f.pri, n - 3) * p + tap_weight(f.pri, n - 2) * q
                + tap_weight(f.pri, n - 1) * q
            &&& b.1 == if a.1 > v {
                a.1
            } else {
                v
            }
            &&& b.2 == if a.2 < v {
                a.2
            } else {
                v
            }
        }),
{
    reveal_with_fuel(gathered, 4);
    assert(tap_inside(f, w, h, x, y, n - 3));
    assert(tap_inside(f, w, h, x, y, n - 2));
    assert(tap_inside(f, w, h, x, y, n - 1));
}

// ---------------------------------------------------------------------------
// Planes
// ---------------------------------------------------------------------------

/// The strength along the direction is none for a block without variance, never more than
/// the plane's, and grows with the variance.
pub proof fn law_strength_of_variance(pri: int, a: int, b: int)
    requires
        0 <= pri,
        0 <= a <= b,
    ensures
        adjusted_strength(pri, 0) == 0,
        0 <= adjusted_strength(pri, a) <= adjusted_strength(pri, b) <= pri,
{
    if b > 0 {
        let i = crate::entropy::min_of(floor_log2(a / 64), 12);
        let j = crate::entropy::min_of(floor_log2(b / 64), 12);
        if a / 64 > 0 {
            lemma_log_grows(a / 64, b / 64);
        }
        if b / 64 > 0 {
            lemma_floor_log2(b / 64);
        }
        let lo = if a / 64 == 0 {
            0
        } else {
            i
        };
        let hi = if b / 64 == 0 {
            0
        } else {
            j
        };
        assert(0 <= pri * (4 + lo) <= pri * (4 + hi) <= pri * 16) by (nonlinear_arith)
            requires
                0 <= pri,
                0 <= lo <= hi <= 12,
        ;
    }
}

proof fn lemma_log_grows(a: int, b: int)
    requires
        1 <= a <= b,
    ensures
        0 <= floor_log2(a) <= floor_log2(b),
    decreases b,
{
    if a >= 2 {
        lemma_log_grows(a / 2, b / 2);
    } else {
        lemma_floor_log2(b);
    }
}

proof fn lemma_block_filter(g: Seq<Seq<i32>>, m: CdefPass, bx: int, by: int)
    requires
        1 <= m.w,
        1 <= m.h,
        byte_grid(g, m.w, m.h),
        0 <= m.pri,
        0 <= bx,
        0 <= by,
    ensures
        0 <= block_filter(g, m, bx, by).pri,
        0 <= block_filter(g, m, bx, by).dir < 8,
        block_filter(g, m, bx, by).sec == m.sec,
{
    let x0 = block_start(cdef_block_side(m.sub_x), bx);
    let y0 = block_start(cdef_block_side(m.sub_y), by);
    let b = block_at(g, m.w, m.h, x0, y0);
    assert(0 <= x0 && 0 <= y0);
    assert(centred(b)) by {
        assert forall|p: int| 0 <= p < 64 implies -128 <= #[trigger] b[p] <= 127 by {
            let r = crate::cdef::held(y0 + p / 8, m.h);
            let c = crate::cdef::held(x0 + p % 8, m.w);
            assert(0 <= g[r][c] <= 255);
        }
    }
    lemma_direction(b);
    law_strength_of_variance(m.pri, variance_of(b), variance_of(b));
}

/// In a filtered plane no sample has grown that no sample within two rows and columns
/// exceeded, none has shrunk that exceeded none, and one among its equals is unchanged.
pub proof fn law_plane_is_smoothed(g: Seq<Seq<i32>>, m: CdefPass, x: int, y: int)
    requires
        byte_grid(g, m.w, m.h),
        0 <= m.pri,
        0 <= m.sec,
        0 <= x < m.w,
        0 <= y < m.h,
    ensures
        tops(g, m.w, m.h, x, y) ==> cdef_filtered(g, m)[y][x] <= g[y][x],
        bottoms(g, m.w, m.h, x, y) ==> cdef_filtered(g, m)[y][x] >= g[y][x],
        0 <= cdef_filtered(g, m)[y][x] <= 255,
{
    reveal(cdef_filtered);
    let bx = block_index(cdef_block_side(m.sub_x), x);
    let by = block_index(cdef_block_side(m.sub_y), y);
    lemma_block_filter(g, m, bx, by);
    let f = block_filter(g, m, bx, by);
    law_smooths(g, f, m.w, m.h, x, y);
    crate::cdef::law_between_neighbours(g, f, m.w, m.h, x, y);
    assert(cdef_filtered(g, m)[y] == cdef_row(g, m, y));
}

} // verus!
