//! What intra prediction promises of the neighbours of a block.
use crate::intra_pred::{
    corner_of, dc_value, directional_model, dx_of, dy_of, edge_base, edge_buffer, edge_entry,
    edge_mix, edge_shift, edges_of, entries, extended, filter_strength, filtered_edge, between,
    filter_pixel, filter_round, group_neighbour, group_sum, intra_model, is_diagonal, neighbours_ok,
    nominal_angle, one_sided, pred_pixel, samples, side_ok, smoothed, sum_of, upsampled_edge,
    weight_of, BordersModel, FilterModel, INTRA_FILTER_TAPS, PredKind, PredModel, D135_PRED,
    D207_PRED, D45_PRED, D67_PRED, DC_PRED, H_PRED, PAETH, SMOOTH, SMOOTH_H, SMOOTH_V, V_PRED,
};
use crate::math::absi;
use vstd::prelude::*;

verus! {

/// The pixel at row `y` and column `x` that a mode predicts from the neighbours of a block.
pub open spec fn predicted(
    mode: u8,
    b: BordersModel,
    w: int,
    h: int,
    filter: bool,
    delta: int,
    y: int,
    x: int,
) -> int {
    pred_pixel(intra_model(mode as int, b, w, h, filter, delta), y, x)
}

/// The neighbours of a block that can be predicted.
pub open spec fn bordered(b: BordersModel, w: int, h: int) -> bool {
    &&& neighbours_ok(b.top, b.left, b.tl, w, h)
    &&& side_ok(w)
    &&& side_ok(h)
}

// ---------------------------------------------------------------------------
// Along an axis
// ---------------------------------------------------------------------------

/// Vertical prediction continues every column of the row above, horizontal prediction every
/// row of the column to the left.
pub proof fn law_axes(b: BordersModel, w: int, h: int, filter: bool, delta: int, y: int, x: int)
    ensures
        predicted(V_PRED, b, w, h, filter, delta, y, x) == b.top[x],
        predicted(H_PRED, b, w, h, filter, delta, y, x) == b.left[y],
{
    reveal(pred_pixel);
}

// ---------------------------------------------------------------------------
// Along a ray
// ---------------------------------------------------------------------------

/// A ray that meets an edge on an entry takes that entry. Between two entries it lies
/// between them, and moves from the first to the second as it gets nearer to that.
pub proof fn law_between_entries(edge: Seq<i32>, base: int, shift: int)
    requires
        samples(edge),
        -8 <= base,
        base + 9 < edge.len(),
        0 <= shift < 32,
    ensures
        edge_mix(edge, base, 0) == edge[8 + base],
        edge_mix(edge, base, 32) == edge[9 + base],
        edge[8 + base] <= edge[9 + base] ==> edge[8 + base] <= edge_mix(edge, base, shift)
            <= edge_mix(edge, base, shift + 1) <= edge[9 + base],
        edge[8 + base] >= edge[9 + base] ==> edge[8 + base] >= edge_mix(edge, base, shift)
            >= edge_mix(edge, base, shift + 1) >= edge[9 + base],
        edge_mix(edge, base, 16) == (edge[8 + base] + edge[9 + base] + 1) / 2,
{
    let a = edge[8 + base] as int;
    let b = edge[9 + base] as int;
    assert(0 <= a <= 255 && 0 <= b <= 255);
    assert(a * 32 + b * 0 == 32 * a);
    assert(a * 0 + b * 32 == 32 * b);
    assert(a * 16 + b * 16 + 16 == 16 * (a + b + 1));
    let p = a * (32 - shift) + b * shift;
    let q = a * (32 - (shift + 1)) + b * (shift + 1);
    assert(q == p + (b - a) && p == 32 * a + (b - a) * shift) by (nonlinear_arith)
        requires
            p == a * (32 - shift) + b * shift,
            q == a * (32 - (shift + 1)) + b * (shift + 1),
    ;
    if a <= b {
        assert(0 <= (b - a) * shift <= (b - a) * 31) by (nonlinear_arith)
            requires
                a <= b,
                0 <= shift <= 31,
        ;
    } else {
        assert((b - a) * 31 <= (b - a) * shift <= 0) by (nonlinear_arith)
            requires
                a > b,
                0 <= shift <= 31,
        ;
    }
}

proof fn lemma_edge_buffer(side: Seq<i32>, m: int, tl: int, n: int)
    requires
        1 <= m <= side.len(),
        m <= n,
        samples(side),
        0 <= tl <= 255,
    ensures
        samples(edge_buffer(side, m, tl, n)),
        edge_buffer(side, m, tl, n).len() == 16 + 2 * n,
        forall|k: int|
            0 <= k < 2 * n ==> #[trigger] edge_buffer(side, m, tl, n)[8 + k] == side[if k < m {
                k
            } else {
                m - 1
            }],
        edge_buffer(side, m, tl, n)[7] == tl,
{
    assert forall|p: int|
        0 <= p < edge_buffer(side, m, tl, n).len() implies 0 <= #[trigger] edge_buffer(
        side,
        m,
        tl,
        n,
    )[p] <= 255 by {
        if 8 <= p < 8 + m {
            assert(0 <= side[p - 8] <= 255);
        } else {
            assert(0 <= side[m - 1] <= 255);
        }
    }
}

/// At 45 degrees without edge filtering a pixel is the sample above, as many columns to its
/// right as it is rows below the edge, and the last one beyond the end.
pub proof fn law_diagonal_up(b: BordersModel, w: int, h: int, y: int, x: int)
    requires
        bordered(b, w, h),
        0 <= y < h,
        0 <= x < w,
    ensures
        predicted(D45_PRED, b, w, h, false, 0, y, x) == b.top[if x + y + 1 < w {
            x + y + 1
        } else {
            w - 1
        }],
{
    reveal(pred_pixel);
    reveal(edges_of);
    assert(dx_of(45) == 64);
    let n = w + h;
    lemma_edge_buffer(b.top, w, b.tl, n);
    let e = edge_buffer(b.top, w, b.tl, n);
    assert(64 * (y + 1) / 64 == y + 1 && (64 * (y + 1)) % 64 == 0);
    let base = y + 1 + x;
    if base < n - 1 {
        law_between_entries(e, base, 0);
        assert(e[8 + base] == b.top[if base < w {
            base
        } else {
            w - 1
        }]);
    } else {
        assert(e[8 + (n - 1)] == b.top[w - 1]);
    }
}

/// At 135 degrees without edge filtering a pixel is the neighbour up and to the left of it:
/// above the diagonal one of the row above, on it the corner, below it one of the column.
pub proof fn law_diagonal_down(b: BordersModel, w: int, h: int, y: int, x: int)
    requires
        bordered(b, w, h),
        0 <= y < h,
        0 <= x < w,
    ensures
        x > y ==> predicted(D135_PRED, b, w, h, false, 0, y, x) == b.top[x - y - 1],
        x == y ==> predicted(D135_PRED, b, w, h, false, 0, y, x) == b.tl,
        x < y ==> predicted(D135_PRED, b, w, h, false, 0, y, x) == b.left[y - x - 1],
{
    reveal(pred_pixel);
    reveal(edges_of);
    assert(dx_of(135) == 64);
    assert(dy_of(135) == 64);
    let n = w + h;
    lemma_edge_buffer(b.top, w, b.tl, n);
    lemma_edge_buffer(b.left, h, b.tl, n);
    let a = edge_buffer(b.top, w, b.tl, n);
    let l = edge_buffer(b.left, h, b.tl, n);
    if x >= y {
        let k = x - y - 1;
        assert(64 * x - (y + 1) * 64 == 64 * k);
        assert((64 * k) / 64 == k && (64 * k) % 64 == 0);
        law_between_entries(a, k, 0);
        if x > y {
            assert(a[8 + k] == b.top[k]);
        }
    } else {
        let k = y - x - 1;
        assert(64 * y - (x + 1) * 64 == 64 * k);
        assert((64 * k) / 64 == k && (64 * k) % 64 == 0);
        law_between_entries(l, k, 0);
        assert(l[8 + k] == b.left[k]);
    }
}

/// Without edge filtering, two pixels on one ray are equal. Below 90 degrees a ray moves to
/// the right by its slope for each row up; beyond 180 degrees it moves down by its slope for
/// each column to the left.
pub proof fn law_same_ray(
    mode: u8,
    b: BordersModel,
    w: int,
    h: int,
    delta: int,
    y: int,
    x: int,
    v: int,
    u: int,
)
    requires
        is_diagonal(mode as int),
        ({
            let a = nominal_angle(mode as int) + 3 * delta;
            ||| a < 90 && dx_of(a) * (y + 1) + 64 * x == dx_of(a) * (v + 1) + 64 * u
            ||| a >= 180 && dy_of(a) * (x + 1) + 64 * y == dy_of(a) * (u + 1) + 64 * v
        }),
    ensures
        predicted(mode, b, w, h, false, delta, y, x) == predicted(mode, b, w, h, false, delta, v,
            u),
{
    reveal(pred_pixel);
    reveal(edges_of);
    let a = nominal_angle(mode as int) + 3 * delta;
    if a < 90 {
        let p = dx_of(a) * (y + 1);
        let q = dx_of(a) * (v + 1);
        assert(p / 64 + x == q / 64 + u && p % 64 == q % 64);
    } else {
        let p = dy_of(a) * (x + 1);
        let q = dy_of(a) * (u + 1);
        assert(p / 64 + y == q / 64 + v && p % 64 == q % 64);
    }
}

// ---------------------------------------------------------------------------
// Exchanging rows and columns
// ---------------------------------------------------------------------------

/// The neighbours of a block with rows and columns exchanged.
pub open spec fn turned(b: BordersModel) -> BordersModel {
    BordersModel {
        top: b.left,
        left: b.top,
        tl: b.tl,
        have_above: b.have_left,
        have_left: b.have_above,
    }
}

/// The mode that predicts a block with rows and columns exchanged.
pub open spec fn turned_mode(mode: u8) -> u8 {
    if mode == V_PRED {
        H_PRED
    } else if mode == H_PRED {
        V_PRED
    } else if mode == SMOOTH_V {
        SMOOTH_H
    } else if mode == SMOOTH_H {
        SMOOTH_V
    } else if mode == D67_PRED {
        D207_PRED
    } else if mode == D207_PRED {
        D67_PRED
    } else {
        mode
    }
}

/// Exchanging rows and columns of the neighbours exchanges those of the prediction: for the
/// mean, the axes, the smooth modes, and the angles that use one side.
pub proof fn law_turned(
    mode: u8,
    b: BordersModel,
    w: int,
    h: int,
    filter: bool,
    delta: int,
    y: int,
    x: int,
)
    requires
        mode == DC_PRED || mode == V_PRED || mode == H_PRED || mode == SMOOTH_V || mode == SMOOTH_H
            || mode == SMOOTH || mode == D67_PRED || mode == D207_PRED,
        -3 <= delta <= 3,
    ensures
        predicted(mode, b, w, h, filter, delta, y, x) == predicted(
            turned_mode(mode),
            turned(b),
            h,
            w,
            filter,
            -delta,
            x,
            y,
        ),
{
    reveal(pred_pixel);
    if mode == DC_PRED {
        reveal(dc_value);
    } else if mode == D67_PRED || mode == D207_PRED {
        reveal(edges_of);
        let a = nominal_angle(mode as int) + 3 * delta;
        let c = nominal_angle(turned_mode(mode) as int) - 3 * delta;
        assert(c == 270 - a);
        assert(absi(a - 90) == absi(c - 180) && absi(a - 180) == absi(c - 90));
    }
}

// ---------------------------------------------------------------------------
// The nearest neighbour
// ---------------------------------------------------------------------------

/// The Paeth mode takes the neighbour above, to the left or at the corner, whichever is
/// nearest to the left one plus the one above less the corner.
pub proof fn law_paeth_is_nearest(
    b: BordersModel,
    w: int,
    h: int,
    filter: bool,
    delta: int,
    y: int,
    x: int,
)
    requires
        bordered(b, w, h),
        0 <= y < h,
        0 <= x < w,
    ensures
        ({
            let r = predicted(PAETH, b, w, h, filter, delta, y, x);
            let t = b.top[x] as int;
            let l = b.left[y] as int;
            let base = l + t - b.tl;
            &&& r == t || r == l || r == b.tl
            &&& absi(base - r) <= absi(base - t)
            &&& absi(base - r) <= absi(base - l)
            &&& absi(base - r) <= absi(base - b.tl)
            &&& absi(base - l) == absi(base - r) ==> r == l
        }),
{
    reveal(pred_pixel);
    assert(0 <= b.top[x] <= 255 && 0 <= b.left[y] <= 255);
}

// ---------------------------------------------------------------------------
// The mean
// ---------------------------------------------------------------------------

/// The mean is the nearest number to the sum of the neighbours that exist, divided by how
/// many they are. Without neighbours it is the middle of the range.
pub proof fn law_mean(top: Seq<i32>, left: Seq<i32>, w: int, h: int, above: bool, beside: bool)
    requires
        1 <= w,
        1 <= h,
        above ==> w <= top.len(),
        beside ==> h <= left.len(),
        samples(top),
        samples(left),
    ensures
        ({
            let n = (if above {
                w
            } else {
                0
            }) + (if beside {
                h
            } else {
                0
            });
            let s = (if above {
                sum_of(top, w)
            } else {
                0
            }) + (if beside {
                sum_of(left, h)
            } else {
                0
            });
            let r = dc_value(top, left, w, h, above, beside);
            &&& n > 0 ==> 2 * n * r - n <= 2 * s <= 2 * n * r + n
            &&& n == 0 ==> r == 128
        }),
{
    reveal(dc_value);
    lemma_sum_range(top, w, above);
    lemma_sum_range(left, h, beside);
    if above && beside {
        lemma_near(sum_of(left, h) + sum_of(top, w), w + h);
    } else if beside {
        lemma_near(sum_of(left, h), h);
    } else if above {
        lemma_near(sum_of(top, w), w);
    }
}

proof fn lemma_sum_range(s: Seq<i32>, n: int, used: bool)
    requires
        0 <= n,
        used ==> n <= s.len(),
        samples(s),
    ensures
        used ==> 0 <= sum_of(s, n) <= 255 * n,
    decreases n,
{
    if n > 0 && used {
        lemma_sum_range(s, n - 1, used);
        assert(0 <= s[n - 1] <= 255);
    }
}

proof fn lemma_near(s: int, n: int)
    requires
        1 <= n,
        0 <= s <= 255 * n,
    ensures
        ({
            let r = (s + n / 2) / n;
            &&& 2 * n * r - n <= 2 * s <= 2 * n * r + n
            &&& 0 <= r <= 255
        }),
{
    let r = (s + n / 2) / n;
    let z = (s + n / 2) % n;
    vstd::arithmetic::div_mod::lemma_fundamental_div_mod(s + n / 2, n);
    assert(s + n / 2 == n * r + z && 0 <= z < n);
    assert(2 * n * r == 2 * (n * r)) by (nonlinear_arith);
    assert(0 <= r <= 255) by (nonlinear_arith)
        requires
            n * r + z == s + n / 2,
            0 <= z < n,
            0 <= s <= 255 * n,
            n / 2 < n,
            0 <= n / 2,
            1 <= n,
    ;
}

// ---------------------------------------------------------------------------
// Smooth
// ---------------------------------------------------------------------------

/// The weight of the near edge starts at nearly all and falls along the side.
pub proof fn law_weights_fall(dim: int, i: int)
    requires
        side_ok(dim),
        0 <= i < dim - 1,
    ensures
        weight_of(dim, 0) == 255,
        0 < weight_of(dim, i + 1) <= weight_of(dim, i) <= 255,
        weight_of(dim, dim - 1) <= 128,
{
    reveal(weight_of);
}

proof fn lemma_blend(wt: int, a: int, b: int)
    requires
        0 <= wt <= 256,
        0 <= a <= 255,
        0 <= b <= 255,
    ensures
        wt * a + (256 - wt) * b == 256 * b + wt * (a - b),
        a >= b ==> 0 <= wt * (a - b) <= 256 * (a - b),
        a <= b ==> 256 * (a - b) <= wt * (a - b) <= 0,
{
    assert(wt * a + (256 - wt) * b == 256 * b + wt * (a - b)) by (nonlinear_arith);
    assert(a >= b ==> 0 <= wt * (a - b) <= 256 * (a - b)) by (nonlinear_arith)
        requires
            0 <= wt <= 256,
    ;
    assert(a <= b ==> 256 * (a - b) <= wt * (a - b) <= 0) by (nonlinear_arith)
        requires
            0 <= wt <= 256,
    ;
}

/// Down a column the vertical smooth mode goes from the sample above to the last one of the
/// column to the left, without turning back. It starts next to the first.
pub proof fn law_smooth_down(
    b: BordersModel,
    w: int,
    h: int,
    filter: bool,
    delta: int,
    y: int,
    x: int,
)
    requires
        bordered(b, w, h),
        0 <= y < h - 1,
        0 <= x < w,
    ensures
        ({
            let near = b.top[x] as int;
            let far = b.left[h - 1] as int;
            let here = predicted(SMOOTH_V, b, w, h, filter, delta, y, x);
            let next = predicted(SMOOTH_V, b, w, h, filter, delta, y + 1, x);
            let first = predicted(SMOOTH_V, b, w, h, filter, delta, 0, x);
            &&& near >= far ==> far <= next <= here <= near
            &&& near <= far ==> near <= here <= next <= far
            &&& near - 1 <= first <= near + 1
        }),
{
    reveal(pred_pixel);
    law_weights_fall(h, y);
    let near = b.top[x] as int;
    let far = b.left[h - 1] as int;
    assert(0 <= near <= 255 && 0 <= far <= 255);
    let p = weight_of(h, y);
    let q = weight_of(h, y + 1);
    lemma_blend(p, near, far);
    lemma_blend(q, near, far);
    lemma_blend(255, near, far);
    assert((near >= far ==> q * (near - far) <= p * (near - far)) && (near <= far ==> p * (near
        - far) <= q * (near - far))) by (nonlinear_arith)
        requires
            q <= p,
    ;
}

/// The smooth mode lies between the least and the largest of the four samples that a pixel
/// is formed from: above, to the left, the last above and the last to the left.
pub proof fn law_smooth_between(
    b: BordersModel,
    w: int,
    h: int,
    filter: bool,
    delta: int,
    y: int,
    x: int,
    lo: int,
    hi: int,
)
    requires
        bordered(b, w, h),
        0 <= y < h,
        0 <= x < w,
        lo <= b.top[x] <= hi,
        lo <= b.left[y] <= hi,
        lo <= b.top[w - 1] <= hi,
        lo <= b.left[h - 1] <= hi,
    ensures
        lo <= predicted(SMOOTH, b, w, h, filter, delta, y, x) <= hi,
{
    reveal(pred_pixel);
    crate::intra_pred::lemma_weight(h, y);
    crate::intra_pred::lemma_weight(w, x);
    let p = weight_of(h, y);
    let q = weight_of(w, x);
    lemma_span(p, b.top[x] as int, b.left[h - 1] as int, lo, hi);
    lemma_span(q, b.left[y] as int, b.top[w - 1] as int, lo, hi);
    assert(0 <= b.top[x] <= 255 && 0 <= b.left[y] <= 255 && 0 <= b.top[w - 1] <= 255 && 0
        <= b.left[h - 1] <= 255);
    lemma_span(p, b.top[x] as int, b.left[h - 1] as int, 0, 255);
    lemma_span(q, b.left[y] as int, b.top[w - 1] as int, 0, 255);
}

proof fn lemma_span(wt: int, a: int, b: int, lo: int, hi: int)
    requires
        0 <= wt <= 256,
        lo <= a <= hi,
        lo <= b <= hi,
    ensures
        256 * lo <= wt * a + (256 - wt) * b <= 256 * hi,
{
    assert(256 * lo <= wt * a + (256 - wt) * b <= 256 * hi) by (nonlinear_arith)
        requires
            0 <= wt <= 256,
            lo <= a <= hi,
            lo <= b <= hi,
    ;
}

// ---------------------------------------------------------------------------
// Equal neighbours
// ---------------------------------------------------------------------------

/// The first `n` entries are `c`.
pub open spec fn all_are(s: Seq<i32>, n: int, c: int) -> bool {
    forall|i: int| 0 <= i < n ==> #[trigger] s[i] == c
}

proof fn lemma_flat_filtered(buf: Seq<i32>, n: int, strength: int, c: int)
    requires
        all_are(buf, buf.len() as int, c),
        0 <= c <= 255,
        1 <= n,
        7 + n <= buf.len(),
        0 <= strength <= 3,
    ensures
        all_are(filtered_edge(buf, n, strength), buf.len() as int, c),
        filtered_edge(buf, n, strength).len() == buf.len(),
{
    reveal(filtered_edge);
    if strength != 0 {
        assert forall|i: int| 1 <= i < n implies #[trigger] smoothed(buf, n, strength, i) == c by {
            assert(edge_entry(buf, n, i - 2) == c);
            assert(edge_entry(buf, n, i - 1) == c);
            assert(edge_entry(buf, n, i) == c);
            assert(edge_entry(buf, n, i + 1) == c);
            assert(edge_entry(buf, n, i + 2) == c);
        }
    }
}

proof fn lemma_flat_upsampled(buf: Seq<i32>, n: int, c: int)
    requires
        all_are(buf, buf.len() as int, c),
        0 <= c <= 255,
        1 <= n,
        8 + 2 * n <= buf.len(),
    ensures
        all_are(upsampled_edge(buf, n, c), buf.len() as int, c),
        upsampled_edge(buf, n, c).len() == buf.len(),
{
    reveal(upsampled_edge);
    assert forall|i: int| 0 <= i <= n implies #[trigger] between(buf, n, c, i) == c by {
        assert(extended(buf, n, c, i) == c);
        assert(extended(buf, n, c, i + 1) == c);
        assert(extended(buf, n, c, i + 2) == c);
        assert(extended(buf, n, c, i + 3) == c);
    }
}

proof fn lemma_flat_edges(
    top: Seq<i32>,
    left: Seq<i32>,
    w: int,
    h: int,
    angle: int,
    filter: bool,
    c: int,
)
    requires
        1 <= w <= 64,
        1 <= h <= 64,
        w <= top.len(),
        h <= left.len(),
        all_are(top, w, c),
        all_are(left, h, c),
        0 <= c <= 255,
    ensures
        ({
            let e = edges_of(top, left, c, w, h, angle, filter);
            &&& e.above.len() == 16 + 2 * (w + h)
            &&& e.left.len() == 16 + 2 * (w + h)
            &&& all_are(e.above, e.above.len() as int, c)
            &&& all_are(e.left, e.left.len() as int, c)
        }),
{
    reveal(edges_of);
    let n = w + h;
    let a0 = edge_buffer(top, w, c, n);
    let l0 = edge_buffer(left, h, c, n);
    assert(all_are(a0, a0.len() as int, c));
    assert(all_are(l0, l0.len() as int, c));
    if filter {
        assert(corner_of(a0, l0) == c) by {
            assert(l0[8] == c && a0[7] == c && a0[8] == c);
        }
        let a1 = a0.update(7, c as i32);
        let l1 = l0.update(7, c as i32);
        assert(a1 =~= a0);
        assert(l1 =~= l0);
        let na = if angle < 90 {
            n
        } else {
            w
        };
        let nl = if angle >= 180 {
            n
        } else {
            h
        };
        lemma_flat_filtered(a0, na + 1, filter_strength(n, absi(angle - 90), false), c);
        lemma_flat_filtered(l0, nl + 1, filter_strength(n, absi(angle - 180), false), c);
        let a2 = filtered_edge(a0, na + 1, filter_strength(n, absi(angle - 90), false));
        let l2 = filtered_edge(l0, nl + 1, filter_strength(n, absi(angle - 180), false));
        lemma_flat_upsampled(a2, na, c);
        lemma_flat_upsampled(a0, na, c);
        lemma_flat_upsampled(l2, nl, c);
        lemma_flat_upsampled(l0, nl, c);
    }
}

proof fn lemma_flat_sum(s: Seq<i32>, n: int, c: int)
    requires
        0 <= n,
        all_are(s, n, c),
    ensures
        sum_of(s, n) == n * c,
    decreases n,
{
    if n > 0 {
        lemma_flat_sum(s, n - 1, c);
        assert((n - 1) * c + c == n * c) by (nonlinear_arith);
    }
}

proof fn lemma_flat_mean(n: int, c: int)
    requires
        1 <= n,
    ensures
        (n * c + n / 2) / n == c,
{
    assert(n * c + n / 2 == c * n + n / 2) by (nonlinear_arith);
    vstd::arithmetic::div_mod::lemma_fundamental_div_mod_converse(n * c + n / 2, n, c, n / 2);
}

proof fn lemma_flat_mix(edge: Seq<i32>, c: int, base: int, shift: int)
    requires
        all_are(edge, edge.len() as int, c),
        0 <= c <= 255,
        -8 <= base,
        9 + base < edge.len(),
    ensures
        edge_mix(edge, base, shift) == c,
{
    assert(edge[8 + base] == c && edge[9 + base] == c);
    assert(c * (32 - shift) + c * shift == 32 * c) by (nonlinear_arith);
}

/// Where all neighbours are equal, every mode predicts what they are, at every angle and
/// whether or not edges are filtered.
pub proof fn law_equal_neighbours(
    mode: u8,
    b: BordersModel,
    w: int,
    h: int,
    filter: bool,
    delta: int,
    y: int,
    x: int,
    c: int,
)
    requires
        bordered(b, w, h),
        b.have_above || b.have_left,
        all_are(b.top, w, c),
        all_are(b.left, h, c),
        b.tl == c,
        -3 <= delta <= 3,
        0 <= y < h,
        0 <= x < w,
    ensures
        predicted(mode, b, w, h, filter, delta, y, x) == c,
{
    reveal(pred_pixel);
    assert(b.top[x] == c && b.left[y] == c && b.top[w - 1] == c && b.left[h - 1] == c);
    if mode == SMOOTH_V || mode == SMOOTH || mode == SMOOTH_H {
        let p = weight_of(h, y);
        let q = weight_of(w, x);
        assert(p * c + (256 - p) * c == 256 * c && q * c + (256 - q) * c == 256 * c)
            by (nonlinear_arith);
    } else if is_diagonal(mode as int) {
        let angle = nominal_angle(mode as int) + 3 * delta;
        lemma_flat_edges(b.top, b.left, w, h, angle, filter, c);
        let m = directional_model(mode as int, b.top, b.left, b.tl, w, h, filter, delta);
        crate::intra_pred::lemma_slopes(mode as int, delta);
        lemma_flat_ray(m, y, x, c);
    } else if mode != V_PRED && mode != H_PRED && mode != PAETH {
        reveal(dc_value);
        lemma_flat_sum(b.top, w, c);
        lemma_flat_sum(b.left, h, c);
        lemma_flat_mean(w, c);
        lemma_flat_mean(h, c);
        lemma_flat_mean(w + h, c);
        assert(h * c + w * c == (w + h) * c) by (nonlinear_arith);
    }
}

proof fn lemma_flat_ray(m: PredModel, y: int, x: int, c: int)
    requires
        m.kind == PredKind::Zone1 || m.kind == PredKind::Zone2 || m.kind == PredKind::Zone3,
        1 <= m.w <= 64,
        1 <= m.h <= 64,
        m.top.len() == 16 + 2 * (m.w + m.h),
        m.left.len() == 16 + 2 * (m.w + m.h),
        all_are(m.top, m.top.len() as int, c),
        all_are(m.left, m.left.len() as int, c),
        0 <= c <= 255,
        1 <= m.dx <= 1023,
        1 <= m.dy <= 1023,
        m.kind == PredKind::Zone2 ==> m.dx * m.dy <= 4096,
        0 <= y < m.h,
        0 <= x < m.w,
    ensures
        pred_pixel(m, y, x) == c,
{
    reveal(pred_pixel);
    match m.kind {
        PredKind::Zone1 => {
            lemma_flat_side(m.top, m.up_a, m.dx, y, x, m.w + m.h, c);
        },
        PredKind::Zone3 => {
            lemma_flat_side(m.left, m.up_l, m.dy, x, y, m.w + m.h, c);
        },
        _ => {
            let px = 64 * x - (y + 1) * m.dx;
            if px < -64 {
                crate::intra_pred::lemma_zone2(m.dx, m.dy, x, y);
            }
            assert(px <= 64 * x) by (nonlinear_arith)
                requires
                    px == 64 * x - (y + 1) * m.dx,
                    0 <= y,
                    1 <= m.dx,
            ;
            let py = 64 * y - (x + 1) * m.dy;
            assert(py <= 64 * y) by (nonlinear_arith)
                requires
                    py == 64 * y - (x + 1) * m.dy,
                    0 <= x,
                    1 <= m.dy,
            ;
            if px >= -64 {
                lemma_flat_mix(m.top, c, edge_base(m.up_a, px), edge_shift(m.up_a, px));
            } else {
                lemma_flat_mix(m.left, c, edge_base(m.up_l, py), edge_shift(m.up_l, py));
            }
        },
    }
}

proof fn lemma_flat_side(
    edge: Seq<i32>,
    up: bool,
    slope: int,
    major: int,
    minor: int,
    n: int,
    c: int,
)
    requires
        2 <= n,
        edge.len() == 16 + 2 * n,
        all_are(edge, edge.len() as int, c),
        0 <= c <= 255,
        1 <= slope,
        0 <= major,
        0 <= minor,
    ensures
        one_sided(edge, up, slope, major, minor, n) == c,
{
    let pos = slope * (major + 1);
    assert(0 <= pos) by (nonlinear_arith)
        requires
            pos == slope * (major + 1),
            1 <= slope,
            0 <= major,
    ;
    let base = edge_base(up, pos) + entries(up, minor);
    let max = entries(up, n - 1);
    if base < max {
        lemma_flat_mix(edge, c, base, edge_shift(up, pos));
    } else {
        assert(edge[8 + max] == c);
    }
}

// ---------------------------------------------------------------------------
// Edges
// ---------------------------------------------------------------------------

/// The steeper a ray, the less it moves across for a row.
pub proof fn law_steeper_rays(a: int, b: int)
    requires
        0 < a < b < 90,
        dx_of(a) != 0,
        dx_of(b) != 0,
    ensures
        dx_of(b) < dx_of(a),
        dx_of(180 - a) == dx_of(a),
        dy_of(90 + a) == dx_of(a),
        dy_of(270 - a) == dx_of(a),
{
}

/// The farther from the axis and the larger the block, the more an edge is smoothed; on the
/// axis it is not smoothed at all.
pub proof fn law_strength_grows(wh: int, wide: int, d: int, e: int, smooth: bool)
    requires
        0 <= d <= e,
        wh <= wide,
    ensures
        0 <= filter_strength(wh, d, smooth) <= filter_strength(wh, e, smooth) <= 3,
        filter_strength(wh, d, smooth) <= filter_strength(wide, d, smooth),
        filter_strength(wh, 0, smooth) == 0,
        filter_strength(wh, d, false) <= filter_strength(wh, d, true) || d >= 4,
{
}

/// Smoothing changes nothing where the entries around one rise or fall evenly, and the
/// corner never.
pub proof fn law_even_edge_stays(buf: Seq<i32>, n: int, strength: int, i: int, step: int)
    requires
        0 <= strength <= 3,
        samples(buf),
        7 + n <= buf.len(),
        2 <= i < n - 2,
        buf[7 + i - 2] == buf[7 + i] - 2 * step,
        buf[7 + i - 1] == buf[7 + i] - step,
        buf[7 + i + 1] == buf[7 + i] + step,
        buf[7 + i + 2] == buf[7 + i] + 2 * step,
    ensures
        filtered_edge(buf, n, strength)[7 + i] == buf[7 + i],
        filtered_edge(buf, n, strength)[7] == buf[7],
{
    reveal(filtered_edge);
    assert(0 <= buf[7 + i] <= 255);
}

/// Upsampling keeps every entry and puts one between each two. Where the entries around
/// rise or fall evenly, that is the one half way.
pub proof fn law_upsampled(buf: Seq<i32>, n: int, corner: int, k: int, step: int)
    requires
        samples(buf),
        8 + 2 * n <= buf.len(),
        0 <= k < n,
    ensures
        upsampled_edge(buf, n, corner)[8 + 2 * k] == buf[8 + k],
        2 <= k < n - 1 && buf[8 + k - 2] == buf[8 + k] - 2 * step && buf[8 + k - 1] == buf[8 + k]
            - step && buf[8 + k + 1] == buf[8 + k] + step ==> upsampled_edge(buf, n, corner)[7 + 2
            * k] == (buf[8 + k - 1] + buf[8 + k] + 1) / 2,
{
    reveal(upsampled_edge);
    assert((8 + 2 * k) % 2 == 0 && (7 + 2 * k) % 2 == 1);
    assert(8 + (8 + 2 * k - 8) / 2 == 8 + k);
    assert((7 + 2 * k - 7) / 2 == k);
    if 2 <= k < n - 1 {
        assert(0 <= buf[8 + k] <= 255 && 0 <= buf[8 + k - 1] <= 255);
        assert(extended(buf, n, corner, k) == buf[8 + k - 2]);
        assert(extended(buf, n, corner, k + 1) == buf[8 + k - 1]);
        assert(extended(buf, n, corner, k + 2) == buf[8 + k]);
        assert(extended(buf, n, corner, k + 3) == buf[8 + k + 1]);
    }
}

// ---------------------------------------------------------------------------
// Recursive filters
// ---------------------------------------------------------------------------

proof fn lemma_tap_rows(mode: int, k: int)
    requires
        0 <= mode < 5,
        0 <= k < 8,
    ensures
        ({
            let t = INTRA_FILTER_TAPS[mode][k];
            &&& t[0] + t[1] + t[2] + t[3] + t[4] + t[5] + t[6] == 16
            &&& t[0] <= 0
            &&& t[1] >= 0 && t[2] >= 0 && t[3] >= 0 && t[4] >= 0 && t[5] >= 0 && t[6] >= 0
            &&& t[1 + k % 4] >= 4
            &&& k % 4 < 1 ==> t[2] == 0
            &&& k % 4 < 2 ==> t[3] == 0
            &&& k % 4 < 3 ==> t[4] == 0
            &&& k < 4 ==> t[6] == 0 && t[5] >= 2
            &&& k >= 4 ==> t[6] >= 2
        }),
{
    assert(mode == 0 || mode == 1 || mode == 2 || mode == 3 || mode == 4);
    assert(k == 0 || k == 1 || k == 2 || k == 3 || k == 4 || k == 5 || k == 6 || k == 7);
}

proof fn lemma_group_equal(
    m: FilterModel,
    w: int,
    h: int,
    r: int,
    c: int,
    v: int,
    y: int,
    x: int,
)
    requires
        0 <= m.mode < 5,
        0 <= v <= 255,
        m.tl == v,
        w % 4 == 0,
        h % 2 == 0,
        all_are(m.top, w, v),
        all_are(m.left, h, v),
        y < h,
        x < w,
        0 <= r,
        0 <= c,
        0 <= y,
        0 <= x,
        y / 2 == r,
        x / 4 == c,
    ensures
        filter_pixel(m, y, x) == v,
    decreases r, c,
{
    let k = 4 * (y % 2) + x % 4;
    lemma_tap_rows(m.mode, k);
    assert forall|i: int| 0 <= i < 7 implies #[trigger] group_neighbour(m, r, c, i) == v by {
        if i < 5 {
            if r > 0 && !(c == 0 && i <= 0) {
                lemma_group_equal(
                    m,
                    w,
                    h,
                    r - 1,
                    (4 * c + i - 1) / 4,
                    v,
                    2 * r - 1,
                    4 * c + i - 1,
                );
            }
        } else if c > 0 {
            lemma_group_equal(m, w, h, r, c - 1, v, 2 * r + i - 5, 4 * c - 1);
        }
    }
    let t = INTRA_FILTER_TAPS[m.mode][k];
    let n = |i: int| group_neighbour(m, r, c, i);
    assert(n(0) == v && n(1) == v && n(2) == v && n(3) == v && n(4) == v && n(5) == v && n(6) == v);
    assert(t[0] * v + t[1] * v + t[2] * v + t[3] * v + t[4] * v + t[5] * v + t[6] * v == 16 * v)
        by (nonlinear_arith)
        requires
            t[0] + t[1] + t[2] + t[3] + t[4] + t[5] + t[6] == 16,
    ;
    assert(group_sum(m, r, c, k) == 16 * v);
}

/// Recursive filtering of equal neighbours gives what they are, in every mode.
pub proof fn law_filter_equal_neighbours(
    m: FilterModel,
    w: int,
    h: int,
    v: int,
    y: int,
    x: int,
)
    requires
        0 <= m.mode < 5,
        0 <= v <= 255,
        m.tl == v,
        w % 4 == 0,
        h % 2 == 0,
        all_are(m.top, w, v),
        all_are(m.left, h, v),
        0 <= y < h,
        0 <= x < w,
    ensures
        filter_pixel(m, y, x) == v,
{
    lemma_group_equal(m, w, h, y / 2, x / 4, v, y, x);
}

/// In the first group of four by two, a pixel does not fall where a neighbour above it or
/// to its left rises, nor where the corner falls.
pub proof fn law_filter_follows_neighbours(a: FilterModel, b: FilterModel, y: int, x: int)
    requires
        0 <= a.mode < 5,
        a.mode == b.mode,
        forall|i: int| 0 <= i < 4 ==> #[trigger] a.top[i] <= b.top[i],
        forall|i: int| 0 <= i < 2 ==> #[trigger] a.left[i] <= b.left[i],
        a.tl >= b.tl,
        0 <= y < 2,
        0 <= x < 4,
    ensures
        filter_pixel(a, y, x) <= filter_pixel(b, y, x),
{
    let k = 4 * y + x;
    lemma_first_group(a, y, x);
    lemma_first_group(b, y, x);
    lemma_tap_rows(a.mode, k);
    let t = INTRA_FILTER_TAPS[a.mode][k];
    assert(a.top[0] <= b.top[0] && a.top[1] <= b.top[1] && a.top[2] <= b.top[2] && a.top[3]
        <= b.top[3] && a.left[0] <= b.left[0] && a.left[1] <= b.left[1]);
    lemma_scaled_order(t[1] as int, a.top[0] as int, b.top[0] as int);
    lemma_scaled_order(t[2] as int, a.top[1] as int, b.top[1] as int);
    lemma_scaled_order(t[3] as int, a.top[2] as int, b.top[2] as int);
    lemma_scaled_order(t[4] as int, a.top[3] as int, b.top[3] as int);
    lemma_scaled_order(t[5] as int, a.left[0] as int, b.left[0] as int);
    lemma_scaled_order(t[6] as int, a.left[1] as int, b.left[1] as int);
    assert(t[0] * a.tl <= t[0] * b.tl) by (nonlinear_arith)
        requires
            t[0] <= 0,
            a.tl >= b.tl,
    ;
}

proof fn lemma_scaled_order(t: int, a: int, b: int)
    requires
        0 <= t,
        a <= b,
    ensures
        t * a <= t * b,
{
    assert(t * a <= t * b) by (nonlinear_arith)
        requires
            0 <= t,
            a <= b,
    ;
}

proof fn lemma_first_group(m: FilterModel, y: int, x: int)
    requires
        0 <= y < 2,
        0 <= x < 4,
    ensures
        ({
            let t = INTRA_FILTER_TAPS[m.mode][4 * y + x];
            filter_pixel(m, y, x) == filter_round(
                t[0] * m.tl + t[1] * m.top[0] + t[2] * m.top[1] + t[3] * m.top[2] + t[4] * m.top[3]
                    + t[5] * m.left[0] + t[6] * m.left[1],
            )
        }),
{
    assert(y / 2 == 0 && x / 4 == 0 && y % 2 == y && x % 4 == x);
    assert(group_neighbour(m, 0, 0, 0) == m.tl);
    assert(group_neighbour(m, 0, 0, 1) == m.top[0]);
    assert(group_neighbour(m, 0, 0, 2) == m.top[1]);
    assert(group_neighbour(m, 0, 0, 3) == m.top[2]);
    assert(group_neighbour(m, 0, 0, 4) == m.top[3]);
    assert(group_neighbour(m, 0, 0, 5) == m.left[0]);
    assert(group_neighbour(m, 0, 0, 6) == m.left[1]);
}

/// In the first group, a pixel follows the sample above its column and the one beside its
/// row: it grows where the first grows by four or the second by eight. It does not depend
/// on samples above columns to its right, nor on samples beside rows below it.
pub proof fn law_filter_reads_near(a: FilterModel, b: FilterModel, y: int, x: int)
    requires
        0 <= a.mode < 5,
        a.mode == b.mode,
        a.tl == b.tl,
        0 <= y < 2,
        0 <= x < 4,
        forall|i: int| 0 <= i < x ==> #[trigger] a.top[i] == b.top[i],
        forall|i: int| 0 <= i < y ==> #[trigger] a.left[i] == b.left[i],
    ensures
        a.top[x] == b.top[x] && a.left[y] == b.left[y] ==> filter_pixel(a, y, x) == filter_pixel(
            b,
            y,
            x,
        ),
        a.top[x] + 4 <= b.top[x] && a.left[y] == b.left[y] && 0 < filter_pixel(a, y, x) < 255
            ==> filter_pixel(a, y, x) < filter_pixel(b, y, x),
        a.top[x] == b.top[x] && a.left[y] + 8 <= b.left[y] && 0 < filter_pixel(a, y, x) < 255
            ==> filter_pixel(a, y, x) < filter_pixel(b, y, x),
{
    let k = 4 * y + x;
    lemma_first_group(a, y, x);
    lemma_first_group(b, y, x);
    lemma_tap_rows(a.mode, k);
    let t = INTRA_FILTER_TAPS[a.mode][k];
    assert(k % 4 == x);
    let d = b.top[x] - a.top[x];
    let e = b.left[y] - a.left[y];
    let p = t[1 + x] as int;
    let q = t[5 + y] as int;
    assert(x > 0 ==> a.top[0] == b.top[0]);
    assert(x > 1 ==> a.top[1] == b.top[1]);
    assert(x > 2 ==> a.top[2] == b.top[2]);
    assert(y > 0 ==> a.left[0] == b.left[0]);
    assert(p * b.top[x] == p * a.top[x] + p * d) by (nonlinear_arith)
        requires
            d == b.top[x] - a.top[x],
    ;
    assert(q * b.left[y] == q * a.left[y] + q * e) by (nonlinear_arith)
        requires
            e == b.left[y] - a.left[y],
    ;
    assert(d >= 4 ==> p * d >= 16) by (nonlinear_arith)
        requires
            p >= 4,
    ;
    assert(e >= 8 ==> q * e >= 16) by (nonlinear_arith)
        requires
            q >= 2,
    ;
    let sa = t[0] * a.tl + t[1] * a.top[0] + t[2] * a.top[1] + t[3] * a.top[2] + t[4] * a.top[3]
        + t[5] * a.left[0] + t[6] * a.left[1];
    let sb = t[0] * b.tl + t[1] * b.top[0] + t[2] * b.top[1] + t[3] * b.top[2] + t[4] * b.top[3]
        + t[5] * b.left[0] + t[6] * b.left[1];
    assert forall|z: int| #[trigger] (0 * z) == 0 by {}
    assert(sb == sa + p * d + q * e) by {
        if x == 0 {
        } else if x == 1 {
        } else if x == 2 {
        } else {
        }
    }
}

/// Every group is filtered as the first group of a block is whose neighbours are the pixels
/// around that group.
pub proof fn law_filter_recurses(m: FilterModel, n: FilterModel, r: int, c: int, y: int, x: int)
    requires
        1 <= r,
        1 <= c,
        n.mode == m.mode,
        n.tl == filter_pixel(m, 2 * r - 1, 4 * c - 1),
        forall|i: int| 0 <= i < 4 ==> #[trigger] n.top[i] == filter_pixel(m, 2 * r - 1, 4 * c + i),
        forall|i: int| 0 <= i < 2 ==> #[trigger] n.left[i] == filter_pixel(m, 2 * r + i, 4 * c - 1),
        0 <= y < 2,
        0 <= x < 4,
    ensures
        filter_pixel(m, 2 * r + y, 4 * c + x) == filter_pixel(n, y, x),
{
    lemma_first_group(n, y, x);
    let k = 4 * y + x;
    assert((2 * r + y) / 2 == r && (2 * r + y) % 2 == y && (4 * c + x) / 4 == c && (4 * c + x) % 4
        == x);
    assert(n.top[0] == filter_pixel(m, 2 * r - 1, 4 * c + 0));
    assert(n.top[1] == filter_pixel(m, 2 * r - 1, 4 * c + 1));
    assert(n.top[2] == filter_pixel(m, 2 * r - 1, 4 * c + 2));
    assert(n.top[3] == filter_pixel(m, 2 * r - 1, 4 * c + 3));
    assert(n.left[0] == filter_pixel(m, 2 * r + 0, 4 * c - 1));
    assert(n.left[1] == filter_pixel(m, 2 * r + 1, 4 * c - 1));
    assert(group_neighbour(m, r, c, 0) == n.tl);
    assert(group_neighbour(m, r, c, 1) == n.top[0]);
    assert(group_neighbour(m, r, c, 2) == n.top[1]);
    assert(group_neighbour(m, r, c, 3) == n.top[2]);
    assert(group_neighbour(m, r, c, 4) == n.top[3]);
    assert(group_neighbour(m, r, c, 5) == n.left[0]);
    assert(group_neighbour(m, r, c, 6) == n.left[1]);
    assert(filter_pixel(m, 2 * r + y, 4 * c + x) == filter_round(group_sum(m, r, c, k)));
}

} // verus!
