//! What deblocking does to a step between two blocks.
use crate::cdef::cdef_filtered;
use crate::bits::{lemma_pow2i_values, pow2i};
use crate::loop_filter::{
    cell_heights, cell_widths, columns_deblocked, deblock_model, deblocked, edge_between,
    edge_filtered, enhancement, flat_near, luma_filtered, high_variance, level_of, limit_of,
    mask_passes, pixels, round_half_away, rows_deblocked, tap, wide, wide_core, wide_log2,
    wide_reach, wide_sum, wide_weight, law_wide_weights, DeblockModel, EdgeModel, MetaModel,
};
use crate::math::{absi, clampi};
use crate::planes::column;
use vstd::prelude::*;

verus! {

// ---------------------------------------------------------------------------
// Whether an edge is filtered
// ---------------------------------------------------------------------------

/// The edge has two samples of the line on each side.
pub open spec fn within(line: Seq<i32>, e: EdgeModel) -> bool {
    2 <= e.edge && e.edge + 2 <= line.len()
}

/// A large step is taken for part of the picture and left as it is: one of more than half
/// the edge limit at the edge, or of more than the step limit next to it.
pub proof fn law_large_steps_stay(line: Seq<i32>, e: EdgeModel)
    requires
        within(line, e),
        2 * absi(line[e.edge] - line[e.edge - 1]) > e.blimit || absi(
            line[e.edge - 2] - line[e.edge - 1],
        ) > e.limit || absi(line[e.edge + 1] - line[e.edge]) > e.limit,
    ensures
        edge_filtered(line, e) == line,
{
    reveal(edge_filtered);
}

/// Where higher limits leave a line as it is, so do lower ones.
pub proof fn law_lower_limits_filter_less(line: Seq<i32>, e: EdgeModel, f: EdgeModel)
    requires
        f.edge == e.edge,
        f.size == e.size,
        f.luma == e.luma,
        f.limit <= e.limit,
        f.blimit <= e.blimit,
        !mask_passes(line, e),
    ensures
        edge_filtered(line, f) == line,
{
    reveal(edge_filtered);
}

/// Without sharpness the limits grow with the level.
pub proof fn law_limits_grow(a: int, b: int)
    requires
        0 <= a <= b,
    ensures
        1 <= limit_of(a, 0) <= limit_of(b, 0),
        a > 0 ==> limit_of(a, 0) == a,
{
}

/// The smaller of two transforms decides how far the edge between them is filtered: no
/// farther than between two of either, and the same from both sides.
pub proof fn law_smaller_transform_decides(
    m: DeblockModel,
    level: int,
    edge: int,
    a: u8,
    b: u8,
)
    ensures
        edge_between(m, level, edge, a, b).size == edge_between(m, level, edge, b, a).size,
        edge_between(m, level, edge, a, b).size <= edge_between(m, level, edge, a, a).size,
        edge_between(m, level, edge, a, b).size <= edge_between(m, level, edge, b, b).size,
        edge_between(m, level, edge, a, b).edge == edge,
        edge_between(m, level, edge, 4, b).size == 4 || b < 4,
        m.plane == 0 ==> edge_between(m, level, edge, 8, 8).size == 8,
        m.plane == 0 ==> edge_between(m, level, edge, 16, 16).size == 16,
        m.plane == 0 ==> edge_between(m, level, edge, 64, 64).size == 16,
{
}

/// Vertical edges take the transform widths and the first level, horizontal edges the
/// heights and the second.
pub proof fn law_levels_of_passes(
    w: int,
    h: int,
    meta: MetaModel,
    fh: crate::frame::FrameHeader,
    i: int,
)
    requires
        !fh.loop_filter_delta_enabled,
        forall|i: int| 0 <= i < 4 ==> #[trigger] fh.loop_filter_level[i] <= 63,
        0 <= i < meta.cells.len(),
    ensures
        ({
            let m = deblock_model(
                w,
                h,
                8,
                0,
                cell_widths(meta, 0),
                cell_heights(meta, 0),
                meta.w8,
                meta.h8,
                fh,
            );
            &&& m.level_v == fh.loop_filter_level[0]
            &&& m.level_h == fh.loop_filter_level[1]
            &&& m.tx_w[i] == meta.cells[i].luma_w
            &&& m.tx_h[i] == meta.cells[i].luma_h
        }),
        cell_widths(meta, 1)[i] == meta.cells[i].u_w,
        cell_heights(meta, 1)[i] == meta.cells[i].u_h,
        cell_widths(meta, 2)[i] == meta.cells[i].v_w,
        cell_heights(meta, 2)[i] == meta.cells[i].v_h,
{
}

/// A plane is deblocked before it is enhanced.
pub proof fn law_filters_in_order(
    g: Seq<Seq<i32>>,
    w: int,
    h: int,
    meta: MetaModel,
    fh: crate::frame::FrameHeader,
)
    ensures
        ({
            let d = deblock_model(
                w,
                h,
                8,
                0,
                cell_widths(meta, 0),
                cell_heights(meta, 0),
                meta.w8,
                meta.h8,
                fh,
            );
            let r = luma_filtered(g, w, h, meta, fh);
            &&& !fh.enable_cdef || fh.coded_lossless ==> r == deblocked(g, d)
            &&& fh.enable_cdef && !fh.coded_lossless && fh.cdef_y_strength@.len() > 0 ==> r
                == cdef_filtered(
                deblocked(g, d),
                enhancement(
                    w,
                    h,
                    false,
                    false,
                    fh.cdef_y_strength@[0] as int,
                    fh.cdef_damping as int,
                ),
            )
        }),
{
}

/// A packed strength holds the first strength in its low four bits and the second above
/// them, in steps of sixteen.
pub proof fn law_packed_strength(w: int, h: int, first: int, second: int, damping: int)
    requires
        0 <= first < 16,
        0 <= second < 4,
    ensures
        enhancement(w, h, false, false, first + 16 * second, damping).pri == first,
        enhancement(w, h, false, false, first + 16 * second, damping).sec == 16 * second,
        enhancement(w, h, false, false, first + 16 * second, damping).damping == damping,
{
}

// ---------------------------------------------------------------------------
// The narrow filter
// ---------------------------------------------------------------------------

/// Across an edge between smooth sides, where the wide filter does not apply, the two
/// samples at the edge move toward each other and do not pass; the next ones move the same
/// way by less. A step of two or more becomes smaller, if the edge is filtered at all.
pub proof fn law_narrow_closes_steps(line: Seq<i32>, e: EdgeModel)
    requires
        pixels(line),
        within(line, e),
        e.size == 4 || !flat_near(line, e),
        !high_variance(line, e),
    ensures
        ({
            let r = edge_filtered(line, e);
            let p1 = line[e.edge - 2];
            let p0 = line[e.edge - 1];
            let q0 = line[e.edge];
            let q1 = line[e.edge + 1];
            &&& p0 <= q0 ==> p0 <= r[e.edge - 1] <= r[e.edge] <= q0
            &&& p0 >= q0 ==> p0 >= r[e.edge - 1] >= r[e.edge] >= q0
            &&& p0 <= q0 ==> p1 <= r[e.edge - 2] && r[e.edge + 1] <= q1
            &&& p0 >= q0 ==> p1 >= r[e.edge - 2] && r[e.edge + 1] >= q1
            &&& absi(r[e.edge - 2] - p1) <= absi(r[e.edge] - q0)
            &&& absi(r[e.edge + 1] - q1) <= absi(r[e.edge] - q0)
            &&& mask_passes(line, e) && absi(q0 - p0) >= 2 ==> absi(
                r[e.edge] - r[e.edge - 1],
            ) < absi(q0 - p0)
        }),
{
    reveal(edge_filtered);
    lemma_pow2i_values();
    let p1 = line[e.edge - 2];
    let p0 = line[e.edge - 1];
    let q0 = line[e.edge];
    let q1 = line[e.edge + 1];
    assert(0 <= p1 <= 255 && 0 <= p0 <= 255 && 0 <= q0 <= 255 && 0 <= q1 <= 255);
    assert(tap(line, e.edge, -2) == p1);
    assert(tap(line, e.edge, -1) == p0);
    assert(tap(line, e.edge, 0) == q0);
    assert(tap(line, e.edge, 1) == q1);
}

/// Where the samples next to the edge differ much from those at it, only those at the edge
/// move.
pub proof fn law_narrow_between_rough_sides(line: Seq<i32>, e: EdgeModel, i: int)
    requires
        pixels(line),
        within(line, e),
        e.size == 4 || !flat_near(line, e),
        high_variance(line, e),
        0 <= i < line.len(),
        i != e.edge - 1,
        i != e.edge,
    ensures
        edge_filtered(line, e)[i] == line[i],
{
    reveal(edge_filtered);
}

// ---------------------------------------------------------------------------
// The wide filter
// ---------------------------------------------------------------------------

/// The line is `a` before the edge and `b` from the edge on.
pub open spec fn stepped(line: Seq<i32>, edge: int, a: int, b: int) -> bool {
    forall|i: int|
        0 <= i < line.len() ==> #[trigger] line[i] == if i < edge {
            a
        } else {
            b
        }
}

/// The weight of the samples from the edge on, among the first `k` of the wide filter around
/// offset `i`.
pub open spec fn weight_behind(n: int, n2: int, i: int, k: int) -> int
    decreases k,
{
    if k <= 0 {
        0
    } else {
        let j = k - 1 - n;
        weight_behind(n, n2, i, k - 1) + if i + j < 0 {
            0int
        } else if absi(j) <= n2 {
            2
        } else {
            1
        }
    }
}

proof fn lemma_step_sum(
    line: Seq<i32>,
    edge: int,
    a: int,
    b: int,
    n: int,
    n2: int,
    i: int,
    k: int,
)
    requires
        stepped(line, edge, a, b),
        0 < edge < line.len(),
        0 <= k,
        1 <= n,
    ensures
        wide_sum(line, edge, n, n2, i, k) == a * wide_weight(n, n2, k) + (b - a) * weight_behind(
            n,
            n2,
            i,
            k,
        ),
    decreases k,
{
    if k > 0 {
        lemma_step_sum(line, edge, a, b, n, n2, i, k - 1);
        let j = k - 1 - n;
        let c = clampi(i + j, -(n + 1), n);
        let t = if absi(j) <= n2 {
            2int
        } else {
            1
        };
        let v = tap(line, edge, c);
        assert(v == if i + j < 0 {
            a
        } else {
            b
        });
        let w = wide_weight(n, n2, k - 1);
        let r = weight_behind(n, n2, i, k - 1);
        assert(a * (w + t) == a * w + a * t) by (nonlinear_arith);
        assert((b - a) * (r + t) == (b - a) * r + b * t - a * t) by (nonlinear_arith);
    } else {
        assert(a * 0 == 0 && (b - a) * 0 == 0) by (nonlinear_arith);
    }
}

proof fn lemma_wide_at(line: Seq<i32>, e: EdgeModel, k: int, i: int)
    requires
        0 <= k,
        ({
            let n = wide_reach(wide_log2(line, e), e.luma);
            &&& -n <= i
            &&& i + n < k <= 2 * n
            &&& n <= e.edge
            &&& e.edge + n <= line.len()
        }),
    ensures
        ({
            let log2 = wide_log2(line, e);
            let n = wide_reach(log2, e.luma);
            wide(line, e, k)[e.edge + i] == clampi(
                round_half_away(
                    wide_sum(line, e.edge, n, wide_core(log2, e.luma), i, 2 * n + 1),
                    log2,
                ),
                0,
                255,
            )
        }),
        wide(line, e, k).len() == line.len(),
    decreases k,
{
    lemma_wide_len(line, e, k);
    lemma_wide_len(line, e, k - 1);
    let n = wide_reach(wide_log2(line, e), e.luma);
    if i + n < k - 1 {
        lemma_wide_at(line, e, k - 1, i);
    }
}

proof fn lemma_wide_len(line: Seq<i32>, e: EdgeModel, k: int)
    requires
        0 < e.edge < line.len(),
    ensures
        wide(line, e, k).len() == line.len(),
    decreases k,
{
    if k > 0 {
        lemma_wide_len(line, e, k - 1);
    }
}

proof fn lemma_weights_behind(n: int, n2: int, i: int)
    requires
        (n == 2 && n2 == 1) || (n == 3 && n2 == 0) || (n == 6 && n2 == 1),
        -n <= i < n,
    ensures
        0 < weight_behind(n, n2, i, 2 * n + 1) < wide_weight(n, n2, 2 * n + 1),
        i + 1 < n ==> weight_behind(n, n2, i, 2 * n + 1) <= weight_behind(n, n2, i + 1, 2 * n + 1),
        weight_behind(n, n2, i, 2 * n + 1) + weight_behind(n, n2, -1 - i, 2 * n + 1) == wide_weight(
            n,
            n2,
            2 * n + 1,
        ),
{
    reveal_with_fuel(weight_behind, 14);
    reveal_with_fuel(wide_weight, 14);
}

/// A step between two flat sides that takes the wide filter becomes a ramp: it never turns
/// back, stays between the two sides, reaches into both alike, and is the same from either
/// end but for rounding.
pub proof fn law_step_becomes_ramp(line: Seq<i32>, e: EdgeModel, a: int, b: int, i: int)
    requires
        stepped(line, e.edge, a, b),
        0 <= a <= b <= 255,
        e.size >= 8,
        mask_passes(line, e),
        ({
            let n = wide_reach(wide_log2(line, e), e.luma);
            &&& n <= e.edge
            &&& e.edge + n <= line.len()
            &&& -n <= i < n
        }),
    ensures
        ({
            let n = wide_reach(wide_log2(line, e), e.luma);
            let r = edge_filtered(line, e);
            &&& a <= r[e.edge + i] <= b
            &&& i + 1 < n ==> r[e.edge + i] <= r[e.edge + i + 1]
            &&& a + b <= r[e.edge + i] + r[e.edge - 1 - i] <= a + b + 1
            &&& b - a >= 16 ==> a < r[e.edge + i] < b
        }),
{
    reveal(edge_filtered);
    lemma_pow2i_values();
    assert(0 < e.edge < line.len());
    let log2 = wide_log2(line, e);
    let n = wide_reach(log2, e.luma);
    let n2 = wide_core(log2, e.luma);
    assert(flat_near(line, e)) by {
        assert(tap(line, e.edge, -2) == a && tap(line, e.edge, -1) == a && tap(line, e.edge, -3)
            == a && tap(line, e.edge, -4) == a);
        assert(tap(line, e.edge, 0) == b && tap(line, e.edge, 1) == b && tap(line, e.edge, 2) == b
            && tap(line, e.edge, 3) == b);
    }
    law_wide_weights(log2, e.luma);
    let w = wide_weight(n, n2, 2 * n + 1);
    assert(w == pow2i(log2));
    lemma_ramp_at(line, e, a, b, i);
    lemma_ramp_at(line, e, a, b, -1 - i);
    if i + 1 < n {
        lemma_ramp_at(line, e, a, b, i + 1);
    }
    lemma_weights_behind(n, n2, i);
    let x = weight_behind(n, n2, i, 2 * n + 1);
    let y = weight_behind(n, n2, -1 - i, 2 * n + 1);
    let z = weight_behind(n, n2, i + 1, 2 * n + 1);
    lemma_ramp_values(a, b, w, x, y);
    if i + 1 < n {
        lemma_ramp_order(a, b, w, x, z);
    }
}

/// Where the share `x` of `w` of a step comes to.
spec fn ramp_value(a: int, b: int, w: int, x: int) -> int {
    clampi((a * w + (b - a) * x + w / 2) / w, 0, 255)
}

proof fn lemma_ramp_values(a: int, b: int, w: int, x: int, y: int)
    requires
        0 <= a <= b <= 255,
        w == 8 || w == 16,
        1 <= x <= w - 1,
        x + y == w,
    ensures
        a <= ramp_value(a, b, w, x) <= b,
        a + b <= ramp_value(a, b, w, x) + ramp_value(a, b, w, y) <= a + b + 1,
        b - a >= 16 ==> a < ramp_value(a, b, w, x) < b,
{
    let d = b - a;
    let u = d * x;
    let v = d * y;
    assert(u + v == d * w) by (nonlinear_arith)
        requires
            x + y == w,
            u == d * x,
            v == d * y,
    ;
    assert(d <= u && d <= v) by (nonlinear_arith)
        requires
            1 <= x,
            1 <= y,
            0 <= d,
            u == d * x,
            v == d * y,
    ;
    if w == 8 {
        assert(a * w == 8 * a && d * w == 8 * d);
    } else {
        assert(a * w == 16 * a && d * w == 16 * d);
    }
}

proof fn lemma_ramp_order(a: int, b: int, w: int, x: int, z: int)
    requires
        0 <= a <= b <= 255,
        w == 8 || w == 16,
        x <= z,
    ensures
        ramp_value(a, b, w, x) <= ramp_value(a, b, w, z),
{
    assert((b - a) * x <= (b - a) * z) by (nonlinear_arith)
        requires
            x <= z,
            a <= b,
    ;
}

proof fn lemma_ramp_at(line: Seq<i32>, e: EdgeModel, a: int, b: int, i: int)
    requires
        stepped(line, e.edge, a, b),
        0 <= a <= b <= 255,
        0 < e.edge < line.len(),
        ({
            let n = wide_reach(wide_log2(line, e), e.luma);
            &&& n <= e.edge
            &&& e.edge + n <= line.len()
            &&& -n <= i < n
        }),
    ensures
        ({
            let log2 = wide_log2(line, e);
            let n = wide_reach(log2, e.luma);
            let n2 = wide_core(log2, e.luma);
            let x = weight_behind(n, n2, i, 2 * n + 1);
            let w = pow2i(log2);
            wide(line, e, 2 * n)[e.edge + i] == ramp_value(a, b, w, x)
        }),
{
    lemma_pow2i_values();
    let log2 = wide_log2(line, e);
    let n = wide_reach(log2, e.luma);
    let n2 = wide_core(log2, e.luma);
    lemma_wide_at(line, e, 2 * n, i);
    lemma_step_sum(line, e.edge, a, b, n, n2, i, 2 * n + 1);
    law_wide_weights(log2, e.luma);
    lemma_weights_behind(n, n2, i);
    let x = weight_behind(n, n2, i, 2 * n + 1);
    let w = pow2i(log2);
    let s = a * w + (b - a) * x;
    assert(s >= 0) by (nonlinear_arith)
        requires
            s == a * w + (b - a) * x,
            0 <= a <= b,
            0 <= x,
            0 <= w,
    ;
}

// ---------------------------------------------------------------------------
// Passes
// ---------------------------------------------------------------------------

proof fn lemma_row_alone(a: Seq<Seq<i32>>, b: Seq<Seq<i32>>, m: DeblockModel, n: int, y: int)
    requires
        a[y] == b[y],
        a.len() == b.len(),
        n <= a.len(),
        0 <= y < a.len(),
    ensures
        rows_deblocked(a, m, n)[y] == rows_deblocked(b, m, n)[y],
        rows_deblocked(a, m, n).len() == a.len(),
        rows_deblocked(b, m, n).len() == b.len(),
    decreases n,
{
    if n > 0 {
        lemma_row_alone(a, b, m, n - 1, y);
    }
}

/// The first pass works along the rows: where the second does nothing, a row of the plane
/// behind the filter depends on that row alone.
pub proof fn law_rows_apart(a: Seq<Seq<i32>>, b: Seq<Seq<i32>>, m: DeblockModel, y: int)
    requires
        m.level_h == 0,
        a.len() == m.h,
        b.len() == m.h,
        0 <= y < m.h,
        a[y] == b[y],
    ensures
        deblocked(a, m)[y] == deblocked(b, m)[y],
{
    reveal(deblocked);
    lemma_row_alone(a, b, m, m.h, y);
    lemma_columns_idle(rows_deblocked(a, m, m.h), m, m.w);
    lemma_columns_idle(rows_deblocked(b, m, m.h), m, m.w);
}

proof fn lemma_columns_idle(g: Seq<Seq<i32>>, m: DeblockModel, n: int)
    requires
        m.level_h == 0,
    ensures
        columns_deblocked(g, m, n) == g,
    decreases n,
{
    if n > 0 {
        lemma_columns_idle(g, m, n - 1);
    }
}

proof fn lemma_rows_idle(g: Seq<Seq<i32>>, m: DeblockModel, n: int)
    requires
        m.level_v == 0,
    ensures
        rows_deblocked(g, m, n) == g,
    decreases n,
{
    if n > 0 {
        lemma_rows_idle(g, m, n - 1);
    }
}

/// The rows of a plane are `w` wide and `h` in number.
pub open spec fn shaped(g: Seq<Seq<i32>>, w: int, h: int) -> bool {
    &&& g.len() == h
    &&& forall|y: int| 0 <= y < h ==> (#[trigger] g[y]).len() == w
}

proof fn lemma_column_alone(a: Seq<Seq<i32>>, b: Seq<Seq<i32>>, m: DeblockModel, n: int, x: int)
    requires
        shaped(a, m.w, m.h),
        shaped(b, m.w, m.h),
        column(a, x) == column(b, x),
        0 <= x < m.w,
        n <= m.w,
    ensures
        column(columns_deblocked(a, m, n), x) == column(columns_deblocked(b, m, n), x),
        shaped(columns_deblocked(a, m, n), m.w, m.h),
        shaped(columns_deblocked(b, m, n), m.w, m.h),
    decreases n,
{
    if n > 0 {
        lemma_column_alone(a, b, m, n - 1, x);
        let p = columns_deblocked(a, m, n - 1);
        let q = columns_deblocked(b, m, n - 1);
        if x != n - 1 {
            assert(column(columns_deblocked(a, m, n), x) =~= column(p, x));
            assert(column(columns_deblocked(b, m, n), x) =~= column(q, x));
        } else {
            assert(column(columns_deblocked(a, m, n), x) =~= column(columns_deblocked(b, m, n), x));
        }
    }
}

/// The second pass works down the columns: where the first does nothing, a column of the
/// plane behind the filter depends on that column alone.
pub proof fn law_columns_apart(a: Seq<Seq<i32>>, b: Seq<Seq<i32>>, m: DeblockModel, x: int)
    requires
        m.level_v == 0,
        shaped(a, m.w, m.h),
        shaped(b, m.w, m.h),
        0 <= x < m.w,
        column(a, x) == column(b, x),
    ensures
        column(deblocked(a, m), x) == column(deblocked(b, m), x),
{
    reveal(deblocked);
    lemma_rows_idle(a, m, m.h);
    lemma_rows_idle(b, m, m.h);
    lemma_column_alone(a, b, m, m.w, x);
}

/// The levels of the planes: luma has one for each pass, each chroma plane its own for both.
pub proof fn law_levels_of_planes(fh: crate::frame::FrameHeader)
    requires
        !fh.loop_filter_delta_enabled,
        forall|i: int| 0 <= i < 4 ==> #[trigger] fh.loop_filter_level[i] <= 63,
    ensures
        level_of(fh, 0, 0) == fh.loop_filter_level[0],
        level_of(fh, 0, 1) == fh.loop_filter_level[1],
        forall|pass: int| #[trigger] level_of(fh, 1, pass) == fh.loop_filter_level[2],
        forall|pass: int| #[trigger] level_of(fh, 2, pass) == fh.loop_filter_level[3],
{
}

} // verus!
