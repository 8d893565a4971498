//! Chroma from luma, and colors from palettes.
use crate::cfl::{block_mean, cfl_pred, luma_block, luma_mean, sum_ints, CflModel};
use crate::color_map::palette_pred;
use crate::entropy::Coder;
use crate::mode_cdfs::ModeKey;
use crate::mode_syntax::{cfl_alpha_of, cfl_alphas_of};
use crate::symbol_laws::lemma_symbol_sign;
use crate::palette::{color_context, color_score, color_scores, first_max, plain_order, ranked};
use vstd::prelude::*;

verus! {

// ---------------------------------------------------------------------------
// Chroma from luma
// ---------------------------------------------------------------------------

/// Eight times the luma at a chroma position lies between eight times the least and eight
/// times the largest of the samples that it covers, and moves with each of them.
pub proof fn law_luma_covers(m: CflModel, cx: int, cy: int)
    requires
        m.sub_x,
        m.sub_y,
        0 <= cx,
        0 <= cy,
        2 * cx + 2 <= m.max_w,
        2 * cy + 2 <= m.max_h,
        m.max_w <= m.stride,
        m.luma.len() >= m.max_h * m.stride,
    ensures
        luma_mean(m, cx, cy) == 2 * (m.luma[2 * cy * m.stride + 2 * cx] + m.luma[2 * cy * m.stride
            + 2 * cx + 1] + m.luma[(2 * cy + 1) * m.stride + 2 * cx] + m.luma[(2 * cy + 1)
            * m.stride + 2 * cx + 1]),
{
    assert((2 * cy + 1) * m.stride + m.stride <= m.max_h * m.stride) by (nonlinear_arith)
        requires
            2 * cy + 2 <= m.max_h,
            0 <= m.stride,
    ;
    assert(0 <= 2 * cy * m.stride) by (nonlinear_arith)
        requires
            0 <= cy,
            0 <= m.stride,
    ;
    assert((2 * cy + 1) * m.stride == 2 * cy * m.stride + m.stride) by (nonlinear_arith);
}

/// The mean of a block is the nearest number to its sum divided by its size.
pub proof fn law_block_mean(s: Seq<int>)
    requires
        1 <= s.len(),
        0 <= sum_ints(s, s.len() as int),
    ensures
        ({
            let n = s.len() as int;
            let t = sum_ints(s, n);
            2 * n * block_mean(s) - n <= 2 * t <= 2 * n * block_mean(s) + n
        }),
{
    let n = s.len() as int;
    let t = sum_ints(s, n);
    let r = block_mean(s);
    vstd::arithmetic::div_mod::lemma_fundamental_div_mod(t + n / 2, n);
    assert(2 * n * r == 2 * (n * r)) by (nonlinear_arith);
}

/// Where luma exceeds the mean of the block, a positive share makes chroma larger and a
/// negative one makes it smaller; where it falls short, the other way round. Without a share
/// and on the mean chroma stays.
pub proof fn law_chroma_follows_luma(
    pred: Seq<i32>,
    m: CflModel,
    cx: int,
    cy: int,
    w: int,
    h: int,
    p: int,
)
    requires
        0 <= p < w * h,
        p < pred.len(),
        0 <= pred[p] <= 255,
    ensures
        ({
            let l = luma_block(m, cx, cy, w, h);
            let d = l[p] - block_mean(l);
            let r = cfl_pred(pred, m, cx, cy, w, h)[p];
            &&& d >= 0 && m.alpha >= 0 ==> r >= pred[p]
            &&& d >= 0 && m.alpha <= 0 ==> r <= pred[p]
            &&& d <= 0 && m.alpha >= 0 ==> r <= pred[p]
            &&& d <= 0 && m.alpha <= 0 ==> r >= pred[p]
            &&& d == 0 || m.alpha == 0 ==> r == pred[p]
            &&& m.alpha * d >= 32 && pred[p] < 255 ==> r > pred[p]
            &&& m.alpha * d <= -32 && pred[p] > 0 ==> r < pred[p]
            &&& -64 <= 64 * (r - pred[p]) - m.alpha * d <= 64 || r == 0 || r == 255
        }),
{
    reveal(cfl_pred);
    let l = luma_block(m, cx, cy, w, h);
    let d = l[p] - block_mean(l);
    let a = m.alpha;
    assert((d >= 0 && a >= 0 ==> a * d >= 0) && (d >= 0 && a <= 0 ==> a * d <= 0) && (d <= 0 && a
        >= 0 ==> a * d <= 0) && (d <= 0 && a <= 0 ==> a * d >= 0)) by (nonlinear_arith);
    assert(d == 0 || a == 0 ==> a * d == 0) by (nonlinear_arith);
}

/// The joint symbol of the signs names both shares: three symbols for each sign of the
/// first, of which the second takes none, negative and positive in turn. They are never
/// both zero.
pub proof fn law_shares(c: Coder<ModeKey>)
    requires
        0 <= c.val(ModeKey::CflSign) < 8,
    ensures
        ({
            let j = c.val(ModeKey::CflSign);
            let (u, v, _) = cfl_alphas_of(c);
            &&& u == 0 <==> j < 2
            &&& u < 0 <==> 2 <= j < 5
            &&& u > 0 <==> 5 <= j
            &&& v == 0 <==> j == 2 || j == 5
            &&& v < 0 <==> j == 0 || j == 3 || j == 6
            &&& v > 0 <==> j == 1 || j == 4 || j == 7
            &&& u != 0 || v != 0
        }),
{
    reveal(cfl_alphas_of);
    let j = c.val(ModeKey::CflSign);
    let su = (j + 1) / 3;
    let sv = (j + 1) % 3;
    let c0 = c.next(ModeKey::CflSign);
    let k = ModeKey::CflAlpha((su - 1) * 3 + sv);
    lemma_symbol_sign(c0.sym, c0.bank[k]);
    let c1 = cfl_alpha_of(c0, su, (su - 1) * 3 + sv).1;
    lemma_symbol_sign(c1.sym, c1.bank[ModeKey::CflAlpha((sv - 1) * 3 + su)]);
}

// ---------------------------------------------------------------------------
// Palettes
// ---------------------------------------------------------------------------

/// A palette paints every position with the color that the map has for it.
pub proof fn law_palette_paints(
    colors: Seq<i32>,
    map: Seq<u8>,
    stride: int,
    x: int,
    y: int,
    w: int,
    h: int,
    i: int,
    j: int,
)
    requires
        0 <= i < h,
        0 <= j < w,
        0 <= (y + i) * stride + (x + j) < map.len(),
        map[(y + i) * stride + (x + j)] < colors.len(),
    ensures
        palette_pred(colors, map, stride, x, y, w, h)[i * w + j] == colors[map[(y + i) * stride + (x
            + j)] as int],
{
    let k = i * w + j;
    vstd::arithmetic::div_mod::lemma_fundamental_div_mod_converse(k, w, i, j);
    crate::transform::lemma_block_cell(w, h, i, j);
    assert(w * h == h * w) by (nonlinear_arith);
}

proof fn lemma_first_max(s: Seq<int>, i: int, n: int)
    requires
        0 <= i < n,
    ensures
        i <= first_max(s, i, n) < n,
        forall|k: int| i <= k < n ==> #[trigger] s[k] <= s[first_max(s, i, n)],
        forall|k: int| i <= k < first_max(s, i, n) ==> #[trigger] s[k] < s[first_max(s, i, n)],
    decreases n - i,
{
    if n > i + 1 {
        lemma_first_max(s, i, n - 1);
    }
}

/// The first symbol of a position stands for the color that occurs most among its
/// neighbours, and for the least of those that occur equally often.
pub proof fn law_likely_color_first(map: Seq<u8>, stride: int, r: int, c: int, n: int, k: int)
    requires
        2 <= n <= 8,
        0 <= k < n,
    ensures
        ({
            let first = color_context(map, stride, r, c, n).1[0] as int;
            &&& 0 <= first < n
            &&& color_score(map, stride, r, c, k) <= color_score(map, stride, r, c, first)
            &&& k < first ==> color_score(map, stride, r, c, k) < color_score(
                map,
                stride,
                r,
                c,
                first,
            )
        }),
{
    reveal(color_context);
    let s = color_scores(map, stride, r, c);
    let o = plain_order();
    reveal_with_fuel(ranked, 4);
    lemma_first_max(s, 0, n);
    let m = first_max(s, 0, n);
    let (s1, o1) = ranked(s, o, n, 1);
    assert(o1[0] == m as u8);
    assert(s[k] <= s[m]);
    let m1 = first_max(s1, 1, n);
    let (s2, o2) = ranked(s, o, n, 2);
    assert(o2[0] == o1[0]);
    let (s3, o3) = ranked(s, o, n, 3);
    assert(o3[0] == o2[0]);
    assert(s[k] == color_score(map, stride, r, c, k));
    assert(s[m] == color_score(map, stride, r, c, m));
}

/// Neighbours to the left and above count two, the one at the corner one; the first row and
/// column have fewer of them.
pub proof fn law_neighbours_count(map: Seq<u8>, stride: int, r: int, c: int, k: int)
    requires
        0 <= r,
        0 <= c,
    ensures
        r == 0 && c == 0 ==> color_score(map, stride, r, c, k) == 0,
        r > 0 && c > 0 && map[r * stride + c - 1] == k && map[(r - 1) * stride + c] == k && map[(r
            - 1) * stride + c - 1] == k ==> color_score(map, stride, r, c, k) == 5,
        c > 0 && map[r * stride + c - 1] == k ==> color_score(map, stride, r, c, k) >= 2,
        r > 0 && map[(r - 1) * stride + c] == k ==> color_score(map, stride, r, c, k) >= 2,
        r > 0 && c > 0 && map[r * stride + c - 1] != k && map[(r - 1) * stride + c] != k
            ==> color_score(map, stride, r, c, k) <= 1,
{
}

} // verus!
