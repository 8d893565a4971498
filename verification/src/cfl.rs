//! Chroma from luma: a chroma block follows the deviations of the luma block from its
//! mean.
use crate::color_map::lemma_position;
use crate::intra_pred::clip1;
use crate::math::clampi;
use vstd::prelude::*;

verus! {

/// The luma plane that a chroma block is predicted from.
pub struct CflParams<'a> {
    pub luma: &'a [u8],
    pub luma_stride: usize,
    /// Whether chroma is halved across and down.
    pub sub_x: bool,
    pub sub_y: bool,
    /// The end of the coded block in the luma plane.
    pub max_luma_w: usize,
    pub max_luma_h: usize,
    /// The share of luma, with its sign.
    pub alpha: i32,
}

/// The model of the luma plane that a chroma block is predicted from.
#[verifier::ext_equal]
pub struct CflModel {
    pub luma: Seq<u8>,
    pub stride: int,
    pub sub_x: bool,
    pub sub_y: bool,
    pub max_w: int,
    pub max_h: int,
    pub alpha: int,
}

impl<'a> View for CflParams<'a> {
    type V = CflModel;

    open spec fn view(&self) -> CflModel {
        CflModel {
            luma: self.luma@,
            stride: self.luma_stride as int,
            sub_x: self.sub_x,
            sub_y: self.sub_y,
            max_w: self.max_luma_w as int,
            max_h: self.max_luma_h as int,
            alpha: self.alpha as int,
        }
    }
}

/// The first luma position of chroma position `p`, held inside the coded block.
pub open spec fn luma_position(p: int, sub: bool, end: int) -> int {
    if sub {
        let last = if end >= 2 {
            end - 2
        } else {
            0
        };
        if 2 * p < last {
            2 * p
        } else {
            last
        }
    } else {
        let last = if end >= 1 {
            end - 1
        } else {
            0
        };
        if p < last {
            p
        } else {
            last
        }
    }
}

/// A luma sample, zero beyond the plane.
pub open spec fn luma_at(m: CflModel, x: int, y: int) -> int {
    let p = y * m.stride + x;
    if 0 <= p < m.luma.len() {
        m.luma[p] as int
    } else {
        0
    }
}

/// Eight times the luma at a chroma position: the mean of the samples that it covers.
pub open spec fn luma_mean(m: CflModel, cx: int, cy: int) -> int {
    let x = luma_position(cx, m.sub_x, m.max_w);
    let y = luma_position(cy, m.sub_y, m.max_h);
    if m.sub_x && m.sub_y {
        2 * (luma_at(m, x, y) + luma_at(m, x + 1, y) + luma_at(m, x, y + 1) + luma_at(
            m,
            x + 1,
            y + 1,
        ))
    } else if m.sub_x {
        4 * (luma_at(m, x, y) + luma_at(m, x + 1, y))
    } else if m.sub_y {
        4 * (luma_at(m, x, y) + luma_at(m, x, y + 1))
    } else {
        8 * luma_at(m, x, y)
    }
}

/// The luma of the block at `cx`, `cy` in raster order.
pub open spec fn luma_block(m: CflModel, cx: int, cy: int, w: int, h: int) -> Seq<int> {
    Seq::new((w * h) as nat, |p: int| luma_mean(m, cx + p % w, cy + p / w))
}

/// The sum of the first `n` entries.
pub open spec fn sum_ints(s: Seq<int>, n: int) -> int
    decreases n,
{
    if n <= 0 {
        0
    } else {
        sum_ints(s, n - 1) + s[n - 1]
    }
}

/// The mean of a block, rounded to nearest.
pub open spec fn block_mean(s: Seq<int>) -> int {
    (sum_ints(s, s.len() as int) + s.len() as int / 2) / s.len() as int
}

/// A product of a share in eighths and a luma of three fractional bits, rounded to
/// nearest, halves away from zero.
pub open spec fn scaled_share(x: int) -> int {
    if x < 0 {
        -((-x + 32) / 64)
    } else {
        (x + 32) / 64
    }
}

/// The prediction of a chroma block: the mean prediction and the scaled deviation of
/// luma.
#[verifier::opaque]
pub open spec fn cfl_pred(
    pred: Seq<i32>,
    m: CflModel,
    cx: int,
    cy: int,
    w: int,
    h: int,
) -> Seq<i32> {
    let l = luma_block(m, cx, cy, w, h);
    let mean = block_mean(l);
    Seq::new(
        pred.len(),
        |p: int|
            if p < w * h {
                clampi(pred[p] + scaled_share(m.alpha * (l[p] - mean)), 0, 255) as i32
            } else {
                pred[p]
            },
    )
}

/// The side of a chroma block.
pub open spec fn cfl_side(n: int) -> bool {
    n == 4 || n == 8 || n == 16 || n == 32 || n == 64
}

proof fn lemma_sum_range(s: Seq<int>, n: int)
    requires
        0 <= n <= s.len(),
        forall|p: int| 0 <= p < s.len() ==> 0 <= #[trigger] s[p] <= 2040,
    ensures
        0 <= sum_ints(s, n) <= 2040 * n,
    decreases n,
{
    if n > 0 {
        lemma_sum_range(s, n - 1);
    }
}

fn luma_or_zero(luma: &[u8], stride: usize, x: usize, y: usize) -> (r: i32)
    requires
        stride <= 0x1_0000,
        x <= 0x10_0000,
        y <= 0x10_0000,
    ensures
        r == (if 0 <= y * stride + x < luma@.len() {
            luma@[y * stride + x] as int
        } else {
            0
        }),
        0 <= r <= 255,
{
    proof {
        assert(0 <= y * stride <= 0x10_0000_0000) by (nonlinear_arith)
            requires
                0 <= y <= 0x10_0000,
                0 <= stride <= 0x1_0000,
        ;
    }
    let p: u64 = y as u64 * stride as u64 + x as u64;
    if p < luma.len() as u64 {
        luma[p as usize] as i32
    } else {
        0
    }
}

fn held_position(p: usize, sub: bool, end: usize) -> (r: usize)
    requires
        p <= 0x4_0000,
    ensures
        r == luma_position(p as int, sub, end as int),
        r <= 0x8_0000,
{
    if sub {
        let last: usize = if end >= 2 {
            end - 2
        } else {
            0
        };
        if 2 * p < last {
            2 * p
        } else {
            last
        }
    } else {
        let last: usize = if end >= 1 {
            end - 1
        } else {
            0
        };
        if p < last {
            p
        } else {
            last
        }
    }
}

fn mean_at(cfl: &CflParams<'_>, cx: usize, cy: usize) -> (r: i32)
    requires
        cfl.luma_stride <= 0x1_0000,
        cx <= 0x4_0000,
        cy <= 0x4_0000,
    ensures
        r == luma_mean(cfl@, cx as int, cy as int),
        0 <= r <= 2040,
{
    let x: usize = held_position(cx, cfl.sub_x, cfl.max_luma_w);
    let y: usize = held_position(cy, cfl.sub_y, cfl.max_luma_h);
    let a: i32 = luma_or_zero(cfl.luma, cfl.luma_stride, x, y);
    if cfl.sub_x && cfl.sub_y {
        let b: i32 = luma_or_zero(cfl.luma, cfl.luma_stride, x + 1, y);
        let c: i32 = luma_or_zero(cfl.luma, cfl.luma_stride, x, y + 1);
        let d: i32 = luma_or_zero(cfl.luma, cfl.luma_stride, x + 1, y + 1);
        2 * (a + b + c + d)
    } else if cfl.sub_x {
        4 * (a + luma_or_zero(cfl.luma, cfl.luma_stride, x + 1, y))
    } else if cfl.sub_y {
        4 * (a + luma_or_zero(cfl.luma, cfl.luma_stride, x, y + 1))
    } else {
        8 * a
    }
}

/// The luma of a block in raster order.
fn gather_luma(cfl: &CflParams<'_>, cx: usize, cy: usize, w: usize, h: usize) -> (r: Vec<i32>)
    requires
        cfl.luma_stride <= 0x1_0000,
        cx <= 0x2_0000,
        cy <= 0x2_0000,
        1 <= w <= 64,
        1 <= h <= 64,
    ensures
        r@.len() == w * h,
        forall|p: int|
            0 <= p < w * h ==> #[trigger] r@[p] == luma_block(
                cfl@,
                cx as int,
                cy as int,
                w as int,
                h as int,
            )[p] && 0 <= r@[p] <= 2040,
{
    let mut r: Vec<i32> = Vec::new();
    let mut i: usize = 0;
    while i < h
        invariant
            i <= h,
            cfl.luma_stride <= 0x1_0000,
            cx <= 0x2_0000,
            cy <= 0x2_0000,
            1 <= w <= 64,
            1 <= h <= 64,
            r@.len() == i * w,
            forall|p: int|
                0 <= p < r@.len() ==> #[trigger] r@[p] == luma_mean(
                    cfl@,
                    cx + p % w as int,
                    cy + p / w as int,
                ) && 0 <= r@[p] <= 2040,
        decreases h - i,
    {
        let mut j: usize = 0;
        while j < w
            invariant
                j <= w,
                i < h,
                cfl.luma_stride <= 0x1_0000,
                cx <= 0x2_0000,
                cy <= 0x2_0000,
                1 <= w <= 64,
                1 <= h <= 64,
                r@.len() == i * w + j,
                forall|p: int|
                    0 <= p < r@.len() ==> #[trigger] r@[p] == luma_mean(
                        cfl@,
                        cx + p % w as int,
                        cy + p / w as int,
                    ) && 0 <= r@[p] <= 2040,
            decreases w - j,
        {
            proof {
                lemma_position(w as int, i as int, j as int);
            }
            let v: i32 = mean_at(cfl, cx + j, cy + i);
            r.push(v);
            j = j + 1;
        }
        proof {
            assert((i + 1) * w == i * w + w) by (nonlinear_arith);
        }
        i = i + 1;
    }
    assert(h * w == w * h) by (nonlinear_arith);
    r
}

fn share(x: i64) -> (r: i64)
    requires
        -0x4000_0000_0000 <= x <= 0x4000_0000_0000,
    ensures
        r == scaled_share(x as int),
{
    if x < 0 {
        -((-x + 32) / 64)
    } else {
        (x + 32) / 64
    }
}

/// Moves the mean prediction of a chroma block by the scaled deviation of luma from its
/// mean.
pub fn apply_cfl_prediction(
    pred: &mut [i32],
    tx_w: usize,
    tx_h: usize,
    cpx_x: usize,
    cpx_y: usize,
    cfl: &CflParams<'_>,
)
    requires
        cfl_side(tx_w as int),
        cfl_side(tx_h as int),
        cpx_x <= 0x2_0000,
        cpx_y <= 0x2_0000,
        cfl.luma_stride <= 0x1_0000,
        -0x1_0000 <= cfl.alpha <= 0x1_0000,
        old(pred)@.len() >= tx_w * tx_h,
        forall|p: int|
            0 <= p < old(pred)@.len() ==> -0x1000_0000 <= #[trigger] old(pred)@[p] <= 0x1000_0000,
    ensures
        final(pred)@ == cfl_pred(
            old(pred)@,
            cfl@,
            cpx_x as int,
            cpx_y as int,
            tx_w as int,
            tx_h as int,
        ),
{
    let ghost p0 = pred@;
    let ghost lb = luma_block(cfl@, cpx_x as int, cpx_y as int, tx_w as int, tx_h as int);
    let l: Vec<i32> = gather_luma(cfl, cpx_x, cpx_y, tx_w, tx_h);
    let n: usize = l.len();
    proof {
        assert(1 <= tx_w * tx_h <= 4096) by (nonlinear_arith)
            requires
                4 <= tx_w <= 64,
                4 <= tx_h <= 64,
        ;
        assert forall|p: int| 0 <= p < lb.len() implies 0 <= #[trigger] lb[p] <= 2040 by {
            assert(l@[p] == lb[p]);
        }
    }
    let mut sum: i64 = 0;
    let mut k: usize = 0;
    while k < n
        invariant
            k <= n,
            n == l@.len(),
            n <= 4096,
            lb.len() == n,
            forall|p: int| 0 <= p < n ==> #[trigger] l@[p] == lb[p] && 0 <= l@[p] <= 2040,
            forall|p: int| 0 <= p < lb.len() ==> 0 <= #[trigger] lb[p] <= 2040,
            sum == sum_ints(lb, k as int),
        decreases n - k,
    {
        proof {
            lemma_sum_range(lb, k as int);
            assert(l@[k as int] == lb[k as int]);
        }
        sum = sum + l[k] as i64;
        k = k + 1;
    }
    proof {
        lemma_sum_range(lb, n as int);
    }
    let mean: i64 = (sum + (n / 2) as i64) / n as i64;
    proof {
        assert(mean == block_mean(lb));
        assert(0 <= mean <= 2041) by (nonlinear_arith)
            requires
                mean == (sum + (n / 2) as int) / (n as int),
                0 <= sum <= 2040 * n,
                1 <= n,
                0 <= n / 2 <= n,
        ;
    }
    let mut p: usize = 0;
    while p < n
        invariant
            p <= n,
            n == l@.len(),
            n <= p0.len(),
            n == tx_w * tx_h,
            pred@.len() == p0.len(),
            lb.len() == n,
            forall|q: int| 0 <= q < n ==> #[trigger] l@[q] == lb[q] && 0 <= l@[q] <= 2040,
            mean == block_mean(lb),
            0 <= mean <= 2041,
            -0x1_0000 <= cfl.alpha <= 0x1_0000,
            forall|q: int| 0 <= q < p0.len() ==> -0x1000_0000 <= #[trigger] p0[q] <= 0x1000_0000,
            forall|q: int|
                0 <= q < p0.len() ==> #[trigger] pred@[q] == if q < p {
                    clampi(p0[q] + scaled_share(cfl.alpha * (lb[q] - mean)), 0, 255) as i32
                } else {
                    p0[q]
                },
        decreases n - p,
    {
        let d: i64 = l[p] as i64 - mean;
        proof {
            assert(l@[p as int] == lb[p as int]);
            assert(-0x8_0000_0000 <= cfl.alpha * d <= 0x8_0000_0000) by (nonlinear_arith)
                requires
                    -0x1_0000 <= cfl.alpha <= 0x1_0000,
                    -2041 <= d <= 2041,
            ;
            assert(-0x1000_0000 <= p0[p as int] <= 0x1000_0000);
        }
        let s: i64 = share(cfl.alpha as i64 * d);
        let dc: i32 = pred[p];
        pred[p] = clip1(dc + s as i32);
        p = p + 1;
    }
    proof {
        reveal(cfl_pred);
        assert(pred@ =~= cfl_pred(
            p0,
            cfl@,
            cpx_x as int,
            cpx_y as int,
            tx_w as int,
            tx_h as int,
        ));
    }
}

proof fn lemma_flat_sum(s: Seq<int>, v: int, n: int)
    requires
        0 <= n <= s.len(),
        forall|p: int| 0 <= p < s.len() ==> #[trigger] s[p] == v,
    ensures
        sum_ints(s, n) == v * n,
    decreases n,
{
    if n > 0 {
        lemma_flat_sum(s, v, n - 1);
        assert(v * n == v * (n - 1) + v) by (nonlinear_arith);
    } else {
        assert(v * 0 == 0);
    }
}

/// Where luma is the same at every position of a block, the prediction stays as it is.
pub proof fn law_flat_luma(pred: Seq<i32>, m: CflModel, cx: int, cy: int, w: int, h: int, v: int)
    requires
        cfl_side(w),
        cfl_side(h),
        pred.len() == w * h,
        forall|p: int| 0 <= p < pred.len() ==> 0 <= #[trigger] pred[p] <= 255,
        forall|p: int|
            0 <= p < w * h ==> #[trigger] luma_block(m, cx, cy, w, h)[p] == v,
    ensures
        cfl_pred(pred, m, cx, cy, w, h) == pred,
{
    reveal(cfl_pred);
    let l = luma_block(m, cx, cy, w, h);
    let n = l.len() as int;
    assert(1 <= w * h) by (nonlinear_arith)
        requires
            4 <= w,
            4 <= h,
    ;
    lemma_flat_sum(l, v, n);
    assert((v * n + n / 2) / n == v) by {
        assert(v * n == n * v) by (nonlinear_arith);
        vstd::arithmetic::div_mod::lemma_fundamental_div_mod_converse(v * n + n / 2, n, v, n / 2);
    }
    assert(m.alpha * 0 == 0);
    assert(cfl_pred(pred, m, cx, cy, w, h) =~= pred);
}

} // verus!
