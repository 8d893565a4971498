//! Inter prediction: motion vectors, motion-compensated blocks, the candidates that
//! the neighbours offer, and the syntax that codes references and vectors.
use crate::bits::{lemma_pow2i_mono, lemma_pow2i_values};
use crate::math::{clampi, lemma_product_bound, shr32};
use crate::transform::{lemma_block_cell, lemma_cell_unique};
use vstd::prelude::*;

verus! {

/// No reference.
pub const NONE_FRAME: u8 = 0;

/// The current frame.
pub const INTRA_FRAME: u8 = 1;

pub const LAST_FRAME: u8 = 2;

pub const LAST2_FRAME: u8 = 3;

pub const LAST3_FRAME: u8 = 4;

pub const GOLDEN_FRAME: u8 = 5;

pub const BWDREF_FRAME: u8 = 6;

pub const ALTREF2_FRAME: u8 = 7;

pub const ALTREF_FRAME: u8 = 8;

pub const INTERP_EIGHTTAP_REGULAR: u8 = 0;

pub const INTERP_EIGHTTAP_SMOOTH: u8 = 1;

pub const INTERP_EIGHTTAP_SHARP: u8 = 2;

pub const INTERP_BILINEAR: u8 = 3;

/// Every block codes its own filter.
pub const INTERP_SWITCHABLE: u8 = 4;

pub const NEARESTMV: u8 = 0;

pub const NEARMV: u8 = 1;

pub const GLOBALMV: u8 = 2;

pub const NEWMV: u8 = 3;

pub const ZEROMV: u8 = 4;

pub const GLOBAL_NEWMV: u8 = 5;

/// The number of integer steps in the first magnitude class of a vector component.
pub const CLASS0_SIZE: i32 = 2;

// ---------------------------------------------------------------------------
// Motion vectors
// ---------------------------------------------------------------------------

/// A motion vector in eighths of a sample.
#[derive(Debug, Clone, Copy, PartialEq, Eq, Structural)]
pub struct Mv {
    /// Down.
    pub row: i32,
    /// To the right.
    pub col: i32,
}

/// Division that rounds toward zero.
pub open spec fn trunc_div(a: int, b: int) -> int {
    if a >= 0 && b > 0 {
        a / b
    } else if a < 0 && b > 0 {
        -((-a) / b)
    } else if a >= 0 {
        -(a / (-b))
    } else {
        (-a) / (-b)
    }
}

/// A component scaled by `num / den`.
pub open spec fn scaled(v: int, num: int, den: int) -> int {
    trunc_div(v * num + den / 2, den)
}

/// A component halved for a plane of half size, rounded away from zero at the odd
/// eighth.
pub open spec fn chroma_component(v: int) -> int {
    if v >= 0 {
        (2 * v + 1) / 4
    } else {
        (2 * v - 1) / 4
    }
}

fn divide(a: i64, b: i64) -> (r: i64)
    requires
        b != 0,
        -0x4000_0001_0000_0000 < a < 0x4000_0001_0000_0000,
        -0x8000_0001 < b < 0x8000_0001,
    ensures
        r == trunc_div(a as int, b as int),
{
    if a >= 0 && b > 0 {
        a / b
    } else if a < 0 && b > 0 {
        proof {
            vstd::arithmetic::div_mod::lemma_div_pos_is_pos(-a as int, b as int);
            vstd::arithmetic::div_mod::lemma_div_is_ordered_by_denominator(-a as int, 1, b as int);
        }
        -((-a) / b)
    } else if a >= 0 {
        proof {
            vstd::arithmetic::div_mod::lemma_div_pos_is_pos(a as int, -b as int);
            vstd::arithmetic::div_mod::lemma_div_is_ordered_by_denominator(a as int, 1, -b as int);
        }
        -(a / (-b))
    } else {
        (-a) / (-b)
    }
}

impl Mv {
    /// A vector of two components.
    pub fn new(row: i32, col: i32) -> (r: Self)
        ensures
            r == (Mv { row, col }),
    {
        Mv { row, col }
    }

    /// The vector scaled by `num / den`; the vector itself where `den` is zero.
    pub fn projection(&self, num: i32, den: i32) -> (r: Mv)
        requires
            den != 0 ==> i32::MIN <= scaled(self.row as int, num as int, den as int) <= i32::MAX,
            den != 0 ==> i32::MIN <= scaled(self.col as int, num as int, den as int) <= i32::MAX,
        ensures
            den == 0 ==> r == *self,
            den != 0 ==> {
                &&& r.row == scaled(self.row as int, num as int, den as int)
                &&& r.col == scaled(self.col as int, num as int, den as int)
            },
    {
        if den == 0 {
            return *self;
        }
        let half: i64 = shr32(den, 1) as i64;
        proof {
            lemma_pow2i_values();
            lemma_pow2i_mono(0, 1);
            assert(half == den as int / 2);
            lemma_product_bound(self.row as int, num as int, 0x8000_0000, 0x8000_0000);
            lemma_product_bound(self.col as int, num as int, 0x8000_0000, 0x8000_0000);
        }
        let row: i64 = self.row as i64 * num as i64;
        let col: i64 = self.col as i64 * num as i64;
        let r: i64 = divide(row + half, den as i64);
        let c: i64 = divide(col + half, den as i64);
        Mv { row: r as i32, col: c as i32 }
    }

    /// The vector for a plane of half size.
    pub fn scaled_chroma(&self) -> (r: Mv)
        ensures
            r.row == chroma_component(self.row as int),
            r.col == chroma_component(self.col as int),
    {
        Mv { row: halve_component(self.row), col: halve_component(self.col) }
    }
}

impl Default for Mv {
    /// The zero vector.
    fn default() -> (r: Self)
        ensures
            r == (Mv { row: 0, col: 0 }),
    {
        Mv { row: 0, col: 0 }
    }
}

fn halve_component(v: i32) -> (r: i32)
    ensures
        r == chroma_component(v as int),
{
    let wide: i64 = v as i64;
    let sum: i64 = if wide >= 0 {
        2 * wide + 1
    } else {
        2 * wide - 1
    };
    proof {
        lemma_pow2i_values();
    }
    crate::math::shr64(sum, 2) as i32
}

/// The planes of a reference frame.
#[derive(Clone, Copy)]
pub struct RefSlot<'a> {
    pub y: &'a [u8],
    pub u: &'a [u8],
    pub v: &'a [u8],
    pub width: usize,
    pub height: usize,
}

impl<'a> RefSlot<'a> {
    /// Planes of the sizes that belong to the frame, chroma halved.
    pub open spec fn wf(&self) -> bool {
        &&& self.width <= 0x1_0000
        &&& self.height <= 0x1_0000
        &&& self.y@.len() == self.width * self.height
        &&& self.u@.len() == (self.width / 2) * (self.height / 2)
        &&& self.v@.len() == self.u@.len()
    }

    /// A plane with its width and height.
    pub open spec fn plane_model(&self, plane: int) -> (Seq<u8>, int, int) {
        if plane == 1 {
            (self.u@, self.width as int / 2, self.height as int / 2)
        } else if plane == 2 {
            (self.v@, self.width as int / 2, self.height as int / 2)
        } else {
            (self.y@, self.width as int, self.height as int)
        }
    }

    /// A plane with its width and height: 1 for U, 2 for V, else Y.
    pub fn plane(&self, plane: usize) -> (r: (&'a [u8], usize, usize))
        ensures
            (r.0@, r.1 as int, r.2 as int) == self.plane_model(plane as int),
    {
        if plane == 1 {
            (self.u, self.width / 2, self.height / 2)
        } else if plane == 2 {
            (self.v, self.width / 2, self.height / 2)
        } else {
            (self.y, self.width, self.height)
        }
    }
}

/// The eight reference slots.
#[derive(Clone, Copy)]
pub struct RefFrames<'a> {
    pub slots: [Option<RefSlot<'a>>; 8],
}

impl<'a> RefFrames<'a> {
    /// Slots without frames.
    pub fn empty() -> (r: Self)
        ensures
            forall|i: int| 0 <= i < 8 ==> #[trigger] r.slots[i] is None,
    {
        RefFrames { slots: [None; 8] }
    }
}

/// `r` names a reference frame.
pub fn is_inter_ref(r: u8) -> (b: bool)
    ensures
        b == (LAST_FRAME <= r <= ALTREF_FRAME),
{
    LAST_FRAME <= r && r <= ALTREF_FRAME
}

/// The first plane of a reference, which is luma for every name.
pub fn ref_plane_offset(_ref: u8) -> (r: usize)
    ensures
        r == 0,
{
    0
}

// ---------------------------------------------------------------------------
// Motion compensation
// ---------------------------------------------------------------------------

/// The interpolation kernels by filter and eighth of a sample.
pub const SUBPEL_FILTERS: [[[i32; 8]; 8]; 4] = [
    [
        [0, 0, 0, 128, 0, 0, 0, 0],
        [0, 2, -10, 122, 18, -4, 0, 0],
        [0, 2, -14, 110, 38, -10, 2, 0],
        [0, 2, -16, 94, 58, -12, 2, 0],
        [0, 2, -14, 76, 76, -14, 2, 0],
        [0, 2, -12, 58, 94, -16, 2, 0],
        [0, 2, -10, 38, 110, -14, 2, 0],
        [0, 0, -4, 18, 122, -10, 2, 0],
    ],
    [
        [0, 0, 0, 128, 0, 0, 0, 0],
        [0, 0, 26, 62, 36, 4, 0, 0],
        [0, 0, 20, 60, 42, 6, 0, 0],
        [0, 0, 16, 56, 46, 10, 0, 0],
        [0, -2, 14, 52, 52, 14, -2, 0],
        [0, 0, 10, 46, 56, 16, 0, 0],
        [0, 0, 6, 42, 60, 20, 0, 0],
        [0, 0, 4, 36, 62, 26, 0, 0],
    ],
    [
        [0, 0, 0, 128, 0, 0, 0, 0],
        [-2, 6, -12, 124, 16, -6, 4, -2],
        [-4, 10, -22, 116, 38, -14, 6, -2],
        [-4, 10, -24, 100, 60, -20, 8, -2],
        [-4, 12, -24, 80, 80, -24, 12, -4],
        [-2, 8, -20, 60, 100, -24, 10, -4],
        [-2, 6, -14, 38, 116, -22, 10, -4],
        [-2, 4, -6, 16, 124, -12, 6, -2],
    ],
    [
        [0, 0, 0, 128, 0, 0, 0, 0],
        [0, 0, 0, 112, 16, 0, 0, 0],
        [0, 0, 0, 96, 32, 0, 0, 0],
        [0, 0, 0, 80, 48, 0, 0, 0],
        [0, 0, 0, 64, 64, 0, 0, 0],
        [0, 0, 0, 48, 80, 0, 0, 0],
        [0, 0, 0, 32, 96, 0, 0, 0],
        [0, 0, 0, 16, 112, 0, 0, 0],
    ],
];

/// The kernels of a filter; a filter without a name is bilinear.
pub open spec fn filter_index(kind: u8) -> int {
    if kind == INTERP_EIGHTTAP_REGULAR {
        0
    } else if kind == INTERP_EIGHTTAP_SMOOTH {
        1
    } else if kind == INTERP_EIGHTTAP_SHARP {
        2
    } else {
        3
    }
}

/// The kernel of a filter at a fraction in eighths.
pub open spec fn kernel_of(kind: u8, frac: int) -> Seq<i32> {
    SUBPEL_FILTERS[filter_index(kind)][frac % 8]@
}

/// The first `n` weights of a kernel, added up.
pub open spec fn kernel_sum(k: Seq<i32>, n: int) -> int
    decreases n,
{
    if n <= 0 {
        0
    } else {
        kernel_sum(k, n - 1) + k[n - 1]
    }
}

/// The weights of a kernel are small.
pub open spec fn small_kernel(k: Seq<i32>) -> bool {
    &&& k.len() == 8
    &&& forall|i: int| 0 <= i < 8 ==> -24 <= #[trigger] k[i] <= 128
}

/// Every kernel weighs 128 in all.
pub proof fn law_kernel_sum(kind: u8, frac: int)
    ensures
        kernel_sum(kernel_of(kind, frac), 8) == 128,
        small_kernel(kernel_of(kind, frac)),
{
    reveal_with_fuel(kernel_sum, 9);
    let f = filter_index(kind);
    let p = frac % 8;
    assert(0 <= p < 8);
    lemma_kernel_rows(f, p);
}

proof fn lemma_kernel_rows(f: int, p: int)
    requires
        0 <= f < 4,
        0 <= p < 8,
    ensures
        kernel_sum(SUBPEL_FILTERS[f][p]@, 8) == 128,
        small_kernel(SUBPEL_FILTERS[f][p]@),
{
    reveal_with_fuel(kernel_sum, 9);
}

/// At a fraction of zero a kernel picks the sample itself.
pub proof fn law_identity_kernel(kind: u8)
    ensures
        forall|i: int|
            0 <= i < 8 ==> #[trigger] kernel_of(kind, 0)[i] == if i == 3 {
                128int
            } else {
                0
            },
{
}

/// The kernel of a filter at a fraction in eighths.
pub fn subpel_kernel(kind: u8, frac: i32) -> (r: [i32; 8])
    ensures
        r@ == kernel_of(kind, frac as int),
{
    let f: usize = if kind == INTERP_EIGHTTAP_REGULAR {
        0
    } else if kind == INTERP_EIGHTTAP_SMOOTH {
        1
    } else if kind == INTERP_EIGHTTAP_SHARP {
        2
    } else {
        3
    };
    let pos: usize = eighth(frac);
    SUBPEL_FILTERS[f][pos]
}

/// A fraction of a component in eighths.
fn eighth(v: i32) -> (r: usize)
    ensures
        r == v as int % 8,
        r < 8,
{
    proof {
        lemma_pow2i_values();
    }
    let q: i32 = shr32(v, 3);
    (v as i64 - 8 * (q as i64)) as usize
}

/// A block that is predicted from a plane.
pub struct McModel {
    pub plane: Seq<u8>,
    pub stride: int,
    pub w: int,
    pub h: int,
    pub x: int,
    pub y: int,
    pub row: int,
    pub col: int,
    pub filter: u8,
}

/// The sample of the plane at a position, the border repeated outward.
pub open spec fn mc_sample(m: McModel, x: int, y: int) -> int {
    m.plane[clampi(y, 0, m.h - 1) * m.stride + clampi(x, 0, m.w - 1)] as int
}

/// The first `k` taps of the horizontal filter for row `y` and column `x` of the
/// block.
pub open spec fn mc_row_sum(m: McModel, y: int, x: int, k: int) -> int
    decreases k,
{
    if k <= 0 {
        0
    } else {
        mc_row_sum(m, y, x, k - 1) + mc_sample(
            m,
            m.x + m.col / 8 + x + (k - 1) - 3,
            m.y + m.row / 8 + y,
        ) * kernel_of(m.filter, m.col)[k - 1]
    }
}

/// The horizontally filtered sample.
pub open spec fn mc_mid(m: McModel, y: int, x: int) -> int {
    (mc_row_sum(m, y, x, 8) + 64) / 128
}

/// The first `k` taps of the vertical filter, on rows around the block too.
pub open spec fn mc_column_sum(m: McModel, y: int, x: int, k: int) -> int
    decreases k,
{
    if k <= 0 {
        0
    } else {
        mc_column_sum(m, y, x, k - 1) + mc_mid(m, y + (k - 1) - 3, x)
            * kernel_of(m.filter, m.row)[k - 1]
    }
}

/// The predicted sample in row `y` and column `x` of the block.
#[verifier::opaque]
pub open spec fn mc_pixel(m: McModel, y: int, x: int) -> int {
    clampi((mc_column_sum(m, y, x, 8) + 64) / 128, 0, 255)
}

/// The plane covers its width and height.
pub open spec fn mc_fits(m: McModel) -> bool {
    &&& 1 <= m.w <= m.stride
    &&& m.w <= 0x1_0000
    &&& 1 <= m.h <= 0x1_0000
    &&& (m.h - 1) * m.stride + m.w <= m.plane.len()
}

proof fn lemma_mc_cell(m: McModel, x: int, y: int)
    requires
        mc_fits(m),
    ensures
        0 <= clampi(y, 0, m.h - 1) * m.stride + clampi(x, 0, m.w - 1) < m.plane.len(),
        0 <= clampi(y, 0, m.h - 1) * m.stride,
{
    let cy = clampi(y, 0, m.h - 1);
    let cx = clampi(x, 0, m.w - 1);
    assert(0 <= cy * m.stride <= (m.h - 1) * m.stride) by (nonlinear_arith)
        requires
            0 <= cy <= m.h - 1,
            1 <= m.stride,
    ;
}

proof fn lemma_row_sum_bound(m: McModel, y: int, x: int, k: int)
    requires
        0 <= k <= 8,
    ensures
        -0x8000 * k <= mc_row_sum(m, y, x, k) <= 0x8000 * k,
    decreases k,
{
    if k > 0 {
        lemma_row_sum_bound(m, y, x, k - 1);
        law_kernel_sum(m.filter, m.col);
        let s = mc_sample(m, m.x + m.col / 8 + x + (k - 1) - 3, m.y + m.row / 8 + y);
        let t = kernel_of(m.filter, m.col)[k - 1] as int;
        assert(-0x8000 <= s * t <= 0x8000) by (nonlinear_arith)
            requires
                0 <= s <= 255,
                -24 <= t <= 128,
        ;
    }
}

proof fn lemma_mid_bound(m: McModel, y: int, x: int)
    ensures
        -0x1000 <= mc_mid(m, y, x) <= 0x1000,
{
    lemma_row_sum_bound(m, y, x, 8);
}

proof fn lemma_column_sum_bound(m: McModel, y: int, x: int, k: int)
    requires
        0 <= k <= 8,
    ensures
        -0x8_0000 * k <= mc_column_sum(m, y, x, k) <= 0x8_0000 * k,
    decreases k,
{
    if k > 0 {
        lemma_column_sum_bound(m, y, x, k - 1);
        law_kernel_sum(m.filter, m.row);
        lemma_mid_bound(m, y + (k - 1) - 3, x);
        let s = mc_mid(m, y + (k - 1) - 3, x);
        let t = kernel_of(m.filter, m.row)[k - 1] as int;
        assert(-0x8_0000 <= s * t <= 0x8_0000) by (nonlinear_arith)
            requires
                -0x1000 <= s <= 0x1000,
                -24 <= t <= 128,
        ;
    }
}

/// A row of a block behind the horizontal filter.
fn filter_row(
    refp: &[u8],
    ref_stride: usize,
    ref_w: usize,
    ref_h: usize,
    base_x: i32,
    base_y: i32,
    x: usize,
    y: i32,
    kernel: &[i32; 8],
    Ghost(m): Ghost<McModel>,
) -> (r: i32)
    requires
        mc_fits(m),
        m.plane == refp@,
        m.stride == ref_stride,
        m.w == ref_w,
        m.h == ref_h,
        base_x == m.x + m.col / 8,
        base_y == m.y + m.row / 8,
        x <= 0x1_0000,
        -3 <= y <= 0x1_0010,
        -0x6000_0000 <= base_x <= 0x6000_0000,
        -0x6000_0000 <= base_y <= 0x6000_0000,
        kernel@ == kernel_of(m.filter, m.col),
    ensures
        r == mc_mid(m, y as int, x as int),
        -0x1000 <= r <= 0x1000,
{
    let ry: i32 = crate::math::clamp32(base_y + y, 0, ref_h as i32 - 1);
    let mut s: i32 = 0;
    let mut k: usize = 0;
    while k < 8
        invariant
            k <= 8,
            mc_fits(m),
            m.plane == refp@,
            m.stride == ref_stride,
            m.w == ref_w,
            m.h == ref_h,
            base_x == m.x + m.col / 8,
            base_y == m.y + m.row / 8,
            ry == clampi(base_y + y, 0, m.h - 1),
            x <= 0x1_0000,
            -3 <= y <= 0x1_0010,
            -0x6000_0000 <= base_x <= 0x6000_0000,
            -0x6000_0000 <= base_y <= 0x6000_0000,
            kernel@ == kernel_of(m.filter, m.col),
            s == mc_row_sum(m, y as int, x as int, k as int),
        decreases 8 - k,
    {
        let sx: i32 = crate::math::clamp32(base_x + x as i32 + k as i32 - 3, 0, ref_w as i32 - 1);
        proof {
            lemma_mc_cell(m, base_x + x + k - 3, base_y + y);
            assert(refp.len() <= usize::MAX);
            lemma_row_sum_bound(m, y as int, x as int, k as int);
            lemma_row_sum_bound(m, y as int, x as int, k + 1);
            law_kernel_sum(m.filter, m.col);
        }
        let v: i32 = refp[ry as usize * ref_stride + sx as usize] as i32;
        let t: i32 = kernel[k];
        proof {
            assert(-24 <= t <= 128);
            assert(-0x8000 <= v * t <= 0x8000) by (nonlinear_arith)
                requires
                    0 <= v <= 255,
                    -24 <= t <= 128,
            ;
        }
        s = s + v * t;
        k = k + 1;
    }
    proof {
        lemma_row_sum_bound(m, y as int, x as int, 8);
        lemma_mid_bound(m, y as int, x as int);
        lemma_pow2i_values();
    }
    shr32(s + 64, 7)
}

/// A sample of a block behind both filters.
fn filter_column(
    mid: &Vec<i32>,
    bw: usize,
    bh: usize,
    x: usize,
    y: usize,
    kernel: &[i32; 8],
    Ghost(m): Ghost<McModel>,
) -> (r: u8)
    requires
        mid@.len() == bw * (bh + 7),
        bh <= 0x1_0000,
        x < bw,
        y < bh,
        forall|a: int, b: int|
            0 <= a < bh + 7 && 0 <= b < bw ==> #[trigger] mid_at(mid@, m, bw as int, a, b),
        kernel@ == kernel_of(m.filter, m.row),
    ensures
        r == mc_pixel(m, y as int, x as int),
{
    let mut s: i32 = 0;
    let mut k: usize = 0;
    while k < 8
        invariant
            k <= 8,
                mid@.len() == bw * (bh + 7),
            bh <= 0x1_0000,
            x < bw,
            y < bh,
            forall|a: int, b: int|
                0 <= a < bh + 7 && 0 <= b < bw ==> #[trigger] mid_at(mid@, m, bw as int, a, b),
            kernel@ == kernel_of(m.filter, m.row),
            s == mc_column_sum(m, y as int, x as int, k as int),
        decreases 8 - k,
    {
        let ty: usize = y + k;
        proof {
            lemma_block_cell(bw as int, bh + 7, ty as int, x as int);
            assert(mid.len() <= usize::MAX);
            assert(mid_at(mid@, m, bw as int, ty as int, x as int));
            lemma_mid_bound(m, ty - 3, x as int);
            lemma_column_sum_bound(m, y as int, x as int, k as int);
            lemma_column_sum_bound(m, y as int, x as int, k + 1);
            law_kernel_sum(m.filter, m.row);
        }
        let v: i32 = mid[ty * bw + x];
        let t: i32 = kernel[k];
        proof {
            assert(-24 <= t <= 128);
            assert(-0x8_0000 <= v * t <= 0x8_0000) by (nonlinear_arith)
                requires
                    -0x1000 <= v <= 0x1000,
                    -24 <= t <= 128,
            ;
        }
        s = s + v * t;
        k = k + 1;
    }
    proof {
        reveal(mc_pixel);
        lemma_column_sum_bound(m, y as int, x as int, 8);
        lemma_pow2i_values();
        crate::math::lemma_div_bound(s + 64, 7, 0x1000_0000);
    }
    crate::math::clamp32(shr32(s + 64, 7), 0, 255) as u8
}

/// Row `y` and column `x` of the horizontally filtered rows, which start three rows above
/// the block.
pub open spec fn mid_at(s: Seq<i32>, m: McModel, bw: int, y: int, x: int) -> bool {
    s[y * bw + x] == mc_mid(m, y - 3, x)
}

/// Row `y` and column `x` of the predicted block in a buffer.
pub open spec fn mc_at(s: Seq<u8>, stride: int, m: McModel, y: int, x: int) -> bool {
    s[y * stride + x] == mc_pixel(m, y, x)
}

/// Position `p` of a buffer lies in a block of `bw` by `bh` samples.
pub open spec fn in_block(p: int, stride: int, bw: int, bh: int) -> bool {
    exists|y: int, x: int| 0 <= y < bh && 0 <= x < bw && p == #[trigger] cell(y, stride, x)
}

/// The position of row `y` and column `x`.
pub open spec fn cell(y: int, stride: int, x: int) -> int {
    y * stride + x
}

/// The horizontally filtered rows from three above a block on.
fn filter_rows(
    refp: &[u8],
    ref_stride: usize,
    ref_w: usize,
    ref_h: usize,
    base_x: i32,
    base_y: i32,
    bw: usize,
    rows: usize,
    kernel: &[i32; 8],
    Ghost(m): Ghost<McModel>,
) -> (mid: Vec<i32>)
    requires
        mc_fits(m),
        m.plane == refp@,
        m.stride == ref_stride,
        m.w == ref_w,
        m.h == ref_h,
        base_x == m.x + m.col / 8,
        base_y == m.y + m.row / 8,
        bw <= 0x1_0000,
        rows <= 0x1_0007,
        -0x6000_0000 <= base_x <= 0x6000_0000,
        -0x6000_0000 <= base_y <= 0x6000_0000,
        kernel@ == kernel_of(m.filter, m.col),
    ensures
        mid@.len() == bw * rows,
        forall|a: int, b: int|
            0 <= a < rows && 0 <= b < bw ==> #[trigger] mid_at(mid@, m, bw as int, a, b),
{
    let mut mid: Vec<i32> = Vec::new();
    let mut y: usize = 0;
    while y < rows
        invariant
            y <= rows,
            mc_fits(m),
            m.plane == refp@,
            m.stride == ref_stride,
            m.w == ref_w,
            m.h == ref_h,
            base_x == m.x + m.col / 8,
            base_y == m.y + m.row / 8,
            bw <= 0x1_0000,
            rows <= 0x1_0007,
            -0x6000_0000 <= base_x <= 0x6000_0000,
            -0x6000_0000 <= base_y <= 0x6000_0000,
            kernel@ == kernel_of(m.filter, m.col),
            mid@.len() == y * bw,
            forall|a: int, b: int|
                0 <= a < y && 0 <= b < bw ==> #[trigger] mid_at(mid@, m, bw as int, a, b),
        decreases rows - y,
    {
        let mut x: usize = 0;
        while x < bw
            invariant
                x <= bw,
                y < rows,
                mc_fits(m),
                m.plane == refp@,
                m.stride == ref_stride,
                m.w == ref_w,
                m.h == ref_h,
                base_x == m.x + m.col / 8,
                base_y == m.y + m.row / 8,
                bw <= 0x1_0000,
                rows <= 0x1_0007,
                -0x6000_0000 <= base_x <= 0x6000_0000,
                -0x6000_0000 <= base_y <= 0x6000_0000,
                kernel@ == kernel_of(m.filter, m.col),
                mid@.len() == y * bw + x,
                forall|a: int, b: int|
                    0 <= a < y && 0 <= b < bw ==> #[trigger] mid_at(mid@, m, bw as int, a, b),
                forall|b: int| 0 <= b < x ==> #[trigger] mid_at(mid@, m, bw as int, y as int, b),
            decreases bw - x,
        {
            let v: i32 = filter_row(
                refp,
                ref_stride,
                ref_w,
                ref_h,
                base_x,
                base_y,
                x,
                y as i32 - 3,
                kernel,
                Ghost(m),
            );
            let ghost before = mid@;
            mid.push(v);
            proof {
                assert forall|a: int, b: int| 0 <= a < y && 0 <= b < bw implies #[trigger] mid_at(
                    mid@,
                    m,
                    bw as int,
                    a,
                    b,
                ) by {
                    lemma_block_cell(bw as int, y as int, a, b);
                    assert(y * bw == bw * y) by (nonlinear_arith);
                    assert(mid_at(before, m, bw as int, a, b));
                }
                assert forall|b: int| 0 <= b < x + 1 implies #[trigger] mid_at(
                    mid@,
                    m,
                    bw as int,
                    y as int,
                    b,
                ) by {
                    assert(0 <= y * bw) by (nonlinear_arith);
                    if b < x {
                        assert(mid_at(before, m, bw as int, y as int, b));
                    }
                }
            }
            x = x + 1;
        }
        proof {
            assert((y + 1) * bw == y * bw + bw) by (nonlinear_arith);
        }
        y = y + 1;
    }
    assert(rows * bw == bw * rows) by (nonlinear_arith);
    mid
}

/// Predicts a block of `bw` by `bh` samples at `dst_x`, `dst_y` from a plane of a
/// reference. The block is written to the front of `dest`, whose other samples stay
/// as they are.
pub fn motion_compensate(
    dest: &mut [u8],
    dest_stride: usize,
    refp: &[u8],
    ref_stride: usize,
    ref_w: usize,
    ref_h: usize,
    dst_x: usize,
    dst_y: usize,
    bw: usize,
    bh: usize,
    mv: Mv,
    filter: u8,
)
    requires
        1 <= ref_w <= ref_stride,
        ref_w <= 0x1_0000,
        1 <= ref_h <= 0x1_0000,
        (ref_h - 1) * ref_stride + ref_w <= refp@.len(),
        dst_x <= 0x1000_0000,
        dst_y <= 0x1000_0000,
        bw <= dest_stride,
        bw <= 0x1_0000,
        bh <= 0x1_0000,
        bh == 0 || bw == 0 || (bh - 1) * dest_stride + bw <= old(dest)@.len(),
    ensures
        final(dest)@.len() == old(dest)@.len(),
        ({
            let m = McModel {
                plane: refp@,
                stride: ref_stride as int,
                w: ref_w as int,
                h: ref_h as int,
                x: dst_x as int,
                y: dst_y as int,
                row: mv.row as int,
                col: mv.col as int,
                filter,
            };
            &&& forall|y: int, x: int|
                0 <= y < bh && 0 <= x < bw ==> #[trigger] mc_at(
                    final(dest)@,
                    dest_stride as int,
                    m,
                    y,
                    x,
                )
            &&& forall|p: int|
                0 <= p < old(dest)@.len() && !in_block(
                    p,
                    dest_stride as int,
                    bw as int,
                    bh as int,
                ) ==> #[trigger] final(dest)@[p] == old(dest)@[p]
        }),
        mv.row % 8 == 0 && mv.col % 8 == 0 ==> forall|y: int, x: int|
            0 <= y < bh && 0 <= x < bw && 0 <= dst_y + y + mv.row as int / 8 < ref_h && 0 <= dst_x + x
                + mv.col as int / 8 < ref_w ==> final(dest)@[#[trigger] cell(
                y,
                dest_stride as int,
                x,
            )] == refp@[(dst_y + y + mv.row as int / 8) * ref_stride + (dst_x + x + mv.col as int
                / 8)],
        mv.row % 8 == 0 && filter == INTERP_BILINEAR ==> forall|y: int, x: int|
            0 <= y < bh && 0 <= x < bw && 0 <= dst_y + y + mv.row as int / 8 < ref_h && 0 <= dst_x + x
                + mv.col as int / 8 < ref_w - 1 ==> final(dest)@[#[trigger] cell(
                y,
                dest_stride as int,
                x,
            )] == between_samples(
                refp@,
                (dst_y + y + mv.row as int / 8) * ref_stride + (dst_x + x + mv.col as int / 8),
                1,
                mv.col as int % 8,
            ),
        mv.col % 8 == 0 && filter == INTERP_BILINEAR ==> forall|y: int, x: int|
            0 <= y < bh && 0 <= x < bw && 0 <= dst_y + y + mv.row as int / 8 < ref_h - 1 && 0 <= dst_x
                + x + mv.col as int / 8 < ref_w ==> final(dest)@[#[trigger] cell(
                y,
                dest_stride as int,
                x,
            )] == between_samples(
                refp@,
                (dst_y + y + mv.row as int / 8) * ref_stride + (dst_x + x + mv.col as int / 8),
                ref_stride as int,
                mv.row as int % 8,
            ),
{
    let ghost m = McModel {
        plane: refp@,
        stride: ref_stride as int,
        w: ref_w as int,
        h: ref_h as int,
        x: dst_x as int,
        y: dst_y as int,
        row: mv.row as int,
        col: mv.col as int,
        filter,
    };
    let ghost dest0 = dest@;
    proof {
        lemma_pow2i_values();
        crate::math::lemma_div_bound(mv.col as int, 3, 0x8000_0000);
    }
    let base_x: i32 = dst_x as i32 + shr32(mv.col, 3);
    let base_y: i32 = dst_y as i32 + shr32(mv.row, 3);
    let kw: [i32; 8] = subpel_kernel(filter, mv.col);
    let kh: [i32; 8] = subpel_kernel(filter, mv.row);
    let mid: Vec<i32> = filter_rows(
        refp,
        ref_stride,
        ref_w,
        ref_h,
        base_x,
        base_y,
        bw,
        bh + 7,
        &kw,
        Ghost(m),
    );
    let ghost ds = dest_stride as int;
    let mut y: usize = 0;
    while y < bh
        invariant
            y <= bh,
            m.filter == filter,
            m.row == mv.row,
            ds == dest_stride,
            bw <= dest_stride,
            bh <= 0x1_0000,
            mid@.len() == bw * (bh + 7),
            bh == 0 || bw == 0 || (bh - 1) * dest_stride + bw <= dest@.len(),
            dest@.len() == dest0.len(),
            kh@ == kernel_of(m.filter, m.row),
            forall|a: int, b: int|
                0 <= a < bh + 7 && 0 <= b < bw ==> #[trigger] mid_at(mid@, m, bw as int, a, b),
            forall|a: int, b: int| 0 <= a < y && 0 <= b < bw ==> #[trigger] mc_at(dest@, ds, m, a, b),
            forall|p: int|
                0 <= p < dest0.len() && !in_block(p, ds, bw as int, bh as int) ==> #[trigger] dest@[p]
                    == dest0[p],
        decreases bh - y,
    {
        let mut x: usize = 0;
        while x < bw
            invariant
                x <= bw,
                y < bh,
                    ds == dest_stride,
                bw <= dest_stride,
                bh <= 0x1_0000,
                mid@.len() == bw * (bh + 7),
                bh == 0 || bw == 0 || (bh - 1) * dest_stride + bw <= dest@.len(),
                dest@.len() == dest0.len(),
                kh@ == kernel_of(m.filter, m.row),
                forall|a: int, b: int|
                    0 <= a < bh + 7 && 0 <= b < bw ==> #[trigger] mid_at(mid@, m, bw as int, a, b),
                forall|a: int, b: int|
                    0 <= a < y && 0 <= b < bw ==> #[trigger] mc_at(dest@, ds, m, a, b),
                forall|b: int| 0 <= b < x ==> #[trigger] mc_at(dest@, ds, m, y as int, b),
                forall|p: int|
                    0 <= p < dest0.len() && !in_block(p, ds, bw as int, bh as int)
                        ==> #[trigger] dest@[p] == dest0[p],
            decreases bw - x,
        {
            let v: u8 = filter_column(&mid, bw, bh, x, y, &kh, Ghost(m));
            proof {
                assert(0 <= y * ds <= (bh - 1) * ds) by (nonlinear_arith)
                    requires
                        0 <= y <= bh - 1,
                        0 <= ds,
                ;
                assert(dest.len() <= usize::MAX);
            }
            let ghost before = dest@;
            dest[y * dest_stride + x] = v;
            proof {
                assert(cell(y as int, ds, x as int) == y * ds + x);
                assert(in_block(y * ds + x, ds, bw as int, bh as int));
                assert forall|a: int, b: int| 0 <= a < y && 0 <= b < bw implies #[trigger] mc_at(
                    dest@,
                    ds,
                    m,
                    a,
                    b,
                ) by {
                    assert(mc_at(before, ds, m, a, b));
                    assert(0 <= a * ds + b < y * ds) by (nonlinear_arith)
                        requires
                            0 <= a < y,
                            0 <= b < ds,
                    ;
                    if a * ds + b == y * ds + x {
                        lemma_cell_unique(ds, a, b, y as int, x as int);
                    }
                }
                assert forall|b: int| 0 <= b < x + 1 implies #[trigger] mc_at(
                    dest@,
                    ds,
                    m,
                    y as int,
                    b,
                ) by {
                    if b < x {
                        assert(mc_at(before, ds, m, y as int, b));
                    }
                }
            }
            x = x + 1;
        }
        y = y + 1;
    }
    proof {
        assert forall|y: int, x: int| 0 <= y < bh && 0 <= x < bw implies dest@[#[trigger] cell(
            y,
            ds,
            x,
        )] == mc_pixel(m, y, x) by {
            assert(mc_at(dest@, ds, m, y, x));
        }
        lemma_plain_pixels(m, bw as int, bh as int);
    }
}

/// The sample `f` eighths of the way from position `p` of a plane to the one `step` behind
/// it.
pub open spec fn between_samples(s: Seq<u8>, p: int, step: int, f: int) -> int {
    ((8 - f) * s[p] + f * s[p + step] + 4) / 8
}

/// What a block is predicted by where a vector or the filter is plain.
proof fn lemma_plain_pixels(m: McModel, bw: int, bh: int)
    ensures
        m.row % 8 == 0 && m.col % 8 == 0 ==> forall|y: int, x: int|
            0 <= y < bh && 0 <= x < bw && 0 <= m.y + y + m.row / 8 < m.h && 0 <= m.x + x + m.col / 8
                < m.w ==> #[trigger] mc_pixel(m, y, x) == m.plane[(m.y + y + m.row / 8) * m.stride
                + (m.x + x + m.col / 8)],
        m.row % 8 == 0 && m.filter == INTERP_BILINEAR ==> forall|y: int, x: int|
            0 <= y < bh && 0 <= x < bw && 0 <= m.y + y + m.row / 8 < m.h && 0 <= m.x + x + m.col / 8
                < m.w - 1 ==> #[trigger] mc_pixel(m, y, x) == between_samples(
                m.plane,
                (m.y + y + m.row / 8) * m.stride + (m.x + x + m.col / 8),
                1,
                m.col % 8,
            ),
        m.col % 8 == 0 && m.filter == INTERP_BILINEAR ==> forall|y: int, x: int|
            0 <= y < bh && 0 <= x < bw && 0 <= m.y + y + m.row / 8 < m.h - 1 && 0 <= m.x + x + m.col
                / 8 < m.w ==> #[trigger] mc_pixel(m, y, x) == between_samples(
                m.plane,
                (m.y + y + m.row / 8) * m.stride + (m.x + x + m.col / 8),
                m.stride,
                m.row % 8,
            ),
{
    if m.row % 8 == 0 && m.col % 8 == 0 {
        assert forall|y: int, x: int|
            0 <= y < bh && 0 <= x < bw && 0 <= m.y + y + m.row / 8 < m.h && 0 <= m.x + x + m.col / 8
                < m.w implies #[trigger] mc_pixel(m, y, x) == m.plane[(m.y + y + m.row / 8)
            * m.stride + (m.x + x + m.col / 8)] by {
            crate::motion_laws::law_whole_motion(m, m.col / 8, m.row / 8, y, x);
        }
    }
    if m.row % 8 == 0 && m.filter == INTERP_BILINEAR {
        assert forall|y: int, x: int|
            0 <= y < bh && 0 <= x < bw && 0 <= m.y + y + m.row / 8 < m.h && 0 <= m.x + x + m.col / 8
                < m.w - 1 implies #[trigger] mc_pixel(m, y, x) == between_samples(
            m.plane,
            (m.y + y + m.row / 8) * m.stride + (m.x + x + m.col / 8),
            1,
            m.col % 8,
        ) by {
            crate::inter_laws::law_bilinear_across(m, y, x);
        }
    }
    if m.col % 8 == 0 && m.filter == INTERP_BILINEAR {
        assert forall|y: int, x: int|
            0 <= y < bh && 0 <= x < bw && 0 <= m.y + y + m.row / 8 < m.h - 1 && 0 <= m.x + x + m.col
                / 8 < m.w implies #[trigger] mc_pixel(m, y, x) == between_samples(
            m.plane,
            (m.y + y + m.row / 8) * m.stride + (m.x + x + m.col / 8),
            m.stride,
            m.row % 8,
        ) by {
            crate::inter_laws::law_bilinear_down(m, y, x);
            let a = m.y + y + m.row / 8;
            assert((a + 1) * m.stride == a * m.stride + m.stride) by (nonlinear_arith);
        }
    }
}

/// A vector without a fraction copies samples of the reference, the border repeated
/// outward.
pub proof fn law_integer_vector(m: McModel, y: int, x: int)
    requires
        m.row % 8 == 0,
        m.col % 8 == 0,
    ensures
        mc_pixel(m, y, x) == mc_sample(m, m.x + m.col / 8 + x, m.y + m.row / 8 + y),
{
    reveal(mc_pixel);
    law_identity_kernel(m.filter);
    assert(kernel_of(m.filter, m.row) == kernel_of(m.filter, 0));
    assert(kernel_of(m.filter, m.col) == kernel_of(m.filter, 0));
    lemma_still_row(m, y, x, 8);
    lemma_still_column(m, y, x, 8);
}

proof fn lemma_still_row(m: McModel, y: int, x: int, k: int)
    requires
        0 <= k <= 8,
        m.col % 8 == 0,
    ensures
        mc_row_sum(m, y, x, k) == if k > 3 {
            128 * mc_sample(m, m.x + m.col / 8 + x, m.y + m.row / 8 + y)
        } else {
            0
        },
    decreases k,
{
    law_identity_kernel(m.filter);
    assert(kernel_of(m.filter, m.col) == kernel_of(m.filter, 0));
    if k > 0 {
        lemma_still_row(m, y, x, k - 1);
        let s = mc_sample(m, m.x + m.col / 8 + x + (k - 1) - 3, m.y + m.row / 8 + y);
        assert(s * 0 == 0 && s * 128 == 128 * s) by (nonlinear_arith);
    }
}

proof fn lemma_still_column(m: McModel, y: int, x: int, k: int)
    requires
        0 <= k <= 8,
        m.row % 8 == 0,
    ensures
        mc_column_sum(m, y, x, k) == if k > 3 {
            128 * mc_mid(m, y, x)
        } else {
            0
        },
    decreases k,
{
    law_identity_kernel(m.filter);
    assert(kernel_of(m.filter, m.row) == kernel_of(m.filter, 0));
    if k > 0 {
        lemma_still_column(m, y, x, k - 1);
        let s = mc_mid(m, y + (k - 1) - 3, x);
        assert(s * 0 == 0 && s * 128 == 128 * s) by (nonlinear_arith);
    }
}

// ---------------------------------------------------------------------------
// Candidates
// ---------------------------------------------------------------------------

/// A reference and a vector that a neighbour offers.
#[derive(Debug, Clone, Copy, PartialEq, Eq, Structural)]
pub struct MvCandidate {
    pub ref_frame: u8,
    pub mv: Mv,
}

/// The candidates after one more is offered. It is taken if it names a reference
/// frame of the block, is not there yet, and there is room.
pub open spec fn offered(
    stack: Seq<MvCandidate>,
    c: MvCandidate,
    refs: Seq<u8>,
    max: int,
) -> Seq<MvCandidate> {
    if c.ref_frame == NONE_FRAME || c.ref_frame == INTRA_FRAME || !refs.contains(c.ref_frame)
        || stack.contains(c) || stack.len() >= max {
        stack
    } else {
        stack.push(c)
    }
}

/// The candidate of a pair.
pub open spec fn candidate(p: (u8, Mv)) -> MvCandidate {
    MvCandidate { ref_frame: p.0, mv: p.1 }
}

/// The pairs of the neighbours in the order in which they are offered: those above, then
/// those to the left.
pub open spec fn offers(above: Seq<(u8, Mv)>, left: Seq<(u8, Mv)>) -> Seq<MvCandidate> {
    seq![candidate(above[0]), candidate(above[1]), candidate(left[0]), candidate(left[1])]
}

/// The candidates after the first `n` offers.
pub open spec fn after_offers(o: Seq<MvCandidate>, refs: Seq<u8>, max: int, n: int) -> Seq<
    MvCandidate,
>
    decreases n,
{
    if n <= 0 {
        Seq::empty()
    } else {
        offered(after_offers(o, refs, max, n - 1), o[n - 1], refs, max)
    }
}

/// The candidates that the neighbours offer.
pub open spec fn candidates_of(
    above: Seq<(u8, Mv)>,
    left: Seq<(u8, Mv)>,
    refs: Seq<u8>,
    max: int,
) -> Seq<MvCandidate> {
    after_offers(offers(above, left), refs, max, 4)
}

/// A candidate that a block can use.
pub open spec fn suits(c: MvCandidate, refs: Seq<u8>) -> bool {
    c.ref_frame != NONE_FRAME && c.ref_frame != INTRA_FRAME && refs.contains(c.ref_frame)
}

/// A list of candidates that a block can use: different ones, for its references, and
/// no more than there is room for.
pub open spec fn usable(stack: Seq<MvCandidate>, refs: Seq<u8>, max: int) -> bool {
    &&& stack.len() <= max
    &&& forall|i: int, j: int| 0 <= i < j < stack.len() ==> stack[i] != stack[j]
    &&& forall|i: int|
        0 <= i < stack.len() ==> refs.contains((#[trigger] stack[i]).ref_frame)
            && stack[i].ref_frame > INTRA_FRAME
}

/// Every candidate on the stack was offered among the first `n`.
pub open spec fn all_offered(stack: Seq<MvCandidate>, o: Seq<MvCandidate>, n: int) -> bool {
    forall|i: int|
        0 <= i < stack.len() ==> exists|j: int| 0 <= j < n && #[trigger] o[j] == #[trigger] stack[i]
}

/// Where `c` occurs in `o` for the first time; the length where it does not.
pub open spec fn first_offer(o: Seq<MvCandidate>, c: MvCandidate, i: int) -> int
    decreases o.len() - i,
{
    if i >= o.len() || o[i] == c {
        i
    } else {
        first_offer(o, c, i + 1)
    }
}

proof fn lemma_first_offer(o: Seq<MvCandidate>, c: MvCandidate, i: int, j: int)
    requires
        0 <= i <= j < o.len(),
        o[j] == c,
    ensures
        i <= first_offer(o, c, i) <= j,
        o[first_offer(o, c, i)] == c,
    decreases j - i,
{
    if o[i] != c {
        lemma_first_offer(o, c, i + 1, j);
    }
}

proof fn lemma_from(o: Seq<MvCandidate>, c: MvCandidate, i: int)
    ensures
        first_offer(o, c, i) >= i,
    decreases o.len() - i,
{
    if i < o.len() && o[i] != c {
        lemma_from(o, c, i + 1);
    }
}

proof fn lemma_not_before(o: Seq<MvCandidate>, c: MvCandidate, i: int, n: int)
    requires
        0 <= i <= n <= o.len(),
        forall|k: int| i <= k < n ==> #[trigger] o[k] != c,
    ensures
        first_offer(o, c, i) >= n,
    decreases n - i,
{
    if i < n {
        assert(o[i] != c);
        lemma_not_before(o, c, i + 1, n);
    } else {
        lemma_from(o, c, i);
    }
}

proof fn lemma_after_offers(o: Seq<MvCandidate>, refs: Seq<u8>, max: int, n: int)
    requires
        0 <= max,
        0 <= n <= o.len(),
    ensures
        ({
            let s = after_offers(o, refs, max, n);
            &&& usable(s, refs, max)
            &&& all_offered(s, o, n)
            &&& forall|i: int, j: int|
                0 <= i < j < s.len() ==> first_offer(o, #[trigger] s[i], 0) < first_offer(
                    o,
                    #[trigger] s[j],
                    0,
                )
            &&& s.len() < max ==> forall|k: int|
                0 <= k < n && suits(#[trigger] o[k], refs) ==> s.contains(o[k])
        }),
    decreases n,
{
    if n > 0 {
        lemma_after_offers(o, refs, max, n - 1);
        let s = after_offers(o, refs, max, n - 1);
        let t = after_offers(o, refs, max, n);
        let c = o[n - 1];
        assert forall|i: int| 0 <= i < s.len() implies exists|j: int|
            0 <= j < n && #[trigger] o[j] == #[trigger] s[i] by {
            let j = choose|j: int| 0 <= j < n - 1 && #[trigger] o[j] == s[i];
            assert(o[j] == s[i]);
        }
        if t != s {
            assert(t == s.push(c));
            assert(s.len() < max);
            assert forall|k: int| 0 <= k < n - 1 implies #[trigger] o[k] != c by {
                if o[k] == c {
                    assert(suits(o[k], refs));
                    assert(s.contains(o[k]));
                }
            }
            lemma_not_before(o, c, 0, n - 1);
            assert forall|i: int| 0 <= i < s.len() implies first_offer(o, #[trigger] s[i], 0)
                < first_offer(o, c, 0) by {
                let j = choose|j: int| 0 <= j < n - 1 && #[trigger] o[j] == s[i];
                lemma_first_offer(o, s[i], 0, j);
            }
            assert(t[s.len() as int] == c);
            assert(o[n - 1] == t[s.len() as int]);
            assert forall|i: int| 0 <= i < t.len() implies exists|j: int|
                0 <= j < n && #[trigger] o[j] == #[trigger] t[i] by {
                if i < s.len() {
                    assert(t[i] == s[i]);
                }
            }
            assert forall|k: int| 0 <= k < n && suits(#[trigger] o[k], refs) implies t.contains(
                o[k],
            ) by {
                if k < n - 1 {
                    let i = choose|i: int| 0 <= i < s.len() && s[i] == o[k];
                    assert(t[i] == o[k]);
                }
            }
        }
    }
}

/// The candidates of a block are different from each other, name its references, and are
/// at most `max`. They are pairs of the neighbours, in the order of their first
/// occurrence, and while there is room no pair that suits the block is missing.
pub proof fn law_candidates(
    above: Seq<(u8, Mv)>,
    left: Seq<(u8, Mv)>,
    refs: Seq<u8>,
    max: int,
)
    requires
        above.len() == 2,
        left.len() == 2,
        0 <= max,
    ensures
        ({
            let o = offers(above, left);
            let s = candidates_of(above, left, refs, max);
            &&& usable(s, refs, max)
            &&& all_offered(s, o, 4)
            &&& forall|i: int, j: int|
                0 <= i < j < s.len() ==> first_offer(o, #[trigger] s[i], 0) < first_offer(
                    o,
                    #[trigger] s[j],
                    0,
                )
            &&& s.len() < max ==> forall|k: int|
                0 <= k < 4 && suits(#[trigger] o[k], refs) ==> s.contains(o[k])
        }),
{
    lemma_after_offers(offers(above, left), refs, max, 4);
}

fn names(refs: &[u8], r: u8) -> (b: bool)
    ensures
        b == refs@.contains(r),
{
    let mut i: usize = 0;
    while i < refs.len()
        invariant
            i <= refs@.len(),
            forall|j: int| 0 <= j < i ==> #[trigger] refs@[j] != r,
        decreases refs.len() - i,
    {
        if refs[i] == r {
            assert(refs@[i as int] == r);
            return true;
        }
        i = i + 1;
    }
    false
}

fn offer(stack: &mut Vec<MvCandidate>, c: MvCandidate, refs: &[u8], max: usize)
    ensures
        final(stack)@ == offered(old(stack)@, c, refs@, max as int),
{
    if c.ref_frame == NONE_FRAME || c.ref_frame == INTRA_FRAME {
        return;
    }
    if !names(refs, c.ref_frame) {
        return;
    }
    let mut i: usize = 0;
    while i < stack.len()
        invariant
            i <= stack@.len(),
            stack@ == old(stack)@,
            forall|j: int| 0 <= j < i ==> #[trigger] stack@[j] != c,
        decreases stack.len() - i,
    {
        let here: MvCandidate = stack[i];
        if here.ref_frame == c.ref_frame && here.mv.row == c.mv.row && here.mv.col == c.mv.col {
            assert(stack@[i as int] == c);
            return;
        }
        i = i + 1;
    }
    if stack.len() < max {
        stack.push(c);
    }
}

/// The candidates that the neighbours offer to a block that uses `block_refs`, at
/// most `max`.
pub fn build_mv_candidates(
    above: &[(u8, Mv); 2],
    left: &[(u8, Mv); 2],
    block_refs: &[u8],
    max: usize,
) -> (r: Vec<MvCandidate>)
    ensures
        r@ == candidates_of(above@, left@, block_refs@, max as int),
        usable(r@, block_refs@, max as int),
{
    proof {
        law_candidates(above@, left@, block_refs@, max as int);
        reveal_with_fuel(after_offers, 5);
    }
    let mut stack: Vec<MvCandidate> = Vec::new();
    offer(&mut stack, MvCandidate { ref_frame: above[0].0, mv: above[0].1 }, block_refs, max);
    offer(&mut stack, MvCandidate { ref_frame: above[1].0, mv: above[1].1 }, block_refs, max);
    offer(&mut stack, MvCandidate { ref_frame: left[0].0, mv: left[0].1 }, block_refs, max);
    offer(&mut stack, MvCandidate { ref_frame: left[1].0, mv: left[1].1 }, block_refs, max);
    stack
}

} // verus!
