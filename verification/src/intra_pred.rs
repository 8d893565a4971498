//! Intra prediction.
//!
//! A predictor gives every pixel of a block from the row above, the column to the
//! left and the corner between them. `pred_pixel` is that function; `paint` writes
//! it into a block in raster order.
use crate::bits::{lemma_pow2i_values, pow2i};
use crate::math::{absi, clamp32, clampi, lemma_product_bound, shr32};
use crate::transform::{lemma_block_cell, lemma_cell_unique};
use vstd::prelude::*;

verus! {

pub const DC_PRED: u8 = 0;

pub const V_PRED: u8 = 1;

pub const H_PRED: u8 = 2;

pub const D45_PRED: u8 = 3;

pub const D135_PRED: u8 = 4;

pub const D113_PRED: u8 = 5;

pub const D157_PRED: u8 = 6;

pub const D207_PRED: u8 = 7;

pub const D67_PRED: u8 = 8;

pub const SMOOTH_V: u8 = 9;

pub const SMOOTH_H: u8 = 10;

pub const SMOOTH: u8 = 11;

pub const PAETH: u8 = 12;

/// The middle of the sample range.
pub const MID_SAMPLE: i32 = 128;

/// Modes with an angle.
pub open spec fn is_directional(mode: int) -> bool {
    V_PRED <= mode <= D67_PRED
}

/// Whether a mode has an angle.
pub fn is_directional_mode(mode: u8) -> (r: bool)
    ensures
        r == is_directional(mode as int),
{
    V_PRED <= mode && mode <= D67_PRED
}

/// `x` moved into the sample range.
pub fn clip1(x: i32) -> (r: i32)
    ensures
        r == clampi(x as int, 0, 255),
{
    clamp32(x, 0, 255)
}

// ---------------------------------------------------------------------------
// Smooth weights
// ---------------------------------------------------------------------------

pub const SM_WEIGHTS_2: [i32; 2] = [255, 128];

pub const SM_WEIGHTS_4: [i32; 4] = [255, 149, 85, 64];

pub const SM_WEIGHTS_8: [i32; 8] = [255, 197, 146, 105, 73, 50, 37, 32];

pub const SM_WEIGHTS_16: [i32; 16] = [
    255, 225, 196, 170, 145, 123, 102, 84, 68, 54, 43, 33, 26, 20, 17, 16,
];

pub const SM_WEIGHTS_32: [i32; 32] = [
    255, 240, 225, 210, 196, 182, 169, 157, 145, 133, 122, 111, 101, 92, 83, 74, 66, 59, 52, 45, 39,
    34, 29, 25, 21, 17, 14, 12, 10, 9, 8, 8,
];

pub const SM_WEIGHTS_64: [i32; 64] = [
    255, 248, 240, 233, 225, 218, 210, 203, 196, 189, 182, 176, 169, 163, 156, 150, 144, 138, 133,
    127, 121, 116, 111, 106, 101, 96, 91, 86, 82, 77, 73, 69, 65, 61, 57, 54, 50, 47, 44, 41, 38, 35,
    32, 29, 27, 25, 22, 20, 18, 16, 15, 13, 12, 10, 9, 8, 7, 6, 6, 5, 5, 4, 4, 4,
];

/// A side of a predicted block: a power of two between 2 and 64.
pub open spec fn side_ok(n: int) -> bool {
    n == 2 || n == 4 || n == 8 || n == 16 || n == 32 || n == 64
}

/// The weight of the near edge at position `i` of a side of length `dim`.
#[verifier::opaque]
pub open spec fn weight_of(dim: int, i: int) -> int {
    if dim == 2 {
        SM_WEIGHTS_2[i] as int
    } else if dim == 4 {
        SM_WEIGHTS_4[i] as int
    } else if dim == 8 {
        SM_WEIGHTS_8[i] as int
    } else if dim == 16 {
        SM_WEIGHTS_16[i] as int
    } else if dim == 32 {
        SM_WEIGHTS_32[i] as int
    } else {
        SM_WEIGHTS_64[i] as int
    }
}

/// Weights lie between 4 and 255.
pub proof fn lemma_weight(dim: int, i: int)
    requires
        side_ok(dim),
        0 <= i < dim,
    ensures
        4 <= weight_of(dim, i) <= 255,
{
    reveal(weight_of);
}

/// The weight of the near edge at position `idx` of a side of length `dim`.
pub fn smooth_weight(dim: usize, idx: usize) -> (r: i32)
    requires
        side_ok(dim as int),
        idx < dim,
    ensures
        r == weight_of(dim as int, idx as int),
        4 <= r <= 255,
{
    proof {
        lemma_weight(dim as int, idx as int);
        reveal(weight_of);
    }
    if dim == 2 {
        SM_WEIGHTS_2[idx]
    } else if dim == 4 {
        SM_WEIGHTS_4[idx]
    } else if dim == 8 {
        SM_WEIGHTS_8[idx]
    } else if dim == 16 {
        SM_WEIGHTS_16[idx]
    } else if dim == 32 {
        SM_WEIGHTS_32[idx]
    } else {
        SM_WEIGHTS_64[idx]
    }
}

// ---------------------------------------------------------------------------
// Predictors
// ---------------------------------------------------------------------------

/// How a predictor forms its pixels.
#[derive(Debug, Clone, Copy, PartialEq, Eq, Structural)]
pub enum PredKind {
    /// One value.
    Flat,
    /// The row above.
    Vertical,
    /// The column to the left.
    Horizontal,
    /// The neighbour nearest to the plane through the corner.
    Paeth,
    /// Between the row above and the last sample of the column.
    SmoothV,
    /// Between the column and the last sample of the row above.
    SmoothH,
    /// Both of these.
    Smooth,
    /// Along a ray to the row above.
    Zone1,
    /// Along a ray to the row above or the column.
    Zone2,
    /// Along a ray to the column.
    Zone3,
}

/// A predictor of a block of `w` by `h` pixels.
pub struct PredModel {
    pub kind: PredKind,
    pub top: Seq<i32>,
    pub left: Seq<i32>,
    pub tl: int,
    pub w: int,
    pub h: int,
    pub value: int,
    pub dx: int,
    pub dy: int,
    pub up_a: bool,
    pub up_l: bool,
}

/// Every entry is a sample.
pub open spec fn samples(s: Seq<i32>) -> bool {
    forall|i: int| 0 <= i < s.len() ==> 0 <= #[trigger] s[i] <= 255
}

/// A count of samples in entries of an edge: twice as many where it is upsampled.
pub open spec fn entries(up: bool, n: int) -> int {
    if up {
        2 * n
    } else {
        n
    }
}

/// The entry that position `pos` of an edge falls on.
pub open spec fn edge_base(up: bool, pos: int) -> int {
    if up {
        pos / 32
    } else {
        pos / 64
    }
}

/// The weight of the next entry at position `pos`, in 32nds.
pub open spec fn edge_shift(up: bool, pos: int) -> int {
    (entries(up, pos) % 64) / 2
}

/// The sample at position `pos` of an edge, in 64ths of a sample: the mean of the
/// entries that it falls between.
pub open spec fn edge_sample(edge: Seq<i32>, up: bool, pos: int) -> int {
    edge_mix(edge, edge_base(up, pos), edge_shift(up, pos))
}

/// The mean of entries `base` and `base + 1` of an edge, weighted in 32nds.
pub open spec fn edge_mix(edge: Seq<i32>, base: int, shift: int) -> int {
    clampi((edge[8 + base] * (32 - shift) + edge[9 + base] * shift + 16) / 32, 0, 255)
}

/// Along a one-sided ray: entry `base + step` of the edge, with its last entry
/// beyond `max`.
pub open spec fn one_sided(edge: Seq<i32>, up: bool, slope: int, major: int, minor: int, n: int) -> int {
    let pos = slope * (major + 1);
    let base = edge_base(up, pos) + entries(up, minor);
    let max = entries(up, n - 1);
    if base < max {
        edge_mix(edge, base, edge_shift(up, pos))
    } else {
        edge[8 + max] as int
    }
}

/// The pixel at row `y` and column `x`.
#[verifier::opaque]
pub open spec fn pred_pixel(m: PredModel, y: int, x: int) -> int {
    match m.kind {
        PredKind::Flat => m.value,
        PredKind::Vertical => m.top[x] as int,
        PredKind::Horizontal => m.left[y] as int,
        PredKind::Paeth => {
            let t = m.top[x] as int;
            let l = m.left[y] as int;
            let p_left = absi(t - m.tl);
            let p_top = absi(l - m.tl);
            let p_corner = absi(l + t - m.tl - m.tl);
            clampi(
                if p_left <= p_top && p_left <= p_corner {
                    l
                } else if p_top <= p_corner {
                    t
                } else {
                    m.tl
                },
                0,
                255,
            )
        },
        PredKind::SmoothV => {
            let a = weight_of(m.h, y);
            clampi((a * m.top[x] + (256 - a) * m.left[m.h - 1] + 128) / 256, 0, 255)
        },
        PredKind::SmoothH => {
            let b = weight_of(m.w, x);
            clampi((b * m.left[y] + (256 - b) * m.top[m.w - 1] + 128) / 256, 0, 255)
        },
        PredKind::Smooth => {
            let a = weight_of(m.h, y);
            let b = weight_of(m.w, x);
            clampi(
                (a * m.top[x] + (256 - a) * m.left[m.h - 1] + b * m.left[y] + (256 - b)
                    * m.top[m.w - 1] + 256) / 512,
                0,
                255,
            )
        },
        PredKind::Zone1 => one_sided(m.top, m.up_a, m.dx, y, x, m.w + m.h),
        PredKind::Zone3 => one_sided(m.left, m.up_l, m.dy, x, y, m.w + m.h),
        PredKind::Zone2 => {
            let px = 64 * x - (y + 1) * m.dx;
            if px >= -64 {
                edge_sample(m.top, m.up_a, px)
            } else {
                edge_sample(m.left, m.up_l, 64 * y - (x + 1) * m.dy)
            }
        },
    }
}

impl PredModel {
    /// The neighbours hold samples, and as many as the kind reads.
    pub open spec fn wf(self) -> bool {
        &&& 1 <= self.w <= 64
        &&& 1 <= self.h <= 64
        &&& samples(self.top)
        &&& samples(self.left)
        &&& 0 <= self.tl <= 255
        &&& 0 <= self.value <= 255
        &&& match self.kind {
            PredKind::Flat => true,
            PredKind::Vertical
            | PredKind::Horizontal
            | PredKind::Paeth => self.top.len() >= self.w && self.left.len() >= self.h,
            PredKind::SmoothV | PredKind::SmoothH | PredKind::Smooth => {
                &&& self.top.len() >= self.w
                &&& self.left.len() >= self.h
                &&& side_ok(self.w)
                &&& side_ok(self.h)
            },
            PredKind::Zone1 | PredKind::Zone2 | PredKind::Zone3 => {
                &&& self.top.len() == 16 + 2 * (self.w + self.h)
                &&& self.left.len() == 16 + 2 * (self.w + self.h)
                &&& 1 <= self.dx <= 1023
                &&& 1 <= self.dy <= 1023
                &&& self.kind == PredKind::Zone2 ==> self.dx * self.dy <= 4096
            },
        }
    }
}

/// A predictor of a block.
pub struct Predictor<'a> {
    pub kind: PredKind,
    pub top: &'a [i32],
    pub left: &'a [i32],
    pub tl: i32,
    pub w: usize,
    pub h: usize,
    pub value: i32,
    pub dx: i32,
    pub dy: i32,
    pub up_a: bool,
    pub up_l: bool,
}

impl<'a> View for Predictor<'a> {
    type V = PredModel;

    open spec fn view(&self) -> PredModel {
        PredModel {
            kind: self.kind,
            top: self.top@,
            left: self.left@,
            tl: self.tl as int,
            w: self.w as int,
            h: self.h as int,
            value: self.value as int,
            dx: self.dx as int,
            dy: self.dy as int,
            up_a: self.up_a,
            up_l: self.up_l,
        }
    }
}

/// The low six bits of a number are its residue modulo 64.
proof fn lemma_low_bits(x: i32)
    ensures
        (x & 63) == x % 64,
{
    assert((x & 63) == x % 64) by (bit_vector);
}

/// The mean of two neighbouring entries of an edge.
fn mix(edge: &[i32], base: i32, shift: i32) -> (r: i32)
    requires
        -8 <= base <= 300,
        9 + base < edge@.len(),
        0 <= shift < 32,
        samples(edge@),
    ensures
        r == edge_mix(edge@, base as int, shift as int),
        0 <= r <= 255,
{
    let a: i32 = edge[(8 + base) as usize];
    let b: i32 = edge[(9 + base) as usize];
    proof {
        lemma_product_bound(a as int, (32 - shift) as int, 255, 32);
        lemma_product_bound(b as int, shift as int, 255, 32);
        lemma_pow2i_values();
    }
    clamp32(shr32(a * (32 - shift) + b * shift + 16, 5), 0, 255)
}

/// The entry that a position falls on, and the weight of the next one.
fn split_position(pos: i32, up: bool) -> (r: (i32, i32))
    requires
        -0x10_0000 <= pos <= 0x10_0000,
    ensures
        r.0 == edge_base(up, pos as int),
        r.1 == edge_shift(up, pos as int),
        0 <= r.1 < 32,
{
    proof {
        lemma_pow2i_values();
    }
    let scaled: i32 = if up {
        2 * pos
    } else {
        pos
    };
    proof {
        lemma_low_bits(scaled);
    }
    let shift: i32 = (scaled & 63) / 2;
    if up {
        (shr32(pos, 5), shift)
    } else {
        (shr32(pos, 6), shift)
    }
}

/// The sample at a position of an edge.
fn sample_edge(edge: &[i32], up: bool, pos: i32, Ghost(n): Ghost<int>) -> (r: i32)
    requires
        2 <= n <= 128,
        edge@.len() == 16 + 2 * n,
        samples(edge@),
        -64 <= pos <= 64 * (n - 1),
    ensures
        r == edge_sample(edge@, up, pos as int),
        0 <= r <= 255,
{
    let (base, shift): (i32, i32) = split_position(pos, up);
    mix(edge, base, shift)
}

/// A pixel along a one-sided ray.
fn one_side(edge: &[i32], up: bool, slope: i32, major: usize, minor: usize, n: usize) -> (r: i32)
    requires
        2 <= n <= 128,
        edge@.len() == 16 + 2 * n,
        samples(edge@),
        1 <= slope <= 1023,
        major < 64,
        minor < 64,
    ensures
        r == one_sided(edge@, up, slope as int, major as int, minor as int, n as int),
        0 <= r <= 255,
{
    let steps: i32 = major as i32 + 1;
    assert(0 <= slope * steps <= 65472) by (nonlinear_arith)
        requires
            1 <= slope <= 1023,
            1 <= steps <= 64,
    ;
    let pos: i32 = slope * steps;
    let (start, shift): (i32, i32) = split_position(pos, up);
    let base: i32 = start + if up {
        2 * (minor as i32)
    } else {
        minor as i32
    };
    let max: i32 = if up {
        2 * (n as i32 - 1)
    } else {
        n as i32 - 1
    };
    if base < max {
        mix(edge, base, shift)
    } else {
        edge[(8 + max) as usize]
    }
}

/// A ray that leaves the row above behind its start meets the column at most one
/// sample before its start.
pub proof fn lemma_zone2(dx: int, dy: int, x: int, y: int)
    requires
        1 <= dx <= 1023,
        1 <= dy <= 1023,
        dx * dy <= 4096,
        0 <= x < 64,
        0 <= y < 64,
        64 * x - (y + 1) * dx < -64,
    ensures
        64 * y - (x + 1) * dy >= -64,
{
    assert(64 * (x + 1) < (y + 1) * dx);
    assert(64 * (x + 1) * dy <= (y + 1) * dx * dy) by (nonlinear_arith)
        requires
            64 * (x + 1) < (y + 1) * dx,
            1 <= dy,
    ;
    assert((y + 1) * dx * dy <= (y + 1) * 4096) by (nonlinear_arith)
        requires
            dx * dy <= 4096,
            0 <= y,
    ;
    assert(64 * (x + 1) * dy == 64 * ((x + 1) * dy)) by (nonlinear_arith);
}

impl<'a> Predictor<'a> {
    /// The pixel at row `y` and column `x`.
    fn pixel(&self, y: usize, x: usize) -> (r: i32)
        requires
            self@.wf(),
            y < self.h,
            x < self.w,
        ensures
            r == pred_pixel(self@, y as int, x as int),
            0 <= r <= 255,
    {
        proof {
            reveal(pred_pixel);
        }
        match self.kind {
            PredKind::Flat => self.value,
            PredKind::Vertical => self.top[x],
            PredKind::Horizontal => self.left[y],
            PredKind::Paeth => self.paeth(y, x),
            PredKind::SmoothV => self.smooth_v(y, x),
            PredKind::SmoothH => self.smooth_h(y, x),
            PredKind::Smooth => self.smooth(y, x),
            PredKind::Zone1 => one_side(self.top, self.up_a, self.dx, y, x, self.w + self.h),
            PredKind::Zone3 => one_side(self.left, self.up_l, self.dy, x, y, self.w + self.h),
            PredKind::Zone2 => self.zone2(y, x),
        }
    }

    fn paeth(&self, y: usize, x: usize) -> (r: i32)
        requires
            self@.wf(),
            self.kind == PredKind::Paeth,
            y < self.h,
            x < self.w,
        ensures
            r == pred_pixel(self@, y as int, x as int),
            0 <= r <= 255,
    {
        proof {
            reveal(pred_pixel);
        }
        let t: i32 = self.top[x];
        let l: i32 = self.left[y];
        let base: i32 = l + t - self.tl;
        let p_left: i32 = if base < l {
            l - base
        } else {
            base - l
        };
        let p_top: i32 = if base < t {
            t - base
        } else {
            base - t
        };
        let p_corner: i32 = if base < self.tl {
            self.tl - base
        } else {
            base - self.tl
        };
        clamp32(
            if p_left <= p_top && p_left <= p_corner {
                l
            } else if p_top <= p_corner {
                t
            } else {
                self.tl
            },
            0,
            255,
        )
    }

    fn smooth_v(&self, y: usize, x: usize) -> (r: i32)
        requires
            self@.wf(),
            self.kind == PredKind::SmoothV,
            y < self.h,
            x < self.w,
        ensures
            r == pred_pixel(self@, y as int, x as int),
            0 <= r <= 255,
    {
        let a: i32 = smooth_weight(self.h, y);
        let t: i32 = self.top[x];
        let below: i32 = self.left[self.h - 1];
        proof {
            reveal(pred_pixel);
            lemma_product_bound(a as int, t as int, 256, 255);
            lemma_product_bound(256 - a, below as int, 256, 255);
            lemma_pow2i_values();
        }
        clamp32(shr32(a * t + (256 - a) * below + 128, 8), 0, 255)
    }

    fn smooth_h(&self, y: usize, x: usize) -> (r: i32)
        requires
            self@.wf(),
            self.kind == PredKind::SmoothH,
            y < self.h,
            x < self.w,
        ensures
            r == pred_pixel(self@, y as int, x as int),
            0 <= r <= 255,
    {
        let b: i32 = smooth_weight(self.w, x);
        let l: i32 = self.left[y];
        let right: i32 = self.top[self.w - 1];
        proof {
            reveal(pred_pixel);
            lemma_product_bound(b as int, l as int, 256, 255);
            lemma_product_bound(256 - b, right as int, 256, 255);
            lemma_pow2i_values();
        }
        clamp32(shr32(b * l + (256 - b) * right + 128, 8), 0, 255)
    }

    fn smooth(&self, y: usize, x: usize) -> (r: i32)
        requires
            self@.wf(),
            self.kind == PredKind::Smooth,
            y < self.h,
            x < self.w,
        ensures
            r == pred_pixel(self@, y as int, x as int),
            0 <= r <= 255,
    {
        let a: i32 = smooth_weight(self.h, y);
        let b: i32 = smooth_weight(self.w, x);
        let t: i32 = self.top[x];
        let l: i32 = self.left[y];
        let below: i32 = self.left[self.h - 1];
        let right: i32 = self.top[self.w - 1];
        proof {
            reveal(pred_pixel);
            lemma_product_bound(a as int, t as int, 256, 255);
            lemma_product_bound(256 - a, below as int, 256, 255);
            lemma_product_bound(b as int, l as int, 256, 255);
            lemma_product_bound(256 - b, right as int, 256, 255);
            lemma_pow2i_values();
        }
        clamp32(shr32(a * t + (256 - a) * below + b * l + (256 - b) * right + 256, 9), 0, 255)
    }

    fn zone2(&self, y: usize, x: usize) -> (r: i32)
        requires
            self@.wf(),
            self.kind == PredKind::Zone2,
            y < self.h,
            x < self.w,
        ensures
            r == pred_pixel(self@, y as int, x as int),
            0 <= r <= 255,
    {
        proof {
            reveal(pred_pixel);
        }
        let ys: i32 = y as i32 + 1;
        let xs: i32 = x as i32 + 1;
        assert(0 <= ys * self.dx <= 65472) by (nonlinear_arith)
            requires
                1 <= ys <= 64,
                1 <= self.dx <= 1023,
        ;
        assert(0 <= xs * self.dy <= 65472) by (nonlinear_arith)
            requires
                1 <= xs <= 64,
                1 <= self.dy <= 1023,
        ;
        let px: i32 = 64 * (x as i32) - ys * self.dx;
        if px >= -64 {
            sample_edge(self.top, self.up_a, px, Ghost((self.w + self.h) as int))
        } else {
            proof {
                lemma_zone2(self.dx as int, self.dy as int, x as int, y as int);
            }
            let py: i32 = 64 * (y as i32) - xs * self.dy;
            sample_edge(self.left, self.up_l, py, Ghost((self.w + self.h) as int))
        }
    }

    /// Writes the predicted block into the front of `out`.
    pub fn paint(&self, out: &mut [i32])
        requires
            self@.wf(),
            old(out)@.len() >= self.w * self.h,
        ensures
            painted(final(out)@, old(out)@, self@),
    {
        let ghost m = self@;
        let ghost out0 = out@;
        let w: usize = self.w;
        let h: usize = self.h;
        let mut y: usize = 0;
        while y < h
            invariant
                y <= h,
                m == self@,
                m.wf(),
                w == m.w,
                h == m.h,
                out0.len() >= w * h,
                out@.len() == out0.len(),
                forall|k: int| w * h <= k < out0.len() ==> #[trigger] out@[k] == out0[k],
                forall|a: int, b: int|
                    0 <= a < y && 0 <= b < w ==> #[trigger] painted_at(out@, m, a, b),
            decreases h - y,
        {
            let mut x: usize = 0;
            while x < w
                invariant
                    y < h,
                    x <= w,
                    m == self@,
                    m.wf(),
                    w == m.w,
                    h == m.h,
                    out0.len() >= w * h,
                    out@.len() == out0.len(),
                    forall|k: int| w * h <= k < out0.len() ==> #[trigger] out@[k] == out0[k],
                    forall|a: int, b: int|
                        0 <= a < y && 0 <= b < w ==> #[trigger] painted_at(out@, m, a, b),
                    forall|b: int| 0 <= b < x ==> #[trigger] painted_at(out@, m, y as int, b),
                decreases w - x,
            {
                proof {
                    lemma_block_cell(w as int, h as int, y as int, x as int);
                    assert(y * w <= 4096) by (nonlinear_arith)
                        requires
                            y <= 64,
                            w <= 64,
                    ;
                }
                let ghost before = out@;
                let v: i32 = self.pixel(y, x);
                out[y * w + x] = v;
                proof {
                    assert forall|a: int, b: int| 0 <= a < y && 0 <= b < w implies #[trigger] painted_at(
                        out@,
                        m,
                        a,
                        b,
                    ) by {
                        assert(painted_at(before, m, a, b));
                        lemma_block_cell(w as int, h as int, a, b);
                        if a * w + b == y * w + x {
                            lemma_cell_unique(w as int, a, b, y as int, x as int);
                        }
                    }
                    assert forall|b: int| 0 <= b < x + 1 implies #[trigger] painted_at(
                        out@,
                        m,
                        y as int,
                        b,
                    ) by {
                        if b < x {
                            assert(painted_at(before, m, y as int, b));
                            lemma_block_cell(w as int, h as int, y as int, b);
                        }
                    }
                }
                x = x + 1;
            }
            y = y + 1;
        }
    }
}

/// Row `y` and column `x` of the block in front of `s` hold the predicted pixel.
pub open spec fn painted_at(s: Seq<i32>, m: PredModel, y: int, x: int) -> bool {
    &&& s[y * m.w + x] == pred_pixel(m, y, x)
    &&& 0 <= s[y * m.w + x] <= 255
}

/// `new` starts with the predicted block and continues as `old` did.
pub open spec fn painted(new: Seq<i32>, old: Seq<i32>, m: PredModel) -> bool {
    &&& new.len() == old.len()
    &&& forall|k: int| m.w * m.h <= k < old.len() ==> #[trigger] new[k] == old[k]
    &&& forall|y: int, x: int| 0 <= y < m.h && 0 <= x < m.w ==> #[trigger] painted_at(new, m, y, x)
}

// ---------------------------------------------------------------------------
// The mean of the neighbours
// ---------------------------------------------------------------------------

/// The sum of the first `n` entries.
pub open spec fn sum_of(s: Seq<i32>, n: int) -> int
    decreases n,
{
    if n <= 0 {
        0
    } else {
        sum_of(s, n - 1) + s[n - 1]
    }
}

/// The mean of the neighbours that exist: of both sides, of one side, or the middle
/// of the sample range.
#[verifier::opaque]
pub open spec fn dc_value(
    top: Seq<i32>,
    left: Seq<i32>,
    w: int,
    h: int,
    have_above: bool,
    have_left: bool,
) -> int {
    if have_above && have_left {
        (sum_of(left, h) + sum_of(top, w) + (w + h) / 2) / (w + h)
    } else if have_left {
        clampi((sum_of(left, h) + h / 2) / h, 0, 255)
    } else if have_above {
        clampi((sum_of(top, w) + w / 2) / w, 0, 255)
    } else {
        128
    }
}

proof fn lemma_sum(s: Seq<i32>, n: int)
    requires
        samples(s),
        0 <= n <= s.len(),
    ensures
        0 <= sum_of(s, n) <= 255 * n,
    decreases n,
{
    if n > 0 {
        lemma_sum(s, n - 1);
    }
}

/// A rounded mean of samples is a sample.
proof fn lemma_mean(sum: int, n: int)
    requires
        1 <= n <= 128,
        0 <= sum <= 255 * n,
    ensures
        0 <= (sum + n / 2) / n <= 255,
{
    let x = sum + n / 2;
    vstd::arithmetic::div_mod::lemma_fundamental_div_mod(x, n);
    let q = x / n;
    assert(0 <= q <= 255) by (nonlinear_arith)
        requires
            x == n * q + x % n,
            0 <= x % n < n,
            0 <= x < 256 * n,
            1 <= n,
    ;
}

/// The sum of the first `n` entries.
fn sum(s: &[i32], n: usize) -> (r: i32)
    requires
        samples(s@),
        n <= s@.len(),
        n <= 64,
    ensures
        r == sum_of(s@, n as int),
        0 <= r <= 255 * n,
{
    let mut total: i32 = 0;
    let mut i: usize = 0;
    while i < n
        invariant
            i <= n <= s@.len(),
            n <= 64,
            samples(s@),
            total == sum_of(s@, i as int),
            0 <= total <= 255 * i,
        decreases n - i,
    {
        total = total + s[i];
        i = i + 1;
    }
    total
}

/// The mean of the neighbours that exist.
fn mean(top: &[i32], left: &[i32], w: usize, h: usize, have_above: bool, have_left: bool) -> (r: i32)
    requires
        samples(top@),
        samples(left@),
        have_above ==> top@.len() >= w,
        have_left ==> left@.len() >= h,
        1 <= w <= 64,
        1 <= h <= 64,
    ensures
        r == dc_value(top@, left@, w as int, h as int, have_above, have_left),
        0 <= r <= 255,
{
    proof {
        reveal(dc_value);
        if have_left {
            lemma_sum(left@, h as int);
            lemma_mean(sum_of(left@, h as int), h as int);
        }
        if have_above {
            lemma_sum(top@, w as int);
            lemma_mean(sum_of(top@, w as int), w as int);
        }
        if have_left && have_above {
            lemma_mean(sum_of(left@, h as int) + sum_of(top@, w as int), w + h);
        }
    }
    if have_above && have_left {
        let n: i32 = (w + h) as i32;
        (sum(left, h) + sum(top, w) + n / 2) / n
    } else if have_left {
        clip1((sum(left, h) + h as i32 / 2) / h as i32)
    } else if have_above {
        clip1((sum(top, w) + w as i32 / 2) / w as i32)
    } else {
        MID_SAMPLE
    }
}

// ---------------------------------------------------------------------------
// Directional edges
// ---------------------------------------------------------------------------

/// The change along one axis per step of 64 along the other, by angle in degrees.
pub const DR_INTRA_DERIVATIVE: [i32; 90] = [
    0, 0, 0, 1023, 0, 0, 547, 0, 0, 372, 0, 0, 0, 0, 273, 0, 0, 215, 0, 0, 178, 0, 0, 151, 0, 0,
    132, 0, 0, 116, 0, 0, 102, 0, 0, 0, 90, 0, 0, 80, 0, 0, 71, 0, 0, 64, 0, 0, 57, 0, 0, 51, 0, 0,
    45, 0, 0, 0, 40, 0, 0, 35, 0, 0, 31, 0, 0, 27, 0, 0, 23, 0, 0, 19, 0, 0, 15, 0, 0, 0, 0, 11, 0,
    0, 7, 0, 0, 3, 0, 0,
];

/// The angle of a mode, in degrees.
pub open spec fn nominal_angle(mode: int) -> int {
    if mode == D45_PRED {
        45
    } else if mode == D67_PRED {
        67
    } else if mode == D113_PRED {
        113
    } else if mode == D135_PRED {
        135
    } else if mode == D157_PRED {
        157
    } else if mode == D207_PRED {
        203
    } else {
        90
    }
}

/// The horizontal change per row of a ray.
pub open spec fn dx_of(angle: int) -> int {
    if 0 < angle < 90 {
        DR_INTRA_DERIVATIVE[angle] as int
    } else if 90 < angle < 180 {
        DR_INTRA_DERIVATIVE[180 - angle] as int
    } else {
        1
    }
}

/// The vertical change per column of a ray.
pub open spec fn dy_of(angle: int) -> int {
    if 90 < angle < 180 {
        DR_INTRA_DERIVATIVE[angle - 90] as int
    } else if 180 < angle < 270 {
        DR_INTRA_DERIVATIVE[270 - angle] as int
    } else {
        1
    }
}

/// The horizontal change per row of a ray.
pub fn dr_get_dx(angle: i32) -> (r: i32)
    ensures
        r == dx_of(angle as int),
{
    if angle > 0 && angle < 90 {
        DR_INTRA_DERIVATIVE[angle as usize]
    } else if angle > 90 && angle < 180 {
        DR_INTRA_DERIVATIVE[(180 - angle) as usize]
    } else {
        1
    }
}

/// The vertical change per column of a ray.
pub fn dr_get_dy(angle: i32) -> (r: i32)
    ensures
        r == dy_of(angle as int),
{
    if angle > 90 && angle < 180 {
        DR_INTRA_DERIVATIVE[(angle - 90) as usize]
    } else if angle > 180 && angle < 270 {
        DR_INTRA_DERIVATIVE[(270 - angle) as usize]
    } else {
        1
    }
}

/// A directional mode other than the two axes.
pub open spec fn is_diagonal(mode: int) -> bool {
    D45_PRED <= mode <= D67_PRED
}

/// The slopes of the angles that modes reach.
pub proof fn lemma_slopes(mode: int, delta: int)
    requires
        is_diagonal(mode),
        -3 <= delta <= 3,
    ensures
        ({
            let a = nominal_angle(mode) + 3 * delta;
            &&& 36 <= a <= 212
            &&& a != 90 && a != 180
            &&& 1 <= dx_of(a) <= 1023
            &&& 1 <= dy_of(a) <= 1023
            &&& 90 < a < 180 ==> dx_of(a) * dy_of(a) <= 4096
        }),
{
    let a = nominal_angle(mode) + 3 * delta;
    if 90 < a < 180 {
        let x = dx_of(a);
        let y = dy_of(a);
        assert((x == 273 && y == 15) || (x == 215 && y == 19) || (x == 178 && y == 23) || (x == 151
            && y == 27) || (x == 132 && y == 31) || (x == 116 && y == 35) || (x == 102 && y == 40)
            || (x == 90 && y == 45) || (x == 80 && y == 51) || (x == 71 && y == 57) || (x == 64 && y
            == 64) || (x == 57 && y == 71) || (x == 51 && y == 80) || (x == 45 && y == 90) || (x == 40
            && y == 102) || (x == 35 && y == 116) || (x == 31 && y == 132) || (x == 27 && y == 151)
            || (x == 23 && y == 178) || (x == 19 && y == 215) || (x == 15 && y == 273));
        assert(x * y <= 4096) by (nonlinear_arith)
            requires
                (x == 273 && y == 15) || (x == 215 && y == 19) || (x == 178 && y == 23) || (x == 151
                    && y == 27) || (x == 132 && y == 31) || (x == 116 && y == 35) || (x == 102 && y
                    == 40) || (x == 90 && y == 45) || (x == 80 && y == 51) || (x == 71 && y == 57)
                    || (x == 64 && y == 64) || (x == 57 && y == 71) || (x == 51 && y == 80) || (x
                    == 45 && y == 90) || (x == 40 && y == 102) || (x == 35 && y == 116) || (x == 31
                    && y == 132) || (x == 27 && y == 151) || (x == 23 && y == 178) || (x == 19 && y
                    == 215) || (x == 15 && y == 273),
        ;
    }
}

/// How strongly an edge is smoothed, by block size and distance from the axis.
pub open spec fn filter_strength(wh: int, d: int, smooth: bool) -> int {
    if !smooth {
        if wh <= 8 {
            if d >= 56 {
                1
            } else {
                0
            }
        } else if wh <= 16 {
            if d >= 40 {
                1
            } else {
                0
            }
        } else if wh <= 24 {
            if d >= 32 {
                3
            } else if d >= 16 {
                2
            } else if d >= 8 {
                1
            } else {
                0
            }
        } else if wh <= 32 {
            if d >= 32 {
                3
            } else if d >= 4 {
                2
            } else if d >= 1 {
                1
            } else {
                0
            }
        } else if d >= 1 {
            3
        } else {
            0
        }
    } else if wh <= 8 {
        if d >= 64 {
            2
        } else if d >= 40 {
            1
        } else {
            0
        }
    } else if wh <= 16 {
        if d >= 48 {
            2
        } else if d >= 20 {
            1
        } else {
            0
        }
    } else if wh <= 24 {
        if d >= 4 {
            3
        } else {
            0
        }
    } else if d >= 1 {
        3
    } else {
        0
    }
}

/// How strongly an edge is smoothed. `filter_type` is not zero beside smooth
/// neighbours.
pub fn intra_edge_filter_strength(bs0: i32, bs1: i32, delta: i32, filter_type: i32) -> (r: i32)
    requires
        0 <= bs0 <= 0x1_0000,
        0 <= bs1 <= 0x1_0000,
        -1000 <= delta <= 1000,
    ensures
        r == filter_strength(bs0 + bs1, absi(delta as int), filter_type != 0),
        0 <= r <= 3,
{
    let d: i32 = if delta < 0 {
        -delta
    } else {
        delta
    };
    let wh: i32 = bs0 + bs1;
    let mut strength: i32 = 0;
    if filter_type == 0 {
        if wh <= 8 {
            if d >= 56 {
                strength = 1;
            }
        } else if wh <= 16 {
            if d >= 40 {
                strength = 1;
            }
        } else if wh <= 24 {
            if d >= 8 {
                strength = 1;
            }
            if d >= 16 {
                strength = 2;
            }
            if d >= 32 {
                strength = 3;
            }
        } else if wh <= 32 {
            if d >= 1 {
                strength = 1;
            }
            if d >= 4 {
                strength = 2;
            }
            if d >= 32 {
                strength = 3;
            }
        } else if d >= 1 {
            strength = 3;
        }
    } else if wh <= 8 {
        if d >= 40 {
            strength = 1;
        }
        if d >= 64 {
            strength = 2;
        }
    } else if wh <= 16 {
        if d >= 20 {
            strength = 1;
        }
        if d >= 48 {
            strength = 2;
        }
    } else if wh <= 24 {
        if d >= 4 {
            strength = 3;
        }
    } else if d >= 1 {
        strength = 3;
    }
    strength
}

/// Small blocks upsample an edge near, but not on, the axis.
pub open spec fn upsamples(wh: int, d: int, smooth: bool) -> bool {
    0 < d < 40 && wh <= if smooth {
        8int
    } else {
        16
    }
}

/// Whether an edge is upsampled.
pub fn use_intra_edge_upsample(bs0: i32, bs1: i32, delta: i32, filter_type: i32) -> (r: bool)
    requires
        0 <= bs0 <= 0x1_0000,
        0 <= bs1 <= 0x1_0000,
        -1000 <= delta <= 1000,
    ensures
        r == upsamples(bs0 + bs1, absi(delta as int), filter_type != 0),
{
    let d: i32 = if delta < 0 {
        -delta
    } else {
        delta
    };
    let wh: i32 = bs0 + bs1;
    if d == 0 || d >= 40 {
        return false;
    }
    if filter_type != 0 {
        wh <= 8
    } else {
        wh <= 16
    }
}

/// Tap `j` of the smoothing kernel of a strength.
pub open spec fn kernel_tap(strength: int, j: int) -> int {
    if strength == 1 {
        if j == 2 {
            8
        } else if j == 1 || j == 3 {
            4
        } else {
            0
        }
    } else if strength == 2 {
        if j == 2 {
            6
        } else if j == 1 || j == 3 {
            5
        } else {
            0
        }
    } else {
        if j == 0 || j == 4 {
            2
        } else {
            4
        }
    }
}

/// Entry `k` of an edge that starts at the corner, ends clamped to `n` entries.
pub open spec fn edge_entry(buf: Seq<i32>, n: int, k: int) -> int {
    buf[7 + clampi(k, 0, n - 1)] as int
}

/// The smoothed entry `i` of an edge of `n` entries that starts at the corner.
pub open spec fn smoothed(buf: Seq<i32>, n: int, strength: int, i: int) -> int {
    clampi(
        (kernel_tap(strength, 0) * edge_entry(buf, n, i - 2) + kernel_tap(strength, 1) * edge_entry(
            buf,
            n,
            i - 1,
        ) + kernel_tap(strength, 2) * edge_entry(buf, n, i) + kernel_tap(strength, 3) * edge_entry(
            buf,
            n,
            i + 1,
        ) + kernel_tap(strength, 4) * edge_entry(buf, n, i + 2) + 8) / 16,
        0,
        255,
    )
}

/// An edge buffer with the `n` entries from the corner on smoothed, all but the
/// corner itself.
#[verifier::opaque]
pub open spec fn filtered_edge(buf: Seq<i32>, n: int, strength: int) -> Seq<i32> {
    if strength == 0 {
        buf
    } else {
        Seq::new(
            buf.len(),
            |p: int|
                if 8 <= p < 7 + n {
                    smoothed(buf, n, strength, p - 7) as i32
                } else {
                    buf[p]
                },
        )
    }
}

/// Entry `k` of an edge that starts at the corner, ends clamped.
fn entry(buf: &[i32], n: usize, k: i32) -> (r: i32)
    requires
        1 <= n <= 200,
        7 + n <= buf@.len(),
        -10 <= k <= 300,
        samples(buf@),
    ensures
        r == edge_entry(buf@, n as int, k as int),
        0 <= r <= 255,
{
    let c: i32 = clamp32(k, 0, n as i32 - 1);
    buf[(7 + c) as usize]
}

/// Smooths an edge.
pub fn filter_intra_edge(buf: &Vec<i32>, n_px: usize, strength: i32) -> (r: Vec<i32>)
    requires
        1 <= n_px <= 200,
        7 + n_px <= buf@.len(),
        samples(buf@),
        0 <= strength <= 3,
    ensures
        r@ == filtered_edge(buf@, n_px as int, strength as int),
        r@.len() == buf@.len(),
        samples(r@),
{
    proof {
        reveal(filtered_edge);
        lemma_pow2i_values();
    }
    let mut out: Vec<i32> = Vec::new();
    let (k0, k1, k2): (i32, i32, i32) = if strength == 1 {
        (0, 4, 8)
    } else if strength == 2 {
        (0, 5, 6)
    } else {
        (2, 4, 4)
    };
    let mut p: usize = 0;
    while p < buf.len()
        invariant
            p <= buf@.len(),
            1 <= n_px <= 200,
            7 + n_px <= buf@.len(),
            samples(buf@),
            0 <= strength <= 3,
            strength != 0 ==> {
                &&& k0 == kernel_tap(strength as int, 0)
                &&& k0 == kernel_tap(strength as int, 4)
                &&& k1 == kernel_tap(strength as int, 1)
                &&& k1 == kernel_tap(strength as int, 3)
                &&& k2 == kernel_tap(strength as int, 2)
            },
            0 <= k0 <= 2,
            4 <= k1 <= 5,
            4 <= k2 <= 8,
            pow2i(4) == 16,
            out@.len() == p,
            samples(out@),
            forall|k: int|
                0 <= k < p ==> #[trigger] out@[k] == filtered_edge(
                    buf@,
                    n_px as int,
                    strength as int,
                )[k],
        decreases buf@.len() - p,
    {
        proof {
            reveal(filtered_edge);
        }
        if strength != 0 && p >= 8 && p < 7 + n_px {
            let i: i32 = p as i32 - 7;
            let a: i32 = entry(buf, n_px, i - 2);
            let b: i32 = entry(buf, n_px, i - 1);
            let c: i32 = entry(buf, n_px, i);
            let d: i32 = entry(buf, n_px, i + 1);
            let e: i32 = entry(buf, n_px, i + 2);
            proof {
                lemma_product_bound(k0 as int, a as int, 8, 255);
                lemma_product_bound(k1 as int, b as int, 8, 255);
                lemma_product_bound(k2 as int, c as int, 8, 255);
                lemma_product_bound(k1 as int, d as int, 8, 255);
                lemma_product_bound(k0 as int, e as int, 8, 255);
            }
            let s: i32 = k0 * a + k1 * b + k2 * c + k1 * d + k0 * e;
            let v: i32 = clamp32(shr32(s + 8, 4), 0, 255);
            assert(v == smoothed(buf@, n_px as int, strength as int, p - 7));
            out.push(v);
        } else {
            out.push(buf[p]);
        }
        p = p + 1;
    }
    assert(out@ =~= filtered_edge(buf@, n_px as int, strength as int));
    out
}

/// The corner blended with its two neighbours.
pub open spec fn corner_of(above: Seq<i32>, left: Seq<i32>) -> int {
    (5 * left[8] + 6 * above[7] + 5 * above[8] + 8) / 16
}

/// Blends the corner of both edges with its two neighbours.
pub fn filter_intra_edge_corner(above: &mut Vec<i32>, left: &mut Vec<i32>)
    requires
        old(above)@.len() >= 9,
        old(left)@.len() >= 9,
        samples(old(above)@),
        samples(old(left)@),
    ensures
        final(above)@ == old(above)@.update(7, corner_of(old(above)@, old(left)@) as i32),
        final(left)@ == old(left)@.update(7, corner_of(old(above)@, old(left)@) as i32),
        samples(final(above)@),
        samples(final(left)@),
{
    proof {
        lemma_pow2i_values();
    }
    let a: i32 = left[8];
    let b: i32 = above[7];
    let c: i32 = above[8];
    let s: i32 = shr32(5 * a + 6 * b + 5 * c + 8, 4);
    above[7] = s;
    left[7] = s;
}

/// Entry `k` of an edge of `n` entries with the corner twice before it and its last
/// entry once behind it.
pub open spec fn extended(buf: Seq<i32>, n: int, corner: int, k: int) -> int {
    if k <= 1 {
        corner
    } else if k <= n + 1 {
        buf[8 + k - 2] as int
    } else {
        buf[8 + n - 1] as int
    }
}

/// The entry of an upsampled edge between its entries `i - 1` and `i`.
pub open spec fn between(buf: Seq<i32>, n: int, corner: int, i: int) -> int {
    clampi(
        (9 * extended(buf, n, corner, i + 1) + 9 * extended(buf, n, corner, i + 2) - extended(
            buf,
            n,
            corner,
            i,
        ) - extended(buf, n, corner, i + 3) + 8) / 16,
        0,
        255,
    )
}

/// An edge buffer with twice the entries: the old ones at even places, new ones in
/// between.
#[verifier::opaque]
pub open spec fn upsampled_edge(buf: Seq<i32>, n: int, corner: int) -> Seq<i32> {
    Seq::new(
        buf.len(),
        |p: int|
            if p == 6 {
                corner as i32
            } else if 7 <= p < 7 + 2 * n {
                if p % 2 == 1 {
                    between(buf, n, corner, (p - 7) / 2) as i32
                } else {
                    buf[8 + (p - 8) / 2]
                }
            } else {
                buf[p]
            },
    )
}

/// Entry `k` of an extended edge.
fn extend(buf: &[i32], n: usize, corner: i32, k: usize) -> (r: i32)
    requires
        1 <= n <= 64,
        8 + n <= buf@.len(),
        k <= 100,
        samples(buf@),
        0 <= corner <= 255,
    ensures
        r == extended(buf@, n as int, corner as int, k as int),
        0 <= r <= 255,
{
    if k <= 1 {
        corner
    } else if k <= n + 1 {
        buf[8 + k - 2]
    } else {
        buf[8 + n - 1]
    }
}

/// Upsamples an edge.
pub fn upsample_intra_edge(buf: &Vec<i32>, n_px: usize, corner: i32) -> (r: Vec<i32>)
    requires
        1 <= n_px <= 64,
        8 + 2 * n_px <= buf@.len(),
        samples(buf@),
        0 <= corner <= 255,
    ensures
        r@ == upsampled_edge(buf@, n_px as int, corner as int),
        r@.len() == buf@.len(),
        samples(r@),
{
    let mut out: Vec<i32> = Vec::new();
    let mut p: usize = 0;
    proof {
        lemma_pow2i_values();
    }
    while p < buf.len()
        invariant
            p <= buf@.len(),
            1 <= n_px <= 64,
            8 + 2 * n_px <= buf@.len(),
            samples(buf@),
            0 <= corner <= 255,
            pow2i(4) == 16,
            out@.len() == p,
            samples(out@),
            forall|k: int|
                0 <= k < p ==> #[trigger] out@[k] == upsampled_edge(
                    buf@,
                    n_px as int,
                    corner as int,
                )[k],
        decreases buf@.len() - p,
    {
        proof {
            reveal(upsampled_edge);
        }
        if p == 6 {
            out.push(corner);
        } else if p >= 7 && p < 7 + 2 * n_px {
            if p % 2 == 1 {
                let i: usize = (p - 7) / 2;
                let a: i32 = extend(buf, n_px, corner, i);
                let b: i32 = extend(buf, n_px, corner, i + 1);
                let c: i32 = extend(buf, n_px, corner, i + 2);
                let d: i32 = extend(buf, n_px, corner, i + 3);
                out.push(clamp32(shr32(9 * b + 9 * c - a - d + 8, 4), 0, 255));
            } else {
                out.push(buf[8 + (p - 8) / 2]);
            }
        } else {
            out.push(buf[p]);
        }
        p = p + 1;
    }
    assert(out@ =~= upsampled_edge(buf@, n_px as int, corner as int)) by {
        reveal(upsampled_edge);
    }
    out
}

/// The edge buffer of a side of `m` samples of a block with sides that add up to
/// `n`: the corner before it, the last sample repeated behind it.
pub open spec fn edge_buffer(side: Seq<i32>, m: int, tl: int, n: int) -> Seq<i32> {
    Seq::new(
        (16 + 2 * n) as nat,
        |p: int|
            if p < 8 || p >= 8 + 2 * n {
                tl as i32
            } else if p < 8 + m {
                side[p - 8]
            } else {
                side[m - 1]
            },
    )
}

/// Builds the edge buffer of a side.
fn build_edge(side: &[i32], m: usize, tl: i32, n: usize) -> (r: Vec<i32>)
    requires
        1 <= m <= n <= 128,
        m <= side@.len(),
        samples(side@),
        0 <= tl <= 255,
    ensures
        r@ == edge_buffer(side@, m as int, tl as int, n as int),
        samples(r@),
{
    let mut out: Vec<i32> = Vec::new();
    let mut p: usize = 0;
    while p < 16 + 2 * n
        invariant
            p <= 16 + 2 * n,
            1 <= m <= n <= 128,
            m <= side@.len(),
            samples(side@),
            0 <= tl <= 255,
            out@.len() == p,
            samples(out@),
            forall|k: int|
                0 <= k < p ==> #[trigger] out@[k] == edge_buffer(
                    side@,
                    m as int,
                    tl as int,
                    n as int,
                )[k],
        decreases 16 + 2 * n - p,
    {
        if p < 8 || p >= 8 + 2 * n {
            out.push(tl);
        } else if p < 8 + m {
            out.push(side[p - 8]);
        } else {
            out.push(side[m - 1]);
        }
        p = p + 1;
    }
    assert(out@ =~= edge_buffer(side@, m as int, tl as int, n as int));
    out
}

/// Both edges of a directional predictor, and which of them are upsampled.
pub struct EdgesModel {
    pub above: Seq<i32>,
    pub left: Seq<i32>,
    pub up_a: bool,
    pub up_l: bool,
}

/// The edges of a directional predictor at an angle. Where edges are filtered, the
/// corner is blended for large blocks in the second zone, then each edge in use is
/// smoothed, then upsampled.
#[verifier::opaque]
pub open spec fn edges_of(
    top: Seq<i32>,
    left: Seq<i32>,
    tl: int,
    w: int,
    h: int,
    angle: int,
    filter: bool,
) -> EdgesModel {
    let n = w + h;
    let a0 = edge_buffer(top, w, tl, n);
    let l0 = edge_buffer(left, h, tl, n);
    if !filter {
        EdgesModel { above: a0, left: l0, up_a: false, up_l: false }
    } else {
        let uses_above = angle < 180;
        let uses_left = angle >= 90;
        let blend = uses_above && uses_left && n >= 24;
        let corner = corner_of(a0, l0) as i32;
        let a1 = if blend {
            a0.update(7, corner)
        } else {
            a0
        };
        let l1 = if blend {
            l0.update(7, corner)
        } else {
            l0
        };
        let na = if angle < 90 {
            n
        } else {
            w
        };
        let nl = if angle >= 180 {
            n
        } else {
            h
        };
        let a2 = if uses_above {
            filtered_edge(a1, na + 1, filter_strength(n, absi(angle - 90), false))
        } else {
            a1
        };
        let l2 = if uses_left {
            filtered_edge(l1, nl + 1, filter_strength(n, absi(angle - 180), false))
        } else {
            l1
        };
        let up_a = uses_above && upsamples(n, absi(angle - 90), false);
        let up_l = uses_left && upsamples(n, absi(angle - 180), false);
        EdgesModel {
            above: if up_a {
                upsampled_edge(a2, na, tl)
            } else {
                a2
            },
            left: if up_l {
                upsampled_edge(l2, nl, tl)
            } else {
                l2
            },
            up_a,
            up_l,
        }
    }
}

/// Builds the edges of a directional predictor.
fn build_edges(
    top: &[i32],
    left: &[i32],
    tl: i32,
    w: usize,
    h: usize,
    angle: i32,
    filter: bool,
) -> (r: (Vec<i32>, Vec<i32>, bool, bool))
    requires
        1 <= w <= 64,
        1 <= h <= 64,
        w <= top@.len(),
        h <= left@.len(),
        samples(top@),
        samples(left@),
        0 <= tl <= 255,
        0 <= angle <= 270,
    ensures
        ({
            let e = edges_of(top@, left@, tl as int, w as int, h as int, angle as int, filter);
            &&& r.0@ == e.above
            &&& r.1@ == e.left
            &&& r.2 == e.up_a
            &&& r.3 == e.up_l
        }),
        r.0@.len() == 16 + 2 * (w + h),
        r.1@.len() == 16 + 2 * (w + h),
        samples(r.0@),
        samples(r.1@),
{
    proof {
        reveal(edges_of);
    }
    let n: usize = w + h;
    let mut above: Vec<i32> = build_edge(top, w, tl, n);
    let mut lcol: Vec<i32> = build_edge(left, h, tl, n);
    if !filter {
        return (above, lcol, false, false);
    }
    let uses_above: bool = angle < 180;
    let uses_left: bool = angle >= 90;
    if uses_above && uses_left && n >= 24 {
        filter_intra_edge_corner(&mut above, &mut lcol);
    }
    let na: usize = if angle < 90 {
        n
    } else {
        w
    };
    let nl: usize = if angle >= 180 {
        n
    } else {
        h
    };
    if uses_above {
        let strength: i32 = intra_edge_filter_strength(w as i32, h as i32, angle - 90, 0);
        above = filter_intra_edge(&above, na + 1, strength);
    }
    if uses_left {
        let strength: i32 = intra_edge_filter_strength(h as i32, w as i32, angle - 180, 0);
        lcol = filter_intra_edge(&lcol, nl + 1, strength);
    }
    let up_a: bool = uses_above && use_intra_edge_upsample(w as i32, h as i32, angle - 90, 0);
    if up_a {
        above = upsample_intra_edge(&above, na, tl);
    }
    let up_l: bool = uses_left && use_intra_edge_upsample(h as i32, w as i32, angle - 180, 0);
    if up_l {
        lcol = upsample_intra_edge(&lcol, nl, tl);
    }
    (above, lcol, up_a, up_l)
}

/// The directional predictor of a mode with an angle offset.
pub open spec fn directional_model(
    mode: int,
    top: Seq<i32>,
    left: Seq<i32>,
    tl: int,
    w: int,
    h: int,
    filter: bool,
    delta: int,
) -> PredModel {
    let angle = nominal_angle(mode) + 3 * delta;
    let e = edges_of(top, left, tl, w, h, angle, filter);
    PredModel {
        kind: if angle < 90 {
            PredKind::Zone1
        } else if angle < 180 {
            PredKind::Zone2
        } else {
            PredKind::Zone3
        },
        top: e.above,
        left: e.left,
        tl,
        w,
        h,
        value: 0,
        dx: dx_of(angle),
        dy: dy_of(angle),
        up_a: e.up_a,
        up_l: e.up_l,
    }
}

/// Predicts a block along the angle of a mode. Edges are filtered for luma where
/// the sequence enables it.
pub fn predict_directional(
    mode: u8,
    top: &[i32],
    left: &[i32],
    tl: i32,
    w: usize,
    h: usize,
    out: &mut [i32],
    enable_intra_edge_filter: bool,
    is_luma: bool,
    angle_delta: i32,
)
    requires
        is_diagonal(mode as int),
        -3 <= angle_delta <= 3,
        1 <= w <= 64,
        1 <= h <= 64,
        w <= top@.len(),
        h <= left@.len(),
        samples(top@),
        samples(left@),
        0 <= tl <= 255,
        old(out)@.len() >= w * h,
    ensures
        painted(
            final(out)@,
            old(out)@,
            directional_model(
                mode as int,
                top@,
                left@,
                tl as int,
                w as int,
                h as int,
                enable_intra_edge_filter && is_luma,
                angle_delta as int,
            ),
        ),
{
    let nominal: i32 = if mode == D45_PRED {
        45
    } else if mode == D67_PRED {
        67
    } else if mode == D113_PRED {
        113
    } else if mode == D135_PRED {
        135
    } else if mode == D157_PRED {
        157
    } else {
        203
    };
    let angle: i32 = nominal + 3 * angle_delta;
    proof {
        lemma_slopes(mode as int, angle_delta as int);
    }
    let filter: bool = enable_intra_edge_filter && is_luma;
    let (above, lcol, up_a, up_l): (Vec<i32>, Vec<i32>, bool, bool) = build_edges(
        top,
        left,
        tl,
        w,
        h,
        angle,
        filter,
    );
    let kind: PredKind = if angle < 90 {
        PredKind::Zone1
    } else if angle < 180 {
        PredKind::Zone2
    } else {
        PredKind::Zone3
    };
    let p: Predictor = Predictor {
        kind,
        top: above.as_slice(),
        left: lcol.as_slice(),
        tl,
        w,
        h,
        value: 0,
        dx: dr_get_dx(angle),
        dy: dr_get_dy(angle),
        up_a,
        up_l,
    };
    p.paint(out);
}

// ---------------------------------------------------------------------------
// Modes
// ---------------------------------------------------------------------------

/// A predictor that reads the neighbours as they are.
pub open spec fn plain_model(
    kind: PredKind,
    top: Seq<i32>,
    left: Seq<i32>,
    tl: int,
    w: int,
    h: int,
    value: int,
) -> PredModel {
    PredModel { kind, top, left, tl, w, h, value, dx: 1, dy: 1, up_a: false, up_l: false }
}

/// Predicts a block by a predictor that reads the neighbours as they are.
fn predict_plain(
    kind: PredKind,
    top: &[i32],
    left: &[i32],
    tl: i32,
    w: usize,
    h: usize,
    value: i32,
    out: &mut [i32],
)
    requires
        plain_model(kind, top@, left@, tl as int, w as int, h as int, value as int).wf(),
        old(out)@.len() >= w * h,
    ensures
        painted(
            final(out)@,
            old(out)@,
            plain_model(kind, top@, left@, tl as int, w as int, h as int, value as int),
        ),
{
    let p: Predictor = Predictor {
        kind,
        top,
        left,
        tl,
        w,
        h,
        value,
        dx: 1,
        dy: 1,
        up_a: false,
        up_l: false,
    };
    p.paint(out);
}

/// The neighbours of a block: enough samples on both sides.
pub open spec fn neighbours_ok(top: Seq<i32>, left: Seq<i32>, tl: int, w: int, h: int) -> bool {
    &&& 1 <= w <= 64
    &&& 1 <= h <= 64
    &&& w <= top.len()
    &&& h <= left.len()
    &&& samples(top)
    &&& samples(left)
    &&& 0 <= tl <= 255
}

/// Predicts a block by the mean of its neighbours.
pub fn predict_dc(
    top: &[i32],
    left: &[i32],
    w: usize,
    h: usize,
    have_above: bool,
    have_left: bool,
    out: &mut [i32],
)
    requires
        1 <= w <= 64,
        1 <= h <= 64,
        have_above ==> w <= top@.len(),
        have_left ==> h <= left@.len(),
        samples(top@),
        samples(left@),
        old(out)@.len() >= w * h,
    ensures
        painted(
            final(out)@,
            old(out)@,
            plain_model(
                PredKind::Flat,
                top@,
                left@,
                0,
                w as int,
                h as int,
                dc_value(top@, left@, w as int, h as int, have_above, have_left),
            ),
        ),
{
    let dc: i32 = mean(top, left, w, h, have_above, have_left);
    predict_plain(PredKind::Flat, top, left, 0, w, h, dc, out);
}

/// Predicts a block by the row above.
pub fn predict_vertical(top: &[i32], left: &[i32], w: usize, h: usize, out: &mut [i32])
    requires
        neighbours_ok(top@, left@, 0, w as int, h as int),
        old(out)@.len() >= w * h,
    ensures
        painted(
            final(out)@,
            old(out)@,
            plain_model(PredKind::Vertical, top@, left@, 0, w as int, h as int, 0),
        ),
{
    predict_plain(PredKind::Vertical, top, left, 0, w, h, 0, out);
}

/// Predicts a block by the column to the left.
pub fn predict_horizontal(top: &[i32], left: &[i32], w: usize, h: usize, out: &mut [i32])
    requires
        neighbours_ok(top@, left@, 0, w as int, h as int),
        old(out)@.len() >= w * h,
    ensures
        painted(
            final(out)@,
            old(out)@,
            plain_model(PredKind::Horizontal, top@, left@, 0, w as int, h as int, 0),
        ),
{
    predict_plain(PredKind::Horizontal, top, left, 0, w, h, 0, out);
}

/// Predicts every pixel by the neighbour nearest to the plane through the corner.
pub fn predict_paeth(top: &[i32], left: &[i32], tl: i32, w: usize, h: usize, out: &mut [i32])
    requires
        neighbours_ok(top@, left@, tl as int, w as int, h as int),
        old(out)@.len() >= w * h,
    ensures
        painted(
            final(out)@,
            old(out)@,
            plain_model(PredKind::Paeth, top@, left@, tl as int, w as int, h as int, 0),
        ),
{
    predict_plain(PredKind::Paeth, top, left, tl, w, h, 0, out);
}

/// Predicts a block between the row above and the last sample of the column.
pub fn predict_smooth_v(top: &[i32], left: &[i32], tl: i32, w: usize, h: usize, out: &mut [i32])
    requires
        neighbours_ok(top@, left@, tl as int, w as int, h as int),
        side_ok(w as int),
        side_ok(h as int),
        old(out)@.len() >= w * h,
    ensures
        painted(
            final(out)@,
            old(out)@,
            plain_model(PredKind::SmoothV, top@, left@, tl as int, w as int, h as int, 0),
        ),
{
    predict_plain(PredKind::SmoothV, top, left, tl, w, h, 0, out);
}

/// Predicts a block between the column and the last sample of the row above.
pub fn predict_smooth_h(top: &[i32], left: &[i32], tl: i32, w: usize, h: usize, out: &mut [i32])
    requires
        neighbours_ok(top@, left@, tl as int, w as int, h as int),
        side_ok(w as int),
        side_ok(h as int),
        old(out)@.len() >= w * h,
    ensures
        painted(
            final(out)@,
            old(out)@,
            plain_model(PredKind::SmoothH, top@, left@, tl as int, w as int, h as int, 0),
        ),
{
    predict_plain(PredKind::SmoothH, top, left, tl, w, h, 0, out);
}

/// Predicts a block between all four sides.
pub fn predict_smooth(top: &[i32], left: &[i32], tl: i32, w: usize, h: usize, out: &mut [i32])
    requires
        neighbours_ok(top@, left@, tl as int, w as int, h as int),
        side_ok(w as int),
        side_ok(h as int),
        old(out)@.len() >= w * h,
    ensures
        painted(
            final(out)@,
            old(out)@,
            plain_model(PredKind::Smooth, top@, left@, tl as int, w as int, h as int, 0),
        ),
{
    predict_plain(PredKind::Smooth, top, left, tl, w, h, 0, out);
}

/// The neighbours of a transform block, and which sides of it exist.
pub struct BlockBorders {
    pub top: Vec<i32>,
    pub left: Vec<i32>,
    pub tl: i32,
    pub have_above: bool,
    pub have_left: bool,
}

/// The model of the neighbours.
#[verifier::ext_equal]
pub struct BordersModel {
    pub top: Seq<i32>,
    pub left: Seq<i32>,
    pub tl: int,
    pub have_above: bool,
    pub have_left: bool,
}

impl View for BlockBorders {
    type V = BordersModel;

    open spec fn view(&self) -> BordersModel {
        BordersModel {
            top: self.top@,
            left: self.left@,
            tl: self.tl as int,
            have_above: self.have_above,
            have_left: self.have_left,
        }
    }
}

/// The predictor of a mode; modes without one of their own take the mean.
pub open spec fn intra_model(
    mode: int,
    b: BordersModel,
    w: int,
    h: int,
    filter: bool,
    delta: int,
) -> PredModel {
    if mode == V_PRED {
        plain_model(PredKind::Vertical, b.top, b.left, 0, w, h, 0)
    } else if mode == H_PRED {
        plain_model(PredKind::Horizontal, b.top, b.left, 0, w, h, 0)
    } else if mode == PAETH {
        plain_model(PredKind::Paeth, b.top, b.left, b.tl, w, h, 0)
    } else if mode == SMOOTH_V {
        plain_model(PredKind::SmoothV, b.top, b.left, b.tl, w, h, 0)
    } else if mode == SMOOTH_H {
        plain_model(PredKind::SmoothH, b.top, b.left, b.tl, w, h, 0)
    } else if mode == SMOOTH {
        plain_model(PredKind::Smooth, b.top, b.left, b.tl, w, h, 0)
    } else if is_diagonal(mode) {
        directional_model(mode, b.top, b.left, b.tl, w, h, filter, delta)
    } else {
        plain_model(
            PredKind::Flat,
            b.top,
            b.left,
            0,
            w,
            h,
            dc_value(b.top, b.left, w, h, b.have_above, b.have_left),
        )
    }
}

/// Predicts a block by a mode.
pub fn predict_intra_block(
    mode: u8,
    borders: &BlockBorders,
    w: usize,
    h: usize,
    out: &mut [i32],
    enable_intra_edge_filter: bool,
    is_luma: bool,
    angle_delta: i32,
)
    requires
        neighbours_ok(borders@.top, borders@.left, borders@.tl, w as int, h as int),
        side_ok(w as int),
        side_ok(h as int),
        -3 <= angle_delta <= 3,
        old(out)@.len() >= w * h,
    ensures
        painted(
            final(out)@,
            old(out)@,
            intra_model(
                mode as int,
                borders@,
                w as int,
                h as int,
                enable_intra_edge_filter && is_luma,
                angle_delta as int,
            ),
        ),
{
    let top: &[i32] = borders.top.as_slice();
    let left: &[i32] = borders.left.as_slice();
    let tl: i32 = borders.tl;
    if mode == V_PRED {
        predict_vertical(top, left, w, h, out);
    } else if mode == H_PRED {
        predict_horizontal(top, left, w, h, out);
    } else if mode == PAETH {
        predict_paeth(top, left, tl, w, h, out);
    } else if mode == SMOOTH_V {
        predict_smooth_v(top, left, tl, w, h, out);
    } else if mode == SMOOTH_H {
        predict_smooth_h(top, left, tl, w, h, out);
    } else if mode == SMOOTH {
        predict_smooth(top, left, tl, w, h, out);
    } else if D45_PRED <= mode && mode <= D67_PRED {
        predict_directional(
            mode,
            top,
            left,
            tl,
            w,
            h,
            out,
            enable_intra_edge_filter,
            is_luma,
            angle_delta,
        );
    } else {
        predict_dc(top, left, w, h, borders.have_above, borders.have_left, out);
    }
}

// ---------------------------------------------------------------------------
// Recursive filter prediction
// ---------------------------------------------------------------------------

/// The taps of the recursive filters, by mode, pixel of a four by two group and
/// neighbour.
pub const INTRA_FILTER_TAPS: [[[i32; 7]; 8]; 5] = [
    [
        [-6, 10, 0, 0, 0, 12, 0],
        [-5, 2, 10, 0, 0, 9, 0],
        [-3, 1, 1, 10, 0, 7, 0],
        [-3, 1, 1, 2, 10, 5, 0],
        [-4, 6, 0, 0, 0, 2, 12],
        [-3, 2, 6, 0, 0, 2, 9],
        [-3, 2, 2, 6, 0, 2, 7],
        [-3, 1, 2, 2, 6, 3, 5],
    ],
    [
        [-10, 16, 0, 0, 0, 10, 0],
        [-6, 0, 16, 0, 0, 6, 0],
        [-4, 0, 0, 16, 0, 4, 0],
        [-2, 0, 0, 0, 16, 2, 0],
        [-10, 16, 0, 0, 0, 0, 10],
        [-6, 0, 16, 0, 0, 0, 6],
        [-4, 0, 0, 16, 0, 0, 4],
        [-2, 0, 0, 0, 16, 0, 2],
    ],
    [
        [-8, 8, 0, 0, 0, 16, 0],
        [-8, 0, 8, 0, 0, 16, 0],
        [-8, 0, 0, 8, 0, 16, 0],
        [-8, 0, 0, 0, 8, 16, 0],
        [-4, 4, 0, 0, 0, 0, 16],
        [-4, 0, 4, 0, 0, 0, 16],
        [-4, 0, 0, 4, 0, 0, 16],
        [-4, 0, 0, 0, 4, 0, 16],
    ],
    [
        [-2, 8, 0, 0, 0, 10, 0],
        [-1, 3, 8, 0, 0, 6, 0],
        [-1, 2, 3, 8, 0, 4, 0],
        [0, 1, 2, 3, 8, 2, 0],
        [-1, 4, 0, 0, 0, 3, 10],
        [-1, 3, 4, 0, 0, 4, 6],
        [-1, 2, 3, 4, 0, 4, 4],
        [-1, 2, 2, 3, 4, 3, 3],
    ],
    [
        [-12, 14, 0, 0, 0, 14, 0],
        [-10, 0, 14, 0, 0, 12, 0],
        [-9, 0, 0, 14, 0, 11, 0],
        [-8, 0, 0, 0, 14, 10, 0],
        [-10, 12, 0, 0, 0, 0, 14],
        [-9, 1, 12, 0, 0, 0, 12],
        [-8, 0, 0, 12, 0, 1, 11],
        [-7, 0, 0, 1, 12, 1, 9],
    ],
];

/// The neighbours that recursive filtering starts from.
pub struct FilterModel {
    pub mode: int,
    pub top: Seq<i32>,
    pub left: Seq<i32>,
    pub tl: int,
}

/// Entry `i` of the row above, the corner before it.
pub open spec fn above_entry(m: FilterModel, i: int) -> int {
    if i < 0 {
        m.tl
    } else {
        m.top[i] as int
    }
}

/// Entry `i` of the column to the left, the corner before it.
pub open spec fn left_entry(m: FilterModel, i: int) -> int {
    if i < 0 {
        m.tl
    } else {
        m.left[i] as int
    }
}

/// Neighbour `i` of the group in row `r` and column `c` of groups: five above it,
/// from its corner on, and two to its left.
pub open spec fn group_neighbour(m: FilterModel, r: int, c: int, i: int) -> int
    decreases r, c, 0int,
{
    if r < 0 || c < 0 {
        0
    } else if i < 5 {
        if r == 0 {
            above_entry(m, 4 * c + i - 1)
        } else if c == 0 && i <= 0 {
            left_entry(m, 2 * r - 1)
        } else {
            filter_pixel(m, 2 * r - 1, 4 * c + i - 1)
        }
    } else if c == 0 {
        left_entry(m, 2 * r + i - 5)
    } else if i <= 6 {
        filter_pixel(m, 2 * r + i - 5, 4 * c - 1)
    } else {
        0
    }
}

/// The sum of the neighbours of a group times the taps of pixel `k` of it.
pub open spec fn group_sum(m: FilterModel, r: int, c: int, k: int) -> int
    decreases r, c, 1int,
{
    if r < 0 || c < 0 {
        0
    } else {
        let t = INTRA_FILTER_TAPS[m.mode][k];
        t[0] * group_neighbour(m, r, c, 0) + t[1] * group_neighbour(m, r, c, 1) + t[2]
            * group_neighbour(m, r, c, 2) + t[3] * group_neighbour(m, r, c, 3) + t[4]
            * group_neighbour(m, r, c, 4) + t[5] * group_neighbour(m, r, c, 5) + t[6]
            * group_neighbour(m, r, c, 6)
    }
}

/// A sixteenth of a number, rounded to nearest away from zero, as a sample.
pub open spec fn filter_round(x: int) -> int {
    clampi(
        if x >= 0 {
            (x + 8) / 16
        } else {
            -((8 - x) / 16)
        },
        0,
        255,
    )
}

/// The pixel at row `y` and column `x`: a filter of the neighbours of its group of
/// four by two, which are pixels of earlier groups.
pub open spec fn filter_pixel(m: FilterModel, y: int, x: int) -> int
    decreases y / 2, x / 4, 2int,
{
    if y < 0 || x < 0 {
        0
    } else {
        filter_round(group_sum(m, y / 2, x / 4, 4 * (y % 2) + x % 4))
    }
}

proof fn lemma_taps()
    ensures
        forall|m: int, k: int, i: int|
            0 <= m < 5 && 0 <= k < 8 && 0 <= i < 7 ==> -32 <= #[trigger] INTRA_FILTER_TAPS[m][k][i]
                <= 32,
{
}

/// Row `y` and column `x` of the block in front of `s` hold the filtered pixel.
pub open spec fn filtered_at(s: Seq<i32>, m: FilterModel, w: int, y: int, x: int) -> bool {
    &&& s[y * w + x] == filter_pixel(m, y, x)
    &&& 0 <= s[y * w + x] <= 255
}

/// `new` starts with the filtered block of `w` by `h` pixels and continues as `old`
/// did.
pub open spec fn filter_painted(new: Seq<i32>, old: Seq<i32>, m: FilterModel, w: int, h: int) -> bool {
    &&& new.len() == old.len()
    &&& forall|k: int| w * h <= k < old.len() ==> #[trigger] new[k] == old[k]
    &&& forall|y: int, x: int| 0 <= y < h && 0 <= x < w ==> #[trigger] filtered_at(new, m, w, y, x)
}

/// The pixels of all groups before the one in row `r` and column `c` are done.
spec fn groups_done(s: Seq<i32>, m: FilterModel, w: int, h: int, r: int, c: int) -> bool {
    forall|y: int, x: int|
        0 <= y < h && 0 <= x < w && (y / 2 < r || (y / 2 == r && x / 4 < c))
            ==> #[trigger] filtered_at(s, m, w, y, x)
}

/// A pixel of the block in front of `s`.
fn done_pixel(s: &[i32], w: usize, h: usize, y: usize, x: usize) -> (r: i32)
    requires
        w <= 64,
        h <= 64,
        y < h,
        x < w,
        s@.len() >= w * h,
    ensures
        r == s@[y * w + x],
{
    proof {
        lemma_block_cell(w as int, h as int, y as int, x as int);
        assert(y * w <= 4096) by (nonlinear_arith)
            requires
                y <= 64,
                w <= 64,
        ;
    }
    s[y * w + x]
}

/// The neighbours of a group.
fn gather(
    top: &[i32],
    left: &[i32],
    tl: i32,
    w: usize,
    h: usize,
    out: &[i32],
    r: usize,
    c: usize,
    Ghost(m): Ghost<FilterModel>,
) -> (p: [i32; 7])
    requires
        neighbours_ok(top@, left@, tl as int, w as int, h as int),
        m.top == top@,
        m.left == left@,
        m.tl == tl,
        w % 4 == 0,
        h % 2 == 0,
        2 * r + 1 < h,
        4 * c + 3 < w,
        out@.len() >= w * h,
        groups_done(out@, m, w as int, h as int, r as int, c as int),
    ensures
        forall|i: int|
            0 <= i < 7 ==> #[trigger] p[i] == group_neighbour(m, r as int, c as int, i) && 0 <= p[i]
                <= 255,
{
    let mut p: [i32; 7] = [0; 7];
    let mut i: usize = 0;
    while i < 7
        invariant
            i <= 7,
            neighbours_ok(top@, left@, tl as int, w as int, h as int),
            m.top == top@,
            m.left == left@,
            m.tl == tl,
            w % 4 == 0,
            h % 2 == 0,
            2 * r + 1 < h,
            4 * c + 3 < w,
            out@.len() >= w * h,
            groups_done(out@, m, w as int, h as int, r as int, c as int),
            forall|k: int|
                0 <= k < i ==> #[trigger] p[k] == group_neighbour(m, r as int, c as int, k) && 0
                    <= p[k] <= 255,
        decreases 7 - i,
    {
        let v: i32 = if i < 5 {
            if r == 0 {
                if 4 * c + i == 0 {
                    tl
                } else {
                    top[4 * c + i - 1]
                }
            } else if c == 0 && i == 0 {
                left[2 * r - 1]
            } else {
                assert(filtered_at(out@, m, w as int, 2 * r - 1, 4 * c + i - 1));
                done_pixel(out, w, h, 2 * r - 1, 4 * c + i - 1)
            }
        } else if c == 0 {
            left[2 * r + i - 5]
        } else {
            assert(filtered_at(out@, m, w as int, 2 * r + i - 5, 4 * c - 1));
            done_pixel(out, w, h, 2 * r + i - 5, 4 * c - 1)
        };
        p[i] = v;
        i = i + 1;
    }
    p
}

/// The filtered pixel `k` of a group.
fn filter_group(p: &[i32; 7], mode: usize, k: usize, Ghost(m): Ghost<FilterModel>, Ghost(r): Ghost<int>, Ghost(c): Ghost<int>) -> (v: i32)
    requires
        mode < 5,
        k < 8,
        m.mode == mode,
        r >= 0,
        c >= 0,
        forall|i: int|
            0 <= i < 7 ==> #[trigger] p[i] == group_neighbour(m, r, c, i) && 0 <= p[i] <= 255,
    ensures
        v == filter_round(group_sum(m, r, c, k as int)),
        0 <= v <= 255,
{
    let t: [i32; 7] = INTRA_FILTER_TAPS[mode][k];
    proof {
        lemma_taps();
        assert(-32 <= INTRA_FILTER_TAPS[mode as int][k as int][0] <= 32);
        lemma_product_bound(t[0] as int, p[0] as int, 32, 255);
        lemma_product_bound(t[1] as int, p[1] as int, 32, 255);
        lemma_product_bound(t[2] as int, p[2] as int, 32, 255);
        lemma_product_bound(t[3] as int, p[3] as int, 32, 255);
        lemma_product_bound(t[4] as int, p[4] as int, 32, 255);
        lemma_product_bound(t[5] as int, p[5] as int, 32, 255);
        lemma_product_bound(t[6] as int, p[6] as int, 32, 255);
    }
    let sum: i32 = t[0] * p[0] + t[1] * p[1] + t[2] * p[2] + t[3] * p[3] + t[4] * p[4] + t[5] * p[5]
        + t[6] * p[6];
    assert(sum == group_sum(m, r, c, k as int));
    let v: i32 = if sum >= 0 {
        (sum + 8) / 16
    } else {
        -((8 - sum) / 16)
    };
    clamp32(v, 0, 255)
}

/// Predicts a block by recursive filtering, group by group.
pub fn predict_filter_intra(
    filter_intra_mode: usize,
    top: &[i32],
    left: &[i32],
    tl: i32,
    w: usize,
    h: usize,
    out: &mut [i32],
)
    requires
        filter_intra_mode < 5,
        neighbours_ok(top@, left@, tl as int, w as int, h as int),
        w % 4 == 0,
        h % 2 == 0,
        old(out)@.len() >= w * h,
    ensures
        filter_painted(
            final(out)@,
            old(out)@,
            FilterModel { mode: filter_intra_mode as int, top: top@, left: left@, tl: tl as int },
            w as int,
            h as int,
        ),
{
    let ghost m = FilterModel {
        mode: filter_intra_mode as int,
        top: top@,
        left: left@,
        tl: tl as int,
    };
    let ghost out0 = out@;
    let ghost wi = w as int;
    let ghost hi = h as int;
    let mut r: usize = 0;
    while r < h / 2
        invariant
            r <= h / 2,
            filter_intra_mode < 5,
            m == (FilterModel {
                mode: filter_intra_mode as int,
                top: top@,
                left: left@,
                tl: tl as int,
            }),
            neighbours_ok(top@, left@, tl as int, w as int, h as int),
            w % 4 == 0,
            h % 2 == 0,
            wi == w,
            hi == h,
            out0.len() >= w * h,
            out@.len() == out0.len(),
            forall|k: int| w * h <= k < out0.len() ==> #[trigger] out@[k] == out0[k],
            groups_done(out@, m, wi, hi, r as int, 0),
        decreases h / 2 - r,
    {
        let mut c: usize = 0;
        while c < w / 4
            invariant
                r < h / 2,
                c <= w / 4,
                filter_intra_mode < 5,
                m == (FilterModel {
                    mode: filter_intra_mode as int,
                    top: top@,
                    left: left@,
                    tl: tl as int,
                }),
                neighbours_ok(top@, left@, tl as int, w as int, h as int),
                w % 4 == 0,
                h % 2 == 0,
                wi == w,
                hi == h,
                out0.len() >= w * h,
                out@.len() == out0.len(),
                forall|k: int| w * h <= k < out0.len() ==> #[trigger] out@[k] == out0[k],
                groups_done(out@, m, wi, hi, r as int, c as int),
            decreases w / 4 - c,
        {
            let p: [i32; 7] = gather(top, left, tl, w, h, out, r, c, Ghost(m));
            let mut k: usize = 0;
            while k < 8
                invariant
                    r < h / 2,
                    c < w / 4,
                    k <= 8,
                    filter_intra_mode < 5,
                    m.mode == filter_intra_mode,
                    w <= 64,
                    h <= 64,
                    w % 4 == 0,
                    h % 2 == 0,
                    wi == w,
                    hi == h,
                    out0.len() >= w * h,
                    out@.len() == out0.len(),
                    forall|i: int|
                        0 <= i < 7 ==> #[trigger] p[i] == group_neighbour(m, r as int, c as int, i)
                            && 0 <= p[i] <= 255,
                    forall|j: int| w * h <= j < out0.len() ==> #[trigger] out@[j] == out0[j],
                    groups_done(out@, m, wi, hi, r as int, c as int),
                    forall|j: int|
                        0 <= j < k ==> #[trigger] filtered_at(
                            out@,
                            m,
                            wi,
                            2 * r + j / 4,
                            4 * c + j % 4,
                        ),
                decreases 8 - k,
            {
                let y: usize = 2 * r + k / 4;
                let x: usize = 4 * c + k % 4;
                let v: i32 = filter_group(
                    &p,
                    filter_intra_mode,
                    k,
                    Ghost(m),
                    Ghost(r as int),
                    Ghost(c as int),
                );
                proof {
                    lemma_block_cell(wi, hi, y as int, x as int);
                    assert(y * w <= 4096) by (nonlinear_arith)
                        requires
                            y <= 64,
                            w <= 64,
                    ;
                    assert(y as int / 2 == r && x as int / 4 == c);
                    assert(4 * (y as int % 2) + x as int % 4 == k);
                }
                let ghost before = out@;
                out[y * w + x] = v;
                proof {
                    assert forall|a: int, b: int|
                        0 <= a < hi && 0 <= b < wi && (a / 2 < r || (a / 2 == r && b / 4
                            < c)) implies #[trigger] filtered_at(out@, m, wi, a, b) by {
                        assert(filtered_at(before, m, wi, a, b));
                        lemma_block_cell(wi, hi, a, b);
                        if a * wi + b == y * wi + x {
                            lemma_cell_unique(wi, a, b, y as int, x as int);
                        }
                    }
                    assert forall|j: int| 0 <= j < k + 1 implies #[trigger] filtered_at(
                        out@,
                        m,
                        wi,
                        2 * r + j / 4,
                        4 * c + j % 4,
                    ) by {
                        let a = 2 * r + j / 4;
                        let b = 4 * c + j % 4;
                        if j < k {
                            assert(filtered_at(before, m, wi, a, b));
                            lemma_block_cell(wi, hi, a, b);
                            if a * wi + b == y * wi + x {
                                lemma_cell_unique(wi, a, b, y as int, x as int);
                            }
                        } else {
                            assert(a == y && b == x);
                        }
                    }
                }
                k = k + 1;
            }
            proof {
                assert forall|a: int, b: int|
                    0 <= a < hi && 0 <= b < wi && (a / 2 < r || (a / 2 == r && b / 4 < c
                        + 1)) implies #[trigger] filtered_at(out@, m, wi, a, b) by {
                    if a / 2 == r && b / 4 == c {
                        let j = 4 * (a % 2) + b % 4;
                        assert(j / 4 == a % 2 && j % 4 == b % 4);
                        assert(filtered_at(out@, m, wi, 2 * r + j / 4, 4 * c + j % 4));
                    }
                }
            }
            c = c + 1;
        }
        r = r + 1;
    }
}

// ---------------------------------------------------------------------------
// Neighbours in a plane
// ---------------------------------------------------------------------------

/// The sample in column `x` and row `y` of a plane, the middle value outside it.
pub open spec fn plane_sample(plane: Seq<u8>, stride: int, x: int, y: int) -> int {
    let p = y * stride + x;
    if 0 <= p < plane.len() {
        plane[p] as int
    } else {
        128
    }
}

/// The smaller of two numbers.
pub open spec fn lesser(a: int, b: int) -> int {
    if a <= b {
        a
    } else {
        b
    }
}

/// The last index below `n`, zero where there is none.
pub open spec fn last_index(n: int) -> int {
    if n <= 0 {
        0
    } else {
        n - 1
    }
}

/// The neighbours of the block of `tx_w` by `tx_h` samples at column `x` and row
/// `y`. Samples past the frame repeat the last one. A missing side repeats the
/// nearest sample of the other; without either the row is one below and the column
/// one above the middle value.
#[verifier::opaque]
pub open spec fn borders_of(
    plane: Seq<u8>,
    stride: int,
    width: int,
    height: int,
    tx_w: int,
    tx_h: int,
    x: int,
    y: int,
) -> BordersModel {
    let above = y > 0;
    let left = x > 0;
    BordersModel {
        top: Seq::new(
            tx_w as nat,
            |i: int|
                (if above {
                    plane_sample(plane, stride, lesser(x + i, last_index(width)), y - 1)
                } else if left {
                    plane_sample(plane, stride, x - 1, y)
                } else {
                    127
                }) as i32,
        ),
        left: Seq::new(
            tx_h as nat,
            |i: int|
                (if left {
                    plane_sample(plane, stride, x - 1, lesser(y + i, last_index(height)))
                } else if above {
                    plane_sample(plane, stride, x, y - 1)
                } else {
                    129
                }) as i32,
        ),
        tl: if above && left {
            plane_sample(plane, stride, x - 1, y - 1)
        } else if above {
            plane_sample(plane, stride, x, y - 1)
        } else if left {
            plane_sample(plane, stride, x - 1, y)
        } else {
            128
        },
        have_above: above,
        have_left: left,
    }
}

/// The sample in column `x` and row `y` of a plane.
pub fn sample_at(plane: &[u8], stride: usize, x: usize, y: usize) -> (r: i32)
    requires
        stride <= 0x1_0000,
        x <= 0x2_0000,
        y <= 0x2_0000,
    ensures
        r == plane_sample(plane@, stride as int, x as int, y as int),
        0 <= r <= 255,
{
    assert(0 <= y * stride <= 0x2_0000_0000) by (nonlinear_arith)
        requires
            0 <= y <= 0x2_0000,
            0 <= stride <= 0x1_0000,
    ;
    let p: u64 = y as u64 * stride as u64 + x as u64;
    if p < plane.len() as u64 {
        plane[p as usize] as i32
    } else {
        MID_SAMPLE
    }
}

/// Collects the neighbours of a block.
pub fn block_borders(
    plane: &[u8],
    stride: usize,
    width: usize,
    height: usize,
    tx_w: usize,
    tx_h: usize,
    px_x: usize,
    px_y: usize,
) -> (r: BlockBorders)
    requires
        stride <= 0x1_0000,
        width <= 0x1_0000,
        height <= 0x1_0000,
        1 <= tx_w <= 64,
        1 <= tx_h <= 64,
        px_x <= 0x1_8000,
        px_y <= 0x1_8000,
    ensures
        r@ == borders_of(
            plane@,
            stride as int,
            width as int,
            height as int,
            tx_w as int,
            tx_h as int,
            px_x as int,
            px_y as int,
        ),
        r@.top.len() == tx_w,
        r@.left.len() == tx_h,
        neighbours_ok(r@.top, r@.left, r@.tl, tx_w as int, tx_h as int),
{
    let ghost m = borders_of(
        plane@,
        stride as int,
        width as int,
        height as int,
        tx_w as int,
        tx_h as int,
        px_x as int,
        px_y as int,
    );
    proof {
        reveal(borders_of);
    }
    let have_above: bool = px_y > 0;
    let have_left: bool = px_x > 0;
    let max_x: usize = if width == 0 {
        0
    } else {
        width - 1
    };
    let max_y: usize = if height == 0 {
        0
    } else {
        height - 1
    };
    let mut top: Vec<i32> = Vec::new();
    let mut i: usize = 0;
    while i < tx_w
        invariant
            i <= tx_w <= 64,
            stride <= 0x1_0000,
            width <= 0x1_0000,
            px_x <= 0x1_8000,
            px_y <= 0x1_8000,
            have_above == (px_y > 0),
            have_left == (px_x > 0),
            max_x == last_index(width as int),
            m == borders_of(
                plane@,
                stride as int,
                width as int,
                height as int,
                tx_w as int,
                tx_h as int,
                px_x as int,
                px_y as int,
            ),
            top@.len() == i,
            samples(top@),
            forall|k: int| 0 <= k < i ==> #[trigger] top@[k] == m.top[k],
        decreases tx_w - i,
    {
        proof {
            reveal(borders_of);
        }
        let v: i32 = if have_above {
            sample_at(
                plane,
                stride,
                if px_x + i <= max_x {
                    px_x + i
                } else {
                    max_x
                },
                px_y - 1,
            )
        } else if have_left {
            sample_at(plane, stride, px_x - 1, px_y)
        } else {
            MID_SAMPLE - 1
        };
        top.push(v);
        i = i + 1;
    }
    let mut left: Vec<i32> = Vec::new();
    let mut i: usize = 0;
    while i < tx_h
        invariant
            i <= tx_h <= 64,
            stride <= 0x1_0000,
            height <= 0x1_0000,
            px_x <= 0x1_8000,
            px_y <= 0x1_8000,
            have_above == (px_y > 0),
            have_left == (px_x > 0),
            max_y == last_index(height as int),
            m == borders_of(
                plane@,
                stride as int,
                width as int,
                height as int,
                tx_w as int,
                tx_h as int,
                px_x as int,
                px_y as int,
            ),
            left@.len() == i,
            samples(left@),
            forall|k: int| 0 <= k < i ==> #[trigger] left@[k] == m.left[k],
        decreases tx_h - i,
    {
        proof {
            reveal(borders_of);
        }
        let v: i32 = if have_left {
            sample_at(
                plane,
                stride,
                px_x - 1,
                if px_y + i <= max_y {
                    px_y + i
                } else {
                    max_y
                },
            )
        } else if have_above {
            sample_at(plane, stride, px_x, px_y - 1)
        } else {
            MID_SAMPLE + 1
        };
        left.push(v);
        i = i + 1;
    }
    let tl: i32 = if have_above && have_left {
        sample_at(plane, stride, px_x - 1, px_y - 1)
    } else if have_above {
        sample_at(plane, stride, px_x, px_y - 1)
    } else if have_left {
        sample_at(plane, stride, px_x - 1, px_y)
    } else {
        MID_SAMPLE
    };
    let r: BlockBorders = BlockBorders { top, left, tl, have_above, have_left };
    assert(r@.top =~= m.top);
    assert(r@.left =~= m.left);
    r
}

} // verus!
