//! One transform block: its coefficients, its residual, its prediction, and the
//! samples that come of them.
use crate::cfl::{apply_cfl_prediction, cfl_pred, cfl_side, CflModel, CflParams};
use crate::coeff::{
    c_state, coeffs_of, read_coeffs, CState, CoeffContexts, CtxModel, TileCdfs, TxBlockCtx,
};
use crate::coeff_tables::{lemma_tx_dims, TX_HEIGHT, TX_WIDTH};
use crate::color_map::{lemma_position, palette_pred, predict_palette};
use crate::entropy::SymbolDecoder;
use crate::error::KinetixError;
use crate::intra_pred::{
    block_borders, borders_of, filter_painted, filter_pixel, filtered_at, intra_model, painted,
    painted_at, pred_pixel, predict_filter_intra, predict_intra_block, side_ok, BlockBorders,
    BordersModel, FilterModel, PredModel,
};
use crate::math::{clamp32, clampi};
use crate::palette_colors::palette_ok;
use crate::quant::{dequantize_coeffs, dequantized};
use crate::transform::{inverse_transform, lemma_block_cell, residual_block, transform_at};
use vstd::prelude::*;

verus! {

// ---------------------------------------------------------------------------
// Writing a block into a plane
// ---------------------------------------------------------------------------

/// Where a block lies in a plane of `w` by `h` samples with `stride` samples per row.
pub struct Place {
    pub stride: int,
    pub w: int,
    pub h: int,
    pub x: int,
    pub y: int,
    pub bw: int,
    pub bh: int,
}

/// Position `p` of the plane lies in the block and in the plane.
pub open spec fn covered(a: Place, p: int) -> bool {
    let y = p / a.stride;
    let x = p % a.stride;
    &&& a.y <= y < a.y + a.bh
    &&& y < a.h
    &&& a.x <= x < a.x + a.bw
    &&& x < a.w
}

/// The index in the block of position `p` of the plane.
pub open spec fn block_pos(a: Place, p: int) -> int {
    (p / a.stride - a.y) * a.bw + (p % a.stride - a.x)
}

/// A plane with a block written into it.
pub open spec fn blitted(plane: Seq<u8>, a: Place, vals: Seq<u8>) -> Seq<u8> {
    Seq::new(
        plane.len(),
        |p: int|
            if covered(a, p) {
                vals[block_pos(a, p)]
            } else {
                plane[p]
            },
    )
}

/// The position is written once the first `dy` rows and `dx` samples of the next one
/// are.
spec fn written(a: Place, p: int, dy: int, dx: int) -> bool {
    &&& covered(a, p)
    &&& p / a.stride - a.y < dy || (p / a.stride - a.y == dy && p % a.stride - a.x < dx)
}

spec fn partly(plane: Seq<u8>, p0: Seq<u8>, a: Place, vals: Seq<u8>, dy: int, dx: int) -> bool {
    &&& plane.len() == p0.len()
    &&& forall|p: int|
        0 <= p < p0.len() ==> #[trigger] plane[p] == if written(a, p, dy, dx) {
            vals[block_pos(a, p)]
        } else {
            p0[p]
        }
}

proof fn lemma_write(
    plane: Seq<u8>,
    next: Seq<u8>,
    p0: Seq<u8>,
    a: Place,
    vals: Seq<u8>,
    dy: int,
    dx: int,
)
    requires
        partly(plane, p0, a, vals, dy, dx),
        0 <= dy < a.bh,
        0 <= dx < a.bw,
        0 <= a.x,
        0 <= a.y,
        a.y + dy < a.h,
        a.x + dx < a.w,
        a.w <= a.stride,
        ({
            let q = (a.y + dy) * a.stride + (a.x + dx);
            next == if q < plane.len() {
                plane.update(q, vals[dy * a.bw + dx])
            } else {
                plane
            }
        }),
    ensures
        partly(next, p0, a, vals, dy, dx + 1),
{
    let y = a.y + dy;
    let x = a.x + dx;
    let q = y * a.stride + x;
    assert(0 <= q) by (nonlinear_arith)
        requires
            0 <= y,
            0 <= x,
            0 < a.stride,
            q == y * a.stride + x,
    ;
    lemma_position(a.stride, y, x);
    assert forall|p: int| 0 <= p < p0.len() implies #[trigger] next[p] == if written(
        a,
        p,
        dy,
        dx + 1,
    ) {
        vals[block_pos(a, p)]
    } else {
        p0[p]
    } by {
        assert(plane[p] == if written(a, p, dy, dx) {
            vals[block_pos(a, p)]
        } else {
            p0[p]
        });
        if p != q {
            if p / a.stride == y && p % a.stride == x {
                vstd::arithmetic::div_mod::lemma_fundamental_div_mod(p, a.stride);
                assert(a.stride * y == y * a.stride) by (nonlinear_arith);
            }
        }
    }
}

proof fn lemma_row_done(
    plane: Seq<u8>,
    p0: Seq<u8>,
    a: Place,
    vals: Seq<u8>,
    dy: int,
    dx: int,
)
    requires
        partly(plane, p0, a, vals, dy, dx),
        dx == a.bw || a.x + dx >= a.w,
    ensures
        partly(plane, p0, a, vals, dy + 1, 0),
{
    assert forall|p: int| 0 <= p < p0.len() implies written(a, p, dy + 1, 0) == written(
        a,
        p,
        dy,
        dx,
    ) by {}
    assert forall|p: int| 0 <= p < p0.len() implies #[trigger] plane[p] == if written(
        a,
        p,
        dy + 1,
        0,
    ) {
        vals[block_pos(a, p)]
    } else {
        p0[p]
    } by {
        assert(written(a, p, dy + 1, 0) == written(a, p, dy, dx));
    }
}

/// Writes a block into a plane; samples beyond the plane are dropped.
pub fn blit(
    plane: &mut Vec<u8>,
    stride: usize,
    w: usize,
    h: usize,
    x: usize,
    y: usize,
    bw: usize,
    bh: usize,
    vals: &Vec<u8>,
)
    requires
        stride <= 0x1_0000,
        w <= stride,
        h <= 0x1_0000,
        x <= 0x2_0000,
        y <= 0x2_0000,
        bw <= 0x1_0000,
        bh <= 0x1_0000,
        vals@.len() == bw * bh,
    ensures
        final(plane)@ == blitted(
            old(plane)@,
            (Place {
                stride: stride as int,
                w: w as int,
                h: h as int,
                x: x as int,
                y: y as int,
                bw: bw as int,
                bh: bh as int,
            }),
            vals@,
        ),
{
    let ghost a = Place {
        stride: stride as int,
        w: w as int,
        h: h as int,
        x: x as int,
        y: y as int,
        bw: bw as int,
        bh: bh as int,
    };
    let ghost p0 = plane@;
    let ghost v = vals@;
    let mut dy: usize = 0;
    while dy < bh && y + dy < h
        invariant
            dy <= bh,
            dy == 0 || y + dy <= h,
            stride <= 0x1_0000,
            w <= stride,
            h <= 0x1_0000,
            x <= 0x2_0000,
            y <= 0x2_0000,
            bw <= 0x1_0000,
            bh <= 0x1_0000,
            v == vals@,
            v.len() == bw * bh,
            a == (Place {
                stride: stride as int,
                w: w as int,
                h: h as int,
                x: x as int,
                y: y as int,
                bw: bw as int,
                bh: bh as int,
            }),
            partly(plane@, p0, a, v, dy as int, 0),
        decreases bh - dy,
    {
        let mut dx: usize = 0;
        while dx < bw && x + dx < w
            invariant
                dx <= bw,
                dy < bh,
                y + dy < h,
                stride <= 0x1_0000,
                w <= stride,
                h <= 0x1_0000,
                x <= 0x2_0000,
                y <= 0x2_0000,
                bw <= 0x1_0000,
                bh <= 0x1_0000,
                v == vals@,
                v.len() == bw * bh,
                a == (Place {
                    stride: stride as int,
                    w: w as int,
                    h: h as int,
                    x: x as int,
                    y: y as int,
                    bw: bw as int,
                    bh: bh as int,
                }),
                partly(plane@, p0, a, v, dy as int, dx as int),
            decreases bw - dx,
        {
            proof {
                lemma_block_cell(bw as int, bh as int, dy as int, dx as int);
                assert(0 <= (y + dy) * stride <= 0x1_0000_0000) by (nonlinear_arith)
                    requires
                        y + dy <= 0x1_0000,
                        stride <= 0x1_0000,
                ;
                assert(vals.len() <= usize::MAX);
                assert(0 <= dy * bw) by (nonlinear_arith);
            }
            let q: u64 = (y + dy) as u64 * stride as u64 + (x + dx) as u64;
            let ghost before = plane@;
            if q < plane.len() as u64 {
                plane.set(q as usize, vals[dy * bw + dx]);
            }
            proof {
                lemma_write(before, plane@, p0, a, v, dy as int, dx as int);
            }
            dx = dx + 1;
        }
        proof {
            lemma_row_done(plane@, p0, a, v, dy as int, dx as int);
        }
        dy = dy + 1;
    }
    assert(plane@ =~= blitted(p0, a, v)) by {
        assert forall|p: int| 0 <= p < p0.len() implies #[trigger] plane@[p] == blitted(
            p0,
            a,
            v,
        )[p] by {
            assert(covered(a, p) == written(a, p, dy as int, 0));
        }
    }
}

// ---------------------------------------------------------------------------
// Prediction
// ---------------------------------------------------------------------------

/// The pixels of a predictor in raster order.
pub open spec fn pred_block(m: PredModel) -> Seq<i32> {
    Seq::new((m.w * m.h) as nat, |p: int| pred_pixel(m, p / m.w, p % m.w) as i32)
}

/// The pixels of recursive filtering in raster order.
pub open spec fn filter_block(m: FilterModel, w: int, h: int) -> Seq<i32> {
    Seq::new((w * h) as nat, |p: int| filter_pixel(m, p / w, p % w) as i32)
}

/// The residual of a transform block in raster order.
pub open spec fn residual_of(dq: Seq<i32>, tx_type: int, tx: int, lossless: bool) -> Seq<i32> {
    Seq::new(
        (TX_WIDTH[tx] * TX_HEIGHT[tx]) as nat,
        |p: int|
            transform_at(dq, tx_type, tx, lossless, p / TX_WIDTH[tx] as int, p % TX_WIDTH[tx] as int)
                as i32,
    )
}

/// The row and the column of a position in a block.
proof fn lemma_row_column(w: int, h: int, p: int)
    requires
        1 <= w,
        0 <= p < w * h,
    ensures
        0 <= p / w < h,
        0 <= p % w < w,
        (p / w) * w + p % w == p,
{
    vstd::arithmetic::div_mod::lemma_fundamental_div_mod(p, w);
    assert(w * (p / w) == (p / w) * w) by (nonlinear_arith);
    let y = p / w;
    let x = p % w;
    assert(0 <= y < h) by (nonlinear_arith)
        requires
            p == w * y + x,
            0 <= p < w * h,
            0 <= x < w,
    ;
}

proof fn lemma_painted(new: Seq<i32>, old: Seq<i32>, m: PredModel)
    requires
        painted(new, old, m),
        1 <= m.w,
        old.len() == m.w * m.h,
    ensures
        new == pred_block(m),
        forall|p: int| 0 <= p < new.len() ==> 0 <= #[trigger] new[p] <= 255,
{
    assert forall|p: int| 0 <= p < new.len() implies #[trigger] new[p] == pred_block(m)[p] && 0
        <= new[p] <= 255 by {
        lemma_row_column(m.w, m.h, p);
        assert(painted_at(new, m, p / m.w, p % m.w));
    }
    assert(new =~= pred_block(m));
}

proof fn lemma_filtered(new: Seq<i32>, old: Seq<i32>, m: FilterModel, w: int, h: int)
    requires
        filter_painted(new, old, m, w, h),
        1 <= w,
        old.len() == w * h,
    ensures
        new == filter_block(m, w, h),
        forall|p: int| 0 <= p < new.len() ==> 0 <= #[trigger] new[p] <= 255,
{
    assert forall|p: int| 0 <= p < new.len() implies #[trigger] new[p] == filter_block(m, w, h)[p]
        && 0 <= new[p] <= 255 by {
        lemma_row_column(w, h, p);
        assert(filtered_at(new, m, w, p / w, p % w));
    }
    assert(new =~= filter_block(m, w, h));
}

proof fn lemma_residual(dst: Seq<i32>, dq: Seq<i32>, tx_type: int, tx: int, lossless: bool)
    requires
        0 <= tx < 19,
        residual_block(dst, dq, tx_type, tx, lossless),
        dst.len() == TX_WIDTH[tx] * TX_HEIGHT[tx],
    ensures
        dst == residual_of(dq, tx_type, tx, lossless),
        forall|p: int| 0 <= p < dst.len() ==> -0x80_0000 <= #[trigger] dst[p] <= 0x80_0000,
{
    lemma_tx_dims(tx);
    let w = TX_WIDTH[tx] as int;
    let h = TX_HEIGHT[tx] as int;
    assert forall|p: int| 0 <= p < dst.len() implies #[trigger] dst[p] == residual_of(
        dq,
        tx_type,
        tx,
        lossless,
    )[p] && -0x80_0000 <= dst[p] <= 0x80_0000 by {
        lemma_row_column(w, h, p);
        let i = p / w;
        let j = p % w;
        let t = transform_at(dq, tx_type, tx, lossless, i, j);
        assert(dst[i * w + j] == t);
    }
    assert(dst =~= residual_of(dq, tx_type, tx, lossless));
}

/// The palette of a transform block: the colors, the map of the coded block, and the
/// position of the transform block in it.
pub struct PaletteBlockInfo<'a> {
    pub colors: &'a Vec<i32>,
    pub color_map: &'a Vec<u8>,
    pub map_stride: usize,
    pub off_x: usize,
    pub off_y: usize,
}

/// The model of the palette of a transform block.
pub struct PaletteModel {
    pub colors: Seq<i32>,
    pub map: Seq<u8>,
    pub stride: int,
    pub x: int,
    pub y: int,
}

impl<'a> View for PaletteBlockInfo<'a> {
    type V = PaletteModel;

    open spec fn view(&self) -> PaletteModel {
        PaletteModel {
            colors: self.colors@,
            map: self.color_map@,
            stride: self.map_stride as int,
            x: self.off_x as int,
            y: self.off_y as int,
        }
    }
}

/// A transform block of an intra block.
pub struct TxJob<'a> {
    pub blk: TxBlockCtx,
    pub stride: usize,
    pub plane_w: usize,
    pub plane_h: usize,
    pub px_x: usize,
    pub px_y: usize,
    pub tx_size: usize,
    pub qindex: u8,
    pub mode: usize,
    pub skip: bool,
    pub filter: Option<usize>,
    pub edge_filter: bool,
    pub cfl: Option<CflParams<'a>>,
    pub angle: i32,
    pub palette: Option<PaletteBlockInfo<'a>>,
}

/// The model of a transform block of an intra block.
#[verifier::ext_equal]
pub struct TxModel {
    pub blk: TxBlockCtx,
    pub stride: int,
    pub w: int,
    pub h: int,
    pub x: int,
    pub y: int,
    pub tx: int,
    pub qindex: int,
    pub mode: int,
    pub skip: bool,
    pub filter: Option<usize>,
    pub edge_filter: bool,
    pub cfl: Option<CflModel>,
    pub angle: int,
    pub palette: Option<PaletteModel>,
}

/// The model of an optional luma plane.
pub open spec fn cfl_model(c: Option<CflParams<'_>>) -> Option<CflModel> {
    match c {
        Some(p) => Some(p@),
        None => None,
    }
}

/// The model of an optional palette.
pub open spec fn palette_model(c: Option<PaletteBlockInfo<'_>>) -> Option<PaletteModel> {
    match c {
        Some(p) => Some(p@),
        None => None,
    }
}

impl<'a> View for TxJob<'a> {
    type V = TxModel;

    open spec fn view(&self) -> TxModel {
        TxModel {
            blk: self.blk,
            stride: self.stride as int,
            w: self.plane_w as int,
            h: self.plane_h as int,
            x: self.px_x as int,
            y: self.px_y as int,
            tx: self.tx_size as int,
            qindex: self.qindex as int,
            mode: self.mode as int,
            skip: self.skip,
            filter: self.filter,
            edge_filter: self.edge_filter,
            cfl: cfl_model(self.cfl),
            angle: self.angle as int,
            palette: palette_model(self.palette),
        }
    }
}

impl<'a> TxJob<'a> {
    /// Sizes and positions that the planes can hold.
    pub open spec fn wf(&self) -> bool {
        &&& self.blk.wf()
        &&& 1 <= self.stride <= 0x1_0000
        &&& self.plane_w <= self.stride
        &&& self.plane_h <= 0x1_0000
        &&& self.px_x <= 0x1_8000
        &&& self.px_y <= 0x1_8000
        &&& self.tx_size < 19
        &&& self.blk.tx_size == self.tx_size
        &&& self.mode < 14
        &&& self.filter matches Some(f) ==> f < 5
        &&& -3 <= self.angle <= 3
        &&& self.cfl matches Some(c) ==> {
            &&& c.luma_stride <= 0x1_0000
            &&& -16 <= c.alpha <= 16
        }
        &&& self.palette matches Some(p) ==> {
            &&& palette_ok(p.colors@)
            &&& p.map_stride <= 256
            &&& p.off_x <= 256
            &&& p.off_y <= 256
        }
    }
}

/// The prediction of a transform block before luma is taken into account: from its
/// palette, by recursive filtering, or by its mode.
pub open spec fn base_pred(plane: Seq<u8>, m: TxModel) -> Seq<i32> {
    let w = TX_WIDTH[m.tx] as int;
    let h = TX_HEIGHT[m.tx] as int;
    let b = borders_of(plane, m.stride, m.w, m.h, w, h, m.x, m.y);
    match m.palette {
        Some(p) => palette_pred(p.colors, p.map, p.stride, p.x, p.y, w, h),
        None => match m.filter {
            Some(f) if m.blk.plane == 0 => filter_block(
                FilterModel { mode: f as int, top: b.top, left: b.left, tl: b.tl },
                w,
                h,
            ),
            _ => pred_block(
                intra_model(m.mode, b, w, h, m.edge_filter && m.blk.plane == 0, m.angle),
            ),
        },
    }
}

/// The prediction of a transform block.
#[verifier::opaque]
pub open spec fn tx_pred(plane: Seq<u8>, m: TxModel) -> Seq<i32> {
    match m.cfl {
        Some(c) => cfl_pred(
            base_pred(plane, m),
            c,
            m.x,
            m.y,
            TX_WIDTH[m.tx] as int,
            TX_HEIGHT[m.tx] as int,
        ),
        None => base_pred(plane, m),
    }
}

/// A prediction with a residual, held in the sample range.
pub open spec fn reconstructed(pred: Seq<i32>, res: Seq<i32>) -> Seq<u8> {
    Seq::new(pred.len(), |p: int| clampi(pred[p] + res[p], 0, 255) as u8)
}

/// A block without residual.
pub open spec fn no_residual(tx: int) -> Seq<i32> {
    Seq::new((TX_WIDTH[tx] * TX_HEIGHT[tx]) as nat, |p: int| 0i32)
}

/// The decoder, the contexts and a plane.
#[verifier::ext_equal]
pub struct TxState {
    pub c: CState,
    pub ctx: CtxModel,
    pub plane: Seq<u8>,
}

/// What reading the residual of a transform block comes to, and the states behind it.
#[verifier::opaque]
pub open spec fn residual_read(
    c: CState,
    ctx: CtxModel,
    blk: TxBlockCtx,
    tx: int,
    qindex: int,
    skip: bool,
) -> (Result<Seq<i32>, KinetixError>, CState, CtxModel) {
    if skip {
        (Ok(no_residual(tx)), c, ctx)
    } else {
        let m = coeffs_of(c, ctx, blk);
        (
            match m.result {
                Err(e) => Err(e),
                Ok(d) => Ok(
                    if d.eob > 0 {
                        residual_of(dequantized(d.quant, tx, qindex), d.tx_type, tx, blk.lossless)
                    } else {
                        no_residual(tx)
                    },
                ),
            },
            m.s,
            m.ctx,
        )
    }
}

/// Where a transform block lies.
pub open spec fn tx_place(m: TxModel) -> Place {
    Place {
        stride: m.stride,
        w: m.w,
        h: m.h,
        x: m.x,
        y: m.y,
        bw: TX_WIDTH[m.tx] as int,
        bh: TX_HEIGHT[m.tx] as int,
    }
}

/// What reconstructing a transform block comes to: the state behind it, and the error
/// if its coefficients are refused.
#[verifier::opaque]
pub open spec fn tx_done(st: TxState, m: TxModel) -> (TxState, Option<KinetixError>) {
    let (res, c, ctx) = residual_read(st.c, st.ctx, m.blk, m.tx, m.qindex, m.skip);
    match res {
        Err(e) => (TxState { c, ctx, plane: st.plane }, Some(e)),
        Ok(r) => (
            TxState {
                c,
                ctx,
                plane: blitted(
                    st.plane,
                    tx_place(m),
                    reconstructed(tx_pred(st.plane, m), r),
                ),
            },
            None,
        ),
    }
}

/// Reads the residual of a transform block.
pub fn read_residual(
    dec: &mut SymbolDecoder<'_>,
    cdfs: &mut TileCdfs,
    ctxs: &mut CoeffContexts,
    blk: &TxBlockCtx,
    tx_size: usize,
    qindex: u8,
    skip: bool,
) -> (r: Result<Vec<i32>, KinetixError>)
    requires
        old(dec)@.wf(),
        old(cdfs).wf(),
        blk.wf(),
        tx_size < 19,
        blk.tx_size == tx_size,
    ensures
        final(dec)@.wf(),
        final(cdfs).wf(),
        ({
            let m = residual_read(
                c_state(*old(dec), *old(cdfs)),
                old(ctxs)@,
                *blk,
                tx_size as int,
                qindex as int,
                skip,
            );
            &&& c_state(*final(dec), *final(cdfs)) == m.1
            &&& final(ctxs)@ == m.2
            &&& match m.0 {
                Err(e) => r == Err::<Vec<i32>, _>(e),
                Ok(s) => r matches Ok(v) && v@ == s,
            }
        }),
        r matches Ok(v) ==> {
            &&& v@.len() == TX_WIDTH[tx_size as int] * TX_HEIGHT[tx_size as int]
            &&& forall|p: int| 0 <= p < v@.len() ==> -0x80_0000 <= #[trigger] v@[p] <= 0x80_0000
        },
{
    proof {
        reveal(residual_read);
        lemma_tx_dims(tx_size as int);
    }
    let area: usize = TX_WIDTH[tx_size] * TX_HEIGHT[tx_size];
    let mut residual: Vec<i32> = vec![0i32; area];
    assert(residual@ =~= no_residual(tx_size as int));
    if !skip {
        match read_coeffs(dec, cdfs, ctxs, blk) {
            Err(e) => {
                return Err(e);
            },
            Ok(b) => {
                if b.eob > 0 {
                    let dq: Vec<i32> = dequantize_coeffs(b.quant.as_slice(), tx_size, qindex);
                    inverse_transform(
                        dq.as_slice(),
                        b.tx_type,
                        tx_size,
                        blk.lossless,
                        residual.as_mut_slice(),
                    );
                    proof {
                        lemma_residual(
                            residual@,
                            dq@,
                            b.tx_type as int,
                            tx_size as int,
                            blk.lossless,
                        );
                    }
                }
            },
        }
    }
    Ok(residual)
}

fn predict_base(plane: &Vec<u8>, job: &TxJob<'_>) -> (pred: Vec<i32>)
    requires
        job.wf(),
    ensures
        pred@ == base_pred(plane@, job@),
        pred@.len() == TX_WIDTH[job.tx_size as int] * TX_HEIGHT[job.tx_size as int],
        forall|p: int| 0 <= p < pred@.len() ==> 0 <= #[trigger] pred@[p] <= 255,
{
    proof {
        lemma_tx_dims(job.tx_size as int);
        lemma_sides(job.tx_size as int);
    }
    let w: usize = TX_WIDTH[job.tx_size];
    let h: usize = TX_HEIGHT[job.tx_size];
    let area: usize = w * h;
    match &job.palette {
        Some(p) => {
            let pred: Vec<i32> = predict_palette(
                p.colors,
                p.color_map,
                p.map_stride,
                p.off_x,
                p.off_y,
                w,
                h,
            );
            return pred;
        },
        None => {},
    }
    let borders: BlockBorders = block_borders(
        plane.as_slice(),
        job.stride,
        job.plane_w,
        job.plane_h,
        w,
        h,
        job.px_x,
        job.px_y,
    );
    let mut pred: Vec<i32> = vec![0i32; area];
    let ghost blank = pred@;
    let ghost b = borders@;
    match job.filter {
        Some(f) => {
            if job.blk.plane == 0 {
                predict_filter_intra(
                    f,
                    borders.top.as_slice(),
                    borders.left.as_slice(),
                    borders.tl,
                    w,
                    h,
                    pred.as_mut_slice(),
                );
                proof {
                    lemma_filtered(
                        pred@,
                        blank,
                        FilterModel { mode: f as int, top: b.top, left: b.left, tl: b.tl },
                        w as int,
                        h as int,
                    );
                }
                return pred;
            }
        },
        None => {},
    }
    predict_intra_block(
        job.mode as u8,
        &borders,
        w,
        h,
        pred.as_mut_slice(),
        job.edge_filter,
        job.blk.plane == 0,
        job.angle,
    );
    proof {
        let m = intra_model(
            job.mode as int,
            b,
            w as int,
            h as int,
            job.edge_filter && job.blk.plane == 0,
            job.angle as int,
        );
        lemma_intra_dims(
            job.mode as int,
            b,
            w as int,
            h as int,
            job.edge_filter && job.blk.plane == 0,
            job.angle as int,
        );
        lemma_painted(pred@, blank, m);
    }
    pred
}

proof fn lemma_intra_dims(mode: int, b: BordersModel, w: int, h: int, f: bool, d: int)
    ensures
        intra_model(mode, b, w, h, f, d).w == w,
        intra_model(mode, b, w, h, f, d).h == h,
{
}

proof fn lemma_sides(tx: int)
    requires
        0 <= tx < 19,
    ensures
        side_ok(TX_WIDTH[tx] as int),
        side_ok(TX_HEIGHT[tx] as int),
        cfl_side(TX_WIDTH[tx] as int),
        cfl_side(TX_HEIGHT[tx] as int),
{
}

/// The prediction with the residual, held in the sample range.
pub fn add_residual(pred: &Vec<i32>, residual: &Vec<i32>) -> (r: Vec<u8>)
    requires
        pred@.len() == residual@.len(),
        forall|p: int| 0 <= p < pred@.len() ==> -0x1000_0000 <= #[trigger] pred@[p] <= 0x1000_0000,
        forall|p: int|
            0 <= p < residual@.len() ==> -0x1000_0000 <= #[trigger] residual@[p] <= 0x1000_0000,
    ensures
        r@ == reconstructed(pred@, residual@),
{
    let mut r: Vec<u8> = Vec::new();
    let mut p: usize = 0;
    while p < pred.len()
        invariant
            p <= pred@.len(),
            pred@.len() == residual@.len(),
            forall|q: int|
                0 <= q < pred@.len() ==> -0x1000_0000 <= #[trigger] pred@[q] <= 0x1000_0000,
            forall|q: int|
                0 <= q < residual@.len() ==> -0x1000_0000 <= #[trigger] residual@[q] <= 0x1000_0000,
            r@.len() == p,
            forall|q: int| 0 <= q < p ==> #[trigger] r@[q] == clampi(pred@[q] + residual@[q], 0, 255),
        decreases pred.len() - p,
    {
        let v: i32 = clamp32(pred[p] + residual[p], 0, 255);
        r.push(v as u8);
        p = p + 1;
    }
    assert(r@ =~= reconstructed(pred@, residual@));
    r
}

/// Reconstructs a transform block of an intra block: reads its residual, predicts it,
/// and writes the sum into the plane. A block whose coefficients are refused leaves the
/// plane as it is.
pub fn reconstruct_tx_block(
    dec: &mut SymbolDecoder<'_>,
    cdfs: &mut TileCdfs,
    ctxs: &mut CoeffContexts,
    plane: &mut Vec<u8>,
    job: &TxJob<'_>,
) -> (r: Result<(), KinetixError>)
    requires
        old(dec)@.wf(),
        old(cdfs).wf(),
        job.wf(),
    ensures
        final(dec)@.wf(),
        final(cdfs).wf(),
        final(plane)@.len() == old(plane)@.len(),
        ({
            let m = tx_done(
                TxState { c: c_state(*old(dec), *old(cdfs)), ctx: old(ctxs)@, plane: old(plane)@ },
                job@,
            );
            &&& m.0 == (TxState {
                c: c_state(*final(dec), *final(cdfs)),
                ctx: final(ctxs)@,
                plane: final(plane)@,
            })
            &&& match m.1 {
                Some(e) => r == Err::<(), _>(e),
                None => r == Ok::<(), KinetixError>(()),
            }
        }),
{
    proof {
        reveal(tx_done);
        reveal(tx_pred);
        lemma_tx_dims(job.tx_size as int);
        lemma_sides(job.tx_size as int);
    }
    let residual: Vec<i32> = match read_residual(
        dec,
        cdfs,
        ctxs,
        &job.blk,
        job.tx_size,
        job.qindex,
        job.skip,
    ) {
        Ok(v) => v,
        Err(e) => {
            return Err(e);
        },
    };
    let w: usize = TX_WIDTH[job.tx_size];
    let h: usize = TX_HEIGHT[job.tx_size];
    let mut pred: Vec<i32> = predict_base(plane, job);
    match &job.cfl {
        Some(c) => {
            apply_cfl_prediction(pred.as_mut_slice(), w, h, job.px_x, job.px_y, c);
            proof {
                lemma_cfl_range(
                    base_pred(plane@, job@),
                    c@,
                    job.px_x as int,
                    job.px_y as int,
                    w as int,
                    h as int,
                );
            }
        },
        None => {},
    }
    let vals: Vec<u8> = add_residual(&pred, &residual);
    blit(
        plane,
        job.stride,
        job.plane_w,
        job.plane_h,
        job.px_x,
        job.px_y,
        w,
        h,
        &vals,
    );
    Ok(())
}

proof fn lemma_cfl_range(pred: Seq<i32>, c: CflModel, x: int, y: int, w: int, h: int)
    requires
        pred.len() == w * h,
    ensures
        cfl_pred(pred, c, x, y, w, h).len() == pred.len(),
        forall|p: int|
            0 <= p < pred.len() ==> 0 <= #[trigger] cfl_pred(pred, c, x, y, w, h)[p] <= 255,
{
    reveal(cfl_pred);
}

} // verus!
