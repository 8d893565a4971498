//! Inter blocks: their references and vectors, their prediction from reference frames,
//! and their residual.
use crate::blocks::{lemma_block_dims, BLOCK_HEIGHT, BLOCK_WIDTH};
use crate::coeff::{c_state, CoeffContexts, TileCdfs, TxBlockCtx};
use crate::coeff_tables::{lemma_tx_dims, TX_HEIGHT, TX_WIDTH};
use crate::color_map::lemma_position;
use crate::entropy::{at_least_0, Coder, SymbolDecoder};
use crate::error::KinetixError;
use crate::inter::{
    build_mv_candidates, candidates_of, mc_at, mc_pixel, motion_compensate, McModel, Mv,
    MvCandidate, RefFrames, RefSlot, ALTREF2_FRAME, ALTREF_FRAME, BWDREF_FRAME, GOLDEN_FRAME,
    LAST2_FRAME, LAST3_FRAME, LAST_FRAME, NONE_FRAME,
};
use crate::inter_cdfs::{InterCdfs, InterKey};
use crate::inter_syntax::{
    decode_ref_and_mv, i_state, read_single_ref_name, single_ref_from, vector_of,
};
use crate::intra_block::{tx_ctx_of, ChromaState};
use crate::intra_syntax::TileConfig;
use crate::media::Planes;
use crate::sides::{Neighbour, SidesModel};
use crate::tx_block::{
    add_residual, blit, blitted, read_residual, reconstructed, residual_read, Place, TxState,
};
use vstd::prelude::*;

verus! {

// ---------------------------------------------------------------------------
// References and vectors
// ---------------------------------------------------------------------------

/// One of two references by the symbol of table `k`, and the decoder behind it.
pub open spec fn either(c: Coder<InterKey>, k: InterKey, a: u8, b: u8) -> (u8, Coder<InterKey>) {
    (
        if c.val(k) == 0 {
            a
        } else {
            b
        },
        c.next(k),
    )
}

/// The forward and the backward reference of a block with two, and the decoder behind
/// them.
#[verifier::opaque]
pub open spec fn two_refs_of(c: Coder<InterKey>) -> (u8, u8, Coder<InterKey>) {
    let c1 = c.next(InterKey::CompRefType(0));
    let kf = InterKey::UniCompRef(0, 0);
    let c2 = c1.next(kf);
    let (fwd, c3) = if c1.val(kf) == 0 {
        either(c2, InterKey::UniCompRef(0, 1), LAST_FRAME, LAST2_FRAME)
    } else {
        either(c2, InterKey::UniCompRef(0, 2), LAST3_FRAME, GOLDEN_FRAME)
    };
    let kb = InterKey::UniCompRef(1, 0);
    let c4 = c3.next(kb);
    let (bwd, c5) = if c3.val(kb) == 0 {
        either(c4, InterKey::CompRef(0, 0), BWDREF_FRAME, ALTREF_FRAME)
    } else {
        either(c4, InterKey::CompBwdRef(0, 0), ALTREF2_FRAME, BWDREF_FRAME)
    };
    (fwd, bwd, c5)
}

/// The references of a block, the second none where it has one, and the decoder behind
/// them.
#[verifier::opaque]
pub open spec fn refs_of(c: Coder<InterKey>, select: bool) -> (u8, u8, Coder<InterKey>) {
    let k = InterKey::CompMode(0);
    if select && c.val(k) == 1 {
        two_refs_of(c.next(k))
    } else {
        let (r, c1) = single_ref_from(
            if select {
                c.next(k)
            } else {
                c
            },
            0,
            0,
        );
        (r, NONE_FRAME, c1)
    }
}

/// The references of a block as a list.
pub open spec fn ref_list(r0: u8, r1: u8) -> Seq<u8> {
    if r1 == NONE_FRAME {
        seq![r0]
    } else {
        seq![r0, r1]
    }
}

/// The candidates that the neighbours at a place offer to a block.
pub open spec fn block_candidates(above: Neighbour, left: Neighbour, r0: u8, r1: u8) -> Seq<
    MvCandidate,
> {
    candidates_of(
        seq![(above.ref0, above.mv0), (above.ref1, above.mv1)],
        seq![(left.ref0, left.mv0), (left.ref1, left.mv1)],
        ref_list(r0, r1),
        2,
    )
}

/// The vectors of a block for its references, and the decoder behind them.
#[verifier::opaque]
pub open spec fn vectors_of(
    c: Coder<InterKey>,
    r0: u8,
    r1: u8,
    cands: Seq<MvCandidate>,
    hp: bool,
) -> (Mv, Mv, Coder<InterKey>) {
    let (mv0, c1) = vector_of(c, r0, cands, hp, false, 0);
    if r1 == NONE_FRAME {
        (mv0, Mv { row: 0, col: 0 }, c1)
    } else {
        let (mv1, c2) = vector_of(c1, r1, cands, hp, false, 0);
        (mv0, mv1, c2)
    }
}

/// The references and the vectors of a block.
#[derive(Debug, Clone, Copy)]
pub struct Motion {
    pub ref0: u8,
    pub ref1: u8,
    pub mv0: Mv,
    pub mv1: Mv,
}

impl Motion {
    /// References that have names.
    pub open spec fn wf(self) -> bool {
        self.ref0 <= 8 && self.ref1 <= 8
    }
}

/// The references and the vectors of a block, and the decoder behind them. Coded vectors
/// have eighths where the frame has high precision, and quarters otherwise.
#[verifier::opaque]
pub open spec fn motion_of(
    c: Coder<InterKey>,
    s: SidesModel,
    row: int,
    col: int,
    select: bool,
    hp: bool,
) -> (Motion, Coder<InterKey>) {
    let (ref0, ref1, c1) = refs_of(c, select);
    let cands = block_candidates(s.above[col], s.left[row], ref0, ref1);
    let (mv0, mv1, c2) = vectors_of(c1, ref0, ref1, cands, hp);
    (Motion { ref0, ref1, mv0, mv1 }, c2)
}

fn read_two_refs(dec: &mut SymbolDecoder<'_>, cdfs: &mut InterCdfs) -> (r: (u8, u8))
    requires
        old(dec)@.wf(),
        old(cdfs).wf(),
    ensures
        final(dec)@.wf(),
        final(cdfs).wf(),
        (r.0, r.1, i_state(*final(dec), *final(cdfs))) == two_refs_of(
            i_state(*old(dec), *old(cdfs)),
        ),
        2 <= r.0 <= 8,
        2 <= r.1 <= 8,
{
    proof {
        reveal(two_refs_of);
    }
    let _kind: usize = cdfs.read_comp_ref_type(dec, 0);
    let f: usize = cdfs.read_uni_comp_ref(dec, 0, 0);
    let fwd: u8 = if f == 0 {
        if cdfs.read_uni_comp_ref(dec, 0, 1) == 0 {
            LAST_FRAME
        } else {
            LAST2_FRAME
        }
    } else {
        if cdfs.read_uni_comp_ref(dec, 0, 2) == 0 {
            LAST3_FRAME
        } else {
            GOLDEN_FRAME
        }
    };
    let b: usize = cdfs.read_uni_comp_ref(dec, 1, 0);
    let bwd: u8 = if b == 0 {
        if cdfs.read_comp_ref(dec, 0, 0) == 0 {
            BWDREF_FRAME
        } else {
            ALTREF_FRAME
        }
    } else {
        if cdfs.read_comp_bwd_ref(dec, 0, 0) == 0 {
            ALTREF2_FRAME
        } else {
            BWDREF_FRAME
        }
    };
    (fwd, bwd)
}

fn read_refs(dec: &mut SymbolDecoder<'_>, cdfs: &mut InterCdfs, select: bool) -> (r: (u8, u8))
    requires
        old(dec)@.wf(),
        old(cdfs).wf(),
    ensures
        final(dec)@.wf(),
        final(cdfs).wf(),
        (r.0, r.1, i_state(*final(dec), *final(cdfs))) == refs_of(
            i_state(*old(dec), *old(cdfs)),
            select,
        ),
        2 <= r.0 <= 8,
        r.1 <= 8,
{
    proof {
        reveal(refs_of);
    }
    if select {
        let two: usize = cdfs.read_comp_mode(dec, 0);
        if two == 1 {
            return read_two_refs(dec, cdfs);
        }
    }
    let name: u8 = read_single_ref_name(dec, cdfs, 0);
    (name, NONE_FRAME)
}

fn read_vectors(
    dec: &mut SymbolDecoder<'_>,
    cdfs: &mut InterCdfs,
    r0: u8,
    r1: u8,
    cands: &Vec<MvCandidate>,
    hp: bool,
) -> (r: (Mv, Mv))
    requires
        old(dec)@.wf(),
        old(cdfs).wf(),
    ensures
        final(dec)@.wf(),
        final(cdfs).wf(),
        (r.0, r.1, i_state(*final(dec), *final(cdfs))) == vectors_of(
            i_state(*old(dec), *old(cdfs)),
            r0,
            r1,
            cands@,
            hp,
        ),
{
    proof {
        reveal(vectors_of);
    }
    let mv0: Mv = match decode_ref_and_mv(dec, cdfs, r0, cands.as_slice(), hp, false, 0, false) {
        Ok(v) => v.1,
        Err(_) => Mv { row: 0, col: 0 },
    };
    if r1 == NONE_FRAME {
        return (mv0, Mv { row: 0, col: 0 });
    }
    let mv1: Mv = match decode_ref_and_mv(dec, cdfs, r1, cands.as_slice(), hp, false, 0, false) {
        Ok(v) => v.1,
        Err(_) => Mv { row: 0, col: 0 },
    };
    (mv0, mv1)
}

/// Reads the references and the vectors of a block between two neighbours.
pub(crate) fn read_motion(
    dec: &mut SymbolDecoder<'_>,
    cdfs: &mut InterCdfs,
    above: Neighbour,
    left: Neighbour,
    select: bool,
    hp: bool,
    Ghost(s): Ghost<SidesModel>,
    Ghost(row): Ghost<int>,
    Ghost(col): Ghost<int>,
) -> (r: Motion)
    requires
        old(dec)@.wf(),
        old(cdfs).wf(),
        s.above[col] == above,
        s.left[row] == left,
    ensures
        final(dec)@.wf(),
        final(cdfs).wf(),
        (r, i_state(*final(dec), *final(cdfs))) == motion_of(
            i_state(*old(dec), *old(cdfs)),
            s,
            row,
            col,
            select,
            hp,
        ),
        r.wf(),
{
    proof {
        reveal(motion_of);
    }
    let refs: (u8, u8) = read_refs(dec, cdfs, select);
    let a: [(u8, Mv); 2] = [(above.ref0, above.mv0), (above.ref1, above.mv1)];
    let l: [(u8, Mv); 2] = [(left.ref0, left.mv0), (left.ref1, left.mv1)];
    let mut list: Vec<u8> = Vec::new();
    list.push(refs.0);
    if refs.1 != NONE_FRAME {
        list.push(refs.1);
    }
    assert(list@ =~= ref_list(refs.0, refs.1));
    assert(a@ =~= seq![(above.ref0, above.mv0), (above.ref1, above.mv1)]);
    assert(l@ =~= seq![(left.ref0, left.mv0), (left.ref1, left.mv1)]);
    let cands: Vec<MvCandidate> = build_mv_candidates(&a, &l, list.as_slice(), 2);
    let mvs: (Mv, Mv) = read_vectors(dec, cdfs, refs.0, refs.1, &cands, hp);
    Motion { ref0: refs.0, ref1: refs.1, mv0: mvs.0, mv1: mvs.1 }
}

// ---------------------------------------------------------------------------
// Prediction
// ---------------------------------------------------------------------------

/// Every reference frame has planes of its size.
pub open spec fn refs_wf(refs: RefFrames<'_>) -> bool {
    forall|i: int|
        0 <= i < 8 ==> match #[trigger] refs.slots[i] {
            Some(s) => s.wf(),
            None => true,
        }
}

/// The planes of a reference.
pub open spec fn slot_planes(s: Option<RefSlot<'_>>) -> Option<Planes> {
    match s {
        Some(r) => Some(
            Planes {
                y: r.y@,
                u: r.u@,
                v: r.v@,
                width: r.width as int,
                height: r.height as int,
            },
        ),
        None => None,
    }
}

/// The planes of all references.
pub open spec fn refs_model(refs: RefFrames<'_>) -> Seq<Option<Planes>> {
    Seq::new(8, |i: int| slot_planes(refs.slots[i]))
}

/// A plane of a picture with its width and height.
pub open spec fn plane_part(p: Planes, plane: int) -> (Seq<u8>, int, int) {
    if plane == 1 {
        (p.u, p.width / 2, p.height / 2)
    } else if plane == 2 {
        (p.v, p.width / 2, p.height / 2)
    } else {
        (p.y, p.width, p.height)
    }
}

/// The prediction of a block of `bw` by `bh` samples at `x`, `y` from a reference; zero
/// without a reference or a plane.
pub open spec fn mc_block(
    slot: Option<Planes>,
    plane: int,
    x: int,
    y: int,
    bw: int,
    bh: int,
    mv: Mv,
    filter: u8,
) -> Seq<u8> {
    match slot {
        Some(s) if plane_part(s, plane).1 > 0 && plane_part(s, plane).2 > 0 => {
            let (p, w, h) = plane_part(s, plane);
            let m = McModel {
                plane: p,
                stride: w,
                w,
                h,
                x,
                y,
                row: mv.row as int,
                col: mv.col as int,
                filter,
            };
            Seq::new((bw * bh) as nat, |k: int| mc_pixel(m, k / bw, k % bw) as u8)
        },
        _ => Seq::new((bw * bh) as nat, |k: int| 0u8),
    }
}

/// The mean of two predictions, rounded up.
pub open spec fn averaged(a: Seq<u8>, b: Seq<u8>) -> Seq<u8> {
    Seq::new(a.len(), |k: int| ((a[k] + b[k] + 1) / 2) as u8)
}

/// The reference in a slot; none for a slot that does not exist.
pub open spec fn slot_at(refs: Seq<Option<Planes>>, slot: int) -> Option<Planes> {
    if slot < 8 {
        refs[slot]
    } else {
        None
    }
}

fn read_slot<'a>(refs: &RefFrames<'a>, slot: usize) -> (r: Option<RefSlot<'a>>)
    requires
        refs_wf(*refs),
    ensures
        slot_planes(r) == slot_at(refs_model(*refs), slot as int),
        match r {
            Some(s) => s.wf(),
            None => true,
        },
{
    if slot < 8 {
        refs.slots[slot]
    } else {
        None
    }
}

/// The prediction of a block in a plane: from its first reference, or the mean of both
/// where it has a second one that is there.
#[verifier::opaque]
pub open spec fn inter_pred(
    refs: Seq<Option<Planes>>,
    cfg: TileConfig,
    plane: int,
    x: int,
    y: int,
    bw: int,
    bh: int,
    m: Motion,
    filter: u8,
) -> Seq<u8> {
    let s0 = slot_at(refs, cfg.ref_to_slot[m.ref0 as int] as int);
    let s1 = slot_at(refs, cfg.ref_to_slot[m.ref1 as int] as int);
    let a = mc_block(s0, plane, x, y, bw, bh, m.mv0, filter);
    if m.ref1 != NONE_FRAME && s1 is Some {
        averaged(a, mc_block(s1, plane, x, y, bw, bh, m.mv1, filter))
    } else {
        a
    }
}

fn predict_from(
    slot: Option<RefSlot<'_>>,
    plane: usize,
    x: usize,
    y: usize,
    bw: usize,
    bh: usize,
    mv: Mv,
    filter: u8,
) -> (r: Vec<u8>)
    requires
        match slot {
            Some(s) => s.wf(),
            None => true,
        },
        x <= 0x2_0000,
        y <= 0x2_0000,
        1 <= bw <= 128,
        1 <= bh <= 128,
    ensures
        r@ == mc_block(slot_planes(slot), plane as int, x as int, y as int, bw as int, bh as int, mv, filter),
        r@.len() == bw * bh,
{
    proof {
        assert(1 <= bw * bh <= 16384) by (nonlinear_arith)
            requires
                1 <= bw <= 128,
                1 <= bh <= 128,
        ;
    }
    let len: usize = bw * bh;
    let mut t: Vec<u8> = vec![0u8; len];
    assert(t@ =~= Seq::new((bw * bh) as nat, |k: int| 0u8));
    match slot {
        Some(s) => {
            let p: (&[u8], usize, usize) = s.plane(plane);
            if p.1 > 0 && p.2 > 0 {
                let ghost m = McModel {
                    plane: p.0@,
                    stride: p.1 as int,
                    w: p.1 as int,
                    h: p.2 as int,
                    x: x as int,
                    y: y as int,
                    row: mv.row as int,
                    col: mv.col as int,
                    filter,
                };
                proof {
                    let w = p.1 as int;
                    let h = p.2 as int;
                    assert((h - 1) * w + w == w * h) by (nonlinear_arith);
                    assert((bh - 1) * bw + bw == bw * bh) by (nonlinear_arith);
                }
                motion_compensate(t.as_mut_slice(), bw, p.0, p.1, p.1, p.2, x, y, bw, bh, mv, filter);
                proof {
                    assert forall|k: int| 0 <= k < t@.len() implies #[trigger] t@[k] == mc_pixel(
                        m,
                        k / bw as int,
                        k % bw as int,
                    ) as u8 by {
                        let w = bw as int;
                        vstd::arithmetic::div_mod::lemma_fundamental_div_mod(k, w);
                        let a = k / w;
                        let b = k % w;
                        assert(w * a == a * w) by (nonlinear_arith);
                        assert(0 <= a < bh) by (nonlinear_arith)
                            requires
                                k == w * a + b,
                                0 <= k < w * bh,
                                0 <= b < w,
                        ;
                        assert(mc_at(t@, w, m, a, b));
                    }
                    assert(t@ =~= mc_block(
                        slot_planes(slot),
                        plane as int,
                        x as int,
                        y as int,
                        bw as int,
                        bh as int,
                        mv,
                        filter,
                    ));
                }
            }
        },
        None => {},
    }
    t
}

fn average(a: &Vec<u8>, b: &Vec<u8>) -> (r: Vec<u8>)
    requires
        a@.len() == b@.len(),
    ensures
        r@ == averaged(a@, b@),
{
    let mut r: Vec<u8> = Vec::new();
    let mut k: usize = 0;
    while k < a.len()
        invariant
            k <= a@.len(),
            a@.len() == b@.len(),
            r@.len() == k,
            forall|i: int| 0 <= i < k ==> #[trigger] r@[i] == ((a@[i] + b@[i] + 1) / 2) as u8,
        decreases a.len() - k,
    {
        let v: u32 = (a[k] as u32 + b[k] as u32 + 1) / 2;
        r.push(v as u8);
        k = k + 1;
    }
    assert(r@ =~= averaged(a@, b@));
    r
}

/// A plane with the prediction of a block written into it.
#[verifier::opaque]
pub open spec fn plane_predicted(
    p: Seq<u8>,
    refs: Seq<Option<Planes>>,
    cfg: TileConfig,
    plane: int,
    x: int,
    y: int,
    bw: int,
    bh: int,
    m: Motion,
    filter: u8,
) -> Seq<u8> {
    blitted(
        p,
        plane_place(cfg, plane, x, y, bw, bh),
        inter_pred(refs, cfg, plane, x, y, bw, bh, m, filter),
    )
}

/// A block at `x`, `y` of a plane of a tile.
pub open spec fn plane_place(cfg: TileConfig, plane: int, x: int, y: int, bw: int, bh: int) -> Place {
    if plane == 0 {
        Place {
            stride: cfg.y_stride as int,
            w: cfg.tile_w as int,
            h: cfg.tile_h as int,
            x,
            y,
            bw,
            bh,
        }
    } else {
        Place {
            stride: cfg.uv_stride as int,
            w: cfg.tile_cw(),
            h: cfg.tile_ch(),
            x,
            y,
            bw,
            bh,
        }
    }
}

/// Writes a block into a plane of a tile.
fn blit_plane(
    p: &mut Vec<u8>,
    cfg: &TileConfig,
    plane: usize,
    x: usize,
    y: usize,
    bw: usize,
    bh: usize,
    vals: &Vec<u8>,
)
    requires
        cfg.wf(),
        x <= 0x2_0000,
        y <= 0x2_0000,
        bw <= 128,
        bh <= 128,
        vals@.len() == bw * bh,
    ensures
        final(p)@ == blitted(
            old(p)@,
            plane_place(*cfg, plane as int, x as int, y as int, bw as int, bh as int),
            vals@,
        ),
        final(p)@.len() == old(p)@.len(),
{
    if plane == 0 {
        blit(p, cfg.y_stride, cfg.tile_w, cfg.tile_h, x, y, bw, bh, vals);
    } else {
        let w: usize = cfg.chroma_width();
        let h: usize = cfg.chroma_height();
        blit(p, cfg.uv_stride, w, h, x, y, bw, bh, vals);
    }
}

/// Predicts a block in a plane.
pub fn inter_predict_plane(
    p: &mut Vec<u8>,
    refs: &RefFrames<'_>,
    cfg: &TileConfig,
    plane: usize,
    x: usize,
    y: usize,
    bw: usize,
    bh: usize,
    m: Motion,
    filter: u8,
)
    requires
        cfg.wf(),
        refs_wf(*refs),
        m.wf(),
        x <= 0x2_0000,
        y <= 0x2_0000,
        1 <= bw <= 128,
        1 <= bh <= 128,
    ensures
        final(p)@ == plane_predicted(
            old(p)@,
            refs_model(*refs),
            *cfg,
            plane as int,
            x as int,
            y as int,
            bw as int,
            bh as int,
            m,
            filter,
        ),
        final(p)@.len() == old(p)@.len(),
{
    proof {
        reveal(plane_predicted);
        reveal(inter_pred);
    }
    let slot0: usize = cfg.ref_to_slot[m.ref0 as usize] as usize;
    let slot1: usize = cfg.ref_to_slot[m.ref1 as usize] as usize;
    let first: Option<RefSlot<'_>> = read_slot(refs, slot0);
    let second: Option<RefSlot<'_>> = read_slot(refs, slot1);
    let mut vals: Vec<u8> = predict_from(first, plane, x, y, bw, bh, m.mv0, filter);
    if m.ref1 != NONE_FRAME && second.is_some() {
        let other: Vec<u8> = predict_from(second, plane, x, y, bw, bh, m.mv1, filter);
        vals = average(&vals, &other);
    }
    blit_plane(p, cfg, plane, x, y, bw, bh, &vals);
}

// ---------------------------------------------------------------------------
// Residual
// ---------------------------------------------------------------------------

/// The samples of a plane under a block, zero beyond the plane.
pub open spec fn samples_under(p: Seq<u8>, a: Place) -> Seq<i32> {
    Seq::new(
        (a.bw * a.bh) as nat,
        |k: int| {
            let q = (a.y + k / a.bw) * a.stride + a.x + k % a.bw;
            if 0 <= q < p.len() {
                p[q] as i32
            } else {
                0
            }
        },
    )
}

/// The state after the residual of the transform block at `x`, `y` of a plane is added,
/// and the error if its coefficients are refused.
#[verifier::opaque]
pub open spec fn residual_added(st: TxState, cfg: TileConfig, plane: int, tx: int, x: int, y: int) -> (
    TxState,
    Option<KinetixError>,
) {
    let (res, c, ctx) = residual_read(
        st.c,
        st.ctx,
        tx_ctx_of(cfg, plane, tx, x, y, 0, 0),
        tx,
        cfg.qindex as int,
        false,
    );
    match res {
        Err(e) => (TxState { c, ctx, plane: st.plane }, Some(e)),
        Ok(r) => {
            let a = plane_place(cfg, plane, x, y, TX_WIDTH[tx] as int, TX_HEIGHT[tx] as int);
            (
                TxState {
                    c,
                    ctx,
                    plane: blitted(st.plane, a, reconstructed(samples_under(st.plane, a), r)),
                },
                None,
            )
        },
    }
}

fn gather(p: &Vec<u8>, stride: usize, x: usize, y: usize, bw: usize, bh: usize) -> (r: Vec<i32>)
    requires
        stride <= 0x1_0000,
        x <= 0x2_0000,
        y <= 0x2_0000,
        1 <= bw <= 64,
        1 <= bh <= 64,
    ensures
        r@.len() == bw * bh,
        forall|k: int|
            0 <= k < r@.len() ==> #[trigger] r@[k] == ({
                let q = (y + k / bw as int) * stride + x + k % bw as int;
                if 0 <= q < p@.len() {
                    p@[q] as i32
                } else {
                    0
                }
            }) && 0 <= r@[k] <= 255,
{
    let mut r: Vec<i32> = Vec::new();
    let mut i: usize = 0;
    while i < bh
        invariant
            i <= bh,
            stride <= 0x1_0000,
            x <= 0x2_0000,
            y <= 0x2_0000,
            1 <= bw <= 64,
            1 <= bh <= 64,
            r@.len() == i * bw,
            forall|k: int|
                0 <= k < r@.len() ==> #[trigger] r@[k] == ({
                    let q = (y + k / bw as int) * stride + x + k % bw as int;
                    if 0 <= q < p@.len() {
                        p@[q] as i32
                    } else {
                        0
                    }
                }) && 0 <= r@[k] <= 255,
        decreases bh - i,
    {
        let mut j: usize = 0;
        while j < bw
            invariant
                j <= bw,
                i < bh,
                stride <= 0x1_0000,
                x <= 0x2_0000,
                y <= 0x2_0000,
                1 <= bw <= 64,
                1 <= bh <= 64,
                r@.len() == i * bw + j,
                forall|k: int|
                    0 <= k < r@.len() ==> #[trigger] r@[k] == ({
                        let q = (y + k / bw as int) * stride + x + k % bw as int;
                        if 0 <= q < p@.len() {
                            p@[q] as i32
                        } else {
                            0
                        }
                    }) && 0 <= r@[k] <= 255,
            decreases bw - j,
        {
            proof {
                lemma_position(bw as int, i as int, j as int);
                assert(0 <= (y + i) * stride <= 0x4_0000_0000) by (nonlinear_arith)
                    requires
                        y + i <= 0x4_0000,
                        stride <= 0x1_0000,
                ;
            }
            let q: u64 = (y + i) as u64 * stride as u64 + (x + j) as u64;
            let v: i32 = if q < p.len() as u64 {
                p[q as usize] as i32
            } else {
                0
            };
            r.push(v);
            j = j + 1;
        }
        proof {
            assert((i + 1) * bw == i * bw + bw) by (nonlinear_arith);
        }
        i = i + 1;
    }
    assert(bh * bw == bw * bh) by (nonlinear_arith);
    r
}

/// Adds the residual of a transform block at `x`, `y` of a plane.
fn add_tx_residual(
    dec: &mut SymbolDecoder<'_>,
    cdfs: &mut TileCdfs,
    ctxs: &mut CoeffContexts,
    p: &mut Vec<u8>,
    cfg: &TileConfig,
    plane: usize,
    tx: usize,
    x: usize,
    y: usize,
) -> (r: Result<(), KinetixError>)
    requires
        old(dec)@.wf(),
        old(cdfs).wf(),
        cfg.wf(),
        tx < 19,
        x <= 0x1_8000,
        y <= 0x1_8000,
    ensures
        final(dec)@.wf(),
        final(cdfs).wf(),
        final(p)@.len() == old(p)@.len(),
        ({
            let m = residual_added(
                TxState { c: c_state(*old(dec), *old(cdfs)), ctx: old(ctxs)@, plane: old(p)@ },
                *cfg,
                plane as int,
                tx as int,
                x as int,
                y as int,
            );
            &&& m.0 == (TxState {
                c: c_state(*final(dec), *final(cdfs)),
                ctx: final(ctxs)@,
                plane: final(p)@,
            })
            &&& match m.1 {
                Some(e) => r == Err::<(), _>(e),
                None => r == Ok::<(), KinetixError>(()),
            }
        }),
{
    proof {
        reveal(residual_added);
        lemma_tx_dims(tx as int);
    }
    let blk: TxBlockCtx = crate::intra_block::tx_context(cfg, plane, tx, x, y, 0, 0);
    let res: Vec<i32> = match read_residual(dec, cdfs, ctxs, &blk, tx, cfg.qindex, false) {
        Ok(v) => v,
        Err(e) => {
            return Err(e);
        },
    };
    let w: usize = TX_WIDTH[tx];
    let h: usize = TX_HEIGHT[tx];
    let stride: usize = if plane == 0 {
        cfg.y_stride
    } else {
        cfg.uv_stride
    };
    let here: Vec<i32> = gather(p, stride, x, y, w, h);
    let ghost a = plane_place(*cfg, plane as int, x as int, y as int, w as int, h as int);
    assert(here@ =~= samples_under(p@, a));
    let vals: Vec<u8> = add_residual(&here, &res);
    blit_plane(p, cfg, plane, x, y, w, h, &vals);
    Ok(())
}

/// An inter block whose transform size is known.
pub struct InterJob {
    pub cfg: TileConfig,
    pub row: int,
    pub col: int,
    pub bsize: int,
    pub tx: int,
}

impl InterJob {
    /// The place of the block in the tile.
    pub open spec fn x(self) -> int {
        self.col * 4 - self.cfg.tile_px_x0
    }

    pub open spec fn y(self) -> int {
        self.row * 4 - self.cfg.tile_px_y0
    }

    /// A block in the tile with a transform of at most 16 by 16 samples.
    pub open spec fn wf(self) -> bool {
        &&& self.cfg.wf()
        &&& self.cfg.holds(self.row, self.col)
        &&& 0 <= self.bsize < 22
        &&& 0 <= self.tx <= 2
    }

    /// The chroma transform size.
    pub open spec fn c_tx(self) -> int {
        if !self.cfg.subsampling_x {
            self.tx
        } else if self.tx == 2 {
            1
        } else {
            0
        }
    }

    /// The chroma position of a luma position.
    pub open spec fn c_pos(self, p: int) -> int {
        if self.cfg.subsampling_x {
            p / 2
        } else {
            p
        }
    }
}

/// The state after the luma residual of the row at `ty`, from `tx` on, and the first
/// error.
pub open spec fn inter_luma_row(st: TxState, j: InterJob, tx: int, ty: int) -> (
    TxState,
    Option<KinetixError>,
)
    decreases at_least_0(BLOCK_WIDTH[j.bsize] - tx),
{
    let w = TX_WIDTH[j.tx] as int;
    if tx >= BLOCK_WIDTH[j.bsize] || w <= 0 {
        (st, None)
    } else {
        let (s, e) = residual_added(st, j.cfg, 0, j.tx, j.x() + tx, j.y() + ty);
        if e is Some {
            (s, e)
        } else {
            inter_luma_row(s, j, tx + w, ty)
        }
    }
}

/// The state after the luma residual from the row at `ty` on, and the first error.
pub open spec fn inter_luma_rows(st: TxState, j: InterJob, ty: int) -> (
    TxState,
    Option<KinetixError>,
)
    decreases at_least_0(BLOCK_HEIGHT[j.bsize] - ty),
{
    let h = TX_HEIGHT[j.tx] as int;
    if ty >= BLOCK_HEIGHT[j.bsize] || h <= 0 {
        (st, None)
    } else {
        let (s, e) = inter_luma_row(st, j, 0, ty);
        if e is Some {
            (s, e)
        } else {
            inter_luma_rows(s, j, ty + h)
        }
    }
}

/// Adds the luma residual of an inter block. The first refused transform block ends it.
pub(crate) fn add_luma_residual(
    dec: &mut SymbolDecoder<'_>,
    cdfs: &mut TileCdfs,
    ctxs: &mut CoeffContexts,
    p: &mut Vec<u8>,
    cfg: &TileConfig,
    row: usize,
    col: usize,
    bsize: usize,
    luma_tx: usize,
    Ghost(j): Ghost<InterJob>,
) -> (r: Result<(), KinetixError>)
    requires
        old(dec)@.wf(),
        old(cdfs).wf(),
        j.wf(),
        j.cfg == *cfg,
        j.row == row,
        j.col == col,
        j.bsize == bsize,
        j.tx == luma_tx,
    ensures
        final(dec)@.wf(),
        final(cdfs).wf(),
        final(p)@.len() == old(p)@.len(),
        ({
            let m = inter_luma_rows(
                TxState { c: c_state(*old(dec), *old(cdfs)), ctx: old(ctxs)@, plane: old(p)@ },
                j,
                0,
            );
            &&& m.0 == (TxState {
                c: c_state(*final(dec), *final(cdfs)),
                ctx: final(ctxs)@,
                plane: final(p)@,
            })
            &&& match m.1 {
                Some(e) => r == Err::<(), _>(e),
                None => r == Ok::<(), KinetixError>(()),
            }
        }),
{
    proof {
        lemma_block_dims(bsize as int);
        lemma_tx_dims(luma_tx as int);
    }
    let w: usize = BLOCK_WIDTH[bsize];
    let h: usize = BLOCK_HEIGHT[bsize];
    let tw: usize = TX_WIDTH[luma_tx];
    let th: usize = TX_HEIGHT[luma_tx];
    let ghost st0 = TxState { c: c_state(*dec, *cdfs), ctx: ctxs@, plane: p@ };
    let mut ty: usize = 0;
    while ty < h
        invariant
            dec@.wf(),
            cdfs.wf(),
            p@.len() == old(p)@.len(),
            j.wf(),
            j.cfg == *cfg,
            j.row == row,
            j.col == col,
            j.bsize == bsize,
            j.tx == luma_tx,
            w == BLOCK_WIDTH[j.bsize],
            h == BLOCK_HEIGHT[j.bsize],
            tw == TX_WIDTH[j.tx],
            th == TX_HEIGHT[j.tx],
            4 <= tw <= 64,
            4 <= th <= 64,
            w <= 128,
            h <= 128,
            ty <= 256,
            st0 == (TxState {
                c: c_state(*old(dec), *old(cdfs)),
                ctx: old(ctxs)@,
                plane: old(p)@,
            }),
            inter_luma_rows(st0, j, 0) == inter_luma_rows(
                TxState { c: c_state(*dec, *cdfs), ctx: ctxs@, plane: p@ },
                j,
                ty as int,
            ),
        decreases 256 - ty,
    {
        let ghost st1 = TxState { c: c_state(*dec, *cdfs), ctx: ctxs@, plane: p@ };
        let mut tx: usize = 0;
        while tx < w
            invariant
                dec@.wf(),
                cdfs.wf(),
                p@.len() == old(p)@.len(),
                j.wf(),
                j.cfg == *cfg,
                j.row == row,
                j.col == col,
                j.bsize == bsize,
                j.tx == luma_tx,
                w == BLOCK_WIDTH[j.bsize],
                h == BLOCK_HEIGHT[j.bsize],
                tw == TX_WIDTH[j.tx],
                th == TX_HEIGHT[j.tx],
                4 <= tw <= 64,
                4 <= th <= 64,
                w <= 128,
                h <= 128,
                ty < h,
                tx <= 256,
                st0 == (TxState {
                    c: c_state(*old(dec), *old(cdfs)),
                    ctx: old(ctxs)@,
                    plane: old(p)@,
                }),
                inter_luma_rows(st0, j, 0) == inter_luma_rows(st1, j, ty as int),
                inter_luma_row(st1, j, 0, ty as int) == inter_luma_row(
                    TxState { c: c_state(*dec, *cdfs), ctx: ctxs@, plane: p@ },
                    j,
                    tx as int,
                    ty as int,
                ),
            decreases 256 - tx,
        {
            let x: usize = col * 4 + tx - cfg.tile_px_x0;
            let y: usize = row * 4 + ty - cfg.tile_px_y0;
            match add_tx_residual(dec, cdfs, ctxs, p, cfg, 0, luma_tx, x, y) {
                Ok(()) => {},
                Err(e) => {
                    return Err(e);
                },
            }
            tx = tx + tw;
        }
        ty = ty + th;
    }
    Ok(())
}

/// The state after the chroma residual that belongs to the luma position `tx`, `ty` of a
/// block is added, U first, and the first error. Positions beyond the tile are left out.
#[verifier::opaque]
pub open spec fn inter_chroma_pair(st: ChromaState, j: InterJob, tx: int, ty: int) -> (
    ChromaState,
    Option<KinetixError>,
) {
    let x = j.c_pos(j.x() + tx);
    let y = j.c_pos(j.y() + ty);
    if x >= j.cfg.tile_cw() || y >= j.cfg.tile_ch() {
        (st, None)
    } else {
        let (su, eu) = residual_added(
            TxState { c: st.c, ctx: st.ctx, plane: st.u },
            j.cfg,
            1,
            j.c_tx(),
            x,
            y,
        );
        if eu is Some {
            (ChromaState { c: su.c, ctx: su.ctx, u: su.plane, v: st.v }, eu)
        } else {
            let (sv, ev) = residual_added(
                TxState { c: su.c, ctx: su.ctx, plane: st.v },
                j.cfg,
                2,
                j.c_tx(),
                x,
                y,
            );
            (ChromaState { c: sv.c, ctx: sv.ctx, u: su.plane, v: sv.plane }, ev)
        }
    }
}

/// The state after the chroma residual of the row at `ty`, from `tx` on, and the first
/// error.
pub open spec fn inter_chroma_row(st: ChromaState, j: InterJob, tx: int, ty: int) -> (
    ChromaState,
    Option<KinetixError>,
)
    decreases at_least_0(BLOCK_WIDTH[j.bsize] - tx),
{
    let w = TX_WIDTH[j.tx] as int;
    if tx >= BLOCK_WIDTH[j.bsize] || w <= 0 {
        (st, None)
    } else {
        let (s, e) = inter_chroma_pair(st, j, tx, ty);
        if e is Some {
            (s, e)
        } else {
            inter_chroma_row(s, j, tx + w, ty)
        }
    }
}

/// The state after the chroma residual from the row at `ty` on, and the first error.
pub open spec fn inter_chroma_rows(st: ChromaState, j: InterJob, ty: int) -> (
    ChromaState,
    Option<KinetixError>,
)
    decreases at_least_0(BLOCK_HEIGHT[j.bsize] - ty),
{
    let h = TX_HEIGHT[j.tx] as int;
    if ty >= BLOCK_HEIGHT[j.bsize] || h <= 0 {
        (st, None)
    } else {
        let (s, e) = inter_chroma_row(st, j, 0, ty);
        if e is Some {
            (s, e)
        } else {
            inter_chroma_rows(s, j, ty + h)
        }
    }
}

fn add_chroma_pair(
    dec: &mut SymbolDecoder<'_>,
    cdfs: &mut TileCdfs,
    ctxs: &mut CoeffContexts,
    u: &mut Vec<u8>,
    v: &mut Vec<u8>,
    cfg: &TileConfig,
    row: usize,
    col: usize,
    c_tx: usize,
    tx: usize,
    ty: usize,
    Ghost(j): Ghost<InterJob>,
) -> (r: Result<(), KinetixError>)
    requires
        old(dec)@.wf(),
        old(cdfs).wf(),
        j.wf(),
        j.cfg == *cfg,
        j.row == row,
        j.col == col,
        j.c_tx() == c_tx,
        tx < 128,
        ty < 128,
    ensures
        final(dec)@.wf(),
        final(cdfs).wf(),
        final(u)@.len() == old(u)@.len(),
        final(v)@.len() == old(v)@.len(),
        ({
            let m = inter_chroma_pair(
                ChromaState {
                    c: c_state(*old(dec), *old(cdfs)),
                    ctx: old(ctxs)@,
                    u: old(u)@,
                    v: old(v)@,
                },
                j,
                tx as int,
                ty as int,
            );
            &&& m.0 == (ChromaState {
                c: c_state(*final(dec), *final(cdfs)),
                ctx: final(ctxs)@,
                u: final(u)@,
                v: final(v)@,
            })
            &&& match m.1 {
                Some(e) => r == Err::<(), _>(e),
                None => r == Ok::<(), KinetixError>(()),
            }
        }),
{
    proof {
        reveal(inter_chroma_pair);
    }
    let lx: usize = col * 4 + tx - cfg.tile_px_x0;
    let ly: usize = row * 4 + ty - cfg.tile_px_y0;
    let x: usize = if cfg.subsampling_x {
        lx / 2
    } else {
        lx
    };
    let y: usize = if cfg.subsampling_y {
        ly / 2
    } else {
        ly
    };
    if x >= cfg.chroma_width() || y >= cfg.chroma_height() {
        return Ok(());
    }
    match add_tx_residual(dec, cdfs, ctxs, u, cfg, 1, c_tx, x, y) {
        Ok(()) => {},
        Err(e) => {
            return Err(e);
        },
    }
    add_tx_residual(dec, cdfs, ctxs, v, cfg, 2, c_tx, x, y)
}

/// Adds the chroma residual of an inter block. The first refused transform block ends
/// it.
pub(crate) fn add_chroma_residual(
    dec: &mut SymbolDecoder<'_>,
    cdfs: &mut TileCdfs,
    ctxs: &mut CoeffContexts,
    u: &mut Vec<u8>,
    v: &mut Vec<u8>,
    cfg: &TileConfig,
    row: usize,
    col: usize,
    bsize: usize,
    luma_tx: usize,
    Ghost(j): Ghost<InterJob>,
) -> (r: Result<(), KinetixError>)
    requires
        old(dec)@.wf(),
        old(cdfs).wf(),
        j.wf(),
        j.cfg == *cfg,
        j.row == row,
        j.col == col,
        j.bsize == bsize,
        j.tx == luma_tx,
    ensures
        final(dec)@.wf(),
        final(cdfs).wf(),
        final(u)@.len() == old(u)@.len(),
        final(v)@.len() == old(v)@.len(),
        ({
            let m = inter_chroma_rows(
                ChromaState {
                    c: c_state(*old(dec), *old(cdfs)),
                    ctx: old(ctxs)@,
                    u: old(u)@,
                    v: old(v)@,
                },
                j,
                0,
            );
            &&& m.0 == (ChromaState {
                c: c_state(*final(dec), *final(cdfs)),
                ctx: final(ctxs)@,
                u: final(u)@,
                v: final(v)@,
            })
            &&& match m.1 {
                Some(e) => r == Err::<(), _>(e),
                None => r == Ok::<(), KinetixError>(()),
            }
        }),
{
    proof {
        lemma_block_dims(bsize as int);
        lemma_tx_dims(luma_tx as int);
    }
    let c_tx: usize = if !cfg.subsampling_x {
        luma_tx
    } else if luma_tx == 2 {
        1
    } else {
        0
    };
    let w: usize = BLOCK_WIDTH[bsize];
    let h: usize = BLOCK_HEIGHT[bsize];
    let tw: usize = TX_WIDTH[luma_tx];
    let th: usize = TX_HEIGHT[luma_tx];
    let ghost st0 = ChromaState { c: c_state(*dec, *cdfs), ctx: ctxs@, u: u@, v: v@ };
    let mut ty: usize = 0;
    while ty < h
        invariant
            dec@.wf(),
            cdfs.wf(),
            u@.len() == old(u)@.len(),
            v@.len() == old(v)@.len(),
            j.wf(),
            j.cfg == *cfg,
            j.row == row,
            j.col == col,
            j.bsize == bsize,
            j.tx == luma_tx,
            j.c_tx() == c_tx,
            w == BLOCK_WIDTH[j.bsize],
            h == BLOCK_HEIGHT[j.bsize],
            tw == TX_WIDTH[j.tx],
            th == TX_HEIGHT[j.tx],
            4 <= tw <= 64,
            4 <= th <= 64,
            w <= 128,
            h <= 128,
            ty <= 256,
            st0 == (ChromaState {
                c: c_state(*old(dec), *old(cdfs)),
                ctx: old(ctxs)@,
                u: old(u)@,
                v: old(v)@,
            }),
            inter_chroma_rows(st0, j, 0) == inter_chroma_rows(
                ChromaState { c: c_state(*dec, *cdfs), ctx: ctxs@, u: u@, v: v@ },
                j,
                ty as int,
            ),
        decreases 256 - ty,
    {
        let ghost st1 = ChromaState { c: c_state(*dec, *cdfs), ctx: ctxs@, u: u@, v: v@ };
        let mut tx: usize = 0;
        while tx < w
            invariant
                dec@.wf(),
                cdfs.wf(),
                u@.len() == old(u)@.len(),
                v@.len() == old(v)@.len(),
                j.wf(),
                j.cfg == *cfg,
                j.row == row,
                j.col == col,
                j.bsize == bsize,
                j.tx == luma_tx,
                j.c_tx() == c_tx,
                w == BLOCK_WIDTH[j.bsize],
                h == BLOCK_HEIGHT[j.bsize],
                tw == TX_WIDTH[j.tx],
                th == TX_HEIGHT[j.tx],
                4 <= tw <= 64,
                4 <= th <= 64,
                w <= 128,
                h <= 128,
                ty < h,
                tx <= 256,
                st0 == (ChromaState {
                    c: c_state(*old(dec), *old(cdfs)),
                    ctx: old(ctxs)@,
                    u: old(u)@,
                    v: old(v)@,
                }),
                inter_chroma_rows(st0, j, 0) == inter_chroma_rows(st1, j, ty as int),
                inter_chroma_row(st1, j, 0, ty as int) == inter_chroma_row(
                    ChromaState { c: c_state(*dec, *cdfs), ctx: ctxs@, u: u@, v: v@ },
                    j,
                    tx as int,
                    ty as int,
                ),
            decreases 256 - tx,
        {
            match add_chroma_pair(
                dec,
                cdfs,
                ctxs,
                u,
                v,
                cfg,
                row,
                col,
                c_tx,
                tx,
                ty,
                Ghost(j),
            ) {
                Ok(()) => {},
                Err(e) => {
                    return Err(e);
                },
            }
            tx = tx + tw;
        }
        ty = ty + th;
    }
    Ok(())
}

} // verus!
