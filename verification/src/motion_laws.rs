//! What coded motion means: vectors, and the blocks that they predict.
use crate::bits::{lemma_pow2i_mono, lemma_pow2i_values, pow2i};
use crate::entropy::Coder;
use crate::inter::{
    chroma_component, law_integer_vector, mc_pixel, mc_sample, scaled, McModel, Mv, MvCandidate,
    NONE_FRAME,
};
use crate::inter_block::{averaged, inter_pred, plane_part, refs_of, vectors_of, Motion};
use crate::inter_cdfs::InterKey;
use crate::inter_syntax::{
    first_for, lemma_bits_sign, lemma_val_sign, mv_bits, mv_component, mv_magnitude, mv_of, read_if,
    vector_of,
};
use crate::intra_syntax::TileConfig;
use crate::media::Planes;
use vstd::prelude::*;

verus! {

// ---------------------------------------------------------------------------
// Components
// ---------------------------------------------------------------------------

/// A magnitude is larger than that of every smaller class. Without eighths it is even, and
/// without any fraction it is a number of whole samples.
pub proof fn law_magnitude(
    c: Coder<InterKey>,
    class: int,
    comp: int,
    allow_hp: bool,
    force_integer: bool,
)
    requires
        0 <= class,
    ensures
        ({
            let m = mv_magnitude(c, class, comp, allow_hp, force_integer).0;
            &&& m > 0
            &&& class > 0 ==> m > 8 * pow2i(class)
            &&& !allow_hp ==> m % 2 == 0
            &&& !allow_hp && force_integer ==> m % 8 == 0
        }),
{
    reveal(mv_magnitude);
    if class == 0 {
        let k = InterKey::MvClass0Bit(comp);
        lemma_val_sign(c, k);
        let c3 = c.next(k);
        let kf = InterKey::MvClass0Fr(comp, c.val(k));
        lemma_val_sign(c3, kf);
        lemma_val_sign(read_if(c3, !force_integer, kf, 3).1, InterKey::MvClass0Hp(comp));
    } else {
        lemma_bits_sign(c, comp, class);
        lemma_pow2i_mono(0, class);
        assert(pow2i(class + 2) == 2 * pow2i(class + 1) && pow2i(class + 1) == 2 * pow2i(class));
        let c3 = mv_bits(c, comp, class).1;
        let kf = InterKey::MvFr(comp);
        lemma_val_sign(c3, kf);
        lemma_val_sign(read_if(c3, !force_integer, kf, 3).1, InterKey::MvHp(comp));
    }
}

/// A component is negative where its sign symbol is 1 and positive where that is 0.
pub proof fn law_component_sign(
    c: Coder<InterKey>,
    comp: int,
    allow_hp: bool,
    force_integer: bool,
)
    ensures
        ({
            let v = mv_component(c, comp, allow_hp, force_integer).0;
            &&& c.val(InterKey::MvSign(comp)) == 0 ==> v > 0
            &&& c.val(InterKey::MvSign(comp)) == 1 ==> v < 0
            &&& !allow_hp ==> v % 2 == 0
            &&& !allow_hp && force_integer ==> v % 8 == 0
        }),
{
    reveal(mv_component);
    let c1 = c.next(InterKey::MvSign(comp));
    let kc = InterKey::MvClass(comp);
    lemma_val_sign(c1, kc);
    law_magnitude(c1.next(kc), c1.val(kc), comp, allow_hp, force_integer);
    lemma_opposite(mv_magnitude(c1.next(kc), c1.val(kc), comp, allow_hp, force_integer).0);
}

proof fn lemma_opposite(m: int)
    ensures
        m % 2 == 0 ==> (-m) % 2 == 0,
        m % 8 == 0 ==> (-m) % 8 == 0,
{
}

/// Class bits are read from the least significant on: a set bit adds its weight, and one
/// more bit leaves what the others say.
pub proof fn law_class_bits(c: Coder<InterKey>, comp: int, n: int)
    requires
        0 <= n,
    ensures
        ({
            let (d, s) = mv_bits(c, comp, n);
            let e = mv_bits(c, comp, n + 1).0;
            &&& 0 <= d < pow2i(n)
            &&& s.val(InterKey::MvBit(comp, n)) == 1 ==> e == d + pow2i(n)
            &&& s.val(InterKey::MvBit(comp, n)) == 0 ==> e == d
        }),
    decreases n,
{
    lemma_pow2i_values();
    lemma_pow2i_mono(0, n);
    if n > 0 {
        law_class_bits(c, comp, n - 1);
        assert(pow2i(n) == 2 * pow2i(n - 1));
    }
}

// ---------------------------------------------------------------------------
// Vectors
// ---------------------------------------------------------------------------

/// A coded vector is the first candidate of its reference, or none, with the coded
/// difference on top. Any other vector is zero or one of the candidates.
pub proof fn law_vector(
    c: Coder<InterKey>,
    r: u8,
    cands: Seq<MvCandidate>,
    allow_hp: bool,
    force_integer: bool,
    ctx: int,
)
    ensures
        ({
            let v = vector_of(c, r, cands, allow_hp, force_integer, ctx).0;
            let base = first_for(cands, r, 0);
            let (row, col, _) = mv_of(c.next(InterKey::NewMv(ctx)), allow_hp, force_integer);
            &&& c.val(InterKey::NewMv(ctx)) == 1 && i32::MIN <= base.row + row <= i32::MAX
                ==> v.row - base.row == row
            &&& c.val(InterKey::NewMv(ctx)) == 1 && i32::MIN <= base.col + col <= i32::MAX
                ==> v.col - base.col == col
            &&& c.val(InterKey::NewMv(ctx)) != 1 ==> v == (Mv { row: 0, col: 0 }) || exists|i: int|
                0 <= i < cands.len() && i < 2 && v == (#[trigger] cands[i]).mv
            &&& c.val(InterKey::NewMv(ctx)) != 1 && c.next(InterKey::NewMv(ctx)).val(
                InterKey::ZeroMv(
                    if cands.len() > 0 && cands[0].ref_frame == r {
                        1
                    } else {
                        0
                    },
                ),
            ) == 1 ==> v == (Mv { row: 0, col: 0 })
        }),
{
    reveal(vector_of);
    if cands.len() > 0 {
        assert(cands[0].mv == cands[0].mv);
    }
    if cands.len() > 1 {
        assert(cands[1].mv == cands[1].mv);
    }
}

/// The candidate that a coded vector starts from is for its reference, and the first that
/// is.
pub proof fn law_first_for(cands: Seq<MvCandidate>, r: u8, i: int, k: int)
    requires
        0 <= i <= k < cands.len(),
        cands[k].ref_frame == r,
        forall|j: int| i <= j < k ==> (#[trigger] cands[j]).ref_frame != r,
    ensures
        first_for(cands, r, i) == cands[k].mv,
    decreases k - i,
{
    if i < k {
        law_first_for(cands, r, i + 1, k);
    }
}

/// A component for a plane of half size is half of it, within one, and points the same way.
pub proof fn law_chroma_component(v: int, u: int)
    requires
        v <= u,
    ensures
        v - 2 <= 2 * chroma_component(v) <= v + 1,
        chroma_component(v) <= chroma_component(u),
        chroma_component(0) == 0,
        v > 0 ==> chroma_component(v) >= 0,
        v < 0 ==> chroma_component(v) < 0,
{
}

/// A component for the same distance is the same.
pub proof fn law_same_distance(v: int, den: int)
    requires
        1 <= den,
        0 <= v,
    ensures
        scaled(v, den, den) == v,
{
    assert(v * den + den / 2 == den * v + den / 2) by (nonlinear_arith);
    assert(0 <= v * den) by (nonlinear_arith)
        requires
            0 <= v,
            1 <= den,
    ;
    vstd::arithmetic::div_mod::lemma_fundamental_div_mod_converse(
        v * den + den / 2,
        den,
        v,
        den / 2,
    );
}

// ---------------------------------------------------------------------------
// Blocks
// ---------------------------------------------------------------------------

/// The mean of two predictions lies between them, is the same in either order, and is one
/// of them where they agree.
pub proof fn law_averaged(a: Seq<u8>, b: Seq<u8>, k: int)
    requires
        a.len() == b.len(),
        0 <= k < a.len(),
    ensures
        a[k] <= b[k] ==> a[k] <= averaged(a, b)[k] <= b[k],
        a[k] >= b[k] ==> a[k] >= averaged(a, b)[k] >= b[k],
        averaged(a, b)[k] == averaged(b, a)[k],
        0 <= 2 * averaged(a, b)[k] - a[k] - b[k] <= 1,
{
}

/// A block without motion is the block at its own place in the reference that its header
/// slot names: luma from luma, the first chroma plane from the first and the second from
/// the second, each at its own size.
pub proof fn law_block_without_motion(
    refs: Seq<Option<Planes>>,
    cfg: TileConfig,
    plane: int,
    x: int,
    y: int,
    bw: int,
    bh: int,
    m: Motion,
    filter: u8,
    s: Planes,
    i: int,
    j: int,
)
    requires
        0 <= plane < 3,
        m.ref1 == NONE_FRAME,
        m.mv0 == (Mv { row: 0, col: 0 }),
        m.ref0 <= 8,
        cfg.ref_to_slot[m.ref0 as int] < 8,
        refs.len() == 8,
        refs[cfg.ref_to_slot[m.ref0 as int] as int] == Some(s),
        0 <= x,
        0 <= y,
        0 <= i < bh,
        0 <= j < bw,
        ({
            let w = if plane == 0 {
                s.width
            } else {
                s.width / 2
            };
            let h = if plane == 0 {
                s.height
            } else {
                s.height / 2
            };
            &&& x + j < w
            &&& y + i < h
        }),
    ensures
        ({
            let r = inter_pred(refs, cfg, plane, x, y, bw, bh, m, filter)[i * bw + j];
            &&& plane == 0 ==> r == s.y[(y + i) * s.width + (x + j)]
            &&& plane == 1 ==> r == s.u[(y + i) * (s.width / 2) + (x + j)]
            &&& plane == 2 ==> r == s.v[(y + i) * (s.width / 2) + (x + j)]
        }),
{
    reveal(inter_pred);
    let (p, w, h) = plane_part(s, plane);
    let mc = McModel { plane: p, stride: w, w, h, x, y, row: 0, col: 0, filter };
    let k = i * bw + j;
    vstd::arithmetic::div_mod::lemma_fundamental_div_mod_converse(k, bw, i, j);
    crate::transform::lemma_block_cell(bw, bh, i, j);
    assert(bw * bh == bh * bw) by (nonlinear_arith);
    law_integer_vector(mc, i, j);
    assert(mc_sample(mc, x + j, y + i) == p[(y + i) * w + (x + j)]);
}

/// A vector of whole samples takes the block that lies as far to the right as its column
/// says, and as far down as its row says.
pub proof fn law_whole_motion(m: McModel, right: int, down: int, y: int, x: int)
    requires
        m.col == 8 * right,
        m.row == 8 * down,
        0 <= m.x + x + right < m.w,
        0 <= m.y + y + down < m.h,
    ensures
        mc_pixel(m, y, x) == m.plane[(m.y + y + down) * m.stride + (m.x + x + right)],
{
    law_integer_vector(m, y, x);
    assert(m.col / 8 == right && m.row / 8 == down);
}

/// The vectors of a block are read in the order of its references, each from the same
/// candidates.
pub proof fn law_vectors_in_order(
    c: Coder<InterKey>,
    r0: u8,
    r1: u8,
    cands: Seq<MvCandidate>,
    hp: bool,
)
    ensures
        ({
            let (mv0, mv1, _) = vectors_of(c, r0, r1, cands, hp);
            let first = vector_of(c, r0, cands, hp, false, 0);
            &&& mv0 == first.0
            &&& r1 == NONE_FRAME ==> mv1 == (Mv { row: 0, col: 0 })
            &&& r1 != NONE_FRAME ==> mv1 == vector_of(first.1, r1, cands, hp, false, 0).0
        }),
{
    reveal(vectors_of);
}

/// Without reference selection a block has one reference.
pub proof fn law_one_reference(c: Coder<InterKey>)
    ensures
        refs_of(c, false).1 == NONE_FRAME,
        2 <= refs_of(c, false).0 <= 8,
{
    reveal(refs_of);
    reveal_with_fuel(crate::inter_syntax::single_ref_from, 8);
}

} // verus!
