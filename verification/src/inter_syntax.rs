//! The syntax that codes the references, the modes and the motion vectors of a block.
use crate::bits::{lemma_pow2i_mono, lemma_pow2i_values, pow2i};
use crate::entropy::{sym_search, sym_value, Coder, SymbolDecoder};
use crate::error::KinetixError;
use crate::inter::{
    Mv, MvCandidate, ALTREF2_FRAME, ALTREF_FRAME, BWDREF_FRAME, GOLDEN_FRAME, LAST2_FRAME,
    LAST3_FRAME, LAST_FRAME, NEARESTMV, NEARMV, NEWMV, ZEROMV,
};
use crate::inter_cdfs::{InterCdfs, InterKey};
use vstd::prelude::*;

verus! {

// ---------------------------------------------------------------------------
// Vector syntax
// ---------------------------------------------------------------------------

/// The decoder with the inter tables.
pub open spec fn i_state(dec: SymbolDecoder<'_>, cdfs: InterCdfs) -> Coder<InterKey> {
    Coder { sym: dec@, bank: cdfs@ }
}

/// The number that the first `n` class bits code, the first being the least
/// significant.
pub open spec fn mv_bits(c: Coder<InterKey>, comp: int, n: int) -> (int, Coder<InterKey>)
    decreases n,
{
    if n <= 0 {
        (0, c)
    } else {
        let (d, s) = mv_bits(c, comp, n - 1);
        let k = InterKey::MvBit(comp, n - 1);
        (
            if s.val(k) == 1 {
                d + pow2i(n - 1)
            } else {
                d
            },
            s.next(k),
        )
    }
}

/// A symbol that is read with table `k` where `read` holds, else `v`.
pub open spec fn read_if(c: Coder<InterKey>, read: bool, k: InterKey, v: int) -> (
    int,
    Coder<InterKey>,
) {
    if read {
        (c.val(k), c.next(k))
    } else {
        (v, c)
    }
}

/// The magnitude of a component behind its sign and its class: the integer part, a
/// fraction in quarters, and an eighth where the precision is high.
#[verifier::opaque]
pub open spec fn mv_magnitude(
    c: Coder<InterKey>,
    class: int,
    comp: int,
    allow_hp: bool,
    force_integer: bool,
) -> (int, Coder<InterKey>) {
    if class == 0 {
        let k = InterKey::MvClass0Bit(comp);
        let bit = c.val(k);
        let (fr, c2) = read_if(c.next(k), !force_integer, InterKey::MvClass0Fr(comp, bit), 3);
        let (hp, c3) = read_if(c2, allow_hp, InterKey::MvClass0Hp(comp), 1);
        (bit * 8 + fr * 2 + hp + 1, c3)
    } else {
        let (d, c1) = mv_bits(c, comp, class);
        let (fr, c2) = read_if(c1, !force_integer, InterKey::MvFr(comp), 3);
        let (hp, c3) = read_if(c2, allow_hp, InterKey::MvHp(comp), 1);
        (2 * pow2i(class + 2) + d * 8 + fr * 2 + hp + 1, c3)
    }
}

/// A component of a vector: the sign, the class, then the magnitude.
#[verifier::opaque]
pub open spec fn mv_component(
    c: Coder<InterKey>,
    comp: int,
    allow_hp: bool,
    force_integer: bool,
) -> (int, Coder<InterKey>) {
    let ks = InterKey::MvSign(comp);
    let c1 = c.next(ks);
    let kc = InterKey::MvClass(comp);
    let (mag, c2) = mv_magnitude(c1.next(kc), c1.val(kc), comp, allow_hp, force_integer);
    (
        if c.val(ks) == 1 {
            -mag
        } else {
            mag
        },
        c2,
    )
}

/// Which components a joint symbol leaves zero: the row, then the column.
#[verifier::opaque]
pub open spec fn mv_of(c: Coder<InterKey>, allow_hp: bool, force_integer: bool) -> (
    int,
    int,
    Coder<InterKey>,
) {
    let k = InterKey::MvJoint;
    let joint = c.val(k);
    let (row, c1) = if joint == 2 || joint == 3 {
        mv_component(c.next(k), 0, allow_hp, force_integer)
    } else {
        (0, c.next(k))
    };
    let (col, c2) = if joint == 1 || joint == 3 {
        mv_component(c1, 1, allow_hp, force_integer)
    } else {
        (0, c1)
    };
    (row, col, c2)
}

fn read_mv_bits(
    dec: &mut SymbolDecoder<'_>,
    cdfs: &mut InterCdfs,
    comp: usize,
    class: usize,
) -> (d: i32)
    requires
        old(dec)@.wf(),
        old(cdfs).wf(),
        comp < 2,
        class <= 10,
    ensures
        final(dec)@.wf(),
        final(cdfs).wf(),
        (d as int, i_state(*final(dec), *final(cdfs))) == mv_bits(
            i_state(*old(dec), *old(cdfs)),
            comp as int,
            class as int,
        ),
        0 <= d < pow2i(class as int),
{
    let ghost c0 = i_state(*dec, *cdfs);
    let mut d: i32 = 0;
    let mut unit: i32 = 1;
    let mut i: usize = 0;
    while i < class
        invariant
            i <= class <= 10,
            comp < 2,
            dec@.wf(),
            cdfs.wf(),
            unit == pow2i(i as int),
            0 <= d < unit <= 1024,
            (d as int, i_state(*dec, *cdfs)) == mv_bits(c0, comp as int, i as int),
        decreases class - i,
    {
        let b: usize = cdfs.read_mv_bit(dec, comp, i);
        proof {
            lemma_pow2i_mono(i + 1, 10);
            lemma_pow2i_values();
            assert(pow2i(i + 1) == 2 * pow2i(i as int));
        }
        if b == 1 {
            d = d + unit;
        }
        unit = unit * 2;
        i = i + 1;
    }
    d
}

fn read_magnitude(
    dec: &mut SymbolDecoder<'_>,
    cdfs: &mut InterCdfs,
    class: usize,
    comp: usize,
    allow_hp: bool,
    force_integer_mv: bool,
) -> (mag: i32)
    requires
        old(dec)@.wf(),
        old(cdfs).wf(),
        comp < 2,
        class <= 10,
    ensures
        final(dec)@.wf(),
        final(cdfs).wf(),
        (mag as int, i_state(*final(dec), *final(cdfs))) == mv_magnitude(
            i_state(*old(dec), *old(cdfs)),
            class as int,
            comp as int,
            allow_hp,
            force_integer_mv,
        ),
        0 < mag < 0x8000,
{
    proof {
        reveal(mv_magnitude);
    }
    if class == 0 {
        let bit: usize = cdfs.read_mv_class0_bit(dec, comp);
        let fr: usize = if force_integer_mv {
            3
        } else {
            cdfs.read_mv_class0_fr(dec, comp, bit)
        };
        let hp: usize = if allow_hp {
            cdfs.read_mv_class0_hp(dec, comp)
        } else {
            1
        };
        (bit * 8 + fr * 2 + hp + 1) as i32
    } else {
        let d: i32 = read_mv_bits(dec, cdfs, comp, class);
        proof {
            lemma_pow2i_values();
            lemma_pow2i_mono(class as int, 10);
            lemma_pow2i_mono(class + 2, 12);
            crate::bits::lemma_shl_pow2((class + 2) as u32);
        }
        let base: i32 = 2 * (1u32 << (class + 2) as u32) as i32;
        let fr: usize = if force_integer_mv {
            3
        } else {
            cdfs.read_mv_fr(dec, comp)
        };
        let hp: usize = if allow_hp {
            cdfs.read_mv_hp(dec, comp)
        } else {
            1
        };
        base + d * 8 + (fr * 2 + hp + 1) as i32
    }
}

/// Reads a component of a vector, 0 for the row and 1 for the column. With
/// `force_integer_mv` no fraction is coded; without `allow_hp` no eighth is.
pub fn read_mv_component(
    dec: &mut SymbolDecoder<'_>,
    cdfs: &mut InterCdfs,
    comp: usize,
    allow_hp: bool,
    force_integer_mv: bool,
) -> (r: Result<i32, KinetixError>)
    requires
        old(dec)@.wf(),
        old(cdfs).wf(),
    ensures
        final(dec)@.wf(),
        final(cdfs).wf(),
        ({
            let m = mv_component(
                i_state(*old(dec), *old(cdfs)),
                comp as int % 2,
                allow_hp,
                force_integer_mv,
            );
            &&& r matches Ok(v) && v == m.0
            &&& i_state(*final(dec), *final(cdfs)) == m.1
        }),
        r matches Ok(v) && -0x8000 < v < 0x8000 && v != 0,
{
    proof {
        law_component_not_zero(
            i_state(*dec, *cdfs),
            comp as int % 2,
            allow_hp,
            force_integer_mv,
        );
        reveal(mv_component);
    }
    let c: usize = comp % 2;
    let sign: usize = cdfs.read_mv_sign(dec, c);
    let class: usize = cdfs.read_mv_class(dec, c);
    let mag: i32 = read_magnitude(dec, cdfs, class, c, allow_hp, force_integer_mv);
    if sign == 1 {
        Ok(-mag)
    } else {
        Ok(mag)
    }
}

/// Reads a vector: which components are not zero, then these, the row first.
pub fn read_mv(
    dec: &mut SymbolDecoder<'_>,
    cdfs: &mut InterCdfs,
    allow_hp: bool,
    force_integer_mv: bool,
) -> (r: Result<Mv, KinetixError>)
    requires
        old(dec)@.wf(),
        old(cdfs).wf(),
    ensures
        final(dec)@.wf(),
        final(cdfs).wf(),
        ({
            let m = mv_of(i_state(*old(dec), *old(cdfs)), allow_hp, force_integer_mv);
            &&& r matches Ok(v) && v.row == m.0 && v.col == m.1
            &&& i_state(*final(dec), *final(cdfs)) == m.2
        }),
        ({
            let j = i_state(*old(dec), *old(cdfs)).val(InterKey::MvJoint);
            &&& r matches Ok(v) && (v.row != 0 <==> (j == 2 || j == 3))
            &&& r matches Ok(v) && (v.col != 0 <==> (j == 1 || j == 3))
        }),
{
    proof {
        law_joint(i_state(*dec, *cdfs), allow_hp, force_integer_mv);
        reveal(mv_of);
    }
    let joint: usize = cdfs.read_mv_joint(dec);
    let mut row: i32 = 0;
    let mut col: i32 = 0;
    if joint == 2 || joint == 3 {
        row = read_mv_component(dec, cdfs, 0, allow_hp, force_integer_mv)?;
    }
    if joint == 1 || joint == 3 {
        col = read_mv_component(dec, cdfs, 1, allow_hp, force_integer_mv)?;
    }
    Ok(Mv { row, col })
}

// ---------------------------------------------------------------------------
// References and modes
// ---------------------------------------------------------------------------

/// The reference that decision `i` of a single reference names when it is zero, and
/// the one behind all decisions.
pub open spec fn single_ref_at(i: int) -> u8 {
    if i == 0 {
        LAST_FRAME
    } else if i == 1 {
        LAST2_FRAME
    } else if i == 2 {
        LAST3_FRAME
    } else if i == 3 {
        GOLDEN_FRAME
    } else if i == 4 {
        BWDREF_FRAME
    } else if i == 5 {
        ALTREF_FRAME
    } else {
        ALTREF2_FRAME
    }
}

/// The reference that the decisions from `i` on name.
pub open spec fn single_ref_from(c: Coder<InterKey>, ctx: int, i: int) -> (u8, Coder<InterKey>)
    decreases 6 - i,
{
    if i >= 6 {
        (single_ref_at(6), c)
    } else {
        let k = InterKey::SingleRef(ctx, i);
        if c.val(k) == 0 {
            (single_ref_at(i), c.next(k))
        } else {
            single_ref_from(c.next(k), ctx, i + 1)
        }
    }
}

/// Reads the name of a single reference: up to six decisions, each of which settles
/// on one name.
pub fn read_single_ref_name(
    dec: &mut SymbolDecoder<'_>,
    cdfs: &mut InterCdfs,
    ctx: usize,
) -> (r: u8)
    requires
        old(dec)@.wf(),
        old(cdfs).wf(),
        ctx < 3,
    ensures
        final(dec)@.wf(),
        final(cdfs).wf(),
        (r, i_state(*final(dec), *final(cdfs))) == single_ref_from(
            i_state(*old(dec), *old(cdfs)),
            ctx as int,
            0,
        ),
        LAST_FRAME <= r <= ALTREF_FRAME,
{
    let ghost c0 = i_state(*dec, *cdfs);
    let mut i: usize = 0;
    while i < 6
        invariant
            i <= 6,
            ctx < 3,
            dec@.wf(),
            cdfs.wf(),
            c0 == i_state(*old(dec), *old(cdfs)),
            single_ref_from(c0, ctx as int, 0) == single_ref_from(
                i_state(*dec, *cdfs),
                ctx as int,
                i as int,
            ),
        decreases 6 - i,
    {
        let s: usize = cdfs.read_single_ref(dec, ctx, i);
        if s == 0 {
            return if i == 0 {
                LAST_FRAME
            } else if i == 1 {
                LAST2_FRAME
            } else if i == 2 {
                LAST3_FRAME
            } else if i == 3 {
                GOLDEN_FRAME
            } else if i == 4 {
                BWDREF_FRAME
            } else {
                ALTREF_FRAME
            };
        }
        i = i + 1;
    }
    ALTREF2_FRAME
}

/// The mode of a block with one reference: a coded vector, none, or a candidate.
/// `nearest` and `near` say whether the first and the second candidate are for the
/// reference.
pub open spec fn single_mode(
    c: Coder<InterKey>,
    ctx: int,
    nearest: bool,
    near: bool,
) -> (u8, Coder<InterKey>) {
    let kn = InterKey::NewMv(ctx);
    let c1 = c.next(kn);
    let kz = InterKey::ZeroMv(if nearest {
        1
    } else {
        0
    });
    let c2 = c1.next(kz);
    let kr = InterKey::RefMv(ctx);
    let c3 = c2.next(kr);
    if c.val(kn) == 1 {
        (NEWMV, c1)
    } else if c1.val(kz) == 1 {
        (ZEROMV, c2)
    } else if c2.val(kr) == 1 {
        (
            if near {
                NEARMV
            } else {
                NEARESTMV
            },
            c3,
        )
    } else {
        (
            if nearest {
                NEARESTMV
            } else {
                NEARMV
            },
            c3,
        )
    }
}

fn read_single_inter_mode(
    dec: &mut SymbolDecoder<'_>,
    cdfs: &mut InterCdfs,
    ctx: usize,
    nearest_nonzero: bool,
    near_nonzero: bool,
) -> (r: u8)
    requires
        old(dec)@.wf(),
        old(cdfs).wf(),
        ctx < 6,
    ensures
        final(dec)@.wf(),
        final(cdfs).wf(),
        (r, i_state(*final(dec), *final(cdfs))) == single_mode(
            i_state(*old(dec), *old(cdfs)),
            ctx as int,
            nearest_nonzero,
            near_nonzero,
        ),
{
    let new: usize = cdfs.read_new_mv(dec, ctx);
    if new == 1 {
        return NEWMV;
    }
    let zero_ctx: usize = if nearest_nonzero {
        1
    } else {
        0
    };
    let zero: usize = cdfs.read_zero_mv(dec, zero_ctx);
    if zero == 1 {
        return ZEROMV;
    }
    let other: usize = cdfs.read_ref_mv(dec, ctx);
    if other == 1 {
        if near_nonzero {
            NEARMV
        } else {
            NEARESTMV
        }
    } else {
        if nearest_nonzero {
            NEARESTMV
        } else {
            NEARMV
        }
    }
}

/// The vector of the first candidate from `i` on for a reference, zero if there is
/// none.
pub open spec fn first_for(cands: Seq<MvCandidate>, r: u8, i: int) -> Mv
    decreases cands.len() - i,
{
    if i >= cands.len() {
        Mv { row: 0, col: 0 }
    } else if cands[i].ref_frame == r {
        cands[i].mv
    } else {
        first_for(cands, r, i + 1)
    }
}

/// The sum of two components as a machine integer, wrapped around.
pub open spec fn wrapped(a: i32, b: int) -> i32 {
    (a + b) as i32
}

/// The vector of a block for reference `r`, and the decoder behind it.
#[verifier::opaque]
pub open spec fn vector_of(
    c: Coder<InterKey>,
    r: u8,
    cands: Seq<MvCandidate>,
    allow_hp: bool,
    force_integer: bool,
    ctx: int,
) -> (Mv, Coder<InterKey>) {
    let nearest = cands.len() > 0 && cands[0].ref_frame == r;
    let near = cands.len() > 1 && cands[1].ref_frame == r;
    let (mode, c1) = single_mode(c, ctx, nearest, near);
    if mode == NEWMV {
        let (row, col, c2) = mv_of(c1, allow_hp, force_integer);
        let base = first_for(cands, r, 0);
        (Mv { row: wrapped(base.row, row), col: wrapped(base.col, col) }, c2)
    } else if mode == ZEROMV || cands.len() == 0 {
        (Mv { row: 0, col: 0 }, c1)
    } else if mode == NEARMV && cands.len() > 1 {
        (cands[1].mv, c1)
    } else {
        (cands[0].mv, c1)
    }
}

fn find_for(cands: &[MvCandidate], r: u8) -> (mv: Mv)
    ensures
        mv == first_for(cands@, r, 0),
{
    let mut i: usize = 0;
    while i < cands.len()
        invariant
            i <= cands@.len(),
            first_for(cands@, r, 0) == first_for(cands@, r, i as int),
        decreases cands.len() - i,
    {
        if cands[i].ref_frame == r {
            return cands[i].mv;
        }
        i = i + 1;
    }
    Mv { row: 0, col: 0 }
}

/// Reads the vector of a block for the reference `ref_name`: the mode, then the
/// difference to the candidate where the vector is coded. Returns the reference with
/// the vector.
pub fn decode_ref_and_mv(
    dec: &mut SymbolDecoder<'_>,
    cdfs: &mut InterCdfs,
    ref_name: u8,
    candidates: &[MvCandidate],
    allow_hp: bool,
    force_integer_mv: bool,
    mode_ctx: usize,
    _allow_global: bool,
) -> (r: Result<(u8, Mv), KinetixError>)
    requires
        old(dec)@.wf(),
        old(cdfs).wf(),
        mode_ctx < 6,
    ensures
        final(dec)@.wf(),
        final(cdfs).wf(),
        ({
            let m = vector_of(
                i_state(*old(dec), *old(cdfs)),
                ref_name,
                candidates@,
                allow_hp,
                force_integer_mv,
                mode_ctx as int,
            );
            &&& r == Ok::<(u8, Mv), KinetixError>((ref_name, m.0))
            &&& i_state(*final(dec), *final(cdfs)) == m.1
        }),
{
    proof {
        reveal(vector_of);
    }
    let nearest: bool = candidates.len() > 0 && candidates[0].ref_frame == ref_name;
    let near: bool = candidates.len() > 1 && candidates[1].ref_frame == ref_name;
    let mode: u8 = read_single_inter_mode(dec, cdfs, mode_ctx, nearest, near);
    if mode == NEWMV {
        let diff: Mv = read_mv(dec, cdfs, allow_hp, force_integer_mv)?;
        let base: Mv = find_for(candidates, ref_name);
        let mv: Mv = Mv {
            row: wrapping_sum(base.row, diff.row),
            col: wrapping_sum(base.col, diff.col),
        };
        return Ok((ref_name, mv));
    }
    if mode == ZEROMV || candidates.len() == 0 {
        return Ok((ref_name, Mv { row: 0, col: 0 }));
    }
    if mode == NEARMV && candidates.len() > 1 {
        Ok((ref_name, candidates[1].mv))
    } else {
        Ok((ref_name, candidates[0].mv))
    }
}

fn wrapping_sum(a: i32, b: i32) -> (r: i32)
    ensures
        r == wrapped(a, b as int),
{
    #[verifier::truncate]
    let r: i32 = (a as i64 + b as i64) as i32;
    r
}

proof fn lemma_search_up(range: int, value: int, cdf: Seq<u16>, k: int)
    ensures
        sym_search(range, value, cdf, k) >= k,
    decreases cdf.len() - k,
{
    if k < cdf.len() - 2 && value < crate::entropy::sym_cut(range, cdf, k) {
        lemma_search_up(range, value, cdf, k + 1);
    }
}

pub proof fn lemma_val_sign(c: Coder<InterKey>, k: InterKey)
    ensures
        c.val(k) >= 0,
{
    reveal(sym_value);
    lemma_search_up(c.sym.range, c.sym.value, c.bank[k], 0);
}

pub proof fn lemma_bits_sign(c: Coder<InterKey>, comp: int, n: int)
    ensures
        mv_bits(c, comp, n).0 >= 0,
    decreases n,
{
    if n > 0 {
        lemma_bits_sign(c, comp, n - 1);
        lemma_pow2i_mono(0, n - 1);
    }
}

/// No component that is coded is zero.
pub proof fn law_component_not_zero(
    c: Coder<InterKey>,
    comp: int,
    allow_hp: bool,
    force_integer: bool,
)
    ensures
        mv_component(c, comp, allow_hp, force_integer).0 != 0,
{
    reveal(mv_component);
    reveal(mv_magnitude);
    let c1 = c.next(InterKey::MvSign(comp));
    let kc = InterKey::MvClass(comp);
    let class = c1.val(kc);
    lemma_val_sign(c1, kc);
    let c2 = c1.next(kc);
    if class == 0 {
        let k = InterKey::MvClass0Bit(comp);
        lemma_val_sign(c2, k);
        let c3 = c2.next(k);
        let kf = InterKey::MvClass0Fr(comp, c2.val(k));
        lemma_val_sign(c3, kf);
        let c4 = read_if(c3, !force_integer, kf, 3).1;
        lemma_val_sign(c4, InterKey::MvClass0Hp(comp));
    } else {
        lemma_bits_sign(c2, comp, class);
        lemma_pow2i_mono(0, class + 2);
        let c3 = mv_bits(c2, comp, class).1;
        let kf = InterKey::MvFr(comp);
        lemma_val_sign(c3, kf);
        let c4 = read_if(c3, !force_integer, kf, 3).1;
        lemma_val_sign(c4, InterKey::MvHp(comp));
    }
}

/// The joint symbol says which components are zero: the row but for symbols 2 and 3, the
/// column but for symbols 1 and 3. Where both are zero nothing else is read.
pub proof fn law_joint(c: Coder<InterKey>, allow_hp: bool, force_integer: bool)
    ensures
        ({
            let j = c.val(InterKey::MvJoint);
            let (row, col, c2) = mv_of(c, allow_hp, force_integer);
            &&& row != 0 <==> (j == 2 || j == 3)
            &&& col != 0 <==> (j == 1 || j == 3)
            &&& j == 0 ==> c2 == c.next(InterKey::MvJoint)
        }),
{
    reveal(mv_of);
    let k = InterKey::MvJoint;
    let j = c.val(k);
    law_component_not_zero(c.next(k), 0, allow_hp, force_integer);
    let c1 = if j == 2 || j == 3 {
        mv_component(c.next(k), 0, allow_hp, force_integer).1
    } else {
        c.next(k)
    };
    law_component_not_zero(c1, 1, allow_hp, force_integer);
}

} // verus!
