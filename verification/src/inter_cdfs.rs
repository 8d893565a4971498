//! The adaptive probability tables of the inter prediction syntax.
use crate::entropy::{cdf_next, cdf_wf, table_read, SymbolDecoder};
use vstd::prelude::*;

verus! {

/// Names one table of a `InterCdfs`.
pub enum InterKey {
    IsInter(int),
    CompMode(int),
    CompRefType(int),
    UniCompRef(int, int),
    CompRef(int, int),
    CompBwdRef(int, int),
    SingleRef(int, int),
    NewMv(int),
    ZeroMv(int),
    RefMv(int),
    DrlMode(int),
    MvJoint,
    MvSign(int),
    MvClass(int),
    MvClass0Bit(int),
    MvClass0Fr(int, int),
    MvClass0Hp(int),
    MvBit(int, int),
    MvFr(int),
    MvHp(int),
}

/// The adaptive probability tables of the inter prediction syntax of a tile.
#[derive(Clone, Copy)]
pub struct InterCdfs {
    pub is_inter: [[u16; 3]; 4],
    pub comp_mode: [[u16; 3]; 5],
    pub comp_ref_type: [[u16; 3]; 5],
    pub uni_comp_ref: [[[u16; 3]; 3]; 3],
    pub comp_ref: [[[u16; 3]; 3]; 3],
    pub comp_bwd_ref: [[[u16; 3]; 2]; 3],
    pub single_ref: [[[u16; 3]; 6]; 3],
    pub new_mv: [[u16; 3]; 6],
    pub zero_mv: [[u16; 3]; 2],
    pub ref_mv: [[u16; 3]; 6],
    pub drl_mode: [[u16; 3]; 3],
    pub mv_joint: [u16; 5],
    pub mv_sign: [[u16; 3]; 2],
    pub mv_class: [[u16; 12]; 2],
    pub mv_class0_bit: [[u16; 3]; 2],
    pub mv_class0_fr: [[[u16; 5]; 2]; 2],
    pub mv_class0_hp: [[u16; 3]; 2],
    pub mv_bit: [[[u16; 3]; 10]; 2],
    pub mv_fr: [[u16; 5]; 2],
    pub mv_hp: [[u16; 3]; 2],
}

impl InterKey {
    /// The table with this name exists.
    pub open spec fn valid(self) -> bool {
        match self {
            InterKey::IsInter(a) => 0 <= a < 4,
            InterKey::CompMode(a) => 0 <= a < 5,
            InterKey::CompRefType(a) => 0 <= a < 5,
            InterKey::UniCompRef(a, b) => 0 <= a < 3 && 0 <= b < 3,
            InterKey::CompRef(a, b) => 0 <= a < 3 && 0 <= b < 3,
            InterKey::CompBwdRef(a, b) => 0 <= a < 3 && 0 <= b < 2,
            InterKey::SingleRef(a, b) => 0 <= a < 3 && 0 <= b < 6,
            InterKey::NewMv(a) => 0 <= a < 6,
            InterKey::ZeroMv(a) => 0 <= a < 2,
            InterKey::RefMv(a) => 0 <= a < 6,
            InterKey::DrlMode(a) => 0 <= a < 3,
            InterKey::MvJoint => true,
            InterKey::MvSign(a) => 0 <= a < 2,
            InterKey::MvClass(a) => 0 <= a < 2,
            InterKey::MvClass0Bit(a) => 0 <= a < 2,
            InterKey::MvClass0Fr(a, b) => 0 <= a < 2 && 0 <= b < 2,
            InterKey::MvClass0Hp(a) => 0 <= a < 2,
            InterKey::MvBit(a, b) => 0 <= a < 2 && 0 <= b < 10,
            InterKey::MvFr(a) => 0 <= a < 2,
            InterKey::MvHp(a) => 0 <= a < 2,
        }
    }

    /// The number of symbols of the table with this name.
    pub open spec fn symbols(self) -> int {
        match self {
            InterKey::IsInter(_) => 2,
            InterKey::CompMode(_) => 2,
            InterKey::CompRefType(_) => 2,
            InterKey::UniCompRef(_, _) => 2,
            InterKey::CompRef(_, _) => 2,
            InterKey::CompBwdRef(_, _) => 2,
            InterKey::SingleRef(_, _) => 2,
            InterKey::NewMv(_) => 2,
            InterKey::ZeroMv(_) => 2,
            InterKey::RefMv(_) => 2,
            InterKey::DrlMode(_) => 2,
            InterKey::MvJoint => 4,
            InterKey::MvSign(_) => 2,
            InterKey::MvClass(_) => 11,
            InterKey::MvClass0Bit(_) => 2,
            InterKey::MvClass0Fr(_, _) => 4,
            InterKey::MvClass0Hp(_) => 2,
            InterKey::MvBit(_, _) => 2,
            InterKey::MvFr(_) => 4,
            InterKey::MvHp(_) => 2,
        }
    }
}

impl InterCdfs {
    /// The table named `k`.
    pub open spec fn table(self, k: InterKey) -> Seq<u16> {
        match k {
            InterKey::IsInter(a) => self.is_inter[a]@,
            InterKey::CompMode(a) => self.comp_mode[a]@,
            InterKey::CompRefType(a) => self.comp_ref_type[a]@,
            InterKey::UniCompRef(a, b) => self.uni_comp_ref[a][b]@,
            InterKey::CompRef(a, b) => self.comp_ref[a][b]@,
            InterKey::CompBwdRef(a, b) => self.comp_bwd_ref[a][b]@,
            InterKey::SingleRef(a, b) => self.single_ref[a][b]@,
            InterKey::NewMv(a) => self.new_mv[a]@,
            InterKey::ZeroMv(a) => self.zero_mv[a]@,
            InterKey::RefMv(a) => self.ref_mv[a]@,
            InterKey::DrlMode(a) => self.drl_mode[a]@,
            InterKey::MvJoint => self.mv_joint@,
            InterKey::MvSign(a) => self.mv_sign[a]@,
            InterKey::MvClass(a) => self.mv_class[a]@,
            InterKey::MvClass0Bit(a) => self.mv_class0_bit[a]@,
            InterKey::MvClass0Fr(a, b) => self.mv_class0_fr[a][b]@,
            InterKey::MvClass0Hp(a) => self.mv_class0_hp[a]@,
            InterKey::MvBit(a, b) => self.mv_bit[a][b]@,
            InterKey::MvFr(a) => self.mv_fr[a]@,
            InterKey::MvHp(a) => self.mv_hp[a]@,
        }
    }

    /// Every table is a probability table.
    pub open spec fn wf(self) -> bool {
        forall|k: InterKey| k.valid() ==> cdf_wf(#[trigger] self@[k])
    }
}

impl View for InterCdfs {
    type V = Map<InterKey, Seq<u16>>;

    open spec fn view(&self) -> Map<InterKey, Seq<u16>> {
        Map::new(|k: InterKey| k.valid(), |k: InterKey| self.table(k))
    }
}

impl InterCdfs {
    pub(crate) fn read_is_inter(&mut self, dec: &mut SymbolDecoder<'_>, a: usize) -> (r: usize)
        requires
            old(self).wf(),
            old(dec)@.wf(),
            a < 4,
        ensures
            table_read(old(self)@, old(dec)@, InterKey::IsInter(a as int), r, final(self)@, final(dec)@),
            final(self).wf(),
            final(dec)@.wf(),
            r < 2,
    {
        let ghost k = InterKey::IsInter(a as int);
        let ghost before = *self;
        assert(before@.dom().contains(k));
        assert(cdf_wf(before@[k]));
        let r: usize = dec.read_symbol(&mut self.is_inter[a]);
        assert(self@ =~= before@.insert(k, cdf_next(before@[k], r as int)));
        r
    }

    pub(crate) fn read_comp_mode(&mut self, dec: &mut SymbolDecoder<'_>, a: usize) -> (r: usize)
        requires
            old(self).wf(),
            old(dec)@.wf(),
            a < 5,
        ensures
            table_read(old(self)@, old(dec)@, InterKey::CompMode(a as int), r, final(self)@, final(dec)@),
            final(self).wf(),
            final(dec)@.wf(),
            r < 2,
    {
        let ghost k = InterKey::CompMode(a as int);
        let ghost before = *self;
        assert(before@.dom().contains(k));
        assert(cdf_wf(before@[k]));
        let r: usize = dec.read_symbol(&mut self.comp_mode[a]);
        assert(self@ =~= before@.insert(k, cdf_next(before@[k], r as int)));
        r
    }

    pub(crate) fn read_comp_ref_type(&mut self, dec: &mut SymbolDecoder<'_>, a: usize) -> (r: usize)
        requires
            old(self).wf(),
            old(dec)@.wf(),
            a < 5,
        ensures
            table_read(old(self)@, old(dec)@, InterKey::CompRefType(a as int), r, final(self)@, final(dec)@),
            final(self).wf(),
            final(dec)@.wf(),
            r < 2,
    {
        let ghost k = InterKey::CompRefType(a as int);
        let ghost before = *self;
        assert(before@.dom().contains(k));
        assert(cdf_wf(before@[k]));
        let r: usize = dec.read_symbol(&mut self.comp_ref_type[a]);
        assert(self@ =~= before@.insert(k, cdf_next(before@[k], r as int)));
        r
    }

    pub(crate) fn read_uni_comp_ref(&mut self, dec: &mut SymbolDecoder<'_>, a: usize, b: usize) -> (r: usize)
        requires
            old(self).wf(),
            old(dec)@.wf(),
            a < 3,
            b < 3,
        ensures
            table_read(old(self)@, old(dec)@, InterKey::UniCompRef(a as int, b as int), r, final(self)@, final(dec)@),
            final(self).wf(),
            final(dec)@.wf(),
            r < 2,
    {
        let ghost k = InterKey::UniCompRef(a as int, b as int);
        let ghost before = *self;
        assert(before@.dom().contains(k));
        assert(cdf_wf(before@[k]));
        let r: usize = dec.read_symbol(&mut self.uni_comp_ref[a][b]);
        assert(self@ =~= before@.insert(k, cdf_next(before@[k], r as int)));
        r
    }

    pub(crate) fn read_comp_ref(&mut self, dec: &mut SymbolDecoder<'_>, a: usize, b: usize) -> (r: usize)
        requires
            old(self).wf(),
            old(dec)@.wf(),
            a < 3,
            b < 3,
        ensures
            table_read(old(self)@, old(dec)@, InterKey::CompRef(a as int, b as int), r, final(self)@, final(dec)@),
            final(self).wf(),
            final(dec)@.wf(),
            r < 2,
    {
        let ghost k = InterKey::CompRef(a as int, b as int);
        let ghost before = *self;
        assert(before@.dom().contains(k));
        assert(cdf_wf(before@[k]));
        let r: usize = dec.read_symbol(&mut self.comp_ref[a][b]);
        assert(self@ =~= before@.insert(k, cdf_next(before@[k], r as int)));
        r
    }

    pub(crate) fn read_comp_bwd_ref(&mut self, dec: &mut SymbolDecoder<'_>, a: usize, b: usize) -> (r: usize)
        requires
            old(self).wf(),
            old(dec)@.wf(),
            a < 3,
            b < 2,
        ensures
            table_read(old(self)@, old(dec)@, InterKey::CompBwdRef(a as int, b as int), r, final(self)@, final(dec)@),
            final(self).wf(),
            final(dec)@.wf(),
            r < 2,
    {
        let ghost k = InterKey::CompBwdRef(a as int, b as int);
        let ghost before = *self;
        assert(before@.dom().contains(k));
        assert(cdf_wf(before@[k]));
        let r: usize = dec.read_symbol(&mut self.comp_bwd_ref[a][b]);
        assert(self@ =~= before@.insert(k, cdf_next(before@[k], r as int)));
        r
    }

    pub(crate) fn read_single_ref(&mut self, dec: &mut SymbolDecoder<'_>, a: usize, b: usize) -> (r: usize)
        requires
            old(self).wf(),
            old(dec)@.wf(),
            a < 3,
            b < 6,
        ensures
            table_read(old(self)@, old(dec)@, InterKey::SingleRef(a as int, b as int), r, final(self)@, final(dec)@),
            final(self).wf(),
            final(dec)@.wf(),
            r < 2,
    {
        let ghost k = InterKey::SingleRef(a as int, b as int);
        let ghost before = *self;
        assert(before@.dom().contains(k));
        assert(cdf_wf(before@[k]));
        let r: usize = dec.read_symbol(&mut self.single_ref[a][b]);
        assert(self@ =~= before@.insert(k, cdf_next(before@[k], r as int)));
        r
    }

    pub(crate) fn read_new_mv(&mut self, dec: &mut SymbolDecoder<'_>, a: usize) -> (r: usize)
        requires
            old(self).wf(),
            old(dec)@.wf(),
            a < 6,
        ensures
            table_read(old(self)@, old(dec)@, InterKey::NewMv(a as int), r, final(self)@, final(dec)@),
            final(self).wf(),
            final(dec)@.wf(),
            r < 2,
    {
        let ghost k = InterKey::NewMv(a as int);
        let ghost before = *self;
        assert(before@.dom().contains(k));
        assert(cdf_wf(before@[k]));
        let r: usize = dec.read_symbol(&mut self.new_mv[a]);
        assert(self@ =~= before@.insert(k, cdf_next(before@[k], r as int)));
        r
    }

    pub(crate) fn read_zero_mv(&mut self, dec: &mut SymbolDecoder<'_>, a: usize) -> (r: usize)
        requires
            old(self).wf(),
            old(dec)@.wf(),
            a < 2,
        ensures
            table_read(old(self)@, old(dec)@, InterKey::ZeroMv(a as int), r, final(self)@, final(dec)@),
            final(self).wf(),
            final(dec)@.wf(),
            r < 2,
    {
        let ghost k = InterKey::ZeroMv(a as int);
        let ghost before = *self;
        assert(before@.dom().contains(k));
        assert(cdf_wf(before@[k]));
        let r: usize = dec.read_symbol(&mut self.zero_mv[a]);
        assert(self@ =~= before@.insert(k, cdf_next(before@[k], r as int)));
        r
    }

    pub(crate) fn read_ref_mv(&mut self, dec: &mut SymbolDecoder<'_>, a: usize) -> (r: usize)
        requires
            old(self).wf(),
            old(dec)@.wf(),
            a < 6,
        ensures
            table_read(old(self)@, old(dec)@, InterKey::RefMv(a as int), r, final(self)@, final(dec)@),
            final(self).wf(),
            final(dec)@.wf(),
            r < 2,
    {
        let ghost k = InterKey::RefMv(a as int);
        let ghost before = *self;
        assert(before@.dom().contains(k));
        assert(cdf_wf(before@[k]));
        let r: usize = dec.read_symbol(&mut self.ref_mv[a]);
        assert(self@ =~= before@.insert(k, cdf_next(before@[k], r as int)));
        r
    }

    pub(crate) fn read_mv_joint(&mut self, dec: &mut SymbolDecoder<'_>) -> (r: usize)
        requires
            old(self).wf(),
            old(dec)@.wf(),
        ensures
            table_read(old(self)@, old(dec)@, InterKey::MvJoint, r, final(self)@, final(dec)@),
            final(self).wf(),
            final(dec)@.wf(),
            r < 4,
    {
        let ghost k = InterKey::MvJoint;
        let ghost before = *self;
        assert(before@.dom().contains(k));
        assert(cdf_wf(before@[k]));
        let r: usize = dec.read_symbol(&mut self.mv_joint);
        assert(self@ =~= before@.insert(k, cdf_next(before@[k], r as int)));
        r
    }

    pub(crate) fn read_mv_sign(&mut self, dec: &mut SymbolDecoder<'_>, a: usize) -> (r: usize)
        requires
            old(self).wf(),
            old(dec)@.wf(),
            a < 2,
        ensures
            table_read(old(self)@, old(dec)@, InterKey::MvSign(a as int), r, final(self)@, final(dec)@),
            final(self).wf(),
            final(dec)@.wf(),
            r < 2,
    {
        let ghost k = InterKey::MvSign(a as int);
        let ghost before = *self;
        assert(before@.dom().contains(k));
        assert(cdf_wf(before@[k]));
        let r: usize = dec.read_symbol(&mut self.mv_sign[a]);
        assert(self@ =~= before@.insert(k, cdf_next(before@[k], r as int)));
        r
    }

    pub(crate) fn read_mv_class(&mut self, dec: &mut SymbolDecoder<'_>, a: usize) -> (r: usize)
        requires
            old(self).wf(),
            old(dec)@.wf(),
            a < 2,
        ensures
            table_read(old(self)@, old(dec)@, InterKey::MvClass(a as int), r, final(self)@, final(dec)@),
            final(self).wf(),
            final(dec)@.wf(),
            r < 11,
    {
        let ghost k = InterKey::MvClass(a as int);
        let ghost before = *self;
        assert(before@.dom().contains(k));
        assert(cdf_wf(before@[k]));
        let r: usize = dec.read_symbol(&mut self.mv_class[a]);
        assert(self@ =~= before@.insert(k, cdf_next(before@[k], r as int)));
        r
    }

    pub(crate) fn read_mv_class0_bit(&mut self, dec: &mut SymbolDecoder<'_>, a: usize) -> (r: usize)
        requires
            old(self).wf(),
            old(dec)@.wf(),
            a < 2,
        ensures
            table_read(old(self)@, old(dec)@, InterKey::MvClass0Bit(a as int), r, final(self)@, final(dec)@),
            final(self).wf(),
            final(dec)@.wf(),
            r < 2,
    {
        let ghost k = InterKey::MvClass0Bit(a as int);
        let ghost before = *self;
        assert(before@.dom().contains(k));
        assert(cdf_wf(before@[k]));
        let r: usize = dec.read_symbol(&mut self.mv_class0_bit[a]);
        assert(self@ =~= before@.insert(k, cdf_next(before@[k], r as int)));
        r
    }

    pub(crate) fn read_mv_class0_fr(&mut self, dec: &mut SymbolDecoder<'_>, a: usize, b: usize) -> (r: usize)
        requires
            old(self).wf(),
            old(dec)@.wf(),
            a < 2,
            b < 2,
        ensures
            table_read(old(self)@, old(dec)@, InterKey::MvClass0Fr(a as int, b as int), r, final(self)@, final(dec)@),
            final(self).wf(),
            final(dec)@.wf(),
            r < 4,
    {
        let ghost k = InterKey::MvClass0Fr(a as int, b as int);
        let ghost before = *self;
        assert(before@.dom().contains(k));
        assert(cdf_wf(before@[k]));
        let r: usize = dec.read_symbol(&mut self.mv_class0_fr[a][b]);
        assert(self@ =~= before@.insert(k, cdf_next(before@[k], r as int)));
        r
    }

    pub(crate) fn read_mv_class0_hp(&mut self, dec: &mut SymbolDecoder<'_>, a: usize) -> (r: usize)
        requires
            old(self).wf(),
            old(dec)@.wf(),
            a < 2,
        ensures
            table_read(old(self)@, old(dec)@, InterKey::MvClass0Hp(a as int), r, final(self)@, final(dec)@),
            final(self).wf(),
            final(dec)@.wf(),
            r < 2,
    {
        let ghost k = InterKey::MvClass0Hp(a as int);
        let ghost before = *self;
        assert(before@.dom().contains(k));
        assert(cdf_wf(before@[k]));
        let r: usize = dec.read_symbol(&mut self.mv_class0_hp[a]);
        assert(self@ =~= before@.insert(k, cdf_next(before@[k], r as int)));
        r
    }

    pub(crate) fn read_mv_bit(&mut self, dec: &mut SymbolDecoder<'_>, a: usize, b: usize) -> (r: usize)
        requires
            old(self).wf(),
            old(dec)@.wf(),
            a < 2,
            b < 10,
        ensures
            table_read(old(self)@, old(dec)@, InterKey::MvBit(a as int, b as int), r, final(self)@, final(dec)@),
            final(self).wf(),
            final(dec)@.wf(),
            r < 2,
    {
        let ghost k = InterKey::MvBit(a as int, b as int);
        let ghost before = *self;
        assert(before@.dom().contains(k));
        assert(cdf_wf(before@[k]));
        let r: usize = dec.read_symbol(&mut self.mv_bit[a][b]);
        assert(self@ =~= before@.insert(k, cdf_next(before@[k], r as int)));
        r
    }

    pub(crate) fn read_mv_fr(&mut self, dec: &mut SymbolDecoder<'_>, a: usize) -> (r: usize)
        requires
            old(self).wf(),
            old(dec)@.wf(),
            a < 2,
        ensures
            table_read(old(self)@, old(dec)@, InterKey::MvFr(a as int), r, final(self)@, final(dec)@),
            final(self).wf(),
            final(dec)@.wf(),
            r < 4,
    {
        let ghost k = InterKey::MvFr(a as int);
        let ghost before = *self;
        assert(before@.dom().contains(k));
        assert(cdf_wf(before@[k]));
        let r: usize = dec.read_symbol(&mut self.mv_fr[a]);
        assert(self@ =~= before@.insert(k, cdf_next(before@[k], r as int)));
        r
    }

    pub(crate) fn read_mv_hp(&mut self, dec: &mut SymbolDecoder<'_>, a: usize) -> (r: usize)
        requires
            old(self).wf(),
            old(dec)@.wf(),
            a < 2,
        ensures
            table_read(old(self)@, old(dec)@, InterKey::MvHp(a as int), r, final(self)@, final(dec)@),
            final(self).wf(),
            final(dec)@.wf(),
            r < 2,
    {
        let ghost k = InterKey::MvHp(a as int);
        let ghost before = *self;
        assert(before@.dom().contains(k));
        assert(cdf_wf(before@[k]));
        let r: usize = dec.read_symbol(&mut self.mv_hp[a]);
        assert(self@ =~= before@.insert(k, cdf_next(before@[k], r as int)));
        r
    }
}

// The tables that a tile starts with.

pub const DEFAULT_IS_INTER_CDF: [[u16; 3]; 4] = [
    [806, 32768, 0],
    [16662, 32768, 0],
    [20186, 32768, 0],
    [26538, 32768, 0],
];

pub const DEFAULT_COMP_MODE_CDF: [[u16; 3]; 5] = [
    [26828, 32768, 0],
    [24035, 32768, 0],
    [12031, 32768, 0],
    [10640, 32768, 0],
    [2901, 32768, 0],
];

pub const DEFAULT_COMP_REF_TYPE_CDF: [[u16; 3]; 5] = [
    [1198, 32768, 0],
    [2070, 32768, 0],
    [9166, 32768, 0],
    [7499, 32768, 0],
    [22475, 32768, 0],
];

pub const DEFAULT_UNI_COMP_REF_CDF: [[[u16; 3]; 3]; 3] = [
    [[5284, 32768, 0], [3865, 32768, 0], [3128, 32768, 0]],
    [[23152, 32768, 0], [14173, 32768, 0], [15270, 32768, 0]],
    [[31774, 32768, 0], [25120, 32768, 0], [26710, 32768, 0]],
];

pub const DEFAULT_COMP_REF_CDF: [[[u16; 3]; 3]; 3] = [
    [[4946, 32768, 0], [9468, 32768, 0], [1503, 32768, 0]],
    [[19891, 32768, 0], [22441, 32768, 0], [15160, 32768, 0]],
    [[30731, 32768, 0], [31059, 32768, 0], [27544, 32768, 0]],
];

pub const DEFAULT_COMP_BWD_REF_CDF: [[[u16; 3]; 2]; 3] = [
    [[2235, 32768, 0], [1423, 32768, 0]],
    [[17182, 32768, 0], [15175, 32768, 0]],
    [[30606, 32768, 0], [30489, 32768, 0]],
];

pub const DEFAULT_SINGLE_REF_CDF: [[[u16; 3]; 6]; 3] = [
    [
        [4897, 32768, 0],
        [1555, 32768, 0],
        [4236, 32768, 0],
        [8650, 32768, 0],
        [904, 32768, 0],
        [1444, 32768, 0],
    ],
    [
        [16973, 32768, 0],
        [16751, 32768, 0],
        [19647, 32768, 0],
        [24773, 32768, 0],
        [11014, 32768, 0],
        [5087, 32768, 0],
    ],
    [
        [29744, 32768, 0],
        [30279, 32768, 0],
        [31194, 32768, 0],
        [31895, 32768, 0],
        [26875, 32768, 0],
        [30304, 32768, 0],
    ],
];

pub const DEFAULT_NEW_MV_CDF: [[u16; 3]; 6] = [
    [24035, 32768, 0],
    [16630, 32768, 0],
    [15339, 32768, 0],
    [8386, 32768, 0],
    [12222, 32768, 0],
    [4676, 32768, 0],
];

pub const DEFAULT_ZERO_MV_CDF: [[u16; 3]; 2] = [[2175, 32768, 0], [1054, 32768, 0]];

pub const DEFAULT_REF_MV_CDF: [[u16; 3]; 6] = [
    [23974, 32768, 0],
    [24188, 32768, 0],
    [17848, 32768, 0],
    [28622, 32768, 0],
    [24312, 32768, 0],
    [19923, 32768, 0],
];

pub const DEFAULT_DRL_MODE_CDF: [[u16; 3]; 3] = [[13104, 32768, 0], [24560, 32768, 0], [18945, 32768, 0]];

pub const DEFAULT_MV_JOINT_CDF: [u16; 5] = [4096, 11264, 19328, 32768, 0];

pub const DEFAULT_MV_SIGN_CDF: [[u16; 3]; 2] = [[16384, 32768, 0], [16384, 32768, 0]];

pub const DEFAULT_MV_CLASS_CDF: [[u16; 12]; 2] = [
    [28672, 30976, 31858, 32320, 32551, 32656, 32740, 32757, 32762, 32767, 32768, 0],
    [28672, 30976, 31858, 32320, 32551, 32656, 32740, 32757, 32762, 32767, 32768, 0],
];

pub const DEFAULT_MV_CLASS0_BIT_CDF: [[u16; 3]; 2] = [[27648, 32768, 0], [27648, 32768, 0]];

pub const DEFAULT_MV_CLASS0_FR_CDF: [[[u16; 5]; 2]; 2] = [
    [
        [16384, 24576, 26624, 32768, 0],
        [12288, 21248, 24128, 32768, 0],
    ],
    [
        [16384, 24576, 26624, 32768, 0],
        [12288, 21248, 24128, 32768, 0],
    ],
];

pub const DEFAULT_MV_CLASS0_HP_CDF: [[u16; 3]; 2] = [[20480, 32768, 0], [20480, 32768, 0]];

pub const DEFAULT_MV_BIT_CDF: [[[u16; 3]; 10]; 2] = [
    [
        [17408, 32768, 0],
        [17920, 32768, 0],
        [18944, 32768, 0],
        [20480, 32768, 0],
        [22528, 32768, 0],
        [24576, 32768, 0],
        [28672, 32768, 0],
        [29952, 32768, 0],
        [29952, 32768, 0],
        [30720, 32768, 0],
    ],
    [
        [17408, 32768, 0],
        [17920, 32768, 0],
        [18944, 32768, 0],
        [20480, 32768, 0],
        [22528, 32768, 0],
        [24576, 32768, 0],
        [28672, 32768, 0],
        [29952, 32768, 0],
        [29952, 32768, 0],
        [30720, 32768, 0],
    ],
];

pub const DEFAULT_MV_FR_CDF: [[u16; 5]; 2] = [
    [8192, 17408, 21248, 32768, 0],
    [8192, 17408, 21248, 32768, 0],
];

pub const DEFAULT_MV_HP_CDF: [[u16; 3]; 2] = [[16384, 32768, 0], [16384, 32768, 0]];

/// The default tables are probability tables.
proof fn lemma_defaults(c: InterCdfs)
    requires
        c.is_inter == DEFAULT_IS_INTER_CDF,
        c.comp_mode == DEFAULT_COMP_MODE_CDF,
        c.comp_ref_type == DEFAULT_COMP_REF_TYPE_CDF,
        c.uni_comp_ref == DEFAULT_UNI_COMP_REF_CDF,
        c.comp_ref == DEFAULT_COMP_REF_CDF,
        c.comp_bwd_ref == DEFAULT_COMP_BWD_REF_CDF,
        c.single_ref == DEFAULT_SINGLE_REF_CDF,
        c.new_mv == DEFAULT_NEW_MV_CDF,
        c.zero_mv == DEFAULT_ZERO_MV_CDF,
        c.ref_mv == DEFAULT_REF_MV_CDF,
        c.drl_mode == DEFAULT_DRL_MODE_CDF,
        c.mv_joint == DEFAULT_MV_JOINT_CDF,
        c.mv_sign == DEFAULT_MV_SIGN_CDF,
        c.mv_class == DEFAULT_MV_CLASS_CDF,
        c.mv_class0_bit == DEFAULT_MV_CLASS0_BIT_CDF,
        c.mv_class0_fr == DEFAULT_MV_CLASS0_FR_CDF,
        c.mv_class0_hp == DEFAULT_MV_CLASS0_HP_CDF,
        c.mv_bit == DEFAULT_MV_BIT_CDF,
        c.mv_fr == DEFAULT_MV_FR_CDF,
        c.mv_hp == DEFAULT_MV_HP_CDF,
    ensures
        c.wf(),
{
    assert forall|k: InterKey| k.valid() implies cdf_wf(#[trigger] c@[k]) by {
        match k {
            InterKey::IsInter(a) => {
                assert(cdf_wf(DEFAULT_IS_INTER_CDF[a]@));
            },
            InterKey::CompMode(a) => {
                assert(cdf_wf(DEFAULT_COMP_MODE_CDF[a]@));
            },
            InterKey::CompRefType(a) => {
                assert(cdf_wf(DEFAULT_COMP_REF_TYPE_CDF[a]@));
            },
            InterKey::UniCompRef(a, b) => {
                assert(cdf_wf(DEFAULT_UNI_COMP_REF_CDF[a][b]@));
            },
            InterKey::CompRef(a, b) => {
                assert(cdf_wf(DEFAULT_COMP_REF_CDF[a][b]@));
            },
            InterKey::CompBwdRef(a, b) => {
                assert(cdf_wf(DEFAULT_COMP_BWD_REF_CDF[a][b]@));
            },
            InterKey::SingleRef(a, b) => {
                assert(cdf_wf(DEFAULT_SINGLE_REF_CDF[a][b]@));
            },
            InterKey::NewMv(a) => {
                assert(cdf_wf(DEFAULT_NEW_MV_CDF[a]@));
            },
            InterKey::ZeroMv(a) => {
                assert(cdf_wf(DEFAULT_ZERO_MV_CDF[a]@));
            },
            InterKey::RefMv(a) => {
                assert(cdf_wf(DEFAULT_REF_MV_CDF[a]@));
            },
            InterKey::DrlMode(a) => {
                assert(cdf_wf(DEFAULT_DRL_MODE_CDF[a]@));
            },
            InterKey::MvJoint => {
                assert(cdf_wf(DEFAULT_MV_JOINT_CDF@));
            },
            InterKey::MvSign(a) => {
                assert(cdf_wf(DEFAULT_MV_SIGN_CDF[a]@));
            },
            InterKey::MvClass(a) => {
                assert(cdf_wf(DEFAULT_MV_CLASS_CDF[a]@));
            },
            InterKey::MvClass0Bit(a) => {
                assert(cdf_wf(DEFAULT_MV_CLASS0_BIT_CDF[a]@));
            },
            InterKey::MvClass0Fr(a, b) => {
                assert(cdf_wf(DEFAULT_MV_CLASS0_FR_CDF[a][b]@));
            },
            InterKey::MvClass0Hp(a) => {
                assert(cdf_wf(DEFAULT_MV_CLASS0_HP_CDF[a]@));
            },
            InterKey::MvBit(a, b) => {
                assert(cdf_wf(DEFAULT_MV_BIT_CDF[a][b]@));
            },
            InterKey::MvFr(a) => {
                assert(cdf_wf(DEFAULT_MV_FR_CDF[a]@));
            },
            InterKey::MvHp(a) => {
                assert(cdf_wf(DEFAULT_MV_HP_CDF[a]@));
            },
        }
    }
}

/// The tables that a tile starts with.
pub open spec fn initial_inters() -> Map<InterKey, Seq<u16>> {
    Map::new(
        |k: InterKey| k.valid(),
        |k: InterKey|
            match k {
                InterKey::IsInter(a) => DEFAULT_IS_INTER_CDF[a]@,
                InterKey::CompMode(a) => DEFAULT_COMP_MODE_CDF[a]@,
                InterKey::CompRefType(a) => DEFAULT_COMP_REF_TYPE_CDF[a]@,
                InterKey::UniCompRef(a, b) => DEFAULT_UNI_COMP_REF_CDF[a][b]@,
                InterKey::CompRef(a, b) => DEFAULT_COMP_REF_CDF[a][b]@,
                InterKey::CompBwdRef(a, b) => DEFAULT_COMP_BWD_REF_CDF[a][b]@,
                InterKey::SingleRef(a, b) => DEFAULT_SINGLE_REF_CDF[a][b]@,
                InterKey::NewMv(a) => DEFAULT_NEW_MV_CDF[a]@,
                InterKey::ZeroMv(a) => DEFAULT_ZERO_MV_CDF[a]@,
                InterKey::RefMv(a) => DEFAULT_REF_MV_CDF[a]@,
                InterKey::DrlMode(a) => DEFAULT_DRL_MODE_CDF[a]@,
                InterKey::MvJoint => DEFAULT_MV_JOINT_CDF@,
                InterKey::MvSign(a) => DEFAULT_MV_SIGN_CDF[a]@,
                InterKey::MvClass(a) => DEFAULT_MV_CLASS_CDF[a]@,
                InterKey::MvClass0Bit(a) => DEFAULT_MV_CLASS0_BIT_CDF[a]@,
                InterKey::MvClass0Fr(a, b) => DEFAULT_MV_CLASS0_FR_CDF[a][b]@,
                InterKey::MvClass0Hp(a) => DEFAULT_MV_CLASS0_HP_CDF[a]@,
                InterKey::MvBit(a, b) => DEFAULT_MV_BIT_CDF[a][b]@,
                InterKey::MvFr(a) => DEFAULT_MV_FR_CDF[a]@,
                InterKey::MvHp(a) => DEFAULT_MV_HP_CDF[a]@,
            },
    )
}

impl InterCdfs {
    /// The tables that a tile starts with.
    pub fn new() -> (r: Self)
        ensures
            r.wf(),
            r@ == initial_inters(),
    {
        let r: InterCdfs = InterCdfs {
            is_inter: DEFAULT_IS_INTER_CDF,
            comp_mode: DEFAULT_COMP_MODE_CDF,
            comp_ref_type: DEFAULT_COMP_REF_TYPE_CDF,
            uni_comp_ref: DEFAULT_UNI_COMP_REF_CDF,
            comp_ref: DEFAULT_COMP_REF_CDF,
            comp_bwd_ref: DEFAULT_COMP_BWD_REF_CDF,
            single_ref: DEFAULT_SINGLE_REF_CDF,
            new_mv: DEFAULT_NEW_MV_CDF,
            zero_mv: DEFAULT_ZERO_MV_CDF,
            ref_mv: DEFAULT_REF_MV_CDF,
            drl_mode: DEFAULT_DRL_MODE_CDF,
            mv_joint: DEFAULT_MV_JOINT_CDF,
            mv_sign: DEFAULT_MV_SIGN_CDF,
            mv_class: DEFAULT_MV_CLASS_CDF,
            mv_class0_bit: DEFAULT_MV_CLASS0_BIT_CDF,
            mv_class0_fr: DEFAULT_MV_CLASS0_FR_CDF,
            mv_class0_hp: DEFAULT_MV_CLASS0_HP_CDF,
            mv_bit: DEFAULT_MV_BIT_CDF,
            mv_fr: DEFAULT_MV_FR_CDF,
            mv_hp: DEFAULT_MV_HP_CDF,
        };
        proof {
            lemma_defaults(r);
            assert(r@ =~= initial_inters());
        }
        r
    }
}

impl Default for InterCdfs {
    /// The tables that a tile starts with.
    fn default() -> (r: Self)
        ensures
            r.wf(),
            r@ == initial_inters(),
    {
        Self::new()
    }
}

} // verus!
