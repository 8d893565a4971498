//! The adaptive probability tables of the block syntax.
use crate::entropy::{
    cdf_next, cdf_sorted, cdf_wf, law_cdf_stays_sorted, lemma_sym_value, sym_value, table_read,
    SymbolDecoder,
};
use vstd::prelude::*;

verus! {

/// A probability table whose cumulative probabilities do not decrease.
pub open spec fn cdf_fair(cdf: Seq<u16>) -> bool {
    cdf_wf(cdf) && cdf_sorted(cdf)
}

/// Names one table of a `ModeCdfs`.
pub enum ModeKey {
    PartitionW8(int),
    PartitionW16(int),
    PartitionW32(int),
    PartitionW64(int),
    PartitionW128(int),
    IntraYMode(int, int),
    UvModeNotAllowed(int),
    UvModeAllowed(int),
    Tx8x8(int),
    Tx16x16(int),
    Tx32x32(int),
    Tx64x64(int),
    TxfmSplit(int),
    Skip(int),
    SegmentId(int),
    AngleDelta(int),
    InterpFilter(int),
    FilterIntra(int),
    FilterIntraMode,
    CflSign,
    CflAlpha(int),
    PaletteYMode(int, int),
    PaletteUvMode(int),
    PaletteYSize(int),
    PaletteUvSize(int),
    PaletteYColor2(int),
    PaletteYColor3(int),
    PaletteYColor4(int),
    PaletteYColor5(int),
    PaletteYColor6(int),
    PaletteYColor7(int),
    PaletteYColor8(int),
    PaletteUvColor2(int),
    PaletteUvColor3(int),
    PaletteUvColor4(int),
    PaletteUvColor5(int),
    PaletteUvColor6(int),
    PaletteUvColor7(int),
    PaletteUvColor8(int),
}

/// The adaptive probability tables of the block syntax of a tile.
#[derive(Clone, Copy)]
pub struct ModeCdfs {
    pub partition_w8: [[u16; 5]; 4],
    pub partition_w16: [[u16; 11]; 4],
    pub partition_w32: [[u16; 11]; 4],
    pub partition_w64: [[u16; 11]; 4],
    pub partition_w128: [[u16; 9]; 4],
    pub intra_y_mode: [[[u16; 14]; 5]; 5],
    pub uv_mode_not_allowed: [[u16; 14]; 13],
    pub uv_mode_allowed: [[u16; 15]; 13],
    pub tx_8x8: [[u16; 3]; 3],
    pub tx_16x16: [[u16; 4]; 3],
    pub tx_32x32: [[u16; 4]; 3],
    pub tx_64x64: [[u16; 4]; 3],
    pub txfm_split: [[u16; 3]; 21],
    pub skip: [[u16; 3]; 3],
    pub segment_id: [[u16; 9]; 3],
    pub angle_delta: [[u16; 8]; 8],
    pub interp_filter: [[u16; 4]; 16],
    pub filter_intra: [[u16; 3]; 22],
    pub filter_intra_mode: [u16; 6],
    pub cfl_sign: [u16; 9],
    pub cfl_alpha: [[u16; 17]; 6],
    pub palette_y_mode: [[[u16; 3]; 3]; 7],
    pub palette_uv_mode: [[u16; 3]; 2],
    pub palette_y_size: [[u16; 8]; 7],
    pub palette_uv_size: [[u16; 8]; 7],
    pub palette_y_color_2: [[u16; 3]; 5],
    pub palette_y_color_3: [[u16; 4]; 5],
    pub palette_y_color_4: [[u16; 5]; 5],
    pub palette_y_color_5: [[u16; 6]; 5],
    pub palette_y_color_6: [[u16; 7]; 5],
    pub palette_y_color_7: [[u16; 8]; 5],
    pub palette_y_color_8: [[u16; 9]; 5],
    pub palette_uv_color_2: [[u16; 3]; 5],
    pub palette_uv_color_3: [[u16; 4]; 5],
    pub palette_uv_color_4: [[u16; 5]; 5],
    pub palette_uv_color_5: [[u16; 6]; 5],
    pub palette_uv_color_6: [[u16; 7]; 5],
    pub palette_uv_color_7: [[u16; 8]; 5],
    pub palette_uv_color_8: [[u16; 9]; 5],
}

impl ModeKey {
    /// The table with this name exists.
    pub open spec fn valid(self) -> bool {
        match self {
            ModeKey::PartitionW8(a) => 0 <= a < 4,
            ModeKey::PartitionW16(a) => 0 <= a < 4,
            ModeKey::PartitionW32(a) => 0 <= a < 4,
            ModeKey::PartitionW64(a) => 0 <= a < 4,
            ModeKey::PartitionW128(a) => 0 <= a < 4,
            ModeKey::IntraYMode(a, b) => 0 <= a < 5 && 0 <= b < 5,
            ModeKey::UvModeNotAllowed(a) => 0 <= a < 13,
            ModeKey::UvModeAllowed(a) => 0 <= a < 13,
            ModeKey::Tx8x8(a) => 0 <= a < 3,
            ModeKey::Tx16x16(a) => 0 <= a < 3,
            ModeKey::Tx32x32(a) => 0 <= a < 3,
            ModeKey::Tx64x64(a) => 0 <= a < 3,
            ModeKey::TxfmSplit(a) => 0 <= a < 21,
            ModeKey::Skip(a) => 0 <= a < 3,
            ModeKey::SegmentId(a) => 0 <= a < 3,
            ModeKey::AngleDelta(a) => 0 <= a < 8,
            ModeKey::InterpFilter(a) => 0 <= a < 16,
            ModeKey::FilterIntra(a) => 0 <= a < 22,
            ModeKey::FilterIntraMode => true,
            ModeKey::CflSign => true,
            ModeKey::CflAlpha(a) => 0 <= a < 6,
            ModeKey::PaletteYMode(a, b) => 0 <= a < 7 && 0 <= b < 3,
            ModeKey::PaletteUvMode(a) => 0 <= a < 2,
            ModeKey::PaletteYSize(a) => 0 <= a < 7,
            ModeKey::PaletteUvSize(a) => 0 <= a < 7,
            ModeKey::PaletteYColor2(a) => 0 <= a < 5,
            ModeKey::PaletteYColor3(a) => 0 <= a < 5,
            ModeKey::PaletteYColor4(a) => 0 <= a < 5,
            ModeKey::PaletteYColor5(a) => 0 <= a < 5,
            ModeKey::PaletteYColor6(a) => 0 <= a < 5,
            ModeKey::PaletteYColor7(a) => 0 <= a < 5,
            ModeKey::PaletteYColor8(a) => 0 <= a < 5,
            ModeKey::PaletteUvColor2(a) => 0 <= a < 5,
            ModeKey::PaletteUvColor3(a) => 0 <= a < 5,
            ModeKey::PaletteUvColor4(a) => 0 <= a < 5,
            ModeKey::PaletteUvColor5(a) => 0 <= a < 5,
            ModeKey::PaletteUvColor6(a) => 0 <= a < 5,
            ModeKey::PaletteUvColor7(a) => 0 <= a < 5,
            ModeKey::PaletteUvColor8(a) => 0 <= a < 5,
        }
    }

    /// The number of symbols of the table with this name.
    pub open spec fn symbols(self) -> int {
        match self {
            ModeKey::PartitionW8(_) => 4,
            ModeKey::PartitionW16(_) => 10,
            ModeKey::PartitionW32(_) => 10,
            ModeKey::PartitionW64(_) => 10,
            ModeKey::PartitionW128(_) => 8,
            ModeKey::IntraYMode(_, _) => 13,
            ModeKey::UvModeNotAllowed(_) => 13,
            ModeKey::UvModeAllowed(_) => 14,
            ModeKey::Tx8x8(_) => 2,
            ModeKey::Tx16x16(_) => 3,
            ModeKey::Tx32x32(_) => 3,
            ModeKey::Tx64x64(_) => 3,
            ModeKey::TxfmSplit(_) => 2,
            ModeKey::Skip(_) => 2,
            ModeKey::SegmentId(_) => 8,
            ModeKey::AngleDelta(_) => 7,
            ModeKey::InterpFilter(_) => 3,
            ModeKey::FilterIntra(_) => 2,
            ModeKey::FilterIntraMode => 5,
            ModeKey::CflSign => 8,
            ModeKey::CflAlpha(_) => 16,
            ModeKey::PaletteYMode(_, _) => 2,
            ModeKey::PaletteUvMode(_) => 2,
            ModeKey::PaletteYSize(_) => 7,
            ModeKey::PaletteUvSize(_) => 7,
            ModeKey::PaletteYColor2(_) => 2,
            ModeKey::PaletteYColor3(_) => 3,
            ModeKey::PaletteYColor4(_) => 4,
            ModeKey::PaletteYColor5(_) => 5,
            ModeKey::PaletteYColor6(_) => 6,
            ModeKey::PaletteYColor7(_) => 7,
            ModeKey::PaletteYColor8(_) => 8,
            ModeKey::PaletteUvColor2(_) => 2,
            ModeKey::PaletteUvColor3(_) => 3,
            ModeKey::PaletteUvColor4(_) => 4,
            ModeKey::PaletteUvColor5(_) => 5,
            ModeKey::PaletteUvColor6(_) => 6,
            ModeKey::PaletteUvColor7(_) => 7,
            ModeKey::PaletteUvColor8(_) => 8,
        }
    }
}

impl ModeCdfs {
    /// The table named `k`.
    pub open spec fn table(self, k: ModeKey) -> Seq<u16> {
        match k {
            ModeKey::PartitionW8(a) => self.partition_w8[a]@,
            ModeKey::PartitionW16(a) => self.partition_w16[a]@,
            ModeKey::PartitionW32(a) => self.partition_w32[a]@,
            ModeKey::PartitionW64(a) => self.partition_w64[a]@,
            ModeKey::PartitionW128(a) => self.partition_w128[a]@,
            ModeKey::IntraYMode(a, b) => self.intra_y_mode[a][b]@,
            ModeKey::UvModeNotAllowed(a) => self.uv_mode_not_allowed[a]@,
            ModeKey::UvModeAllowed(a) => self.uv_mode_allowed[a]@,
            ModeKey::Tx8x8(a) => self.tx_8x8[a]@,
            ModeKey::Tx16x16(a) => self.tx_16x16[a]@,
            ModeKey::Tx32x32(a) => self.tx_32x32[a]@,
            ModeKey::Tx64x64(a) => self.tx_64x64[a]@,
            ModeKey::TxfmSplit(a) => self.txfm_split[a]@,
            ModeKey::Skip(a) => self.skip[a]@,
            ModeKey::SegmentId(a) => self.segment_id[a]@,
            ModeKey::AngleDelta(a) => self.angle_delta[a]@,
            ModeKey::InterpFilter(a) => self.interp_filter[a]@,
            ModeKey::FilterIntra(a) => self.filter_intra[a]@,
            ModeKey::FilterIntraMode => self.filter_intra_mode@,
            ModeKey::CflSign => self.cfl_sign@,
            ModeKey::CflAlpha(a) => self.cfl_alpha[a]@,
            ModeKey::PaletteYMode(a, b) => self.palette_y_mode[a][b]@,
            ModeKey::PaletteUvMode(a) => self.palette_uv_mode[a]@,
            ModeKey::PaletteYSize(a) => self.palette_y_size[a]@,
            ModeKey::PaletteUvSize(a) => self.palette_uv_size[a]@,
            ModeKey::PaletteYColor2(a) => self.palette_y_color_2[a]@,
            ModeKey::PaletteYColor3(a) => self.palette_y_color_3[a]@,
            ModeKey::PaletteYColor4(a) => self.palette_y_color_4[a]@,
            ModeKey::PaletteYColor5(a) => self.palette_y_color_5[a]@,
            ModeKey::PaletteYColor6(a) => self.palette_y_color_6[a]@,
            ModeKey::PaletteYColor7(a) => self.palette_y_color_7[a]@,
            ModeKey::PaletteYColor8(a) => self.palette_y_color_8[a]@,
            ModeKey::PaletteUvColor2(a) => self.palette_uv_color_2[a]@,
            ModeKey::PaletteUvColor3(a) => self.palette_uv_color_3[a]@,
            ModeKey::PaletteUvColor4(a) => self.palette_uv_color_4[a]@,
            ModeKey::PaletteUvColor5(a) => self.palette_uv_color_5[a]@,
            ModeKey::PaletteUvColor6(a) => self.palette_uv_color_6[a]@,
            ModeKey::PaletteUvColor7(a) => self.palette_uv_color_7[a]@,
            ModeKey::PaletteUvColor8(a) => self.palette_uv_color_8[a]@,
        }
    }

    /// Every table is a probability table.
    pub open spec fn wf(self) -> bool {
        forall|k: ModeKey| k.valid() ==> cdf_fair(#[trigger] self@[k])
    }
}

impl View for ModeCdfs {
    type V = Map<ModeKey, Seq<u16>>;

    open spec fn view(&self) -> Map<ModeKey, Seq<u16>> {
        Map::new(|k: ModeKey| k.valid(), |k: ModeKey| self.table(k))
    }
}

impl ModeCdfs {
    pub(crate) fn read_partition_w8(&mut self, dec: &mut SymbolDecoder<'_>, a: usize) -> (r: usize)
        requires
            old(self).wf(),
            old(dec)@.wf(),
            a < 4,
        ensures
            table_read(old(self)@, old(dec)@, ModeKey::PartitionW8(a as int), r, final(self)@, final(dec)@),
            final(self).wf(),
            final(dec)@.wf(),
            r < 4,
    {
        let ghost k = ModeKey::PartitionW8(a as int);
        let ghost before = *self;
        assert(before@.dom().contains(k));
        assert(cdf_fair(before@[k]));
        proof {
            lemma_sym_value(dec@, before@[k]);
            law_cdf_stays_sorted(before@[k], sym_value(dec@, before@[k]));
        }
        let r: usize = dec.read_symbol(&mut self.partition_w8[a]);
        assert(self@ =~= before@.insert(k, cdf_next(before@[k], r as int)));
        r
    }

    pub(crate) fn read_partition_w16(&mut self, dec: &mut SymbolDecoder<'_>, a: usize) -> (r: usize)
        requires
            old(self).wf(),
            old(dec)@.wf(),
            a < 4,
        ensures
            table_read(old(self)@, old(dec)@, ModeKey::PartitionW16(a as int), r, final(self)@, final(dec)@),
            final(self).wf(),
            final(dec)@.wf(),
            r < 10,
    {
        let ghost k = ModeKey::PartitionW16(a as int);
        let ghost before = *self;
        assert(before@.dom().contains(k));
        assert(cdf_fair(before@[k]));
        proof {
            lemma_sym_value(dec@, before@[k]);
            law_cdf_stays_sorted(before@[k], sym_value(dec@, before@[k]));
        }
        let r: usize = dec.read_symbol(&mut self.partition_w16[a]);
        assert(self@ =~= before@.insert(k, cdf_next(before@[k], r as int)));
        r
    }

    pub(crate) fn read_partition_w32(&mut self, dec: &mut SymbolDecoder<'_>, a: usize) -> (r: usize)
        requires
            old(self).wf(),
            old(dec)@.wf(),
            a < 4,
        ensures
            table_read(old(self)@, old(dec)@, ModeKey::PartitionW32(a as int), r, final(self)@, final(dec)@),
            final(self).wf(),
            final(dec)@.wf(),
            r < 10,
    {
        let ghost k = ModeKey::PartitionW32(a as int);
        let ghost before = *self;
        assert(before@.dom().contains(k));
        assert(cdf_fair(before@[k]));
        proof {
            lemma_sym_value(dec@, before@[k]);
            law_cdf_stays_sorted(before@[k], sym_value(dec@, before@[k]));
        }
        let r: usize = dec.read_symbol(&mut self.partition_w32[a]);
        assert(self@ =~= before@.insert(k, cdf_next(before@[k], r as int)));
        r
    }

    pub(crate) fn read_partition_w64(&mut self, dec: &mut SymbolDecoder<'_>, a: usize) -> (r: usize)
        requires
            old(self).wf(),
            old(dec)@.wf(),
            a < 4,
        ensures
            table_read(old(self)@, old(dec)@, ModeKey::PartitionW64(a as int), r, final(self)@, final(dec)@),
            final(self).wf(),
            final(dec)@.wf(),
            r < 10,
    {
        let ghost k = ModeKey::PartitionW64(a as int);
        let ghost before = *self;
        assert(before@.dom().contains(k));
        assert(cdf_fair(before@[k]));
        proof {
            lemma_sym_value(dec@, before@[k]);
            law_cdf_stays_sorted(before@[k], sym_value(dec@, before@[k]));
        }
        let r: usize = dec.read_symbol(&mut self.partition_w64[a]);
        assert(self@ =~= before@.insert(k, cdf_next(before@[k], r as int)));
        r
    }

    pub(crate) fn read_partition_w128(&mut self, dec: &mut SymbolDecoder<'_>, a: usize) -> (r: usize)
        requires
            old(self).wf(),
            old(dec)@.wf(),
            a < 4,
        ensures
            table_read(old(self)@, old(dec)@, ModeKey::PartitionW128(a as int), r, final(self)@, final(dec)@),
            final(self).wf(),
            final(dec)@.wf(),
            r < 8,
    {
        let ghost k = ModeKey::PartitionW128(a as int);
        let ghost before = *self;
        assert(before@.dom().contains(k));
        assert(cdf_fair(before@[k]));
        proof {
            lemma_sym_value(dec@, before@[k]);
            law_cdf_stays_sorted(before@[k], sym_value(dec@, before@[k]));
        }
        let r: usize = dec.read_symbol(&mut self.partition_w128[a]);
        assert(self@ =~= before@.insert(k, cdf_next(before@[k], r as int)));
        r
    }

    pub(crate) fn read_intra_y_mode(&mut self, dec: &mut SymbolDecoder<'_>, a: usize, b: usize) -> (r: usize)
        requires
            old(self).wf(),
            old(dec)@.wf(),
            a < 5,
            b < 5,
        ensures
            table_read(old(self)@, old(dec)@, ModeKey::IntraYMode(a as int, b as int), r, final(self)@, final(dec)@),
            final(self).wf(),
            final(dec)@.wf(),
            r < 13,
    {
        let ghost k = ModeKey::IntraYMode(a as int, b as int);
        let ghost before = *self;
        assert(before@.dom().contains(k));
        assert(cdf_fair(before@[k]));
        proof {
            lemma_sym_value(dec@, before@[k]);
            law_cdf_stays_sorted(before@[k], sym_value(dec@, before@[k]));
        }
        let r: usize = dec.read_symbol(&mut self.intra_y_mode[a][b]);
        assert(self@ =~= before@.insert(k, cdf_next(before@[k], r as int)));
        r
    }

    pub(crate) fn read_uv_mode_not_allowed(&mut self, dec: &mut SymbolDecoder<'_>, a: usize) -> (r: usize)
        requires
            old(self).wf(),
            old(dec)@.wf(),
            a < 13,
        ensures
            table_read(old(self)@, old(dec)@, ModeKey::UvModeNotAllowed(a as int), r, final(self)@, final(dec)@),
            final(self).wf(),
            final(dec)@.wf(),
            r < 13,
    {
        let ghost k = ModeKey::UvModeNotAllowed(a as int);
        let ghost before = *self;
        assert(before@.dom().contains(k));
        assert(cdf_fair(before@[k]));
        proof {
            lemma_sym_value(dec@, before@[k]);
            law_cdf_stays_sorted(before@[k], sym_value(dec@, before@[k]));
        }
        let r: usize = dec.read_symbol(&mut self.uv_mode_not_allowed[a]);
        assert(self@ =~= before@.insert(k, cdf_next(before@[k], r as int)));
        r
    }

    pub(crate) fn read_uv_mode_allowed(&mut self, dec: &mut SymbolDecoder<'_>, a: usize) -> (r: usize)
        requires
            old(self).wf(),
            old(dec)@.wf(),
            a < 13,
        ensures
            table_read(old(self)@, old(dec)@, ModeKey::UvModeAllowed(a as int), r, final(self)@, final(dec)@),
            final(self).wf(),
            final(dec)@.wf(),
            r < 14,
    {
        let ghost k = ModeKey::UvModeAllowed(a as int);
        let ghost before = *self;
        assert(before@.dom().contains(k));
        assert(cdf_fair(before@[k]));
        proof {
            lemma_sym_value(dec@, before@[k]);
            law_cdf_stays_sorted(before@[k], sym_value(dec@, before@[k]));
        }
        let r: usize = dec.read_symbol(&mut self.uv_mode_allowed[a]);
        assert(self@ =~= before@.insert(k, cdf_next(before@[k], r as int)));
        r
    }

    pub(crate) fn read_tx_8x8(&mut self, dec: &mut SymbolDecoder<'_>, a: usize) -> (r: usize)
        requires
            old(self).wf(),
            old(dec)@.wf(),
            a < 3,
        ensures
            table_read(old(self)@, old(dec)@, ModeKey::Tx8x8(a as int), r, final(self)@, final(dec)@),
            final(self).wf(),
            final(dec)@.wf(),
            r < 2,
    {
        let ghost k = ModeKey::Tx8x8(a as int);
        let ghost before = *self;
        assert(before@.dom().contains(k));
        assert(cdf_fair(before@[k]));
        proof {
            lemma_sym_value(dec@, before@[k]);
            law_cdf_stays_sorted(before@[k], sym_value(dec@, before@[k]));
        }
        let r: usize = dec.read_symbol(&mut self.tx_8x8[a]);
        assert(self@ =~= before@.insert(k, cdf_next(before@[k], r as int)));
        r
    }

    pub(crate) fn read_tx_16x16(&mut self, dec: &mut SymbolDecoder<'_>, a: usize) -> (r: usize)
        requires
            old(self).wf(),
            old(dec)@.wf(),
            a < 3,
        ensures
            table_read(old(self)@, old(dec)@, ModeKey::Tx16x16(a as int), r, final(self)@, final(dec)@),
            final(self).wf(),
            final(dec)@.wf(),
            r < 3,
    {
        let ghost k = ModeKey::Tx16x16(a as int);
        let ghost before = *self;
        assert(before@.dom().contains(k));
        assert(cdf_fair(before@[k]));
        proof {
            lemma_sym_value(dec@, before@[k]);
            law_cdf_stays_sorted(before@[k], sym_value(dec@, before@[k]));
        }
        let r: usize = dec.read_symbol(&mut self.tx_16x16[a]);
        assert(self@ =~= before@.insert(k, cdf_next(before@[k], r as int)));
        r
    }

    pub(crate) fn read_tx_32x32(&mut self, dec: &mut SymbolDecoder<'_>, a: usize) -> (r: usize)
        requires
            old(self).wf(),
            old(dec)@.wf(),
            a < 3,
        ensures
            table_read(old(self)@, old(dec)@, ModeKey::Tx32x32(a as int), r, final(self)@, final(dec)@),
            final(self).wf(),
            final(dec)@.wf(),
            r < 3,
    {
        let ghost k = ModeKey::Tx32x32(a as int);
        let ghost before = *self;
        assert(before@.dom().contains(k));
        assert(cdf_fair(before@[k]));
        proof {
            lemma_sym_value(dec@, before@[k]);
            law_cdf_stays_sorted(before@[k], sym_value(dec@, before@[k]));
        }
        let r: usize = dec.read_symbol(&mut self.tx_32x32[a]);
        assert(self@ =~= before@.insert(k, cdf_next(before@[k], r as int)));
        r
    }

    pub(crate) fn read_tx_64x64(&mut self, dec: &mut SymbolDecoder<'_>, a: usize) -> (r: usize)
        requires
            old(self).wf(),
            old(dec)@.wf(),
            a < 3,
        ensures
            table_read(old(self)@, old(dec)@, ModeKey::Tx64x64(a as int), r, final(self)@, final(dec)@),
            final(self).wf(),
            final(dec)@.wf(),
            r < 3,
    {
        let ghost k = ModeKey::Tx64x64(a as int);
        let ghost before = *self;
        assert(before@.dom().contains(k));
        assert(cdf_fair(before@[k]));
        proof {
            lemma_sym_value(dec@, before@[k]);
            law_cdf_stays_sorted(before@[k], sym_value(dec@, before@[k]));
        }
        let r: usize = dec.read_symbol(&mut self.tx_64x64[a]);
        assert(self@ =~= before@.insert(k, cdf_next(before@[k], r as int)));
        r
    }

    pub(crate) fn read_skip(&mut self, dec: &mut SymbolDecoder<'_>, a: usize) -> (r: usize)
        requires
            old(self).wf(),
            old(dec)@.wf(),
            a < 3,
        ensures
            table_read(old(self)@, old(dec)@, ModeKey::Skip(a as int), r, final(self)@, final(dec)@),
            final(self).wf(),
            final(dec)@.wf(),
            r < 2,
    {
        let ghost k = ModeKey::Skip(a as int);
        let ghost before = *self;
        assert(before@.dom().contains(k));
        assert(cdf_fair(before@[k]));
        proof {
            lemma_sym_value(dec@, before@[k]);
            law_cdf_stays_sorted(before@[k], sym_value(dec@, before@[k]));
        }
        let r: usize = dec.read_symbol(&mut self.skip[a]);
        assert(self@ =~= before@.insert(k, cdf_next(before@[k], r as int)));
        r
    }

    pub(crate) fn read_segment_id(&mut self, dec: &mut SymbolDecoder<'_>, a: usize) -> (r: usize)
        requires
            old(self).wf(),
            old(dec)@.wf(),
            a < 3,
        ensures
            table_read(old(self)@, old(dec)@, ModeKey::SegmentId(a as int), r, final(self)@, final(dec)@),
            final(self).wf(),
            final(dec)@.wf(),
            r < 8,
    {
        let ghost k = ModeKey::SegmentId(a as int);
        let ghost before = *self;
        assert(before@.dom().contains(k));
        assert(cdf_fair(before@[k]));
        proof {
            lemma_sym_value(dec@, before@[k]);
            law_cdf_stays_sorted(before@[k], sym_value(dec@, before@[k]));
        }
        let r: usize = dec.read_symbol(&mut self.segment_id[a]);
        assert(self@ =~= before@.insert(k, cdf_next(before@[k], r as int)));
        r
    }

    pub(crate) fn read_angle_delta(&mut self, dec: &mut SymbolDecoder<'_>, a: usize) -> (r: usize)
        requires
            old(self).wf(),
            old(dec)@.wf(),
            a < 8,
        ensures
            table_read(old(self)@, old(dec)@, ModeKey::AngleDelta(a as int), r, final(self)@, final(dec)@),
            final(self).wf(),
            final(dec)@.wf(),
            r < 7,
    {
        let ghost k = ModeKey::AngleDelta(a as int);
        let ghost before = *self;
        assert(before@.dom().contains(k));
        assert(cdf_fair(before@[k]));
        proof {
            lemma_sym_value(dec@, before@[k]);
            law_cdf_stays_sorted(before@[k], sym_value(dec@, before@[k]));
        }
        let r: usize = dec.read_symbol(&mut self.angle_delta[a]);
        assert(self@ =~= before@.insert(k, cdf_next(before@[k], r as int)));
        r
    }

    pub(crate) fn read_interp_filter(&mut self, dec: &mut SymbolDecoder<'_>, a: usize) -> (r: usize)
        requires
            old(self).wf(),
            old(dec)@.wf(),
            a < 16,
        ensures
            table_read(old(self)@, old(dec)@, ModeKey::InterpFilter(a as int), r, final(self)@, final(dec)@),
            final(self).wf(),
            final(dec)@.wf(),
            r < 3,
    {
        let ghost k = ModeKey::InterpFilter(a as int);
        let ghost before = *self;
        assert(before@.dom().contains(k));
        assert(cdf_fair(before@[k]));
        proof {
            lemma_sym_value(dec@, before@[k]);
            law_cdf_stays_sorted(before@[k], sym_value(dec@, before@[k]));
        }
        let r: usize = dec.read_symbol(&mut self.interp_filter[a]);
        assert(self@ =~= before@.insert(k, cdf_next(before@[k], r as int)));
        r
    }

    pub(crate) fn read_filter_intra(&mut self, dec: &mut SymbolDecoder<'_>, a: usize) -> (r: usize)
        requires
            old(self).wf(),
            old(dec)@.wf(),
            a < 22,
        ensures
            table_read(old(self)@, old(dec)@, ModeKey::FilterIntra(a as int), r, final(self)@, final(dec)@),
            final(self).wf(),
            final(dec)@.wf(),
            r < 2,
    {
        let ghost k = ModeKey::FilterIntra(a as int);
        let ghost before = *self;
        assert(before@.dom().contains(k));
        assert(cdf_fair(before@[k]));
        proof {
            lemma_sym_value(dec@, before@[k]);
            law_cdf_stays_sorted(before@[k], sym_value(dec@, before@[k]));
        }
        let r: usize = dec.read_symbol(&mut self.filter_intra[a]);
        assert(self@ =~= before@.insert(k, cdf_next(before@[k], r as int)));
        r
    }

    pub(crate) fn read_filter_intra_mode(&mut self, dec: &mut SymbolDecoder<'_>) -> (r: usize)
        requires
            old(self).wf(),
            old(dec)@.wf(),
        ensures
            table_read(old(self)@, old(dec)@, ModeKey::FilterIntraMode, r, final(self)@, final(dec)@),
            final(self).wf(),
            final(dec)@.wf(),
            r < 5,
    {
        let ghost k = ModeKey::FilterIntraMode;
        let ghost before = *self;
        assert(before@.dom().contains(k));
        assert(cdf_fair(before@[k]));
        proof {
            lemma_sym_value(dec@, before@[k]);
            law_cdf_stays_sorted(before@[k], sym_value(dec@, before@[k]));
        }
        let r: usize = dec.read_symbol(&mut self.filter_intra_mode);
        assert(self@ =~= before@.insert(k, cdf_next(before@[k], r as int)));
        r
    }

    pub(crate) fn read_cfl_sign(&mut self, dec: &mut SymbolDecoder<'_>) -> (r: usize)
        requires
            old(self).wf(),
            old(dec)@.wf(),
        ensures
            table_read(old(self)@, old(dec)@, ModeKey::CflSign, r, final(self)@, final(dec)@),
            final(self).wf(),
            final(dec)@.wf(),
            r < 8,
    {
        let ghost k = ModeKey::CflSign;
        let ghost before = *self;
        assert(before@.dom().contains(k));
        assert(cdf_fair(before@[k]));
        proof {
            lemma_sym_value(dec@, before@[k]);
            law_cdf_stays_sorted(before@[k], sym_value(dec@, before@[k]));
        }
        let r: usize = dec.read_symbol(&mut self.cfl_sign);
        assert(self@ =~= before@.insert(k, cdf_next(before@[k], r as int)));
        r
    }

    pub(crate) fn read_cfl_alpha(&mut self, dec: &mut SymbolDecoder<'_>, a: usize) -> (r: usize)
        requires
            old(self).wf(),
            old(dec)@.wf(),
            a < 6,
        ensures
            table_read(old(self)@, old(dec)@, ModeKey::CflAlpha(a as int), r, final(self)@, final(dec)@),
            final(self).wf(),
            final(dec)@.wf(),
            r < 16,
    {
        let ghost k = ModeKey::CflAlpha(a as int);
        let ghost before = *self;
        assert(before@.dom().contains(k));
        assert(cdf_fair(before@[k]));
        proof {
            lemma_sym_value(dec@, before@[k]);
            law_cdf_stays_sorted(before@[k], sym_value(dec@, before@[k]));
        }
        let r: usize = dec.read_symbol(&mut self.cfl_alpha[a]);
        assert(self@ =~= before@.insert(k, cdf_next(before@[k], r as int)));
        r
    }

    pub(crate) fn read_palette_y_mode(&mut self, dec: &mut SymbolDecoder<'_>, a: usize, b: usize) -> (r: usize)
        requires
            old(self).wf(),
            old(dec)@.wf(),
            a < 7,
            b < 3,
        ensures
            table_read(old(self)@, old(dec)@, ModeKey::PaletteYMode(a as int, b as int), r, final(self)@, final(dec)@),
            final(self).wf(),
            final(dec)@.wf(),
            r < 2,
    {
        let ghost k = ModeKey::PaletteYMode(a as int, b as int);
        let ghost before = *self;
        assert(before@.dom().contains(k));
        assert(cdf_fair(before@[k]));
        proof {
            lemma_sym_value(dec@, before@[k]);
            law_cdf_stays_sorted(before@[k], sym_value(dec@, before@[k]));
        }
        let r: usize = dec.read_symbol(&mut self.palette_y_mode[a][b]);
        assert(self@ =~= before@.insert(k, cdf_next(before@[k], r as int)));
        r
    }

    pub(crate) fn read_palette_uv_mode(&mut self, dec: &mut SymbolDecoder<'_>, a: usize) -> (r: usize)
        requires
            old(self).wf(),
            old(dec)@.wf(),
            a < 2,
        ensures
            table_read(old(self)@, old(dec)@, ModeKey::PaletteUvMode(a as int), r, final(self)@, final(dec)@),
            final(self).wf(),
            final(dec)@.wf(),
            r < 2,
    {
        let ghost k = ModeKey::PaletteUvMode(a as int);
        let ghost before = *self;
        assert(before@.dom().contains(k));
        assert(cdf_fair(before@[k]));
        proof {
            lemma_sym_value(dec@, before@[k]);
            law_cdf_stays_sorted(before@[k], sym_value(dec@, before@[k]));
        }
        let r: usize = dec.read_symbol(&mut self.palette_uv_mode[a]);
        assert(self@ =~= before@.insert(k, cdf_next(before@[k], r as int)));
        r
    }

    pub(crate) fn read_palette_y_size(&mut self, dec: &mut SymbolDecoder<'_>, a: usize) -> (r: usize)
        requires
            old(self).wf(),
            old(dec)@.wf(),
            a < 7,
        ensures
            table_read(old(self)@, old(dec)@, ModeKey::PaletteYSize(a as int), r, final(self)@, final(dec)@),
            final(self).wf(),
            final(dec)@.wf(),
            r < 7,
    {
        let ghost k = ModeKey::PaletteYSize(a as int);
        let ghost before = *self;
        assert(before@.dom().contains(k));
        assert(cdf_fair(before@[k]));
        proof {
            lemma_sym_value(dec@, before@[k]);
            law_cdf_stays_sorted(before@[k], sym_value(dec@, before@[k]));
        }
        let r: usize = dec.read_symbol(&mut self.palette_y_size[a]);
        assert(self@ =~= before@.insert(k, cdf_next(before@[k], r as int)));
        r
    }

    pub(crate) fn read_palette_uv_size(&mut self, dec: &mut SymbolDecoder<'_>, a: usize) -> (r: usize)
        requires
            old(self).wf(),
            old(dec)@.wf(),
            a < 7,
        ensures
            table_read(old(self)@, old(dec)@, ModeKey::PaletteUvSize(a as int), r, final(self)@, final(dec)@),
            final(self).wf(),
            final(dec)@.wf(),
            r < 7,
    {
        let ghost k = ModeKey::PaletteUvSize(a as int);
        let ghost before = *self;
        assert(before@.dom().contains(k));
        assert(cdf_fair(before@[k]));
        proof {
            lemma_sym_value(dec@, before@[k]);
            law_cdf_stays_sorted(before@[k], sym_value(dec@, before@[k]));
        }
        let r: usize = dec.read_symbol(&mut self.palette_uv_size[a]);
        assert(self@ =~= before@.insert(k, cdf_next(before@[k], r as int)));
        r
    }

    pub(crate) fn read_palette_y_color_2(&mut self, dec: &mut SymbolDecoder<'_>, a: usize) -> (r: usize)
        requires
            old(self).wf(),
            old(dec)@.wf(),
            a < 5,
        ensures
            table_read(old(self)@, old(dec)@, ModeKey::PaletteYColor2(a as int), r, final(self)@, final(dec)@),
            final(self).wf(),
            final(dec)@.wf(),
            r < 2,
    {
        let ghost k = ModeKey::PaletteYColor2(a as int);
        let ghost before = *self;
        assert(before@.dom().contains(k));
        assert(cdf_fair(before@[k]));
        proof {
            lemma_sym_value(dec@, before@[k]);
            law_cdf_stays_sorted(before@[k], sym_value(dec@, before@[k]));
        }
        let r: usize = dec.read_symbol(&mut self.palette_y_color_2[a]);
        assert(self@ =~= before@.insert(k, cdf_next(before@[k], r as int)));
        r
    }

    pub(crate) fn read_palette_y_color_3(&mut self, dec: &mut SymbolDecoder<'_>, a: usize) -> (r: usize)
        requires
            old(self).wf(),
            old(dec)@.wf(),
            a < 5,
        ensures
            table_read(old(self)@, old(dec)@, ModeKey::PaletteYColor3(a as int), r, final(self)@, final(dec)@),
            final(self).wf(),
            final(dec)@.wf(),
            r < 3,
    {
        let ghost k = ModeKey::PaletteYColor3(a as int);
        let ghost before = *self;
        assert(before@.dom().contains(k));
        assert(cdf_fair(before@[k]));
        proof {
            lemma_sym_value(dec@, before@[k]);
            law_cdf_stays_sorted(before@[k], sym_value(dec@, before@[k]));
        }
        let r: usize = dec.read_symbol(&mut self.palette_y_color_3[a]);
        assert(self@ =~= before@.insert(k, cdf_next(before@[k], r as int)));
        r
    }

    pub(crate) fn read_palette_y_color_4(&mut self, dec: &mut SymbolDecoder<'_>, a: usize) -> (r: usize)
        requires
            old(self).wf(),
            old(dec)@.wf(),
            a < 5,
        ensures
            table_read(old(self)@, old(dec)@, ModeKey::PaletteYColor4(a as int), r, final(self)@, final(dec)@),
            final(self).wf(),
            final(dec)@.wf(),
            r < 4,
    {
        let ghost k = ModeKey::PaletteYColor4(a as int);
        let ghost before = *self;
        assert(before@.dom().contains(k));
        assert(cdf_fair(before@[k]));
        proof {
            lemma_sym_value(dec@, before@[k]);
            law_cdf_stays_sorted(before@[k], sym_value(dec@, before@[k]));
        }
        let r: usize = dec.read_symbol(&mut self.palette_y_color_4[a]);
        assert(self@ =~= before@.insert(k, cdf_next(before@[k], r as int)));
        r
    }

    pub(crate) fn read_palette_y_color_5(&mut self, dec: &mut SymbolDecoder<'_>, a: usize) -> (r: usize)
        requires
            old(self).wf(),
            old(dec)@.wf(),
            a < 5,
        ensures
            table_read(old(self)@, old(dec)@, ModeKey::PaletteYColor5(a as int), r, final(self)@, final(dec)@),
            final(self).wf(),
            final(dec)@.wf(),
            r < 5,
    {
        let ghost k = ModeKey::PaletteYColor5(a as int);
        let ghost before = *self;
        assert(before@.dom().contains(k));
        assert(cdf_fair(before@[k]));
        proof {
            lemma_sym_value(dec@, before@[k]);
            law_cdf_stays_sorted(before@[k], sym_value(dec@, before@[k]));
        }
        let r: usize = dec.read_symbol(&mut self.palette_y_color_5[a]);
        assert(self@ =~= before@.insert(k, cdf_next(before@[k], r as int)));
        r
    }

    pub(crate) fn read_palette_y_color_6(&mut self, dec: &mut SymbolDecoder<'_>, a: usize) -> (r: usize)
        requires
            old(self).wf(),
            old(dec)@.wf(),
            a < 5,
        ensures
            table_read(old(self)@, old(dec)@, ModeKey::PaletteYColor6(a as int), r, final(self)@, final(dec)@),
            final(self).wf(),
            final(dec)@.wf(),
            r < 6,
    {
        let ghost k = ModeKey::PaletteYColor6(a as int);
        let ghost before = *self;
        assert(before@.dom().contains(k));
        assert(cdf_fair(before@[k]));
        proof {
            lemma_sym_value(dec@, before@[k]);
            law_cdf_stays_sorted(before@[k], sym_value(dec@, before@[k]));
        }
        let r: usize = dec.read_symbol(&mut self.palette_y_color_6[a]);
        assert(self@ =~= before@.insert(k, cdf_next(before@[k], r as int)));
        r
    }

    pub(crate) fn read_palette_y_color_7(&mut self, dec: &mut SymbolDecoder<'_>, a: usize) -> (r: usize)
        requires
            old(self).wf(),
            old(dec)@.wf(),
            a < 5,
        ensures
            table_read(old(self)@, old(dec)@, ModeKey::PaletteYColor7(a as int), r, final(self)@, final(dec)@),
            final(self).wf(),
            final(dec)@.wf(),
            r < 7,
    {
        let ghost k = ModeKey::PaletteYColor7(a as int);
        let ghost before = *self;
        assert(before@.dom().contains(k));
        assert(cdf_fair(before@[k]));
        proof {
            lemma_sym_value(dec@, before@[k]);
            law_cdf_stays_sorted(before@[k], sym_value(dec@, before@[k]));
        }
        let r: usize = dec.read_symbol(&mut self.palette_y_color_7[a]);
        assert(self@ =~= before@.insert(k, cdf_next(before@[k], r as int)));
        r
    }

    pub(crate) fn read_palette_y_color_8(&mut self, dec: &mut SymbolDecoder<'_>, a: usize) -> (r: usize)
        requires
            old(self).wf(),
            old(dec)@.wf(),
            a < 5,
        ensures
            table_read(old(self)@, old(dec)@, ModeKey::PaletteYColor8(a as int), r, final(self)@, final(dec)@),
            final(self).wf(),
            final(dec)@.wf(),
            r < 8,
    {
        let ghost k = ModeKey::PaletteYColor8(a as int);
        let ghost before = *self;
        assert(before@.dom().contains(k));
        assert(cdf_fair(before@[k]));
        proof {
            lemma_sym_value(dec@, before@[k]);
            law_cdf_stays_sorted(before@[k], sym_value(dec@, before@[k]));
        }
        let r: usize = dec.read_symbol(&mut self.palette_y_color_8[a]);
        assert(self@ =~= before@.insert(k, cdf_next(before@[k], r as int)));
        r
    }

    pub(crate) fn read_palette_uv_color_2(&mut self, dec: &mut SymbolDecoder<'_>, a: usize) -> (r: usize)
        requires
            old(self).wf(),
            old(dec)@.wf(),
            a < 5,
        ensures
            table_read(old(self)@, old(dec)@, ModeKey::PaletteUvColor2(a as int), r, final(self)@, final(dec)@),
            final(self).wf(),
            final(dec)@.wf(),
            r < 2,
    {
        let ghost k = ModeKey::PaletteUvColor2(a as int);
        let ghost before = *self;
        assert(before@.dom().contains(k));
        assert(cdf_fair(before@[k]));
        proof {
            lemma_sym_value(dec@, before@[k]);
            law_cdf_stays_sorted(before@[k], sym_value(dec@, before@[k]));
        }
        let r: usize = dec.read_symbol(&mut self.palette_uv_color_2[a]);
        assert(self@ =~= before@.insert(k, cdf_next(before@[k], r as int)));
        r
    }

    pub(crate) fn read_palette_uv_color_3(&mut self, dec: &mut SymbolDecoder<'_>, a: usize) -> (r: usize)
        requires
            old(self).wf(),
            old(dec)@.wf(),
            a < 5,
        ensures
            table_read(old(self)@, old(dec)@, ModeKey::PaletteUvColor3(a as int), r, final(self)@, final(dec)@),
            final(self).wf(),
            final(dec)@.wf(),
            r < 3,
    {
        let ghost k = ModeKey::PaletteUvColor3(a as int);
        let ghost before = *self;
        assert(before@.dom().contains(k));
        assert(cdf_fair(before@[k]));
        proof {
            lemma_sym_value(dec@, before@[k]);
            law_cdf_stays_sorted(before@[k], sym_value(dec@, before@[k]));
        }
        let r: usize = dec.read_symbol(&mut self.palette_uv_color_3[a]);
        assert(self@ =~= before@.insert(k, cdf_next(before@[k], r as int)));
        r
    }

    pub(crate) fn read_palette_uv_color_4(&mut self, dec: &mut SymbolDecoder<'_>, a: usize) -> (r: usize)
        requires
            old(self).wf(),
            old(dec)@.wf(),
            a < 5,
        ensures
            table_read(old(self)@, old(dec)@, ModeKey::PaletteUvColor4(a as int), r, final(self)@, final(dec)@),
            final(self).wf(),
            final(dec)@.wf(),
            r < 4,
    {
        let ghost k = ModeKey::PaletteUvColor4(a as int);
        let ghost before = *self;
        assert(before@.dom().contains(k));
        assert(cdf_fair(before@[k]));
        proof {
            lemma_sym_value(dec@, before@[k]);
            law_cdf_stays_sorted(before@[k], sym_value(dec@, before@[k]));
        }
        let r: usize = dec.read_symbol(&mut self.palette_uv_color_4[a]);
        assert(self@ =~= before@.insert(k, cdf_next(before@[k], r as int)));
        r
    }

    pub(crate) fn read_palette_uv_color_5(&mut self, dec: &mut SymbolDecoder<'_>, a: usize) -> (r: usize)
        requires
            old(self).wf(),
            old(dec)@.wf(),
            a < 5,
        ensures
            table_read(old(self)@, old(dec)@, ModeKey::PaletteUvColor5(a as int), r, final(self)@, final(dec)@),
            final(self).wf(),
            final(dec)@.wf(),
            r < 5,
    {
        let ghost k = ModeKey::PaletteUvColor5(a as int);
        let ghost before = *self;
        assert(before@.dom().contains(k));
        assert(cdf_fair(before@[k]));
        proof {
            lemma_sym_value(dec@, before@[k]);
            law_cdf_stays_sorted(before@[k], sym_value(dec@, before@[k]));
        }
        let r: usize = dec.read_symbol(&mut self.palette_uv_color_5[a]);
        assert(self@ =~= before@.insert(k, cdf_next(before@[k], r as int)));
        r
    }

    pub(crate) fn read_palette_uv_color_6(&mut self, dec: &mut SymbolDecoder<'_>, a: usize) -> (r: usize)
        requires
            old(self).wf(),
            old(dec)@.wf(),
            a < 5,
        ensures
            table_read(old(self)@, old(dec)@, ModeKey::PaletteUvColor6(a as int), r, final(self)@, final(dec)@),
            final(self).wf(),
            final(dec)@.wf(),
            r < 6,
    {
        let ghost k = ModeKey::PaletteUvColor6(a as int);
        let ghost before = *self;
        assert(before@.dom().contains(k));
        assert(cdf_fair(before@[k]));
        proof {
            lemma_sym_value(dec@, before@[k]);
            law_cdf_stays_sorted(before@[k], sym_value(dec@, before@[k]));
        }
        let r: usize = dec.read_symbol(&mut self.palette_uv_color_6[a]);
        assert(self@ =~= before@.insert(k, cdf_next(before@[k], r as int)));
        r
    }

    pub(crate) fn read_palette_uv_color_7(&mut self, dec: &mut SymbolDecoder<'_>, a: usize) -> (r: usize)
        requires
            old(self).wf(),
            old(dec)@.wf(),
            a < 5,
        ensures
            table_read(old(self)@, old(dec)@, ModeKey::PaletteUvColor7(a as int), r, final(self)@, final(dec)@),
            final(self).wf(),
            final(dec)@.wf(),
            r < 7,
    {
        let ghost k = ModeKey::PaletteUvColor7(a as int);
        let ghost before = *self;
        assert(before@.dom().contains(k));
        assert(cdf_fair(before@[k]));
        proof {
            lemma_sym_value(dec@, before@[k]);
            law_cdf_stays_sorted(before@[k], sym_value(dec@, before@[k]));
        }
        let r: usize = dec.read_symbol(&mut self.palette_uv_color_7[a]);
        assert(self@ =~= before@.insert(k, cdf_next(before@[k], r as int)));
        r
    }

    pub(crate) fn read_palette_uv_color_8(&mut self, dec: &mut SymbolDecoder<'_>, a: usize) -> (r: usize)
        requires
            old(self).wf(),
            old(dec)@.wf(),
            a < 5,
        ensures
            table_read(old(self)@, old(dec)@, ModeKey::PaletteUvColor8(a as int), r, final(self)@, final(dec)@),
            final(self).wf(),
            final(dec)@.wf(),
            r < 8,
    {
        let ghost k = ModeKey::PaletteUvColor8(a as int);
        let ghost before = *self;
        assert(before@.dom().contains(k));
        assert(cdf_fair(before@[k]));
        proof {
            lemma_sym_value(dec@, before@[k]);
            law_cdf_stays_sorted(before@[k], sym_value(dec@, before@[k]));
        }
        let r: usize = dec.read_symbol(&mut self.palette_uv_color_8[a]);
        assert(self@ =~= before@.insert(k, cdf_next(before@[k], r as int)));
        r
    }
}

// The tables that a tile starts with, as far as they are fixed.

pub const DEFAULT_SEGMENT_ID_CDF: [[u16; 9]; 3] = [
    [4096, 8192, 12288, 16384, 20480, 24576, 28672, 32768, 0],
    [4096, 8192, 12288, 16384, 20480, 24576, 28672, 32768, 0],
    [4096, 8192, 12288, 16384, 20480, 24576, 28672, 32768, 0],
];

pub const DEFAULT_FILTER_INTRA_CDF: [[u16; 3]; 22] = [
    [4621, 32768, 0],
    [6743, 32768, 0],
    [5893, 32768, 0],
    [7866, 32768, 0],
    [12551, 32768, 0],
    [9394, 32768, 0],
    [12408, 32768, 0],
    [14301, 32768, 0],
    [12756, 32768, 0],
    [22343, 32768, 0],
    [16384, 32768, 0],
    [16384, 32768, 0],
    [16384, 32768, 0],
    [16384, 32768, 0],
    [16384, 32768, 0],
    [16384, 32768, 0],
    [12770, 32768, 0],
    [10368, 32768, 0],
    [20229, 32768, 0],
    [18101, 32768, 0],
    [16384, 32768, 0],
    [16384, 32768, 0],
];

pub const DEFAULT_FILTER_INTRA_MODE_CDF: [u16; 6] = [8949, 12776, 17211, 29558, 32768, 0];

pub const DEFAULT_CFL_SIGN_CDF: [u16; 9] = [1418, 2123, 13340, 18405, 26972, 28343, 32294, 32768, 0];

pub const DEFAULT_CFL_ALPHA_CDF: [[u16; 17]; 6] = [
    [
        7637, 20719, 31401, 32481, 32657, 32688, 32692, 32696, 32700, 32704, 32708, 32712,
        32716, 32720, 32724, 32768, 0,
    ],
    [
        14365, 23603, 28135, 31168, 32167, 32395, 32487, 32573, 32620, 32647, 32668, 32672,
        32676, 32680, 32684, 32768, 0,
    ],
    [
        11532, 22380, 28445, 31360, 32349, 32523, 32584, 32649, 32673, 32677, 32681, 32685,
        32689, 32693, 32697, 32768, 0,
    ],
    [
        26990, 31402, 32282, 32571, 32692, 32696, 32700, 32704, 32708, 32712, 32716, 32720,
        32724, 32728, 32732, 32768, 0,
    ],
    [
        17248, 26058, 28904, 30608, 31305, 31877, 32126, 32321, 32394, 32464, 32516, 32560,
        32576, 32593, 32622, 32768, 0,
    ],
    [
        14738, 21678, 25779, 27901, 29024, 30302, 30980, 31843, 32144, 32413, 32520, 32594,
        32622, 32656, 32660, 32768, 0,
    ],
];

pub const DEFAULT_PALETTE_Y_MODE_CDF: [[[u16; 3]; 3]; 7] = [
    [[31676, 32768, 0], [3419, 32768, 0], [1261, 32768, 0]],
    [[31912, 32768, 0], [2859, 32768, 0], [980, 32768, 0]],
    [[31823, 32768, 0], [3400, 32768, 0], [781, 32768, 0]],
    [[32030, 32768, 0], [3561, 32768, 0], [904, 32768, 0]],
    [[32309, 32768, 0], [7337, 32768, 0], [1462, 32768, 0]],
    [[32265, 32768, 0], [4015, 32768, 0], [1521, 32768, 0]],
    [[32450, 32768, 0], [7946, 32768, 0], [129, 32768, 0]],
];

pub const DEFAULT_PALETTE_UV_MODE_CDF: [[u16; 3]; 2] = [[32461, 32768, 0], [21488, 32768, 0]];

pub const DEFAULT_PALETTE_Y_SIZE_CDF: [[u16; 8]; 7] = [
    [7952, 13000, 18149, 21478, 25527, 29241, 32768, 0],
    [7139, 11421, 16195, 19544, 23666, 28073, 32768, 0],
    [7788, 12741, 17325, 20500, 24315, 28530, 32768, 0],
    [8271, 14064, 18246, 21564, 25071, 28533, 32768, 0],
    [12725, 19180, 21863, 24839, 27535, 30120, 32768, 0],
    [9711, 14888, 16923, 21052, 25661, 27875, 32768, 0],
    [14940, 20797, 21678, 24186, 27033, 28999, 32768, 0],
];

pub const DEFAULT_PALETTE_UV_SIZE_CDF: [[u16; 8]; 7] = [
    [8713, 19979, 27128, 29609, 31331, 32272, 32768, 0],
    [5839, 15573, 23581, 26947, 29848, 31700, 32768, 0],
    [4426, 11260, 17999, 21483, 25863, 29430, 32768, 0],
    [3228, 9464, 14993, 18089, 22523, 27420, 32768, 0],
    [3768, 8886, 13091, 17852, 22495, 27207, 32768, 0],
    [2464, 8451, 12861, 21632, 25525, 28555, 32768, 0],
    [1269, 5435, 10433, 18963, 21700, 25865, 32768, 0],
];

pub const DEFAULT_PALETTE_Y_COLOR_2_CDF: [[u16; 3]; 5] = [
    [28710, 32768, 0],
    [16384, 32768, 0],
    [10553, 32768, 0],
    [27036, 32768, 0],
    [31603, 32768, 0],
];

pub const DEFAULT_PALETTE_Y_COLOR_3_CDF: [[u16; 4]; 5] = [
    [27877, 30490, 32768, 0],
    [11532, 25697, 32768, 0],
    [6544, 30234, 32768, 0],
    [23018, 28072, 32768, 0],
    [31915, 32385, 32768, 0],
];

pub const DEFAULT_PALETTE_Y_COLOR_4_CDF: [[u16; 5]; 5] = [
    [25572, 28046, 30045, 32768, 0],
    [9478, 21590, 27256, 32768, 0],
    [7248, 26837, 29824, 32768, 0],
    [19167, 24486, 28349, 32768, 0],
    [31400, 31825, 32250, 32768, 0],
];

pub const DEFAULT_PALETTE_Y_COLOR_5_CDF: [[u16; 6]; 5] = [
    [24779, 26955, 28576, 30282, 32768, 0],
    [8669, 20364, 24073, 28093, 32768, 0],
    [4255, 27565, 29377, 31067, 32768, 0],
    [19864, 23674, 26716, 29530, 32768, 0],
    [31646, 31893, 32147, 32426, 32768, 0],
];

pub const DEFAULT_PALETTE_Y_COLOR_6_CDF: [[u16; 7]; 5] = [
    [23132, 25407, 26970, 28435, 30073, 32768, 0],
    [7443, 17242, 20717, 24762, 27982, 32768, 0],
    [6300, 24862, 26944, 28784, 30671, 32768, 0],
    [18916, 22895, 25267, 27435, 29652, 32768, 0],
    [31270, 31550, 31808, 32059, 32353, 32768, 0],
];

pub const DEFAULT_PALETTE_Y_COLOR_7_CDF: [[u16; 8]; 5] = [
    [23105, 25199, 26464, 27684, 28931, 30318, 32768, 0],
    [6950, 15447, 18952, 22681, 25567, 28563, 32768, 0],
    [7560, 23474, 25490, 27203, 28921, 30708, 32768, 0],
    [18544, 22373, 24457, 26195, 28119, 30045, 32768, 0],
    [31198, 31451, 31670, 31882, 32123, 32391, 32768, 0],
];

pub const DEFAULT_PALETTE_Y_COLOR_8_CDF: [[u16; 9]; 5] = [
    [21689, 23883, 25163, 26352, 27506, 28827, 30195, 32768, 0],
    [6892, 15385, 17840, 21606, 24287, 26753, 29204, 32768, 0],
    [5651, 23182, 25042, 26518, 27982, 29392, 30900, 32768, 0],
    [19349, 22578, 24418, 25994, 27524, 29031, 30448, 32768, 0],
    [31028, 31270, 31504, 31705, 31927, 32153, 32392, 32768, 0],
];

pub const DEFAULT_PALETTE_UV_COLOR_2_CDF: [[u16; 3]; 5] = [
    [29089, 32768, 0],
    [16384, 32768, 0],
    [8713, 32768, 0],
    [29257, 32768, 0],
    [31610, 32768, 0],
];

pub const DEFAULT_PALETTE_UV_COLOR_3_CDF: [[u16; 4]; 5] = [
    [25257, 29145, 32768, 0],
    [12287, 27293, 32768, 0],
    [7033, 27960, 32768, 0],
    [20145, 25405, 32768, 0],
    [30608, 31639, 32768, 0],
];

pub const DEFAULT_PALETTE_UV_COLOR_4_CDF: [[u16; 5]; 5] = [
    [24210, 27175, 29903, 32768, 0],
    [9888, 22386, 27214, 32768, 0],
    [5901, 26053, 29293, 32768, 0],
    [18318, 22152, 28333, 32768, 0],
    [30459, 31136, 31926, 32768, 0],
];

pub const DEFAULT_PALETTE_UV_COLOR_5_CDF: [[u16; 6]; 5] = [
    [22980, 25479, 27781, 29986, 32768, 0],
    [8413, 21408, 24859, 28874, 32768, 0],
    [2257, 29449, 30594, 31598, 32768, 0],
    [19189, 21202, 25915, 28620, 32768, 0],
    [31844, 32044, 32281, 32518, 32768, 0],
];

pub const DEFAULT_PALETTE_UV_COLOR_6_CDF: [[u16; 7]; 5] = [
    [22217, 24567, 26637, 28683, 30548, 32768, 0],
    [7307, 16406, 19636, 24632, 28424, 32768, 0],
    [4441, 25064, 26879, 28942, 30919, 32768, 0],
    [17210, 20528, 23319, 26750, 29582, 32768, 0],
    [30674, 30953, 31396, 31735, 32207, 32768, 0],
];

pub const DEFAULT_PALETTE_UV_COLOR_7_CDF: [[u16; 8]; 5] = [
    [21239, 23168, 25044, 26962, 28705, 30506, 32768, 0],
    [6545, 15012, 18004, 21817, 25503, 28701, 32768, 0],
    [3448, 26295, 27437, 28704, 30126, 31442, 32768, 0],
    [15889, 18323, 21704, 24698, 26976, 29690, 32768, 0],
    [30988, 31204, 31479, 31734, 31983, 32325, 32768, 0],
];

pub const DEFAULT_PALETTE_UV_COLOR_8_CDF: [[u16; 9]; 5] = [
    [21442, 23288, 24758, 26246, 27649, 28980, 30563, 32768, 0],
    [5863, 14933, 17552, 20668, 23683, 26411, 29273, 32768, 0],
    [3415, 25810, 26877, 27990, 29223, 30394, 31618, 32768, 0],
    [17965, 20084, 22232, 23974, 26274, 28402, 30390, 32768, 0],
    [31190, 31329, 31516, 31679, 31825, 32026, 32322, 32768, 0],
];

/// The tables that a tile starts with, as far as the caller brings them.
#[derive(Clone, Copy)]
pub struct ModeDefaults {
    pub partition_w8: [[u16; 5]; 4],
    pub partition_w16: [[u16; 11]; 4],
    pub partition_w32: [[u16; 11]; 4],
    pub partition_w64: [[u16; 11]; 4],
    pub partition_w128: [[u16; 9]; 4],
    pub intra_y_mode: [[[u16; 14]; 5]; 5],
    pub uv_mode_not_allowed: [[u16; 14]; 13],
    pub uv_mode_allowed: [[u16; 15]; 13],
    pub tx_8x8: [[u16; 3]; 3],
    pub tx_16x16: [[u16; 4]; 3],
    pub tx_32x32: [[u16; 4]; 3],
    pub tx_64x64: [[u16; 4]; 3],
    pub txfm_split: [[u16; 3]; 21],
    pub skip: [[u16; 3]; 3],
    pub angle_delta: [[u16; 8]; 8],
    pub interp_filter: [[u16; 4]; 16],
}

impl ModeDefaults {
    /// Every table is a probability table.
    pub open spec fn wf(self) -> bool {
        &&& forall|a: int|
            0 <= a < 4 ==> cdf_fair(#[trigger] self.partition_w8[a]@)
        &&& forall|a: int|
            0 <= a < 4 ==> cdf_fair(#[trigger] self.partition_w16[a]@)
        &&& forall|a: int|
            0 <= a < 4 ==> cdf_fair(#[trigger] self.partition_w32[a]@)
        &&& forall|a: int|
            0 <= a < 4 ==> cdf_fair(#[trigger] self.partition_w64[a]@)
        &&& forall|a: int|
            0 <= a < 4 ==> cdf_fair(#[trigger] self.partition_w128[a]@)
        &&& forall|a: int, b: int|
            0 <= a < 5 && 0 <= b < 5 ==> cdf_fair(#[trigger] self.intra_y_mode[a][b]@)
        &&& forall|a: int|
            0 <= a < 13 ==> cdf_fair(#[trigger] self.uv_mode_not_allowed[a]@)
        &&& forall|a: int|
            0 <= a < 13 ==> cdf_fair(#[trigger] self.uv_mode_allowed[a]@)
        &&& forall|a: int|
            0 <= a < 3 ==> cdf_fair(#[trigger] self.tx_8x8[a]@)
        &&& forall|a: int|
            0 <= a < 3 ==> cdf_fair(#[trigger] self.tx_16x16[a]@)
        &&& forall|a: int|
            0 <= a < 3 ==> cdf_fair(#[trigger] self.tx_32x32[a]@)
        &&& forall|a: int|
            0 <= a < 3 ==> cdf_fair(#[trigger] self.tx_64x64[a]@)
        &&& forall|a: int|
            0 <= a < 21 ==> cdf_fair(#[trigger] self.txfm_split[a]@)
        &&& forall|a: int|
            0 <= a < 3 ==> cdf_fair(#[trigger] self.skip[a]@)
        &&& forall|a: int|
            0 <= a < 8 ==> cdf_fair(#[trigger] self.angle_delta[a]@)
        &&& forall|a: int|
            0 <= a < 16 ==> cdf_fair(#[trigger] self.interp_filter[a]@)
    }
}

proof fn lemma_defaults(c: ModeCdfs, m: ModeDefaults)
    requires
        m.wf(),
        c.partition_w8 == m.partition_w8,
        c.partition_w16 == m.partition_w16,
        c.partition_w32 == m.partition_w32,
        c.partition_w64 == m.partition_w64,
        c.partition_w128 == m.partition_w128,
        c.intra_y_mode == m.intra_y_mode,
        c.uv_mode_not_allowed == m.uv_mode_not_allowed,
        c.uv_mode_allowed == m.uv_mode_allowed,
        c.tx_8x8 == m.tx_8x8,
        c.tx_16x16 == m.tx_16x16,
        c.tx_32x32 == m.tx_32x32,
        c.tx_64x64 == m.tx_64x64,
        c.txfm_split == m.txfm_split,
        c.skip == m.skip,
        c.segment_id == DEFAULT_SEGMENT_ID_CDF,
        c.angle_delta == m.angle_delta,
        c.interp_filter == m.interp_filter,
        c.filter_intra == DEFAULT_FILTER_INTRA_CDF,
        c.filter_intra_mode == DEFAULT_FILTER_INTRA_MODE_CDF,
        c.cfl_sign == DEFAULT_CFL_SIGN_CDF,
        c.cfl_alpha == DEFAULT_CFL_ALPHA_CDF,
        c.palette_y_mode == DEFAULT_PALETTE_Y_MODE_CDF,
        c.palette_uv_mode == DEFAULT_PALETTE_UV_MODE_CDF,
        c.palette_y_size == DEFAULT_PALETTE_Y_SIZE_CDF,
        c.palette_uv_size == DEFAULT_PALETTE_UV_SIZE_CDF,
        c.palette_y_color_2 == DEFAULT_PALETTE_Y_COLOR_2_CDF,
        c.palette_y_color_3 == DEFAULT_PALETTE_Y_COLOR_3_CDF,
        c.palette_y_color_4 == DEFAULT_PALETTE_Y_COLOR_4_CDF,
        c.palette_y_color_5 == DEFAULT_PALETTE_Y_COLOR_5_CDF,
        c.palette_y_color_6 == DEFAULT_PALETTE_Y_COLOR_6_CDF,
        c.palette_y_color_7 == DEFAULT_PALETTE_Y_COLOR_7_CDF,
        c.palette_y_color_8 == DEFAULT_PALETTE_Y_COLOR_8_CDF,
        c.palette_uv_color_2 == DEFAULT_PALETTE_UV_COLOR_2_CDF,
        c.palette_uv_color_3 == DEFAULT_PALETTE_UV_COLOR_3_CDF,
        c.palette_uv_color_4 == DEFAULT_PALETTE_UV_COLOR_4_CDF,
        c.palette_uv_color_5 == DEFAULT_PALETTE_UV_COLOR_5_CDF,
        c.palette_uv_color_6 == DEFAULT_PALETTE_UV_COLOR_6_CDF,
        c.palette_uv_color_7 == DEFAULT_PALETTE_UV_COLOR_7_CDF,
        c.palette_uv_color_8 == DEFAULT_PALETTE_UV_COLOR_8_CDF,
    ensures
        c.wf(),
{
    assert forall|k: ModeKey| k.valid() implies cdf_fair(#[trigger] c@[k]) by {
        match k {
            ModeKey::PartitionW8(a) => {
                assert(cdf_fair(m.partition_w8[a]@));
            },
            ModeKey::PartitionW16(a) => {
                assert(cdf_fair(m.partition_w16[a]@));
            },
            ModeKey::PartitionW32(a) => {
                assert(cdf_fair(m.partition_w32[a]@));
            },
            ModeKey::PartitionW64(a) => {
                assert(cdf_fair(m.partition_w64[a]@));
            },
            ModeKey::PartitionW128(a) => {
                assert(cdf_fair(m.partition_w128[a]@));
            },
            ModeKey::IntraYMode(a, b) => {
                assert(cdf_fair(m.intra_y_mode[a][b]@));
            },
            ModeKey::UvModeNotAllowed(a) => {
                assert(cdf_fair(m.uv_mode_not_allowed[a]@));
            },
            ModeKey::UvModeAllowed(a) => {
                assert(cdf_fair(m.uv_mode_allowed[a]@));
            },
            ModeKey::Tx8x8(a) => {
                assert(cdf_fair(m.tx_8x8[a]@));
            },
            ModeKey::Tx16x16(a) => {
                assert(cdf_fair(m.tx_16x16[a]@));
            },
            ModeKey::Tx32x32(a) => {
                assert(cdf_fair(m.tx_32x32[a]@));
            },
            ModeKey::Tx64x64(a) => {
                assert(cdf_fair(m.tx_64x64[a]@));
            },
            ModeKey::TxfmSplit(a) => {
                assert(cdf_fair(m.txfm_split[a]@));
            },
            ModeKey::Skip(a) => {
                assert(cdf_fair(m.skip[a]@));
            },
            ModeKey::SegmentId(a) => {
                lemma_segment_id(a);
            },
            ModeKey::AngleDelta(a) => {
                assert(cdf_fair(m.angle_delta[a]@));
            },
            ModeKey::InterpFilter(a) => {
                assert(cdf_fair(m.interp_filter[a]@));
            },
            ModeKey::FilterIntra(a) => {
                lemma_filter_intra(a);
            },
            ModeKey::FilterIntraMode => {
                lemma_filter_intra_mode();
            },
            ModeKey::CflSign => {
                lemma_cfl_sign();
            },
            ModeKey::CflAlpha(a) => {
                lemma_cfl_alpha(a);
            },
            ModeKey::PaletteYMode(a, b) => {
                lemma_palette_y_mode(a, b);
            },
            ModeKey::PaletteUvMode(a) => {
                lemma_palette_uv_mode(a);
            },
            ModeKey::PaletteYSize(a) => {
                lemma_palette_y_size(a);
            },
            ModeKey::PaletteUvSize(a) => {
                lemma_palette_uv_size(a);
            },
            ModeKey::PaletteYColor2(a) => {
                lemma_palette_y_color_2(a);
            },
            ModeKey::PaletteYColor3(a) => {
                lemma_palette_y_color_3(a);
            },
            ModeKey::PaletteYColor4(a) => {
                lemma_palette_y_color_4(a);
            },
            ModeKey::PaletteYColor5(a) => {
                lemma_palette_y_color_5(a);
            },
            ModeKey::PaletteYColor6(a) => {
                lemma_palette_y_color_6(a);
            },
            ModeKey::PaletteYColor7(a) => {
                lemma_palette_y_color_7(a);
            },
            ModeKey::PaletteYColor8(a) => {
                lemma_palette_y_color_8(a);
            },
            ModeKey::PaletteUvColor2(a) => {
                lemma_palette_uv_color_2(a);
            },
            ModeKey::PaletteUvColor3(a) => {
                lemma_palette_uv_color_3(a);
            },
            ModeKey::PaletteUvColor4(a) => {
                lemma_palette_uv_color_4(a);
            },
            ModeKey::PaletteUvColor5(a) => {
                lemma_palette_uv_color_5(a);
            },
            ModeKey::PaletteUvColor6(a) => {
                lemma_palette_uv_color_6(a);
            },
            ModeKey::PaletteUvColor7(a) => {
                lemma_palette_uv_color_7(a);
            },
            ModeKey::PaletteUvColor8(a) => {
                lemma_palette_uv_color_8(a);
            },
        }
    }
}

proof fn lemma_segment_id(a: int)
    requires
        0 <= a < 3,
    ensures
        cdf_fair(DEFAULT_SEGMENT_ID_CDF[a]@),
{
}

proof fn lemma_filter_intra(a: int)
    requires
        0 <= a < 22,
    ensures
        cdf_fair(DEFAULT_FILTER_INTRA_CDF[a]@),
{
}

proof fn lemma_filter_intra_mode()
    ensures
        cdf_fair(DEFAULT_FILTER_INTRA_MODE_CDF@),
{
}

proof fn lemma_cfl_sign()
    ensures
        cdf_fair(DEFAULT_CFL_SIGN_CDF@),
{
}

proof fn lemma_cfl_alpha(a: int)
    requires
        0 <= a < 6,
    ensures
        cdf_fair(DEFAULT_CFL_ALPHA_CDF[a]@),
{
}

proof fn lemma_palette_y_mode(a: int, b: int)
    requires
        0 <= a < 7,
        0 <= b < 3,
    ensures
        cdf_fair(DEFAULT_PALETTE_Y_MODE_CDF[a][b]@),
{
}

proof fn lemma_palette_uv_mode(a: int)
    requires
        0 <= a < 2,
    ensures
        cdf_fair(DEFAULT_PALETTE_UV_MODE_CDF[a]@),
{
}

proof fn lemma_palette_y_size(a: int)
    requires
        0 <= a < 7,
    ensures
        cdf_fair(DEFAULT_PALETTE_Y_SIZE_CDF[a]@),
{
}

proof fn lemma_palette_uv_size(a: int)
    requires
        0 <= a < 7,
    ensures
        cdf_fair(DEFAULT_PALETTE_UV_SIZE_CDF[a]@),
{
}

proof fn lemma_palette_y_color_2(a: int)
    requires
        0 <= a < 5,
    ensures
        cdf_fair(DEFAULT_PALETTE_Y_COLOR_2_CDF[a]@),
{
}

proof fn lemma_palette_y_color_3(a: int)
    requires
        0 <= a < 5,
    ensures
        cdf_fair(DEFAULT_PALETTE_Y_COLOR_3_CDF[a]@),
{
}

proof fn lemma_palette_y_color_4(a: int)
    requires
        0 <= a < 5,
    ensures
        cdf_fair(DEFAULT_PALETTE_Y_COLOR_4_CDF[a]@),
{
}

proof fn lemma_palette_y_color_5(a: int)
    requires
        0 <= a < 5,
    ensures
        cdf_fair(DEFAULT_PALETTE_Y_COLOR_5_CDF[a]@),
{
}

proof fn lemma_palette_y_color_6(a: int)
    requires
        0 <= a < 5,
    ensures
        cdf_fair(DEFAULT_PALETTE_Y_COLOR_6_CDF[a]@),
{
}

proof fn lemma_palette_y_color_7(a: int)
    requires
        0 <= a < 5,
    ensures
        cdf_fair(DEFAULT_PALETTE_Y_COLOR_7_CDF[a]@),
{
}

proof fn lemma_palette_y_color_8(a: int)
    requires
        0 <= a < 5,
    ensures
        cdf_fair(DEFAULT_PALETTE_Y_COLOR_8_CDF[a]@),
{
}

proof fn lemma_palette_uv_color_2(a: int)
    requires
        0 <= a < 5,
    ensures
        cdf_fair(DEFAULT_PALETTE_UV_COLOR_2_CDF[a]@),
{
}

proof fn lemma_palette_uv_color_3(a: int)
    requires
        0 <= a < 5,
    ensures
        cdf_fair(DEFAULT_PALETTE_UV_COLOR_3_CDF[a]@),
{
}

proof fn lemma_palette_uv_color_4(a: int)
    requires
        0 <= a < 5,
    ensures
        cdf_fair(DEFAULT_PALETTE_UV_COLOR_4_CDF[a]@),
{
}

proof fn lemma_palette_uv_color_5(a: int)
    requires
        0 <= a < 5,
    ensures
        cdf_fair(DEFAULT_PALETTE_UV_COLOR_5_CDF[a]@),
{
}

proof fn lemma_palette_uv_color_6(a: int)
    requires
        0 <= a < 5,
    ensures
        cdf_fair(DEFAULT_PALETTE_UV_COLOR_6_CDF[a]@),
{
}

proof fn lemma_palette_uv_color_7(a: int)
    requires
        0 <= a < 5,
    ensures
        cdf_fair(DEFAULT_PALETTE_UV_COLOR_7_CDF[a]@),
{
}

proof fn lemma_palette_uv_color_8(a: int)
    requires
        0 <= a < 5,
    ensures
        cdf_fair(DEFAULT_PALETTE_UV_COLOR_8_CDF[a]@),
{
}

/// The tables that a tile starts with.
pub open spec fn initial_modes(m: ModeDefaults) -> Map<ModeKey, Seq<u16>> {
    Map::new(
        |k: ModeKey| k.valid(),
        |k: ModeKey|
            match k {
                ModeKey::PartitionW8(a) => m.partition_w8[a]@,
                ModeKey::PartitionW16(a) => m.partition_w16[a]@,
                ModeKey::PartitionW32(a) => m.partition_w32[a]@,
                ModeKey::PartitionW64(a) => m.partition_w64[a]@,
                ModeKey::PartitionW128(a) => m.partition_w128[a]@,
                ModeKey::IntraYMode(a, b) => m.intra_y_mode[a][b]@,
                ModeKey::UvModeNotAllowed(a) => m.uv_mode_not_allowed[a]@,
                ModeKey::UvModeAllowed(a) => m.uv_mode_allowed[a]@,
                ModeKey::Tx8x8(a) => m.tx_8x8[a]@,
                ModeKey::Tx16x16(a) => m.tx_16x16[a]@,
                ModeKey::Tx32x32(a) => m.tx_32x32[a]@,
                ModeKey::Tx64x64(a) => m.tx_64x64[a]@,
                ModeKey::TxfmSplit(a) => m.txfm_split[a]@,
                ModeKey::Skip(a) => m.skip[a]@,
                ModeKey::SegmentId(a) => DEFAULT_SEGMENT_ID_CDF[a]@,
                ModeKey::AngleDelta(a) => m.angle_delta[a]@,
                ModeKey::InterpFilter(a) => m.interp_filter[a]@,
                ModeKey::FilterIntra(a) => DEFAULT_FILTER_INTRA_CDF[a]@,
                ModeKey::FilterIntraMode => DEFAULT_FILTER_INTRA_MODE_CDF@,
                ModeKey::CflSign => DEFAULT_CFL_SIGN_CDF@,
                ModeKey::CflAlpha(a) => DEFAULT_CFL_ALPHA_CDF[a]@,
                ModeKey::PaletteYMode(a, b) => DEFAULT_PALETTE_Y_MODE_CDF[a][b]@,
                ModeKey::PaletteUvMode(a) => DEFAULT_PALETTE_UV_MODE_CDF[a]@,
                ModeKey::PaletteYSize(a) => DEFAULT_PALETTE_Y_SIZE_CDF[a]@,
                ModeKey::PaletteUvSize(a) => DEFAULT_PALETTE_UV_SIZE_CDF[a]@,
                ModeKey::PaletteYColor2(a) => DEFAULT_PALETTE_Y_COLOR_2_CDF[a]@,
                ModeKey::PaletteYColor3(a) => DEFAULT_PALETTE_Y_COLOR_3_CDF[a]@,
                ModeKey::PaletteYColor4(a) => DEFAULT_PALETTE_Y_COLOR_4_CDF[a]@,
                ModeKey::PaletteYColor5(a) => DEFAULT_PALETTE_Y_COLOR_5_CDF[a]@,
                ModeKey::PaletteYColor6(a) => DEFAULT_PALETTE_Y_COLOR_6_CDF[a]@,
                ModeKey::PaletteYColor7(a) => DEFAULT_PALETTE_Y_COLOR_7_CDF[a]@,
                ModeKey::PaletteYColor8(a) => DEFAULT_PALETTE_Y_COLOR_8_CDF[a]@,
                ModeKey::PaletteUvColor2(a) => DEFAULT_PALETTE_UV_COLOR_2_CDF[a]@,
                ModeKey::PaletteUvColor3(a) => DEFAULT_PALETTE_UV_COLOR_3_CDF[a]@,
                ModeKey::PaletteUvColor4(a) => DEFAULT_PALETTE_UV_COLOR_4_CDF[a]@,
                ModeKey::PaletteUvColor5(a) => DEFAULT_PALETTE_UV_COLOR_5_CDF[a]@,
                ModeKey::PaletteUvColor6(a) => DEFAULT_PALETTE_UV_COLOR_6_CDF[a]@,
                ModeKey::PaletteUvColor7(a) => DEFAULT_PALETTE_UV_COLOR_7_CDF[a]@,
                ModeKey::PaletteUvColor8(a) => DEFAULT_PALETTE_UV_COLOR_8_CDF[a]@,
            },
    )
}

impl ModeCdfs {
    /// The tables that a tile starts with.
    pub fn new(defaults: &ModeDefaults) -> (r: Self)
        requires
            defaults.wf(),
        ensures
            r.wf(),
            r@ == initial_modes(*defaults),
    {
        let r: ModeCdfs = ModeCdfs {
            partition_w8: defaults.partition_w8,
            partition_w16: defaults.partition_w16,
            partition_w32: defaults.partition_w32,
            partition_w64: defaults.partition_w64,
            partition_w128: defaults.partition_w128,
            intra_y_mode: defaults.intra_y_mode,
            uv_mode_not_allowed: defaults.uv_mode_not_allowed,
            uv_mode_allowed: defaults.uv_mode_allowed,
            tx_8x8: defaults.tx_8x8,
            tx_16x16: defaults.tx_16x16,
            tx_32x32: defaults.tx_32x32,
            tx_64x64: defaults.tx_64x64,
            txfm_split: defaults.txfm_split,
            skip: defaults.skip,
            segment_id: DEFAULT_SEGMENT_ID_CDF,
            angle_delta: defaults.angle_delta,
            interp_filter: defaults.interp_filter,
            filter_intra: DEFAULT_FILTER_INTRA_CDF,
            filter_intra_mode: DEFAULT_FILTER_INTRA_MODE_CDF,
            cfl_sign: DEFAULT_CFL_SIGN_CDF,
            cfl_alpha: DEFAULT_CFL_ALPHA_CDF,
            palette_y_mode: DEFAULT_PALETTE_Y_MODE_CDF,
            palette_uv_mode: DEFAULT_PALETTE_UV_MODE_CDF,
            palette_y_size: DEFAULT_PALETTE_Y_SIZE_CDF,
            palette_uv_size: DEFAULT_PALETTE_UV_SIZE_CDF,
            palette_y_color_2: DEFAULT_PALETTE_Y_COLOR_2_CDF,
            palette_y_color_3: DEFAULT_PALETTE_Y_COLOR_3_CDF,
            palette_y_color_4: DEFAULT_PALETTE_Y_COLOR_4_CDF,
            palette_y_color_5: DEFAULT_PALETTE_Y_COLOR_5_CDF,
            palette_y_color_6: DEFAULT_PALETTE_Y_COLOR_6_CDF,
            palette_y_color_7: DEFAULT_PALETTE_Y_COLOR_7_CDF,
            palette_y_color_8: DEFAULT_PALETTE_Y_COLOR_8_CDF,
            palette_uv_color_2: DEFAULT_PALETTE_UV_COLOR_2_CDF,
            palette_uv_color_3: DEFAULT_PALETTE_UV_COLOR_3_CDF,
            palette_uv_color_4: DEFAULT_PALETTE_UV_COLOR_4_CDF,
            palette_uv_color_5: DEFAULT_PALETTE_UV_COLOR_5_CDF,
            palette_uv_color_6: DEFAULT_PALETTE_UV_COLOR_6_CDF,
            palette_uv_color_7: DEFAULT_PALETTE_UV_COLOR_7_CDF,
            palette_uv_color_8: DEFAULT_PALETTE_UV_COLOR_8_CDF,
        };
        proof {
            lemma_defaults(r, *defaults);
            assert(r@ =~= initial_modes(*defaults));
        }
        r
    }
}

} // verus!
