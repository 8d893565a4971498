//! Reading the quantized coefficients of a transform block.
use crate::bits::{
    lemma_pow2i_mono, lemma_pow2i_values, lemma_shl_pow2, pow2i,
};
use crate::coeff_tables::{
    get_scan, get_tx_class, get_tx_set_intra, has_scan, lemma_scan, lemma_tx_dims, scan_of,
    square_area, tx_class_of, tx_set_of, COEFF_BASE_CTX_OFFSET, COEFF_BASE_POS_CTX_OFFSET, DCT_DCT,
    MODE_TO_TXFM, TX_32X32, TX_CLASS_2D, TX_CLASS_HORIZ, TX_CLASS_VERT, TX_HEIGHT, TX_HEIGHT_LOG2,
    TX_SET_DCTONLY, TX_SET_INTRA_1, TX_SET_INTRA_2, TX_SIZE_SQR, TX_SIZE_SQR_UP,
    TX_TYPE_INTRA_INV_SET1, TX_TYPE_INTRA_INV_SET2, TX_TYPE_IN_SET_INTRA, TX_WIDTH, TX_WIDTH_LOG2,
};
use crate::entropy::{
    bool_int, bool_next, bool_value, cdf_next, cdf_wf, literal_next, literal_value, min_of, sym_next,
    sym_value, table_read, SymState, SymbolDecoder,
};
use crate::error::{Feature, KinetixError, ParseError};
use vstd::prelude::*;

verus! {

/// Names one table of a `TileCdfs`.
pub enum CoeffKey {
    TxbSkip(int, int),
    EobPt16(int, int),
    EobPt32(int, int),
    EobPt64(int, int),
    EobPt128(int, int),
    EobPt256(int, int),
    EobPt512(int),
    EobPt1024(int),
    EobExtra(int, int, int),
    CoeffBaseEob(int, int, int),
    CoeffBase(int, int, int),
    CoeffBr(int, int, int),
    DcSign(int, int),
    TxSet1(int, int),
    TxSet2(int, int),
}

/// The adaptive probability tables of the coefficients of a tile.
#[derive(Clone, Copy)]
pub struct TileCdfs {
    pub txb_skip: [[[u16; 3]; 13]; 5],
    pub eob_pt_16: [[[u16; 6]; 2]; 2],
    pub eob_pt_32: [[[u16; 7]; 2]; 2],
    pub eob_pt_64: [[[u16; 8]; 2]; 2],
    pub eob_pt_128: [[[u16; 9]; 2]; 2],
    pub eob_pt_256: [[[u16; 10]; 2]; 2],
    pub eob_pt_512: [[u16; 11]; 2],
    pub eob_pt_1024: [[u16; 12]; 2],
    pub eob_extra: [[[[u16; 3]; 9]; 2]; 5],
    pub coeff_base_eob: [[[[u16; 4]; 4]; 2]; 5],
    pub coeff_base: [[[[u16; 5]; 42]; 2]; 5],
    pub coeff_br: [[[[u16; 5]; 21]; 2]; 5],
    pub dc_sign: [[[u16; 3]; 3]; 2],
    pub intra_tx_type_set1: [[[u16; 8]; 13]; 2],
    pub intra_tx_type_set2: [[[u16; 6]; 13]; 3],
}

impl CoeffKey {
    /// The table with this name exists.
    pub open spec fn valid(self) -> bool {
        match self {
            CoeffKey::TxbSkip(a, b) => 0 <= a < 5 && 0 <= b < 13,
            CoeffKey::EobPt16(a, b) => 0 <= a < 2 && 0 <= b < 2,
            CoeffKey::EobPt32(a, b) => 0 <= a < 2 && 0 <= b < 2,
            CoeffKey::EobPt64(a, b) => 0 <= a < 2 && 0 <= b < 2,
            CoeffKey::EobPt128(a, b) => 0 <= a < 2 && 0 <= b < 2,
            CoeffKey::EobPt256(a, b) => 0 <= a < 2 && 0 <= b < 2,
            CoeffKey::EobPt512(a) => 0 <= a < 2,
            CoeffKey::EobPt1024(a) => 0 <= a < 2,
            CoeffKey::EobExtra(a, b, c) => 0 <= a < 5 && 0 <= b < 2 && 0 <= c < 9,
            CoeffKey::CoeffBaseEob(a, b, c) => 0 <= a < 5 && 0 <= b < 2 && 0 <= c < 4,
            CoeffKey::CoeffBase(a, b, c) => 0 <= a < 5 && 0 <= b < 2 && 0 <= c < 42,
            CoeffKey::CoeffBr(a, b, c) => 0 <= a < 5 && 0 <= b < 2 && 0 <= c < 21,
            CoeffKey::DcSign(a, b) => 0 <= a < 2 && 0 <= b < 3,
            CoeffKey::TxSet1(a, b) => 0 <= a < 2 && 0 <= b < 13,
            CoeffKey::TxSet2(a, b) => 0 <= a < 3 && 0 <= b < 13,
        }
    }

    /// The number of symbols of the table with this name.
    pub open spec fn symbols(self) -> int {
        match self {
            CoeffKey::TxbSkip(_, _) => 2,
            CoeffKey::EobPt16(_, _) => 5,
            CoeffKey::EobPt32(_, _) => 6,
            CoeffKey::EobPt64(_, _) => 7,
            CoeffKey::EobPt128(_, _) => 8,
            CoeffKey::EobPt256(_, _) => 9,
            CoeffKey::EobPt512(_) => 10,
            CoeffKey::EobPt1024(_) => 11,
            CoeffKey::EobExtra(_, _, _) => 2,
            CoeffKey::CoeffBaseEob(_, _, _) => 3,
            CoeffKey::CoeffBase(_, _, _) => 4,
            CoeffKey::CoeffBr(_, _, _) => 4,
            CoeffKey::DcSign(_, _) => 2,
            CoeffKey::TxSet1(_, _) => 7,
            CoeffKey::TxSet2(_, _) => 5,
        }
    }
}

impl TileCdfs {
    /// The table named `k`.
    pub open spec fn table(self, k: CoeffKey) -> Seq<u16> {
        match k {
            CoeffKey::TxbSkip(a, b) => self.txb_skip[a][b]@,
            CoeffKey::EobPt16(a, b) => self.eob_pt_16[a][b]@,
            CoeffKey::EobPt32(a, b) => self.eob_pt_32[a][b]@,
            CoeffKey::EobPt64(a, b) => self.eob_pt_64[a][b]@,
            CoeffKey::EobPt128(a, b) => self.eob_pt_128[a][b]@,
            CoeffKey::EobPt256(a, b) => self.eob_pt_256[a][b]@,
            CoeffKey::EobPt512(a) => self.eob_pt_512[a]@,
            CoeffKey::EobPt1024(a) => self.eob_pt_1024[a]@,
            CoeffKey::EobExtra(a, b, c) => self.eob_extra[a][b][c]@,
            CoeffKey::CoeffBaseEob(a, b, c) => self.coeff_base_eob[a][b][c]@,
            CoeffKey::CoeffBase(a, b, c) => self.coeff_base[a][b][c]@,
            CoeffKey::CoeffBr(a, b, c) => self.coeff_br[a][b][c]@,
            CoeffKey::DcSign(a, b) => self.dc_sign[a][b]@,
            CoeffKey::TxSet1(a, b) => self.intra_tx_type_set1[a][b]@,
            CoeffKey::TxSet2(a, b) => self.intra_tx_type_set2[a][b]@,
        }
    }

    /// Every table is a probability table.
    pub open spec fn wf(self) -> bool {
        forall|k: CoeffKey| k.valid() ==> cdf_wf(#[trigger] self@[k])
    }

    /// Every counter is in range.
    pub open spec fn counts(self) -> bool {
        forall|k: CoeffKey|
            k.valid() ==> (#[trigger] self@[k])[self@[k].len() - 1] <= 32
    }
}

impl View for TileCdfs {
    type V = Map<CoeffKey, Seq<u16>>;

    open spec fn view(&self) -> Map<CoeffKey, Seq<u16>> {
        Map::new(|k: CoeffKey| k.valid(), |k: CoeffKey| self.table(k))
    }
}

impl TileCdfs {
    pub(crate) fn read_txb_skip(&mut self, dec: &mut SymbolDecoder<'_>, a: usize, b: usize) -> (r: usize)
        requires
            old(self).wf(),
            old(dec)@.wf(),
            a < 5,
            b < 13,
        ensures
            table_read(old(self)@, old(dec)@, CoeffKey::TxbSkip(a as int, b as int), r, final(self)@, final(dec)@),
            final(self).wf(),
            final(dec)@.wf(),
            r < 2,
    {
        let ghost k = CoeffKey::TxbSkip(a as int, b as int);
        let ghost before = *self;
        assert(before@.dom().contains(k));
        assert(cdf_wf(before@[k]));
        let r: usize = dec.read_symbol(&mut self.txb_skip[a][b]);
        assert(self@ =~= before@.insert(k, cdf_next(before@[k], r as int)));
        r
    }

    pub(crate) fn read_eob_pt_16(&mut self, dec: &mut SymbolDecoder<'_>, a: usize, b: usize) -> (r: usize)
        requires
            old(self).wf(),
            old(dec)@.wf(),
            a < 2,
            b < 2,
        ensures
            table_read(old(self)@, old(dec)@, CoeffKey::EobPt16(a as int, b as int), r, final(self)@, final(dec)@),
            final(self).wf(),
            final(dec)@.wf(),
            r < 5,
    {
        let ghost k = CoeffKey::EobPt16(a as int, b as int);
        let ghost before = *self;
        assert(before@.dom().contains(k));
        assert(cdf_wf(before@[k]));
        let r: usize = dec.read_symbol(&mut self.eob_pt_16[a][b]);
        assert(self@ =~= before@.insert(k, cdf_next(before@[k], r as int)));
        r
    }

    pub(crate) fn read_eob_pt_32(&mut self, dec: &mut SymbolDecoder<'_>, a: usize, b: usize) -> (r: usize)
        requires
            old(self).wf(),
            old(dec)@.wf(),
            a < 2,
            b < 2,
        ensures
            table_read(old(self)@, old(dec)@, CoeffKey::EobPt32(a as int, b as int), r, final(self)@, final(dec)@),
            final(self).wf(),
            final(dec)@.wf(),
            r < 6,
    {
        let ghost k = CoeffKey::EobPt32(a as int, b as int);
        let ghost before = *self;
        assert(before@.dom().contains(k));
        assert(cdf_wf(before@[k]));
        let r: usize = dec.read_symbol(&mut self.eob_pt_32[a][b]);
        assert(self@ =~= before@.insert(k, cdf_next(before@[k], r as int)));
        r
    }

    pub(crate) fn read_eob_pt_64(&mut self, dec: &mut SymbolDecoder<'_>, a: usize, b: usize) -> (r: usize)
        requires
            old(self).wf(),
            old(dec)@.wf(),
            a < 2,
            b < 2,
        ensures
            table_read(old(self)@, old(dec)@, CoeffKey::EobPt64(a as int, b as int), r, final(self)@, final(dec)@),
            final(self).wf(),
            final(dec)@.wf(),
            r < 7,
    {
        let ghost k = CoeffKey::EobPt64(a as int, b as int);
        let ghost before = *self;
        assert(before@.dom().contains(k));
        assert(cdf_wf(before@[k]));
        let r: usize = dec.read_symbol(&mut self.eob_pt_64[a][b]);
        assert(self@ =~= before@.insert(k, cdf_next(before@[k], r as int)));
        r
    }

    pub(crate) fn read_eob_pt_128(&mut self, dec: &mut SymbolDecoder<'_>, a: usize, b: usize) -> (r: usize)
        requires
            old(self).wf(),
            old(dec)@.wf(),
            a < 2,
            b < 2,
        ensures
            table_read(old(self)@, old(dec)@, CoeffKey::EobPt128(a as int, b as int), r, final(self)@, final(dec)@),
            final(self).wf(),
            final(dec)@.wf(),
            r < 8,
    {
        let ghost k = CoeffKey::EobPt128(a as int, b as int);
        let ghost before = *self;
        assert(before@.dom().contains(k));
        assert(cdf_wf(before@[k]));
        let r: usize = dec.read_symbol(&mut self.eob_pt_128[a][b]);
        assert(self@ =~= before@.insert(k, cdf_next(before@[k], r as int)));
        r
    }

    pub(crate) fn read_eob_pt_256(&mut self, dec: &mut SymbolDecoder<'_>, a: usize, b: usize) -> (r: usize)
        requires
            old(self).wf(),
            old(dec)@.wf(),
            a < 2,
            b < 2,
        ensures
            table_read(old(self)@, old(dec)@, CoeffKey::EobPt256(a as int, b as int), r, final(self)@, final(dec)@),
            final(self).wf(),
            final(dec)@.wf(),
            r < 9,
    {
        let ghost k = CoeffKey::EobPt256(a as int, b as int);
        let ghost before = *self;
        assert(before@.dom().contains(k));
        assert(cdf_wf(before@[k]));
        let r: usize = dec.read_symbol(&mut self.eob_pt_256[a][b]);
        assert(self@ =~= before@.insert(k, cdf_next(before@[k], r as int)));
        r
    }

    pub(crate) fn read_eob_pt_512(&mut self, dec: &mut SymbolDecoder<'_>, a: usize) -> (r: usize)
        requires
            old(self).wf(),
            old(dec)@.wf(),
            a < 2,
        ensures
            table_read(old(self)@, old(dec)@, CoeffKey::EobPt512(a as int), r, final(self)@, final(dec)@),
            final(self).wf(),
            final(dec)@.wf(),
            r < 10,
    {
        let ghost k = CoeffKey::EobPt512(a as int);
        let ghost before = *self;
        assert(before@.dom().contains(k));
        assert(cdf_wf(before@[k]));
        let r: usize = dec.read_symbol(&mut self.eob_pt_512[a]);
        assert(self@ =~= before@.insert(k, cdf_next(before@[k], r as int)));
        r
    }

    pub(crate) fn read_eob_pt_1024(&mut self, dec: &mut SymbolDecoder<'_>, a: usize) -> (r: usize)
        requires
            old(self).wf(),
            old(dec)@.wf(),
            a < 2,
        ensures
            table_read(old(self)@, old(dec)@, CoeffKey::EobPt1024(a as int), r, final(self)@, final(dec)@),
            final(self).wf(),
            final(dec)@.wf(),
            r < 11,
    {
        let ghost k = CoeffKey::EobPt1024(a as int);
        let ghost before = *self;
        assert(before@.dom().contains(k));
        assert(cdf_wf(before@[k]));
        let r: usize = dec.read_symbol(&mut self.eob_pt_1024[a]);
        assert(self@ =~= before@.insert(k, cdf_next(before@[k], r as int)));
        r
    }

    pub(crate) fn read_eob_extra(&mut self, dec: &mut SymbolDecoder<'_>, a: usize, b: usize, c: usize) -> (r: usize)
        requires
            old(self).wf(),
            old(dec)@.wf(),
            a < 5,
            b < 2,
            c < 9,
        ensures
            table_read(old(self)@, old(dec)@, CoeffKey::EobExtra(a as int, b as int, c as int), r, final(self)@, final(dec)@),
            final(self).wf(),
            final(dec)@.wf(),
            r < 2,
    {
        let ghost k = CoeffKey::EobExtra(a as int, b as int, c as int);
        let ghost before = *self;
        assert(before@.dom().contains(k));
        assert(cdf_wf(before@[k]));
        let r: usize = dec.read_symbol(&mut self.eob_extra[a][b][c]);
        assert(self@ =~= before@.insert(k, cdf_next(before@[k], r as int)));
        r
    }

    pub(crate) fn read_coeff_base_eob(&mut self, dec: &mut SymbolDecoder<'_>, a: usize, b: usize, c: usize) -> (r: usize)
        requires
            old(self).wf(),
            old(dec)@.wf(),
            a < 5,
            b < 2,
            c < 4,
        ensures
            table_read(old(self)@, old(dec)@, CoeffKey::CoeffBaseEob(a as int, b as int, c as int), r, final(self)@, final(dec)@),
            final(self).wf(),
            final(dec)@.wf(),
            r < 3,
    {
        let ghost k = CoeffKey::CoeffBaseEob(a as int, b as int, c as int);
        let ghost before = *self;
        assert(before@.dom().contains(k));
        assert(cdf_wf(before@[k]));
        let r: usize = dec.read_symbol(&mut self.coeff_base_eob[a][b][c]);
        assert(self@ =~= before@.insert(k, cdf_next(before@[k], r as int)));
        r
    }

    pub(crate) fn read_coeff_base(&mut self, dec: &mut SymbolDecoder<'_>, a: usize, b: usize, c: usize) -> (r: usize)
        requires
            old(self).wf(),
            old(dec)@.wf(),
            a < 5,
            b < 2,
            c < 42,
        ensures
            table_read(old(self)@, old(dec)@, CoeffKey::CoeffBase(a as int, b as int, c as int), r, final(self)@, final(dec)@),
            final(self).wf(),
            final(dec)@.wf(),
            r < 4,
    {
        let ghost k = CoeffKey::CoeffBase(a as int, b as int, c as int);
        let ghost before = *self;
        assert(before@.dom().contains(k));
        assert(cdf_wf(before@[k]));
        let r: usize = dec.read_symbol(&mut self.coeff_base[a][b][c]);
        assert(self@ =~= before@.insert(k, cdf_next(before@[k], r as int)));
        r
    }

    pub(crate) fn read_coeff_br(&mut self, dec: &mut SymbolDecoder<'_>, a: usize, b: usize, c: usize) -> (r: usize)
        requires
            old(self).wf(),
            old(dec)@.wf(),
            a < 5,
            b < 2,
            c < 21,
        ensures
            table_read(old(self)@, old(dec)@, CoeffKey::CoeffBr(a as int, b as int, c as int), r, final(self)@, final(dec)@),
            final(self).wf(),
            final(dec)@.wf(),
            r < 4,
    {
        let ghost k = CoeffKey::CoeffBr(a as int, b as int, c as int);
        let ghost before = *self;
        assert(before@.dom().contains(k));
        assert(cdf_wf(before@[k]));
        let r: usize = dec.read_symbol(&mut self.coeff_br[a][b][c]);
        assert(self@ =~= before@.insert(k, cdf_next(before@[k], r as int)));
        r
    }

    pub(crate) fn read_dc_sign(&mut self, dec: &mut SymbolDecoder<'_>, a: usize, b: usize) -> (r: usize)
        requires
            old(self).wf(),
            old(dec)@.wf(),
            a < 2,
            b < 3,
        ensures
            table_read(old(self)@, old(dec)@, CoeffKey::DcSign(a as int, b as int), r, final(self)@, final(dec)@),
            final(self).wf(),
            final(dec)@.wf(),
            r < 2,
    {
        let ghost k = CoeffKey::DcSign(a as int, b as int);
        let ghost before = *self;
        assert(before@.dom().contains(k));
        assert(cdf_wf(before@[k]));
        let r: usize = dec.read_symbol(&mut self.dc_sign[a][b]);
        assert(self@ =~= before@.insert(k, cdf_next(before@[k], r as int)));
        r
    }

    pub(crate) fn read_intra_tx_type_set1(&mut self, dec: &mut SymbolDecoder<'_>, a: usize, b: usize) -> (r: usize)
        requires
            old(self).wf(),
            old(dec)@.wf(),
            a < 2,
            b < 13,
        ensures
            table_read(old(self)@, old(dec)@, CoeffKey::TxSet1(a as int, b as int), r, final(self)@, final(dec)@),
            final(self).wf(),
            final(dec)@.wf(),
            r < 7,
    {
        let ghost k = CoeffKey::TxSet1(a as int, b as int);
        let ghost before = *self;
        assert(before@.dom().contains(k));
        assert(cdf_wf(before@[k]));
        let r: usize = dec.read_symbol(&mut self.intra_tx_type_set1[a][b]);
        assert(self@ =~= before@.insert(k, cdf_next(before@[k], r as int)));
        r
    }

    pub(crate) fn read_intra_tx_type_set2(&mut self, dec: &mut SymbolDecoder<'_>, a: usize, b: usize) -> (r: usize)
        requires
            old(self).wf(),
            old(dec)@.wf(),
            a < 3,
            b < 13,
        ensures
            table_read(old(self)@, old(dec)@, CoeffKey::TxSet2(a as int, b as int), r, final(self)@, final(dec)@),
            final(self).wf(),
            final(dec)@.wf(),
            r < 5,
    {
        let ghost k = CoeffKey::TxSet2(a as int, b as int);
        let ghost before = *self;
        assert(before@.dom().contains(k));
        assert(cdf_wf(before@[k]));
        let r: usize = dec.read_symbol(&mut self.intra_tx_type_set2[a][b]);
        assert(self@ =~= before@.insert(k, cdf_next(before@[k], r as int)));
        r
    }
}


/// The longest prefix of an exponential-Golomb tail that is followed.
pub const MAX_GOLOMB_LENGTH: u32 = 24;

/// The quantizer bucket of a base quantizer index.
pub open spec fn q_bucket(base_q_idx: int) -> int {
    if base_q_idx <= 20 {
        0
    } else if base_q_idx <= 60 {
        1
    } else if base_q_idx <= 120 {
        2
    } else {
        3
    }
}

impl TileCdfs {
    /// The tables that a tile starts with: the defaults of the quantizer bucket.
    pub fn new(base_q_idx: u8, defaults: &[TileCdfs; 4]) -> (r: Self)
        ensures
            r == defaults[q_bucket(base_q_idx as int)],
    {
        defaults[Self::q_context(base_q_idx)]
    }

    /// The quantizer bucket of a base quantizer index.
    pub fn q_context(base_q_idx: u8) -> (r: usize)
        ensures
            r == q_bucket(base_q_idx as int),
            r < 4,
    {
        if base_q_idx <= 20 {
            0
        } else if base_q_idx <= 60 {
            1
        } else if base_q_idx <= 120 {
            2
        } else {
            3
        }
    }
}

// ---------------------------------------------------------------------------
// Neighbour contexts
// ---------------------------------------------------------------------------

/// The level and sign contexts of the blocks above and to the left, per plane and
/// in units of four samples.
#[derive(Debug, Clone)]
pub struct CoeffContexts {
    pub above_level: [Vec<u8>; 3],
    pub above_dc: [Vec<u8>; 3],
    pub left_level: [Vec<u8>; 3],
    pub left_dc: [Vec<u8>; 3],
}

/// The model of the neighbour contexts.
#[verifier::ext_equal]
pub struct CtxModel {
    pub above_level: Seq<Seq<u8>>,
    pub above_dc: Seq<Seq<u8>>,
    pub left_level: Seq<Seq<u8>>,
    pub left_dc: Seq<Seq<u8>>,
}

/// The rows of a context store.
pub open spec fn rows(store: [Vec<u8>; 3]) -> Seq<Seq<u8>> {
    seq![store[0]@, store[1]@, store[2]@]
}

impl View for CoeffContexts {
    type V = CtxModel;

    open spec fn view(&self) -> CtxModel {
        CtxModel {
            above_level: rows(self.above_level),
            above_dc: rows(self.above_dc),
            left_level: rows(self.left_level),
            left_dc: rows(self.left_dc),
        }
    }
}

/// A row of `n` zeros.
pub open spec fn zero_row(n: int) -> Seq<u8> {
    Seq::new(n as nat, |i: int| 0u8)
}

/// Three rows of zeros.
pub open spec fn zero_rows(n: int) -> Seq<Seq<u8>> {
    seq![zero_row(n), zero_row(n), zero_row(n)]
}

/// The same rows with every entry zero.
pub open spec fn cleared(s: Seq<Seq<u8>>) -> Seq<Seq<u8>> {
    seq![zero_row(s[0].len() as int), zero_row(s[1].len() as int), zero_row(s[2].len() as int)]
}

/// Entry `i` of a row, zero outside it.
pub open spec fn ctx_at(row: Seq<u8>, i: int) -> int {
    if 0 <= i < row.len() {
        row[i] as int
    } else {
        0
    }
}

/// A row with the entries from `start` up to `start + n` set to `v`.
pub open spec fn filled(row: Seq<u8>, start: int, n: int, v: u8) -> Seq<u8> {
    Seq::new(
        row.len(),
        |i: int|
            if start <= i < start + n {
                v
            } else {
                row[i]
            },
    )
}

/// A row of `n` zeros.
fn zeros(n: usize) -> (r: Vec<u8>)
    ensures
        r@ == zero_row(n as int),
{
    let r: Vec<u8> = vec![0u8; n];
    assert(r@ =~= zero_row(n as int));
    r
}

/// The contexts with the left ones cleared.
pub open spec fn left_cleared(c: CtxModel) -> CtxModel {
    CtxModel { left_level: cleared(c.left_level), left_dc: cleared(c.left_dc), ..c }
}

impl CoeffContexts {
    /// Cleared contexts for `width4` by `height4` units, at least one each way.
    pub fn new(width4: usize, height4: usize) -> (r: Self)
        ensures
            ({
                let w = if width4 == 0 {
                    1
                } else {
                    width4 as int
                };
                let h = if height4 == 0 {
                    1
                } else {
                    height4 as int
                };
                r@ == CtxModel {
                    above_level: zero_rows(w),
                    above_dc: zero_rows(w),
                    left_level: zero_rows(h),
                    left_dc: zero_rows(h),
                }
            }),
    {
        let w: usize = if width4 == 0 {
            1
        } else {
            width4
        };
        let h: usize = if height4 == 0 {
            1
        } else {
            height4
        };
        let r: CoeffContexts = CoeffContexts {
            above_level: [zeros(w), zeros(w), zeros(w)],
            above_dc: [zeros(w), zeros(w), zeros(w)],
            left_level: [zeros(h), zeros(h), zeros(h)],
            left_dc: [zeros(h), zeros(h), zeros(h)],
        };
        assert(rows(r.above_level) =~= zero_rows(w as int));
        assert(rows(r.above_dc) =~= zero_rows(w as int));
        assert(rows(r.left_level) =~= zero_rows(h as int));
        assert(rows(r.left_dc) =~= zero_rows(h as int));
        r
    }

    /// Clears the left contexts, as every superblock row does.
    pub fn clear_left(&mut self)
        ensures
            final(self)@ == left_cleared(old(self)@),
    {
        self.left_level = [
            zeros(self.left_level[0].len()),
            zeros(self.left_level[1].len()),
            zeros(self.left_level[2].len()),
        ];
        self.left_dc = [
            zeros(self.left_dc[0].len()),
            zeros(self.left_dc[1].len()),
            zeros(self.left_dc[2].len()),
        ];
        assert(rows(self.left_level) =~= cleared(old(self)@.left_level));
        assert(rows(self.left_dc) =~= cleared(old(self)@.left_dc));
    }

    /// Clears the contexts above, as every tile does.
    pub fn clear_above(&mut self)
        ensures
            final(self)@ == (CtxModel {
                above_level: cleared(old(self)@.above_level),
                above_dc: cleared(old(self)@.above_dc),
                ..old(self)@
            }),
    {
        self.above_level = [
            zeros(self.above_level[0].len()),
            zeros(self.above_level[1].len()),
            zeros(self.above_level[2].len()),
        ];
        self.above_dc = [
            zeros(self.above_dc[0].len()),
            zeros(self.above_dc[1].len()),
            zeros(self.above_dc[2].len()),
        ];
        assert(rows(self.above_level) =~= cleared(old(self)@.above_level));
        assert(rows(self.above_dc) =~= cleared(old(self)@.above_dc));
    }

    /// Entry `i` of the row of a plane, zero outside it.
    fn get(store: &[Vec<u8>; 3], plane: usize, i: usize) -> (r: u8)
        requires
            plane < 3,
        ensures
            r == ctx_at(rows(*store)[plane as int], i as int),
    {
        if i < store[plane].len() {
            store[plane][i]
        } else {
            0
        }
    }

    /// Sets `n` entries of the row of a plane, as far as the row reaches.
    fn fill(store: &mut [Vec<u8>; 3], plane: usize, start: usize, n: usize, v: u8)
        requires
            plane < 3,
            start + n <= usize::MAX,
        ensures
            rows(*final(store)) == rows(*old(store)).update(
                plane as int,
                filled(rows(*old(store))[plane as int], start as int, n as int, v),
            ),
    {
        let ghost before = *store;
        let mut i: usize = 0;
        while i < n
            invariant
                i <= n,
                plane < 3,
                start + n <= usize::MAX,
                before == *old(store),
                forall|p: int| 0 <= p < 3 && p != plane ==> #[trigger] store[p] == before[p],
                store[plane as int]@ == filled(before[plane as int]@, start as int, i as int, v),
            decreases n - i,
        {
            if start + i < store[plane].len() {
                store[plane][start + i] = v;
            }
            i = i + 1;
            assert(store[plane as int]@ =~= filled(
                before[plane as int]@,
                start as int,
                i as int,
                v,
            ));
        }
        assert(rows(*store) =~= rows(before).update(
            plane as int,
            filled(rows(before)[plane as int], start as int, n as int, v),
        ));
    }
}

// ---------------------------------------------------------------------------
// Blocks
// ---------------------------------------------------------------------------

/// What the coefficient parser has to know of a transform block.
#[derive(Debug, Clone, Copy)]
pub struct TxBlockCtx {
    /// 0 for Y, 1 for U, 2 for V.
    pub plane: usize,
    /// The transform size.
    pub tx_size: usize,
    /// The position in the plane, in units of four samples.
    pub x4: usize,
    pub y4: usize,
    /// The size of the plane, in units of four samples.
    pub max_x4: usize,
    pub max_y4: usize,
    /// The size of the prediction block in the plane, in samples.
    pub block_w: usize,
    pub block_h: usize,
    /// The luma prediction mode.
    pub intra_dir: usize,
    /// The chroma prediction mode.
    pub uv_mode: usize,
    /// Whether the quantizer index of the block is positive.
    pub qindex_positive: bool,
    pub reduced_tx_set: bool,
    pub lossless: bool,
}

impl TxBlockCtx {
    /// Positions and sizes that leave room for a block.
    pub open spec fn wf(self) -> bool {
        &&& self.x4 <= 0x1000_0000
        &&& self.y4 <= 0x1000_0000
        &&& self.block_w <= 0x4000
        &&& self.block_h <= 0x4000
    }
}

/// The coefficients of a transform block.
#[derive(Debug, Clone)]
pub struct CoeffBlock {
    /// The quantized levels in raster order.
    pub quant: Vec<i32>,
    /// The number of scan positions that were coded.
    pub eob: usize,
    /// The transform type.
    pub tx_type: usize,
}

/// The decoder and the tables that coefficient parsing advances.
#[verifier::ext_equal]
pub struct CState {
    pub sym: SymState,
    pub bank: Map<CoeffKey, Seq<u16>>,
}

/// The symbol that is read next with table `k`.
pub open spec fn c_val(s: CState, k: CoeffKey) -> int {
    sym_value(s.sym, s.bank[k])
}

/// The state after a symbol is read with table `k`.
pub open spec fn c_next(s: CState, k: CoeffKey) -> CState {
    CState {
        sym: sym_next(s.sym, s.bank[k]),
        bank: s.bank.insert(k, cdf_next(s.bank[k], sym_value(s.sym, s.bank[k]))),
    }
}

/// The state after a fair bit is read.
pub open spec fn c_bool_next(s: CState) -> CState {
    CState { sym: bool_next(s.sym), bank: s.bank }
}

/// The state of a decoder and its tables.
pub open spec fn c_state(dec: SymbolDecoder<'_>, cdfs: TileCdfs) -> CState {
    CState { sym: dec@, bank: cdfs@ }
}

/// The table index of a transform size.
pub open spec fn sz_ctx(tx_size: int) -> int {
    (TX_SIZE_SQR[tx_size] + TX_SIZE_SQR_UP[tx_size] + 1) / 2
}

/// Zero for luma, one for chroma.
pub open spec fn plane_type(plane: int) -> int {
    if plane > 0 {
        1
    } else {
        0
    }
}

/// The larger of two numbers.
pub open spec fn max_of(a: int, b: int) -> int {
    if a >= b {
        a
    } else {
        b
    }
}

/// The largest of `n` entries from `start` on that lie below `limit`.
pub open spec fn ctx_max(row: Seq<u8>, start: int, n: int, limit: int) -> int
    decreases n,
{
    if n <= 0 {
        0
    } else {
        max_of(
            ctx_max(row, start, n - 1, limit),
            if start + n - 1 < limit {
                ctx_at(row, start + n - 1)
            } else {
                0
            },
        )
    }
}

/// One of `n` entries from `start` on that lie below `limit` is not zero, in one of
/// two rows.
pub open spec fn ctx_any(level: Seq<u8>, dc: Seq<u8>, start: int, n: int, limit: int) -> bool {
    exists|k: int|
        0 <= k < n && start + k < limit && (#[trigger] ctx_at(level, start + k) != 0 || ctx_at(
            dc,
            start + k,
        ) != 0)
}

/// The sum of the signs of `n` entries from `start` on that lie below `limit`: one
/// counts down, two counts up.
pub open spec fn ctx_signs(row: Seq<u8>, start: int, n: int, limit: int) -> int
    decreases n,
{
    if n <= 0 {
        0
    } else {
        let v = if start + n - 1 < limit {
            ctx_at(row, start + n - 1)
        } else {
            0
        };
        ctx_signs(row, start, n - 1, limit) + if v == 1 {
            -1int
        } else if v == 2 {
            1
        } else {
            0
        }
    }
}

/// The context of the flag that a block has no coefficients.
pub open spec fn all_zero_of(blk: TxBlockCtx, c: CtxModel) -> int {
    let p = blk.plane as int;
    let w = TX_WIDTH[blk.tx_size as int] as int;
    let h = TX_HEIGHT[blk.tx_size as int] as int;
    if p == 0 {
        let top = ctx_max(c.above_level[p], blk.x4 as int, w / 4, blk.max_x4 as int);
        let left = ctx_max(c.left_level[p], blk.y4 as int, h / 4, blk.max_y4 as int);
        let most = max_of(top, left);
        if blk.block_w == w && blk.block_h == h {
            0
        } else if most == 0 {
            1
        } else if top == 0 || left == 0 {
            if most > 3 {
                3
            } else {
                2
            }
        } else if most <= 3 {
            4
        } else if min_of(top, left) <= 3 {
            5
        } else {
            6
        }
    } else {
        let above = ctx_any(
            c.above_level[p],
            c.above_dc[p],
            blk.x4 as int,
            w / 4,
            blk.max_x4 as int,
        );
        let left = ctx_any(
            c.left_level[p],
            c.left_dc[p],
            blk.y4 as int,
            h / 4,
            blk.max_y4 as int,
        );
        7 + bool_int(above) + bool_int(left) + if blk.block_w * blk.block_h > w * h {
            3int
        } else {
            0
        }
    }
}

/// The context of the sign of the first coefficient.
pub open spec fn dc_sign_of(blk: TxBlockCtx, c: CtxModel) -> int {
    let p = blk.plane as int;
    let w4 = TX_WIDTH[blk.tx_size as int] as int / 4;
    let h4 = TX_HEIGHT[blk.tx_size as int] as int / 4;
    let s = ctx_signs(c.above_dc[p], blk.x4 as int, w4, blk.max_x4 as int) + ctx_signs(
        c.left_dc[p],
        blk.y4 as int,
        h4,
        blk.max_y4 as int,
    );
    if s < 0 {
        1
    } else if s > 0 {
        2
    } else {
        0
    }
}

/// The largest of the entries of a row.
fn row_max(store: &[Vec<u8>; 3], plane: usize, start: usize, n: usize, limit: usize) -> (r: u8)
    requires
        plane < 3,
        n <= 16,
        start <= 0x1000_0000,
    ensures
        r == ctx_max(rows(*store)[plane as int], start as int, n as int, limit as int),
{
    let mut top: u8 = 0;
    let mut k: usize = 0;
    while k < n
        invariant
            k <= n <= 16,
            plane < 3,
            start <= 0x1000_0000,
            top == ctx_max(rows(*store)[plane as int], start as int, k as int, limit as int),
        decreases n - k,
    {
        if start + k < limit {
            let v: u8 = CoeffContexts::get(store, plane, start + k);
            if v > top {
                top = v;
            }
        }
        k = k + 1;
    }
    top
}

/// Whether one of the entries of two rows is not zero.
fn row_any(
    level: &[Vec<u8>; 3],
    dc: &[Vec<u8>; 3],
    plane: usize,
    start: usize,
    n: usize,
    limit: usize,
) -> (r: bool)
    requires
        plane < 3,
        n <= 16,
        start <= 0x1000_0000,
    ensures
        r == ctx_any(
            rows(*level)[plane as int],
            rows(*dc)[plane as int],
            start as int,
            n as int,
            limit as int,
        ),
{
    let ghost a = rows(*level)[plane as int];
    let ghost b = rows(*dc)[plane as int];
    let mut k: usize = 0;
    while k < n
        invariant
            k <= n <= 16,
            plane < 3,
            start <= 0x1000_0000,
            a == rows(*level)[plane as int],
            b == rows(*dc)[plane as int],
            forall|j: int|
                0 <= j < k && start + j < limit ==> #[trigger] ctx_at(a, start + j) == 0 && ctx_at(
                    b,
                    start + j,
                ) == 0,
        decreases n - k,
    {
        if start + k < limit {
            let v: u8 = CoeffContexts::get(level, plane, start + k);
            let u: u8 = CoeffContexts::get(dc, plane, start + k);
            if v != 0 || u != 0 {
                assert(ctx_at(a, start + k as int) != 0 || ctx_at(b, start + k as int) != 0);
                return true;
            }
        }
        k = k + 1;
    }
    false
}

/// The sum of the signs of the entries of a row.
fn row_signs(store: &[Vec<u8>; 3], plane: usize, start: usize, n: usize, limit: usize) -> (r: i32)
    requires
        plane < 3,
        n <= 16,
        start <= 0x1000_0000,
    ensures
        r == ctx_signs(rows(*store)[plane as int], start as int, n as int, limit as int),
        -16 <= r <= 16,
{
    let ghost row = rows(*store)[plane as int];
    let mut sum: i32 = 0;
    let mut k: usize = 0;
    while k < n
        invariant
            k <= n <= 16,
            plane < 3,
            start <= 0x1000_0000,
            row == rows(*store)[plane as int],
            sum == ctx_signs(row, start as int, k as int, limit as int),
            -(k as int) <= sum <= k,
        decreases n - k,
    {
        if start + k < limit {
            let v: u8 = CoeffContexts::get(store, plane, start + k);
            if v == 1 {
                sum = sum - 1;
            } else if v == 2 {
                sum = sum + 1;
            }
        }
        k = k + 1;
    }
    sum
}

/// The context of the flag that a block has no coefficients.
fn all_zero_ctx(blk: &TxBlockCtx, ctxs: &CoeffContexts) -> (r: usize)
    requires
        blk.wf(),
        blk.plane < 3,
        blk.tx_size < 19,
    ensures
        r == all_zero_of(*blk, ctxs@),
        r < 13,
{
    proof {
        lemma_tx_dims(blk.tx_size as int);
    }
    let w: usize = TX_WIDTH[blk.tx_size];
    let h: usize = TX_HEIGHT[blk.tx_size];
    if blk.plane == 0 {
        let top: u8 = row_max(&ctxs.above_level, 0, blk.x4, w / 4, blk.max_x4);
        let left: u8 = row_max(&ctxs.left_level, 0, blk.y4, h / 4, blk.max_y4);
        let most: u8 = if top >= left {
            top
        } else {
            left
        };
        let least: u8 = if top <= left {
            top
        } else {
            left
        };
        if blk.block_w == w && blk.block_h == h {
            0
        } else if most == 0 {
            1
        } else if top == 0 || left == 0 {
            if most > 3 {
                3
            } else {
                2
            }
        } else if most <= 3 {
            4
        } else if least <= 3 {
            5
        } else {
            6
        }
    } else {
        let above: bool = row_any(
            &ctxs.above_level,
            &ctxs.above_dc,
            blk.plane,
            blk.x4,
            w / 4,
            blk.max_x4,
        );
        let left: bool = row_any(
            &ctxs.left_level,
            &ctxs.left_dc,
            blk.plane,
            blk.y4,
            h / 4,
            blk.max_y4,
        );
        let mut ctx: usize = 7;
        if above {
            ctx = ctx + 1;
        }
        if left {
            ctx = ctx + 1;
        }
        assert(blk.block_w * blk.block_h <= 0x1000_0000) by (nonlinear_arith)
            requires
                blk.block_w <= 0x4000,
                blk.block_h <= 0x4000,
        ;
        if blk.block_w * blk.block_h > w * h {
            ctx = ctx + 3;
        }
        ctx
    }
}

/// The context of the sign of the first coefficient.
fn dc_sign_ctx(blk: &TxBlockCtx, ctxs: &CoeffContexts) -> (r: usize)
    requires
        blk.wf(),
        blk.plane < 3,
        blk.tx_size < 19,
    ensures
        r == dc_sign_of(*blk, ctxs@),
        r < 3,
{
    proof {
        lemma_tx_dims(blk.tx_size as int);
    }
    let w4: usize = TX_WIDTH[blk.tx_size] / 4;
    let h4: usize = TX_HEIGHT[blk.tx_size] / 4;
    let s: i32 = row_signs(&ctxs.above_dc, blk.plane, blk.x4, w4, blk.max_x4) + row_signs(
        &ctxs.left_dc,
        blk.plane,
        blk.y4,
        h4,
        blk.max_y4,
    );
    if s < 0 {
        1
    } else if s > 0 {
        2
    } else {
        0
    }
}

// ---------------------------------------------------------------------------
// Transform type
// ---------------------------------------------------------------------------

/// The table that the transform type of a luma block is coded with: none where one
/// type is implied, and no entry for a mode without a table.
pub open spec fn tx_type_key(blk: TxBlockCtx) -> Option<CoeffKey> {
    let set = tx_set_of(blk.tx_size as int, blk.reduced_tx_set);
    let sqr = TX_SIZE_SQR[blk.tx_size as int] as int;
    if blk.plane != 0 || set == TX_SET_DCTONLY || !blk.qindex_positive {
        None
    } else if set == TX_SET_INTRA_1 {
        Some(CoeffKey::TxSet1(sqr, blk.intra_dir as int))
    } else {
        Some(CoeffKey::TxSet2(sqr, blk.intra_dir as int))
    }
}

/// The transform type that symbol `v` of table `k` stands for.
pub open spec fn tx_type_symbol(k: CoeffKey, v: int) -> int {
    match k {
        CoeffKey::TxSet1(_, _) => TX_TYPE_INTRA_INV_SET1[v] as int,
        _ => TX_TYPE_INTRA_INV_SET2[v] as int,
    }
}

/// The coded transform type of a luma block; the plain one where none is coded.
pub open spec fn coded_tx_type(s: CState, blk: TxBlockCtx) -> int {
    match tx_type_key(blk) {
        None => DCT_DCT as int,
        Some(k) => tx_type_symbol(k, c_val(s, k)),
    }
}

/// The state after the transform type is read.
pub open spec fn tx_type_next(s: CState, blk: TxBlockCtx) -> CState {
    match tx_type_key(blk) {
        None => s,
        Some(k) => c_next(s, k),
    }
}

/// The transform type of a block: the coded one for luma, the one that the mode
/// implies for chroma if the set holds it, the plain one without loss or above 32.
pub open spec fn tx_type_of(blk: TxBlockCtx, coded: int) -> int {
    if blk.lossless || TX_SIZE_SQR_UP[blk.tx_size as int] > TX_32X32 {
        DCT_DCT as int
    } else if blk.plane == 0 {
        coded
    } else {
        let implied = if blk.uv_mode < 14 {
            MODE_TO_TXFM[blk.uv_mode as int] as int
        } else {
            DCT_DCT as int
        };
        let set = tx_set_of(blk.tx_size as int, blk.reduced_tx_set);
        if TX_TYPE_IN_SET_INTRA[set][implied] == 0 {
            DCT_DCT as int
        } else {
            implied
        }
    }
}

proof fn lemma_set1_sqr(t: int, reduced: bool)
    requires
        0 <= t < 19,
    ensures
        tx_set_of(t, reduced) == TX_SET_INTRA_1 ==> TX_SIZE_SQR[t] < 2,
        tx_set_of(t, reduced) == TX_SET_INTRA_2 ==> TX_SIZE_SQR[t] < 3,
{
    lemma_tx_dims(t);
}

proof fn lemma_tx_type_symbols()
    ensures
        forall|v: int| 0 <= v < 7 ==> #[trigger] TX_TYPE_INTRA_INV_SET1[v] < 16,
        forall|v: int| 0 <= v < 5 ==> #[trigger] TX_TYPE_INTRA_INV_SET2[v] < 16,
        forall|v: int| 0 <= v < 14 ==> #[trigger] MODE_TO_TXFM[v] < 16,
{
}

/// Reads the transform type of a block.
fn read_transform_type(
    dec: &mut SymbolDecoder<'_>,
    cdfs: &mut TileCdfs,
    blk: &TxBlockCtx,
) -> (r: Result<usize, KinetixError>)
    requires
        old(dec)@.wf(),
        old(cdfs).wf(),
        blk.tx_size < 19,
    ensures
        final(dec)@.wf(),
        final(cdfs).wf(),
        ({
            let s = c_state(*old(dec), *old(cdfs));
            match r {
                Ok(v) => {
                    &&& tx_type_key(*blk) matches Some(k) ==> k.valid()
                    &&& v == coded_tx_type(s, *blk)
                    &&& v < 16
                    &&& c_state(*final(dec), *final(cdfs)) == tx_type_next(s, *blk)
                },
                Err(e) => {
                    &&& tx_type_key(*blk) matches Some(k) && !k.valid()
                    &&& c_state(*final(dec), *final(cdfs)) == s
                    &&& e == KinetixError::Parse(ParseError::TxTypeTable)
                },
            }
        }),
{
    proof {
        lemma_set1_sqr(blk.tx_size as int, blk.reduced_tx_set);
        lemma_tx_type_symbols();
    }
    let set: usize = get_tx_set_intra(blk.tx_size, blk.reduced_tx_set);
    if blk.plane != 0 || set == TX_SET_DCTONLY || !blk.qindex_positive {
        return Ok(DCT_DCT);
    }
    let sqr: usize = TX_SIZE_SQR[blk.tx_size];
    let dir: usize = blk.intra_dir;
    if dir >= 13 {
        return Err(KinetixError::Parse(ParseError::TxTypeTable));
    }
    if set == TX_SET_INTRA_1 {
        let v: usize = cdfs.read_intra_tx_type_set1(dec, sqr, dir);
        Ok(TX_TYPE_INTRA_INV_SET1[v])
    } else {
        let v: usize = cdfs.read_intra_tx_type_set2(dec, sqr, dir);
        Ok(TX_TYPE_INTRA_INV_SET2[v])
    }
}

/// The transform type of a block.
fn compute_tx_type(blk: &TxBlockCtx, coded: usize) -> (r: usize)
    requires
        blk.tx_size < 19,
        coded < 16,
    ensures
        r == tx_type_of(*blk, coded as int),
        r < 16,
{
    proof {
        lemma_tx_type_symbols();
    }
    if blk.lossless || TX_SIZE_SQR_UP[blk.tx_size] > TX_32X32 {
        return DCT_DCT;
    }
    if blk.plane == 0 {
        return coded;
    }
    let set: usize = get_tx_set_intra(blk.tx_size, blk.reduced_tx_set);
    let implied: usize = if blk.uv_mode < 14 {
        MODE_TO_TXFM[blk.uv_mode]
    } else {
        DCT_DCT
    };
    if TX_TYPE_IN_SET_INTRA[set][implied] == 0 {
        DCT_DCT
    } else {
        implied
    }
}

// ---------------------------------------------------------------------------
// End of block
// ---------------------------------------------------------------------------

/// The size class of the end-of-block code.
pub open spec fn eob_class(tx_size: int) -> int {
    min_of(TX_WIDTH_LOG2[tx_size] as int, 5) + min_of(TX_HEIGHT_LOG2[tx_size] as int, 5) - 4
}

/// The table of the end-of-block class, by size class.
pub open spec fn eob_key(class: int, ptype: int, ctx: int) -> CoeffKey {
    if class == 0 {
        CoeffKey::EobPt16(ptype, ctx)
    } else if class == 1 {
        CoeffKey::EobPt32(ptype, ctx)
    } else if class == 2 {
        CoeffKey::EobPt64(ptype, ctx)
    } else if class == 3 {
        CoeffKey::EobPt128(ptype, ctx)
    } else if class == 4 {
        CoeffKey::EobPt256(ptype, ctx)
    } else if class == 5 {
        CoeffKey::EobPt512(ptype)
    } else {
        CoeffKey::EobPt1024(ptype)
    }
}

/// The number of coded positions and the state behind its code: a class, and within
/// it the leading bit adaptively and the rest as fair bits.
#[verifier::opaque]
pub open spec fn eob_of(s: CState, tx_size: int, ptype: int, tx_type: int) -> (int, CState) {
    let ctx = bool_int(tx_class_of(tx_type) != TX_CLASS_2D);
    let k = eob_key(eob_class(tx_size), ptype, ctx);
    let pt = c_val(s, k) + 1;
    let s1 = c_next(s, k);
    if pt < 2 {
        (pt, s1)
    } else if pt == 2 {
        (2, s1)
    } else {
        let ke = CoeffKey::EobExtra(sz_ctx(tx_size), ptype, pt - 3);
        let s2 = c_next(s1, ke);
        (
            pow2i(pt - 2) + 1 + c_val(s1, ke) * pow2i(pt - 3) + literal_value(s2.sym, pt - 3),
            CState { sym: literal_next(s2.sym, pt - 3), bank: s2.bank },
        )
    }
}

pub proof fn lemma_eob_class(t: int)
    requires
        0 <= t < 19,
    ensures
        0 <= eob_class(t) <= 6,
        0 <= sz_ctx(t) <= 4,
        has_scan(t) ==> eob_class(t) == 2 * t,
{
    lemma_tx_dims(t);
    assert(2 <= TX_WIDTH_LOG2[t] <= 6);
    assert(2 <= TX_HEIGHT_LOG2[t] <= 6);
}

/// Reads the number of coded positions.
fn read_eob(
    dec: &mut SymbolDecoder<'_>,
    cdfs: &mut TileCdfs,
    tx_size: usize,
    ptype: usize,
    tx_type: usize,
) -> (r: usize)
    requires
        old(dec)@.wf(),
        old(cdfs).wf(),
        tx_size < 19,
        ptype < 2,
    ensures
        final(dec)@.wf(),
        final(cdfs).wf(),
        ({
            let s = c_state(*old(dec), *old(cdfs));
            let e = eob_of(s, tx_size as int, ptype as int, tx_type as int);
            &&& r == e.0
            &&& c_state(*final(dec), *final(cdfs)) == e.1
        }),
        1 <= r <= pow2i(eob_class(tx_size as int) + 4),
{
    proof {
        reveal(eob_of);
        lemma_eob_class(tx_size as int);
        lemma_pow2i_values();
    }
    let wl: usize = TX_WIDTH_LOG2[tx_size];
    let hl: usize = TX_HEIGHT_LOG2[tx_size];
    let class: usize = (if wl < 5 {
        wl
    } else {
        5
    }) + (if hl < 5 {
        hl
    } else {
        5
    }) - 4;
    let sctx: usize = (TX_SIZE_SQR[tx_size] + TX_SIZE_SQR_UP[tx_size] + 1) / 2;
    let ctx: usize = if get_tx_class(tx_type) != TX_CLASS_2D {
        1
    } else {
        0
    };
    let v: usize = if class == 0 {
        cdfs.read_eob_pt_16(dec, ptype, ctx)
    } else if class == 1 {
        cdfs.read_eob_pt_32(dec, ptype, ctx)
    } else if class == 2 {
        cdfs.read_eob_pt_64(dec, ptype, ctx)
    } else if class == 3 {
        cdfs.read_eob_pt_128(dec, ptype, ctx)
    } else if class == 4 {
        cdfs.read_eob_pt_256(dec, ptype, ctx)
    } else if class == 5 {
        cdfs.read_eob_pt_512(dec, ptype)
    } else {
        cdfs.read_eob_pt_1024(dec, ptype)
    };
    let pt: usize = v + 1;
    proof {
        lemma_pow2i_mono(pt as int - 1, class + 4);
        lemma_pow2i_mono(0, pt as int - 1);
        lemma_pow2i_mono(1, class + 4);
    }
    if pt <= 2 {
        return pt;
    }
    let extra: usize = cdfs.read_eob_extra(dec, sctx, ptype, pt - 3);
    let rest: u32 = dec.read_literal((pt - 3) as u32);
    proof {
        lemma_shl_pow2((pt - 3) as u32);
        lemma_shl_pow2((pt - 2) as u32);
        lemma_pow2i_mono(0, pt - 3);
        lemma_pow2i_mono(pt - 3, 8);
        assert(pow2i(pt - 2) == 2 * pow2i(pt - 3));
        assert(pow2i(pt - 1) == 2 * pow2i(pt - 2));
        assert(extra * pow2i(pt - 3) <= pow2i(pt - 3)) by (nonlinear_arith)
            requires
                extra <= 1,
                pow2i(pt - 3) >= 0,
        ;
        assert(extra * pow2i(pt - 3) == if extra == 1 {
            pow2i(pt - 3)
        } else {
            0
        }) by (nonlinear_arith)
            requires
                extra <= 1,
        ;
    }
    let step: usize = (1u32 << ((pt - 3) as u32)) as usize;
    let base: usize = (1u32 << ((pt - 2) as u32)) as usize + 1;
    let mut eob: usize = base + rest as usize;
    if extra == 1 {
        eob = eob + step;
    }
    eob
}

// ---------------------------------------------------------------------------
// Levels
// ---------------------------------------------------------------------------

/// The side of a square transform of size index 0, 1 or 2.
pub open spec fn side_of(t: int) -> int {
    if t == 0 {
        4
    } else if t == 1 {
        8
    } else {
        16
    }
}

/// The magnitude of the level at a row and column, at most `cap`; zero outside.
pub open spec fn level_at(q: Seq<i32>, n: int, row: int, col: int, cap: int) -> int {
    if 0 <= row < n && 0 <= col < n {
        let v = q[row * n + col];
        min_of(
            if v < 0 {
                -v
            } else {
                v as int
            },
            cap,
        )
    } else {
        0
    }
}

/// The sum of the magnitudes of the five neighbours that the base level looks at.
#[verifier::opaque]
pub open spec fn base_mag(q: Seq<i32>, n: int, class: int, row: int, col: int) -> int {
    level_at(q, n, row, col + 1, 3) + level_at(q, n, row + 1, col, 3) + if class == TX_CLASS_2D {
        level_at(q, n, row + 1, col + 1, 3) + level_at(q, n, row, col + 2, 3) + level_at(
            q,
            n,
            row + 2,
            col,
            3,
        )
    } else if class == TX_CLASS_HORIZ {
        level_at(q, n, row, col + 2, 3) + level_at(q, n, row, col + 3, 3) + level_at(
            q,
            n,
            row,
            col + 4,
            3,
        )
    } else {
        level_at(q, n, row + 2, col, 3) + level_at(q, n, row + 3, col, 3) + level_at(
            q,
            n,
            row + 4,
            col,
            3,
        )
    }
}

/// The context of the base level at `pos` of a square transform.
pub open spec fn base_ctx_of(t: int, tx_type: int, q: Seq<i32>, pos: int) -> int {
    let n = side_of(t);
    let class = tx_class_of(tx_type);
    let row = pos / n;
    let col = pos % n;
    let near = min_of((base_mag(q, n, class, row, col) + 1) / 2, 4);
    if class == TX_CLASS_2D {
        if row == 0 && col == 0 {
            0
        } else {
            near + COEFF_BASE_CTX_OFFSET[t][min_of(row, 4)][min_of(col, 4)]
        }
    } else {
        let along = if class == TX_CLASS_VERT {
            row
        } else {
            col
        };
        near + COEFF_BASE_POS_CTX_OFFSET[min_of(along, 2)]
    }
}

/// The context of the base level of the last coded position `c` of `area` ones.
pub open spec fn eob_ctx_of(area: int, c: int) -> int {
    if c == 0 {
        0
    } else if c <= area / 8 {
        1
    } else if c <= area / 4 {
        2
    } else {
        3
    }
}

/// The context of the level range at `pos` of a square transform.
pub open spec fn br_ctx_of(t: int, tx_type: int, q: Seq<i32>, pos: int) -> int {
    let n = side_of(t);
    let class = tx_class_of(tx_type);
    let row = pos / n;
    let col = pos % n;
    let mag = level_at(q, n, row, col + 1, 15) + level_at(q, n, row + 1, col, 15) + if class
        == TX_CLASS_2D {
        level_at(q, n, row + 1, col + 1, 15)
    } else if class == TX_CLASS_HORIZ {
        level_at(q, n, row, col + 2, 15)
    } else {
        level_at(q, n, row + 2, col, 15)
    };
    let near = min_of((mag + 1) / 2, 6);
    let first = if class == TX_CLASS_2D {
        row < 2 && col < 2
    } else if class == TX_CLASS_HORIZ {
        col == 0
    } else {
        row == 0
    };
    if pos == 0 {
        near
    } else if first {
        near + 7
    } else {
        near + 14
    }
}

proof fn lemma_ctx_offsets()
    ensures
        forall|t: int, r: int, c: int|
            0 <= t < 3 && 0 <= r < 5 && 0 <= c < 5 ==> #[trigger] COEFF_BASE_CTX_OFFSET[t][r][c]
                <= 21,
{
}

pub proof fn lemma_cell(n: int, row: int, col: int)
    requires
        0 <= row < n,
        0 <= col < n,
    ensures
        0 <= row * n + col < n * n,
{
    assert(0 <= row * n + col < n * n) by (nonlinear_arith)
        requires
            0 <= row < n,
            0 <= col < n,
    ;
}

proof fn lemma_side(t: int)
    requires
        0 <= t < 3,
    ensures
        side_of(t) * side_of(t) == square_area(t),
        4 <= side_of(t) <= 16,
{
    if t == 0 {
        assert(4 * 4 == 16int);
    } else if t == 1 {
        assert(8 * 8 == 64int);
    } else {
        assert(16 * 16 == 256int);
    }
}

/// Levels so far: between zero and fifteen.
pub open spec fn small_levels(q: Seq<i32>, area: int) -> bool {
    &&& q.len() == area
    &&& forall|i: int| 0 <= i < area ==> 0 <= #[trigger] q[i] <= 15
}

/// The magnitude of the level at a row and column.
fn level(q: &Vec<i32>, n: usize, row: usize, col: usize, cap: i32) -> (r: i32)
    requires
        n <= 16,
        row <= 32,
        col <= 32,
        0 <= cap <= 15,
        small_levels(q@, n * n),
    ensures
        r == level_at(q@, n as int, row as int, col as int, cap as int),
        0 <= r <= cap,
{
    if row < n && col < n {
        proof {
            lemma_cell(n as int, row as int, col as int);
            assert(row * n <= 256) by (nonlinear_arith)
                requires
                    row <= 16,
                    n <= 16,
            ;
        }
        let v: i32 = q[row * n + col];
        if v < cap {
            v
        } else {
            cap
        }
    } else {
        0
    }
}

/// The sum of the magnitudes of the five neighbours that the base level looks at.
fn neighbours(q: &Vec<i32>, n: usize, class: usize, row: usize, col: usize) -> (mag: i32)
    requires
        n <= 16,
        row < n,
        col < n,
        small_levels(q@, n * n),
    ensures
        mag == base_mag(q@, n as int, class as int, row as int, col as int),
        0 <= mag <= 15,
{
    proof {
        reveal(base_mag);
    }
    let mut mag: i32 = level(q, n, row, col + 1, 3) + level(q, n, row + 1, col, 3);
    if class == TX_CLASS_2D {
        mag =
        mag + (level(q, n, row + 1, col + 1, 3) + level(q, n, row, col + 2, 3) + level(
            q,
            n,
            row + 2,
            col,
            3,
        ));
    } else if class == TX_CLASS_HORIZ {
        mag =
        mag + (level(q, n, row, col + 2, 3) + level(q, n, row, col + 3, 3) + level(
            q,
            n,
            row,
            col + 4,
            3,
        ));
    } else {
        mag =
        mag + (level(q, n, row + 2, col, 3) + level(q, n, row + 3, col, 3) + level(
            q,
            n,
            row + 4,
            col,
            3,
        ));
    }
    mag
}

/// The context of the base level at `pos`.
fn coeff_base_ctx(t: usize, tx_type: usize, q: &Vec<i32>, pos: usize) -> (r: usize)
    requires
        t < 3,
        pos < square_area(t as int),
        small_levels(q@, square_area(t as int)),
    ensures
        r == base_ctx_of(t as int, tx_type as int, q@, pos as int),
        r < 42,
{
    let n: usize = if t == 0 {
        4
    } else if t == 1 {
        8
    } else {
        16
    };
    proof {
        lemma_side(t as int);
        lemma_ctx_offsets();
    }
    let class: usize = get_tx_class(tx_type);
    let row: usize = pos / n;
    let col: usize = pos % n;
    let mag: i32 = neighbours(q, n, class, row, col);
    let half: usize = ((mag + 1) / 2) as usize;
    let near: usize = if half < 4 {
        half
    } else {
        4
    };
    if class == TX_CLASS_2D {
        if row == 0 && col == 0 {
            return 0;
        }
        let r: usize = if row < 4 {
            row
        } else {
            4
        };
        let c: usize = if col < 4 {
            col
        } else {
            4
        };
        near + COEFF_BASE_CTX_OFFSET[t][r][c]
    } else {
        let along: usize = if class == TX_CLASS_VERT {
            row
        } else {
            col
        };
        let i: usize = if along < 2 {
            along
        } else {
            2
        };
        assert(COEFF_BASE_POS_CTX_OFFSET[i as int] <= 36);
        near + COEFF_BASE_POS_CTX_OFFSET[i]
    }
}

/// The context of the level range at `pos`.
fn coeff_br_ctx(t: usize, tx_type: usize, q: &Vec<i32>, pos: usize) -> (r: usize)
    requires
        t < 3,
        pos < square_area(t as int),
        small_levels(q@, square_area(t as int)),
    ensures
        r == br_ctx_of(t as int, tx_type as int, q@, pos as int),
        r < 21,
{
    let n: usize = if t == 0 {
        4
    } else if t == 1 {
        8
    } else {
        16
    };
    proof {
        lemma_side(t as int);
    }
    let class: usize = get_tx_class(tx_type);
    let row: usize = pos / n;
    let col: usize = pos % n;
    let third: i32 = if class == TX_CLASS_2D {
        level(q, n, row + 1, col + 1, 15)
    } else if class == TX_CLASS_HORIZ {
        level(q, n, row, col + 2, 15)
    } else {
        level(q, n, row + 2, col, 15)
    };
    let mag: i32 = level(q, n, row, col + 1, 15) + level(q, n, row + 1, col, 15) + third;
    let half: usize = ((mag + 1) / 2) as usize;
    let near: usize = if half < 6 {
        half
    } else {
        6
    };
    let first: bool = if class == TX_CLASS_2D {
        row < 2 && col < 2
    } else if class == TX_CLASS_HORIZ {
        col == 0
    } else {
        row == 0
    };
    if pos == 0 {
        near
    } else if first {
        near + 7
    } else {
        near + 14
    }
}

/// Up to `n` range symbols on top of `level`, until one is not the largest.
pub open spec fn br_rounds(s: CState, k: CoeffKey, level: int, n: int) -> (int, CState)
    decreases n,
{
    if n <= 0 {
        (level, s)
    } else {
        let v = c_val(s, k);
        let s1 = c_next(s, k);
        if v < 3 {
            (level + v, s1)
        } else {
            br_rounds(s1, k, level + v, n - 1)
        }
    }
}

/// The level at scan position `c` of `eob`, and the state behind its code.
#[verifier::opaque]
pub open spec fn level_of(
    s: CState,
    t: int,
    ptype: int,
    tx_type: int,
    eob: int,
    c: int,
    q: Seq<i32>,
) -> (int, CState) {
    let pos = scan_of(t, tx_type)[c] as int;
    let k = if c == eob - 1 {
        CoeffKey::CoeffBaseEob(t, ptype, eob_ctx_of(square_area(t), c))
    } else {
        CoeffKey::CoeffBase(t, ptype, base_ctx_of(t, tx_type, q, pos))
    };
    let base = c_val(s, k) + bool_int(c == eob - 1);
    let s1 = c_next(s, k);
    if base > 2 {
        br_rounds(s1, CoeffKey::CoeffBr(t, ptype, br_ctx_of(t, tx_type, q, pos)), base, 4)
    } else {
        (base, s1)
    }
}

/// The levels and the state after the last `n` of `eob` coded positions are read,
/// from the last one back.
pub open spec fn levels_of(
    s: CState,
    t: int,
    ptype: int,
    tx_type: int,
    eob: int,
    n: int,
) -> (Seq<i32>, CState)
    decreases n,
{
    if n <= 0 {
        (Seq::new(square_area(t) as nat, |i: int| 0i32), s)
    } else {
        let (q, s1) = levels_of(s, t, ptype, tx_type, eob, n - 1);
        let (v, s2) = level_of(s1, t, ptype, tx_type, eob, eob - n, q);
        (q.update(scan_of(t, tx_type)[eob - n] as int, v as i32), s2)
    }
}

/// Reads the range symbols on top of `level`.
fn read_range(
    dec: &mut SymbolDecoder<'_>,
    cdfs: &mut TileCdfs,
    t: usize,
    ptype: usize,
    ctx: usize,
    base: u32,
) -> (r: u32)
    requires
        old(dec)@.wf(),
        old(cdfs).wf(),
        t < 3,
        ptype < 2,
        ctx < 21,
        base == 3,
    ensures
        final(dec)@.wf(),
        final(cdfs).wf(),
        ({
            let k = CoeffKey::CoeffBr(t as int, ptype as int, ctx as int);
            let e = br_rounds(c_state(*old(dec), *old(cdfs)), k, base as int, 4);
            &&& r == e.0
            &&& c_state(*final(dec), *final(cdfs)) == e.1
        }),
        r <= 15,
{
    let ghost k = CoeffKey::CoeffBr(t as int, ptype as int, ctx as int);
    let ghost s0 = c_state(*dec, *cdfs);
    let mut level: u32 = base;
    let mut i: u32 = 0;
    while i < 4
        invariant
            i <= 4,
            level == 3 + 3 * i,
            dec@.wf(),
            cdfs.wf(),
            t < 3,
            ptype < 2,
            ctx < 21,
            base == 3,
            k == CoeffKey::CoeffBr(t as int, ptype as int, ctx as int),
            s0 == c_state(*old(dec), *old(cdfs)),
            br_rounds(s0, k, base as int, 4) == br_rounds(
                c_state(*dec, *cdfs),
                k,
                level as int,
                4 - i,
            ),
        decreases 4 - i,
    {
        let v: usize = cdfs.read_coeff_br(dec, t, ptype, ctx);
        level = level + v as u32;
        if v < 3 {
            return level;
        }
        i = i + 1;
    }
    level
}

/// Reads the level at scan position `c`.
fn read_level(
    dec: &mut SymbolDecoder<'_>,
    cdfs: &mut TileCdfs,
    t: usize,
    ptype: usize,
    tx_type: usize,
    eob: usize,
    c: usize,
    scan: &[u16],
    q: &Vec<i32>,
) -> (r: u32)
    requires
        old(dec)@.wf(),
        old(cdfs).wf(),
        t < 3,
        ptype < 2,
        c < eob <= square_area(t as int),
        scan@ == scan_of(t as int, tx_type as int),
        small_levels(q@, square_area(t as int)),
    ensures
        final(dec)@.wf(),
        final(cdfs).wf(),
        ({
            let e = level_of(
                c_state(*old(dec), *old(cdfs)),
                t as int,
                ptype as int,
                tx_type as int,
                eob as int,
                c as int,
                q@,
            );
            &&& r == e.0
            &&& c_state(*final(dec), *final(cdfs)) == e.1
        }),
        r <= 15,
{
    proof {
        reveal(level_of);
        lemma_scan(t as int, tx_type as int);
    }
    let pos: usize = scan[c] as usize;
    let area: usize = if t == 0 {
        16
    } else if t == 1 {
        64
    } else {
        256
    };
    let base: u32 = if c == eob - 1 {
        let ctx: usize = if c == 0 {
            0
        } else if c <= area / 8 {
            1
        } else if c <= area / 4 {
            2
        } else {
            3
        };
        cdfs.read_coeff_base_eob(dec, t, ptype, ctx) as u32 + 1
    } else {
        let ctx: usize = coeff_base_ctx(t, tx_type, q, pos);
        cdfs.read_coeff_base(dec, t, ptype, ctx) as u32
    };
    if base > 2 {
        let ctx: usize = coeff_br_ctx(t, tx_type, q, pos);
        read_range(dec, cdfs, t, ptype, ctx, base)
    } else {
        base
    }
}

/// Reads the levels of the `eob` coded positions, from the last one back.
fn read_levels(
    dec: &mut SymbolDecoder<'_>,
    cdfs: &mut TileCdfs,
    t: usize,
    ptype: usize,
    tx_type: usize,
    eob: usize,
    scan: &[u16],
) -> (q: Vec<i32>)
    requires
        old(dec)@.wf(),
        old(cdfs).wf(),
        t < 3,
        ptype < 2,
        eob <= square_area(t as int),
        scan@ == scan_of(t as int, tx_type as int),
    ensures
        final(dec)@.wf(),
        final(cdfs).wf(),
        ({
            let e = levels_of(
                c_state(*old(dec), *old(cdfs)),
                t as int,
                ptype as int,
                tx_type as int,
                eob as int,
                eob as int,
            );
            &&& q@ == e.0
            &&& c_state(*final(dec), *final(cdfs)) == e.1
        }),
        small_levels(q@, square_area(t as int)),
{
    let ghost s0 = c_state(*dec, *cdfs);
    let area: usize = if t == 0 {
        16
    } else if t == 1 {
        64
    } else {
        256
    };
    let mut q: Vec<i32> = vec![0i32; area];
    assert(q@ =~= Seq::new(square_area(t as int) as nat, |i: int| 0i32));
    let mut n: usize = 0;
    while n < eob
        invariant
            n <= eob <= square_area(t as int),
            dec@.wf(),
            cdfs.wf(),
            t < 3,
            ptype < 2,
            scan@ == scan_of(t as int, tx_type as int),
            s0 == c_state(*old(dec), *old(cdfs)),
            small_levels(q@, square_area(t as int)),
            levels_of(s0, t as int, ptype as int, tx_type as int, eob as int, n as int) == (
                q@,
                c_state(*dec, *cdfs),
            ),
        decreases eob - n,
    {
        proof {
            lemma_scan(t as int, tx_type as int);
        }
        let c: usize = eob - 1 - n;
        let v: u32 = read_level(dec, cdfs, t, ptype, tx_type, eob, c, scan, &q);
        let pos: usize = scan[c] as usize;
        q[pos] = v as i32;
        n = n + 1;
    }
    q
}

// ---------------------------------------------------------------------------
// Signs and large levels
// ---------------------------------------------------------------------------

/// The length of the exponential-Golomb prefix from bit `l` on, `None` for a prefix
/// that is too long, and the decoder state behind it.
pub open spec fn golomb_prefix(st: SymState, l: int) -> (Option<int>, SymState)
    decreases 26 - l,
{
    if bool_value(st) {
        (Some(l), bool_next(st))
    } else if l > MAX_GOLOMB_LENGTH {
        (None, bool_next(st))
    } else {
        golomb_prefix(bool_next(st), l + 1)
    }
}

/// The level that an exponential-Golomb tail codes, and the state behind it.
pub open spec fn golomb_of(st: SymState) -> (Option<int>, SymState) {
    match golomb_prefix(st, 1) {
        (None, s1) => (None, s1),
        (Some(l), s1) => (
            Some(pow2i(l - 1) + literal_value(s1, l - 1) + 14),
            literal_next(s1, l - 1),
        ),
    }
}

/// Reads an exponential-Golomb tail.
fn read_golomb_tail(dec: &mut SymbolDecoder<'_>) -> (r: Result<u32, KinetixError>)
    requires
        old(dec)@.wf(),
    ensures
        final(dec)@.wf(),
        final(dec)@ == golomb_of(old(dec)@).1,
        match golomb_of(old(dec)@).0 {
            None => r == Err::<u32, _>(KinetixError::Parse(ParseError::GolombLength)),
            Some(v) => r == Ok::<u32, KinetixError>(v as u32) && r->Ok_0 == v,
        },
        r matches Ok(v) ==> 15 <= v < 0x400_0000,
{
    let ghost st = dec@;
    let mut length: u32 = 1;
    loop
        invariant_except_break
            golomb_prefix(dec@, length as int) == golomb_prefix(st, 1),
        invariant
            dec@.wf(),
            1 <= length <= 25,
            st == old(dec)@,
        ensures
            golomb_prefix(st, 1) == (Some(length as int), dec@),
        decreases 26 - length,
    {
        let one: bool = dec.read_bool();
        if one {
            break;
        }
        if length > MAX_GOLOMB_LENGTH {
            return Err(KinetixError::Parse(ParseError::GolombLength));
        }
        length = length + 1;
    }
    proof {
        lemma_shl_pow2((length - 1) as u32);
        lemma_pow2i_mono(0, length - 1);
        lemma_pow2i_mono(length - 1, 24);
        lemma_pow2i_values();
        assert(pow2i(24) == 16 * pow2i(20)) by {
            reveal_with_fuel(pow2i, 5);
        }
    }
    let rest: u32 = dec.read_literal(length - 1);
    Ok((1u32 << (length - 1)) + rest + 14)
}

/// Levels with signs, and what the neighbours will see of them.
#[verifier::ext_equal]
pub struct SignState {
    pub s: CState,
    pub q: Seq<i32>,
    /// The sum of the magnitudes.
    pub sum: int,
    /// The sign category of the first coefficient.
    pub dc: int,
}

/// Whether the level at `pos` is negative, and the state behind its sign. The first
/// coefficient has a table; zero levels code no sign.
pub open spec fn sign_of(s: CState, v: int, pos: int, ptype: int, dc_ctx: int) -> (bool, CState) {
    if v == 0 {
        (false, s)
    } else if pos == 0 {
        let k = CoeffKey::DcSign(ptype, dc_ctx);
        (c_val(s, k) == 1, c_next(s, k))
    } else {
        (bool_value(s.sym), c_bool_next(s))
    }
}

/// One more position with its sign and tail, and whether that worked: not with a
/// tail that is too long.
#[verifier::opaque]
pub open spec fn sign_step(st: SignState, pos: int, ptype: int, dc_ctx: int) -> (SignState, bool) {
    let v = st.q[pos] as int;
    let (neg, s1) = sign_of(st.s, v, pos, ptype, dc_ctx);
    let (tail, s2) = if v > 14 || v < 0 {
        let (g, sym) = golomb_of(s1.sym);
        (g, CState { sym, bank: s1.bank })
    } else {
        (Some(v), s1)
    };
    match tail {
        None => (SignState { s: s2, q: st.q, sum: st.sum, dc: st.dc }, false),
        Some(g) => {
            let m = g % 0x10_0000;
            (
                SignState {
                    s: s2,
                    q: st.q.update(
                        pos,
                        if neg {
                            (-m) as i32
                        } else {
                            m as i32
                        },
                    ),
                    sum: st.sum + m,
                    dc: if pos == 0 && g > 0 {
                        if neg {
                            1
                        } else {
                            2
                        }
                    } else {
                        st.dc
                    },
                },
                true,
            )
        },
    }
}

/// The first `n` positions of a scan with their signs and tails, up to the first tail
/// that is too long, and whether there is none.
pub open spec fn signs_of(
    st: SignState,
    scan: Seq<u16>,
    ptype: int,
    dc_ctx: int,
    n: int,
) -> (SignState, bool)
    decreases n,
{
    if n <= 0 {
        (st, true)
    } else {
        let (p, fine) = signs_of(st, scan, ptype, dc_ctx, n - 1);
        if fine {
            sign_step(p, scan[n - 1] as int, ptype, dc_ctx)
        } else {
            (p, false)
        }
    }
}

proof fn lemma_signs_end(st: SignState, scan: Seq<u16>, ptype: int, dc_ctx: int, m: int, n: int)
    requires
        m <= n,
        !signs_of(st, scan, ptype, dc_ctx, m).1,
    ensures
        signs_of(st, scan, ptype, dc_ctx, n) == signs_of(st, scan, ptype, dc_ctx, m),
    decreases n - m,
{
    if m < n {
        lemma_signs_end(st, scan, ptype, dc_ctx, m, n - 1);
    }
}

/// Levels with signs: magnitudes below two to the power 20.
pub open spec fn signed_levels(q: Seq<i32>, area: int) -> bool {
    &&& q.len() == area
    &&& forall|i: int| 0 <= i < area ==> -0x10_0000 < #[trigger] q[i] < 0x10_0000
}

/// Reads the sign and the tail of the level at `pos`. Returns the magnitude and the
/// new sign category.
fn read_sign(
    dec: &mut SymbolDecoder<'_>,
    cdfs: &mut TileCdfs,
    q: &mut Vec<i32>,
    pos: usize,
    ptype: usize,
    dc_ctx: usize,
    dc: u8,
    Ghost(sum): Ghost<int>,
) -> (r: Result<(u32, u8), KinetixError>)
    requires
        old(dec)@.wf(),
        old(cdfs).wf(),
        ptype < 2,
        dc_ctx < 3,
        pos < old(q)@.len(),
        signed_levels(old(q)@, old(q)@.len() as int),
    ensures
        final(dec)@.wf(),
        final(cdfs).wf(),
        ({
            let st = SignState {
                s: c_state(*old(dec), *old(cdfs)),
                q: old(q)@,
                sum,
                dc: dc as int,
            };
            match r {
                Ok((m, d)) => {
                    &&& m < 0x10_0000
                    &&& signed_levels(final(q)@, old(q)@.len() as int)
                    &&& sign_step(st, pos as int, ptype as int, dc_ctx as int) == (
                        SignState {
                            s: c_state(*final(dec), *final(cdfs)),
                            q: final(q)@,
                            sum: sum + m,
                            dc: d as int,
                        },
                        true,
                    )
                },
                Err(e) => {
                    &&& !sign_step(st, pos as int, ptype as int, dc_ctx as int).1
                    &&& sign_step(st, pos as int, ptype as int, dc_ctx as int).0.s == c_state(
                        *final(dec),
                        *final(cdfs),
                    )
                    &&& e == KinetixError::Parse(ParseError::GolombLength)
                },
            }
        }),
{
    proof {
        reveal(sign_step);
    }
    let v: i32 = q[pos];
    let mut neg: bool = false;
    if v != 0 {
        if pos == 0 {
            neg = cdfs.read_dc_sign(dec, ptype, dc_ctx) == 1;
        } else {
            neg = dec.read_bool();
        }
    }
    let g: u32 = if v > 14 || v < 0 {
        match read_golomb_tail(dec) {
            Ok(g) => g,
            Err(e) => {
                return Err(e);
            },
        }
    } else {
        v as u32
    };
    let mut d: u8 = dc;
    if pos == 0 && g > 0 {
        d = if neg {
            1
        } else {
            2
        };
    }
    let m: u32 = g % 0x10_0000;
    if neg {
        q[pos] = -(m as i32);
    } else {
        q[pos] = m as i32;
    }
    Ok((m, d))
}

/// Reads the signs and tails of the coded positions. Returns the sum of the
/// magnitudes and the sign category of the first coefficient.
fn read_signs(
    dec: &mut SymbolDecoder<'_>,
    cdfs: &mut TileCdfs,
    q: &mut Vec<i32>,
    scan: &[u16],
    eob: usize,
    ptype: usize,
    dc_ctx: usize,
) -> (r: Result<(u32, u8), KinetixError>)
    requires
        old(dec)@.wf(),
        old(cdfs).wf(),
        ptype < 2,
        dc_ctx < 3,
        eob <= scan@.len(),
        eob <= 256,
        forall|k: int| 0 <= k < scan@.len() ==> #[trigger] scan@[k] < old(q)@.len(),
        signed_levels(old(q)@, old(q)@.len() as int),
    ensures
        final(dec)@.wf(),
        final(cdfs).wf(),
        ({
            let st = SignState { s: c_state(*old(dec), *old(cdfs)), q: old(q)@, sum: 0, dc: 0 };
            let e = signs_of(st, scan@, ptype as int, dc_ctx as int, eob as int);
            match r {
                Ok((sum, d)) => {
                    &&& signed_levels(final(q)@, old(q)@.len() as int)
                    &&& e == (
                        SignState {
                            s: c_state(*final(dec), *final(cdfs)),
                            q: final(q)@,
                            sum: sum as int,
                            dc: d as int,
                        },
                        true,
                    )
                },
                Err(x) => !e.1 && e.0.s == c_state(*final(dec), *final(cdfs)) && x
                    == KinetixError::Parse(ParseError::GolombLength),
            }
        }),
{
    let ghost st0 = SignState { s: c_state(*dec, *cdfs), q: q@, sum: 0, dc: 0 };
    let ghost area = q@.len() as int;
    let mut sum: u32 = 0;
    let mut dc: u8 = 0;
    let mut n: usize = 0;
    while n < eob
        invariant
            n <= eob <= scan@.len(),
            eob <= 256,
            dec@.wf(),
            cdfs.wf(),
            ptype < 2,
            dc_ctx < 3,
            area == old(q)@.len(),
            forall|k: int| 0 <= k < scan@.len() ==> #[trigger] scan@[k] < area,
            signed_levels(q@, area),
            sum <= n * 0x10_0000,
            st0 == (SignState {
                s: c_state(*old(dec), *old(cdfs)),
                q: old(q)@,
                sum: 0,
                dc: 0,
            }),
            signs_of(st0, scan@, ptype as int, dc_ctx as int, n as int) == (
                SignState { s: c_state(*dec, *cdfs), q: q@, sum: sum as int, dc: dc as int },
                true,
            ),
        decreases eob - n,
    {
        let pos: usize = scan[n] as usize;
        assert(scan@[n as int] < area);
        match read_sign(dec, cdfs, q, pos, ptype, dc_ctx, dc, Ghost(sum as int)) {
            Ok((m, d)) => {
                sum = sum + m;
                dc = d;
            },
            Err(e) => {
                proof {
                    lemma_signs_end(
                        st0,
                        scan@,
                        ptype as int,
                        dc_ctx as int,
                        n + 1,
                        eob as int,
                    );
                }
                return Err(e);
            },
        }
        n = n + 1;
    }
    Ok((sum, dc))
}

// ---------------------------------------------------------------------------
// A whole block
// ---------------------------------------------------------------------------

/// The contexts that a block leaves for its neighbours.
pub open spec fn ctx_after(c: CtxModel, blk: TxBlockCtx, level: u8, dc: u8) -> CtxModel {
    let p = blk.plane as int;
    let w4 = TX_WIDTH[blk.tx_size as int] as int / 4;
    let h4 = TX_HEIGHT[blk.tx_size as int] as int / 4;
    CtxModel {
        above_level: c.above_level.update(
            p,
            filled(c.above_level[p], blk.x4 as int, w4, level),
        ),
        above_dc: c.above_dc.update(p, filled(c.above_dc[p], blk.x4 as int, w4, dc)),
        left_level: c.left_level.update(p, filled(c.left_level[p], blk.y4 as int, h4, level)),
        left_dc: c.left_dc.update(p, filled(c.left_dc[p], blk.y4 as int, h4, dc)),
    }
}

/// The coefficients of a block.
#[verifier::ext_equal]
pub struct CoeffData {
    pub quant: Seq<i32>,
    pub eob: int,
    pub tx_type: int,
}

/// What reading the coefficients of a block comes to, and the states behind it.
#[verifier::ext_equal]
pub struct CoeffModel {
    pub result: Result<CoeffData, KinetixError>,
    pub s: CState,
    pub ctx: CtxModel,
}

/// A refused block: the contexts stay as they were.
pub open spec fn refused(e: KinetixError, s: CState, ctx: CtxModel) -> CoeffModel {
    CoeffModel { result: Err(e), s, ctx }
}

/// What reading the coefficients of a block comes to.
#[verifier::opaque]
pub open spec fn coeffs_of(s: CState, c: CtxModel, blk: TxBlockCtx) -> CoeffModel {
    let t = blk.tx_size as int;
    let ptype = plane_type(blk.plane as int);
    if t >= 19 {
        refused(KinetixError::Parse(ParseError::TxSizeRange), s, c)
    } else if blk.plane >= 3 {
        refused(KinetixError::Parse(ParseError::PlaneRange), s, c)
    } else {
        let k = CoeffKey::TxbSkip(sz_ctx(t), all_zero_of(blk, c));
        let s1 = c_next(s, k);
        if c_val(s, k) == 1 {
            CoeffModel {
                result: Ok(
                    CoeffData {
                        quant: Seq::new((TX_WIDTH[t] * TX_HEIGHT[t]) as nat, |i: int| 0i32),
                        eob: 0,
                        tx_type: DCT_DCT as int,
                    },
                ),
                s: s1,
                ctx: ctx_after(c, blk, 0, 0),
            }
        } else if tx_type_key(blk) matches Some(tk) && !tk.valid() {
            refused(KinetixError::Parse(ParseError::TxTypeTable), s1, c)
        } else if !has_scan(t) {
            refused(
                KinetixError::Unsupported(Feature::TransformSize),
                tx_type_next(s1, blk),
                c,
            )
        } else {
            let tx_type = tx_type_of(blk, coded_tx_type(s1, blk));
            let s2 = tx_type_next(s1, blk);
            let (eob, s3) = eob_of(s2, t, ptype, tx_type);
            let (q, s4) = levels_of(s3, t, ptype, tx_type, eob, eob);
            let (st, fine) = signs_of(
                SignState { s: s4, q, sum: 0, dc: 0 },
                scan_of(t, tx_type),
                ptype,
                dc_sign_of(blk, c),
                eob,
            );
            if fine {
                CoeffModel {
                    result: Ok(CoeffData { quant: st.q, eob, tx_type }),
                    s: st.s,
                    ctx: ctx_after(c, blk, min_of(st.sum, 63) as u8, st.dc as u8),
                }
            } else {
                refused(KinetixError::Parse(ParseError::GolombLength), st.s, c)
            }
        }
    }
}

/// Leaves the contexts of a block for its neighbours.
fn leave_contexts(ctxs: &mut CoeffContexts, blk: &TxBlockCtx, level: u8, dc: u8)
    requires
        blk.wf(),
        blk.plane < 3,
        blk.tx_size < 19,
    ensures
        final(ctxs)@ == ctx_after(old(ctxs)@, *blk, level, dc),
{
    proof {
        lemma_tx_dims(blk.tx_size as int);
    }
    let w4: usize = TX_WIDTH[blk.tx_size] / 4;
    let h4: usize = TX_HEIGHT[blk.tx_size] / 4;
    CoeffContexts::fill(&mut ctxs.above_level, blk.plane, blk.x4, w4, level);
    CoeffContexts::fill(&mut ctxs.above_dc, blk.plane, blk.x4, w4, dc);
    CoeffContexts::fill(&mut ctxs.left_level, blk.plane, blk.y4, h4, level);
    CoeffContexts::fill(&mut ctxs.left_dc, blk.plane, blk.y4, h4, dc);
}

/// Reads the coefficients of a transform block. Advances the decoder, adapts the
/// tables and leaves the contexts for the neighbours. A refused block leaves the
/// contexts as they were.
pub fn read_coeffs(
    dec: &mut SymbolDecoder<'_>,
    cdfs: &mut TileCdfs,
    ctxs: &mut CoeffContexts,
    blk: &TxBlockCtx,
) -> (r: Result<CoeffBlock, KinetixError>)
    requires
        old(dec)@.wf(),
        old(cdfs).wf(),
        blk.wf(),
    ensures
        final(dec)@.wf(),
        final(cdfs).wf(),
        ({
            let m = coeffs_of(c_state(*old(dec), *old(cdfs)), old(ctxs)@, *blk);
            &&& c_state(*final(dec), *final(cdfs)) == m.s
            &&& final(ctxs)@ == m.ctx
            &&& match m.result {
                Err(e) => r == Err::<CoeffBlock, _>(e),
                Ok(d) => r matches Ok(b) && b.quant@ == d.quant && b.eob == d.eob && b.tx_type
                    == d.tx_type,
            }
        }),
        r matches Ok(b) ==> {
            &&& blk.tx_size < 19
            &&& blk.plane < 3
            &&& signed_levels(b.quant@, TX_WIDTH[blk.tx_size as int] * TX_HEIGHT[blk.tx_size as int])
            &&& b.tx_type < 16
            &&& b.eob > 0 ==> has_scan(blk.tx_size as int)
            &&& b.eob <= TX_WIDTH[blk.tx_size as int] * TX_HEIGHT[blk.tx_size as int]
        },
{
    let ghost c = ctxs@;
    proof {
        reveal(coeffs_of);
    }
    let t: usize = blk.tx_size;
    if t >= 19 {
        return Err(KinetixError::Parse(ParseError::TxSizeRange));
    }
    if blk.plane >= 3 {
        return Err(KinetixError::Parse(ParseError::PlaneRange));
    }
    proof {
        lemma_tx_dims(t as int);
        lemma_eob_class(t as int);
        lemma_pow2i_values();
    }
    let ptype: usize = if blk.plane > 0 {
        1
    } else {
        0
    };
    let sctx: usize = (TX_SIZE_SQR[t] + TX_SIZE_SQR_UP[t] + 1) / 2;
    let skip_ctx: usize = all_zero_ctx(blk, ctxs);
    let all_zero: bool = cdfs.read_txb_skip(dec, sctx, skip_ctx) == 1;
    if all_zero {
        let area: usize = TX_WIDTH[t] * TX_HEIGHT[t];
        let quant: Vec<i32> = vec![0i32; area];
        assert(quant@ =~= Seq::new((TX_WIDTH[t as int] * TX_HEIGHT[t as int]) as nat, |i: int| 0i32));
        leave_contexts(ctxs, blk, 0, 0);
        return Ok(CoeffBlock { quant, eob: 0, tx_type: DCT_DCT });
    }
    let coded: usize = match read_transform_type(dec, cdfs, blk) {
        Ok(v) => v,
        Err(e) => {
            return Err(e);
        },
    };
    let tx_type: usize = compute_tx_type(blk, coded);
    let scan: &[u16] = match get_scan(t, tx_type) {
        Some(scan) => scan,
        None => {
            return Err(KinetixError::Unsupported(Feature::TransformSize));
        },
    };
    proof {
        lemma_scan(t as int, tx_type as int);
    }
    let eob: usize = read_eob(dec, cdfs, t, ptype, tx_type);
    assert(eob <= square_area(t as int));
    let mut quant: Vec<i32> = read_levels(dec, cdfs, t, ptype, tx_type, eob, scan);
    let dc_ctx: usize = dc_sign_ctx(blk, ctxs);
    match read_signs(dec, cdfs, &mut quant, scan, eob, ptype, dc_ctx) {
        Ok((sum, dc)) => {
            let level: u8 = if sum < 63 {
                sum as u8
            } else {
                63
            };
            leave_contexts(ctxs, blk, level, dc);
            Ok(CoeffBlock { quant, eob, tx_type })
        },
        Err(e) => Err(e),
    }
}

} // verus!
