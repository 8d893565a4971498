//! The decoder: from packets to pictures.
use crate::bits::{bit_at, lemma_pow2i_values, read_f8, read_flag, truncated, BitReader};
use crate::error::KinetixError;
use crate::frame::FrameHeader;
use crate::header_parts::kind_model;
use crate::media::{
    flag_bit, copy_bytes, copy_range, lemma_areas, store_wf, FrameModel, Packet, PixelFormat,
    RefFrameStore, Timestamp, VideoFrame,
};
use crate::obu::{
    obu_models, obus_of, parse_obu_sequence, sequence_model, Obu, ObuModel, ObuType, SequenceHeaderObu,
};
use crate::reconstruct::{lemma_decodable, reconstruct_av1_frame, units_model, TILE_GROUP_TYPE};
use crate::session::{
    bare_run, codes_sequence, existing_shown, existing_slot, frame_finished, frame_unit, goes_on,
    header_unit, hints_refreshed, law_header_unique, lemma_goes_on, lemma_payloads,
    lemma_run_stops, lemma_sequence_of, lemma_same_outcome, packet_decoded, placeholder, run_after,
    run_ended, run_returned, run_started, sequence_of, unit_done, unit_stops, with_group, DecoderModel,
    HeaderSource, PendingModel, RunModel,
};
use crate::tile_group::Tables;
use crate::trace::{no_trace, SymbolTrace};
use vstd::prelude::*;

verus! {

/// A tile group of a packet.
#[derive(Debug, Clone)]
pub struct TileData {
    /// The number of tile groups before it in the packet.
    pub tile_index: usize,
    pub payload: Vec<u8>,
}

/// What a decoder can and cannot do.
#[derive(Debug, Clone, Copy)]
pub struct DecoderCapabilities {
    pub codec: &'static str,
    /// Whether every picture is exact.
    pub pixel_exact: bool,
    pub supports_cabac: bool,
    pub supports_cavlc: bool,
    pub supports_intra_prediction: bool,
    pub supports_inter_prediction: bool,
    pub supports_deblocking: bool,
    pub notes: &'static str,
}

/// What the capabilities say in words.
pub const CAPABILITY_NOTES: &'static str = "intra keyframe decode (OBU + sequence/frame header, real superblock partition tree, intra mode / tx_size, coeffs() symbol decoder, full inverse-transform set incl. FLIPADST, intra block copy with find_mv_stack DV prediction + bilinear chroma sub-pel, in-loop deblock + CDEF + loop restoration, rayon parallel tiles) is bit-exact vs dav1d across the synthesized intra conformance corpus (Phase G gate). Inter prediction is wired end-to-end (MV candidate derivation, NEWMV / NEARMV / NEARESTMV / ZEROMV, switchable + bilinear interpolation, single- and compound reference, residual add) but is NOT yet bit-exact — non-keyframes diverge from the reference. `pixel_exact` stays false until the inter path is validated and official AOM/ITU vectors are wired in";

/// A frame header with the payload that codes it.
struct ReadHeader {
    header: FrameHeader,
    source: Ghost<HeaderSource>,
}

impl ReadHeader {
    spec fn wf(&self) -> bool {
        self.source@.codes(self.header)
    }
}

/// A frame whose tile groups come in units of their own.
struct Pending {
    read: ReadHeader,
    units: Vec<(u8, Vec<u8>)>,
}

/// The way through a packet.
struct Run {
    pending: Option<Pending>,
    produced_any: bool,
    shown: Option<VideoFrame>,
}

/// Units whose bits can be counted.
spec fn countable(d: Seq<u8>) -> bool {
    8 * d.len() <= usize::MAX && 8 * d.len() <= i64::MAX
}

spec fn all_countable(units: Seq<(u8, Vec<u8>)>) -> bool {
    forall|i: int| 0 <= i < units.len() ==> countable((#[trigger] units[i]).1@)
}

spec fn shown_model(f: Option<VideoFrame>) -> Option<FrameModel> {
    match f {
        Some(f) => Some(f@),
        None => None,
    }
}

spec fn source_of(h: Option<ReadHeader>) -> Option<HeaderSource> {
    match h {
        Some(h) => Some(h.source@),
        None => None,
    }
}

proof fn lemma_unit_goes_on(r: RunModel, o: ObuModel, seq: SequenceHeaderObu, tables: Tables)
    ensures
        frame_unit(r, o.payload, seq, tables) == goes_on(
            r,
            frame_unit(bare_run(r.dec), o.payload, seq, tables),
        ),
        existing_slot(o.payload, seq) matches Some(slot) ==> existing_shown(
            r,
            HeaderSource { payload: o.payload, seq },
            slot,
        ) == goes_on(
            r,
            existing_shown(bare_run(r.dec), HeaderSource { payload: o.payload, seq }, slot),
        ),
{
    let slot = match existing_slot(o.payload, seq) {
        Some(slot) => slot,
        None => 0,
    };
    lemma_goes_on(
        r,
        seq,
        HeaderSource { payload: o.payload, seq },
        seq![],
        o.payload,
        slot,
        tables,
    );
}

impl Run {
    spec fn wf(&self) -> bool {
        match self.pending {
            Some(p) => p.read.wf() && !p.read.source@.shows_kept() && all_countable(p.units@),
            None => true,
        }
    }

    spec fn model(&self, d: DecoderModel) -> RunModel {
        RunModel {
            dec: d,
            pending: match self.pending {
                Some(p) => Some(
                    PendingModel { source: p.read.source@, units: units_model(p.units@) },
                ),
                None => None,
            },
            produced: self.produced_any,
            shown: shown_model(self.shown),
        }
    }
}

/// The slot that a frame header asks to show, where it asks for a picture that is kept.
pub fn show_existing_idx(data: &[u8], seq: &SequenceHeaderObu) -> (r: Option<u8>)
    ensures
        match existing_slot(data@, *seq) {
            Some(slot) => r matches Some(v) && v == slot && v < 8,
            None => r is None,
        },
{
    proof {
        reveal(existing_slot);
        reveal(kind_model);
        reveal(bit_at);
        lemma_pow2i_values();
    }
    if seq.reduced_still_picture_header {
        return None;
    }
    let mut br: BitReader = BitReader::new(data);
    match read_flag(&mut br) {
        Ok(true) => match read_f8(&mut br, 3) {
            Ok(v) => Some(v),
            Err(_) => None,
        },
        _ => None,
    }
}

/// The payloads of tile groups.
pub open spec fn group_bytes(g: Seq<TileData>) -> Seq<Seq<u8>> {
    g.map_values(|t: TileData| t.payload@)
}

/// Tile groups are numbered in order.
pub open spec fn groups_numbered(g: Seq<TileData>) -> bool {
    forall|i: int| 0 <= i < g.len() ==> (#[trigger] g[i]).tile_index == i
}

/// Parses a sequence header unit.
fn read_sequence(payload: &Vec<u8>) -> (r: Result<SequenceHeaderObu, KinetixError>)
    ensures
        if sequence_model(payload@).end > 8 * payload@.len() {
            r == Err::<SequenceHeaderObu, KinetixError>(truncated())
        } else {
            r matches Ok(h) && h.wf() && h == sequence_of(payload@)
        },
{
    match SequenceHeaderObu::parse(payload.as_slice()) {
        Ok(h) => {
            proof {
                assert(codes_sequence(payload@, h)) by {
                    reveal(codes_sequence);
                }
                lemma_sequence_of(payload@, h);
            }
            Ok(h)
        },
        Err(e) => Err(e),
    }
}

/// A decoder with its state.
pub struct Av1Decoder {
    sequence_header: Option<SequenceHeaderObu>,
    frame_count: u64,
    strict: bool,
    last_header: Option<ReadHeader>,
    tile_groups: Vec<TileData>,
    kept_frames: RefFrameStore,
    ref_order_hints: [u8; 8],
    trace: SymbolTrace,
    tables: Tables,
}

impl View for Av1Decoder {
    type V = DecoderModel;

    closed spec fn view(&self) -> DecoderModel {
        DecoderModel {
            seq: self.sequence_header,
            count: self.frame_count,
            strict: self.strict,
            header: source_of(self.last_header),
            groups: group_bytes(self.tile_groups@),
            store: self.kept_frames@,
            hints: self.ref_order_hints@,
            trace: self.trace@,
        }
    }
}

impl Av1Decoder {
    /// The headers are wellformed, the pictures that are kept have planes of their size,
    /// and the tables are fair.
    pub closed spec fn wf(&self) -> bool {
        &&& match self.sequence_header {
            Some(s) => s.wf(),
            None => true,
        }
        &&& match self.last_header {
            Some(h) => h.wf(),
            None => true,
        }
        &&& store_wf(self.kept_frames@)
        &&& groups_numbered(self.tile_groups@)
        &&& self.tables.wf()
    }

    /// The tables that tiles start with.
    pub closed spec fn defaults(&self) -> Tables {
        self.tables
    }

    /// A decoder that has seen nothing. Tiles start with `tables`.
    pub fn new(tables: Tables) -> (r: Self)
        requires
            tables.wf(),
        ensures
            r.wf(),
            r.defaults() == tables,
            r@ == (DecoderModel {
                seq: None,
                count: 0,
                strict: false,
                header: None,
                groups: seq![],
                store: Seq::new(8, |i: int| None),
                hints: Seq::new(8, |i: int| 0u8),
                trace: no_trace(),
            }),
    {
        let r: Av1Decoder = Av1Decoder {
            sequence_header: None,
            frame_count: 0,
            strict: false,
            last_header: None,
            tile_groups: Vec::new(),
            kept_frames: RefFrameStore::new(),
            ref_order_hints: [0u8; 8],
            trace: SymbolTrace::new(),
            tables,
        };
        assert(r.ref_order_hints@ =~= Seq::new(8, |i: int| 0u8));
        assert(group_bytes(r.tile_groups@) =~= seq![]);
        r
    }

    /// What the decoder can and cannot do. Pictures are not claimed to be exact.
    pub fn capabilities(&self) -> (r: DecoderCapabilities)
        ensures
            r.codec@ == "AV1"@,
            !r.pixel_exact,
            r.supports_cabac,
            r.supports_cavlc,
            r.supports_intra_prediction,
            r.supports_inter_prediction,
            r.supports_deblocking,
            r.notes@ == CAPABILITY_NOTES@,
    {
        DecoderCapabilities {
            codec: "AV1",
            pixel_exact: false,
            supports_cabac: true,
            supports_cavlc: true,
            supports_intra_prediction: true,
            supports_inter_prediction: true,
            supports_deblocking: true,
            notes: CAPABILITY_NOTES,
        }
    }

    /// The record of the symbols that were read.
    pub fn trace(&self) -> (r: &SymbolTrace)
        ensures
            r@ == self@.trace,
    {
        &self.trace
    }

    /// Exchanges the record of the symbols that are read. A decoder starts with one that is
    /// off.
    pub fn swap_trace(&mut self, t: &mut SymbolTrace)
        requires
            old(self).wf(),
        ensures
            final(self).wf(),
            final(self).defaults() == old(self).defaults(),
            final(self)@ == (DecoderModel { trace: old(t)@, ..old(self)@ }),
            final(t)@ == old(self)@.trace,
    {
        core::mem::swap(&mut self.trace, t);
    }

    /// Turns strict mode on or off. In strict mode a packet fails where it would return a
    /// placeholder.
    pub fn set_strict(&mut self, strict: bool)
        requires
            old(self).wf(),
        ensures
            final(self).wf(),
            final(self).defaults() == old(self).defaults(),
            final(self)@ == (DecoderModel { strict, ..old(self)@ }),
    {
        self.strict = strict;
    }

    /// The decoder with strict mode on or off.
    pub fn with_strict(self, strict: bool) -> (r: Self)
        requires
            self.wf(),
        ensures
            r.wf(),
            r.defaults() == self.defaults(),
            r@ == (DecoderModel { strict, ..self@ }),
    {
        let mut r: Av1Decoder = self;
        r.strict = strict;
        r
    }

    /// Nothing is held back, so there is nothing to flush.
    pub fn flush(&mut self) -> (r: Result<Vec<VideoFrame>, KinetixError>)
        ensures
            *final(self) == *old(self),
            r matches Ok(v) && v@.len() == 0,
    {
        Ok(Vec::new())
    }

    /// The sequence header, once one was met.
    pub fn sequence_header(&self) -> (r: Option<&SequenceHeaderObu>)
        ensures
            match r {
                Some(s) => self@.seq == Some(*s),
                None => self@.seq is None,
            },
    {
        self.sequence_header.as_ref()
    }

    /// The last frame header of the last packet.
    pub fn last_frame_header(&self) -> (r: Option<&FrameHeader>)
        requires
            self.wf(),
        ensures
            match self@.header {
                Some(source) => r matches Some(h) && source.codes(*h),
                None => r is None,
            },
    {
        match &self.last_header {
            Some(h) => Some(&h.header),
            None => None,
        }
    }

    /// The tile groups of the last packet, in order.
    pub fn tile_data(&self) -> (r: &[TileData])
        requires
            self.wf(),
        ensures
            group_bytes(r@) == self@.groups,
            groups_numbered(r@),
    {
        self.tile_groups.as_slice()
    }

    /// The pictures that are kept.
    pub fn ref_frames(&self) -> (r: &RefFrameStore)
        ensures
            r@ == self@.store,
    {
        &self.kept_frames
    }

    /// Notes a tile group.
    fn note_group(&mut self, payload: &Vec<u8>)
        requires
            old(self).wf(),
        ensures
            final(self).wf(),
            final(self).defaults() == old(self).defaults(),
            final(self)@ == with_group(old(self)@, payload@),
    {
        let ghost g0 = self.tile_groups@;
        let tile_index: usize = self.tile_groups.len();
        let t: TileData = TileData { tile_index, payload: copy_bytes(payload) };
        self.tile_groups.push(t);
        assert(group_bytes(self.tile_groups@) =~= group_bytes(g0).push(payload@));
    }

    /// Shows a picture that is kept.
    fn show_existing(&mut self, seq: &SequenceHeaderObu, payload: &Vec<u8>, slot: u8) -> (r: Option<
        VideoFrame,
    >)
        requires
            old(self).wf(),
            seq.wf(),
            existing_slot(payload@, *seq) is Some,
            slot < 8,
        ensures
            final(self).wf(),
            final(self).defaults() == old(self).defaults(),
            ({
                let q = existing_shown(
                    bare_run(old(self)@),
                    HeaderSource { payload: payload@, seq: *seq },
                    slot as int,
                );
                &&& final(self)@ == q.dec
                &&& shown_model(r) == q.shown
            }),
    {
        reveal(existing_shown);
        self.last_header = Some(
            ReadHeader {
                header: FrameHeader::showing_kept(seq),
                source: Ghost(HeaderSource { payload: payload@, seq: *seq }),
            },
        );
        let shown: Option<VideoFrame> = match self.kept_frames.get(slot as usize) {
            Some(f) => {
                assert(self.kept_frames@[slot as int] is Some);
                Some(f.to_video_frame())
            },
            None => None,
        };
        if shown.is_some() {
            self.frame_count = self.frame_count.wrapping_add(1);
        }
        shown
    }

    /// Notes an order hint for every slot whose flag is set.
    fn refresh_hints(&mut self, flags: u8, hint: u8)
        requires
            old(self).wf(),
        ensures
            final(self).wf(),
            final(self).defaults() == old(self).defaults(),
            final(self)@ == (DecoderModel {
                hints: hints_refreshed(old(self)@.hints, flags as int, hint),
                ..old(self)@
            }),
    {
        let mut hints: [u8; 8] = self.ref_order_hints;
        let ghost h0 = hints@;
        proof {
            lemma_pow2i_values();
        }
        let mut rest: u8 = flags;
        let mut i: usize = 0;
        while i < 8
            invariant
                i <= 8,
                h0.len() == 8,
                rest == flags as int / crate::bits::pow2i(i as int),
                forall|k: int|
                    0 <= k < 8 ==> #[trigger] hints@[k] == if k < i && flag_bit(flags as int, k) {
                        hint
                    } else {
                        h0[k]
                    },
            decreases 8 - i,
        {
            if rest % 2 == 1 {
                hints[i] = hint;
            }
            proof {
                crate::media::lemma_halve_flags(flags as int, i as int);
            }
            rest = rest / 2;
            i = i + 1;
        }
        assert(hints@ =~= hints_refreshed(h0, flags as int, hint));
        self.ref_order_hints = hints;
    }

    /// Reconstructs a frame and keeps it. Returns it where it is to be shown.
    fn finish_frame_from_pairs(
        &mut self,
        seq: &SequenceHeaderObu,
        read: ReadHeader,
        units: &Vec<(u8, Vec<u8>)>,
    ) -> (r: Option<VideoFrame>)
        requires
            old(self).wf(),
            read.wf(),
            !read.source@.shows_kept(),
            all_countable(units@),
        ensures
            final(self).wf(),
            final(self).defaults() == old(self).defaults(),
            ({
                let q = frame_finished(
                    bare_run(old(self)@),
                    *seq,
                    read.source@,
                    units_model(units@),
                    old(self).defaults(),
                );
                &&& final(self)@ == q.dec
                &&& shown_model(r) == q.shown
            }),
    {
        let ghost fh = read.source@.header();
        proof {
            reveal(frame_finished);
            assert(read.source@.codes(read.header));
            law_header_unique(read.source@, read.header, fh);
            lemma_same_outcome(
                units_model(units@),
                read.header,
                fh,
                *seq,
                self.kept_frames@,
                self.tables,
                self.trace@,
            );
            lemma_decodable(read.header);
            crate::media::lemma_areas(read.header.width as int, read.header.height as int);
        }
        let area: u64 = read.header.width as u64 * read.header.height as u64;
        if area > usize::MAX as u64 {
            self.last_header = Some(read);
            return None;
        }
        let frame: VideoFrame = match reconstruct_av1_frame(
            units.as_slice(),
            seq,
            &read.header,
            Some(&self.kept_frames),
            &self.tables,
            &mut self.trace,
        ) {
            Ok(Some(f)) => f,
            _ => {
                self.last_header = Some(read);
                return None;
            },
        };
        let flags: u8 = read.header.refresh_frame_flags;
        let hint: u8 = #[verifier::truncate] (read.header.order_hint as u8);
        let show: bool = read.header.show_frame;
        self.last_header = Some(read);
        self.kept_frames.refresh(flags, &frame);
        self.refresh_hints(flags, hint);
        self.frame_count = self.frame_count.wrapping_add(1);
        if show {
            Some(frame)
        } else {
            None
        }
    }

    /// A frame unit: reconstructs the frame from the tile group behind its header.
    fn finish_frame(&mut self, seq: &SequenceHeaderObu, payload: &Vec<u8>) -> (r: Option<
        VideoFrame,
    >)
        requires
            old(self).wf(),
            seq.wf(),
            countable(payload@),
        ensures
            final(self).wf(),
            final(self).defaults() == old(self).defaults(),
            ({
                let q = frame_unit(
                    bare_run(old(self)@),
                    payload@,
                    *seq,
                    old(self).defaults(),
                );
                &&& final(self)@ == q.dec
                &&& shown_model(r) == q.shown
            }),
    {
        reveal(frame_unit);
        reveal(existing_slot);
        let (header, bits): (FrameHeader, usize) = match FrameHeader::parse(
            payload.as_slice(),
            seq,
        ) {
            Ok(p) => p,
            Err(_) => {
                return None;
            },
        };
        let read: ReadHeader = ReadHeader {
            header,
            source: Ghost(HeaderSource { payload: payload@, seq: *seq }),
        };
        let consumed: usize = bits / 8 + if bits % 8 == 0 {
            0
        } else {
            1
        };
        if consumed >= payload.len() {
            self.last_header = Some(read);
            return None;
        }
        let data: Vec<u8> = copy_range(payload, consumed, payload.len());
        self.note_group(&data);
        let units: Vec<(u8, Vec<u8>)> = vec![(TILE_GROUP_TYPE, data)];
        assert(units_model(units@) =~= seq![
            (TILE_GROUP_TYPE, payload@.subrange(consumed as int, payload@.len() as int)),
        ]);
        self.finish_frame_from_pairs(seq, read, &units)
    }

    /// A sequence header unit. Fails where the header ends too early.
    fn meet_sequence(&mut self, payload: &Vec<u8>) -> (r: Result<(), KinetixError>)
        requires
            old(self).wf(),
        ensures
            final(self).wf(),
            final(self).defaults() == old(self).defaults(),
            if sequence_model(payload@).end > 8 * payload@.len() {
                &&& r == Err::<(), KinetixError>(truncated())
                &&& final(self)@ == old(self)@
            } else {
                &&& r == Ok::<(), KinetixError>(())
                &&& final(self)@ == (DecoderModel {
                    seq: Some(sequence_of(payload@)),
                    ..old(self)@
                })
            },
    {
        match read_sequence(payload) {
            Ok(sh) => {
                self.sequence_header = Some(sh);
                Ok(())
            },
            Err(e) => Err(e),
        }
    }

    /// A frame unit.
    fn meet_frame(&mut self, seq: &SequenceHeaderObu, obu: &Obu, run: &mut Run)
        requires
            old(self).wf(),
            old(self)@.seq == Some(*seq),
            old(run).wf(),
            countable(obu.payload@),
            obu.obu_type == ObuType::Frame,
        ensures
            final(self).wf(),
            final(self).defaults() == old(self).defaults(),
            final(run).wf(),
            final(run).model(final(self)@) == unit_done(
                old(run).model(old(self)@),
                obu@,
                old(self).defaults(),
            ),
    {
        run.produced_any = true;
        proof {
            lemma_unit_goes_on(run.model(self@), obu@, *seq, self.defaults());
        }
        let shown: Option<VideoFrame> = match show_existing_idx(obu.payload.as_slice(), seq) {
            Some(slot) => self.show_existing(seq, &obu.payload, slot),
            None => self.finish_frame(seq, &obu.payload),
        };
        if shown.is_some() {
            run.shown = shown;
        }
    }

    /// A frame header unit.
    fn meet_frame_header(&mut self, seq: &SequenceHeaderObu, obu: &Obu, run: &mut Run)
        requires
            old(self).wf(),
            old(self)@.seq == Some(*seq),
            old(run).wf(),
            countable(obu.payload@),
            obu.obu_type == ObuType::FrameHeader,
        ensures
            final(self).wf(),
            final(self).defaults() == old(self).defaults(),
            final(run).wf(),
            final(run).model(final(self)@) == unit_done(
                old(run).model(old(self)@),
                obu@,
                old(self).defaults(),
            ),
    {
        run.produced_any = true;
        proof {
            lemma_unit_goes_on(run.model(self@), obu@, *seq, self.defaults());
        }
        match show_existing_idx(obu.payload.as_slice(), seq) {
            Some(slot) => {
                let shown: Option<VideoFrame> = self.show_existing(seq, &obu.payload, slot);
                if shown.is_some() {
                    run.shown = shown;
                }
            },
            None => {
                Self::await_tiles(seq, &obu.payload, run);
            },
        }
    }

    /// Goes through a unit. Fails where the unit stops the packet.
    fn step(&mut self, obu: &Obu, run: &mut Run) -> (r: Result<(), KinetixError>)
        requires
            old(self).wf(),
            old(run).wf(),
            countable(obu.payload@),
        ensures
            final(self).wf(),
            final(self).defaults() == old(self).defaults(),
            final(run).wf(),
            ({
                let m = old(run).model(old(self)@);
                if unit_stops(obu@) {
                    &&& r == Err::<(), KinetixError>(truncated())
                    &&& final(run).model(final(self)@) == m
                } else {
                    &&& r == Ok::<(), KinetixError>(())
                    &&& final(run).model(final(self)@) == unit_done(
                        m,
                        obu@,
                        old(self).defaults(),
                    )
                }
            }),
    {
        match obu.obu_type {
            ObuType::SequenceHeader => {
                return self.meet_sequence(&obu.payload);
            },
            ObuType::Frame => {
                if let Some(seq) = self.sequence_header {
                    self.meet_frame(&seq, obu, run);
                }
            },
            ObuType::FrameHeader => {
                if let Some(seq) = self.sequence_header {
                    self.meet_frame_header(&seq, obu, run);
                }
            },
            ObuType::TileGroup => {
                self.note_group(&obu.payload);
                Self::add_tile_group(&obu.payload, run);
            },
            _ => {},
        }
        Ok(())
    }

    /// A frame header unit: the frame waits for its tile groups.
    fn await_tiles(seq: &SequenceHeaderObu, payload: &Vec<u8>, run: &mut Run)
        requires
            seq.wf(),
            old(run).wf(),
            countable(payload@),
        ensures
            final(run).wf(),
            forall|d: DecoderModel| #[trigger]
                final(run).model(d) == header_unit(old(run).model(d), payload@, *seq),
    {
        reveal(header_unit);
        reveal(existing_slot);
        match FrameHeader::parse(payload.as_slice(), seq) {
            Ok((header, _)) => {
                let read: ReadHeader = ReadHeader {
                    header,
                    source: Ghost(HeaderSource { payload: payload@, seq: *seq }),
                };
                let units: Vec<(u8, Vec<u8>)> = Vec::new();
                assert(units_model(units@) =~= seq![]);
                run.pending = Some(Pending { read, units });
            },
            Err(_) => {},
        }
    }

    /// A tile group unit: a frame that waits takes it.
    fn add_tile_group(payload: &Vec<u8>, run: &mut Run)
        requires
            old(run).wf(),
            countable(payload@),
        ensures
            final(run).wf(),
            final(run).produced_any == old(run).produced_any,
            final(run).shown == old(run).shown,
            forall|d: DecoderModel|
                (#[trigger] final(run).model(d)).pending == match old(run).model(d).pending {
                    None => None,
                    Some(p) => Some(
                        PendingModel { units: p.units.push((TILE_GROUP_TYPE, payload@)), ..p },
                    ),
                },
    {
        let mut held: Option<Pending> = None;
        core::mem::swap(&mut held, &mut run.pending);
        if let Some(p) = held {
            let mut units: Vec<(u8, Vec<u8>)> = p.units;
            let ghost u0 = units@;
            units.push((TILE_GROUP_TYPE, copy_bytes(payload)));
            assert(units_model(units@) =~= units_model(u0).push((TILE_GROUP_TYPE, payload@)));
            run.pending = Some(Pending { read: p.read, units });
        }
    }

    /// Decodes a packet. Returns the last picture that is to be shown. Without one, a
    /// packet without frames returns nothing; one with frames fails in strict mode and
    /// otherwise returns a grey placeholder.
    pub fn decode(&mut self, packet: &Packet) -> (r: Result<Option<VideoFrame>, KinetixError>)
        requires
            old(self).wf(),
            8 * packet.data@.len() <= usize::MAX,
            8 * packet.data@.len() <= i64::MAX,
        ensures
            final(self).wf(),
            final(self).defaults() == old(self).defaults(),
            ({
                let q = packet_decoded(
                    old(self)@,
                    old(self).defaults(),
                    packet.data@,
                    packet.is_key_frame,
                );
                &&& final(self)@ == q.0
                &&& match q.1 {
                    Err(e) => r == Err::<Option<VideoFrame>, KinetixError>(e),
                    Ok(None) => r == Ok::<Option<VideoFrame>, KinetixError>(None),
                    Ok(Some(m)) => r matches Ok(Some(f)) && f@ == m,
                }
            }),
    {
        let ghost d0 = self@;
        let ghost tables = self.defaults();
        let ghost start = run_started(d0);
        let obus: Vec<Obu> = parse_obu_sequence(packet.data.as_slice());
        let ghost units = obus_of(packet.data@);
        assert(obu_models(obus@) == units);
        self.last_header = None;
        self.tile_groups = Vec::new();
        assert(group_bytes(self.tile_groups@) =~= seq![]);
        let mut run: Run = Run { pending: None, produced_any: false, shown: None };
        assert(run.model(self@) =~= start);
        let mut k: usize = 0;
        while k < obus.len()
            invariant
                k <= obus@.len(),
                d0 == old(self)@,
                tables == old(self).defaults(),
                start == run_started(d0),
                8 * packet.data@.len() <= usize::MAX,
                8 * packet.data@.len() <= i64::MAX,
                units == obus_of(packet.data@),
                obu_models(obus@) == units,
                obus@.len() == units.len(),
                self.wf(),
                self.defaults() == tables,
                run.wf(),
                run_after(start, units, tables, k as int) == (run.model(self@), false),
            decreases obus.len() - k,
        {
            assert(units[k as int] == obus@[k as int]@);
            proof {
                lemma_payloads(packet.data@, k as int);
            }
            match self.step(&obus[k], &mut run) {
                Ok(()) => {},
                Err(e) => {
                    proof {
                        lemma_run_stops(start, units, tables, k + 1, units.len() as int);
                    }
                    return Err(e);
                },
            }
            k = k + 1;
        }
        let ghost before = run.model(self@);
        let Run { pending, produced_any, shown } = run;
        let mut shown: Option<VideoFrame> = shown;
        if let Some(p) = pending {
            if let Some(seq) = self.sequence_header {
                proof {
                    lemma_goes_on(
                        before,
                        seq,
                        p.read.source@,
                        units_model(p.units@),
                        seq![],
                        0,
                        tables,
                    );
                }
                let last: Option<VideoFrame> = self.finish_frame_from_pairs(
                    &seq,
                    p.read,
                    &p.units,
                );
                if last.is_some() {
                    shown = last;
                }
            }
        }
        let ghost after = run_ended(before, tables);
        assert(after.dec == self@);
        assert(after.shown == shown_model(shown));
        assert(after.produced == produced_any);
        if shown.is_some() {
            return Ok(shown);
        }
        if !produced_any {
            return Ok(None);
        }
        if self.strict {
            return Err(KinetixError::NotPixelExact);
        }
        self.emit_placeholder(packet.is_key_frame)
    }

    /// A grey picture of the size that the sequence header names.
    fn emit_placeholder(&mut self, key: bool) -> (r: Result<Option<VideoFrame>, KinetixError>)
        requires
            old(self).wf(),
            !old(self)@.strict,
        ensures
            final(self).wf(),
            final(self).defaults() == old(self).defaults(),
            ({
                let q = run_returned(bare_run(old(self)@), key);
                &&& final(self)@ == q.0
                &&& match q.1 {
                    Err(e) => r == Err::<Option<VideoFrame>, KinetixError>(e),
                    Ok(None) => r == Ok::<Option<VideoFrame>, KinetixError>(None),
                    Ok(Some(m)) => r matches Ok(Some(f)) && f@ == m,
                }
            }),
    {
        let seq: SequenceHeaderObu = match self.sequence_header {
            Some(seq) => seq,
            None => {
                return Ok(None);
            },
        };
        let width: u32 = seq.frame_width();
        let height: u32 = seq.frame_height();
        proof {
            lemma_areas(width as int, height as int);
        }
        let luma: u64 = width as u64 * height as u64;
        let len: u64 = luma + 2 * (luma / 4);
        if len > usize::MAX as u64 {
            return Ok(None);
        }
        let data: Vec<u8> = vec![128u8; len as usize];
        let frame_no: u64 = self.frame_count;
        self.frame_count = frame_no.wrapping_add(1);
        let time: Timestamp = Timestamp::new(
            #[verifier::truncate] (frame_no as i64),
            (1, 90_000),
        );
        let frame: VideoFrame = VideoFrame {
            pts: time,
            dts: time,
            data,
            width,
            height,
            pixel_format: PixelFormat::Yuv420p,
            is_key_frame: key,
        };
        assert(frame@ =~= placeholder(seq, frame_no, key));
        Ok(Some(frame))
    }
}

} // verus!
