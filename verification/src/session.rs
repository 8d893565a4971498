//! What decoding a packet comes to.
//!
//! A packet is a list of units. A decoder goes through them in order; each unit takes
//! it from one state to the next.
use crate::bits::{bits_at, truncated};
use crate::coeff::{q_bucket, TileCdfs};
use crate::error::KinetixError;
use crate::frame::{header_model, header_outcome, FrameHeader};
use crate::media::{
    chroma_area, flag_bit, lemma_areas, luma_area, refreshed, FrameModel, Planes, Timestamp,
};
use crate::mode_cdfs::ModeDefaults;
use crate::obu::{
    header_len, header_sized, leb128_spans, leb128_value, lemma_leb128_range, obu_spans, obus_of,
    op_arrays, sequence_model, ObuModel, ObuType, SequenceHeaderObu,
};
use crate::reconstruct::{
    frame_after, frame_config, frame_outcome, picture, tile_planes, TILE_GROUP_TYPE,
};
use crate::tile_group::Tables;
use crate::trace::TraceModel;
use vstd::prelude::*;

verus! {

// ---------------------------------------------------------------------------
// Headers
// ---------------------------------------------------------------------------

/// A sequence header is the one that a payload codes.
#[verifier::opaque]
pub open spec fn codes_sequence(d: Seq<u8>, h: SequenceHeaderObu) -> bool {
    h.wf() && h.coded_in(d)
}

/// The sequence header that a payload codes.
pub open spec fn sequence_of(d: Seq<u8>) -> SequenceHeaderObu {
    choose|h: SequenceHeaderObu| #[trigger] codes_sequence(d, h)
}

/// A payload codes one sequence header.
pub proof fn law_sequence_unique(d: Seq<u8>, a: SequenceHeaderObu, b: SequenceHeaderObu)
    requires
        a.coded_in(d),
        b.coded_in(d),
    ensures
        a == b,
{
    reveal(op_arrays);
    assert(a.operating_point_idc@ =~= b.operating_point_idc@);
    assert(a.decoder_model_present_for_this_op@ =~= b.decoder_model_present_for_this_op@);
    assert(a.operating_point_idc =~= b.operating_point_idc);
    assert(a.decoder_model_present_for_this_op =~= b.decoder_model_present_for_this_op);
}

/// Any header that a payload codes is the one that it codes.
pub proof fn lemma_sequence_of(d: Seq<u8>, h: SequenceHeaderObu)
    requires
        codes_sequence(d, h),
    ensures
        sequence_of(d) == h,
{
    let c = sequence_of(d);
    assert(codes_sequence(d, c));
    assert(c.coded_in(d) && h.coded_in(d)) by {
        reveal(codes_sequence);
    }
    law_sequence_unique(d, c, h);
}

/// Where a frame header comes from: the payload that codes it and the sequence that it
/// belongs to.
pub struct HeaderSource {
    pub payload: Seq<u8>,
    pub seq: SequenceHeaderObu,
}

impl HeaderSource {
    /// The payload asks to show a picture that is kept.
    pub open spec fn shows_kept(self) -> bool {
        existing_slot(self.payload, self.seq) is Some
    }

    /// A header is the one that the payload codes.
    pub open spec fn codes(self, h: FrameHeader) -> bool {
        if self.shows_kept() {
            h.shows_kept_in(self.seq)
        } else {
            h.wf() && h.coded_in(self.payload, self.seq)
        }
    }

    /// The header that the payload codes.
    pub open spec fn header(self) -> FrameHeader {
        choose|h: FrameHeader| #[trigger] self.codes(h)
    }
}

/// The slot that a frame header asks to show, where it asks for a picture that is kept.
#[verifier::opaque]
pub open spec fn existing_slot(d: Seq<u8>, seq: SequenceHeaderObu) -> Option<int> {
    if header_model(d, seq).kind.show_existing_frame {
        Some(bits_at(d, 1, 3))
    } else {
        None
    }
}

// ---------------------------------------------------------------------------
// States
// ---------------------------------------------------------------------------

/// What a decoder remembers.
#[verifier::ext_equal]
pub struct DecoderModel {
    pub seq: Option<SequenceHeaderObu>,
    /// The number of pictures so far.
    pub count: u64,
    pub strict: bool,
    /// The last frame header of the packet.
    pub header: Option<HeaderSource>,
    /// The tile groups of the packet.
    pub groups: Seq<Seq<u8>>,
    pub store: Seq<Option<Planes>>,
    /// The order hint of the picture in every slot.
    pub hints: Seq<u8>,
    /// The symbols that were read.
    pub trace: TraceModel,
}

/// A frame whose tile groups come in units of their own.
#[verifier::ext_equal]
pub struct PendingModel {
    pub source: HeaderSource,
    pub units: Seq<(u8, Seq<u8>)>,
}

/// A decoder on its way through a packet.
#[verifier::ext_equal]
pub struct RunModel {
    pub dec: DecoderModel,
    pub pending: Option<PendingModel>,
    /// Whether a frame was met.
    pub produced: bool,
    /// The last picture that is to be shown.
    pub shown: Option<FrameModel>,
}

/// The number behind `n`; counting starts again behind the last.
pub open spec fn next_count(n: u64) -> u64 {
    if n == u64::MAX {
        0
    } else {
        (n + 1) as u64
    }
}

/// The order hints after a picture is kept in every slot whose flag is set.
pub open spec fn hints_refreshed(hints: Seq<u8>, flags: int, hint: u8) -> Seq<u8> {
    Seq::new(
        hints.len(),
        |i: int|
            if flag_bit(flags, i) {
                hint
            } else {
                hints[i]
            },
    )
}

/// A picture of this size has planes that can be held.
pub open spec fn can_hold(w: int, h: int) -> bool {
    luma_area(w, h) <= usize::MAX
}

/// The picture that a slot keeps, as it is shown.
pub open spec fn kept_picture(p: Planes) -> FrameModel {
    picture(p, false)
}

/// A picture that is kept is shown. An empty slot shows nothing and leaves only the
/// header.
#[verifier::opaque]
pub open spec fn existing_shown(r: RunModel, source: HeaderSource, slot: int) -> RunModel {
    let dec = DecoderModel { header: Some(source), ..r.dec };
    match dec.store[slot] {
        Some(p) => RunModel {
            dec: DecoderModel { count: next_count(dec.count), ..dec },
            shown: Some(kept_picture(p)),
            ..r
        },
        None => RunModel { dec, ..r },
    }
}

/// One more tile group of the packet.
pub open spec fn with_group(d: DecoderModel, t: Seq<u8>) -> DecoderModel {
    DecoderModel { groups: d.groups.push(t), ..d }
}

/// A frame is reconstructed, kept in the slots that its header names, counted, and
/// shown where its header says so. One that fails leaves only its header and the symbols
/// that were read.
#[verifier::opaque]
pub open spec fn frame_finished(
    r: RunModel,
    seq: SequenceHeaderObu,
    source: HeaderSource,
    units: Seq<(u8, Seq<u8>)>,
    tables: Tables,
) -> RunModel {
    let fh = source.header();
    let dec = DecoderModel { header: Some(source), ..r.dec };
    if !can_hold(fh.width as int, fh.height as int) {
        RunModel { dec, ..r }
    } else {
        let x = frame_outcome(units, fh, seq, dec.store, tables, dec.trace);
        let dec = DecoderModel { trace: x.1, ..dec };
        match x.0 {
            Err(_) => RunModel { dec, ..r },
            Ok(m) => RunModel {
                dec: DecoderModel {
                    store: refreshed(dec.store, fh.refresh_frame_flags as int, m.planes()),
                    hints: hints_refreshed(
                        dec.hints,
                        fh.refresh_frame_flags as int,
                        fh.order_hint as u8,
                    ),
                    count: next_count(dec.count),
                    ..dec
                },
                shown: if fh.show_frame {
                    Some(m)
                } else {
                    r.shown
                },
                ..r
            },
        }
    }
}

/// A frame unit: a frame header and one tile group behind it. A unit that ends with its
/// header leaves only the header; one whose header fails leaves nothing.
#[verifier::opaque]
pub open spec fn frame_unit(
    r: RunModel,
    d: Seq<u8>,
    seq: SequenceHeaderObu,
    tables: Tables,
) -> RunModel {
    let source = HeaderSource { payload: d, seq };
    match header_outcome(d, seq) {
        Err(_) => r,
        Ok(bits) => {
            let start = (bits + 7) / 8;
            if start >= d.len() {
                RunModel { dec: DecoderModel { header: Some(source), ..r.dec }, ..r }
            } else {
                let t = d.subrange(start, d.len() as int);
                frame_finished(
                    RunModel { dec: with_group(r.dec, t), ..r },
                    seq,
                    source,
                    seq![(TILE_GROUP_TYPE, t)],
                    tables,
                )
            }
        },
    }
}

/// A frame header unit: the frame waits for its tile groups.
#[verifier::opaque]
pub open spec fn header_unit(r: RunModel, d: Seq<u8>, seq: SequenceHeaderObu) -> RunModel {
    match header_outcome(d, seq) {
        Err(_) => r,
        Ok(_) => RunModel {
            pending: Some(
                PendingModel { source: HeaderSource { payload: d, seq }, units: seq![] },
            ),
            ..r
        },
    }
}

/// What a unit does. Every tile group is noted, and taken by the frame that waits for it.
/// Frames and frame headers without a sequence header and units of other types are passed
/// over.
pub open spec fn unit_done(r: RunModel, o: ObuModel, tables: Tables) -> RunModel {
    match o.obu_type {
        ObuType::SequenceHeader => RunModel {
            dec: DecoderModel { seq: Some(sequence_of(o.payload)), ..r.dec },
            ..r
        },
        ObuType::Frame => match r.dec.seq {
            None => r,
            Some(seq) => {
                let p = RunModel { produced: true, ..r };
                match existing_slot(o.payload, seq) {
                    Some(slot) => existing_shown(
                        p,
                        HeaderSource { payload: o.payload, seq },
                        slot,
                    ),
                    None => frame_unit(p, o.payload, seq, tables),
                }
            },
        },
        ObuType::FrameHeader => match r.dec.seq {
            None => r,
            Some(seq) => {
                let p = RunModel { produced: true, ..r };
                match existing_slot(o.payload, seq) {
                    Some(slot) => existing_shown(
                        p,
                        HeaderSource { payload: o.payload, seq },
                        slot,
                    ),
                    None => header_unit(p, o.payload, seq),
                }
            },
        },
        ObuType::TileGroup => RunModel {
            dec: with_group(r.dec, o.payload),
            pending: match r.pending {
                None => None,
                Some(p) => Some(
                    PendingModel { units: p.units.push((TILE_GROUP_TYPE, o.payload)), ..p },
                ),
            },
            ..r
        },
        _ => r,
    }
}

/// A unit that stops the packet: a sequence header that ends too early.
pub open spec fn unit_stops(o: ObuModel) -> bool {
    o.obu_type == ObuType::SequenceHeader && sequence_model(o.payload).end > 8 * o.payload.len()
}

/// The state behind the first `n` units, and whether a unit among them stopped the
/// packet. Nothing happens behind such a unit.
pub open spec fn run_after(r: RunModel, units: Seq<ObuModel>, tables: Tables, n: int) -> (
    RunModel,
    bool,
)
    decreases n,
{
    if n <= 0 {
        (r, false)
    } else {
        let (q, stopped) = run_after(r, units, tables, n - 1);
        if stopped || unit_stops(units[n - 1]) {
            (q, true)
        } else {
            (unit_done(q, units[n - 1], tables), false)
        }
    }
}

/// The end of a packet: a frame that waits is finished with the tile groups it has.
pub open spec fn run_ended(r: RunModel, tables: Tables) -> RunModel {
    match (r.pending, r.dec.seq) {
        (Some(p), Some(seq)) => frame_finished(r, seq, p.source, p.units, tables),
        _ => r,
    }
}

/// The length of a placeholder.
pub open spec fn placeholder_len(w: int, h: int) -> int {
    w * h + 2 * ((w * h) / 4)
}

/// The grey picture in place of one that was not reconstructed.
pub open spec fn placeholder(seq: SequenceHeaderObu, count: u64, key: bool) -> FrameModel {
    let w = seq.max_frame_width_minus_1 + 1;
    let h = seq.max_frame_height_minus_1 + 1;
    let time = Timestamp { value: Some(count as i64), num: 1, den: 90_000 };
    FrameModel {
        pts: time,
        dts: time,
        data: Seq::new(placeholder_len(w, h) as nat, |i: int| 128u8),
        width: w,
        height: h,
        is_key_frame: key,
    }
}

/// What a packet returns: the last picture that is to be shown. Without one, a packet
/// without frames returns nothing; one with frames fails in strict mode and otherwise
/// returns a placeholder, where it can be held.
pub open spec fn run_returned(r: RunModel, key: bool) -> (
    DecoderModel,
    Result<Option<FrameModel>, KinetixError>,
) {
    match r.shown {
        Some(m) => (r.dec, Ok(Some(m))),
        None => if !r.produced {
            (r.dec, Ok(None))
        } else if r.dec.strict {
            (r.dec, Err(KinetixError::NotPixelExact))
        } else {
            match r.dec.seq {
                None => (r.dec, Ok(None)),
                Some(seq) => if placeholder_len(
                    seq.max_frame_width_minus_1 + 1,
                    seq.max_frame_height_minus_1 + 1,
                ) > usize::MAX {
                    (r.dec, Ok(None))
                } else {
                    (
                        DecoderModel { count: next_count(r.dec.count), ..r.dec },
                        Ok(Some(placeholder(seq, r.dec.count, key))),
                    )
                },
            }
        },
    }
}

/// A decoder at the start of a packet.
pub open spec fn run_started(d: DecoderModel) -> RunModel {
    RunModel {
        dec: DecoderModel { header: None, groups: seq![], ..d },
        pending: None,
        produced: false,
        shown: None,
    }
}

/// What decoding a packet does and returns.
pub open spec fn packet_decoded(d: DecoderModel, tables: Tables, data: Seq<u8>, key: bool) -> (
    DecoderModel,
    Result<Option<FrameModel>, KinetixError>,
) {
    let units = obus_of(data);
    let (r, stopped) = run_after(run_started(d), units, tables, units.len() as int);
    if stopped {
        (r.dec, Err(truncated()))
    } else {
        run_returned(run_ended(r, tables), key)
    }
}

// ---------------------------------------------------------------------------
// Facts about runs
// ---------------------------------------------------------------------------

/// Two headers agree in the fields that decoding a frame uses.
pub open spec fn same_frame(a: FrameHeader, b: FrameHeader) -> bool {
    &&& a.width == b.width
    &&& a.height == b.height
    &&& a.use_128x128_superblock == b.use_128x128_superblock
    &&& a.tile_cols == b.tile_cols
    &&& a.tile_rows == b.tile_rows
    &&& a.base_q_idx == b.base_q_idx
    &&& a.tx_mode_select == b.tx_mode_select
    &&& a.reduced_tx_set == b.reduced_tx_set
    &&& a.segmentation_enabled == b.segmentation_enabled
    &&& a.allow_screen_content_tools == b.allow_screen_content_tools
    &&& a.frame_type == b.frame_type
    &&& a.allow_high_precision_mv == b.allow_high_precision_mv
    &&& a.reference_select == b.reference_select
    &&& a.interpolation_filter == b.interpolation_filter
    &&& a.ref_frame_idx == b.ref_frame_idx
    &&& a.loop_filter_level == b.loop_filter_level
    &&& a.loop_filter_sharpness == b.loop_filter_sharpness
    &&& a.loop_filter_delta_enabled == b.loop_filter_delta_enabled
    &&& a.loop_filter_deltas.loop_filter_ref_deltas == b.loop_filter_deltas.loop_filter_ref_deltas
    &&& a.loop_filter_deltas.loop_filter_mode_deltas
        == b.loop_filter_deltas.loop_filter_mode_deltas
    &&& a.enable_cdef == b.enable_cdef
    &&& a.coded_lossless == b.coded_lossless
    &&& a.cdef_damping == b.cdef_damping
    &&& a.cdef_y_strength@ == b.cdef_y_strength@
    &&& a.cdef_uv_strength@ == b.cdef_uv_strength@
    &&& a.refresh_frame_flags == b.refresh_frame_flags
    &&& a.order_hint == b.order_hint
    &&& a.show_frame == b.show_frame
}

/// Headers that one payload codes agree in all that decoding a frame uses.
pub proof fn law_header_unique(source: HeaderSource, a: FrameHeader, b: FrameHeader)
    requires
        source.codes(a),
        source.codes(b),
        !source.shows_kept(),
    ensures
        same_frame(a, b),
{
    let m = header_model(source.payload, source.seq);
    assert(a.ref_frame_idx =~= b.ref_frame_idx);
    assert(a.loop_filter_level =~= b.loop_filter_level);
    assert(a.loop_filter_deltas.loop_filter_ref_deltas
        =~= b.loop_filter_deltas.loop_filter_ref_deltas);
    assert(a.loop_filter_deltas.loop_filter_mode_deltas
        =~= b.loop_filter_deltas.loop_filter_mode_deltas);
    assert(a.cdef_y_strength@ =~= b.cdef_y_strength@);
    assert(a.cdef_uv_strength@ =~= b.cdef_uv_strength@);
}

proof fn lemma_same_tile(
    d: Seq<u8>,
    a: FrameHeader,
    b: FrameHeader,
    seq: SequenceHeaderObu,
    refs: Seq<Option<Planes>>,
    coeff: TileCdfs,
    modes: ModeDefaults,
    i: int,
    t: TraceModel,
)
    requires
        same_frame(a, b),
    ensures
        tile_planes(d, a, seq, refs, coeff, modes, i, t) == tile_planes(
            d,
            b,
            seq,
            refs,
            coeff,
            modes,
            i,
            t,
        ),
{
    reveal(tile_planes);
    assert(frame_config(a, seq, i) == frame_config(b, seq, i));
}

proof fn lemma_same_frame_after(
    units: Seq<(u8, Seq<u8>)>,
    a: FrameHeader,
    b: FrameHeader,
    seq: SequenceHeaderObu,
    refs: Seq<Option<Planes>>,
    coeff: TileCdfs,
    modes: ModeDefaults,
    t: TraceModel,
    n: int,
)
    requires
        same_frame(a, b),
    ensures
        frame_after(units, a, seq, refs, coeff, modes, t, n) == frame_after(
            units,
            b,
            seq,
            refs,
            coeff,
            modes,
            t,
            n,
        ),
    decreases n,
{
    if n > 0 {
        lemma_same_frame_after(units, a, b, seq, refs, coeff, modes, t, n - 1);
        let x = frame_after(units, a, seq, refs, coeff, modes, t, n - 1);
        match x.0 {
            Ok((_, i)) => {
                lemma_same_tile(units[n - 1].1, a, b, seq, refs, coeff, modes, i, x.1);
            },
            Err(_) => {},
        }
    }
}

/// Reconstruction depends on a header only by what the payload codes.
pub proof fn lemma_same_outcome(
    units: Seq<(u8, Seq<u8>)>,
    a: FrameHeader,
    b: FrameHeader,
    seq: SequenceHeaderObu,
    refs: Seq<Option<Planes>>,
    tables: Tables,
    t: TraceModel,
)
    requires
        same_frame(a, b),
    ensures
        frame_outcome(units, a, seq, refs, tables, t) == frame_outcome(
            units,
            b,
            seq,
            refs,
            tables,
            t,
        ),
{
    lemma_same_frame_after(
        units,
        a,
        b,
        seq,
        refs,
        tables.coeff[q_bucket(a.base_q_idx as int)],
        tables.modes,
        t,
        units.len() as int,
    );
}

/// No unit has more payload than the packet has bytes.
pub proof fn lemma_payloads(d: Seq<u8>, i: int)
    requires
        0 <= i < obus_of(d).len(),
    ensures
        obus_of(d)[i].payload.len() <= d.len(),
    decreases d.len(),
{
    let (end, o) = choose|end: int, o: ObuModel| #[trigger]
        obu_spans(d, end, o) && 1 <= end <= d.len();
    if header_sized(d[0]) {
        let t = d.skip(header_len(d[0]));
        let n = choose|n: int|
            {
                &&& #[trigger] leb128_spans(t, n)
                &&& end == header_len(d[0]) + n + leb128_value(t, n)
                &&& o.payload == d.subrange(header_len(d[0]) + n, end)
            };
        lemma_leb128_range(t, n);
    }
    assert(o.payload.len() <= d.len());
    if i > 0 {
        lemma_payloads(d.skip(end), i - 1);
    }
}

/// Nothing happens behind a unit that stops the packet.
pub proof fn lemma_run_stops(
    r: RunModel,
    units: Seq<ObuModel>,
    tables: Tables,
    m: int,
    n: int,
)
    requires
        m <= n,
        run_after(r, units, tables, m).1,
    ensures
        run_after(r, units, tables, n) == run_after(r, units, tables, m),
    decreases n - m,
{
    if m < n {
        lemma_run_stops(r, units, tables, m, n - 1);
    }
}

/// The same state, as one that has met a frame and shown nothing.
pub open spec fn bare_run(d: DecoderModel) -> RunModel {
    RunModel { dec: d, pending: None, produced: true, shown: None }
}

/// A run goes on with what a step from a bare state did and showed.
pub open spec fn goes_on(r: RunModel, q: RunModel) -> RunModel {
    RunModel {
        dec: q.dec,
        shown: if q.shown is Some {
            q.shown
        } else {
            r.shown
        },
        ..r
    }
}

/// What a step does to the decoder does not depend on how far the run is.
pub proof fn lemma_goes_on(
    r: RunModel,
    seq: SequenceHeaderObu,
    source: HeaderSource,
    units: Seq<(u8, Seq<u8>)>,
    d: Seq<u8>,
    slot: int,
    tables: Tables,
)
    ensures
        frame_finished(r, seq, source, units, tables) == goes_on(
            r,
            frame_finished(bare_run(r.dec), seq, source, units, tables),
        ),
        frame_unit(r, d, seq, tables) == goes_on(r, frame_unit(bare_run(r.dec), d, seq, tables)),
        existing_shown(r, source, slot) == goes_on(
            r,
            existing_shown(bare_run(r.dec), source, slot),
        ),
{
    reveal(frame_finished);
    reveal(frame_unit);
    reveal(existing_shown);
}

// ---------------------------------------------------------------------------
// Laws
// ---------------------------------------------------------------------------

proof fn lemma_unit_keeps_strict(r: RunModel, o: ObuModel, tables: Tables)
    ensures
        unit_done(r, o, tables).dec.strict == r.dec.strict,
{
    reveal(frame_finished);
    reveal(frame_unit);
    reveal(header_unit);
    reveal(existing_shown);
}

proof fn lemma_run_keeps_strict(r: RunModel, units: Seq<ObuModel>, tables: Tables, n: int)
    ensures
        run_after(r, units, tables, n).0.dec.strict == r.dec.strict,
    decreases n,
{
    if n > 0 {
        lemma_run_keeps_strict(r, units, tables, n - 1);
        lemma_unit_keeps_strict(run_after(r, units, tables, n - 1).0, units[n - 1], tables);
    }
}

/// The state at the end of a packet that no unit stops.
pub open spec fn packet_end(d: DecoderModel, tables: Tables, data: Seq<u8>) -> RunModel {
    let units = obus_of(data);
    run_ended(run_after(run_started(d), units, tables, units.len() as int).0, tables)
}

/// A unit stops the packet.
pub open spec fn packet_stops(d: DecoderModel, tables: Tables, data: Seq<u8>) -> bool {
    let units = obus_of(data);
    run_after(run_started(d), units, tables, units.len() as int).1
}

/// No packet turns strict mode on or off.
pub proof fn law_strict_stays(d: DecoderModel, tables: Tables, data: Seq<u8>, key: bool)
    ensures
        packet_decoded(d, tables, data, key).0.strict == d.strict,
{
    reveal(frame_finished);
    let units = obus_of(data);
    lemma_run_keeps_strict(run_started(d), units, tables, units.len() as int);
}

/// In strict mode a packet never returns a placeholder: what it returns is a picture that
/// was to be shown.
pub proof fn law_strict_shows_no_placeholder(
    d: DecoderModel,
    tables: Tables,
    data: Seq<u8>,
    key: bool,
)
    requires
        d.strict,
    ensures
        match packet_decoded(d, tables, data, key).1 {
            Ok(Some(m)) => packet_end(d, tables, data).shown == Some(m),
            Ok(None) => !packet_end(d, tables, data).produced,
            Err(KinetixError::NotPixelExact) => packet_end(d, tables, data).produced
                && packet_end(d, tables, data).shown is None,
            Err(_) => packet_stops(d, tables, data),
        },
{
    reveal(frame_finished);
    let units = obus_of(data);
    lemma_run_keeps_strict(run_started(d), units, tables, units.len() as int);
}

/// Outside strict mode a packet fails only where a unit stops it.
pub proof fn law_lenient_fails_only_when_stopped(
    d: DecoderModel,
    tables: Tables,
    data: Seq<u8>,
    key: bool,
)
    requires
        !d.strict,
    ensures
        packet_decoded(d, tables, data, key).1 is Err <==> packet_stops(d, tables, data),
        packet_decoded(d, tables, data, key).1 matches Err(e) ==> e == truncated(),
{
    reveal(frame_finished);
    let units = obus_of(data);
    lemma_run_keeps_strict(run_started(d), units, tables, units.len() as int);
}

/// A packet without units returns nothing and leaves all but what belongs to a packet: the
/// last frame header and the tile groups.
pub proof fn law_empty_packet(d: DecoderModel, tables: Tables, data: Seq<u8>, key: bool)
    requires
        obus_of(data).len() == 0,
    ensures
        packet_decoded(d, tables, data, key) == (
            DecoderModel { header: None, groups: seq![], ..d },
            Ok::<Option<FrameModel>, KinetixError>(None),
        ),
{
}

/// The payloads of the tile groups among the first `n` units.
pub open spec fn group_payloads(units: Seq<ObuModel>, n: int) -> Seq<Seq<u8>>
    decreases n,
{
    if n <= 0 {
        seq![]
    } else if units[n - 1].obu_type == ObuType::TileGroup {
        group_payloads(units, n - 1).push(units[n - 1].payload)
    } else {
        group_payloads(units, n - 1)
    }
}

proof fn lemma_run_without_sequence(
    d: DecoderModel,
    units: Seq<ObuModel>,
    tables: Tables,
    n: int,
)
    requires
        d.seq is None,
        0 <= n <= units.len(),
        forall|i: int|
            0 <= i < units.len() ==> (#[trigger] units[i]).obu_type != ObuType::SequenceHeader,
    ensures
        run_after(run_started(d), units, tables, n) == (
            RunModel {
                dec: DecoderModel { header: None, groups: group_payloads(units, n), ..d },
                ..run_started(d)
            },
            false,
        ),
    decreases n,
{
    if n > 0 {
        lemma_run_without_sequence(d, units, tables, n - 1);
        assert(units[n - 1].obu_type != ObuType::SequenceHeader);
    }
}

/// Before the first sequence header nothing is decoded; tile groups are but noted.
pub proof fn law_nothing_without_sequence(
    d: DecoderModel,
    tables: Tables,
    data: Seq<u8>,
    key: bool,
)
    requires
        d.seq is None,
        forall|i: int|
            0 <= i < obus_of(data).len() ==> (#[trigger] obus_of(data)[i]).obu_type
                != ObuType::SequenceHeader,
    ensures
        packet_decoded(d, tables, data, key) == (
            DecoderModel {
                header: None,
                groups: group_payloads(obus_of(data), obus_of(data).len() as int),
                ..d
            },
            Ok::<Option<FrameModel>, KinetixError>(None),
        ),
{
    lemma_run_without_sequence(d, obus_of(data), tables, obus_of(data).len() as int);
}

proof fn lemma_unit_groups(r: RunModel, o: ObuModel, tables: Tables)
    requires
        o.obu_type != ObuType::Frame,
    ensures
        unit_done(r, o, tables).dec.groups == if o.obu_type == ObuType::TileGroup {
            r.dec.groups.push(o.payload)
        } else {
            r.dec.groups
        },
{
    reveal(header_unit);
    reveal(existing_shown);
}

proof fn lemma_run_groups(r: RunModel, units: Seq<ObuModel>, tables: Tables, n: int)
    requires
        r.dec.groups.len() == 0,
        0 <= n <= units.len(),
        forall|i: int| 0 <= i < units.len() ==> (#[trigger] units[i]).obu_type != ObuType::Frame,
        !run_after(r, units, tables, n).1,
    ensures
        run_after(r, units, tables, n).0.dec.groups == group_payloads(units, n),
    decreases n,
{
    if n > 0 {
        lemma_run_groups(r, units, tables, n - 1);
        assert(units[n - 1].obu_type != ObuType::Frame);
        lemma_unit_groups(run_after(r, units, tables, n - 1).0, units[n - 1], tables);
    } else {
        assert(r.dec.groups =~= seq![]);
    }
}

/// After a packet whose frames come in units of their own, the tile groups are the
/// payloads of its tile group units, in order.
pub proof fn law_tile_groups(d: DecoderModel, tables: Tables, data: Seq<u8>, key: bool)
    requires
        forall|i: int|
            0 <= i < obus_of(data).len() ==> (#[trigger] obus_of(data)[i]).obu_type
                != ObuType::Frame,
        !packet_stops(d, tables, data),
    ensures
        packet_decoded(d, tables, data, key).0.groups == group_payloads(
            obus_of(data),
            obus_of(data).len() as int,
        ),
{
    reveal(frame_finished);
    let units = obus_of(data);
    lemma_run_groups(run_started(d), units, tables, units.len() as int);
}

/// A picture that was kept in a slot is the one that is shown from that slot.
pub proof fn law_shows_what_was_kept(
    r: RunModel,
    source: HeaderSource,
    store: Seq<Option<Planes>>,
    flags: int,
    m: FrameModel,
    slot: int,
)
    requires
        store.len() == 8,
        0 <= slot < 8,
        flag_bit(flags, slot),
        0 <= m.width <= 0x1_0000,
        0 <= m.height <= 0x1_0000,
        m.data.len() == luma_area(m.width, m.height) + 2 * chroma_area(m.width, m.height),
        r.dec.store == refreshed(store, flags, m.planes()),
    ensures
        existing_shown(r, source, slot).shown matches Some(s) && s.data == m.data && s.width == m.width
            && s.height == m.height,
{
    reveal(existing_shown);
    lemma_areas(m.width, m.height);
    let p = m.planes();
    assert(p.y + p.u + p.v =~= m.data);
}

/// The same decoder in strict mode, or not.
pub open spec fn with_strict(d: DecoderModel, strict: bool) -> DecoderModel {
    DecoderModel { strict, ..d }
}

/// The same run of a decoder in strict mode, or not.
pub open spec fn run_with_strict(r: RunModel, strict: bool) -> RunModel {
    RunModel { dec: with_strict(r.dec, strict), ..r }
}

proof fn lemma_finished_alike(
    r: RunModel,
    seq: SequenceHeaderObu,
    source: HeaderSource,
    units: Seq<(u8, Seq<u8>)>,
    tables: Tables,
    strict: bool,
)
    ensures
        frame_finished(run_with_strict(r, strict), seq, source, units, tables) == run_with_strict(
            frame_finished(r, seq, source, units, tables),
            strict,
        ),
{
    reveal(frame_finished);
}

proof fn lemma_unit_alike(r: RunModel, o: ObuModel, tables: Tables, strict: bool)
    ensures
        unit_done(run_with_strict(r, strict), o, tables) == run_with_strict(
            unit_done(r, o, tables),
            strict,
        ),
{
    reveal(frame_finished);
    reveal(frame_unit);
    reveal(header_unit);
    reveal(existing_shown);
}

proof fn lemma_run_alike(
    r: RunModel,
    units: Seq<ObuModel>,
    tables: Tables,
    n: int,
    strict: bool,
)
    ensures
        run_after(run_with_strict(r, strict), units, tables, n) == (
            run_with_strict(run_after(r, units, tables, n).0, strict),
            run_after(r, units, tables, n).1,
        ),
    decreases n,
{
    if n > 0 {
        lemma_run_alike(r, units, tables, n - 1, strict);
        lemma_unit_alike(run_after(r, units, tables, n - 1).0, units[n - 1], tables, strict);
    }
}

proof fn lemma_produced_under_sequence(
    r: RunModel,
    units: Seq<ObuModel>,
    tables: Tables,
    n: int,
)
    requires
        r.produced ==> r.dec.seq is Some,
    ensures
        run_after(r, units, tables, n).0.produced ==> run_after(r, units, tables, n).0.dec.seq
            is Some,
    decreases n,
{
    if n > 0 {
        lemma_produced_under_sequence(r, units, tables, n - 1);
        reveal(frame_finished);
        reveal(frame_unit);
        reveal(header_unit);
        reveal(existing_shown);
    }
}

/// The packet ends in a placeholder: nothing stops it, and it has frames of which none is
/// shown.
pub open spec fn ends_in_placeholder(d: DecoderModel, tables: Tables, data: Seq<u8>) -> bool {
    let r = packet_end(d, tables, data);
    &&& !packet_stops(d, tables, data)
    &&& r.produced
    &&& r.shown is None
}

/// A strict and a lenient decoder agree but where the packet ends in a placeholder, which
/// the strict one refuses.
pub proof fn law_strict_and_lenient(d: DecoderModel, tables: Tables, data: Seq<u8>, key: bool)
    requires
        !d.strict,
    ensures
        ({
            let (l, r0) = packet_decoded(d, tables, data, key);
            let (s, r1) = packet_decoded(with_strict(d, true), tables, data, key);
            &&& r0 != Err::<Option<FrameModel>, KinetixError>(KinetixError::NotPixelExact)
            &&& r1 == Err::<Option<FrameModel>, KinetixError>(KinetixError::NotPixelExact)
                <==> ends_in_placeholder(d, tables, data)
            &&& ends_in_placeholder(d, tables, data) ==> {
                let e = packet_end(d, tables, data).dec;
                &&& s == with_strict(e, true)
                &&& match e.seq {
                    Some(q) => r0 == Ok::<Option<FrameModel>, KinetixError>(
                        Some(placeholder(q, e.count, key)),
                    ) || placeholder_len(
                        q.max_frame_width_minus_1 + 1,
                        q.max_frame_height_minus_1 + 1,
                    ) > usize::MAX,
                    None => false,
                }
            }
            &&& !ends_in_placeholder(d, tables, data) ==> r1 == r0 && s == with_strict(l, true)
        }),
{
    let units = obus_of(data);
    let n = units.len() as int;
    lemma_run_alike(run_started(d), units, tables, n, true);
    lemma_run_keeps_strict(run_started(d), units, tables, n);
    lemma_produced_under_sequence(run_started(d), units, tables, n);
    assert(run_started(with_strict(d, true)) == run_with_strict(run_started(d), true));
    let r = run_after(run_started(d), units, tables, n).0;
    match (r.pending, r.dec.seq) {
        (Some(p), Some(seq)) => {
            lemma_finished_alike(r, seq, p.source, p.units, tables, true);
        },
        _ => {},
    }
    reveal(frame_finished);
}

/// A frame that is shown takes the place of one that was shown before it in the packet; one
/// that is not shown leaves it. Either way it is kept in the slots that its header flags,
/// with its order hint, and the other slots stay.
pub proof fn law_finished_frame(
    r: RunModel,
    seq: SequenceHeaderObu,
    source: HeaderSource,
    units: Seq<(u8, Seq<u8>)>,
    tables: Tables,
    m: FrameModel,
    slot: int,
)
    requires
        r.dec.store.len() == 8,
        r.dec.hints.len() == 8,
        0 <= slot < 8,
        can_hold(source.header().width as int, source.header().height as int),
        frame_outcome(units, source.header(), seq, r.dec.store, tables, r.dec.trace).0 == Ok::<
            FrameModel,
            KinetixError,
        >(m),
    ensures
        ({
            let after = frame_finished(r, seq, source, units, tables);
            let fh = source.header();
            &&& after.dec.header == Some(source)
            &&& fh.show_frame ==> after.shown == Some(m)
            &&& !fh.show_frame ==> after.shown == r.shown
            &&& flag_bit(fh.refresh_frame_flags as int, slot) ==> after.dec.store[slot] == Some(
                m.planes(),
            ) && after.dec.hints[slot] == fh.order_hint as u8
            &&& !flag_bit(fh.refresh_frame_flags as int, slot) ==> after.dec.store[slot]
                == r.dec.store[slot] && after.dec.hints[slot] == r.dec.hints[slot]
        }),
{
    reveal(frame_finished);
}

/// What a packet returns is the last picture that it shows.
pub proof fn law_last_picture_returned(d: DecoderModel, tables: Tables, data: Seq<u8>, key: bool)
    requires
        !packet_stops(d, tables, data),
        packet_end(d, tables, data).shown is Some,
    ensures
        packet_decoded(d, tables, data, key).1 == Ok::<Option<FrameModel>, KinetixError>(
            packet_end(d, tables, data).shown,
        ),
{
}

} // verus!
