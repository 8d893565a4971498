//! A record of the symbols that a decoder reads, with markers for the blocks they belong
//! to.
use vstd::prelude::*;

verus! {

/// One read of a symbol.
#[derive(Debug, Clone, Copy, PartialEq, Eq, Structural)]
pub struct SymbolTraceEntry {
    /// The number of the read in its trace.
    pub seq: usize,
    /// The number of symbols of the alphabet.
    pub n_symbols: usize,
    /// The symbol that was read.
    pub value: usize,
    /// The position of the next bit before the read.
    pub bit_pos_before: usize,
    /// The position of the next bit after the read.
    pub bit_pos_after: usize,
}

/// What the reads from a place in a trace on belong to.
#[derive(Debug, Clone)]
pub struct BlockMarker {
    /// The number of the first read.
    pub trace_seq: usize,
    pub label: String,
}

/// The model of a marker: the number of the first read and the label.
pub open spec fn marker_model(m: BlockMarker) -> (int, Seq<char>) {
    (m.trace_seq as int, m.label@)
}

/// A trace. Reads are kept only while it is on.
pub struct SymbolTrace {
    entries: Option<Vec<SymbolTraceEntry>>,
    markers: Option<Vec<BlockMarker>>,
}

/// The model of a trace.
#[verifier::ext_equal]
pub struct TraceModel {
    /// The reads; none where the trace is off.
    pub entries: Option<Seq<SymbolTraceEntry>>,
    pub markers: Option<Seq<(int, Seq<char>)>>,
}

/// A trace that is off.
pub open spec fn no_trace() -> TraceModel {
    TraceModel { entries: None, markers: None }
}

impl TraceModel {
    /// The number of reads that are kept.
    pub open spec fn reads(self) -> int {
        match self.entries {
            Some(e) => e.len() as int,
            None => 0,
        }
    }

    /// The markers that are kept.
    pub open spec fn marked(self) -> Seq<(int, Seq<char>)> {
        match self.markers {
            Some(m) => m,
            None => seq![],
        }
    }

    /// The reads are numbered in order.
    pub open spec fn numbered(self) -> bool {
        match self.entries {
            Some(e) => forall|i: int| 0 <= i < e.len() ==> (#[trigger] e[i]).seq == i,
            None => true,
        }
    }
}

impl View for SymbolTrace {
    type V = TraceModel;

    closed spec fn view(&self) -> TraceModel {
        TraceModel {
            entries: match self.entries {
                Some(e) => Some(e@),
                None => None,
            },
            markers: match self.markers {
                Some(m) => Some(m@.map_values(|k: BlockMarker| marker_model(k))),
                None => None,
            },
        }
    }
}

impl SymbolTrace {
    /// A trace that is off.
    pub fn new() -> (r: Self)
        ensures
            r@ == no_trace(),
    {
        SymbolTrace { entries: None, markers: None }
    }
}

/// Turns a trace on and empties it.
pub fn enable_symbol_trace(t: &mut SymbolTrace)
    ensures
        final(t)@ == (TraceModel { entries: Some(seq![]), markers: Some(seq![]) }),
{
    t.entries = Some(Vec::new());
    t.markers = Some(Vec::new());
    assert(t@.entries->Some_0 =~= seq![]);
    assert(t@.markers->Some_0 =~= seq![]);
}

/// Whether a trace is on.
pub fn symbol_trace_enabled(t: &SymbolTrace) -> (r: bool)
    ensures
        r == (t@.entries is Some),
{
    t.entries.is_some()
}

/// Takes the reads out of a trace and turns it off. The markers stay.
pub fn take_symbol_trace(t: &mut SymbolTrace) -> (r: Vec<SymbolTraceEntry>)
    ensures
        final(t)@ == (TraceModel { entries: None, ..old(t)@ }),
        match old(t)@.entries {
            Some(e) => r@ == e,
            None => r@.len() == 0,
        },
{
    let mut taken: Option<Vec<SymbolTraceEntry>> = None;
    core::mem::swap(&mut taken, &mut t.entries);
    match taken {
        Some(v) => v,
        None => Vec::new(),
    }
}

/// The symbols that were read.
pub fn symbol_trace_values(t: &SymbolTrace) -> (r: Vec<usize>)
    ensures
        r@.len() == t@.reads(),
        forall|i: int|
            0 <= i < t@.reads() ==> #[trigger] r@[i] == (t@.entries->Some_0)[i].value,
{
    let mut values: Vec<usize> = Vec::new();
    if let Some(entries) = &t.entries {
        let mut i: usize = 0;
        while i < entries.len()
            invariant
                i <= entries@.len(),
                values@.len() == i,
                forall|k: int| 0 <= k < i ==> #[trigger] values@[k] == entries@[k].value,
            decreases entries.len() - i,
        {
            values.push(entries[i].value);
            i = i + 1;
        }
    }
    values
}

/// The number of reads that are kept.
pub fn symbol_trace_len_now(t: &SymbolTrace) -> (r: usize)
    ensures
        r == t@.reads(),
{
    symbol_trace_len(t)
}

/// The number of reads that are kept, which is the number of the next read.
pub fn symbol_trace_len(t: &SymbolTrace) -> (r: usize)
    ensures
        r == t@.reads(),
{
    match &t.entries {
        Some(v) => v.len(),
        None => 0,
    }
}

/// The trace after a read.
pub open spec fn recorded(t: TraceModel, n: int, value: int, before: int, after: int) -> TraceModel {
    match t.entries {
        Some(e) => TraceModel {
            entries: Some(
                e.push(
                    SymbolTraceEntry {
                        seq: e.len() as usize,
                        n_symbols: n as usize,
                        value: value as usize,
                        bit_pos_before: before as usize,
                        bit_pos_after: after as usize,
                    },
                ),
            ),
            ..t
        },
        None => t,
    }
}

/// Keeps a read, where the trace is on.
pub(crate) fn push_symbol_trace(
    t: &mut SymbolTrace,
    n_symbols: usize,
    value: usize,
    bit_pos_before: usize,
    bit_pos_after: usize,
)
    ensures
        final(t)@ == recorded(
            old(t)@,
            n_symbols as int,
            value as int,
            bit_pos_before as int,
            bit_pos_after as int,
        ),
{
    let mut taken: Option<Vec<SymbolTraceEntry>> = None;
    core::mem::swap(&mut taken, &mut t.entries);
    if let Some(v) = taken {
        let mut v: Vec<SymbolTraceEntry> = v;
        let seq: usize = v.len();
        v.push(SymbolTraceEntry { seq, n_symbols, value, bit_pos_before, bit_pos_after });
        t.entries = Some(v);
    }
}

/// Marks the place of the next read, where the trace is on. The label is made only then.
pub fn mark_block<F: FnOnce() -> String>(t: &mut SymbolTrace, label: F)
    requires
        old(t)@.entries is Some ==> call_requires(label, ()),
    ensures
        old(t)@.entries is None ==> final(t)@ == old(t)@,
        old(t)@.entries is Some ==> {
            &&& final(t)@.entries == old(t)@.entries
            &&& exists|s: String| #[trigger]
                call_ensures(label, (), s) && final(t)@.markers == Some(
                    old(t)@.marked().push((old(t)@.reads(), s@)),
                )
        },
{
    if !symbol_trace_enabled(t) {
        return;
    }
    let trace_seq: usize = symbol_trace_len(t);
    let text: String = label();
    let ghost before = t@.marked();
    let mut taken: Option<Vec<BlockMarker>> = None;
    core::mem::swap(&mut taken, &mut t.markers);
    let mut markers: Vec<BlockMarker> = match taken {
        Some(m) => m,
        None => Vec::new(),
    };
    let ghost m0 = markers@;
    assert(m0.map_values(|k: BlockMarker| marker_model(k)) =~= before);
    let marker: BlockMarker = BlockMarker { trace_seq, label: text };
    markers.push(marker);
    assert(markers@.map_values(|k: BlockMarker| marker_model(k)) =~= before.push(
        marker_model(marker),
    ));
    t.markers = Some(markers);
    assert(call_ensures(label, (), text));
}

/// Takes the markers out of a trace.
pub fn take_block_markers(t: &mut SymbolTrace) -> (r: Vec<BlockMarker>)
    ensures
        final(t)@ == (TraceModel { markers: None, ..old(t)@ }),
        r@.map_values(|k: BlockMarker| marker_model(k)) == old(t)@.marked(),
{
    let mut taken: Option<Vec<BlockMarker>> = None;
    core::mem::swap(&mut taken, &mut t.markers);
    let r: Vec<BlockMarker> = match taken {
        Some(v) => v,
        None => Vec::new(),
    };
    assert(r@.map_values(|k: BlockMarker| marker_model(k)) =~= old(t)@.marked());
    r
}

/// The reads of a trace stay numbered in order.
pub proof fn law_reads_are_numbered(
    t: TraceModel,
    n: int,
    value: int,
    before: int,
    after: int,
)
    requires
        t.numbered(),
        t.reads() <= usize::MAX,
    ensures
        recorded(t, n, value, before, after).numbered(),
        t.entries is Some ==> recorded(t, n, value, before, after).reads() == t.reads() + 1,
        t.entries is None ==> recorded(t, n, value, before, after) == t,
{
}

} // verus!
