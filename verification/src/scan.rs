//! The `read_mft` scan: one batch of timeline rows at a time over a list of sources,
//! resumable between batches.
//!
//! A scan threads the byte-offset cursor and the parent-resolver index as its state,
//! so a child seen in a late batch still resolves against an early parent, and a scan
//! that was torn down and rebuilt goes on where it stopped. File sources are read by
//! the caller: the scan asks for a file's bytes when it comes to it.

use std::collections::BTreeMap;

use vstd::prelude::*;

use crate::attribute::{attributes_fit, MAX_ATTRS};
use crate::batches::law_produce_yields_the_batches;
use crate::cursor::{
    nodes, MftCursor, MftScanState, NodeModel, ResolverNode, DEFAULT_MAX_DEPTH,
};
use crate::decoder::{count_of, index_of, record_at, slot_outcome, stride_of, Decoder};
use crate::errors::opt_text;
use crate::options::Mode;
use crate::parse::OutcomeModel;
use crate::record::{decodable, lemma_decoded_streams, RecordModel, RESIDENT_CAP};
use crate::resolver::ROOT_ENTRY;
use crate::timeline::{emit, rows_model, rows_of, shown_streams, EmitRow, RowModel};

verus! {

/// Rows that complete a batch. The last record of a batch may go over it.
pub const BATCH_ROWS: usize = 2048;

/// A single source: a named file path, or an inline blob.
#[derive(Clone, Debug, PartialEq, Eq)]
pub enum SourceRef {
    File(String),
    Blob(Vec<u8>),
}

/// What a [`SourceRef`] holds.
pub enum SourceModel {
    File(Seq<char>),
    Blob(Seq<u8>),
}

impl View for SourceRef {
    type V = SourceModel;

    open spec fn view(&self) -> SourceModel {
        match self {
            SourceRef::File(p) => SourceModel::File(p@),
            SourceRef::Blob(b) => SourceModel::Blob(b@),
        }
    }
}

impl SourceModel {
    /// The name of a source: its path, or `<blob>`.
    pub open spec fn label(self) -> Seq<char> {
        match self {
            SourceModel::File(p) => p,
            SourceModel::Blob(_) => "<blob>"@,
        }
    }
}

impl SourceRef {
    pub fn label(&self) -> (r: String)
        ensures
            r@ == self@.label(),
    {
        match self {
            SourceRef::File(p) => p.clone(),
            SourceRef::Blob(_) => "<blob>".to_string(),
        }
    }
}

/// The contents of a list of sources.
pub open spec fn sources_model(sources: Seq<SourceRef>) -> Seq<SourceModel> {
    sources.map_values(|s: SourceRef| s@)
}

/// The scan: what it reads, where it is, and the rows of the batch in progress.
pub struct ReadMftProducer {
    sources: Vec<SourceRef>,
    host: Option<String>,
    mode: Mode,
    /// Index of the source currently being read.
    source_idx: usize,
    /// The decoder for the current source (built on first touch).
    decoder: Option<Decoder>,
    /// The parent-resolver index for the current source (carried in scan state).
    resolver: BTreeMap<u64, ResolverNode>,
    /// Next entry index within the current source.
    entry_cursor: u64,
    /// Total rows emitted so far.
    records_emitted: u64,
    /// A scan state to restore before the next row.
    pending_resume: Option<MftScanState>,
    /// The rows of the batch in progress.
    rows: Vec<EmitRow>,
}

/// The contents of a [`ReadMftProducer`].
#[verifier::ext_equal]
pub struct ScanModel {
    pub sources: Seq<SourceModel>,
    pub host: Option<Seq<char>>,
    pub mode: Mode,
    pub source_idx: nat,
    /// The image of the current source, once it is open.
    pub open: Option<Seq<u8>>,
    pub index: Map<u64, NodeModel>,
    pub cursor: nat,
    pub emitted: nat,
    pub pending: Option<MftScanState>,
    pub rows: Seq<RowModel>,
}

/// Whether a scan took a step, or why it did not.
enum Pause {
    Going,
    Full,
    Exhausted,
    Load(String),
}

/// What the scan needs or has after a step.
#[derive(Debug)]
pub enum ScanStep {
    /// The bytes of this file are needed.
    Load(String),
    /// A batch of rows.
    Batch(Vec<EmitRow>),
    /// The scan is exhausted.
    Done,
}

/// A number as 64 bits hold it: where it is too large it starts again from zero.
pub open spec fn wrapped(n: nat) -> nat {
    n % 0x1_0000_0000_0000_0000
}

/// A scan that has not read anything.
pub open spec fn fresh_scan(
    sources: Seq<SourceModel>,
    host: Option<Seq<char>>,
    mode: Mode,
) -> ScanModel {
    ScanModel {
        sources,
        host,
        mode,
        source_idx: 0,
        open: None,
        index: Map::empty(),
        cursor: 0,
        emitted: 0,
        pending: None,
        rows: Seq::empty(),
    }
}

impl View for ReadMftProducer {
    type V = ScanModel;

    closed spec fn view(&self) -> ScanModel {
        ScanModel {
            sources: sources_model(self.sources@),
            host: opt_text(self.host),
            mode: self.mode,
            source_idx: self.source_idx as nat,
            open: match self.decoder {
                Some(d) => Some(d.image()),
                None => None,
            },
            index: nodes(self.resolver@),
            cursor: self.entry_cursor as nat,
            emitted: self.records_emitted as nat,
            pending: self.pending_resume,
            rows: rows_model(self.rows@),
        }
    }
}

/// Whether the current source is open.
#[derive(Debug)]
pub enum Opening {
    /// It is.
    Open,
    /// The bytes of this file are needed.
    Load(String),
    /// All sources are exhausted.
    Exhausted,
}

/// Why a scan stops.
pub enum Stop {
    /// The batch has its rows.
    Full,
    /// All sources are exhausted.
    Exhausted,
    /// A file is needed.
    Load(Seq<char>),
}

/// One step of a scan, or why it stops.
pub enum Step {
    Go(ScanModel),
    Halt(Stop),
}

impl ScanModel {
    /// The current source, if there is one left.
    pub open spec fn current(self) -> Option<SourceModel> {
        if self.source_idx < self.sources.len() {
            Some(self.sources[self.source_idx as int])
        } else {
            None
        }
    }

    /// The host label of the current source: the given one, else the filename.
    pub open spec fn host_label(self) -> Option<Seq<char>> {
        if self.host is Some {
            self.host
        } else {
            match self.current() {
                Some(SourceModel::File(p)) => Some(p),
                _ => None,
            }
        }
    }

    /// The scan with the current source open. The path index is built only where none
    /// was carried in.
    pub open spec fn opened(self, bytes: Seq<u8>) -> ScanModel {
        ScanModel {
            open: Some(bytes),
            index: if self.index.dom().is_empty() {
                index_of(bytes, RESIDENT_CAP, Map::empty())
            } else {
                self.index
            },
            ..self
        }
    }

    /// The scan at the next source, without what belonged to the last.
    pub open spec fn advanced(self) -> ScanModel {
        ScanModel {
            open: None,
            index: Map::empty(),
            cursor: 0,
            source_idx: self.source_idx + 1,
            ..self
        }
    }

    /// The rows of entry `n` of the open source.
    pub open spec fn entry_rows(self, bytes: Seq<u8>, n: u64) -> Seq<RowModel> {
        slot_rows(bytes, n, self.index, self.host_label(), self.mode)
    }

    /// The scan after the next entry of the open source, at the next source if that
    /// was the last entry.
    pub open spec fn past_entry(self, bytes: Seq<u8>) -> ScanModel {
        let more = self.entry_rows(bytes, self.cursor as u64);
        let after = ScanModel {
            cursor: self.cursor + 1,
            emitted: wrapped(self.emitted + more.len()),
            rows: self.rows + more,
            ..self
        };
        if self.cursor + 1 >= count_of(bytes) {
            after.advanced()
        } else {
            after
        }
    }

    /// The next step.
    #[verifier::opaque]
    pub open spec fn next(self) -> Step {
        if self.rows.len() >= BATCH_ROWS {
            Step::Halt(Stop::Full)
        } else {
            match self.open {
                None => match self.current() {
                    None => Step::Halt(Stop::Exhausted),
                    Some(SourceModel::File(p)) => Step::Halt(Stop::Load(p)),
                    Some(SourceModel::Blob(b)) => Step::Go(self.opened(b)),
                },
                Some(bytes) => if self.current() is None {
                    Step::Halt(Stop::Exhausted)
                } else if self.cursor >= count_of(bytes) {
                    Step::Go(self.advanced())
                } else {
                    Step::Go(self.past_entry(bytes))
                },
            }
        }
    }

    /// Sources that are not done.
    pub open spec fn sources_left(self) -> nat {
        if self.source_idx < self.sources.len() {
            (self.sources.len() - self.source_idx) as nat
        } else {
            0
        }
    }

    /// Entries of the open source that are not done.
    pub open spec fn entries_left(self) -> nat {
        match self.open {
            Some(bytes) => if self.cursor < count_of(bytes) {
                (count_of(bytes) - self.cursor) as nat
            } else {
                0
            },
            None => 0,
        }
    }

    /// Whether the current source is still to be opened (1) or open (0).
    pub open spec fn phase(self) -> nat {
        if self.open is None {
            1
        } else {
            0
        }
    }

    /// The scan after as many steps as it takes to stop.
    pub open spec fn run(self) -> ScanModel
        decreases self.sources_left(), self.phase(), self.entries_left(),
    {
        match self.next() {
            Step::Go(s) => {
                proof {
                    lemma_step_decreases(self, s);
                }
                s.run()
            },
            Step::Halt(_) => self,
        }
    }

    /// The scan with a pending state restored.
    pub open spec fn resumed(self) -> ScanModel {
        match self.pending {
            None => self,
            Some(state) => ScanModel {
                cursor: state.next_index() as nat,
                emitted: state.cursor.records_emitted as nat,
                source_idx: state.source_index as usize as nat,
                index: nodes(state.resolver@),
                open: None,
                pending: None,
                ..self
            },
        }
    }

    /// Whether the scan is inside its open source, or before the next one.
    pub open spec fn in_place(self) -> bool {
        match self.open {
            Some(bytes) => self.cursor <= count_of(bytes) && bytes.len() <= usize::MAX,
            None => self.cursor == 0,
        }
    }

    /// Whether the scan is at the start of a batch, with a source to read.
    pub open spec fn begins(self) -> bool {
        self.rows.len() == 0 && self.current() is Some
    }

    /// Whether memory can hold the image of the open source and each blob.
    pub open spec fn sized(self) -> bool {
        &&& self.open matches Some(bytes) ==> bytes.len() <= usize::MAX
        &&& forall|i: int|
            0 <= i < self.sources.len() ==> ((#[trigger] self.sources[i]) matches SourceModel::Blob(
                b,
            ) ==> b.len() <= usize::MAX)
    }

    /// The scan without the rows of the batch in progress.
    pub open spec fn emptied(self) -> ScanModel {
        ScanModel { rows: Seq::empty(), ..self }
    }

    /// The record stride of the open source; 1024 where none is open.
    pub open spec fn stride(self) -> u32 {
        match self.open {
            Some(bytes) => stride_of(bytes),
            None => 1024,
        }
    }
}

/// The rows of a record, if there is one.
pub open spec fn rows_for(
    rec: Option<RecordModel>,
    index: Map<u64, NodeModel>,
    host: Option<Seq<char>>,
    mode: Mode,
) -> Seq<RowModel> {
    match rec {
        Some(r) => rows_of(r, index, host, mode),
        None => Seq::empty(),
    }
}

/// The rows of slot `n` of an image.
#[verifier::opaque]
pub open spec fn slot_rows(
    bytes: Seq<u8>,
    n: u64,
    index: Map<u64, NodeModel>,
    host: Option<Seq<char>>,
    mode: Mode,
) -> Seq<RowModel> {
    rows_for(record_at(bytes, n, RESIDENT_CAP), index, host, mode)
}

/// Each step brings the scan nearer to its end.
pub proof fn lemma_step_decreases(s: ScanModel, t: ScanModel)
    requires
        s.next() == Step::Go(t),
    ensures
        ({
            ||| t.sources_left() < s.sources_left()
            ||| t.sources_left() == s.sources_left() && t.phase() < s.phase()
            ||| t.sources_left() == s.sources_left() && t.phase() == s.phase() && t.entries_left()
                < s.entries_left()
        }),
{
    reveal(ScanModel::next);
}

/// A run leaves what is scanned as it is, and goes past no source that is not there.
pub proof fn lemma_run_keeps(s: ScanModel)
    ensures
        s.run().sources == s.sources,
        s.run().host == s.host,
        s.run().mode == s.mode,
        s.run().pending == s.pending,
        s.source_idx <= s.sources.len() ==> s.run().source_idx <= s.sources.len(),
    decreases s.sources_left(), s.phase(), s.entries_left(),
{
    if let Step::Go(t) = s.next() {
        lemma_step_decreases(s, t);
        reveal(ScanModel::next);
        lemma_run_keeps(t);
    }
}

/// A run that starts inside its source ends so, and so does one that starts a batch
/// anywhere and completes it.
pub proof fn lemma_run_in_place(s: ScanModel)
    requires
        s.sized(),
    ensures
        s.in_place() ==> s.run().in_place(),
        s.begins() ==> s.run().in_place() || s.run().next() matches Step::Halt(Stop::Load(_)),
        s.run().sized(),
    decreases s.sources_left(), s.phase(), s.entries_left(),
{
    if let Step::Go(t) = s.next() {
        lemma_step_decreases(s, t);
        assert(t.sized() && (s.in_place() ==> t.in_place()) && (s.begins() ==> t.begins()
            || t.in_place())) by {
            reveal(ScanModel::next);
            if s.open is None {
                assert(s.sources[s.source_idx as int] == s.current()->0);
            }
        }
        lemma_run_in_place(t);
    } else {
        reveal(ScanModel::next);
    }
}

/// No entry has more rows than a record can have attributes, or one.
pub proof fn lemma_rows_bound(
    bytes: Seq<u8>,
    n: u64,
    index: Map<u64, NodeModel>,
    host: Option<Seq<char>>,
    mode: Mode,
)
    ensures
        slot_rows(bytes, n, index, host, mode).len() <= MAX_ATTRS,
{
    reveal(slot_rows);
    if let Some(rec) = record_at(bytes, n, RESIDENT_CAP) {
        lemma_streams_bound(bytes, n);
        assert(rows_of(rec, index, host, mode).len() == shown_streams(rec, mode).len());
    }
}

/// A record has fewer `$DATA` streams than the walk has attributes.
proof fn lemma_streams_bound(bytes: Seq<u8>, n: u64)
    requires
        record_at(bytes, n, RESIDENT_CAP) is Some,
    ensures
        record_at(bytes, n, RESIDENT_CAP)->0.data.in_order().len() < MAX_ATTRS,
{
    if let Some(OutcomeModel::Parsed(e)) = slot_outcome(bytes, n) {
        if decodable(e) && attributes_fit(e.data, e.first_attribute) {
            lemma_decoded_streams(e, RESIDENT_CAP);
        }
    }
}

/// The row counter after `more` rows.
fn count_on(emitted: u64, more: usize) -> (r: u64)
    ensures
        r == wrapped((emitted + more) as nat),
{
    emitted.wrapping_add(more as u64)
}

impl ReadMftProducer {
    /// The decoder, where there is one, belongs to a source, holds as many bytes as
    /// memory can, and keeps the default cap.
    pub closed spec fn wf(self) -> bool {
        self.decoder matches Some(d) ==> {
            &&& d.cap() == RESIDENT_CAP
            &&& d.image().len() <= usize::MAX
            &&& self.source_idx < self.sources@.len()
        }
    }

    /// A scan over files, in order.
    pub fn new_files(files: Vec<String>, host: Option<String>, mode: Mode) -> (r: Self)
        ensures
            r.wf(),
            r@ == fresh_scan(
                files@.map_values(|p: String| SourceModel::File(p@)),
                opt_text(host),
                mode,
            ),
    {
        let mut sources: Vec<SourceRef> = Vec::new();
        let mut i: usize = 0;
        while i < files.len()
            invariant
                i <= files@.len(),
                sources@.len() == i,
                forall|j: int|
                    0 <= j < i ==> (#[trigger] sources@[j])@ == SourceModel::File(files@[j]@),
            decreases files@.len() - i,
        {
            sources.push(SourceRef::File(files[i].clone()));
            i = i + 1;
        }
        assert(sources_model(sources@) =~= files@.map_values(|p: String| SourceModel::File(p@)));
        Self::over(sources, host, mode)
    }

    /// A scan over an inline blob.
    pub fn new_blob(bytes: Vec<u8>, host: Option<String>, mode: Mode) -> (r: Self)
        ensures
            r.wf(),
            r@ == fresh_scan(seq![SourceModel::Blob(bytes@)], opt_text(host), mode),
    {
        let mut sources: Vec<SourceRef> = Vec::new();
        sources.push(SourceRef::Blob(bytes));
        assert(sources_model(sources@) =~= seq![SourceModel::Blob(bytes@)]);
        Self::over(sources, host, mode)
    }

    fn over(sources: Vec<SourceRef>, host: Option<String>, mode: Mode) -> (r: Self)
        ensures
            r.wf(),
            r@ == fresh_scan(sources_model(sources@), opt_text(host), mode),
    {
        let r = ReadMftProducer {
            sources,
            host,
            mode,
            source_idx: 0,
            decoder: None,
            resolver: BTreeMap::new(),
            entry_cursor: 0,
            records_emitted: 0,
            pending_resume: None,
            rows: Vec::new(),
        };
        assert(r@ =~= fresh_scan(sources_model(sources@), opt_text(host), mode));
        r
    }

    /// The host label for the current source (explicit argument, else the filename).
    pub fn host_label(&self) -> (r: Option<String>)
        ensures
            opt_text(r) == self@.host_label(),
    {
        if let Some(h) = &self.host {
            return Some(h.clone());
        }
        if self.source_idx < self.sources.len() {
            if let SourceRef::File(p) = &self.sources[self.source_idx] {
                return Some(p.clone());
            }
        }
        None
    }

    /// Install the bytes of the current source. The path index is built only where
    /// none was carried in.
    pub fn open_source(&mut self, bytes: Vec<u8>)
        requires
            old(self).wf(),
            old(self)@.open is None,
            old(self)@.current() is Some,
        ensures
            final(self).wf(),
            final(self)@ == old(self)@.opened(bytes@),
            old(self)@.in_place() ==> final(self)@.in_place(),
    {
        let size: usize = bytes.len();
        let mut dec = Decoder::open(bytes, RESIDENT_CAP);
        let ghost before = nodes(self.resolver@);
        assert(before.dom() =~= self.resolver@.dom());
        if self.resolver.is_empty() {
            assert(before =~= Map::empty());
            dec.build_resolver(&mut self.resolver);
        }
        self.decoder = Some(dec);
        assert(dec.image().len() == size);
        assert(self@ =~= old(self)@.opened(bytes@));
    }

    /// Ensure that the current source is open, as far as that takes no file.
    pub fn ensure_open(&mut self) -> (r: Opening)
        requires
            old(self).wf(),
        ensures
            final(self).wf(),
            old(self)@.in_place() ==> final(self)@.in_place(),
            match r {
                Opening::Open => if old(self)@.open is Some {
                    final(self)@ == old(self)@
                } else {
                    old(self)@.current() matches Some(SourceModel::Blob(b)) && final(self)@ == old(
                        self,
                    )@.opened(b)
                },
                Opening::Load(p) => {
                    &&& final(self)@ == old(self)@
                    &&& old(self)@.open is None
                    &&& old(self)@.current() == Some(SourceModel::File(p@))
                },
                Opening::Exhausted => {
                    &&& final(self)@ == old(self)@
                    &&& old(self)@.open is None
                    &&& old(self)@.current() is None
                },
            },
    {
        if self.decoder.is_some() {
            return Opening::Open;
        }
        if self.source_idx >= self.sources.len() {
            return Opening::Exhausted;
        }
        assert(self@.sources[self.source_idx as int] == self.sources@[self.source_idx as int]@);
        let bytes = match &self.sources[self.source_idx] {
            SourceRef::File(p) => {
                return Opening::Load(p.clone());
            },
            SourceRef::Blob(b) => {
                let copy = b.clone();
                assert(copy@ =~= b@);
                copy
            },
        };
        self.open_source(bytes);
        Opening::Open
    }

    /// Advance to the next source, dropping per-source state.
    fn advance_source(&mut self)
        requires
            old(self).wf(),
            old(self)@.current() is Some,
        ensures
            final(self).wf(),
            final(self)@ == old(self)@.advanced(),
    {
        assert(self.source_idx < self.sources.len());
        self.decoder = None;
        self.resolver.clear();
        self.entry_cursor = 0;
        self.source_idx = self.source_idx + 1;
        assert(nodes(self.resolver@) =~= Map::empty());
        assert(self@ =~= old(self)@.advanced());
    }

    /// Put a pending state in place.
    fn apply_resume(&mut self)
        requires
            old(self).wf(),
        ensures
            final(self).wf(),
            final(self)@ == old(self)@.resumed(),
            final(self)@.pending is None,
    {
        if let Some(state) = self.pending_resume.take() {
            self.entry_cursor = state.next_entry();
            self.records_emitted = state.cursor.records_emitted;
            // Trust the explicit source index: an end-of-scan state (index past the
            // last source) must terminate, not restart from source 0.
            self.decoder = None;
            self.source_idx = state.source_index as usize;
            self.resolver = state.resolver;
        }
        assert(self@ =~= old(self)@.resumed());
    }

    /// Decode the next entry of the open source into rows.
    fn pass_entry(&mut self)
        requires
            old(self).wf(),
            old(self)@.open is Some,
            old(self)@.cursor < count_of(old(self)@.open->0),
        ensures
            final(self).wf(),
            final(self)@ == old(self)@.past_entry(old(self)@.open->0),
    {
        let ghost start = self@;
        let ghost bytes = start.open->0;
        let host = self.host_label();
        let n: u64 = self.entry_cursor;
        let decoded = match &self.decoder {
            Some(dec) => (dec.decode_at(n), dec.entry_count()),
            None => (None, 0),
        };
        proof {
            reveal(slot_rows);
        }
        self.entry_cursor = n + 1;
        let before: usize = self.rows.len();
        assert(start.rows.len() == before);
        if let Some(rec) = decoded.0 {
            emit(&rec, &self.resolver, &host, self.mode, &mut self.rows);
            assert(rows_model(self.rows@).len() == self.rows.len());
            self.records_emitted = count_on(self.records_emitted, self.rows.len() - before);
        }
        proof {
            let more = start.entry_rows(bytes, n);
            assert(rows_model(self.rows@) =~= start.rows + more);
            assert(self@ =~= (ScanModel {
                cursor: start.cursor + 1,
                emitted: wrapped(start.emitted + more.len()),
                rows: start.rows + more,
                ..start
            }));
        }
        if self.entry_cursor >= decoded.1 {
            self.advance_source();
        }
    }

    /// Takes one step of the scan, or tells why it stops.
    fn step(&mut self) -> (r: Pause)
        requires
            old(self).wf(),
        ensures
            final(self).wf(),
            match r {
                Pause::Going => old(self)@.next() == Step::Go(final(self)@),
                Pause::Full => final(self)@ == old(self)@ && old(self)@.next() == Step::Halt(
                    Stop::Full,
                ),
                Pause::Exhausted => final(self)@ == old(self)@ && old(self)@.next() == Step::Halt(
                    Stop::Exhausted,
                ),
                Pause::Load(p) => final(self)@ == old(self)@ && old(self)@.next() == Step::Halt(
                    Stop::Load(p@),
                ),
            },
    {
        proof {
            reveal(ScanModel::next);
            assert(self@.rows.len() == self.rows.len());
        }
        if self.rows.len() >= BATCH_ROWS {
            return Pause::Full;
        }
        let count: u64 = match &self.decoder {
            Some(dec) => dec.entry_count(),
            None => {
                return match self.ensure_open() {
                    Opening::Exhausted => Pause::Exhausted,
                    Opening::Load(p) => Pause::Load(p),
                    Opening::Open => Pause::Going,
                };
            },
        };
        if self.entry_cursor >= count {
            self.advance_source();
        } else {
            self.pass_entry();
        }
        Pause::Going
    }

    /// Takes steps until the scan stops, and tells why it does.
    fn run(&mut self) -> (r: Pause)
        requires
            old(self).wf(),
        ensures
            final(self).wf(),
            final(self)@ == old(self)@.run(),
            match r {
                Pause::Going => false,
                Pause::Full => final(self)@.next() == Step::Halt(Stop::Full),
                Pause::Exhausted => final(self)@.next() == Step::Halt(Stop::Exhausted),
                Pause::Load(p) => final(self)@.next() == Step::Halt(Stop::Load(p@)),
            },
    {
        loop
            invariant
                self.wf(),
                self@.run() == old(self)@.run(),
            decreases self@.sources_left(), self@.phase(), self@.entries_left(),
        {
            let ghost here = self@;
            match self.step() {
                Pause::Going => {
                    proof {
                        lemma_step_decreases(here, self@);
                    }
                },
                stop => {
                    return stop;
                },
            }
        }
    }

    /// Memory holds what the scan reads.
    proof fn lemma_sized(&self)
        requires
            self.wf(),
        ensures
            self@.sized(),
    {
        assert forall|i: int| 0 <= i < self@.sources.len() implies ((
        #[trigger] self@.sources[i]) matches SourceModel::Blob(b) ==> b.len() <= usize::MAX) by {
            if let SourceRef::Blob(b) = self.sources@[i] {
                assert(b.len() == b@.len());
            }
        }
    }

    /// Produce the next batch of rows, as far as that takes no file. After
    /// [`ScanStep::Load`] the caller hands the file's bytes to
    /// [`ReadMftProducer::open_source`] and goes on. The row counter counts in 64 bits.
    pub fn produce(&mut self) -> (r: ScanStep)
        requires
            old(self).wf(),
        ensures
            final(self).wf(),
            final(self)@.sources == old(self)@.sources,
            final(self)@.host == old(self)@.host,
            final(self)@.mode == old(self)@.mode,
            final(self)@.pending is None,
            old(self)@.resumed().in_place() || !(r is Load) && old(self)@.resumed().begins()
                ==> final(self)@.in_place(),
            forall|files: Map<Seq<char>, Seq<u8>>|
                (#[trigger] old(self)@.resumed().batches(files)) == (match r {
                    ScanStep::Load(p) => final(self)@.opened(files[p@]).batches(files),
                    ScanStep::Batch(rows) => seq![rows_model(rows@)] + final(self)@.batches(files),
                    ScanStep::Done => Seq::empty(),
                }),
            ({
                let end = old(self)@.resumed().run();
                match r {
                    ScanStep::Load(p) => end.next() == Step::Halt(Stop::Load(p@)) && final(self)@
                        == end,
                    ScanStep::Batch(rows) => {
                        &&& end.next() matches Step::Halt(stop) && !(stop is Load)
                        &&& end.rows.len() > 0
                        &&& rows_model(rows@) == end.rows
                        &&& final(self)@ == end.emptied()
                    },
                    ScanStep::Done => {
                        &&& end.next() == Step::Halt(Stop::Exhausted)
                        &&& end.rows.len() == 0
                        &&& final(self)@ == end
                    },
                }
            }),
    {
        self.apply_resume();
        let ghost start = self@;
        let ghost end = start.run();
        proof {
            self.lemma_sized();
            lemma_run_keeps(start);
            lemma_run_in_place(start);
            assert forall|files: Map<Seq<char>, Seq<u8>>| true implies (match end.next() {
                Step::Halt(Stop::Load(p)) => #[trigger] start.batches(files) == end.opened(
                    files[p],
                ).batches(files),
                _ => start.batches(files) == (if end.rows.len() > 0 {
                    seq![end.rows] + end.emptied().batches(files)
                } else {
                    Seq::empty()
                }),
            }) by {
                law_produce_yields_the_batches(start, files);
            }
        }
        if let Pause::Load(p) = self.run() {
            return ScanStep::Load(p);
        }
        let mut rows: Vec<EmitRow> = Vec::new();
        std::mem::swap(&mut rows, &mut self.rows);
        proof {
            assert(rows_model(self.rows@) =~= Seq::empty());
            assert(self@ =~= end.emptied());
            assert(rows_model(rows@) == end.rows);
        }
        if rows.is_empty() {
            reveal(ScanModel::next);
            assert(end.rows =~= Seq::empty());
            assert(self@ =~= end);
            ScanStep::Done
        } else {
            ScanStep::Batch(rows)
        }
    }
}

impl ReadMftProducer {
    /// The record stride of the open source; 1024 where none is open.
    fn stride(&self) -> (r: u32)
        ensures
            r == self@.stride(),
    {
        match &self.decoder {
            Some(d) => d.record_size(),
            None => 1024,
        }
    }

    /// The state from which a rebuilt scan goes on where this one is. The byte offset
    /// is one of 64 bits.
    pub fn encode_resume(&self) -> (r: MftScanState)
        ensures
            state_of(r, self@),
            self@.source_idx <= usize::MAX,
    {
        let record_size: u32 = self.stride();
        let source = if self.source_idx < self.sources.len() {
            assert(self@.sources[self.source_idx as int]
                == self.sources@[self.source_idx as int]@);
            self.sources[self.source_idx].label()
        } else {
            String::new()
        };
        assert(nodes(self.resolver@).dom() =~= self.resolver@.dom());
        MftScanState {
            cursor: MftCursor {
                source,
                byte_offset: self.entry_cursor.wrapping_mul(record_size as u64),
                records_emitted: self.records_emitted,
            },
            resolver: self.resolver.clone(),
            pending_paths: Vec::new(),
            record_size,
            max_depth: DEFAULT_MAX_DEPTH,
            resolver_built: !self.resolver.is_empty(),
            source_index: self.source_idx as u64,
        }
    }

    /// Go on from a state: it is put in place before the next row.
    pub fn restore_resume(&mut self, state: MftScanState)
        requires
            old(self).wf(),
        ensures
            final(self).wf(),
            final(self)@ == old(self)@.with_pending(state),
    {
        self.pending_resume = Some(state);
        self.rows.clear();
        assert(self@ =~= old(self)@.with_pending(state));
    }

    /// Drop the rows of the batch in progress, where it cannot be completed.
    pub fn abandon_batch(&mut self)
        requires
            old(self).wf(),
        ensures
            final(self).wf(),
            final(self)@ == old(self)@.emptied(),
    {
        self.rows.clear();
        assert(self@ =~= old(self)@.emptied());
    }
}

/// Whether `state` is the state of a scan: where it is, what it carries, and the
/// source it reads.
pub open spec fn state_of(state: MftScanState, s: ScanModel) -> bool {
    &&& state.cursor.source@ == match s.current() {
        Some(source) => source.label(),
        None => Seq::empty(),
    }
    &&& state.cursor.byte_offset == wrapped(s.cursor * s.stride() as nat)
    &&& state.cursor.records_emitted == s.emitted
    &&& nodes(state.resolver@) == s.index
    &&& state.pending_paths@.len() == 0
    &&& state.record_size == s.stride()
    &&& state.max_depth == DEFAULT_MAX_DEPTH
    &&& state.resolver_built == !s.index.dom().is_empty()
    &&& state.source_index == s.source_idx
}

impl ScanModel {
    /// The scan with a state to be restored, and no batch in progress.
    pub open spec fn with_pending(self, state: MftScanState) -> ScanModel {
        ScanModel { pending: Some(state), rows: Seq::empty(), ..self }
    }
}

/// The bytes of a source, given what each file holds.
pub open spec fn source_bytes(source: SourceModel, files: Map<Seq<char>, Seq<u8>>) -> Seq<u8> {
    match source {
        SourceModel::File(p) => files[p],
        SourceModel::Blob(b) => b,
    }
}

/// The host label of a source.
pub open spec fn host_for(host: Option<Seq<char>>, source: SourceModel) -> Option<Seq<char>> {
    match source {
        _ if host is Some => host,
        SourceModel::File(p) => Some(p),
        SourceModel::Blob(_) => None,
    }
}

/// The rows of the entries from `from` up to `to`.
pub open spec fn range_rows(
    bytes: Seq<u8>,
    index: Map<u64, NodeModel>,
    host: Option<Seq<char>>,
    mode: Mode,
    from: nat,
    to: nat,
) -> Seq<RowModel>
    decreases to - from,
{
    if from >= to {
        Seq::empty()
    } else {
        slot_rows(bytes, from as u64, index, host, mode) + range_rows(
            bytes,
            index,
            host,
            mode,
            from + 1,
            to,
        )
    }
}

/// Every row of the sources from number `i` on, each over its own path index.
pub open spec fn sources_rows(
    sources: Seq<SourceModel>,
    host: Option<Seq<char>>,
    mode: Mode,
    i: nat,
    files: Map<Seq<char>, Seq<u8>>,
) -> Seq<RowModel>
    decreases sources.len() - i,
{
    if i >= sources.len() {
        Seq::empty()
    } else {
        let bytes = source_bytes(sources[i as int], files);
        range_rows(
            bytes,
            index_of(bytes, RESIDENT_CAP, Map::empty()),
            host_for(host, sources[i as int]),
            mode,
            0,
            count_of(bytes),
        ) + sources_rows(sources, host, mode, i + 1, files)
    }
}

impl ScanModel {
    /// The rows that the scan has yet to emit, given what each file holds.
    pub open spec fn rows_to_come(self, files: Map<Seq<char>, Seq<u8>>) -> Seq<RowModel> {
        match self.current() {
            None => Seq::empty(),
            Some(source) => {
                let at = if self.open is Some {
                    self
                } else {
                    self.opened(source_bytes(source, files))
                };
                let bytes = at.open->0;
                range_rows(
                    bytes,
                    at.index,
                    host_for(self.host, source),
                    self.mode,
                    self.cursor,
                    count_of(bytes),
                ) + sources_rows(self.sources, self.host, self.mode, self.source_idx + 1, files)
            },
        }
    }

    /// The rows of the batch in progress, and those yet to come.
    pub open spec fn remaining(self, files: Map<Seq<char>, Seq<u8>>) -> Seq<RowModel> {
        self.rows + self.rows_to_come(files)
    }
}

impl ScanModel {
    /// Whether an open source is the current one, read as the files hold it, and has a
    /// path index.
    pub open spec fn consistent(self, files: Map<Seq<char>, Seq<u8>>) -> bool {
        self.open matches Some(bytes) ==> {
            &&& self.current() is Some
            &&& bytes == source_bytes(self.current()->0, files)
            &&& !self.index.dom().is_empty()
        }
    }
}

/// A scan is consistent from the start, after every batch, and after every file that
/// it asked for.
pub proof fn law_scan_stays_consistent(s: ScanModel, files: Map<Seq<char>, Seq<u8>>)
    requires
        s.consistent(files),
    ensures
        fresh_scan(s.sources, s.host, s.mode).consistent(files),
        s.run().consistent(files),
        s.run().emptied().consistent(files),
        s.resumed().consistent(files),
        s.next() matches Step::Halt(Stop::Load(p)) ==> s.opened(files[p]).consistent(files),
    decreases s.sources_left(), s.phase(), s.entries_left(),
{
    match s.next() {
        Step::Go(t) => {
            lemma_step_decreases(s, t);
            assert(t.consistent(files)) by {
                reveal(ScanModel::next);
                if s.open is None {
                    let bytes = source_bytes(s.current()->0, files);
                    lemma_opened_has_index(s, bytes);
                }
            }
            law_scan_stays_consistent(t, files);
        },
        Step::Halt(Stop::Load(p)) => {
            reveal(ScanModel::next);
            lemma_opened_has_index(s, files[p]);
        },
        Step::Halt(_) => {},
    }
}

/// An open source has a path index: the one carried in, or one that holds the root.
proof fn lemma_opened_has_index(s: ScanModel, bytes: Seq<u8>)
    ensures
        !s.opened(bytes).index.dom().is_empty(),
{
    if s.index.dom().is_empty() {
        assert(index_of(bytes, RESIDENT_CAP, Map::empty()).dom().contains(ROOT_ENTRY));
    }
}

/// A fresh scan is to emit every row of every source, in order.
pub proof fn law_fresh_scan_emits_all(
    sources: Seq<SourceModel>,
    host: Option<Seq<char>>,
    mode: Mode,
    files: Map<Seq<char>, Seq<u8>>,
)
    ensures
        fresh_scan(sources, host, mode).remaining(files) == sources_rows(
            sources,
            host,
            mode,
            0,
            files,
        ),
{
    let s = fresh_scan(sources, host, mode);
    assert(s.remaining(files) =~= sources_rows(sources, host, mode, 0, files));
}

/// Moving on to the next source leaves the rows of that and all later sources.
proof fn lemma_advanced_rows(s: ScanModel, files: Map<Seq<char>, Seq<u8>>)
    requires
        s.current() is Some,
    ensures
        s.advanced().rows_to_come(files) == sources_rows(
            s.sources,
            s.host,
            s.mode,
            s.source_idx + 1,
            files,
        ),
{
}

/// A step loses no row, repeats none and reorders none.
proof fn lemma_step_keeps_rows(s: ScanModel, t: ScanModel, files: Map<Seq<char>, Seq<u8>>)
    requires
        s.next() == Step::Go(t),
    ensures
        t.remaining(files) == s.remaining(files),
{
    reveal(ScanModel::next);
    match s.open {
        None => {
            assert(t.remaining(files) =~= s.remaining(files));
        },
        Some(bytes) => {
            let count = count_of(bytes);
            let later = sources_rows(s.sources, s.host, s.mode, s.source_idx + 1, files);
            let label = host_for(s.host, s.current()->0);
            assert(s.host_label() == label);
            let here = range_rows(bytes, s.index, label, s.mode, s.cursor, count);
            if s.cursor >= count {
                lemma_advanced_rows(s, files);
                assert(here =~= Seq::empty());
                assert(t.remaining(files) =~= s.remaining(files));
            } else {
                let more = s.entry_rows(bytes, s.cursor as u64);
                let rest = range_rows(bytes, s.index, label, s.mode, s.cursor + 1, count);
                assert(here == more + rest);
                if s.cursor + 1 >= count {
                    let after = ScanModel {
                        cursor: s.cursor + 1,
                        emitted: s.emitted + more.len(),
                        rows: s.rows + more,
                        ..s
                    };
                    lemma_advanced_rows(after, files);
                    assert(rest =~= Seq::empty());
                }
                assert(t.remaining(files) =~= s.remaining(files));
            }
        },
    }
}

/// However a scan is cut into batches, no row is lost, repeated or reordered: a batch
/// takes its rows from the front of those that remain, and the others remain.
pub proof fn law_batches_keep_every_row(s: ScanModel, files: Map<Seq<char>, Seq<u8>>)
    ensures
        s.run().remaining(files) == s.remaining(files),
        s.remaining(files) == s.run().rows + s.run().emptied().remaining(files),
    decreases s.sources_left(), s.phase(), s.entries_left(),
{
    match s.next() {
        Step::Go(t) => {
            lemma_step_decreases(s, t);
            lemma_step_keeps_rows(s, t, files);
            law_batches_keep_every_row(t, files);
        },
        Step::Halt(_) => {
            assert(s.run() == s);
            let rest = s.rows_to_come(files);
            assert(s.emptied().rows_to_come(files) == rest);
            assert(s.emptied().remaining(files) =~= rest);
        },
    }
}

/// Reading a file that the scan asked for keeps every row.
pub proof fn law_loading_keeps_every_row(s: ScanModel, p: Seq<char>, files: Map<Seq<char>, Seq<u8>>)
    requires
        s.next() == Step::Halt(Stop::Load(p)),
    ensures
        s.opened(files[p]).remaining(files) == s.remaining(files),
{
    reveal(ScanModel::next);
    assert(s.opened(files[p]).remaining(files) =~= s.remaining(files));
}

/// An exhausted scan has nothing left to emit.
pub proof fn law_exhausted_scan_is_complete(s: ScanModel, files: Map<Seq<char>, Seq<u8>>)
    requires
        s.next() == Step::Halt(Stop::Exhausted),
    ensures
        s.remaining(files) == s.rows,
{
    reveal(ScanModel::next);
    assert(s.remaining(files) =~= s.rows);
}

/// Resuming reproduces the scan: between two batches, the state of a scan that is put
/// into a scan over the same sources leads to the same position, the same counter and
/// the same path index, and exactly the rows that the first one had yet to emit are
/// emitted.
pub proof fn law_resume_reproduces_the_scan(
    s: ScanModel,
    other: ScanModel,
    state: MftScanState,
    files: Map<Seq<char>, Seq<u8>>,
)
    requires
        state_of(state, s),
        s.rows.len() == 0,
        s.source_idx <= usize::MAX,
        s.in_place(),
        s.consistent(files),
        other.sources == s.sources,
        other.host == s.host,
        other.mode == s.mode,
    ensures
        ({
            let resumed = other.with_pending(state).resumed();
            &&& resumed.source_idx == s.source_idx
            &&& resumed.cursor == s.cursor
            &&& resumed.emitted == s.emitted
            &&& resumed.index == s.index
            &&& resumed.remaining(files) == s.remaining(files)
        }),
{
    let resumed = other.with_pending(state).resumed();
    law_position_fits(s);
    lemma_position_round_trip(state, s);
    assert(resumed.current() == s.current());
    assert(resumed.rows_to_come(files) == s.rows_to_come(files)) by {
        if let Some(bytes) = s.open {
            assert(resumed.opened(bytes).index == s.index);
        } else if let Some(source) = s.current() {
            let bytes = source_bytes(source, files);
            assert(resumed.opened(bytes).index == s.opened(bytes).index);
        }
    }
    assert(resumed.remaining(files) =~= s.remaining(files));
}

/// The byte offset of the next entry never leaves the image, so it is exact: 64 bits hold
/// it.
pub proof fn law_position_fits(s: ScanModel)
    requires
        s.in_place(),
    ensures
        s.cursor * s.stride() <= u64::MAX,
        s.open matches Some(bytes) ==> s.cursor * s.stride() <= bytes.len(),
{
    if let Some(bytes) = s.open {
        let size = s.stride() as int;
        let len = bytes.len() as int;
        let cursor = s.cursor as int;
        assert(size >= 512);
        assert(cursor * size <= len) by (nonlinear_arith)
            requires
                size >= 512,
                len >= 0,
                0 <= cursor <= len / size,
        ;
    }
}

/// The byte offset of an entry gives the entry back.
pub proof fn lemma_position_round_trip(state: MftScanState, s: ScanModel)
    requires
        state_of(state, s),
        s.cursor * s.stride() <= u64::MAX,
    ensures
        state.next_index() == s.cursor,
{
    let stride = s.stride() as int;
    assert(stride > 0);
    vstd::arithmetic::div_mod::lemma_div_multiples_vanish(s.cursor as int, stride);
    assert(s.cursor * stride == stride * s.cursor) by (nonlinear_arith);
}

/// The rows of a slot are those of the record in it, decoded with at most one mebibyte of
/// inline data, and none where it holds no record.
pub proof fn law_slot_rows_are_the_record(
    bytes: Seq<u8>,
    n: u64,
    index: Map<u64, NodeModel>,
    host: Option<Seq<char>>,
    mode: Mode,
)
    ensures
        slot_rows(bytes, n, index, host, mode) == (match record_at(bytes, n, 0x10_0000) {
            Some(rec) => rows_of(rec, index, host, mode),
            None => Seq::empty(),
        }),
{
    reveal(slot_rows);
}

/// The rows of some slots are those of the first one and of the others, and there is none
/// where there is no slot.
pub proof fn law_slots_come_in_order(
    bytes: Seq<u8>,
    index: Map<u64, NodeModel>,
    host: Option<Seq<char>>,
    mode: Mode,
    from: nat,
    to: nat,
)
    ensures
        from >= to ==> range_rows(bytes, index, host, mode, from, to).len() == 0,
        from < to ==> range_rows(bytes, index, host, mode, from, to) == slot_rows(
            bytes,
            from as u64,
            index,
            host,
            mode,
        ) + range_rows(bytes, index, host, mode, from + 1, to),
{
}

/// The sources come in order. Each is read from its first slot to its last, over a path
/// index of its own, under the given host or, where none is given, under its file's path; a
/// blob has no path.
pub proof fn law_sources_come_in_order(
    sources: Seq<SourceModel>,
    host: Option<Seq<char>>,
    mode: Mode,
    i: nat,
    files: Map<Seq<char>, Seq<u8>>,
)
    ensures
        i >= sources.len() ==> sources_rows(sources, host, mode, i, files).len() == 0,
        i < sources.len() ==> ({
            let bytes = match sources[i as int] {
                SourceModel::File(p) => files[p],
                SourceModel::Blob(b) => b,
            };
            let label = match (host, sources[i as int]) {
                (Some(h), _) => Some(h),
                (None, SourceModel::File(p)) => Some(p),
                (None, SourceModel::Blob(_)) => None,
            };
            let index = index_of(bytes, 0x10_0000, Map::empty());
            sources_rows(sources, host, mode, i, files) == range_rows(
                bytes,
                index,
                label,
                mode,
                0,
                count_of(bytes),
            ) + sources_rows(sources, host, mode, i + 1, files)
        }),
{
}

/// A saved state tells where the scan is: the source by number and by name, the byte offset
/// of the next record, the rows so far, the stride, and the path index.
pub proof fn law_state_tells_the_place(state: MftScanState, s: ScanModel)
    requires
        state_of(state, s),
        s.in_place(),
    ensures
        state.source_index == s.source_idx,
        state.cursor.byte_offset == s.cursor * s.stride(),
        state.cursor.records_emitted == s.emitted,
        state.record_size == s.stride(),
        nodes(state.resolver@) == s.index,
        state.max_depth == 256,
        s.source_idx < s.sources.len() ==> state.cursor.source@ == (
        match s.sources[s.source_idx as int] {
            SourceModel::File(p) => p,
            SourceModel::Blob(_) => "<blob>"@,
        }),
        s.source_idx >= s.sources.len() ==> state.cursor.source@.len() == 0,
{
    law_position_fits(s);
}

} // verus!
