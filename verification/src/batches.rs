//! How a `read_mft` scan is cut into batches: all of them, from any point of a scan on,
//! and what holds of them.

use vstd::prelude::*;

use crate::attribute::MAX_ATTRS;
use crate::cursor::{MftScanState, NodeModel};
use crate::decoder::{count_of, index_of, record_at};
use crate::errors::opt_text;
use crate::options::Mode;
use crate::record::RESIDENT_CAP;
use crate::scan::{
    fresh_scan, law_batches_keep_every_row, law_exhausted_scan_is_complete,
    law_fresh_scan_emits_all, law_loading_keeps_every_row, law_scan_stays_consistent,
    law_position_fits, lemma_position_round_trip, lemma_rows_bound, lemma_run_in_place,
    lemma_run_keeps, lemma_step_decreases, range_rows, slot_rows,
    source_bytes, sources_rows, state_of, wrapped, ReadMftProducer, ScanModel, ScanStep, SourceModel,
    Step, Stop, BATCH_ROWS,
};
use crate::timeline::{rows_model, rows_of, EmitRow, RowModel};

verus! {

impl ScanModel {
    /// The scan at the end of the batch in progress, where each file that it asks for
    /// is read: produced until a batch comes or the scan is done.
    pub open spec fn batch_end(self, files: Map<Seq<char>, Seq<u8>>) -> ScanModel
        decreases self.sources_left(), self.phase(),
    {
        match self.run().next() {
            Step::Halt(Stop::Load(p)) => {
                proof {
                    lemma_load_decreases(self, p, files);
                }
                self.run().opened(files[p]).batch_end(files)
            },
            _ => self.run(),
        }
    }

    /// The batches from here on, up to the end of the scan.
    pub open spec fn batches(self, files: Map<Seq<char>, Seq<u8>>) -> Seq<Seq<RowModel>>
        decreases self.sources_left(), self.phase(), self.entries_left(), self.rows.len(),
    {
        let end = self.batch_end(files);
        if end.rows.len() == 0 {
            Seq::empty()
        } else {
            proof {
                lemma_batch_decreases(self, files);
            }
            seq![end.rows] + end.emptied().batches(files)
        }
    }

    /// The scan after `k` batches.
    pub open spec fn after_batches(self, k: nat, files: Map<Seq<char>, Seq<u8>>) -> ScanModel
        decreases k,
    {
        if k == 0 {
            self
        } else {
            self.batch_end(files).emptied().after_batches((k - 1) as nat, files)
        }
    }

    /// Whether a scan is nearer to its end than another.
    pub open spec fn nearer(self, s: ScanModel) -> bool {
        ||| self.sources_left() < s.sources_left()
        ||| self.sources_left() == s.sources_left() && self.phase() < s.phase()
        ||| self.sources_left() == s.sources_left() && self.phase() == s.phase()
            && self.entries_left() < s.entries_left()
    }
}

/// A scan runs on towards its end, or stays.
proof fn lemma_run_is_nearer(s: ScanModel)
    ensures
        s.run() == s || s.run().nearer(s),
        s.run().next() is Halt,
    decreases s.sources_left(), s.phase(), s.entries_left(),
{
    if let Step::Go(t) = s.next() {
        lemma_step_decreases(s, t);
        lemma_run_is_nearer(t);
    }
}

/// A scan that reads the file it asked for is nearer to its end.
pub proof fn lemma_load_decreases(s: ScanModel, p: Seq<char>, files: Map<Seq<char>, Seq<u8>>)
    requires
        s.run().next() == Step::Halt(Stop::Load(p)),
    ensures
        ({
            let t = s.run().opened(files[p]);
            ||| t.sources_left() < s.sources_left()
            ||| t.sources_left() == s.sources_left() && t.phase() < s.phase()
        }),
{
    reveal(ScanModel::next);
    lemma_run_is_nearer(s);
}

/// The end of a batch is nearer to the end of the scan, or the batch was complete.
proof fn lemma_batch_end_is_nearer(s: ScanModel, files: Map<Seq<char>, Seq<u8>>)
    ensures
        s.batch_end(files) == s || s.batch_end(files).nearer(s),
    decreases s.sources_left(), s.phase(),
{
    lemma_run_is_nearer(s);
    if let Step::Halt(Stop::Load(p)) = s.run().next() {
        lemma_load_decreases(s, p, files);
        lemma_batch_end_is_nearer(s.run().opened(files[p]), files);
    }
}

/// A batch with rows brings the scan nearer to its end, or empties the batch.
pub proof fn lemma_batch_decreases(s: ScanModel, files: Map<Seq<char>, Seq<u8>>)
    requires
        s.batch_end(files).rows.len() > 0,
    ensures
        ({
            let t = s.batch_end(files).emptied();
            ||| t.nearer(s)
            ||| t.sources_left() == s.sources_left() && t.phase() == s.phase() && t.entries_left()
                == s.entries_left() && t.rows.len() < s.rows.len()
        }),
{
    lemma_batch_end_is_nearer(s, files);
}

/// A batch ends because it has its rows, or because the scan is exhausted.
proof fn lemma_batch_end_stops(s: ScanModel, files: Map<Seq<char>, Seq<u8>>)
    ensures
        s.batch_end(files).next() == Step::Halt(Stop::Full) || s.batch_end(files).next()
            == Step::Halt(Stop::Exhausted),
    decreases s.sources_left(), s.phase(),
{
    lemma_run_is_nearer(s);
    if let Step::Halt(Stop::Load(p)) = s.run().next() {
        lemma_load_decreases(s, p, files);
        lemma_batch_end_stops(s.run().opened(files[p]), files);
    }
}

/// An exhausted scan without rows has no more batches.
proof fn lemma_exhausted_has_no_batches(s: ScanModel, files: Map<Seq<char>, Seq<u8>>)
    requires
        s.next() == Step::Halt(Stop::Exhausted),
    ensures
        s.emptied().batches(files).len() == 0,
{
    reveal(ScanModel::next);
    let t = s.emptied();
    assert(t.next() == Step::Halt(Stop::Exhausted));
    assert(t.run() == t);
}

proof fn lemma_batch_end_keeps(s: ScanModel, files: Map<Seq<char>, Seq<u8>>)
    requires
        s.source_idx <= s.sources.len(),
        s.consistent(files),
    ensures
        s.batch_end(files).sources == s.sources,
        s.batch_end(files).host == s.host,
        s.batch_end(files).mode == s.mode,
        s.batch_end(files).pending == s.pending,
        s.batch_end(files).source_idx <= s.sources.len(),
        s.batch_end(files).consistent(files),
    decreases s.sources_left(), s.phase(),
{
    lemma_run_keeps(s);
    law_scan_stays_consistent(s, files);
    if let Step::Halt(Stop::Load(p)) = s.run().next() {
        lemma_load_decreases(s, p, files);
        law_scan_stays_consistent(s.run(), files);
        lemma_batch_end_keeps(s.run().opened(files[p]), files);
    }
}

/// Whether memory can hold the bytes of each source.
pub open spec fn all_sized(sources: Seq<SourceModel>, files: Map<Seq<char>, Seq<u8>>) -> bool {
    forall|i: int|
        0 <= i < sources.len() ==> source_bytes(#[trigger] sources[i], files).len() <= usize::MAX
}

/// The end of a batch is inside its source, or before the next one.
proof fn lemma_batch_end_in_place(s: ScanModel, files: Map<Seq<char>, Seq<u8>>)
    requires
        s.consistent(files),
        s.in_place(),
        all_sized(s.sources, files),
    ensures
        s.batch_end(files).in_place(),
    decreases s.sources_left(), s.phase(),
{
    assert(s.sized()) by {
        assert forall|i: int| 0 <= i < s.sources.len() implies ((
        #[trigger] s.sources[i]) matches SourceModel::Blob(b) ==> b.len() <= usize::MAX) by {
            assert(source_bytes(s.sources[i], files).len() <= usize::MAX);
        }
    }
    lemma_run_in_place(s);
    lemma_run_keeps(s);
    law_scan_stays_consistent(s, files);
    if let Step::Halt(Stop::Load(p)) = s.run().next() {
        lemma_load_decreases(s, p, files);
        law_scan_stays_consistent(s.run(), files);
        assert(s.run().opened(files[p]).in_place()) by {
            reveal(ScanModel::next);
            let source = s.sources[s.run().source_idx as int];
            assert(source_bytes(source, files) == files[p]);
        }
        lemma_batch_end_in_place(s.run().opened(files[p]), files);
    }
}

proof fn lemma_after_batches_keeps(s: ScanModel, k: nat, files: Map<Seq<char>, Seq<u8>>)
    requires
        s.in_place(),
        all_sized(s.sources, files),
        s.source_idx <= s.sources.len(),
        s.consistent(files),
        s.rows.len() == 0,
    ensures
        s.after_batches(k, files).sources == s.sources,
        s.after_batches(k, files).host == s.host,
        s.after_batches(k, files).mode == s.mode,
        s.after_batches(k, files).pending == s.pending,
        s.after_batches(k, files).source_idx <= s.sources.len(),
        s.after_batches(k, files).consistent(files),
        s.after_batches(k, files).in_place(),
        s.after_batches(k, files).rows.len() == 0,
    decreases k,
{
    if k > 0 {
        lemma_batch_end_keeps(s, files);
        lemma_batch_end_in_place(s, files);
        lemma_after_batches_keeps(s.batch_end(files).emptied(), (k - 1) as nat, files);
    }
}

/// Producing from a scan yields its batches: where a run ends with rows, they are the
/// first batch and the others follow; where it asks for a file, reading the file leaves
/// the batches as they are; and where it ends without rows there is none.
pub proof fn law_produce_yields_the_batches(s: ScanModel, files: Map<Seq<char>, Seq<u8>>)
    ensures
        match s.run().next() {
            Step::Halt(Stop::Load(p)) => s.batches(files) == s.run().opened(files[p]).batches(
                files,
            ),
            _ => s.batches(files) == (if s.run().rows.len() > 0 {
                seq![s.run().rows] + s.run().emptied().batches(files)
            } else {
                Seq::empty()
            }),
        },
{
    if let Step::Halt(Stop::Load(p)) = s.run().next() {
        assert(s.batch_end(files) == s.run().opened(files[p]).batch_end(files));
    }
}

/// After `k` batches the others are still to come, in their order.
pub proof fn law_batches_come_one_after_the_other(
    s: ScanModel,
    k: nat,
    files: Map<Seq<char>, Seq<u8>>,
)
    ensures
        s.after_batches(k, files).batches(files) == (if k <= s.batches(files).len() {
            s.batches(files).skip(k as int)
        } else {
            Seq::empty()
        }),
    decreases k,
{
    let all = s.batches(files);
    if k == 0 {
        assert(all.skip(0) =~= all);
    } else {
        let end = s.batch_end(files);
        let t = end.emptied();
        law_batches_come_one_after_the_other(t, (k - 1) as nat, files);
        if end.rows.len() == 0 {
            lemma_batch_end_stops(s, files);
            reveal(ScanModel::next);
            lemma_exhausted_has_no_batches(end, files);
            if k == 1 {
                assert(t.batches(files).skip(0) =~= Seq::empty());
            }
        } else {
            assert(all == seq![end.rows] + t.batches(files));
            if k <= all.len() {
                assert(all.skip(k as int) =~= t.batches(files).skip(k - 1));
            }
        }
    }
}

/// A resumed scan yields the same batches: between two batches, the state of a scan
/// that is put into a scan over the same sources leads to exactly the batches that the
/// first one had yet to yield, and to none where the first one was exhausted.
pub proof fn law_resumed_scan_yields_the_same_batches(
    s: ScanModel,
    other: ScanModel,
    state: MftScanState,
    files: Map<Seq<char>, Seq<u8>>,
)
    requires
        state_of(state, s),
        s.rows.len() == 0,
        s.pending is None,
        s.source_idx <= usize::MAX,
        s.in_place(),
        s.consistent(files),
        other.sources == s.sources,
        other.host == s.host,
        other.mode == s.mode,
    ensures
        other.with_pending(state).resumed().batches(files) == s.batches(files),
        s.next() == Step::Halt(Stop::Exhausted) ==> other.with_pending(state).resumed().batches(
            files,
        ).len() == 0,
{
    let resumed = other.with_pending(state).resumed();
    law_position_fits(s);
    lemma_position_round_trip(state, s);
    assert(s.rows =~= Seq::empty());
    assert(resumed.batch_end(files) == s.batch_end(files)) by {
        if let Some(bytes) = s.open {
            assert(resumed.opened(bytes) =~= s);
            reveal(ScanModel::next);
            match s.current()->0 {
                SourceModel::File(p) => {
                    assert(resumed.next() == Step::Halt(Stop::Load(p)));
                    assert(resumed.run() == resumed);
                },
                SourceModel::Blob(b) => {
                    assert(resumed.next() == Step::Go(s));
                    assert(resumed.run() == s.run());
                },
            }
        } else {
            assert(resumed =~= s);
        }
    }
    if s.next() == Step::Halt(Stop::Exhausted) {
        lemma_exhausted_has_no_batches(s, files);
        assert(s.emptied() =~= s);
    }
}

/// A scan may be stopped after any number of batches and taken up again: put into a
/// fresh scan over the same sources, the state that it had then leads to the batches
/// that were left, one for one.
pub proof fn law_scan_goes_on_where_it_stopped(
    sources: Seq<SourceModel>,
    host: Option<Seq<char>>,
    mode: Mode,
    k: nat,
    state: MftScanState,
    files: Map<Seq<char>, Seq<u8>>,
)
    requires
        sources.len() <= usize::MAX,
        all_sized(sources, files),
        state_of(state, fresh_scan(sources, host, mode).after_batches(k, files)),
    ensures
        ({
            let all = fresh_scan(sources, host, mode).batches(files);
            let rest = fresh_scan(sources, host, mode).with_pending(state).resumed().batches(files);
            rest == (if k <= all.len() {
                all.skip(k as int)
            } else {
                Seq::empty()
            })
        }),
{
    let s = fresh_scan(sources, host, mode);
    lemma_after_batches_keeps(s, k, files);
    law_batches_come_one_after_the_other(s, k, files);
    law_resumed_scan_yields_the_same_batches(s.after_batches(k, files), s, state, files);
}

/// The batches together are the rows that remain: none is lost, none comes twice, and
/// they come in order.
pub proof fn law_batches_hold_every_row(s: ScanModel, files: Map<Seq<char>, Seq<u8>>)
    ensures
        s.batches(files).flatten() == s.remaining(files),
    decreases s.sources_left(), s.phase(), s.entries_left(), s.rows.len(),
{
    let end = s.batch_end(files);
    lemma_batch_end_keeps_rows(s, files);
    if end.rows.len() == 0 {
        lemma_batch_end_stops(s, files);
        reveal(ScanModel::next);
        law_exhausted_scan_is_complete(end, files);
        assert(s.batches(files).flatten() =~= s.remaining(files));
    } else {
        lemma_batch_decreases(s, files);
        let t = end.emptied();
        law_batches_hold_every_row(t, files);
        let all = s.batches(files);
        assert(all.first() == end.rows);
        assert(all.drop_first() =~= t.batches(files));
        assert(all.flatten() == end.rows + t.remaining(files));
    }
}

proof fn lemma_batch_end_keeps_rows(s: ScanModel, files: Map<Seq<char>, Seq<u8>>)
    ensures
        s.batch_end(files).remaining(files) == s.remaining(files),
        s.remaining(files) == s.batch_end(files).rows + s.batch_end(files).emptied().remaining(
            files,
        ),
    decreases s.sources_left(), s.phase(),
{
    law_batches_keep_every_row(s, files);
    if let Step::Halt(Stop::Load(p)) = s.run().next() {
        lemma_load_decreases(s, p, files);
        law_loading_keeps_every_row(s.run(), p, files);
        lemma_batch_end_keeps_rows(s.run().opened(files[p]), files);
    }
}

/// The rows by which the last record of a batch may go over it: none but in streams
/// mode, where a record has a row for each of its streams.
pub open spec fn overhang(mode: Mode) -> int {
    if mode is Streams {
        MAX_ATTRS - 1
    } else {
        0
    }
}

/// No batch is empty; every batch but the last is full; and none is larger than it has
/// to be: but for streams mode, a full batch has exactly its number of rows.
pub proof fn law_batches_are_full(s: ScanModel, files: Map<Seq<char>, Seq<u8>>, i: int)
    requires
        s.rows.len() == 0,
        s.source_idx <= s.sources.len(),
        s.consistent(files),
        0 <= i < s.batches(files).len(),
    ensures
        1 <= s.batches(files)[i].len() <= BATCH_ROWS + overhang(s.mode),
        i + 1 < s.batches(files).len() ==> s.batches(files)[i].len() >= BATCH_ROWS,
    decreases i,
{
    let end = s.batch_end(files);
    let t = end.emptied();
    lemma_batch_end_keeps(s, files);
    assert(s.batches(files) == seq![end.rows] + t.batches(files));
    if i == 0 {
        lemma_batch_end_bound(s, files);
        lemma_batch_end_stops(s, files);
        reveal(ScanModel::next);
        if end.next() == Step::Halt(Stop::Exhausted) {
            lemma_exhausted_has_no_batches(end, files);
        }
    } else {
        law_batches_are_full(t, files, i - 1);
    }
}

/// A record has one row at most, but in streams mode.
proof fn lemma_slot_overhang(
    bytes: Seq<u8>,
    n: u64,
    index: Map<u64, NodeModel>,
    host: Option<Seq<char>>,
    mode: Mode,
)
    ensures
        slot_rows(bytes, n, index, host, mode).len() <= overhang(mode) + 1,
{
    lemma_rows_bound(bytes, n, index, host, mode);
    reveal(slot_rows);
}

proof fn lemma_run_bound(s: ScanModel)
    requires
        s.rows.len() <= BATCH_ROWS + overhang(s.mode),
    ensures
        s.run().rows.len() <= BATCH_ROWS + overhang(s.mode),
        s.run().mode == s.mode,
    decreases s.sources_left(), s.phase(), s.entries_left(),
{
    if let Step::Go(t) = s.next() {
        lemma_step_decreases(s, t);
        reveal(ScanModel::next);
        if let Some(bytes) = s.open {
            lemma_slot_overhang(bytes, s.cursor as u64, s.index, s.host_label(), s.mode);
        }
        lemma_run_bound(t);
    }
}

proof fn lemma_batch_end_bound(s: ScanModel, files: Map<Seq<char>, Seq<u8>>)
    requires
        s.rows.len() <= BATCH_ROWS + overhang(s.mode),
    ensures
        s.batch_end(files).rows.len() <= BATCH_ROWS + overhang(s.mode),
    decreases s.sources_left(), s.phase(),
{
    lemma_run_bound(s);
    if let Step::Halt(Stop::Load(p)) = s.run().next() {
        lemma_load_decreases(s, p, files);
        lemma_batch_end_bound(s.run().opened(files[p]), files);
    }
}

/// Whether slot `n` of an image holds a record.
pub open spec fn holds_record(bytes: Seq<u8>, n: int) -> bool {
    0 <= n < count_of(bytes) && record_at(bytes, n as u64, RESIDENT_CAP) is Some
}

/// Whether the rows are one for each record of the slots from `from` on up to `to`, in
/// strictly ascending order of their numbers.
pub open spec fn one_row_each(bytes: Seq<u8>, rows: Seq<RowModel>, from: int, to: int) -> bool {
    &&& forall|i: int, j: int| 0 <= i < j < rows.len() ==> rows[i].entry < rows[j].entry
    &&& forall|i: int|
        0 <= i < rows.len() ==> from <= (#[trigger] rows[i]).entry < to && holds_record(
            bytes,
            rows[i].entry as int,
        )
    &&& forall|n: int|
        from <= n < to && #[trigger] holds_record(bytes, n) ==> exists|i: int|
            0 <= i < rows.len() && (#[trigger] rows[i]).entry == n
}

/// In files mode the batches of a scan over an image hold one row for each record of
/// the image, in strictly ascending order of the record numbers: none is lost and none
/// comes twice.
pub proof fn law_files_mode_has_one_row_per_record(
    bytes: Seq<u8>,
    host: Option<Seq<char>>,
    files: Map<Seq<char>, Seq<u8>>,
)
    requires
        bytes.len() <= u64::MAX,
    ensures
        one_row_each(
            bytes,
            fresh_scan(seq![SourceModel::Blob(bytes)], host, Mode::Files).batches(files).flatten(),
            0,
            count_of(bytes) as int,
        ),
{
    let sources = seq![SourceModel::Blob(bytes)];
    let index = index_of(bytes, RESIDENT_CAP, Map::empty());
    let s = fresh_scan(sources, host, Mode::Files);
    law_batches_hold_every_row(s, files);
    law_fresh_scan_emits_all(sources, host, Mode::Files, files);
    let rows = range_rows(bytes, index, host, Mode::Files, 0, count_of(bytes));
    reveal_with_fuel(sources_rows, 2);
    assert(sources_rows(sources, host, Mode::Files, 0, files) =~= rows);
    lemma_count_bound(bytes);
    lemma_range_rows(bytes, index, host, 0, count_of(bytes));
}

/// An image has no more records than bytes.
proof fn lemma_count_bound(bytes: Seq<u8>)
    ensures
        count_of(bytes) <= bytes.len(),
{
    crate::decoder::lemma_slot_range(bytes, 0);
    let size = crate::decoder::stride_of(bytes) as int;
    let len = bytes.len() as int;
    assert(len / size <= len) by (nonlinear_arith)
        requires
            size >= 1,
            len >= 0,
    ;
}

/// A record carries its own slot number.
proof fn lemma_record_number(bytes: Seq<u8>, n: u64)
    ensures
        record_at(bytes, n, RESIDENT_CAP) matches Some(rec) ==> rec.entry == n,
{
}

proof fn lemma_range_rows(
    bytes: Seq<u8>,
    index: Map<u64, NodeModel>,
    host: Option<Seq<char>>,
    from: nat,
    to: nat,
)
    requires
        to <= count_of(bytes),
        to <= u64::MAX,
    ensures
        one_row_each(
            bytes,
            range_rows(bytes, index, host, Mode::Files, from, to),
            from as int,
            to as int,
        ),
    decreases to - from,
{
    if from < to {
        let n = from as u64;
        let here = slot_rows(bytes, n, index, host, Mode::Files);
        let rest = range_rows(bytes, index, host, Mode::Files, from + 1, to);
        let rows = range_rows(bytes, index, host, Mode::Files, from, to);
        assert(rows == here + rest);
        lemma_range_rows(bytes, index, host, from + 1, to);
        lemma_record_number(bytes, n);
        reveal(slot_rows);
        if let Some(rec) = record_at(bytes, n, RESIDENT_CAP) {
            assert(here == rows_of(rec, index, host, Mode::Files));
            assert(here.len() == 1 && here[0].entry == n);
            assert(rows[0].entry == n);
            assert forall|i: int| 0 <= i < rest.len() implies rows[i + 1] == #[trigger] rest[i] by {}
            assert forall|k: int|
                from <= k < to && #[trigger] holds_record(bytes, k) implies exists|i: int|
                0 <= i < rows.len() && (#[trigger] rows[i]).entry == k by {
                if k > from {
                    let i = choose|i: int| 0 <= i < rest.len() && (#[trigger] rest[i]).entry == k;
                    assert(rows[i + 1].entry == k);
                }
            }
            assert forall|i: int, j: int| 0 <= i < j < rows.len() implies rows[i].entry
                < rows[j].entry by {
                assert(rest[j - 1] == rows[j]);
                if i > 0 {
                    assert(rest[i - 1] == rows[i]);
                }
            }
            assert forall|i: int| 0 <= i < rows.len() implies from <= (#[trigger] rows[i]).entry
                < to && holds_record(bytes, rows[i].entry as int) by {
                if i > 0 {
                    assert(rest[i - 1] == rows[i]);
                }
            }
        } else {
            assert(here =~= Seq::empty());
            assert(rows =~= rest);
        }
    }
}

/// A step counts the rows that it adds.
proof fn lemma_step_counts(s: ScanModel, t: ScanModel)
    requires
        s.emitted <= u64::MAX,
        s.next() == Step::Go(t),
    ensures
        s.rows.len() <= t.rows.len(),
        t.emitted == wrapped((s.emitted + t.rows.len() - s.rows.len()) as nat),
        t.emitted <= u64::MAX,
{
    reveal(ScanModel::next);
}

/// Counting on in two goes is counting on in one.
proof fn lemma_wrapped_twice(n: nat, more: nat)
    ensures
        wrapped(wrapped(n) + more) == wrapped(n + more),
{
    vstd::arithmetic::div_mod::lemma_add_mod_noop_right(
        more as int,
        n as int,
        0x1_0000_0000_0000_0000,
    );
}

/// The counter counts every row, in 64 bits.
pub proof fn law_counter_counts_the_rows(s: ScanModel)
    requires
        s.emitted <= u64::MAX,
    ensures
        s.rows.len() <= s.run().rows.len(),
        s.run().emitted == wrapped((s.emitted + s.run().rows.len() - s.rows.len()) as nat),
    decreases s.sources_left(), s.phase(), s.entries_left(),
{
    if let Step::Go(t) = s.next() {
        lemma_step_decreases(s, t);
        lemma_step_counts(s, t);
        law_counter_counts_the_rows(t);
        lemma_wrapped_twice(
            (s.emitted + t.rows.len() - s.rows.len()) as nat,
            (t.run().rows.len() - t.rows.len()) as nat,
        );
    }
}

/// The contents of a list of batches.
pub open spec fn batches_model(batches: Seq<Vec<EmitRow>>) -> Seq<Seq<RowModel>> {
    batches.map_values(|rows: Vec<EmitRow>| rows_model(rows@))
}

/// A scan over a blob asks for no file.
pub proof fn law_blob_scan_asks_for_no_file(s: ScanModel, bytes: Seq<u8>)
    requires
        s.sources == seq![SourceModel::Blob(bytes)],
    ensures
        !(s.run().next() matches Step::Halt(Stop::Load(_))),
{
    lemma_run_keeps(s);
    reveal(ScanModel::next);
}

/// Scan a blob to its end, batch by batch.
pub fn scan_blob(bytes: Vec<u8>, host: Option<String>, mode: Mode) -> (r: Vec<Vec<EmitRow>>)
    ensures
        forall|files: Map<Seq<char>, Seq<u8>>|
            batches_model(r@) == #[trigger] fresh_scan(
                seq![SourceModel::Blob(bytes@)],
                opt_text(host),
                mode,
            ).batches(files),
{
    let ghost fresh = fresh_scan(seq![SourceModel::Blob(bytes@)], opt_text(host), mode);
    let mut p = ReadMftProducer::new_blob(bytes, host, mode);
    let mut out: Vec<Vec<EmitRow>> = Vec::new();
    proof {
        assert forall|files: Map<Seq<char>, Seq<u8>>| true implies batches_model(out@)
            + p@.batches(files) == #[trigger] fresh.batches(files) by {
            assert(batches_model(out@) + p@.batches(files) =~= fresh.batches(files));
        }
    }
    loop
        invariant
            p.wf(),
            p@.sources == fresh.sources,
            fresh == fresh_scan(seq![SourceModel::Blob(bytes@)], opt_text(host), mode),
            p@.pending is None,
            forall|files: Map<Seq<char>, Seq<u8>>|
                batches_model(out@) + p@.batches(files) == #[trigger] fresh.batches(files),
        decreases p@.batches(Map::empty()).len(),
    {
        let ghost here = p@;
        let ghost before = batches_model(out@);
        proof {
            law_blob_scan_asks_for_no_file(here, bytes@);
        }
        let step = p.produce();
        match step {
            ScanStep::Batch(rows) => {
                let ghost first = rows_model(rows@);
                out.push(rows);
                proof {
                    assert(batches_model(out@) =~= before.push(first));
                    assert(here.batches(Map::empty()) == seq![first] + p@.batches(Map::empty()));
                    assert forall|files: Map<Seq<char>, Seq<u8>>| true implies batches_model(out@)
                        + p@.batches(files) == #[trigger] fresh.batches(files) by {
                        assert(here.batches(files) == seq![first] + p@.batches(files));
                        assert(batches_model(out@) + p@.batches(files) =~= before + here.batches(
                            files,
                        ));
                    }
                }
            },
            ScanStep::Done => {
                proof {
                    assert forall|files: Map<Seq<char>, Seq<u8>>| true implies batches_model(out@)
                        == #[trigger] fresh.batches(files) by {
                        assert(here.batches(files) == Seq::<Seq<RowModel>>::empty());
                        assert(before + here.batches(files) =~= before);
                    }
                }
                return out;
            },
            ScanStep::Load(_) => {
                assert(false);
                return out;
            },
        }
    }
}

/// A batch has from 1 to 2048 rows, and every batch but the last has 2048. Only in streams
/// mode may the last record of a batch take it further, by its own streams.
pub proof fn law_batch_sizes(s: ScanModel, files: Map<Seq<char>, Seq<u8>>, i: int)
    requires
        s.rows.len() == 0,
        s.source_idx <= s.sources.len(),
        s.consistent(files),
        0 <= i < s.batches(files).len(),
    ensures
        s.batches(files)[i].len() >= 1,
        i + 1 < s.batches(files).len() ==> s.batches(files)[i].len() >= 2048,
        !(s.mode is Streams) ==> s.batches(files)[i].len() <= 2048,
        s.mode is Streams ==> s.batches(files)[i].len() < 2048 + 256,
{
    law_batches_are_full(s, files, i);
}

/// The batches of a scan over an image are the rows of its records, slot after slot, over
/// the path index of the image.
pub proof fn law_blob_scan_reads_every_slot(
    bytes: Seq<u8>,
    host: Option<Seq<char>>,
    mode: Mode,
    files: Map<Seq<char>, Seq<u8>>,
)
    ensures
        fresh_scan(seq![SourceModel::Blob(bytes)], host, mode).batches(files).flatten()
            == range_rows(
            bytes,
            index_of(bytes, 0x10_0000, Map::empty()),
            host,
            mode,
            0,
            count_of(bytes),
        ),
{
    let sources = seq![SourceModel::Blob(bytes)];
    law_batches_hold_every_row(fresh_scan(sources, host, mode), files);
    law_fresh_scan_emits_all(sources, host, mode, files);
    let rows = range_rows(
        bytes,
        index_of(bytes, RESIDENT_CAP, Map::empty()),
        host,
        mode,
        0,
        count_of(bytes),
    );
    reveal_with_fuel(sources_rows, 2);
    assert(sources_rows(sources, host, mode, 0, files) =~= rows);
}

/// In files mode each record of an image has its row in the scan: the one row of that
/// record, with its path over the image.
pub proof fn law_files_scan_shows_each_record(
    bytes: Seq<u8>,
    host: Option<Seq<char>>,
    files: Map<Seq<char>, Seq<u8>>,
    i: int,
)
    requires
        bytes.len() <= u64::MAX,
        0 <= i < fresh_scan(seq![SourceModel::Blob(bytes)], host, Mode::Files).batches(
            files,
        ).flatten().len(),
    ensures
        ({
            let row = fresh_scan(seq![SourceModel::Blob(bytes)], host, Mode::Files).batches(
                files,
            ).flatten()[i];
            let index = index_of(bytes, 0x10_0000, Map::empty());
            record_at(bytes, row.entry, 0x10_0000) matches Some(rec) && rows_of(
                rec,
                index,
                host,
                Mode::Files,
            ) == seq![row]
        }),
{
    let index = index_of(bytes, RESIDENT_CAP, Map::empty());
    law_blob_scan_reads_every_slot(bytes, host, Mode::Files, files);
    lemma_count_bound(bytes);
    lemma_row_of_slot(bytes, index, host, 0, count_of(bytes), i);
}

proof fn lemma_row_of_slot(
    bytes: Seq<u8>,
    index: Map<u64, NodeModel>,
    host: Option<Seq<char>>,
    from: nat,
    to: nat,
    i: int,
)
    requires
        to <= u64::MAX,
        0 <= i < range_rows(bytes, index, host, Mode::Files, from, to).len(),
    ensures
        ({
            let row = range_rows(bytes, index, host, Mode::Files, from, to)[i];
            record_at(bytes, row.entry, RESIDENT_CAP) matches Some(rec) && rows_of(
                rec,
                index,
                host,
                Mode::Files,
            ) == seq![row]
        }),
    decreases to - from,
{
    let n = from as u64;
    let here = slot_rows(bytes, n, index, host, Mode::Files);
    let rest = range_rows(bytes, index, host, Mode::Files, from + 1, to);
    assert(from < to);
    lemma_record_number(bytes, n);
    reveal(slot_rows);
    if i < here.len() {
        let rec = record_at(bytes, n, RESIDENT_CAP)->0;
        assert(here =~= seq![here[0]]);
        assert(here[0].entry == rec.entry);
    } else {
        assert(range_rows(bytes, index, host, Mode::Files, from, to)[i] == rest[i - here.len()]);
        lemma_row_of_slot(bytes, index, host, from + 1, to, i - here.len());
    }
}

} // verus!
