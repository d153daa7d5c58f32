//! The scalar functions over a batch of rows: one result per row, `NULL` where an
//! argument is `NULL`.

use std::collections::hash_map::DefaultHasher;
use std::collections::BTreeMap;
use std::hash::Hasher;

use vstd::bytes::u64_to_le_bytes;
use vstd::prelude::*;
use vstd::slice::{slice_subrange, slice_to_vec};
use vstd::std_specs::hash::DefaultHasherAdditionalSpecFns;

use crate::bytes::{u16_at, u32_at, u64_at};
use crate::cursor::{nodes, ResolverNode, DEFAULT_MAX_DEPTH};
use crate::decoder::{
    decode_one, header_at, index_of, law_header_is_in_the_bytes, path_at, record_at, record_header,
    slot, verdict_at, well_formed, Decoder,
};
use crate::errors::{opt_text, WellFormed, WellFormedModel};
use crate::record::{
    opt_record, DecodedRecord, HeaderModel, RecordHeader, RecordModel, RESIDENT_CAP,
};
use crate::record_table::{
    bounds_of, flattened, law_boundaries_give_the_list_back, lemma_bounds_push, lemma_flat_prefix,
    lemma_flat_push,
};
use crate::resolver::resolve;
use crate::standard_info::Macb;
use crate::timestomp::{evaluate, reasons_of, suspect_of, Reason};

verus! {

/// The arguments `(blob, entry)` of one row.
#[derive(Clone, Copy, Debug)]
pub struct RecordArgs<'a> {
    pub blob: Option<&'a [u8]>,
    pub entry: Option<u64>,
}

impl<'a> RecordArgs<'a> {
    /// Whether neither argument is null.
    pub open spec fn present(self) -> bool {
        self.blob is Some && self.entry is Some
    }

    /// The bytes, where there are any.
    pub open spec fn image(self) -> Seq<u8> {
        self.blob->0@
    }
}

/// The record that a row asks for.
pub open spec fn record_for(args: RecordArgs) -> Option<RecordModel> {
    if args.present() {
        record_at(args.image(), args.entry->0, RESIDENT_CAP)
    } else {
        None
    }
}

/// The record that a row asks for: none for an empty or missing slot, nor for a row
/// with a null argument.
pub fn decode_row(args: &RecordArgs) -> (r: Option<DecodedRecord>)
    ensures
        opt_record(r) == record_for(*args),
{
    match (args.blob, args.entry) {
        (Some(bytes), Some(idx)) => match decode_one(slice_to_vec(bytes), idx) {
            Ok(rec) => rec,
            Err(_) => None,
        },
        _ => None,
    }
}

/// `mft_record(blob, entry)` over a batch: each row's record.
pub fn mft_record_rows(rows: &[RecordArgs]) -> (r: Vec<Option<DecodedRecord>>)
    ensures
        r@.len() == rows@.len(),
        forall|i: int| 0 <= i < rows@.len() ==> opt_record(#[trigger] r@[i]) == record_for(rows@[i]),
{
    let mut out: Vec<Option<DecodedRecord>> = Vec::new();
    let mut i: usize = 0;
    while i < rows.len()
        invariant
            i <= rows@.len(),
            out@.len() == i,
            forall|j: int| 0 <= j < i ==> opt_record(#[trigger] out@[j]) == record_for(rows@[j]),
        decreases rows@.len() - i,
    {
        out.push(decode_row(&rows[i]));
        i = i + 1;
    }
    out
}

/// The columns of the `record_header` struct.
pub struct HeaderColumns {
    pub signature: Vec<Option<String>>,
    pub sequence: Vec<Option<u16>>,
    pub in_use: Vec<Option<bool>>,
    pub is_dir: Vec<Option<bool>>,
    pub base_ref: Vec<Option<u64>>,
    pub lsn: Vec<Option<u64>>,
    pub used_size: Vec<Option<u32>>,
    pub allocated_size: Vec<Option<u32>>,
    pub validity: Vec<bool>,
}

/// The header that a row asks for.
pub open spec fn header_for(args: RecordArgs) -> Option<HeaderModel> {
    if args.present() {
        header_at(args.image(), args.entry->0)
    } else {
        None
    }
}

impl HeaderColumns {
    /// Whether every column has `n` values.
    pub open spec fn rows(self, n: nat) -> bool {
        &&& self.signature@.len() == n
        &&& self.sequence@.len() == n
        &&& self.in_use@.len() == n
        &&& self.is_dir@.len() == n
        &&& self.base_ref@.len() == n
        &&& self.lsn@.len() == n
        &&& self.used_size@.len() == n
        &&& self.allocated_size@.len() == n
        &&& self.validity@.len() == n
    }

    /// Whether row `i` is the header `h`: its values, or all null.
    pub open spec fn shows(self, i: int, h: Option<HeaderModel>) -> bool {
        match h {
            Some(h) => {
                &&& opt_text(self.signature@[i]) == Some(h.signature)
                &&& self.sequence@[i] == Some(h.sequence)
                &&& self.in_use@[i] == Some(h.in_use)
                &&& self.is_dir@[i] == Some(h.is_dir)
                &&& self.base_ref@[i] == Some(h.base_ref)
                &&& self.lsn@[i] == Some(h.lsn)
                &&& self.used_size@[i] == Some(h.used_size)
                &&& self.allocated_size@[i] == Some(h.allocated_size)
                &&& self.validity@[i]
            },
            None => {
                &&& self.signature@[i] is None
                &&& self.sequence@[i] is None
                &&& self.in_use@[i] is None
                &&& self.is_dir@[i] is None
                &&& self.base_ref@[i] is None
                &&& self.lsn@[i] is None
                &&& self.used_size@[i] is None
                &&& self.allocated_size@[i] is None
                &&& !self.validity@[i]
            },
        }
    }

    fn push(&mut self, header: Option<RecordHeader>, Ghost(n): Ghost<nat>)
        requires
            old(self).rows(n),
        ensures
            final(self).rows(n + 1),
            final(self).shows(
                n as int,
                match header {
                    Some(h) => Some(h@),
                    None => None,
                },
            ),
            forall|i: int, m: Option<HeaderModel>|
                0 <= i < n && old(self).shows(i, m) ==> #[trigger] final(self).shows(i, m),
    {
        match header {
            Some(h) => {
                self.signature.push(Some(h.signature));
                self.sequence.push(Some(h.sequence));
                self.in_use.push(Some(h.in_use));
                self.is_dir.push(Some(h.is_dir));
                self.base_ref.push(Some(h.base_ref));
                self.lsn.push(Some(h.lsn));
                self.used_size.push(Some(h.used_size));
                self.allocated_size.push(Some(h.allocated_size));
                self.validity.push(true);
            },
            None => {
                self.signature.push(None);
                self.sequence.push(None);
                self.in_use.push(None);
                self.is_dir.push(None);
                self.base_ref.push(None);
                self.lsn.push(None);
                self.used_size.push(None);
                self.allocated_size.push(None);
                self.validity.push(false);
            },
        }
    }
}

/// `record_header(blob, entry)` over a batch: each row's header.
pub fn record_header_rows(rows: &[RecordArgs]) -> (r: HeaderColumns)
    ensures
        r.rows(rows@.len()),
        forall|i: int| 0 <= i < rows@.len() ==> r.shows(i, header_for(#[trigger] rows@[i])),
{
    let mut out = HeaderColumns {
        signature: Vec::new(),
        sequence: Vec::new(),
        in_use: Vec::new(),
        is_dir: Vec::new(),
        base_ref: Vec::new(),
        lsn: Vec::new(),
        used_size: Vec::new(),
        allocated_size: Vec::new(),
        validity: Vec::new(),
    };
    let mut i: usize = 0;
    while i < rows.len()
        invariant
            i <= rows@.len(),
            out.rows(i as nat),
            forall|j: int| 0 <= j < i ==> out.shows(j, header_for(#[trigger] rows@[j])),
        decreases rows@.len() - i,
    {
        let ghost before = out;
        let header = match (rows[i].blob, rows[i].entry) {
            (Some(bytes), Some(idx)) => record_header(slice_to_vec(bytes), idx),
            _ => None,
        };
        out.push(header, Ghost(i as nat));
        assert forall|j: int| 0 <= j < i + 1 implies out.shows(
            j,
            header_for(#[trigger] rows@[j]),
        ) by {
            if j < i {
                assert(before.shows(j, header_for(rows@[j])));
            }
        }
        i = i + 1;
    }
    out
}

/// The columns of the `well_formed` struct.
pub struct VerdictColumns {
    pub ok: Vec<Option<bool>>,
    pub error: Vec<Option<String>>,
    pub kind: Vec<Option<&'static str>>,
    pub validity: Vec<bool>,
}

/// The verdict that a row asks for.
pub open spec fn verdict_for(args: RecordArgs) -> Option<WellFormedModel> {
    if args.present() {
        Some(verdict_at(args.image(), args.entry->0))
    } else {
        None
    }
}

impl VerdictColumns {
    /// Whether every column has `n` values.
    pub open spec fn rows(self, n: nat) -> bool {
        &&& self.ok@.len() == n
        &&& self.error@.len() == n
        &&& self.kind@.len() == n
        &&& self.validity@.len() == n
    }

    /// Whether row `i` is the verdict `v`: its values, or all null.
    pub open spec fn shows(self, i: int, v: Option<WellFormedModel>) -> bool {
        match v {
            Some(w) => {
                &&& self.ok@[i] == Some(w.ok)
                &&& opt_text(self.error@[i]) == w.error
                &&& self.kind@[i] is Some
                &&& self.kind@[i]->0@ == w.kind.token()
                &&& self.validity@[i]
            },
            None => {
                &&& self.ok@[i] is None
                &&& self.error@[i] is None
                &&& self.kind@[i] is None
                &&& !self.validity@[i]
            },
        }
    }

    fn push(&mut self, verdict: Option<WellFormed>, Ghost(n): Ghost<nat>)
        requires
            old(self).rows(n),
        ensures
            final(self).rows(n + 1),
            final(self).shows(
                n as int,
                match verdict {
                    Some(w) => Some(w@),
                    None => None,
                },
            ),
            forall|i: int, m: Option<WellFormedModel>|
                0 <= i < n && old(self).shows(i, m) ==> #[trigger] final(self).shows(i, m),
    {
        match verdict {
            Some(w) => {
                self.ok.push(Some(w.ok));
                self.kind.push(Some(w.kind.as_str()));
                self.error.push(w.error);
                self.validity.push(true);
            },
            None => {
                self.ok.push(None);
                self.error.push(None);
                self.kind.push(None);
                self.validity.push(false);
            },
        }
    }
}

/// `well_formed(blob, entry)` over a batch: each row's verdict.
pub fn well_formed_rows(rows: &[RecordArgs]) -> (r: VerdictColumns)
    ensures
        r.rows(rows@.len()),
        forall|i: int| 0 <= i < rows@.len() ==> r.shows(i, verdict_for(#[trigger] rows@[i])),
{
    let mut out = VerdictColumns {
        ok: Vec::new(),
        error: Vec::new(),
        kind: Vec::new(),
        validity: Vec::new(),
    };
    let mut i: usize = 0;
    while i < rows.len()
        invariant
            i <= rows@.len(),
            out.rows(i as nat),
            forall|j: int| 0 <= j < i ==> out.shows(j, verdict_for(#[trigger] rows@[j])),
        decreases rows@.len() - i,
    {
        let ghost before = out;
        let verdict = match (rows[i].blob, rows[i].entry) {
            (Some(bytes), Some(idx)) => Some(well_formed(slice_to_vec(bytes), idx)),
            _ => None,
        };
        out.push(verdict, Ghost(i as nat));
        assert forall|j: int| 0 <= j < i + 1 implies out.shows(
            j,
            verdict_for(#[trigger] rows@[j]),
        ) by {
            if j < i {
                assert(before.shows(j, verdict_for(rows@[j])));
            }
        }
        i = i + 1;
    }
    out
}

/// The columns of the `timestomp` struct: a flag per row, and the reasons of all rows
/// one after another with the boundaries between the rows.
pub struct StompColumns {
    pub suspect: Vec<bool>,
    pub reasons: Vec<&'static str>,
    pub offsets: Vec<i32>,
}

/// The two quads of one row.
#[derive(Clone, Copy, Debug)]
pub struct QuadArgs {
    pub si: Macb,
    pub fna: Macb,
}

/// The reasons of each row.
pub open spec fn reason_lists(rows: Seq<QuadArgs>) -> Seq<Seq<Reason>> {
    rows.map_values(|q: QuadArgs| reasons_of(q.si, q.fna))
}

impl StompColumns {
    /// Whether these are the columns of `rows`.
    pub open spec fn holds(self, rows: Seq<QuadArgs>) -> bool {
        &&& self.suspect@.len() == rows.len()
        &&& forall|i: int|
            0 <= i < rows.len() ==> self.suspect@[i] == suspect_of(
                (#[trigger] rows[i]).si,
                rows[i].fna,
            )
        &&& self.reasons@.len() == flattened(reason_lists(rows)).len()
        &&& forall|k: int|
            0 <= k < self.reasons@.len() ==> (#[trigger] self.reasons@[k])@ == flattened(
                reason_lists(rows),
            )[k].token()
        &&& bounds_of(self.offsets@, reason_lists(rows))
    }
}

/// `timestomp(si, fn)` over a batch: each row's suspicion and reasons.
pub fn timestomp_rows(rows: &[QuadArgs]) -> (r: StompColumns)
    requires
        flattened(reason_lists(rows@)).len() <= i32::MAX,
    ensures
        r.holds(rows@),
{
    let mut suspect: Vec<bool> = Vec::new();
    let mut reasons: Vec<&'static str> = Vec::new();
    let mut offsets: Vec<i32> = Vec::new();
    offsets.push(0);
    let ghost lists = reason_lists(rows@);
    assert(lists.take(0) =~= Seq::empty());
    assert(reason_lists(rows@.take(0)) =~= Seq::empty());
    let mut i: usize = 0;
    while i < rows.len()
        invariant
            i <= rows@.len(),
            lists == reason_lists(rows@),
            flattened(lists).len() <= i32::MAX,
            (StompColumns { suspect, reasons, offsets }).holds(rows@.take(i as int)),
        decreases rows@.len() - i,
    {
        let ghost done = rows@.take(i as int);
        let ghost flat = flattened(reason_lists(done));
        let ghost more = reasons_of(rows@[i as int].si, rows@[i as int].fna);
        let ghost old_reasons = reasons@;
        let ghost old_offsets = offsets@;
        proof {
            assert(rows@.take(i + 1) =~= done.push(rows@[i as int]));
            assert(reason_lists(done.push(rows@[i as int])) =~= reason_lists(done).push(more));
            lemma_flat_push(reason_lists(done), more);
            assert(lists.take(i + 1) =~= reason_lists(rows@.take(i + 1)));
            lemma_flat_prefix(lists, i + 1);
        }
        let t = evaluate(&rows[i].si, &rows[i].fna);
        suspect.push(t.suspect);
        let mut k: usize = 0;
        while k < t.reasons.len()
            invariant
                k <= t.reasons@.len(),
                t.reasons@ == more,
                reasons@.len() == flat.len() + k,
                old_reasons.len() == flat.len(),
                forall|j: int| 0 <= j < flat.len() ==> reasons@[j] == old_reasons[j],
                forall|j: int|
                    0 <= j < k ==> (#[trigger] reasons@[flat.len() + j])@ == more[j].token(),
            decreases t.reasons@.len() - k,
        {
            reasons.push(t.reasons[k].as_str());
            k = k + 1;
        }
        let end: usize = reasons.len();
        offsets.push(end as i32);
        proof {
            lemma_bounds_push(old_offsets, reason_lists(done), more, end as i32);
            assert forall|j: int| 0 <= j < reasons@.len() implies (#[trigger] reasons@[j])@ == (flat
                + more)[j].token() by {
                if j >= flat.len() {
                    let d = j - flat.len();
                    assert(reasons@[flat.len() + d]@ == more[d].token());
                } else {
                    assert(old_reasons[j]@ == flat[j].token());
                }
            }
        }
        i = i + 1;
    }
    assert(rows@.take(rows@.len() as int) =~= rows@);
    StompColumns { suspect, reasons, offsets }
}

/// `mft_version()` over a batch: one value per row, and one where there is none.
pub fn version_rows(rows: usize) -> (r: Vec<&'static str>)
    ensures
        r@.len() == if rows == 0 {
            1
        } else {
            rows as int
        },
        forall|i: int| 0 <= i < r@.len() ==> (#[trigger] r@[i])@ == "0.1.0"@,
{
    let count: usize = if rows == 0 {
        1
    } else {
        rows
    };
    let mut out: Vec<&'static str> = Vec::new();
    let mut i: usize = 0;
    while i < count
        invariant
            i <= count,
            out@.len() == i,
            forall|j: int| 0 <= j < i ==> (#[trigger] out@[j])@ == "0.1.0"@,
        decreases count - i,
    {
        out.push(crate::version());
        i = i + 1;
    }
    out
}

/// Eight bytes for a length.
pub open spec fn length_bytes(n: int) -> Seq<u8> {
    vstd::bytes::spec_u64_to_le_bytes(n as u64)
}

/// What is sampled of a blob: its length, and, each with its own length before it, the
/// first 64 bytes and, of a longer blob, the last 64 and 64 from the middle.
pub open spec fn samples(bytes: Seq<u8>) -> Seq<Seq<u8>> {
    let n = bytes.len() as int;
    let take = if n < 64 {
        n
    } else {
        64
    };
    let head = seq![length_bytes(n), length_bytes(take), bytes.take(take)];
    if n > 64 {
        let mid = n / 2;
        let end = if mid + 64 < n {
            mid + 64
        } else {
            n
        };
        head + seq![
            length_bytes(64),
            bytes.subrange(n - 64, n),
            length_bytes(end - mid),
            bytes.subrange(mid, end),
        ]
    } else {
        head
    }
}

/// The fingerprint of a blob: the hash of what is sampled of it.
pub open spec fn fingerprint_of(bytes: Seq<u8>) -> u64 {
    DefaultHasher::spec_finish(samples(bytes))
}

/// Hashes some bytes with their length before them.
fn hash_bytes(h: &mut DefaultHasher, bytes: &[u8])
    ensures
        final(h)@ == old(h)@ + seq![length_bytes(bytes@.len() as int), bytes@],
{
    let length = u64_to_le_bytes(bytes.len() as u64);
    h.write(length.as_slice());
    h.write(bytes);
}

/// A cheap content fingerprint (length + sampled bytes) to detect a repeated
/// blob across batch rows without an O(n) compare.
fn fingerprint(bytes: &[u8]) -> (r: u64)
    ensures
        r == fingerprint_of(bytes@),
{
    let n: usize = bytes.len();
    let mut h = DefaultHasher::new();
    let length = u64_to_le_bytes(n as u64);
    h.write(length.as_slice());
    let take: usize = if n < 64 {
        n
    } else {
        64
    };
    hash_bytes(&mut h, slice_subrange(bytes, 0, take));
    if n > 64 {
        hash_bytes(&mut h, slice_subrange(bytes, n - 64, n));
        let mid: usize = n / 2;
        let end: usize = if n - mid > 64 {
            mid + 64
        } else {
            n
        };
        hash_bytes(&mut h, slice_subrange(bytes, mid, end));
    }
    assert(h@ =~= samples(bytes@));
    h.finish()
}

/// The index of the most recent blob, with the blob and its fingerprint.
struct PathCache<'a> {
    key: u64,
    blob: &'a [u8],
    resolver: BTreeMap<u64, ResolverNode>,
}

/// The path that a row asks for: that of its entry over its own blob.
pub open spec fn path_for(args: RecordArgs) -> Option<Seq<char>> {
    if args.present() {
        path_at(args.image(), args.entry->0, DEFAULT_MAX_DEPTH)
    } else {
        None
    }
}

/// Whether the cached index, if there is one, is that of the cached blob.
spec fn cache_holds(cache: Option<PathCache>) -> bool {
    cache matches Some(c) ==> nodes(c.resolver@) == index_of(c.blob@, RESIDENT_CAP, Map::empty())
}

/// Tests whether two blobs are the same.
fn same_bytes(a: &[u8], b: &[u8]) -> (r: bool)
    ensures
        r == (a@ == b@),
{
    if a.len() != b.len() {
        return false;
    }
    let mut i: usize = 0;
    while i < a.len()
        invariant
            a@.len() == b@.len(),
            i <= a@.len(),
            forall|j: int| 0 <= j < i ==> a@[j] == b@[j],
        decreases a@.len() - i,
    {
        if a[i] != b[i] {
            return false;
        }
        i = i + 1;
    }
    assert(a@ =~= b@);
    true
}

/// The index of a blob.
fn index_blob(bytes: &[u8]) -> (r: BTreeMap<u64, ResolverNode>)
    ensures
        nodes(r@) == index_of(bytes@, RESIDENT_CAP, Map::empty()),
{
    let mut dec = Decoder::open(slice_to_vec(bytes), RESIDENT_CAP);
    let mut resolver: BTreeMap<u64, ResolverNode> = BTreeMap::new();
    assert(nodes(resolver@) =~= Map::empty());
    dec.build_resolver(&mut resolver);
    resolver
}

/// `full_path(blob, entry)` over a batch: each row's path over its own blob. The index
/// of the most recent blob is kept, under a cheap content fingerprint: the common call
/// passes one literal blob and a varying entry, so the index is built once for the whole
/// batch. A matching fingerprint is confirmed by the bytes.
pub fn full_path_rows(rows: &[RecordArgs]) -> (r: Vec<Option<String>>)
    ensures
        r@.len() == rows@.len(),
        forall|i: int| 0 <= i < rows@.len() ==> opt_text(#[trigger] r@[i]) == path_for(rows@[i]),
{
    let mut out: Vec<Option<String>> = Vec::new();
    let mut cache: Option<PathCache> = None;
    let mut i: usize = 0;
    while i < rows.len()
        invariant
            i <= rows@.len(),
            out@.len() == i,
            cache_holds(cache),
            forall|j: int| 0 <= j < i ==> opt_text(#[trigger] out@[j]) == path_for(rows@[j]),
        decreases rows@.len() - i,
    {
        match (rows[i].blob, rows[i].entry) {
            (Some(bytes), Some(idx)) => {
                let key: u64 = fingerprint(bytes);
                let kept = match cache {
                    Some(c) => if c.key == key && same_bytes(c.blob, bytes) {
                        c
                    } else {
                        PathCache { key, blob: bytes, resolver: index_blob(bytes) }
                    },
                    None => PathCache { key, blob: bytes, resolver: index_blob(bytes) },
                };
                if kept.resolver.contains_key(&idx) {
                    out.push(Some(resolve(&kept.resolver, idx, DEFAULT_MAX_DEPTH).path));
                } else {
                    out.push(None);
                }
                cache = Some(kept);
            },
            _ => {
                out.push(None);
            },
        }
        i = i + 1;
    }
    out
}

/// A row depends on its own blob and entry only: whatever the other rows of two batches
/// are, rows with the same arguments yield the same path, that of the entry over the
/// row's own blob.
pub proof fn law_path_rows_are_independent(
    rows: Seq<RecordArgs>,
    out: Seq<Option<String>>,
    others: Seq<RecordArgs>,
    other_out: Seq<Option<String>>,
    i: int,
    j: int,
)
    requires
        0 <= i < rows.len(),
        0 <= j < others.len(),
        out.len() == rows.len(),
        other_out.len() == others.len(),
        forall|k: int| 0 <= k < rows.len() ==> opt_text(#[trigger] out[k]) == path_for(rows[k]),
        forall|k: int|
            0 <= k < others.len() ==> opt_text(#[trigger] other_out[k]) == path_for(others[k]),
        rows[i].present() && others[j].present(),
        rows[i].image() == others[j].image(),
        rows[i].entry == others[j].entry,
    ensures
        opt_text(out[i]) == opt_text(other_out[j]),
        opt_text(out[i]) == path_at(rows[i].image(), rows[i].entry->0, DEFAULT_MAX_DEPTH),
{
    assert(opt_text(out[i]) == path_for(rows[i]));
    assert(opt_text(other_out[j]) == path_for(others[j]));
}

/// A row is answered from its own blob and entry: the record of that slot with at most one
/// mebibyte of inline data, its header, its verdict, and its path over at most 256 entries.
pub proof fn law_row_is_answered_from_its_own_image(args: RecordArgs, bytes: Seq<u8>, n: u64)
    requires
        args.blob is Some,
        args.blob->0@ == bytes,
        args.entry == Some(n),
    ensures
        record_for(args) == record_at(bytes, n, 0x10_0000),
        header_for(args) == header_at(bytes, n),
        verdict_for(args) == Some(verdict_at(bytes, n)),
        path_for(args) == path_at(bytes, n, 256),
{
}

/// A null blob or a null entry gives a null answer, whatever is asked for.
pub proof fn law_null_argument_gives_null(args: RecordArgs)
    requires
        args.blob is None || args.entry is None,
    ensures
        record_for(args) is None,
        header_for(args) is None,
        verdict_for(args) is None,
        path_for(args) is None,
{
}

/// A header row holds each field under its own name, and nothing where there is no header.
pub proof fn law_header_columns_keep_their_names(c: HeaderColumns, i: int, h: Option<HeaderModel>)
    requires
        c.shows(i, h),
    ensures
        c.validity@[i] == h is Some,
        h matches Some(h) ==> {
            &&& opt_text(c.signature@[i]) == Some(h.signature)
            &&& c.sequence@[i] == Some(h.sequence)
            &&& c.in_use@[i] == Some(h.in_use)
            &&& c.is_dir@[i] == Some(h.is_dir)
            &&& c.base_ref@[i] == Some(h.base_ref)
            &&& c.lsn@[i] == Some(h.lsn)
            &&& c.used_size@[i] == Some(h.used_size)
            &&& c.allocated_size@[i] == Some(h.allocated_size)
        },
        h is None ==> c.signature@[i] is None && c.sequence@[i] is None && c.in_use@[i] is None
            && c.is_dir@[i] is None && c.base_ref@[i] is None && c.lsn@[i] is None
            && c.used_size@[i] is None && c.allocated_size@[i] is None,
{
}

/// A reported header row is that of the record's own bytes.
pub proof fn law_header_row_is_in_the_bytes(c: HeaderColumns, i: int, args: RecordArgs)
    requires
        c.shows(i, header_for(args)),
        header_for(args) is Some,
    ensures
        ({
            let record = slot(args.blob->0@, args.entry->0)->0;
            &&& c.sequence@[i] == Some(u16_at(record, 0x10))
            &&& c.used_size@[i] == Some(u32_at(record, 0x18))
            &&& c.allocated_size@[i] == Some(u32_at(record, 0x1C))
            &&& c.lsn@[i] == Some(u64_at(record, 8))
            &&& c.base_ref@[i] == Some((u64_at(record, 0x20) % 0x1_0000_0000_0000) as u64)
            &&& c.in_use@[i] == Some(u16_at(record, 0x16) % 2 == 1)
            &&& c.is_dir@[i] == Some(u16_at(record, 0x16) / 2 % 2 == 1)
        }),
{
    law_header_is_in_the_bytes(args.blob->0@, args.entry->0);
}

/// A verdict row holds the verdict, its message and the token of its kind, and nothing
/// where there is no verdict.
pub proof fn law_verdict_columns_keep_their_names(
    c: VerdictColumns,
    i: int,
    v: Option<WellFormedModel>,
)
    requires
        c.shows(i, v),
    ensures
        c.validity@[i] == v is Some,
        v matches Some(w) ==> {
            &&& c.ok@[i] == Some(w.ok)
            &&& opt_text(c.error@[i]) == w.error
            &&& c.kind@[i] matches Some(k) && k@ == w.kind.token()
        },
        v is None ==> c.ok@[i] is None && c.error@[i] is None && c.kind@[i] is None,
{
}

/// A timestomp row is scored from its own quads: its flag, and between its two boundaries
/// the tokens of its reasons, in order and with no other.
pub proof fn law_stomp_row_is_scored(c: StompColumns, rows: Seq<QuadArgs>, i: int)
    requires
        c.holds(rows),
        0 <= i < rows.len(),
    ensures
        c.suspect@.len() == rows.len(),
        c.suspect@[i] == suspect_of(rows[i].si, rows[i].fna),
        ({
            let reasons = reasons_of(rows[i].si, rows[i].fna);
            let from = c.offsets@[i];
            &&& c.offsets@[i + 1] - from == reasons.len()
            &&& forall|j: int|
                0 <= j < reasons.len() ==> c.reasons@[from + j]@ == (
                #[trigger] reasons[j]).token()
        }),
{
    let lists = reason_lists(rows);
    let reasons = reasons_of(rows[i].si, rows[i].fna);
    assert(lists[i] == reasons);
    law_boundaries_give_the_list_back(c.offsets@, lists, i);
    let from = c.offsets@[i] as int;
    let part = flattened(lists).subrange(from, c.offsets@[i + 1] as int);
    assert forall|j: int| 0 <= j < reasons.len() implies c.reasons@[from + j]@ == (
    #[trigger] reasons[j]).token() by {
        assert(part[j] == reasons[j]);
        assert(flattened(lists)[from + j] == reasons[j]);
        assert(c.reasons@[from + j]@ == flattened(lists)[from + j].token());
    }
}

} // verus!
