//! Records of an in-memory `$MFT` image: decoding, validation, header probes and
//! the path index.

use std::collections::BTreeMap;

use vstd::prelude::*;
use vstd::slice::{slice_subrange, slice_to_vec};

use crate::attribute::{attributes_fit, attributes_within_bounds};
use crate::bytes::{read_u32, u16_at, u32_at, u64_at};
use crate::cursor::{nodes, NodeModel, ResolverNode};
use crate::entry::{
    baad_signature, file_signature, has_file_signature, signature_of, EntryModel, ParsedEntry,
};
use crate::errors::{clean, failed, opt_text, EntryError, WellFormed, WellFormedKind, WellFormedModel};
use crate::file_name::FileNameModel;
use crate::parse::{
    decode_entry_safe, decoded_safe, outcome_of, parse_record, OutcomeModel, ParseOutcome,
};
use crate::record::{
    diagnostic_model, diagnostic_record, header_of, opt_record, DecodedRecord, HeaderModel,
    RecordHeader, RecordModel, RESIDENT_CAP,
};
use crate::resolver::{resolve, resolved, ROOT_ENTRY};

verus! {

/// The stride where the image does not give a plausible one.
pub const DEFAULT_STRIDE: u32 = 1024;

/// The FILE-record stride of an image: the first record's allocated-size field
/// (header offset `0x1C`) where it is a multiple of 512 from 512 to 65536, else 1024.
pub open spec fn stride_of(bytes: Seq<u8>) -> u32 {
    if bytes.len() >= 0x20 && signature_of(bytes) == file_signature() && 512 <= u32_at(bytes, 0x1C)
        <= 65536 && u32_at(bytes, 0x1C) % 512 == 0 {
        u32_at(bytes, 0x1C)
    } else {
        DEFAULT_STRIDE
    }
}

/// The number of whole records in an image.
pub open spec fn count_of(bytes: Seq<u8>) -> nat {
    bytes.len() / (stride_of(bytes) as nat)
}

/// The bytes of slot `n`, if it lies in the image.
pub open spec fn slot(bytes: Seq<u8>, n: u64) -> Option<Seq<u8>> {
    let size = stride_of(bytes) as int;
    if (n + 1) * size <= bytes.len() {
        Some(bytes.subrange(n * size, (n + 1) * size))
    } else {
        None
    }
}

/// The outcome of parsing slot `n`, if it lies in the image.
pub open spec fn slot_outcome(bytes: Seq<u8>, n: u64) -> Option<OutcomeModel> {
    match slot(bytes, n) {
        Some(record) => Some(outcome_of(record, n)),
        None => None,
    }
}

/// The record in slot `n`: none for an empty slot or one outside the image, and a
/// diagnostic-only record for a malformed one.
pub open spec fn record_at(bytes: Seq<u8>, n: u64, cap: usize) -> Option<RecordModel> {
    match slot_outcome(bytes, n) {
        None => None,
        Some(OutcomeModel::Empty) => None,
        Some(OutcomeModel::Parsed(e)) => Some(decoded_safe(e, n, cap)),
        Some(OutcomeModel::Bad(kind, msg)) => Some(
            diagnostic_model(n, kind.token() + ":"@ + msg),
        ),
    }
}

/// The index node of a named record.
pub open spec fn node_of(rec: RecordModel, f: FileNameModel) -> NodeModel {
    NodeModel {
        name: f.name,
        parent_entry: f.parent_entry,
        parent_seq: f.parent_seq,
        is_dir: rec.is_dir,
        sequence: rec.sequence,
    }
}

/// The index node of slot `n`, if its record has a name.
pub open spec fn node_at(bytes: Seq<u8>, n: u64, cap: usize) -> Option<NodeModel> {
    match record_at(bytes, n, cap) {
        Some(rec) => match rec.primary_name() {
            Some(f) => Some(node_of(rec, f)),
            None => None,
        },
        None => None,
    }
}

/// The index node that stands in for a root that has no name record.
pub open spec fn root_node() -> NodeModel {
    NodeModel {
        name: "."@,
        parent_entry: ROOT_ENTRY,
        parent_seq: 5,
        is_dir: true,
        sequence: 5,
    }
}

/// The index `m` after the first `n` slots of an image were put into it.
pub open spec fn indexed(bytes: Seq<u8>, cap: usize, m: Map<u64, NodeModel>, n: nat) -> Map<
    u64,
    NodeModel,
>
    decreases n,
{
    if n == 0 {
        m
    } else {
        let before = indexed(bytes, cap, m, (n - 1) as nat);
        match node_at(bytes, (n - 1) as u64, cap) {
            Some(node) => before.insert((n - 1) as u64, node),
            None => before,
        }
    }
}

/// The index `m` after a whole image was put into it: every named record under its
/// own number, and a root in any case.
pub open spec fn index_of(bytes: Seq<u8>, cap: usize, m: Map<u64, NodeModel>) -> Map<
    u64,
    NodeModel,
> {
    let all = indexed(bytes, cap, m, count_of(bytes));
    if all.contains_key(ROOT_ENTRY) {
        all
    } else {
        all.insert(ROOT_ENTRY, root_node())
    }
}

/// A decoder over one in-memory `$MFT` buffer. Owns the bytes and slices fixed
/// records itself, so a corrupt header can never overflow an index.
pub struct Decoder {
    bytes: Vec<u8>,
    entry_count: u64,
    record_size: u32,
    resident_cap: usize,
}

impl Decoder {
    #[verifier::type_invariant]
    spec fn wf(self) -> bool {
        &&& self.record_size == stride_of(self.bytes@)
        &&& self.entry_count == count_of(self.bytes@)
    }

    /// The image.
    pub closed spec fn image(self) -> Seq<u8> {
        self.bytes@
    }

    /// The cap on inline resident data.
    pub closed spec fn cap(self) -> usize {
        self.resident_cap
    }

    /// Build a decoder over a `$MFT` byte buffer. Never fails: the record stride
    /// is derived from the first record's allocated-size field (with a 1024
    /// fallback), and any per-record corruption surfaces later as diagnostics.
    pub fn new(bytes: Vec<u8>) -> (r: Result<Self, EntryError>)
        ensures
            r is Ok,
            r->Ok_0.image() == bytes@,
            r->Ok_0.cap() == RESIDENT_CAP,
    {
        Ok(Self::open(bytes, RESIDENT_CAP))
    }

    pub fn open(bytes: Vec<u8>, resident_cap: usize) -> (r: Self)
        ensures
            r.image() == bytes@,
            r.cap() == resident_cap,
    {
        let record_size: u32 = record_stride(bytes.as_slice());
        let entry_count: u64 = bytes.len() as u64 / record_size as u64;
        Decoder { bytes, entry_count, record_size, resident_cap }
    }

    pub fn entry_count(&self) -> (r: u64)
        ensures
            r == count_of(self.image()),
    {
        proof {
            use_type_invariant(self);
        }
        self.entry_count
    }

    pub fn record_size(&self) -> (r: u32)
        ensures
            r == stride_of(self.image()),
    {
        proof {
            use_type_invariant(self);
        }
        self.record_size
    }

    /// The `record_size` bytes of entry `n`, or `None` if out of range.
    fn slice(&self, n: u64) -> (r: Option<&[u8]>)
        ensures
            crate::data::opt_slice_bytes(r) == slot(self.image(), n),
    {
        proof {
            use_type_invariant(self);
            lemma_slot_range(self.bytes@, n);
        }
        if n >= self.entry_count {
            return None;
        }
        let size: usize = self.record_size as usize;
        assert((n + 1) * size == n * size + size) by (nonlinear_arith);
        assert(n * size >= 0) by (nonlinear_arith);
        assert(n * size + size <= self.bytes.len());
        assert(n * size >= n) by (nonlinear_arith)
            requires
                size >= 1,
        ;
        let start: usize = n as usize * size;
        Some(slice_subrange(self.bytes.as_slice(), start, start + size))
    }

    /// Decode entry `n`. `Ok(None)` for an empty / out-of-range slot; an
    /// `Ok(Some(record))` for a FILE / BAAD record, with its diagnostics.
    pub fn decode(&mut self, n: u64) -> (r: Result<Option<DecodedRecord>, EntryError>)
        ensures
            *final(self) == *old(self),
            r is Ok,
            opt_record(r->Ok_0) == record_at(old(self).image(), n, old(self).cap()),
    {
        Ok(self.decode_at(n))
    }

    /// Decode entry `n` of an image that stays as it is.
    pub(crate) fn decode_at(&self, n: u64) -> (r: Option<DecodedRecord>)
        ensures
            opt_record(r) == record_at(self.image(), n, self.cap()),
    {
        let slice = match self.slice(n) {
            Some(slice) => slice,
            None => {
                return None;
            },
        };
        match parse_record(slice_to_vec(slice), n) {
            ParseOutcome::Empty => None,
            ParseOutcome::Parsed(entry) => Some(decode_entry_safe(&entry, n, self.resident_cap)),
            // A malformed slot still surfaces as a diagnostic-only row.
            ParseOutcome::Bad(kind, msg) => {
                let mut text = kind.as_str().to_string();
                text.append(":");
                text.append(msg.as_str());
                Some(diagnostic_record(n, text.as_str()))
            },
        }
    }

    /// The parsed entry at `n` (for header / well-formed probes).
    pub fn raw_entry(&self, n: u64) -> (r: Option<ParseOutcome>)
        ensures
            match r {
                Some(outcome) => slot_outcome(self.image(), n) == Some(outcome@),
                None => slot_outcome(self.image(), n) is None,
            },
            r matches Some(ParseOutcome::Parsed(e)) ==> crate::entry::known_signature(
                e@.signature,
            ),
    {
        match self.slice(n) {
            Some(s) => Some(parse_record(slice_to_vec(s), n)),
            None => None,
        }
    }

    /// Build (or extend) the resolver index over every record, recording each
    /// entry's primary `$FILE_NAME` link, so that a child seen in a later batch
    /// still resolves against an earlier parent. The root (entry 5) always
    /// resolves, even if its own name record was not captured.
    pub fn build_resolver(&mut self, resolver: &mut BTreeMap<u64, ResolverNode>)
        ensures
            *final(self) == *old(self),
            nodes(final(resolver)@) == index_of(
                old(self).image(),
                old(self).cap(),
                nodes(old(resolver)@),
            ),
    {
        let count: u64 = self.entry_count();
        let ghost bytes = self.image();
        let ghost cap = self.cap();
        let ghost start = nodes(resolver@);
        let mut n: u64 = 0;
        while n < count
            invariant
                n <= count,
                *self == *old(self),
                bytes == self.image(),
                cap == self.cap(),
                nodes(resolver@) == indexed(bytes, cap, start, n as nat),
            decreases count - n,
        {
            if let Some(rec) = self.decode_at(n) {
                if let Some(fname) = rec.primary_name() {
                    let node = ResolverNode {
                        name: fname.name.clone(),
                        parent_entry: fname.parent_entry,
                        parent_seq: fname.parent_seq,
                        is_dir: rec.is_dir,
                        sequence: rec.sequence,
                    };
                    proof {
                        lemma_named_record_number(bytes, n, cap);
                        lemma_nodes_insert(resolver@, rec.entry, node);
                    }
                    resolver.insert(rec.entry, node);
                }
            }
            n = n + 1;
        }
        if !resolver.contains_key(&ROOT_ENTRY) {
            let node = ResolverNode {
                name: ".".to_string(),
                parent_entry: ROOT_ENTRY,
                parent_seq: 5,
                is_dir: true,
                sequence: 5,
            };
            proof {
                lemma_nodes_insert(resolver@, ROOT_ENTRY, node);
            }
            resolver.insert(ROOT_ENTRY, node);
        }
    }
}

/// Slot `n` lies in the image exactly when `n` is below the record count.
pub proof fn lemma_slot_range(bytes: Seq<u8>, n: u64)
    ensures
        n < count_of(bytes) <==> (n + 1) * (stride_of(bytes) as int) <= bytes.len(),
        stride_of(bytes) >= 512,
{
    let size = stride_of(bytes) as int;
    let len = bytes.len() as int;
    assert(n < len / size <==> (n + 1) * size <= len) by (nonlinear_arith)
        requires
            size >= 1,
            len >= 0,
            n >= 0,
    ;
}

/// Putting a node into an index puts its contents into the index's contents.
proof fn lemma_nodes_insert(m: Map<u64, ResolverNode>, k: u64, node: ResolverNode)
    ensures
        nodes(m.insert(k, node)) == nodes(m).insert(k, node@),
{
    assert(nodes(m.insert(k, node)) =~= nodes(m).insert(k, node@));
}

/// A record that has a name carries its own slot number.
proof fn lemma_named_record_number(bytes: Seq<u8>, n: u64, cap: usize)
    requires
        record_at(bytes, n, cap) is Some,
        record_at(bytes, n, cap)->0.primary_name() is Some,
    ensures
        record_at(bytes, n, cap)->0.entry == n,
{
}

/// The FILE-record stride in bytes, read from the first record's allocated-size
/// field (header offset `0x1C`). Returns 1024 when the buffer is too short or
/// the value is implausible (not a multiple of 512 in `[512, 65536]`).
fn record_stride(bytes: &[u8]) -> (r: u32)
    ensures
        r == stride_of(bytes@),
{
    if bytes.len() < 0x20 || !has_file_signature(bytes) {
        return DEFAULT_STRIDE;
    }
    let v: u32 = read_u32(bytes, 0x1C);
    if 512 <= v && v <= 65536 && v % 512 == 0 {
        v
    } else {
        DEFAULT_STRIDE
    }
}

/// The header of slot `n`, if it holds a record.
pub open spec fn header_at(bytes: Seq<u8>, n: u64) -> Option<HeaderModel> {
    match slot_outcome(bytes, n) {
        Some(OutcomeModel::Parsed(e)) => Some(header_of(e)),
        _ => None,
    }
}

/// Probe the header of entry `n` in `bytes` (the `record_header` scalar).
/// `None` for an empty / out-of-range / unparseable slot.
pub fn record_header(bytes: Vec<u8>, n: u64) -> (r: Option<RecordHeader>)
    ensures
        match r {
            Some(h) => header_at(bytes@, n) == Some(h@),
            None => header_at(bytes@, n) is None,
        },
{
    let dec = Decoder::open(bytes, RESIDENT_CAP);
    match dec.raw_entry(n) {
        Some(ParseOutcome::Parsed(entry)) => Some(RecordHeader::from_entry(&entry)),
        _ => None,
    }
}

/// The verdict on a parsed record.
pub open spec fn verdict_of(e: EntryModel) -> WellFormedModel {
    if e.signature == baad_signature() {
        failed(WellFormedKind::Baad, "record marked BAAD"@)
    } else if e.valid_fixup == Some(false) {
        failed(WellFormedKind::FixupMismatch, "update-sequence fixup mismatch"@)
    } else if !attributes_fit(e.data, e.first_attribute) {
        failed(WellFormedKind::AttrOverrun, "attribute runs past the record"@)
    } else {
        clean()
    }
}

/// The verdict on slot `n`.
pub open spec fn verdict_at(bytes: Seq<u8>, n: u64) -> WellFormedModel {
    match slot_outcome(bytes, n) {
        None => failed(WellFormedKind::Truncated, "entry index out of range"@),
        Some(OutcomeModel::Empty) => failed(WellFormedKind::NotAnMft, "empty (zeroed) slot"@),
        Some(OutcomeModel::Bad(kind, msg)) => failed(kind, msg),
        Some(OutcomeModel::Parsed(e)) => verdict_of(e),
    }
}

/// The verdict on a parsed record.
fn judge(entry: &ParsedEntry) -> (r: WellFormed)
    ensures
        r@ == verdict_of(entry@),
{
    let sig = &entry.signature;
    let baad = sig[0] == 0x42 && sig[1] == 0x41 && sig[2] == 0x41 && sig[3] == 0x44;
    proof {
        let want = baad_signature();
        assert(want[0] == 0x42 && want[1] == 0x41 && want[2] == 0x41 && want[3] == 0x44);
        if baad {
            assert(entry@.signature =~= want);
        }
    }
    if baad {
        WellFormed::bad(WellFormedKind::Baad, "record marked BAAD".to_string())
    } else if let Some(false) = entry.valid_fixup {
        WellFormed::bad(
            WellFormedKind::FixupMismatch,
            "update-sequence fixup mismatch".to_string(),
        )
    } else if !attributes_within_bounds(entry.data.as_slice(), entry.first_attribute) {
        WellFormed::bad(
            WellFormedKind::AttrOverrun,
            "attribute runs past the record".to_string(),
        )
    } else {
        WellFormed::ok()
    }
}

/// Validate entry `n` in `bytes` (the `well_formed` scalar). A corrupt or hostile
/// record returns `ok = false` with the matching kind.
pub fn well_formed(bytes: Vec<u8>, n: u64) -> (r: WellFormed)
    ensures
        r@ == verdict_at(bytes@, n),
{
    let dec = Decoder::open(bytes, RESIDENT_CAP);
    match dec.raw_entry(n) {
        None => WellFormed::bad(
            WellFormedKind::Truncated,
            "entry index out of range".to_string(),
        ),
        Some(ParseOutcome::Empty) => WellFormed::bad(
            WellFormedKind::NotAnMft,
            "empty (zeroed) slot".to_string(),
        ),
        Some(ParseOutcome::Bad(kind, msg)) => WellFormed::bad(kind, msg),
        Some(ParseOutcome::Parsed(entry)) => judge(&entry),
    }
}

/// Fully decode entry `n` of `bytes` (the `mft_record` scalar). `Ok(None)` for
/// an empty slot.
pub fn decode_one(bytes: Vec<u8>, n: u64) -> (r: Result<Option<DecodedRecord>, EntryError>)
    ensures
        r is Ok,
        opt_record(r->Ok_0) == record_at(bytes@, n, RESIDENT_CAP),
{
    let dec = Decoder::open(bytes, RESIDENT_CAP);
    Ok(dec.decode_at(n))
}

/// The path of entry `n` over an image; none where the entry has no name record.
pub open spec fn path_at(bytes: Seq<u8>, n: u64, max_depth: u16) -> Option<Seq<char>> {
    let m = index_of(bytes, RESIDENT_CAP, Map::empty());
    if m.contains_key(n) {
        Some(resolved(m, n, max_depth).path)
    } else {
        None
    }
}

/// Resolve entry `n`'s full path over `bytes` (the `full_path` scalar). Builds a
/// fresh resolver over the whole buffer, then walks parents.
pub fn full_path(bytes: Vec<u8>, n: u64, max_depth: u16) -> (r: Result<Option<String>, EntryError>)
    ensures
        r is Ok,
        opt_text(r->Ok_0) == path_at(bytes@, n, max_depth),
{
    let mut dec = Decoder::open(bytes, RESIDENT_CAP);
    let mut resolver: BTreeMap<u64, ResolverNode> = BTreeMap::new();
    assert(nodes(resolver@) =~= Map::empty());
    dec.build_resolver(&mut resolver);
    if !resolver.contains_key(&n) {
        return Ok(None);
    }
    Ok(Some(resolve(&resolver, n, max_depth).path))
}

/// The stride is always a multiple of 512 from 512 to 65536, whatever the first record
/// claims.
pub proof fn law_stride_is_plausible(bytes: Seq<u8>)
    ensures
        512 <= stride_of(bytes) <= 65536,
        stride_of(bytes) % 512 == 0,
{
}

/// Slots are counted exactly: slot `n` lies in the image if and only if `n` is below
/// the record count, and then it has the stride's length.
pub proof fn law_slot_iff_below_count(bytes: Seq<u8>, n: u64)
    ensures
        slot(bytes, n) is Some <==> n < count_of(bytes),
        slot(bytes, n) matches Some(record) ==> record.len() == stride_of(bytes),
{
    lemma_slot_range(bytes, n);
    let size = stride_of(bytes) as int;
    assert((n + 1) * size - n * size == size) by (nonlinear_arith);
    assert(n * size >= 0) by (nonlinear_arith)
        requires
            n >= 0,
            size >= 0,
    ;
}

/// Decoding gives no record exactly for the slots outside the image and the empty
/// ones: a malformed record always surfaces.
pub proof fn law_no_record_iff_empty_or_outside(bytes: Seq<u8>, n: u64, cap: usize)
    ensures
        record_at(bytes, n, cap) is None <==> n >= count_of(bytes) || slot_outcome(bytes, n)
            == Some(OutcomeModel::Empty),
{
    law_slot_iff_below_count(bytes, n);
}

/// A malformed slot, one that is judged other than clean, and one whose attributes
/// cannot be parsed, always carry a diagnostic.
pub proof fn law_malformed_record_has_diagnostic(bytes: Seq<u8>, n: u64, cap: usize)
    requires
        match slot_outcome(bytes, n) {
            Some(OutcomeModel::Bad(_, _)) => true,
            Some(OutcomeModel::Parsed(e)) => {
                ||| verdict_of(e) != clean()
                ||| !crate::record::decodable(e)
            },
            _ => false,
        },
    ensures
        record_at(bytes, n, cap) is Some,
        record_at(bytes, n, cap)->0.diagnostics.len() > 0,
{
}

/// A verdict is positive exactly when its kind is the clean one, and then it has no
/// message; every other verdict has one.
pub proof fn law_verdict_ok_iff_clean(bytes: Seq<u8>, n: u64)
    ensures
        verdict_at(bytes, n).ok <==> verdict_at(bytes, n).kind == WellFormedKind::Clean,
        verdict_at(bytes, n).ok <==> verdict_at(bytes, n).error is None,
{
}

/// A record that is judged clean has a header, none of its attributes overruns it, and
/// it decodes.
pub proof fn law_clean_record_decodes(bytes: Seq<u8>, n: u64, cap: usize)
    requires
        verdict_at(bytes, n).ok,
    ensures
        header_at(bytes, n) is Some,
        record_at(bytes, n, cap) is Some,
        slot_outcome(bytes, n) matches Some(OutcomeModel::Parsed(e)) && attributes_fit(
            e.data,
            e.first_attribute,
        ),
{
}

/// The index holds the root, whatever the image holds.
pub proof fn law_root_is_always_indexed(bytes: Seq<u8>, cap: usize, m: Map<u64, NodeModel>)
    ensures
        index_of(bytes, cap, m).contains_key(ROOT_ENTRY),
{
}

/// The index holds every named record under its own number, with its own name and
/// parent link; every other number keeps what it had, but for the stand-in root.
pub proof fn law_index_is_exact(bytes: Seq<u8>, cap: usize, m: Map<u64, NodeModel>, n: u64)
    requires
        count_of(bytes) <= u64::MAX,
    ensures
        n < count_of(bytes) && node_at(bytes, n, cap) is Some ==> index_of(
            bytes,
            cap,
            m,
        ).contains_key(n) && index_of(bytes, cap, m)[n] == node_at(bytes, n, cap)->0,
        !(n < count_of(bytes) && node_at(bytes, n, cap) is Some) && (n != ROOT_ENTRY
            || m.contains_key(n)) ==> {
            &&& index_of(bytes, cap, m).contains_key(n) <==> m.contains_key(n)
            &&& m.contains_key(n) ==> index_of(bytes, cap, m)[n] == m[n]
        },
{
    lemma_indexed(bytes, cap, m, count_of(bytes), n);
}

proof fn lemma_indexed(bytes: Seq<u8>, cap: usize, m: Map<u64, NodeModel>, k: nat, n: u64)
    requires
        k <= u64::MAX,
    ensures
        n < k && node_at(bytes, n, cap) is Some ==> indexed(bytes, cap, m, k).contains_key(n)
            && indexed(bytes, cap, m, k)[n] == node_at(bytes, n, cap)->0,
        !(n < k && node_at(bytes, n, cap) is Some) ==> {
            &&& indexed(bytes, cap, m, k).contains_key(n) <==> m.contains_key(n)
            &&& m.contains_key(n) ==> indexed(bytes, cap, m, k)[n] == m[n]
        },
    decreases k,
{
    if k > 0 {
        lemma_indexed(bytes, cap, m, (k - 1) as nat, n);
    }
}

/// The stride is the size that the first record claims at 0x1C, where that is a multiple
/// of 512 from 512 to 65536 and the image begins with a `FILE` record; else it is 1024.
pub proof fn law_stride_is_the_claimed_size(bytes: Seq<u8>)
    ensures
        ({
            let claimed = u32_at(bytes, 0x1C);
            let named = bytes.len() >= 0x20 && bytes.take(4) == seq![0x46u8, 0x49, 0x4C, 0x45];
            let plausible = 512 <= claimed <= 65536 && claimed % 512 == 0;
            &&& named && plausible ==> stride_of(bytes) == claimed
            &&& !(named && plausible) ==> stride_of(bytes) == 1024
        }),
{
    assert(file_signature() =~= seq![0x46u8, 0x49, 0x4C, 0x45]);
}

/// The records of an image are the strides that it holds whole.
pub proof fn law_count_is_whole_strides(bytes: Seq<u8>)
    ensures
        count_of(bytes) * stride_of(bytes) <= bytes.len(),
        bytes.len() < (count_of(bytes) + 1) * stride_of(bytes),
{
    let size = stride_of(bytes) as int;
    let len = bytes.len() as int;
    vstd::arithmetic::div_mod::lemma_fundamental_div_mod(len, size);
    vstd::arithmetic::div_mod::lemma_mod_bound(len, size);
    let count = len / size;
    assert(count * size <= len < (count + 1) * size) by (nonlinear_arith)
        requires
            len == size * count + len % size,
            0 <= len % size < size,
    ;
}

/// Byte `i` of slot `n` is byte `n * stride + i` of the image.
pub proof fn law_slots_follow_each_other(bytes: Seq<u8>, n: u64, i: int)
    requires
        slot(bytes, n) is Some,
        0 <= i < stride_of(bytes),
    ensures
        slot(bytes, n)->0[i] == bytes[n * stride_of(bytes) + i],
{
    law_slot_iff_below_count(bytes, n);
    let size = stride_of(bytes) as int;
    assert(n * size >= 0) by (nonlinear_arith)
        requires
            n >= 0,
            size >= 0,
    ;
    assert((n + 1) * size == n * size + size) by (nonlinear_arith);
}

/// A reported header holds the fields of the record's own bytes: the LSN at 0x08, the
/// sequence at 0x10, the flags at 0x16, the used size at 0x18, the allocated size at 0x1C
/// and the base reference at 0x20, of which the low six bytes are the entry.
pub proof fn law_header_is_in_the_bytes(bytes: Seq<u8>, n: u64)
    requires
        header_at(bytes, n) is Some,
    ensures
        slot(bytes, n) is Some,
        ({
            let record = slot(bytes, n)->0;
            let h = header_at(bytes, n)->0;
            &&& h.sequence == u16_at(record, 0x10)
            &&& h.in_use <==> u16_at(record, 0x16) % 2 == 1
            &&& h.is_dir <==> u16_at(record, 0x16) / 2 % 2 == 1
            &&& h.used_size == u32_at(record, 0x18)
            &&& h.allocated_size == u32_at(record, 0x1C)
            &&& h.lsn == u64_at(record, 8)
            &&& h.base_ref == u64_at(record, 0x20) % 0x1_0000_0000_0000
            &&& h.signature.len() == 4
            &&& forall|i: int| 0 <= i < 4 ==> #[trigger] h.signature[i] == record[i] as char
        }),
{
    let record = slot(bytes, n)->0;
    let e = slot_outcome(bytes, n)->0->Parsed_0;
    law_slot_iff_below_count(bytes, n);
    crate::record::law_header_shows_the_entry(e);
    assert(e == crate::entry::full_entry(record, n));
    let flags = u16_at(record, 0x16);
    assert((flags & 0x0F) & 1 == 1 <==> flags % 2 == 1) by (bit_vector);
    assert((flags & 0x0F) & 2 == 2 <==> flags / 2 % 2 == 1) by (bit_vector);
}

/// A decoded record that carries its header holds the fields of the record's own bytes;
/// the number of links stands at 0x12.
pub proof fn law_record_is_in_the_bytes(bytes: Seq<u8>, n: u64, cap: usize)
    requires
        slot_outcome(bytes, n) matches Some(OutcomeModel::Parsed(e)) && crate::record::decodable(e),
    ensures
        record_at(bytes, n, cap) is Some,
        slot(bytes, n) is Some,
        ({
            let record = slot(bytes, n)->0;
            let r = record_at(bytes, n, cap)->0;
            &&& r.entry == n
            &&& r.sequence == u16_at(record, 0x10)
            &&& r.hard_link_count == u16_at(record, 0x12)
            &&& r.in_use <==> u16_at(record, 0x16) % 2 == 1
            &&& r.is_dir <==> u16_at(record, 0x16) / 2 % 2 == 1
            &&& r.used_size == u32_at(record, 0x18)
            &&& r.allocated_size == u32_at(record, 0x1C)
            &&& r.lsn == u64_at(record, 8)
            &&& r.base_ref == u64_at(record, 0x20) % 0x1_0000_0000_0000
            &&& r.signature.len() == 4
            &&& forall|i: int| 0 <= i < 4 ==> #[trigger] r.signature[i] == record[i] as char
        }),
{
    let e = slot_outcome(bytes, n)->0->Parsed_0;
    law_header_is_in_the_bytes(bytes, n);
    crate::record::law_record_shows_the_header(e, cap);
    crate::record::law_header_shows_the_entry(e);
    assert(e == crate::entry::full_entry(slot(bytes, n)->0, n));
}

/// What a slot is taken for follows from its bytes. Zeros, and a zero signature, are an
/// empty slot: no header, no record, and no `$MFT` record by the verdict. A `FILE` record
/// whose fixup stays inside it, and a `BAAD` one, have a header. Any other signature is
/// reported as such.
pub proof fn law_signature_decides(bytes: Seq<u8>, n: u64, cap: usize)
    requires
        slot(bytes, n) is Some,
    ensures
        ({
            let record = slot(bytes, n)->0;
            let sig = record.take(4);
            let file = sig == seq![0x46u8, 0x49, 0x4C, 0x45];
            let baad = sig == seq![0x42u8, 0x41, 0x41, 0x44];
            let zero = sig == seq![0u8, 0, 0, 0];
            let v = verdict_at(bytes, n);
            &&& zero ==> {
                &&& header_at(bytes, n) is None
                &&& record_at(bytes, n, cap) is None
                &&& v.kind == WellFormedKind::NotAnMft
            }
            &&& file && crate::entry::fixup_fits(record) ==> {
                &&& header_at(bytes, n) is Some
                &&& record_at(bytes, n, cap) is Some
            }
            &&& baad ==> {
                &&& header_at(bytes, n) is Some
                &&& record_at(bytes, n, cap) is Some
                &&& v.kind == WellFormedKind::Baad
            }
            &&& !zero && !file && !baad ==> {
                &&& header_at(bytes, n) is None
                &&& record_at(bytes, n, cap) is Some
                &&& v.kind == WellFormedKind::BadSignature
            }
            &&& v.ok ==> file
        }),
{
    let record = slot(bytes, n)->0;
    law_slot_iff_below_count(bytes, n);
    crate::decoder::law_stride_is_plausible(bytes);
    assert(file_signature() =~= seq![0x46u8, 0x49, 0x4C, 0x45]);
    assert(baad_signature() =~= seq![0x42u8, 0x41, 0x41, 0x44]);
    assert(crate::entry::zero_signature() =~= seq![0u8, 0, 0, 0]);
    assert(file_signature()[0] == 0x46);
    assert(baad_signature()[0] == 0x42);
    assert(signature_of(record) == record.take(4));
    if crate::parse::all_zero(record) {
        assert(record.take(4) =~= seq![0u8, 0, 0, 0]);
    } else {
        assert(record.take(4)[0] == record[0]);
    }
}

/// A `FILE` record is judged by its bytes: torn where a sector's tail does not hold the
/// update-sequence word, overrun where its attributes do not fit, and else clean.
pub proof fn law_file_record_is_judged_by_its_bytes(bytes: Seq<u8>, n: u64)
    requires
        slot(bytes, n) is Some,
        slot(bytes, n)->0.take(4) == seq![0x46u8, 0x49, 0x4C, 0x45],
        crate::entry::fixup_fits(slot(bytes, n)->0),
    ensures
        ({
            let record = slot(bytes, n)->0;
            let v = verdict_at(bytes, n);
            let torn = !crate::entry::fixup_matches(record);
            let fit = attributes_fit(crate::entry::fixed_up(record), u16_at(record, 0x14));
            &&& v.ok <==> !torn && fit
            &&& v.kind == WellFormedKind::FixupMismatch <==> torn
            &&& v.kind == WellFormedKind::AttrOverrun <==> !torn && !fit
        }),
{
    let record = slot(bytes, n)->0;
    law_slot_iff_below_count(bytes, n);
    law_stride_is_plausible(bytes);
    assert(file_signature() =~= seq![0x46u8, 0x49, 0x4C, 0x45]);
    assert(baad_signature()[0] == 0x42);
    assert(file_signature()[0] == 0x46);
    assert(crate::entry::zero_signature()[0] == 0);
    assert(record.take(4)[0] == record[0]);
    assert(signature_of(record) == record.take(4));
}

/// A number outside the image is truncated by the verdict, and has neither header nor
/// record.
pub proof fn law_outside_is_truncated(bytes: Seq<u8>, n: u64, cap: usize)
    requires
        n >= count_of(bytes),
    ensures
        verdict_at(bytes, n).kind == WellFormedKind::Truncated,
        !verdict_at(bytes, n).ok,
        header_at(bytes, n) is None,
        record_at(bytes, n, cap) is None,
{
    law_slot_iff_below_count(bytes, n);
}

/// An indexed node is its record's primary name: the name and the parent link of the
/// first long name, or else of the first, with the record's own sequence and directory
/// flag.
pub proof fn law_node_is_the_primary_name(bytes: Seq<u8>, n: u64, cap: usize, rec: RecordModel)
    requires
        record_at(bytes, n, cap) == Some(rec),
    ensures
        rec.file_names.len() == 0 ==> node_at(bytes, n, cap) is None,
        rec.file_names.len() > 0 ==> {
            &&& node_at(bytes, n, cap) matches Some(node) && crate::file_name::primary_of(
                rec.file_names,
            ) matches Some(p) && {
                &&& node.name == rec.file_names[p].name
                &&& node.parent_entry == rec.file_names[p].parent_entry
                &&& node.parent_seq == rec.file_names[p].parent_seq
                &&& node.is_dir == rec.is_dir
                &&& node.sequence == rec.sequence
            }
        },
{
    if rec.file_names.len() > 0 {
        crate::file_name::law_long_name_is_preferred(rec.file_names, 0);
    } else {
        crate::file_name::law_no_name_is_primary(rec.file_names);
    }
}

/// An image without a name for its root has a root all the same: number 5, its own
/// parent, a directory of sequence 5.
pub proof fn law_stand_in_root(bytes: Seq<u8>, cap: usize)
    requires
        count_of(bytes) <= u64::MAX,
        5 >= count_of(bytes) || node_at(bytes, 5, cap) is None,
    ensures
        ({
            let root = index_of(bytes, cap, Map::empty())[5];
            &&& index_of(bytes, cap, Map::empty()).contains_key(5)
            &&& root.name == "."@
            &&& root.parent_entry == 5
            &&& root.parent_seq == 5
            &&& root.sequence == 5
            &&& root.is_dir
        }),
{
    lemma_indexed(bytes, cap, Map::empty(), count_of(bytes), 5);
}

/// The path of an entry is the one it resolves to over the index of its whole image. An
/// entry that is not indexed has none.
pub proof fn law_path_is_over_the_image(bytes: Seq<u8>, n: u64, max_depth: u16)
    requires
        count_of(bytes) <= u64::MAX,
    ensures
        path_at(bytes, n, max_depth) is Some <==> n == 5 || n < count_of(bytes) && node_at(
            bytes,
            n,
            0x10_0000,
        ) is Some,
        path_at(bytes, n, max_depth) matches Some(p) ==> p == resolved(
            index_of(bytes, 0x10_0000, Map::empty()),
            n,
            max_depth,
        ).path,
{
    law_index_is_exact(bytes, RESIDENT_CAP, Map::empty(), n);
    law_root_is_always_indexed(bytes, RESIDENT_CAP, Map::empty());
}

/// A malformed slot surfaces under its number, as a bare record whose one diagnostic is the
/// token of what is wrong, a colon, and the message; the verdict has the same kind and the
/// same message.
pub proof fn law_malformed_slot_says_why(
    bytes: Seq<u8>,
    n: u64,
    cap: usize,
    kind: WellFormedKind,
    msg: Seq<char>,
)
    requires
        slot_outcome(bytes, n) == Some(OutcomeModel::Bad(kind, msg)),
    ensures
        record_at(bytes, n, cap) matches Some(r) && r.entry == n && r.diagnostics == seq![
            kind.token() + seq![':'] + msg,
        ] && r.file_names.len() == 0 && r.attributes.len() == 0,
        verdict_at(bytes, n).kind == kind,
        verdict_at(bytes, n).error == Some(msg),
        header_at(bytes, n) is None,
{
    reveal_strlit(":");
    assert(":"@ =~= seq![':']);
}

/// What a verdict that is not clean says.
pub proof fn law_verdict_messages(bytes: Seq<u8>, n: u64)
    ensures
        ({
            let v = verdict_at(bytes, n);
            let parsed = slot_outcome(bytes, n) matches Some(OutcomeModel::Parsed(_));
            &&& n >= count_of(bytes) ==> v.error == Some("entry index out of range"@)
            &&& slot_outcome(bytes, n) == Some(OutcomeModel::Empty) ==> v.error == Some(
                "empty (zeroed) slot"@,
            )
            &&& parsed && v.kind == WellFormedKind::Baad ==> v.error == Some(
                "record marked BAAD"@,
            )
            &&& parsed && v.kind == WellFormedKind::FixupMismatch ==> v.error == Some(
                "update-sequence fixup mismatch"@,
            )
            &&& parsed && v.kind == WellFormedKind::AttrOverrun ==> v.error == Some(
                "attribute runs past the record"@,
            )
            &&& parsed ==> v.kind != WellFormedKind::Truncated && v.kind != WellFormedKind::NotAnMft
                && v.kind != WellFormedKind::BadSignature
        }),
{
    law_slot_iff_below_count(bytes, n);
}

/// A slot that parses is decoded from its own entry, under the cap that was asked for.
pub proof fn law_slot_is_decoded_under_the_cap(bytes: Seq<u8>, n: u64, cap: usize, e: EntryModel)
    requires
        slot_outcome(bytes, n) == Some(OutcomeModel::Parsed(e)),
        crate::record::decodable(e),
    ensures
        record_at(bytes, n, cap) == Some(crate::record::decoded(e, cap)),
        slot(bytes, n) matches Some(record) && crate::entry::entry_of(record, n) == Ok::<
            EntryModel,
            crate::errors::EntryErrorModel,
        >(e),
{
}

} // verus!
