//! Externalized scan state: the byte-offset cursor and the parent-resolver index
//! that a scan carries across batches and across worker tear-down.
//!
//! Everything here is plain owned data (no handles, no file descriptors), so a
//! round trip through bytes is lossless.

use std::collections::BTreeMap;

use vstd::prelude::*;

verus! {

/// Default upward path-walk bound: guards against a hostile parent loop or absurd
/// directory depth.
pub const DEFAULT_MAX_DEPTH: u16 = 256;

/// One node of the parent-resolver index: an entry's primary name and its parent
/// link, enough to reconstruct any path by walking parents to the root.
#[derive(Clone, Debug, PartialEq, Eq)]
pub struct ResolverNode {
    pub name: String,
    pub parent_entry: u64,
    pub parent_seq: u16,
    pub is_dir: bool,
    /// This record's own sequence number (used to detect a reused parent slot).
    pub sequence: u16,
}

/// The contents of a [`ResolverNode`].
pub struct NodeModel {
    pub name: Seq<char>,
    pub parent_entry: u64,
    pub parent_seq: u16,
    pub is_dir: bool,
    pub sequence: u16,
}

impl View for ResolverNode {
    type V = NodeModel;

    open spec fn view(&self) -> NodeModel {
        NodeModel {
            name: self.name@,
            parent_entry: self.parent_entry,
            parent_seq: self.parent_seq,
            is_dir: self.is_dir,
            sequence: self.sequence,
        }
    }
}

/// The contents of a resolver index.
pub open spec fn nodes(m: Map<u64, ResolverNode>) -> Map<u64, NodeModel> {
    m.map_values(|n: ResolverNode| n@)
}

/// The byte-offset cursor into the current source.
#[derive(Clone, Debug, PartialEq, Eq)]
pub struct MftCursor {
    /// Which source (file path / glob match / `<blob>`) is being read.
    pub source: String,
    /// Byte offset of the next FILE record to read (record-size aligned).
    pub byte_offset: u64,
    /// Records emitted so far across the whole scan.
    pub records_emitted: u64,
}

impl Default for MftCursor {
    fn default() -> (r: Self)
        ensures
            r.source@ == Seq::<char>::empty(),
            r.byte_offset == 0,
            r.records_emitted == 0,
    {
        MftCursor { source: String::new(), byte_offset: 0, records_emitted: 0 }
    }
}

/// The full externalized scan state.
#[derive(Clone, Debug, PartialEq, Eq)]
pub struct MftScanState {
    pub cursor: MftCursor,
    /// Each entry's name and parent link, for path reconstruction.
    pub resolver: BTreeMap<u64, ResolverNode>,
    /// Records seen before their parent (resolved on a later pass / batch).
    pub pending_paths: Vec<u64>,
    /// Record stride in bytes (usually 1024; from each record's own allocated size).
    pub record_size: u32,
    /// Path-walk bound (default [`DEFAULT_MAX_DEPTH`]).
    pub max_depth: u16,
    /// Whether the resolver index has been fully built for the current source.
    pub resolver_built: bool,
    /// Index of the source (glob file / blob) currently being read. Carried
    /// explicitly so a resumed scan picks up the right file, and so an end-of-scan
    /// state (index past the last source) is not mistaken for a fresh start.
    pub source_index: u64,
}

impl Default for MftScanState {
    fn default() -> (r: Self)
        ensures
            r.cursor.source@ == Seq::<char>::empty(),
            r.cursor.byte_offset == 0,
            r.cursor.records_emitted == 0,
            r.resolver@ == Map::<u64, ResolverNode>::empty(),
            r.pending_paths@ == Seq::<u64>::empty(),
            r.record_size == 1024,
            r.max_depth == DEFAULT_MAX_DEPTH,
            !r.resolver_built,
            r.source_index == 0,
    {
        MftScanState {
            cursor: MftCursor::default(),
            resolver: BTreeMap::new(),
            pending_paths: Vec::new(),
            record_size: 1024,
            max_depth: DEFAULT_MAX_DEPTH,
            resolver_built: false,
            source_index: 0,
        }
    }
}

impl MftScanState {
    /// The entry index that the byte offset implies; 0 where there is no stride.
    pub open spec fn next_index(self) -> int {
        if self.record_size == 0 {
            0
        } else {
            self.cursor.byte_offset as int / self.record_size as int
        }
    }

    /// The next entry index implied by the byte-offset cursor.
    pub fn next_entry(&self) -> (r: u64)
        ensures
            r == self.next_index(),
    {
        if self.record_size == 0 {
            return 0;
        }
        self.cursor.byte_offset / self.record_size as u64
    }

    /// Advance the cursor past `count` records of `record_size` bytes each.
    pub fn advance(&mut self, count: u64)
        requires
            old(self).cursor.byte_offset + count * old(self).record_size <= u64::MAX,
            old(self).cursor.records_emitted + count <= u64::MAX,
        ensures
            final(self).cursor.byte_offset == old(self).cursor.byte_offset + count * old(
                self,
            ).record_size,
            final(self).cursor.records_emitted == old(self).cursor.records_emitted + count,
            final(self).cursor.source == old(self).cursor.source,
            final(self).resolver == old(self).resolver,
            final(self).pending_paths == old(self).pending_paths,
            final(self).record_size == old(self).record_size,
            final(self).max_depth == old(self).max_depth,
            final(self).resolver_built == old(self).resolver_built,
            final(self).source_index == old(self).source_index,
    {
        assert(0 <= count * self.record_size) by (nonlinear_arith)
            requires
                0 <= count,
                0 <= self.record_size,
        ;
        self.cursor.byte_offset = self.cursor.byte_offset + count * self.record_size as u64;
        self.cursor.records_emitted = self.cursor.records_emitted + count;
    }
}

/// Advancing past `count` records moves the implied entry index by exactly `count`,
/// from any offset, aligned or not.
pub proof fn law_advance_moves_next_entry(before: MftScanState, after: MftScanState, count: u64)
    requires
        before.record_size > 0,
        after.record_size == before.record_size,
        after.cursor.byte_offset == before.cursor.byte_offset + count * before.record_size,
    ensures
        after.next_index() == before.next_index() + count,
{
    let size = before.record_size as int;
    let offset = before.cursor.byte_offset as int;
    vstd::arithmetic::div_mod::lemma_hoist_over_denominator(offset, count as int, size as nat);
    assert(offset / size + count == (offset + count * size) / size);
}

/// The next entry is the record that the byte offset lies in, and the first one where there
/// is no stride.
pub proof fn law_next_entry_holds_the_offset(state: MftScanState)
    ensures
        state.record_size > 0 ==> state.next_index() * state.record_size <= state.cursor.byte_offset
            < (state.next_index() + 1) * state.record_size,
        state.record_size == 0 ==> state.next_index() == 0,
{
    if state.record_size > 0 {
        let size = state.record_size as int;
        let offset = state.cursor.byte_offset as int;
        vstd::arithmetic::div_mod::lemma_fundamental_div_mod(offset, size);
        vstd::arithmetic::div_mod::lemma_mod_bound(offset, size);
        let k = offset / size;
        assert(k * size <= offset < (k + 1) * size) by (nonlinear_arith)
            requires
                offset == size * k + offset % size,
                0 <= offset % size < size,
        ;
    }
}

/// An index node and its contents are the same value, and an index holds the contents of
/// its nodes under their own numbers.
pub proof fn law_node_contents(m: Map<u64, ResolverNode>, n: u64)
    ensures
        nodes(m).contains_key(n) <==> m.contains_key(n),
        m.contains_key(n) ==> {
            &&& nodes(m)[n].name == m[n].name@
            &&& nodes(m)[n].parent_entry == m[n].parent_entry
            &&& nodes(m)[n].parent_seq == m[n].parent_seq
            &&& nodes(m)[n].is_dir == m[n].is_dir
            &&& nodes(m)[n].sequence == m[n].sequence
        },
{
}

} // verus!
