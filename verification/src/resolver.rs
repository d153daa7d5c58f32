//! Parent-reference path reconstruction.
//!
//! No path is stored on any record, only each record's own name and a parent entry
//! reference. Reconstruction walks parent links upward, prepending names, until it
//! reaches the volume root (entry 5). The walk is **bounded** by a max depth and a
//! cycle check, so a corrupt or hostile `$MFT` with a parent loop or absurd depth
//! can never spin: it falls back to a `\$Cycle` / `\$Orphan` sentinel with a
//! diagnostic.

use std::collections::BTreeMap;

use vstd::prelude::*;

use crate::cursor::{nodes, NodeModel, ResolverNode};
use crate::text::{decimal, decimal_string, join, joined, texts};

verus! {

/// The volume root MFT entry (`.`).
pub const ROOT_ENTRY: u64 = 5;

/// Path separator used in reconstructed paths (NTFS convention).
pub const SEP: char = '\\';

/// The outcome of resolving one entry's path.
#[derive(Clone, Debug, PartialEq, Eq)]
pub struct ResolvedPath {
    pub path: String,
    /// A diagnostic token when the path could not be cleanly resolved
    /// (`orphan-parent`, `cycle`), else `None`.
    pub diagnostic: Option<&'static str>,
}

/// The contents of a [`ResolvedPath`].
pub struct PathModel {
    pub path: Seq<char>,
    pub diagnostic: Option<Seq<char>>,
}

impl View for ResolvedPath {
    type V = PathModel;

    open spec fn view(&self) -> PathModel {
        PathModel {
            path: self.path@,
            diagnostic: match self.diagnostic {
                Some(d) => Some(d@),
                None => None,
            },
        }
    }
}

/// The `k`-th ancestor of `entry`: itself, its parent, its parent's parent, ...
pub open spec fn ancestor(m: Map<u64, NodeModel>, entry: u64, k: nat) -> u64
    decreases k,
{
    if k == 0 {
        entry
    } else {
        m[ancestor(m, entry, (k - 1) as nat)].parent_entry
    }
}

/// How an upward walk ends.
pub enum Ending {
    /// At a child of the volume root.
    Root,
    /// At the depth bound, or at a parent that was visited before.
    Cycle,
    /// At a parent that is missing, or whose slot was reused.
    Orphan(u64),
}

/// Whether `p` is among the first `k + 1` ancestors.
pub open spec fn visited(m: Map<u64, NodeModel>, entry: u64, k: nat, p: u64) -> bool {
    exists|j: nat| j <= k && #[trigger] ancestor(m, entry, j) == p
}

/// Whether the walk that has come to ancestor `k` ends there, and how.
pub open spec fn ends_at(m: Map<u64, NodeModel>, entry: u64, max_depth: u16, k: nat) -> Option<
    Ending,
> {
    let node = m[ancestor(m, entry, k)];
    let parent = node.parent_entry;
    if parent == ROOT_ENTRY {
        if m.contains_key(ROOT_ENTRY) && m[ROOT_ENTRY].sequence != node.parent_seq {
            Some(Ending::Orphan(ROOT_ENTRY))
        } else {
            Some(Ending::Root)
        }
    } else if k + 1 >= max_depth || visited(m, entry, k, parent) {
        Some(Ending::Cycle)
    } else if !m.contains_key(parent) || m[parent].sequence != node.parent_seq {
        Some(Ending::Orphan(parent))
    } else {
        None
    }
}

/// The ancestor at which the walk that has come to ancestor `k` ends, and how.
pub open spec fn walk_end(m: Map<u64, NodeModel>, entry: u64, max_depth: u16, k: nat) -> (
    nat,
    Ending,
)
    decreases max_depth - k,
{
    match ends_at(m, entry, max_depth, k) {
        Some(ending) => (k, ending),
        None => walk_end(m, entry, max_depth, k + 1),
    }
}

/// The names from ancestor `k` down to `entry`.
pub open spec fn lineage(m: Map<u64, NodeModel>, entry: u64, k: nat) -> Seq<Seq<char>> {
    Seq::new(k + 1, |i: int| m[ancestor(m, entry, (k - i) as nat)].name)
}

/// The separator as text.
pub open spec fn sep() -> Seq<char> {
    seq![SEP]
}

/// The names from ancestor `k` down to `entry`, separated.
pub open spec fn lineage_path(m: Map<u64, NodeModel>, entry: u64, k: nat) -> Seq<char> {
    joined(lineage(m, entry, k), sep())
}

/// The path of `entry`.
pub open spec fn resolved(m: Map<u64, NodeModel>, entry: u64, max_depth: u16) -> PathModel {
    if !m.contains_key(entry) {
        PathModel {
            path: "\\$Orphan\\"@ + decimal(entry as nat),
            diagnostic: Some("orphan-parent"@),
        }
    } else if entry == ROOT_ENTRY {
        PathModel { path: m[entry].name, diagnostic: None }
    } else {
        let end = walk_end(m, entry, max_depth, 0);
        let tail = lineage_path(m, entry, end.0);
        match end.1 {
            Ending::Root => PathModel { path: tail, diagnostic: None },
            Ending::Cycle => PathModel {
                path: "\\$Cycle\\"@ + tail,
                diagnostic: Some("cycle"@),
            },
            Ending::Orphan(parent) => PathModel {
                path: "\\$Orphan\\"@ + decimal(parent as nat) + sep() + tail,
                diagnostic: Some("orphan-parent"@),
            },
        }
    }
}

/// Tests whether `entries` holds `p`.
fn contains(entries: &Vec<u64>, p: u64) -> (r: bool)
    ensures
        r == exists|j: int| 0 <= j < entries@.len() && #[trigger] entries@[j] == p,
{
    let mut i: usize = 0;
    while i < entries.len()
        invariant
            i <= entries@.len(),
            forall|j: int| 0 <= j < i ==> #[trigger] entries@[j] != p,
        decreases entries@.len() - i,
    {
        if entries[i] == p {
            return true;
        }
        i = i + 1;
    }
    false
}

/// Joins `components`, given from the entry upward, from the topmost down.
fn downward(components: &Vec<String>) -> (r: String)
    ensures
        r@ == joined(texts(components@).reverse(), sep()),
{
    let mut parts: Vec<String> = Vec::new();
    let len: usize = components.len();
    let mut i: usize = 0;
    while i < len
        invariant
            i <= len,
            len == components@.len(),
            parts@.len() == i,
            forall|j: int| 0 <= j < i ==> #[trigger] parts@[j] == components@[len - 1 - j],
        decreases len - i,
    {
        parts.push(components[len - 1 - i].clone());
        i = i + 1;
    }
    proof {
        assert(texts(parts@) =~= texts(components@).reverse());
        reveal_strlit("\\");
        assert("\\"@ =~= sep());
    }
    join(&parts, "\\")
}

fn orphan_path(parent_entry: u64, components: &Vec<String>) -> (r: ResolvedPath)
    ensures
        r@ == (PathModel {
            path: "\\$Orphan\\"@ + decimal(parent_entry as nat) + sep() + joined(
                texts(components@).reverse(),
                sep(),
            ),
            diagnostic: Some("orphan-parent"@),
        }),
{
    let tail = downward(components);
    let mut path = "\\$Orphan\\".to_string();
    path.append(decimal_string(parent_entry).as_str());
    path.push(SEP);
    path.append(tail.as_str());
    assert(path@ =~= "\\$Orphan\\"@ + decimal(parent_entry as nat) + sep() + tail@);
    ResolvedPath { path, diagnostic: Some("orphan-parent") }
}

fn cycle_path(components: &Vec<String>) -> (r: ResolvedPath)
    ensures
        r@ == (PathModel {
            path: "\\$Cycle\\"@ + joined(texts(components@).reverse(), sep()),
            diagnostic: Some("cycle"@),
        }),
{
    let tail = downward(components);
    let mut path = "\\$Cycle\\".to_string();
    path.append(tail.as_str());
    ResolvedPath { path, diagnostic: Some("cycle") }
}

/// Resolve the full path of `entry` against the `resolver` index, walking
/// parents up to [`ROOT_ENTRY`]. `max_depth` and a visited check bound the walk.
///
/// - A missing parent: rooted at `\$Orphan\<parent>`, diagnostic `orphan-parent`.
/// - A parent whose **current** sequence differs from the child's recorded
///   `parent_seq` (slot reused): also `orphan-parent`.
/// - A loop or depth breach: `\$Cycle\...`, diagnostic `cycle`.
pub fn resolve(resolver: &BTreeMap<u64, ResolverNode>, entry: u64, max_depth: u16) -> (r:
    ResolvedPath)
    ensures
        r@ == resolved(nodes(resolver@), entry, max_depth),
{
    let ghost m = nodes(resolver@);
    let node = match resolver.get(&entry) {
        Some(node) => node,
        None => {
            // No name record for this entry at all.
            let mut path = "\\$Orphan\\".to_string();
            path.append(decimal_string(entry).as_str());
            return ResolvedPath { path, diagnostic: Some("orphan-parent") };
        },
    };
    // Root itself.
    if entry == ROOT_ENTRY {
        return ResolvedPath { path: node.name.clone(), diagnostic: None };
    }
    let mut components: Vec<String> = Vec::new();
    components.push(node.name.clone());
    let mut seen: Vec<u64> = Vec::new();
    seen.push(entry);
    let mut current = node;
    let ghost mut k: nat = 0;
    loop
        invariant
            m == nodes(resolver@),
            m.contains_key(entry),
            entry != ROOT_ENTRY,
            seen@.len() == k + 1,
            components@.len() == k + 1,
            k == 0 || k < max_depth,
            forall|j: int| 0 <= j <= k ==> #[trigger] seen@[j] == ancestor(m, entry, j as nat),
            forall|j: int|
                0 <= j <= k ==> (#[trigger] components@[j])@ == m[ancestor(
                    m,
                    entry,
                    j as nat,
                )].name,
            m.contains_key(ancestor(m, entry, k)),
            m[ancestor(m, entry, k)] == current@,
            walk_end(m, entry, max_depth, 0) == walk_end(m, entry, max_depth, k),
        decreases max_depth - k,
    {
        let parent_entry: u64 = current.parent_entry;
        proof {
            assert(texts(components@).reverse() =~= lineage(m, entry, k));
        }
        // Reached the volume root: done, unless the reference to it is stale.
        if parent_entry == ROOT_ENTRY {
            if let Some(root) = resolver.get(&parent_entry) {
                if root.sequence != current.parent_seq {
                    return orphan_path(parent_entry, &components);
                }
            }
            return ResolvedPath { path: downward(&components), diagnostic: None };
        }
        // Depth bound or cycle detection: bounded `\$Cycle` fallback.
        let seen_before = contains(&seen, parent_entry);
        proof {
            if seen_before {
                let j = choose|j: int| 0 <= j < seen@.len() && #[trigger] seen@[j] == parent_entry;
                assert(ancestor(m, entry, j as nat) == parent_entry);
            }
            if visited(m, entry, k, parent_entry) {
                let j = choose|j: nat|
                    j <= k && #[trigger] ancestor(m, entry, j) == parent_entry;
                assert(seen@[j as int] == parent_entry);
            }
        }
        if seen.len() >= max_depth as usize || seen_before {
            return cycle_path(&components);
        }
        let parent = match resolver.get(&parent_entry) {
            Some(parent) => parent,
            None => {
                // Parent not present: orphan rooted at the missing parent entry.
                return orphan_path(parent_entry, &components);
            },
        };
        // Stale parent (slot reused since this child recorded it): the resolved
        // parent's current sequence differs from the expected one.
        if parent.sequence != current.parent_seq {
            return orphan_path(parent_entry, &components);
        }
        components.push(parent.name.clone());
        seen.push(parent_entry);
        current = parent;
        proof {
            k = k + 1;
        }
    }
}

/// The volume root resolves to its own name, without a diagnostic.
pub proof fn law_root_is_its_name(m: Map<u64, NodeModel>, max_depth: u16)
    requires
        m.contains_key(ROOT_ENTRY),
    ensures
        resolved(m, ROOT_ENTRY, max_depth) == (PathModel {
            path: m[ROOT_ENTRY].name,
            diagnostic: None,
        }),
{
}

/// The walk is bounded whatever the index holds: it never visits more than
/// `max_depth` entries (and always the first).
pub proof fn law_walk_is_bounded(m: Map<u64, NodeModel>, entry: u64, max_depth: u16)
    ensures
        walk_end(m, entry, max_depth, 0).0 == 0 || walk_end(m, entry, max_depth, 0).0 < max_depth,
{
    lemma_walk_bound(m, entry, max_depth, 0);
}

proof fn lemma_walk_bound(m: Map<u64, NodeModel>, entry: u64, max_depth: u16, k: nat)
    requires
        k == 0 || k < max_depth,
    ensures
        walk_end(m, entry, max_depth, k).0 == 0 || walk_end(m, entry, max_depth, k).0 < max_depth,
        walk_end(m, entry, max_depth, k).0 >= k,
    decreases max_depth - k,
{
    if ends_at(m, entry, max_depth, k) is None {
        lemma_walk_bound(m, entry, max_depth, k + 1);
    }
}

/// Every step before the one at which the walk ends goes on, and that one ends.
proof fn lemma_walk_steps(m: Map<u64, NodeModel>, entry: u64, max_depth: u16, k: nat, j: nat)
    ensures
        k <= j < walk_end(m, entry, max_depth, k).0 ==> ends_at(m, entry, max_depth, j) is None,
        ends_at(m, entry, max_depth, walk_end(m, entry, max_depth, k).0) == Some(
            walk_end(m, entry, max_depth, k).1,
        ),
        k <= walk_end(m, entry, max_depth, k).0,
    decreases max_depth - k,
{
    if ends_at(m, entry, max_depth, k) is None {
        lemma_walk_steps(m, entry, max_depth, k + 1, j);
    }
}

/// The walk never visits an entry twice.
pub proof fn law_walk_visits_no_entry_twice(
    m: Map<u64, NodeModel>,
    entry: u64,
    max_depth: u16,
    i: nat,
    j: nat,
)
    requires
        i < j <= walk_end(m, entry, max_depth, 0).0,
    ensures
        ancestor(m, entry, i) != ancestor(m, entry, j),
{
    let before = (j - 1) as nat;
    lemma_walk_steps(m, entry, max_depth, 0, before);
    assert(!visited(m, entry, before, m[ancestor(m, entry, before)].parent_entry));
    assert(ancestor(m, entry, i) != m[ancestor(m, entry, before)].parent_entry);
}

/// The ancestors of the parent are those of the child, one step on.
proof fn lemma_ancestor_of_parent(m: Map<u64, NodeModel>, entry: u64, k: nat)
    ensures
        ancestor(m, m[entry].parent_entry, k) == ancestor(m, entry, k + 1),
    decreases k,
{
    if k > 0 {
        lemma_ancestor_of_parent(m, entry, (k - 1) as nat);
    } else {
        assert(ancestor(m, entry, 1) == m[ancestor(m, entry, 0)].parent_entry);
    }
}

/// If the walk from the child goes on to the root, the walk from its parent does, and
/// ends one step earlier.
proof fn lemma_parent_walk(m: Map<u64, NodeModel>, entry: u64, max_depth: u16, k: nat)
    requires
        k < walk_end(m, entry, max_depth, 0).0,
        walk_end(m, entry, max_depth, 0).1 is Root,
    ensures
        walk_end(m, m[entry].parent_entry, max_depth, k) == (
            (walk_end(m, entry, max_depth, 0).0 - 1) as nat,
            Ending::Root,
        ),
    decreases walk_end(m, entry, max_depth, 0).0 - k,
{
    let parent = m[entry].parent_entry;
    let end = walk_end(m, entry, max_depth, 0).0;
    lemma_ancestor_of_parent(m, entry, k);
    lemma_walk_steps(m, entry, max_depth, 0, k + 1);
    let up = m[ancestor(m, parent, k)].parent_entry;
    if k + 1 < end {
        assert(ends_at(m, entry, max_depth, k + 1) is None);
        if visited(m, parent, k, up) {
            let j = choose|j: nat| j <= k && #[trigger] ancestor(m, parent, j) == up;
            lemma_ancestor_of_parent(m, entry, j);
            assert(ancestor(m, entry, j + 1) == up);
            assert(visited(m, entry, k + 1, up));
        }
        assert(ends_at(m, parent, max_depth, k) is None);
        lemma_parent_walk(m, entry, max_depth, k + 1);
    } else {
        assert(ends_at(m, parent, max_depth, k) == Some(Ending::Root));
    }
}

/// A clean path is the parent's path and the entry's own name: where an entry below
/// the top level resolves without a diagnostic, its parent is indexed and resolves
/// without one too, and the path is the parent's, a separator, and the entry's name.
pub proof fn law_clean_path_extends_parent(m: Map<u64, NodeModel>, entry: u64, max_depth: u16)
    requires
        m.contains_key(entry),
        entry != ROOT_ENTRY,
        m[entry].parent_entry != ROOT_ENTRY,
        resolved(m, entry, max_depth).diagnostic is None,
    ensures
        m.contains_key(m[entry].parent_entry),
        resolved(m, m[entry].parent_entry, max_depth).diagnostic is None,
        resolved(m, entry, max_depth).path == resolved(
            m,
            m[entry].parent_entry,
            max_depth,
        ).path + sep() + m[entry].name,
{
    let parent = m[entry].parent_entry;
    let end = walk_end(m, entry, max_depth, 0).0;
    lemma_walk_steps(m, entry, max_depth, 0, 0);
    assert(ancestor(m, entry, 0) == entry);
    assert(end > 0);
    lemma_parent_walk(m, entry, max_depth, 0);
    let names = lineage(m, entry, end);
    let above = lineage(m, parent, (end - 1) as nat);
    assert forall|i: int| 0 <= i < end implies names[i] == above[i] by {
        lemma_ancestor_of_parent(m, entry, (end - 1 - i) as nat);
    }
    assert(names.drop_last() =~= above);
    assert(names.last() == m[entry].name);
}

/// A top-level entry resolves to its own name, without a diagnostic, unless the index
/// holds the root with another sequence than the entry recorded.
pub proof fn law_top_level_is_its_name(m: Map<u64, NodeModel>, entry: u64, max_depth: u16)
    requires
        m.contains_key(entry),
        m[entry].parent_entry == ROOT_ENTRY,
        entry == ROOT_ENTRY || !m.contains_key(ROOT_ENTRY) || m[ROOT_ENTRY].sequence
            == m[entry].parent_seq,
    ensures
        resolved(m, entry, max_depth) == (PathModel { path: m[entry].name, diagnostic: None }),
{
    if entry != ROOT_ENTRY {
        assert(ancestor(m, entry, 0) == entry);
        assert(lineage(m, entry, 0) =~= seq![m[entry].name]);
    }
}

/// An entry whose parent's slot was reused, be it the root's, or whose parent is missing
/// and is not the root, is rooted at that parent's number under `\$Orphan`.
pub proof fn law_lost_parent_is_orphan(m: Map<u64, NodeModel>, entry: u64, max_depth: u16)
    requires
        m.contains_key(entry),
        entry != ROOT_ENTRY,
        m[entry].parent_entry != entry,
        max_depth > 1 || m[entry].parent_entry == ROOT_ENTRY,
        if m.contains_key(m[entry].parent_entry) {
            m[m[entry].parent_entry].sequence != m[entry].parent_seq
        } else {
            m[entry].parent_entry != ROOT_ENTRY
        },
    ensures
        resolved(m, entry, max_depth) == (PathModel {
            path: "\\$Orphan\\"@ + decimal(m[entry].parent_entry as nat) + sep() + m[entry].name,
            diagnostic: Some("orphan-parent"@),
        }),
{
    let parent = m[entry].parent_entry;
    assert(ancestor(m, entry, 0) == entry);
    assert(!visited(m, entry, 0, parent)) by {
        if visited(m, entry, 0, parent) {
            let j = choose|j: nat| j <= 0 && #[trigger] ancestor(m, entry, j) == parent;
            assert(j == 0);
        }
    }
    assert(ends_at(m, entry, max_depth, 0) == Some(Ending::Orphan(parent)));
    assert(lineage(m, entry, 0) =~= seq![m[entry].name]);
}

/// A parent loop and an absurd depth are told apart from a path: where each of the
/// first `max_depth` ancestors has a known, current parent other than the root, the
/// entry resolves to a `\$Cycle` path of at most `max_depth` names.
pub proof fn law_endless_walk_is_cycle(m: Map<u64, NodeModel>, entry: u64, max_depth: u16)
    requires
        m.contains_key(entry),
        entry != ROOT_ENTRY,
        forall|k: nat|
            #![trigger ancestor(m, entry, k)]
            k == 0 || k < max_depth ==> {
                let node = m[ancestor(m, entry, k)];
                &&& node.parent_entry != ROOT_ENTRY
                &&& m.contains_key(node.parent_entry)
                &&& m[node.parent_entry].sequence == node.parent_seq
            },
    ensures
        resolved(m, entry, max_depth).diagnostic == Some("cycle"@),
        ({
            let end = walk_end(m, entry, max_depth, 0).0;
            &&& resolved(m, entry, max_depth).path == "\\$Cycle\\"@ + lineage_path(m, entry, end)
            &&& end == 0 || end < max_depth
        }),
{
    let end = walk_end(m, entry, max_depth, 0).0;
    law_walk_is_bounded(m, entry, max_depth);
    lemma_walk_steps(m, entry, max_depth, 0, end);
    let node = m[ancestor(m, entry, end)];
    assert(node.parent_entry != ROOT_ENTRY);
}

/// Whether `chain` leads from `entry` upward: each member is indexed and is no root, and
/// the next one is its parent, whose slot was not reused. No member comes twice.
pub open spec fn is_chain(m: Map<u64, NodeModel>, entry: u64, chain: Seq<u64>) -> bool {
    &&& chain.len() > 0
    &&& chain[0] == entry
    &&& forall|i: int| 0 <= i < chain.len() ==> m.contains_key(#[trigger] chain[i]) && chain[i] != 5
    &&& forall|i: int|
        0 <= i < chain.len() - 1 ==> {
            &&& m[#[trigger] chain[i]].parent_entry == chain[i + 1]
            &&& m[chain[i]].parent_seq == m[chain[i + 1]].sequence
        }
    &&& chain.no_duplicates()
}

/// The names of a chain, topmost first, with separators between them.
pub open spec fn chain_path(m: Map<u64, NodeModel>, chain: Seq<u64>) -> Seq<char>
    decreases chain.len(),
{
    if chain.len() <= 1 {
        m[chain[0]].name
    } else {
        chain_path(m, chain.drop_first()) + seq!['\\'] + m[chain[0]].name
    }
}

/// The members of a chain are the ancestors.
proof fn lemma_chain_ancestors(m: Map<u64, NodeModel>, entry: u64, chain: Seq<u64>, k: nat)
    requires
        is_chain(m, entry, chain),
        k < chain.len(),
    ensures
        ancestor(m, entry, k) == chain[k as int],
    decreases k,
{
    if k > 0 {
        lemma_chain_ancestors(m, entry, chain, (k - 1) as nat);
        assert(m[chain[k - 1]].parent_entry == chain[k as int]);
    }
}

/// A walk goes on over a chain that fits the depth bound, up to its last member.
proof fn lemma_chain_walk(
    m: Map<u64, NodeModel>,
    entry: u64,
    max_depth: u16,
    chain: Seq<u64>,
    k: nat,
)
    requires
        is_chain(m, entry, chain),
        chain.len() == 1 || chain.len() <= max_depth,
        k < chain.len(),
    ensures
        walk_end(m, entry, max_depth, 0) == walk_end(m, entry, max_depth, k),
    decreases k,
{
    if k > 0 {
        let j = (k - 1) as nat;
        lemma_chain_walk(m, entry, max_depth, chain, j);
        lemma_chain_ancestors(m, entry, chain, j);
        lemma_chain_ancestors(m, entry, chain, k);
        let parent = chain[k as int];
        assert(m[chain[j as int]].parent_entry == parent);
        if visited(m, entry, j, parent) {
            let i = choose|i: nat| i <= j && #[trigger] ancestor(m, entry, i) == parent;
            lemma_chain_ancestors(m, entry, chain, i);
            assert(chain[i as int] == chain[k as int]);
        }
        assert(ends_at(m, entry, max_depth, j) is None);
    }
}

/// The separated names of a chain are its lineage.
proof fn lemma_chain_path(m: Map<u64, NodeModel>, entry: u64, chain: Seq<u64>)
    requires
        is_chain(m, entry, chain),
    ensures
        lineage_path(m, entry, (chain.len() - 1) as nat) == chain_path(m, chain),
    decreases chain.len(),
{
    let k = (chain.len() - 1) as nat;
    let names = lineage(m, entry, k);
    assert(names.last() == m[entry].name) by {
        assert(ancestor(m, entry, 0) == entry);
    }
    if k == 0 {
        assert(names =~= seq![m[entry].name]);
    } else {
        let above = chain.drop_first();
        let parent = chain[1];
        assert(m[chain[0]].parent_entry == parent);
        assert(is_chain(m, parent, above)) by {
            assert forall|i: int| 0 <= i < above.len() implies m.contains_key(#[trigger] above[i])
                && above[i] != 5 by {
                assert(above[i] == chain[i + 1]);
            }
            assert forall|i: int| 0 <= i < above.len() - 1 implies ({
                &&& m[#[trigger] above[i]].parent_entry == above[i + 1]
                &&& m[above[i]].parent_seq == m[above[i + 1]].sequence
            }) by {
                assert(above[i] == chain[i + 1]);
                assert(above[i + 1] == chain[i + 2]);
            }
        }
        lemma_chain_path(m, parent, above);
        let upper = lineage(m, parent, (k - 1) as nat);
        assert forall|i: int| 0 <= i < k implies names[i] == upper[i] by {
            lemma_ancestor_of_parent(m, entry, (k - 1 - i) as nat);
        }
        assert(names.drop_last() =~= upper);
        assert(sep() =~= seq!['\\']);
    }
}

/// What an unbroken chain resolves to. If the parents of an entry lead to a child of the
/// root, every link known and current, no entry repeated and no more entries than the
/// depth bound allows, the entry resolves without a diagnostic to the names of that
/// chain, topmost first, joined by the separator.
pub proof fn law_unbroken_chain_is_the_path(
    m: Map<u64, NodeModel>,
    entry: u64,
    max_depth: u16,
    chain: Seq<u64>,
)
    requires
        is_chain(m, entry, chain),
        chain.len() == 1 || chain.len() <= max_depth,
        m[chain.last()].parent_entry == 5,
        m.contains_key(5) ==> m[5].sequence == m[chain.last()].parent_seq,
    ensures
        resolved(m, entry, max_depth).diagnostic is None,
        resolved(m, entry, max_depth).path == chain_path(m, chain),
{
    let k = (chain.len() - 1) as nat;
    lemma_chain_walk(m, entry, max_depth, chain, k);
    lemma_chain_ancestors(m, entry, chain, k);
    assert(ends_at(m, entry, max_depth, k) == Some(Ending::Root));
    assert(chain[0] == entry && m.contains_key(chain[0]));
    lemma_chain_path(m, entry, chain);
}

/// What a broken chain resolves to. If the parents of an entry lead, within the depth
/// bound, to one whose own parent is missing (the root apart) or had its slot reused, the
/// path is rooted at the number of that parent under `\$Orphan`.
pub proof fn law_broken_chain_is_orphan(
    m: Map<u64, NodeModel>,
    entry: u64,
    max_depth: u16,
    chain: Seq<u64>,
)
    requires
        is_chain(m, entry, chain),
        ({
            let top = m[chain.last()];
            if top.parent_entry == 5 {
                &&& chain.len() == 1 || chain.len() <= max_depth
                &&& m.contains_key(5)
                &&& m[5].sequence != top.parent_seq
            } else {
                &&& chain.len() < max_depth
                &&& !chain.contains(top.parent_entry)
                &&& m.contains_key(top.parent_entry) ==> m[top.parent_entry].sequence
                    != top.parent_seq
            }
        }),
    ensures
        resolved(m, entry, max_depth).diagnostic == Some("orphan-parent"@),
        resolved(m, entry, max_depth).path == "\\$Orphan\\"@ + decimal(
            m[chain.last()].parent_entry as nat,
        ) + seq!['\\'] + chain_path(m, chain),
{
    let k = (chain.len() - 1) as nat;
    let parent = m[chain.last()].parent_entry;
    lemma_chain_walk(m, entry, max_depth, chain, k);
    lemma_chain_ancestors(m, entry, chain, k);
    if parent != 5 && visited(m, entry, k, parent) {
        let i = choose|i: nat| i <= k && #[trigger] ancestor(m, entry, i) == parent;
        lemma_chain_ancestors(m, entry, chain, i);
        assert(chain[i as int] == parent);
    }
    assert(ends_at(m, entry, max_depth, k) == Some(Ending::Orphan(parent)));
    assert(chain[0] == entry && m.contains_key(chain[0]));
    lemma_chain_path(m, entry, chain);
    assert(sep() =~= seq!['\\']);
}

/// What an endless chain resolves to. If the parents of an entry lead back to one of
/// them, or are as many as the depth bound allows without a child of the root among them,
/// the path is the names met on the way under `\$Cycle`.
pub proof fn law_endless_chain_is_cycle(
    m: Map<u64, NodeModel>,
    entry: u64,
    max_depth: u16,
    chain: Seq<u64>,
)
    requires
        is_chain(m, entry, chain),
        chain.len() == 1 || chain.len() <= max_depth,
        m[chain.last()].parent_entry != 5,
        chain.len() >= max_depth || chain.contains(m[chain.last()].parent_entry),
    ensures
        resolved(m, entry, max_depth).diagnostic == Some("cycle"@),
        resolved(m, entry, max_depth).path == "\\$Cycle\\"@ + chain_path(m, chain),
{
    let k = (chain.len() - 1) as nat;
    let parent = m[chain.last()].parent_entry;
    lemma_chain_walk(m, entry, max_depth, chain, k);
    lemma_chain_ancestors(m, entry, chain, k);
    if chain.contains(parent) {
        let i = choose|i: int| 0 <= i < chain.len() && chain[i] == parent;
        lemma_chain_ancestors(m, entry, chain, i as nat);
        assert(ancestor(m, entry, i as nat) == parent);
        assert(visited(m, entry, k, parent));
    }
    assert(ends_at(m, entry, max_depth, k) == Some(Ending::Cycle));
    assert(chain[0] == entry && m.contains_key(chain[0]));
    lemma_chain_path(m, entry, chain);
}

/// An entry that is not indexed is an orphan under its own number.
pub proof fn law_unknown_entry_is_orphan(m: Map<u64, NodeModel>, entry: u64, max_depth: u16)
    requires
        !m.contains_key(entry),
    ensures
        resolved(m, entry, max_depth).diagnostic == Some("orphan-parent"@),
        resolved(m, entry, max_depth).path == "\\$Orphan\\"@ + decimal(entry as nat),
{
}

/// A parent that resolves cleanly with room left under the bound makes each of its
/// current children resolve cleanly, to its own path, a separator and the child's name.
pub proof fn law_clean_parent_has_clean_children(m: Map<u64, NodeModel>, entry: u64, max_depth: u16)
    requires
        m.contains_key(entry),
        entry != 5,
        ({
            let parent = m[entry].parent_entry;
            &&& parent != 5
            &&& m.contains_key(parent)
            &&& m[parent].sequence == m[entry].parent_seq
            &&& max_depth > 1
            &&& resolved(m, parent, (max_depth - 1) as u16).diagnostic is None
        }),
    ensures
        resolved(m, entry, max_depth).diagnostic is None,
        resolved(m, entry, max_depth).path == resolved(
            m,
            m[entry].parent_entry,
            (max_depth - 1) as u16,
        ).path + seq!['\\'] + m[entry].name,
{
    let parent = m[entry].parent_entry;
    let less = (max_depth - 1) as u16;
    let end = walk_end(m, parent, less, 0).0;
    lemma_walk_steps(m, parent, less, 0, end);
    lemma_walk_bound(m, parent, less, 0);
    let above = Seq::new(end + 1, |i: int| ancestor(m, parent, i as nat));
    let chain = seq![entry] + above;
    lemma_clean_walk_chain(m, parent, less);
    assert forall|i: int| 0 <= i < above.len() implies #[trigger] above[i] != entry by {
        lemma_no_return(m, entry, parent, less, i as nat);
    }
    assert(is_chain(m, entry, chain)) by {
        assert forall|i: int| 0 <= i < chain.len() implies m.contains_key(#[trigger] chain[i])
            && chain[i] != 5 by {
            if i > 0 {
                assert(chain[i] == above[i - 1]);
            }
        }
        assert forall|i: int| 0 <= i < chain.len() - 1 implies ({
            &&& m[#[trigger] chain[i]].parent_entry == chain[i + 1]
            &&& m[chain[i]].parent_seq == m[chain[i + 1]].sequence
        }) by {
            assert(chain[i + 1] == above[i]);
            if i > 0 {
                assert(chain[i] == above[i - 1]);
            }
        }
        assert forall|i: int, j: int|
            0 <= i < chain.len() && 0 <= j < chain.len() && i != j implies chain[i] != chain[j] by {
            if i > 0 {
                assert(chain[i] == above[i - 1]);
            }
            if j > 0 {
                assert(chain[j] == above[j - 1]);
            }
        }
    }
    assert(chain.last() == above.last());
    law_unbroken_chain_is_the_path(m, entry, max_depth, chain);
    law_unbroken_chain_is_the_path(m, parent, less, above);
    assert(chain.drop_first() =~= above);
}

/// The ancestors of a clean walk are a chain that ends below the root.
proof fn lemma_clean_walk_chain(m: Map<u64, NodeModel>, entry: u64, max_depth: u16)
    requires
        m.contains_key(entry),
        entry != 5,
        resolved(m, entry, max_depth).diagnostic is None,
    ensures
        ({
            let end = walk_end(m, entry, max_depth, 0).0;
            let chain = Seq::new(end + 1, |i: int| ancestor(m, entry, i as nat));
            &&& is_chain(m, entry, chain)
            &&& chain.len() == 1 || chain.len() <= max_depth
            &&& m[chain.last()].parent_entry == 5
            &&& m.contains_key(5) ==> m[5].sequence == m[chain.last()].parent_seq
        }),
{
    let end = walk_end(m, entry, max_depth, 0).0;
    let chain = Seq::new(end + 1, |i: int| ancestor(m, entry, i as nat));
    lemma_walk_steps(m, entry, max_depth, 0, end);
    lemma_walk_bound(m, entry, max_depth, 0);
    assert(ancestor(m, entry, 0) == entry);
    assert forall|i: int| 0 <= i < chain.len() - 1 implies ({
        &&& m[#[trigger] chain[i]].parent_entry == chain[i + 1]
        &&& m[chain[i]].parent_seq == m[chain[i + 1]].sequence
        &&& m.contains_key(chain[i + 1])
        &&& chain[i + 1] != 5
    }) by {
        lemma_walk_steps(m, entry, max_depth, 0, i as nat);
        assert(ancestor(m, entry, (i + 1) as nat) == m[ancestor(m, entry, i as nat)].parent_entry);
    }
    assert forall|i: int| 0 <= i < chain.len() implies m.contains_key(#[trigger] chain[i])
        && chain[i] != 5 by {
        if i > 0 {
            assert(m[chain[i - 1]].parent_entry == chain[i]);
        }
    }
    assert forall|i: int, j: int|
        0 <= i < chain.len() && 0 <= j < chain.len() && i != j implies chain[i] != chain[j] by {
        if i < j {
            law_walk_visits_no_entry_twice(m, entry, max_depth, i as nat, j as nat);
        } else {
            law_walk_visits_no_entry_twice(m, entry, max_depth, j as nat, i as nat);
        }
    }
}

/// The walk of a parent that reaches the root does not come back to the child.
proof fn lemma_no_return(m: Map<u64, NodeModel>, entry: u64, parent: u64, max_depth: u16, i: nat)
    requires
        m[entry].parent_entry == parent,
        parent != 5,
        i <= walk_end(m, parent, max_depth, 0).0,
        walk_end(m, parent, max_depth, 0).1 is Root,
    ensures
        ancestor(m, parent, i) != entry,
{
    let end = walk_end(m, parent, max_depth, 0).0;
    lemma_walk_steps(m, parent, max_depth, 0, i);
    if ancestor(m, parent, i) == entry && i < end {
        assert(ancestor(m, parent, i + 1) == parent);
        assert(ancestor(m, parent, 0) == parent);
        law_walk_visits_no_entry_twice(m, parent, max_depth, 0, i + 1);
    }
}

/// A resolved path and its contents are the same value.
pub proof fn law_path_contents(p: ResolvedPath)
    ensures
        p@.path == p.path@,
        p.diagnostic is None <==> p@.diagnostic is None,
        p.diagnostic matches Some(d) ==> p@.diagnostic == Some(d@),
{
}

} // verus!
