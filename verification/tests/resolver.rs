//! Path reconstruction over a resolver index.

use std::collections::BTreeMap;

use mft_timeline::resolver::resolve;
use mft_timeline::ResolverNode;

fn node(name: &str, parent: u64, seq: u16, parent_seq: u16, is_dir: bool) -> ResolverNode {
    ResolverNode {
        name: name.into(),
        parent_entry: parent,
        parent_seq,
        is_dir,
        sequence: seq,
    }
}

fn index() -> BTreeMap<u64, ResolverNode> {
    let mut m = BTreeMap::new();
    // 5 = root; 10 = Windows; 20 = System32; 30 = cmd.exe
    m.insert(5, node(".", 5, 5, 5, true));
    m.insert(10, node("Windows", 5, 1, 5, true));
    m.insert(20, node("System32", 10, 1, 1, true));
    m.insert(30, node("cmd.exe", 20, 1, 1, false));
    m
}

#[test]
fn reconstructs_nested_path() {
    let m = index();
    let r = resolve(&m, 30, 256);
    assert_eq!(r.path, "Windows\\System32\\cmd.exe");
    assert_eq!(r.diagnostic, None);
}

#[test]
fn root_level_file() {
    let mut m = index();
    m.insert(40, node("pagefile.sys", 5, 1, 5, false));
    let r = resolve(&m, 40, 256);
    assert_eq!(r.path, "pagefile.sys");
}

#[test]
fn missing_parent_is_orphan() {
    let mut m = BTreeMap::new();
    m.insert(30, node("evil.exe", 999, 1, 7, false));
    let r = resolve(&m, 30, 256);
    assert!(r.path.starts_with("\\$Orphan\\999\\"));
    assert_eq!(r.diagnostic, Some("orphan-parent"));
}

#[test]
fn stale_parent_is_orphan() {
    // Child recorded parent_seq=7 but the parent slot now has sequence=9.
    let mut m = BTreeMap::new();
    m.insert(10, node("ReusedDir", 5, 9, 5, true));
    m.insert(30, node("ghost.txt", 10, 1, 7, false));
    let r = resolve(&m, 30, 256);
    assert_eq!(r.diagnostic, Some("orphan-parent"));
}

#[test]
fn cycle_is_bounded() {
    // 100 -> 200 -> 100 loop.
    let mut m = BTreeMap::new();
    m.insert(100, node("a", 200, 1, 1, true));
    m.insert(200, node("b", 100, 1, 1, true));
    let r = resolve(&m, 100, 256);
    assert_eq!(r.diagnostic, Some("cycle"));
    assert!(r.path.starts_with("\\$Cycle\\"));
}

#[test]
fn absurd_depth_is_bounded() {
    let mut m = BTreeMap::new();
    // A long non-looping chain deeper than max_depth=4.
    for i in 10..40u64 {
        m.insert(i, node(&format!("d{i}"), i + 1, 1, 1, true));
    }
    m.insert(40, node("top", 5, 1, 5, true));
    let r = resolve(&m, 10, 4);
    assert_eq!(r.diagnostic, Some("cycle"));
}

#[test]
fn stale_root_is_orphan() {
    // The child recorded sequence 7 of the root, which now has sequence 5.
    let mut m = index();
    m.insert(40, node("pagefile.sys", 5, 1, 7, false));
    m.insert(41, node("Users", 5, 1, 4, true));
    m.insert(42, node("x", 41, 1, 1, false));
    let r = resolve(&m, 40, 256);
    assert_eq!(r.diagnostic, Some("orphan-parent"));
    assert_eq!(r.path, "\\$Orphan\\5\\pagefile.sys");
    let r = resolve(&m, 42, 256);
    assert_eq!(r.diagnostic, Some("orphan-parent"));
    assert_eq!(r.path, "\\$Orphan\\5\\Users\\x");
    // Without the root in the index there is nothing to compare with.
    m.remove(&5);
    assert_eq!(resolve(&m, 40, 256).path, "pagefile.sys");
    assert_eq!(resolve(&m, 40, 256).diagnostic, None);
}
