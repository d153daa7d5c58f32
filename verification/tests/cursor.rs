//! The scan position and what a record reports of itself.

use mft_timeline::record::diagnostic_record;
use mft_timeline::{MftScanState, DEFAULT_MAX_DEPTH};

#[test]
fn a_fresh_state_is_at_the_start() {
    let st = MftScanState::default();
    assert_eq!(st.record_size, 1024);
    assert_eq!(st.max_depth, DEFAULT_MAX_DEPTH);
    assert_eq!(st.next_entry(), 0);
    assert!(st.resolver.is_empty() && st.pending_paths.is_empty());
    assert!(!st.resolver_built);
    assert_eq!(st.cursor.source, "");
}

#[test]
fn advancing_moves_the_next_entry() {
    let mut st = MftScanState::default();
    st.advance(42);
    assert_eq!(st.cursor.byte_offset, 43_008);
    assert_eq!(st.cursor.records_emitted, 42);
    assert_eq!(st.next_entry(), 42);
    st.advance(8);
    assert_eq!(st.next_entry(), 50);
    st.record_size = 0;
    assert_eq!(st.next_entry(), 0);
}

#[test]
fn diagnostics_are_one_text() {
    let mut rec = diagnostic_record(9, "truncated:x");
    assert_eq!(rec.diagnostics_str().as_deref(), Some("truncated:x"));
    rec.diagnostics.push("cycle".to_string());
    assert_eq!(rec.diagnostics_str().as_deref(), Some("truncated:x,cycle"));
    rec.diagnostics.clear();
    assert_eq!(rec.diagnostics_str(), None);
    assert_eq!(rec.entry, 9);
    assert!(rec.primary_name().is_none());
}
