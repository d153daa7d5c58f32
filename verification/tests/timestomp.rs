//! The timestomp heuristic.

use mft_timeline::timestomp::{evaluate, Reason};
use mft_timeline::Macb;

fn quad(c: i64, m: i64, a: i64, r: i64) -> Macb {
    Macb {
        created: Some(c),
        modified: Some(m),
        accessed: Some(a),
        mft_modified: Some(r),
    }
}

#[test]
fn si_before_fn_creation_is_suspect() {
    // SI created 100, FN created 200 → impossible ordering.
    let si = quad(100, 100, 100, 100);
    let fna = quad(200, 200, 200, 200);
    let t = evaluate(&si, &fna);
    assert!(t.suspect);
    assert!(t.reasons.contains(&Reason::SiCreationBeforeFnCreation));
}

#[test]
fn zero_subsecond_is_suspect() {
    // Whole-second SI (micros divisible by 1e6), FN equal → only the tell.
    let si = quad(2_000_000, 2_000_000, 2_000_000, 2_000_000);
    let fna = quad(2_000_000, 2_000_000, 2_000_000, 2_000_000);
    let t = evaluate(&si, &fna);
    assert!(t.suspect);
    assert!(t.reasons.contains(&Reason::ZeroSubsecond));
}

#[test]
fn timestomp_clean_record_not_suspect() {
    // SI later than FN with sub-second fractions: normal.
    let si = quad(5_000_123, 6_000_321, 6_000_321, 6_000_321);
    let fna = quad(4_000_111, 4_000_111, 4_000_111, 4_000_111);
    let t = evaluate(&si, &fna);
    assert!(!t.suspect, "reasons: {:?}", t.reasons);
}

#[test]
fn rename_bypass_copies_si_into_fn() {
    // Stomped SI to whole seconds THEN renamed: FN inherits the stomp, so
    // SI==FN and there is no ordering anomaly — but the zero-subsecond tell
    // still fires (we don't over-claim, but we don't miss this either).
    let si = quad(1_000_000_000, 1_000_000_000, 1_000_000_000, 1_000_000_000);
    let fna = si;
    let t = evaluate(&si, &fna);
    assert!(t.reasons.contains(&Reason::ZeroSubsecond));
}
