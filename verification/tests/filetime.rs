//! FILETIME resolution.

use mft_timeline::filetime::{is_zero_subsecond, to_micros, Timestamp, FILETIME_EPOCH_UNIX_SECS};

#[test]
fn zero_filetime_is_null() {
    // FILETIME 0 == 1601-01-01T00:00:00Z.
    let zero = Timestamp::from_second(FILETIME_EPOCH_UNIX_SECS).unwrap();
    assert_eq!(to_micros(zero), None);
}

#[test]
fn real_time_maps_to_micros() {
    let ts = Timestamp::from_second(1_700_000_000).unwrap();
    assert_eq!(to_micros(ts), Some(1_700_000_000_000_000));
}

#[test]
fn zero_subsecond_detection() {
    assert!(is_zero_subsecond(Some(1_700_000_000_000_000)));
    assert!(!is_zero_subsecond(Some(1_700_000_000_000_001)));
    assert!(!is_zero_subsecond(None));
}
