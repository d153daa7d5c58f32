//! The scan end to end over an inline blob: rows, modes, host labels and resuming.

use mft_timeline::batches;
use mft_timeline::options::Mode;
use mft_timeline::scan::{Opening, ReadMftProducer, ScanStep};
use mft_timeline::synth::{ns, MftBuilder, RecordBuilder, Times};
use mft_timeline::timeline::{build_timeline_batch, TimelineColumns};

const F_DIR: u32 = 0x1000_0000;
const F_ARCHIVE: u32 = 0x20;

fn sample() -> Vec<u8> {
    let t = Times::uniform_micros(1_600_000_000_500_000);
    MftBuilder::new()
        .add(
            &RecordBuilder::new(0, 1)
                .standard_info(t, F_ARCHIVE, 1)
                .file_name(5, 5, t, 0, 0, F_ARCHIVE, ns::WIN32, "$MFT"),
        )
        .add(
            &RecordBuilder::new(5, 5)
                .directory(true)
                .standard_info(t, F_DIR, 2)
                .file_name(5, 5, t, 0, 0, F_DIR, ns::WIN32, "."),
        )
        .add(
            &RecordBuilder::new(11, 1)
                .directory(true)
                .standard_info(t, F_DIR, 3)
                .file_name(5, 5, t, 0, 0, F_DIR, ns::WIN32, "Windows"),
        )
        .add(
            &RecordBuilder::new(12, 1)
                .directory(true)
                .standard_info(t, F_DIR, 4)
                .file_name(11, 1, t, 0, 0, F_DIR, ns::WIN32, "System32"),
        )
        .add(
            &RecordBuilder::new(20, 1)
                .standard_info(t, F_ARCHIVE, 5)
                .file_name(12, 1, t, 11, 16, F_ARCHIVE, ns::WIN32, "cmd.exe")
                .data_resident(b"MZresident"),
        )
        .add(
            &RecordBuilder::new(23, 2)
                .allocated(false)
                .standard_info(t, F_ARCHIVE, 8)
                .file_name(12, 1, t, 9, 16, F_ARCHIVE, ns::WIN32, "deleted.log")
                .data_resident(b"logged"),
        )
        .add(
            &RecordBuilder::new(24, 1)
                .standard_info(Times::uniform_secs(1_230_000_000), F_ARCHIVE, 9)
                .file_name(
                    12,
                    1,
                    Times::uniform_secs(1_600_000_000),
                    100,
                    104,
                    F_ARCHIVE,
                    ns::WIN32,
                    "timestomped.exe",
                ),
        )
        .add(
            &RecordBuilder::new(22, 1)
                .standard_info(t, F_ARCHIVE, 7)
                .file_name(12, 1, t, 5, 8, F_ARCHIVE, ns::WIN32, "notes.txt")
                .data_resident(b"hi")
                .ads_resident("hidden", b"secret"),
        )
        .finish()
}

/// Scan to the end, with no file to load.
fn drain(p: &mut ReadMftProducer) -> Vec<TimelineColumns> {
    let mut out = Vec::new();
    loop {
        match p.produce() {
            ScanStep::Batch(rows) => out.push(build_timeline_batch(&rows)),
            ScanStep::Done => return out,
            ScanStep::Load(path) => panic!("no file to load, got {path}"),
        }
    }
}

fn scan_blob(bytes: Vec<u8>, host: Option<String>, mode: Mode) -> Vec<TimelineColumns> {
    batches::scan_blob(bytes, host, mode)
        .iter()
        .map(|rows| build_timeline_batch(rows))
        .collect()
}

fn find_entry(b: &TimelineColumns, entry: u64) -> Option<usize> {
    b.entry.iter().position(|e| *e == entry)
}

#[test]
fn timeline_path_and_flags() {
    let batches = scan_blob(sample(), None, Mode::Files);
    assert_eq!(batches.len(), 1);
    let b = &batches[0];
    let i = find_entry(b, 20).expect("cmd.exe row");
    assert_eq!(
        b.full_path[i].as_deref(),
        Some("Windows\\System32\\cmd.exe")
    );
    assert_eq!(b.file_name[i].as_deref(), Some("cmd.exe"));
    assert!(!b.is_deleted[i]);
}

#[test]
fn deleted_included_by_default() {
    let batches = scan_blob(sample(), None, Mode::Files);
    let b = &batches[0];
    let i = find_entry(b, 23).expect("deleted.log row present by default");
    assert!(b.is_deleted[i]);
}

#[test]
fn allocated_mode_excludes_deleted() {
    let batches = scan_blob(sample(), None, Mode::Allocated);
    let b = &batches[0];
    assert!(
        find_entry(b, 23).is_none(),
        "deleted record excluded in allocated mode"
    );
    assert!(find_entry(b, 20).is_some(), "live record retained");
}

#[test]
fn timestomp_flagged() {
    let batches = scan_blob(sample(), None, Mode::Files);
    let b = &batches[0];
    let i = find_entry(b, 24).expect("timestomped.exe row");
    assert!(b.is_timestomp_suspect[i]);
    // A clean file is not flagged.
    let j = find_entry(b, 20).unwrap();
    assert!(!b.is_timestomp_suspect[j]);
}

#[test]
fn streams_mode_surfaces_ads() {
    let batches = scan_blob(sample(), None, Mode::Streams);
    let b = &batches[0];
    let found = b.ads_name.iter().any(|n| n.as_deref() == Some("hidden"));
    assert!(found, "the 'hidden' ADS must surface in streams mode");
}

#[test]
fn host_arg_populates_column() {
    let batches = scan_blob(sample(), Some("host01".into()), Mode::Files);
    let b = &batches[0];
    assert_eq!(b.host[0].as_deref(), Some("host01"));
}

#[test]
fn resume_state_round_trips() {
    // Open the source (builds the resolver) and take the scan state at the start of
    // the scan: the HTTP-rehydration snapshot. The resolver must be carried, and
    // restoring it into a fresh producer must reproduce the full scan.
    let mut p = ReadMftProducer::new_blob(sample(), None, Mode::Files);
    assert!(matches!(p.ensure_open(), Opening::Open));
    let state = p.encode_resume();
    assert!(!state.resolver.is_empty(), "resolver carried in scan state");
    assert_eq!(state.cursor.byte_offset, 0, "snapshot at start of source");

    let expected_rows: usize = scan_blob(sample(), None, Mode::Files)
        .iter()
        .map(|b| b.entry.len())
        .sum();

    let mut p2 = ReadMftProducer::new_blob(sample(), None, Mode::Files);
    p2.restore_resume(state);
    let resumed: usize = drain(&mut p2).iter().map(|b| b.entry.len()).sum();
    assert_eq!(resumed, expected_rows, "resume reproduces the full scan");
}

#[test]
fn every_row_of_the_sample() {
    let batches = scan_blob(sample(), None, Mode::Files);
    let b = &batches[0];
    assert_eq!(b.entry, vec![0, 5, 11, 12, 20, 22, 23, 24]);
    let paths: Vec<&str> = b.full_path.iter().map(|p| p.as_deref().unwrap()).collect();
    assert_eq!(
        paths,
        vec![
            "$MFT",
            ".",
            "Windows",
            "Windows\\System32",
            "Windows\\System32\\cmd.exe",
            "Windows\\System32\\notes.txt",
            "Windows\\System32\\deleted.log",
            "Windows\\System32\\timestomped.exe",
        ]
    );
    assert_eq!(b.sequence, vec![1, 5, 1, 1, 1, 1, 2, 1]);
    assert!(b.host.iter().all(|h| h.is_none()));
    assert!(b.diagnostics.iter().all(|d| d.is_none()));
    assert_eq!(b.si_created[4], Some(1_600_000_000_500_000));
    assert_eq!(b.fn_created[7], Some(1_600_000_000_000_000));
    assert_eq!(b.si_created[7], Some(1_230_000_000_000_000));
    assert_eq!(b.resident_data[4].as_deref(), Some(&b"MZresident"[..]));
    assert_eq!(b.logical_size[4], 10);
    assert_eq!(b.parent_entry[4], Some(12));
    assert_eq!(b.dos_attributes[4], 0x20);
    assert!(b.is_dir[1] && !b.is_dir[4]);
    assert!(b.is_allocated[4] && !b.is_allocated[6]);
}

#[test]
fn streams_mode_has_a_row_per_stream() {
    let batches = scan_blob(sample(), None, Mode::Streams);
    let b = &batches[0];
    let of_notes: Vec<Option<&str>> = (0..b.entry.len())
        .filter(|i| b.entry[*i] == 22)
        .map(|i| b.ads_name[i].as_deref())
        .collect();
    assert_eq!(of_notes, vec![None, Some("hidden")]);
    // A record without any stream still has a row.
    assert!(find_entry(b, 11).is_some());
    assert_eq!(b.entry.len(), 9);
}

#[test]
fn resume_midway_emits_the_rest() {
    // 5000 records of one row each: three batches.
    let t = Times::uniform_secs(1_600_000_000);
    let record = RecordBuilder::new(7, 1)
        .standard_info(t, F_ARCHIVE, 1)
        .file_name(5, 5, t, 0, 0, F_ARCHIVE, ns::WIN32, "x")
        .build();
    let image: Vec<u8> = record.iter().copied().cycle().take(1024 * 5000).collect();

    let mut p = ReadMftProducer::new_blob(image.clone(), None, Mode::Files);
    let first = match p.produce() {
        ScanStep::Batch(rows) => rows.len(),
        _ => panic!("a batch is due"),
    };
    assert_eq!(first, 2048);
    let state = p.encode_resume();
    assert_eq!(state.next_entry(), 2048);
    assert_eq!(state.cursor.byte_offset, 2048 * 1024);
    assert_eq!(state.cursor.records_emitted, 2048);
    assert_eq!(state.cursor.source, "<blob>");
    assert!(state.resolver_built);
    let rest: Vec<u64> = drain(&mut p).iter().flat_map(|b| b.entry.clone()).collect();

    let mut again = ReadMftProducer::new_blob(image, None, Mode::Files);
    again.restore_resume(state);
    let resumed: Vec<u64> = drain(&mut again)
        .iter()
        .flat_map(|b| b.entry.clone())
        .collect();
    assert_eq!(rest.len(), 5000 - 2048);
    assert_eq!(resumed, rest);
}

#[test]
fn files_are_asked_for_in_order() {
    let files = vec!["a/$MFT".to_string(), "b/$MFT".to_string()];
    let mut p = ReadMftProducer::new_files(files, None, Mode::Files);
    assert_eq!(p.host_label().as_deref(), Some("a/$MFT"));
    match p.produce() {
        ScanStep::Load(path) => assert_eq!(path, "a/$MFT"),
        _ => panic!("the first file is due"),
    }
    p.open_source(sample());
    match p.produce() {
        ScanStep::Load(path) => assert_eq!(path, "b/$MFT"),
        _ => panic!("the second file is due"),
    }
    p.open_source(Vec::new());
    match p.produce() {
        ScanStep::Batch(rows) => {
            assert_eq!(rows.len(), 8);
            assert_eq!(rows[0].host.as_deref(), Some("a/$MFT"));
        }
        _ => panic!("a batch is due"),
    }
    assert!(matches!(p.produce(), ScanStep::Done));
    assert!(matches!(p.ensure_open(), Opening::Exhausted));
}

#[test]
fn an_abandoned_batch_is_dropped() {
    let files = vec!["a".to_string(), "b".to_string()];
    let mut p = ReadMftProducer::new_files(files, None, Mode::Files);
    assert!(matches!(p.produce(), ScanStep::Load(_)));
    p.open_source(sample());
    assert!(matches!(p.produce(), ScanStep::Load(_)));
    p.abandon_batch();
    p.open_source(Vec::new());
    assert!(matches!(p.produce(), ScanStep::Done));
}

#[test]
fn an_empty_blob_has_no_rows() {
    assert!(scan_blob(Vec::new(), None, Mode::Files).is_empty());
}

#[test]
fn malformed_slots_surface_with_a_diagnostic() {
    let t = Times::uniform_secs(1_600_000_000);
    let image = MftBuilder::new()
        .add(
            &RecordBuilder::new(0, 1)
                .standard_info(t, F_ARCHIVE, 1)
                .file_name(5, 5, t, 0, 0, F_ARCHIVE, ns::WIN32, "$MFT"),
        )
        .add(&RecordBuilder::new(1, 1).bad_signature())
        .finish();
    let batches = scan_blob(image, None, Mode::Files);
    let b = &batches[0];
    let i = find_entry(b, 1).expect("the malformed slot has a row");
    let text = b.diagnostics[i].as_deref().unwrap();
    assert!(text.starts_with("bad-signature"), "{text}");
}

#[test]
fn batches_are_full_and_the_same_after_a_resume() {
    // Slot 3000 is empty: it has no row.
    let t = Times::uniform_secs(1_600_000_000);
    let record = RecordBuilder::new(7, 1)
        .standard_info(t, F_ARCHIVE, 1)
        .build();
    let mut image: Vec<u8> = record.iter().copied().cycle().take(1024 * 4200).collect();
    image[3000 * 1024..3001 * 1024].fill(0);

    let whole: Vec<Vec<u64>> = scan_blob(image.clone(), None, Mode::Files)
        .iter()
        .map(|b| b.entry.clone())
        .collect();
    let sizes: Vec<usize> = whole.iter().map(|b| b.len()).collect();
    assert_eq!(sizes, vec![2048, 2048, 103]);
    let entries: Vec<u64> = whole.iter().flatten().copied().collect();
    let expected: Vec<u64> = (0..4200).filter(|n| *n != 3000).collect();
    assert_eq!(entries, expected);

    for k in [1, 3] {
        let mut p = ReadMftProducer::new_blob(image.clone(), None, Mode::Files);
        for _ in 0..k {
            assert!(matches!(p.produce(), ScanStep::Batch(_)));
        }
        let mut again = ReadMftProducer::new_blob(image.clone(), None, Mode::Files);
        again.restore_resume(p.encode_resume());
        let rest: Vec<Vec<u64>> = drain(&mut again).iter().map(|b| b.entry.clone()).collect();
        assert_eq!(rest, whole[k..].to_vec());
    }
}
