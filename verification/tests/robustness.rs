//! The decoder never panics on arbitrary or truncated bytes: a `$MFT` collected from
//! a compromised or failing host can be corrupt or hostile. Every entry point is
//! exercised against pseudo-random buffers and mutilated copies of a valid record.

use std::collections::BTreeMap;

use mft_timeline::parse::is_parser_source;
use mft_timeline::synth::{ns, MftBuilder, RecordBuilder, Times};
use mft_timeline::{
    decode_one, full_path, parse_record, record_header, well_formed, Decoder, ParseOutcome,
    ResolverNode, WellFormedKind,
};

/// Drive every public entry point over `bytes` for some entry indices.
fn exercise(bytes: &[u8], entries: &[u64]) {
    for &n in entries {
        let _ = record_header(bytes.to_vec(), n);
        let _ = well_formed(bytes.to_vec(), n);
        let _ = decode_one(bytes.to_vec(), n);
        let _ = full_path(bytes.to_vec(), n, 256);
        if let Ok(mut dec) = Decoder::new(bytes.to_vec()) {
            let _ = dec.decode(n);
            let _ = dec.raw_entry(n);
            let mut resolver: BTreeMap<u64, ResolverNode> = BTreeMap::new();
            dec.build_resolver(&mut resolver);
        }
    }
}

/// A small linear congruential generator.
struct Lcg(u64);

impl Lcg {
    fn next(&mut self) -> u8 {
        self.0 = self
            .0
            .wrapping_mul(6364136223846793005)
            .wrapping_add(1442695040888963407);
        (self.0 >> 56) as u8
    }
}

fn rich_record() -> Vec<u8> {
    let t = Times::uniform_secs(1_600_000_000);
    RecordBuilder::new(0, 1)
        .standard_info(t, 0x20, 1)
        .file_name(5, 5, t, 5, 8, 0x20, ns::WIN32, "x.txt")
        .ads_resident("ads", b"streamy")
        .data_non_resident(4096, 8192)
        .build()
}

#[test]
fn arbitrary_bytes_never_panic() {
    let mut lcg = Lcg(1);
    for len in [0usize, 1, 3, 4, 31, 32, 41, 42, 48, 511, 512, 1023, 1024, 1025, 2048, 4095] {
        for _ in 0..4 {
            let bytes: Vec<u8> = (0..len).map(|_| lcg.next()).collect();
            exercise(&bytes, &[0, 1, 2, 5, 7, 100, u64::MAX]);
        }
    }
}

#[test]
fn arbitrary_records_never_panic() {
    let mut lcg = Lcg(2);
    for _ in 0..200 {
        // A random body behind a plausible header.
        let mut rec = rich_record();
        for byte in rec.iter_mut().skip(56) {
            *byte = lcg.next();
        }
        exercise(&rec, &[0]);
    }
}

#[test]
fn truncated_valid_record_never_panics() {
    let t = Times::uniform_secs(1_600_000_000);
    let rec = RecordBuilder::new(0, 1)
        .standard_info(t, 0x20, 1)
        .file_name(5, 5, t, 5, 8, 0x20, ns::WIN32, "x.txt")
        .data_resident(b"hello")
        .build();
    for cut in 0..1024 {
        exercise(&rec[..cut], &[0, 1, u64::MAX]);
    }
}

#[test]
fn single_byte_flip_never_panics() {
    let rec = rich_record();
    for pos in 0..1024 {
        for val in [0x00u8, 0x01, 0x08, 0x20, 0x7F, 0x80, 0xFE, 0xFF] {
            let mut bad = rec.clone();
            bad[pos] = val;
            exercise(&bad, &[0]);
        }
    }
}

#[test]
fn record_header_of_a_valid_slot() {
    let image = MftBuilder::new()
        .add(&RecordBuilder::new(0, 3).directory(true).lsn(77))
        .finish();
    let h = record_header(image.clone(), 0).unwrap();
    assert_eq!(h.signature, "FILE");
    assert_eq!(h.sequence, 3);
    assert!(h.in_use && h.is_dir);
    assert_eq!(h.lsn, 77);
    assert_eq!(h.allocated_size, 1024);
    assert_eq!(h.base_ref, 0);
    assert!(record_header(image, 1).is_none());
}

#[test]
fn parser_crates_are_told_by_their_path() {
    assert!(is_parser_source("/home/u/.cargo/registry/src/i/mft-0.7.0/src/entry.rs"));
    assert!(is_parser_source("/r/winstructs-0.3.2/src/lib.rs"));
    assert!(is_parser_source("/r/jiff-0.2.1/src/timestamp.rs"));
    assert!(!is_parser_source("src/mft/main.rs"));
    assert!(!is_parser_source("mft-0.7.0/src/entry.rs"));
    assert!(!is_parser_source(""));
}

#[test]
fn short_buffers_are_classified() {
    let parsed = |bytes: &[u8]| match parse_record(bytes.to_vec(), 0) {
        ParseOutcome::Bad(kind, msg) => (kind, msg),
        other => panic!("{other:?}"),
    };
    assert_eq!(
        parsed(b"FI"),
        (WellFormedKind::Truncated, "An I/O error has occurred".to_string())
    );
    assert_eq!(
        parsed(b"JUNK"),
        (
            WellFormedKind::BadSignature,
            "Bad signature: [4a, 55, 4e, 4b], expected one of [b\"FILE\", b\"BAAD\", b\"0000\"]"
                .to_string()
        )
    );
    let mut short = b"FILE".to_vec();
    short.resize(35, 1);
    assert_eq!(
        parsed(&short),
        (
            WellFormedKind::Truncated,
            "Failed to read MftReference".to_string()
        )
    );
    short.truncate(20);
    assert_eq!(parsed(&short).0, WellFormedKind::Truncated);
    short.resize(41, 1);
    assert_eq!(parsed(&short).0, WellFormedKind::Truncated);
    assert!(matches!(parse_record(vec![0; 64], 0), ParseOutcome::Empty));
    let mut tailed = vec![0u8; 64];
    tailed[60] = 1;
    assert!(matches!(parse_record(tailed, 0), ParseOutcome::Empty));
}

#[test]
fn each_kind_of_verdict() {
    let t = Times::uniform_secs(1_600_000_000);
    let image = MftBuilder::new()
        .add(
            &RecordBuilder::new(0, 1)
                .standard_info(t, 0x20, 1)
                .file_name(5, 5, t, 0, 0, 0x20, ns::WIN32, "$MFT"),
        )
        .add(&RecordBuilder::new(1, 1).baad())
        .add(&RecordBuilder::new(2, 1).break_fixup())
        .add(&RecordBuilder::new(3, 1).bad_signature())
        .add(&RecordBuilder::new(5, 1))
        .finish();
    let kind = |n: u64| well_formed(image.clone(), n).kind;
    assert_eq!(kind(0), WellFormedKind::Clean);
    assert_eq!(kind(1), WellFormedKind::Baad);
    assert_eq!(kind(2), WellFormedKind::FixupMismatch);
    assert_eq!(kind(3), WellFormedKind::BadSignature);
    assert_eq!(kind(4), WellFormedKind::NotAnMft);
    assert_eq!(kind(6), WellFormedKind::Truncated);
    let clean = well_formed(image.clone(), 0);
    assert!(clean.ok && clean.error.is_none() && clean.kind.is_ok());
    let empty = well_formed(image.clone(), 4);
    assert_eq!(empty.error.as_deref(), Some("empty (zeroed) slot"));
    let outside = well_formed(image.clone(), 6);
    assert_eq!(outside.error.as_deref(), Some("entry index out of range"));
    assert_eq!(well_formed(image, 1).kind.as_str(), "baad");
    assert_eq!(WellFormedKind::Clean.as_str(), "ok");
    assert_eq!(WellFormedKind::AttrOverrun.as_str(), "attr-overrun");
}

#[test]
fn an_attribute_past_the_record_is_an_overrun() {
    let mut rec = RecordBuilder::new(0, 1).data_resident(b"hello").build();
    assert!(well_formed(rec.clone(), 0).ok);
    // The attribute at 0x38 now declares length 0x1020.
    rec[0x3D] = 0x10;
    let w = well_formed(rec.clone(), 0);
    assert!(!w.ok);
    assert_eq!(w.kind, WellFormedKind::AttrOverrun);
    assert_eq!(w.error.as_deref(), Some("attribute runs past the record"));
    let decoded = decode_one(rec, 0).unwrap().unwrap();
    assert_eq!(decoded.diagnostics, vec!["attr-overrun".to_string()]);
}

#[test]
fn a_fixup_past_the_record_is_an_overrun() {
    let mut image = MftBuilder::new().add(&RecordBuilder::new(0, 1)).finish();
    // An update-sequence array that begins at the record's last bytes.
    image[4] = 0xFE;
    image[5] = 0x03;
    let w = well_formed(image.clone(), 0);
    assert_eq!(w.kind, WellFormedKind::AttrOverrun);
    assert_eq!(
        w.error.as_deref(),
        Some("parser panicked on malformed record (caught)")
    );
    let rec = decode_one(image, 0).unwrap().unwrap();
    assert_eq!(rec.entry, 0);
    assert_eq!(rec.diagnostics.len(), 1);
    assert!(rec.diagnostics[0].starts_with("attr-overrun"));
}

#[test]
fn hostile_attribute_length_is_refused() {
    let t = Times::uniform_secs(1_600_000_000);
    let mut rec = RecordBuilder::new(0, 1).standard_info(t, 0x20, 1).build();
    let first = u16::from_le_bytes([rec[0x14], rec[0x15]]) as usize;
    // The first attribute claims four gigabytes.
    rec[first + 4..first + 8].copy_from_slice(&[0xF0, 0xFF, 0xFF, 0xFF]);
    let out = decode_one(rec, 0).unwrap().unwrap();
    assert!(out.attributes.is_empty());
    assert!(out.standard_info.is_none());
    assert!(out.diagnostics.iter().any(|d| d.starts_with("attr-overrun")));
}

fn first_attribute(rec: &[u8]) -> usize {
    u16::from_le_bytes([rec[0x14], rec[0x15]]) as usize
}

#[test]
fn non_resident_data_has_sizes_only() {
    let rec = RecordBuilder::new(0, 1).data_non_resident(4096, 8192).build();
    let out = decode_one(rec, 0).unwrap().unwrap();
    assert_eq!(out.data.logical_size(), 4096);
    assert_eq!(out.data.physical_size(), 8192);
    assert!(out.data.resident_bytes().is_none());
    assert!(out.diagnostics.is_empty());
}

#[test]
fn overflowing_data_runs_are_diagnosed() {
    let mut rec = RecordBuilder::new(0, 1).data_non_resident(4096, 8192).build();
    let first = first_attribute(&rec);
    let runs = u16::from_le_bytes([rec[first + 0x20], rec[first + 0x21]]) as usize;
    // A run whose length takes no bytes.
    rec[first + runs] = 0x10;
    let out = decode_one(rec, 0).unwrap().unwrap();
    assert_eq!(
        out.diagnostics,
        vec!["attr-overrun:decode panicked (caught)".to_string()]
    );
}

#[test]
fn a_looping_attribute_list_is_diagnosed() {
    // An attribute list whose entry claims a length of zero.
    let mut rec = RecordBuilder::new(0, 1).data_resident(&[0u8; 32]).build();
    let first = first_attribute(&rec);
    rec[first] = 0x20;
    let out = decode_one(rec, 0).unwrap().unwrap();
    assert_eq!(
        out.diagnostics,
        vec!["attr-overrun:decode panicked (caught)".to_string()]
    );
}

#[test]
fn a_looping_directory_index_is_diagnosed() {
    // An index root with one entry that has a reference and a length of zero.
    let mut content = vec![0u8; 32 + 16 + 66];
    content[20] = 200;
    content[32] = 1;
    content[38] = 1;
    let mut rec = RecordBuilder::new(0, 1).data_resident(&content).build();
    let first = first_attribute(&rec);
    rec[first] = 0x90;
    let out = decode_one(rec, 0).unwrap().unwrap();
    assert_eq!(
        out.diagnostics,
        vec!["attr-overrun:decode panicked (caught)".to_string()]
    );
}

#[test]
fn decoding_outside_the_image_gives_nothing() {
    let image = MftBuilder::new().add(&RecordBuilder::new(0, 1)).finish();
    let mut dec = Decoder::new(image).unwrap();
    assert_eq!(dec.entry_count(), 1);
    assert_eq!(dec.record_size(), 1024);
    assert!(dec.decode(0).unwrap().is_some());
    assert!(dec.decode(1).unwrap().is_none());
    assert!(dec.decode(u64::MAX).unwrap().is_none());
    assert!(dec.raw_entry(1).is_none());
}

#[test]
fn stride_is_read_from_the_first_record() {
    let mut image = MftBuilder::new()
        .add(&RecordBuilder::new(0, 1))
        .add(&RecordBuilder::new(1, 1))
        .finish();
    assert_eq!(Decoder::new(image.clone()).unwrap().entry_count(), 2);
    image[0x1C..0x20].copy_from_slice(&512u32.to_le_bytes());
    let dec = Decoder::new(image.clone()).unwrap();
    assert_eq!(dec.record_size(), 512);
    assert_eq!(dec.entry_count(), 4);
    // An implausible stride is not believed.
    for bad in [0u32, 511, 513, 65537, 131072] {
        image[0x1C..0x20].copy_from_slice(&bad.to_le_bytes());
        assert_eq!(Decoder::new(image.clone()).unwrap().record_size(), 1024);
    }
    assert_eq!(Decoder::new(Vec::new()).unwrap().record_size(), 1024);
}
