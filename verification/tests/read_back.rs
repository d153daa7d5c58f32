//! What the builder writes, the decoder reads back.

use mft_timeline::synth::{ns, MftBuilder, RecordBuilder, Times};
use mft_timeline::{decode_entry, decode_one, parse_record, Macb, Namespace, ParseOutcome};

fn quad(c: i64, m: i64, a: i64, r: i64) -> Macb {
    Macb {
        created: Some(c),
        modified: Some(m),
        accessed: Some(a),
        mft_modified: Some(r),
    }
}

/// 2001-09-09 and later, each with its own microseconds.
fn times() -> Times {
    Times {
        created: filetime(1_000_000_000_000_001),
        modified: filetime(1_000_000_000_000_002),
        mft_modified: filetime(1_000_000_000_000_003),
        accessed: filetime(1_000_000_000_000_004),
    }
}

fn filetime(micros: i64) -> u64 {
    mft_timeline::synth::filetime_micros(micros)
}

#[test]
fn every_field_reads_back() {
    let rec = RecordBuilder::new(7, 3)
        .directory(true)
        .hard_links(2)
        .lsn(0x0102_0304_0506_0708)
        .standard_info(times(), 0xFFFF_FFFF, 0xAABB)
        .file_name(
            0x0000_1234_5678_9ABC,
            0xDEF0,
            times(),
            11,
            22,
            0x20,
            ns::WIN32_AND_DOS,
            "na\u{ef}ve \u{1F600}.txt",
        )
        .file_name(5, 5, times(), 0, 0, 0, ns::POSIX, "nul\0inside")
        .data_resident(b"\x00\xFFbytes")
        .ads_resident("\u{1F512}zone", b"[x]")
        .data_non_resident(1 << 40, (1 << 40) + 4096);
    let image = MftBuilder::new().add(&rec).finish();
    let r = decode_one(image, 7).unwrap().unwrap();
    assert_eq!((r.entry, r.sequence, r.hard_link_count), (7, 3, 2));
    assert_eq!(r.lsn, 0x0102_0304_0506_0708);
    assert!(r.in_use && r.is_dir);
    assert!(r.diagnostics.is_empty());

    let macb = quad(
        1_000_000_000_000_001,
        1_000_000_000_000_002,
        1_000_000_000_000_004,
        1_000_000_000_000_003,
    );
    let si = r.standard_info.unwrap();
    assert_eq!(si.macb, macb);
    assert_eq!(si.dos_attributes, 0x305F_FFF7);
    assert_eq!(si.usn, 0xAABB);

    assert_eq!(r.file_names.len(), 2);
    let f = &r.file_names[0];
    assert_eq!(f.name, "na\u{ef}ve \u{1F600}.txt");
    assert_eq!(f.namespace, Namespace::Win32AndDos);
    assert_eq!(f.parent_entry, 0x1234_5678_9ABC);
    assert_eq!(f.parent_seq, 0xDEF0);
    assert_eq!(f.macb, macb);
    assert_eq!((f.logical_size, f.physical_size), (11, 22));
    assert_eq!(r.file_names[1].name, "nul\0inside");
    assert_eq!(r.file_names[1].namespace, Namespace::Posix);

    // The later unnamed stream is the primary one.
    let p = r.data.primary.unwrap();
    assert!(!p.resident && p.data.is_none());
    assert_eq!((p.logical_size, p.physical_size), (1 << 40, (1 << 40) + 4096));
    assert_eq!(r.data.ads.len(), 1);
    assert_eq!(r.data.ads[0].name.as_deref(), Some("\u{1F512}zone"));
    assert_eq!(r.data.ads[0].data.as_deref(), Some(&b"[x]"[..]));

    let ids: Vec<u16> = r.attributes.iter().map(|a| a.attribute_id).collect();
    assert_eq!(ids, vec![0, 1, 2, 3, 4, 5]);
    let codes: Vec<u32> = r.attributes.iter().map(|a| a.type_id).collect();
    assert_eq!(codes, vec![0x10, 0x30, 0x30, 0x80, 0x80, 0x80]);
    let sizes: Vec<u64> = r.attributes.iter().map(|a| a.logical_size).collect();
    assert_eq!(sizes[0], 72);
    assert_eq!(sizes[3..], [7, 3, 1 << 40]);
    assert!(r.attributes.iter().all(|a| a.flags == 0));
}

#[test]
fn data_flags_and_runs_read_back() {
    let rec = RecordBuilder::new(0, 1).data_non_resident(10, 20);
    let mut bytes = rec.build();
    let first = u16::from_le_bytes([bytes[0x14], bytes[0x15]]) as usize;
    // Every data flag set; the unknown ones are dropped.
    bytes[first + 12] = 0xFF;
    bytes[first + 13] = 0xFF;
    // A run of 16 clusters at cluster 32, then the end marker.
    bytes[first + 64..first + 68].copy_from_slice(&[0x11, 16, 32, 0]);
    let r = decode_one(bytes, 0).unwrap().unwrap();
    assert!(r.diagnostics.is_empty());
    assert_eq!(r.attributes[0].flags, 0xC0FF);
    assert_eq!(r.data.logical_size(), 10);
}

#[test]
fn unset_and_unholdable_times() {
    let unset = Times {
        created: 0,
        modified: 9,
        mft_modified: 10_000_000,
        accessed: 20_000_000,
    };
    let image = RecordBuilder::new(0, 1).standard_info(unset, 0, 0).build();
    let r = decode_one(image, 0).unwrap().unwrap();
    let si = r.standard_info.unwrap();
    assert_eq!(si.macb.created, None);
    assert_eq!(si.macb.modified, None);
    assert_eq!(si.macb.mft_modified, Some(-11_644_473_599_000_000));
    assert_eq!(si.macb.accessed, Some(-11_644_473_598_000_000));

    let far = Times {
        created: u64::MAX,
        ..unset
    };
    let image = RecordBuilder::new(0, 1)
        .standard_info(far, 0, 0)
        .data_resident(b"x")
        .build();
    let r = decode_one(image, 0).unwrap().unwrap();
    assert!(r.standard_info.is_none());
    assert!(r.attributes.is_empty());
    assert_eq!(
        r.diagnostics,
        vec![format!(
            "decode-error:Windows FILETIME value {} is out of range for jiff::Timestamp",
            u64::MAX
        )]
    );
}

#[test]
fn a_later_record_replaces_an_earlier_one() {
    let image = MftBuilder::new()
        .add(&RecordBuilder::new(2, 1).data_resident(b"old"))
        .add(&RecordBuilder::new(2, 9).data_resident(b"new"))
        .finish();
    assert_eq!(image.len(), 3 * 1024);
    let r = decode_one(image.clone(), 2).unwrap().unwrap();
    assert_eq!(r.sequence, 9);
    assert_eq!(r.data.resident_bytes(), Some(&b"new"[..]));
    assert!(decode_one(image, 0).unwrap().is_none());
}

#[test]
fn a_smaller_cap_cuts_inline_data_and_nothing_else() {
    let record = RecordBuilder::new(0, 1)
        .standard_info(times(), 0x20, 1)
        .data_resident(b"0123456789")
        .ads_resident("short", b"abc")
        .build();
    let entry = match parse_record(record, 0) {
        ParseOutcome::Parsed(e) => e,
        other => panic!("a record is due, got {other:?}"),
    };
    let full = decode_entry(&entry, usize::MAX);
    assert_eq!(full.data.resident_bytes(), Some(&b"0123456789"[..]));
    let mut cut = decode_entry(&entry, 4);
    assert_eq!(cut.data.resident_bytes(), Some(&b"0123"[..]));
    assert_eq!(cut.data.ads[0].data.as_deref(), Some(&b"abc"[..]));
    assert_eq!(cut.data.logical_size(), 10);
    cut.data = full.data.clone();
    assert_eq!(cut, full);
}

#[test]
fn a_nonresident_stream_has_sizes_only() {
    let record = RecordBuilder::new(0, 1)
        .data_non_resident(4096, 8192)
        .build();
    let r = decode_one(record, 0).unwrap().unwrap();
    let p = r.data.primary.unwrap();
    assert_eq!((p.resident, p.logical_size, p.physical_size), (false, 4096, 8192));
    assert_eq!(p.data, None);
}
