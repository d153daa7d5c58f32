//! Batches of rows: input cells, scalar results, fanned-out rows and nested lists.

use mft_timeline::columns::{
    blob_val, find_blob_col, find_entry_col, in_micros_range, quad_in_range, read_quad, ts_micros,
    u64_val, BlobCell, Column, ColumnKind, IntegerCell, TimeCell, TimeField, TimeUnit,
};
use mft_timeline::data::{attribute_type_name, attribute_types, attribute_types_sql};
use mft_timeline::fan_out::{attributes_rows, streams_rows};
use mft_timeline::record_table::build_mft_record_array;
use mft_timeline::scalars::{
    full_path_rows, mft_record_rows, record_header_rows, timestomp_rows, version_rows,
    well_formed_rows, QuadArgs, RecordArgs,
};
use mft_timeline::synth::{ns, MftBuilder, RecordBuilder, Times};
use mft_timeline::Macb;

const T: i64 = 1_600_000_000;

fn image() -> Vec<u8> {
    let t = Times::uniform_secs(T);
    MftBuilder::new()
        .add(
            &RecordBuilder::new(0, 1)
                .standard_info(t, 0x20, 1)
                .file_name(5, 5, t, 0, 0, 0x20, ns::WIN32, "$MFT"),
        )
        .add(
            &RecordBuilder::new(1, 4)
                .hard_links(2)
                .lsn(9)
                .standard_info(t, 0x20, 7)
                .file_name(5, 5, t, 5, 8, 0x20, ns::WIN32, "long name.txt")
                .file_name(5, 5, t, 5, 8, 0x20, ns::DOS, "LONGNA~1.TXT")
                .data_resident(b"hello")
                .ads_resident("hidden", b"secret"),
        )
        .add(&RecordBuilder::new(3, 1).data_non_resident(4096, 8192))
        .finish()
}

fn column(name: &str, kind: ColumnKind) -> Column {
    Column {
        name: name.to_string(),
        kind,
    }
}

#[test]
fn columns_are_found_by_name_then_by_kind() {
    let cols = vec![
        column("raw", ColumnKind::Binary),
        column("n", ColumnKind::Integer),
        column("BLOB", ColumnKind::Other),
        column("Entry", ColumnKind::Other),
    ];
    assert_eq!(find_blob_col(&cols), Ok(2));
    assert_eq!(find_entry_col(&cols), Ok(3));
    assert_eq!(find_blob_col(&cols[..2]), Ok(0));
    assert_eq!(find_entry_col(&cols[..2]), Ok(1));
    let none = [column("text", ColumnKind::Other)];
    assert_eq!(
        find_blob_col(&none).unwrap_err().message,
        "input relation must carry a `blob` BLOB column of $MFT bytes"
    );
    assert_eq!(
        find_entry_col(&none).unwrap_err().message,
        "input relation must carry an `entry` UBIGINT column"
    );
}

#[test]
fn cells_are_read_by_type() {
    assert_eq!(blob_val(BlobCell::Null), Ok(None));
    assert_eq!(blob_val(BlobCell::Bytes(b"ab")), Ok(Some(&b"ab"[..])));
    assert_eq!(
        blob_val(BlobCell::Other("Utf8".to_string())).unwrap_err().message,
        "expected a BLOB (binary) argument, got Utf8"
    );
    assert_eq!(u64_val(IntegerCell::Null), Ok(None));
    assert_eq!(u64_val(IntegerCell::Unsigned(u64::MAX)), Ok(Some(u64::MAX)));
    assert_eq!(u64_val(IntegerCell::Signed(-1)), Ok(Some(0)));
    assert_eq!(u64_val(IntegerCell::Signed(7)), Ok(Some(7)));
    assert_eq!(
        u64_val(IntegerCell::Other("Utf8".to_string())).unwrap_err().message,
        "expected an integer (UBIGINT) argument, got Utf8"
    );
}

#[test]
fn timestamps_are_scaled_to_micros() {
    assert_eq!(ts_micros(TimeUnit::Second, 3), 3_000_000);
    assert_eq!(ts_micros(TimeUnit::Millisecond, -3), -3_000);
    assert_eq!(ts_micros(TimeUnit::Microsecond, 3), 3);
    assert_eq!(ts_micros(TimeUnit::Nanosecond, 1_999), 1);
    assert_eq!(ts_micros(TimeUnit::Nanosecond, -1_999), -1);
    assert_eq!(ts_micros(TimeUnit::Nanosecond, i64::MIN), i64::MIN / 1_000);
    assert!(in_micros_range(TimeUnit::Second, i64::MAX / 1_000_000));
    assert!(!in_micros_range(TimeUnit::Second, i64::MAX / 1_000_000 + 1));
    assert!(!in_micros_range(TimeUnit::Millisecond, i64::MIN / 1_000 - 1));
    assert!(in_micros_range(TimeUnit::Nanosecond, i64::MIN));
}

#[test]
fn quads_are_read_by_field_name() {
    let field = |name: &str, cell: Option<(TimeUnit, i64)>| TimeField {
        name: name.to_string(),
        cell: cell.map(|(unit, value)| TimeCell { unit, value }),
    };
    let fields = [
        field("mft_modified", Some((TimeUnit::Second, 4))),
        field("created", Some((TimeUnit::Microsecond, 1))),
        field("created", Some((TimeUnit::Microsecond, 9))),
        field("other", Some((TimeUnit::Second, i64::MAX))),
        field("modified", None),
    ];
    assert!(quad_in_range(&fields));
    assert_eq!(
        read_quad(&fields),
        Macb {
            created: Some(1),
            modified: None,
            accessed: None,
            mft_modified: Some(4_000_000),
        }
    );
    assert_eq!(read_quad(&[]), Macb::default());
    assert!(!quad_in_range(&[field(
        "accessed",
        Some((TimeUnit::Second, i64::MAX))
    )]));
}

#[test]
fn scalar_rows_follow_their_arguments() {
    let img = image();
    let args = |entry: Option<u64>| RecordArgs {
        blob: Some(&img),
        entry,
    };
    let rows = [
        args(Some(1)),
        args(None),
        RecordArgs {
            blob: None,
            entry: Some(1),
        },
        args(Some(2)),
        args(Some(99)),
    ];

    let records = mft_record_rows(&rows);
    assert_eq!(records[0].as_ref().unwrap().entry, 1);
    assert!(records[1..].iter().all(|r| r.is_none()));

    let headers = record_header_rows(&rows);
    assert_eq!(headers.validity, vec![true, false, false, false, false]);
    assert_eq!(headers.signature[0].as_deref(), Some("FILE"));
    assert_eq!(headers.sequence[0], Some(4));
    assert_eq!(headers.lsn[0], Some(9));
    assert_eq!(headers.in_use, vec![Some(true), None, None, None, None]);
    assert_eq!(headers.allocated_size[0], Some(1024));

    let verdicts = well_formed_rows(&rows);
    assert_eq!(verdicts.validity, vec![true, false, false, true, true]);
    assert_eq!(verdicts.ok, vec![Some(true), None, None, Some(false), Some(false)]);
    assert_eq!(
        verdicts.kind,
        vec![
            Some("ok"),
            None,
            None,
            Some("not-an-mft"),
            Some("truncated")
        ]
    );
    assert_eq!(verdicts.error[0], None);

    let paths = full_path_rows(&rows);
    assert_eq!(paths[0].as_deref(), Some("long name.txt"));
    assert!(paths[1..].iter().all(|p| p.is_none()));
}

#[test]
fn paths_follow_a_change_of_blob() {
    let t = Times::uniform_secs(T);
    let one = |name: &str| {
        MftBuilder::new()
            .add(
                &RecordBuilder::new(0, 1)
                    .standard_info(t, 0x20, 1)
                    .file_name(5, 5, t, 0, 0, 0x20, ns::WIN32, name),
            )
            .finish()
    };
    let (a, b) = (one("a"), one("bb"));
    let (a, b) = (&a[..], [&b[..], &[0u8; 1024][..]].concat());
    let rows: Vec<RecordArgs> = [a, a, &b, a]
        .iter()
        .map(|blob| RecordArgs {
            blob: Some(blob),
            entry: Some(0),
        })
        .collect();
    let paths: Vec<Option<String>> = full_path_rows(&rows);
    let texts: Vec<&str> = paths.iter().map(|p| p.as_deref().unwrap()).collect();
    assert_eq!(texts, vec!["a", "a", "bb", "a"]);
    // A short blob has a root all the same.
    let short = full_path_rows(&[RecordArgs {
        blob: Some(b"x"),
        entry: Some(5),
    }]);
    assert_eq!(short[0].as_deref(), Some("."));
}

#[test]
fn similar_blobs_keep_their_own_paths() {
    // Two images of one length that differ in one name only, outside of the first, the
    // middle and the last bytes.
    let t = Times::uniform_secs(T);
    let one = |name: &str| {
        let mut b = MftBuilder::new().add(
            &RecordBuilder::new(1, 1)
                .standard_info(t, 0x20, 1)
                .file_name(5, 5, t, 0, 0, 0x20, ns::WIN32, name),
        );
        b = b.add(&RecordBuilder::new(7, 1));
        b.finish()
    };
    let (a, b) = (one("first"), one("other"));
    assert_eq!(a.len(), b.len());
    let mid = a.len() / 2;
    assert_eq!(a[..64], b[..64]);
    assert_eq!(a[mid..mid + 64], b[mid..mid + 64]);
    assert_eq!(a[a.len() - 64..], b[b.len() - 64..]);
    assert_ne!(a, b);
    let row = |blob| RecordArgs {
        blob: Some(blob),
        entry: Some(1),
    };
    let paths = full_path_rows(&[row(&a), row(&b), row(&b), row(&a)]);
    let texts: Vec<&str> = paths.iter().map(|p| p.as_deref().unwrap()).collect();
    assert_eq!(texts, vec!["first", "other", "other", "first"]);
}

#[test]
fn stomp_rows_list_their_reasons() {
    let quad = |v: i64| Macb {
        created: Some(v),
        modified: Some(v),
        accessed: Some(v),
        mft_modified: Some(v),
    };
    let cols = timestomp_rows(&[
        QuadArgs {
            si: Macb::default(),
            fna: Macb::default(),
        },
        QuadArgs {
            si: quad(1_000_000),
            fna: quad(2_000_000),
        },
        QuadArgs {
            si: Macb {
                created: Some(3),
                ..quad(5)
            },
            fna: quad(3),
        },
    ]);
    assert_eq!(cols.suspect, vec![false, true, false]);
    assert_eq!(cols.offsets, vec![0, 0, 5, 5]);
    assert_eq!(
        cols.reasons,
        vec![
            "si-creation-before-fn-creation",
            "si-before-fn",
            "zero-subsecond",
            "fn-newer-than-si",
            "all-four-equal"
        ]
    );
}

#[test]
fn version_has_a_row_at_least() {
    assert_eq!(version_rows(0), vec!["0.1.0"]);
    assert_eq!(version_rows(3), vec!["0.1.0"; 3]);
}

#[test]
fn attributes_fan_out() {
    let img = image();
    let row = |entry: u64| RecordArgs {
        blob: Some(&img),
        entry: Some(entry),
    };
    let c = attributes_rows(&[row(1), row(2), row(3)]);
    assert_eq!(c.entry, vec![1, 1, 1, 1, 1, 3]);
    assert_eq!(c.type_id, vec![0x10, 0x30, 0x30, 0x80, 0x80, 0x80]);
    assert_eq!(c.type_label[0], "$STANDARD_INFORMATION");
    assert_eq!(c.type_label[1], "$FILE_NAME");
    assert_eq!(c.type_label[5], "$DATA");
    assert_eq!(c.resident, vec![true, true, true, true, true, false]);
    assert_eq!(c.name[4].as_deref(), Some("hidden"));
    assert!(c.name[..4].iter().all(|n| n.is_none()));
    assert_eq!(c.logical_size[3], 5);
    assert_eq!(c.logical_size[4], 6);
    assert_eq!((c.logical_size[5], c.physical_size[5]), (4096, 8192));
    assert_eq!(c.flags, vec![0; 6]);
    assert_eq!(c.attribute_id.len(), 6);
}

#[test]
fn streams_fan_out() {
    let img = image();
    let row = |entry: u64| RecordArgs {
        blob: Some(&img),
        entry: Some(entry),
    };
    let c = streams_rows(&[row(3), row(0), row(1)]);
    assert_eq!(c.entry, vec![3, 1, 1]);
    assert_eq!(c.name, vec![None, None, Some("hidden".to_string())]);
    assert_eq!(c.logical_size, vec![4096, 5, 6]);
    assert_eq!(c.physical_size[0], 8192);
    assert_eq!(c.resident, vec![false, true, true]);
    assert_eq!(c.data[0], None);
    assert_eq!(c.data[1].as_deref(), Some(&b"hello"[..]));
    assert_eq!(c.data[2].as_deref(), Some(&b"secret"[..]));
}

#[test]
fn nested_lists_are_flat_with_offsets() {
    let img = image();
    let row = |entry: u64| RecordArgs {
        blob: Some(&img),
        entry: Some(entry),
    };
    let records = mft_record_rows(&[row(1), row(2), row(3), row(0)]);
    let c = build_mft_record_array(&records);
    assert_eq!(c.validity, vec![true, false, true, true]);
    assert_eq!(c.entry, vec![1, 0, 3, 0]);
    assert_eq!(c.sequence, vec![4, 0, 1, 1]);
    assert_eq!(c.hard_links[0], 2);
    assert_eq!(c.lsn[0], 9);
    assert_eq!(c.names.offsets, vec![0, 2, 2, 2, 3]);
    assert_eq!(c.names.name, vec!["long name.txt", "LONGNA~1.TXT", "$MFT"]);
    assert_eq!(c.names.namespace, vec!["Win32", "DOS", "Win32"]);
    assert_eq!(c.names.parent_entry, vec![5, 5, 5]);
    assert_eq!(c.names.created[0], Some(T * 1_000_000));
    assert_eq!(c.ads.offsets, vec![0, 1, 1, 1, 1]);
    assert_eq!(c.ads.name[0].as_deref(), Some("hidden"));
    assert_eq!(c.attributes.offsets, vec![0, 5, 5, 6, 8]);
    assert_eq!(c.attributes.type_id[5], 0x80);
    assert_eq!(c.si.validity, vec![true, false, false, true]);
    assert_eq!(c.si.usn, vec![Some(7), None, None, Some(1)]);
    assert_eq!(c.data.validity, vec![true, false, true, false]);
    assert_eq!(c.data.resident_bytes[0].as_deref(), Some(&b"hello"[..]));
    assert_eq!(c.data.resident_bytes[2], None);
    assert_eq!(c.data.logical_size[2], Some(4096));
    assert_eq!(build_mft_record_array(&[]).names.offsets, vec![0]);
}

#[test]
fn the_registry_lists_every_attribute_type() {
    let types = attribute_types();
    let codes: Vec<u32> = types.iter().map(|t| t.0).collect();
    assert_eq!(
        codes,
        vec![16, 32, 48, 64, 80, 96, 112, 128, 144, 160, 176, 192, 208, 224, 256]
    );
    assert_eq!(types[7].1, "$DATA");
    assert_eq!(
        types[7].2,
        "File content: the unnamed primary stream plus any named alternate data streams (ADS)."
    );
    assert_eq!(types[14].1, "$LOGGED_UTILITY_STREAM");
    assert!(types.iter().all(|t| t.1 == attribute_type_name(t.0)));
    assert_eq!(attribute_type_name(0xF0), "$UNKNOWN");
}

#[test]
fn the_registry_is_an_sql_query() {
    let sql = attribute_types_sql();
    let lines: Vec<&str> = sql.split('\n').collect();
    assert_eq!(lines.len(), 17);
    assert_eq!(lines[0], "SELECT * FROM (VALUES");
    assert!(lines[1].starts_with("  (16::UINTEGER, '$STANDARD_INFORMATION', 'Standard"));
    assert_eq!(
        lines[2],
        "  (32, '$ATTRIBUTE_LIST', 'A pointer list to attributes held in other FILE records, \
         used when a single record overflows.'),"
    );
    assert!(lines[15].ends_with("and other utilities.')"));
    assert_eq!(lines[16], ") AS t(type_id, type_name, purpose)");
}

#[test]
fn unparsed_attributes_are_listed_by_their_headers() {
    // The resident $DATA at 0x38 under another type code.
    for (code, label) in [(0x60u8, "$VOLUME_NAME"), (0x40, "$OBJECT_ID")] {
        let mut record = RecordBuilder::new(0, 1)
            .data_resident(b"sixteen bytes ok")
            .build();
        assert_eq!(record[0x38], 0x80);
        record[0x38] = code;
        let r = mft_timeline::decode_one(record, 0).unwrap().unwrap();
        assert_eq!(r.diagnostics, Vec::<String>::new());
        assert_eq!(r.attributes.len(), 1);
        let a = &r.attributes[0];
        assert_eq!((a.type_id, a.type_label.as_str()), (code as u32, label));
        assert_eq!((a.resident, a.logical_size, a.physical_size), (true, 16, 16));
        assert_eq!(a.name, None);
        assert_eq!(r.data.primary, None);
    }
}
