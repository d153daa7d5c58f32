//! What a record that was built shows once it is decoded, field by field: the laws that tie
//! what a builder is asked for to what a reader of the image sees.

use vstd::prelude::*;

use crate::data::DataStreamModel;
use crate::decoder::{header_at, record_at};
use crate::entry::{entry_of, file_signature, EntryModel};
use crate::file_name::law_file_name_is_kept;
use crate::parse::all_zero;
use crate::read_back::{
    all_fit, finished, law_built_record_decodes, law_image_decodes, law_image_slots_read_back,
    lemma_slot_record, made_of, part_items, parts_fit, times_read, Part,
};
use crate::record::{
    attr_info_of, decoded, header_of, law_attribute_name_is_kept, law_each_attribute_adds_its_part,
    law_header_shows_the_entry, law_listed_attribute_shows_its_header,
    law_nonresident_data_is_sized, law_record_shows_the_header, law_record_without_attributes,
    law_resident_data_is_carved, record_of, stream_of, HeaderModel, RecordModel,
};
use crate::standard_info::{law_standard_info_is_kept, law_times_keep_their_names, Macb};
use crate::synth::{
    fits, image_of, law_file_record_reads_back, lemma_built_record_parses, record_bytes,
    record_for, BuilderModel, Times,
};

verus! {

/// What a built record decodes to.
pub open spec fn read(b: BuilderModel, n: u64, cap: usize) -> RecordModel {
    decoded(entry_of(record_bytes(b), n)->Ok_0, cap)
}

/// The header that is reported of a built record.
pub open spec fn probed(b: BuilderModel, n: u64) -> HeaderModel {
    header_of(entry_of(record_bytes(b), n)->Ok_0)
}

/// A `FILETIME` as it is reported: microseconds since 1970, and unset where it is zero.
pub open spec fn shown_time(filetime: u64) -> Option<i64> {
    let micros = filetime as int / 10 - 11_644_473_600_000_000;
    if filetime < 10 {
        None
    } else {
        Some(micros as i64)
    }
}

/// Whether a quad shows the four times, each under its own name.
pub open spec fn shows_times(q: Macb, t: Times) -> bool {
    &&& q.created == shown_time(t.created)
    &&& q.modified == shown_time(t.modified)
    &&& q.accessed == shown_time(t.accessed)
    &&& q.mft_modified == shown_time(t.mft_modified)
}

/// Whether a record of `parts` can be built and read.
pub open spec fn readable(b: BuilderModel, parts: Seq<Part>) -> bool {
    &&& fits(b)
    &&& b.signature == seq![0x46u8, 0x49, 0x4C, 0x45]
    &&& made_of(b, parts)
    &&& parts_fit(parts)
}

/// The builder with one more attribute.
pub open spec fn with_part(b: BuilderModel, p: Part) -> BuilderModel {
    b.with_attr(p.bytes(b.next_instance))
}

/// The header that is reported of a built record has the fields it was built with: the
/// sequence, the flags, the base reference, the LSN, the used size (56 bytes in front of
/// the attributes, their bytes, and four behind them) and the allocated size of 1024.
pub proof fn law_built_header_is_reported(b: BuilderModel, n: u64)
    requires
        fits(b),
        b.signature == seq![0x46u8, 0x49, 0x4C, 0x45],
    ensures
        ({
            let h = probed(b, n);
            &&& h.sequence == b.sequence
            &&& h.in_use <==> b.flags % 2 == 1
            &&& h.is_dir <==> b.flags / 2 % 2 == 1
            &&& h.base_ref == b.base_ref % 0x1_0000_0000_0000
            &&& h.lsn == b.lsn
            &&& h.used_size == 0x38 + b.attrs.len() + 4
            &&& h.allocated_size == 1024
            &&& h.signature == seq!['F', 'I', 'L', 'E']
        }),
{
    assert(file_signature() =~= seq![0x46u8, 0x49, 0x4C, 0x45]);
    law_file_record_reads_back(b, n);
    let e = entry_of(record_bytes(b), n)->Ok_0;
    law_header_shows_the_entry(e);
    let flags = b.flags;
    assert((flags & 0x0F) & 1 == 1 <==> flags % 2 == 1) by (bit_vector);
    assert((flags & 0x0F) & 2 == 2 <==> flags / 2 % 2 == 1) by (bit_vector);
    assert(probed(b, n).signature =~= seq!['F', 'I', 'L', 'E']);
}

/// The decoded record has the same header fields, the link count, its number and the
/// verdict on its fixup.
pub proof fn law_built_record_has_its_header(b: BuilderModel, parts: Seq<Part>, n: u64, cap: usize)
    requires
        readable(b, parts),
    ensures
        ({
            let r = read(b, n, cap);
            &&& r.entry == n
            &&& r.sequence == b.sequence
            &&& r.hard_link_count == b.hard_link_count
            &&& r.in_use <==> b.flags % 2 == 1
            &&& r.is_dir <==> b.flags / 2 % 2 == 1
            &&& r.base_ref == b.base_ref % 0x1_0000_0000_0000
            &&& r.lsn == b.lsn
            &&& r.used_size == 0x38 + b.attrs.len() + 4
            &&& r.allocated_size == 1024
            &&& r.signature == seq!['F', 'I', 'L', 'E']
            &&& r.fixup_ok == Some(!b.break_fixup)
        }),
{
    assert(file_signature() =~= seq![0x46u8, 0x49, 0x4C, 0x45]);
    law_built_header_is_reported(b, n);
    law_file_record_reads_back(b, n);
    let e = entry_of(record_bytes(b), n)->Ok_0;
    law_record_shows_the_header(e, cap);
    law_header_shows_the_entry(e);
}

/// A record that was built without attributes shows none.
pub proof fn law_bare_record_is_empty(b: BuilderModel, n: u64, cap: usize)
    requires
        readable(b, Seq::empty()),
    ensures
        ({
            let r = read(b, n, cap);
            &&& r.standard_info is None
            &&& r.file_names.len() == 0
            &&& r.attributes.len() == 0
            &&& r.data.primary is None
            &&& r.data.ads.len() == 0
        }),
{
    assert(file_signature() =~= seq![0x46u8, 0x49, 0x4C, 0x45]);
    law_built_record_decodes(b, Seq::empty(), n, cap);
    assert(part_items(Seq::empty()) =~= Seq::empty());
    law_record_without_attributes(entry_of(record_bytes(b), n)->Ok_0, None, cap);
}

/// The attribute-derived parts of a record do not depend on its header.
proof fn lemma_header_apart(e: EntryModel, f: EntryModel, parts: Seq<Part>, cap: usize)
    ensures
        ({
            let r = record_of(e, part_items(parts), None, cap);
            let s = record_of(f, part_items(parts), None, cap);
            &&& r.standard_info == s.standard_info
            &&& r.file_names == s.file_names
            &&& r.attributes == s.attributes
            &&& r.data == s.data
        }),
{
}

/// What one more attribute does to a built record is what it does to its items.
proof fn lemma_one_more(b: BuilderModel, parts: Seq<Part>, p: Part, n: u64, cap: usize)
    requires
        readable(b, parts),
        readable(with_part(b, p), parts.push(p)),
    ensures
        ({
            let before = read(b, n, cap);
            let after = read(with_part(b, p), n, cap);
            let a = p.item(parts.len() as u16);
            let e = entry_of(record_bytes(b), n)->Ok_0;
            let items = part_items(parts);
            let x = record_of(e, items, None, cap);
            let y = record_of(e, items.push(a), None, cap);
            &&& before.standard_info == x.standard_info && after.standard_info == y.standard_info
            &&& before.file_names == x.file_names && after.file_names == y.file_names
            &&& before.attributes == x.attributes && after.attributes == y.attributes
            &&& before.data == x.data && after.data == y.data
        }),
{
    assert(file_signature() =~= seq![0x46u8, 0x49, 0x4C, 0x45]);
    let c = with_part(b, p);
    law_built_record_decodes(b, parts, n, cap);
    law_built_record_decodes(c, parts.push(p), n, cap);
    let e = entry_of(record_bytes(b), n)->Ok_0;
    let f = entry_of(record_bytes(c), n)->Ok_0;
    assert(part_items(parts.push(p)) =~= part_items(parts).push(p.item(parts.len() as u16)));
    lemma_header_apart(e, f, parts.push(p), cap);
}

/// Every attribute is listed behind those that are there, under its own number and type:
/// resident ones with their content's size, others with the sizes that they claim, and an
/// alternate stream with its name.
pub proof fn law_each_part_is_listed(b: BuilderModel, parts: Seq<Part>, p: Part, n: u64, cap: usize)
    requires
        readable(b, parts),
        readable(with_part(b, p), parts.push(p)),
        parts.len() < u16::MAX,
    ensures
        ({
            let before = read(b, n, cap).attributes;
            let after = read(with_part(b, p), n, cap).attributes;
            let a = after.last();
            &&& after.len() == before.len() + 1
            &&& after.drop_last() == before
            &&& a.attribute_id == parts.len()
            &&& a.flags == 0
            &&& match p {
                Part::Info { .. } => a.type_id == 0x10 && a.type_label == "$STANDARD_INFORMATION"@
                    && a.resident && a.name is None && a.logical_size == 72 && a.physical_size
                    == 72,
                Part::Name(f) => a.type_id == 0x30 && a.type_label == "$FILE_NAME"@ && a.resident
                    && a.name is None,
                Part::Data(content) => a.type_id == 0x80 && a.type_label == "$DATA"@ && a.resident
                    && a.name is None && a.logical_size == content.len() && a.physical_size
                    == content.len(),
                Part::Sized { logical, physical } => a.type_id == 0x80 && a.type_label == "$DATA"@
                    && !a.resident && a.name is None && a.logical_size == logical
                    && a.physical_size == physical,
                Part::Ads { name, content } => a.type_id == 0x80 && a.type_label == "$DATA"@
                    && a.resident && (name.len() > 0 ==> a.name == Some(name)) && a.logical_size
                    == content.len() && a.physical_size == content.len(),
            }
        }),
{
    lemma_one_more(b, parts, p, n, cap);
    lemma_part_size(b, parts, p);
    let a = p.item(parts.len() as u16);
    let e = entry_of(record_bytes(b), n)->Ok_0;
    law_each_attribute_adds_its_part(e, part_items(parts), a, None, cap);
    law_listed_attribute_shows_its_header(a.head, p.code());
    law_attribute_name_is_kept(a, cap);
    let before = read(b, n, cap).attributes;
    assert(read(with_part(b, p), n, cap).attributes == before.push(attr_info_of(a.head)));
    assert(before.push(attr_info_of(a.head)).drop_last() =~= before);
}

/// The content of an attribute is smaller than the record.
proof fn lemma_part_size(b: BuilderModel, parts: Seq<Part>, p: Part)
    requires
        fits(with_part(b, p)),
    ensures
        match p {
            Part::Data(content) => content.len() <= 1024,
            Part::Ads { content, .. } => content.len() <= 1024,
            _ => true,
        },
{
    match p {
        Part::Data(content) => {
            crate::read_back::lemma_resident_size(0x80, b.next_instance, None, content);
        },
        Part::Ads { name, content } => {
            crate::read_back::lemma_resident_size(0x80, b.next_instance, Some(name), content);
        },
        _ => {},
    }
}

/// Content that is put into a record comes back out of it: an unnamed resident `$DATA`
/// becomes the primary stream, an alternate one comes behind the others under its name,
/// and the inline data is the content itself, byte for byte, where the cap allows for it,
/// and its first bytes otherwise. A non-resident one has its sizes and no data. The other
/// attributes leave the streams as they are.
pub proof fn law_built_content_is_carved(
    b: BuilderModel,
    parts: Seq<Part>,
    p: Part,
    n: u64,
    cap: usize,
)
    requires
        readable(b, parts),
        readable(with_part(b, p), parts.push(p)),
        p matches Part::Ads { name, .. } ==> name.len() > 0,
    ensures
        ({
            let before = read(b, n, cap).data;
            let after = read(with_part(b, p), n, cap).data;
            let carved = |s: DataStreamModel, content: Seq<u8>|
                {
                    &&& s.resident
                    &&& s.logical_size == content.len()
                    &&& s.physical_size == content.len()
                    &&& s.data is None <==> content.len() == 0
                    &&& 0 < content.len() <= cap ==> s.data == Some(content)
                    &&& content.len() > cap ==> s.data == Some(content.take(cap as int))
                };
            match p {
                Part::Data(content) => {
                    &&& after.primary matches Some(s) && s.name is None && carved(s, content)
                    &&& after.ads == before.ads
                },
                Part::Sized { logical, physical } => {
                    &&& after.primary matches Some(s) && s.name is None && !s.resident
                        && s.logical_size == logical && s.physical_size == physical && s.data
                        is None
                    &&& after.ads == before.ads
                },
                Part::Ads { name, content } => {
                    &&& after.primary == before.primary
                    &&& after.ads.len() == before.ads.len() + 1
                    &&& after.ads.drop_last() == before.ads
                    &&& after.ads.last().name == Some(name)
                    &&& carved(after.ads.last(), content)
                },
                _ => after == before,
            }
        }),
{
    lemma_one_more(b, parts, p, n, cap);
    lemma_part_size(b, parts, p);
    let a = p.item(parts.len() as u16);
    let e = entry_of(record_bytes(b), n)->Ok_0;
    law_each_attribute_adds_its_part(e, part_items(parts), a, None, cap);
    law_attribute_name_is_kept(a, cap);
    let before = read(b, n, cap).data;
    let after = read(with_part(b, p), n, cap).data;
    match p {
        Part::Data(content) => {
            law_resident_data_is_carved(a, content, content.len() as u32, cap);
            if content.len() > cap {
                assert(stream_of(a, cap).data->0 =~= content.take(cap as int));
            }
        },
        Part::Sized { logical, physical } => {
            law_nonresident_data_is_sized(a, logical, physical, cap);
        },
        Part::Ads { name, content } => {
            law_resident_data_is_carved(a, content, content.len() as u32, cap);
            if content.len() > cap {
                assert(stream_of(a, cap).data->0 =~= content.take(cap as int));
            }
            assert(before.ads.push(stream_of(a, cap)).drop_last() =~= before.ads);
        },
        _ => {
            assert(after =~= before);
        },
    }
}

/// The four times of an attribute are reported, each under its own name.
proof fn lemma_times_shown(t: Times)
    requires
        crate::read_back::times_fit(t),
    ensures
        shows_times(crate::standard_info::macb_of(times_read(t)), t),
{
    law_times_keep_their_names(times_read(t));
}

/// A `$STANDARD_INFORMATION` that is put into a record is the one it shows: its four
/// times, the known DOS attributes, and its USN. No other attribute changes it.
pub proof fn law_built_info_is_shown(b: BuilderModel, parts: Seq<Part>, p: Part, n: u64, cap: usize)
    requires
        readable(b, parts),
        readable(with_part(b, p), parts.push(p)),
    ensures
        ({
            let before = read(b, n, cap).standard_info;
            let after = read(with_part(b, p), n, cap).standard_info;
            match p {
                Part::Info { times, dos_flags, usn } => after matches Some(si) && shows_times(
                    si.macb,
                    times,
                ) && si.dos_attributes == dos_flags & 0x305F_FFF7 && si.usn == usn,
                _ => after == before,
            }
        }),
{
    lemma_one_more(b, parts, p, n, cap);
    let a = p.item(parts.len() as u16);
    let e = entry_of(record_bytes(b), n)->Ok_0;
    law_each_attribute_adds_its_part(e, part_items(parts), a, None, cap);
    assert(parts.push(p).last().fits());
    if let Part::Info { times, dos_flags, usn } = p {
        lemma_times_shown(times);
        law_standard_info_is_kept(a.content->StandardInfo_0);
    }
}

/// A `$FILE_NAME` that is put into a record comes behind the names that are there, with
/// its name, its namespace, its parent link, its four times and its sizes. No other
/// attribute changes the names.
pub proof fn law_built_name_is_shown(b: BuilderModel, parts: Seq<Part>, p: Part, n: u64, cap: usize)
    requires
        readable(b, parts),
        readable(with_part(b, p), parts.push(p)),
    ensures
        ({
            let before = read(b, n, cap).file_names;
            let after = read(with_part(b, p), n, cap).file_names;
            match p {
                Part::Name(f) => {
                    let got = after.last();
                    &&& after.len() == before.len() + 1
                    &&& after.drop_last() == before
                    &&& got.name == f.name
                    &&& got.parent_entry == f.parent_entry % 0x1_0000_0000_0000
                    &&& got.parent_seq == f.parent_seq
                    &&& got.logical_size == f.logical
                    &&& got.physical_size == f.physical
                    &&& shows_times(got.macb, f.times)
                    &&& got.namespace is Posix <==> f.namespace == 0
                    &&& got.namespace is Win32 <==> f.namespace == 1
                    &&& got.namespace is Dos <==> f.namespace == 2
                    &&& got.namespace is Win32AndDos <==> f.namespace == 3
                },
                _ => after == before,
            }
        }),
{
    lemma_one_more(b, parts, p, n, cap);
    let a = p.item(parts.len() as u16);
    let e = entry_of(record_bytes(b), n)->Ok_0;
    law_each_attribute_adds_its_part(e, part_items(parts), a, None, cap);
    assert(parts.push(p).last().fits());
    if let Part::Name(f) = p {
        lemma_times_shown(f.times);
        law_file_name_is_kept(f.read());
        let before = read(b, n, cap).file_names;
        let name = crate::file_name::file_name_of(f.read());
        assert(before.push(name).drop_last() =~= before);
    }
}

/// What is read from slot `n` of a finished image is the record that was added under that
/// number last: its decoded form, and the header that is reported of it.
pub proof fn law_image_shows_its_records(
    builders: Seq<BuilderModel>,
    slots: nat,
    i: int,
    parts: Seq<Part>,
    cap: usize,
)
    requires
        all_fit(builders),
        0 <= i < builders.len(),
        forall|j: int| i < j < builders.len() ==> (#[trigger] builders[j]).entry != builders[i].entry,
        builders[i].entry < slots,
        readable(builders[i], parts),
    ensures
        ({
            let n = builders[i].entry;
            let image = image_of(finished(builders), slots);
            &&& record_at(image, n, cap) == Some(read(builders[i], n, cap))
            &&& header_at(image, n) == Some(probed(builders[i], n))
        }),
{
    let n = builders[i].entry;
    assert(file_signature() =~= seq![0x46u8, 0x49, 0x4C, 0x45]);
    law_image_decodes(builders, slots, i, parts, cap);
    law_image_slots_read_back(builders, slots, n);
    law_built_record_decodes(builders[i], parts, n, cap);
    lemma_built_record_parses(builders[i], n);
    let j = lemma_slot_record(builders, n as int);
    assert(j == i) by {
        if j < i {
            assert(builders[i].entry == n);
        } else if j > i {
            assert(builders[j].entry == n);
        }
    }
}

/// A slot that no record was added under is empty.
pub proof fn law_image_gaps_are_empty(builders: Seq<BuilderModel>, slots: nat, n: u64, cap: usize)
    requires
        all_fit(builders),
        n < slots,
        forall|j: int| 0 <= j < builders.len() ==> (#[trigger] builders[j]).entry != n,
    ensures
        record_at(image_of(finished(builders), slots), n, cap) is None,
        header_at(image_of(finished(builders), slots), n) is None,
{
    law_image_slots_read_back(builders, slots, n);
    let j = lemma_slot_record(builders, n as int);
    assert(j == -1);
    assert(all_zero(record_for(finished(builders), n as int)));
}

} // verus!
