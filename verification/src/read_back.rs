//! What the record builder writes, the decoder reads back.

use vstd::prelude::*;

use crate::attribute::{
    attribute_fits, attribute_item, attribute_length, chain_fits, content_at, file_name_at,
    has_hazard, head_at, headers_parse, info_at, info_parses, instant_of, item_or,
    namespace_numbered, nth_offset, safe_prefix, times_at, utf16_text, AttrContentModel,
    AttrHeadModel, AttrSizes, ParsedAttrModel, END_OF_ATTRIBUTES, MAX_ATTRS,
};
use crate::bytes::{u16_at, u32_at, u64_at};
use crate::decoder::{record_at, slot, stride_of, verdict_of};
use crate::entry::{baad_signature, entry_of, file_signature, signature_of, EntryModel};
use crate::errors::{clean, failed, WellFormedKind};
use crate::file_name::FileNameAttrModel;
use crate::hazard::{
    content_start, file_name_parses, filetime_in_range, hazardous, header_parses, known_type,
    utf16_ok,
};
use crate::parse::{outcome_of, OutcomeModel};
use crate::record::{
    decodable, decoded, entry_items, has_attribute_list, item_count, ok_items, ok_len, record_of,
};
use crate::standard_info::{AttrTimes, StandardInfoAttr};
use crate::synth::{
    char_utf16le, file_name_bytes, fits, header_bytes, image_of, law_file_record_reads_back,
    le2, le4, le8, lemma_built_record_parses, lemma_header_fields, lemma_read_le2, lemma_read_le4,
    lemma_read_le8, lemma_signatures_differ, non_resident_attr_bytes, opt_utf16le, plain_bytes,
    record_bytes, record_for, reference, resident_attr_body, resident_attr_bytes, rounded8,
    standard_info_bytes, terminator, times_bytes, utf16le_bytes, BuilderModel, Times,
};

verus! {

/// Whether `bytes` stand at `off` in `data`.
pub open spec fn placed(data: Seq<u8>, off: int, bytes: Seq<u8>) -> bool {
    &&& 0 <= off
    &&& off + bytes.len() <= data.len()
    &&& data.subrange(off, off + bytes.len()) == bytes
}

/// What stands inside something that is placed is placed too.
proof fn lemma_placed_part(data: Seq<u8>, off: int, bytes: Seq<u8>, i: int, part: Seq<u8>)
    requires
        placed(data, off, bytes),
        0 <= i,
        i + part.len() <= bytes.len(),
        bytes.subrange(i, i + part.len()) == part,
    ensures
        placed(data, off + i, part),
{
    let n = part.len() as int;
    assert(data.subrange(off + i, off + i + n) =~= data.subrange(
        off,
        off + bytes.len(),
    ).subrange(i, i + n));
}

/// The bytes of a text begin with those of its first character.
proof fn lemma_utf16_front(s: Seq<char>)
    requires
        s.len() > 0,
    ensures
        utf16le_bytes(s) == char_utf16le(s[0]) + utf16le_bytes(s.skip(1)),
    decreases s.len(),
{
    if s.len() == 1 {
        assert(s.drop_last() =~= Seq::empty());
        assert(s.skip(1) =~= Seq::empty());
        assert(utf16le_bytes(s) =~= char_utf16le(s[0]) + utf16le_bytes(s.skip(1)));
    } else {
        lemma_utf16_front(s.drop_last());
        assert(s.drop_last().skip(1) =~= s.skip(1).drop_last());
        assert(utf16le_bytes(s) =~= char_utf16le(s[0]) + utf16le_bytes(s.skip(1)));
    }
}

/// The bytes of a text come in pairs.
proof fn lemma_utf16_even(s: Seq<char>)
    ensures
        utf16le_bytes(s).len() % 2 == 0,
    decreases s.len(),
{
    if s.len() > 0 {
        lemma_utf16_even(s.drop_last());
    }
}

/// A character is no surrogate.
proof fn lemma_char(c: char)
    ensures
        (c as u32) < 0xD800 || 0xDFFF < (c as u32) <= 0x10_FFFF,
        (c as u32) as char == c,
        (c as u32) < 0x1_0000 ==> ((c as u32) as u16) as char == c,
{
}

/// A text without NUL reads back from its bytes; with NULs, where they do not stop
/// the reading.
proof fn lemma_utf16_reads(data: Seq<u8>, pos: int, s: Seq<char>, stop: bool)
    requires
        placed(data, pos, utf16le_bytes(s)),
        stop ==> !s.contains('\0'),
    ensures
        utf16_ok(data, pos, utf16le_bytes(s).len() / 2, stop),
        utf16_text(data, pos, utf16le_bytes(s).len() / 2, stop) == s,
    decreases s.len(),
{
    let units = utf16le_bytes(s).len() / 2;
    lemma_utf16_even(s);
    if s.len() == 0 {
        assert(utf16_text(data, pos, units, stop) =~= s);
    } else {
        let c = s[0];
        let rest = s.skip(1);
        let all = utf16le_bytes(s);
        let front = char_utf16le(c);
        lemma_utf16_front(s);
        lemma_utf16_even(rest);
        assert(s.contains(c));
        assert forall|x: char| rest.contains(x) implies s.contains(x) by {
            let i = rest.index_of(x);
            assert(s[i + 1] == x);
        }
        assert(all.subrange(front.len() as int, all.len() as int) =~= utf16le_bytes(rest));
        lemma_placed_part(data, pos, all, front.len() as int, utf16le_bytes(rest));
        lemma_utf16_reads(data, pos + front.len(), rest, stop);
        let v = c as u32;
        lemma_char(c);
        if v < 0x1_0000 {
            assert(all.subrange(0, 2) =~= le2(v as u16));
            lemma_placed_part(data, pos, all, 0, le2(v as u16));
            lemma_read_le2(data, pos, v as u16);
            assert(u16_at(data, pos) == v);
            assert(v < 0xD800 || v > 0xDFFF);
            assert(v != 0 || !stop);
            assert(units - 1 == utf16le_bytes(rest).len() / 2);
            assert((v as u16) as char == c);
        } else {
            let hi = (0xD800 + (v - 0x1_0000) / 0x400) as u16;
            let lo = (0xDC00 + (v - 0x1_0000) % 0x400) as u16;
            assert(v <= 0x10_FFFF);
            assert(all.subrange(0, 2) =~= le2(hi));
            assert(all.subrange(2, 4) =~= le2(lo));
            lemma_placed_part(data, pos, all, 0, le2(hi));
            lemma_placed_part(data, pos, all, 2, le2(lo));
            lemma_read_le2(data, pos, hi);
            lemma_read_le2(data, pos + 2, lo);
            assert(0xD800 <= hi < 0xDC00);
            assert(0xDC00 <= lo <= 0xDFFF);
            assert(units - 2 == utf16le_bytes(rest).len() / 2);
            assert(0x1_0000 + (hi - 0xD800) * 0x400 + (lo - 0xDC00) == v);
        }
        assert(seq![c] + rest =~= s);
    }
}

/// The text of an optional name; empty where there is none.
pub open spec fn name_text(name: Option<Seq<char>>) -> Seq<char> {
    match name {
        Some(n) => n,
        None => Seq::empty(),
    }
}

/// Whether an attribute can carry a name: at most 255 units, none of them NUL.
pub open spec fn name_fits(name: Option<Seq<char>>) -> bool {
    match name {
        Some(n) => utf16le_bytes(n).len() <= 510 && !n.contains('\0'),
        None => true,
    }
}

/// Where the fields of a resident attribute stand.
proof fn lemma_resident_layout(
    type_id: u32,
    instance: u16,
    name: Option<Seq<char>>,
    content: Seq<u8>,
)
    requires
        name_fits(name),
        content.len() <= 0x1000,
    ensures
        ({
            let bytes = resident_attr_bytes(type_id, instance, name, content);
            let nb = opt_utf16le(name).len() as int;
            let cl = content.len() as int;
            &&& bytes.len() == rounded8(24 + nb + cl)
            &&& 24 + nb + cl <= bytes.len() < 24 + nb + cl + 8
            &&& bytes.subrange(0, 4) == le4(type_id)
            &&& bytes.subrange(4, 8) == le4(bytes.len() as u32)
            &&& bytes[8] == 0
            &&& bytes[9] == nb / 2
            &&& bytes.subrange(10, 12) == le2(
                if nb > 0 {
                    24
                } else {
                    0
                },
            )
            &&& bytes.subrange(12, 14) == le2(0)
            &&& bytes.subrange(14, 16) == le2(instance)
            &&& bytes.subrange(16, 20) == le4(cl as u32)
            &&& bytes.subrange(20, 22) == le2((24 + nb) as u16)
            &&& bytes.subrange(24, 24 + nb) == opt_utf16le(name)
            &&& bytes.subrange(24 + nb, 24 + nb + cl) == content
            &&& nb % 2 == 0
            &&& 0 <= nb <= 510
        }),
{
    reveal(resident_attr_bytes);
    let bytes = resident_attr_bytes(type_id, instance, name, content);
    let nb = opt_utf16le(name).len() as int;
    let cl = content.len() as int;
    if let Some(n) = name {
        lemma_utf16_even(n);
    }
    let body = resident_attr_body(type_id, instance, name, content);
    assert(body.len() == 24 + nb + cl);
    assert forall|i: int| 0 <= i < body.len() implies bytes[i] == body[i] by {}
    assert(bytes.subrange(0, 4) =~= le4(type_id));
    assert(bytes.subrange(4, 8) =~= le4(bytes.len() as u32));
    assert(bytes.subrange(10, 12) =~= le2(
        if nb > 0 {
            24
        } else {
            0
        },
    ));
    assert(bytes.subrange(12, 14) =~= le2(0));
    assert(bytes.subrange(14, 16) =~= le2(instance));
    assert(bytes.subrange(16, 20) =~= le4(cl as u32));
    assert(bytes.subrange(20, 22) =~= le2((24 + nb) as u16));
    assert(bytes.subrange(24, 24 + nb) =~= opt_utf16le(name));
    assert(bytes.subrange(24 + nb, 24 + nb + cl) =~= content);
}

/// Where the fields stand that bound a resident attribute, whatever its name is.
proof fn lemma_resident_frame(
    type_id: u32,
    instance: u16,
    name: Option<Seq<char>>,
    content: Seq<u8>,
)
    requires
        resident_attr_bytes(type_id, instance, name, content).len() <= 0x1000,
    ensures
        ({
            let bytes = resident_attr_bytes(type_id, instance, name, content);
            let nb = opt_utf16le(name).len() as int;
            let cl = content.len() as int;
            &&& 24 + nb + cl <= bytes.len()
            &&& bytes.subrange(0, 4) == le4(type_id)
            &&& bytes.subrange(4, 8) == le4(bytes.len() as u32)
            &&& bytes[8] == 0
            &&& bytes.subrange(16, 20) == le4(cl as u32)
            &&& bytes.subrange(20, 22) == le2((24 + nb) as u16)
        }),
{
    reveal(resident_attr_bytes);
    let bytes = resident_attr_bytes(type_id, instance, name, content);
    let nb = opt_utf16le(name).len() as int;
    let cl = content.len() as int;
    let body = resident_attr_body(type_id, instance, name, content);
    assert(body.len() == 24 + nb + cl);
    assert forall|i: int| 0 <= i < body.len() implies bytes[i] == body[i] by {}
    assert(bytes.subrange(0, 4) =~= le4(type_id));
    assert(bytes.subrange(4, 8) =~= le4(bytes.len() as u32));
    assert(bytes.subrange(16, 20) =~= le4(cl as u32));
    assert(bytes.subrange(20, 22) =~= le2((24 + nb) as u16));
}

/// A resident attribute lies within its bounds, whatever its name is.
proof fn lemma_resident_bounds(
    data: Seq<u8>,
    off: int,
    type_id: u32,
    instance: u16,
    name: Option<Seq<char>>,
    content: Seq<u8>,
)
    requires
        placed(data, off, resident_attr_bytes(type_id, instance, name, content)),
        data.len() <= 0x1000,
    ensures
        u32_at(data, off) == type_id,
        attribute_length(data, off) == resident_attr_bytes(type_id, instance, name, content).len(),
        attribute_fits(data, off),
        resident_attr_bytes(type_id, instance, name, content).len() >= 24,
{
    let bytes = resident_attr_bytes(type_id, instance, name, content);
    let nb = opt_utf16le(name).len() as int;
    let cl = content.len() as int;
    lemma_resident_frame(type_id, instance, name, content);
    lemma_placed_part(data, off, bytes, 0, le4(type_id));
    lemma_read_le4(data, off, type_id);
    lemma_placed_part(data, off, bytes, 4, le4(bytes.len() as u32));
    lemma_read_le4(data, off + 4, bytes.len() as u32);
    assert(data[off + 8] == data.subrange(off, off + bytes.len())[8]);
    lemma_placed_part(data, off, bytes, 16, le4(cl as u32));
    lemma_read_le4(data, off + 16, cl as u32);
    lemma_placed_part(data, off, bytes, 20, le2((24 + nb) as u16));
    lemma_read_le2(data, off + 20, (24 + nb) as u16);
}

/// The header of a resident attribute reads back, and its content is where the parser
/// looks for it.
proof fn lemma_resident_reads(
    data: Seq<u8>,
    off: int,
    type_id: u32,
    instance: u16,
    name: Option<Seq<char>>,
    content: Seq<u8>,
)
    requires
        placed(data, off, resident_attr_bytes(type_id, instance, name, content)),
        name_fits(name),
        content.len() <= 0x1000,
        known_type(type_id),
    ensures
        attribute_length(data, off) == resident_attr_bytes(type_id, instance, name, content).len(),
        u32_at(data, off) == type_id,
        data[off + 8] == 0,
        u32_at(data, off + 16) == content.len(),
        attribute_fits(data, off),
        header_parses(data, off),
        placed(data, content_start(data, off), content),
        head_at(data, off) == (AttrHeadModel {
            type_code: Some(type_id),
            instance,
            flags: 0,
            name: name_text(name),
            sizes: AttrSizes::Resident { data_size: content.len() as u32 },
        }),
{
    let bytes = resident_attr_bytes(type_id, instance, name, content);
    let nb = opt_utf16le(name).len() as int;
    let cl = content.len() as int;
    lemma_resident_layout(type_id, instance, name, content);
    let name_offset: u16 = if nb > 0 {
        24
    } else {
        0
    };
    lemma_placed_part(data, off, bytes, 0, le4(type_id));
    lemma_read_le4(data, off, type_id);
    lemma_placed_part(data, off, bytes, 4, le4(bytes.len() as u32));
    lemma_read_le4(data, off + 4, bytes.len() as u32);
    assert(data[off + 8] == data.subrange(off, off + bytes.len())[8]);
    assert(data[off + 9] == data.subrange(off, off + bytes.len())[9]);
    lemma_placed_part(data, off, bytes, 10, le2(name_offset));
    lemma_read_le2(data, off + 10, name_offset);
    lemma_placed_part(data, off, bytes, 12, le2(0));
    lemma_read_le2(data, off + 12, 0);
    lemma_placed_part(data, off, bytes, 14, le2(instance));
    lemma_read_le2(data, off + 14, instance);
    lemma_placed_part(data, off, bytes, 16, le4(cl as u32));
    lemma_read_le4(data, off + 16, cl as u32);
    lemma_placed_part(data, off, bytes, 20, le2((24 + nb) as u16));
    lemma_read_le2(data, off + 20, (24 + nb) as u16);
    lemma_placed_part(data, off, bytes, 24, opt_utf16le(name));
    lemma_placed_part(data, off, bytes, 24 + nb, content);
    match name {
        Some(n) => {
            lemma_utf16_reads(data, off + 24, n, true);
            if nb == 0 {
                if n.len() > 0 {
                    lemma_utf16_front(n);
                }
                assert(n =~= Seq::empty());
            }
        },
        None => {},
    }
    assert(0u16 & 0xC0FF == 0) by (bit_vector);
    assert(head_at(data, off).name =~= name_text(name));
}

/// Four times as the parser gives them.
pub open spec fn times_read(t: Times) -> AttrTimes {
    AttrTimes {
        created: instant_of(t.created),
        modified: instant_of(t.modified),
        accessed: instant_of(t.accessed),
        mft_modified: instant_of(t.mft_modified),
    }
}

/// Whether four times are instants that the parser can hold.
pub open spec fn times_fit(t: Times) -> bool {
    &&& filetime_in_range(t.created)
    &&& filetime_in_range(t.modified)
    &&& filetime_in_range(t.accessed)
    &&& filetime_in_range(t.mft_modified)
}

/// Four times read back from their bytes.
proof fn lemma_times_read(data: Seq<u8>, pos: int, t: Times)
    requires
        placed(data, pos, times_bytes(t)),
    ensures
        u64_at(data, pos) == t.created,
        u64_at(data, pos + 8) == t.modified,
        u64_at(data, pos + 16) == t.mft_modified,
        u64_at(data, pos + 24) == t.accessed,
        times_at(data, pos) == times_read(t),
{
    reveal(times_bytes);
    let bytes = times_bytes(t);
    assert(bytes.subrange(0, 8) =~= le8(t.created));
    assert(bytes.subrange(8, 16) =~= le8(t.modified));
    assert(bytes.subrange(16, 24) =~= le8(t.mft_modified));
    assert(bytes.subrange(24, 32) =~= le8(t.accessed));
    lemma_placed_part(data, pos, bytes, 0, le8(t.created));
    lemma_placed_part(data, pos, bytes, 8, le8(t.modified));
    lemma_placed_part(data, pos, bytes, 16, le8(t.mft_modified));
    lemma_placed_part(data, pos, bytes, 24, le8(t.accessed));
    lemma_read_le8(data, pos, t.created);
    lemma_read_le8(data, pos + 8, t.modified);
    lemma_read_le8(data, pos + 16, t.mft_modified);
    lemma_read_le8(data, pos + 24, t.accessed);
}

/// The lengths of the byte forms.
proof fn lemma_lengths(a: u16, b: u32, c: u64, t: Times)
    ensures
        le2(a).len() == 2,
        le4(b).len() == 4,
        le8(c).len() == 8,
        times_bytes(t).len() == 32,
{
    reveal(times_bytes);
}

/// Where the fields of a `$STANDARD_INFORMATION` content stand.
proof fn lemma_info_layout(t: Times, dos_flags: u32, usn: u64)
    ensures
        standard_info_bytes(t, dos_flags, usn).len() == 72,
        standard_info_bytes(t, dos_flags, usn).subrange(0, 32) == times_bytes(t),
        standard_info_bytes(t, dos_flags, usn).subrange(32, 36) == le4(dos_flags),
        standard_info_bytes(t, dos_flags, usn).subrange(64, 72) == le8(usn),
{
    reveal(standard_info_bytes);
    lemma_lengths(0, dos_flags, usn, t);
    lemma_lengths(0, 0, 0, t);
    lemma_four_parts(
        times_bytes(t),
        le4(dos_flags),
        le4(0) + le4(0) + le4(0) + le4(0) + le4(0) + le8(0),
        le8(usn),
    );
    let middle = le4(0) + le4(0) + le4(0) + le4(0) + le4(0) + le8(0);
    assert(standard_info_bytes(t, dos_flags, usn) =~= times_bytes(t) + le4(dos_flags) + middle
        + le8(usn));
}

/// The parts of a concatenation.
proof fn lemma_four_parts(a: Seq<u8>, b: Seq<u8>, c: Seq<u8>, d: Seq<u8>)
    ensures
        (a + b + c + d).len() == a.len() + b.len() + c.len() + d.len(),
        (a + b + c + d).subrange(0, a.len() as int) == a,
        (a + b + c + d).subrange(a.len() as int, (a.len() + b.len()) as int) == b,
        (a + b + c + d).subrange(
            (a.len() + b.len()) as int,
            (a.len() + b.len() + c.len()) as int,
        ) == c,
        (a + b + c + d).subrange(
            (a.len() + b.len() + c.len()) as int,
            (a.len() + b.len() + c.len() + d.len()) as int,
        ) == d,
{
    let s = a + b + c + d;
    assert(s.subrange(0, a.len() as int) =~= a);
    assert(s.subrange(a.len() as int, (a.len() + b.len()) as int) =~= b);
    assert(s.subrange((a.len() + b.len()) as int, (a.len() + b.len() + c.len()) as int) =~= c);
    assert(s.subrange(
        (a.len() + b.len() + c.len()) as int,
        (a.len() + b.len() + c.len() + d.len()) as int,
    ) =~= d);
}

/// A `$STANDARD_INFORMATION` content reads back.
proof fn lemma_info_reads(data: Seq<u8>, pos: int, t: Times, dos_flags: u32, usn: u64)
    requires
        placed(data, pos, standard_info_bytes(t, dos_flags, usn)),
        times_fit(t),
    ensures
        info_parses(data, pos),
        info_at(data, pos) == (StandardInfoAttr {
            times: times_read(t),
            file_flags: dos_flags & 0x305F_FFF7,
            usn,
        }),
{
    let bytes = standard_info_bytes(t, dos_flags, usn);
    lemma_info_layout(t, dos_flags, usn);
    lemma_lengths(0, dos_flags, usn, t);
    lemma_placed_part(data, pos, bytes, 0, times_bytes(t));
    lemma_placed_part(data, pos, bytes, 32, le4(dos_flags));
    lemma_placed_part(data, pos, bytes, 64, le8(usn));
    lemma_times_read(data, pos, t);
    lemma_read_le4(data, pos + 32, dos_flags);
    lemma_read_le8(data, pos + 64, usn);
}

/// What a `$FILE_NAME` is made of.
pub struct NamePart {
    pub parent_entry: u64,
    pub parent_seq: u16,
    pub times: Times,
    pub logical: u64,
    pub physical: u64,
    pub flags: u32,
    pub namespace: u8,
    pub name: Seq<char>,
}

impl NamePart {
    /// Its content bytes.
    pub open spec fn bytes(self) -> Seq<u8> {
        file_name_bytes(
            self.parent_entry,
            self.parent_seq,
            self.times,
            self.logical,
            self.physical,
            self.flags,
            self.namespace,
            self.name,
        )
    }

    /// Whether the parser can hold it: the times, a known namespace, at most 255 units.
    pub open spec fn fits(self) -> bool {
        &&& times_fit(self.times)
        &&& self.namespace <= 3
        &&& utf16le_bytes(self.name).len() <= 510
    }

    /// What is read back: of the parent's number the low six bytes.
    pub open spec fn read(self) -> FileNameAttrModel {
        FileNameAttrModel {
            name: self.name,
            namespace: namespace_numbered(self.namespace),
            parent_entry: self.parent_entry % 0x1_0000_0000_0000,
            parent_seq: self.parent_seq,
            times: times_read(self.times),
            logical_size: self.logical,
            physical_size: self.physical,
        }
    }
}

/// Where the fields of a `$FILE_NAME` content stand.
proof fn lemma_file_name_layout(f: NamePart)
    requires
        f.fits(),
    ensures
        laid_out(f.bytes(), f),
{
    reveal(file_name_bytes);
    let bytes = f.bytes();
    let name = utf16le_bytes(f.name);
    let parent = le8(reference(f.parent_entry, f.parent_seq) as u64);
    lemma_lengths(0, f.flags, reference(f.parent_entry, f.parent_seq) as u64, f.times);
    lemma_lengths(0, 0, f.logical, f.times);
    lemma_lengths(0, 0, f.physical, f.times);
    let times = times_bytes(f.times);
    let logical = le8(f.logical);
    let physical = le8(f.physical);
    let flags = le4(f.flags);
    let zero = le4(0);
    let tail = seq![(name.len() / 2) as u8, f.namespace];
    lemma_name_parts(parent, times, logical, physical, flags, zero, tail, name);
    assert(bytes == parent + times + logical + physical + flags + zero + tail + name);
    assert(bytes[64] == bytes.subrange(64, 66)[0]);
    assert(bytes[65] == bytes.subrange(64, 66)[1]);
}

/// The parts of a `$FILE_NAME` content.
proof fn lemma_name_parts(
    parent: Seq<u8>,
    times: Seq<u8>,
    logical: Seq<u8>,
    physical: Seq<u8>,
    flags: Seq<u8>,
    zero: Seq<u8>,
    tail: Seq<u8>,
    name: Seq<u8>,
)
    requires
        parent.len() == 8,
        times.len() == 32,
        logical.len() == 8,
        physical.len() == 8,
        flags.len() == 4,
        zero.len() == 4,
        tail.len() == 2,
    ensures
        ({
            let bytes = parent + times + logical + physical + flags + zero + tail + name;
            &&& bytes.len() == 66 + name.len()
            &&& bytes.subrange(0, 8) == parent
            &&& bytes.subrange(8, 40) == times
            &&& bytes.subrange(40, 48) == logical
            &&& bytes.subrange(48, 56) == physical
            &&& bytes.subrange(64, 66) == tail
            &&& bytes.subrange(66, 66 + name.len() as int) == name
        }),
{
    let bytes = parent + times + logical + physical + flags + zero + tail + name;
    assert(bytes.subrange(0, 8) =~= parent);
    assert(bytes.subrange(8, 40) =~= times);
    assert(bytes.subrange(40, 48) =~= logical);
    assert(bytes.subrange(48, 56) =~= physical);
    assert(bytes.subrange(64, 66) =~= tail);
    assert(bytes.subrange(66, 66 + name.len() as int) =~= name);
}

/// Whether bytes have the fields of a `$FILE_NAME` content in their places.
spec fn laid_out(bytes: Seq<u8>, f: NamePart) -> bool {
    let nb = utf16le_bytes(f.name).len() as int;
    &&& bytes.len() == 66 + nb
    &&& bytes.subrange(0, 8) == le8(reference(f.parent_entry, f.parent_seq) as u64)
    &&& bytes.subrange(8, 40) == times_bytes(f.times)
    &&& bytes.subrange(40, 48) == le8(f.logical)
    &&& bytes.subrange(48, 56) == le8(f.physical)
    &&& bytes[64] == nb / 2
    &&& bytes[65] == f.namespace
    &&& bytes.subrange(66, 66 + nb) == utf16le_bytes(f.name)
}

/// The fields of a `$FILE_NAME` content read back from their places.
proof fn lemma_file_name_fields(data: Seq<u8>, pos: int, bytes: Seq<u8>, f: NamePart)
    requires
        placed(data, pos, bytes),
        laid_out(bytes, f),
    ensures
        u64_at(data, pos) == reference(f.parent_entry, f.parent_seq) as u64,
        placed(data, pos + 8, times_bytes(f.times)),
        u64_at(data, pos + 40) == f.logical,
        u64_at(data, pos + 48) == f.physical,
        data[pos + 64] == utf16le_bytes(f.name).len() / 2,
        data[pos + 65] == f.namespace,
        placed(data, pos + 66, utf16le_bytes(f.name)),
        pos + 66 + utf16le_bytes(f.name).len() <= data.len(),
{
    let parent = reference(f.parent_entry, f.parent_seq) as u64;
    lemma_lengths(0, 0, parent, f.times);
    lemma_lengths(0, 0, f.logical, f.times);
    lemma_lengths(0, 0, f.physical, f.times);
    lemma_placed_part(data, pos, bytes, 0, le8(parent));
    lemma_placed_part(data, pos, bytes, 8, times_bytes(f.times));
    lemma_placed_part(data, pos, bytes, 40, le8(f.logical));
    lemma_placed_part(data, pos, bytes, 48, le8(f.physical));
    lemma_placed_part(data, pos, bytes, 66, utf16le_bytes(f.name));
    assert(data[pos + 64] == data.subrange(pos, pos + bytes.len())[64]);
    assert(data[pos + 65] == data.subrange(pos, pos + bytes.len())[65]);
    lemma_read_le8(data, pos, parent);
    lemma_read_le8(data, pos + 40, f.logical);
    lemma_read_le8(data, pos + 48, f.physical);
}

/// A `$FILE_NAME` content reads back.
proof fn lemma_file_name_reads(data: Seq<u8>, pos: int, bytes: Seq<u8>, f: NamePart)
    requires
        placed(data, pos, bytes),
        laid_out(bytes, f),
        f.fits(),
    ensures
        file_name_parses(data, pos),
        utf16_ok(data, pos + 66, data[pos + 64] as nat, false),
        file_name_at(data, pos) == f.read(),
{
    let units = utf16le_bytes(f.name).len() / 2;
    lemma_utf16_even(f.name);
    lemma_file_name_fields(data, pos, bytes, f);
    lemma_times_read(data, pos + 8, f.times);
    lemma_utf16_reads(data, pos + 66, f.name, false);
    lemma_reference(f.parent_entry, f.parent_seq);
    assert(data[pos + 64] as nat == units);
    assert(file_name_at(data, pos).name == f.name);
    assert(file_name_at(data, pos).times == f.read().times);
    assert(file_name_at(data, pos) == f.read());
    assert(file_name_parses(data, pos)) by {
        assert(2 * data[pos + 64] == utf16le_bytes(f.name).len());
    }
}

/// The two parts of a file reference.
proof fn lemma_reference(entry: u64, seq: u16)
    ensures
        (reference(entry, seq) as u64) % 0x1_0000_0000_0000 == entry % 0x1_0000_0000_0000,
        ((reference(entry, seq) as u64) / 0x1_0000_0000_0000) as u16 == seq,
{
    let r = reference(entry, seq);
    assert(0 <= r <= u64::MAX);
    assert(r % 0x1_0000_0000_0000 == entry % 0x1_0000_0000_0000);
    assert(r / 0x1_0000_0000_0000 == seq);
}

/// Where the fields of a non-resident attribute stand.
#[verifier::spinoff_prover]
#[verifier::rlimit(40)]
proof fn lemma_non_resident_layout(type_id: u32, instance: u16, logical: u64, physical: u64)
    ensures
        ({
            let bytes = non_resident_attr_bytes(type_id, instance, logical, physical);
            &&& bytes.len() == 72
            &&& bytes.subrange(0, 4) == le4(type_id)
            &&& bytes.subrange(4, 8) == le4(72)
            &&& bytes[8] == 1
            &&& bytes[9] == 0
            &&& bytes.subrange(12, 14) == le2(0)
            &&& bytes.subrange(14, 16) == le2(instance)
            &&& bytes.subrange(32, 34) == le2(64)
            &&& bytes.subrange(34, 36) == le2(0)
            &&& bytes.subrange(40, 48) == le8(physical)
            &&& bytes.subrange(48, 56) == le8(logical)
            &&& bytes[64] == 0
        }),
{
    reveal(non_resident_attr_bytes);
    let bytes = non_resident_attr_bytes(type_id, instance, logical, physical);
    assert(bytes.subrange(0, 4) =~= le4(type_id));
    assert(bytes.subrange(4, 8) =~= le4(72));
    assert(bytes.subrange(12, 14) =~= le2(0));
    assert(bytes.subrange(14, 16) =~= le2(instance));
    assert(bytes.subrange(32, 34) =~= le2(64));
    assert(bytes.subrange(34, 36) =~= le2(0));
    assert(bytes.subrange(40, 48) =~= le8(physical));
    assert(bytes.subrange(48, 56) =~= le8(logical));
}

/// The fields of a non-resident attribute read back from their places.
proof fn lemma_non_resident_fields(
    data: Seq<u8>,
    off: int,
    type_id: u32,
    instance: u16,
    logical: u64,
    physical: u64,
)
    requires
        placed(data, off, non_resident_attr_bytes(type_id, instance, logical, physical)),
    ensures
        off + 72 <= data.len(),
        u32_at(data, off) == type_id,
        u32_at(data, off + 4) == 72,
        data[off + 8] == 1,
        data[off + 9] == 0,
        u16_at(data, off + 12) == 0,
        u16_at(data, off + 14) == instance,
        u16_at(data, off + 32) == 64,
        u16_at(data, off + 34) == 0,
        u64_at(data, off + 40) == physical,
        u64_at(data, off + 48) == logical,
        data[off + 64] == 0,
{
    let bytes = non_resident_attr_bytes(type_id, instance, logical, physical);
    lemma_non_resident_layout(type_id, instance, logical, physical);
    lemma_placed_part(data, off, bytes, 0, le4(type_id));
    lemma_placed_part(data, off, bytes, 4, le4(72));
    lemma_placed_part(data, off, bytes, 12, le2(0));
    lemma_placed_part(data, off, bytes, 14, le2(instance));
    lemma_placed_part(data, off, bytes, 32, le2(64));
    lemma_placed_part(data, off, bytes, 34, le2(0));
    lemma_placed_part(data, off, bytes, 40, le8(physical));
    lemma_placed_part(data, off, bytes, 48, le8(logical));
    let whole = data.subrange(off, off + bytes.len());
    assert(data[off + 8] == whole[8]);
    assert(data[off + 9] == whole[9]);
    assert(data[off + 64] == whole[64]);
    lemma_read_le4(data, off, type_id);
    lemma_read_le4(data, off + 4, 72);
    lemma_read_le2(data, off + 12, 0);
    lemma_read_le2(data, off + 14, instance);
    lemma_read_le2(data, off + 32, 64);
    lemma_read_le2(data, off + 34, 0);
    lemma_read_le8(data, off + 40, physical);
    lemma_read_le8(data, off + 48, logical);
}

/// A non-resident attribute reads back.
proof fn lemma_non_resident_reads(
    data: Seq<u8>,
    off: int,
    type_id: u32,
    instance: u16,
    logical: u64,
    physical: u64,
)
    requires
        placed(data, off, non_resident_attr_bytes(type_id, instance, logical, physical)),
        known_type(type_id),
    ensures
        non_resident_attr_bytes(type_id, instance, logical, physical).len() == 72,
        attribute_length(data, off) == 72,
        u32_at(data, off) == type_id,
        data[off + 8] == 1,
        attribute_fits(data, off),
        header_parses(data, off),
        !hazardous(data, off),
        content_at(data, off) == Some(AttrContentModel::Other),
        head_at(data, off) == (AttrHeadModel {
            type_code: Some(type_id),
            instance,
            flags: 0,
            name: Seq::empty(),
            sizes: AttrSizes::NonResident { file_size: logical, allocated_length: physical },
        }),
{
    lemma_non_resident_layout(type_id, instance, logical, physical);
    lemma_non_resident_fields(data, off, type_id, instance, logical, physical);
    assert(0u16 & 0xC0FF == 0) by (bit_vector);
    assert(head_at(data, off).name =~= Seq::empty());
}

/// An attribute as the builder is asked for it.
pub enum Part {
    /// `$STANDARD_INFORMATION`.
    Info { times: Times, dos_flags: u32, usn: u64 },
    /// `$FILE_NAME`.
    Name(NamePart),
    /// Resident unnamed `$DATA`.
    Data(Seq<u8>),
    /// Non-resident unnamed `$DATA`.
    Sized { logical: u64, physical: u64 },
    /// Resident named `$DATA`.
    Ads { name: Seq<char>, content: Seq<u8> },
}

impl Part {
    /// The bytes of this attribute.
    pub open spec fn bytes(self, instance: u16) -> Seq<u8> {
        match self {
            Part::Info { times, dos_flags, usn } => resident_attr_bytes(
                0x10,
                instance,
                None,
                standard_info_bytes(times, dos_flags, usn),
            ),
            Part::Name(f) => resident_attr_bytes(0x30, instance, None, f.bytes()),
            Part::Data(content) => resident_attr_bytes(0x80, instance, None, content),
            Part::Sized { logical, physical } => non_resident_attr_bytes(
                0x80,
                instance,
                logical,
                physical,
            ),
            Part::Ads { name, content } => resident_attr_bytes(
                0x80,
                instance,
                Some(name),
                content,
            ),
        }
    }

    /// Whether the parser can hold this attribute: its times, its namespace and its
    /// names.
    pub open spec fn fits(self) -> bool {
        match self {
            Part::Info { times, .. } => times_fit(times),
            Part::Name(f) => f.fits(),
            Part::Data(_) => true,
            Part::Sized { .. } => true,
            Part::Ads { name, .. } => name_fits(Some(name)),
        }
    }

    /// The type code of this attribute.
    pub open spec fn code(self) -> u32 {
        match self {
            Part::Info { .. } => 0x10,
            Part::Name(_) => 0x30,
            _ => 0x80,
        }
    }

    /// The name of this attribute.
    pub open spec fn name(self) -> Seq<char> {
        match self {
            Part::Ads { name, .. } => name,
            _ => Seq::empty(),
        }
    }

    /// The sizes of this attribute.
    pub open spec fn sizes(self) -> AttrSizes {
        match self {
            Part::Info { .. } => AttrSizes::Resident { data_size: 72 },
            Part::Name(f) => AttrSizes::Resident { data_size: f.bytes().len() as u32 },
            Part::Data(content) => AttrSizes::Resident { data_size: content.len() as u32 },
            Part::Sized { logical, physical } => AttrSizes::NonResident {
                file_size: logical,
                allocated_length: physical,
            },
            Part::Ads { content, .. } => AttrSizes::Resident { data_size: content.len() as u32 },
        }
    }

    /// The content that is read back: of the file flags the known ones.
    pub open spec fn content(self) -> AttrContentModel {
        match self {
            Part::Info { times, dos_flags, usn } => AttrContentModel::StandardInfo(
                StandardInfoAttr {
                    times: times_read(times),
                    file_flags: dos_flags & 0x305F_FFF7,
                    usn,
                },
            ),
            Part::Name(f) => AttrContentModel::FileName(f.read()),
            Part::Data(content) => AttrContentModel::Data(content),
            Part::Sized { .. } => AttrContentModel::Other,
            Part::Ads { content, .. } => AttrContentModel::Data(content),
        }
    }

    /// What is read back of this attribute.
    pub open spec fn item(self, instance: u16) -> ParsedAttrModel {
        ParsedAttrModel {
            head: AttrHeadModel {
                type_code: Some(self.code()),
                instance,
                flags: 0,
                name: self.name(),
                sizes: self.sizes(),
            },
            content: self.content(),
        }
    }
}

/// Whether the attribute at `off` is `p` to the parser.
spec fn reads_as(data: Seq<u8>, off: int, p: Part, instance: u16) -> bool {
    &&& u32_at(data, off) == p.code()
    &&& attribute_length(data, off) == p.bytes(instance).len()
    &&& attribute_fits(data, off)
    &&& header_parses(data, off)
    &&& !hazardous(data, off)
    &&& head_at(data, off) == p.item(instance).head
    &&& content_at(data, off) == Some(p.item(instance).content)
}

/// A resident attribute takes at least its header and its content.
pub proof fn lemma_resident_size(
    type_id: u32,
    instance: u16,
    name: Option<Seq<char>>,
    content: Seq<u8>,
)
    ensures
        resident_attr_bytes(type_id, instance, name, content).len() >= 24 + content.len(),
{
    reveal(resident_attr_bytes);
    let body = resident_attr_body(type_id, instance, name, content);
    assert(body.len() == 24 + opt_utf16le(name).len() + content.len());
}

/// Each attribute reads back.
proof fn lemma_part_reads(data: Seq<u8>, off: int, p: Part, instance: u16)
    requires
        placed(data, off, p.bytes(instance)),
        p.fits(),
        data.len() <= 0x1000,
    ensures
        reads_as(data, off, p, instance),
        p.bytes(instance).len() >= 24,
{
    match p {
        Part::Info { times, dos_flags, usn } => {
            let content = standard_info_bytes(times, dos_flags, usn);
            lemma_info_layout(times, dos_flags, usn);
            lemma_resident_size(0x10, instance, None, content);
            lemma_resident_reads(data, off, 0x10, instance, None, content);
            lemma_info_reads(data, content_start(data, off), times, dos_flags, usn);
        },
        Part::Name(f) => {
            lemma_resident_size(0x30, instance, None, f.bytes());
            lemma_file_name_layout(f);
            lemma_resident_reads(data, off, 0x30, instance, None, f.bytes());
            lemma_file_name_reads(data, content_start(data, off), f.bytes(), f);
        },
        Part::Data(content) => {
            lemma_resident_size(0x80, instance, None, content);
            lemma_resident_reads(data, off, 0x80, instance, None, content);
        },
        Part::Sized { logical, physical } => {
            lemma_non_resident_reads(data, off, 0x80, instance, logical, physical);
        },
        Part::Ads { name, content } => {
            lemma_resident_size(0x80, instance, Some(name), content);
            lemma_resident_reads(data, off, 0x80, instance, Some(name), content);
        },
    }
}

/// The bytes of some attributes, numbered from zero.
pub open spec fn parts_bytes(parts: Seq<Part>) -> Seq<u8>
    decreases parts.len(),
{
    if parts.len() == 0 {
        Seq::empty()
    } else {
        parts_bytes(parts.drop_last()) + parts.last().bytes((parts.len() - 1) as u16)
    }
}

/// What is read back of some attributes.
pub open spec fn part_items(parts: Seq<Part>) -> Seq<ParsedAttrModel> {
    Seq::new(parts.len(), |i: int| parts[i].item(i as u16))
}

/// Whether the parser can hold every attribute.
pub open spec fn parts_fit(parts: Seq<Part>) -> bool {
    forall|i: int| 0 <= i < parts.len() ==> (#[trigger] parts[i]).fits()
}

/// Where attribute `j` begins.
spec fn offset_of(first: int, parts: Seq<Part>, j: int) -> int {
    first + parts_bytes(parts.take(j)).len()
}

/// The bytes of the first attributes come first.
proof fn lemma_parts_prefix(parts: Seq<Part>, k: int)
    requires
        0 <= k <= parts.len(),
    ensures
        parts_bytes(parts.take(k)).len() <= parts_bytes(parts).len(),
        parts_bytes(parts).take(parts_bytes(parts.take(k)).len() as int) == parts_bytes(
            parts.take(k),
        ),
    decreases parts.len(),
{
    if k == parts.len() {
        assert(parts.take(k) =~= parts);
        assert(parts_bytes(parts).take(parts_bytes(parts).len() as int) =~= parts_bytes(parts));
    } else {
        let shorter = parts.drop_last();
        assert(shorter.take(k) =~= parts.take(k));
        lemma_parts_prefix(shorter, k);
        let n = parts_bytes(parts.take(k)).len() as int;
        assert(parts_bytes(parts).take(n) =~= parts_bytes(shorter).take(n));
    }
}

/// Each attribute stands at its offset.
proof fn lemma_part_placed(data: Seq<u8>, first: int, parts: Seq<Part>, j: int)
    requires
        placed(data, first, parts_bytes(parts)),
        0 <= j < parts.len(),
    ensures
        placed(data, offset_of(first, parts, j), parts[j].bytes(j as u16)),
        offset_of(first, parts, j + 1) == offset_of(first, parts, j) + parts[j].bytes(
            j as u16,
        ).len(),
        first <= offset_of(first, parts, j),
{
    let upto = parts.take(j + 1);
    let part = parts[j].bytes(j as u16);
    assert(upto.drop_last() =~= parts.take(j));
    assert(upto.last() == parts[j]);
    lemma_parts_prefix(parts, j + 1);
    let all = parts_bytes(parts);
    let before = parts_bytes(parts.take(j)).len() as int;
    assert(all.subrange(before, before + part.len()) =~= all.take(
        parts_bytes(upto).len() as int,
    ).subrange(before, before + part.len()));
    assert(parts_bytes(upto).subrange(before, before + part.len()) =~= part);
    lemma_placed_part(data, first, all, before, part);
}

/// Whether `parts` stand in `data` from `first` on, and the terminator behind them.
spec fn parts_stand(data: Seq<u8>, first: int, parts: Seq<Part>) -> bool {
    &&& placed(data, first, parts_bytes(parts))
    &&& placed(data, first + parts_bytes(parts).len(), terminator())
    &&& data.len() <= 0x1000
}

/// Whether `parts`, each of which the parser can hold, stand in `data`.
spec fn holds_parts(data: Seq<u8>, first: int, parts: Seq<Part>) -> bool {
    parts_stand(data, first, parts) && parts_fit(parts)
}

/// Each attribute lies within its bounds.
proof fn lemma_nth_bounds(data: Seq<u8>, first: int, parts: Seq<Part>, j: int)
    requires
        parts_stand(data, first, parts),
        0 <= j < parts.len(),
    ensures
        ({
            let off = offset_of(first, parts, j);
            &&& first <= off
            &&& u32_at(data, off) == parts[j].code()
            &&& attribute_fits(data, off)
            &&& attribute_length(data, off) == parts[j].bytes(j as u16).len()
            &&& offset_of(first, parts, j + 1) == off + attribute_length(data, off)
        }),
        parts[j].bytes(j as u16).len() >= 24,
{
    let off = offset_of(first, parts, j);
    let instance = j as u16;
    lemma_part_placed(data, first, parts, j);
    match parts[j] {
        Part::Info { times, dos_flags, usn } => {
            let content = standard_info_bytes(times, dos_flags, usn);
            lemma_resident_bounds(data, off, 0x10, instance, None, content);
        },
        Part::Name(f) => {
            lemma_resident_bounds(data, off, 0x30, instance, None, f.bytes());
        },
        Part::Data(content) => {
            lemma_resident_bounds(data, off, 0x80, instance, None, content);
        },
        Part::Sized { logical, physical } => {
            lemma_non_resident_reads(data, off, 0x80, instance, logical, physical);
        },
        Part::Ads { name, content } => {
            lemma_resident_bounds(data, off, 0x80, instance, Some(name), content);
        },
    }
}

/// Each attribute is what it was to the parser.
proof fn lemma_nth_part(data: Seq<u8>, first: int, parts: Seq<Part>, j: int)
    requires
        holds_parts(data, first, parts),
        0 <= j < parts.len(),
    ensures
        reads_as(data, offset_of(first, parts, j), parts[j], j as u16),
        offset_of(first, parts, j + 1) == offset_of(first, parts, j) + attribute_length(
            data,
            offset_of(first, parts, j),
        ),
        parts[j].bytes(j as u16).len() >= 24,
        first <= offset_of(first, parts, j),
{
    lemma_part_placed(data, first, parts, j);
    lemma_part_reads(data, offset_of(first, parts, j), parts[j], j as u16);
}

/// The terminator is where the attributes end.
proof fn lemma_terminator(data: Seq<u8>, first: int, parts: Seq<Part>)
    requires
        parts_stand(data, first, parts),
    ensures
        u32_at(data, offset_of(first, parts, parts.len() as int)) == END_OF_ATTRIBUTES,
        offset_of(first, parts, parts.len() as int) + 4 <= data.len(),
{
    assert(parts.take(parts.len() as int) =~= parts);
    assert(terminator() =~= le4(END_OF_ATTRIBUTES));
    lemma_read_le4(data, first + parts_bytes(parts).len(), END_OF_ATTRIBUTES);
}

/// The chain of attributes passes the bounds check and holds no hazard.
proof fn lemma_chain_reads(data: Seq<u8>, first: int, parts: Seq<Part>, j: int, left: nat)
    requires
        holds_parts(data, first, parts),
        0 <= j <= parts.len(),
        left > parts.len() - j,
    ensures
        chain_fits(data, offset_of(first, parts, j), left),
        safe_prefix(data, offset_of(first, parts, j), left) == parts.len() - j,
        !has_hazard(data, offset_of(first, parts, j), left),
    decreases parts.len() - j,
{
    lemma_terminator(data, first, parts);
    if j < parts.len() {
        lemma_nth_part(data, first, parts, j);
        lemma_chain_reads(data, first, parts, j + 1, (left - 1) as nat);
        assert(parts[j].code() != END_OF_ATTRIBUTES);
        assert(offset_of(first, parts, j) + 4 <= data.len());
    }
}

/// The chain of attributes passes the bounds check.
proof fn lemma_chain_fits(data: Seq<u8>, first: int, parts: Seq<Part>, j: int, left: nat)
    requires
        parts_stand(data, first, parts),
        0 <= j <= parts.len(),
        left > parts.len() - j,
    ensures
        chain_fits(data, offset_of(first, parts, j), left),
    decreases parts.len() - j,
{
    lemma_terminator(data, first, parts);
    if j < parts.len() {
        lemma_nth_bounds(data, first, parts, j);
        lemma_chain_fits(data, first, parts, j + 1, (left - 1) as nat);
    }
}

/// Walking the chain from attribute `j` leads to attribute `k`, over readable headers.
proof fn lemma_walk(data: Seq<u8>, first: int, parts: Seq<Part>, j: int, k: int)
    requires
        holds_parts(data, first, parts),
        0 <= j <= k < parts.len(),
    ensures
        nth_offset(data, offset_of(first, parts, j), (k - j) as nat) == offset_of(first, parts, k),
        headers_parse(data, offset_of(first, parts, j), (k - j) as nat),
    decreases k - j,
{
    lemma_nth_part(data, first, parts, j);
    if j < k {
        lemma_walk(data, first, parts, j + 1, k);
    }
}

/// The parser yields each attribute as it was written.
proof fn lemma_items_read(data: Seq<u8>, first: u16, parts: Seq<Part>, k: int)
    requires
        holds_parts(data, first as int, parts),
        0 <= k < parts.len(),
    ensures
        attribute_item(data, first, k as nat) == Some(
            Ok::<ParsedAttrModel, Seq<char>>(parts[k].item(k as u16)),
        ),
{
    reveal(item_or);
    assert(parts.take(0) =~= Seq::empty());
    lemma_walk(data, first as int, parts, 0, k);
    lemma_nth_part(data, first as int, parts, k);
}

/// As many items as there are attributes.
proof fn lemma_item_count(data: Seq<u8>, first: u16, parts: Seq<Part>, k: nat)
    requires
        holds_parts(data, first as int, parts),
        k <= parts.len(),
    ensures
        item_count(data, first, k, parts.len()) == parts.len(),
    decreases parts.len() - k,
{
    if k < parts.len() {
        lemma_items_read(data, first, parts, k as int);
        lemma_item_count(data, first, parts, k + 1);
    }
}

/// A walk without a failure runs to its end.
proof fn lemma_ok_len(items: Seq<Result<ParsedAttrModel, Seq<char>>>)
    requires
        forall|i: int| 0 <= i < items.len() ==> (#[trigger] items[i]) is Ok,
    ensures
        ok_len(items) == items.len(),
    decreases items.len(),
{
    if items.len() > 0 {
        let rest = items.drop_first();
        assert forall|i: int| 0 <= i < rest.len() implies (#[trigger] rest[i]) is Ok by {
            assert(rest[i] == items[i + 1]);
        }
        lemma_ok_len(rest);
    }
}

/// Each attribute takes at least 24 bytes.
proof fn lemma_part_count(data: Seq<u8>, first: int, parts: Seq<Part>, j: int)
    requires
        parts_stand(data, first, parts),
        0 <= j <= parts.len(),
    ensures
        parts_bytes(parts.take(j)).len() >= 24 * j,
    decreases j,
{
    if j > 0 {
        lemma_part_count(data, first, parts, j - 1);
        lemma_nth_bounds(data, first, parts, j - 1);
    }
}

/// An entry that holds `parts` decodes to them.
proof fn lemma_entry_decodes(e: EntryModel, parts: Seq<Part>, cap: usize)
    requires
        holds_parts(e.data, e.first_attribute as int, parts),
    ensures
        decodable(e),
        decoded(e, cap) == record_of(e, part_items(parts), None, cap),
{
    let data = e.data;
    let first = e.first_attribute;
    assert(parts.take(0) =~= Seq::empty());
    assert(parts.take(parts.len() as int) =~= parts);
    lemma_part_count(data, first as int, parts, parts.len() as int);
    assert(24 * parts.len() <= 0x1000);
    lemma_chain_reads(data, first as int, parts, 0, MAX_ATTRS as nat);
    lemma_item_count(data, first, parts, 0);
    let items = entry_items(e);
    assert(items.len() == parts.len());
    assert forall|i: int| 0 <= i < items.len() implies #[trigger] items[i] == Ok::<
        ParsedAttrModel,
        Seq<char>,
    >(parts[i].item(i as u16)) by {
        lemma_items_read(data, first, parts, i);
    }
    lemma_ok_len(items);
    assert(ok_items(items) =~= part_items(parts));
}

/// Whether a record under construction was given `parts`, in this order.
pub open spec fn made_of(b: BuilderModel, parts: Seq<Part>) -> bool {
    &&& b.attrs == parts_bytes(parts)
    &&& b.next_instance == parts.len()
}

/// Each attribute that is asked for is added behind those that are there.
pub proof fn law_attributes_are_appended(b: BuilderModel, parts: Seq<Part>, p: Part)
    requires
        made_of(b, parts),
        b.next_instance < u16::MAX,
    ensures
        made_of(b.with_attr(p.bytes(b.next_instance)), parts.push(p)),
{
    assert(parts.push(p).drop_last() =~= parts);
}

/// The bytes in front of the attributes.
proof fn lemma_header_length(b: BuilderModel)
    requires
        b.signature.len() == 4,
    ensures
        header_bytes(b).len() == 56,
{
    reveal(header_bytes);
}

/// The attributes of a finished record are where its entry says.
proof fn lemma_entry_parts(b: BuilderModel, parts: Seq<Part>, n: u64)
    requires
        fits(b),
        b.signature == file_signature(),
        made_of(b, parts),
    ensures
        entry_of(record_bytes(b), n) is Ok,
        ({
            let e = entry_of(record_bytes(b), n)->Ok_0;
            parts_stand(e.data, e.first_attribute as int, parts)
        }),
{
    lemma_signatures_differ();
    lemma_header_length(b);
    law_file_record_reads_back(b, n);
    let e = entry_of(record_bytes(b), n)->Ok_0;
    let plain = plain_bytes(b);
    let len = b.attrs.len() as int;
    assert(plain.subrange(56, 56 + len) =~= b.attrs);
    assert(plain.subrange(56 + len, 60 + len) =~= terminator());
    assert(e.data.subrange(56, 56 + len) =~= plain.subrange(56, 56 + len));
    assert(e.data.subrange(56 + len, 60 + len) =~= plain.subrange(56 + len, 60 + len));
}

/// A finished record whose attributes were asked for one by one is judged as it was
/// made: clean, torn where its fixup was broken, and corrupt where it is marked `BAAD`.
pub proof fn law_built_record_verdict(b: BuilderModel, parts: Seq<Part>, n: u64)
    requires
        fits(b),
        b.signature == file_signature() || b.signature == baad_signature(),
        made_of(b, parts),
    ensures
        outcome_of(record_bytes(b), n) matches OutcomeModel::Parsed(e) && verdict_of(e) == (
        if b.signature == baad_signature() {
            failed(WellFormedKind::Baad, "record marked BAAD"@)
        } else if b.break_fixup {
            failed(WellFormedKind::FixupMismatch, "update-sequence fixup mismatch"@)
        } else {
            clean()
        }),
{
    lemma_built_record_parses(b, n);
    lemma_signatures_differ();
    let e = entry_of(record_bytes(b), n)->Ok_0;
    if b.signature == file_signature() {
        lemma_entry_parts(b, parts, n);
        let first = e.first_attribute as int;
        assert(parts.take(0) =~= Seq::empty());
        assert(parts.take(parts.len() as int) =~= parts);
        lemma_part_count(e.data, first, parts, parts.len() as int);
        assert(24 * parts.len() <= 0x1000);
        lemma_chain_fits(e.data, first, parts, 0, MAX_ATTRS as nat);
    }
}

/// What is written is read back: a finished `FILE` record decodes to the attributes it
/// was given, every one with its type, instance number, name, sizes and content, in
/// order and with nothing else. The only diagnostic is that of a broken fixup.
pub proof fn law_built_record_decodes(b: BuilderModel, parts: Seq<Part>, n: u64, cap: usize)
    requires
        fits(b),
        b.signature == file_signature(),
        made_of(b, parts),
        parts_fit(parts),
    ensures
        entry_of(record_bytes(b), n) is Ok,
        ({
            let e = entry_of(record_bytes(b), n)->Ok_0;
            let rec = decoded(e, cap);
            &&& decodable(e)
            &&& rec == record_of(e, part_items(parts), None, cap)
            &&& rec.entry == n
            &&& rec.diagnostics == if b.break_fixup {
                seq!["fixup-mismatch"@]
            } else {
                Seq::empty()
            }
        }),
{
    lemma_entry_parts(b, parts, n);
    law_file_record_reads_back(b, n);
    lemma_signatures_differ();
    let e = entry_of(record_bytes(b), n)->Ok_0;
    lemma_entry_decodes(e, parts, cap);
    let items = part_items(parts);
    assert(!has_attribute_list(items)) by {
        if has_attribute_list(items) {
            let i = choose|i: int|
                0 <= i < items.len() && (#[trigger] items[i]).head.type_code == Some(0x20u32);
            assert(items[i].head.type_code == Some(parts[i].code()));
        }
    }
    assert(decoded(e, cap).diagnostics =~= if b.break_fixup {
        seq!["fixup-mismatch"@]
    } else {
        Seq::empty()
    });
}

/// The records of some builders.
pub open spec fn finished(builders: Seq<BuilderModel>) -> Seq<(u64, Seq<u8>)> {
    builders.map_values(|b: BuilderModel| (b.entry, record_bytes(b)))
}

/// Whether every record can be finished.
pub open spec fn all_fit(builders: Seq<BuilderModel>) -> bool {
    forall|i: int|
        0 <= i < builders.len() ==> fits(#[trigger] builders[i]) && builders[i].signature.len()
            == 4
}

/// Every slot of an image is empty, or a record that was added under its number.
pub proof fn lemma_slot_record(builders: Seq<BuilderModel>, n: int) -> (i: int)
    requires
        all_fit(builders),
    ensures
        -1 <= i < builders.len(),
        i == -1 ==> record_for(finished(builders), n) == Seq::new(1024, |k: int| 0u8),
        i >= 0 ==> builders[i].entry == n && record_for(finished(builders), n) == record_bytes(
            builders[i],
        ),
        forall|j: int| i < j < builders.len() ==> (#[trigger] builders[j]).entry != n,
    decreases builders.len(),
{
    if builders.len() == 0 {
        -1
    } else {
        let before = builders.drop_last();
        assert(finished(builders).drop_last() =~= finished(before));
        assert(finished(builders).last() == (
            builders.last().entry,
            record_bytes(builders.last()),
        ));
        assert forall|i: int| 0 <= i < before.len() implies fits(#[trigger] before[i])
            && before[i].signature.len() == 4 by {
            assert(before[i] == builders[i]);
        }
        if builders.last().entry == n {
            builders.len() - 1
        } else {
            let i = lemma_slot_record(before, n);
            assert forall|j: int| i < j < builders.len() implies (#[trigger] builders[j]).entry
                != n by {
                if j < before.len() {
                    assert(before[j] == builders[j]);
                }
            }
            i
        }
    }
}

/// Slot `n` of a finished image is the last record added under that number, or zeros
/// where there is none; the image is read with the stride it was built with.
pub proof fn law_image_slots_read_back(builders: Seq<BuilderModel>, slots: nat, n: u64)
    requires
        all_fit(builders),
        n < slots,
    ensures
        stride_of(image_of(finished(builders), slots)) == 1024,
        slot(image_of(finished(builders), slots), n) == Some(
            record_for(finished(builders), n as int),
        ),
{
    let records = finished(builders);
    let image = image_of(records, slots);
    let zeros = Seq::new(1024, |k: int| 0u8);
    let first = record_for(records, 0);
    let i = lemma_slot_record(builders, 0);
    assert forall|k: int| 0 <= k < 1024 implies #[trigger] image[k] == first[k] by {
        assert(k / 1024 == 0 && k % 1024 == k);
    }
    if i >= 0 {
        lemma_header_fields(builders[i]);
        assert(first.len() == 1024);
        assert(signature_of(image) =~= signature_of(first));
        assert(u32_at(image, 0x1C) == u32_at(first, 0x1C));
    } else {
        lemma_signatures_differ();
        assert(image[0] == zeros[0]);
        assert(signature_of(image)[0] == 0);
    }
    let j = lemma_slot_record(builders, n as int);
    if j >= 0 {
        lemma_header_fields(builders[j]);
    }
    let record = record_for(records, n as int);
    assert(record.len() == 1024);
    assert((n + 1) * 1024 <= slots * 1024);
    assert forall|k: int| 0 <= k < 1024 implies #[trigger] image.subrange(
        n * 1024,
        (n + 1) * 1024,
    )[k] == record[k] by {
        assert((n * 1024 + k) / 1024 == n);
        assert((n * 1024 + k) % 1024 == k);
    }
    assert(image.subrange(n * 1024, (n + 1) * 1024) =~= record);
}

/// What is written to an image is read back from it: a `FILE` record that no later one
/// replaced decodes to the attributes it was given.
pub proof fn law_image_decodes(
    builders: Seq<BuilderModel>,
    slots: nat,
    i: int,
    parts: Seq<Part>,
    cap: usize,
)
    requires
        all_fit(builders),
        0 <= i < builders.len(),
        forall|j: int| i < j < builders.len() ==> (#[trigger] builders[j]).entry != builders[i].entry,
        builders[i].entry < slots,
        builders[i].signature == file_signature(),
        made_of(builders[i], parts),
        parts_fit(parts),
    ensures
        ({
            let n = builders[i].entry;
            let e = entry_of(record_bytes(builders[i]), n)->Ok_0;
            record_at(image_of(finished(builders), slots), n, cap) == Some(
                record_of(e, part_items(parts), None, cap),
            )
        }),
{
    let n = builders[i].entry;
    let record = record_bytes(builders[i]);
    law_image_slots_read_back(builders, slots, n);
    let j = lemma_slot_record(builders, n as int);
    assert(j == i) by {
        if j < i {
            assert(builders[i].entry == n);
        } else if j > i {
            assert(builders[j].entry == n);
        }
    }
    lemma_built_record_parses(builders[i], n);
    law_built_record_decodes(builders[i], parts, n, cap);
    assert(outcome_of(record, n) == OutcomeModel::Parsed(entry_of(record, n)->Ok_0));
}

} // verus!
