//! The attributes of a record: the bounds check in front of the attribute parser,
//! and the parser itself.

use vstd::prelude::*;

use mft::attribute::header::ResidentialHeader;
use mft::attribute::x30::FileNamespace as MftNamespace;
use mft::entry::EntryHeader;
use mft::MftEntry;
use num_traits::ToPrimitive;

use crate::bytes::{read_u16, read_u32, u16_at, u32_at, u64_at};
use crate::file_name::{FileNameAttr, FileNameAttrModel, FileNamespace};
use crate::hazard::{
    check_hazard, content_start, file_name_parses, filetime_in_range, gap, hazardous, header_parses,
    name_start, name_units, utf16_ok,
};
use crate::standard_info::{AttrTimes, StandardInfoAttr};

verus! {

/// Maximum attributes walked in one record (loop / fan-out guard).
pub const MAX_ATTRS: usize = 256;

/// The type code that ends the attribute chain.
pub const END_OF_ATTRIBUTES: u32 = 0xFFFF_FFFF;

/// The declared length of the attribute at `off`.
pub open spec fn attribute_length(data: Seq<u8>, off: int) -> int {
    u32_at(data, off + 4) as int
}

/// Whether the attribute at `off` fits: its common header and its declared length
/// (at least a common header) lie in the record, and so does resident content with
/// the fields that locate it.
pub open spec fn attribute_fits(data: Seq<u8>, off: int) -> bool {
    &&& off + 16 <= data.len()
    &&& 16 <= attribute_length(data, off)
    &&& off + attribute_length(data, off) <= data.len()
    &&& data[off + 8] == 0 ==> {
        &&& off + 22 <= data.len()
        &&& off + u16_at(data, off + 20) + u32_at(data, off + 16) <= data.len()
    }
}

/// Whether the chain that starts at `off` reaches its terminator within `left`
/// steps, with every attribute before it inside the record.
pub open spec fn chain_fits(data: Seq<u8>, off: int, left: nat) -> bool
    decreases left,
{
    if left == 0 || off + 4 > data.len() {
        false
    } else if u32_at(data, off) == END_OF_ATTRIBUTES {
        true
    } else {
        attribute_fits(data, off) && chain_fits(
            data,
            off + attribute_length(data, off),
            (left - 1) as nat,
        )
    }
}

/// Whether a record's attributes pass the bounds check.
pub open spec fn attributes_fit(data: Seq<u8>, first: u16) -> bool {
    chain_fits(data, first as int, MAX_ATTRS as nat)
}

/// The number of attributes from `off` on that can be handed to the parser: up to
/// the terminator, or up to the first that is hazardous.
pub open spec fn safe_prefix(data: Seq<u8>, off: int, left: nat) -> nat
    decreases left,
{
    if left == 0 || u32_at(data, off) == END_OF_ATTRIBUTES || hazardous(data, off) {
        0
    } else {
        1 + safe_prefix(data, off + attribute_length(data, off), (left - 1) as nat)
    }
}

/// Whether an attribute of the chain that starts at `off` is hazardous.
pub open spec fn has_hazard(data: Seq<u8>, off: int, left: nat) -> bool
    decreases left,
{
    if left == 0 || u32_at(data, off) == END_OF_ATTRIBUTES {
        false
    } else {
        hazardous(data, off) || has_hazard(
            data,
            off + attribute_length(data, off),
            (left - 1) as nat,
        )
    }
}

/// Where an attribute's bytes are, and how many there are.
#[derive(Clone, Copy, Debug, PartialEq, Eq, Structural)]
pub enum AttrSizes {
    /// Inside the record.
    Resident { data_size: u32 },
    /// In clusters of the volume.
    NonResident { file_size: u64, allocated_length: u64 },
}

/// The header of a parsed attribute.
#[derive(Debug, PartialEq, Eq)]
pub struct AttrHead {
    /// The type code, if it has a number.
    pub type_code: Option<u32>,
    pub instance: u16,
    /// The known data flags.
    pub flags: u16,
    /// The attribute name; empty when unnamed.
    pub name: String,
    pub sizes: AttrSizes,
}

/// The contents of an [`AttrHead`].
pub struct AttrHeadModel {
    pub type_code: Option<u32>,
    pub instance: u16,
    pub flags: u16,
    pub name: Seq<char>,
    pub sizes: AttrSizes,
}

impl View for AttrHead {
    type V = AttrHeadModel;

    open spec fn view(&self) -> AttrHeadModel {
        AttrHeadModel {
            type_code: self.type_code,
            instance: self.instance,
            flags: self.flags,
            name: self.name@,
            sizes: self.sizes,
        }
    }
}

impl Clone for AttrHead {
    fn clone(&self) -> (r: Self)
        ensures
            r == *self,
    {
        AttrHead {
            type_code: self.type_code,
            instance: self.instance,
            flags: self.flags,
            name: self.name.clone(),
            sizes: self.sizes,
        }
    }
}

/// The content of a parsed attribute, as far as the decoder reads it.
#[derive(Debug, PartialEq, Eq)]
pub enum AttrContent {
    StandardInfo(StandardInfoAttr),
    FileName(FileNameAttr),
    Data(Vec<u8>),
    Other,
}

/// What an [`AttrContent`] holds.
pub enum AttrContentModel {
    StandardInfo(StandardInfoAttr),
    FileName(FileNameAttrModel),
    Data(Seq<u8>),
    Other,
}

impl View for AttrContent {
    type V = AttrContentModel;

    open spec fn view(&self) -> AttrContentModel {
        match self {
            AttrContent::StandardInfo(si) => AttrContentModel::StandardInfo(*si),
            AttrContent::FileName(f) => AttrContentModel::FileName(f@),
            AttrContent::Data(d) => AttrContentModel::Data(d@),
            AttrContent::Other => AttrContentModel::Other,
        }
    }
}

/// One parsed attribute.
#[derive(Debug, PartialEq, Eq)]
pub struct ParsedAttr {
    pub head: AttrHead,
    pub content: AttrContent,
}

/// The contents of a [`ParsedAttr`].
pub struct ParsedAttrModel {
    pub head: AttrHeadModel,
    pub content: AttrContentModel,
}

impl View for ParsedAttr {
    type V = ParsedAttrModel;

    open spec fn view(&self) -> ParsedAttrModel {
        ParsedAttrModel { head: self.head@, content: self.content@ }
    }
}

/// The text of the `units` 16-bit units at `pos`, where they are well-formed; with
/// `stop`, up to the first NUL.
pub open spec fn utf16_text(data: Seq<u8>, pos: int, units: nat, stop: bool) -> Seq<char>
    decreases units,
{
    let unit = u16_at(data, pos);
    if units == 0 || stop && unit == 0 {
        Seq::empty()
    } else if unit < 0xD800 || unit > 0xDFFF || units < 2 {
        seq![unit as char] + utf16_text(data, pos + 2, (units - 1) as nat, stop)
    } else {
        seq![(0x1_0000 + (unit - 0xD800) * 0x400 + (u16_at(data, pos + 2) - 0xDC00)) as char]
            + utf16_text(data, pos + 4, (units - 2) as nat, stop)
    }
}

/// The header of the attribute at `off`, where it can be read: the type code, the
/// known data flags, the instance number, the sizes and the name.
pub open spec fn head_at(data: Seq<u8>, off: int) -> AttrHeadModel {
    AttrHeadModel {
        type_code: Some(u32_at(data, off)),
        instance: u16_at(data, off + 14),
        flags: u16_at(data, off + 12) & 0xC0FF,
        name: utf16_text(data, name_start(data, off), name_units(data, off), true),
        sizes: if data[off + 8] == 0 {
            AttrSizes::Resident { data_size: u32_at(data, off + 16) }
        } else {
            AttrSizes::NonResident {
                file_size: u64_at(data, off + 48),
                allocated_length: u64_at(data, off + 40),
            }
        },
    }
}

/// A `FILETIME` in microseconds since the Unix epoch.
pub open spec fn instant_of(filetime: u64) -> i64 {
    (filetime / 10 - 11_644_473_600_000_000) as i64
}

/// The four times at `pos`: created, modified, record changed, accessed.
pub open spec fn times_at(data: Seq<u8>, pos: int) -> AttrTimes {
    AttrTimes {
        created: instant_of(u64_at(data, pos)),
        modified: instant_of(u64_at(data, pos + 8)),
        mft_modified: instant_of(u64_at(data, pos + 16)),
        accessed: instant_of(u64_at(data, pos + 24)),
    }
}

/// Whether a `$STANDARD_INFORMATION` content can be read at `pos`: it lies in the
/// buffer and its four times are in range.
pub open spec fn info_parses(data: Seq<u8>, pos: int) -> bool {
    &&& pos + 72 <= data.len()
    &&& filetime_in_range(u64_at(data, pos))
    &&& filetime_in_range(u64_at(data, pos + 8))
    &&& filetime_in_range(u64_at(data, pos + 16))
    &&& filetime_in_range(u64_at(data, pos + 24))
}

/// The `$STANDARD_INFORMATION` at `pos`: the times, the known file flags, the USN.
pub open spec fn info_at(data: Seq<u8>, pos: int) -> StandardInfoAttr {
    StandardInfoAttr {
        times: times_at(data, pos),
        file_flags: u32_at(data, pos + 32) & 0x305F_FFF7,
        usn: u64_at(data, pos + 64),
    }
}

/// The namespace of a number, where it is known.
pub open spec fn namespace_numbered(n: u8) -> FileNamespace {
    if n == 0 {
        FileNamespace::POSIX
    } else if n == 1 {
        FileNamespace::Win32
    } else if n == 2 {
        FileNamespace::DOS
    } else {
        FileNamespace::Win32AndDos
    }
}

/// The `$FILE_NAME` at `pos`: the parent reference, the times, the sizes, the
/// namespace, the name.
pub open spec fn file_name_at(data: Seq<u8>, pos: int) -> FileNameAttrModel {
    FileNameAttrModel {
        name: utf16_text(data, pos + 66, data[pos + 64] as nat, false),
        namespace: namespace_numbered(data[pos + 65]),
        parent_entry: u64_at(data, pos) % 0x1_0000_0000_0000,
        parent_seq: (u64_at(data, pos) / 0x1_0000_0000_0000) as u16,
        times: times_at(data, pos + 8),
        logical_size: u64_at(data, pos + 40),
        physical_size: u64_at(data, pos + 48),
    }
}

/// Whether the data runs from `pos` reach their end marker before `end`, none of them
/// with a length or an offset of more than eight bytes.
pub open spec fn runs_parse(data: Seq<u8>, pos: int, end: int) -> bool
    decreases gap(pos, end),
{
    let lengths = data[pos] as int % 16;
    let offsets = data[pos] as int / 16;
    if pos >= end {
        false
    } else if data[pos] == 0 {
        true
    } else {
        lengths <= 8 && offsets <= 8 && runs_parse(data, pos + 1 + lengths + offsets, end)
    }
}

/// Whether resident content of this type is kept as it is.
pub open spec fn kept_unparsed(code: u32) -> bool {
    code != 0x10 && code != 0x20 && code != 0x30 && code != 0x40 && code != 0x80 && code != 0x90
}

/// The content of the attribute at `off`, where its header can be read and it is one
/// of the contents that are read here: `$STANDARD_INFORMATION`, `$FILE_NAME` and
/// `$DATA` inside the record, the types that are kept unparsed there, and anything
/// outside it that has no or proper data runs.
pub open spec fn content_at(data: Seq<u8>, off: int) -> Option<AttrContentModel> {
    let code = u32_at(data, off);
    if data[off + 8] == 0 {
        let start = content_start(data, off);
        let size = u32_at(data, off + 16);
        if code == 0x10 && info_parses(data, start) {
            Some(AttrContentModel::StandardInfo(info_at(data, start)))
        } else if code == 0x30 && file_name_parses(data, start) && utf16_ok(
            data,
            start + 66,
            data[start + 64] as nat,
            false,
        ) {
            Some(AttrContentModel::FileName(file_name_at(data, start)))
        } else if code == 0x80 && start + size <= data.len() {
            Some(AttrContentModel::Data(data.subrange(start, start + size)))
        } else if kept_unparsed(code) && start + size <= data.len() {
            Some(AttrContentModel::Other)
        } else {
            None
        }
    } else {
        let start = off + u16_at(data, off + 32);
        let end = off + attribute_length(data, off);
        if start == end || runs_parse(data, start, end) {
            Some(AttrContentModel::Other)
        } else {
            None
        }
    }
}

/// The offset of attribute `k`, counting declared lengths from `off` on.
pub open spec fn nth_offset(data: Seq<u8>, off: int, k: nat) -> int
    decreases k,
{
    if k == 0 {
        off
    } else {
        nth_offset(data, off + attribute_length(data, off), (k - 1) as nat)
    }
}

/// Whether the headers of the attribute at `off` and of the `k` after it can be read.
pub open spec fn headers_parse(data: Seq<u8>, off: int, k: nat) -> bool
    decreases k,
{
    header_parses(data, off) && (k == 0 || headers_parse(
        data,
        off + attribute_length(data, off),
        (k - 1) as nat,
    ))
}

/// What the attribute parser yields as item `k` over `data`, from the attribute at
/// offset `first` on, where the bytes alone do not tell: an attribute, the message of
/// a failure, or the end.
pub uninterp spec fn mft_attribute(data: Seq<u8>, first: u16, k: nat) -> Option<
    Result<ParsedAttrModel, Seq<char>>,
>;

/// An item with no content where its header puts the content outside the record.
pub open spec fn settled(item: Option<Result<ParsedAttrModel, Seq<char>>>) -> Option<
    Result<ParsedAttrModel, Seq<char>>,
> {
    match item {
        Some(Ok(a)) => match a.head.sizes {
            AttrSizes::NonResident { .. } => Some(
                Ok(ParsedAttrModel { head: a.head, content: AttrContentModel::Other }),
            ),
            AttrSizes::Resident { .. } => item,
        },
        _ => item,
    }
}

/// An item under the header that the bytes show at `off`, with no content but that of
/// a `$STANDARD_INFORMATION`, a `$FILE_NAME` or a `$DATA` inside the record.
pub open spec fn under_head(
    data: Seq<u8>,
    off: int,
    item: Option<Result<ParsedAttrModel, Seq<char>>>,
) -> Option<Result<ParsedAttrModel, Seq<char>>> {
    let code = u32_at(data, off);
    match item {
        Some(Ok(a)) => Some(
            Ok(
                ParsedAttrModel {
                    head: head_at(data, off),
                    content: if data[off + 8] == 0 && (code == 0x10 || code == 0x30 || code == 0x80) {
                        a.content
                    } else {
                        AttrContentModel::Other
                    },
                },
            ),
        ),
        _ => item,
    }
}

/// Item `k` of the attributes from offset `first` on. Where all headers up to it and
/// its content are plain to read, it is the attribute that the bytes show. Where only
/// the headers are, `named` tells whether it is an attribute, and the bytes show its
/// header. Otherwise it is `named`, which holds no content from outside the record.
#[verifier::opaque]
pub open spec fn item_or(
    data: Seq<u8>,
    first: u16,
    k: nat,
    named: Option<Result<ParsedAttrModel, Seq<char>>>,
) -> Option<Result<ParsedAttrModel, Seq<char>>> {
    let off = nth_offset(data, first as int, k);
    if headers_parse(data, first as int, k) && content_at(data, off) is Some {
        Some(Ok(ParsedAttrModel { head: head_at(data, off), content: content_at(data, off)->0 }))
    } else if headers_parse(data, first as int, k) {
        under_head(data, off, named)
    } else {
        settled(named)
    }
}

/// What the attribute parser yields as item `k`.
pub open spec fn attribute_item(data: Seq<u8>, first: u16, k: nat) -> Option<
    Result<ParsedAttrModel, Seq<char>>,
> {
    item_or(data, first, k, mft_attribute(data, first, k))
}

/// Whether the first `len` items are there, and item `len` is not unless `len` is
/// `count`.
pub open spec fn items_end(data: Seq<u8>, first: u16, len: nat, count: nat) -> bool {
    &&& len <= count
    &&& forall|i: nat| i < len ==> (#[trigger] attribute_item(data, first, i)) is Some
    &&& len < count ==> attribute_item(data, first, len) is None
}

/// Whether `head` is the header part of `item`, or its failure.
pub open spec fn head_of(
    head: Result<AttrHead, String>,
    item: Option<Result<ParsedAttrModel, Seq<char>>>,
) -> bool {
    match (head, item) {
        (Ok(h), Some(Ok(a))) => h@ == a.head,
        (Err(e), Some(Err(m))) => e@ == m,
        _ => false,
    }
}

/// The `$STANDARD_INFORMATION` that an item holds.
pub open spec fn info_of(item: Option<Result<ParsedAttrModel, Seq<char>>>) -> Option<
    StandardInfoAttr,
> {
    match item {
        Some(Ok(a)) => match a.content {
            AttrContentModel::StandardInfo(si) => Some(si),
            _ => None,
        },
        _ => None,
    }
}

/// The `$FILE_NAME` that an item holds.
pub open spec fn name_of(item: Option<Result<ParsedAttrModel, Seq<char>>>) -> Option<
    FileNameAttrModel,
> {
    match item {
        Some(Ok(a)) => match a.content {
            AttrContentModel::FileName(f) => Some(f),
            _ => None,
        },
        _ => None,
    }
}

/// The resident `$DATA` bytes that an item holds.
pub open spec fn data_of(item: Option<Result<ParsedAttrModel, Seq<char>>>) -> Option<Seq<u8>> {
    match item {
        Some(Ok(a)) => match a.content {
            AttrContentModel::Data(d) => Some(d),
            _ => None,
        },
        _ => None,
    }
}

/// The contents of an optional name.
pub open spec fn opt_name(f: Option<FileNameAttr>) -> Option<FileNameAttrModel> {
    match f {
        Some(n) => Some(n@),
        None => None,
    }
}

/// Calls `mft::MftEntry::iter_attributes` and keeps the header of each of the first
/// `count` items, or the failure's message. Claimed of it: an item is the attribute
/// that the bytes show, where every header up to it can be read and its content is one
/// of those of [`content_at`]. Where the headers can be read and the content is another,
/// [`mft_attribute`] names whether the item is an attribute, and the bytes show its
/// header. Otherwise the item is what [`mft_attribute`] names, where an attribute whose
/// header is non-resident has data runs and no other content. The items end where that
/// says so. It panics or never returns on a hazardous attribute, so none of the `count`
/// attributes is one.
#[verifier::external_body]
fn attribute_heads(data: &Vec<u8>, first: u16, count: usize) -> (r: Vec<Result<AttrHead, String>>)
    requires
        attributes_fit(data@, first),
        count <= safe_prefix(data@, first as int, MAX_ATTRS as nat),
    ensures
        items_end(data@, first, r@.len(), count as nat),
        forall|i: int|
            0 <= i < r@.len() ==> head_of(
                #[trigger] r@[i],
                item_or(data@, first, i as nat, mft_attribute(data@, first, i as nat)),
            ),
{
    let mut header = EntryHeader::zero();
    header.first_attribute_record_offset = first;
    let entry = MftEntry { header, data: data.clone(), valid_fixup: None };
    entry.iter_attributes().take(count).map(|a| a.map(|a| AttrHead {
        type_code: a.header.type_code.to_u32(), instance: a.header.instance,
        flags: a.header.data_flags.bits(), name: a.header.name,
        sizes: match a.header.residential_header {
            ResidentialHeader::Resident(r) => AttrSizes::Resident { data_size: r.data_size },
            ResidentialHeader::NonResident(n) => AttrSizes::NonResident {
                file_size: n.file_size, allocated_length: n.allocated_length,
            },
        },
    }).map_err(|e| e.to_string())).collect()
}

/// Calls `mft::MftEntry::iter_attributes` and keeps the `$STANDARD_INFORMATION` of
/// each of the first `count` items. Claimed of it: item by item it is the
/// content that goes with the header, with each `jiff` instant in whole microseconds.
/// As with the headers, none of the `count` attributes is hazardous.
#[verifier::external_body]
fn attribute_infos(data: &Vec<u8>, first: u16, count: usize) -> (r: Vec<Option<StandardInfoAttr>>)
    requires
        attributes_fit(data@, first),
        count <= safe_prefix(data@, first as int, MAX_ATTRS as nat),
    ensures
        items_end(data@, first, r@.len(), count as nat),
        forall|i: int|
            0 <= i < r@.len() ==> #[trigger] r@[i] == info_of(
                item_or(data@, first, i as nat, mft_attribute(data@, first, i as nat)),
            ),
{
    let mut header = EntryHeader::zero();
    header.first_attribute_record_offset = first;
    let entry = MftEntry { header, data: data.clone(), valid_fixup: None };
    let items = entry.iter_attributes().take(count);
    items.map(|a| a.ok()?.data.into_standard_info().map(|s| StandardInfoAttr {
        times: AttrTimes {
            created: s.created.as_microsecond(), modified: s.modified.as_microsecond(),
            accessed: s.accessed.as_microsecond(), mft_modified: s.mft_modified.as_microsecond(),
        },
        file_flags: s.file_flags.bits(), usn: s.usn,
    })).collect()
}

/// Calls `mft::MftEntry::iter_attributes` and keeps the `$FILE_NAME` of each of the
/// first `count` items. Claimed of it: item by item it is the content that goes
/// with the header, with each `jiff` instant in whole microseconds. As with the
/// headers, none of the `count` attributes is hazardous.
#[verifier::external_body]
fn attribute_names(data: &Vec<u8>, first: u16, count: usize) -> (r: Vec<Option<FileNameAttr>>)
    requires
        attributes_fit(data@, first),
        count <= safe_prefix(data@, first as int, MAX_ATTRS as nat),
    ensures
        items_end(data@, first, r@.len(), count as nat),
        forall|i: int|
            0 <= i < r@.len() ==> opt_name(#[trigger] r@[i]) == name_of(
                item_or(data@, first, i as nat, mft_attribute(data@, first, i as nat)),
            ),
{
    let mut header = EntryHeader::zero();
    header.first_attribute_record_offset = first;
    let entry = MftEntry { header, data: data.clone(), valid_fixup: None };
    entry.iter_attributes().take(count).map(|a| a.ok()?.data.into_file_name().map(|f| FileNameAttr {
        name: f.name, namespace: match f.namespace {
            MftNamespace::POSIX => FileNamespace::POSIX, MftNamespace::Win32 => FileNamespace::Win32,
            MftNamespace::DOS => FileNamespace::DOS,
            MftNamespace::Win32AndDos => FileNamespace::Win32AndDos,
        }, parent_entry: f.parent.entry, parent_seq: f.parent.sequence, times: AttrTimes {
            created: f.created.as_microsecond(), modified: f.modified.as_microsecond(),
            accessed: f.accessed.as_microsecond(), mft_modified: f.mft_modified.as_microsecond(),
        }, logical_size: f.logical_size, physical_size: f.physical_size,
    })).collect()
}

/// Calls `mft::MftEntry::iter_attributes` and keeps the resident `$DATA` bytes of
/// each of the first `count` items. Claimed of it: item by item they are the
/// content that goes with the header. As with the headers, none of the `count`
/// attributes is hazardous.
#[verifier::external_body]
fn attribute_data(data: &Vec<u8>, first: u16, count: usize) -> (r: Vec<Option<Vec<u8>>>)
    requires
        attributes_fit(data@, first),
        count <= safe_prefix(data@, first as int, MAX_ATTRS as nat),
    ensures
        items_end(data@, first, r@.len(), count as nat),
        forall|i: int|
            0 <= i < r@.len() ==> crate::data::opt_bytes(#[trigger] r@[i]) == data_of(
                item_or(data@, first, i as nat, mft_attribute(data@, first, i as nat)),
            ),
{
    let mut header = EntryHeader::zero();
    header.first_attribute_record_offset = first;
    let entry = MftEntry { header, data: data.clone(), valid_fixup: None };
    let items = entry.iter_attributes().take(count);
    items.map(|a| a.ok()?.data.into_data().map(|d| d.data().to_vec())).collect()
}

/// Cheap, allocation-free pre-scan of a record's attribute chain. Walks the
/// 16-byte common headers (plus the resident size and offset) and confirms that
/// every attribute fits inside the record buffer, that resident content does not
/// exceed the buffer, and that no attribute has a zero length. Returns `false` on
/// any breach, and when the chain is longer than [`MAX_ATTRS`].
pub fn attributes_within_bounds(data: &[u8], first: u16) -> (r: bool)
    ensures
        r == attributes_fit(data@, first),
{
    let len: usize = data.len();
    let mut off: usize = first as usize;
    let mut left: usize = MAX_ATTRS;
    while left > 0
        invariant
            len == data@.len(),
            attributes_fit(data@, first) == chain_fits(data@, off as int, left as nat),
        decreases left,
    {
        if off > len || len - off < 4 {
            return false;
        }
        if read_u32(data, off) == END_OF_ATTRIBUTES {
            return true;
        }
        let room: usize = len - off;
        if room < 16 {
            return false;
        }
        let length: u32 = read_u32(data, off + 4);
        if length < 16 || length as u64 > room as u64 {
            return false;
        }
        if data[off + 8] == 0 {
            if room < 22 {
                return false;
            }
            let size: u64 = read_u32(data, off + 16) as u64;
            let at: u64 = read_u16(data, off + 20) as u64;
            if at + size > room as u64 {
                return false;
            }
        }
        off = off + length as usize;
        left = left - 1;
    }
    false
}

/// Counts the attributes that can be handed to the parser, and tells whether a
/// hazardous one follows them.
pub fn count_safe(data: &[u8], first: u16) -> (r: (usize, bool))
    requires
        attributes_fit(data@, first),
    ensures
        r.0 == safe_prefix(data@, first as int, MAX_ATTRS as nat),
        r.1 == has_hazard(data@, first as int, MAX_ATTRS as nat),
        r.0 < MAX_ATTRS,
{
    let mut off: usize = first as usize;
    let mut count: usize = 0;
    while count < MAX_ATTRS
        invariant
            count <= MAX_ATTRS,
            chain_fits(data@, off as int, (MAX_ATTRS - count) as nat),
            safe_prefix(data@, first as int, MAX_ATTRS as nat) == count + safe_prefix(
                data@,
                off as int,
                (MAX_ATTRS - count) as nat,
            ),
            has_hazard(data@, first as int, MAX_ATTRS as nat) == has_hazard(
                data@,
                off as int,
                (MAX_ATTRS - count) as nat,
            ),
        decreases MAX_ATTRS - count,
    {
        assert(off + 4 <= data.len());
        if read_u32(data, off) == END_OF_ATTRIBUTES {
            return (count, false);
        }
        if check_hazard(data, off) {
            return (count, true);
        }
        assert(off + attribute_length(data@, off as int) <= data.len());
        off = off + read_u32(data, off + 4) as usize;
        count = count + 1;
    }
    (count, false)
}

/// Whether `r` is item by item what the parser yields.
pub open spec fn items_are(
    r: Seq<Result<ParsedAttr, String>>,
    data: Seq<u8>,
    first: u16,
    count: nat,
) -> bool {
    &&& items_end(data, first, r.len(), count)
    &&& forall|i: int| 0 <= i < r.len() ==> item_is(#[trigger] r[i], attribute_item(data, first, i as nat))
}

/// Whether `item` is the attribute or the failure that `named` says.
pub open spec fn item_is(
    item: Result<ParsedAttr, String>,
    named: Option<Result<ParsedAttrModel, Seq<char>>>,
) -> bool {
    match (item, named) {
        (Ok(a), Some(Ok(m))) => a@ == m,
        (Err(e), Some(Err(m))) => e@ == m,
        _ => false,
    }
}

/// Parse the first `count` attributes.
pub fn read_attributes(data: &Vec<u8>, first: u16, count: usize) -> (r: Vec<
    Result<ParsedAttr, String>,
>)
    requires
        attributes_fit(data@, first),
        count <= safe_prefix(data@, first as int, MAX_ATTRS as nat),
    ensures
        items_are(r@, data@, first, count as nat),
{
    let heads = attribute_heads(data, first, count);
    let infos = attribute_infos(data, first, count);
    let mut names = attribute_names(data, first, count);
    let mut bytes = attribute_data(data, first, count);
    let ghost all_names = names@;
    let ghost all_bytes = bytes@;
    proof {
        let len = heads@.len();
        assert(infos@.len() == len) by {
            if infos@.len() < len {
                assert(attribute_item(data@, first, infos@.len()) is Some);
            } else if len < infos@.len() {
                assert(attribute_item(data@, first, len) is Some);
            }
        }
        assert(names@.len() == len) by {
            if names@.len() < len {
                assert(attribute_item(data@, first, names@.len()) is Some);
            } else if len < names@.len() {
                assert(attribute_item(data@, first, len) is Some);
            }
        }
        assert(bytes@.len() == len) by {
            if bytes@.len() < len {
                assert(attribute_item(data@, first, bytes@.len()) is Some);
            } else if len < bytes@.len() {
                assert(attribute_item(data@, first, len) is Some);
            }
        }
    }
    let mut out: Vec<Result<ParsedAttr, String>> = Vec::new();
    let mut i: usize = 0;
    while i < heads.len()
        invariant
            i <= heads@.len(),
            out@.len() == i,
            infos@.len() == heads@.len(),
            names@.len() == heads@.len(),
            bytes@.len() == heads@.len(),
            all_names.len() == heads@.len(),
            all_bytes.len() == heads@.len(),
            forall|j: int| i <= j < heads@.len() ==> names@[j] == all_names[j],
            forall|j: int| i <= j < heads@.len() ==> bytes@[j] == all_bytes[j],
            forall|j: int|
                0 <= j < heads@.len() ==> head_of(
                    #[trigger] heads@[j],
                    attribute_item(data@, first, j as nat),
                ),
            forall|j: int|
                0 <= j < heads@.len() ==> #[trigger] infos@[j] == info_of(
                    attribute_item(data@, first, j as nat),
                ),
            forall|j: int|
                0 <= j < heads@.len() ==> opt_name(#[trigger] all_names[j]) == name_of(
                    attribute_item(data@, first, j as nat),
                ),
            forall|j: int|
                0 <= j < heads@.len() ==> crate::data::opt_bytes(#[trigger] all_bytes[j])
                    == data_of(attribute_item(data@, first, j as nat)),
            forall|j: int|
                0 <= j < i ==> item_is(#[trigger] out@[j], attribute_item(data@, first, j as nat)),
        decreases heads@.len() - i,
    {
        assert(all_names[i as int] == names@[i as int]);
        assert(all_bytes[i as int] == bytes@[i as int]);
        match &heads[i] {
            Err(e) => {
                out.push(Err(e.clone()));
            },
            Ok(h) => {
                let content = if let Some(si) = infos[i] {
                    AttrContent::StandardInfo(si)
                } else if let Some(f) = names[i].take() {
                    AttrContent::FileName(f)
                } else if let Some(d) = bytes[i].take() {
                    AttrContent::Data(d)
                } else {
                    AttrContent::Other
                };
                out.push(Ok(ParsedAttr { head: h.clone(), content }));
            },
        }
        i = i + 1;
    }
    out
}

/// Whether the chain goes on for `k` attributes before any terminator.
pub open spec fn chain_reaches(data: Seq<u8>, off: int, k: nat) -> bool
    decreases k,
{
    k == 0 || (u32_at(data, off) != END_OF_ATTRIBUTES && chain_reaches(
        data,
        off + attribute_length(data, off),
        (k - 1) as nat,
    ))
}

/// The listed header is that of the bytes: where the headers up to an attribute can be
/// read, its type, name, flags, instance and sizes are those that the bytes show,
/// whatever becomes of its content.
pub proof fn law_readable_header_is_listed(data: Seq<u8>, first: u16, k: nat)
    requires
        headers_parse(data, first as int, k),
    ensures
        attribute_item(data, first, k) matches Some(Ok(a)) ==> a.head == head_at(
            data,
            nth_offset(data, first as int, k),
        ),
{
    reveal(item_or);
}

/// Content outside the record is not read: an attribute with a non-resident header holds
/// none.
pub proof fn law_nonresident_has_no_content(data: Seq<u8>, first: u16, k: nat)
    ensures
        attribute_item(data, first, k) matches Some(Ok(a)) ==> a.head.sizes is NonResident
            ==> a.content is Other,
{
    reveal(item_or);
}

/// Nothing is allocated for a hostile claim: where any attribute of the chain is
/// resident and claims more content than the record has bytes, or has a length of
/// zero, or runs past the record, the record is turned away before the parser sees
/// it.
pub proof fn law_hostile_claim_is_refused(data: Seq<u8>, first: u16, k: nat)
    requires
        chain_reaches(data, first as int, k),
        u32_at(data, nth_offset(data, first as int, k)) != END_OF_ATTRIBUTES,
        ({
            let off = nth_offset(data, first as int, k);
            ||| data[off + 8] == 0 && u32_at(data, off + 16) > data.len()
            ||| attribute_length(data, off) == 0
            ||| off + attribute_length(data, off) > data.len()
        }),
    ensures
        !attributes_fit(data, first),
{
    lemma_nth_offset(data, first as int, k);
    lemma_chain_refused(data, first as int, k, MAX_ATTRS as nat);
}

/// Offsets only grow.
proof fn lemma_nth_offset(data: Seq<u8>, off: int, k: nat)
    ensures
        nth_offset(data, off, k) >= off,
    decreases k,
{
    if k > 0 {
        lemma_nth_offset(data, off + attribute_length(data, off), (k - 1) as nat);
    }
}

proof fn lemma_chain_refused(data: Seq<u8>, off: int, k: nat, left: nat)
    requires
        off >= 0,
        chain_reaches(data, off, k),
        u32_at(data, nth_offset(data, off, k)) != END_OF_ATTRIBUTES,
        !attribute_fits(data, nth_offset(data, off, k)),
    ensures
        !chain_fits(data, off, left),
    decreases k,
{
    if k > 0 && left > 0 {
        lemma_chain_refused(
            data,
            off + attribute_length(data, off),
            (k - 1) as nat,
            (left - 1) as nat,
        );
    }
}

/// A chain that reaches its terminator has fewer attributes than steps.
pub proof fn lemma_safe_prefix_bound(data: Seq<u8>, off: int, left: nat)
    requires
        chain_fits(data, off, left),
    ensures
        safe_prefix(data, off, left) < left,
    decreases left,
{
    if u32_at(data, off) != END_OF_ATTRIBUTES && !hazardous(data, off) {
        lemma_safe_prefix_bound(data, off + attribute_length(data, off), (left - 1) as nat);
    }
}

/// Whether the attribute at `off` lies in the record: its common header, its declared
/// length of at least a common header, and resident content with the fields that locate
/// it.
pub open spec fn lies_inside(data: Seq<u8>, off: int) -> bool {
    let length = u32_at(data, off + 4);
    let content_size = u32_at(data, off + 16);
    let content_offset = u16_at(data, off + 20);
    &&& off + 16 <= data.len()
    &&& length >= 16
    &&& off + length <= data.len()
    &&& data[off + 8] != 0 || off + 22 <= data.len() && off + content_offset + content_size
        <= data.len()
}

/// Whether `offs` are the offsets of a chain that starts at `first`: each attribute but the
/// last is no terminator and lies in the record, and the next one stands right behind it.
pub open spec fn are_offsets(data: Seq<u8>, first: u16, offs: Seq<int>) -> bool {
    &&& offs.len() > 0
    &&& offs[0] == first
    &&& forall|i: int|
        0 <= i < offs.len() - 1 ==> {
            &&& #[trigger] u32_at(data, offs[i]) != 0xFFFF_FFFF
            &&& lies_inside(data, offs[i])
            &&& offs[i + 1] == offs[i] + u32_at(data, offs[i] + 4)
        }
}

/// A chain passes the bounds check if and only if it reaches its terminator over
/// attributes that lie in the record, within 256 steps: one that does is accepted, and one
/// that comes to an attribute which does not lie there, or to the end of the record, is
/// turned away.
pub proof fn law_chain_is_checked_exactly(data: Seq<u8>, first: u16, offs: Seq<int>)
    requires
        are_offsets(data, first, offs),
    ensures
        ({
            let last = offs.last();
            &&& last + 4 <= data.len() && u32_at(data, last) == 0xFFFF_FFFF ==> (attributes_fit(
                data,
                first,
            ) <==> offs.len() <= 256)
            &&& last + 4 > data.len() ==> !attributes_fit(data, first)
            &&& u32_at(data, last) != 0xFFFF_FFFF && !lies_inside(data, last) ==> !attributes_fit(
                data,
                first,
            )
            &&& offs.len() > 256 ==> !attributes_fit(data, first)
        }),
{
    lemma_chain_offsets(data, first, offs, 0);
}

proof fn lemma_chain_offsets(data: Seq<u8>, first: u16, offs: Seq<int>, i: int)
    requires
        are_offsets(data, first, offs),
        0 <= i < offs.len(),
        i < 256,
        attributes_fit(data, first) == chain_fits(data, offs[i], (256 - i) as nat),
    ensures
        ({
            let last = offs.last();
            &&& last + 4 <= data.len() && u32_at(data, last) == 0xFFFF_FFFF ==> (attributes_fit(
                data,
                first,
            ) <==> offs.len() <= 256)
            &&& last + 4 > data.len() ==> !attributes_fit(data, first)
            &&& u32_at(data, last) != 0xFFFF_FFFF && !lies_inside(data, last) ==> !attributes_fit(
                data,
                first,
            )
            &&& offs.len() > 256 ==> !attributes_fit(data, first)
        }),
    decreases 256 - i,
{
    let left = (256 - i) as nat;
    if i < offs.len() - 1 {
        assert(u32_at(data, offs[i]) != 0xFFFF_FFFF);
        assert(attribute_fits(data, offs[i]));
        assert(chain_fits(data, offs[i], left) == chain_fits(
            data,
            offs[i + 1],
            (left - 1) as nat,
        ));
        if i + 1 < 256 {
            lemma_chain_offsets(data, first, offs, i + 1);
        }
    }
}

/// As many attributes can be handed to the parser as stand before the first hazardous one:
/// all of a chain that reaches its terminator without any.
pub proof fn law_safe_attributes_are_counted(data: Seq<u8>, first: u16, offs: Seq<int>)
    requires
        are_offsets(data, first, offs),
        offs.len() <= 256,
        forall|i: int| 0 <= i < offs.len() - 1 ==> !hazardous(data, #[trigger] offs[i]),
    ensures
        u32_at(data, offs.last()) == 0xFFFF_FFFF ==> {
            &&& safe_prefix(data, first as int, 256) == offs.len() - 1
            &&& !has_hazard(data, first as int, 256)
        },
        u32_at(data, offs.last()) != 0xFFFF_FFFF && hazardous(data, offs.last()) ==> {
            &&& safe_prefix(data, first as int, 256) == offs.len() - 1
            &&& has_hazard(data, first as int, 256)
        },
{
    lemma_safe_offsets(data, first, offs, 0);
}

proof fn lemma_safe_offsets(data: Seq<u8>, first: u16, offs: Seq<int>, i: int)
    requires
        are_offsets(data, first, offs),
        offs.len() <= 256,
        forall|j: int| 0 <= j < offs.len() - 1 ==> !hazardous(data, #[trigger] offs[j]),
        0 <= i < offs.len(),
        safe_prefix(data, first as int, 256) == i + safe_prefix(data, offs[i], (256 - i) as nat),
        has_hazard(data, first as int, 256) == has_hazard(data, offs[i], (256 - i) as nat),
    ensures
        u32_at(data, offs.last()) == 0xFFFF_FFFF ==> {
            &&& safe_prefix(data, first as int, 256) == offs.len() - 1
            &&& !has_hazard(data, first as int, 256)
        },
        u32_at(data, offs.last()) != 0xFFFF_FFFF && hazardous(data, offs.last()) ==> {
            &&& safe_prefix(data, first as int, 256) == offs.len() - 1
            &&& has_hazard(data, first as int, 256)
        },
    decreases offs.len() - i,
{
    if i < offs.len() - 1 {
        assert(u32_at(data, offs[i]) != 0xFFFF_FFFF);
        assert(!hazardous(data, offs[i]));
        lemma_safe_offsets(data, first, offs, i + 1);
    }
}

/// A parsed attribute and its contents are the same value.
pub proof fn law_attribute_contents(a: ParsedAttr)
    ensures
        a@.head.type_code == a.head.type_code && a@.head.instance == a.head.instance,
        a@.head.flags == a.head.flags && a@.head.name == a.head.name@,
        a@.head.sizes == a.head.sizes,
        match a.content {
            AttrContent::StandardInfo(si) => a@.content == AttrContentModel::StandardInfo(si),
            AttrContent::FileName(f) => a@.content == AttrContentModel::FileName(f@),
            AttrContent::Data(d) => a@.content == AttrContentModel::Data(d@),
            AttrContent::Other => a@.content is Other,
        },
{
}

} // verus!
