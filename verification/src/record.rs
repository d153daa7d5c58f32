//! FILE-record decode: header plus the per-record attribute walk, producing the
//! lossless [`DecodedRecord`] view used by every output function.

use vstd::prelude::*;

use crate::attribute::{
    attributes_fit, attributes_within_bounds, count_safe, has_hazard, items_are, items_end,
    attribute_item, law_nonresident_has_no_content, read_attributes, safe_prefix, AttrContent, AttrContentModel, AttrHead,
    AttrHeadModel, AttrSizes, ParsedAttr, ParsedAttrModel, MAX_ATTRS,
};
use crate::data::{
    attr_infos_model, attribute_type_name, no_streams, opt_bytes, streams_model, type_label_of,
    AttrInfo, AttrInfoModel, DataStream, DataStreamModel, DataStreams, DataStreamsModel,
    DEFAULT_RESIDENT_CAP,
};
use crate::entry::{baad_signature, known_signature, EntryModel, ParsedEntry};
use crate::errors::opt_text;
use crate::file_name::{
    file_name_of, file_names_model, primary_index, primary_of, FileName, FileNameModel,
};
use crate::standard_info::{standard_info_of, StandardInfo};
use crate::text::{join, joined, texts};

verus! {

/// The cheap header-only probe returned by `record_header(blob, entry)`.
#[derive(Clone, Debug, PartialEq, Eq)]
pub struct RecordHeader {
    pub signature: String,
    pub sequence: u16,
    pub in_use: bool,
    pub is_dir: bool,
    pub base_ref: u64,
    pub lsn: u64,
    pub used_size: u32,
    pub allocated_size: u32,
}

/// The contents of a [`RecordHeader`].
pub struct HeaderModel {
    pub signature: Seq<char>,
    pub sequence: u16,
    pub in_use: bool,
    pub is_dir: bool,
    pub base_ref: u64,
    pub lsn: u64,
    pub used_size: u32,
    pub allocated_size: u32,
}

impl View for RecordHeader {
    type V = HeaderModel;

    open spec fn view(&self) -> HeaderModel {
        HeaderModel {
            signature: self.signature@,
            sequence: self.sequence,
            in_use: self.in_use,
            is_dir: self.is_dir,
            base_ref: self.base_ref,
            lsn: self.lsn,
            used_size: self.used_size,
            allocated_size: self.allocated_size,
        }
    }
}

/// The characters of an ASCII signature.
pub open spec fn signature_text(sig: Seq<u8>) -> Seq<char> {
    sig.map_values(|b: u8| b as char)
}

/// The header of an entry.
pub open spec fn header_of(e: EntryModel) -> HeaderModel {
    HeaderModel {
        signature: signature_text(e.signature),
        sequence: e.sequence,
        in_use: e.flags & 0x01 != 0,
        is_dir: e.flags & 0x02 != 0,
        base_ref: e.base_entry,
        lsn: e.lsn,
        used_size: e.used_size,
        allocated_size: e.allocated_size,
    }
}

/// The text of a signature that the record parser knows.
fn signature_string(sig: &[u8; 4]) -> (r: String)
    ensures
        r@ == signature_text(sig@),
{
    let mut out = String::new();
    out.push(sig[0] as char);
    out.push(sig[1] as char);
    out.push(sig[2] as char);
    out.push(sig[3] as char);
    assert(out@ =~= signature_text(sig@));
    out
}

impl RecordHeader {
    pub fn from_entry(entry: &ParsedEntry) -> (r: Self)
        requires
            known_signature(entry@.signature),
        ensures
            r@ == header_of(entry@),
    {
        RecordHeader {
            signature: signature_string(&entry.signature),
            sequence: entry.sequence,
            in_use: entry.flags & 0x01 != 0,
            is_dir: entry.flags & 0x02 != 0,
            base_ref: entry.base_entry,
            lsn: entry.lsn,
            used_size: entry.used_size,
            allocated_size: entry.allocated_size,
        }
    }
}

/// The fully decoded per-record view (the raw, lossless representation behind
/// `mft_record`, `read_mft`, `attributes`, and `streams`).
#[derive(Clone, Debug, PartialEq, Eq)]
pub struct DecodedRecord {
    pub entry: u64,
    pub sequence: u16,
    pub in_use: bool,
    pub is_dir: bool,
    pub base_ref: u64,
    pub lsn: u64,
    pub hard_link_count: u16,
    pub used_size: u32,
    pub allocated_size: u32,
    pub signature: String,
    /// Whether the update-sequence fixup validated (`Some(false)`: torn).
    pub fixup_ok: Option<bool>,
    pub standard_info: Option<StandardInfo>,
    /// Every `$FILE_NAME` (Win32 long, DOS short, one per hard link).
    pub file_names: Vec<FileName>,
    pub data: DataStreams,
    pub attributes: Vec<AttrInfo>,
    pub diagnostics: Vec<String>,
}

/// The contents of a [`DecodedRecord`].
#[verifier::ext_equal]
pub struct RecordModel {
    pub entry: u64,
    pub sequence: u16,
    pub in_use: bool,
    pub is_dir: bool,
    pub base_ref: u64,
    pub lsn: u64,
    pub hard_link_count: u16,
    pub used_size: u32,
    pub allocated_size: u32,
    pub signature: Seq<char>,
    pub fixup_ok: Option<bool>,
    pub standard_info: Option<StandardInfo>,
    pub file_names: Seq<FileNameModel>,
    pub data: DataStreamsModel,
    pub attributes: Seq<AttrInfoModel>,
    pub diagnostics: Seq<Seq<char>>,
}

impl View for DecodedRecord {
    type V = RecordModel;

    open spec fn view(&self) -> RecordModel {
        RecordModel {
            entry: self.entry,
            sequence: self.sequence,
            in_use: self.in_use,
            is_dir: self.is_dir,
            base_ref: self.base_ref,
            lsn: self.lsn,
            hard_link_count: self.hard_link_count,
            used_size: self.used_size,
            allocated_size: self.allocated_size,
            signature: self.signature@,
            fixup_ok: self.fixup_ok,
            standard_info: self.standard_info,
            file_names: file_names_model(self.file_names@),
            data: self.data@,
            attributes: attr_infos_model(self.attributes@),
            diagnostics: texts(self.diagnostics@),
        }
    }
}

/// The contents of an optional record.
pub open spec fn opt_record(r: Option<DecodedRecord>) -> Option<RecordModel> {
    match r {
        Some(rec) => Some(rec@),
        None => None,
    }
}

impl RecordModel {
    /// The primary name, if there is any.
    pub open spec fn primary_name(self) -> Option<FileNameModel> {
        match primary_of(self.file_names) {
            Some(i) => Some(self.file_names[i]),
            None => None,
        }
    }

    /// The diagnostics as one comma-separated text; `None` on a clean parse.
    pub open spec fn diagnostics_text(self) -> Option<Seq<char>> {
        diagnostics_joined(self.diagnostics)
    }
}

/// Diagnostics as one comma-separated text; `None` if there are none.
pub open spec fn diagnostics_joined(diagnostics: Seq<Seq<char>>) -> Option<Seq<char>> {
    if diagnostics.len() == 0 {
        None
    } else {
        Some(joined(diagnostics, ","@))
    }
}

/// Joins diagnostics with commas; `None` if there are none.
pub fn join_diagnostics(diagnostics: &Vec<String>) -> (r: Option<String>)
    ensures
        opt_text(r) == diagnostics_joined(texts(diagnostics@)),
{
    if diagnostics.is_empty() {
        None
    } else {
        Some(join(diagnostics, ","))
    }
}

impl DecodedRecord {
    /// The primary `$FILE_NAME` index (prefer Win32 long name).
    pub fn primary_name_index(&self) -> (r: Option<usize>)
        ensures
            match r {
                Some(i) => i < self.file_names@.len() && primary_of(self@.file_names) == Some(
                    i as int,
                ),
                None => primary_of(self@.file_names) is None,
            },
    {
        primary_index(self.file_names.as_slice())
    }

    /// The primary filename component, if any.
    pub fn primary_name(&self) -> (r: Option<&FileName>)
        ensures
            match r {
                Some(f) => self@.primary_name() == Some(f@),
                None => self@.primary_name() is None,
            },
    {
        match self.primary_name_index() {
            Some(i) => Some(&self.file_names[i]),
            None => None,
        }
    }

    /// The single diagnostics token string for the `read_mft` column, or `None`
    /// on a clean parse.
    pub fn diagnostics_str(&self) -> (r: Option<String>)
        ensures
            opt_text(r) == self@.diagnostics_text(),
    {
        join_diagnostics(&self.diagnostics)
    }
}

/// The type code of an attribute; 0 where it has no number.
pub open spec fn type_id_of(head: AttrHeadModel) -> u32 {
    match head.type_code {
        Some(code) => code,
        None => 0,
    }
}

/// The name of an attribute; `None` when it is empty.
pub open spec fn attr_name_of(head: AttrHeadModel) -> Option<Seq<char>> {
    if head.name.len() == 0 {
        None
    } else {
        Some(head.name)
    }
}

/// Residency, logical and physical size of an attribute. A resident attribute takes
/// exactly its data size.
pub open spec fn sizes_of(sizes: AttrSizes) -> (bool, u64, u64) {
    match sizes {
        AttrSizes::Resident { data_size } => (true, data_size as u64, data_size as u64),
        AttrSizes::NonResident { file_size, allocated_length } => (
            false,
            file_size,
            allocated_length,
        ),
    }
}

/// The generic view of an attribute.
pub open spec fn attr_info_of(head: AttrHeadModel) -> AttrInfoModel {
    let sizes = sizes_of(head.sizes);
    AttrInfoModel {
        attribute_id: head.instance,
        type_id: type_id_of(head),
        type_label: type_label_of(type_id_of(head)),
        resident: sizes.0,
        name: attr_name_of(head),
        logical_size: sizes.1,
        physical_size: sizes.2,
        flags: head.flags,
    }
}

/// The generic view of each of some attributes.
pub open spec fn attr_infos_of(attrs: Seq<ParsedAttrModel>) -> Seq<AttrInfoModel> {
    attrs.map_values(|a: ParsedAttrModel| attr_info_of(a.head))
}

/// The inline bytes of an attribute, at most `cap` of them; `None` when there are
/// none.
pub open spec fn inline_bytes(content: AttrContentModel, cap: usize) -> Option<Seq<u8>> {
    match content {
        AttrContentModel::Data(d) => if d.len() == 0 {
            None
        } else if d.len() <= cap {
            Some(d)
        } else {
            Some(d.take(cap as int))
        },
        _ => None,
    }
}

/// The `$DATA` stream of an attribute.
pub open spec fn stream_of(a: ParsedAttrModel, cap: usize) -> DataStreamModel {
    let sizes = sizes_of(a.head.sizes);
    DataStreamModel {
        name: attr_name_of(a.head),
        logical_size: sizes.1,
        physical_size: sizes.2,
        resident: sizes.0,
        data: inline_bytes(a.content, cap),
    }
}

/// The `$STANDARD_INFORMATION` that an attribute holds.
pub open spec fn info_in(a: ParsedAttrModel) -> Option<StandardInfo> {
    match (a.head.type_code, a.content) {
        (Some(0x10), AttrContentModel::StandardInfo(si)) => Some(standard_info_of(si)),
        _ => None,
    }
}

/// The last `$STANDARD_INFORMATION` of some attributes.
pub open spec fn last_info(attrs: Seq<ParsedAttrModel>) -> Option<StandardInfo>
    decreases attrs.len(),
{
    if attrs.len() == 0 {
        None
    } else if info_in(attrs.last()) is Some {
        info_in(attrs.last())
    } else {
        last_info(attrs.drop_last())
    }
}

/// The `$FILE_NAME` that an attribute holds.
pub open spec fn file_name_in(a: ParsedAttrModel) -> Option<FileNameModel> {
    match (a.head.type_code, a.content) {
        (Some(0x30), AttrContentModel::FileName(f)) => Some(file_name_of(f)),
        _ => None,
    }
}

/// Every `$FILE_NAME` of some attributes, in order.
pub open spec fn all_file_names(attrs: Seq<ParsedAttrModel>) -> Seq<FileNameModel>
    decreases attrs.len(),
{
    if attrs.len() == 0 {
        Seq::empty()
    } else {
        match file_name_in(attrs.last()) {
            Some(f) => all_file_names(attrs.drop_last()).push(f),
            None => all_file_names(attrs.drop_last()),
        }
    }
}

/// Whether an attribute is a `$DATA` stream without a name.
pub open spec fn is_primary(a: ParsedAttrModel) -> bool {
    a.head.type_code == Some(0x80u32) && a.head.name.len() == 0
}

/// Whether an attribute is a named `$DATA` stream.
pub open spec fn is_ads(a: ParsedAttrModel) -> bool {
    a.head.type_code == Some(0x80u32) && a.head.name.len() > 0
}

/// The last unnamed `$DATA` stream of some attributes.
pub open spec fn last_primary(attrs: Seq<ParsedAttrModel>, cap: usize) -> Option<DataStreamModel>
    decreases attrs.len(),
{
    if attrs.len() == 0 {
        None
    } else if is_primary(attrs.last()) {
        Some(stream_of(attrs.last(), cap))
    } else {
        last_primary(attrs.drop_last(), cap)
    }
}

/// Every named `$DATA` stream of some attributes, in order.
pub open spec fn all_ads(attrs: Seq<ParsedAttrModel>, cap: usize) -> Seq<DataStreamModel>
    decreases attrs.len(),
{
    if attrs.len() == 0 {
        Seq::empty()
    } else if is_ads(attrs.last()) {
        all_ads(attrs.drop_last(), cap).push(stream_of(attrs.last(), cap))
    } else {
        all_ads(attrs.drop_last(), cap)
    }
}

/// Whether some attribute is an attribute list: the record overflows into others.
pub open spec fn has_attribute_list(attrs: Seq<ParsedAttrModel>) -> bool {
    exists|i: int| 0 <= i < attrs.len() && (#[trigger] attrs[i]).head.type_code == Some(0x20u32)
}

/// The diagnostics that the header alone gives.
pub open spec fn header_diagnostics(e: EntryModel) -> Seq<Seq<char>> {
    let baad = if e.signature == baad_signature() {
        seq!["baad"@]
    } else {
        Seq::empty()
    };
    if e.valid_fixup == Some(false) {
        baad.push("fixup-mismatch"@)
    } else {
        baad
    }
}

/// The record of an entry with the given attribute-derived parts.
pub open spec fn record_with(
    e: EntryModel,
    standard_info: Option<StandardInfo>,
    file_names: Seq<FileNameModel>,
    data: DataStreamsModel,
    attributes: Seq<AttrInfoModel>,
    diagnostics: Seq<Seq<char>>,
) -> RecordModel {
    let h = header_of(e);
    RecordModel {
        entry: e.record_number,
        sequence: h.sequence,
        in_use: h.in_use,
        is_dir: h.is_dir,
        base_ref: h.base_ref,
        lsn: h.lsn,
        hard_link_count: e.hard_link_count,
        used_size: h.used_size,
        allocated_size: h.allocated_size,
        signature: h.signature,
        fixup_ok: e.valid_fixup,
        standard_info,
        file_names,
        data,
        attributes,
        diagnostics,
    }
}

/// The record of an entry whose attributes run out of bounds: header only.
pub open spec fn overrun_record(e: EntryModel) -> RecordModel {
    record_with(
        e,
        None,
        Seq::empty(),
        no_streams(),
        Seq::empty(),
        header_diagnostics(e).push("attr-overrun"@),
    )
}

/// The diagnostics that the attribute walk gives.
pub open spec fn walk_diagnostics(
    attrs: Seq<ParsedAttrModel>,
    error: Option<Seq<char>>,
) -> Seq<Seq<char>> {
    let failed = match error {
        Some(m) => seq!["decode-error:"@ + m],
        None => Seq::empty(),
    };
    if has_attribute_list(attrs) {
        failed.push("attr-overflow"@)
    } else {
        failed
    }
}

/// The record of an entry with the attributes that were parsed, and the failure
/// that ended the walk, if one did.
pub open spec fn record_of(
    e: EntryModel,
    attrs: Seq<ParsedAttrModel>,
    error: Option<Seq<char>>,
    cap: usize,
) -> RecordModel {
    record_with(
        e,
        last_info(attrs),
        all_file_names(attrs),
        DataStreamsModel { primary: last_primary(attrs, cap), ads: all_ads(attrs, cap) },
        attr_infos_of(attrs),
        header_diagnostics(e) + walk_diagnostics(attrs, error),
    )
}

/// The contents of one item of the attribute walk.
pub open spec fn item_model(item: Result<ParsedAttr, String>) -> Result<
    ParsedAttrModel,
    Seq<char>,
> {
    match item {
        Ok(a) => Ok(a@),
        Err(e) => Err(e@),
    }
}

/// The contents of the items of an attribute walk.
pub open spec fn items_model(items: Seq<Result<ParsedAttr, String>>) -> Seq<
    Result<ParsedAttrModel, Seq<char>>,
> {
    items.map_values(|i: Result<ParsedAttr, String>| item_model(i))
}

/// The number of items before the first failure.
pub open spec fn ok_len(items: Seq<Result<ParsedAttrModel, Seq<char>>>) -> nat
    decreases items.len(),
{
    if items.len() == 0 || items[0] is Err {
        0
    } else {
        1 + ok_len(items.drop_first())
    }
}

/// The attributes before the first failure.
pub open spec fn ok_items(items: Seq<Result<ParsedAttrModel, Seq<char>>>) -> Seq<ParsedAttrModel> {
    Seq::new(ok_len(items), |i: int| items[i]->Ok_0)
}

/// The message of the first failure.
pub open spec fn first_error(items: Seq<Result<ParsedAttrModel, Seq<char>>>) -> Option<Seq<char>> {
    if ok_len(items) < items.len() {
        Some(items[ok_len(items) as int]->Err_0)
    } else {
        None
    }
}

/// The record of an entry for what the attribute parser yielded: the walk ends at
/// the first failure.
pub open spec fn record_of_items(
    e: EntryModel,
    items: Seq<Result<ParsedAttrModel, Seq<char>>>,
    cap: usize,
) -> RecordModel {
    record_of(e, ok_items(items), first_error(items), cap)
}

/// The number of items, at most `count`, that the attribute parser yields.
pub open spec fn item_count(data: Seq<u8>, first: u16, k: nat, count: nat) -> nat
    decreases count - k,
{
    if k < count && attribute_item(data, first, k) is Some {
        item_count(data, first, k + 1, count)
    } else {
        k
    }
}

/// The first `count` items of the attribute parser.
pub open spec fn parsed_items(data: Seq<u8>, first: u16, count: nat) -> Seq<
    Result<ParsedAttrModel, Seq<char>>,
> {
    Seq::new(
        item_count(data, first, 0, count),
        |i: int| attribute_item(data, first, i as nat)->Some_0,
    )
}

/// The items that the attribute parser yields for an entry whose attributes fit.
pub open spec fn entry_items(e: EntryModel) -> Seq<Result<ParsedAttrModel, Seq<char>>> {
    parsed_items(
        e.data,
        e.first_attribute,
        safe_prefix(e.data, e.first_attribute as int, MAX_ATTRS as nat),
    )
}

/// Whether the attribute walk of an entry comes back: its attributes do not fit the
/// record and are not parsed at all, none is hazardous, or a failure ends the walk
/// before the first hazardous one.
pub open spec fn decodable(e: EntryModel) -> bool {
    ||| !attributes_fit(e.data, e.first_attribute)
    ||| !has_hazard(e.data, e.first_attribute as int, MAX_ATTRS as nat)
    ||| ok_len(entry_items(e)) < safe_prefix(
        e.data,
        e.first_attribute as int,
        MAX_ATTRS as nat,
    )
}

/// What decoding a decodable entry gives.
pub open spec fn decoded(e: EntryModel, cap: usize) -> RecordModel {
    if attributes_fit(e.data, e.first_attribute) {
        record_of_items(e, entry_items(e), cap)
    } else {
        overrun_record(e)
    }
}

/// The diagnostic-only record of a slot.
pub open spec fn diagnostic_model(entry: u64, diagnostic: Seq<char>) -> RecordModel {
    RecordModel {
        entry,
        sequence: 0,
        in_use: false,
        is_dir: false,
        base_ref: 0,
        lsn: 0,
        hard_link_count: 0,
        used_size: 0,
        allocated_size: 0,
        signature: Seq::empty(),
        fixup_ok: None,
        standard_info: None,
        file_names: Seq::empty(),
        data: no_streams(),
        attributes: Seq::empty(),
        diagnostics: seq![diagnostic],
    }
}

/// A minimal diagnostic-only record for a slot that could not be decoded.
pub fn diagnostic_record(entry: u64, diagnostic: &str) -> (r: DecodedRecord)
    ensures
        r@ == diagnostic_model(entry, diagnostic@),
{
    let mut diagnostics: Vec<String> = Vec::new();
    diagnostics.push(diagnostic.to_string());
    let r = DecodedRecord {
        entry,
        sequence: 0,
        in_use: false,
        is_dir: false,
        base_ref: 0,
        lsn: 0,
        hard_link_count: 0,
        used_size: 0,
        allocated_size: 0,
        signature: String::new(),
        fixup_ok: None,
        standard_info: None,
        file_names: Vec::new(),
        data: DataStreams::default(),
        attributes: Vec::new(),
        diagnostics,
    };
    assert(r@ =~~= diagnostic_model(entry, diagnostic@));
    r
}

/// `(resident, logical_size, physical_size)` of an attribute.
fn attr_sizes(sizes: &AttrSizes) -> (r: (bool, u64, u64))
    ensures
        r == sizes_of(*sizes),
{
    match sizes {
        AttrSizes::Resident { data_size } => (true, *data_size as u64, *data_size as u64),
        AttrSizes::NonResident { file_size, allocated_length } => (
            false,
            *file_size,
            *allocated_length,
        ),
    }
}

/// The name of an attribute; `None` when it is empty.
fn attr_name(head: &AttrHead) -> (r: Option<String>)
    ensures
        opt_text(r) == attr_name_of(head@),
{
    if head.name.as_str().is_empty() {
        None
    } else {
        Some(head.name.clone())
    }
}

/// The generic view of an attribute.
fn attr_info(head: &AttrHead) -> (r: AttrInfo)
    ensures
        r@ == attr_info_of(head@),
{
    let sizes = attr_sizes(&head.sizes);
    let type_id: u32 = match head.type_code {
        Some(code) => code,
        None => 0,
    };
    AttrInfo {
        attribute_id: head.instance,
        type_id,
        type_label: attribute_type_name(type_id).to_string(),
        resident: sizes.0,
        name: attr_name(head),
        logical_size: sizes.1,
        physical_size: sizes.2,
        flags: head.flags,
    }
}

/// The inline bytes of a resident attribute, capped at `cap`; `None` when
/// non-resident or empty.
fn resident_bytes(content: &AttrContent, cap: usize) -> (r: Option<Vec<u8>>)
    ensures
        opt_bytes(r) == inline_bytes(content@, cap),
{
    if let AttrContent::Data(bytes) = content {
        if bytes.is_empty() {
            return None;
        }
        let mut out = bytes.clone();
        assert(out@ =~= bytes@);
        if bytes.len() > cap {
            out.truncate(cap);
        }
        return Some(out);
    }
    None
}

/// The `$DATA` stream of an attribute.
fn data_stream(a: &ParsedAttr, cap: usize) -> (r: DataStream)
    ensures
        r@ == stream_of(a@, cap),
{
    let sizes = attr_sizes(&a.head.sizes);
    DataStream {
        name: attr_name(&a.head),
        logical_size: sizes.1,
        physical_size: sizes.2,
        resident: sizes.0,
        data: resident_bytes(&a.content, cap),
    }
}

/// Attribute-derived parts of a record, filled one attribute at a time.
struct Parts {
    standard_info: Option<StandardInfo>,
    file_names: Vec<FileName>,
    data: DataStreams,
    attributes: Vec<AttrInfo>,
    saw_attr_list: bool,
}

impl Parts {
    /// Whether these are the parts of `attrs`.
    spec fn are_of(self, attrs: Seq<ParsedAttrModel>, cap: usize) -> bool {
        &&& self.standard_info == last_info(attrs)
        &&& file_names_model(self.file_names@) == all_file_names(attrs)
        &&& self.data@.primary == last_primary(attrs, cap)
        &&& self.data@.ads == all_ads(attrs, cap)
        &&& attr_infos_model(self.attributes@) == attr_infos_of(attrs)
        &&& self.saw_attr_list == has_attribute_list(attrs)
    }

    fn new(cap: usize) -> (r: Self)
        ensures
            r.are_of(Seq::empty(), cap),
    {
        let r = Parts {
            standard_info: None,
            file_names: Vec::new(),
            data: DataStreams::default(),
            attributes: Vec::new(),
            saw_attr_list: false,
        };
        proof {
            let none = Seq::<ParsedAttrModel>::empty();
            assert(file_names_model(r.file_names@) =~= all_file_names(none));
            assert(r.data@.ads =~= all_ads(none, cap));
            assert(attr_infos_model(r.attributes@) =~= attr_infos_of(none));
        }
        r
    }

    /// Takes one more attribute in.
    fn take_in(&mut self, a: &ParsedAttr, cap: usize, Ghost(attrs): Ghost<Seq<ParsedAttrModel>>)
        requires
            old(self).are_of(attrs, cap),
        ensures
            final(self).are_of(attrs.push(a@), cap),
    {
        let ghost before = *self;
        let ghost more = attrs.push(a@);
        assert(more.drop_last() =~= attrs);
        assert(more.last() == a@);
        self.attributes.push(attr_info(&a.head));
        proof {
            assert(attr_infos_model(self.attributes@) =~= attr_infos_model(
                before.attributes@,
            ).push(attr_info_of(a@.head)));
            assert(attr_infos_of(more) =~= attr_infos_of(attrs).push(attr_info_of(a@.head)));
        }
        match a.head.type_code {
            Some(0x20) => {
                self.saw_attr_list = true;
                assert(more[attrs.len() as int].head.type_code == Some(0x20u32));
            },
            Some(0x10) => {
                if let AttrContent::StandardInfo(si) = &a.content {
                    self.standard_info = Some(StandardInfo::from_attr(si));
                }
            },
            Some(0x30) => {
                if let AttrContent::FileName(fna) = &a.content {
                    self.file_names.push(FileName::from_attr(fna));
                    assert(file_names_model(self.file_names@) =~= all_file_names(more));
                }
            },
            Some(0x80) => {
                let stream = data_stream(a, cap);
                if stream.name.is_none() {
                    self.data.primary = Some(stream);
                } else {
                    self.data.ads.push(stream);
                    assert(streams_model(self.data.ads@) =~= all_ads(more, cap));
                }
            },
            _ => {},
        }
        assert(self.saw_attr_list == has_attribute_list(more)) by {
            if before.saw_attr_list {
                let i = choose|i: int|
                    0 <= i < attrs.len() && (#[trigger] attrs[i]).head.type_code == Some(0x20u32);
                assert(more[i].head.type_code == Some(0x20u32));
            }
            if has_attribute_list(more) {
                let i = choose|i: int|
                    0 <= i < more.len() && (#[trigger] more[i]).head.type_code == Some(0x20u32);
                if i < attrs.len() {
                    assert(attrs[i].head.type_code == Some(0x20u32));
                }
            }
        }
    }
}

/// The diagnostics that the header alone gives.
fn header_problems(entry: &ParsedEntry) -> (r: Vec<String>)
    ensures
        texts(r@) == header_diagnostics(entry@),
{
    let mut out: Vec<String> = Vec::new();
    let sig = &entry.signature;
    let baad = sig[0] == 0x42 && sig[1] == 0x41 && sig[2] == 0x41 && sig[3] == 0x44;
    proof {
        let want = baad_signature();
        assert(want[0] == 0x42 && want[1] == 0x41 && want[2] == 0x41 && want[3] == 0x44);
        if baad {
            assert(entry@.signature =~= want);
        }
    }
    if baad {
        out.push("baad".to_string());
    }
    if let Some(false) = entry.valid_fixup {
        out.push("fixup-mismatch".to_string());
    }
    assert(texts(out@) =~= header_diagnostics(entry@));
    out
}

/// The first failure of a walk whose first `i` items are attributes and whose item
/// `i`, if any, is not.
proof fn lemma_ok_len(items: Seq<Result<ParsedAttrModel, Seq<char>>>, i: nat)
    requires
        i <= items.len(),
        forall|j: int| 0 <= j < i ==> (#[trigger] items[j]) is Ok,
        i < items.len() ==> items[i as int] is Err,
    ensures
        ok_len(items) == i,
    decreases i,
{
    if i > 0 {
        let rest = items.drop_first();
        assert forall|j: int| 0 <= j < i - 1 implies (#[trigger] rest[j]) is Ok by {
            assert(items[j + 1] is Ok);
        }
        assert(items[0] is Ok);
        lemma_ok_len(rest, (i - 1) as nat);
    }
}

/// Assemble the record of an entry from what the attribute parser yielded. The walk
/// ends at the first failure, which becomes a diagnostic.
pub fn assemble_record(
    entry: &ParsedEntry,
    items: &Vec<Result<ParsedAttr, String>>,
    resident_cap: usize,
) -> (r: DecodedRecord)
    requires
        known_signature(entry@.signature),
    ensures
        r@ == record_of_items(entry@, items_model(items@), resident_cap),
{
    let header = RecordHeader::from_entry(entry);
    let mut diagnostics = header_problems(entry);
    let mut parts = Parts::new(resident_cap);
    let ghost models = items_model(items@);
    let ghost mut attrs: Seq<ParsedAttrModel> = Seq::empty();
    let mut error: Option<String> = None;
    let mut i: usize = 0;
    while i < items.len()
        invariant_except_break
            error is None,
        invariant
            i <= items@.len(),
            models == items_model(items@),
            attrs.len() == i,
            forall|j: int| 0 <= j < i ==> #[trigger] models[j] == Ok::<ParsedAttrModel, Seq<char>>(
                attrs[j],
            ),
            parts.are_of(attrs, resident_cap),
        ensures
            i <= items@.len(),
            attrs.len() == i,
            forall|j: int| 0 <= j < i ==> #[trigger] models[j] == Ok::<ParsedAttrModel, Seq<char>>(
                attrs[j],
            ),
            parts.are_of(attrs, resident_cap),
            i < items@.len() ==> models[i as int] is Err && opt_text(error) == Some(
                models[i as int]->Err_0,
            ),
            i == items@.len() ==> error is None,
        decreases items@.len() - i,
    {
        match &items[i] {
            Ok(a) => {
                parts.take_in(a, resident_cap, Ghost(attrs));
                proof {
                    attrs = attrs.push(a@);
                }
            },
            Err(e) => {
                error = Some(e.clone());
                break;
            },
        }
        i = i + 1;
    }
    proof {
        assert forall|j: int| 0 <= j < i implies (#[trigger] models[j]) is Ok by {}
        lemma_ok_len(models, i as nat);
        assert(ok_items(models) =~= attrs);
    }
    let ghost before = texts(diagnostics@);
    if let Some(e) = &error {
        let mut text = "decode-error:".to_string();
        text.append(e.as_str());
        diagnostics.push(text);
    }
    if parts.saw_attr_list {
        diagnostics.push("attr-overflow".to_string());
    }
    assert(texts(diagnostics@) =~= before + walk_diagnostics(attrs, opt_text(error)));
    let r = DecodedRecord {
        entry: entry.record_number,
        sequence: header.sequence,
        in_use: header.in_use,
        is_dir: header.is_dir,
        base_ref: header.base_ref,
        lsn: header.lsn,
        hard_link_count: entry.hard_link_count,
        used_size: header.used_size,
        allocated_size: header.allocated_size,
        signature: header.signature,
        fixup_ok: entry.valid_fixup,
        standard_info: parts.standard_info,
        file_names: parts.file_names,
        data: parts.data,
        attributes: parts.attributes,
        diagnostics,
    };
    assert(r@ =~~= record_of(entry@, attrs, opt_text(error), resident_cap));
    r
}

/// The record of an entry whose attributes run out of bounds.
fn overrun(entry: &ParsedEntry) -> (r: DecodedRecord)
    requires
        known_signature(entry@.signature),
    ensures
        r@ == overrun_record(entry@),
{
    let header = RecordHeader::from_entry(entry);
    let mut diagnostics = header_problems(entry);
    let ghost before = texts(diagnostics@);
    diagnostics.push("attr-overrun".to_string());
    assert(texts(diagnostics@) =~= before.push("attr-overrun"@));
    let r = DecodedRecord {
        entry: entry.record_number,
        sequence: header.sequence,
        in_use: header.in_use,
        is_dir: header.is_dir,
        base_ref: header.base_ref,
        lsn: header.lsn,
        hard_link_count: entry.hard_link_count,
        used_size: header.used_size,
        allocated_size: header.allocated_size,
        signature: header.signature,
        fixup_ok: entry.valid_fixup,
        standard_info: None,
        file_names: Vec::new(),
        data: DataStreams::default(),
        attributes: Vec::new(),
        diagnostics,
    };
    assert(r@ =~~= overrun_record(entry@));
    r
}

/// The number of items is where the parser ends, or `count`.
proof fn lemma_item_count(data: Seq<u8>, first: u16, k: nat, len: nat, count: nat)
    requires
        items_end(data, first, len, count),
        k <= len,
    ensures
        item_count(data, first, k, count) == len,
    decreases len - k,
{
    if k < len {
        assert(attribute_item(data, first, k) is Some);
        lemma_item_count(data, first, k + 1, len, count);
    }
}

/// Parses the attributes of an entry up to the first hazardous one.
fn entry_attributes(entry: &ParsedEntry, count: usize) -> (r: Vec<Result<ParsedAttr, String>>)
    requires
        attributes_fit(entry@.data, entry@.first_attribute),
        count == safe_prefix(entry@.data, entry@.first_attribute as int, MAX_ATTRS as nat),
    ensures
        items_model(r@) == entry_items(entry@),
        r@.len() <= count,
{
    let items = read_attributes(&entry.data, entry.first_attribute, count);
    proof {
        lemma_item_count(entry@.data, entry.first_attribute, 0, items@.len(), count as nat);
        let models = items_model(items@);
        let named = entry_items(entry@);
        assert forall|i: int| 0 <= i < models.len() implies models[i] == named[i] by {
            assert(items_are(items@, entry@.data, entry.first_attribute, count as nat));
            let item = items@[i];
        }
        assert(models =~= named);
    }
    items
}

/// Tests whether the attribute walk of an entry comes back.
pub fn is_decodable(entry: &ParsedEntry) -> (r: bool)
    ensures
        r == decodable(entry@),
{
    if !attributes_within_bounds(entry.data.as_slice(), entry.first_attribute) {
        return true;
    }
    let safe = count_safe(entry.data.as_slice(), entry.first_attribute);
    if !safe.1 {
        return true;
    }
    let items = entry_attributes(entry, safe.0);
    proof {
        lemma_ok_len_bound(items_model(items@));
    }
    items.len() < safe.0 || !all_parsed(&items)
}

/// No more items are attributes than there are items.
proof fn lemma_ok_len_bound(items: Seq<Result<ParsedAttrModel, Seq<char>>>)
    ensures
        ok_len(items) <= items.len(),
    decreases items.len(),
{
    if items.len() > 0 && items[0] is Ok {
        lemma_ok_len_bound(items.drop_first());
    }
}

/// Tests whether no item of a walk is a failure.
fn all_parsed(items: &Vec<Result<ParsedAttr, String>>) -> (r: bool)
    ensures
        r == (ok_len(items_model(items@)) == items@.len()),
{
    let ghost models = items_model(items@);
    let mut i: usize = 0;
    while i < items.len()
        invariant
            i <= items@.len(),
            models == items_model(items@),
            forall|j: int| 0 <= j < i ==> (#[trigger] models[j]) is Ok,
        decreases items@.len() - i,
    {
        if let Err(_) = &items[i] {
            proof {
                assert(models[i as int] is Err);
                lemma_ok_len(models, i as nat);
            }
            return false;
        }
        assert(models[i as int] is Ok);
        i = i + 1;
    }
    proof {
        lemma_ok_len(models, i as nat);
    }
    true
}

/// Decode one parsed entry into a [`DecodedRecord`], capping inline resident-data
/// extraction at `resident_cap` bytes (a record claiming more is reported by size
/// but its bytes are not materialized past the cap).
pub fn decode_entry(entry: &ParsedEntry, resident_cap: usize) -> (r: DecodedRecord)
    requires
        known_signature(entry@.signature),
        decodable(entry@),
    ensures
        r@ == decoded(entry@, resident_cap),
{
    if !attributes_within_bounds(entry.data.as_slice(), entry.first_attribute) {
        return overrun(entry);
    }
    let safe = count_safe(entry.data.as_slice(), entry.first_attribute);
    let items = entry_attributes(entry, safe.0);
    assemble_record(entry, &items, resident_cap)
}

/// Default inline-resident extraction cap.
pub const RESIDENT_CAP: usize = DEFAULT_RESIDENT_CAP;

/// Inline data never exceeds the cap, in any stream of any record, and where anything
/// may be kept it is never empty.
pub proof fn law_inline_data_is_capped(e: EntryModel, cap: usize, i: int)
    requires
        0 <= i < decoded(e, cap).data.in_order().len(),
    ensures
        decoded(e, cap).data.in_order()[i].data matches Some(d) ==> d.len() <= cap && (cap > 0
            ==> d.len() > 0),
{
    if attributes_fit(e.data, e.first_attribute) {
        let attrs = ok_items(entry_items(e));
        lemma_primary_capped(attrs, cap);
        lemma_ads_capped(attrs, cap);
    }
}

/// A stream's inline data is within the cap.
spec fn capped(s: DataStreamModel, cap: usize) -> bool {
    s.data matches Some(d) ==> d.len() <= cap && (cap > 0 ==> d.len() > 0)
}

proof fn lemma_primary_capped(attrs: Seq<ParsedAttrModel>, cap: usize)
    ensures
        last_primary(attrs, cap) matches Some(p) ==> capped(p, cap),
    decreases attrs.len(),
{
    if attrs.len() > 0 {
        lemma_primary_capped(attrs.drop_last(), cap);
    }
}

proof fn lemma_ads_capped(attrs: Seq<ParsedAttrModel>, cap: usize)
    ensures
        forall|i: int| 0 <= i < all_ads(attrs, cap).len() ==> capped(#[trigger] all_ads(attrs, cap)[i], cap),
    decreases attrs.len(),
{
    if attrs.len() > 0 {
        let before = all_ads(attrs.drop_last(), cap);
        lemma_ads_capped(attrs.drop_last(), cap);
        assert forall|i: int| 0 <= i < all_ads(attrs, cap).len() implies capped(
            #[trigger] all_ads(attrs, cap)[i],
            cap,
        ) by {
            if i < before.len() {
                assert(all_ads(attrs, cap)[i] == before[i]);
            }
        }
    }
}

/// A stream of which at most `cap` inline bytes are kept.
pub open spec fn stream_cut(s: DataStreamModel, cap: usize) -> DataStreamModel {
    DataStreamModel {
        data: match s.data {
            Some(d) => if d.len() <= cap {
                Some(d)
            } else {
                Some(d.take(cap as int))
            },
            None => None,
        },
        ..s
    }
}

/// A record of whose streams at most `cap` inline bytes are kept, each.
pub open spec fn record_cut(r: RecordModel, cap: usize) -> RecordModel {
    RecordModel {
        data: DataStreamsModel {
            primary: match r.data.primary {
                Some(p) => Some(stream_cut(p, cap)),
                None => None,
            },
            ads: r.data.ads.map_values(|s: DataStreamModel| stream_cut(s, cap)),
        },
        ..r
    }
}

/// The cap decides on nothing but how many inline bytes are kept: under a smaller cap
/// a record is the same but for inline data, of which the first bytes are there, as
/// many as the cap allows. Sizes are reported in full.
pub proof fn law_cap_only_cuts_inline_data(e: EntryModel, cap: usize, wider: usize)
    requires
        cap <= wider,
    ensures
        decoded(e, cap) == record_cut(decoded(e, wider), cap),
{
    if attributes_fit(e.data, e.first_attribute) {
        lemma_streams_cut(ok_items(entry_items(e)), cap, wider);
    }
    assert(decoded(e, cap) =~~= record_cut(decoded(e, wider), cap));
}

proof fn lemma_stream_cut(a: ParsedAttrModel, cap: usize, wider: usize)
    requires
        cap <= wider,
    ensures
        stream_of(a, cap) == stream_cut(stream_of(a, wider), cap),
{
    if let AttrContentModel::Data(d) = a.content {
        if d.len() > wider {
            assert(d.take(wider as int).take(cap as int) =~= d.take(cap as int));
        }
    }
}

proof fn lemma_streams_cut(attrs: Seq<ParsedAttrModel>, cap: usize, wider: usize)
    requires
        cap <= wider,
    ensures
        last_primary(attrs, cap) == match last_primary(attrs, wider) {
            Some(p) => Some(stream_cut(p, cap)),
            None => None,
        },
        all_ads(attrs, cap) == all_ads(attrs, wider).map_values(
            |s: DataStreamModel| stream_cut(s, cap),
        ),
    decreases attrs.len(),
{
    if attrs.len() > 0 {
        lemma_stream_cut(attrs.last(), cap, wider);
        lemma_streams_cut(attrs.drop_last(), cap, wider);
    }
    assert(all_ads(attrs, cap) =~= all_ads(attrs, wider).map_values(
        |s: DataStreamModel| stream_cut(s, cap),
    ));
}

/// A non-resident stream has no inline data: only its sizes are reported.
pub proof fn law_nonresident_stream_has_no_data(e: EntryModel, cap: usize, i: int)
    requires
        0 <= i < decoded(e, cap).data.in_order().len(),
    ensures
        !decoded(e, cap).data.in_order()[i].resident ==> decoded(
            e,
            cap,
        ).data.in_order()[i].data is None,
{
    if attributes_fit(e.data, e.first_attribute) {
        let items = entry_items(e);
        let attrs = ok_items(items);
        lemma_ok_items(items);
        lemma_items_are_there(
            e.data,
            e.first_attribute,
            0,
            safe_prefix(e.data, e.first_attribute as int, MAX_ATTRS as nat),
        );
        assert forall|k: int| 0 <= k < attrs.len() implies content_inside(#[trigger] attrs[k]) by {
            assert(items[k] is Ok);
            assert(attribute_item(e.data, e.first_attribute, k as nat) is Some);
            law_nonresident_has_no_content(e.data, e.first_attribute, k as nat);
        }
        lemma_streams_inside(attrs, cap);
    }
}

/// Each of the items that are counted is there.
proof fn lemma_items_are_there(data: Seq<u8>, first: u16, k: nat, count: nat)
    ensures
        forall|i: nat|
            k <= i < item_count(data, first, k, count) ==> (#[trigger] attribute_item(
                data,
                first,
                i,
            )) is Some,
    decreases count - k,
{
    if k < count && attribute_item(data, first, k) is Some {
        lemma_items_are_there(data, first, k + 1, count);
    }
}

/// An attribute outside the record holds no content.
spec fn content_inside(a: ParsedAttrModel) -> bool {
    a.head.sizes is NonResident ==> a.content is Other
}

/// A stream outside the record has no inline data.
spec fn stream_inside(s: DataStreamModel) -> bool {
    !s.resident ==> s.data is None
}

/// The items before the first failure are attributes.
proof fn lemma_ok_items(items: Seq<Result<ParsedAttrModel, Seq<char>>>)
    ensures
        ok_len(items) <= items.len(),
        forall|k: int| 0 <= k < ok_len(items) ==> (#[trigger] items[k]) is Ok,
    decreases items.len(),
{
    if items.len() > 0 && items[0] is Ok {
        let rest = items.drop_first();
        lemma_ok_items(rest);
        assert forall|k: int| 0 <= k < ok_len(items) implies (#[trigger] items[k]) is Ok by {
            if k > 0 {
                assert(rest[k - 1] is Ok);
            }
        }
    }
}

proof fn lemma_streams_inside(attrs: Seq<ParsedAttrModel>, cap: usize)
    requires
        forall|k: int| 0 <= k < attrs.len() ==> content_inside(#[trigger] attrs[k]),
    ensures
        last_primary(attrs, cap) matches Some(p) ==> stream_inside(p),
        forall|i: int|
            0 <= i < all_ads(attrs, cap).len() ==> stream_inside(#[trigger] all_ads(attrs, cap)[i]),
    decreases attrs.len(),
{
    if attrs.len() > 0 {
        let front = attrs.drop_last();
        assert(content_inside(attrs.last()));
        assert forall|k: int| 0 <= k < front.len() implies content_inside(#[trigger] front[k]) by {
            assert(content_inside(attrs[k]));
        }
        lemma_streams_inside(front, cap);
        let before = all_ads(front, cap);
        assert forall|i: int| 0 <= i < all_ads(attrs, cap).len() implies stream_inside(
            #[trigger] all_ads(attrs, cap)[i],
        ) by {
            if i < before.len() {
                assert(all_ads(attrs, cap)[i] == before[i]);
            }
        }
    }
}

/// The primary stream has no name, and every alternate stream has one.
pub proof fn law_only_alternate_streams_are_named(e: EntryModel, cap: usize)
    ensures
        decoded(e, cap).data.primary matches Some(p) ==> p.name is None,
        forall|i: int|
            0 <= i < decoded(e, cap).data.ads.len() ==> (#[trigger] decoded(
                e,
                cap,
            ).data.ads[i]).name is Some,
{
    if attributes_fit(e.data, e.first_attribute) {
        let attrs = ok_items(entry_items(e));
        lemma_streams_named(attrs, cap);
    }
}

proof fn lemma_streams_named(attrs: Seq<ParsedAttrModel>, cap: usize)
    ensures
        last_primary(attrs, cap) matches Some(p) ==> p.name is None,
        forall|i: int|
            0 <= i < all_ads(attrs, cap).len() ==> (#[trigger] all_ads(attrs, cap)[i]).name is Some,
    decreases attrs.len(),
{
    if attrs.len() > 0 {
        lemma_streams_named(attrs.drop_last(), cap);
    }
}

/// A record is decoded from its own bytes alone, and carries the number it was parsed
/// under, whether or not its attributes could be read.
pub proof fn law_decoded_record_keeps_header(e: EntryModel, cap: usize)
    ensures
        decoded(e, cap).entry == e.record_number,
        decoded(e, cap).sequence == e.sequence,
        decoded(e, cap).in_use == header_of(e).in_use,
        decoded(e, cap).is_dir == header_of(e).is_dir,
        decoded(e, cap).fixup_ok == e.valid_fixup,
{
}

/// A decoded record has fewer `$DATA` streams than the walk has attributes.
pub proof fn lemma_decoded_streams(e: EntryModel, cap: usize)
    requires
        attributes_fit(e.data, e.first_attribute),
    ensures
        decoded(e, cap).data.in_order().len() < MAX_ATTRS,
{
    let items = entry_items(e);
    let count = safe_prefix(e.data, e.first_attribute as int, MAX_ATTRS as nat);
    lemma_ok_len_bound(items);
    lemma_item_count_bound(e.data, e.first_attribute, 0, count);
    crate::attribute::lemma_safe_prefix_bound(
        e.data,
        e.first_attribute as int,
        MAX_ATTRS as nat,
    );
    lemma_streams_of_attrs(ok_items(items), cap);
}

/// Each `$DATA` stream comes from an attribute of its own.
proof fn lemma_streams_of_attrs(attrs: Seq<ParsedAttrModel>, cap: usize)
    ensures
        all_ads(attrs, cap).len() + (if last_primary(attrs, cap) is Some {
            1int
        } else {
            0
        }) <= attrs.len(),
    decreases attrs.len(),
{
    if attrs.len() > 0 {
        lemma_streams_of_attrs(attrs.drop_last(), cap);
    }
}

/// No more items are yielded than were asked for.
proof fn lemma_item_count_bound(data: Seq<u8>, first: u16, k: nat, count: nat)
    requires
        k <= count,
    ensures
        item_count(data, first, k, count) <= count,
    decreases count - k,
{
    if k < count && attribute_item(data, first, k) is Some {
        lemma_item_count_bound(data, first, k + 1, count);
    }
}

/// A reported header is that of the entry, field by field: the signature as text, bit 0 of
/// the flags for a record in use, bit 1 for a directory, and the numbers as they are.
pub proof fn law_header_shows_the_entry(e: EntryModel)
    ensures
        ({
            let h = header_of(e);
            &&& h.signature.len() == e.signature.len()
            &&& forall|i: int|
                0 <= i < e.signature.len() ==> #[trigger] h.signature[i] == e.signature[i] as char
            &&& h.sequence == e.sequence
            &&& h.in_use <==> e.flags & 1 == 1
            &&& h.is_dir <==> e.flags & 2 == 2
            &&& h.base_ref == e.base_entry
            &&& h.lsn == e.lsn
            &&& h.used_size == e.used_size
            &&& h.allocated_size == e.allocated_size
        }),
{
    let flags = e.flags;
    assert(flags & 0x01 != 0 <==> flags & 1 == 1) by (bit_vector);
    assert(flags & 0x02 != 0 <==> flags & 2 == 2) by (bit_vector);
}

/// A decoded record shows the header of its entry, whether or not its attributes could be
/// read.
pub proof fn law_record_shows_the_header(e: EntryModel, cap: usize)
    ensures
        ({
            let r = decoded(e, cap);
            &&& r.entry == e.record_number
            &&& r.sequence == e.sequence
            &&& r.in_use <==> e.flags & 1 == 1
            &&& r.is_dir <==> e.flags & 2 == 2
            &&& r.base_ref == e.base_entry
            &&& r.lsn == e.lsn
            &&& r.hard_link_count == e.hard_link_count
            &&& r.used_size == e.used_size
            &&& r.allocated_size == e.allocated_size
            &&& r.signature == header_of(e).signature
            &&& r.fixup_ok == e.valid_fixup
        }),
{
    law_header_shows_the_entry(e);
}

/// A resident `$DATA` attribute yields a stream with its first bytes inline, exactly as
/// many as it has or the cap allows, and none where it is empty. Its sizes are the data
/// size, whatever the cap is.
pub proof fn law_resident_data_is_carved(a: ParsedAttrModel, d: Seq<u8>, size: u32, cap: usize)
    requires
        a.content == AttrContentModel::Data(d),
        a.head.sizes == (AttrSizes::Resident { data_size: size }),
    ensures
        ({
            let s = stream_of(a, cap);
            &&& s.resident
            &&& s.logical_size == size
            &&& s.physical_size == size
            &&& d.len() == 0 ==> s.data is None
            &&& d.len() > 0 ==> {
                &&& s.data matches Some(inline) && inline.len() == (if d.len() <= cap {
                    d.len()
                } else {
                    cap as nat
                })
                &&& forall|i: int|
                    0 <= i < d.len() && i < cap ==> #[trigger] s.data->0[i] == d[i]
            }
            &&& 0 < d.len() <= cap ==> s.data == Some(d)
        }),
{
}

/// A non-resident `$DATA` attribute yields a stream with the size of the file and of what
/// is allocated for it.
pub proof fn law_nonresident_data_is_sized(
    a: ParsedAttrModel,
    file_size: u64,
    allocated: u64,
    cap: usize,
)
    requires
        a.head.sizes == (AttrSizes::NonResident { file_size, allocated_length: allocated }),
    ensures
        !stream_of(a, cap).resident,
        stream_of(a, cap).logical_size == file_size,
        stream_of(a, cap).physical_size == allocated,
        a.content is Other ==> stream_of(a, cap).data is None,
{
}

/// A stream and an attribute listing bear the name of the attribute, and none where that
/// is empty.
pub proof fn law_attribute_name_is_kept(a: ParsedAttrModel, cap: usize)
    ensures
        a.head.name.len() == 0 ==> stream_of(a, cap).name is None && attr_info_of(a.head).name
            is None,
        a.head.name.len() > 0 ==> stream_of(a, cap).name == Some(a.head.name) && attr_info_of(
            a.head,
        ).name == Some(a.head.name),
{
}

/// A listed attribute shows its header: instance number, type code with its canonical
/// name, flags, residency and sizes.
pub proof fn law_listed_attribute_shows_its_header(head: AttrHeadModel, code: u32)
    requires
        head.type_code == Some(code),
    ensures
        ({
            let info = attr_info_of(head);
            &&& info.attribute_id == head.instance
            &&& info.type_id == code
            &&& info.type_label == type_label_of(code)
            &&& info.flags == head.flags
            &&& match head.sizes {
                AttrSizes::Resident { data_size } => {
                    &&& info.resident
                    &&& info.logical_size == data_size
                    &&& info.physical_size == data_size
                },
                AttrSizes::NonResident { file_size, allocated_length } => {
                    &&& !info.resident
                    &&& info.logical_size == file_size
                    &&& info.physical_size == allocated_length
                },
            }
        }),
{
}

/// One more attribute changes a record by what it holds and by nothing else. Every
/// attribute is listed. A `$STANDARD_INFORMATION` replaces the one before it, a
/// `$FILE_NAME` comes behind the names that are there, an unnamed `$DATA` replaces the
/// primary stream, and a named one comes behind the alternate streams.
pub proof fn law_each_attribute_adds_its_part(
    e: EntryModel,
    attrs: Seq<ParsedAttrModel>,
    a: ParsedAttrModel,
    error: Option<Seq<char>>,
    cap: usize,
)
    ensures
        ({
            let before = record_of(e, attrs, error, cap);
            let after = record_of(e, attrs.push(a), error, cap);
            let is_data = a.head.type_code == Some(0x80u32);
            &&& after.attributes == before.attributes.push(attr_info_of(a.head))
            &&& after.standard_info == (match (a.head.type_code, a.content) {
                (Some(0x10), AttrContentModel::StandardInfo(si)) => Some(standard_info_of(si)),
                _ => before.standard_info,
            })
            &&& after.file_names == (match (a.head.type_code, a.content) {
                (Some(0x30), AttrContentModel::FileName(f)) => before.file_names.push(
                    file_name_of(f),
                ),
                _ => before.file_names,
            })
            &&& after.data.primary == (if is_data && a.head.name.len() == 0 {
                Some(stream_of(a, cap))
            } else {
                before.data.primary
            })
            &&& after.data.ads == (if is_data && a.head.name.len() > 0 {
                before.data.ads.push(stream_of(a, cap))
            } else {
                before.data.ads
            })
        }),
{
    let more = attrs.push(a);
    assert(more.drop_last() =~= attrs);
    assert(attr_infos_of(more) =~= attr_infos_of(attrs).push(attr_info_of(a.head)));
}

/// A record without attributes has nothing of what attributes give.
pub proof fn law_record_without_attributes(e: EntryModel, error: Option<Seq<char>>, cap: usize)
    ensures
        ({
            let r = record_of(e, Seq::empty(), error, cap);
            &&& r.attributes.len() == 0
            &&& r.standard_info is None
            &&& r.file_names.len() == 0
            &&& r.data.primary is None
            &&& r.data.ads.len() == 0
        }),
{
}

/// The diagnostics of a record tell, in this order: that it is marked `BAAD`, that its
/// fixup did not match, why the attribute walk ended early, and that an attribute list
/// leads to other records. There are no others.
pub proof fn law_record_diagnostics(
    e: EntryModel,
    attrs: Seq<ParsedAttrModel>,
    error: Option<Seq<char>>,
    cap: usize,
)
    ensures
        ({
            let one = |yes: bool, token: Seq<char>|
                if yes {
                    seq![token]
                } else {
                    Seq::empty()
                };
            record_of(e, attrs, error, cap).diagnostics == one(
                e.signature == seq![0x42u8, 0x41, 0x41, 0x44],
                "baad"@,
            ) + one(e.valid_fixup == Some(false), "fixup-mismatch"@) + (match error {
                Some(m) => seq!["decode-error:"@ + m],
                None => Seq::empty(),
            }) + one(
                exists|i: int|
                    0 <= i < attrs.len() && (#[trigger] attrs[i]).head.type_code == Some(0x20u32),
                "attr-overflow"@,
            )
        }),
{
    let one = |yes: bool, token: Seq<char>|
        if yes {
            seq![token]
        } else {
            Seq::empty()
        };
    assert(baad_signature() =~= seq![0x42u8, 0x41, 0x41, 0x44]);
    assert(record_of(e, attrs, error, cap).diagnostics =~= one(
        e.signature == seq![0x42u8, 0x41, 0x41, 0x44],
        "baad"@,
    ) + one(e.valid_fixup == Some(false), "fixup-mismatch"@) + (match error {
        Some(m) => seq!["decode-error:"@ + m],
        None => Seq::empty(),
    }) + one(
        exists|i: int|
            0 <= i < attrs.len() && (#[trigger] attrs[i]).head.type_code == Some(0x20u32),
        "attr-overflow"@,
    ));
}

/// A walk takes in every attribute up to the first failure, and none behind it.
pub proof fn law_walk_ends_at_the_first_failure(
    e: EntryModel,
    attrs: Seq<ParsedAttrModel>,
    m: Seq<char>,
    behind: Seq<Result<ParsedAttrModel, Seq<char>>>,
    cap: usize,
)
    ensures
        ({
            let good = attrs.map_values(|a: ParsedAttrModel| Ok::<ParsedAttrModel, Seq<char>>(a));
            &&& record_of_items(e, good, cap) == record_of(e, attrs, None, cap)
            &&& record_of_items(e, good.push(Err(m)) + behind, cap) == record_of(
                e,
                attrs,
                Some(m),
                cap,
            )
        }),
{
    let good = attrs.map_values(|a: ParsedAttrModel| Ok::<ParsedAttrModel, Seq<char>>(a));
    let all = good.push(Err(m)) + behind;
    assert forall|j: int| 0 <= j < attrs.len() implies (#[trigger] all[j]) is Ok by {
        assert(all[j] == good[j]);
    }
    lemma_ok_len(good, attrs.len());
    lemma_ok_len(all, attrs.len());
    assert(ok_items(good) =~= attrs);
    assert(ok_items(all) =~= attrs) by {
        assert forall|j: int| 0 <= j < attrs.len() implies #[trigger] all[j] == good[j] by {}
    }
}

/// Where an attribute runs out of bounds none is read: the record has its header, no
/// attribute, name or stream, and a diagnostic that says so behind those of the header.
pub proof fn law_overrun_record_is_its_header(e: EntryModel, cap: usize)
    requires
        !attributes_fit(e.data, e.first_attribute),
    ensures
        ({
            let r = decoded(e, cap);
            &&& r.attributes.len() == 0
            &&& r.standard_info is None
            &&& r.file_names.len() == 0
            &&& r.data.primary is None
            &&& r.data.ads.len() == 0
            &&& r.diagnostics == record_of(e, Seq::empty(), None, cap).diagnostics.push(
                "attr-overrun"@,
            )
        }),
{
    assert(walk_diagnostics(Seq::empty(), None) =~= Seq::empty());
    assert(header_diagnostics(e) + walk_diagnostics(Seq::empty(), None) =~= header_diagnostics(e));
}

/// Where the attributes fit, a record is what the attribute parser yields for it: item
/// after item from the first one on, up to the first that the parser cannot be handed.
pub proof fn law_record_is_what_the_parser_yields(e: EntryModel, cap: usize, k: nat)
    requires
        attributes_fit(e.data, e.first_attribute),
        k < entry_items(e).len(),
    ensures
        decoded(e, cap) == record_of_items(e, entry_items(e), cap),
        attribute_item(e.data, e.first_attribute, k) == Some(entry_items(e)[k as int]),
        entry_items(e).len() <= safe_prefix(e.data, e.first_attribute as int, 256),
{
    let count = safe_prefix(e.data, e.first_attribute as int, MAX_ATTRS as nat);
    lemma_items_are_there(e.data, e.first_attribute, 0, count);
    lemma_item_count_bound(e.data, e.first_attribute, 0, count);
}

/// A slot that could not be decoded has its number and its diagnostic, and nothing else.
pub proof fn law_diagnostic_record_is_bare(entry: u64, diagnostic: Seq<char>)
    ensures
        ({
            let r = diagnostic_model(entry, diagnostic);
            &&& r.entry == entry
            &&& r.diagnostics == seq![diagnostic]
            &&& !r.in_use && !r.is_dir
            &&& r.sequence == 0 && r.hard_link_count == 0 && r.base_ref == 0 && r.lsn == 0
            &&& r.used_size == 0 && r.allocated_size == 0
            &&& r.signature.len() == 0
            &&& r.fixup_ok is None
            &&& r.standard_info is None
            &&& r.file_names.len() == 0
            &&& r.attributes.len() == 0
            &&& r.data.primary is None
            &&& r.data.ads.len() == 0
        }),
{
}

/// The diagnostics of a record are one text, comma-separated, and none on a clean parse.
pub proof fn law_diagnostics_are_one_text(r: RecordModel)
    ensures
        r.diagnostics_text() is None <==> r.diagnostics.len() == 0,
        r.diagnostics.len() == 1 ==> r.diagnostics_text() == Some(r.diagnostics[0]),
        r.diagnostics.len() > 1 ==> r.diagnostics_text() == Some(
            diagnostics_joined(r.diagnostics.drop_last())->0 + seq![','] + r.diagnostics.last(),
        ),
{
    reveal_strlit(",");
    assert(","@ =~= seq![',']);
}

/// A walk comes back wherever no attribute is hazardous, and wherever none is parsed; a
/// hazardous one keeps it from coming back only where no failure comes first.
pub proof fn law_harmless_record_is_decodable(e: EntryModel)
    ensures
        !attributes_fit(e.data, e.first_attribute) ==> decodable(e),
        !has_hazard(e.data, e.first_attribute as int, 256) ==> decodable(e),
        !decodable(e) ==> forall|i: int|
            0 <= i < entry_items(e).len() ==> (#[trigger] entry_items(e)[i]) is Ok,
{
    if !decodable(e) {
        let items = entry_items(e);
        let count = safe_prefix(e.data, e.first_attribute as int, MAX_ATTRS as nat);
        lemma_ok_items(items);
        lemma_item_count_bound(e.data, e.first_attribute, 0, count);
        assert forall|i: int| 0 <= i < items.len() implies (#[trigger] items[i]) is Ok by {
            assert(i < ok_len(items));
        }
    }
}

/// A header and its contents are the same value.
pub proof fn law_header_contents(h: RecordHeader)
    ensures
        h@.signature == h.signature@ && h@.sequence == h.sequence,
        h@.in_use == h.in_use && h@.is_dir == h.is_dir,
        h@.base_ref == h.base_ref && h@.lsn == h.lsn,
        h@.used_size == h.used_size && h@.allocated_size == h.allocated_size,
{
}

/// A decoded record and its contents are the same value, name by name, stream by stream
/// and attribute by attribute.
pub proof fn law_record_contents(r: DecodedRecord, i: int)
    ensures
        r@.entry == r.entry && r@.sequence == r.sequence,
        r@.in_use == r.in_use && r@.is_dir == r.is_dir,
        r@.base_ref == r.base_ref && r@.lsn == r.lsn,
        r@.hard_link_count == r.hard_link_count,
        r@.used_size == r.used_size && r@.allocated_size == r.allocated_size,
        r@.signature == r.signature@ && r@.fixup_ok == r.fixup_ok,
        r@.standard_info == r.standard_info,
        r@.data == r.data@,
        r@.file_names.len() == r.file_names@.len(),
        r@.attributes.len() == r.attributes@.len(),
        r@.diagnostics.len() == r.diagnostics@.len(),
        0 <= i < r.file_names@.len() ==> r@.file_names[i] == r.file_names@[i]@,
        0 <= i < r.attributes@.len() ==> r@.attributes[i] == r.attributes@[i]@,
        0 <= i < r.diagnostics@.len() ==> r@.diagnostics[i] == r.diagnostics@[i]@,
{
}

} // verus!
