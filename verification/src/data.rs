//! `$DATA` (type `0x80`) streams and the generic attribute view.
//!
//! The unnamed `$DATA` is the file content (resident small files extracted
//! inline; non-resident: size only, the runlist is not followed). A **named**
//! `$DATA` is an alternate data stream (ADS).

use vstd::prelude::*;

use crate::errors::opt_text;
use crate::text::{chars_of, decimal, decimal_string, join, joined, texts};

verus! {

/// The default size cap (1 MiB) on inline resident-data extraction. A record
/// claiming more is reported by size but its bytes are not materialized past
/// the cap.
pub const DEFAULT_RESIDENT_CAP: usize = 1024 * 1024;

/// One `$DATA` stream: the primary unnamed stream (`name == None`) or an ADS.
#[derive(Clone, Debug, PartialEq, Eq)]
pub struct DataStream {
    /// `None` for the primary unnamed `$DATA`; `Some(name)` for an ADS.
    pub name: Option<String>,
    pub logical_size: u64,
    pub physical_size: u64,
    pub resident: bool,
    /// Inline bytes when resident (size-capped); `None` when non-resident.
    pub data: Option<Vec<u8>>,
}

/// The contents of a [`DataStream`].
pub struct DataStreamModel {
    pub name: Option<Seq<char>>,
    pub logical_size: u64,
    pub physical_size: u64,
    pub resident: bool,
    pub data: Option<Seq<u8>>,
}

/// The bytes of an optional buffer.
pub open spec fn opt_bytes(b: Option<Vec<u8>>) -> Option<Seq<u8>> {
    match b {
        Some(v) => Some(v@),
        None => None,
    }
}

/// The bytes of an optional slice.
pub open spec fn opt_slice_bytes(b: Option<&[u8]>) -> Option<Seq<u8>> {
    match b {
        Some(v) => Some(v@),
        None => None,
    }
}

impl View for DataStream {
    type V = DataStreamModel;

    open spec fn view(&self) -> DataStreamModel {
        DataStreamModel {
            name: opt_text(self.name),
            logical_size: self.logical_size,
            physical_size: self.physical_size,
            resident: self.resident,
            data: opt_bytes(self.data),
        }
    }
}

/// All `$DATA` streams of a record: the primary (if present) and every ADS.
#[derive(Clone, Debug, PartialEq, Eq)]
pub struct DataStreams {
    pub primary: Option<DataStream>,
    pub ads: Vec<DataStream>,
}

/// The contents of a [`DataStreams`].
#[verifier::ext_equal]
pub struct DataStreamsModel {
    pub primary: Option<DataStreamModel>,
    pub ads: Seq<DataStreamModel>,
}

/// The contents of a list of streams.
pub open spec fn streams_model(s: Seq<DataStream>) -> Seq<DataStreamModel> {
    s.map_values(|d: DataStream| d@)
}

impl View for DataStreams {
    type V = DataStreamsModel;

    open spec fn view(&self) -> DataStreamsModel {
        DataStreamsModel {
            primary: match self.primary {
                Some(p) => Some(p@),
                None => None,
            },
            ads: streams_model(self.ads@),
        }
    }
}

/// The streams of a record without any.
pub open spec fn no_streams() -> DataStreamsModel {
    DataStreamsModel { primary: None, ads: Seq::empty() }
}

impl DataStreamsModel {
    /// The primary stream's logical size, or 0 when absent.
    pub open spec fn logical_size(self) -> u64 {
        match self.primary {
            Some(p) => p.logical_size,
            None => 0,
        }
    }

    /// The primary stream's physical (allocated) size, or 0 when absent.
    pub open spec fn physical_size(self) -> u64 {
        match self.primary {
            Some(p) => p.physical_size,
            None => 0,
        }
    }

    /// The primary resident bytes, if there are any.
    pub open spec fn resident_bytes(self) -> Option<Seq<u8>> {
        match self.primary {
            Some(p) => p.data,
            None => None,
        }
    }

    /// Every stream in emission order: primary first, then each ADS.
    pub open spec fn in_order(self) -> Seq<DataStreamModel> {
        match self.primary {
            Some(p) => seq![p] + self.ads,
            None => self.ads,
        }
    }
}

impl Default for DataStreams {
    fn default() -> (r: Self)
        ensures
            r@ == no_streams(),
    {
        DataStreams { primary: None, ads: Vec::new() }
    }
}

impl DataStreams {
    /// The primary stream's logical size, or 0 when absent.
    pub fn logical_size(&self) -> (r: u64)
        ensures
            r == self@.logical_size(),
    {
        match &self.primary {
            Some(d) => d.logical_size,
            None => 0,
        }
    }

    /// The primary stream's physical (allocated) size, or 0 when absent.
    pub fn physical_size(&self) -> (r: u64)
        ensures
            r == self@.physical_size(),
    {
        match &self.primary {
            Some(d) => d.physical_size,
            None => 0,
        }
    }

    /// The primary resident bytes, if resident.
    pub fn resident_bytes(&self) -> (r: Option<&[u8]>)
        ensures
            opt_slice_bytes(r) == self@.resident_bytes(),
    {
        match &self.primary {
            Some(d) => match &d.data {
                Some(b) => Some(b.as_slice()),
                None => None,
            },
            None => None,
        }
    }

    /// Every stream in emission order: primary first, then each ADS.
    pub fn iter(&self) -> (r: Vec<&DataStream>)
        ensures
            r@.map_values(|d: &DataStream| d@) == self@.in_order(),
    {
        let mut out: Vec<&DataStream> = Vec::new();
        if let Some(p) = &self.primary {
            out.push(p);
        }
        let ghost head = out@;
        let mut i: usize = 0;
        while i < self.ads.len()
            invariant
                i <= self.ads@.len(),
                out@.len() == head.len() + i,
                forall|j: int| 0 <= j < head.len() ==> out@[j] == head[j],
                forall|j: int| 0 <= j < i ==> *out@[head.len() + j] == self.ads@[j],
            decreases self.ads@.len() - i,
        {
            out.push(&self.ads[i]);
            i = i + 1;
        }
        proof {
            let got = out@.map_values(|d: &DataStream| d@);
            let want = self@.in_order();
            assert(got.len() == want.len());
            assert forall|j: int| 0 <= j < got.len() implies got[j] == want[j] by {
                if j >= head.len() {
                    let k = j - head.len();
                    assert(*out@[head.len() + k] == self.ads@[k]);
                    assert(self@.ads[k] == self.ads@[k]@);
                } else {
                    assert(out@[j] == head[j]);
                }
            }
            assert(got =~= want);
        }
        out
    }
}

/// A generic per-attribute view, one per attribute in a record.
#[derive(Clone, Debug, PartialEq, Eq)]
pub struct AttrInfo {
    pub attribute_id: u16,
    pub type_id: u32,
    pub type_label: String,
    pub resident: bool,
    /// The attribute name (e.g. an ADS name); `None` when unnamed.
    pub name: Option<String>,
    pub logical_size: u64,
    pub physical_size: u64,
    pub flags: u16,
}

/// The contents of an [`AttrInfo`].
pub struct AttrInfoModel {
    pub attribute_id: u16,
    pub type_id: u32,
    pub type_label: Seq<char>,
    pub resident: bool,
    pub name: Option<Seq<char>>,
    pub logical_size: u64,
    pub physical_size: u64,
    pub flags: u16,
}

impl View for AttrInfo {
    type V = AttrInfoModel;

    open spec fn view(&self) -> AttrInfoModel {
        AttrInfoModel {
            attribute_id: self.attribute_id,
            type_id: self.type_id,
            type_label: self.type_label@,
            resident: self.resident,
            name: opt_text(self.name),
            logical_size: self.logical_size,
            physical_size: self.physical_size,
            flags: self.flags,
        }
    }
}

/// The contents of a list of attribute views.
pub open spec fn attr_infos_model(s: Seq<AttrInfo>) -> Seq<AttrInfoModel> {
    s.map_values(|a: AttrInfo| a@)
}

/// The canonical `$NAME` of an NTFS attribute type code.
pub open spec fn type_label_of(type_id: u32) -> Seq<char> {
    if type_id == 0x10 {
        "$STANDARD_INFORMATION"@
    } else if type_id == 0x20 {
        "$ATTRIBUTE_LIST"@
    } else if type_id == 0x30 {
        "$FILE_NAME"@
    } else if type_id == 0x40 {
        "$OBJECT_ID"@
    } else if type_id == 0x50 {
        "$SECURITY_DESCRIPTOR"@
    } else if type_id == 0x60 {
        "$VOLUME_NAME"@
    } else if type_id == 0x70 {
        "$VOLUME_INFORMATION"@
    } else if type_id == 0x80 {
        "$DATA"@
    } else if type_id == 0x90 {
        "$INDEX_ROOT"@
    } else if type_id == 0xA0 {
        "$INDEX_ALLOCATION"@
    } else if type_id == 0xB0 {
        "$BITMAP"@
    } else if type_id == 0xC0 {
        "$REPARSE_POINT"@
    } else if type_id == 0xD0 {
        "$EA_INFORMATION"@
    } else if type_id == 0xE0 {
        "$EA"@
    } else if type_id == 0x100 {
        "$LOGGED_UTILITY_STREAM"@
    } else {
        "$UNKNOWN"@
    }
}

/// The canonical `$NAME` of an NTFS attribute type code.
pub fn attribute_type_name(type_id: u32) -> (r: &'static str)
    ensures
        r@ == type_label_of(type_id),
{
    match type_id {
        0x10 => "$STANDARD_INFORMATION",
        0x20 => "$ATTRIBUTE_LIST",
        0x30 => "$FILE_NAME",
        0x40 => "$OBJECT_ID",
        0x50 => "$SECURITY_DESCRIPTOR",
        0x60 => "$VOLUME_NAME",
        0x70 => "$VOLUME_INFORMATION",
        0x80 => "$DATA",
        0x90 => "$INDEX_ROOT",
        0xA0 => "$INDEX_ALLOCATION",
        0xB0 => "$BITMAP",
        0xC0 => "$REPARSE_POINT",
        0xD0 => "$EA_INFORMATION",
        0xE0 => "$EA",
        0x100 => "$LOGGED_UTILITY_STREAM",
        _ => "$UNKNOWN",
    }
}

/// What an attribute of a standard type stores; nothing for another type.
pub open spec fn purpose_of(type_id: u32) -> Seq<char> {
    if type_id == 0x10 {
        "Standard information: the SI MACB timestamp quad, DOS file attributes, USN, and quota/security ids. User-writable, so it is what the timestomp heuristic watches."@
    } else if type_id == 0x20 {
        "A pointer list to attributes held in other FILE records, used when a single record overflows."@
    } else if type_id == 0x30 {
        "A name (Win32, DOS 8.3, or POSIX namespace), the parent-directory reference used to reconstruct paths, and the kernel-only FN MACB quad."@
    } else if type_id == 0x40 {
        "The 64-bit object id / distributed-link-tracking GUID."@
    } else if type_id == 0x50 {
        "A per-file security descriptor (modern volumes centralize these in the $Secure metafile)."@
    } else if type_id == 0x60 {
        "The volume label (carried by the $Volume metadata file)."@
    } else if type_id == 0x70 {
        "The NTFS version and the volume dirty/state flags (carried by $Volume)."@
    } else if type_id == 0x80 {
        "File content: the unnamed primary stream plus any named alternate data streams (ADS)."@
    } else if type_id == 0x90 {
        "The resident root of a B-tree index — directory entries and other indexes."@
    } else if type_id == 0xA0 {
        "The non-resident B-tree blocks of a large index, such as a big directory."@
    } else if type_id == 0xB0 {
        "An allocation bitmap for the $MFT itself or for an index allocation."@
    } else if type_id == 0xC0 {
        "Reparse data: symbolic links, junctions, mount points, and filter-driver tags."@
    } else if type_id == 0xD0 {
        "Size and packing metadata for extended attributes."@
    } else if type_id == 0xE0 {
        "Extended-attribute name/value pairs (OS/2 and application metadata)."@
    } else if type_id == 0x100 {
        "A logged stream used by EFS ($EFS encryption metadata) and other utilities."@
    } else {
        ""@
    }
}

/// What an attribute of a standard type stores; nothing for another type.
fn attribute_purpose(type_id: u32) -> (r: &'static str)
    ensures
        r@ == purpose_of(type_id),
{
    match type_id {
        0x10 => "Standard information: the SI MACB timestamp quad, DOS file attributes, USN, and quota/security ids. User-writable, so it is what the timestomp heuristic watches.",
        0x20 => "A pointer list to attributes held in other FILE records, used when a single record overflows.",
        0x30 => "A name (Win32, DOS 8.3, or POSIX namespace), the parent-directory reference used to reconstruct paths, and the kernel-only FN MACB quad.",
        0x40 => "The 64-bit object id / distributed-link-tracking GUID.",
        0x50 => "A per-file security descriptor (modern volumes centralize these in the $Secure metafile).",
        0x60 => "The volume label (carried by the $Volume metadata file).",
        0x70 => "The NTFS version and the volume dirty/state flags (carried by $Volume).",
        0x80 => "File content: the unnamed primary stream plus any named alternate data streams (ADS).",
        0x90 => "The resident root of a B-tree index — directory entries and other indexes.",
        0xA0 => "The non-resident B-tree blocks of a large index, such as a big directory.",
        0xB0 => "An allocation bitmap for the $MFT itself or for an index allocation.",
        0xC0 => "Reparse data: symbolic links, junctions, mount points, and filter-driver tags.",
        0xD0 => "Size and packing metadata for extended attributes.",
        0xE0 => "Extended-attribute name/value pairs (OS/2 and application metadata).",
        0x100 => "A logged stream used by EFS ($EFS encryption metadata) and other utilities.",
        _ => "",
    }
}

/// The `i`-th standard attribute type code: every sixteenth up to `$EA`, then
/// `$LOGGED_UTILITY_STREAM`.
pub open spec fn standard_type(i: int) -> int {
    if i < 14 {
        0x10 * (i + 1)
    } else {
        0x100
    }
}

/// The registry of the standard attribute types, lowest code first: code, canonical
/// name and purpose.
pub fn attribute_types() -> (r: Vec<(u32, &'static str, &'static str)>)
    ensures
        r@.len() == 15,
        forall|i: int|
            0 <= i < r@.len() ==> {
                &&& (#[trigger] r@[i]).0 == standard_type(i)
                &&& r@[i].1@ == type_label_of(r@[i].0)
                &&& r@[i].2@ == purpose_of(r@[i].0)
            },
{
    let mut out: Vec<(u32, &'static str, &'static str)> = Vec::new();
    let mut i: u32 = 0;
    while i < 15
        invariant
            i <= 15,
            out@.len() == i,
            forall|j: int|
                0 <= j < i ==> {
                    &&& (#[trigger] out@[j]).0 == standard_type(j)
                    &&& out@[j].1@ == type_label_of(out@[j].0)
                    &&& out@[j].2@ == purpose_of(out@[j].0)
                },
        decreases 15 - i,
    {
        let code: u32 = if i < 14 {
            0x10 * (i + 1)
        } else {
            0x100
        };
        out.push((code, attribute_type_name(code), attribute_purpose(code)));
        i = i + 1;
    }
    out
}

/// The registry names every standard attribute type and no other: a code has a name of
/// its own exactly where the registry lists it.
pub proof fn law_registry_is_complete(type_id: u32)
    ensures
        type_label_of(type_id) != "$UNKNOWN"@ <==> exists|i: int|
            0 <= i < 15 && #[trigger] standard_type(i) == type_id,
{
    reveal_strlit("$STANDARD_INFORMATION");
    reveal_strlit("$ATTRIBUTE_LIST");
    reveal_strlit("$FILE_NAME");
    reveal_strlit("$OBJECT_ID");
    reveal_strlit("$SECURITY_DESCRIPTOR");
    reveal_strlit("$VOLUME_NAME");
    reveal_strlit("$VOLUME_INFORMATION");
    reveal_strlit("$DATA");
    reveal_strlit("$INDEX_ROOT");
    reveal_strlit("$INDEX_ALLOCATION");
    reveal_strlit("$BITMAP");
    reveal_strlit("$REPARSE_POINT");
    reveal_strlit("$EA_INFORMATION");
    reveal_strlit("$EA");
    reveal_strlit("$LOGGED_UTILITY_STREAM");
    reveal_strlit("$UNKNOWN");
    let code = type_id as int;
    let i: int = if code == 0x100 {
        14
    } else {
        code / 0x10 - 1
    };
    if type_label_of(type_id) != "$UNKNOWN"@ {
        assert(standard_type(i) == type_id);
    }
    if exists|j: int| 0 <= j < 15 && #[trigger] standard_type(j) == type_id {
        let j = choose|j: int| 0 <= j < 15 && #[trigger] standard_type(j) == type_id;
        assert(type_label_of(type_id).len() != 8 || type_label_of(type_id)[1] != 'U');
    }
}

/// A text inside an SQL literal: every quote is doubled.
pub open spec fn sql_escaped(s: Seq<char>) -> Seq<char>
    decreases s.len(),
{
    if s.len() == 0 {
        Seq::empty()
    } else if s.last() == '\'' {
        sql_escaped(s.drop_last()) + seq!['\'', '\'']
    } else {
        sql_escaped(s.drop_last()).push(s.last())
    }
}

/// A text as an SQL literal.
pub open spec fn sql_literal(s: Seq<char>) -> Seq<char> {
    "'"@ + sql_escaped(s) + "'"@
}

/// A text as an SQL literal.
fn quote_sql(s: &str) -> (r: String)
    ensures
        r@ == sql_literal(s@),
{
    let chars = chars_of(s);
    let mut body = String::new();
    let mut i: usize = 0;
    assert(chars@.take(0) =~= Seq::empty());
    while i < chars.len()
        invariant
            i <= chars@.len(),
            body@ == sql_escaped(chars@.take(i as int)),
        decreases chars@.len() - i,
    {
        let c: char = chars[i];
        proof {
            let more = chars@.take(i + 1);
            assert(more.drop_last() =~= chars@.take(i as int));
            assert(more.last() == c);
        }
        let ghost before = body@;
        body.push(c);
        if c == '\'' {
            body.push(c);
            assert(body@ =~= before + seq!['\'', '\'']);
        }
        i = i + 1;
    }
    assert(chars@.take(i as int) =~= chars@);
    let mut out = "'".to_string();
    out.append(body.as_str());
    out.append("'");
    out
}

/// Row `i` of the registry as a row of an SQL `VALUES` list. The code is cast in the
/// first row, so that the column has the type of the `type_id` column of the
/// attribute rows.
pub open spec fn registry_row(i: int) -> Seq<char> {
    let code = standard_type(i) as u32;
    let cast = if i == 0 {
        "::UINTEGER, "@
    } else {
        ", "@
    };
    "  ("@ + decimal(code as nat) + cast + sql_literal(type_label_of(code)) + ", "@ + sql_literal(
        purpose_of(code),
    ) + ")"@
}

/// The registry as an SQL query.
pub open spec fn registry_sql() -> Seq<char> {
    "SELECT * FROM (VALUES\n"@ + joined(Seq::new(15, |i: int| registry_row(i)), ",\n"@)
        + "\n) AS t(type_id, type_name, purpose)"@
}

/// The registry of the standard attribute types as an SQL query: one row per type, with
/// its code, its name and its purpose.
pub fn attribute_types_sql() -> (r: String)
    ensures
        r@ == registry_sql(),
{
    let types = attribute_types();
    let mut rows: Vec<String> = Vec::new();
    let mut i: usize = 0;
    while i < types.len()
        invariant
            i <= types@.len(),
            types@.len() == 15,
            forall|j: int|
                0 <= j < types@.len() ==> {
                    &&& (#[trigger] types@[j]).0 == standard_type(j)
                    &&& types@[j].1@ == type_label_of(types@[j].0)
                    &&& types@[j].2@ == purpose_of(types@[j].0)
                },
            rows@.len() == i,
            forall|j: int| 0 <= j < i ==> (#[trigger] rows@[j])@ == registry_row(j),
        decreases types@.len() - i,
    {
        let (code, name, purpose) = types[i];
        let mut row = "  (".to_string();
        row.append(decimal_string(code as u64).as_str());
        row.append(if i == 0 {
            "::UINTEGER, "
        } else {
            ", "
        });
        row.append(quote_sql(name).as_str());
        row.append(", ");
        row.append(quote_sql(purpose).as_str());
        row.append(")");
        rows.push(row);
        i = i + 1;
    }
    assert(texts(rows@) =~= Seq::new(15, |i: int| registry_row(i)));
    let mut out = "SELECT * FROM (VALUES\n".to_string();
    out.append(join(&rows, ",\n").as_str());
    out.append("\n) AS t(type_id, type_name, purpose)");
    out
}

/// The canonical names of the attribute types, and one name for every other code.
pub proof fn law_attribute_type_names(code: u32)
    ensures
        type_label_of(0x10) == "$STANDARD_INFORMATION"@,
        type_label_of(0x20) == "$ATTRIBUTE_LIST"@,
        type_label_of(0x30) == "$FILE_NAME"@,
        type_label_of(0x40) == "$OBJECT_ID"@,
        type_label_of(0x50) == "$SECURITY_DESCRIPTOR"@,
        type_label_of(0x60) == "$VOLUME_NAME"@,
        type_label_of(0x70) == "$VOLUME_INFORMATION"@,
        type_label_of(0x80) == "$DATA"@,
        type_label_of(0x90) == "$INDEX_ROOT"@,
        type_label_of(0xA0) == "$INDEX_ALLOCATION"@,
        type_label_of(0xB0) == "$BITMAP"@,
        type_label_of(0xC0) == "$REPARSE_POINT"@,
        type_label_of(0xD0) == "$EA_INFORMATION"@,
        type_label_of(0xE0) == "$EA"@,
        type_label_of(0x100) == "$LOGGED_UTILITY_STREAM"@,
        !(code % 0x10 == 0 && 0x10 <= code <= 0xE0 || code == 0x100) ==> type_label_of(code)
            == "$UNKNOWN"@,
{
}

/// The size and the bytes of a record's content are those of its primary stream; without
/// one they are zero and none. Alternate streams do not count.
pub proof fn law_content_is_the_primary_stream(d: DataStreamsModel)
    ensures
        match d.primary {
            Some(p) => d.logical_size() == p.logical_size && d.physical_size() == p.physical_size
                && d.resident_bytes() == p.data,
            None => d.logical_size() == 0 && d.physical_size() == 0 && d.resident_bytes() is None,
        },
{
}

/// The streams come in one order, none left out: the primary one first where there is one,
/// then the alternate ones as they stand.
pub proof fn law_streams_come_in_order(d: DataStreamsModel, i: int)
    requires
        0 <= i < d.ads.len(),
    ensures
        match d.primary {
            Some(p) => d.in_order().len() == 1 + d.ads.len() && d.in_order()[0] == p
                && d.in_order()[1 + i] == d.ads[i],
            None => d.in_order().len() == d.ads.len() && d.in_order()[i] == d.ads[i],
        },
{
}

/// Without alternate streams there is the primary one, or none.
pub proof fn law_primary_stream_alone(d: DataStreamsModel)
    requires
        d.ads.len() == 0,
    ensures
        match d.primary {
            Some(p) => d.in_order() == seq![p],
            None => d.in_order().len() == 0,
        },
{
    if let Some(p) = d.primary {
        assert(d.in_order() =~= seq![p]);
    }
}

/// A stream and its contents are the same value.
pub proof fn law_stream_contents(s: DataStream)
    ensures
        s@.name == opt_text(s.name) && s@.resident == s.resident,
        s@.logical_size == s.logical_size && s@.physical_size == s.physical_size,
        s@.data == opt_bytes(s.data),
        s.data is None <==> s@.data is None,
        s.data matches Some(d) ==> s@.data == Some(d@),
        s.name is None <==> s@.name is None,
        s.name matches Some(n) ==> s@.name == Some(n@),
{
}

/// The streams of a record and their contents are the same value.
pub proof fn law_streams_contents(d: DataStreams, i: int)
    ensures
        d.primary is None <==> d@.primary is None,
        d.primary matches Some(p) ==> d@.primary == Some(p@),
        d@.ads.len() == d.ads@.len(),
        0 <= i < d.ads@.len() ==> d@.ads[i] == d.ads@[i]@,
{
}

/// An attribute listing and its contents are the same value.
pub proof fn law_listing_contents(a: AttrInfo)
    ensures
        a@.attribute_id == a.attribute_id && a@.type_id == a.type_id,
        a@.type_label == a.type_label@ && a@.resident == a.resident,
        a@.name == opt_text(a.name) && a@.flags == a.flags,
        a@.logical_size == a.logical_size && a@.physical_size == a.physical_size,
{
}

/// What the attribute types are for.
pub proof fn law_attribute_purposes()
    ensures
        purpose_of(0x10) == "Standard information: the SI MACB timestamp quad, DOS file attributes, USN, and quota/security ids. User-writable, so it is what the timestomp heuristic watches."@,
        purpose_of(0x20) == "A pointer list to attributes held in other FILE records, used when a single record overflows."@,
        purpose_of(0x30) == "A name (Win32, DOS 8.3, or POSIX namespace), the parent-directory reference used to reconstruct paths, and the kernel-only FN MACB quad."@,
        purpose_of(0x40) == "The 64-bit object id / distributed-link-tracking GUID."@,
        purpose_of(0x50) == "A per-file security descriptor (modern volumes centralize these in the $Secure metafile)."@,
        purpose_of(0x60) == "The volume label (carried by the $Volume metadata file)."@,
        purpose_of(0x70) == "The NTFS version and the volume dirty/state flags (carried by $Volume)."@,
        purpose_of(0x80) == "File content: the unnamed primary stream plus any named alternate data streams (ADS)."@,
        purpose_of(0x90) == "The resident root of a B-tree index — directory entries and other indexes."@,
        purpose_of(0xA0) == "The non-resident B-tree blocks of a large index, such as a big directory."@,
        purpose_of(0xB0) == "An allocation bitmap for the $MFT itself or for an index allocation."@,
        purpose_of(0xC0) == "Reparse data: symbolic links, junctions, mount points, and filter-driver tags."@,
        purpose_of(0xD0) == "Size and packing metadata for extended attributes."@,
        purpose_of(0xE0) == "Extended-attribute name/value pairs (OS/2 and application metadata)."@,
        purpose_of(0x100) == "A logged stream used by EFS ($EFS encryption metadata) and other utilities."@,
{
}

/// Inside an SQL literal every quote stands twice, and everything else as it is.
pub proof fn law_sql_quotes_are_doubled(s: Seq<char>, c: char)
    ensures
        sql_escaped(Seq::empty()).len() == 0,
        c == '\'' ==> sql_escaped(s.push(c)) == sql_escaped(s) + seq![c, c],
        c != '\'' ==> sql_escaped(s.push(c)) == sql_escaped(s) + seq![c],
        sql_literal(s) == seq!['\''] + sql_escaped(s) + seq!['\''],
{
    assert(s.push(c).drop_last() =~= s);
    reveal_strlit("'");
    assert("'"@ =~= seq!['\'']);
    assert(sql_escaped(s).push(c) =~= sql_escaped(s) + seq![c]);
}

/// A row of the registry query holds the code, the name and the purpose of one type, in this
/// order; the code is cast in the first row only.
pub proof fn law_registry_row_holds_its_type(i: int)
    requires
        0 <= i < 15,
    ensures
        ({
            let code = (if i < 14 {
                16 * (i + 1)
            } else {
                256
            }) as u32;
            let cast = if i == 0 {
                "::UINTEGER, "@
            } else {
                ", "@
            };
            registry_row(i) == "  ("@ + decimal(code as nat) + cast + sql_literal(
                type_label_of(code),
            ) + ", "@ + sql_literal(purpose_of(code)) + ")"@
        }),
{
}

} // verus!
