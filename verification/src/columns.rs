//! Reading input cells: which column of a relation holds the `$MFT` bytes and which
//! the record number, and the value of a cell of any of the accepted types.

use vstd::prelude::*;

use crate::options::{refused, ValueError};
use crate::standard_info::Macb;
use crate::text::{ascii_lowered, same_text, to_lowercase};

verus! {

/// What the values of a column are, as far as the column search tells types apart.
#[derive(Clone, Copy, Debug, PartialEq, Eq, Structural)]
pub enum ColumnKind {
    /// Bytes.
    Binary,
    /// An integer of any width, signed or not.
    Integer,
    /// Anything else.
    Other,
}

/// A column of an input relation.
#[derive(Clone, Debug, PartialEq, Eq)]
pub struct Column {
    pub name: String,
    pub kind: ColumnKind,
}

/// Whether a column goes by `name` (given in lower case), in whatever letter case.
pub open spec fn named(c: Column, name: Seq<char>) -> bool {
    ascii_lowered(c.name@) == name
}

/// Whether column `i` is the first one that goes by `name`.
pub open spec fn first_named(columns: Seq<Column>, name: Seq<char>, i: int) -> bool {
    &&& 0 <= i < columns.len()
    &&& named(columns[i], name)
    &&& forall|j: int| 0 <= j < i ==> !named(#[trigger] columns[j], name)
}

/// Whether column `i` is the first one of a kind.
pub open spec fn first_of_kind(columns: Seq<Column>, kind: ColumnKind, i: int) -> bool {
    &&& 0 <= i < columns.len()
    &&& columns[i].kind == kind
    &&& forall|j: int| 0 <= j < i ==> (#[trigger] columns[j]).kind != kind
}

/// Whether no column goes by `name`.
pub open spec fn none_named(columns: Seq<Column>, name: Seq<char>) -> bool {
    forall|j: int| 0 <= j < columns.len() ==> !named(#[trigger] columns[j], name)
}

/// Whether no column is of a kind.
pub open spec fn none_of_kind(columns: Seq<Column>, kind: ColumnKind) -> bool {
    forall|j: int| 0 <= j < columns.len() ==> (#[trigger] columns[j]).kind != kind
}

/// Whether `r` is the outcome of the search: the first column by that name; failing
/// that, the first one of that kind; failing both, a refusal.
pub open spec fn located(
    r: Result<usize, ValueError>,
    columns: Seq<Column>,
    name: Seq<char>,
    kind: ColumnKind,
    message: Seq<char>,
) -> bool {
    match r {
        Ok(i) => {
            ||| first_named(columns, name, i as int)
            ||| none_named(columns, name) && first_of_kind(columns, kind, i as int)
        },
        Err(_) => {
            &&& none_named(columns, name)
            &&& none_of_kind(columns, kind)
            &&& refused(r, message)
        },
    }
}

/// Searches for a column by name, then by kind.
fn locate(columns: &[Column], name: &str, kind: ColumnKind, message: &str) -> (r: Result<
    usize,
    ValueError,
>)
    ensures
        located(r, columns@, name@, kind, message@),
{
    let mut i: usize = 0;
    while i < columns.len()
        invariant
            i <= columns@.len(),
            forall|j: int| 0 <= j < i ==> !named(#[trigger] columns@[j], name@),
        decreases columns@.len() - i,
    {
        let lowered = to_lowercase(columns[i].name.as_str());
        if same_text(lowered.as_str(), name) {
            return Ok(i);
        }
        i = i + 1;
    }
    let mut k: usize = 0;
    while k < columns.len()
        invariant
            k <= columns@.len(),
            none_named(columns@, name@),
            forall|j: int| 0 <= j < k ==> (#[trigger] columns@[j]).kind != kind,
        decreases columns@.len() - k,
    {
        if columns[k].kind == kind {
            return Ok(k);
        }
        k = k + 1;
    }
    Err(ValueError { message: message.to_string() })
}

/// Locate the `blob` BLOB column of an input relation (case-insensitive; falls
/// back to the first binary column).
pub fn find_blob_col(columns: &[Column]) -> (r: Result<usize, ValueError>)
    ensures
        located(
            r,
            columns@,
            "blob"@,
            ColumnKind::Binary,
            "input relation must carry a `blob` BLOB column of $MFT bytes"@,
        ),
{
    locate(
        columns,
        "blob",
        ColumnKind::Binary,
        "input relation must carry a `blob` BLOB column of $MFT bytes",
    )
}

/// Locate the `entry` UBIGINT column of an input relation (case-insensitive;
/// falls back to the first integer column).
pub fn find_entry_col(columns: &[Column]) -> (r: Result<usize, ValueError>)
    ensures
        located(
            r,
            columns@,
            "entry"@,
            ColumnKind::Integer,
            "input relation must carry an `entry` UBIGINT column"@,
        ),
{
    locate(
        columns,
        "entry",
        ColumnKind::Integer,
        "input relation must carry an `entry` UBIGINT column",
    )
}

/// Whatever a search yields, it yields the one column that the rule picks.
pub proof fn law_column_search_is_deterministic(
    r: Result<usize, ValueError>,
    s: Result<usize, ValueError>,
    columns: Seq<Column>,
    name: Seq<char>,
    kind: ColumnKind,
    message: Seq<char>,
)
    requires
        located(r, columns, name, kind, message),
        located(s, columns, name, kind, message),
    ensures
        r is Ok <==> s is Ok,
        r is Ok ==> r == s,
{
    if r is Ok && s is Ok {
        let i = r->Ok_0 as int;
        let j = s->Ok_0 as int;
        assert(0 <= i < columns.len() && 0 <= j < columns.len());
        if i < j {
            assert(columns[i] == columns[i]);
        }
        if j < i {
            assert(columns[j] == columns[j]);
        }
    }
    if r is Ok && s is Err {
        assert(columns[r->Ok_0 as int] == columns[r->Ok_0 as int]);
    }
    if s is Ok && r is Err {
        assert(columns[s->Ok_0 as int] == columns[s->Ok_0 as int]);
    }
}

/// A cell of a column that should hold bytes.
#[derive(Clone, Debug)]
pub enum BlobCell<'a> {
    Null,
    Bytes(&'a [u8]),
    /// A value of another type, which goes by this name.
    Other(String),
}

/// Borrow the bytes of a BLOB cell, or `None` if null. Errors if the column is not a
/// binary type.
pub fn blob_val<'a>(cell: BlobCell<'a>) -> (r: Result<Option<&'a [u8]>, ValueError>)
    ensures
        match cell {
            BlobCell::Null => r == Ok::<Option<&'a [u8]>, ValueError>(None),
            BlobCell::Bytes(b) => r == Ok::<Option<&'a [u8]>, ValueError>(Some(b)),
            BlobCell::Other(t) => refused(r, "expected a BLOB (binary) argument, got "@ + t@),
        },
{
    match cell {
        BlobCell::Null => Ok(None),
        BlobCell::Bytes(b) => Ok(Some(b)),
        BlobCell::Other(t) => {
            let mut message = "expected a BLOB (binary) argument, got ".to_string();
            message.append(t.as_str());
            Err(ValueError { message })
        },
    }
}

/// A cell of a column that should hold integers.
#[derive(Clone, Debug)]
pub enum IntegerCell {
    Null,
    Unsigned(u64),
    Signed(i64),
    /// A value of another type, which goes by this name.
    Other(String),
}

/// The number in an integer cell, if there is one.
pub open spec fn integer_of(cell: IntegerCell) -> Option<u64> {
    match cell {
        IntegerCell::Unsigned(v) => Some(v),
        IntegerCell::Signed(v) => Some(
            if v < 0 {
                0
            } else {
                v as u64
            },
        ),
        _ => None,
    }
}

/// Read an integer cell as `u64`, or `None` if null. Accepts any of DuckDB's integer
/// widths (a bare literal like `mft_record(b, 5)` is typed as a signed integer; a
/// negative value clamps to 0).
pub fn u64_val(cell: IntegerCell) -> (r: Result<Option<u64>, ValueError>)
    ensures
        r is Ok ==> r->Ok_0 == integer_of(cell),
        match cell {
            IntegerCell::Null => r == Ok::<Option<u64>, ValueError>(None),
            IntegerCell::Unsigned(v) => r == Ok::<Option<u64>, ValueError>(Some(v)),
            IntegerCell::Signed(v) => {
                r matches Ok(Some(n)) && n == if v < 0 {
                    0
                } else {
                    v as int
                }
            },
            IntegerCell::Other(t) => refused(
                r,
                "expected an integer (UBIGINT) argument, got "@ + t@,
            ),
        },
{
    match cell {
        IntegerCell::Null => Ok(None),
        IntegerCell::Unsigned(v) => Ok(Some(v)),
        IntegerCell::Signed(v) => Ok(
            Some(
                if v < 0 {
                    0
                } else {
                    v as u64
                },
            ),
        ),
        IntegerCell::Other(t) => {
            let mut message = "expected an integer (UBIGINT) argument, got ".to_string();
            message.append(t.as_str());
            Err(ValueError { message })
        },
    }
}

/// The unit of a timestamp column.
#[derive(Clone, Copy, Debug, PartialEq, Eq, Structural)]
pub enum TimeUnit {
    Second,
    Millisecond,
    Microsecond,
    Nanosecond,
}

/// A timestamp in microseconds; what is finer is cut off, toward zero.
pub open spec fn micros_of(unit: TimeUnit, value: i64) -> int {
    match unit {
        TimeUnit::Second => value * 1_000_000,
        TimeUnit::Millisecond => value * 1_000,
        TimeUnit::Microsecond => value as int,
        TimeUnit::Nanosecond => if value >= 0 {
            value as int / 1_000
        } else {
            -((-(value as int)) / 1_000)
        },
    }
}

/// Whether a timestamp can be given in microseconds.
pub fn in_micros_range(unit: TimeUnit, value: i64) -> (r: bool)
    ensures
        r == (i64::MIN <= micros_of(unit, value) <= i64::MAX),
{
    match unit {
        TimeUnit::Second => -9_223_372_036_854 <= value && value <= 9_223_372_036_854,
        TimeUnit::Millisecond => -9_223_372_036_854_775 <= value && value
            <= 9_223_372_036_854_775,
        TimeUnit::Microsecond => true,
        TimeUnit::Nanosecond => true,
    }
}

/// A timestamp value in **microseconds**, scaled from whatever unit the column
/// carries (used by the `timestomp` scalar, whose input is a STRUCT of timestamps).
pub fn ts_micros(unit: TimeUnit, value: i64) -> (r: i64)
    requires
        i64::MIN <= micros_of(unit, value) <= i64::MAX,
    ensures
        r == micros_of(unit, value),
{
    match unit {
        TimeUnit::Second => value * 1_000_000,
        TimeUnit::Millisecond => value * 1_000,
        TimeUnit::Microsecond => value,
        TimeUnit::Nanosecond => if value >= 0 {
            value / 1_000
        } else if value == i64::MIN {
            -9_223_372_036_854_775
        } else {
            -((-value) / 1_000)
        },
    }
}

/// A timestamp with its unit.
#[derive(Clone, Copy, Debug, PartialEq, Eq, Structural)]
pub struct TimeCell {
    pub unit: TimeUnit,
    pub value: i64,
}

/// A field of a STRUCT value: its name and, where it is a timestamp that is not null,
/// its value.
#[derive(Clone, Debug, PartialEq, Eq)]
pub struct TimeField {
    pub name: String,
    pub cell: Option<TimeCell>,
}

/// The value of the first field by a name; none where there is no such field.
pub open spec fn field_cell(fields: Seq<TimeField>, name: Seq<char>) -> Option<TimeCell>
    decreases fields.len(),
{
    if fields.len() == 0 {
        None
    } else if fields[0].name@ == name {
        fields[0].cell
    } else {
        field_cell(fields.skip(1), name)
    }
}

/// Whether a timestamp, if there is one, can be given in microseconds.
pub open spec fn cell_fits(cell: Option<TimeCell>) -> bool {
    cell matches Some(c) ==> i64::MIN <= micros_of(c.unit, c.value) <= i64::MAX
}

/// A timestamp in microseconds, if there is one.
pub open spec fn cell_micros(cell: Option<TimeCell>) -> Option<i64> {
    match cell {
        Some(c) => Some(micros_of(c.unit, c.value) as i64),
        None => None,
    }
}

/// Whether the four times that a STRUCT value holds can be given in microseconds.
pub open spec fn quad_fits(fields: Seq<TimeField>) -> bool {
    &&& cell_fits(field_cell(fields, "created"@))
    &&& cell_fits(field_cell(fields, "modified"@))
    &&& cell_fits(field_cell(fields, "accessed"@))
    &&& cell_fits(field_cell(fields, "mft_modified"@))
}

/// The quad that a STRUCT value holds.
pub open spec fn quad_of(fields: Seq<TimeField>) -> Macb {
    Macb {
        created: cell_micros(field_cell(fields, "created"@)),
        modified: cell_micros(field_cell(fields, "modified"@)),
        accessed: cell_micros(field_cell(fields, "accessed"@)),
        mft_modified: cell_micros(field_cell(fields, "mft_modified"@)),
    }
}

/// The value of the first field by a name.
fn find_field(fields: &[TimeField], name: &str) -> (r: Option<TimeCell>)
    ensures
        r == field_cell(fields@, name@),
{
    let mut i: usize = 0;
    assert(fields@.skip(0) =~= fields@);
    while i < fields.len()
        invariant
            i <= fields@.len(),
            field_cell(fields@, name@) == field_cell(fields@.skip(i as int), name@),
        decreases fields@.len() - i,
    {
        let ghost rest = fields@.skip(i as int);
        assert(rest[0] == fields@[i as int]);
        assert(rest.skip(1) =~= fields@.skip(i + 1));
        if same_text(fields[i].name.as_str(), name) {
            return fields[i].cell;
        }
        i = i + 1;
    }
    None
}

/// Tests whether a timestamp can be given in microseconds.
fn check_cell(cell: Option<TimeCell>) -> (r: bool)
    ensures
        r == cell_fits(cell),
{
    match cell {
        Some(c) => in_micros_range(c.unit, c.value),
        None => true,
    }
}

/// A timestamp in microseconds.
fn scale_cell(cell: Option<TimeCell>) -> (r: Option<i64>)
    requires
        cell_fits(cell),
    ensures
        r == cell_micros(cell),
{
    match cell {
        Some(c) => Some(ts_micros(c.unit, c.value)),
        None => None,
    }
}

/// Whether the four times that a STRUCT value holds can be given in microseconds.
pub fn quad_in_range(fields: &[TimeField]) -> (r: bool)
    ensures
        r == quad_fits(fields@),
{
    check_cell(find_field(fields, "created")) && check_cell(find_field(fields, "modified"))
        && check_cell(find_field(fields, "accessed")) && check_cell(
        find_field(fields, "mft_modified"),
    )
}

/// Read a MACB quad from a STRUCT value (children read by name, so field order is
/// tolerated; missing fields → NULL).
pub fn read_quad(fields: &[TimeField]) -> (r: Macb)
    requires
        quad_fits(fields@),
    ensures
        r == quad_of(fields@),
{
    Macb {
        created: scale_cell(find_field(fields, "created")),
        modified: scale_cell(find_field(fields, "modified")),
        accessed: scale_cell(find_field(fields, "accessed")),
        mft_modified: scale_cell(find_field(fields, "mft_modified")),
    }
}

/// A column that goes by the name is taken before any other, and of several the first,
/// whatever their types are.
pub proof fn law_name_goes_before_kind(
    r: Result<usize, ValueError>,
    columns: Seq<Column>,
    name: Seq<char>,
    kind: ColumnKind,
    message: Seq<char>,
    i: int,
)
    requires
        located(r, columns, name, kind, message),
        0 <= i < columns.len(),
        ascii_lowered(columns[i].name@) == name,
        forall|j: int| 0 <= j < i ==> ascii_lowered((#[trigger] columns[j]).name@) != name,
    ensures
        r is Ok,
        r->Ok_0 == i,
{
    assert(named(columns[i], name));
    if let Ok(k) = r {
        if k < i {
            assert(!named(columns[k as int], name));
        }
    }
}

/// Where no column goes by the name, the first one of the kind is taken, and where there is
/// none either, the search is refused.
pub proof fn law_kind_is_the_fallback(
    r: Result<usize, ValueError>,
    columns: Seq<Column>,
    name: Seq<char>,
    kind: ColumnKind,
    message: Seq<char>,
)
    requires
        located(r, columns, name, kind, message),
        forall|j: int|
            0 <= j < columns.len() ==> ascii_lowered((#[trigger] columns[j]).name@) != name,
    ensures
        match r {
            Ok(i) => i < columns.len() && columns[i as int].kind == kind && forall|j: int|
                0 <= j < i ==> (#[trigger] columns[j]).kind != kind,
            Err(e) => e.message@ == message && forall|j: int|
                0 <= j < columns.len() ==> (#[trigger] columns[j]).kind != kind,
        },
{
}

/// The units are a thousand apart: a time gives the same microseconds in each of them, and
/// what a nanosecond time has beyond them is cut off toward zero.
pub proof fn law_units_are_a_thousand_apart(v: i64, w: i64)
    ensures
        micros_of(TimeUnit::Microsecond, v) == v,
        micros_of(TimeUnit::Millisecond, v) == 1_000 * v,
        micros_of(TimeUnit::Second, v) == 1_000 * micros_of(TimeUnit::Millisecond, v),
        w == 1_000 * v ==> micros_of(TimeUnit::Nanosecond, w) == v,
        v >= 0 ==> 0 <= v - 1_000 * micros_of(TimeUnit::Nanosecond, v) < 1_000,
        v < 0 ==> -1_000 < v - 1_000 * micros_of(TimeUnit::Nanosecond, v) <= 0,
{
}

/// A field is found by its name wherever it stands, and of several by one name the first.
pub proof fn law_field_is_found_by_name(fields: Seq<TimeField>, name: Seq<char>, i: int)
    requires
        0 <= i <= fields.len(),
        forall|j: int| 0 <= j < i ==> (#[trigger] fields[j]).name@ != name,
        i < fields.len() ==> fields[i].name@ == name,
    ensures
        field_cell(fields, name) == (if i < fields.len() {
            fields[i].cell
        } else {
            None
        }),
    decreases i,
{
    if i > 0 {
        assert(fields[0].name@ != name);
        let rest = fields.skip(1);
        assert forall|j: int| 0 <= j < i - 1 implies (#[trigger] rest[j]).name@ != name by {
            assert(rest[j] == fields[j + 1]);
        }
        law_field_is_found_by_name(rest, name, i - 1);
    }
}

/// Each time of a quad is that of the field by its own name, in microseconds, and unset
/// where there is no such field or it is null.
pub proof fn law_quad_is_read_by_name(fields: Seq<TimeField>)
    ensures
        ({
            let q = quad_of(fields);
            let shown = |t: Option<i64>, c: Option<TimeCell>|
                match c {
                    Some(x) => t == Some(micros_of(x.unit, x.value) as i64),
                    None => t is None,
                };
            &&& shown(q.created, field_cell(fields, "created"@))
            &&& shown(q.modified, field_cell(fields, "modified"@))
            &&& shown(q.accessed, field_cell(fields, "accessed"@))
            &&& shown(q.mft_modified, field_cell(fields, "mft_modified"@))
        }),
{
}

/// A number that is not negative is read as it is, signed or not, and a negative one as
/// zero.
pub proof fn law_integers_keep_their_value(u: u64, v: i64)
    ensures
        integer_of(IntegerCell::Unsigned(u)) == Some(u),
        v >= 0 && u == v ==> integer_of(IntegerCell::Signed(v)) == Some(u),
        v < 0 ==> integer_of(IntegerCell::Signed(v)) == Some(0u64),
        integer_of(IntegerCell::Null) is None,
{
}

} // verus!
