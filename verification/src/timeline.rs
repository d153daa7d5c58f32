//! Timeline rows: fanning a decoded record into rows per emission mode, and turning
//! rows into the columns of the timeline table.

use std::collections::BTreeMap;

use vstd::prelude::*;

use crate::cursor::{nodes, NodeModel, ResolverNode, DEFAULT_MAX_DEPTH};
use crate::data::{opt_bytes, DataStreamModel};
use crate::errors::opt_text;
use crate::file_name::{law_long_name_is_preferred, law_no_name_is_primary, primary_of};
use crate::options::Mode;
use crate::record::{diagnostics_joined, join_diagnostics, DecodedRecord, RecordModel};
use crate::resolver::{resolve, resolved, PathModel};
use crate::standard_info::{unset_macb, Macb};
use crate::text::texts;
use crate::timestomp::{evaluate, suspect_of};

verus! {

/// One emitted timeline row (a record fans into one or more of these, per mode).
#[derive(Clone, Debug, PartialEq, Eq)]
pub struct EmitRow {
    pub host: Option<String>,
    pub entry: u64,
    pub sequence: u16,
    pub parent_entry: Option<u64>,
    pub full_path: Option<String>,
    pub file_name: Option<String>,
    pub is_dir: bool,
    pub is_allocated: bool,
    pub si: Macb,
    pub fna: Macb,
    pub logical_size: u64,
    pub physical_size: u64,
    pub hard_link_count: u16,
    pub dos_attributes: u32,
    pub ads_name: Option<String>,
    pub resident_data: Option<Vec<u8>>,
    pub diagnostics: Option<String>,
}

/// The contents of an [`EmitRow`].
pub struct RowModel {
    pub host: Option<Seq<char>>,
    pub entry: u64,
    pub sequence: u16,
    pub parent_entry: Option<u64>,
    pub full_path: Option<Seq<char>>,
    pub file_name: Option<Seq<char>>,
    pub is_dir: bool,
    pub is_allocated: bool,
    pub si: Macb,
    pub fna: Macb,
    pub logical_size: u64,
    pub physical_size: u64,
    pub hard_link_count: u16,
    pub dos_attributes: u32,
    pub ads_name: Option<Seq<char>>,
    pub resident_data: Option<Seq<u8>>,
    pub diagnostics: Option<Seq<char>>,
}

impl View for EmitRow {
    type V = RowModel;

    open spec fn view(&self) -> RowModel {
        RowModel {
            host: opt_text(self.host),
            entry: self.entry,
            sequence: self.sequence,
            parent_entry: self.parent_entry,
            full_path: opt_text(self.full_path),
            file_name: opt_text(self.file_name),
            is_dir: self.is_dir,
            is_allocated: self.is_allocated,
            si: self.si,
            fna: self.fna,
            logical_size: self.logical_size,
            physical_size: self.physical_size,
            hard_link_count: self.hard_link_count,
            dos_attributes: self.dos_attributes,
            ads_name: opt_text(self.ads_name),
            resident_data: opt_bytes(self.resident_data),
            diagnostics: opt_text(self.diagnostics),
        }
    }
}

/// The contents of a list of rows.
pub open spec fn rows_model(rows: Seq<EmitRow>) -> Seq<RowModel> {
    rows.map_values(|r: EmitRow| r@)
}

/// What a row shows of the stream it stands for.
pub struct StreamCells {
    pub ads_name: Option<Seq<char>>,
    pub data: Option<Seq<u8>>,
    pub logical_size: u64,
    pub physical_size: u64,
}

/// The record's own diagnostics, then that of its path, as one text.
pub open spec fn row_diagnostics(rec: RecordModel, path: PathModel) -> Option<Seq<char>> {
    match path.diagnostic {
        Some(d) => diagnostics_joined(rec.diagnostics.push(d)),
        None => diagnostics_joined(rec.diagnostics),
    }
}

/// A record's row for a stream.
pub open spec fn row_of(
    rec: RecordModel,
    path: PathModel,
    host: Option<Seq<char>>,
    stream: StreamCells,
) -> RowModel {
    let name = rec.primary_name();
    RowModel {
        host,
        entry: rec.entry,
        sequence: rec.sequence,
        parent_entry: match name {
            Some(f) => Some(f.parent_entry),
            None => None,
        },
        full_path: Some(path.path),
        file_name: match name {
            Some(f) => Some(f.name),
            None => None,
        },
        is_dir: rec.is_dir,
        is_allocated: rec.in_use,
        si: match rec.standard_info {
            Some(s) => s.macb,
            None => unset_macb(),
        },
        fna: match name {
            Some(f) => f.macb,
            None => unset_macb(),
        },
        logical_size: stream.logical_size,
        physical_size: stream.physical_size,
        hard_link_count: rec.hard_link_count,
        dos_attributes: match rec.standard_info {
            Some(s) => s.dos_attributes,
            None => 0,
        },
        ads_name: stream.ads_name,
        resident_data: stream.data,
        diagnostics: row_diagnostics(rec, path),
    }
}

/// The cells of the primary stream, which has no stream name.
pub open spec fn primary_cells(p: DataStreamModel) -> StreamCells {
    StreamCells {
        ads_name: None,
        data: p.data,
        logical_size: p.logical_size,
        physical_size: p.physical_size,
    }
}

/// The cells of an alternate stream.
pub open spec fn ads_cells(a: DataStreamModel) -> StreamCells {
    StreamCells {
        ads_name: a.name,
        data: a.data,
        logical_size: a.logical_size,
        physical_size: a.physical_size,
    }
}

/// The cells of a record without any `$DATA` (e.g. a directory).
pub open spec fn no_cells() -> StreamCells {
    StreamCells { ads_name: None, data: None, logical_size: 0, physical_size: 0 }
}

/// The streams that a record shows, in order: per `$DATA` stream in streams mode
/// (and one all the same where there is none), the primary one in the others, and
/// nothing for a deleted record where only live ones are asked for.
pub open spec fn shown_streams(rec: RecordModel, mode: Mode) -> Seq<StreamCells> {
    match mode {
        Mode::Allocated if !rec.in_use => Seq::empty(),
        Mode::Streams => {
            let ads = rec.data.ads.map_values(|a: DataStreamModel| ads_cells(a));
            match rec.data.primary {
                Some(p) => seq![primary_cells(p)] + ads,
                None => if ads.len() == 0 {
                    seq![no_cells()]
                } else {
                    ads
                },
            }
        },
        _ => seq![
            StreamCells {
                ads_name: None,
                data: rec.data.resident_bytes(),
                logical_size: rec.data.logical_size(),
                physical_size: rec.data.physical_size(),
            },
        ],
    }
}

/// The rows of a record.
pub open spec fn rows_of(
    rec: RecordModel,
    index: Map<u64, NodeModel>,
    host: Option<Seq<char>>,
    mode: Mode,
) -> Seq<RowModel> {
    let path = resolved(index, rec.entry, DEFAULT_MAX_DEPTH);
    shown_streams(rec, mode).map_values(|s: StreamCells| row_of(rec, path, host, s))
}

/// The parts of a row that do not depend on the stream.
struct RowBase<'a> {
    rec: &'a DecodedRecord,
    host: &'a Option<String>,
    path: String,
    diagnostics: Option<String>,
}

impl<'a> RowBase<'a> {
    /// The row for one stream.
    fn row(
        &self,
        ads_name: Option<String>,
        resident_data: Option<Vec<u8>>,
        logical_size: u64,
        physical_size: u64,
        Ghost(path): Ghost<PathModel>,
    ) -> (r: EmitRow)
        requires
            self.path@ == path.path,
            opt_text(self.diagnostics) == row_diagnostics(self.rec@, path),
        ensures
            r@ == row_of(
                self.rec@,
                path,
                opt_text(*self.host),
                (StreamCells {
                    ads_name: opt_text(ads_name),
                    data: opt_bytes(resident_data),
                    logical_size,
                    physical_size,
                }),
            ),
    {
        let rec = self.rec;
        let primary = rec.primary_name();
        let si = match &rec.standard_info {
            Some(s) => s.macb,
            None => Macb::default(),
        };
        let dos_attributes: u32 = match &rec.standard_info {
            Some(s) => s.dos_attributes,
            None => 0,
        };
        let (parent_entry, file_name, fna) = match primary {
            Some(f) => (Some(f.parent_entry), Some(f.name.clone()), f.macb),
            None => (None, None, Macb::default()),
        };
        EmitRow {
            host: self.host.clone(),
            entry: rec.entry,
            sequence: rec.sequence,
            parent_entry,
            full_path: Some(self.path.clone()),
            file_name,
            is_dir: rec.is_dir,
            is_allocated: rec.in_use,
            si,
            fna,
            logical_size,
            physical_size,
            hard_link_count: rec.hard_link_count,
            dos_attributes,
            ads_name,
            resident_data,
            diagnostics: self.diagnostics.clone(),
        }
    }
}

/// A copy of optional bytes.
fn copy_bytes(b: &Option<Vec<u8>>) -> (r: Option<Vec<u8>>)
    ensures
        opt_bytes(r) == opt_bytes(*b),
{
    match b {
        Some(v) => {
            let copy = v.clone();
            assert(copy@ =~= v@);
            Some(copy)
        },
        None => None,
    }
}

/// A copy of optional text.
fn copy_text(t: &Option<String>) -> (r: Option<String>)
    ensures
        opt_text(r) == opt_text(*t),
{
    match t {
        Some(s) => Some(s.clone()),
        None => None,
    }
}

/// A copy of some texts.
fn copy_texts(parts: &Vec<String>) -> (r: Vec<String>)
    ensures
        texts(r@) == texts(parts@),
{
    let r = parts.clone();
    assert(texts(r@) =~= texts(parts@));
    r
}

/// Fan one decoded record into emitted rows per `mode`.
pub fn emit(
    rec: &DecodedRecord,
    resolver: &BTreeMap<u64, ResolverNode>,
    host: &Option<String>,
    mode: Mode,
    rows: &mut Vec<EmitRow>,
)
    ensures
        rows_model(final(rows)@) == rows_model(old(rows)@) + rows_of(
            rec@,
            nodes(resolver@),
            opt_text(*host),
            mode,
        ),
{
    let ghost before = rows_model(rows@);
    let ghost host_text = opt_text(*host);
    let ghost shown = shown_streams(rec@, mode);
    let ghost expected = rows_of(rec@, nodes(resolver@), host_text, mode);
    if matches!(mode, Mode::Allocated) && !rec.in_use {
        assert(before + expected =~= before);
        return;
    }
    let resolved_path = resolve(resolver, rec.entry, DEFAULT_MAX_DEPTH);
    let ghost path = resolved_path@;
    // Merge the record's own diagnostics with any path diagnostic.
    let mut diags = copy_texts(&rec.diagnostics);
    if let Some(d) = resolved_path.diagnostic {
        diags.push(d.to_string());
        assert(texts(diags@) =~= texts(rec.diagnostics@).push(d@));
    }
    let diagnostics = join_diagnostics(&diags);
    let base = RowBase { rec, host, path: resolved_path.path, diagnostics };
    match mode {
        Mode::Streams => {
            // One row per $DATA stream (primary + each ADS).
            let ghost ads = rec@.data.ads.map_values(|a: DataStreamModel| ads_cells(a));
            let mut emitted = false;
            if let Some(p) = &rec.data.primary {
                let row = base.row(
                    None,
                    copy_bytes(&p.data),
                    p.logical_size,
                    p.physical_size,
                    Ghost(path),
                );
                rows.push(row);
                emitted = true;
                assert(shown =~= seq![primary_cells(p@)] + ads);
            }
            let ghost head: int = if rec.data.primary is Some {
                1
            } else {
                0
            };
            proof {
                assert(rows_model(rows@) =~= before + expected.take(head));
            }
            let mut i: usize = 0;
            while i < rec.data.ads.len()
                invariant
                    i <= rec.data.ads@.len(),
                    ads == rec@.data.ads.map_values(|a: DataStreamModel| ads_cells(a)),
                    shown == shown_streams(rec@, mode),
                    mode == Mode::Streams,
                    expected == rows_of(rec@, nodes(resolver@), host_text, mode),
                    path == resolved(nodes(resolver@), rec.entry, DEFAULT_MAX_DEPTH),
                    base.rec == rec,
                    host_text == opt_text(*base.host),
                    base.path@ == path.path,
                    opt_text(base.diagnostics) == row_diagnostics(rec@, path),
                    head == (if rec.data.primary is Some {
                        1int
                    } else {
                        0
                    }),
                    emitted == (head + i > 0),
                    rows_model(rows@) == before + expected.take(head + i),
                decreases rec.data.ads@.len() - i,
            {
                let a = &rec.data.ads[i];
                proof {
                    assert(rec@.data.ads[i as int] == a@);
                    assert(ads[i as int] == ads_cells(a@));
                    assert(ads.len() > 0);
                    assert(shown[head + i] == ads_cells(a@));
                    assert(expected[head + i] == row_of(rec@, path, host_text, ads_cells(a@)));
                }
                let row = base.row(
                    copy_text(&a.name),
                    copy_bytes(&a.data),
                    a.logical_size,
                    a.physical_size,
                    Ghost(path),
                );
                let ghost so_far = rows_model(rows@);
                rows.push(row);
                emitted = true;
                proof {
                    assert(rows_model(rows@) =~= so_far.push(expected[head + i]));
                    assert(expected.take(head + i).push(expected[head + i]) =~= expected.take(
                        head + i + 1,
                    ));
                    assert(before + expected.take(head + i + 1) =~= (before + expected.take(
                        head + i,
                    )).push(expected[head + i]));
                }
                i = i + 1;
            }
            if !emitted {
                // No $DATA at all (e.g. a directory): still emit one row.
                let row = base.row(None, None, 0, 0, Ghost(path));
                rows.push(row);
                proof {
                    assert(ads.len() == 0);
                    assert(shown =~= seq![no_cells()]);
                    assert(rows_model(rows@) =~= before + expected);
                }
            } else {
                assert(expected.take(head + i) =~= expected);
            }
        },
        Mode::Files | Mode::Allocated => {
            let resident = match rec.data.resident_bytes() {
                Some(b) => Some(vstd::slice::slice_to_vec(b)),
                None => None,
            };
            let row = base.row(
                None,
                resident,
                rec.data.logical_size(),
                rec.data.physical_size(),
                Ghost(path),
            );
            rows.push(row);
            assert(rows_model(rows@) =~= before + expected);
        },
    }
}

/// In streams mode a record has one row per `$DATA` stream, the primary first, and
/// exactly one where it has no stream at all.
pub proof fn law_streams_mode_rows(
    rec: RecordModel,
    index: Map<u64, NodeModel>,
    host: Option<Seq<char>>,
)
    ensures
        rows_of(rec, index, host, Mode::Streams).len() == (if rec.data.in_order().len() == 0 {
            1
        } else {
            rec.data.in_order().len()
        }),
        forall|i: int|
            0 <= i < rec.data.in_order().len() ==> {
                let row = #[trigger] rows_of(rec, index, host, Mode::Streams)[i];
                let stream = rec.data.in_order()[i];
                &&& row.resident_data == stream.data
                &&& row.logical_size == stream.logical_size
                &&& row.physical_size == stream.physical_size
                &&& row.ads_name == (if rec.data.primary is Some && i == 0 {
                    None
                } else {
                    stream.name
                })
            },
{
}

/// In files mode every record has exactly one row, deleted or not.
pub proof fn law_files_mode_is_one_row(
    rec: RecordModel,
    index: Map<u64, NodeModel>,
    host: Option<Seq<char>>,
)
    ensures
        rows_of(rec, index, host, Mode::Files).len() == 1,
{
}

/// In allocated mode a live record has the row it has in files mode, and a deleted
/// one has none.
pub proof fn law_allocated_mode_is_live_files(
    rec: RecordModel,
    index: Map<u64, NodeModel>,
    host: Option<Seq<char>>,
)
    ensures
        rec.in_use ==> rows_of(rec, index, host, Mode::Allocated) == rows_of(
            rec,
            index,
            host,
            Mode::Files,
        ),
        !rec.in_use ==> rows_of(rec, index, host, Mode::Allocated).len() == 0,
{
    if rec.in_use {
        assert(rows_of(rec, index, host, Mode::Allocated) =~= rows_of(
            rec,
            index,
            host,
            Mode::Files,
        ));
    }
}

/// Every row of a record carries the record's number and its reconstructed path,
/// whatever the mode.
pub proof fn law_every_row_has_the_path(
    rec: RecordModel,
    index: Map<u64, NodeModel>,
    host: Option<Seq<char>>,
    mode: Mode,
    i: int,
)
    requires
        0 <= i < rows_of(rec, index, host, mode).len(),
    ensures
        rows_of(rec, index, host, mode)[i].entry == rec.entry,
        rows_of(rec, index, host, mode)[i].host == host,
        rows_of(rec, index, host, mode)[i].full_path == Some(
            resolved(index, rec.entry, DEFAULT_MAX_DEPTH).path,
        ),
{
}

/// The columns of the timeline table, one value per row in each.
pub struct TimelineColumns {
    pub host: Vec<Option<String>>,
    pub entry: Vec<u64>,
    pub sequence: Vec<u16>,
    pub parent_entry: Vec<Option<u64>>,
    pub full_path: Vec<Option<String>>,
    pub file_name: Vec<Option<String>>,
    pub is_dir: Vec<bool>,
    pub is_allocated: Vec<bool>,
    pub is_deleted: Vec<bool>,
    pub si_created: Vec<Option<i64>>,
    pub si_modified: Vec<Option<i64>>,
    pub si_accessed: Vec<Option<i64>>,
    pub si_mft_modified: Vec<Option<i64>>,
    pub fn_created: Vec<Option<i64>>,
    pub fn_modified: Vec<Option<i64>>,
    pub fn_accessed: Vec<Option<i64>>,
    pub fn_mft_modified: Vec<Option<i64>>,
    pub logical_size: Vec<u64>,
    pub physical_size: Vec<u64>,
    pub hard_link_count: Vec<u16>,
    pub dos_attributes: Vec<u32>,
    pub ads_name: Vec<Option<String>>,
    pub resident_data: Vec<Option<Vec<u8>>>,
    pub is_timestomp_suspect: Vec<bool>,
    pub diagnostics: Vec<Option<String>>,
}

impl TimelineColumns {
    /// Whether every column has `n` values.
    pub open spec fn rows(self, n: nat) -> bool {
        &&& self.host@.len() == n
        &&& self.entry@.len() == n
        &&& self.sequence@.len() == n
        &&& self.parent_entry@.len() == n
        &&& self.full_path@.len() == n
        &&& self.file_name@.len() == n
        &&& self.is_dir@.len() == n
        &&& self.is_allocated@.len() == n
        &&& self.is_deleted@.len() == n
        &&& self.si_created@.len() == n
        &&& self.si_modified@.len() == n
        &&& self.si_accessed@.len() == n
        &&& self.si_mft_modified@.len() == n
        &&& self.fn_created@.len() == n
        &&& self.fn_modified@.len() == n
        &&& self.fn_accessed@.len() == n
        &&& self.fn_mft_modified@.len() == n
        &&& self.logical_size@.len() == n
        &&& self.physical_size@.len() == n
        &&& self.hard_link_count@.len() == n
        &&& self.dos_attributes@.len() == n
        &&& self.ads_name@.len() == n
        &&& self.resident_data@.len() == n
        &&& self.is_timestomp_suspect@.len() == n
        &&& self.diagnostics@.len() == n
    }

    /// Whether the values at `i` are those of a row. A row is deleted when it is not
    /// allocated, and suspect when its two quads are.
    pub open spec fn shows(self, i: int, row: RowModel) -> bool {
        &&& opt_text(self.host@[i]) == row.host
        &&& self.entry@[i] == row.entry
        &&& self.sequence@[i] == row.sequence
        &&& self.parent_entry@[i] == row.parent_entry
        &&& opt_text(self.full_path@[i]) == row.full_path
        &&& opt_text(self.file_name@[i]) == row.file_name
        &&& self.is_dir@[i] == row.is_dir
        &&& self.is_allocated@[i] == row.is_allocated
        &&& self.is_deleted@[i] == !row.is_allocated
        &&& self.si_created@[i] == row.si.created
        &&& self.si_modified@[i] == row.si.modified
        &&& self.si_accessed@[i] == row.si.accessed
        &&& self.si_mft_modified@[i] == row.si.mft_modified
        &&& self.fn_created@[i] == row.fna.created
        &&& self.fn_modified@[i] == row.fna.modified
        &&& self.fn_accessed@[i] == row.fna.accessed
        &&& self.fn_mft_modified@[i] == row.fna.mft_modified
        &&& self.logical_size@[i] == row.logical_size
        &&& self.physical_size@[i] == row.physical_size
        &&& self.hard_link_count@[i] == row.hard_link_count
        &&& self.dos_attributes@[i] == row.dos_attributes
        &&& opt_text(self.ads_name@[i]) == row.ads_name
        &&& opt_bytes(self.resident_data@[i]) == row.resident_data
        &&& self.is_timestomp_suspect@[i] == suspect_of(row.si, row.fna)
        &&& opt_text(self.diagnostics@[i]) == row.diagnostics
    }

    fn new() -> (r: Self)
        ensures
            r.rows(0),
    {
        TimelineColumns {
            host: Vec::new(),
            entry: Vec::new(),
            sequence: Vec::new(),
            parent_entry: Vec::new(),
            full_path: Vec::new(),
            file_name: Vec::new(),
            is_dir: Vec::new(),
            is_allocated: Vec::new(),
            is_deleted: Vec::new(),
            si_created: Vec::new(),
            si_modified: Vec::new(),
            si_accessed: Vec::new(),
            si_mft_modified: Vec::new(),
            fn_created: Vec::new(),
            fn_modified: Vec::new(),
            fn_accessed: Vec::new(),
            fn_mft_modified: Vec::new(),
            logical_size: Vec::new(),
            physical_size: Vec::new(),
            hard_link_count: Vec::new(),
            dos_attributes: Vec::new(),
            ads_name: Vec::new(),
            resident_data: Vec::new(),
            is_timestomp_suspect: Vec::new(),
            diagnostics: Vec::new(),
        }
    }

    /// Appends a row.
    fn push(&mut self, r: &EmitRow, Ghost(n): Ghost<nat>)
        requires
            old(self).rows(n),
        ensures
            final(self).rows(n + 1),
            final(self).shows(n as int, r@),
            forall|i: int, row: RowModel|
                0 <= i < n && old(self).shows(i, row) ==> #[trigger] final(self).shows(i, row),
    {
        self.host.push(copy_text(&r.host));
        self.entry.push(r.entry);
        self.sequence.push(r.sequence);
        self.parent_entry.push(r.parent_entry);
        self.full_path.push(copy_text(&r.full_path));
        self.file_name.push(copy_text(&r.file_name));
        self.is_dir.push(r.is_dir);
        self.is_allocated.push(r.is_allocated);
        self.is_deleted.push(!r.is_allocated);
        self.si_created.push(r.si.created);
        self.si_modified.push(r.si.modified);
        self.si_accessed.push(r.si.accessed);
        self.si_mft_modified.push(r.si.mft_modified);
        self.fn_created.push(r.fna.created);
        self.fn_modified.push(r.fna.modified);
        self.fn_accessed.push(r.fna.accessed);
        self.fn_mft_modified.push(r.fna.mft_modified);
        self.logical_size.push(r.logical_size);
        self.physical_size.push(r.physical_size);
        self.hard_link_count.push(r.hard_link_count);
        self.dos_attributes.push(r.dos_attributes);
        self.ads_name.push(copy_text(&r.ads_name));
        self.resident_data.push(copy_bytes(&r.resident_data));
        self.is_timestomp_suspect.push(evaluate(&r.si, &r.fna).suspect);
        self.diagnostics.push(copy_text(&r.diagnostics));
    }
}

/// Build the timeline columns from emitted rows.
pub fn build_timeline_batch(rows: &[EmitRow]) -> (r: TimelineColumns)
    ensures
        r.rows(rows@.len()),
        forall|i: int| 0 <= i < rows@.len() ==> r.shows(i, (#[trigger] rows@[i])@),
{
    let mut columns = TimelineColumns::new();
    let mut i: usize = 0;
    while i < rows.len()
        invariant
            i <= rows@.len(),
            columns.rows(i as nat),
            forall|j: int| 0 <= j < i ==> columns.shows(j, (#[trigger] rows@[j])@),
        decreases rows@.len() - i,
    {
        let ghost before = columns;
        columns.push(&rows[i], Ghost(i as nat));
        assert forall|j: int| 0 <= j < i + 1 implies columns.shows(j, (#[trigger] rows@[j])@) by {
            if j < i {
                assert(before.shows(j, rows@[j]@));
            }
        }
        i = i + 1;
    }
    columns
}

/// In files mode the one row of a record shows its unnamed stream: the sizes and the
/// inline data of the primary stream, and zero sizes and no data where there is none. It
/// names no alternate stream.
pub proof fn law_files_row_shows_the_primary_stream(
    rec: RecordModel,
    index: Map<u64, NodeModel>,
    host: Option<Seq<char>>,
)
    ensures
        rows_of(rec, index, host, Mode::Files).len() == 1,
        ({
            let row = rows_of(rec, index, host, Mode::Files)[0];
            &&& row.ads_name is None
            &&& match rec.data.primary {
                Some(p) => {
                    &&& row.logical_size == p.logical_size
                    &&& row.physical_size == p.physical_size
                    &&& row.resident_data == p.data
                },
                None => row.logical_size == 0 && row.physical_size == 0 && row.resident_data
                    is None,
            }
        }),
{
}

/// In streams mode the rows of a record are its streams, one for one: the primary one
/// first and without a name, then the alternate ones under their names. A record without
/// a stream has a row of zero sizes.
pub proof fn law_streams_rows_show_the_streams(
    rec: RecordModel,
    index: Map<u64, NodeModel>,
    host: Option<Seq<char>>,
)
    ensures
        ({
            let rows = rows_of(rec, index, host, Mode::Streams);
            let ads = rec.data.ads;
            let shift = if rec.data.primary is Some {
                1int
            } else {
                0
            };
            &&& rec.data.primary matches Some(p) ==> {
                &&& rows.len() == 1 + ads.len()
                &&& rows[0].ads_name is None
                &&& rows[0].logical_size == p.logical_size
                &&& rows[0].physical_size == p.physical_size
                &&& rows[0].resident_data == p.data
            }
            &&& rec.data.primary is None && ads.len() > 0 ==> rows.len() == ads.len()
            &&& forall|i: int|
                0 <= i < ads.len() ==> {
                    let row = rows[i + shift];
                    &&& row.ads_name == (#[trigger] ads[i]).name
                    &&& row.logical_size == ads[i].logical_size
                    &&& row.physical_size == ads[i].physical_size
                    &&& row.resident_data == ads[i].data
                }
            &&& rec.data.primary is None && ads.len() == 0 ==> rows.len() == 1 && rows[0].ads_name
                is None && rows[0].logical_size == 0 && rows[0].physical_size == 0
                && rows[0].resident_data is None
        }),
{
}

/// A deleted record is left out in allocated mode, and in no other.
pub proof fn law_deleted_records_are_shown(
    rec: RecordModel,
    index: Map<u64, NodeModel>,
    host: Option<Seq<char>>,
    mode: Mode,
)
    ensures
        rows_of(rec, index, host, mode).len() == 0 <==> mode is Allocated && !rec.in_use,
{
}

/// Whatever the mode, a row shows its record: number, sequence, flags, link count, the SI
/// quad and the DOS attributes of its `$STANDARD_INFORMATION` (unset where it has none),
/// and the host.
pub proof fn law_row_shows_the_record(
    rec: RecordModel,
    index: Map<u64, NodeModel>,
    host: Option<Seq<char>>,
    mode: Mode,
    i: int,
)
    requires
        0 <= i < rows_of(rec, index, host, mode).len(),
    ensures
        ({
            let row = rows_of(rec, index, host, mode)[i];
            &&& row.host == host
            &&& row.entry == rec.entry
            &&& row.sequence == rec.sequence
            &&& row.is_dir == rec.is_dir
            &&& row.is_allocated == rec.in_use
            &&& row.hard_link_count == rec.hard_link_count
            &&& match rec.standard_info {
                Some(si) => {
                    &&& row.si.created == si.macb.created
                    &&& row.si.modified == si.macb.modified
                    &&& row.si.accessed == si.macb.accessed
                    &&& row.si.mft_modified == si.macb.mft_modified
                    &&& row.dos_attributes == si.dos_attributes
                },
                None => {
                    &&& row.si.created is None
                    &&& row.si.modified is None
                    &&& row.si.accessed is None
                    &&& row.si.mft_modified is None
                    &&& row.dos_attributes == 0
                },
            }
        }),
{
}

/// Whatever the mode, a row shows the primary name of its record, with the parent and the
/// FN quad that go with that name: the first long one, or else the first.
pub proof fn law_row_shows_the_primary_name(
    rec: RecordModel,
    index: Map<u64, NodeModel>,
    host: Option<Seq<char>>,
    mode: Mode,
    i: int,
    p: int,
)
    requires
        0 <= i < rows_of(rec, index, host, mode).len(),
        0 <= p < rec.file_names.len(),
        ({
            let long = |j: int|
                rec.file_names[j].namespace is Win32 || rec.file_names[j].namespace is Win32AndDos;
            if long(p) {
                forall|j: int| 0 <= j < p ==> !#[trigger] long(j)
            } else {
                p == 0 && forall|j: int| 0 <= j < rec.file_names.len() ==> !#[trigger] long(j)
            }
        }),
    ensures
        ({
            let row = rows_of(rec, index, host, mode)[i];
            let name = rec.file_names[p];
            &&& row.file_name == Some(name.name)
            &&& row.parent_entry == Some(name.parent_entry)
            &&& row.fna.created == name.macb.created
            &&& row.fna.modified == name.macb.modified
            &&& row.fna.accessed == name.macb.accessed
            &&& row.fna.mft_modified == name.macb.mft_modified
        }),
{
    let names = rec.file_names;
    let long = |j: int| names[j].namespace is Win32 || names[j].namespace is Win32AndDos;
    law_long_name_is_preferred(names, p);
    let q = primary_of(names)->0;
    law_long_name_is_preferred(names, q);
    if long(p) {
        assert(long(q) && q <= p);
        if q < p {
            assert(!long(q));
        }
    } else {
        assert(!long(q));
    }
}

/// A record without a name has rows without one, and with no FN time set.
pub proof fn law_row_of_a_nameless_record(
    rec: RecordModel,
    index: Map<u64, NodeModel>,
    host: Option<Seq<char>>,
    mode: Mode,
    i: int,
)
    requires
        0 <= i < rows_of(rec, index, host, mode).len(),
        rec.file_names.len() == 0,
    ensures
        ({
            let row = rows_of(rec, index, host, mode)[i];
            &&& row.file_name is None
            &&& row.parent_entry is None
            &&& row.fna.created is None
            &&& row.fna.modified is None
            &&& row.fna.accessed is None
            &&& row.fna.mft_modified is None
        }),
{
    law_no_name_is_primary(rec.file_names);
}

/// A row's path is the one its record resolves to over at most 256 entries, and its
/// diagnostics are those of the record and of that path, and nothing else: none where
/// there is none, the record's own where the path is clean, and the path's last otherwise.
pub proof fn law_row_diagnostics(
    rec: RecordModel,
    index: Map<u64, NodeModel>,
    host: Option<Seq<char>>,
    mode: Mode,
    i: int,
)
    requires
        0 <= i < rows_of(rec, index, host, mode).len(),
    ensures
        ({
            let row = rows_of(rec, index, host, mode)[i];
            let path = resolved(index, rec.entry, 256);
            &&& row.full_path == Some(path.path)
            &&& match (rec.diagnostics_text(), path.diagnostic) {
                (None, None) => row.diagnostics is None,
                (Some(d), None) => row.diagnostics == Some(d),
                (None, Some(p)) => row.diagnostics == Some(p),
                (Some(d), Some(p)) => row.diagnostics == Some(d + seq![','] + p),
            }
        }),
{
    let path = resolved(index, rec.entry, DEFAULT_MAX_DEPTH);
    reveal_strlit(",");
    assert(","@ =~= seq![',']);
    if let Some(p) = path.diagnostic {
        crate::text::law_joined_grows_by_a_part(rec.diagnostics, ","@, p);
        if rec.diagnostics.len() == 0 {
            assert(rec.diagnostics.push(p) =~= seq![p]);
        }
    }
}

/// The columns hold each value under its own name; a row is deleted exactly when it is
/// not allocated.
pub proof fn law_columns_keep_their_names(c: TimelineColumns, i: int, row: RowModel)
    requires
        c.shows(i, row),
    ensures
        opt_text(c.host@[i]) == row.host,
        c.entry@[i] == row.entry && c.sequence@[i] == row.sequence,
        c.parent_entry@[i] == row.parent_entry,
        opt_text(c.full_path@[i]) == row.full_path,
        opt_text(c.file_name@[i]) == row.file_name,
        c.is_dir@[i] == row.is_dir,
        c.is_allocated@[i] == row.is_allocated,
        c.is_deleted@[i] != c.is_allocated@[i],
        c.si_created@[i] == row.si.created && c.si_modified@[i] == row.si.modified,
        c.si_accessed@[i] == row.si.accessed && c.si_mft_modified@[i] == row.si.mft_modified,
        c.fn_created@[i] == row.fna.created && c.fn_modified@[i] == row.fna.modified,
        c.fn_accessed@[i] == row.fna.accessed && c.fn_mft_modified@[i] == row.fna.mft_modified,
        c.logical_size@[i] == row.logical_size && c.physical_size@[i] == row.physical_size,
        c.hard_link_count@[i] == row.hard_link_count,
        c.dos_attributes@[i] == row.dos_attributes,
        opt_text(c.ads_name@[i]) == row.ads_name,
        opt_bytes(c.resident_data@[i]) == row.resident_data,
        opt_text(c.diagnostics@[i]) == row.diagnostics,
{
}

/// The suspect flag of a row is a matter of the times in its own columns: SI before FN in
/// the created or in the modified time, or both SI times on whole seconds.
pub proof fn law_suspect_column_follows_the_times(c: TimelineColumns, i: int, row: RowModel)
    requires
        c.shows(i, row),
    ensures
        ({
            let before = |a: Option<i64>, b: Option<i64>|
                a matches Some(x) && b matches Some(y) && x < y;
            let whole = |a: Option<i64>| a matches Some(x) && x as int % 1_000_000 == 0;
            c.is_timestomp_suspect@[i] <==> {
                ||| before(c.si_created@[i], c.fn_created@[i])
                ||| before(c.si_modified@[i], c.fn_modified@[i])
                ||| whole(c.si_created@[i]) && whole(c.si_modified@[i])
            }
        }),
{
}

/// A row and its contents are the same value.
pub proof fn law_row_contents(r: EmitRow)
    ensures
        r@.host == opt_text(r.host) && r@.entry == r.entry && r@.sequence == r.sequence,
        r@.parent_entry == r.parent_entry && r@.full_path == opt_text(r.full_path),
        r@.file_name == opt_text(r.file_name),
        r@.is_dir == r.is_dir && r@.is_allocated == r.is_allocated,
        r@.si == r.si && r@.fna == r.fna,
        r@.logical_size == r.logical_size && r@.physical_size == r.physical_size,
        r@.hard_link_count == r.hard_link_count && r@.dos_attributes == r.dos_attributes,
        r@.ads_name == opt_text(r.ads_name) && r@.resident_data == opt_bytes(r.resident_data),
        r@.diagnostics == opt_text(r.diagnostics),
{
}

} // verus!
