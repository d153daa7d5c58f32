//! The columns of the `mft_record` struct: one element per input row, with nested
//! lists for the names, the alternate streams and the attributes of each record.
//!
//! A list column is flat: the items of all rows one after another, an offset per row
//! boundary, and a validity flag per row.

use vstd::prelude::*;

use crate::data::{opt_bytes, AttrInfo, AttrInfoModel, DataStream, DataStreamModel};
use crate::errors::opt_text;
use crate::file_name::{file_names_model, FileName, FileNameModel};
use crate::record::{opt_record, DecodedRecord, RecordModel};
use crate::standard_info::StandardInfo;

verus! {

/// The items of some lists, one list after another.
pub open spec fn flattened<T>(lists: Seq<Seq<T>>) -> Seq<T>
    decreases lists.len(),
{
    if lists.len() == 0 {
        Seq::empty()
    } else {
        flattened(lists.drop_last()) + lists.last()
    }
}

/// Whether `offsets` are the boundaries of `lists` in their flat form: where each list
/// begins, and where the last one ends.
pub open spec fn bounds_of<T>(offsets: Seq<i32>, lists: Seq<Seq<T>>) -> bool {
    &&& offsets.len() == lists.len() + 1
    &&& forall|i: int|
        0 <= i <= lists.len() ==> #[trigger] offsets[i] == flattened(lists.take(i)).len()
}

/// The part of a flat list between two boundaries is the list of that row.
pub proof fn law_boundaries_give_the_list_back<T>(offsets: Seq<i32>, lists: Seq<Seq<T>>, i: int)
    requires
        bounds_of(offsets, lists),
        0 <= i < lists.len(),
    ensures
        0 <= offsets[i] <= offsets[i + 1] <= flattened(lists).len(),
        flattened(lists).subrange(offsets[i] as int, offsets[i + 1] as int) == lists[i],
{
    let upto = lists.take(i + 1);
    assert(upto.drop_last() =~= lists.take(i));
    assert(upto.last() == lists[i]);
    lemma_flat_prefix(lists, i + 1);
    let whole = flattened(lists);
    let front = flattened(upto);
    assert(offsets[i] == flattened(lists.take(i)).len());
    assert(offsets[i + 1] == front.len());
    assert(front.subrange(offsets[i] as int, offsets[i + 1] as int) =~= lists[i]);
    assert(whole.subrange(offsets[i] as int, offsets[i + 1] as int) =~= front.subrange(
        offsets[i] as int,
        offsets[i + 1] as int,
    ));
}

/// The flat form of the first lists is the front of the flat form of all.
pub proof fn lemma_flat_prefix<T>(lists: Seq<Seq<T>>, k: int)
    requires
        0 <= k <= lists.len(),
    ensures
        flattened(lists.take(k)).len() <= flattened(lists).len(),
        flattened(lists).take(flattened(lists.take(k)).len() as int) == flattened(lists.take(k)),
    decreases lists.len(),
{
    if k == lists.len() {
        assert(lists.take(k) =~= lists);
        assert(flattened(lists).take(flattened(lists).len() as int) =~= flattened(lists));
    } else {
        let shorter = lists.drop_last();
        assert(shorter.take(k) =~= lists.take(k));
        lemma_flat_prefix(shorter, k);
        let n = flattened(lists.take(k)).len() as int;
        assert(flattened(lists).take(n) =~= flattened(shorter).take(n));
    }
}

/// One more list extends the flat form.
pub proof fn lemma_flat_push<T>(lists: Seq<Seq<T>>, more: Seq<T>)
    ensures
        flattened(lists.push(more)) == flattened(lists) + more,
{
    assert(lists.push(more).drop_last() =~= lists);
}

/// One more boundary for one more list.
pub proof fn lemma_bounds_push<T>(offsets: Seq<i32>, lists: Seq<Seq<T>>, more: Seq<T>, end: i32)
    requires
        bounds_of(offsets, lists),
        end == flattened(lists).len() + more.len(),
    ensures
        bounds_of(offsets.push(end), lists.push(more)),
{
    let grown = lists.push(more);
    lemma_flat_push(lists, more);
    assert forall|i: int| 0 <= i <= grown.len() implies #[trigger] offsets.push(end)[i]
        == flattened(grown.take(i)).len() by {
        if i <= lists.len() {
            assert(grown.take(i) =~= lists.take(i));
            assert(offsets[i] == flattened(lists.take(i)).len());
        } else {
            assert(grown.take(i) =~= grown);
        }
    }
}

/// The flat list of `$FILE_NAME`s.
pub struct NameList {
    pub name: Vec<String>,
    pub namespace: Vec<&'static str>,
    pub parent_entry: Vec<u64>,
    pub parent_seq: Vec<u16>,
    pub created: Vec<Option<i64>>,
    pub modified: Vec<Option<i64>>,
    pub accessed: Vec<Option<i64>>,
    pub mft_modified: Vec<Option<i64>>,
    pub logical_size: Vec<u64>,
    pub physical_size: Vec<u64>,
    pub offsets: Vec<i32>,
}

impl NameList {
    /// Whether every item column has `n` values.
    pub open spec fn items(self, n: nat) -> bool {
        &&& self.name@.len() == n
        &&& self.namespace@.len() == n
        &&& self.parent_entry@.len() == n
        &&& self.parent_seq@.len() == n
        &&& self.created@.len() == n
        &&& self.modified@.len() == n
        &&& self.accessed@.len() == n
        &&& self.mft_modified@.len() == n
        &&& self.logical_size@.len() == n
        &&& self.physical_size@.len() == n
    }

    /// Whether item `i` is the name `f`.
    pub open spec fn shows(self, i: int, f: FileNameModel) -> bool {
        &&& self.name@[i]@ == f.name
        &&& self.namespace@[i]@ == f.namespace.label()
        &&& self.parent_entry@[i] == f.parent_entry
        &&& self.parent_seq@[i] == f.parent_seq
        &&& self.created@[i] == f.macb.created
        &&& self.modified@[i] == f.macb.modified
        &&& self.accessed@[i] == f.macb.accessed
        &&& self.mft_modified@[i] == f.macb.mft_modified
        &&& self.logical_size@[i] == f.logical_size
        &&& self.physical_size@[i] == f.physical_size
    }

    /// Whether this is the flat form of `lists`.
    pub open spec fn holds(self, lists: Seq<Seq<FileNameModel>>) -> bool {
        &&& self.items(flattened(lists).len())
        &&& forall|i: int|
            0 <= i < flattened(lists).len() ==> self.shows(i, #[trigger] flattened(lists)[i])
        &&& bounds_of(self.offsets@, lists)
    }

    fn new() -> (r: Self)
        ensures
            r.holds(Seq::empty()),
    {
        let mut offsets: Vec<i32> = Vec::new();
        offsets.push(0);
        let r = NameList {
            name: Vec::new(),
            namespace: Vec::new(),
            parent_entry: Vec::new(),
            parent_seq: Vec::new(),
            created: Vec::new(),
            modified: Vec::new(),
            accessed: Vec::new(),
            mft_modified: Vec::new(),
            logical_size: Vec::new(),
            physical_size: Vec::new(),
            offsets,
        };
        proof {
            let none = Seq::<Seq<FileNameModel>>::empty();
            assert(none.take(0) =~= none);
        }
        r
    }

    fn push(&mut self, f: &FileName, Ghost(n): Ghost<nat>)
        requires
            old(self).items(n),
        ensures
            final(self).items(n + 1),
            final(self).shows(n as int, f@),
            final(self).offsets == old(self).offsets,
            forall|i: int, m: FileNameModel|
                0 <= i < n && old(self).shows(i, m) ==> #[trigger] final(self).shows(i, m),
    {
        self.name.push(f.name.clone());
        self.namespace.push(f.namespace.as_str());
        self.parent_entry.push(f.parent_entry);
        self.parent_seq.push(f.parent_seq);
        self.created.push(f.macb.created);
        self.modified.push(f.macb.modified);
        self.accessed.push(f.macb.accessed);
        self.mft_modified.push(f.macb.mft_modified);
        self.logical_size.push(f.logical_size);
        self.physical_size.push(f.physical_size);
    }

    /// Appends the list of one row.
    fn push_list(&mut self, names: &Vec<FileName>, Ghost(lists): Ghost<Seq<Seq<FileNameModel>>>)
        requires
            old(self).holds(lists),
            flattened(lists).len() + names@.len() <= i32::MAX,
        ensures
            final(self).holds(lists.push(file_names_model(names@))),
    {
        let ghost flat = flattened(lists);
        let ghost models = file_names_model(names@);
        let ghost grown = flattened(lists.push(models));
        proof {
            lemma_flat_push(lists, models);
        }
        let mut i: usize = 0;
        while i < names.len()
            invariant
                i <= names@.len(),
                models == file_names_model(names@),
                grown == flat + models,
                self.items(flat.len() + i as nat),
                self.offsets == old(self).offsets,
                forall|j: int| 0 <= j < flat.len() + i ==> self.shows(j, #[trigger] grown[j]),
            decreases names@.len() - i,
        {
            let ghost before = *self;
            self.push(&names[i], Ghost(flat.len() + i as nat));
            assert forall|j: int| 0 <= j < flat.len() + i + 1 implies self.shows(
                j,
                #[trigger] grown[j],
            ) by {
                if j < flat.len() + i {
                    assert(before.shows(j, grown[j]));
                } else {
                    assert(grown[j] == models[i as int]);
                }
            }
            i = i + 1;
        }
        let end: usize = self.name.len();
        self.offsets.push(end as i32);
        proof {
            lemma_bounds_push(old(self).offsets@, lists, models, end as i32);
        }
    }
}

/// The flat list of alternate data streams.
pub struct AdsList {
    pub name: Vec<Option<String>>,
    pub logical_size: Vec<u64>,
    pub resident: Vec<bool>,
    pub offsets: Vec<i32>,
}

impl AdsList {
    /// Whether every item column has `n` values.
    pub open spec fn items(self, n: nat) -> bool {
        &&& self.name@.len() == n
        &&& self.logical_size@.len() == n
        &&& self.resident@.len() == n
    }

    /// Whether item `i` is the stream `a`.
    pub open spec fn shows(self, i: int, a: DataStreamModel) -> bool {
        &&& opt_text(self.name@[i]) == a.name
        &&& self.logical_size@[i] == a.logical_size
        &&& self.resident@[i] == a.resident
    }

    /// Whether this is the flat form of `lists`.
    pub open spec fn holds(self, lists: Seq<Seq<DataStreamModel>>) -> bool {
        &&& self.items(flattened(lists).len())
        &&& forall|i: int|
            0 <= i < flattened(lists).len() ==> self.shows(i, #[trigger] flattened(lists)[i])
        &&& bounds_of(self.offsets@, lists)
    }

    fn new() -> (r: Self)
        ensures
            r.holds(Seq::empty()),
    {
        let mut offsets: Vec<i32> = Vec::new();
        offsets.push(0);
        let r = AdsList {
            name: Vec::new(),
            logical_size: Vec::new(),
            resident: Vec::new(),
            offsets,
        };
        proof {
            let none = Seq::<Seq<DataStreamModel>>::empty();
            assert(none.take(0) =~= none);
        }
        r
    }

    /// Appends the list of one row.
    fn push_list(&mut self, ads: &Vec<DataStream>, Ghost(lists): Ghost<Seq<Seq<DataStreamModel>>>)
        requires
            old(self).holds(lists),
            flattened(lists).len() + ads@.len() <= i32::MAX,
        ensures
            final(self).holds(lists.push(crate::data::streams_model(ads@))),
    {
        let ghost flat = flattened(lists);
        let ghost models = crate::data::streams_model(ads@);
        let ghost grown = flattened(lists.push(models));
        proof {
            lemma_flat_push(lists, models);
        }
        let mut i: usize = 0;
        while i < ads.len()
            invariant
                i <= ads@.len(),
                models == crate::data::streams_model(ads@),
                grown == flat + models,
                self.items(flat.len() + i as nat),
                self.offsets == old(self).offsets,
                forall|j: int| 0 <= j < flat.len() + i ==> self.shows(j, #[trigger] grown[j]),
            decreases ads@.len() - i,
        {
            let ghost before = *self;
            let a = &ads[i];
            self.name.push(
                match &a.name {
                    Some(n) => Some(n.clone()),
                    None => None,
                },
            );
            self.logical_size.push(a.logical_size);
            self.resident.push(a.resident);
            assert forall|j: int| 0 <= j < flat.len() + i + 1 implies self.shows(
                j,
                #[trigger] grown[j],
            ) by {
                if j < flat.len() + i {
                    assert(before.shows(j, grown[j]));
                } else {
                    assert(grown[j] == models[i as int]);
                }
            }
            i = i + 1;
        }
        let end: usize = self.name.len();
        self.offsets.push(end as i32);
        proof {
            lemma_bounds_push(old(self).offsets@, lists, models, end as i32);
        }
    }
}

/// The flat list of attributes.
pub struct AttrList {
    pub type_id: Vec<u32>,
    pub type_label: Vec<String>,
    pub resident: Vec<bool>,
    pub name: Vec<Option<String>>,
    pub offsets: Vec<i32>,
}

impl AttrList {
    /// Whether every item column has `n` values.
    pub open spec fn items(self, n: nat) -> bool {
        &&& self.type_id@.len() == n
        &&& self.type_label@.len() == n
        &&& self.resident@.len() == n
        &&& self.name@.len() == n
    }

    /// Whether item `i` is the attribute `a`.
    pub open spec fn shows(self, i: int, a: AttrInfoModel) -> bool {
        &&& self.type_id@[i] == a.type_id
        &&& self.type_label@[i]@ == a.type_label
        &&& self.resident@[i] == a.resident
        &&& opt_text(self.name@[i]) == a.name
    }

    /// Whether this is the flat form of `lists`.
    pub open spec fn holds(self, lists: Seq<Seq<AttrInfoModel>>) -> bool {
        &&& self.items(flattened(lists).len())
        &&& forall|i: int|
            0 <= i < flattened(lists).len() ==> self.shows(i, #[trigger] flattened(lists)[i])
        &&& bounds_of(self.offsets@, lists)
    }

    fn new() -> (r: Self)
        ensures
            r.holds(Seq::empty()),
    {
        let mut offsets: Vec<i32> = Vec::new();
        offsets.push(0);
        let r = AttrList {
            type_id: Vec::new(),
            type_label: Vec::new(),
            resident: Vec::new(),
            name: Vec::new(),
            offsets,
        };
        proof {
            let none = Seq::<Seq<AttrInfoModel>>::empty();
            assert(none.take(0) =~= none);
        }
        r
    }

    /// Appends the list of one row.
    fn push_list(
        &mut self,
        attributes: &Vec<AttrInfo>,
        Ghost(lists): Ghost<Seq<Seq<AttrInfoModel>>>,
    )
        requires
            old(self).holds(lists),
            flattened(lists).len() + attributes@.len() <= i32::MAX,
        ensures
            final(self).holds(lists.push(crate::data::attr_infos_model(attributes@))),
    {
        let ghost flat = flattened(lists);
        let ghost models = crate::data::attr_infos_model(attributes@);
        let ghost grown = flattened(lists.push(models));
        proof {
            lemma_flat_push(lists, models);
        }
        let mut i: usize = 0;
        while i < attributes.len()
            invariant
                i <= attributes@.len(),
                models == crate::data::attr_infos_model(attributes@),
                grown == flat + models,
                self.items(flat.len() + i as nat),
                self.offsets == old(self).offsets,
                forall|j: int| 0 <= j < flat.len() + i ==> self.shows(j, #[trigger] grown[j]),
            decreases attributes@.len() - i,
        {
            let ghost before = *self;
            let a = &attributes[i];
            self.type_id.push(a.type_id);
            self.type_label.push(a.type_label.clone());
            self.resident.push(a.resident);
            self.name.push(
                match &a.name {
                    Some(n) => Some(n.clone()),
                    None => None,
                },
            );
            assert forall|j: int| 0 <= j < flat.len() + i + 1 implies self.shows(
                j,
                #[trigger] grown[j],
            ) by {
                if j < flat.len() + i {
                    assert(before.shows(j, grown[j]));
                } else {
                    assert(grown[j] == models[i as int]);
                }
            }
            i = i + 1;
        }
        let end: usize = self.type_id.len();
        self.offsets.push(end as i32);
        proof {
            lemma_bounds_push(old(self).offsets@, lists, models, end as i32);
        }
    }
}

/// The columns of the `si` struct.
pub struct InfoColumns {
    pub created: Vec<Option<i64>>,
    pub modified: Vec<Option<i64>>,
    pub accessed: Vec<Option<i64>>,
    pub mft_modified: Vec<Option<i64>>,
    pub dos_attributes: Vec<Option<u32>>,
    pub usn: Vec<Option<u64>>,
    pub validity: Vec<bool>,
}

impl InfoColumns {
    /// Whether every column has `n` values.
    pub open spec fn rows(self, n: nat) -> bool {
        &&& self.created@.len() == n
        &&& self.modified@.len() == n
        &&& self.accessed@.len() == n
        &&& self.mft_modified@.len() == n
        &&& self.dos_attributes@.len() == n
        &&& self.usn@.len() == n
        &&& self.validity@.len() == n
    }

    /// Whether row `i` is `si`: its values, or all null.
    pub open spec fn shows(self, i: int, si: Option<StandardInfo>) -> bool {
        match si {
            Some(s) => {
                &&& self.created@[i] == s.macb.created
                &&& self.modified@[i] == s.macb.modified
                &&& self.accessed@[i] == s.macb.accessed
                &&& self.mft_modified@[i] == s.macb.mft_modified
                &&& self.dos_attributes@[i] == Some(s.dos_attributes)
                &&& self.usn@[i] == Some(s.usn)
                &&& self.validity@[i]
            },
            None => {
                &&& self.created@[i] is None
                &&& self.modified@[i] is None
                &&& self.accessed@[i] is None
                &&& self.mft_modified@[i] is None
                &&& self.dos_attributes@[i] is None
                &&& self.usn@[i] is None
                &&& !self.validity@[i]
            },
        }
    }

    /// Appends a row.
    fn push_si(&mut self, si: Option<&StandardInfo>, Ghost(n): Ghost<nat>)
        requires
            old(self).rows(n),
        ensures
            final(self).rows(n + 1),
            final(self).shows(
                n as int,
                match si {
                    Some(s) => Some(*s),
                    None => None,
                },
            ),
            forall|i: int, m: Option<StandardInfo>|
                0 <= i < n && old(self).shows(i, m) ==> #[trigger] final(self).shows(i, m),
    {
        match si {
            Some(s) => {
                self.created.push(s.macb.created);
                self.modified.push(s.macb.modified);
                self.accessed.push(s.macb.accessed);
                self.mft_modified.push(s.macb.mft_modified);
                self.dos_attributes.push(Some(s.dos_attributes));
                self.usn.push(Some(s.usn));
                self.validity.push(true);
            },
            None => {
                self.created.push(None);
                self.modified.push(None);
                self.accessed.push(None);
                self.mft_modified.push(None);
                self.dos_attributes.push(None);
                self.usn.push(None);
                self.validity.push(false);
            },
        }
    }
}

/// The columns of the `data` struct.
pub struct DataColumns {
    pub resident: Vec<Option<bool>>,
    pub logical_size: Vec<Option<u64>>,
    pub physical_size: Vec<Option<u64>>,
    pub resident_bytes: Vec<Option<Vec<u8>>>,
    pub validity: Vec<bool>,
}

impl DataColumns {
    /// Whether every column has `n` values.
    pub open spec fn rows(self, n: nat) -> bool {
        &&& self.resident@.len() == n
        &&& self.logical_size@.len() == n
        &&& self.physical_size@.len() == n
        &&& self.resident_bytes@.len() == n
        &&& self.validity@.len() == n
    }

    /// Whether row `i` is the stream `d`: its values, or all null.
    pub open spec fn shows(self, i: int, d: Option<DataStreamModel>) -> bool {
        match d {
            Some(s) => {
                &&& self.resident@[i] == Some(s.resident)
                &&& self.logical_size@[i] == Some(s.logical_size)
                &&& self.physical_size@[i] == Some(s.physical_size)
                &&& opt_bytes(self.resident_bytes@[i]) == s.data
                &&& self.validity@[i]
            },
            None => {
                &&& self.resident@[i] is None
                &&& self.logical_size@[i] is None
                &&& self.physical_size@[i] is None
                &&& self.resident_bytes@[i] is None
                &&& !self.validity@[i]
            },
        }
    }

    /// Appends a row.
    fn push_data(&mut self, d: Option<&DataStream>, Ghost(n): Ghost<nat>)
        requires
            old(self).rows(n),
        ensures
            final(self).rows(n + 1),
            final(self).shows(
                n as int,
                match d {
                    Some(s) => Some(s@),
                    None => None,
                },
            ),
            forall|i: int, m: Option<DataStreamModel>|
                0 <= i < n && old(self).shows(i, m) ==> #[trigger] final(self).shows(i, m),
    {
        match d {
            Some(s) => {
                self.resident.push(Some(s.resident));
                self.logical_size.push(Some(s.logical_size));
                self.physical_size.push(Some(s.physical_size));
                let bytes = match &s.data {
                    Some(b) => {
                        let copy = b.clone();
                        assert(copy@ =~= b@);
                        Some(copy)
                    },
                    None => None,
                };
                self.resident_bytes.push(bytes);
                self.validity.push(true);
            },
            None => {
                self.resident.push(None);
                self.logical_size.push(None);
                self.physical_size.push(None);
                self.resident_bytes.push(None);
                self.validity.push(false);
            },
        }
    }
}

/// The columns of the `mft_record` struct.
pub struct RecordColumns {
    pub entry: Vec<u64>,
    pub sequence: Vec<u16>,
    pub in_use: Vec<bool>,
    pub is_dir: Vec<bool>,
    pub base_ref: Vec<u64>,
    pub lsn: Vec<u64>,
    pub hard_links: Vec<u16>,
    pub si: InfoColumns,
    pub names: NameList,
    pub data: DataColumns,
    pub ads: AdsList,
    pub attributes: AttrList,
    /// Whether the row is a record; also the validity of its three lists.
    pub validity: Vec<bool>,
}

/// The names of a row.
pub open spec fn names_in(rec: Option<RecordModel>) -> Seq<FileNameModel> {
    match rec {
        Some(r) => r.file_names,
        None => Seq::empty(),
    }
}

/// The alternate streams of a row.
pub open spec fn ads_in(rec: Option<RecordModel>) -> Seq<DataStreamModel> {
    match rec {
        Some(r) => r.data.ads,
        None => Seq::empty(),
    }
}

/// The attributes of a row.
pub open spec fn attrs_in(rec: Option<RecordModel>) -> Seq<AttrInfoModel> {
    match rec {
        Some(r) => r.attributes,
        None => Seq::empty(),
    }
}

/// The names of each row.
pub open spec fn name_lists(records: Seq<Option<RecordModel>>) -> Seq<Seq<FileNameModel>> {
    records.map_values(|r: Option<RecordModel>| names_in(r))
}

/// The alternate streams of each row.
pub open spec fn ads_lists(records: Seq<Option<RecordModel>>) -> Seq<Seq<DataStreamModel>> {
    records.map_values(|r: Option<RecordModel>| ads_in(r))
}

/// The attributes of each row.
pub open spec fn attr_lists(records: Seq<Option<RecordModel>>) -> Seq<Seq<AttrInfoModel>> {
    records.map_values(|r: Option<RecordModel>| attrs_in(r))
}

/// The contents of the rows.
pub open spec fn record_rows(records: Seq<Option<DecodedRecord>>) -> Seq<Option<RecordModel>> {
    records.map_values(|r: Option<DecodedRecord>| opt_record(r))
}

/// Whether the boundaries of the three lists can be held.
pub open spec fn lists_fit(records: Seq<Option<RecordModel>>) -> bool {
    &&& flattened(name_lists(records)).len() <= i32::MAX
    &&& flattened(ads_lists(records)).len() <= i32::MAX
    &&& flattened(attr_lists(records)).len() <= i32::MAX
}

impl RecordColumns {
    /// Whether every column has `n` values.
    pub open spec fn rows(self, n: nat) -> bool {
        &&& self.entry@.len() == n
        &&& self.sequence@.len() == n
        &&& self.in_use@.len() == n
        &&& self.is_dir@.len() == n
        &&& self.base_ref@.len() == n
        &&& self.lsn@.len() == n
        &&& self.hard_links@.len() == n
        &&& self.si.rows(n)
        &&& self.data.rows(n)
        &&& self.validity@.len() == n
    }

    /// Whether row `i` is `rec`: its values, or a null struct over zeros.
    pub open spec fn shows(self, i: int, rec: Option<RecordModel>) -> bool {
        match rec {
            Some(r) => {
                &&& self.entry@[i] == r.entry
                &&& self.sequence@[i] == r.sequence
                &&& self.in_use@[i] == r.in_use
                &&& self.is_dir@[i] == r.is_dir
                &&& self.base_ref@[i] == r.base_ref
                &&& self.lsn@[i] == r.lsn
                &&& self.hard_links@[i] == r.hard_link_count
                &&& self.si.shows(i, r.standard_info)
                &&& self.data.shows(i, r.data.primary)
                &&& self.validity@[i]
            },
            None => {
                &&& self.entry@[i] == 0
                &&& self.sequence@[i] == 0
                &&& !self.in_use@[i]
                &&& !self.is_dir@[i]
                &&& self.base_ref@[i] == 0
                &&& self.lsn@[i] == 0
                &&& self.hard_links@[i] == 0
                &&& self.si.shows(i, None)
                &&& self.data.shows(i, None)
                &&& !self.validity@[i]
            },
        }
    }

    /// Whether these are the columns of `records`.
    pub open spec fn holds(self, records: Seq<Option<RecordModel>>) -> bool {
        &&& self.rows(records.len())
        &&& forall|i: int| 0 <= i < records.len() ==> self.shows(i, #[trigger] records[i])
        &&& self.names.holds(name_lists(records))
        &&& self.ads.holds(ads_lists(records))
        &&& self.attributes.holds(attr_lists(records))
    }

    fn new() -> (r: Self)
        ensures
            r.holds(Seq::empty()),
    {
        let r = RecordColumns {
            entry: Vec::new(),
            sequence: Vec::new(),
            in_use: Vec::new(),
            is_dir: Vec::new(),
            base_ref: Vec::new(),
            lsn: Vec::new(),
            hard_links: Vec::new(),
            si: InfoColumns {
                created: Vec::new(),
                modified: Vec::new(),
                accessed: Vec::new(),
                mft_modified: Vec::new(),
                dos_attributes: Vec::new(),
                usn: Vec::new(),
                validity: Vec::new(),
            },
            names: NameList::new(),
            data: DataColumns {
                resident: Vec::new(),
                logical_size: Vec::new(),
                physical_size: Vec::new(),
                resident_bytes: Vec::new(),
                validity: Vec::new(),
            },
            ads: AdsList::new(),
            attributes: AttrList::new(),
            validity: Vec::new(),
        };
        proof {
            let none = Seq::<Option<RecordModel>>::empty();
            assert(name_lists(none) =~= Seq::empty());
            assert(ads_lists(none) =~= Seq::empty());
            assert(attr_lists(none) =~= Seq::empty());
        }
        r
    }

    /// Appends a row.
    fn push(&mut self, rec: &Option<DecodedRecord>, Ghost(records): Ghost<Seq<Option<RecordModel>>>)
        requires
            old(self).holds(records),
            lists_fit(records.push(opt_record(*rec))),
        ensures
            final(self).holds(records.push(opt_record(*rec))),
    {
        let ghost n = records.len();
        let ghost model = opt_record(*rec);
        let ghost grown = records.push(model);
        proof {
            assert(name_lists(grown) =~= name_lists(records).push(names_in(model)));
            assert(ads_lists(grown) =~= ads_lists(records).push(ads_in(model)));
            assert(attr_lists(grown) =~= attr_lists(records).push(attrs_in(model)));
            lemma_flat_push(name_lists(records), names_in(model));
            lemma_flat_push(ads_lists(records), ads_in(model));
            lemma_flat_push(attr_lists(records), attrs_in(model));
        }
        match rec {
            None => {
                self.entry.push(0);
                self.sequence.push(0);
                self.in_use.push(false);
                self.is_dir.push(false);
                self.base_ref.push(0);
                self.lsn.push(0);
                self.hard_links.push(0);
                self.si.push_si(None, Ghost(n));
                self.data.push_data(None, Ghost(n));
                self.names.push_list(&Vec::new(), Ghost(name_lists(records)));
                self.ads.push_list(&Vec::new(), Ghost(ads_lists(records)));
                self.attributes.push_list(&Vec::new(), Ghost(attr_lists(records)));
                self.validity.push(false);
                proof {
                    assert(file_names_model(Seq::empty()) =~= Seq::empty());
                    assert(crate::data::streams_model(Seq::empty()) =~= Seq::empty());
                    assert(crate::data::attr_infos_model(Seq::empty()) =~= Seq::empty());
                }
            },
            Some(r) => {
                self.entry.push(r.entry);
                self.sequence.push(r.sequence);
                self.in_use.push(r.in_use);
                self.is_dir.push(r.is_dir);
                self.base_ref.push(r.base_ref);
                self.lsn.push(r.lsn);
                self.hard_links.push(r.hard_link_count);
                self.si.push_si(r.standard_info.as_ref(), Ghost(n));
                self.data.push_data(r.data.primary.as_ref(), Ghost(n));
                self.names.push_list(&r.file_names, Ghost(name_lists(records)));
                self.ads.push_list(&r.data.ads, Ghost(ads_lists(records)));
                self.attributes.push_list(&r.attributes, Ghost(attr_lists(records)));
                self.validity.push(true);
            },
        }
        assert forall|i: int| 0 <= i < grown.len() implies self.shows(
            i,
            #[trigger] grown[i],
        ) by {
            if i < n {
                assert(old(self).shows(i, records[i]));
            }
        }
    }
}

/// Build the `mft_record` columns (one element per input row; `None` = SQL `NULL`
/// struct for an empty / unparseable slot).
pub fn build_mft_record_array(records: &[Option<DecodedRecord>]) -> (r: RecordColumns)
    requires
        lists_fit(record_rows(records@)),
    ensures
        r.holds(record_rows(records@)),
{
    let mut columns = RecordColumns::new();
    let ghost all = record_rows(records@);
    let mut i: usize = 0;
    assert(all.take(0) =~= Seq::empty());
    while i < records.len()
        invariant
            i <= records@.len(),
            all == record_rows(records@),
            lists_fit(all),
            columns.holds(all.take(i as int)),
        decreases records@.len() - i,
    {
        proof {
            assert(all.take(i + 1) =~= all.take(i as int).push(opt_record(records@[i as int])));
            lemma_lists_fit_prefix(all, i + 1);
        }
        columns.push(&records[i], Ghost(all.take(i as int)));
        i = i + 1;
    }
    assert(all.take(all.len() as int) =~= all);
    columns
}

/// Where the boundaries of all rows can be held, those of the first rows can.
proof fn lemma_lists_fit_prefix(records: Seq<Option<RecordModel>>, k: int)
    requires
        0 <= k <= records.len(),
        lists_fit(records),
    ensures
        lists_fit(records.take(k)),
{
    assert(name_lists(records.take(k)) =~= name_lists(records).take(k));
    assert(ads_lists(records.take(k)) =~= ads_lists(records).take(k));
    assert(attr_lists(records.take(k)) =~= attr_lists(records).take(k));
    lemma_flat_prefix(name_lists(records), k);
    lemma_flat_prefix(ads_lists(records), k);
    lemma_flat_prefix(attr_lists(records), k);
}

/// A flat list loses, adds and reorders nothing: no list is empty, and one more list comes
/// behind the others, item by item.
pub proof fn law_flat_list_grows_by_a_list<T>(lists: Seq<Seq<T>>, more: Seq<T>)
    ensures
        flattened(Seq::<Seq<T>>::empty()).len() == 0,
        flattened(lists.push(more)).len() == flattened(lists).len() + more.len(),
        forall|j: int|
            0 <= j < more.len() ==> flattened(lists.push(more))[flattened(lists).len() + j]
                == #[trigger] more[j],
        forall|j: int|
            0 <= j < flattened(lists).len() ==> flattened(lists.push(more))[j]
                == #[trigger] flattened(lists)[j],
{
    lemma_flat_push(lists, more);
}

/// Item `j` of list `i` stands `j` behind the boundary where the list begins.
proof fn lemma_item_of_list<T>(offsets: Seq<i32>, lists: Seq<Seq<T>>, i: int, j: int)
    requires
        bounds_of(offsets, lists),
        0 <= i < lists.len(),
        0 <= j < lists[i].len(),
    ensures
        0 <= offsets[i] + j < flattened(lists).len(),
        flattened(lists)[offsets[i] + j] == lists[i][j],
{
    law_boundaries_give_the_list_back(offsets, lists, i);
    let part = flattened(lists).subrange(offsets[i] as int, offsets[i + 1] as int);
    assert(part[j] == lists[i][j]);
}

/// A row shows its record, each value under its own name: the header fields, the
/// `$STANDARD_INFORMATION` and the primary stream, the latter two null where the record has
/// none.
pub proof fn law_record_row_shows_the_record(
    c: RecordColumns,
    records: Seq<Option<RecordModel>>,
    i: int,
    r: RecordModel,
)
    requires
        c.holds(records),
        0 <= i < records.len(),
        records[i] == Some(r),
    ensures
        c.validity@[i],
        c.entry@[i] == r.entry && c.sequence@[i] == r.sequence,
        c.in_use@[i] == r.in_use && c.is_dir@[i] == r.is_dir,
        c.base_ref@[i] == r.base_ref && c.lsn@[i] == r.lsn,
        c.hard_links@[i] == r.hard_link_count,
        c.si.validity@[i] == r.standard_info is Some,
        c.data.validity@[i] == r.data.primary is Some,
        match r.standard_info {
            Some(si) => {
                &&& c.si.created@[i] == si.macb.created && c.si.modified@[i] == si.macb.modified
                &&& c.si.accessed@[i] == si.macb.accessed
                &&& c.si.mft_modified@[i] == si.macb.mft_modified
                &&& c.si.dos_attributes@[i] == Some(si.dos_attributes)
                &&& c.si.usn@[i] == Some(si.usn)
            },
            None => c.si.created@[i] is None && c.si.modified@[i] is None && c.si.accessed@[i]
                is None && c.si.mft_modified@[i] is None && c.si.dos_attributes@[i] is None
                && c.si.usn@[i] is None,
        },
        match r.data.primary {
            Some(p) => {
                &&& c.data.resident@[i] == Some(p.resident)
                &&& c.data.logical_size@[i] == Some(p.logical_size)
                &&& c.data.physical_size@[i] == Some(p.physical_size)
                &&& opt_bytes(c.data.resident_bytes@[i]) == p.data
            },
            None => c.data.resident@[i] is None && c.data.logical_size@[i] is None
                && c.data.physical_size@[i] is None && c.data.resident_bytes@[i] is None,
        },
{
    assert(c.shows(i, records[i]));
}

/// A row without a record is null, and its three lists are empty.
pub proof fn law_missing_record_is_null(
    c: RecordColumns,
    records: Seq<Option<RecordModel>>,
    i: int,
)
    requires
        c.holds(records),
        0 <= i < records.len(),
        records[i] is None,
    ensures
        !c.validity@[i] && !c.si.validity@[i] && !c.data.validity@[i],
        c.names.offsets@[i] == c.names.offsets@[i + 1],
        c.ads.offsets@[i] == c.ads.offsets@[i + 1],
        c.attributes.offsets@[i] == c.attributes.offsets@[i + 1],
{
    assert(c.shows(i, records[i]));
    law_boundaries_give_the_list_back(c.names.offsets@, name_lists(records), i);
    law_boundaries_give_the_list_back(c.ads.offsets@, ads_lists(records), i);
    law_boundaries_give_the_list_back(c.attributes.offsets@, attr_lists(records), i);
    assert(name_lists(records)[i].len() == 0);
    assert(ads_lists(records)[i].len() == 0);
    assert(attr_lists(records)[i].len() == 0);
}

/// The lists of a row have as many items as its record has names, alternate streams and
/// attributes.
pub proof fn law_lists_have_their_lengths(
    c: RecordColumns,
    records: Seq<Option<RecordModel>>,
    i: int,
    r: RecordModel,
)
    requires
        c.holds(records),
        0 <= i < records.len(),
        records[i] == Some(r),
    ensures
        c.names.offsets@[i + 1] - c.names.offsets@[i] == r.file_names.len(),
        c.ads.offsets@[i + 1] - c.ads.offsets@[i] == r.data.ads.len(),
        c.attributes.offsets@[i + 1] - c.attributes.offsets@[i] == r.attributes.len(),
        c.names.offsets@[0] == 0 && c.ads.offsets@[0] == 0 && c.attributes.offsets@[0] == 0,
        c.names.name@.len() == c.names.offsets@[records.len() as int],
        c.ads.name@.len() == c.ads.offsets@[records.len() as int],
        c.attributes.name@.len() == c.attributes.offsets@[records.len() as int],
{
    let n = records.len() as int;
    law_boundaries_give_the_list_back(c.names.offsets@, name_lists(records), i);
    law_boundaries_give_the_list_back(c.ads.offsets@, ads_lists(records), i);
    law_boundaries_give_the_list_back(c.attributes.offsets@, attr_lists(records), i);
    assert(name_lists(records)[i] == r.file_names);
    assert(ads_lists(records)[i] == r.data.ads);
    assert(attr_lists(records)[i] == r.attributes);
    assert(name_lists(records).take(0) =~= Seq::empty());
    assert(ads_lists(records).take(0) =~= Seq::empty());
    assert(attr_lists(records).take(0) =~= Seq::empty());
    assert(name_lists(records).take(n) =~= name_lists(records));
    assert(ads_lists(records).take(n) =~= ads_lists(records));
    assert(attr_lists(records).take(n) =~= attr_lists(records));
}

/// Name `j` of a row's record stands `j` behind the row's boundary, each value under its
/// own name.
pub proof fn law_name_list_shows_the_names(
    c: RecordColumns,
    records: Seq<Option<RecordModel>>,
    i: int,
    r: RecordModel,
    j: int,
)
    requires
        c.holds(records),
        0 <= i < records.len(),
        records[i] == Some(r),
        0 <= j < r.file_names.len(),
    ensures
        ({
            let k = c.names.offsets@[i] + j;
            let f = r.file_names[j];
            &&& c.names.name@[k]@ == f.name
            &&& c.names.namespace@[k]@ == f.namespace.label()
            &&& c.names.parent_entry@[k] == f.parent_entry
            &&& c.names.parent_seq@[k] == f.parent_seq
            &&& c.names.created@[k] == f.macb.created
            &&& c.names.modified@[k] == f.macb.modified
            &&& c.names.accessed@[k] == f.macb.accessed
            &&& c.names.mft_modified@[k] == f.macb.mft_modified
            &&& c.names.logical_size@[k] == f.logical_size
            &&& c.names.physical_size@[k] == f.physical_size
        }),
{
    let lists = name_lists(records);
    assert(lists[i] == r.file_names);
    lemma_item_of_list(c.names.offsets@, lists, i, j);
    assert(c.names.shows(c.names.offsets@[i] + j, flattened(lists)[c.names.offsets@[i] + j]));
}

/// Alternate stream `j` of a row's record stands `j` behind the row's boundary.
pub proof fn law_ads_list_shows_the_streams(
    c: RecordColumns,
    records: Seq<Option<RecordModel>>,
    i: int,
    r: RecordModel,
    j: int,
)
    requires
        c.holds(records),
        0 <= i < records.len(),
        records[i] == Some(r),
        0 <= j < r.data.ads.len(),
    ensures
        ({
            let k = c.ads.offsets@[i] + j;
            let a = r.data.ads[j];
            &&& opt_text(c.ads.name@[k]) == a.name
            &&& c.ads.logical_size@[k] == a.logical_size
            &&& c.ads.resident@[k] == a.resident
        }),
{
    let lists = ads_lists(records);
    assert(lists[i] == r.data.ads);
    lemma_item_of_list(c.ads.offsets@, lists, i, j);
    assert(c.ads.shows(c.ads.offsets@[i] + j, flattened(lists)[c.ads.offsets@[i] + j]));
}

/// Attribute `j` of a row's record stands `j` behind the row's boundary.
pub proof fn law_attribute_list_shows_the_attributes(
    c: RecordColumns,
    records: Seq<Option<RecordModel>>,
    i: int,
    r: RecordModel,
    j: int,
)
    requires
        c.holds(records),
        0 <= i < records.len(),
        records[i] == Some(r),
        0 <= j < r.attributes.len(),
    ensures
        ({
            let k = c.attributes.offsets@[i] + j;
            let a = r.attributes[j];
            &&& c.attributes.type_id@[k] == a.type_id
            &&& c.attributes.type_label@[k]@ == a.type_label
            &&& c.attributes.resident@[k] == a.resident
            &&& opt_text(c.attributes.name@[k]) == a.name
        }),
{
    let lists = attr_lists(records);
    assert(lists[i] == r.attributes);
    lemma_item_of_list(c.attributes.offsets@, lists, i, j);
    assert(c.attributes.shows(
        c.attributes.offsets@[i] + j,
        flattened(lists)[c.attributes.offsets@[i] + j],
    ));
}

} // verus!
