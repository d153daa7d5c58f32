//! The relation functions `attributes` and `streams`: every attribute, or every
//! `$DATA` stream, of each `(blob, entry)` input row becomes one output row.

use vstd::prelude::*;

use crate::data::{opt_bytes, AttrInfo, AttrInfoModel, DataStream, DataStreamModel};
use crate::errors::opt_text;
use crate::record_table::{flattened, lemma_flat_push};
use crate::scalars::{decode_row, record_for, RecordArgs};

verus! {

/// An attribute with the number of its record.
pub struct AttributeItem {
    pub entry: u64,
    pub attribute: AttrInfoModel,
}

/// The output rows of one input row: its record's attributes in order; none where it
/// has no record.
pub open spec fn attribute_items(args: RecordArgs) -> Seq<AttributeItem> {
    match record_for(args) {
        Some(rec) => rec.attributes.map_values(
            |a: AttrInfoModel| AttributeItem { entry: rec.entry, attribute: a },
        ),
        None => Seq::empty(),
    }
}

/// The output rows of each input row.
pub open spec fn attribute_lists(rows: Seq<RecordArgs>) -> Seq<Seq<AttributeItem>> {
    rows.map_values(|args: RecordArgs| attribute_items(args))
}

/// The columns of `attributes`.
pub struct AttributeColumns {
    pub entry: Vec<u64>,
    pub attribute_id: Vec<u16>,
    pub type_id: Vec<u32>,
    pub type_label: Vec<String>,
    pub resident: Vec<bool>,
    pub name: Vec<Option<String>>,
    pub logical_size: Vec<u64>,
    pub physical_size: Vec<u64>,
    pub flags: Vec<u32>,
}

impl AttributeColumns {
    /// Whether every column has `n` values.
    pub open spec fn rows(self, n: nat) -> bool {
        &&& self.entry@.len() == n
        &&& self.attribute_id@.len() == n
        &&& self.type_id@.len() == n
        &&& self.type_label@.len() == n
        &&& self.resident@.len() == n
        &&& self.name@.len() == n
        &&& self.logical_size@.len() == n
        &&& self.physical_size@.len() == n
        &&& self.flags@.len() == n
    }

    /// Whether row `i` is `item`.
    pub open spec fn shows(self, i: int, item: AttributeItem) -> bool {
        &&& self.entry@[i] == item.entry
        &&& self.attribute_id@[i] == item.attribute.attribute_id
        &&& self.type_id@[i] == item.attribute.type_id
        &&& self.type_label@[i]@ == item.attribute.type_label
        &&& self.resident@[i] == item.attribute.resident
        &&& opt_text(self.name@[i]) == item.attribute.name
        &&& self.logical_size@[i] == item.attribute.logical_size
        &&& self.physical_size@[i] == item.attribute.physical_size
        &&& self.flags@[i] == item.attribute.flags
    }

    /// Whether the rows are `items`.
    pub open spec fn holds(self, items: Seq<AttributeItem>) -> bool {
        &&& self.rows(items.len())
        &&& forall|i: int| 0 <= i < items.len() ==> self.shows(i, #[trigger] items[i])
    }

    fn push(&mut self, entry: u64, a: &AttrInfo, Ghost(items): Ghost<Seq<AttributeItem>>)
        requires
            old(self).holds(items),
        ensures
            final(self).holds(items.push(AttributeItem { entry, attribute: a@ })),
    {
        self.entry.push(entry);
        self.attribute_id.push(a.attribute_id);
        self.type_id.push(a.type_id);
        self.type_label.push(a.type_label.clone());
        self.resident.push(a.resident);
        self.name.push(
            match &a.name {
                Some(n) => Some(n.clone()),
                None => None,
            },
        );
        self.logical_size.push(a.logical_size);
        self.physical_size.push(a.physical_size);
        self.flags.push(a.flags as u32);
        let ghost grown = items.push(AttributeItem { entry, attribute: a@ });
        assert forall|i: int| 0 <= i < grown.len() implies self.shows(
            i,
            #[trigger] grown[i],
        ) by {
            if i < items.len() {
                assert(old(self).shows(i, items[i]));
            }
        }
    }
}

/// `attributes` over a batch: every attribute of each row's record.
pub fn attributes_rows(rows: &[RecordArgs]) -> (r: AttributeColumns)
    ensures
        r.holds(flattened(attribute_lists(rows@))),
{
    let mut out = AttributeColumns {
        entry: Vec::new(),
        attribute_id: Vec::new(),
        type_id: Vec::new(),
        type_label: Vec::new(),
        resident: Vec::new(),
        name: Vec::new(),
        logical_size: Vec::new(),
        physical_size: Vec::new(),
        flags: Vec::new(),
    };
    let mut i: usize = 0;
    assert(attribute_lists(rows@.take(0)) =~= Seq::empty());
    while i < rows.len()
        invariant
            i <= rows@.len(),
            out.holds(flattened(attribute_lists(rows@.take(i as int)))),
        decreases rows@.len() - i,
    {
        let ghost done = flattened(attribute_lists(rows@.take(i as int)));
        let ghost more = attribute_items(rows@[i as int]);
        proof {
            assert(attribute_lists(rows@.take(i + 1)) =~= attribute_lists(
                rows@.take(i as int),
            ).push(more));
            lemma_flat_push(attribute_lists(rows@.take(i as int)), more);
            assert(done + more.take(0) =~= done);
        }
        match decode_row(&rows[i]) {
            Some(rec) => {
                let mut k: usize = 0;
                while k < rec.attributes.len()
                    invariant
                        k <= rec.attributes@.len(),
                        record_for(rows@[i as int]) == Some(rec@),
                        more == attribute_items(rows@[i as int]),
                        out.holds(done + more.take(k as int)),
                    decreases rec.attributes@.len() - k,
                {
                    out.push(rec.entry, &rec.attributes[k], Ghost(done + more.take(k as int)));
                    assert((done + more.take(k as int)).push(more[k as int]) =~= done + more.take(
                        k + 1,
                    ));
                    k = k + 1;
                }
                assert(more.take(more.len() as int) =~= more);
            },
            None => {
                assert(done + more =~= done);
            },
        }
        i = i + 1;
    }
    assert(rows@.take(rows@.len() as int) =~= rows@);
    out
}

/// A stream with the number of its record.
pub struct StreamItem {
    pub entry: u64,
    pub stream: DataStreamModel,
}

/// The output rows of one input row: its record's streams, the primary one first;
/// none where it has no record.
pub open spec fn stream_items(args: RecordArgs) -> Seq<StreamItem> {
    match record_for(args) {
        Some(rec) => rec.data.in_order().map_values(
            |s: DataStreamModel| StreamItem { entry: rec.entry, stream: s },
        ),
        None => Seq::empty(),
    }
}

/// The output rows of each input row.
pub open spec fn stream_lists(rows: Seq<RecordArgs>) -> Seq<Seq<StreamItem>> {
    rows.map_values(|args: RecordArgs| stream_items(args))
}

/// The columns of `streams`.
pub struct StreamColumns {
    pub entry: Vec<u64>,
    pub name: Vec<Option<String>>,
    pub logical_size: Vec<u64>,
    pub physical_size: Vec<u64>,
    pub resident: Vec<bool>,
    pub data: Vec<Option<Vec<u8>>>,
}

impl StreamColumns {
    /// Whether every column has `n` values.
    pub open spec fn rows(self, n: nat) -> bool {
        &&& self.entry@.len() == n
        &&& self.name@.len() == n
        &&& self.logical_size@.len() == n
        &&& self.physical_size@.len() == n
        &&& self.resident@.len() == n
        &&& self.data@.len() == n
    }

    /// Whether row `i` is `item`.
    pub open spec fn shows(self, i: int, item: StreamItem) -> bool {
        &&& self.entry@[i] == item.entry
        &&& opt_text(self.name@[i]) == item.stream.name
        &&& self.logical_size@[i] == item.stream.logical_size
        &&& self.physical_size@[i] == item.stream.physical_size
        &&& self.resident@[i] == item.stream.resident
        &&& opt_bytes(self.data@[i]) == item.stream.data
    }

    /// Whether the rows are `items`.
    pub open spec fn holds(self, items: Seq<StreamItem>) -> bool {
        &&& self.rows(items.len())
        &&& forall|i: int| 0 <= i < items.len() ==> self.shows(i, #[trigger] items[i])
    }

    fn push(&mut self, entry: u64, s: &DataStream, Ghost(items): Ghost<Seq<StreamItem>>)
        requires
            old(self).holds(items),
        ensures
            final(self).holds(items.push(StreamItem { entry, stream: s@ })),
    {
        self.entry.push(entry);
        self.name.push(
            match &s.name {
                Some(n) => Some(n.clone()),
                None => None,
            },
        );
        self.logical_size.push(s.logical_size);
        self.physical_size.push(s.physical_size);
        self.resident.push(s.resident);
        let bytes = match &s.data {
            Some(b) => {
                let copy = b.clone();
                assert(copy@ =~= b@);
                Some(copy)
            },
            None => None,
        };
        self.data.push(bytes);
        let ghost grown = items.push(StreamItem { entry, stream: s@ });
        assert forall|i: int| 0 <= i < grown.len() implies self.shows(
            i,
            #[trigger] grown[i],
        ) by {
            if i < items.len() {
                assert(old(self).shows(i, items[i]));
            }
        }
    }
}

/// `streams` over a batch: every `$DATA` stream of each row's record.
pub fn streams_rows(rows: &[RecordArgs]) -> (r: StreamColumns)
    ensures
        r.holds(flattened(stream_lists(rows@))),
{
    let mut out = StreamColumns {
        entry: Vec::new(),
        name: Vec::new(),
        logical_size: Vec::new(),
        physical_size: Vec::new(),
        resident: Vec::new(),
        data: Vec::new(),
    };
    let mut i: usize = 0;
    assert(stream_lists(rows@.take(0)) =~= Seq::empty());
    while i < rows.len()
        invariant
            i <= rows@.len(),
            out.holds(flattened(stream_lists(rows@.take(i as int)))),
        decreases rows@.len() - i,
    {
        let ghost done = flattened(stream_lists(rows@.take(i as int)));
        let ghost more = stream_items(rows@[i as int]);
        proof {
            assert(stream_lists(rows@.take(i + 1)) =~= stream_lists(rows@.take(i as int)).push(
                more,
            ));
            lemma_flat_push(stream_lists(rows@.take(i as int)), more);
            assert(done + more.take(0) =~= done);
        }
        match decode_row(&rows[i]) {
            Some(rec) => {
                let streams = rec.data.iter();
                let ghost models = streams@.map_values(|d: &DataStream| d@);
                let mut k: usize = 0;
                while k < streams.len()
                    invariant
                        k <= streams@.len(),
                        models == streams@.map_values(|d: &DataStream| d@),
                        models == rec@.data.in_order(),
                        record_for(rows@[i as int]) == Some(rec@),
                        more == stream_items(rows@[i as int]),
                        out.holds(done + more.take(k as int)),
                    decreases streams@.len() - k,
                {
                    out.push(rec.entry, streams[k], Ghost(done + more.take(k as int)));
                    assert(models[k as int] == streams@[k as int]@);
                    assert((done + more.take(k as int)).push(more[k as int]) =~= done + more.take(
                        k + 1,
                    ));
                    k = k + 1;
                }
                assert(more.take(more.len() as int) =~= more);
            },
            None => {
                assert(done + more =~= done);
            },
        }
        i = i + 1;
    }
    assert(rows@.take(rows@.len() as int) =~= rows@);
    out
}

/// The attributes of one more input row come behind the others, one output row each and
/// in order, under the number of their record; a row without a record adds none.
pub proof fn law_each_row_adds_its_attributes(
    c: AttributeColumns,
    rows: Seq<RecordArgs>,
    args: RecordArgs,
    start: int,
)
    requires
        c.holds(flattened(attribute_lists(rows.push(args)))),
        start == flattened(attribute_lists(rows)).len(),
    ensures
        record_for(args) is None ==> c.entry@.len() == start,
        record_for(args) matches Some(rec) ==> {
            &&& c.entry@.len() == start + rec.attributes.len()
            &&& forall|j: int|
                0 <= j < rec.attributes.len() ==> {
                    let a = #[trigger] rec.attributes[j];
                    let k = start + j;
                    &&& c.entry@[k] == rec.entry
                    &&& c.attribute_id@[k] == a.attribute_id
                    &&& c.type_id@[k] == a.type_id
                    &&& c.type_label@[k]@ == a.type_label
                    &&& c.resident@[k] == a.resident
                    &&& opt_text(c.name@[k]) == a.name
                    &&& c.logical_size@[k] == a.logical_size
                    &&& c.physical_size@[k] == a.physical_size
                    &&& c.flags@[k] == a.flags
                }
        },
{
    let more = attribute_items(args);
    let all = flattened(attribute_lists(rows.push(args)));
    assert(attribute_lists(rows.push(args)) =~= attribute_lists(rows).push(more));
    lemma_flat_push(attribute_lists(rows), more);
    if let Some(rec) = record_for(args) {
        assert forall|j: int| 0 <= j < rec.attributes.len() implies ({
            let a = #[trigger] rec.attributes[j];
            let k = start + j;
            &&& c.entry@[k] == rec.entry
            &&& c.attribute_id@[k] == a.attribute_id
            &&& c.type_id@[k] == a.type_id
            &&& c.type_label@[k]@ == a.type_label
            &&& c.resident@[k] == a.resident
            &&& opt_text(c.name@[k]) == a.name
            &&& c.logical_size@[k] == a.logical_size
            &&& c.physical_size@[k] == a.physical_size
            &&& c.flags@[k] == a.flags
        }) by {
            assert(all[start + j] == more[j]);
            assert(c.shows(start + j, all[start + j]));
        }
    }
}

/// The streams of one more input row come behind the others, one output row each: the
/// primary one first, then the alternate ones in order, under the number of their record;
/// a row without a record adds none.
pub proof fn law_each_row_adds_its_streams(
    c: StreamColumns,
    rows: Seq<RecordArgs>,
    args: RecordArgs,
    start: int,
)
    requires
        c.holds(flattened(stream_lists(rows.push(args)))),
        start == flattened(stream_lists(rows)).len(),
    ensures
        record_for(args) is None ==> c.entry@.len() == start,
        record_for(args) matches Some(rec) ==> {
            let shift = if rec.data.primary is Some {
                1int
            } else {
                0
            };
            &&& c.entry@.len() == start + shift + rec.data.ads.len()
            &&& rec.data.primary matches Some(p) ==> {
                &&& c.entry@[start] == rec.entry
                &&& opt_text(c.name@[start]) == p.name
                &&& c.logical_size@[start] == p.logical_size
                &&& c.physical_size@[start] == p.physical_size
                &&& c.resident@[start] == p.resident
                &&& opt_bytes(c.data@[start]) == p.data
            }
            &&& forall|j: int|
                0 <= j < rec.data.ads.len() ==> {
                    let s = #[trigger] rec.data.ads[j];
                    let k = start + shift + j;
                    &&& c.entry@[k] == rec.entry
                    &&& opt_text(c.name@[k]) == s.name
                    &&& c.logical_size@[k] == s.logical_size
                    &&& c.physical_size@[k] == s.physical_size
                    &&& c.resident@[k] == s.resident
                    &&& opt_bytes(c.data@[k]) == s.data
                }
        },
{
    let more = stream_items(args);
    let all = flattened(stream_lists(rows.push(args)));
    assert(stream_lists(rows.push(args)) =~= stream_lists(rows).push(more));
    lemma_flat_push(stream_lists(rows), more);
    if let Some(rec) = record_for(args) {
        let shift = if rec.data.primary is Some {
            1int
        } else {
            0
        };
        let streams = rec.data.in_order();
        assert forall|j: int| 0 <= j < streams.len() implies c.shows(
            start + j,
            (StreamItem { entry: rec.entry, stream: #[trigger] streams[j] }),
        ) by {
            assert(all[start + j] == more[j]);
            assert(c.shows(start + j, all[start + j]));
        }
        if let Some(p) = rec.data.primary {
            assert(streams[0] == p);
        }
        assert forall|j: int| 0 <= j < rec.data.ads.len() implies ({
            let s = #[trigger] rec.data.ads[j];
            let k = start + shift + j;
            &&& c.entry@[k] == rec.entry
            &&& opt_text(c.name@[k]) == s.name
            &&& c.logical_size@[k] == s.logical_size
            &&& c.physical_size@[k] == s.physical_size
            &&& c.resident@[k] == s.resident
            &&& opt_bytes(c.data@[k]) == s.data
        }) by {
            assert(streams[shift + j] == rec.data.ads[j]);
        }
    }
}

/// No input, no output.
pub proof fn law_no_row_adds_nothing()
    ensures
        flattened(attribute_lists(Seq::empty())).len() == 0,
        flattened(stream_lists(Seq::empty())).len() == 0,
{
    assert(attribute_lists(Seq::empty()) =~= Seq::empty());
    assert(stream_lists(Seq::empty()) =~= Seq::empty());
}

} // verus!
