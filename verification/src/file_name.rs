//! `$FILE_NAME` (type `0x30`): parent reference, the FN MACB quad, logical and
//! physical size, the name and its namespace.

use vstd::prelude::*;

use crate::standard_info::{macb_of, Macb, AttrTimes};

verus! {

/// A filename namespace as the record parser names it.
#[derive(Clone, Copy, Debug, PartialEq, Eq, Structural)]
pub enum FileNamespace {
    POSIX,
    Win32,
    DOS,
    Win32AndDos,
}

/// The NTFS filename namespace of a `$FILE_NAME` attribute.
#[derive(Clone, Copy, Debug, PartialEq, Eq, Structural)]
pub enum Namespace {
    Posix,
    Win32,
    Dos,
    Win32AndDos,
}

/// The namespace that the parser's name stands for.
pub open spec fn namespace_of(ns: FileNamespace) -> Namespace {
    match ns {
        FileNamespace::POSIX => Namespace::Posix,
        FileNamespace::Win32 => Namespace::Win32,
        FileNamespace::DOS => Namespace::Dos,
        FileNamespace::Win32AndDos => Namespace::Win32AndDos,
    }
}

impl Namespace {
    pub fn from_attr(ns: &FileNamespace) -> (r: Self)
        ensures
            r == namespace_of(*ns),
    {
        match ns {
            FileNamespace::POSIX => Namespace::Posix,
            FileNamespace::Win32 => Namespace::Win32,
            FileNamespace::DOS => Namespace::Dos,
            FileNamespace::Win32AndDos => Namespace::Win32AndDos,
        }
    }

    /// The name of this namespace.
    pub open spec fn label(self) -> Seq<char> {
        match self {
            Namespace::Posix => "POSIX"@,
            Namespace::Win32 => "Win32"@,
            Namespace::Dos => "DOS"@,
            Namespace::Win32AndDos => "Win32AndDos"@,
        }
    }

    pub fn as_str(self) -> (r: &'static str)
        ensures
            r@ == self.label(),
    {
        match self {
            Namespace::Posix => "POSIX",
            Namespace::Win32 => "Win32",
            Namespace::Dos => "DOS",
            Namespace::Win32AndDos => "Win32AndDos",
        }
    }

    /// Whether names of this namespace are human-readable long names.
    pub open spec fn long(self) -> bool {
        self == Namespace::Win32 || self == Namespace::Win32AndDos
    }

    /// Whether this name is a human-readable long name (Win32 / Win32&DOS), as
    /// opposed to the 8.3 DOS short name or a POSIX name. The timeline path is
    /// built from a long name in preference to a short one.
    pub fn is_long(self) -> (r: bool)
        ensures
            r == self.long(),
    {
        matches!(self, Namespace::Win32 | Namespace::Win32AndDos)
    }
}

/// A `$FILE_NAME` attribute as the record parser reads it.
#[derive(Clone, Debug, PartialEq, Eq)]
pub struct FileNameAttr {
    pub name: String,
    pub namespace: FileNamespace,
    pub parent_entry: u64,
    pub parent_seq: u16,
    pub times: AttrTimes,
    pub logical_size: u64,
    pub physical_size: u64,
}

/// The contents of a [`FileNameAttr`].
pub struct FileNameAttrModel {
    pub name: Seq<char>,
    pub namespace: FileNamespace,
    pub parent_entry: u64,
    pub parent_seq: u16,
    pub times: AttrTimes,
    pub logical_size: u64,
    pub physical_size: u64,
}

impl View for FileNameAttr {
    type V = FileNameAttrModel;

    open spec fn view(&self) -> FileNameAttrModel {
        FileNameAttrModel {
            name: self.name@,
            namespace: self.namespace,
            parent_entry: self.parent_entry,
            parent_seq: self.parent_seq,
            times: self.times,
            logical_size: self.logical_size,
            physical_size: self.physical_size,
        }
    }
}

/// A decoded `$FILE_NAME` attribute. A record may carry several (a Win32 long
/// name and its 8.3 DOS short name, plus one per hard link).
#[derive(Debug, PartialEq, Eq)]
pub struct FileName {
    pub name: String,
    pub namespace: Namespace,
    /// Parent directory's MFT entry number.
    pub parent_entry: u64,
    /// Parent's *expected* sequence number (for stale-parent detection).
    pub parent_seq: u16,
    pub macb: Macb,
    pub logical_size: u64,
    pub physical_size: u64,
}

/// The contents of a [`FileName`].
pub struct FileNameModel {
    pub name: Seq<char>,
    pub namespace: Namespace,
    pub parent_entry: u64,
    pub parent_seq: u16,
    pub macb: Macb,
    pub logical_size: u64,
    pub physical_size: u64,
}

impl View for FileName {
    type V = FileNameModel;

    open spec fn view(&self) -> FileNameModel {
        FileNameModel {
            name: self.name@,
            namespace: self.namespace,
            parent_entry: self.parent_entry,
            parent_seq: self.parent_seq,
            macb: self.macb,
            logical_size: self.logical_size,
            physical_size: self.physical_size,
        }
    }
}

impl Clone for FileName {
    fn clone(&self) -> (r: Self)
        ensures
            r == *self,
    {
        FileName {
            name: self.name.clone(),
            namespace: self.namespace,
            parent_entry: self.parent_entry,
            parent_seq: self.parent_seq,
            macb: self.macb,
            logical_size: self.logical_size,
            physical_size: self.physical_size,
        }
    }
}

/// The decoded form of a `$FILE_NAME` attribute.
pub open spec fn file_name_of(fna: FileNameAttrModel) -> FileNameModel {
    FileNameModel {
        name: fna.name,
        namespace: namespace_of(fna.namespace),
        parent_entry: fna.parent_entry,
        parent_seq: fna.parent_seq,
        macb: macb_of(fna.times),
        logical_size: fna.logical_size,
        physical_size: fna.physical_size,
    }
}

impl FileName {
    pub fn from_attr(fna: &FileNameAttr) -> (r: Self)
        ensures
            r@ == file_name_of(fna@),
    {
        FileName {
            name: fna.name.clone(),
            namespace: Namespace::from_attr(&fna.namespace),
            parent_entry: fna.parent_entry,
            parent_seq: fna.parent_seq,
            macb: Macb::from_times(&fna.times),
            logical_size: fna.logical_size,
            physical_size: fna.physical_size,
        }
    }
}

/// The contents of a list of names.
pub open spec fn file_names_model(names: Seq<FileName>) -> Seq<FileNameModel> {
    names.map_values(|n: FileName| n@)
}

/// Whether `names[i]` is the first long name.
pub open spec fn first_long(names: Seq<FileNameModel>, i: int) -> bool {
    &&& 0 <= i < names.len()
    &&& names[i].namespace.long()
    &&& forall|j: int| 0 <= j < i ==> !(#[trigger] names[j]).namespace.long()
}

/// The primary name's index: the first long name if there is one, else the first
/// name, else none.
pub open spec fn primary_of(names: Seq<FileNameModel>) -> Option<int> {
    if exists|i: int| first_long(names, i) {
        Some(choose|i: int| first_long(names, i))
    } else if names.len() > 0 {
        Some(0)
    } else {
        None
    }
}

/// There is at most one first long name.
pub proof fn lemma_first_long_unique(names: Seq<FileNameModel>, i: int, j: int)
    requires
        first_long(names, i),
        first_long(names, j),
    ensures
        i == j,
{
    if i < j {
        assert(!names[i].namespace.long());
    }
    if j < i {
        assert(!names[j].namespace.long());
    }
}

/// Choose the primary `$FILE_NAME` from a record's list: prefer a long
/// (Win32 / Win32&DOS) name, else fall back to the first available.
pub fn primary_index(names: &[FileName]) -> (r: Option<usize>)
    ensures
        match r {
            Some(i) => i < names@.len() && primary_of(file_names_model(names@)) == Some(i as int),
            None => primary_of(file_names_model(names@)) is None,
        },
{
    let ghost models = file_names_model(names@);
    let mut i: usize = 0;
    while i < names.len()
        invariant
            i <= names@.len(),
            models == file_names_model(names@),
            forall|j: int| 0 <= j < i ==> !(#[trigger] models[j]).namespace.long(),
        decreases names@.len() - i,
    {
        if names[i].namespace.is_long() {
            proof {
                assert(first_long(models, i as int));
                lemma_first_long_unique(models, i as int, choose|k: int| first_long(models, k));
            }
            return Some(i);
        }
        assert(models[i as int].namespace == names@[i as int].namespace);
        i = i + 1;
    }
    if names.len() == 0 {
        None
    } else {
        Some(0)
    }
}

/// A decoded `$FILE_NAME` keeps what the attribute holds.
pub proof fn law_file_name_is_kept(fna: FileNameAttrModel)
    ensures
        ({
            let f = file_name_of(fna);
            &&& f.name == fna.name
            &&& f.parent_entry == fna.parent_entry
            &&& f.parent_seq == fna.parent_seq
            &&& f.logical_size == fna.logical_size
            &&& f.physical_size == fna.physical_size
            &&& f.macb == macb_of(fna.times)
            &&& f.namespace is Posix <==> fna.namespace is POSIX
            &&& f.namespace is Win32 <==> fna.namespace is Win32
            &&& f.namespace is Dos <==> fna.namespace is DOS
            &&& f.namespace is Win32AndDos <==> fna.namespace is Win32AndDos
        }),
{
}

/// The names of the namespaces, and which of them are long.
pub proof fn law_namespace_labels(ns: Namespace)
    ensures
        ns is Posix ==> ns.label() == "POSIX"@ && !ns.long(),
        ns is Win32 ==> ns.label() == "Win32"@ && ns.long(),
        ns is Dos ==> ns.label() == "DOS"@ && !ns.long(),
        ns is Win32AndDos ==> ns.label() == "Win32AndDos"@ && ns.long(),
{
}

/// A long name (Win32, or Win32 and DOS in one) is preferred over any other, and the
/// earlier of two equals: the primary name is long wherever there is a long name, no long
/// name stands before it, and it is the first where none is long.
pub proof fn law_long_name_is_preferred(names: Seq<FileNameModel>, i: int)
    requires
        0 <= i < names.len(),
    ensures
        ({
            let long = |j: int| names[j].namespace is Win32 || names[j].namespace is Win32AndDos;
            &&& primary_of(names) matches Some(p) && 0 <= p < names.len()
            &&& long(i) ==> long(primary_of(names)->0) && primary_of(names)->0 <= i
            &&& !long(primary_of(names)->0) ==> primary_of(names)->0 == 0
        }),
{
    if exists|k: int| first_long(names, k) {
        let p = choose|k: int| first_long(names, k);
        assert(first_long(names, p));
        if names[i].namespace.long() && i < p {
            assert(!names[i].namespace.long());
        }
    } else if names[i].namespace.long() {
        lemma_some_first_long(names, i);
    }
}

/// Where a name is long, one is the first.
proof fn lemma_some_first_long(names: Seq<FileNameModel>, i: int)
    requires
        0 <= i < names.len(),
        names[i].namespace.long(),
    ensures
        exists|k: int| first_long(names, k),
    decreases i,
{
    if exists|j: int| 0 <= j < i && (#[trigger] names[j]).namespace.long() {
        let j = choose|j: int| 0 <= j < i && (#[trigger] names[j]).namespace.long();
        lemma_some_first_long(names, j);
    } else {
        assert(first_long(names, i));
    }
}

/// A record without names has no primary name.
pub proof fn law_no_name_is_primary(names: Seq<FileNameModel>)
    requires
        names.len() == 0,
    ensures
        primary_of(names) is None,
{
}

/// A name and its contents are the same value.
pub proof fn law_name_contents(f: FileName)
    ensures
        f@.name == f.name@ && f@.namespace == f.namespace,
        f@.parent_entry == f.parent_entry && f@.parent_seq == f.parent_seq,
        f@.macb == f.macb,
        f@.logical_size == f.logical_size && f@.physical_size == f.physical_size,
{
}

} // verus!
