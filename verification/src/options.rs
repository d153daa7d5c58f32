//! Argument rules of `read_mft`: the emission mode, the path / glob / blob source,
//! and which files a path stands for.

use vstd::prelude::*;

use crate::text::{ascii_lowered, has_char, same_text, texts, to_lowercase};

verus! {

/// A value that was refused, with the reason.
#[derive(Clone, Debug, PartialEq, Eq)]
pub struct ValueError {
    pub message: String,
}

/// The outcome of a fallible step: its value, or the reason of the refusal.
pub open spec fn refused<T>(r: Result<T, ValueError>, message: Seq<char>) -> bool {
    r matches Err(e) && e.message@ == message
}

/// Emission mode for `read_mft`.
#[derive(Clone, Copy, Debug, PartialEq, Eq, Structural)]
pub enum Mode {
    /// One row per record, primary stream (default).
    Files,
    /// One row per `$DATA` stream (primary + each ADS).
    Streams,
    /// Only live (allocated) records.
    Allocated,
}

/// The mode of a name, in whatever letter case.
pub open spec fn mode_named(s: Seq<char>) -> Option<Mode> {
    let name = ascii_lowered(s);
    if name == "files"@ {
        Some(Mode::Files)
    } else if name == "streams"@ {
        Some(Mode::Streams)
    } else if name == "allocated"@ {
        Some(Mode::Allocated)
    } else {
        None
    }
}

impl Mode {
    pub fn parse(s: &str) -> (r: Result<Mode, ValueError>)
        ensures
            match mode_named(s@) {
                Some(m) => r == Ok::<Mode, ValueError>(m),
                None => refused(
                    r,
                    "mode must be 'files', 'streams', or 'allocated', got '"@ + ascii_lowered(s@)
                        + "'"@,
                ),
            },
    {
        let name = to_lowercase(s);
        if same_text(name.as_str(), "files") {
            Ok(Mode::Files)
        } else if same_text(name.as_str(), "streams") {
            Ok(Mode::Streams)
        } else if same_text(name.as_str(), "allocated") {
            Ok(Mode::Allocated)
        } else {
            let mut message =
                "mode must be 'files', 'streams', or 'allocated', got '".to_string();
            message.append(name.as_str());
            message.append("'");
            Err(ValueError { message })
        }
    }
}

/// The named `mode` argument (default `files`).
pub fn mode(named: Option<&str>) -> (r: Result<Mode, ValueError>)
    ensures
        match named {
            None => r == Ok::<Mode, ValueError>(Mode::Files),
            Some(s) => match mode_named(s@) {
                Some(m) => r == Ok::<Mode, ValueError>(m),
                None => refused(
                    r,
                    "mode must be 'files', 'streams', or 'allocated', got '"@ + ascii_lowered(s@)
                        + "'"@,
                ),
            },
        },
{
    match named {
        Some(s) => Mode::parse(s),
        None => Ok(Mode::Files),
    }
}

/// The first-argument source: a VARCHAR path/glob, or an inline `$MFT` BLOB.
#[derive(Clone, Debug, PartialEq, Eq)]
pub enum Source {
    /// One or more resolved local file paths (a glob expands here).
    Files(Vec<String>),
    /// Inline `$MFT` bytes (a literal / `from_hex(...)` BLOB).
    Blob(Vec<u8>),
}

/// Whether `r` is what the two forms of the first argument stand for.
pub open spec fn sourced(
    r: Result<Source, ValueError>,
    path: Option<Result<Vec<String>, ValueError>>,
    blob: Option<Vec<u8>>,
) -> bool {
    match (path, blob) {
        (Some(Ok(files)), _) => r == Ok::<Source, ValueError>(Source::Files(files)),
        (Some(Err(e)), _) => r == Err::<Source, ValueError>(e),
        (None, Some(bytes)) => r == Ok::<Source, ValueError>(Source::Blob(bytes)),
        (None, None) => r is Err,
    }
}

/// Resolve the first positional argument to a [`Source`]. Prefers a VARCHAR
/// path/glob, given here as the files it stands for or the reason why it stands for
/// none; falls back to an inline BLOB.
pub fn source(
    path: Option<Result<Vec<String>, ValueError>>,
    blob: Option<Vec<u8>>,
) -> (r: Result<Source, ValueError>)
    ensures
        sourced(r, path, blob),
        match path {
            Some(Ok(files)) => r == Ok::<Source, ValueError>(Source::Files(files)),
            Some(Err(e)) => r == Err::<Source, ValueError>(e),
            None => match blob {
                Some(bytes) => r == Ok::<Source, ValueError>(Source::Blob(bytes)),
                None => refused(
                    r,
                    "read_mft: first argument must be a VARCHAR path/glob or a BLOB of $MFT bytes"@,
                ),
            },
        },
{
    match path {
        Some(Ok(files)) => Ok(Source::Files(files)),
        Some(Err(e)) => Err(e),
        None => match blob {
            Some(bytes) => Ok(Source::Blob(bytes)),
            None => Err(
                ValueError {
                    message:
                        "read_mft: first argument must be a VARCHAR path/glob or a BLOB of $MFT bytes".to_string(),
                },
            ),
        },
    }
}

/// Whether a path spec is a glob pattern.
pub open spec fn glob_like(spec: Seq<char>) -> bool {
    spec.contains('*') || spec.contains('?') || spec.contains('[')
}

/// Whether a path spec is a glob pattern (`*`, `?` or `[` in it), as opposed to a
/// literal path.
pub fn is_glob(spec: &str) -> (r: bool)
    ensures
        r == glob_like(spec@),
{
    has_char(spec, '*') || has_char(spec, '?') || has_char(spec, '[')
}

/// What the file system said of a path spec.
#[derive(Clone, Debug, PartialEq, Eq)]
pub enum Lookup {
    /// The spec is a literal path; whether it exists.
    Literal(bool),
    /// The spec is a glob; the paths it matches, in any order.
    Matches(Vec<String>),
    /// The spec is a malformed glob; what is wrong with it.
    BadPattern(String),
}

/// Byte sequences in lexicographic order.
pub open spec fn lex_le(a: Seq<u8>, b: Seq<u8>) -> bool
    decreases a.len(),
{
    if a.len() == 0 {
        true
    } else if b.len() == 0 {
        false
    } else if a[0] == b[0] {
        lex_le(a.drop_first(), b.drop_first())
    } else {
        a[0] < b[0]
    }
}

/// Whether one path sorts no later than another: by the bytes of its UTF-8 form.
pub open spec fn path_le(a: Seq<char>, b: Seq<char>) -> bool {
    lex_le(vstd::utf8::encode_utf8(a), vstd::utf8::encode_utf8(b))
}

/// Whether paths are in order.
pub open spec fn in_order(paths: Seq<Seq<char>>) -> bool {
    forall|i: int, j: int| 0 <= i <= j < paths.len() ==> #[trigger] path_le(paths[i], paths[j])
}

/// Tests whether `a` sorts no later than `b`.
fn check_path_le(a: &String, b: &String) -> (r: bool)
    ensures
        r == path_le(a@, b@),
{
    let x = a.as_str().as_bytes();
    let y = b.as_str().as_bytes();
    let mut i: usize = 0;
    assert(x@.skip(0) =~= x@);
    assert(y@.skip(0) =~= y@);
    while i < x.len()
        invariant
            path_le(a@, b@) == lex_le(x@, y@),
            i <= x@.len(),
            i <= y@.len(),
            lex_le(x@, y@) == lex_le(x@.skip(i as int), y@.skip(i as int)),
        decreases x@.len() - i,
    {
        if i >= y.len() {
            return false;
        }
        assert(x@.skip(i as int)[0] == x@[i as int]);
        assert(y@.skip(i as int)[0] == y@[i as int]);
        if x[i] != y[i] {
            return x[i] < y[i];
        }
        assert(x@.skip(i as int).drop_first() =~= x@.skip(i + 1));
        assert(y@.skip(i as int).drop_first() =~= y@.skip(i + 1));
        i = i + 1;
    }
    true
}

proof fn lemma_lex_total(a: Seq<u8>, b: Seq<u8>)
    ensures
        lex_le(a, b) || lex_le(b, a),
    decreases a.len(),
{
    if a.len() > 0 && b.len() > 0 && a[0] == b[0] {
        lemma_lex_total(a.drop_first(), b.drop_first());
    }
}

proof fn lemma_lex_transitive(a: Seq<u8>, b: Seq<u8>, c: Seq<u8>)
    requires
        lex_le(a, b),
        lex_le(b, c),
    ensures
        lex_le(a, c),
    decreases a.len(),
{
    if a.len() > 0 && b.len() > 0 && c.len() > 0 && a[0] == b[0] && b[0] == c[0] {
        lemma_lex_transitive(a.drop_first(), b.drop_first(), c.drop_first());
    }
}

proof fn lemma_path_total(a: Seq<char>, b: Seq<char>)
    ensures
        path_le(a, b) || path_le(b, a),
{
    lemma_lex_total(vstd::utf8::encode_utf8(a), vstd::utf8::encode_utf8(b));
}

proof fn lemma_path_transitive(a: Seq<char>, b: Seq<char>, c: Seq<char>)
    requires
        path_le(a, b),
        path_le(b, c),
    ensures
        path_le(a, c),
{
    lemma_lex_transitive(
        vstd::utf8::encode_utf8(a),
        vstd::utf8::encode_utf8(b),
        vstd::utf8::encode_utf8(c),
    );
}

/// Puts `path` into sorted `paths`, in order.
fn insert_in_order(paths: &mut Vec<String>, path: String)
    requires
        in_order(texts(old(paths)@)),
    ensures
        in_order(texts(final(paths)@)),
        texts(final(paths)@).to_multiset() == texts(old(paths)@).to_multiset().insert(path@),
{
    let ghost before = texts(paths@);
    let mut i: usize = 0;
    while i < paths.len() && check_path_le(&paths[i], &path)
        invariant
            i <= paths@.len(),
            before == texts(paths@),
            forall|j: int| 0 <= j < i ==> path_le(#[trigger] before[j], path@),
        decreases paths@.len() - i,
    {
        assert(before[i as int] == paths@[i as int]@);
        i = i + 1;
    }
    proof {
        assert forall|j: int| i <= j < before.len() implies path_le(
            path@,
            #[trigger] before[j],
        ) by {
            assert(before[i as int] == paths@[i as int]@);
            lemma_path_total(before[i as int], path@);
            assert(path_le(before[i as int], before[j]));
            lemma_path_transitive(path@, before[i as int], before[j]);
        }
    }
    paths.insert(i, path);
    proof {
        let after = texts(paths@);
        assert(after =~= before.insert(i as int, path@));
        vstd::seq_lib::to_multiset_insert(before, i as int, path@);
        lemma_path_total(path@, path@);
        assert forall|a: int, b: int| 0 <= a <= b < after.len() implies #[trigger] path_le(
            after[a],
            after[b],
        ) by {
            let p = if a < i {
                a
            } else {
                a - 1
            };
            let q = if b < i {
                b
            } else {
                b - 1
            };
            if a == i && b == i {
            } else if a == i {
                assert(path_le(path@, before[q]));
            } else if b == i {
                assert(path_le(before[p], path@));
            } else {
                assert(path_le(before[p], before[q]));
            }
        }
    }
}

/// Sorts paths by their bytes.
fn sort_paths(matches: Vec<String>) -> (r: Vec<String>)
    ensures
        in_order(texts(r@)),
        texts(r@).to_multiset() == texts(matches@).to_multiset(),
        r@.len() == matches@.len(),
{
    let mut out: Vec<String> = Vec::new();
    let ghost all = texts(matches@);
    let mut i: usize = 0;
    proof {
        assert(texts(out@) =~= all.take(0));
    }
    while i < matches.len()
        invariant
            i <= matches@.len(),
            all == texts(matches@),
            in_order(texts(out@)),
            texts(out@).to_multiset() == all.take(i as int).to_multiset(),
        decreases matches@.len() - i,
    {
        insert_in_order(&mut out, matches[i].clone());
        proof {
            assert(all.take(i + 1) =~= all.take(i as int).push(all[i as int]));
            vstd::seq_lib::to_multiset_build(all.take(i as int), all[i as int]);
        }
        i = i + 1;
    }
    proof {
        assert(all.take(all.len() as int) =~= all);
        vstd::seq_lib::to_multiset_len(texts(out@));
        vstd::seq_lib::to_multiset_len(all);
    }
    out
}

/// Whether `r` is what a path spec stands for, given what the file system said of it.
pub open spec fn stands_for(
    r: Result<Vec<String>, ValueError>,
    spec: Seq<char>,
    found: Lookup,
) -> bool {
    match found {
        Lookup::Literal(there) => if there {
            r matches Ok(files) && texts(files@) == seq![spec]
        } else {
            r is Err
        },
        Lookup::BadPattern(_) => r is Err,
        Lookup::Matches(paths) => if paths@.len() > 0 {
            r matches Ok(files) && in_order(texts(files@)) && texts(files@).to_multiset() == texts(
                paths@,
            ).to_multiset()
        } else {
            r is Err
        },
    }
}

/// Which files a path spec stands for, given what the file system said of it: a glob
/// expands to its matches in sorted order, and must have one; a literal path must
/// exist.
pub fn resolve_local(spec: &str, found: Lookup) -> (r: Result<Vec<String>, ValueError>)
    ensures
        stands_for(r, spec@, found),
        match found {
            Lookup::Literal(true) => r matches Ok(files) && texts(files@) == seq![spec@],
            Lookup::Literal(false) => refused(r, "File not found: "@ + spec@),
            Lookup::BadPattern(why) => refused(r, "bad glob '"@ + spec@ + "': "@ + why@),
            Lookup::Matches(paths) => if paths@.len() == 0 {
                refused(r, "no files match glob '"@ + spec@ + "'"@)
            } else {
                r matches Ok(files) && in_order(texts(files@)) && texts(files@).to_multiset()
                    == texts(paths@).to_multiset()
            },
        },
{
    match found {
        Lookup::Literal(true) => {
            let mut files: Vec<String> = Vec::new();
            files.push(spec.to_string());
            assert(texts(files@) =~= seq![spec@]);
            Ok(files)
        },
        Lookup::Literal(false) => {
            let mut message = "File not found: ".to_string();
            message.append(spec);
            Err(ValueError { message })
        },
        Lookup::BadPattern(why) => {
            let mut message = "bad glob '".to_string();
            message.append(spec);
            message.append("': ");
            message.append(why.as_str());
            Err(ValueError { message })
        },
        Lookup::Matches(paths) => {
            let files = sort_paths(paths);
            if files.is_empty() {
                let mut message = "no files match glob '".to_string();
                message.append(spec);
                message.append("'");
                Err(ValueError { message })
            } else {
                Ok(files)
            }
        },
    }
}

/// The modes go by their names, in whatever letter case, and no other name is one.
pub proof fn law_modes_go_by_their_names(s: Seq<char>)
    ensures
        mode_named(s) == Some(Mode::Files) <==> ascii_lowered(s) == "files"@,
        mode_named(s) == Some(Mode::Streams) <==> ascii_lowered(s) == "streams"@,
        mode_named(s) == Some(Mode::Allocated) <==> ascii_lowered(s) == "allocated"@,
{
    reveal_strlit("files");
    reveal_strlit("streams");
    reveal_strlit("allocated");
    assert("files"@.len() == 5);
    assert("streams"@.len() == 7);
    assert("allocated"@.len() == 9);
}

/// Two spellings that differ in letter case name the same mode.
pub proof fn law_mode_ignores_letter_case(s: Seq<char>, t: Seq<char>)
    requires
        ascii_lowered(s) == ascii_lowered(t),
    ensures
        mode_named(s) == mode_named(t),
{
}

/// A path is a glob exactly where it holds one of the three characters that make it one.
pub proof fn law_glob_has_a_wildcard(spec: Seq<char>)
    ensures
        glob_like(spec) <==> exists|i: int|
            0 <= i < spec.len() && ((#[trigger] spec[i]) == '*' || spec[i] == '?' || spec[i] == '['),
{
    if spec.contains('*') {
        assert(spec[spec.index_of('*')] == '*');
    }
    if spec.contains('?') {
        assert(spec[spec.index_of('?')] == '?');
    }
    if spec.contains('[') {
        assert(spec[spec.index_of('[')] == '[');
    }
}

/// Paths sort by the first byte in which they differ, and a path before any that it begins.
pub proof fn law_first_difference_decides(front: Seq<u8>, x: u8, y: u8, a: Seq<u8>, b: Seq<u8>)
    requires
        x != y,
    ensures
        lex_le(front + seq![x] + a, front + seq![y] + b) <==> x < y,
        lex_le(front, front + a),
        a.len() > 0 ==> !lex_le(front + a, front),
    decreases front.len(),
{
    let p = front + seq![x] + a;
    let q = front + seq![y] + b;
    if front.len() == 0 {
        assert(p[0] == x && q[0] == y);
    } else {
        let rest = front.drop_first();
        law_first_difference_decides(rest, x, y, a, b);
        assert(p.drop_first() =~= rest + seq![x] + a);
        assert(q.drop_first() =~= rest + seq![y] + b);
        assert((front + a).drop_first() =~= rest + a);
    }
}

/// Files are in order where none sorts before its predecessor.
pub proof fn law_order_is_pairwise(paths: Seq<Seq<char>>, i: int, j: int)
    requires
        in_order(paths),
        0 <= i < j < paths.len(),
    ensures
        lex_le(vstd::utf8::encode_utf8(paths[i]), vstd::utf8::encode_utf8(paths[j])),
{
    assert(path_le(paths[i], paths[j]));
}

/// A path goes before a blob: a blob is read only where there is no path, and a path that
/// was refused is refused whatever else is given.
pub proof fn law_path_goes_before_blob(
    r: Result<Source, ValueError>,
    path: Option<Result<Vec<String>, ValueError>>,
    blob: Option<Vec<u8>>,
)
    requires
        sourced(r, path, blob),
    ensures
        path matches Some(Ok(files)) ==> r == Ok::<Source, ValueError>(Source::Files(files)),
        path matches Some(Err(e)) ==> r == Err::<Source, ValueError>(e),
        path is None && blob is None ==> r is Err,
        r matches Ok(Source::Blob(bytes)) ==> path is None && blob == Some(bytes),
{
}

/// A glob stands for its matches, all of them and no others, and for at least one.
pub proof fn law_glob_stands_for_its_matches(
    r: Result<Vec<String>, ValueError>,
    spec: Seq<char>,
    paths: Vec<String>,
    p: Seq<char>,
)
    requires
        stands_for(r, spec, Lookup::Matches(paths)),
    ensures
        r is Ok <==> paths@.len() > 0,
        r matches Ok(files) ==> {
            &&& files@.len() == paths@.len()
            &&& texts(files@).contains(p) <==> texts(paths@).contains(p)
        },
{
    if let Ok(files) = r {
        let a = texts(files@);
        let b = texts(paths@);
        vstd::seq_lib::to_multiset_len(a);
        vstd::seq_lib::to_multiset_len(b);
        vstd::seq_lib::to_multiset_contains(a, p);
        vstd::seq_lib::to_multiset_contains(b, p);
    }
}

/// A literal path stands for itself, where it is there.
pub proof fn law_literal_path_stands_for_itself(
    r: Result<Vec<String>, ValueError>,
    spec: Seq<char>,
    there: bool,
)
    requires
        stands_for(r, spec, Lookup::Literal(there)),
    ensures
        r is Ok <==> there,
        r matches Ok(files) ==> files@.len() == 1 && files@[0]@ == spec,
{
    if let Ok(files) = r {
        assert(texts(files@).len() == files@.len());
        assert(texts(files@)[0] == seq![spec][0]);
        assert(texts(files@)[0] == files@[0]@);
    }
}

} // verus!
