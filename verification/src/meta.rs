//! Shared helpers for the per-object discovery and description metadata that every
//! function and table carries.
//!
//! Each function or table surfaces these tags:
//! - `vgi.category`: the navigation category it belongs to
//! - `vgi.title`: human-friendly display name
//! - `vgi.doc_llm`: concise prose aimed at language models
//! - `vgi.doc_md`: short Markdown description
//! - `vgi.keywords`: a JSON array of search terms and synonyms

use vstd::prelude::*;

use crate::json::{
    bracketed, json_array, law_array_reads_back, law_quoted_text_reads_back, quote, quoted,
    read_array, read_string,
};
use crate::text::{split, split_on, texts, trim, trimmed};

verus! {

/// The navigation categories of the schema: an ordered JSON array of names and
/// descriptions. Every object's `vgi.category` names one of these, and every
/// category owns at least one object.
pub const CATEGORIES_JSON: &'static str = r#"[
  {"name": "Timeline", "description": "The headline forensic timeline over a collected $MFT — one row per FILE record with reconstructed paths, both MACB timestamp quads, sizes, flags, and streams."},
  {"name": "Records", "description": "Per-record work over a single (blob, entry): full decode, header probe, path reconstruction, and never-panic validation."},
  {"name": "Anti-Forensics", "description": "Timestomp detection — the SI-vs-FN MACB heuristic that flags manipulated timestamps."},
  {"name": "Attributes & Streams", "description": "Fan a record's NTFS attributes or $DATA streams (primary + alternate data streams) into rows."},
  {"name": "Diagnostics", "description": "Worker provenance and build information."}
]"#;

/// The trimmed pieces, without those that are all white space.
pub open spec fn keyword_texts(pieces: Seq<Seq<char>>) -> Seq<Seq<char>>
    decreases pieces.len(),
{
    if pieces.len() == 0 {
        Seq::empty()
    } else {
        let before = keyword_texts(pieces.drop_last());
        if trimmed(pieces.last()).len() == 0 {
            before
        } else {
            before.push(trimmed(pieces.last()))
        }
    }
}

/// The keywords of a comma-separated list, each as a JSON string.
pub open spec fn keyword_items(pieces: Seq<Seq<char>>) -> Seq<Seq<char>> {
    keyword_texts(pieces).map_values(|k: Seq<char>| quoted(k))
}

/// Encode comma-separated keywords as the JSON array of strings that
/// `vgi.keywords` requires.
pub fn keywords_json(keywords: &str) -> (r: String)
    ensures
        r@ == json_array(keyword_items(split_on(keywords@, ','))),
{
    let pieces = split(keywords, ',');
    let mut items: Vec<String> = Vec::new();
    let mut i: usize = 0;
    let ghost all = texts(pieces@);
    assert(texts(items@) =~= keyword_items(all.take(0)));
    while i < pieces.len()
        invariant
            i <= pieces@.len(),
            all == texts(pieces@),
            texts(items@) == keyword_items(all.take(i as int)),
        decreases pieces@.len() - i,
    {
        let ghost before = texts(items@);
        let k = trim(pieces[i].as_str());
        proof {
            let next = all.take(i + 1);
            assert(next.drop_last() =~= all.take(i as int));
            assert(next.last() == pieces@[i as int]@);
        }
        if !k.as_str().is_empty() {
            items.push(quote(k.as_str()));
            assert(texts(items@) =~= before.push(quoted(k@)));
            assert(texts(items@) =~= keyword_items(all.take(i + 1)));
        }
        i = i + 1;
    }
    assert(all.take(all.len() as int) =~= all);
    bracketed(&items)
}

/// A single `vgi.agent_test_tasks` entry: the analyst-visible `name` and `prompt`,
/// the hidden canonical `reference_sql`, and the two grading opt-outs: `unordered`
/// (compare as a bag, row order ignored) and `ignore_column_names` (compare values
/// only). `unordered` is false only where the reference pins the order.
pub struct AgentTask {
    pub name: &'static str,
    pub prompt: &'static str,
    pub reference_sql: &'static str,
    pub unordered: bool,
    pub ignore_column_names: bool,
}

/// `true` or `false`.
pub open spec fn bool_text(b: bool) -> Seq<char> {
    if b {
        "true"@
    } else {
        "false"@
    }
}

/// The JSON object of a task.
pub open spec fn task_json(t: AgentTask) -> Seq<char> {
    "{\"name\":"@ + quoted(t.name@) + ",\"prompt\":"@ + quoted(t.prompt@) + ",\"reference_sql\":"@
        + quoted(t.reference_sql@) + ",\"unordered\":"@ + bool_text(t.unordered)
        + ",\"ignore_column_names\":"@ + bool_text(t.ignore_column_names) + "}"@
}

/// The JSON objects of some tasks.
pub open spec fn task_items(tasks: Seq<AgentTask>) -> Seq<Seq<char>> {
    tasks.map_values(|t: AgentTask| task_json(t))
}

fn bool_str(b: bool) -> (r: &'static str)
    ensures
        r@ == bool_text(b),
{
    if b {
        "true"
    } else {
        "false"
    }
}

/// The JSON object of a task.
fn task_object(t: &AgentTask) -> (r: String)
    ensures
        r@ == task_json(*t),
{
    let mut out = "{\"name\":".to_string();
    out.append(quote(t.name).as_str());
    out.append(",\"prompt\":");
    out.append(quote(t.prompt).as_str());
    out.append(",\"reference_sql\":");
    out.append(quote(t.reference_sql).as_str());
    out.append(",\"unordered\":");
    out.append(bool_str(t.unordered));
    out.append(",\"ignore_column_names\":");
    out.append(bool_str(t.ignore_column_names));
    out.append("}");
    out
}

/// Build the `vgi.agent_test_tasks` JSON value: a fixed suite of analyst tasks. The
/// `prompt` is shown to the analyst while `reference_sql` (the canonical solution)
/// is hidden and used to grade, under each task's policy.
pub fn agent_test_tasks_json(tasks: &[AgentTask]) -> (r: String)
    ensures
        r@ == json_array(task_items(tasks@)),
{
    let mut items: Vec<String> = Vec::new();
    let mut i: usize = 0;
    while i < tasks.len()
        invariant
            i <= tasks@.len(),
            items@.len() == i,
            forall|j: int| 0 <= j < i ==> (#[trigger] items@[j])@ == task_json(tasks@[j]),
        decreases tasks@.len() - i,
    {
        items.push(task_object(&tasks[i]));
        i = i + 1;
    }
    assert(texts(items@) =~= task_items(tasks@));
    bracketed(&items)
}

/// The texts of a list of tags.
pub open spec fn tag_texts(tags: Seq<(String, String)>) -> Seq<(Seq<char>, Seq<char>)> {
    tags.map_values(|t: (String, String)| (t.0@, t.1@))
}

/// The standard tags of an object.
pub open spec fn standard_tags(
    category: Seq<char>,
    title: Seq<char>,
    description_llm: Seq<char>,
    description_md: Seq<char>,
    keywords: Seq<char>,
) -> Seq<(Seq<char>, Seq<char>)> {
    seq![
        ("vgi.category"@, category),
        ("vgi.title"@, title),
        ("vgi.doc_llm"@, description_llm),
        ("vgi.doc_md"@, description_md),
        ("vgi.keywords"@, json_array(keyword_items(split_on(keywords, ',')))),
    ]
}

/// The standard tags plus a `vgi.example_queries` demo for a scalar or table
/// function. `category` names one of the schema's categories.
pub fn object_tags_with_example(
    category: &str,
    title: &str,
    description_llm: &str,
    description_md: &str,
    keywords: &str,
    example_queries: &str,
) -> (r: Vec<(String, String)>)
    ensures
        tag_texts(r@) == standard_tags(
            category@,
            title@,
            description_llm@,
            description_md@,
            keywords@,
        ).push(("vgi.example_queries"@, example_queries@)),
{
    let mut tags = object_tags(category, title, description_llm, description_md, keywords);
    let ghost before = tag_texts(tags@);
    tags.push(("vgi.example_queries".to_string(), example_queries.to_string()));
    assert(tag_texts(tags@) =~= before.push(("vgi.example_queries"@, example_queries@)));
    tags
}

/// Build the standard per-object discovery and description tags. `category` names
/// one of the enclosing schema's categories.
pub fn object_tags(
    category: &str,
    title: &str,
    description_llm: &str,
    description_md: &str,
    keywords: &str,
) -> (r: Vec<(String, String)>)
    ensures
        tag_texts(r@) == standard_tags(
            category@,
            title@,
            description_llm@,
            description_md@,
            keywords@,
        ),
{
    let mut tags: Vec<(String, String)> = Vec::new();
    tags.push(("vgi.category".to_string(), category.to_string()));
    tags.push(("vgi.title".to_string(), title.to_string()));
    tags.push(("vgi.doc_llm".to_string(), description_llm.to_string()));
    tags.push(("vgi.doc_md".to_string(), description_md.to_string()));
    tags.push(("vgi.keywords".to_string(), keywords_json(keywords)));
    assert(tag_texts(tags@) =~= standard_tags(
        category@,
        title@,
        description_llm@,
        description_md@,
        keywords@,
    ));
    tags
}

/// Keywords are written as the JSON array of strings that they are: a reader gets back
/// the trimmed keywords that are not blank, in order.
pub proof fn law_keywords_read_back(keywords: Seq<char>)
    ensures
        read_array(
            json_array(keyword_items(split_on(keywords, ','))),
            |t: Seq<char>| read_string(t),
        ) == Some(keyword_texts(split_on(keywords, ','))),
{
    let values = keyword_texts(split_on(keywords, ','));
    let items = keyword_items(split_on(keywords, ','));
    let value = |t: Seq<char>| read_string(t);
    assert forall|i: int, rest: Seq<char>|
        0 <= i < items.len() implies #[trigger] value(items[i] + rest) == Some((values[i], rest)) by {
        law_quoted_text_reads_back(values[i], rest);
    }
    law_array_reads_back(items, values, value);
}

/// The contents of a task.
pub struct TaskModel {
    pub name: Seq<char>,
    pub prompt: Seq<char>,
    pub reference_sql: Seq<char>,
    pub unordered: bool,
    pub ignore_column_names: bool,
}

/// The contents of an [`AgentTask`].
pub open spec fn task_model(t: AgentTask) -> TaskModel {
    TaskModel {
        name: t.name@,
        prompt: t.prompt@,
        reference_sql: t.reference_sql@,
        unordered: t.unordered,
        ignore_column_names: t.ignore_column_names,
    }
}

/// What comes behind `front`, where a text begins with it.
pub open spec fn behind(t: Seq<char>, front: Seq<char>) -> Option<Seq<char>> {
    if front.len() <= t.len() && t.take(front.len() as int) == front {
        Some(t.skip(front.len() as int))
    } else {
        None
    }
}

/// Reads a key with a string: the text, and what comes behind it.
#[verifier::opaque]
pub open spec fn read_text_field(t: Seq<char>, key: Seq<char>) -> Option<(Seq<char>, Seq<char>)> {
    match behind(t, key) {
        Some(rest) => read_string(rest),
        None => None,
    }
}

/// Reads a key with a boolean: the value, and what comes behind it.
#[verifier::opaque]
pub open spec fn read_bool_field(t: Seq<char>, key: Seq<char>) -> Option<(bool, Seq<char>)> {
    match behind(t, key) {
        Some(rest) => match (behind(rest, "true"@), behind(rest, "false"@)) {
            (Some(more), _) => Some((true, more)),
            (None, Some(more)) => Some((false, more)),
            (None, None) => None,
        },
        None => None,
    }
}

/// Reads a JSON object that has exactly the keys of a task, in order.
pub open spec fn read_task(t: Seq<char>) -> Option<(TaskModel, Seq<char>)> {
    match read_text_field(t, "{\"name\":"@) {
        Some((name, t)) => match read_text_field(t, ",\"prompt\":"@) {
            Some((prompt, t)) => match read_text_field(t, ",\"reference_sql\":"@) {
                Some((reference_sql, t)) => match read_bool_field(t, ",\"unordered\":"@) {
                    Some((unordered, t)) => match read_bool_field(
                        t,
                        ",\"ignore_column_names\":"@,
                    ) {
                        Some((ignore_column_names, t)) => match behind(t, "}"@) {
                            Some(rest) => Some(
                                (
                                    TaskModel {
                                        name,
                                        prompt,
                                        reference_sql,
                                        unordered,
                                        ignore_column_names,
                                    },
                                    rest,
                                ),
                            ),
                            None => None,
                        },
                        None => None,
                    },
                    None => None,
                },
                None => None,
            },
            None => None,
        },
        None => None,
    }
}

proof fn lemma_behind(front: Seq<char>, rest: Seq<char>)
    ensures
        behind(front + rest, front) == Some(rest),
{
    assert((front + rest).take(front.len() as int) =~= front);
    assert((front + rest).skip(front.len() as int) =~= rest);
}

proof fn lemma_text_field(key: Seq<char>, s: Seq<char>, rest: Seq<char>)
    ensures
        read_text_field(key + (quoted(s) + rest), key) == Some((s, rest)),
{
    reveal(read_text_field);
    lemma_behind(key, quoted(s) + rest);
    law_quoted_text_reads_back(s, rest);
}

proof fn lemma_bool_field(key: Seq<char>, b: bool, rest: Seq<char>)
    ensures
        read_bool_field(key + (bool_text(b) + rest), key) == Some((b, rest)),
{
    reveal(read_bool_field);
    let t = bool_text(b) + rest;
    lemma_behind(key, t);
    lemma_behind(bool_text(b), rest);
    if !b {
        reveal_strlit("true");
        reveal_strlit("false");
        assert(behind(t, "true"@) is None) by {
            if behind(t, "true"@) is Some {
                assert(t.take(4)[0] == 'f');
            }
        }
    }
}

/// Five keys with their values, an end and a rest, grouped from the back.
proof fn lemma_regroup(k: Seq<Seq<char>>, v: Seq<Seq<char>>, end: Seq<char>, rest: Seq<char>)
    requires
        k.len() == 5,
        v.len() == 5,
    ensures
        (k[0] + v[0] + k[1] + v[1] + k[2] + v[2] + k[3] + v[3] + k[4] + v[4] + end) + rest == k[0]
            + (v[0] + (k[1] + (v[1] + (k[2] + (v[2] + (k[3] + (v[3] + (k[4] + (v[4] + (end
            + rest)))))))))),
{
    assert((k[0] + v[0] + k[1] + v[1] + k[2] + v[2] + k[3] + v[3] + k[4] + v[4] + end) + rest =~= k[0]
        + (v[0] + (k[1] + (v[1] + (k[2] + (v[2] + (k[3] + (v[3] + (k[4] + (v[4] + (end
        + rest)))))))))));
}

/// The JSON object of a task reads back as the task.
proof fn lemma_task_reads_back(t: AgentTask, rest: Seq<char>)
    ensures
        read_task(task_json(t) + rest) == Some((task_model(t), rest)),
        task_json(t).len() > 0,
{
    let t6 = "}"@ + rest;
    let t5 = ",\"ignore_column_names\":"@ + (bool_text(t.ignore_column_names) + t6);
    let t4 = ",\"unordered\":"@ + (bool_text(t.unordered) + t5);
    let t3 = ",\"reference_sql\":"@ + (quoted(t.reference_sql@) + t4);
    let t2 = ",\"prompt\":"@ + (quoted(t.prompt@) + t3);
    let t1 = "{\"name\":"@ + (quoted(t.name@) + t2);
    lemma_regroup(
        seq![
            "{\"name\":"@,
            ",\"prompt\":"@,
            ",\"reference_sql\":"@,
            ",\"unordered\":"@,
            ",\"ignore_column_names\":"@,
        ],
        seq![
            quoted(t.name@),
            quoted(t.prompt@),
            quoted(t.reference_sql@),
            bool_text(t.unordered),
            bool_text(t.ignore_column_names),
        ],
        "}"@,
        rest,
    );
    assert(task_json(t) + rest == t1);
    lemma_text_field("{\"name\":"@, t.name@, t2);
    lemma_text_field(",\"prompt\":"@, t.prompt@, t3);
    lemma_text_field(",\"reference_sql\":"@, t.reference_sql@, t4);
    lemma_bool_field(",\"unordered\":"@, t.unordered, t5);
    lemma_bool_field(",\"ignore_column_names\":"@, t.ignore_column_names, t6);
    lemma_behind("}"@, rest);
}

/// Tasks are written as the JSON array of objects that they are: a reader gets back every
/// task, in order, with all its texts and both its flags.
pub proof fn law_tasks_read_back(tasks: Seq<AgentTask>)
    ensures
        read_array(json_array(task_items(tasks)), |t: Seq<char>| read_task(t)) == Some(
            tasks.map_values(|t: AgentTask| task_model(t)),
        ),
{
    let values = tasks.map_values(|t: AgentTask| task_model(t));
    let items = task_items(tasks);
    let value = |t: Seq<char>| read_task(t);
    assert forall|i: int, rest: Seq<char>|
        0 <= i < items.len() implies #[trigger] value(items[i] + rest) == Some((values[i], rest)) by {
        lemma_task_reads_back(tasks[i], rest);
    }
    assert forall|i: int| 0 <= i < items.len() implies (#[trigger] items[i]).len() > 0 by {
        lemma_task_reads_back(tasks[i], Seq::empty());
    }
    law_array_reads_back(items, values, value);
}

/// A keyword list takes in one more piece trimmed, where anything is left of it, behind the
/// keywords that are there; a blank piece adds none. Nothing is dropped for being there
/// already.
pub proof fn law_each_piece_adds_its_keyword(pieces: Seq<Seq<char>>, more: Seq<char>)
    ensures
        keyword_texts(Seq::empty()).len() == 0,
        trimmed(more).len() > 0 ==> keyword_texts(pieces.push(more)) == keyword_texts(pieces).push(
            trimmed(more),
        ),
        trimmed(more).len() == 0 ==> keyword_texts(pieces.push(more)) == keyword_texts(pieces),
{
    assert(pieces.push(more).drop_last() =~= pieces);
}

} // verus!
