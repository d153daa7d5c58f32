//! Arguments and description tags.

use mft_timeline::meta::{
    agent_test_tasks_json, keywords_json, object_tags, object_tags_with_example, AgentTask,
};
use mft_timeline::options::{is_glob, mode, resolve_local, source, Lookup, Mode, Source, ValueError};

fn texts(items: &[&str]) -> Vec<String> {
    items.iter().map(|s| s.to_string()).collect()
}

#[test]
fn modes_are_parsed_in_any_case() {
    assert_eq!(mode(None), Ok(Mode::Files));
    assert_eq!(mode(Some("FILES")), Ok(Mode::Files));
    assert_eq!(mode(Some("streams")), Ok(Mode::Streams));
    assert_eq!(mode(Some("Allocated")), Ok(Mode::Allocated));
    assert_eq!(
        Mode::parse("Bogus").unwrap_err().message,
        "mode must be 'files', 'streams', or 'allocated', got 'bogus'"
    );
}

#[test]
fn a_path_goes_before_a_blob() {
    let files = texts(&["a"]);
    assert_eq!(
        source(Some(Ok(files.clone())), Some(vec![1])),
        Ok(Source::Files(files))
    );
    assert_eq!(source(None, Some(vec![1])), Ok(Source::Blob(vec![1])));
    assert_eq!(
        source(None, None).unwrap_err().message,
        "read_mft: first argument must be a VARCHAR path/glob or a BLOB of $MFT bytes"
    );
    let refusal = ValueError {
        message: "no".to_string(),
    };
    assert_eq!(source(Some(Err(refusal.clone())), Some(vec![1])), Err(refusal));
}

#[test]
fn globs_expand_in_sorted_order() {
    assert!(is_glob("a*") && is_glob("a?") && is_glob("[ab]") && !is_glob("a/b.mft"));
    let found = Lookup::Matches(texts(&["b", "a/z", "a", "B", "a/b"]));
    assert_eq!(
        resolve_local("*", found),
        Ok(texts(&["B", "a", "a/b", "a/z", "b"]))
    );
    assert_eq!(
        resolve_local("x*", Lookup::Matches(Vec::new())).unwrap_err().message,
        "no files match glob 'x*'"
    );
    assert_eq!(
        resolve_local("[", Lookup::BadPattern("open".to_string()))
            .unwrap_err()
            .message,
        "bad glob '[': open"
    );
    assert_eq!(resolve_local("p", Lookup::Literal(true)), Ok(texts(&["p"])));
    assert_eq!(
        resolve_local("p", Lookup::Literal(false)).unwrap_err().message,
        "File not found: p"
    );
}

#[test]
fn keywords_become_a_json_array() {
    assert_eq!(keywords_json("mft, ntfs ,, a\"b\\c"), r#"["mft","ntfs","a\"b\\c"]"#);
    assert_eq!(keywords_json(""), "[]");
    assert_eq!(
        keywords_json("a\tb, c\nd,\u{1}e\r\u{1f}f,\u{7f}\u{e9}"),
        "[\"a\\tb\",\"c\\nd\",\"\\u0001e\\r\\u001ff\",\"\u{7f}\u{e9}\"]"
    );
}

#[test]
fn keywords_are_json_whatever_they_hold() {
    let all: String = (1u32..0x80).filter_map(char::from_u32).filter(|c| *c != ',').collect();
    let text = keywords_json(&format!("x{all}y,\u{1F600}"));
    let value: Vec<String> = serde_json::from_str(&text).unwrap();
    assert_eq!(value, vec![format!("x{all}y"), "\u{1F600}".to_string()]);
}

#[test]
fn tasks_become_a_json_array() {
    let task = AgentTask {
        name: "n",
        prompt: "line\nbreak",
        reference_sql: "SELECT \"x\"",
        unordered: true,
        ignore_column_names: false,
    };
    assert_eq!(
        agent_test_tasks_json(&[task]),
        r#"[{"name":"n","prompt":"line\nbreak","reference_sql":"SELECT \"x\"","unordered":true,"ignore_column_names":false}]"#
    );
    assert_eq!(agent_test_tasks_json(&[]), "[]");
    let tabbed = AgentTask {
        name: "a\tb",
        prompt: "",
        reference_sql: "\\",
        unordered: false,
        ignore_column_names: true,
    };
    let text = agent_test_tasks_json(&[tabbed]);
    let value: serde_json::Value = serde_json::from_str(&text).unwrap();
    assert_eq!(value[0]["name"], "a\tb");
    assert_eq!(value[0]["prompt"], "");
    assert_eq!(value[0]["reference_sql"], "\\");
    assert_eq!(value[0]["unordered"], false);
    assert_eq!(value[0]["ignore_column_names"], true);
}

#[test]
fn tags_come_in_order() {
    let tags = object_tags_with_example("C", "T", "L", "M", "k", "SELECT 1");
    let keys: Vec<&str> = tags.iter().map(|t| t.0.as_str()).collect();
    assert_eq!(
        keys,
        vec![
            "vgi.category",
            "vgi.title",
            "vgi.doc_llm",
            "vgi.doc_md",
            "vgi.keywords",
            "vgi.example_queries"
        ]
    );
    assert_eq!(tags[4].1, "[\"k\"]");
    assert_eq!(tags[5].1, "SELECT 1");
    assert_eq!(object_tags("C", "T", "L", "M", "k"), tags[..5].to_vec());
}
