use agentix::direnv::direnv_exports;
use agentix::llama::{completion_id, new_completion_id};
use agentix::store::{alias_file_contents, aliases_or_empty, aliases_with};
use std::collections::HashMap;

fn sorted(mut v: Vec<(String, String)>) -> Vec<(String, String)> {
    v.sort();
    v
}

fn pairs(xs: &[(&str, &str)]) -> Vec<(String, String)> {
    xs.iter().map(|(k, v)| (k.to_string(), v.to_string())).collect()
}

#[test]
fn direnv_exports_keep_the_variables_it_sets() {
    let got = direnv_exports(br#"{"A":"1","B":null,"C":"x y"}"#).unwrap();
    assert_eq!(sorted(got), pairs(&[("A", "1"), ("C", "x y")]));
    assert_eq!(direnv_exports(b"{}"), Some(vec![]));
    // A repeated key keeps its last value.
    assert_eq!(direnv_exports(br#"{"A":"1","A":"2"}"#), Some(pairs(&[("A", "2")])));
}

#[test]
fn unreadable_direnv_output_is_none() {
    assert_eq!(direnv_exports(b"not json"), None);
    assert_eq!(direnv_exports(br#"{"A":1}"#), None);
    assert_eq!(direnv_exports(br#"["A"]"#), None);
}

#[test]
fn stored_aliases_or_none() {
    assert!(aliases_or_empty(b"").is_empty());
    assert!(aliases_or_empty(b"{broken").is_empty());
    assert!(aliases_or_empty(br#"{"m":1}"#).is_empty());
    let got = aliases_or_empty(br#"{"mistral":"org/Mistral:Q4_K_M","b":"c"}"#);
    assert_eq!(sorted(got), pairs(&[("b", "c"), ("mistral", "org/Mistral:Q4_K_M")]));
}

#[test]
fn alias_file_reads_back_with_the_new_alias() {
    let bytes = alias_file_contents(b"", "m", "org/repo:Q4");
    let map: HashMap<String, String> = serde_json::from_slice(&bytes).unwrap();
    assert_eq!(map.len(), 1);
    assert_eq!(map["m"], "org/repo:Q4");

    let bytes = alias_file_contents(br#"{"m":"old","x":"y"}"#, "m", "new");
    let map: HashMap<String, String> = serde_json::from_slice(&bytes).unwrap();
    assert_eq!(map.len(), 2);
    assert_eq!(map["m"], "new");
    assert_eq!(map["x"], "y");

    // An unreadable file is replaced by one holding the new alias alone.
    let bytes = alias_file_contents(b"[1,2]", "a", "b");
    let map: HashMap<String, String> = serde_json::from_slice(&bytes).unwrap();
    assert_eq!(map.len(), 1);
    assert_eq!(map["a"], "b");
}

#[test]
fn alias_insert_keeps_keys_distinct() {
    let out = aliases_with(&pairs(&[("a", "1"), ("b", "2")]), "a", "3");
    assert_eq!(out, pairs(&[("b", "2"), ("a", "3")]));
}

#[test]
fn completion_ids() {
    assert_eq!(completion_id(0), "chatcmpl-0");
    assert_eq!(completion_id(999_999_999), "chatcmpl-999999999");
    let id = new_completion_id();
    let n: u64 = id.strip_prefix("chatcmpl-").unwrap().parse().unwrap();
    assert!(n < 1_000_000_000);
}

#[test]
fn null_content_reaches_the_template_as_null() {
    assert_eq!(agentix::llama::template_content("null"), None);
    assert_eq!(agentix::llama::template_content("hello"), Some("hello".to_string()));
    assert_eq!(agentix::llama::template_content("Null"), Some("Null".to_string()));
    assert_eq!(agentix::llama::template_content(""), Some(String::new()));
}
