use weggli_enhance::pipeline::{collect_results, contains_text, filter_matches, potential_match};
use weggli_enhance::types::{Binding, Options, QueryMatch, WorkItem};

fn m(start: usize, values: &[(&str, &str)]) -> QueryMatch {
    QueryMatch {
        start_offset: start,
        function_end: start + 5,
        bindings: values
            .iter()
            .map(|(k, v)| Binding { variable: k.to_string(), value: v.to_string() })
            .collect(),
    }
}

fn item(ids: &[&str]) -> WorkItem {
    WorkItem {
        identifiers: ids.iter().map(|s| s.to_string()).collect(),
        reason: "reason".to_string(),
        issue: "issue".to_string(),
    }
}

#[test]
fn substring_search() {
    assert!(contains_text("memcpy(buf, src, n);", "memcpy"));
    assert!(contains_text("memcpy(buf, src, n);", "n);"));
    assert!(contains_text("abc", ""));
    assert!(!contains_text("memcpy", "memmove"));
    assert!(!contains_text("ab", "abc"));
}

#[test]
fn files_need_all_identifiers_of_some_item() {
    let src = "void f() { char buf[10]; memcpy(buf, x, 10); }";
    assert!(potential_match(src, &[item(&["memcpy", "buf"])]));
    assert!(!potential_match(src, &[item(&["memcpy", "strcpy"])]));
    assert!(potential_match(src, &[item(&["strcpy"]), item(&["memcpy"])]));
    assert!(potential_match(src, &[item(&[])]));
    assert!(!potential_match(src, &[]));
}

#[test]
fn no_options_keep_every_match() {
    let ms = vec![m(1, &[("$a", "x"), ("$b", "x")]), m(1, &[("$a", "y")])];
    let kept = filter_matches(ms, Options { limit: false, unique: false });
    assert_eq!(kept.len(), 2);
}

#[test]
fn unique_drops_matches_with_repeated_values() {
    let ms = vec![
        m(1, &[("$a", "x"), ("$b", "x")]),
        m(2, &[("$a", "x"), ("$b", "y")]),
    ];
    let kept = filter_matches(ms, Options { limit: false, unique: true });
    assert_eq!(kept.len(), 1);
    assert_eq!(kept[0].start_offset, 2);
}

#[test]
fn limit_keeps_first_match_per_start() {
    let ms = vec![m(4, &[("$a", "x")]), m(4, &[("$a", "y")]), m(9, &[("$a", "z")])];
    let kept = filter_matches(ms, Options { limit: true, unique: false });
    let values: Vec<String> = kept.iter().map(|k| k.bindings[0].value.clone()).collect();
    assert_eq!(values, vec!["x".to_string(), "z".to_string()]);
}

#[test]
fn limit_counts_only_matches_that_pass_unique() {
    let ms = vec![
        m(4, &[("$a", "x"), ("$b", "x")]),
        m(4, &[("$a", "x"), ("$b", "y")]),
    ];
    let kept = filter_matches(ms, Options { limit: true, unique: true });
    assert_eq!(kept.len(), 1);
    assert_eq!(kept[0].bindings[1].value, "y");
}

#[test]
fn collected_results_carry_their_origin() {
    let ms = vec![m(3, &[("$a", "x")]), m(3, &[("$a", "y")])];
    let out = collect_results(
        2,
        &item(&["x"]),
        &"dir/a.c".to_string(),
        &"src text".to_string(),
        ms,
        Options { limit: true, unique: false },
    );
    assert_eq!(out.len(), 1);
    assert_eq!(out[0].query_index, 2);
    assert_eq!(out[0].path, "dir/a.c");
    assert_eq!(out[0].source, "src text");
    assert_eq!(out[0].reason, "reason");
    assert_eq!(out[0].issue, "issue");
    assert_eq!(out[0].result.bindings[0].value, "x");
}
