use weggli_enhance::chain::{chainable, filter_chainable_results};
use weggli_enhance::types::{Binding, QueryMatch, ResultsCtx};

fn b(var: &str, val: &str) -> Binding {
    Binding { variable: var.to_string(), value: val.to_string() }
}

fn ctx(query_index: usize, start: usize, bindings: Vec<Binding>) -> ResultsCtx {
    ResultsCtx {
        query_index,
        path: "a.c".to_string(),
        source: "int main() {}".to_string(),
        result: QueryMatch { start_offset: start, function_end: 13, bindings },
        reason: "r".to_string(),
        issue: "i".to_string(),
    }
}

#[test]
fn chainable_requires_shared_variables_to_agree() {
    let a = vec![b("$x", "buf"), b("$y", "len")];
    let same = vec![b("$x", "buf"), b("$z", "other")];
    let differ = vec![b("$x", "ptr")];
    let disjoint = vec![b("$w", "anything")];
    assert!(chainable(&a, &same));
    assert!(!chainable(&a, &differ));
    assert!(chainable(&a, &disjoint));
    assert!(chainable(&a, &vec![]));
}

#[test]
fn chainable_is_symmetric() {
    let a = vec![b("$x", "buf"), b("$y", "len")];
    let c = vec![b("$y", "size")];
    assert_eq!(chainable(&a, &c), chainable(&c, &a));
    let d = vec![b("$y", "len")];
    assert_eq!(chainable(&a, &d), chainable(&d, &a));
}

#[test]
fn empty_results_stay_empty() {
    assert!(filter_chainable_results(vec![]).is_empty());
}

#[test]
fn single_query_keeps_everything() {
    let results = vec![
        ctx(0, 1, vec![b("$x", "a")]),
        ctx(0, 2, vec![b("$x", "b")]),
    ];
    let out = filter_chainable_results(results);
    assert_eq!(out.len(), 2);
    assert_eq!(out[0].result.start_offset, 1);
    assert_eq!(out[1].result.start_offset, 2);
}

#[test]
fn results_without_a_partner_in_another_query_are_dropped() {
    let results = vec![
        ctx(0, 10, vec![b("$buf", "p")]),
        ctx(0, 20, vec![b("$buf", "q")]),
        ctx(1, 30, vec![b("$buf", "p"), b("$n", "3")]),
    ];
    let out = filter_chainable_results(results);
    let starts: Vec<usize> = out.iter().map(|r| r.result.start_offset).collect();
    assert_eq!(starts, vec![10, 30]);
}

#[test]
fn a_result_must_chain_with_every_other_query() {
    let results = vec![
        ctx(0, 1, vec![b("$x", "a")]),
        ctx(1, 2, vec![b("$x", "a")]),
        ctx(2, 3, vec![b("$x", "b")]),
    ];
    let out = filter_chainable_results(results);
    assert!(out.is_empty());
}

#[test]
fn more_results_of_a_present_query_keep_kept_results() {
    let results = vec![ctx(0, 1, vec![b("$x", "a")]), ctx(1, 2, vec![b("$x", "a")])];
    let before = filter_chainable_results(results.clone());
    assert_eq!(before.len(), 2);
    let mut more = results;
    more.push(ctx(1, 3, vec![b("$x", "z")]));
    let after = filter_chainable_results(more);
    let starts: Vec<usize> = after.iter().map(|r| r.result.start_offset).collect();
    assert!(starts.contains(&1) && starts.contains(&2));
}
