use weggli_enhance::types::OutputResults;

#[test]
fn test_output_results_dedup_key() {
    let a = OutputResults {
        query_index: 0,
        path: "/tmp/test.c".into(),
        reason: "r1".into(),
        issue: "i1".into(),
        start_line: 10,
        start_column: 1,
        end_line: 15,
        end_column: 1,
    };
    let b = a.clone();
    assert_eq!(a, b);
}
