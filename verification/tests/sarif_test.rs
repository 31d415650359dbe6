use weggli_enhance::sarif::{dedup_output_results, output_result, sarif_results};
use weggli_enhance::types::{OutputResults, QueryMatch, ResultsCtx};

fn ctx(path: &str, issue: &str, source: &str, start: usize, end: usize) -> ResultsCtx {
    ResultsCtx {
        query_index: 1,
        path: path.to_string(),
        source: source.to_string(),
        result: QueryMatch { start_offset: start, function_end: end, bindings: vec![] },
        reason: "why".to_string(),
        issue: issue.to_string(),
    }
}

fn out(path: &str, line: i64, issue: &str, col: i64) -> OutputResults {
    OutputResults {
        query_index: 0,
        path: path.to_string(),
        reason: "r".to_string(),
        issue: issue.to_string(),
        start_line: line,
        start_column: col,
        end_line: line,
        end_column: col,
    }
}

#[test]
fn located_result_has_lines_and_columns() {
    let src = "int f() {\n  g();\n}\n";
    let o = output_result(ctx("a.c", "i", src, 12, 18));
    assert_eq!(o.start_line, 1);
    assert_eq!(o.start_column, 3);
    assert_eq!(o.end_line, 2);
    assert_eq!(o.end_column, 2);
    assert_eq!(o.path, "a.c");
    assert_eq!(o.reason, "why");
    assert_eq!(o.issue, "i");
    assert_eq!(o.query_index, 1);
}

#[test]
fn dedup_keeps_first_per_path_line_issue() {
    let kept = dedup_output_results(vec![
        out("a.c", 3, "i", 1),
        out("a.c", 3, "i", 9),
        out("a.c", 3, "j", 1),
        out("b.c", 3, "i", 1),
        out("a.c", 4, "i", 1),
    ]);
    assert_eq!(kept.len(), 4);
    assert_eq!(kept[0].start_column, 1);
    assert_eq!(kept[1].issue, "j");
    assert_eq!(kept[2].path, "b.c");
    assert_eq!(kept[3].start_line, 4);
}

#[test]
fn sarif_results_locate_then_dedup() {
    let src = "a\nb\nc";
    let results = vec![
        ctx("x.c", "i", src, 2, 5),
        ctx("x.c", "i", src, 3, 5),
        ctx("x.c", "i", src, 4, 5),
    ];
    let o = sarif_results(results);
    assert_eq!(o.len(), 2);
    assert_eq!(o[0].start_line, 1);
    assert_eq!(o[0].start_column, 1);
    assert_eq!(o[1].start_line, 2);
    assert_eq!(o[1].end_column, 2);
}
