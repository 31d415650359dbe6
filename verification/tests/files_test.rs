use weggli_enhance::cli::{resolve_extensions, verbosity, Verbosity};
use weggli_enhance::files::{compile_patterns, extension_selected, file_selected, is_hidden};
use weggli_enhance::regex::CompiledRegex;
use weggli_enhance::files::file_decision;

fn res(ps: &[&str]) -> Vec<CompiledRegex> {
    compile_patterns(&ps.iter().map(|s| s.to_string()).collect::<Vec<_>>()).unwrap()
}

#[test]
fn no_regexes_select_every_file() {
    assert!(file_selected("/src/a.c", &[], &[]).unwrap());
}

#[test]
fn exclusion_wins_over_inclusion() {
    assert!(!file_selected("/src/test/a.c", &res(&["test"]), &res(&["src"])).unwrap());
}

#[test]
fn inclusion_regexes_restrict_the_files() {
    assert!(file_selected("/src/net/a.c", &[], &res(&["crypto", "net"])).unwrap());
    assert!(!file_selected("/src/fs/a.c", &[], &res(&["crypto", "net"])).unwrap());
    assert!(file_selected("/src/fs/a.c", &res(&["vendor"]), &[]).unwrap());
}

#[test]
fn patterns_compile_in_order() {
    let v = res(&["a", "b+"]);
    assert_eq!(v.len(), 2);
    assert_eq!(v[1].as_str(), "b+");
    assert!(compile_patterns(&["ok".to_string(), "(".to_string()]).is_err());
}

#[test]
fn hidden_entries() {
    assert!(is_hidden(Some(".git")));
    assert!(!is_hidden(Some("src")));
    assert!(!is_hidden(Some("")));
    assert!(!is_hidden(None));
}

#[test]
fn wanted_extensions() {
    let exts = vec!["c".to_string(), "h".to_string()];
    assert!(extension_selected(Some("c"), &exts));
    assert!(!extension_selected(Some("cpp"), &exts));
    assert!(!extension_selected(None, &exts));
}

#[test]
fn default_extensions() {
    assert_eq!(resolve_extensions(vec![], false), vec!["c".to_string(), "h".to_string()]);
    assert_eq!(
        resolve_extensions(vec![], true),
        vec!["cc", "cpp", "h", "cxx", "hpp"].into_iter().map(String::from).collect::<Vec<_>>()
    );
    assert_eq!(resolve_extensions(vec!["x".to_string()], false), vec!["x".to_string()]);
}

#[test]
fn verbosity_levels() {
    assert_eq!(verbosity(0), Verbosity::Warn);
    assert_eq!(verbosity(1), Verbosity::Info);
    assert_eq!(verbosity(2), Verbosity::Debug);
    assert_eq!(verbosity(7), Verbosity::Debug);
}

#[test]
fn file_decisions() {
    assert!(!file_decision(true, None));
    assert!(!file_decision(true, Some(true)));
    assert!(file_decision(false, None));
    assert!(file_decision(false, Some(true)));
    assert!(!file_decision(false, Some(false)));
}

#[test]
fn failing_searches_are_errors() {
    let exclude = res(&["(a*)*\\1b"]);
    let path = "a".repeat(40);
    assert!(file_selected(&path, &exclude, &[]).is_err());
}
