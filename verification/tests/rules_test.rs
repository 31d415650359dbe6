use weggli_enhance::rules::{process_regexes, RegexError};
use weggli_enhance::regex::{CompiledRegex, RegexMap};
use weggli_enhance::rules::{level_name, unknown_constraint_variable};
use weggli_enhance::types::Level;

#[test]
fn test_process_regexes_valid() {
    let regexes = vec!["$x=foo.*".to_string()];
    let result = process_regexes(&regexes);
    assert!(result.is_ok());
    let map = result.unwrap();
    assert!(map.get("$x").is_some());
}

#[test]
fn test_process_regexes_negative() {
    let regexes = vec!["$y!=bar.*".to_string()];
    let result = process_regexes(&regexes);
    assert!(result.is_ok());
    let map = result.unwrap();
    let (negative, _) = map.get("$y").unwrap();
    assert!(*negative);
}

#[test]
fn test_process_regexes_no_dollar_prefix() {
    let regexes = vec!["var=test".to_string()];
    let result = process_regexes(&regexes);
    assert!(result.is_ok());
    let map = result.unwrap();
    assert!(map.get("$var").is_some());
}

#[test]
fn test_process_regexes_invalid_arg() {
    let regexes = vec!["invalid_no_equals".to_string()];
    let result = process_regexes(&regexes);
    assert!(result.is_err());
    match result.unwrap_err() {
        RegexError::InvalidArg(_) => {}
        _ => panic!("expected InvalidArg"),
    }
}

#[test]
fn test_process_regexes_invalid_regex() {
    let regexes = vec!["$x=***invalid[".to_string()];
    let result = process_regexes(&regexes);
    assert!(result.is_err());
    match result.unwrap_err() {
        RegexError::InvalidRegex(_) => {}
        _ => panic!("expected InvalidRegex"),
    }
}

#[test]
fn later_constraints_replace_earlier_ones() {
    let regexes = vec!["x=a".to_string(), "$x!=b".to_string()];
    let map = process_regexes(&regexes).unwrap();
    let (negative, re) = map.get("$x").unwrap();
    assert!(*negative);
    assert_eq!(re.as_str(), "b");
    assert_eq!(map.variables(), vec!["$x".to_string()]);
}

#[test]
fn only_the_first_equals_splits() {
    let map = process_regexes(&["$v=a=b".to_string()]).unwrap();
    assert_eq!(map.get("$v").unwrap().1.as_str(), "a=b");
    let map = process_regexes(&["=foo".to_string()]).unwrap();
    assert!(map.get("$").is_some());
}

#[test]
fn first_bad_constraint_decides_the_error() {
    let regexes = vec!["$x=(".to_string(), "nope".to_string()];
    assert!(matches!(process_regexes(&regexes), Err(RegexError::InvalidRegex(_))));
    let regexes = vec!["nope".to_string(), "$x=(".to_string()];
    match process_regexes(&regexes) {
        Err(RegexError::InvalidArg(s)) => assert_eq!(s, "nope"),
        _ => panic!("expected InvalidArg"),
    }
}

#[test]
fn error_messages() {
    let e = RegexError::InvalidArg("abc".to_string());
    assert_eq!(e.message(), "'abc' is not a valid argument of the form var=regex");
    let e = match process_regexes(&["$x=(".to_string()]) {
        Err(e) => e,
        Ok(_) => panic!("expected an error"),
    };
    let m = e.message();
    assert!(m.starts_with("Regex error: "));
    assert!(m.len() > "Regex error: ".len());
}

#[test]
fn regex_errors_convert() {
    let err = CompiledRegex::new("(").unwrap_err();
    assert!(matches!(RegexError::from(err), RegexError::InvalidRegex(_)));
}

#[test]
fn compiled_regex_matches() {
    let re = CompiledRegex::new("^decode_").unwrap();
    assert_eq!(re.as_str(), "^decode_");
    assert!(re.is_match("decode_frame").unwrap());
    assert!(!re.is_match("encode_frame").unwrap());
    assert!(CompiledRegex::new("a[").is_err());
}

#[test]
fn regex_map_insert_and_get() {
    let mut m = RegexMap::new();
    assert!(m.get("$a").is_none());
    m.insert("$a".to_string(), false, CompiledRegex::new("x").unwrap());
    m.insert("$b".to_string(), true, CompiledRegex::new("y").unwrap());
    m.insert("$a".to_string(), true, CompiledRegex::new("z").unwrap());
    let (neg, re) = m.get("$a").unwrap();
    assert!(*neg);
    assert_eq!(re.as_str(), "z");
    let mut vars = m.variables();
    vars.sort();
    assert_eq!(vars, vec!["$a".to_string(), "$b".to_string()]);
}

#[test]
fn unknown_variables_are_reported() {
    let map = process_regexes(&["$x=a".to_string(), "y=b".to_string()]).unwrap();
    let vars = vec!["$x".to_string(), "$y".to_string()];
    assert_eq!(unknown_constraint_variable(&map, &vars), None);
    let vars = vec!["$x".to_string()];
    assert_eq!(unknown_constraint_variable(&map, &vars), Some("$y".to_string()));
}

#[test]
fn level_names() {
    assert_eq!(level_name(Some(Level::Error)), "error");
    assert_eq!(level_name(Some(Level::Warning)), "warning");
    assert_eq!(level_name(Some(Level::Note)), "note");
    assert_eq!(level_name(None), "none");
}

#[test]
fn dollar_is_optional() {
    let a = process_regexes(&["x!=a".to_string()]).unwrap();
    let b = process_regexes(&["$x!=a".to_string()]).unwrap();
    assert_eq!(a.variables(), b.variables());
    assert_eq!(a.get("$x").unwrap().0, b.get("$x").unwrap().0);
}

#[test]
fn leading_bang_negates() {
    let map = process_regexes(&["!buf=^user_".to_string()]).unwrap();
    let (negative, re) = map.get("$buf").unwrap();
    assert!(*negative);
    assert_eq!(re.as_str(), "^user_");
    assert!(map.get("$!buf").is_none());
    let map = process_regexes(&["$!buf=^user_".to_string()]).unwrap();
    assert!(map.get("$buf").unwrap().0);
    assert_eq!(map.variables(), vec!["$buf".to_string()]);
}

#[test]
fn negation_before_or_after_is_the_same() {
    for v in ["!buf=x", "$!buf=x", "buf!=x", "$buf!=x"] {
        let map = process_regexes(&[v.to_string()]).unwrap();
        assert_eq!(map.variables(), vec!["$buf".to_string()]);
        assert!(map.get("$buf").unwrap().0);
    }
    let map = process_regexes(&["buf=x".to_string()]).unwrap();
    assert!(!map.get("$buf").unwrap().0);
}

#[test]
fn lone_bang_constrains_dollar() {
    let map = process_regexes(&["!=x".to_string()]).unwrap();
    assert!(map.get("$").unwrap().0);
}

#[test]
fn only_one_negation_marker_is_stripped() {
    let map = process_regexes(&["!x!=a".to_string()]).unwrap();
    assert_eq!(map.variables(), vec!["$x!".to_string()]);
    assert!(map.get("$x!").unwrap().0);
    let map = process_regexes(&["!!=a".to_string()]).unwrap();
    assert_eq!(map.variables(), vec!["$!".to_string()]);
    assert!(map.get("$!").unwrap().0);
}
