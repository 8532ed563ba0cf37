use chat_log_filter::{Config, FilterError, Role};

#[test]
fn literal_match_basic() {
    let c = Config::from_args(false, Some("hello".to_string()), None, true).unwrap();
    assert_eq!(c.matches("xx hello yy").unwrap(), true);
    assert_eq!(c.matches("nothing here").unwrap(), false);
}

#[test]
fn no_patterns_matches_fails() {
    let c = Config::from_args(false, None, None, false).unwrap();
    assert!(matches!(c.matches("anything"), Err(FilterError::NoPatterns)));
}

#[test]
fn forbidden_only() {
    let c = Config::from_args(false, None, Some("bad".to_string()), true).unwrap();
    assert_eq!(c.matches("all good").unwrap(), true);
    assert_eq!(c.matches("a bad line").unwrap(), false);
}

#[test]
fn forbidden_overrides_required() {
    let c = Config::from_args(false, Some("A".to_string()), Some("A".to_string()), true).unwrap();
    assert_eq!(c.matches("x A x").unwrap(), false);
    assert_eq!(c.matches("no match at all").unwrap(), false);
}

#[test]
fn case_fold_when_ignoring_case() {
    let c = Config::from_args(false, Some("Foo".to_string()), None, false).unwrap();
    assert_eq!(c.matches("xx foo yy").unwrap(), true);
}

#[test]
fn case_respected_when_matching_case() {
    let c = Config::from_args(false, Some("Foo".to_string()), None, true).unwrap();
    assert_eq!(c.matches("xx foo yy").unwrap(), false);
    assert_eq!(c.matches("xx Foo yy").unwrap(), true);
}

#[test]
fn patterns_lowered_at_construction() {
    let c = Config::from_args(false, Some("ABC".to_string()), None, false).unwrap();
    assert_eq!(c.matches("zz abc zz").unwrap(), true);
}

#[test]
fn regex_mode_match() {
    let c = Config::from_args(true, Some("^abc$".to_string()), None, true).unwrap();
    assert_eq!(c.matches("abc").unwrap(), true);
    assert_eq!(c.matches("zabc").unwrap(), false);
}

#[test]
fn regex_case_fold() {
    let c = Config::from_args(true, Some("FOO".to_string()), None, false).unwrap();
    assert_eq!(c.matches("x FOO y").unwrap(), true);
    assert_eq!(c.matches("x foo y").unwrap(), true);
}

#[test]
fn regex_bad_required() {
    let r = Config::from_args(true, Some("[".to_string()), None, true);
    match r {
        Err(FilterError::RegexSyntax { role, pattern, detail }) => {
            assert_eq!(role, Role::Required);
            assert_eq!(pattern, "[");
            assert!(!detail.is_empty());
        }
        _ => panic!("expected a pattern compilation error"),
    }
}

#[test]
fn regex_bad_forbidden() {
    let r = Config::from_args(true, Some("good".to_string()), Some("(".to_string()), true);
    match r {
        Err(FilterError::RegexSyntax { role, pattern, .. }) => {
            assert_eq!(role, Role::Forbidden);
            assert_eq!(pattern, "(");
        }
        _ => panic!("expected a pattern compilation error"),
    }
}

#[test]
fn no_patterns_message_text() {
    let c = Config::from_args(false, None, None, false).unwrap();
    let e = c.matches("x").unwrap_err();
    assert_eq!(e.message(), "no required/forbidden patterns were provided");
}

#[test]
fn structure_message_uses_count() {
    let e = FilterError::Structure { found: 12 };
    assert_eq!(e.message(), "expected 1 chat container marker, but found 12");
}
