use chat_log_filter::{filter_chat_log, Config, FilterError};

const PRE: &str = "<html>\n<body>\n<div class=\"Chat\">";
const TRAILER: &str = "</div>\n</body>\n</html>";

fn msg(body: &str) -> String {
    format!("<div class=\"ChatMessage\">{}</div>", body)
}

#[test]
fn filter_keeps_matching_fragments() {
    let m1 = msg("keep me");
    let m2 = msg("drop me");
    let doc = format!("{}{}{}{}", PRE, m1, m2, TRAILER);
    let c = Config::from_args(false, Some("keep".to_string()), None, true).unwrap();
    let out = filter_chat_log(doc, &c).unwrap();
    assert_eq!(out, format!("{}{}{}", PRE, m1, TRAILER));
}

#[test]
fn filter_zero_markers_is_structural_error() {
    let doc = "<html><body>no container here</body></html>".to_string();
    let c = Config::from_args(false, Some("x".to_string()), None, true).unwrap();
    match filter_chat_log(doc, &c) {
        Err(FilterError::Structure { found }) => assert_eq!(found, 0),
        _ => panic!("expected a structural error"),
    }
}

#[test]
fn filter_two_markers_is_structural_error() {
    let doc = format!("{}{}{}{}", PRE, msg("a"), PRE, TRAILER);
    let c = Config::from_args(false, Some("x".to_string()), None, true).unwrap();
    match filter_chat_log(doc, &c) {
        Err(FilterError::Structure { found }) => assert_eq!(found, 2),
        _ => panic!("expected a structural error"),
    }
}

#[test]
fn filter_identity_reproduces_document() {
    let doc = format!("{}{}{}{}", PRE, msg("one"), msg("two"), TRAILER);
    let c = Config::from_args(false, Some(String::new()), None, false).unwrap();
    let out = filter_chat_log(doc.clone(), &c).unwrap();
    assert_eq!(out, doc);
}

#[test]
fn filter_preserves_fragment_order() {
    let f1 = msg("first stays");
    let f2 = msg("second goes away");
    let f3 = msg("third stays");
    let doc = format!("{}{}{}{}{}", PRE, f1, f2, f3, TRAILER);
    let c = Config::from_args(false, None, Some("away".to_string()), true).unwrap();
    let out = filter_chat_log(doc, &c).unwrap();
    assert_eq!(out, format!("{}{}{}{}", PRE, f1, f3, TRAILER));
}

#[test]
fn filter_regex_keeps_only_ooc_messages() {
    let ooc = "<div class=\"ChatMessage\" data-type=\"ooc\">aside</div>";
    let m1 = msg("in character one");
    let m2 = msg("in character two");
    let doc = format!("{}{}{}{}{}", PRE, m1, ooc, m2, TRAILER);
    let pat = "^<div class=\"ChatMessage\" data-type=\"ooc\">".to_string();
    let c = Config::from_args(true, Some(pat), None, true).unwrap();
    let out = filter_chat_log(doc, &c).unwrap();
    assert_eq!(out, format!("{}{}{}", PRE, ooc, TRAILER));
}

#[test]
fn filter_propagates_missing_pattern_error() {
    let doc = format!("{}{}{}", PRE, msg("a"), TRAILER);
    let c = Config::from_args(false, None, None, false).unwrap();
    assert!(matches!(filter_chat_log(doc, &c), Err(FilterError::NoPatterns)));
}

#[test]
fn filter_empty_body_succeeds_without_patterns() {
    let doc = format!("{}{}", PRE, TRAILER);
    let c = Config::from_args(false, None, None, false).unwrap();
    let out = filter_chat_log(doc, &c).unwrap();
    assert_eq!(out, format!("{}{}", PRE, TRAILER));
}

#[test]
fn filter_removes_every_trailer_occurrence() {
    let m1 = msg("one");
    let m2 = msg("two");
    let doc = format!("{}{}{}{}{}", PRE, m1, TRAILER, m2, TRAILER);
    let c = Config::from_args(false, Some(String::new()), None, false).unwrap();
    let out = filter_chat_log(doc, &c).unwrap();
    assert_eq!(out, format!("{}{}{}{}", PRE, m1, m2, TRAILER));
}

#[test]
fn filter_tests_leading_text_as_fragment() {
    let loose = "loose text before any message";
    let m1 = msg("a real ChatMessage line");
    let doc = format!("{}{}{}{}", PRE, loose, m1, TRAILER);
    let c = Config::from_args(false, Some("ChatMessage".to_string()), None, true).unwrap();
    let out = filter_chat_log(doc, &c).unwrap();
    assert_eq!(out, format!("{}{}{}", PRE, m1, TRAILER));
}

#[test]
fn filter_drops_all_when_nothing_matches() {
    let doc = format!("{}{}{}{}", PRE, msg("alpha"), msg("beta"), TRAILER);
    let c = Config::from_args(false, Some("gamma".to_string()), None, true).unwrap();
    let out = filter_chat_log(doc, &c).unwrap();
    assert_eq!(out, format!("{}{}", PRE, TRAILER));
}

#[test]
fn filter_ignores_case_of_fragments() {
    let m1 = msg("SHOUTED TEXT");
    let m2 = msg("quiet text");
    let doc = format!("{}{}{}{}", PRE, m1, m2, TRAILER);
    let c = Config::from_args(false, Some("shouted".to_string()), None, false).unwrap();
    let out = filter_chat_log(doc, &c).unwrap();
    assert_eq!(out, format!("{}{}{}", PRE, m1, TRAILER));
}
