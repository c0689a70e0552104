use pane_switcher::herdr::{all_pane_ids, all_panes, check_error, current_pane, request_id, ErrorOnly, HerdrError, Pane, PaneListEnvelope, PaneListResult};
use pane_switcher::json::{nested_string, nested_value, Json};
use pane_switcher::text::{contains_str, ends_with_char, push_decimal, str_eq};

fn pane(id: &str) -> Pane {
    Pane { pane_id: id.into(), agent_status: None, title: None }
}

fn obj(members: Vec<(&str, Json)>) -> Json {
    Json::Object(members.into_iter().map(|(k, v)| (k.to_string(), v)).collect())
}

#[test]
fn pane_list_prefers_top_level_panes() {
    let env = PaneListEnvelope {
        result: Some(PaneListResult { panes: Some(vec![pane("nested")]) }),
        panes: Some(vec![pane("top")]),
        error: None,
    };
    let ids: Vec<String> = all_panes(env).unwrap().into_iter().map(|p| p.pane_id).collect();
    assert_eq!(ids, vec!["top"]);
}

#[test]
fn pane_list_falls_back_to_result_then_empty() {
    let env = PaneListEnvelope {
        result: Some(PaneListResult { panes: Some(vec![pane("a"), pane("b")]) }),
        panes: None,
        error: None,
    };
    assert_eq!(all_pane_ids(env).unwrap(), vec!["a", "b"]);
    let empty = PaneListEnvelope { result: Some(PaneListResult { panes: None }), panes: None, error: None };
    assert!(all_pane_ids(empty).unwrap().is_empty());
    let nothing = PaneListEnvelope { result: None, panes: None, error: None };
    assert!(all_panes(nothing).unwrap().is_empty());
}

#[test]
fn pane_list_error_wins() {
    let env = PaneListEnvelope { result: None, panes: Some(vec![pane("a")]), error: Some("nope".into()) };
    let err = all_panes(env).unwrap_err();
    assert_eq!(err.message(), "herdr pane.list failed: nope");
}

#[test]
fn check_error_reports_error() {
    assert!(check_error(ErrorOnly { error: None }).is_ok());
    let err = check_error(ErrorOnly { error: Some("bad".into()) }).unwrap_err();
    assert!(matches!(err, HerdrError::Failed(ref m) if m == "bad"));
    assert_eq!(err.message(), "herdr failed: bad");
}

#[test]
fn current_pane_from_reply() {
    let reply = obj(vec![("result", obj(vec![("pane_id", Json::Str("p7".into()))]))]);
    assert_eq!(current_pane(&reply).unwrap(), Some("p7".to_string()));
    // the first pane_id found decides, even when it is not a string
    let null_first = obj(vec![("a", obj(vec![("pane_id", Json::Null)])), ("b", obj(vec![("pane_id", Json::Str("x".into()))]))]);
    assert_eq!(current_pane(&null_first).unwrap(), None);
    let empty = obj(vec![("pane_id", Json::Str("".into()))]);
    assert_eq!(current_pane(&empty).unwrap(), None);
    let failed = obj(vec![("error", Json::Str("gone".into())), ("pane_id", Json::Str("p".into()))]);
    let err = current_pane(&failed).unwrap_err();
    assert_eq!(err.message(), "herdr pane.current failed: gone");
    // a non-string error member is no error
    let odd = obj(vec![("error", Json::Number("7".into())), ("pane_id", Json::Str("p".into()))]);
    assert_eq!(current_pane(&odd).unwrap(), Some("p".to_string()));
}

#[test]
fn nested_searches() {
    let doc = Json::Array(vec![
        Json::Bool(true),
        obj(vec![("k", Json::Str("".into())), ("m", obj(vec![("k", Json::Str("deep".into()))]))]),
    ]);
    assert!(matches!(nested_value(&doc, "k"), Some(Json::Str(s)) if s.is_empty()));
    assert_eq!(nested_string(&doc, "k"), Some("deep".to_string()));
    assert!(nested_value(&doc, "absent").is_none());
    assert_eq!(nested_string(&Json::Null, "k"), None);
}

#[test]
fn request_id_format() {
    assert_eq!(request_id("pane.list", 1234567890123), "plugin:pane-switcher:pane.list:1234567890123");
    assert_eq!(request_id("pane.focus", 0), "plugin:pane-switcher:pane.focus:0");
}

#[test]
fn decimal_formatting() {
    let mut s = String::from("n=");
    push_decimal(&mut s, u128::MAX);
    assert_eq!(s, format!("n={}", u128::MAX));
    let mut t = String::new();
    push_decimal(&mut t, 10);
    assert_eq!(t, "10");
}

#[test]
fn text_helpers() {
    assert!(str_eq("αβ", "αβ"));
    assert!(!str_eq("a", "ab"));
    assert!(!str_eq("a", "b"));
    let v = vec!["x".to_string(), "yz".to_string()];
    assert!(contains_str(&v, "yz"));
    assert!(!contains_str(&v, "y"));
    assert!(ends_with_char("a/", '/'));
    assert!(!ends_with_char("", '/'));
    assert!(!ends_with_char("/a", '/'));
}
