use pane_switcher::env::{active_pane_id, current_pane_id, herdr_socket_path, join_path, state_dir, EnvError};
use pane_switcher::herdr::HerdrError;
use pane_switcher::json::Json;

fn obj(members: Vec<(&str, Json)>) -> Json {
    Json::Object(members.into_iter().map(|(k, v)| (k.to_string(), v)).collect())
}

fn text(s: &str) -> Json {
    Json::Str(s.to_string())
}

fn some(s: &str) -> Option<String> {
    Some(s.to_string())
}

#[test]
fn env_missing_state_dir_errors() {
    let err = state_dir(None).unwrap_err();
    assert!(err.message().contains("HERDR_PLUGIN_STATE_DIR"));
    assert!(matches!(state_dir(some("")), Err(EnvError::StateDirRequired)));
    assert_eq!(state_dir(some("/tmp/s")).unwrap(), "/tmp/s");
}

#[test]
fn env_malformed_event_json_errors() {
    let err = current_pane_id(some("pane.focused"), Some(Err("not json".to_string())), None).unwrap_err();
    assert!(err.message().contains("malformed HERDR_PLUGIN_EVENT_JSON"));
    assert_eq!(err.message(), "malformed HERDR_PLUGIN_EVENT_JSON: not json");
}

#[test]
fn env_current_pane_event_takes_precedence() {
    let payload = obj(vec![("outer", obj(vec![("pane_id", text("event-pane"))]))]);
    assert_eq!(
        current_pane_id(some("pane.focused"), Some(Ok(payload)), some("env-pane")).unwrap(),
        Some("event-pane".to_string())
    );
}

#[test]
fn env_current_pane_env_var_overrides_json() {
    let payload = obj(vec![("pane_id", text("json-pane"))]);
    assert_eq!(current_pane_id(None, Some(Ok(payload)), some("env-pane")).unwrap(), Some("env-pane".to_string()));
}

#[test]
fn env_current_pane_focused_pane_id_precedence() {
    let payload = obj(vec![("focused_pane_id", text("focused")), ("pane_id", text("json"))]);
    assert_eq!(current_pane_id(None, Some(Ok(payload)), None).unwrap(), Some("focused".to_string()));
}

#[test]
fn env_current_pane_nested_pane_id() {
    let payload = obj(vec![("nested", obj(vec![("pane_id", text("deep"))]))]);
    assert_eq!(current_pane_id(None, Some(Ok(payload)), None).unwrap(), Some("deep".to_string()));
}

#[test]
fn current_pane_without_anything_is_none() {
    assert_eq!(current_pane_id(None, None, None).unwrap(), None);
    assert_eq!(current_pane_id(some("pane.focused"), None, some("")).unwrap(), None);
}

#[test]
fn empty_event_name_does_not_count_as_an_event() {
    let payload = obj(vec![("pane_id", text("json"))]);
    assert_eq!(current_pane_id(some(""), Some(Ok(payload)), some("env")).unwrap(), Some("env".to_string()));
}

#[test]
fn empty_strings_are_skipped_in_the_payload() {
    let payload = obj(vec![
        ("a", Json::Array(vec![Json::Null, obj(vec![("pane_id", text(""))])])),
        ("pane_id", obj(vec![("pane_id", text("inner"))])),
    ]);
    assert_eq!(current_pane_id(some("pane.closed"), Some(Ok(payload)), None).unwrap(), Some("inner".to_string()));
}

#[test]
fn socket_path_resolution() {
    assert_eq!(herdr_socket_path(some("/run/h.sock"), some("/x"), some("/home/u")).unwrap(), "/run/h.sock");
    assert_eq!(herdr_socket_path(some(""), some("/x"), some("/home/u")).unwrap(), "/x/herdr/herdr.sock");
    assert_eq!(herdr_socket_path(None, None, some("/home/u")).unwrap(), "/home/u/.config/herdr/herdr.sock");
    assert_eq!(herdr_socket_path(None, some("/cfg/"), None).unwrap(), "/cfg/herdr/herdr.sock");
    assert_eq!(herdr_socket_path(None, some(""), some("/home/u")).unwrap(), "herdr/herdr.sock");
    let err = herdr_socket_path(None, None, None).unwrap_err();
    assert!(matches!(err, EnvError::NoSocketPath));
    assert_eq!(
        err.message(),
        "could not determine herdr socket path; set HERDR_SOCKET_PATH or XDG_CONFIG_HOME or HOME"
    );
}

#[test]
fn join_path_separators() {
    assert_eq!(join_path("a", "b"), "a/b");
    assert_eq!(join_path("a/", "b"), "a/b");
    assert_eq!(join_path("", "b"), "b");
    assert_eq!(join_path("/", "b"), "/b");
    assert_eq!(join_path("ä", "b"), "ä/b");
}

#[test]
fn active_pane_prefers_environment() {
    assert_eq!(active_pane_id(some("env"), Ok(some("host"))), some("env"));
    assert_eq!(active_pane_id(None, Ok(some("host"))), some("host"));
    assert_eq!(active_pane_id(None, Ok(None)), None);
    assert_eq!(active_pane_id(None, Err(HerdrError::CurrentFailed("boom".into()))), None);
}
