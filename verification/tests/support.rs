use pane_switcher::support::{action_env, base_env, event_env};

fn pair(k: &str, v: &str) -> (String, String) {
    (k.to_string(), v.to_string())
}

fn lookup<'a>(env: &'a [(String, String)], name: &str) -> Option<&'a str> {
    env.iter().rev().find(|(k, _)| k == name).map(|(_, v)| v.as_str())
}

fn count(env: &[(String, String)], name: &str) -> usize {
    env.iter().filter(|(k, _)| k == name).count()
}

#[test]
fn base_env_sets_paths_and_clears_invocation_variables() {
    let vars = vec![
        pair("PATH", "/usr/bin"),
        pair("HERDR_PLUGIN_ACTION_ID", "cycle"),
        pair("HERDR_PANE_ID", "p1"),
        pair("HERDR_PLUGIN_EVENT", "pane.focused"),
        pair("HERDR_PLUGIN_EVENT_JSON", "{}"),
        pair("HERDR_SOCKET_PATH", "/old.sock"),
    ];
    let env = base_env(vars, "/tmp/herdr.sock", "/tmp/state");
    assert_eq!(lookup(&env, "PATH"), Some("/usr/bin"));
    assert_eq!(lookup(&env, "HERDR_SOCKET_PATH"), Some("/tmp/herdr.sock"));
    assert_eq!(count(&env, "HERDR_SOCKET_PATH"), 1);
    assert_eq!(lookup(&env, "HERDR_PLUGIN_STATE_DIR"), Some("/tmp/state"));
    assert_eq!(lookup(&env, "HERDR_PLUGIN_ACTION_ID"), None);
    assert_eq!(lookup(&env, "HERDR_PANE_ID"), None);
    assert_eq!(lookup(&env, "HERDR_PLUGIN_EVENT"), None);
    assert_eq!(lookup(&env, "HERDR_PLUGIN_EVENT_JSON"), None);
    assert_eq!(env.len(), 3);
}

#[test]
fn action_env_sets_action_and_pane() {
    let env = action_env(vec![pair("HOME", "/home/u")], "cycle", Some("pane-0004"));
    assert_eq!(lookup(&env, "HERDR_PLUGIN_ACTION_ID"), Some("cycle"));
    assert_eq!(lookup(&env, "HERDR_PANE_ID"), Some("pane-0004"));
    assert_eq!(lookup(&env, "HOME"), Some("/home/u"));
    assert_eq!(env.len(), 3);
}

#[test]
fn action_env_without_pane_leaves_pane_unset() {
    let env = action_env(vec![pair("HERDR_PLUGIN_ACTION_ID", "old")], "focus-attention", None);
    assert_eq!(lookup(&env, "HERDR_PLUGIN_ACTION_ID"), Some("focus-attention"));
    assert_eq!(count(&env, "HERDR_PLUGIN_ACTION_ID"), 1);
    assert_eq!(lookup(&env, "HERDR_PANE_ID"), None);
}

#[test]
fn event_env_sets_event_and_payload() {
    let env = event_env(Vec::new(), "pane.closed", r#"{"pane_id":"pane-0002"}"#);
    assert_eq!(lookup(&env, "HERDR_PLUGIN_EVENT"), Some("pane.closed"));
    assert_eq!(lookup(&env, "HERDR_PLUGIN_EVENT_JSON"), Some(r#"{"pane_id":"pane-0002"}"#));
    assert_eq!(env.len(), 2);
}
