//! Decisions taken on the plugin's environment: where the host's socket
//! and the state directory are, and which pane an invocation is about.

use vstd::prelude::*;
use vstd::string::StringExecFns;
use crate::herdr::HerdrError;
use crate::json::{Json, find_truthy, nested_string};
use crate::text::ends_with_char;

verus! {

/// Why the environment does not say what the plugin needs.
#[derive(Debug)]
pub enum EnvError {
    /// None of `HERDR_SOCKET_PATH`, `XDG_CONFIG_HOME` and `HOME` is set.
    NoSocketPath,
    /// `HERDR_PLUGIN_STATE_DIR` is unset or empty.
    StateDirRequired,
    /// `HERDR_PLUGIN_EVENT_JSON` is not JSON; the raw text.
    MalformedEventJson(String),
}

impl EnvError {
    /// The message to show for this error.
    pub fn message(&self) -> (res: String)
        ensures
            res@ == match self {
                EnvError::NoSocketPath => "could not determine herdr socket path; set HERDR_SOCKET_PATH or XDG_CONFIG_HOME or HOME"@,
                EnvError::StateDirRequired => "HERDR_PLUGIN_STATE_DIR is required"@,
                EnvError::MalformedEventJson(raw) => "malformed HERDR_PLUGIN_EVENT_JSON: "@ + raw@,
            },
    {
        match self {
            EnvError::NoSocketPath => "could not determine herdr socket path; set HERDR_SOCKET_PATH or XDG_CONFIG_HOME or HOME".to_string(),
            EnvError::StateDirRequired => "HERDR_PLUGIN_STATE_DIR is required".to_string(),
            EnvError::MalformedEventJson(raw) => "malformed HERDR_PLUGIN_EVENT_JSON: ".to_string().concat(raw.as_str()),
        }
    }
}

/// A relative path component appended to a path: with a `/` between them
/// unless the path is empty or already ends with one.
pub open spec fn path_join(base: Seq<char>, part: Seq<char>) -> Seq<char> {
    if base.len() == 0 || base.last() == '/' {
        base + part
    } else {
        base + seq!['/'] + part
    }
}

/// Appends the relative component `part` to the path `base`; see [`path_join`].
pub fn join_path(base: &str, part: &str) -> (res: String)
    ensures
        res@ == path_join(base@, part@),
{
    let mut out = base.to_string();
    if !base.is_empty() && !ends_with_char(base, '/') {
        out.append("/");
        proof {
            reveal_strlit("/");
        }
    }
    out.append(part);
    out
}

/// A variable's value when it is set and not empty.
pub open spec fn non_empty(v: Option<String>) -> Option<Seq<char>> {
    match v {
        Some(s) => if s@.len() > 0 {
            Some(s@)
        } else {
            None
        },
        None => None,
    }
}

/// Where the host's socket is: `HERDR_SOCKET_PATH` when set and not empty,
/// else `herdr/herdr.sock` under `XDG_CONFIG_HOME` when set, else under
/// `.config` in `HOME` when set; `None` when none of them is set.
pub open spec fn socket_path(socket: Option<String>, xdg_config_home: Option<String>, home: Option<String>) -> Option<Seq<char>> {
    if non_empty(socket) is Some {
        non_empty(socket)
    } else {
        let config = match xdg_config_home {
            Some(x) => Some(x@),
            None => match home {
                Some(h) => Some(path_join(h@, ".config"@)),
                None => None,
            },
        };
        match config {
            Some(c) => Some(path_join(path_join(c, "herdr"@), "herdr.sock"@)),
            None => None,
        }
    }
}

/// The host's socket path from the values of `HERDR_SOCKET_PATH`,
/// `XDG_CONFIG_HOME` and `HOME`; see [`socket_path`].
pub fn herdr_socket_path(socket: Option<String>, xdg_config_home: Option<String>, home: Option<String>) -> (res: Result<String, EnvError>)
    ensures
        match socket_path(socket, xdg_config_home, home) {
            Some(p) => res matches Ok(s) && s@ == p,
            None => res matches Err(EnvError::NoSocketPath),
        },
{
    if let Some(path) = &socket {
        if !path.as_str().is_empty() {
            return Ok(path.clone());
        }
    }
    let config_dir = match xdg_config_home {
        Some(x) => x,
        None => match home {
            Some(h) => join_path(h.as_str(), ".config"),
            None => {
                return Err(EnvError::NoSocketPath);
            },
        },
    };
    let dir = join_path(config_dir.as_str(), "herdr");
    Ok(join_path(dir.as_str(), "herdr.sock"))
}

/// The state directory from the value of `HERDR_PLUGIN_STATE_DIR`: required
/// to be set and not empty.
pub fn state_dir(value: Option<String>) -> (res: Result<String, EnvError>)
    ensures
        match non_empty(value) {
            Some(d) => res matches Ok(s) && s@ == d,
            None => res matches Err(EnvError::StateDirRequired),
        },
{
    match value {
        Some(d) => if !d.as_str().is_empty() {
            Ok(d)
        } else {
            Err(EnvError::StateDirRequired)
        },
        None => Err(EnvError::StateDirRequired),
    }
}

/// The pane an invocation is about. `event` is `HERDR_PLUGIN_EVENT`;
/// `payload` is the parsed `HERDR_PLUGIN_EVENT_JSON` (`None` when it is
/// unset, which reads as an empty object); `pane` is `HERDR_PANE_ID`. For an event, the payload's
/// `pane_id` comes first; then `HERDR_PANE_ID`; then the payload's
/// `focused_pane_id`, then its `pane_id`.
pub open spec fn event_pane(event: Option<String>, payload: Option<Json>, pane: Option<String>) -> Option<Seq<char>> {
    if non_empty(event) is Some && payload_string(payload, "pane_id"@) is Some {
        payload_string(payload, "pane_id"@)
    } else if non_empty(pane) is Some {
        non_empty(pane)
    } else if payload_string(payload, "focused_pane_id"@) is Some {
        payload_string(payload, "focused_pane_id"@)
    } else {
        payload_string(payload, "pane_id"@)
    }
}

/// The first non-empty string under `key` in the payload, when there is one.
pub open spec fn payload_string(payload: Option<Json>, key: Seq<char>) -> Option<Seq<char>> {
    match payload {
        Some(j) => find_truthy(j, key),
        None => None,
    }
}

/// A set, non-empty `HERDR_SOCKET_PATH` is the socket path as it stands,
/// whatever `XDG_CONFIG_HOME` and `HOME` hold or whether they are set.
pub proof fn lemma_explicit_socket_wins(socket: Option<String>, xdg_config_home: Option<String>, home: Option<String>)
    requires
        socket matches Some(p) && p@.len() > 0,
    ensures
        socket_path(socket, xdg_config_home, home) == Some(socket->Some_0@),
{
}

/// A resolved socket path exists exactly when one of the three variables
/// is set, counting `HERDR_SOCKET_PATH` only when it is not empty.
pub proof fn lemma_socket_path_exists(socket: Option<String>, xdg_config_home: Option<String>, home: Option<String>)
    ensures
        socket_path(socket, xdg_config_home, home) is Some <==> (socket matches Some(p) && p@.len() > 0)
            || xdg_config_home is Some || home is Some,
{
}

/// For a host event, the pane that the payload names under `pane_id` is the
/// pane the event is about, whatever `focused_pane_id` the payload holds and
/// whatever `HERDR_PANE_ID` says.
pub proof fn lemma_event_payload_pane_wins(event: Option<String>, payload: Json, pane: Option<String>)
    requires
        event matches Some(e) && e@.len() > 0,
        find_truthy(payload, "pane_id"@) is Some,
    ensures
        event_pane(event, Some(payload), pane) == find_truthy(payload, "pane_id"@),
{
}

/// Without an event, a set, non-empty `HERDR_PANE_ID` names the pane,
/// whatever the payload holds.
pub proof fn lemma_pane_variable_wins_without_event(payload: Option<Json>, pane: Option<String>)
    requires
        pane matches Some(p) && p@.len() > 0,
    ensures
        event_pane(None, payload, pane) == Some(pane->Some_0@),
{
}

/// Without an event and without `HERDR_PANE_ID`, the payload's
/// `focused_pane_id` names the pane before its `pane_id` does.
pub proof fn lemma_focused_pane_before_pane_id(payload: Json, pane: Option<String>)
    requires
        pane is None || pane->Some_0@.len() == 0,
        find_truthy(payload, "focused_pane_id"@) is Some,
    ensures
        event_pane(None, Some(payload), pane) == find_truthy(payload, "focused_pane_id"@),
{
}

/// The pane an invocation is about, from the values of
/// `HERDR_PLUGIN_EVENT`, `HERDR_PLUGIN_EVENT_JSON` (`None` when unset, else
/// the parsed document or, when it is not JSON, its raw text) and
/// `HERDR_PANE_ID`; see [`event_pane`].
pub fn current_pane_id(
    event: Option<String>,
    event_json: Option<Result<Json, String>>,
    pane: Option<String>,
) -> (res: Result<Option<String>, EnvError>)
    ensures
        match event_json {
            Some(Err(raw)) => res matches Err(EnvError::MalformedEventJson(r)) && r@ == raw@,
            Some(Ok(payload)) => res matches Ok(id) && crate::actions::opt_view(id) == event_pane(event, Some(payload), pane),
            None => res matches Ok(id) && crate::actions::opt_view(id) == event_pane(event, None, pane),
        },
{
    let ghost parsed: Option<Json> = if event_json matches Some(Ok(_)) {
        Some(event_json->Some_0->Ok_0)
    } else {
        None
    };
    let payload = match event_json {
        Some(Ok(j)) => j,
        Some(Err(raw)) => {
            return Err(EnvError::MalformedEventJson(raw));
        },
        None => Json::Object(Vec::new()),
    };
    assert(forall|key: Seq<char>| #[trigger] find_truthy(payload, key) == payload_string(parsed, key));
    let has_event = match &event {
        Some(e) => !e.as_str().is_empty(),
        None => false,
    };
    if has_event {
        if let Some(id) = nested_string(&payload, "pane_id") {
            return Ok(Some(id));
        }
    }
    if let Some(p) = pane {
        if !p.as_str().is_empty() {
            return Ok(Some(p));
        }
    }
    if let Some(id) = nested_string(&payload, "focused_pane_id") {
        return Ok(Some(id));
    }
    if let Some(id) = nested_string(&payload, "pane_id") {
        return Ok(Some(id));
    }
    Ok(None)
}

/// The pane an action is about: the one the environment names, else the
/// host's current pane, else none when asking the host failed.
pub fn active_pane_id(from_env: Option<String>, from_host: Result<Option<String>, HerdrError>) -> (res: Option<String>)
    ensures
        res == match from_env {
            Some(p) => Some(p),
            None => match from_host {
                Ok(p) => p,
                Err(_) => None,
            },
        },
{
    match from_env {
        Some(p) => Some(p),
        None => match from_host {
            Ok(p) => p,
            Err(_) => None,
        },
    }
}

} // verus!
