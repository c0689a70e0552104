//! Environments for running the plugin as a process of its own, as the
//! benchmark and the end-to-end checks do.
//!
//! An environment is a list of variable names and values; a later entry for
//! a name overrides an earlier one, as when such a list is collected into a
//! map.

use vstd::prelude::*;
use crate::text::str_eq;

verus! {

/// The variables that an environment list sets.
pub open spec fn env_vars(e: Seq<(String, String)>) -> Map<Seq<char>, Seq<char>>
    decreases e.len(),
{
    if e.len() == 0 {
        Map::empty()
    } else {
        env_vars(e.drop_last()).insert(e.last().0@, e.last().1@)
    }
}

/// Whether no variable name occurs twice in an environment list.
pub open spec fn names_distinct(e: Seq<(String, String)>) -> bool {
    forall|i: int, j: int| 0 <= i < j < e.len() ==> e[i].0@ != e[j].0@
}

/// The list without the entries for `name`.
fn remove_var(env: Vec<(String, String)>, name: &str) -> (res: Vec<(String, String)>)
    ensures
        env_vars(res@) == env_vars(env@).remove(name@),
        forall|k: int| 0 <= k < res@.len() ==> #[trigger] res@[k].0@ != name@,
        names_distinct(env@) ==> names_distinct(res@),
{
    let mut res: Vec<(String, String)> = Vec::new();
    let mut i: usize = 0;
    assert(env_vars(res@) =~= env_vars(env@.take(0)).remove(name@));
    while i < env.len()
        invariant
            i <= env@.len(),
            env_vars(res@) == env_vars(env@.take(i as int)).remove(name@),
            forall|k: int| 0 <= k < res@.len() ==> #[trigger] res@[k].0@ != name@,
            names_distinct(env@) ==> names_distinct(res@),
            names_distinct(env@) ==> forall|k: int, j: int|
                0 <= k < res@.len() && i <= j < env@.len() ==> #[trigger] res@[k].0@ != #[trigger] env@[j].0@,
        decreases env@.len() - i,
    {
        let ghost before = res@;
        let ghost e = env@[i as int];
        assert(env@.take(i + 1).drop_last() =~= env@.take(i as int));
        assert(env@.take(i + 1).last() == e);
        if !str_eq(env[i].0.as_str(), name) {
            res.push((env[i].0.clone(), env[i].1.clone()));
            assert(res@.drop_last() =~= before);
            assert(env_vars(res@) =~= env_vars(env@.take(i + 1)).remove(name@));
        } else {
            assert(env_vars(res@) =~= env_vars(env@.take(i + 1)).remove(name@));
        }
        i = i + 1;
    }
    assert(env@.take(env@.len() as int) =~= env@);
    res
}

/// The list with `name` set to `value`, replacing any earlier value.
fn set_var(env: Vec<(String, String)>, name: &str, value: &str) -> (res: Vec<(String, String)>)
    ensures
        env_vars(res@) == env_vars(env@).insert(name@, value@),
        names_distinct(env@) ==> names_distinct(res@),
{
    let mut res = remove_var(env, name);
    let ghost before = res@;
    res.push((name.to_string(), value.to_string()));
    assert(res@.drop_last() =~= before);
    assert(env_vars(res@) =~= env_vars(env@).insert(name@, value@));
    res
}

/// The environment of a plugin run against the host socket `socket_path`
/// with the state directory `state_dir`: `vars` (the caller's own
/// environment) with both set and with no action, pane, event or event
/// payload left over.
pub fn base_env(vars: Vec<(String, String)>, socket_path: &str, state_dir: &str) -> (res: Vec<(String, String)>)
    ensures
        env_vars(res@) == env_vars(vars@).insert("HERDR_SOCKET_PATH"@, socket_path@).insert(
            "HERDR_PLUGIN_STATE_DIR"@,
            state_dir@,
        ).remove("HERDR_PLUGIN_ACTION_ID"@).remove("HERDR_PANE_ID"@).remove("HERDR_PLUGIN_EVENT"@).remove(
            "HERDR_PLUGIN_EVENT_JSON"@,
        ),
        names_distinct(vars@) ==> names_distinct(res@),
{
    let env = set_var(vars, "HERDR_SOCKET_PATH", socket_path);
    let env = set_var(env, "HERDR_PLUGIN_STATE_DIR", state_dir);
    let env = remove_var(env, "HERDR_PLUGIN_ACTION_ID");
    let env = remove_var(env, "HERDR_PANE_ID");
    let env = remove_var(env, "HERDR_PLUGIN_EVENT");
    remove_var(env, "HERDR_PLUGIN_EVENT_JSON")
}

/// The environment of a run of the action `action`, from the pane
/// `pane_id` when one is given.
pub fn action_env(env: Vec<(String, String)>, action: &str, pane_id: Option<&str>) -> (res: Vec<(String, String)>)
    ensures
        env_vars(res@) == match pane_id {
            Some(p) => env_vars(env@).insert("HERDR_PLUGIN_ACTION_ID"@, action@).insert("HERDR_PANE_ID"@, p@),
            None => env_vars(env@).insert("HERDR_PLUGIN_ACTION_ID"@, action@),
        },
        names_distinct(env@) ==> names_distinct(res@),
{
    let env = set_var(env, "HERDR_PLUGIN_ACTION_ID", action);
    match pane_id {
        Some(p) => set_var(env, "HERDR_PANE_ID", p),
        None => env,
    }
}

/// The environment of a run for the host event `event`, whose payload is
/// the JSON text `event_json`.
pub fn event_env(env: Vec<(String, String)>, event: &str, event_json: &str) -> (res: Vec<(String, String)>)
    ensures
        env_vars(res@) == env_vars(env@).insert("HERDR_PLUGIN_EVENT"@, event@).insert(
            "HERDR_PLUGIN_EVENT_JSON"@,
            event_json@,
        ),
        names_distinct(env@) ==> names_distinct(res@),
{
    let env = set_var(env, "HERDR_PLUGIN_EVENT", event);
    set_var(env, "HERDR_PLUGIN_EVENT_JSON", event_json)
}

} // verus!
