use pane_switcher::actions::{attention_panes, cycle_panes_logic, focus_attention, promote, record_event_logic, status_priority, CycleError};
use pane_switcher::herdr::Pane;
use pane_switcher::plugin::{choose_job, Job};
use pane_switcher::state::{Cycle, State};

const CYCLE_TIMEOUT_SECONDS: f64 = 1.0;

fn make_state(history: Vec<String>, cycle: Option<Cycle>) -> State {
    State { version: 2, history, cycle }
}

fn strings(items: &[&str]) -> Vec<String> {
    items.iter().map(|s| s.to_string()).collect()
}

/// One press of the cycle action at `now` seconds, deciding the timeout the
/// way the plugin does.
fn press(current: &str, panes: &[String], state: &mut State, now: f64) -> Result<Option<String>, CycleError> {
    let within = state
        .cycle
        .as_ref()
        .map(|c| (0.0..=CYCLE_TIMEOUT_SECONDS).contains(&(now - f64::from_bits(c.last_at))))
        .unwrap_or(false);
    cycle_panes_logic(current, panes, state, now.to_bits(), within)
}

fn pane(id: &str, status: Option<&str>) -> Pane {
    Pane { pane_id: id.into(), agent_status: status.map(|s| s.into()), title: None }
}

#[test]
fn promote_empty() {
    assert_eq!(promote(&[], "p1"), vec!["p1".to_string()]);
}

#[test]
fn promote_duplicate_not_added() {
    let history = vec!["a".to_string(), "b".to_string()];
    assert_eq!(promote(&history, "a"), vec!["a", "b"]);
}

#[test]
fn promote_already_first() {
    let history = vec!["a".to_string(), "b".to_string(), "c".to_string()];
    assert_eq!(promote(&history, "a"), vec!["a", "b", "c"]);
}

#[test]
fn promote_moves_to_front_and_removes_old() {
    let history = vec!["a".to_string(), "b".to_string(), "c".to_string()];
    assert_eq!(promote(&history, "c"), vec!["c", "a", "b"]);
}

#[test]
fn promote_removes_every_old_occurrence() {
    let history = strings(&["b", "a", "b", "c"]);
    assert_eq!(promote(&history, "b"), vec!["b", "a", "c"]);
}

#[test]
fn attention_sorting_priority_and_stability() {
    let panes = vec![
        pane("p3", Some("working")),
        pane("p0", Some("blocked")),
        pane("p2", Some("idle")),
        pane("p1", Some("done")),
        pane("p0b", Some("blocked")),
    ];
    let sorted = attention_panes(&panes);
    let ids: Vec<_> = sorted.iter().map(|p| p.pane_id.as_str()).collect();
    assert_eq!(ids, vec!["p0", "p0b", "p1", "p2", "p3"]);
}

#[test]
fn attention_ignores_unknown_status() {
    let panes = vec![pane("p1", Some("unknown")), pane("p0", Some("blocked"))];
    let sorted = attention_panes(&panes);
    assert_eq!(sorted.len(), 1);
    assert_eq!(sorted[0].pane_id, "p0");
}

#[test]
fn attention_skips_panes_without_status() {
    let panes = vec![pane("a", None), pane("b", Some("done")), pane("c", Some(""))];
    let sorted = attention_panes(&panes);
    let ids: Vec<_> = sorted.iter().map(|p| p.pane_id.as_str()).collect();
    assert_eq!(ids, vec!["b"]);
}

#[test]
fn status_priority_order() {
    assert_eq!(status_priority("blocked"), Some(0));
    assert_eq!(status_priority("done"), Some(1));
    assert_eq!(status_priority("idle"), Some(2));
    assert_eq!(status_priority("working"), Some(3));
    assert_eq!(status_priority("Blocked"), None);
    assert_eq!(status_priority(""), None);
}

#[test]
fn focus_attention_picks_first_priority_pane() {
    let panes = vec![pane("w", Some("working")), pane("d", Some("done")), pane("b", Some("blocked"))];
    assert_eq!(focus_attention(false, &panes, Some("w".into())), Some("b".to_string()));
    assert_eq!(focus_attention(false, &panes, None), Some("b".to_string()));
    // already on the first attention pane: nothing to focus
    assert_eq!(focus_attention(false, &panes, Some("b".into())), None);
}

#[test]
fn cycle_attention_moves_to_next_and_wraps() {
    let panes = vec![pane("w", Some("working")), pane("d", Some("done")), pane("b", Some("blocked"))];
    // order: b, d, w
    assert_eq!(focus_attention(true, &panes, Some("b".into())), Some("d".to_string()));
    assert_eq!(focus_attention(true, &panes, Some("d".into())), Some("w".to_string()));
    assert_eq!(focus_attention(true, &panes, Some("w".into())), Some("b".to_string()));
    // a pane outside the attention list starts at the first
    assert_eq!(focus_attention(true, &panes, Some("x".into())), Some("b".to_string()));
    assert_eq!(focus_attention(true, &panes, None), Some("b".to_string()));
}

#[test]
fn attention_without_recognized_status_moves_nothing() {
    let panes = vec![pane("a", Some("unknown")), pane("b", None)];
    assert_eq!(focus_attention(false, &panes, Some("a".into())), None);
    assert_eq!(focus_attention(true, &panes, None), None);
}

#[test]
fn cycle_first_returns_second_mru_pane() {
    let panes = vec!["a".to_string(), "b".to_string(), "c".to_string()];
    let mut state = make_state(vec![], None);

    let focused = press("a", &panes, &mut state, 0.0).unwrap();

    assert_eq!(focused, Some("b".to_string()));
    assert_eq!(state.history, vec!["b", "a", "c"]);
    let cycle = state.cycle.as_ref().unwrap();
    assert_eq!(cycle.index, 1);
    assert_eq!(cycle.target, "b");
}

#[test]
fn cycle_repeated_within_timeout_advances() {
    let panes = vec!["a".to_string(), "b".to_string(), "c".to_string()];
    let mut state = make_state(vec![], None);

    press("a", &panes, &mut state, 0.0).unwrap();
    assert_eq!(state.cycle.as_ref().unwrap().target, "b");

    let focused = press("b", &panes, &mut state, 0.2).unwrap();

    assert_eq!(focused, Some("c".to_string()));
    assert_eq!(state.cycle.as_ref().unwrap().index, 2);
    assert_eq!(state.cycle.as_ref().unwrap().target, "c");
    assert_eq!(state.history, vec!["c", "b", "a"]);
}

#[test]
fn cycle_after_timeout_restarts() {
    let panes = vec!["a".to_string(), "b".to_string(), "c".to_string()];
    let mut state = make_state(vec![], None);

    press("a", &panes, &mut state, 0.0).unwrap();
    let focused = press("b", &panes, &mut state, 2.0).unwrap();

    assert_eq!(focused, Some("a".to_string()));
    assert_eq!(state.cycle.as_ref().unwrap().index, 1);
    assert_eq!(state.cycle.as_ref().unwrap().target, "a");
}

#[test]
fn cycle_empty_pane_list_is_no_op() {
    let panes: Vec<String> = vec![];
    let mut state = make_state(vec![], None);

    let focused = press("a", &panes, &mut state, 0.0).unwrap();

    assert!(focused.is_none());
    assert!(state.cycle.is_none());
}

#[test]
fn cycle_single_pane_is_no_op() {
    let panes = vec!["a".to_string()];
    let mut state = make_state(vec![], None);

    let focused = press("a", &panes, &mut state, 0.0).unwrap();

    assert!(focused.is_none());
    assert!(state.cycle.is_none());
}

#[test]
fn cycle_removed_pane_excluded() {
    let panes = vec!["a".to_string(), "c".to_string()];
    let mut state = make_state(vec!["b".to_string(), "a".to_string(), "c".to_string()], None);

    let focused = press("a", &panes, &mut state, 0.0).unwrap();

    assert_eq!(focused, Some("c".to_string()));
    assert_eq!(state.history, vec!["c", "a"]);
    assert!(state.history.iter().find(|p| *p == "b").is_none());
}

#[test]
fn cycle_target_equals_current_skips_focus() {
    // When the next pane in the MRU order wraps around to the current pane,
    // no focus is asked for.
    let panes = vec!["a".to_string(), "b".to_string(), "c".to_string()];
    // previous cycle: order [a, b, c] with target c at index 2.
    // After the cycle, state.history is [c, a, b].
    let mut state = make_state(
        vec!["c".to_string(), "a".to_string(), "b".to_string()],
        Some(Cycle { index: 2, target: "c".to_string(), last_at: 0.0f64.to_bits() }),
    );

    // current pane is c; next index (2 + 1) % 3 = 0 wraps to c itself.
    let focused = press("c", &panes, &mut state, 0.2).unwrap();

    assert!(focused.is_none());
    assert_eq!(state.cycle.as_ref().unwrap().target, "c");
    assert_eq!(state.cycle.as_ref().unwrap().index, 0);
}

#[test]
fn cycle_with_only_the_current_pane_listed_twice_fails() {
    let panes = strings(&["a", "a"]);
    let mut state = make_state(vec![], None);
    assert_eq!(press("a", &panes, &mut state, 0.0), Err(CycleError::IndexOutOfBounds));
    assert!(state.history.is_empty());
    assert!(state.cycle.is_none());
}

#[test]
fn cycle_restarts_when_a_pane_disappears() {
    let all = strings(&["a", "b", "c", "d"]);
    let mut state = make_state(vec![], None);
    assert_eq!(press("a", &all, &mut state, 0.0).unwrap(), Some("b".to_string()));
    let fewer = strings(&["a", "b", "c"]);
    // d disappeared: the captured order no longer holds, so the cycle restarts
    assert_eq!(press("b", &fewer, &mut state, 0.1).unwrap(), Some("a".to_string()));
    assert_eq!(state.cycle.as_ref().unwrap().index, 1);
}

#[test]
fn cycle_restarts_when_a_pane_appears() {
    let panes = strings(&["a", "b"]);
    let mut state = make_state(vec![], None);
    assert_eq!(press("a", &panes, &mut state, 0.0).unwrap(), Some("b".to_string()));
    let more = strings(&["a", "b", "c"]);
    assert_eq!(press("b", &more, &mut state, 0.1).unwrap(), Some("a".to_string()));
}

#[test]
fn cycle_walks_captured_order_then_wraps() {
    let panes = strings(&["a", "b", "c", "d"]);
    let mut state = make_state(strings(&["a", "c", "b", "d"]), None);
    let mut current = "a".to_string();
    let mut seen = Vec::new();
    for k in 0..4 {
        let focused = press(&current, &panes, &mut state, 0.1 * k as f64).unwrap();
        if let Some(t) = focused {
            current = t;
        }
        seen.push(current.clone());
    }
    // the order a, c, b, d is walked from its second entry; the press after
    // the last entry wraps to the pane itself
    assert_eq!(seen, vec!["c", "b", "d", "d"]);
}

#[test]
fn record_focus_event_promotes_and_keeps_matching_cycle() {
    let mut state = make_state(
        strings(&["a", "b", "c"]),
        Some(Cycle { index: 1, target: "b".into(), last_at: 0 }),
    );
    record_event_logic("b", "pane.focused", &mut state);
    assert_eq!(state.history, vec!["b", "a", "c"]);
    assert_eq!(state.cycle.as_ref().unwrap().target, "b");

    record_event_logic("c", "pane.focused", &mut state);
    assert_eq!(state.history, vec!["c", "b", "a"]);
    assert!(state.cycle.is_none());
}

#[test]
fn press_after_two_focus_events_returns_to_the_first() {
    let panes = strings(&["a", "b", "c", "d"]);
    // a cycle that was pressed a moment ago, landing on `c`
    let mut state = make_state(
        strings(&["c", "d", "a", "b"]),
        Some(Cycle { index: 1, target: "c".into(), last_at: 10.0f64.to_bits() }),
    );
    record_event_logic("d", "pane.focused", &mut state);
    record_event_logic("b", "pane.focused", &mut state);
    assert_eq!(press("b", &panes, &mut state, 10.2), Ok(Some("d".to_string())));
    let cycle = state.cycle.as_ref().unwrap();
    assert_eq!((cycle.index, cycle.target.as_str()), (1, "d"));
}

#[test]
fn press_after_pause_restarts_from_history() {
    let panes = strings(&["a", "b", "c"]);
    let mut state = make_state(
        strings(&["c", "a", "b"]),
        Some(Cycle { index: 2, target: "c".into(), last_at: 5.0f64.to_bits() }),
    );
    assert_eq!(press("c", &panes, &mut state, 6.5), Ok(Some("a".to_string())));
    assert_eq!(state.cycle.as_ref().unwrap().index, 1);
    assert_eq!(state.history, vec!["a", "c", "b"]);
}

#[test]
fn record_close_event_removes_pane_and_cycle() {
    let mut state = make_state(
        strings(&["a", "b", "c"]),
        Some(Cycle { index: 1, target: "a".into(), last_at: 0 }),
    );
    record_event_logic("b", "pane.closed", &mut state);
    assert_eq!(state.history, vec!["a", "c"]);
    assert!(state.cycle.is_none());
    assert_eq!(state.version, 2);
}

#[test]
fn jobs_follow_event_then_action() {
    let s = |x: &str| Some(x.to_string());
    assert!(matches!(choose_job(s("pane.focused"), s("cycle-attention")), Job::RecordEvent(ref e) if e == "pane.focused"));
    assert!(matches!(choose_job(s("pane.closed"), None), Job::RecordEvent(ref e) if e == "pane.closed"));
    assert!(matches!(choose_job(s("pane.created"), s("focus-attention")), Job::FocusAttention { next_pane: false }));
    assert!(matches!(choose_job(None, s("cycle-attention")), Job::FocusAttention { next_pane: true }));
    assert!(matches!(choose_job(s(""), s("")), Job::Cycle));
    assert!(matches!(choose_job(None, s("cycle")), Job::Cycle));
    assert!(matches!(choose_job(None, None), Job::Cycle));
}
