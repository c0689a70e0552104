//! End-to-end runs of the plugin's decisions: each invocation loads the
//! state from its bytes, decides, and stores the state again.

use pane_switcher::actions::{cycle_panes_logic, focus_attention, record_event_logic};
use pane_switcher::herdr::Pane;
use pane_switcher::state::{load_state, to_bytes, State};

const STATUSES: [&str; 4] = ["blocked", "done", "idle", "working"];

fn generate_panes(size: usize) -> Vec<Pane> {
    (0..size)
        .map(|i| Pane {
            pane_id: format!("pane-{i:04}"),
            agent_status: Some(STATUSES[i % STATUSES.len()].to_string()),
            title: Some(format!("Pane {i}")),
        })
        .collect()
}

fn ids(panes: &[Pane]) -> Vec<String> {
    panes.iter().map(|p| p.pane_id.clone()).collect()
}

/// A state directory: the bytes of the state file, if any.
struct StateDir(Option<Vec<u8>>);

impl StateDir {
    fn new() -> Self {
        StateDir(None)
    }

    fn with_state<R>(&mut self, f: impl FnOnce(&mut State) -> R) -> R {
        let mut state = match &self.0 {
            Some(bytes) => load_state(bytes),
            None => State::default(),
        };
        let result = f(&mut state);
        self.0 = Some(to_bytes(&state));
        result
    }
}

/// The cycle action at `now` seconds: the panes to focus.
fn run_cycle(dir: &mut StateDir, panes: &[Pane], current: &str, now: f64) -> Vec<String> {
    let ids = ids(panes);
    if ids.len() < 2 {
        return vec![];
    }
    let target = dir.with_state(|state| {
        let within = state
            .cycle
            .as_ref()
            .map(|c| (0.0..=1.0).contains(&(now - f64::from_bits(c.last_at))))
            .unwrap_or(false);
        cycle_panes_logic(current, &ids, state, now.to_bits(), within).unwrap()
    });
    target.into_iter().collect()
}

fn run_attention(panes: &[Pane], current: &str, next: bool) -> Vec<String> {
    focus_attention(next, panes, Some(current.to_string())).into_iter().collect()
}

fn run_event(dir: &mut StateDir, event: &str, pane_id: &str) {
    dir.with_state(|state| record_event_logic(pane_id, event, state));
}

#[test]
fn actions_focus_expected_panes() {
    let panes = generate_panes(5);
    let mut cycle_dir = StateDir::new();
    assert_eq!(run_cycle(&mut cycle_dir, &panes, "pane-0000", 100.0), ["pane-0001"]);
    assert_eq!(run_attention(&panes, "pane-0003", false), ["pane-0000"]);
    assert_eq!(run_attention(&panes, "pane-0000", true), ["pane-0004"]);
}

#[test]
fn events_update_state_without_focusing() {
    let mut dir = StateDir::new();
    run_event(&mut dir, "pane.focused", "pane-0002");
    run_event(&mut dir, "pane.closed", "pane-0001");
    let state = dir.with_state(|s| (s.history.clone(), s.cycle.is_none()));
    assert_eq!(state.0, vec!["pane-0002"]);
    assert!(state.1);
}

#[test]
fn repeated_cycle_continues_through_mru_order() {
    let panes = generate_panes(5);
    let mut dir = StateDir::new();
    let mut current = "pane-0000".to_string();
    let mut now = 100.0;
    for expected in ["pane-0001", "pane-0002", "pane-0003"] {
        assert_eq!(run_cycle(&mut dir, &panes, &current, now), [expected]);
        current = expected.to_string();
        now += 0.05;
    }
}

#[test]
fn cycle_resets_after_timeout() {
    let panes = generate_panes(5);
    let mut dir = StateDir::new();
    assert_eq!(run_cycle(&mut dir, &panes, "pane-0000", 100.0), ["pane-0001"]);
    assert_eq!(run_cycle(&mut dir, &panes, "pane-0001", 101.2), ["pane-0000"]);
}

#[test]
fn closed_and_disappeared_panes_are_excluded() {
    let panes = generate_panes(5);
    let mut dir = StateDir::new();
    run_event(&mut dir, "pane.closed", "pane-0001");
    let remaining: Vec<Pane> = panes.iter().enumerate().filter(|(i, _)| *i != 1).map(|(_, p)| p.clone()).collect();
    assert_eq!(run_cycle(&mut dir, &remaining, "pane-0000", 100.0), ["pane-0002"]);

    let mut disappear = StateDir::new();
    assert_eq!(run_cycle(&mut disappear, &panes, "pane-0000", 100.0), ["pane-0001"]);
    assert_eq!(run_cycle(&mut disappear, &panes[..4], "pane-0001", 100.05), ["pane-0000"]);
}

#[test]
fn fewer_than_two_panes_move_nothing() {
    let panes = generate_panes(1);
    let mut dir = StateDir::new();
    assert!(run_cycle(&mut dir, &panes, "pane-0000", 100.0).is_empty());
}
