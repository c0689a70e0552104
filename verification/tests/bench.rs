use pane_switcher::bench::{
    action_context, generate_panes, join_usizes, pane_id, parse_args, parse_number, parse_numbers, parse_strings,
    parse_usize_str, parse_values, setup_indices, ArgError, FixtureError, Invocation,
};
use pane_switcher::json::Json;

fn args(items: &[&str]) -> Vec<String> {
    items.iter().map(|s| s.to_string()).collect()
}

fn run_config(items: &[&str]) -> pane_switcher::bench::BenchConfig {
    match parse_args(&args(items), "out".to_string()) {
        Ok(Invocation::Run(c)) => c,
        Ok(Invocation::Help) => panic!("help"),
        Err(e) => panic!("{}", e.message()),
    }
}

fn error_message(items: &[&str]) -> String {
    match parse_args(&args(items), "out".to_string()) {
        Err(e) => e.message(),
        Ok(_) => panic!("accepted"),
    }
}

#[test]
fn defaults_without_arguments() {
    let c = run_config(&[]);
    assert_eq!(c.sizes, vec![5, 50, 500]);
    assert_eq!(c.actions, vec!["cycle", "focus-attention", "cycle-attention", "pane.focused", "pane.closed"]);
    assert_eq!(c.iterations, 100);
    assert_eq!(c.warmup, 5);
    assert_eq!(c.output_dir, "out");
}

#[test]
fn options_override_defaults() {
    let c = run_config(&["--sizes", "1", "+2", "--actions", "cycle", "pane.closed", "--iterations", "7", "--warmup", "0", "--output-dir", "/tmp/x"]);
    assert_eq!(c.sizes, vec![1, 2]);
    assert_eq!(c.actions, vec!["cycle", "pane.closed"]);
    assert_eq!(c.iterations, 7);
    assert_eq!(c.warmup, 0);
    assert_eq!(c.output_dir, "/tmp/x");
}

#[test]
fn help_stops_parsing() {
    assert!(matches!(parse_args(&args(&["--help", "--bogus"]), "o".into()), Ok(Invocation::Help)));
    assert!(matches!(parse_args(&args(&["--sizes", "3", "-h"]), "o".into()), Ok(Invocation::Help)));
}

#[test]
fn argument_errors() {
    assert_eq!(error_message(&["--bogus"]), "unknown argument: --bogus");
    assert_eq!(error_message(&["--sizes"]), "--sizes needs at least one value");
    assert_eq!(error_message(&["--sizes", "--warmup", "1"]), "--sizes needs at least one value");
    assert_eq!(error_message(&["--actions"]), "--actions needs at least one value");
    assert_eq!(error_message(&["--sizes", "4", "x", "y"]), "invalid sizes value: x");
    assert_eq!(error_message(&["--iterations"]), "--iterations needs a value");
    assert_eq!(error_message(&["--warmup", "-1"]), "invalid warmup value: -1");
    assert_eq!(error_message(&["--output-dir"]), "--output-dir needs a path");
    assert!(matches!(parse_args(&args(&["stray"]), "o".into()), Err(ArgError::UnknownArgument(ref a)) if a == "stray"));
}

#[test]
fn value_runs_stop_at_options() {
    let a = args(&["x", "y", "-z", "w"]);
    let mut pos = 0;
    assert_eq!(parse_values(&a, &mut pos, "v").unwrap(), vec!["x", "y"]);
    assert_eq!(pos, 2);
    let mut pos = 2;
    assert!(matches!(parse_strings(&a, &mut pos, "v"), Err(ArgError::NeedsValues(ref n)) if n == "v"));
    let n = args(&["3", "4"]);
    let mut pos = 0;
    assert_eq!(parse_numbers(&n, &mut pos, "n").unwrap(), vec![3, 4]);
    let mut pos = 1;
    assert_eq!(parse_number(&n, &mut pos, "n").unwrap(), 4);
    assert_eq!(pos, 2);
}

#[test]
fn usize_parsing_matches_std() {
    for s in ["0", "+7", "007", "18446744073709551615", "18446744073709551616", "", "+", "-1", "1 ", "１", "12a", "++1"] {
        assert_eq!(parse_usize_str(s), s.parse::<usize>().ok(), "{s:?}");
    }
}

#[test]
fn setup_plans() {
    assert_eq!(setup_indices("cycle", 4), Some(vec![0, 1, 2, 3]));
    assert_eq!(setup_indices("pane.focused", 5), Some(vec![1]));
    assert_eq!(setup_indices("pane.focused", 1), Some(vec![0]));
    assert_eq!(setup_indices("pane.closed", 5), Some(vec![0, 1, 2]));
    assert_eq!(setup_indices("pane.closed", 2), Some(vec![0, 1]));
    assert_eq!(setup_indices("focus-attention", 5), None);
}

#[test]
fn joined_numbers() {
    assert_eq!(join_usizes(&[5, 50, 500]), "5,50,500");
    assert_eq!(join_usizes(&[]), "");
    assert_eq!(join_usizes(&[0]), "0");
}

#[test]
fn fixture_panes() {
    let panes = generate_panes(6);
    assert_eq!(panes.len(), 6);
    let ids: Vec<String> = panes.iter().map(|p| pane_id(p).unwrap()).collect();
    assert_eq!(ids, vec!["pane-0000", "pane-0001", "pane-0002", "pane-0003", "pane-0004", "pane-0005"]);
    match &panes[5] {
        Json::Object(m) => {
            assert_eq!(m[0].0, "agent_status");
            assert!(matches!(&m[0].1, Json::Str(s) if s == "done"));
            assert!(matches!(&m[2].1, Json::Str(s) if s == "Pane 5"));
        }
        _ => panic!("not an object"),
    }
    let big = generate_panes(10001);
    assert_eq!(pane_id(&big[10000]).unwrap(), "pane-10000");
}

#[test]
fn action_contexts() {
    let panes = generate_panes(5);
    let (from, event) = action_context("cycle", &panes, 5).unwrap();
    assert_eq!(from.as_deref(), Some("pane-0004"));
    assert!(event.is_none());
    let (from, _) = action_context("cycle-attention", &panes, 5).unwrap();
    assert_eq!(from.as_deref(), Some("pane-0000"));
    let (from, event) = action_context("pane.closed", &panes, 5).unwrap();
    assert!(from.is_none());
    match event {
        Some(Json::Object(m)) => {
            assert_eq!(m.len(), 1);
            assert_eq!(m[0].0, "pane_id");
            assert!(matches!(&m[0].1, Json::Str(s) if s == "pane-0002"));
        }
        _ => panic!("no payload"),
    }
    assert!(matches!(action_context("nope", &panes, 5), Err(FixtureError::UnknownAction(ref a)) if a == "nope"));
    let broken = vec![Json::Null];
    assert!(matches!(action_context("pane.focused", &broken, 1), Err(FixtureError::NoPaneId)));
}
