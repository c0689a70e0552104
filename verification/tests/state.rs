use pane_switcher::state::{from_bytes, load_state, to_bytes, Cycle, DecodeError, State, CURRENT_VERSION};

fn strings(items: &[&str]) -> Vec<String> {
    items.iter().map(|s| s.to_string()).collect()
}

fn same(a: &State, b: &State) -> bool {
    a.version == b.version
        && a.history == b.history
        && match (&a.cycle, &b.cycle) {
            (None, None) => true,
            (Some(x), Some(y)) => x.index == y.index && x.target == y.target && x.last_at == y.last_at,
            _ => false,
        }
}

#[test]
fn state_round_trip() {
    let mut s = State::default();
    s.history = vec!["a".to_string(), "b".to_string()];
    s.cycle = Some(Cycle { index: 1, target: "b".to_string(), last_at: 1.0f64.to_bits() });
    let loaded = load_state(&to_bytes(&s));
    assert_eq!(loaded.history, vec!["a", "b"]);
    assert_eq!(loaded.version, 2);
    assert!(loaded.cycle.is_some());
    assert!(same(&loaded, &s));
}

#[test]
fn state_corrupt_bytes_reset_to_default() {
    let s = load_state(b"not postcard data");
    assert!(same(&s, &State::default()));
}

#[test]
fn state_version_mismatch_resets() {
    let bad = State { version: 42, history: vec!["x".to_string()], cycle: None };
    let bytes = to_bytes(&bad);
    assert!(same(&load_state(&bytes), &State::default()));
    assert!(matches!(from_bytes(&bytes), Err(DecodeError::UnsupportedVersion(42))));
}

#[test]
fn default_state_is_current_version_and_empty() {
    let s = State::default();
    assert_eq!(s.version, CURRENT_VERSION);
    assert!(s.history.is_empty());
    assert!(s.cycle.is_none());
}

#[test]
fn encoding_layout_is_exact() {
    let s = State {
        version: 2,
        history: strings(&["ab"]),
        cycle: Some(Cycle { index: 3, target: "é".to_string(), last_at: 0x0102030405060708 }),
    };
    let bytes = to_bytes(&s);
    let expected: Vec<u8> = vec![
        b'H', b'M', b'S', b'C', // magic
        2, 0, 0, 0, // version
        1, 0, 0, 0, // history length
        2, 0, 0, 0, b'a', b'b', // "ab"
        1, // cycle present
        3, 0, 0, 0, // index
        2, 0, 0, 0, 0xc3, 0xa9, // "é"
        8, 7, 6, 5, 4, 3, 2, 1, // timestamp bits
    ];
    assert_eq!(bytes, expected);
    let without_cycle = State { version: 2, history: vec![], cycle: None };
    assert_eq!(to_bytes(&without_cycle), vec![b'H', b'M', b'S', b'C', 2, 0, 0, 0, 0, 0, 0, 0, 0]);
}

#[test]
fn trailing_bytes_are_ignored() {
    let s = State { version: 2, history: strings(&["x", "yz"]), cycle: None };
    let mut bytes = to_bytes(&s);
    bytes.extend_from_slice(&[9, 9, 9]);
    assert!(same(&from_bytes(&bytes).unwrap(), &s));
}

#[test]
fn decode_errors() {
    assert!(matches!(from_bytes(b"HMSC"), Err(DecodeError::BadMagic)));
    assert!(matches!(from_bytes(b"XMSC\x02\0\0\0"), Err(DecodeError::BadMagic)));
    // header only: the history length is missing
    assert!(matches!(from_bytes(b"HMSC\x02\0\0\0"), Err(DecodeError::Truncated)));
    // one history entry announced, none present
    assert!(matches!(from_bytes(b"HMSC\x02\0\0\0\x01\0\0\0"), Err(DecodeError::Truncated)));
    // a string longer than the bytes left
    assert!(matches!(from_bytes(b"HMSC\x02\0\0\0\x01\0\0\0\x05\0\0\0ab"), Err(DecodeError::Truncated)));
    // a string that is not UTF-8
    assert!(matches!(from_bytes(b"HMSC\x02\0\0\0\x01\0\0\0\x01\0\0\0\xff\0"), Err(DecodeError::InvalidUtf8)));
    // the cycle flag is missing
    assert!(matches!(from_bytes(b"HMSC\x02\0\0\0\0\0\0\0"), Err(DecodeError::Truncated)));
    // a cycle whose timestamp is cut short
    assert!(matches!(
        from_bytes(b"HMSC\x02\0\0\0\0\0\0\0\x01\x01\0\0\0\x01\0\0\0a\0\0\0"),
        Err(DecodeError::Truncated)
    ));
}

#[test]
fn any_nonzero_cycle_flag_means_a_cycle() {
    let bytes = b"HMSC\x02\0\0\0\0\0\0\0\x07\x04\0\0\0\x01\0\0\0a\x00\x00\x00\x00\x00\x00\xf0\x3f";
    let s = from_bytes(bytes).unwrap();
    let c = s.cycle.unwrap();
    assert_eq!(c.index, 4);
    assert_eq!(c.target, "a");
    assert_eq!(f64::from_bits(c.last_at), 1.0);
}

#[test]
fn non_ascii_history_round_trips() {
    let s = State { version: 2, history: strings(&["pané", "日本", ""]), cycle: None };
    let bytes = to_bytes(&s);
    assert_eq!(&bytes[12..18], &[5, 0, 0, 0, b'p', b'a']);
    let back = from_bytes(&bytes).unwrap();
    assert_eq!(back.history, vec!["pané", "日本", ""]);
}

#[test]
fn every_strict_prefix_of_an_encoding_is_rejected() {
    let states = [
        State { version: CURRENT_VERSION, history: strings(&["a", "bé"]), cycle: None },
        State {
            version: CURRENT_VERSION,
            history: strings(&["pane-0001"]),
            cycle: Some(Cycle { index: 1, target: "pane-0001".into(), last_at: 1.5f64.to_bits() }),
        },
    ];
    for state in &states {
        let bytes = to_bytes(state);
        assert!(from_bytes(&bytes).is_ok());
        for k in 0..bytes.len() {
            let expected = if k < 8 { DecodeError::BadMagic } else { DecodeError::Truncated };
            assert_eq!(from_bytes(&bytes[..k]).err(), Some(expected), "prefix of {k} bytes");
        }
    }
}
