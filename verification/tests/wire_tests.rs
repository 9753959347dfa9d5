//! The accumulator's wire form: round trip and rejection.
use dyntracing::ir::Value;
use dyntracing::wire::{decode, encode, WireAccumulator, WireEntry};

fn sample_bindings() -> Vec<(String, String, Value)> {
    vec![
        ("a".to_string(), "status".to_string(), Value::Int(500)),
        ("a".to_string(), "method".to_string(), Value::Str("GET".to_string())),
        ("b".to_string(), "ok".to_string(), Value::Bool(true)),
    ]
}

#[test]
fn wire_round_trip_preserves_accumulator() {
    let w = encode(2, &sample_bindings());
    assert_eq!(w.cursor, 2);
    assert_eq!(w.entries.len(), 3);
    let (cursor, col) = decode(&w).unwrap();
    assert_eq!(cursor, 2);
    assert_eq!(col.len(), 3);
    assert_eq!(col[0].0, "a");
    assert_eq!(col[0].1, "status");
    assert!(matches!(col[0].2, Value::Int(500)));
    assert!(matches!(&col[1].2, Value::Str(s) if s == "GET"));
    assert!(matches!(col[2].2, Value::Bool(true)));
}

#[test]
fn wire_unknown_tag_is_rejected() {
    let w = WireAccumulator {
        cursor: 1,
        entries: vec![WireEntry {
            var: "a".to_string(),
            prop: "x".to_string(),
            tag: 9,
            int_val: 0,
            str_val: String::new(),
            bool_val: false,
        }],
    };
    assert!(decode(&w).is_none());
}

#[test]
fn wire_empty_accumulator_round_trips() {
    let w = encode(0, &vec![]);
    let (cursor, col) = decode(&w).unwrap();
    assert_eq!(cursor, 0);
    assert!(col.is_empty());
}
