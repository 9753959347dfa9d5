//! The reference semantics: scenario runs through the simulator and
//! the proxy replay, and their agreement.
use dyntracing::builder::{build, ParsedQuery, PatternItem};
use dyntracing::ir::{AggregationSpec, CmpOp, PredicateExpr, PropertyRef, QueryIR, Value};
use dyntracing::semantics::{proxy_replay, simulate, AggState, HopObs};

fn sem_node(v: &str) -> PatternItem {
    PatternItem::NodePat { var: Some(v.to_string()), labels: vec![] }
}

fn sem_edge(v: &str) -> PatternItem {
    PatternItem::RelPat { var: Some(v.to_string()), left_to_right: true }
}

fn sem_prop(var: &str, p: &str) -> PredicateExpr {
    PredicateExpr::Prop(PropertyRef { var: var.to_string(), prop: p.to_string() })
}

fn sem_eq_int(var: &str, p: &str, n: i64) -> PredicateExpr {
    PredicateExpr::Cmp {
        op: CmpOp::Eq,
        lhs: Box::new(sem_prop(var, p)),
        rhs: Box::new(PredicateExpr::Lit(Value::Int(n))),
    }
}

fn obs_int(name: &str, v: i64) -> HopObs {
    HopObs { attrs: vec![(name.to_string(), Value::Int(v))] }
}

/// The two-hop count query of the counting scenario: responses with
/// status 500 along a path a -> b, the predicate attached to the
/// edge.
fn count_query() -> QueryIR {
    build(
        ParsedQuery {
            pattern: vec![sem_node("a"), sem_edge("x"), sem_node("b")],
            where_clause: Some(sem_eq_int("x", "status", 500)),
            ret: vec![AggregationSpec::Count],
        },
        "b",
    )
    .unwrap()
}

#[test]
fn count_two_hop_scenario() {
    let ir = count_query();
    // The predicate attaches to the edge and is evaluated at the hop
    // of its target node, so only the second hop's status matters:
    // both traces match and the count is 2.
    let traces = vec![
        vec![obs_int("status", 200), obs_int("status", 500)],
        vec![obs_int("status", 500), obs_int("status", 500)],
    ];
    let result = simulate(&ir, &traces);
    assert_eq!(result, AggState::CountState { total: 2 });
}

#[test]
fn count_drops_failed_trace() {
    let ir = count_query();
    let traces = vec![
        vec![obs_int("status", 200), obs_int("status", 404)],
        vec![obs_int("status", 200), obs_int("status", 500)],
    ];
    let result = simulate(&ir, &traces);
    assert_eq!(result, AggState::CountState { total: 1 });
}

#[test]
fn incomplete_trace_is_not_counted() {
    let ir = count_query();
    let traces = vec![vec![obs_int("status", 200)]];
    assert_eq!(simulate(&ir, &traces), AggState::CountState { total: 0 });
}

fn depth_query() -> QueryIR {
    build(
        ParsedQuery {
            pattern: vec![
                sem_node("a"),
                sem_edge("x"),
                sem_node("b"),
                sem_edge("y"),
                sem_node("c"),
            ],
            where_clause: None,
            ret: vec![AggregationSpec::HistogramByDepth],
        },
        "c",
    )
    .unwrap()
}

#[test]
fn histogram_by_depth_scenario() {
    let ir = depth_query();
    // Observations reaching depths 1, 2 and 3 populate exactly the
    // three corresponding buckets with one count each.
    let traces = vec![
        vec![obs_int("status", 200)],
        vec![obs_int("status", 200), obs_int("status", 200)],
        vec![obs_int("status", 200), obs_int("status", 200), obs_int("status", 200)],
    ];
    let result = simulate(&ir, &traces);
    assert_eq!(result, AggState::HistogramState { buckets: vec![0, 1, 1, 1] });
}

#[test]
fn histogram_by_breadth_buckets_trace_length() {
    let ir = build(
        ParsedQuery {
            pattern: vec![sem_node("a"), sem_edge("x"), sem_node("b")],
            where_clause: None,
            ret: vec![AggregationSpec::HistogramByBreadth],
        },
        "b",
    )
    .unwrap();
    let traces = vec![
        vec![obs_int("s", 1)],
        vec![obs_int("s", 1)],
        vec![obs_int("s", 1), obs_int("s", 2), obs_int("s", 3)],
    ];
    let result = simulate(&ir, &traces);
    assert_eq!(result, AggState::HistogramState { buckets: vec![0, 2, 0, 1] });
}

#[test]
fn average_collects_root_property() {
    let ir = build(
        ParsedQuery {
            pattern: vec![sem_node("a"), sem_edge("x"), sem_node("b")],
            where_clause: None,
            ret: vec![AggregationSpec::Average(PropertyRef {
                var: "b".to_string(),
                prop: "latency".to_string(),
            })],
        },
        "b",
    )
    .unwrap();
    let traces = vec![
        vec![obs_int("latency", 10), obs_int("latency", 30)],
        vec![obs_int("latency", 10), obs_int("latency", 50)],
    ];
    // the value collected for b is the one observed at b's hop
    let result = simulate(&ir, &traces);
    assert_eq!(result, AggState::AverageState { sum: 80, count: 2 });
}

#[test]
fn query_level_predicate_evaluated_at_root() {
    let cross = PredicateExpr::Cmp {
        op: CmpOp::Eq,
        lhs: Box::new(sem_prop("a", "status")),
        rhs: Box::new(sem_prop("b", "status")),
    };
    let ir = build(
        ParsedQuery {
            pattern: vec![sem_node("a"), sem_edge("x"), sem_node("b")],
            where_clause: Some(cross),
            ret: vec![AggregationSpec::Count],
        },
        "b",
    )
    .unwrap();
    let traces = vec![
        vec![obs_int("status", 200), obs_int("status", 200)],
        vec![obs_int("status", 200), obs_int("status", 500)],
    ];
    assert_eq!(simulate(&ir, &traces), AggState::CountState { total: 1 });
}

#[test]
fn backends_agree_on_count_scenario() {
    let ir = count_query();
    let traces = vec![
        vec![obs_int("status", 200), obs_int("status", 500)],
        vec![obs_int("status", 500), obs_int("status", 500)],
        vec![obs_int("status", 200), obs_int("status", 404)],
        vec![obs_int("status", 200)],
        vec![],
    ];
    assert_eq!(simulate(&ir, &traces), proxy_replay(&ir, &traces));
}

#[test]
fn backends_agree_on_depth_scenario() {
    let ir = depth_query();
    let traces = vec![
        vec![obs_int("s", 1)],
        vec![obs_int("s", 1), obs_int("s", 2)],
        vec![obs_int("s", 1), obs_int("s", 2), obs_int("s", 3), obs_int("s", 4)],
        vec![],
    ];
    assert_eq!(simulate(&ir, &traces), proxy_replay(&ir, &traces));
}

#[test]
fn string_attribute_comparison() {
    let pred = PredicateExpr::Cmp {
        op: CmpOp::Eq,
        lhs: Box::new(sem_prop("b", "method")),
        rhs: Box::new(PredicateExpr::Lit(Value::Str("GET".to_string()))),
    };
    let ir = build(
        ParsedQuery {
            pattern: vec![sem_node("a"), sem_edge("x"), sem_node("b")],
            where_clause: Some(pred),
            ret: vec![AggregationSpec::Count],
        },
        "b",
    )
    .unwrap();
    let t_get = vec![
        HopObs { attrs: vec![("method".to_string(), Value::Str("GET".to_string()))] },
        HopObs { attrs: vec![("method".to_string(), Value::Str("GET".to_string()))] },
    ];
    let t_post = vec![
        HopObs { attrs: vec![("method".to_string(), Value::Str("GET".to_string()))] },
        HopObs { attrs: vec![("method".to_string(), Value::Str("POST".to_string()))] },
    ];
    assert_eq!(simulate(&ir, &vec![t_get, t_post]), AggState::CountState { total: 1 });
}

#[test]
fn missing_attribute_is_silent_non_match() {
    let ir = count_query();
    let traces = vec![vec![obs_int("status", 200), obs_int("other", 500)]];
    assert_eq!(simulate(&ir, &traces), AggState::CountState { total: 0 });
}
