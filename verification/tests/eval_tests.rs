//! Predicate evaluation: operators, type mismatches, and overflow as
//! a silent non-match.
use dyntracing::builder::{build, ParsedQuery, PatternItem};
use dyntracing::ir::{AggregationSpec, ArithOp, CmpOp, PredicateExpr, PropertyRef, QueryIR, Value};
use dyntracing::semantics::{simulate, AggState, HopObs};

fn ev_node(v: &str) -> PatternItem {
    PatternItem::NodePat { var: Some(v.to_string()), labels: vec![] }
}

fn ev_edge(v: &str) -> PatternItem {
    PatternItem::RelPat { var: Some(v.to_string()), left_to_right: true }
}

fn ev_prop(var: &str, p: &str) -> PredicateExpr {
    PredicateExpr::Prop(PropertyRef { var: var.to_string(), prop: p.to_string() })
}

fn count_query_with(pred: PredicateExpr) -> QueryIR {
    build(
        ParsedQuery {
            pattern: vec![ev_node("a"), ev_edge("x"), ev_node("b")],
            where_clause: Some(pred),
            ret: vec![AggregationSpec::Count],
        },
        "b",
    )
    .unwrap()
}

fn trace_b(attrs: Vec<(&str, i64)>) -> Vec<HopObs> {
    vec![
        HopObs { attrs: vec![] },
        HopObs {
            attrs: attrs
                .into_iter()
                .map(|(n, v)| (n.to_string(), Value::Int(v)))
                .collect(),
        },
    ]
}

#[test]
fn order_comparison_on_integers() {
    let ir = count_query_with(PredicateExpr::Cmp {
        op: CmpOp::Lt,
        lhs: Box::new(ev_prop("b", "status")),
        rhs: Box::new(PredicateExpr::Lit(Value::Int(300))),
    });
    let traces = vec![trace_b(vec![("status", 200)]), trace_b(vec![("status", 500)])];
    assert_eq!(simulate(&ir, &traces), AggState::CountState { total: 1 });
}

#[test]
fn negation_flips_a_match() {
    let ir = count_query_with(PredicateExpr::Not(Box::new(PredicateExpr::Cmp {
        op: CmpOp::Eq,
        lhs: Box::new(ev_prop("b", "status")),
        rhs: Box::new(PredicateExpr::Lit(Value::Int(500))),
    })));
    let traces = vec![trace_b(vec![("status", 200)]), trace_b(vec![("status", 500)])];
    assert_eq!(simulate(&ir, &traces), AggState::CountState { total: 1 });
}

#[test]
fn disjunction_of_statuses() {
    let ir = count_query_with(PredicateExpr::Or(
        Box::new(PredicateExpr::Cmp {
            op: CmpOp::Eq,
            lhs: Box::new(ev_prop("b", "status")),
            rhs: Box::new(PredicateExpr::Lit(Value::Int(500))),
        }),
        Box::new(PredicateExpr::Cmp {
            op: CmpOp::Eq,
            lhs: Box::new(ev_prop("b", "status")),
            rhs: Box::new(PredicateExpr::Lit(Value::Int(503))),
        }),
    ));
    let traces = vec![
        trace_b(vec![("status", 500)]),
        trace_b(vec![("status", 503)]),
        trace_b(vec![("status", 200)]),
    ];
    assert_eq!(simulate(&ir, &traces), AggState::CountState { total: 2 });
}

#[test]
fn arithmetic_in_a_predicate() {
    // b.read + b.write == 10
    let ir = count_query_with(PredicateExpr::Cmp {
        op: CmpOp::Eq,
        lhs: Box::new(PredicateExpr::Arith {
            op: ArithOp::Add,
            lhs: Box::new(ev_prop("b", "read")),
            rhs: Box::new(ev_prop("b", "write")),
        }),
        rhs: Box::new(PredicateExpr::Lit(Value::Int(10))),
    });
    let traces = vec![
        trace_b(vec![("read", 4), ("write", 6)]),
        trace_b(vec![("read", 4), ("write", 7)]),
    ];
    assert_eq!(simulate(&ir, &traces), AggState::CountState { total: 1 });
}

#[test]
fn arithmetic_overflow_is_silent_non_match() {
    let ir = count_query_with(PredicateExpr::Cmp {
        op: CmpOp::Ge,
        lhs: Box::new(PredicateExpr::Arith {
            op: ArithOp::Add,
            lhs: Box::new(ev_prop("b", "big")),
            rhs: Box::new(ev_prop("b", "big")),
        }),
        rhs: Box::new(PredicateExpr::Lit(Value::Int(0))),
    });
    let traces = vec![trace_b(vec![("big", i64::MAX)]), trace_b(vec![("big", 1)])];
    assert_eq!(simulate(&ir, &traces), AggState::CountState { total: 1 });
}

#[test]
fn type_mismatch_is_silent_non_match() {
    // an order comparison on a string value never matches
    let ir = count_query_with(PredicateExpr::Cmp {
        op: CmpOp::Lt,
        lhs: Box::new(ev_prop("b", "method")),
        rhs: Box::new(PredicateExpr::Lit(Value::Int(5))),
    });
    let traces = vec![vec![
        HopObs { attrs: vec![] },
        HopObs { attrs: vec![("method".to_string(), Value::Str("GET".to_string()))] },
    ]];
    assert_eq!(simulate(&ir, &traces), AggState::CountState { total: 0 });
}

#[test]
fn udf_predicate_is_not_locally_evaluable() {
    // a predicate that applies a UDF cannot be decided at a hop and
    // drops the partial match
    let ir = count_query_with(PredicateExpr::Udf {
        name: "f".to_string(),
        args: vec![PropertyRef { var: "b".to_string(), prop: "status".to_string() }],
    });
    let traces = vec![trace_b(vec![("status", 500)])];
    assert_eq!(simulate(&ir, &traces), AggState::CountState { total: 0 });
}

#[test]
fn label_constraints_gate_the_hop() {
    // node b must carry label `backend`, observed as a `label`
    // attribute of its hop
    let ir = build(
        ParsedQuery {
            pattern: vec![
                ev_node("a"),
                ev_edge("x"),
                PatternItem::NodePat {
                    var: Some("b".to_string()),
                    labels: vec!["backend".to_string()],
                },
            ],
            where_clause: None,
            ret: vec![AggregationSpec::Count],
        },
        "b",
    )
    .unwrap();
    let labelled = vec![
        HopObs { attrs: vec![] },
        HopObs { attrs: vec![("label".to_string(), Value::Str("backend".to_string()))] },
    ];
    let unlabelled = vec![HopObs { attrs: vec![] }, HopObs { attrs: vec![] }];
    let wrong = vec![
        HopObs { attrs: vec![] },
        HopObs { attrs: vec![("label".to_string(), Value::Str("frontend".to_string()))] },
    ];
    assert_eq!(
        simulate(&ir, &vec![labelled, unlabelled, wrong]),
        AggState::CountState { total: 1 }
    );
}
