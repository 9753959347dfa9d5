//! Building the query IR: variable resolution, validation errors,
//! and the predicate attachment policy.
use dyntracing::builder::{build, ParsedQuery, PatternItem};
use dyntracing::errors::SemanticError;
use dyntracing::ir::{AggregationSpec, CmpOp, PredicateExpr, PropertyRef, Value};

fn node(v: &str) -> PatternItem {
    PatternItem::NodePat { var: Some(v.to_string()), labels: vec![] }
}

fn anon_node() -> PatternItem {
    PatternItem::NodePat { var: None, labels: vec![] }
}

fn edge(v: &str) -> PatternItem {
    PatternItem::RelPat { var: Some(v.to_string()), left_to_right: true }
}

fn anon_edge() -> PatternItem {
    PatternItem::RelPat { var: None, left_to_right: true }
}

fn prop(var: &str, p: &str) -> PredicateExpr {
    PredicateExpr::Prop(PropertyRef { var: var.to_string(), prop: p.to_string() })
}

fn eq_int(var: &str, p: &str, n: i64) -> PredicateExpr {
    PredicateExpr::Cmp {
        op: CmpOp::Eq,
        lhs: Box::new(prop(var, p)),
        rhs: Box::new(PredicateExpr::Lit(Value::Int(n))),
    }
}

fn two_hop(where_clause: Option<PredicateExpr>, ret: Vec<AggregationSpec>) -> ParsedQuery {
    ParsedQuery {
        pattern: vec![node("a"), edge("x"), node("b")],
        where_clause,
        ret,
    }
}

#[test]
fn build_simple_pattern() {
    let ir = build(two_hop(None, vec![AggregationSpec::Count]), "a").unwrap();
    assert_eq!(ir.nodes.len(), 2);
    assert_eq!(ir.edges.len(), 1);
    assert_eq!(ir.nodes[0].name, "a");
    assert_eq!(ir.nodes[1].name, "b");
    assert_eq!(ir.edges[0].name, "x");
    assert_eq!(ir.edges[0].src, "a");
    assert_eq!(ir.edges[0].dst, "b");
    assert_eq!(ir.root, "a");
}

#[test]
fn unknown_root_is_rejected() {
    let r = build(two_hop(None, vec![AggregationSpec::Count]), "zz");
    match r {
        Err(SemanticError::UnknownRootError { root }) => assert_eq!(root, "zz"),
        other => panic!("expected UnknownRootError, got {:?}", other),
    }
}

#[test]
fn edge_variable_can_be_root() {
    let ir = build(two_hop(None, vec![AggregationSpec::Count]), "x").unwrap();
    assert_eq!(ir.root, "x");
}

#[test]
fn disconnected_pattern_is_rejected() {
    // two disjoint one-hop paths: (a)-[x]->(b) and (c)-[y]->(d)
    let parsed = ParsedQuery {
        pattern: vec![node("a"), edge("x"), node("b"), node("c"), edge("y"), node("d")],
        where_clause: None,
        ret: vec![AggregationSpec::Count],
    };
    let r = build(parsed, "a");
    assert!(matches!(r, Err(SemanticError::DisconnectedPatternError)));
}

#[test]
fn connected_multi_path_pattern_builds() {
    // (a)-[x]->(b) and (b)-[y]->(c) share b: weakly connected
    let parsed = ParsedQuery {
        pattern: vec![node("a"), edge("x"), node("b"), node("b"), edge("y"), node("c")],
        where_clause: None,
        ret: vec![AggregationSpec::Count],
    };
    let ir = build(parsed, "c").unwrap();
    assert_eq!(ir.nodes.len(), 3);
    assert_eq!(ir.edges.len(), 2);
}

#[test]
fn anonymous_variables_get_synthesized_names() {
    let parsed = ParsedQuery {
        pattern: vec![node("a"), anon_edge(), anon_node()],
        where_clause: None,
        ret: vec![AggregationSpec::Count],
    };
    let ir = build(parsed, "a").unwrap();
    assert_eq!(ir.nodes[1].name, "_n0");
    assert_eq!(ir.edges[0].name, "_e0");
}

#[test]
fn right_to_left_edge_swaps_endpoints() {
    let parsed = ParsedQuery {
        pattern: vec![
            node("a"),
            PatternItem::RelPat { var: Some("x".to_string()), left_to_right: false },
            node("b"),
        ],
        where_clause: None,
        ret: vec![AggregationSpec::Count],
    };
    let ir = build(parsed, "a").unwrap();
    assert_eq!(ir.edges[0].src, "b");
    assert_eq!(ir.edges[0].dst, "a");
}

#[test]
fn edge_predicate_attaches_to_edge() {
    let ir = build(two_hop(Some(eq_int("x", "status", 500)), vec![AggregationSpec::Count]), "b")
        .unwrap();
    assert_eq!(ir.edges[0].predicates.len(), 1);
    assert_eq!(ir.nodes[0].predicates.len(), 0);
    assert_eq!(ir.nodes[1].predicates.len(), 0);
    assert_eq!(ir.query_predicates.len(), 0);
}

#[test]
fn node_predicate_attaches_to_node() {
    let ir = build(two_hop(Some(eq_int("b", "status", 500)), vec![AggregationSpec::Count]), "b")
        .unwrap();
    assert_eq!(ir.nodes[1].predicates.len(), 1);
    assert_eq!(ir.edges[0].predicates.len(), 0);
}

#[test]
fn two_variable_predicate_stays_at_query_level() {
    let cross = PredicateExpr::Cmp {
        op: CmpOp::Eq,
        lhs: Box::new(prop("a", "status")),
        rhs: Box::new(prop("b", "status")),
    };
    let ir = build(two_hop(Some(cross), vec![AggregationSpec::Count]), "b").unwrap();
    assert_eq!(ir.query_predicates.len(), 1);
    assert_eq!(ir.nodes[0].predicates.len(), 0);
    assert_eq!(ir.nodes[1].predicates.len(), 0);
    assert_eq!(ir.edges[0].predicates.len(), 0);
}

#[test]
fn conjuncts_attach_separately() {
    let w = PredicateExpr::And(
        Box::new(eq_int("a", "status", 200)),
        Box::new(eq_int("x", "status", 500)),
    );
    let ir = build(two_hop(Some(w), vec![AggregationSpec::Count]), "b").unwrap();
    assert_eq!(ir.nodes[0].predicates.len(), 1);
    assert_eq!(ir.edges[0].predicates.len(), 1);
}

#[test]
fn mixed_aggregations_are_rejected() {
    let r = build(
        two_hop(None, vec![AggregationSpec::HistogramByDepth, AggregationSpec::Count]),
        "a",
    );
    assert!(matches!(r, Err(SemanticError::IncompatibleAggregationError)));
}

#[test]
fn repeated_equal_aggregations_are_accepted() {
    let ir = build(two_hop(None, vec![AggregationSpec::Count, AggregationSpec::Count]), "a")
        .unwrap();
    assert!(matches!(ir.agg, AggregationSpec::Count));
}

#[test]
fn root_check_precedes_connectivity_check() {
    let parsed = ParsedQuery {
        pattern: vec![node("a"), edge("x"), node("b"), node("c"), edge("y"), node("d")],
        where_clause: None,
        ret: vec![AggregationSpec::Count],
    };
    let r = build(parsed, "zz");
    assert!(matches!(r, Err(SemanticError::UnknownRootError { .. })));
}

#[test]
fn error_messages_name_the_cause() {
    let m = SemanticError::UnknownRootError { root: "q".to_string() }.message();
    assert!(m.contains("unknown root"));
    assert!(m.contains("q"));
    let d = SemanticError::DisconnectedPatternError.message();
    assert!(d.contains("connected"));
}
