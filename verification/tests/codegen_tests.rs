//! Code generation: mode selection, expression lowering, UDF
//! signature binding, determinism, and template rendering.
use dyntracing::builder::{build, ParsedQuery, PatternItem};
use dyntracing::codegen_common::collect_props;
use dyntracing::codegen_common::lower_expr;
use dyntracing::codegen_common::mangle;
use dyntracing::codegen_envoy;
use dyntracing::codegen_simulator;
use dyntracing::errors::SemanticError;
use dyntracing::ir::{AggregationSpec, CmpOp, PredicateExpr, PropertyRef, QueryIR, Value};
use dyntracing::render::render_output;
use dyntracing::udf::parse_udf;
use dyntracing::{parse_mode, CompilationMode};

fn cg_node(v: &str) -> PatternItem {
    PatternItem::NodePat { var: Some(v.to_string()), labels: vec![] }
}

fn cg_edge(v: &str) -> PatternItem {
    PatternItem::RelPat { var: Some(v.to_string()), left_to_right: true }
}

fn cg_prop(var: &str, p: &str) -> PredicateExpr {
    PredicateExpr::Prop(PropertyRef { var: var.to_string(), prop: p.to_string() })
}

fn cg_query(ret: Vec<AggregationSpec>) -> QueryIR {
    build(
        ParsedQuery {
            pattern: vec![cg_node("a"), cg_edge("x"), cg_node("b")],
            where_clause: Some(PredicateExpr::Cmp {
                op: CmpOp::Eq,
                lhs: Box::new(cg_prop("x", "status")),
                rhs: Box::new(PredicateExpr::Lit(Value::Int(500))),
            }),
            ret,
        },
        "b",
    )
    .unwrap()
}

#[test]
fn mode_strings_are_exact() {
    assert!(matches!(parse_mode("envoy"), Ok(CompilationMode::Envoy)));
    assert!(matches!(parse_mode("sim"), Ok(CompilationMode::Sim)));
    let e = parse_mode("bogus").unwrap_err();
    assert_eq!(e.mode, "bogus");
    assert!(e.message().contains("bogus"));
    assert!(parse_mode("").is_err());
    assert!(parse_mode("Envoy").is_err());
}

#[test]
fn lowering_is_exact() {
    let e = PredicateExpr::Cmp {
        op: CmpOp::Eq,
        lhs: Box::new(cg_prop("x", "status")),
        rhs: Box::new(PredicateExpr::Lit(Value::Int(500))),
    };
    assert_eq!(lower_expr(&e), "(get_prop(\"x\", \"status\") == 500)");
}

#[test]
fn lowering_negative_and_boolean_literals() {
    let e = PredicateExpr::And(
        Box::new(PredicateExpr::Cmp {
            op: CmpOp::Lt,
            lhs: Box::new(cg_prop("a", "delta")),
            rhs: Box::new(PredicateExpr::Lit(Value::Int(-12))),
        }),
        Box::new(PredicateExpr::Lit(Value::Bool(true))),
    );
    assert_eq!(lower_expr(&e), "((get_prop(\"a\", \"delta\") < -12) && true)");
}

#[test]
fn parse_udf_reads_declared_signature() {
    let b = parse_udf("fn my_count(a, b) { a + b }").unwrap();
    assert_eq!(b.name, "my_count");
    assert_eq!(b.arity, 2);
    assert_eq!(b.body, "fn my_count(a, b) { a + b }");
    let z = parse_udf("fn zero() { 0 }").unwrap();
    assert_eq!(z.arity, 0);
    assert!(parse_udf("not a function").is_none());
    assert!(parse_udf("fn (a)").is_none());
}

#[test]
fn udf_arity_mismatch_is_rejected_before_codegen() {
    // declared with two parameters, invoked in the aggregation clause
    // with one argument
    let ir = cg_query(vec![AggregationSpec::CustomUdf {
        name: "avg_latency".to_string(),
        args: vec![PropertyRef { var: "b".to_string(), prop: "latency".to_string() }],
    }]);
    let udfs = vec!["fn avg_latency(a, b) { 0 }".to_string()];
    let r = codegen_envoy::generate_code_blocks(&ir, &udfs, false);
    assert!(matches!(r, Err(SemanticError::UdfSignatureMismatchError { .. })));
    let r2 = codegen_simulator::generate_code_blocks(&ir, &udfs);
    assert!(matches!(r2, Err(SemanticError::UdfSignatureMismatchError { .. })));
}

#[test]
fn udf_matching_signature_is_accepted() {
    let ir = cg_query(vec![AggregationSpec::CustomUdf {
        name: "avg_latency".to_string(),
        args: vec![PropertyRef { var: "b".to_string(), prop: "latency".to_string() }],
    }]);
    let udfs = vec!["fn avg_latency(a) { 0 }".to_string()];
    let c = codegen_envoy::generate_code_blocks(&ir, &udfs, false).unwrap();
    assert!(c.filter.contains("avg_latency(get_prop(\"b\", \"latency\"))"));
    assert!(c.filter.contains("fn avg_latency(a) { 0 }"));
}

#[test]
fn unknown_udf_name_is_rejected() {
    let ir = cg_query(vec![AggregationSpec::CustomUdf {
        name: "missing".to_string(),
        args: vec![],
    }]);
    let r = codegen_envoy::generate_code_blocks(&ir, &vec![], false);
    assert!(matches!(r, Err(SemanticError::UdfSignatureMismatchError { .. })));
}

#[test]
fn compilation_is_idempotent() {
    let udfs = vec!["fn f(a) { a }".to_string()];
    let ir1 = cg_query(vec![AggregationSpec::Count]);
    let ir2 = cg_query(vec![AggregationSpec::Count]);
    let c1 = codegen_envoy::generate_code_blocks(&ir1, &udfs, true).unwrap();
    let c2 = codegen_envoy::generate_code_blocks(&ir2, &udfs, true).unwrap();
    assert_eq!(c1.filter, c2.filter);
    assert_eq!(c1.aggregation.unwrap(), c2.aggregation.unwrap());
    let s1 = codegen_simulator::generate_code_blocks(&ir1, &udfs).unwrap();
    let s2 = codegen_simulator::generate_code_blocks(&ir2, &udfs).unwrap();
    assert_eq!(s1.harness, s2.harness);
    assert_eq!(s1.aggregation, s2.aggregation);
}

#[test]
fn distributed_mode_emits_two_bodies() {
    let ir = cg_query(vec![AggregationSpec::Count]);
    let c = codegen_envoy::generate_code_blocks(&ir, &vec![], true).unwrap();
    assert!(c.filter.contains("serialize_and_forward_accumulator"));
    let agg = c.aggregation.unwrap();
    assert!(agg.contains("merge_arriving_accumulator"));
    assert!(agg.contains("count += 1"));
}

#[test]
fn root_only_mode_emits_one_body() {
    let ir = cg_query(vec![AggregationSpec::Count]);
    let c = codegen_envoy::generate_code_blocks(&ir, &vec![], false).unwrap();
    assert!(c.aggregation.is_none());
    assert!(c.filter.contains("deliver_to_local_root"));
    assert!(c.filter.contains("count += 1"));
}

#[test]
fn simulator_emits_harness_and_aggregation() {
    let ir = cg_query(vec![AggregationSpec::Count]);
    let c = codegen_simulator::generate_code_blocks(&ir, &vec![]).unwrap();
    assert!(c.harness.contains("drive_hops_sequentially"));
    assert!(c.harness.contains("(get_prop(\"x\", \"status\") == 500)"));
    assert!(c.aggregation.contains("count += 1"));
    let fields = c.fields();
    assert_eq!(fields[0].0, "harness");
    assert_eq!(fields[1].0, "aggregation");
}

#[test]
fn generated_sections_name_pattern_elements() {
    let ir = cg_query(vec![AggregationSpec::Count]);
    let c = codegen_envoy::generate_code_blocks(&ir, &vec![], false).unwrap();
    assert!(c.filter.contains("// element 0: a"));
    assert!(c.filter.contains("// element 1: b"));
}

#[test]
fn mangling_is_deterministic_and_distinct() {
    assert_eq!(mangle("node_var_", 0), "node_var_0");
    assert_eq!(mangle("node_var_", 42), "node_var_42");
    assert_eq!(mangle("node_var_", 7), mangle("node_var_", 7));
    assert_ne!(mangle("node_var_", 1), mangle("node_var_", 10));
}

#[test]
fn collected_accesses_cover_the_expression() {
    let e = PredicateExpr::And(
        Box::new(cg_prop("a", "status")),
        Box::new(PredicateExpr::Cmp {
            op: CmpOp::Lt,
            lhs: Box::new(cg_prop("b", "latency")),
            rhs: Box::new(PredicateExpr::Lit(Value::Int(9))),
        }),
    );
    let mut acc: Vec<(String, String)> = Vec::new();
    collect_props(&e, &mut acc);
    assert_eq!(
        acc,
        vec![
            ("a".to_string(), "status".to_string()),
            ("b".to_string(), "latency".to_string()),
        ]
    );
}

#[test]
fn rendering_substitutes_fields() {
    let fields = vec![("filter".to_string(), "BODY".to_string())];
    let out = render_output("before {{filter}} after", &fields).unwrap();
    assert_eq!(out, "before BODY after");
}

#[test]
fn rendering_rejects_bad_template() {
    let fields = vec![("filter".to_string(), "BODY".to_string())];
    let r = render_output("{{#if}} broken", &fields);
    assert!(r.is_err());
}

#[test]
fn rendering_refuses_partial_constructs() {
    // the engine has no include-depth limit, so every partial or
    // decorator opening is refused before the call
    let fields = vec![("x".to_string(), "v".to_string())];
    assert!(render_output("{{> part}}", &fields).is_err());
    assert!(render_output("a {{#> blockpart}}b{{/blockpart}}", &fields).is_err());
    assert!(render_output("{{~> part}}", &fields).is_err());
    assert!(render_output("{{#*inline \"p\"}}{{> p}}{{/inline}}{{> p}}", &fields).is_err());
    assert!(render_output("{{*decorator}}", &fields).is_err());
    // ordinary substitution, blocks and `>` outside braces still pass
    assert_eq!(render_output("a -> {{x}}", &fields).unwrap(), "a -> v");
}

#[test]
fn label_constraints_appear_in_generated_guards() {
    let ir = build(
        ParsedQuery {
            pattern: vec![
                PatternItem::NodePat {
                    var: Some("a".to_string()),
                    labels: vec!["frontend".to_string()],
                },
                cg_edge("x"),
                cg_node("b"),
            ],
            where_clause: None,
            ret: vec![AggregationSpec::Count],
        },
        "b",
    )
    .unwrap();
    let c = codegen_envoy::generate_code_blocks(&ir, &vec![], false).unwrap();
    assert!(c.filter.contains(" && has_node_label(\"frontend\")"));
}
