//! Backend-agnostic lowering helpers: variable mangling, predicate
//! expression lowering, and the match/aggregation code sections both
//! backends share.
//!
//! This layer is the single point where the meaning of a query is
//! turned into code, so the two backends can only differ in how they
//! run it, not in what it computes.  Every emission is a pure
//! function of the IR: compiling the same query twice yields the same
//! text.
use crate::ir::PatternEdge;
use crate::ir::PredicateExpr;
use crate::ir::PropertyRef;
use crate::ir::QueryIR;
use crate::ir::Value;
use crate::ir::AggregationSpec;
use crate::ir::CmpOp;
use crate::ir::ArithOp;
use crate::strutil::clone_string;
use crate::strutil::dec_rep;
use crate::strutil::u64_to_dec;
use vstd::prelude::*;

verus! {

/// A mangled identifier: a fixed prefix and the element's index.
/// Deterministic, and collision-free by [`lemma_mangled_injective`].
pub open spec fn mangled(prefix: Seq<char>, k: int) -> Seq<char> {
    prefix + dec_rep(k)
}

/// Renders a mangled identifier.
pub fn mangle(prefix: &str, k: u64) -> (r: String)
    ensures
        r@ == mangled(prefix@, k as int),
{
    let mut s = String::from_str(prefix);
    let d = u64_to_dec(k);
    s.append(d.as_str());
    s
}

/// Mangling is collision-free: distinct indices under one prefix
/// give distinct identifiers.
pub proof fn lemma_mangled_injective(prefix: Seq<char>, i: int, j: int)
    requires
        i >= 0,
        j >= 0,
        i != j,
    ensures
        mangled(prefix, i) != mangled(prefix, j),
{
    crate::strutil::lemma_dec_rep_injective(i, j);
    if mangled(prefix, i) == mangled(prefix, j) {
        let a = dec_rep(i);
        let b = dec_rep(j);
        assert((prefix + a).len() == (prefix + b).len());
        assert(a.len() == b.len());
        assert forall|t: int| 0 <= t < a.len() implies a[t] == b[t] by {
            assert((prefix + a)[prefix.len() + t] == a[t]);
            assert((prefix + b)[prefix.len() + t] == b[t]);
        }
        assert(a =~= b);
    }
}

/// The code for an integer literal.
pub open spec fn int_code(n: int) -> Seq<char> {
    if n >= 0 {
        dec_rep(n)
    } else {
        seq!['-'] + dec_rep(-n)
    }
}

/// Renders an integer literal.
pub fn int_to_code(n: i64) -> (r: String)
    ensures
        r@ == int_code(n as int),
{
    if n >= 0 {
        u64_to_dec(n as u64)
    } else {
        let t: i64 = -(n + 1);
        let m: u64 = (t as u64) + 1;
        let mut s = String::from_str("-");
        let d = u64_to_dec(m);
        s.append(d.as_str());
        proof {
            reveal_strlit("-");
            assert(m as int == -(n as int));
            assert(s@ =~= int_code(n as int));
        }
        s
    }
}

/// The code for a literal value.
pub open spec fn value_code(v: Value) -> Seq<char> {
    match v {
        Value::Int(x) => int_code(x as int),
        Value::Str(s) => "\""@ + s@ + "\""@,
        Value::Bool(b) => if b {
            "true"@
        } else {
            "false"@
        },
    }
}

/// The code for a property access.
pub open spec fn prop_code(p: PropertyRef) -> Seq<char> {
    "get_prop(\""@ + p.var@ + "\", \""@ + p.prop@ + "\")"@
}

/// The source token of a comparison operator.
pub open spec fn cmp_tok(op: CmpOp) -> Seq<char> {
    match op {
        CmpOp::Eq => " == "@,
        CmpOp::Ne => " != "@,
        CmpOp::Lt => " < "@,
        CmpOp::Le => " <= "@,
        CmpOp::Gt => " > "@,
        CmpOp::Ge => " >= "@,
    }
}

/// The source token of an arithmetic operator.
pub open spec fn arith_tok(op: ArithOp) -> Seq<char> {
    match op {
        ArithOp::Add => " + "@,
        ArithOp::Sub => " - "@,
        ArithOp::Mul => " * "@,
    }
}

/// The code of the first `k` arguments of a UDF application.
pub open spec fn args_code(args: Seq<PropertyRef>, k: int) -> Seq<char>
    decreases k,
{
    if k <= 0 {
        Seq::empty()
    } else if k == 1 {
        prop_code(args[0])
    } else {
        args_code(args, k - 1) + ", "@ + prop_code(args[k - 1])
    }
}

/// The target-neutral expression code of a predicate.
pub open spec fn expr_code(e: PredicateExpr) -> Seq<char>
    decreases e,
{
    match e {
        PredicateExpr::Lit(v) => value_code(v),
        PredicateExpr::Prop(p) => prop_code(p),
        PredicateExpr::Cmp { op, lhs, rhs } => "("@ + expr_code(*lhs) + cmp_tok(op) + expr_code(
            *rhs,
        ) + ")"@,
        PredicateExpr::Arith { op, lhs, rhs } => "("@ + expr_code(*lhs) + arith_tok(op)
            + expr_code(*rhs) + ")"@,
        PredicateExpr::And(l, r) => "("@ + expr_code(*l) + " && "@ + expr_code(*r) + ")"@,
        PredicateExpr::Or(l, r) => "("@ + expr_code(*l) + " || "@ + expr_code(*r) + ")"@,
        PredicateExpr::Not(x) => "(!"@ + expr_code(*x) + ")"@,
        PredicateExpr::Udf { name, args } => name@ + "("@ + args_code(args@, args@.len() as int)
            + ")"@,
    }
}

/// Renders a property access.
fn render_prop(p: &PropertyRef) -> (r: String)
    ensures
        r@ == prop_code(*p),
{
    let mut s = String::from_str("get_prop(\"");
    s.append(p.var.as_str());
    s.append("\", \"");
    s.append(p.prop.as_str());
    s.append("\")");
    proof {
        assert(s@ =~= prop_code(*p));
    }
    s
}

/// Lowers a predicate expression to its target-neutral code.
pub fn lower_expr(e: &PredicateExpr) -> (r: String)
    ensures
        r@ == expr_code(*e),
    decreases *e,
{
    match e {
        PredicateExpr::Lit(v) => {
            match v {
                Value::Int(x) => int_to_code(*x),
                Value::Str(st) => {
                    let mut s = String::from_str("\"");
                    s.append(st.as_str());
                    s.append("\"");
                    proof {
                        assert(s@ =~= value_code(Value::Str(*st)));
                    }
                    s
                }
                Value::Bool(b) => {
                    if *b {
                        String::from_str("true")
                    } else {
                        String::from_str("false")
                    }
                }
            }
        }
        PredicateExpr::Prop(p) => render_prop(p),
        PredicateExpr::Cmp { op, lhs, rhs } => {
            let mut s = String::from_str("(");
            let a = lower_expr(lhs);
            s.append(a.as_str());
            let tok = match op {
                CmpOp::Eq => " == ",
                CmpOp::Ne => " != ",
                CmpOp::Lt => " < ",
                CmpOp::Le => " <= ",
                CmpOp::Gt => " > ",
                CmpOp::Ge => " >= ",
            };
            s.append(tok);
            let b = lower_expr(rhs);
            s.append(b.as_str());
            s.append(")");
            proof {
                assert(s@ =~= expr_code(*e));
            }
            s
        }
        PredicateExpr::Arith { op, lhs, rhs } => {
            let mut s = String::from_str("(");
            let a = lower_expr(lhs);
            s.append(a.as_str());
            let tok = match op {
                ArithOp::Add => " + ",
                ArithOp::Sub => " - ",
                ArithOp::Mul => " * ",
            };
            s.append(tok);
            let b = lower_expr(rhs);
            s.append(b.as_str());
            s.append(")");
            proof {
                assert(s@ =~= expr_code(*e));
            }
            s
        }
        PredicateExpr::And(l, r) => {
            let mut s = String::from_str("(");
            let a = lower_expr(l);
            s.append(a.as_str());
            s.append(" && ");
            let b = lower_expr(r);
            s.append(b.as_str());
            s.append(")");
            proof {
                assert(s@ =~= expr_code(*e));
            }
            s
        }
        PredicateExpr::Or(l, r) => {
            let mut s = String::from_str("(");
            let a = lower_expr(l);
            s.append(a.as_str());
            s.append(" || ");
            let b = lower_expr(r);
            s.append(b.as_str());
            s.append(")");
            proof {
                assert(s@ =~= expr_code(*e));
            }
            s
        }
        PredicateExpr::Not(x) => {
            let mut s = String::from_str("(!");
            let a = lower_expr(x);
            s.append(a.as_str());
            s.append(")");
            proof {
                assert(s@ =~= expr_code(*e));
            }
            s
        }
        PredicateExpr::Udf { name, args } => {
            let mut s = clone_string(name);
            s.append("(");
            let mut k: usize = 0;
            while k < args.len()
                invariant
                    k <= args@.len(),
                    s@ == name@ + "("@ + args_code(args@, k as int),
                decreases args@.len() - k,
            {
                if k > 0 {
                    s.append(", ");
                }
                let pc = render_prop(&args[k]);
                s.append(pc.as_str());
                proof {
                    if k == 0 {
                        assert(s@ =~= name@ + "("@ + args_code(args@, 1));
                    } else {
                        assert(s@ =~= name@ + "("@ + args_code(args@, k as int + 1));
                    }
                }
                k = k + 1;
            }
            s.append(")");
            proof {
                assert(s@ =~= expr_code(*e));
            }
            s
        }
    }
}

/// The accesses of the first `k` property references.
pub open spec fn ref_props(args: Seq<PropertyRef>, k: int) -> Seq<(Seq<char>, Seq<char>)>
    decreases k,
{
    if k <= 0 {
        Seq::empty()
    } else {
        ref_props(args, k - 1).push((args[k - 1].var@, args[k - 1].prop@))
    }
}

/// The property accesses a predicate requires, in source order.
pub open spec fn prop_refs(e: PredicateExpr) -> Seq<(Seq<char>, Seq<char>)>
    decreases e,
{
    match e {
        PredicateExpr::Prop(p) => seq![(p.var@, p.prop@)],
        PredicateExpr::Cmp { lhs, rhs, .. } => prop_refs(*lhs) + prop_refs(*rhs),
        PredicateExpr::Arith { lhs, rhs, .. } => prop_refs(*lhs) + prop_refs(*rhs),
        PredicateExpr::And(l, r) => prop_refs(*l) + prop_refs(*r),
        PredicateExpr::Or(l, r) => prop_refs(*l) + prop_refs(*r),
        PredicateExpr::Not(x) => prop_refs(*x),
        PredicateExpr::Udf { args, .. } => ref_props(args@, args@.len() as int),
        _ => Seq::empty(),
    }
}

/// The views of collected property accesses.
pub open spec fn refs_view(v: Seq<(String, String)>) -> Seq<(Seq<char>, Seq<char>)> {
    v.map_values(|p: (String, String)| (p.0@, p.1@))
}

/// Collects the property accesses a predicate requires, so a backend
/// can emit the attribute fetches the lowered code relies on.
pub fn collect_props(e: &PredicateExpr, acc: &mut Vec<(String, String)>)
    ensures
        refs_view(final(acc)@) == refs_view(old(acc)@) + prop_refs(*e),
    decreases *e,
{
    match e {
        PredicateExpr::Prop(p) => {
            acc.push((clone_string(&p.var), clone_string(&p.prop)));
            proof {
                assert(refs_view(acc@) =~= refs_view(old(acc)@) + prop_refs(*e));
            }
        }
        PredicateExpr::Cmp { lhs, rhs, .. } => {
            collect_props(lhs, acc);
            collect_props(rhs, acc);
            proof {
                assert(refs_view(old(acc)@) + (prop_refs(**lhs) + prop_refs(**rhs)) =~= (refs_view(
                    old(acc)@,
                ) + prop_refs(**lhs)) + prop_refs(**rhs));
            }
        }
        PredicateExpr::Arith { lhs, rhs, .. } => {
            collect_props(lhs, acc);
            collect_props(rhs, acc);
            proof {
                assert(refs_view(old(acc)@) + (prop_refs(**lhs) + prop_refs(**rhs)) =~= (refs_view(
                    old(acc)@,
                ) + prop_refs(**lhs)) + prop_refs(**rhs));
            }
        }
        PredicateExpr::And(l, r) => {
            collect_props(l, acc);
            collect_props(r, acc);
            proof {
                assert(refs_view(old(acc)@) + (prop_refs(**l) + prop_refs(**r)) =~= (refs_view(
                    old(acc)@,
                ) + prop_refs(**l)) + prop_refs(**r));
            }
        }
        PredicateExpr::Or(l, r) => {
            collect_props(l, acc);
            collect_props(r, acc);
            proof {
                assert(refs_view(old(acc)@) + (prop_refs(**l) + prop_refs(**r)) =~= (refs_view(
                    old(acc)@,
                ) + prop_refs(**l)) + prop_refs(**r));
            }
        }
        PredicateExpr::Not(x) => {
            collect_props(x, acc);
        }
        PredicateExpr::Udf { args, .. } => {
            let mut j: usize = 0;
            while j < args.len()
                invariant
                    j <= args@.len(),
                    refs_view(acc@) == refs_view(old(acc)@) + ref_props(args@, j as int),
                decreases args@.len() - j,
            {
                let ghost prev = acc@;
                acc.push((clone_string(&args[j].var), clone_string(&args[j].prop)));
                proof {
                    assert(ref_props(args@, j as int + 1) == ref_props(args@, j as int).push(
                        (args@[j as int].var@, args@[j as int].prop@),
                    ));
                    assert(refs_view(acc@) =~= refs_view(prev).push(
                        (args@[j as int].var@, args@[j as int].prop@),
                    ));
                    assert(refs_view(acc@) =~= refs_view(old(acc)@) + ref_props(
                        args@,
                        j as int + 1,
                    ));
                }
                j = j + 1;
            }
        }
        _ => {
            proof {
                assert(refs_view(acc@) =~= refs_view(acc@) + Seq::<(Seq<char>, Seq<char>)>::empty());
            }
        }
    }
}

/// The guard code of a predicate list: a conjunction starting `true`.
pub open spec fn preds_code(preds: Seq<PredicateExpr>, k: int) -> Seq<char>
    decreases k,
{
    if k <= 0 {
        "true"@
    } else {
        preds_code(preds, k - 1) + " && "@ + expr_code(preds[k - 1])
    }
}

/// Renders the guard of a predicate list.
pub fn render_preds(preds: &Vec<PredicateExpr>) -> (r: String)
    ensures
        r@ == preds_code(preds@, preds@.len() as int),
{
    let mut s = String::from_str("true");
    let mut k: usize = 0;
    while k < preds.len()
        invariant
            k <= preds@.len(),
            s@ == preds_code(preds@, k as int),
        decreases preds@.len() - k,
    {
        s.append(" && ");
        let c = lower_expr(&preds[k]);
        s.append(c.as_str());
        k = k + 1;
    }
    s
}

/// The guard contributed by the edges arriving at node `name`:
/// their predicates, evaluated at this hop.
pub open spec fn edges_guard(edges: Seq<PatternEdge>, name: Seq<char>, k: int) -> Seq<char>
    decreases k,
{
    if k <= 0 {
        Seq::empty()
    } else if edges[k - 1].dst@ == name {
        edges_guard(edges, name, k - 1) + " && "@ + preds_code(
            edges[k - 1].predicates@,
            edges[k - 1].predicates@.len() as int,
        )
    } else {
        edges_guard(edges, name, k - 1)
    }
}

/// Renders the incoming-edge guard for a node.
pub fn render_edges_guard(edges: &Vec<PatternEdge>, name: &str) -> (r: String)
    ensures
        r@ == edges_guard(edges@, name@, edges@.len() as int),
{
    let mut s = String::new();
    let mut k: usize = 0;
    while k < edges.len()
        invariant
            k <= edges@.len(),
            s@ == edges_guard(edges@, name@, k as int),
        decreases edges@.len() - k,
    {
        if crate::strutil::str_eq(edges[k].dst.as_str(), name) {
            s.append(" && ");
            let g = render_preds(&edges[k].predicates);
            s.append(g.as_str());
        }
        k = k + 1;
    }
    s
}

/// The guard contributed by a node's label constraints.
pub open spec fn labels_guard(labels: Seq<String>, k: int) -> Seq<char>
    decreases k,
{
    if k <= 0 {
        Seq::empty()
    } else {
        labels_guard(labels, k - 1) + " && has_node_label(\""@ + labels[k - 1]@ + "\")"@
    }
}

/// Renders the label guard of a node.
pub fn render_labels_guard(labels: &Vec<String>) -> (r: String)
    ensures
        r@ == labels_guard(labels@, labels@.len() as int),
{
    let mut s = String::new();
    let mut k: usize = 0;
    while k < labels.len()
        invariant
            k <= labels@.len(),
            s@ == labels_guard(labels@, k as int),
        decreases labels@.len() - k,
    {
        s.append(" && has_node_label(\"");
        s.append(labels[k].as_str());
        s.append("\")");
        proof {
            assert(s@ =~= labels_guard(labels@, k as int + 1));
        }
        k = k + 1;
    }
    s
}

/// One per-hop match section: the guard for pattern element `i` — its
/// predicates, its label constraints, and the predicates of arriving
/// edges — and the advance/drop behaviour of the protocol.
pub open spec fn hop_section(ir: QueryIR, i: int) -> Seq<char> {
    "// element "@ + dec_rep(i) + ": "@ + ir.nodes@[i].name@ + "\n"@ + "if "@ + preds_code(
        ir.nodes@[i].predicates@,
        ir.nodes@[i].predicates@.len() as int,
    ) + labels_guard(ir.nodes@[i].labels@, ir.nodes@[i].labels@.len() as int) + edges_guard(
        ir.edges@,
        ir.nodes@[i].name@,
        ir.edges@.len() as int,
    ) + " { advance_cursor_and_collect(); } else { drop_partial_match(); }\n"@
}

/// The match sections of the first `k` pattern elements.
pub open spec fn match_sections(ir: QueryIR, k: int) -> Seq<char>
    decreases k,
{
    if k <= 0 {
        Seq::empty()
    } else {
        match_sections(ir, k - 1) + hop_section(ir, k - 1)
    }
}

/// Renders the per-hop match sections both backends share.
pub fn render_match_sections(ir: &QueryIR) -> (r: String)
    ensures
        r@ == match_sections(*ir, ir.nodes@.len() as int),
{
    let mut s = String::new();
    let mut i: usize = 0;
    while i < ir.nodes.len()
        invariant
            i <= ir.nodes@.len(),
            s@ == match_sections(*ir, i as int),
        decreases ir.nodes@.len() - i,
    {
        s.append("// element ");
        let d = u64_to_dec(i as u64);
        s.append(d.as_str());
        s.append(": ");
        s.append(ir.nodes[i].name.as_str());
        s.append("\n");
        s.append("if ");
        let g = render_preds(&ir.nodes[i].predicates);
        s.append(g.as_str());
        let lg = render_labels_guard(&ir.nodes[i].labels);
        s.append(lg.as_str());
        let eg = render_edges_guard(&ir.edges, ir.nodes[i].name.as_str());
        s.append(eg.as_str());
        s.append(" { advance_cursor_and_collect(); } else { drop_partial_match(); }\n");
        proof {
            assert(s@ =~= match_sections(*ir, i as int + 1));
        }
        i = i + 1;
    }
    s
}

/// The root aggregation body: the query-level guard, then the merge
/// for the query's aggregation.
pub open spec fn agg_body(ir: QueryIR) -> Seq<char> {
    "if "@ + preds_code(ir.query_predicates@, ir.query_predicates@.len() as int) + " {\n"@ + (match ir.agg {
        AggregationSpec::Count => "    count += 1;\n"@,
        AggregationSpec::Average(p) => "    sum += "@ + prop_code(p) + "; count += 1;\n"@,
        AggregationSpec::HistogramByDepth => "    bucket[depth_reached()] += 1;\n"@,
        AggregationSpec::HistogramByBreadth => "    bucket[trace_breadth()] += 1;\n"@,
        AggregationSpec::CustomUdf { name, args } => "    "@ + name@ + "("@ + args_code(
            args@,
            args@.len() as int,
        ) + ");\n"@,
    }) + "}\n"@
}

/// Renders the root aggregation body both backends share.
pub fn render_agg_body(ir: &QueryIR) -> (r: String)
    ensures
        r@ == agg_body(*ir),
{
    let mut s = String::from_str("if ");
    let g = render_preds(&ir.query_predicates);
    s.append(g.as_str());
    s.append(" {\n");
    match &ir.agg {
        AggregationSpec::Count => {
            s.append("    count += 1;\n");
        }
        AggregationSpec::Average(p) => {
            s.append("    sum += ");
            let pc = render_prop(p);
            s.append(pc.as_str());
            s.append("; count += 1;\n");
        }
        AggregationSpec::HistogramByDepth => {
            s.append("    bucket[depth_reached()] += 1;\n");
        }
        AggregationSpec::HistogramByBreadth => {
            s.append("    bucket[trace_breadth()] += 1;\n");
        }
        AggregationSpec::CustomUdf { name, args } => {
            s.append("    ");
            s.append(name.as_str());
            s.append("(");
            let mut k: usize = 0;
            let ghost base = s@;
            while k < args.len()
                invariant
                    k <= args@.len(),
                    s@ == base + args_code(args@, k as int),
                decreases args@.len() - k,
            {
                if k > 0 {
                    s.append(", ");
                }
                let pc = render_prop(&args[k]);
                s.append(pc.as_str());
                proof {
                    if k == 0 {
                        assert(s@ =~= base + args_code(args@, 1));
                    } else {
                        assert(s@ =~= base + args_code(args@, k as int + 1));
                    }
                }
                k = k + 1;
            }
            s.append(");\n");
        }
    }
    s.append("}\n");
    proof {
        assert(s@ =~= agg_body(*ir));
    }
    s
}

/// The spliced bodies of the first `k` user-defined functions.
pub open spec fn udf_bodies(srcs: Seq<String>, k: int) -> Seq<char>
    decreases k,
{
    if k <= 0 {
        Seq::empty()
    } else {
        udf_bodies(srcs, k - 1) + srcs[k - 1]@ + "\n"@
    }
}

/// Renders the UDF bodies, spliced unread into the output.
pub fn render_udf_bodies(srcs: &Vec<String>) -> (r: String)
    ensures
        r@ == udf_bodies(srcs@, srcs@.len() as int),
{
    let mut s = String::new();
    let mut k: usize = 0;
    while k < srcs.len()
        invariant
            k <= srcs@.len(),
            s@ == udf_bodies(srcs@, k as int),
        decreases srcs@.len() - k,
    {
        s.append(srcs[k].as_str());
        s.append("\n");
        k = k + 1;
    }
    s
}

} // verus!
