//! The reference semantics of a query: what a compiled artifact must
//! compute from a sequence of hop observations.
//!
//! Both lowering targets implement one protocol: a partial match walks
//! the pattern elements in order, each hop evaluating the predicates
//! of its node (and of the edges arriving at it), collecting observed
//! attribute values, and the root aggregates what survives.  The
//! simulator carries the dropped state explicitly; a proxy filter
//! forwards nothing once a predicate fails.  [`lemma_backend_equivalence`]
//! proves the two readings agree on every input, which is the
//! simulator's reason to exist.
use crate::ir::AggregationSpec;
use crate::ir::PatternEdge;
use crate::ir::PredicateExpr;
use crate::ir::QueryIR;
use crate::ir::Value;
use crate::ir::CmpOp;
use crate::ir::ArithOp;
use crate::ir::value_eq;
use crate::ir::value_eq_spec;
use crate::strutil::clone_string;
use crate::strutil::str_eq;
use vstd::prelude::*;

verus! {

/// The mathematical reading of a [`Value`]: strings by contents.
pub enum ValueV {
    I(int),
    S(Seq<char>),
    B(bool),
}

/// The model of a value.
pub open spec fn view_value(v: Value) -> ValueV {
    match v {
        Value::Int(x) => ValueV::I(x as int),
        Value::Str(s) => ValueV::S(s@),
        Value::Bool(b) => ValueV::B(b),
    }
}

/// The model of an optional value.
pub open spec fn opt_view(r: Option<Value>) -> Option<ValueV> {
    match r {
        Some(v) => Some(view_value(v)),
        None => None,
    }
}

/// Value equality agrees with model equality.
pub proof fn lemma_value_eq_view(a: Value, b: Value)
    ensures
        value_eq_spec(a, b) == (view_value(a) == view_value(b)),
{
}

/// An owned copy of a value, same model.
pub fn value_clone(v: &Value) -> (r: Value)
    ensures
        view_value(r) == view_value(*v),
{
    match v {
        Value::Int(x) => Value::Int(*x),
        Value::Str(s) => Value::Str(clone_string(s)),
        Value::Bool(b) => Value::Bool(*b),
    }
}

/// What one hop of a trace exposes: the span/request attributes the
/// local proxy can observe, by name.
#[derive(Debug)]
pub struct HopObs {
    pub attrs: Vec<(String, Value)>,
}

/// The model of an observation: attribute names and values.
pub open spec fn obs_view(o: HopObs) -> Seq<(Seq<char>, ValueV)> {
    o.attrs@.map_values(|p: (String, Value)| (p.0@, view_value(p.1)))
}

/// First binding of an attribute name, if any.
pub open spec fn attr_lookup(obs: Seq<(Seq<char>, ValueV)>, name: Seq<char>) -> Option<ValueV>
    decreases obs.len(),
{
    if obs.len() == 0 {
        None
    } else if obs[0].0 == name {
        Some(obs[0].1)
    } else {
        attr_lookup(obs.subrange(1, obs.len() as int), name)
    }
}

/// A value collected along a match: variable, property, value.
pub type BindV = (Seq<char>, Seq<char>, ValueV);

/// First binding of a variable/property pair, if any.
pub open spec fn env_lookup(env: Seq<BindV>, var: Seq<char>, prop: Seq<char>) -> Option<ValueV>
    decreases env.len(),
{
    if env.len() == 0 {
        None
    } else if env[0].0 == var && env[0].1 == prop {
        Some(env[0].2)
    } else {
        env_lookup(env.subrange(1, env.len() as int), var, prop)
    }
}

/// Comparison of two value models under a comparison operator.  Order
/// comparisons are defined on integers only.
pub open spec fn cmp_values(op: CmpOp, a: ValueV, b: ValueV) -> Option<ValueV> {
    match op {
        CmpOp::Eq => Some(ValueV::B(a == b)),
        CmpOp::Ne => Some(ValueV::B(a != b)),
        _ => match (a, b) {
            (ValueV::I(x), ValueV::I(y)) => Some(
                ValueV::B(
                    match op {
                        CmpOp::Lt => x < y,
                        CmpOp::Le => x <= y,
                        CmpOp::Gt => x > y,
                        CmpOp::Ge => x >= y,
                        _ => false,
                    },
                ),
            ),
            _ => None,
        },
    }
}

/// Arithmetic on two value models; a result outside the machine range
/// is undefined and makes the predicate a silent non-match.
pub open spec fn arith_values(op: ArithOp, a: ValueV, b: ValueV) -> Option<ValueV> {
    match (a, b) {
        (ValueV::I(x), ValueV::I(y)) => {
            let v = match op {
                ArithOp::Add => x + y,
                ArithOp::Sub => x - y,
                ArithOp::Mul => x * y,
            };
            if i64::MIN <= v <= i64::MAX {
                Some(ValueV::I(v))
            } else {
                None
            }
        }
        _ => None,
    }
}

/// Evaluates a predicate at one hop, over the hop's own attributes.
/// A property reference reads the named attribute of the local
/// observation; an undefined operand, a type mismatch, or a
/// user-defined function (whose body is outside this model) yields
/// `None`: a silent local non-match, never an error.
pub open spec fn eval_hop_spec(e: PredicateExpr, obs: Seq<(Seq<char>, ValueV)>) -> Option<ValueV>
    decreases e,
{
    match e {
        PredicateExpr::Lit(v) => Some(view_value(v)),
        PredicateExpr::Prop(p) => attr_lookup(obs, p.prop@),
        PredicateExpr::Cmp { op, lhs, rhs } => match (
            eval_hop_spec(*lhs, obs),
            eval_hop_spec(*rhs, obs),
        ) {
            (Some(a), Some(b)) => cmp_values(op, a, b),
            _ => None,
        },
        PredicateExpr::Arith { op, lhs, rhs } => match (
            eval_hop_spec(*lhs, obs),
            eval_hop_spec(*rhs, obs),
        ) {
            (Some(a), Some(b)) => arith_values(op, a, b),
            _ => None,
        },
        PredicateExpr::And(l, r) => match (eval_hop_spec(*l, obs), eval_hop_spec(*r, obs)) {
            (Some(ValueV::B(a)), Some(ValueV::B(b))) => Some(ValueV::B(a && b)),
            _ => None,
        },
        PredicateExpr::Or(l, r) => match (eval_hop_spec(*l, obs), eval_hop_spec(*r, obs)) {
            (Some(ValueV::B(a)), Some(ValueV::B(b))) => Some(ValueV::B(a || b)),
            _ => None,
        },
        PredicateExpr::Not(x) => match eval_hop_spec(*x, obs) {
            Some(ValueV::B(a)) => Some(ValueV::B(!a)),
            _ => None,
        },
        PredicateExpr::Udf { .. } => None,
    }
}

/// A predicate passes when it evaluates to true.
pub open spec fn pred_passes(e: PredicateExpr, obs: Seq<(Seq<char>, ValueV)>) -> bool {
    eval_hop_spec(e, obs) == Some(ValueV::B(true))
}

/// Every predicate of the list passes at this observation.
pub open spec fn all_pass(preds: Seq<PredicateExpr>, obs: Seq<(Seq<char>, ValueV)>) -> bool {
    forall|j: int| 0 <= j < preds.len() ==> pred_passes(#[trigger] preds[j], obs)
}

/// The predicates of every edge arriving at the named node pass; edge
/// predicates are evaluated at the hop of the edge's target node.
pub open spec fn edges_pass(
    edges: Seq<PatternEdge>,
    name: Seq<char>,
    obs: Seq<(Seq<char>, ValueV)>,
) -> bool {
    forall|t: int|
        0 <= t < edges.len() && (#[trigger] edges[t]).dst@ == name ==> all_pass(
            edges[t].predicates@,
            obs,
        )
}

/// The hop observation carries this label: an attribute named
/// `label` whose string value is the label.
pub open spec fn has_label(obs: Seq<(Seq<char>, ValueV)>, l: Seq<char>) -> bool {
    exists|j: int| 0 <= j < obs.len() && obs[j].0 == "label"@ && obs[j].1 == ValueV::S(l)
}

/// Every label constraint of a node holds at the observation.
pub open spec fn labels_match(labels: Seq<String>, obs: Seq<(Seq<char>, ValueV)>) -> bool {
    forall|t: int| 0 <= t < labels.len() ==> has_label(obs, (#[trigger] labels[t])@)
}

/// The hop for pattern element `cur` accepts this observation: its
/// label constraints hold, its own predicates pass, and so do the
/// predicates of the edges arriving at it.
pub open spec fn hop_pass(ir: QueryIR, cur: int, obs: Seq<(Seq<char>, ValueV)>) -> bool {
    labels_match(ir.nodes@[cur].labels@, obs) && all_pass(ir.nodes@[cur].predicates@, obs)
        && edges_pass(ir.edges@, ir.nodes@[cur].name@, obs)
}

/// Everything a matched hop observed, tagged with the pattern
/// variable the hop stands for.
pub open spec fn binds_of(name: Seq<char>, obs: Seq<(Seq<char>, ValueV)>) -> Seq<BindV> {
    obs.map_values(|p: (Seq<char>, ValueV)| (name, p.0, p.1))
}

/// The simulator's accumulator model: whether the partial match is
/// still alive, how many pattern elements it has matched, and the
/// values collected so far.
pub type StV = (bool, int, Seq<BindV>);

/// One step of the match protocol, simulator reading: a dead or
/// complete accumulator rides along unchanged; a passing hop advances
/// the cursor and collects; a failing hop kills the match silently.
pub open spec fn sim_step(ir: QueryIR, st: StV, obs: Seq<(Seq<char>, ValueV)>) -> StV {
    if !st.0 {
        st
    } else if st.1 >= ir.nodes@.len() {
        st
    } else if hop_pass(ir, st.1, obs) {
        (true, st.1 + 1, st.2 + binds_of(ir.nodes@[st.1].name@, obs))
    } else {
        (false, st.1, st.2)
    }
}

/// Folds the simulator step over the remaining hops of one trace.
pub open spec fn sim_trace_from(ir: QueryIR, st: StV, hops: Seq<Seq<(Seq<char>, ValueV)>>, k: int) -> StV
    decreases hops.len() - k,
{
    if k < 0 || k >= hops.len() {
        st
    } else {
        sim_trace_from(ir, sim_step(ir, st, hops[k]), hops, k + 1)
    }
}

/// The proxy-backend accumulator model: forwarded state, or nothing —
/// a proxy whose predicates fail forwards no metadata at all.
pub type EnvSt = Option<(int, Seq<BindV>)>;

/// One step of the match protocol, proxy reading.
pub open spec fn proxy_step(ir: QueryIR, m: EnvSt, obs: Seq<(Seq<char>, ValueV)>) -> EnvSt {
    match m {
        None => None,
        Some((cur, col)) => if cur >= ir.nodes@.len() {
            m
        } else if hop_pass(ir, cur, obs) {
            Some((cur + 1, col + binds_of(ir.nodes@[cur].name@, obs)))
        } else {
            None
        },
    }
}

/// Folds the proxy step over the remaining hops of one trace.
pub open spec fn proxy_trace_from(
    ir: QueryIR,
    m: EnvSt,
    hops: Seq<Seq<(Seq<char>, ValueV)>>,
    k: int,
) -> EnvSt
    decreases hops.len() - k,
{
    if k < 0 || k >= hops.len() {
        m
    } else {
        proxy_trace_from(ir, proxy_step(ir, m, hops[k]), hops, k + 1)
    }
}

/// What the simulator delivers to the root at trace end: the
/// accumulator if the match is still alive, nothing otherwise.
pub open spec fn delivered(st: StV) -> EnvSt {
    if st.0 {
        Some((st.1, st.2))
    } else {
        None
    }
}

/// The two protocol readings agree step by step.
pub proof fn lemma_step_agree(ir: QueryIR, st: StV, obs: Seq<(Seq<char>, ValueV)>)
    ensures
        delivered(sim_step(ir, st, obs)) == proxy_step(ir, delivered(st), obs),
{
}

/// The two protocol readings agree on whole traces.
pub proof fn lemma_trace_agree(ir: QueryIR, st: StV, hops: Seq<Seq<(Seq<char>, ValueV)>>, k: int)
    ensures
        delivered(sim_trace_from(ir, st, hops, k)) == proxy_trace_from(ir, delivered(st), hops, k),
    decreases hops.len() - k,
{
    if 0 <= k < hops.len() {
        lemma_step_agree(ir, st, hops[k]);
        lemma_trace_agree(ir, sim_step(ir, st, hops[k]), hops, k + 1);
    }
}

/// Saturating counter increment: the aggregate state is machine-sized.
pub open spec fn sat_inc(x: int) -> int {
    if x < u64::MAX {
        x + 1
    } else {
        x
    }
}

/// Saturating sum for the running average.
pub open spec fn sat_add(a: int, b: int) -> int {
    if a + b > i64::MAX {
        i64::MAX as int
    } else if a + b < i64::MIN {
        i64::MIN as int
    } else {
        a + b
    }
}

/// A histogram bucket increment, growing the bucket list on demand.
pub open spec fn hist_incr(s: Seq<int>, idx: int) -> Seq<int>
    recommends
        idx >= 0,
{
    if idx < s.len() {
        s.update(idx, sat_inc(s[idx]))
    } else {
        (s + Seq::new((idx + 1 - s.len()) as nat, |i: int| 0)).update(idx, 1)
    }
}

/// The model of the aggregate state: a count, a running average as
/// sum and count, histogram buckets, or the arrivals handed to a
/// custom user-defined function (whose own computation is outside
/// this model).
#[verifier::ext_equal]
pub enum AggV {
    C(int),
    A(int, int),
    H(Seq<int>),
    U(int),
}

/// The empty aggregate for a query's aggregation.
pub open spec fn init_agg(ir: QueryIR) -> AggV {
    match ir.agg {
        AggregationSpec::Count => AggV::C(0),
        AggregationSpec::Average(_) => AggV::A(0, 0),
        AggregationSpec::HistogramByDepth => AggV::H(Seq::empty()),
        AggregationSpec::HistogramByBreadth => AggV::H(Seq::empty()),
        AggregationSpec::CustomUdf { .. } => AggV::U(0),
    }
}

/// The accumulator has matched the whole pattern.
pub open spec fn complete(ir: QueryIR, cur: int) -> bool {
    cur >= ir.nodes@.len()
}

/// The query-level predicates accept the collected values.  They are
/// evaluated at the root over the collected environment, each
/// property reference reading the value its variable's hop observed.
pub open spec fn root_pass(ir: QueryIR, col: Seq<BindV>) -> bool {
    forall|j: int|
        0 <= j < ir.query_predicates@.len() ==> eval_root_spec(
            #[trigger] ir.query_predicates@[j],
            col,
        ) == Some(ValueV::B(true))
}

/// Evaluates a predicate at the root over collected bindings; a
/// property reference reads the value collected for its variable and
/// property.
pub open spec fn eval_root_spec(e: PredicateExpr, env: Seq<BindV>) -> Option<ValueV>
    decreases e,
{
    match e {
        PredicateExpr::Lit(v) => Some(view_value(v)),
        PredicateExpr::Prop(p) => env_lookup(env, p.var@, p.prop@),
        PredicateExpr::Cmp { op, lhs, rhs } => match (
            eval_root_spec(*lhs, env),
            eval_root_spec(*rhs, env),
        ) {
            (Some(a), Some(b)) => cmp_values(op, a, b),
            _ => None,
        },
        PredicateExpr::Arith { op, lhs, rhs } => match (
            eval_root_spec(*lhs, env),
            eval_root_spec(*rhs, env),
        ) {
            (Some(a), Some(b)) => arith_values(op, a, b),
            _ => None,
        },
        PredicateExpr::And(l, r) => match (eval_root_spec(*l, env), eval_root_spec(*r, env)) {
            (Some(ValueV::B(a)), Some(ValueV::B(b))) => Some(ValueV::B(a && b)),
            _ => None,
        },
        PredicateExpr::Or(l, r) => match (eval_root_spec(*l, env), eval_root_spec(*r, env)) {
            (Some(ValueV::B(a)), Some(ValueV::B(b))) => Some(ValueV::B(a || b)),
            _ => None,
        },
        PredicateExpr::Not(x) => match eval_root_spec(*x, env) {
            Some(ValueV::B(a)) => Some(ValueV::B(!a)),
            _ => None,
        },
        PredicateExpr::Udf { .. } => None,
    }
}

/// Merges one trace's delivery into the aggregate, per the query's
/// aggregation: a count or average or custom arrival takes only
/// complete, root-accepted matches; the histograms bucket every
/// surviving accumulator, by depth reached or by trace breadth.
pub open spec fn agg_step(ir: QueryIR, st: AggV, d: EnvSt, trace_len: int) -> AggV {
    match ir.agg {
        AggregationSpec::Count => match (st, d) {
            (AggV::C(c), Some((cur, col))) => if complete(ir, cur) && root_pass(ir, col) {
                AggV::C(sat_inc(c))
            } else {
                st
            },
            _ => st,
        },
        AggregationSpec::Average(p) => match (st, d) {
            (AggV::A(sum, cnt), Some((cur, col))) => if complete(ir, cur) && root_pass(ir, col) {
                match env_lookup(col, p.var@, p.prop@) {
                    Some(ValueV::I(v)) => AggV::A(sat_add(sum, v), sat_inc(cnt)),
                    _ => st,
                }
            } else {
                st
            },
            _ => st,
        },
        AggregationSpec::HistogramByDepth => match (st, d) {
            (AggV::H(h), Some((cur, _))) => if cur >= 0 {
                AggV::H(hist_incr(h, cur))
            } else {
                st
            },
            _ => st,
        },
        AggregationSpec::HistogramByBreadth => match (st, d) {
            (AggV::H(h), Some(_)) => if trace_len >= 0 {
                AggV::H(hist_incr(h, trace_len))
            } else {
                st
            },
            _ => st,
        },
        AggregationSpec::CustomUdf { .. } => match (st, d) {
            (AggV::U(u), Some((cur, col))) => if complete(ir, cur) && root_pass(ir, col) {
                AggV::U(sat_inc(u))
            } else {
                st
            },
            _ => st,
        },
    }
}

/// The simulator's final aggregate over a sequence of traces.
pub open spec fn sim_result_from(
    ir: QueryIR,
    st: AggV,
    traces: Seq<Seq<Seq<(Seq<char>, ValueV)>>>,
    k: int,
) -> AggV
    decreases traces.len() - k,
{
    if k < 0 || k >= traces.len() {
        st
    } else {
        let outcome = sim_trace_from(ir, (true, 0, Seq::empty()), traces[k], 0);
        sim_result_from(
            ir,
            agg_step(ir, st, delivered(outcome), traces[k].len() as int),
            traces,
            k + 1,
        )
    }
}

/// The proxy backend's final aggregate over the same traces, replayed
/// through its forward-or-drop reading of the protocol.
pub open spec fn proxy_result_from(
    ir: QueryIR,
    st: AggV,
    traces: Seq<Seq<Seq<(Seq<char>, ValueV)>>>,
    k: int,
) -> AggV
    decreases traces.len() - k,
{
    if k < 0 || k >= traces.len() {
        st
    } else {
        let outcome = proxy_trace_from(ir, Some((0, Seq::empty())), traces[k], 0);
        proxy_result_from(ir, agg_step(ir, st, outcome, traces[k].len() as int), traces, k + 1)
    }
}

/// Backend equivalence: for a fixed query IR and a fixed sequence of
/// hop observations, the simulator's final aggregate equals the
/// result of replaying the same observations through the proxy
/// backend's logical semantics.
pub proof fn lemma_backend_equivalence(
    ir: QueryIR,
    st: AggV,
    traces: Seq<Seq<Seq<(Seq<char>, ValueV)>>>,
    k: int,
)
    ensures
        sim_result_from(ir, st, traces, k) == proxy_result_from(ir, st, traces, k),
    decreases traces.len() - k,
{
    if 0 <= k < traces.len() {
        lemma_trace_agree(ir, (true, 0, Seq::empty()), traces[k], 0);
        assert(delivered((true, 0, Seq::<BindV>::empty())) == Some((0int, Seq::<BindV>::empty())));
        let outcome = sim_trace_from(ir, (true, 0, Seq::empty()), traces[k], 0);
        lemma_backend_equivalence(
            ir,
            agg_step(ir, st, delivered(outcome), traces[k].len() as int),
            traces,
            k + 1,
        );
    }
}

/// The model of collected bindings.
pub open spec fn col_view(v: Seq<(String, String, Value)>) -> Seq<BindV> {
    v.map_values(|t: (String, String, Value)| (t.0@, t.1@, view_value(t.2)))
}

/// The model of a trace: its hops' observations.
pub open spec fn trace_view(ts: Seq<HopObs>) -> Seq<Seq<(Seq<char>, ValueV)>> {
    ts.map_values(|o: HopObs| obs_view(o))
}

/// The model of a sequence of traces.
pub open spec fn traces_view(ts: Seq<Vec<HopObs>>) -> Seq<Seq<Seq<(Seq<char>, ValueV)>>> {
    ts.map_values(|t: Vec<HopObs>| trace_view(t@))
}

/// Reads the named attribute of an observation; the first binding
/// wins.
pub fn attr_get(o: &HopObs, name: &str) -> (r: Option<Value>)
    ensures
        opt_view(r) == attr_lookup(obs_view(*o), name@),
{
    let ghost full = obs_view(*o);
    proof {
        assert(full.subrange(0, full.len() as int) =~= full);
    }
    let mut i: usize = 0;
    while i < o.attrs.len()
        invariant
            i <= o.attrs@.len(),
            full == obs_view(*o),
            full.len() == o.attrs@.len(),
            attr_lookup(full, name@) == attr_lookup(
                full.subrange(i as int, full.len() as int),
                name@,
            ),
        decreases o.attrs@.len() - i,
    {
        let ghost tail = full.subrange(i as int, full.len() as int);
        proof {
            assert(tail[0] == full[i as int]);
            assert(full[i as int].0 == o.attrs@[i as int].0@);
        }
        if str_eq(o.attrs[i].0.as_str(), name) {
            proof {
                assert(attr_lookup(tail, name@) == Some(tail[0].1));
                assert(tail[0].1 == view_value(o.attrs@[i as int].1));
            }
            return Some(value_clone(&o.attrs[i].1));
        }
        proof {
            assert(tail.subrange(1, tail.len() as int) =~= full.subrange(
                i as int + 1,
                full.len() as int,
            ));
        }
        i = i + 1;
    }
    proof {
        assert(full.subrange(i as int, full.len() as int).len() == 0);
    }
    None
}

/// Reads the collected value of a variable's property; the first
/// binding wins.
pub fn env_get(env: &Vec<(String, String, Value)>, var: &str, prop: &str) -> (r: Option<Value>)
    ensures
        opt_view(r) == env_lookup(col_view(env@), var@, prop@),
{
    let ghost full = col_view(env@);
    proof {
        assert(full.subrange(0, full.len() as int) =~= full);
    }
    let mut i: usize = 0;
    while i < env.len()
        invariant
            i <= env@.len(),
            full == col_view(env@),
            full.len() == env@.len(),
            env_lookup(full, var@, prop@) == env_lookup(
                full.subrange(i as int, full.len() as int),
                var@,
                prop@,
            ),
        decreases env@.len() - i,
    {
        let ghost tail = full.subrange(i as int, full.len() as int);
        proof {
            assert(tail[0] == full[i as int]);
            assert(full[i as int].0 == env@[i as int].0@);
            assert(full[i as int].1 == env@[i as int].1@);
        }
        if str_eq(env[i].0.as_str(), var) && str_eq(env[i].1.as_str(), prop) {
            proof {
                assert(env_lookup(tail, var@, prop@) == Some(tail[0].2));
                assert(tail[0].2 == view_value(env@[i as int].2));
            }
            return Some(value_clone(&env[i].2));
        }
        proof {
            assert(tail.subrange(1, tail.len() as int) =~= full.subrange(
                i as int + 1,
                full.len() as int,
            ));
        }
        i = i + 1;
    }
    proof {
        assert(full.subrange(i as int, full.len() as int).len() == 0);
    }
    None
}

/// Applies a comparison operator to two values.
fn cmp_exec(op: CmpOp, a: Value, b: Value) -> (r: Option<Value>)
    ensures
        opt_view(r) == cmp_values(op, view_value(a), view_value(b)),
{
    proof {
        lemma_value_eq_view(a, b);
    }
    match op {
        CmpOp::Eq => Some(Value::Bool(value_eq(&a, &b))),
        CmpOp::Ne => Some(Value::Bool(!value_eq(&a, &b))),
        _ => match (&a, &b) {
            (Value::Int(x), Value::Int(y)) => Some(
                Value::Bool(
                    match op {
                        CmpOp::Lt => *x < *y,
                        CmpOp::Le => *x <= *y,
                        CmpOp::Gt => *x > *y,
                        CmpOp::Ge => *x >= *y,
                        _ => false,
                    },
                ),
            ),
            _ => None,
        },
    }
}

/// Applies an arithmetic operator to two values, with the machine
/// range checked.
fn arith_exec(op: ArithOp, a: Value, b: Value) -> (r: Option<Value>)
    ensures
        opt_view(r) == arith_values(op, view_value(a), view_value(b)),
{
    match (&a, &b) {
        (Value::Int(x), Value::Int(y)) => {
            let c: Option<i64> = match op {
                ArithOp::Add => x.checked_add(*y),
                ArithOp::Sub => x.checked_sub(*y),
                ArithOp::Mul => x.checked_mul(*y),
            };
            match c {
                Some(v) => Some(Value::Int(v)),
                None => None,
            }
        }
        _ => None,
    }
}

/// Evaluates a predicate at one hop; see [`eval_hop_spec`].
pub fn eval_hop(e: &PredicateExpr, o: &HopObs) -> (r: Option<Value>)
    ensures
        opt_view(r) == eval_hop_spec(*e, obs_view(*o)),
    decreases *e,
{
    match e {
        PredicateExpr::Lit(v) => Some(value_clone(v)),
        PredicateExpr::Prop(p) => attr_get(o, p.prop.as_str()),
        PredicateExpr::Cmp { op, lhs, rhs } => match (eval_hop(lhs, o), eval_hop(rhs, o)) {
            (Some(a), Some(b)) => cmp_exec(*op, a, b),
            _ => None,
        },
        PredicateExpr::Arith { op, lhs, rhs } => match (eval_hop(lhs, o), eval_hop(rhs, o)) {
            (Some(a), Some(b)) => arith_exec(*op, a, b),
            _ => None,
        },
        PredicateExpr::And(l, r) => match (eval_hop(l, o), eval_hop(r, o)) {
            (Some(Value::Bool(a)), Some(Value::Bool(b))) => Some(Value::Bool(a && b)),
            _ => None,
        },
        PredicateExpr::Or(l, r) => match (eval_hop(l, o), eval_hop(r, o)) {
            (Some(Value::Bool(a)), Some(Value::Bool(b))) => Some(Value::Bool(a || b)),
            _ => None,
        },
        PredicateExpr::Not(x) => match eval_hop(x, o) {
            Some(Value::Bool(a)) => Some(Value::Bool(!a)),
            _ => None,
        },
        PredicateExpr::Udf { .. } => None,
    }
}

/// Evaluates a predicate at the root over collected bindings; see
/// [`eval_root_spec`].
pub fn eval_root(e: &PredicateExpr, env: &Vec<(String, String, Value)>) -> (r: Option<Value>)
    ensures
        opt_view(r) == eval_root_spec(*e, col_view(env@)),
    decreases *e,
{
    match e {
        PredicateExpr::Lit(v) => Some(value_clone(v)),
        PredicateExpr::Prop(p) => env_get(env, p.var.as_str(), p.prop.as_str()),
        PredicateExpr::Cmp { op, lhs, rhs } => match (eval_root(lhs, env), eval_root(rhs, env)) {
            (Some(a), Some(b)) => cmp_exec(*op, a, b),
            _ => None,
        },
        PredicateExpr::Arith { op, lhs, rhs } => match (eval_root(lhs, env), eval_root(rhs, env)) {
            (Some(a), Some(b)) => arith_exec(*op, a, b),
            _ => None,
        },
        PredicateExpr::And(l, r) => match (eval_root(l, env), eval_root(r, env)) {
            (Some(Value::Bool(a)), Some(Value::Bool(b))) => Some(Value::Bool(a && b)),
            _ => None,
        },
        PredicateExpr::Or(l, r) => match (eval_root(l, env), eval_root(r, env)) {
            (Some(Value::Bool(a)), Some(Value::Bool(b))) => Some(Value::Bool(a || b)),
            _ => None,
        },
        PredicateExpr::Not(x) => match eval_root(x, env) {
            Some(Value::Bool(a)) => Some(Value::Bool(!a)),
            _ => None,
        },
        PredicateExpr::Udf { .. } => None,
    }
}

/// Whether every predicate of the list passes at this hop.
fn preds_pass(preds: &Vec<PredicateExpr>, o: &HopObs) -> (r: bool)
    ensures
        r == all_pass(preds@, obs_view(*o)),
{
    let mut i: usize = 0;
    while i < preds.len()
        invariant
            i <= preds@.len(),
            forall|j: int| 0 <= j < i ==> pred_passes(#[trigger] preds@[j], obs_view(*o)),
        decreases preds@.len() - i,
    {
        let ok = match eval_hop(&preds[i], o) {
            Some(Value::Bool(b)) => b,
            _ => false,
        };
        if !ok {
            proof {
                assert(!pred_passes(preds@[i as int], obs_view(*o)));
            }
            return false;
        }
        i = i + 1;
    }
    true
}

/// Whether the observation carries the label.
fn obs_has_label(o: &HopObs, l: &str) -> (r: bool)
    ensures
        r == has_label(obs_view(*o), l@),
{
    let mut j: usize = 0;
    while j < o.attrs.len()
        invariant
            j <= o.attrs@.len(),
            obs_view(*o).len() == o.attrs@.len(),
            forall|k: int|
                0 <= k < j ==> !((#[trigger] obs_view(*o)[k]).0 == "label"@ && obs_view(*o)[k].1
                    == ValueV::S(l@)),
        decreases o.attrs@.len() - j,
    {
        proof {
            assert(obs_view(*o)[j as int].0 == o.attrs@[j as int].0@);
            assert(obs_view(*o)[j as int].1 == view_value(o.attrs@[j as int].1));
        }
        let name_is_label = str_eq(o.attrs[j].0.as_str(), "label");
        let value_matches = match &o.attrs[j].1 {
            Value::Str(s) => str_eq(s.as_str(), l),
            _ => false,
        };
        proof {
            assert(value_matches == (view_value(o.attrs@[j as int].1) == ValueV::S(l@)));
        }
        if name_is_label && value_matches {
            return true;
        }
        j = j + 1;
    }
    false
}

/// Whether the hop for pattern element `cur` accepts this
/// observation.
fn hop_passes(ir: &QueryIR, cur: usize, o: &HopObs) -> (r: bool)
    requires
        cur < ir.nodes@.len(),
    ensures
        r == hop_pass(*ir, cur as int, obs_view(*o)),
{
    let mut li: usize = 0;
    while li < ir.nodes[cur].labels.len()
        invariant
            cur < ir.nodes@.len(),
            li <= ir.nodes@[cur as int].labels@.len(),
            forall|t: int|
                0 <= t < li ==> has_label(
                    obs_view(*o),
                    (#[trigger] ir.nodes@[cur as int].labels@[t])@,
                ),
        decreases ir.nodes@[cur as int].labels@.len() - li,
    {
        if !obs_has_label(o, ir.nodes[cur].labels[li].as_str()) {
            proof {
                assert(!has_label(obs_view(*o), ir.nodes@[cur as int].labels@[li as int]@));
            }
            return false;
        }
        li = li + 1;
    }
    if !preds_pass(&ir.nodes[cur].predicates, o) {
        return false;
    }
    let name = &ir.nodes[cur].name;
    let mut t: usize = 0;
    while t < ir.edges.len()
        invariant
            cur < ir.nodes@.len(),
            t <= ir.edges@.len(),
            name@ == ir.nodes@[cur as int].name@,
            all_pass(ir.nodes@[cur as int].predicates@, obs_view(*o)),
            forall|u: int|
                0 <= u < t && (#[trigger] ir.edges@[u]).dst@ == ir.nodes@[cur as int].name@
                    ==> all_pass(ir.edges@[u].predicates@, obs_view(*o)),
        decreases ir.edges@.len() - t,
    {
        if str_eq(ir.edges[t].dst.as_str(), name.as_str()) {
            if !preds_pass(&ir.edges[t].predicates, o) {
                return false;
            }
        }
        t = t + 1;
    }
    true
}

/// Runs one trace through the match protocol, simulator reading:
/// returns whether the partial match survived, the depth reached, and
/// the collected bindings.
pub fn run_trace(ir: &QueryIR, trace: &Vec<HopObs>) -> (r: (bool, usize, Vec<(String, String, Value)>))
    ensures
        (r.0, r.1 as int, col_view(r.2@)) == sim_trace_from(
            *ir,
            (true, 0, Seq::<BindV>::empty()),
            trace_view(trace@),
            0,
        ),
        r.1 <= ir.nodes@.len(),
{
    let ghost hops = trace_view(trace@);
    let mut alive: bool = true;
    let mut cur: usize = 0;
    let mut col: Vec<(String, String, Value)> = Vec::new();
    let mut k: usize = 0;
    proof {
        assert(col_view(col@) =~= Seq::<BindV>::empty());
    }
    while k < trace.len()
        invariant
            k <= trace@.len(),
            hops == trace_view(trace@),
            hops.len() == trace@.len(),
            cur <= ir.nodes@.len(),
            sim_trace_from(*ir, (true, 0, Seq::<BindV>::empty()), hops, 0) == sim_trace_from(
                *ir,
                (alive, cur as int, col_view(col@)),
                hops,
                k as int,
            ),
        decreases trace@.len() - k,
    {
        let ghost st = (alive, cur as int, col_view(col@));
        proof {
            assert(hops[k as int] == obs_view(trace@[k as int]));
        }
        if alive && cur < ir.nodes.len() {
            if hop_passes(ir, cur, &trace[k]) {
                let name = &ir.nodes[cur].name;
                let o = &trace[k];
                let mut j: usize = 0;
                while j < o.attrs.len()
                    invariant
                        j <= o.attrs@.len(),
                        cur < ir.nodes@.len(),
                        col_view(col@) == st.2 + binds_of(
                            ir.nodes@[cur as int].name@,
                            obs_view(*o),
                        ).subrange(0, j as int),
                        name@ == ir.nodes@[cur as int].name@,
                        obs_view(*o).len() == o.attrs@.len(),
                    decreases o.attrs@.len() - j,
                {
                    let ghost pre_col = col@;
                    col.push(
                        (clone_string(name), clone_string(&o.attrs[j].0), value_clone(
                            &o.attrs[j].1,
                        )),
                    );
                    proof {
                        let b = binds_of(ir.nodes@[cur as int].name@, obs_view(*o));
                        assert(obs_view(*o)[j as int].0 == o.attrs@[j as int].0@);
                        assert(obs_view(*o)[j as int].1 == view_value(o.attrs@[j as int].1));
                        assert(b[j as int] == (
                            ir.nodes@[cur as int].name@,
                            obs_view(*o)[j as int].0,
                            obs_view(*o)[j as int].1,
                        ));
                        assert(col_view(col@) =~= col_view(pre_col).push(b[j as int]));
                        assert(b.subrange(0, j as int + 1) =~= b.subrange(0, j as int).push(
                            b[j as int],
                        ));
                        assert((st.2 + b.subrange(0, j as int)).push(b[j as int]) =~= st.2
                            + b.subrange(0, j as int + 1));
                    }
                    j = j + 1;
                }
                proof {
                    let b = binds_of(ir.nodes@[cur as int].name@, obs_view(*o));
                    assert(b.subrange(0, b.len() as int) =~= b);
                    assert(col_view(col@) == st.2 + b);
                    assert(sim_step(*ir, st, hops[k as int]) == (
                        true,
                        cur as int + 1,
                        st.2 + b,
                    ));
                }
                cur = cur + 1;
            } else {
                alive = false;
            }
        } else {
            proof {
                assert(sim_step(*ir, st, hops[k as int]) == st);
            }
        }
        k = k + 1;
    }
    (alive, cur, col)
}

/// Runs one trace through the match protocol, proxy reading: the
/// forwarded metadata, or nothing once a hop's predicates failed.
pub fn proxy_trace(ir: &QueryIR, trace: &Vec<HopObs>) -> (r: Option<
    (usize, Vec<(String, String, Value)>),
>)
    ensures
        (match r {
            Some((c, v)) => Some((c as int, col_view(v@))),
            None => None,
        }) == proxy_trace_from(*ir, Some((0, Seq::<BindV>::empty())), trace_view(trace@), 0),
        r matches Some(p) ==> p.0 <= ir.nodes@.len(),
{
    let ghost hops = trace_view(trace@);
    let mut state: Option<(usize, Vec<(String, String, Value)>)> = Some((0, Vec::new()));
    let mut k: usize = 0;
    proof {
        assert(col_view(Seq::<(String, String, Value)>::empty()) =~= Seq::<BindV>::empty());
    }
    while k < trace.len()
        invariant
            k <= trace@.len(),
            hops == trace_view(trace@),
            hops.len() == trace@.len(),
            state matches Some(p) ==> p.0 <= ir.nodes@.len(),
            proxy_trace_from(*ir, Some((0, Seq::<BindV>::empty())), hops, 0) == proxy_trace_from(
                *ir,
                match state {
                    Some((c, v)) => Some((c as int, col_view(v@))),
                    None => None,
                },
                hops,
                k as int,
            ),
        decreases trace@.len() - k,
    {
        proof {
            assert(hops[k as int] == obs_view(trace@[k as int]));
        }
        match state {
            None => {
                state = None;
            }
            Some((cur, col)) => {
                if cur >= ir.nodes.len() {
                    state = Some((cur, col));
                } else if hop_passes(ir, cur, &trace[k]) {
                    let ghost pre = col_view(col@);
                    let mut col2 = col;
                    let name = &ir.nodes[cur].name;
                    let o = &trace[k];
                    let mut j: usize = 0;
                    while j < o.attrs.len()
                        invariant
                            j <= o.attrs@.len(),
                            cur < ir.nodes@.len(),
                            col_view(col2@) == pre + binds_of(
                                ir.nodes@[cur as int].name@,
                                obs_view(*o),
                            ).subrange(0, j as int),
                            name@ == ir.nodes@[cur as int].name@,
                            obs_view(*o).len() == o.attrs@.len(),
                        decreases o.attrs@.len() - j,
                    {
                        let ghost pre_col = col2@;
                        col2.push(
                            (clone_string(name), clone_string(&o.attrs[j].0), value_clone(
                                &o.attrs[j].1,
                            )),
                        );
                        proof {
                            let b = binds_of(ir.nodes@[cur as int].name@, obs_view(*o));
                            assert(obs_view(*o)[j as int].0 == o.attrs@[j as int].0@);
                            assert(obs_view(*o)[j as int].1 == view_value(o.attrs@[j as int].1));
                            assert(b[j as int] == (
                                ir.nodes@[cur as int].name@,
                                obs_view(*o)[j as int].0,
                                obs_view(*o)[j as int].1,
                            ));
                            assert(col_view(col2@) =~= col_view(pre_col).push(b[j as int]));
                            assert(b.subrange(0, j as int + 1) =~= b.subrange(0, j as int).push(
                                b[j as int],
                            ));
                            assert((pre + b.subrange(0, j as int)).push(b[j as int]) =~= pre
                                + b.subrange(0, j as int + 1));
                        }
                        j = j + 1;
                    }
                    proof {
                        let b = binds_of(ir.nodes@[cur as int].name@, obs_view(*o));
                        assert(b.subrange(0, b.len() as int) =~= b);
                    }
                    state = Some((cur + 1, col2));
                } else {
                    state = None;
                }
            }
        }
        k = k + 1;
    }
    state
}


/// The executable aggregate state; counters saturate at the machine
/// range.
#[derive(Debug, PartialEq)]
pub enum AggState {
    CountState { total: u64 },
    AverageState { sum: i64, count: u64 },
    HistogramState { buckets: Vec<u64> },
    UdfArrivals { total: u64 },
}

/// The model of the aggregate state.
pub open spec fn agg_state_view(a: AggState) -> AggV {
    match a {
        AggState::CountState { total } => AggV::C(total as int),
        AggState::AverageState { sum, count } => AggV::A(sum as int, count as int),
        AggState::HistogramState { buckets } => AggV::H(
            buckets@.map_values(|x: u64| x as int),
        ),
        AggState::UdfArrivals { total } => AggV::U(total as int),
    }
}

/// The empty aggregate for a query.
pub fn init_state(ir: &QueryIR) -> (r: AggState)
    ensures
        agg_state_view(r) == init_agg(*ir),
{
    let r = match &ir.agg {
        AggregationSpec::Count => AggState::CountState { total: 0 },
        AggregationSpec::Average(_) => AggState::AverageState { sum: 0, count: 0 },
        AggregationSpec::HistogramByDepth => AggState::HistogramState { buckets: Vec::new() },
        AggregationSpec::HistogramByBreadth => AggState::HistogramState { buckets: Vec::new() },
        AggregationSpec::CustomUdf { .. } => AggState::UdfArrivals { total: 0 },
    };
    proof {
        if ir.agg is HistogramByDepth || ir.agg is HistogramByBreadth {
            assert(agg_state_view(r) =~= AggV::H(Seq::<int>::empty()));
        }
    }
    r
}

/// Saturating increment of a machine counter.
fn sat_inc_exec(x: u64) -> (r: u64)
    ensures
        r as int == sat_inc(x as int),
{
    if x < u64::MAX {
        x + 1
    } else {
        x
    }
}

/// Saturating sum for the running average.
fn sat_add_exec(a: i64, b: i64) -> (r: i64)
    ensures
        r as int == sat_add(a as int, b as int),
{
    match a.checked_add(b) {
        Some(v) => v,
        None => {
            if b >= 0 {
                i64::MAX
            } else {
                i64::MIN
            }
        }
    }
}

/// Bumps one histogram bucket, growing the bucket list on demand.
fn hist_incr_exec(buckets: &mut Vec<u64>, idx: usize)
    ensures
        final(buckets)@.map_values(|x: u64| x as int) == hist_incr(
            old(buckets)@.map_values(|x: u64| x as int),
            idx as int,
        ),
{
    let ghost h = old(buckets)@.map_values(|x: u64| x as int);
    let mut grew: bool = false;
    while buckets.len() <= idx
        invariant
            buckets@.len() >= old(buckets)@.len(),
            grew == (buckets@.len() > old(buckets)@.len()),
            forall|j: int| 0 <= j < old(buckets)@.len() ==> buckets@[j] == old(buckets)@[j],
            forall|j: int|
                old(buckets)@.len() <= j < buckets@.len() ==> buckets@[j] == 0,
            grew ==> buckets@.len() <= idx + 1,
        decreases idx + 1 - buckets@.len(),
    {
        buckets.push(0);
        grew = true;
    }
    let v = buckets[idx];
    let nv = if grew {
        1u64
    } else {
        sat_inc_exec(v)
    };
    let ghost pre = buckets@;
    buckets.remove(idx);
    buckets.insert(idx, nv);
    proof {
        assert forall|j: int| 0 <= j < buckets@.len() && j != idx implies buckets@[j] == pre[j] by {
            if j < idx {
                assert(buckets@[j] == pre.remove(idx as int)[j]);
            } else {
                assert(buckets@[j] == pre.remove(idx as int)[j - 1]);
            }
        }
        assert(buckets@[idx as int] == nv);
        let lhs = buckets@.map_values(|x: u64| x as int);
        let rhs = hist_incr(h, idx as int);
        if idx < old(buckets)@.len() {
            assert(!grew);
            assert(lhs =~= rhs);
        } else {
            assert(grew);
            assert(rhs == (h + Seq::new((idx + 1 - h.len()) as nat, |i: int| 0)).update(
                idx as int,
                1,
            ));
            assert(lhs =~= rhs);
        }
    }
}

/// Whether every query-level predicate accepts the collected
/// bindings.
fn root_passes(ir: &QueryIR, col: &Vec<(String, String, Value)>) -> (r: bool)
    ensures
        r == root_pass(*ir, col_view(col@)),
{
    let mut i: usize = 0;
    while i < ir.query_predicates.len()
        invariant
            i <= ir.query_predicates@.len(),
            forall|j: int|
                0 <= j < i ==> eval_root_spec(#[trigger] ir.query_predicates@[j], col_view(col@))
                    == Some(ValueV::B(true)),
        decreases ir.query_predicates@.len() - i,
    {
        let ok = match eval_root(&ir.query_predicates[i], col) {
            Some(Value::Bool(b)) => b,
            _ => false,
        };
        if !ok {
            proof {
                assert(eval_root_spec(ir.query_predicates@[i as int], col_view(col@)) != Some(
                    ValueV::B(true),
                ));
            }
            return false;
        }
        i = i + 1;
    }
    true
}

/// Merges one trace's delivery into the aggregate state; see
/// [`agg_step`].
pub fn agg_update(
    ir: &QueryIR,
    st: AggState,
    arrived: bool,
    cur: usize,
    col: &Vec<(String, String, Value)>,
    trace_len: usize,
) -> (r: AggState)
    ensures
        agg_state_view(r) == agg_step(
            *ir,
            agg_state_view(st),
            if arrived {
                Some((cur as int, col_view(col@)))
            } else {
                None
            },
            trace_len as int,
        ),
{
    if !arrived {
        return st;
    }
    match &ir.agg {
        AggregationSpec::Count => {
            match st {
                AggState::CountState { total } => {
                    if cur >= ir.nodes.len() && root_passes(ir, col) {
                        AggState::CountState { total: sat_inc_exec(total) }
                    } else {
                        AggState::CountState { total }
                    }
                }
                other => other,
            }
        }
        AggregationSpec::Average(p) => {
            match st {
                AggState::AverageState { sum, count } => {
                    if cur >= ir.nodes.len() && root_passes(ir, col) {
                        match env_get(col, p.var.as_str(), p.prop.as_str()) {
                            Some(Value::Int(v)) => AggState::AverageState {
                                sum: sat_add_exec(sum, v),
                                count: sat_inc_exec(count),
                            },
                            _ => AggState::AverageState { sum, count },
                        }
                    } else {
                        AggState::AverageState { sum, count }
                    }
                }
                other => other,
            }
        }
        AggregationSpec::HistogramByDepth => {
            match st {
                AggState::HistogramState { buckets } => {
                    let mut b = buckets;
                    hist_incr_exec(&mut b, cur);
                    AggState::HistogramState { buckets: b }
                }
                other => other,
            }
        }
        AggregationSpec::HistogramByBreadth => {
            match st {
                AggState::HistogramState { buckets } => {
                    let mut b = buckets;
                    hist_incr_exec(&mut b, trace_len);
                    AggState::HistogramState { buckets: b }
                }
                other => other,
            }
        }
        AggregationSpec::CustomUdf { .. } => {
            match st {
                AggState::UdfArrivals { total } => {
                    if cur >= ir.nodes.len() && root_passes(ir, col) {
                        AggState::UdfArrivals { total: sat_inc_exec(total) }
                    } else {
                        AggState::UdfArrivals { total }
                    }
                }
                other => other,
            }
        }
    }
}

/// Runs the simulator reading of the whole query over a sequence of
/// traces: the generated harness computes exactly this.
pub fn simulate(ir: &QueryIR, traces: &Vec<Vec<HopObs>>) -> (r: AggState)
    ensures
        agg_state_view(r) == sim_result_from(*ir, init_agg(*ir), traces_view(traces@), 0),
{
    let ghost tv = traces_view(traces@);
    let mut st = init_state(ir);
    let mut k: usize = 0;
    while k < traces.len()
        invariant
            k <= traces@.len(),
            tv == traces_view(traces@),
            tv.len() == traces@.len(),
            sim_result_from(*ir, init_agg(*ir), tv, 0) == sim_result_from(
                *ir,
                agg_state_view(st),
                tv,
                k as int,
            ),
        decreases traces@.len() - k,
    {
        proof {
            assert(tv[k as int] == trace_view(traces@[k as int]@));
        }
        let (alive, cur, col) = run_trace(ir, &traces[k]);
        st = agg_update(ir, st, alive, cur, &col, traces[k].len());
        k = k + 1;
    }
    st
}

/// Replays the same traces through the proxy backend's logical
/// semantics: forwarded metadata or nothing, merged at the root.
pub fn proxy_replay(ir: &QueryIR, traces: &Vec<Vec<HopObs>>) -> (r: AggState)
    ensures
        agg_state_view(r) == proxy_result_from(*ir, init_agg(*ir), traces_view(traces@), 0),
{
    let ghost tv = traces_view(traces@);
    let mut st = init_state(ir);
    let mut k: usize = 0;
    while k < traces.len()
        invariant
            k <= traces@.len(),
            tv == traces_view(traces@),
            tv.len() == traces@.len(),
            proxy_result_from(*ir, init_agg(*ir), tv, 0) == proxy_result_from(
                *ir,
                agg_state_view(st),
                tv,
                k as int,
            ),
        decreases traces@.len() - k,
    {
        proof {
            assert(tv[k as int] == trace_view(traces@[k as int]@));
        }
        let empty: Vec<(String, String, Value)> = Vec::new();
        let outcome = proxy_trace(ir, &traces[k]);
        proof {
            assert(col_view(empty@) =~= Seq::<BindV>::empty());
        }
        match outcome {
            Some((cur, col)) => {
                st = agg_update(ir, st, true, cur, &col, traces[k].len());
            }
            None => {
                st = agg_update(ir, st, false, 0, &empty, traces[k].len());
            }
        }
        k = k + 1;
    }
    st
}

} // verus!
