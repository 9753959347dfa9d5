//! The target-independent intermediate representation of a
//! graph-pattern query.
//!
//! A query binds node and edge variables to the services and calls of
//! a traced request path, constrains them with predicates, and names
//! one variable as the aggregation root.  [`QueryIR`] is built once
//! per compilation by [`crate::builder`], is immutable afterwards, and
//! is read by both lowering backends.
use vstd::prelude::*;

verus! {

/// A literal or observed property value.  Traces carry integers,
/// strings and booleans.
#[derive(Debug)]
pub enum Value {
    Int(i64),
    Str(String),
    Bool(bool),
}

/// Value equality, with strings compared by contents.
pub open spec fn value_eq_spec(a: Value, b: Value) -> bool {
    match a {
        Value::Int(x) => match b {
            Value::Int(y) => x == y,
            _ => false,
        },
        Value::Str(x) => match b {
            Value::Str(y) => x@ == y@,
            _ => false,
        },
        Value::Bool(x) => match b {
            Value::Bool(y) => x == y,
            _ => false,
        },
    }
}

/// Decides [`value_eq_spec`].
pub fn value_eq(a: &Value, b: &Value) -> (r: bool)
    ensures
        r == value_eq_spec(*a, *b),
{
    match a {
        Value::Int(x) => match b {
            Value::Int(y) => *x == *y,
            _ => false,
        },
        Value::Str(x) => match b {
            Value::Str(y) => *x == *y,
            _ => false,
        },
        Value::Bool(x) => match b {
            Value::Bool(y) => *x == *y,
            _ => false,
        },
    }
}

/// A reference to one property of one pattern variable.
#[derive(Debug)]
pub struct PropertyRef {
    pub var: String,
    pub prop: String,
}

/// Comparison operators of the predicate language.  The order
/// comparisons apply to integers only.
#[derive(PartialEq, Eq, Structural, Clone, Copy, Debug)]
pub enum CmpOp {
    Eq,
    Ne,
    Lt,
    Le,
    Gt,
    Ge,
}

/// Arithmetic operators of the predicate language, over integers.
#[derive(PartialEq, Eq, Structural, Clone, Copy, Debug)]
pub enum ArithOp {
    Add,
    Sub,
    Mul,
}

/// A predicate expression tree, produced by normalizing a WHERE
/// clause.  A user-defined function is applied to property references
/// only, per its declared call signature.
#[derive(Debug)]
pub enum PredicateExpr {
    Lit(Value),
    Prop(PropertyRef),
    Cmp { op: CmpOp, lhs: Box<PredicateExpr>, rhs: Box<PredicateExpr> },
    Arith { op: ArithOp, lhs: Box<PredicateExpr>, rhs: Box<PredicateExpr> },
    And(Box<PredicateExpr>, Box<PredicateExpr>),
    Or(Box<PredicateExpr>, Box<PredicateExpr>),
    Not(Box<PredicateExpr>),
    Udf { name: String, args: Vec<PropertyRef> },
}

/// A named variable bound to a traced service (a vertex of the
/// pattern).  Identity is the variable name, unique within a query.
#[derive(Debug)]
pub struct PatternNode {
    pub name: String,
    /// Label constraints on the vertex: a hop satisfies them when it
    /// observes each one as the string value of a `label` attribute.
    pub labels: Vec<String>,
    /// Predicates that constrain this node alone and are evaluated at
    /// its hop.
    pub predicates: Vec<PredicateExpr>,
}

/// A directed relationship between two pattern nodes (a call edge).
/// Endpoints are node names and must exist — a build-time invariant.
#[derive(Debug)]
pub struct PatternEdge {
    pub name: String,
    pub src: String,
    pub dst: String,
    /// Predicates that constrain this edge alone; they are evaluated
    /// at the hop of the target node.
    pub predicates: Vec<PredicateExpr>,
}

/// The aggregation a query performs where its matches converge.
#[derive(Debug)]
pub enum AggregationSpec {
    /// Count the fully matched traces.
    Count,
    /// Running average of one integer property collected along the
    /// match.
    Average(PropertyRef),
    /// Bucket each trace by the pattern depth it reached.
    HistogramByDepth,
    /// Bucket each trace by its breadth: the number of hops observed.
    HistogramByBreadth,
    /// Hand each arriving accumulator to a user-defined function.
    CustomUdf { name: String, args: Vec<PropertyRef> },
}

/// The root object of the intermediate representation.
#[derive(Debug)]
pub struct QueryIR {
    pub nodes: Vec<PatternNode>,
    pub edges: Vec<PatternEdge>,
    /// Predicates that reference several variables (or none); they
    /// cannot be evaluated locally at one hop and stay attached at the
    /// query level, evaluated at the root over collected values.
    pub query_predicates: Vec<PredicateExpr>,
    pub agg: AggregationSpec,
    /// The variable where all partial matches converge.
    pub root: String,
}

/// No two nodes share a name.
pub open spec fn nodes_unique(nodes: Seq<PatternNode>) -> bool {
    forall|i: int, j: int| 0 <= i < j < nodes.len() ==> nodes[i].name@ != nodes[j].name@
}

/// Some node carries this name.
pub open spec fn has_node(nodes: Seq<PatternNode>, name: Seq<char>) -> bool {
    exists|i: int| 0 <= i < nodes.len() && nodes[i].name@ == name
}

/// Some edge variable carries this name.
pub open spec fn has_edge_var(edges: Seq<PatternEdge>, name: Seq<char>) -> bool {
    exists|i: int| 0 <= i < edges.len() && edges[i].name@ == name
}

/// Every edge endpoint names an existing node.
pub open spec fn endpoints_exist(nodes: Seq<PatternNode>, edges: Seq<PatternEdge>) -> bool {
    forall|i: int|
        0 <= i < edges.len() ==> #[trigger] has_node(nodes, edges[i].src@) && has_node(
            nodes,
            edges[i].dst@,
        )
}

/// Weak connectivity of the pattern graph: every node is reachable
/// from the first node when edge direction is ignored.
pub open spec fn connected(nodes: Seq<PatternNode>, edges: Seq<PatternEdge>) -> bool {
    nodes.len() == 0 || {
        let reached = reach_n(
            edges,
            Set::<Seq<char>>::empty().insert(nodes[0].name@),
            nodes.len() as nat,
        );
        forall|i: int| 0 <= i < nodes.len() ==> reached.contains(#[trigger] nodes[i].name@)
    }
}

impl QueryIR {
    /// The root is one of the pattern variables.
    pub open spec fn root_exists(self) -> bool {
        has_node(self.nodes@, self.root@) || has_edge_var(self.edges@, self.root@)
    }

    /// The build-time invariants of a query IR, established by the
    /// builder and preserved thereafter (the IR is never mutated).
    pub open spec fn wf(self) -> bool {
        nodes_unique(self.nodes@) && endpoints_exist(self.nodes@, self.edges@)
            && self.root_exists() && connected(self.nodes@, self.edges@)
    }
}

/// One round of reachability: the names already reached, together with
/// every name joined to a reached name by some edge, in either
/// direction.
pub open spec fn reach_step(edges: Seq<PatternEdge>, r: Set<Seq<char>>) -> Set<Seq<char>> {
    r.union(
        Set::new(
            |x: Seq<char>|
                exists|t: int|
                    0 <= t < edges.len() && ((edges[t].src@ == x && r.contains(edges[t].dst@)) || (
                    edges[t].dst@ == x && r.contains(edges[t].src@))),
        ),
    )
}

/// `k` rounds of [`reach_step`].  With `k` at least the number of
/// nodes, this is the full reachable set: a round that adds nothing
/// has reached the fixpoint, and a round can only add names.
pub open spec fn reach_n(edges: Seq<PatternEdge>, r: Set<Seq<char>>, k: nat) -> Set<Seq<char>>
    decreases k,
{
    if k == 0 {
        r
    } else {
        reach_step(edges, reach_n(edges, r, (k - 1) as nat))
    }
}

/// The set of node names marked reached.
pub open spec fn mark_set(nodes: Seq<PatternNode>, marks: Seq<bool>) -> Set<Seq<char>> {
    Set::new(
        |x: Seq<char>|
            exists|i: int| 0 <= i < nodes.len() && i < marks.len() && marks[i] && nodes[i].name@ == x,
    )
}

/// Whether some edge joins the name of node `j` to a marked name.
pub open spec fn adjacent_marked(
    nodes: Seq<PatternNode>,
    edges: Seq<PatternEdge>,
    marks: Seq<bool>,
    j: int,
) -> bool {
    exists|t: int|
        0 <= t < edges.len() && ((edges[t].src@ == nodes[j].name@ && mark_set(nodes, marks).contains(
            edges[t].dst@,
        )) || (edges[t].dst@ == nodes[j].name@ && mark_set(nodes, marks).contains(edges[t].src@)))
}

/// Whether the named node is marked.  Node names are unique, so the
/// first index found is the only one.
fn name_marked(nodes: &Vec<PatternNode>, marks: &Vec<bool>, name: &str) -> (r: bool)
    requires
        nodes_unique(nodes@),
        marks@.len() == nodes@.len(),
    ensures
        r == mark_set(nodes@, marks@).contains(name@),
{
    match find_node(nodes, name) {
        Some(i) => {
            let m = marks[i];
            proof {
                if m {
                    assert(mark_set(nodes@, marks@).contains(name@));
                } else {
                    if mark_set(nodes@, marks@).contains(name@) {
                        let j = choose|j: int|
                            0 <= j < nodes@.len() && j < marks@.len() && marks@[j]
                                && nodes@[j].name@ == name@;
                        assert(j == i);
                    }
                }
            }
            m
        }
        None => {
            proof {
                if mark_set(nodes@, marks@).contains(name@) {
                    let j = choose|j: int|
                        0 <= j < nodes@.len() && j < marks@.len() && marks@[j] && nodes@[j].name@
                            == name@;
                }
            }
            false
        }
    }
}

/// Decides [`adjacent_marked`] for node `j`.
fn adjacent_reached(
    nodes: &Vec<PatternNode>,
    edges: &Vec<PatternEdge>,
    marks: &Vec<bool>,
    j: usize,
) -> (r: bool)
    requires
        nodes_unique(nodes@),
        marks@.len() == nodes@.len(),
        j < nodes@.len(),
    ensures
        r == adjacent_marked(nodes@, edges@, marks@, j as int),
{
    let mut t: usize = 0;
    while t < edges.len()
        invariant
            nodes_unique(nodes@),
            marks@.len() == nodes@.len(),
            j < nodes@.len(),
            t <= edges@.len(),
            forall|u: int|
                0 <= u < t ==> !((edges@[u].src@ == nodes@[j as int].name@ && mark_set(
                    nodes@,
                    marks@,
                ).contains(edges@[u].dst@)) || (edges@[u].dst@ == nodes@[j as int].name@
                    && mark_set(nodes@, marks@).contains(edges@[u].src@))),
        decreases edges@.len() - t,
    {
        let name = &nodes[j].name;
        if crate::strutil::str_eq(edges[t].src.as_str(), name.as_str()) && name_marked(
            nodes,
            marks,
            edges[t].dst.as_str(),
        ) {
            return true;
        }
        if crate::strutil::str_eq(edges[t].dst.as_str(), name.as_str()) && name_marked(
            nodes,
            marks,
            edges[t].src.as_str(),
        ) {
            return true;
        }
        t = t + 1;
    }
    false
}

/// One marking pass: a node stays marked, or becomes marked when an
/// edge joins it to a marked node.  Marks are read from the old
/// vector only, so one pass is exactly one [`reach_step`].
fn mark_pass(nodes: &Vec<PatternNode>, edges: &Vec<PatternEdge>, marks: &Vec<bool>) -> (r: Vec<
    bool,
>)
    requires
        nodes_unique(nodes@),
        endpoints_exist(nodes@, edges@),
        marks@.len() == nodes@.len(),
    ensures
        r@.len() == nodes@.len(),
        mark_set(nodes@, r@) == reach_step(edges@, mark_set(nodes@, marks@)),
{
    let mut fresh: Vec<bool> = Vec::new();
    let mut j: usize = 0;
    while j < nodes.len()
        invariant
            nodes_unique(nodes@),
            endpoints_exist(nodes@, edges@),
            marks@.len() == nodes@.len(),
            j <= nodes@.len(),
            fresh@.len() == j,
            forall|u: int|
                0 <= u < j ==> fresh@[u] == (marks@[u] || adjacent_marked(
                    nodes@,
                    edges@,
                    marks@,
                    u,
                )),
        decreases nodes@.len() - j,
    {
        let adj = adjacent_reached(nodes, edges, marks, j);
        fresh.push(marks[j] || adj);
        j = j + 1;
    }
    proof {
        let old_set = mark_set(nodes@, marks@);
        let new_set = mark_set(nodes@, fresh@);
        let step = reach_step(edges@, old_set);
        assert forall|x: Seq<char>| new_set.contains(x) implies step.contains(x) by {
            let i = choose|i: int|
                0 <= i < nodes@.len() && i < fresh@.len() && fresh@[i] && nodes@[i].name@ == x;
            if marks@[i] {
                assert(old_set.contains(x));
            } else {
                let t = choose|t: int|
                    0 <= t < edges@.len() && ((edges@[t].src@ == nodes@[i].name@ && old_set.contains(
                        edges@[t].dst@,
                    )) || (edges@[t].dst@ == nodes@[i].name@ && old_set.contains(edges@[t].src@)));
                assert(step.contains(x));
            }
        }
        assert forall|x: Seq<char>| step.contains(x) implies new_set.contains(x) by {
            if old_set.contains(x) {
                let i = choose|i: int|
                    0 <= i < nodes@.len() && i < marks@.len() && marks@[i] && nodes@[i].name@ == x;
                assert(fresh@[i]);
                assert(new_set.contains(x));
            } else {
                assert(exists|t: int|
                    0 <= t < edges@.len() && ((edges@[t].src@ == x && old_set.contains(
                        edges@[t].dst@,
                    )) || (edges@[t].dst@ == x && old_set.contains(edges@[t].src@))));
                let t = choose|t: int|
                    0 <= t < edges@.len() && ((edges@[t].src@ == x && old_set.contains(
                        edges@[t].dst@,
                    )) || (edges@[t].dst@ == x && old_set.contains(edges@[t].src@)));
                assert(has_node(nodes@, edges@[t].src@) && has_node(nodes@, edges@[t].dst@));
                let i = choose|i: int| 0 <= i < nodes@.len() && nodes@[i].name@ == x;
                assert(adjacent_marked(nodes@, edges@, marks@, i));
                assert(fresh@[i]);
                assert(new_set.contains(x));
            }
        }
        assert(new_set =~= step);
    }
    fresh
}

/// Decides weak connectivity of the pattern graph by iterating the
/// marking pass once per node, which reaches the fixpoint of
/// [`reach_step`].
pub fn check_connected(nodes: &Vec<PatternNode>, edges: &Vec<PatternEdge>) -> (r: bool)
    requires
        nodes_unique(nodes@),
        endpoints_exist(nodes@, edges@),
    ensures
        r == connected(nodes@, edges@),
{
    if nodes.len() == 0 {
        return true;
    }
    let ghost init = Set::<Seq<char>>::empty().insert(nodes@[0].name@);
    let mut marks: Vec<bool> = Vec::new();
    marks.push(true);
    let mut f: usize = 1;
    while f < nodes.len()
        invariant
            1 <= f <= nodes@.len(),
            marks@.len() == f,
            marks@[0],
            forall|u: int| 1 <= u < f ==> !marks@[u],
        decreases nodes@.len() - f,
    {
        marks.push(false);
        f = f + 1;
    }
    proof {
        assert forall|x: Seq<char>| mark_set(nodes@, marks@).contains(x) implies init.contains(x) by {
            let i = choose|i: int|
                0 <= i < nodes@.len() && i < marks@.len() && marks@[i] && nodes@[i].name@ == x;
            assert(i == 0);
        }
        assert forall|x: Seq<char>| init.contains(x) implies mark_set(nodes@, marks@).contains(x) by {
            assert(marks@[0] && nodes@[0].name@ == x);
        }
        assert(mark_set(nodes@, marks@) =~= init);
    }
    let mut k: usize = 0;
    while k < nodes.len()
        invariant
            nodes_unique(nodes@),
            endpoints_exist(nodes@, edges@),
            nodes@.len() > 0,
            init == Set::<Seq<char>>::empty().insert(nodes@[0].name@),
            k <= nodes@.len(),
            marks@.len() == nodes@.len(),
            mark_set(nodes@, marks@) == reach_n(edges@, init, k as nat),
        decreases nodes@.len() - k,
    {
        marks = mark_pass(nodes, edges, &marks);
        k = k + 1;
    }
    let ghost reached = reach_n(edges@, init, nodes@.len() as nat);
    let mut i: usize = 0;
    while i < nodes.len()
        invariant
            nodes_unique(nodes@),
            nodes@.len() > 0,
            i <= nodes@.len(),
            marks@.len() == nodes@.len(),
            mark_set(nodes@, marks@) == reached,
            reached == reach_n(edges@, init, nodes@.len() as nat),
            init == Set::<Seq<char>>::empty().insert(nodes@[0].name@),
            forall|u: int| 0 <= u < i ==> reached.contains(#[trigger] nodes@[u].name@),
        decreases nodes@.len() - i,
    {
        if !marks[i] {
            proof {
                if reached.contains(nodes@[i as int].name@) {
                    let j = choose|j: int|
                        0 <= j < nodes@.len() && j < marks@.len() && marks@[j] && nodes@[j].name@
                            == nodes@[i as int].name@;
                    assert(j == i);
                }
            }
            return false;
        }
        proof {
            assert(marks@[i as int] && nodes@[i as int].name@ == nodes@[i as int].name@);
            assert(mark_set(nodes@, marks@).contains(nodes@[i as int].name@));
        }
        i = i + 1;
    }
    true
}

/// Looks a node up by name; with unique names the index is the only
/// one.
pub fn find_node(nodes: &Vec<PatternNode>, name: &str) -> (r: Option<usize>)
    ensures
        r matches Some(i) ==> i < nodes@.len() && nodes@[i as int].name@ == name@,
        r is None ==> forall|i: int| 0 <= i < nodes@.len() ==> nodes@[i].name@ != name@,
{
    let mut i: usize = 0;
    while i < nodes.len()
        invariant
            i <= nodes@.len(),
            forall|j: int| 0 <= j < i ==> nodes@[j].name@ != name@,
        decreases nodes@.len() - i,
    {
        if crate::strutil::str_eq(nodes[i].name.as_str(), name) {
            return Some(i);
        }
        i = i + 1;
    }
    None
}

/// Looks an edge up by its variable name; the first match wins.
pub fn find_edge(edges: &Vec<PatternEdge>, name: &str) -> (r: Option<usize>)
    ensures
        r matches Some(i) ==> i < edges@.len() && edges@[i as int].name@ == name@ && (forall|j: int|
            0 <= j < i ==> edges@[j].name@ != name@),
        r is None ==> forall|i: int| 0 <= i < edges@.len() ==> edges@[i].name@ != name@,
{
    let mut i: usize = 0;
    while i < edges.len()
        invariant
            i <= edges@.len(),
            forall|j: int| 0 <= j < i ==> edges@[j].name@ != name@,
        decreases edges@.len() - i,
    {
        if crate::strutil::str_eq(edges[i].name.as_str(), name) {
            return Some(i);
        }
        i = i + 1;
    }
    None
}

} // verus!
