//! The IR builder: walks the parsed syntax tree and populates a
//! [`QueryIR`], resolving variable bindings, normalizing predicates,
//! and validating the build-time invariants.
//!
//! The parse tree hands the pattern over as a flat item list: each
//! path contributes its node and relationship patterns in source
//! order, and two node patterns in a row mark a path break.  The
//! grammar guarantees the shape in [`pattern_shape_ok`]: a pattern
//! starts and ends with a node pattern and never has two relationship
//! patterns in a row.
use crate::errors::SemanticError;
use crate::ir::AggregationSpec;
use crate::ir::PatternEdge;
use crate::ir::PatternNode;
use crate::ir::PredicateExpr;
use crate::ir::PropertyRef;
use crate::ir::QueryIR;
use crate::ir::check_connected;
use crate::ir::connected;
use crate::ir::endpoints_exist;
use crate::ir::find_edge;
use crate::ir::find_node;
use crate::ir::has_edge_var;
use crate::ir::has_node;
use crate::ir::nodes_unique;
use crate::strutil::clone_string;
use crate::strutil::clone_strings;
use crate::strutil::dec_rep;
use crate::strutil::str_eq;
use crate::strutil::u64_to_dec;
use vstd::prelude::*;

verus! {

/// One element of the flattened pattern clause.
#[derive(Debug)]
pub enum PatternItem {
    /// A node pattern; an absent variable is anonymous.
    NodePat { var: Option<String>, labels: Vec<String> },
    /// A relationship pattern between the neighbouring node patterns;
    /// `left_to_right` gives its direction in source order.
    RelPat { var: Option<String>, left_to_right: bool },
}

/// The parsed syntax tree, as the external grammar frontend hands it
/// over: the flattened pattern clause, the WHERE expression, and the
/// RETURN/aggregation clause entries.
#[derive(Debug)]
pub struct ParsedQuery {
    pub pattern: Vec<PatternItem>,
    pub where_clause: Option<PredicateExpr>,
    pub ret: Vec<AggregationSpec>,
}

/// The pattern shape the grammar guarantees: starts and ends on a
/// node pattern, no two relationship patterns in a row.
pub open spec fn pattern_shape_ok(items: Seq<PatternItem>) -> bool {
    (items.len() > 0 ==> items[0] is NodePat) && (items.len() > 0 ==> items[items.len() - 1]
        is NodePat) && (forall|k: int|
        0 <= k < items.len() - 1 ==> !((items[k] is RelPat) && (#[trigger] items[k + 1] is RelPat)))
}

/// How many anonymous node patterns precede position `k`.
pub open spec fn anon_nodes_before(items: Seq<PatternItem>, k: int) -> int
    decreases k,
{
    if k <= 0 {
        0
    } else {
        anon_nodes_before(items, k - 1) + match items[k - 1] {
            PatternItem::NodePat { var, .. } => if var is None {
                1int
            } else {
                0int
            },
            _ => 0int,
        }
    }
}

/// How many anonymous relationship patterns precede position `k`.
pub open spec fn anon_rels_before(items: Seq<PatternItem>, k: int) -> int
    decreases k,
{
    if k <= 0 {
        0
    } else {
        anon_rels_before(items, k - 1) + match items[k - 1] {
            PatternItem::RelPat { var, .. } => if var is None {
                1int
            } else {
                0int
            },
            _ => 0int,
        }
    }
}

/// The variable name item `k` resolves to: its own variable, or a
/// synthesized unique name (`_n<i>` for the `i`-th anonymous node,
/// `_e<i>` for the `i`-th anonymous relationship).
pub open spec fn item_name(items: Seq<PatternItem>, k: int) -> Seq<char> {
    match items[k] {
        PatternItem::NodePat { var, .. } => match var {
            Some(v) => v@,
            None => "_n"@ + dec_rep(anon_nodes_before(items, k)),
        },
        PatternItem::RelPat { var, .. } => match var {
            Some(v) => v@,
            None => "_e"@ + dec_rep(anon_rels_before(items, k)),
        },
    }
}

/// Whether some node pattern among the first `bound` items resolves
/// to this name.
pub open spec fn node_name_in_prefix(items: Seq<PatternItem>, bound: int, x: Seq<char>) -> bool {
    exists|k: int| 0 <= k < bound && items[k] is NodePat && item_name(items, k) == x
}

/// Whether some relationship pattern among the first `bound` items
/// resolves to this name.
pub open spec fn rel_name_in_prefix(items: Seq<PatternItem>, bound: int, x: Seq<char>) -> bool {
    exists|k: int| 0 <= k < bound && items[k] is RelPat && item_name(items, k) == x
}

/// The distinct resolved node names among the first `k` items, in
/// first-appearance order: exactly the names of the node list the
/// builder creates.
pub open spec fn node_name_list(items: Seq<PatternItem>, k: int) -> Seq<Seq<char>>
    decreases k,
{
    if k <= 0 {
        Seq::empty()
    } else {
        let prev = node_name_list(items, k - 1);
        if items[k - 1] is NodePat {
            if prev.contains(item_name(items, k - 1)) {
                prev
            } else {
                prev.push(item_name(items, k - 1))
            }
        } else {
            prev
        }
    }
}

/// The edge a relationship item resolves to, as (name, source,
/// target): its endpoints are the neighbouring node patterns'
/// resolved names, ordered by its direction.
pub open spec fn resolved_edge_model(items: Seq<PatternItem>, p: int) -> (
    Seq<char>,
    Seq<char>,
    Seq<char>,
) {
    let prev = item_name(items, last_node_before(items, p));
    let next = item_name(items, p + 1);
    match items[p] {
        PatternItem::RelPat { left_to_right, .. } => if left_to_right {
            (item_name(items, p), prev, next)
        } else {
            (item_name(items, p), next, prev)
        },
        _ => (item_name(items, p), prev, next),
    }
}

/// The edges the first `k` items resolve to, in source order.
pub open spec fn resolved_edges(items: Seq<PatternItem>, k: int) -> Seq<
    (Seq<char>, Seq<char>, Seq<char>),
>
    decreases k,
{
    if k <= 0 {
        Seq::empty()
    } else if items[k - 1] is RelPat {
        resolved_edges(items, k - 1).push(resolved_edge_model(items, k - 1))
    } else {
        resolved_edges(items, k - 1)
    }
}

/// The node list carries exactly these names, in order.
pub open spec fn nodes_named(nodes: Seq<PatternNode>, names: Seq<Seq<char>>) -> bool {
    nodes.len() == names.len() && forall|i: int|
        0 <= i < nodes.len() ==> (#[trigger] nodes[i]).name@ == names[i]
}

/// The edge list carries exactly these names and endpoints, in order.
pub open spec fn edges_modelled(
    edges: Seq<PatternEdge>,
    models: Seq<(Seq<char>, Seq<char>, Seq<char>)>,
) -> bool {
    edges.len() == models.len() && forall|i: int|
        0 <= i < edges.len() ==> ((#[trigger] edges[i]).name@, edges[i].src@, edges[i].dst@)
            == models[i]
}

/// One round of reachability over edge models; mirrors
/// [`crate::ir::reach_step`].
pub open spec fn reach_step_names(
    models: Seq<(Seq<char>, Seq<char>, Seq<char>)>,
    r: Set<Seq<char>>,
) -> Set<Seq<char>> {
    r.union(
        Set::new(
            |x: Seq<char>|
                exists|t: int|
                    0 <= t < models.len() && ((models[t].1 == x && r.contains(models[t].2)) || (
                    models[t].2 == x && r.contains(models[t].1))),
        ),
    )
}

/// `k` rounds of [`reach_step_names`].
pub open spec fn reach_n_names(
    models: Seq<(Seq<char>, Seq<char>, Seq<char>)>,
    r: Set<Seq<char>>,
    k: nat,
) -> Set<Seq<char>>
    decreases k,
{
    if k == 0 {
        r
    } else {
        reach_step_names(models, reach_n_names(models, r, (k - 1) as nat))
    }
}

/// Weak connectivity of the resolved pattern, stated over the parse
/// items alone.
pub open spec fn pattern_connected(items: Seq<PatternItem>) -> bool {
    let names = node_name_list(items, items.len() as int);
    let models = resolved_edges(items, items.len() as int);
    names.len() == 0 || {
        let reached = reach_n_names(
            models,
            Set::<Seq<char>>::empty().insert(names[0]),
            names.len() as nat,
        );
        forall|i: int| 0 <= i < names.len() ==> reached.contains(#[trigger] names[i])
    }
}

/// Reachability over the edge structs and over their models agree.
proof fn lemma_reach_names_eq(
    edges: Seq<PatternEdge>,
    models: Seq<(Seq<char>, Seq<char>, Seq<char>)>,
    r: Set<Seq<char>>,
    k: nat,
)
    requires
        edges_modelled(edges, models),
    ensures
        crate::ir::reach_n(edges, r, k) == reach_n_names(models, r, k),
    decreases k,
{
    if k > 0 {
        lemma_reach_names_eq(edges, models, r, (k - 1) as nat);
        let s = crate::ir::reach_n(edges, r, (k - 1) as nat);
        let a = crate::ir::reach_step(edges, s);
        let b = reach_step_names(models, s);
        assert forall|x: Seq<char>| a.contains(x) implies b.contains(x) by {
            if !s.contains(x) {
                let t = choose|t: int|
                    0 <= t < edges.len() && ((edges[t].src@ == x && s.contains(edges[t].dst@)) || (
                    edges[t].dst@ == x && s.contains(edges[t].src@)));
                assert((edges[t].name@, edges[t].src@, edges[t].dst@) == models[t]);
                assert((models[t].1 == x && s.contains(models[t].2)) || (models[t].2 == x
                    && s.contains(models[t].1)));
            }
        }
        assert forall|x: Seq<char>| b.contains(x) implies a.contains(x) by {
            if !s.contains(x) {
                let t = choose|t: int|
                    0 <= t < models.len() && ((models[t].1 == x && s.contains(models[t].2)) || (
                    models[t].2 == x && s.contains(models[t].1)));
                assert((edges[t].name@, edges[t].src@, edges[t].dst@) == models[t]);
                assert((edges[t].src@ == x && s.contains(edges[t].dst@)) || (edges[t].dst@ == x
                    && s.contains(edges[t].src@)));
            }
        }
        assert(a =~= b);
    }
}

/// Connectivity of the built graph equals connectivity of the
/// resolved pattern model.
proof fn lemma_pattern_connected(
    items: Seq<PatternItem>,
    nodes: Seq<PatternNode>,
    edges: Seq<PatternEdge>,
)
    requires
        nodes_named(nodes, node_name_list(items, items.len() as int)),
        edges_modelled(edges, resolved_edges(items, items.len() as int)),
    ensures
        connected(nodes, edges) == pattern_connected(items),
{
    let names = node_name_list(items, items.len() as int);
    let models = resolved_edges(items, items.len() as int);
    if nodes.len() > 0 {
        assert(nodes[0].name@ == names[0]);
        lemma_reach_names_eq(
            edges,
            models,
            Set::<Seq<char>>::empty().insert(names[0]),
            nodes.len() as nat,
        );
        let reached = reach_n_names(
            models,
            Set::<Seq<char>>::empty().insert(names[0]),
            names.len() as nat,
        );
        if connected(nodes, edges) {
            assert forall|i: int| 0 <= i < names.len() implies reached.contains(
                #[trigger] names[i],
            ) by {
                assert(reached.contains(nodes[i].name@));
            }
        }
        if pattern_connected(items) {
            assert forall|i: int| 0 <= i < nodes.len() implies reached.contains(
                #[trigger] nodes[i].name@,
            ) by {
                assert(reached.contains(names[i]));
            }
        }
    }
}

/// The index of the last node pattern strictly before `k`, or -1.
pub open spec fn last_node_before(items: Seq<PatternItem>, k: int) -> int
    decreases k,
{
    if k <= 0 {
        -1
    } else if items[k - 1] is NodePat {
        k - 1
    } else {
        last_node_before(items, k - 1)
    }
}

/// Resolves the pattern items into the IR's node and edge lists.
///
/// Every distinct node variable becomes one [`PatternNode`] (a name
/// seen again refers to the node already created, whose labels stand);
/// every relationship pattern becomes one [`PatternEdge`] joining the
/// neighbouring node names, endpoints ordered by its direction.  All
/// predicates start empty; the WHERE clause attaches them later.
pub fn resolve_pattern(items: &Vec<PatternItem>) -> (r: (Vec<PatternNode>, Vec<PatternEdge>))
    requires
        pattern_shape_ok(items@),
    ensures
        nodes_unique(r.0@),
        endpoints_exist(r.0@, r.1@),
        forall|x: Seq<char>|
            #[trigger] has_node(r.0@, x) <==> node_name_in_prefix(items@, items@.len() as int, x),
        forall|x: Seq<char>|
            #[trigger] has_edge_var(r.1@, x) <==> rel_name_in_prefix(
                items@,
                items@.len() as int,
                x,
            ),
        nodes_named(r.0@, node_name_list(items@, items@.len() as int)),
        edges_modelled(r.1@, resolved_edges(items@, items@.len() as int)),
{
    let mut nodes: Vec<PatternNode> = Vec::new();
    let mut edges: Vec<PatternEdge> = Vec::new();
    let mut anon_n: u64 = 0;
    let mut anon_e: u64 = 0;
    let mut pending: Option<(String, bool)> = None;
    let mut last_name: Option<String> = None;
    let mut i: usize = 0;
    while i < items.len()
        invariant
            pattern_shape_ok(items@),
            i <= items@.len(),
            anon_n == anon_nodes_before(items@, i as int),
            anon_e == anon_rels_before(items@, i as int),
            anon_n <= i,
            anon_e <= i,
            nodes_unique(nodes@),
            endpoints_exist(nodes@, edges@),
            // a pending relationship is exactly a relationship at i-1
            pending is Some <==> (i > 0 && items@[i as int - 1] is RelPat),
            pending matches Some(p) ==> p.0@ == item_name(items@, i as int - 1),
            pending matches Some(p) ==> (items@[i as int - 1] matches PatternItem::RelPat {
                left_to_right,
                ..
            } && p.1 == left_to_right),
            // the resolved model collected so far
            nodes_named(nodes@, node_name_list(items@, i as int)),
            edges_modelled(
                edges@,
                resolved_edges(
                    items@,
                    if pending is Some {
                        i as int - 1
                    } else {
                        i as int
                    },
                ),
            ),
            // the last node seen, for joining a pending relationship
            last_name is Some <==> last_node_before(items@, i as int) >= 0,
            last_name matches Some(nm) ==> nm@ == item_name(
                items@,
                last_node_before(items@, i as int),
            ) && has_node(nodes@, nm@),
            // names collected so far
            forall|x: Seq<char>|
                #[trigger] has_node(nodes@, x) <==> node_name_in_prefix(items@, i as int, x),
            forall|x: Seq<char>|
                #[trigger] has_edge_var(edges@, x) <==> (rel_name_in_prefix(items@, i as int, x)
                    && !(pending matches Some(p) && p.0@ == x && !rel_name_in_prefix(
                    items@,
                    i as int - 1,
                    x,
                ))),
        decreases items@.len() - i,
    {
        match &items[i] {
            PatternItem::NodePat { var, labels } => {
                let name: String;
                match var {
                    Some(v) => {
                        name = clone_string(v);
                    }
                    None => {
                        let mut s = String::from_str("_n");
                        let digits = u64_to_dec(anon_n);
                        s.append(digits.as_str());
                        name = s;
                        anon_n = anon_n + 1;
                    }
                }
                assert(name@ == item_name(items@, i as int));
                let ghost pre_nodes = nodes@;
                match find_node(&nodes, name.as_str()) {
                    None => {
                        nodes.push(
                            PatternNode {
                                name: clone_string(&name),
                                labels: clone_strings(labels),
                                predicates: Vec::new(),
                            },
                        );
                        proof {
                            let n = nodes@.len() - 1;
                            assert(nodes@[n].name@ == name@);
                            assert(has_node(nodes@, name@));
                            assert forall|a: int, b: int| 0 <= a < b < nodes@.len() implies nodes@[a].name@
                                != nodes@[b].name@ by {
                                if b == n {
                                    assert(pre_nodes[a].name@ != name@);
                                }
                            }
                            let lst = node_name_list(items@, i as int);
                            if lst.contains(name@) {
                                let idx = choose|idx: int|
                                    0 <= idx < lst.len() && lst[idx] == name@;
                                assert(pre_nodes[idx].name@ == name@);
                                assert(false);
                            }
                            assert(node_name_list(items@, i as int + 1) == lst.push(name@));
                            assert(nodes_named(nodes@, node_name_list(items@, i as int + 1)));
                        }
                    }
                    Some(k) => {
                        proof {
                            assert(nodes@[k as int].name@ == name@);
                            assert(has_node(nodes@, name@));
                            let lst = node_name_list(items@, i as int);
                            assert(lst[k as int] == name@);
                            assert(lst.contains(name@));
                            assert(node_name_list(items@, i as int + 1) == lst);
                        }
                    }
                }
                proof {
                    assert forall|x: Seq<char>| has_node(pre_nodes, x) implies #[trigger] has_node(
                        nodes@,
                        x,
                    ) by {
                        let j = choose|j: int|
                            0 <= j < pre_nodes.len() && pre_nodes[j].name@ == x;
                        assert(nodes@[j].name@ == x);
                    }
                    assert forall|x: Seq<char>| #[trigger] has_node(nodes@, x) implies (has_node(
                        pre_nodes,
                        x,
                    ) || x == name@) by {
                        let j = choose|j: int| 0 <= j < nodes@.len() && nodes@[j].name@ == x;
                        if j < pre_nodes.len() {
                            assert(pre_nodes[j].name@ == x);
                        }
                    }
                    assert forall|t: int| 0 <= t < edges@.len() implies #[trigger] has_node(
                        nodes@,
                        edges@[t].src@,
                    ) && has_node(nodes@, edges@[t].dst@) by {
                        assert(has_node(pre_nodes, edges@[t].src@));
                        assert(has_node(pre_nodes, edges@[t].dst@));
                    }
                }
                match &pending {
                    Some(p) => {
                        let ename = clone_string(&p.0);
                        let ltr = p.1;
                        let prev: String;
                        match &last_name {
                            Some(nm) => {
                                prev = clone_string(nm);
                            }
                            None => {
                                // the grammar shape rules this out: a
                                // relationship always follows a node
                                proof {
                                    assert(items@[i as int - 1] is RelPat);
                                    assert(items@[0] is NodePat);
                                    assert(i as int - 1 >= 1);
                                    assert(!((items@[i as int - 2] is RelPat) && (items@[i as int
                                        - 2 + 1] is RelPat)));
                                    assert(items@[i as int - 2] is NodePat);
                                    assert(last_node_before(items@, i as int) == last_node_before(
                                        items@,
                                        i as int - 1,
                                    ));
                                    assert(last_node_before(items@, i as int - 1) == i as int - 2);
                                    assert(false);
                                }
                                prev = String::new();
                            }
                        }
                        assert(has_node(nodes@, prev@));
                        let ghost pre_edges = edges@;
                        let e = if ltr {
                            PatternEdge {
                                name: ename,
                                src: prev,
                                dst: clone_string(&name),
                                predicates: Vec::new(),
                            }
                        } else {
                            PatternEdge {
                                name: ename,
                                src: clone_string(&name),
                                dst: prev,
                                predicates: Vec::new(),
                            }
                        };
                        edges.push(e);
                        proof {
                            let t = edges@.len() - 1;
                            assert(edges@[t].name@ == item_name(items@, i as int - 1));
                            assert(has_node(nodes@, edges@[t].src@));
                            assert(has_node(nodes@, edges@[t].dst@));
                            // the pushed edge is exactly the resolved model
                            // of the relationship at i-1
                            assert(items@[i as int - 1] is RelPat);
                            assert(last_node_before(items@, i as int) == last_node_before(
                                items@,
                                i as int - 1,
                            ));
                            assert(prev@ == item_name(
                                items@,
                                last_node_before(items@, i as int - 1),
                            ));
                            assert(name@ == item_name(items@, i as int));
                            let model = resolved_edge_model(items@, i as int - 1);
                            assert((edges@[t].name@, edges@[t].src@, edges@[t].dst@) == model);
                            assert(resolved_edges(items@, i as int) == resolved_edges(
                                items@,
                                i as int - 1,
                            ).push(model));
                            assert(resolved_edges(items@, i as int + 1) == resolved_edges(
                                items@,
                                i as int,
                            ));
                            assert forall|j: int|
                                0 <= j < edges@.len() implies ((#[trigger] edges@[j]).name@,
                            edges@[j].src@, edges@[j].dst@) == resolved_edges(
                                items@,
                                i as int + 1,
                            )[j] by {
                                if j < t {
                                    assert(edges@[j] == pre_edges[j]);
                                    assert((pre_edges[j].name@, pre_edges[j].src@, pre_edges[j].dst@)
                                        == resolved_edges(items@, i as int - 1)[j]);
                                }
                            }
                            assert(edges_modelled(edges@, resolved_edges(items@, i as int + 1)));
                            assert forall|x: Seq<char>| has_edge_var(pre_edges, x)
                                implies #[trigger] has_edge_var(edges@, x) by {
                                let j = choose|j: int|
                                    0 <= j < pre_edges.len() && pre_edges[j].name@ == x;
                                assert(edges@[j].name@ == x);
                            }
                            assert forall|x: Seq<char>| #[trigger] has_edge_var(edges@, x)
                                implies rel_name_in_prefix(items@, i as int + 1, x) by {
                                let j = choose|j: int|
                                    0 <= j < edges@.len() && edges@[j].name@ == x;
                                if j < pre_edges.len() {
                                    assert(has_edge_var(pre_edges, x));
                                    assert(rel_name_in_prefix(items@, i as int, x));
                                    let k = choose|k: int|
                                        0 <= k < i as int && items@[k] is RelPat && item_name(
                                            items@,
                                            k,
                                        ) == x;
                                    assert(rel_name_in_prefix(items@, i as int + 1, x));
                                } else {
                                    assert(x == item_name(items@, i as int - 1));
                                    assert(items@[i as int - 1] is RelPat);
                                    assert(rel_name_in_prefix(items@, i as int + 1, x));
                                }
                            }
                            assert forall|x: Seq<char>|
                                rel_name_in_prefix(items@, i as int + 1, x)
                                    implies #[trigger] has_edge_var(edges@, x) by {
                                let k = choose|k: int|
                                    0 <= k < i as int + 1 && items@[k] is RelPat && item_name(
                                        items@,
                                        k,
                                    ) == x;
                                if has_edge_var(pre_edges, x) {
                                    let j = choose|j: int|
                                        0 <= j < pre_edges.len() && pre_edges[j].name@ == x;
                                    assert(edges@[j].name@ == x);
                                } else {
                                    // the old prefix rule leaves only the
                                    // pending name, which this push added
                                    assert(k < i as int);
                                    if x != item_name(items@, i as int - 1)
                                        || rel_name_in_prefix(items@, i as int - 1, x) {
                                        assert(rel_name_in_prefix(items@, i as int, x));
                                        assert(has_edge_var(pre_edges, x));
                                    }
                                    assert(edges@[t].name@ == x);
                                }
                            }
                        }
                    }
                    None => {
                        proof {
                            assert(resolved_edges(items@, i as int + 1) == resolved_edges(
                                items@,
                                i as int,
                            ));
                        }
                    }
                }
                pending = None;
                last_name = Some(name);
            }
            PatternItem::RelPat { var, left_to_right } => {
                proof {
                    if i as int >= 1 && items@[i as int - 1] is RelPat {
                        assert(!((items@[i as int - 1] is RelPat) && (items@[i as int - 1 + 1]
                            is RelPat)));
                        assert(false);
                    }
                }
                let ename: String;
                match var {
                    Some(v) => {
                        ename = clone_string(v);
                    }
                    None => {
                        let mut s = String::from_str("_e");
                        let digits = u64_to_dec(anon_e);
                        s.append(digits.as_str());
                        ename = s;
                        anon_e = anon_e + 1;
                    }
                }
                assert(ename@ == item_name(items@, i as int));
                pending = Some((ename, *left_to_right));
                proof {
                    let ghost pname = item_name(items@, i as int);
                    assert forall|x: Seq<char>| #[trigger] has_edge_var(edges@, x) implies (
                    rel_name_in_prefix(items@, i as int + 1, x) && !(x == pname
                        && !rel_name_in_prefix(items@, i as int, x))) by {
                        assert(rel_name_in_prefix(items@, i as int, x));
                        let k = choose|k: int|
                            0 <= k < i as int && items@[k] is RelPat && item_name(items@, k) == x;
                        assert(rel_name_in_prefix(items@, i as int + 1, x));
                    }
                    assert forall|x: Seq<char>|
                        (rel_name_in_prefix(items@, i as int + 1, x) && !(x == pname
                            && !rel_name_in_prefix(items@, i as int, x)))
                            implies #[trigger] has_edge_var(edges@, x) by {
                        if x == pname {
                            assert(rel_name_in_prefix(items@, i as int, x));
                        } else {
                            let k = choose|k: int|
                                0 <= k < i as int + 1 && items@[k] is RelPat && item_name(
                                    items@,
                                    k,
                                ) == x;
                            assert(k != i as int);
                            assert(rel_name_in_prefix(items@, i as int, x));
                        }
                    }
                }
            }
        }
        i = i + 1;
    }
    (nodes, edges)
}

/// The variables a property-reference list mentions, in order, first
/// `k` entries.
pub open spec fn ref_vars(args: Seq<PropertyRef>, k: int) -> Seq<Seq<char>>
    decreases k,
{
    if k <= 0 {
        Seq::empty()
    } else {
        ref_vars(args, k - 1).push(args[k - 1].var@)
    }
}

/// Every variable a predicate expression mentions, in source order,
/// with repetitions.
pub open spec fn var_seq(e: PredicateExpr) -> Seq<Seq<char>>
    decreases e,
{
    match e {
        PredicateExpr::Lit(_) => Seq::empty(),
        PredicateExpr::Prop(p) => seq![p.var@],
        PredicateExpr::Cmp { lhs, rhs, .. } => var_seq(*lhs) + var_seq(*rhs),
        PredicateExpr::Arith { lhs, rhs, .. } => var_seq(*lhs) + var_seq(*rhs),
        PredicateExpr::And(l, r) => var_seq(*l) + var_seq(*r),
        PredicateExpr::Or(l, r) => var_seq(*l) + var_seq(*r),
        PredicateExpr::Not(x) => var_seq(*x),
        PredicateExpr::Udf { args, .. } => ref_vars(args@, args@.len() as int),
    }
}

/// Whether a predicate constrains exactly one variable (possibly
/// mentioned several times).
pub open spec fn single_var(e: PredicateExpr) -> bool {
    var_seq(e).len() > 0 && forall|i: int|
        0 <= i < var_seq(e).len() ==> #[trigger] var_seq(e)[i] == var_seq(e)[0]
}

/// The attachment policy for a top-level WHERE conjunct: a predicate
/// over exactly one node variable is evaluated at that node's hop.
pub open spec fn attaches_to_node(e: PredicateExpr, nodes: Seq<PatternNode>) -> bool {
    single_var(e) && has_node(nodes, var_seq(e)[0])
}

/// A predicate over exactly one edge variable is evaluated at the hop
/// observing that edge.
pub open spec fn attaches_to_edge(
    e: PredicateExpr,
    nodes: Seq<PatternNode>,
    edges: Seq<PatternEdge>,
) -> bool {
    single_var(e) && !has_node(nodes, var_seq(e)[0]) && has_edge_var(edges, var_seq(e)[0])
}

/// The views of a list of owned strings.
pub open spec fn names_of(v: Seq<String>) -> Seq<Seq<char>> {
    v.map_values(|s: String| s@)
}

/// Appends every variable the predicate mentions, in order.
fn collect_vars(e: &PredicateExpr, acc: &mut Vec<String>)
    ensures
        names_of(final(acc)@) == names_of(old(acc)@) + var_seq(*e),
    decreases *e,
{
    match e {
        PredicateExpr::Lit(_) => {
            proof {
                assert(names_of(acc@) =~= names_of(acc@) + Seq::<Seq<char>>::empty());
            }
        }
        PredicateExpr::Prop(p) => {
            acc.push(clone_string(&p.var));
            proof {
                assert(names_of(acc@) =~= names_of(old(acc)@) + seq![p.var@]);
            }
        }
        PredicateExpr::Cmp { lhs, rhs, .. } => {
            collect_vars(lhs, acc);
            collect_vars(rhs, acc);
            proof {
                assert(names_of(old(acc)@) + (var_seq(**lhs) + var_seq(**rhs)) =~= (names_of(
                    old(acc)@,
                ) + var_seq(**lhs)) + var_seq(**rhs));
            }
        }
        PredicateExpr::Arith { lhs, rhs, .. } => {
            collect_vars(lhs, acc);
            collect_vars(rhs, acc);
            proof {
                assert(names_of(old(acc)@) + (var_seq(**lhs) + var_seq(**rhs)) =~= (names_of(
                    old(acc)@,
                ) + var_seq(**lhs)) + var_seq(**rhs));
            }
        }
        PredicateExpr::And(l, r) => {
            collect_vars(l, acc);
            collect_vars(r, acc);
            proof {
                assert(names_of(old(acc)@) + (var_seq(**l) + var_seq(**r)) =~= (names_of(old(acc)@)
                    + var_seq(**l)) + var_seq(**r));
            }
        }
        PredicateExpr::Or(l, r) => {
            collect_vars(l, acc);
            collect_vars(r, acc);
            proof {
                assert(names_of(old(acc)@) + (var_seq(**l) + var_seq(**r)) =~= (names_of(old(acc)@)
                    + var_seq(**l)) + var_seq(**r));
            }
        }
        PredicateExpr::Not(x) => {
            collect_vars(x, acc);
        }
        PredicateExpr::Udf { args, .. } => {
            let mut j: usize = 0;
            while j < args.len()
                invariant
                    j <= args@.len(),
                    names_of(acc@) == names_of(old(acc)@) + ref_vars(args@, j as int),
                decreases args@.len() - j,
            {
                let ghost prev = acc@;
                acc.push(clone_string(&args[j].var));
                proof {
                    assert(ref_vars(args@, j as int + 1) == ref_vars(args@, j as int).push(
                        args@[j as int].var@,
                    ));
                    assert(names_of(acc@) =~= names_of(prev).push(args@[j as int].var@));
                    assert(names_of(acc@) =~= names_of(old(acc)@) + ref_vars(args@, j as int + 1));
                }
                j = j + 1;
            }
        }
    }
}

/// The one variable a single-variable predicate constrains, if any.
fn single_var_of(e: &PredicateExpr) -> (r: Option<String>)
    ensures
        r matches Some(v) ==> single_var(*e) && v@ == var_seq(*e)[0],
        r is None ==> !single_var(*e),
{
    let mut vars: Vec<String> = Vec::new();
    collect_vars(e, &mut vars);
    proof {
        assert(names_of(vars@) =~= var_seq(*e));
    }
    if vars.len() == 0 {
        return None;
    }
    let mut j: usize = 1;
    while j < vars.len()
        invariant
            names_of(vars@) == var_seq(*e),
            1 <= j <= vars@.len(),
            vars@.len() == var_seq(*e).len(),
            forall|t: int| 0 <= t < j ==> #[trigger] var_seq(*e)[t] == var_seq(*e)[0],
        decreases vars@.len() - j,
    {
        if !str_eq(vars[j].as_str(), vars[0].as_str()) {
            proof {
                assert(var_seq(*e)[j as int] != var_seq(*e)[0]);
            }
            return None;
        }
        j = j + 1;
    }
    Some(clone_string(&vars[0]))
}

/// Splits a normalized WHERE expression into its top-level conjuncts.
pub open spec fn conjuncts_spec(e: PredicateExpr) -> Seq<PredicateExpr>
    decreases e,
{
    match e {
        PredicateExpr::And(l, r) => conjuncts_spec(*l) + conjuncts_spec(*r),
        _ => seq![e],
    }
}

/// Flattens the WHERE expression into its top-level conjuncts, each
/// attached separately.
pub fn conjuncts_of(e: PredicateExpr) -> (r: Vec<PredicateExpr>)
    ensures
        r@ == conjuncts_spec(e),
    decreases e,
{
    match e {
        PredicateExpr::And(l, r) => {
            let mut v = conjuncts_of(*l);
            let mut w = conjuncts_of(*r);
            v.append(&mut w);
            v
        }
        other => {
            let mut v: Vec<PredicateExpr> = Vec::new();
            v.push(other);
            proof {
                assert(v@ =~= conjuncts_spec(e));
            }
            v
        }
    }
}

/// Attaches one conjunct per the policy: to its node if it constrains
/// one node variable, else to the first edge of that name if it
/// constrains one edge variable, else it stays at the query level — a
/// predicate over several variables cannot be evaluated by one proxy
/// alone.
#[verifier::rlimit(60)]
pub fn attach_conjunct(
    nodes: &mut Vec<PatternNode>,
    edges: &mut Vec<PatternEdge>,
    qpreds: &mut Vec<PredicateExpr>,
    c: PredicateExpr,
)
    requires
        nodes_unique(old(nodes)@),
    ensures
        final(nodes)@.len() == old(nodes)@.len(),
        final(edges)@.len() == old(edges)@.len(),
        forall|i: int|
            0 <= i < final(nodes)@.len() ==> (#[trigger] final(nodes)@[i]).name@ == old(nodes)@[i].name@ && final(nodes)@[i].labels@ == old(nodes)@[i].labels@,
        forall|i: int|
            0 <= i < final(edges)@.len() ==> (#[trigger] final(edges)@[i]).name@ == old(edges)@[i].name@ && final(edges)@[i].src@ == old(edges)@[i].src@ && final(edges)@[i].dst@
                == old(edges)@[i].dst@,
        attaches_to_node(c, old(nodes)@) ==> final(edges)@ == old(edges)@ && final(qpreds)@ == old(qpreds)@ && exists|i: int|
            0 <= i < final(nodes)@.len() && old(nodes)@[i].name@ == var_seq(c)[0] && final(nodes)@[i].predicates@ == old(nodes)@[i].predicates@.push(c) && (forall|j: int|
                0 <= j < final(nodes)@.len() && j != i ==> final(nodes)@[j] == old(nodes)@[j]),
        attaches_to_edge(c, old(nodes)@, old(edges)@) ==> final(nodes)@ == old(nodes)@ && final(qpreds)@ == old(qpreds)@ && exists|i: int|
            0 <= i < final(edges)@.len() && old(edges)@[i].name@ == var_seq(c)[0] && (forall|j: int|
                0 <= j < i ==> old(edges)@[j].name@ != var_seq(c)[0]) && final(edges)@[i].predicates@
                == old(edges)@[i].predicates@.push(c) && (forall|j: int|
                0 <= j < final(edges)@.len() && j != i ==> final(edges)@[j] == old(edges)@[j]),
        (!attaches_to_node(c, old(nodes)@) && !attaches_to_edge(c, old(nodes)@, old(edges)@))
            ==> final(nodes)@ == old(nodes)@ && final(edges)@ == old(edges)@ && final(qpreds)@
            == old(qpreds)@.push(c),
{
    match single_var_of(&c) {
        Some(v) => {
            match find_node(nodes, v.as_str()) {
                Some(i) => {
                    let ghost pre = nodes@;
                    let mut nd = nodes.remove(i);
                    nd.predicates.push(c);
                    nodes.insert(i, nd);
                    proof {
                        assert(nodes@.len() == pre.len());
                        assert(nodes@[i as int].predicates@ == pre[i as int].predicates@.push(c));
                        assert forall|j: int| 0 <= j < nodes@.len() && j != i implies nodes@[j]
                            == pre[j] by {
                            if j < i {
                                assert(nodes@[j] == pre.remove(i as int)[j]);
                            } else {
                                assert(nodes@[j] == pre.remove(i as int)[j - 1]);
                            }
                        }
                    }
                }
                None => {
                    match find_edge(edges, v.as_str()) {
                        Some(i) => {
                            let ghost pre = edges@;
                            let mut ed = edges.remove(i);
                            ed.predicates.push(c);
                            edges.insert(i, ed);
                            proof {
                                assert(edges@.len() == pre.len());
                                assert(edges@[i as int].predicates@ == pre[i as int].predicates@
                                    .push(c));
                                assert forall|j: int| 0 <= j < edges@.len() && j != i
                                    implies edges@[j] == pre[j] by {
                                    if j < i {
                                        assert(edges@[j] == pre.remove(i as int)[j]);
                                    } else {
                                        assert(edges@[j] == pre.remove(i as int)[j - 1]);
                                    }
                                }
                            }
                        }
                        None => {
                            qpreds.push(c);
                        }
                    }
                }
            }
        }
        None => {
            qpreds.push(c);
        }
    }
}

/// Whether two property references name the same variable and
/// property.
pub open spec fn prop_ref_eq(a: PropertyRef, b: PropertyRef) -> bool {
    a.var@ == b.var@ && a.prop@ == b.prop@
}

/// Element-wise equality of property-reference lists.
pub open spec fn refs_eq(a: Seq<PropertyRef>, b: Seq<PropertyRef>) -> bool {
    a.len() == b.len() && forall|i: int| 0 <= i < a.len() ==> prop_ref_eq(#[trigger] a[i], b[i])
}

/// Structural equality of aggregation specifications, strings by
/// contents.
pub open spec fn agg_eq_spec(a: AggregationSpec, b: AggregationSpec) -> bool {
    match a {
        AggregationSpec::Count => b is Count,
        AggregationSpec::Average(p) => b matches AggregationSpec::Average(q) && prop_ref_eq(p, q),
        AggregationSpec::HistogramByDepth => b is HistogramByDepth,
        AggregationSpec::HistogramByBreadth => b is HistogramByBreadth,
        AggregationSpec::CustomUdf { name, args } => b matches AggregationSpec::CustomUdf {
            name: n2,
            args: a2,
        } && name@ == n2@ && refs_eq(args@, a2@),
    }
}

/// Decides [`prop_ref_eq`].
fn prop_ref_eq_exec(a: &PropertyRef, b: &PropertyRef) -> (r: bool)
    ensures
        r == prop_ref_eq(*a, *b),
{
    str_eq(a.var.as_str(), b.var.as_str()) && str_eq(a.prop.as_str(), b.prop.as_str())
}

/// Decides [`refs_eq`].
fn refs_eq_exec(a: &Vec<PropertyRef>, b: &Vec<PropertyRef>) -> (r: bool)
    ensures
        r == refs_eq(a@, b@),
{
    if a.len() != b.len() {
        return false;
    }
    let mut i: usize = 0;
    while i < a.len()
        invariant
            a@.len() == b@.len(),
            i <= a@.len(),
            forall|j: int| 0 <= j < i ==> prop_ref_eq(#[trigger] a@[j], b@[j]),
        decreases a@.len() - i,
    {
        if !prop_ref_eq_exec(&a[i], &b[i]) {
            return false;
        }
        i = i + 1;
    }
    true
}

/// Decides [`agg_eq_spec`].
pub fn agg_eq(a: &AggregationSpec, b: &AggregationSpec) -> (r: bool)
    ensures
        r == agg_eq_spec(*a, *b),
{
    match a {
        AggregationSpec::Count => matches!(b, AggregationSpec::Count),
        AggregationSpec::Average(p) => match b {
            AggregationSpec::Average(q) => prop_ref_eq_exec(p, q),
            _ => false,
        },
        AggregationSpec::HistogramByDepth => matches!(b, AggregationSpec::HistogramByDepth),
        AggregationSpec::HistogramByBreadth => matches!(b, AggregationSpec::HistogramByBreadth),
        AggregationSpec::CustomUdf { name, args } => match b {
            AggregationSpec::CustomUdf { name: n2, args: a2 } => str_eq(name.as_str(), n2.as_str())
                && refs_eq_exec(args, a2),
            _ => false,
        },
    }
}

/// Two node/edge lists describe the same graph: equal lengths, equal
/// names, equal endpoints.  Predicate attachment changes nothing else.
pub open spec fn same_graph_shape(
    nodes1: Seq<PatternNode>,
    edges1: Seq<PatternEdge>,
    nodes2: Seq<PatternNode>,
    edges2: Seq<PatternEdge>,
) -> bool {
    nodes1.len() == nodes2.len() && edges1.len() == edges2.len() && (forall|i: int|
        0 <= i < nodes1.len() ==> (#[trigger] nodes2[i]).name@ == nodes1[i].name@) && (forall|
        i: int,
    |
        0 <= i < edges1.len() ==> (#[trigger] edges2[i]).name@ == edges1[i].name@ && edges2[i].src@
            == edges1[i].src@ && edges2[i].dst@ == edges1[i].dst@)
}

/// A reachability round sees only edge endpoints, so graphs of the
/// same shape take the same rounds.
proof fn lemma_reach_n_eq(
    edges1: Seq<PatternEdge>,
    edges2: Seq<PatternEdge>,
    r: Set<Seq<char>>,
    k: nat,
)
    requires
        edges1.len() == edges2.len(),
        forall|i: int|
            0 <= i < edges1.len() ==> (#[trigger] edges2[i]).src@ == edges1[i].src@
                && edges2[i].dst@ == edges1[i].dst@,
    ensures
        crate::ir::reach_n(edges1, r, k) == crate::ir::reach_n(edges2, r, k),
    decreases k,
{
    if k > 0 {
        lemma_reach_n_eq(edges1, edges2, r, (k - 1) as nat);
        let s = crate::ir::reach_n(edges1, r, (k - 1) as nat);
        let a = crate::ir::reach_step(edges1, s);
        let b = crate::ir::reach_step(edges2, s);
        assert forall|x: Seq<char>| a.contains(x) implies b.contains(x) by {
            if !s.contains(x) {
                let t = choose|t: int|
                    0 <= t < edges1.len() && ((edges1[t].src@ == x && s.contains(edges1[t].dst@))
                        || (edges1[t].dst@ == x && s.contains(edges1[t].src@)));
                assert((edges2[t].src@ == x && s.contains(edges2[t].dst@)) || (edges2[t].dst@ == x
                    && s.contains(edges2[t].src@)));
            }
        }
        assert forall|x: Seq<char>| b.contains(x) implies a.contains(x) by {
            if !s.contains(x) {
                let t = choose|t: int|
                    0 <= t < edges2.len() && ((edges2[t].src@ == x && s.contains(edges2[t].dst@))
                        || (edges2[t].dst@ == x && s.contains(edges2[t].src@)));
                assert((edges1[t].src@ == x && s.contains(edges1[t].dst@)) || (edges1[t].dst@ == x
                    && s.contains(edges1[t].src@)));
            }
        }
        assert(a =~= b);
    }
}

/// Folds the per-edge endpoint facts back into [`endpoints_exist`].
proof fn lemma_endpoints_fold(nodes: Seq<PatternNode>, edges: Seq<PatternEdge>)
    requires
        forall|t: int|
            0 <= t < edges.len() ==> #[trigger] has_node(nodes, edges[t].src@) && has_node(
                nodes,
                edges[t].dst@,
            ),
    ensures
        endpoints_exist(nodes, edges),
{
}

/// Everything the build-time checks look at — name presence,
/// uniqueness, endpoint existence, connectivity — depends only on the
/// graph shape.
#[verifier::rlimit(100)]
#[verifier::spinoff_prover]
proof fn lemma_same_shape_checks(
    nodes1: Seq<PatternNode>,
    edges1: Seq<PatternEdge>,
    nodes2: Seq<PatternNode>,
    edges2: Seq<PatternEdge>,
)
    requires
        same_graph_shape(nodes1, edges1, nodes2, edges2),
    ensures
        forall|x: Seq<char>| #[trigger] has_node(nodes1, x) == has_node(nodes2, x),
        forall|x: Seq<char>| #[trigger] has_edge_var(edges1, x) == has_edge_var(edges2, x),
        nodes_unique(nodes1) == nodes_unique(nodes2),
        endpoints_exist(nodes1, edges1) == endpoints_exist(nodes2, edges2),
        connected(nodes1, edges1) == connected(nodes2, edges2),
{
    assert forall|x: Seq<char>| #[trigger] has_node(nodes1, x) == has_node(nodes2, x) by {
        if has_node(nodes1, x) {
            let j = choose|j: int| 0 <= j < nodes1.len() && nodes1[j].name@ == x;
            assert(nodes2[j].name@ == x);
        }
        if has_node(nodes2, x) {
            let j = choose|j: int| 0 <= j < nodes2.len() && nodes2[j].name@ == x;
            assert(nodes1[j].name@ == x);
        }
    }
    assert forall|x: Seq<char>| #[trigger] has_edge_var(edges1, x) == has_edge_var(edges2, x) by {
        if has_edge_var(edges1, x) {
            let j = choose|j: int| 0 <= j < edges1.len() && edges1[j].name@ == x;
            assert(edges2[j].name@ == x);
        }
        if has_edge_var(edges2, x) {
            let j = choose|j: int| 0 <= j < edges2.len() && edges2[j].name@ == x;
            assert(edges1[j].name@ == x);
        }
    }
    if endpoints_exist(nodes1, edges1) {
        assert forall|t: int| 0 <= t < edges2.len() implies #[trigger] has_node(
            nodes2,
            edges2[t].src@,
        ) && has_node(nodes2, edges2[t].dst@) by {
            assert(0 <= t < edges1.len());
            assert(edges2[t].src@ == edges1[t].src@ && edges2[t].dst@ == edges1[t].dst@);
            assert(has_node(nodes1, edges1[t].src@) && has_node(nodes1, edges1[t].dst@));
            assert(has_node(nodes2, edges1[t].src@) && has_node(nodes2, edges1[t].dst@));
            assert(has_node(nodes2, edges2[t].src@) && has_node(nodes2, edges2[t].dst@));
        }
        lemma_endpoints_fold(nodes2, edges2);
    }
    if endpoints_exist(nodes2, edges2) {
        assert forall|t: int| 0 <= t < edges1.len() implies #[trigger] has_node(
            nodes1,
            edges1[t].src@,
        ) && has_node(nodes1, edges1[t].dst@) by {
            assert(0 <= t < edges2.len());
            assert(edges2[t].src@ == edges1[t].src@ && edges2[t].dst@ == edges1[t].dst@);
            assert(has_node(nodes2, edges2[t].src@) && has_node(nodes2, edges2[t].dst@));
            assert(has_node(nodes1, edges2[t].src@) && has_node(nodes1, edges2[t].dst@));
            assert(has_node(nodes1, edges1[t].src@) && has_node(nodes1, edges1[t].dst@));
        }
        lemma_endpoints_fold(nodes1, edges1);
    }
    if nodes1.len() > 0 {
        lemma_reach_n_eq(
            edges1,
            edges2,
            Set::<Seq<char>>::empty().insert(nodes1[0].name@),
            nodes1.len() as nat,
        );
        assert(nodes2[0].name@ == nodes1[0].name@);
        let reached = crate::ir::reach_n(
            edges1,
            Set::<Seq<char>>::empty().insert(nodes1[0].name@),
            nodes1.len() as nat,
        );
        assert forall|i: int| 0 <= i < nodes1.len() implies (reached.contains(
            #[trigger] nodes1[i].name@,
        ) == reached.contains(nodes2[i].name@)) by {
            assert(nodes2[i].name@ == nodes1[i].name@);
        }
        if connected(nodes1, edges1) {
            assert forall|i: int| 0 <= i < nodes2.len() implies reached.contains(
                #[trigger] nodes2[i].name@,
            ) by {
                assert(reached.contains(nodes1[i].name@));
            }
        }
        if connected(nodes2, edges2) {
            assert forall|i: int| 0 <= i < nodes1.len() implies reached.contains(
                #[trigger] nodes1[i].name@,
            ) by {
                assert(reached.contains(nodes2[i].name@));
            }
        }
    }
}

/// A conjunct that no single variable owns stays at the query level.
pub open spec fn is_query_level(
    c: PredicateExpr,
    nodes: Seq<PatternNode>,
    edges: Seq<PatternEdge>,
) -> bool {
    !attaches_to_node(c, nodes) && !attaches_to_edge(c, nodes, edges)
}

/// The conjunct lands on node `i`: it constrains exactly that node's
/// variable.
pub open spec fn node_target(c: PredicateExpr, nodes: Seq<PatternNode>, i: int) -> bool {
    attaches_to_node(c, nodes) && 0 <= i < nodes.len() && nodes[i].name@ == var_seq(c)[0]
}

/// The conjunct lands on edge `i`: it constrains that edge's
/// variable, and `i` is the first edge of that name.
pub open spec fn edge_target(
    c: PredicateExpr,
    nodes: Seq<PatternNode>,
    edges: Seq<PatternEdge>,
    i: int,
) -> bool {
    attaches_to_edge(c, nodes, edges) && 0 <= i < edges.len() && edges[i].name@ == var_seq(c)[0]
        && (forall|j: int| 0 <= j < i ==> edges[j].name@ != var_seq(c)[0])
}

/// The top-level conjuncts of an optional WHERE expression.
pub open spec fn where_conjuncts(w: Option<PredicateExpr>) -> Seq<PredicateExpr> {
    match w {
        Some(e) => conjuncts_spec(e),
        None => Seq::empty(),
    }
}

/// Filtering distributes over a push.
proof fn lemma_filter_push(s: Seq<PredicateExpr>, p: spec_fn(PredicateExpr) -> bool, x: PredicateExpr)
    ensures
        s.push(x).filter(p) == (if p(x) {
            s.filter(p).push(x)
        } else {
            s.filter(p)
        }),
{
    reveal_with_fuel(Seq::filter, 2);
    assert(s.push(x).drop_last() =~= s);
    assert(s.push(x).last() == x);
}

/// Filtering an empty sequence yields an empty sequence.
proof fn lemma_filter_empty(p: spec_fn(PredicateExpr) -> bool)
    ensures
        Seq::<PredicateExpr>::empty().filter(p) == Seq::<PredicateExpr>::empty(),
{
    reveal_with_fuel(Seq::filter, 2);
}

/// Structural equality of an aggregation with itself.
proof fn lemma_agg_eq_refl(a: AggregationSpec)
    ensures
        agg_eq_spec(a, a),
{
}

/// Assembles a query IR from the resolved pattern and the remaining
/// clauses.  Validation order: root existence, weak connectivity,
/// aggregation compatibility; the first failure aborts the build.  A
/// return clause is compatible exactly when all its entries agree.
pub fn assemble(
    nodes: Vec<PatternNode>,
    edges: Vec<PatternEdge>,
    where_clause: Option<PredicateExpr>,
    ret: Vec<AggregationSpec>,
    root_id: &str,
) -> (r: Result<QueryIR, SemanticError>)
    requires
        nodes_unique(nodes@),
        endpoints_exist(nodes@, edges@),
        ret@.len() >= 1,
    ensures
        (r matches Err(e) && e is UnknownRootError) <==> (!has_node(nodes@, root_id@)
            && !has_edge_var(edges@, root_id@)),
        r matches Err(SemanticError::UnknownRootError { root }) ==> root@ == root_id@,
        (r matches Err(e) && e is DisconnectedPatternError) <==> ((has_node(nodes@, root_id@)
            || has_edge_var(edges@, root_id@)) && !connected(nodes@, edges@)),
        (r matches Err(e) && e is IncompatibleAggregationError) <==> ((has_node(nodes@, root_id@)
            || has_edge_var(edges@, root_id@)) && connected(nodes@, edges@) && exists|j: int|
            0 <= j < ret@.len() && !agg_eq_spec(#[trigger] ret@[j], ret@[0])),
        r is Ok <==> ((has_node(nodes@, root_id@) || has_edge_var(edges@, root_id@)) && connected(
            nodes@,
            edges@,
        ) && forall|j: int| 0 <= j < ret@.len() ==> agg_eq_spec(#[trigger] ret@[j], ret@[0])),
        r matches Ok(ir) ==> ir.wf() && ir.root@ == root_id@ && agg_eq_spec(ir.agg, ret@[0])
            && same_graph_shape(nodes@, edges@, ir.nodes@, ir.edges@),
        r matches Ok(ir) ==> ir.query_predicates@ == where_conjuncts(where_clause).filter(
            |c: PredicateExpr| is_query_level(c, nodes@, edges@),
        ),
        r matches Ok(ir) ==> forall|i: int|
            0 <= i < nodes@.len() ==> (#[trigger] ir.nodes@[i]).predicates@ == nodes@[i].predicates@
                + where_conjuncts(where_clause).filter(
                |c: PredicateExpr| node_target(c, nodes@, i),
            ),
        r matches Ok(ir) ==> forall|i: int|
            0 <= i < edges@.len() ==> (#[trigger] ir.edges@[i]).predicates@ == edges@[i].predicates@
                + where_conjuncts(where_clause).filter(
                |c: PredicateExpr| edge_target(c, nodes@, edges@, i),
            ),
{
    let root_in_nodes: bool;
    match find_node(&nodes, root_id) {
        Some(i) => {
            proof {
                assert(nodes@[i as int].name@ == root_id@);
            }
            root_in_nodes = true;
        }
        None => {
            proof {
                if has_node(nodes@, root_id@) {
                    let j = choose|j: int| 0 <= j < nodes@.len() && nodes@[j].name@ == root_id@;
                    assert(false);
                }
            }
            root_in_nodes = false;
        }
    }
    let root_in_edges: bool;
    match find_edge(&edges, root_id) {
        Some(i) => {
            proof {
                assert(edges@[i as int].name@ == root_id@);
            }
            root_in_edges = true;
        }
        None => {
            proof {
                if has_edge_var(edges@, root_id@) {
                    let j = choose|j: int| 0 <= j < edges@.len() && edges@[j].name@ == root_id@;
                    assert(false);
                }
            }
            root_in_edges = false;
        }
    }
    if !root_in_nodes && !root_in_edges {
        return Err(SemanticError::UnknownRootError { root: String::from_str(root_id) });
    }
    if !check_connected(&nodes, &edges) {
        return Err(SemanticError::DisconnectedPatternError);
    }
    let mut j: usize = 1;
    while j < ret.len()
        invariant
            1 <= j <= ret@.len(),
            ret@.len() >= 1,
            has_node(nodes@, root_id@) || has_edge_var(edges@, root_id@),
            connected(nodes@, edges@),
            forall|t: int| 0 <= t < j ==> agg_eq_spec(#[trigger] ret@[t], ret@[0]),
        decreases ret@.len() - j,
    {
        if !agg_eq(&ret[j], &ret[0]) {
            return Err(SemanticError::IncompatibleAggregationError);
        }
        j = j + 1;
    }
    proof {
        lemma_agg_eq_refl(ret@[0]);
    }
    let mut nodes2 = nodes;
    let mut edges2 = edges;
    let mut qpreds: Vec<PredicateExpr> = Vec::new();
    let mut cs: Vec<PredicateExpr> = match where_clause {
        Some(e) => conjuncts_of(e),
        None => Vec::new(),
    };
    let ghost full = cs@;
    let ghost mut processed: Seq<PredicateExpr> = Seq::empty();
    proof {
        assert(full == where_conjuncts(where_clause));
        lemma_filter_empty(|c: PredicateExpr| is_query_level(c, nodes@, edges@));
        assert(qpreds@ =~= processed.filter(|c: PredicateExpr| is_query_level(c, nodes@, edges@)));
        assert forall|i: int| 0 <= i < nodes@.len() implies (#[trigger] nodes2@[i]).predicates@
            == nodes@[i].predicates@ + processed.filter(
            |c: PredicateExpr| node_target(c, nodes@, i),
        ) by {
            lemma_filter_empty(|c: PredicateExpr| node_target(c, nodes@, i));
            assert(nodes2@[i].predicates@ =~= nodes@[i].predicates@ + Seq::<
                PredicateExpr,
            >::empty());
        }
        assert forall|i: int| 0 <= i < edges@.len() implies (#[trigger] edges2@[i]).predicates@
            == edges@[i].predicates@ + processed.filter(
            |c: PredicateExpr| edge_target(c, nodes@, edges@, i),
        ) by {
            lemma_filter_empty(|c: PredicateExpr| edge_target(c, nodes@, edges@, i));
            assert(edges2@[i].predicates@ =~= edges@[i].predicates@ + Seq::<
                PredicateExpr,
            >::empty());
        }
    }
    while cs.len() > 0
        invariant
            nodes_unique(nodes@),
            endpoints_exist(nodes@, edges@),
            has_node(nodes@, root_id@) || has_edge_var(edges@, root_id@),
            connected(nodes@, edges@),
            ret@.len() >= 1,
            forall|t: int| 0 <= t < ret@.len() ==> agg_eq_spec(#[trigger] ret@[t], ret@[0]),
            same_graph_shape(nodes@, edges@, nodes2@, edges2@),
            nodes_unique(nodes2@),
            processed + cs@ == full,
            qpreds@ == processed.filter(|c: PredicateExpr| is_query_level(c, nodes@, edges@)),
            forall|i: int|
                0 <= i < nodes@.len() ==> (#[trigger] nodes2@[i]).predicates@
                    == nodes@[i].predicates@ + processed.filter(
                    |c: PredicateExpr| node_target(c, nodes@, i),
                ),
            forall|i: int|
                0 <= i < edges@.len() ==> (#[trigger] edges2@[i]).predicates@
                    == edges@[i].predicates@ + processed.filter(
                    |c: PredicateExpr| edge_target(c, nodes@, edges@, i),
                ),
        decreases cs@.len(),
    {
        let c = cs.remove(0);
        let ghost pre_n = nodes2@;
        let ghost pre_e = edges2@;
        let ghost pre_p = processed;
        attach_conjunct(&mut nodes2, &mut edges2, &mut qpreds, c);
        proof {
            processed = processed.push(c);
            assert(processed + cs@ =~= full);
            assert forall|i: int| 0 <= i < nodes@.len() implies (#[trigger] nodes2@[i]).name@
                == nodes@[i].name@ by {
                assert(nodes2@[i].name@ == pre_n[i].name@);
            }
            assert forall|i: int| 0 <= i < edges@.len() implies (#[trigger] edges2@[i]).name@
                == edges@[i].name@ && edges2@[i].src@ == edges@[i].src@ && edges2@[i].dst@
                == edges@[i].dst@ by {
                assert(edges2@[i].name@ == pre_e[i].name@);
                assert(edges2@[i].src@ == pre_e[i].src@);
                assert(edges2@[i].dst@ == pre_e[i].dst@);
            }
            assert forall|a: int, b: int| 0 <= a < b < nodes2@.len() implies nodes2@[a].name@
                != nodes2@[b].name@ by {
                assert(nodes@[a].name@ != nodes@[b].name@);
            }
            // the attach decision over the working lists equals the
            // decision over the input lists: only names matter
            lemma_same_shape_checks(nodes@, edges@, pre_n, pre_e);
            if single_var(c) {
                let v0 = var_seq(c)[0];
                assert(has_node(nodes@, v0) == has_node(pre_n, v0));
                assert(has_edge_var(edges@, v0) == has_edge_var(pre_e, v0));
            }
            assert(attaches_to_node(c, pre_n) == attaches_to_node(c, nodes@));
            assert(attaches_to_edge(c, pre_n, pre_e) == attaches_to_edge(c, nodes@, edges@));
            let qp = |cc: PredicateExpr| is_query_level(cc, nodes@, edges@);
            lemma_filter_push(pre_p, qp, c);
            if attaches_to_node(c, nodes@) {
                let i0 = choose|i: int|
                    0 <= i < nodes2@.len() && pre_n[i].name@ == var_seq(c)[0]
                        && nodes2@[i].predicates@ == pre_n[i].predicates@.push(c) && (forall|j: int|
                        0 <= j < nodes2@.len() && j != i ==> nodes2@[j] == pre_n[j]);
                assert(!qp(c));
                assert(qpreds@ == processed.filter(qp));
                assert forall|i: int| 0 <= i < nodes@.len() implies (#[trigger] nodes2@[i]).predicates@
                    == nodes@[i].predicates@ + processed.filter(
                    |cc: PredicateExpr| node_target(cc, nodes@, i),
                ) by {
                    let np = |cc: PredicateExpr| node_target(cc, nodes@, i);
                    lemma_filter_push(pre_p, np, c);
                    if i == i0 {
                        assert(np(c));
                        assert((nodes@[i].predicates@ + pre_p.filter(np)).push(c)
                            =~= nodes@[i].predicates@ + pre_p.filter(np).push(c));
                    } else {
                        assert(nodes@[i].name@ != nodes@[i0 as int].name@);
                        assert(!np(c));
                        assert(nodes2@[i] == pre_n[i]);
                    }
                }
                assert forall|i: int| 0 <= i < edges@.len() implies (#[trigger] edges2@[i]).predicates@
                    == edges@[i].predicates@ + processed.filter(
                    |cc: PredicateExpr| edge_target(cc, nodes@, edges@, i),
                ) by {
                    let ep = |cc: PredicateExpr| edge_target(cc, nodes@, edges@, i);
                    lemma_filter_push(pre_p, ep, c);
                    assert(!ep(c));
                }
            } else if attaches_to_edge(c, nodes@, edges@) {
                let i0 = choose|i: int|
                    0 <= i < edges2@.len() && pre_e[i].name@ == var_seq(c)[0] && (forall|j: int|
                        0 <= j < i ==> pre_e[j].name@ != var_seq(c)[0]) && edges2@[i].predicates@
                        == pre_e[i].predicates@.push(c) && (forall|j: int|
                        0 <= j < edges2@.len() && j != i ==> edges2@[j] == pre_e[j]);
                assert(!qp(c));
                assert(qpreds@ == processed.filter(qp));
                assert forall|i: int| 0 <= i < edges@.len() implies (#[trigger] edges2@[i]).predicates@
                    == edges@[i].predicates@ + processed.filter(
                    |cc: PredicateExpr| edge_target(cc, nodes@, edges@, i),
                ) by {
                    let ep = |cc: PredicateExpr| edge_target(cc, nodes@, edges@, i);
                    lemma_filter_push(pre_p, ep, c);
                    if i == i0 {
                        assert(edges@[i].name@ == pre_e[i].name@);
                        assert forall|j: int| 0 <= j < i implies edges@[j].name@ != var_seq(
                            c,
                        )[0] by {
                            assert(edges@[j].name@ == pre_e[j].name@);
                        }
                        assert(ep(c));
                        assert((edges@[i].predicates@ + pre_p.filter(ep)).push(c)
                            =~= edges@[i].predicates@ + pre_p.filter(ep).push(c));
                    } else {
                        if ep(c) {
                            // two first-match indices cannot differ
                            assert(edges@[i].name@ == pre_e[i].name@);
                            if i < i0 {
                                assert(pre_e[i].name@ != var_seq(c)[0]);
                            } else {
                                assert(edges@[i0 as int].name@ != var_seq(c)[0]);
                                assert(pre_e[i0 as int].name@ == var_seq(c)[0]);
                            }
                            assert(false);
                        }
                        assert(edges2@[i] == pre_e[i]);
                    }
                }
                assert forall|i: int| 0 <= i < nodes@.len() implies (#[trigger] nodes2@[i]).predicates@
                    == nodes@[i].predicates@ + processed.filter(
                    |cc: PredicateExpr| node_target(cc, nodes@, i),
                ) by {
                    let np = |cc: PredicateExpr| node_target(cc, nodes@, i);
                    lemma_filter_push(pre_p, np, c);
                    assert(!np(c));
                }
            } else {
                assert(qp(c));
                assert(qpreds@ =~= processed.filter(qp));
                assert forall|i: int| 0 <= i < nodes@.len() implies (#[trigger] nodes2@[i]).predicates@
                    == nodes@[i].predicates@ + processed.filter(
                    |cc: PredicateExpr| node_target(cc, nodes@, i),
                ) by {
                    let np = |cc: PredicateExpr| node_target(cc, nodes@, i);
                    lemma_filter_push(pre_p, np, c);
                    assert(!np(c));
                }
                assert forall|i: int| 0 <= i < edges@.len() implies (#[trigger] edges2@[i]).predicates@
                    == edges@[i].predicates@ + processed.filter(
                    |cc: PredicateExpr| edge_target(cc, nodes@, edges@, i),
                ) by {
                    let ep = |cc: PredicateExpr| edge_target(cc, nodes@, edges@, i);
                    lemma_filter_push(pre_p, ep, c);
                    assert(!ep(c));
                }
            }
        }
    }
    proof {
        assert(processed =~= full);
    }
    proof {
        lemma_same_shape_checks(nodes@, edges@, nodes2@, edges2@);
    }
    let mut retv = ret;
    let agg = retv.remove(0);
    let ir = QueryIR {
        nodes: nodes2,
        edges: edges2,
        query_predicates: qpreds,
        agg,
        root: String::from_str(root_id),
    };
    proof {
        assert(has_node(ir.nodes@, ir.root@) || has_edge_var(ir.edges@, ir.root@));
    }
    Ok(ir)
}

/// Builds the query IR from a parsed syntax tree and the designated
/// root identifier, or fails with the semantic error the input
/// deserves.  Building is a pure transformation: the same parse tree
/// and root always build the same IR.
pub fn build(parsed: ParsedQuery, root_id: &str) -> (r: Result<QueryIR, SemanticError>)
    requires
        pattern_shape_ok(parsed.pattern@),
        parsed.ret@.len() >= 1,
    ensures
        r matches Ok(ir) ==> ir.wf() && ir.root@ == root_id@ && agg_eq_spec(
            ir.agg,
            parsed.ret@[0],
        ),
        r matches Ok(ir) ==> forall|x: Seq<char>|
            #[trigger] has_node(ir.nodes@, x) <==> node_name_in_prefix(
                parsed.pattern@,
                parsed.pattern@.len() as int,
                x,
            ),
        r matches Ok(ir) ==> forall|x: Seq<char>|
            #[trigger] has_edge_var(ir.edges@, x) <==> rel_name_in_prefix(
                parsed.pattern@,
                parsed.pattern@.len() as int,
                x,
            ),
        (r matches Err(e) && e is UnknownRootError) <==> (!node_name_in_prefix(
            parsed.pattern@,
            parsed.pattern@.len() as int,
            root_id@,
        ) && !rel_name_in_prefix(parsed.pattern@, parsed.pattern@.len() as int, root_id@)),
        r matches Err(SemanticError::UnknownRootError { root }) ==> root@ == root_id@,
        (r matches Err(e) && e is DisconnectedPatternError) <==> ((node_name_in_prefix(
            parsed.pattern@,
            parsed.pattern@.len() as int,
            root_id@,
        ) || rel_name_in_prefix(parsed.pattern@, parsed.pattern@.len() as int, root_id@))
            && !pattern_connected(parsed.pattern@)),
        (r matches Err(e) && e is IncompatibleAggregationError) <==> ((node_name_in_prefix(
            parsed.pattern@,
            parsed.pattern@.len() as int,
            root_id@,
        ) || rel_name_in_prefix(parsed.pattern@, parsed.pattern@.len() as int, root_id@))
            && pattern_connected(parsed.pattern@) && exists|j: int|
            0 <= j < parsed.ret@.len() && !agg_eq_spec(#[trigger] parsed.ret@[j], parsed.ret@[0])),
        r is Ok <==> ((node_name_in_prefix(
            parsed.pattern@,
            parsed.pattern@.len() as int,
            root_id@,
        ) || rel_name_in_prefix(parsed.pattern@, parsed.pattern@.len() as int, root_id@))
            && pattern_connected(parsed.pattern@) && forall|j: int|
            0 <= j < parsed.ret@.len() ==> agg_eq_spec(#[trigger] parsed.ret@[j], parsed.ret@[0])),
        r matches Err(e) ==> (e is UnknownRootError || e is DisconnectedPatternError
            || e is IncompatibleAggregationError),
{
    let (nodes, edges) = resolve_pattern(&parsed.pattern);
    let r = assemble(nodes, edges, parsed.where_clause, parsed.ret, root_id);
    proof {
        lemma_pattern_connected(parsed.pattern@, nodes@, edges@);
        if r is Ok {
            let irg = r->Ok_0;
            lemma_same_shape_checks(nodes@, edges@, irg.nodes@, irg.edges@);
            assert forall|x: Seq<char>| #[trigger] has_node(irg.nodes@, x) <==> node_name_in_prefix(
                parsed.pattern@,
                parsed.pattern@.len() as int,
                x,
            ) by {
                assert(has_node(nodes@, x) == has_node(irg.nodes@, x));
            }
            assert forall|x: Seq<char>| #[trigger] has_edge_var(irg.edges@, x)
                <==> rel_name_in_prefix(parsed.pattern@, parsed.pattern@.len() as int, x) by {
                assert(has_edge_var(edges@, x) == has_edge_var(irg.edges@, x));
            }
        }
    }
    r
}

} // verus!
