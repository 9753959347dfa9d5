//! User-defined functions: parsing a binding from a raw source body
//! and matching declared signatures against use sites.
//!
//! A UDF source must open with its declared call signature,
//! `fn <name>(<parameters>)`; the binding records the name, the
//! arity, and the raw body, which the code generators splice into
//! their output unread.
use crate::errors::SemanticError;
use crate::ir::AggregationSpec;
use crate::ir::PredicateExpr;
use crate::ir::QueryIR;
use crate::strutil::clone_string;
use crate::strutil::str_eq;
use vstd::prelude::*;

verus! {

/// An external function bound by name, arity and declared signature;
/// the IR records the binding, never the meaning of the body.
#[derive(Debug)]
pub struct UdfBinding {
    pub name: String,
    pub arity: usize,
    pub body: String,
}

/// First position of `c` at or after `k`, if any.
pub open spec fn find_from(s: Seq<char>, c: char, k: int) -> Option<int>
    decreases s.len() - k,
{
    if k < 0 || k >= s.len() {
        None
    } else if s[k] == c {
        Some(k)
    } else {
        find_from(s, c, k + 1)
    }
}

/// How many times `c` occurs in `s[from..to]`.
pub open spec fn count_in(s: Seq<char>, c: char, from: int, to: int) -> int
    decreases to - from,
{
    if from >= to {
        0
    } else {
        count_in(s, c, from, to - 1) + if 0 <= to - 1 < s.len() && s[to - 1] == c {
            1int
        } else {
            0int
        }
    }
}

/// The declared name and arity of a UDF source: it must open with
/// `fn `, the name runs to the first `(`, and the arity is the number
/// of comma-separated parameters to the first `)`.
pub open spec fn parse_udf_spec(s: Seq<char>) -> Option<(Seq<char>, int)> {
    if s.len() >= 3 && s[0] == 'f' && s[1] == 'n' && s[2] == ' ' {
        match find_from(s, '(', 3) {
            None => None,
            Some(p) => if p == 3 {
                None
            } else {
                match find_from(s, ')', p + 1) {
                    None => None,
                    Some(q) => Some(
                        (
                            s.subrange(3, p),
                            if q == p + 1 {
                                0int
                            } else {
                                1 + count_in(s, ',', p + 1, q)
                            },
                        ),
                    ),
                }
            },
        }
    } else {
        None
    }
}

/// First position of `c` at or after `from`, executable.
fn find_char(s: &str, n: usize, c: char, from: usize) -> (r: Option<usize>)
    requires
        n == s@.len(),
        from <= n,
    ensures
        (match r {
            Some(i) => Some(i as int),
            None => None,
        }) == find_from(s@, c, from as int),
        r matches Some(i) ==> from <= i < n,
{
    let mut i: usize = from;
    while i < n
        invariant
            n == s@.len(),
            from <= i <= n,
            find_from(s@, c, from as int) == find_from(s@, c, i as int),
        decreases n - i,
    {
        if s.get_char(i) == c {
            return Some(i);
        }
        i = i + 1;
    }
    None
}

/// Parses the declared signature of a UDF source into its binding.
pub fn parse_udf(src: &str) -> (r: Option<UdfBinding>)
    ensures
        r matches Some(b) ==> parse_udf_spec(src@) == Some((b.name@, b.arity as int)) && b.body@
            == src@,
        r is None ==> parse_udf_spec(src@) is None,
{
    let n = src.unicode_len();
    if n < 3 {
        return None;
    }
    if !(src.get_char(0) == 'f' && src.get_char(1) == 'n' && src.get_char(2) == ' ') {
        return None;
    }
    let p = match find_char(src, n, '(', 3) {
        Some(p) => p,
        None => {
            return None;
        }
    };
    if p == 3 {
        return None;
    }
    let q = match find_char(src, n, ')', p + 1) {
        Some(q) => q,
        None => {
            return None;
        }
    };
    let arity: usize;
    if q == p + 1 {
        arity = 0;
        proof {
            assert(parse_udf_spec(src@) == Some((src@.subrange(3, p as int), 0int)));
        }
    } else {
        let mut commas: usize = 0;
        let mut i: usize = p + 1;
        while i < q
            invariant
                p + 1 <= i <= q,
                q < n,
                n == src@.len(),
                commas == count_in(src@, ',', p as int + 1, i as int),
                commas <= i,
            decreases q - i,
        {
            if src.get_char(i) == ',' {
                commas = commas + 1;
            }
            proof {
                assert(count_in(src@, ',', p as int + 1, i as int + 1) == count_in(
                    src@,
                    ',',
                    p as int + 1,
                    i as int,
                ) + if src@[i as int] == ',' {
                    1int
                } else {
                    0int
                });
            }
            i = i + 1;
        }
        if commas == usize::MAX {
            // cannot happen: there are fewer commas than characters
            proof {
                assert(false);
            }
            return None;
        }
        arity = commas + 1;
    }
    let name = String::from_str(src.substring_char(3, p));
    let body = String::from_str(src);
    Some(UdfBinding { name, arity, body })
}

/// The use sites of user-defined functions in a predicate: each as
/// declared name and applied arity.
pub open spec fn udf_uses(e: PredicateExpr) -> Seq<(Seq<char>, int)>
    decreases e,
{
    match e {
        PredicateExpr::Udf { name, args } => seq![(name@, args@.len() as int)],
        PredicateExpr::Cmp { lhs, rhs, .. } => udf_uses(*lhs) + udf_uses(*rhs),
        PredicateExpr::Arith { lhs, rhs, .. } => udf_uses(*lhs) + udf_uses(*rhs),
        PredicateExpr::And(l, r) => udf_uses(*l) + udf_uses(*r),
        PredicateExpr::Or(l, r) => udf_uses(*l) + udf_uses(*r),
        PredicateExpr::Not(x) => udf_uses(*x),
        _ => Seq::empty(),
    }
}

/// The use sites in the first `k` predicates of a list.
pub open spec fn uses_in_preds(preds: Seq<PredicateExpr>, k: int) -> Seq<(Seq<char>, int)>
    decreases k,
{
    if k <= 0 {
        Seq::empty()
    } else {
        uses_in_preds(preds, k - 1) + udf_uses(preds[k - 1])
    }
}

/// The use site of the aggregation clause, if it names a UDF.
pub open spec fn agg_use(a: AggregationSpec) -> Seq<(Seq<char>, int)> {
    match a {
        AggregationSpec::CustomUdf { name, args } => seq![(name@, args@.len() as int)],
        _ => Seq::empty(),
    }
}

/// A use site resolves against the bindings: same name, same arity.
pub open spec fn use_resolves(u: (Seq<char>, int), udfs: Seq<UdfBinding>) -> bool {
    exists|b: int| 0 <= b < udfs.len() && udfs[b].name@ == u.0 && udfs[b].arity as int == u.1
}

/// Every use site in the list resolves.
pub open spec fn all_resolve(uses: Seq<(Seq<char>, int)>, udfs: Seq<UdfBinding>) -> bool {
    forall|j: int| 0 <= j < uses.len() ==> use_resolves(#[trigger] uses[j], udfs)
}

/// The views of collected use sites.
pub open spec fn uses_view(v: Seq<(String, usize)>) -> Seq<(Seq<char>, int)> {
    v.map_values(|p: (String, usize)| (p.0@, p.1 as int))
}

/// Appends every UDF use site of the predicate, in order.
fn collect_uses(e: &PredicateExpr, acc: &mut Vec<(String, usize)>)
    ensures
        uses_view(final(acc)@) == uses_view(old(acc)@) + udf_uses(*e),
    decreases *e,
{
    match e {
        PredicateExpr::Udf { name, args } => {
            acc.push((clone_string(name), args.len()));
            proof {
                assert(uses_view(acc@) =~= uses_view(old(acc)@) + udf_uses(*e));
            }
        }
        PredicateExpr::Cmp { lhs, rhs, .. } => {
            collect_uses(lhs, acc);
            collect_uses(rhs, acc);
            proof {
                assert(uses_view(old(acc)@) + (udf_uses(**lhs) + udf_uses(**rhs)) =~= (uses_view(
                    old(acc)@,
                ) + udf_uses(**lhs)) + udf_uses(**rhs));
            }
        }
        PredicateExpr::Arith { lhs, rhs, .. } => {
            collect_uses(lhs, acc);
            collect_uses(rhs, acc);
            proof {
                assert(uses_view(old(acc)@) + (udf_uses(**lhs) + udf_uses(**rhs)) =~= (uses_view(
                    old(acc)@,
                ) + udf_uses(**lhs)) + udf_uses(**rhs));
            }
        }
        PredicateExpr::And(l, r) => {
            collect_uses(l, acc);
            collect_uses(r, acc);
            proof {
                assert(uses_view(old(acc)@) + (udf_uses(**l) + udf_uses(**r)) =~= (uses_view(
                    old(acc)@,
                ) + udf_uses(**l)) + udf_uses(**r));
            }
        }
        PredicateExpr::Or(l, r) => {
            collect_uses(l, acc);
            collect_uses(r, acc);
            proof {
                assert(uses_view(old(acc)@) + (udf_uses(**l) + udf_uses(**r)) =~= (uses_view(
                    old(acc)@,
                ) + udf_uses(**l)) + udf_uses(**r));
            }
        }
        PredicateExpr::Not(x) => {
            collect_uses(x, acc);
        }
        _ => {
            proof {
                assert(uses_view(acc@) =~= uses_view(acc@) + Seq::<(Seq<char>, int)>::empty());
            }
        }
    }
}

/// Appends the use sites of every predicate in the list.
fn collect_uses_preds(preds: &Vec<PredicateExpr>, acc: &mut Vec<(String, usize)>)
    ensures
        uses_view(final(acc)@) == uses_view(old(acc)@) + uses_in_preds(preds@, preds@.len() as int),
{
    let mut k: usize = 0;
    while k < preds.len()
        invariant
            k <= preds@.len(),
            uses_view(acc@) == uses_view(old(acc)@) + uses_in_preds(preds@, k as int),
        decreases preds@.len() - k,
    {
        collect_uses(&preds[k], acc);
        proof {
            assert(uses_view(old(acc)@) + (uses_in_preds(preds@, k as int) + udf_uses(
                preds@[k as int],
            )) =~= (uses_view(old(acc)@) + uses_in_preds(preds@, k as int)) + udf_uses(
                preds@[k as int],
            ));
        }
        k = k + 1;
    }
}

/// The use sites a whole query makes: node predicates, then edge
/// predicates, then query-level predicates, then the aggregation.
pub open spec fn node_uses(nodes: Seq<crate::ir::PatternNode>, k: int) -> Seq<(Seq<char>, int)>
    decreases k,
{
    if k <= 0 {
        Seq::empty()
    } else {
        node_uses(nodes, k - 1) + uses_in_preds(
            nodes[k - 1].predicates@,
            nodes[k - 1].predicates@.len() as int,
        )
    }
}

pub open spec fn edge_uses(edges: Seq<crate::ir::PatternEdge>, k: int) -> Seq<(Seq<char>, int)>
    decreases k,
{
    if k <= 0 {
        Seq::empty()
    } else {
        edge_uses(edges, k - 1) + uses_in_preds(
            edges[k - 1].predicates@,
            edges[k - 1].predicates@.len() as int,
        )
    }
}

pub open spec fn query_uses(ir: QueryIR) -> Seq<(Seq<char>, int)> {
    node_uses(ir.nodes@, ir.nodes@.len() as int) + edge_uses(ir.edges@, ir.edges@.len() as int)
        + uses_in_preds(ir.query_predicates@, ir.query_predicates@.len() as int) + agg_use(ir.agg)
}

/// Collects every UDF use site of the query, in a fixed order.
fn collect_query_uses(ir: &QueryIR) -> (r: Vec<(String, usize)>)
    ensures
        uses_view(r@) == query_uses(*ir),
{
    let mut acc: Vec<(String, usize)> = Vec::new();
    proof {
        assert(uses_view(acc@) =~= Seq::<(Seq<char>, int)>::empty());
    }
    let mut k: usize = 0;
    while k < ir.nodes.len()
        invariant
            k <= ir.nodes@.len(),
            uses_view(acc@) == node_uses(ir.nodes@, k as int),
        decreases ir.nodes@.len() - k,
    {
        collect_uses_preds(&ir.nodes[k].predicates, &mut acc);
        k = k + 1;
    }
    let mut t: usize = 0;
    while t < ir.edges.len()
        invariant
            t <= ir.edges@.len(),
            uses_view(acc@) == node_uses(ir.nodes@, ir.nodes@.len() as int) + edge_uses(
                ir.edges@,
                t as int,
            ),
        decreases ir.edges@.len() - t,
    {
        collect_uses_preds(&ir.edges[t].predicates, &mut acc);
        proof {
            assert(node_uses(ir.nodes@, ir.nodes@.len() as int) + (edge_uses(ir.edges@, t as int)
                + uses_in_preds(
                ir.edges@[t as int].predicates@,
                ir.edges@[t as int].predicates@.len() as int,
            )) =~= (node_uses(ir.nodes@, ir.nodes@.len() as int) + edge_uses(ir.edges@, t as int))
                + uses_in_preds(
                ir.edges@[t as int].predicates@,
                ir.edges@[t as int].predicates@.len() as int,
            ));
        }
        t = t + 1;
    }
    proof {
        assert(edge_uses(ir.edges@, 0) =~= Seq::<(Seq<char>, int)>::empty());
        assert(node_uses(ir.nodes@, ir.nodes@.len() as int) + Seq::<(Seq<char>, int)>::empty()
            =~= node_uses(ir.nodes@, ir.nodes@.len() as int));
    }
    collect_uses_preds(&ir.query_predicates, &mut acc);
    match &ir.agg {
        AggregationSpec::CustomUdf { name, args } => {
            acc.push((clone_string(name), args.len()));
        }
        _ => {}
    }
    proof {
        assert(uses_view(acc@) =~= query_uses(*ir));
    }
    acc
}

/// Checks every UDF use site of the query against the declared
/// bindings: a use must name a binding of the same arity, else the
/// query fails with a signature mismatch before any code generation.
pub fn check_signatures(ir: &QueryIR, udfs: &Vec<UdfBinding>) -> (r: Result<(), SemanticError>)
    ensures
        r is Ok <==> all_resolve(query_uses(*ir), udfs@),
        r matches Err(e) ==> e is UdfSignatureMismatchError,
{
    let uses = collect_query_uses(ir);
    let mut j: usize = 0;
    while j < uses.len()
        invariant
            j <= uses@.len(),
            uses_view(uses@) == query_uses(*ir),
            forall|t: int| 0 <= t < j ==> use_resolves(#[trigger] uses_view(uses@)[t], udfs@),
        decreases uses@.len() - j,
    {
        let mut found: bool = false;
        let mut b: usize = 0;
        while b < udfs.len()
            invariant
                j < uses@.len(),
                b <= udfs@.len(),
                uses_view(uses@) == query_uses(*ir),
                found ==> use_resolves(uses_view(uses@)[j as int], udfs@),
                !found ==> forall|t: int|
                    0 <= t < b ==> !(udfs@[t].name@ == uses_view(uses@)[j as int].0 && udfs@[t].arity
                        as int == uses_view(uses@)[j as int].1),
            decreases udfs@.len() - b,
        {
            if !found && str_eq(udfs[b].name.as_str(), uses[j].0.as_str()) && udfs[b].arity
                == uses[j].1 {
                found = true;
                proof {
                    assert(uses_view(uses@)[j as int] == (uses@[j as int].0@, uses@[j as int].1 as int));
                    assert(udfs@[b as int].name@ == uses_view(uses@)[j as int].0);
                }
            }
            b = b + 1;
        }
        if !found {
            proof {
                assert(!use_resolves(uses_view(uses@)[j as int], udfs@));
            }
            return Err(
                SemanticError::UdfSignatureMismatchError { udf: clone_string(&uses[j].0) },
            );
        }
        j = j + 1;
    }
    Ok(())
}

} // verus!
