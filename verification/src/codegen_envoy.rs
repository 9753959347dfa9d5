//! The Envoy backend: lowers a query IR and its UDFs into per-proxy
//! filter code, and, in distributed mode, a separate aggregation
//! filter that merges the partial matches arriving at the root.
//!
//! Signature binding runs before any code is emitted: a UDF use that
//! does not resolve aborts the build with a signature mismatch, and
//! no output object exists.
use crate::codegen_common::agg_body;
use crate::codegen_common::match_sections;
use crate::codegen_common::render_agg_body;
use crate::codegen_common::render_match_sections;
use crate::codegen_common::render_udf_bodies;
use crate::codegen_common::udf_bodies;
use crate::errors::SemanticError;
use crate::ir::QueryIR;
use crate::strutil::clone_string;
use crate::udf::UdfBinding;
use crate::udf::all_resolve;
use crate::udf::parse_udf;
use crate::udf::parse_udf_spec;
use crate::udf::query_uses;
use crate::udf::use_resolves;
use vstd::prelude::*;

verus! {

/// The Envoy backend's output object: the per-proxy filter body and,
/// in distributed mode, the root aggregation filter body.
#[derive(Debug)]
pub struct CodeGenEnvoy {
    pub filter: String,
    pub aggregation: Option<String>,
}

/// Whether each of the first `k` UDF sources declares a parseable
/// signature.
pub open spec fn all_parse(srcs: Seq<String>, k: int) -> bool {
    forall|j: int| 0 <= j < k ==> parse_udf_spec((#[trigger] srcs[j])@) is Some
}

/// The declared models (name, arity) of the first `k` UDF sources.
pub open spec fn udf_models(srcs: Seq<String>, k: int) -> Seq<(Seq<char>, int)>
    decreases k,
{
    if k <= 0 {
        Seq::empty()
    } else {
        udf_models(srcs, k - 1) + match parse_udf_spec(srcs[k - 1]@) {
            Some(m) => seq![m],
            None => Seq::empty(),
        }
    }
}

/// A use site resolves against the parsed models.
pub open spec fn use_resolves_m(u: (Seq<char>, int), ms: Seq<(Seq<char>, int)>) -> bool {
    exists|b: int| 0 <= b < ms.len() && ms[b] == u
}

/// Every use site resolves against the parsed models.
pub open spec fn all_resolve_m(uses: Seq<(Seq<char>, int)>, ms: Seq<(Seq<char>, int)>) -> bool {
    forall|j: int| 0 <= j < uses.len() ==> use_resolves_m(#[trigger] uses[j], ms)
}

/// The models of a binding list.
pub open spec fn bindings_view(udfs: Seq<UdfBinding>) -> Seq<(Seq<char>, int)> {
    udfs.map_values(|b: UdfBinding| (b.name@, b.arity as int))
}

/// Resolution against bindings and against their models agree.
pub proof fn lemma_resolve_models(uses: Seq<(Seq<char>, int)>, udfs: Seq<UdfBinding>)
    ensures
        all_resolve(uses, udfs) == all_resolve_m(uses, bindings_view(udfs)),
{
    if all_resolve(uses, udfs) {
        assert forall|j: int| 0 <= j < uses.len() implies use_resolves_m(
            #[trigger] uses[j],
            bindings_view(udfs),
        ) by {
            assert(use_resolves(uses[j], udfs));
            let b = choose|b: int|
                0 <= b < udfs.len() && udfs[b].name@ == uses[j].0 && udfs[b].arity as int
                    == uses[j].1;
            assert(bindings_view(udfs)[b] == uses[j]);
        }
    }
    if all_resolve_m(uses, bindings_view(udfs)) {
        assert forall|j: int| 0 <= j < uses.len() implies use_resolves(#[trigger] uses[j], udfs) by {
            assert(use_resolves_m(uses[j], bindings_view(udfs)));
            let b = choose|b: int|
                0 <= b < bindings_view(udfs).len() && bindings_view(udfs)[b] == uses[j];
            assert(udfs[b].name@ == uses[j].0 && udfs[b].arity as int == uses[j].1);
        }
    }
}

/// Parses each UDF source into its binding; any unparseable source
/// is a signature mismatch.
pub fn parse_udf_sources(srcs: &Vec<String>) -> (r: Result<Vec<UdfBinding>, SemanticError>)
    ensures
        r is Ok <==> all_parse(srcs@, srcs@.len() as int),
        r matches Ok(udfs) ==> bindings_view(udfs@) == udf_models(srcs@, srcs@.len() as int),
        r matches Err(e) ==> e is UdfSignatureMismatchError,
{
    let mut udfs: Vec<UdfBinding> = Vec::new();
    let mut j: usize = 0;
    proof {
        assert(bindings_view(udfs@) =~= udf_models(srcs@, 0));
    }
    while j < srcs.len()
        invariant
            j <= srcs@.len(),
            all_parse(srcs@, j as int),
            bindings_view(udfs@) == udf_models(srcs@, j as int),
        decreases srcs@.len() - j,
    {
        match parse_udf(srcs[j].as_str()) {
            Some(b) => {
                let ghost prev = udfs@;
                udfs.push(b);
                proof {
                    assert(bindings_view(udfs@) =~= udf_models(srcs@, j as int + 1));
                }
            }
            None => {
                proof {
                    assert(!all_parse(srcs@, srcs@.len() as int));
                }
                return Err(
                    SemanticError::UdfSignatureMismatchError { udf: clone_string(&srcs[j]) },
                );
            }
        }
        j = j + 1;
    }
    Ok(udfs)
}

/// The per-proxy filter body: the shared match sections; then either
/// the metadata forwarding of distributed mode, or local delivery
/// with the aggregation inline for a root-only filter; then the UDF
/// bodies.
pub open spec fn envoy_filter_code(ir: QueryIR, srcs: Seq<String>, distributed: bool) -> Seq<
    char,
> {
    "// envoy filter\n"@ + match_sections(ir, ir.nodes@.len() as int) + (if distributed {
        "serialize_and_forward_accumulator();\n"@
    } else {
        "deliver_to_local_root();\n"@ + agg_body(ir)
    }) + udf_bodies(srcs, srcs.len() as int)
}

/// The root aggregation filter body of distributed mode.
pub open spec fn envoy_agg_code(ir: QueryIR) -> Seq<char> {
    "// envoy aggregation filter\nmerge_arriving_accumulator();\n"@ + agg_body(ir)
}

/// Lowers the query IR and its UDF sources into the Envoy output
/// object.  Fails with the signature mismatch, before emitting
/// anything, when a UDF source does not parse or a use site does not
/// resolve.
pub fn generate_code_blocks(ir: &QueryIR, udf_sources: &Vec<String>, distributed: bool) -> (r:
    Result<CodeGenEnvoy, SemanticError>)
    ensures
        r is Ok <==> (all_parse(udf_sources@, udf_sources@.len() as int) && all_resolve_m(
            query_uses(*ir),
            udf_models(udf_sources@, udf_sources@.len() as int),
        )),
        r matches Err(e) ==> e is UdfSignatureMismatchError,
        r matches Ok(c) ==> c.filter@ == envoy_filter_code(*ir, udf_sources@, distributed) && (
        distributed ==> (c.aggregation matches Some(a) && a@ == envoy_agg_code(*ir))) && (
        !distributed ==> c.aggregation is None),
{
    let udfs = match parse_udf_sources(udf_sources) {
        Ok(u) => u,
        Err(e) => {
            return Err(e);
        }
    };
    proof {
        lemma_resolve_models(query_uses(*ir), udfs@);
    }
    match crate::udf::check_signatures(ir, &udfs) {
        Ok(_) => {}
        Err(e) => {
            return Err(e);
        }
    }
    let mut filter = String::from_str("// envoy filter\n");
    let sections = render_match_sections(ir);
    filter.append(sections.as_str());
    let aggregation: Option<String>;
    if distributed {
        filter.append("serialize_and_forward_accumulator();\n");
        let mut agg = String::from_str("// envoy aggregation filter\nmerge_arriving_accumulator();\n");
        let body = render_agg_body(ir);
        agg.append(body.as_str());
        proof {
            assert(agg@ =~= envoy_agg_code(*ir));
        }
        aggregation = Some(agg);
    } else {
        filter.append("deliver_to_local_root();\n");
        let body = render_agg_body(ir);
        filter.append(body.as_str());
        aggregation = None;
    }
    let bodies = render_udf_bodies(udf_sources);
    filter.append(bodies.as_str());
    proof {
        assert(filter@ =~= envoy_filter_code(*ir, udf_sources@, distributed));
    }
    Ok(CodeGenEnvoy { filter, aggregation })
}

impl CodeGenEnvoy {
    /// The named substitution fields handed to the template renderer.
    pub fn fields(&self) -> (r: Vec<(String, String)>)
        ensures
            r@.len() == (if self.aggregation is Some {
                2int
            } else {
                1int
            }),
            r@[0].0@ == "filter"@ && r@[0].1@ == self.filter@,
            self.aggregation matches Some(a) ==> r@[1].0@ == "aggregation"@ && r@[1].1@ == a@,
    {
        let mut r: Vec<(String, String)> = Vec::new();
        r.push((String::from_str("filter"), clone_string(&self.filter)));
        match &self.aggregation {
            Some(a) => {
                r.push((String::from_str("aggregation"), clone_string(a)));
            }
            None => {}
        }
        r
    }
}

/// Idempotent compilation: the emitted filter text is a function of
/// the query IR, the UDF sources and the mode alone, so compiling the
/// same inputs twice yields byte-identical output.
pub proof fn lemma_idempotent_compilation(
    ir: QueryIR,
    srcs: Seq<String>,
    distributed: bool,
    a: Seq<char>,
    b: Seq<char>,
)
    requires
        a == envoy_filter_code(ir, srcs, distributed),
        b == envoy_filter_code(ir, srcs, distributed),
    ensures
        a == b,
{
}

} // verus!
