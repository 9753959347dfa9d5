//! The simulator backend: lowers the same query IR into a
//! single-process harness that drives hop observations sequentially
//! through the shared match sections, plus the aggregation body that
//! mirrors the distributed split for parity testing.
//!
//! The harness and the proxy filter are built from the same lowering
//! helpers, so a query means the same thing under both; the semantic
//! side of that claim is [`crate::semantics::lemma_backend_equivalence`].
use crate::codegen_common::agg_body;
use crate::codegen_common::match_sections;
use crate::codegen_common::render_agg_body;
use crate::codegen_common::render_match_sections;
use crate::codegen_common::render_udf_bodies;
use crate::codegen_common::udf_bodies;
use crate::codegen_envoy::all_parse;
use crate::codegen_envoy::all_resolve_m;
use crate::codegen_envoy::lemma_resolve_models;
use crate::codegen_envoy::parse_udf_sources;
use crate::codegen_envoy::udf_models;
use crate::errors::SemanticError;
use crate::ir::QueryIR;
use crate::strutil::clone_string;
use crate::udf::query_uses;
use vstd::prelude::*;

verus! {

/// The simulator backend's output object: the harness body and its
/// aggregation body, mirroring the distributed proxy split.
#[derive(Debug)]
pub struct CodeGenSimulator {
    pub harness: String,
    pub aggregation: String,
}

/// The simulation harness body: a sequential driver over the shared
/// match sections, delivering surviving accumulators in-process.
pub open spec fn sim_harness_code(ir: QueryIR, srcs: Seq<String>) -> Seq<char> {
    "// simulation harness\ndrive_hops_sequentially();\n"@ + match_sections(
        ir,
        ir.nodes@.len() as int,
    ) + "deliver_to_root_in_process();\n"@ + udf_bodies(srcs, srcs.len() as int)
}

/// The simulator's aggregation body.
pub open spec fn sim_agg_code(ir: QueryIR) -> Seq<char> {
    "// simulation aggregation\n"@ + agg_body(ir)
}

/// Lowers the query IR and its UDF sources into the simulator output
/// object.  The UDF gate is the same as the Envoy backend's: any
/// signature problem aborts before emission.
pub fn generate_code_blocks(ir: &QueryIR, udf_sources: &Vec<String>) -> (r: Result<
    CodeGenSimulator,
    SemanticError,
>)
    ensures
        r is Ok <==> (all_parse(udf_sources@, udf_sources@.len() as int) && all_resolve_m(
            query_uses(*ir),
            udf_models(udf_sources@, udf_sources@.len() as int),
        )),
        r matches Err(e) ==> e is UdfSignatureMismatchError,
        r matches Ok(c) ==> c.harness@ == sim_harness_code(*ir, udf_sources@) && c.aggregation@
            == sim_agg_code(*ir),
{
    let udfs = match parse_udf_sources(udf_sources) {
        Ok(u) => u,
        Err(e) => {
            return Err(e);
        }
    };
    proof {
        lemma_resolve_models(query_uses(*ir), udfs@);
    }
    match crate::udf::check_signatures(ir, &udfs) {
        Ok(_) => {}
        Err(e) => {
            return Err(e);
        }
    }
    let mut harness = String::from_str("// simulation harness\ndrive_hops_sequentially();\n");
    let sections = render_match_sections(ir);
    harness.append(sections.as_str());
    harness.append("deliver_to_root_in_process();\n");
    let bodies = render_udf_bodies(udf_sources);
    harness.append(bodies.as_str());
    let mut aggregation = String::from_str("// simulation aggregation\n");
    let body = render_agg_body(ir);
    aggregation.append(body.as_str());
    proof {
        assert(harness@ =~= sim_harness_code(*ir, udf_sources@));
        assert(aggregation@ =~= sim_agg_code(*ir));
    }
    Ok(CodeGenSimulator { harness, aggregation })
}

impl CodeGenSimulator {
    /// The named substitution fields handed to the template renderer.
    pub fn fields(&self) -> (r: Vec<(String, String)>)
        ensures
            r@.len() == 2,
            r@[0].0@ == "harness"@ && r@[0].1@ == self.harness@,
            r@[1].0@ == "aggregation"@ && r@[1].1@ == self.aggregation@,
    {
        let mut r: Vec<(String, String)> = Vec::new();
        r.push((String::from_str("harness"), clone_string(&self.harness)));
        r.push((String::from_str("aggregation"), clone_string(&self.aggregation)));
        r
    }
}

/// Idempotent compilation, simulator side: the emitted text is a
/// function of the query IR and the UDF sources alone.
pub proof fn lemma_idempotent_simulation(
    ir: QueryIR,
    srcs: Seq<String>,
    a: Seq<char>,
    b: Seq<char>,
)
    requires
        a == sim_harness_code(ir, srcs),
        b == sim_harness_code(ir, srcs),
    ensures
        a == b,
{
}

} // verus!
