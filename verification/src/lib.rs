//! A compiler from declarative graph-pattern queries over service-mesh
//! request traces to executable filter logic.
//!
//! A query describes a pattern of service calls (node and edge
//! variables with predicates) and an aggregation to perform where the
//! matches converge.  The compiler builds a target-independent
//! intermediate representation ([`ir::QueryIR`]) from the parsed query,
//! then lowers it either to per-proxy filter code (the Envoy target)
//! or to a single-process simulation harness (the simulator target).
//! Both targets share one semantics, modelled and proved in
//! [`semantics`].
use vstd::prelude::*;

pub mod builder;
pub mod codegen_common;
pub mod codegen_envoy;
pub mod codegen_simulator;
pub mod render;
pub mod errors;
pub mod ir;
pub mod semantics;
pub mod strutil;
pub mod udf;
pub mod wire;

verus! {

/// The two lowering targets: Envoy proxy filter code, or the
/// single-process simulation harness.
#[derive(PartialEq, Eq, Structural, Clone, Copy, Debug)]
pub enum CompilationMode {
    Envoy,
    Sim,
}

/// Which mode a selector string denotes, if any.
pub open spec fn mode_of(s: Seq<char>) -> Option<CompilationMode> {
    if s == "envoy"@ {
        Some(CompilationMode::Envoy)
    } else if s == "sim"@ {
        Some(CompilationMode::Sim)
    } else {
        None
    }
}

/// Parses the compilation-mode selector.  Exactly the strings `envoy`
/// and `sim` are accepted; anything else is an [`errors::UnsupportedModeError`]
/// and the run must abort without writing output.
pub fn parse_mode(s: &str) -> (r: Result<CompilationMode, errors::UnsupportedModeError>)
    ensures
        r is Ok <==> mode_of(s@) is Some,
        r matches Ok(m) ==> mode_of(s@) == Some(m),
        r matches Err(e) ==> e.mode@ == s@,
{
    if strutil::str_eq(s, "envoy") {
        Ok(CompilationMode::Envoy)
    } else if strutil::str_eq(s, "sim") {
        Ok(CompilationMode::Sim)
    } else {
        Err(errors::UnsupportedModeError { mode: String::from_str(s) })
    }
}

} // verus!
