//! Error taxonomy of the compiler.
//!
//! Every failure aborts the whole compilation run; there is no local
//! recovery.  Semantic failures found while building or lowering the
//! query IR are collected in [`SemanticError`]; an unrecognized
//! compilation-mode selector is an [`UnsupportedModeError`]; a failed
//! template rendering is a [`RenderFailure`].
use vstd::prelude::*;

verus! {

/// The report a semantic error prints: the failure, with its cause.
pub open spec fn semantic_message(e: SemanticError) -> Seq<char> {
    match e {
        SemanticError::UnknownRootError { root } => "unknown root variable: "@ + root@,
        SemanticError::DisconnectedPatternError => "pattern graph is not weakly connected"@,
        SemanticError::UdfSignatureMismatchError { udf } => "UDF signature mismatch: "@ + udf@,
        SemanticError::IncompatibleAggregationError => {
            "return clause mixes incompatible aggregations"@
        },
    }
}

/// A semantic defect in an otherwise well-formed parse tree.
#[derive(Debug)]
pub enum SemanticError {
    /// The caller-supplied root identifier matches no pattern variable.
    UnknownRootError { root: String },
    /// The pattern graph is not weakly connected.
    DisconnectedPatternError,
    /// A user-defined function is applied with the wrong number of
    /// arguments, or a use site names a function that was never bound.
    UdfSignatureMismatchError { udf: String },
    /// The return clause mixes aggregation functions that cannot be
    /// combined.
    IncompatibleAggregationError,
}

impl SemanticError {
    /// A human-readable description, for the driver to print before
    /// aborting with a non-zero status; it names the cause.
    pub fn message(&self) -> (m: String)
        ensures
            m@ == semantic_message(*self),
    {
        match self {
            SemanticError::UnknownRootError { root } => {
                let mut m = String::from_str("unknown root variable: ");
                m.append(root.as_str());
                m
            }
            SemanticError::DisconnectedPatternError => {
                String::from_str("pattern graph is not weakly connected")
            }
            SemanticError::UdfSignatureMismatchError { udf } => {
                let mut m = String::from_str("UDF signature mismatch: ");
                m.append(udf.as_str());
                m
            }
            SemanticError::IncompatibleAggregationError => {
                String::from_str("return clause mixes incompatible aggregations")
            }
        }
    }
}

/// An unrecognized compilation-mode selector.
#[derive(Debug)]
pub struct UnsupportedModeError {
    /// The selector string that was refused.
    pub mode: String,
}

impl UnsupportedModeError {
    /// A human-readable description, for the driver to print before
    /// aborting with a non-zero status; it names the refused selector.
    pub fn message(&self) -> (m: String)
        ensures
            m@ == "unsupported compilation mode: "@ + self.mode@,
    {
        let mut m = String::from_str("unsupported compilation mode: ");
        m.append(self.mode.as_str());
        m
    }
}

/// The template engine refused a template.
#[derive(Debug)]
pub struct RenderFailure {
}

impl RenderFailure {
    /// A human-readable description, for the driver to print before
    /// aborting with a non-zero status.
    pub fn message(&self) -> (m: String)
        ensures
            m@ == "template rendering failed"@,
    {
        String::from_str("template rendering failed")
    }
}

} // verus!
