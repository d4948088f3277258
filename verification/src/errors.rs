//! Failures that template processing can report.

use vstd::prelude::*;

verus! {

/// Why processing a template (or a structured call) was aborted.
///
/// Heads that the classifier would hoist but that do not parse as expressions
/// are tolerated: such a placeholder is kept verbatim rather than reported, so
/// there is no variant for an unparseable head.
#[derive(Clone, Copy, Debug, PartialEq, Eq)]
pub enum TemplateError {
    /// An opening brace begins a placeholder that never closes.
    MalformedTemplate,
    /// No segment of a structured call is a bare string literal.
    MissingTemplateLiteral,
    /// A trailing argument does not parse as an expression.
    InvalidArgumentExpression,
}

} // verus!
