//! Template-expression extraction and rewriting.
//!
//! A template is a string of literal text interleaved with brace-delimited
//! placeholders, each holding an expression "head" and an optional format
//! spec. This library locates the placeholders (honouring `{{`/`}}` escapes,
//! nested braces and string/char literals inside a placeholder body), splits
//! each body into head and spec, decides which heads are non-trivial
//! expressions, hoists each distinct such head out exactly once, rewrites the
//! template to refer to the hoisted expressions by positional index, and
//! partitions a trailing argument list into named and positional groups.
//!
//! Expression validity is delegated to `syn`; everything around that call is
//! verified against the specification functions in these modules.

pub mod args;
pub mod classify;
pub mod errors;
pub mod expr_parse;
pub mod numeric;
pub mod rewrite;
pub mod scan;
pub mod split;
pub mod structured;
pub mod text;
pub mod unicode;

pub use args::categorize;
pub use classify::is_complex_expression;
pub use classify::should_extract_expression;
pub use errors::TemplateError;
pub use rewrite::formati_args;
pub use rewrite::wrap;
pub use rewrite::RewrittenOutput;
pub use split::is_likely_generic_with_space;
pub use split::should_count_as_generic;
pub use split::split_head_spec;
pub use structured::split_top_level;
pub use structured::StructuredOutput;
