//! Edge cases and one concrete scenario for each documented behaviour of
//! the engine: escapes, spec preservation, path separators, partitioning,
//! deduplication order, and the error conditions.

use formati::categorize;
use formati::formati_args;
use formati::is_complex_expression;
use formati::is_likely_generic_with_space;
use formati::should_count_as_generic;
use formati::should_extract_expression;
use formati::split_head_spec;
use formati::split_top_level;
use formati::structured;
use formati::wrap;
use formati::TemplateError;

#[test]
fn test_verbatim_when_nothing_is_hoisted() {
    let (tmpl, exprs) = formati_args("plain text with {name} and {count:>8} and 42").unwrap();
    assert_eq!(tmpl, "plain text with {name} and {count:>8} and 42");
    assert!(exprs.is_empty());
}

#[test]
fn test_escape_round_trip() {
    let (tmpl, exprs) = formati_args("{{x}}").unwrap();
    assert_eq!(tmpl, "{{x}}");
    assert!(exprs.is_empty());
}

#[test]
fn test_spec_preserved_on_hoisted_placeholder() {
    let (tmpl, exprs) = formati_args("{a.b:.2}").unwrap();
    assert_eq!(tmpl, "{0:.2}");
    assert_eq!(exprs, vec!["a.b"]);
}

#[test]
fn test_path_separator_is_not_a_spec_separator() {
    assert!(should_extract_expression("Mod::func()"));
    let (head, spec) = split_head_spec("Mod::func()");
    assert_eq!(head, "Mod::func()");
    assert_eq!(spec, "");
    let (tmpl, exprs) = formati_args("{Mod::func()}").unwrap();
    assert_eq!(tmpl, "{0}");
    assert_eq!(exprs, vec!["Mod::func()"]);
}

#[test]
fn test_named_positional_partition() {
    let args = vec![
        String::from("x"),
        String::from("sum = a + b"),
        String::from("y"),
    ];
    let (named, positional) = categorize(&args).unwrap();
    assert_eq!(named, vec!["sum = a + b"]);
    assert_eq!(positional, vec!["x", "y"]);
}

#[test]
fn test_point_scenario() {
    let p = (10.5, 20.3);
    let (tmpl, exprs) = formati_args("Point: ({p.0}, {p.1})").unwrap();
    assert_eq!(tmpl, "Point: ({0}, {1})");
    assert_eq!(exprs, vec!["p.0", "p.1"]);
    let printed = format!("Point: ({0}, {1})", p.0, p.1);
    assert_eq!(printed, "Point: (10.5, 20.3)");
}

#[test]
fn test_dedup_scenario() {
    let (tmpl, exprs) = formati_args("User {u.id} has ID {u.id} and name {u.name}").unwrap();
    assert_eq!(tmpl, "User {0} has ID {0} and name {1}");
    assert_eq!(exprs, vec!["u.id", "u.name"]);
}

#[test]
fn test_malformed_template() {
    assert_eq!(formati_args("{unclosed").unwrap_err(), TemplateError::MalformedTemplate);
    assert_eq!(
        wrap("{unclosed", &Vec::new()).unwrap_err(),
        TemplateError::MalformedTemplate
    );
}

#[test]
fn test_invalid_argument_expression() {
    let args = vec![String::from("(")];
    assert_eq!(categorize(&args).unwrap_err(), TemplateError::InvalidArgumentExpression);
    assert_eq!(
        wrap("{a}", &args).unwrap_err(),
        TemplateError::InvalidArgumentExpression
    );
    assert_eq!(
        structured::wrap("\"msg\", (").unwrap_err(),
        TemplateError::InvalidArgumentExpression
    );
}

#[test]
fn test_missing_template_literal() {
    assert_eq!(
        structured::wrap("a, b + c").unwrap_err(),
        TemplateError::MissingTemplateLiteral
    );
}

#[test]
fn test_forwarded_argument_order() {
    let args = vec![String::from("width = 8"), String::from("extra")];
    let out = wrap("{v.len():width$} {tag}", &args).unwrap();
    assert_eq!(out.template, "{0:width$} {tag}");
    assert_eq!(out.extracted, vec!["v.len()"]);
    assert_eq!(out.named, vec!["width = 8"]);
    assert_eq!(out.positional, vec!["extra"]);
    assert_eq!(
        out.forwarded_args(),
        vec!["width = 8", "v.len()", "extra"]
    );
}

#[test]
fn test_unparseable_head_kept_verbatim() {
    // the classifier would hoist this head, but it is not an expression, so
    // the placeholder is kept as it came
    let (tmpl, exprs) = formati_args("{a ++ b}").unwrap();
    assert_eq!(tmpl, "{a ++ b}");
    assert!(exprs.is_empty());
}

#[test]
fn test_numeric_literal_heads_stay() {
    let (tmpl, exprs) = formati_args("{-3.25} {1e9} {+7}").unwrap();
    assert_eq!(tmpl, "{-3.25} {1e9} {+7}");
    assert!(exprs.is_empty());
    assert!(!should_extract_expression("-3.25"));
    assert!(!should_extract_expression("1e9"));
    assert!(!should_extract_expression("+7"));
    assert!(should_extract_expression("a - b"));
}

#[test]
fn test_operator_scan_ignores_string_literals() {
    assert!(is_complex_expression("a + b"));
    assert!(!is_complex_expression("\"a + b\""));
    assert!(!is_complex_expression("plain"));
}

#[test]
fn test_generic_bracket_disambiguation() {
    // after an identifier character, `<` opens generics
    assert!(should_count_as_generic("Vec<u8>", 3));
    // after a comparison character it does not
    assert!(!should_count_as_generic("a <<", 3));
    // after whitespace: a type-looking token opens generics
    assert!(is_likely_generic_with_space("HashMap <K, V>", 8));
    // a single lowercase letter reads as a comparison
    assert!(!is_likely_generic_with_space("a <", 2));
    // a colon inside generics is not a spec separator
    let (head, spec) = split_head_spec("f::<T: Sized>(x):>10");
    assert_eq!(head, "f::<T: Sized>(x)");
    assert_eq!(spec, ">10");
}

#[test]
fn test_lifetime_is_not_a_char_literal() {
    // the quote marks a lifetime, so the colon after it still separates
    let (head, spec) = split_head_spec("f::<&'a str>(x):^10");
    assert_eq!(head, "f::<&'a str>(x)");
    assert_eq!(spec, "^10");
    // a real char literal hides its colon
    let (head2, spec2) = split_head_spec("g(':')");
    assert_eq!(head2, "g(':')");
    assert_eq!(spec2, "");
}

#[test]
fn test_split_top_level_nesting() {
    let segs = split_top_level("f(a, b), \"x, y\", [1, 2], last");
    assert_eq!(segs, vec!["f(a, b)", " \"x, y\"", " [1, 2]", " last"]);
}

#[test]
fn test_structured_template_is_last_literal() {
    let out = structured::wrap("target: \"mod\", \"fallback\", \"real {t.0}\", t.1").unwrap();
    assert_eq!(out.front, vec!["target: \"mod\"", " \"fallback\""]);
    assert_eq!(out.template, "real {0}");
    assert_eq!(out.extracted, vec!["t.0"]);
    assert_eq!(out.positional, vec![" t.1"]);
}

#[test]
fn test_structured_trailing_comma() {
    let out = structured::wrap("\"m {a.b}\", x, ").unwrap();
    assert!(out.front.is_empty());
    assert_eq!(out.template, "m {0}");
    assert_eq!(out.extracted, vec!["a.b"]);
    assert_eq!(out.positional, vec![" x"]);
}

#[test]
fn test_nested_brace_scanning() {
    // braces inside a string literal in the placeholder body do not count
    let (tmpl, exprs) = formati_args("{f(\"{\")} end").unwrap();
    assert_eq!(tmpl, "{0} end");
    assert_eq!(exprs, vec!["f(\"{\")"]);
}
