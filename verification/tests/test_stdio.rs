//! The print-style path: rewrite the template and render what the expanded
//! print call would write, comparing the whole rendered text.

use formati::formati_args;

#[test]
fn test_print_basic() {
    let (name, age) = ("Alice", 30);
    let (tmpl, exprs) = formati_args("Name: {name}, Age: {age}").unwrap();
    assert_eq!(tmpl, "Name: {name}, Age: {age}");
    assert!(exprs.is_empty());
    let out = format!("Name: {name}, Age: {age}");
    assert_eq!(out, "Name: Alice, Age: 30");
}

#[test]
fn test_println_basic() {
    let (name, age) = ("Bob", 25);
    let (tmpl, exprs) = formati_args("Name: {name}, Age: {age}").unwrap();
    assert_eq!(tmpl, "Name: {name}, Age: {age}");
    assert!(exprs.is_empty());
    let out = format!("Name: {name}, Age: {age}\n");
    assert_eq!(out, "Name: Bob, Age: 25\n");
}

#[test]
fn test_stdio_dotted_access() {
    struct User {
        id: u32,
        name: String,
    }
    impl User {
        fn format_id(&self) -> String {
            format!("USER-{:<04}", self.id)
        }
    }

    let user = User {
        id: 42,
        name: "Carol".into(),
    };

    let (tmpl1, exprs1) = formati_args("User: {user.name} (ID: {user.id})").unwrap();
    assert_eq!(tmpl1, "User: {0} (ID: {1})");
    assert_eq!(exprs1, vec!["user.name", "user.id"]);
    let (tmpl2, exprs2) = formati_args("Formatted ID: {user.format_id()}").unwrap();
    assert_eq!(tmpl2, "Formatted ID: {0}");
    assert_eq!(exprs2, vec!["user.format_id()"]);

    let mut out = format!("User: {0} (ID: {1})\n", user.name, user.id);
    out.push_str(&format!("Formatted ID: {0}", user.format_id()));

    assert_eq!(out, "User: Carol (ID: 42)\nFormatted ID: USER-0042");
}

#[test]
fn test_stdio_repeated_expressions() {
    let point = (3.1, 2.71);
    let (tmpl1, exprs1) = formati_args("Point: ({point.0}, {point.1})").unwrap();
    assert_eq!(tmpl1, "Point: ({0}, {1})");
    assert_eq!(exprs1, vec!["point.0", "point.1"]);
    let (tmpl2, exprs2) = formati_args(
        "Normalized: ({point.0}/{point.0+point.1:.2}, {point.1}/{point.0+point.1:.2})",
    )
    .unwrap();
    assert_eq!(tmpl2, "Normalized: ({0}/{1:.2}, {2}/{1:.2})");
    assert_eq!(exprs2, vec!["point.0", "point.0+point.1", "point.1"]);

    let mut out = format!("Point: ({0}, {1})\n", point.0, point.1);
    out.push_str(&format!(
        "Normalized: ({0}/{1:.2}, {2}/{1:.2})\n",
        point.0,
        point.0 + point.1,
        point.1
    ));
    assert!(out.contains("Point: (3.1, 2.71)"));
    assert!(out.contains("Normalized: (3.1/5.81, 2.71/5.81)"));
}
