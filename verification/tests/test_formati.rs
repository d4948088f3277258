//! The format-style path: rewrite a template, then hand the rewritten
//! template and the hoisted expressions to the standard formatter exactly as
//! the expanded call would.

use formati::formati_args;
use formati::wrap;
use std::f32::consts;

#[test]
fn test_formati_basic() {
    let answer = 42;
    let (tmpl, exprs) = formati_args("The answer is {answer}").unwrap();
    assert_eq!(tmpl, "The answer is {answer}");
    assert!(exprs.is_empty());
    let result = format!("The answer is {answer}");
    assert_eq!(result, "The answer is 42");
}

#[test]
fn test_formati_dotted_access() {
    let user = (String::from("Alice"), 30);
    let (tmpl, exprs) = formati_args("Name: {user.0}, Age: {user.1}").unwrap();
    assert_eq!(tmpl, "Name: {0}, Age: {1}");
    assert_eq!(exprs, vec!["user.0", "user.1"]);
    let result = format!("Name: {0}, Age: {1}", user.0, user.1);
    assert_eq!(result, "Name: Alice, Age: 30");
}

#[test]
fn test_complex_expressions() {
    // Test ::
    let (tmpl, exprs) = formati_args(
        "Created: {String::from(\"Alice\")}, \
         Length: {String::from(\"Alice\").len()}, \
         Uppercase: {String::from(\"Alice\").to_uppercase()}, \
         Vec: {Vec::<i32>::new().len()}",
    )
    .unwrap();
    assert_eq!(tmpl, "Created: {0}, Length: {1}, Uppercase: {2}, Vec: {3}");
    assert_eq!(
        exprs,
        vec![
            "String::from(\"Alice\")",
            "String::from(\"Alice\").len()",
            "String::from(\"Alice\").to_uppercase()",
            "Vec::<i32>::new().len()",
        ]
    );
    let result = format!(
        "Created: {0}, Length: {1}, Uppercase: {2}, Vec: {3}",
        String::from("Alice"),
        String::from("Alice").len(),
        String::from("Alice").to_uppercase(),
        Vec::<i32>::new().len()
    );
    assert_eq!(result, "Created: Alice, Length: 5, Uppercase: ALICE, Vec: 0",);

    // Test with indexing
    let numbers = [1, 2, 3];
    let (tmpl2, exprs2) = formati_args("Numbers: {numbers.len():04}, First: {numbers[0]:02}").unwrap();
    assert_eq!(tmpl2, "Numbers: {0:04}, First: {1:02}");
    assert_eq!(exprs2, vec!["numbers.len()", "numbers[0]"]);
    let result2 = format!("Numbers: {0:04}, First: {1:02}", numbers.len(), numbers[0]);
    assert_eq!(result2, "Numbers: 0003, First: 01");
}

#[test]
fn test_formati_formatting_specs() {
    let value = consts::PI;
    let (tmpl, exprs) = formati_args("Pi: {value:.2}").unwrap();
    assert_eq!(tmpl, "Pi: {value:.2}");
    assert!(exprs.is_empty());
    let result = format!("Pi: {value:.2}");
    assert_eq!(result, "Pi: 3.14");
}

#[test]
fn test_formati_repeated_expression() {
    let person = (String::from("Bob"), 25);
    let (tmpl, exprs) = formati_args("Name: {person.0}, Info: {person.0} is {person.1} years old")
        .unwrap();
    assert_eq!(tmpl, "Name: {0}, Info: {0} is {1} years old");
    assert_eq!(exprs, vec!["person.0", "person.1"]);
    let result = format!("Name: {0}, Info: {0} is {1} years old", person.0, person.1);
    assert_eq!(result, "Name: Bob, Info: Bob is 25 years old");
}

#[test]
fn test_formati_nested_structures() {
    let data = ((1, 2), (3, 4));
    let (tmpl, exprs) = formati_args("Values: {data.0.0}, {data.0.1}, {data.1.0}, {data.1.1}")
        .unwrap();
    assert_eq!(tmpl, "Values: {0}, {1}, {2}, {3}");
    assert_eq!(exprs, vec!["data.0.0", "data.0.1", "data.1.0", "data.1.1"]);
    let result = format!(
        "Values: {0}, {1}, {2}, {3}",
        data.0 .0, data.0 .1, data.1 .0, data.1 .1
    );
    assert_eq!(result, "Values: 1, 2, 3, 4");
}

#[test]
fn test_formati_with_named_args() {
    let x = 10;
    let y = 20;
    let out = wrap("{x} + {y} = {sum}", &vec![String::from("sum = x + y")]).unwrap();
    assert_eq!(out.template, "{x} + {y} = {sum}");
    assert_eq!(out.named, vec!["sum = x + y"]);
    assert!(out.extracted.is_empty());
    assert!(out.positional.is_empty());
    let result = format!("{x} + {y} = {sum}", sum = x + y);
    assert_eq!(result, "10 + 20 = 30");
}

#[test]
fn test_formati_escaped_braces() {
    let out = wrap("{{escaped}} but {not}", &vec![String::from("not = \"interpolated\"")])
        .unwrap();
    assert_eq!(out.template, "{{escaped}} but {not}");
    assert_eq!(out.named, vec!["not = \"interpolated\""]);
    let result = format!("{{escaped}} but {not}", not = "interpolated");
    assert_eq!(result, "{escaped} but interpolated");
}

struct Employee {
    id: u32,
    salary: i32,
    department: String,
}

impl Employee {
    fn get_title(&self) -> &str {
        "Software Engineer"
    }

    fn format_id(&self) -> String {
        format!("EMP-{:04}", self.id)
    }
}

#[test]
fn test_formati_struct_fields_and_methods() {
    let employee = Employee {
        id: 157,
        salary: 85000,
        department: String::from("Engineering"),
    };

    let project_data = (2023, "Project Formati");

    // Test accessing struct fields, method calls, and repeated expressions
    let (tmpl, exprs) = formati_args(
        "Employee ID: {employee.id}, Department: {employee.department}\n\
         Salary: ${employee.salary}, Title: {employee.get_title()}\n\
         Formatted ID: {employee.format_id()}, Employee ID again: {employee.id}\n\
         Project Year: {project_data.0}, Project Name: {project_data.1}",
    )
    .unwrap();
    assert_eq!(
        tmpl,
        "Employee ID: {0}, Department: {1}\n\
         Salary: ${2}, Title: {3}\n\
         Formatted ID: {4}, Employee ID again: {0}\n\
         Project Year: {5}, Project Name: {6}"
    );
    assert_eq!(
        exprs,
        vec![
            "employee.id",
            "employee.department",
            "employee.salary",
            "employee.get_title()",
            "employee.format_id()",
            "project_data.0",
            "project_data.1",
        ]
    );
    let result = format!(
        "Employee ID: {0}, Department: {1}\nSalary: ${2}, Title: {3}\nFormatted ID: {4}, Employee ID again: {0}\nProject Year: {5}, Project Name: {6}",
        employee.id,
        employee.department,
        employee.salary,
        employee.get_title(),
        employee.format_id(),
        project_data.0,
        project_data.1
    );
    assert_eq!(
        result,
        "Employee ID: 157, Department: Engineering\n\
         Salary: $85000, Title: Software Engineer\n\
         Formatted ID: EMP-0157, Employee ID again: 157\n\
         Project Year: 2023, Project Name: Project Formati"
    );

    // Verify that method calls are handled correctly
    let (tmpl2, _) = formati_args("Employee: {employee.format_id()} - {employee.get_title()}")
        .unwrap();
    assert_eq!(tmpl2, "Employee: {0} - {1}");
    let method_result = format!("Employee: {0} - {1}", employee.format_id(), employee.get_title());
    assert_eq!(method_result, "Employee: EMP-0157 - Software Engineer");

    // Test with formatting specifiers
    let (tmpl3, exprs3) = formati_args(
        "ID: {employee.id:04}, Salary: {employee.salary:+}, Department: {employee.department:.5}",
    )
    .unwrap();
    assert_eq!(tmpl3, "ID: {0:04}, Salary: {1:+}, Department: {2:.5}");
    assert_eq!(exprs3, vec!["employee.id", "employee.salary", "employee.department"]);
    let detail_result = format!(
        "ID: {0:04}, Salary: {1:+}, Department: {2:.5}",
        employee.id, employee.salary, employee.department
    );
    assert_eq!(detail_result, "ID: 0157, Salary: +85000, Department: Engin");
}

#[test]
fn test_formati_dereference() {
    let ptr = Box::new(42);
    let (tmpl, exprs) = formati_args("Value: {*ptr}").unwrap();
    assert_eq!(tmpl, "Value: {0}");
    assert_eq!(exprs, vec!["*ptr"]);
    let result = format!("Value: {0}", *ptr);
    assert_eq!(result, "Value: 42");
}

#[test]
fn test_formati_type_casting() {
    let value = 42i32;
    let (tmpl, exprs) = formati_args("As u64: {value as u64}").unwrap();
    assert_eq!(tmpl, "As u64: {0}");
    assert_eq!(exprs, vec!["value as u64"]);
    let result = format!("As u64: {0}", value as u64);
    assert_eq!(result, "As u64: 42");
}

#[test]
fn test_formati_try_operator() -> Result<(), &'static str> {
    fn get_result() -> Result<i32, &'static str> {
        Ok(42)
    }
    let (tmpl, exprs) = formati_args("Result: {&get_result()?.to_string()}").unwrap();
    assert_eq!(tmpl, "Result: {0}");
    assert_eq!(exprs, vec!["&get_result()?.to_string()"]);
    let _ = format!("Result: {0}", &get_result()?.to_string());
    // need to be in a function that returns Result
    Ok(())
}

#[test]
fn test_formati_range_expressions() {
    let vec = [1, 2, 3, 4, 5];
    let (tmpl, exprs) = formati_args("Slice: {vec[1..4].len()}").unwrap();
    assert_eq!(tmpl, "Slice: {0}");
    assert_eq!(exprs, vec!["vec[1..4].len()"]);
    let result = format!("Slice: {0}", vec[1..4].len());
    assert_eq!(result, "Slice: 3");
}

#[test]
fn test_formati_arithmetic_expressions() {
    let a = 5;
    let b = 3;
    let (tmpl, exprs) = formati_args("Sum: {a + b}, Product: {a * b}").unwrap();
    assert_eq!(tmpl, "Sum: {0}, Product: {1}");
    assert_eq!(exprs, vec!["a + b", "a * b"]);
    let result = format!("Sum: {0}, Product: {1}", a + b, a * b);
    assert_eq!(result, "Sum: 8, Product: 15");
}

struct Point {
    x: i32,
    y: i32,
}

impl std::fmt::Debug for Point {
    fn fmt(&self, f: &mut std::fmt::Formatter<'_>) -> std::fmt::Result {
        // format as something different than the standard #[derive(Debug)]
        f.debug_struct("DebugPoint")
            .field("debug_x", &(self.x + 1))
            .field("debug_y", &(self.y + 1))
            .finish()
    }
}

#[test]
fn test_formati_struct_literals() {
    let (tmpl, exprs) = formati_args("Point: {Point { x: 1, y: 2 }:?}").unwrap();
    assert_eq!(tmpl, "Point: {0:?}");
    assert_eq!(exprs, vec!["Point { x: 1, y: 2 }"]);
    let result = format!("Point: {0:?}", Point { x: 1, y: 2 });
    assert_eq!(result, "Point: DebugPoint { debug_x: 2, debug_y: 3 }");
}

#[test]
fn test_formati_closure_calls() {
    let closure = |x: i32| x * 2;
    let (tmpl, exprs) = formati_args("Double: {closure(5)}").unwrap();
    assert_eq!(tmpl, "Double: {0}");
    assert_eq!(exprs, vec!["closure(5)"]);
    let result = format!("Double: {0}", closure(5));
    assert_eq!(result, "Double: 10");
}

#[test]
fn test_formati_match_expressions() {
    let option = Some(42);
    let (tmpl, exprs) = formati_args("Value: {match option { Some(x) => x, None => 0 }}").unwrap();
    assert_eq!(tmpl, "Value: {0}");
    assert_eq!(exprs, vec!["match option { Some(x) => x, None => 0 }"]);
    let result = format!("Value: {0}", match option {
        Some(x) => x,
        None => 0,
    });
    assert_eq!(result, "Value: 42");
}

#[test]
fn test_formati_if_expressions() {
    let condition = true;
    let (tmpl, exprs) = formati_args("Value: {if condition { 42 } else { 0 }}").unwrap();
    assert_eq!(tmpl, "Value: {0}");
    assert_eq!(exprs, vec!["if condition { 42 } else { 0 }"]);
    let result = format!("Value: {0}", if condition { 42 } else { 0 });
    assert_eq!(result, "Value: 42");
}

#[test]
fn test_formati_macro_calls() {
    let (tmpl, exprs) = formati_args("Vec: {vec![1, 2, 3].len()}").unwrap();
    assert_eq!(tmpl, "Vec: {0}");
    assert_eq!(exprs, vec!["vec![1, 2, 3].len()"]);
    let result = format!("Vec: {0}", vec![1, 2, 3].len());
    assert_eq!(result, "Vec: 3");
}

#[test]
fn test_formati_lifetimes() {
    fn longest<'a>(x: &'a str, y: &'a str) -> &'a str {
        if x.len() > y.len() {
            x
        } else {
            y
        }
    }

    let s1 = "hello";
    let s2 = "world!";
    let (tmpl, exprs) = formati_args("Longest: {longest(s1, s2)}").unwrap();
    assert_eq!(tmpl, "Longest: {0}");
    assert_eq!(exprs, vec!["longest(s1, s2)"]);
    let result = format!("Longest: {0}", longest(s1, s2));
    assert_eq!(result, "Longest: world!");
}
