//! The structured path: the raw argument text of a tracing-style call is
//! split on top-level commas, the last string-literal segment is the
//! template, leading field segments pass through untouched, and the message
//! is rendered exactly as the expanded call would render it.

use formati::structured::wrap;

// Tests

// Full functional test of tracing events
#[test]
fn test_tracing_events() {
    let user_id = 42;
    let username = "test_user";

    // info with simple values
    let out = wrap("\"User logged in: {username} with id {user_id}\"").unwrap();
    assert!(out.front.is_empty());
    assert_eq!(out.template, "User logged in: {username} with id {user_id}");
    let output = format!("User logged in: {username} with id {user_id}");
    assert!(output.contains("User logged in: test_user with id 42"));

    // debug with dotted notation
    let user = (username, user_id);
    let out = wrap("\"Debug info: username={user.0}, id={user.1}\"").unwrap();
    assert_eq!(out.template, "Debug info: username={0}, id={1}");
    assert_eq!(out.extracted, vec!["user.0", "user.1"]);
    let output = format!("Debug info: username={0}, id={1}", user.0, user.1);
    assert!(output.contains("Debug info: username=test_user, id=42"));

    // error with named arguments
    let out = wrap("\"Error processing user {name}\", name = username").unwrap();
    assert_eq!(out.template, "Error processing user {name}");
    assert_eq!(out.named, vec![" name = username"]);
    assert!(out.positional.is_empty());
    let output = format!("Error processing user {name}", name = username);
    assert!(output.contains("Error processing user test_user"));

    // trace with a target and repeated expressions
    let out = wrap(
        "target: \"auth_service\", \"User {user.0} logged in with ID {user.1}, welcome {user.0}!\"",
    )
    .unwrap();
    assert_eq!(out.front, vec!["target: \"auth_service\""]);
    assert_eq!(out.template, "User {0} logged in with ID {1}, welcome {0}!");
    assert_eq!(out.extracted, vec!["user.0", "user.1"]);
    let output = format!("User {0} logged in with ID {1}, welcome {0}!", user.0, user.1);
    assert!(output.contains("User test_user logged in with ID 42, welcome test_user!"));

    // complex objects and attributes
    let account = (("premium", true), 365);
    let out = wrap(
        "account.type = account.0.0, active = account.0.1, \"Account details: type={account.0.0}, active={account.0.1}, days={account.1}\"",
    )
    .unwrap();
    assert_eq!(out.front, vec!["account.type = account.0.0", " active = account.0.1"]);
    assert_eq!(out.template, "Account details: type={0}, active={1}, days={2}");
    assert_eq!(out.extracted, vec!["account.0.0", "account.0.1", "account.1"]);
    let output = format!(
        "Account details: type={0}, active={1}, days={2}",
        account.0 .0, account.0 .1, account.1
    );
    assert!(output.contains("Account details: type=premium, active=true, days=365"));
}

#[test]
fn test_event_fields() {
    let person = ("Alice", 30, "Engineer");
    let address = ("123 Main St", "Anytown", "USA");

    let out = wrap(
        "department = \"Engineering\", years_of_service = 5, \"Complex info: {person.0} is a {person.2} living in {address.1}, {address.2}\"",
    )
    .unwrap();
    assert_eq!(
        out.front,
        vec!["department = \"Engineering\"", " years_of_service = 5"]
    );
    assert_eq!(out.template, "Complex info: {0} is a {1} living in {2}, {3}");
    assert_eq!(out.extracted, vec!["person.0", "person.2", "address.1", "address.2"]);
    let output = format!(
        "Complex info: {0} is a {1} living in {2}, {3}",
        person.0, person.2, address.1, address.2
    );
    assert!(output.contains("Complex info: Alice is a Engineer living in Anytown, USA"));
}
