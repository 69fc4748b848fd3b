use agent_core::json::Json;
use agent_core::scheduling::webhook_loader::{fill_template, navigate_json_value, render_template, Reserved};

fn json(text: &str) -> Json {
    Json::parse(text.as_bytes()).unwrap()
}

#[test]
fn scheduler_render_template_simple() {
    let template = "Hello {{name}}!";
    let payload = json(r#"{"name": "world"}"#);
    assert_eq!(render_template(template, &payload), "Hello world!");
}

#[test]
fn scheduler_render_template_nested() {
    let template = "Issue: {{issue.title}} by {{issue.user.login}}";
    let payload = json(r#"{"issue": {"title": "Fix bug", "user": {"login": "alice"}}}"#);
    assert_eq!(render_template(template, &payload), "Issue: Fix bug by alice");
}

#[test]
fn scheduler_render_template_array_index() {
    let template = "First commit: {{commits[0].message}}";
    let payload = json(r#"{"commits": [{"message": "fix"}, {"message": "feat"}]}"#);
    assert_eq!(render_template(template, &payload), "First commit: fix");
}

#[test]
fn scheduler_render_template_missing_field() {
    let template = "Hello {{name}}!";
    let payload = json("{}");
    assert_eq!(render_template(template, &payload), "Hello !");
}

#[test]
fn scheduler_render_template_multiple_same_field() {
    let template = "{{x}} and {{x}}";
    let payload = json(r#"{"x": "foo"}"#);
    assert_eq!(render_template(template, &payload), "foo and foo");
}

#[test]
fn scheduler_render_template_no_placeholders() {
    let template = "No placeholders here.";
    let payload = json("{}");
    assert_eq!(render_template(template, &payload), "No placeholders here.");
}

#[test]
fn scheduler_render_template_number_and_bool() {
    let template = "Count: {{count}}, Active: {{active}}";
    let payload = json(r#"{"count": 42, "active": true}"#);
    assert_eq!(render_template(template, &payload), "Count: 42, Active: true");
}

#[test]
fn scheduler_render_template_unclosed_braces_ignored() {
    let template = "Hello {{name} not closed";
    let payload = json(r#"{"name": "world"}"#);
    assert_eq!(render_template(template, &payload), "Hello {{name} not closed");
}

#[test]
fn webhook_loader_render_template_simple() {
    let payload = json(r#"{"name": "world"}"#);
    assert_eq!(render_template("Hello {{name}}!", &payload), "Hello world!");
}

#[test]
fn webhook_loader_render_template_nested() {
    let payload = json(r#"{"issue": {"title": "Fix bug", "user": {"login": "alice"}}}"#);
    assert_eq!(
        render_template("Issue: {{issue.title}} by {{issue.user.login}}", &payload),
        "Issue: Fix bug by alice"
    );
}

#[test]
fn webhook_loader_render_template_array_index() {
    let payload = json(r#"{"commits": [{"message": "fix"}, {"message": "feat"}]}"#);
    assert_eq!(
        render_template("First commit: {{commits[0].message}}", &payload),
        "First commit: fix"
    );
}

#[test]
fn webhook_loader_render_template_missing_field() {
    assert_eq!(render_template("Hello {{name}}!", &json("{}")), "Hello !");
}

#[test]
fn webhook_loader_render_template_multiple_same_field() {
    let payload = json(r#"{"x": "foo"}"#);
    assert_eq!(render_template("{{x}} and {{x}}", &payload), "foo and foo");
}

#[test]
fn webhook_loader_render_template_no_placeholders() {
    assert_eq!(
        render_template("No placeholders here.", &json("{}")),
        "No placeholders here."
    );
}

#[test]
fn webhook_loader_render_template_number_and_bool() {
    let payload = json(r#"{"count": 42, "active": true}"#);
    assert_eq!(
        render_template("Count: {{count}}, Active: {{active}}", &payload),
        "Count: 42, Active: true"
    );
}

#[test]
fn webhook_loader_render_template_unclosed_braces_ignored() {
    let payload = json(r#"{"name": "world"}"#);
    assert_eq!(
        render_template("Hello {{name} not closed", &payload),
        "Hello {{name} not closed"
    );
}

#[test]
fn objects_and_null_in_a_template() {
    let payload = json(r#"{"a": {"b": [1, "x"]}, "n": null, "f": 1.50}"#);
    assert_eq!(render_template("{{a}}", &payload), r#"{"b":[1,"x"]}"#);
    assert_eq!(render_template("[{{n}}]", &payload), "[]");
    assert_eq!(render_template("{{ f }}", &payload), "1.5");
    assert_eq!(render_template("{{a.b[1]}}", &payload), "x");
    assert_eq!(render_template("{{a.b[2]}}", &payload), "");
}

#[test]
fn replacements_are_not_looked_at_again() {
    let payload = json(r#"{"a": "{{b}}", "b": "no"}"#);
    assert_eq!(render_template("{{a}}", &payload), "{{b}}");
}

#[test]
fn the_last_value_of_a_key_counts() {
    let value = Json::Object(vec![
        ("a".to_string(), Json::Bool(true)),
        ("b".to_string(), Json::Null),
        ("a".to_string(), Json::Str("x".to_string())),
    ]);
    assert_eq!(value.to_text(), r#"{"a":"x","b":null}"#);
    assert_eq!(value.get("a").unwrap().as_str(), Some("x"));
    assert_eq!(render_template("{{a}}", &value), "x");
}

#[test]
fn reserved_placeholders() {
    let payload = json(r#"{"payload": "field", "event_type": "field", "x": 1}"#);
    let reserved = Reserved { payload: "ALL", event_type: Some("push") };
    assert_eq!(
        fill_template("{{payload}}/{{event_type}}/{{x}}", &payload, Some(reserved)),
        "ALL/push/1"
    );
    let reserved = Reserved { payload: "ALL", event_type: None };
    assert_eq!(
        fill_template("{{payload}}/{{event_type}}", &payload, Some(reserved)),
        "ALL/field"
    );
    assert_eq!(render_template("{{payload}}/{{event_type}}", &payload), "field/field");
}

#[test]
fn paths_into_a_value() {
    let payload = json(r#"{"a": [[10, 20], [30]]}"#);
    let v = navigate_json_value(&payload, "a[0][1]").unwrap();
    assert_eq!(v.to_text(), "20");
    assert!(navigate_json_value(&payload, "a[1][1]").is_none());
    assert!(navigate_json_value(&payload, "b").is_none());
    assert_eq!(navigate_json_value(&payload, "a").unwrap().to_text(), "[[10,20],[30]]");
}
