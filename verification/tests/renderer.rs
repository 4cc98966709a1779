use templet::errors::Error;
use templet::parser::TempletParser;
use templet::renderer::Renderer;
use templet::value::{Entry, Scalar, Shape, Value};

fn text(s: &str) -> Value {
    Value::Scalar(Scalar::Str(s.to_string()))
}

fn record(fields: Vec<(&str, Value)>) -> Value {
    Value::Struct(
        fields
            .into_iter()
            .map(|(name, value)| Entry {
                name: name.to_string(),
                value,
            })
            .collect(),
    )
}

fn render(source: &str, root: &Value) -> (String, Result<(), Error>) {
    let tokens = TempletParser::parse(source).unwrap();
    let mut out = String::new();
    let result = Renderer::new().render(&tokens, root, &mut out);
    (out, result)
}

fn rendered(source: &str, root: &Value) -> String {
    let (out, result) = render(source, root);
    assert_eq!(result, Ok(()));
    out
}

#[test]
fn variables_of_the_root() {
    let root = record(vec![
        ("title", text("Hello")),
        ("count", Value::Scalar(Scalar::UInt(3))),
        ("ok", Value::Scalar(Scalar::Bool(true))),
    ]);
    assert_eq!(
        rendered("<h1>{{title}}</h1>{{count}} {{ok}} {{none}}{{0}}", &root),
        "<h1>Hello</h1>3 true "
    );
}

#[test]
fn sections_push_a_scope_and_variables_fall_back() {
    let root = record(vec![
        ("id", text("root")),
        ("name", text("n")),
        (
            "item",
            record(vec![
                ("id", text("inner")),
                ("sub", record(vec![("x", text("deep"))])),
            ]),
        ),
    ]);
    assert_eq!(
        rendered(
            "{{id}} {{#item}}{{id}} {{name}} {{#sub}}{{x}} {{id}}{{/sub}}{{/item}}",
            &root
        ),
        "root inner n deep inner"
    );
}

#[test]
fn sections_over_missing_fields_render_nothing() {
    let root = record(vec![("id", text("root"))]);
    assert_eq!(
        rendered("\\{{ note }}[{{#gone}}{{id}}{{/gone}}{{#3}}{{id}}{{/3}}]", &root),
        "[]"
    );
    assert_eq!(rendered("{{id}}", &text("scalar")), "");
}

#[test]
fn sections_iterate_and_positions_select() {
    let root = record(vec![
        (
            "items",
            Value::List(vec![
                Value::Tuple(vec![text("a"), text("b")]),
                Value::Tuple(vec![text("c"), text("d")]),
            ]),
        ),
        ("on", Value::Scalar(Scalar::Bool(true))),
        ("off", Value::Scalar(Scalar::Bool(false))),
    ]);
    assert_eq!(
        rendered(
            "{{#items}}{{1}}{{0}};{{/items}}{{#on}}yes{{/on}}{{#off}}no{{/off}}",
            &root
        ),
        "ba;dc;yes"
    );
}

#[test]
fn text_of_fields_is_escaped() {
    let root = record(vec![("t", text("a<b"))]);
    assert_eq!(rendered("{{t}}", &root), "a&lt;b");
}

#[test]
fn structured_field_stops_the_rendering() {
    let root = record(vec![("inner", record(vec![]))]);
    let (out, result) = render("a{{inner}}b", &root);
    assert_eq!(result, Err(Error::Unsupported(Shape::Struct)));
    assert_eq!(out, "a");
}
