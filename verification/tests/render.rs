use templet::errors::Error;
use templet::parse::parse;
use templet::render::{render_parts, Renderer};
use templet::template::Template;
use templet::templates::Templates;
use templet::value::{Entry, Fields, Pair, Scalar, Shape, Value};

fn text(s: &str) -> Value {
    Value::Scalar(Scalar::Str(s.to_string()))
}

fn raw(s: &str) -> Value {
    Value::Scalar(Scalar::Raw(s.to_string()))
}

fn signed(n: i128) -> Value {
    Value::Scalar(Scalar::Int(n))
}

fn boolean(b: bool) -> Value {
    Value::Scalar(Scalar::Bool(b))
}

fn some(v: Value) -> Value {
    Value::Optional(Some(Box::new(v)))
}

fn entries(fields: Vec<(&str, Value)>) -> Vec<Entry> {
    fields
        .into_iter()
        .map(|(name, value)| Entry {
            name: name.to_string(),
            value,
        })
        .collect()
}

fn record(fields: Vec<(&str, Value)>) -> Value {
    Value::Struct(entries(fields))
}

fn registry(sources: Vec<(&str, &str)>) -> Templates {
    Templates::new(
        sources
            .into_iter()
            .map(|(name, src)| (name.to_string(), Template::parse(src.to_string()).unwrap()))
            .collect(),
    )
}

fn render(source: &str, root: &Value) -> (String, Result<(), Error>) {
    let templates = registry(vec![("main", source)]);
    let mut out = String::new();
    let result = Renderer::new(&templates, root).render("main", &mut out);
    (out, result)
}

fn rendered(source: &str, root: &Value) -> String {
    let (out, result) = render(source, root);
    assert_eq!(result, Ok(()));
    out
}

#[test]
fn text_only_template_renders_its_source() {
    let source = "Dear { reader }, 1 < 2 & \"so\" on.\n";
    assert_eq!(rendered(source, &record(vec![])), source);
    assert_eq!(rendered("", &record(vec![])), "");
}

#[test]
fn name_and_nested_address() {
    let root = record(vec![
        ("name", text("Joe")),
        (
            "address",
            record(vec![("street", text("Broadway")), ("number", signed(10))]),
        ),
    ]);
    assert_eq!(
        rendered("- {{name}}@{{#address}}{{street}}{{/address}} -", &root),
        "- Joe@Broadway -"
    );
}

#[test]
fn roles_are_listed() {
    let root = record(vec![(
        "roles",
        Value::List(vec![
            record(vec![("name", text("SALES"))]),
            record(vec![("name", text("SUPPORT"))]),
        ]),
    )]);
    assert_eq!(
        rendered("{{#roles}}{{name}}, {{/roles}}", &root),
        "SALES, SUPPORT, "
    );
}

#[test]
fn error_flag_picks_the_branch() {
    let source = "{{#has_error}}Error: {{msg}}.{{/has_error}}{{^has_error}}OK{{/has_error}}";
    let calm = record(vec![("has_error", boolean(false)), ("msg", text("x"))]);
    assert_eq!(rendered(source, &calm), "OK");
    let upset = record(vec![("has_error", boolean(true)), ("msg", text("x"))]);
    assert_eq!(rendered(source, &upset), "Error: x.");
}

#[test]
fn variant_section_matches_the_active_variant() {
    let source = "{{#Purchase}}Price: {{price}}{{/Purchase}}";
    let purchase = Value::Enum(
        "Purchase".to_string(),
        Fields::Named(entries(vec![("price", signed(33))])),
    );
    assert_eq!(rendered(source, &purchase), "Price: 33");
    let subscription = Value::Enum(
        "Subscription".to_string(),
        Fields::Named(entries(vec![("price", signed(5))])),
    );
    assert_eq!(rendered(source, &subscription), "");
}

#[test]
fn boolean_sections() {
    let yes = record(vec![("flag", boolean(true))]);
    let no = record(vec![("flag", boolean(false))]);
    assert_eq!(rendered("{{#flag}}A{{/flag}}", &yes), "A");
    assert_eq!(rendered("{{#flag}}A{{/flag}}", &no), "");
    assert_eq!(rendered("{{^flag}}B{{/flag}}", &yes), "");
    assert_eq!(rendered("{{^flag}}B{{/flag}}", &no), "B");
}

#[test]
fn sequence_sections_render_once_per_element() {
    let source = "{{#xs}}<{{.}}>{{/xs}}{{^xs}}none{{/xs}}";
    let three = record(vec![(
        "xs",
        Value::List(vec![signed(1), signed(2), signed(3)]),
    )]);
    assert_eq!(rendered(source, &three), "<1><2><3>");
    let empty = record(vec![("xs", Value::List(vec![]))]);
    assert_eq!(rendered(source, &empty), "none");
}

#[test]
fn escaping_and_raw_text() {
    let root = record(vec![
        ("s", text("<a href=\"x\">&</a>")),
        ("r", raw("<a href=\"x\">&</a>")),
    ]);
    assert_eq!(
        rendered("{{s}}|{{r}}", &root),
        "&lt;a href=&quot;x&quot;&gt;&amp;&lt;&#x2f;a&gt;|<a href=\"x\">&</a>"
    );
}

#[test]
fn variables_fall_back_to_outer_scopes() {
    let root = record(vec![
        ("title", text("T")),
        (
            "items",
            Value::List(vec![
                record(vec![("name", text("a"))]),
                record(vec![("name", text("b")), ("title", text("own"))]),
            ]),
        ),
    ]);
    assert_eq!(
        rendered("{{#items}}{{name}}:{{title}};{{/items}}", &root),
        "a:T;b:own;"
    );
}

#[test]
fn fallback_applies_to_the_first_selector_only() {
    let root = record(vec![
        ("a", record(vec![("b", text("outer"))])),
        ("inner", record(vec![("a", record(vec![("c", text("x"))]))])),
    ]);
    assert_eq!(rendered("{{#inner}}[{{a.b}}]{{/inner}}", &root), "[]");
    assert_eq!(rendered("{{#inner}}[{{a.c}}]{{/inner}}", &root), "[x]");
}

#[test]
fn sections_do_not_fall_back() {
    let root = record(vec![
        ("flag", boolean(true)),
        ("inner", record(vec![("x", signed(1))])),
    ]);
    assert_eq!(
        rendered(
            "{{#inner}}{{#flag}}yes{{/flag}}{{^flag}}no{{/flag}}{{/inner}}",
            &root
        ),
        "no"
    );
}

#[test]
fn optional_values_unwrap() {
    let root = record(vec![
        ("present", some(text("here"))),
        ("absent", Value::Optional(None)),
        ("deep", some(record(vec![("x", some(signed(7)))]))),
    ]);
    assert_eq!(
        rendered(
            "{{present}}|{{absent}}|{{deep.x}}|{{#absent}}A{{/absent}}{{^absent}}N{{/absent}}|{{#deep}}{{x}}{{/deep}}",
            &root
        ),
        "here||7|N|7"
    );
}

#[test]
fn maps_are_looked_up_by_string_key() {
    let root = Value::Mapping(vec![
        Pair {
            key: signed(1),
            value: text("number"),
        },
        Pair {
            key: text("k"),
            value: text("string"),
        },
    ]);
    assert_eq!(rendered("{{k}}{{missing}}", &root), "string");
    assert_eq!(
        rendered("{{^.}}empty{{/.}}", &Value::Mapping(vec![])),
        "empty"
    );
}

#[test]
fn positions_reach_into_tuples_and_lists() {
    let root = record(vec![
        ("t", Value::Tuple(vec![text("x"), text("y")])),
        ("l", Value::List(vec![text("p"), text("q")])),
    ]);
    assert_eq!(rendered("{{t.1}}{{l[0]}}{{l[5]}}", &root), "yp");
}

#[test]
fn structured_value_as_variable_is_an_error() {
    let root = record(vec![
        ("e", Value::Enum("Unit".to_string(), Fields::Unit)),
        ("t", Value::Tuple(vec![signed(1)])),
    ]);
    let (out, result) = render("a{{e}}b", &root);
    assert_eq!(result, Err(Error::Unsupported(Shape::Enum)));
    assert_eq!(out, "a");
    let (_, result) = render("{{t}}", &root);
    assert_eq!(result, Err(Error::Unsupported(Shape::Tuple)));
    let (_, result) = render("{{.}}", &root);
    assert_eq!(result, Err(Error::Unsupported(Shape::Struct)));
}

#[test]
fn partials_render_in_the_current_scope() {
    let templates = registry(vec![
        ("main", "{{#items}}{{>\"row\"}}{{/items}}{{>\"gone\"}}."),
        ("row", "<{{name}}/{{owner}}>"),
    ]);
    let root = record(vec![
        ("owner", text("o")),
        (
            "items",
            Value::List(vec![
                record(vec![("name", text("a"))]),
                record(vec![("name", text("b"))]),
            ]),
        ),
    ]);
    let mut out = String::new();
    assert_eq!(
        Renderer::new(&templates, &root).render("main", &mut out),
        Ok(())
    );
    assert_eq!(out, "<a/o><b/o>.");
}

#[test]
fn unknown_template_and_endless_partials() {
    let templates = registry(vec![("a", "a{{>\"b\"}}"), ("b", "b{{>\"a\"}}")]);
    let root = record(vec![]);
    let mut out = String::new();
    assert_eq!(
        Renderer::new(&templates, &root).render("c", &mut out),
        Err(Error::UnknownTemplate)
    );
    assert_eq!(out, "");
    assert_eq!(
        Renderer::new(&templates, &root).render("a", &mut out),
        Err(Error::TooDeep)
    );
    assert_eq!(out.len(), 65);
}

#[test]
fn parts_render_against_a_given_stack() {
    let templates = registry(vec![]);
    let parts = parse("{{a}}{{b}}").unwrap();
    let outer = record(vec![("a", text("outer a")), ("b", text("outer b"))]);
    let inner = record(vec![("a", text("inner a"))]);
    let mut stack = vec![&outer, &inner];
    let mut out = String::from("> ");
    assert_eq!(
        render_parts(&templates, &parts, &mut stack, &mut out, 0),
        Ok(())
    );
    assert_eq!(out, "> inner aouter b");
    assert_eq!(stack.len(), 2);
}
