use templet::errors::Error;
use templet::reflect_render::Unescaped;
use templet::template::Template;
use templet::templates::{selected, Templates};
use templet::value::{Entry, Fields, Pair, Scalar, Shape, Value};

fn text(s: &str) -> Value {
    Value::Scalar(Scalar::Str(s.to_string()))
}

fn signed(n: i128) -> Value {
    Value::Scalar(Scalar::Int(n))
}

fn unsigned(n: u128) -> Value {
    Value::Scalar(Scalar::UInt(n))
}

fn boolean(b: bool) -> Value {
    Value::Scalar(Scalar::Bool(b))
}

fn some(v: Value) -> Value {
    Value::Optional(Some(Box::new(v)))
}

fn none() -> Value {
    Value::Optional(None)
}

fn record(fields: Vec<(&str, Value)>) -> Value {
    Value::Struct(entries(fields))
}

fn entries(fields: Vec<(&str, Value)>) -> Vec<Entry> {
    fields
        .into_iter()
        .map(|(name, value)| Entry {
            name: name.to_string(),
            value,
        })
        .collect()
}

fn item(name: &str) -> Value {
    record(vec![("name", text(name))])
}

fn page(css: Vec<Value>) -> Value {
    record(vec![
        (
            "head",
            record(vec![("title", text("Products")), ("css", Value::List(css))]),
        ),
        ("items", Value::List(vec![item("Bread"), item("Milk")])),
        ("user", Value::Enum("Admin".to_string(), Fields::Unit)),
    ])
}

fn first(second: Value) -> Value {
    record(vec![("second", second)])
}

fn second(third: Value) -> Value {
    record(vec![("third", third)])
}

fn bool_section(section: bool) -> Value {
    record(vec![("section", boolean(section))])
}

fn compile_templates(sources: Vec<(&'static str, &'static str)>) -> Templates {
    let mut list = Vec::new();
    for (name, src) in sources.iter() {
        list.push((name.to_string(), Template::parse(src.to_string()).unwrap()));
    }
    Templates::new(list)
}

#[test]
fn partials() {
    let templates = compile_templates(vec![
        (
            "main",
            r#"{{>"header"}}<ul>{{#items}}{{> "item"}}{{/items}}</ul>"#,
        ),
        ("header", r#"<h1>{{head.title}}</h1>"#),
        ("item", r#"<li>{{name}}</li>"#),
    ]);

    let str = templates.render_to_string("main", &page(vec![])).unwrap();
    assert_eq!(
        &str,
        "<h1>Products</h1><ul><li>Bread</li><li>Milk</li></ul>"
    );
}

#[test]
fn test_enum_sections() {
    let templates = compile_templates(vec![(
        "main",
        "<div>{{#Customer}}Customer: {{name}}{{/Customer}}</div>",
    )]);

    let src = templates
        .render_to_string(
            "main",
            &Value::Enum(
                "Customer".to_string(),
                Fields::Named(entries(vec![("name", text("Jane Doe"))])),
            ),
        )
        .unwrap();

    assert_eq!(src, "<div>Customer: Jane Doe</div>");
}

#[test]
fn test_option_this() {
    let templates = compile_templates(vec![("main", "{{.}}")]);

    let src = templates
        .render_to_string("main", &some(text("FOO")))
        .unwrap();
    assert_eq!(src, "FOO");
}

#[test]
fn test_option_path() {
    let templates = compile_templates(vec![("main", "third: {{second.third}}.")]);

    let src = templates
        .render_to_string("main", &some(first(some(second(some(unsigned(12)))))))
        .unwrap();
    assert_eq!(src, "third: 12.");
}

#[test]
fn test_option_path_missing() {
    let templates = compile_templates(vec![("main", "third: {{third}}{{^third}}N/A{{/third}}.")]);

    let src = templates
        .render_to_string("main", &some(second(none())))
        .unwrap();
    assert_eq!(src, "third: N/A.");
}

#[test]
fn test_option_section() {
    let templates = compile_templates(vec![("main", "({{#second}}Exists: {{third}}{{/second}})")]);

    let src = templates
        .render_to_string("main", &some(first(some(second(some(unsigned(12)))))))
        .unwrap();
    assert_eq!(src, "(Exists: 12)");
}

#[test]
fn true_section() {
    let templates = compile_templates(vec![("main", "{{#section}}OK{{/section}}")]);
    let src = templates
        .render_to_string("main", &bool_section(true))
        .unwrap();
    assert_eq!(src, "OK");
}

#[test]
fn false_section() {
    let templates = compile_templates(vec![("main", "{{#section}}OK{{/section}}")]);
    let src = templates
        .render_to_string("main", &bool_section(false))
        .unwrap();
    assert_eq!(src, "");
}

#[test]
fn empty_string_section() {
    let templates = compile_templates(vec![("main", "{{#.}}CONTENT{{/.}}")]);
    let src = templates.render_to_string("main", &text("")).unwrap();
    assert_eq!(src, "CONTENT");
}

#[test]
fn non_empty_string_section() {
    let templates = compile_templates(vec![("main", "{{#.}}CONTENT{{/.}}")]);
    let src = templates.render_to_string("main", &text("FOO")).unwrap();
    assert_eq!(src, "CONTENT");
}

#[test]
fn tuple_struct_section() {
    let templates = compile_templates(vec![("main", "{{#.}}{{.}}, {{/.}}")]);
    let src = templates
        .render_to_string(
            "main",
            &Value::Tuple(vec![text("foo"), signed(42), boolean(true)]),
        );
    assert_eq!(src, Err(Error::Unsupported(Shape::Tuple)));
}

#[test]
fn tuple_section() {
    let templates = compile_templates(vec![("main", "{{#.}}{{.}}, {{/.}}")]);
    let src = templates
        .render_to_string(
            "main",
            &Value::Tuple(vec![text("foo"), signed(42), boolean(true)]),
        );
    assert_eq!(src, Err(Error::Unsupported(Shape::Tuple)));
}

#[test]
fn test_true_inverted_section() {
    let templates = compile_templates(vec![("main", "{{^section}}OK{{/section}}")]);
    let src = templates
        .render_to_string("main", &bool_section(true))
        .unwrap();
    assert_eq!(src, "");
}

#[test]
fn test_false_inverted_section() {
    let templates = compile_templates(vec![("main", "{{^section}}OK{{/section}}")]);
    let src = templates
        .render_to_string("main", &bool_section(false))
        .unwrap();
    assert_eq!(src, "OK");
}

#[test]
fn render_unit_enum() {
    let templates = compile_templates(vec![("main", "{{value}}")]);
    let src = templates
        .render_to_string(
            "main",
            &record(vec![(
                "value",
                Value::Enum("FooBar".to_string(), Fields::Unit),
            )]),
        );
    assert_eq!(src, Err(Error::Unsupported(Shape::Enum)));
}

#[test]
fn render_wrapper_enum_string() {
    let templates = compile_templates(vec![("main", "{{0}}")]);
    let src = templates
        .render_to_string(
            "main",
            &Value::Enum(
                "String".to_string(),
                Fields::Unnamed(vec![text("FOOBAR")]),
            ),
        )
        .unwrap();
    assert_eq!(src, "FOOBAR");
}

#[test]
fn render_wrapper_enum_int() {
    let templates = compile_templates(vec![("main", "{{0}}")]);
    let src = templates
        .render_to_string(
            "main",
            &Value::Enum("Int".to_string(), Fields::Unnamed(vec![signed(42)])),
        )
        .unwrap();
    assert_eq!(src, "42");
}

#[test]
fn render_escaped() {
    let templates = compile_templates(vec![("main", "{{.}}")]);
    let src = templates
        .render_to_string("main", &text("<div>FOOBAR</div>"))
        .unwrap();
    assert_eq!(src, "&lt;div&gt;FOOBAR&lt;&#x2f;div&gt;");
}

#[test]
fn render_unescaped() {
    let templates = compile_templates(vec![("main", "{{.}}")]);
    let src = templates
        .render_to_string(
            "main",
            &Unescaped("<div>FOOBAR</div>".into()).into_value(),
        )
        .unwrap();
    assert_eq!(src, "<div>FOOBAR</div>");
}

#[test]
fn render_unit_struct() {
    let templates = compile_templates(vec![("main", "{{.}}")]);
    let src = templates.render_to_string("main", &Value::Tuple(vec![signed(42)]));
    assert_eq!(src, Err(Error::Unsupported(Shape::Tuple)));
}

#[test]
fn unknown_template_is_an_error() {
    let templates = compile_templates(vec![("main", "x")]);
    assert_eq!(
        templates.render_to_string("other", &text("")),
        Err(Error::UnknownTemplate)
    );
}

#[test]
fn unknown_partial_is_skipped() {
    let templates = compile_templates(vec![("main", "a{{>\"nowhere\"}}b")]);
    assert_eq!(
        templates.render_to_string("main", &text("")),
        Ok("ab".to_string())
    );
}

#[test]
fn later_template_replaces_earlier() {
    let templates = compile_templates(vec![("main", "old"), ("main", "new")]);
    assert_eq!(
        templates.render_to_string("main", &text("")),
        Ok("new".to_string())
    );
}

#[test]
fn partial_that_includes_itself_stops() {
    let templates = compile_templates(vec![("main", "x{{>\"main\"}}")]);
    let mut out = String::new();
    assert_eq!(
        templates.render("main", &mut out, &text("")),
        Err(Error::TooDeep)
    );
    assert_eq!(out, "x".repeat(65));
}

#[test]
fn structured_variable_is_unsupported() {
    let templates = compile_templates(vec![("main", "a{{.}}b")]);
    let mut out = String::new();
    assert_eq!(
        templates.render("main", &mut out, &record(vec![])),
        Err(Error::Unsupported(Shape::Struct))
    );
    assert_eq!(out, "a");
    assert_eq!(
        templates.render_to_string("main", &Value::List(vec![])),
        Err(Error::Unsupported(Shape::List))
    );
    assert_eq!(
        templates.render_to_string(
            "main",
            &Value::Mapping(vec![Pair {
                key: text("k"),
                value: signed(1)
            }])
        ),
        Err(Error::Unsupported(Shape::Mapping))
    );
    assert_eq!(
        templates.render_to_string("main", &Value::Tuple(vec![signed(1), signed(2)])),
        Err(Error::Unsupported(Shape::Tuple))
    );
}

#[test]
fn numbers_are_written_in_decimal() {
    let templates = compile_templates(vec![("main", "{{a}} {{b}} {{c}} {{d}} {{e}}")]);
    let data = record(vec![
        ("a", signed(0)),
        ("b", signed(-7)),
        ("c", signed(i128::MIN)),
        ("d", unsigned(u128::MAX)),
        ("e", Value::Scalar(Scalar::Float("1.5".to_string()))),
    ]);
    assert_eq!(
        templates.render_to_string("main", &data),
        Ok(
            "0 -7 -170141183460469231731687303715884105728 340282366920938463463374607431768211455 1.5"
                .to_string()
        )
    );
}

#[test]
fn every_special_character_is_escaped() {
    let templates = compile_templates(vec![("main", "{{s}}|{{c}}|{{p}}")]);
    let data = record(vec![
        ("s", text("\"&'/<>é")),
        ("c", Value::Scalar(Scalar::Char('<'))),
        ("p", Value::Scalar(Scalar::Path("a/b".to_string()))),
    ]);
    assert_eq!(
        templates.render_to_string("main", &data),
        Ok("&quot;&amp;&#x27;&#x2f;&lt;&gt;é|&lt;|a&#x2f;b".to_string())
    );
}

#[test]
fn list_section_over_page() {
    let templates = compile_templates(vec![(
        "main",
        "{{#head.css}}<link href=\"{{.}}\" />{{/head.css}}{{^head.css}}none{{/head.css}}",
    )]);
    assert_eq!(
        templates.render_to_string("main", &page(vec![text("/index.css"), text("/main.css")])),
        Ok("<link href=\"&#x2f;index.css\" /><link href=\"&#x2f;main.css\" />".to_string())
    );
    assert_eq!(
        templates.render_to_string("main", &page(vec![])),
        Ok("none".to_string())
    );
}

#[test]
fn load_parses_every_source() {
    let sources = vec![
        ("index.html".to_string(), "<{{>\"part/x.html\"}}>".to_string()),
        ("part/x.html".to_string(), "{{.}}".to_string()),
    ];
    let templates = Templates::load(&sources).unwrap();
    assert_eq!(
        templates.render_to_string("index.html", &text("v")),
        Ok("<v>".to_string())
    );
}

#[test]
fn load_names_the_source_that_fails() {
    let sources = vec![
        ("good".to_string(), "fine".to_string()),
        ("bad".to_string(), "abc{{#a}}".to_string()),
        ("worse".to_string(), "{{".to_string()),
    ];
    match Templates::load(&sources) {
        Err(templet::templates::TemplateLoadError::Parse { name, error }) => {
            assert_eq!(name, "bad");
            assert_eq!(error, templet::parse::ParseError { position: 3 });
        }
        Ok(_) => panic!("a source that is no template was loaded"),
    }
}

#[test]
fn variables_inside_a_section_reach_the_scope_around_it() {
    let templates = compile_templates(vec![(
        "main",
        "{{#address}}{{street}} by {{name}}{{/address}}",
    )]);
    let data = record(vec![
        ("name", text("Joe")),
        (
            "address",
            record(vec![("street", text("Broadway")), ("number", signed(10))]),
        ),
    ]);
    assert_eq!(
        templates.render_to_string("main", &data),
        Ok("Broadway by Joe".to_string())
    );
}

#[test]
fn true_section_keeps_the_scope() {
    let templates = compile_templates(vec![(
        "main",
        "{{#has_error}}Error: {{msg}}.{{/has_error}}",
    )]);
    let data = record(vec![("has_error", boolean(true)), ("msg", text("x"))]);
    let mut out = String::new();
    assert_eq!(templates.render("main", &mut out, &data), Ok(()));
    assert_eq!(out, "Error: x.");
}

#[test]
fn renderer_takes_parts_and_data() {
    let templates = compile_templates(vec![("row", "<{{name}}>")]);
    let parts = templet::parse::parse("{{#items}}{{>\"row\"}}{{owner}}{{/items}}").unwrap();
    let data = record(vec![
        ("owner", text("o")),
        ("items", Value::List(vec![item("a"), item("b")])),
    ]);
    let renderer = templet::reflect_render::Renderer::new(&templates);
    let mut out = String::new();
    assert_eq!(renderer.render_parts(&parts, &data, &mut out), Ok(()));
    assert_eq!(out, "<a>o<b>o");
    assert_eq!(renderer.render_value(&some(signed(5)), &mut out), Ok(()));
    assert_eq!(out, "<a>o<b>o5");
    assert_eq!(
        renderer.render_value(&data, &mut out),
        Err(Error::Unsupported(Shape::Struct))
    );
}

#[test]
fn only_regular_files_with_a_listed_extension_are_selected() {
    let extensions = vec!["html".to_string(), "mustache".to_string()];
    assert_eq!(selected(true, Some("html"), &extensions), true);
    assert_eq!(selected(true, Some("mustache"), &extensions), true);
    assert_eq!(selected(true, Some("HTML"), &extensions), false);
    assert_eq!(selected(true, Some("htm"), &extensions), false);
    assert_eq!(selected(true, None, &extensions), false);
    assert_eq!(selected(false, Some("html"), &extensions), false);
    assert_eq!(selected(true, Some("html"), &Vec::new()), false);
}
