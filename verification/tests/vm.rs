use templet::compiler::Compiler;
use templet::render::Renderer;
use templet::template::Template;
use templet::templates::Templates;
use templet::value::{Entry, Fields, Scalar, Shape, Value};
use templet::vm::{execute_to, Error, OpCode};
use templet::Expr;

fn text(s: &str) -> Value {
    Value::Scalar(Scalar::Str(s.to_string()))
}

fn signed(n: i128) -> Value {
    Value::Scalar(Scalar::Int(n))
}

fn some(v: Value) -> Value {
    Value::Optional(Some(Box::new(v)))
}

fn record(fields: Vec<(&str, Value)>) -> Value {
    Value::Struct(
        fields
            .into_iter()
            .map(|(name, value)| Entry {
                name: name.to_string(),
                value,
            })
            .collect(),
    )
}

fn section(var: &str, body: Vec<Expr>) -> Expr {
    Expr::Section {
        var: var.into(),
        body,
    }
}

fn run(exprs: Vec<Expr>, root: &Value) -> (String, Result<(), Error>) {
    let bytecode = Compiler::new().compile(exprs);
    let mut buf = String::new();
    let result = execute_to(&mut buf, &bytecode, root);
    (buf, result)
}

#[test]
fn test_write() {
    let compiler = Compiler::new();
    let bytecode = compiler.compile(vec![
        Expr::String("foobar(".into()),
        Expr::Var("int".into()),
        Expr::String(", ".into()),
        Expr::Var("str".into()),
        Expr::String(");".into()),
    ]);

    let mut buf = String::new();
    let props = record(vec![("int", some(signed(113))), ("str", some(text("qwe")))]);
    execute_to(&mut buf, &bytecode, &props).unwrap();
    assert_eq!(&buf, "foobar(113, qwe);");
}

#[test]
fn test_section() {
    let compiler = Compiler::new();
    let ast = vec![Expr::Section {
        var: "items".into(),
        body: vec![
            Expr::String("Item: ".into()),
            Expr::Var("value".into()),
            Expr::String("! ".into()),
        ],
    }];
    let bytecode = compiler.compile(ast);

    let mut buf = String::new();
    let props = record(vec![(
        "items",
        Value::List(vec![
            record(vec![("value", signed(42))]),
            record(vec![("value", signed(666))]),
        ]),
    )]);
    execute_to(&mut buf, &bytecode, &props).unwrap();
    assert_eq!(&buf, "Item: 42! Item: 666! ");
}

#[test]
fn bytecode_layout() {
    let bytecode = Compiler::new().compile(vec![
        Expr::String("hé".into()),
        section("a", vec![Expr::Var("b".into())]),
    ]);
    assert_eq!(
        bytecode,
        vec![
            0x01, 3, 0, 0, 0, 0, 0, 0, 0, b'h', 0xc3, 0xa9, 0x03, 1, 0, 0, 0, 0, 0, 0, 0, b'a', 0x02,
            1, 0, 0, 0, 0, 0, 0, 0, b'b', 0x07, 0x04
        ]
    );
}

#[test]
fn opcodes_and_bytes() {
    assert_eq!(OpCode::PushStr.byte(), 0x01);
    assert_eq!(OpCode::PushVar.byte(), 0x02);
    assert_eq!(OpCode::StartSection.byte(), 0x03);
    assert_eq!(OpCode::EndSection.byte(), 0x04);
    assert_eq!(OpCode::WriteVar.byte(), 0x07);
    assert_eq!(OpCode::try_from(0x07), Ok(OpCode::WriteVar));
    assert_eq!(OpCode::try_from(0x05), Err(Error::InvalidOpCode(0x05)));
    assert_eq!(OpCode::try_from(0x00), Err(Error::InvalidOpCode(0x00)));
}

#[test]
fn empty_list_skips_the_body() {
    let exprs = vec![
        Expr::String("[".into()),
        section(
            "items",
            vec![
                Expr::String("x".into()),
                section("inner", vec![Expr::Var("v".into())]),
            ],
        ),
        Expr::String("]".into()),
    ];
    let (buf, result) = run(exprs, &record(vec![("items", Value::List(vec![]))]));
    assert_eq!(result, Ok(()));
    assert_eq!(buf, "[]");
}

#[test]
fn nested_sections_and_fallback() {
    let exprs = vec![section(
        "rows",
        vec![
            section(
                "cells",
                vec![Expr::Var(".".into()), Expr::Var("sep".into())],
            ),
            Expr::String(";".into()),
        ],
    )];
    let row = |cells: Vec<i128>| {
        record(vec![(
            "cells",
            Value::List(cells.into_iter().map(signed).collect()),
        )])
    };
    let root = record(vec![
        ("sep", text(",")),
        ("rows", Value::List(vec![row(vec![1, 2]), row(vec![]), row(vec![3])])),
    ]);
    let (buf, result) = run(exprs, &root);
    assert_eq!(result, Ok(()));
    assert_eq!(buf, "1,2,;;3,;");
}

#[test]
fn boolean_and_variant_sections() {
    let exprs = vec![
        section("yes", vec![Expr::String("A".into())]),
        section("no", vec![Expr::String("B".into())]),
        section(
            "who",
            vec![section("Customer", vec![Expr::Var("name".into())])],
        ),
        section("missing", vec![Expr::String("C".into())]),
    ];
    let root = record(vec![
        ("yes", Value::Scalar(Scalar::Bool(true))),
        ("no", Value::Scalar(Scalar::Bool(false))),
        (
            "who",
            Value::Enum(
                "Customer".to_string(),
                Fields::Named(vec![Entry {
                    name: "name".to_string(),
                    value: text("<Jane>"),
                }]),
            ),
        ),
    ]);
    let (buf, result) = run(exprs, &root);
    assert_eq!(result, Ok(()));
    assert_eq!(buf, "A&lt;Jane&gt;");
}

#[test]
fn missing_variable_writes_nothing() {
    let (buf, result) = run(
        vec![
            Expr::String("a".into()),
            Expr::Var("nowhere".into()),
            Expr::String("b".into()),
        ],
        &record(vec![]),
    );
    assert_eq!(result, Ok(()));
    assert_eq!(buf, "ab");
}

#[test]
fn structured_variable_stops_the_run() {
    let (buf, result) = run(
        vec![
            Expr::String("a".into()),
            Expr::Var("list".into()),
            Expr::String("b".into()),
        ],
        &record(vec![("list", Value::List(vec![]))]),
    );
    assert_eq!(result, Err(Error::UnsupportedType(Shape::List)));
    assert_eq!(buf, "a");
}

#[test]
fn path_that_is_no_path_is_refused() {
    let (buf, result) = run(
        vec![Expr::String("a".into()), Expr::Var("a b".into())],
        &record(vec![]),
    );
    assert_eq!(result, Err(Error::InvalidField));
    assert_eq!(buf, "a");
}

#[test]
fn malformed_bytecode() {
    let root = record(vec![]);
    let mut buf = String::new();
    assert_eq!(
        execute_to(&mut buf, &[0x09], &root),
        Err(Error::InvalidOpCode(0x09))
    );
    assert_eq!(
        execute_to(&mut buf, &[0x01, 1, 0, 0], &root),
        Err(Error::UnexpectedEof)
    );
    assert_eq!(
        execute_to(&mut buf, &[0x01, 2, 0, 0, 0, 0, 0, 0, 0, b'a'], &root),
        Err(Error::UnexpectedEof)
    );
    assert_eq!(
        execute_to(&mut buf, &[0x01, 1, 0, 0, 0, 0, 0, 0, 0, 0xff], &root),
        Err(Error::InvalidUtf8)
    );
    assert_eq!(execute_to(&mut buf, &[0x07], &root), Err(Error::EmptyStack));
    assert_eq!(buf, "");
    assert_eq!(
        execute_to(&mut buf, &[0x01, 1, 0, 0, 0, 0, 0, 0, 0, b'a', 0x04, 0x09], &root),
        Ok(())
    );
    assert_eq!(buf, "a");
}

#[test]
fn machine_and_context_engine_agree() {
    let exprs = vec![
        Expr::String("<ul>".into()),
        section(
            "items",
            vec![
                Expr::String("<li>".into()),
                Expr::Var("name".into()),
                section("tags", vec![Expr::Var(".".into()), Expr::String(" ".into())]),
                Expr::Var("owner".into()),
                Expr::String("</li>".into()),
            ],
        ),
        Expr::String("</ul>".into()),
        Expr::Var("items".into()),
        Expr::String("never".into()),
    ];
    let source = "<ul>{{#items}}<li>{{name}}{{#tags}}{{.}} {{/tags}}{{owner}}</li>{{/items}}</ul>{{items}}never";
    let item = |name: &str, tags: Vec<&str>| {
        record(vec![
            ("name", text(name)),
            ("tags", Value::List(tags.into_iter().map(text).collect())),
        ])
    };
    let root = record(vec![
        ("owner", text("<me>")),
        (
            "items",
            Value::List(vec![item("a", vec!["x", "y"]), item("b", vec![])]),
        ),
    ]);

    let (machine_out, machine_result) = run(exprs, &root);

    let templates = Templates::new(vec![(
        "main".to_string(),
        Template::parse(source.to_string()).unwrap(),
    )]);
    let mut engine_out = String::new();
    let engine_result = Renderer::new(&templates, &root).render("main", &mut engine_out);

    assert_eq!(machine_out, engine_out);
    assert_eq!(
        machine_out,
        "<ul><li>ax y &lt;me&gt;</li><li>b&lt;me&gt;</li></ul>"
    );
    assert_eq!(machine_result, Err(Error::UnsupportedType(Shape::List)));
    assert_eq!(
        engine_result,
        Err(templet::errors::Error::Unsupported(Shape::List))
    );
}
