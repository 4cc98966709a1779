use templet::parse::ParseError;
use templet::parser::{Field, Part, TempletParser};

fn text(s: &str) -> Part {
    Part::Text(s.to_string())
}

fn named(s: &str) -> Field {
    Field::Named(s.to_string())
}

#[test]
fn simple_variable() {
    let result = TempletParser::parse("<h1>{{title}}</h1>");
    assert_eq!(
        result,
        Ok(vec![
            Part::Text("<h1>".into()),
            Part::Variable(Field::Named("title".into())),
            Part::Text("</h1>".into())
        ])
    );
}

#[test]
fn text_wtf() {
    let result = TempletParser::parse("{{/foobar}}");
    assert_eq!(result, Err(ParseError { position: 0 }));
}

#[test]
fn simple_section() {
    let result =
        TempletParser::parse("\\{{ Cool shit here }}<ul>{{#items}}<li>{{id}}</li>{{/items}}</ul>");
    assert_eq!(
        result,
        Ok(vec![
            Part::Comment,
            Part::Text("<ul>".into()),
            Part::Section(
                Field::Named("items".into()),
                vec![
                    Part::Text("<li>".into()),
                    Part::Variable(Field::Named("id".into())),
                    Part::Text("</li>".into())
                ]
            ),
            Part::Text("</ul>".into())
        ])
    );
}

#[test]
fn small_numbers_are_indexes() {
    assert_eq!(
        TempletParser::parse("{{ 0 }}{{255}}"),
        Ok(vec![
            Part::Variable(Field::Index(0)),
            Part::Variable(Field::Index(255))
        ])
    );
    assert_eq!(
        TempletParser::parse("a{{256}}"),
        Err(ParseError { position: 1 })
    );
}

#[test]
fn reading_stops_at_a_wrong_close() {
    assert_eq!(
        TempletParser::parse("x{{#a}}y{{/b}}z"),
        Err(ParseError { position: 1 })
    );
    assert_eq!(
        TempletParser::parse("{{#items}}{{/other}}"),
        Err(ParseError { position: 0 })
    );
    assert_eq!(
        TempletParser::parse("x{{#a}}y{{/a}}z"),
        Ok(vec![
            text("x"),
            Part::Section(named("a"), vec![text("y")]),
            text("z")
        ])
    );
}

#[test]
fn paths_are_single_names() {
    assert_eq!(
        TempletParser::parse("{{a.b}}"),
        Err(ParseError { position: 0 })
    );
    assert_eq!(
        TempletParser::parse("{{_x1}}"),
        Ok(vec![Part::Variable(named("_x1"))])
    );
    assert_eq!(TempletParser::parse(""), Ok(vec![]));
}
