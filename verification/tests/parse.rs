use templet::parse::{access, parse, Access, Field, ParseError, Part};

fn chars(s: &str) -> Vec<char> {
    s.chars().collect()
}

fn named(s: &str) -> Field {
    Field::Named(s.to_string())
}

#[test]
fn variable() {
    let this_var = parse("{{ . }}");
    assert_eq!(this_var, Ok(vec![Part::Variable(Access::This)]));

    let path_var = parse("{{ foo[12].1 }}");
    assert_eq!(
        path_var,
        Ok(vec![Part::Variable(Access::Path(vec![
            named("foo"),
            Field::Index(12),
            Field::Nth(1)
        ]))])
    );
}

#[test]
fn access_path() {
    let (path, _) = access(&chars("foo.0.bar.1[12]"), 0).unwrap();
    assert_eq!(
        path,
        Access::Path(vec![
            named("foo"),
            Field::Nth(0),
            named("bar"),
            Field::Nth(1),
            Field::Index(12)
        ])
    );
}

#[test]
fn access_variant() {
    let (variant, _) = access(&chars("FooBar"), 0).unwrap();
    assert_eq!(variant, Access::Variant("FooBar".to_string()));
}

#[test]
fn access_this() {
    let (variant, _) = access(&chars("."), 0).unwrap();
    assert_eq!(variant, Access::This);
}

#[test]
fn access_reports_where_it_ends() {
    let (_, end) = access(&chars("foo.bar }}"), 0).unwrap();
    assert_eq!(end, 7);
    assert_eq!(access(&chars("#foo"), 0), None);
    assert_eq!(access(&chars(""), 0), None);
}

#[test]
fn capitals_alone_are_a_name() {
    let (path, _) = access(&chars("FOO"), 0).unwrap();
    assert_eq!(path, Access::Path(vec![named("FOO")]));
    let (path, _) = access(&chars("F"), 0).unwrap();
    assert_eq!(path, Access::Path(vec![named("F")]));
    let (variant, _) = access(&chars("FOObar"), 0).unwrap();
    assert_eq!(variant, Access::Variant("FOObar".to_string()));
}

#[test]
fn unicode_identifiers() {
    assert_eq!(
        parse("{{straße.größe}}"),
        Ok(vec![Part::Variable(Access::Path(vec![
            named("straße"),
            named("größe")
        ]))])
    );
    assert_eq!(
        parse("{{Ärger}}"),
        Ok(vec![Part::Variable(Access::Variant("Ärger".to_string()))])
    );
    assert_eq!(parse("{{a💝}}"), Err(ParseError { position: 0 }));
}

#[test]
fn underscores_in_identifiers() {
    assert_eq!(
        parse("{{_a_1}}"),
        Ok(vec![Part::Variable(Access::Path(vec![named("_a_1")]))])
    );
}

#[test]
fn empty_source_has_no_parts() {
    assert_eq!(parse(""), Ok(vec![]));
}

#[test]
fn plain_text_is_one_part() {
    assert_eq!(
        parse("Hello, { world }!"),
        Ok(vec![Part::Text("Hello, { world }!".to_string())])
    );
}

#[test]
fn section_with_matching_close() {
    assert_eq!(
        parse("{{#items}}{{/items}}"),
        Ok(vec![Part::Section(
            Access::Path(vec![named("items")]),
            vec![]
        )])
    );
}

#[test]
fn section_with_other_close_fails() {
    assert_eq!(
        parse("{{#items}}{{/other}}"),
        Err(ParseError { position: 0 })
    );
    assert_eq!(
        parse("ab{{^items}}x{{/item}}"),
        Err(ParseError { position: 2 })
    );
}

#[test]
fn nested_sections() {
    assert_eq!(
        parse("<ul>{{#a}}{{^b.c}}-{{/b.c}}{{x}}{{/a}}</ul>"),
        Ok(vec![
            Part::Text("<ul>".to_string()),
            Part::Section(
                Access::Path(vec![named("a")]),
                vec![
                    Part::InvertedSection(
                        Access::Path(vec![named("b"), named("c")]),
                        vec![Part::Text("-".to_string())]
                    ),
                    Part::Variable(Access::Path(vec![named("x")])),
                ]
            ),
            Part::Text("</ul>".to_string()),
        ])
    );
}

#[test]
fn comments_are_dropped() {
    assert_eq!(
        parse("a\\{{ note }}b"),
        Ok(vec![
            Part::Text("a".to_string()),
            Part::Comment,
            Part::Text("b".to_string())
        ])
    );
    assert_eq!(parse("\\{{}}"), Err(ParseError { position: 0 }));
    assert_eq!(parse("\\{{ a } b }}"), Err(ParseError { position: 0 }));
}

#[test]
fn text_ends_where_a_tag_opens() {
    assert_eq!(
        parse("a{{x}}b\\{{c}}"),
        Ok(vec![
            Part::Text("a".to_string()),
            Part::Variable(Access::Path(vec![named("x")])),
            Part::Text("b".to_string()),
            Part::Comment,
        ])
    );
}

#[test]
fn includes_take_a_quoted_name() {
    assert_eq!(
        parse("{{>\"header\"}}{{> \"dir/item.html\" }}"),
        Ok(vec![
            Part::Include("header".to_string()),
            Part::Include("dir/item.html".to_string())
        ])
    );
    assert_eq!(
        parse("{{>\"a\\\"b\"}}"),
        Ok(vec![Part::Include("a\\\"b".to_string())])
    );
    assert_eq!(parse("{{>\"\"}}"), Err(ParseError { position: 0 }));
    assert_eq!(parse("{{>header}}"), Err(ParseError { position: 0 }));
}

#[test]
fn unterminated_tag_fails() {
    assert_eq!(parse("ab{{name"), Err(ParseError { position: 2 }));
    assert_eq!(parse("{{/foobar}}"), Err(ParseError { position: 0 }));
    assert_eq!(parse("{{#a}}x"), Err(ParseError { position: 0 }));
    assert_eq!(parse("{{a b}}"), Err(ParseError { position: 0 }));
}

#[test]
fn numerals_that_do_not_fit_fail() {
    assert_eq!(
        parse("{{a[340282366920938463463374607431768211455]}}").is_ok(),
        true
    );
    assert_eq!(
        parse("{{a[340282366920938463463374607431768211456]}}"),
        Err(ParseError { position: 0 })
    );
    assert_eq!(
        parse("{{a.007}}"),
        Ok(vec![Part::Variable(Access::Path(vec![
            named("a"),
            Field::Nth(7)
        ]))])
    );
}

#[test]
fn dots_only_separate() {
    assert_eq!(
        parse("{{a..b.}}"),
        Ok(vec![Part::Variable(Access::Path(vec![
            named("a"),
            named("b")
        ]))])
    );
    assert_eq!(parse("{{.a}}"), Err(ParseError { position: 0 }));
}

#[test]
fn closing_tag_is_compared_by_path_not_by_text() {
    assert_eq!(
        parse("{{# a.b }}x{{/a..b}}"),
        Ok(vec![Part::Section(
            Access::Path(vec![named("a"), named("b")]),
            vec![Part::Text("x".to_string())]
        )])
    );
    assert_eq!(
        parse("{{^a}}{{/ a }}"),
        Ok(vec![Part::InvertedSection(
            Access::Path(vec![named("a")]),
            vec![]
        )])
    );
    assert_eq!(parse("{{^a}}{{/b}}"), Err(ParseError { position: 0 }));
    assert_eq!(parse("{{#a}}{{/a.b}}"), Err(ParseError { position: 0 }));
}

#[test]
fn body_that_ends_in_a_backslash_or_brace_takes_the_close_with_it() {
    assert_eq!(parse("{{#a}}x\\{{/a}}"), Err(ParseError { position: 0 }));
    assert_eq!(parse("{{#a}}x{{{/a}}"), Err(ParseError { position: 0 }));
    assert_eq!(
        parse("{{#a}}x\\ {{/a}}"),
        Ok(vec![Part::Section(
            Access::Path(vec![named("a")]),
            vec![Part::Text("x\\ ".to_string())]
        )])
    );
}
