//! The renderer for the parts of the first parser.
//!
//! A field of the first template language is a path of one selector, and
//! its parts are rendered as the parts of the full language that say the
//! same, by the context engine: a variable is looked for from the innermost
//! scope outwards, and a section renders its body as the value of its field
//! in the innermost scope tells.

use vstd::prelude::*;
use crate::errors::{result_of, Error};
use crate::parse::{Access, AccessView};
use crate::parser::{parts_view, Field, FieldView, Part, PartView};
use crate::render::{parts_outcome, render_parts, stack_view};
use crate::templates::Templates;
use crate::value::Value;

verus! {

/// The access path that a field is: the one selector that looks its name
/// or its position up.
pub open spec fn access_of_field(field: FieldView) -> AccessView {
    match field {
        FieldView::Named(name) => AccessView::Path(seq![crate::parse::FieldView::Named(name)]),
        FieldView::Index(i) => AccessView::Path(seq![crate::parse::FieldView::Nth(i)]),
    }
}

/// The parts of the full language that say what `parts` say.
pub open spec fn as_parts(parts: Seq<PartView>) -> Seq<crate::parse::PartView>
    decreases parts,
{
    Seq::new(
        parts.len(),
        |k: int|
            if 0 <= k < parts.len() {
                as_part(parts[k])
            } else {
                crate::parse::PartView::Comment
            },
    )
}

/// The part of the full language that says what `part` says.
pub open spec fn as_part(part: PartView) -> crate::parse::PartView
    decreases part,
{
    match part {
        PartView::Text(text) => crate::parse::PartView::Text(text),
        PartView::Variable(field) => crate::parse::PartView::Variable(access_of_field(field)),
        PartView::Section(field, body) => crate::parse::PartView::Section(
            access_of_field(field),
            as_parts(body),
        ),
        PartView::Comment => crate::parse::PartView::Comment,
    }
}

fn field_access(field: &Field) -> (r: Access)
    ensures
        r@ == access_of_field(field@),
{
    let mut path: Vec<crate::parse::Field> = Vec::new();
    match field {
        Field::Named(name) => path.push(crate::parse::Field::Named(name.clone())),
        Field::Index(i) => path.push(crate::parse::Field::Nth(*i as usize)),
    }
    assert(crate::parse::path_view(path@) =~= seq![path@[0]@]);
    Access::Path(path)
}

fn full_parts(tokens: &Vec<Part>) -> (r: Vec<crate::parse::Part>)
    ensures
        crate::parse::parts_view(r@) == as_parts(parts_view(tokens@)),
    decreases tokens, 1nat,
{
    let mut parts: Vec<crate::parse::Part> = Vec::new();
    let mut i: usize = 0;
    while i < tokens.len()
        invariant
            i <= tokens.len(),
            parts@.len() == i,
            forall|k: int|
                0 <= k < i ==> (#[trigger] parts@[k])@ == as_part(parts_view(tokens@)[k]),
        decreases tokens.len() - i,
    {
        assert(parts_view(tokens@)[i as int] == tokens@[i as int]@);
        let part = full_part(&tokens[i]);
        parts.push(part);
        i += 1;
    }
    assert(crate::parse::parts_view(parts@) =~= as_parts(parts_view(tokens@)));
    parts
}

fn full_part(token: &Part) -> (r: crate::parse::Part)
    ensures
        r@ == as_part(token@),
    decreases token, 0nat,
{
    match token {
        Part::Text(text) => crate::parse::Part::Text(text.clone()),
        Part::Variable(field) => crate::parse::Part::Variable(field_access(field)),
        Part::Section(field, body) => crate::parse::Part::Section(
            field_access(field),
            full_parts(body),
        ),
        Part::Comment => crate::parse::Part::Comment,
    }
}

/// A renderer of the parts of the first template language.
pub struct Renderer {}

impl Renderer {
    /// A renderer.
    pub fn new() -> (r: Self) {
        Renderer {  }
    }

    /// Renders `tokens` with `value` as the outermost scope and appends what
    /// they write to `out`. Rendering stops at the first part that fails;
    /// what was written before stays in `out`.
    pub fn render(&self, tokens: &Vec<Part>, value: &Value, out: &mut String) -> (r: Result<
        (),
        Error,
    >)
        ensures
            final(out)@ == old(out)@ + parts_outcome(
                Map::empty(),
                as_parts(parts_view(tokens@)),
                0,
                seq![value@],
                0,
            ).text,
            r == result_of(
                parts_outcome(Map::empty(), as_parts(parts_view(tokens@)), 0, seq![value@], 0),
            ),
    {
        let templates = Templates::new(Vec::new());
        let parts = full_parts(tokens);
        let mut stack: Vec<&Value> = Vec::new();
        stack.push(value);
        assert(stack_view(stack@) =~= seq![value@]);
        assert(templates@ =~= Map::<Seq<char>, Seq<crate::parse::PartView>>::empty());
        render_parts(&templates, &parts, &mut stack, out, 0)
    }
}

} // verus!
