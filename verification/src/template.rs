//! A parsed template.

use vstd::prelude::*;
use crate::parse::{parse, parsed, parts_view, ParseError, Part, PartView};

verus! {

/// A template: the parts that its source was parsed into. It is built once
/// and only read afterwards.
#[derive(Debug, PartialEq, Eq)]
pub struct Template {
    parts: Vec<Part>,
}

impl View for Template {
    type V = Seq<PartView>;

    closed spec fn view(&self) -> Seq<PartView> {
        parts_view(self.parts@)
    }
}

impl Template {
    /// Parses `input` into a template. A source that is not a template is
    /// refused with the position at which it stops being one.
    pub fn parse(input: String) -> (r: Result<Template, ParseError>)
        ensures
            match r {
                Ok(t) => parsed(input@) == Ok::<Seq<PartView>, ParseError>(t@),
                Err(e) => parsed(input@) == Err::<Seq<PartView>, ParseError>(e),
            },
    {
        match parse(input.as_str()) {
            Ok(parts) => Ok(Template { parts }),
            Err(e) => Err(e),
        }
    }

    /// The parts of the template, in source order.
    pub fn parts(&self) -> (r: &Vec<Part>)
        ensures
            parts_view(r@) == self@,
    {
        &self.parts
    }
}

} // verus!
