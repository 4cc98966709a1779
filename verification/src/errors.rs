//! The ways in which rendering fails.

use vstd::prelude::*;
use crate::value::Shape;

verus! {

/// Why a render call stopped.
#[derive(Debug, Clone, Copy, PartialEq, Eq, Structural)]
pub enum Error {
    /// A variable resolved to a value of this shape, which has no text form.
    Unsupported(Shape),
    /// Templates include one another more deeply than `MAX_INCLUDE_DEPTH`.
    TooDeep,
    /// The registry holds no template of the name that was asked for.
    UnknownTemplate,
}

/// How many includes may be open at once. A template that includes itself
/// would otherwise never stop rendering.
pub const MAX_INCLUDE_DEPTH: usize = 64;

/// What a rendering writes and how it ends: the text that reached the output,
/// and the error that stopped it, if one did.
pub struct Outcome {
    pub text: Seq<char>,
    pub error: Option<Error>,
}

/// The outcome of writing `text` and going on.
pub open spec fn wrote(text: Seq<char>) -> Outcome {
    Outcome { text, error: None }
}

/// The outcome of stopping with `error` before anything is written.
pub open spec fn failed(error: Error) -> Outcome {
    Outcome { text: Seq::empty(), error: Some(error) }
}

/// The outcome of `first` followed by `rest`: where `first` fails nothing of
/// `rest` happens.
pub open spec fn followed_by(first: Outcome, rest: Outcome) -> Outcome {
    if first.error is Some {
        first
    } else {
        Outcome { text: first.text + rest.text, error: rest.error }
    }
}

/// The result that a rendering returns: its error, if it has one.
pub open spec fn result_of(outcome: Outcome) -> Result<(), Error> {
    match outcome.error {
        Some(e) => Err(e),
        None => Ok(()),
    }
}

/// Sequencing outcomes is associative.
pub proof fn lemma_followed_by_assoc(a: Outcome, b: Outcome, c: Outcome)
    ensures
        followed_by(followed_by(a, b), c) == followed_by(a, followed_by(b, c)),
{
    assert((a.text + b.text) + c.text =~= a.text + (b.text + c.text));
}

/// Writing nothing before or after an outcome changes nothing.
pub proof fn lemma_followed_by_nothing(a: Outcome)
    ensures
        followed_by(wrote(Seq::empty()), a) == a,
        followed_by(a, wrote(Seq::empty())) == a,
{
    assert(Seq::<char>::empty() + a.text =~= a.text);
    assert(a.text + Seq::<char>::empty() =~= a.text);
}

} // verus!
