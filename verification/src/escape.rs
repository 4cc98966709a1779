//! HTML escaping of interpolated text.

use vstd::prelude::*;

verus! {

/// What one character becomes in escaped text: its entity for the six
/// characters that HTML gives a meaning, itself otherwise.
pub open spec fn entity(c: char) -> Seq<char> {
    if c == '"' {
        seq!['&', 'q', 'u', 'o', 't', ';']
    } else if c == '&' {
        seq!['&', 'a', 'm', 'p', ';']
    } else if c == '\'' {
        seq!['&', '#', 'x', '2', '7', ';']
    } else if c == '/' {
        seq!['&', '#', 'x', '2', 'f', ';']
    } else if c == '<' {
        seq!['&', 'l', 't', ';']
    } else if c == '>' {
        seq!['&', 'g', 't', ';']
    } else {
        seq![c]
    }
}

/// Escaped text: every character replaced by its `entity`, in order.
pub open spec fn escaped(s: Seq<char>) -> Seq<char>
    decreases s.len(),
{
    if s.len() == 0 {
        Seq::empty()
    } else {
        escaped(s.drop_last()) + entity(s.last())
    }
}

/// Whether `c` is one of the characters that escaping removes from a text.
pub open spec fn is_markup(c: char) -> bool {
    c == '"' || c == '\'' || c == '/' || c == '<' || c == '>'
}

/// `v_htmlescape::escape`, formatted into a string. The crate walks the bytes
/// of `s`, writes the entity in place of each of `"`, `&`, `'`, `/`, `<` and
/// `>`, and copies every other byte: on characters that is `escaped`.
#[verifier::external_body]
pub(crate) fn escape(s: &str) -> (r: String)
    ensures
        r@ == escaped(s@),
{
    v_htmlescape::escape(s).to_string()
}

/// Escaping distributes over concatenation.
pub proof fn lemma_escaped_concat(a: Seq<char>, b: Seq<char>)
    ensures
        escaped(a + b) == escaped(a) + escaped(b),
    decreases b.len(),
{
    if b.len() == 0 {
        assert(a + b =~= a);
        assert(escaped(b) =~= Seq::<char>::empty());
        assert(escaped(a) + escaped(b) =~= escaped(a));
    } else {
        lemma_escaped_concat(a, b.drop_last());
        assert((a + b).drop_last() =~= a + b.drop_last());
        assert((a + b).last() == b.last());
        assert(escaped(a + b) =~= escaped(a) + escaped(b));
    }
}

/// Each character of a text is found in the escaped text as its entity,
/// between what the text before it and the text behind it become.
pub proof fn lemma_escaped_at(s: Seq<char>, i: int)
    requires
        0 <= i < s.len(),
    ensures
        escaped(s) == escaped(s.take(i)) + entity(s[i]) + escaped(s.skip(i + 1)),
{
    assert(s =~= s.take(i) + seq![s[i]] + s.skip(i + 1));
    lemma_escaped_concat(s.take(i) + seq![s[i]], s.skip(i + 1));
    lemma_escaped_concat(s.take(i), seq![s[i]]);
    let one = seq![s[i]];
    assert(one.drop_last() =~= Seq::<char>::empty());
    assert(escaped(one.drop_last()) =~= Seq::<char>::empty());
    assert(one.last() == s[i]);
    assert(escaped(one) =~= entity(s[i]));
}

/// Escaped text holds no quote, slash or angle bracket.
pub proof fn lemma_escaped_has_no_markup(s: Seq<char>)
    ensures
        forall|i: int| 0 <= i < escaped(s).len() ==> !is_markup(#[trigger] escaped(s)[i]),
    decreases s.len(),
{
    if s.len() > 0 {
        lemma_escaped_has_no_markup(s.drop_last());
        let head = escaped(s.drop_last());
        let tail = entity(s.last());
        assert forall|i: int| 0 <= i < escaped(s).len() implies !is_markup(
            #[trigger] escaped(s)[i],
        ) by {
            if i < head.len() {
                assert(escaped(s)[i] == head[i]);
            } else {
                assert(escaped(s)[i] == tail[i - head.len()]);
            }
        }
    }
}

/// Text without any of the six special characters is left as it is.
pub proof fn lemma_escaped_plain(s: Seq<char>)
    requires
        forall|i: int| 0 <= i < s.len() ==> !is_markup(#[trigger] s[i]) && s[i] != '&',
    ensures
        escaped(s) == s,
    decreases s.len(),
{
    if s.len() > 0 {
        lemma_escaped_plain(s.drop_last());
        assert(entity(s.last()) =~= seq![s.last()]);
        assert(s =~= s.drop_last() + seq![s.last()]);
    }
}

} // verus!
