//! A construct parses in place as it parses alone: what the grammar reads
//! from a text it also reads where the text stands inside a longer source.

use vstd::prelude::*;
use crate::parse::{
    access_at, alnum_end, block_at, brace_at, closes, comment_at, digits_end, digits_value,
    file_path_at, ident_end, include_at, is_alnum, is_digit, is_ident, is_space, is_upper,
    lemma_digits_run, lemma_nothing_at_end, lemma_path_part_advances, lemma_spaces_run,
    lemma_text_end_bound, numeral_at, opens, opens_comment, opens_with, parsed, part_at,
    parts_at, path_at, path_part_at, quoted_end, spaces_end, tag_at, tag_rest, text_end,
    upper_end, variable_at, variant_at, ParseError, PartView,
};

verus! {

/// Whether the text `x` stands in the source `s` from position `off` on.
pub open spec fn lies_in(x: Seq<char>, s: Seq<char>, off: int) -> bool {
    &&& 0 <= off
    &&& off + x.len() <= s.len()
    &&& forall|k: int| 0 <= k < x.len() ==> s[off + k] == #[trigger] x[k]
}

proof fn lemma_same_piece(x: Seq<char>, s: Seq<char>, off: int, i: int, j: int)
    requires
        lies_in(x, s, off),
        0 <= i <= j <= x.len(),
    ensures
        s.subrange(off + i, off + j) == x.subrange(i, j),
{
    assert forall|k: int| 0 <= k < j - i implies s.subrange(off + i, off + j)[k] == x.subrange(
        i,
        j,
    )[k] by {
        assert(x[i + k] == s[off + (i + k)]);
    }
    assert(s.subrange(off + i, off + j) =~= x.subrange(i, j));
}

proof fn lemma_spaces_in_place(x: Seq<char>, s: Seq<char>, off: int, i: int)
    requires
        lies_in(x, s, off),
        0 <= i <= x.len(),
        spaces_end(x, i) < x.len(),
    ensures
        spaces_end(s, off + i) == off + spaces_end(x, i),
    decreases x.len() - i,
{
    if i < x.len() {
        assert(x[i] == s[off + i]);
        if is_space(x[i]) {
            lemma_spaces_in_place(x, s, off, i + 1);
        }
    }
}

proof fn lemma_digits_in_place(x: Seq<char>, s: Seq<char>, off: int, i: int)
    requires
        lies_in(x, s, off),
        0 <= i <= x.len(),
        digits_end(x, i) < x.len(),
    ensures
        digits_end(s, off + i) == off + digits_end(x, i),
    decreases x.len() - i,
{
    if i < x.len() {
        assert(x[i] == s[off + i]);
        if is_digit(x[i]) {
            lemma_digits_in_place(x, s, off, i + 1);
        }
    }
}

proof fn lemma_upper_in_place(x: Seq<char>, s: Seq<char>, off: int, i: int)
    requires
        lies_in(x, s, off),
        0 <= i <= x.len(),
        upper_end(x, i) < x.len(),
    ensures
        upper_end(s, off + i) == off + upper_end(x, i),
    decreases x.len() - i,
{
    if i < x.len() {
        assert(x[i] == s[off + i]);
        if is_upper(x[i]) {
            lemma_upper_in_place(x, s, off, i + 1);
        }
    }
}

proof fn lemma_alnum_in_place(x: Seq<char>, s: Seq<char>, off: int, i: int)
    requires
        lies_in(x, s, off),
        0 <= i <= x.len(),
        alnum_end(x, i) < x.len(),
    ensures
        alnum_end(s, off + i) == off + alnum_end(x, i),
    decreases x.len() - i,
{
    if i < x.len() {
        assert(x[i] == s[off + i]);
        if is_alnum(x[i]) {
            lemma_alnum_in_place(x, s, off, i + 1);
        }
    }
}

proof fn lemma_ident_in_place(x: Seq<char>, s: Seq<char>, off: int, i: int)
    requires
        lies_in(x, s, off),
        0 <= i <= x.len(),
        ident_end(x, i) < x.len(),
    ensures
        ident_end(s, off + i) == off + ident_end(x, i),
    decreases x.len() - i,
{
    if i < x.len() {
        assert(x[i] == s[off + i]);
        if is_ident(x[i]) {
            lemma_ident_in_place(x, s, off, i + 1);
        }
    }
}

proof fn lemma_brace_in_place(x: Seq<char>, s: Seq<char>, off: int, i: int)
    requires
        lies_in(x, s, off),
        0 <= i <= x.len(),
        brace_at(x, i) < x.len(),
    ensures
        brace_at(s, off + i) == off + brace_at(x, i),
    decreases x.len() - i,
{
    if i < x.len() {
        assert(x[i] == s[off + i]);
        if x[i] != '}' {
            lemma_brace_in_place(x, s, off, i + 1);
        }
    }
}

proof fn lemma_quoted_in_place(x: Seq<char>, s: Seq<char>, off: int, i: int)
    requires
        lies_in(x, s, off),
        0 <= i <= x.len(),
        quoted_end(x, i) is Some,
    ensures
        quoted_end(s, off + i) == Some(off + quoted_end(x, i).unwrap()),
    decreases x.len() - i,
{
    if i < x.len() {
        assert(x[i] == s[off + i]);
        if x[i] == '"' {
        } else if x[i] == '\\' {
            assert(x[i + 1] == s[off + (i + 1)]);
            lemma_quoted_in_place(x, s, off, i + 2);
        } else {
            lemma_quoted_in_place(x, s, off, i + 1);
        }
    }
}

proof fn lemma_upper_stops(x: Seq<char>, i: int, j: int)
    requires
        0 <= i <= j < x.len(),
        !is_upper(x[j]),
    ensures
        upper_end(x, i) <= j,
    decreases j - i,
{
    if i < j && is_upper(x[i]) {
        lemma_upper_stops(x, i + 1, j);
    }
}

proof fn lemma_digits_value_in_place(x: Seq<char>, s: Seq<char>, off: int, i: int, j: int)
    requires
        lies_in(x, s, off),
        0 <= i <= j <= x.len(),
    ensures
        digits_value(s, off + i, off + j) == digits_value(x, i, j),
    decreases j - i,
{
    if i < j {
        lemma_digits_value_in_place(x, s, off, i, j - 1);
        assert(x[j - 1] == s[off + (j - 1)]);
    }
}

proof fn lemma_numeral_in_place(x: Seq<char>, s: Seq<char>, off: int, i: int)
    requires
        lies_in(x, s, off),
        0 <= i <= x.len(),
        digits_end(x, i) < x.len(),
    ensures
        numeral_at(x, i) is Some ==> numeral_at(s, off + i) == Some(
            (numeral_at(x, i).unwrap().0, off + numeral_at(x, i).unwrap().1),
        ),
        numeral_at(x, i) is None ==> numeral_at(s, off + i) is None,
{
    lemma_digits_in_place(x, s, off, i);
    lemma_digits_run(x, i);
    lemma_digits_value_in_place(x, s, off, i, digits_end(x, i));
}

/// Whether a character ends an access path inside a tag.
pub open spec fn ends_path(c: char) -> bool {
    is_space(c) || c == '}'
}

proof fn lemma_path_part_in_place(x: Seq<char>, s: Seq<char>, off: int, i: int)
    requires
        lies_in(x, s, off),
        0 <= i <= x.len(),
        path_part_at(x, i) is Some,
        path_part_at(x, i).unwrap().1 < x.len(),
    ensures
        path_part_at(s, off + i) == Some(
            (path_part_at(x, i).unwrap().0, off + path_part_at(x, i).unwrap().1),
        ),
{
    assert(x[i] == s[off + i]);
    if x[i] == '.' {
    } else if x[i] == '[' {
        let (n, j) = numeral_at(x, i + 1).unwrap();
        lemma_digits_run(x, i + 1);
        lemma_numeral_in_place(x, s, off, i + 1);
        assert(x[j] == s[off + j]);
    } else if is_digit(x[i]) {
        lemma_numeral_in_place(x, s, off, i);
    } else {
        let j = ident_end(x, i + 1);
        crate::parse::lemma_ident_run(x, i + 1);
        lemma_ident_in_place(x, s, off, i + 1);
        lemma_same_piece(x, s, off, i, j);
    }
}

proof fn lemma_path_in_place(x: Seq<char>, s: Seq<char>, off: int, i: int)
    requires
        lies_in(x, s, off),
        0 <= i <= x.len(),
        path_at(x, i).1 < x.len(),
        ends_path(x[path_at(x, i).1]),
    ensures
        path_at(s, off + i) == (path_at(x, i).0, off + path_at(x, i).1),
    decreases x.len() - i,
{
    assert(x[i] == s[off + i]);
    match path_part_at(x, i) {
        Some((part, j)) => {
            lemma_path_part_advances(x, i);
            crate::parse::lemma_path_advances(x, j);
            lemma_path_part_in_place(x, s, off, i);
            lemma_path_in_place(x, s, off, j);
        },
        None => {
            assert(path_part_at(s, off + i) is None);
        },
    }
}

proof fn lemma_access_in_place(x: Seq<char>, s: Seq<char>, off: int, i: int)
    requires
        lies_in(x, s, off),
        0 <= i <= x.len(),
        access_at(x, i) is Some,
        access_at(x, i).unwrap().1 < x.len(),
        ends_path(x[access_at(x, i).unwrap().1]),
    ensures
        access_at(s, off + i) == Some(
            (access_at(x, i).unwrap().0, off + access_at(x, i).unwrap().1),
        ),
{
    let (access, j) = access_at(x, i).unwrap();
    assert(x[i] == s[off + i]);
    crate::parse::lemma_access_advances(x, i);
    if x[i] == '.' {
    } else {
        lemma_upper_stops(x, i, j);
        let u = upper_end(x, i);
        lemma_upper_in_place(x, s, off, i);
        crate::parse::lemma_upper_run(x, i);
        if variant_at(x, i) is Some {
            lemma_alnum_in_place(x, s, off, u);
            lemma_same_piece(x, s, off, i, j);
        } else {
            if i < u {
                crate::parse::lemma_alnum_run(x, u);
                crate::parse::lemma_alnum_run(x, u + 1);
                assert(alnum_end(x, u) == u);
                assert(!is_alnum(x[u]));
                assert(x[u] == s[off + u]);
                assert(alnum_end(s, off + u) == off + u);
            }
            assert(variant_at(s, off + i) is None);
            lemma_path_part_advances(x, i);
            lemma_path_part_in_place_first(x, s, off, i);
            lemma_path_in_place(x, s, off, i);
        }
    }
}

proof fn lemma_path_part_in_place_first(x: Seq<char>, s: Seq<char>, off: int, i: int)
    requires
        lies_in(x, s, off),
        0 <= i <= x.len(),
        path_part_at(x, i) is Some,
        path_at(x, i).1 < x.len(),
    ensures
        path_part_at(s, off + i) is Some,
{
    lemma_path_part_advances(x, i);
    crate::parse::lemma_path_advances(x, path_part_at(x, i).unwrap().1);
    lemma_path_part_in_place(x, s, off, i);
}

proof fn lemma_tag_rest_in_place(x: Seq<char>, s: Seq<char>, off: int, i: int)
    requires
        lies_in(x, s, off),
        0 <= i <= x.len(),
        tag_rest(x, i) is Some,
    ensures
        tag_rest(s, off + i) == Some((tag_rest(x, i).unwrap().0, off + tag_rest(x, i).unwrap().1)),
{
    lemma_spaces_run(x, i);
    let a = spaces_end(x, i);
    let (access, j) = access_at(x, a).unwrap();
    crate::parse::lemma_access_advances(x, a);
    lemma_spaces_run(x, j);
    let k = spaces_end(x, j);
    assert(closes(x, k));
    assert(x[k] == s[off + k]);
    assert(x[k + 1] == s[off + (k + 1)]);
    lemma_spaces_in_place(x, s, off, i);
    lemma_spaces_in_place(x, s, off, j);
    assert(ends_path(x[j])) by {
        if j < k {
            assert(is_space(x[j]));
        }
    }
    lemma_access_in_place(x, s, off, a);
}

/// A tag that is read from a text is read in place, with the same access
/// path.
pub proof fn lemma_tag_in_place(x: Seq<char>, s: Seq<char>, off: int, i: int, sigil: char)
    requires
        lies_in(x, s, off),
        0 <= i <= x.len(),
        tag_at(x, i, sigil) is Some,
    ensures
        tag_at(s, off + i, sigil) == Some(
            (tag_at(x, i, sigil).unwrap().0, off + tag_at(x, i, sigil).unwrap().1),
        ),
{
    assert(x[i] == s[off + i]);
    assert(x[i + 1] == s[off + (i + 1)]);
    assert(x[i + 2] == s[off + (i + 2)]);
    lemma_tag_rest_in_place(x, s, off, i + 3);
}

/// Whether the text `x` stands in `s` from `off` on so that its end is the
/// end of what can be read there: its last character opens no tag together
/// with what follows, and what follows is a closing tag or nothing.
pub open spec fn joins(x: Seq<char>, s: Seq<char>, off: int) -> bool {
    &&& lies_in(x, s, off)
    &&& x.len() > 0 ==> x.last() != '\\' && x.last() != '{'
    &&& off + x.len() == s.len() || opens_with(s, off + x.len(), '/')
}

/// Where a closing tag opens no part is read.
pub proof fn lemma_close_is_no_part(s: Seq<char>, p: int)
    requires
        opens_with(s, p, '/'),
    ensures
        part_at(s, p) is None,
{
    assert(comment_at(s, p) is None);
    assert(tag_at(s, p, '#') is None);
    assert(tag_at(s, p, '^') is None);
    assert(block_at(s, p, '#') is None);
    assert(block_at(s, p, '^') is None);
    assert(include_at(s, p) is None);
    assert(spaces_end(s, p + 2) == p + 2);
    assert(upper_end(s, p + 2) == p + 2);
    assert(variant_at(s, p + 2) is None);
    assert(path_part_at(s, p + 2) is None);
    assert(variable_at(s, p) is None);
    assert(text_end(s, p) == p);
}

proof fn lemma_text_end_in_place(x: Seq<char>, s: Seq<char>, off: int, i: int)
    requires
        joins(x, s, off),
        0 <= i <= x.len(),
    ensures
        text_end(s, off + i) == off + text_end(x, i),
    decreases x.len() - i,
{
    if i < x.len() {
        assert(x[i] == s[off + i]);
        if i + 1 < x.len() {
            assert(x[i + 1] == s[off + (i + 1)]);
        }
        if i + 2 < x.len() {
            assert(x[i + 2] == s[off + (i + 2)]);
        }
        assert(opens(s, off + i) == opens(x, i));
        assert(opens_comment(s, off + i) == opens_comment(x, i));
        if !opens(x, i) && !opens_comment(x, i) {
            lemma_text_end_in_place(x, s, off, i + 1);
        }
    }
}

proof fn lemma_comment_in_place(x: Seq<char>, s: Seq<char>, off: int, i: int)
    requires
        lies_in(x, s, off),
        0 <= i <= x.len(),
        comment_at(x, i) is Some,
    ensures
        comment_at(s, off + i) == Some((PartView::Comment, off + comment_at(x, i).unwrap().1)),
{
    let k = brace_at(x, i + 3);
    assert(x[i] == s[off + i]);
    assert(x[i + 1] == s[off + (i + 1)]);
    assert(x[i + 2] == s[off + (i + 2)]);
    assert(x[k] == s[off + k]);
    assert(x[k + 1] == s[off + (k + 1)]);
    lemma_brace_in_place(x, s, off, i + 3);
}

proof fn lemma_include_in_place(x: Seq<char>, s: Seq<char>, off: int, i: int)
    requires
        lies_in(x, s, off),
        0 <= i <= x.len(),
        include_at(x, i) is Some,
    ensures
        include_at(s, off + i) == Some(
            (include_at(x, i).unwrap().0, off + include_at(x, i).unwrap().1),
        ),
{
    assert(x[i] == s[off + i]);
    assert(x[i + 1] == s[off + (i + 1)]);
    assert(x[i + 2] == s[off + (i + 2)]);
    let a = spaces_end(x, i + 3);
    let (name, j) = file_path_at(x, a).unwrap();
    let q = quoted_end(x, a + 1).unwrap();
    crate::parse::lemma_quoted_end_bound(x, a + 1);
    let m = spaces_end(x, j);
    assert(x[a] == s[off + a]);
    assert(x[m] == s[off + m]);
    assert(x[m + 1] == s[off + (m + 1)]);
    lemma_spaces_in_place(x, s, off, i + 3);
    lemma_quoted_in_place(x, s, off, a + 1);
    lemma_same_piece(x, s, off, a + 1, q);
    lemma_spaces_in_place(x, s, off, j);
}

proof fn lemma_variable_in_place(x: Seq<char>, s: Seq<char>, off: int, i: int)
    requires
        lies_in(x, s, off),
        0 <= i <= x.len(),
        variable_at(x, i) is Some,
    ensures
        variable_at(s, off + i) == Some(
            (variable_at(x, i).unwrap().0, off + variable_at(x, i).unwrap().1),
        ),
        i + 2 < x.len(),
        x[i + 2] != '#' && x[i + 2] != '^' && x[i + 2] != '>' && x[i + 2] != '/',
{
    assert(x[i] == s[off + i]);
    assert(x[i + 1] == s[off + (i + 1)]);
    lemma_tag_rest_in_place(x, s, off, i + 2);
    lemma_spaces_run(x, i + 2);
    let a = spaces_end(x, i + 2);
    crate::parse::lemma_access_advances(x, a);
    if i + 2 < x.len() && (x[i + 2] == '#' || x[i + 2] == '^' || x[i + 2] == '>' || x[i + 2]
        == '/') {
        assert(a == i + 2);
        assert(upper_end(x, a) == a);
        assert(variant_at(x, a) is None);
        assert(path_part_at(x, a) is None);
    }
}

proof fn lemma_part_in_place(x: Seq<char>, s: Seq<char>, off: int, i: int)
    requires
        joins(x, s, off),
        0 <= i <= x.len(),
        part_at(x, i) is Some,
    ensures
        part_at(s, off + i) == Some((part_at(x, i).unwrap().0, off + part_at(x, i).unwrap().1)),
    decreases x.len() - i, 1nat,
{
    lemma_nothing_at_end(x);
    assert(i < x.len());
    assert(x[i] == s[off + i]);
    if comment_at(x, i) is Some {
        lemma_comment_in_place(x, s, off, i);
    } else if block_at(x, i, '#') is Some {
        assert(comment_at(s, off + i) is None);
        lemma_block_in_place(x, s, off, i, '#');
    } else if block_at(x, i, '^') is Some {
        assert(x[i + 2] == s[off + (i + 2)]);
        assert(comment_at(s, off + i) is None);
        assert(tag_at(s, off + i, '#') is None);
        assert(block_at(s, off + i, '#') is None);
        lemma_block_in_place(x, s, off, i, '^');
    } else if include_at(x, i) is Some {
        assert(x[i + 2] == s[off + (i + 2)]);
        assert(comment_at(s, off + i) is None);
        assert(tag_at(s, off + i, '#') is None);
        assert(tag_at(s, off + i, '^') is None);
        assert(block_at(s, off + i, '#') is None);
        assert(block_at(s, off + i, '^') is None);
        lemma_include_in_place(x, s, off, i);
    } else if variable_at(x, i) is Some {
        lemma_variable_in_place(x, s, off, i);
        assert(x[i + 2] == s[off + (i + 2)]);
        assert(comment_at(s, off + i) is None);
        assert(tag_at(s, off + i, '#') is None);
        assert(tag_at(s, off + i, '^') is None);
        assert(block_at(s, off + i, '#') is None);
        assert(block_at(s, off + i, '^') is None);
        assert(include_at(s, off + i) is None);
    } else {
        let e = text_end(x, i);
        lemma_text_end_bound(x, i);
        lemma_text_end_in_place(x, s, off, i);
        lemma_same_piece(x, s, off, i, e);
        assert(!opens(x, i) && !opens_comment(x, i));
        assert(text_end(s, off + i) > off + i);
        assert(!opens(s, off + i) && !opens_comment(s, off + i));
        assert(comment_at(s, off + i) is None);
        assert(tag_at(s, off + i, '#') is None);
        assert(tag_at(s, off + i, '^') is None);
        assert(block_at(s, off + i, '#') is None);
        assert(block_at(s, off + i, '^') is None);
        assert(include_at(s, off + i) is None);
        assert(variable_at(s, off + i) is None);
    }
}

proof fn lemma_block_in_place(x: Seq<char>, s: Seq<char>, off: int, i: int, sigil: char)
    requires
        joins(x, s, off),
        0 <= i <= x.len(),
        block_at(x, i, sigil) is Some,
    ensures
        block_at(s, off + i, sigil) == Some(
            (
                block_at(x, i, sigil).unwrap().0,
                block_at(x, i, sigil).unwrap().1,
                off + block_at(x, i, sigil).unwrap().2,
            ),
        ),
    decreases x.len() - i, 0nat,
{
    let (access, j) = tag_at(x, i, sigil).unwrap();
    let (body, k) = parts_at(x, j);
    lemma_tag_in_place(x, s, off, i, sigil);
    lemma_parts_in_place(x, s, off, j);
    lemma_tag_in_place(x, s, off, k, '/');
}

proof fn lemma_parts_in_place(x: Seq<char>, s: Seq<char>, off: int, i: int)
    requires
        joins(x, s, off),
        0 <= i <= x.len(),
        parts_at(x, i).1 == x.len() || opens_with(x, parts_at(x, i).1, '/'),
    ensures
        parts_at(s, off + i) == (parts_at(x, i).0, off + parts_at(x, i).1),
    decreases x.len() - i, 2nat,
{
    lemma_nothing_at_end(x);
    match part_at(x, i) {
        Some((part, j)) => {
            if i < j <= x.len() {
                lemma_part_in_place(x, s, off, i);
                lemma_parts_in_place(x, s, off, j);
            } else {
                if i < x.len() {
                    lemma_close_is_no_part(x, i);
                }
            }
        },
        None => {
            if i == x.len() {
                if off + x.len() == s.len() {
                    lemma_nothing_at_end(s);
                } else {
                    lemma_close_is_no_part(s, off + i);
                }
            } else {
                assert(x[i] == s[off + i]);
                assert(x[i + 1] == s[off + (i + 1)]);
                assert(x[i + 2] == s[off + (i + 2)]);
                lemma_close_is_no_part(s, off + i);
            }
        },
    }
}

/// A source that is written as an opening tag, a body and a closing tag
/// parses exactly when the closing tag names the access path of the
/// opening tag, selector for selector; it then parses into the one section
/// of that path whose body is what the body parses into alone. The body
/// must parse alone, and must not end in a backslash or an opening brace,
/// which would be read together with the closing tag.
pub proof fn theorem_section_parses_iff_tags_match(
    opening: Seq<char>,
    body: Seq<char>,
    closing: Seq<char>,
    sigil: char,
)
    requires
        sigil == '#' || sigil == '^',
        tag_at(opening, 0, sigil) is Some,
        tag_at(opening, 0, sigil).unwrap().1 == opening.len(),
        tag_at(closing, 0, '/') is Some,
        tag_at(closing, 0, '/').unwrap().1 == closing.len(),
        parsed(body) is Ok,
        body.len() > 0 ==> body.last() != '\\' && body.last() != '{',
    ensures
        ({
            let s = opening + body + closing;
            let a = tag_at(opening, 0, sigil).unwrap().0;
            let b = tag_at(closing, 0, '/').unwrap().0;
            let inner = parsed(body).unwrap();
            &&& parsed(s) is Ok <==> a == b
            &&& a == b ==> parsed(s) == Ok::<Seq<PartView>, ParseError>(
                seq![
                    if sigil == '#' {
                        PartView::Section(a, inner)
                    } else {
                        PartView::InvertedSection(a, inner)
                    },
                ],
            )
        }),
{
    let s = opening + body + closing;
    let n = opening.len() as int;
    let m = n + body.len();
    assert(lies_in(opening, s, 0));
    assert(lies_in(body, s, n)) by {
        assert forall|k: int| 0 <= k < body.len() implies s[n + k] == #[trigger] body[k] by {}
    }
    assert(lies_in(closing, s, m)) by {
        assert forall|k: int| 0 <= k < closing.len() implies s[m + k] == #[trigger] closing[k] by {}
    }
    lemma_tag_in_place(opening, s, 0, 0, sigil);
    lemma_tag_in_place(closing, s, m, 0, '/');
    assert(opens_with(s, m, '/'));
    assert(joins(body, s, n));
    lemma_parts_in_place(body, s, n, 0);
    if sigil == '#' {
        crate::parse::lemma_lone_section_parses_iff_tags_match(s);
    } else {
        crate::parse::lemma_lone_inverted_section_parses_iff_tags_match(s);
    }
}

} // verus!
