//! The first parser: a smaller template language with variables, sections
//! and comments, whose paths are a single name or a small number.
//!
//! Like the full parser it refuses a source that is not, as a whole, a run
//! of parts of its grammar.

use vstd::prelude::*;
use crate::parse::{
    ParseError, alpha_char, at2_chars, brace_at, closes, digit_char, digits_end, digits_value, find_brace,
    find_text_end, ident_end, is_alpha, is_digit, lemma_digits_run, lemma_digits_value_grows,
    opens, opens_comment, opens_comment_chars, opens_with, opens_with_chars, skip_ident,
    skip_spaces, spaces_end, text_end,
};
use crate::text::{from_chars, to_chars};

verus! {

/// A node of the syntax tree.
#[derive(Debug, PartialEq, Eq)]
pub enum Part {
    Text(String),
    Variable(Field),
    Section(Field, Vec<Part>),
    Comment,
}

/// What a tag refers to.
#[derive(Debug, Clone, PartialEq, Eq)]
pub enum Field {
    Index(u8),
    Named(String),
}

/// What a field stands for.
pub enum FieldView {
    Index(nat),
    Named(Seq<char>),
}

/// What a part stands for: the tree below it.
pub enum PartView {
    Text(Seq<char>),
    Variable(FieldView),
    Section(FieldView, Seq<PartView>),
    Comment,
}

impl View for Field {
    type V = FieldView;

    open spec fn view(&self) -> FieldView {
        match self {
            Field::Index(i) => FieldView::Index(*i as nat),
            Field::Named(n) => FieldView::Named(n@),
        }
    }
}

/// The views of a run of parts, one for one.
pub open spec fn parts_view(parts: Seq<Part>) -> Seq<PartView>
    decreases parts,
{
    Seq::new(
        parts.len(),
        |i: int|
            if 0 <= i < parts.len() {
                part_view(parts[i])
            } else {
                PartView::Comment
            },
    )
}

/// The tree that `part` stands for.
pub open spec fn part_view(part: Part) -> PartView
    decreases part,
{
    match part {
        Part::Text(s) => PartView::Text(s@),
        Part::Variable(f) => PartView::Variable(f@),
        Part::Section(f, body) => PartView::Section(f@, parts_view(body@)),
        Part::Comment => PartView::Comment,
    }
}

impl View for Part {
    type V = PartView;

    open spec fn view(&self) -> PartView {
        part_view(*self)
    }
}

/// The field at `i`, and where it ends: an identifier, or else a numeral
/// that fits in eight bits.
pub open spec fn field_at(s: Seq<char>, i: int) -> Option<(FieldView, int)> {
    if i < 0 || i >= s.len() {
        None
    } else if is_alpha(s[i]) || s[i] == '_' {
        let j = ident_end(s, i + 1);
        Some((FieldView::Named(s.subrange(i, j)), j))
    } else if is_digit(s[i]) {
        let j = digits_end(s, i);
        if digits_value(s, i, j) <= u8::MAX {
            Some((FieldView::Index(digits_value(s, i, j)), j))
        } else {
            None
        }
    } else {
        None
    }
}

/// The rest of a tag from `i` on, behind its opening: the field between
/// optional spaces, and where the spaces behind it end.
pub open spec fn tag_field(s: Seq<char>, i: int) -> Option<(FieldView, int)> {
    match field_at(s, spaces_end(s, i)) {
        Some((f, j)) => Some((f, spaces_end(s, j))),
        None => None,
    }
}

/// The variable tag at `i`.
pub open spec fn variable_at(s: Seq<char>, i: int) -> Option<(PartView, int)> {
    if opens(s, i) {
        match tag_field(s, i + 2) {
            Some((f, k)) => if closes(s, k) {
                Some((PartView::Variable(f), k + 2))
            } else {
                None
            },
            None => None,
        }
    } else {
        None
    }
}

/// The tag with the sigil `sigil` at `i`: its field, and where it ends.
pub open spec fn tag_at(s: Seq<char>, i: int, sigil: char) -> Option<(FieldView, int)> {
    if opens_with(s, i, sigil) {
        match tag_field(s, i + 3) {
            Some((f, k)) => if closes(s, k) {
                Some((f, k + 2))
            } else {
                None
            },
            None => None,
        }
    } else {
        None
    }
}

/// Where the comment at `i` ends, if one stands there.
pub open spec fn comment_end(s: Seq<char>, i: int) -> Option<int> {
    let k = brace_at(s, i + 3);
    if opens_comment(s, i) && i + 3 < k && closes(s, k) {
        Some(k + 2)
    } else {
        None
    }
}

/// The parts of the longest run of parts that starts at `i`, and where the
/// run ends.
pub open spec fn parts_at(s: Seq<char>, i: int) -> (Seq<PartView>, int)
    decreases s.len() - i, 2nat,
{
    match part_at(s, i) {
        Some((part, j)) => if i < j <= s.len() {
            (seq![part] + parts_at(s, j).0, parts_at(s, j).1)
        } else {
            (Seq::empty(), i)
        },
        None => (Seq::empty(), i),
    }
}

/// The section at `i`: an opening tag, the parts behind it, and a closing
/// tag of the same field.
pub open spec fn section_at(s: Seq<char>, i: int) -> Option<(PartView, int)>
    decreases s.len() - i, 0nat,
{
    match tag_at(s, i, '#') {
        Some((f, j)) => if i < j <= s.len() {
            let (body, k) = parts_at(s, j);
            match tag_at(s, k, '/') {
                Some((closing, m)) => if closing == f {
                    Some((PartView::Section(f, body), m))
                } else {
                    None
                },
                None => None,
            }
        } else {
            None
        },
        None => None,
    }
}

/// The part at `i`, and where it ends: the first of a comment, a section, a
/// variable and a text that stands there.
pub open spec fn part_at(s: Seq<char>, i: int) -> Option<(PartView, int)>
    decreases s.len() - i, 1nat,
{
    if comment_end(s, i) is Some {
        Some((PartView::Comment, comment_end(s, i).unwrap()))
    } else if section_at(s, i) is Some {
        section_at(s, i)
    } else if variable_at(s, i) is Some {
        variable_at(s, i)
    } else {
        let e = text_end(s, i);
        if 0 <= i < e {
            Some((PartView::Text(s.subrange(i, e)), e))
        } else {
            None
        }
    }
}

/// What parsing a source gives: its parts where the whole source is a run
/// of parts, and else the position at which the run of parts ends.
pub open spec fn parsed(s: Seq<char>) -> Result<Seq<PartView>, ParseError> {
    let (parts, end) = parts_at(s, 0);
    if end == s.len() {
        Ok(parts)
    } else {
        Err(ParseError { position: end as usize })
    }
}

/// Whether two fields are the same.
pub fn field_eq(a: &Field, b: &Field) -> (r: bool)
    ensures
        r == (a@ == b@),
{
    match (a, b) {
        (Field::Index(i), Field::Index(j)) => *i == *j,
        (Field::Named(n), Field::Named(m)) => *n == *m,
        _ => false,
    }
}

fn index(s: &Vec<char>, i: usize) -> (r: Option<(Field, usize)>)
    requires
        i < s.len(),
        is_digit(s@[i as int]),
        !is_alpha(s@[i as int]),
        s@[i as int] != '_',
    ensures
        match r {
            Some((f, j)) => field_at(s@, i as int) == Some((f@, j as int)) && i < j <= s.len(),
            None => field_at(s@, i as int) is None,
        },
{
    let mut j: usize = i;
    let mut value: u8 = 0;
    while j < s.len() && digit_char(s[j])
        invariant
            i <= j <= s.len(),
            digits_end(s@, i as int) == digits_end(s@, j as int),
            value == digits_value(s@, i as int, j as int),
            forall|k: int| i <= k < j ==> is_digit(#[trigger] s@[k]),
        decreases s.len() - j,
    {
        let d: u8 = (s[j] as u32 - 48) as u8;
        proof {
            lemma_digits_run(s@, j as int);
            lemma_digits_run(s@, j + 1);
            assert(digits_value(s@, i as int, j + 1) == value * 10 + d);
            if value * 10 + d > u8::MAX {
                lemma_digits_value_grows(s@, i as int, j + 1, digits_end(s@, i as int));
            }
        }
        match value.checked_mul(10) {
            None => {
                return None;
            },
            Some(tens) => match tens.checked_add(d) {
                None => {
                    return None;
                },
                Some(next) => {
                    value = next;
                },
            },
        }
        j += 1;
    }
    Some((Field::Index(value), j))
}

fn named(s: &Vec<char>, i: usize) -> (r: Option<(Field, usize)>)
    requires
        i < s.len(),
    ensures
        r is Some <==> (is_alpha(s@[i as int]) || s@[i as int] == '_'),
        r matches Some((f, j)) ==> field_at(s@, i as int) == Some((f@, j as int)) && i < j
            <= s.len(),
{
    if alpha_char(s[i]) || s[i] == '_' {
        let j = skip_ident(s, i + 1);
        Some((Field::Named(from_chars(s, i, j)), j))
    } else {
        None
    }
}

fn field(s: &Vec<char>, i: usize) -> (r: Option<(Field, usize)>)
    requires
        i <= s.len(),
    ensures
        match r {
            Some((f, j)) => field_at(s@, i as int) == Some((f@, j as int)) && i < j <= s.len(),
            None => field_at(s@, i as int) is None,
        },
{
    if i >= s.len() {
        return None;
    }
    match named(s, i) {
        Some(found) => Some(found),
        None => {
            if digit_char(s[i]) {
                index(s, i)
            } else {
                None
            }
        },
    }
}

fn spaced_field(s: &Vec<char>, i: usize) -> (r: Option<(Field, usize)>)
    requires
        i <= s.len(),
    ensures
        match r {
            Some((f, k)) => tag_field(s@, i as int) == Some((f@, k as int)) && i < k <= s.len(),
            None => tag_field(s@, i as int) is None,
        },
{
    let start = skip_spaces(s, i);
    match field(s, start) {
        Some((f, j)) => Some((f, skip_spaces(s, j))),
        None => None,
    }
}

fn parse_comment(s: &Vec<char>, i: usize) -> (r: Option<(Part, usize)>)
    requires
        i <= s.len(),
    ensures
        match r {
            Some((p, j)) => comment_end(s@, i as int) == Some(j as int) && p@ == PartView::Comment
                && i < j <= s.len(),
            None => comment_end(s@, i as int) is None,
        },
{
    if !opens_comment_chars(s, i) {
        return None;
    }
    let k = find_brace(s, i + 3);
    if i + 3 < k && at2_chars(s, k, '}', '}') {
        Some((Part::Comment, k + 2))
    } else {
        None
    }
}

fn parse_variable(s: &Vec<char>, i: usize) -> (r: Option<(Part, usize)>)
    requires
        i <= s.len(),
    ensures
        match r {
            Some((p, j)) => variable_at(s@, i as int) == Some((p@, j as int)) && i < j
                <= s.len(),
            None => variable_at(s@, i as int) is None,
        },
{
    if !at2_chars(s, i, '{', '{') {
        return None;
    }
    match spaced_field(s, i + 2) {
        Some((f, k)) => {
            if at2_chars(s, k, '}', '}') {
                Some((Part::Variable(f), k + 2))
            } else {
                None
            }
        },
        None => None,
    }
}

fn start_tag(s: &Vec<char>, i: usize, sigil: char) -> (r: Option<(Field, usize)>)
    requires
        i <= s.len(),
    ensures
        match r {
            Some((f, j)) => tag_at(s@, i as int, sigil) == Some((f@, j as int)) && i < j
                <= s.len(),
            None => tag_at(s@, i as int, sigil) is None,
        },
{
    if !opens_with_chars(s, i, sigil) {
        return None;
    }
    match spaced_field(s, i + 3) {
        Some((f, k)) => {
            if at2_chars(s, k, '}', '}') {
                Some((f, k + 2))
            } else {
                None
            }
        },
        None => None,
    }
}

fn tag_end(s: &Vec<char>, i: usize, start_field: &Field) -> (r: Option<usize>)
    requires
        i <= s.len(),
    ensures
        match r {
            Some(j) => tag_at(s@, i as int, '/') == Some((start_field@, j as int)) && i < j
                <= s.len(),
            None => !(tag_at(s@, i as int, '/') matches Some((f, _)) && f == start_field@),
        },
{
    match start_tag(s, i, '/') {
        Some((end_field, j)) => {
            if field_eq(start_field, &end_field) {
                Some(j)
            } else {
                None
            }
        },
        None => None,
    }
}

fn parse_section(s: &Vec<char>, i: usize) -> (r: Option<(Part, usize)>)
    requires
        i <= s.len(),
    ensures
        match r {
            Some((p, j)) => section_at(s@, i as int) == Some((p@, j as int)) && i < j <= s.len(),
            None => section_at(s@, i as int) is None,
        },
    decreases s.len() - i, 0nat,
{
    match start_tag(s, i, '#') {
        Some((field, j)) => {
            let (contents, k) = parse_parts(s, j);
            match tag_end(s, k, &field) {
                Some(m) => Some((Part::Section(field, contents), m)),
                None => None,
            }
        },
        None => None,
    }
}

fn parse_text(s: &Vec<char>, i: usize) -> (r: Option<(Part, usize)>)
    requires
        i <= s.len(),
    ensures
        match r {
            Some((p, j)) => j == text_end(s@, i as int) && p@ == PartView::Text(
                s@.subrange(i as int, j as int),
            ) && i < j <= s.len(),
            None => text_end(s@, i as int) <= i,
        },
{
    let e = find_text_end(s, i);
    if i < e {
        Some((Part::Text(from_chars(s, i, e)), e))
    } else {
        None
    }
}

fn parse_part(s: &Vec<char>, i: usize) -> (r: Option<(Part, usize)>)
    requires
        i <= s.len(),
    ensures
        match r {
            Some((p, j)) => part_at(s@, i as int) == Some((p@, j as int)) && i < j <= s.len(),
            None => part_at(s@, i as int) is None,
        },
    decreases s.len() - i, 1nat,
{
    match parse_comment(s, i) {
        Some(found) => {
            return Some(found);
        },
        None => {},
    }
    match parse_section(s, i) {
        Some(found) => {
            return Some(found);
        },
        None => {},
    }
    match parse_variable(s, i) {
        Some(found) => {
            return Some(found);
        },
        None => {},
    }
    parse_text(s, i)
}

fn parse_parts(s: &Vec<char>, i: usize) -> (r: (Vec<Part>, usize))
    requires
        i <= s.len(),
    ensures
        parts_at(s@, i as int) == (parts_view(r.0@), r.1 as int),
        i <= r.1 <= s.len(),
    decreases s.len() - i, 2nat,
{
    let mut tokens: Vec<Part> = Vec::new();
    let mut j: usize = i;
    assert(parts_view(tokens@) + parts_at(s@, j as int).0 =~= parts_at(s@, i as int).0);
    loop
        invariant
            i <= j <= s.len(),
            parts_at(s@, i as int).0 == parts_view(tokens@) + parts_at(s@, j as int).0,
            parts_at(s@, i as int).1 == parts_at(s@, j as int).1,
        ensures
            i <= j <= s.len(),
            parts_at(s@, i as int).0 == parts_view(tokens@),
            parts_at(s@, i as int).1 == j,
        decreases s.len() - j,
    {
        match parse_part(s, j) {
            None => {
                assert(parts_view(tokens@) + Seq::<PartView>::empty() =~= parts_view(tokens@));
                break ;
            },
            Some((part, next)) => {
                let ghost before = parts_view(tokens@);
                let ghost added = part@;
                tokens.push(part);
                assert(parts_view(tokens@) =~= before + seq![added]);
                assert((before + seq![added]) + parts_at(s@, next as int).0 =~= before + (
                seq![added] + parts_at(s@, next as int).0));
                j = next;
            },
        }
    }
    (tokens, j)
}

/// The parser of the first template language.
#[derive(Debug)]
pub struct TempletParser {}

impl TempletParser {
    /// Parses a source into its parts. The whole source must be a run of
    /// comments, sections, variables and texts; where it is not, the error
    /// gives the position at which the run ends.
    pub fn parse(s: &str) -> (r: Result<Vec<Part>, ParseError>)
        ensures
            match r {
                Ok(parts) => parsed(s@) == Ok::<Seq<PartView>, ParseError>(parts_view(parts@)),
                Err(e) => parsed(s@) == Err::<Seq<PartView>, ParseError>(e),
            },
    {
        let chars = to_chars(s);
        let (tokens, end) = parse_parts(&chars, 0);
        if end == chars.len() {
            Ok(tokens)
        } else {
            Err(ParseError { position: end })
        }
    }
}

} // verus!
