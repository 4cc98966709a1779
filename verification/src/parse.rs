//! The template syntax tree and the parser that builds it from source text.

use vstd::prelude::*;
use crate::text::{from_chars, to_chars};

verus! {

/// One selector of a dotted access path.
#[derive(Clone, Debug, PartialEq, Eq)]
pub enum Field {
    /// `[n]`: the element at a position of a sequence.
    Index(usize),
    /// `n`: the field at a position of a positional aggregate.
    Nth(usize),
    /// A field or key looked up by its name.
    Named(String),
}

/// What a tag refers to.
#[derive(Clone, Debug, PartialEq, Eq)]
pub enum Access {
    /// The named variant of a tagged union.
    Variant(String),
    /// A path of selectors, resolved from left to right.
    Path(Vec<Field>),
    /// The current scope value itself.
    This,
}

/// A node of the template syntax tree.
#[derive(Debug, PartialEq, Eq)]
pub enum Part {
    /// Text that is written as it is.
    Text(String),
    /// The interpolation of one value.
    Variable(Access),
    /// A block that is rendered depending on a value, maybe repeatedly.
    Section(Access, Vec<Part>),
    /// A block that is rendered when the value is missing, false or empty.
    InvertedSection(Access, Vec<Part>),
    /// The inclusion of another template, by its name.
    Include(String),
    /// A comment: it renders nothing.
    Comment,
}

/// One lexical piece of an access path.
#[derive(Debug)]
pub enum PathPart {
    Index(usize),
    Nth(usize),
    Named(String),
    Dot,
}

/// What a selector stands for.
pub enum FieldView {
    Index(nat),
    Nth(nat),
    Named(Seq<char>),
}

/// What an access path stands for.
pub enum AccessView {
    Variant(Seq<char>),
    Path(Seq<FieldView>),
    This,
}

/// What a part stands for: the tree below it, with texts as sequences of
/// characters.
pub enum PartView {
    Text(Seq<char>),
    Variable(AccessView),
    Section(AccessView, Seq<PartView>),
    InvertedSection(AccessView, Seq<PartView>),
    Include(Seq<char>),
    Comment,
}

/// What a piece of a path stands for.
pub enum PathPartView {
    Index(nat),
    Nth(nat),
    Named(Seq<char>),
    Dot,
}

impl View for Field {
    type V = FieldView;

    open spec fn view(&self) -> FieldView {
        match self {
            Field::Index(i) => FieldView::Index(*i as nat),
            Field::Nth(i) => FieldView::Nth(*i as nat),
            Field::Named(n) => FieldView::Named(n@),
        }
    }
}

impl View for PathPart {
    type V = PathPartView;

    open spec fn view(&self) -> PathPartView {
        match self {
            PathPart::Index(i) => PathPartView::Index(*i as nat),
            PathPart::Nth(i) => PathPartView::Nth(*i as nat),
            PathPart::Named(n) => PathPartView::Named(n@),
            PathPart::Dot => PathPartView::Dot,
        }
    }
}

/// The views of a run of selectors, one for one.
pub open spec fn path_view(fields: Seq<Field>) -> Seq<FieldView> {
    fields.map_values(|f: Field| f@)
}

impl View for Access {
    type V = AccessView;

    open spec fn view(&self) -> AccessView {
        match self {
            Access::Variant(n) => AccessView::Variant(n@),
            Access::Path(fields) => AccessView::Path(path_view(fields@)),
            Access::This => AccessView::This,
        }
    }
}

/// The views of a run of parts, one for one.
pub open spec fn parts_view(parts: Seq<Part>) -> Seq<PartView>
    decreases parts,
{
    Seq::new(
        parts.len(),
        |i: int|
            if 0 <= i < parts.len() {
                part_view(parts[i])
            } else {
                PartView::Comment
            },
    )
}

/// The tree that `part` stands for.
pub open spec fn part_view(part: Part) -> PartView
    decreases part,
{
    match part {
        Part::Text(s) => PartView::Text(s@),
        Part::Variable(a) => PartView::Variable(a@),
        Part::Section(a, body) => PartView::Section(a@, parts_view(body@)),
        Part::InvertedSection(a, body) => PartView::InvertedSection(a@, parts_view(body@)),
        Part::Include(n) => PartView::Include(n@),
        Part::Comment => PartView::Comment,
    }
}

impl View for Part {
    type V = PartView;

    open spec fn view(&self) -> PartView {
        part_view(*self)
    }
}

/// Whether two selectors are the same.
pub fn field_eq(a: &Field, b: &Field) -> (r: bool)
    ensures
        r == (a@ == b@),
{
    match (a, b) {
        (Field::Index(i), Field::Index(j)) => *i == *j,
        (Field::Nth(i), Field::Nth(j)) => *i == *j,
        (Field::Named(n), Field::Named(m)) => *n == *m,
        _ => false,
    }
}

/// Whether two runs of selectors are the same.
pub fn path_eq(p: &Vec<Field>, q: &Vec<Field>) -> (r: bool)
    ensures
        r == (path_view(p@) == path_view(q@)),
{
    if p.len() != q.len() {
        assert(path_view(p@).len() != path_view(q@).len());
        return false;
    }
    let mut i: usize = 0;
    while i < p.len()
        invariant
            i <= p.len() == q.len(),
            forall|k: int| 0 <= k < i ==> p@[k]@ == q@[k]@,
        decreases p.len() - i,
    {
        if !field_eq(&p[i], &q[i]) {
            assert(path_view(p@)[i as int] != path_view(q@)[i as int]);
            return false;
        }
        i += 1;
    }
    assert(path_view(p@) =~= path_view(q@));
    true
}

/// Whether two access paths are the same, selector by selector.
pub fn access_eq(a: &Access, b: &Access) -> (r: bool)
    ensures
        r == (a@ == b@),
{
    match (a, b) {
        (Access::Variant(n), Access::Variant(m)) => *n == *m,
        (Access::This, Access::This) => true,
        (Access::Path(p), Access::Path(q)) => path_eq(p, q),
        _ => false,
    }
}

/// Why a source is not a template: the position, counted in characters,
/// of the first construct that matches no rule of the grammar.
#[derive(Debug, Clone, Copy, PartialEq, Eq, Structural)]
pub struct ParseError {
    pub position: usize,
}

/// Whether a character outside ASCII is alphabetic, as the `nom_unicode`
/// crate tells it.
pub uninterp spec fn unicode_alphabetic(c: char) -> bool;

/// Whether a character outside ASCII is alphabetic or numeric, as the
/// `nom_unicode` crate tells it.
pub uninterp spec fn unicode_alphanumeric(c: char) -> bool;

/// Whether a character outside ASCII is an uppercase letter, as the
/// `nom_unicode` crate tells it.
pub uninterp spec fn unicode_uppercase(c: char) -> bool;

/// Whether `c` is a decimal digit.
pub open spec fn is_digit(c: char) -> bool {
    48 <= c as u32 <= 57
}

/// Whether `c` is an uppercase letter: `A` to `Z` in ASCII, and what
/// Unicode calls uppercase outside it.
pub open spec fn is_upper(c: char) -> bool {
    if (c as u32) < 128 {
        65 <= c as u32 <= 90
    } else {
        unicode_uppercase(c)
    }
}

/// Whether `c` is a letter: `a` to `z` and `A` to `Z` in ASCII, and what
/// Unicode calls alphabetic outside it.
pub open spec fn is_alpha(c: char) -> bool {
    if (c as u32) < 128 {
        65 <= c as u32 <= 90 || 97 <= c as u32 <= 122
    } else {
        unicode_alphabetic(c)
    }
}

/// Whether `c` is a letter or a digit.
pub open spec fn is_alnum(c: char) -> bool {
    if (c as u32) < 128 {
        65 <= c as u32 <= 90 || 97 <= c as u32 <= 122 || 48 <= c as u32 <= 57
    } else {
        unicode_alphanumeric(c)
    }
}

/// Whether `c` may stand inside an identifier.
pub open spec fn is_ident(c: char) -> bool {
    is_alnum(c) || c == '_'
}

/// Whether `c` is a space or a tab.
pub open spec fn is_space(c: char) -> bool {
    c == ' ' || c == '\t'
}

/// Whether the two characters `a` and `b` stand at position `i`.
pub open spec fn at2(s: Seq<char>, i: int, a: char, b: char) -> bool {
    0 <= i && i + 1 < s.len() && s[i] == a && s[i + 1] == b
}

/// Whether a tag opens at position `i`.
pub open spec fn opens(s: Seq<char>, i: int) -> bool {
    at2(s, i, '{', '{')
}

/// Whether a tag closes at position `i`.
pub open spec fn closes(s: Seq<char>, i: int) -> bool {
    at2(s, i, '}', '}')
}

/// Whether a tag with the sigil `sigil` opens at position `i`.
pub open spec fn opens_with(s: Seq<char>, i: int, sigil: char) -> bool {
    opens(s, i) && i + 2 < s.len() && s[i + 2] == sigil
}

/// Whether a comment opens at position `i`.
pub open spec fn opens_comment(s: Seq<char>, i: int) -> bool {
    0 <= i < s.len() && s[i] == '\\' && opens(s, i + 1)
}

/// The end of the run of spaces and tabs that starts at `i`.
pub open spec fn spaces_end(s: Seq<char>, i: int) -> int
    decreases s.len() - i,
{
    if 0 <= i < s.len() && is_space(s[i]) {
        spaces_end(s, i + 1)
    } else {
        i
    }
}

/// The end of the run of digits that starts at `i`.
pub open spec fn digits_end(s: Seq<char>, i: int) -> int
    decreases s.len() - i,
{
    if 0 <= i < s.len() && is_digit(s[i]) {
        digits_end(s, i + 1)
    } else {
        i
    }
}

/// The end of the run of uppercase letters that starts at `i`.
pub open spec fn upper_end(s: Seq<char>, i: int) -> int
    decreases s.len() - i,
{
    if 0 <= i < s.len() && is_upper(s[i]) {
        upper_end(s, i + 1)
    } else {
        i
    }
}

/// The end of the run of letters and digits that starts at `i`.
pub open spec fn alnum_end(s: Seq<char>, i: int) -> int
    decreases s.len() - i,
{
    if 0 <= i < s.len() && is_alnum(s[i]) {
        alnum_end(s, i + 1)
    } else {
        i
    }
}

/// The end of the run of identifier characters that starts at `i`.
pub open spec fn ident_end(s: Seq<char>, i: int) -> int
    decreases s.len() - i,
{
    if 0 <= i < s.len() && is_ident(s[i]) {
        ident_end(s, i + 1)
    } else {
        i
    }
}

/// The first position from `i` on that holds a closing brace, or the end
/// of the source.
pub open spec fn brace_at(s: Seq<char>, i: int) -> int
    decreases s.len() - i,
{
    if 0 <= i < s.len() && s[i] != '}' {
        brace_at(s, i + 1)
    } else {
        i
    }
}

/// The end of the text that starts at `i`: the first position from `i` on
/// at which a tag or a comment opens, or the end of the source.
pub open spec fn text_end(s: Seq<char>, i: int) -> int
    decreases s.len() - i,
{
    if 0 <= i < s.len() && !opens(s, i) && !opens_comment(s, i) {
        text_end(s, i + 1)
    } else {
        i
    }
}

/// The number that the digits of `s` from `i` up to `j` write.
pub open spec fn digits_value(s: Seq<char>, i: int, j: int) -> nat
    decreases j - i,
{
    if j <= i || j > s.len() || i < 0 {
        0
    } else {
        (digits_value(s, i, j - 1) * 10 + (s[j - 1] as u32 - 48)) as nat
    }
}

/// The numeral at `i`: the position as which it counts, and where it ends.
/// There is none where no digit stands at `i` or where the number does not
/// fit in 128 bits. A number beyond the range of positions counts as its
/// low bits.
pub open spec fn numeral_at(s: Seq<char>, i: int) -> Option<(nat, int)> {
    let j = digits_end(s, i);
    if j > i && digits_value(s, i, j) <= u128::MAX {
        Some(((digits_value(s, i, j) as usize) as nat, j))
    } else {
        None
    }
}

/// The piece of an access path that starts at `i`, and where it ends.
pub open spec fn path_part_at(s: Seq<char>, i: int) -> Option<(PathPartView, int)> {
    if i < 0 || i >= s.len() {
        None
    } else if s[i] == '.' {
        Some((PathPartView::Dot, i + 1))
    } else if s[i] == '[' {
        match numeral_at(s, i + 1) {
            Some((n, j)) => if j < s.len() && s[j] == ']' {
                Some((PathPartView::Index(n), j + 1))
            } else {
                None
            },
            None => None,
        }
    } else if is_digit(s[i]) {
        match numeral_at(s, i) {
            Some((n, j)) => Some((PathPartView::Nth(n), j)),
            None => None,
        }
    } else if is_alpha(s[i]) || s[i] == '_' {
        let j = ident_end(s, i + 1);
        Some((PathPartView::Named(s.subrange(i, j)), j))
    } else {
        None
    }
}

/// The selector that a piece of a path adds to the path: none for a dot.
pub open spec fn selector(part: PathPartView) -> Seq<FieldView> {
    match part {
        PathPartView::Index(n) => seq![FieldView::Index(n)],
        PathPartView::Nth(n) => seq![FieldView::Nth(n)],
        PathPartView::Named(name) => seq![FieldView::Named(name)],
        PathPartView::Dot => Seq::empty(),
    }
}

/// The selectors of the longest run of path pieces that starts at `i`, and
/// where the run ends.
pub open spec fn path_at(s: Seq<char>, i: int) -> (Seq<FieldView>, int)
    decreases s.len() - i,
{
    match path_part_at(s, i) {
        Some((part, j)) => if i < j <= s.len() {
            (selector(part) + path_at(s, j).0, path_at(s, j).1)
        } else {
            (Seq::empty(), i)
        },
        None => (Seq::empty(), i),
    }
}

/// The variant name at `i`: a run of uppercase letters followed by a run of
/// letters and digits, neither of them empty.
pub open spec fn variant_at(s: Seq<char>, i: int) -> Option<(AccessView, int)> {
    let u = upper_end(s, i);
    let e = alnum_end(s, u);
    if 0 <= i < u && u < e {
        Some((AccessView::Variant(s.subrange(i, e)), e))
    } else {
        None
    }
}

/// The access path at `i`, and where it ends: a single dot, or else a
/// variant name, or else a run of path pieces.
pub open spec fn access_at(s: Seq<char>, i: int) -> Option<(AccessView, int)> {
    if 0 <= i < s.len() && s[i] == '.' {
        Some((AccessView::This, i + 1))
    } else if variant_at(s, i) is Some {
        variant_at(s, i)
    } else if path_part_at(s, i) is Some {
        Some((AccessView::Path(path_at(s, i).0), path_at(s, i).1))
    } else {
        None
    }
}

/// The rest of a tag from `i` on, behind its opening braces and sigil: the
/// access path between optional spaces and the closing braces behind it.
pub open spec fn tag_rest(s: Seq<char>, i: int) -> Option<(AccessView, int)> {
    match access_at(s, spaces_end(s, i)) {
        Some((access, j)) => {
            let k = spaces_end(s, j);
            if closes(s, k) {
                Some((access, k + 2))
            } else {
                None
            }
        },
        None => None,
    }
}

/// The tag with the sigil `sigil` at `i`: its access path, and where it
/// ends.
pub open spec fn tag_at(s: Seq<char>, i: int, sigil: char) -> Option<(AccessView, int)> {
    if opens_with(s, i, sigil) {
        tag_rest(s, i + 3)
    } else {
        None
    }
}

/// The variable tag at `i`.
pub open spec fn variable_at(s: Seq<char>, i: int) -> Option<(PartView, int)> {
    if opens(s, i) {
        match tag_rest(s, i + 2) {
            Some((access, j)) => Some((PartView::Variable(access), j)),
            None => None,
        }
    } else {
        None
    }
}

/// The comment at `i`: what stands between its opening and the next
/// closing brace is not empty, and two closing braces end it.
pub open spec fn comment_at(s: Seq<char>, i: int) -> Option<(PartView, int)> {
    let k = brace_at(s, i + 3);
    if opens_comment(s, i) && i + 3 < k && closes(s, k) {
        Some((PartView::Comment, k + 2))
    } else {
        None
    }
}

/// The end of a quoted name whose content starts at `i`: the position of
/// the closing quote. A backslash inside must stand before a quote.
pub open spec fn quoted_end(s: Seq<char>, i: int) -> Option<int>
    decreases s.len() - i,
{
    if i < 0 || i >= s.len() {
        None
    } else if s[i] == '"' {
        Some(i)
    } else if s[i] == '\\' {
        if i + 1 < s.len() && s[i + 1] == '"' {
            quoted_end(s, i + 2)
        } else {
            None
        }
    } else {
        quoted_end(s, i + 1)
    }
}

/// The quoted name at `i`: the text between the quotes, which is not
/// empty, and the position behind the closing quote.
pub open spec fn file_path_at(s: Seq<char>, i: int) -> Option<(Seq<char>, int)> {
    if 0 <= i < s.len() && s[i] == '"' {
        match quoted_end(s, i + 1) {
            Some(k) => if i + 1 < k {
                Some((s.subrange(i + 1, k), k + 1))
            } else {
                None
            },
            None => None,
        }
    } else {
        None
    }
}

/// The include tag at `i`.
pub open spec fn include_at(s: Seq<char>, i: int) -> Option<(PartView, int)> {
    if opens_with(s, i, '>') {
        match file_path_at(s, spaces_end(s, i + 3)) {
            Some((name, j)) => {
                let k = spaces_end(s, j);
                if closes(s, k) {
                    Some((PartView::Include(name), k + 2))
                } else {
                    None
                }
            },
            None => None,
        }
    } else {
        None
    }
}

/// The text at `i`: the characters up to where the next tag or comment
/// opens. There is none where one opens at `i` itself.
pub open spec fn text_at(s: Seq<char>, i: int) -> Option<(PartView, int)> {
    let e = text_end(s, i);
    if 0 <= i < e {
        Some((PartView::Text(s.subrange(i, e)), e))
    } else {
        None
    }
}

/// The parts of the longest run of parts that starts at `i`, and where the
/// run ends.
pub open spec fn parts_at(s: Seq<char>, i: int) -> (Seq<PartView>, int)
    decreases s.len() - i, 2nat,
{
    match part_at(s, i) {
        Some((part, j)) => if i < j <= s.len() {
            (seq![part] + parts_at(s, j).0, parts_at(s, j).1)
        } else {
            (Seq::empty(), i)
        },
        None => (Seq::empty(), i),
    }
}

/// The section at `i` whose opening tag has the sigil `sigil`: its access
/// path and its body, and where its closing tag ends. The closing tag must
/// name the access path of the opening tag.
pub open spec fn block_at(s: Seq<char>, i: int, sigil: char) -> Option<
    (AccessView, Seq<PartView>, int),
>
    decreases s.len() - i, 0nat,
{
    match tag_at(s, i, sigil) {
        Some((access, j)) => if i < j <= s.len() {
            let (body, k) = parts_at(s, j);
            match tag_at(s, k, '/') {
                Some((closing, m)) => if closing == access {
                    Some((access, body, m))
                } else {
                    None
                },
                None => None,
            }
        } else {
            None
        },
        None => None,
    }
}

/// The part at `i`, and where it ends: the first of a comment, a section,
/// an inverted section, an include, a variable and a text that stands
/// there.
pub open spec fn part_at(s: Seq<char>, i: int) -> Option<(PartView, int)>
    decreases s.len() - i, 1nat,
{
    if comment_at(s, i) is Some {
        comment_at(s, i)
    } else if block_at(s, i, '#') is Some {
        let (access, body, j) = block_at(s, i, '#').unwrap();
        Some((PartView::Section(access, body), j))
    } else if block_at(s, i, '^') is Some {
        let (access, body, j) = block_at(s, i, '^').unwrap();
        Some((PartView::InvertedSection(access, body), j))
    } else if include_at(s, i) is Some {
        include_at(s, i)
    } else if variable_at(s, i) is Some {
        variable_at(s, i)
    } else {
        text_at(s, i)
    }
}

/// What parsing a source gives: its parts where the whole source is a run
/// of parts, and else the position at which the run of parts ends.
pub open spec fn parsed(s: Seq<char>) -> Result<Seq<PartView>, ParseError> {
    let (parts, end) = parts_at(s, 0);
    if end == s.len() {
        Ok(parts)
    } else {
        Err(ParseError { position: end as usize })
    }
}

/// `nom_unicode::is_alphabetic`, which asks `char::is_alphabetic`.
#[verifier::external_body]
fn unicode_is_alphabetic(c: char) -> (r: bool)
    ensures
        r == unicode_alphabetic(c),
{
    nom_unicode::is_alphabetic(c)
}

/// `nom_unicode::is_alphanumeric`, which asks `char::is_alphanumeric`.
#[verifier::external_body]
fn unicode_is_alphanumeric(c: char) -> (r: bool)
    ensures
        r == unicode_alphanumeric(c),
{
    nom_unicode::is_alphanumeric(c)
}

/// `nom_unicode::is_uppercase`, which asks `char::is_uppercase`.
#[verifier::external_body]
fn unicode_is_uppercase(c: char) -> (r: bool)
    ensures
        r == unicode_uppercase(c),
{
    nom_unicode::is_uppercase(c)
}

pub(crate) fn digit_char(c: char) -> (r: bool)
    ensures
        r == is_digit(c),
{
    let n: u32 = c as u32;
    48 <= n && n <= 57
}

fn upper_char(c: char) -> (r: bool)
    ensures
        r == is_upper(c),
{
    let n: u32 = c as u32;
    if n < 128 {
        65 <= n && n <= 90
    } else {
        unicode_is_uppercase(c)
    }
}

pub(crate) fn alpha_char(c: char) -> (r: bool)
    ensures
        r == is_alpha(c),
{
    let n: u32 = c as u32;
    if n < 128 {
        (65 <= n && n <= 90) || (97 <= n && n <= 122)
    } else {
        unicode_is_alphabetic(c)
    }
}

fn alnum_char(c: char) -> (r: bool)
    ensures
        r == is_alnum(c),
{
    let n: u32 = c as u32;
    if n < 128 {
        (65 <= n && n <= 90) || (97 <= n && n <= 122) || (48 <= n && n <= 57)
    } else {
        unicode_is_alphanumeric(c)
    }
}

fn ident_char(c: char) -> (r: bool)
    ensures
        r == is_ident(c),
{
    alnum_char(c) || c == '_'
}

fn space_char(c: char) -> (r: bool)
    ensures
        r == is_space(c),
{
    c == ' ' || c == '\t'
}

pub(crate) fn at2_chars(s: &Vec<char>, i: usize, a: char, b: char) -> (r: bool)
    requires
        i <= s.len(),
    ensures
        r == at2(s@, i as int, a, b),
{
    s.len() - i >= 2 && s[i] == a && s[i + 1] == b
}

pub(crate) fn opens_with_chars(s: &Vec<char>, i: usize, sigil: char) -> (r: bool)
    requires
        i <= s.len(),
    ensures
        r == opens_with(s@, i as int, sigil),
{
    s.len() - i >= 3 && s[i] == '{' && s[i + 1] == '{' && s[i + 2] == sigil
}

pub(crate) fn opens_comment_chars(s: &Vec<char>, i: usize) -> (r: bool)
    requires
        i <= s.len(),
    ensures
        r == opens_comment(s@, i as int),
{
    s.len() - i >= 3 && s[i] == '\\' && s[i + 1] == '{' && s[i + 2] == '{'
}

pub(crate) fn skip_spaces(s: &Vec<char>, i: usize) -> (j: usize)
    requires
        i <= s.len(),
    ensures
        j == spaces_end(s@, i as int),
        i <= j <= s.len(),
{
    let mut j: usize = i;
    while j < s.len() && space_char(s[j])
        invariant
            i <= j <= s.len(),
            spaces_end(s@, i as int) == spaces_end(s@, j as int),
        decreases s.len() - j,
    {
        j += 1;
    }
    j
}

fn skip_upper(s: &Vec<char>, i: usize) -> (j: usize)
    requires
        i <= s.len(),
    ensures
        j == upper_end(s@, i as int),
        i <= j <= s.len(),
{
    let mut j: usize = i;
    while j < s.len() && upper_char(s[j])
        invariant
            i <= j <= s.len(),
            upper_end(s@, i as int) == upper_end(s@, j as int),
        decreases s.len() - j,
    {
        j += 1;
    }
    j
}

fn skip_alnum(s: &Vec<char>, i: usize) -> (j: usize)
    requires
        i <= s.len(),
    ensures
        j == alnum_end(s@, i as int),
        i <= j <= s.len(),
{
    let mut j: usize = i;
    while j < s.len() && alnum_char(s[j])
        invariant
            i <= j <= s.len(),
            alnum_end(s@, i as int) == alnum_end(s@, j as int),
        decreases s.len() - j,
    {
        j += 1;
    }
    j
}

pub(crate) fn skip_ident(s: &Vec<char>, i: usize) -> (j: usize)
    requires
        i <= s.len(),
    ensures
        j == ident_end(s@, i as int),
        i <= j <= s.len(),
{
    let mut j: usize = i;
    while j < s.len() && ident_char(s[j])
        invariant
            i <= j <= s.len(),
            ident_end(s@, i as int) == ident_end(s@, j as int),
        decreases s.len() - j,
    {
        j += 1;
    }
    j
}

pub(crate) fn find_brace(s: &Vec<char>, i: usize) -> (j: usize)
    requires
        i <= s.len(),
    ensures
        j == brace_at(s@, i as int),
        i <= j <= s.len(),
{
    let mut j: usize = i;
    while j < s.len() && s[j] != '}'
        invariant
            i <= j <= s.len(),
            brace_at(s@, i as int) == brace_at(s@, j as int),
        decreases s.len() - j,
    {
        j += 1;
    }
    j
}

pub(crate) fn find_text_end(s: &Vec<char>, i: usize) -> (j: usize)
    requires
        i <= s.len(),
    ensures
        j == text_end(s@, i as int),
        i <= j <= s.len(),
{
    let mut j: usize = i;
    while j < s.len() && !at2_chars(s, j, '{', '{') && !opens_comment_chars(s, j)
        invariant
            i <= j <= s.len(),
            text_end(s@, i as int) == text_end(s@, j as int),
        decreases s.len() - j,
    {
        j += 1;
    }
    j
}

/// The digits from `i` up to the end of their run are digits, and the run
/// ends inside the source.
pub(crate) proof fn lemma_digits_run(s: Seq<char>, i: int)
    requires
        0 <= i <= s.len(),
    ensures
        i <= digits_end(s, i) <= s.len(),
        forall|k: int| i <= k < digits_end(s, i) ==> is_digit(#[trigger] s[k]),
    decreases s.len() - i,
{
    if i < s.len() && is_digit(s[i]) {
        lemma_digits_run(s, i + 1);
    }
}

/// The number that a run of digits writes does not shrink as the run grows.
pub(crate) proof fn lemma_digits_value_grows(s: Seq<char>, i: int, a: int, b: int)
    requires
        0 <= i <= a <= b <= s.len(),
        forall|k: int| i <= k < b ==> is_digit(#[trigger] s[k]),
    ensures
        digits_value(s, i, a) <= digits_value(s, i, b),
    decreases b - a,
{
    if a < b {
        lemma_digits_value_grows(s, i, a, b - 1);
        assert(is_digit(s[b - 1]));
    }
}

fn numeral(s: &Vec<char>, i: usize) -> (r: Option<(usize, usize)>)
    requires
        i <= s.len(),
    ensures
        match r {
            Some((n, j)) => numeral_at(s@, i as int) == Some((n as nat, j as int)) && i < j
                <= s.len(),
            None => numeral_at(s@, i as int) is None,
        },
{
    let mut j: usize = i;
    let mut value: u128 = 0;
    while j < s.len() && digit_char(s[j])
        invariant
            i <= j <= s.len(),
            digits_end(s@, i as int) == digits_end(s@, j as int),
            value == digits_value(s@, i as int, j as int),
            forall|k: int| i <= k < j ==> is_digit(#[trigger] s@[k]),
        decreases s.len() - j,
    {
        let d: u128 = (s[j] as u32 - 48) as u128;
        proof {
            lemma_digits_run(s@, j as int);
            lemma_digits_run(s@, j + 1);
            assert(digits_value(s@, i as int, j + 1) == value * 10 + d);
            if value * 10 + d > u128::MAX {
                lemma_digits_value_grows(s@, i as int, j + 1, digits_end(s@, i as int));
            }
        }
        match value.checked_mul(10) {
            None => {
                return None;
            },
            Some(tens) => match tens.checked_add(d) {
                None => {
                    return None;
                },
                Some(next) => {
                    value = next;
                },
            },
        }
        j += 1;
    }
    if j == i {
        None
    } else {
        Some((#[verifier::truncate] (value as usize), j))
    }
}

fn field_dot(s: &Vec<char>, i: usize) -> (r: Option<(PathPart, usize)>)
    requires
        i < s.len(),
    ensures
        r is Some <==> s@[i as int] == '.',
        r matches Some((p, j)) ==> p@ == PathPartView::Dot && j == i + 1,
{
    if s[i] == '.' {
        Some((PathPart::Dot, i + 1))
    } else {
        None
    }
}

fn field_index(s: &Vec<char>, i: usize) -> (r: Option<(PathPart, usize)>)
    requires
        i < s.len(),
        s@[i as int] == '[',
    ensures
        match r {
            Some((p, j)) => path_part_at(s@, i as int) == Some((p@, j as int)) && i < j
                <= s.len(),
            None => path_part_at(s@, i as int) is None,
        },
{
    match numeral(s, i + 1) {
        Some((n, j)) => {
            if j < s.len() && s[j] == ']' {
                Some((PathPart::Index(n), j + 1))
            } else {
                None
            }
        },
        None => None,
    }
}

fn field_nth(s: &Vec<char>, i: usize) -> (r: Option<(PathPart, usize)>)
    requires
        i < s.len(),
        is_digit(s@[i as int]),
    ensures
        match r {
            Some((p, j)) => path_part_at(s@, i as int) == Some((p@, j as int)) && i < j
                <= s.len(),
            None => path_part_at(s@, i as int) is None,
        },
{
    match numeral(s, i) {
        Some((n, j)) => Some((PathPart::Nth(n), j)),
        None => None,
    }
}

fn field_identifier(s: &Vec<char>, i: usize) -> (r: Option<(PathPart, usize)>)
    requires
        i < s.len(),
        s@[i as int] != '.',
        s@[i as int] != '[',
        !is_digit(s@[i as int]),
    ensures
        match r {
            Some((p, j)) => path_part_at(s@, i as int) == Some((p@, j as int)) && i < j
                <= s.len(),
            None => path_part_at(s@, i as int) is None,
        },
{
    if alpha_char(s[i]) || s[i] == '_' {
        let j = skip_ident(s, i + 1);
        Some((PathPart::Named(from_chars(s, i, j)), j))
    } else {
        None
    }
}

fn path_part(s: &Vec<char>, i: usize) -> (r: Option<(PathPart, usize)>)
    requires
        i <= s.len(),
    ensures
        match r {
            Some((p, j)) => path_part_at(s@, i as int) == Some((p@, j as int)) && i < j
                <= s.len(),
            None => path_part_at(s@, i as int) is None,
        },
{
    if i >= s.len() {
        return None;
    }
    match field_dot(s, i) {
        Some(found) => Some(found),
        None => {
            if s[i] == '[' {
                field_index(s, i)
            } else if digit_char(s[i]) {
                field_nth(s, i)
            } else {
                field_identifier(s, i)
            }
        },
    }
}

fn access_this(s: &Vec<char>, i: usize) -> (r: Option<(Access, usize)>)
    requires
        i <= s.len(),
    ensures
        r is Some <==> (i < s.len() && s@[i as int] == '.'),
        r matches Some((a, j)) ==> a@ == AccessView::This && j == i + 1,
{
    if i < s.len() && s[i] == '.' {
        Some((Access::This, i + 1))
    } else {
        None
    }
}

fn access_variant(s: &Vec<char>, i: usize) -> (r: Option<(Access, usize)>)
    requires
        i <= s.len(),
    ensures
        match r {
            Some((a, j)) => variant_at(s@, i as int) == Some((a@, j as int)) && i < j <= s.len(),
            None => variant_at(s@, i as int) is None,
        },
{
    let u = skip_upper(s, i);
    let e = skip_alnum(s, u);
    if i < u && u < e {
        Some((Access::Variant(from_chars(s, i, e)), e))
    } else {
        None
    }
}

fn access_path(s: &Vec<char>, i: usize) -> (r: Option<(Access, usize)>)
    requires
        i <= s.len(),
    ensures
        match r {
            Some((a, j)) => path_part_at(s@, i as int) is Some && a@ == AccessView::Path(
                path_at(s@, i as int).0,
            ) && j == path_at(s@, i as int).1 && i < j <= s.len(),
            None => path_part_at(s@, i as int) is None,
        },
{
    let mut fields: Vec<Field> = Vec::new();
    let mut j: usize = i;
    assert(path_view(fields@) + path_at(s@, j as int).0 =~= path_at(s@, i as int).0);
    loop
        invariant
            i <= j <= s.len(),
            j == i ==> fields@.len() == 0,
            j > i ==> path_part_at(s@, i as int) is Some,
            path_at(s@, i as int).0 == path_view(fields@) + path_at(s@, j as int).0,
            path_at(s@, i as int).1 == path_at(s@, j as int).1,
        ensures
            i <= j <= s.len(),
            j > i ==> path_part_at(s@, i as int) is Some,
            j == i ==> path_part_at(s@, i as int) is None,
            path_at(s@, i as int).0 == path_view(fields@),
            path_at(s@, i as int).1 == j,
        decreases s.len() - j,
    {
        match path_part(s, j) {
            None => {
                assert(path_view(fields@) + Seq::<FieldView>::empty() =~= path_view(fields@));
                break ;
            },
            Some((part, next)) => {
                let ghost before = path_view(fields@);
                let ghost added = selector(part@);
                match part {
                    PathPart::Index(n) => fields.push(Field::Index(n)),
                    PathPart::Nth(n) => fields.push(Field::Nth(n)),
                    PathPart::Named(name) => fields.push(Field::Named(name)),
                    PathPart::Dot => {},
                }
                assert(path_view(fields@) =~= before + added);
                assert((before + added) + path_at(s@, next as int).0 =~= before + (added
                    + path_at(s@, next as int).0));
                j = next;
            },
        }
    }
    if j == i {
        None
    } else {
        Some((Access::Path(fields), j))
    }
}

/// The access path that starts at `i`, and where it ends.
pub fn access(s: &Vec<char>, i: usize) -> (r: Option<(Access, usize)>)
    ensures
        match r {
            Some((a, j)) => access_at(s@, i as int) == Some((a@, j as int)) && i < j <= s.len(),
            None => access_at(s@, i as int) is None,
        },
{
    if i > s.len() {
        return None;
    }
    match access_this(s, i) {
        Some(found) => Some(found),
        None => match access_variant(s, i) {
            Some(found) => Some(found),
            None => access_path(s, i),
        },
    }
}

fn tag_tail(s: &Vec<char>, i: usize) -> (r: Option<(Access, usize)>)
    requires
        i <= s.len(),
    ensures
        match r {
            Some((a, j)) => tag_rest(s@, i as int) == Some((a@, j as int)) && i < j <= s.len(),
            None => tag_rest(s@, i as int) is None,
        },
{
    let start = skip_spaces(s, i);
    match access(s, start) {
        Some((found, j)) => {
            let k = skip_spaces(s, j);
            if at2_chars(s, k, '}', '}') {
                Some((found, k + 2))
            } else {
                None
            }
        },
        None => None,
    }
}

fn start_tag(s: &Vec<char>, i: usize, sigil: char) -> (r: Option<(Access, usize)>)
    requires
        i <= s.len(),
    ensures
        match r {
            Some((a, j)) => tag_at(s@, i as int, sigil) == Some((a@, j as int)) && i < j
                <= s.len(),
            None => tag_at(s@, i as int, sigil) is None,
        },
{
    if opens_with_chars(s, i, sigil) {
        tag_tail(s, i + 3)
    } else {
        None
    }
}

fn tag_end(s: &Vec<char>, i: usize) -> (r: Option<(Access, usize)>)
    requires
        i <= s.len(),
    ensures
        match r {
            Some((a, j)) => tag_at(s@, i as int, '/') == Some((a@, j as int)) && i < j
                <= s.len(),
            None => tag_at(s@, i as int, '/') is None,
        },
{
    start_tag(s, i, '/')
}

fn parse_comment(s: &Vec<char>, i: usize) -> (r: Option<(Part, usize)>)
    requires
        i <= s.len(),
    ensures
        match r {
            Some((p, j)) => comment_at(s@, i as int) == Some((p@, j as int)) && i < j
                <= s.len(),
            None => comment_at(s@, i as int) is None,
        },
{
    if !opens_comment_chars(s, i) {
        return None;
    }
    let k = find_brace(s, i + 3);
    if i + 3 < k && at2_chars(s, k, '}', '}') {
        Some((Part::Comment, k + 2))
    } else {
        None
    }
}

fn parse_variable(s: &Vec<char>, i: usize) -> (r: Option<(Part, usize)>)
    requires
        i <= s.len(),
    ensures
        match r {
            Some((p, j)) => variable_at(s@, i as int) == Some((p@, j as int)) && i < j
                <= s.len(),
            None => variable_at(s@, i as int) is None,
        },
{
    if !at2_chars(s, i, '{', '{') {
        return None;
    }
    match tag_tail(s, i + 2) {
        Some((found, j)) => Some((Part::Variable(found), j)),
        None => None,
    }
}

fn quoted(s: &Vec<char>, i: usize) -> (r: Option<usize>)
    requires
        i <= s.len(),
    ensures
        match r {
            Some(k) => quoted_end(s@, i as int) == Some(k as int) && i <= k < s.len(),
            None => quoted_end(s@, i as int) is None,
        },
{
    let mut k: usize = i;
    while k < s.len()
        invariant
            i <= k <= s.len(),
            quoted_end(s@, i as int) == quoted_end(s@, k as int),
        decreases s.len() - k,
    {
        if s[k] == '"' {
            return Some(k);
        } else if s[k] == '\\' {
            if s.len() - k >= 2 && s[k + 1] == '"' {
                k += 2;
            } else {
                return None;
            }
        } else {
            k += 1;
        }
    }
    None
}

fn file_path(s: &Vec<char>, i: usize) -> (r: Option<(String, usize)>)
    requires
        i <= s.len(),
    ensures
        match r {
            Some((name, j)) => file_path_at(s@, i as int) == Some((name@, j as int)) && i < j
                <= s.len(),
            None => file_path_at(s@, i as int) is None,
        },
{
    if i < s.len() && s[i] == '"' {
        match quoted(s, i + 1) {
            Some(k) => {
                if i + 1 < k {
                    Some((from_chars(s, i + 1, k), k + 1))
                } else {
                    None
                }
            },
            None => None,
        }
    } else {
        None
    }
}

fn parse_include(s: &Vec<char>, i: usize) -> (r: Option<(Part, usize)>)
    requires
        i <= s.len(),
    ensures
        match r {
            Some((p, j)) => include_at(s@, i as int) == Some((p@, j as int)) && i < j
                <= s.len(),
            None => include_at(s@, i as int) is None,
        },
{
    if !opens_with_chars(s, i, '>') {
        return None;
    }
    let start = skip_spaces(s, i + 3);
    match file_path(s, start) {
        Some((name, j)) => {
            let k = skip_spaces(s, j);
            if at2_chars(s, k, '}', '}') {
                Some((Part::Include(name), k + 2))
            } else {
                None
            }
        },
        None => None,
    }
}

fn parse_text(s: &Vec<char>, i: usize) -> (r: Option<(Part, usize)>)
    requires
        i <= s.len(),
    ensures
        match r {
            Some((p, j)) => text_at(s@, i as int) == Some((p@, j as int)) && i < j <= s.len(),
            None => text_at(s@, i as int) is None,
        },
{
    let e = find_text_end(s, i);
    if i < e {
        Some((Part::Text(from_chars(s, i, e)), e))
    } else {
        None
    }
}

fn parse_block(s: &Vec<char>, i: usize, sigil: char) -> (r: Option<(Access, Vec<Part>, usize)>)
    requires
        i <= s.len(),
    ensures
        match r {
            Some((a, body, j)) => block_at(s@, i as int, sigil) == Some(
                (a@, parts_view(body@), j as int),
            ) && i < j <= s.len(),
            None => block_at(s@, i as int, sigil) is None,
        },
    decreases s.len() - i, 0nat,
{
    match start_tag(s, i, sigil) {
        Some((start_field, j)) => {
            let (contents, k) = parse_parts(s, j);
            match tag_end(s, k) {
                Some((end_field, m)) => {
                    if access_eq(&start_field, &end_field) {
                        Some((start_field, contents, m))
                    } else {
                        None
                    }
                },
                None => None,
            }
        },
        None => None,
    }
}

fn parse_section(s: &Vec<char>, i: usize) -> (r: Option<(Part, usize)>)
    requires
        i <= s.len(),
    ensures
        match r {
            Some((p, j)) => block_at(s@, i as int, '#') matches Some((a, body, end)) && p@
                == PartView::Section(a, body) && j == end && i < j <= s.len(),
            None => block_at(s@, i as int, '#') is None,
        },
    decreases s.len() - i, 1nat,
{
    match parse_block(s, i, '#') {
        Some((start_field, contents, j)) => Some((Part::Section(start_field, contents), j)),
        None => None,
    }
}

fn parse_inverted_section(s: &Vec<char>, i: usize) -> (r: Option<(Part, usize)>)
    requires
        i <= s.len(),
    ensures
        match r {
            Some((p, j)) => block_at(s@, i as int, '^') matches Some((a, body, end)) && p@
                == PartView::InvertedSection(a, body) && j == end && i < j <= s.len(),
            None => block_at(s@, i as int, '^') is None,
        },
    decreases s.len() - i, 1nat,
{
    match parse_block(s, i, '^') {
        Some((start_field, contents, j)) => Some(
            (Part::InvertedSection(start_field, contents), j),
        ),
        None => None,
    }
}

fn parse_part(s: &Vec<char>, i: usize) -> (r: Option<(Part, usize)>)
    requires
        i <= s.len(),
    ensures
        match r {
            Some((p, j)) => part_at(s@, i as int) == Some((p@, j as int)) && i < j <= s.len(),
            None => part_at(s@, i as int) is None,
        },
    decreases s.len() - i, 2nat,
{
    match parse_comment(s, i) {
        Some(found) => {
            return Some(found);
        },
        None => {},
    }
    match parse_section(s, i) {
        Some(found) => {
            return Some(found);
        },
        None => {},
    }
    match parse_inverted_section(s, i) {
        Some(found) => {
            return Some(found);
        },
        None => {},
    }
    match parse_include(s, i) {
        Some(found) => {
            return Some(found);
        },
        None => {},
    }
    match parse_variable(s, i) {
        Some(found) => {
            return Some(found);
        },
        None => {},
    }
    parse_text(s, i)
}

fn parse_parts(s: &Vec<char>, i: usize) -> (r: (Vec<Part>, usize))
    requires
        i <= s.len(),
    ensures
        parts_at(s@, i as int) == (parts_view(r.0@), r.1 as int),
        i <= r.1 <= s.len(),
    decreases s.len() - i, 3nat,
{
    let mut tokens: Vec<Part> = Vec::new();
    let mut j: usize = i;
    assert(parts_view(tokens@) + parts_at(s@, j as int).0 =~= parts_at(s@, i as int).0);
    loop
        invariant
            i <= j <= s.len(),
            parts_at(s@, i as int).0 == parts_view(tokens@) + parts_at(s@, j as int).0,
            parts_at(s@, i as int).1 == parts_at(s@, j as int).1,
        ensures
            i <= j <= s.len(),
            parts_at(s@, i as int).0 == parts_view(tokens@),
            parts_at(s@, i as int).1 == j,
        decreases s.len() - j,
    {
        match parse_part(s, j) {
            None => {
                assert(parts_view(tokens@) + Seq::<PartView>::empty() =~= parts_view(tokens@));
                break ;
            },
            Some((part, next)) => {
                let ghost before = parts_view(tokens@);
                let ghost added = part@;
                tokens.push(part);
                assert(parts_view(tokens@) =~= before + seq![added]);
                assert((before + seq![added]) + parts_at(s@, next as int).0 =~= before + (
                seq![added] + parts_at(s@, next as int).0));
                j = next;
            },
        }
    }
    (tokens, j)
}

/// The access path that a text is, if the whole text is one.
pub open spec fn access_of(path: Seq<char>) -> Option<AccessView> {
    match access_at(path, 0) {
        Some((access, end)) => if end == path.len() {
            Some(access)
        } else {
            None
        },
        None => None,
    }
}

/// Parses `path` as one access path.
pub fn parse_access(path: &str) -> (r: Option<Access>)
    ensures
        match r {
            Some(a) => access_of(path@) == Some(a@),
            None => access_of(path@) is None,
        },
{
    let chars = to_chars(path);
    match access(&chars, 0) {
        Some((found, end)) => {
            if end == chars.len() {
                Some(found)
            } else {
                None
            }
        },
        None => None,
    }
}

/// Parses a template source into its parts. The whole source must be a run
/// of comments, sections, includes, variables and texts; where it is not,
/// the error gives the position at which the run ends.
pub fn parse(s: &str) -> (r: Result<Vec<Part>, ParseError>)
    ensures
        match r {
            Ok(parts) => parsed(s@) == Ok::<Seq<PartView>, ParseError>(parts_view(parts@)),
            Err(e) => parsed(s@) == Err::<Seq<PartView>, ParseError>(e),
        },
{
    let chars = to_chars(s);
    let (tokens, end) = parse_parts(&chars, 0);
    if end == chars.len() {
        Ok(tokens)
    } else {
        Err(ParseError { position: end })
    }
}

/// Nothing parses at the end of the source.
pub proof fn lemma_nothing_at_end(s: Seq<char>)
    ensures
        part_at(s, s.len() as int) is None,
        parts_at(s, s.len() as int) == (Seq::<PartView>::empty(), s.len() as int),
{
    let n = s.len() as int;
    assert(tag_at(s, n, '#') is None);
    assert(tag_at(s, n, '^') is None);
    assert(block_at(s, n, '#') is None);
    assert(block_at(s, n, '^') is None);
}

/// A section parses exactly when its closing tag names the access path of
/// its opening tag, selector for selector. Given an opening tag at `i`, the
/// parts behind it and a closing tag behind those, the construct is a
/// section with those parts as its body where the two paths are equal, and
/// no section at all where they differ.
pub proof fn lemma_section_needs_matching_close(s: Seq<char>, i: int, sigil: char)
    requires
        tag_at(s, i, sigil) is Some,
        tag_at(s, parts_at(s, tag_at(s, i, sigil).unwrap().1).1, '/') is Some,
    ensures
        ({
            let (opening, j) = tag_at(s, i, sigil).unwrap();
            let (body, k) = parts_at(s, j);
            let (closing, m) = tag_at(s, k, '/').unwrap();
            &&& block_at(s, i, sigil) is Some <==> closing == opening
            &&& closing == opening ==> block_at(s, i, sigil) == Some((opening, body, m))
        }),
{
    let (opening, j) = tag_at(s, i, sigil).unwrap();
    lemma_tag_advances(s, i, sigil);
}

/// A tag ends behind where it starts, and inside the source.
pub proof fn lemma_tag_advances(s: Seq<char>, i: int, sigil: char)
    requires
        tag_at(s, i, sigil) is Some,
    ensures
        i < tag_at(s, i, sigil).unwrap().1 <= s.len(),
{
    lemma_spaces_run(s, i + 3);
    let a = spaces_end(s, i + 3);
    lemma_access_advances(s, a);
    lemma_spaces_run(s, access_at(s, a).unwrap().1);
}

pub(crate) proof fn lemma_spaces_run(s: Seq<char>, i: int)
    requires
        0 <= i <= s.len(),
    ensures
        i <= spaces_end(s, i) <= s.len(),
    decreases s.len() - i,
{
    if i < s.len() && is_space(s[i]) {
        lemma_spaces_run(s, i + 1);
    }
}

pub(crate) proof fn lemma_upper_run(s: Seq<char>, i: int)
    requires
        0 <= i <= s.len(),
    ensures
        i <= upper_end(s, i) <= s.len(),
    decreases s.len() - i,
{
    if i < s.len() && is_upper(s[i]) {
        lemma_upper_run(s, i + 1);
    }
}

pub(crate) proof fn lemma_alnum_run(s: Seq<char>, i: int)
    requires
        0 <= i <= s.len(),
    ensures
        i <= alnum_end(s, i) <= s.len(),
    decreases s.len() - i,
{
    if i < s.len() && is_alnum(s[i]) {
        lemma_alnum_run(s, i + 1);
    }
}

pub(crate) proof fn lemma_ident_run(s: Seq<char>, i: int)
    requires
        0 <= i <= s.len(),
    ensures
        i <= ident_end(s, i) <= s.len(),
    decreases s.len() - i,
{
    if i < s.len() && is_ident(s[i]) {
        lemma_ident_run(s, i + 1);
    }
}

pub(crate) proof fn lemma_path_part_advances(s: Seq<char>, i: int)
    requires
        path_part_at(s, i) is Some,
    ensures
        0 <= i < path_part_at(s, i).unwrap().1 <= s.len(),
{
    if s[i] == '[' {
        lemma_digits_run(s, i + 1);
    } else if is_digit(s[i]) {
        lemma_digits_run(s, i);
    } else if s[i] != '.' {
        lemma_ident_run(s, i + 1);
    }
}

pub(crate) proof fn lemma_path_advances(s: Seq<char>, i: int)
    requires
        0 <= i <= s.len(),
    ensures
        i <= path_at(s, i).1 <= s.len(),
        path_part_at(s, i) is Some ==> i < path_at(s, i).1,
    decreases s.len() - i,
{
    if path_part_at(s, i) is Some {
        lemma_path_part_advances(s, i);
        lemma_path_advances(s, path_part_at(s, i).unwrap().1);
    }
}

/// An access path ends behind where it starts, and inside the source.
pub proof fn lemma_access_advances(s: Seq<char>, i: int)
    requires
        access_at(s, i) is Some,
        0 <= i <= s.len(),
    ensures
        i < access_at(s, i).unwrap().1 <= s.len(),
{
    lemma_upper_run(s, i);
    lemma_alnum_run(s, upper_end(s, i));
    lemma_path_advances(s, i);
}

/// A source that is one section and nothing else (an opening tag at its
/// start, parts behind it, and a closing tag that ends the source) parses
/// exactly when the closing tag names the access path of the opening tag;
/// it then parses into that one section.
pub proof fn lemma_lone_section_parses_iff_tags_match(s: Seq<char>)
    requires
        tag_at(s, 0, '#') is Some,
        tag_at(s, parts_at(s, tag_at(s, 0, '#').unwrap().1).1, '/') is Some,
        tag_at(s, parts_at(s, tag_at(s, 0, '#').unwrap().1).1, '/').unwrap().1 == s.len(),
    ensures
        ({
            let (opening, j) = tag_at(s, 0, '#').unwrap();
            let (body, k) = parts_at(s, j);
            let (closing, m) = tag_at(s, k, '/').unwrap();
            &&& parsed(s) is Ok <==> closing == opening
            &&& closing == opening ==> parsed(s) == Ok::<Seq<PartView>, ParseError>(
                seq![PartView::Section(opening, body)],
            )
            &&& closing != opening ==> parsed(s) == Err::<Seq<PartView>, ParseError>(
                ParseError { position: 0 },
            )
        }),
{
    let (opening, j) = tag_at(s, 0, '#').unwrap();
    let (body, k) = parts_at(s, j);
    let (closing, m) = tag_at(s, k, '/').unwrap();
    lemma_section_needs_matching_close(s, 0, '#');
    lemma_tag_advances(s, 0, '#');
    lemma_nothing_at_end(s);
    assert(comment_at(s, 0) is None);
    if closing == opening {
        assert(part_at(s, 0) == Some((PartView::Section(opening, body), m)));
        assert(parts_at(s, 0).0 =~= seq![PartView::Section(opening, body)]);
    } else {
        assert(block_at(s, 0, '#') is None);
        assert(block_at(s, 0, '^') is None);
        assert(include_at(s, 0) is None);
        assert(spaces_end(s, 2) == 2);
        assert(upper_end(s, 2) == 2);
        assert(variant_at(s, 2) is None);
        assert(path_part_at(s, 2) is None);
        assert(variable_at(s, 0) is None);
        assert(text_end(s, 0) == 0);
        assert(part_at(s, 0) is None);
    }
}

/// A source that is one inverted section and nothing else parses exactly
/// when the closing tag names the access path of the opening tag; it then
/// parses into that one inverted section.
pub proof fn lemma_lone_inverted_section_parses_iff_tags_match(s: Seq<char>)
    requires
        tag_at(s, 0, '^') is Some,
        tag_at(s, parts_at(s, tag_at(s, 0, '^').unwrap().1).1, '/') is Some,
        tag_at(s, parts_at(s, tag_at(s, 0, '^').unwrap().1).1, '/').unwrap().1 == s.len(),
    ensures
        ({
            let (opening, j) = tag_at(s, 0, '^').unwrap();
            let (body, k) = parts_at(s, j);
            let (closing, m) = tag_at(s, k, '/').unwrap();
            &&& parsed(s) is Ok <==> closing == opening
            &&& closing == opening ==> parsed(s) == Ok::<Seq<PartView>, ParseError>(
                seq![PartView::InvertedSection(opening, body)],
            )
            &&& closing != opening ==> parsed(s) == Err::<Seq<PartView>, ParseError>(
                ParseError { position: 0 },
            )
        }),
{
    let (opening, j) = tag_at(s, 0, '^').unwrap();
    let (body, k) = parts_at(s, j);
    let (closing, m) = tag_at(s, k, '/').unwrap();
    lemma_section_needs_matching_close(s, 0, '^');
    lemma_tag_advances(s, 0, '^');
    lemma_nothing_at_end(s);
    assert(comment_at(s, 0) is None);
    assert(tag_at(s, 0, '#') is None);
    assert(block_at(s, 0, '#') is None);
    if closing == opening {
        assert(part_at(s, 0) == Some((PartView::InvertedSection(opening, body), m)));
        assert(parts_at(s, 0).0 =~= seq![PartView::InvertedSection(opening, body)]);
    } else {
        assert(block_at(s, 0, '^') is None);
        assert(include_at(s, 0) is None);
        assert(spaces_end(s, 2) == 2);
        assert(upper_end(s, 2) == 2);
        assert(variant_at(s, 2) is None);
        assert(path_part_at(s, 2) is None);
        assert(variable_at(s, 0) is None);
        assert(text_end(s, 0) == 0);
        assert(part_at(s, 0) is None);
    }
}

/// A source in which no tag opens is one text, if it is not empty.
pub proof fn lemma_plain_source_is_text(s: Seq<char>)
    requires
        forall|i: int| !opens(s, i),
    ensures
        parsed(s) == Ok::<Seq<PartView>, ParseError>(
            if s.len() == 0 {
                Seq::empty()
            } else {
                seq![PartView::Text(s)]
            },
        ),
{
    lemma_nothing_at_end(s);
    if s.len() > 0 {
        lemma_plain_text_end(s, 0);
        assert(!opens(s, 0));
        assert(!opens(s, 1));
        assert(comment_at(s, 0) is None);
        assert(block_at(s, 0, '#') is None);
        assert(block_at(s, 0, '^') is None);
        assert(s.subrange(0, s.len() as int) =~= s);
        assert(part_at(s, 0) == Some((PartView::Text(s), s.len() as int)));
        assert(parts_at(s, 0).0 =~= seq![PartView::Text(s)]);
    }
}

proof fn lemma_plain_text_end(s: Seq<char>, i: int)
    requires
        0 <= i <= s.len(),
        forall|k: int| !opens(s, k),
    ensures
        text_end(s, i) == s.len(),
    decreases s.len() - i,
{
    if i < s.len() {
        assert(!opens(s, i));
        assert(!opens(s, i + 1));
        lemma_plain_text_end(s, i + 1);
    }
}

/// Whether an access path is one that a source can write: a path has at
/// least one selector, and a variant name at least two characters.
pub open spec fn access_well_formed(access: AccessView) -> bool {
    match access {
        AccessView::Path(path) => path.len() > 0,
        AccessView::Variant(name) => name.len() >= 2,
        AccessView::This => true,
    }
}

/// Whether a part is one that a source can write: no text and no name of an
/// include is empty, and every access path is well formed, at every depth.
pub open spec fn part_well_formed(part: PartView) -> bool
    decreases part,
{
    match part {
        PartView::Text(text) => text.len() > 0,
        PartView::Variable(access) => access_well_formed(access),
        PartView::Section(access, body) => access_well_formed(access) && forall|k: int|
            0 <= k < body.len() ==> part_well_formed(#[trigger] body[k]),
        PartView::InvertedSection(access, body) => access_well_formed(access) && forall|k: int|
            0 <= k < body.len() ==> part_well_formed(#[trigger] body[k]),
        PartView::Include(name) => name.len() > 0,
        PartView::Comment => true,
    }
}

/// Whether every part of a run is well formed.
pub open spec fn parts_well_formed(parts: Seq<PartView>) -> bool {
    forall|k: int| 0 <= k < parts.len() ==> part_well_formed(#[trigger] parts[k])
}

/// The access path that is read at a position is well formed.
pub proof fn lemma_access_is_well_formed(s: Seq<char>, i: int)
    requires
        0 <= i <= s.len(),
        access_at(s, i) is Some,
    ensures
        access_well_formed(access_at(s, i).unwrap().0),
{
    if s[i] == '.' {
    } else if variant_at(s, i) is Some {
        lemma_upper_run(s, i);
        lemma_alnum_run(s, upper_end(s, i));
    } else {
        lemma_path_part_advances(s, i);
        let (part, j) = path_part_at(s, i).unwrap();
        assert(selector(part).len() == 1);
    }
}

proof fn lemma_tag_is_well_formed(s: Seq<char>, i: int)
    requires
        0 <= i <= s.len(),
        tag_rest(s, i) is Some,
    ensures
        access_well_formed(tag_rest(s, i).unwrap().0),
{
    lemma_spaces_run(s, i);
    lemma_access_is_well_formed(s, spaces_end(s, i));
}

proof fn lemma_part_is_well_formed(s: Seq<char>, i: int)
    requires
        0 <= i <= s.len(),
        part_at(s, i) is Some,
    ensures
        part_well_formed(part_at(s, i).unwrap().0),
    decreases s.len() - i, 1nat,
{
    if comment_at(s, i) is Some {
    } else if block_at(s, i, '#') is Some {
        lemma_block_is_well_formed(s, i, '#');
    } else if block_at(s, i, '^') is Some {
        lemma_block_is_well_formed(s, i, '^');
    } else if include_at(s, i) is Some {
        lemma_spaces_run(s, i + 3);
        lemma_quoted_end_bound(s, spaces_end(s, i + 3) + 1);
    } else if variable_at(s, i) is Some {
        lemma_tag_is_well_formed(s, i + 2);
    } else {
        lemma_text_end_bound(s, i);
    }
}

pub(crate) proof fn lemma_text_end_bound(s: Seq<char>, i: int)
    requires
        0 <= i <= s.len(),
    ensures
        i <= text_end(s, i) <= s.len(),
    decreases s.len() - i,
{
    if i < s.len() && !opens(s, i) && !opens_comment(s, i) {
        lemma_text_end_bound(s, i + 1);
    }
}

pub(crate) proof fn lemma_quoted_end_bound(s: Seq<char>, i: int)
    requires
        0 <= i,
        quoted_end(s, i) is Some,
    ensures
        i <= quoted_end(s, i).unwrap() < s.len(),
    decreases s.len() - i,
{
    if i < s.len() && s[i] != '"' {
        if s[i] == '\\' {
            lemma_quoted_end_bound(s, i + 2);
        } else {
            lemma_quoted_end_bound(s, i + 1);
        }
    }
}

proof fn lemma_block_is_well_formed(s: Seq<char>, i: int, sigil: char)
    requires
        0 <= i <= s.len(),
        block_at(s, i, sigil) is Some,
    ensures
        access_well_formed(block_at(s, i, sigil).unwrap().0),
        parts_well_formed(block_at(s, i, sigil).unwrap().1),
    decreases s.len() - i, 0nat,
{
    lemma_tag_is_well_formed(s, i + 3);
    let (access, j) = tag_at(s, i, sigil).unwrap();
    lemma_parts_are_well_formed(s, j);
}

/// The parts that are read from a position on are well formed.
pub proof fn lemma_parts_are_well_formed(s: Seq<char>, i: int)
    requires
        0 <= i <= s.len(),
    ensures
        parts_well_formed(parts_at(s, i).0),
    decreases s.len() - i, 2nat,
{
    match part_at(s, i) {
        Some((part, j)) => {
            if i < j <= s.len() {
                lemma_part_is_well_formed(s, i);
                lemma_parts_are_well_formed(s, j);
                let rest = parts_at(s, j).0;
                let all = parts_at(s, i).0;
                assert(all =~= seq![part] + rest);
                assert forall|k: int| 0 <= k < all.len() implies part_well_formed(
                    #[trigger] all[k],
                ) by {
                    if k > 0 {
                        assert(all[k] == rest[k - 1]);
                    }
                }
            }
        },
        None => {},
    }
}

/// Whatever a source parses into is well formed: no text is empty, every
/// path has a selector, and so at every depth.
pub proof fn lemma_parsed_is_well_formed(s: Seq<char>)
    ensures
        parsed(s) matches Ok(parts) ==> parts_well_formed(parts),
{
    lemma_parts_are_well_formed(s, 0);
}

} // verus!
