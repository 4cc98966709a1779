//! The context engine: a tree-walking renderer that keeps a stack of scopes.
//!
//! A variable is looked for from the innermost scope outwards; a section
//! looks only at the innermost scope, and pushes what it finds there as the
//! new innermost scope for its body.

use vstd::prelude::*;
use vstd::string::*;
use crate::errors::{
    failed, followed_by, lemma_followed_by_assoc, lemma_followed_by_nothing, result_of, wrote,
    Error, Outcome, MAX_INCLUDE_DEPTH,
};
use crate::escape::escaped;
use crate::parse::{
    lemma_plain_source_is_text, opens, parsed, parts_view, Access, AccessView, Part, PartView,
};
use crate::reflect_render::{field_of, get_field, get_path, path_of};
use crate::templates::Templates;
use crate::value::{
    option_view, scalar_text, shape_of, unwrapped, value_view, values_view, Scalar, ScalarView,
    Value, ValueView,
};

verus! {

/// Whether `access` begins in `scope`: whether its first selector finds a
/// value there that is no absent optional.
pub open spec fn begins_in(scope: ValueView, access: AccessView) -> bool {
    match access {
        AccessView::This => unwrapped(scope) is Some,
        AccessView::Variant(_) => path_of(scope, access) is Some,
        AccessView::Path(path) => if path.len() == 0 {
            unwrapped(scope) is Some
        } else {
            match field_of(scope, path[0]) {
                Some(found) => unwrapped(found) is Some,
                None => false,
            }
        },
    }
}

/// The innermost of the scopes below position `k` in which `access` begins,
/// or -1 where it begins in none.
pub open spec fn scope_of(stack: Seq<ValueView>, access: AccessView, k: int) -> int
    decreases k,
{
    if k <= 0 || k > stack.len() {
        -1
    } else if begins_in(stack[k - 1], access) {
        k - 1
    } else {
        scope_of(stack, access, k - 1)
    }
}

/// The value of a variable: `access` resolved in the innermost scope in
/// which its first selector finds something, and in no other.
pub open spec fn variable_value(stack: Seq<ValueView>, access: AccessView) -> Option<ValueView> {
    let k = scope_of(stack, access, stack.len() as int);
    if k < 0 {
        None
    } else {
        path_of(stack[k], access)
    }
}

/// The value of a section: `access` resolved in the innermost scope alone.
pub open spec fn section_value(stack: Seq<ValueView>, access: AccessView) -> Option<ValueView> {
    if stack.len() == 0 {
        None
    } else {
        path_of(stack.last(), access)
    }
}

/// What writing a resolved value does: a scalar is written as its text, a
/// present optional as what it holds, and an absent optional not at all.
/// Any other value stops the rendering.
pub open spec fn written(v: ValueView) -> Outcome {
    match unwrapped(v) {
        Some(ValueView::Scalar(s)) => wrote(scalar_text(s)),
        Some(inner) => failed(Error::Unsupported(shape_of(inner))),
        None => wrote(Seq::empty()),
    }
}

/// What a variable tag renders: nothing where its path is absent.
pub open spec fn variable(stack: Seq<ValueView>, access: AccessView) -> Outcome {
    match variable_value(stack, access) {
        Some(v) => written(v),
        None => wrote(Seq::empty()),
    }
}

/// Whether an inverted section renders its body for this value of its path:
/// it does for an absent value or optional, for false, and for an empty
/// sequence or map.
pub open spec fn is_blank(v: Option<ValueView>) -> bool {
    match v {
        None => true,
        Some(ValueView::Optional(None)) => true,
        Some(ValueView::Scalar(ScalarView::Bool(b))) => !b,
        Some(ValueView::List(items)) => items.len() == 0,
        Some(ValueView::Mapping(pairs)) => pairs.len() == 0,
        _ => false,
    }
}

/// What the parts from position `i` on render, one after the other, until
/// one of them fails.
pub open spec fn parts_outcome(
    reg: Map<Seq<char>, Seq<PartView>>,
    parts: Seq<PartView>,
    i: int,
    stack: Seq<ValueView>,
    depth: nat,
) -> Outcome
    decreases depth, parts, parts.len() - i,
{
    if i < 0 || i >= parts.len() {
        wrote(Seq::empty())
    } else {
        followed_by(
            part_outcome(reg, parts[i], stack, depth),
            parts_outcome(reg, parts, i + 1, stack, depth),
        )
    }
}

/// What the body of a section renders for the elements of a sequence from
/// position `j` on: once for each, with that element as the innermost scope.
pub open spec fn items_outcome(
    reg: Map<Seq<char>, Seq<PartView>>,
    body: Seq<PartView>,
    items: Seq<ValueView>,
    j: int,
    stack: Seq<ValueView>,
    depth: nat,
) -> Outcome
    decreases depth, body, body.len() + 1 + items.len() - j,
{
    if j < 0 || j >= items.len() {
        wrote(Seq::empty())
    } else {
        followed_by(
            parts_outcome(reg, body, 0, stack.push(items[j]), depth),
            items_outcome(reg, body, items, j + 1, stack, depth),
        )
    }
}

/// What one part renders against a stack of scopes. `depth` is the number
/// of includes that may still be opened.
pub open spec fn part_outcome(
    reg: Map<Seq<char>, Seq<PartView>>,
    part: PartView,
    stack: Seq<ValueView>,
    depth: nat,
) -> Outcome
    decreases depth, part, 0nat,
{
    match part {
        PartView::Text(text) => wrote(text),
        PartView::Comment => wrote(Seq::empty()),
        PartView::Variable(access) => variable(stack, access),
        PartView::Include(name) => if !reg.contains_key(name) {
            wrote(Seq::empty())
        } else if depth == 0 {
            failed(Error::TooDeep)
        } else {
            parts_outcome(reg, reg[name], 0, stack, (depth - 1) as nat)
        },
        PartView::Section(access, body) => match section_value(stack, access) {
            None => wrote(Seq::empty()),
            Some(ValueView::List(items)) => items_outcome(reg, body, items, 0, stack, depth),
            Some(ValueView::Scalar(ScalarView::Bool(b))) => if b {
                parts_outcome(reg, body, 0, stack, depth)
            } else {
                wrote(Seq::empty())
            },
            Some(ValueView::Optional(None)) => wrote(Seq::empty()),
            Some(ValueView::Optional(Some(inner))) => parts_outcome(
                reg,
                body,
                0,
                stack.push(*inner),
                depth,
            ),
            Some(v) => parts_outcome(reg, body, 0, stack.push(v), depth),
        },
        PartView::InvertedSection(access, body) => if is_blank(section_value(stack, access)) {
            parts_outcome(reg, body, 0, stack, depth)
        } else {
            wrote(Seq::empty())
        },
    }
}

/// What rendering the template called `name` against `root` does.
pub open spec fn template_outcome(
    reg: Map<Seq<char>, Seq<PartView>>,
    name: Seq<char>,
    root: ValueView,
) -> Outcome {
    if reg.contains_key(name) {
        parts_outcome(reg, reg[name], 0, seq![root], MAX_INCLUDE_DEPTH as nat)
    } else {
        failed(Error::UnknownTemplate)
    }
}

/// The views of the scopes of a stack, outermost first.
pub open spec fn stack_view(stack: Seq<&Value>) -> Seq<ValueView> {
    stack.map_values(|v: &Value| v@)
}

fn begins_in_value(scope: &Value, access: &Access) -> (r: bool)
    ensures
        r == begins_in(scope@, access@),
{
    match access {
        Access::This => scope.unwrap_value().is_some(),
        Access::Variant(_) => get_path(scope, access).is_some(),
        Access::Path(path) => {
            if path.len() == 0 {
                scope.unwrap_value().is_some()
            } else {
                match get_field(scope, &path[0]) {
                    Some(found) => found.unwrap_value().is_some(),
                    None => false,
                }
            }
        },
    }
}

/// The value of a variable against the scopes of `stack`.
pub fn variable_of<'a>(stack: &Vec<&'a Value>, access: &Access) -> (r: Option<&'a Value>)
    ensures
        option_view(r) == variable_value(stack_view(stack@), access@),
{
    let mut k: usize = stack.len();
    while k > 0
        invariant
            k <= stack.len(),
            scope_of(stack_view(stack@), access@, stack.len() as int) == scope_of(
                stack_view(stack@),
                access@,
                k as int,
            ),
        decreases k,
    {
        k -= 1;
        if begins_in_value(stack[k], access) {
            return get_path(stack[k], access);
        }
    }
    None
}

/// The value of a section against the scopes of `stack`.
pub fn section_of<'a>(stack: &Vec<&'a Value>, access: &Access) -> (r: Option<&'a Value>)
    ensures
        option_view(r) == section_value(stack_view(stack@), access@),
{
    if stack.len() == 0 {
        None
    } else {
        get_path(stack[stack.len() - 1], access)
    }
}

/// Appends the text of the resolved value `v` to `out`.
pub fn write_value(v: &Value, out: &mut String) -> (r: Result<(), Error>)
    ensures
        final(out)@ == old(out)@ + written(v@).text,
        r == result_of(written(v@)),
{
    proof {
        assert(old(out)@ + Seq::<char>::empty() =~= old(out)@);
    }
    match v.unwrap_value() {
        Some(Value::Scalar(s)) => {
            s.write(out);
            Ok(())
        },
        Some(inner) => Err(Error::Unsupported(inner.shape())),
        None => Ok(()),
    }
}

fn is_blank_value(v: Option<&Value>) -> (r: bool)
    ensures
        r == is_blank(option_view(v)),
{
    proof {
        reveal_with_fuel(value_view, 3);
    }
    match v {
        None => true,
        Some(Value::Optional(inner)) => inner.is_none(),
        Some(Value::Scalar(Scalar::Bool(b))) => !*b,
        Some(Value::List(items)) => items.len() == 0,
        Some(Value::Mapping(pairs)) => pairs.len() == 0,
        _ => false,
    }
}

/// Pushing a scope onto a stack pushes its view onto the stack's view.
pub proof fn lemma_stack_push(stack: Seq<&Value>, v: &Value)
    ensures
        stack_view(stack.push(v)) == stack_view(stack).push(v@),
{
    assert(stack_view(stack.push(v)) =~= stack_view(stack).push(v@));
}

/// Renders `parts` against the scopes of `stack`, innermost last, and
/// appends what they write to `out`. Rendering stops at the first part that
/// fails; what was written before stays in `out`. `depth` is the number of
/// includes that may still be opened.
pub fn render_parts<'v>(
    templates: &Templates,
    parts: &Vec<Part>,
    stack: &mut Vec<&'v Value>,
    out: &mut String,
    depth: usize,
) -> (r: Result<(), Error>)
    ensures
        final(stack)@ == old(stack)@,
        final(out)@ == old(out)@ + parts_outcome(
            templates@,
            parts_view(parts@),
            0,
            stack_view(old(stack)@),
            depth as nat,
        ).text,
        r == result_of(
            parts_outcome(
                templates@,
                parts_view(parts@),
                0,
                stack_view(old(stack)@),
                depth as nat,
            ),
        ),
    decreases depth, parts, 0nat,
{
    let ghost reg = templates@;
    let ghost pv = parts_view(parts@);
    let ghost sv = stack_view(stack@);
    let ghost stack0 = stack@;
    let ghost out0 = out@;
    let ghost total = parts_outcome(reg, pv, 0, sv, depth as nat);
    let ghost mut done: Seq<char> = Seq::empty();
    proof {
        lemma_followed_by_nothing(total);
        assert(out0 + done =~= out0);
    }
    let mut i: usize = 0;
    while i < parts.len()
        invariant
            i <= parts.len(),
            reg == templates@,
            pv == parts_view(parts@),
            stack0 == old(stack)@,
            out0 == old(out)@,
            total == parts_outcome(reg, pv, 0, sv, depth as nat),
            stack@ == stack0,
            sv == stack_view(stack0),
            out@ == out0 + done,
            total == followed_by(wrote(done), parts_outcome(reg, pv, i as int, sv, depth as nat)),
        decreases parts.len() - i,
    {
        let ghost here = part_outcome(reg, pv[i as int], sv, depth as nat);
        let ghost rest = parts_outcome(reg, pv, i + 1, sv, depth as nat);
        proof {
            lemma_followed_by_assoc(wrote(done), here, rest);
            assert(pv[i as int] == parts@[i as int]@);
            assert((out0 + done) + here.text =~= out0 + (done + here.text));
        }
        let r = render_part(templates, &parts[i], stack, out, depth);
        match r {
            Err(e) => {
                return Err(e);
            },
            Ok(_) => {},
        }
        proof {
            done = done + here.text;
        }
        i += 1;
    }
    proof {
        assert(done + Seq::<char>::empty() =~= done);
    }
    Ok(())
}

/// Renders one part against the scopes of `stack`.
pub fn render_part<'v>(
    templates: &Templates,
    part: &Part,
    stack: &mut Vec<&'v Value>,
    out: &mut String,
    depth: usize,
) -> (r: Result<(), Error>)
    ensures
        final(stack)@ == old(stack)@,
        final(out)@ == old(out)@ + part_outcome(
            templates@,
            part@,
            stack_view(old(stack)@),
            depth as nat,
        ).text,
        r == result_of(part_outcome(templates@, part@, stack_view(old(stack)@), depth as nat)),
    decreases depth, part, 0nat,
{
    let ghost reg = templates@;
    let ghost sv = stack_view(stack@);
    let ghost stack0 = stack@;
    let ghost out0 = out@;
    proof {
        assert(out0 + Seq::<char>::empty() =~= out0);
    }
    match part {
        Part::Text(text) => {
            out.append(text.as_str());
            Ok(())
        },
        Part::Comment => Ok(()),
        Part::Variable(access) => match variable_of(stack, access) {
            Some(v) => write_value(v, out),
            None => Ok(()),
        },
        Part::Include(name) => match templates.get(name.as_str()) {
            None => Ok(()),
            Some(template) => {
                if depth == 0 {
                    Err(Error::TooDeep)
                } else {
                    render_parts(templates, template.parts(), stack, out, depth - 1)
                }
            },
        },
        Part::Section(access, body) => match section_of(stack, access) {
            None => Ok(()),
            Some(v) => {
                proof {
                    reveal_with_fuel(value_view, 3);
                }
                match v {
                    Value::List(items) => render_items(templates, body, items, stack, out, depth),
                    Value::Scalar(Scalar::Bool(b)) => {
                        if *b {
                            render_parts(templates, body, stack, out, depth)
                        } else {
                            Ok(())
                        }
                    },
                    Value::Optional(inner) => match inner {
                        None => Ok(()),
                        Some(held) => {
                            proof {
                                lemma_stack_push(stack0, &**held);
                            }
                            stack.push(&**held);
                            let r = render_parts(templates, body, stack, out, depth);
                            stack.pop();
                            assert(stack@ =~= stack0);
                            r
                        },
                    },
                    _ => {
                        proof {
                            lemma_stack_push(stack0, v);
                        }
                        stack.push(v);
                        let r = render_parts(templates, body, stack, out, depth);
                        stack.pop();
                        assert(stack@ =~= stack0);
                        r
                    },
                }
            },
        },
        Part::InvertedSection(access, body) => {
            if is_blank_value(section_of(stack, access)) {
                render_parts(templates, body, stack, out, depth)
            } else {
                Ok(())
            }
        },
    }
}

/// Renders the body of a section once for each element of `items`, with
/// that element as the innermost scope.
fn render_items<'v>(
    templates: &Templates,
    body: &Vec<Part>,
    items: &'v Vec<Value>,
    stack: &mut Vec<&'v Value>,
    out: &mut String,
    depth: usize,
) -> (r: Result<(), Error>)
    ensures
        final(stack)@ == old(stack)@,
        final(out)@ == old(out)@ + items_outcome(
            templates@,
            parts_view(body@),
            values_view(items@),
            0,
            stack_view(old(stack)@),
            depth as nat,
        ).text,
        r == result_of(
            items_outcome(
                templates@,
                parts_view(body@),
                values_view(items@),
                0,
                stack_view(old(stack)@),
                depth as nat,
            ),
        ),
    decreases depth, body, 1nat,
{
    let ghost reg = templates@;
    let ghost bv = parts_view(body@);
    let ghost iv = values_view(items@);
    let ghost sv = stack_view(stack@);
    let ghost stack0 = stack@;
    let ghost out0 = out@;
    let ghost total = items_outcome(reg, bv, iv, 0, sv, depth as nat);
    let ghost mut done: Seq<char> = Seq::empty();
    proof {
        lemma_followed_by_nothing(total);
        assert(out0 + done =~= out0);
    }
    let mut j: usize = 0;
    while j < items.len()
        invariant
            j <= items.len(),
            reg == templates@,
            bv == parts_view(body@),
            iv == values_view(items@),
            stack0 == old(stack)@,
            out0 == old(out)@,
            total == items_outcome(reg, bv, iv, 0, sv, depth as nat),
            stack@ == stack0,
            sv == stack_view(stack0),
            out@ == out0 + done,
            total == followed_by(
                wrote(done),
                items_outcome(reg, bv, iv, j as int, sv, depth as nat),
            ),
        decreases items.len() - j,
    {
        let ghost here = parts_outcome(reg, bv, 0, sv.push(iv[j as int]), depth as nat);
        let ghost rest = items_outcome(reg, bv, iv, j + 1, sv, depth as nat);
        proof {
            lemma_followed_by_assoc(wrote(done), here, rest);
            lemma_stack_push(stack0, &items[j as int]);
            assert(iv[j as int] == items@[j as int]@);
            assert((out0 + done) + here.text =~= out0 + (done + here.text));
        }
        stack.push(&items[j]);
        let r = render_parts(templates, body, stack, out, depth);
        stack.pop();
        assert(stack@ =~= stack0);
        match r {
            Err(e) => {
                return Err(e);
            },
            Ok(_) => {},
        }
        proof {
            done = done + here.text;
        }
        j += 1;
    }
    proof {
        assert(done + Seq::<char>::empty() =~= done);
    }
    Ok(())
}

/// A rendering of the templates of a registry against one root value.
pub struct Renderer<'v> {
    templates: &'v Templates,
    initial: &'v Value,
}

impl<'v> Renderer<'v> {
    /// A renderer of `templates` whose outermost scope is `initial`.
    pub fn new(templates: &'v Templates, initial: &'v Value) -> (r: Self)
        ensures
            r.registry() == templates@,
            r.root() == initial@,
    {
        Renderer { templates, initial }
    }

    /// The templates that this renderer knows, by name.
    pub closed spec fn registry(&self) -> Map<Seq<char>, Seq<PartView>> {
        self.templates@
    }

    /// The value that this renderer starts from.
    pub closed spec fn root(&self) -> ValueView {
        self.initial@
    }

    /// Renders the template called `template_name` and appends what it
    /// writes to `out`. An unknown name is an error.
    pub fn render(&self, template_name: &str, out: &mut String) -> (r: Result<(), Error>)
        ensures
            final(out)@ == old(out)@ + template_outcome(
                self.registry(),
                template_name@,
                self.root(),
            ).text,
            r == result_of(template_outcome(self.registry(), template_name@, self.root())),
    {
        match self.templates.get(template_name) {
            None => {
                assert(out@ + Seq::<char>::empty() =~= out@);
                Err(Error::UnknownTemplate)
            },
            Some(template) => {
                let mut stack: Vec<&'v Value> = Vec::new();
                stack.push(self.initial);
                assert(stack_view(stack@) =~= seq![self.initial@]);
                render_parts(self.templates, template.parts(), &mut stack, out, MAX_INCLUDE_DEPTH)
            },
        }
    }
}

/// The texts of a run of parts that are all text, one after the other.
pub open spec fn joined_text(parts: Seq<PartView>, i: int) -> Seq<char>
    decreases parts.len() - i,
{
    if i < 0 || i >= parts.len() {
        Seq::empty()
    } else {
        match parts[i] {
            PartView::Text(text) => text + joined_text(parts, i + 1),
            _ => joined_text(parts, i + 1),
        }
    }
}

/// Parts that are all text render as their texts, one after the other,
/// whatever the scopes and the registry hold, and never fail.
pub proof fn lemma_text_renders_as_itself(
    reg: Map<Seq<char>, Seq<PartView>>,
    parts: Seq<PartView>,
    i: int,
    stack: Seq<ValueView>,
    depth: nat,
)
    requires
        0 <= i,
        forall|k: int| i <= k < parts.len() ==> parts[k] is Text,
    ensures
        parts_outcome(reg, parts, i, stack, depth) == wrote(joined_text(parts, i)),
    decreases parts.len() - i,
{
    if i < parts.len() {
        lemma_text_renders_as_itself(reg, parts, i + 1, stack, depth);
        assert(parts[i] is Text);
        assert(part_outcome(reg, parts[i], stack, depth) == wrote(parts[i]->Text_0));
    } else {
        assert(parts_outcome(reg, parts, i, stack, depth).text =~= joined_text(parts, i));
    }
}

/// A source in which no tag opens parses, and its parts render as the
/// source itself, whatever the scopes and the registry hold.
pub proof fn lemma_plain_source_round_trip(
    reg: Map<Seq<char>, Seq<PartView>>,
    source: Seq<char>,
    stack: Seq<ValueView>,
    depth: nat,
)
    requires
        forall|i: int| !opens(source, i),
    ensures
        parsed(source) is Ok,
        parts_outcome(reg, parsed(source).unwrap(), 0, stack, depth) == wrote(source),
{
    lemma_plain_source_is_text(source);
    let parts = parsed(source).unwrap();
    lemma_text_renders_as_itself(reg, parts, 0, stack, depth);
    if source.len() > 0 {
        assert(joined_text(parts, 1) =~= Seq::<char>::empty());
        assert(joined_text(parts, 0) =~= source);
    } else {
        assert(joined_text(parts, 0) =~= source);
    }
}

/// A variable that refers to a string renders the escaped string, and one
/// that refers to raw text renders the text as it is.
pub proof fn lemma_variable_text(stack: Seq<ValueView>, access: AccessView, text: Seq<char>)
    ensures
        variable_value(stack, access) == Some(ValueView::Scalar(ScalarView::Str(text)))
            ==> variable(stack, access) == wrote(escaped(text)),
        variable_value(stack, access) == Some(ValueView::Scalar(ScalarView::Raw(text)))
            ==> variable(stack, access) == wrote(text),
{
}

/// A section over a sequence renders its body once for each element, in
/// order, with the element as the innermost scope. Over an empty sequence it
/// renders nothing, and the inverted section renders its body in the
/// unchanged scopes; over any other sequence the inverted section renders
/// nothing.
pub proof fn lemma_sequence_section(
    reg: Map<Seq<char>, Seq<PartView>>,
    access: AccessView,
    body: Seq<PartView>,
    items: Seq<ValueView>,
    stack: Seq<ValueView>,
    depth: nat,
)
    requires
        section_value(stack, access) == Some(ValueView::List(items)),
    ensures
        part_outcome(reg, PartView::Section(access, body), stack, depth) == items_outcome(
            reg,
            body,
            items,
            0,
            stack,
            depth,
        ),
        forall|j: int|
            0 <= j < items.len() ==> #[trigger] items_outcome(reg, body, items, j, stack, depth)
                == followed_by(
                parts_outcome(reg, body, 0, stack.push(items[j]), depth),
                items_outcome(reg, body, items, j + 1, stack, depth),
            ),
        items_outcome(reg, body, items, items.len() as int, stack, depth) == wrote(Seq::empty()),
        items.len() == 0 ==> part_outcome(reg, PartView::Section(access, body), stack, depth)
            == wrote(Seq::empty()),
        part_outcome(reg, PartView::InvertedSection(access, body), stack, depth) == if items.len()
            == 0 {
            parts_outcome(reg, body, 0, stack, depth)
        } else {
            wrote(Seq::empty())
        },
{
}

/// A section over a truth value renders its body, in the unchanged scopes,
/// exactly when the value is true; the inverted section does so exactly when
/// it is false.
pub proof fn lemma_boolean_section(
    reg: Map<Seq<char>, Seq<PartView>>,
    access: AccessView,
    body: Seq<PartView>,
    flag: bool,
    stack: Seq<ValueView>,
    depth: nat,
)
    requires
        section_value(stack, access) == Some(ValueView::Scalar(ScalarView::Bool(flag))),
    ensures
        part_outcome(reg, PartView::Section(access, body), stack, depth) == if flag {
            parts_outcome(reg, body, 0, stack, depth)
        } else {
            wrote(Seq::empty())
        },
        part_outcome(reg, PartView::InvertedSection(access, body), stack, depth) == if flag {
            wrote(Seq::empty())
        } else {
            parts_outcome(reg, body, 0, stack, depth)
        },
{
}

/// A variable whose first selector finds nothing in the innermost scope is
/// looked for in the scopes around it.
pub proof fn lemma_variable_falls_back(
    stack: Seq<ValueView>,
    inner: ValueView,
    access: AccessView,
)
    requires
        !begins_in(inner, access),
    ensures
        variable_value(stack.push(inner), access) == variable_value(stack, access),
        variable(stack.push(inner), access) == variable(stack, access),
{
    lemma_scope_of_prefix(stack, stack.push(inner), access, stack.len() as int);
    let k = scope_of(stack, access, stack.len() as int);
    if k >= 0 {
        lemma_scope_of_bounds(stack, access, stack.len() as int);
    }
}

/// A variable whose first selector finds something in the innermost scope
/// is resolved there and nowhere else.
pub proof fn lemma_variable_stays_inside(
    stack: Seq<ValueView>,
    inner: ValueView,
    access: AccessView,
)
    requires
        begins_in(inner, access),
    ensures
        variable_value(stack.push(inner), access) == path_of(inner, access),
{
}

/// The value of a section depends on the innermost scope alone: where its
/// path is absent there the section renders nothing and the inverted section
/// renders its body, whatever the scopes around it hold.
pub proof fn lemma_section_never_falls_back(
    reg: Map<Seq<char>, Seq<PartView>>,
    access: AccessView,
    body: Seq<PartView>,
    stack: Seq<ValueView>,
    inner: ValueView,
    depth: nat,
)
    ensures
        section_value(stack.push(inner), access) == path_of(inner, access),
        path_of(inner, access) is None ==> part_outcome(
            reg,
            PartView::Section(access, body),
            stack.push(inner),
            depth,
        ) == wrote(Seq::empty()),
        path_of(inner, access) is None ==> part_outcome(
            reg,
            PartView::InvertedSection(access, body),
            stack.push(inner),
            depth,
        ) == parts_outcome(reg, body, 0, stack.push(inner), depth),
{
}

proof fn lemma_scope_of_bounds(stack: Seq<ValueView>, access: AccessView, k: int)
    ensures
        -1 <= scope_of(stack, access, k) < k || scope_of(stack, access, k) == -1,
        scope_of(stack, access, k) < stack.len(),
    decreases k,
{
    if 0 < k <= stack.len() && !begins_in(stack[k - 1], access) {
        lemma_scope_of_bounds(stack, access, k - 1);
    }
}

proof fn lemma_scope_of_prefix(a: Seq<ValueView>, b: Seq<ValueView>, access: AccessView, k: int)
    requires
        k <= a.len() <= b.len(),
        forall|i: int| 0 <= i < a.len() ==> a[i] == b[i],
    ensures
        scope_of(a, access, k) == scope_of(b, access, k),
    decreases k,
{
    if k > 0 && !begins_in(a[k - 1], access) {
        lemma_scope_of_prefix(a, b, access, k - 1);
    }
}

} // verus!
