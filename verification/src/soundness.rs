//! The compiler and the machine agree: executing the bytecode of a run of
//! expressions does what evaluating the expressions directly does.

use vstd::prelude::*;
use vstd::bytes::{
    lemma_auto_spec_u64_to_from_le_bytes, spec_u64_from_le_bytes, spec_u64_to_le_bytes,
};
use vstd::utf8::{encode_utf8, encode_utf8_decode_utf8, encode_utf8_valid_utf8};
use crate::compiler::{
    encodable, encoded_expr, encoded_exprs, encoded_string, END_SECTION, PUSH_STR, PUSH_VAR,
    START_SECTION, WRITE_VAR,
};
use crate::errors::Outcome;
use crate::parse::{access_of, AccessView, PartView};
use crate::render::{items_outcome, part_outcome, parts_outcome, section_value};
use crate::value::{ScalarView, ValueView};
use crate::vm::{
    after, chained, executed, halted, pushed, run, run_items, run_section, section_end,
    string_at, string_end, written_error, written_text, Error, Run,
};
use crate::ExprView;

verus! {

/// What evaluating an expression writes, and the error that stops it, if
/// one does.
pub struct Effect {
    pub text: Seq<char>,
    pub error: Option<Error>,
}

/// The effect of `first` and then `rest`: where `first` stops with an error
/// nothing of `rest` happens.
pub open spec fn and_then(first: Effect, rest: Effect) -> Effect {
    if first.error is Some {
        first
    } else {
        Effect { text: first.text + rest.text, error: rest.error }
    }
}

/// The effect of writing nothing.
pub open spec fn nothing() -> Effect {
    Effect { text: Seq::empty(), error: None }
}

/// The effect of stopping with `error`.
pub open spec fn stopped(error: Error) -> Effect {
    Effect { text: Seq::empty(), error: Some(error) }
}

/// What the expressions from position `i` on do against the scopes of
/// `stack`, one after the other.
pub open spec fn eval_exprs(exprs: Seq<ExprView>, i: int, stack: Seq<ValueView>) -> Effect
    decreases exprs, 0nat, exprs.len() - i,
{
    if i < 0 || i >= exprs.len() {
        nothing()
    } else {
        and_then(eval_expr(exprs[i], stack), eval_exprs(exprs, i + 1, stack))
    }
}

/// What the body of a section does for the elements of `items` from
/// position `j` on: once for each, with the element as the innermost scope.
pub open spec fn eval_items(
    body: Seq<ExprView>,
    items: Seq<ValueView>,
    j: int,
    stack: Seq<ValueView>,
) -> Effect
    decreases body, 1nat, items.len() - j,
{
    if j < 0 || j >= items.len() {
        nothing()
    } else {
        and_then(
            eval_exprs(body, 0, stack.push(items[j])),
            eval_items(body, items, j + 1, stack),
        )
    }
}

/// What the body of a section does for the value `v` of the section.
pub open spec fn eval_section(body: Seq<ExprView>, v: Option<ValueView>, stack: Seq<ValueView>)
    -> Effect
    decreases body, 2nat, 0nat,
{
    match v {
        None => nothing(),
        Some(ValueView::Optional(None)) => nothing(),
        Some(ValueView::Optional(Some(inner))) => eval_exprs(body, 0, stack.push(*inner)),
        Some(ValueView::Scalar(ScalarView::Bool(b))) => if b {
            eval_exprs(body, 0, stack)
        } else {
            nothing()
        },
        Some(ValueView::List(items)) => eval_items(body, items, 0, stack),
        Some(other) => eval_exprs(body, 0, stack.push(other)),
    }
}

/// What one expression does: a string is written, a variable is resolved
/// from the innermost scope outwards and written, and a section renders
/// its body as the value of its path in the innermost scope tells.
pub open spec fn eval_expr(expr: ExprView, stack: Seq<ValueView>) -> Effect
    decreases expr, 0nat, 0nat,
{
    match expr {
        ExprView::String(text) => Effect { text, error: None },
        ExprView::Var(path) => match access_of(path) {
            None => stopped(Error::InvalidField),
            Some(access) => {
                let v = pushed(stack, access);
                if written_error(v) is Some {
                    stopped(written_error(v).unwrap())
                } else {
                    Effect { text: written_text(v), error: None }
                }
            },
        },
        ExprView::Section { var, body } => match access_of(var) {
            None => stopped(Error::InvalidField),
            Some(access) => eval_section(body, section_value(stack, access), stack),
        },
    }
}

/// Whether the bytes `bytes` stand in `code` from position `pc` on.
pub open spec fn stands_at(code: Seq<u8>, pc: int, bytes: Seq<u8>) -> bool {
    0 <= pc && pc + bytes.len() <= code.len() && code.subrange(pc, pc + bytes.len()) == bytes
}

/// Where two runs of bytes stand one behind the other, each of them stands
/// at its place.
pub proof fn lemma_stands_apart(code: Seq<u8>, pc: int, a: Seq<u8>, b: Seq<u8>)
    requires
        stands_at(code, pc, a + b),
    ensures
        stands_at(code, pc, a),
        stands_at(code, pc + a.len(), b),
{
    let whole = code.subrange(pc, pc + (a + b).len());
    assert(code.subrange(pc, pc + a.len()) =~= whole.subrange(0, a.len() as int));
    assert((a + b).subrange(0, a.len() as int) =~= a);
    assert(code.subrange(pc + a.len(), pc + a.len() + b.len()) =~= whole.subrange(
        a.len() as int,
        (a + b).len() as int,
    ));
    assert((a + b).subrange(a.len() as int, (a + b).len() as int) =~= b);
}

/// The machine reads an encoded string back as the string that was
/// encoded.
pub proof fn lemma_string_read_back(code: Seq<u8>, pc: int, text: Seq<char>)
    requires
        stands_at(code, pc, encoded_string(text)),
        encode_utf8(text).len() <= u64::MAX,
    ensures
        encoded_string(text).len() == 8 + encode_utf8(text).len(),
        string_end(code, pc) == Ok::<int, Error>(pc + encoded_string(text).len()),
        string_at(code, pc) == Ok::<(Seq<char>, int), Error>(
            (text, pc + encoded_string(text).len()),
        ),
{
    let bytes = encode_utf8(text);
    let n = bytes.len() as u64;
    lemma_auto_spec_u64_to_from_le_bytes();
    assert(spec_u64_to_le_bytes(n).len() == 8);
    lemma_stands_apart(code, pc, spec_u64_to_le_bytes(n), bytes);
    assert(code.subrange(pc, pc + 8) == spec_u64_to_le_bytes(n));
    assert(spec_u64_from_le_bytes(code.subrange(pc, pc + 8)) == n);
    assert(code.subrange(pc + 8, pc + 8 + n) == bytes);
    encode_utf8_valid_utf8(text);
    encode_utf8_decode_utf8(text);
}

/// The length of an encoded string.
proof fn lemma_encoded_string_len(text: Seq<char>)
    ensures
        encoded_string(text).len() == 8 + encode_utf8(text).len(),
{
    lemma_auto_spec_u64_to_from_le_bytes();
}

/// Skipping over the bytecode of expressions leaves the depth of sections
/// as it was: the end of the section around them is the end that is found
/// from behind them.
proof fn lemma_skip_exprs(code: Seq<u8>, pc: int, exprs: Seq<ExprView>, i: int, depth: nat)
    requires
        0 <= i,
        stands_at(code, pc, encoded_exprs(exprs, i)),
        encodable(exprs, i),
    ensures
        section_end(code, pc, depth) == section_end(
            code,
            pc + encoded_exprs(exprs, i).len(),
            depth,
        ),
    decreases exprs, exprs.len() - i,
{
    if i < exprs.len() {
        let here = encoded_expr(exprs[i]);
        let rest = encoded_exprs(exprs, i + 1);
        lemma_stands_apart(code, pc, here, rest);
        let next = pc + here.len();
        match exprs[i] {
            ExprView::String(text) => {
                lemma_stands_apart(code, pc, seq![PUSH_STR], encoded_string(text));
                lemma_string_read_back(code, pc + 1, text);
                assert(code[pc] == PUSH_STR) by {
                    assert(code.subrange(pc, pc + 1)[0] == PUSH_STR);
                }
                assert(section_end(code, pc, depth) == section_end(code, next, depth));
            },
            ExprView::Var(path) => {
                let head = seq![PUSH_VAR] + encoded_string(path);
                lemma_stands_apart(code, pc, head, seq![WRITE_VAR]);
                lemma_stands_apart(code, pc, seq![PUSH_VAR], encoded_string(path));
                lemma_string_read_back(code, pc + 1, path);
                let w = pc + head.len();
                assert(code[pc] == PUSH_VAR) by {
                    assert(code.subrange(pc, pc + 1)[0] == PUSH_VAR);
                }
                assert(code[w] == WRITE_VAR) by {
                    assert(code.subrange(w, w + 1)[0] == WRITE_VAR);
                }
                assert(section_end(code, pc, depth) == section_end(code, w, depth));
                assert(section_end(code, w, depth) == section_end(code, w + 1, depth));
            },
            ExprView::Section { var, body } => {
                let head = seq![START_SECTION] + encoded_string(var);
                let inner = encoded_exprs(body, 0);
                lemma_stands_apart(code, pc, head + inner, seq![END_SECTION]);
                lemma_stands_apart(code, pc, head, inner);
                lemma_stands_apart(code, pc, seq![START_SECTION], encoded_string(var));
                lemma_string_read_back(code, pc + 1, var);
                let b = pc + head.len();
                let e = b + inner.len();
                assert(code[pc] == START_SECTION) by {
                    assert(code.subrange(pc, pc + 1)[0] == START_SECTION);
                }
                assert(code[e] == END_SECTION) by {
                    assert(code.subrange(e, e + 1)[0] == END_SECTION);
                }
                lemma_skip_exprs(code, b, body, 0, depth + 1);
                assert(section_end(code, pc, depth) == section_end(code, b, depth + 1));
                assert(section_end(code, e, depth + 1) == section_end(code, e + 1, depth));
            },
        }
        lemma_skip_exprs(code, next, exprs, i + 1, depth);
        assert(encoded_exprs(exprs, i).len() == here.len() + rest.len());
    }
}

/// Whether a run of the machine does what an evaluation does.
pub open spec fn agrees(r: Run, e: Effect) -> bool {
    r.text == e.text && r.error == e.error
}

/// Whether the run `r` is the evaluation `e` followed by the run `then`.
pub open spec fn continues(r: Run, e: Effect, then: Run) -> bool {
    if e.error is Some {
        agrees(r, e)
    } else {
        r == after(e.text, then)
    }
}

proof fn lemma_continue(first: Effect, r: Run, mid: Run, rest: Effect, then: Run)
    requires
        continues(r, first, mid),
        continues(mid, rest, then),
    ensures
        continues(r, and_then(first, rest), then),
{
    if first.error is None {
        assert(first.text + (rest.text + then.text) =~= (first.text + rest.text) + then.text);
    }
}

/// Executing the bytecode of expressions does what evaluating them does,
/// and goes on behind the bytecode.
proof fn lemma_run_exprs(
    code: Seq<u8>,
    pc: int,
    exprs: Seq<ExprView>,
    i: int,
    stack: Seq<ValueView>,
    base: nat,
)
    requires
        0 <= i,
        stands_at(code, pc, encoded_exprs(exprs, i)),
        encodable(exprs, i),
        base <= stack.len(),
    ensures
        continues(
            run(code, pc, stack, base),
            eval_exprs(exprs, i, stack),
            run(code, pc + encoded_exprs(exprs, i).len(), stack, base),
        ),
    decreases exprs, 0nat, exprs.len() - i,
{
    if i >= exprs.len() {
        let r = run(code, pc, stack, base);
        assert(Seq::<char>::empty() + r.text =~= r.text);
    } else {
        let here = encoded_expr(exprs[i]);
        let rest = encoded_exprs(exprs, i + 1);
        lemma_stands_apart(code, pc, here, rest);
        let next = pc + here.len();
        let mid = run(code, next, stack, base);
        let r = run(code, pc, stack, base);
        let first = eval_expr(exprs[i], stack);
        match exprs[i] {
            ExprView::String(text) => {
                lemma_stands_apart(code, pc, seq![PUSH_STR], encoded_string(text));
                lemma_string_read_back(code, pc + 1, text);
                assert(code[pc] == PUSH_STR) by {
                    assert(code.subrange(pc, pc + 1)[0] == PUSH_STR);
                }
                assert(r == after(text, mid));
            },
            ExprView::Var(path) => {
                let head = seq![PUSH_VAR] + encoded_string(path);
                lemma_stands_apart(code, pc, head, seq![WRITE_VAR]);
                lemma_stands_apart(code, pc, seq![PUSH_VAR], encoded_string(path));
                lemma_string_read_back(code, pc + 1, path);
                let w = pc + head.len();
                assert(code[pc] == PUSH_VAR) by {
                    assert(code.subrange(pc, pc + 1)[0] == PUSH_VAR);
                }
                assert(code[w] == WRITE_VAR) by {
                    assert(code.subrange(w, w + 1)[0] == WRITE_VAR);
                }
                match access_of(path) {
                    None => {
                        assert(r == halted(Error::InvalidField));
                    },
                    Some(access) => {
                        let v = pushed(stack, access);
                        let deeper = stack.push(v);
                        assert(r == run(code, w, deeper, base));
                        assert(deeper.last() == v);
                        assert(deeper.drop_last() =~= stack);
                        if written_error(v) is Some {
                            assert(r == halted(written_error(v).unwrap()));
                        } else {
                            assert(r == after(written_text(v), mid));
                        }
                    },
                }
            },
            ExprView::Section { var, body } => {
                let head = seq![START_SECTION] + encoded_string(var);
                let inner = encoded_exprs(body, 0);
                lemma_stands_apart(code, pc, head + inner, seq![END_SECTION]);
                lemma_stands_apart(code, pc, head, inner);
                lemma_stands_apart(code, pc, seq![START_SECTION], encoded_string(var));
                lemma_string_read_back(code, pc + 1, var);
                let b = pc + head.len();
                let e = b + inner.len();
                assert(code[pc] == START_SECTION) by {
                    assert(code.subrange(pc, pc + 1)[0] == START_SECTION);
                }
                assert(code[e] == END_SECTION) by {
                    assert(code.subrange(e, e + 1)[0] == END_SECTION);
                }
                lemma_skip_exprs(code, b, body, 0, 0);
                assert(section_end(code, e, 0) == Ok::<int, Error>(e + 1));
                assert(section_end(code, b, 0) == Ok::<int, Error>(next));
                match access_of(var) {
                    None => {
                        assert(r == halted(Error::InvalidField));
                    },
                    Some(access) => {
                        let v = section_value(stack, access);
                        let inside = run_section(code, b, v, stack);
                        lemma_run_section(code, b, body, v, stack);
                        assert(r == chained(inside, mid));
                    },
                }
            },
        }
        assert(continues(r, first, mid));
        lemma_run_exprs(code, next, exprs, i + 1, stack, base);
        assert(encoded_exprs(exprs, i).len() == here.len() + rest.len());
        lemma_continue(
            first,
            r,
            mid,
            eval_exprs(exprs, i + 1, stack),
            run(code, next + rest.len(), stack, base),
        );
    }
}

/// Executing the body of a section, up to the instruction that closes it,
/// does what evaluating the body does.
proof fn lemma_run_body(
    code: Seq<u8>,
    b: int,
    body: Seq<ExprView>,
    stack: Seq<ValueView>,
    base: nat,
)
    requires
        stands_at(code, b, encoded_exprs(body, 0)),
        b + encoded_exprs(body, 0).len() < code.len(),
        code[b + encoded_exprs(body, 0).len()] == END_SECTION,
        encodable(body, 0),
        base <= stack.len(),
    ensures
        agrees(run(code, b, stack, base), eval_exprs(body, 0, stack)),
    decreases body, 1nat, 0nat,
{
    lemma_run_exprs(code, b, body, 0, stack, base);
    let e = eval_exprs(body, 0, stack);
    assert(e.text + Seq::<char>::empty() =~= e.text);
}

proof fn lemma_run_items(
    code: Seq<u8>,
    b: int,
    body: Seq<ExprView>,
    items: Seq<ValueView>,
    j: int,
    stack: Seq<ValueView>,
)
    requires
        0 <= j,
        stands_at(code, b, encoded_exprs(body, 0)),
        b + encoded_exprs(body, 0).len() < code.len(),
        code[b + encoded_exprs(body, 0).len()] == END_SECTION,
        encodable(body, 0),
    ensures
        agrees(run_items(code, b, items, j, stack), eval_items(body, items, j, stack)),
    decreases body, 2nat, items.len() - j,
{
    if j < items.len() {
        lemma_run_body(code, b, body, stack.push(items[j]), stack.len() + 1);
        lemma_run_items(code, b, body, items, j + 1, stack);
    }
}

proof fn lemma_run_section(
    code: Seq<u8>,
    b: int,
    body: Seq<ExprView>,
    v: Option<ValueView>,
    stack: Seq<ValueView>,
)
    requires
        stands_at(code, b, encoded_exprs(body, 0)),
        b + encoded_exprs(body, 0).len() < code.len(),
        code[b + encoded_exprs(body, 0).len()] == END_SECTION,
        encodable(body, 0),
    ensures
        agrees(run_section(code, b, v, stack), eval_section(body, v, stack)),
    decreases body, 3nat, 0nat,
{
    match v {
        None => {},
        Some(ValueView::Optional(None)) => {},
        Some(ValueView::Optional(Some(inner))) => {
            lemma_run_body(code, b, body, stack.push(*inner), stack.len() + 1);
        },
        Some(ValueView::Scalar(ScalarView::Bool(flag))) => {
            if flag {
                lemma_run_body(code, b, body, stack, stack.len());
            }
        },
        Some(ValueView::List(items)) => {
            lemma_run_items(code, b, body, items, 0, stack);
        },
        Some(other) => {
            lemma_run_body(code, b, body, stack.push(other), stack.len() + 1);
        },
    }
}

/// Executing the bytecode of `exprs` against `root` writes what evaluating
/// `exprs` against `root` writes, and stops with the same error, if with
/// any.
pub proof fn theorem_bytecode_runs_as_evaluated(exprs: Seq<ExprView>, root: ValueView)
    requires
        encodable(exprs, 0),
    ensures
        agrees(executed(encoded_exprs(exprs, 0), root), eval_exprs(exprs, 0, seq![root])),
{
    let code = encoded_exprs(exprs, 0);
    assert(code.subrange(0, code.len() as int) =~= code);
    lemma_run_exprs(code, 0, exprs, 0, seq![root], 1);
    let e = eval_exprs(exprs, 0, seq![root]);
    assert(e.text + Seq::<char>::empty() =~= e.text);
}

/// Whether every path of the expressions from position `i` on is an
/// access path.
pub open spec fn well_formed(exprs: Seq<ExprView>, i: int) -> bool
    decreases exprs, exprs.len() - i,
{
    if i < 0 || i >= exprs.len() {
        true
    } else {
        &&& match exprs[i] {
            ExprView::String(_) => true,
            ExprView::Var(path) => access_of(path) is Some,
            ExprView::Section { var, body } => access_of(var) is Some && well_formed(body, 0),
        }
        &&& well_formed(exprs, i + 1)
    }
}

/// The parts of a template that say what the expressions say.
pub open spec fn as_parts(exprs: Seq<ExprView>) -> Seq<PartView>
    decreases exprs,
{
    Seq::new(
        exprs.len(),
        |k: int|
            if 0 <= k < exprs.len() {
                as_part(exprs[k])
            } else {
                PartView::Comment
            },
    )
}

/// The part of a template that says what the expression says.
pub open spec fn as_part(expr: ExprView) -> PartView
    decreases expr,
{
    match expr {
        ExprView::String(text) => PartView::Text(text),
        ExprView::Var(path) => match access_of(path) {
            Some(access) => PartView::Variable(access),
            None => PartView::Comment,
        },
        ExprView::Section { var, body } => match access_of(var) {
            Some(access) => PartView::Section(access, as_parts(body)),
            None => PartView::Comment,
        },
    }
}

/// Whether an evaluation does what a rendering does: the same text, and an
/// error exactly where the rendering has one, for the same shape of value.
pub open spec fn renders_as(e: Effect, o: Outcome) -> bool {
    &&& e.text == o.text
    &&& e.error == match o.error {
        Some(crate::errors::Error::Unsupported(shape)) => Some(Error::UnsupportedType(shape)),
        Some(_) => e.error,
        None => None,
    }
    &&& !(o.error matches Some(crate::errors::Error::TooDeep))
    &&& !(o.error matches Some(crate::errors::Error::UnknownTemplate))
}

proof fn lemma_eval_exprs_render(exprs: Seq<ExprView>, i: int, stack: Seq<ValueView>, depth: nat)
    requires
        0 <= i,
        well_formed(exprs, i),
    ensures
        renders_as(
            eval_exprs(exprs, i, stack),
            parts_outcome(Map::empty(), as_parts(exprs), i, stack, depth),
        ),
    decreases exprs, 0nat, exprs.len() - i,
{
    if i < exprs.len() {
        let reg = Map::<Seq<char>, Seq<PartView>>::empty();
        assert(as_parts(exprs)[i] == as_part(exprs[i]));
        let first = eval_expr(exprs[i], stack);
        let shown = part_outcome(reg, as_part(exprs[i]), stack, depth);
        match exprs[i] {
            ExprView::String(_) => {},
            ExprView::Var(path) => {
                let access = access_of(path).unwrap();
                assert(shown == crate::render::variable(stack, access));
            },
            ExprView::Section { var, body } => {
                let access = access_of(var).unwrap();
                lemma_eval_section_renders(body, access, stack, depth);
            },
        }
        assert(renders_as(first, shown));
        lemma_eval_exprs_render(exprs, i + 1, stack, depth);
    }
}

proof fn lemma_eval_items_render(
    body: Seq<ExprView>,
    items: Seq<ValueView>,
    j: int,
    stack: Seq<ValueView>,
    depth: nat,
)
    requires
        0 <= j,
        well_formed(body, 0),
    ensures
        renders_as(
            eval_items(body, items, j, stack),
            items_outcome(Map::empty(), as_parts(body), items, j, stack, depth),
        ),
    decreases body, 1nat, items.len() - j,
{
    if j < items.len() {
        lemma_eval_exprs_render(body, 0, stack.push(items[j]), depth);
        lemma_eval_items_render(body, items, j + 1, stack, depth);
    }
}

proof fn lemma_eval_section_renders(
    body: Seq<ExprView>,
    access: AccessView,
    stack: Seq<ValueView>,
    depth: nat,
)
    requires
        well_formed(body, 0),
    ensures
        renders_as(
            eval_section(body, section_value(stack, access), stack),
            part_outcome(Map::empty(), PartView::Section(access, as_parts(body)), stack, depth),
        ),
    decreases body, 2nat, 0nat,
{
    match section_value(stack, access) {
        None => {},
        Some(ValueView::Optional(None)) => {},
        Some(ValueView::Optional(Some(inner))) => {
            lemma_eval_exprs_render(body, 0, stack.push(*inner), depth);
        },
        Some(ValueView::Scalar(ScalarView::Bool(flag))) => {
            if flag {
                lemma_eval_exprs_render(body, 0, stack, depth);
            }
        },
        Some(ValueView::List(items)) => {
            lemma_eval_items_render(body, items, 0, stack, depth);
        },
        Some(other) => {
            lemma_eval_exprs_render(body, 0, stack.push(other), depth);
        },
    }
}

/// The machine is a second engine for the same templates: executing the
/// bytecode of expressions whose paths are access paths writes what the
/// context engine writes for the parts that say the same, and stops where
/// the context engine stops, for the same shape of value.
pub proof fn theorem_machine_renders_as_context_engine(
    exprs: Seq<ExprView>,
    root: ValueView,
    depth: nat,
)
    requires
        encodable(exprs, 0),
        well_formed(exprs, 0),
    ensures
        ({
            let r = executed(encoded_exprs(exprs, 0), root);
            let o = parts_outcome(Map::empty(), as_parts(exprs), 0, seq![root], depth);
            renders_as(Effect { text: r.text, error: r.error }, o)
        }),
{
    theorem_bytecode_runs_as_evaluated(exprs, root);
    lemma_eval_exprs_render(exprs, 0, seq![root], depth);
}

} // verus!
