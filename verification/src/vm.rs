//! The stack machine that executes bytecode against a value.
//!
//! The machine keeps a stack of values, innermost last. A variable is looked
//! for from the innermost value outwards, a section looks at the innermost
//! value alone, and the body of a section runs in a frame of its own: it
//! cannot drop the values that were on the stack when it started.

use vstd::prelude::*;
use vstd::bytes::spec_u64_from_le_bytes;
use vstd::slice::slice_subrange;
use vstd::string::*;
use vstd::utf8::{decode_utf8, valid_utf8};
use crate::compiler::{END_SECTION, PUSH_STR, PUSH_VAR, START_SECTION, WRITE_VAR};
use crate::parse::{access_of, parse_access, AccessView};
use crate::render::{
    lemma_stack_push, section_of, section_value, stack_view, variable_of, variable_value,
};
use crate::value::{
    option_view, scalar_text, shape_of, unwrapped, value_view, values_view, Scalar, ScalarView,
    Shape, Value, ValueView,
};

verus! {

/// An instruction of the machine.
#[derive(Debug, Clone, Copy, PartialEq, Eq, Structural)]
pub enum OpCode {
    PushStr,
    PushVar,
    StartSection,
    EndSection,
    WriteVar,
}

/// Why an execution stopped.
#[derive(Debug, Clone, Copy, PartialEq, Eq, Structural)]
pub enum Error {
    /// The bytecode ends inside an instruction.
    UnexpectedEof,
    /// This byte stands where an opcode is expected and is none.
    InvalidOpCode(u8),
    /// A string of the bytecode is not UTF-8.
    InvalidUtf8,
    /// The path of an instruction is no access path.
    InvalidField,
    /// A value of this shape was to be written, which has no text form.
    UnsupportedType(Shape),
    /// A value was to be written or dropped where the frame holds none.
    EmptyStack,
}

/// The result of an execution.
pub type Result<T> = std::result::Result<T, Error>;

/// The instruction that a byte stands for.
pub open spec fn opcode_of(byte: u8) -> Option<OpCode> {
    if byte == PUSH_STR {
        Some(OpCode::PushStr)
    } else if byte == PUSH_VAR {
        Some(OpCode::PushVar)
    } else if byte == START_SECTION {
        Some(OpCode::StartSection)
    } else if byte == END_SECTION {
        Some(OpCode::EndSection)
    } else if byte == WRITE_VAR {
        Some(OpCode::WriteVar)
    } else {
        None
    }
}

impl OpCode {
    /// The byte that stands for the instruction.
    pub fn byte(self) -> (r: u8)
        ensures
            opcode_of(r) == Some(self),
    {
        match self {
            OpCode::PushStr => PUSH_STR,
            OpCode::PushVar => PUSH_VAR,
            OpCode::StartSection => START_SECTION,
            OpCode::EndSection => END_SECTION,
            OpCode::WriteVar => WRITE_VAR,
        }
    }

    /// The instruction that `value` stands for.
    pub fn try_from(value: u8) -> (r: Result<OpCode>)
        ensures
            match r {
                Ok(op) => opcode_of(value) == Some(op),
                Err(e) => opcode_of(value) is None && e == Error::InvalidOpCode(value),
            },
    {
        if value == PUSH_STR {
            Ok(OpCode::PushStr)
        } else if value == PUSH_VAR {
            Ok(OpCode::PushVar)
        } else if value == START_SECTION {
            Ok(OpCode::StartSection)
        } else if value == END_SECTION {
            Ok(OpCode::EndSection)
        } else if value == WRITE_VAR {
            Ok(OpCode::WriteVar)
        } else {
            Err(Error::InvalidOpCode(value))
        }
    }
}

/// Where the string that starts at `pc` ends: behind its length and as many
/// bytes as the length says.
pub open spec fn string_end(code: Seq<u8>, pc: int) -> Result<int> {
    if pc < 0 || pc + 8 > code.len() {
        Err(Error::UnexpectedEof)
    } else {
        let n = spec_u64_from_le_bytes(code.subrange(pc, pc + 8));
        if pc + 8 + n > code.len() {
            Err(Error::UnexpectedEof)
        } else {
            Ok(pc + 8 + n)
        }
    }
}

/// The string that starts at `pc`, and where it ends.
pub open spec fn string_at(code: Seq<u8>, pc: int) -> Result<(Seq<char>, int)> {
    match string_end(code, pc) {
        Err(e) => Err(e),
        Ok(end) => {
            let bytes = code.subrange(pc + 8, end);
            if valid_utf8(bytes) {
                Ok((decode_utf8(bytes), end))
            } else {
                Err(Error::InvalidUtf8)
            }
        },
    }
}

/// Where the section ends whose body holds position `pc`, `depth` sections
/// deep: behind the instruction that closes it, or at the end of the code.
pub open spec fn section_end(code: Seq<u8>, pc: int, depth: nat) -> Result<int>
    decreases code.len() - pc, depth,
{
    if pc < 0 || pc >= code.len() {
        Ok(code.len() as int)
    } else {
        match opcode_of(code[pc]) {
            None => Err(Error::InvalidOpCode(code[pc])),
            Some(OpCode::EndSection) => if depth == 0 {
                Ok(pc + 1)
            } else {
                section_end(code, pc + 1, (depth - 1) as nat)
            },
            Some(OpCode::WriteVar) => section_end(code, pc + 1, depth),
            Some(OpCode::StartSection) => match string_end(code, pc + 1) {
                Err(e) => Err(e),
                Ok(next) => if next > pc {
                    section_end(code, next, depth + 1)
                } else {
                    Err(Error::UnexpectedEof)
                },
            },
            Some(_) => match string_end(code, pc + 1) {
                Err(e) => Err(e),
                Ok(next) => if next > pc {
                    section_end(code, next, depth)
                } else {
                    Err(Error::UnexpectedEof)
                },
            },
        }
    }
}

/// What an execution does: the text that it writes, the error that stops
/// it, if one does, and the position at which it ends otherwise.
pub struct Run {
    pub text: Seq<char>,
    pub error: Option<Error>,
    pub pc: int,
}

/// The run that stops with `error` before it writes anything.
pub open spec fn halted(error: Error) -> Run {
    Run { text: Seq::empty(), error: Some(error), pc: 0 }
}

/// The run that writes nothing and ends at `pc`.
pub open spec fn ended(pc: int) -> Run {
    Run { text: Seq::empty(), error: None, pc }
}

/// The run that writes `text` and goes on as `rest`.
pub open spec fn after(text: Seq<char>, rest: Run) -> Run {
    Run { text: text + rest.text, error: rest.error, pc: rest.pc }
}

/// The run `first` followed by `rest`: where `first` stops with an error
/// nothing of `rest` happens.
pub open spec fn chained(first: Run, rest: Run) -> Run {
    if first.error is Some {
        first
    } else {
        after(first.text, rest)
    }
}

/// The value that a path instruction pushes: what the variable resolves to,
/// or an absent optional where it resolves to nothing.
pub open spec fn pushed(stack: Seq<ValueView>, access: AccessView) -> ValueView {
    match variable_value(stack, access) {
        Some(v) => v,
        None => ValueView::Optional(None),
    }
}

/// The text that writing `v` adds: the text of a scalar, also inside
/// optionals, and nothing for an absent optional.
pub open spec fn written_text(v: ValueView) -> Seq<char> {
    match unwrapped(v) {
        Some(ValueView::Scalar(s)) => scalar_text(s),
        _ => Seq::empty(),
    }
}

/// The error that writing `v` stops with: every value that is neither a
/// scalar nor absent is unsupported.
pub open spec fn written_error(v: ValueView) -> Option<Error> {
    match unwrapped(v) {
        Some(ValueView::Scalar(_)) => None,
        Some(inner) => Some(Error::UnsupportedType(shape_of(inner))),
        None => None,
    }
}

/// What the machine does from position `pc` on, up to the instruction that
/// closes the section it is in, or to the end of the code. `base` is the
/// number of values at the bottom of the stack that belong to the frames
/// around this one.
pub open spec fn run(code: Seq<u8>, pc: int, stack: Seq<ValueView>, base: nat) -> Run
    decreases code.len() - pc, 0nat,
{
    if pc < 0 || pc >= code.len() {
        ended(code.len() as int)
    } else {
        match opcode_of(code[pc]) {
            None => halted(Error::InvalidOpCode(code[pc])),
            Some(OpCode::EndSection) => ended(pc + 1),
            Some(OpCode::WriteVar) => if stack.len() <= base {
                halted(Error::EmptyStack)
            } else if written_error(stack.last()) is Some {
                halted(written_error(stack.last()).unwrap())
            } else {
                after(written_text(stack.last()), run(code, pc + 1, stack.drop_last(), base))
            },
            Some(OpCode::PushStr) => match string_at(code, pc + 1) {
                Err(e) => halted(e),
                Ok((text, next)) => if next > pc {
                    after(text, run(code, next, stack, base))
                } else {
                    halted(Error::UnexpectedEof)
                },
            },
            Some(OpCode::PushVar) => match string_at(code, pc + 1) {
                Err(e) => halted(e),
                Ok((path, next)) => match access_of(path) {
                    None => halted(Error::InvalidField),
                    Some(access) => if next > pc {
                        run(code, next, stack.push(pushed(stack, access)), base)
                    } else {
                        halted(Error::UnexpectedEof)
                    },
                },
            },
            Some(OpCode::StartSection) => match string_at(code, pc + 1) {
                Err(e) => halted(e),
                Ok((path, body)) => match access_of(path) {
                    None => halted(Error::InvalidField),
                    Some(access) => match section_end(code, body, 0) {
                        Err(e) => halted(e),
                        Ok(end) => if pc < body <= end <= code.len() {
                            chained(
                                run_section(code, body, section_value(stack, access), stack),
                                run(code, end, stack, base),
                            )
                        } else {
                            halted(Error::UnexpectedEof)
                        },
                    },
                },
            },
        }
    }
}

/// What the body at `body` does for the value `v` of its section: nothing
/// for an absent value or optional and for false; once in the unchanged
/// stack for true; once for each element of a sequence, with the element
/// pushed; and once for any other value, with the value, or what the
/// optional holds, pushed.
pub open spec fn run_section(
    code: Seq<u8>,
    body: int,
    v: Option<ValueView>,
    stack: Seq<ValueView>,
) -> Run
    decreases code.len() - body, 2nat, 0nat,
{
    match v {
        None => ended(body),
        Some(ValueView::Optional(None)) => ended(body),
        Some(ValueView::Optional(Some(inner))) => run(
            code,
            body,
            stack.push(*inner),
            stack.len() + 1,
        ),
        Some(ValueView::Scalar(ScalarView::Bool(b))) => if b {
            run(code, body, stack, stack.len())
        } else {
            ended(body)
        },
        Some(ValueView::List(items)) => run_items(code, body, items, 0, stack),
        Some(other) => run(code, body, stack.push(other), stack.len() + 1),
    }
}

/// What the body at `body` does for the elements of `items` from position
/// `j` on: one run for each, with the element pushed.
pub open spec fn run_items(
    code: Seq<u8>,
    body: int,
    items: Seq<ValueView>,
    j: int,
    stack: Seq<ValueView>,
) -> Run
    decreases code.len() - body, 1nat, items.len() - j,
{
    if j < 0 || j >= items.len() {
        ended(body)
    } else {
        chained(
            run(code, body, stack.push(items[j]), stack.len() + 1),
            run_items(code, body, items, j + 1, stack),
        )
    }
}

/// What executing `code` against `root` does.
pub open spec fn executed(code: Seq<u8>, root: ValueView) -> Run {
    run(code, 0, seq![root], 1)
}

/// `byteorder::LittleEndian::read_u64`: the number whose eight bytes, the
/// lowest first, are the first eight bytes of `bytes`. It panics on fewer
/// than eight bytes.
#[verifier::external_body]
fn le_u64(bytes: &[u8]) -> (r: u64)
    requires
        bytes@.len() >= 8,
    ensures
        r == spec_u64_from_le_bytes(bytes@.subrange(0, 8)),
{
    <byteorder::LittleEndian as byteorder::ByteOrder>::read_u64(bytes)
}

/// `std::str::from_utf8`, with its text copied into a string: the text
/// that the bytes encode where they are UTF-8, and nothing where they are
/// not.
#[verifier::external_body]
fn utf8_string(bytes: &[u8]) -> (r: Option<String>)
    ensures
        match r {
            Some(text) => valid_utf8(bytes@) && text@ == decode_utf8(bytes@),
            None => !valid_utf8(bytes@),
        },
{
    match std::str::from_utf8(bytes) {
        Ok(text) => Some(text.to_owned()),
        Err(_) => None,
    }
}

/// The instruction at `pc`, or none at the end of the code.
pub fn read_opcode(bytecode: &[u8], pc: usize) -> (r: Result<Option<OpCode>>)
    ensures
        match r {
            Ok(None) => pc >= bytecode@.len(),
            Ok(Some(op)) => pc < bytecode@.len() && opcode_of(bytecode@[pc as int]) == Some(op),
            Err(e) => pc < bytecode@.len() && opcode_of(bytecode@[pc as int]) is None && e
                == Error::InvalidOpCode(bytecode@[pc as int]),
        },
{
    if pc >= bytecode.len() {
        return Ok(None);
    }
    match OpCode::try_from(bytecode[pc]) {
        Ok(op) => Ok(Some(op)),
        Err(e) => Err(e),
    }
}

fn skip_str(bytecode: &[u8], pc: usize) -> (r: Result<usize>)
    requires
        pc <= bytecode@.len(),
    ensures
        match r {
            Ok(end) => string_end(bytecode@, pc as int) == Ok::<int, Error>(end as int) && pc + 8
                <= end <= bytecode@.len(),
            Err(e) => string_end(bytecode@, pc as int) == Err::<int, Error>(e),
        },
{
    if bytecode.len() - pc < 8 {
        return Err(Error::UnexpectedEof);
    }
    let head = slice_subrange(bytecode, pc, pc + 8);
    assert(head@.subrange(0, 8) =~= bytecode@.subrange(pc as int, pc + 8));
    let n = le_u64(head);
    let rest: usize = bytecode.len() - pc - 8;
    if n > rest as u64 {
        return Err(Error::UnexpectedEof);
    }
    Ok(pc + 8 + n as usize)
}

fn read_str(bytecode: &[u8], pc: usize) -> (r: Result<(String, usize)>)
    requires
        pc <= bytecode@.len(),
    ensures
        match r {
            Ok((text, end)) => string_at(bytecode@, pc as int) == Ok::<(Seq<char>, int), Error>(
                (text@, end as int),
            ) && pc + 8 <= end <= bytecode@.len(),
            Err(e) => string_at(bytecode@, pc as int) == Err::<(Seq<char>, int), Error>(e),
        },
{
    match skip_str(bytecode, pc) {
        Err(e) => Err(e),
        Ok(end) => {
            let bytes = slice_subrange(bytecode, pc + 8, end);
            match utf8_string(bytes) {
                Some(text) => Ok((text, end)),
                None => Err(Error::InvalidUtf8),
            }
        },
    }
}

fn write_str(buf: &mut String, bytecode: &[u8], pc: usize) -> (r: Result<usize>)
    requires
        pc <= bytecode@.len(),
    ensures
        match r {
            Ok(end) => string_at(bytecode@, pc as int) matches Ok((text, stop)) && stop == end
                && final(buf)@ == old(buf)@ + text && pc + 8 <= end <= bytecode@.len(),
            Err(e) => string_at(bytecode@, pc as int) == Err::<(Seq<char>, int), Error>(e)
                && final(buf)@ == old(buf)@,
        },
{
    match read_str(bytecode, pc) {
        Ok((text, end)) => {
            buf.append(text.as_str());
            Ok(end)
        },
        Err(e) => Err(e),
    }
}

fn execute_skip(bytecode: &[u8], pc: usize) -> (r: Result<usize>)
    requires
        pc <= bytecode@.len(),
    ensures
        match r {
            Ok(end) => section_end(bytecode@, pc as int, 0) == Ok::<int, Error>(end as int) && pc
                <= end <= bytecode@.len(),
            Err(e) => section_end(bytecode@, pc as int, 0) == Err::<int, Error>(e),
        },
{
    let mut at: usize = pc;
    let mut depth: usize = 0;
    let len = bytecode.len();
    loop
        invariant
            pc <= at <= bytecode@.len(),
            len == bytecode@.len(),
            depth <= at,
            section_end(bytecode@, pc as int, 0) == section_end(bytecode@, at as int, depth as nat),
        decreases bytecode@.len() - at, depth,
    {
        match read_opcode(bytecode, at) {
            Err(e) => {
                return Err(e);
            },
            Ok(None) => {
                return Ok(at);
            },
            Ok(Some(op)) => match op {
                OpCode::EndSection => {
                    if depth == 0 {
                        return Ok(at + 1);
                    }
                    depth -= 1;
                    at += 1;
                },
                OpCode::WriteVar => {
                    at += 1;
                },
                OpCode::StartSection => match skip_str(bytecode, at + 1) {
                    Err(e) => {
                        return Err(e);
                    },
                    Ok(next) => {
                        depth += 1;
                        at = next;
                    },
                },
                _ => match skip_str(bytecode, at + 1) {
                    Err(e) => {
                        return Err(e);
                    },
                    Ok(next) => {
                        at = next;
                    },
                },
            },
        }
    }
}

/// Appends the text of `value` to `buf`.
pub fn write_value(buf: &mut String, value: &Value) -> (r: Result<()>)
    ensures
        match r {
            Ok(_) => written_error(value@) is None && final(buf)@ == old(buf)@ + written_text(
                value@,
            ),
            Err(e) => written_error(value@) == Some(e) && final(buf)@ == old(buf)@,
        },
{
    proof {
        assert(buf@ + Seq::<char>::empty() =~= buf@);
    }
    match value.unwrap_value() {
        Some(Value::Scalar(s)) => {
            s.write(buf);
            Ok(())
        },
        Some(inner) => Err(Error::UnsupportedType(inner.shape())),
        None => Ok(()),
    }
}

/// Writing in two steps is writing the two texts one after the other.
proof fn lemma_after_after(a: Seq<char>, b: Seq<char>, rest: Run)
    ensures
        after(a, after(b, rest)) == after(a + b, rest),
{
    assert(a + (b + rest.text) =~= (a + b) + rest.text);
}

/// Executes the bytecode from `start` on, up to the instruction that closes
/// the section it is in or to the end of the code, and returns where it
/// ended. The values below `base` stay on the stack as they are.
#[verifier::rlimit(60)]
fn execute<'a>(
    buf: &mut String,
    bytecode: &[u8],
    start: usize,
    stack: &mut Vec<&'a Value>,
    base: usize,
    absent: &'a Value,
) -> (r: Result<usize>)
    requires
        start <= bytecode@.len(),
        base <= old(stack)@.len(),
        absent@ == ValueView::Optional(None),
    ensures
        final(stack)@.len() >= base,
        final(stack)@.subrange(0, base as int) == old(stack)@.subrange(0, base as int),
        final(buf)@ == old(buf)@ + run(
            bytecode@,
            start as int,
            stack_view(old(stack)@),
            base as nat,
        ).text,
        match r {
            Ok(end) => {
                let done = run(bytecode@, start as int, stack_view(old(stack)@), base as nat);
                done.error is None && done.pc == end && start <= end <= bytecode@.len()
            },
            Err(e) => run(bytecode@, start as int, stack_view(old(stack)@), base as nat).error
                == Some(e),
        },
    decreases bytecode@.len() - start, 0nat,
{
    let ghost code = bytecode@;
    let ghost stack0 = stack@;
    let ghost buf0 = buf@;
    let ghost total = run(code, start as int, stack_view(stack0), base as nat);
    let ghost mut done: Seq<char> = Seq::empty();
    let mut pc: usize = start;
    let len = bytecode.len();
    proof {
        assert(buf0 + done =~= buf0);
        assert(done + total.text =~= total.text);
        assert(stack@.subrange(0, base as int) =~= stack0.subrange(0, base as int));
    }
    loop
        invariant
            start <= pc <= bytecode@.len(),
            len == bytecode@.len(),
            code == bytecode@,
            stack0 == old(stack)@,
            buf0 == old(buf)@,
            base <= stack@.len(),
            stack@.subrange(0, base as int) == stack0.subrange(0, base as int),
            absent@ == ValueView::Optional(None),
            total == run(code, start as int, stack_view(stack0), base as nat),
            buf@ == buf0 + done,
            total == after(done, run(code, pc as int, stack_view(stack@), base as nat)),
        decreases bytecode@.len() - pc,
    {
        let ghost sv = stack_view(stack@);
        let ghost here = run(code, pc as int, sv, base as nat);
        proof {
            assert((buf0 + done) + here.text =~= buf0 + (done + here.text));
            assert(done + Seq::<char>::empty() =~= done);
        }
        match read_opcode(bytecode, pc) {
            Err(e) => {
                return Err(e);
            },
            Ok(None) => {
                return Ok(pc);
            },
            Ok(Some(op)) => match op {
                OpCode::EndSection => {
                    return Ok(pc + 1);
                },
                OpCode::WriteVar => {
                    if stack.len() <= base {
                        return Err(Error::EmptyStack);
                    }
                    let top: &'a Value = stack[stack.len() - 1];
                    assert(sv.last() == top@);
                    match write_value(buf, top) {
                        Err(e) => {
                            return Err(e);
                        },
                        Ok(_) => {},
                    }
                    let ghost before = stack@;
                    stack.pop();
                    proof {
                        assert(stack_view(stack@) =~= sv.drop_last());
                        assert(stack@.subrange(0, base as int) =~= before.subrange(
                            0,
                            base as int,
                        ));
                        lemma_after_after(
                            done,
                            written_text(top@),
                            run(code, pc + 1, sv.drop_last(), base as nat),
                        );
                        assert((buf0 + done) + written_text(top@) =~= buf0 + (done + written_text(
                            top@,
                        )));
                        done = done + written_text(top@);
                    }
                    pc += 1;
                },
                OpCode::PushStr => {
                    let ghost text = string_at(code, pc + 1);
                    match write_str(buf, bytecode, pc + 1) {
                        Err(e) => {
                            return Err(e);
                        },
                        Ok(next) => {
                            proof {
                                let t = text->Ok_0.0;
                                lemma_after_after(
                                    done,
                                    t,
                                    run(code, next as int, sv, base as nat),
                                );
                                assert((buf0 + done) + t =~= buf0 + (done + t));
                                done = done + t;
                            }
                            pc = next;
                        },
                    }
                },
                OpCode::PushVar => {
                    match read_str(bytecode, pc + 1) {
                        Err(e) => {
                            return Err(e);
                        },
                        Ok((path, next)) => match parse_access(path.as_str()) {
                            None => {
                                return Err(Error::InvalidField);
                            },
                            Some(access) => {
                                let found: &'a Value = match variable_of(stack, &access) {
                                    Some(v) => v,
                                    None => absent,
                                };
                                let ghost before = stack@;
                                proof {
                                    lemma_stack_push(stack@, found);
                                }
                                stack.push(found);
                                proof {
                                    assert(stack@.subrange(0, base as int) =~= before.subrange(
                                        0,
                                        base as int,
                                    ));
                                }
                                pc = next;
                            },
                        },
                    }
                },
                OpCode::StartSection => {
                    match read_str(bytecode, pc + 1) {
                        Err(e) => {
                            return Err(e);
                        },
                        Ok((path, body)) => match parse_access(path.as_str()) {
                            None => {
                                return Err(Error::InvalidField);
                            },
                            Some(access) => match execute_skip(bytecode, body) {
                                Err(e) => {
                                    return Err(e);
                                },
                                Ok(end) => {
                                    let ghost inner = run_section(
                                        code,
                                        body as int,
                                        section_value(sv, access@),
                                        sv,
                                    );
                                    let ghost rest = run(code, end as int, sv, base as nat);
                                    proof {
                                        assert(here == chained(inner, rest));
                                        assert((buf0 + done) + inner.text =~= buf0 + (done
                                            + inner.text));
                                        lemma_after_after(done, inner.text, rest);
                                    }
                                    let value = section_of(stack, &access);
                                    match execute_section(buf, bytecode, body, value, stack, absent) {
                                        Err(e) => {
                                            return Err(e);
                                        },
                                        Ok(_) => {},
                                    }
                                    proof {
                                        done = done + inner.text;
                                    }
                                    pc = end;
                                },
                            },
                        },
                    }
                },
            },
        }
    }
}

/// Executes the body at `body` for the value `value` of its section, and
/// leaves the stack as it found it.
fn execute_section<'a>(
    buf: &mut String,
    bytecode: &[u8],
    body: usize,
    value: Option<&'a Value>,
    stack: &mut Vec<&'a Value>,
    absent: &'a Value,
) -> (r: Result<()>)
    requires
        body <= bytecode@.len(),
        absent@ == ValueView::Optional(None),
    ensures
        final(stack)@ == old(stack)@,
        final(buf)@ == old(buf)@ + run_section(
            bytecode@,
            body as int,
            option_view(value),
            stack_view(old(stack)@),
        ).text,
        match r {
            Ok(_) => run_section(
                bytecode@,
                body as int,
                option_view(value),
                stack_view(old(stack)@),
            ).error is None,
            Err(e) => run_section(
                bytecode@,
                body as int,
                option_view(value),
                stack_view(old(stack)@),
            ).error == Some(e),
        },
    decreases bytecode@.len() - body, 2nat,
{
    let ghost stack0 = stack@;
    let depth = stack.len();
    proof {
        reveal_with_fuel(value_view, 3);
        assert(buf@ + Seq::<char>::empty() =~= buf@);
        assert(stack0.subrange(0, depth as int) =~= stack0);
    }
    match value {
        None => Ok(()),
        Some(found) => match found {
            Value::Optional(inner) => match inner {
                None => Ok(()),
                Some(held) => {
                    proof {
                        lemma_stack_push(stack0, &**held);
                    }
                    stack.push(&**held);
                    let r = execute(buf, bytecode, body, stack, stack.len(), absent);
                    stack.truncate(depth);
                    assert(stack@ =~= stack0);
                    match r {
                        Ok(_) => Ok(()),
                        Err(e) => Err(e),
                    }
                },
            },
            Value::Scalar(Scalar::Bool(b)) => {
                if *b {
                    let r = execute(buf, bytecode, body, stack, depth, absent);
                    stack.truncate(depth);
                    assert(stack@ =~= stack0);
                    match r {
                        Ok(_) => Ok(()),
                        Err(e) => Err(e),
                    }
                } else {
                    Ok(())
                }
            },
            Value::List(items) => execute_iter(buf, bytecode, body, stack, items, absent),
            _ => {
                proof {
                    lemma_stack_push(stack0, found);
                }
                stack.push(found);
                let r = execute(buf, bytecode, body, stack, stack.len(), absent);
                stack.truncate(depth);
                assert(stack@ =~= stack0);
                match r {
                    Ok(_) => Ok(()),
                    Err(e) => Err(e),
                }
            },
        },
    }
}

/// Executes the body at `body` once for each element of `items`, with the
/// element pushed, and leaves the stack as it found it.
fn execute_iter<'a>(
    buf: &mut String,
    bytecode: &[u8],
    body: usize,
    stack: &mut Vec<&'a Value>,
    items: &'a Vec<Value>,
    absent: &'a Value,
) -> (r: Result<()>)
    requires
        body <= bytecode@.len(),
        absent@ == ValueView::Optional(None),
    ensures
        final(stack)@ == old(stack)@,
        final(buf)@ == old(buf)@ + run_items(
            bytecode@,
            body as int,
            values_view(items@),
            0,
            stack_view(old(stack)@),
        ).text,
        match r {
            Ok(_) => run_items(
                bytecode@,
                body as int,
                values_view(items@),
                0,
                stack_view(old(stack)@),
            ).error is None,
            Err(e) => run_items(
                bytecode@,
                body as int,
                values_view(items@),
                0,
                stack_view(old(stack)@),
            ).error == Some(e),
        },
    decreases bytecode@.len() - body, 1nat,
{
    let ghost code = bytecode@;
    let ghost iv = values_view(items@);
    let ghost stack0 = stack@;
    let ghost sv = stack_view(stack0);
    let ghost buf0 = buf@;
    let ghost total = run_items(code, body as int, iv, 0, sv);
    let ghost mut done: Seq<char> = Seq::empty();
    let depth = stack.len();
    proof {
        assert(buf0 + done =~= buf0);
        assert(done + total.text =~= total.text);
        assert(stack0.subrange(0, depth as int) =~= stack0);
    }
    let mut j: usize = 0;
    while j < items.len()
        invariant
            j <= items.len(),
            body <= bytecode@.len(),
            code == bytecode@,
            iv == values_view(items@),
            stack0 == old(stack)@,
            sv == stack_view(stack0),
            buf0 == old(buf)@,
            depth == stack0.len(),
            stack@ == stack0,
            absent@ == ValueView::Optional(None),
            total == run_items(code, body as int, iv, 0, sv),
            buf@ == buf0 + done,
            total.text == done + run_items(code, body as int, iv, j as int, sv).text,
            total.error == run_items(code, body as int, iv, j as int, sv).error,
        decreases items.len() - j,
    {
        let ghost here = run(code, body as int, sv.push(iv[j as int]), (depth + 1) as nat);
        let ghost rest = run_items(code, body as int, iv, j + 1, sv);
        proof {
            lemma_stack_push(stack0, &items[j as int]);
            assert(iv[j as int] == items@[j as int]@);
            assert((buf0 + done) + here.text =~= buf0 + (done + here.text));
            assert(done + (here.text + rest.text) =~= (done + here.text) + rest.text);
            assert(stack0.subrange(0, depth as int) =~= stack0);
        }
        stack.push(&items[j]);
        let r = execute(buf, bytecode, body, stack, stack.len(), absent);
        stack.truncate(depth);
        assert(stack@ =~= stack0);
        match r {
            Err(e) => {
                return Err(e);
            },
            Ok(_) => {},
        }
        proof {
            done = done + here.text;
        }
        j += 1;
    }
    proof {
        assert(done + Seq::<char>::empty() =~= done);
    }
    Ok(())
}

/// Executes `bytecode` against `root` and appends what it writes to `buf`.
/// What was written before an error stays in `buf`.
pub fn execute_to(buf: &mut String, bytecode: &[u8], root: &Value) -> (r: Result<()>)
    ensures
        final(buf)@ == old(buf)@ + executed(bytecode@, root@).text,
        match r {
            Ok(_) => executed(bytecode@, root@).error is None,
            Err(e) => executed(bytecode@, root@).error == Some(e),
        },
{
    let absent = Value::Optional(None);
    let mut stack: Vec<&Value> = Vec::new();
    stack.push(root);
    assert(stack_view(stack@) =~= seq![root@]);
    match execute(buf, bytecode, 0, &mut stack, 1, &absent) {
        Ok(_) => Ok(()),
        Err(e) => Err(e),
    }
}

} // verus!
