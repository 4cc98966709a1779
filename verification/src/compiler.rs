//! The compiler from expressions to bytecode.
//!
//! An instruction is one opcode byte. The instructions that carry a string
//! are followed by the length of the string in bytes, as eight bytes with
//! the lowest first, and by the bytes of the string in UTF-8.

use vstd::prelude::*;
use vstd::bytes::{spec_u64_to_le_bytes, u64_to_le_bytes};
use vstd::slice::slice_to_vec;
use vstd::utf8::encode_utf8;
use crate::{exprs_view, Expr, ExprView};

verus! {

/// The opcode that writes the string behind it.
pub const PUSH_STR: u8 = 0x01;

/// The opcode that resolves the path behind it and pushes what it finds.
pub const PUSH_VAR: u8 = 0x02;

/// The opcode that opens a section over the path behind it.
pub const START_SECTION: u8 = 0x03;

/// The opcode that closes a section.
pub const END_SECTION: u8 = 0x04;

/// The opcode that writes the innermost value and drops it.
pub const WRITE_VAR: u8 = 0x07;

/// A string as it stands in bytecode: its length in bytes, then its bytes.
pub open spec fn encoded_string(text: Seq<char>) -> Seq<u8> {
    spec_u64_to_le_bytes(encode_utf8(text).len() as u64) + encode_utf8(text)
}

/// The bytecode of one expression.
pub open spec fn encoded_expr(expr: ExprView) -> Seq<u8>
    decreases expr, 0nat,
{
    match expr {
        ExprView::String(text) => seq![PUSH_STR] + encoded_string(text),
        ExprView::Var(path) => seq![PUSH_VAR] + encoded_string(path) + seq![WRITE_VAR],
        ExprView::Section { var, body } => seq![START_SECTION] + encoded_string(var)
            + encoded_exprs(body, 0) + seq![END_SECTION],
    }
}

/// The bytecode of the expressions from position `i` on, one after the
/// other.
pub open spec fn encoded_exprs(exprs: Seq<ExprView>, i: int) -> Seq<u8>
    decreases exprs, exprs.len() - i,
{
    if i < 0 || i >= exprs.len() {
        Seq::empty()
    } else {
        encoded_expr(exprs[i]) + encoded_exprs(exprs, i + 1)
    }
}

/// Whether the length of every string of the expressions from position `i`
/// on can be written in eight bytes.
pub open spec fn encodable(exprs: Seq<ExprView>, i: int) -> bool
    decreases exprs, exprs.len() - i,
{
    if i < 0 || i >= exprs.len() {
        true
    } else {
        &&& match exprs[i] {
            ExprView::String(text) => encode_utf8(text).len() <= u64::MAX,
            ExprView::Var(path) => encode_utf8(path).len() <= u64::MAX,
            ExprView::Section { var, body } => encode_utf8(var).len() <= u64::MAX && encodable(
                body,
                0,
            ),
        }
        &&& encodable(exprs, i + 1)
    }
}

/// A compiler with the bytecode that it has written so far.
pub struct Compiler {
    bytecode: Vec<u8>,
}

impl Default for Compiler {
    fn default() -> (r: Compiler)
        ensures
            r.code() == Seq::<u8>::empty(),
    {
        Compiler { bytecode: Vec::new() }
    }
}

impl Compiler {
    /// The bytecode written so far.
    pub closed spec fn code(&self) -> Seq<u8> {
        self.bytecode@
    }

    /// A compiler that has written nothing yet.
    pub fn new() -> (r: Compiler)
        ensures
            r.code() == Seq::<u8>::empty(),
    {
        Compiler { bytecode: Vec::new() }
    }

    /// The bytecode of `exprs`, behind what the compiler had written.
    pub fn compile(self, exprs: Vec<Expr>) -> (r: Vec<u8>)
        ensures
            r@ == self.code() + encoded_exprs(exprs_view(exprs@), 0),
            encodable(exprs_view(exprs@), 0),
    {
        let mut compiler = self;
        compiler.compile_exprs(&exprs);
        compiler.bytecode
    }

    fn compile_exprs(&mut self, exprs: &Vec<Expr>)
        ensures
            final(self).code() == old(self).code() + encoded_exprs(exprs_view(exprs@), 0),
            encodable(exprs_view(exprs@), 0),
        decreases exprs, 1nat,
    {
        let ghost ev = exprs_view(exprs@);
        let ghost start = self.code();
        let ghost mut done: Seq<u8> = Seq::empty();
        let mut i: usize = 0;
        assert(start + done =~= start);
        assert(done + encoded_exprs(ev, 0) =~= encoded_exprs(ev, 0));
        while i < exprs.len()
            invariant
                i <= exprs.len(),
                ev == exprs_view(exprs@),
                self.code() == start + done,
                encoded_exprs(ev, 0) == done + encoded_exprs(ev, i as int),
                encodable(ev, 0) == encodable(ev, i as int),
            decreases exprs.len() - i,
        {
            let ghost here = encoded_expr(ev[i as int]);
            proof {
                assert(ev[i as int] == exprs@[i as int]@);
                assert((start + done) + here =~= start + (done + here));
                assert((done + here) + encoded_exprs(ev, i + 1) =~= done + (here + encoded_exprs(
                    ev,
                    i + 1,
                )));
            }
            self.compile_expr(&exprs[i]);
            proof {
                done = done + here;
            }
            i += 1;
        }
        assert(done + Seq::<u8>::empty() =~= done);
    }

    fn compile_expr(&mut self, expr: &Expr)
        ensures
            final(self).code() == old(self).code() + encoded_expr(expr@),
            match expr@ {
                ExprView::String(text) => encode_utf8(text).len() <= u64::MAX,
                ExprView::Var(path) => encode_utf8(path).len() <= u64::MAX,
                ExprView::Section { var, body } => encode_utf8(var).len() <= u64::MAX
                    && encodable(body, 0),
            },
        decreases expr, 0nat,
    {
        let ghost start = self.code();
        match expr {
            Expr::String(string) => {
                self.compile_push_str(string.as_str());
            },
            Expr::Section { var, body } => {
                self.compile_section(var);
                self.compile_exprs(body);
                self.bytecode.push(END_SECTION);
                assert(self.code() =~= start + encoded_expr(expr@));
            },
            Expr::Var(var_name) => {
                self.compile_push_var(var_name);
                self.bytecode.push(WRITE_VAR);
                assert(self.code() =~= start + encoded_expr(expr@));
            },
        }
    }

    fn compile_section(&mut self, var_name: &String)
        ensures
            final(self).code() == old(self).code() + (seq![START_SECTION] + encoded_string(
                var_name@,
            )),
            encode_utf8(var_name@).len() <= u64::MAX,
    {
        let ghost start = self.code();
        self.bytecode.push(START_SECTION);
        let bytes = var_name.as_str().as_bytes();
        let _ = bytes.len();
        self.compile_bytes(bytes);
        assert(self.code() =~= start + (seq![START_SECTION] + encoded_string(var_name@)));
    }

    fn compile_push_str(&mut self, value: &str)
        ensures
            final(self).code() == old(self).code() + (seq![PUSH_STR] + encoded_string(value@)),
            encode_utf8(value@).len() <= u64::MAX,
    {
        let ghost start = self.code();
        self.bytecode.push(PUSH_STR);
        let bytes = value.as_bytes();
        let _ = bytes.len();
        self.compile_bytes(bytes);
        assert(self.code() =~= start + (seq![PUSH_STR] + encoded_string(value@)));
    }

    fn compile_push_var(&mut self, var_name: &String)
        ensures
            final(self).code() == old(self).code() + (seq![PUSH_VAR] + encoded_string(var_name@)),
            encode_utf8(var_name@).len() <= u64::MAX,
    {
        let ghost start = self.code();
        self.bytecode.push(PUSH_VAR);
        let bytes = var_name.as_str().as_bytes();
        let _ = bytes.len();
        self.compile_bytes(bytes);
        assert(self.code() =~= start + (seq![PUSH_VAR] + encoded_string(var_name@)));
    }

    fn compile_bytes(&mut self, value: &[u8])
        ensures
            final(self).code() == old(self).code() + (spec_u64_to_le_bytes(value@.len() as u64)
                + value@),
    {
        let ghost start = self.code();
        self.compile_u64(value.len() as u64);
        let mut bytes = slice_to_vec(value);
        self.bytecode.append(&mut bytes);
        assert(self.code() =~= start + (spec_u64_to_le_bytes(value@.len() as u64) + value@));
    }

    fn compile_u64(&mut self, value: u64)
        ensures
            final(self).code() == old(self).code() + spec_u64_to_le_bytes(value),
    {
        let mut bytes = u64_to_le_bytes(value);
        self.bytecode.append(&mut bytes);
    }
}

} // verus!
