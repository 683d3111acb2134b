//! Instruction and value encoding: the opcode set, the tagged runtime value
//! stored in the constant pool, and one entry of the compressed line table.

use vstd::prelude::*;
use vstd::string::StringExecFns;

use crate::text::dec_digits;
use crate::text::dec_string_zero4;
use crate::text::int_digits;
use crate::text::int_string;
use crate::text::pad4_left;

verus! {

/// One bytecode operation, tagged by kind. `Constant` carries an index into
/// the owning chunk's constant pool.
#[derive(Clone, Copy, PartialEq, Eq, Structural, Debug)]
pub enum OpCode {
    Return,
    Constant(usize),
}

/// A tagged runtime value held in a chunk's constant pool.
#[derive(Clone, Copy, PartialEq, Eq, Structural, Debug)]
pub enum Typed {
    Int(isize),
}

/// One run of the compressed line table: `op_count` consecutive instructions
/// all originating from source line `line`.
#[derive(Clone, Copy, PartialEq, Eq, Structural, Debug)]
pub struct CodeLocation {
    pub line: u16,
    pub op_count: u8,
}

impl CodeLocation {
    /// A fresh run for `line`, covering one instruction.
    pub fn new(line: u16) -> (loc: CodeLocation)
        ensures
            loc.line == line,
            loc.op_count == 1,
    {
        CodeLocation { line, op_count: 1 }
    }

    /// Extends the run by one instruction. The caller keeps the count below
    /// the 8-bit bound by starting a new run once it is reached.
    pub fn inc(&mut self)
        requires
            old(self).op_count < 255,
        ensures
            final(self).line == old(self).line,
            final(self).op_count == old(self).op_count + 1,
    {
        self.op_count = self.op_count + 1;
    }
}

/// The textual description of a constant value: its type tag followed by the
/// literal value, e.g. `(Int) 3`.
pub open spec fn spec_typed_description(t: Typed) -> Seq<char> {
    match t {
        Typed::Int(v) => "(Int) "@ + int_digits(v as int),
    }
}

impl Typed {
    /// Renders the value as its type tag followed by the literal value.
    pub fn description(&self) -> (s: String)
        ensures
            s@ == spec_typed_description(*self),
    {
        match self {
            Typed::Int(v) => {
                let mut s = String::from_str("(Int) ");
                s.append(int_string(*v).as_str());
                s
            },
        }
    }
}

/// Every `Constant` instruction in `code` indexes inside a constant pool of
/// `n_constants` entries.
pub open spec fn ops_in_range(code: Seq<OpCode>, n_constants: nat) -> bool {
    forall|i: int|
        0 <= i < code.len() ==> ((#[trigger] code[i]) matches OpCode::Constant(idx) ==> idx
            < n_constants)
}

/// The textual description of one instruction: its mnemonic and, for a
/// constant load, the zero-padded pool index and the constant's description.
pub open spec fn spec_op_description(op: OpCode, constants: Seq<Typed>) -> Seq<char> {
    match op {
        OpCode::Return => "RETURN"@,
        OpCode::Constant(idx) => "CONSTANT "@ + pad4_left(dec_digits(idx as nat), '0') + " ; "@
            + spec_typed_description(constants[idx as int]),
    }
}

/// One rendered disassembly line for `op` under the given prefix field.
pub open spec fn spec_op_line(op: OpCode, constants: Seq<Typed>, prefix: Seq<char>) -> Seq<char> {
    prefix + ": "@ + spec_op_description(op, constants) + "\n"@
}

impl OpCode {
    /// Renders the instruction's mnemonic and, for a constant load, its pool
    /// index and the referenced constant.
    pub fn description(&self, constants: &[Typed]) -> (s: String)
        requires
            *self matches OpCode::Constant(idx) ==> idx < constants@.len(),
        ensures
            s@ == spec_op_description(*self, constants@),
    {
        match self {
            OpCode::Return => String::from_str("RETURN"),
            OpCode::Constant(idx) => {
                let mut s = String::from_str("CONSTANT ");
                s.append(dec_string_zero4(*idx as u64).as_str());
                s.append(" ; ");
                s.append(constants[*idx].description().as_str());
                s
            },
        }
    }

    /// Renders one full disassembly line: the prefix field, `": "`, the
    /// instruction's description, and a newline.
    pub fn disassemble(&self, prefix: String, constants: &[Typed]) -> (s: String)
        requires
            *self matches OpCode::Constant(idx) ==> idx < constants@.len(),
        ensures
            s@ == spec_op_line(*self, constants@, prefix@),
    {
        let mut s = prefix;
        s.append(": ");
        s.append(self.description(constants).as_str());
        s.append("\n");
        s
    }
}

} // verus!
