//! The interpreter: walks a chunk's instruction stream front-to-back,
//! dispatches on opcode, and halts with a success or a typed failure.

use vstd::prelude::*;
use vstd::string::StringExecFns;

use crate::chunk::Chunk;
use crate::chunk::Disassembler;
use crate::chunk::expand_locs;
use crate::chunk::locs_counts_ok;
use crate::chunk::push_loc;
use crate::chunk::push_starts_run;
use crate::chunk::spec_disassembly;
use crate::op::OpCode;
use crate::op::Typed;
use crate::op::ops_in_range;
use crate::text::dec_digits;
use crate::text::dec_string;

verus! {

/// A fatal interpretation failure. `Compile` is reserved for a future
/// front-end; `Runtime` carries a human-readable diagnostic.
#[derive(Debug)]
pub enum InterpretError {
    Compile,
    Runtime(String),
}

/// The diagnostic for a run that walks past the last instruction without
/// executing `Return`.
pub open spec fn spec_end_of_program_msg() -> Seq<char> {
    "unexpected end of program"@
}

/// The diagnostic for a `Constant` instruction whose pool index `idx` is out
/// of bounds.
pub open spec fn spec_invalid_constant_msg(idx: nat) -> Seq<char> {
    "constant index out of bounds: "@ + dec_digits(idx)
}

/// The position at which a linear run over `code` halts: the first index
/// holding anything other than a `Constant` with an index inside a pool of
/// `n_constants` entries, or `code.len()` if every instruction is such a
/// load. The run succeeds exactly when this position holds `Return`.
pub open spec fn spec_stop_pos(code: Seq<OpCode>, n_constants: nat) -> int
    decreases code.len(),
{
    if code.len() == 0 {
        0
    } else {
        match code[0] {
            OpCode::Constant(idx) => if idx < n_constants {
                1 + spec_stop_pos(code.drop_first(), n_constants)
            } else {
                0
            },
            OpCode::Return => 0,
        }
    }
}

/// The halt position lies within the instruction sequence, everything before
/// it is an in-range constant load, and it is not itself one.
pub proof fn lemma_stop_pos_bounds(code: Seq<OpCode>, n_constants: nat)
    ensures
        0 <= spec_stop_pos(code, n_constants) <= code.len(),
        forall|j: int|
            0 <= j < spec_stop_pos(code, n_constants) ==> ((#[trigger] code[j]) matches
            OpCode::Constant(idx) && idx < n_constants),
        spec_stop_pos(code, n_constants) < code.len() ==> !(code[spec_stop_pos(
            code,
            n_constants,
        )] matches OpCode::Constant(idx) && idx < n_constants),
    decreases code.len(),
{
    if code.len() > 0 {
        lemma_stop_pos_bounds(code.drop_first(), n_constants);
        let stop = spec_stop_pos(code, n_constants);
        assert forall|j: int|
            0 <= j < stop implies ((#[trigger] code[j]) matches OpCode::Constant(idx) && idx
            < n_constants) by {
            if j > 0 {
                assert(code.drop_first()[j - 1] == code[j]);
            }
        }
        if 0 < stop < code.len() {
            assert(code.drop_first()[stop - 1] == code[stop]);
        }
    }
}

/// The state that runs chunks. It also owns a chunk of its own, which the
/// same append operations build.
pub struct VM {
    chunk: Chunk,
}

impl VM {
    /// The instruction sequence of the VM's own chunk.
    pub closed spec fn spec_code(&self) -> Seq<OpCode> {
        self.chunk.spec_code()
    }

    /// The constant pool of the VM's own chunk.
    pub closed spec fn spec_constants(&self) -> Seq<Typed> {
        self.chunk.spec_constants()
    }

    /// The line table of the VM's own chunk.
    pub closed spec fn spec_locs(&self) -> Seq<crate::op::CodeLocation> {
        self.chunk.spec_locs()
    }

    /// Well-formedness of the VM's own chunk: the run lengths of its line
    /// table sum to its instruction count.
    pub open spec fn wf(&self) -> bool {
        locs_counts_ok(self.spec_locs()) && expand_locs(self.spec_locs()).len()
            == self.spec_code().len()
    }

    /// Appends `op` to the VM's own chunk at source line `line`.
    pub fn push_op(&mut self, op: OpCode, line: u16)
        ensures
            final(self).spec_code() == old(self).spec_code().push(op),
            final(self).spec_constants() == old(self).spec_constants(),
            final(self).spec_locs() == push_loc(old(self).spec_locs(), line),
            old(self).wf() ==> final(self).wf(),
            old(self).wf() ==> expand_locs(final(self).spec_locs()) == expand_locs(
                old(self).spec_locs(),
            ).push((line, push_starts_run(old(self).spec_locs(), line))),
    {
        self.chunk.push_op(op, line);
    }

    /// Appends a constant and the `Constant` instruction that references it
    /// to the VM's own chunk.
    pub fn push_constant_op(&mut self, constant: Typed, line: u16)
        ensures
            final(self).spec_constants() == old(self).spec_constants().push(constant),
            final(self).spec_code() == old(self).spec_code().push(
                OpCode::Constant(old(self).spec_constants().len() as usize),
            ),
            final(self).spec_locs() == push_loc(old(self).spec_locs(), line),
            old(self).wf() ==> final(self).wf(),
            old(self).wf() ==> expand_locs(final(self).spec_locs()) == expand_locs(
                old(self).spec_locs(),
            ).push((line, push_starts_run(old(self).spec_locs(), line))),
    {
        self.chunk.push_constant_op(constant, line);
    }

    /// Renders the VM's own chunk as disassembly text.
    pub fn disassemble(&self, name: &str) -> (out: String)
        requires
            self.wf(),
            ops_in_range(self.spec_code(), self.spec_constants().len()),
        ensures
            out@ == spec_disassembly(
                self.spec_code(),
                self.spec_constants(),
                self.spec_locs(),
                name@,
            ),
    {
        self.chunk.disassemble(name)
    }

    /// A fresh disassembler over the VM's own chunk.
    pub fn disassembler(&self) -> (d: Disassembler)
        requires
            self.wf(),
        ensures
            d.spec_ops() == self.spec_code(),
            d.spec_locs() == self.spec_locs(),
            d.spec_pos() == 0,
            d.wf(),
    {
        self.chunk.disassembler()
    }

    /// Executes `chunk` front-to-back. `Return` halts with success;
    /// a `Constant` load whose index escapes the pool halts with a runtime
    /// error, as does walking past the end without executing `Return`.
    pub fn interpret(&self, chunk: &Chunk) -> (r: Result<(), InterpretError>)
        ensures
            ({
                let stop = spec_stop_pos(chunk.spec_code(), chunk.spec_constants().len());
                &&& (r is Ok <==> stop < chunk.spec_code().len() && chunk.spec_code()[stop]
                    is Return)
                &&& stop == chunk.spec_code().len() ==> (r matches Err(
                    InterpretError::Runtime(m),
                ) && m@ == spec_end_of_program_msg())
                &&& stop < chunk.spec_code().len() ==> (chunk.spec_code()[stop] matches
                OpCode::Constant(idx) ==> (r matches Err(InterpretError::Runtime(m)) && m@
                    == spec_invalid_constant_msg(idx as nat)))
            }),
    {
        let ghost code = chunk.spec_code();
        let ghost n_constants = chunk.spec_constants().len();
        proof {
            lemma_stop_pos_bounds(code, n_constants);
            assert(code.skip(0) =~= code);
        }
        let n = chunk.code_len();
        let mut pc: usize = 0;
        while pc < n
            invariant
                n == code.len(),
                code == chunk.spec_code(),
                n_constants == chunk.spec_constants().len(),
                0 <= pc <= n,
                spec_stop_pos(code, n_constants) == pc + spec_stop_pos(
                    code.skip(pc as int),
                    n_constants,
                ),
            decreases n - pc,
        {
            let op = chunk.op_at(pc);
            proof {
                assert(code.skip(pc as int)[0] == code[pc as int]);
            }
            match op {
                OpCode::Return => {
                    proof {
                        assert(spec_stop_pos(code.skip(pc as int), n_constants) == 0);
                    }
                    return Ok(());
                },
                OpCode::Constant(idx) => {
                    if idx < chunk.constants_len() {
                        proof {
                            assert(code.skip(pc as int).drop_first() =~= code.skip(pc as int + 1));
                        }
                        pc = pc + 1;
                    } else {
                        proof {
                            assert(spec_stop_pos(code.skip(pc as int), n_constants) == 0);
                        }
                        let mut m = String::from_str("constant index out of bounds: ");
                        m.append(dec_string(idx as u64).as_str());
                        return Err(InterpretError::Runtime(m));
                    }
                },
            }
        }
        proof {
            assert(code.skip(n as int) =~= Seq::<OpCode>::empty());
            assert(spec_stop_pos(code, n_constants) == n);
        }
        Err(InterpretError::Runtime(String::from_str("unexpected end of program")))
    }
}

impl Default for VM {
    /// A VM whose own chunk is empty.
    fn default() -> (vm: VM)
        ensures
            vm.spec_code() == Seq::<OpCode>::empty(),
            vm.spec_constants() == Seq::<Typed>::empty(),
            vm.spec_locs() == Seq::<crate::op::CodeLocation>::empty(),
            vm.wf(),
    {
        VM { chunk: Chunk::default() }
    }
}

} // verus!
