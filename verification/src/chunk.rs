//! Chunks: an instruction sequence, a constant pool, and a run-length-encoded
//! source-line table, together with the disassembler that walks them.

use vstd::prelude::*;
use vstd::string::StringExecFns;

use crate::op::CodeLocation;
use crate::op::OpCode;
use crate::op::Typed;
use crate::op::ops_in_range;
use crate::op::spec_op_line;
use crate::text::dec_digits;
use crate::text::dec_string_space4;
use crate::text::pad4_left;

verus! {

/// The per-instruction view of one line-table run: `op_count` entries of
/// `(line, is_first)`, the first entry flagged as opening the run.
pub open spec fn run_expansion(loc: CodeLocation) -> Seq<(u16, bool)> {
    Seq::new(loc.op_count as nat, |i: int| (loc.line, i == 0))
}

/// The line table expanded to one `(line, is_first)` entry per instruction,
/// in emission order.
pub open spec fn expand_locs(locs: Seq<CodeLocation>) -> Seq<(u16, bool)>
    decreases locs.len(),
{
    if locs.len() == 0 {
        Seq::empty()
    } else {
        run_expansion(locs[0]) + expand_locs(locs.drop_first())
    }
}

/// Every run of the table covers at least one instruction.
pub open spec fn locs_counts_ok(locs: Seq<CodeLocation>) -> bool {
    forall|i: int| 0 <= i < locs.len() ==> (#[trigger] locs[i]).op_count >= 1
}

/// Whether appending one instruction at `line` opens a new run: it does
/// unless the last run is for the same line and still below the 8-bit bound.
pub open spec fn push_starts_run(locs: Seq<CodeLocation>, line: u16) -> bool {
    !(locs.len() > 0 && locs.last().line == line && locs.last().op_count < 255)
}

/// The line table after appending one instruction at `line`: the last run is
/// extended, or a fresh run of length one is started.
pub open spec fn push_loc(locs: Seq<CodeLocation>, line: u16) -> Seq<CodeLocation> {
    if push_starts_run(locs, line) {
        locs.push(CodeLocation { line, op_count: 1 })
    } else {
        locs.update(
            locs.len() - 1,
            CodeLocation { line, op_count: (locs.last().op_count + 1) as u8 },
        )
    }
}

/// Expansion distributes over appending a run at the end of the table.
pub proof fn lemma_expand_push(locs: Seq<CodeLocation>, loc: CodeLocation)
    ensures
        expand_locs(locs.push(loc)) == expand_locs(locs) + run_expansion(loc),
    decreases locs.len(),
{
    if locs.len() == 0 {
        assert(locs.push(loc).drop_first() =~= Seq::<CodeLocation>::empty());
        assert(locs.push(loc)[0] == loc);
        assert(expand_locs(locs) =~= Seq::<(u16, bool)>::empty());
        assert(expand_locs(locs.push(loc).drop_first()) =~= Seq::<(u16, bool)>::empty());
        assert(expand_locs(locs.push(loc)) =~= expand_locs(locs) + run_expansion(loc));
    } else {
        lemma_expand_push(locs.drop_first(), loc);
        assert(locs.push(loc).drop_first() =~= locs.drop_first().push(loc));
        assert(expand_locs(locs.push(loc)) =~= expand_locs(locs) + run_expansion(loc));
    }
}

/// Appending one instruction at `line` appends exactly one entry to the
/// expanded table: `(line, b)`, where `b` marks the start of a new run.
pub proof fn lemma_push_loc_expand(locs: Seq<CodeLocation>, line: u16)
    requires
        locs_counts_ok(locs),
    ensures
        locs_counts_ok(push_loc(locs, line)),
        expand_locs(push_loc(locs, line)) == expand_locs(locs).push(
            (line, push_starts_run(locs, line)),
        ),
{
    if push_starts_run(locs, line) {
        let fresh = CodeLocation { line, op_count: 1 };
        lemma_expand_push(locs, fresh);
        assert(run_expansion(fresh) =~= seq![(line, true)]);
        assert(expand_locs(locs) + seq![(line, true)] =~= expand_locs(locs).push((line, true)));
    } else {
        let n = locs.len();
        let last = locs.last();
        let grown = CodeLocation { line, op_count: (last.op_count + 1) as u8 };
        let front = locs.take(n - 1);
        assert(locs =~= front.push(last));
        assert(push_loc(locs, line) =~= front.push(grown));
        lemma_expand_push(front, last);
        lemma_expand_push(front, grown);
        assert(run_expansion(grown) =~= run_expansion(last).push((line, false)));
        assert(expand_locs(front) + run_expansion(last).push((line, false)) =~= (expand_locs(front)
            + run_expansion(last)).push((line, false)));
    }
}

/// Expansion distributes over keeping one more run of a prefix.
pub proof fn lemma_expand_take_succ(locs: Seq<CodeLocation>, j: int)
    requires
        0 <= j < locs.len(),
    ensures
        expand_locs(locs.take(j + 1)) == expand_locs(locs.take(j)) + run_expansion(locs[j]),
{
    assert(locs.take(j + 1) =~= locs.take(j).push(locs[j]));
    lemma_expand_push(locs.take(j), locs[j]);
}

/// The whole table is its own prefix of full length.
pub proof fn lemma_expand_take_all(locs: Seq<CodeLocation>)
    ensures
        expand_locs(locs.take(locs.len() as int)) == expand_locs(locs),
{
    assert(locs.take(locs.len() as int) =~= locs);
}

/// Position `k` of run `j` stands at offset `k` past the expansion of the
/// first `j` runs, and reads `(line of run j, k == 0)`.
pub proof fn lemma_expand_index(locs: Seq<CodeLocation>, j: int, k: int)
    requires
        0 <= j < locs.len(),
        0 <= k < locs[j].op_count,
    ensures
        0 <= expand_locs(locs.take(j)).len() + k < expand_locs(locs).len(),
        expand_locs(locs)[expand_locs(locs.take(j)).len() + k] == (locs[j].line, k == 0),
    decreases locs.len(),
{
    lemma_expand_prefix_le(locs, j + 1);
    lemma_expand_take_succ(locs, j);
    let upto = expand_locs(locs.take(j)).len() + k;
    assert(expand_locs(locs.take(j + 1))[upto] == (locs[j].line, k == 0));
    lemma_expand_prefix_agrees(locs, j + 1, upto);
}

/// A prefix of the table expands to a prefix of the expansion.
pub proof fn lemma_expand_prefix_le(locs: Seq<CodeLocation>, j: int)
    requires
        0 <= j <= locs.len(),
    ensures
        expand_locs(locs.take(j)).len() <= expand_locs(locs).len(),
    decreases locs.len() - j,
{
    if j < locs.len() {
        lemma_expand_take_succ(locs, j);
        lemma_expand_prefix_le(locs, j + 1);
    } else {
        lemma_expand_take_all(locs);
    }
}

/// The expansion of a prefix agrees with the full expansion entrywise.
pub proof fn lemma_expand_prefix_agrees(locs: Seq<CodeLocation>, j: int, i: int)
    requires
        0 <= j <= locs.len(),
        0 <= i < expand_locs(locs.take(j)).len(),
    ensures
        i < expand_locs(locs).len(),
        expand_locs(locs)[i] == expand_locs(locs.take(j))[i],
    decreases locs.len() - j,
{
    if j < locs.len() {
        lemma_expand_take_succ(locs, j);
        lemma_expand_prefix_agrees(locs, j + 1, i);
    } else {
        lemma_expand_take_all(locs);
    }
}

/// The line table that results from appending `n` instructions all carrying
/// one source line to an empty chunk.
pub open spec fn same_line_table(n: nat, line: u16) -> Seq<CodeLocation>
    decreases n,
{
    if n == 0 {
        Seq::empty()
    } else {
        push_loc(same_line_table((n - 1) as nat, line), line)
    }
}

/// Law: appending instructions that all share one source line fills a single
/// run up to the run-length bound, then rolls over to a new run of the same
/// line with a fresh counter. Every run names that line, every run but the
/// last is full, and the run lengths sum to the instruction count.
pub proof fn lemma_same_line_runs(n: nat, line: u16)
    ensures
        locs_counts_ok(same_line_table(n, line)),
        expand_locs(same_line_table(n, line)).len() == n,
        n == 0 ==> same_line_table(n, line).len() == 0,
        n > 0 ==> same_line_table(n, line).len() >= 1,
        forall|i: int|
            0 <= i < same_line_table(n, line).len() ==> (#[trigger] same_line_table(n, line)[i]).line
                == line,
        forall|i: int|
            0 <= i < same_line_table(n, line).len() - 1 ==> (#[trigger] same_line_table(
                n,
                line,
            )[i]).op_count == 255,
    decreases n,
{
    if n == 0 {
        assert(expand_locs(same_line_table(n, line)) =~= Seq::<(u16, bool)>::empty());
    } else {
        lemma_same_line_runs((n - 1) as nat, line);
        let prev = same_line_table((n - 1) as nat, line);
        let curr = same_line_table(n, line);
        lemma_push_loc_expand(prev, line);
        if push_starts_run(prev, line) {
            assert forall|i: int| 0 <= i < curr.len() - 1 implies (#[trigger] curr[i]).op_count
                == 255 by {
                assert(curr[i] == prev[i]);
                if i == prev.len() - 1 {
                    assert(prev.last().op_count == 255);
                }
            }
        } else {
            assert forall|i: int| 0 <= i < curr.len() - 1 implies (#[trigger] curr[i]).op_count
                == 255 by {
                assert(curr[i] == prev[i]);
            }
        }
    }
}

/// Law: in a well-formed chunk the run lengths of the line table sum to the
/// instruction count — its expansion holds exactly one entry per
/// instruction.
pub proof fn lemma_line_table_covers_code(c: &Chunk)
    requires
        c.wf(),
    ensures
        expand_locs(c.spec_locs()).len() == c.spec_code().len(),
{
}

/// Law: a fresh traversal yields exactly the chunk's instruction sequence in
/// append order, so two independent traversals of one chunk yield the same
/// sequence.
pub proof fn lemma_op_iter_restartable(c: &Chunk, it1: OpIter, it2: OpIter)
    requires
        it1.spec_ops() == c.spec_code(),
        it1.spec_pos() == 0,
        it2.spec_ops() == c.spec_code(),
        it2.spec_pos() == 0,
    ensures
        it1.remaining() == c.spec_code(),
        it2.remaining() == c.spec_code(),
        it1.remaining() == it2.remaining(),
{
    assert(it1.remaining() =~= c.spec_code());
    assert(it2.remaining() =~= c.spec_code());
}

/// One unit of compiled code: instruction sequence, constant pool, and
/// compressed line table.
pub struct Chunk {
    code: Vec<OpCode>,
    constants: Vec<Typed>,
    loc: Vec<CodeLocation>,
}

impl Chunk {
    /// The instruction sequence, in append order.
    pub closed spec fn spec_code(&self) -> Seq<OpCode> {
        self.code@
    }

    /// The constant pool, in append order.
    pub closed spec fn spec_constants(&self) -> Seq<Typed> {
        self.constants@
    }

    /// The compressed line table, in emission order.
    pub closed spec fn spec_locs(&self) -> Seq<CodeLocation> {
        self.loc@
    }

    /// Well-formedness: every run covers at least one instruction, and the
    /// run lengths sum to the instruction count (stated through the
    /// expansion, which has one entry per covered instruction).
    pub open spec fn wf(&self) -> bool {
        locs_counts_ok(self.spec_locs()) && expand_locs(self.spec_locs()).len()
            == self.spec_code().len()
    }

    /// Appends `op`, recording that it originates from source line `line`:
    /// the last run of the line table is extended when it is for the same
    /// line and below the run-length bound, and a new run starts otherwise.
    pub fn push_op(&mut self, op: OpCode, line: u16)
        ensures
            final(self).spec_code() == old(self).spec_code().push(op),
            final(self).spec_constants() == old(self).spec_constants(),
            final(self).spec_locs() == push_loc(old(self).spec_locs(), line),
            old(self).wf() ==> final(self).wf(),
            old(self).wf() ==> expand_locs(final(self).spec_locs()) == expand_locs(
                old(self).spec_locs(),
            ).push((line, push_starts_run(old(self).spec_locs(), line))),
    {
        let n = self.loc.len();
        let mut extend = false;
        if n > 0 {
            let last = self.loc[n - 1];
            if last.line == line && last.op_count < 255 {
                extend = true;
                let mut grown = last;
                grown.inc();
                self.loc[n - 1] = grown;
            }
        }
        if !extend {
            self.loc.push(CodeLocation::new(line));
        }
        self.code.push(op);
        proof {
            if old(self).wf() {
                lemma_push_loc_expand(old(self).spec_locs(), line);
            }
        }
    }

    /// Appends `value` to the constant pool, then appends a `Constant`
    /// instruction referencing it; the index is the pool's previous length.
    pub fn push_constant_op(&mut self, constant: Typed, line: u16)
        ensures
            final(self).spec_constants() == old(self).spec_constants().push(constant),
            final(self).spec_code() == old(self).spec_code().push(
                OpCode::Constant(old(self).spec_constants().len() as usize),
            ),
            final(self).spec_locs() == push_loc(old(self).spec_locs(), line),
            old(self).wf() ==> final(self).wf(),
            old(self).wf() ==> expand_locs(final(self).spec_locs()) == expand_locs(
                old(self).spec_locs(),
            ).push((line, push_starts_run(old(self).spec_locs(), line))),
    {
        self.constants.push(constant);
        let idx = self.constants.len() - 1;
        self.push_op(OpCode::Constant(idx), line);
    }

    /// How many instructions the chunk holds.
    pub fn code_len(&self) -> (n: usize)
        ensures
            n == self.spec_code().len(),
    {
        self.code.len()
    }

    /// How many constants the pool holds.
    pub fn constants_len(&self) -> (n: usize)
        ensures
            n == self.spec_constants().len(),
    {
        self.constants.len()
    }

    /// The instruction at `pc`; the caller keeps the position in range.
    pub fn op_at(&self, pc: usize) -> (op: OpCode)
        requires
            pc < self.spec_code().len(),
        ensures
            op == self.spec_code()[pc as int],
    {
        self.code[pc]
    }

    /// The constant at `addr`; the caller keeps the index in range.
    pub fn get_const(&self, addr: usize) -> (c: &Typed)
        requires
            addr < self.spec_constants().len(),
        ensures
            *c == self.spec_constants()[addr as int],
    {
        &self.constants[addr]
    }

    /// A fresh front-to-back traversal of the instruction sequence.
    pub fn op_iter(&self) -> (it: OpIter)
        ensures
            it.spec_ops() == self.spec_code(),
            it.spec_pos() == 0,
    {
        OpIter::new(&self.code)
    }
}

impl Default for Chunk {
    /// An empty chunk: no instructions, no constants, an empty line table.
    fn default() -> (c: Chunk)
        ensures
            c.spec_code() == Seq::<OpCode>::empty(),
            c.spec_constants() == Seq::<Typed>::empty(),
            c.spec_locs() == Seq::<CodeLocation>::empty(),
            c.wf(),
    {
        let c = Chunk { code: Vec::new(), constants: Vec::new(), loc: Vec::new() };
        proof {
            assert(expand_locs(c.spec_locs()) =~= Seq::<(u16, bool)>::empty());
        }
        c
    }
}

/// A restartable front-to-back traversal over a chunk's instructions.
pub struct OpIter {
    op_index: usize,
    code: Vec<OpCode>,
}

impl OpIter {
    /// The instruction sequence the traversal walks.
    pub closed spec fn spec_ops(&self) -> Seq<OpCode> {
        self.code@
    }

    /// How many instructions have been yielded so far.
    pub closed spec fn spec_pos(&self) -> int {
        self.op_index as int
    }

    /// The instructions the traversal has yet to yield.
    pub open spec fn remaining(&self) -> Seq<OpCode> {
        self.spec_ops().skip(self.spec_pos())
    }

    fn new(code: &Vec<OpCode>) -> (it: OpIter)
        ensures
            it.spec_ops() == code@,
            it.spec_pos() == 0,
    {
        OpIter { op_index: 0, code: code.clone() }
    }

    /// Yields the next instruction, or `None` once the sequence is spent.
    pub fn next(&mut self) -> (r: Option<OpCode>)
        ensures
            final(self).spec_ops() == old(self).spec_ops(),
            old(self).spec_pos() < old(self).spec_ops().len() ==> {
                &&& r == Some(old(self).spec_ops()[old(self).spec_pos()])
                &&& final(self).spec_pos() == old(self).spec_pos() + 1
            },
            old(self).spec_pos() >= old(self).spec_ops().len() ==> {
                &&& r is None
                &&& final(self).spec_pos() == old(self).spec_pos()
            },
    {
        if self.code.len() <= self.op_index {
            None
        } else {
            let op_code = self.code[self.op_index];
            self.op_index = self.op_index + 1;
            Some(op_code)
        }
    }
}

/// A single-pass traversal pairing each instruction with its source line and
/// a flag marking the first instruction of a line-table run. It walks the
/// instruction sequence and the compressed line table in lockstep.
pub struct Disassembler {
    op_index: usize,
    loc_index: usize,
    loc_curr_count: u8,
    code: Vec<OpCode>,
    loc: Vec<CodeLocation>,
}

impl Disassembler {
    /// The instruction sequence being walked.
    pub closed spec fn spec_ops(&self) -> Seq<OpCode> {
        self.code@
    }

    /// The compressed line table being expanded.
    pub closed spec fn spec_locs(&self) -> Seq<CodeLocation> {
        self.loc@
    }

    /// How many instructions have been yielded so far.
    pub closed spec fn spec_pos(&self) -> int {
        self.op_index as int
    }

    /// The walk's internal consistency: the line-table cursor sits inside the
    /// table, the count of instructions already taken from the current run is
    /// below that run's length, and the instruction position equals the
    /// instructions covered by the runs already passed plus that count.
    pub closed spec fn wf(&self) -> bool {
        &&& locs_counts_ok(self.loc@)
        &&& expand_locs(self.loc@).len() == self.code@.len()
        &&& 0 <= self.loc_index <= self.loc@.len()
        &&& self.op_index as int == expand_locs(self.loc@.take(self.loc_index as int)).len()
            + self.loc_curr_count as int
        &&& if self.loc_index < self.loc@.len() {
            self.loc_curr_count < self.loc@[self.loc_index as int].op_count
        } else {
            self.loc_curr_count == 0
        }
    }

    /// A fresh traversal over `code` and its line table `loc`.
    pub fn new(code: &Vec<OpCode>, loc: &Vec<CodeLocation>) -> (d: Disassembler)
        requires
            locs_counts_ok(loc@),
            expand_locs(loc@).len() == code@.len(),
        ensures
            d.spec_ops() == code@,
            d.spec_locs() == loc@,
            d.spec_pos() == 0,
            d.wf(),
    {
        let d = Disassembler {
            op_index: 0,
            loc_index: 0,
            loc_curr_count: 0,
            code: code.clone(),
            loc: loc.clone(),
        };
        proof {
            assert(d.loc@.take(0) =~= Seq::<CodeLocation>::empty());
            assert(expand_locs(d.loc@.take(0)) =~= Seq::<(u16, bool)>::empty());
            if d.loc@.len() > 0 {
                assert(d.loc@[0].op_count >= 1);
            } else {
                lemma_expand_take_all(d.loc@);
            }
        }
        d
    }

    /// Yields the next instruction together with its source line and whether
    /// it is the first instruction of its line-table run, or `None` once the
    /// instruction sequence is spent.
    pub fn next(&mut self) -> (r: Option<(u16, bool, OpCode)>)
        requires
            old(self).wf(),
        ensures
            final(self).wf(),
            final(self).spec_ops() == old(self).spec_ops(),
            final(self).spec_locs() == old(self).spec_locs(),
            old(self).spec_pos() < old(self).spec_ops().len() ==> {
                &&& r == Some(
                    (
                        expand_locs(old(self).spec_locs())[old(self).spec_pos()].0,
                        expand_locs(old(self).spec_locs())[old(self).spec_pos()].1,
                        old(self).spec_ops()[old(self).spec_pos()],
                    ),
                )
                &&& final(self).spec_pos() == old(self).spec_pos() + 1
            },
            old(self).spec_pos() >= old(self).spec_ops().len() ==> {
                &&& r is None
                &&& final(self).spec_pos() == old(self).spec_pos()
            },
    {
        if self.code.len() <= self.op_index {
            return None;
        }
        proof {
            if self.loc_index as int == self.loc@.len() {
                lemma_expand_take_all(self.loc@);
                assert(false);
            }
            lemma_expand_index(self.loc@, self.loc_index as int, self.loc_curr_count as int);
        }
        let loc = self.loc[self.loc_index];
        let is_first = self.loc_curr_count == 0;
        let op_code = self.code[self.op_index];

        self.op_index = self.op_index + 1;
        self.loc_curr_count = self.loc_curr_count + 1;

        if self.loc_curr_count == loc.op_count {
            proof {
                lemma_expand_take_succ(self.loc@, self.loc_index as int);
                assert(self.loc_index < self.loc.len());
            }
            self.loc_index = self.loc_index + 1;
            self.loc_curr_count = 0;
            proof {
                if (self.loc_index as int) < self.loc@.len() {
                    assert(self.loc@[self.loc_index as int].op_count >= 1);
                }
            }
        }
        Some((loc.line, is_first, op_code))
    }
}

/// The four-character field opening a disassembly line: the right-aligned
/// line number for the first instruction of a run, a continuation marker
/// (`   |`) for the rest.
pub open spec fn spec_line_field(entry: (u16, bool)) -> Seq<char> {
    if entry.1 {
        pad4_left(dec_digits(entry.0 as nat), ' ')
    } else {
        "   |"@
    }
}

/// The first `n` rendered disassembly lines, one per instruction, where
/// `flat` is the expanded line table.
pub open spec fn spec_lines_upto(
    code: Seq<OpCode>,
    constants: Seq<Typed>,
    flat: Seq<(u16, bool)>,
    n: int,
) -> Seq<char>
    decreases n,
{
    if n <= 0 {
        Seq::empty()
    } else {
        spec_lines_upto(code, constants, flat, n - 1) + spec_op_line(
            code[n - 1],
            constants,
            spec_line_field(flat[n - 1]),
        )
    }
}

/// The complete disassembly text: the `== {name} ==` header, then one line
/// per instruction.
pub open spec fn spec_disassembly(
    code: Seq<OpCode>,
    constants: Seq<Typed>,
    locs: Seq<CodeLocation>,
    name: Seq<char>,
) -> Seq<char> {
    "== "@ + name + " ==\n"@ + spec_lines_upto(
        code,
        constants,
        expand_locs(locs),
        code.len() as int,
    )
}

impl Chunk {
    /// A fresh disassembler positioned at the chunk's first instruction.
    pub fn disassembler(&self) -> (d: Disassembler)
        requires
            self.wf(),
        ensures
            d.spec_ops() == self.spec_code(),
            d.spec_locs() == self.spec_locs(),
            d.spec_pos() == 0,
            d.wf(),
    {
        Disassembler::new(&self.code, &self.loc)
    }

    /// Renders the header line `== {name} ==` followed by one disassembled
    /// line per instruction.
    pub fn disassemble(&self, name: &str) -> (out: String)
        requires
            self.wf(),
            ops_in_range(self.spec_code(), self.spec_constants().len()),
        ensures
            out@ == spec_disassembly(
                self.spec_code(),
                self.spec_constants(),
                self.spec_locs(),
                name@,
            ),
    {
        let mut out = String::from_str("== ");
        out.append(name);
        out.append(" ==\n");
        let mut d = self.disassembler();
        let n = self.code.len();
        let mut i: usize = 0;
        while i < n
            invariant
                self.wf(),
                ops_in_range(self.spec_code(), self.spec_constants().len()),
                d.wf(),
                d.spec_ops() == self.spec_code(),
                d.spec_locs() == self.spec_locs(),
                d.spec_pos() == i as int,
                i <= n,
                n == self.spec_code().len(),
                out@ == "== "@ + name@ + " ==\n"@ + spec_lines_upto(
                    self.spec_code(),
                    self.spec_constants(),
                    expand_locs(self.spec_locs()),
                    i as int,
                ),
            decreases n - i,
        {
            let r = d.next();
            match r {
                Some((line, is_first, op)) => {
                    let prefix = if is_first {
                        dec_string_space4(line as u64)
                    } else {
                        String::from_str("   |")
                    };
                    let opline = op.disassemble(prefix, self.constants.as_slice());
                    out.append(opline.as_str());
                    i = i + 1;
                    proof {
                        assert(out@ =~= "== "@ + name@ + " ==\n"@ + spec_lines_upto(
                            self.spec_code(),
                            self.spec_constants(),
                            expand_locs(self.spec_locs()),
                            i as int,
                        ));
                    }
                },
                None => {
                    proof {
                        assert(false);
                    }
                },
            }
        }
        out
    }
}

} // verus!
