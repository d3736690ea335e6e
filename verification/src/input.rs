//! The fuzzing input: an IR program plus the frozen-prefix mark used by the
//! incremental snapshot stage.

use vstd::prelude::*;

use crate::codec::{compile, program_encoding, MAX_COMPILED_SIZE};
use crate::operation::Operation;
use crate::program::{instr_eq, program_eq, Instruction, Program};

verus! {

/// `q` is `p` with one synthetic `IncrementalSnapshot` instruction spliced
/// in at `prefix` (clamped to the length), or simply equal to `p` when no
/// prefix is frozen.
pub open spec fn snapshot_spliced(q: Program, p: Program, prefix: Option<usize>) -> bool {
    match prefix {
        None => program_eq(q, p),
        Some(l) => {
            let instrs = p.instructions@;
            let pos: int = if l as int > instrs.len() {
                instrs.len() as int
            } else {
                l as int
            };
            &&& q.context == p.context
            &&& q.instructions@.len() == instrs.len() + 1
            &&& forall|k: int| 0 <= k < pos ==> instr_eq(#[trigger] q.instructions@[k], instrs[k])
            &&& q.instructions@[pos].operation == Operation::IncrementalSnapshot
            &&& q.instructions@[pos].inputs@.len() == 0
            &&& forall|k: int|
                pos <= k < instrs.len() ==> instr_eq(#[trigger] q.instructions@[k + 1], instrs[k])
        },
    }
}

/// A corpus entry as the fuzzer handles it. While the snapshot stage reuses
/// a frozen prefix, `frozen_prefix_len` carries the instruction count of
/// that prefix; compilation for execution then splices a single synthetic
/// `IncrementalSnapshot` operation in at that position.
#[derive(Debug)]
pub struct IrInput {
    pub ir: Program,
    /// Program position where the incremental snapshot is taken, if one is
    /// active.
    pub frozen_prefix_len: Option<usize>,
}

impl IrInput {
    /// The wrapped program.
    pub open spec fn spec_ir(self) -> Program {
        self.ir
    }

    pub fn new(ir: Program) -> (r: IrInput)
        ensures
            r.spec_ir() == ir,
            r.frozen_prefix_len is None,
    {
        IrInput { ir, frozen_prefix_len: None }
    }

    pub fn ir(&self) -> (r: &Program)
        ensures
            *r == self.spec_ir(),
    {
        &self.ir
    }

    pub fn ir_mut(&mut self) -> (r: &mut Program)
        ensures
            *r == old(self).spec_ir(),
            final(self).spec_ir() == *final(r),
            final(self).frozen_prefix_len == old(self).frozen_prefix_len,
    {
        &mut self.ir
    }

    /// The number of instructions of the wrapped program.
    pub fn len(&self) -> (r: usize)
        ensures
            r == self.spec_ir().instructions@.len(),
    {
        self.ir.instructions.len()
    }

    /// The program as the executor must see it: unchanged without a frozen
    /// prefix; otherwise with one synthetic `IncrementalSnapshot` operation
    /// spliced in at the frozen position (clamped to the program length).
    /// This is the only point where the target is told to take the in-VM
    /// snapshot.
    pub fn insert_snapshot(&self) -> (r: Program)
        ensures
            snapshot_spliced(r, self.spec_ir(), self.frozen_prefix_len),
    {
        match self.frozen_prefix_len {
            None => self.ir.clone(),
            Some(prefix_len) => {
                let mut program = self.ir.clone();
                let insert_pos = if prefix_len < program.instructions.len() {
                    prefix_len
                } else {
                    program.instructions.len()
                };
                let snapshot_instr = Instruction {
                    inputs: Vec::new(),
                    operation: Operation::IncrementalSnapshot,
                };
                program.instructions.insert(insert_pos, snapshot_instr);
                program
            },
        }
    }

    /// The bytes handed to the executor: the program with the snapshot
    /// marker spliced in, compiled to the byte form, or empty when the
    /// compiled form would exceed the size budget.
    pub fn target_bytes(&self) -> (r: Vec<u8>)
        ensures
            exists|q: Program|
                #[trigger] snapshot_spliced(q, self.spec_ir(), self.frozen_prefix_len) && r@ == (
                if program_encoding(q).len() > MAX_COMPILED_SIZE {
                    Seq::<u8>::empty()
                } else {
                    program_encoding(q)
                }),
    {
        let program = self.insert_snapshot();
        let r = compile(&program);
        proof {
            assert(snapshot_spliced(program, self.spec_ir(), self.frozen_prefix_len) && r@ == (
            if program_encoding(program).len() > MAX_COMPILED_SIZE {
                Seq::<u8>::empty()
            } else {
                program_encoding(program)
            }));
        }
        r
    }
}

} // verus!
