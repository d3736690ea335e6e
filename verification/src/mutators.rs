//! Mutators: operators that perturb a validated program while preserving
//! validity.
//!
//! Every mutator edits a scratch copy and revalidates it before replacing
//! the program, so a failed mutation leaves the program exactly as it was
//! and a successful one always hands back a program that validates. Each
//! mutator's contract pins down when it reports that no mutation is
//! available and the exact shape of a successful edit, whatever the
//! randomness decided.

use vstd::prelude::*;

use crate::operation::{op_eq, Operation};
use crate::program::{instr_eq, spec_validate, Instruction, Program};
use crate::rng::FuzzRng;

verus! {

/// Why a mutation produced nothing.
#[derive(Clone, Copy, Debug, PartialEq, Eq, Structural)]
pub enum MutatorError {
    /// The program offers no place for this mutation.
    NoMutationsAvailable,
    /// The edit broke validation and was discarded.
    CreatedInvalidProgram,
}

pub type MutatorResult = Result<(), MutatorError>;

/// An in-place program-editing operator. Either the mutation fails with a
/// declared error and the program is exactly unchanged, or the mutated
/// program validates.
pub trait Mutator<R: FuzzRng> {
    fn mutate(&mut self, program: &mut Program, rng: &mut R) -> (r: MutatorResult)
        ensures
            r is Err ==> *final(program) == *old(program),
            r is Ok ==> final(program).spec_valid(),
            final(program).context == old(program).context,
    ;

    /// Mutate the program, editing only at instruction indices at or above
    /// `min_index`: the instructions below it stand unchanged afterwards,
    /// so snapshot-aware mutation can leave a frozen prefix untouched.
    fn mutate_from(&mut self, program: &mut Program, rng: &mut R, min_index: usize) -> (r:
        MutatorResult)
        ensures
            r is Err ==> *final(program) == *old(program),
            r is Ok ==> final(program).spec_valid(),
            final(program).context == old(program).context,
            r is Ok ==> forall|k: int|
                0 <= k < min_index && k < old(program).instructions@.len() ==> k < final(program).instructions@.len()
                    && instr_eq(
                    #[trigger] final(program).instructions@[k],
                    old(program).instructions@[k],
                ),
    ;

    fn name(&self) -> (r: &'static str);
}

/// A mutator that splices an instruction range of a second program into the
/// first.
pub trait Splicer<R: FuzzRng>: Mutator<R> {
    fn splice(&mut self, program: &mut Program, splice_with: &Program, rng: &mut R) -> (r:
        MutatorResult)
        ensures
            r is Err ==> *final(program) == *old(program),
            r is Ok ==> final(program).spec_valid(),
            final(program).context == old(program).context,
    ;

    /// Splice, inserting only at or above `min_index`: the instructions
    /// below it stand unchanged afterwards.
    fn splice_from(
        &mut self,
        program: &mut Program,
        splice_with: &Program,
        rng: &mut R,
        min_index: usize,
    ) -> (r: MutatorResult)
        ensures
            r is Err ==> *final(program) == *old(program),
            r is Ok ==> final(program).spec_valid(),
            final(program).context == old(program).context,
            r is Ok ==> forall|k: int|
                0 <= k < min_index && k < old(program).instructions@.len() ==> k < final(program).instructions@.len()
                    && instr_eq(
                    #[trigger] final(program).instructions@[k],
                    old(program).instructions@[k],
                ),
    ;
}

/// `x`, saturated at the machine's index limit.
pub open spec fn sat_usize(x: int) -> int {
    if x <= usize::MAX {
        x
    } else {
        usize::MAX as int
    }
}

/// The total number of output slots (regular plus inner) the instructions
/// at indices below `n` allocate, as an unbounded integer. On a validated
/// program this is exactly the variable count at `n`.
pub open spec fn slots_upto(instructions: Seq<Instruction>, n: int) -> int
    decreases n,
{
    if n <= 0 {
        0
    } else {
        slots_upto(instructions, n - 1) + instructions[n - 1].operation.output_types().len()
            + instructions[n - 1].operation.inner_output_types().len()
    }
}

/// The saturating shift of one input index by `offset`.
pub open spec fn shifted_index(v: usize, offset: int) -> int {
    if v + offset <= usize::MAX {
        v + offset
    } else {
        usize::MAX as int
    }
}

/// `a` is `b` with every input index shifted up by `offset` (saturating)
/// and the operation kept.
pub open spec fn shifted_instr(a: Instruction, b: Instruction, offset: int) -> bool {
    &&& a.inputs@.len() == b.inputs@.len()
    &&& forall|j: int|
        0 <= j < b.inputs@.len() ==> (#[trigger] a.inputs@[j]) as int == shifted_index(
            b.inputs@[j],
            offset,
        )
    &&& op_eq(a.operation, b.operation)
}


/// `post` is `pre` with the input at `slot` of the instruction at `i`
/// rebound to some other variable index and nothing else changed, with
/// `min_index <= i`.
pub open spec fn input_rebound_at(
    pre: Seq<Instruction>,
    post: Seq<Instruction>,
    min_index: int,
    i: int,
    slot: int,
) -> bool {
    &&& min_index <= i < pre.len()
    &&& post.len() == pre.len()
    &&& 0 <= slot < pre[i].inputs@.len()
    &&& forall|k: int| 0 <= k < pre.len() && k != i ==> instr_eq(#[trigger] post[k], pre[k])
    &&& op_eq(post[i].operation, pre[i].operation)
    &&& post[i].inputs@.len() == pre[i].inputs@.len()
    &&& forall|j: int|
        0 <= j < pre[i].inputs@.len() && j != slot ==> #[trigger] post[i].inputs@[j]
            == pre[i].inputs@[j]
}

/// `post` is `pre` with the non-scope instruction at `i` replaced by a
/// `Nop` of matching output and inner-output counts, with `min_index <= i`.
pub open spec fn nop_swapped_at(
    pre: Seq<Instruction>,
    post: Seq<Instruction>,
    min_index: int,
    i: int,
) -> bool {
    &&& min_index <= i < pre.len()
    &&& post.len() == pre.len()
    &&& !pre[i].operation.spec_is_block_begin()
    &&& !pre[i].operation.spec_is_block_end()
    &&& forall|k: int| 0 <= k < pre.len() && k != i ==> instr_eq(#[trigger] post[k], pre[k])
    &&& post[i].inputs@.len() == 0
    &&& post[i].operation == (Operation::Nop {
        outputs: pre[i].operation.output_types().len() as usize,
        inner_outputs: pre[i].operation.inner_output_types().len() as usize,
    })
}

/// `post` is `pre` with the operation of the instruction at `i` swapped for
/// a different one of the same type signature, inputs kept, with
/// `min_index <= i`.
pub open spec fn operation_swapped_at(
    pre: Seq<Instruction>,
    post: Seq<Instruction>,
    min_index: int,
    i: int,
) -> bool {
    &&& min_index <= i < pre.len()
    &&& post.len() == pre.len()
    &&& forall|k: int| 0 <= k < pre.len() && k != i ==> instr_eq(#[trigger] post[k], pre[k])
    &&& post[i].inputs@ == pre[i].inputs@
    &&& !op_eq(post[i].operation, pre[i].operation)
    &&& post[i].operation.input_types() =~= pre[i].operation.input_types()
    &&& post[i].operation.output_types() =~= pre[i].operation.output_types()
    &&& post[i].operation.inner_output_types() =~= pre[i].operation.inner_output_types()
}

/// `post` is `pre` with the instructions of `src` at `start..=stop` copied
/// in at `at`, their inputs shifted by the slot count of `pre` at `at`,
/// with `min_index <= at`.
pub open spec fn range_spliced_at(
    pre: Seq<Instruction>,
    post: Seq<Instruction>,
    src: Seq<Instruction>,
    min_index: int,
    start: int,
    stop: int,
    at: int,
) -> bool {
    let w = stop - start + 1;
    &&& 0 <= start <= stop < src.len()
    &&& min_index <= at <= pre.len()
    &&& post.len() == pre.len() + w
    &&& forall|k: int| 0 <= k < at ==> instr_eq(#[trigger] post[k], pre[k])
    &&& forall|j: int|
        0 <= j < w ==> shifted_instr(
            #[trigger] post[at + j],
            src[start + j],
            sat_usize(slots_upto(pre, at)),
        )
    &&& forall|k: int| at <= k < pre.len() ==> instr_eq(#[trigger] post[k + w], pre[k])
}

/// Executable form of [`slots_upto`], saturating instead of overflowing.
fn slot_count(instructions: &Vec<Instruction>, upto: usize) -> (r: usize)
    requires
        upto <= instructions@.len(),
    ensures
        r as int == sat_usize(slots_upto(instructions@, upto as int)),
{
    let mut total: usize = 0;
    let mut i: usize = 0;
    while i < upto
        invariant
            i <= upto,
            upto <= instructions@.len(),
            total as int == sat_usize(slots_upto(instructions@, i as int)),
        decreases upto - i,
    {
        let op = &instructions[i].operation;
        let produced = op.num_outputs();
        let inner = op.num_inner_outputs();
        if total <= usize::MAX - produced {
            total = total + produced;
        } else {
            total = usize::MAX;
        }
        if total <= usize::MAX - inner {
            total = total + inner;
        } else {
            total = usize::MAX;
        }
        i = i + 1;
    }
    total
}

/// Rebinds one input of one instruction to another variable index and keeps
/// the edit only if the program still validates.
#[derive(Clone, Copy, Debug, Default)]
pub struct InputMutator;

impl InputMutator {
    fn mutate_at_least(&mut self, program: &mut Program, rng: &mut impl FuzzRng, min_index: usize) -> (r:
        MutatorResult)
        ensures
            r is Err ==> *final(program) == *old(program),
            r is Ok ==> final(program).spec_valid(),
            final(program).context == old(program).context,
            min_index >= old(program).instructions@.len() ==> r == Err::<(), MutatorError>(
                MutatorError::NoMutationsAvailable,
            ),
            r is Ok ==> exists|i: int, slot: int|
                input_rebound_at(
                    old(program).instructions@,
                    final(program).instructions@,
                    min_index as int,
                    i,
                    slot,
                ),
            r is Ok ==> forall|k: int|
                0 <= k < min_index && k < old(program).instructions@.len() ==> instr_eq(
                    #[trigger] final(program).instructions@[k],
                    old(program).instructions@[k],
                ),
    {
        let len = program.instructions.len();
        if min_index >= len {
            return Err(MutatorError::NoMutationsAvailable);
        }
        let i = rng.pick_range(min_index as u64, (len - 1) as u64) as usize;
        let num_inputs = program.instructions[i].inputs.len();
        if num_inputs == 0 {
            return Err(MutatorError::NoMutationsAvailable);
        }
        let slot = rng.pick_range(0, (num_inputs - 1) as u64) as usize;
        let bound = slot_count(&program.instructions, i);
        if bound == 0 {
            return Err(MutatorError::NoMutationsAvailable);
        }
        let new_var = rng.pick_range(0, (bound - 1) as u64) as usize;

        let mut candidate = program.clone();
        candidate.instructions[i].inputs[slot] = new_var;
        match candidate.validate() {
            Ok(()) => {
                let ghost gi = i as int;
                let ghost gslot = slot as int;
                *program = candidate;
                assert(input_rebound_at(
                    old(program).instructions@,
                    program.instructions@,
                    min_index as int,
                    gi,
                    gslot,
                ));
                Ok(())
            },
            Err(_) => Err(MutatorError::CreatedInvalidProgram),
        }
    }
}

impl<R: FuzzRng> Mutator<R> for InputMutator {
    fn mutate(&mut self, program: &mut Program, rng: &mut R) -> (r: MutatorResult) {
        self.mutate_at_least(program, rng, 0)
    }

    fn mutate_from(&mut self, program: &mut Program, rng: &mut R, min_index: usize) -> (r:
        MutatorResult) {
        self.mutate_at_least(program, rng, min_index)
    }

    fn name(&self) -> (r: &'static str) {
        "InputMutator"
    }
}

/// Deletes one instruction by replacing it with a `Nop` of matching output
/// and inner-output counts, so later variable indices stay stable during
/// minimization; scope operations are left alone, since removing a `Begin*`
/// or an `End*` alone would always unbalance the program.
#[derive(Clone, Copy, Debug, Default)]
pub struct NopMutator;

impl NopMutator {
    fn mutate_at_least(&mut self, program: &mut Program, rng: &mut impl FuzzRng, min_index: usize) -> (r:
        MutatorResult)
        ensures
            r is Err ==> *final(program) == *old(program),
            r is Ok ==> final(program).spec_valid(),
            final(program).context == old(program).context,
            min_index >= old(program).instructions@.len() ==> r == Err::<(), MutatorError>(
                MutatorError::NoMutationsAvailable,
            ),
            r is Ok ==> exists|i: int|
                nop_swapped_at(
                    old(program).instructions@,
                    final(program).instructions@,
                    min_index as int,
                    i,
                ),
            r is Ok ==> forall|k: int|
                0 <= k < min_index && k < old(program).instructions@.len() ==> instr_eq(
                    #[trigger] final(program).instructions@[k],
                    old(program).instructions@[k],
                ),
    {
        let len = program.instructions.len();
        if min_index >= len {
            return Err(MutatorError::NoMutationsAvailable);
        }
        let i = rng.pick_range(min_index as u64, (len - 1) as u64) as usize;
        let op = &program.instructions[i].operation;
        if op.is_block_begin() || op.is_block_end() {
            return Err(MutatorError::NoMutationsAvailable);
        }
        let outputs = op.num_outputs();
        let inner_outputs = op.num_inner_outputs();

        let mut candidate = program.clone();
        candidate.instructions[i] = Instruction {
            inputs: Vec::new(),
            operation: Operation::Nop { outputs, inner_outputs },
        };
        match candidate.validate() {
            Ok(()) => {
                let ghost gi = i as int;
                *program = candidate;
                assert(nop_swapped_at(
                    old(program).instructions@,
                    program.instructions@,
                    min_index as int,
                    gi,
                ));
                Ok(())
            },
            Err(_) => Err(MutatorError::CreatedInvalidProgram),
        }
    }
}

impl<R: FuzzRng> Mutator<R> for NopMutator {
    fn mutate(&mut self, program: &mut Program, rng: &mut R) -> (r: MutatorResult) {
        self.mutate_at_least(program, rng, 0)
    }

    fn mutate_from(&mut self, program: &mut Program, rng: &mut R, min_index: usize) -> (r:
        MutatorResult) {
        self.mutate_at_least(program, rng, min_index)
    }

    fn name(&self) -> (r: &'static str) {
        "NopMutator"
    }
}

/// The operation with the same type signature that can stand in for the
/// given one, where the vocabulary offers an alternative: the send and
/// inventory variants that differ only in witness handling, and the script
/// builders over the same inputs. An alternative is never the operation it
/// replaces and consumes and produces exactly the same kinds.
fn signature_alternative(op: &Operation, pick: u64) -> (r: Option<Operation>)
    ensures
        r matches Some(op2) ==> !op_eq(op2, *op) && op2.input_types() =~= op.input_types()
            && op2.output_types() =~= op.output_types() && op2.inner_output_types()
            =~= op.inner_output_types(),
{
    match op {
        Operation::SendTx => Some(Operation::SendTxNoWit),
        Operation::SendTxNoWit => Some(Operation::SendTx),
        Operation::SendBlock => Some(Operation::SendBlockNoWit),
        Operation::SendBlockNoWit => Some(Operation::SendBlock),
        Operation::SendGetData => Some(Operation::SendInv),
        Operation::SendInv => Some(Operation::SendGetData),
        Operation::SendGetCFilters => Some(Operation::SendGetCFHeaders),
        Operation::SendGetCFHeaders => Some(Operation::SendGetCFilters),
        Operation::AddTxidInv => Some(
            if pick % 2 == 0 {
                Operation::AddTxidWithWitnessInv
            } else {
                Operation::AddWtxidInv
            },
        ),
        Operation::AddTxidWithWitnessInv => Some(
            if pick % 2 == 0 {
                Operation::AddTxidInv
            } else {
                Operation::AddWtxidInv
            },
        ),
        Operation::AddWtxidInv => Some(
            if pick % 2 == 0 {
                Operation::AddTxidInv
            } else {
                Operation::AddTxidWithWitnessInv
            },
        ),
        Operation::AddBlockInv => Some(
            if pick % 2 == 0 {
                Operation::AddBlockWithWitnessInv
            } else {
                Operation::AddFilteredBlockInv
            },
        ),
        Operation::AddBlockWithWitnessInv => Some(
            if pick % 2 == 0 {
                Operation::AddBlockInv
            } else {
                Operation::AddFilteredBlockInv
            },
        ),
        Operation::AddFilteredBlockInv => Some(
            if pick % 2 == 0 {
                Operation::AddBlockInv
            } else {
                Operation::AddBlockWithWitnessInv
            },
        ),
        Operation::BuildPayToPubKey => Some(
            if pick % 2 == 0 {
                Operation::BuildPayToPubKeyHash
            } else {
                Operation::BuildPayToWitnessPubKeyHash
            },
        ),
        Operation::BuildPayToPubKeyHash => Some(
            if pick % 2 == 0 {
                Operation::BuildPayToPubKey
            } else {
                Operation::BuildPayToWitnessPubKeyHash
            },
        ),
        Operation::BuildPayToWitnessPubKeyHash => Some(
            if pick % 2 == 0 {
                Operation::BuildPayToPubKey
            } else {
                Operation::BuildPayToPubKeyHash
            },
        ),
        Operation::BuildPayToScriptHash => Some(Operation::BuildPayToWitnessScriptHash),
        Operation::BuildPayToWitnessScriptHash => Some(Operation::BuildPayToScriptHash),
        _ => None,
    }
}

/// Replaces one instruction's operation with a different operation of the
/// same arity and type signature, keeping the inputs, and keeps the edit
/// only if the program still validates.
#[derive(Clone, Copy, Debug, Default)]
pub struct OperationMutator;

impl OperationMutator {
    fn mutate_at_least(&mut self, program: &mut Program, rng: &mut impl FuzzRng, min_index: usize) -> (r:
        MutatorResult)
        ensures
            r is Err ==> *final(program) == *old(program),
            r is Ok ==> final(program).spec_valid(),
            final(program).context == old(program).context,
            min_index >= old(program).instructions@.len() ==> r == Err::<(), MutatorError>(
                MutatorError::NoMutationsAvailable,
            ),
            r is Ok ==> exists|i: int|
                operation_swapped_at(
                    old(program).instructions@,
                    final(program).instructions@,
                    min_index as int,
                    i,
                ),
            r is Ok ==> forall|k: int|
                0 <= k < min_index && k < old(program).instructions@.len() ==> instr_eq(
                    #[trigger] final(program).instructions@[k],
                    old(program).instructions@[k],
                ),
    {
        let len = program.instructions.len();
        if min_index >= len {
            return Err(MutatorError::NoMutationsAvailable);
        }
        let i = rng.pick_range(min_index as u64, (len - 1) as u64) as usize;
        let pick = rng.pick_range(0, 1);
        let replacement = match signature_alternative(&program.instructions[i].operation, pick) {
            Some(op) => op,
            None => {
                return Err(MutatorError::NoMutationsAvailable);
            },
        };

        let mut candidate = program.clone();
        let inputs = copy_inputs(&program.instructions[i].inputs);
        candidate.instructions[i] = Instruction { inputs, operation: replacement };
        match candidate.validate() {
            Ok(()) => {
                let ghost gi = i as int;
                *program = candidate;
                assert(operation_swapped_at(
                    old(program).instructions@,
                    program.instructions@,
                    min_index as int,
                    gi,
                ));
                Ok(())
            },
            Err(_) => Err(MutatorError::CreatedInvalidProgram),
        }
    }
}

/// A fresh vector with the same indices.
fn copy_inputs(v: &Vec<usize>) -> (r: Vec<usize>)
    ensures
        r@ == v@,
{
    let mut r: Vec<usize> = Vec::new();
    let mut i: usize = 0;
    while i < v.len()
        invariant
            i <= v@.len(),
            r@ =~= v@.take(i as int),
        decreases v@.len() - i,
    {
        r.push(v[i]);
        i = i + 1;
    }
    assert(r@ =~= v@);
    r
}

impl<R: FuzzRng> Mutator<R> for OperationMutator {
    fn mutate(&mut self, program: &mut Program, rng: &mut R) -> (r: MutatorResult) {
        self.mutate_at_least(program, rng, 0)
    }

    fn mutate_from(&mut self, program: &mut Program, rng: &mut R, min_index: usize) -> (r:
        MutatorResult) {
        self.mutate_at_least(program, rng, min_index)
    }

    fn name(&self) -> (r: &'static str) {
        "OperationMutator"
    }
}

/// Whether `s` is `a` followed by `b` with every copied input shifted up by
/// `offset`.
pub open spec fn is_concat_shifted(
    s: Seq<Instruction>,
    a: Seq<Instruction>,
    b: Seq<Instruction>,
    offset: int,
) -> bool {
    &&& s.len() == a.len() + b.len()
    &&& forall|k: int| 0 <= k < a.len() ==> instr_eq(#[trigger] s[k], a[k])
    &&& forall|j: int| 0 <= j < b.len() ==> shifted_instr(#[trigger] s[a.len() + j], b[j], offset)
}

/// Appends the body of a second program, rewriting its variable indices by
/// the first program's slot count, and keeps the result only if it
/// validates as a whole. Concatenation draws no randomness, so its whole
/// behaviour is fixed: it succeeds exactly when the combined program
/// validates.
#[derive(Clone, Copy, Debug, Default)]
pub struct ConcatMutator;

impl ConcatMutator {
    /// Concatenate `other` onto `program` behind the validation gate.
    pub fn concat(&mut self, program: &mut Program, other: &Program) -> (r: MutatorResult)
        ensures
            r is Err ==> *final(program) == *old(program),
            r is Ok ==> final(program).spec_valid(),
            final(program).context == old(program).context,
            ({
                let a = old(program).instructions@;
                let b = other.instructions@;
                let offset = sat_usize(slots_upto(a, a.len() as int));
                &&& r is Ok ==> is_concat_shifted(final(program).instructions@, a, b, offset)
                &&& r is Err ==> r == Err::<(), MutatorError>(MutatorError::CreatedInvalidProgram)
                    && forall|s: Seq<Instruction>|
                    #[trigger] is_concat_shifted(s, a, b, offset) ==> spec_validate(s) is Err
            }),
    {
        let ghost a = program.instructions@;
        let ghost b = other.instructions@;
        let offset = slot_count(&program.instructions, program.instructions.len());
        let mut candidate = program.clone();
        let mut k: usize = 0;
        while k < other.instructions.len()
            invariant
                k <= other.instructions@.len(),
                b == other.instructions@,
                a == old(program).instructions@,
                candidate.context == old(program).context,
                candidate.instructions@.len() == a.len() + k,
                forall|q: int|
                    0 <= q < a.len() ==> instr_eq(#[trigger] candidate.instructions@[q], a[q]),
                forall|j: int|
                    0 <= j < k ==> shifted_instr(
                        #[trigger] candidate.instructions@[a.len() + j],
                        b[j],
                        offset as int,
                    ),
            decreases other.instructions@.len() - k,
        {
            let instr = &other.instructions[k];
            let mut inputs: Vec<usize> = Vec::new();
            let mut j: usize = 0;
            while j < instr.inputs.len()
                invariant
                    j <= instr.inputs@.len(),
                    instr == other.instructions@[k as int],
                    inputs@.len() == j,
                    forall|q: int|
                        0 <= q < j ==> (#[trigger] inputs@[q]) as int == shifted_index(
                            instr.inputs@[q],
                            offset as int,
                        ),
                decreases instr.inputs@.len() - j,
            {
                let v = instr.inputs[j];
                if v <= usize::MAX - offset {
                    inputs.push(v + offset);
                } else {
                    inputs.push(usize::MAX);
                }
                j = j + 1;
            }
            candidate.instructions.push(
                Instruction { inputs, operation: instr.operation.clone() },
            );
            k = k + 1;
        }
        proof {
            assert(is_concat_shifted(candidate.instructions@, a, b, offset as int));
        }
        match candidate.validate() {
            Ok(()) => {
                *program = candidate;
                Ok(())
            },
            Err(_) => {
                proof {
                    assert forall|s: Seq<Instruction>|
                        #[trigger] is_concat_shifted(s, a, b, offset as int) implies spec_validate(
                        s,
                    ) is Err by {
                        lemma_concat_shifted_unique(s, candidate.instructions@, a, b, offset as int);
                        crate::program::lemma_instr_seq_eq_validate(s, candidate.instructions@);
                    }
                }
                Err(MutatorError::CreatedInvalidProgram)
            },
        }
    }
}

/// Two sequences matching the same shifted concatenation are pointwise
/// equal instructions.
proof fn lemma_concat_shifted_unique(
    s1: Seq<Instruction>,
    s2: Seq<Instruction>,
    a: Seq<Instruction>,
    b: Seq<Instruction>,
    offset: int,
)
    requires
        is_concat_shifted(s1, a, b, offset),
        is_concat_shifted(s2, a, b, offset),
    ensures
        s1.len() == s2.len(),
        forall|k: int| 0 <= k < s1.len() ==> instr_eq(#[trigger] s1[k], s2[k]),
{
    assert forall|k: int| 0 <= k < s1.len() implies instr_eq(#[trigger] s1[k], s2[k]) by {
        if k < a.len() {
            crate::operation::lemma_op_eq_sym(s2[k].operation, a[k].operation);
            crate::operation::lemma_op_eq_trans(s1[k].operation, a[k].operation, s2[k].operation);
        } else {
            let j = k - a.len();
            assert(shifted_instr(s1[a.len() + j], b[j], offset));
            assert(shifted_instr(s2[a.len() + j], b[j], offset));
            assert(s1[k].inputs@ =~= s2[k].inputs@);
            crate::operation::lemma_op_eq_sym(s2[k].operation, b[j].operation);
            crate::operation::lemma_op_eq_trans(s1[k].operation, b[j].operation, s2[k].operation);
        }
    }
}

impl<R: FuzzRng> Mutator<R> for ConcatMutator {
    // Concatenation needs a second program, which plain mutation does not
    // supply; as a bare mutator it offers nothing.
    fn mutate(&mut self, program: &mut Program, rng: &mut R) -> (r: MutatorResult) {
        Err(MutatorError::NoMutationsAvailable)
    }

    fn mutate_from(&mut self, program: &mut Program, rng: &mut R, min_index: usize) -> (r:
        MutatorResult) {
        Err(MutatorError::NoMutationsAvailable)
    }

    fn name(&self) -> (r: &'static str) {
        "ConcatMutator"
    }
}

impl<R: FuzzRng> Splicer<R> for ConcatMutator {
    fn splice(&mut self, program: &mut Program, splice_with: &Program, rng: &mut R) -> (r:
        MutatorResult) {
        self.concat(program, splice_with)
    }

    // The whole old program is kept in place, so any frozen prefix stands
    // unchanged whatever `min_index` asks.
    fn splice_from(
        &mut self,
        program: &mut Program,
        splice_with: &Program,
        rng: &mut R,
        min_index: usize,
    ) -> (r: MutatorResult) {
        self.concat(program, splice_with)
    }
}

/// Copies a random instruction range of another program into this one at a
/// random insertion point at or above `min_index`, shifting the copied
/// inputs by the slot count at the insertion point, and keeps the result
/// only if it validates.
#[derive(Clone, Copy, Debug, Default)]
pub struct SpliceMutator;

impl SpliceMutator {
    fn splice_at_least(
        &mut self,
        program: &mut Program,
        splice_with: &Program,
        rng: &mut impl FuzzRng,
        min_index: usize,
    ) -> (r: MutatorResult)
        ensures
            r is Err ==> *final(program) == *old(program),
            r is Ok ==> final(program).spec_valid(),
            final(program).context == old(program).context,
            r == Err::<(), MutatorError>(MutatorError::NoMutationsAvailable) <==> (
            splice_with.instructions@.len() == 0 || min_index > old(
                program,
            ).instructions@.len()),
            r is Ok ==> exists|start: int, stop: int, at: int|
                range_spliced_at(
                    old(program).instructions@,
                    final(program).instructions@,
                    splice_with.instructions@,
                    min_index as int,
                    start,
                    stop,
                    at,
                ),
    {
        let src_len = splice_with.instructions.len();
        let dst_len = program.instructions.len();
        if src_len == 0 || min_index > dst_len {
            return Err(MutatorError::NoMutationsAvailable);
        }
        let start = rng.pick_range(0, (src_len - 1) as u64) as usize;
        let stop = rng.pick_range(start as u64, (src_len - 1) as u64) as usize;
        assert(stop < src_len);
        let at = rng.pick_range(min_index as u64, dst_len as u64) as usize;
        let offset = slot_count(&program.instructions, at);
        let ghost pre = program.instructions@;

        let mut candidate = Program { context: program.context, instructions: Vec::new() };
        let mut k: usize = 0;
        while k < at
            invariant
                k <= at,
                at <= pre.len(),
                pre == program.instructions@,
                candidate.context == program.context,
                candidate.instructions@.len() == k,
                forall|q: int|
                    0 <= q < k ==> instr_eq(#[trigger] candidate.instructions@[q], pre[q]),
            decreases at - k,
        {
            candidate.instructions.push(program.instructions[k].clone());
            k = k + 1;
        }
        push_shifted_range(&mut candidate.instructions, splice_with, start, stop, offset);
        let mut k2: usize = at;
        while k2 < program.instructions.len()
            invariant
                at <= k2 <= pre.len(),
                pre == program.instructions@,
                start <= stop < splice_with.instructions@.len(),
                candidate.context == program.context,
                candidate.instructions@.len() == k2 + (stop - start) + 1,
                forall|q: int|
                    0 <= q < at ==> instr_eq(#[trigger] candidate.instructions@[q], pre[q]),
                forall|j: int|
                    0 <= j <= stop - start ==> shifted_instr(
                        #[trigger] candidate.instructions@[at + j],
                        splice_with.instructions@[start + j],
                        offset as int,
                    ),
                forall|q: int|
                    at <= q < k2 ==> instr_eq(
                        #[trigger] candidate.instructions@[q + (stop - start) + 1],
                        pre[q],
                    ),
            decreases pre.len() - k2,
        {
            candidate.instructions.push(program.instructions[k2].clone());
            k2 = k2 + 1;
        }
        match candidate.validate() {
            Ok(()) => {
                let ghost gstart = start as int;
                let ghost gstop = stop as int;
                let ghost gat = at as int;
                proof {
                    let post = candidate.instructions@;
                    let src = splice_with.instructions@;
                    let w = gstop - gstart + 1;
                    assert forall|j: int| 0 <= j < w implies shifted_instr(
                        #[trigger] post[gat + j],
                        src[gstart + j],
                        sat_usize(slots_upto(pre, gat)),
                    ) by {
                        assert(shifted_instr(post[at + j], src[start + j], offset as int));
                    }
                    assert forall|k: int| gat <= k < pre.len() implies instr_eq(
                        #[trigger] post[k + w],
                        pre[k],
                    ) by {
                        assert(instr_eq(post[k + (stop - start) + 1], pre[k]));
                    }
                    assert(range_spliced_at(pre, post, src, min_index as int, gstart, gstop, gat));
                }
                *program = candidate;
                Ok(())
            },
            Err(_) => Err(MutatorError::CreatedInvalidProgram),
        }
    }
}

/// Appends the instructions of `source` at indices `start..=stop` with all
/// inputs shifted by `offset` (saturating).
fn push_shifted_range(
    out: &mut Vec<Instruction>,
    source: &Program,
    start: usize,
    stop: usize,
    offset: usize,
)
    requires
        start <= stop < source.instructions@.len(),
        stop < usize::MAX,
    ensures
        final(out)@.len() == old(out)@.len() + (stop - start) + 1,
        forall|q: int| 0 <= q < old(out)@.len() ==> #[trigger] final(out)@[q] == old(out)@[q],
        forall|j: int|
            0 <= j <= stop - start ==> shifted_instr(
                #[trigger] final(out)@[old(out)@.len() + j],
                source.instructions@[start + j],
                offset as int,
            ),
{
    let base = out.len();
    let mut k = start;
    while k <= stop
        invariant
            start <= k <= stop + 1,
            stop < source.instructions@.len(),
            stop < usize::MAX,
            out@.len() == base + (k - start),
            base == old(out)@.len(),
            forall|q: int| 0 <= q < base ==> #[trigger] out@[q] == old(out)@[q],
            forall|j: int|
                0 <= j < k - start ==> shifted_instr(
                    #[trigger] out@[base + j],
                    source.instructions@[start + j],
                    offset as int,
                ),
        decreases stop + 1 - k,
    {
        let instr = &source.instructions[k];
        let mut inputs: Vec<usize> = Vec::new();
        let mut j: usize = 0;
        while j < instr.inputs.len()
            invariant
                j <= instr.inputs@.len(),
                instr == source.instructions@[k as int],
                inputs@.len() == j,
                forall|q: int|
                    0 <= q < j ==> (#[trigger] inputs@[q]) as int == shifted_index(
                        instr.inputs@[q],
                        offset as int,
                    ),
            decreases instr.inputs@.len() - j,
        {
            let v = instr.inputs[j];
            if v <= usize::MAX - offset {
                inputs.push(v + offset);
            } else {
                inputs.push(usize::MAX);
            }
            j = j + 1;
        }
        out.push(Instruction { inputs, operation: instr.operation.clone() });
        k = k + 1;
    }
}

impl<R: FuzzRng> Mutator<R> for SpliceMutator {
    // Splicing needs a second program, which plain mutation does not
    // supply; as a bare mutator it offers nothing.
    fn mutate(&mut self, program: &mut Program, rng: &mut R) -> (r: MutatorResult) {
        Err(MutatorError::NoMutationsAvailable)
    }

    fn mutate_from(&mut self, program: &mut Program, rng: &mut R, min_index: usize) -> (r:
        MutatorResult) {
        Err(MutatorError::NoMutationsAvailable)
    }

    fn name(&self) -> (r: &'static str) {
        "SpliceMutator"
    }
}

impl<R: FuzzRng> Splicer<R> for SpliceMutator {
    fn splice(&mut self, program: &mut Program, splice_with: &Program, rng: &mut R) -> (r:
        MutatorResult) {
        self.splice_at_least(program, splice_with, rng, 0)
    }

    fn splice_from(
        &mut self,
        program: &mut Program,
        splice_with: &Program,
        rng: &mut R,
        min_index: usize,
    ) -> (r: MutatorResult) {
        self.splice_at_least(program, splice_with, rng, min_index)
    }
}

} // verus!
