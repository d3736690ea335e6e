//! Programs, instructions and the validator.
//!
//! A program is an ordered list of instructions plus a context. Each
//! instruction names the positional outputs of earlier instructions by
//! variable index. The validator walks the instructions once, tracking the
//! kind and scope status of every variable slot and a stack of open scopes,
//! and rejects any program that breaks the typing or scoping rules.

use vstd::prelude::*;

use crate::operation::{Operation, ScopeKind};
use crate::variable::Variable;

verus! {

/// One IR instruction: an operation plus the variable indices it consumes.
#[derive(Debug)]
pub struct Instruction {
    pub inputs: Vec<usize>,
    pub operation: Operation,
}

/// Program-wide facts the generators need; most importantly the number of
/// nodes the target exposes (`LoadNode` indices are drawn below it).
#[derive(Clone, Copy, Debug, PartialEq, Eq, Structural)]
pub struct Context {
    pub num_nodes: usize,
}

/// A full fuzz program: a context plus an ordered instruction list.
#[derive(Debug)]
pub struct Program {
    pub context: Context,
    pub instructions: Vec<Instruction>,
}

/// The closed set of validation failures.
#[derive(Clone, Copy, Debug, PartialEq, Eq, Structural)]
pub enum ProgramValidationError {
    InvalidNumberOfInputs { is: usize, expected: usize },
    InvalidVariableType { is: Variable, expected: Variable },
    UseOfOutOfScopeVariable,
    UnmatchedBlockEnd,
    UnterminatedBlock,
    UnknownVariable,
}

/// What the validator knows about one variable slot: its kind, and whether
/// the slot is currently visible to new instructions.
#[derive(Clone, Copy, Debug, PartialEq, Eq, Structural)]
pub struct VarState {
    pub kind: Variable,
    pub in_scope: bool,
}

/// One open scope: the kind of its `Begin*` and the contiguous range of
/// inner-output slots it exposed, which the matching `End*` takes back out
/// of scope.
#[derive(Clone, Copy, Debug, PartialEq, Eq, Structural)]
pub struct ScopeFrame {
    pub kind: ScopeKind,
    pub inner_start: usize,
    pub inner_count: usize,
}

/// The validator's whole state after some prefix of the program: every
/// variable slot allocated so far and the stack of open scopes.
pub struct VState {
    pub vars: Seq<VarState>,
    pub frames: Seq<ScopeFrame>,
}

/// The first `UnknownVariable` / `UseOfOutOfScopeVariable` failure among the
/// inputs at positions `j..`, if any.
pub open spec fn resolve_error_from(
    vars: Seq<VarState>,
    inputs: Seq<usize>,
    j: int,
) -> Option<ProgramValidationError>
    decreases inputs.len() - j,
{
    if j < 0 || j >= inputs.len() {
        None
    } else {
        let idx = inputs[j];
        if idx >= vars.len() {
            Some(ProgramValidationError::UnknownVariable)
        } else if !vars[idx as int].in_scope {
            Some(ProgramValidationError::UseOfOutOfScopeVariable)
        } else {
            resolve_error_from(vars, inputs, j + 1)
        }
    }
}

/// The kinds the input indices resolve to.
pub open spec fn kinds_of(vars: Seq<VarState>, inputs: Seq<usize>) -> Seq<Variable> {
    inputs.map(|j: int, idx: usize| vars[idx as int].kind)
}

/// The first kind mismatch against the formal input types at positions
/// `j..`, if any. Meaningful once the lengths agree.
pub open spec fn type_error_from(
    got: Seq<Variable>,
    expected: Seq<Variable>,
    j: int,
) -> Option<ProgramValidationError>
    decreases got.len() - j,
{
    if j < 0 || j >= got.len() || got.len() != expected.len() {
        None
    } else if got[j] != expected[j] {
        Some(ProgramValidationError::InvalidVariableType { is: got[j], expected: expected[j] })
    } else {
        type_error_from(got, expected, j + 1)
    }
}

/// The first failure among an instruction's input checks: unknown or
/// out-of-scope indices (in input order), then the input count, then the
/// kinds (in input order).
pub open spec fn input_error(
    vars: Seq<VarState>,
    instr: Instruction,
) -> Option<ProgramValidationError> {
    let inputs = instr.inputs@;
    let expected = instr.operation.input_types();
    match resolve_error_from(vars, inputs, 0) {
        Some(e) => Some(e),
        None => {
            if inputs.len() != expected.len() {
                Some(ProgramValidationError::InvalidNumberOfInputs {
                    is: inputs.len() as usize,
                    expected: expected.len() as usize,
                })
            } else {
                type_error_from(kinds_of(vars, inputs), expected, 0)
            }
        },
    }
}

/// `vars` with the first `d` slots of `frame`'s inner-output range marked
/// out of scope.
pub open spec fn descope_upto(vars: Seq<VarState>, frame: ScopeFrame, d: int) -> Seq<VarState> {
    Seq::new(
        vars.len(),
        |i: int|
            if frame.inner_start <= i < frame.inner_start + d {
                VarState { kind: vars[i].kind, in_scope: false }
            } else {
                vars[i]
            },
    )
}

/// `vars` with the slots of `frame`'s inner-output range marked out of
/// scope.
pub open spec fn descope(vars: Seq<VarState>, frame: ScopeFrame) -> Seq<VarState> {
    descope_upto(vars, frame, frame.inner_count as int)
}

/// `vars` extended with one fresh in-scope slot per kind in `kinds`.
pub open spec fn append_vars(vars: Seq<VarState>, kinds: Seq<Variable>) -> Seq<VarState> {
    vars + kinds.map(|j: int, k: Variable| VarState { kind: k, in_scope: true })
}

/// One validation step: check the instruction against the current state and
/// either report the first failure or produce the next state.
///
/// Every operation allocates its regular outputs followed by its
/// inner-outputs as fresh in-scope slots. A `Begin*` additionally pushes a
/// scope frame over its inner-output range; an `End*` first requires a
/// matching frame on top of the stack, pops it, and takes that frame's
/// inner-outputs out of scope.
pub open spec fn step(st: VState, instr: Instruction) -> Result<VState, ProgramValidationError> {
    match input_error(st.vars, instr) {
        Some(e) => Err(e),
        None => {
            let op = instr.operation;
            let fresh = op.output_types() + op.inner_output_types();
            if op.spec_is_block_end() {
                if st.frames.len() == 0 {
                    Err(ProgramValidationError::UnmatchedBlockEnd)
                } else {
                    let top = st.frames.last();
                    if op.end_kind() != Some(top.kind) {
                        Err(ProgramValidationError::UnmatchedBlockEnd)
                    } else {
                        Ok(
                            VState {
                                vars: append_vars(descope(st.vars, top), fresh),
                                frames: st.frames.drop_last(),
                            },
                        )
                    }
                }
            } else {
                let frames = if op.spec_is_block_begin() {
                    st.frames.push(
                        ScopeFrame {
                            kind: op.begin_kind()->Some_0,
                            inner_start: (st.vars.len() + op.output_types().len()) as usize,
                            inner_count: op.inner_output_types().len() as usize,
                        },
                    )
                } else {
                    st.frames
                };
                Ok(VState { vars: append_vars(st.vars, fresh), frames })
            }
        },
    }
}

/// The validator state after the first `n` instructions, or the first
/// failure among them.
pub open spec fn run(instrs: Seq<Instruction>, n: int) -> Result<VState, ProgramValidationError>
    decreases n,
{
    if n <= 0 {
        Ok(VState { vars: Seq::empty(), frames: Seq::empty() })
    } else {
        match run(instrs, n - 1) {
            Err(e) => Err(e),
            Ok(st) => step(st, instrs[n - 1]),
        }
    }
}

/// Whole-program validation: every step must succeed and the scope stack
/// must be empty at the end.
pub open spec fn spec_validate(instrs: Seq<Instruction>) -> Result<(), ProgramValidationError> {
    match run(instrs, instrs.len() as int) {
        Err(e) => Err(e),
        Ok(st) => if st.frames.len() == 0 {
            Ok(())
        } else {
            Err(ProgramValidationError::UnterminatedBlock)
        },
    }
}

/// Executable form of one validation step, shared by the whole-program
/// validator and the builder. Mutates the state exactly on success.
pub fn exec_step(
    vars: &mut Vec<VarState>,
    frames: &mut Vec<ScopeFrame>,
    instr: &Instruction,
) -> (r: Result<(), ProgramValidationError>)
    ensures
        ({
            let st = VState { vars: old(vars)@, frames: old(frames)@ };
            match step(st, *instr) {
                Ok(st2) => r is Ok && final(vars)@ == st2.vars && final(frames)@ == st2.frames,
                Err(e) => r == Err::<(), ProgramValidationError>(e) && final(vars)@ == old(vars)@
                    && final(frames)@ == old(frames)@,
            }
        }),
{
    let ghost st0 = VState { vars: vars@, frames: frames@ };
    // Resolve every input index, collecting the kinds.
    let mut got: Vec<Variable> = Vec::new();
    let mut j: usize = 0;
    while j < instr.inputs.len()
        invariant
            j <= instr.inputs.len(),
            resolve_error_from(vars@, instr.inputs@, j as int) == resolve_error_from(
                st0.vars,
                instr.inputs@,
                0,
            ),
            got@ =~= kinds_of(vars@, instr.inputs@).take(j as int),
            vars@ == st0.vars,
            frames@ == st0.frames,
        decreases instr.inputs.len() - j,
    {
        let idx = instr.inputs[j];
        if idx >= vars.len() {
            return Err(ProgramValidationError::UnknownVariable);
        }
        let vs = vars[idx];
        if !vs.in_scope {
            return Err(ProgramValidationError::UseOfOutOfScopeVariable);
        }
        got.push(vs.kind);
        j = j + 1;
    }
    assert(resolve_error_from(st0.vars, instr.inputs@, 0) is None);
    assert(got@ =~= kinds_of(st0.vars, instr.inputs@));

    // Check the input count and the kinds.
    let expected = instr.operation.get_input_variables();
    if got.len() != expected.len() {
        return Err(
            ProgramValidationError::InvalidNumberOfInputs {
                is: got.len(),
                expected: expected.len(),
            },
        );
    }
    let mut k: usize = 0;
    while k < got.len()
        invariant
            k <= got.len(),
            resolve_error_from(st0.vars, instr.inputs@, 0) is None,
            got@ == kinds_of(st0.vars, instr.inputs@),
            expected@ == instr.operation.input_types(),
            got@.len() == expected@.len(),
            type_error_from(got@, expected@, k as int) == type_error_from(got@, expected@, 0),
            vars@ == st0.vars,
            frames@ == st0.frames,
        decreases got.len() - k,
    {
        if !(got[k] == expected[k]) {
            return Err(
                ProgramValidationError::InvalidVariableType { is: got[k], expected: expected[k] },
            );
        }
        k = k + 1;
    }
    assert(input_error(st0.vars, *instr) is None);

    // Scope effects.
    let op = &instr.operation;
    let is_end = op.is_block_end();
    if is_end {
        let end_kind = op.end_scope_kind();
        if frames.len() == 0 {
            return Err(ProgramValidationError::UnmatchedBlockEnd);
        }
        let top = frames[frames.len() - 1];
        let kinds_match = match end_kind {
            Some(a) => a == top.kind,
            None => false,
        };
        if !kinds_match {
            assert(op.end_kind() != Some(top.kind));
            return Err(ProgramValidationError::UnmatchedBlockEnd);
        }
        frames.pop();
        // Take the frame's inner-outputs out of scope. The range of a frame
        // reached through validation always lies inside the allocated
        // slots, but the step relation does not require that: positions
        // past the end are simply left alone.
        let mut d: usize = 0;
        while d < top.inner_count
            invariant
                d <= top.inner_count,
                vars@ =~= descope_upto(st0.vars, top, d as int),
            decreases top.inner_count - d,
        {
            if top.inner_start < vars.len() && d < vars.len() - top.inner_start {
                let pos = top.inner_start + d;
                let kind = vars[pos].kind;
                vars[pos] = VarState { kind, in_scope: false };
            }
            assert(vars@ =~= descope_upto(st0.vars, top, d as int + 1));
            d = d + 1;
        }
        assert(vars@ =~= descope(st0.vars, top));
    }

    // Allocate the regular outputs as fresh in-scope slots.
    let ghost mid_vars = vars@;
    let outs = op.get_output_variables();
    let inners = op.get_inner_output_variables();
    let mut a: usize = 0;
    while a < outs.len()
        invariant
            a <= outs.len(),
            outs@ == op.output_types(),
            vars@ =~= append_vars(mid_vars, outs@.take(a as int)),
        decreases outs.len() - a,
    {
        vars.push(VarState { kind: outs[a], in_scope: true });
        assert(vars@ =~= append_vars(mid_vars, outs@.take(a as int)).push(
            VarState { kind: outs@[a as int], in_scope: true },
        ));
        assert(vars@ =~= append_vars(mid_vars, outs@.take(a as int + 1)));
        a = a + 1;
    }
    assert(vars@ =~= append_vars(mid_vars, op.output_types()));

    // A Begin pushes its scope frame; the inner-output range starts right
    // after the regular outputs, i.e. at the current allocation point.
    if !is_end {
        match op.begin_scope_kind() {
            Some(kind) => {
                let inner_count = op.num_inner_outputs();
                let inner_start = vars.len();
                assert(inner_start == st0.vars.len() + op.output_types().len());
                frames.push(ScopeFrame { kind, inner_start, inner_count });
            },
            None => {},
        }
    }

    // Allocate the inner outputs as fresh in-scope slots.
    let mut b: usize = 0;
    while b < inners.len()
        invariant
            b <= inners.len(),
            inners@ == op.inner_output_types(),
            vars@ =~= append_vars(mid_vars, op.output_types() + inners@.take(b as int)),
        decreases inners.len() - b,
    {
        vars.push(VarState { kind: inners[b], in_scope: true });
        assert(vars@ =~= append_vars(mid_vars, op.output_types() + inners@.take(b as int)).push(
            VarState { kind: inners@[b as int], in_scope: true },
        ));
        assert(vars@ =~= append_vars(mid_vars, op.output_types() + inners@.take(b as int + 1)));
        b = b + 1;
    }
    assert(vars@ =~= append_vars(mid_vars, op.output_types() + op.inner_output_types()));
    Ok(())
}

impl Operation {
    /// Check supplied input kinds against this operation's formal input
    /// types: first the count, then the kinds position by position.
    pub fn check_input_types(&self, variables: &[Variable]) -> (r: Result<
        (),
        ProgramValidationError,
    >)
        ensures
            r == (if variables@.len() != self.input_types().len() {
                Err::<(), ProgramValidationError>(
                    ProgramValidationError::InvalidNumberOfInputs {
                        is: variables@.len() as usize,
                        expected: self.input_types().len() as usize,
                    },
                )
            } else {
                match type_error_from(variables@, self.input_types(), 0) {
                    Some(e) => Err(e),
                    None => Ok(()),
                }
            }),
    {
        let expected = self.get_input_variables();
        if variables.len() != expected.len() {
            return Err(
                ProgramValidationError::InvalidNumberOfInputs {
                    is: variables.len(),
                    expected: expected.len(),
                },
            );
        }
        let mut k: usize = 0;
        while k < variables.len()
            invariant
                k <= variables@.len(),
                variables@.len() == expected@.len(),
                expected@ == self.input_types(),
                type_error_from(variables@, expected@, k as int) == type_error_from(
                    variables@,
                    expected@,
                    0,
                ),
            decreases variables@.len() - k,
        {
            if !(variables[k] == expected[k]) {
                return Err(
                    ProgramValidationError::InvalidVariableType {
                        is: variables[k],
                        expected: expected[k],
                    },
                );
            }
            k = k + 1;
        }
        Ok(())
    }
}

impl Program {
    /// A program assembled without validation; callers validate separately.
    pub fn unchecked_new(context: Context, instructions: Vec<Instruction>) -> (r: Program)
        ensures
            r.context == context,
            r.instructions == instructions,
    {
        Program { context, instructions }
    }

    /// Whether the whole program passes validation.
    pub open spec fn spec_valid(self) -> bool {
        spec_validate(self.instructions@) is Ok
    }

    /// Walk the instructions once and report the first typing or scoping
    /// failure, or that the program is valid.
    pub fn validate(&self) -> (r: Result<(), ProgramValidationError>)
        ensures
            r == spec_validate(self.instructions@),
            r is Ok == self.spec_valid(),
    {
        let mut vars: Vec<VarState> = Vec::new();
        let mut frames: Vec<ScopeFrame> = Vec::new();
        let n = self.instructions.len();
        let mut i: usize = 0;
        while i < n
            invariant
                i <= n,
                n == self.instructions@.len(),
                run(self.instructions@, i as int) == Ok::<VState, ProgramValidationError>(
                    VState { vars: vars@, frames: frames@ },
                ),
            decreases n - i,
        {
            match exec_step(&mut vars, &mut frames, &self.instructions[i]) {
                Ok(()) => {},
                Err(e) => {
                    proof {
                        lemma_run_error_persists(self.instructions@, i + 1, n as int);
                    }
                    return Err(e);
                },
            }
            i = i + 1;
        }
        if frames.len() == 0 {
            Ok(())
        } else {
            Err(ProgramValidationError::UnterminatedBlock)
        }
    }
}

/// Once a prefix fails, every longer prefix reports the same failure.
pub proof fn lemma_run_error_persists(instrs: Seq<Instruction>, i: int, n: int)
    requires
        0 <= i <= n,
        run(instrs, i) is Err,
    ensures
        run(instrs, n) == run(instrs, i),
    decreases n - i,
{
    if i < n {
        lemma_run_error_persists(instrs, i + 1, n);
    }
}

/// A prefix of a successfully validated prefix is itself successful.
pub proof fn lemma_run_prefix_ok(instrs: Seq<Instruction>, i: int, n: int)
    requires
        0 <= i <= n,
        run(instrs, n) is Ok,
    ensures
        run(instrs, i) is Ok,
    decreases n - i,
{
    if i < n {
        if run(instrs, i) is Err {
            lemma_run_error_persists(instrs, i, n);
        }
    }
}

/// If input resolution reports no failure from position `k` on, then the
/// input at any later position `j` is an allocated, in-scope slot.
pub proof fn lemma_resolve_ok_from(vars: Seq<VarState>, inputs: Seq<usize>, k: int, j: int)
    requires
        resolve_error_from(vars, inputs, k) is None,
        0 <= k <= j < inputs.len(),
    ensures
        inputs[j] < vars.len(),
        vars[inputs[j] as int].in_scope,
    decreases j - k,
{
    if k < j {
        lemma_resolve_ok_from(vars, inputs, k + 1, j);
    }
}

/// If the kind check reports no mismatch from position `k` on and the
/// lengths agree, the kinds agree at every later position `j`.
pub proof fn lemma_types_ok_from(got: Seq<Variable>, expected: Seq<Variable>, k: int, j: int)
    requires
        type_error_from(got, expected, k) is None,
        got.len() == expected.len(),
        0 <= k <= j < got.len(),
    ensures
        got[j] == expected[j],
    decreases j - k,
{
    if k < j {
        lemma_types_ok_from(got, expected, k + 1, j);
    }
}

/// When an instruction passed the input checks, each of its inputs indexes
/// an allocated, visible slot of the formally expected kind.
pub proof fn lemma_input_ok(vars: Seq<VarState>, instr: Instruction, j: int)
    requires
        input_error(vars, instr) is None,
        0 <= j < instr.inputs@.len(),
    ensures
        instr.inputs@.len() == instr.operation.input_types().len(),
        instr.inputs@[j] < vars.len(),
        vars[instr.inputs@[j] as int].in_scope,
        vars[instr.inputs@[j] as int].kind == instr.operation.input_types()[j],
{
    lemma_resolve_ok_from(vars, instr.inputs@, 0, j);
    lemma_types_ok_from(kinds_of(vars, instr.inputs@), instr.operation.input_types(), 0, j);
    assert(kinds_of(vars, instr.inputs@)[j] == vars[instr.inputs@[j] as int].kind);
}

/// Validator soundness: in a program that validates, every instruction's
/// `j`-th input references a variable slot that is allocated and in scope at
/// that instruction, whose kind equals the operation's `j`-th formal input
/// type, and the instruction supplies exactly as many inputs as the
/// operation expects.
pub proof fn lemma_validator_soundness(instrs: Seq<Instruction>, i: int, j: int)
    requires
        spec_validate(instrs) is Ok,
        0 <= i < instrs.len(),
        0 <= j < instrs[i].inputs@.len(),
    ensures
        run(instrs, i) is Ok,
        instrs[i].inputs@.len() == instrs[i].operation.input_types().len(),
        ({
            let vars = run(instrs, i)->Ok_0.vars;
            let idx = instrs[i].inputs@[j];
            &&& idx < vars.len()
            &&& vars[idx as int].in_scope
            &&& vars[idx as int].kind == instrs[i].operation.input_types()[j]
        }),
{
    lemma_run_prefix_ok(instrs, i + 1, instrs.len() as int);
    lemma_run_prefix_ok(instrs, i, i + 1);
    let st = run(instrs, i)->Ok_0;
    let instr = instrs[i];
    assert(run(instrs, i + 1) == step(st, instr));
    assert(input_error(st.vars, instr) is None);
    lemma_resolve_ok_from(st.vars, instr.inputs@, 0, j);
    lemma_types_ok_from(kinds_of(st.vars, instr.inputs@), instr.operation.input_types(), 0, j);
    assert(kinds_of(st.vars, instr.inputs@)[j] == st.vars[instr.inputs@[j] as int].kind);
}

/// Validator completeness on scope, first half: a program whose scope stack
/// is not empty after the last instruction is rejected with
/// `UnterminatedBlock`.
pub proof fn lemma_validator_rejects_open_scope(instrs: Seq<Instruction>)
    requires
        run(instrs, instrs.len() as int) is Ok,
        run(instrs, instrs.len() as int)->Ok_0.frames.len() != 0,
    ensures
        spec_validate(instrs) == Err::<(), ProgramValidationError>(
            ProgramValidationError::UnterminatedBlock,
        ),
{
}

/// Input resolution succeeds when every index from `j` on is allocated and
/// in scope.
proof fn lemma_resolve_none_from(vars: Seq<VarState>, inputs: Seq<usize>, j: int)
    requires
        0 <= j,
        forall|k: int|
            j <= k < inputs.len() ==> #[trigger] inputs[k] < vars.len() && vars[inputs[k] as int].in_scope,
    ensures
        resolve_error_from(vars, inputs, j) is None,
    decreases inputs.len() - j,
{
    if j < inputs.len() {
        lemma_resolve_none_from(vars, inputs, j + 1);
    }
}

/// The kind check succeeds when the kinds agree position by position.
proof fn lemma_types_none_from(got: Seq<Variable>, expected: Seq<Variable>, j: int)
    requires
        0 <= j,
        got.len() == expected.len(),
        forall|k: int| j <= k < got.len() ==> got[k] == expected[k],
    ensures
        type_error_from(got, expected, j) is None,
    decreases got.len() - j,
{
    if j < got.len() {
        lemma_types_none_from(got, expected, j + 1);
    }
}

/// An instruction passes the input checks when it supplies exactly the
/// formal inputs: the right number of indices, each allocated, in scope and
/// of the expected kind.
pub proof fn lemma_input_error_none(vars: Seq<VarState>, instr: Instruction)
    requires
        instr.inputs@.len() == instr.operation.input_types().len(),
        forall|k: int|
            0 <= k < instr.inputs@.len() ==> #[trigger] instr.inputs@[k] < vars.len()
                && vars[instr.inputs@[k] as int].in_scope && vars[instr.inputs@[k] as int].kind
                == instr.operation.input_types()[k],
    ensures
        input_error(vars, instr) is None,
{
    lemma_resolve_none_from(vars, instr.inputs@, 0);
    let got = kinds_of(vars, instr.inputs@);
    assert(forall|k: int| 0 <= k < got.len() ==> got[k] == instr.operation.input_types()[k]);
    lemma_types_none_from(got, instr.operation.input_types(), 0);
}

/// Validator completeness on scope, second half: an `End*` instruction that
/// does not match the scope on top of the stack at its position makes
/// validation of the whole program fail.
pub proof fn lemma_validator_rejects_unmatched_end(instrs: Seq<Instruction>, i: int)
    requires
        0 <= i < instrs.len(),
        run(instrs, i) is Ok,
        instrs[i].operation.spec_is_block_end(),
        ({
            let st = run(instrs, i)->Ok_0;
            st.frames.len() == 0 || instrs[i].operation.end_kind() != Some(st.frames.last().kind)
        }),
    ensures
        run(instrs, i + 1) is Err,
        spec_validate(instrs) is Err,
{
    let st = run(instrs, i)->Ok_0;
    assert(run(instrs, i + 1) == step(st, instrs[i]));
    lemma_run_error_persists(instrs, i + 1, instrs.len() as int);
}

/// Whether two instructions consume the same inputs and carry equal
/// operations (payloads compared through their views).
pub open spec fn instr_eq(a: Instruction, b: Instruction) -> bool {
    a.inputs@ == b.inputs@ && crate::operation::op_eq(a.operation, b.operation)
}

/// Whether two programs have the same context and pointwise equal
/// instructions.
pub open spec fn program_eq(a: Program, b: Program) -> bool {
    &&& a.context == b.context
    &&& a.instructions@.len() == b.instructions@.len()
    &&& forall|i: int|
        0 <= i < a.instructions@.len() ==> instr_eq(
            #[trigger] a.instructions@[i],
            b.instructions@[i],
        )
}

impl Clone for Instruction {
    /// A structural copy: same input indices, equal operation.
    fn clone(&self) -> (r: Self)
        ensures
            instr_eq(*self, r),
    {
        let inputs = self.inputs.clone();
        assert(inputs@ =~= self.inputs@);
        Instruction { inputs, operation: self.operation.clone() }
    }
}

impl Clone for Program {
    /// A structural copy: same context, pointwise equal instructions.
    fn clone(&self) -> (r: Self)
        ensures
            program_eq(*self, r),
    {
        let mut instructions: Vec<Instruction> = Vec::new();
        let mut i: usize = 0;
        while i < self.instructions.len()
            invariant
                i <= self.instructions@.len(),
                instructions@.len() == i,
                forall|k: int|
                    0 <= k < i ==> instr_eq(
                        self.instructions@[k],
                        #[trigger] instructions@[k],
                    ),
            decreases self.instructions@.len() - i,
        {
            instructions.push(self.instructions[i].clone());
            i = i + 1;
        }
        Program { context: self.context, instructions }
    }
}

/// Equal instructions drive the validator identically from any state.
pub proof fn lemma_instr_eq_step(st: VState, a: Instruction, b: Instruction)
    requires
        instr_eq(a, b),
    ensures
        step(st, a) == step(st, b),
{
    crate::operation::lemma_op_eq_queries(a.operation, b.operation);
}

/// Pointwise equal programs give the validator the same state after any
/// number of steps.
pub proof fn lemma_program_eq_run(a: Program, b: Program, n: int)
    requires
        program_eq(a, b),
        n <= a.instructions@.len(),
    ensures
        run(a.instructions@, n) == run(b.instructions@, n),
    decreases n,
{
    if n > 0 {
        lemma_program_eq_run(a, b, n - 1);
        if run(a.instructions@, n - 1) is Ok {
            let st = run(a.instructions@, n - 1)->Ok_0;
            lemma_instr_eq_step(st, a.instructions@[n - 1], b.instructions@[n - 1]);
        }
    }
}

/// Pointwise equal instruction sequences give the validator the same state
/// after any number of steps.
pub proof fn lemma_instr_seq_eq_run(s1: Seq<Instruction>, s2: Seq<Instruction>, n: int)
    requires
        s1.len() == s2.len(),
        n <= s1.len(),
        forall|k: int| 0 <= k < s1.len() ==> instr_eq(#[trigger] s1[k], s2[k]),
    ensures
        run(s1, n) == run(s2, n),
    decreases n,
{
    if n > 0 {
        lemma_instr_seq_eq_run(s1, s2, n - 1);
        if run(s1, n - 1) is Ok {
            lemma_instr_eq_step(run(s1, n - 1)->Ok_0, s1[n - 1], s2[n - 1]);
        }
    }
}

/// Pointwise equal instruction sequences validate identically.
pub proof fn lemma_instr_seq_eq_validate(s1: Seq<Instruction>, s2: Seq<Instruction>)
    requires
        s1.len() == s2.len(),
        forall|k: int| 0 <= k < s1.len() ==> instr_eq(#[trigger] s1[k], s2[k]),
    ensures
        spec_validate(s1) == spec_validate(s2),
{
    lemma_instr_seq_eq_run(s1, s2, s1.len() as int);
}

/// Pointwise equal programs validate identically, failure for failure.
pub proof fn lemma_program_eq_validate(a: Program, b: Program)
    requires
        program_eq(a, b),
    ensures
        spec_validate(a.instructions@) == spec_validate(b.instructions@),
{
    lemma_program_eq_run(a, b, a.instructions@.len() as int);
}

/// Two instruction sequences that agree on their first `n` elements give
/// the validator the same state after `n` steps.
pub proof fn lemma_run_agree(s1: Seq<Instruction>, s2: Seq<Instruction>, n: int)
    requires
        n <= s1.len(),
        n <= s2.len(),
        forall|k: int| 0 <= k < n ==> s1[k] == s2[k],
    ensures
        run(s1, n) == run(s2, n),
    decreases n,
{
    if n > 0 {
        lemma_run_agree(s1, s2, n - 1);
    }
}

/// Pointwise agreement at every referenced slot keeps input resolution
/// identical.
proof fn lemma_resolve_equal(
    vars1: Seq<VarState>,
    vars2: Seq<VarState>,
    inputs: Seq<usize>,
    j: int,
)
    requires
        vars1.len() == vars2.len(),
        forall|m: int|
            0 <= m < inputs.len() && #[trigger] inputs[m] < vars1.len() ==> vars1[inputs[m] as int]
                == vars2[inputs[m] as int],
        0 <= j,
    ensures
        resolve_error_from(vars1, inputs, j) == resolve_error_from(vars2, inputs, j),
    decreases inputs.len() - j,
{
    if j < inputs.len() {
        lemma_resolve_equal(vars1, vars2, inputs, j + 1);
    }
}

/// Pointwise agreement at every referenced slot keeps the whole input check
/// identical.
proof fn lemma_input_error_equal(vars1: Seq<VarState>, vars2: Seq<VarState>, instr: Instruction)
    requires
        vars1.len() == vars2.len(),
        forall|m: int|
            0 <= m < instr.inputs@.len() && #[trigger] instr.inputs@[m] < vars1.len()
                ==> vars1[instr.inputs@[m] as int] == vars2[instr.inputs@[m] as int],
    ensures
        input_error(vars1, instr) == input_error(vars2, instr),
{
    lemma_resolve_equal(vars1, vars2, instr.inputs@, 0);
    if resolve_error_from(vars1, instr.inputs@, 0) is None {
        assert forall|m: int| 0 <= m < instr.inputs@.len() implies #[trigger] instr.inputs@[m]
            < vars1.len() by {
            lemma_resolve_ok_from(vars1, instr.inputs@, 0, m);
        }
        assert(kinds_of(vars1, instr.inputs@) =~= kinds_of(vars2, instr.inputs@));
    }
}

/// How two validator states relate once one instruction's output slots were
/// replaced by placeholders: same scope stack, same slot count, identical
/// slots outside the replaced window, and matching visibility inside it.
pub open spec fn nop_rel(st1: VState, st2: VState, lo: int, c: int) -> bool {
    &&& st2.frames == st1.frames
    &&& st2.vars.len() == st1.vars.len()
    &&& forall|i: int|
        0 <= i < st1.vars.len() && !(lo <= i < lo + c) ==> st2.vars[i] == #[trigger] st1.vars[i]
    &&& forall|i: int|
        lo <= i < lo + c && 0 <= i < st1.vars.len() ==> (#[trigger] st2.vars[i]).in_scope
            == st1.vars[i].in_scope
}

/// A step on an instruction that references nothing inside the window
/// succeeds equally from related states and preserves the relation.
proof fn lemma_nop_rel_step(st1: VState, st2: VState, instr: Instruction, lo: int, c: int)
    requires
        nop_rel(st1, st2, lo, c),
        step(st1, instr) is Ok,
        forall|m: int|
            0 <= m < instr.inputs@.len() ==> !(lo <= #[trigger] instr.inputs@[m] < lo + c),
    ensures
        step(st2, instr) is Ok,
        nop_rel(step(st1, instr)->Ok_0, step(st2, instr)->Ok_0, lo, c),
{
    lemma_input_error_equal(st1.vars, st2.vars, instr);
    let op = instr.operation;
    let fresh = op.output_types() + op.inner_output_types();
    if op.spec_is_block_end() {
        let top = st1.frames.last();
        let d1 = descope(st1.vars, top);
        let d2 = descope(st2.vars, top);
        let n1 = step(st1, instr)->Ok_0;
        let n2 = step(st2, instr)->Ok_0;
        assert(n1.vars == append_vars(d1, fresh));
        assert(n2.vars == append_vars(d2, fresh));
        assert forall|i: int|
            0 <= i < n1.vars.len() && !(lo <= i < lo + c) implies n2.vars[i] == #[trigger] n1.vars[i] by {
            if i < st1.vars.len() {
                assert(d1[i] == descope_upto(st1.vars, top, top.inner_count as int)[i]);
            }
        }
        assert(nop_rel(n1, n2, lo, c));
    } else {
        let n1 = step(st1, instr)->Ok_0;
        let n2 = step(st2, instr)->Ok_0;
        assert(n1.vars == append_vars(st1.vars, fresh));
        assert(n2.vars == append_vars(st2.vars, fresh));
        assert(nop_rel(n1, n2, lo, c));
    }
}

/// The first slot the instruction at `k` allocates, on a program whose
/// prefix validates.
pub open spec fn slot_base(instrs: Seq<Instruction>, k: int) -> int {
    match run(instrs, k) {
        Ok(st) => st.vars.len() as int,
        Err(_) => 0,
    }
}

/// How many slots an operation allocates.
pub open spec fn slot_width(op: Operation) -> int {
    op.output_types().len() as int + op.inner_output_types().len() as int
}

/// Whether `instrs2` is `instrs` with the instruction at `k` (no scope
/// operation) replaced by a `Nop` of matching dimensions.
pub open spec fn nop_replaced(instrs: Seq<Instruction>, instrs2: Seq<Instruction>, k: int) -> bool {
    &&& 0 <= k < instrs.len()
    &&& !instrs[k].operation.spec_is_block_begin()
    &&& !instrs[k].operation.spec_is_block_end()
    &&& instrs2.len() == instrs.len()
    &&& forall|j: int| 0 <= j < instrs.len() && j != k ==> instrs2[j] == #[trigger] instrs[j]
    &&& instrs2[k].inputs@.len() == 0
    &&& instrs2[k].operation == (Operation::Nop {
        outputs: instrs[k].operation.output_types().len() as usize,
        inner_outputs: instrs[k].operation.inner_output_types().len() as usize,
    })
}

/// No instruction after `k` reads any slot that instruction `k` allocated.
pub open spec fn outputs_unreferenced(instrs: Seq<Instruction>, k: int) -> bool {
    forall|j: int, m: int|
        k < j < instrs.len() && 0 <= m < instrs[j].inputs@.len() ==> !(slot_base(instrs, k)
            <= #[trigger] instrs[j].inputs@[m] < slot_base(instrs, k) + slot_width(
            instrs[k].operation,
        ))
}

/// The two runs stay related after the replacement point.
proof fn lemma_nop_run(instrs: Seq<Instruction>, instrs2: Seq<Instruction>, k: int, n: int)
    requires
        nop_replaced(instrs, instrs2, k),
        outputs_unreferenced(instrs, k),
        run(instrs, n) is Ok,
        k < n <= instrs.len(),
        slot_width(instrs[k].operation) <= usize::MAX,
    ensures
        run(instrs2, n) is Ok,
        nop_rel(
            run(instrs, n)->Ok_0,
            run(instrs2, n)->Ok_0,
            slot_base(instrs, k),
            slot_width(instrs[k].operation),
        ),
    decreases n,
{
    let lo = slot_base(instrs, k);
    let c = slot_width(instrs[k].operation);
    lemma_run_prefix_ok(instrs, n - 1, n);
    if n - 1 == k {
        lemma_run_agree(instrs, instrs2, k);
        let st = run(instrs, k)->Ok_0;
        let op = instrs[k].operation;
        let op2 = instrs2[k].operation;
        // The step on the replaced instruction succeeded, and the
        // placeholder's input checks hold trivially.
        assert(resolve_error_from(st.vars, instrs2[k].inputs@, 0) is None);
        assert(op2.input_types() =~= Seq::<crate::variable::Variable>::empty());
        assert(input_error(st.vars, instrs2[k]) is None);
        let n1 = step(st, instrs[k])->Ok_0;
        let n2 = step(st, instrs2[k])->Ok_0;
        let fresh1 = op.output_types() + op.inner_output_types();
        let fresh2 = op2.output_types() + op2.inner_output_types();
        assert(fresh2.len() == fresh1.len());
        assert(n1.vars == append_vars(st.vars, fresh1));
        assert(n2.vars == append_vars(st.vars, fresh2));
        assert(nop_rel(n1, n2, lo, c));
    } else {
        lemma_nop_run(instrs, instrs2, k, n - 1);
        let st1 = run(instrs, n - 1)->Ok_0;
        let st2 = run(instrs2, n - 1)->Ok_0;
        assert(instrs2[n - 1] == instrs[n - 1]);
        lemma_nop_rel_step(st1, st2, instrs[n - 1], lo, c);
    }
}

/// Nop preservation: replacing a non-scope instruction of a validated
/// program with a `Nop` of matching output and inner-output counts keeps
/// the whole program validating, as long as no later instruction references
/// any of the replaced instruction's output slots.
pub proof fn lemma_nop_replacement_preserves_validity(
    instrs: Seq<Instruction>,
    instrs2: Seq<Instruction>,
    k: int,
)
    requires
        spec_validate(instrs) is Ok,
        nop_replaced(instrs, instrs2, k),
        outputs_unreferenced(instrs, k),
        slot_width(instrs[k].operation) <= usize::MAX,
    ensures
        spec_validate(instrs2) is Ok,
{
    lemma_nop_run(instrs, instrs2, k, instrs.len() as int);
}

} // verus!
