//! The append-only program builder.
//!
//! Generators extend a program through the builder, which validates every
//! appended instruction against the state the validator would have at that
//! point and refuses anything invalid, so the program under construction
//! never goes wrong. The builder also keeps an index of visible variables
//! and remembers, for every built block, which transactions went into it.

use vstd::prelude::*;

use crate::operation::Operation;
use crate::program::{
    append_vars, exec_step, lemma_run_agree, run, spec_validate, step, Context, Instruction,
    Program, ProgramValidationError, ScopeFrame, VState, VarState,
};
use crate::rng::FuzzRng;
use crate::variable::Variable;

verus! {

/// A handle to one variable slot of the program under construction.
#[derive(Clone, Copy, Debug, PartialEq, Eq, Structural)]
pub struct VarRef {
    pub index: usize,
}

/// The transactions recorded for one block-transactions container,
/// identified by the variable that holds it.
pub struct TxListEntry {
    pub list_var: usize,
    pub tx_vars: Vec<usize>,
}

/// One built block: the block variable, the `ConstBlockTransactions` it was
/// built from, and the `ConstTx` variables of its transactions.
pub struct BlockEntry {
    pub block_var: usize,
    pub tx_list_var: usize,
    pub tx_vars: Vec<usize>,
}

/// How many slots among `vars` are visible with the given kind.
pub open spec fn count_visible_spec(vars: Seq<VarState>, kind: Variable) -> int
    decreases vars.len(),
{
    if vars.len() == 0 {
        0
    } else {
        let here: int = if vars.last().kind == kind && vars.last().in_scope {
            1
        } else {
            0
        };
        count_visible_spec(vars.drop_last(), kind) + here
    }
}

/// A slot that is visible with a kind.
pub open spec fn visible_as(vars: Seq<VarState>, idx: int, kind: Variable) -> bool {
    0 <= idx < vars.len() && vars[idx] == (VarState { kind, in_scope: true })
}

/// No slot is visible with the kind.
pub open spec fn no_visible(vars: Seq<VarState>, kind: Variable) -> bool {
    forall|i: int| 0 <= i < vars.len() ==> !(#[trigger] vars[i] == (VarState { kind, in_scope: true }))
}

/// How many of `kinds` equal `kind`.
pub open spec fn count_kind(kinds: Seq<Variable>, kind: Variable) -> int
    decreases kinds.len(),
{
    if kinds.len() == 0 {
        0
    } else {
        count_kind(kinds.drop_last(), kind) + if kinds.last() == kind {
            1int
        } else {
            0int
        }
    }
}

/// Appending fresh in-scope slots raises the visible count of a kind by
/// the number of matching fresh kinds.
pub proof fn lemma_count_visible_append(vars: Seq<VarState>, kinds: Seq<Variable>, kind: Variable)
    ensures
        count_visible_spec(append_vars(vars, kinds), kind) == count_visible_spec(vars, kind)
            + count_kind(kinds, kind),
    decreases kinds.len(),
{
    if kinds.len() == 0 {
        assert(append_vars(vars, kinds) =~= vars);
    } else {
        lemma_count_visible_append(vars, kinds.drop_last(), kind);
        assert(append_vars(vars, kinds).drop_last() =~= append_vars(vars, kinds.drop_last()));
        assert(append_vars(vars, kinds).last() == (VarState { kind: kinds.last(), in_scope: true }));
    }
}

/// An instruction that loads a connection-type label: no inputs and one of
/// the two labels.
pub open spec fn is_load_connection_type(instr: Instruction) -> bool {
    &&& instr.inputs@.len() == 0
    &&& instr.operation matches Operation::LoadConnectionType(lbl) && (lbl@ == inbound_bytes()
        || lbl@ == outbound_bytes())
}

/// Slots extend and no non-`Mut*` slot changes: whatever was visible with
/// a non-container kind before stays visible, at the same index.
pub open spec fn preserves_visible(pre: Seq<VarState>, post: Seq<VarState>) -> bool {
    &&& pre.len() <= post.len()
    &&& forall|i: int|
        0 <= i < pre.len() && !(#[trigger] pre[i]).kind.spec_is_inner() ==> post[i] == pre[i]
}

/// Every slot covered by a frame holds a `Mut*` kind; only such slots ever
/// leave scope, so everything else stays visible forever.
pub open spec fn frames_inner_only(vars: Seq<VarState>, frames: Seq<ScopeFrame>) -> bool {
    forall|f: int, i: int|
        0 <= f < frames.len() && (#[trigger] frames[f]).inner_start <= i < frames[f].inner_start
            + frames[f].inner_count ==> 0 <= i < vars.len() && (#[trigger] vars[i]).kind.spec_is_inner()
}

/// An append-only program constructor whose state always matches what the
/// validator would compute for the program built so far.
pub struct ProgramBuilder {
    program: Program,
    vars: Vec<VarState>,
    frames: Vec<ScopeFrame>,
    tx_lists: Vec<TxListEntry>,
    blocks: Vec<BlockEntry>,
}

impl ProgramBuilder {
    /// The instructions appended so far.
    pub closed spec fn instructions(self) -> Seq<Instruction> {
        self.program.instructions@
    }

    /// The variable slots of the current validator state.
    pub closed spec fn vars_seq(self) -> Seq<VarState> {
        self.vars@
    }

    /// The open scopes of the current validator state.
    pub closed spec fn frames_seq(self) -> Seq<ScopeFrame> {
        self.frames@
    }

    pub closed spec fn spec_context(self) -> Context {
        self.program.context
    }

    /// The block entries recorded so far.
    pub closed spec fn blocks_seq(self) -> Seq<BlockEntry> {
        self.blocks@
    }

    /// Whether one recorded entry speaks only of visible slots of the
    /// right kinds.
    pub closed spec fn block_entry_wf(self, e: BlockEntry) -> bool {
        &&& visible_as(self.vars_seq(), e.block_var as int, Variable::Block)
        &&& visible_as(self.vars_seq(), e.tx_list_var as int, Variable::ConstBlockTransactions)
        &&& forall|k: int|
            0 <= k < e.tx_vars@.len() ==> visible_as(
                self.vars_seq(),
                #[trigger] e.tx_vars@[k] as int,
                Variable::ConstTx,
            )
    }

    pub closed spec fn tx_list_entry_wf(self, e: TxListEntry) -> bool {
        forall|k: int|
            0 <= k < e.tx_vars@.len() ==> visible_as(
                self.vars_seq(),
                #[trigger] e.tx_vars@[k] as int,
                Variable::ConstTx,
            )
    }

    /// The builder invariant: the tracked state is exactly the validator's
    /// state on the program built so far, frames only cover `Mut*` slots,
    /// the block bookkeeping speaks only of visible slots, and every
    /// visible `Block` variable has a recorded entry.
    pub closed spec fn wf(self) -> bool {
        &&& run(self.instructions(), self.instructions().len() as int) == Ok::<
            VState,
            ProgramValidationError,
        >(VState { vars: self.vars_seq(), frames: self.frames_seq() })
        &&& frames_inner_only(self.vars_seq(), self.frames_seq())
        &&& forall|b: int|
            0 <= b < self.blocks@.len() ==> self.block_entry_wf(#[trigger] self.blocks@[b])
        &&& forall|t: int|
            0 <= t < self.tx_lists@.len() ==> self.tx_list_entry_wf(#[trigger] self.tx_lists@[t])
        &&& forall|i: int|
            #[trigger] visible_as(self.vars_seq(), i, Variable::Block) ==> exists|b: int|
                0 <= b < self.blocks@.len() && (#[trigger] self.blocks@[b]).block_var == i
    }

    /// A visible `Block` variable always has a recorded entry, so the
    /// transactions of every block a generator can pick are known.
    pub proof fn lemma_visible_block_recorded(self, i: int)
        requires
            self.wf(),
            visible_as(self.vars_seq(), i, Variable::Block),
        ensures
            exists|b: int|
                0 <= b < self.blocks_seq().len() && (#[trigger] self.blocks_seq()[b]).block_var
                    == i,
    {
        let b = choose|b: int|
            0 <= b < self.blocks@.len() && (#[trigger] self.blocks@[b]).block_var == i;
        assert(self.blocks_seq()[b].block_var == i);
    }

    /// A program that leaves no scope open validates as a whole.
    pub proof fn lemma_closed_builder_valid(self)
        requires
            self.wf(),
            self.frames_seq().len() == 0,
        ensures
            spec_validate(self.instructions()) is Ok,
    {
    }

    /// Start building on an empty program for the given context.
    pub fn new(context: Context) -> (r: ProgramBuilder)
        ensures
            r.wf(),
            r.instructions() =~= Seq::<Instruction>::empty(),
            r.vars_seq() =~= Seq::<VarState>::empty(),
            r.frames_seq() =~= Seq::<ScopeFrame>::empty(),
            r.spec_context() == context,
    {
        let b = ProgramBuilder {
            program: Program { context, instructions: Vec::new() },
            vars: Vec::new(),
            frames: Vec::new(),
            tx_lists: Vec::new(),
            blocks: Vec::new(),
        };
        assert(run(b.instructions(), 0) == Ok::<VState, ProgramValidationError>(
            VState { vars: b.vars_seq(), frames: b.frames_seq() },
        ));
        b
    }

    /// The context of the program under construction.
    pub fn context(&self) -> (r: &Context)
        ensures
            *r == self.spec_context(),
    {
        &self.program.context
    }

    /// The program built so far.
    pub fn program(&self) -> (r: &Program)
        ensures
            r.instructions@ == self.instructions(),
            r.context == self.spec_context(),
    {
        &self.program
    }

    /// Hand the built program over.
    pub fn finish(self) -> (r: Program)
        requires
            self.wf(),
            self.frames_seq().len() == 0,
        ensures
            r.instructions@ == self.instructions(),
            r.context == self.spec_context(),
            r.spec_valid(),
    {
        proof {
            self.lemma_closed_builder_valid();
        }
        self.program
    }

    /// How many variables are currently visible with the given kind.
    pub fn count_visible(&self, kind: Variable) -> (r: usize)
        ensures
            r == count_visible_spec(self.vars_seq(), kind),
    {
        let mut count: usize = 0;
        let mut i: usize = 0;
        while i < self.vars.len()
            invariant
                i <= self.vars@.len(),
                count == count_visible_spec(self.vars@.take(i as int), kind),
                count <= i,
            decreases self.vars@.len() - i,
        {
            let vs = self.vars[i];
            proof {
                assert(self.vars@.take(i as int + 1).drop_last() =~= self.vars@.take(i as int));
                assert(self.vars@.take(i as int + 1).last() == self.vars@[i as int]);
            }
            if vs.kind == kind && vs.in_scope {
                count = count + 1;
            }
            i = i + 1;
        }
        proof {
            assert(self.vars@.take(self.vars@.len() as int) =~= self.vars@);
        }
        count
    }

    /// All variable indices currently visible with the given kind.
    fn visible_indices(&self, kind: Variable) -> (r: Vec<usize>)
        ensures
            forall|k: int|
                0 <= k < r@.len() ==> visible_as(self.vars_seq(), #[trigger] r@[k] as int, kind),
            r@.len() == 0 ==> forall|i: int|
                0 <= i < self.vars_seq().len() ==> !(#[trigger] self.vars_seq()[i] == (VarState {
                    kind,
                    in_scope: true,
                })),
    {
        let mut r: Vec<usize> = Vec::new();
        let mut i: usize = 0;
        while i < self.vars.len()
            invariant
                i <= self.vars@.len(),
                forall|k: int|
                    0 <= k < r@.len() ==> visible_as(self.vars@, #[trigger] r@[k] as int, kind),
                r@.len() == 0 ==> forall|q: int|
                    0 <= q < i ==> !(#[trigger] self.vars@[q] == (VarState {
                        kind,
                        in_scope: true,
                    })),
            decreases self.vars@.len() - i,
        {
            let vs = self.vars[i];
            if vs.kind == kind && vs.in_scope {
                r.push(i);
            }
            i = i + 1;
        }
        r
    }

    /// A uniformly random visible variable of the given kind, if any.
    pub fn get_random_variable<R: FuzzRng>(&self, rng: &mut R, kind: Variable) -> (r: Option<
        VarRef,
    >)
        ensures
            r matches Some(v) ==> visible_as(self.vars_seq(), v.index as int, kind),
            r is None ==> forall|i: int|
                0 <= i < self.vars_seq().len() ==> !(#[trigger] self.vars_seq()[i] == (VarState {
                    kind,
                    in_scope: true,
                })),
    {
        let candidates = self.visible_indices(kind);
        if candidates.len() == 0 {
            return None;
        }
        let pick = rng.pick_range(0, (candidates.len() - 1) as u64);
        let i = pick as usize;
        Some(VarRef { index: candidates[i] })
    }

    /// The index of the recorded transaction list keyed by `list_var`.
    fn find_tx_list(&self, list_var: usize) -> (r: Option<usize>)
        ensures
            r matches Some(i) ==> i < self.tx_lists@.len() && self.tx_lists@[i as int].list_var
                == list_var,
    {
        let mut t: usize = 0;
        while t < self.tx_lists.len()
            invariant
                t <= self.tx_lists@.len(),
            decreases self.tx_lists@.len() - t,
        {
            if self.tx_lists[t].list_var == list_var {
                return Some(t);
            }
            t = t + 1;
        }
        None
    }

    /// Validate one instruction against the current state and append it.
    /// On success the new output variables (regular outputs first, then
    /// inner outputs) are returned; on failure nothing changes and the
    /// validator's error is reported, so the program under construction is
    /// never invalid.
    pub fn append(&mut self, instruction: Instruction) -> (r: Result<
        Vec<VarRef>,
        ProgramValidationError,
    >)
        requires
            old(self).wf(),
        ensures
            final(self).wf(),
            final(self).spec_context() == old(self).spec_context(),
            ({
                let st0 = VState { vars: old(self).vars_seq(), frames: old(self).frames_seq() };
                match step(st0, instruction) {
                    Ok(st2) => {
                        &&& r is Ok
                        &&& final(self).instructions() == old(self).instructions().push(
                            instruction,
                        )
                        &&& final(self).vars_seq() == st2.vars
                        &&& final(self).frames_seq() == st2.frames
                        &&& r->Ok_0@.len() == st2.vars.len() - st0.vars.len()
                        &&& forall|k: int|
                            0 <= k < r->Ok_0@.len() ==> (#[trigger] r->Ok_0@[k]).index
                                == st0.vars.len() + k
                        &&& preserves_visible(st0.vars, st2.vars)
                    },
                    Err(e) => {
                        &&& r == Err::<Vec<VarRef>, ProgramValidationError>(e)
                        &&& final(self).instructions() == old(self).instructions()
                        &&& final(self).vars_seq() == old(self).vars_seq()
                        &&& final(self).frames_seq() == old(self).frames_seq()
                    },
                }
            }),
    {
        let ghost st0 = VState { vars: self.vars@, frames: self.frames@ };
        let pre_len = self.vars.len();
        match exec_step(&mut self.vars, &mut self.frames, &instruction) {
            Ok(()) => {},
            Err(e) => {
                return Err(e);
            },
        }
        let post_len = self.vars.len();
        let ghost st2 = VState { vars: self.vars@, frames: self.frames@ };
        proof {
            assert(step(st0, instruction) is Ok);
            assert(st2.vars.len() == post_len);
            lemma_step_preserves_non_inner(st0, instruction, st2);
            lemma_step_preserves_frames_inner_only(st0, instruction, st2);
        }

        // Keep the block bookkeeping in step with the program.
        match &instruction.operation {
            Operation::AddTx => {
                proof {
                    crate::program::lemma_input_ok(st0.vars, instruction, 0);
                    crate::program::lemma_input_ok(st0.vars, instruction, 1);
                }
                let list_var = instruction.inputs[0];
                let tx_var = instruction.inputs[1];
                match self.find_tx_list(list_var) {
                    Some(t) => {
                        self.tx_lists[t].tx_vars.push(tx_var);
                    },
                    None => {
                        let mut tx_vars: Vec<usize> = Vec::new();
                        tx_vars.push(tx_var);
                        self.tx_lists.push(TxListEntry { list_var, tx_vars });
                    },
                }
            },
            Operation::EndBlockTransactions => {
                proof {
                    crate::program::lemma_input_ok(st0.vars, instruction, 0);
                }
                let mut_var = instruction.inputs[0];
                // The fresh `ConstBlockTransactions` slot sits right at the
                // old allocation point; re-key the recorded transactions to
                // it.
                let const_var = pre_len;
                let tx_vars = match self.find_tx_list(mut_var) {
                    Some(t) => copy_indices(&self.tx_lists[t].tx_vars),
                    None => Vec::new(),
                };
                self.tx_lists.push(TxListEntry { list_var: const_var, tx_vars });
            },
            Operation::BuildBlock => {
                proof {
                    crate::program::lemma_input_ok(st0.vars, instruction, 3);
                }
                let list_var = instruction.inputs[3];
                // Outputs of a built block are a header slot followed by
                // the block slot.
                let block_var = pre_len + 1;
                let tx_vars = match self.find_tx_list(list_var) {
                    Some(t) => copy_indices(&self.tx_lists[t].tx_vars),
                    None => Vec::new(),
                };
                self.blocks.push(BlockEntry { block_var, tx_list_var: list_var, tx_vars });
            },
            _ => {},
        }

        // The program gains the instruction; the validator state was
        // already advanced by the step.
        self.program.instructions.push(instruction);
        proof {
            lemma_run_agree(
                old(self).instructions(),
                self.instructions(),
                old(self).instructions().len() as int,
            );
            assert(self.instructions().len() as int == old(self).instructions().len() as int + 1);
            assert(self.instructions()[old(self).instructions().len() as int] == instruction);
        }

        // Every visible `Block` slot still has a recorded entry: old slots
        // kept their entries, and a fresh `Block` slot can only be the one
        // a `BuildBlock` just recorded.
        proof {
            lemma_block_slots(instruction.operation);
            assert forall|i: int| #[trigger] visible_as(self.vars@, i, Variable::Block) implies
                exists|b: int|
                    0 <= b < self.blocks@.len() && (#[trigger] self.blocks@[b]).block_var
                        == i by {
                if i < st0.vars.len() {
                    assert(!Variable::Block.spec_is_inner());
                    assert(st2.vars[i].kind == st0.vars[i].kind);
                    assert(st0.vars[i] == st2.vars[i]);
                    assert(visible_as(st0.vars, i, Variable::Block));
                    let b0 = choose|b: int|
                        0 <= b < old(self).blocks@.len() && (#[trigger] old(
                            self,
                        ).blocks@[b]).block_var == i;
                    assert(self.blocks@[b0].block_var == i);
                } else {
                    let op = instruction.operation;
                    let fresh = op.output_types() + op.inner_output_types();
                    assert(st2.vars[i].kind == fresh[i - st0.vars.len()]);
                    if i - st0.vars.len() < op.output_types().len() {
                        assert(fresh[i - st0.vars.len()] == op.output_types()[i
                            - st0.vars.len()]);
                    } else {
                        assert(fresh[i - st0.vars.len()] == op.inner_output_types()[i
                            - st0.vars.len() - op.output_types().len()]);
                    }
                    assert(op == Operation::BuildBlock && i - st0.vars.len() == 1);
                    assert(self.blocks@[self.blocks@.len() - 1].block_var == pre_len + 1);
                }
            }
        }

        // Hand out references to the fresh slots.
        let mut refs: Vec<VarRef> = Vec::new();
        let mut k = pre_len;
        while k < self.vars.len()
            invariant
                pre_len <= k <= self.vars@.len(),
                refs@.len() == k - pre_len,
                forall|q: int|
                    0 <= q < refs@.len() ==> (#[trigger] refs@[q]).index == pre_len + q,
            decreases self.vars@.len() - k,
        {
            refs.push(VarRef { index: k });
            k = k + 1;
        }
        Ok(refs)
    }

    /// The recorded transactions of a previously built block: the variable
    /// holding its `ConstBlockTransactions` and the `ConstTx` variables
    /// that went into it.
    pub fn get_block_vars(&self, block_idx: usize) -> (r: Option<(usize, Vec<usize>)>)
        requires
            self.wf(),
        ensures
            r matches Some((list_var, tx_vars)) ==> visible_as(
                self.vars_seq(),
                list_var as int,
                Variable::ConstBlockTransactions,
            ) && forall|k: int|
                0 <= k < tx_vars@.len() ==> visible_as(
                    self.vars_seq(),
                    #[trigger] tx_vars@[k] as int,
                    Variable::ConstTx,
                ),
            r matches Some((list_var, tx_vars)) ==> exists|b: int|
                0 <= b < self.blocks_seq().len() && (#[trigger] self.blocks_seq()[b]).block_var
                    == block_idx && self.blocks_seq()[b].tx_list_var == list_var
                    && self.blocks_seq()[b].tx_vars@ == tx_vars@,
            r is None ==> forall|b: int|
                0 <= b < self.blocks_seq().len() ==> (#[trigger] self.blocks_seq()[b]).block_var
                    != block_idx,
    {
        let mut b: usize = 0;
        while b < self.blocks.len()
            invariant
                self.wf(),
                b <= self.blocks@.len(),
                forall|q: int| 0 <= q < b ==> (#[trigger] self.blocks@[q]).block_var != block_idx,
            decreases self.blocks@.len() - b,
        {
            if self.blocks[b].block_var == block_idx {
                let entry = &self.blocks[b];
                let tx_vars = copy_indices(&entry.tx_vars);
                assert(self.block_entry_wf(self.blocks@[b as int]));
                assert(self.blocks_seq()[b as int].block_var == block_idx
                    && self.blocks_seq()[b as int].tx_list_var == entry.tx_list_var
                    && self.blocks_seq()[b as int].tx_vars@ == tx_vars@);
                return Some((entry.tx_list_var, tx_vars));
            }
            b = b + 1;
        }
        None
    }
}

impl ProgramBuilder {
    /// An existing random `Connection` variable, or a freshly synthesized
    /// one: when none is visible and the target exposes at least one node,
    /// a `LoadNode`, a `LoadConnectionType` and an `AddConnection` are
    /// appended and the new connection is returned. Without nodes there is
    /// nothing to connect to.
    pub fn get_or_create_random_connection<R: FuzzRng>(&mut self, rng: &mut R) -> (r: Option<
        VarRef,
    >)
        requires
            old(self).wf(),
        ensures
            final(self).wf(),
            final(self).spec_context() == old(self).spec_context(),
            final(self).frames_seq() == old(self).frames_seq(),
            preserves_visible(old(self).vars_seq(), final(self).vars_seq()),
            final(self).instructions().len() >= old(self).instructions().len(),
            forall|k: int|
                0 <= k < old(self).instructions().len() ==> final(self).instructions()[k] == old(
                    self,
                ).instructions()[k],
            r matches Some(v) ==> visible_as(
                final(self).vars_seq(),
                v.index as int,
                Variable::Connection,
            ),
            r is None <==> (old(self).spec_context().num_nodes == 0 && no_visible(
                old(self).vars_seq(),
                Variable::Connection,
            )),
            r is None ==> final(self).instructions() == old(self).instructions()
                && final(self).vars_seq() == old(self).vars_seq(),
            r is Some ==> ({
                let pre = old(self).instructions();
                let l = pre.len() as int;
                let s = old(self).vars_seq().len() as int;
                let post = final(self).instructions();
                ||| (post == pre && final(self).vars_seq() == old(self).vars_seq())
                ||| ({
                    &&& post.len() == l + 3
                    &&& post[l].inputs@.len() == 0
                    &&& post[l].operation matches Operation::LoadNode(x) && (x as int) < old(self).spec_context().num_nodes
                    &&& is_load_connection_type(post[l + 1])
                    &&& post[l + 2].operation == Operation::AddConnection
                    &&& post[l + 2].inputs@.len() == 2
                    &&& post[l + 2].inputs@[0] as int == s
                    &&& post[l + 2].inputs@[1] as int == s + 1
                    &&& r->Some_0.index as int == s + 2
                    &&& final(self).vars_seq().len() == s + 3
                })
            }),
    {
        match self.get_random_variable(rng, Variable::Connection) {
            Some(v) => {
                assert(preserves_visible(self.vars_seq(), self.vars_seq()));
                Some(v)
            },
            None => {
                let num_nodes = self.program.context.num_nodes;
                if num_nodes == 0 {
                    assert(preserves_visible(self.vars_seq(), self.vars_seq()));
                    return None;
                }
                let node_index = rng.pick_range(0, (num_nodes - 1) as u64) as usize;

                let load_node = Instruction {
                    inputs: Vec::new(),
                    operation: Operation::LoadNode(node_index),
                };
                let ghost g1 = load_node;
                proof {
                    crate::program::lemma_input_error_none(self.vars_seq(), g1);
                }
                let node = match self.append(load_node) {
                    Ok(refs) => {
                        assert(refs@.len() == 1);
                        refs[0]
                    },
                    Err(_) => {
                        assert(false);
                        return None;
                    },
                };

                let kind_word = if rng.chance(1, 2) {
                    inbound_label()
                } else {
                    outbound_label()
                };
                let load_type = Instruction {
                    inputs: Vec::new(),
                    operation: Operation::LoadConnectionType(kind_word),
                };
                let ghost g2 = load_type;
                proof {
                    crate::program::lemma_input_error_none(self.vars_seq(), g2);
                }
                let conn_type = match self.append(load_type) {
                    Ok(refs) => {
                        assert(refs@.len() == 1);
                        refs[0]
                    },
                    Err(_) => {
                        assert(false);
                        return None;
                    },
                };

                let mut inputs: Vec<usize> = Vec::new();
                inputs.push(node.index);
                inputs.push(conn_type.index);
                let add_conn = Instruction { inputs, operation: Operation::AddConnection };
                let ghost g3 = add_conn;
                proof {
                    assert(visible_as(self.vars_seq(), node.index as int, Variable::Node));
                    assert(visible_as(
                        self.vars_seq(),
                        conn_type.index as int,
                        Variable::ConnectionType,
                    ));
                    crate::program::lemma_input_error_none(self.vars_seq(), g3);
                }
                match self.append(add_conn) {
                    Ok(refs) => {
                        assert(refs@.len() == 1);
                        let conn = refs[0];
                        assert(visible_as(
                            self.vars_seq(),
                            conn.index as int,
                            Variable::Connection,
                        ));
                        Some(conn)
                    },
                    Err(_) => {
                        assert(false);
                        return None;
                    },
                }
            },
        }
    }
}

/// `Block` variables arise only as the second output of `BuildBlock`: no
/// other operation allocates one, and none arises as an inner output.
proof fn lemma_block_slots(op: Operation)
    ensures
        forall|k: int|
            0 <= k < op.output_types().len() && (#[trigger] op.output_types()[k])
                == Variable::Block ==> op == Operation::BuildBlock && k == 1,
        forall|k: int|
            0 <= k < op.inner_output_types().len() ==> (#[trigger] op.inner_output_types()[k])
                != Variable::Block,
{
}

/// Every inner-output a `Begin*` exposes has a `Mut*` kind.
proof fn lemma_begin_inner_kinds(op: Operation)
    requires
        op.spec_is_block_begin(),
    ensures
        forall|k: int|
            0 <= k < op.inner_output_types().len() ==> (
            #[trigger] op.inner_output_types()[k]).spec_is_inner(),
{
}

/// A successful step never touches the slots that hold non-`Mut*` kinds:
/// only the closed frame's inner range changes, and under
/// `frames_inner_only` that range holds `Mut*` slots alone. Slot kinds are
/// never rewritten at all.
proof fn lemma_step_preserves_non_inner(st: VState, instr: Instruction, st2: VState)
    requires
        step(st, instr) == Ok::<VState, ProgramValidationError>(st2),
        frames_inner_only(st.vars, st.frames),
        st2.vars.len() <= usize::MAX,
    ensures
        st2.vars.len() >= st.vars.len(),
        forall|i: int| 0 <= i < st.vars.len() ==> (#[trigger] st2.vars[i]).kind == st.vars[i].kind,
        forall|i: int|
            0 <= i < st.vars.len() && !(#[trigger] st.vars[i]).kind.spec_is_inner() ==> st2.vars[i]
                == st.vars[i],
        forall|i: int|
            st.vars.len() <= i < st2.vars.len() ==> (#[trigger] st2.vars[i]).in_scope,
{
    let op = instr.operation;
    if op.spec_is_block_end() {
        let top = st.frames.last();
        assert forall|i: int|
            0 <= i < st.vars.len() && !(#[trigger] st.vars[i]).kind.spec_is_inner() implies st2.vars[i]
            == st.vars[i] by {
            let f = st.frames.len() - 1;
            assert(st.frames[f] == top);
            if top.inner_start <= i < top.inner_start + top.inner_count {
                assert(st.vars[i].kind.spec_is_inner());
            }
        }
    }
}

/// A successful step keeps every frame covering only `Mut*` slots.
proof fn lemma_step_preserves_frames_inner_only(st: VState, instr: Instruction, st2: VState)
    requires
        step(st, instr) == Ok::<VState, ProgramValidationError>(st2),
        frames_inner_only(st.vars, st.frames),
        st2.vars.len() <= usize::MAX,
    ensures
        frames_inner_only(st2.vars, st2.frames),
{
    let op = instr.operation;
    lemma_step_preserves_non_inner(st, instr, st2);
    if op.spec_is_block_end() {
        assert forall|f: int, i: int|
            0 <= f < st2.frames.len() && (#[trigger] st2.frames[f]).inner_start <= i
                < st2.frames[f].inner_start + st2.frames[f].inner_count implies 0 <= i
            < st2.vars.len() && (#[trigger] st2.vars[i]).kind.spec_is_inner() by {
            assert(st2.frames[f] == st.frames[f]);
        }
    } else if op.spec_is_block_begin() {
        lemma_begin_inner_kinds(op);
        let fresh = op.output_types() + op.inner_output_types();
        assert forall|f: int, i: int|
            0 <= f < st2.frames.len() && (#[trigger] st2.frames[f]).inner_start <= i
                < st2.frames[f].inner_start + st2.frames[f].inner_count implies 0 <= i
            < st2.vars.len() && (#[trigger] st2.vars[i]).kind.spec_is_inner() by {
            if f < st.frames.len() {
                assert(st2.frames[f] == st.frames[f]);
            } else {
                let start = st.vars.len() + op.output_types().len();
                assert(st2.frames[f].inner_start == start);
                assert(st2.frames[f].inner_count == op.inner_output_types().len());
                let fresh = op.output_types() + op.inner_output_types();
                let k = i - st.vars.len();
                assert(st2.vars[i] == append_vars(st.vars, fresh)[i]);
                assert(st2.vars[i].kind == fresh[k]);
                assert(fresh[k] == op.inner_output_types()[k - op.output_types().len()]);
            }
        }
    } else {
        assert forall|f: int, i: int|
            0 <= f < st2.frames.len() && (#[trigger] st2.frames[f]).inner_start <= i
                < st2.frames[f].inner_start + st2.frames[f].inner_count implies 0 <= i
            < st2.vars.len() && (#[trigger] st2.vars[i]).kind.spec_is_inner() by {
            assert(st2.frames[f] == st.frames[f]);
        }
    }
}

/// The ASCII bytes of "inbound", the label of an inbound connection type.
pub open spec fn inbound_bytes() -> Seq<u8> {
    seq![105u8, 110, 98, 111, 117, 110, 100]
}

/// The ASCII bytes of "outbound", the label of an outbound connection type.
pub open spec fn outbound_bytes() -> Seq<u8> {
    seq![111u8, 117, 116, 98, 111, 117, 110, 100]
}

/// The label of an inbound connection type, as its ASCII bytes.
pub fn inbound_label() -> (r: Vec<u8>)
    ensures
        r@ == inbound_bytes(),
{
    let r = vec![105u8, 110, 98, 111, 117, 110, 100];
    proof {
        assert(r@ =~= inbound_bytes());
    }
    r
}

/// The label of an outbound connection type, as its ASCII bytes.
pub fn outbound_label() -> (r: Vec<u8>)
    ensures
        r@ == outbound_bytes(),
{
    let r = vec![111u8, 117, 116, 98, 111, 117, 110, 100];
    proof {
        assert(r@ =~= outbound_bytes());
    }
    r
}

/// A copy of a vector of variable indices.
fn copy_indices(v: &Vec<usize>) -> (r: Vec<usize>)
    ensures
        r@ == v@,
{
    let mut r: Vec<usize> = Vec::new();
    let mut i: usize = 0;
    while i < v.len()
        invariant
            i <= v@.len(),
            r@ =~= v@.take(i as int),
        decreases v@.len() - i,
    {
        r.push(v[i]);
        i = i + 1;
    }
    assert(r@ =~= v@);
    r
}

} // verus!
