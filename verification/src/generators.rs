//! Generators: small, single-purpose producers of protocol-action program
//! fragments.
//!
//! Every generator extends a builder and either fails cleanly, leaving the
//! program exactly as it was, or appends a fragment that keeps the program
//! valid — each appended instruction goes through the builder's
//! single-instruction validation, so an invalid extension cannot arise.
//! Each generator's contract fixes exactly when it fails and the shape of
//! the fragment it appends, whatever the randomness decided.

use vstd::prelude::*;

use crate::builder::{
    count_kind, count_visible_spec, is_load_connection_type, no_visible, preserves_visible,
    visible_as, ProgramBuilder,
};
use crate::operation::Operation;
use crate::program::{lemma_input_error_none, Context, Instruction};
use crate::rng::FuzzRng;
use crate::variable::Variable;

verus! {

/// Why a generator produced nothing.
#[derive(Clone, Copy, Debug, PartialEq, Eq, Structural)]
pub enum GeneratorError {
    /// No suitable in-scope variable exists to build on.
    MissingVariables,
    /// The program context rules the action out (say, no nodes to connect
    /// to).
    InvalidContext(Context),
}

pub type GeneratorResult = Result<(), GeneratorError>;

/// A producer of one protocol-action fragment. Starting from any
/// well-formed builder state, a generator either fails with a declared
/// error and leaves the program untouched, or extends the program while
/// keeping it valid, the open scopes unchanged and everything previously
/// visible still visible.
pub trait Generator<R: FuzzRng> {
    fn generate(&self, builder: &mut ProgramBuilder, rng: &mut R) -> (r: GeneratorResult)
        requires
            old(builder).wf(),
        ensures
            final(builder).wf(),
            final(builder).spec_context() == old(builder).spec_context(),
            final(builder).frames_seq() == old(builder).frames_seq(),
            preserves_visible(old(builder).vars_seq(), final(builder).vars_seq()),
            final(builder).instructions().len() >= old(builder).instructions().len(),
            forall|k: int|
                0 <= k < old(builder).instructions().len() ==> final(builder).instructions()[k]
                    == old(builder).instructions()[k],
            r is Err ==> final(builder).instructions() == old(builder).instructions()
                && final(builder).vars_seq() == old(builder).vars_seq(),
    ;

    fn name(&self) -> (r: &'static str);
}

/// The instructions at `base` form one fresh connection triple: a
/// `LoadNode` below the node count, a `LoadConnectionType` with one of the
/// two labels, and an `AddConnection` wired to exactly those two fresh
/// variables (at slots `slot_base` and `slot_base + 1`).
pub open spec fn connection_triple_at(
    instrs: Seq<Instruction>,
    base: int,
    slot_base: int,
    num_nodes: int,
) -> bool {
    &&& 0 <= base && base + 3 <= instrs.len()
    &&& instrs[base].inputs@.len() == 0
    &&& instrs[base].operation matches Operation::LoadNode(x) && (x as int) < num_nodes
    &&& is_load_connection_type(instrs[base + 1])
    &&& instrs[base + 2].operation == Operation::AddConnection
    &&& instrs[base + 2].inputs@.len() == 2
    &&& instrs[base + 2].inputs@[0] as int == slot_base
    &&& instrs[base + 2].inputs@[1] as int == slot_base + 1
}

/// The instructions at `base` form one connection pair over an existing
/// node variable: a `LoadConnectionType` and an `AddConnection` wired to
/// the node at `node` and the fresh type at slot `slot_base`.
pub open spec fn connection_pair_at(
    instrs: Seq<Instruction>,
    base: int,
    slot_base: int,
    node: int,
) -> bool {
    &&& 0 <= base && base + 2 <= instrs.len()
    &&& is_load_connection_type(instrs[base])
    &&& instrs[base + 1].operation == Operation::AddConnection
    &&& instrs[base + 1].inputs@.len() == 2
    &&& instrs[base + 1].inputs@[0] as int == node
    &&& instrs[base + 1].inputs@[1] as int == slot_base
}

/// The fragment a connection batch appends after `pre_len` instructions
/// and `pre_slots` variable slots: with nodes in the context, `n` full
/// `LoadNode`/`LoadConnectionType`/`AddConnection` triples; without nodes,
/// `n` `LoadConnectionType`/`AddConnection` pairs over the visible node
/// variable `node`.
pub open spec fn connection_batch(
    post: Seq<Instruction>,
    pre_len: int,
    pre_slots: int,
    n: int,
    num_nodes: int,
    node: int,
) -> bool {
    if num_nodes > 0 {
        &&& post.len() == pre_len + 3 * n
        &&& forall|t: int|
            0 <= t < n ==> #[trigger] connection_triple_at(
                post,
                pre_len + 3 * t,
                pre_slots + 3 * t,
                num_nodes,
            )
    } else {
        &&& post.len() == pre_len + 2 * n
        &&& forall|t: int|
            0 <= t < n ==> #[trigger] connection_pair_at(post, pre_len + 2 * t, pre_slots + 2 * t, node)
    }
}

/// `count_kind` over a single kind.
proof fn lemma_count_kind_single(k1: Variable, kind: Variable)
    ensures
        count_kind(seq![k1], kind) == if k1 == kind {
            1int
        } else {
            0int
        },
{
    assert(seq![k1].len() == 1);
    assert(seq![k1].last() == k1);
    assert(seq![k1].drop_last() =~= Seq::<Variable>::empty());
    assert(count_kind(Seq::<Variable>::empty(), kind) == 0);
}

/// Generates a batch of fresh connections to nodes: with nodes in the
/// context, each connection loads its own node; otherwise an existing node
/// variable is reused. Inbound and outbound are chosen with equal
/// probability. It fails, with the context as the error, exactly when
/// there is no node to connect to: none in the context and none visible.
#[derive(Clone, Copy, Debug, Default)]
pub struct AddConnectionGenerator;

impl<R: FuzzRng> Generator<R> for AddConnectionGenerator {
    fn generate(&self, builder: &mut ProgramBuilder, rng: &mut R) -> (r: GeneratorResult)
        ensures
            r is Err <==> (old(builder).spec_context().num_nodes == 0 && no_visible(
                old(builder).vars_seq(),
                Variable::Node,
            )),
            r is Err ==> r == Err::<(), GeneratorError>(
                GeneratorError::InvalidContext(old(builder).spec_context()),
            ),
            r is Ok ==> exists|n: int, node: int|
                {
                    &&& 1 <= n <= 100
                    &&& #[trigger] connection_batch(
                        final(builder).instructions(),
                        old(builder).instructions().len() as int,
                        old(builder).vars_seq().len() as int,
                        n,
                        old(builder).spec_context().num_nodes as int,
                        node,
                    )
                    &&& count_visible_spec(final(builder).vars_seq(), Variable::Connection)
                        == count_visible_spec(old(builder).vars_seq(), Variable::Connection) + n
                    &&& old(builder).spec_context().num_nodes == 0 ==> visible_as(
                        old(builder).vars_seq(),
                        node,
                        Variable::Node,
                    )
                },
    {
        // Mostly a small batch, occasionally a large one.
        let batch = if rng.chance(7, 10) {
            rng.pick_range(1, 10)
        } else {
            rng.pick_range(10, 100)
        };
        let n = batch as usize;
        let num_nodes = builder.context().num_nodes;
        let ghost orig = *builder;

        if num_nodes > 0 {
            let mut made: usize = 0;
            while made < n
                invariant
                    made <= n,
                    1 <= n <= 100,
                    orig == *old(builder),
                    num_nodes == orig.spec_context().num_nodes,
                    num_nodes > 0,
                    builder.wf(),
                    builder.spec_context() == orig.spec_context(),
                    builder.frames_seq() == orig.frames_seq(),
                    preserves_visible(orig.vars_seq(), builder.vars_seq()),
                    builder.instructions().len() == orig.instructions().len() + 3 * made,
                    builder.vars_seq().len() == orig.vars_seq().len() + 3 * made,
                    forall|k: int|
                        0 <= k < orig.instructions().len() ==> builder.instructions()[k]
                            == orig.instructions()[k],
                    forall|t: int|
                        0 <= t < made ==> #[trigger] connection_triple_at(
                            builder.instructions(),
                            orig.instructions().len() + 3 * t,
                            orig.vars_seq().len() + 3 * t,
                            num_nodes as int,
                        ),
                    count_visible_spec(builder.vars_seq(), Variable::Connection)
                        == count_visible_spec(orig.vars_seq(), Variable::Connection) + made,
                decreases n - made,
            {
                let ghost entry_instrs = builder.instructions();
                let ghost pre_vars = builder.vars_seq();
                let node_index = rng.pick_range(0, (num_nodes - 1) as u64) as usize;
                let load_node = Instruction {
                    inputs: Vec::new(),
                    operation: Operation::LoadNode(node_index),
                };
                let ghost g1 = load_node;
                proof {
                    lemma_input_error_none(builder.vars_seq(), g1);
                }
                let node = match builder.append(load_node) {
                    Ok(refs) => {
                        assert(refs@.len() == 1);
                        refs[0]
                    },
                    Err(_) => {
                        assert(false);
                        return Err(GeneratorError::MissingVariables);
                    },
                };
                proof {
                    crate::builder::lemma_count_visible_append(
                        pre_vars,
                        g1.operation.output_types() + g1.operation.inner_output_types(),
                        Variable::Connection,
                    );
                    assert(g1.operation.output_types() + g1.operation.inner_output_types()
                        =~= seq![Variable::Node]);
                    lemma_count_kind_single(Variable::Node, Variable::Connection);
                }

                let ghost vars1 = builder.vars_seq();
                let kind_word = if rng.chance(1, 2) {
                    crate::builder::inbound_label()
                } else {
                    crate::builder::outbound_label()
                };
                let load_type = Instruction {
                    inputs: Vec::new(),
                    operation: Operation::LoadConnectionType(kind_word),
                };
                let ghost g2 = load_type;
                proof {
                    lemma_input_error_none(builder.vars_seq(), g2);
                }
                let conn_type = match builder.append(load_type) {
                    Ok(refs) => {
                        assert(refs@.len() == 1);
                        refs[0]
                    },
                    Err(_) => {
                        assert(false);
                        return Err(GeneratorError::MissingVariables);
                    },
                };
                proof {
                    crate::builder::lemma_count_visible_append(
                        vars1,
                        g2.operation.output_types() + g2.operation.inner_output_types(),
                        Variable::Connection,
                    );
                    assert(g2.operation.output_types() + g2.operation.inner_output_types()
                        =~= seq![Variable::ConnectionType]);
                    lemma_count_kind_single(Variable::ConnectionType, Variable::Connection);
                }

                let ghost vars2 = builder.vars_seq();
                let mut inputs: Vec<usize> = Vec::new();
                inputs.push(node.index);
                inputs.push(conn_type.index);
                let add_conn = Instruction { inputs, operation: Operation::AddConnection };
                let ghost g3 = add_conn;
                proof {
                    assert(visible_as(builder.vars_seq(), node.index as int, Variable::Node));
                    assert(visible_as(
                        builder.vars_seq(),
                        conn_type.index as int,
                        Variable::ConnectionType,
                    ));
                    lemma_input_error_none(builder.vars_seq(), g3);
                }
                match builder.append(add_conn) {
                    Ok(_) => {},
                    Err(_) => {
                        assert(false);
                        return Err(GeneratorError::MissingVariables);
                    },
                }
                proof {
                    crate::builder::lemma_count_visible_append(
                        vars2,
                        g3.operation.output_types() + g3.operation.inner_output_types(),
                        Variable::Connection,
                    );
                    assert(g3.operation.output_types() + g3.operation.inner_output_types()
                        =~= seq![Variable::Connection]);
                    lemma_count_kind_single(Variable::Connection, Variable::Connection);
                    assert(connection_triple_at(
                        builder.instructions(),
                        orig.instructions().len() + 3 * made,
                        orig.vars_seq().len() + 3 * made,
                        num_nodes as int,
                    ));
                    assert forall|t: int| 0 <= t < made implies #[trigger] connection_triple_at(
                        builder.instructions(),
                        orig.instructions().len() + 3 * t,
                        orig.vars_seq().len() + 3 * t,
                        num_nodes as int,
                    ) by {
                        assert(connection_triple_at(
                            entry_instrs,
                            orig.instructions().len() + 3 * t,
                            orig.vars_seq().len() + 3 * t,
                            num_nodes as int,
                        ));
                        assert(forall|i: int|
                            0 <= i < entry_instrs.len() ==> builder.instructions()[i]
                                == entry_instrs[i]);
                    }
                }
                made = made + 1;
            }
            proof {
                assert(connection_batch(
                    builder.instructions(),
                    orig.instructions().len() as int,
                    orig.vars_seq().len() as int,
                    n as int,
                    num_nodes as int,
                    0,
                ));
            }
            Ok(())
        } else {
            let node = match builder.get_random_variable(rng, Variable::Node) {
                Some(v) => v,
                None => {
                    return Err(GeneratorError::InvalidContext(*builder.context()));
                },
            };
            assert(visible_as(orig.vars_seq(), node.index as int, Variable::Node));
            assert(!no_visible(orig.vars_seq(), Variable::Node));

            let mut made: usize = 0;
            while made < n
                invariant
                    made <= n,
                    1 <= n <= 100,
                    orig == *old(builder),
                    orig.spec_context().num_nodes == 0,
                    builder.wf(),
                    builder.spec_context() == orig.spec_context(),
                    builder.frames_seq() == orig.frames_seq(),
                    preserves_visible(orig.vars_seq(), builder.vars_seq()),
                    visible_as(orig.vars_seq(), node.index as int, Variable::Node),
                    visible_as(builder.vars_seq(), node.index as int, Variable::Node),
                    builder.instructions().len() == orig.instructions().len() + 2 * made,
                    builder.vars_seq().len() == orig.vars_seq().len() + 2 * made,
                    forall|k: int|
                        0 <= k < orig.instructions().len() ==> builder.instructions()[k]
                            == orig.instructions()[k],
                    forall|t: int|
                        0 <= t < made ==> #[trigger] connection_pair_at(
                            builder.instructions(),
                            orig.instructions().len() + 2 * t,
                            orig.vars_seq().len() + 2 * t,
                            node.index as int,
                        ),
                    count_visible_spec(builder.vars_seq(), Variable::Connection)
                        == count_visible_spec(orig.vars_seq(), Variable::Connection) + made,
                decreases n - made,
            {
                let ghost entry_instrs = builder.instructions();
                let ghost pre_vars = builder.vars_seq();
                let kind_word = if rng.chance(1, 2) {
                    crate::builder::inbound_label()
                } else {
                    crate::builder::outbound_label()
                };
                let load_type = Instruction {
                    inputs: Vec::new(),
                    operation: Operation::LoadConnectionType(kind_word),
                };
                let ghost g2 = load_type;
                proof {
                    lemma_input_error_none(builder.vars_seq(), g2);
                }
                let conn_type = match builder.append(load_type) {
                    Ok(refs) => {
                        assert(refs@.len() == 1);
                        refs[0]
                    },
                    Err(_) => {
                        assert(false);
                        return Err(GeneratorError::MissingVariables);
                    },
                };
                proof {
                    crate::builder::lemma_count_visible_append(
                        pre_vars,
                        g2.operation.output_types() + g2.operation.inner_output_types(),
                        Variable::Connection,
                    );
                    assert(g2.operation.output_types() + g2.operation.inner_output_types()
                        =~= seq![Variable::ConnectionType]);
                    lemma_count_kind_single(Variable::ConnectionType, Variable::Connection);
                }

                let ghost vars1 = builder.vars_seq();
                let mut inputs: Vec<usize> = Vec::new();
                inputs.push(node.index);
                inputs.push(conn_type.index);
                let add_conn = Instruction { inputs, operation: Operation::AddConnection };
                let ghost g3 = add_conn;
                proof {
                    assert(visible_as(builder.vars_seq(), node.index as int, Variable::Node));
                    assert(visible_as(
                        builder.vars_seq(),
                        conn_type.index as int,
                        Variable::ConnectionType,
                    ));
                    lemma_input_error_none(builder.vars_seq(), g3);
                }
                match builder.append(add_conn) {
                    Ok(_) => {},
                    Err(_) => {
                        assert(false);
                        return Err(GeneratorError::MissingVariables);
                    },
                }
                proof {
                    crate::builder::lemma_count_visible_append(
                        vars1,
                        g3.operation.output_types() + g3.operation.inner_output_types(),
                        Variable::Connection,
                    );
                    assert(g3.operation.output_types() + g3.operation.inner_output_types()
                        =~= seq![Variable::Connection]);
                    lemma_count_kind_single(Variable::Connection, Variable::Connection);
                    assert(connection_pair_at(
                        builder.instructions(),
                        orig.instructions().len() + 2 * made,
                        orig.vars_seq().len() + 2 * made,
                        node.index as int,
                    ));
                    assert forall|t: int| 0 <= t < made implies #[trigger] connection_pair_at(
                        builder.instructions(),
                        orig.instructions().len() + 2 * t,
                        orig.vars_seq().len() + 2 * t,
                        node.index as int,
                    ) by {
                        assert(connection_pair_at(
                            entry_instrs,
                            orig.instructions().len() + 2 * t,
                            orig.vars_seq().len() + 2 * t,
                            node.index as int,
                        ));
                        assert(forall|i: int|
                            0 <= i < entry_instrs.len() ==> builder.instructions()[i]
                                == entry_instrs[i]);
                    }
                }
                made = made + 1;
            }
            proof {
                assert(connection_batch(
                    builder.instructions(),
                    orig.instructions().len() as int,
                    orig.vars_seq().len() as int,
                    n as int,
                    0,
                    node.index as int,
                ));
            }
            Ok(())
        }
    }

    fn name(&self) -> (r: &'static str) {
        "AddConnectionGenerator"
    }
}

/// The fragment a compact-block announcement appends after `pre_len`
/// instructions and `pre_slots` variable slots: `c` instructions creating
/// a connection (none, or a full triple), a `LoadNonce`, a
/// `BeginPrefillTransactions`, `m` `AddPrefillTx` instructions over the
/// first `m` entries of `perm` — a permutation of the block's recorded
/// transactions `txs` — then the `EndPrefillTransactions`, the
/// `BuildCompactBlockWithPrefill` over the block, the nonce and the closed
/// prefill list, and the `SendCompactBlock` on the connection at `conn`.
pub open spec fn compact_block_fragment(
    pre: Seq<Instruction>,
    post: Seq<Instruction>,
    pre_slots: int,
    c: int,
    m: int,
    block: int,
    list_var: int,
    txs: Seq<usize>,
    perm: Seq<usize>,
    conn: int,
) -> bool {
    let base = pre.len() + c;
    let prefill_slot = pre_slots + c + 1;
    &&& c == 0 || c == 3
    &&& perm.len() == txs.len()
    &&& perm.to_multiset() == txs.to_multiset()
    &&& 0 <= m <= perm.len()
    &&& post.len() == pre.len() + c + m + 5
    &&& post[base].inputs@.len() == 0
    &&& post[base].operation matches Operation::LoadNonce(_)
    &&& post[base + 1].inputs@.len() == 0
    &&& post[base + 1].operation == Operation::BeginPrefillTransactions
    &&& forall|j: int|
        0 <= j < m ==> {
            &&& (#[trigger] post[base + 2 + j]).operation == Operation::AddPrefillTx
            &&& post[base + 2 + j].inputs@.len() == 3
            &&& post[base + 2 + j].inputs@[0] as int == prefill_slot
            &&& post[base + 2 + j].inputs@[1] as int == list_var
            &&& post[base + 2 + j].inputs@[2] == perm[j]
        }
    &&& post[base + 2 + m].operation == Operation::EndPrefillTransactions
    &&& post[base + 2 + m].inputs@.len() == 1
    &&& post[base + 2 + m].inputs@[0] as int == prefill_slot
    &&& post[base + 3 + m].operation == Operation::BuildCompactBlockWithPrefill
    &&& post[base + 3 + m].inputs@.len() == 3
    &&& post[base + 3 + m].inputs@[0] as int == block
    &&& post[base + 3 + m].inputs@[1] as int == pre_slots + c
    &&& post[base + 3 + m].inputs@[2] as int == pre_slots + c + 2
    &&& post[base + 4 + m].operation == Operation::SendCompactBlock
    &&& post[base + 4 + m].inputs@.len() == 2
    &&& post[base + 4 + m].inputs@[0] as int == conn
    &&& post[base + 4 + m].inputs@[1] as int == pre_slots + c + 3
}

/// Generates a `cmpctblock` announcement for a previously built block: a
/// prefill list over a random subset of the block's own transactions, a
/// nonce, the compact block itself, and its send. It fails with
/// `MissingVariables` exactly when no `Block` variable is visible, and
/// with the context exactly when a block is visible but there is no
/// connection and no node to make one.
#[derive(Clone, Copy, Debug, Default)]
pub struct CompactBlockGenerator;

impl<R: FuzzRng> Generator<R> for CompactBlockGenerator {
    fn generate(&self, builder: &mut ProgramBuilder, rng: &mut R) -> (r: GeneratorResult)
        ensures
            r == Err::<(), GeneratorError>(GeneratorError::MissingVariables) <==> no_visible(
                old(builder).vars_seq(),
                Variable::Block,
            ),
            (r matches Err(e) && e matches GeneratorError::InvalidContext(_)) <==> (!no_visible(
                old(builder).vars_seq(),
                Variable::Block,
            ) && old(builder).spec_context().num_nodes == 0 && no_visible(
                old(builder).vars_seq(),
                Variable::Connection,
            )),
            r is Err ==> (r == Err::<(), GeneratorError>(GeneratorError::MissingVariables) || r
                == Err::<(), GeneratorError>(
                GeneratorError::InvalidContext(old(builder).spec_context()),
            )),
            r is Ok ==> exists|c: int, m: int, block: int, list_var: int, txs: Seq<usize>, perm: Seq<usize>, conn: int|
                {
                    &&& #[trigger] compact_block_fragment(
                        old(builder).instructions(),
                        final(builder).instructions(),
                        old(builder).vars_seq().len() as int,
                        c,
                        m,
                        block,
                        list_var,
                        txs,
                        perm,
                        conn,
                    )
                    &&& visible_as(old(builder).vars_seq(), block, Variable::Block)
                    &&& exists|b: int|
                        0 <= b < old(builder).blocks_seq().len() && (#[trigger] old(
                            builder,
                        ).blocks_seq()[b]).block_var == block && old(
                            builder,
                        ).blocks_seq()[b].tx_list_var == list_var && old(
                            builder,
                        ).blocks_seq()[b].tx_vars@ == txs
                    &&& visible_as(final(builder).vars_seq(), conn, Variable::Connection)
                },
    {
        // The block this compact block announces; its transactions are
        // recorded with the builder.
        let block = match builder.get_random_variable(rng, Variable::Block) {
            Some(v) => v,
            None => {
                return Err(GeneratorError::MissingVariables);
            },
        };
        assert(visible_as(builder.vars_seq(), block.index as int, Variable::Block));
        let (tx_list_var, tx_vars) = match builder.get_block_vars(block.index) {
            Some(entry) => entry,
            None => {
                // A visible block always has a recorded entry.
                proof {
                    builder.lemma_visible_block_recorded(block.index as int);
                }
                assert(false);
                return Err(GeneratorError::MissingVariables);
            },
        };
        let ghost txs: Seq<usize> = tx_vars@;

        let ghost orig = *builder;
        let connection = match builder.get_or_create_random_connection(rng) {
            Some(c) => c,
            None => {
                return Err(GeneratorError::InvalidContext(*builder.context()));
            },
        };
        let ghost c_count: int = builder.instructions().len() - orig.instructions().len();
        assert(c_count == 0 || c_count == 3);
        assert(builder.vars_seq().len() == orig.vars_seq().len() + c_count);
        assert(visible_as(builder.vars_seq(), block.index as int, Variable::Block));
        assert(visible_as(
            builder.vars_seq(),
            tx_list_var as int,
            Variable::ConstBlockTransactions,
        ));

        let load_nonce = Instruction {
            inputs: Vec::new(),
            operation: Operation::LoadNonce(rng.pick_range(0, u64::MAX - 1)),
        };
        let ghost g1 = load_nonce;
        proof {
            lemma_input_error_none(builder.vars_seq(), g1);
        }
        let nonce = match builder.append(load_nonce) {
            Ok(refs) => {
                assert(refs@.len() == 1);
                refs[0]
            },
            Err(_) => {
                assert(false);
                return Err(GeneratorError::MissingVariables);
            },
        };
        assert(nonce.index as int == orig.vars_seq().len() + c_count);
        assert(builder.instructions().len() == orig.instructions().len() + c_count + 1);
        assert(builder.instructions()[orig.instructions().len() + c_count] == g1);

        // Open the prefill list.
        let begin_prefill = Instruction {
            inputs: Vec::new(),
            operation: Operation::BeginPrefillTransactions,
        };
        let ghost g2 = begin_prefill;
        proof {
            lemma_input_error_none(builder.vars_seq(), g2);
        }
        let prefill = match builder.append(begin_prefill) {
            Ok(refs) => {
                assert(refs@.len() == 1);
                refs[0]
            },
            Err(_) => {
                assert(false);
                return Err(GeneratorError::MissingVariables);
            },
        };
        assert(prefill.index as int == orig.vars_seq().len() + c_count + 1);
        let ghost mid = *builder;
        assert(mid.instructions().len() == orig.instructions().len() + c_count + 2);
        assert(mid.instructions()[orig.instructions().len() + c_count] == g1);
        assert(mid.instructions()[orig.instructions().len() + c_count + 1] == g2);
        assert(visible_as(mid.vars_seq(), prefill.index as int, Variable::MutPrefillTxs));
        assert(mid.frames_seq().len() > 0 && mid.frames_seq().last().kind
            == crate::operation::ScopeKind::PrefillTransactions);

        // Prefill a random subset of the block's transactions, in a random
        // order; every one of them is known to belong to this block.
        let ghost mut perm: Seq<usize> = txs;
        let mut num_prefill: usize = 0;
        if tx_vars.len() > 0 {
            num_prefill = rng.pick_range(0, tx_vars.len() as u64) as usize;
            let mut shuffled = tx_vars;
            let ghost before_shuffle = shuffled@;
            rng.shuffle(&mut shuffled);
            proof {
                perm = shuffled@;
                broadcast use vstd::seq_lib::group_to_multiset_ensures;

                assert forall|k: int| 0 <= k < shuffled@.len() implies visible_as(
                    mid.vars_seq(),
                    #[trigger] shuffled@[k] as int,
                    Variable::ConstTx,
                ) by {
                    assert(shuffled@.contains(shuffled@[k]));
                    assert(before_shuffle.to_multiset().count(shuffled@[k]) > 0);
                    assert(before_shuffle.contains(shuffled@[k]));
                }
            }
            proof {
                broadcast use vstd::seq_lib::group_to_multiset_ensures;

                assert(shuffled@.to_multiset().len() == before_shuffle.to_multiset().len());
                assert(perm.len() == txs.len());
                assert(num_prefill <= shuffled@.len());
            }

            let mut t: usize = 0;
            while t < num_prefill
                invariant
                    t <= num_prefill,
                    num_prefill <= shuffled@.len(),
                    shuffled@ == perm,
                    builder.wf(),
                    builder.vars_seq() == mid.vars_seq(),
                    builder.frames_seq() == mid.frames_seq(),
                    builder.spec_context() == mid.spec_context(),
                    builder.instructions().len() == mid.instructions().len() + t,
                    forall|k: int|
                        0 <= k < mid.instructions().len() ==> builder.instructions()[k]
                            == mid.instructions()[k],
                    forall|j: int|
                        0 <= j < t ==> {
                            &&& (#[trigger] builder.instructions()[mid.instructions().len()
                                + j]).operation == Operation::AddPrefillTx
                            &&& builder.instructions()[mid.instructions().len() + j].inputs@.len()
                                == 3
                            &&& builder.instructions()[mid.instructions().len() + j].inputs@[0]
                                == prefill.index
                            &&& builder.instructions()[mid.instructions().len() + j].inputs@[1]
                                == tx_list_var
                            &&& builder.instructions()[mid.instructions().len() + j].inputs@[2]
                                == perm[j]
                        },
                    visible_as(mid.vars_seq(), prefill.index as int, Variable::MutPrefillTxs),
                    visible_as(mid.vars_seq(), tx_list_var as int, Variable::ConstBlockTransactions),
                    forall|k: int|
                        0 <= k < shuffled@.len() ==> visible_as(
                            mid.vars_seq(),
                            #[trigger] shuffled@[k] as int,
                            Variable::ConstTx,
                        ),
                decreases num_prefill - t,
            {
                let mut inputs: Vec<usize> = Vec::new();
                inputs.push(prefill.index);
                inputs.push(tx_list_var);
                inputs.push(shuffled[t]);
                let add_prefill = Instruction { inputs, operation: Operation::AddPrefillTx };
                let ghost g3 = add_prefill;
                proof {
                    lemma_input_error_none(builder.vars_seq(), g3);
                }
                match builder.append(add_prefill) {
                    Ok(_) => {},
                    Err(_) => {
                        assert(false);
                        return Err(GeneratorError::MissingVariables);
                    },
                }
                t = t + 1;
            }
        }
        let ghost m: int = num_prefill as int;
        assert(builder.instructions().len() == mid.instructions().len() + m);
        assert(builder.instructions()[orig.instructions().len() + c_count] == g1);
        assert(builder.instructions()[orig.instructions().len() + c_count + 1] == g2);

        // Close the prefill list; the scope opened above is still on top.
        let mut end_inputs: Vec<usize> = Vec::new();
        end_inputs.push(prefill.index);
        let end_prefill = Instruction {
            inputs: end_inputs,
            operation: Operation::EndPrefillTransactions,
        };
        let ghost g4 = end_prefill;
        proof {
            assert forall|k: int|
                0 <= k < old(builder).instructions().len() implies builder.instructions()[k]
                == old(builder).instructions()[k] by {
                assert(mid.instructions()[k] == old(builder).instructions()[k]);
                assert(builder.instructions()[k] == mid.instructions()[k]);
            }
            lemma_input_error_none(builder.vars_seq(), g4);
        }
        let const_prefill = match builder.append(end_prefill) {
            Ok(refs) => {
                assert(refs@.len() == 1);
                refs[0]
            },
            Err(_) => {
                assert(false);
                return Err(GeneratorError::MissingVariables);
            },
        };
        assert(const_prefill.index as int == orig.vars_seq().len() + c_count + 2);
        assert(visible_as(
            builder.vars_seq(),
            const_prefill.index as int,
            Variable::ConstPrefillTxs,
        ));
        assert(builder.frames_seq() =~= orig.frames_seq());

        // Build and send the compact block.
        let mut build_inputs: Vec<usize> = Vec::new();
        build_inputs.push(block.index);
        build_inputs.push(nonce.index);
        build_inputs.push(const_prefill.index);
        let build = Instruction {
            inputs: build_inputs,
            operation: Operation::BuildCompactBlockWithPrefill,
        };
        let ghost g5 = build;
        proof {
            lemma_input_error_none(builder.vars_seq(), g5);
        }
        let cmpct = match builder.append(build) {
            Ok(refs) => {
                assert(refs@.len() == 1);
                refs[0]
            },
            Err(_) => {
                assert(false);
                return Err(GeneratorError::MissingVariables);
            },
        };
        assert(cmpct.index as int == orig.vars_seq().len() + c_count + 3);

        let mut send_inputs: Vec<usize> = Vec::new();
        send_inputs.push(connection.index);
        send_inputs.push(cmpct.index);
        let send = Instruction { inputs: send_inputs, operation: Operation::SendCompactBlock };
        let ghost g6 = send;
        proof {
            lemma_input_error_none(builder.vars_seq(), g6);
        }
        match builder.append(send) {
            Ok(_) => {},
            Err(_) => {
                assert(false);
                return Err(GeneratorError::MissingVariables);
            },
        }
        proof {
            let pre = old(builder).instructions();
            let post = builder.instructions();
            let pre_slots = old(builder).vars_seq().len() as int;
            let base = pre.len() + c_count;
            let prefill_slot = pre_slots + c_count + 1;
            assert(perm.len() == txs.len());
            assert(perm.to_multiset() == txs.to_multiset());
            assert(0 <= m <= perm.len());
            assert(post.len() == pre.len() + c_count + m + 5);
            assert(post[base].inputs@.len() == 0);
            assert(post[base].operation matches Operation::LoadNonce(_));
            assert(post[base + 1].inputs@.len() == 0);
            assert(post[base + 1].operation == Operation::BeginPrefillTransactions);
            assert forall|j: int| 0 <= j < m implies {
                &&& (#[trigger] post[base + 2 + j]).operation == Operation::AddPrefillTx
                &&& post[base + 2 + j].inputs@.len() == 3
                &&& post[base + 2 + j].inputs@[0] as int == prefill_slot
                &&& post[base + 2 + j].inputs@[1] as int == tx_list_var as int
                &&& post[base + 2 + j].inputs@[2] == perm[j]
            } by {
                assert(mid.instructions().len() + j == base + 2 + j);
            }
            assert(post[base + 2 + m].operation == Operation::EndPrefillTransactions);
            assert(post[base + 2 + m].inputs@.len() == 1);
            assert(post[base + 2 + m].inputs@[0] as int == prefill_slot);
            assert(post[base + 3 + m].operation == Operation::BuildCompactBlockWithPrefill);
            assert(post[base + 3 + m].inputs@.len() == 3);
            assert(post[base + 3 + m].inputs@[0] as int == block.index as int);
            assert(post[base + 3 + m].inputs@[1] as int == pre_slots + c_count);
            assert(post[base + 3 + m].inputs@[2] as int == pre_slots + c_count + 2);
            assert(post[base + 4 + m].operation == Operation::SendCompactBlock);
            assert(post[base + 4 + m].inputs@.len() == 2);
            assert(post[base + 4 + m].inputs@[0] as int == connection.index as int);
            assert(post[base + 4 + m].inputs@[1] as int == pre_slots + c_count + 3);
            assert(compact_block_fragment(
                pre,
                post,
                pre_slots,
                c_count,
                m,
                block.index as int,
                tx_list_var as int,
                txs,
                perm,
                connection.index as int,
            ));
        }
        Ok(())
    }

    fn name(&self) -> (r: &'static str) {
        "CompactBlockGenerator"
    }
}

} // verus!
