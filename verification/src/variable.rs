//! The closed vocabulary of typed variables that IR instructions produce and
//! consume.

use vstd::prelude::*;

verus! {

/// The kind of a value produced by an instruction. Instructions reference
/// earlier outputs by index; the validator checks that the kind recorded for
/// an index matches the formal input type of the consuming operation.
///
/// Container variables come in matched pairs: a `Mut*` form that exists only
/// between a scope's `Begin` and its matching `End`, and a `Const*` form
/// produced when the scope ends. The `Nop` kind is carried by placeholder
/// outputs of `Nop` operations used during minimization; no operation accepts
/// it as an input.
#[derive(Clone, Copy, Debug, PartialEq, Eq, Structural)]
pub enum Variable {
    Node,
    Connection,
    ConnectionType,
    MsgType,
    Bytes,
    Duration,
    Time,
    BlockHeight,
    CompactFilterType,
    ConstAmount,
    TxVersion,
    BlockVersion,
    LockTime,
    Sequence,
    Size,
    PrivateKey,
    SigHashFlags,
    Txo,
    Scripts,
    Header,
    Block,
    Nonce,
    CompactBlock,
    CoinbaseInput,
    CoinbaseTx,
    MutTx,
    ConstTx,
    MutTxInputs,
    ConstTxInputs,
    MutTxOutputs,
    ConstTxOutputs,
    MutWitnessStack,
    ConstWitnessStack,
    MutInventory,
    ConstInventory,
    MutBlockTransactions,
    ConstBlockTransactions,
    MutPrefillTxs,
    ConstPrefillTxs,
    Nop,
}

impl Variable {
    /// Whether this kind is one of the `Mut*` container forms, i.e. an
    /// inner-output of some scope that the matching `End` takes back out of
    /// scope.
    pub open spec fn spec_is_inner(self) -> bool {
        match self {
            Variable::MutTx
            | Variable::MutTxInputs
            | Variable::MutTxOutputs
            | Variable::MutWitnessStack
            | Variable::MutInventory
            | Variable::MutBlockTransactions
            | Variable::MutPrefillTxs => true,
            _ => false,
        }
    }

    /// Executable form of [`Variable::spec_is_inner`].
    pub fn is_inner(&self) -> (r: bool)
        ensures
            r == self.spec_is_inner(),
    {
        match self {
            Variable::MutTx
            | Variable::MutTxInputs
            | Variable::MutTxOutputs
            | Variable::MutWitnessStack
            | Variable::MutInventory
            | Variable::MutBlockTransactions
            | Variable::MutPrefillTxs => true,
            _ => false,
        }
    }
}

} // verus!
