//! The closed vocabulary of operations that make up IR instructions.
//!
//! For every operation the type signature (formal input kinds, output kinds,
//! inner-output kinds) is fixed and queryable; the validator, the builder and
//! the mutators depend only on these queries.

use vstd::prelude::*;

use crate::variable::Variable;

verus! {

/// Identifies a matched `Begin*`/`End*` scope pair. A `Begin` pushes a frame
/// carrying its kind; the matching `End` must find the same kind on top of
/// the scope stack.
#[derive(Clone, Copy, Debug, PartialEq, Eq, Structural)]
pub enum ScopeKind {
    Tx,
    TxInputs,
    TxOutputs,
    WitnessStack,
    Inventory,
    BlockTransactions,
    CoinbaseTx,
    CoinbaseTxOutputs,
    PrefillTransactions,
}

/// One element of the closed operation vocabulary.
///
/// `Load*` operations embed literal data and produce one output of the
/// corresponding kind. Build operations consume typed inputs and produce
/// typed outputs. `Begin*`/`End*` pairs open and close scopes whose
/// inner-output variables are visible only inside the scope. `Send*`
/// operations transmit a message on a connection and have no outputs. `Nop`
/// carries declared output and inner-output counts so it can stand in for a
/// deleted instruction without shifting later variable indices.
/// `IncrementalSnapshot` is inserted by the execution layer just before
/// compilation and never appears in validated corpus programs.
#[derive(Debug)]
pub enum Operation {
    Nop { outputs: usize, inner_outputs: usize },

    LoadBytes(Vec<u8>),
    LoadMsgType(Vec<u8>),
    LoadNode(usize),
    LoadConnection(usize),
    LoadConnectionType(Vec<u8>),
    LoadDuration(u64),
    LoadTime(u64),
    LoadAmount(u64),
    LoadSize(usize),
    LoadTxVersion(u32),
    LoadBlockVersion(i32),
    LoadLockTime(u32),
    LoadSequence(u32),
    LoadBlockHeight(u32),
    LoadCompactFilterType(u8),
    LoadPrivateKey(Vec<u8>),
    LoadSigHashFlags(u8),
    LoadNonce(u64),
    LoadTxo {
        outpoint_hash: Vec<u8>,
        outpoint_index: u32,
        value: u64,
        script_pubkey: Vec<u8>,
        spending_script_sig: Vec<u8>,
        spending_witness: Vec<Vec<u8>>,
    },
    LoadHeader {
        prev: Vec<u8>,
        merkle_root: Vec<u8>,
        nonce: u32,
        bits: u32,
        time: u32,
        version: i32,
        height: u32,
    },

    SendRawMessage,
    AdvanceTime,
    SetTime,
    AddConnection,

    BuildRawScripts,
    BuildPayToWitnessScriptHash,
    BuildPayToPubKey,
    BuildPayToPubKeyHash,
    BuildPayToWitnessPubKeyHash,
    BuildPayToScriptHash,
    BuildOpReturnScripts,
    BuildPayToAnchor,

    BeginWitnessStack,
    EndWitnessStack,
    AddWitness,
    BeginBuildTx,
    EndBuildTx,
    BeginBuildTxInputs,
    EndBuildTxInputs,
    BeginBuildTxOutputs,
    EndBuildTxOutputs,
    AddTxOutput,
    AddTxInput,
    TakeTxo,

    BeginBuildCoinbaseTx,
    EndBuildCoinbaseTx,
    BuildCoinbaseTxInput,
    BeginBuildCoinbaseTxOutputs,
    EndBuildCoinbaseTxOutputs,
    AddCoinbaseTxOutput,

    BeginBlockTransactions,
    EndBlockTransactions,
    BuildBlock,
    AddTx,
    AddCoinbaseTx,

    BeginBuildInventory,
    EndBuildInventory,
    AddCompactBlockInv,
    AddTxidInv,
    AddTxidWithWitnessInv,
    AddWtxidInv,
    AddBlockInv,
    AddBlockWithWitnessInv,
    AddFilteredBlockInv,

    BeginPrefillTransactions,
    EndPrefillTransactions,
    AddPrefillTx,
    BuildCompactBlockWithPrefill,

    SendGetData,
    SendInv,
    SendTx,
    SendTxNoWit,
    SendHeader,
    SendBlock,
    SendBlockNoWit,
    SendGetCFilters,
    SendGetCFHeaders,
    SendGetCFCheckpt,
    SendCompactBlock,

    IncrementalSnapshot,
}

impl Operation {
    /// The scope kind this operation opens, if it is a `Begin*`.
    pub open spec fn begin_kind(self) -> Option<ScopeKind> {
        match self {
            Operation::BeginBuildTx => Some(ScopeKind::Tx),
            Operation::BeginBuildTxInputs => Some(ScopeKind::TxInputs),
            Operation::BeginBuildTxOutputs => Some(ScopeKind::TxOutputs),
            Operation::BeginWitnessStack => Some(ScopeKind::WitnessStack),
            Operation::BeginBuildInventory => Some(ScopeKind::Inventory),
            Operation::BeginBlockTransactions => Some(ScopeKind::BlockTransactions),
            Operation::BeginBuildCoinbaseTx => Some(ScopeKind::CoinbaseTx),
            Operation::BeginBuildCoinbaseTxOutputs => Some(ScopeKind::CoinbaseTxOutputs),
            Operation::BeginPrefillTransactions => Some(ScopeKind::PrefillTransactions),
            _ => None,
        }
    }

    /// The scope kind this operation closes, if it is an `End*`.
    pub open spec fn end_kind(self) -> Option<ScopeKind> {
        match self {
            Operation::EndBuildTx => Some(ScopeKind::Tx),
            Operation::EndBuildTxInputs => Some(ScopeKind::TxInputs),
            Operation::EndBuildTxOutputs => Some(ScopeKind::TxOutputs),
            Operation::EndWitnessStack => Some(ScopeKind::WitnessStack),
            Operation::EndBuildInventory => Some(ScopeKind::Inventory),
            Operation::EndBlockTransactions => Some(ScopeKind::BlockTransactions),
            Operation::EndBuildCoinbaseTx => Some(ScopeKind::CoinbaseTx),
            Operation::EndBuildCoinbaseTxOutputs => Some(ScopeKind::CoinbaseTxOutputs),
            Operation::EndPrefillTransactions => Some(ScopeKind::PrefillTransactions),
            _ => None,
        }
    }

    pub open spec fn spec_is_block_begin(self) -> bool {
        self.begin_kind() is Some
    }

    pub open spec fn spec_is_block_end(self) -> bool {
        self.end_kind() is Some
    }

    /// Whether this operation opens a scope.
    pub fn is_block_begin(&self) -> (r: bool)
        ensures
            r == self.spec_is_block_begin(),
    {
        match self {
            Operation::BeginBuildTx
            | Operation::BeginBuildTxInputs
            | Operation::BeginBuildTxOutputs
            | Operation::BeginWitnessStack
            | Operation::BeginBuildInventory
            | Operation::BeginBlockTransactions
            | Operation::BeginBuildCoinbaseTx
            | Operation::BeginBuildCoinbaseTxOutputs
            | Operation::BeginPrefillTransactions => true,
            _ => false,
        }
    }

    /// Whether this operation closes a scope.
    pub fn is_block_end(&self) -> (r: bool)
        ensures
            r == self.spec_is_block_end(),
    {
        match self {
            Operation::EndBuildTx
            | Operation::EndBuildTxInputs
            | Operation::EndBuildTxOutputs
            | Operation::EndWitnessStack
            | Operation::EndBuildInventory
            | Operation::EndBlockTransactions
            | Operation::EndBuildCoinbaseTx
            | Operation::EndBuildCoinbaseTxOutputs
            | Operation::EndPrefillTransactions => true,
            _ => false,
        }
    }

    pub open spec fn spec_is_matching_block_begin(self, other: Operation) -> bool {
        self.end_kind() is Some && self.end_kind() == other.begin_kind()
    }

    /// Whether `self` is the `End*` that matches the `Begin*` in `other`.
    pub fn is_matching_block_begin(&self, other: &Operation) -> (r: bool)
        ensures
            r == self.spec_is_matching_block_begin(*other),
    {
        match (self.end_scope_kind(), other.begin_scope_kind()) {
            (Some(e), Some(b)) => e == b,
            _ => false,
        }
    }

    /// Executable form of [`Operation::begin_kind`].
    pub fn begin_scope_kind(&self) -> (r: Option<ScopeKind>)
        ensures
            r == self.begin_kind(),
    {
        match self {
            Operation::BeginBuildTx => Some(ScopeKind::Tx),
            Operation::BeginBuildTxInputs => Some(ScopeKind::TxInputs),
            Operation::BeginBuildTxOutputs => Some(ScopeKind::TxOutputs),
            Operation::BeginWitnessStack => Some(ScopeKind::WitnessStack),
            Operation::BeginBuildInventory => Some(ScopeKind::Inventory),
            Operation::BeginBlockTransactions => Some(ScopeKind::BlockTransactions),
            Operation::BeginBuildCoinbaseTx => Some(ScopeKind::CoinbaseTx),
            Operation::BeginBuildCoinbaseTxOutputs => Some(ScopeKind::CoinbaseTxOutputs),
            Operation::BeginPrefillTransactions => Some(ScopeKind::PrefillTransactions),
            _ => None,
        }
    }

    /// Executable form of [`Operation::end_kind`].
    pub fn end_scope_kind(&self) -> (r: Option<ScopeKind>)
        ensures
            r == self.end_kind(),
    {
        match self {
            Operation::EndBuildTx => Some(ScopeKind::Tx),
            Operation::EndBuildTxInputs => Some(ScopeKind::TxInputs),
            Operation::EndBuildTxOutputs => Some(ScopeKind::TxOutputs),
            Operation::EndWitnessStack => Some(ScopeKind::WitnessStack),
            Operation::EndBuildInventory => Some(ScopeKind::Inventory),
            Operation::EndBlockTransactions => Some(ScopeKind::BlockTransactions),
            Operation::EndBuildCoinbaseTx => Some(ScopeKind::CoinbaseTx),
            Operation::EndBuildCoinbaseTxOutputs => Some(ScopeKind::CoinbaseTxOutputs),
            Operation::EndPrefillTransactions => Some(ScopeKind::PrefillTransactions),
            _ => None,
        }
    }

    pub open spec fn spec_allow_insertion_in_block(self) -> bool {
        !self.spec_is_block_begin()
    }

    /// Whether a mutator may insert this operation while some scope is open.
    /// `Begin*` operations are excluded so that a scope is never started in a
    /// mismatched context.
    pub fn allow_insertion_in_block(&self) -> (r: bool)
        ensures
            r == self.spec_allow_insertion_in_block(),
    {
        !self.is_block_begin()
    }

    pub open spec fn spec_mutates_nth_input(self, index: usize) -> bool {
        index == 0 && match self {
            Operation::AddTxInput
            | Operation::AddTxOutput
            | Operation::AddCoinbaseTxOutput
            | Operation::TakeTxo
            | Operation::AddWitness
            | Operation::AddTxidInv
            | Operation::AddTxidWithWitnessInv
            | Operation::AddWtxidInv
            | Operation::AddTx
            | Operation::AddCoinbaseTx
            | Operation::AddPrefillTx => true,
            _ => false,
        }
    }

    /// Whether this operation modifies its `index`-th input in place (the
    /// container-mutating operations, whose first input is the `Mut*` value
    /// being extended).
    pub fn mutates_nth_input(&self, index: usize) -> (r: bool)
        ensures
            r == self.spec_mutates_nth_input(index),
    {
        if index != 0 {
            return false;
        }
        match self {
            Operation::AddTxInput
            | Operation::AddTxOutput
            | Operation::AddCoinbaseTxOutput
            | Operation::TakeTxo
            | Operation::AddWitness
            | Operation::AddTxidInv
            | Operation::AddTxidWithWitnessInv
            | Operation::AddWtxidInv
            | Operation::AddTx
            | Operation::AddCoinbaseTx
            | Operation::AddPrefillTx => true,
            _ => false,
        }
    }

    /// The ordered formal input kinds of this operation.
    pub open spec fn input_types(self) -> Seq<Variable> {
        match self {
            Operation::SendRawMessage => seq![
                Variable::Connection,
                Variable::MsgType,
                Variable::Bytes,
            ],
            Operation::AdvanceTime => seq![Variable::Time, Variable::Duration],
            Operation::SetTime => seq![Variable::Time],
            Operation::AddConnection => seq![Variable::Node, Variable::ConnectionType],
            Operation::BuildPayToWitnessScriptHash => seq![
                Variable::Bytes,
                Variable::ConstWitnessStack,
            ],
            Operation::BuildPayToScriptHash => seq![Variable::Bytes, Variable::ConstWitnessStack],
            Operation::BuildRawScripts => seq![
                Variable::Bytes,
                Variable::Bytes,
                Variable::ConstWitnessStack,
            ],
            Operation::BuildOpReturnScripts => seq![Variable::Size],
            Operation::BuildPayToPubKey => seq![Variable::PrivateKey, Variable::SigHashFlags],
            Operation::BuildPayToPubKeyHash => seq![Variable::PrivateKey, Variable::SigHashFlags],
            Operation::BuildPayToWitnessPubKeyHash => seq![
                Variable::PrivateKey,
                Variable::SigHashFlags,
            ],
            Operation::BeginBuildTx => seq![Variable::TxVersion, Variable::LockTime],
            Operation::EndBuildTx => seq![
                Variable::MutTx,
                Variable::ConstTxInputs,
                Variable::ConstTxOutputs,
            ],
            Operation::EndBuildTxInputs => seq![Variable::MutTxInputs],
            Operation::EndBuildTxOutputs => seq![Variable::MutTxOutputs],
            Operation::AddTxInput => seq![Variable::MutTxInputs, Variable::Txo, Variable::Sequence],
            Operation::AddTxOutput => seq![
                Variable::MutTxOutputs,
                Variable::Scripts,
                Variable::ConstAmount,
            ],
            Operation::BeginBuildTxOutputs => seq![Variable::ConstTxInputs],
            Operation::BeginBuildCoinbaseTx => seq![Variable::TxVersion, Variable::LockTime],
            Operation::EndBuildCoinbaseTx => seq![
                Variable::MutTx,
                Variable::CoinbaseInput,
                Variable::ConstTxOutputs,
            ],
            Operation::BuildCoinbaseTxInput => seq![Variable::Header, Variable::Sequence],
            Operation::BeginBuildCoinbaseTxOutputs => seq![Variable::CoinbaseInput],
            Operation::EndBuildCoinbaseTxOutputs => seq![Variable::MutTxOutputs],
            Operation::AddCoinbaseTxOutput => seq![
                Variable::MutTxOutputs,
                Variable::Scripts,
                Variable::ConstAmount,
            ],
            Operation::TakeTxo => seq![Variable::ConstTx],
            Operation::AddWitness => seq![Variable::MutWitnessStack, Variable::Bytes],
            Operation::EndWitnessStack => seq![Variable::MutWitnessStack],
            Operation::SendTx | Operation::SendTxNoWit => seq![
                Variable::Connection,
                Variable::ConstTx,
            ],
            Operation::EndBuildInventory => seq![Variable::MutInventory],
            Operation::AddCompactBlockInv => seq![Variable::MutInventory, Variable::Block],
            Operation::AddTxidInv | Operation::AddTxidWithWitnessInv | Operation::AddWtxidInv => seq![
                Variable::MutInventory,
                Variable::ConstTx,
            ],
            Operation::AddBlockInv
            | Operation::AddBlockWithWitnessInv
            | Operation::AddFilteredBlockInv => seq![Variable::MutInventory, Variable::Block],
            Operation::BuildBlock => seq![
                Variable::Header,
                Variable::Time,
                Variable::BlockVersion,
                Variable::ConstBlockTransactions,
            ],
            Operation::AddTx => seq![Variable::MutBlockTransactions, Variable::ConstTx],
            Operation::AddCoinbaseTx => seq![Variable::MutBlockTransactions, Variable::CoinbaseTx],
            Operation::EndBlockTransactions => seq![Variable::MutBlockTransactions],
            Operation::EndPrefillTransactions => seq![Variable::MutPrefillTxs],
            Operation::AddPrefillTx => seq![
                Variable::MutPrefillTxs,
                Variable::ConstBlockTransactions,
                Variable::ConstTx,
            ],
            Operation::BuildCompactBlockWithPrefill => seq![
                Variable::Block,
                Variable::Nonce,
                Variable::ConstPrefillTxs,
            ],
            Operation::SendGetData | Operation::SendInv => seq![
                Variable::Connection,
                Variable::ConstInventory,
            ],
            Operation::SendHeader => seq![Variable::Connection, Variable::Header],
            Operation::SendBlock | Operation::SendBlockNoWit => seq![
                Variable::Connection,
                Variable::Block,
            ],
            Operation::SendCompactBlock => seq![Variable::Connection, Variable::CompactBlock],
            Operation::SendGetCFilters | Operation::SendGetCFHeaders => seq![
                Variable::Connection,
                Variable::CompactFilterType,
                Variable::BlockHeight,
                Variable::Header,
            ],
            Operation::SendGetCFCheckpt => seq![
                Variable::Connection,
                Variable::CompactFilterType,
                Variable::Header,
            ],
            _ => seq![],
        }
    }

    /// The ordered kinds of the regular outputs this operation produces.
    pub open spec fn output_types(self) -> Seq<Variable> {
        match self {
            Operation::Nop { outputs, .. } => Seq::new(
                outputs as nat,
                |i: int| Variable::Nop,
            ),
            Operation::LoadBytes(_) => seq![Variable::Bytes],
            Operation::LoadMsgType(_) => seq![Variable::MsgType],
            Operation::LoadNode(_) => seq![Variable::Node],
            Operation::LoadConnection(_) => seq![Variable::Connection],
            Operation::LoadConnectionType(_) => seq![Variable::ConnectionType],
            Operation::LoadDuration(_) => seq![Variable::Duration],
            Operation::LoadTime(_) => seq![Variable::Time],
            Operation::LoadAmount(_) => seq![Variable::ConstAmount],
            Operation::LoadSize(_) => seq![Variable::Size],
            Operation::LoadTxVersion(_) => seq![Variable::TxVersion],
            Operation::LoadBlockVersion(_) => seq![Variable::BlockVersion],
            Operation::LoadLockTime(_) => seq![Variable::LockTime],
            Operation::LoadSequence(_) => seq![Variable::Sequence],
            Operation::LoadBlockHeight(_) => seq![Variable::BlockHeight],
            Operation::LoadCompactFilterType(_) => seq![Variable::CompactFilterType],
            Operation::LoadPrivateKey(_) => seq![Variable::PrivateKey],
            Operation::LoadSigHashFlags(_) => seq![Variable::SigHashFlags],
            Operation::LoadNonce(_) => seq![Variable::Nonce],
            Operation::LoadTxo { .. } => seq![Variable::Txo],
            Operation::LoadHeader { .. } => seq![Variable::Header],
            Operation::AdvanceTime => seq![Variable::Time],
            Operation::AddConnection => seq![Variable::Connection],
            Operation::BuildRawScripts
            | Operation::BuildPayToWitnessScriptHash
            | Operation::BuildPayToPubKey
            | Operation::BuildPayToPubKeyHash
            | Operation::BuildPayToWitnessPubKeyHash
            | Operation::BuildPayToScriptHash
            | Operation::BuildOpReturnScripts
            | Operation::BuildPayToAnchor => seq![Variable::Scripts],
            Operation::EndBuildTx => seq![Variable::ConstTx],
            Operation::EndBuildTxInputs => seq![Variable::ConstTxInputs],
            Operation::EndBuildTxOutputs => seq![Variable::ConstTxOutputs],
            Operation::TakeTxo => seq![Variable::Txo],
            Operation::EndBuildCoinbaseTx => seq![Variable::CoinbaseTx],
            Operation::BuildCoinbaseTxInput => seq![Variable::CoinbaseInput],
            Operation::EndBuildCoinbaseTxOutputs => seq![Variable::ConstTxOutputs],
            Operation::EndBlockTransactions => seq![Variable::ConstBlockTransactions],
            Operation::BuildBlock => seq![Variable::Header, Variable::Block],
            Operation::EndBuildInventory => seq![Variable::ConstInventory],
            Operation::EndWitnessStack => seq![Variable::ConstWitnessStack],
            Operation::EndPrefillTransactions => seq![Variable::ConstPrefillTxs],
            Operation::BuildCompactBlockWithPrefill => seq![Variable::CompactBlock],
            _ => seq![],
        }
    }

    /// The ordered kinds of the inner-output variables that a `Begin*`
    /// exposes inside its scope (or that a `Nop` reserves as placeholders).
    pub open spec fn inner_output_types(self) -> Seq<Variable> {
        match self {
            Operation::BeginBuildTx => seq![Variable::MutTx],
            Operation::BeginBuildTxInputs => seq![Variable::MutTxInputs],
            Operation::BeginBuildTxOutputs => seq![Variable::MutTxOutputs],
            Operation::BeginWitnessStack => seq![Variable::MutWitnessStack],
            Operation::BeginBuildInventory => seq![Variable::MutInventory],
            Operation::BeginBlockTransactions => seq![Variable::MutBlockTransactions],
            Operation::BeginBuildCoinbaseTx => seq![Variable::MutTx],
            Operation::BeginBuildCoinbaseTxOutputs => seq![Variable::MutTxOutputs],
            Operation::BeginPrefillTransactions => seq![Variable::MutPrefillTxs],
            Operation::Nop { inner_outputs, .. } => Seq::new(
                inner_outputs as nat,
                |i: int| Variable::Nop,
            ),
            _ => seq![],
        }
    }

    /// The formal input kinds, as a vector.
    pub fn get_input_variables(&self) -> (r: Vec<Variable>)
        ensures
            r@ == self.input_types(),
    {
        let r = match self {
            Operation::SendRawMessage => vec![
                Variable::Connection,
                Variable::MsgType,
                Variable::Bytes,
            ],
            Operation::AdvanceTime => vec![Variable::Time, Variable::Duration],
            Operation::SetTime => vec![Variable::Time],
            Operation::AddConnection => vec![Variable::Node, Variable::ConnectionType],
            Operation::BuildPayToWitnessScriptHash => vec![
                Variable::Bytes,
                Variable::ConstWitnessStack,
            ],
            Operation::BuildPayToScriptHash => vec![Variable::Bytes, Variable::ConstWitnessStack],
            Operation::BuildRawScripts => vec![
                Variable::Bytes,
                Variable::Bytes,
                Variable::ConstWitnessStack,
            ],
            Operation::BuildOpReturnScripts => vec![Variable::Size],
            Operation::BuildPayToPubKey => vec![Variable::PrivateKey, Variable::SigHashFlags],
            Operation::BuildPayToPubKeyHash => vec![Variable::PrivateKey, Variable::SigHashFlags],
            Operation::BuildPayToWitnessPubKeyHash => vec![
                Variable::PrivateKey,
                Variable::SigHashFlags,
            ],
            Operation::BeginBuildTx => vec![Variable::TxVersion, Variable::LockTime],
            Operation::EndBuildTx => vec![
                Variable::MutTx,
                Variable::ConstTxInputs,
                Variable::ConstTxOutputs,
            ],
            Operation::EndBuildTxInputs => vec![Variable::MutTxInputs],
            Operation::EndBuildTxOutputs => vec![Variable::MutTxOutputs],
            Operation::AddTxInput => vec![Variable::MutTxInputs, Variable::Txo, Variable::Sequence],
            Operation::AddTxOutput => vec![
                Variable::MutTxOutputs,
                Variable::Scripts,
                Variable::ConstAmount,
            ],
            Operation::BeginBuildTxOutputs => vec![Variable::ConstTxInputs],
            Operation::BeginBuildCoinbaseTx => vec![Variable::TxVersion, Variable::LockTime],
            Operation::EndBuildCoinbaseTx => vec![
                Variable::MutTx,
                Variable::CoinbaseInput,
                Variable::ConstTxOutputs,
            ],
            Operation::BuildCoinbaseTxInput => vec![Variable::Header, Variable::Sequence],
            Operation::BeginBuildCoinbaseTxOutputs => vec![Variable::CoinbaseInput],
            Operation::EndBuildCoinbaseTxOutputs => vec![Variable::MutTxOutputs],
            Operation::AddCoinbaseTxOutput => vec![
                Variable::MutTxOutputs,
                Variable::Scripts,
                Variable::ConstAmount,
            ],
            Operation::TakeTxo => vec![Variable::ConstTx],
            Operation::AddWitness => vec![Variable::MutWitnessStack, Variable::Bytes],
            Operation::EndWitnessStack => vec![Variable::MutWitnessStack],
            Operation::SendTx | Operation::SendTxNoWit => vec![
                Variable::Connection,
                Variable::ConstTx,
            ],
            Operation::EndBuildInventory => vec![Variable::MutInventory],
            Operation::AddCompactBlockInv => vec![Variable::MutInventory, Variable::Block],
            Operation::AddTxidInv | Operation::AddTxidWithWitnessInv | Operation::AddWtxidInv => vec![
                Variable::MutInventory,
                Variable::ConstTx,
            ],
            Operation::AddBlockInv
            | Operation::AddBlockWithWitnessInv
            | Operation::AddFilteredBlockInv => vec![Variable::MutInventory, Variable::Block],
            Operation::BuildBlock => vec![
                Variable::Header,
                Variable::Time,
                Variable::BlockVersion,
                Variable::ConstBlockTransactions,
            ],
            Operation::AddTx => vec![Variable::MutBlockTransactions, Variable::ConstTx],
            Operation::AddCoinbaseTx => vec![Variable::MutBlockTransactions, Variable::CoinbaseTx],
            Operation::EndBlockTransactions => vec![Variable::MutBlockTransactions],
            Operation::EndPrefillTransactions => vec![Variable::MutPrefillTxs],
            Operation::AddPrefillTx => vec![
                Variable::MutPrefillTxs,
                Variable::ConstBlockTransactions,
                Variable::ConstTx,
            ],
            Operation::BuildCompactBlockWithPrefill => vec![
                Variable::Block,
                Variable::Nonce,
                Variable::ConstPrefillTxs,
            ],
            Operation::SendGetData | Operation::SendInv => vec![
                Variable::Connection,
                Variable::ConstInventory,
            ],
            Operation::SendHeader => vec![Variable::Connection, Variable::Header],
            Operation::SendBlock | Operation::SendBlockNoWit => vec![
                Variable::Connection,
                Variable::Block,
            ],
            Operation::SendCompactBlock => vec![Variable::Connection, Variable::CompactBlock],
            Operation::SendGetCFilters | Operation::SendGetCFHeaders => vec![
                Variable::Connection,
                Variable::CompactFilterType,
                Variable::BlockHeight,
                Variable::Header,
            ],
            Operation::SendGetCFCheckpt => vec![
                Variable::Connection,
                Variable::CompactFilterType,
                Variable::Header,
            ],
            _ => Vec::new(),
        };
        assert(r@ =~= self.input_types());
        r
    }

    /// The regular output kinds, as a vector.
    pub fn get_output_variables(&self) -> (r: Vec<Variable>)
        ensures
            r@ == self.output_types(),
    {
        let r = match self {
            Operation::Nop { outputs, .. } => nop_placeholders(*outputs),
            Operation::LoadBytes(_) => vec![Variable::Bytes],
            Operation::LoadMsgType(_) => vec![Variable::MsgType],
            Operation::LoadNode(_) => vec![Variable::Node],
            Operation::LoadConnection(_) => vec![Variable::Connection],
            Operation::LoadConnectionType(_) => vec![Variable::ConnectionType],
            Operation::LoadDuration(_) => vec![Variable::Duration],
            Operation::LoadTime(_) => vec![Variable::Time],
            Operation::LoadAmount(_) => vec![Variable::ConstAmount],
            Operation::LoadSize(_) => vec![Variable::Size],
            Operation::LoadTxVersion(_) => vec![Variable::TxVersion],
            Operation::LoadBlockVersion(_) => vec![Variable::BlockVersion],
            Operation::LoadLockTime(_) => vec![Variable::LockTime],
            Operation::LoadSequence(_) => vec![Variable::Sequence],
            Operation::LoadBlockHeight(_) => vec![Variable::BlockHeight],
            Operation::LoadCompactFilterType(_) => vec![Variable::CompactFilterType],
            Operation::LoadPrivateKey(_) => vec![Variable::PrivateKey],
            Operation::LoadSigHashFlags(_) => vec![Variable::SigHashFlags],
            Operation::LoadNonce(_) => vec![Variable::Nonce],
            Operation::LoadTxo { .. } => vec![Variable::Txo],
            Operation::LoadHeader { .. } => vec![Variable::Header],
            Operation::AdvanceTime => vec![Variable::Time],
            Operation::AddConnection => vec![Variable::Connection],
            Operation::BuildRawScripts
            | Operation::BuildPayToWitnessScriptHash
            | Operation::BuildPayToPubKey
            | Operation::BuildPayToPubKeyHash
            | Operation::BuildPayToWitnessPubKeyHash
            | Operation::BuildPayToScriptHash
            | Operation::BuildOpReturnScripts
            | Operation::BuildPayToAnchor => vec![Variable::Scripts],
            Operation::EndBuildTx => vec![Variable::ConstTx],
            Operation::EndBuildTxInputs => vec![Variable::ConstTxInputs],
            Operation::EndBuildTxOutputs => vec![Variable::ConstTxOutputs],
            Operation::TakeTxo => vec![Variable::Txo],
            Operation::EndBuildCoinbaseTx => vec![Variable::CoinbaseTx],
            Operation::BuildCoinbaseTxInput => vec![Variable::CoinbaseInput],
            Operation::EndBuildCoinbaseTxOutputs => vec![Variable::ConstTxOutputs],
            Operation::EndBlockTransactions => vec![Variable::ConstBlockTransactions],
            Operation::BuildBlock => vec![Variable::Header, Variable::Block],
            Operation::EndBuildInventory => vec![Variable::ConstInventory],
            Operation::EndWitnessStack => vec![Variable::ConstWitnessStack],
            Operation::EndPrefillTransactions => vec![Variable::ConstPrefillTxs],
            Operation::BuildCompactBlockWithPrefill => vec![Variable::CompactBlock],
            _ => Vec::new(),
        };
        assert(r@ =~= self.output_types());
        r
    }

    /// The inner-output kinds, as a vector.
    pub fn get_inner_output_variables(&self) -> (r: Vec<Variable>)
        ensures
            r@ == self.inner_output_types(),
    {
        let r = match self {
            Operation::BeginBuildTx => vec![Variable::MutTx],
            Operation::BeginBuildTxInputs => vec![Variable::MutTxInputs],
            Operation::BeginBuildTxOutputs => vec![Variable::MutTxOutputs],
            Operation::BeginWitnessStack => vec![Variable::MutWitnessStack],
            Operation::BeginBuildInventory => vec![Variable::MutInventory],
            Operation::BeginBlockTransactions => vec![Variable::MutBlockTransactions],
            Operation::BeginBuildCoinbaseTx => vec![Variable::MutTx],
            Operation::BeginBuildCoinbaseTxOutputs => vec![Variable::MutTxOutputs],
            Operation::BeginPrefillTransactions => vec![Variable::MutPrefillTxs],
            Operation::Nop { inner_outputs, .. } => nop_placeholders(*inner_outputs),
            _ => Vec::new(),
        };
        assert(r@ =~= self.inner_output_types());
        r
    }

    /// The number of formal inputs.
    pub fn num_inputs(&self) -> (r: usize)
        ensures
            r == self.input_types().len(),
    {
        self.get_input_variables().len()
    }

    /// The number of regular outputs.
    pub fn num_outputs(&self) -> (r: usize)
        ensures
            r == self.output_types().len(),
    {
        self.get_output_variables().len()
    }

    /// The number of inner outputs.
    pub fn num_inner_outputs(&self) -> (r: usize)
        ensures
            r == self.inner_output_types().len(),
    {
        self.get_inner_output_variables().len()
    }
}

/// A vector of `n` placeholder kinds, as reserved by a `Nop` operation.
fn nop_placeholders(n: usize) -> (r: Vec<Variable>)
    ensures
        r@ == Seq::new(n as nat, |i: int| Variable::Nop),
{
    let mut r: Vec<Variable> = Vec::new();
    let mut i: usize = 0;
    while i < n
        invariant
            i <= n,
            r@ =~= Seq::new(i as nat, |j: int| Variable::Nop),
        decreases n - i,
    {
        r.push(Variable::Nop);
        i = i + 1;
    }
    assert(r@ =~= Seq::new(n as nat, |i: int| Variable::Nop));
    r
}

/// Whether two vectors of byte vectors hold the same bytes.
pub open spec fn bytes2_eq(a: Seq<Vec<u8>>, b: Seq<Vec<u8>>) -> bool {
    a.len() == b.len() && forall|i: int| 0 <= i < a.len() ==> (#[trigger] a[i])@ == b[i]@
}

/// Whether two operations are the same operation with the same payload,
/// compared through the views of the payload vectors.
pub open spec fn op_eq(a: Operation, b: Operation) -> bool {
    match (a, b) {
        (
            Operation::Nop { outputs: o1, inner_outputs: n1 },
            Operation::Nop { outputs: o2, inner_outputs: n2 },
        ) => o1 == o2 && n1 == n2,
        (Operation::LoadBytes(x), Operation::LoadBytes(y)) => x@ == y@,
        (Operation::LoadMsgType(x), Operation::LoadMsgType(y)) => x@ == y@,
        (Operation::LoadConnectionType(x), Operation::LoadConnectionType(y)) => x@ == y@,
        (Operation::LoadPrivateKey(x), Operation::LoadPrivateKey(y)) => x@ == y@,
        (Operation::LoadNode(x), Operation::LoadNode(y)) => x == y,
        (Operation::LoadConnection(x), Operation::LoadConnection(y)) => x == y,
        (Operation::LoadSize(x), Operation::LoadSize(y)) => x == y,
        (Operation::LoadDuration(x), Operation::LoadDuration(y)) => x == y,
        (Operation::LoadTime(x), Operation::LoadTime(y)) => x == y,
        (Operation::LoadAmount(x), Operation::LoadAmount(y)) => x == y,
        (Operation::LoadNonce(x), Operation::LoadNonce(y)) => x == y,
        (Operation::LoadTxVersion(x), Operation::LoadTxVersion(y)) => x == y,
        (Operation::LoadLockTime(x), Operation::LoadLockTime(y)) => x == y,
        (Operation::LoadSequence(x), Operation::LoadSequence(y)) => x == y,
        (Operation::LoadBlockHeight(x), Operation::LoadBlockHeight(y)) => x == y,
        (Operation::LoadBlockVersion(x), Operation::LoadBlockVersion(y)) => x == y,
        (Operation::LoadCompactFilterType(x), Operation::LoadCompactFilterType(y)) => x == y,
        (Operation::LoadSigHashFlags(x), Operation::LoadSigHashFlags(y)) => x == y,
        (
            Operation::LoadTxo {
                outpoint_hash: h1,
                outpoint_index: i1,
                value: v1,
                script_pubkey: p1,
                spending_script_sig: s1,
                spending_witness: w1,
            },
            Operation::LoadTxo {
                outpoint_hash: h2,
                outpoint_index: i2,
                value: v2,
                script_pubkey: p2,
                spending_script_sig: s2,
                spending_witness: w2,
            },
        ) => h1@ == h2@ && i1 == i2 && v1 == v2 && p1@ == p2@ && s1@ == s2@ && bytes2_eq(
            w1@,
            w2@,
        ),
        (
            Operation::LoadHeader {
                prev: p1,
                merkle_root: m1,
                nonce: n1,
                bits: b1,
                time: t1,
                version: v1,
                height: h1,
            },
            Operation::LoadHeader {
                prev: p2,
                merkle_root: m2,
                nonce: n2,
                bits: b2,
                time: t2,
                version: v2,
                height: h2,
            },
        ) => p1@ == p2@ && m1@ == m2@ && n1 == n2 && b1 == b2 && t1 == t2 && v1 == v2 && h1
            == h2,
        (Operation::SendRawMessage, Operation::SendRawMessage) => true,
        (Operation::AdvanceTime, Operation::AdvanceTime) => true,
        (Operation::SetTime, Operation::SetTime) => true,
        (Operation::AddConnection, Operation::AddConnection) => true,
        (Operation::BuildRawScripts, Operation::BuildRawScripts) => true,
        (Operation::BuildPayToWitnessScriptHash, Operation::BuildPayToWitnessScriptHash) => true,
        (Operation::BuildPayToPubKey, Operation::BuildPayToPubKey) => true,
        (Operation::BuildPayToPubKeyHash, Operation::BuildPayToPubKeyHash) => true,
        (Operation::BuildPayToWitnessPubKeyHash, Operation::BuildPayToWitnessPubKeyHash) => true,
        (Operation::BuildPayToScriptHash, Operation::BuildPayToScriptHash) => true,
        (Operation::BuildOpReturnScripts, Operation::BuildOpReturnScripts) => true,
        (Operation::BuildPayToAnchor, Operation::BuildPayToAnchor) => true,
        (Operation::BeginWitnessStack, Operation::BeginWitnessStack) => true,
        (Operation::EndWitnessStack, Operation::EndWitnessStack) => true,
        (Operation::AddWitness, Operation::AddWitness) => true,
        (Operation::BeginBuildTx, Operation::BeginBuildTx) => true,
        (Operation::EndBuildTx, Operation::EndBuildTx) => true,
        (Operation::BeginBuildTxInputs, Operation::BeginBuildTxInputs) => true,
        (Operation::EndBuildTxInputs, Operation::EndBuildTxInputs) => true,
        (Operation::BeginBuildTxOutputs, Operation::BeginBuildTxOutputs) => true,
        (Operation::EndBuildTxOutputs, Operation::EndBuildTxOutputs) => true,
        (Operation::AddTxOutput, Operation::AddTxOutput) => true,
        (Operation::AddTxInput, Operation::AddTxInput) => true,
        (Operation::TakeTxo, Operation::TakeTxo) => true,
        (Operation::BeginBuildCoinbaseTx, Operation::BeginBuildCoinbaseTx) => true,
        (Operation::EndBuildCoinbaseTx, Operation::EndBuildCoinbaseTx) => true,
        (Operation::BuildCoinbaseTxInput, Operation::BuildCoinbaseTxInput) => true,
        (Operation::BeginBuildCoinbaseTxOutputs, Operation::BeginBuildCoinbaseTxOutputs) => true,
        (Operation::EndBuildCoinbaseTxOutputs, Operation::EndBuildCoinbaseTxOutputs) => true,
        (Operation::AddCoinbaseTxOutput, Operation::AddCoinbaseTxOutput) => true,
        (Operation::BeginBlockTransactions, Operation::BeginBlockTransactions) => true,
        (Operation::EndBlockTransactions, Operation::EndBlockTransactions) => true,
        (Operation::BuildBlock, Operation::BuildBlock) => true,
        (Operation::AddTx, Operation::AddTx) => true,
        (Operation::AddCoinbaseTx, Operation::AddCoinbaseTx) => true,
        (Operation::BeginBuildInventory, Operation::BeginBuildInventory) => true,
        (Operation::EndBuildInventory, Operation::EndBuildInventory) => true,
        (Operation::AddCompactBlockInv, Operation::AddCompactBlockInv) => true,
        (Operation::AddTxidInv, Operation::AddTxidInv) => true,
        (Operation::AddTxidWithWitnessInv, Operation::AddTxidWithWitnessInv) => true,
        (Operation::AddWtxidInv, Operation::AddWtxidInv) => true,
        (Operation::AddBlockInv, Operation::AddBlockInv) => true,
        (Operation::AddBlockWithWitnessInv, Operation::AddBlockWithWitnessInv) => true,
        (Operation::AddFilteredBlockInv, Operation::AddFilteredBlockInv) => true,
        (Operation::BeginPrefillTransactions, Operation::BeginPrefillTransactions) => true,
        (Operation::EndPrefillTransactions, Operation::EndPrefillTransactions) => true,
        (Operation::AddPrefillTx, Operation::AddPrefillTx) => true,
        (Operation::BuildCompactBlockWithPrefill, Operation::BuildCompactBlockWithPrefill) => true,
        (Operation::SendGetData, Operation::SendGetData) => true,
        (Operation::SendInv, Operation::SendInv) => true,
        (Operation::SendTx, Operation::SendTx) => true,
        (Operation::SendTxNoWit, Operation::SendTxNoWit) => true,
        (Operation::SendHeader, Operation::SendHeader) => true,
        (Operation::SendBlock, Operation::SendBlock) => true,
        (Operation::SendBlockNoWit, Operation::SendBlockNoWit) => true,
        (Operation::SendGetCFilters, Operation::SendGetCFilters) => true,
        (Operation::SendGetCFHeaders, Operation::SendGetCFHeaders) => true,
        (Operation::SendGetCFCheckpt, Operation::SendGetCFCheckpt) => true,
        (Operation::SendCompactBlock, Operation::SendCompactBlock) => true,
        (Operation::IncrementalSnapshot, Operation::IncrementalSnapshot) => true,
        _ => false,
    }
}
/// A fresh vector with the same bytes.
pub fn copy_bytes(v: &Vec<u8>) -> (r: Vec<u8>)
    ensures
        r@ == v@,
{
    let mut r: Vec<u8> = Vec::new();
    let mut i: usize = 0;
    while i < v.len()
        invariant
            i <= v@.len(),
            r@ =~= v@.take(i as int),
        decreases v@.len() - i,
    {
        r.push(v[i]);
        i = i + 1;
    }
    assert(r@ =~= v@);
    r
}

/// A fresh witness stack holding the same byte vectors.
pub fn copy_byte_stacks(v: &Vec<Vec<u8>>) -> (r: Vec<Vec<u8>>)
    ensures
        bytes2_eq(r@, v@),
{
    let mut r: Vec<Vec<u8>> = Vec::new();
    let mut i: usize = 0;
    while i < v.len()
        invariant
            i <= v@.len(),
            r@.len() == i,
            forall|k: int| 0 <= k < i ==> (#[trigger] r@[k])@ == v@[k]@,
        decreases v@.len() - i,
    {
        r.push(copy_bytes(&v[i]));
        i = i + 1;
    }
    r
}

impl Clone for Operation {
    /// A structural copy whose payload vectors hold the same contents.
    fn clone(&self) -> (r: Self)
        ensures
            op_eq(*self, r),
    {
        match self {
            Operation::Nop { outputs, inner_outputs } => Operation::Nop {
                outputs: *outputs,
                inner_outputs: *inner_outputs,
            },
            Operation::LoadBytes(x) => Operation::LoadBytes(copy_bytes(x)),
            Operation::LoadMsgType(x) => Operation::LoadMsgType(copy_bytes(x)),
            Operation::LoadConnectionType(x) => Operation::LoadConnectionType(copy_bytes(x)),
            Operation::LoadPrivateKey(x) => Operation::LoadPrivateKey(copy_bytes(x)),
            Operation::LoadNode(x) => Operation::LoadNode(*x),
            Operation::LoadConnection(x) => Operation::LoadConnection(*x),
            Operation::LoadSize(x) => Operation::LoadSize(*x),
            Operation::LoadDuration(x) => Operation::LoadDuration(*x),
            Operation::LoadTime(x) => Operation::LoadTime(*x),
            Operation::LoadAmount(x) => Operation::LoadAmount(*x),
            Operation::LoadNonce(x) => Operation::LoadNonce(*x),
            Operation::LoadTxVersion(x) => Operation::LoadTxVersion(*x),
            Operation::LoadLockTime(x) => Operation::LoadLockTime(*x),
            Operation::LoadSequence(x) => Operation::LoadSequence(*x),
            Operation::LoadBlockHeight(x) => Operation::LoadBlockHeight(*x),
            Operation::LoadBlockVersion(x) => Operation::LoadBlockVersion(*x),
            Operation::LoadCompactFilterType(x) => Operation::LoadCompactFilterType(*x),
            Operation::LoadSigHashFlags(x) => Operation::LoadSigHashFlags(*x),
            Operation::LoadTxo {
                outpoint_hash,
                outpoint_index,
                value,
                script_pubkey,
                spending_script_sig,
                spending_witness,
            } => Operation::LoadTxo {
                outpoint_hash: copy_bytes(outpoint_hash),
                outpoint_index: *outpoint_index,
                value: *value,
                script_pubkey: copy_bytes(script_pubkey),
                spending_script_sig: copy_bytes(spending_script_sig),
                spending_witness: copy_byte_stacks(spending_witness),
            },
            Operation::LoadHeader { prev, merkle_root, nonce, bits, time, version, height } => Operation::LoadHeader {
                prev: copy_bytes(prev),
                merkle_root: copy_bytes(merkle_root),
                nonce: *nonce,
                bits: *bits,
                time: *time,
                version: *version,
                height: *height,
            },
            Operation::SendRawMessage => Operation::SendRawMessage,
            Operation::AdvanceTime => Operation::AdvanceTime,
            Operation::SetTime => Operation::SetTime,
            Operation::AddConnection => Operation::AddConnection,
            Operation::BuildRawScripts => Operation::BuildRawScripts,
            Operation::BuildPayToWitnessScriptHash => Operation::BuildPayToWitnessScriptHash,
            Operation::BuildPayToPubKey => Operation::BuildPayToPubKey,
            Operation::BuildPayToPubKeyHash => Operation::BuildPayToPubKeyHash,
            Operation::BuildPayToWitnessPubKeyHash => Operation::BuildPayToWitnessPubKeyHash,
            Operation::BuildPayToScriptHash => Operation::BuildPayToScriptHash,
            Operation::BuildOpReturnScripts => Operation::BuildOpReturnScripts,
            Operation::BuildPayToAnchor => Operation::BuildPayToAnchor,
            Operation::BeginWitnessStack => Operation::BeginWitnessStack,
            Operation::EndWitnessStack => Operation::EndWitnessStack,
            Operation::AddWitness => Operation::AddWitness,
            Operation::BeginBuildTx => Operation::BeginBuildTx,
            Operation::EndBuildTx => Operation::EndBuildTx,
            Operation::BeginBuildTxInputs => Operation::BeginBuildTxInputs,
            Operation::EndBuildTxInputs => Operation::EndBuildTxInputs,
            Operation::BeginBuildTxOutputs => Operation::BeginBuildTxOutputs,
            Operation::EndBuildTxOutputs => Operation::EndBuildTxOutputs,
            Operation::AddTxOutput => Operation::AddTxOutput,
            Operation::AddTxInput => Operation::AddTxInput,
            Operation::TakeTxo => Operation::TakeTxo,
            Operation::BeginBuildCoinbaseTx => Operation::BeginBuildCoinbaseTx,
            Operation::EndBuildCoinbaseTx => Operation::EndBuildCoinbaseTx,
            Operation::BuildCoinbaseTxInput => Operation::BuildCoinbaseTxInput,
            Operation::BeginBuildCoinbaseTxOutputs => Operation::BeginBuildCoinbaseTxOutputs,
            Operation::EndBuildCoinbaseTxOutputs => Operation::EndBuildCoinbaseTxOutputs,
            Operation::AddCoinbaseTxOutput => Operation::AddCoinbaseTxOutput,
            Operation::BeginBlockTransactions => Operation::BeginBlockTransactions,
            Operation::EndBlockTransactions => Operation::EndBlockTransactions,
            Operation::BuildBlock => Operation::BuildBlock,
            Operation::AddTx => Operation::AddTx,
            Operation::AddCoinbaseTx => Operation::AddCoinbaseTx,
            Operation::BeginBuildInventory => Operation::BeginBuildInventory,
            Operation::EndBuildInventory => Operation::EndBuildInventory,
            Operation::AddCompactBlockInv => Operation::AddCompactBlockInv,
            Operation::AddTxidInv => Operation::AddTxidInv,
            Operation::AddTxidWithWitnessInv => Operation::AddTxidWithWitnessInv,
            Operation::AddWtxidInv => Operation::AddWtxidInv,
            Operation::AddBlockInv => Operation::AddBlockInv,
            Operation::AddBlockWithWitnessInv => Operation::AddBlockWithWitnessInv,
            Operation::AddFilteredBlockInv => Operation::AddFilteredBlockInv,
            Operation::BeginPrefillTransactions => Operation::BeginPrefillTransactions,
            Operation::EndPrefillTransactions => Operation::EndPrefillTransactions,
            Operation::AddPrefillTx => Operation::AddPrefillTx,
            Operation::BuildCompactBlockWithPrefill => Operation::BuildCompactBlockWithPrefill,
            Operation::SendGetData => Operation::SendGetData,
            Operation::SendInv => Operation::SendInv,
            Operation::SendTx => Operation::SendTx,
            Operation::SendTxNoWit => Operation::SendTxNoWit,
            Operation::SendHeader => Operation::SendHeader,
            Operation::SendBlock => Operation::SendBlock,
            Operation::SendBlockNoWit => Operation::SendBlockNoWit,
            Operation::SendGetCFilters => Operation::SendGetCFilters,
            Operation::SendGetCFHeaders => Operation::SendGetCFHeaders,
            Operation::SendGetCFCheckpt => Operation::SendGetCFCheckpt,
            Operation::SendCompactBlock => Operation::SendCompactBlock,
            Operation::IncrementalSnapshot => Operation::IncrementalSnapshot,
        }
    }
}

/// Operations equal under `op_eq` answer every type-signature query alike:
/// the payload views never influence the signature, and a `Nop`'s
/// dimensions are part of the comparison.
pub proof fn lemma_op_eq_queries(a: Operation, b: Operation)
    requires
        op_eq(a, b),
    ensures
        a.input_types() == b.input_types(),
        a.output_types() == b.output_types(),
        a.inner_output_types() == b.inner_output_types(),
        a.begin_kind() == b.begin_kind(),
        a.end_kind() == b.end_kind(),
{
    assert(a.output_types() =~= b.output_types());
    assert(a.inner_output_types() =~= b.inner_output_types());
}

/// `op_eq` is reflexive.
pub proof fn lemma_op_eq_refl(a: Operation)
    ensures
        op_eq(a, a),
{
}

/// `op_eq` is symmetric.
pub proof fn lemma_op_eq_sym(a: Operation, b: Operation)
    requires
        op_eq(a, b),
    ensures
        op_eq(b, a),
{
}

/// `op_eq` is transitive.
pub proof fn lemma_op_eq_trans(a: Operation, b: Operation, c: Operation)
    requires
        op_eq(a, b),
        op_eq(b, c),
    ensures
        op_eq(a, c),
{
}

} // verus!
