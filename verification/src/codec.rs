//! The compiler: a deterministic byte codec for programs.
//!
//! A validated program is lowered to a compact byte form for the in-VM
//! executor and for the on-disk corpus. The encoding is fixed-width
//! little-endian throughout: a word for the context, a word for the
//! instruction count, and per instruction its input indices followed by a
//! one-byte operation tag and the operation's payload. Encoding is a pure
//! function of the program's contents, so identical programs encode
//! identically; the decoder reads the same form back and rejects anything
//! malformed.

use vstd::prelude::*;

use crate::operation::Operation;
use crate::program::{Context, Instruction, Program};

verus! {

/// The eight little-endian bytes of a 64-bit word.
pub open spec fn u64_bytes(x: u64) -> Seq<u8> {
    seq![
        (x & 0xff) as u8,
        ((x >> 8) & 0xff) as u8,
        ((x >> 16) & 0xff) as u8,
        ((x >> 24) & 0xff) as u8,
        ((x >> 32) & 0xff) as u8,
        ((x >> 40) & 0xff) as u8,
        ((x >> 48) & 0xff) as u8,
        ((x >> 56) & 0xff) as u8,
    ]
}

/// The four little-endian bytes of a 32-bit word.
pub open spec fn u32_bytes(x: u32) -> Seq<u8> {
    seq![(x & 0xff) as u8, ((x >> 8) & 0xff) as u8, ((x >> 16) & 0xff) as u8, ((x >> 24)
        & 0xff) as u8]
}

/// A length-prefixed byte vector.
pub open spec fn bytes_encoding(b: Seq<u8>) -> Seq<u8> {
    u64_bytes(b.len() as u64) + b
}

/// A length-prefixed vector of length-prefixed byte vectors, encoded in
/// order.
pub open spec fn stacks_encoding_upto(v: Seq<Vec<u8>>, n: int) -> Seq<u8>
    decreases n,
{
    if n <= 0 {
        Seq::empty()
    } else {
        stacks_encoding_upto(v, n - 1) + bytes_encoding(v[n - 1]@)
    }
}

pub open spec fn stacks_encoding(v: Seq<Vec<u8>>) -> Seq<u8> {
    u64_bytes(v.len() as u64) + stacks_encoding_upto(v, v.len() as int)
}

/// The encoding of one operation: its tag byte followed by its payload.
pub open spec fn op_encoding(op: Operation) -> Seq<u8> {
    match op {
        Operation::Nop { outputs, inner_outputs } => seq![0u8] + u64_bytes(
            outputs as u64,
        ) + u64_bytes(inner_outputs as u64),
        Operation::LoadBytes(x) => seq![1u8] + bytes_encoding(x@),
        Operation::LoadMsgType(x) => seq![2u8] + bytes_encoding(x@),
        Operation::LoadConnectionType(x) => seq![5u8] + bytes_encoding(x@),
        Operation::LoadPrivateKey(x) => seq![16u8] + bytes_encoding(x@),
        Operation::LoadNode(x) => seq![3u8] + u64_bytes(x as u64),
        Operation::LoadConnection(x) => seq![4u8] + u64_bytes(x as u64),
        Operation::LoadSize(x) => seq![9u8] + u64_bytes(x as u64),
        Operation::LoadDuration(x) => seq![6u8] + u64_bytes(x),
        Operation::LoadTime(x) => seq![7u8] + u64_bytes(x),
        Operation::LoadAmount(x) => seq![8u8] + u64_bytes(x),
        Operation::LoadNonce(x) => seq![18u8] + u64_bytes(x),
        Operation::LoadTxVersion(x) => seq![10u8] + u32_bytes(x),
        Operation::LoadLockTime(x) => seq![12u8] + u32_bytes(x),
        Operation::LoadSequence(x) => seq![13u8] + u32_bytes(x),
        Operation::LoadBlockHeight(x) => seq![14u8] + u32_bytes(x),
        Operation::LoadBlockVersion(x) => seq![11u8] + u32_bytes(x as u32),
        Operation::LoadCompactFilterType(x) => seq![15u8, x],
        Operation::LoadSigHashFlags(x) => seq![17u8, x],
        Operation::LoadTxo {
            outpoint_hash,
            outpoint_index,
            value,
            script_pubkey,
            spending_script_sig,
            spending_witness,
        } => seq![19u8] + bytes_encoding(outpoint_hash@) + u32_bytes(outpoint_index) + u64_bytes(
            value,
        ) + bytes_encoding(script_pubkey@) + bytes_encoding(spending_script_sig@) + stacks_encoding(
            spending_witness@,
        ),
        Operation::LoadHeader { prev, merkle_root, nonce, bits, time, version, height } => seq![20u8]
            + bytes_encoding(prev@) + bytes_encoding(merkle_root@) + u32_bytes(nonce) + u32_bytes(
            bits,
        ) + u32_bytes(time) + u32_bytes(version as u32) + u32_bytes(height),
        Operation::SendRawMessage => seq![21u8],
        Operation::AdvanceTime => seq![22u8],
        Operation::SetTime => seq![23u8],
        Operation::AddConnection => seq![24u8],
        Operation::BuildRawScripts => seq![25u8],
        Operation::BuildPayToWitnessScriptHash => seq![26u8],
        Operation::BuildPayToPubKey => seq![27u8],
        Operation::BuildPayToPubKeyHash => seq![28u8],
        Operation::BuildPayToWitnessPubKeyHash => seq![29u8],
        Operation::BuildPayToScriptHash => seq![30u8],
        Operation::BuildOpReturnScripts => seq![31u8],
        Operation::BuildPayToAnchor => seq![32u8],
        Operation::BeginWitnessStack => seq![33u8],
        Operation::EndWitnessStack => seq![34u8],
        Operation::AddWitness => seq![35u8],
        Operation::BeginBuildTx => seq![36u8],
        Operation::EndBuildTx => seq![37u8],
        Operation::BeginBuildTxInputs => seq![38u8],
        Operation::EndBuildTxInputs => seq![39u8],
        Operation::BeginBuildTxOutputs => seq![40u8],
        Operation::EndBuildTxOutputs => seq![41u8],
        Operation::AddTxOutput => seq![42u8],
        Operation::AddTxInput => seq![43u8],
        Operation::TakeTxo => seq![44u8],
        Operation::BeginBuildCoinbaseTx => seq![45u8],
        Operation::EndBuildCoinbaseTx => seq![46u8],
        Operation::BuildCoinbaseTxInput => seq![47u8],
        Operation::BeginBuildCoinbaseTxOutputs => seq![48u8],
        Operation::EndBuildCoinbaseTxOutputs => seq![49u8],
        Operation::AddCoinbaseTxOutput => seq![50u8],
        Operation::BeginBlockTransactions => seq![51u8],
        Operation::EndBlockTransactions => seq![52u8],
        Operation::BuildBlock => seq![53u8],
        Operation::AddTx => seq![54u8],
        Operation::AddCoinbaseTx => seq![55u8],
        Operation::BeginBuildInventory => seq![56u8],
        Operation::EndBuildInventory => seq![57u8],
        Operation::AddCompactBlockInv => seq![58u8],
        Operation::AddTxidInv => seq![59u8],
        Operation::AddTxidWithWitnessInv => seq![60u8],
        Operation::AddWtxidInv => seq![61u8],
        Operation::AddBlockInv => seq![62u8],
        Operation::AddBlockWithWitnessInv => seq![63u8],
        Operation::AddFilteredBlockInv => seq![64u8],
        Operation::BeginPrefillTransactions => seq![65u8],
        Operation::EndPrefillTransactions => seq![66u8],
        Operation::AddPrefillTx => seq![67u8],
        Operation::BuildCompactBlockWithPrefill => seq![68u8],
        Operation::SendGetData => seq![69u8],
        Operation::SendInv => seq![70u8],
        Operation::SendTx => seq![71u8],
        Operation::SendTxNoWit => seq![72u8],
        Operation::SendHeader => seq![73u8],
        Operation::SendBlock => seq![74u8],
        Operation::SendBlockNoWit => seq![75u8],
        Operation::SendGetCFilters => seq![76u8],
        Operation::SendGetCFHeaders => seq![77u8],
        Operation::SendGetCFCheckpt => seq![78u8],
        Operation::SendCompactBlock => seq![79u8],
        Operation::IncrementalSnapshot => seq![80u8],
    }
}

/// The input indices of an instruction, length-prefixed, each as a 64-bit
/// word.
pub open spec fn inputs_encoding_upto(inputs: Seq<usize>, n: int) -> Seq<u8>
    decreases n,
{
    if n <= 0 {
        Seq::empty()
    } else {
        inputs_encoding_upto(inputs, n - 1) + u64_bytes(inputs[n - 1] as u64)
    }
}

pub open spec fn instr_encoding(instr: Instruction) -> Seq<u8> {
    u64_bytes(instr.inputs@.len() as u64) + inputs_encoding_upto(
        instr.inputs@,
        instr.inputs@.len() as int,
    ) + op_encoding(instr.operation)
}

/// The whole program: context word, instruction count, instructions in
/// order.
pub open spec fn instrs_encoding_upto(instrs: Seq<Instruction>, n: int) -> Seq<u8>
    decreases n,
{
    if n <= 0 {
        Seq::empty()
    } else {
        instrs_encoding_upto(instrs, n - 1) + instr_encoding(instrs[n - 1])
    }
}

pub open spec fn program_encoding(p: Program) -> Seq<u8> {
    u64_bytes(p.context.num_nodes as u64) + u64_bytes(p.instructions@.len() as u64)
        + instrs_encoding_upto(p.instructions@, p.instructions@.len() as int)
}

/// Append the eight little-endian bytes of a word.
fn push_u64(out: &mut Vec<u8>, x: u64)
    ensures
        final(out)@ == old(out)@ + u64_bytes(x),
{
    out.push(#[verifier::truncate] ((x & 0xff) as u8));
    out.push(#[verifier::truncate] (((x >> 8) & 0xff) as u8));
    out.push(#[verifier::truncate] (((x >> 16) & 0xff) as u8));
    out.push(#[verifier::truncate] (((x >> 24) & 0xff) as u8));
    out.push(#[verifier::truncate] (((x >> 32) & 0xff) as u8));
    out.push(#[verifier::truncate] (((x >> 40) & 0xff) as u8));
    out.push(#[verifier::truncate] (((x >> 48) & 0xff) as u8));
    out.push(#[verifier::truncate] (((x >> 56) & 0xff) as u8));
    assert(out@ =~= old(out)@ + u64_bytes(x));
}

/// Append the four little-endian bytes of a 32-bit word.
fn push_u32(out: &mut Vec<u8>, x: u32)
    ensures
        final(out)@ == old(out)@ + u32_bytes(x),
{
    out.push(#[verifier::truncate] ((x & 0xff) as u8));
    out.push(#[verifier::truncate] (((x >> 8) & 0xff) as u8));
    out.push(#[verifier::truncate] (((x >> 16) & 0xff) as u8));
    out.push(#[verifier::truncate] (((x >> 24) & 0xff) as u8));
    assert(out@ =~= old(out)@ + u32_bytes(x));
}

/// Append a length-prefixed byte vector.
fn push_bytes(out: &mut Vec<u8>, b: &Vec<u8>)
    ensures
        final(out)@ == old(out)@ + bytes_encoding(b@),
{
    push_u64(out, b.len() as u64);
    let ghost mid = out@;
    let mut i: usize = 0;
    while i < b.len()
        invariant
            i <= b@.len(),
            out@ =~= mid + b@.take(i as int),
        decreases b@.len() - i,
    {
        out.push(b[i]);
        i = i + 1;
    }
    assert(out@ =~= old(out)@ + bytes_encoding(b@));
}

/// Append a length-prefixed vector of byte vectors.
fn push_stacks(out: &mut Vec<u8>, v: &Vec<Vec<u8>>)
    ensures
        final(out)@ == old(out)@ + stacks_encoding(v@),
{
    push_u64(out, v.len() as u64);
    let ghost mid = out@;
    let mut i: usize = 0;
    while i < v.len()
        invariant
            i <= v@.len(),
            out@ =~= mid + stacks_encoding_upto(v@, i as int),
        decreases v@.len() - i,
    {
        push_bytes(out, &v[i]);
        i = i + 1;
    }
    assert(out@ =~= old(out)@ + stacks_encoding(v@));
}

/// Append the tag and payload of one operation.
fn push_op(out: &mut Vec<u8>, op: &Operation)
    ensures
        final(out)@ == old(out)@ + op_encoding(*op),
{
    let ghost pre = out@;
    match op {
            Operation::Nop { outputs, inner_outputs } => {
                out.push(0u8);
                push_u64(out, *outputs as u64);
                push_u64(out, *inner_outputs as u64);
            },
            Operation::LoadBytes(x) => {
                out.push(1u8);
                push_bytes(out, x);
            },
            Operation::LoadMsgType(x) => {
                out.push(2u8);
                push_bytes(out, x);
            },
            Operation::LoadConnectionType(x) => {
                out.push(5u8);
                push_bytes(out, x);
            },
            Operation::LoadPrivateKey(x) => {
                out.push(16u8);
                push_bytes(out, x);
            },
            Operation::LoadNode(x) => {
                out.push(3u8);
                push_u64(out, *x as u64);
            },
            Operation::LoadConnection(x) => {
                out.push(4u8);
                push_u64(out, *x as u64);
            },
            Operation::LoadSize(x) => {
                out.push(9u8);
                push_u64(out, *x as u64);
            },
            Operation::LoadDuration(x) => {
                out.push(6u8);
                push_u64(out, *x);
            },
            Operation::LoadTime(x) => {
                out.push(7u8);
                push_u64(out, *x);
            },
            Operation::LoadAmount(x) => {
                out.push(8u8);
                push_u64(out, *x);
            },
            Operation::LoadNonce(x) => {
                out.push(18u8);
                push_u64(out, *x);
            },
            Operation::LoadTxVersion(x) => {
                out.push(10u8);
                push_u32(out, *x);
            },
            Operation::LoadLockTime(x) => {
                out.push(12u8);
                push_u32(out, *x);
            },
            Operation::LoadSequence(x) => {
                out.push(13u8);
                push_u32(out, *x);
            },
            Operation::LoadBlockHeight(x) => {
                out.push(14u8);
                push_u32(out, *x);
            },
            Operation::LoadBlockVersion(x) => {
                out.push(11u8);
                push_u32(out, #[verifier::truncate] (*x as u32));
            },
            Operation::LoadCompactFilterType(x) => {
                out.push(15u8);
                out.push(*x);
            },
            Operation::LoadSigHashFlags(x) => {
                out.push(17u8);
                out.push(*x);
            },
            Operation::LoadTxo {
                outpoint_hash,
                outpoint_index,
                value,
                script_pubkey,
                spending_script_sig,
                spending_witness,
            } => {
                out.push(19u8);
                push_bytes(out, outpoint_hash);
                push_u32(out, *outpoint_index);
                push_u64(out, *value);
                push_bytes(out, script_pubkey);
                push_bytes(out, spending_script_sig);
                push_stacks(out, spending_witness);
            },
            Operation::LoadHeader { prev, merkle_root, nonce, bits, time, version, height } => {
                out.push(20u8);
                push_bytes(out, prev);
                push_bytes(out, merkle_root);
                push_u32(out, *nonce);
                push_u32(out, *bits);
                push_u32(out, *time);
                push_u32(out, #[verifier::truncate] (*version as u32));
                push_u32(out, *height);
            },
            Operation::SendRawMessage => {
                out.push(21u8);
            },
            Operation::AdvanceTime => {
                out.push(22u8);
            },
            Operation::SetTime => {
                out.push(23u8);
            },
            Operation::AddConnection => {
                out.push(24u8);
            },
            Operation::BuildRawScripts => {
                out.push(25u8);
            },
            Operation::BuildPayToWitnessScriptHash => {
                out.push(26u8);
            },
            Operation::BuildPayToPubKey => {
                out.push(27u8);
            },
            Operation::BuildPayToPubKeyHash => {
                out.push(28u8);
            },
            Operation::BuildPayToWitnessPubKeyHash => {
                out.push(29u8);
            },
            Operation::BuildPayToScriptHash => {
                out.push(30u8);
            },
            Operation::BuildOpReturnScripts => {
                out.push(31u8);
            },
            Operation::BuildPayToAnchor => {
                out.push(32u8);
            },
            Operation::BeginWitnessStack => {
                out.push(33u8);
            },
            Operation::EndWitnessStack => {
                out.push(34u8);
            },
            Operation::AddWitness => {
                out.push(35u8);
            },
            Operation::BeginBuildTx => {
                out.push(36u8);
            },
            Operation::EndBuildTx => {
                out.push(37u8);
            },
            Operation::BeginBuildTxInputs => {
                out.push(38u8);
            },
            Operation::EndBuildTxInputs => {
                out.push(39u8);
            },
            Operation::BeginBuildTxOutputs => {
                out.push(40u8);
            },
            Operation::EndBuildTxOutputs => {
                out.push(41u8);
            },
            Operation::AddTxOutput => {
                out.push(42u8);
            },
            Operation::AddTxInput => {
                out.push(43u8);
            },
            Operation::TakeTxo => {
                out.push(44u8);
            },
            Operation::BeginBuildCoinbaseTx => {
                out.push(45u8);
            },
            Operation::EndBuildCoinbaseTx => {
                out.push(46u8);
            },
            Operation::BuildCoinbaseTxInput => {
                out.push(47u8);
            },
            Operation::BeginBuildCoinbaseTxOutputs => {
                out.push(48u8);
            },
            Operation::EndBuildCoinbaseTxOutputs => {
                out.push(49u8);
            },
            Operation::AddCoinbaseTxOutput => {
                out.push(50u8);
            },
            Operation::BeginBlockTransactions => {
                out.push(51u8);
            },
            Operation::EndBlockTransactions => {
                out.push(52u8);
            },
            Operation::BuildBlock => {
                out.push(53u8);
            },
            Operation::AddTx => {
                out.push(54u8);
            },
            Operation::AddCoinbaseTx => {
                out.push(55u8);
            },
            Operation::BeginBuildInventory => {
                out.push(56u8);
            },
            Operation::EndBuildInventory => {
                out.push(57u8);
            },
            Operation::AddCompactBlockInv => {
                out.push(58u8);
            },
            Operation::AddTxidInv => {
                out.push(59u8);
            },
            Operation::AddTxidWithWitnessInv => {
                out.push(60u8);
            },
            Operation::AddWtxidInv => {
                out.push(61u8);
            },
            Operation::AddBlockInv => {
                out.push(62u8);
            },
            Operation::AddBlockWithWitnessInv => {
                out.push(63u8);
            },
            Operation::AddFilteredBlockInv => {
                out.push(64u8);
            },
            Operation::BeginPrefillTransactions => {
                out.push(65u8);
            },
            Operation::EndPrefillTransactions => {
                out.push(66u8);
            },
            Operation::AddPrefillTx => {
                out.push(67u8);
            },
            Operation::BuildCompactBlockWithPrefill => {
                out.push(68u8);
            },
            Operation::SendGetData => {
                out.push(69u8);
            },
            Operation::SendInv => {
                out.push(70u8);
            },
            Operation::SendTx => {
                out.push(71u8);
            },
            Operation::SendTxNoWit => {
                out.push(72u8);
            },
            Operation::SendHeader => {
                out.push(73u8);
            },
            Operation::SendBlock => {
                out.push(74u8);
            },
            Operation::SendBlockNoWit => {
                out.push(75u8);
            },
            Operation::SendGetCFilters => {
                out.push(76u8);
            },
            Operation::SendGetCFHeaders => {
                out.push(77u8);
            },
            Operation::SendGetCFCheckpt => {
                out.push(78u8);
            },
            Operation::SendCompactBlock => {
                out.push(79u8);
            },
            Operation::IncrementalSnapshot => {
                out.push(80u8);
            },
    }
    assert(out@ =~= pre + op_encoding(*op));
}

/// Append one encoded instruction.
fn push_instr(out: &mut Vec<u8>, instr: &Instruction)
    ensures
        final(out)@ == old(out)@ + instr_encoding(*instr),
{
    push_u64(out, instr.inputs.len() as u64);
    let ghost mid = out@;
    let mut i: usize = 0;
    while i < instr.inputs.len()
        invariant
            i <= instr.inputs@.len(),
            out@ =~= mid + inputs_encoding_upto(instr.inputs@, i as int),
        decreases instr.inputs@.len() - i,
    {
        push_u64(out, instr.inputs[i] as u64);
        i = i + 1;
    }
    push_op(out, &instr.operation);
    assert(out@ =~= old(out)@ + instr_encoding(*instr));
}

/// Encode a whole program to its byte form. The encoding depends only on
/// the program's contents, so it is deterministic.
pub fn encode_program(p: &Program) -> (r: Vec<u8>)
    ensures
        r@ == program_encoding(*p),
{
    let mut out: Vec<u8> = Vec::new();
    push_u64(&mut out, p.context.num_nodes as u64);
    push_u64(&mut out, p.instructions.len() as u64);
    let ghost mid = out@;
    let mut i: usize = 0;
    while i < p.instructions.len()
        invariant
            i <= p.instructions@.len(),
            out@ =~= mid + instrs_encoding_upto(p.instructions@, i as int),
        decreases p.instructions@.len() - i,
    {
        push_instr(&mut out, &p.instructions[i]);
        i = i + 1;
    }
    assert(out@ =~= program_encoding(*p));
    out
}

/// The encoding `e` stands at position `pos` of `s`.
pub open spec fn prefix_at(s: Seq<u8>, pos: int, e: Seq<u8>) -> bool {
    0 <= pos && pos + e.len() <= s.len() && s.subrange(pos, pos + e.len()) == e
}

/// The eight bytes of a word pin the word.
pub proof fn lemma_u64_bytes_inj(a: u64, b: u64)
    requires
        u64_bytes(a) == u64_bytes(b),
    ensures
        a == b,
{
    assert(u64_bytes(a)[0] == u64_bytes(b)[0] && u64_bytes(a)[1] == u64_bytes(b)[1]
        && u64_bytes(a)[2] == u64_bytes(b)[2] && u64_bytes(a)[3] == u64_bytes(b)[3]
        && u64_bytes(a)[4] == u64_bytes(b)[4] && u64_bytes(a)[5] == u64_bytes(b)[5]
        && u64_bytes(a)[6] == u64_bytes(b)[6] && u64_bytes(a)[7] == u64_bytes(b)[7]);
    assert(a == b) by (bit_vector)
        requires
            (a & 0xff) as u8 == (b & 0xff) as u8,
            ((a >> 8) & 0xff) as u8 == ((b >> 8) & 0xff) as u8,
            ((a >> 16) & 0xff) as u8 == ((b >> 16) & 0xff) as u8,
            ((a >> 24) & 0xff) as u8 == ((b >> 24) & 0xff) as u8,
            ((a >> 32) & 0xff) as u8 == ((b >> 32) & 0xff) as u8,
            ((a >> 40) & 0xff) as u8 == ((b >> 40) & 0xff) as u8,
            ((a >> 48) & 0xff) as u8 == ((b >> 48) & 0xff) as u8,
            ((a >> 56) & 0xff) as u8 == ((b >> 56) & 0xff) as u8,
    ;
}

/// The four bytes of a 32-bit word pin the word.
pub proof fn lemma_u32_bytes_inj(a: u32, b: u32)
    requires
        u32_bytes(a) == u32_bytes(b),
    ensures
        a == b,
{
    assert(u32_bytes(a)[0] == u32_bytes(b)[0] && u32_bytes(a)[1] == u32_bytes(b)[1]
        && u32_bytes(a)[2] == u32_bytes(b)[2] && u32_bytes(a)[3] == u32_bytes(b)[3]);
    assert(a == b) by (bit_vector)
        requires
            (a & 0xff) as u8 == (b & 0xff) as u8,
            ((a >> 8) & 0xff) as u8 == ((b >> 8) & 0xff) as u8,
            ((a >> 16) & 0xff) as u8 == ((b >> 16) & 0xff) as u8,
            ((a >> 24) & 0xff) as u8 == ((b >> 24) & 0xff) as u8,
    ;
}

/// A concatenated encoding splits into its parts, each in place.
pub proof fn lemma_prefix_split(s: Seq<u8>, pos: int, e1: Seq<u8>, e2: Seq<u8>)
    requires
        prefix_at(s, pos, e1 + e2),
    ensures
        prefix_at(s, pos, e1),
        prefix_at(s, pos + e1.len(), e2),
{
    let whole = e1 + e2;
    assert(s.subrange(pos, pos + e1.len()) =~= e1) by {
        assert forall|i: int| 0 <= i < e1.len() implies s.subrange(pos, pos + e1.len())[i]
            == e1[i] by {
            assert(s.subrange(pos, pos + whole.len())[i] == whole[i]);
        }
    }
    assert(s.subrange(pos + e1.len(), pos + e1.len() + e2.len()) =~= e2) by {
        assert forall|i: int| 0 <= i < e2.len() implies s.subrange(
            pos + e1.len(),
            pos + e1.len() + e2.len(),
        )[i] == e2[i] by {
            assert(s.subrange(pos, pos + whole.len())[e1.len() + i] == whole[e1.len() + i]);
        }
    }
}

/// Two length-prefixed byte vectors standing at the same position are the
/// same vector.
pub proof fn lemma_bytes_prefix_unamb(s: Seq<u8>, pos: int, v1: Seq<u8>, v2: Seq<u8>)
    requires
        s.len() <= usize::MAX,
        prefix_at(s, pos, bytes_encoding(v1)),
        prefix_at(s, pos, bytes_encoding(v2)),
    ensures
        v1 == v2,
{
    lemma_prefix_split(s, pos, u64_bytes(v1.len() as u64), v1);
    lemma_prefix_split(s, pos, u64_bytes(v2.len() as u64), v2);
    assert(s.subrange(pos, pos + 8) == u64_bytes(v1.len() as u64));
    assert(s.subrange(pos, pos + 8) == u64_bytes(v2.len() as u64));
    lemma_u64_bytes_inj(v1.len() as u64, v2.len() as u64);
    assert(v1.len() == v2.len());
    assert(v1 == s.subrange(pos + 8, pos + 8 + v1.len() as int));
    assert(v2 == s.subrange(pos + 8, pos + 8 + v2.len() as int));
}

/// Read one byte.
fn read_u8(bytes: &Vec<u8>, pos: usize) -> (r: Option<(u8, usize)>)
    ensures
        r is Some <==> pos < bytes@.len(),
        r matches Some((b, p)) ==> p == pos + 1 && b == bytes@[pos as int],
{
    if pos < bytes.len() {
        Some((bytes[pos], pos + 1))
    } else {
        None
    }
}

/// Read four little-endian bytes as a 32-bit word; the bytes read are
/// exactly the word's encoding.
fn read_u32(bytes: &Vec<u8>, pos: usize) -> (r: Option<(u32, usize)>)
    ensures
        r is Some <==> pos + 4 <= bytes@.len(),
        r matches Some((x, p)) ==> p == pos + 4 && bytes@.subrange(pos as int, pos + 4)
            == u32_bytes(x),
{
    let n = bytes.len();
    if pos <= n && n - pos >= 4 {
        let x = (bytes[pos] as u32) | ((bytes[pos + 1] as u32) << 8) | ((bytes[pos + 2] as u32)
            << 16) | ((bytes[pos + 3] as u32) << 24);
        proof {
            let b0 = bytes@[pos as int];
            let b1 = bytes@[pos as int + 1];
            let b2 = bytes@[pos as int + 2];
            let b3 = bytes@[pos as int + 3];
            assert((x & 0xff) as u8 == b0 && ((x >> 8) & 0xff) as u8 == b1 && ((x >> 16)
                & 0xff) as u8 == b2 && ((x >> 24) & 0xff) as u8 == b3) by (bit_vector)
                requires
                    x == (b0 as u32) | ((b1 as u32) << 8) | ((b2 as u32) << 16) | ((b3
                        as u32) << 24),
            ;
            assert(bytes@.subrange(pos as int, pos + 4) =~= u32_bytes(x));
        }
        Some((x, pos + 4))
    } else {
        None
    }
}

/// Read eight little-endian bytes as a word; the bytes read are exactly
/// the word's encoding.
fn read_u64(bytes: &Vec<u8>, pos: usize) -> (r: Option<(u64, usize)>)
    ensures
        r is Some <==> pos + 8 <= bytes@.len(),
        r matches Some((x, p)) ==> p == pos + 8 && bytes@.subrange(pos as int, pos + 8)
            == u64_bytes(x),
{
    let n = bytes.len();
    if pos <= n && n - pos >= 8 {
        let x = (bytes[pos] as u64) | ((bytes[pos + 1] as u64) << 8) | ((bytes[pos + 2] as u64)
            << 16) | ((bytes[pos + 3] as u64) << 24) | ((bytes[pos + 4] as u64) << 32) | ((bytes[pos
            + 5] as u64) << 40) | ((bytes[pos + 6] as u64) << 48) | ((bytes[pos + 7] as u64) << 56);
        proof {
            let b0 = bytes@[pos as int];
            let b1 = bytes@[pos as int + 1];
            let b2 = bytes@[pos as int + 2];
            let b3 = bytes@[pos as int + 3];
            let b4 = bytes@[pos as int + 4];
            let b5 = bytes@[pos as int + 5];
            let b6 = bytes@[pos as int + 6];
            let b7 = bytes@[pos as int + 7];
            assert((x & 0xff) as u8 == b0 && ((x >> 8) & 0xff) as u8 == b1 && ((x >> 16)
                & 0xff) as u8 == b2 && ((x >> 24) & 0xff) as u8 == b3 && ((x >> 32)
                & 0xff) as u8 == b4 && ((x >> 40) & 0xff) as u8 == b5 && ((x >> 48)
                & 0xff) as u8 == b6 && ((x >> 56) & 0xff) as u8 == b7) by (bit_vector)
                requires
                    x == (b0 as u64) | ((b1 as u64) << 8) | ((b2 as u64) << 16) | ((b3
                        as u64) << 24) | ((b4 as u64) << 32) | ((b5 as u64) << 40) | ((b6
                        as u64) << 48) | ((b7 as u64) << 56),
            ;
            assert(bytes@.subrange(pos as int, pos + 8) =~= u64_bytes(x));
        }
        Some((x, pos + 8))
    } else {
        None
    }
}

/// Read a word and narrow it to the machine's index width. Succeeds on
/// every word that came from an index.
fn read_usize(bytes: &Vec<u8>, pos: usize) -> (r: Option<(usize, usize)>)
    ensures
        r matches Some((x, p)) ==> p == pos + 8 && pos + 8 <= bytes@.len() && bytes@.subrange(
            pos as int,
            pos + 8,
        ) == u64_bytes(x as u64),
        forall|v: u64|
            pos + 8 <= bytes@.len() && bytes@.subrange(pos as int, pos + 8) == #[trigger] u64_bytes(
                v,
            ) && v <= usize::MAX ==> r is Some,
{
    let (x, p) = read_u64(bytes, pos)?;
    if x <= usize::MAX as u64 {
        Some((x as usize, p))
    } else {
        proof {
            assert forall|v: u64|
                pos + 8 <= bytes@.len() && bytes@.subrange(pos as int, pos + 8)
                    == #[trigger] u64_bytes(v) && v <= usize::MAX implies false by {
                lemma_u64_bytes_inj(v, x);
            }
        }
        None
    }
}


/// The length of the encoded input indices below `n`.
proof fn lemma_inputs_upto_len(v: Seq<usize>, n: int)
    ensures
        n >= 0 ==> inputs_encoding_upto(v, n).len() == 8 * n,
    decreases n,
{
    if n > 0 {
        lemma_inputs_upto_len(v, n - 1);
    }
}

/// Each encoded input index stands at its fixed offset.
proof fn lemma_inputs_elem_prefix(s: Seq<u8>, p0: int, v: Seq<usize>, n: int, j: int)
    requires
        prefix_at(s, p0, inputs_encoding_upto(v, n)),
        0 <= j < n,
    ensures
        prefix_at(s, p0 + 8 * j, u64_bytes(v[j] as u64)),
    decreases n,
{
    lemma_prefix_split(s, p0, inputs_encoding_upto(v, n - 1), u64_bytes(v[n - 1] as u64));
    lemma_inputs_upto_len(v, n - 1);
    if j < n - 1 {
        lemma_inputs_elem_prefix(s, p0, v, n - 1, j);
    }
}

/// Input encodings agree wherever the indices agree.
proof fn lemma_inputs_upto_agree(v1: Seq<usize>, v2: Seq<usize>, n: int)
    requires
        forall|k: int| 0 <= k < n ==> v1[k] == v2[k],
    ensures
        inputs_encoding_upto(v1, n) == inputs_encoding_upto(v2, n),
    decreases n,
{
    if n > 0 {
        lemma_inputs_upto_agree(v1, v2, n - 1);
    }
}

/// Instruction-sequence encodings agree wherever the instructions agree.
proof fn lemma_instrs_upto_agree(v1: Seq<Instruction>, v2: Seq<Instruction>, n: int)
    requires
        forall|k: int| 0 <= k < n ==> v1[k] == v2[k],
    ensures
        instrs_encoding_upto(v1, n) == instrs_encoding_upto(v2, n),
    decreases n,
{
    if n > 0 {
        lemma_instrs_upto_agree(v1, v2, n - 1);
    }
}

/// Stack encodings agree wherever the stacks hold the same bytes.
proof fn lemma_stacks_upto_agree(v1: Seq<Vec<u8>>, v2: Seq<Vec<u8>>, n: int)
    requires
        forall|k: int| 0 <= k < n ==> (#[trigger] v1[k])@ == v2[k]@,
    ensures
        stacks_encoding_upto(v1, n) == stacks_encoding_upto(v2, n),
    decreases n,
{
    if n > 0 {
        lemma_stacks_upto_agree(v1, v2, n - 1);
    }
}

/// Each encoded stack element stands right after the ones before it.
proof fn lemma_stacks_elem_prefix(s: Seq<u8>, p0: int, v: Seq<Vec<u8>>, n: int, j: int)
    requires
        prefix_at(s, p0, stacks_encoding_upto(v, n)),
        0 <= j < n,
    ensures
        prefix_at(s, p0 + stacks_encoding_upto(v, j).len(), bytes_encoding(v[j]@)),
    decreases n,
{
    lemma_prefix_split(s, p0, stacks_encoding_upto(v, n - 1), bytes_encoding(v[n - 1]@));
    if j < n - 1 {
        lemma_stacks_elem_prefix(s, p0, v, n - 1, j);
    }
}

/// Every encoded stack element takes at least its own length word.
proof fn lemma_stacks_upto_min_len(v: Seq<Vec<u8>>, n: int)
    ensures
        n >= 0 ==> stacks_encoding_upto(v, n).len() >= 8 * n,
    decreases n,
{
    if n > 0 {
        lemma_stacks_upto_min_len(v, n - 1);
    }
}

/// Every operation's encoding holds at least its tag byte.
proof fn lemma_op_encoding_min(op: Operation)
    ensures
        op_encoding(op).len() >= 1,
{
}

/// Every encoded instruction takes at least one byte.
proof fn lemma_instrs_upto_min_len(v: Seq<Instruction>, n: int)
    ensures
        n >= 0 ==> instrs_encoding_upto(v, n).len() >= n,
    decreases n,
{
    if n > 0 {
        lemma_instrs_upto_min_len(v, n - 1);
        lemma_op_encoding_min(v[n - 1].operation);
        lemma_inputs_upto_len(v[n - 1].inputs@, v[n - 1].inputs@.len() as int);
    }
}

/// Instruction encodings agree wherever the instructions agree through
/// their views.
pub proof fn lemma_op_encoding_congruent(a: Operation, b: Operation)
    requires
        crate::operation::op_eq(a, b),
    ensures
        op_encoding(a) == op_encoding(b),
{
    if let Operation::LoadTxo { spending_witness: w1, .. } = a {
        if let Operation::LoadTxo { spending_witness: w2, .. } = b {
            lemma_stacks_upto_agree(w1@, w2@, w1@.len() as int);
        }
    }
}

pub proof fn lemma_instr_encoding_congruent(a: Instruction, b: Instruction)
    requires
        crate::program::instr_eq(a, b),
    ensures
        instr_encoding(a) == instr_encoding(b),
{
    lemma_op_encoding_congruent(a.operation, b.operation);
}

/// Encodings of pointwise equal instruction prefixes agree.
proof fn lemma_instrs_upto_congruent(v1: Seq<Instruction>, v2: Seq<Instruction>, n: int)
    requires
        forall|k: int| 0 <= k < n ==> crate::program::instr_eq(#[trigger] v1[k], v2[k]),
    ensures
        instrs_encoding_upto(v1, n) == instrs_encoding_upto(v2, n),
    decreases n,
{
    if n > 0 {
        lemma_instrs_upto_congruent(v1, v2, n - 1);
        lemma_instr_encoding_congruent(v1[n - 1], v2[n - 1]);
    }
}

/// Each encoded instruction stands right after the ones before it.
proof fn lemma_instrs_elem_prefix(s: Seq<u8>, p0: int, v: Seq<Instruction>, n: int, j: int)
    requires
        prefix_at(s, p0, instrs_encoding_upto(v, n)),
        0 <= j < n,
    ensures
        prefix_at(s, p0 + instrs_encoding_upto(v, j).len(), instr_encoding(v[j])),
    decreases n,
{
    lemma_prefix_split(s, p0, instrs_encoding_upto(v, n - 1), instr_encoding(v[n - 1]));
    if j < n - 1 {
        lemma_instrs_elem_prefix(s, p0, v, n - 1, j);
    }
}

/// Read a length-prefixed byte vector; the bytes consumed are exactly the
/// encoding of the result, and any position holding an encoded vector is
/// read successfully.
fn read_bytes(bytes: &Vec<u8>, pos: usize) -> (r: Option<(Vec<u8>, usize)>)
    ensures
        r matches Some((b, p)) ==> pos < p <= bytes@.len() && p - pos == 8 + b@.len()
            && bytes@.subrange(pos as int, p as int) == bytes_encoding(b@),
        forall|v: Seq<u8>|
            #[trigger] prefix_at(bytes@, pos as int, bytes_encoding(v)) ==> r is Some,
{
    let n = bytes.len();
    proof {
        assert forall|v: Seq<u8>|
            #[trigger] prefix_at(bytes@, pos as int, bytes_encoding(v)) implies pos + 8
            <= bytes@.len() && bytes@.subrange(pos as int, pos as int + 8) == u64_bytes(
            v.len() as u64,
        ) && v.len() <= usize::MAX by {
            lemma_prefix_split(bytes@, pos as int, u64_bytes(v.len() as u64), v);
        }
    }
    let (len, p0) = read_usize(bytes, pos)?;
    if len > n || p0 > n - len {
        proof {
            assert forall|v: Seq<u8>|
                #[trigger] prefix_at(bytes@, pos as int, bytes_encoding(v)) implies false by {
                lemma_u64_bytes_inj(v.len() as u64, len as u64);
            }
        }
        return None;
    }
    let mut out: Vec<u8> = Vec::new();
    let mut i: usize = 0;
    while i < len
        invariant
            p0 + len <= bytes@.len(),
            bytes@.len() <= usize::MAX,
            i <= len,
            out@ == bytes@.subrange(p0 as int, p0 + i as int),
        decreases len - i,
    {
        out.push(bytes[p0 + i]);
        proof {
            assert(out@ =~= bytes@.subrange(p0 as int, p0 + i + 1 as int));
        }
        i = i + 1;
    }
    proof {
        assert(bytes@.subrange(pos as int, p0 + len as int) =~= u64_bytes(len as u64) + out@) by {
            assert forall|k: int| 0 <= k < 8 + len implies (#[trigger] bytes@.subrange(
                pos as int,
                p0 + len as int,
            )[k]) == (u64_bytes(len as u64) + out@)[k] by {
                if k < 8 {
                    assert(bytes@.subrange(pos as int, pos as int + 8)[k] == u64_bytes(
                        len as u64,
                    )[k]);
                } else {
                    assert(out@[k - 8] == bytes@.subrange(p0 as int, p0 + len as int)[k - 8]);
                }
            }
        }
        assert(bytes_encoding(out@) == u64_bytes(len as u64) + out@);
    }
    Some((out, p0 + len))
}

/// Read a length-prefixed vector of byte vectors; the bytes consumed are
/// exactly the encoding of the result, and any position holding an encoded
/// vector of stacks is read back with the same contents.
fn read_stacks(bytes: &Vec<u8>, pos: usize) -> (r: Option<(Vec<Vec<u8>>, usize)>)
    ensures
        r matches Some((out, p)) ==> pos < p <= bytes@.len() && bytes@.subrange(
            pos as int,
            p as int,
        ) == stacks_encoding(out@),
        forall|v: Seq<Vec<u8>>|
            #[trigger] prefix_at(bytes@, pos as int, stacks_encoding(v)) ==> (r matches Some(
                (out, p),
            ) && p == pos + stacks_encoding(v).len() && crate::operation::bytes2_eq(out@, v)),
{
    // Bind the length once so the buffer's machine-size bound is in scope.
    let n = bytes.len();
    proof {
        assert(bytes@.len() <= usize::MAX);
        assert forall|v: Seq<Vec<u8>>|
            #[trigger] prefix_at(bytes@, pos as int, stacks_encoding(v)) implies pos + 8
            <= bytes@.len() && bytes@.subrange(pos as int, pos as int + 8) == u64_bytes(
            v.len() as u64,
        ) && v.len() <= usize::MAX && prefix_at(
            bytes@,
            pos as int + 8,
            stacks_encoding_upto(v, v.len() as int),
        ) by {
            lemma_prefix_split(
                bytes@,
                pos as int,
                u64_bytes(v.len() as u64),
                stacks_encoding_upto(v, v.len() as int),
            );
            lemma_stacks_upto_min_len(v, v.len() as int);
        }
    }
    let (len, p0) = read_usize(bytes, pos)?;
    proof {
        assert forall|v: Seq<Vec<u8>>|
            #[trigger] prefix_at(bytes@, pos as int, stacks_encoding(v)) implies v.len()
            == len by {
            lemma_u64_bytes_inj(v.len() as u64, len as u64);
        }
    }
    let mut out: Vec<Vec<u8>> = Vec::new();
    let mut i: usize = 0;
    let mut p = p0;
    while i < len
        invariant
            pos < p0 <= bytes@.len(),
            bytes@.len() <= usize::MAX,
            p0 == pos + 8,
            p0 <= p <= bytes@.len(),
            i <= len,
            out@.len() == i,
            bytes@.subrange(p0 as int, p as int) == stacks_encoding_upto(out@, i as int),
            forall|v: Seq<Vec<u8>>|
                #[trigger] prefix_at(bytes@, pos as int, stacks_encoding(v)) ==> (v.len() == len
                    && (forall|k: int| 0 <= k < i ==> (#[trigger] out@[k])@ == v[k]@)),
        decreases len - i,
    {
        let ghost pre_out = out@;
        let ghost pre_p = p;
        proof {
            assert forall|v: Seq<Vec<u8>>|
                #[trigger] prefix_at(bytes@, pos as int, stacks_encoding(v)) implies prefix_at(
                bytes@,
                p as int,
                bytes_encoding(v[i as int]@),
            ) by {
                lemma_prefix_split(
                    bytes@,
                    pos as int,
                    u64_bytes(v.len() as u64),
                    stacks_encoding_upto(v, v.len() as int),
                );
                lemma_stacks_elem_prefix(bytes@, pos as int + 8, v, len as int, i as int);
                lemma_stacks_upto_agree(out@, v, i as int);
            }
        }
        let (b, p1) = read_bytes(bytes, p)?;
        proof {
            assert forall|v: Seq<Vec<u8>>|
                #[trigger] prefix_at(bytes@, pos as int, stacks_encoding(v)) implies b@
                == v[i as int]@ by {
                lemma_prefix_split(
                    bytes@,
                    pos as int,
                    u64_bytes(v.len() as u64),
                    stacks_encoding_upto(v, v.len() as int),
                );
                lemma_stacks_elem_prefix(bytes@, pos as int + 8, v, len as int, i as int);
                lemma_stacks_upto_agree(out@, v, i as int);
                lemma_bytes_prefix_unamb(bytes@, p as int, b@, v[i as int]@);
            }
        }
        out.push(b);
        p = p1;
        i = i + 1;
        proof {
            assert(stacks_encoding_upto(out@, i as int) == stacks_encoding_upto(
                pre_out.push(b),
                i as int,
            ));
            lemma_stacks_upto_agree(out@, pre_out, i - 1);
            assert(out@[i - 1] == b);
            assert(bytes@.subrange(p0 as int, p as int) =~= stacks_encoding_upto(
                pre_out,
                i - 1,
            ) + bytes_encoding(b@)) by {
                assert forall|k: int|
                    0 <= k < p - p0 implies (#[trigger] bytes@.subrange(p0 as int, p as int)[k]) == (
                stacks_encoding_upto(pre_out, i - 1) + bytes_encoding(b@))[k] by {
                    if k < pre_p - p0 {
                        assert(bytes@.subrange(p0 as int, pre_p as int)[k] == stacks_encoding_upto(
                            pre_out,
                            i - 1,
                        )[k]);
                    } else {
                        assert(bytes@.subrange(pre_p as int, p as int)[k - (pre_p - p0)]
                            == bytes_encoding(b@)[k - (pre_p - p0)]);
                    }
                }
            }
        }
    }
    proof {
        assert(bytes@.subrange(pos as int, p as int) =~= u64_bytes(len as u64)
            + stacks_encoding_upto(out@, len as int)) by {
            assert forall|k: int| 0 <= k < p - pos implies bytes@.subrange(pos as int, p as int)[k]
                == (u64_bytes(len as u64) + stacks_encoding_upto(out@, len as int))[k] by {
                if k < 8 {
                    assert(bytes@.subrange(pos as int, pos as int + 8)[k] == u64_bytes(
                        len as u64,
                    )[k]);
                } else {
                    assert(bytes@.subrange(p0 as int, p as int)[k - 8] == stacks_encoding_upto(
                        out@,
                        len as int,
                    )[k - 8]);
                }
            }
        }
        assert(stacks_encoding(out@) == u64_bytes(len as u64) + stacks_encoding_upto(
            out@,
            len as int,
        ));
        assert forall|v: Seq<Vec<u8>>|
            #[trigger] prefix_at(bytes@, pos as int, stacks_encoding(v)) implies (p == pos
            + stacks_encoding(v).len() && crate::operation::bytes2_eq(out@, v)) by {
            lemma_stacks_upto_agree(out@, v, len as int);
        }
    }
    Some((out, p))
}


/// The operation behind a payload-free tag.
#[verifier::rlimit(100)]
#[verifier::spinoff_prover]
fn read_unit_op(tag: u8) -> (r: Option<Operation>)
    ensures
        r is Some <==> 21 <= tag <= 80,
        r matches Some(op) ==> op_encoding(op) == seq![tag],
        r matches Some(op) ==> forall|op2: Operation|
            (#[trigger] op_encoding(op2))[0] == tag ==> op2 == op,
{
    let r0: Option<Operation> = match tag {
        21u8 => Some(Operation::SendRawMessage),
        22u8 => Some(Operation::AdvanceTime),
        23u8 => Some(Operation::SetTime),
        24u8 => Some(Operation::AddConnection),
        25u8 => Some(Operation::BuildRawScripts),
        26u8 => Some(Operation::BuildPayToWitnessScriptHash),
        27u8 => Some(Operation::BuildPayToPubKey),
        28u8 => Some(Operation::BuildPayToPubKeyHash),
        29u8 => Some(Operation::BuildPayToWitnessPubKeyHash),
        30u8 => Some(Operation::BuildPayToScriptHash),
        31u8 => Some(Operation::BuildOpReturnScripts),
        32u8 => Some(Operation::BuildPayToAnchor),
        33u8 => Some(Operation::BeginWitnessStack),
        34u8 => Some(Operation::EndWitnessStack),
        35u8 => Some(Operation::AddWitness),
        36u8 => Some(Operation::BeginBuildTx),
        37u8 => Some(Operation::EndBuildTx),
        38u8 => Some(Operation::BeginBuildTxInputs),
        39u8 => Some(Operation::EndBuildTxInputs),
        40u8 => Some(Operation::BeginBuildTxOutputs),
        41u8 => Some(Operation::EndBuildTxOutputs),
        42u8 => Some(Operation::AddTxOutput),
        43u8 => Some(Operation::AddTxInput),
        44u8 => Some(Operation::TakeTxo),
        45u8 => Some(Operation::BeginBuildCoinbaseTx),
        46u8 => Some(Operation::EndBuildCoinbaseTx),
        47u8 => Some(Operation::BuildCoinbaseTxInput),
        48u8 => Some(Operation::BeginBuildCoinbaseTxOutputs),
        49u8 => Some(Operation::EndBuildCoinbaseTxOutputs),
        50u8 => Some(Operation::AddCoinbaseTxOutput),
        51u8 => Some(Operation::BeginBlockTransactions),
        52u8 => Some(Operation::EndBlockTransactions),
        53u8 => Some(Operation::BuildBlock),
        54u8 => Some(Operation::AddTx),
        55u8 => Some(Operation::AddCoinbaseTx),
        56u8 => Some(Operation::BeginBuildInventory),
        57u8 => Some(Operation::EndBuildInventory),
        58u8 => Some(Operation::AddCompactBlockInv),
        59u8 => Some(Operation::AddTxidInv),
        60u8 => Some(Operation::AddTxidWithWitnessInv),
        61u8 => Some(Operation::AddWtxidInv),
        62u8 => Some(Operation::AddBlockInv),
        63u8 => Some(Operation::AddBlockWithWitnessInv),
        64u8 => Some(Operation::AddFilteredBlockInv),
        65u8 => Some(Operation::BeginPrefillTransactions),
        66u8 => Some(Operation::EndPrefillTransactions),
        67u8 => Some(Operation::AddPrefillTx),
        68u8 => Some(Operation::BuildCompactBlockWithPrefill),
        69u8 => Some(Operation::SendGetData),
        70u8 => Some(Operation::SendInv),
        71u8 => Some(Operation::SendTx),
        72u8 => Some(Operation::SendTxNoWit),
        73u8 => Some(Operation::SendHeader),
        74u8 => Some(Operation::SendBlock),
        75u8 => Some(Operation::SendBlockNoWit),
        76u8 => Some(Operation::SendGetCFilters),
        77u8 => Some(Operation::SendGetCFHeaders),
        78u8 => Some(Operation::SendGetCFCheckpt),
        79u8 => Some(Operation::SendCompactBlock),
        80u8 => Some(Operation::IncrementalSnapshot),
        _ => None,
    };
    proof {
        if r0 is Some {
            assert(op_encoding(r0->Some_0) =~= seq![tag]);
        }
    }
    r0
}


/// Read the payload of a `Nop`.
#[verifier::rlimit(100)]
#[verifier::spinoff_prover]
fn parse_nop(bytes: &Vec<u8>, pos0: usize, pos: usize) -> (r: Option<(Operation, usize)>)
    requires
        pos == pos0 + 1,
        pos0 < bytes@.len(),
        bytes@[pos0 as int] == 0,
    ensures
        r matches Some((op, p)) ==> pos0 < p <= bytes@.len() && bytes@.subrange(
            pos0 as int,
            p as int,
        ) == op_encoding(op),
        forall|op2: Operation|
            #[trigger] prefix_at(bytes@, pos0 as int, op_encoding(op2)) ==> (r matches Some(
                (op, p),
            ) && crate::operation::op_eq(op, op2) && p == pos0 + op_encoding(op2).len()),
{
    proof {
        assert forall|op2: Operation|
            #[trigger] prefix_at(bytes@, pos0 as int, op_encoding(op2)) implies op_encoding(
            op2,
        )[0] == bytes@[pos0 as int] by {
            assert(bytes@.subrange(pos0 as int, pos0 + op_encoding(op2).len() as int)[0]
                == op_encoding(op2)[0]);
        }
    }
    proof {
        assert forall|op2: Operation|
            #[trigger] prefix_at(bytes@, pos0 as int, op_encoding(op2)) implies (op2 matches
        Operation::Nop { .. } && op_encoding(op2).len() == 17 && exists|v: u64|
            v <= usize::MAX && #[trigger] prefix_at(bytes@, pos as int, u64_bytes(v))) by {
            if let Operation::Nop { outputs: o2, inner_outputs: n2 } = op2 {
                assert(op_encoding(op2) == seq![0u8] + u64_bytes(o2 as u64) + u64_bytes(
                    n2 as u64,
                ));
                lemma_prefix_split(
                    bytes@,
                    pos0 as int,
                    seq![0u8] + u64_bytes(o2 as u64),
                    u64_bytes(n2 as u64),
                );
                lemma_prefix_split(bytes@, pos0 as int, seq![0u8], u64_bytes(o2 as u64));
                assert(prefix_at(bytes@, pos as int, u64_bytes(o2 as u64)));
            }
        }
    }
    let (o, p1) = read_usize(bytes, pos)?;
    proof {
        assert forall|op2: Operation|
            #[trigger] prefix_at(bytes@, pos0 as int, op_encoding(op2)) implies (exists|v: u64|
            v <= usize::MAX && #[trigger] prefix_at(bytes@, p1 as int, u64_bytes(v))) by {
            if let Operation::Nop { outputs: o2, inner_outputs: n2 } = op2 {
                assert(op_encoding(op2) == seq![0u8] + u64_bytes(o2 as u64) + u64_bytes(
                    n2 as u64,
                ));
                lemma_prefix_split(
                    bytes@,
                    pos0 as int,
                    seq![0u8] + u64_bytes(o2 as u64),
                    u64_bytes(n2 as u64),
                );
                assert(prefix_at(bytes@, p1 as int, u64_bytes(n2 as u64)));
            }
        }
    }
    let (nn, p2) = read_usize(bytes, p1)?;
    proof {
        assert forall|op2: Operation|
            #[trigger] prefix_at(bytes@, pos0 as int, op_encoding(op2)) implies (
        crate::operation::op_eq(Operation::Nop { outputs: o, inner_outputs: nn }, op2) && pos0
            + op_encoding(op2).len() == p2 as int) by {
            if let Operation::Nop { outputs: o2, inner_outputs: n2 } = op2 {
                assert(op_encoding(op2) == seq![0u8] + u64_bytes(o2 as u64) + u64_bytes(
                    n2 as u64,
                ));
                lemma_prefix_split(
                    bytes@,
                    pos0 as int,
                    seq![0u8] + u64_bytes(o2 as u64),
                    u64_bytes(n2 as u64),
                );
                lemma_prefix_split(bytes@, pos0 as int, seq![0u8], u64_bytes(o2 as u64));
                lemma_u64_bytes_inj(o2 as u64, o as u64);
                lemma_u64_bytes_inj(n2 as u64, nn as u64);
            } else {
                assert(false);
            }
        }
        assert(bytes@.subrange(pos0 as int, p2 as int) =~= seq![0u8] + u64_bytes(o as u64)
            + u64_bytes(nn as u64)) by {
            assert forall|k: int| 0 <= k < 17 implies (#[trigger] bytes@.subrange(
                pos0 as int,
                p2 as int,
            )[k]) == (seq![0u8] + u64_bytes(o as u64) + u64_bytes(nn as u64))[k] by {
                if 1 <= k < 9 {
                    assert(bytes@.subrange(pos as int, p1 as int)[k - 1] == u64_bytes(o as u64)[k
                        - 1]);
                }
                if k >= 9 {
                    assert(bytes@.subrange(p1 as int, p2 as int)[k - 9] == u64_bytes(nn as u64)[k
                        - 9]);
                }
            }
        }
    }
    Some((Operation::Nop { outputs: o, inner_outputs: nn }, p2))
}

/// Read the payload of a `LoadBytes`.
#[verifier::rlimit(100)]
#[verifier::spinoff_prover]
fn parse_load_bytes(bytes: &Vec<u8>, pos0: usize, pos: usize) -> (r: Option<(Operation, usize)>)
    requires
        pos == pos0 + 1,
        pos0 < bytes@.len(),
        bytes@[pos0 as int] == 1,
    ensures
        r matches Some((op, p)) ==> pos0 < p <= bytes@.len() && bytes@.subrange(
            pos0 as int,
            p as int,
        ) == op_encoding(op),
        forall|op2: Operation|
            #[trigger] prefix_at(bytes@, pos0 as int, op_encoding(op2)) ==> (r matches Some(
                (op, p),
            ) && crate::operation::op_eq(op, op2) && p == pos0 + op_encoding(op2).len()),
{
    // Bind the length once so the buffer's machine-size bound is in scope.
    let _n = bytes.len();
    proof {
        assert forall|op2: Operation|
            #[trigger] prefix_at(bytes@, pos0 as int, op_encoding(op2)) implies op_encoding(
            op2,
        )[0] == bytes@[pos0 as int] by {
            assert(bytes@.subrange(pos0 as int, pos0 + op_encoding(op2).len() as int)[0]
                == op_encoding(op2)[0]);
        }
    }
    proof {
        assert forall|op2: Operation|
            #[trigger] prefix_at(bytes@, pos0 as int, op_encoding(op2)) implies (op2 matches
        Operation::LoadBytes(_) && exists|v: Seq<u8>|
            #[trigger] prefix_at(bytes@, pos as int, bytes_encoding(v))) by {
            if let Operation::LoadBytes(y) = op2 {
                assert(op_encoding(op2) == seq![1u8] + bytes_encoding(y@));
                lemma_prefix_split(bytes@, pos0 as int, seq![1u8], bytes_encoding(y@));
                assert(prefix_at(bytes@, pos as int, bytes_encoding(y@)));
            }
        }
    }
    let (x, p1) = read_bytes(bytes, pos)?;
    proof {
        assert(prefix_at(bytes@, pos as int, bytes_encoding(x@)));
        assert forall|op2: Operation|
            #[trigger] prefix_at(bytes@, pos0 as int, op_encoding(op2)) implies (
        crate::operation::op_eq(Operation::LoadBytes(x), op2) && pos0 + op_encoding(op2).len()
            == p1 as int) by {
            if let Operation::LoadBytes(y) = op2 {
                assert(op_encoding(op2) == seq![1u8] + bytes_encoding(y@));
                lemma_prefix_split(bytes@, pos0 as int, seq![1u8], bytes_encoding(y@));
                lemma_bytes_prefix_unamb(bytes@, pos as int, x@, y@);
            } else {
                assert(false);
            }
        }
        assert(bytes@.subrange(pos0 as int, p1 as int) =~= seq![1u8] + bytes_encoding(
            x@,
        )) by {
            assert forall|k: int| 0 <= k < p1 - pos0 implies (#[trigger] bytes@.subrange(
                pos0 as int,
                p1 as int,
            )[k]) == (seq![1u8] + bytes_encoding(x@))[k] by {
                if k >= 1 {
                    assert(bytes@.subrange(pos as int, p1 as int)[k - 1] == bytes_encoding(x@)[k
                        - 1]);
                }
            }
        }
    }
    Some((Operation::LoadBytes(x), p1))
}

/// Read the payload of a `LoadMsgType`.
#[verifier::rlimit(100)]
#[verifier::spinoff_prover]
fn parse_load_msg_type(bytes: &Vec<u8>, pos0: usize, pos: usize) -> (r: Option<(Operation, usize)>)
    requires
        pos == pos0 + 1,
        pos0 < bytes@.len(),
        bytes@[pos0 as int] == 2,
    ensures
        r matches Some((op, p)) ==> pos0 < p <= bytes@.len() && bytes@.subrange(
            pos0 as int,
            p as int,
        ) == op_encoding(op),
        forall|op2: Operation|
            #[trigger] prefix_at(bytes@, pos0 as int, op_encoding(op2)) ==> (r matches Some(
                (op, p),
            ) && crate::operation::op_eq(op, op2) && p == pos0 + op_encoding(op2).len()),
{
    // Bind the length once so the buffer's machine-size bound is in scope.
    let _n = bytes.len();
    proof {
        assert forall|op2: Operation|
            #[trigger] prefix_at(bytes@, pos0 as int, op_encoding(op2)) implies op_encoding(
            op2,
        )[0] == bytes@[pos0 as int] by {
            assert(bytes@.subrange(pos0 as int, pos0 + op_encoding(op2).len() as int)[0]
                == op_encoding(op2)[0]);
        }
    }
    proof {
        assert forall|op2: Operation|
            #[trigger] prefix_at(bytes@, pos0 as int, op_encoding(op2)) implies (op2 matches
        Operation::LoadMsgType(_) && exists|v: Seq<u8>|
            #[trigger] prefix_at(bytes@, pos as int, bytes_encoding(v))) by {
            if let Operation::LoadMsgType(y) = op2 {
                assert(op_encoding(op2) == seq![2u8] + bytes_encoding(y@));
                lemma_prefix_split(bytes@, pos0 as int, seq![2u8], bytes_encoding(y@));
                assert(prefix_at(bytes@, pos as int, bytes_encoding(y@)));
            }
        }
    }
    let (x, p1) = read_bytes(bytes, pos)?;
    proof {
        assert(prefix_at(bytes@, pos as int, bytes_encoding(x@)));
        assert forall|op2: Operation|
            #[trigger] prefix_at(bytes@, pos0 as int, op_encoding(op2)) implies (
        crate::operation::op_eq(Operation::LoadMsgType(x), op2) && pos0 + op_encoding(op2).len()
            == p1 as int) by {
            if let Operation::LoadMsgType(y) = op2 {
                assert(op_encoding(op2) == seq![2u8] + bytes_encoding(y@));
                lemma_prefix_split(bytes@, pos0 as int, seq![2u8], bytes_encoding(y@));
                lemma_bytes_prefix_unamb(bytes@, pos as int, x@, y@);
            } else {
                assert(false);
            }
        }
        assert(bytes@.subrange(pos0 as int, p1 as int) =~= seq![2u8] + bytes_encoding(
            x@,
        )) by {
            assert forall|k: int| 0 <= k < p1 - pos0 implies (#[trigger] bytes@.subrange(
                pos0 as int,
                p1 as int,
            )[k]) == (seq![2u8] + bytes_encoding(x@))[k] by {
                if k >= 1 {
                    assert(bytes@.subrange(pos as int, p1 as int)[k - 1] == bytes_encoding(x@)[k
                        - 1]);
                }
            }
        }
    }
    Some((Operation::LoadMsgType(x), p1))
}

/// Read the payload of a `LoadConnectionType`.
#[verifier::rlimit(100)]
#[verifier::spinoff_prover]
fn parse_load_connection_type(bytes: &Vec<u8>, pos0: usize, pos: usize) -> (r: Option<(Operation, usize)>)
    requires
        pos == pos0 + 1,
        pos0 < bytes@.len(),
        bytes@[pos0 as int] == 5,
    ensures
        r matches Some((op, p)) ==> pos0 < p <= bytes@.len() && bytes@.subrange(
            pos0 as int,
            p as int,
        ) == op_encoding(op),
        forall|op2: Operation|
            #[trigger] prefix_at(bytes@, pos0 as int, op_encoding(op2)) ==> (r matches Some(
                (op, p),
            ) && crate::operation::op_eq(op, op2) && p == pos0 + op_encoding(op2).len()),
{
    // Bind the length once so the buffer's machine-size bound is in scope.
    let _n = bytes.len();
    proof {
        assert forall|op2: Operation|
            #[trigger] prefix_at(bytes@, pos0 as int, op_encoding(op2)) implies op_encoding(
            op2,
        )[0] == bytes@[pos0 as int] by {
            assert(bytes@.subrange(pos0 as int, pos0 + op_encoding(op2).len() as int)[0]
                == op_encoding(op2)[0]);
        }
    }
    proof {
        assert forall|op2: Operation|
            #[trigger] prefix_at(bytes@, pos0 as int, op_encoding(op2)) implies (op2 matches
        Operation::LoadConnectionType(_) && exists|v: Seq<u8>|
            #[trigger] prefix_at(bytes@, pos as int, bytes_encoding(v))) by {
            if let Operation::LoadConnectionType(y) = op2 {
                assert(op_encoding(op2) == seq![5u8] + bytes_encoding(y@));
                lemma_prefix_split(bytes@, pos0 as int, seq![5u8], bytes_encoding(y@));
                assert(prefix_at(bytes@, pos as int, bytes_encoding(y@)));
            }
        }
    }
    let (x, p1) = read_bytes(bytes, pos)?;
    proof {
        assert(prefix_at(bytes@, pos as int, bytes_encoding(x@)));
        assert forall|op2: Operation|
            #[trigger] prefix_at(bytes@, pos0 as int, op_encoding(op2)) implies (
        crate::operation::op_eq(Operation::LoadConnectionType(x), op2) && pos0 + op_encoding(op2).len()
            == p1 as int) by {
            if let Operation::LoadConnectionType(y) = op2 {
                assert(op_encoding(op2) == seq![5u8] + bytes_encoding(y@));
                lemma_prefix_split(bytes@, pos0 as int, seq![5u8], bytes_encoding(y@));
                lemma_bytes_prefix_unamb(bytes@, pos as int, x@, y@);
            } else {
                assert(false);
            }
        }
        assert(bytes@.subrange(pos0 as int, p1 as int) =~= seq![5u8] + bytes_encoding(
            x@,
        )) by {
            assert forall|k: int| 0 <= k < p1 - pos0 implies (#[trigger] bytes@.subrange(
                pos0 as int,
                p1 as int,
            )[k]) == (seq![5u8] + bytes_encoding(x@))[k] by {
                if k >= 1 {
                    assert(bytes@.subrange(pos as int, p1 as int)[k - 1] == bytes_encoding(x@)[k
                        - 1]);
                }
            }
        }
    }
    Some((Operation::LoadConnectionType(x), p1))
}

/// Read the payload of a `LoadPrivateKey`.
#[verifier::rlimit(100)]
#[verifier::spinoff_prover]
fn parse_load_private_key(bytes: &Vec<u8>, pos0: usize, pos: usize) -> (r: Option<(Operation, usize)>)
    requires
        pos == pos0 + 1,
        pos0 < bytes@.len(),
        bytes@[pos0 as int] == 16,
    ensures
        r matches Some((op, p)) ==> pos0 < p <= bytes@.len() && bytes@.subrange(
            pos0 as int,
            p as int,
        ) == op_encoding(op),
        forall|op2: Operation|
            #[trigger] prefix_at(bytes@, pos0 as int, op_encoding(op2)) ==> (r matches Some(
                (op, p),
            ) && crate::operation::op_eq(op, op2) && p == pos0 + op_encoding(op2).len()),
{
    // Bind the length once so the buffer's machine-size bound is in scope.
    let _n = bytes.len();
    proof {
        assert forall|op2: Operation|
            #[trigger] prefix_at(bytes@, pos0 as int, op_encoding(op2)) implies op_encoding(
            op2,
        )[0] == bytes@[pos0 as int] by {
            assert(bytes@.subrange(pos0 as int, pos0 + op_encoding(op2).len() as int)[0]
                == op_encoding(op2)[0]);
        }
    }
    proof {
        assert forall|op2: Operation|
            #[trigger] prefix_at(bytes@, pos0 as int, op_encoding(op2)) implies (op2 matches
        Operation::LoadPrivateKey(_) && exists|v: Seq<u8>|
            #[trigger] prefix_at(bytes@, pos as int, bytes_encoding(v))) by {
            if let Operation::LoadPrivateKey(y) = op2 {
                assert(op_encoding(op2) == seq![16u8] + bytes_encoding(y@));
                lemma_prefix_split(bytes@, pos0 as int, seq![16u8], bytes_encoding(y@));
                assert(prefix_at(bytes@, pos as int, bytes_encoding(y@)));
            }
        }
    }
    let (x, p1) = read_bytes(bytes, pos)?;
    proof {
        assert(prefix_at(bytes@, pos as int, bytes_encoding(x@)));
        assert forall|op2: Operation|
            #[trigger] prefix_at(bytes@, pos0 as int, op_encoding(op2)) implies (
        crate::operation::op_eq(Operation::LoadPrivateKey(x), op2) && pos0 + op_encoding(op2).len()
            == p1 as int) by {
            if let Operation::LoadPrivateKey(y) = op2 {
                assert(op_encoding(op2) == seq![16u8] + bytes_encoding(y@));
                lemma_prefix_split(bytes@, pos0 as int, seq![16u8], bytes_encoding(y@));
                lemma_bytes_prefix_unamb(bytes@, pos as int, x@, y@);
            } else {
                assert(false);
            }
        }
        assert(bytes@.subrange(pos0 as int, p1 as int) =~= seq![16u8] + bytes_encoding(
            x@,
        )) by {
            assert forall|k: int| 0 <= k < p1 - pos0 implies (#[trigger] bytes@.subrange(
                pos0 as int,
                p1 as int,
            )[k]) == (seq![16u8] + bytes_encoding(x@))[k] by {
                if k >= 1 {
                    assert(bytes@.subrange(pos as int, p1 as int)[k - 1] == bytes_encoding(x@)[k
                        - 1]);
                }
            }
        }
    }
    Some((Operation::LoadPrivateKey(x), p1))
}

/// Read the payload of a `LoadNode`.
#[verifier::rlimit(100)]
#[verifier::spinoff_prover]
fn parse_load_node(bytes: &Vec<u8>, pos0: usize, pos: usize) -> (r: Option<(Operation, usize)>)
    requires
        pos == pos0 + 1,
        pos0 < bytes@.len(),
        bytes@[pos0 as int] == 3,
    ensures
        r matches Some((op, p)) ==> pos0 < p <= bytes@.len() && bytes@.subrange(
            pos0 as int,
            p as int,
        ) == op_encoding(op),
        forall|op2: Operation|
            #[trigger] prefix_at(bytes@, pos0 as int, op_encoding(op2)) ==> (r matches Some(
                (op, p),
            ) && crate::operation::op_eq(op, op2) && p == pos0 + op_encoding(op2).len()),
{
    proof {
        assert forall|op2: Operation|
            #[trigger] prefix_at(bytes@, pos0 as int, op_encoding(op2)) implies op_encoding(
            op2,
        )[0] == bytes@[pos0 as int] by {
            assert(bytes@.subrange(pos0 as int, pos0 + op_encoding(op2).len() as int)[0]
                == op_encoding(op2)[0]);
        }
    }
    proof {
        assert forall|op2: Operation|
            #[trigger] prefix_at(bytes@, pos0 as int, op_encoding(op2)) implies (op2 matches
        Operation::LoadNode(_) && op_encoding(op2).len() == 9 && exists|v: u64| v <= usize::MAX && #[trigger] prefix_at(bytes@, pos as int, u64_bytes(v))) by {
            if let Operation::LoadNode(y) = op2 {
                assert(op_encoding(op2) == seq![3u8] + u64_bytes(y as u64));
                lemma_prefix_split(bytes@, pos0 as int, seq![3u8], u64_bytes(y as u64));
                        assert(prefix_at(bytes@, pos as int, u64_bytes(y as u64)));
            }
        }
    }
    let (x, p1) = read_usize(bytes, pos)?;
    proof {
        assert forall|op2: Operation|
            #[trigger] prefix_at(bytes@, pos0 as int, op_encoding(op2)) implies (
        crate::operation::op_eq(Operation::LoadNode(x), op2) && pos0 + op_encoding(op2).len() == p1 as int) by {
            if let Operation::LoadNode(y) = op2 {
                assert(op_encoding(op2) == seq![3u8] + u64_bytes(y as u64));
                lemma_prefix_split(bytes@, pos0 as int, seq![3u8], u64_bytes(y as u64));
                lemma_u64_bytes_inj(y as u64, x as u64);
            } else {
                assert(false);
            }
        }
        assert(bytes@.subrange(pos0 as int, p1 as int) =~= seq![3u8] + u64_bytes(x as u64)) by {
            assert forall|k: int| 0 <= k < 9 implies (#[trigger] bytes@.subrange(
                pos0 as int,
                p1 as int,
            )[k]) == (seq![3u8] + u64_bytes(x as u64))[k] by {
                if k >= 1 {
                    assert(bytes@.subrange(pos as int, p1 as int)[k - 1] == u64_bytes(x as u64)[k - 1]);
                }
            }
        }
    }
    Some((Operation::LoadNode(x), p1))
}

/// Read the payload of a `LoadConnection`.
#[verifier::rlimit(100)]
#[verifier::spinoff_prover]
fn parse_load_connection(bytes: &Vec<u8>, pos0: usize, pos: usize) -> (r: Option<(Operation, usize)>)
    requires
        pos == pos0 + 1,
        pos0 < bytes@.len(),
        bytes@[pos0 as int] == 4,
    ensures
        r matches Some((op, p)) ==> pos0 < p <= bytes@.len() && bytes@.subrange(
            pos0 as int,
            p as int,
        ) == op_encoding(op),
        forall|op2: Operation|
            #[trigger] prefix_at(bytes@, pos0 as int, op_encoding(op2)) ==> (r matches Some(
                (op, p),
            ) && crate::operation::op_eq(op, op2) && p == pos0 + op_encoding(op2).len()),
{
    proof {
        assert forall|op2: Operation|
            #[trigger] prefix_at(bytes@, pos0 as int, op_encoding(op2)) implies op_encoding(
            op2,
        )[0] == bytes@[pos0 as int] by {
            assert(bytes@.subrange(pos0 as int, pos0 + op_encoding(op2).len() as int)[0]
                == op_encoding(op2)[0]);
        }
    }
    proof {
        assert forall|op2: Operation|
            #[trigger] prefix_at(bytes@, pos0 as int, op_encoding(op2)) implies (op2 matches
        Operation::LoadConnection(_) && op_encoding(op2).len() == 9 && exists|v: u64| v <= usize::MAX && #[trigger] prefix_at(bytes@, pos as int, u64_bytes(v))) by {
            if let Operation::LoadConnection(y) = op2 {
                assert(op_encoding(op2) == seq![4u8] + u64_bytes(y as u64));
                lemma_prefix_split(bytes@, pos0 as int, seq![4u8], u64_bytes(y as u64));
                        assert(prefix_at(bytes@, pos as int, u64_bytes(y as u64)));
            }
        }
    }
    let (x, p1) = read_usize(bytes, pos)?;
    proof {
        assert forall|op2: Operation|
            #[trigger] prefix_at(bytes@, pos0 as int, op_encoding(op2)) implies (
        crate::operation::op_eq(Operation::LoadConnection(x), op2) && pos0 + op_encoding(op2).len() == p1 as int) by {
            if let Operation::LoadConnection(y) = op2 {
                assert(op_encoding(op2) == seq![4u8] + u64_bytes(y as u64));
                lemma_prefix_split(bytes@, pos0 as int, seq![4u8], u64_bytes(y as u64));
                lemma_u64_bytes_inj(y as u64, x as u64);
            } else {
                assert(false);
            }
        }
        assert(bytes@.subrange(pos0 as int, p1 as int) =~= seq![4u8] + u64_bytes(x as u64)) by {
            assert forall|k: int| 0 <= k < 9 implies (#[trigger] bytes@.subrange(
                pos0 as int,
                p1 as int,
            )[k]) == (seq![4u8] + u64_bytes(x as u64))[k] by {
                if k >= 1 {
                    assert(bytes@.subrange(pos as int, p1 as int)[k - 1] == u64_bytes(x as u64)[k - 1]);
                }
            }
        }
    }
    Some((Operation::LoadConnection(x), p1))
}

/// Read the payload of a `LoadSize`.
#[verifier::rlimit(100)]
#[verifier::spinoff_prover]
fn parse_load_size(bytes: &Vec<u8>, pos0: usize, pos: usize) -> (r: Option<(Operation, usize)>)
    requires
        pos == pos0 + 1,
        pos0 < bytes@.len(),
        bytes@[pos0 as int] == 9,
    ensures
        r matches Some((op, p)) ==> pos0 < p <= bytes@.len() && bytes@.subrange(
            pos0 as int,
            p as int,
        ) == op_encoding(op),
        forall|op2: Operation|
            #[trigger] prefix_at(bytes@, pos0 as int, op_encoding(op2)) ==> (r matches Some(
                (op, p),
            ) && crate::operation::op_eq(op, op2) && p == pos0 + op_encoding(op2).len()),
{
    proof {
        assert forall|op2: Operation|
            #[trigger] prefix_at(bytes@, pos0 as int, op_encoding(op2)) implies op_encoding(
            op2,
        )[0] == bytes@[pos0 as int] by {
            assert(bytes@.subrange(pos0 as int, pos0 + op_encoding(op2).len() as int)[0]
                == op_encoding(op2)[0]);
        }
    }
    proof {
        assert forall|op2: Operation|
            #[trigger] prefix_at(bytes@, pos0 as int, op_encoding(op2)) implies (op2 matches
        Operation::LoadSize(_) && op_encoding(op2).len() == 9 && exists|v: u64| v <= usize::MAX && #[trigger] prefix_at(bytes@, pos as int, u64_bytes(v))) by {
            if let Operation::LoadSize(y) = op2 {
                assert(op_encoding(op2) == seq![9u8] + u64_bytes(y as u64));
                lemma_prefix_split(bytes@, pos0 as int, seq![9u8], u64_bytes(y as u64));
                        assert(prefix_at(bytes@, pos as int, u64_bytes(y as u64)));
            }
        }
    }
    let (x, p1) = read_usize(bytes, pos)?;
    proof {
        assert forall|op2: Operation|
            #[trigger] prefix_at(bytes@, pos0 as int, op_encoding(op2)) implies (
        crate::operation::op_eq(Operation::LoadSize(x), op2) && pos0 + op_encoding(op2).len() == p1 as int) by {
            if let Operation::LoadSize(y) = op2 {
                assert(op_encoding(op2) == seq![9u8] + u64_bytes(y as u64));
                lemma_prefix_split(bytes@, pos0 as int, seq![9u8], u64_bytes(y as u64));
                lemma_u64_bytes_inj(y as u64, x as u64);
            } else {
                assert(false);
            }
        }
        assert(bytes@.subrange(pos0 as int, p1 as int) =~= seq![9u8] + u64_bytes(x as u64)) by {
            assert forall|k: int| 0 <= k < 9 implies (#[trigger] bytes@.subrange(
                pos0 as int,
                p1 as int,
            )[k]) == (seq![9u8] + u64_bytes(x as u64))[k] by {
                if k >= 1 {
                    assert(bytes@.subrange(pos as int, p1 as int)[k - 1] == u64_bytes(x as u64)[k - 1]);
                }
            }
        }
    }
    Some((Operation::LoadSize(x), p1))
}

/// Read the payload of a `LoadDuration`.
#[verifier::rlimit(100)]
#[verifier::spinoff_prover]
fn parse_load_duration(bytes: &Vec<u8>, pos0: usize, pos: usize) -> (r: Option<(Operation, usize)>)
    requires
        pos == pos0 + 1,
        pos0 < bytes@.len(),
        bytes@[pos0 as int] == 6,
    ensures
        r matches Some((op, p)) ==> pos0 < p <= bytes@.len() && bytes@.subrange(
            pos0 as int,
            p as int,
        ) == op_encoding(op),
        forall|op2: Operation|
            #[trigger] prefix_at(bytes@, pos0 as int, op_encoding(op2)) ==> (r matches Some(
                (op, p),
            ) && crate::operation::op_eq(op, op2) && p == pos0 + op_encoding(op2).len()),
{
    proof {
        assert forall|op2: Operation|
            #[trigger] prefix_at(bytes@, pos0 as int, op_encoding(op2)) implies op_encoding(
            op2,
        )[0] == bytes@[pos0 as int] by {
            assert(bytes@.subrange(pos0 as int, pos0 + op_encoding(op2).len() as int)[0]
                == op_encoding(op2)[0]);
        }
    }
    proof {
        assert forall|op2: Operation|
            #[trigger] prefix_at(bytes@, pos0 as int, op_encoding(op2)) implies (op2 matches
        Operation::LoadDuration(_) && op_encoding(op2).len() == 9) by {
            if let Operation::LoadDuration(y) = op2 {
                assert(op_encoding(op2) == seq![6u8] + u64_bytes(y));
                lemma_prefix_split(bytes@, pos0 as int, seq![6u8], u64_bytes(y));
            }
        }
    }
    let (x, p1) = read_u64(bytes, pos)?;
    proof {
        assert forall|op2: Operation|
            #[trigger] prefix_at(bytes@, pos0 as int, op_encoding(op2)) implies (
        crate::operation::op_eq(Operation::LoadDuration(x), op2) && pos0 + op_encoding(op2).len() == p1 as int) by {
            if let Operation::LoadDuration(y) = op2 {
                assert(op_encoding(op2) == seq![6u8] + u64_bytes(y));
                lemma_prefix_split(bytes@, pos0 as int, seq![6u8], u64_bytes(y));
                lemma_u64_bytes_inj(y, x);
            } else {
                assert(false);
            }
        }
        assert(bytes@.subrange(pos0 as int, p1 as int) =~= seq![6u8] + u64_bytes(x)) by {
            assert forall|k: int| 0 <= k < 9 implies (#[trigger] bytes@.subrange(
                pos0 as int,
                p1 as int,
            )[k]) == (seq![6u8] + u64_bytes(x))[k] by {
                if k >= 1 {
                    assert(bytes@.subrange(pos as int, p1 as int)[k - 1] == u64_bytes(x)[k - 1]);
                }
            }
        }
    }
    Some((Operation::LoadDuration(x), p1))
}

/// Read the payload of a `LoadTime`.
#[verifier::rlimit(100)]
#[verifier::spinoff_prover]
fn parse_load_time(bytes: &Vec<u8>, pos0: usize, pos: usize) -> (r: Option<(Operation, usize)>)
    requires
        pos == pos0 + 1,
        pos0 < bytes@.len(),
        bytes@[pos0 as int] == 7,
    ensures
        r matches Some((op, p)) ==> pos0 < p <= bytes@.len() && bytes@.subrange(
            pos0 as int,
            p as int,
        ) == op_encoding(op),
        forall|op2: Operation|
            #[trigger] prefix_at(bytes@, pos0 as int, op_encoding(op2)) ==> (r matches Some(
                (op, p),
            ) && crate::operation::op_eq(op, op2) && p == pos0 + op_encoding(op2).len()),
{
    proof {
        assert forall|op2: Operation|
            #[trigger] prefix_at(bytes@, pos0 as int, op_encoding(op2)) implies op_encoding(
            op2,
        )[0] == bytes@[pos0 as int] by {
            assert(bytes@.subrange(pos0 as int, pos0 + op_encoding(op2).len() as int)[0]
                == op_encoding(op2)[0]);
        }
    }
    proof {
        assert forall|op2: Operation|
            #[trigger] prefix_at(bytes@, pos0 as int, op_encoding(op2)) implies (op2 matches
        Operation::LoadTime(_) && op_encoding(op2).len() == 9) by {
            if let Operation::LoadTime(y) = op2 {
                assert(op_encoding(op2) == seq![7u8] + u64_bytes(y));
                lemma_prefix_split(bytes@, pos0 as int, seq![7u8], u64_bytes(y));
            }
        }
    }
    let (x, p1) = read_u64(bytes, pos)?;
    proof {
        assert forall|op2: Operation|
            #[trigger] prefix_at(bytes@, pos0 as int, op_encoding(op2)) implies (
        crate::operation::op_eq(Operation::LoadTime(x), op2) && pos0 + op_encoding(op2).len() == p1 as int) by {
            if let Operation::LoadTime(y) = op2 {
                assert(op_encoding(op2) == seq![7u8] + u64_bytes(y));
                lemma_prefix_split(bytes@, pos0 as int, seq![7u8], u64_bytes(y));
                lemma_u64_bytes_inj(y, x);
            } else {
                assert(false);
            }
        }
        assert(bytes@.subrange(pos0 as int, p1 as int) =~= seq![7u8] + u64_bytes(x)) by {
            assert forall|k: int| 0 <= k < 9 implies (#[trigger] bytes@.subrange(
                pos0 as int,
                p1 as int,
            )[k]) == (seq![7u8] + u64_bytes(x))[k] by {
                if k >= 1 {
                    assert(bytes@.subrange(pos as int, p1 as int)[k - 1] == u64_bytes(x)[k - 1]);
                }
            }
        }
    }
    Some((Operation::LoadTime(x), p1))
}

/// Read the payload of a `LoadAmount`.
#[verifier::rlimit(100)]
#[verifier::spinoff_prover]
fn parse_load_amount(bytes: &Vec<u8>, pos0: usize, pos: usize) -> (r: Option<(Operation, usize)>)
    requires
        pos == pos0 + 1,
        pos0 < bytes@.len(),
        bytes@[pos0 as int] == 8,
    ensures
        r matches Some((op, p)) ==> pos0 < p <= bytes@.len() && bytes@.subrange(
            pos0 as int,
            p as int,
        ) == op_encoding(op),
        forall|op2: Operation|
            #[trigger] prefix_at(bytes@, pos0 as int, op_encoding(op2)) ==> (r matches Some(
                (op, p),
            ) && crate::operation::op_eq(op, op2) && p == pos0 + op_encoding(op2).len()),
{
    proof {
        assert forall|op2: Operation|
            #[trigger] prefix_at(bytes@, pos0 as int, op_encoding(op2)) implies op_encoding(
            op2,
        )[0] == bytes@[pos0 as int] by {
            assert(bytes@.subrange(pos0 as int, pos0 + op_encoding(op2).len() as int)[0]
                == op_encoding(op2)[0]);
        }
    }
    proof {
        assert forall|op2: Operation|
            #[trigger] prefix_at(bytes@, pos0 as int, op_encoding(op2)) implies (op2 matches
        Operation::LoadAmount(_) && op_encoding(op2).len() == 9) by {
            if let Operation::LoadAmount(y) = op2 {
                assert(op_encoding(op2) == seq![8u8] + u64_bytes(y));
                lemma_prefix_split(bytes@, pos0 as int, seq![8u8], u64_bytes(y));
            }
        }
    }
    let (x, p1) = read_u64(bytes, pos)?;
    proof {
        assert forall|op2: Operation|
            #[trigger] prefix_at(bytes@, pos0 as int, op_encoding(op2)) implies (
        crate::operation::op_eq(Operation::LoadAmount(x), op2) && pos0 + op_encoding(op2).len() == p1 as int) by {
            if let Operation::LoadAmount(y) = op2 {
                assert(op_encoding(op2) == seq![8u8] + u64_bytes(y));
                lemma_prefix_split(bytes@, pos0 as int, seq![8u8], u64_bytes(y));
                lemma_u64_bytes_inj(y, x);
            } else {
                assert(false);
            }
        }
        assert(bytes@.subrange(pos0 as int, p1 as int) =~= seq![8u8] + u64_bytes(x)) by {
            assert forall|k: int| 0 <= k < 9 implies (#[trigger] bytes@.subrange(
                pos0 as int,
                p1 as int,
            )[k]) == (seq![8u8] + u64_bytes(x))[k] by {
                if k >= 1 {
                    assert(bytes@.subrange(pos as int, p1 as int)[k - 1] == u64_bytes(x)[k - 1]);
                }
            }
        }
    }
    Some((Operation::LoadAmount(x), p1))
}

/// Read the payload of a `LoadNonce`.
#[verifier::rlimit(100)]
#[verifier::spinoff_prover]
fn parse_load_nonce(bytes: &Vec<u8>, pos0: usize, pos: usize) -> (r: Option<(Operation, usize)>)
    requires
        pos == pos0 + 1,
        pos0 < bytes@.len(),
        bytes@[pos0 as int] == 18,
    ensures
        r matches Some((op, p)) ==> pos0 < p <= bytes@.len() && bytes@.subrange(
            pos0 as int,
            p as int,
        ) == op_encoding(op),
        forall|op2: Operation|
            #[trigger] prefix_at(bytes@, pos0 as int, op_encoding(op2)) ==> (r matches Some(
                (op, p),
            ) && crate::operation::op_eq(op, op2) && p == pos0 + op_encoding(op2).len()),
{
    proof {
        assert forall|op2: Operation|
            #[trigger] prefix_at(bytes@, pos0 as int, op_encoding(op2)) implies op_encoding(
            op2,
        )[0] == bytes@[pos0 as int] by {
            assert(bytes@.subrange(pos0 as int, pos0 + op_encoding(op2).len() as int)[0]
                == op_encoding(op2)[0]);
        }
    }
    proof {
        assert forall|op2: Operation|
            #[trigger] prefix_at(bytes@, pos0 as int, op_encoding(op2)) implies (op2 matches
        Operation::LoadNonce(_) && op_encoding(op2).len() == 9) by {
            if let Operation::LoadNonce(y) = op2 {
                assert(op_encoding(op2) == seq![18u8] + u64_bytes(y));
                lemma_prefix_split(bytes@, pos0 as int, seq![18u8], u64_bytes(y));
            }
        }
    }
    let (x, p1) = read_u64(bytes, pos)?;
    proof {
        assert forall|op2: Operation|
            #[trigger] prefix_at(bytes@, pos0 as int, op_encoding(op2)) implies (
        crate::operation::op_eq(Operation::LoadNonce(x), op2) && pos0 + op_encoding(op2).len() == p1 as int) by {
            if let Operation::LoadNonce(y) = op2 {
                assert(op_encoding(op2) == seq![18u8] + u64_bytes(y));
                lemma_prefix_split(bytes@, pos0 as int, seq![18u8], u64_bytes(y));
                lemma_u64_bytes_inj(y, x);
            } else {
                assert(false);
            }
        }
        assert(bytes@.subrange(pos0 as int, p1 as int) =~= seq![18u8] + u64_bytes(x)) by {
            assert forall|k: int| 0 <= k < 9 implies (#[trigger] bytes@.subrange(
                pos0 as int,
                p1 as int,
            )[k]) == (seq![18u8] + u64_bytes(x))[k] by {
                if k >= 1 {
                    assert(bytes@.subrange(pos as int, p1 as int)[k - 1] == u64_bytes(x)[k - 1]);
                }
            }
        }
    }
    Some((Operation::LoadNonce(x), p1))
}

/// Read the payload of a `LoadTxVersion`.
#[verifier::rlimit(100)]
#[verifier::spinoff_prover]
fn parse_load_tx_version(bytes: &Vec<u8>, pos0: usize, pos: usize) -> (r: Option<(Operation, usize)>)
    requires
        pos == pos0 + 1,
        pos0 < bytes@.len(),
        bytes@[pos0 as int] == 10,
    ensures
        r matches Some((op, p)) ==> pos0 < p <= bytes@.len() && bytes@.subrange(
            pos0 as int,
            p as int,
        ) == op_encoding(op),
        forall|op2: Operation|
            #[trigger] prefix_at(bytes@, pos0 as int, op_encoding(op2)) ==> (r matches Some(
                (op, p),
            ) && crate::operation::op_eq(op, op2) && p == pos0 + op_encoding(op2).len()),
{
    proof {
        assert forall|op2: Operation|
            #[trigger] prefix_at(bytes@, pos0 as int, op_encoding(op2)) implies op_encoding(
            op2,
        )[0] == bytes@[pos0 as int] by {
            assert(bytes@.subrange(pos0 as int, pos0 + op_encoding(op2).len() as int)[0]
                == op_encoding(op2)[0]);
        }
    }
    proof {
        assert forall|op2: Operation|
            #[trigger] prefix_at(bytes@, pos0 as int, op_encoding(op2)) implies (op2 matches
        Operation::LoadTxVersion(_) && op_encoding(op2).len() == 5) by {
            if let Operation::LoadTxVersion(y) = op2 {
                assert(op_encoding(op2) == seq![10u8] + u32_bytes(y));
                lemma_prefix_split(bytes@, pos0 as int, seq![10u8], u32_bytes(y));
            }
        }
    }
    let (x, p1) = read_u32(bytes, pos)?;
    proof {
        assert forall|op2: Operation|
            #[trigger] prefix_at(bytes@, pos0 as int, op_encoding(op2)) implies (
        crate::operation::op_eq(Operation::LoadTxVersion(x), op2) && pos0 + op_encoding(op2).len() == p1 as int) by {
            if let Operation::LoadTxVersion(y) = op2 {
                assert(op_encoding(op2) == seq![10u8] + u32_bytes(y));
                lemma_prefix_split(bytes@, pos0 as int, seq![10u8], u32_bytes(y));
                lemma_u32_bytes_inj(y, x);
            } else {
                assert(false);
            }
        }
        assert(bytes@.subrange(pos0 as int, p1 as int) =~= seq![10u8] + u32_bytes(x)) by {
            assert forall|k: int| 0 <= k < 5 implies (#[trigger] bytes@.subrange(
                pos0 as int,
                p1 as int,
            )[k]) == (seq![10u8] + u32_bytes(x))[k] by {
                if k >= 1 {
                    assert(bytes@.subrange(pos as int, p1 as int)[k - 1] == u32_bytes(x)[k - 1]);
                }
            }
        }
    }
    Some((Operation::LoadTxVersion(x), p1))
}

/// Read the payload of a `LoadLockTime`.
#[verifier::rlimit(100)]
#[verifier::spinoff_prover]
fn parse_load_lock_time(bytes: &Vec<u8>, pos0: usize, pos: usize) -> (r: Option<(Operation, usize)>)
    requires
        pos == pos0 + 1,
        pos0 < bytes@.len(),
        bytes@[pos0 as int] == 12,
    ensures
        r matches Some((op, p)) ==> pos0 < p <= bytes@.len() && bytes@.subrange(
            pos0 as int,
            p as int,
        ) == op_encoding(op),
        forall|op2: Operation|
            #[trigger] prefix_at(bytes@, pos0 as int, op_encoding(op2)) ==> (r matches Some(
                (op, p),
            ) && crate::operation::op_eq(op, op2) && p == pos0 + op_encoding(op2).len()),
{
    proof {
        assert forall|op2: Operation|
            #[trigger] prefix_at(bytes@, pos0 as int, op_encoding(op2)) implies op_encoding(
            op2,
        )[0] == bytes@[pos0 as int] by {
            assert(bytes@.subrange(pos0 as int, pos0 + op_encoding(op2).len() as int)[0]
                == op_encoding(op2)[0]);
        }
    }
    proof {
        assert forall|op2: Operation|
            #[trigger] prefix_at(bytes@, pos0 as int, op_encoding(op2)) implies (op2 matches
        Operation::LoadLockTime(_) && op_encoding(op2).len() == 5) by {
            if let Operation::LoadLockTime(y) = op2 {
                assert(op_encoding(op2) == seq![12u8] + u32_bytes(y));
                lemma_prefix_split(bytes@, pos0 as int, seq![12u8], u32_bytes(y));
            }
        }
    }
    let (x, p1) = read_u32(bytes, pos)?;
    proof {
        assert forall|op2: Operation|
            #[trigger] prefix_at(bytes@, pos0 as int, op_encoding(op2)) implies (
        crate::operation::op_eq(Operation::LoadLockTime(x), op2) && pos0 + op_encoding(op2).len() == p1 as int) by {
            if let Operation::LoadLockTime(y) = op2 {
                assert(op_encoding(op2) == seq![12u8] + u32_bytes(y));
                lemma_prefix_split(bytes@, pos0 as int, seq![12u8], u32_bytes(y));
                lemma_u32_bytes_inj(y, x);
            } else {
                assert(false);
            }
        }
        assert(bytes@.subrange(pos0 as int, p1 as int) =~= seq![12u8] + u32_bytes(x)) by {
            assert forall|k: int| 0 <= k < 5 implies (#[trigger] bytes@.subrange(
                pos0 as int,
                p1 as int,
            )[k]) == (seq![12u8] + u32_bytes(x))[k] by {
                if k >= 1 {
                    assert(bytes@.subrange(pos as int, p1 as int)[k - 1] == u32_bytes(x)[k - 1]);
                }
            }
        }
    }
    Some((Operation::LoadLockTime(x), p1))
}

/// Read the payload of a `LoadSequence`.
#[verifier::rlimit(100)]
#[verifier::spinoff_prover]
fn parse_load_sequence(bytes: &Vec<u8>, pos0: usize, pos: usize) -> (r: Option<(Operation, usize)>)
    requires
        pos == pos0 + 1,
        pos0 < bytes@.len(),
        bytes@[pos0 as int] == 13,
    ensures
        r matches Some((op, p)) ==> pos0 < p <= bytes@.len() && bytes@.subrange(
            pos0 as int,
            p as int,
        ) == op_encoding(op),
        forall|op2: Operation|
            #[trigger] prefix_at(bytes@, pos0 as int, op_encoding(op2)) ==> (r matches Some(
                (op, p),
            ) && crate::operation::op_eq(op, op2) && p == pos0 + op_encoding(op2).len()),
{
    proof {
        assert forall|op2: Operation|
            #[trigger] prefix_at(bytes@, pos0 as int, op_encoding(op2)) implies op_encoding(
            op2,
        )[0] == bytes@[pos0 as int] by {
            assert(bytes@.subrange(pos0 as int, pos0 + op_encoding(op2).len() as int)[0]
                == op_encoding(op2)[0]);
        }
    }
    proof {
        assert forall|op2: Operation|
            #[trigger] prefix_at(bytes@, pos0 as int, op_encoding(op2)) implies (op2 matches
        Operation::LoadSequence(_) && op_encoding(op2).len() == 5) by {
            if let Operation::LoadSequence(y) = op2 {
                assert(op_encoding(op2) == seq![13u8] + u32_bytes(y));
                lemma_prefix_split(bytes@, pos0 as int, seq![13u8], u32_bytes(y));
            }
        }
    }
    let (x, p1) = read_u32(bytes, pos)?;
    proof {
        assert forall|op2: Operation|
            #[trigger] prefix_at(bytes@, pos0 as int, op_encoding(op2)) implies (
        crate::operation::op_eq(Operation::LoadSequence(x), op2) && pos0 + op_encoding(op2).len() == p1 as int) by {
            if let Operation::LoadSequence(y) = op2 {
                assert(op_encoding(op2) == seq![13u8] + u32_bytes(y));
                lemma_prefix_split(bytes@, pos0 as int, seq![13u8], u32_bytes(y));
                lemma_u32_bytes_inj(y, x);
            } else {
                assert(false);
            }
        }
        assert(bytes@.subrange(pos0 as int, p1 as int) =~= seq![13u8] + u32_bytes(x)) by {
            assert forall|k: int| 0 <= k < 5 implies (#[trigger] bytes@.subrange(
                pos0 as int,
                p1 as int,
            )[k]) == (seq![13u8] + u32_bytes(x))[k] by {
                if k >= 1 {
                    assert(bytes@.subrange(pos as int, p1 as int)[k - 1] == u32_bytes(x)[k - 1]);
                }
            }
        }
    }
    Some((Operation::LoadSequence(x), p1))
}

/// Read the payload of a `LoadBlockHeight`.
#[verifier::rlimit(100)]
#[verifier::spinoff_prover]
fn parse_load_block_height(bytes: &Vec<u8>, pos0: usize, pos: usize) -> (r: Option<(Operation, usize)>)
    requires
        pos == pos0 + 1,
        pos0 < bytes@.len(),
        bytes@[pos0 as int] == 14,
    ensures
        r matches Some((op, p)) ==> pos0 < p <= bytes@.len() && bytes@.subrange(
            pos0 as int,
            p as int,
        ) == op_encoding(op),
        forall|op2: Operation|
            #[trigger] prefix_at(bytes@, pos0 as int, op_encoding(op2)) ==> (r matches Some(
                (op, p),
            ) && crate::operation::op_eq(op, op2) && p == pos0 + op_encoding(op2).len()),
{
    proof {
        assert forall|op2: Operation|
            #[trigger] prefix_at(bytes@, pos0 as int, op_encoding(op2)) implies op_encoding(
            op2,
        )[0] == bytes@[pos0 as int] by {
            assert(bytes@.subrange(pos0 as int, pos0 + op_encoding(op2).len() as int)[0]
                == op_encoding(op2)[0]);
        }
    }
    proof {
        assert forall|op2: Operation|
            #[trigger] prefix_at(bytes@, pos0 as int, op_encoding(op2)) implies (op2 matches
        Operation::LoadBlockHeight(_) && op_encoding(op2).len() == 5) by {
            if let Operation::LoadBlockHeight(y) = op2 {
                assert(op_encoding(op2) == seq![14u8] + u32_bytes(y));
                lemma_prefix_split(bytes@, pos0 as int, seq![14u8], u32_bytes(y));
            }
        }
    }
    let (x, p1) = read_u32(bytes, pos)?;
    proof {
        assert forall|op2: Operation|
            #[trigger] prefix_at(bytes@, pos0 as int, op_encoding(op2)) implies (
        crate::operation::op_eq(Operation::LoadBlockHeight(x), op2) && pos0 + op_encoding(op2).len() == p1 as int) by {
            if let Operation::LoadBlockHeight(y) = op2 {
                assert(op_encoding(op2) == seq![14u8] + u32_bytes(y));
                lemma_prefix_split(bytes@, pos0 as int, seq![14u8], u32_bytes(y));
                lemma_u32_bytes_inj(y, x);
            } else {
                assert(false);
            }
        }
        assert(bytes@.subrange(pos0 as int, p1 as int) =~= seq![14u8] + u32_bytes(x)) by {
            assert forall|k: int| 0 <= k < 5 implies (#[trigger] bytes@.subrange(
                pos0 as int,
                p1 as int,
            )[k]) == (seq![14u8] + u32_bytes(x))[k] by {
                if k >= 1 {
                    assert(bytes@.subrange(pos as int, p1 as int)[k - 1] == u32_bytes(x)[k - 1]);
                }
            }
        }
    }
    Some((Operation::LoadBlockHeight(x), p1))
}

/// Read the payload of a `LoadBlockVersion`.
#[verifier::rlimit(100)]
#[verifier::spinoff_prover]
fn parse_load_block_version(bytes: &Vec<u8>, pos0: usize, pos: usize) -> (r: Option<(Operation, usize)>)
    requires
        pos == pos0 + 1,
        pos0 < bytes@.len(),
        bytes@[pos0 as int] == 11,
    ensures
        r matches Some((op, p)) ==> pos0 < p <= bytes@.len() && bytes@.subrange(
            pos0 as int,
            p as int,
        ) == op_encoding(op),
        forall|op2: Operation|
            #[trigger] prefix_at(bytes@, pos0 as int, op_encoding(op2)) ==> (r matches Some(
                (op, p),
            ) && crate::operation::op_eq(op, op2) && p == pos0 + op_encoding(op2).len()),
{
    proof {
        assert forall|op2: Operation|
            #[trigger] prefix_at(bytes@, pos0 as int, op_encoding(op2)) implies op_encoding(
            op2,
        )[0] == bytes@[pos0 as int] by {
            assert(bytes@.subrange(pos0 as int, pos0 + op_encoding(op2).len() as int)[0]
                == op_encoding(op2)[0]);
        }
    }
    proof {
        assert forall|op2: Operation|
            #[trigger] prefix_at(bytes@, pos0 as int, op_encoding(op2)) implies (op2 matches
        Operation::LoadBlockVersion(_) && op_encoding(op2).len() == 5) by {
            if let Operation::LoadBlockVersion(y) = op2 {
                assert(op_encoding(op2) == seq![11u8] + u32_bytes(y as u32));
                lemma_prefix_split(bytes@, pos0 as int, seq![11u8], u32_bytes(y as u32));
            }
        }
    }
    let (x, p1) = read_u32(bytes, pos)?;
    proof {
        assert forall|op2: Operation|
            #[trigger] prefix_at(bytes@, pos0 as int, op_encoding(op2)) implies (
        crate::operation::op_eq(Operation::LoadBlockVersion((x as i32)), op2) && pos0 + op_encoding(op2).len() == p1 as int) by {
            if let Operation::LoadBlockVersion(y) = op2 {
                assert(op_encoding(op2) == seq![11u8] + u32_bytes(y as u32));
                lemma_prefix_split(bytes@, pos0 as int, seq![11u8], u32_bytes(y as u32));
                lemma_u32_bytes_inj(y as u32, x);
                        assert((y as u32) as i32 == y) by (bit_vector);
            } else {
                assert(false);
            }
        }
        assert(((x as i32) as u32) == x) by (bit_vector);
        assert(op_encoding(Operation::LoadBlockVersion((x as i32))) == seq![11u8] + u32_bytes(x));
        assert(bytes@.subrange(pos0 as int, p1 as int) =~= seq![11u8] + u32_bytes(x)) by {
            assert forall|k: int| 0 <= k < 5 implies (#[trigger] bytes@.subrange(
                pos0 as int,
                p1 as int,
            )[k]) == (seq![11u8] + u32_bytes(x))[k] by {
                if k >= 1 {
                    assert(bytes@.subrange(pos as int, p1 as int)[k - 1] == u32_bytes(x)[k - 1]);
                }
            }
        }
    }
    Some((Operation::LoadBlockVersion(#[verifier::truncate] (x as i32)), p1))
}

/// Read the payload of a `LoadCompactFilterType`.
#[verifier::rlimit(100)]
#[verifier::spinoff_prover]
fn parse_load_compact_filter_type(bytes: &Vec<u8>, pos0: usize, pos: usize) -> (r: Option<(Operation, usize)>)
    requires
        pos == pos0 + 1,
        pos0 < bytes@.len(),
        bytes@[pos0 as int] == 15,
    ensures
        r matches Some((op, p)) ==> pos0 < p <= bytes@.len() && bytes@.subrange(
            pos0 as int,
            p as int,
        ) == op_encoding(op),
        forall|op2: Operation|
            #[trigger] prefix_at(bytes@, pos0 as int, op_encoding(op2)) ==> (r matches Some(
                (op, p),
            ) && crate::operation::op_eq(op, op2) && p == pos0 + op_encoding(op2).len()),
{
    proof {
        assert forall|op2: Operation|
            #[trigger] prefix_at(bytes@, pos0 as int, op_encoding(op2)) implies op_encoding(
            op2,
        )[0] == bytes@[pos0 as int] by {
            assert(bytes@.subrange(pos0 as int, pos0 + op_encoding(op2).len() as int)[0]
                == op_encoding(op2)[0]);
        }
    }
    proof {
        assert forall|op2: Operation|
            #[trigger] prefix_at(bytes@, pos0 as int, op_encoding(op2)) implies (op2 matches
        Operation::LoadCompactFilterType(_) && op_encoding(op2).len() == 2) by {}
    }
    let (x, p1) = read_u8(bytes, pos)?;
    proof {
        assert forall|op2: Operation|
            #[trigger] prefix_at(bytes@, pos0 as int, op_encoding(op2)) implies (
        crate::operation::op_eq(Operation::LoadCompactFilterType(x), op2) && pos0 + op_encoding(op2).len()
            == p1 as int) by {
            if let Operation::LoadCompactFilterType(y) = op2 {
                assert(bytes@.subrange(pos0 as int, pos0 as int + 2)[1] == op_encoding(op2)[1]);
                assert(y == bytes@[pos as int]);
            } else {
                assert(false);
            }
        }
        assert(bytes@.subrange(pos0 as int, p1 as int) =~= seq![15u8, x]);
    }
    Some((Operation::LoadCompactFilterType(x), p1))
}

/// Read the payload of a `LoadSigHashFlags`.
#[verifier::rlimit(100)]
#[verifier::spinoff_prover]
fn parse_load_sig_hash_flags(bytes: &Vec<u8>, pos0: usize, pos: usize) -> (r: Option<(Operation, usize)>)
    requires
        pos == pos0 + 1,
        pos0 < bytes@.len(),
        bytes@[pos0 as int] == 17,
    ensures
        r matches Some((op, p)) ==> pos0 < p <= bytes@.len() && bytes@.subrange(
            pos0 as int,
            p as int,
        ) == op_encoding(op),
        forall|op2: Operation|
            #[trigger] prefix_at(bytes@, pos0 as int, op_encoding(op2)) ==> (r matches Some(
                (op, p),
            ) && crate::operation::op_eq(op, op2) && p == pos0 + op_encoding(op2).len()),
{
    proof {
        assert forall|op2: Operation|
            #[trigger] prefix_at(bytes@, pos0 as int, op_encoding(op2)) implies op_encoding(
            op2,
        )[0] == bytes@[pos0 as int] by {
            assert(bytes@.subrange(pos0 as int, pos0 + op_encoding(op2).len() as int)[0]
                == op_encoding(op2)[0]);
        }
    }
    proof {
        assert forall|op2: Operation|
            #[trigger] prefix_at(bytes@, pos0 as int, op_encoding(op2)) implies (op2 matches
        Operation::LoadSigHashFlags(_) && op_encoding(op2).len() == 2) by {}
    }
    let (x, p1) = read_u8(bytes, pos)?;
    proof {
        assert forall|op2: Operation|
            #[trigger] prefix_at(bytes@, pos0 as int, op_encoding(op2)) implies (
        crate::operation::op_eq(Operation::LoadSigHashFlags(x), op2) && pos0 + op_encoding(op2).len()
            == p1 as int) by {
            if let Operation::LoadSigHashFlags(y) = op2 {
                assert(bytes@.subrange(pos0 as int, pos0 as int + 2)[1] == op_encoding(op2)[1]);
                assert(y == bytes@[pos as int]);
            } else {
                assert(false);
            }
        }
        assert(bytes@.subrange(pos0 as int, p1 as int) =~= seq![17u8, x]);
    }
    Some((Operation::LoadSigHashFlags(x), p1))
}

/// Read one operation: tag byte, then its payload. Unknown tags are
/// malformed; a position holding any encoded operation is read back as
/// that operation.
#[verifier::rlimit(100)]
#[verifier::spinoff_prover]
fn read_op(bytes: &Vec<u8>, pos0: usize) -> (r: Option<(Operation, usize)>)
    ensures
        r matches Some((op, p)) ==> pos0 < p <= bytes@.len() && bytes@.subrange(
            pos0 as int,
            p as int,
        ) == op_encoding(op),
        forall|op2: Operation|
            #[trigger] prefix_at(bytes@, pos0 as int, op_encoding(op2)) ==> (r matches Some(
                (op, p),
            ) && crate::operation::op_eq(op, op2) && p == pos0 + op_encoding(op2).len()),
{
    let (tag, pos) = read_u8(bytes, pos0)?;
    proof {
        assert forall|op2: Operation|
            #[trigger] prefix_at(bytes@, pos0 as int, op_encoding(op2)) implies op_encoding(
            op2,
        )[0] == tag by {
            assert(bytes@.subrange(pos0 as int, pos0 + op_encoding(op2).len() as int)[0]
                == op_encoding(op2)[0]);
        }
    }
    match tag {
        0u8 => parse_nop(bytes, pos0, pos),
        1u8 => parse_load_bytes(bytes, pos0, pos),
        2u8 => parse_load_msg_type(bytes, pos0, pos),
        3u8 => parse_load_node(bytes, pos0, pos),
        4u8 => parse_load_connection(bytes, pos0, pos),
        5u8 => parse_load_connection_type(bytes, pos0, pos),
        6u8 => parse_load_duration(bytes, pos0, pos),
        7u8 => parse_load_time(bytes, pos0, pos),
        8u8 => parse_load_amount(bytes, pos0, pos),
        9u8 => parse_load_size(bytes, pos0, pos),
        10u8 => parse_load_tx_version(bytes, pos0, pos),
        11u8 => parse_load_block_version(bytes, pos0, pos),
        12u8 => parse_load_lock_time(bytes, pos0, pos),
        13u8 => parse_load_sequence(bytes, pos0, pos),
        14u8 => parse_load_block_height(bytes, pos0, pos),
        15u8 => parse_load_compact_filter_type(bytes, pos0, pos),
        16u8 => parse_load_private_key(bytes, pos0, pos),
        17u8 => parse_load_sig_hash_flags(bytes, pos0, pos),
        18u8 => parse_load_nonce(bytes, pos0, pos),
        19u8 => read_txo(bytes, pos0, pos),
        20u8 => read_header_op(bytes, pos0, pos),
        _ => {
            match read_unit_op(tag) {
                Some(op) => {
                    proof {
                        assert(bytes@.subrange(pos0 as int, pos as int) =~= seq![tag]);
                        assert forall|op2: Operation|
                            #[trigger] prefix_at(bytes@, pos0 as int, op_encoding(op2)) implies (
                        crate::operation::op_eq(op, op2) && pos as int == pos0 + op_encoding(
                            op2,
                        ).len()) by {
                            assert(op2 == op);
                        }
                    }
                    Some((op, pos))
                },
                None => {
                    proof {
                        assert forall|op2: Operation|
                            #[trigger] prefix_at(bytes@, pos0 as int, op_encoding(op2)) implies
                            false by {}
                    }
                    None
                },
            }
        },
    }
}

/// Read the payload of a `LoadTxo`.
#[verifier::rlimit(100)]
#[verifier::spinoff_prover]
fn read_txo(bytes: &Vec<u8>, pos0: usize, pos: usize) -> (r: Option<(Operation, usize)>)
    requires
        pos == pos0 + 1,
        pos0 < bytes@.len(),
        bytes@[pos0 as int] == 19,
    ensures
        r matches Some((op, p)) ==> pos0 < p <= bytes@.len() && bytes@.subrange(
            pos0 as int,
            p as int,
        ) == op_encoding(op),
        forall|op2: Operation|
            #[trigger] prefix_at(bytes@, pos0 as int, op_encoding(op2)) ==> (r matches Some(
                (op, p),
            ) && crate::operation::op_eq(op, op2) && p == pos0 + op_encoding(op2).len()),
{
    // Bind the length once so the buffer's machine-size bound is in scope.
    let _n = bytes.len();
    proof {
        assert forall|op2: Operation|
            #[trigger] prefix_at(bytes@, pos0 as int, op_encoding(op2)) implies (op2 matches
        Operation::LoadTxo { .. } && exists|v: Seq<u8>|
            #[trigger] prefix_at(bytes@, pos as int, bytes_encoding(v))) by {
            lemma_txo_shape(bytes@, pos0 as int, op2);
            assert(prefix_at(bytes@, pos as int, bytes_encoding(txo_h(op2)@)));
        }
    }
    let (h, q1) = read_bytes(bytes, pos)?;
    proof {
        assert(prefix_at(bytes@, pos as int, bytes_encoding(h@)));
        assert forall|op2: Operation|
            #[trigger] prefix_at(bytes@, pos0 as int, op_encoding(op2)) implies (txo_h(op2)@ == h@
            && q1 + 4 <= bytes@.len() && bytes@.subrange(q1 as int, q1 + 4) == u32_bytes(
            txo_i(op2),
        )) by {
            lemma_txo_shape(bytes@, pos0 as int, op2);
            lemma_bytes_prefix_unamb(bytes@, pos as int, h@, txo_h(op2)@);
        }
    }
    let (ii, q2) = read_u32(bytes, q1)?;
    proof {
        assert forall|op2: Operation|
            #[trigger] prefix_at(bytes@, pos0 as int, op_encoding(op2)) implies (txo_i(op2) == ii
            && q2 + 8 <= bytes@.len() && bytes@.subrange(q2 as int, q2 + 8) == u64_bytes(
            txo_v(op2),
        )) by {
            lemma_txo_shape(bytes@, pos0 as int, op2);
            lemma_u32_bytes_inj(txo_i(op2), ii);
        }
    }
    let (vv, q3) = read_u64(bytes, q2)?;
    proof {
        assert forall|op2: Operation|
            #[trigger] prefix_at(bytes@, pos0 as int, op_encoding(op2)) implies (txo_v(op2) == vv
            && exists|v: Seq<u8>|
            #[trigger] prefix_at(bytes@, q3 as int, bytes_encoding(v))) by {
            lemma_txo_shape(bytes@, pos0 as int, op2);
            lemma_u64_bytes_inj(txo_v(op2), vv);
            assert(prefix_at(bytes@, q3 as int, bytes_encoding(txo_pk(op2)@)));
        }
    }
    let (pk, q4) = read_bytes(bytes, q3)?;
    proof {
        assert(prefix_at(bytes@, q3 as int, bytes_encoding(pk@)));
        assert forall|op2: Operation|
            #[trigger] prefix_at(bytes@, pos0 as int, op_encoding(op2)) implies (txo_pk(op2)@
            == pk@ && exists|v: Seq<u8>|
            #[trigger] prefix_at(bytes@, q4 as int, bytes_encoding(v))) by {
            lemma_txo_shape(bytes@, pos0 as int, op2);
            lemma_bytes_prefix_unamb(bytes@, q3 as int, pk@, txo_pk(op2)@);
            assert(prefix_at(bytes@, q4 as int, bytes_encoding(txo_ss(op2)@)));
        }
    }
    let (ss, q5) = read_bytes(bytes, q4)?;
    proof {
        assert(prefix_at(bytes@, q4 as int, bytes_encoding(ss@)));
        assert forall|op2: Operation|
            #[trigger] prefix_at(bytes@, pos0 as int, op_encoding(op2)) implies (txo_ss(op2)@
            == ss@ && prefix_at(bytes@, q5 as int, stacks_encoding(txo_w(op2)@))) by {
            lemma_txo_shape(bytes@, pos0 as int, op2);
            lemma_bytes_prefix_unamb(bytes@, q4 as int, ss@, txo_ss(op2)@);
        }
    }
    let (w, q6) = read_stacks(bytes, q5)?;
    let op = Operation::LoadTxo {
        outpoint_hash: h,
        outpoint_index: ii,
        value: vv,
        script_pubkey: pk,
        spending_script_sig: ss,
        spending_witness: w,
    };
    proof {
        assert forall|op2: Operation|
            #[trigger] prefix_at(bytes@, pos0 as int, op_encoding(op2)) implies (
        crate::operation::op_eq(op, op2) && pos0 + op_encoding(op2).len() == q6 as int) by {
            lemma_txo_shape(bytes@, pos0 as int, op2);
        }
        assert(bytes@.subrange(pos0 as int, q6 as int) =~= op_encoding(op)) by {
            assert(op_encoding(op) == seq![19u8] + bytes_encoding(h@) + u32_bytes(ii) + u64_bytes(
                vv,
            ) + bytes_encoding(pk@) + bytes_encoding(ss@) + stacks_encoding(w@));
            assert forall|k: int| 0 <= k < q6 - pos0 implies (#[trigger] bytes@.subrange(
                pos0 as int,
                q6 as int,
            )[k]) == op_encoding(op)[k] by {
                if 1 <= k < q1 - pos0 {
                    assert(bytes@.subrange(pos as int, q1 as int)[k - 1] == bytes_encoding(h@)[k
                        - 1]);
                } else if q1 - pos0 <= k < q2 - pos0 {
                    assert(bytes@.subrange(q1 as int, q1 + 4)[k - (q1 - pos0)] == u32_bytes(ii)[k
                        - (q1 - pos0)]);
                } else if q2 - pos0 <= k < q3 - pos0 {
                    assert(bytes@.subrange(q2 as int, q2 + 8)[k - (q2 - pos0)] == u64_bytes(vv)[k
                        - (q2 - pos0)]);
                } else if q3 - pos0 <= k < q4 - pos0 {
                    assert(bytes@.subrange(q3 as int, q4 as int)[k - (q3 - pos0)]
                        == bytes_encoding(pk@)[k - (q3 - pos0)]);
                } else if q4 - pos0 <= k < q5 - pos0 {
                    assert(bytes@.subrange(q4 as int, q5 as int)[k - (q4 - pos0)]
                        == bytes_encoding(ss@)[k - (q4 - pos0)]);
                } else if q5 - pos0 <= k {
                    assert(bytes@.subrange(q5 as int, q6 as int)[k - (q5 - pos0)]
                        == stacks_encoding(w@)[k - (q5 - pos0)]);
                }
            }
        }
    }
    Some((op, q6))
}

/// A prefix holding a `LoadTxo` tag pins the operation's variant and the
/// place of each payload component.
proof fn lemma_txo_shape(s: Seq<u8>, pos0: int, op2: Operation)
    requires
        prefix_at(s, pos0, op_encoding(op2)),
        0 <= pos0 < s.len(),
        s[pos0] == 19,
    ensures
        op2 matches Operation::LoadTxo { .. },
        prefix_at(s, pos0 + 1, bytes_encoding(txo_h(op2)@)),
        prefix_at(s, pos0 + 1 + bytes_encoding(txo_h(op2)@).len(), u32_bytes(txo_i(op2))),
        prefix_at(s, pos0 + 1 + bytes_encoding(txo_h(op2)@).len() + 4, u64_bytes(txo_v(op2))),
        prefix_at(
            s,
            pos0 + 1 + bytes_encoding(txo_h(op2)@).len() + 12,
            bytes_encoding(txo_pk(op2)@),
        ),
        prefix_at(
            s,
            pos0 + 1 + bytes_encoding(txo_h(op2)@).len() + 12 + bytes_encoding(txo_pk(op2)@).len(),
            bytes_encoding(txo_ss(op2)@),
        ),
        prefix_at(
            s,
            pos0 + 1 + bytes_encoding(txo_h(op2)@).len() + 12 + bytes_encoding(txo_pk(op2)@).len()
                + bytes_encoding(txo_ss(op2)@).len(),
            stacks_encoding(txo_w(op2)@),
        ),
        op_encoding(op2).len() == 1 + bytes_encoding(txo_h(op2)@).len() + 12 + bytes_encoding(
            txo_pk(op2)@,
        ).len() + bytes_encoding(txo_ss(op2)@).len() + stacks_encoding(txo_w(op2)@).len(),
{
    assert(s.subrange(pos0, pos0 + op_encoding(op2).len())[0] == op_encoding(op2)[0]);
    if let Operation::LoadTxo {
        outpoint_hash: h2,
        outpoint_index: i2,
        value: v2,
        script_pubkey: pk2,
        spending_script_sig: ss2,
        spending_witness: w2,
    } = op2 {
        txo_splits(s, pos0, h2@, i2, v2, pk2@, ss2@, w2@);
    } else {
        assert(false);
    }
}

/// The components of a `LoadTxo`, for stating facts about a witness
/// operation.
spec fn txo_h(op: Operation) -> Vec<u8> {
    match op {
        Operation::LoadTxo { outpoint_hash, .. } => outpoint_hash,
        _ => arbitrary(),
    }
}

spec fn txo_i(op: Operation) -> u32 {
    match op {
        Operation::LoadTxo { outpoint_index, .. } => outpoint_index,
        _ => arbitrary(),
    }
}

spec fn txo_v(op: Operation) -> u64 {
    match op {
        Operation::LoadTxo { value, .. } => value,
        _ => arbitrary(),
    }
}

spec fn txo_pk(op: Operation) -> Vec<u8> {
    match op {
        Operation::LoadTxo { script_pubkey, .. } => script_pubkey,
        _ => arbitrary(),
    }
}

spec fn txo_ss(op: Operation) -> Vec<u8> {
    match op {
        Operation::LoadTxo { spending_script_sig, .. } => spending_script_sig,
        _ => arbitrary(),
    }
}

spec fn txo_w(op: Operation) -> Vec<Vec<u8>> {
    match op {
        Operation::LoadTxo { spending_witness, .. } => spending_witness,
        _ => arbitrary(),
    }
}

/// The `LoadTxo` encoding splits into its seven parts, each in place.
proof fn txo_splits(
    s: Seq<u8>,
    pos0: int,
    h: Seq<u8>,
    i: u32,
    v: u64,
    pk: Seq<u8>,
    ss: Seq<u8>,
    w: Seq<Vec<u8>>,
)
    requires
        prefix_at(
            s,
            pos0,
            seq![19u8] + bytes_encoding(h) + u32_bytes(i) + u64_bytes(v) + bytes_encoding(pk)
                + bytes_encoding(ss) + stacks_encoding(w),
        ),
    ensures
        prefix_at(s, pos0 + 1, bytes_encoding(h)),
        prefix_at(s, pos0 + 1 + bytes_encoding(h).len(), u32_bytes(i)),
        prefix_at(s, pos0 + 1 + bytes_encoding(h).len() + 4, u64_bytes(v)),
        prefix_at(s, pos0 + 1 + bytes_encoding(h).len() + 12, bytes_encoding(pk)),
        prefix_at(
            s,
            pos0 + 1 + bytes_encoding(h).len() + 12 + bytes_encoding(pk).len(),
            bytes_encoding(ss),
        ),
        prefix_at(
            s,
            pos0 + 1 + bytes_encoding(h).len() + 12 + bytes_encoding(pk).len() + bytes_encoding(
                ss,
            ).len(),
            stacks_encoding(w),
        ),
{
    lemma_prefix_split(
        s,
        pos0,
        seq![19u8] + bytes_encoding(h) + u32_bytes(i) + u64_bytes(v) + bytes_encoding(pk)
            + bytes_encoding(ss),
        stacks_encoding(w),
    );
    lemma_prefix_split(
        s,
        pos0,
        seq![19u8] + bytes_encoding(h) + u32_bytes(i) + u64_bytes(v) + bytes_encoding(pk),
        bytes_encoding(ss),
    );
    lemma_prefix_split(
        s,
        pos0,
        seq![19u8] + bytes_encoding(h) + u32_bytes(i) + u64_bytes(v),
        bytes_encoding(pk),
    );
    lemma_prefix_split(s, pos0, seq![19u8] + bytes_encoding(h) + u32_bytes(i), u64_bytes(v));
    lemma_prefix_split(s, pos0, seq![19u8] + bytes_encoding(h), u32_bytes(i));
    lemma_prefix_split(s, pos0, seq![19u8], bytes_encoding(h));
}

/// Read the payload of a `LoadHeader`.
#[verifier::rlimit(100)]
#[verifier::spinoff_prover]
fn read_header_op(bytes: &Vec<u8>, pos0: usize, pos: usize) -> (r: Option<(Operation, usize)>)
    requires
        pos == pos0 + 1,
        pos0 < bytes@.len(),
        bytes@[pos0 as int] == 20,
    ensures
        r matches Some((op, p)) ==> pos0 < p <= bytes@.len() && bytes@.subrange(
            pos0 as int,
            p as int,
        ) == op_encoding(op),
        forall|op2: Operation|
            #[trigger] prefix_at(bytes@, pos0 as int, op_encoding(op2)) ==> (r matches Some(
                (op, p),
            ) && crate::operation::op_eq(op, op2) && p == pos0 + op_encoding(op2).len()),
{
    // Bind the length once so the buffer's machine-size bound is in scope.
    let _n = bytes.len();
    proof {
        assert forall|op2: Operation|
            #[trigger] prefix_at(bytes@, pos0 as int, op_encoding(op2)) implies (op2 matches
        Operation::LoadHeader { .. } && exists|v: Seq<u8>|
            #[trigger] prefix_at(bytes@, pos as int, bytes_encoding(v))) by {
            lemma_header_shape(bytes@, pos0 as int, op2);
            assert(prefix_at(bytes@, pos as int, bytes_encoding(hdr_prev(op2)@)));
        }
    }
    let (prev, q1) = read_bytes(bytes, pos)?;
    proof {
        assert(prefix_at(bytes@, pos as int, bytes_encoding(prev@)));
        assert forall|op2: Operation|
            #[trigger] prefix_at(bytes@, pos0 as int, op_encoding(op2)) implies (hdr_prev(op2)@
            == prev@ && exists|v: Seq<u8>|
            #[trigger] prefix_at(bytes@, q1 as int, bytes_encoding(v))) by {
            lemma_header_shape(bytes@, pos0 as int, op2);
            lemma_bytes_prefix_unamb(bytes@, pos as int, prev@, hdr_prev(op2)@);
            assert(prefix_at(bytes@, q1 as int, bytes_encoding(hdr_mr(op2)@)));
        }
    }
    let (mr, q2) = read_bytes(bytes, q1)?;
    proof {
        assert(prefix_at(bytes@, q1 as int, bytes_encoding(mr@)));
        assert forall|op2: Operation|
            #[trigger] prefix_at(bytes@, pos0 as int, op_encoding(op2)) implies (hdr_mr(op2)@
            == mr@ && q2 + 20 <= bytes@.len() && bytes@.subrange(q2 as int, q2 + 4) == u32_bytes(
            hdr_n(op2),
        ) && bytes@.subrange(q2 + 4, q2 + 8) == u32_bytes(hdr_b(op2)) && bytes@.subrange(
            q2 + 8,
            q2 + 12,
        ) == u32_bytes(hdr_t(op2)) && bytes@.subrange(q2 + 12, q2 + 16) == u32_bytes(
            hdr_v(op2) as u32,
        ) && bytes@.subrange(q2 + 16, q2 + 20) == u32_bytes(hdr_g(op2))) by {
            lemma_header_shape(bytes@, pos0 as int, op2);
            lemma_bytes_prefix_unamb(bytes@, q1 as int, mr@, hdr_mr(op2)@);
        }
    }
    let (n, q3) = read_u32(bytes, q2)?;
    let (b, q4) = read_u32(bytes, q3)?;
    let (t, q5) = read_u32(bytes, q4)?;
    let (v, q6) = read_u32(bytes, q5)?;
    let (g, q7) = read_u32(bytes, q6)?;
    let op = Operation::LoadHeader {
        prev,
        merkle_root: mr,
        nonce: n,
        bits: b,
        time: t,
        version: #[verifier::truncate] (v as i32),
        height: g,
    };
    proof {
        assert forall|op2: Operation|
            #[trigger] prefix_at(bytes@, pos0 as int, op_encoding(op2)) implies (
        crate::operation::op_eq(op, op2) && pos0 + op_encoding(op2).len() == q7 as int) by {
            lemma_header_shape(bytes@, pos0 as int, op2);
            lemma_u32_bytes_inj(hdr_n(op2), n);
            lemma_u32_bytes_inj(hdr_b(op2), b);
            lemma_u32_bytes_inj(hdr_t(op2), t);
            lemma_u32_bytes_inj(hdr_v(op2) as u32, v);
            lemma_u32_bytes_inj(hdr_g(op2), g);
            let v2 = hdr_v(op2);
            assert((v2 as u32) as i32 == v2) by (bit_vector);
        }
        assert(bytes@.subrange(pos0 as int, q7 as int) =~= op_encoding(op)) by {
            assert(op_encoding(op) == seq![20u8] + bytes_encoding(prev@) + bytes_encoding(mr@)
                + u32_bytes(n) + u32_bytes(b) + u32_bytes(t) + u32_bytes(
                (#[verifier::truncate] (v as i32)) as u32,
            ) + u32_bytes(g));
            assert(((#[verifier::truncate] (v as i32)) as u32) == v) by (bit_vector);
            assert forall|k: int| 0 <= k < q7 - pos0 implies (#[trigger] bytes@.subrange(
                pos0 as int,
                q7 as int,
            )[k]) == op_encoding(op)[k] by {
                if 1 <= k < q1 - pos0 {
                    assert(bytes@.subrange(pos as int, q1 as int)[k - 1] == bytes_encoding(
                        prev@,
                    )[k - 1]);
                } else if q1 - pos0 <= k < q2 - pos0 {
                    assert(bytes@.subrange(q1 as int, q2 as int)[k - (q1 - pos0)]
                        == bytes_encoding(mr@)[k - (q1 - pos0)]);
                } else if q2 - pos0 <= k < q3 - pos0 {
                    assert(bytes@.subrange(q2 as int, q3 as int)[k - (q2 - pos0)] == u32_bytes(
                        n,
                    )[k - (q2 - pos0)]);
                } else if q3 - pos0 <= k < q4 - pos0 {
                    assert(bytes@.subrange(q3 as int, q4 as int)[k - (q3 - pos0)] == u32_bytes(
                        b,
                    )[k - (q3 - pos0)]);
                } else if q4 - pos0 <= k < q5 - pos0 {
                    assert(bytes@.subrange(q4 as int, q5 as int)[k - (q4 - pos0)] == u32_bytes(
                        t,
                    )[k - (q4 - pos0)]);
                } else if q5 - pos0 <= k < q6 - pos0 {
                    assert(bytes@.subrange(q5 as int, q6 as int)[k - (q5 - pos0)] == u32_bytes(
                        v,
                    )[k - (q5 - pos0)]);
                } else if q6 - pos0 <= k {
                    assert(bytes@.subrange(q6 as int, q7 as int)[k - (q6 - pos0)] == u32_bytes(
                        g,
                    )[k - (q6 - pos0)]);
                }
            }
        }
    }
    Some((op, q7))
}

/// A prefix holding a `LoadHeader` tag pins the operation's variant and
/// the place of each payload component.
proof fn lemma_header_shape(s: Seq<u8>, pos0: int, op2: Operation)
    requires
        prefix_at(s, pos0, op_encoding(op2)),
        0 <= pos0 < s.len(),
        s[pos0] == 20,
    ensures
        op2 matches Operation::LoadHeader { .. },
        prefix_at(s, pos0 + 1, bytes_encoding(hdr_prev(op2)@)),
        prefix_at(
            s,
            pos0 + 1 + bytes_encoding(hdr_prev(op2)@).len(),
            bytes_encoding(hdr_mr(op2)@),
        ),
        prefix_at(
            s,
            pos0 + 1 + bytes_encoding(hdr_prev(op2)@).len() + bytes_encoding(hdr_mr(op2)@).len(),
            u32_bytes(hdr_n(op2)),
        ),
        prefix_at(
            s,
            pos0 + 1 + bytes_encoding(hdr_prev(op2)@).len() + bytes_encoding(hdr_mr(op2)@).len()
                + 4,
            u32_bytes(hdr_b(op2)),
        ),
        prefix_at(
            s,
            pos0 + 1 + bytes_encoding(hdr_prev(op2)@).len() + bytes_encoding(hdr_mr(op2)@).len()
                + 8,
            u32_bytes(hdr_t(op2)),
        ),
        prefix_at(
            s,
            pos0 + 1 + bytes_encoding(hdr_prev(op2)@).len() + bytes_encoding(hdr_mr(op2)@).len()
                + 12,
            u32_bytes(hdr_v(op2) as u32),
        ),
        prefix_at(
            s,
            pos0 + 1 + bytes_encoding(hdr_prev(op2)@).len() + bytes_encoding(hdr_mr(op2)@).len()
                + 16,
            u32_bytes(hdr_g(op2)),
        ),
        op_encoding(op2).len() == 1 + bytes_encoding(hdr_prev(op2)@).len() + bytes_encoding(
            hdr_mr(op2)@,
        ).len() + 20,
{
    assert(s.subrange(pos0, pos0 + op_encoding(op2).len())[0] == op_encoding(op2)[0]);
    if let Operation::LoadHeader {
        prev: a2,
        merkle_root: m2,
        nonce: n2,
        bits: b2,
        time: t2,
        version: v2,
        height: g2,
    } = op2 {
        header_splits(s, pos0, a2@, m2@, n2, b2, t2, v2, g2);
    } else {
        assert(false);
    }
}

/// The components of a `LoadHeader`, for stating facts about a witness
/// operation.
spec fn hdr_prev(op: Operation) -> Vec<u8> {
    match op {
        Operation::LoadHeader { prev, .. } => prev,
        _ => arbitrary(),
    }
}

spec fn hdr_mr(op: Operation) -> Vec<u8> {
    match op {
        Operation::LoadHeader { merkle_root, .. } => merkle_root,
        _ => arbitrary(),
    }
}

spec fn hdr_n(op: Operation) -> u32 {
    match op {
        Operation::LoadHeader { nonce, .. } => nonce,
        _ => arbitrary(),
    }
}

spec fn hdr_b(op: Operation) -> u32 {
    match op {
        Operation::LoadHeader { bits, .. } => bits,
        _ => arbitrary(),
    }
}

spec fn hdr_t(op: Operation) -> u32 {
    match op {
        Operation::LoadHeader { time, .. } => time,
        _ => arbitrary(),
    }
}

spec fn hdr_v(op: Operation) -> i32 {
    match op {
        Operation::LoadHeader { version, .. } => version,
        _ => arbitrary(),
    }
}

spec fn hdr_g(op: Operation) -> u32 {
    match op {
        Operation::LoadHeader { height, .. } => height,
        _ => arbitrary(),
    }
}

/// The `LoadHeader` encoding splits into its parts, each in place.
proof fn header_splits(
    s: Seq<u8>,
    pos0: int,
    prev: Seq<u8>,
    mr: Seq<u8>,
    n: u32,
    b: u32,
    t: u32,
    v: i32,
    g: u32,
)
    requires
        prefix_at(
            s,
            pos0,
            seq![20u8] + bytes_encoding(prev) + bytes_encoding(mr) + u32_bytes(n) + u32_bytes(b)
                + u32_bytes(t) + u32_bytes(v as u32) + u32_bytes(g),
        ),
    ensures
        prefix_at(s, pos0 + 1, bytes_encoding(prev)),
        prefix_at(s, pos0 + 1 + bytes_encoding(prev).len(), bytes_encoding(mr)),
        prefix_at(
            s,
            pos0 + 1 + bytes_encoding(prev).len() + bytes_encoding(mr).len(),
            u32_bytes(n),
        ),
        prefix_at(
            s,
            pos0 + 1 + bytes_encoding(prev).len() + bytes_encoding(mr).len() + 4,
            u32_bytes(b),
        ),
        prefix_at(
            s,
            pos0 + 1 + bytes_encoding(prev).len() + bytes_encoding(mr).len() + 8,
            u32_bytes(t),
        ),
        prefix_at(
            s,
            pos0 + 1 + bytes_encoding(prev).len() + bytes_encoding(mr).len() + 12,
            u32_bytes(v as u32),
        ),
        prefix_at(
            s,
            pos0 + 1 + bytes_encoding(prev).len() + bytes_encoding(mr).len() + 16,
            u32_bytes(g),
        ),
{
    lemma_prefix_split(
        s,
        pos0,
        seq![20u8] + bytes_encoding(prev) + bytes_encoding(mr) + u32_bytes(n) + u32_bytes(b)
            + u32_bytes(t) + u32_bytes(v as u32),
        u32_bytes(g),
    );
    lemma_prefix_split(
        s,
        pos0,
        seq![20u8] + bytes_encoding(prev) + bytes_encoding(mr) + u32_bytes(n) + u32_bytes(b)
            + u32_bytes(t),
        u32_bytes(v as u32),
    );
    lemma_prefix_split(
        s,
        pos0,
        seq![20u8] + bytes_encoding(prev) + bytes_encoding(mr) + u32_bytes(n) + u32_bytes(b),
        u32_bytes(t),
    );
    lemma_prefix_split(
        s,
        pos0,
        seq![20u8] + bytes_encoding(prev) + bytes_encoding(mr) + u32_bytes(n),
        u32_bytes(b),
    );
    lemma_prefix_split(
        s,
        pos0,
        seq![20u8] + bytes_encoding(prev) + bytes_encoding(mr),
        u32_bytes(n),
    );
    lemma_prefix_split(s, pos0, seq![20u8] + bytes_encoding(prev), bytes_encoding(mr));
    lemma_prefix_split(s, pos0, seq![20u8], bytes_encoding(prev));
}

/// Read one instruction: input count, inputs, operation. A position
/// holding any encoded instruction is read back as that instruction.
#[verifier::rlimit(100)]
#[verifier::spinoff_prover]
fn read_instr(bytes: &Vec<u8>, pos: usize) -> (r: Option<(Instruction, usize)>)
    ensures
        r matches Some((ins, p)) ==> pos < p <= bytes@.len() && bytes@.subrange(
            pos as int,
            p as int,
        ) == instr_encoding(ins),
        forall|wi: Instruction|
            #[trigger] prefix_at(bytes@, pos as int, instr_encoding(wi)) ==> (r matches Some(
                (ins, p),
            ) && crate::program::instr_eq(ins, wi) && p == pos + instr_encoding(wi).len()),
{
    // Bind the length once so the buffer's machine-size bound is in scope.
    let _n = bytes.len();
    proof {
        assert forall|wi: Instruction|
            #[trigger] prefix_at(bytes@, pos as int, instr_encoding(wi)) implies (pos + 8
            <= bytes@.len() && bytes@.subrange(pos as int, pos as int + 8) == u64_bytes(
            wi.inputs@.len() as u64,
        ) && wi.inputs@.len() <= usize::MAX && prefix_at(
            bytes@,
            pos as int + 8,
            inputs_encoding_upto(wi.inputs@, wi.inputs@.len() as int),
        ) && prefix_at(
            bytes@,
            pos as int + 8 + 8 * wi.inputs@.len(),
            op_encoding(wi.operation),
        )) by {
            let iu = inputs_encoding_upto(wi.inputs@, wi.inputs@.len() as int);
            assert(instr_encoding(wi) == u64_bytes(wi.inputs@.len() as u64) + iu + op_encoding(
                wi.operation,
            ));
            lemma_prefix_split(
                bytes@,
                pos as int,
                u64_bytes(wi.inputs@.len() as u64) + iu,
                op_encoding(wi.operation),
            );
            lemma_prefix_split(bytes@, pos as int, u64_bytes(wi.inputs@.len() as u64), iu);
            lemma_inputs_upto_len(wi.inputs@, wi.inputs@.len() as int);
        }
    }
    let (count, p0) = read_usize(bytes, pos)?;
    proof {
        assert forall|wi: Instruction|
            #[trigger] prefix_at(bytes@, pos as int, instr_encoding(wi)) implies wi.inputs@.len()
            == count by {
            lemma_u64_bytes_inj(wi.inputs@.len() as u64, count as u64);
        }
    }
    let mut inputs: Vec<usize> = Vec::new();
    let mut i: usize = 0;
    let mut p = p0;
    while i < count
        invariant
            pos + 8 == p0,
            p0 <= bytes@.len(),
            i <= count,
            p == p0 + 8 * i,
            p <= bytes@.len(),
            inputs@.len() == i,
            bytes@.subrange(p0 as int, p as int) == inputs_encoding_upto(inputs@, i as int),
            bytes@.subrange(pos as int, pos as int + 8) == u64_bytes(count as u64),
            forall|wi: Instruction|
                #[trigger] prefix_at(bytes@, pos as int, instr_encoding(wi)) ==> (wi.inputs@.len()
                    == count && (forall|k: int| 0 <= k < i ==> inputs@[k] == wi.inputs@[k])
                    && prefix_at(
                    bytes@,
                    pos as int + 8,
                    inputs_encoding_upto(wi.inputs@, count as int),
                ) && prefix_at(
                    bytes@,
                    pos as int + 8 + 8 * count,
                    op_encoding(wi.operation),
                )),
        decreases count - i,
    {
        let ghost pre_inputs = inputs@;
        proof {
            assert forall|wi: Instruction|
                #[trigger] prefix_at(bytes@, pos as int, instr_encoding(wi)) implies (exists|
                v: u64,
            |
                v <= usize::MAX && #[trigger] prefix_at(bytes@, p as int, u64_bytes(v))) by {
                lemma_inputs_elem_prefix(
                    bytes@,
                    pos as int + 8,
                    wi.inputs@,
                    count as int,
                    i as int,
                );
                assert(prefix_at(bytes@, p as int, u64_bytes(wi.inputs@[i as int] as u64)));
            }
        }
        let (v, p1) = read_usize(bytes, p)?;
        proof {
            assert forall|wi: Instruction|
                #[trigger] prefix_at(bytes@, pos as int, instr_encoding(wi)) implies v
                == wi.inputs@[i as int] by {
                lemma_inputs_elem_prefix(
                    bytes@,
                    pos as int + 8,
                    wi.inputs@,
                    count as int,
                    i as int,
                );
                lemma_u64_bytes_inj(v as u64, wi.inputs@[i as int] as u64);
            }
        }
        inputs.push(v);
        proof {
            lemma_inputs_upto_agree(inputs@, pre_inputs, i as int);
            assert(inputs@[i as int] == v);
            assert(bytes@.subrange(p0 as int, p1 as int) =~= inputs_encoding_upto(
                pre_inputs,
                i as int,
            ) + u64_bytes(v as u64)) by {
                assert forall|k: int| 0 <= k < p1 - p0 implies (#[trigger] bytes@.subrange(
                    p0 as int,
                    p1 as int,
                )[k]) == (inputs_encoding_upto(pre_inputs, i as int) + u64_bytes(v as u64))[k] by {
                    lemma_inputs_upto_len(pre_inputs, i as int);
                    if k < p - p0 {
                        assert(bytes@.subrange(p0 as int, p as int)[k] == inputs_encoding_upto(
                            pre_inputs,
                            i as int,
                        )[k]);
                    } else {
                        assert(bytes@.subrange(p as int, p1 as int)[k - (p - p0)] == u64_bytes(
                            v as u64,
                        )[k - (p - p0)]);
                    }
                }
            }
        }
        p = p1;
        i = i + 1;
    }
    proof {
        assert forall|wi: Instruction|
            #[trigger] prefix_at(bytes@, pos as int, instr_encoding(wi)) implies prefix_at(
            bytes@,
            p as int,
            op_encoding(wi.operation),
        ) by {}
    }
    let (operation, p2) = read_op(bytes, p)?;
    let ins = Instruction { inputs, operation };
    proof {
        assert forall|wi: Instruction|
            #[trigger] prefix_at(bytes@, pos as int, instr_encoding(wi)) implies (
        crate::program::instr_eq(ins, wi) && p2 == pos + instr_encoding(wi).len()) by {
            assert(crate::operation::op_eq(operation, wi.operation));
            assert(ins.inputs@ =~= wi.inputs@);
            lemma_inputs_upto_len(wi.inputs@, count as int);
        }
        assert(bytes@.subrange(pos as int, p2 as int) =~= instr_encoding(ins)) by {
            assert(instr_encoding(ins) == u64_bytes(count as u64) + inputs_encoding_upto(
                inputs@,
                count as int,
            ) + op_encoding(operation));
            lemma_inputs_upto_len(inputs@, count as int);
            assert forall|k: int| 0 <= k < p2 - pos implies (#[trigger] bytes@.subrange(
                pos as int,
                p2 as int,
            )[k]) == instr_encoding(ins)[k] by {
                if k < 8 {
                    assert(bytes@.subrange(pos as int, pos as int + 8)[k] == u64_bytes(
                        count as u64,
                    )[k]);
                } else if k < 8 + 8 * count {
                    assert(bytes@.subrange(p0 as int, p as int)[k - 8] == inputs_encoding_upto(
                        inputs@,
                        count as int,
                    )[k - 8]);
                } else {
                    assert(bytes@.subrange(p as int, p2 as int)[k - (8 + 8 * count)]
                        == op_encoding(operation)[k - (8 + 8 * count)]);
                }
            }
        }
    }
    Some((ins, p2))
}

/// Read `count` encoded instructions starting at offset 16. A buffer whose
/// tail holds any encoded instruction list of that length is read back
/// pointwise.
#[verifier::rlimit(100)]
#[verifier::spinoff_prover]
fn decode_instructions(bytes: &Vec<u8>, count: usize) -> (r: Option<(Vec<Instruction>, usize)>)
    requires
        16 <= bytes@.len(),
    ensures
        r matches Some((instrs, p)) ==> instrs@.len() == count && 16 <= p <= bytes@.len() && p
            as int == 16 + instrs_encoding_upto(instrs@, count as int).len() && bytes@.subrange(
            16,
            p as int,
        ) == instrs_encoding_upto(instrs@, count as int),
        forall|ws: Seq<Instruction>|
            ws.len() == count && #[trigger] prefix_at(
                bytes@,
                16,
                instrs_encoding_upto(ws, count as int),
            ) ==> (r matches Some((instrs, p)) && (forall|k: int|
                0 <= k < count ==> crate::program::instr_eq(#[trigger] instrs@[k], ws[k]))),
{
    let mut instructions: Vec<Instruction> = Vec::new();
    let mut i: usize = 0;
    let mut p: usize = 16;
    proof {
        assert(bytes@.subrange(16, 16) =~= instrs_encoding_upto(instructions@, 0));
    }
    while i < count
        invariant
            i <= count,
            instructions@.len() == i,
            16 <= p <= bytes@.len(),
            p as int == 16 + instrs_encoding_upto(instructions@, i as int).len(),
            bytes@.subrange(16, p as int) == instrs_encoding_upto(instructions@, i as int),
            forall|ws: Seq<Instruction>|
                ws.len() == count && #[trigger] prefix_at(
                    bytes@,
                    16,
                    instrs_encoding_upto(ws, count as int),
                ) ==> (forall|k: int|
                    0 <= k < i ==> crate::program::instr_eq(
                        #[trigger] instructions@[k],
                        ws[k],
                    )),
        decreases count - i,
    {
        let ghost pre_instrs = instructions@;
        proof {
            assert forall|ws: Seq<Instruction>|
                ws.len() == count && #[trigger] prefix_at(
                    bytes@,
                    16,
                    instrs_encoding_upto(ws, count as int),
                ) implies prefix_at(bytes@, p as int, instr_encoding(ws[i as int])) by {
                lemma_instrs_elem_prefix(bytes@, 16, ws, count as int, i as int);
                lemma_instrs_upto_congruent(instructions@, ws, i as int);
            }
        }
        let (instr, p2) = read_instr(bytes, p)?;
        proof {
            assert forall|ws: Seq<Instruction>|
                ws.len() == count && #[trigger] prefix_at(
                    bytes@,
                    16,
                    instrs_encoding_upto(ws, count as int),
                ) implies (crate::program::instr_eq(instr, ws[i as int]) && p2 == p
                + instr_encoding(ws[i as int]).len()) by {
                lemma_instrs_elem_prefix(bytes@, 16, ws, count as int, i as int);
                lemma_instrs_upto_congruent(instructions@, ws, i as int);
            }
        }
        instructions.push(instr);
        proof {
            lemma_instrs_upto_agree(instructions@, pre_instrs, i as int);
            assert(instructions@[i as int] == instr);
            assert(bytes@.subrange(16, p2 as int) =~= instrs_encoding_upto(
                pre_instrs,
                i as int,
            ) + instr_encoding(instr)) by {
                assert forall|k: int| 0 <= k < p2 - 16 implies (#[trigger] bytes@.subrange(
                    16,
                    p2 as int,
                )[k]) == (instrs_encoding_upto(pre_instrs, i as int) + instr_encoding(instr))[k] by {
                    if k < p - 16 {
                        assert(bytes@.subrange(16, p as int)[k] == instrs_encoding_upto(
                            pre_instrs,
                            i as int,
                        )[k]);
                    } else {
                        assert(bytes@.subrange(p as int, p2 as int)[k - (p - 16)]
                            == instr_encoding(instr)[k - (p - 16)]);
                    }
                }
            }
        }
        p = p2;
        i = i + 1;
    }
    Some((instructions, p))
}

/// A buffer equal to a program's encoding pins the place of its context
/// word, its count word and its instruction list.
proof fn lemma_program_shape(bytes: Seq<u8>, w: Program)
    requires
        bytes == program_encoding(w),
        bytes.len() <= usize::MAX,
    ensures
        prefix_at(bytes, 0, u64_bytes(w.context.num_nodes as u64)),
        prefix_at(bytes, 8, u64_bytes(w.instructions@.len() as u64)),
        prefix_at(bytes, 16, instrs_encoding_upto(w.instructions@, w.instructions@.len() as int)),
        w.instructions@.len() <= usize::MAX,
        bytes.len() == 16 + instrs_encoding_upto(
            w.instructions@,
            w.instructions@.len() as int,
        ).len(),
{
    assert(bytes.subrange(0, bytes.len() as int) =~= bytes);
    assert(prefix_at(bytes, 0, program_encoding(w)));
    lemma_prefix_split(
        bytes,
        0,
        u64_bytes(w.context.num_nodes as u64) + u64_bytes(w.instructions@.len() as u64),
        instrs_encoding_upto(w.instructions@, w.instructions@.len() as int),
    );
    lemma_prefix_split(
        bytes,
        0,
        u64_bytes(w.context.num_nodes as u64),
        u64_bytes(w.instructions@.len() as u64),
    );
    lemma_instrs_upto_min_len(w.instructions@, w.instructions@.len() as int);
}

/// Decode a whole program from its byte form; malformed or trailing bytes
/// are rejected. Whatever decodes re-encodes to exactly the input, and the
/// encoding of any program decodes back to that program: the corpus round
/// trip.
#[verifier::rlimit(100)]
#[verifier::spinoff_prover]
pub fn decode_program(bytes: &Vec<u8>) -> (r: Option<Program>)
    ensures
        r matches Some(q) ==> bytes@ == program_encoding(q),
        forall|w: Program|
            bytes@ == #[trigger] program_encoding(w) ==> (r matches Some(q)
                && crate::program::program_eq(q, w)),
{
    // Bind the length once so the buffer's machine-size bound is in scope.
    let _n = bytes.len();
    proof {
        assert forall|w: Program| bytes@ == #[trigger] program_encoding(w) implies (prefix_at(
            bytes@,
            0,
            u64_bytes(w.context.num_nodes as u64),
        ) && prefix_at(bytes@, 8, u64_bytes(w.instructions@.len() as u64)) && prefix_at(
            bytes@,
            16,
            instrs_encoding_upto(w.instructions@, w.instructions@.len() as int),
        ) && w.instructions@.len() <= usize::MAX) by {
            lemma_program_shape(bytes@, w);
        }
    }
    let (num_nodes, p0) = read_usize(bytes, 0)?;
    let (count, p1) = read_usize(bytes, p0)?;
    proof {
        assert forall|w: Program| bytes@ == #[trigger] program_encoding(w) implies (
        w.context.num_nodes == num_nodes && w.instructions@.len() == count) by {
            lemma_u64_bytes_inj(w.context.num_nodes as u64, num_nodes as u64);
            lemma_u64_bytes_inj(w.instructions@.len() as u64, count as u64);
        }
    }
    let (instructions, p) = decode_instructions(bytes, count)?;
    if p != bytes.len() {
        proof {
            assert forall|w: Program| bytes@ != #[trigger] program_encoding(w) by {
                if bytes@ == program_encoding(w) {
                    lemma_program_shape(bytes@, w);
                    lemma_instrs_upto_congruent(instructions@, w.instructions@, count as int);
                }
            }
        }
        return None;
    }
    let q = Program { context: Context { num_nodes }, instructions };
    proof {
        lemma_decode_assemble(bytes@, q, num_nodes, count, p as int);
    }
    Some(q)
}

/// A parsed context word, count word and instruction-list encoding that
/// fill the whole buffer assemble to the program's encoding.
proof fn lemma_decode_assemble(bytes: Seq<u8>, q: Program, num_nodes: usize, count: usize, p: int)
    requires
        bytes.len() == p,
        16 <= p,
        q.context.num_nodes == num_nodes,
        q.instructions@.len() == count,
        bytes.subrange(0, 8) == u64_bytes(num_nodes as u64),
        bytes.subrange(8, 16) == u64_bytes(count as u64),
        bytes.subrange(16, p) == instrs_encoding_upto(q.instructions@, count as int),
    ensures
        bytes == program_encoding(q),
{
    assert(bytes =~= program_encoding(q)) by {
        assert forall|k: int| 0 <= k < bytes.len() implies bytes[k] == program_encoding(
            q,
        )[k] by {
            if k < 8 {
                assert(bytes.subrange(0, 8)[k] == u64_bytes(num_nodes as u64)[k]);
            } else if k < 16 {
                assert(bytes.subrange(8, 16)[k - 8] == u64_bytes(count as u64)[k - 8]);
            } else {
                assert(bytes.subrange(16, p)[k - 16] == instrs_encoding_upto(
                    q.instructions@,
                    count as int,
                )[k - 16]);
            }
        }
    }
}


/// The byte limit on a compiled program; anything larger compiles to the
/// empty sequence, which the executor treats as a no-op.
pub const MAX_COMPILED_SIZE: usize = 8388608;

/// Lower a program to the byte form the executor consumes: its encoding,
/// or the empty sequence when the encoding exceeds the size budget.
pub fn compile(p: &Program) -> (r: Vec<u8>)
    ensures
        program_encoding(*p).len() <= MAX_COMPILED_SIZE ==> r@ == program_encoding(*p),
        program_encoding(*p).len() > MAX_COMPILED_SIZE ==> r@ == Seq::<u8>::empty(),
{
    let encoded = encode_program(p);
    if encoded.len() > MAX_COMPILED_SIZE {
        let empty: Vec<u8> = Vec::new();
        assert(empty@ =~= Seq::<u8>::empty());
        empty
    } else {
        encoded
    }
}

} // verus!
