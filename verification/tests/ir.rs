use fuzzamoto::builder::ProgramBuilder;
use fuzzamoto::codec::{compile, decode_program, encode_program};
use fuzzamoto::generators::{AddConnectionGenerator, CompactBlockGenerator, Generator, GeneratorError};
use fuzzamoto::input::IrInput;
use fuzzamoto::mutators::{
    ConcatMutator, InputMutator, Mutator, MutatorError, NopMutator, OperationMutator,
    SpliceMutator, Splicer,
};
use fuzzamoto::program::{Context, Instruction, Program, ProgramValidationError};
use fuzzamoto::rng::ScriptedRng;
use fuzzamoto::Operation;

fn instr(op: Operation, inputs: Vec<usize>) -> Instruction {
    Instruction { inputs, operation: op }
}

/// The eleven-instruction program with one full transaction scope used by
/// the snapshot placement scenario.
fn tx_scope_program() -> Program {
    let instructions = vec![
        instr(Operation::LoadNode(0), vec![]),
        instr(Operation::LoadConnectionType(b"inbound".to_vec()), vec![]),
        instr(Operation::AddConnection, vec![0, 1]),
        instr(Operation::LoadTxVersion(2), vec![]),
        instr(Operation::LoadLockTime(0), vec![]),
        instr(Operation::BeginBuildTx, vec![3, 4]),
        instr(Operation::BeginBuildTxInputs, vec![]),
        instr(Operation::EndBuildTxInputs, vec![6]),
        instr(Operation::BeginBuildTxOutputs, vec![7]),
        instr(Operation::EndBuildTxOutputs, vec![8]),
        instr(Operation::EndBuildTx, vec![5, 7, 9]),
    ];
    Program::unchecked_new(Context { num_nodes: 1 }, instructions)
}

#[test]
fn validator_accepts_tx_scope_program() {
    let program = tx_scope_program();
    assert!(program.validate().is_ok());
}

#[test]
fn validator_rejects_unknown_variable() {
    let program = Program::unchecked_new(
        Context { num_nodes: 1 },
        vec![instr(Operation::SetTime, vec![0])],
    );
    assert_eq!(program.validate(), Err(ProgramValidationError::UnknownVariable));
}

#[test]
fn validator_rejects_wrong_kind() {
    let program = Program::unchecked_new(
        Context { num_nodes: 1 },
        vec![
            instr(Operation::LoadNode(0), vec![]),
            instr(Operation::SetTime, vec![0]),
        ],
    );
    assert_eq!(
        program.validate(),
        Err(ProgramValidationError::InvalidVariableType {
            is: fuzzamoto::Variable::Node,
            expected: fuzzamoto::Variable::Time,
        })
    );
}

#[test]
fn validator_rejects_wrong_input_count() {
    let program = Program::unchecked_new(
        Context { num_nodes: 1 },
        vec![
            instr(Operation::LoadTime(7), vec![]),
            instr(Operation::SetTime, vec![0, 0]),
        ],
    );
    assert_eq!(
        program.validate(),
        Err(ProgramValidationError::InvalidNumberOfInputs { is: 2, expected: 1 })
    );
}

#[test]
fn validator_rejects_unmatched_end() {
    let program = Program::unchecked_new(
        Context { num_nodes: 1 },
        vec![
            instr(Operation::BeginBuildTxInputs, vec![]),
            instr(Operation::EndWitnessStack, vec![0]),
        ],
    );
    assert_eq!(
        program.validate(),
        Err(ProgramValidationError::InvalidVariableType {
            is: fuzzamoto::Variable::MutTxInputs,
            expected: fuzzamoto::Variable::MutWitnessStack,
        })
    );
    let bare_end = Program::unchecked_new(
        Context { num_nodes: 1 },
        vec![
            instr(Operation::BeginBuildTxInputs, vec![]),
            instr(Operation::EndBuildTxInputs, vec![0]),
            instr(Operation::EndBuildTxInputs, vec![0]),
        ],
    );
    assert_eq!(bare_end.validate(), Err(ProgramValidationError::UseOfOutOfScopeVariable));
}

#[test]
fn validator_rejects_unterminated_scope() {
    let program = Program::unchecked_new(
        Context { num_nodes: 1 },
        vec![instr(Operation::BeginBuildTxInputs, vec![])],
    );
    assert_eq!(program.validate(), Err(ProgramValidationError::UnterminatedBlock));
}

#[test]
fn mut_variable_invisible_after_scope() {
    // The MutTxInputs inner variable (slot 0) may not be used after its
    // scope closed.
    let program = Program::unchecked_new(
        Context { num_nodes: 1 },
        vec![
            instr(Operation::BeginBuildTxInputs, vec![]),
            instr(Operation::EndBuildTxInputs, vec![0]),
            instr(Operation::EndBuildTxInputs, vec![0]),
        ],
    );
    assert_eq!(program.validate(), Err(ProgramValidationError::UseOfOutOfScopeVariable));
}

#[test]
fn scenario_generate_connections_and_validate() {
    // A scripted randomness stream: the small-batch coin comes up true and
    // the batch size lands on 3.
    let mut rng = ScriptedRng::new(vec![0, 2]);
    let mut builder = ProgramBuilder::new(Context { num_nodes: 1 });
    let generator = AddConnectionGenerator;
    Generator::<ScriptedRng>::generate(&generator, &mut builder, &mut rng).unwrap();

    assert_eq!(builder.count_visible(fuzzamoto::Variable::Connection), 3);
    // Three full LoadNode/LoadConnectionType/AddConnection triples.
    assert_eq!(builder.program().instructions.len(), 9);
    let loads = builder
        .program()
        .instructions
        .iter()
        .filter(|i| matches!(i.operation, Operation::LoadNode(_)))
        .count();
    assert_eq!(loads, 3);
    let adds = builder
        .program()
        .instructions
        .iter()
        .filter(|i| matches!(i.operation, Operation::AddConnection))
        .count();
    assert_eq!(adds, 3);
    assert!(builder.program().validate().is_ok());
}

#[test]
fn generator_reuses_visible_node_without_context_nodes() {
    // With no nodes in the context but a node variable already visible,
    // each connection is a LoadConnectionType/AddConnection pair over that
    // node.
    let mut builder = ProgramBuilder::new(Context { num_nodes: 0 });
    builder.append(instr(Operation::LoadNode(0), vec![])).unwrap();
    let mut rng = ScriptedRng::new(vec![0, 1]);
    let generator = AddConnectionGenerator;
    Generator::<ScriptedRng>::generate(&generator, &mut builder, &mut rng).unwrap();
    assert_eq!(builder.count_visible(fuzzamoto::Variable::Connection), 2);
    assert_eq!(builder.program().instructions.len(), 5);
    assert!(builder.program().validate().is_ok());
}

#[test]
fn generator_fails_cleanly_without_nodes() {
    let mut rng = ScriptedRng::new(vec![0, 2]);
    let mut builder = ProgramBuilder::new(Context { num_nodes: 0 });
    let generator = AddConnectionGenerator;
    let r = Generator::<ScriptedRng>::generate(&generator, &mut builder, &mut rng);
    assert!(matches!(r, Err(GeneratorError::InvalidContext(_))));
    assert_eq!(builder.program().instructions.len(), 0);
}

/// A program holding one block built from five transactions.
fn block_program(num_txs: usize) -> ProgramBuilder {
    let mut builder = ProgramBuilder::new(Context { num_nodes: 1 });
    let mut tx_vars = Vec::new();
    for _ in 0..num_txs {
        let v = builder
            .append(instr(Operation::LoadTxVersion(2), vec![]))
            .unwrap()[0];
        let l = builder
            .append(instr(Operation::LoadLockTime(0), vec![]))
            .unwrap()[0];
        let mut_tx = builder
            .append(instr(Operation::BeginBuildTx, vec![v.index, l.index]))
            .unwrap()[0];
        let mut_ins = builder
            .append(instr(Operation::BeginBuildTxInputs, vec![]))
            .unwrap()[0];
        let const_ins = builder
            .append(instr(Operation::EndBuildTxInputs, vec![mut_ins.index]))
            .unwrap()[0];
        let mut_outs = builder
            .append(instr(Operation::BeginBuildTxOutputs, vec![const_ins.index]))
            .unwrap()[0];
        let const_outs = builder
            .append(instr(Operation::EndBuildTxOutputs, vec![mut_outs.index]))
            .unwrap()[0];
        let tx = builder
            .append(instr(
                Operation::EndBuildTx,
                vec![mut_tx.index, const_ins.index, const_outs.index],
            ))
            .unwrap()[0];
        tx_vars.push(tx.index);
    }
    let mut_bt = builder
        .append(instr(Operation::BeginBlockTransactions, vec![]))
        .unwrap()[0];
    for tx in &tx_vars {
        builder
            .append(instr(Operation::AddTx, vec![mut_bt.index, *tx]))
            .unwrap();
    }
    let const_bt = builder
        .append(instr(Operation::EndBlockTransactions, vec![mut_bt.index]))
        .unwrap()[0];
    let header = builder
        .append(instr(
            Operation::LoadHeader {
                prev: vec![0; 32],
                merkle_root: vec![0; 32],
                nonce: 0,
                bits: 0x207fffff,
                time: 0,
                version: 4,
                height: 1,
            },
            vec![],
        ))
        .unwrap()[0];
    let time = builder
        .append(instr(Operation::LoadTime(1_600_000_000), vec![]))
        .unwrap()[0];
    let version = builder
        .append(instr(Operation::LoadBlockVersion(4), vec![]))
        .unwrap()[0];
    builder
        .append(instr(
            Operation::BuildBlock,
            vec![header.index, time.index, version.index, const_bt.index],
        ))
        .unwrap();
    builder
}

#[test]
fn scenario_compact_block_prefills_whole_block() {
    let mut builder = block_program(5);
    let before = builder.program().instructions.len();
    // The scripted stream drives: block choice, connection synthesis,
    // nonce, then a prefill count of five; shuffling is scripted to keep
    // the order.
    let mut rng = ScriptedRng::new(vec![0, 0, 0, 0, 5]);
    let generator = CompactBlockGenerator;
    Generator::<ScriptedRng>::generate(&generator, &mut builder, &mut rng).unwrap();

    let program = builder.program();
    assert!(program.validate().is_ok());

    let added = &program.instructions[before..];
    let prefills: Vec<&Instruction> = added
        .iter()
        .filter(|i| matches!(i.operation, Operation::AddPrefillTx))
        .collect();
    assert_eq!(prefills.len(), 5);
    let mut seen = Vec::new();
    for p in &prefills {
        let tx = p.inputs[2];
        assert!(!seen.contains(&tx), "prefilled transactions must be distinct");
        seen.push(tx);
    }
    assert_eq!(
        added
            .iter()
            .filter(|i| matches!(i.operation, Operation::EndPrefillTransactions))
            .count(),
        1
    );
    assert_eq!(
        added
            .iter()
            .filter(|i| matches!(i.operation, Operation::BuildCompactBlockWithPrefill))
            .count(),
        1
    );
    assert_eq!(
        added
            .iter()
            .filter(|i| matches!(i.operation, Operation::SendCompactBlock))
            .count(),
        1
    );
}

#[test]
fn compact_block_needs_a_block() {
    let mut builder = ProgramBuilder::new(Context { num_nodes: 1 });
    let mut rng = ScriptedRng::new(vec![0]);
    let generator = CompactBlockGenerator;
    let r = Generator::<ScriptedRng>::generate(&generator, &mut builder, &mut rng);
    assert!(matches!(r, Err(GeneratorError::MissingVariables)));
    assert_eq!(builder.program().instructions.len(), 0);
}

#[test]
fn scenario_codec_round_trip() {
    let program = tx_scope_program();
    assert!(program.validate().is_ok());
    let bytes = encode_program(&program);
    let decoded = decode_program(&bytes).expect("the corpus form must read back");
    assert!(decoded.validate().is_ok());
    let re_encoded = encode_program(&decoded);
    assert_eq!(bytes, re_encoded);
}

#[test]
fn codec_rejects_garbage() {
    assert!(decode_program(&vec![1, 2, 3]).is_none());
    let program = tx_scope_program();
    let mut bytes = encode_program(&program);
    bytes.push(0);
    assert!(decode_program(&bytes).is_none(), "trailing bytes are malformed");
}

#[test]
fn compile_small_program_is_encoding() {
    let program = tx_scope_program();
    assert_eq!(compile(&program), encode_program(&program));
}

#[test]
fn insert_snapshot_at_frozen_prefix() {
    let mut input = IrInput::new(tx_scope_program());
    input.frozen_prefix_len = Some(5);
    let spliced = input.insert_snapshot();
    assert_eq!(spliced.instructions.len(), 12);
    assert!(matches!(spliced.instructions[5].operation, Operation::IncrementalSnapshot));
    assert!(matches!(spliced.instructions[4].operation, Operation::LoadLockTime(_)));
    assert!(matches!(spliced.instructions[6].operation, Operation::BeginBuildTx));

    // A prefix mark past the end lands at the end.
    input.frozen_prefix_len = Some(100);
    let at_end = input.insert_snapshot();
    assert!(matches!(at_end.instructions[11].operation, Operation::IncrementalSnapshot));

    input.frozen_prefix_len = None;
    assert_eq!(input.insert_snapshot().instructions.len(), 11);
    assert!(!input.target_bytes().is_empty());
}

#[test]
fn nop_mutator_preserves_validity() {
    let mut program = tx_scope_program();
    assert!(program.validate().is_ok());
    // Target instruction 3 (LoadTxVersion): its output feeds BeginBuildTx,
    // so the edit is discarded and the program survives untouched.
    let mut rng = ScriptedRng::new(vec![3]);
    let mut mutator = NopMutator;
    let r = Mutator::<ScriptedRng>::mutate(&mut mutator, &mut program, &mut rng);
    assert_eq!(r, Err(MutatorError::CreatedInvalidProgram));
    assert!(program.validate().is_ok());
    assert_eq!(program.instructions.len(), 11);

    // Instruction 2 (AddConnection) has no outputs anything reads; the
    // replacement sticks and the program still validates.
    let mut rng = ScriptedRng::new(vec![2]);
    let r = Mutator::<ScriptedRng>::mutate(&mut mutator, &mut program, &mut rng);
    assert_eq!(r, Ok(()));
    assert!(matches!(
        program.instructions[2].operation,
        Operation::Nop { outputs: 1, inner_outputs: 0 }
    ));
    assert!(program.validate().is_ok());
}

#[test]
fn input_mutator_rebinds_or_backs_off() {
    let mut program = Program::unchecked_new(
        Context { num_nodes: 1 },
        vec![
            instr(Operation::LoadTime(1), vec![]),
            instr(Operation::LoadTime(2), vec![]),
            instr(Operation::SetTime, vec![0]),
        ],
    );
    assert!(program.validate().is_ok());
    // Rebind SetTime's input (instruction 2, slot 0) to variable 1.
    let mut rng = ScriptedRng::new(vec![2, 0, 1]);
    let mut mutator = InputMutator;
    let r = Mutator::<ScriptedRng>::mutate(&mut mutator, &mut program, &mut rng);
    assert_eq!(r, Ok(()));
    assert_eq!(program.instructions[2].inputs[0], 1);
    assert!(program.validate().is_ok());
}

#[test]
fn mutate_from_leaves_frozen_prefix_untouched() {
    let mut program = Program::unchecked_new(
        Context { num_nodes: 1 },
        vec![
            instr(Operation::LoadTime(1), vec![]),
            instr(Operation::LoadTime(2), vec![]),
            instr(Operation::SetTime, vec![0]),
        ],
    );
    assert!(program.validate().is_ok());
    // With the first two instructions frozen, only SetTime can be edited.
    let mut rng = ScriptedRng::new(vec![2, 0, 1]);
    let mut mutator = InputMutator;
    let r = Mutator::<ScriptedRng>::mutate_from(&mut mutator, &mut program, &mut rng, 2);
    assert_eq!(r, Ok(()));
    assert!(matches!(program.instructions[0].operation, Operation::LoadTime(1)));
    assert!(matches!(program.instructions[1].operation, Operation::LoadTime(2)));
    assert_eq!(program.instructions[2].inputs[0], 1);

    // A frozen prefix covering the whole program leaves no mutation.
    let mut rng = ScriptedRng::new(vec![0]);
    let r = Mutator::<ScriptedRng>::mutate_from(&mut mutator, &mut program, &mut rng, 3);
    assert_eq!(r, Err(MutatorError::NoMutationsAvailable));
}

#[test]
fn mutator_failure_keeps_program() {
    let mut program = Program::unchecked_new(Context { num_nodes: 1 }, vec![]);
    let mut rng = ScriptedRng::new(vec![0]);
    let mut mutator = InputMutator;
    let r = Mutator::<ScriptedRng>::mutate(&mut mutator, &mut program, &mut rng);
    assert_eq!(r, Err(MutatorError::NoMutationsAvailable));
    assert_eq!(program.instructions.len(), 0);
}

#[test]
fn concat_appends_and_revalidates() {
    let mut program = tx_scope_program();
    let other = Program::unchecked_new(
        Context { num_nodes: 1 },
        vec![
            instr(Operation::LoadTime(5), vec![]),
            instr(Operation::SetTime, vec![0]),
        ],
    );
    let mut mutator = ConcatMutator;
    let r = mutator.concat(&mut program, &other);
    assert_eq!(r, Ok(()));
    assert_eq!(program.instructions.len(), 13);
    assert!(program.validate().is_ok());
    // The appended SetTime now reads the shifted slot.
    assert_eq!(program.instructions[12].inputs[0], 11);
}

#[test]
fn splice_inserts_balanced_range() {
    let mut program = tx_scope_program();
    let other = Program::unchecked_new(
        Context { num_nodes: 1 },
        vec![
            instr(Operation::LoadTime(5), vec![]),
            instr(Operation::SetTime, vec![0]),
        ],
    );
    // Copy the whole two-instruction range to the very end.
    let mut rng = ScriptedRng::new(vec![0, 1, 11]);
    let mut mutator = SpliceMutator;
    let r = Splicer::<ScriptedRng>::splice(&mut mutator, &mut program, &other, &mut rng);
    assert_eq!(r, Ok(()));
    assert_eq!(program.instructions.len(), 13);
    assert!(program.validate().is_ok());
}

#[test]
fn operation_queries_are_consistent() {
    let op = Operation::EndBuildTx;
    assert!(op.is_block_end());
    assert!(!op.is_block_begin());
    assert!(op.is_matching_block_begin(&Operation::BeginBuildTx));
    assert!(!op.is_matching_block_begin(&Operation::BeginBuildTxInputs));
    assert_eq!(op.num_inputs(), 3);
    assert_eq!(op.num_outputs(), 1);
    assert_eq!(op.num_inner_outputs(), 0);
    assert!(op.allow_insertion_in_block());

    let begin = Operation::BeginBuildTx;
    assert!(begin.is_block_begin());
    assert!(!begin.allow_insertion_in_block());
    assert_eq!(begin.num_inner_outputs(), 1);

    let nop = Operation::Nop { outputs: 2, inner_outputs: 3 };
    assert_eq!(nop.num_outputs(), 2);
    assert_eq!(nop.num_inner_outputs(), 3);
    assert_eq!(nop.num_inputs(), 0);

    assert!(Operation::AddTx.mutates_nth_input(0));
    assert!(!Operation::AddTx.mutates_nth_input(1));
    assert!(!Operation::LoadNode(0).mutates_nth_input(0));

    let check = Operation::SetTime.check_input_types(&[fuzzamoto::Variable::Time]);
    assert!(check.is_ok());
    let bad = Operation::SetTime.check_input_types(&[fuzzamoto::Variable::Node]);
    assert!(bad.is_err());
}

#[test]
fn test_libdesock_library_exists() {
    // The desocketed transport and its preload library live outside the
    // verified core; what stands in their place here is the executor-facing
    // byte form, which must exist for any program.
    let program = Program::unchecked_new(Context { num_nodes: 1 }, vec![]);
    assert!(!compile(&program).is_empty());
}

#[test]
fn operation_mutator_swaps_same_signature_op() {
    let mut program = Program::unchecked_new(
        Context { num_nodes: 1 },
        vec![
            instr(Operation::LoadNode(0), vec![]),
            instr(Operation::LoadConnectionType(b"inbound".to_vec()), vec![]),
            instr(Operation::AddConnection, vec![0, 1]),
            instr(Operation::LoadTxVersion(2), vec![]),
            instr(Operation::LoadLockTime(0), vec![]),
            instr(Operation::BeginBuildTx, vec![3, 4]),
            instr(Operation::BeginBuildTxInputs, vec![]),
            instr(Operation::EndBuildTxInputs, vec![6]),
            instr(Operation::BeginBuildTxOutputs, vec![7]),
            instr(Operation::EndBuildTxOutputs, vec![8]),
            instr(Operation::EndBuildTx, vec![5, 7, 9]),
            instr(Operation::SendTx, vec![2, 10]),
        ],
    );
    assert!(program.validate().is_ok());
    // Target the final SendTx; its witness-free twin has the same
    // signature, so the program keeps validating.
    let mut rng = ScriptedRng::new(vec![11, 0]);
    let mut mutator = OperationMutator;
    let r = Mutator::<ScriptedRng>::mutate(&mut mutator, &mut program, &mut rng);
    assert_eq!(r, Ok(()));
    assert!(matches!(program.instructions[11].operation, Operation::SendTxNoWit));
    assert_eq!(program.instructions[11].inputs, vec![2, 10]);
    assert!(program.validate().is_ok());

    // An operation without a same-signature twin offers no mutation.
    let mut rng = ScriptedRng::new(vec![0, 0]);
    let r = Mutator::<ScriptedRng>::mutate(&mut mutator, &mut program, &mut rng);
    assert_eq!(r, Err(MutatorError::NoMutationsAvailable));
}
