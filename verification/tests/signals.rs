use fuzzamoto::assertions::{Assertion, AssertionScope};
use fuzzamoto::feedback::AssertionFeedback;
use fuzzamoto::program::{Context, Instruction, Program};
use fuzzamoto::rng::ScriptedRng;
use fuzzamoto::snapshot::{
    find_valid_snapshot_position, IncrementalSnapshotStage, IterationPlan, ReplayAction,
    SnapshotPlacementPolicy,
};
use fuzzamoto::stdout::{
    assertion_stdout_line, parse_assertions_from_stdout, parse_scope_json, parse_stdout_line,
    scope_json_bytes, stdout_message_line, StdoutMessage,
};
use fuzzamoto::Operation;

fn instr(op: Operation, inputs: Vec<usize>) -> Instruction {
    Instruction { inputs, operation: op }
}

fn tx_scope_program() -> Program {
    let instructions = vec![
        instr(Operation::LoadNode(0), vec![]),
        instr(Operation::LoadConnectionType(b"inbound".to_vec()), vec![]),
        instr(Operation::AddConnection, vec![0, 1]),
        instr(Operation::LoadTxVersion(2), vec![]),
        instr(Operation::LoadLockTime(0), vec![]),
        instr(Operation::BeginBuildTx, vec![3, 4]),
        instr(Operation::BeginBuildTxInputs, vec![]),
        instr(Operation::EndBuildTxInputs, vec![6]),
        instr(Operation::BeginBuildTxOutputs, vec![7]),
        instr(Operation::EndBuildTxOutputs, vec![8]),
        instr(Operation::EndBuildTx, vec![5, 7, 9]),
    ];
    Program::unchecked_new(Context { num_nodes: 1 }, instructions)
}

#[test]
fn scenario_assertion_distances() {
    assert_eq!(Assertion::LessThan(10, 3).distance(false), 8);
    assert_eq!(Assertion::LessThan(10, 3).distance(true), 0);
    // The Always scope over a violated condition fires (its distance is
    // zero) and evaluates to false: the violation signal.
    let scope = AssertionScope::Always(Assertion::LessThan(10, 3), b"x".to_vec());
    assert_eq!(scope.distance(), 0);
    assert!(!scope.evaluate());
    // The Sometimes scope over the same condition is eight away from
    // holding.
    let scope = AssertionScope::Sometimes(Assertion::LessThan(10, 3), b"x".to_vec());
    assert_eq!(scope.distance(), 8);
    assert!(!scope.evaluate());
}

#[test]
fn distance_formulas_match_branch_distances() {
    assert_eq!(Assertion::Condition(true).distance(false), 0);
    assert_eq!(Assertion::Condition(true).distance(true), 1);
    assert_eq!(Assertion::Condition(false).distance(false), 1);
    assert_eq!(Assertion::LessThan(3, 10).distance(false), 0);
    assert_eq!(Assertion::LessThan(3, 10).distance(true), 7);
    assert_eq!(Assertion::LessThanOrEqual(10, 10).distance(false), 0);
    assert_eq!(Assertion::LessThanOrEqual(11, 10).distance(false), 1);
    assert_eq!(Assertion::LessThanOrEqual(10, 10).distance(true), 1);
    assert_eq!(Assertion::GreaterThan(11, 10).distance(false), 0);
    assert_eq!(Assertion::GreaterThan(10, 10).distance(false), 1);
    assert_eq!(Assertion::GreaterThan(11, 10).distance(true), 1);
    assert_eq!(Assertion::GreaterThanOrEqual(10, 10).distance(false), 0);
    assert_eq!(Assertion::GreaterThanOrEqual(9, 10).distance(false), 1);
    assert_eq!(Assertion::GreaterThanOrEqual(9, 10).distance(true), 0);
    // Distances grow strictly with the operand gap.
    assert!(Assertion::LessThan(12, 3).distance(false) > Assertion::LessThan(11, 3).distance(false));
}

#[test]
fn scenario_snapshot_position_moves_out_of_scope() {
    let program = tx_scope_program();
    // Target 7 sits inside the transaction scope; 5 (just before the
    // scope opens) is the nearest scope-safe position.
    assert_eq!(find_valid_snapshot_position(&program, 7), Some(5));
    assert_eq!(find_valid_snapshot_position(&program, 0), Some(0));
    assert_eq!(find_valid_snapshot_position(&program, 10), Some(11));
    // The tie between 5 and 11 for target 8 goes to the smaller position.
    assert_eq!(find_valid_snapshot_position(&program, 8), Some(5));
    let empty = Program::unchecked_new(Context { num_nodes: 1 }, vec![]);
    assert_eq!(find_valid_snapshot_position(&empty, 0), None);
}

#[test]
fn scenario_replay_schedule_forces_deletion_last() {
    let stage = IncrementalSnapshotStage::new(true, SnapshotPlacementPolicy::Balanced, 3);
    let schedule = stage.replay_schedule();
    assert_eq!(
        schedule,
        vec![
            ReplayAction::RunInnerStage,
            ReplayAction::RunInnerStage,
            ReplayAction::RunRawWithDelete,
        ]
    );
}

#[test]
fn snapshot_stage_plans() {
    let program = tx_scope_program();

    let disabled = IncrementalSnapshotStage::new(false, SnapshotPlacementPolicy::Balanced, 3);
    let mut rng = ScriptedRng::new(vec![1]);
    assert_eq!(disabled.plan_iteration(&mut rng, &program), IterationPlan::Forward);

    let stage = IncrementalSnapshotStage::new(true, SnapshotPlacementPolicy::Balanced, 3);
    let empty = Program::unchecked_new(Context { num_nodes: 1 }, vec![]);
    let mut rng = ScriptedRng::new(vec![1]);
    assert_eq!(stage.plan_iteration(&mut rng, &empty), IterationPlan::Forward);

    // A zero word makes the escape coin come up: forward to the root
    // snapshot.
    let mut rng = ScriptedRng::new(vec![0]);
    assert_eq!(stage.plan_iteration(&mut rng, &program), IterationPlan::Forward);

    // A non-escaping roll plans a snapshot at a scope-safe position.
    let mut rng = ScriptedRng::new(vec![1, 1, 1]);
    match stage.plan_iteration(&mut rng, &program) {
        IterationPlan::TakeSnapshot { prefix_len } => {
            assert!(prefix_len <= 5 || prefix_len == 11);
        }
        other => panic!("expected a snapshot plan, got {:?}", other),
    }

    let mut rng = ScriptedRng::new(vec![7]);
    assert_eq!(stage.choose_position(&mut rng, 0), None);
    let mut rng = ScriptedRng::new(vec![7]);
    assert_eq!(stage.choose_position(&mut rng, 1), Some(0));
}

#[test]
fn scenario_stdout_round_trip() {
    let scope = AssertionScope::Sometimes(Assertion::LessThan(1, 2), b"peer count".to_vec());
    let line = assertion_stdout_line(&scope);
    let parsed = parse_assertions_from_stdout(&line);
    assert_eq!(parsed.len(), 1);
    assert_eq!(parsed[0].0, b"peer count".to_vec());
    assert_eq!(parsed[0].1.message(), b"peer count".to_vec());
    assert_eq!(parsed[0].1.distance(), 0);
    assert!(matches!(
        parsed[0].1,
        AssertionScope::Sometimes(Assertion::LessThan(1, 2), _)
    ));
}

#[test]
fn stdout_round_trip_with_escapes_and_noise() {
    let message = b"a \"quoted\\\" name\twith\nnewlines".to_vec();
    let scope = AssertionScope::Always(Assertion::GreaterThanOrEqual(7, 9), message.clone());
    let line = assertion_stdout_line(&scope);

    // Surround the envelope with probe lines, junk and blank lines; only
    // the assertion survives parsing.
    let mut buffer = Vec::new();
    buffer.extend_from_slice(b"plain log line\n");
    buffer.extend_from_slice(&stdout_message_line(&StdoutMessage::Probe(b"probe text".to_vec())));
    buffer.push(b'\n');
    buffer.extend_from_slice(b"\0\0  ");
    buffer.extend_from_slice(&line);
    buffer.extend_from_slice(b"  \0\n\n{\"Assertion\":\"not base64!!\"}\n");

    let parsed = parse_assertions_from_stdout(&buffer);
    assert_eq!(parsed.len(), 1);
    assert_eq!(parsed[0].0, message);
    assert!(matches!(
        parsed[0].1,
        AssertionScope::Always(Assertion::GreaterThanOrEqual(7, 9), _)
    ));
    // The Always scope fires: seven is indeed below nine.
    assert_eq!(parsed[0].1.distance(), 0);
}

#[test]
fn later_scope_replaces_earlier_record() {
    let s1 = AssertionScope::Sometimes(Assertion::LessThan(9, 3), b"k".to_vec());
    let s2 = AssertionScope::Sometimes(Assertion::LessThan(4, 3), b"k".to_vec());
    let mut buffer = assertion_stdout_line(&s1);
    buffer.push(b'\n');
    buffer.extend_from_slice(&assertion_stdout_line(&s2));
    let parsed = parse_assertions_from_stdout(&buffer);
    assert_eq!(parsed.len(), 1);
    assert_eq!(parsed[0].1.distance(), 2);
}

#[test]
fn scope_json_parses_back() {
    let scope = AssertionScope::Sometimes(Assertion::Condition(true), b"c".to_vec());
    let json = scope_json_bytes(&scope);
    assert_eq!(json, b"{\"sometimes\":[{\"condition\":true},\"c\"]}".to_vec());
    let back = parse_scope_json(&json).unwrap();
    assert!(matches!(back, AssertionScope::Sometimes(Assertion::Condition(true), _)));

    assert!(parse_scope_json(&b"{\"sometimes\":[{\"condition\":true},\"c\"]".to_vec()).is_none());
    assert!(parse_scope_json(&b"nonsense".to_vec()).is_none());
}

#[test]
fn probe_lines_parse_but_carry_no_assertion() {
    let line = stdout_message_line(&StdoutMessage::Probe(b"hello \"there\"".to_vec()));
    match parse_stdout_line(&line, 0, line.len()) {
        Some(StdoutMessage::Probe(text)) => assert_eq!(text, b"hello \"there\"".to_vec()),
        other => panic!("expected a probe, got {:?}", other),
    }
    assert!(parse_assertions_from_stdout(&line).is_empty());
}

#[test]
fn feedback_tracks_new_firings_and_improvements() {
    let mut feedback = AssertionFeedback::new();

    // A first sighting is always recorded when every scope counts.
    let far = AssertionScope::Sometimes(Assertion::LessThan(10, 3), b"m".to_vec());
    assert!(feedback.evaluate_assertion(far));

    // Same message, strictly smaller distance: interesting.
    let nearer = AssertionScope::Sometimes(Assertion::LessThan(5, 3), b"m".to_vec());
    assert!(feedback.evaluate_assertion(nearer));

    // No improvement: not interesting.
    let same = AssertionScope::Sometimes(Assertion::LessThan(5, 3), b"m".to_vec());
    assert!(!feedback.evaluate_assertion(same));

    // Newly firing: interesting.
    let firing = AssertionScope::Sometimes(Assertion::LessThan(1, 3), b"m".to_vec());
    assert!(feedback.evaluate_assertion(firing));
}

#[test]
fn feedback_only_always_ignores_sometimes() {
    let mut feedback = AssertionFeedback::new_only_always();
    let sometimes = AssertionScope::Sometimes(Assertion::Condition(true), b"s".to_vec());
    assert!(!feedback.evaluate_assertion(sometimes));

    // A non-firing Always is not recorded in only-always mode.
    let quiet = AssertionScope::Always(Assertion::LessThan(1, 3), b"a".to_vec());
    assert!(!feedback.evaluate_assertion(quiet));

    // A violated Always fires and is recorded.
    let violated = AssertionScope::Always(Assertion::LessThan(9, 3), b"a".to_vec());
    assert!(feedback.evaluate_assertion(violated));
}

#[test]
fn feedback_round_over_parsed_assertions() {
    let mut feedback = AssertionFeedback::new();
    let s1 = AssertionScope::Sometimes(Assertion::LessThan(9, 3), b"one".to_vec());
    let s2 = AssertionScope::Always(Assertion::Condition(true), b"two".to_vec());
    assert!(feedback.is_interesting(vec![s1, s2]));

    // Replaying the identical signals brings nothing new.
    let s1 = AssertionScope::Sometimes(Assertion::LessThan(9, 3), b"one".to_vec());
    let s2 = AssertionScope::Always(Assertion::Condition(true), b"two".to_vec());
    assert!(!feedback.is_interesting(vec![s1, s2]));
}
