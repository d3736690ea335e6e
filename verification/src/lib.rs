//! A verified core for a coverage-guided fuzzer of Bitcoin peer-to-peer
//! implementations.
//!
//! The heart of the crate is a typed intermediate representation (IR) of
//! fuzz programs: linear lists of instructions whose inputs are indices into
//! the positional outputs of earlier instructions, together with a validator,
//! an append-only builder, generators and mutators that keep programs
//! type-correct, a deterministic byte codec, the scope-safe placement logic
//! for incremental VM snapshots, and the assertion/feedback signals parsed
//! from target stdout.

pub mod assertions;
pub mod b64;
pub mod builder;
pub mod codec;
pub mod feedback;
pub mod generators;
pub mod input;
pub mod mutators;
pub mod operation;
pub mod program;
pub mod rng;
pub mod snapshot;
pub mod stdout;
pub mod variable;

pub use assertions::{Assertion, AssertionScope};
pub use operation::{Operation, ScopeKind};
pub use program::{Context, Instruction, Program, ProgramValidationError};
pub use snapshot::{IncrementalSnapshotStage, SnapshotPlacementPolicy};
pub use variable::Variable;
