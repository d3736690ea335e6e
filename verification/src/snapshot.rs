//! Scope-safe placement of incremental VM snapshots.
//!
//! Executing the common prefix of a program is expensive; freezing a VM
//! snapshot mid-program lets many mutated suffixes run from the frozen
//! state. A snapshot may only be taken where no `Begin*`/`End*` scope is
//! open, so the placement search moves the requested position to the
//! nearest scope-safe one.

use vstd::prelude::*;

use crate::program::{Instruction, Program};
use crate::rng::FuzzRng;

verus! {

/// The scope depth after the first `i` instructions: the number of `Begin*`
/// operations not yet closed by a matching-count `End*` (an `End*` at depth
/// zero leaves the depth at zero).
pub open spec fn scope_depth_at(instrs: Seq<Instruction>, i: int) -> nat
    decreases i,
{
    if i <= 0 {
        0
    } else {
        let d = scope_depth_at(instrs, i - 1);
        let op = instrs[i - 1].operation;
        if op.spec_is_block_begin() {
            d + 1
        } else if op.spec_is_block_end() {
            if d > 0 {
                (d - 1) as nat
            } else {
                0
            }
        } else {
            d
        }
    }
}

/// A position is snapshot-safe exactly when the scope depth there is zero;
/// the end-of-program position counts when the whole program leaves no
/// scope open.
pub open spec fn is_valid_snapshot_position(instrs: Seq<Instruction>, pos: int) -> bool {
    0 <= pos <= instrs.len() && scope_depth_at(instrs, pos) == 0
}

/// Absolute distance between two positions.
pub open spec fn pos_dist(a: int, b: int) -> int {
    if a >= b {
        a - b
    } else {
        b - a
    }
}

/// The best snapshot-safe position among those smaller than `n`: closest to
/// the target `t`, ties broken towards the smaller position (the sweep
/// visits positions in ascending order and replaces only on a strictly
/// smaller distance).
pub open spec fn best_position_upto(instrs: Seq<Instruction>, t: int, n: int) -> Option<int>
    decreases n,
{
    if n <= 0 {
        None
    } else {
        let prev = best_position_upto(instrs, t, n - 1);
        let cand = n - 1;
        if is_valid_snapshot_position(instrs, cand) {
            match prev {
                None => Some(cand),
                Some(b) => if pos_dist(cand, t) < pos_dist(b, t) {
                    Some(cand)
                } else {
                    Some(b)
                },
            }
        } else {
            prev
        }
    }
}

/// The position `find_valid_snapshot_position` chooses for a target: the
/// target is first clamped to the program length, then the closest
/// snapshot-safe position wins, ties towards the smaller one. An empty
/// program has no position.
pub open spec fn chosen_snapshot_position(instrs: Seq<Instruction>, target: int) -> Option<int> {
    if instrs.len() == 0 {
        None
    } else {
        let t = if target > instrs.len() {
            instrs.len() as int
        } else {
            target
        };
        best_position_upto(instrs, t, instrs.len() as int + 1)
    }
}

/// Find the snapshot-safe position closest to `target_pos`, sweeping the
/// positions in ascending order so that ties go to the smaller position.
pub fn find_valid_snapshot_position(program: &Program, target_pos: usize) -> (r: Option<usize>)
    ensures
        match r {
            None => chosen_snapshot_position(program.instructions@, target_pos as int) is None,
            Some(p) => chosen_snapshot_position(program.instructions@, target_pos as int) == Some(
                p as int,
            ),
        },
{
    let instrs = &program.instructions;
    let n = instrs.len();
    if n == 0 {
        return None;
    }
    let t: usize = if target_pos > n {
        n
    } else {
        target_pos
    };

    let mut depth: usize = 0;
    let mut best: Option<usize> = None;
    let mut i: usize = 0;
    while i < n
        invariant
            i <= n,
            n == instrs@.len(),
            instrs@ == program.instructions@,
            t <= n,
            depth == scope_depth_at(instrs@, i as int),
            depth <= i,
            match best {
                None => best_position_upto(instrs@, t as int, i as int) is None,
                Some(b) => best_position_upto(instrs@, t as int, i as int) == Some(b as int),
            },
        decreases n - i,
    {
        if depth == 0 {
            // Position i is snapshot-safe; keep it only if strictly closer.
            let d: usize = if i >= t {
                i - t
            } else {
                t - i
            };
            let replace = match best {
                None => true,
                Some(b) => {
                    let bd: usize = if b >= t {
                        b - t
                    } else {
                        t - b
                    };
                    d < bd
                },
            };
            if replace {
                best = Some(i);
            }
        }
        let op = &instrs[i].operation;
        if op.is_block_begin() {
            depth = depth + 1;
        } else if op.is_block_end() {
            if depth > 0 {
                depth = depth - 1;
            }
        }
        i = i + 1;
    }
    // The end-of-program position is safe when the whole program leaves no
    // scope open.
    if depth == 0 {
        let d: usize = n - t;
        let replace = match best {
            None => true,
            Some(b) => {
                let bd: usize = if b >= t {
                    b - t
                } else {
                    t - b
                };
                d < bd
            },
        };
        if replace {
            best = Some(n);
        }
    }
    assert(match best {
        None => best_position_upto(instrs@, t as int, n as int + 1) is None,
        Some(b) => best_position_upto(instrs@, t as int, n as int + 1) == Some(b as int),
    });
    best
}

/// Scope-safe snapshot placement is sound: any position the search returns
/// has scope depth zero (and in particular the end-of-program position is
/// only returned when the whole program is scope-balanced).
pub proof fn lemma_snapshot_position_sound(instrs: Seq<Instruction>, target: int)
    ensures
        match chosen_snapshot_position(instrs, target) {
            Some(p) => is_valid_snapshot_position(instrs, p),
            None => instrs.len() == 0,
        },
{
    if instrs.len() > 0 {
        let t = if target > instrs.len() {
            instrs.len() as int
        } else {
            target
        };
        lemma_best_sound(instrs, t, instrs.len() as int + 1);
        if best_position_upto(instrs, t, instrs.len() as int + 1) is None {
            assert(is_valid_snapshot_position(instrs, 0));
        }
    }
}

/// Scope-safe snapshot placement is complete: every position with scope
/// depth zero is chosen when it is itself the target.
pub proof fn lemma_snapshot_position_complete(instrs: Seq<Instruction>, p: int)
    requires
        is_valid_snapshot_position(instrs, p),
        instrs.len() > 0,
    ensures
        chosen_snapshot_position(instrs, p) == Some(p),
{
    lemma_best_minimal(instrs, p, instrs.len() as int + 1, p);
    lemma_best_sound(instrs, p, instrs.len() as int + 1);
    let r = best_position_upto(instrs, p, instrs.len() as int + 1);
    assert(r is Some);
    let b = r->Some_0;
    assert(pos_dist(b, p) <= pos_dist(p, p));
}

/// The chosen position is never farther from the target than any other
/// snapshot-safe position, and among equally distant ones it is the
/// smallest.
pub proof fn lemma_snapshot_position_closest(instrs: Seq<Instruction>, target: int, q: int)
    requires
        instrs.len() > 0,
        0 <= target <= instrs.len(),
        is_valid_snapshot_position(instrs, q),
    ensures
        chosen_snapshot_position(instrs, target) is Some,
        ({
            let p = chosen_snapshot_position(instrs, target)->Some_0;
            pos_dist(p, target) < pos_dist(q, target) || (pos_dist(p, target) == pos_dist(
                q,
                target,
            ) && p <= q)
        }),
{
    lemma_best_minimal(instrs, target, instrs.len() as int + 1, q);
}

/// Within the first `n` positions: if no best exists there is no safe
/// position, and a best is itself safe and below `n`.
proof fn lemma_best_sound(instrs: Seq<Instruction>, t: int, n: int)
    ensures
        match best_position_upto(instrs, t, n) {
            None => forall|q: int| 0 <= q < n ==> !is_valid_snapshot_position(instrs, q),
            Some(b) => 0 <= b < n && is_valid_snapshot_position(instrs, b),
        },
    decreases n,
{
    if n > 0 {
        lemma_best_sound(instrs, t, n - 1);
    }
}

/// The best among the first `n` positions is at least as close to the
/// target as any safe position among them, and the smallest such on a tie.
proof fn lemma_best_minimal(instrs: Seq<Instruction>, t: int, n: int, q: int)
    requires
        0 <= q < n,
        is_valid_snapshot_position(instrs, q),
    ensures
        best_position_upto(instrs, t, n) is Some,
        ({
            let b = best_position_upto(instrs, t, n)->Some_0;
            pos_dist(b, t) < pos_dist(q, t) || (pos_dist(b, t) == pos_dist(q, t) && b <= q)
        }),
    decreases n,
{
    if q < n - 1 {
        lemma_best_minimal(instrs, t, n - 1, q);
    } else {
        if n - 2 >= 0 {
            lemma_best_sound(instrs, t, n - 1);
        }
    }
}

/// The policy for choosing the raw target position of a snapshot.
#[derive(Clone, Copy, Debug, PartialEq, Eq, Structural)]
pub enum SnapshotPlacementPolicy {
    /// With equal probability, a uniform position in the first or in the
    /// second half of the program.
    Balanced,
}

/// What the scheduler decides to do with one fuzzing iteration.
#[derive(Clone, Copy, Debug, PartialEq, Eq, Structural)]
pub enum IterationPlan {
    /// Run the inner mutational stage directly, without an incremental
    /// snapshot (stage disabled, empty program, or the occasional
    /// root-snapshot escape).
    Forward,
    /// Abort the iteration: no scope-safe position exists.
    Abort,
    /// Freeze a snapshot after `prefix_len` instructions, then run the
    /// replay schedule.
    TakeSnapshot { prefix_len: usize },
}

/// One action of the replay loop that follows a taken snapshot.
#[derive(Clone, Copy, Debug, PartialEq, Eq, Structural)]
pub enum ReplayAction {
    /// Invoke the inner mutational stage once, reusing the snapshot.
    RunInnerStage,
    /// Set the delete-incremental-snapshot flag and run the target once on
    /// the raw current input, forcing the executor to drop the snapshot
    /// even if the inner stage would have returned early.
    RunRawWithDelete,
}

/// The decision core of the incremental snapshot scheduler. The outer
/// fuzzing loop asks it, once per iteration, where to freeze and how often
/// to reuse the frozen state; all executor and corpus plumbing stays with
/// the caller.
pub struct IncrementalSnapshotStage {
    pub enabled: bool,
    pub policy: SnapshotPlacementPolicy,
    pub max_reuse_count: usize,
}

impl IncrementalSnapshotStage {
    pub fn new(enabled: bool, policy: SnapshotPlacementPolicy, max_reuse_count: usize) -> (r:
        Self)
        ensures
            r.enabled == enabled,
            r.policy == policy,
            r.max_reuse_count == max_reuse_count,
    {
        IncrementalSnapshotStage { enabled, policy, max_reuse_count }
    }

    /// Choose the raw target position for the snapshot. For the `Balanced`
    /// policy: position 0 for a one-instruction program, otherwise a fair
    /// coin picks the first or the second half and the position is uniform
    /// within it.
    pub fn choose_position<R: FuzzRng>(&self, rng: &mut R, program_len: usize) -> (r: Option<
        usize,
    >)
        ensures
            r is Some <==> program_len > 0,
            r is Some ==> r->Some_0 < program_len,
            program_len == 1 ==> r == Some(0usize),
    {
        if program_len == 0 {
            return None;
        }
        match self.policy {
            SnapshotPlacementPolicy::Balanced => {
                if program_len == 1 {
                    Some(0)
                } else if rng.chance(1, 2) {
                    let half = if program_len / 2 > 1 {
                        program_len / 2
                    } else {
                        1
                    };
                    let p = rng.pick_range(0, (half - 1) as u64);
                    Some(p as usize)
                } else {
                    let half = program_len / 2;
                    let p = rng.pick_range(0, (program_len - half - 1) as u64);
                    Some(half + p as usize)
                }
            },
        }
    }

    /// Decide what to do with the current iteration: forward directly when
    /// the stage is disabled or the program is empty, occasionally escape
    /// to the root snapshot, and otherwise move the randomly chosen target
    /// to the nearest scope-safe position.
    pub fn plan_iteration<R: FuzzRng>(&self, rng: &mut R, program: &Program) -> (r: IterationPlan)
        ensures
            !self.enabled ==> r == IterationPlan::Forward,
            self.enabled && program.instructions@.len() == 0 ==> r == IterationPlan::Forward,
            r matches IterationPlan::TakeSnapshot { prefix_len } ==> self.enabled
                && program.instructions@.len() > 0 && is_valid_snapshot_position(
                program.instructions@,
                prefix_len as int,
            ),
            !(r is Abort),
    {
        if !self.enabled {
            return IterationPlan::Forward;
        }
        let program_len = program.instructions.len();
        if program_len == 0 {
            return IterationPlan::Forward;
        }
        // Escape to the root snapshot 4% of the time, so that mutations of
        // the program prefix are not starved.
        if rng.chance(1, 25) {
            return IterationPlan::Forward;
        }
        let target = match self.choose_position(rng, program_len) {
            Some(t) => t,
            None => { return IterationPlan::Forward },
        };
        match find_valid_snapshot_position(program, target) {
            Some(prefix_len) => {
                proof {
                    lemma_snapshot_position_sound(program.instructions@, target as int);
                }
                IterationPlan::TakeSnapshot { prefix_len }
            },
            None => {
                // A non-empty program always has the scope-safe position 0,
                // so the search cannot come back empty.
                proof {
                    assert(is_valid_snapshot_position(program.instructions@, 0));
                    lemma_snapshot_position_closest(program.instructions@, target as int, 0);
                }
                IterationPlan::Abort
            },
        }
    }

    /// The schedule of the replay loop after a snapshot is taken: the inner
    /// stage runs `max_reuse_count - 1` times, and the last reuse runs the
    /// raw input with the delete flag set so the snapshot is dropped even
    /// if the inner stage would have returned early.
    pub fn replay_schedule(&self) -> (r: Vec<ReplayAction>)
        ensures
            r@.len() == self.max_reuse_count,
            forall|i: int|
                0 <= i < r@.len() - 1 ==> r@[i] == ReplayAction::RunInnerStage,
            r@.len() > 0 ==> r@[r@.len() - 1] == ReplayAction::RunRawWithDelete,
    {
        let mut r: Vec<ReplayAction> = Vec::new();
        let mut i: usize = 0;
        while i < self.max_reuse_count
            invariant
                i <= self.max_reuse_count,
                r@.len() == i,
                forall|j: int| 0 <= j < i ==> r@[j] == ReplayAction::RunInnerStage,
            decreases self.max_reuse_count - i,
        {
            r.push(ReplayAction::RunInnerStage);
            i = i + 1;
        }
        if r.len() > 0 {
            let last = r.len() - 1;
            r[last] = ReplayAction::RunRawWithDelete;
        }
        r
    }
}

} // verus!
