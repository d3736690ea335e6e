//! Target-emitted assertions and their branch distances.
//!
//! A target reports directional checks on stdout. A `Sometimes` scope fires
//! when its condition is true; an `Always` scope fires when its condition
//! is violated. Each check exposes a distance that is zero exactly when it
//! fires and otherwise measures, by the standard branch-distance formulas,
//! how far the operands are from making it fire.

use vstd::prelude::*;

verus! {

/// A directional check over booleans or 64-bit operands.
#[derive(Clone, Debug, PartialEq, Eq, Structural)]
pub enum Assertion {
    Condition(bool),
    LessThan(u64, u64),
    LessThanOrEqual(u64, u64),
    GreaterThan(u64, u64),
    GreaterThanOrEqual(u64, u64),
}

/// Whether the assertion (inverted: its negation) holds of its operands.
pub open spec fn spec_holds(a: Assertion, inverted: bool) -> bool {
    match a {
        Assertion::Condition(value) => value != inverted,
        Assertion::LessThan(x, y) => if inverted {
            x >= y
        } else {
            x < y
        },
        Assertion::LessThanOrEqual(x, y) => if inverted {
            x > y
        } else {
            x <= y
        },
        Assertion::GreaterThan(x, y) => if inverted {
            x <= y
        } else {
            x > y
        },
        Assertion::GreaterThanOrEqual(x, y) => if inverted {
            x < y
        } else {
            x >= y
        },
    }
}

/// The exact branch distance, as an unbounded integer: zero when the
/// (possibly inverted) assertion holds, else the standard formulas
/// (`a < b` gives `a - b + 1`, `a <= b` gives `a - b`, and symmetrically).
pub open spec fn spec_distance_exact(a: Assertion, inverted: bool) -> int {
    match a {
        Assertion::Condition(value) => if value == inverted {
            1
        } else {
            0
        },
        Assertion::LessThan(x, y) => if inverted {
            if x >= y {
                0
            } else {
                y - x
            }
        } else {
            if x < y {
                0
            } else {
                x - y + 1
            }
        },
        Assertion::LessThanOrEqual(x, y) => if inverted {
            if x > y {
                0
            } else {
                y - x + 1
            }
        } else {
            if x <= y {
                0
            } else {
                x - y
            }
        },
        Assertion::GreaterThan(x, y) => if inverted {
            if x <= y {
                0
            } else {
                x - y
            }
        } else {
            if x > y {
                0
            } else {
                y - x + 1
            }
        },
        Assertion::GreaterThanOrEqual(x, y) => if inverted {
            if x < y {
                0
            } else {
                x - y + 1
            }
        } else {
            if x >= y {
                0
            } else {
                y - x
            }
        },
    }
}

/// The distance as computed: the exact distance, saturated at `u64::MAX`.
/// Only the single pair where a `+ 1` lands one past `u64::MAX` saturates.
pub open spec fn spec_distance(a: Assertion, inverted: bool) -> int {
    if spec_distance_exact(a, inverted) > u64::MAX {
        u64::MAX as int
    } else {
        spec_distance_exact(a, inverted)
    }
}

impl Assertion {
    /// How far the assertion is from holding (or, inverted, from being
    /// violated): zero exactly when it does, and otherwise a positive
    /// measure of the gap between the operands.
    #[must_use]
    pub fn distance(&self, inverted: bool) -> (r: u64)
        ensures
            r == spec_distance(*self, inverted),
    {
        match self {
            Assertion::Condition(value) => if *value == inverted {
                1
            } else {
                0
            },
            Assertion::LessThan(a, b) => {
                if inverted {
                    if *a >= *b {
                        0
                    } else {
                        *b - *a
                    }
                } else {
                    if *a < *b {
                        0
                    } else {
                        // The formula is a - b + 1; it exceeds the 64-bit
                        // range only for the single extreme operand pair,
                        // where the distance saturates.
                        if *a - *b < u64::MAX {
                            *a - *b + 1
                        } else {
                            u64::MAX
                        }
                    }
                }
            },
            Assertion::LessThanOrEqual(a, b) => {
                if inverted {
                    if *a > *b {
                        0
                    } else {
                        if *b - *a < u64::MAX {
                            *b - *a + 1
                        } else {
                            u64::MAX
                        }
                    }
                } else {
                    if *a <= *b {
                        0
                    } else {
                        *a - *b
                    }
                }
            },
            Assertion::GreaterThan(a, b) => {
                if inverted {
                    if *a <= *b {
                        0
                    } else {
                        *a - *b
                    }
                } else {
                    if *a > *b {
                        0
                    } else {
                        if *b - *a < u64::MAX {
                            *b - *a + 1
                        } else {
                            u64::MAX
                        }
                    }
                }
            },
            Assertion::GreaterThanOrEqual(a, b) => {
                if inverted {
                    if *a < *b {
                        0
                    } else {
                        if *a - *b < u64::MAX {
                            *a - *b + 1
                        } else {
                            u64::MAX
                        }
                    }
                } else {
                    if *a >= *b {
                        0
                    } else {
                        *b - *a
                    }
                }
            },
        }
    }
}

/// A target-emitted check with its direction and a message that keys it in
/// the feedback map. `Sometimes` fires when the inner assertion is true;
/// `Always` fires when it is violated.
#[derive(Clone, Debug)]
pub enum AssertionScope {
    Sometimes(Assertion, Vec<u8>),
    Always(Assertion, Vec<u8>),
}

/// The scope's distance: for `Sometimes` the plain distance of the inner
/// assertion, for `Always` the inverted one.
pub open spec fn spec_scope_distance(s: AssertionScope) -> int {
    match s {
        AssertionScope::Sometimes(a, _) => spec_distance(a, false),
        AssertionScope::Always(a, _) => spec_distance(a, true),
    }
}

/// The message bytes of a scope.
pub open spec fn spec_scope_message(s: AssertionScope) -> Seq<u8> {
    match s {
        AssertionScope::Sometimes(_, m) => m@,
        AssertionScope::Always(_, m) => m@,
    }
}

/// What `evaluate` reports: whether the inner condition itself holds of its
/// operands. For a `Sometimes` scope that coincides with firing; an `Always`
/// scope evaluates to false exactly on a violation, which is when it fires.
pub open spec fn spec_scope_evaluate(s: AssertionScope) -> bool {
    match s {
        AssertionScope::Sometimes(a, _) => spec_holds(a, false),
        AssertionScope::Always(a, _) => spec_holds(a, false),
    }
}

impl AssertionScope {
    /// The distance of the scope towards firing.
    #[must_use]
    pub fn distance(&self) -> (r: u64)
        ensures
            r == spec_scope_distance(*self),
    {
        match self {
            AssertionScope::Sometimes(assertion, _) => assertion.distance(false),
            AssertionScope::Always(assertion, _) => assertion.distance(true),
        }
    }

    /// Whether the inner condition holds of its operands. A `Sometimes`
    /// scope evaluates to true exactly when it fires; an `Always` scope
    /// evaluates to false exactly when it is violated, which is when it
    /// fires.
    #[must_use]
    pub fn evaluate(&self) -> (r: bool)
        ensures
            r == spec_scope_evaluate(*self),
    {
        match self {
            AssertionScope::Sometimes(assertion, _) => {
                proof {
                    lemma_distance_zero_iff_holds(*assertion, false);
                }
                assertion.distance(false) == 0
            },
            AssertionScope::Always(assertion, _) => {
                proof {
                    lemma_distance_zero_iff_holds(*assertion, true);
                }
                assertion.distance(true) != 0
            },
        }
    }

    /// The message bytes that key this scope.
    #[must_use]
    pub fn message(&self) -> (r: Vec<u8>)
        ensures
            r@ == spec_scope_message(*self),
    {
        match self {
            AssertionScope::Sometimes(_, msg) | AssertionScope::Always(_, msg) => {
                let mut r: Vec<u8> = Vec::new();
                let mut i: usize = 0;
                while i < msg.len()
                    invariant
                        i <= msg@.len(),
                        r@ =~= msg@.take(i as int),
                    decreases msg@.len() - i,
                {
                    r.push(msg[i]);
                    i = i + 1;
                }
                assert(r@ =~= msg@);
                r
            },
        }
    }
}

/// Whether two assertions are the same kind of comparison.
pub open spec fn same_comparison(a1: Assertion, a2: Assertion) -> bool {
    match (a1, a2) {
        (Assertion::Condition(_), Assertion::Condition(_)) => true,
        (Assertion::LessThan(_, _), Assertion::LessThan(_, _)) => true,
        (Assertion::LessThanOrEqual(_, _), Assertion::LessThanOrEqual(_, _)) => true,
        (Assertion::GreaterThan(_, _), Assertion::GreaterThan(_, _)) => true,
        (Assertion::GreaterThanOrEqual(_, _), Assertion::GreaterThanOrEqual(_, _)) => true,
        _ => false,
    }
}

/// The signed gap between the operands, oriented so that larger means
/// farther from firing: for `LessThan(a, b)` non-inverted it is `a - b`,
/// inverted `b - a`, and symmetrically for the other comparisons.
pub open spec fn spec_gap(a: Assertion, inverted: bool) -> int {
    match a {
        Assertion::Condition(value) => if value == inverted {
            1
        } else {
            0
        },
        Assertion::LessThan(x, y) | Assertion::LessThanOrEqual(x, y) => if inverted {
            y - x
        } else {
            x - y
        },
        Assertion::GreaterThan(x, y) | Assertion::GreaterThanOrEqual(x, y) => if inverted {
            x - y
        } else {
            y - x
        },
    }
}

/// Distance is zero exactly when the (possibly inverted) assertion holds,
/// and strictly positive otherwise.
pub proof fn lemma_distance_zero_iff_holds(a: Assertion, inverted: bool)
    ensures
        spec_distance(a, inverted) == 0 <==> spec_holds(a, inverted),
        !spec_holds(a, inverted) ==> spec_distance(a, inverted) > 0,
{
}

/// Distance monotonicity: between two assertions of the same comparison
/// kind, the one with the larger operand gap is strictly farther from
/// firing, as long as the farther one does not hold and its distance does
/// not saturate the 64-bit range.
pub proof fn lemma_distance_monotone(a1: Assertion, a2: Assertion, inverted: bool)
    requires
        same_comparison(a1, a2),
        spec_gap(a1, inverted) < spec_gap(a2, inverted),
        !spec_holds(a2, inverted),
        spec_distance_exact(a2, inverted) <= u64::MAX,
    ensures
        spec_distance(a1, inverted) < spec_distance(a2, inverted),
{
}

} // verus!
