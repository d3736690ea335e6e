//! Assertion feedback: deciding when an execution's assertions are
//! interesting.
//!
//! The fuzzer keeps, per assertion message, the best scope seen so far. A
//! newly observed scope is interesting when it newly fires, or when its
//! distance strictly improves on the best one recorded — that signal is
//! what lets the outer engine add the input to the corpus.

use vstd::prelude::*;

use crate::assertions::{spec_scope_distance, spec_scope_message, AssertionScope};

verus! {

/// The scope recorded under `key`, if any: the first entry whose message
/// bytes equal the key.
pub open spec fn lookup_spec(
    entries: Seq<(Seq<u8>, AssertionScope)>,
    key: Seq<u8>,
) -> Option<AssertionScope>
    decreases entries.len(),
{
    if entries.len() == 0 {
        None
    } else if entries[0].0 == key {
        Some(entries[0].1)
    } else {
        lookup_spec(entries.drop_first(), key)
    }
}

/// The entries with `scope` recorded under `key`: the first entry carrying
/// the key is replaced, or a fresh entry is appended when none carries it.
pub open spec fn store_spec(
    entries: Seq<(Seq<u8>, AssertionScope)>,
    key: Seq<u8>,
    scope: AssertionScope,
) -> Seq<(Seq<u8>, AssertionScope)>
    decreases entries.len(),
{
    if entries.len() == 0 {
        seq![(key, scope)]
    } else if entries[0].0 == key {
        seq![(key, scope)] + entries.drop_first()
    } else {
        seq![entries[0]] + store_spec(entries.drop_first(), key, scope)
    }
}

/// Whether a newly observed scope is interesting against the recorded one:
/// with no record, any firing scope (and, unless only `Always` scopes are
/// tracked, any scope at all); against a record, a fresh firing or a
/// strictly smaller distance.
pub open spec fn spec_interesting(
    previous: Option<AssertionScope>,
    new: AssertionScope,
    only_always: bool,
) -> bool {
    if only_always && new matches AssertionScope::Sometimes(_, _) {
        false
    } else {
        match previous {
            None => spec_scope_distance(new) == 0 || !only_always,
            Some(prev) => (spec_scope_distance(prev) != 0 && spec_scope_distance(new) == 0) || (
            spec_scope_distance(prev) > spec_scope_distance(new)),
        }
    }
}

/// The recorded entries after one whole round: each scope of `parsed`, in
/// order, is stored under its message exactly when it is interesting
/// against the entries accumulated so far.
pub open spec fn round_entries(
    entries: Seq<(Seq<u8>, AssertionScope)>,
    parsed: Seq<AssertionScope>,
    only_always: bool,
) -> Seq<(Seq<u8>, AssertionScope)>
    decreases parsed.len(),
{
    if parsed.len() == 0 {
        entries
    } else {
        let s = parsed[0];
        if spec_interesting(lookup_spec(entries, spec_scope_message(s)), s, only_always) {
            round_entries(
                store_spec(entries, spec_scope_message(s), s),
                parsed.drop_first(),
                only_always,
            )
        } else {
            round_entries(entries, parsed.drop_first(), only_always)
        }
    }
}

/// The messages updated during one whole round, in the order the
/// interesting scopes of `parsed` were recorded.
pub open spec fn round_updates(
    entries: Seq<(Seq<u8>, AssertionScope)>,
    parsed: Seq<AssertionScope>,
    only_always: bool,
) -> Seq<Seq<u8>>
    decreases parsed.len(),
{
    if parsed.len() == 0 {
        Seq::empty()
    } else {
        let s = parsed[0];
        if spec_interesting(lookup_spec(entries, spec_scope_message(s)), s, only_always) {
            seq![spec_scope_message(s)] + round_updates(
                store_spec(entries, spec_scope_message(s), s),
                parsed.drop_first(),
                only_always,
            )
        } else {
            round_updates(entries, parsed.drop_first(), only_always)
        }
    }
}

/// The feedback state: the best scope seen per message, the messages
/// updated by the last evaluation round, and whether only `Always` scopes
/// count.
pub struct AssertionFeedback {
    assertions: Vec<(Vec<u8>, AssertionScope)>,
    last_assertion_updates: Vec<Vec<u8>>,
    only_always_assertions: bool,
}

impl AssertionFeedback {
    /// The recorded map, as an association list of message bytes and
    /// scopes.
    pub closed spec fn entries(self) -> Seq<(Seq<u8>, AssertionScope)> {
        Seq::new(self.assertions@.len(), |i: int| (self.assertions@[i].0@, self.assertions@[i].1))
    }

    /// The messages updated by the last round.
    pub closed spec fn updates(self) -> Seq<Seq<u8>> {
        Seq::new(self.last_assertion_updates@.len(), |i: int| self.last_assertion_updates@[i]@)
    }

    pub closed spec fn spec_only_always(self) -> bool {
        self.only_always_assertions
    }

    /// Track every scope.
    pub fn new() -> (r: AssertionFeedback)
        ensures
            r.entries() =~= Seq::<(Seq<u8>, AssertionScope)>::empty(),
            r.updates() =~= Seq::<Seq<u8>>::empty(),
            !r.spec_only_always(),
    {
        AssertionFeedback {
            assertions: Vec::new(),
            last_assertion_updates: Vec::new(),
            only_always_assertions: false,
        }
    }

    /// Track only `Always` scopes, whose firing means a violation.
    pub fn new_only_always() -> (r: AssertionFeedback)
        ensures
            r.entries() =~= Seq::<(Seq<u8>, AssertionScope)>::empty(),
            r.updates() =~= Seq::<Seq<u8>>::empty(),
            r.spec_only_always(),
    {
        AssertionFeedback {
            assertions: Vec::new(),
            last_assertion_updates: Vec::new(),
            only_always_assertions: true,
        }
    }

    /// The index of the entry recorded under `key`, which also witnesses
    /// the spec-level lookup.
    fn find_entry(&self, key: &Vec<u8>) -> (r: Option<usize>)
        ensures
            match r {
                Some(i) => i < self.entries().len() && self.entries()[i as int].0 == key@
                    && lookup_spec(self.entries(), key@) == Some(self.entries()[i as int].1)
                    && forall|k: int| 0 <= k < i ==> (#[trigger] self.entries()[k]).0 != key@,
                None => lookup_spec(self.entries(), key@) is None,
            },
    {
        proof {
            assert(self.entries().skip(0) =~= self.entries());
        }
        let mut i: usize = 0;
        while i < self.assertions.len()
            invariant
                i <= self.assertions@.len(),
                self.entries().len() == self.assertions@.len(),
                lookup_spec(self.entries(), key@) == lookup_spec(
                    self.entries().skip(i as int),
                    key@,
                ),
                forall|k: int| 0 <= k < i ==> (#[trigger] self.entries()[k]).0 != key@,
            decreases self.assertions@.len() - i,
        {
            proof {
                assert(self.entries().skip(i as int)[0] == self.entries()[i as int]);
                assert(self.entries().skip(i as int).drop_first() =~= self.entries().skip(
                    i as int + 1,
                ));
            }
            let entry_key = &self.assertions[i].0;
            if bytes_equal(entry_key, key) {
                assert(lookup_spec(self.entries().skip(i as int), key@) == Some(
                    self.entries()[i as int].1,
                ));
                return Some(i);
            }
            i = i + 1;
        }
        None
    }

    /// Record `new` if it is interesting against the stored scope for its
    /// message, and say whether it was. On an interesting scope the entry
    /// under the message is replaced (or created) and the message is noted
    /// as updated; otherwise nothing changes.
    pub fn evaluate_assertion(&mut self, new: AssertionScope) -> (r: bool)
        ensures
            r == spec_interesting(
                lookup_spec(old(self).entries(), spec_scope_message(new)),
                new,
                old(self).spec_only_always(),
            ),
            final(self).spec_only_always() == old(self).spec_only_always(),
            r ==> final(self).entries() == store_spec(
                old(self).entries(),
                spec_scope_message(new),
                new,
            ) && final(self).updates() == old(self).updates().push(spec_scope_message(new)),
            !r ==> final(self).entries() == old(self).entries() && final(self).updates() == old(
                self,
            ).updates(),
    {
        if self.only_always_assertions {
            let is_sometimes = match &new {
                AssertionScope::Sometimes(_, _) => true,
                AssertionScope::Always(_, _) => false,
            };
            if is_sometimes {
                return false;
            }
        }

        let message = new.message();
        let interesting = match self.find_entry(&message) {
            None => new.distance() == 0 || !self.only_always_assertions,
            Some(i) => {
                let prev = &self.assertions[i].1;
                (prev.distance() != 0 && new.distance() == 0) || prev.distance() > new.distance()
            },
        };

        if interesting {
            let key_copy = new.message();
            self.last_assertion_updates.push(new.message());
            proof {
                assert(self.updates() =~= old(self).updates().push(spec_scope_message(new)));
            }
            match self.find_entry(&key_copy) {
                Some(i) => {
                    self.assertions[i] = (key_copy, new);
                    proof {
                        lemma_store_is_update(old(self).entries(), i as int, key_copy@, new);
                        assert(self.entries() =~= old(self).entries().update(
                            i as int,
                            (key_copy@, new),
                        ));
                    }
                },
                None => {
                    self.assertions.push((key_copy, new));
                    proof {
                        lemma_store_is_push(old(self).entries(), key_copy@, new);
                        assert(self.entries() =~= old(self).entries().push((key_copy@, new)));
                    }
                },
            }
        }
        interesting
    }

    /// Feed one execution's parsed assertions through the tracker: the
    /// update list is cleared first and afterwards holds exactly the
    /// messages of this round's interesting scopes, in order; the entries
    /// are the fold of storing each interesting scope under its message.
    /// The round is interesting exactly when at least one scope updated the
    /// map.
    pub fn is_interesting(&mut self, parsed: Vec<AssertionScope>) -> (r: bool)
        ensures
            final(self).spec_only_always() == old(self).spec_only_always(),
            final(self).entries() == round_entries(
                old(self).entries(),
                parsed@,
                old(self).spec_only_always(),
            ),
            final(self).updates() == round_updates(
                old(self).entries(),
                parsed@,
                old(self).spec_only_always(),
            ),
            r == (final(self).updates().len() > 0),
    {
        let ghost entries0 = old(self).entries();
        let ghost parsed0 = parsed@;
        let ghost oa = old(self).spec_only_always();
        self.last_assertion_updates = Vec::new();
        proof {
            assert(self.updates() =~= Seq::<Seq<u8>>::empty());
        }
        let mut interesting = false;
        let mut parsed = parsed;
        while parsed.len() > 0
            invariant
                self.spec_only_always() == oa,
                round_entries(entries0, parsed0, oa) == round_entries(
                    self.entries(),
                    parsed@,
                    oa,
                ),
                round_updates(entries0, parsed0, oa) == self.updates() + round_updates(
                    self.entries(),
                    parsed@,
                    oa,
                ),
                interesting == (self.updates().len() > 0),
            decreases parsed@.len(),
        {
            let ghost pre_entries = self.entries();
            let ghost pre_updates = self.updates();
            let ghost pre_parsed = parsed@;
            let scope = parsed.remove(0);
            proof {
                assert(parsed@ =~= pre_parsed.drop_first());
            }
            let one = self.evaluate_assertion(scope);
            proof {
                if one {
                    assert(round_updates(pre_entries, pre_parsed, oa) =~= seq![
                        spec_scope_message(scope),
                    ] + round_updates(self.entries(), parsed@, oa));
                    assert(pre_updates + (seq![spec_scope_message(scope)] + round_updates(
                        self.entries(),
                        parsed@,
                        oa,
                    )) =~= self.updates() + round_updates(self.entries(), parsed@, oa));
                }
            }
            interesting = interesting || one;
        }
        proof {
            assert(round_entries(self.entries(), parsed@, oa) == self.entries());
            assert(self.updates() + round_updates(self.entries(), parsed@, oa) =~= self.updates());
        }
        interesting
    }
}

/// Whether two byte vectors hold the same bytes.
fn bytes_equal(a: &Vec<u8>, b: &Vec<u8>) -> (r: bool)
    ensures
        r == (a@ == b@),
{
    if a.len() != b.len() {
        return false;
    }
    let mut i: usize = 0;
    while i < a.len()
        invariant
            i <= a@.len(),
            a@.len() == b@.len(),
            forall|k: int| 0 <= k < i ==> a@[k] == b@[k],
        decreases a@.len() - i,
    {
        if a[i] != b[i] {
            return false;
        }
        i = i + 1;
    }
    proof {
        assert(a@ =~= b@);
    }
    true
}

/// Storing under a key recorded first at index `i` replaces exactly that
/// entry.
proof fn lemma_store_is_update(
    pre: Seq<(Seq<u8>, AssertionScope)>,
    i: int,
    key: Seq<u8>,
    scope: AssertionScope,
)
    requires
        0 <= i < pre.len(),
        forall|k: int| 0 <= k < i ==> (#[trigger] pre[k]).0 != key,
        pre[i].0 == key,
    ensures
        store_spec(pre, key, scope) =~= pre.update(i, (key, scope)),
    decreases i,
{
    if i == 0 {
        assert(store_spec(pre, key, scope) =~= seq![(key, scope)] + pre.drop_first());
    } else {
        lemma_store_is_update(pre.drop_first(), i - 1, key, scope);
        assert(pre.drop_first().update(i - 1, (key, scope)) =~= pre.update(
            i,
            (key, scope),
        ).drop_first());
    }
}

/// Storing under an absent key appends a fresh entry.
proof fn lemma_store_is_push(
    pre: Seq<(Seq<u8>, AssertionScope)>,
    key: Seq<u8>,
    scope: AssertionScope,
)
    requires
        lookup_spec(pre, key) is None,
    ensures
        store_spec(pre, key, scope) =~= pre.push((key, scope)),
    decreases pre.len(),
{
    if pre.len() > 0 {
        lemma_store_is_push(pre.drop_first(), key, scope);
        assert(pre.drop_first().push((key, scope)) =~= pre.push((key, scope)).drop_first());
    }
}

/// The lookup after a store finds what was stored.
pub proof fn lemma_lookup_store(
    entries: Seq<(Seq<u8>, AssertionScope)>,
    key: Seq<u8>,
    scope: AssertionScope,
)
    ensures
        lookup_spec(store_spec(entries, key, scope), key) == Some(scope),
    decreases entries.len(),
{
    if entries.len() == 0 {
    } else if entries[0].0 == key {
        assert(store_spec(entries, key, scope)[0] == (key, scope));
    } else {
        lemma_lookup_store(entries.drop_first(), key, scope);
        let post = store_spec(entries, key, scope);
        assert(post[0] == entries[0]);
        assert(post.drop_first() =~= store_spec(entries.drop_first(), key, scope));
    }
}

} // verus!
