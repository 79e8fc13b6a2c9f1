//! In-memory cache of currently valid session tokens.
//!
//! The cache is a set of opaque token strings, consulted on every inbound
//! message and rewritten wholesale by the reconciliation scheduler. It is a
//! performance-layer projection of the durable session store, never a second
//! source of truth. Callers that share it across tasks wrap it in a
//! reader/writer lock; every operation here is a pure in-memory step, so the
//! exclusive section of a swap never spans a network call.

use vstd::prelude::*;

verus! {

/// The set of token views held by a sequence of token strings.
pub open spec fn token_set(tokens: Seq<String>) -> Set<Seq<char>> {
    Set::new(|t: Seq<char>| exists|i: int| 0 <= i < tokens.len() && tokens[i]@ == t)
}

/// Set of currently valid session tokens, viewed as a `Set<Seq<char>>`.
pub struct SessionCache {
    tokens: Vec<String>,
}

impl View for SessionCache {
    type V = Set<Seq<char>>;

    closed spec fn view(&self) -> Set<Seq<char>> {
        token_set(self.tokens@)
    }
}

impl SessionCache {
    /// An empty cache; the process populates it from the durable store at start.
    pub fn new() -> (cache: Self)
        ensures
            cache@ == Set::<Seq<char>>::empty(),
    {
        let cache = SessionCache { tokens: Vec::new() };
        proof {
            assert(cache@ =~= Set::<Seq<char>>::empty());
        }
        cache
    }

    /// Membership check run on every inbound message.
    pub fn contains(&self, token: &str) -> (present: bool)
        ensures
            present == self@.contains(token@),
    {
        let sought: String = token.to_owned();
        let mut i: usize = 0;
        while i < self.tokens.len()
            invariant
                i <= self.tokens.len(),
                sought@ == token@,
                forall|j: int| 0 <= j < i ==> self.tokens@[j]@ != token@,
            decreases self.tokens.len() - i,
        {
            if self.tokens[i] == sought {
                proof {
                    assert(self.tokens@[i as int]@ == token@);
                }
                return true;
            }
            i = i + 1;
        }
        false
    }

    /// Adds a newly minted token; visible to every later `contains` call.
    pub fn insert(&mut self, token: String)
        ensures
            final(self)@ == old(self)@.insert(token@),
    {
        if !self.contains(token.as_str()) {
            let ghost before = self.tokens@;
            self.tokens.push(token);
            proof {
                assert forall|t: Seq<char>| #[trigger] self@.contains(t)
                    implies old(self)@.insert(token@).contains(t) by {
                    let i = choose|i: int| 0 <= i < self.tokens@.len() && self.tokens@[i]@ == t;
                    if i < before.len() {
                        assert(before[i]@ == t);
                    }
                }
                assert forall|t: Seq<char>| old(self)@.insert(token@).contains(t)
                    implies #[trigger] self@.contains(t) by {
                    if old(self)@.contains(t) {
                        let i = choose|i: int| 0 <= i < before.len() && before[i]@ == t;
                        assert(self.tokens@[i]@ == t);
                    } else {
                        assert(self.tokens@[before.len() as int]@ == t);
                    }
                }
                assert(self@ =~= old(self)@.insert(token@));
            }
        } else {
            proof {
                assert(self@ =~= old(self)@.insert(token@));
            }
        }
    }

    /// Drops a token on explicit logout; later `contains` calls return false.
    pub fn remove(&mut self, token: &str)
        ensures
            final(self)@ == old(self)@.remove(token@),
    {
        let sought: String = token.to_owned();
        let mut kept: Vec<String> = Vec::new();
        let mut i: usize = 0;
        while i < self.tokens.len()
            invariant
                i <= self.tokens.len(),
                sought@ == token@,
                self.tokens@ == old(self).tokens@,
                forall|j: int| 0 <= j < kept@.len() ==> #[trigger] kept@[j]@ != token@,
                forall|j: int| 0 <= j < kept@.len() ==> old(self)@.contains(#[trigger] kept@[j]@),
                forall|t: Seq<char>|
                    (exists|j: int| 0 <= j < i && self.tokens@[j]@ == t) && t != token@
                        ==> #[trigger] token_set(kept@).contains(t),
            decreases self.tokens.len() - i,
        {
            let ghost kept_before = kept@;
            if !(self.tokens[i] == sought) {
                let entry = self.tokens[i].clone();
                kept.push(entry);
                proof {
                    assert forall|t: Seq<char>|
                        (exists|j: int| 0 <= j < i + 1 && self.tokens@[j]@ == t) && t != token@
                            implies #[trigger] token_set(kept@).contains(t) by {
                        let j = choose|j: int| 0 <= j < i + 1 && self.tokens@[j]@ == t;
                        if j < i {
                            assert(token_set(kept_before).contains(t));
                            let k = choose|k: int|
                                0 <= k < kept_before.len() && kept_before[k]@ == t;
                            assert(kept@[k]@ == t);
                        } else {
                            assert(kept@[kept_before.len() as int]@ == t);
                        }
                    }
                }
            } else {
                proof {
                    assert forall|t: Seq<char>|
                        (exists|j: int| 0 <= j < i + 1 && self.tokens@[j]@ == t) && t != token@
                            implies #[trigger] token_set(kept@).contains(t) by {
                        let j = choose|j: int| 0 <= j < i + 1 && self.tokens@[j]@ == t;
                        assert(j < i);
                        assert(token_set(kept_before).contains(t));
                    }
                }
            }
            i = i + 1;
        }
        let ghost kept_view = kept@;
        proof {
            assert forall|t: Seq<char>| #[trigger] token_set(kept_view).contains(t)
                implies old(self)@.remove(token@).contains(t) by {
                let j = choose|j: int| 0 <= j < kept_view.len() && kept_view[j]@ == t;
                assert(kept_view[j]@ != token@);
                assert(old(self)@.contains(kept_view[j]@));
            }
            assert forall|t: Seq<char>| old(self)@.remove(token@).contains(t)
                implies #[trigger] token_set(kept_view).contains(t) by {
                let j = choose|j: int|
                    0 <= j < old(self).tokens@.len() && old(self).tokens@[j]@ == t;
                assert(exists|k: int| 0 <= k < i && self.tokens@[k]@ == t);
            }
        }
        self.tokens = kept;
        proof {
            assert(self@ =~= old(self)@.remove(token@));
        }
    }

    /// Atomic bulk swap used by the reconciliation scheduler.
    ///
    /// The resulting cache is exactly the fetched token set, whatever the
    /// cache held before: no merge of old and new entries, no partial state.
    /// A reader that runs under the same lock as this call therefore observes
    /// either the full old set or the full new one.
    pub fn replace_all(&mut self, tokens: Vec<String>)
        ensures
            final(self)@ == token_set(tokens@),
    {
        self.tokens = tokens;
    }
}

} // verus!
