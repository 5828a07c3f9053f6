use vstd::prelude::*;
use crate::node_ref::{
    key_lt, lemma_key_lt_irreflexive, lemma_key_lt_total, lemma_key_lt_transitive, NodeRef,
    RefKey,
};

verus! {

/// The keys are strictly increasing in the canonical order (hence distinct).
pub open spec fn sorted_keys(s: Seq<RefKey>) -> bool {
    forall|i: int, j: int| 0 <= i < j < s.len() ==> key_lt(#[trigger] s[i], #[trigger] s[j])
}

/// A set of references, kept in the canonical order.
#[derive(Debug)]
pub struct RefSet<R> {
    items: Vec<R>,
}

impl<R: NodeRef> RefSet<R> {
    /// The keys of the members, in the order in which they are stored.
    pub closed spec fn keys(&self) -> Seq<RefKey> {
        self.items@.map_values(|r: R| r.key())
    }

    /// The members as a mathematical set.
    pub open spec fn key_set(&self) -> Set<RefKey> {
        Set::new(|k: RefKey| self.keys().contains(k))
    }

    pub open spec fn wf(&self) -> bool {
        sorted_keys(self.keys())
    }

    /// Creates an empty set.
    pub fn new() -> (r: Self)
        ensures
            r.wf(),
            r.keys() == Seq::<RefKey>::empty(),
    {
        let r = RefSet { items: Vec::new() };
        assert(r.keys() =~= Seq::<RefKey>::empty());
        r
    }

    /// The number of members.
    pub fn len(&self) -> (r: usize)
        ensures
            r == self.keys().len(),
    {
        self.items.len()
    }

    /// Whether the set has no member.
    pub fn is_empty(&self) -> (r: bool)
        ensures
            r == (self.keys().len() == 0),
    {
        self.items.len() == 0
    }

    /// The member at position `i` in the canonical order.
    pub fn get(&self, i: usize) -> (r: &R)
        requires
            i < self.keys().len(),
        ensures
            r.key() == self.keys()[i as int],
    {
        &self.items[i]
    }

    /// Whether `reference` is a member.
    pub fn contains(&self, reference: &R) -> (r: bool)
        ensures
            r == self.keys().contains(reference.key()),
    {
        let mut i: usize = 0;
        while i < self.items.len()
            invariant
                i <= self.items@.len(),
                forall|j: int| 0 <= j < i ==> self.keys()[j] != reference.key(),
            decreases self.items@.len() - i,
        {
            if self.get(i).same_key(reference) {
                return true;
            }
            i = i + 1;
        }
        assert(!self.keys().contains(reference.key())) by {
            if self.keys().contains(reference.key()) {
                let j = choose|j: int| 0 <= j < self.keys().len() && self.keys()[j] == reference.key();
            }
        }
        false
    }

    /// Inserts `reference` at its place in the canonical order.
    /// Returns whether it was not a member before.
    pub fn insert(&mut self, reference: R) -> (inserted: bool)
        requires
            old(self).wf(),
        ensures
            final(self).wf(),
            inserted == !old(self).keys().contains(reference.key()),
            final(self).key_set() == old(self).key_set().insert(reference.key()),
            !inserted ==> final(self).keys() == old(self).keys(),
    {
        let ghost k = reference.key();
        let ghost s = self.keys();
        let mut i: usize = 0;
        while i < self.items.len() && !reference.less_than(self.get(i))
            invariant
                self.keys() == s,
                old(self).keys() == s,
                k == reference.key(),
                sorted_keys(s),
                i <= s.len(),
                forall|j: int| 0 <= j < i ==> key_lt(#[trigger] s[j], k),
            decreases s.len() - i,
        {
            if self.get(i).same_key(&reference) {
                assert(s[i as int] == k);
                assert(s.contains(k));
                return false;
            }
            proof {
                lemma_key_lt_total(s[i as int], k);
            }
            i = i + 1;
        }
        proof {
            assert forall|j: int| i <= j < s.len() implies key_lt(k, #[trigger] s[j]) by {
                if j > i {
                    lemma_key_lt_transitive(k, s[i as int], s[j]);
                }
            }
            assert forall|j: int| 0 <= j < s.len() implies #[trigger] s[j] != k by {
                if j < i {
                    lemma_key_lt_irreflexive(k);
                } else {
                    lemma_key_lt_irreflexive(k);
                }
            }
        }
        self.items.insert(i, reference);
        proof {
            let t = self.keys();
            assert(t =~= s.insert(i as int, k));
            assert(sorted_keys(t)) by {
                assert forall|a: int, b: int| 0 <= a < b < t.len() implies key_lt(
                    #[trigger] t[a],
                    #[trigger] t[b],
                ) by {
                    if b < i {
                    } else if b == i {
                    } else if a < i {
                        lemma_key_lt_transitive(s[a], k, s[b - 1]);
                    } else if a == i {
                    } else {
                    }
                }
            }
            assert(self.key_set() =~= old(self).key_set().insert(k)) by {
                assert forall|x: RefKey| #[trigger] t.contains(x) <==> (s.contains(x) || x == k) by {
                    if t.contains(x) {
                        let a = choose|a: int| 0 <= a < t.len() && t[a] == x;
                        if a < i {
                            assert(s[a] == x);
                        } else if a > i {
                            assert(s[a - 1] == x);
                        }
                    }
                    if s.contains(x) {
                        let a = choose|a: int| 0 <= a < s.len() && s[a] == x;
                        if a < i {
                            assert(t[a] == x);
                        } else {
                            assert(t[a + 1] == x);
                        }
                    }
                    if x == k {
                        assert(t[i as int] == x);
                    }
                }
            }
            assert(!s.contains(k));
        }
        true
    }

    /// Removes `reference` if it is a member. Returns whether it was one.
    pub fn remove(&mut self, reference: &R) -> (removed: bool)
        requires
            old(self).wf(),
        ensures
            final(self).wf(),
            removed == old(self).keys().contains(reference.key()),
            final(self).key_set() == old(self).key_set().remove(reference.key()),
    {
        let ghost k = reference.key();
        let ghost s = self.keys();
        let mut i: usize = 0;
        while i < self.items.len()
            invariant
                self.keys() == s,
                old(self).keys() == s,
                k == reference.key(),
                sorted_keys(s),
                i <= s.len(),
                forall|j: int| 0 <= j < i ==> s[j] != k,
            decreases s.len() - i,
        {
            if self.get(i).same_key(reference) {
                self.items.remove(i);
                proof {
                    let t = self.keys();
                    assert(t =~= s.remove(i as int));
                    assert(s.contains(k)) by {
                        assert(s[i as int] == k);
                    }
                    assert(self.key_set() =~= old(self).key_set().remove(k)) by {
                        assert forall|x: RefKey| #[trigger]
                            t.contains(x) <==> (s.contains(x) && x != k) by {
                            if t.contains(x) {
                                let a = choose|a: int| 0 <= a < t.len() && t[a] == x;
                                if a < i {
                                    assert(s[a] == x);
                                    lemma_key_lt_irreflexive(k);
                                } else {
                                    assert(s[a + 1] == x);
                                    lemma_key_lt_irreflexive(k);
                                }
                            }
                            if s.contains(x) && x != k {
                                let a = choose|a: int| 0 <= a < s.len() && s[a] == x;
                                if a < i {
                                    assert(t[a] == x);
                                } else {
                                    assert(t[a - 1] == x);
                                }
                            }
                        }
                    }
                }
                return true;
            }
            i = i + 1;
        }
        assert(!s.contains(k)) by {
            if s.contains(k) {
                let j = choose|j: int| 0 <= j < s.len() && s[j] == k;
            }
        }
        assert(self.key_set() =~= old(self).key_set().remove(k));
        false
    }
}

} // verus!
