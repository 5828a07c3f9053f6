use vstd::prelude::*;
use crate::entries::{
    fresh_token, find_entry, index_of, insert_position, keys_of, lemma_sorted_distinct,
    lemma_sorted_index, lemma_sorted_insert,
};
use crate::error::NetError;
use crate::node::{Place, Transition};
use crate::node_ref::{NodeRef, PlaceRef, RefKey, TransitionRef};
use crate::ref_set::sorted_keys;

verus! {

/// A place/transition net: places and transitions, each kept in the canonical
/// order of their references, with every arc recorded on both of its ends.
#[derive(Debug)]
pub struct PetriNet {
    places: Vec<(PlaceRef, Place)>,
    transitions: Vec<(TransitionRef, Transition)>,
}

impl PetriNet {
    /// The keys of the places, in canonical order.
    pub closed spec fn place_keys(&self) -> Seq<RefKey> {
        keys_of(self.places@)
    }

    /// The keys of the transitions, in canonical order.
    pub closed spec fn transition_keys(&self) -> Seq<RefKey> {
        keys_of(self.transitions@)
    }

    /// The place at position `i` of the canonical order.
    pub closed spec fn place_at(&self, i: int) -> Place {
        self.places@[i].1
    }

    /// The transition at position `i` of the canonical order.
    pub closed spec fn transition_at(&self, i: int) -> Transition {
        self.transitions@[i].1
    }

    pub open spec fn has_place(&self, p: RefKey) -> bool {
        self.place_keys().contains(p)
    }

    pub open spec fn has_transition(&self, t: RefKey) -> bool {
        self.transition_keys().contains(t)
    }

    /// The place with key `p` (meaningful when the net has it).
    pub open spec fn place_of(&self, p: RefKey) -> Place {
        self.place_at(index_of(self.place_keys(), p))
    }

    /// The transition with key `t` (meaningful when the net has it).
    pub open spec fn transition_of(&self, t: RefKey) -> Transition {
        self.transition_at(index_of(self.transition_keys(), t))
    }

    /// The number of tokens of the place with key `p`.
    pub open spec fn marking_of(&self, p: RefKey) -> nat {
        self.place_of(p).tokens()
    }

    /// Whether there is an arc from place `p` to transition `t`.
    pub open spec fn has_arc_pt(&self, p: RefKey, t: RefKey) -> bool {
        self.has_place(p) && self.place_of(p).post().contains(t)
    }

    /// Whether there is an arc from transition `t` to place `p`.
    pub open spec fn has_arc_tp(&self, t: RefKey, p: RefKey) -> bool {
        self.has_transition(t) && self.transition_of(t).post().contains(p)
    }

    /// The arcs from places to transitions.
    pub open spec fn arcs_pt(&self) -> Set<(RefKey, RefKey)> {
        Set::new(|a: (RefKey, RefKey)| self.has_arc_pt(a.0, a.1))
    }

    /// The arcs from transitions to places.
    pub open spec fn arcs_tp(&self) -> Set<(RefKey, RefKey)> {
        Set::new(|a: (RefKey, RefKey)| self.has_arc_tp(a.0, a.1))
    }

    /// Whether place `p` has no arc in or out.
    pub open spec fn is_unconnected(&self, p: RefKey) -> bool {
        self.place_of(p).pre_keys().len() == 0 && self.place_of(p).post_keys().len() == 0
    }

    /// The invariant of a net: references in canonical order, every stored
    /// reference a member of the net, and every arc recorded on both ends.
    pub open spec fn wf(&self) -> bool {
        &&& sorted_keys(self.place_keys())
        &&& sorted_keys(self.transition_keys())
        &&& forall|i: int| 0 <= i < self.place_keys().len() ==> #[trigger] self.place_at(i).wf()
        &&& forall|j: int|
            0 <= j < self.transition_keys().len() ==> #[trigger] self.transition_at(j).wf()
        &&& forall|i: int, t: RefKey|
            0 <= i < self.place_keys().len() && #[trigger] self.place_at(i).pre().contains(t)
                ==> self.has_transition(t)
        &&& forall|i: int, t: RefKey|
            0 <= i < self.place_keys().len() && #[trigger] self.place_at(i).post().contains(t)
                ==> self.has_transition(t)
        &&& forall|j: int, p: RefKey|
            0 <= j < self.transition_keys().len() && #[trigger] self.transition_at(j).pre().contains(
                p,
            ) ==> self.has_place(p)
        &&& forall|j: int, p: RefKey|
            0 <= j < self.transition_keys().len() && #[trigger] self.transition_at(
                j,
            ).post().contains(p) ==> self.has_place(p)
        &&& forall|i: int, j: int|
            0 <= i < self.place_keys().len() && 0 <= j < self.transition_keys().len() ==> (
            #[trigger] self.place_at(i).post().contains(self.transition_keys()[j])
                <==> #[trigger] self.transition_at(j).pre().contains(self.place_keys()[i]))
        &&& forall|i: int, j: int|
            0 <= i < self.place_keys().len() && 0 <= j < self.transition_keys().len() ==> (
            #[trigger] self.place_at(i).pre().contains(self.transition_keys()[j])
                <==> #[trigger] self.transition_at(j).post().contains(self.place_keys()[i]))
    }

    /// The two nets hold the same places, transitions, markings and arcs, in the same order.
    pub open spec fn same_content(&self, other: &PetriNet) -> bool {
        &&& self.place_keys() == other.place_keys()
        &&& self.transition_keys() == other.transition_keys()
        &&& forall|i: int|
            0 <= i < self.place_keys().len() ==> {
                &&& #[trigger] self.place_at(i).tokens() == other.place_at(i).tokens()
                &&& self.place_at(i).pre_keys() == other.place_at(i).pre_keys()
                &&& self.place_at(i).post_keys() == other.place_at(i).post_keys()
            }
        &&& forall|j: int|
            0 <= j < self.transition_keys().len() ==> {
                &&& #[trigger] self.transition_at(j).pre_keys() == other.transition_at(
                    j,
                ).pre_keys()
                &&& self.transition_at(j).post_keys() == other.transition_at(j).post_keys()
            }
    }

    /// What a successful `add_arc_place_transition(p, t)` makes of the net:
    /// the same nodes and markings, and the arc `p -> t` added.
    pub open spec fn arc_pt_added(&self, after: &PetriNet, p: RefKey, t: RefKey) -> bool {
        &&& after.place_keys() == self.place_keys()
        &&& after.transition_keys() == self.transition_keys()
        &&& after.arcs_pt() == self.arcs_pt().insert((p, t))
        &&& after.arcs_tp() == self.arcs_tp()
        &&& forall|q: RefKey| #[trigger]
            self.has_place(q) ==> after.marking_of(q) == self.marking_of(q)
    }

    /// What a successful `add_arc_transition_place(t, p)` makes of the net:
    /// the same nodes and markings, and the arc `t -> p` added.
    pub open spec fn arc_tp_added(&self, after: &PetriNet, t: RefKey, p: RefKey) -> bool {
        &&& after.place_keys() == self.place_keys()
        &&& after.transition_keys() == self.transition_keys()
        &&& after.arcs_tp() == self.arcs_tp().insert((t, p))
        &&& after.arcs_pt() == self.arcs_pt()
        &&& forall|q: RefKey| #[trigger]
            self.has_place(q) ==> after.marking_of(q) == self.marking_of(q)
    }

    /// The same nodes and arcs, and the marking of place `p` changed to `m`.
    pub open spec fn marking_changed(&self, after: &PetriNet, p: RefKey, m: nat) -> bool {
        &&& after.place_keys() == self.place_keys()
        &&& after.transition_keys() == self.transition_keys()
        &&& after.arcs_pt() == self.arcs_pt()
        &&& after.arcs_tp() == self.arcs_tp()
        &&& after.marking_of(p) == m
        &&& forall|q: RefKey| #[trigger]
            self.has_place(q) && q != p ==> after.marking_of(q) == self.marking_of(q)
    }

    /// Creates a net without places or transitions.
    pub fn new() -> (r: PetriNet)
        ensures
            r.wf(),
            r.place_keys().len() == 0,
            r.transition_keys().len() == 0,
    {
        let r = PetriNet { places: Vec::new(), transitions: Vec::new() };
        assert(r.place_keys() =~= Seq::<RefKey>::empty());
        assert(r.transition_keys() =~= Seq::<RefKey>::empty());
        r
    }

    /// The number of places.
    pub fn get_cardinality_places(&self) -> (r: usize)
        ensures
            r == self.place_keys().len(),
    {
        self.places.len()
    }

    /// The number of transitions.
    pub fn get_cardinality_transitions(&self) -> (r: usize)
        ensures
            r == self.transition_keys().len(),
    {
        self.transitions.len()
    }

    fn place_position(&self, place_ref: &PlaceRef) -> (r: Option<usize>)
        ensures
            match r {
                Some(i) => i < self.place_keys().len() && self.place_keys()[i as int] == place_ref@,
                None => !self.has_place(place_ref@),
            },
    {
        find_entry(&self.places, place_ref.label(), place_ref.uuid())
    }

    fn transition_position(&self, transition_ref: &TransitionRef) -> (r: Option<usize>)
        ensures
            match r {
                Some(j) => j < self.transition_keys().len() && self.transition_keys()[j as int]
                    == transition_ref@,
                None => !self.has_transition(transition_ref@),
            },
    {
        find_entry(&self.transitions, transition_ref.label(), transition_ref.uuid())
    }

    /// Adds a place with the given label, no tokens and no arcs, under a fresh
    /// reference. Labels need not be unique: the same label twice gives two places.
    pub fn add_place(&mut self, place_label: &str) -> (r: PlaceRef)
        requires
            old(self).wf(),
        ensures
            final(self).wf(),
            r@.0 == place_label@,
            !old(self).has_place(r@),
            forall|p: RefKey| #[trigger]
                final(self).has_place(p) <==> (old(self).has_place(p) || p == r@),
            final(self).place_keys().len() == old(self).place_keys().len() + 1,
            final(self).transition_keys() == old(self).transition_keys(),
            final(self).marking_of(r@) == 0,
            final(self).is_unconnected(r@),
            forall|p: RefKey| #[trigger]
                old(self).has_place(p) ==> final(self).marking_of(p) == old(self).marking_of(p),
            final(self).arcs_pt() == old(self).arcs_pt(),
            final(self).arcs_tp() == old(self).arcs_tp(),
    {
        let label = place_label.to_owned();
        let token = fresh_token(&self.places, &label);
        let place_ref = PlaceRef::with_token(place_label, token);
        let i = insert_position(&self.places, &place_ref);
        let entry = (place_ref.clone(), Place::new());
        self.places.insert(i, entry);
        proof {
            let s = old(self).place_keys();
            let k = place_ref@;
            let n = self;
            let o = old(self);
            assert(n.place_keys() =~= s.insert(i as int, k));
            lemma_sorted_insert(s, i as int, k);
            assert(n.transitions@ == o.transitions@);
            assert(n.transition_keys() == o.transition_keys());
            assert(forall|j: int| #[trigger] n.transition_at(j) == o.transition_at(j));
            assert(n.place_at(i as int).pre_keys().len() == 0);
            assert(n.place_at(i as int).post_keys().len() == 0);
            assert forall|x: RefKey| #[trigger] n.has_place(x) <==> (o.has_place(x) || x == k) by {
                if n.has_place(x) {
                    let a = choose|a: int| 0 <= a < n.place_keys().len() && n.place_keys()[a] == x;
                    if a < i {
                        assert(s[a] == x);
                    } else if a > i {
                        assert(s[a - 1] == x);
                    }
                }
                if o.has_place(x) {
                    let a = choose|a: int| 0 <= a < s.len() && s[a] == x;
                    assert(n.place_keys()[if a < i { a } else { a + 1 }] == x);
                }
                if x == k {
                    assert(n.place_keys()[i as int] == x);
                }
            }
            assert forall|b: int| 0 <= b < n.place_keys().len() && b != i implies #[trigger] n.place_at(b)
                == o.place_at(if b < i { b } else { b - 1 }) && n.place_keys()[b] == s[if b < i { b } else { b - 1 }] by {}
            assert(forall|j: int, x: RefKey| 0 <= j < o.transition_keys().len() && #[trigger] o.transition_at(j).pre().contains(x) ==> x != k);
            assert(forall|j: int, x: RefKey| 0 <= j < o.transition_keys().len() && #[trigger] o.transition_at(j).post().contains(x) ==> x != k);
            assert forall|b: int, j: int|
                0 <= b < n.place_keys().len() && 0 <= j < n.transition_keys().len() implies (
                #[trigger] n.place_at(b).post().contains(n.transition_keys()[j])
                    <==> #[trigger] n.transition_at(j).pre().contains(n.place_keys()[b])) by {
                if b == i {
                    assert(!n.place_at(b).post().contains(n.transition_keys()[j]));
                    assert(!o.transition_at(j).pre().contains(k));
                } else {
                    let a = if b < i { b } else { b - 1 };
                    assert(o.place_at(a).post().contains(o.transition_keys()[j])
                        <==> o.transition_at(j).pre().contains(o.place_keys()[a]));
                }
            }
            assert forall|b: int, j: int|
                0 <= b < n.place_keys().len() && 0 <= j < n.transition_keys().len() implies (
                #[trigger] n.place_at(b).pre().contains(n.transition_keys()[j])
                    <==> #[trigger] n.transition_at(j).post().contains(n.place_keys()[b])) by {
                if b == i {
                    assert(!n.place_at(b).pre().contains(n.transition_keys()[j]));
                    assert(!o.transition_at(j).post().contains(k));
                } else {
                    let a = if b < i { b } else { b - 1 };
                    assert(o.place_at(a).pre().contains(o.transition_keys()[j])
                        <==> o.transition_at(j).post().contains(o.place_keys()[a]));
                }
            }
            assert forall|b: int, x: RefKey|
                0 <= b < n.place_keys().len() && #[trigger] n.place_at(b).pre().contains(x)
                    implies n.has_transition(x) by {
                if b != i {
                    let a = if b < i { b } else { b - 1 };
                    assert(o.place_at(a).pre().contains(x));
                }
            }
            assert forall|b: int, x: RefKey|
                0 <= b < n.place_keys().len() && #[trigger] n.place_at(b).post().contains(x)
                    implies n.has_transition(x) by {
                if b != i {
                    let a = if b < i { b } else { b - 1 };
                    assert(o.place_at(a).post().contains(x));
                }
            }
            assert forall|b: int| 0 <= b < n.place_keys().len() implies #[trigger] n.place_at(b).wf() by {
                if b != i {
                    let a = if b < i { b } else { b - 1 };
                    assert(o.place_at(a).wf());
                }
            }
            // Old places keep their contents under their keys.
            assert forall|x: RefKey| o.has_place(x) implies #[trigger] n.place_of(x) == o.place_of(x) by {
                let a = index_of(s, x);
                assert(0 <= a < s.len() && s[a] == x);
                lemma_sorted_index(s, a);
                let b = if a < i { a } else { a + 1 };
                assert(n.place_keys()[b] == x);
                lemma_sorted_index(n.place_keys(), b);
            }
            lemma_sorted_index(n.place_keys(), i as int);
            assert(n.place_of(k) == n.place_at(i as int));
            assert(n.arcs_pt() =~= o.arcs_pt()) by {
                assert forall|e: (RefKey, RefKey)| n.has_arc_pt(e.0, e.1) <==> o.has_arc_pt(e.0, e.1) by {
                    if e.0 != k && o.has_place(e.0) {
                        assert(n.place_of(e.0) == o.place_of(e.0));
                    }
                    if e.0 == k {
                        assert(!n.place_of(k).post().contains(e.1));
                    }
                }
            }
            assert(n.arcs_tp() =~= o.arcs_tp());
        }
        place_ref
    }

    /// Adds a transition with the given label and no arcs, under a fresh
    /// reference. Labels need not be unique: the same label twice gives two transitions.
    pub fn add_transition(&mut self, transition_label: &str) -> (r: TransitionRef)
        requires
            old(self).wf(),
        ensures
            final(self).wf(),
            r@.0 == transition_label@,
            !old(self).has_transition(r@),
            forall|t: RefKey| #[trigger]
                final(self).has_transition(t) <==> (old(self).has_transition(t) || t == r@),
            final(self).transition_keys().len() == old(self).transition_keys().len() + 1,
            final(self).place_keys() == old(self).place_keys(),
            forall|p: RefKey| #[trigger]
                old(self).has_place(p) ==> final(self).marking_of(p) == old(self).marking_of(p),
            forall|p: RefKey| #[trigger]
                old(self).has_place(p) ==> final(self).is_unconnected(p) == old(self).is_unconnected(p),
            final(self).arcs_pt() == old(self).arcs_pt(),
            final(self).arcs_tp() == old(self).arcs_tp(),
    {
        let label = transition_label.to_owned();
        let token = fresh_token(&self.transitions, &label);
        let transition_ref = TransitionRef::with_token(transition_label, token);
        let i = insert_position(&self.transitions, &transition_ref);
        let entry = (transition_ref.clone(), Transition::new());
        self.transitions.insert(i, entry);
        proof {
            let s = old(self).transition_keys();
            let k = transition_ref@;
            let n = self;
            let o = old(self);
            assert(n.transition_keys() =~= s.insert(i as int, k));
            lemma_sorted_insert(s, i as int, k);
            assert(n.places@ == o.places@);
            assert(n.place_keys() == o.place_keys());
            assert(forall|a: int| #[trigger] n.place_at(a) == o.place_at(a));
            assert(n.transition_at(i as int).pre_keys().len() == 0);
            assert(n.transition_at(i as int).post_keys().len() == 0);
            assert forall|x: RefKey| #[trigger] n.has_transition(x) <==> (o.has_transition(x) || x == k) by {
                if n.has_transition(x) {
                    let a = choose|a: int| 0 <= a < n.transition_keys().len() && n.transition_keys()[a] == x;
                    if a < i {
                        assert(s[a] == x);
                    } else if a > i {
                        assert(s[a - 1] == x);
                    }
                }
                if o.has_transition(x) {
                    let a = choose|a: int| 0 <= a < s.len() && s[a] == x;
                    assert(n.transition_keys()[if a < i { a } else { a + 1 }] == x);
                }
                if x == k {
                    assert(n.transition_keys()[i as int] == x);
                }
            }
            assert forall|b: int| 0 <= b < n.transition_keys().len() && b != i implies #[trigger] n.transition_at(b)
                == o.transition_at(if b < i { b } else { b - 1 }) && n.transition_keys()[b] == s[if b < i { b } else { b - 1 }] by {}
            assert(forall|j: int, x: RefKey| 0 <= j < o.place_keys().len() && #[trigger] o.place_at(j).pre().contains(x) ==> x != k);
            assert(forall|j: int, x: RefKey| 0 <= j < o.place_keys().len() && #[trigger] o.place_at(j).post().contains(x) ==> x != k);
            assert forall|a: int, b: int|
                0 <= a < n.place_keys().len() && 0 <= b < n.transition_keys().len() implies (
                #[trigger] n.place_at(a).post().contains(n.transition_keys()[b])
                    <==> #[trigger] n.transition_at(b).pre().contains(n.place_keys()[a])) by {
                if b == i {
                    assert(!n.transition_at(b).pre().contains(n.place_keys()[a]));
                    assert(!o.place_at(a).post().contains(k));
                } else {
                    let c = if b < i { b } else { b - 1 };
                    assert(o.place_at(a).post().contains(o.transition_keys()[c])
                        <==> o.transition_at(c).pre().contains(o.place_keys()[a]));
                }
            }
            assert forall|a: int, b: int|
                0 <= a < n.place_keys().len() && 0 <= b < n.transition_keys().len() implies (
                #[trigger] n.place_at(a).pre().contains(n.transition_keys()[b])
                    <==> #[trigger] n.transition_at(b).post().contains(n.place_keys()[a])) by {
                if b == i {
                    assert(!n.transition_at(b).post().contains(n.place_keys()[a]));
                    assert(!o.place_at(a).pre().contains(k));
                } else {
                    let c = if b < i { b } else { b - 1 };
                    assert(o.place_at(a).pre().contains(o.transition_keys()[c])
                        <==> o.transition_at(c).post().contains(o.place_keys()[a]));
                }
            }
            assert forall|b: int, x: RefKey|
                0 <= b < n.transition_keys().len() && #[trigger] n.transition_at(b).pre().contains(x)
                    implies n.has_place(x) by {
                if b != i {
                    let c = if b < i { b } else { b - 1 };
                    assert(o.transition_at(c).pre().contains(x));
                }
            }
            assert forall|b: int, x: RefKey|
                0 <= b < n.transition_keys().len() && #[trigger] n.transition_at(b).post().contains(x)
                    implies n.has_place(x) by {
                if b != i {
                    let c = if b < i { b } else { b - 1 };
                    assert(o.transition_at(c).post().contains(x));
                }
            }
            assert forall|b: int| 0 <= b < n.transition_keys().len() implies #[trigger] n.transition_at(b).wf() by {
                if b != i {
                    let c = if b < i { b } else { b - 1 };
                    assert(o.transition_at(c).wf());
                }
            }
            assert forall|x: RefKey| o.has_transition(x) implies #[trigger] n.transition_of(x) == o.transition_of(x) by {
                let a = index_of(s, x);
                assert(0 <= a < s.len() && s[a] == x);
                lemma_sorted_index(s, a);
                let b = if a < i { a } else { a + 1 };
                assert(n.transition_keys()[b] == x);
                lemma_sorted_index(n.transition_keys(), b);
            }
            lemma_sorted_index(n.transition_keys(), i as int);
            assert(n.transition_of(k) == n.transition_at(i as int));
            assert(n.arcs_tp() =~= o.arcs_tp()) by {
                assert forall|e: (RefKey, RefKey)| n.has_arc_tp(e.0, e.1) <==> o.has_arc_tp(e.0, e.1) by {
                    if e.0 != k && o.has_transition(e.0) {
                        assert(n.transition_of(e.0) == o.transition_of(e.0));
                    }
                    if e.0 == k {
                        assert(!n.transition_of(k).post().contains(e.1));
                    }
                }
            }
            assert(n.arcs_pt() =~= o.arcs_pt());
        }
        transition_ref
    }

    /// Adds an arc from a place to a transition.
    ///
    /// Fails with `InvalidReference` if either end is not in the net, and with
    /// `DuplicateArc` if the arc exists; the net is then unchanged.
    pub fn add_arc_place_transition(
        &mut self,
        place_ref: &PlaceRef,
        transition_ref: &TransitionRef,
    ) -> (r: Result<(), NetError>)
        requires
            old(self).wf(),
        ensures
            final(self).wf(),
            !(old(self).has_place(place_ref@) && old(self).has_transition(transition_ref@)) ==> r
                == Err::<(), NetError>(NetError::InvalidReference) && final(self).same_content(
                old(self),
            ),
            old(self).has_transition(transition_ref@) && old(self).has_arc_pt(
                place_ref@,
                transition_ref@,
            ) ==> r == Err::<(), NetError>(NetError::DuplicateArc) && final(self).same_content(
                old(self),
            ) && final(self).arcs_pt() == old(self).arcs_pt() && final(self).arcs_tp() == old(self).arcs_tp(),
            old(self).has_place(place_ref@) && old(self).has_transition(transition_ref@)
                && !old(self).has_arc_pt(place_ref@, transition_ref@) ==> {
                &&& r is Ok
                &&& old(self).arc_pt_added(final(self), place_ref@, transition_ref@)
                &&& !final(self).is_unconnected(place_ref@)
            },
    {
        let pi = match self.place_position(place_ref) {
            Some(i) => i,
            None => return Err(NetError::InvalidReference),
        };
        let ti = match self.transition_position(transition_ref) {
            Some(j) => j,
            None => return Err(NetError::InvalidReference),
        };
        proof {
            lemma_sorted_index(self.place_keys(), pi as int);
            lemma_sorted_index(self.transition_keys(), ti as int);
            assert(self.place_at(pi as int).wf());
            assert(self.transition_at(ti as int).wf());
        }
        let inserted_outgoing = self.places[pi].1.add_outgoing(transition_ref.clone());
        let inserted_incoming = self.transitions[ti].1.add_incoming(place_ref.clone());
        proof {
            let o = old(self);
            let n = self;
            let p = place_ref@;
            let t = transition_ref@;
            let pk = o.place_keys();
            let tk = o.transition_keys();
            assert(n.place_keys() =~= pk);
            assert(n.transition_keys() =~= tk);
            assert(inserted_outgoing == inserted_incoming);
            assert(forall|i: int| 0 <= i < pk.len() && i != pi ==> #[trigger] n.place_at(i) == o.place_at(i));
            assert(forall|j: int| 0 <= j < tk.len() && j != ti ==> #[trigger] n.transition_at(j) == o.transition_at(j));
            assert(n.place_at(pi as int).pre() =~= o.place_at(pi as int).pre());
            assert(n.transition_at(ti as int).post() =~= o.transition_at(ti as int).post());
            assert forall|i: int, j: int| 0 <= i < pk.len() && 0 <= j < tk.len() implies (
                #[trigger] n.place_at(i).post().contains(n.transition_keys()[j])
                    <==> #[trigger] n.transition_at(j).pre().contains(n.place_keys()[i])) by {
                assert(o.place_at(i).post().contains(tk[j]) <==> o.transition_at(j).pre().contains(pk[i]));
                if i != pi {
                    lemma_sorted_distinct(pk, i, pi as int);
                }
                if j != ti {
                    lemma_sorted_distinct(tk, j, ti as int);
                }
            }
            assert forall|i: int, j: int| 0 <= i < pk.len() && 0 <= j < tk.len() implies (
                #[trigger] n.place_at(i).pre().contains(n.transition_keys()[j])
                    <==> #[trigger] n.transition_at(j).post().contains(n.place_keys()[i])) by {
                assert(o.place_at(i).pre().contains(tk[j]) <==> o.transition_at(j).post().contains(pk[i]));
            }
            assert forall|i: int, x: RefKey| 0 <= i < pk.len() && #[trigger] n.place_at(i).post().contains(x)
                implies n.has_transition(x) by {
                if i != pi || x != t {
                    assert(o.place_at(i).post().contains(x));
                } else {
                    assert(tk[ti as int] == x);
                }
            }
            assert forall|i: int, x: RefKey| 0 <= i < pk.len() && #[trigger] n.place_at(i).pre().contains(x)
                implies n.has_transition(x) by {
                assert(o.place_at(i).pre().contains(x));
            }
            assert forall|j: int, x: RefKey| 0 <= j < tk.len() && #[trigger] n.transition_at(j).pre().contains(x)
                implies n.has_place(x) by {
                if j != ti || x != p {
                    assert(o.transition_at(j).pre().contains(x));
                } else {
                    assert(pk[pi as int] == x);
                }
            }
            assert forall|j: int, x: RefKey| 0 <= j < tk.len() && #[trigger] n.transition_at(j).post().contains(x)
                implies n.has_place(x) by {
                assert(o.transition_at(j).post().contains(x));
            }
            assert forall|i: int| 0 <= i < pk.len() implies #[trigger] n.place_at(i).wf() by {
                if i != pi {
                    assert(o.place_at(i).wf());
                }
            }
            assert forall|j: int| 0 <= j < tk.len() implies #[trigger] n.transition_at(j).wf() by {
                if j != ti {
                    assert(o.transition_at(j).wf());
                }
            }
            assert forall|x: RefKey| n.has_place(x) && x != p implies #[trigger] n.place_of(x) == o.place_of(x) by {
                let a = index_of(pk, x);
                assert(0 <= a < pk.len() && pk[a] == x);
                lemma_sorted_index(pk, a);
            }
            assert forall|x: RefKey| n.has_transition(x) && x != t implies #[trigger] n.transition_of(x) == o.transition_of(x) by {
                let a = index_of(tk, x);
                assert(0 <= a < tk.len() && tk[a] == x);
                lemma_sorted_index(tk, a);
            }
            assert(n.transition_of(t).post() =~= o.transition_of(t).post());
            assert(n.arcs_tp() =~= o.arcs_tp()) by {
                assert forall|e: (RefKey, RefKey)| n.has_arc_tp(e.0, e.1) <==> o.has_arc_tp(e.0, e.1) by {
                    if e.0 != t && n.has_transition(e.0) {
                        assert(n.transition_of(e.0) == o.transition_of(e.0));
                    }
                }
            }
            if inserted_outgoing {
                assert(n.arcs_pt() =~= o.arcs_pt().insert((p, t))) by {
                    assert forall|e: (RefKey, RefKey)| n.has_arc_pt(e.0, e.1) <==> (o.has_arc_pt(e.0, e.1) || e == (p, t)) by {
                        if e.0 != p && n.has_place(e.0) {
                            assert(n.place_of(e.0) == o.place_of(e.0));
                        }
                    }
                }
                assert(n.place_of(p).post().contains(t));
                assert(n.place_of(p).post_keys().contains(t));
            } else {
                assert(o.has_arc_pt(p, t));
            }
            assert forall|x: RefKey| #[trigger] o.has_place(x) implies n.marking_of(x) == o.marking_of(x) by {
                if x == p {
                    assert(n.place_of(p) == n.place_at(pi as int));
                }
            }
        }
        arc_insertion_outcome(inserted_incoming, inserted_outgoing)
    }

    /// Adds an arc from a transition to a place.
    ///
    /// Fails with `InvalidReference` if either end is not in the net, and with
    /// `DuplicateArc` if the arc exists; the net is then unchanged.
    pub fn add_arc_transition_place(
        &mut self,
        transition_ref: &TransitionRef,
        place_ref: &PlaceRef,
    ) -> (r: Result<(), NetError>)
        requires
            old(self).wf(),
        ensures
            final(self).wf(),
            !(old(self).has_place(place_ref@) && old(self).has_transition(transition_ref@)) ==> r
                == Err::<(), NetError>(NetError::InvalidReference) && final(self).same_content(
                old(self),
            ),
            old(self).has_place(place_ref@) && old(self).has_arc_tp(
                transition_ref@,
                place_ref@,
            ) ==> r == Err::<(), NetError>(NetError::DuplicateArc) && final(self).same_content(
                old(self),
            ) && final(self).arcs_pt() == old(self).arcs_pt() && final(self).arcs_tp() == old(self).arcs_tp(),
            old(self).has_place(place_ref@) && old(self).has_transition(transition_ref@)
                && !old(self).has_arc_tp(transition_ref@, place_ref@) ==> {
                &&& r is Ok
                &&& old(self).arc_tp_added(final(self), transition_ref@, place_ref@)
                &&& !final(self).is_unconnected(place_ref@)
            },
    {
        let pi = match self.place_position(place_ref) {
            Some(i) => i,
            None => return Err(NetError::InvalidReference),
        };
        let ti = match self.transition_position(transition_ref) {
            Some(j) => j,
            None => return Err(NetError::InvalidReference),
        };
        proof {
            lemma_sorted_index(self.place_keys(), pi as int);
            lemma_sorted_index(self.transition_keys(), ti as int);
            assert(self.place_at(pi as int).wf());
            assert(self.transition_at(ti as int).wf());
        }
        let inserted_outgoing = self.transitions[ti].1.add_outgoing(place_ref.clone());
        let inserted_incoming = self.places[pi].1.add_incoming(transition_ref.clone());
        proof {
            let o = old(self);
            let n = self;
            let p = place_ref@;
            let t = transition_ref@;
            let pk = o.place_keys();
            let tk = o.transition_keys();
            assert(n.place_keys() =~= pk);
            assert(n.transition_keys() =~= tk);
            assert(inserted_outgoing == inserted_incoming);
            assert(forall|i: int| 0 <= i < pk.len() && i != pi ==> #[trigger] n.place_at(i) == o.place_at(i));
            assert(forall|j: int| 0 <= j < tk.len() && j != ti ==> #[trigger] n.transition_at(j) == o.transition_at(j));
            assert(n.place_at(pi as int).post() =~= o.place_at(pi as int).post());
            assert(n.transition_at(ti as int).pre() =~= o.transition_at(ti as int).pre());
            assert forall|i: int, j: int| 0 <= i < pk.len() && 0 <= j < tk.len() implies (
                #[trigger] n.place_at(i).pre().contains(n.transition_keys()[j])
                    <==> #[trigger] n.transition_at(j).post().contains(n.place_keys()[i])) by {
                assert(o.place_at(i).pre().contains(tk[j]) <==> o.transition_at(j).post().contains(pk[i]));
                if i != pi {
                    lemma_sorted_distinct(pk, i, pi as int);
                }
                if j != ti {
                    lemma_sorted_distinct(tk, j, ti as int);
                }
            }
            assert forall|i: int, j: int| 0 <= i < pk.len() && 0 <= j < tk.len() implies (
                #[trigger] n.place_at(i).post().contains(n.transition_keys()[j])
                    <==> #[trigger] n.transition_at(j).pre().contains(n.place_keys()[i])) by {
                assert(o.place_at(i).post().contains(tk[j]) <==> o.transition_at(j).pre().contains(pk[i]));
            }
            assert forall|i: int, x: RefKey| 0 <= i < pk.len() && #[trigger] n.place_at(i).pre().contains(x)
                implies n.has_transition(x) by {
                if i != pi || x != t {
                    assert(o.place_at(i).pre().contains(x));
                } else {
                    assert(tk[ti as int] == x);
                }
            }
            assert forall|i: int, x: RefKey| 0 <= i < pk.len() && #[trigger] n.place_at(i).post().contains(x)
                implies n.has_transition(x) by {
                assert(o.place_at(i).post().contains(x));
            }
            assert forall|j: int, x: RefKey| 0 <= j < tk.len() && #[trigger] n.transition_at(j).post().contains(x)
                implies n.has_place(x) by {
                if j != ti || x != p {
                    assert(o.transition_at(j).post().contains(x));
                } else {
                    assert(pk[pi as int] == x);
                }
            }
            assert forall|j: int, x: RefKey| 0 <= j < tk.len() && #[trigger] n.transition_at(j).pre().contains(x)
                implies n.has_place(x) by {
                assert(o.transition_at(j).pre().contains(x));
            }
            assert forall|i: int| 0 <= i < pk.len() implies #[trigger] n.place_at(i).wf() by {
                if i != pi {
                    assert(o.place_at(i).wf());
                }
            }
            assert forall|j: int| 0 <= j < tk.len() implies #[trigger] n.transition_at(j).wf() by {
                if j != ti {
                    assert(o.transition_at(j).wf());
                }
            }
            assert forall|x: RefKey| n.has_place(x) && x != p implies #[trigger] n.place_of(x) == o.place_of(x) by {
                let a = index_of(pk, x);
                assert(0 <= a < pk.len() && pk[a] == x);
                lemma_sorted_index(pk, a);
            }
            assert forall|x: RefKey| n.has_transition(x) && x != t implies #[trigger] n.transition_of(x) == o.transition_of(x) by {
                let a = index_of(tk, x);
                assert(0 <= a < tk.len() && tk[a] == x);
                lemma_sorted_index(tk, a);
            }
            assert(n.place_of(p).post() =~= o.place_of(p).post());
            assert(n.arcs_pt() =~= o.arcs_pt()) by {
                assert forall|e: (RefKey, RefKey)| n.has_arc_pt(e.0, e.1) <==> o.has_arc_pt(e.0, e.1) by {
                    if e.0 != p && n.has_place(e.0) {
                        assert(n.place_of(e.0) == o.place_of(e.0));
                    }
                }
            }
            if inserted_outgoing {
                assert(n.arcs_tp() =~= o.arcs_tp().insert((t, p))) by {
                    assert forall|e: (RefKey, RefKey)| n.has_arc_tp(e.0, e.1) <==> (o.has_arc_tp(e.0, e.1) || e == (t, p)) by {
                        if e.0 != t && n.has_transition(e.0) {
                            assert(n.transition_of(e.0) == o.transition_of(e.0));
                        }
                    }
                }
                assert(n.place_of(p).pre().contains(t));
                assert(n.place_of(p).pre_keys().contains(t));
            } else {
                assert(o.has_arc_tp(t, p));
            }
            assert forall|x: RefKey| #[trigger] o.has_place(x) implies n.marking_of(x) == o.marking_of(x) by {
                if x == p {
                    assert(n.place_of(p) == n.place_at(pi as int));
                }
            }
        }
        arc_insertion_outcome(inserted_incoming, inserted_outgoing)
    }

    /// Changing the token count of one place keeps the invariant, the arcs and
    /// every other marking.
    proof fn lemma_tokens_changed(o: &PetriNet, n: &PetriNet, pi: int)
        requires
            o.wf(),
            0 <= pi < o.place_keys().len(),
            n.places@.len() == o.places@.len(),
            n.transitions@ == o.transitions@,
            n.places@[pi].0 == o.places@[pi].0,
            forall|i: int| 0 <= i < o.places@.len() && i != pi ==> n.places@[i] == o.places@[i],
            n.place_at(pi).pre_keys() == o.place_at(pi).pre_keys(),
            n.place_at(pi).post_keys() == o.place_at(pi).post_keys(),
            n.place_at(pi).wf() == o.place_at(pi).wf(),
        ensures
            n.wf(),
            n.place_keys() == o.place_keys(),
            n.transition_keys() == o.transition_keys(),
            n.arcs_pt() == o.arcs_pt(),
            n.arcs_tp() == o.arcs_tp(),
            n.marking_of(o.place_keys()[pi]) == n.place_at(pi).tokens(),
            o.marking_of(o.place_keys()[pi]) == o.place_at(pi).tokens(),
            forall|p: RefKey| #[trigger]
                o.has_place(p) && p != o.place_keys()[pi] ==> n.marking_of(p) == o.marking_of(p),
            n.place_at(pi).tokens() == o.place_at(pi).tokens() ==> n.same_content(o),
    {
        let pk = o.place_keys();
        assert(n.place_keys() =~= pk);
        assert(n.transition_keys() == o.transition_keys());
        assert(n.place_at(pi).pre() =~= o.place_at(pi).pre());
        assert(n.place_at(pi).post() =~= o.place_at(pi).post());
        assert(forall|i: int| 0 <= i < pk.len() && i != pi ==> #[trigger] n.place_at(i) == o.place_at(i));
        assert(forall|j: int| #[trigger] n.transition_at(j) == o.transition_at(j));
        assert forall|i: int| 0 <= i < pk.len() implies (#[trigger] n.place_at(i).pre() == o.place_at(i).pre()
            && n.place_at(i).post() == o.place_at(i).post() && n.place_at(i).wf() == o.place_at(i).wf()) by {}
        lemma_sorted_index(pk, pi);
        assert forall|x: RefKey| o.has_place(x) implies #[trigger] n.place_of(x).post() == o.place_of(x).post()
            && n.place_of(x).pre() == o.place_of(x).pre() && (x != pk[pi] ==> n.place_of(x) == o.place_of(x)) by {
            let a = index_of(pk, x);
            assert(0 <= a < pk.len() && pk[a] == x);
            lemma_sorted_index(pk, a);
        }
        assert(n.arcs_pt() =~= o.arcs_pt()) by {
            assert forall|e: (RefKey, RefKey)| n.has_arc_pt(e.0, e.1) <==> o.has_arc_pt(e.0, e.1) by {
                if o.has_place(e.0) {
                    assert(n.place_of(e.0).post() == o.place_of(e.0).post());
                }
            }
        }
        assert(n.arcs_tp() =~= o.arcs_tp());
    }

    fn place_index_of(&self, place_ref: &PlaceRef) -> (r: Result<usize, NetError>)
        requires
            self.wf(),
        ensures
            match r {
                Ok(i) => {
                    &&& i < self.place_keys().len()
                    &&& self.place_keys()[i as int] == place_ref@
                    &&& self.place_of(place_ref@) == self.place_at(i as int)
                    &&& self.has_place(place_ref@)
                },
                Err(e) => e == NetError::InvalidReference && !self.has_place(place_ref@),
            },
    {
        match self.place_position(place_ref) {
            Some(i) => {
                proof {
                    lemma_sorted_index(self.place_keys(), i as int);
                }
                Ok(i)
            },
            None => Err(NetError::InvalidReference),
        }
    }

    /// The number of tokens in a place. Fails with `InvalidReference` if the
    /// place is not in the net.
    pub fn marking(&self, place_ref: &PlaceRef) -> (r: Result<usize, NetError>)
        requires
            self.wf(),
        ensures
            self.has_place(place_ref@) ==> r == Ok::<usize, NetError>(
                self.marking_of(place_ref@) as usize,
            ),
            !self.has_place(place_ref@) ==> r == Err::<usize, NetError>(
                NetError::InvalidReference,
            ),
    {
        let i = self.place_index_of(place_ref)?;
        Ok(self.places[i].1.marking())
    }

    /// Adds `tokens_to_add` tokens to a place.
    ///
    /// Fails with `InvalidReference` if the place is not in the net, and with
    /// `Overflow` if its count would exceed `usize::MAX`; the net is then unchanged.
    pub fn add_token(&mut self, place_ref: &PlaceRef, tokens_to_add: usize) -> (r: Result<
        (),
        NetError,
    >)
        requires
            old(self).wf(),
        ensures
            final(self).wf(),
            !old(self).has_place(place_ref@) ==> r == Err::<(), NetError>(
                NetError::InvalidReference,
            ) && final(self).same_content(old(self)),
            old(self).has_place(place_ref@) && old(self).marking_of(place_ref@) + tokens_to_add
                > usize::MAX ==> r == Err::<(), NetError>(NetError::Overflow) && final(self).same_content(old(self)),
            old(self).has_place(place_ref@) && old(self).marking_of(place_ref@) + tokens_to_add
                <= usize::MAX ==> {
                &&& r is Ok
                &&& old(self).marking_changed(
                    final(self),
                    place_ref@,
                    (old(self).marking_of(place_ref@) + tokens_to_add) as nat,
                )
            },
    {
        let i = match self.place_index_of(place_ref) {
            Ok(i) => i,
            Err(e) => return Err(e),
        };
        let r = self.places[i].1.add_token(tokens_to_add);
        proof {
            Self::lemma_tokens_changed(old(self), self, i as int);
        }
        r
    }

    /// Removes `tokens_to_remove` tokens from a place.
    ///
    /// Fails with `InvalidReference` if the place is not in the net, and with
    /// `Underflow` if it holds fewer tokens; the net is then unchanged.
    pub fn remove_token(&mut self, place_ref: &PlaceRef, tokens_to_remove: usize) -> (r: Result<
        (),
        NetError,
    >)
        requires
            old(self).wf(),
        ensures
            final(self).wf(),
            !old(self).has_place(place_ref@) ==> r == Err::<(), NetError>(
                NetError::InvalidReference,
            ) && final(self).same_content(old(self)),
            old(self).has_place(place_ref@) && tokens_to_remove > old(self).marking_of(place_ref@)
                ==> r == Err::<(), NetError>(NetError::Underflow) && final(self).same_content(
                old(self),
            ),
            old(self).has_place(place_ref@) && tokens_to_remove <= old(self).marking_of(
                place_ref@,
            ) ==> {
                &&& r is Ok
                &&& old(self).marking_changed(
                    final(self),
                    place_ref@,
                    (old(self).marking_of(place_ref@) - tokens_to_remove) as nat,
                )
            },
    {
        let i = match self.place_index_of(place_ref) {
            Ok(i) => i,
            Err(e) => return Err(e),
        };
        let r = self.places[i].1.remove_token(tokens_to_remove);
        proof {
            Self::lemma_tokens_changed(old(self), self, i as int);
        }
        r
    }

    /// The marking of every place, in canonical order.
    pub fn marking_vector(&self) -> (r: Vec<(PlaceRef, usize)>)
        requires
            self.wf(),
        ensures
            r@.len() == self.place_keys().len(),
            forall|i: int|
                0 <= i < r@.len() ==> #[trigger] r@[i].0@ == self.place_keys()[i] && r@[i].1
                    == self.marking_of(self.place_keys()[i]),
    {
        let mut r: Vec<(PlaceRef, usize)> = Vec::new();
        let mut i: usize = 0;
        while i < self.places.len()
            invariant
                self.wf(),
                i <= self.places@.len(),
                r@.len() == i,
                forall|j: int|
                    0 <= j < i ==> #[trigger] r@[j].0@ == self.place_keys()[j] && r@[j].1
                        == self.marking_of(self.place_keys()[j]),
            decreases self.places@.len() - i,
        {
            let entry = &self.places[i];
            proof {
                lemma_sorted_index(self.place_keys(), i as int);
            }
            r.push((entry.0.clone(), entry.1.marking()));
            i = i + 1;
        }
        r
    }

    /// The arcs from places to transitions of the first `i` places, in order:
    /// by place, then by transition.
    pub open spec fn pt_arcs_upto(&self, i: int) -> Seq<(RefKey, RefKey)>
        decreases i,
    {
        if i <= 0 {
            Seq::empty()
        } else {
            self.pt_arcs_upto(i - 1) + self.place_at(i - 1).post_keys().map_values(
                |t: RefKey| (self.place_keys()[i - 1], t),
            )
        }
    }

    /// The arcs from transitions to places of the first `j` transitions, in
    /// order: by transition, then by place.
    pub open spec fn tp_arcs_upto(&self, j: int) -> Seq<(RefKey, RefKey)>
        decreases j,
    {
        if j <= 0 {
            Seq::empty()
        } else {
            self.tp_arcs_upto(j - 1) + self.transition_at(j - 1).post_keys().map_values(
                |p: RefKey| (self.transition_keys()[j - 1], p),
            )
        }
    }

    /// All arcs from places to transitions, in canonical order.
    pub open spec fn pt_arc_seq(&self) -> Seq<(RefKey, RefKey)> {
        self.pt_arcs_upto(self.place_keys().len() as int)
    }

    /// All arcs from transitions to places, in canonical order.
    pub open spec fn tp_arc_seq(&self) -> Seq<(RefKey, RefKey)> {
        self.tp_arcs_upto(self.transition_keys().len() as int)
    }

    /// The places without any arc, in canonical order.
    pub open spec fn unconnected_seq(&self) -> Seq<RefKey> {
        self.place_keys().filter(|p: RefKey| self.is_unconnected(p))
    }

    /// The places that have no arc in or out, in canonical order.
    pub fn find_unconnected_places(&self) -> (r: Vec<PlaceRef>)
        requires
            self.wf(),
        ensures
            r@.map_values(|p: PlaceRef| p@) == self.unconnected_seq(),
    {
        let ghost pred = |p: RefKey| self.is_unconnected(p);
        let mut r: Vec<PlaceRef> = Vec::new();
        let mut i: usize = 0;
        while i < self.places.len()
            invariant
                self.wf(),
                pred == (|p: RefKey| self.is_unconnected(p)),
                i <= self.places@.len(),
                r@.map_values(|p: PlaceRef| p@) == self.place_keys().take(i as int).filter(pred),
            decreases self.places@.len() - i,
        {
            let entry = &self.places[i];
            let ghost before = r@;
            proof {
                lemma_sorted_index(self.place_keys(), i as int);
                assert(self.place_keys().take(i as int + 1) =~= self.place_keys().take(i as int).push(
                    self.place_keys()[i as int],
                ));
                self.place_keys().take(i as int).lemma_filter_push(self.place_keys()[i as int], pred);
            }
            if entry.1.get_preset().is_empty() && entry.1.get_postset().is_empty() {
                r.push(entry.0.clone());
                assert(r@.map_values(|p: PlaceRef| p@) =~= before.map_values(|p: PlaceRef| p@).push(
                    self.place_keys()[i as int],
                ));
            }
            i = i + 1;
        }
        assert(self.place_keys().take(self.places@.len() as int) =~= self.place_keys());
        r
    }

    /// All arcs from places to transitions, ordered by place, then by transition.
    pub fn find_arcs_place_transition(&self) -> (r: Vec<(PlaceRef, TransitionRef)>)
        requires
            self.wf(),
        ensures
            r@.map_values(|a: (PlaceRef, TransitionRef)| (a.0@, a.1@)) == self.pt_arc_seq(),
    {
        let mut r: Vec<(PlaceRef, TransitionRef)> = Vec::new();
        let mut i: usize = 0;
        while i < self.places.len()
            invariant
                i <= self.places@.len(),
                r@.map_values(|a: (PlaceRef, TransitionRef)| (a.0@, a.1@)) == self.pt_arcs_upto(
                    i as int,
                ),
            decreases self.places@.len() - i,
        {
            let entry = &self.places[i];
            let postset = entry.1.get_postset();
            let ghost base = self.pt_arcs_upto(i as int);
            let ghost pk = self.place_keys()[i as int];
            let ghost post = self.place_at(i as int).post_keys();
            assert(entry.0@ == pk);
            let mut j: usize = 0;
            while j < postset.len()
                invariant
                    j <= post.len(),
                    postset.keys() == post,
                    entry.0@ == pk,
                    r@.map_values(|a: (PlaceRef, TransitionRef)| (a.0@, a.1@)) == base + post.take(
                        j as int,
                    ).map_values(|t: RefKey| (pk, t)),
                decreases post.len() - j,
            {
                let ghost before = r@.map_values(|a: (PlaceRef, TransitionRef)| (a.0@, a.1@));
                let t = postset.get(j);
                let pair = (entry.0.clone(), t.clone());
                assert(pair.0@ == pk && pair.1@ == post[j as int]);
                r.push(pair);
                assert(r@.map_values(|a: (PlaceRef, TransitionRef)| (a.0@, a.1@)) =~= before.push((pk, post[j as int])));
                assert(post.take(j as int + 1) =~= post.take(j as int).push(post[j as int]));
                assert(r@.map_values(|a: (PlaceRef, TransitionRef)| (a.0@, a.1@)) =~= base + post.take(
                    j as int + 1,
                ).map_values(|t: RefKey| (pk, t)));
                j = j + 1;
            }
            assert(post.take(post.len() as int) =~= post);
            i = i + 1;
        }
        r
    }

    /// All arcs from transitions to places, ordered by transition, then by place.
    pub fn find_arcs_transition_place(&self) -> (r: Vec<(TransitionRef, PlaceRef)>)
        requires
            self.wf(),
        ensures
            r@.map_values(|a: (TransitionRef, PlaceRef)| (a.0@, a.1@)) == self.tp_arc_seq(),
    {
        let mut r: Vec<(TransitionRef, PlaceRef)> = Vec::new();
        let mut i: usize = 0;
        while i < self.transitions.len()
            invariant
                i <= self.transitions@.len(),
                r@.map_values(|a: (TransitionRef, PlaceRef)| (a.0@, a.1@)) == self.tp_arcs_upto(
                    i as int,
                ),
            decreases self.transitions@.len() - i,
        {
            let entry = &self.transitions[i];
            let postset = entry.1.get_postset();
            let ghost base = self.tp_arcs_upto(i as int);
            let ghost tk = self.transition_keys()[i as int];
            let ghost post = self.transition_at(i as int).post_keys();
            assert(entry.0@ == tk);
            let mut j: usize = 0;
            while j < postset.len()
                invariant
                    j <= post.len(),
                    postset.keys() == post,
                    entry.0@ == tk,
                    r@.map_values(|a: (TransitionRef, PlaceRef)| (a.0@, a.1@)) == base + post.take(
                        j as int,
                    ).map_values(|p: RefKey| (tk, p)),
                decreases post.len() - j,
            {
                let ghost before = r@.map_values(|a: (TransitionRef, PlaceRef)| (a.0@, a.1@));
                let p = postset.get(j);
                let pair = (entry.0.clone(), p.clone());
                assert(pair.0@ == tk && pair.1@ == post[j as int]);
                r.push(pair);
                assert(r@.map_values(|a: (TransitionRef, PlaceRef)| (a.0@, a.1@)) =~= before.push((tk, post[j as int])));
                assert(post.take(j as int + 1) =~= post.take(j as int).push(post[j as int]));
                assert(r@.map_values(|a: (TransitionRef, PlaceRef)| (a.0@, a.1@)) =~= base + post.take(
                    j as int + 1,
                ).map_values(|p: RefKey| (tk, p)));
                j = j + 1;
            }
            assert(post.take(post.len() as int) =~= post);
            i = i + 1;
        }
        r
    }

    /// The places and their references, in canonical order.
    pub fn places_iter(&self) -> (r: &[(PlaceRef, Place)])
        ensures
            r@.len() == self.place_keys().len(),
            forall|i: int|
                0 <= i < r@.len() ==> #[trigger] r@[i].0@ == self.place_keys()[i] && r@[i].1
                    == self.place_at(i),
    {
        self.places.as_slice()
    }

    /// The transitions and their references, in canonical order.
    pub fn transitions_iter(&self) -> (r: &[(TransitionRef, Transition)])
        ensures
            r@.len() == self.transition_keys().len(),
            forall|j: int|
                0 <= j < r@.len() ==> #[trigger] r@[j].0@ == self.transition_keys()[j] && r@[j].1
                    == self.transition_at(j),
    {
        self.transitions.as_slice()
    }

    /// Whether the referenced place is in the net.
    pub fn check_place_ref(&self, place_ref: &PlaceRef) -> (r: bool)
        ensures
            r == self.has_place(place_ref@),
    {
        self.place_position(place_ref).is_some()
    }

    /// Whether the referenced transition is in the net.
    pub fn check_transition_ref(&self, transition_ref: &TransitionRef) -> (r: bool)
        ensures
            r == self.has_transition(transition_ref@),
    {
        self.transition_position(transition_ref).is_some()
    }
}

/// The outcome of recording an arc on its two ends: both new is success, both
/// present is a duplicate, and one of each means the net was corrupted.
fn arc_insertion_outcome(inserted_incoming: bool, inserted_outgoing: bool) -> (r: Result<
    (),
    NetError,
>)
    ensures
        inserted_incoming && inserted_outgoing ==> r is Ok,
        !inserted_incoming && !inserted_outgoing ==> r == Err::<(), NetError>(
            NetError::DuplicateArc,
        ),
        inserted_incoming != inserted_outgoing ==> r == Err::<(), NetError>(
            NetError::InconsistentState,
        ),
{
    if !inserted_outgoing && !inserted_incoming {
        return Err(NetError::DuplicateArc);
    }
    if !inserted_outgoing || !inserted_incoming {
        return Err(NetError::InconsistentState);
    }
    Ok(())
}

impl Default for PetriNet {
    fn default() -> (r: PetriNet)
        ensures
            r.wf(),
            r.place_keys().len() == 0,
            r.transition_keys().len() == 0,
    {
        PetriNet::new()
    }
}

} // verus!
