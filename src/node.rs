use vstd::prelude::*;
use crate::error::NetError;
use crate::node_ref::{NodeRef, PlaceRef, RefKey, TransitionRef};
use crate::ref_set::RefSet;

verus! {

/// A place: a token count and the transitions connected to it by arcs.
#[derive(Debug)]
pub struct Place {
    marking: usize,
    preset: RefSet<TransitionRef>,
    postset: RefSet<TransitionRef>,
}

/// A transition: the places connected to it by arcs.
#[derive(Debug)]
pub struct Transition {
    preset: RefSet<PlaceRef>,
    postset: RefSet<PlaceRef>,
}

impl Place {
    /// The number of tokens.
    pub closed spec fn tokens(&self) -> nat {
        self.marking as nat
    }

    /// The transitions with an arc into this place, in canonical order.
    pub closed spec fn pre_keys(&self) -> Seq<RefKey> {
        self.preset.keys()
    }

    /// The transitions with an arc out of this place, in canonical order.
    pub closed spec fn post_keys(&self) -> Seq<RefKey> {
        self.postset.keys()
    }

    pub open spec fn pre(&self) -> Set<RefKey> {
        Set::new(|k: RefKey| self.pre_keys().contains(k))
    }

    pub open spec fn post(&self) -> Set<RefKey> {
        Set::new(|k: RefKey| self.post_keys().contains(k))
    }

    pub closed spec fn wf(&self) -> bool {
        self.preset.wf() && self.postset.wf()
    }

    /// Creates a place without tokens or arcs.
    pub fn new() -> (r: Place)
        ensures
            r.wf(),
            r.tokens() == 0,
            r.pre_keys() == Seq::<RefKey>::empty(),
            r.post_keys() == Seq::<RefKey>::empty(),
    {
        Place { marking: 0, preset: RefSet::new(), postset: RefSet::new() }
    }

    /// Whether the place holds no token.
    pub fn is_empty(&self) -> (r: bool)
        ensures
            r == (self.tokens() == 0),
    {
        self.marking == 0
    }

    /// The number of tokens.
    pub fn marking(&self) -> (r: usize)
        ensures
            r == self.tokens(),
    {
        self.marking
    }

    /// Adds `tokens_to_add` tokens. Fails with `Overflow`, leaving the place
    /// unchanged, if the count would exceed `usize::MAX`.
    pub fn add_token(&mut self, tokens_to_add: usize) -> (r: Result<(), NetError>)
        ensures
            final(self).pre_keys() == old(self).pre_keys(),
            final(self).post_keys() == old(self).post_keys(),
            final(self).wf() == old(self).wf(),
            old(self).tokens() + tokens_to_add <= usize::MAX ==> r is Ok && final(self).tokens()
                == old(self).tokens() + tokens_to_add,
            old(self).tokens() + tokens_to_add > usize::MAX ==> r == Err::<(), NetError>(
                NetError::Overflow,
            ) && final(self).tokens() == old(self).tokens(),
    {
        match self.marking.checked_add(tokens_to_add) {
            Some(value) => {
                self.marking = value;
                Ok(())
            },
            None => Err(NetError::Overflow),
        }
    }

    /// Removes `tokens_to_remove` tokens. Fails with `Underflow`, leaving the
    /// place unchanged, if it holds fewer.
    pub fn remove_token(&mut self, tokens_to_remove: usize) -> (r: Result<(), NetError>)
        ensures
            final(self).pre_keys() == old(self).pre_keys(),
            final(self).post_keys() == old(self).post_keys(),
            final(self).wf() == old(self).wf(),
            tokens_to_remove <= old(self).tokens() ==> r is Ok && final(self).tokens() == old(self).tokens() - tokens_to_remove,
            tokens_to_remove > old(self).tokens() ==> r == Err::<(), NetError>(NetError::Underflow)
                && final(self).tokens() == old(self).tokens(),
    {
        if self.marking < tokens_to_remove {
            return Err(NetError::Underflow);
        }
        self.marking = self.marking - tokens_to_remove;
        Ok(())
    }

    /// The transitions with an arc into this place.
    pub fn get_preset(&self) -> (r: &RefSet<TransitionRef>)
        ensures
            r.keys() == self.pre_keys(),
    {
        &self.preset
    }

    /// The transitions with an arc out of this place.
    pub fn get_postset(&self) -> (r: &RefSet<TransitionRef>)
        ensures
            r.keys() == self.post_keys(),
    {
        &self.postset
    }

    /// Mutable access to the set of nodes with an arc into this one.
    pub fn get_preset_mut(&mut self) -> (r: &mut RefSet<TransitionRef>)
        ensures
            r.keys() == old(self).pre_keys(),
            old(self).wf() ==> r.wf(),
            final(self).pre_keys() == final(r).keys(),
            final(self).post_keys() == old(self).post_keys(),
            old(self).wf() && final(r).wf() ==> final(self).wf(),
            final(self).tokens() == old(self).tokens(),
    {
        &mut self.preset
    }

    /// Mutable access to the set of nodes this one has an arc to.
    pub fn get_postset_mut(&mut self) -> (r: &mut RefSet<TransitionRef>)
        ensures
            r.keys() == old(self).post_keys(),
            old(self).wf() ==> r.wf(),
            final(self).post_keys() == final(r).keys(),
            final(self).pre_keys() == old(self).pre_keys(),
            old(self).wf() && final(r).wf() ==> final(self).wf(),
            final(self).tokens() == old(self).tokens(),
    {
        &mut self.postset
    }

    /// Records an arc from `reference` into this place. Returns whether it was new.
    pub fn add_incoming(&mut self, reference: TransitionRef) -> (r: bool)
        requires
            old(self).wf(),
        ensures
            final(self).wf(),
            r == !old(self).pre().contains(reference@),
            final(self).pre() == old(self).pre().insert(reference@),
            !r ==> final(self).pre_keys() == old(self).pre_keys(),
            final(self).post_keys() == old(self).post_keys(),
            final(self).tokens() == old(self).tokens(),
    {
        self.preset.insert(reference)
    }

    /// Forgets an arc from `reference` into this place. Returns whether it was present.
    pub fn remove_incoming(&mut self, reference: &TransitionRef) -> (r: bool)
        requires
            old(self).wf(),
        ensures
            final(self).wf(),
            r == old(self).pre().contains(reference@),
            final(self).pre() == old(self).pre().remove(reference@),
            final(self).post_keys() == old(self).post_keys(),
            final(self).tokens() == old(self).tokens(),
    {
        self.preset.remove(reference)
    }

    /// Records an arc from this place to `reference`. Returns whether it was new.
    pub fn add_outgoing(&mut self, reference: TransitionRef) -> (r: bool)
        requires
            old(self).wf(),
        ensures
            final(self).wf(),
            r == !old(self).post().contains(reference@),
            final(self).post() == old(self).post().insert(reference@),
            !r ==> final(self).post_keys() == old(self).post_keys(),
            final(self).pre_keys() == old(self).pre_keys(),
            final(self).tokens() == old(self).tokens(),
    {
        self.postset.insert(reference)
    }

    /// Forgets an arc from this place to `reference`. Returns whether it was present.
    pub fn remove_outgoing(&mut self, reference: &TransitionRef) -> (r: bool)
        requires
            old(self).wf(),
        ensures
            final(self).wf(),
            r == old(self).post().contains(reference@),
            final(self).post() == old(self).post().remove(reference@),
            final(self).pre_keys() == old(self).pre_keys(),
            final(self).tokens() == old(self).tokens(),
    {
        self.postset.remove(reference)
    }
}

impl Default for Place {
    fn default() -> (r: Place)
        ensures
            r.wf(),
            r.tokens() == 0,
            r.pre_keys() == Seq::<RefKey>::empty(),
            r.post_keys() == Seq::<RefKey>::empty(),
    {
        Place::new()
    }
}

impl Transition {
    /// The places with an arc into this transition, in canonical order.
    pub closed spec fn pre_keys(&self) -> Seq<RefKey> {
        self.preset.keys()
    }

    /// The places with an arc out of this transition, in canonical order.
    pub closed spec fn post_keys(&self) -> Seq<RefKey> {
        self.postset.keys()
    }

    pub open spec fn pre(&self) -> Set<RefKey> {
        Set::new(|k: RefKey| self.pre_keys().contains(k))
    }

    pub open spec fn post(&self) -> Set<RefKey> {
        Set::new(|k: RefKey| self.post_keys().contains(k))
    }

    pub closed spec fn wf(&self) -> bool {
        self.preset.wf() && self.postset.wf()
    }

    /// Creates a transition without arcs.
    pub fn new() -> (r: Transition)
        ensures
            r.wf(),
            r.pre_keys() == Seq::<RefKey>::empty(),
            r.post_keys() == Seq::<RefKey>::empty(),
    {
        Transition { preset: RefSet::new(), postset: RefSet::new() }
    }

    /// The places with an arc into this transition.
    pub fn get_preset(&self) -> (r: &RefSet<PlaceRef>)
        ensures
            r.keys() == self.pre_keys(),
    {
        &self.preset
    }

    /// The places with an arc out of this transition.
    pub fn get_postset(&self) -> (r: &RefSet<PlaceRef>)
        ensures
            r.keys() == self.post_keys(),
    {
        &self.postset
    }

    /// Mutable access to the set of nodes with an arc into this one.
    pub fn get_preset_mut(&mut self) -> (r: &mut RefSet<PlaceRef>)
        ensures
            r.keys() == old(self).pre_keys(),
            old(self).wf() ==> r.wf(),
            final(self).pre_keys() == final(r).keys(),
            final(self).post_keys() == old(self).post_keys(),
            old(self).wf() && final(r).wf() ==> final(self).wf(),
    {
        &mut self.preset
    }

    /// Mutable access to the set of nodes this one has an arc to.
    pub fn get_postset_mut(&mut self) -> (r: &mut RefSet<PlaceRef>)
        ensures
            r.keys() == old(self).post_keys(),
            old(self).wf() ==> r.wf(),
            final(self).post_keys() == final(r).keys(),
            final(self).pre_keys() == old(self).pre_keys(),
            old(self).wf() && final(r).wf() ==> final(self).wf(),
    {
        &mut self.postset
    }

    /// Records an arc from `reference` into this transition. Returns whether it was new.
    pub fn add_incoming(&mut self, reference: PlaceRef) -> (r: bool)
        requires
            old(self).wf(),
        ensures
            final(self).wf(),
            r == !old(self).pre().contains(reference@),
            final(self).pre() == old(self).pre().insert(reference@),
            !r ==> final(self).pre_keys() == old(self).pre_keys(),
            final(self).post_keys() == old(self).post_keys(),
    {
        self.preset.insert(reference)
    }

    /// Forgets an arc from `reference` into this transition. Returns whether it was present.
    pub fn remove_incoming(&mut self, reference: &PlaceRef) -> (r: bool)
        requires
            old(self).wf(),
        ensures
            final(self).wf(),
            r == old(self).pre().contains(reference@),
            final(self).pre() == old(self).pre().remove(reference@),
            final(self).post_keys() == old(self).post_keys(),
    {
        self.preset.remove(reference)
    }

    /// Records an arc from this transition to `reference`. Returns whether it was new.
    pub fn add_outgoing(&mut self, reference: PlaceRef) -> (r: bool)
        requires
            old(self).wf(),
        ensures
            final(self).wf(),
            r == !old(self).post().contains(reference@),
            final(self).post() == old(self).post().insert(reference@),
            !r ==> final(self).post_keys() == old(self).post_keys(),
            final(self).pre_keys() == old(self).pre_keys(),
    {
        self.postset.insert(reference)
    }

    /// Forgets an arc from this transition to `reference`. Returns whether it was present.
    pub fn remove_outgoing(&mut self, reference: &PlaceRef) -> (r: bool)
        requires
            old(self).wf(),
        ensures
            final(self).wf(),
            r == old(self).post().contains(reference@),
            final(self).post() == old(self).post().remove(reference@),
            final(self).pre_keys() == old(self).pre_keys(),
    {
        self.postset.remove(reference)
    }
}

impl Default for Transition {
    fn default() -> (r: Transition)
        ensures
            r.wf(),
            r.pre_keys() == Seq::<RefKey>::empty(),
            r.post_keys() == Seq::<RefKey>::empty(),
    {
        Transition::new()
    }
}

} // verus!
