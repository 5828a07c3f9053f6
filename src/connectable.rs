//! Uniform access to the arcs recorded on a node.
use vstd::prelude::*;
use crate::node::{Place, Transition};
use crate::node_ref::{NodeRef, PlaceRef, RefKey, TransitionRef};
use crate::ref_set::RefSet;

verus! {

/// A node that records the nodes with an arc into it.
pub trait PresetConnectable {
    type RefType: NodeRef;

    /// The nodes with an arc into this one, in canonical order.
    spec fn preset_keys(&self) -> Seq<RefKey>;

    spec fn preset_wf(&self) -> bool;

    fn get_preset(&self) -> (r: &RefSet<Self::RefType>)
        ensures
            r.keys() == self.preset_keys(),
    ;

    /// Records an arc from `reference`. Returns whether it was new.
    fn add_incoming(&mut self, reference: Self::RefType) -> (r: bool)
        requires
            old(self).preset_wf(),
        ensures
            final(self).preset_wf(),
            r == !old(self).preset_keys().contains(reference.key()),
            Set::new(|k: RefKey| final(self).preset_keys().contains(k)) == Set::new(
                |k: RefKey| old(self).preset_keys().contains(k),
            ).insert(reference.key()),
    ;

    /// Forgets an arc from `reference`. Returns whether it was present.
    fn remove_incoming(&mut self, reference: &Self::RefType) -> (r: bool)
        requires
            old(self).preset_wf(),
        ensures
            final(self).preset_wf(),
            r == old(self).preset_keys().contains(reference.key()),
            Set::new(|k: RefKey| final(self).preset_keys().contains(k)) == Set::new(
                |k: RefKey| old(self).preset_keys().contains(k),
            ).remove(reference.key()),
    ;
}

/// A node that records the nodes it has an arc to.
pub trait PostsetConnectable {
    type RefType: NodeRef;

    /// The nodes this one has an arc to, in canonical order.
    spec fn postset_keys(&self) -> Seq<RefKey>;

    spec fn postset_wf(&self) -> bool;

    fn get_postset(&self) -> (r: &RefSet<Self::RefType>)
        ensures
            r.keys() == self.postset_keys(),
    ;

    /// Records an arc to `reference`. Returns whether it was new.
    fn add_outgoing(&mut self, reference: Self::RefType) -> (r: bool)
        requires
            old(self).postset_wf(),
        ensures
            final(self).postset_wf(),
            r == !old(self).postset_keys().contains(reference.key()),
            Set::new(|k: RefKey| final(self).postset_keys().contains(k)) == Set::new(
                |k: RefKey| old(self).postset_keys().contains(k),
            ).insert(reference.key()),
    ;

    /// Forgets an arc to `reference`. Returns whether it was present.
    fn remove_outgoing(&mut self, reference: &Self::RefType) -> (r: bool)
        requires
            old(self).postset_wf(),
        ensures
            final(self).postset_wf(),
            r == old(self).postset_keys().contains(reference.key()),
            Set::new(|k: RefKey| final(self).postset_keys().contains(k)) == Set::new(
                |k: RefKey| old(self).postset_keys().contains(k),
            ).remove(reference.key()),
    ;
}

impl PresetConnectable for Place {
    type RefType = TransitionRef;

    open spec fn preset_keys(&self) -> Seq<RefKey> {
        self.pre_keys()
    }

    open spec fn preset_wf(&self) -> bool {
        self.wf()
    }

    fn get_preset(&self) -> (r: &RefSet<TransitionRef>) {
        Place::get_preset(self)
    }

    fn add_incoming(&mut self, reference: TransitionRef) -> (r: bool) {
        Place::add_incoming(self, reference)
    }

    fn remove_incoming(&mut self, reference: &TransitionRef) -> (r: bool) {
        Place::remove_incoming(self, reference)
    }
}

impl PostsetConnectable for Place {
    type RefType = TransitionRef;

    open spec fn postset_keys(&self) -> Seq<RefKey> {
        self.post_keys()
    }

    open spec fn postset_wf(&self) -> bool {
        self.wf()
    }

    fn get_postset(&self) -> (r: &RefSet<TransitionRef>) {
        Place::get_postset(self)
    }

    fn add_outgoing(&mut self, reference: TransitionRef) -> (r: bool) {
        Place::add_outgoing(self, reference)
    }

    fn remove_outgoing(&mut self, reference: &TransitionRef) -> (r: bool) {
        Place::remove_outgoing(self, reference)
    }
}

impl PresetConnectable for Transition {
    type RefType = PlaceRef;

    open spec fn preset_keys(&self) -> Seq<RefKey> {
        self.pre_keys()
    }

    open spec fn preset_wf(&self) -> bool {
        self.wf()
    }

    fn get_preset(&self) -> (r: &RefSet<PlaceRef>) {
        Transition::get_preset(self)
    }

    fn add_incoming(&mut self, reference: PlaceRef) -> (r: bool) {
        Transition::add_incoming(self, reference)
    }

    fn remove_incoming(&mut self, reference: &PlaceRef) -> (r: bool) {
        Transition::remove_incoming(self, reference)
    }
}

impl PostsetConnectable for Transition {
    type RefType = PlaceRef;

    open spec fn postset_keys(&self) -> Seq<RefKey> {
        self.post_keys()
    }

    open spec fn postset_wf(&self) -> bool {
        self.wf()
    }

    fn get_postset(&self) -> (r: &RefSet<PlaceRef>) {
        Transition::get_postset(self)
    }

    fn add_outgoing(&mut self, reference: PlaceRef) -> (r: bool) {
        Transition::add_outgoing(self, reference)
    }

    fn remove_outgoing(&mut self, reference: &PlaceRef) -> (r: bool) {
        Transition::remove_outgoing(self, reference)
    }
}

} // verus!
