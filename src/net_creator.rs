//! Small nets of fixed shapes, with places labelled `P1, P2, ...` and
//! transitions labelled `T1, T2, ...`.
use vstd::prelude::*;
use vstd::string::StringExecFns;
use crate::net::PetriNet;
use crate::node_ref::{PlaceRef, RefKey, TransitionRef};
use crate::text::{decimal, decimal_string};

verus! {

/// The label `prefix` followed by `i` in decimal.
pub open spec fn indexed_label(prefix: Seq<char>, i: nat) -> Seq<char> {
    prefix + decimal(i)
}

/// No place of the net holds a token.
pub open spec fn holds_no_token(net: &PetriNet) -> bool {
    forall|p: RefKey| #[trigger] net.has_place(p) ==> net.marking_of(p) == 0
}

fn make_label(prefix: &str, i: usize) -> (r: String)
    ensures
        r@ == indexed_label(prefix@, i as nat),
{
    let mut label = prefix.to_owned();
    let number = decimal_string(i);
    label.append(number.as_str());
    label
}

/// Adds places `P1..Pcount`, returning their references in that order.
fn add_numbered_places(net: &mut PetriNet, count: usize) -> (r: Vec<PlaceRef>)
    requires
        old(net).wf(),
        holds_no_token(old(net)),
    ensures
        holds_no_token(final(net)),
        final(net).wf(),
        final(net).place_keys().len() == old(net).place_keys().len() + count,
        final(net).transition_keys() == old(net).transition_keys(),
        final(net).arcs_pt() == old(net).arcs_pt(),
        final(net).arcs_tp() == old(net).arcs_tp(),
        r@.len() == count,
        forall|k: int| 0 <= k < count ==> #[trigger] final(net).has_place(r@[k]@),
        forall|k: int|
            0 <= k < count ==> (#[trigger] r@[k])@.0 == indexed_label("P"@, (k + 1) as nat),
        forall|a: int, b: int| 0 <= a < b < count ==> #[trigger] r@[a]@ != #[trigger] r@[b]@,
{
    let mut refs: Vec<PlaceRef> = Vec::new();
    let mut i: usize = 0;
    while i < count
        invariant
            holds_no_token(net),
            net.wf(),
            i <= count,
            net.place_keys().len() == old(net).place_keys().len() + i,
            net.transition_keys() == old(net).transition_keys(),
            net.arcs_pt() == old(net).arcs_pt(),
            net.arcs_tp() == old(net).arcs_tp(),
            refs@.len() == i,
            forall|k: int| 0 <= k < i ==> #[trigger] net.has_place(refs@[k]@),
            forall|k: int| 0 <= k < i ==> (#[trigger] refs@[k])@.0 == indexed_label("P"@, (k + 1) as nat),
            forall|a: int, b: int| 0 <= a < b < i ==> #[trigger] refs@[a]@ != #[trigger] refs@[b]@,
        decreases count - i,
    {
        let label = make_label("P", i + 1);
        let ghost before = *net;
        let ghost old_refs = refs@;
        let place_ref = net.add_place(label.as_str());
        let ghost new_key = place_ref@;
        refs.push(place_ref);
        i = i + 1;
        proof {
            assert forall|p: RefKey| #[trigger] net.has_place(p) implies net.marking_of(p) == 0 by {
                if before.has_place(p) {
                    assert(before.marking_of(p) == 0);
                }
            }
            assert(forall|k: int| 0 <= k < i - 1 ==> refs@[k] == old_refs[k]);
            assert(refs@[i - 1]@ == new_key);
            assert forall|k: int| 0 <= k < i implies (#[trigger] refs@[k])@.0 == indexed_label("P"@, (k + 1) as nat) by {
                if k < i - 1 {
                    assert(old_refs[k]@.0 == indexed_label("P"@, (k + 1) as nat));
                }
            }
            assert forall|k: int| 0 <= k < i implies #[trigger] net.has_place(refs@[k]@) by {
                if k < i - 1 {
                    assert(before.has_place(old_refs[k]@));
                } else {
                    assert(net.has_place(new_key));
                }
            }
            assert forall|a: int, b: int| 0 <= a < b < i implies #[trigger] refs@[a]@ != #[trigger] refs@[b]@ by {
                assert(before.has_place(old_refs[a]@));
                if b < i - 1 {
                    assert(old_refs[a]@ != old_refs[b]@);
                }
            }
        }
    }
    refs
}

/// Adds transitions `T1..Tcount`, returning their references in that order.
fn add_numbered_transitions(net: &mut PetriNet, count: usize) -> (r: Vec<TransitionRef>)
    requires
        old(net).wf(),
        holds_no_token(old(net)),
    ensures
        holds_no_token(final(net)),
        final(net).wf(),
        final(net).transition_keys().len() == old(net).transition_keys().len() + count,
        final(net).place_keys() == old(net).place_keys(),
        final(net).arcs_pt() == old(net).arcs_pt(),
        final(net).arcs_tp() == old(net).arcs_tp(),
        r@.len() == count,
        forall|k: int| 0 <= k < count ==> #[trigger] final(net).has_transition(r@[k]@),
        forall|k: int|
            0 <= k < count ==> (#[trigger] r@[k])@.0 == indexed_label("T"@, (k + 1) as nat),
        forall|a: int, b: int| 0 <= a < b < count ==> #[trigger] r@[a]@ != #[trigger] r@[b]@,
{
    let mut refs: Vec<TransitionRef> = Vec::new();
    let mut i: usize = 0;
    while i < count
        invariant
            holds_no_token(net),
            net.wf(),
            i <= count,
            net.transition_keys().len() == old(net).transition_keys().len() + i,
            net.place_keys() == old(net).place_keys(),
            net.arcs_pt() == old(net).arcs_pt(),
            net.arcs_tp() == old(net).arcs_tp(),
            refs@.len() == i,
            forall|k: int| 0 <= k < i ==> #[trigger] net.has_transition(refs@[k]@),
            forall|k: int| 0 <= k < i ==> (#[trigger] refs@[k])@.0 == indexed_label("T"@, (k + 1) as nat),
            forall|a: int, b: int| 0 <= a < b < i ==> #[trigger] refs@[a]@ != #[trigger] refs@[b]@,
        decreases count - i,
    {
        let label = make_label("T", i + 1);
        let ghost before = *net;
        let ghost old_refs = refs@;
        let transition_ref = net.add_transition(label.as_str());
        let ghost new_key = transition_ref@;
        refs.push(transition_ref);
        i = i + 1;
        proof {
            assert forall|p: RefKey| #[trigger] net.has_place(p) implies net.marking_of(p) == 0 by {
                assert(before.has_place(p));
            }
            assert(forall|k: int| 0 <= k < i - 1 ==> refs@[k] == old_refs[k]);
            assert(refs@[i - 1]@ == new_key);
            assert forall|k: int| 0 <= k < i implies (#[trigger] refs@[k])@.0 == indexed_label("T"@, (k + 1) as nat) by {
                if k < i - 1 {
                    assert(old_refs[k]@.0 == indexed_label("T"@, (k + 1) as nat));
                }
            }
            assert forall|k: int| 0 <= k < i implies #[trigger] net.has_transition(refs@[k]@) by {
                if k < i - 1 {
                    assert(before.has_transition(old_refs[k]@));
                } else {
                    assert(net.has_transition(new_key));
                }
            }
            assert forall|a: int, b: int| 0 <= a < b < i implies #[trigger] refs@[a]@ != #[trigger] refs@[b]@ by {
                assert(before.has_transition(old_refs[a]@));
                if b < i - 1 {
                    assert(old_refs[a]@ != old_refs[b]@);
                }
            }
        }
    }
    refs
}

/// A net of `number_of_places` places `P1..` and `number_of_transitions`
/// transitions `T1..`, without arcs, with their references in the order of
/// their numbers.
pub fn create_basic_unconnected_net(number_of_places: usize, number_of_transitions: usize) -> (r: (
    PetriNet,
    Vec<PlaceRef>,
    Vec<TransitionRef>,
))
    ensures
        holds_no_token(&r.0),
        r.0.wf(),
        r.0.place_keys().len() == number_of_places,
        r.0.transition_keys().len() == number_of_transitions,
        r.1@.len() == number_of_places,
        r.2@.len() == number_of_transitions,
        forall|k: int| 0 <= k < number_of_places ==> #[trigger] r.0.has_place(r.1@[k]@),
        forall|k: int|
            0 <= k < number_of_places ==> (#[trigger] r.1@[k])@.0 == indexed_label("P"@, (k + 1) as nat),
        forall|k: int| 0 <= k < number_of_transitions ==> #[trigger] r.0.has_transition(r.2@[k]@),
        forall|k: int|
            0 <= k < number_of_transitions ==> (#[trigger] r.2@[k])@.0 == indexed_label("T"@, (k + 1) as nat),
        forall|a: int, b: int|
            0 <= a < b < number_of_places ==> #[trigger] r.1@[a]@ != #[trigger] r.1@[b]@,
        forall|a: int, b: int|
            0 <= a < b < number_of_transitions ==> #[trigger] r.2@[a]@ != #[trigger] r.2@[b]@,
        r.0.arcs_pt() == Set::<(RefKey, RefKey)>::empty(),
        r.0.arcs_tp() == Set::<(RefKey, RefKey)>::empty(),
{
    let mut net = PetriNet::new();
    assert(holds_no_token(&net));
    assert(net.arcs_pt() =~= Set::<(RefKey, RefKey)>::empty());
    assert(net.arcs_tp() =~= Set::<(RefKey, RefKey)>::empty());
    let place_refs = add_numbered_places(&mut net, number_of_places);
    let ghost with_places = net;
    let transition_refs = add_numbered_transitions(&mut net, number_of_transitions);
    assert forall|k: int| 0 <= k < number_of_places implies #[trigger] net.has_place(place_refs@[k]@) by {
        assert(with_places.has_place(place_refs@[k]@));
    }
    (net, place_refs, transition_refs)
}

/// A chain `P1 -> T1 -> P2 -> ... -> T(length-1) -> P(length)`: `length`
/// places and `length - 1` transitions. Empty for length zero.
#[verifier::rlimit(50)]
pub fn create_net_chain_topology(length: usize) -> (r: (PetriNet, Vec<PlaceRef>, Vec<TransitionRef>))
    ensures
        holds_no_token(&r.0),
        r.0.wf(),
        r.0.place_keys().len() == length,
        r.1@.len() == length,
        length > 0 ==> r.0.transition_keys().len() == length - 1 && r.2@.len() == length - 1,
        length == 0 ==> r.0.transition_keys().len() == 0 && r.2@.len() == 0,
        forall|k: int|
            0 <= k < r.1@.len() ==> #[trigger] r.0.has_place(r.1@[k]@) && r.1@[k]@.0
                == indexed_label("P"@, (k + 1) as nat),
        forall|k: int|
            0 <= k < r.2@.len() ==> #[trigger] r.0.has_transition(r.2@[k]@) && r.2@[k]@.0
                == indexed_label("T"@, (k + 1) as nat),
        r.0.arcs_pt() == Set::new(
            |a: (RefKey, RefKey)|
                exists|k: int| 0 <= k < r.2@.len() && a == (r.1@[k]@, r.2@[k]@),
        ),
        r.0.arcs_tp() == Set::new(
            |a: (RefKey, RefKey)|
                exists|k: int| 0 <= k < r.2@.len() && a == (r.2@[k]@, r.1@[k + 1]@),
        ),
{
    if length == 0 {
        let net = PetriNet::new();
        assert(holds_no_token(&net));
        let place_refs: Vec<PlaceRef> = Vec::new();
        let transition_refs: Vec<TransitionRef> = Vec::new();
        assert(net.arcs_pt() =~= Set::new(
            |a: (RefKey, RefKey)|
                exists|k: int|
                    0 <= k < transition_refs@.len() && a == (place_refs@[k]@, transition_refs@[k]@),
        ));
        assert(net.arcs_tp() =~= Set::new(
            |a: (RefKey, RefKey)|
                exists|k: int|
                    0 <= k < transition_refs@.len() && a == (transition_refs@[k]@, place_refs@[k + 1]@),
        ));
        return (net, place_refs, transition_refs);
    }
    let (mut net, place_refs, transition_refs) = create_basic_unconnected_net(length, length - 1);
    let ghost ps = place_refs@;
    let ghost ts = transition_refs@;
    let mut i: usize = 0;
    while i < length - 1
        invariant
            net.wf(),
            holds_no_token(&net),
            i <= length - 1,
            ps == place_refs@,
            ts == transition_refs@,
            ps.len() == length,
            ts.len() == length - 1,
            net.place_keys().len() == length,
            net.transition_keys().len() == length - 1,
            forall|k: int| 0 <= k < length ==> #[trigger] net.has_place(ps[k]@) && ps[k]@.0
                == indexed_label("P"@, (k + 1) as nat),
            forall|k: int| 0 <= k < length - 1 ==> #[trigger] net.has_transition(ts[k]@)
                && ts[k]@.0 == indexed_label("T"@, (k + 1) as nat),
            forall|a: int, b: int| 0 <= a < b < length - 1 ==> #[trigger] ts[a]@ != #[trigger] ts[b]@,
            net.arcs_pt() == Set::new(
                |a: (RefKey, RefKey)| exists|k: int| 0 <= k < i && a == (ps[k]@, ts[k]@),
            ),
            net.arcs_tp() == Set::<(RefKey, RefKey)>::empty(),
        decreases length - 1 - i,
    {
        let ghost before = net.arcs_pt();
        proof {
            assert(net.has_place(ps[i as int]@));
            assert(net.has_transition(ts[i as int]@));
            if net.has_arc_pt(ps[i as int]@, ts[i as int]@) {
                assert(before.contains((ps[i as int]@, ts[i as int]@)));
                let k = choose|k: int| 0 <= k < i && (ps[i as int]@, ts[i as int]@) == (ps[k]@, ts[k]@);
                assert(ts[k]@ != ts[i as int]@);
            }
        }
        let ghost old_net = net;
        let r = net.add_arc_place_transition(&place_refs[i], &transition_refs[i]);
        assert(r is Ok);
        assert forall|p: RefKey| #[trigger] net.has_place(p) implies net.marking_of(p) == 0 by {
            assert(old_net.has_place(p));
        }
        assert forall|k: int| 0 <= k < length implies #[trigger] net.has_place(ps[k]@) && ps[k]@.0
            == indexed_label("P"@, (k + 1) as nat) by {
            assert(old_net.has_place(ps[k]@));
        }
        assert forall|k: int| 0 <= k < length - 1 implies #[trigger] net.has_transition(ts[k]@)
            && ts[k]@.0 == indexed_label("T"@, (k + 1) as nat) by {
            assert(old_net.has_transition(ts[k]@));
        }
        assert(net.arcs_pt() =~= Set::new(
            |a: (RefKey, RefKey)| exists|k: int| 0 <= k < i + 1 && a == (ps[k]@, ts[k]@),
        )) by {
            assert forall|a: (RefKey, RefKey)| net.arcs_pt().contains(a) <==> exists|k: int| 0 <= k < i + 1 && a == (ps[k]@, ts[k]@) by {
                if a == (ps[i as int]@, ts[i as int]@) {
                    assert(0 <= i < i + 1);
                }
                if exists|k: int| 0 <= k < i + 1 && a == (ps[k]@, ts[k]@) {
                    let k = choose|k: int| 0 <= k < i + 1 && a == (ps[k]@, ts[k]@);
                    if k < i {
                        assert(before.contains(a));
                    }
                }
            }
        }
        i = i + 1;
    }
    let mut i: usize = 0;
    while i < length - 1
        invariant
            net.wf(),
            holds_no_token(&net),
            i <= length - 1,
            ps == place_refs@,
            ts == transition_refs@,
            ps.len() == length,
            ts.len() == length - 1,
            net.place_keys().len() == length,
            net.transition_keys().len() == length - 1,
            forall|k: int| 0 <= k < length ==> #[trigger] net.has_place(ps[k]@) && ps[k]@.0
                == indexed_label("P"@, (k + 1) as nat),
            forall|k: int| 0 <= k < length - 1 ==> #[trigger] net.has_transition(ts[k]@)
                && ts[k]@.0 == indexed_label("T"@, (k + 1) as nat),
            forall|a: int, b: int| 0 <= a < b < length - 1 ==> #[trigger] ts[a]@ != #[trigger] ts[b]@,
            net.arcs_pt() == Set::new(
                |a: (RefKey, RefKey)| exists|k: int| 0 <= k < length - 1 && a == (ps[k]@, ts[k]@),
            ),
            net.arcs_tp() == Set::new(
                |a: (RefKey, RefKey)| exists|k: int| 0 <= k < i && a == (ts[k]@, ps[k + 1]@),
            ),
        decreases length - 1 - i,
    {
        let ghost before = net.arcs_tp();
        proof {
            assert(net.has_place(ps[i + 1]@));
            assert(net.has_transition(ts[i as int]@));
            if net.has_arc_tp(ts[i as int]@, ps[i + 1]@) {
                assert(before.contains((ts[i as int]@, ps[i + 1]@)));
                let k = choose|k: int| 0 <= k < i && (ts[i as int]@, ps[i + 1]@) == (ts[k]@, ps[k + 1]@);
                assert(ts[k]@ != ts[i as int]@);
            }
        }
        let ghost old_net = net;
        let r = net.add_arc_transition_place(&transition_refs[i], &place_refs[i + 1]);
        assert(r is Ok);
        assert forall|p: RefKey| #[trigger] net.has_place(p) implies net.marking_of(p) == 0 by {
            assert(old_net.has_place(p));
        }
        assert forall|k: int| 0 <= k < length implies #[trigger] net.has_place(ps[k]@) && ps[k]@.0
            == indexed_label("P"@, (k + 1) as nat) by {
            assert(old_net.has_place(ps[k]@));
        }
        assert forall|k: int| 0 <= k < length - 1 implies #[trigger] net.has_transition(ts[k]@)
            && ts[k]@.0 == indexed_label("T"@, (k + 1) as nat) by {
            assert(old_net.has_transition(ts[k]@));
        }
        assert(net.arcs_tp() =~= Set::new(
            |a: (RefKey, RefKey)| exists|k: int| 0 <= k < i + 1 && a == (ts[k]@, ps[k + 1]@),
        )) by {
            assert forall|a: (RefKey, RefKey)| net.arcs_tp().contains(a) <==> exists|k: int| 0 <= k < i + 1 && a == (ts[k]@, ps[k + 1]@) by {
                if a == (ts[i as int]@, ps[i + 1]@) {
                    assert(0 <= i < i + 1);
                }
                if exists|k: int| 0 <= k < i + 1 && a == (ts[k]@, ps[k + 1]@) {
                    let k = choose|k: int| 0 <= k < i + 1 && a == (ts[k]@, ps[k + 1]@);
                    if k < i {
                        assert(before.contains(a));
                    }
                }
            }
        }
        i = i + 1;
    }
    (net, place_refs, transition_refs)
}

/// One place `P1` and one transition `T1` with an arc each way.
pub fn create_net_loop_topology() -> (r: (PetriNet, PlaceRef, TransitionRef))
    ensures
        holds_no_token(&r.0),
        r.0.wf(),
        r.0.place_keys().len() == 1,
        r.0.transition_keys().len() == 1,
        r.0.has_place(r.1@),
        r.0.has_transition(r.2@),
        r.1@.0 == "P1"@,
        r.2@.0 == "T1"@,
        r.0.arcs_pt() == set![(r.1@, r.2@)],
        r.0.arcs_tp() == set![(r.2@, r.1@)],
{
    let mut net = PetriNet::new();
    assert(holds_no_token(&net));
    assert(net.arcs_pt() =~= Set::<(RefKey, RefKey)>::empty());
    assert(net.arcs_tp() =~= Set::<(RefKey, RefKey)>::empty());
    let place_ref = net.add_place("P1");
    let ghost with_place = net;
    assert(with_place.has_place(place_ref@));
    assert(with_place.marking_of(place_ref@) == 0);
    let transition_ref = net.add_transition("T1");
    assert(net.has_place(place_ref@));
    assert(net.has_transition(transition_ref@));
    assert(!net.arcs_pt().contains((place_ref@, transition_ref@)));
    let r = net.add_arc_place_transition(&place_ref, &transition_ref);
    assert(r is Ok);
    assert(net.has_place(place_ref@) && net.has_transition(transition_ref@));
    assert(!net.arcs_tp().contains((transition_ref@, place_ref@)));
    let ghost with_one_arc = net;
    let r = net.add_arc_transition_place(&transition_ref, &place_ref);
    assert(r is Ok);
    assert forall|p: RefKey| #[trigger] net.has_place(p) implies net.marking_of(p) == 0 by {
        assert(with_one_arc.has_place(p));
        assert(with_place.has_place(p));
        assert(p == place_ref@);
    }
    assert(net.arcs_pt() =~= set![(place_ref@, transition_ref@)]);
    assert(net.arcs_tp() =~= set![(transition_ref@, place_ref@)]);
    (net, place_ref, transition_ref)
}

} // verus!
