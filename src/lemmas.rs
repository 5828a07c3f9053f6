//! Facts about sequences of operations on a net.
use vstd::prelude::*;
use crate::entries::{index_of, lemma_sorted_index};
use crate::net::PetriNet;
use crate::dot::{dot_places, dot_text};
use crate::node_ref::{label_lt, lemma_label_lt_irreflexive, lemma_label_lt_transitive, RefKey};

verus! {

broadcast use vstd::seq_lib::group_filter_ensures;

/// The arcs listed for the first `i` places are those whose place is among them.
proof fn lemma_pt_arcs_upto(net: &PetriNet, i: int)
    requires
        0 <= i <= net.place_keys().len(),
    ensures
        forall|a: (RefKey, RefKey)| #[trigger]
            net.pt_arcs_upto(i).contains(a) <==> exists|k: int|
                0 <= k < i && net.place_keys()[k] == a.0 && net.place_at(k).post_keys().contains(a.1),
    decreases i,
{
    if i > 0 {
        lemma_pt_arcs_upto(net, i - 1);
        let prev = net.pt_arcs_upto(i - 1);
        let post = net.place_at(i - 1).post_keys();
        let pk = net.place_keys()[i - 1];
        let added = post.map_values(|t: RefKey| (pk, t));
        assert(net.pt_arcs_upto(i) == prev + added);
        assert forall|a: (RefKey, RefKey)| #[trigger] net.pt_arcs_upto(i).contains(a) <==> exists|k: int|
            0 <= k < i && net.place_keys()[k] == a.0 && net.place_at(k).post_keys().contains(a.1) by {
            let all = prev + added;
            if all.contains(a) {
                let n = choose|n: int| 0 <= n < all.len() && all[n] == a;
                if n < prev.len() {
                    assert(prev[n] == a);
                    assert(prev.contains(a));
                } else {
                    let m = n - prev.len();
                    assert(added[m] == a);
                    assert(post[m] == a.1);
                    assert(post.contains(a.1));
                    assert(0 <= i - 1 < i && net.place_keys()[i - 1] == a.0);
                }
            }
            if exists|k: int|
                0 <= k < i && net.place_keys()[k] == a.0 && net.place_at(k).post_keys().contains(a.1) {
                let k = choose|k: int|
                    0 <= k < i && net.place_keys()[k] == a.0 && net.place_at(k).post_keys().contains(a.1);
                if k < i - 1 {
                    assert(prev.contains(a));
                    let n = choose|n: int| 0 <= n < prev.len() && prev[n] == a;
                    assert(all[n] == a);
                } else {
                    let m = choose|m: int| 0 <= m < post.len() && post[m] == a.1;
                    assert(added[m] == a);
                    assert(all[prev.len() + m] == a);
                }
            }
        }
    }
}

/// The arcs listed for the first `j` transitions are those whose transition is among them.
proof fn lemma_tp_arcs_upto(net: &PetriNet, j: int)
    requires
        0 <= j <= net.transition_keys().len(),
    ensures
        forall|a: (RefKey, RefKey)| #[trigger]
            net.tp_arcs_upto(j).contains(a) <==> exists|k: int|
                0 <= k < j && net.transition_keys()[k] == a.0 && net.transition_at(
                    k,
                ).post_keys().contains(a.1),
    decreases j,
{
    if j > 0 {
        lemma_tp_arcs_upto(net, j - 1);
        let prev = net.tp_arcs_upto(j - 1);
        let post = net.transition_at(j - 1).post_keys();
        let tk = net.transition_keys()[j - 1];
        let added = post.map_values(|p: RefKey| (tk, p));
        assert(net.tp_arcs_upto(j) == prev + added);
        assert forall|a: (RefKey, RefKey)| #[trigger] net.tp_arcs_upto(j).contains(a) <==> exists|k: int|
            0 <= k < j && net.transition_keys()[k] == a.0 && net.transition_at(k).post_keys().contains(
                a.1,
            ) by {
            let all = prev + added;
            if all.contains(a) {
                let n = choose|n: int| 0 <= n < all.len() && all[n] == a;
                if n < prev.len() {
                    assert(prev[n] == a);
                    assert(prev.contains(a));
                } else {
                    let m = n - prev.len();
                    assert(added[m] == a);
                    assert(post[m] == a.1);
                    assert(post.contains(a.1));
                    assert(0 <= j - 1 < j && net.transition_keys()[j - 1] == a.0);
                }
            }
            if exists|k: int|
                0 <= k < j && net.transition_keys()[k] == a.0 && net.transition_at(
                    k,
                ).post_keys().contains(a.1) {
                let k = choose|k: int|
                    0 <= k < j && net.transition_keys()[k] == a.0 && net.transition_at(
                        k,
                    ).post_keys().contains(a.1);
                if k < j - 1 {
                    assert(prev.contains(a));
                    let n = choose|n: int| 0 <= n < prev.len() && prev[n] == a;
                    assert(all[n] == a);
                } else {
                    let m = choose|m: int| 0 <= m < post.len() && post[m] == a.1;
                    assert(added[m] == a);
                    assert(all[prev.len() + m] == a);
                }
            }
        }
    }
}

/// The listing of arcs from places to transitions holds exactly the arcs of the net.
pub proof fn lemma_pt_arc_seq_is_arcs(net: &PetriNet)
    requires
        net.wf(),
    ensures
        forall|a: (RefKey, RefKey)| #[trigger]
            net.pt_arc_seq().contains(a) <==> net.arcs_pt().contains(a),
{
    lemma_pt_arcs_upto(net, net.place_keys().len() as int);
    assert forall|a: (RefKey, RefKey)| #[trigger]
        net.pt_arc_seq().contains(a) <==> net.arcs_pt().contains(a) by {
        if net.pt_arc_seq().contains(a) {
            let k = choose|k: int|
                0 <= k < net.place_keys().len() && net.place_keys()[k] == a.0 && net.place_at(
                    k,
                ).post_keys().contains(a.1);
            lemma_sorted_index(net.place_keys(), k);
            assert(net.has_place(a.0));
        }
        if net.arcs_pt().contains(a) {
            let k = index_of(net.place_keys(), a.0);
            assert(0 <= k < net.place_keys().len() && net.place_keys()[k] == a.0);
        }
    }
}

/// The listing of arcs from transitions to places holds exactly the arcs of the net.
pub proof fn lemma_tp_arc_seq_is_arcs(net: &PetriNet)
    requires
        net.wf(),
    ensures
        forall|a: (RefKey, RefKey)| #[trigger]
            net.tp_arc_seq().contains(a) <==> net.arcs_tp().contains(a),
{
    lemma_tp_arcs_upto(net, net.transition_keys().len() as int);
    assert forall|a: (RefKey, RefKey)| #[trigger]
        net.tp_arc_seq().contains(a) <==> net.arcs_tp().contains(a) by {
        if net.tp_arc_seq().contains(a) {
            let k = choose|k: int|
                0 <= k < net.transition_keys().len() && net.transition_keys()[k] == a.0
                    && net.transition_at(k).post_keys().contains(a.1);
            lemma_sorted_index(net.transition_keys(), k);
            assert(net.has_transition(a.0));
        }
        if net.arcs_tp().contains(a) {
            let k = index_of(net.transition_keys(), a.0);
            assert(0 <= k < net.transition_keys().len() && net.transition_keys()[k] == a.0);
        }
    }
}

/// After `add_arc_place_transition(p, t)` succeeds, `find_arcs_place_transition`
/// lists the arc `(p, t)` and `find_unconnected_places` no longer lists `p`.
pub proof fn lemma_added_arc_pt_is_found(before: &PetriNet, after: &PetriNet, p: RefKey, t: RefKey)
    requires
        before.wf(),
        after.wf(),
        before.arc_pt_added(after, p, t),
    ensures
        after.pt_arc_seq().contains((p, t)),
        !after.unconnected_seq().contains(p),
{
    lemma_pt_arc_seq_is_arcs(after);
    assert(after.arcs_pt().contains((p, t)));
    assert(after.place_of(p).post_keys().contains(t));
    if after.unconnected_seq().contains(p) {
        let s = after.place_keys();
        let pred = |q: RefKey| after.is_unconnected(q);
        let n = choose|n: int| 0 <= n < s.filter(pred).len() && s.filter(pred)[n] == p;
        assert(pred(s.filter(pred)[n]));
    }
}

/// After `add_arc_transition_place(t, p)` succeeds, `find_arcs_transition_place`
/// lists the arc `(t, p)` and `find_unconnected_places` no longer lists `p`.
pub proof fn lemma_added_arc_tp_is_found(before: &PetriNet, after: &PetriNet, t: RefKey, p: RefKey)
    requires
        before.wf(),
        after.wf(),
        before.has_place(p),
        before.arc_tp_added(after, t, p),
    ensures
        after.tp_arc_seq().contains((t, p)),
        !after.unconnected_seq().contains(p),
{
    lemma_tp_arc_seq_is_arcs(after);
    assert(after.arcs_tp().contains((t, p)));
    let j = index_of(after.transition_keys(), t);
    let i = index_of(after.place_keys(), p);
    assert(after.has_place(p));
    assert(0 <= i < after.place_keys().len() && after.place_keys()[i] == p);
    assert(after.transition_at(j).post().contains(after.place_keys()[i]));
    assert(after.place_at(i).pre().contains(after.transition_keys()[j]));
    assert(after.place_of(p).pre_keys().contains(t));
    if after.unconnected_seq().contains(p) {
        let s = after.place_keys();
        let pred = |q: RefKey| after.is_unconnected(q);
        let n = choose|n: int| 0 <= n < s.filter(pred).len() && s.filter(pred)[n] == p;
        assert(pred(s.filter(pred)[n]));
    }
}

/// A place is unconnected exactly when no arc leaves it and no arc enters it.
pub proof fn lemma_unconnected_by_arcs(net: &PetriNet, q: RefKey)
    requires
        net.wf(),
        net.has_place(q),
    ensures
        net.is_unconnected(q) <==> (!(exists|x: RefKey| #[trigger] net.arcs_pt().contains((q, x)))
            && !(exists|x: RefKey| #[trigger] net.arcs_tp().contains((x, q)))),
{
    let pk = net.place_keys();
    let tk = net.transition_keys();
    let i = index_of(pk, q);
    assert(0 <= i < pk.len() && pk[i] == q);
    assert(net.place_of(q) == net.place_at(i));
    if exists|x: RefKey| #[trigger] net.arcs_tp().contains((x, q)) {
        let x = choose|x: RefKey| #[trigger] net.arcs_tp().contains((x, q));
        let j = index_of(tk, x);
        assert(0 <= j < tk.len() && tk[j] == x);
        assert(net.transition_at(j).post().contains(pk[i]));
        assert(net.place_at(i).pre().contains(tk[j]));
        assert(net.place_at(i).pre_keys().contains(x));
    }
    if exists|x: RefKey| #[trigger] net.arcs_pt().contains((q, x)) {
        let x = choose|x: RefKey| #[trigger] net.arcs_pt().contains((q, x));
        assert(net.place_at(i).post_keys().contains(x));
    }
    if net.place_at(i).post_keys().len() > 0 {
        let x = net.place_at(i).post_keys()[0];
        assert(net.place_at(i).post().contains(x));
        assert(net.arcs_pt().contains((q, x)));
    }
    if net.place_at(i).pre_keys().len() > 0 {
        let x = net.place_at(i).pre_keys()[0];
        assert(net.place_at(i).pre().contains(x));
        assert(net.has_transition(x));
        let j = index_of(tk, x);
        assert(0 <= j < tk.len() && tk[j] == x);
        lemma_sorted_index(tk, j);
        assert(net.place_at(i).pre().contains(tk[j]));
        assert(net.transition_at(j).post().contains(pk[i]));
        assert(net.arcs_tp().contains((x, q)));
    }
}

/// The unconnected listing holds exactly the places of the net that are unconnected.
pub proof fn lemma_unconnected_members(net: &PetriNet, q: RefKey)
    ensures
        net.unconnected_seq().contains(q) <==> (net.has_place(q) && net.is_unconnected(q)),
{
    let s = net.place_keys();
    let pred = |x: RefKey| net.is_unconnected(x);
    if s.filter(pred).contains(q) {
        s.lemma_filter_contains_rev(pred, q);
        let n = choose|n: int| 0 <= n < s.filter(pred).len() && s.filter(pred)[n] == q;
        assert(pred(s.filter(pred)[n]));
    }
    if net.has_place(q) && net.is_unconnected(q) {
        let i = choose|i: int| 0 <= i < s.len() && s[i] == q;
        s.lemma_filter_contains(pred, i);
    }
}

/// Adding the arc `p -> t` takes `p` out of the unconnected listing and
/// changes the status of no other place.
pub proof fn lemma_added_arc_pt_unconnected(before: &PetriNet, after: &PetriNet, p: RefKey, t: RefKey)
    requires
        before.wf(),
        after.wf(),
        before.arc_pt_added(after, p, t),
    ensures
        forall|q: RefKey| #[trigger]
            after.unconnected_seq().contains(q) <==> (before.unconnected_seq().contains(q) && q != p),
{
    assert forall|q: RefKey| #[trigger]
        after.unconnected_seq().contains(q) <==> (before.unconnected_seq().contains(q) && q != p) by {
        lemma_unconnected_members(after, q);
        lemma_unconnected_members(before, q);
        if before.has_place(q) {
            lemma_unconnected_by_arcs(after, q);
            lemma_unconnected_by_arcs(before, q);
            if q == p {
                assert(after.arcs_pt().contains((p, t)));
            } else {
                assert(forall|x: RefKey| after.arcs_pt().contains((q, x)) == before.arcs_pt().contains((q, x)));
            }
        }
    }
}

/// Adding the arc `t -> p` takes `p` out of the unconnected listing and
/// changes the status of no other place.
pub proof fn lemma_added_arc_tp_unconnected(before: &PetriNet, after: &PetriNet, t: RefKey, p: RefKey)
    requires
        before.wf(),
        after.wf(),
        before.has_place(p),
        before.arc_tp_added(after, t, p),
    ensures
        forall|q: RefKey| #[trigger]
            after.unconnected_seq().contains(q) <==> (before.unconnected_seq().contains(q) && q != p),
{
    assert forall|q: RefKey| #[trigger]
        after.unconnected_seq().contains(q) <==> (before.unconnected_seq().contains(q) && q != p) by {
        lemma_unconnected_members(after, q);
        lemma_unconnected_members(before, q);
        if before.has_place(q) {
            lemma_unconnected_by_arcs(after, q);
            lemma_unconnected_by_arcs(before, q);
            if q == p {
                assert(after.arcs_tp().contains((t, p)));
            } else {
                assert(forall|x: RefKey| after.arcs_tp().contains((x, q)) == before.arcs_tp().contains((x, q)));
            }
        }
    }
}

/// Adding an arc twice: after `add_arc_place_transition(p, t)` has succeeded,
/// both references are still in the net and the arc is present, so a second
/// identical call fails with `DuplicateArc` and leaves the arcs as they are.
pub proof fn lemma_repeated_arc_pt_is_duplicate(
    before: &PetriNet,
    after: &PetriNet,
    p: RefKey,
    t: RefKey,
)
    requires
        before.wf(),
        before.has_place(p),
        before.has_transition(t),
        before.arc_pt_added(after, p, t),
    ensures
        after.has_place(p),
        after.has_transition(t),
        after.has_arc_pt(p, t),
{
    assert(after.arcs_pt().contains((p, t)));
}

/// Adding an arc twice: after `add_arc_transition_place(t, p)` has succeeded,
/// both references are still in the net and the arc is present, so a second
/// identical call fails with `DuplicateArc` and leaves the arcs as they are.
pub proof fn lemma_repeated_arc_tp_is_duplicate(
    before: &PetriNet,
    after: &PetriNet,
    t: RefKey,
    p: RefKey,
)
    requires
        before.wf(),
        before.has_place(p),
        before.has_transition(t),
        before.arc_tp_added(after, t, p),
    ensures
        after.has_place(p),
        after.has_transition(t),
        after.has_arc_tp(t, p),
{
    assert(after.arcs_tp().contains((t, p)));
}

/// Adding `n` tokens to a place and then removing `n` again gives back the
/// marking of every place, when the addition does not overflow: the addition
/// succeeds, the removal then finds at least `n` tokens and succeeds too.
pub proof fn lemma_token_round_trip(
    start: &PetriNet,
    mid: &PetriNet,
    end: &PetriNet,
    p: RefKey,
    n: nat,
)
    requires
        start.wf(),
        start.has_place(p),
        start.marking_of(p) + n <= usize::MAX,
        start.marking_changed(mid, p, start.marking_of(p) + n),
        mid.marking_changed(end, p, (mid.marking_of(p) - n) as nat),
    ensures
        mid.has_place(p),
        n <= mid.marking_of(p),
        end.place_keys() == start.place_keys(),
        end.transition_keys() == start.transition_keys(),
        end.arcs_pt() == start.arcs_pt(),
        end.arcs_tp() == start.arcs_tp(),
        forall|q: RefKey| #[trigger] start.has_place(q) ==> end.marking_of(q) == start.marking_of(q),
{
    assert forall|q: RefKey| #[trigger] start.has_place(q) implies end.marking_of(q) == start.marking_of(q) by {
        if q != p {
            assert(mid.has_place(q));
        }
    }
}

/// The labels are strictly increasing in lexicographic order.
pub open spec fn labels_sorted(s: Seq<Seq<char>>) -> bool {
    forall|i: int, j: int| 0 <= i < j < s.len() ==> label_lt(#[trigger] s[i], #[trigger] s[j])
}

/// The labels of the places of a net, in canonical order.
pub open spec fn place_labels(net: &PetriNet) -> Seq<Seq<char>> {
    net.place_keys().map_values(|k: RefKey| k.0)
}

/// Two strictly sorted sequences of labels with the same members are equal.
pub proof fn lemma_sorted_labels_unique(s1: Seq<Seq<char>>, s2: Seq<Seq<char>>)
    requires
        labels_sorted(s1),
        labels_sorted(s2),
        forall|x: Seq<char>| s1.contains(x) <==> s2.contains(x),
    ensures
        s1 == s2,
    decreases s1.len(),
{
    if s1.len() == 0 {
        if s2.len() > 0 {
            assert(s2.contains(s2[0]));
        }
        assert(s1 =~= s2);
    } else if s2.len() == 0 {
        assert(s1.contains(s1[0]));
    } else {
        assert(s1.contains(s1[0]));
        assert(s2.contains(s2[0]));
        let j = choose|j: int| 0 <= j < s2.len() && s2[j] == s1[0];
        let k = choose|k: int| 0 <= k < s1.len() && s1[k] == s2[0];
        if j > 0 {
            assert(label_lt(s2[0], s1[0]));
            if k > 0 {
                assert(label_lt(s1[0], s2[0]));
                lemma_label_lt_transitive(s1[0], s2[0], s1[0]);
            }
            lemma_label_lt_irreflexive(s1[0]);
        }
        assert(s1[0] == s2[0]);
        let t1 = s1.drop_first();
        let t2 = s2.drop_first();
        assert forall|x: Seq<char>| t1.contains(x) <==> t2.contains(x) by {
            if t1.contains(x) {
                let a = choose|a: int| 0 <= a < t1.len() && t1[a] == x;
                assert(s1[a + 1] == x);
                assert(label_lt(s1[0], x));
                lemma_label_lt_irreflexive(x);
                assert(s1.contains(x));
                let b = choose|b: int| 0 <= b < s2.len() && s2[b] == x;
                assert(b != 0);
                assert(t2[b - 1] == x);
            }
            if t2.contains(x) {
                let a = choose|a: int| 0 <= a < t2.len() && t2[a] == x;
                assert(s2[a + 1] == x);
                assert(label_lt(s2[0], x));
                lemma_label_lt_irreflexive(x);
                assert(s2.contains(x));
                let b = choose|b: int| 0 <= b < s1.len() && s1[b] == x;
                assert(b != 0);
                assert(t1[b - 1] == x);
            }
        }
        assert(labels_sorted(t1)) by {
            assert forall|a: int, b: int| 0 <= a < b < t1.len() implies label_lt(#[trigger] t1[a], #[trigger] t1[b]) by {
                assert(t1[a] == s1[a + 1] && t1[b] == s1[b + 1]);
            }
        }
        assert(labels_sorted(t2)) by {
            assert forall|a: int, b: int| 0 <= a < b < t2.len() implies label_lt(#[trigger] t2[a], #[trigger] t2[b]) by {
                assert(t2[a] == s2[a + 1] && t2[b] == s2[b + 1]);
            }
        }
        lemma_sorted_labels_unique(t1, t2);
        assert(s1 =~= seq![s1[0]] + t1);
        assert(s2 =~= seq![s2[0]] + t2);
    }
}

/// A net without transitions has no arcs to list.
proof fn lemma_no_transitions_no_arcs(net: &PetriNet)
    requires
        net.wf(),
        net.transition_keys().len() == 0,
    ensures
        net.pt_arc_seq().len() == 0,
        net.tp_arc_seq().len() == 0,
{
    lemma_pt_arc_seq_is_arcs(net);
    lemma_tp_arc_seq_is_arcs(net);
    if net.pt_arc_seq().len() > 0 {
        let a = net.pt_arc_seq()[0];
        assert(net.pt_arc_seq().contains(a));
        assert(net.has_arc_pt(a.0, a.1));
        let i = index_of(net.place_keys(), a.0);
        assert(0 <= i < net.place_keys().len() && net.place_keys()[i] == a.0);
        assert(net.place_at(i).post().contains(a.1));
        assert(net.has_transition(a.1));
    }
    if net.tp_arc_seq().len() > 0 {
        let a = net.tp_arc_seq()[0];
        assert(net.tp_arc_seq().contains(a));
        assert(net.has_transition(a.0));
    }
}

/// The place lines of two nets agree when labels and markings agree position by position.
proof fn lemma_dot_places_agree(n1: &PetriNet, n2: &PetriNet, k: int)
    requires
        0 <= k <= n1.place_keys().len(),
        n1.place_keys().len() == n2.place_keys().len(),
        forall|i: int| 0 <= i < n1.place_keys().len() ==> #[trigger] n1.place_keys()[i].0
            == n2.place_keys()[i].0 && n1.place_at(i).tokens() == n2.place_at(i).tokens(),
    ensures
        dot_places(n1, k) == dot_places(n2, k),
    decreases k,
{
    if k > 0 {
        lemma_dot_places_agree(n1, n2, k - 1);
        assert(n1.place_keys()[k - 1].0 == n2.place_keys()[k - 1].0);
    }
}

/// The DOT text of a net of places does not depend on the order in which the
/// places were added: two nets without transitions whose places have distinct
/// labels, with the same labels and the same marking for each label, give the
/// same text.
pub proof fn lemma_dot_independent_of_declaration_order(n1: &PetriNet, n2: &PetriNet)
    requires
        n1.wf(),
        n2.wf(),
        n1.transition_keys().len() == 0,
        n2.transition_keys().len() == 0,
        forall|i: int, j: int|
            0 <= i < j < n1.place_keys().len() ==> #[trigger] n1.place_keys()[i].0
                != #[trigger] n1.place_keys()[j].0,
        forall|i: int, j: int|
            0 <= i < j < n2.place_keys().len() ==> #[trigger] n2.place_keys()[i].0
                != #[trigger] n2.place_keys()[j].0,
        forall|l: Seq<char>| place_labels(n1).contains(l) <==> place_labels(n2).contains(l),
        forall|p1: RefKey, p2: RefKey|
            n1.has_place(p1) && n2.has_place(p2) && p1.0 == p2.0 ==> #[trigger] n1.marking_of(p1)
                == #[trigger] n2.marking_of(p2),
    ensures
        dot_text(n1) == dot_text(n2),
{
    let pk1 = n1.place_keys();
    let pk2 = n2.place_keys();
    let l1 = place_labels(n1);
    let l2 = place_labels(n2);
    assert(labels_sorted(l1)) by {
        assert forall|a: int, b: int| 0 <= a < b < l1.len() implies label_lt(#[trigger] l1[a], #[trigger] l1[b]) by {
            assert(l1[a] == pk1[a].0 && l1[b] == pk1[b].0);
            assert(pk1[a].0 != pk1[b].0);
        }
    }
    assert(labels_sorted(l2)) by {
        assert forall|a: int, b: int| 0 <= a < b < l2.len() implies label_lt(#[trigger] l2[a], #[trigger] l2[b]) by {
            assert(l2[a] == pk2[a].0 && l2[b] == pk2[b].0);
            assert(pk2[a].0 != pk2[b].0);
        }
    }
    lemma_sorted_labels_unique(l1, l2);
    assert(pk1.len() == pk2.len());
    assert forall|i: int| 0 <= i < pk1.len() implies #[trigger] pk1[i].0 == pk2[i].0
        && n1.place_at(i).tokens() == n2.place_at(i).tokens() by {
        assert(l1[i] == pk1[i].0 && l2[i] == pk2[i].0);
        lemma_sorted_index(pk1, i);
        lemma_sorted_index(pk2, i);
        assert(n1.has_place(pk1[i]) && n2.has_place(pk2[i]));
        assert(n1.marking_of(pk1[i]) == n2.marking_of(pk2[i]));
    }
    lemma_dot_places_agree(n1, n2, pk1.len() as int);
    lemma_no_transitions_no_arcs(n1);
    lemma_no_transitions_no_arcs(n2);
}

} // verus!
