//! Export of a net to the input format of the LoLA model checker.
use vstd::prelude::*;
use vstd::string::StringExecFns;
use crate::error::NetError;
use crate::net::PetriNet;
use crate::node_ref::{PlaceRef, RefKey};
use crate::ref_set::RefSet;
use crate::text::{decimal, decimal_string};

verus! {

/// The end of item `i` of a list of `n`: a comma, or a semicolon after the last.
pub open spec fn item_end(i: int, n: int, last: Seq<char>) -> Seq<char> {
    if i == n - 1 {
        last
    } else {
        ",\n"@
    }
}

/// The place names of the first `i` places.
pub open spec fn lola_place_items(net: &PetriNet, i: int) -> Seq<char>
    decreases i,
{
    if i <= 0 {
        Seq::empty()
    } else {
        lola_place_items(net, i - 1) + "    "@ + net.place_keys()[i - 1].0 + item_end(
            i - 1,
            net.place_keys().len() as int,
            ";\n\n"@,
        )
    }
}

/// The `name : count` items of the first `i` places.
pub open spec fn lola_marking_items(net: &PetriNet, i: int) -> Seq<char>
    decreases i,
{
    if i <= 0 {
        Seq::empty()
    } else {
        lola_marking_items(net, i - 1) + "    "@ + net.place_keys()[i - 1].0 + " : "@ + decimal(
            net.place_at(i - 1).tokens(),
        ) + item_end(i - 1, net.place_keys().len() as int, ";\n\n"@)
    }
}

/// The `name : 1` items of the first `i` places of `places`.
pub open spec fn lola_arc_items(places: Seq<RefKey>, i: int) -> Seq<char>
    decreases i,
{
    if i <= 0 {
        Seq::empty()
    } else {
        lola_arc_items(places, i - 1) + "    "@ + places[i - 1].0 + " : 1"@ + item_end(
            i - 1,
            places.len() as int,
            ";\n"@,
        )
    }
}

/// A `CONSUME` or `PRODUCE` block: a bare header closed by a semicolon when
/// no place is listed.
pub open spec fn lola_arc_block(header: Seq<char>, places: Seq<RefKey>) -> Seq<char> {
    if places.len() == 0 {
        "  "@ + header + ";\n"@
    } else {
        "  "@ + header + "\n"@ + lola_arc_items(places, places.len() as int)
    }
}

/// The stanzas of the first `j` transitions.
pub open spec fn lola_transitions(net: &PetriNet, j: int) -> Seq<char>
    decreases j,
{
    if j <= 0 {
        Seq::empty()
    } else {
        lola_transitions(net, j - 1) + "TRANSITION "@ + net.transition_keys()[j - 1].0 + "\n"@
            + lola_arc_block("CONSUME"@, net.transition_at(j - 1).pre_keys()) + lola_arc_block(
            "PRODUCE"@,
            net.transition_at(j - 1).post_keys(),
        )
    }
}

/// The LoLA text of a net: the `PLACE` and `MARKING` blocks (left out when
/// there is no place), then one stanza per transition.
pub open spec fn lola_text(net: &PetriNet) -> Seq<char> {
    let n = net.place_keys().len() as int;
    let places = if n == 0 {
        Seq::empty()
    } else {
        "PLACE\n"@ + lola_place_items(net, n) + "MARKING\n"@ + lola_marking_items(net, n)
    };
    places + lola_transitions(net, net.transition_keys().len() as int)
}

/// Appends a `CONSUME` or `PRODUCE` block listing `set`.
fn push_arc_block(out: &mut String, header: &str, set: &RefSet<PlaceRef>)
    ensures
        final(out)@ == old(out)@ + lola_arc_block(header@, set.keys()),
{
    if set.is_empty() {
        out.append("  ");
        out.append(header);
        out.append(";\n");
        return;
    }
    out.append("  ");
    out.append(header);
    out.append("\n");
    let ghost start = out@;
    let n = set.len();
    let mut i: usize = 0;
    while i < n
        invariant
            n == set.keys().len(),
            i <= n,
            out@ == start + lola_arc_items(set.keys(), i as int),
        decreases n - i,
    {
        let place_ref = set.get(i);
        out.append("    ");
        out.append(place_ref.label().as_str());
        out.append(" : 1");
        if i == n - 1 {
            out.append(";\n");
        } else {
            out.append(",\n");
        }
        assert(out@ =~= start + lola_arc_items(set.keys(), i as int + 1));
        i = i + 1;
    }
}

impl PetriNet {
    /// The net in the input format of the LoLA model checker.
    pub fn to_lola_string(&self) -> (r: Result<String, NetError>)
        requires
            self.wf(),
        ensures
            r is Ok && r->Ok_0@ == lola_text(self),
    {
        let mut out = String::new();
        let places = self.places_iter();
        let n = places.len();
        if n > 0 {
            out.append("PLACE\n");
            let ghost head = out@;
            let mut i: usize = 0;
            while i < n
                invariant
                    n == places@.len(),
                    places@.len() == self.place_keys().len(),
                    forall|k: int|
                        0 <= k < places@.len() ==> #[trigger] places@[k].0@ == self.place_keys()[k]
                            && places@[k].1 == self.place_at(k),
                    i <= n,
                    out@ == head + lola_place_items(self, i as int),
                decreases n - i,
            {
                let entry = &places[i];
                out.append("    ");
                out.append(entry.0.label().as_str());
                if i == n - 1 {
                    out.append(";\n\n");
                } else {
                    out.append(",\n");
                }
                assert(out@ =~= head + lola_place_items(self, i as int + 1));
                i = i + 1;
            }
            out.append("MARKING\n");
            let ghost head = out@;
            let mut i: usize = 0;
            while i < n
                invariant
                    n == places@.len(),
                    places@.len() == self.place_keys().len(),
                    forall|k: int|
                        0 <= k < places@.len() ==> #[trigger] places@[k].0@ == self.place_keys()[k]
                            && places@[k].1 == self.place_at(k),
                    i <= n,
                    out@ == head + lola_marking_items(self, i as int),
                decreases n - i,
            {
                let entry = &places[i];
                out.append("    ");
                out.append(entry.0.label().as_str());
                out.append(" : ");
                let count = decimal_string(entry.1.marking());
                out.append(count.as_str());
                if i == n - 1 {
                    out.append(";\n\n");
                } else {
                    out.append(",\n");
                }
                assert(out@ =~= head + lola_marking_items(self, i as int + 1));
                i = i + 1;
            }
        }
        let ghost head = out@;
        let transitions = self.transitions_iter();
        let mut j: usize = 0;
        while j < transitions.len()
            invariant
                transitions@.len() == self.transition_keys().len(),
                forall|k: int|
                    0 <= k < transitions@.len() ==> #[trigger] transitions@[k].0@
                        == self.transition_keys()[k] && transitions@[k].1 == self.transition_at(k),
                j <= transitions@.len(),
                out@ == head + lola_transitions(self, j as int),
            decreases transitions@.len() - j,
        {
            let entry = &transitions[j];
            out.append("TRANSITION ");
            out.append(entry.0.label().as_str());
            out.append("\n");
            push_arc_block(&mut out, "CONSUME", entry.1.get_preset());
            push_arc_block(&mut out, "PRODUCE", entry.1.get_postset());
            assert(out@ =~= head + lola_transitions(self, j as int + 1));
            j = j + 1;
        }
        assert(out@ =~= lola_text(self));
        Ok(out)
    }
}

} // verus!
