//! Export of a net to the DOT graph description language.
use vstd::prelude::*;
use vstd::string::{StrSliceExecFns, StringExecFns};
use crate::error::NetError;
use crate::net::PetriNet;
use crate::node_ref::RefKey;
use crate::text::{decimal, decimal_string, push_char};

verus! {

/// Markings up to this many tokens are drawn as one glyph per token.
pub const MAX_TOKENS_AS_DOT: usize = 5;

/// The glyph that stands for one token.
pub const TOKEN_GLYPH: char = '\u{2022}';

/// What a label character becomes in DOT: newlines are dropped and double
/// quotes are escaped.
pub open spec fn sanitized_char(c: char) -> Seq<char> {
    if c == '\n' {
        Seq::empty()
    } else if c == '"' {
        "\\\""@
    } else {
        seq![c]
    }
}

/// A label made safe to stand inside a quoted DOT attribute.
pub open spec fn sanitized(s: Seq<char>) -> Seq<char>
    decreases s.len(),
{
    if s.len() == 0 {
        Seq::empty()
    } else {
        sanitized(s.drop_last()) + sanitized_char(s.last())
    }
}

/// How a marking is drawn: nothing for zero, one glyph per token up to
/// `MAX_TOKENS_AS_DOT`, the number in decimal above.
pub open spec fn dot_marking(m: nat) -> Seq<char> {
    if m == 0 {
        Seq::empty()
    } else if m <= MAX_TOKENS_AS_DOT {
        Seq::new(m, |i: int| TOKEN_GLYPH)
    } else {
        decimal(m)
    }
}

pub open spec fn dot_place_line(label: Seq<char>, m: nat) -> Seq<char> {
    "    "@ + sanitized(label) + " [shape=\"circle\" xlabel=\""@ + sanitized(label)
        + "\" label=\""@ + dot_marking(m) + "\"];\n"@
}

pub open spec fn dot_transition_line(label: Seq<char>) -> Seq<char> {
    "    "@ + sanitized(label) + " [shape=\"box\" xlabel=\"\" label=\""@ + sanitized(label)
        + "\"];\n"@
}

pub open spec fn dot_arc_line(source: Seq<char>, target: Seq<char>) -> Seq<char> {
    "    "@ + sanitized(source) + " -> "@ + sanitized(target) + ";\n"@
}

/// The lines of the first `i` places.
pub open spec fn dot_places(net: &PetriNet, i: int) -> Seq<char>
    decreases i,
{
    if i <= 0 {
        Seq::empty()
    } else {
        dot_places(net, i - 1) + dot_place_line(
            net.place_keys()[i - 1].0,
            net.place_at(i - 1).tokens(),
        )
    }
}

/// The lines of the first `j` transitions.
pub open spec fn dot_transitions(net: &PetriNet, j: int) -> Seq<char>
    decreases j,
{
    if j <= 0 {
        Seq::empty()
    } else {
        dot_transitions(net, j - 1) + dot_transition_line(net.transition_keys()[j - 1].0)
    }
}

/// The lines of the first `n` arcs of `arcs`.
pub open spec fn dot_arcs(arcs: Seq<(RefKey, RefKey)>, n: int) -> Seq<char>
    decreases n,
{
    if n <= 0 {
        Seq::empty()
    } else {
        dot_arcs(arcs, n - 1) + dot_arc_line(arcs[n - 1].0.0, arcs[n - 1].1.0)
    }
}

/// The DOT text of a net: header, places, transitions, arcs from places, arcs
/// from transitions, footer.
pub open spec fn dot_text(net: &PetriNet) -> Seq<char> {
    "digraph petrinet {\n"@ + dot_places(net, net.place_keys().len() as int) + dot_transitions(
        net,
        net.transition_keys().len() as int,
    ) + dot_arcs(net.pt_arc_seq(), net.pt_arc_seq().len() as int) + dot_arcs(
        net.tp_arc_seq(),
        net.tp_arc_seq().len() as int,
    ) + "}\n"@
}

/// Appends `label` made safe for a quoted DOT attribute.
fn push_sanitized(out: &mut String, label: &str)
    ensures
        final(out)@ == old(out)@ + sanitized(label@),
{
    let n = label.unicode_len();
    let mut i: usize = 0;
    while i < n
        invariant
            n == label@.len(),
            i <= n,
            out@ == old(out)@ + sanitized(label@.take(i as int)),
        decreases n - i,
    {
        let c = label.get_char(i);
        if c == '\n' {
        } else if c == '"' {
            out.append("\\\"");
        } else {
            push_char(out, c);
        }
        proof {
            let t = label@.take(i as int + 1);
            assert(t.drop_last() =~= label@.take(i as int));
            assert(t.last() == c);
            assert(out@ =~= old(out)@ + sanitized(t));
        }
        i = i + 1;
    }
    assert(label@.take(n as int) =~= label@);
}

/// A label made safe to stand inside a quoted DOT attribute: newlines are
/// removed and double quotes escaped.
pub fn sanitize_string(label: &str) -> (r: String)
    ensures
        r@ == sanitized(label@),
{
    let mut out = String::new();
    push_sanitized(&mut out, label);
    out
}

/// How a marking is drawn in DOT.
pub fn marking_to_string(marking: usize) -> (r: String)
    ensures
        r@ == dot_marking(marking as nat),
{
    if marking == 0 {
        String::new()
    } else if marking <= MAX_TOKENS_AS_DOT {
        let mut out = String::new();
        let mut i: usize = 0;
        while i < marking
            invariant
                i <= marking,
                out@ == Seq::new(i as nat, |k: int| TOKEN_GLYPH),
            decreases marking - i,
        {
            push_char(&mut out, TOKEN_GLYPH);
            assert(out@ =~= Seq::new((i + 1) as nat, |k: int| TOKEN_GLYPH));
            i = i + 1;
        }
        out
    } else {
        decimal_string(marking)
    }
}

impl PetriNet {
    /// The net as DOT text: one circle per place, one box per transition,
    /// then the arcs from places, then the arcs from transitions, each group in
    /// canonical order.
    pub fn to_dot_string(&self) -> (r: Result<String, NetError>)
        requires
            self.wf(),
        ensures
            r is Ok && r->Ok_0@ == dot_text(self),
    {
        let mut out = String::new();
        out.append("digraph petrinet {\n");
        let ghost head = out@;
        let places = self.places_iter();
        let mut i: usize = 0;
        while i < places.len()
            invariant
                places@.len() == self.place_keys().len(),
                forall|k: int|
                    0 <= k < places@.len() ==> #[trigger] places@[k].0@ == self.place_keys()[k]
                        && places@[k].1 == self.place_at(k),
                i <= places@.len(),
                out@ == head + dot_places(self, i as int),
            decreases places@.len() - i,
        {
            let entry = &places[i];
            out.append("    ");
            push_sanitized(&mut out, entry.0.label().as_str());
            out.append(" [shape=\"circle\" xlabel=\"");
            push_sanitized(&mut out, entry.0.label().as_str());
            out.append("\" label=\"");
            let marking = marking_to_string(entry.1.marking());
            out.append(marking.as_str());
            out.append("\"];\n");
            assert(out@ =~= head + dot_places(self, i as int + 1));
            i = i + 1;
        }
        let ghost with_places = out@;
        let transitions = self.transitions_iter();
        let mut j: usize = 0;
        while j < transitions.len()
            invariant
                transitions@.len() == self.transition_keys().len(),
                forall|k: int|
                    0 <= k < transitions@.len() ==> #[trigger] transitions@[k].0@
                        == self.transition_keys()[k],
                j <= transitions@.len(),
                out@ == with_places + dot_transitions(self, j as int),
            decreases transitions@.len() - j,
        {
            let entry = &transitions[j];
            out.append("    ");
            push_sanitized(&mut out, entry.0.label().as_str());
            out.append(" [shape=\"box\" xlabel=\"\" label=\"");
            push_sanitized(&mut out, entry.0.label().as_str());
            out.append("\"];\n");
            assert(out@ =~= with_places + dot_transitions(self, j as int + 1));
            j = j + 1;
        }
        let ghost with_nodes = out@;
        let arcs = self.find_arcs_place_transition();
        let ghost pt = self.pt_arc_seq();
        let mut k: usize = 0;
        while k < arcs.len()
            invariant
                arcs@.map_values(|a: (crate::node_ref::PlaceRef, crate::node_ref::TransitionRef)| (a.0@, a.1@)) == pt,
                k <= arcs@.len(),
                out@ == with_nodes + dot_arcs(pt, k as int),
            decreases arcs@.len() - k,
        {
            let arc = &arcs[k];
            assert(arc.0@ == pt[k as int].0 && arc.1@ == pt[k as int].1);
            out.append("    ");
            push_sanitized(&mut out, arc.0.label().as_str());
            out.append(" -> ");
            push_sanitized(&mut out, arc.1.label().as_str());
            out.append(";\n");
            assert(out@ =~= with_nodes + dot_arcs(pt, k as int + 1));
            k = k + 1;
        }
        let ghost with_pt = out@;
        let arcs = self.find_arcs_transition_place();
        let ghost tp = self.tp_arc_seq();
        let mut k: usize = 0;
        while k < arcs.len()
            invariant
                arcs@.map_values(|a: (crate::node_ref::TransitionRef, crate::node_ref::PlaceRef)| (a.0@, a.1@)) == tp,
                k <= arcs@.len(),
                out@ == with_pt + dot_arcs(tp, k as int),
            decreases arcs@.len() - k,
        {
            let arc = &arcs[k];
            assert(arc.0@ == tp[k as int].0 && arc.1@ == tp[k as int].1);
            out.append("    ");
            push_sanitized(&mut out, arc.0.label().as_str());
            out.append(" -> ");
            push_sanitized(&mut out, arc.1.label().as_str());
            out.append(";\n");
            assert(out@ =~= with_pt + dot_arcs(tp, k as int + 1));
            k = k + 1;
        }
        out.append("}\n");
        assert(out@ =~= dot_text(self));
        Ok(out)
    }
}

} // verus!
