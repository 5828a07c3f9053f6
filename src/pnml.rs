//! Export of a net to PNML, the Petri Net Markup Language (an XML format).
//!
//! The document is described as a sequence of XML events, which is computed
//! and verified here; xml-rs turns the events into indented text.
use vstd::prelude::*;
use vstd::string::StringExecFns;
use vstd::utf8::{decode_utf8, valid_utf8};
use crate::error::NetError;
use crate::net::PetriNet;
use crate::node_ref::{PlaceRef, RefKey, TransitionRef};
use crate::text::{decimal, decimal_string};

verus! {

/// The XML namespace of PNML documents.
pub const XML_PNML_DEFAULT_NAMESPACE: &'static str = "http://www.pnml.org/version-2009/grammar/pnml";

/// The PNML grammar of place/transition nets.
pub const XML_PNML_DEFAULT_GRAMMAR: &'static str = "http://www.pnml.org/version-2009/grammar/ptnet";

/// One event of an XML document.
#[derive(Debug)]
pub enum XmlItem {
    /// An opening tag, with an optional default namespace and its attributes in order.
    Start { name: String, namespace: Option<String>, attributes: Vec<(String, String)> },
    /// Character data.
    Text(String),
    /// The closing tag of the innermost open element.
    End,
}

/// The mathematical value of an XML event.
pub ghost enum XmlItemView {
    Start(Seq<char>, Option<Seq<char>>, Seq<(Seq<char>, Seq<char>)>),
    Text(Seq<char>),
    End,
}

pub open spec fn attribute_views(attributes: Seq<(String, String)>) -> Seq<(Seq<char>, Seq<char>)> {
    attributes.map_values(|a: (String, String)| (a.0@, a.1@))
}

impl View for XmlItem {
    type V = XmlItemView;

    open spec fn view(&self) -> XmlItemView {
        match self {
            XmlItem::Start { name, namespace, attributes } => XmlItemView::Start(
                name@,
                match namespace {
                    Some(ns) => Some(ns@),
                    None => None,
                },
                attribute_views(attributes@),
            ),
            XmlItem::Text(text) => XmlItemView::Text(text@),
            XmlItem::End => XmlItemView::End,
        }
    }
}

pub open spec fn item_views(items: Seq<XmlItem>) -> Seq<XmlItemView> {
    items.map_values(|item: XmlItem| item@)
}

/// How an event changes the number of open elements.
pub open spec fn depth_change(item: XmlItemView) -> int {
    match item {
        XmlItemView::Start(_, _, _) => 1,
        XmlItemView::Text(_) => 0,
        XmlItemView::End => -1,
    }
}

/// The number of elements left open after the events: starts minus ends.
pub open spec fn open_depth(events: Seq<XmlItemView>) -> int
    decreases events.len(),
{
    if events.len() == 0 {
        0
    } else {
        open_depth(events.drop_last()) + depth_change(events.last())
    }
}

/// Every closing tag has an open element to close.
pub open spec fn well_nested(events: Seq<XmlItemView>) -> bool
    decreases events.len(),
{
    events.len() == 0 || (well_nested(events.drop_last()) && (events.last() is End ==> open_depth(
        events.drop_last(),
    ) > 0))
}

/// One more event: the depth moves by its change, and the events stay well
/// nested when it closes an open element or opens or holds text.
pub proof fn lemma_push_event(events: Seq<XmlItemView>, item: XmlItemView)
    ensures
        open_depth(events.push(item)) == open_depth(events) + depth_change(item),
        well_nested(events.push(item)) == (well_nested(events) && (item is End ==> open_depth(events) > 0)),
{
    assert(events.push(item).drop_last() =~= events);
}

/// A prefix of well nested events is well nested.
pub proof fn lemma_well_nested_prefix(events: Seq<XmlItemView>, i: int)
    requires
        well_nested(events),
        0 <= i <= events.len(),
    ensures
        well_nested(events.take(i)),
    decreases events.len(),
{
    if i == events.len() {
        assert(events.take(i) =~= events);
    } else {
        assert(events.take(i) =~= events.drop_last().take(i));
        lemma_well_nested_prefix(events.drop_last(), i);
    }
}

/// `<name>`
pub open spec fn open_tag(name: Seq<char>) -> XmlItemView {
    XmlItemView::Start(name, None, Seq::empty())
}

/// `<name><text>text</text></name>`
pub open spec fn name_events(text: Seq<char>) -> Seq<XmlItemView> {
    seq![open_tag("name"@), open_tag("text"@), XmlItemView::Text(text), XmlItemView::End, XmlItemView::End]
}

/// `<initialMarking><text>m</text></initialMarking>`, left out for an empty place.
pub open spec fn marking_events(m: nat) -> Seq<XmlItemView> {
    if m == 0 {
        Seq::empty()
    } else {
        seq![open_tag("initialMarking"@), open_tag("text"@), XmlItemView::Text(decimal(m)), XmlItemView::End, XmlItemView::End]
    }
}

pub open spec fn place_events(label: Seq<char>, m: nat) -> Seq<XmlItemView> {
    seq![XmlItemView::Start("place"@, None, seq![("id"@, label)])] + name_events(label)
        + marking_events(m) + seq![XmlItemView::End]
}

pub open spec fn transition_events(label: Seq<char>) -> Seq<XmlItemView> {
    seq![XmlItemView::Start("transition"@, None, seq![("id"@, label)])] + name_events(label)
        + seq![XmlItemView::End]
}

/// The id of an arc: `(source, target)`.
pub open spec fn arc_id(source: Seq<char>, target: Seq<char>) -> Seq<char> {
    "("@ + source + ", "@ + target + ")"@
}

pub open spec fn arc_events(source: Seq<char>, target: Seq<char>) -> Seq<XmlItemView> {
    seq![
        XmlItemView::Start(
            "arc"@,
            None,
            seq![("source"@, source), ("target"@, target), ("id"@, arc_id(source, target))],
        ),
    ] + name_events(arc_id(source, target)) + seq![open_tag("inscription"@), open_tag("text"@), XmlItemView::Text("1"@), XmlItemView::End, XmlItemView::End, XmlItemView::End]
}

/// The events of the first `i` places.
pub open spec fn places_events(net: &PetriNet, i: int) -> Seq<XmlItemView>
    decreases i,
{
    if i <= 0 {
        Seq::empty()
    } else {
        places_events(net, i - 1) + place_events(
            net.place_keys()[i - 1].0,
            net.place_at(i - 1).tokens(),
        )
    }
}

/// The events of the first `j` transitions.
pub open spec fn transitions_events(net: &PetriNet, j: int) -> Seq<XmlItemView>
    decreases j,
{
    if j <= 0 {
        Seq::empty()
    } else {
        transitions_events(net, j - 1) + transition_events(net.transition_keys()[j - 1].0)
    }
}

/// The events of the first `n` arcs of `arcs`.
pub open spec fn arcs_events(arcs: Seq<(RefKey, RefKey)>, n: int) -> Seq<XmlItemView>
    decreases n,
{
    if n <= 0 {
        Seq::empty()
    } else {
        arcs_events(arcs, n - 1) + arc_events(arcs[n - 1].0.0, arcs[n - 1].1.0)
    }
}

/// The PNML document of a net: one `net` with one `page` that holds the
/// places, the transitions, the arcs from places and the arcs from
/// transitions, each in canonical order.
pub open spec fn pnml_document(net: &PetriNet) -> Seq<XmlItemView> {
    seq![
        XmlItemView::Start("pnml"@, Some(XML_PNML_DEFAULT_NAMESPACE@), Seq::empty()),
        XmlItemView::Start("net"@, None, seq![("id"@, "net0"@), ("type"@, XML_PNML_DEFAULT_GRAMMAR@)]),
        XmlItemView::Start("page"@, None, seq![("id"@, "page0"@)]),
    ] + places_events(net, net.place_keys().len() as int) + transitions_events(
        net,
        net.transition_keys().len() as int,
    ) + arcs_events(net.pt_arc_seq(), net.pt_arc_seq().len() as int) + arcs_events(
        net.tp_arc_seq(),
        net.tp_arc_seq().len() as int,
    ) + seq![XmlItemView::End, XmlItemView::End, XmlItemView::End]
}

#[verifier::external_type_specification]
#[verifier::external_body]
#[verifier::reject_recursive_types(W)]
pub struct ExEventWriter<W>(xml::writer::EventWriter<W>);

#[verifier::external_type_specification]
#[verifier::external_body]
pub struct ExEmitterError(xml::writer::Error);

/// The bytes that xml-rs, configured to indent, writes for a sequence of events.
pub uninterp spec fn xml_render(events: Seq<XmlItemView>) -> Seq<u8>;

/// The events that an xml-rs writer has accepted so far.
pub uninterp spec fn xml_written(w: xml::writer::EventWriter<Vec<u8>>) -> Seq<XmlItemView>;

/// Relies on `xml::writer::EmitterConfig::create_writer`: a fresh writer, with
/// indentation on, over an empty buffer.
#[verifier::external_body]
fn xml_writer() -> (w: xml::writer::EventWriter<Vec<u8>>)
    ensures
        xml_written(w) == Seq::<XmlItemView>::empty(),
{
    xml::writer::EmitterConfig::new().perform_indent(true).create_writer(Vec::new())
}

/// Relies on `xml::writer::EventWriter::write`: on success the event is
/// appended to what the writer has accepted. Over a `Vec` buffer, which
/// accepts every write, it fails only on a closing tag with no open element.
#[verifier::external_body]
fn xml_write(w: &mut xml::writer::EventWriter<Vec<u8>>, item: &XmlItem) -> (r: Result<
    (),
    xml::writer::Error,
>)
    ensures
        r is Ok ==> xml_written(*final(w)) == xml_written(*old(w)).push(item@),
        !(item@ is End) || open_depth(xml_written(*old(w))) > 0 ==> r is Ok,
{
    match item {
        XmlItem::Start { name, namespace, attributes } => {
            let start = xml::writer::XmlEvent::start_element(name.as_str());
            let start = match namespace {
                Some(uri) => start.default_ns(uri.as_str()),
                None => start,
            };
            w.write(attributes.iter().fold(start, |b, a| b.attr(a.0.as_str(), a.1.as_str())))
        },
        XmlItem::Text(text) => w.write(xml::writer::XmlEvent::characters(text.as_str())),
        XmlItem::End => w.write(xml::writer::XmlEvent::end_element()),
    }
}

/// Relies on `xml::writer::EventWriter::into_inner`: the buffer holds what was
/// rendered for the accepted events, written only from `str` text, so it is
/// valid UTF-8.
#[verifier::external_body]
fn xml_bytes(w: xml::writer::EventWriter<Vec<u8>>) -> (r: Vec<u8>)
    ensures
        r@ == xml_render(xml_written(w)),
        valid_utf8(r@),
{
    w.into_inner()
}

/// Relies on `String::from_utf8`: it succeeds exactly on valid UTF-8, and
/// the string then holds the decoded characters.
#[verifier::external_body]
fn utf8_string(bytes: Vec<u8>) -> (r: Option<String>)
    ensures
        r matches Some(s) ==> valid_utf8(bytes@) && s@ == decode_utf8(bytes@),
        valid_utf8(bytes@) ==> r is Some,
{
    String::from_utf8(bytes).ok()
}

/// An opening tag without attributes.
fn open_tag_item(name: &str) -> (r: XmlItem)
    ensures
        r@ == open_tag(name@),
{
    let attributes: Vec<(String, String)> = Vec::new();
    assert(attribute_views(attributes@) =~= Seq::empty());
    XmlItem::Start { name: name.to_owned(), namespace: None, attributes }
}

/// An opening tag with one `id` attribute.
fn tag_with_id(name: &str, id: &String) -> (r: XmlItem)
    ensures
        r@ == XmlItemView::Start(name@, None, seq![("id"@, id@)]),
{
    let mut attributes: Vec<(String, String)> = Vec::new();
    attributes.push(("id".to_owned(), id.clone()));
    let r = XmlItem::Start { name: name.to_owned(), namespace: None, attributes };
    assert(attribute_views(attributes@) =~= seq![("id"@, id@)]);
    r
}

fn push_text(items: &mut Vec<XmlItem>, text: String)
    ensures
        item_views(final(items)@) == item_views(old(items)@).push(XmlItemView::Text(text@)),
        open_depth(item_views(final(items)@)) == open_depth(item_views(old(items)@)),
        well_nested(item_views(final(items)@)) == well_nested(item_views(old(items)@)),
{
    let ghost before = item_views(items@);
    items.push(XmlItem::Text(text));
    assert(item_views(items@) =~= before.push(XmlItemView::Text(text@)));
    proof {
        lemma_push_event(before, XmlItemView::Text(text@));
    }
}

fn push_item(items: &mut Vec<XmlItem>, item: XmlItem)
    ensures
        item_views(final(items)@) == item_views(old(items)@).push(item@),
        open_depth(item_views(final(items)@)) == open_depth(item_views(old(items)@))
            + depth_change(item@),
        well_nested(item_views(final(items)@)) == (well_nested(item_views(old(items)@)) && (
        item@ is End ==> open_depth(item_views(old(items)@)) > 0)),
{
    let ghost before = item_views(items@);
    let ghost v = item@;
    items.push(item);
    assert(item_views(items@) =~= before.push(v));
    proof {
        lemma_push_event(before, v);
    }
}

/// Appends the `name` element that holds `text`.
fn push_name(items: &mut Vec<XmlItem>, text: &String)
    requires
        open_depth(item_views(old(items)@)) >= 0,
    ensures
        open_depth(item_views(final(items)@)) == open_depth(item_views(old(items)@)),
        well_nested(item_views(final(items)@)) == well_nested(item_views(old(items)@)),
        item_views(final(items)@) == item_views(old(items)@) + name_events(text@),
{
    let ghost before = item_views(items@);
    push_item(items, open_tag_item("name"));
    push_item(items, open_tag_item("text"));
    push_text(items, text.clone());
    push_item(items, XmlItem::End);
    push_item(items, XmlItem::End);
    assert(item_views(items@) =~= before + name_events(text@));
}

/// Appends the events of one arc.
fn push_arc(items: &mut Vec<XmlItem>, source: &String, target: &String)
    requires
        open_depth(item_views(old(items)@)) >= 0,
    ensures
        open_depth(item_views(final(items)@)) == open_depth(item_views(old(items)@)),
        well_nested(item_views(final(items)@)) == well_nested(item_views(old(items)@)),
        item_views(final(items)@) == item_views(old(items)@) + arc_events(source@, target@),
{
    let ghost before = item_views(items@);
    let mut id = String::new();
    id.append("(");
    id.append(source.as_str());
    id.append(", ");
    id.append(target.as_str());
    id.append(")");
    let mut attributes: Vec<(String, String)> = Vec::new();
    attributes.push(("source".to_owned(), source.clone()));
    attributes.push(("target".to_owned(), target.clone()));
    attributes.push(("id".to_owned(), id.clone()));
    assert(attribute_views(attributes@) =~= seq![("source"@, source@), ("target"@, target@), ("id"@, arc_id(source@, target@))]);
    push_item(items, XmlItem::Start { name: "arc".to_owned(), namespace: None, attributes });
    push_name(items, &id);
    push_item(items, open_tag_item("inscription"));
    push_item(items, open_tag_item("text"));
    push_text(items, "1".to_owned());
    push_item(items, XmlItem::End);
    push_item(items, XmlItem::End);
    push_item(items, XmlItem::End);
    assert(item_views(items@) =~= before + arc_events(source@, target@));
}

impl PetriNet {
    /// The events of the PNML document of the net.
    pub fn pnml_events(&self) -> (r: Vec<XmlItem>)
        requires
            self.wf(),
        ensures
            item_views(r@) == pnml_document(self),
            well_nested(item_views(r@)),
            open_depth(item_views(r@)) == 0,
    {
        let mut items: Vec<XmlItem> = Vec::new();
        assert(item_views(items@) =~= Seq::empty());
        assert(open_depth(item_views(items@)) == 0 && well_nested(item_views(items@)));
        let no_attributes: Vec<(String, String)> = Vec::new();
        assert(attribute_views(no_attributes@) =~= Seq::empty());
        push_item(
            &mut items,
            XmlItem::Start {
                name: "pnml".to_owned(),
                namespace: Some(XML_PNML_DEFAULT_NAMESPACE.to_owned()),
                attributes: no_attributes,
            },
        );
        let mut attributes: Vec<(String, String)> = Vec::new();
        attributes.push(("id".to_owned(), "net0".to_owned()));
        attributes.push(("type".to_owned(), XML_PNML_DEFAULT_GRAMMAR.to_owned()));
        assert(attribute_views(attributes@) =~= seq![("id"@, "net0"@), ("type"@, XML_PNML_DEFAULT_GRAMMAR@)]);
        push_item(&mut items, XmlItem::Start { name: "net".to_owned(), namespace: None, attributes });
        let page_id = "page0".to_owned();
        push_item(&mut items, tag_with_id("page", &page_id));
        let ghost head = item_views(items@);
        let places = self.places_iter();
        let mut i: usize = 0;
        while i < places.len()
            invariant
                places@.len() == self.place_keys().len(),
                forall|k: int|
                    0 <= k < places@.len() ==> #[trigger] places@[k].0@ == self.place_keys()[k]
                        && places@[k].1 == self.place_at(k),
                i <= places@.len(),
                item_views(items@) == head + places_events(self, i as int),
                open_depth(item_views(items@)) == 3,
                well_nested(item_views(items@)),
            decreases places@.len() - i,
        {
            let entry = &places[i];
            let ghost before = item_views(items@);
            push_item(&mut items, tag_with_id("place", entry.0.label()));
            push_name(&mut items, entry.0.label());
            let marking = entry.1.marking();
            if marking > 0 {
                push_item(&mut items, open_tag_item("initialMarking"));
                push_item(&mut items, open_tag_item("text"));
                push_text(&mut items, decimal_string(marking));
                push_item(&mut items, XmlItem::End);
                push_item(&mut items, XmlItem::End);
            }
            push_item(&mut items, XmlItem::End);
            assert(item_views(items@) =~= before + place_events(
                self.place_keys()[i as int].0,
                self.place_at(i as int).tokens(),
            ));
            assert(item_views(items@) =~= head + places_events(self, i as int + 1));
            i = i + 1;
        }
        let ghost with_places = item_views(items@);
        let transitions = self.transitions_iter();
        let mut j: usize = 0;
        while j < transitions.len()
            invariant
                transitions@.len() == self.transition_keys().len(),
                forall|k: int|
                    0 <= k < transitions@.len() ==> #[trigger] transitions@[k].0@
                        == self.transition_keys()[k],
                j <= transitions@.len(),
                item_views(items@) == with_places + transitions_events(self, j as int),
                open_depth(item_views(items@)) == 3,
                well_nested(item_views(items@)),
            decreases transitions@.len() - j,
        {
            let entry = &transitions[j];
            let ghost before = item_views(items@);
            push_item(&mut items, tag_with_id("transition", entry.0.label()));
            push_name(&mut items, entry.0.label());
            push_item(&mut items, XmlItem::End);
            assert(item_views(items@) =~= before + transition_events(self.transition_keys()[j as int].0));
            assert(item_views(items@) =~= with_places + transitions_events(self, j as int + 1));
            j = j + 1;
        }
        let ghost with_nodes = item_views(items@);
        let arcs = self.find_arcs_place_transition();
        let ghost pt = self.pt_arc_seq();
        let mut k: usize = 0;
        while k < arcs.len()
            invariant
                arcs@.map_values(|a: (PlaceRef, TransitionRef)| (a.0@, a.1@)) == pt,
                k <= arcs@.len(),
                item_views(items@) == with_nodes + arcs_events(pt, k as int),
                open_depth(item_views(items@)) == 3,
                well_nested(item_views(items@)),
            decreases arcs@.len() - k,
        {
            let arc = &arcs[k];
            assert(arc.0@ == pt[k as int].0 && arc.1@ == pt[k as int].1);
            push_arc(&mut items, arc.0.label(), arc.1.label());
            assert(item_views(items@) =~= with_nodes + arcs_events(pt, k as int + 1));
            k = k + 1;
        }
        let ghost with_pt = item_views(items@);
        let arcs = self.find_arcs_transition_place();
        let ghost tp = self.tp_arc_seq();
        let mut k: usize = 0;
        while k < arcs.len()
            invariant
                arcs@.map_values(|a: (TransitionRef, PlaceRef)| (a.0@, a.1@)) == tp,
                k <= arcs@.len(),
                item_views(items@) == with_pt + arcs_events(tp, k as int),
                open_depth(item_views(items@)) == 3,
                well_nested(item_views(items@)),
            decreases arcs@.len() - k,
        {
            let arc = &arcs[k];
            assert(arc.0@ == tp[k as int].0 && arc.1@ == tp[k as int].1);
            push_arc(&mut items, arc.0.label(), arc.1.label());
            assert(item_views(items@) =~= with_pt + arcs_events(tp, k as int + 1));
            k = k + 1;
        }
        push_item(&mut items, XmlItem::End);
        push_item(&mut items, XmlItem::End);
        push_item(&mut items, XmlItem::End);
        assert(item_views(items@) =~= pnml_document(self));
        items
    }

    /// The net as a PNML document, indented. The events are well nested and the
    /// writer's output is UTF-8, so this always succeeds.
    pub fn to_pnml_string(&self) -> (r: Result<String, NetError>)
        requires
            self.wf(),
        ensures
            r is Ok,
            r matches Ok(s) ==> s@ == decode_utf8(xml_render(pnml_document(self))),
    {
        let items = self.pnml_events();
        let mut writer = xml_writer();
        let mut i: usize = 0;
        while i < items.len()
            invariant
                i <= items@.len(),
                well_nested(item_views(items@)),
                xml_written(writer) == item_views(items@).take(i as int),
            decreases items@.len() - i,
        {
            proof {
                let views = item_views(items@);
                lemma_well_nested_prefix(views, i as int + 1);
                assert(views.take(i as int + 1).drop_last() =~= views.take(i as int));
                assert(views.take(i as int + 1).last() == items@[i as int]@);
            }
            match xml_write(&mut writer, &items[i]) {
                Ok(()) => {},
                Err(_) => return Err(NetError::IoFailure),
            }
            assert(item_views(items@).take(i as int + 1) =~= item_views(items@).take(i as int).push(
                items@[i as int]@,
            ));
            i = i + 1;
        }
        assert(item_views(items@).take(items@.len() as int) =~= item_views(items@));
        let bytes = xml_bytes(writer);
        match utf8_string(bytes) {
            Some(s) => Ok(s),
            None => Err(NetError::IoFailure),
        }
    }
}

} // verus!
