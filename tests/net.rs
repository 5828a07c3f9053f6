use rust_to_petri::{PetriNet, PlaceRef};

fn marking_in(vector: &[(PlaceRef, usize)], place_ref: &PlaceRef) -> Option<usize> {
    vector.iter().find(|(reference, _)| reference == place_ref).map(|(_, marking)| *marking)
}

#[test]
fn petri_net_new_default_has_no_places() {
    let net = PetriNet::new();
    assert_eq!(net.get_cardinality_places(), 0);
}

#[test]
fn petri_net_new_default_has_no_transitions() {
    let new = PetriNet::new();
    assert_eq!(new.get_cardinality_transitions(), 0)
}

#[test]
fn petri_net_net_find_unconnected_places_returns_empty_set_for_empty_net() {
    let net = PetriNet::new();
    let unconnected_set = net.find_unconnected_places();

    assert!(unconnected_set.is_empty());
}

#[test]
fn petri_net_net_find_unconnected_places_some_empty_places() {
    let mut net = PetriNet::new();
    let place_1 = net.add_place("P1");
    let place_2 = net.add_place("P2");
    let place_3 = net.add_place("P3");

    let transition_1 = net.add_transition("T1");
    let transition_2 = net.add_transition("T2");

    let result = net.add_arc_place_transition(&place_1, &transition_1);
    assert!(result.is_ok());
    let result = net.add_arc_transition_place(&transition_1, &place_2);
    assert!(result.is_ok());
    let result = net.add_arc_place_transition(&place_2, &transition_2);
    assert!(result.is_ok());

    let unconnected_set = net.find_unconnected_places();
    assert_eq!(unconnected_set.len(), 1);
    assert!(unconnected_set.contains(&place_3));
}

#[test]
fn petri_net_net_find_unconnected_places_all_empty_places() {
    let mut net = PetriNet::new();
    let place_1 = net.add_place("P1");
    let place_2 = net.add_place("P2");
    let place_3 = net.add_place("P3");

    let unconnected_set = net.find_unconnected_places();
    assert_eq!(unconnected_set.len(), 3);
    assert!(unconnected_set.contains(&place_1));
    assert!(unconnected_set.contains(&place_2));
    assert!(unconnected_set.contains(&place_3));
}

#[test]
fn net_find_arcs_place_transition_lists_all_arcs() {
    let mut net = PetriNet::new();
    let place_1 = net.add_place("P1");
    let place_2 = net.add_place("P2");
    let place_3 = net.add_place("P3");

    let transition_1 = net.add_transition("T1");
    let transition_2 = net.add_transition("T2");

    let result = net.add_arc_place_transition(&place_1, &transition_1);
    assert!(result.is_ok());
    let result = net.add_arc_transition_place(&transition_1, &place_2);
    assert!(result.is_ok());
    let result = net.add_arc_place_transition(&place_2, &transition_2);
    assert!(result.is_ok());
    let result = net.add_arc_transition_place(&transition_2, &place_3);
    assert!(result.is_ok());

    let arcs = net.find_arcs_place_transition();
    assert_eq!(arcs.len(), 2);
    assert!(arcs.contains(&(place_1, transition_1)));
    assert!(arcs.contains(&(place_2, transition_2)));
}

#[test]
fn net_find_arcs_transition_place_lists_all_arcs() {
    let mut net = PetriNet::new();
    let place_1 = net.add_place("P1");
    let place_2 = net.add_place("P2");
    let place_3 = net.add_place("P3");

    let transition_1 = net.add_transition("T1");
    let transition_2 = net.add_transition("T2");

    let result = net.add_arc_place_transition(&place_1, &transition_1);
    assert!(result.is_ok());
    let result = net.add_arc_transition_place(&transition_1, &place_2);
    assert!(result.is_ok());
    let result = net.add_arc_place_transition(&place_2, &transition_2);
    assert!(result.is_ok());
    let result = net.add_arc_transition_place(&transition_2, &place_3);
    assert!(result.is_ok());

    let arcs = net.find_arcs_transition_place();
    assert_eq!(arcs.len(), 2);
    assert!(arcs.contains(&(transition_1, place_2)));
    assert!(arcs.contains(&(transition_2, place_3)));
}

#[test]
fn petri_net_net_add_place_updates_size() {
    let mut net = PetriNet::new();
    net.add_place("Example place");

    assert_eq!(net.get_cardinality_places(), 1);
}

#[test]
fn petri_net_net_add_transition_updates_size() {
    let mut net = PetriNet::new();
    net.add_transition("Example transition");

    assert_eq!(net.get_cardinality_transitions(), 1);
}

#[test]
fn petri_net_net_marking_returns_number_of_tokens_in_place() {
    let mut net = PetriNet::new();
    let place_ref = net.add_place("Example place");

    let result = net.marking(&place_ref);
    assert!(result.is_ok());
    assert_eq!(result.unwrap(), 0);
}

#[test]
fn petri_net_net_marking_add_token_increases_number_of_tokens_in_place() {
    let mut net = PetriNet::new();
    let place_ref = net.add_place("Example place");

    assert!(net.add_token(&place_ref, 1).is_ok());

    let result = net.marking(&place_ref);
    assert!(result.is_ok());
    assert_eq!(result.unwrap(), 1);
}

#[test]
fn petri_net_net_marking_add_token_multiple_times() {
    let mut net = PetriNet::new();
    let place_ref = net.add_place("Example place");

    assert!(net.add_token(&place_ref, 5).is_ok());

    let result = net.marking(&place_ref);
    assert!(result.is_ok());
    assert_eq!(result.unwrap(), 5);
}

#[test]
fn petri_net_net_marking_remove_token_decreases_number_of_tokens_in_place() {
    let mut net = PetriNet::new();
    let place_ref = net.add_place("Example place");

    assert!(net.add_token(&place_ref, 2).is_ok());
    assert!(net.remove_token(&place_ref, 1).is_ok());

    let result = net.marking(&place_ref);
    assert!(result.is_ok());
    assert_eq!(result.unwrap(), 1);
}

#[test]
fn petri_net_net_marking_remove_token_returns_err_if_place_empty() {
    let mut net = PetriNet::new();
    let place_ref = net.add_place("Example place");

    assert!(net.remove_token(&place_ref, 1).is_err());
}

#[test]
fn petri_net_net_marking_vector_three_empty_places() {
    let mut net = PetriNet::new();
    let place_1 = net.add_place("P1");
    let place_2 = net.add_place("P2");
    let place_3 = net.add_place("P3");

    let result = net.marking_vector();
    assert_eq!(marking_in(&result, &place_1).unwrap(), 0);
    assert_eq!(marking_in(&result, &place_2).unwrap(), 0);
    assert_eq!(marking_in(&result, &place_3).unwrap(), 0);
}

#[test]
fn petri_net_net_marking_vector_two_places() {
    let mut net = PetriNet::new();
    let place_1 = net.add_place("P1");
    let place_2 = net.add_place("P2");

    assert!(net.add_token(&place_1, 5).is_ok());
    assert!(net.add_token(&place_2, 3).is_ok());

    let result = net.marking_vector();
    assert_eq!(marking_in(&result, &place_1).unwrap(), 5);
    assert_eq!(marking_in(&result, &place_2).unwrap(), 3);
}

#[test]
fn petri_net_net_add_arc_place_transition_simple() {
    let mut net = PetriNet::new();
    let place_ref = net.add_place("Example place");
    let transition_ref = net.add_transition("Example transition");

    let result = net.add_arc_place_transition(&place_ref, &transition_ref);
    assert!(result.is_ok());
}

#[test]
fn petri_net_net_add_arc_transition_place_simple() {
    let mut net = PetriNet::new();
    let place_ref = net.add_place("Example place");
    let transition_ref = net.add_transition("Example transition");

    let result = net.add_arc_transition_place(&transition_ref, &place_ref);
    assert!(result.is_ok());
}

#[test]
fn petri_net_net_add_place_transition_form_self_loop() {
    let mut net = PetriNet::new();
    let place_ref = net.add_place("Example place");
    let transition_ref = net.add_transition("Example transition");

    let result = net.add_arc_place_transition(&place_ref, &transition_ref);
    assert!(result.is_ok());
    let result = net.add_arc_transition_place(&transition_ref, &place_ref);
    assert!(result.is_ok());
}

#[test]
fn petri_net_net_add_place_transition_form_chain() {
    let mut net = PetriNet::new();
    let place_1 = net.add_place("P1");
    let place_2 = net.add_place("P2");
    let place_3 = net.add_place("P3");

    let transition_1 = net.add_transition("T1");
    let transition_2 = net.add_transition("T2");

    let result = net.add_arc_place_transition(&place_1, &transition_1);
    assert!(result.is_ok());
    let result = net.add_arc_transition_place(&transition_1, &place_2);
    assert!(result.is_ok());
    let result = net.add_arc_place_transition(&place_2, &transition_2);
    assert!(result.is_ok());
    let result = net.add_arc_transition_place(&transition_2, &place_3);
    assert!(result.is_ok());
}

#[test]
fn net_iter_net_places_iter_empty_net() {
    let net = PetriNet::default();
    assert_eq!(net.places_iter().iter().count(), 0);
}

#[test]
fn net_iter_net_places_iter_visits_all_places() {
    let mut net = PetriNet::default();
    net.add_place("P1");
    net.add_place("P2");
    net.add_place("P3");
    net.add_place("P4");
    assert_eq!(net.places_iter().iter().count(), 4);
}

#[test]
fn net_iter_net_transitions_iter_empty_net() {
    let net = PetriNet::default();
    assert_eq!(net.transitions_iter().iter().count(), 0);
}

#[test]
fn net_iter_net_transitions_iter_visits_all_transitions() {
    let mut net = PetriNet::default();
    net.add_transition("T1");
    net.add_transition("T2");
    net.add_transition("T3");
    net.add_transition("T4");
    assert_eq!(net.transitions_iter().iter().count(), 4);
}
