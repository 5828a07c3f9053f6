use rust_to_petri::net_creator::{
    create_basic_unconnected_net, create_net_chain_topology, create_net_loop_topology,
};

#[test]
fn create_basic_unconnected_net_has_correct_number_of_nodes() {
    let (net, place_refs, transition_refs) = create_basic_unconnected_net(8, 14);

    assert_eq!(net.get_cardinality_places(), 8);
    assert_eq!(net.get_cardinality_transitions(), 14);
    assert_eq!(place_refs.len(), 8);
    assert_eq!(transition_refs.len(), 14)
}

#[test]
fn create_basic_unconnected_net_has_correct_number_of_nodes_from_0_to_10() {
    for number_of_places in 0..=10 {
        for number_of_transitions in 0..=10 {
            let (net, place_refs, transition_refs) =
                create_basic_unconnected_net(number_of_places, number_of_transitions);

            assert_eq!(net.get_cardinality_places(), number_of_places);
            assert_eq!(net.get_cardinality_transitions(), number_of_transitions);
            assert_eq!(place_refs.len(), number_of_places);
            assert_eq!(transition_refs.len(), number_of_transitions);
        }
    }
}

#[test]
fn create_basic_unconnected_net_has_no_arcs() {
    let (net, place_refs, transition_refs) = create_basic_unconnected_net(8, 14);
    let arcs_1 = net.find_arcs_place_transition();
    let arcs_2 = net.find_arcs_transition_place();

    assert!(arcs_1.is_empty());
    assert!(arcs_2.is_empty());
    assert_eq!(place_refs.len(), 8);
    assert_eq!(transition_refs.len(), 14)
}

#[test]
fn create_basic_unconnected_net_has_valid_references() {
    let (net, place_refs, transition_refs) = create_basic_unconnected_net(8, 14);

    for place_ref in place_refs.iter() {
        assert!(net.check_place_ref(place_ref));
    }
    for transition_ref in transition_refs.iter() {
        assert!(net.check_transition_ref(transition_ref));
    }
}

#[test]
fn create_basic_unconnected_net_has_no_arcs_from_0_to_10() {
    for number_of_places in 0..=10 {
        for number_of_transitions in 0..=10 {
            let (net, _, _) =
                create_basic_unconnected_net(number_of_places, number_of_transitions);
            let arcs_1 = net.find_arcs_place_transition();
            let arcs_2 = net.find_arcs_transition_place();

            assert!(arcs_1.is_empty());
            assert!(arcs_2.is_empty());
        }
    }
}

#[test]
fn create_net_chain_topology_has_correct_number_of_nodes() {
    let (net, place_refs, transition_refs) = create_net_chain_topology(3);

    assert_eq!(net.get_cardinality_places(), 3);
    assert_eq!(net.get_cardinality_transitions(), 2);
    assert_eq!(place_refs.len(), 3);
    assert_eq!(transition_refs.len(), 2);
}

#[test]
fn create_net_chain_topology_has_valid_references() {
    let (net, place_refs, transition_refs) = create_net_chain_topology(3);

    for place_ref in place_refs.iter() {
        assert!(net.check_place_ref(place_ref));
    }
    for transition_ref in transition_refs.iter() {
        assert!(net.check_transition_ref(transition_ref));
    }
}

#[test]
fn create_net_chain_topology_length_zero_returns_empty_net() {
    let (net, place_refs, transition_refs) = create_net_chain_topology(0);

    assert_eq!(net.get_cardinality_places(), 0);
    assert_eq!(net.get_cardinality_transitions(), 0);
    assert_eq!(place_refs.len(), 0);
    assert_eq!(transition_refs.len(), 0);
}

#[test]
fn create_net_chain_topology_has_correct_number_of_nodes_from_1_to_10() {
    for length in 1..=10 {
        let (net, place_refs, transition_refs) = create_net_chain_topology(length);

        assert_eq!(net.get_cardinality_places(), length);
        assert_eq!(net.get_cardinality_transitions(), length - 1);
        assert_eq!(place_refs.len(), length);
        assert_eq!(transition_refs.len(), length - 1);
    }
}

#[test]
fn create_net_chain_topology_has_correct_number_of_arcs() {
    let (net, place_refs, transition_refs) = create_net_chain_topology(3);
    let arcs_1 = net.find_arcs_place_transition();
    let arcs_2 = net.find_arcs_transition_place();

    assert_eq!(arcs_1.len(), 2);
    assert_eq!(arcs_2.len(), 2);
    assert_eq!(place_refs.len(), 3);
    assert_eq!(transition_refs.len(), 2);
}

#[test]
fn create_net_chain_topology_has_correct_number_of_arcs_from_1_to_10() {
    for length in 1..=10 {
        let (net, _, _) = create_net_chain_topology(length);
        let arcs_1 = net.find_arcs_place_transition();
        let arcs_2 = net.find_arcs_transition_place();

        assert_eq!(arcs_1.len(), length - 1);
        assert_eq!(arcs_2.len(), length - 1);
    }
}

#[test]
fn create_net_loop_topology_has_correct_number_of_places() {
    let (net, place_ref, transition_ref) = create_net_loop_topology();

    assert_eq!(net.get_cardinality_places(), 1);
    assert_eq!(net.get_cardinality_transitions(), 1);
    assert!(net.check_place_ref(&place_ref));
    assert!(net.check_transition_ref(&transition_ref));
}

#[test]
fn create_net_loop_topology_has_valid_references() {
    let (net, place_ref, transition_ref) = create_net_loop_topology();

    assert!(net.check_place_ref(&place_ref));
    assert!(net.check_transition_ref(&transition_ref));
}

#[test]
fn create_net_loop_topology_has_correct_number_of_arcs() {
    let (net, _, _) = create_net_loop_topology();
    let arcs_1 = net.find_arcs_place_transition();
    let arcs_2 = net.find_arcs_transition_place();

    assert_eq!(arcs_1.len(), 1);
    assert_eq!(arcs_2.len(), 1);
}
