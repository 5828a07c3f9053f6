use rust_to_petri::{PlaceRef, TransitionRef};

#[test]
fn place_ref_new_sets_label() {
    let place_ref = PlaceRef::new("Example reference");

    assert_eq!(place_ref.label(), "Example reference");
}

#[test]
fn place_ref_new_sets_uuid_not_nil() {
    let place_ref = PlaceRef::new("Example reference");

    assert_ne!(place_ref.uuid(), uuid::Uuid::parse_str("00000000-0000-0000-0000-000000000000").unwrap().as_u128());
}

#[test]
fn place_ref_new_sets_a_different_uuid_every_time() {
    let ref_1 = PlaceRef::new("Example reference");
    let ref_2 = PlaceRef::new("Example reference");
    let ref_3 = PlaceRef::new("Example reference");

    assert_ne!(ref_1.uuid(), ref_2.uuid());
    assert_ne!(ref_2.uuid(), ref_3.uuid());
    assert_ne!(ref_3.uuid(), ref_1.uuid());
}

#[test]
fn place_ref_label_returns_the_label() {
    let place_ref = PlaceRef::new("Example reference");

    assert_eq!(place_ref.label(), "Example reference");
}

#[test]
fn place_ref_display_trait_prints_the_label() {
    let place_ref = PlaceRef::new("Example reference");

    assert_eq!(place_ref.as_string(), "Example reference");
}

#[test]
fn node_ref_transition_ref_new_sets_label() {
    let transition_ref = TransitionRef::new("Example reference");

    assert_eq!(transition_ref.label(), "Example reference");
}

#[test]
fn node_ref_transition_ref_new_sets_uuid_not_nil() {
    let transition_ref = TransitionRef::new("Example reference");

    assert_ne!(transition_ref.uuid(), uuid::Uuid::parse_str("00000000-0000-0000-0000-000000000000").unwrap().as_u128());
}

#[test]
fn node_ref_transition_ref_new_sets_a_different_uuid_every_time() {
    let ref_1 = TransitionRef::new("Example reference");
    let ref_2 = TransitionRef::new("Example reference");
    let ref_3 = TransitionRef::new("Example reference");

    assert_ne!(ref_1.uuid(), ref_2.uuid());
    assert_ne!(ref_2.uuid(), ref_3.uuid());
    assert_ne!(ref_3.uuid(), ref_1.uuid());
}

#[test]
fn node_ref_transition_ref_label_returns_the_label() {
    let transition_ref = TransitionRef::new("Example reference");

    assert_eq!(transition_ref.label(), "Example reference");
}

#[test]
fn node_ref_transition_ref_display_trait_prints_the_label() {
    let transition_ref = TransitionRef::new("Example reference");

    assert_eq!(transition_ref.as_string(), "Example reference");
}

#[test]
fn transition_ref_transition_ref_new_sets_label() {
    let transition_ref = TransitionRef::new("Example reference");

    assert_eq!(transition_ref.label(), "Example reference");
}

#[test]
fn transition_ref_transition_ref_new_sets_uuid_not_nil() {
    let transition_ref = TransitionRef::new("Example reference");

    assert_ne!(transition_ref.uuid(), uuid::Uuid::parse_str("00000000-0000-0000-0000-000000000000").unwrap().as_u128());
}

#[test]
fn transition_ref_transition_ref_new_sets_a_different_uuid_every_time() {
    let ref_1 = TransitionRef::new("Example reference");
    let ref_2 = TransitionRef::new("Example reference");
    let ref_3 = TransitionRef::new("Example reference");

    assert_ne!(ref_1.uuid(), ref_2.uuid());
    assert_ne!(ref_2.uuid(), ref_3.uuid());
    assert_ne!(ref_3.uuid(), ref_1.uuid());
}

#[test]
fn transition_ref_transition_ref_label_returns_the_label() {
    let transition_ref = TransitionRef::new("Example reference");

    assert_eq!(transition_ref.label(), "Example reference");
}

#[test]
fn transition_ref_transition_ref_display_trait_prints_the_label() {
    let transition_ref = TransitionRef::new("Example reference");

    assert_eq!(transition_ref.as_string(), "Example reference");
}
