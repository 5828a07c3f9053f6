use rust_to_petri::{Place, PlaceRef, Transition, TransitionRef};

#[test]
fn node_place_new_has_empty_preset() {
    let place = Place::new();

    assert!(place.get_preset().is_empty());
}

#[test]
fn node_place_new_has_empty_postset() {
    let place = Place::new();

    assert!(place.get_postset().is_empty());
}

#[test]
fn node_place_default_is_empty() {
    let place = Place::default();

    assert!(place.is_empty());
}

#[test]
fn node_place_default_marking_is_zero() {
    let place = Place::default();

    assert_eq!(place.marking(), 0);
}

#[test]
fn node_place_add_token_updates_marking() {
    let mut place = Place::default();

    assert!(place.add_token(1).is_ok());
    assert!(!place.is_empty());
}

#[test]
fn node_place_add_lots_of_tokens() {
    let mut place = Place::default();
    assert_eq!(place.marking(), 0);

    assert!(place.add_token(10).is_ok());

    assert!(!place.is_empty());
    assert_eq!(place.marking(), 10);
}

#[test]
fn node_place_remove_token_updates_length() {
    let mut place = Place::default();

    assert!(place.add_token(1).is_ok());
    let result = place.remove_token(1);

    assert!(result.is_ok());
    assert!(place.is_empty());
}

#[test]
fn node_place_remove_token_returns_err_if_empty() {
    let mut place = Place::default();
    let result = place.remove_token(1);

    assert!(result.is_err());
    assert!(place.is_empty());
}

#[test]
fn node_place_remove_lots_of_tokens() {
    let mut place = Place::default();

    assert!(place.add_token(10).is_ok());
    assert!(place.remove_token(7).is_ok());

    assert!(!place.is_empty());
    assert_eq!(place.marking(), 3);
}

#[test]
fn node_place_add_incoming_transition_returns_true_when_success() {
    let mut place = Place::new();
    let reference = TransitionRef::new("Example transition");

    assert!(place.add_incoming(reference));
}

#[test]
fn node_place_add_incoming_transition_returns_false_when_already_exists() {
    let mut place = Place::new();
    let reference = TransitionRef::new("Example transition");

    assert!(place.add_incoming(reference.clone()));
    assert!(!place.add_incoming(reference));
}

#[test]
fn node_place_remove_incoming_transition_returns_true_when_success() {
    let mut place = Place::new();
    let reference = TransitionRef::new("Example transition");

    assert!(place.add_incoming(reference.clone()));
    assert!(place.remove_incoming(&reference));
}

#[test]
fn node_place_remove_incoming_transition_returns_false_when_not_found() {
    let mut place = Place::new();
    let reference = TransitionRef::new("Example transition");

    assert!(place.add_incoming(reference));
    let reference = TransitionRef::new("Example not found");
    assert!(!place.remove_incoming(&reference));
}

#[test]
fn node_transition_new_has_empty_preset() {
    let transition = Transition::new();

    assert!(transition.get_preset().is_empty());
}

#[test]
fn node_transition_new_has_empty_postset() {
    let transition = Transition::new();

    assert!(transition.get_postset().is_empty());
}

#[test]
fn node_transition_add_incoming_place_returns_true_when_success() {
    let mut transition = Transition::new();
    let reference = PlaceRef::new("Example place");

    assert!(transition.add_incoming(reference));
}

#[test]
fn node_transition_add_incoming_place_returns_false_when_already_exists() {
    let mut transition = Transition::new();
    let reference = PlaceRef::new("Example place");

    assert!(transition.add_incoming(reference.clone()));
    assert!(!transition.add_incoming(reference));
}

#[test]
fn node_transition_remove_incoming_place_returns_true_when_success() {
    let mut transition = Transition::new();
    let reference = PlaceRef::new("Example place");

    assert!(transition.add_incoming(reference.clone()));
    assert!(transition.remove_incoming(&reference));
}

#[test]
fn node_transition_remove_incoming_place_returns_false_when_not_found() {
    let mut transition = Transition::new();
    let reference = PlaceRef::new("Example place");

    assert!(transition.add_incoming(reference));
    let reference = PlaceRef::new("Example not found");
    assert!(!transition.remove_incoming(&reference));
}

#[test]
fn place_place_new_has_empty_preset() {
    let place = Place::new();

    assert!(place.get_preset().is_empty());
}

#[test]
fn place_place_new_has_empty_postset() {
    let place = Place::new();

    assert!(place.get_postset().is_empty());
}

#[test]
fn place_place_default_is_empty() {
    let place = Place::default();

    assert!(place.is_empty());
}

#[test]
fn place_place_default_marking_is_zero() {
    let place = Place::default();

    assert_eq!(place.marking(), 0);
}

#[test]
fn place_place_add_token_updates_marking() {
    let mut place = Place::default();

    assert!(place.add_token(1).is_ok());
    assert!(!place.is_empty());
}

#[test]
fn place_place_add_lots_of_tokens() {
    let mut place = Place::default();
    assert_eq!(place.marking(), 0);

    assert!(place.add_token(10).is_ok());

    assert!(!place.is_empty());
    assert_eq!(place.marking(), 10);
}

#[test]
fn place_place_remove_token_updates_length() {
    let mut place = Place::default();

    assert!(place.add_token(1).is_ok());
    let result = place.remove_token(1);

    assert!(result.is_ok());
    assert!(place.is_empty());
}

#[test]
fn place_place_remove_token_returns_err_if_empty() {
    let mut place = Place::default();
    let result = place.remove_token(1);

    assert!(result.is_err());
    assert!(place.is_empty());
}

#[test]
fn place_place_remove_lots_of_tokens() {
    let mut place = Place::default();

    assert!(place.add_token(10).is_ok());
    assert!(place.remove_token(7).is_ok());

    assert!(!place.is_empty());
    assert_eq!(place.marking(), 3);
}

#[test]
fn place_place_add_incoming_transition_returns_true_when_success() {
    let mut place = Place::new();
    let reference = TransitionRef::new("Example transition");

    assert!(place.add_incoming(reference));
}

#[test]
fn place_place_add_incoming_transition_returns_false_when_already_exists() {
    let mut place = Place::new();
    let reference = TransitionRef::new("Example transition");

    assert!(place.add_incoming(reference.clone()));
    assert!(!place.add_incoming(reference));
}

#[test]
fn place_place_remove_incoming_transition_returns_true_when_success() {
    let mut place = Place::new();
    let reference = TransitionRef::new("Example transition");

    assert!(place.add_incoming(reference.clone()));
    assert!(place.remove_incoming(&reference));
}

#[test]
fn place_place_remove_incoming_transition_returns_false_when_not_found() {
    let mut place = Place::new();
    let reference = TransitionRef::new("Example transition");

    assert!(place.add_incoming(reference));
    let reference = TransitionRef::new("Example not found");
    assert!(!place.remove_incoming(&reference));
}

#[test]
fn transition_transition_new_has_empty_preset() {
    let transition = Transition::new();

    assert!(transition.get_preset().is_empty());
}

#[test]
fn transition_transition_new_has_empty_postset() {
    let transition = Transition::new();

    assert!(transition.get_postset().is_empty());
}

#[test]
fn transition_transition_add_incoming_place_returns_true_when_success() {
    let mut transition = Transition::new();
    let reference = PlaceRef::new("Example place");

    assert!(transition.add_incoming(reference));
}

#[test]
fn transition_transition_add_incoming_place_returns_false_when_already_exists() {
    let mut transition = Transition::new();
    let reference = PlaceRef::new("Example place");

    assert!(transition.add_incoming(reference.clone()));
    assert!(!transition.add_incoming(reference));
}

#[test]
fn transition_transition_remove_incoming_place_returns_true_when_success() {
    let mut transition = Transition::new();
    let reference = PlaceRef::new("Example place");

    assert!(transition.add_incoming(reference.clone()));
    assert!(transition.remove_incoming(&reference));
}

#[test]
fn transition_transition_remove_incoming_place_returns_false_when_not_found() {
    let mut transition = Transition::new();
    let reference = PlaceRef::new("Example place");

    assert!(transition.add_incoming(reference));
    let reference = PlaceRef::new("Example not found");
    assert!(!transition.remove_incoming(&reference));
}
