use rust_to_petri::net_creator::{
    create_basic_unconnected_net, create_net_chain_topology, create_net_loop_topology,
};
use rust_to_petri::PetriNet;

const DOT_STRING_EMPTY_NET: &str = "digraph petrinet {\n}\n";

const DOT_STRING_ONLY_EMPTY_PLACES_NET: &str = r#"digraph petrinet {
    P1 [shape="circle" xlabel="P1" label=""];
    P2 [shape="circle" xlabel="P2" label=""];
    P3 [shape="circle" xlabel="P3" label=""];
    P4 [shape="circle" xlabel="P4" label=""];
    P5 [shape="circle" xlabel="P5" label=""];
}
"#;

const DOT_STRING_MARKED_PLACES_NET: &str = r#"digraph petrinet {
    P1 [shape="circle" xlabel="P1" label="•••••"];
    P2 [shape="circle" xlabel="P2" label="6"];
    P3 [shape="circle" xlabel="P3" label="•••"];
    P4 [shape="circle" xlabel="P4" label="••"];
    P5 [shape="circle" xlabel="P5" label="•"];
}
"#;

const DOT_STRING_ONLY_EMPTY_TRANSITIONS_NET: &str = r#"digraph petrinet {
    T1 [shape="box" xlabel="" label="T1"];
    T2 [shape="box" xlabel="" label="T2"];
    T3 [shape="box" xlabel="" label="T3"];
    T4 [shape="box" xlabel="" label="T4"];
    T5 [shape="box" xlabel="" label="T5"];
}
"#;

const DOT_STRING_NET_WITH_CHAIN_TOPOLOPY: &str = r#"digraph petrinet {
    P1 [shape="circle" xlabel="P1" label=""];
    P2 [shape="circle" xlabel="P2" label=""];
    P3 [shape="circle" xlabel="P3" label=""];
    T1 [shape="box" xlabel="" label="T1"];
    T2 [shape="box" xlabel="" label="T2"];
    P1 -> T1;
    P2 -> T2;
    T1 -> P2;
    T2 -> P3;
}
"#;

const DOT_STRING_NET_WITH_LOOP_TOPOLOGY: &str = r#"digraph petrinet {
    P1 [shape="circle" xlabel="P1" label=""];
    T1 [shape="box" xlabel="" label="T1"];
    P1 -> T1;
    T1 -> P1;
}
"#;

const LOLA_STRING_ONLY_EMPTY_PLACES_NET: &str = r#"PLACE
    P1,
    P2,
    P3,
    P4,
    P5;

MARKING
    P1 : 0,
    P2 : 0,
    P3 : 0,
    P4 : 0,
    P5 : 0;

"#;

const LOLA_STRING_MARKED_PLACES_NET: &str = r#"PLACE
    P1,
    P2,
    P3,
    P4,
    P5;

MARKING
    P1 : 5,
    P2 : 6,
    P3 : 3,
    P4 : 2,
    P5 : 1;

"#;

const LOLA_STRING_ONLY_EMPTY_TRANSITIONS_NET: &str = r#"TRANSITION T1
  CONSUME;
  PRODUCE;
TRANSITION T2
  CONSUME;
  PRODUCE;
TRANSITION T3
  CONSUME;
  PRODUCE;
TRANSITION T4
  CONSUME;
  PRODUCE;
TRANSITION T5
  CONSUME;
  PRODUCE;
"#;

const LOLA_STRING_NET_WITH_CHAIN_TOPOLOPY: &str = r#"PLACE
    P1,
    P2,
    P3;

MARKING
    P1 : 0,
    P2 : 0,
    P3 : 0;

TRANSITION T1
  CONSUME
    P1 : 1;
  PRODUCE
    P2 : 1;
TRANSITION T2
  CONSUME
    P2 : 1;
  PRODUCE
    P3 : 1;
"#;

const LOLA_STRING_NET_WITH_LOOP_TOPOLOGY: &str = r#"PLACE
    P1;

MARKING
    P1 : 0;

TRANSITION T1
  CONSUME
    P1 : 1;
  PRODUCE
    P1 : 1;
"#;

const PNML_STRING_EMPTY_NET: &str = r#"<?xml version="1.0" encoding="utf-8"?>
<pnml xmlns="http://www.pnml.org/version-2009/grammar/pnml">
  <net id="net0" type="http://www.pnml.org/version-2009/grammar/ptnet">
    <page id="page0" />
  </net>
</pnml>"#;

const PNML_STRING_ONLY_EMPTY_PLACES_NET: &str = r#"<?xml version="1.0" encoding="utf-8"?>
<pnml xmlns="http://www.pnml.org/version-2009/grammar/pnml">
  <net id="net0" type="http://www.pnml.org/version-2009/grammar/ptnet">
    <page id="page0">
      <place id="P1">
        <name>
          <text>P1</text>
        </name>
      </place>
      <place id="P2">
        <name>
          <text>P2</text>
        </name>
      </place>
      <place id="P3">
        <name>
          <text>P3</text>
        </name>
      </place>
      <place id="P4">
        <name>
          <text>P4</text>
        </name>
      </place>
      <place id="P5">
        <name>
          <text>P5</text>
        </name>
      </place>
    </page>
  </net>
</pnml>"#;

const PNML_STRING_MARKED_PLACES_NET: &str = r#"<?xml version="1.0" encoding="utf-8"?>
<pnml xmlns="http://www.pnml.org/version-2009/grammar/pnml">
  <net id="net0" type="http://www.pnml.org/version-2009/grammar/ptnet">
    <page id="page0">
      <place id="P1">
        <name>
          <text>P1</text>
        </name>
        <initialMarking>
          <text>5</text>
        </initialMarking>
      </place>
      <place id="P2">
        <name>
          <text>P2</text>
        </name>
        <initialMarking>
          <text>6</text>
        </initialMarking>
      </place>
      <place id="P3">
        <name>
          <text>P3</text>
        </name>
        <initialMarking>
          <text>3</text>
        </initialMarking>
      </place>
      <place id="P4">
        <name>
          <text>P4</text>
        </name>
        <initialMarking>
          <text>2</text>
        </initialMarking>
      </place>
      <place id="P5">
        <name>
          <text>P5</text>
        </name>
        <initialMarking>
          <text>1</text>
        </initialMarking>
      </place>
    </page>
  </net>
</pnml>"#;

const PNML_STRING_ONLY_EMPTY_TRANSITIONS_NET: &str = r#"<?xml version="1.0" encoding="utf-8"?>
<pnml xmlns="http://www.pnml.org/version-2009/grammar/pnml">
  <net id="net0" type="http://www.pnml.org/version-2009/grammar/ptnet">
    <page id="page0">
      <transition id="T1">
        <name>
          <text>T1</text>
        </name>
      </transition>
      <transition id="T2">
        <name>
          <text>T2</text>
        </name>
      </transition>
      <transition id="T3">
        <name>
          <text>T3</text>
        </name>
      </transition>
      <transition id="T4">
        <name>
          <text>T4</text>
        </name>
      </transition>
      <transition id="T5">
        <name>
          <text>T5</text>
        </name>
      </transition>
    </page>
  </net>
</pnml>"#;

const PNML_STRING_NET_WITH_CHAIN_TOPOLOPY: &str = r#"<?xml version="1.0" encoding="utf-8"?>
<pnml xmlns="http://www.pnml.org/version-2009/grammar/pnml">
  <net id="net0" type="http://www.pnml.org/version-2009/grammar/ptnet">
    <page id="page0">
      <place id="P1">
        <name>
          <text>P1</text>
        </name>
      </place>
      <place id="P2">
        <name>
          <text>P2</text>
        </name>
      </place>
      <place id="P3">
        <name>
          <text>P3</text>
        </name>
      </place>
      <transition id="T1">
        <name>
          <text>T1</text>
        </name>
      </transition>
      <transition id="T2">
        <name>
          <text>T2</text>
        </name>
      </transition>
      <arc source="P1" target="T1" id="(P1, T1)">
        <name>
          <text>(P1, T1)</text>
        </name>
        <inscription>
          <text>1</text>
        </inscription>
      </arc>
      <arc source="P2" target="T2" id="(P2, T2)">
        <name>
          <text>(P2, T2)</text>
        </name>
        <inscription>
          <text>1</text>
        </inscription>
      </arc>
      <arc source="T1" target="P2" id="(T1, P2)">
        <name>
          <text>(T1, P2)</text>
        </name>
        <inscription>
          <text>1</text>
        </inscription>
      </arc>
      <arc source="T2" target="P3" id="(T2, P3)">
        <name>
          <text>(T2, P3)</text>
        </name>
        <inscription>
          <text>1</text>
        </inscription>
      </arc>
    </page>
  </net>
</pnml>"#;

const PNML_STRING_NET_WITH_LOOP_TOPOLOGY: &str = r#"<?xml version="1.0" encoding="utf-8"?>
<pnml xmlns="http://www.pnml.org/version-2009/grammar/pnml">
  <net id="net0" type="http://www.pnml.org/version-2009/grammar/ptnet">
    <page id="page0">
      <place id="P1">
        <name>
          <text>P1</text>
        </name>
      </place>
      <transition id="T1">
        <name>
          <text>T1</text>
        </name>
      </transition>
      <arc source="P1" target="T1" id="(P1, T1)">
        <name>
          <text>(P1, T1)</text>
        </name>
        <inscription>
          <text>1</text>
        </inscription>
      </arc>
      <arc source="T1" target="P1" id="(T1, P1)">
        <name>
          <text>(T1, P1)</text>
        </name>
        <inscription>
          <text>1</text>
        </inscription>
      </arc>
    </page>
  </net>
</pnml>"#;

#[test]
fn dot_string_empty_net() {
    let net = PetriNet::new();
    let result = net.to_dot_string();
    assert!(result.is_ok());
    assert_eq!(result.unwrap(), DOT_STRING_EMPTY_NET);
}

#[test]
fn dot_string_only_empty_places_net() {
    let (net, _, _) = create_basic_unconnected_net(5, 0);
    let result = net.to_dot_string();

    assert!(result.is_ok());
    assert_eq!(result.unwrap(), DOT_STRING_ONLY_EMPTY_PLACES_NET);
}

#[test]
fn dot_string_marked_places_net() {
    let mut net = PetriNet::new();
    let p1 = net.add_place("P1");
    let p2 = net.add_place("P2");
    let p3 = net.add_place("P3");
    let p4 = net.add_place("P4");
    let p5 = net.add_place("P5");

    assert!(net.add_token(&p1, 5).is_ok());
    assert!(net.add_token(&p2, 6).is_ok());
    assert!(net.add_token(&p3, 3).is_ok());
    assert!(net.add_token(&p4, 2).is_ok());
    assert!(net.add_token(&p5, 1).is_ok());
    let result = net.to_dot_string();

    assert!(result.is_ok());
    assert_eq!(result.unwrap(), DOT_STRING_MARKED_PLACES_NET);
}

#[test]
fn dot_string_only_empty_transitions_net() {
    let (net, _, _) = create_basic_unconnected_net(0, 5);
    let result = net.to_dot_string();

    assert!(result.is_ok());
    assert_eq!(result.unwrap(), DOT_STRING_ONLY_EMPTY_TRANSITIONS_NET);
}

#[test]
fn dot_string_net_with_chain_topology() {
    let (net, _, _) = create_net_chain_topology(3);
    let result = net.to_dot_string();

    assert!(result.is_ok());
    assert_eq!(result.unwrap(), DOT_STRING_NET_WITH_CHAIN_TOPOLOPY);
}

#[test]
fn dot_string_net_with_loop_topology() {
    let (net, _, _) = create_net_loop_topology();
    let result = net.to_dot_string();

    assert!(result.is_ok());
    assert_eq!(result.unwrap(), DOT_STRING_NET_WITH_LOOP_TOPOLOGY);
}

#[test]
fn lola_string_empty_net() {
    let net = PetriNet::new();
    let result = net.to_lola_string();
    assert!(result.is_ok());
    assert_eq!(result.unwrap(), String::new());
}

#[test]
fn lola_string_only_empty_places_net() {
    let (net, _, _) = create_basic_unconnected_net(5, 0);
    let result = net.to_lola_string();

    assert!(result.is_ok());
    assert_eq!(result.unwrap(), LOLA_STRING_ONLY_EMPTY_PLACES_NET);
}

#[test]
fn lola_string_marked_places_net() {
    let mut net = PetriNet::new();
    let p1 = net.add_place("P1");
    let p2 = net.add_place("P2");
    let p3 = net.add_place("P3");
    let p4 = net.add_place("P4");
    let p5 = net.add_place("P5");

    assert!(net.add_token(&p1, 5).is_ok());
    assert!(net.add_token(&p2, 6).is_ok());
    assert!(net.add_token(&p3, 3).is_ok());
    assert!(net.add_token(&p4, 2).is_ok());
    assert!(net.add_token(&p5, 1).is_ok());
    let result = net.to_lola_string();

    assert!(result.is_ok());
    assert_eq!(result.unwrap(), LOLA_STRING_MARKED_PLACES_NET);
}

#[test]
fn lola_string_only_empty_transitions_net() {
    let (net, _, _) = create_basic_unconnected_net(0, 5);
    let result = net.to_lola_string();

    assert!(result.is_ok());
    assert_eq!(result.unwrap(), LOLA_STRING_ONLY_EMPTY_TRANSITIONS_NET);
}

#[test]
fn lola_string_net_with_chain_topology() {
    let (net, _, _) = create_net_chain_topology(3);
    let result = net.to_lola_string();

    assert!(result.is_ok());
    assert_eq!(result.unwrap(), LOLA_STRING_NET_WITH_CHAIN_TOPOLOPY);
}

#[test]
fn lola_string_net_with_loop_topology() {
    let (net, _, _) = create_net_loop_topology();
    let result = net.to_lola_string();

    assert!(result.is_ok());
    assert_eq!(result.unwrap(), LOLA_STRING_NET_WITH_LOOP_TOPOLOGY);
}

#[test]
fn pnml_string_empty_net() {
    let net = PetriNet::new();
    let result = net.to_pnml_string();
    assert!(result.is_ok());
    assert_eq!(result.unwrap(), PNML_STRING_EMPTY_NET);
}

#[test]
fn pnml_string_only_empty_places_net() {
    let (net, _, _) = create_basic_unconnected_net(5, 0);
    let result = net.to_pnml_string();

    assert!(result.is_ok());
    assert_eq!(result.unwrap(), PNML_STRING_ONLY_EMPTY_PLACES_NET);
}

#[test]
fn pnml_string_marked_places_net() {
    let mut net = PetriNet::new();
    let p1 = net.add_place("P1");
    let p2 = net.add_place("P2");
    let p3 = net.add_place("P3");
    let p4 = net.add_place("P4");
    let p5 = net.add_place("P5");

    assert!(net.add_token(&p1, 5).is_ok());
    assert!(net.add_token(&p2, 6).is_ok());
    assert!(net.add_token(&p3, 3).is_ok());
    assert!(net.add_token(&p4, 2).is_ok());
    assert!(net.add_token(&p5, 1).is_ok());
    let result = net.to_pnml_string();

    assert!(result.is_ok());
    assert_eq!(result.unwrap(), PNML_STRING_MARKED_PLACES_NET);
}

#[test]
fn pnml_string_only_empty_transitions_net() {
    let (net, _, _) = create_basic_unconnected_net(0, 5);
    let result = net.to_pnml_string();

    assert!(result.is_ok());
    assert_eq!(result.unwrap(), PNML_STRING_ONLY_EMPTY_TRANSITIONS_NET);
}

#[test]
fn pnml_string_net_with_chain_topology() {
    let (net, _, _) = create_net_chain_topology(3);
    let result = net.to_pnml_string();

    assert!(result.is_ok());
    assert_eq!(result.unwrap(), PNML_STRING_NET_WITH_CHAIN_TOPOLOPY);
}

#[test]
fn pnml_string_net_with_loop_topology() {
    let (net, _, _) = create_net_loop_topology();
    let result = net.to_pnml_string();

    assert!(result.is_ok());
    assert_eq!(result.unwrap(), PNML_STRING_NET_WITH_LOOP_TOPOLOGY);
}
