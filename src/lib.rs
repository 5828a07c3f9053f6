//! A place/transition Petri net with verified invariants, and its export to
//! the DOT, LoLA and PNML text formats.

pub mod error;
pub mod node_ref;
pub mod ref_set;
pub mod node;
pub mod connectable;
pub mod entries;
pub mod net;
pub mod lemmas;
pub mod text;
pub mod dot;
pub mod lola;
pub mod pnml;
pub mod net_creator;
pub mod token;

pub use connectable::{PostsetConnectable, PresetConnectable};
pub use error::NetError;
pub use net::PetriNet;
pub use node::{Place, Transition};
pub use node_ref::{PlaceRef, TransitionRef};
pub use ref_set::RefSet;
pub use token::Token;
