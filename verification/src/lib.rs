//! A verified implementation of the ForceAtlas2 graph layout algorithm.
//!
//! The library is generic over the number type it computes with (see
//! [`traits::Float`]). Each force of the algorithm (repulsion, gravity,
//! attraction, and the move of the nodes) is a function whose contract is the
//! exact expression it computes in that number type.
use vstd::prelude::*;

pub mod attraction;
pub mod barnes_hut;
pub mod builder;
pub mod data;
pub mod forces;
pub mod gravity;
pub mod layout;
pub mod repulsion;
pub mod settings;
pub mod traits;

pub use data::FA2Data;
pub use layout::FA2Layout;
pub use settings::FA2Settings;
pub use traits::Float;

verus! {

} // verus!
