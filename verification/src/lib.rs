//! Decoding of SNES controller state from remote memory, and resolution of
//! visual input-display skins.
//!
//! The crate covers the controller-state decoding and layout/skin-resolution
//! engine: the bitfield-to-button mapping, the multi-layout controller-address
//! configuration with cyclic switching, and the construction of a fixed,
//! densely indexed button table from a declarative skin description.

pub mod configuration;
pub mod controller;
pub mod errors;
pub mod skins;
pub mod textparse;
