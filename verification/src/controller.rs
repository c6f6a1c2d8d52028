//! Controller-state decoding: the joypad bitfield, its button enumeration,
//! and the multi-layout address configuration with cyclic switching.

pub mod button_state;
pub mod controller_addresses;
pub mod controller_impl;
pub mod layout_json;
pub mod buttons_iter;
pub mod pressed;
