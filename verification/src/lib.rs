//! A capacity-bounded store of conversations, one store per owner address,
//! with its binary encoding, address derivation and instruction handling.

pub mod address;
pub mod codec;
pub mod error;
pub mod instruction;
pub mod layout;
pub mod processor;
pub mod state;
