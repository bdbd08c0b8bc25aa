//! Wire encoding for a networked virtual world: bit-packed replica component
//! codecs, the component dispatch that drives them, and the byte-level
//! login response message.

pub mod bits;
pub mod common;
pub mod error;
pub mod fields;
pub mod login;
pub mod quickbuild;
pub mod registry;
