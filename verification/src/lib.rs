//! Open Sound Control 1.0/1.1 for VRChat tools: addresses, argument values,
//! messages, bundles and address patterns with a byte-exact codec, and the
//! decisions of the tools that speak it.
//!
//! Numbers with a fraction are carried as the bits of their IEEE-754 form;
//! the library moves them and never computes with them.

pub mod address;
pub mod address_pattern;
pub mod canonical;
pub mod clock;
pub mod config;
pub mod convert;
pub mod data;
pub mod error;
pub mod miditable;
pub mod packet;
pub mod prelude;
pub mod round_trip;
pub mod text;
pub mod wire;
pub mod xsoverlay;
