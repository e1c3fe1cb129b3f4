//! The names that most users need, with `Osc` before each so that they
//! meet no other name.

pub use crate::address::Address as OscAddress;
pub use crate::address_pattern::{AddressPattern as OscAddressPattern, Expression as OscExpression};
pub use crate::data::Value as OscValue;
pub use crate::error::Error as OscError;
pub use crate::packet::bundle::{Bundle as OscBundle, BundleBuilder as OscBundleBuilder};
pub use crate::packet::message::{Message as OscMessage, MessageBuilder as OscMessageBuilder};
pub use crate::packet::{Packet as OscPacket, PacketBuilder as OscPacketBuilder};
