//! Packets: a message or a bundle, and the wire form of both.
//!
//! A bundle is `#bundle\0`, a time tag in eight bytes, and then each of its
//! elements behind its length in four bytes. An element is a packet again,
//! so bundles nest; the decoder follows them `MAX_BUNDLE_DEPTH` levels deep
//! and no further.

pub mod bundle;
pub mod message;

use crate::address::{is_address, Address};
use crate::data::{views_of, Value};
use crate::error::Error;
use crate::packet::bundle::Bundle;
use crate::packet::message::{decode_message, Message, MessageBuilder, MessageView};
use crate::wire::{be32, be64, from_be32, from_be64};
use vstd::prelude::*;

verus! {

/// How many bundles the decoder accepts inside one another, the outermost
/// one counted.
pub const MAX_BUNDLE_DEPTH: usize = 32;

/// The first eight bytes of every bundle: `#bundle` and a NUL byte.
pub const BUNDLE_HEADER: [u8; 8] = [0x23, 0x62, 0x75, 0x6e, 0x64, 0x6c, 0x65, 0x00];

/// The bundle header as a sequence of bytes.
pub open spec fn bundle_header() -> Seq<u8> {
    seq![0x23u8, 0x62u8, 0x75u8, 0x6eu8, 0x64u8, 0x6cu8, 0x65u8, 0x00u8]
}

/// What a `Bundle` holds, as mathematical data.
pub struct BundleView {
    pub time_tag: u64,
    pub elements: Seq<PacketView>,
}

/// What a `Packet` holds, as mathematical data.
pub enum PacketView {
    Message(MessageView),
    Bundle(BundleView),
}

impl PacketView {
    /// The bytes of the packet.
    pub open spec fn wire(self) -> Seq<u8>
        decreases self,
    {
        match self {
            PacketView::Message(message) => message.wire(),
            PacketView::Bundle(bundle) => bundle_header() + be64(bundle.time_tag) + framed_upto(
                bundle.elements,
                bundle.elements.len(),
            ),
        }
    }

    /// Whether the wire format has room for the packet: for each argument
    /// of its messages, and in four signed bytes for the length of each
    /// element of its bundles.
    pub open spec fn encodable(self) -> bool
        decreases self,
    {
        match self {
            PacketView::Message(message) => message.encodable(),
            PacketView::Bundle(bundle) => framable_upto(bundle.elements, bundle.elements.len()),
        }
    }

    /// Whether the bundles of this packet nest at most `budget` deep, the
    /// outermost one counted.
    pub open spec fn nests_within(self, budget: nat) -> bool
        decreases self,
    {
        match self {
            PacketView::Message(_) => true,
            PacketView::Bundle(bundle) => budget > 0 && nest_within_upto(
                bundle.elements,
                bundle.elements.len(),
                (budget - 1) as nat,
            ),
        }
    }
}

impl BundleView {
    /// The bytes of the bundle.
    pub open spec fn wire(self) -> Seq<u8> {
        PacketView::Bundle(self).wire()
    }

    /// Whether the wire format has room for the bundle.
    pub open spec fn encodable(self) -> bool {
        PacketView::Bundle(self).encodable()
    }

    /// Whether the bundle and the bundles inside it nest at most `budget`
    /// deep.
    pub open spec fn nests_within(self, budget: nat) -> bool {
        PacketView::Bundle(self).nests_within(budget)
    }
}

/// The first `n` of `elements` on the wire: each behind its length in
/// four bytes.
pub open spec fn framed_upto(elements: Seq<PacketView>, n: nat) -> Seq<u8>
    decreases elements, n,
{
    if n == 0 || n > elements.len() {
        Seq::empty()
    } else {
        framed_upto(elements, (n - 1) as nat) + be32(elements[n - 1].wire().len() as u32)
            + elements[n - 1].wire()
    }
}

/// Whether each of the first `n` of `elements` is encodable and shorter
/// than 2^31 bytes.
pub open spec fn framable_upto(elements: Seq<PacketView>, n: nat) -> bool
    decreases elements, n,
{
    if n == 0 || n > elements.len() {
        true
    } else {
        framable_upto(elements, (n - 1) as nat) && elements[n - 1].encodable() && elements[n
            - 1].wire().len() < 0x8000_0000
    }
}

/// Whether each of the first `n` of `elements` nests at most `budget` deep.
pub open spec fn nest_within_upto(elements: Seq<PacketView>, n: nat, budget: nat) -> bool
    decreases elements, n,
{
    if n == 0 || n > elements.len() {
        true
    } else {
        nest_within_upto(elements, (n - 1) as nat, budget) && elements[n - 1].nests_within(budget)
    }
}

/// Decodes a packet, following bundles at most `budget` deep: an empty
/// packet lacks data; one that starts with `/` is a message, one that
/// starts with `#` a bundle; anything else is no address.
pub open spec fn decode_packet(bytes: Seq<u8>, budget: nat) -> Result<PacketView, Error>
    decreases budget, bytes.len(), 1nat,
{
    if bytes.len() == 0 {
        Err(Error::NotEnoughData)
    } else if bytes[0] == '/' as u8 {
        match decode_message(bytes) {
            Ok(message) => Ok(PacketView::Message(message)),
            Err(e) => Err(e),
        }
    } else if bytes[0] == '#' as u8 {
        match decode_bundle(bytes, budget) {
            Ok(bundle) => Ok(PacketView::Bundle(bundle)),
            Err(e) => Err(e),
        }
    } else {
        Err(Error::InvalidAddress)
    }
}

/// Decodes a bundle, following the bundles inside it so that at most
/// `budget` nest, this one counted: at least sixteen bytes that start
/// with the header, then the time tag, then the elements.
pub open spec fn decode_bundle(bytes: Seq<u8>, budget: nat) -> Result<BundleView, Error>
    decreases budget, bytes.len(), 0nat,
{
    if bytes.len() < 16 || bytes.take(8) != bundle_header() || budget == 0 {
        Err(Error::InvalidBundle)
    } else {
        match decode_elements(bytes.skip(16), (budget - 1) as nat) {
            Ok(elements) => Ok(BundleView { time_tag: from_be64(bytes.skip(8)), elements }),
            Err(e) => Err(e),
        }
    }
}

/// Decodes the elements of a bundle: as long as four bytes are left, a
/// length, read as a signed number, and a packet of that length. Fewer
/// than four bytes at the end are ignored.
pub open spec fn decode_elements(bytes: Seq<u8>, budget: nat) -> Result<Seq<PacketView>, Error>
    decreases budget, bytes.len(), 2nat,
{
    let length = from_be32(bytes);
    if bytes.len() < 4 {
        Ok(Seq::empty())
    } else if length >= 0x8000_0000 || bytes.len() - 4 < length {
        Err(Error::NotEnoughData)
    } else {
        match decode_packet(bytes.subrange(4, 4 + length), budget) {
            Err(e) => Err(e),
            Ok(first) => match decode_elements(bytes.skip(4 + length), budget) {
                Err(e) => Err(e),
                Ok(more) => Ok(seq![first] + more),
            },
        }
    }
}

/// `first` put before the elements that `rest` decoded.
pub open spec fn elements_after(
    first: Seq<PacketView>,
    rest: Result<Seq<PacketView>, Error>,
) -> Result<Seq<PacketView>, Error> {
    match rest {
        Err(e) => Err(e),
        Ok(more) => Ok(first + more),
    }
}

/// A whole OSC packet.
#[derive(Debug, PartialEq, Eq, Hash)]
pub enum Packet {
    /// The packet is a message.
    Message(Message),
    /// The packet is a bundle.
    Bundle(Bundle),
}

impl View for Packet {
    type V = PacketView;

    open spec fn view(&self) -> PacketView
        decreases self,
    {
        match self {
            Packet::Message(message) => PacketView::Message(message@),
            Packet::Bundle(bundle) => PacketView::Bundle(bundle@),
        }
    }
}

impl Clone for Packet {
    fn clone(&self) -> (copy: Self)
        ensures
            copy@ == self@,
        decreases self,
    {
        match self {
            Packet::Message(message) => Packet::Message(message.clone()),
            Packet::Bundle(bundle) => Packet::Bundle(bundle.clone()),
        }
    }
}

impl Packet {
    /// The address of the method, where the packet is a message.
    pub fn address(&self) -> (address: Option<&Address>)
        ensures
            match self@ {
                PacketView::Message(message) => address is Some && address->Some_0@
                    == message.address,
                PacketView::Bundle(_) => address is None,
            },
    {
        match self {
            Packet::Message(message) => Some(message.address()),
            Packet::Bundle(_) => None,
        }
    }

    /// The arguments of the method, where the packet is a message.
    pub fn arguments(&self) -> (arguments: Option<&[Value]>)
        ensures
            match self@ {
                PacketView::Message(message) => arguments is Some && views_of(arguments->Some_0@)
                    == message.arguments,
                PacketView::Bundle(_) => arguments is None,
            },
    {
        match self {
            Packet::Message(message) => Some(message.arguments()),
            Packet::Bundle(_) => None,
        }
    }

    /// Gives up the packet for its address and its arguments, where it is
    /// a message.
    pub fn split_into(self) -> (parts: Option<(String, Vec<Value>)>)
        ensures
            match self@ {
                PacketView::Message(message) => parts is Some && parts->Some_0.0@
                    == message.address && views_of(parts->Some_0.1@) == message.arguments,
                PacketView::Bundle(_) => parts is None,
            },
    {
        match self {
            Packet::Message(message) => Some(message.split_into()),
            Packet::Bundle(_) => None,
        }
    }

    /// Whether the packet comes back from the wire as it went.
    pub fn is_faithful(&self) -> (yes: bool)
        ensures
            yes == self@.faithful(),
        decreases self,
    {
        match self {
            Packet::Message(message) => message.is_faithful(),
            Packet::Bundle(bundle) => bundle.is_faithful(),
        }
    }

    /// The bytes of this packet, without a length before them. A packet
    /// that is not encodable is refused.
    pub fn serialize(self) -> (bytes: Result<Vec<u8>, Error>)
        ensures
            self@.encodable() ==> bytes is Ok && bytes->Ok_0@ == self@.wire(),
            !self@.encodable() ==> bytes == Err::<Vec<u8>, Error>(Error::Overflow),
    {
        self.encode()
    }

    /// The bytes of this packet, which is left as it is.
    pub fn encode(&self) -> (bytes: Result<Vec<u8>, Error>)
        ensures
            self@.encodable() ==> bytes is Ok && bytes->Ok_0@ == self@.wire(),
            !self@.encodable() ==> bytes == Err::<Vec<u8>, Error>(Error::Overflow),
        decreases self,
    {
        match self {
            Packet::Message(message) => message.encode(),
            Packet::Bundle(bundle) => bundle.encode(),
        }
    }

    /// Reads a packet from its bytes, following bundles `MAX_BUNDLE_DEPTH`
    /// deep.
    pub fn deserialize(bytes: &[u8]) -> (packet: Result<Packet, Error>)
        ensures
            match decode_packet(bytes@, MAX_BUNDLE_DEPTH as nat) {
                Ok(decoded) => packet is Ok && packet->Ok_0@ == decoded,
                Err(e) => packet == Err::<Packet, Error>(e),
            },
    {
        Packet::deserialize_within(bytes, MAX_BUNDLE_DEPTH)
    }

    /// Reads a packet from its bytes, following bundles at most `budget`
    /// deep.
    pub fn deserialize_within(bytes: &[u8], budget: usize) -> (packet: Result<Packet, Error>)
        ensures
            match decode_packet(bytes@, budget as nat) {
                Ok(decoded) => packet is Ok && packet->Ok_0@ == decoded,
                Err(e) => packet == Err::<Packet, Error>(e),
            },
        decreases budget, bytes@.len(), 1nat,
    {
        if bytes.len() == 0 {
            return Err(Error::NotEnoughData);
        }
        if bytes[0] == '/' as u8 {
            match Message::deserialize(bytes) {
                Ok(message) => Ok(Packet::Message(message)),
                Err(e) => Err(e),
            }
        } else if bytes[0] == '#' as u8 {
            match Bundle::deserialize_within(bytes, budget) {
                Ok(bundle) => Ok(Packet::Bundle(bundle)),
                Err(e) => Err(e),
            }
        } else {
            Err(Error::InvalidAddress)
        }
    }
}

/// Collects the parts of a packet that is a message, and is used up when
/// the packet is built.
#[derive(Debug)]
pub struct PacketBuilder {
    message: MessageBuilder,
}

impl View for PacketBuilder {
    type V = MessageView;

    closed spec fn view(&self) -> MessageView {
        self.message@
    }
}

impl PacketBuilder {
    /// Starts a packet for the method at `address`, with no arguments yet.
    pub fn new(address: &str) -> (builder: Result<PacketBuilder, Error>)
        ensures
            is_address(address@) ==> builder is Ok && builder->Ok_0@ == (MessageView {
                address: address@,
                arguments: Seq::empty(),
            }),
            !is_address(address@) ==> builder is Err && builder->Err_0 == Error::InvalidAddress,
    {
        match MessageBuilder::new(address) {
            Ok(message) => Ok(PacketBuilder { message }),
            Err(e) => Err(e),
        }
    }

    /// The packet made of what was collected.
    pub fn build(self) -> (packet: Packet)
        ensures
            packet@ == PacketView::Message(self@),
    {
        Packet::Message(self.message.build())
    }

    /// Adds `argument` after the arguments collected so far.
    pub fn push_argument(self, argument: Value) -> (builder: PacketBuilder)
        ensures
            builder@ == (MessageView {
                address: self@.address,
                arguments: self@.arguments.push(argument@),
            }),
    {
        PacketBuilder { message: self.message.push_argument(argument) }
    }

    /// Puts `arguments` in place of the arguments collected so far.
    pub fn set_arguments(self, arguments: Vec<Value>) -> (builder: PacketBuilder)
        ensures
            builder@ == (MessageView { address: self@.address, arguments: views_of(arguments@) }),
    {
        PacketBuilder { message: self.message.set_arguments(arguments) }
    }
}

/// The packet that is a message to `address` with `arguments`.
pub fn osc_packet(address: &str, arguments: Vec<Value>) -> (packet: Result<Packet, Error>)
    ensures
        is_address(address@) ==> packet is Ok && packet->Ok_0@ == PacketView::Message(
            MessageView { address: address@, arguments: views_of(arguments@) },
        ),
        !is_address(address@) ==> packet is Err && packet->Err_0 == Error::InvalidAddress,
{
    match PacketBuilder::new(address) {
        Ok(builder) => Ok(builder.set_arguments(arguments).build()),
        Err(e) => Err(e),
    }
}

/// The views of the first `n` of `packets`.
pub open spec fn packet_views_upto(packets: Seq<Packet>, n: nat) -> Seq<PacketView>
    decreases packets, n,
{
    if n == 0 || n > packets.len() {
        Seq::empty()
    } else {
        packet_views_upto(packets, (n - 1) as nat).push(packets[n - 1]@)
    }
}

/// The views of `packets`, in order.
pub open spec fn packet_views(packets: Seq<Packet>) -> Seq<PacketView> {
    packet_views_upto(packets, packets.len())
}

} // verus!
