//! OSC bundles: a time tag and the packets that share it.

use crate::data::TimeTag;
use crate::error::Error;
use crate::packet::{
    bundle_header, decode_bundle, decode_elements, elements_after, framable_upto, framed_upto,
    packet_views, packet_views_upto, BundleView, Packet, PacketView, BUNDLE_HEADER,
    MAX_BUNDLE_DEPTH,
};
use crate::wire::{append_bytes, be64, u32_from_be_bytes, u32_to_be_bytes, u64_from_be_bytes, u64_to_be_bytes};
use crate::round_trip::{
    elements_faithful_upto, lemma_element_faithful, lemma_faithful_packet_encodable,
};
use vstd::prelude::*;
use vstd::slice::slice_subrange;

verus! {

/// An OSC bundle.
#[derive(Debug, PartialEq, Eq, Hash)]
pub struct Bundle {
    time_tag: TimeTag,
    elements: Vec<Packet>,
}

impl Clone for Bundle {
    fn clone(&self) -> (copy: Self)
        ensures
            copy@ == self@,
        decreases self,
    {
        let mut copies: Vec<Packet> = Vec::new();
        let mut i: usize = 0;
        while i < self.elements.len()
            invariant
                i <= self.elements@.len(),
                decreases_to!(self => self.elements),
                copies@.len() == i,
                forall|k: int| 0 <= k < i ==> (#[trigger] copies@[k])@ == self.elements@[k]@,
            decreases self.elements@.len() - i,
        {
            proof {
                vstd::std_specs::vec::axiom_vec_index_decreases(self.elements, i as int);
            }
            let copy = self.elements[i].clone();
            copies.push(copy);
            i += 1;
        }
        proof {
            lemma_packet_views(self.elements@);
            lemma_packet_views(copies@);
            assert(packet_views(copies@) =~= packet_views(self.elements@));
        }
        Bundle { time_tag: self.time_tag, elements: copies }
    }
}

impl View for Bundle {
    type V = BundleView;

    closed spec fn view(&self) -> BundleView
        decreases self,
    {
        BundleView {
            time_tag: self.time_tag.0,
            elements: packet_views_upto(self.elements@, self.elements@.len()),
        }
    }
}

/// The view of a sequence of packets has their views, one for one.
pub proof fn lemma_packet_views(packets: Seq<Packet>)
    ensures
        packet_views(packets).len() == packets.len(),
        forall|i: int|
            0 <= i < packets.len() ==> #[trigger] packet_views(packets)[i] == packets[i]@,
{
    lemma_packet_views_upto(packets, packets.len());
}

proof fn lemma_packet_views_upto(packets: Seq<Packet>, n: nat)
    requires
        n <= packets.len(),
    ensures
        packet_views_upto(packets, n).len() == n,
        forall|i: int| 0 <= i < n ==> #[trigger] packet_views_upto(packets, n)[i] == packets[i]@,
    decreases n,
{
    if n > 0 {
        lemma_packet_views_upto(packets, (n - 1) as nat);
        assert(packet_views_upto(packets, n) == packet_views_upto(packets, (n - 1) as nat).push(
            packets[n - 1]@,
        ));
    }
}

/// One more packet at the end is one more view at the end.
pub proof fn lemma_packet_views_push(packets: Seq<Packet>, last: Packet)
    ensures
        packet_views(packets.push(last)) == packet_views(packets).push(last@),
{
    lemma_packet_views(packets);
    lemma_packet_views(packets.push(last));
    assert(packet_views(packets.push(last)) =~= packet_views(packets).push(last@));
}

impl Bundle {
    /// A bundle of `elements` under `time_tag`.
    pub fn new(time_tag: TimeTag, elements: Vec<Packet>) -> (bundle: Bundle)
        ensures
            bundle@ == (BundleView { time_tag: time_tag.0, elements: packet_views(elements@) }),
    {
        Bundle { time_tag, elements }
    }

    /// The time tag of the bundle.
    pub fn time_tag(&self) -> (time_tag: TimeTag)
        ensures
            time_tag.0 == self@.time_tag,
    {
        self.time_tag
    }

    /// The elements of the bundle.
    pub fn elements(&self) -> (elements: &[Packet])
        ensures
            packet_views(elements@) == self@.elements,
    {
        self.elements.as_slice()
    }

    /// Gives up the bundle for its time tag and its elements.
    pub fn split_into(self) -> (parts: (TimeTag, Vec<Packet>))
        ensures
            parts.0.0 == self@.time_tag,
            packet_views(parts.1@) == self@.elements,
    {
        (self.time_tag, self.elements)
    }

    /// The bytes of this bundle, without a length before them: the header,
    /// the time tag, and each element behind its length. A bundle that is
    /// not encodable is refused.
    pub fn serialize(self) -> (bytes: Result<Vec<u8>, Error>)
        ensures
            self@.encodable() ==> bytes is Ok && bytes->Ok_0@ == self@.wire(),
            !self@.encodable() ==> bytes == Err::<Vec<u8>, Error>(Error::Overflow),
    {
        self.encode()
    }

    /// The bytes of this bundle, which is left as it is.
    #[verifier::rlimit(50)]
    pub fn encode(&self) -> (bytes: Result<Vec<u8>, Error>)
        ensures
            self@.encodable() ==> bytes is Ok && bytes->Ok_0@ == self@.wire(),
            !self@.encodable() ==> bytes == Err::<Vec<u8>, Error>(Error::Overflow),
        decreases self,
    {
        let mut bytes: Vec<u8> = Vec::with_capacity(16);
        append_bytes(&mut bytes, BUNDLE_HEADER.as_slice());
        append_bytes(&mut bytes, u64_to_be_bytes(self.time_tag.0).as_slice());
        let ghost views = packet_views(self.elements@);
        proof {
            lemma_packet_views(self.elements@);
            assert(bytes@ =~= bundle_header() + be64(self.time_tag.0));
        }
        let mut i: usize = 0;
        while i < self.elements.len()
            invariant
                i <= self.elements@.len(),
                decreases_to!(self => self.elements),
                self@.elements == views,
                self@.time_tag == self.time_tag.0,
                views == packet_views(self.elements@),
                views.len() == self.elements@.len(),
                forall|k: int|
                    0 <= k < self.elements@.len() ==> #[trigger] views[k] == self.elements@[k]@,
                framable_upto(views, i as nat),
                bytes@ == bundle_header() + be64(self.time_tag.0) + framed_upto(views, i as nat),
            decreases self.elements@.len() - i,
        {
            proof {
                vstd::std_specs::vec::axiom_vec_index_decreases(self.elements, i as int);
                assert(views[i as int] == self.elements@[i as int]@);
            }
            let element = match self.elements[i].encode() {
                Ok(element) => element,
                Err(e) => {
                    proof {
                        if framable_upto(views, views.len()) {
                            lemma_framable_prefix(views, (i + 1) as nat, views.len());
                        }
                    }
                    return Err(Error::Overflow);
                },
            };
            if element.len() >= 0x8000_0000 {
                proof {
                    if framable_upto(views, views.len()) {
                        lemma_framable_prefix(views, (i + 1) as nat, views.len());
                    }
                }
                return Err(Error::Overflow);
            }
            append_bytes(&mut bytes, u32_to_be_bytes(element.len() as u32).as_slice());
            append_bytes(&mut bytes, element.as_slice());
            i += 1;
            assert(bytes@ =~= bundle_header() + be64(self.time_tag.0) + framed_upto(
                views,
                i as nat,
            ));
        }
        Ok(bytes)
    }

    /// Whether the bundle comes back from the wire as it went.
    #[verifier::rlimit(50)]
    pub fn is_faithful(&self) -> (yes: bool)
        ensures
            yes == self@.faithful(),
        decreases self,
    {
        let ghost views = packet_views(self.elements@);
        proof {
            lemma_packet_views(self.elements@);
        }
        let mut i: usize = 0;
        while i < self.elements.len()
            invariant
                i <= self.elements@.len(),
                decreases_to!(self => self.elements),
                self@.elements == views,
                views == packet_views(self.elements@),
                views.len() == self.elements@.len(),
                forall|k: int|
                    0 <= k < self.elements@.len() ==> #[trigger] views[k] == self.elements@[k]@,
                elements_faithful_upto(views, i as nat),
            decreases self.elements@.len() - i,
        {
            proof {
                vstd::std_specs::vec::axiom_vec_index_decreases(self.elements, i as int);
                assert(views[i as int] == self.elements@[i as int]@);
                if elements_faithful_upto(views, views.len()) {
                    lemma_element_faithful(views, views.len(), i as int);
                }
            }
            if !self.elements[i].is_faithful() {
                return false;
            }
            proof {
                lemma_faithful_packet_encodable(views[i as int]);
            }
            match self.elements[i].encode() {
                Ok(bytes) => {
                    if bytes.len() >= 0x8000_0000 {
                        return false;
                    }
                },
                Err(_) => {
                    return false;
                },
            }
            i += 1;
        }
        true
    }

    /// Reads a bundle from its bytes, following bundles inside it
    /// `MAX_BUNDLE_DEPTH` deep, this one counted.
    pub fn deserialize(bytes: &[u8]) -> (bundle: Result<Bundle, Error>)
        ensures
            match decode_bundle(bytes@, MAX_BUNDLE_DEPTH as nat) {
                Ok(decoded) => bundle is Ok && bundle->Ok_0@ == decoded,
                Err(e) => bundle == Err::<Bundle, Error>(e),
            },
    {
        Bundle::deserialize_within(bytes, MAX_BUNDLE_DEPTH)
    }

    /// Reads a bundle from its bytes, following bundles inside it so that
    /// at most `budget` nest, this one counted.
    #[verifier::rlimit(50)]
    pub fn deserialize_within(bytes: &[u8], budget: usize) -> (bundle: Result<Bundle, Error>)
        ensures
            match decode_bundle(bytes@, budget as nat) {
                Ok(decoded) => bundle is Ok && bundle->Ok_0@ == decoded,
                Err(e) => bundle == Err::<Bundle, Error>(e),
            },
        decreases budget, bytes@.len(), 0nat,
    {
        if bytes.len() < 16 || !has_header(bytes) || budget == 0 {
            return Err(Error::InvalidBundle);
        }
        let time_tag = TimeTag(u64_from_be_bytes(slice_subrange(bytes, 8, bytes.len())));
        let mut elements: Vec<Packet> = Vec::new();
        let all_elements = slice_subrange(bytes, 16, bytes.len());
        let mut rest_bytes = all_elements;
        while rest_bytes.len() >= 4
            invariant
                budget > 0,
                bytes@.len() >= 16,
                bytes@.take(8) == bundle_header(),
                all_elements@ == bytes@.skip(16),
                rest_bytes@.len() < bytes@.len(),
                decode_elements(all_elements@, (budget - 1) as nat) == elements_after(
                    packet_views(elements@),
                    decode_elements(rest_bytes@, (budget - 1) as nat),
                ),
            decreases rest_bytes@.len(),
        {
            let claimed = u32_from_be_bytes(rest_bytes);
            if claimed >= 0x8000_0000 {
                return Err(Error::NotEnoughData);
            }
            let length = claimed as usize;
            if rest_bytes.len() - 4 < length {
                return Err(Error::NotEnoughData);
            }
            let element_bytes = slice_subrange(rest_bytes, 4, length + 4);
            let ghost before = packet_views(elements@);
            let element = match Packet::deserialize_within(element_bytes, budget - 1) {
                Ok(element) => element,
                Err(e) => {
                    return Err(e);
                },
            };
            let next_bytes = slice_subrange(rest_bytes, length + 4, rest_bytes.len());
            proof {
                lemma_packet_views_push(elements@, element);
                if let Ok(more) = decode_elements(next_bytes@, (budget - 1) as nat) {
                    assert(before + (seq![element@] + more) =~= before.push(element@) + more);
                }
            }
            elements.push(element);
            rest_bytes = next_bytes;
        }
        proof {
            assert(packet_views(elements@) + Seq::<PacketView>::empty() =~= packet_views(
                elements@,
            ));
        }
        Ok(Bundle { time_tag, elements })
    }
}

/// Whether `bytes` starts with the bundle header.
fn has_header(bytes: &[u8]) -> (yes: bool)
    requires
        bytes@.len() >= 8,
    ensures
        yes == (bytes@.take(8) == bundle_header()),
{
    let yes = bytes[0] == 0x23 && bytes[1] == 0x62 && bytes[2] == 0x75 && bytes[3] == 0x6e
        && bytes[4] == 0x64 && bytes[5] == 0x6c && bytes[6] == 0x65 && bytes[7] == 0x00;
    proof {
        let head = bytes@.take(8);
        if yes {
            assert(head =~= bundle_header());
        } else {
            assert(head[0] == bytes@[0] && head[1] == bytes@[1] && head[2] == bytes@[2] && head[3]
                == bytes@[3] && head[4] == bytes@[4] && head[5] == bytes@[5] && head[6]
                == bytes@[6] && head[7] == bytes@[7]);
        }
    }
    yes
}

/// Where some prefix of the elements cannot be framed, the whole cannot.
pub proof fn lemma_framable_prefix(elements: Seq<PacketView>, n: nat, m: nat)
    requires
        n <= m <= elements.len(),
        framable_upto(elements, m),
    ensures
        framable_upto(elements, n),
    decreases m,
{
    if n < m {
        lemma_framable_prefix(elements, n, (m - 1) as nat);
    }
}

/// Collects the parts of a bundle, and is used up when the bundle is built.
#[derive(Debug)]
pub struct BundleBuilder {
    time_tag: TimeTag,
    elements: Vec<Packet>,
}

impl View for BundleBuilder {
    type V = BundleView;

    closed spec fn view(&self) -> BundleView {
        BundleView { time_tag: self.time_tag.0, elements: packet_views(self.elements@) }
    }
}

impl BundleBuilder {
    /// Starts a bundle under `time_tag`, with no elements yet.
    pub fn new(time_tag: TimeTag) -> (builder: BundleBuilder)
        ensures
            builder@ == (BundleView { time_tag: time_tag.0, elements: Seq::empty() }),
    {
        BundleBuilder { time_tag, elements: Vec::new() }
    }

    /// The bundle made of what was collected.
    pub fn build(self) -> (bundle: Bundle)
        ensures
            bundle@ == self@,
    {
        Bundle { time_tag: self.time_tag, elements: self.elements }
    }

    /// Adds `element` after the elements collected so far.
    pub fn push_element(self, element: Packet) -> (builder: BundleBuilder)
        ensures
            builder@ == (BundleView {
                time_tag: self@.time_tag,
                elements: self@.elements.push(element@),
            }),
    {
        let mut builder = self;
        proof {
            lemma_packet_views_push(builder.elements@, element);
        }
        builder.elements.push(element);
        builder
    }
}

} // verus!
