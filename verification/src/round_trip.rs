//! What survives the wire unchanged, and the proofs that it does: decoding
//! the bytes of a faithful value, message or packet gives it back.

use crate::address::is_address;
use crate::data::{
    encodable_upto, lemma_payloads_length, lemma_views_of, payloads, payloads_upto, type_tags,
    type_tags_upto, views_of, Value, ValueView,
};
use crate::error::Error;
use crate::packet::{
    bundle_header, decode_bundle, decode_elements, decode_packet, framable_upto, framed_upto,
    nest_within_upto, BundleView, Packet, PacketView, MAX_BUNDLE_DEPTH,
};
use crate::packet::message::Message;
use crate::packet::message::{
    decode_blob, decode_items, decode_message, decode_text, decode_value, decode_values,
    is_ascii_bytes, split_sections, Decoded, MessageView, Sections,
};
use crate::text::{
    ascii, has_no_nul, is_free_of_nul, lemma_encode_ascii, lemma_encode_no_zero,
};
use crate::wire::{
    aligned, be32, be64, first_nul, from_be32, from_be64, lemma_be32_prefix, lemma_be32_round_trip,
    lemma_be64_prefix, lemma_padded_length, lemma_terminated, padded, terminated, zeros,
};
use vstd::prelude::*;
use vstd::utf8::{
    char_u32_cast, decode_utf8, encode_utf8, encode_utf8_decode_utf8, encode_utf8_valid_utf8,
    is_ascii_chars, valid_utf8,
};

verus! {

impl ValueView {
    /// Whether the value comes back from the wire as it went: it is
    /// encodable, and no string in it holds a NUL character, which on
    /// the wire would end the string early.
    pub open spec fn faithful(self) -> bool
        decreases self,
    {
        match self {
            ValueView::Character(c) => (c as u32) < 128,
            ValueView::Color(c) => c.len() == 4,
            ValueView::MidiMessage(m) => m.len() == 4,
            ValueView::Blob(b) => b.len() < 0x8000_0000,
            ValueView::String(s) => has_no_nul(s),
            ValueView::Alternative(s) => has_no_nul(s),
            ValueView::Array(items) => faithful_upto(items, items.len()),
            _ => true,
        }
    }
}

/// Whether each of the first `n` of `items` is faithful.
pub open spec fn faithful_upto(items: Seq<ValueView>, n: nat) -> bool
    decreases items, n,
{
    if n == 0 || n > items.len() {
        true
    } else {
        faithful_upto(items, (n - 1) as nat) && items[n - 1].faithful()
    }
}

/// Whether each of `items` is faithful.
pub open spec fn all_faithful(items: Seq<ValueView>) -> bool {
    faithful_upto(items, items.len())
}

impl Value {
    /// Whether the value comes back from the wire as it went.
    pub fn is_faithful(&self) -> (yes: bool)
        ensures
            yes == self@.faithful(),
        decreases self,
    {
        match self {
            Value::Character(c) => (*c as u32) < 128,
            Value::Blob(b) => b.len() < 0x8000_0000,
            Value::String(s) => is_free_of_nul(s.as_str()),
            Value::Alternative(s) => is_free_of_nul(s.as_str()),
            Value::Array(values) => {
                proof {
                    lemma_views_of(values@);
                }
                let mut i: usize = 0;
                while i < values.len()
                    invariant
                        i <= values@.len(),
                        decreases_to!(self => values),
                        self@ == ValueView::Array(views_of(values@)),
                        views_of(values@).len() == values@.len(),
                        forall|k: int|
                            0 <= k < values@.len() ==> #[trigger] views_of(values@)[k]
                                == values@[k]@,
                        faithful_upto(views_of(values@), i as nat),
                    decreases values@.len() - i,
                {
                    proof {
                        vstd::std_specs::vec::axiom_vec_index_decreases(*values, i as int);
                        assert(views_of(values@)[i as int] == values@[i as int]@);
                    }
                    if !values[i].is_faithful() {
                        proof {
                            if faithful_upto(views_of(values@), values@.len()) {
                                lemma_faithful_each(views_of(values@), values@.len(), i as int);
                            }
                        }
                        return false;
                    }
                    i += 1;
                }
                true
            },
            _ => true,
        }
    }
}

/// Whether each of `values` comes back from the wire as it went.
pub fn are_faithful(values: &[Value]) -> (yes: bool)
    ensures
        yes == all_faithful(views_of(values@)),
{
    proof {
        lemma_views_of(values@);
    }
    let mut i: usize = 0;
    while i < values.len()
        invariant
            i <= values@.len(),
            views_of(values@).len() == values@.len(),
            forall|k: int|
                0 <= k < values@.len() ==> #[trigger] views_of(values@)[k] == values@[k]@,
            faithful_upto(views_of(values@), i as nat),
        decreases values@.len() - i,
    {
        assert(views_of(values@)[i as int] == values@[i as int]@);
        if !values[i].is_faithful() {
            proof {
                if faithful_upto(views_of(values@), values@.len()) {
                    lemma_faithful_each(views_of(values@), values@.len(), i as int);
                }
            }
            return false;
        }
        i += 1;
    }
    true
}

impl Message {
    /// Whether the message comes back from the wire as it went.
    pub fn is_faithful(&self) -> (yes: bool)
        ensures
            yes == self@.faithful(),
    {
        let address = self.address();
        is_free_of_nul(address.as_str()) && are_faithful(self.arguments())
    }
}

/// A faithful value is encodable.
pub proof fn lemma_faithful_encodable(value: ValueView)
    requires
        value.faithful(),
    ensures
        value.encodable(),
    decreases value,
{
    if let ValueView::Array(items) = value {
        lemma_all_faithful_encodable(items, items.len());
    }
}

/// Faithful values are encodable.
pub proof fn lemma_all_faithful_encodable(items: Seq<ValueView>, n: nat)
    requires
        n <= items.len(),
        faithful_upto(items, n),
    ensures
        encodable_upto(items, n),
    decreases items, n,
{
    if n > 0 {
        lemma_all_faithful_encodable(items, (n - 1) as nat);
        lemma_faithful_encodable(items[n - 1]);
    }
}

/// Each of the first `n` items is faithful where the first `n` are.
pub proof fn lemma_faithful_each(items: Seq<ValueView>, n: nat, i: int)
    requires
        n <= items.len(),
        faithful_upto(items, n),
        0 <= i < n,
    ensures
        items[i].faithful(),
    decreases n,
{
    if i < n - 1 {
        lemma_faithful_each(items, (n - 1) as nat, i);
    }
}

/// The type tags of items are those of the first, then those of the rest.
pub proof fn lemma_type_tags_first(items: Seq<ValueView>)
    requires
        items.len() > 0,
    ensures
        type_tags(items) == items[0].type_tag() + type_tags(items.skip(1)),
{
    lemma_type_tags_first_upto(items, items.len());
}

proof fn lemma_type_tags_first_upto(items: Seq<ValueView>, n: nat)
    requires
        0 < n <= items.len(),
    ensures
        type_tags_upto(items, n) == items[0].type_tag() + type_tags_upto(
            items.skip(1),
            (n - 1) as nat,
        ),
    decreases n,
{
    let rest = items.skip(1);
    if n == 1 {
        assert(type_tags_upto(items, 1) == type_tags_upto(items, 0) + items[0].type_tag());
        assert(type_tags_upto(items, 1) =~= items[0].type_tag() + type_tags_upto(rest, 0));
    } else {
        lemma_type_tags_first_upto(items, (n - 1) as nat);
        assert(rest[n - 2] == items[n - 1]);
        assert(type_tags_upto(items, n) == type_tags_upto(items, (n - 1) as nat) + items[n
            - 1].type_tag());
        assert(type_tags_upto(rest, (n - 1) as nat) == type_tags_upto(rest, (n - 2) as nat)
            + rest[n - 2].type_tag());
        assert(type_tags_upto(items, n) =~= items[0].type_tag() + type_tags_upto(
            rest,
            (n - 1) as nat,
        ));
    }
}

/// The payloads of items are that of the first, then those of the rest.
pub proof fn lemma_payloads_first(items: Seq<ValueView>)
    requires
        items.len() > 0,
    ensures
        payloads(items) == items[0].payload() + payloads(items.skip(1)),
{
    lemma_payloads_first_upto(items, items.len());
}

proof fn lemma_payloads_first_upto(items: Seq<ValueView>, n: nat)
    requires
        0 < n <= items.len(),
    ensures
        payloads_upto(items, n) == items[0].payload() + payloads_upto(
            items.skip(1),
            (n - 1) as nat,
        ),
    decreases n,
{
    let rest = items.skip(1);
    if n == 1 {
        assert(payloads_upto(items, 1) == payloads_upto(items, 0) + items[0].payload());
        assert(payloads_upto(items, 1) =~= items[0].payload() + payloads_upto(rest, 0));
    } else {
        lemma_payloads_first_upto(items, (n - 1) as nat);
        assert(rest[n - 2] == items[n - 1]);
        assert(payloads_upto(items, n) == payloads_upto(items, (n - 1) as nat) + items[n
            - 1].payload());
        assert(payloads_upto(rest, (n - 1) as nat) == payloads_upto(rest, (n - 2) as nat)
            + rest[n - 2].payload());
        assert(payloads_upto(items, n) =~= items[0].payload() + payloads_upto(
            rest,
            (n - 1) as nat,
        ));
    }
}

/// Whether `c` is one of the letters that type tags are made of.
pub open spec fn is_tag_letter(c: char) -> bool {
    c == 'N' || c == 'I' || c == 'T' || c == 'F' || c == 'c' || c == 'i' || c == 'h' || c == 'f'
        || c == 'd' || c == 'r' || c == 'm' || c == 't' || c == 's' || c == 'S' || c == 'b' || c
        == '[' || c == ']'
}

/// Whether `text` is made of tag letters.
pub open spec fn is_tag_text(text: Seq<char>) -> bool {
    forall|i: int| 0 <= i < text.len() ==> is_tag_letter(#[trigger] text[i])
}

/// The type tag of a value is not empty, is made of tag letters, and does
/// not start with `]`.
pub proof fn lemma_type_tag_shape(value: ValueView)
    ensures
        value.type_tag().len() > 0,
        value.type_tag()[0] != ']',
        is_tag_text(value.type_tag()),
    decreases value,
{
    if let ValueView::Array(items) = value {
        lemma_type_tags_shape(items, items.len());
        let inner = type_tags_upto(items, items.len());
        let all = seq!['['] + inner + seq![']'];
        assert forall|i: int| 0 <= i < all.len() implies is_tag_letter(#[trigger] all[i]) by {
            if 0 < i <= inner.len() {
                assert(all[i] == inner[i - 1]);
            }
        }
    }
}

/// The type tags of values are made of tag letters.
pub proof fn lemma_type_tags_shape(items: Seq<ValueView>, n: nat)
    requires
        n <= items.len(),
    ensures
        is_tag_text(type_tags_upto(items, n)),
    decreases items, n,
{
    if n > 0 {
        lemma_type_tags_shape(items, (n - 1) as nat);
        lemma_type_tag_shape(items[n - 1]);
        let before = type_tags_upto(items, (n - 1) as nat);
        let last = items[n - 1].type_tag();
        assert(type_tags_upto(items, n) == before + last);
        assert forall|i: int| 0 <= i < (before + last).len() implies is_tag_letter(
            #[trigger] (before + last)[i],
        ) by {
            if i < before.len() {
                assert((before + last)[i] == before[i]);
            } else {
                assert((before + last)[i] == last[i - before.len()]);
            }
        }
    }
}

/// A single type tag letter before more type tags: the letter comes first
/// and the rest follows.
proof fn lemma_letter_first(letter: char, tag_rest: Seq<u8>)
    ensures
        (ascii(seq![letter]) + tag_rest).len() > 0,
        (ascii(seq![letter]) + tag_rest)[0] == letter as u8,
        (ascii(seq![letter]) + tag_rest).skip(1) == tag_rest,
{
    assert((ascii(seq![letter]) + tag_rest).skip(1) =~= tag_rest);
}

/// Decoding the type tag and the payload of a faithful value, whatever
/// follows them, gives the value back and leaves what follows.
#[verifier::rlimit(50)]
pub proof fn lemma_value_round_trip(value: ValueView, tag_rest: Seq<u8>, data_rest: Seq<u8>)
    requires
        value.faithful(),
    ensures
        decode_value(ascii(value.type_tag()) + tag_rest, value.payload() + data_rest) == Ok::<
            Decoded<ValueView>,
            Error,
        >(Decoded { value, tag: tag_rest, data: data_rest }),
    decreases value,
{
    let tag = ascii(value.type_tag()) + tag_rest;
    let data = value.payload() + data_rest;
    match value {
        ValueView::Nil => {
            lemma_letter_first('N', tag_rest);
            assert(data =~= data_rest);
        },
        ValueView::Infinitum => {
            lemma_letter_first('I', tag_rest);
            assert(data =~= data_rest);
        },
        ValueView::Boolean(b) => {
            lemma_letter_first('T', tag_rest);
            lemma_letter_first('F', tag_rest);
            assert(data =~= data_rest);
        },
        ValueView::Character(c) => {
            lemma_letter_first('c', tag_rest);
            lemma_be32_prefix(c as u32, data_rest);
            let low = (c as u32) as u8;
            assert(data[3] == low);
            assert(low as u32 == c as u32);
            char_u32_cast(c, c as u32);
            assert(low as char == c);
        },
        ValueView::Int32(x) => {
            lemma_letter_first('i', tag_rest);
            lemma_be32_prefix(x as u32, data_rest);
            assert((x as u32) as i32 == x) by (bit_vector);
        },
        ValueView::Int64(x) => {
            lemma_letter_first('h', tag_rest);
            lemma_be64_prefix(x as u64, data_rest);
            assert((x as u64) as i64 == x) by (bit_vector);
        },
        ValueView::Float32(bits) => {
            lemma_letter_first('f', tag_rest);
            lemma_be32_prefix(bits, data_rest);
        },
        ValueView::Float64(bits) => {
            lemma_letter_first('d', tag_rest);
            lemma_be64_prefix(bits, data_rest);
        },
        ValueView::Color(c) => {
            lemma_letter_first('r', tag_rest);
            assert(data.take(4) =~= c);
            assert(data.skip(4) =~= data_rest);
        },
        ValueView::MidiMessage(m) => {
            lemma_letter_first('m', tag_rest);
            assert(data.take(4) =~= m);
            assert(data.skip(4) =~= data_rest);
        },
        ValueView::TimeTag(t) => {
            lemma_letter_first('t', tag_rest);
            lemma_be64_prefix(t, data_rest);
        },
        ValueView::String(s) => {
            lemma_letter_first('s', tag_rest);
            lemma_text_round_trip(s, data_rest);
        },
        ValueView::Alternative(s) => {
            lemma_letter_first('S', tag_rest);
            lemma_text_round_trip(s, data_rest);
        },
        ValueView::Blob(b) => {
            lemma_letter_first('b', tag_rest);
            lemma_blob_round_trip(b, data_rest);
        },
        ValueView::Array(items) => {
            let inner = ascii(type_tags(items)) + seq![']' as u8] + tag_rest;
            assert(tag =~= seq!['[' as u8] + inner);
            assert(tag.skip(1) =~= inner);
            assert(items.skip(0) =~= items);
            lemma_items_round_trip(items, 0, tag_rest, data_rest);
        },
    }
}

/// Decoding a string without a NUL character from its bytes on the wire,
/// whatever follows them, gives the string back and leaves what follows.
pub proof fn lemma_text_round_trip(text: Seq<char>, data_rest: Seq<u8>)
    requires
        has_no_nul(text),
    ensures
        decode_text(terminated(encode_utf8(text)) + data_rest) == Ok::<(Seq<char>, Seq<u8>), Error>(
            (text, data_rest),
        ),
{
    let bytes = encode_utf8(text);
    lemma_encode_no_zero(text);
    lemma_terminated(bytes, data_rest);
    encode_utf8_valid_utf8(text);
    encode_utf8_decode_utf8(text);
}

/// Decoding a blob shorter than 2^31 bytes from its bytes on the wire,
/// whatever follows them, gives the blob back and leaves what follows.
pub proof fn lemma_blob_round_trip(blob: Seq<u8>, data_rest: Seq<u8>)
    requires
        blob.len() < 0x8000_0000,
    ensures
        decode_blob(be32(blob.len() as u32) + padded(blob) + data_rest) == Ok::<
            (Seq<u8>, Seq<u8>),
            Error,
        >((blob, data_rest)),
{
    let data = be32(blob.len() as u32) + padded(blob) + data_rest;
    assert(data =~= be32(blob.len() as u32) + (padded(blob) + data_rest));
    lemma_be32_prefix(blob.len() as u32, padded(blob) + data_rest);
    lemma_padded_length(blob);
    assert(data.subrange(4, 4 + blob.len() as int) =~= blob);
    assert(data.skip(4 + aligned(blob.len()) as int) =~= data_rest);
}

/// Decoding the type tags and the payloads of faithful items, a closing
/// `]` and whatever follows, gives the items back and leaves what follows.
#[verifier::rlimit(50)]
pub proof fn lemma_items_round_trip(
    items: Seq<ValueView>,
    from: nat,
    tag_rest: Seq<u8>,
    data_rest: Seq<u8>,
)
    requires
        all_faithful(items),
        from <= items.len(),
    ensures
        decode_items(
            ascii(type_tags(items.skip(from as int))) + seq![']' as u8] + tag_rest,
            payloads(items.skip(from as int)) + data_rest,
        ) == Ok::<Decoded<Seq<ValueView>>, Error>(
            Decoded { value: items.skip(from as int), tag: tag_rest, data: data_rest },
        ),
    decreases items, items.len() - from,
{
    let left = items.skip(from as int);
    let tag = ascii(type_tags(left)) + seq![']' as u8] + tag_rest;
    let data = payloads(left) + data_rest;
    if from == items.len() {
        assert(left =~= Seq::<ValueView>::empty());
        assert(tag[0] == ']' as u8);
        assert(tag.skip(1) =~= tag_rest);
        assert(data =~= data_rest);
    } else {
        let first = items[from as int];
        let later = items.skip(from as int + 1);
        assert(left[0] == first);
        assert(left.skip(1) =~= later);
        lemma_type_tags_first(left);
        lemma_payloads_first(left);
        lemma_type_tag_shape(first);
        lemma_faithful_each(items, items.len(), from as int);
        let later_tag = ascii(type_tags(later)) + seq![']' as u8] + tag_rest;
        let later_data = payloads(later) + data_rest;
        assert(tag =~= ascii(first.type_tag()) + later_tag);
        assert(data =~= first.payload() + later_data);
        assert(tag[0] == first.type_tag()[0] as u8);
        assert(is_tag_letter(first.type_tag()[0]));
        assert(tag[0] != ']' as u8);
        lemma_value_round_trip(first, later_tag, later_data);
        lemma_items_round_trip(items, from + 1, tag_rest, data_rest);
        assert(seq![first] + later =~= left);
    }
}

/// Decoding the type tags and the payloads of faithful values, and
/// whatever payload bytes follow, gives the values back.
#[verifier::rlimit(50)]
pub proof fn lemma_values_round_trip(items: Seq<ValueView>, from: nat, data_rest: Seq<u8>)
    requires
        all_faithful(items),
        from <= items.len(),
    ensures
        decode_values(
            ascii(type_tags(items.skip(from as int))),
            payloads(items.skip(from as int)) + data_rest,
        ) == Ok::<Seq<ValueView>, Error>(items.skip(from as int)),
    decreases items.len() - from,
{
    let left = items.skip(from as int);
    let tag = ascii(type_tags(left));
    let data = payloads(left) + data_rest;
    if from == items.len() {
        assert(left =~= Seq::<ValueView>::empty());
    } else {
        let first = items[from as int];
        let later = items.skip(from as int + 1);
        assert(left[0] == first);
        assert(left.skip(1) =~= later);
        lemma_type_tags_first(left);
        lemma_payloads_first(left);
        lemma_type_tag_shape(first);
        lemma_faithful_each(items, items.len(), from as int);
        let later_tag = ascii(type_tags(later));
        let later_data = payloads(later) + data_rest;
        assert(tag =~= ascii(first.type_tag()) + later_tag);
        assert(data =~= first.payload() + later_data);
        lemma_value_round_trip(first, later_tag, later_data);
        lemma_values_round_trip(items, from + 1, data_rest);
        assert(seq![first] + later =~= left);
    }
}

impl MessageView {
    /// Whether the message comes back from the wire as it went: its
    /// address is a valid address without a NUL character, and each of its
    /// arguments is faithful.
    pub open spec fn faithful(self) -> bool {
        is_address(self.address) && has_no_nul(self.address) && all_faithful(self.arguments)
    }
}

/// A faithful message is encodable.
pub proof fn lemma_faithful_message_encodable(message: MessageView)
    requires
        message.faithful(),
    ensures
        message.encodable(),
{
    lemma_all_faithful_encodable(message.arguments, message.arguments.len());
    crate::data::lemma_array_encodable(message.arguments);
}

/// The address section of a message, whatever follows it: the first zero
/// byte ends the address, the bytes before it decode to the address, and
/// what follows starts at the next multiple of four.
#[verifier::rlimit(50)]
pub proof fn lemma_address_section(address: Seq<char>, rest: Seq<u8>)
    requires
        is_address(address),
        has_no_nul(address),
    ensures
        ({
            let a = encode_utf8(address);
            let bytes = terminated(a) + rest;
            &&& a.len() > 0
            &&& terminated(a).len() % 4 == 0
            &&& first_nul(bytes) == a.len()
            &&& bytes.take(a.len() as int) == a
            &&& valid_utf8(a)
            &&& decode_utf8(a) == address
            &&& bytes.skip(aligned(a.len() + 1) as int) == rest
        }),
{
    assert(is_ascii_chars(address)) by {
        assert forall|i: int| 0 <= i < address.len() implies '\0' <= #[trigger] address[i]
            <= '\u{7f}' by {
            assert(address[i] == '/' || crate::address::is_part_char(address[i]));
        }
    }
    lemma_encode_ascii(address);
    lemma_encode_no_zero(address);
    encode_utf8_valid_utf8(address);
    encode_utf8_decode_utf8(address);
    lemma_terminated(encode_utf8(address), rest);
}

/// The type tag section of a message, whatever follows it: it starts
/// with `,`, the first zero byte ends it, the bytes before that are ASCII
/// and after the `,` are the type tags, and what follows starts at the
/// next multiple of four.
#[verifier::rlimit(50)]
pub proof fn lemma_tag_section(arguments: Seq<ValueView>, rest: Seq<u8>)
    ensures
        ({
            let g = encode_utf8(seq![','] + type_tags(arguments));
            let bytes = terminated(g) + rest;
            &&& g.len() > 0
            &&& terminated(g).len() % 4 == 0
            &&& first_nul(bytes) == g.len()
            &&& bytes[0] == ',' as u8
            &&& is_ascii_bytes(bytes.take(g.len() as int))
            &&& bytes.subrange(1, g.len() as int) == ascii(type_tags(arguments))
            &&& bytes.skip(aligned(g.len() + 1) as int) == rest
        }),
{
    let tag_text = seq![','] + type_tags(arguments);
    let g = encode_utf8(tag_text);
    let bytes = terminated(g) + rest;
    lemma_type_tags_shape(arguments, arguments.len());
    assert forall|i: int| 0 <= i < tag_text.len() implies '\0' <= #[trigger] tag_text[i]
        <= '\u{7f}' && tag_text[i] != '\0' by {
        if i > 0 {
            assert(tag_text[i] == type_tags(arguments)[i - 1]);
            assert(is_tag_letter(type_tags(arguments)[i - 1]));
        }
    }
    lemma_encode_ascii(tag_text);
    lemma_encode_no_zero(tag_text);
    lemma_terminated(g, rest);
    assert(g[0] == ',' as u8);
    assert(bytes[0] == g[0]);
    assert(is_ascii_bytes(bytes.take(g.len() as int))) by {
        assert forall|i: int| 0 <= i < g.len() implies #[trigger] g[i] < 0x80 by {
            assert(g[i] == tag_text[i] as u8);
        }
    }
    assert(bytes.subrange(1, g.len() as int) =~= ascii(type_tags(arguments)));
}

/// Decoding the bytes of a faithful message, and whatever bytes follow
/// them in a multiple of four, gives the message back: what follows the
/// payloads is ignored.
#[verifier::rlimit(50)]
pub proof fn lemma_message_round_trip_with_tail(message: MessageView, tail: Seq<u8>)
    requires
        message.faithful(),
        tail.len() % 4 == 0,
    ensures
        decode_message(message.wire() + tail) == Ok::<MessageView, Error>(message),
        split_sections(message.wire() + tail) == Ok::<Sections, Error>(
            Sections {
                address: message.address,
                tag: ascii(type_tags(message.arguments)),
                data: payloads(message.arguments) + tail,
            },
        ),
{
    let arguments = message.arguments;
    let a = encode_utf8(message.address);
    let g = encode_utf8(message.tag_text());
    let p = payloads(arguments);
    let bytes = message.wire() + tail;
    let after_address = terminated(g) + (p + tail);
    assert(bytes =~= terminated(a) + after_address);
    lemma_address_section(message.address, after_address);
    lemma_tag_section(arguments, p + tail);
    lemma_all_faithful_encodable(arguments, arguments.len());
    lemma_payloads_length(arguments, arguments.len());
    assert(bytes.len() % 4 == 0);
    assert(arguments.skip(0) =~= arguments);
    lemma_values_round_trip(arguments, 0, tail);
    assert(split_sections(bytes) == Ok::<Sections, Error>(
        Sections { address: message.address, tag: ascii(type_tags(arguments)), data: p + tail },
    ));
}

/// Decoding the bytes of a faithful message gives the message back.
pub proof fn lemma_message_round_trip(message: MessageView)
    requires
        message.faithful(),
    ensures
        message.encodable(),
        decode_message(message.wire()) == Ok::<MessageView, Error>(message),
{
    lemma_faithful_message_encodable(message);
    lemma_message_round_trip_with_tail(message, Seq::empty());
    assert(message.wire() + Seq::<u8>::empty() =~= message.wire());
}

/// The bytes of a message with a valid address start with `/`.
pub proof fn lemma_message_starts_with_slash(message: MessageView)
    requires
        is_address(message.address),
    ensures
        message.wire().len() > 0,
        message.wire()[0] == '/' as u8,
{
    let address = message.address;
    assert(is_ascii_chars(address)) by {
        assert forall|i: int| 0 <= i < address.len() implies '\0' <= #[trigger] address[i]
            <= '\u{7f}' by {
            assert(address[i] == '/' || crate::address::is_part_char(address[i]));
        }
    }
    lemma_encode_ascii(address);
    let a = encode_utf8(address);
    assert(a[0] == address[0] as u8);
    assert(terminated(a)[0] == a[0]);
    assert(message.wire()[0] == terminated(a)[0]);
}

/// What is joined in front is the front of the whole.
proof fn lemma_front(front: Seq<u8>, back: Seq<u8>)
    ensures
        (front + back).take(front.len() as int) == front,
{
    assert((front + back).take(front.len() as int) =~= front);
}

/// Bytes that are the encoding of a faithful message followed by zero
/// bytes in a multiple of four decode to that message, and encoding it
/// again gives the bytes without the trailing zeros.
pub proof fn lemma_message_reencoded(message: MessageView, words: nat)
    requires
        message.faithful(),
    ensures
        decode_message(message.wire() + zeros(4 * words)) == Ok::<MessageView, Error>(message),
        (message.wire() + zeros(4 * words)).take(message.wire().len() as int) == message.wire(),
{
    let tail = zeros(4 * words);
    assert(tail.len() == 4 * words);
    lemma_message_round_trip_with_tail(message, tail);
    lemma_front(message.wire(), tail);
}

impl PacketView {
    /// Whether the packet comes back from the wire as it went: its
    /// messages are faithful, and each element of its bundles is shorter
    /// than 2^31 bytes.
    pub open spec fn faithful(self) -> bool
        decreases self,
    {
        match self {
            PacketView::Message(message) => message.faithful(),
            PacketView::Bundle(bundle) => elements_faithful_upto(
                bundle.elements,
                bundle.elements.len(),
            ),
        }
    }
}

impl BundleView {
    /// Whether the bundle comes back from the wire as it went.
    pub open spec fn faithful(self) -> bool {
        PacketView::Bundle(self).faithful()
    }
}

/// Whether each of the first `n` of `elements` is faithful and shorter than
/// 2^31 bytes.
pub open spec fn elements_faithful_upto(elements: Seq<PacketView>, n: nat) -> bool
    decreases elements, n,
{
    if n == 0 || n > elements.len() {
        true
    } else {
        elements_faithful_upto(elements, (n - 1) as nat) && elements[n - 1].faithful()
            && elements[n - 1].wire().len() < 0x8000_0000
    }
}

/// A faithful packet is encodable.
pub proof fn lemma_faithful_packet_encodable(packet: PacketView)
    requires
        packet.faithful(),
    ensures
        packet.encodable(),
    decreases packet,
{
    match packet {
        PacketView::Message(message) => {
            lemma_faithful_message_encodable(message);
        },
        PacketView::Bundle(bundle) => {
            lemma_faithful_elements_framable(bundle.elements, bundle.elements.len());
        },
    }
}

/// Faithful elements can be framed.
pub proof fn lemma_faithful_elements_framable(elements: Seq<PacketView>, n: nat)
    requires
        n <= elements.len(),
        elements_faithful_upto(elements, n),
    ensures
        framable_upto(elements, n),
    decreases elements, n,
{
    if n > 0 {
        lemma_faithful_elements_framable(elements, (n - 1) as nat);
        lemma_faithful_packet_encodable(elements[n - 1]);
    }
}

/// Each of the first `n` elements is faithful and short enough where the
/// first `n` are.
pub proof fn lemma_element_faithful(elements: Seq<PacketView>, n: nat, i: int)
    requires
        n <= elements.len(),
        elements_faithful_upto(elements, n),
        0 <= i < n,
    ensures
        elements[i].faithful(),
        elements[i].wire().len() < 0x8000_0000,
    decreases n,
{
    if i < n - 1 {
        lemma_element_faithful(elements, (n - 1) as nat, i);
    }
}

/// Each of the first `n` elements nests within the budget where the first
/// `n` do.
pub proof fn lemma_element_nests(elements: Seq<PacketView>, n: nat, budget: nat, i: int)
    requires
        n <= elements.len(),
        nest_within_upto(elements, n, budget),
        0 <= i < n,
    ensures
        elements[i].nests_within(budget),
    decreases n,
{
    if i < n - 1 {
        lemma_element_nests(elements, (n - 1) as nat, budget, i);
    }
}

/// The elements of a bundle on the wire.
pub open spec fn framed(elements: Seq<PacketView>) -> Seq<u8> {
    framed_upto(elements, elements.len())
}

/// Elements on the wire are the first behind its length, then the rest.
pub proof fn lemma_framed_first(elements: Seq<PacketView>)
    requires
        elements.len() > 0,
    ensures
        framed(elements) == be32(elements[0].wire().len() as u32) + elements[0].wire() + framed(
            elements.skip(1),
        ),
{
    lemma_framed_first_upto(elements, elements.len());
}

proof fn lemma_framed_first_upto(elements: Seq<PacketView>, n: nat)
    requires
        0 < n <= elements.len(),
    ensures
        framed_upto(elements, n) == be32(elements[0].wire().len() as u32) + elements[0].wire()
            + framed_upto(elements.skip(1), (n - 1) as nat),
    decreases n,
{
    let rest = elements.skip(1);
    let head = be32(elements[0].wire().len() as u32) + elements[0].wire();
    if n == 1 {
        assert(framed_upto(elements, 1) == framed_upto(elements, 0) + be32(
            elements[0].wire().len() as u32,
        ) + elements[0].wire());
        assert(framed_upto(elements, 1) =~= head + framed_upto(rest, 0));
    } else {
        lemma_framed_first_upto(elements, (n - 1) as nat);
        assert(rest[n - 2] == elements[n - 1]);
        assert(framed_upto(elements, n) == framed_upto(elements, (n - 1) as nat) + be32(
            elements[n - 1].wire().len() as u32,
        ) + elements[n - 1].wire());
        assert(framed_upto(rest, (n - 1) as nat) == framed_upto(rest, (n - 2) as nat) + be32(
            rest[n - 2].wire().len() as u32,
        ) + rest[n - 2].wire());
        assert(framed_upto(elements, n) =~= head + framed_upto(rest, (n - 1) as nat));
    }
}

/// Decoding the bytes of a faithful packet whose bundles nest within the
/// budget gives the packet back.
pub proof fn lemma_packet_round_trip(packet: PacketView, budget: nat)
    requires
        packet.faithful(),
        packet.nests_within(budget),
    ensures
        decode_packet(packet.wire(), budget) == Ok::<PacketView, Error>(packet),
    decreases packet, 1nat,
{
    match packet {
        PacketView::Message(message) => {
            lemma_message_starts_with_slash(message);
            lemma_message_round_trip(message);
        },
        PacketView::Bundle(bundle) => {
            lemma_bundle_round_trip_with_tail(bundle, budget, Seq::empty());
            assert(bundle.wire() + Seq::<u8>::empty() =~= bundle.wire());
            assert(bundle.wire()[0] == '#' as u8);
        },
    }
}

/// An element shorter than 2^31 bytes behind its length, and whatever
/// follows it: the length reads back, the element stands after it, and what
/// follows stands after the element.
pub proof fn lemma_framed_element(element: Seq<u8>, rest: Seq<u8>)
    requires
        element.len() < 0x8000_0000,
    ensures
        ({
            let bytes = be32(element.len() as u32) + element + rest;
            &&& bytes.len() == 4 + element.len() + rest.len()
            &&& from_be32(bytes) == element.len()
            &&& bytes.subrange(4, 4 + element.len() as int) == element
            &&& bytes.skip(4 + element.len() as int) == rest
        }),
{
    let bytes = be32(element.len() as u32) + element + rest;
    assert(bytes =~= be32(element.len() as u32) + (element + rest));
    lemma_be32_prefix(element.len() as u32, element + rest);
    assert(bytes.subrange(4, 4 + element.len() as int) =~= element);
    assert(bytes.skip(4 + element.len() as int) =~= rest);
}

/// Decoding the framed bytes of faithful elements whose bundles nest
/// within the budget, and fewer than four bytes after them, gives the
/// elements back.
#[verifier::rlimit(50)]
pub proof fn lemma_elements_round_trip(
    elements: Seq<PacketView>,
    from: nat,
    budget: nat,
    tail: Seq<u8>,
)
    requires
        elements_faithful_upto(elements, elements.len()),
        nest_within_upto(elements, elements.len(), budget),
        from <= elements.len(),
        tail.len() < 4,
    ensures
        decode_elements(framed(elements.skip(from as int)) + tail, budget) == Ok::<
            Seq<PacketView>,
            Error,
        >(elements.skip(from as int)),
    decreases elements, elements.len() - from,
{
    let left = elements.skip(from as int);
    let bytes = framed(left) + tail;
    if from == elements.len() {
        assert(left =~= Seq::<PacketView>::empty());
        assert(bytes =~= tail);
    } else {
        let first = elements[from as int];
        let later = elements.skip(from as int + 1);
        let rest = framed(later) + tail;
        assert(left[0] == first);
        assert(left.skip(1) =~= later);
        lemma_framed_first(left);
        lemma_element_faithful(elements, elements.len(), from as int);
        lemma_element_nests(elements, elements.len(), budget, from as int);
        assert(bytes =~= be32(first.wire().len() as u32) + first.wire() + rest);
        lemma_framed_element(first.wire(), rest);
        lemma_packet_round_trip(first, budget);
        lemma_elements_round_trip(elements, from + 1, budget, tail);
        lemma_decode_elements_step(bytes, budget, first, later);
        assert(seq![first] + later =~= left);
    }
}

/// Where the first element decodes and the elements after it decode, the
/// elements decode to the first before the others.
proof fn lemma_decode_elements_step(
    bytes: Seq<u8>,
    budget: nat,
    first: PacketView,
    later: Seq<PacketView>,
)
    requires
        bytes.len() >= 4,
        from_be32(bytes) < 0x8000_0000,
        bytes.len() - 4 >= from_be32(bytes),
        decode_packet(bytes.subrange(4, 4 + from_be32(bytes)), budget) == Ok::<PacketView, Error>(
            first,
        ),
        decode_elements(bytes.skip(4 + from_be32(bytes)), budget) == Ok::<Seq<PacketView>, Error>(
            later,
        ),
    ensures
        decode_elements(bytes, budget) == Ok::<Seq<PacketView>, Error>(seq![first] + later),
{
}

/// Decoding the bytes of a faithful bundle whose bundles nest within the
/// budget, and fewer than four bytes after them, gives the bundle back:
/// what is too short for the length of an element is ignored.
#[verifier::rlimit(50)]
pub proof fn lemma_bundle_round_trip_with_tail(bundle: BundleView, budget: nat, tail: Seq<u8>)
    requires
        bundle.faithful(),
        bundle.nests_within(budget),
        tail.len() < 4,
    ensures
        decode_bundle(bundle.wire() + tail, budget) == Ok::<BundleView, Error>(bundle),
    decreases PacketView::Bundle(bundle), 0nat,
{
    let elements = bundle.elements;
    let bytes = bundle.wire() + tail;
    let after_header = be64(bundle.time_tag) + (framed(elements) + tail);
    assert(bytes =~= bundle_header() + after_header);
    assert(bytes.take(8) =~= bundle_header());
    assert(bytes.skip(8) =~= after_header);
    lemma_be64_prefix(bundle.time_tag, framed(elements) + tail);
    assert(bytes.skip(16) =~= framed(elements) + tail);
    assert(elements.skip(0) =~= elements);
    lemma_elements_round_trip(elements, 0, (budget - 1) as nat, tail);
}

/// Decoding the bytes of a faithful bundle whose bundles nest within the
/// budget gives the bundle back.
pub proof fn lemma_bundle_round_trip(bundle: BundleView, budget: nat)
    requires
        bundle.faithful(),
        bundle.nests_within(budget),
    ensures
        bundle.encodable(),
        decode_bundle(bundle.wire(), budget) == Ok::<BundleView, Error>(bundle),
{
    lemma_faithful_packet_encodable(PacketView::Bundle(bundle));
    lemma_bundle_round_trip_with_tail(bundle, budget, Seq::empty());
    assert(bundle.wire() + Seq::<u8>::empty() =~= bundle.wire());
}

/// Sends a message over the wire and back: encodes it, and decodes the
/// bytes. A faithful message comes back as it went, and one that is not
/// encodable does not leave.
pub fn message_round_trip(message: &Message) -> (back: Result<Message, Error>)
    ensures
        message@.faithful() ==> back is Ok && back->Ok_0@ == message@,
        !message@.encodable() ==> back == Err::<Message, Error>(Error::Overflow),
{
    proof {
        if message@.faithful() {
            lemma_message_round_trip(message@);
        }
    }
    match message.encode() {
        Ok(bytes) => Message::deserialize(bytes.as_slice()),
        Err(e) => Err(e),
    }
}

/// Sends a packet over the wire and back: encodes it, and decodes the
/// bytes. A faithful packet whose bundles nest `MAX_BUNDLE_DEPTH` deep at
/// most comes back as it went, and one that is not encodable does not
/// leave.
pub fn packet_round_trip(packet: &Packet) -> (back: Result<Packet, Error>)
    ensures
        packet@.faithful() && packet@.nests_within(MAX_BUNDLE_DEPTH as nat) ==> back is Ok
            && back->Ok_0@ == packet@,
        !packet@.encodable() ==> back == Err::<Packet, Error>(Error::Overflow),
{
    proof {
        if packet@.faithful() && packet@.nests_within(MAX_BUNDLE_DEPTH as nat) {
            lemma_faithful_packet_encodable(packet@);
            lemma_packet_round_trip(packet@, MAX_BUNDLE_DEPTH as nat);
        }
    }
    match packet.encode() {
        Ok(bytes) => Packet::deserialize(bytes.as_slice()),
        Err(e) => Err(e),
    }
}

} // verus!
