//! Canonical bytes: bytes that decode to a message and are written as the
//! encoder writes are the encoding of that message, followed by zeros; and
//! the encoding of a faithful message, followed by zeros, is canonical.

use crate::data::{
    all_encodable, lemma_array_encodable, payloads, type_tags, ValueView,
};
use crate::packet::message::{
    decode_blob, decode_items, decode_message, decode_text, decode_value, decode_values,
    split_sections, MessageView,
};
use crate::round_trip::{
    all_faithful, is_tag_letter, lemma_faithful_each, lemma_message_round_trip_with_tail,
    lemma_payloads_first, lemma_type_tag_shape, lemma_type_tags_first, lemma_type_tags_shape,
    lemma_value_round_trip,
};
use crate::text::{ascii, has_no_nul, has_no_zero, lemma_encode_ascii, lemma_encode_no_zero};
use crate::wire::{
    aligned, be32, be64, first_nul, from_be32, from_be64, lemma_be32_prefix, lemma_first_nul,
    lemma_padded_length, lemma_terminated, padded, terminated, zeros,
};
use vstd::prelude::*;
use vstd::utf8::{decode_utf8_encode_utf8, encode_utf8};

verus! {

/// Whether the bytes from `from` up to `to` are zero, as far as there are
/// bytes.
pub open spec fn zero_between(bytes: Seq<u8>, from: int, to: int) -> bool {
    forall|i: int| from <= i < to && 0 <= i < bytes.len() ==> #[trigger] bytes[i] == 0
}

/// Whether the string at the start of `data` is padded with zeros.
pub open spec fn text_is_canonical(data: Seq<u8>) -> bool {
    zero_between(data, first_nul(data) as int, aligned(first_nul(data) + 1) as int)
}

/// Whether the blob at the start of `data` is padded with zeros.
pub open spec fn blob_is_canonical(data: Seq<u8>) -> bool {
    zero_between(data, 4 + from_be32(data), 4 + aligned(from_be32(data) as nat) as int)
}

/// Whether the four bytes at the start of `data` are an ASCII code
/// extended with zeros.
pub open spec fn character_is_canonical(data: Seq<u8>) -> bool {
    data.len() >= 4 ==> data[0] == 0 && data[1] == 0 && data[2] == 0 && data[3] < 0x80
}

/// Whether the payload of the value that the first type tag of `tag`
/// announces is written as the encoder writes it: a character as an ASCII
/// code extended with zeros, a string and a blob padded with zeros, and an
/// array with each item so.
pub open spec fn value_is_canonical(tag: Seq<u8>, data: Seq<u8>) -> bool
    decreases tag.len(), 0nat,
{
    if tag.len() == 0 {
        true
    } else if tag[0] == 'c' as u8 {
        character_is_canonical(data)
    } else if tag[0] == 's' as u8 || tag[0] == 'S' as u8 {
        text_is_canonical(data)
    } else if tag[0] == 'b' as u8 {
        blob_is_canonical(data)
    } else if tag[0] == '[' as u8 {
        items_are_canonical(tag.skip(1), data)
    } else {
        true
    }
}

/// Whether the payloads of the items of an array, up to the `]` that closes
/// it, are written as the encoder writes them.
pub open spec fn items_are_canonical(tag: Seq<u8>, data: Seq<u8>) -> bool
    decreases tag.len(), 1nat,
{
    if tag.len() == 0 || tag[0] == ']' as u8 {
        true
    } else {
        value_is_canonical(tag, data) && match decode_value(tag, data) {
            Ok(first) => if first.tag.len() < tag.len() {
                items_are_canonical(first.tag, first.data)
            } else {
                true
            },
            Err(_) => true,
        }
    }
}

/// Whether the payloads of the values that `tag` announces are written as
/// the encoder writes them, and nothing but zeros follows the last.
pub open spec fn values_are_canonical(tag: Seq<u8>, data: Seq<u8>) -> bool
    decreases tag.len(), 1nat,
{
    if tag.len() == 0 {
        zero_between(data, 0, data.len() as int)
    } else {
        value_is_canonical(tag, data) && match decode_value(tag, data) {
            Ok(first) => if first.tag.len() < tag.len() {
                values_are_canonical(first.tag, first.data)
            } else {
                true
            },
            Err(_) => true,
        }
    }
}

/// Whether `bytes` are written as the encoder writes a message: the
/// address and the type tags are padded with zeros, each payload is written
/// as the encoder writes it, and nothing but zeros follows the last.
pub open spec fn message_is_canonical(bytes: Seq<u8>) -> bool {
    let address_end = first_nul(bytes);
    let after_address = bytes.skip(aligned(address_end + 1) as int);
    let tag_end = first_nul(after_address);
    &&& zero_between(bytes, address_end as int, aligned(address_end + 1) as int)
    &&& zero_between(after_address, tag_end as int, aligned(tag_end + 1) as int)
    &&& split_sections(bytes) matches Ok(sections) ==> values_are_canonical(
        sections.tag,
        sections.data,
    )
}

/// Four bytes are the big-endian bytes of the number that they write.
pub proof fn lemma_be32_of_bytes(bytes: Seq<u8>)
    requires
        bytes.len() >= 4,
    ensures
        be32(from_be32(bytes)) == bytes.take(4),
{
    let b0 = bytes[0];
    let b1 = bytes[1];
    let b2 = bytes[2];
    let b3 = bytes[3];
    let x = (b0 as u32) << 24 | (b1 as u32) << 16 | (b2 as u32) << 8 | (b3 as u32);
    assert((x >> 24) as u8 == b0 && (x >> 16) as u8 == b1 && (x >> 8) as u8 == b2 && x as u8
        == b3) by (bit_vector)
        requires
            x == (b0 as u32) << 24 | (b1 as u32) << 16 | (b2 as u32) << 8 | (b3 as u32),
    ;
    assert(be32(from_be32(bytes)) =~= bytes.take(4));
}

/// Eight bytes are the big-endian bytes of the number that they write.
pub proof fn lemma_be64_of_bytes(bytes: Seq<u8>)
    requires
        bytes.len() >= 8,
    ensures
        be64(from_be64(bytes)) == bytes.take(8),
{
    let b0 = bytes[0];
    let b1 = bytes[1];
    let b2 = bytes[2];
    let b3 = bytes[3];
    let b4 = bytes[4];
    let b5 = bytes[5];
    let b6 = bytes[6];
    let b7 = bytes[7];
    let x = (b0 as u64) << 56 | (b1 as u64) << 48 | (b2 as u64) << 40 | (b3 as u64) << 32 | (
    b4 as u64) << 24 | (b5 as u64) << 16 | (b6 as u64) << 8 | (b7 as u64);
    assert((x >> 56) as u8 == b0 && (x >> 48) as u8 == b1 && (x >> 40) as u8 == b2 && (x >> 32) as u8
        == b3 && (x >> 24) as u8 == b4 && (x >> 16) as u8 == b5 && (x >> 8) as u8 == b6 && x as u8
        == b7) by (bit_vector)
        requires
            x == (b0 as u64) << 56 | (b1 as u64) << 48 | (b2 as u64) << 40 | (b3 as u64) << 32 | (
            b4 as u64) << 24 | (b5 as u64) << 16 | (b6 as u64) << 8 | (b7 as u64),
    ;
    assert(be64(from_be64(bytes)) =~= bytes.take(8));
}

/// Bytes that start with a string, its NUL and zeros up to the next
/// multiple of four are that string as the encoder writes it, and what
/// follows.
pub proof fn lemma_terminated_prefix(bytes: Seq<u8>)
    requires
        first_nul(bytes) < bytes.len(),
        aligned(first_nul(bytes) + 1) <= bytes.len(),
        text_is_canonical(bytes),
    ensures
        bytes == terminated(bytes.take(first_nul(bytes) as int)) + bytes.skip(
            aligned(first_nul(bytes) + 1) as int,
        ),
{
    lemma_first_nul(bytes);
    let end = first_nul(bytes);
    let text = bytes.take(end as int);
    let whole = terminated(text) + bytes.skip(aligned(end + 1) as int);
    assert(terminated(text).len() == aligned(end + 1));
    assert(whole.len() == bytes.len());
    assert forall|i: int| 0 <= i < bytes.len() implies bytes[i] == whole[i] by {
        if i < end {
        } else if i < aligned(end + 1) {
            assert(bytes[i] == 0);
        } else {
        }
    }
    assert(bytes =~= whole);
}

/// Bytes that hold, after a length of four bytes, as many bytes as the
/// length says and zeros up to the next multiple of four, hold there the
/// blob as the encoder pads it.
pub proof fn lemma_padded_blob(data: Seq<u8>, length: nat)
    requires
        4 + aligned(length) <= data.len(),
        zero_between(data, 4 + length as int, 4 + aligned(length) as int),
    ensures
        data.subrange(4, 4 + aligned(length) as int) == padded(
            data.subrange(4, 4 + length as int),
        ),
{
    let blob = data.subrange(4, 4 + length as int);
    let whole = data.subrange(4, 4 + aligned(length) as int);
    assert(padded(blob).len() == aligned(length));
    assert forall|i: int| 0 <= i < whole.len() implies whole[i] == padded(blob)[i] by {
        if i >= length {
            assert(data[4 + i] == 0);
        }
    }
    assert(whole =~= padded(blob));
}

/// A type tag that starts with the code of `letter` is the one letter and
/// what follows it.
proof fn lemma_tag_letter(letter: char, tag: Seq<u8>)
    requires
        tag.len() > 0,
        tag[0] == letter as u8,
    ensures
        tag == ascii(seq![letter]) + tag.skip(1),
{
    assert(tag =~= ascii(seq![letter]) + tag.skip(1));
}

/// The code of text that is joined is the codes of its parts, joined.
proof fn lemma_ascii_joined(first: Seq<char>, second: Seq<char>)
    ensures
        ascii(first + second) == ascii(first) + ascii(second),
{
    assert(ascii(first + second) =~= ascii(first) + ascii(second));
}

/// A value put before values: the type tags and the payloads are those of
/// the value and then those of the others, and all are encodable where the
/// value and the others are.
proof fn lemma_value_before(value: ValueView, others: Seq<ValueView>)
    ensures
        type_tags(seq![value] + others) == value.type_tag() + type_tags(others),
        payloads(seq![value] + others) == value.payload() + payloads(others),
        value.encodable() && all_encodable(others) ==> all_encodable(seq![value] + others),
{
    let all = seq![value] + others;
    assert(all[0] == value);
    assert(all.skip(1) =~= others);
    lemma_type_tags_first(all);
    lemma_payloads_first(all);
    if value.encodable() && all_encodable(others) {
        assert forall|i: int| 0 <= i < all.len() implies (#[trigger] all[i]).encodable() by {
            if i > 0 {
                assert(all[i] == others[i - 1]);
            }
        }
    }
}

/// A four-byte payload that decoded, a character being an ASCII code
/// extended with zeros, is what the encoder writes for the value.
pub proof fn lemma_word_reencodes(letter: u8, data: Seq<u8>)
    requires
        data.len() >= 4,
        letter == 'c' as u8 || letter == 'i' as u8 || letter == 'f' as u8 || letter == 'r' as u8
            || letter == 'm' as u8,
        letter == 'c' as u8 ==> character_is_canonical(data),
    ensures
        crate::packet::message::decode_word(letter, data).encodable(),
        crate::packet::message::decode_word(letter, data).payload() == data.take(4),
        ascii(crate::packet::message::decode_word(letter, data).type_tag()) == seq![letter],
{
    let value = crate::packet::message::decode_word(letter, data);
    lemma_be32_of_bytes(data);
    if letter == 'c' as u8 {
        let low = data[3];
        let c = low as char;
        assert(c as u32 == low as u32);
        assert(be32(low as u32) =~= seq![0u8, 0u8, 0u8, low]) by {
            let x = low as u32;
            assert((x >> 24) as u8 == 0 && (x >> 16) as u8 == 0 && (x >> 8) as u8 == 0 && x as u8
                == low) by (bit_vector)
                requires
                    x == low as u32,
            ;
        }
        assert(value.payload() =~= data.take(4));
        assert(ascii(value.type_tag()) =~= seq![letter]);
    } else if letter == 'i' as u8 {
        let x = from_be32(data);
        assert((x as i32) as u32 == x) by (bit_vector);
        assert(ascii(value.type_tag()) =~= seq![letter]);
    } else if letter == 'f' as u8 {
        assert(ascii(value.type_tag()) =~= seq![letter]);
    } else {
        assert(ascii(value.type_tag()) =~= seq![letter]);
    }
}

/// An eight-byte payload that decoded is what the encoder writes for the
/// value.
pub proof fn lemma_long_reencodes(letter: u8, data: Seq<u8>)
    requires
        data.len() >= 8,
        letter == 'h' as u8 || letter == 'd' as u8 || letter == 't' as u8,
    ensures
        crate::packet::message::decode_long(letter, data).encodable(),
        crate::packet::message::decode_long(letter, data).payload() == data.take(8),
        ascii(crate::packet::message::decode_long(letter, data).type_tag()) == seq![letter],
{
    let value = crate::packet::message::decode_long(letter, data);
    lemma_be64_of_bytes(data);
    if letter == 'h' as u8 {
        let x = from_be64(data);
        assert((x as i64) as u64 == x) by (bit_vector);
    }
    assert(ascii(value.type_tag()) =~= seq![letter]);
}

/// A string that decoded and is padded with zeros is what the encoder
/// writes for it, and what is left.
pub proof fn lemma_text_reencodes(data: Seq<u8>)
    requires
        decode_text(data) is Ok,
        text_is_canonical(data),
    ensures
        data == terminated(encode_utf8(decode_text(data)->Ok_0.0)) + decode_text(data)->Ok_0.1,
{
    let end = first_nul(data);
    decode_utf8_encode_utf8(data.take(end as int));
    lemma_terminated_prefix(data);
}

/// A blob that decoded and is padded with zeros is what the encoder writes
/// for it, and what is left.
pub proof fn lemma_blob_reencodes(data: Seq<u8>)
    requires
        decode_blob(data) is Ok,
        blob_is_canonical(data),
    ensures
        decode_blob(data)->Ok_0.0.len() < 0x8000_0000,
        data == be32(decode_blob(data)->Ok_0.0.len() as u32) + padded(decode_blob(data)->Ok_0.0)
            + decode_blob(data)->Ok_0.1,
{
    let length = from_be32(data);
    let blob = data.subrange(4, 4 + length);
    let left = data.skip(4 + aligned(length as nat) as int);
    assert(blob.len() == length);
    assert(blob.len() as u32 == length);
    lemma_be32_of_bytes(data);
    lemma_padded_blob(data, length as nat);
    assert(data =~= data.take(4) + data.subrange(4, 4 + aligned(length as nat) as int) + left);
}

/// A value that decoded from canonical bytes is encodable, and the bytes
/// are what the encoder writes for it: its type tag before the type tags
/// that are left, and its payload before the payload bytes that are left.
#[verifier::rlimit(50)]
pub proof fn lemma_value_reencodes(tag: Seq<u8>, data: Seq<u8>)
    requires
        decode_value(tag, data) is Ok,
        value_is_canonical(tag, data),
    ensures
        decode_value(tag, data)->Ok_0.value.encodable(),
        tag == ascii(decode_value(tag, data)->Ok_0.value.type_tag()) + decode_value(
            tag,
            data,
        )->Ok_0.tag,
        data == decode_value(tag, data)->Ok_0.value.payload() + decode_value(
            tag,
            data,
        )->Ok_0.data,
    decreases tag.len(), 0nat,
{
    let found = decode_value(tag, data)->Ok_0;
    let letter = tag[0];
    let rest = tag.skip(1);
    if letter == 'N' as u8 {
        lemma_tag_letter('N', tag);
        assert(data =~= found.value.payload() + data);
    } else if letter == 'I' as u8 {
        lemma_tag_letter('I', tag);
        assert(data =~= found.value.payload() + data);
    } else if letter == 'T' as u8 {
        lemma_tag_letter('T', tag);
        assert(data =~= found.value.payload() + data);
    } else if letter == 'F' as u8 {
        lemma_tag_letter('F', tag);
        assert(data =~= found.value.payload() + data);
    } else if letter == 'c' as u8 || letter == 'i' as u8 || letter == 'f' as u8 || letter
        == 'r' as u8 || letter == 'm' as u8 {
        lemma_word_reencodes(letter, data);
        assert(tag =~= seq![letter] + rest);
        assert(data =~= data.take(4) + data.skip(4));
    } else if letter == 'h' as u8 || letter == 'd' as u8 || letter == 't' as u8 {
        lemma_long_reencodes(letter, data);
        assert(tag =~= seq![letter] + rest);
        assert(data =~= data.take(8) + data.skip(8));
    } else if letter == 's' as u8 {
        lemma_tag_letter('s', tag);
        lemma_text_reencodes(data);
    } else if letter == 'S' as u8 {
        lemma_tag_letter('S', tag);
        lemma_text_reencodes(data);
    } else if letter == 'b' as u8 {
        lemma_tag_letter('b', tag);
        lemma_blob_reencodes(data);
    } else {
        assert(letter == '[' as u8);
        let items = decode_items(rest, data)->Ok_0;
        lemma_items_reencode(rest, data);
        lemma_array_encodable(items.value);
        let inner = type_tags(items.value);
        assert(found.value.type_tag() == seq!['['] + inner + seq![']']);
        assert(ascii(seq!['['] + inner + seq![']']) =~= seq!['[' as u8] + ascii(inner) + seq![
            ']' as u8,
        ]);
        assert(tag =~= seq!['[' as u8] + rest);
        assert(tag =~= ascii(found.value.type_tag()) + found.tag);
    }
}

/// Items that decoded from canonical bytes are encodable, and the bytes
/// are what the encoder writes for them: their type tags, the `]`, and the
/// type tags that are left; their payloads, and the payload bytes that are
/// left.
#[verifier::rlimit(50)]
pub proof fn lemma_items_reencode(tag: Seq<u8>, data: Seq<u8>)
    requires
        decode_items(tag, data) is Ok,
        items_are_canonical(tag, data),
    ensures
        all_encodable(decode_items(tag, data)->Ok_0.value),
        tag == ascii(type_tags(decode_items(tag, data)->Ok_0.value)) + seq![']' as u8]
            + decode_items(tag, data)->Ok_0.tag,
        data == payloads(decode_items(tag, data)->Ok_0.value) + decode_items(tag, data)->Ok_0.data,
    decreases tag.len(), 1nat,
{
    let found = decode_items(tag, data)->Ok_0;
    if tag[0] == ']' as u8 {
        assert(found.value =~= Seq::<ValueView>::empty());
        assert(tag =~= ascii(type_tags(found.value)) + seq![']' as u8] + tag.skip(1));
        assert(data =~= payloads(found.value) + data);
    } else {
        let first = decode_value(tag, data)->Ok_0;
        let more = decode_items(first.tag, first.data)->Ok_0;
        lemma_value_reencodes(tag, data);
        lemma_items_reencode(first.tag, first.data);
        lemma_value_before(first.value, more.value);
        lemma_ascii_joined(first.value.type_tag(), type_tags(more.value));
        assert(found.value == seq![first.value] + more.value);
        assert(tag =~= ascii(type_tags(found.value)) + seq![']' as u8] + found.tag);
        assert(data =~= payloads(found.value) + found.data);
    }
}

/// Values that decoded from canonical bytes are encodable, and the bytes
/// are what the encoder writes for them: their type tags; their payloads,
/// and zeros.
#[verifier::rlimit(50)]
pub proof fn lemma_values_reencode(tag: Seq<u8>, data: Seq<u8>)
    requires
        decode_values(tag, data) is Ok,
        values_are_canonical(tag, data),
    ensures
        all_encodable(decode_values(tag, data)->Ok_0),
        tag == ascii(type_tags(decode_values(tag, data)->Ok_0)),
        payloads(decode_values(tag, data)->Ok_0).len() <= data.len(),
        data == payloads(decode_values(tag, data)->Ok_0) + zeros(
            (data.len() - payloads(decode_values(tag, data)->Ok_0).len()) as nat,
        ),
    decreases tag.len(), 1nat,
{
    let found = decode_values(tag, data)->Ok_0;
    if tag.len() == 0 {
        assert(found =~= Seq::<ValueView>::empty());
        assert(tag =~= ascii(type_tags(found)));
        assert(data =~= payloads(found) + zeros(data.len()));
    } else {
        let first = decode_value(tag, data)->Ok_0;
        let more = decode_values(first.tag, first.data)->Ok_0;
        lemma_value_reencodes(tag, data);
        lemma_values_reencode(first.tag, first.data);
        lemma_value_before(first.value, more);
        lemma_ascii_joined(first.value.type_tag(), type_tags(more));
        assert(found == seq![first.value] + more);
        let spare = (first.data.len() - payloads(more).len()) as nat;
        assert(data == first.value.payload() + (payloads(more) + zeros(spare)));
        assert(data =~= payloads(found) + zeros(spare));
    }
}

/// Bytes that decode to a message and are canonical are the encoding of
/// that message, followed by nothing but zeros: encoding the message again
/// gives the bytes back without the zeros at their end.
#[verifier::rlimit(50)]
pub proof fn lemma_decoded_reencodes(bytes: Seq<u8>)
    requires
        decode_message(bytes) is Ok,
        message_is_canonical(bytes),
    ensures
        decode_message(bytes)->Ok_0.encodable(),
        decode_message(bytes)->Ok_0.wire().len() <= bytes.len(),
        bytes == decode_message(bytes)->Ok_0.wire() + zeros(
            (bytes.len() - decode_message(bytes)->Ok_0.wire().len()) as nat,
        ),
{
    let message = decode_message(bytes)->Ok_0;
    let sections = split_sections(bytes)->Ok_0;
    let arguments = message.arguments;
    lemma_values_reencode(sections.tag, sections.data);
    let spare = (sections.data.len() - payloads(arguments).len()) as nat;

    // The address section.
    lemma_first_nul(bytes);
    let address_end = first_nul(bytes);
    let after_address = bytes.skip(aligned(address_end + 1) as int);
    decode_utf8_encode_utf8(bytes.take(address_end as int));
    lemma_terminated_prefix(bytes);
    assert(bytes == terminated(encode_utf8(message.address)) + after_address);

    // The type tag section.
    lemma_first_nul(after_address);
    let tag_end = first_nul(after_address);
    lemma_terminated_prefix(after_address);
    lemma_tag_section_text(after_address, arguments);
    assert(after_address == terminated(encode_utf8(message.tag_text())) + sections.data);

    assert(bytes =~= message.wire() + zeros(spare));
}

/// A type tag section that starts with `,` and goes on with the codes of
/// the type tags of `arguments` is the encoding of the type tag text.
proof fn lemma_tag_section_text(section: Seq<u8>, arguments: Seq<ValueView>)
    requires
        0 < first_nul(section) <= section.len(),
        section[0] == ',' as u8,
        section.subrange(1, first_nul(section) as int) == ascii(type_tags(arguments)),
    ensures
        section.take(first_nul(section) as int) == encode_utf8(seq![','] + type_tags(arguments)),
{
    let tag_text = seq![','] + type_tags(arguments);
    lemma_type_tags_shape(arguments, arguments.len());
    assert forall|i: int| 0 <= i < tag_text.len() implies '\0' <= #[trigger] tag_text[i]
        <= '\u{7f}' by {
        if i > 0 {
            assert(tag_text[i] == type_tags(arguments)[i - 1]);
            assert(is_tag_letter(type_tags(arguments)[i - 1]));
        }
    }
    lemma_encode_ascii(tag_text);
    let head = section.take(first_nul(section) as int);
    let tail = section.subrange(1, first_nul(section) as int);
    assert(tail.len() == first_nul(section) - 1);
    assert(ascii(type_tags(arguments)).len() == type_tags(arguments).len());
    assert(head.len() == tag_text.len());
    assert forall|i: int| 0 <= i < head.len() implies head[i] == ascii(tag_text)[i] by {
        if i > 0 {
            assert(head[i] == section.subrange(1, first_nul(section) as int)[i - 1]);
        }
    }
    assert(head =~= ascii(tag_text));
}

/// A string without a zero byte, written as the encoder writes it, is
/// padded with zeros, whatever follows it.
proof fn lemma_terminated_is_canonical(text: Seq<u8>, rest: Seq<u8>)
    requires
        has_no_zero(text),
    ensures
        text_is_canonical(terminated(text) + rest),
{
    lemma_terminated(text, rest);
    let all = terminated(text) + rest;
    assert forall|i: int|
        first_nul(all) <= i < aligned(first_nul(all) + 1) && 0 <= i < all.len() implies #[trigger] all[i]
        == 0 by {
        assert(all[i] == terminated(text)[i]);
    }
}

/// The bytes that the encoder writes for a faithful value are canonical,
/// whatever follows them.
#[verifier::rlimit(50)]
pub proof fn lemma_value_is_canonical(value: ValueView, tag_rest: Seq<u8>, data_rest: Seq<u8>)
    requires
        value.faithful(),
    ensures
        value_is_canonical(ascii(value.type_tag()) + tag_rest, value.payload() + data_rest),
    decreases value,
{
    let tag = ascii(value.type_tag()) + tag_rest;
    let data = value.payload() + data_rest;
    assert(tag[0] == value.type_tag()[0] as u8) by {
        lemma_type_tag_shape(value);
    }
    match value {
        ValueView::Character(c) => {
            let x = c as u32;
            assert((x >> 24) as u8 == 0 && (x >> 16) as u8 == 0 && (x >> 8) as u8 == 0 && (x as u8)
                < 0x80) by (bit_vector)
                requires
                    x < 128,
            ;
            assert(data[0] == be32(x)[0] && data[1] == be32(x)[1] && data[2] == be32(x)[2]
                && data[3] == be32(x)[3]);
        },
        ValueView::String(s) => {
            lemma_encode_no_zero(s);
            lemma_terminated_is_canonical(encode_utf8(s), data_rest);
        },
        ValueView::Alternative(s) => {
            lemma_encode_no_zero(s);
            lemma_terminated_is_canonical(encode_utf8(s), data_rest);
        },
        ValueView::Blob(b) => {
            let after_length = padded(b) + data_rest;
            assert(data =~= be32(b.len() as u32) + after_length);
            lemma_be32_prefix(b.len() as u32, after_length);
            lemma_padded_length(b);
            assert forall|i: int|
                4 + b.len() <= i < 4 + aligned(b.len()) && 0 <= i < data.len() implies #[trigger] data[i]
                == 0 by {
                assert(data[i] == padded(b)[i - 4]);
            }
        },
        ValueView::Array(items) => {
            let inner = ascii(type_tags(items)) + seq![']' as u8] + tag_rest;
            assert(tag =~= seq!['[' as u8] + inner);
            assert(tag.skip(1) =~= inner);
            assert(items.skip(0) =~= items);
            lemma_items_are_canonical(items, 0, tag_rest, data_rest);
        },
        _ => {},
    }
}

/// The bytes that the encoder writes for faithful items, and the `]`
/// after them, are canonical, whatever follows them.
#[verifier::rlimit(50)]
pub proof fn lemma_items_are_canonical(
    items: Seq<ValueView>,
    from: nat,
    tag_rest: Seq<u8>,
    data_rest: Seq<u8>,
)
    requires
        all_faithful(items),
        from <= items.len(),
    ensures
        items_are_canonical(
            ascii(type_tags(items.skip(from as int))) + seq![']' as u8] + tag_rest,
            payloads(items.skip(from as int)) + data_rest,
        ),
    decreases items, items.len() - from,
{
    let left = items.skip(from as int);
    let tag = ascii(type_tags(left)) + seq![']' as u8] + tag_rest;
    let data = payloads(left) + data_rest;
    if from == items.len() {
        assert(left =~= Seq::<ValueView>::empty());
        assert(tag[0] == ']' as u8);
    } else {
        let first = items[from as int];
        let later = items.skip(from as int + 1);
        assert(left[0] == first);
        assert(left.skip(1) =~= later);
        lemma_type_tags_first(left);
        lemma_payloads_first(left);
        lemma_type_tag_shape(first);
        lemma_faithful_each(items, items.len(), from as int);
        let later_tag = ascii(type_tags(later)) + seq![']' as u8] + tag_rest;
        let later_data = payloads(later) + data_rest;
        assert(tag =~= ascii(first.type_tag()) + later_tag);
        assert(data =~= first.payload() + later_data);
        assert(tag[0] == first.type_tag()[0] as u8);
        assert(is_tag_letter(first.type_tag()[0]));
        lemma_value_is_canonical(first, later_tag, later_data);
        lemma_value_round_trip(first, later_tag, later_data);
        lemma_items_are_canonical(items, from + 1, tag_rest, data_rest);
    }
}

/// The bytes that the encoder writes for faithful values, and zeros after
/// them, are canonical.
#[verifier::rlimit(50)]
pub proof fn lemma_values_are_canonical(items: Seq<ValueView>, from: nat, spare: nat)
    requires
        all_faithful(items),
        from <= items.len(),
    ensures
        values_are_canonical(
            ascii(type_tags(items.skip(from as int))),
            payloads(items.skip(from as int)) + zeros(spare),
        ),
    decreases items.len() - from,
{
    let left = items.skip(from as int);
    let tag = ascii(type_tags(left));
    let data = payloads(left) + zeros(spare);
    if from == items.len() {
        assert(left =~= Seq::<ValueView>::empty());
        assert(tag.len() == 0);
        assert(data =~= zeros(spare));
    } else {
        let first = items[from as int];
        let later = items.skip(from as int + 1);
        assert(left[0] == first);
        assert(left.skip(1) =~= later);
        lemma_type_tags_first(left);
        lemma_payloads_first(left);
        lemma_type_tag_shape(first);
        lemma_faithful_each(items, items.len(), from as int);
        let later_tag = ascii(type_tags(later));
        let later_data = payloads(later) + zeros(spare);
        assert(tag =~= ascii(first.type_tag()) + later_tag);
        assert(data =~= first.payload() + later_data);
        lemma_value_is_canonical(first, later_tag, later_data);
        lemma_value_round_trip(first, later_tag, later_data);
        lemma_values_are_canonical(items, from + 1, spare);
    }
}

/// The encoding of a faithful message, and zeros in a multiple of four
/// after it, are canonical bytes: so the canonical bytes that decode are
/// the encodings of faithful messages with zeros after them, and no
/// others.
#[verifier::rlimit(50)]
pub proof fn lemma_encoding_is_canonical(message: MessageView, words: nat)
    requires
        message.faithful(),
    ensures
        message_is_canonical(message.wire() + zeros(4 * words)),
{
    let arguments = message.arguments;
    let tail = zeros(4 * words);
    assert(tail.len() == 4 * words);
    let a = encode_utf8(message.address);
    let g = encode_utf8(message.tag_text());
    let p = payloads(arguments);
    let bytes = message.wire() + tail;
    let after_address = terminated(g) + (p + tail);
    assert(bytes =~= terminated(a) + after_address);
    lemma_encode_no_zero(message.address);
    lemma_terminated(a, after_address);
    lemma_terminated_is_canonical(a, after_address);
    lemma_type_tags_shape(arguments, arguments.len());
    assert(has_no_nul(message.tag_text())) by {
        let tag_text = message.tag_text();
        assert forall|i: int| 0 <= i < tag_text.len() implies #[trigger] tag_text[i] != '\0' by {
            if i > 0 {
                assert(tag_text[i] == type_tags(arguments)[i - 1]);
                assert(is_tag_letter(type_tags(arguments)[i - 1]));
            }
        }
    }
    lemma_encode_no_zero(message.tag_text());
    lemma_terminated_is_canonical(g, p + tail);
    lemma_message_round_trip_with_tail(message, tail);
    assert(arguments.skip(0) =~= arguments);
    lemma_values_are_canonical(arguments, 0, 4 * words);
}

} // verus!
