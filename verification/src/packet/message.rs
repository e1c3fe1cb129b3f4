//! OSC messages: an address and its arguments, and their wire form
//! `<address>\0.. ,<type tags>\0.. <payloads>`.

use crate::address::{is_address, Address};
use crate::data::{
    all_encodable, lemma_views_of, lemma_views_push, payloads, payloads_upto, type_tags,
    type_tags_upto, views_of, TimeTag, Value, ValueView,
};
use crate::error::Error;
use crate::text::string_from_utf8;
use crate::wire::{
    aligned, append_bytes, copy_range, find_nul, first_nul, from_be32, from_be64,
    lemma_first_nul, terminated, u32_from_be_bytes, u64_from_be_bytes,
};
use vstd::prelude::*;
use vstd::slice::slice_subrange;
use vstd::utf8::{decode_utf8, encode_utf8, valid_utf8};

verus! {

/// What a `Message` holds, as mathematical data.
pub struct MessageView {
    pub address: Seq<char>,
    pub arguments: Seq<ValueView>,
}

/// What decoding one step gives: the decoded thing, and the type tags and
/// payload bytes that are left after it.
pub struct Decoded<T> {
    pub value: T,
    pub tag: Seq<u8>,
    pub data: Seq<u8>,
}

impl MessageView {
    /// The type tag section before termination: `,` and the type tags of
    /// the arguments.
    pub open spec fn tag_text(self) -> Seq<char> {
        seq![','] + type_tags(self.arguments)
    }

    /// The bytes of the message: the address and the type tag section, each
    /// NUL-terminated and padded, then the payloads of the arguments.
    pub open spec fn wire(self) -> Seq<u8> {
        terminated(encode_utf8(self.address)) + terminated(encode_utf8(self.tag_text()))
            + payloads(self.arguments)
    }

    /// Whether the wire format has room for each argument.
    pub open spec fn encodable(self) -> bool {
        all_encodable(self.arguments)
    }
}

/// Whether every byte is below 128.
pub open spec fn is_ascii_bytes(bytes: Seq<u8>) -> bool {
    forall|i: int| 0 <= i < bytes.len() ==> #[trigger] bytes[i] < 0x80
}

/// Decodes the string at the start of `data`: the bytes before the first
/// NUL, read as UTF-8; what is left starts at the next multiple of four.
pub open spec fn decode_text(data: Seq<u8>) -> Result<(Seq<char>, Seq<u8>), Error> {
    let end = first_nul(data);
    if data.len() < 4 {
        Err(Error::NotEnoughData)
    } else if end >= data.len() {
        Err(Error::NotTerminated)
    } else if !valid_utf8(data.take(end as int)) {
        Err(Error::InvalidAddress)
    } else if aligned(end + 1) > data.len() {
        Err(Error::NotEnoughData)
    } else {
        Ok((decode_utf8(data.take(end as int)), data.skip(aligned(end + 1) as int)))
    }
}

/// Decodes the blob at the start of `data`: a length in four bytes, read
/// as a signed number, then that many bytes; what is left starts after the
/// blob's padding.
pub open spec fn decode_blob(data: Seq<u8>) -> Result<(Seq<u8>, Seq<u8>), Error> {
    let length = from_be32(data);
    if data.len() < 4 {
        Err(Error::NotEnoughData)
    } else if length >= 0x8000_0000 || data.len() - 4 < aligned(length as nat) {
        Err(Error::NotEnoughData)
    } else {
        Ok((data.subrange(4, 4 + length), data.skip(4 + aligned(length as nat) as int)))
    }
}

/// Decodes the value that the first type tag of `tag` announces, taking its
/// payload from the start of `data`.
pub open spec fn decode_value(tag: Seq<u8>, data: Seq<u8>) -> Result<Decoded<ValueView>, Error>
    decreases tag.len(), 0nat,
{
    if tag.len() == 0 {
        Err(Error::IllegalStructure)
    } else {
        let rest = tag.skip(1);
        let letter = tag[0];
        if letter == 'N' as u8 {
            Ok(Decoded { value: ValueView::Nil, tag: rest, data })
        } else if letter == 'I' as u8 {
            Ok(Decoded { value: ValueView::Infinitum, tag: rest, data })
        } else if letter == 'T' as u8 {
            Ok(Decoded { value: ValueView::Boolean(true), tag: rest, data })
        } else if letter == 'F' as u8 {
            Ok(Decoded { value: ValueView::Boolean(false), tag: rest, data })
        } else if letter == 'c' as u8 || letter == 'i' as u8 || letter == 'f' as u8 || letter
            == 'r' as u8 || letter == 'm' as u8 {
            if data.len() < 4 {
                Err(Error::NotEnoughData)
            } else {
                Ok(Decoded { value: decode_word(letter, data), tag: rest, data: data.skip(4) })
            }
        } else if letter == 'h' as u8 || letter == 'd' as u8 || letter == 't' as u8 {
            if data.len() < 8 {
                Err(Error::NotEnoughData)
            } else {
                Ok(Decoded { value: decode_long(letter, data), tag: rest, data: data.skip(8) })
            }
        } else if letter == 's' as u8 || letter == 'S' as u8 {
            match decode_text(data) {
                Ok((text, left)) => Ok(
                    Decoded {
                        value: if letter == 's' as u8 {
                            ValueView::String(text)
                        } else {
                            ValueView::Alternative(text)
                        },
                        tag: rest,
                        data: left,
                    },
                ),
                Err(e) => Err(e),
            }
        } else if letter == 'b' as u8 {
            match decode_blob(data) {
                Ok((blob, left)) => Ok(
                    Decoded { value: ValueView::Blob(blob), tag: rest, data: left },
                ),
                Err(e) => Err(e),
            }
        } else if letter == '[' as u8 {
            match decode_items(rest, data) {
                Ok(items) => Ok(
                    Decoded { value: ValueView::Array(items.value), tag: items.tag, data: items.data },
                ),
                Err(e) => Err(e),
            }
        } else if letter == ']' as u8 {
            Err(Error::IllegalStructure)
        } else {
            Err(Error::UnknownType(letter))
        }
    }
}

/// The value of a four-byte payload under the tag `letter`.
pub open spec fn decode_word(letter: u8, data: Seq<u8>) -> ValueView {
    if letter == 'c' as u8 {
        ValueView::Character(data[3] as char)
    } else if letter == 'i' as u8 {
        ValueView::Int32(from_be32(data) as i32)
    } else if letter == 'f' as u8 {
        ValueView::Float32(from_be32(data))
    } else if letter == 'r' as u8 {
        ValueView::Color(data.take(4))
    } else {
        ValueView::MidiMessage(data.take(4))
    }
}

/// The value of an eight-byte payload under the tag `letter`.
pub open spec fn decode_long(letter: u8, data: Seq<u8>) -> ValueView {
    if letter == 'h' as u8 {
        ValueView::Int64(from_be64(data) as i64)
    } else if letter == 'd' as u8 {
        ValueView::Float64(from_be64(data))
    } else {
        ValueView::TimeTag(from_be64(data))
    }
}

/// Decodes the items of an array, up to and including the `]` that closes
/// it.
pub open spec fn decode_items(tag: Seq<u8>, data: Seq<u8>) -> Result<
    Decoded<Seq<ValueView>>,
    Error,
>
    decreases tag.len(), 1nat,
{
    if tag.len() == 0 {
        Err(Error::IllegalStructure)
    } else if tag[0] == ']' as u8 {
        Ok(Decoded { value: Seq::empty(), tag: tag.skip(1), data })
    } else {
        match decode_value(tag, data) {
            Err(e) => Err(e),
            Ok(first) => if first.tag.len() >= tag.len() {
                Err(Error::IllegalStructure)
            } else {
                match decode_items(first.tag, first.data) {
                    Err(e) => Err(e),
                    Ok(more) => Ok(
                        Decoded {
                            value: seq![first.value] + more.value,
                            tag: more.tag,
                            data: more.data,
                        },
                    ),
                }
            },
        }
    }
}

/// Decodes values until the type tags are used up. Payload bytes that are
/// left then are ignored.
pub open spec fn decode_values(tag: Seq<u8>, data: Seq<u8>) -> Result<Seq<ValueView>, Error>
    decreases tag.len(), 1nat,
{
    if tag.len() == 0 {
        Ok(Seq::empty())
    } else {
        match decode_value(tag, data) {
            Err(e) => Err(e),
            Ok(first) => if first.tag.len() >= tag.len() {
                Err(Error::IllegalStructure)
            } else {
                match decode_values(first.tag, first.data) {
                    Err(e) => Err(e),
                    Ok(more) => Ok(seq![first.value] + more),
                }
            },
        }
    }
}

/// What the three sections of a message are, where its bytes divide.
pub struct Sections {
    pub address: Seq<char>,
    pub tag: Seq<u8>,
    pub data: Seq<u8>,
}

/// Divides the bytes of a message into its address, its type tags after the
/// leading `,`, and its payload bytes.
pub open spec fn split_sections(bytes: Seq<u8>) -> Result<Sections, Error> {
    let address_end = first_nul(bytes);
    let after_address = bytes.skip(aligned(address_end + 1) as int);
    let tag_end = first_nul(after_address);
    if bytes.len() % 4 != 0 {
        Err(Error::UnalignedData)
    } else if address_end >= bytes.len() {
        Err(Error::NotTerminated)
    } else if address_end == 0 || !valid_utf8(bytes.take(address_end as int)) || !is_address(
        decode_utf8(bytes.take(address_end as int)),
    ) {
        Err(Error::InvalidAddress)
    } else if tag_end >= after_address.len() {
        Err(Error::NotTerminated)
    } else if tag_end == 0 || after_address[0] != ',' as u8 || !is_ascii_bytes(
        after_address.take(tag_end as int),
    ) {
        Err(Error::InvalidTag)
    } else {
        Ok(
            Sections {
                address: decode_utf8(bytes.take(address_end as int)),
                tag: after_address.subrange(1, tag_end as int),
                data: after_address.skip(aligned(tag_end + 1) as int),
            },
        )
    }
}

/// Decodes a message: its length is a multiple of four; the address runs
/// to the first NUL and is a valid address; the type tags start at the next
/// multiple of four with `,`, are ASCII and run to the next NUL; the
/// payloads start at the next multiple of four and are read as the type
/// tags say.
pub open spec fn decode_message(bytes: Seq<u8>) -> Result<MessageView, Error> {
    match split_sections(bytes) {
        Err(e) => Err(e),
        Ok(sections) => match decode_values(sections.tag, sections.data) {
            Err(e) => Err(e),
            Ok(arguments) => Ok(MessageView { address: sections.address, arguments }),
        },
    }
}

/// `first` put before the items that `rest` decoded.
pub open spec fn items_after(
    first: Seq<ValueView>,
    rest: Result<Decoded<Seq<ValueView>>, Error>,
) -> Result<Decoded<Seq<ValueView>>, Error> {
    match rest {
        Err(e) => Err(e),
        Ok(more) => Ok(Decoded { value: first + more.value, tag: more.tag, data: more.data }),
    }
}

/// `first` put before the values that `rest` decoded.
pub open spec fn values_after(first: Seq<ValueView>, rest: Result<Seq<ValueView>, Error>) -> Result<
    Seq<ValueView>,
    Error,
> {
    match rest {
        Err(e) => Err(e),
        Ok(more) => Ok(first + more),
    }
}

/// Decoding a value uses up at least one type tag.
pub proof fn lemma_decode_value_consumes(tag: Seq<u8>, data: Seq<u8>)
    ensures
        decode_value(tag, data) matches Ok(found) ==> found.tag.len() < tag.len(),
    decreases tag.len(), 0nat,
{
    if tag.len() > 0 && tag[0] == '[' as u8 {
        lemma_decode_items_consumes(tag.skip(1), data);
    }
}

/// Decoding the items of an array uses up at least the closing `]`.
pub proof fn lemma_decode_items_consumes(tag: Seq<u8>, data: Seq<u8>)
    ensures
        decode_items(tag, data) matches Ok(found) ==> found.tag.len() < tag.len(),
    decreases tag.len(), 1nat,
{
    if tag.len() > 0 && tag[0] != ']' as u8 {
        lemma_decode_value_consumes(tag, data);
        if let Ok(first) = decode_value(tag, data) {
            lemma_decode_items_consumes(first.tag, first.data);
        }
    }
}

/// An OSC message: an address and the arguments for the method it names.
#[derive(Debug, PartialEq, Eq, Hash)]
pub struct Message {
    address: Address,
    arguments: Vec<Value>,
}

impl Clone for Message {
    fn clone(&self) -> (copy: Self)
        ensures
            copy@ == self@,
    {
        Message { address: self.address.clone(), arguments: clone_values(&self.arguments) }
    }
}

/// A copy of each of `values`.
pub fn clone_values(values: &Vec<Value>) -> (copies: Vec<Value>)
    ensures
        views_of(copies@) == views_of(values@),
{
    let mut copies: Vec<Value> = Vec::new();
    let mut i: usize = 0;
    while i < values.len()
        invariant
            i <= values@.len(),
            copies@.len() == i,
            forall|k: int| 0 <= k < i ==> (#[trigger] copies@[k])@ == values@[k]@,
        decreases values@.len() - i,
    {
        let copy = values[i].clone();
        copies.push(copy);
        i += 1;
    }
    proof {
        lemma_views_of(values@);
        lemma_views_of(copies@);
        assert(views_of(copies@) =~= views_of(values@));
    }
    copies
}

impl View for Message {
    type V = MessageView;

    closed spec fn view(&self) -> MessageView {
        MessageView { address: self.address@, arguments: views_of(self.arguments@) }
    }
}

impl Message {
    /// The address of the method.
    pub fn address(&self) -> (address: &Address)
        ensures
            address@ == self@.address,
    {
        &self.address
    }

    /// The arguments of the method.
    pub fn arguments(&self) -> (arguments: &[Value])
        ensures
            views_of(arguments@) == self@.arguments,
    {
        self.arguments.as_slice()
    }

    /// Gives up the message for its address and its arguments.
    pub fn split_into(self) -> (parts: (String, Vec<Value>))
        ensures
            parts.0@ == self@.address,
            is_address(parts.0@),
            views_of(parts.1@) == self@.arguments,
    {
        (self.address.into_string(), self.arguments)
    }

    /// The bytes of this message, without a length before them. A message
    /// with an argument that is not encodable is refused.
    pub fn serialize(self) -> (bytes: Result<Vec<u8>, Error>)
        ensures
            self@.encodable() ==> bytes is Ok && bytes->Ok_0@ == self@.wire(),
            !self@.encodable() ==> bytes == Err::<Vec<u8>, Error>(Error::Overflow),
    {
        self.encode()
    }

    /// The bytes of this message, which is left as it is.
    pub fn encode(&self) -> (bytes: Result<Vec<u8>, Error>)
        ensures
            self@.encodable() ==> bytes is Ok && bytes->Ok_0@ == self@.wire(),
            !self@.encodable() ==> bytes == Err::<Vec<u8>, Error>(Error::Overflow),
    {
        if !are_encodable(&self.arguments) {
            return Err(Error::Overflow);
        }
        let mut serialized_bytes: Vec<u8> = Vec::with_capacity(32);
        crate::data::append_terminated(&mut serialized_bytes, self.address.as_str().as_bytes());

        let mut type_tags = String::new();
        type_tags.push(',');
        push_type_tags(&self.arguments, &mut type_tags);
        assert(type_tags@ =~= self@.tag_text());
        crate::data::append_terminated(&mut serialized_bytes, type_tags.as_str().as_bytes());

        write_payloads(&self.arguments, &mut serialized_bytes);
        Ok(serialized_bytes)
    }

    /// Reads a message from its bytes.
    #[verifier::rlimit(50)]
    pub fn deserialize(bytes: &[u8]) -> (message: Result<Message, Error>)
        ensures
            match decode_message(bytes@) {
                Ok(decoded) => message is Ok && message->Ok_0@ == decoded,
                Err(e) => message == Err::<Message, Error>(e),
            },
    {
        let (address, tag, argument_bytes) = match Message::split_bytes(bytes) {
            Ok(sections) => sections,
            Err(e) => {
                return Err(e);
            },
        };
        let mut arguments: Vec<Value> = Vec::new();
        let mut rest_tag = tag;
        let mut rest_argument = argument_bytes;
        while rest_tag.len() > 0
            invariant
                split_sections(bytes@) == Ok::<Sections, Error>(
                    Sections { address: address@, tag: tag@, data: argument_bytes@ },
                ),
                decode_values(tag@, argument_bytes@) == values_after(
                    views_of(arguments@),
                    decode_values(rest_tag@, rest_argument@),
                ),
            decreases rest_tag@.len(),
        {
            proof {
                lemma_decode_value_consumes(rest_tag@, rest_argument@);
            }
            let ghost before = views_of(arguments@);
            let (argument, next_tag, next_argument) = match Message::parse_argument(
                rest_tag,
                rest_argument,
            ) {
                Ok(parsed) => parsed,
                Err(e) => {
                    return Err(e);
                },
            };
            proof {
                lemma_views_push(arguments@, argument);
                let more = decode_values(next_tag@, next_argument@);
                if let Ok(tail) = more {
                    assert(before + (seq![argument@] + tail) =~= before.push(argument@) + tail);
                }
            }
            rest_tag = next_tag;
            rest_argument = next_argument;
            arguments.push(argument);
        }
        proof {
            assert(views_of(arguments@) + Seq::<ValueView>::empty() =~= views_of(arguments@));
        }
        Ok(Message { address, arguments })
    }

    /// Divides the bytes of a message into its address, its type tags after
    /// the leading `,`, and its payload bytes.
    #[verifier::rlimit(50)]
    fn split_bytes(bytes: &[u8]) -> (sections: Result<(Address, &[u8], &[u8]), Error>)
        ensures
            match split_sections(bytes@) {
                Ok(found) => sections matches Ok((address, tag, data)) && address@ == found.address
                    && tag@ == found.tag && data@ == found.data,
                Err(e) => sections == Err::<(Address, &[u8], &[u8]), Error>(e),
            },
    {
        if bytes.len() % 4 != 0 {
            return Err(Error::UnalignedData);
        }
        assert(usize::MAX % 4 == 3);
        proof {
            lemma_first_nul(bytes@);
        }
        let address_end = match find_nul(bytes) {
            None => {
                return Err(Error::NotTerminated);
            },
            Some(at) => at,
        };
        if address_end == 0 {
            return Err(Error::InvalidAddress);
        }
        let address_text = match string_from_utf8(copy_range(bytes, 0, address_end)) {
            None => {
                return Err(Error::InvalidAddress);
            },
            Some(text) => text,
        };
        let address = match Address::new(address_text.as_str()) {
            Err(_) => {
                return Err(Error::InvalidAddress);
            },
            Ok(address) => address,
        };
        let address_aligned = Value::aligned_length(address_end + 1);

        let rest_bytes = slice_subrange(bytes, address_aligned, bytes.len());
        proof {
            lemma_first_nul(rest_bytes@);
        }
        let tag_end = match find_nul(rest_bytes) {
            None => {
                return Err(Error::NotTerminated);
            },
            Some(at) => at,
        };
        if tag_end == 0 {
            return Err(Error::InvalidTag);
        }
        if rest_bytes[0] != ',' as u8 || !is_ascii(slice_subrange(rest_bytes, 0, tag_end)) {
            return Err(Error::InvalidTag);
        }
        let tag_aligned = Value::aligned_length(tag_end + 1);
        let tag = slice_subrange(rest_bytes, 1, tag_end);
        let arguments_left = slice_subrange(rest_bytes, tag_aligned, rest_bytes.len());
        Ok((address, tag, arguments_left))
    }

    /// Reads the value that the first type tag announces, and hands back
    /// the type tags and the payload bytes after it.
    #[verifier::rlimit(50)]
    fn parse_argument<'t, 'a>(rest_tag: &'t [u8], rest_argument: &'a [u8]) -> (parsed: Result<
        (Value, &'t [u8], &'a [u8]),
        Error,
    >)
        ensures
            match decode_value(rest_tag@, rest_argument@) {
                Ok(found) => parsed matches Ok((value, tag, data)) && value@ == found.value && tag@
                    == found.tag && data@ == found.data,
                Err(e) => parsed == Err::<(Value, &'t [u8], &'a [u8]), Error>(e),
            },
        decreases rest_tag@.len(),
    {
        if rest_tag.len() == 0 {
            return Err(Error::IllegalStructure);
        }
        let letter = rest_tag[0];
        let next_tag = slice_subrange(rest_tag, 1, rest_tag.len());
        let size = rest_argument.len();
        if letter == 'N' as u8 {
            Ok((Value::Nil, next_tag, rest_argument))
        } else if letter == 'I' as u8 {
            Ok((Value::Infinitum, next_tag, rest_argument))
        } else if letter == 'T' as u8 {
            Ok((Value::Boolean(true), next_tag, rest_argument))
        } else if letter == 'F' as u8 {
            Ok((Value::Boolean(false), next_tag, rest_argument))
        } else if letter == 'c' as u8 || letter == 'i' as u8 || letter == 'f' as u8 || letter
            == 'r' as u8 || letter == 'm' as u8 {
            if size < 4 {
                return Err(Error::NotEnoughData);
            }
            let value = if letter == 'c' as u8 {
                Value::Character(rest_argument[3] as char)
            } else if letter == 'i' as u8 {
                Value::Int32(#[verifier::truncate] (u32_from_be_bytes(rest_argument) as i32))
            } else if letter == 'f' as u8 {
                Value::Float32(u32_from_be_bytes(rest_argument))
            } else {
                let quad = [
                    rest_argument[0],
                    rest_argument[1],
                    rest_argument[2],
                    rest_argument[3],
                ];
                assert(quad@ =~= rest_argument@.take(4));
                if letter == 'r' as u8 {
                    Value::Color(quad)
                } else {
                    Value::MidiMessage(quad)
                }
            };
            Ok((value, next_tag, slice_subrange(rest_argument, 4, size)))
        } else if letter == 'h' as u8 || letter == 'd' as u8 || letter == 't' as u8 {
            if size < 8 {
                return Err(Error::NotEnoughData);
            }
            let number = u64_from_be_bytes(rest_argument);
            let value = if letter == 'h' as u8 {
                Value::Int64(#[verifier::truncate] (number as i64))
            } else if letter == 'd' as u8 {
                Value::Float64(number)
            } else {
                Value::TimeTag(TimeTag(number))
            };
            Ok((value, next_tag, slice_subrange(rest_argument, 8, size)))
        } else if letter == 's' as u8 || letter == 'S' as u8 {
            if size < 4 {
                return Err(Error::NotEnoughData);
            }
            let first_nul = match find_nul(rest_argument) {
                None => {
                    return Err(Error::NotTerminated);
                },
                Some(at) => at,
            };
            let string = match string_from_utf8(copy_range(rest_argument, 0, first_nul)) {
                None => {
                    return Err(Error::InvalidAddress);
                },
                Some(text) => text,
            };
            if first_nul > usize::MAX - 4 {
                return Err(Error::NotEnoughData);
            }
            let string_aligned = Value::aligned_length(first_nul + 1);
            if string_aligned > size {
                return Err(Error::NotEnoughData);
            }
            let value = if letter == 's' as u8 {
                Value::String(string)
            } else {
                Value::Alternative(string)
            };
            Ok((value, next_tag, slice_subrange(rest_argument, string_aligned, size)))
        } else if letter == 'b' as u8 {
            if size < 4 {
                return Err(Error::NotEnoughData);
            }
            let claimed = u32_from_be_bytes(rest_argument);
            if claimed >= 0x8000_0000 {
                return Err(Error::NotEnoughData);
            }
            let length = claimed as usize;
            let aligned_length = Value::aligned_length(length);
            if size - 4 < aligned_length {
                return Err(Error::NotEnoughData);
            }
            let blob = copy_range(rest_argument, 4, length + 4);
            Ok((Value::Blob(blob), next_tag, slice_subrange(rest_argument, aligned_length + 4, size)))
        } else if letter == '[' as u8 {
            let mut values: Vec<Value> = Vec::new();
            let mut inner_rest_tag = next_tag;
            let mut inner_rest_argument = rest_argument;
            loop
                invariant
                    rest_tag@.len() > 0,
                    rest_tag@[0] == '[' as u8,
                    next_tag@ == rest_tag@.skip(1),
                    inner_rest_tag@.len() < rest_tag@.len(),
                    decode_items(next_tag@, rest_argument@) == items_after(
                        views_of(values@),
                        decode_items(inner_rest_tag@, inner_rest_argument@),
                    ),
                decreases inner_rest_tag@.len(),
            {
                if inner_rest_tag.len() == 0 {
                    return Err(Error::IllegalStructure);
                }
                if inner_rest_tag[0] == ']' as u8 {
                    proof {
                        assert(views_of(values@) + Seq::<ValueView>::empty() =~= views_of(
                            values@,
                        ));
                        lemma_views_of(values@);
                    }
                    return Ok(
                        (
                            Value::Array(values),
                            slice_subrange(inner_rest_tag, 1, inner_rest_tag.len()),
                            inner_rest_argument,
                        ),
                    );
                }
                proof {
                    lemma_decode_value_consumes(inner_rest_tag@, inner_rest_argument@);
                }
                let ghost before = views_of(values@);
                let (argument, after_tag, after_argument) = match Message::parse_argument(
                    inner_rest_tag,
                    inner_rest_argument,
                ) {
                    Ok(found) => found,
                    Err(e) => {
                        return Err(e);
                    },
                };
                proof {
                    lemma_views_push(values@, argument);
                    if let Ok(more) = decode_items(after_tag@, after_argument@) {
                        assert(before + (seq![argument@] + more.value) =~= before.push(argument@)
                            + more.value);
                    }
                }
                inner_rest_tag = after_tag;
                inner_rest_argument = after_argument;
                values.push(argument);
            }
        } else if letter == ']' as u8 {
            Err(Error::IllegalStructure)
        } else {
            Err(Error::UnknownType(letter))
        }
    }
}

/// Collects the parts of a message, and is used up when the message is
/// built.
#[derive(Debug)]
pub struct MessageBuilder {
    address: Address,
    arguments: Vec<Value>,
}

impl View for MessageBuilder {
    type V = MessageView;

    closed spec fn view(&self) -> MessageView {
        MessageView { address: self.address@, arguments: views_of(self.arguments@) }
    }
}

impl MessageBuilder {
    /// Starts a message for the method at `address`, with no arguments yet.
    pub fn new(address: &str) -> (builder: Result<MessageBuilder, Error>)
        ensures
            is_address(address@) ==> builder is Ok && builder->Ok_0@ == (MessageView {
                address: address@,
                arguments: Seq::empty(),
            }),
            !is_address(address@) ==> builder is Err && builder->Err_0 == Error::InvalidAddress,
    {
        match Address::new(address) {
            Ok(address) => Ok(MessageBuilder { address, arguments: Vec::new() }),
            Err(_) => Err(Error::InvalidAddress),
        }
    }

    /// The message made of what was collected.
    pub fn build(self) -> (message: Message)
        ensures
            message@ == self@,
    {
        Message { address: self.address, arguments: self.arguments }
    }

    /// Adds `argument` after the arguments collected so far.
    pub fn push_argument(self, argument: Value) -> (builder: MessageBuilder)
        ensures
            builder@ == (MessageView {
                address: self@.address,
                arguments: self@.arguments.push(argument@),
            }),
    {
        let mut builder = self;
        proof {
            lemma_views_push(builder.arguments@, argument);
        }
        builder.arguments.push(argument);
        builder
    }

    /// Puts `arguments` in place of the arguments collected so far.
    pub fn set_arguments(self, arguments: Vec<Value>) -> (builder: MessageBuilder)
        ensures
            builder@ == (MessageView { address: self@.address, arguments: views_of(arguments@) }),
    {
        let mut builder = self;
        builder.arguments = arguments;
        builder
    }
}

/// Whether every byte is below 128.
fn is_ascii(bytes: &[u8]) -> (yes: bool)
    ensures
        yes == is_ascii_bytes(bytes@),
{
    let mut i: usize = 0;
    while i < bytes.len()
        invariant
            i <= bytes@.len(),
            forall|k: int| 0 <= k < i ==> #[trigger] bytes@[k] < 0x80,
        decreases bytes@.len() - i,
    {
        if bytes[i] >= 0x80 {
            return false;
        }
        i += 1;
    }
    true
}

/// Whether the wire format has room for each of `arguments`.
fn are_encodable(arguments: &Vec<Value>) -> (yes: bool)
    ensures
        yes == all_encodable(views_of(arguments@)),
{
    proof {
        lemma_views_of(arguments@);
    }
    let mut i: usize = 0;
    while i < arguments.len()
        invariant
            i <= arguments@.len(),
            views_of(arguments@).len() == arguments@.len(),
            forall|k: int| 0 <= k < i ==> (#[trigger] views_of(arguments@)[k]).encodable(),
            forall|k: int|
                0 <= k < arguments@.len() ==> #[trigger] views_of(arguments@)[k] == arguments@[k]@,
        decreases arguments@.len() - i,
    {
        if !arguments[i].is_encodable() {
            assert(!views_of(arguments@)[i as int].encodable());
            return false;
        }
        i += 1;
    }
    true
}

/// Appends the type tags of `arguments` to `tag_string`.
fn push_type_tags(arguments: &Vec<Value>, tag_string: &mut String)
    ensures
        final(tag_string)@ == old(tag_string)@ + type_tags(views_of(arguments@)),
{
    proof {
        lemma_views_of(arguments@);
    }
    let ghost before = tag_string@;
    let mut i: usize = 0;
    while i < arguments.len()
        invariant
            i <= arguments@.len(),
            views_of(arguments@).len() == arguments@.len(),
            forall|k: int|
                0 <= k < arguments@.len() ==> #[trigger] views_of(arguments@)[k] == arguments@[k]@,
            tag_string@ == before + type_tags_upto(views_of(arguments@), i as nat),
        decreases arguments@.len() - i,
    {
        arguments[i].push_type_tag_to(tag_string);
        i += 1;
        assert(tag_string@ =~= before + type_tags_upto(views_of(arguments@), i as nat)) by {
            assert(views_of(arguments@)[i - 1] == arguments@[i - 1]@);
        }
    }
}

/// Appends the payloads of `arguments` to `buffer`.
fn write_payloads(arguments: &Vec<Value>, buffer: &mut Vec<u8>)
    requires
        all_encodable(views_of(arguments@)),
    ensures
        final(buffer)@ == old(buffer)@ + payloads(views_of(arguments@)),
{
    proof {
        lemma_views_of(arguments@);
    }
    let ghost before = buffer@;
    let mut i: usize = 0;
    while i < arguments.len()
        invariant
            i <= arguments@.len(),
            views_of(arguments@).len() == arguments@.len(),
            all_encodable(views_of(arguments@)),
            forall|k: int|
                0 <= k < arguments@.len() ==> #[trigger] views_of(arguments@)[k] == arguments@[k]@,
            buffer@ == before + payloads_upto(views_of(arguments@), i as nat),
        decreases arguments@.len() - i,
    {
        assert(views_of(arguments@)[i as int].encodable());
        arguments[i].write_payload(buffer);
        i += 1;
        assert(buffer@ =~= before + payloads_upto(views_of(arguments@), i as nat)) by {
            assert(views_of(arguments@)[i - 1] == arguments@[i - 1]@);
        }
    }
}

} // verus!
