//! Argument values: the tagged union over the OSC types, its type tags and
//! its payload bytes.

use crate::error::Error;
use crate::wire::{
    aligned, append_bytes, be32, be64, lemma_aligned_bounds, lemma_padded_length, padded,
    terminated, u32_to_be_bytes, u64_to_be_bytes, zeros,
};
use vstd::prelude::*;
use vstd::utf8::encode_utf8;

verus! {

/// A 64-bit NTP time tag. The codec carries it and does not interpret it;
/// the value 1 stands for "immediately".
#[derive(Debug, Clone, Copy, PartialEq, Eq, PartialOrd, Ord, Hash, Default)]
pub struct TimeTag(pub u64);

/// One argument of a message.
///
/// The two floating-point variants hold the IEEE-754 bit pattern of their
/// number, which is what travels on the wire. Two values are equal when
/// they are the same variant and hold the same bits.
#[derive(Debug, PartialEq, Eq, Hash)]
pub enum Value {
    /// Nil, tag `N`; no payload.
    Nil,
    /// Infinitum, tag `I`; no payload.
    Infinitum,
    /// A boolean, tag `T` or `F`; no payload.
    Boolean(bool),
    /// An ASCII character, tag `c`.
    Character(char),
    /// A 32-bit integer, tag `i`.
    Int32(i32),
    /// A 64-bit integer, tag `h`.
    Int64(i64),
    /// The bits of a 32-bit float, tag `f`.
    Float32(u32),
    /// The bits of a 64-bit float, tag `d`.
    Float64(u64),
    /// A colour as red, green, blue, alpha; tag `r`.
    Color([u8; 4]),
    /// A MIDI message as port id, status byte, data 1, data 2; tag `m`.
    MidiMessage([u8; 4]),
    /// A time tag, tag `t`.
    TimeTag(TimeTag),
    /// A string, tag `s`.
    String(String),
    /// A string in its alternative form, tag `S`.
    Alternative(String),
    /// A blob of bytes, tag `b`.
    Blob(Vec<u8>),
    /// An array of values, tags `[` and `]` around those of its items.
    Array(Vec<Value>),
}

impl Clone for Value {
    fn clone(&self) -> (copy: Self)
        ensures
            copy@ == self@,
        decreases self,
    {
        match self {
            Value::Nil => Value::Nil,
            Value::Infinitum => Value::Infinitum,
            Value::Boolean(b) => Value::Boolean(*b),
            Value::Character(c) => Value::Character(*c),
            Value::Int32(x) => Value::Int32(*x),
            Value::Int64(x) => Value::Int64(*x),
            Value::Float32(bits) => Value::Float32(*bits),
            Value::Float64(bits) => Value::Float64(*bits),
            Value::Color(c) => Value::Color(*c),
            Value::MidiMessage(m) => Value::MidiMessage(*m),
            Value::TimeTag(t) => Value::TimeTag(*t),
            Value::String(s) => Value::String(s.clone()),
            Value::Alternative(s) => Value::Alternative(s.clone()),
            Value::Blob(b) => {
                let mut copy: Vec<u8> = Vec::new();
                append_bytes(&mut copy, b.as_slice());
                assert(copy@ =~= b@);
                Value::Blob(copy)
            },
            Value::Array(values) => {
                let mut copies: Vec<Value> = Vec::new();
                let mut i: usize = 0;
                while i < values.len()
                    invariant
                        i <= values@.len(),
                        decreases_to!(self => values),
                        copies@.len() == i,
                        forall|k: int| 0 <= k < i ==> (#[trigger] copies@[k])@ == values@[k]@,
                    decreases values@.len() - i,
                {
                    proof {
                        vstd::std_specs::vec::axiom_vec_index_decreases(*values, i as int);
                    }
                    let copy = values[i].clone();
                    copies.push(copy);
                    i += 1;
                }
                proof {
                    lemma_views_of(values@);
                    lemma_views_of(copies@);
                    assert(views_of(copies@) =~= views_of(values@));
                }
                Value::Array(copies)
            },
        }
    }
}

/// What a `Value` holds, as mathematical data.
pub enum ValueView {
    Nil,
    Infinitum,
    Boolean(bool),
    Character(char),
    Int32(i32),
    Int64(i64),
    Float32(u32),
    Float64(u64),
    Color(Seq<u8>),
    MidiMessage(Seq<u8>),
    TimeTag(u64),
    String(Seq<char>),
    Alternative(Seq<char>),
    Blob(Seq<u8>),
    Array(Seq<ValueView>),
}

impl View for Value {
    type V = ValueView;

    open spec fn view(&self) -> ValueView
        decreases self,
    {
        match self {
            Value::Nil => ValueView::Nil,
            Value::Infinitum => ValueView::Infinitum,
            Value::Boolean(b) => ValueView::Boolean(*b),
            Value::Character(c) => ValueView::Character(*c),
            Value::Int32(x) => ValueView::Int32(*x),
            Value::Int64(x) => ValueView::Int64(*x),
            Value::Float32(bits) => ValueView::Float32(*bits),
            Value::Float64(bits) => ValueView::Float64(*bits),
            Value::Color(c) => ValueView::Color(c@),
            Value::MidiMessage(m) => ValueView::MidiMessage(m@),
            Value::TimeTag(t) => ValueView::TimeTag(t.0),
            Value::String(s) => ValueView::String(s@),
            Value::Alternative(s) => ValueView::Alternative(s@),
            Value::Blob(b) => ValueView::Blob(b@),
            Value::Array(items) => ValueView::Array(views_upto(items@, items@.len())),
        }
    }
}

impl Value {
    /// Rounds a length up to a multiple of four.
    pub fn aligned_length(length: usize) -> (rounded: usize)
        requires
            length <= usize::MAX - 3,
        ensures
            rounded == aligned(length as nat),
            rounded % 4 == 0,
            length <= rounded <= length + 3,
    {
        let rest: usize = length % 4;
        if rest == 0 {
            length
        } else {
            let rounded: usize = length + (4 - rest);
            assert(rounded % 4 == 0) by {
                lemma_aligned_bounds(length as nat);
            }
            rounded
        }
    }

    /// Appends zero bytes until the length is a multiple of four. It adds no
    /// terminating NUL of its own.
    pub fn align_bytes(bytes: &mut Vec<u8>)
        ensures
            final(bytes)@ == padded(old(bytes)@),
    {
        let ghost before = bytes@;
        while bytes.len() % 4 != 0
            invariant
                before.len() <= bytes@.len() <= aligned(before.len()),
                bytes@ == before + zeros((bytes@.len() - before.len()) as nat),
            decreases aligned(before.len()) - bytes@.len(),
        {
            bytes.push(0);
        }
    }

    /// Appends the type tag letters of this value to `tag_string`: for an
    /// array `[`, the letters of its items, and `]`.
    pub fn push_type_tag_to(&self, tag_string: &mut String)
        ensures
            final(tag_string)@ == old(tag_string)@ + self@.type_tag(),
        decreases self,
    {
        match self {
            Value::Nil => tag_string.push('N'),
            Value::Infinitum => tag_string.push('I'),
            Value::Boolean(true) => tag_string.push('T'),
            Value::Boolean(false) => tag_string.push('F'),
            Value::Character(_) => tag_string.push('c'),
            Value::Int32(_) => tag_string.push('i'),
            Value::Int64(_) => tag_string.push('h'),
            Value::Float32(_) => tag_string.push('f'),
            Value::Float64(_) => tag_string.push('d'),
            Value::Color(_) => tag_string.push('r'),
            Value::MidiMessage(_) => tag_string.push('m'),
            Value::TimeTag(_) => tag_string.push('t'),
            Value::String(_) => tag_string.push('s'),
            Value::Alternative(_) => tag_string.push('S'),
            Value::Blob(_) => tag_string.push('b'),
            Value::Array(values) => {
                tag_string.push('[');
                let ghost opened = tag_string@;
                let mut i: usize = 0;
                while i < values.len()
                    invariant
                        i <= values@.len(),
                        decreases_to!(self => values),
                        tag_string@ == opened + type_tags_upto(views_of(values@), i as nat),
                    decreases values@.len() - i,
                {
                    proof {
                        lemma_views_of(values@);
                        vstd::std_specs::vec::axiom_vec_index_decreases(*values, i as int);
                    }
                    values[i].push_type_tag_to(tag_string);
                    i += 1;
                }
                tag_string.push(']');
                proof {
                    lemma_views_of(values@);
                    assert(views_of(values@) == self@->Array_0);
                }
            },
        }
    }
}

impl Value {
    /// Whether the wire format has room for this value.
    #[verifier::rlimit(50)]
    pub fn is_encodable(&self) -> (yes: bool)
        ensures
            yes == self@.encodable(),
        decreases self,
    {
        match self {
            Value::Character(c) => (*c as u32) < 128,
            Value::Blob(b) => b.len() < 0x8000_0000,
            Value::Array(values) => {
                let mut i: usize = 0;
                while i < values.len()
                    invariant
                        i <= values@.len(),
                        decreases_to!(self => values),
                        self@ == ValueView::Array(views_of(values@)),
                        forall|k: int| 0 <= k < i ==> (#[trigger] values@[k])@.encodable(),
                    decreases values@.len() - i,
                {
                    proof {
                        vstd::std_specs::vec::axiom_vec_index_decreases(*values, i as int);
                    }
                    if !values[i].is_encodable() {
                        proof {
                            lemma_views_of(values@);
                            lemma_array_encodable(views_of(values@));
                            assert(views_of(values@)[i as int] == values@[i as int]@);
                        }
                        return false;
                    }
                    i += 1;
                }
                proof {
                    lemma_views_of(values@);
                    lemma_array_encodable(views_of(values@));
                    assert forall|k: int| 0 <= k < views_of(values@).len() implies (
                    #[trigger] views_of(values@)[k]).encodable() by {
                        assert(values@[k]@.encodable());
                    }
                }
                true
            },
            _ => true,
        }
    }

    /// Appends the payload bytes of this value to `buffer`.
    #[verifier::rlimit(50)]
    pub(crate) fn write_payload(&self, buffer: &mut Vec<u8>)
        requires
            self@.encodable(),
        ensures
            final(buffer)@ == old(buffer)@ + self@.payload(),
        decreases self,
    {
        match self {
            Value::Nil => {},
            Value::Infinitum => {},
            Value::Boolean(_) => {},
            Value::Character(c) => append_bytes(buffer, u32_to_be_bytes(*c as u32).as_slice()),
            Value::Int32(x) => append_bytes(
                buffer,
                u32_to_be_bytes(#[verifier::truncate] (*x as u32)).as_slice(),
            ),
            Value::Int64(x) => append_bytes(
                buffer,
                u64_to_be_bytes(#[verifier::truncate] (*x as u64)).as_slice(),
            ),
            Value::Float32(bits) => append_bytes(buffer, u32_to_be_bytes(*bits).as_slice()),
            Value::Float64(bits) => append_bytes(buffer, u64_to_be_bytes(*bits).as_slice()),
            Value::Color(c) => append_bytes(buffer, c.as_slice()),
            Value::MidiMessage(m) => append_bytes(buffer, m.as_slice()),
            Value::TimeTag(t) => append_bytes(buffer, u64_to_be_bytes(t.0).as_slice()),
            Value::String(s) => append_terminated(buffer, s.as_str().as_bytes()),
            Value::Alternative(s) => append_terminated(buffer, s.as_str().as_bytes()),
            Value::Blob(b) => {
                append_bytes(buffer, u32_to_be_bytes(b.len() as u32).as_slice());
                let mut data: Vec<u8> = Vec::new();
                append_bytes(&mut data, b.as_slice());
                Value::align_bytes(&mut data);
                append_bytes(buffer, data.as_slice());
                assert(buffer@ =~= old(buffer)@ + self@.payload());
            },
            Value::Array(values) => {
                let ghost before = buffer@;
                let mut i: usize = 0;
                while i < values.len()
                    invariant
                        i <= values@.len(),
                        decreases_to!(self => values),
                        self@ == ValueView::Array(views_of(values@)),
                        self@.encodable(),
                        buffer@ == before + payloads_upto(views_of(values@), i as nat),
                    decreases values@.len() - i,
                {
                    proof {
                        lemma_views_of(values@);
                        lemma_array_encodable(views_of(values@));
                        vstd::std_specs::vec::axiom_vec_index_decreases(*values, i as int);
                        assert(views_of(values@)[i as int].encodable());
                        assert(views_of(values@)[i as int] == values@[i as int]@);
                    }
                    values[i].write_payload(buffer);
                    i += 1;
                    assert(buffer@ =~= before + payloads_upto(views_of(values@), i as nat));
                }
                proof {
                    lemma_views_of(values@);
                }
            },
        }
    }

    /// Appends the payload bytes of this value to `buffer`: big-endian
    /// numbers, strings and blobs padded with zero bytes to a multiple of
    /// four, nothing for the values that are their tag alone. A value
    /// that is not encodable is refused, and `buffer` stays as it was.
    pub fn write_aligned_into(self, buffer: &mut Vec<u8>) -> (done: Result<(), Error>)
        ensures
            self@.encodable() ==> done is Ok && final(buffer)@ == old(buffer)@ + self@.payload(),
            !self@.encodable() ==> done == Err::<(), Error>(Error::Overflow) && final(buffer)@
                == old(buffer)@,
    {
        if self.is_encodable() {
            self.write_payload(buffer);
            Ok(())
        } else {
            Err(Error::Overflow)
        }
    }
}

/// Appends `bytes`, a NUL byte and zero padding to a multiple of four.
pub fn append_terminated(buffer: &mut Vec<u8>, bytes: &[u8])
    ensures
        final(buffer)@ == old(buffer)@ + terminated(bytes@),
{
    let mut data: Vec<u8> = Vec::new();
    append_bytes(&mut data, bytes);
    data.push(0);
    Value::align_bytes(&mut data);
    append_bytes(buffer, data.as_slice());
}

/// An array is encodable exactly when each of its items is.
pub proof fn lemma_array_encodable(items: Seq<ValueView>)
    ensures
        ValueView::Array(items).encodable() <==> all_encodable(items),
{
    lemma_encodable_upto(items, items.len());
}

proof fn lemma_encodable_upto(items: Seq<ValueView>, n: nat)
    requires
        n <= items.len(),
    ensures
        encodable_upto(items, n) <==> forall|i: int|
            0 <= i < n ==> (#[trigger] items[i]).encodable(),
    decreases n,
{
    if n > 0 {
        lemma_encodable_upto(items, (n - 1) as nat);
        assert(encodable_upto(items, n) == (encodable_upto(items, (n - 1) as nat) && items[n
            - 1].encodable()));
    }
}

/// The view of a sequence of values has their views, one for one.
pub proof fn lemma_views_of(items: Seq<Value>)
    ensures
        views_of(items).len() == items.len(),
        forall|i: int| 0 <= i < items.len() ==> #[trigger] views_of(items)[i] == items[i]@,
{
    lemma_views_upto(items, items.len());
}

/// One more value at the end is one more view at the end.
pub proof fn lemma_views_push(items: Seq<Value>, last: Value)
    ensures
        views_of(items.push(last)) == views_of(items).push(last@),
{
    lemma_views_of(items);
    lemma_views_of(items.push(last));
    assert(views_of(items.push(last)) =~= views_of(items).push(last@));
}

proof fn lemma_views_upto(items: Seq<Value>, n: nat)
    requires
        n <= items.len(),
    ensures
        views_upto(items, n).len() == n,
        forall|i: int| 0 <= i < n ==> #[trigger] views_upto(items, n)[i] == items[i]@,
    decreases n,
{
    if n > 0 {
        lemma_views_upto(items, (n - 1) as nat);
        assert(views_upto(items, n) == views_upto(items, (n - 1) as nat).push(items[n - 1]@));
    }
}

/// The views of the first `n` of `items`.
pub open spec fn views_upto(items: Seq<Value>, n: nat) -> Seq<ValueView>
    decreases items, n,
{
    if n == 0 || n > items.len() {
        Seq::empty()
    } else {
        views_upto(items, (n - 1) as nat).push(items[n - 1]@)
    }
}

/// The views of `items`, in order.
pub open spec fn views_of(items: Seq<Value>) -> Seq<ValueView> {
    views_upto(items, items.len())
}

impl ValueView {
    /// The type tag letters of this value: one letter, or for an array the
    /// letters of its items between `[` and `]`.
    pub open spec fn type_tag(self) -> Seq<char>
        decreases self,
    {
        match self {
            ValueView::Nil => seq!['N'],
            ValueView::Infinitum => seq!['I'],
            ValueView::Boolean(b) => if b {
                seq!['T']
            } else {
                seq!['F']
            },
            ValueView::Character(_) => seq!['c'],
            ValueView::Int32(_) => seq!['i'],
            ValueView::Int64(_) => seq!['h'],
            ValueView::Float32(_) => seq!['f'],
            ValueView::Float64(_) => seq!['d'],
            ValueView::Color(_) => seq!['r'],
            ValueView::MidiMessage(_) => seq!['m'],
            ValueView::TimeTag(_) => seq!['t'],
            ValueView::String(_) => seq!['s'],
            ValueView::Alternative(_) => seq!['S'],
            ValueView::Blob(_) => seq!['b'],
            ValueView::Array(items) => seq!['['] + type_tags_upto(items, items.len()) + seq![']'],
        }
    }

    /// The payload bytes of this value. The tag-only values have none; a
    /// string is NUL-terminated and padded; a blob is its length in four
    /// bytes and its padded data; an array is the payloads of its items.
    pub open spec fn payload(self) -> Seq<u8>
        decreases self,
    {
        match self {
            ValueView::Nil => Seq::empty(),
            ValueView::Infinitum => Seq::empty(),
            ValueView::Boolean(_) => Seq::empty(),
            ValueView::Character(c) => be32(c as u32),
            ValueView::Int32(x) => be32(x as u32),
            ValueView::Int64(x) => be64(x as u64),
            ValueView::Float32(bits) => be32(bits),
            ValueView::Float64(bits) => be64(bits),
            ValueView::Color(c) => c,
            ValueView::MidiMessage(m) => m,
            ValueView::TimeTag(t) => be64(t),
            ValueView::String(s) => terminated(encode_utf8(s)),
            ValueView::Alternative(s) => terminated(encode_utf8(s)),
            ValueView::Blob(b) => be32(b.len() as u32) + padded(b),
            ValueView::Array(items) => payloads_upto(items, items.len()),
        }
    }

    /// Whether the wire format has room for this value: a character is
    /// ASCII, a blob is shorter than 2^31 bytes, a colour and a MIDI message
    /// have four bytes, and the items of an array are encodable themselves.
    pub open spec fn encodable(self) -> bool
        decreases self,
    {
        match self {
            ValueView::Character(c) => (c as u32) < 128,
            ValueView::Color(c) => c.len() == 4,
            ValueView::MidiMessage(m) => m.len() == 4,
            ValueView::Blob(b) => b.len() < 0x8000_0000,
            ValueView::Array(items) => encodable_upto(items, items.len()),
            _ => true,
        }
    }
}

impl ValueView {
    /// How many payload bytes this value has: none for the values that are
    /// their tag alone, four or eight for the numbers, the characters, the
    /// colours and the MIDI messages, the padded length of a string with its
    /// NUL, four and the padded length of a blob, and for an array the sum
    /// over its items.
    pub open spec fn payload_length(self) -> nat
        decreases self,
    {
        match self {
            ValueView::Nil => 0,
            ValueView::Infinitum => 0,
            ValueView::Boolean(_) => 0,
            ValueView::Character(_) => 4,
            ValueView::Int32(_) => 4,
            ValueView::Int64(_) => 8,
            ValueView::Float32(_) => 4,
            ValueView::Float64(_) => 8,
            ValueView::Color(_) => 4,
            ValueView::MidiMessage(_) => 4,
            ValueView::TimeTag(_) => 8,
            ValueView::String(s) => aligned(encode_utf8(s).len() + 1),
            ValueView::Alternative(s) => aligned(encode_utf8(s).len() + 1),
            ValueView::Blob(b) => 4 + aligned(b.len()),
            ValueView::Array(items) => payload_lengths_upto(items, items.len()),
        }
    }
}

/// The payload lengths of the first `n` of `items`, added up.
pub open spec fn payload_lengths_upto(items: Seq<ValueView>, n: nat) -> nat
    decreases items, n,
{
    if n == 0 || n > items.len() {
        0
    } else {
        payload_lengths_upto(items, (n - 1) as nat) + items[n - 1].payload_length()
    }
}

/// The payload of an encodable value has the length that its type gives it,
/// and that is a multiple of four.
pub proof fn lemma_payload_length(value: ValueView)
    requires
        value.encodable(),
    ensures
        value.payload().len() == value.payload_length(),
        value.payload().len() % 4 == 0,
    decreases value,
{
    match value {
        ValueView::String(s) => {
            lemma_padded_length(encode_utf8(s).push(0u8));
        },
        ValueView::Alternative(s) => {
            lemma_padded_length(encode_utf8(s).push(0u8));
        },
        ValueView::Blob(b) => {
            lemma_padded_length(b);
        },
        ValueView::Array(items) => {
            lemma_payloads_length(items, items.len());
        },
        _ => {},
    }
}

/// The payloads of encodable values have the summed length that their
/// types give them, and that is a multiple of four.
pub proof fn lemma_payloads_length(items: Seq<ValueView>, n: nat)
    requires
        n <= items.len(),
        encodable_upto(items, n),
    ensures
        payloads_upto(items, n).len() == payload_lengths_upto(items, n),
        payloads_upto(items, n).len() % 4 == 0,
    decreases items, n,
{
    if n > 0 {
        lemma_payloads_length(items, (n - 1) as nat);
        lemma_payload_length(items[n - 1]);
    }
}

/// The type tags of the first `n` of `items`, one after the other.
pub open spec fn type_tags_upto(items: Seq<ValueView>, n: nat) -> Seq<char>
    decreases items, n,
{
    if n == 0 || n > items.len() {
        Seq::empty()
    } else {
        type_tags_upto(items, (n - 1) as nat) + items[n - 1].type_tag()
    }
}

/// The type tags of `items`, one after the other.
pub open spec fn type_tags(items: Seq<ValueView>) -> Seq<char> {
    type_tags_upto(items, items.len())
}

/// The payloads of the first `n` of `items`, one after the other.
pub open spec fn payloads_upto(items: Seq<ValueView>, n: nat) -> Seq<u8>
    decreases items, n,
{
    if n == 0 || n > items.len() {
        Seq::empty()
    } else {
        payloads_upto(items, (n - 1) as nat) + items[n - 1].payload()
    }
}

/// The payloads of `items`, one after the other.
pub open spec fn payloads(items: Seq<ValueView>) -> Seq<u8> {
    payloads_upto(items, items.len())
}

/// Whether each of the first `n` of `items` is encodable.
pub open spec fn encodable_upto(items: Seq<ValueView>, n: nat) -> bool
    decreases items, n,
{
    if n == 0 || n > items.len() {
        true
    } else {
        encodable_upto(items, (n - 1) as nat) && items[n - 1].encodable()
    }
}

/// Whether each of `items` is encodable.
pub open spec fn all_encodable(items: Seq<ValueView>) -> bool {
    forall|i: int| 0 <= i < items.len() ==> (#[trigger] items[i]).encodable()
}

} // verus!
