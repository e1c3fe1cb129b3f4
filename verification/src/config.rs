//! The configuration of an avatar: its identifier, and its parameters with
//! the addresses under which they are sent and received.

use crate::text::same_text;
use vstd::prelude::*;
use vstd::utf8::{char_is_scalar, char_u32_cast, encode_scalar, encode_utf8};

verus! {

/// The type of the data behind a parameter address.
#[derive(Debug, Clone, Copy, PartialEq, Eq, PartialOrd, Ord, Hash)]
pub enum ParameterDataType {
    /// A boolean.
    Bool,
    /// An integer of eight unsigned bits.
    Int,
    /// A floating-point number.
    Float,
}

/// An address of a parameter, and the type of what travels under it.
#[derive(Debug, Clone, PartialEq, Eq, PartialOrd, Ord, Hash)]
pub struct ParameterAddress {
    /// The address; it should start with `/`.
    pub address: String,
    /// The type of the data, which the document calls `type`.
    pub parameter_type: ParameterDataType,
}

impl ParameterAddress {
    /// Whether the address starts with `/`, as every address should.
    pub fn starts_with_slash(&self) -> (yes: bool)
        ensures
            yes == (self.address@.len() > 0 && self.address@[0] == '/'),
    {
        let bytes = self.address.as_str().as_bytes();
        proof {
            lemma_first_byte(self.address@);
        }
        bytes.len() > 0 && bytes[0] == 0x2f
    }
}

/// Text is empty where its encoding is, and starts with `/` where its
/// encoding starts with the byte of `/`.
proof fn lemma_first_byte(text: Seq<char>)
    ensures
        (encode_utf8(text).len() > 0) == (text.len() > 0),
        text.len() > 0 ==> (encode_utf8(text)[0] == 0x2f) == (text[0] == '/'),
{
    if text.len() > 0 {
        let first = text[0] as u32;
        char_is_scalar(text[0]);
        let head = encode_scalar(first);
        assert(encode_utf8(text) == head + encode_utf8(text.drop_first()));
        assert(encode_utf8(text)[0] == head[0]);
        assert(first <= 0x7F ==> ((first & 0x7F) as u8 == 0x2f) == (first == 0x2f)) by (bit_vector);
        assert(0xC0u8 | ((first >> 6) & 0x1F) as u8 != 0x2f) by (bit_vector);
        assert(0xE0u8 | ((first >> 12) & 0x0F) as u8 != 0x2f) by (bit_vector);
        assert(0xF0u8 | ((first >> 18) & 0x7) as u8 != 0x2f) by (bit_vector);
        if first == 0x2f {
            char_u32_cast(text[0], 0x2fu32);
            char_u32_cast('/', 0x2fu32);
        }
        if text[0] == '/' {
            assert(first == 0x2f);
        }
    }
}

/// A parameter of an avatar.
#[derive(Debug, Clone, PartialEq, Eq, PartialOrd, Ord, Hash)]
pub struct Parameter {
    /// The name of the parameter.
    pub name: String,
    /// Where the avatar takes values for the parameter, if it takes any.
    pub input: Option<ParameterAddress>,
    /// Where the avatar reports the parameter.
    pub output: ParameterAddress,
}

/// The whole configuration of an avatar.
#[derive(Debug, Clone, PartialEq, Eq, PartialOrd, Ord, Hash)]
pub struct Configuration {
    /// The identifier of the avatar.
    pub id: String,
    /// The name of the avatar.
    pub name: String,
    /// The parameters, in the order of the document.
    pub parameters: Vec<Parameter>,
}

/// The place of the last of the first `n` parameters that is called `name`.
pub open spec fn last_named(parameters: Seq<Parameter>, name: Seq<char>, n: nat) -> Option<int>
    decreases n,
{
    if n == 0 || n > parameters.len() {
        None
    } else if parameters[n - 1].name@ == name {
        Some(n - 1)
    } else {
        last_named(parameters, name, (n - 1) as nat)
    }
}

/// What `last_named` finds is a parameter of that name, and none of that
/// name comes after it; it finds none only where there is none.
pub proof fn lemma_last_named(parameters: Seq<Parameter>, name: Seq<char>, n: nat)
    requires
        n <= parameters.len(),
    ensures
        match last_named(parameters, name, n) {
            Some(at) => 0 <= at < n && parameters[at].name@ == name && forall|i: int|
                at < i < n ==> (#[trigger] parameters[i]).name@ != name,
            None => forall|i: int| 0 <= i < n ==> (#[trigger] parameters[i]).name@ != name,
        },
    decreases n,
{
    if n > 0 && parameters[n - 1].name@ != name {
        lemma_last_named(parameters, name, (n - 1) as nat);
    }
}

impl Configuration {
    /// The place of the parameter called `name`: where several share the
    /// name, of the last of them.
    pub open spec fn position_of(&self, name: Seq<char>) -> Option<int> {
        last_named(self.parameters@, name, self.parameters@.len())
    }

    /// The parameter called `name`: where several share the name, the last
    /// of them.
    pub fn parameter(&self, name: &str) -> (found: Option<&Parameter>)
        ensures
            match self.position_of(name@) {
                Some(at) => found == Some(&self.parameters@[at]),
                None => found is None,
            },
    {
        let mut n: usize = self.parameters.len();
        while n > 0
            invariant
                n <= self.parameters@.len(),
                self.position_of(name@) == last_named(self.parameters@, name@, n as nat),
            decreases n,
        {
            if same_text(self.parameters[n - 1].name.as_str(), name) {
                return Some(&self.parameters[n - 1]);
            }
            n -= 1;
        }
        None
    }

    /// The address under which the avatar takes values for the parameter
    /// called `name`, where there is such a parameter and it takes any.
    pub fn input_address(&self, name: &str) -> (found: Option<&ParameterAddress>)
        ensures
            match self.position_of(name@) {
                Some(at) => match self.parameters@[at].input {
                    Some(input) => found == Some(&input),
                    None => found is None,
                },
                None => found is None,
            },
    {
        match self.parameter(name) {
            Some(parameter) => match &parameter.input {
                Some(input) => Some(input),
                None => None,
            },
            None => None,
        }
    }
}

} // verus!
