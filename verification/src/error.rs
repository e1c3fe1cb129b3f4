//! Error kinds shared by every part of the codec.

use vstd::prelude::*;

verus! {

/// What can go wrong while building, encoding or decoding OSC data.
#[non_exhaustive]
#[derive(Debug, Clone, PartialEq, Eq, PartialOrd, Ord, Hash)]
pub enum Error {
    /// The address is empty, lacks its leading `/`, is not ASCII, or has an
    /// empty part or a reserved character.
    InvalidAddress,
    /// The address pattern does not follow the pattern grammar, or the
    /// expression made from it was refused; the text says why.
    InvalidPattern(String),
    /// The byte length is not a multiple of four.
    UnalignedData,
    /// A terminating NUL byte was expected and not found.
    NotTerminated,
    /// The type tag section is empty, does not start with `,` or is not ASCII.
    InvalidTag,
    /// The type tags are malformed: an unmatched bracket, or an early end.
    IllegalStructure,
    /// The type tag letter is not one this codec knows.
    UnknownType(u8),
    /// A value claims more payload bytes than are left.
    NotEnoughData,
    /// The bundle header is missing or short, or bundles nest too deeply.
    InvalidBundle,
    /// A value does not fit the field the wire format gives it: a character
    /// outside ASCII, or a length of 2^31 bytes or more.
    Overflow,
}

impl Error {
    /// The error's message.
    pub fn message(&self) -> (text: String)
        ensures
            text@ == self.message_text(),
    {
        match self {
            Error::InvalidAddress => "Invalid address".to_owned(),
            Error::InvalidPattern(reason) => "Invalid address pattern: ".to_owned().concat(
                reason.as_str(),
            ),
            Error::UnalignedData => "Bytes array not aligned".to_owned(),
            Error::NotTerminated => "String termination not found".to_owned(),
            Error::InvalidTag => "Invalid tag".to_owned(),
            Error::IllegalStructure => "Type tag structure is illegal".to_owned(),
            Error::UnknownType(byte) => "Unknown data type: ".to_owned().concat(
                decimal(*byte).as_str(),
            ),
            Error::NotEnoughData => "Not enough argument data".to_owned(),
            Error::InvalidBundle => "Invalid bundle".to_owned(),
            Error::Overflow => "Value does not fit its field".to_owned(),
        }
    }

    /// The message of each error kind.
    pub open spec fn message_text(&self) -> Seq<char> {
        match self {
            Error::InvalidAddress => "Invalid address"@,
            Error::InvalidPattern(reason) => "Invalid address pattern: "@ + reason@,
            Error::UnalignedData => "Bytes array not aligned"@,
            Error::NotTerminated => "String termination not found"@,
            Error::InvalidTag => "Invalid tag"@,
            Error::IllegalStructure => "Type tag structure is illegal"@,
            Error::UnknownType(byte) => "Unknown data type: "@ + decimal_digits(*byte as nat),
            Error::NotEnoughData => "Not enough argument data"@,
            Error::InvalidBundle => "Invalid bundle"@,
            Error::Overflow => "Value does not fit its field"@,
        }
    }
}

/// The decimal digits of `n`, most significant first, without leading zeros.
pub open spec fn decimal_digits(n: nat) -> Seq<char>
    decreases n,
{
    if n < 10 {
        seq![digit_char(n)]
    } else {
        decimal_digits(n / 10).push(digit_char(n % 10))
    }
}

/// The character of a single decimal digit.
pub open spec fn digit_char(d: nat) -> char
    recommends
        d < 10,
{
    (('0' as u8) + d) as char
}

/// Writes a byte in decimal.
fn decimal(byte: u8) -> (text: String)
    ensures
        text@ == decimal_digits(byte as nat),
{
    let mut text = String::new();
    if byte >= 100 {
        text = text.concat(digit_str(byte / 100));
    }
    if byte >= 10 {
        text = text.concat(digit_str((byte / 10) % 10));
    }
    text = text.concat(digit_str(byte % 10));
    proof {
        reveal_with_fuel(decimal_digits, 3);
        assert(text@ =~= decimal_digits(byte as nat));
    }
    text
}

/// The one-character string of a decimal digit.
fn digit_str(d: u8) -> (s: &'static str)
    requires
        d < 10,
    ensures
        s@ == seq![digit_char(d as nat)],
{
    proof {
        reveal_strlit("0");
        reveal_strlit("1");
        reveal_strlit("2");
        reveal_strlit("3");
        reveal_strlit("4");
        reveal_strlit("5");
        reveal_strlit("6");
        reveal_strlit("7");
        reveal_strlit("8");
        reveal_strlit("9");
    }
    let s = match d {
        0 => "0",
        1 => "1",
        2 => "2",
        3 => "3",
        4 => "4",
        5 => "5",
        6 => "6",
        7 => "7",
        8 => "8",
        _ => "9",
    };
    assert(s@ =~= seq![digit_char(d as nat)]);
    s
}

} // verus!
