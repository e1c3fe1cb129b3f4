//! A clock for an avatar: the decisions of a sender that asks scripts for
//! values of the time of day and sends them as messages.
//!
//! A script number with a fraction is held as the bits of its IEEE-754
//! 64-bit form; turning it into another number is left to the caller.

use crate::address::{is_address, Address};
use crate::data::{Value, ValueView};
use crate::error::Error;
use crate::packet::message::{Message, MessageBuilder, MessageView};
use crate::text::{same_text, split_on, split_text, texts_of, to_chars};
use vstd::prelude::*;
use vstd::string::StringExecFns;

verus! {

/// The most scripts that one run takes.
pub const MAX_SCRIPTS: usize = 16;

/// What can go wrong in the decisions of the sender.
#[derive(Debug, Clone, PartialEq, Eq)]
pub enum ClockError {
    /// No script was given.
    NoScripts,
    /// More scripts were given than one run takes; the number says how
    /// many.
    TooManyScripts(usize),
    /// The name is none of a target type.
    InvalidTargetType(String),
    /// The script value cannot become a number.
    InvalidConversion,
    /// A part is not three fields with `,` between them, as in
    /// `/path/to/part,abs,60`.
    InvalidPartFormat,
    /// The address of a part is no valid address.
    InvalidAddress,
    /// The format of a part is neither of the two that there are.
    InvalidFormatType,
    /// The number of a part is none that its format takes.
    InvalidNumber,
    /// A part in absolute format lacks its divider.
    MissingDivider,
    /// A part in relative format lacks its greatest value.
    MissingMaxValue,
}

/// The time of day and the day of the year, as a script sees them.
#[derive(Debug, Clone, Copy, PartialEq, Eq, PartialOrd, Ord, Hash)]
pub struct LuaDateTime {
    pub hour: u8,
    pub minute: u8,
    pub second: u8,
    pub month: u8,
    pub day: u8,
}

/// The type as which a value is sent.
#[derive(Debug, Clone, Copy, PartialEq, Eq, PartialOrd, Ord, Hash)]
pub enum TargetType {
    /// The value is sent as an integer.
    Int,
    /// The value is sent as a float.
    Float,
}

/// A value that a script hands back.
#[derive(Debug, Clone, Copy, PartialEq, Eq)]
pub enum ScriptValue {
    /// A whole number.
    Integer(i64),
    /// The bits of a number with a fraction.
    Number(u64),
    /// Anything else.
    Other,
}

/// How a script value becomes an argument.
#[derive(Debug, Clone, Copy, PartialEq, Eq)]
pub enum Conversion {
    /// The argument is this integer: a whole number, cut to 32 bits.
    Int32(i32),
    /// The argument is the float nearest to this whole number.
    FloatOfInteger(i64),
    /// The argument is the 32-bit float nearest to the number of these
    /// bits.
    FloatOfNumber(u64),
    /// The argument is the integer that the number of these bits is cut
    /// to.
    IntOfNumber(u64),
}

/// A script's element: where its value is sent, as what, and which
/// function gives the value.
#[derive(Debug, Clone)]
pub struct ConversionElement {
    /// The address to send to.
    pub address: String,
    /// The type as which the value is sent, if the script says.
    pub value_type: Option<TargetType>,
    /// The name under which the function of the element is kept.
    pub value_function_name: String,
}

/// How the value of a part of the time is expressed.
#[derive(Debug, Clone, Copy, PartialEq, Eq)]
pub enum ValueFormat {
    /// As a whole number from zero up to, and without, the given one.
    Absolute(u8),
    /// As a fraction from zero up to, and without, the number of the given
    /// bits, which is one at most.
    Relative(u32),
}

/// A part of the time: where it is sent, and how it is expressed.
#[derive(Debug, Clone, PartialEq, Eq)]
pub struct DateTimePart {
    /// The address to send to.
    pub target_address: Address,
    /// The format of the value.
    pub format: ValueFormat,
}

/// A part as a configuration file describes it.
#[derive(Debug, Clone, PartialEq, Eq)]
pub struct PartsConfigTable {
    pub address: String,
    pub format: String,
    /// The bits of the greatest value, for the relative format.
    pub max_value: Option<u32>,
    /// The divider, for the absolute format.
    pub divider: Option<u8>,
}

/// The parts that a configuration file describes.
#[derive(Debug, Clone, PartialEq, Eq)]
pub struct PartsConfig {
    pub hour: Option<PartsConfigTable>,
    pub minute: Option<PartsConfigTable>,
    pub second: Option<PartsConfigTable>,
    pub month: Option<PartsConfigTable>,
    pub day: Option<PartsConfigTable>,
}

/// A part read from its three fields, as far as whole numbers go.
#[derive(Debug, Clone, PartialEq, Eq)]
pub enum PartRequest {
    /// The part, in absolute format.
    Ready(DateTimePart),
    /// A part in relative format: its address, and the text of its number,
    /// which is left for the caller to read.
    Relative { target_address: Address, amount: String },
}

/// What a `PartRequest` holds, as mathematical data.
pub enum PartRequestView {
    Ready { address: Seq<char>, format: ValueFormat },
    Relative { address: Seq<char>, amount: Seq<char> },
}

impl View for PartRequest {
    type V = PartRequestView;

    open spec fn view(&self) -> PartRequestView {
        match self {
            PartRequest::Ready(part) => PartRequestView::Ready {
                address: part.target_address@,
                format: part.format,
            },
            PartRequest::Relative { target_address, amount } => PartRequestView::Relative {
                address: target_address@,
                amount: amount@,
            },
        }
    }
}

/// Whether `c` is a decimal digit.
pub open spec fn is_digit(c: char) -> bool {
    '0' <= c <= '9'
}

/// The number that the decimal digits `digits` write.
pub open spec fn decimal_value(digits: Seq<char>) -> nat
    decreases digits.len(),
{
    if digits.len() == 0 {
        0
    } else {
        decimal_value(digits.drop_last()) * 10 + (digits.last() as u32 - '0' as u32) as nat
    }
}

/// Whether `digits` holds decimal digits only.
pub open spec fn all_digits(digits: Seq<char>) -> bool {
    forall|i: int| 0 <= i < digits.len() ==> is_digit(#[trigger] digits[i])
}

/// `text` without the `+` that it may start with.
pub open spec fn unsigned_part(text: Seq<char>) -> Seq<char> {
    if text.len() > 0 && text[0] == '+' {
        text.skip(1)
    } else {
        text
    }
}

/// The number below 256 that `text` writes in decimal: digits, one at
/// least, after a `+` or after nothing.
pub open spec fn small_number(text: Seq<char>) -> Option<u8> {
    let digits = unsigned_part(text);
    if digits.len() > 0 && all_digits(digits) && decimal_value(digits) < 256 {
        Some(decimal_value(digits) as u8)
    } else {
        None
    }
}

/// More digits do not make a smaller number.
pub proof fn lemma_decimal_value_grows(digits: Seq<char>, n: nat)
    requires
        n <= digits.len(),
        all_digits(digits),
    ensures
        decimal_value(digits.take(n as int)) <= decimal_value(digits),
    decreases digits.len() - n,
{
    if n == digits.len() {
        assert(digits.take(n as int) =~= digits);
    } else {
        lemma_decimal_value_grows(digits, n + 1);
        let longer = digits.take(n as int + 1);
        assert(longer.drop_last() =~= digits.take(n as int));
        assert(is_digit(digits[n as int]));
        assert(longer.last() == digits[n as int]);
    }
}

/// The value of `c` where it is a decimal digit.
fn digit_value(c: char) -> (value: Option<u32>)
    ensures
        is_digit(c) ==> value == Some((c as u32 - '0' as u32) as u32) && value->Some_0 < 10,
        !is_digit(c) ==> value is None,
{
    let code = c as u32;
    if 0x30 <= code && code <= 0x39 {
        Some(code - 0x30)
    } else {
        None
    }
}

/// Reads a number below 256 from its decimal digits.
#[verifier::rlimit(50)]
pub fn parse_small_number(text: &str) -> (number: Option<u8>)
    ensures
        number == small_number(text@),
{
    let chars = to_chars(text);
    let start: usize = if chars.len() > 0 && chars[0] == '+' {
        1
    } else {
        0
    };
    if start >= chars.len() {
        assert(chars@.skip(start as int).len() == 0);
        return None;
    }
    let ghost digits = chars@.skip(start as int);
    let mut value: u32 = 0;
    let mut i: usize = start;
    assert(digits.take(0) =~= Seq::<char>::empty());
    assert(chars@.skip(0) =~= chars@);
    while i < chars.len()
        invariant
            start <= i <= chars@.len(),
            digits == chars@.skip(start as int),
            digits.len() > 0,
            digits.len() == chars@.len() - start,
            digits == unsigned_part(text@),
            forall|k: int| 0 <= k < i - start ==> is_digit(#[trigger] digits[k]),
            value == decimal_value(digits.take(i - start)),
            value < 256,
        decreases chars@.len() - i,
    {
        let c = chars[i];
        assert(digits[i - start] == c);
        let digit = match digit_value(c) {
            Some(digit) => digit,
            None => {
                assert(!is_digit(digits[i - start]));
                assert(small_number(text@) is None);
                return None;
            },
        };
        let ghost longer = digits.take(i - start + 1);
        proof {
            assert(longer.drop_last() =~= digits.take(i - start));
            assert(longer.last() == c);
        }
        value = value * 10 + digit;
        if value > 255 {
            proof {
                if all_digits(digits) {
                    lemma_decimal_value_grows(digits, (i - start + 1) as nat);
                    assert(decimal_value(longer) == value);
                    assert(decimal_value(digits) >= 256);
                }
                assert(small_number(text@) is None);
            }
            return None;
        }
        i += 1;
    }
    assert(digits.take(i - start) =~= digits);
    Some(value as u8)
}

/// The part that `table` describes.
pub open spec fn part_of_table(table: PartsConfigTable) -> Result<(Seq<char>, ValueFormat), ClockError> {
    if !is_address(table.address@) {
        Err(ClockError::InvalidAddress)
    } else if table.format@ == "absolute"@ {
        match table.divider {
            Some(divider) => Ok((table.address@, ValueFormat::Absolute(divider))),
            None => Err(ClockError::MissingDivider),
        }
    } else if table.format@ == "relative"@ {
        match table.max_value {
            Some(bits) => Ok((table.address@, ValueFormat::Relative(bits))),
            None => Err(ClockError::MissingMaxValue),
        }
    } else {
        Err(ClockError::InvalidFormatType)
    }
}

/// The part that the three fields of `text` describe.
pub open spec fn part_of_text(text: Seq<char>) -> Result<PartRequestView, ClockError> {
    let fields = split_on(text, ',');
    if fields.len() != 3 {
        Err(ClockError::InvalidPartFormat)
    } else if !is_address(fields[0]) {
        Err(ClockError::InvalidAddress)
    } else if fields[1] == "abs"@ {
        match small_number(fields[2]) {
            Some(divider) => Ok(
                PartRequestView::Ready { address: fields[0], format: ValueFormat::Absolute(divider) },
            ),
            None => Err(ClockError::InvalidNumber),
        }
    } else if fields[1] == "rel"@ {
        Ok(PartRequestView::Relative { address: fields[0], amount: fields[2] })
    } else {
        Err(ClockError::InvalidFormatType)
    }
}

impl DateTimePart {
    /// Reads a part from three fields with `,` between them: the address,
    /// `abs` or `rel`, and the number.
    #[verifier::rlimit(50)]
    pub fn parse(s: &str) -> (part: Result<PartRequest, ClockError>)
        ensures
            match part_of_text(s@) {
                Ok(expected) => part is Ok && part->Ok_0@ == expected,
                Err(e) => part == Err::<PartRequest, ClockError>(e),
            },
    {
        let mut parts = split_text(s, ',');
        if parts.len() != 3 {
            return Err(ClockError::InvalidPartFormat);
        }
        assert(texts_of(parts@)[0] == parts@[0]@);
        assert(texts_of(parts@)[1] == parts@[1]@);
        assert(texts_of(parts@)[2] == parts@[2]@);
        let target_address = match Address::new(parts[0].as_str()) {
            Ok(address) => address,
            Err(_) => {
                return Err(ClockError::InvalidAddress);
            },
        };
        if same_text(parts[1].as_str(), "abs") {
            match parse_small_number(parts[2].as_str()) {
                Some(divider) => Ok(
                    PartRequest::Ready(
                        DateTimePart { target_address, format: ValueFormat::Absolute(divider) },
                    ),
                ),
                None => Err(ClockError::InvalidNumber),
            }
        } else if same_text(parts[1].as_str(), "rel") {
            let amount = parts[2].clone();
            Ok(PartRequest::Relative { target_address, amount })
        } else {
            Err(ClockError::InvalidFormatType)
        }
    }

    /// Reads a part from the table of a configuration file.
    pub fn parse_config_table(table: &PartsConfigTable) -> (part: Result<DateTimePart, ClockError>)
        ensures
            match part_of_table(*table) {
                Ok((address, format)) => part is Ok && part->Ok_0.target_address@ == address
                    && part->Ok_0.format == format,
                Err(e) => part == Err::<DateTimePart, ClockError>(e),
            },
    {
        let target_address = match Address::new(table.address.as_str()) {
            Ok(address) => address,
            Err(_) => {
                return Err(ClockError::InvalidAddress);
            },
        };
        let format = if same_text(table.format.as_str(), "absolute") {
            match table.divider {
                Some(value) => ValueFormat::Absolute(value),
                None => {
                    return Err(ClockError::MissingDivider);
                },
            }
        } else if same_text(table.format.as_str(), "relative") {
            match table.max_value {
                Some(value) => ValueFormat::Relative(value),
                None => {
                    return Err(ClockError::MissingMaxValue);
                },
            }
        } else {
            return Err(ClockError::InvalidFormatType);
        };
        Ok(DateTimePart { target_address, format })
    }
}

/// The target type that `name` names.
pub open spec fn target_type_of(name: Seq<char>) -> Option<TargetType> {
    if name == "int"@ {
        Some(TargetType::Int)
    } else if name == "float"@ {
        Some(TargetType::Float)
    } else {
        None
    }
}

/// How `value` becomes an argument under the hint `type_hint`: a whole
/// number stays one unless a float is asked for, a number with a
/// fraction becomes a float unless an integer is asked for, and nothing
/// else becomes an argument.
pub open spec fn conversion_of(value: ScriptValue, type_hint: Option<TargetType>) -> Option<
    Conversion,
> {
    match (value, type_hint) {
        (ScriptValue::Integer(v), Some(TargetType::Float)) => Some(Conversion::FloatOfInteger(v)),
        (ScriptValue::Integer(v), _) => Some(Conversion::Int32(v as i32)),
        (ScriptValue::Number(v), Some(TargetType::Int)) => Some(Conversion::IntOfNumber(v)),
        (ScriptValue::Number(v), _) => Some(Conversion::FloatOfNumber(v)),
        (ScriptValue::Other, _) => None,
    }
}

impl TargetType {
    /// The target type that `s` names: `int` or `float`.
    pub fn from_str(s: &str) -> (named: Result<TargetType, ClockError>)
        ensures
            match target_type_of(s@) {
                Some(target) => named == Ok::<TargetType, ClockError>(target),
                None => named is Err && named->Err_0 is InvalidTargetType
                    && named->Err_0->InvalidTargetType_0@ == s@,
            },
    {
        if same_text(s, "int") {
            Ok(TargetType::Int)
        } else if same_text(s, "float") {
            Ok(TargetType::Float)
        } else {
            Err(ClockError::InvalidTargetType(s.to_owned()))
        }
    }
}

/// Whether a run may start with `count` scripts: with one at least and
/// `MAX_SCRIPTS` at most.
pub fn check_script_count(count: usize) -> (checked: Result<(), ClockError>)
    ensures
        count == 0 ==> checked == Err::<(), ClockError>(ClockError::NoScripts),
        count > MAX_SCRIPTS ==> checked == Err::<(), ClockError>(ClockError::TooManyScripts(count)),
        0 < count <= MAX_SCRIPTS ==> checked is Ok,
{
    if count == 0 {
        Err(ClockError::NoScripts)
    } else if count > MAX_SCRIPTS {
        Err(ClockError::TooManyScripts(count))
    } else {
        Ok(())
    }
}

/// The name under which the function of the element called `name` is
/// kept: `vrcosc_clock_` and the name.
pub fn value_function_name(name: &str) -> (full: String)
    ensures
        full@ == "vrcosc_clock_"@ + name@,
{
    let mut full = "vrcosc_clock_".to_owned();
    full.append(name);
    full
}

/// How `value` becomes an argument under the hint `type_hint`.
pub fn into_osc_value(value: ScriptValue, type_hint: Option<TargetType>) -> (converted: Result<
    Conversion,
    ClockError,
>)
    ensures
        match conversion_of(value, type_hint) {
            Some(conversion) => converted == Ok::<Conversion, ClockError>(conversion),
            None => converted == Err::<Conversion, ClockError>(ClockError::InvalidConversion),
        },
{
    match (value, type_hint) {
        (ScriptValue::Integer(v), Some(TargetType::Float)) => Ok(Conversion::FloatOfInteger(v)),
        (ScriptValue::Integer(v), _) => Ok(Conversion::Int32(#[verifier::truncate] (v as i32))),
        (ScriptValue::Number(v), Some(TargetType::Int)) => Ok(Conversion::IntOfNumber(v)),
        (ScriptValue::Number(v), _) => Ok(Conversion::FloatOfNumber(v)),
        (ScriptValue::Other, _) => Err(ClockError::InvalidConversion),
    }
}

impl ConversionElement {
    /// The message that carries `value` to the address of the element.
    pub fn message(&self, value: Value) -> (message: Result<Message, Error>)
        ensures
            is_address(self.address@) ==> message is Ok && message->Ok_0@ == (MessageView {
                address: self.address@,
                arguments: seq![value@],
            }),
            !is_address(self.address@) ==> message is Err && message->Err_0
                == Error::InvalidAddress,
    {
        match MessageBuilder::new(self.address.as_str()) {
            Ok(builder) => {
                let message = builder.push_argument(value).build();
                assert(message@.arguments =~= seq![value@]);
                Ok(message)
            },
            Err(e) => Err(e),
        }
    }
}

} // verus!
