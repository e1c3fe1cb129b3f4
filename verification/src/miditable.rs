//! From MIDI notes to messages for an avatar: the table that says which
//! note sets which parameters, and the messages that a note gives rise to.

use crate::address::is_address;
use crate::config::{Configuration, Parameter};
use crate::data::{Value, ValueView};
use crate::packet::message::{Message, MessageBuilder, MessageView};
use crate::text::same_text;
use midly::live::LiveEvent;
use midly::MidiMessage;
use vstd::prelude::*;

verus! {

/// A value of the parameters table. A number with a fraction is held as
/// the bits of its IEEE-754 32-bit form.
#[derive(Debug, Clone, Copy, PartialEq, Eq)]
pub enum TableValue {
    /// A whole number.
    Integer(i64),
    /// The bits of a number with a fraction.
    Float(u32),
    /// A boolean.
    Boolean(bool),
    /// Anything else, which no parameter can be set to.
    Other,
}

/// An entry of the parameters table: the note that triggers it, and the
/// parameters that it sets.
#[derive(Debug, Clone)]
pub struct ParametersTableEntry {
    /// The name of the entry.
    pub name: String,
    /// The number of the note that triggers the entry.
    pub midi_note: u8,
    /// The channel on which the note triggers the entry; on every channel
    /// where none is given.
    pub midi_channel: Option<u8>,
    /// The parameters to set, by name, and their values.
    pub parameters: Vec<(String, TableValue)>,
}

/// The parameters table.
#[derive(Debug, Clone)]
pub struct ParametersTable {
    /// The identifier of the avatar that the table is for.
    pub avatar_id: String,
    /// The entries.
    pub entries: Vec<ParametersTableEntry>,
}

/// What becomes of one parameter of an entry.
#[derive(Debug)]
pub enum Routing {
    /// The message to send.
    Send(Message),
    /// The avatar has no parameter of that name.
    UnknownParameter,
    /// The avatar takes no values for the parameter.
    NoInput,
    /// The value is none that a parameter can be set to.
    InvalidValue,
    /// The address of the parameter is no valid address.
    InvalidAddress,
}

/// What a `Routing` holds, as mathematical data.
pub enum RoutingView {
    Send(MessageView),
    UnknownParameter,
    NoInput,
    InvalidValue,
    InvalidAddress,
}

impl View for Routing {
    type V = RoutingView;

    open spec fn view(&self) -> RoutingView {
        match self {
            Routing::Send(message) => RoutingView::Send(message@),
            Routing::UnknownParameter => RoutingView::UnknownParameter,
            Routing::NoInput => RoutingView::NoInput,
            Routing::InvalidValue => RoutingView::InvalidValue,
            Routing::InvalidAddress => RoutingView::InvalidAddress,
        }
    }
}

/// The note-on that a MIDI message holds: its channel, key and velocity.
/// A note-on is three bytes or more: a status byte from 0x90 to 0x9f,
/// whose low half is the channel, and two data bytes below 0x80.
pub open spec fn note_on(message: Seq<u8>) -> Option<(u8, u8, u8)> {
    if message.len() >= 3 && 0x90 <= message[0] <= 0x9f && message[1] < 0x80 && message[2] < 0x80 {
        Some(((message[0] % 16) as u8, message[1], message[2]))
    } else {
        None
    }
}

/// `LiveEvent::parse` reads a MIDI message; this hands on the channel, key
/// and velocity where the message is a note-on.
#[verifier::external_body]
fn parse_note_on(message: &[u8]) -> (note: Option<(u8, u8, u8)>)
    ensures
        note == note_on(message@),
{
    match LiveEvent::parse(message) {
        Ok(LiveEvent::Midi { channel, message: MidiMessage::NoteOn { key, vel } }) => Some(
            (channel.as_int(), key.as_int(), vel.as_int()),
        ),
        _ => None,
    }
}

/// The channel and the key of the note that a MIDI message strikes: those
/// of a note-on whose velocity is not zero.
pub open spec fn struck_note(message: Seq<u8>) -> Option<(u8, u8)> {
    match note_on(message) {
        Some((channel, key, velocity)) => if velocity > 0 {
            Some((channel, key))
        } else {
            None
        },
        None => None,
    }
}

/// The channel and the key of the note that a MIDI message strikes.
pub fn on_midi_message(message: &[u8]) -> (struck: Option<(u8, u8)>)
    ensures
        struck == struck_note(message@),
{
    match parse_note_on(message) {
        Some((channel, key, velocity)) => if velocity > 0 {
            Some((channel, key))
        } else {
            None
        },
        None => None,
    }
}

/// The place of the last of the first `n` entries for `note` on `channel`.
pub open spec fn last_entry(
    entries: Seq<ParametersTableEntry>,
    channel: Option<u8>,
    note: u8,
    n: nat,
) -> Option<int>
    decreases n,
{
    if n == 0 || n > entries.len() {
        None
    } else if entries[n - 1].midi_channel == channel && entries[n - 1].midi_note == note {
        Some(n - 1)
    } else {
        last_entry(entries, channel, note, (n - 1) as nat)
    }
}

/// The place of the entry that `key` on `channel` triggers: the entry for
/// the key on every channel where there is one, else the entry for the key
/// on that channel; of several for the same, the last.
pub open spec fn triggered(table: ParametersTable, channel: u8, key: u8) -> Option<int> {
    match last_entry(table.entries@, None, key, table.entries@.len()) {
        Some(at) => Some(at),
        None => last_entry(table.entries@, Some(channel), key, table.entries@.len()),
    }
}

/// The argument that a table value becomes: a whole number cut to 32
/// bits, the bits of a number with a fraction, or a boolean.
pub open spec fn argument_of(value: TableValue) -> Option<ValueView> {
    match value {
        TableValue::Integer(number) => Some(ValueView::Int32(number as i32)),
        TableValue::Float(bits) => Some(ValueView::Float32(bits)),
        TableValue::Boolean(flag) => Some(ValueView::Boolean(flag)),
        TableValue::Other => None,
    }
}

/// What becomes of setting the parameter called `name` to `value`: a
/// message to the address under which the avatar takes values for the
/// parameter, with the value as its one argument.
pub open spec fn routing_of(config: Configuration, name: Seq<char>, value: TableValue) -> RoutingView {
    match config.position_of(name) {
        None => RoutingView::UnknownParameter,
        Some(at) => match config.parameters@[at].input {
            None => RoutingView::NoInput,
            Some(input) => match argument_of(value) {
                None => RoutingView::InvalidValue,
                Some(argument) => if is_address(input.address@) {
                    RoutingView::Send(
                        MessageView { address: input.address@, arguments: seq![argument] },
                    )
                } else {
                    RoutingView::InvalidAddress
                },
            },
        },
    }
}

impl ParametersTable {
    /// Whether the table may be used with the avatar of `config`: it is
    /// for that avatar, or the question is waived.
    pub fn accepts(&self, config: &Configuration, no_avatar_validation: bool) -> (yes: bool)
        ensures
            yes == (no_avatar_validation || config.id@ == self.avatar_id@),
    {
        no_avatar_validation || same_text(config.id.as_str(), self.avatar_id.as_str())
    }

    /// The last entry for `note` on `channel`.
    fn find(&self, channel: Option<u8>, note: u8) -> (found: Option<usize>)
        ensures
            match found {
                Some(at) => at < self.entries@.len() && last_entry(
                    self.entries@,
                    channel,
                    note,
                    self.entries@.len(),
                ) == Some(at as int),
                None => last_entry(self.entries@, channel, note, self.entries@.len()) is None,
            },
    {
        let mut n: usize = self.entries.len();
        while n > 0
            invariant
                n <= self.entries@.len(),
                last_entry(self.entries@, channel, note, self.entries@.len()) == last_entry(
                    self.entries@,
                    channel,
                    note,
                    n as nat,
                ),
            decreases n,
        {
            let entry = &self.entries[n - 1];
            let same_channel = match (entry.midi_channel, channel) {
                (Some(a), Some(b)) => a == b,
                (None, None) => true,
                _ => false,
            };
            if same_channel && entry.midi_note == note {
                return Some(n - 1);
            }
            n -= 1;
        }
        None
    }

    /// The entry that `key` on `channel` triggers.
    pub fn entry(&self, channel: u8, key: u8) -> (found: Option<&ParametersTableEntry>)
        ensures
            match triggered(*self, channel, key) {
                Some(at) => found == Some(&self.entries@[at]),
                None => found is None,
            },
    {
        match self.find(None, key) {
            Some(at) => Some(&self.entries[at]),
            None => match self.find(Some(channel), key) {
                Some(at) => Some(&self.entries[at]),
                None => None,
            },
        }
    }
}

/// What becomes of setting the parameter called `name` to `value`.
pub fn route_parameter(config: &Configuration, name: &str, value: TableValue) -> (routing: Routing)
    ensures
        routing@ == routing_of(*config, name@, value),
{
    let target_param = match config.parameter(name) {
        Some(parameter) => parameter,
        None => {
            return Routing::UnknownParameter;
        },
    };
    let target_address = match &target_param.input {
        Some(input) => &input.address,
        None => {
            return Routing::NoInput;
        },
    };
    let param_value = match value {
        TableValue::Integer(number) => Value::Int32(#[verifier::truncate] (number as i32)),
        TableValue::Float(bits) => Value::Float32(bits),
        TableValue::Boolean(flag) => Value::Boolean(flag),
        TableValue::Other => {
            return Routing::InvalidValue;
        },
    };
    match MessageBuilder::new(target_address.as_str()) {
        Ok(builder) => {
            let message = builder.push_argument(param_value).build();
            assert(message@.arguments =~= seq![param_value@]);
            Routing::Send(message)
        },
        Err(_) => Routing::InvalidAddress,
    }
}

/// What becomes of each parameter of the entry that `key` on `channel`
/// triggers, in the order of the entry; nothing where no entry is
/// triggered.
pub fn route_note(config: &Configuration, table: &ParametersTable, channel: u8, key: u8) -> (routed:
    Vec<Routing>)
    ensures
        match triggered(*table, channel, key) {
            None => routed@.len() == 0,
            Some(at) => {
                let parameters = table.entries@[at].parameters@;
                &&& routed@.len() == parameters.len()
                &&& forall|i: int|
                    0 <= i < parameters.len() ==> (#[trigger] routed@[i])@ == routing_of(
                        *config,
                        parameters[i].0@,
                        parameters[i].1,
                    )
            },
        },
{
    let mut routed: Vec<Routing> = Vec::new();
    let entry = match table.entry(channel, key) {
        Some(entry) => entry,
        None => {
            return routed;
        },
    };
    let mut i: usize = 0;
    while i < entry.parameters.len()
        invariant
            i <= entry.parameters@.len(),
            routed@.len() == i,
            forall|k: int|
                0 <= k < i ==> (#[trigger] routed@[k])@ == routing_of(
                    *config,
                    entry.parameters@[k].0@,
                    entry.parameters@[k].1,
                ),
        decreases entry.parameters@.len() - i,
    {
        let routing = route_parameter(config, entry.parameters[i].0.as_str(), entry.parameters[i].1);
        routed.push(routing);
        i += 1;
    }
    routed
}

} // verus!
