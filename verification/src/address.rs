//! OSC addresses: validation, construction and growth by parts.

use crate::error::Error;
use crate::text::{first_of, lemma_first_of, split_on, split_text, texts_of};
use vstd::prelude::*;
use vstd::string::StringExecFns;
use vstd::utf8::is_ascii_chars;

verus! {

/// The characters that no method part may hold, the `/` among them.
pub const METHOD_PROHIBITED_CHAR: [char; 10] = [' ', '#', '*', ',', '/', '?', '[', ']', '{', '}'];

/// The reserved characters are those of `METHOD_PROHIBITED_CHAR`.
pub proof fn lemma_reserved_characters(c: char)
    ensures
        is_reserved(c) <==> METHOD_PROHIBITED_CHAR@.contains(c),
{
    let all = METHOD_PROHIBITED_CHAR@;
    if is_reserved(c) {
        assert(all[0] == ' ' && all[1] == '#' && all[2] == '*' && all[3] == ',' && all[4] == '/'
            && all[5] == '?' && all[6] == '[' && all[7] == ']' && all[8] == '{' && all[9] == '}');
    }
}

/// Whether `c` is one of the characters that no method part may hold:
/// space, `#`, `*`, `,`, `/`, `?`, `[`, `]`, `{`, `}`.
pub open spec fn is_reserved(c: char) -> bool {
    c == ' ' || c == '#' || c == '*' || c == ',' || c == '/' || c == '?' || c == '[' || c == ']'
        || c == '{' || c == '}'
}

/// Whether `c` may stand in a method part: it is ASCII and not reserved.
pub open spec fn is_part_char(c: char) -> bool {
    '\0' <= c <= '\u{7f}' && !is_reserved(c)
}

/// Whether `part` is a method part: not empty, and made of part characters.
pub open spec fn is_part(part: Seq<char>) -> bool {
    part.len() > 0 && forall|i: int| 0 <= i < part.len() ==> is_part_char(#[trigger] part[i])
}

/// Whether `text` is an address: it starts with `/`, holds nothing but `/`
/// and part characters, and each `/` is followed by a part character, so
/// that no part is empty.
pub open spec fn is_address(text: Seq<char>) -> bool {
    &&& text.len() > 0
    &&& text[0] == '/'
    &&& forall|i: int|
        0 <= i < text.len() ==> #[trigger] text[i] == '/' || is_part_char(text[i])
    &&& forall|i: int|
        0 <= i < text.len() && #[trigger] text[i] == '/' ==> i + 1 < text.len() && text[i + 1]
            != '/'
}

/// The method parts of an address: what stands between its `/`s, after
/// the `/` that it starts with.
pub open spec fn address_parts(text: Seq<char>) -> Seq<Seq<char>> {
    split_on(text.skip(1), '/')
}

/// Whether each of `pieces` is a method part.
pub open spec fn all_parts(pieces: Seq<Seq<char>>) -> bool {
    forall|i: int| 0 <= i < pieces.len() ==> is_part(#[trigger] pieces[i])
}

/// Whether `text` is method parts with a `/` between each two: it is not
/// empty, holds nothing but `/` and part characters, and no `/` stands
/// at its start, at its end or beside another.
pub open spec fn is_part_list(text: Seq<char>) -> bool {
    &&& text.len() > 0
    &&& text[0] != '/'
    &&& forall|i: int|
        0 <= i < text.len() ==> #[trigger] text[i] == '/' || is_part_char(text[i])
    &&& forall|i: int|
        0 <= i < text.len() && #[trigger] text[i] == '/' ==> i + 1 < text.len() && text[i + 1]
            != '/'
}

/// Text splits into method parts exactly when it is a list of them.
#[verifier::rlimit(50)]
pub proof fn lemma_split_parts(text: Seq<char>)
    ensures
        all_parts(split_on(text, '/')) <==> is_part_list(text),
    decreases text.len(),
{
    lemma_first_of(text, '/');
    let cut = first_of(text, '/');
    let pieces = split_on(text, '/');
    if cut >= text.len() {
        assert(pieces == seq![text]);
        assert(pieces[0] == text);
        if all_parts(pieces) {
            assert(is_part(pieces[0]));
            assert(is_part_list(text));
        }
        if is_part_list(text) {
            assert forall|i: int| 0 <= i < text.len() implies is_part_char(#[trigger] text[i]) by {
                assert(text[i] == '/' || is_part_char(text[i]));
            }
            assert(is_part(text));
            assert(all_parts(pieces));
        }
    } else {
        let head = text.take(cut as int);
        let rest = text.skip(cut as int + 1);
        let more = split_on(rest, '/');
        lemma_split_parts(rest);
        assert(pieces == seq![head] + more);
        assert(pieces[0] == head);
        assert forall|i: int| 0 <= i < more.len() implies #[trigger] more[i] == pieces[i + 1] by {}
        if all_parts(pieces) {
            assert(is_part(pieces[0]));
            assert forall|i: int| 0 <= i < more.len() implies is_part(#[trigger] more[i]) by {
                assert(more[i] == pieces[i + 1]);
            }
            assert(is_part_list(rest));
            assert(head[0] == text[0]);
            assert forall|i: int| 0 <= i < text.len() implies #[trigger] text[i] == '/'
                || is_part_char(text[i]) by {
                if i < cut {
                    assert(text[i] == head[i]);
                } else if i > cut {
                    assert(text[i] == rest[i - cut - 1]);
                }
            }
            assert forall|i: int| 0 <= i < text.len() && #[trigger] text[i] == '/' implies i + 1
                < text.len() && text[i + 1] != '/' by {
                if i == cut {
                    assert(rest[0] == text[cut as int + 1]);
                } else if i > cut {
                    assert(text[i] == rest[i - cut - 1]);
                    assert(rest[i - cut] == text[i + 1]);
                }
            }
            assert(is_part_list(text));
        }
        if is_part_list(text) {
            assert(text[cut as int] == '/');
            assert(cut > 0);
            assert forall|i: int| 0 <= i < head.len() implies is_part_char(#[trigger] head[i]) by {
                assert(head[i] == text[i]);
                assert(text[i] == '/' || is_part_char(text[i]));
            }
            assert(is_part(head));
            assert(rest[0] == text[cut as int + 1]);
            assert forall|i: int| 0 <= i < rest.len() implies #[trigger] rest[i] == '/'
                || is_part_char(rest[i]) by {
                assert(rest[i] == text[i + cut + 1]);
                assert(text[i + cut + 1] == '/' || is_part_char(text[i + cut + 1]));
            }
            assert forall|i: int| 0 <= i < rest.len() && #[trigger] rest[i] == '/' implies i + 1
                < rest.len() && rest[i + 1] != '/' by {
                assert(rest[i] == text[i + cut + 1]);
                assert(text[i + cut + 1] == '/');
                assert(rest[i + 1] == text[i + cut + 2]);
            }
            assert(is_part_list(rest));
            assert forall|i: int| 0 <= i < pieces.len() implies is_part(#[trigger] pieces[i]) by {
                if i > 0 {
                    assert(pieces[i] == more[i - 1]);
                }
            }
        }
    }
}

/// An address is text that starts with `/` and after it has method parts
/// with a `/` between each two: each part is not empty, is ASCII and holds
/// no reserved character. So an address as a whole is ASCII.
#[verifier::rlimit(50)]
pub proof fn lemma_address_parts(text: Seq<char>)
    ensures
        is_address(text) <==> text.len() > 0 && text[0] == '/' && all_parts(address_parts(text)),
        is_address(text) ==> is_ascii_chars(text),
{
    if is_address(text) {
        assert forall|i: int| 0 <= i < text.len() implies '\0' <= #[trigger] text[i]
            <= '\u{7f}' by {
            assert(text[i] == '/' || is_part_char(text[i]));
        }
    }
    if text.len() > 0 && text[0] == '/' {
        let rest = text.skip(1);
        lemma_split_parts(rest);
        if is_address(text) {
            assert(text[0] == '/');
            assert(rest[0] == text[1]);
            assert forall|i: int| 0 <= i < rest.len() implies #[trigger] rest[i] == '/'
                || is_part_char(rest[i]) by {
                assert(rest[i] == text[i + 1]);
                assert(text[i + 1] == '/' || is_part_char(text[i + 1]));
            }
            assert forall|i: int| 0 <= i < rest.len() && #[trigger] rest[i] == '/' implies i + 1
                < rest.len() && rest[i + 1] != '/' by {
                assert(rest[i] == text[i + 1]);
                assert(text[i + 1] == '/');
                assert(rest[i + 1] == text[i + 2]);
            }
            assert(is_part_list(rest));
        }
        if is_part_list(rest) {
            assert forall|i: int| 0 <= i < text.len() implies #[trigger] text[i] == '/'
                || is_part_char(text[i]) by {
                if i > 0 {
                    assert(text[i] == rest[i - 1]);
                }
            }
            assert forall|i: int| 0 <= i < text.len() && #[trigger] text[i] == '/' implies i + 1
                < text.len() && text[i + 1] != '/' by {
                if i == 0 {
                    assert(rest[0] == text[1]);
                } else {
                    assert(text[i] == rest[i - 1]);
                    assert(rest[i] == text[i + 1]);
                }
            }
            assert(is_address(text));
        }
    }
}

/// Whether the byte is the ASCII code of a reserved character.
fn is_reserved_byte(byte: u8) -> (yes: bool)
    ensures
        yes == is_reserved(byte as char),
{
    byte == 0x20 || byte == 0x23 || byte == 0x2a || byte == 0x2c || byte == 0x2f || byte == 0x3f
        || byte == 0x5b || byte == 0x5d || byte == 0x7b || byte == 0x7d
}

/// Whether `text` is a method part.
pub fn check_part(text: &str) -> (yes: bool)
    ensures
        yes == is_part(text@),
{
    if !text.is_ascii() {
        assert(!is_part(text@)) by {
            if is_part(text@) {
                assert(is_ascii_chars(text@));
            }
        }
        return false;
    }
    let bytes = text.as_bytes();
    proof {
        vstd::string::is_ascii_spec_bytes(text);
    }
    if bytes.len() == 0 {
        return false;
    }
    let mut i: usize = 0;
    while i < bytes.len()
        invariant
            i <= bytes@.len(),
            bytes@.len() == text@.len(),
            is_ascii_chars(text@),
            forall|k: int| 0 <= k < text@.len() ==> bytes@[k] == #[trigger] text@[k] as u8,
            forall|k: int| 0 <= k < i ==> is_part_char(#[trigger] text@[k]),
        decreases bytes@.len() - i,
    {
        assert(text@[i as int] == bytes@[i as int] as char);
        if is_reserved_byte(bytes[i]) {
            return false;
        }
        i += 1;
    }
    true
}

/// Whether `text` is an address.
#[verifier::rlimit(50)]
pub fn check_address(text: &str) -> (yes: bool)
    ensures
        yes == is_address(text@),
{
    if !text.is_ascii() {
        assert(!is_address(text@)) by {
            if is_address(text@) {
                assert(is_ascii_chars(text@));
            }
        }
        return false;
    }
    let bytes = text.as_bytes();
    proof {
        vstd::string::is_ascii_spec_bytes(text);
    }
    if bytes.len() == 0 || bytes[0] != 0x2f {
        assert(bytes@.len() > 0 ==> text@[0] == bytes@[0] as char);
        return false;
    }
    assert(text@[0] == bytes@[0] as char);
    let mut i: usize = 0;
    while i < bytes.len()
        invariant
            i <= bytes@.len(),
            bytes@.len() == text@.len(),
            is_ascii_chars(text@),
            forall|k: int| 0 <= k < text@.len() ==> bytes@[k] == #[trigger] text@[k] as u8,
            forall|k: int| 0 <= k < i ==> #[trigger] text@[k] == '/' || is_part_char(text@[k]),
            forall|k: int|
                0 <= k < i && #[trigger] text@[k] == '/' ==> k + 1 < text@.len() && text@[k + 1]
                    != '/',
        decreases bytes@.len() - i,
    {
        assert(text@[i as int] == bytes@[i as int] as char);
        if bytes[i] == 0x2f {
            if i + 1 >= bytes.len() {
                return false;
            }
            assert(text@[i + 1] == bytes@[i + 1] as char);
            if bytes[i + 1] == 0x2f {
                return false;
            }
        } else if is_reserved_byte(bytes[i]) {
            return false;
        }
        i += 1;
    }
    true
}

/// A valid OSC address. It names a method and holds no pattern.
#[derive(Debug, PartialEq, Eq, PartialOrd, Ord, Hash)]
pub struct Address(String);

impl From<Address> for String {
    fn from(x: Address) -> (text: String)
        ensures
            text@ == x@,
    {
        x.into_string()
    }
}

impl vstd::std_specs::convert::FromSpecImpl<Address> for String {
    open spec fn obeys_from_spec() -> bool {
        false
    }

    open spec fn from_spec(x: Address) -> String {
        arbitrary()
    }
}

impl Clone for Address {
    fn clone(&self) -> (copy: Self)
        ensures
            copy@ == self@,
    {
        proof {
            use_type_invariant(self);
        }
        Address(self.0.clone())
    }
}

impl View for Address {
    type V = Seq<char>;

    closed spec fn view(&self) -> Seq<char> {
        self.0@
    }
}

impl Address {
    #[verifier::type_invariant]
    spec fn valid(self) -> bool {
        is_address(self.0@)
    }

    /// Checks `address` and wraps it.
    pub fn new(address: &str) -> (made: Result<Address, Error>)
        ensures
            is_address(address@) ==> made is Ok && made->Ok_0@ == address@,
            !is_address(address@) ==> made == Err::<Address, Error>(Error::InvalidAddress),
    {
        if check_address(address) {
            Ok(Address(address.to_owned()))
        } else {
            Err(Error::InvalidAddress)
        }
    }

    /// Appends `/` and `part`, where `part` is a method part; otherwise the
    /// address stays as it was.
    #[verifier::rlimit(50)]
    pub fn push_part(&mut self, part: &str) -> (done: Result<(), Error>)
        ensures
            is_part(part@) ==> done is Ok && final(self)@ == old(self)@ + seq!['/'] + part@,
            !is_part(part@) ==> done == Err::<(), Error>(Error::InvalidAddress) && final(self)@
                == old(self)@,
            is_address(final(self)@),
    {
        proof {
            use_type_invariant(&*self);
        }
        if !check_part(part) {
            return Err(Error::InvalidAddress);
        }
        let mut text = self.0.clone();
        text.push('/');
        text.append(part);
        proof {
            let before = self.0@;
            let after = text@;
            assert(after =~= before + seq!['/'] + part@);
            assert forall|i: int| 0 <= i < after.len() implies #[trigger] after[i] == '/'
                || is_part_char(after[i]) by {
                if i < before.len() {
                    assert(after[i] == before[i]);
                } else if i > before.len() {
                    assert(after[i] == part@[i - before.len() - 1]);
                }
            }
            assert forall|i: int| 0 <= i < after.len() && #[trigger] after[i] == '/' implies i + 1
                < after.len() && after[i + 1] != '/' by {
                if i < before.len() {
                    assert(after[i] == before[i]);
                    if i + 1 < before.len() {
                        assert(after[i + 1] == before[i + 1]);
                    }
                } else if i == before.len() {
                    assert(after[i + 1] == part@[0]);
                } else {
                    assert(after[i] == part@[i - before.len() - 1]);
                }
            }
        }
        self.0 = text;
        Ok(())
    }

    /// The method parts of the address, in order.
    pub fn parts(&self) -> (parts: Vec<String>)
        ensures
            texts_of(parts@) == address_parts(self@),
            all_parts(address_parts(self@)),
    {
        proof {
            use_type_invariant(self);
            lemma_address_parts(self.0@);
        }
        let text = self.0.as_str();
        let chars = crate::text::to_chars(text);
        let rest = crate::text::copy_text(&chars, 1, chars.len());
        assert(rest@ =~= self.0@.skip(1));
        split_text(rest.as_str(), '/')
    }

    /// The address as text.
    pub fn as_str(&self) -> (text: &str)
        ensures
            text@ == self@,
            is_address(self@),
    {
        proof {
            use_type_invariant(self);
        }
        self.0.as_str()
    }

    /// A copy of the address as a `String`.
    pub fn to_string(&self) -> (text: String)
        ensures
            text@ == self@,
    {
        self.0.clone()
    }

    /// Gives up the address for the `String` inside.
    pub fn into_string(self) -> (text: String)
        ensures
            text@ == self@,
            is_address(self@),
    {
        proof {
            use_type_invariant(&self);
        }
        self.0
    }
}

} // verus!
