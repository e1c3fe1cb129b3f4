//! What the codec needs of `String` beyond what vstd specifies.

use vstd::prelude::*;
use vstd::utf8::{
    char_is_scalar, char_u32_cast, decode_utf8, encode_scalar, encode_utf8,
    encode_utf8_decode_utf8, is_ascii_chars,
    is_ascii_chars_encode_utf8, is_scalar, valid_utf8,
};

verus! {

/// `String::push` appends the character to the string.
pub assume_specification[ std::string::String::push ](text: &mut std::string::String, c: char)
    ensures
        final(text)@ == old(text)@.push(c),
;

/// `String::from_utf8` accepts exactly the byte strings that are valid
/// UTF-8, and then holds the characters they encode.
#[verifier::external_body]
pub(crate) fn string_from_utf8(bytes: Vec<u8>) -> (text: Option<String>)
    ensures
        text is Some <==> valid_utf8(bytes@),
        text matches Some(s) ==> s@ == decode_utf8(bytes@),
{
    String::from_utf8(bytes).ok()
}

/// The texts of `strings`, in order.
pub open spec fn texts_of(strings: Seq<String>) -> Seq<Seq<char>> {
    Seq::new(strings.len(), |i: int| strings[i]@)
}

/// The characters of `text`.
pub fn to_chars(text: &str) -> (chars: Vec<char>)
    ensures
        chars@ == text@,
{
    let mut chars: Vec<char> = Vec::new();
    for c in it: text.chars()
        invariant
            it.seq() == text@,
            chars@ == it.seq().take(it.index() as int),
    {
        chars.push(c);
    }
    chars
}

/// The characters from `from` up to `to` as a string.
pub fn copy_text(chars: &Vec<char>, from: usize, to: usize) -> (text: String)
    requires
        from <= to <= chars@.len(),
    ensures
        text@ == chars@.subrange(from as int, to as int),
{
    let mut text = String::new();
    let mut i: usize = from;
    while i < to
        invariant
            from <= i <= to <= chars@.len(),
            text@ == chars@.subrange(from as int, i as int),
        decreases to - i,
    {
        text.push(chars[i]);
        i += 1;
        assert(text@ =~= chars@.subrange(from as int, i as int));
    }
    assert(text@ =~= chars@.subrange(from as int, to as int));
    text
}

/// How many characters `text` has before its first `separator`.
pub open spec fn first_of(text: Seq<char>, separator: char) -> nat
    decreases text.len(),
{
    if text.len() == 0 || text[0] == separator {
        0
    } else {
        1 + first_of(text.skip(1), separator)
    }
}

/// What stands between the separators of `text`: one piece more than
/// `text` has separators, empty pieces too.
pub open spec fn split_on(text: Seq<char>, separator: char) -> Seq<Seq<char>>
    decreases text.len(),
{
    let cut = first_of(text, separator);
    if cut >= text.len() {
        seq![text]
    } else {
        seq![text.take(cut as int)] + split_on(text.skip(cut as int + 1), separator)
    }
}

/// Before the first separator there is none, and where the count stops
/// short of the end there is one.
pub proof fn lemma_first_of(text: Seq<char>, separator: char)
    ensures
        first_of(text, separator) <= text.len(),
        forall|i: int| 0 <= i < first_of(text, separator) ==> #[trigger] text[i] != separator,
        first_of(text, separator) < text.len() ==> text[first_of(text, separator) as int]
            == separator,
    decreases text.len(),
{
    if text.len() == 0 || text[0] == separator {
    } else {
        let rest = text.skip(1);
        lemma_first_of(rest, separator);
        assert forall|i: int| 0 <= i < first_of(text, separator) implies #[trigger] text[i]
            != separator by {
            if i > 0 {
                assert(text[i] == rest[i - 1]);
            }
        }
        if first_of(text, separator) < text.len() {
            assert(text[first_of(text, separator) as int] == rest[first_of(rest, separator) as int]);
        }
    }
}

/// The first separator stands where one stands and none stands before.
pub proof fn lemma_first_of_is(text: Seq<char>, separator: char, at: nat)
    requires
        at <= text.len(),
        forall|i: int| 0 <= i < at ==> #[trigger] text[i] != separator,
        at < text.len() ==> text[at as int] == separator,
    ensures
        first_of(text, separator) == at,
{
    lemma_first_of(text, separator);
    let found = first_of(text, separator);
    if found < at {
        assert(text[found as int] != separator);
    } else if found > at {
        assert(text[at as int] != separator);
    }
}

/// The pieces of `text` between its separators.
#[verifier::rlimit(50)]
pub fn split_text(text: &str, separator: char) -> (pieces: Vec<String>)
    ensures
        texts_of(pieces@) == split_on(text@, separator),
{
    let chars = to_chars(text);
    let mut pieces: Vec<String> = Vec::new();
    let mut start: usize = 0;
    assert(chars@.skip(0) =~= chars@);
    assert(Seq::<Seq<char>>::empty() + split_on(chars@, separator) =~= split_on(
        chars@,
        separator,
    ));
    loop
        invariant
            start <= chars@.len(),
            chars@ == text@,
            split_on(text@, separator) == texts_of(pieces@) + split_on(
                chars@.skip(start as int),
                separator,
            ),
        decreases chars@.len() - start,
    {
        let mut end: usize = start;
        while end < chars.len() && chars[end] != separator
            invariant
                start <= end <= chars@.len(),
                forall|i: int| start <= i < end ==> #[trigger] chars@[i] != separator,
            decreases chars@.len() - end,
        {
            end += 1;
        }
        let piece = copy_text(&chars, start, end);
        let ghost before = texts_of(pieces@);
        let ghost left = chars@.skip(start as int);
        proof {
            assert forall|i: int| 0 <= i < end - start implies #[trigger] left[i] != separator by {
                assert(left[i] == chars@[start + i]);
            }
            if end < chars@.len() {
                assert(left[end - start] == chars@[end as int]);
            }
            lemma_first_of_is(left, separator, (end - start) as nat);
            assert(left.take(end - start) =~= piece@);
            assert(texts_of(pieces@.push(piece)) =~= before.push(piece@));
        }
        pieces.push(piece);
        if end >= chars.len() {
            proof {
                assert(left =~= piece@);
                assert(before + seq![piece@] =~= before.push(piece@));
            }
            return pieces;
        }
        proof {
            let more = split_on(chars@.skip(end + 1), separator);
            assert(left.skip(end - start + 1) =~= chars@.skip(end + 1));
            assert(before + (seq![piece@] + more) =~= before.push(piece@) + more);
        }
        start = end + 1;
    }
}

/// Whether two texts hold the same characters.
pub fn same_text(first: &str, second: &str) -> (same: bool)
    ensures
        same == (first@ == second@),
{
    let a = first.as_bytes();
    let b = second.as_bytes();
    proof {
        encode_utf8_decode_utf8(first@);
        encode_utf8_decode_utf8(second@);
    }
    if a.len() != b.len() {
        return false;
    }
    let mut i: usize = 0;
    while i < a.len()
        invariant
            i <= a@.len(),
            a@.len() == b@.len(),
            a@ == encode_utf8(first@),
            b@ == encode_utf8(second@),
            forall|k: int| 0 <= k < i ==> a@[k] == b@[k],
        decreases a@.len() - i,
    {
        if a[i] != b[i] {
            return false;
        }
        i += 1;
    }
    assert(a@ =~= b@);
    true
}

/// Whether `text` holds no NUL character.
pub open spec fn has_no_nul(text: Seq<char>) -> bool {
    forall|i: int| 0 <= i < text.len() ==> #[trigger] text[i] != '\0'
}

/// Whether `text` holds no NUL character.
pub fn is_free_of_nul(text: &str) -> (yes: bool)
    ensures
        yes == has_no_nul(text@),
{
    let chars = to_chars(text);
    let mut i: usize = 0;
    while i < chars.len()
        invariant
            i <= chars@.len(),
            chars@ == text@,
            forall|k: int| 0 <= k < i ==> #[trigger] chars@[k] != '\0',
        decreases chars@.len() - i,
    {
        if chars[i] == '\0' {
            return false;
        }
        i += 1;
    }
    true
}

/// Whether `bytes` holds no zero byte.
pub open spec fn has_no_zero(bytes: Seq<u8>) -> bool {
    forall|i: int| 0 <= i < bytes.len() ==> #[trigger] bytes[i] != 0
}

/// The bytes of ASCII text: the code of each character.
pub open spec fn ascii(text: Seq<char>) -> Seq<u8> {
    Seq::new(text.len(), |i: int| text[i] as u8)
}

/// ASCII text is encoded as one byte for each character.
pub proof fn lemma_encode_ascii(text: Seq<char>)
    requires
        is_ascii_chars(text),
    ensures
        encode_utf8(text) == ascii(text),
{
    is_ascii_chars_encode_utf8(text);
    assert(encode_utf8(text) =~= ascii(text));
}

/// Text without a NUL character is encoded without a zero byte.
#[verifier::rlimit(50)]
pub proof fn lemma_encode_no_zero(text: Seq<char>)
    requires
        has_no_nul(text),
    ensures
        has_no_zero(encode_utf8(text)),
    decreases text.len(),
{
    if text.len() > 0 {
        let first = text[0] as u32;
        let rest = text.drop_first();
        char_is_scalar(text[0]);
        assert(first != 0) by {
            if first == 0 {
                char_u32_cast(text[0], 0u32);
                char_u32_cast('\0', 0u32);
            }
        }
        lemma_scalar_no_zero(first);
        assert forall|i: int| 0 <= i < rest.len() implies #[trigger] rest[i] != '\0' by {
            assert(rest[i] == text[i + 1]);
        }
        lemma_encode_no_zero(rest);
        let head = encode_scalar(first);
        let tail = encode_utf8(rest);
        assert(encode_utf8(text) == head + tail);
        assert forall|i: int| 0 <= i < (head + tail).len() implies #[trigger] (head + tail)[i]
            != 0 by {
            if i < head.len() {
                assert((head + tail)[i] == head[i]);
            } else {
                assert((head + tail)[i] == tail[i - head.len()]);
            }
        }
    }
}

/// The encoding of a scalar other than zero has no zero byte.
proof fn lemma_scalar_no_zero(scalar: u32)
    requires
        scalar != 0,
        is_scalar(scalar),
    ensures
        has_no_zero(encode_scalar(scalar)),
{
    assert(scalar <= 0x7F ==> (scalar & 0x7F) as u8 != 0) by (bit_vector)
        requires
            scalar != 0,
    ;
    assert(0xC0u8 | ((scalar >> 6) & 0x1F) as u8 != 0) by (bit_vector);
    assert(0xE0u8 | ((scalar >> 12) & 0x0F) as u8 != 0) by (bit_vector);
    assert(0xF0u8 | ((scalar >> 18) & 0x7) as u8 != 0) by (bit_vector);
    assert(0x80u8 | (scalar & 0x3F) as u8 != 0) by (bit_vector);
    assert(0x80u8 | ((scalar >> 6) & 0x3F) as u8 != 0) by (bit_vector);
    assert(0x80u8 | ((scalar >> 12) & 0x3F) as u8 != 0) by (bit_vector);
}

} // verus!
