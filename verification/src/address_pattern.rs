//! Address patterns: the pattern grammar, its expression tree, and the
//! regular expression that matches what a pattern matches.
//!
//! ```text
//! pattern  := ('/' part)+
//! part     := element+
//! element  := literal | charset | choice | '?' | '*'
//! literal  := method_char+
//! charset  := '[' '!'? (range | method_char)+ ']'
//! range    := method_char '-' method_char
//! choice   := '{' method_char+ (',' method_char+)* '}'
//! ```
//!
//! Every element takes as much as it can: a literal runs as far as method
//! characters go, a `!` right after `[` always inverts, and inside
//! brackets a range is preferred to a single character.

use crate::address::{is_reserved, Address};
use crate::error::{decimal_digits, digit_char, Error};
use crate::text::{copy_text, texts_of, to_chars};
use regex::Regex;
use vstd::prelude::*;
use vstd::string::StringExecFns;

verus! {

/// One element of a method part of a pattern.
#[derive(Debug, Clone, PartialEq, Eq, PartialOrd, Ord, Hash)]
pub enum Expression {
    /// A literal run of method characters, `ABC`.
    Literal(String),
    /// A choice between literals, `{ABC,DEF}`.
    Literals(Vec<String>),
    /// One character in or, where the flag is set, out of the given ranges,
    /// `[a-c]` or `[!a-c]`. A single character is the range from itself to
    /// itself.
    Chars(bool, Vec<(char, char)>),
    /// Any one character, `?`.
    AnyChar,
    /// Any string, `*`.
    AnyString,
}

/// What an `Expression` holds, as mathematical data.
pub enum ExpressionView {
    Literal(Seq<char>),
    Literals(Seq<Seq<char>>),
    Chars(bool, Seq<(char, char)>),
    AnyChar,
    AnyString,
}

impl View for Expression {
    type V = ExpressionView;

    open spec fn view(&self) -> ExpressionView {
        match self {
            Expression::Literal(text) => ExpressionView::Literal(text@),
            Expression::Literals(texts) => ExpressionView::Literals(texts_of(texts@)),
            Expression::Chars(inverted, ranges) => ExpressionView::Chars(*inverted, ranges@),
            Expression::AnyChar => ExpressionView::AnyChar,
            Expression::AnyString => ExpressionView::AnyString,
        }
    }
}

/// The views of the elements of a part, in order.
pub open spec fn part_view(part: Seq<Expression>) -> Seq<ExpressionView> {
    Seq::new(part.len(), |i: int| part[i]@)
}

/// The views of the parts of a pattern, in order.
pub open spec fn tree_view(parts: Seq<Vec<Expression>>) -> Seq<Seq<ExpressionView>> {
    Seq::new(parts.len(), |i: int| part_view(parts[i]@))
}

/// The characters that may stand in a method name.
pub const METHOD_CHARS: &'static str =
    "!\"$%&'()+-.0123456789:;<=>@ABCDEFGHIJKLMNOPQRSTUVWXYZ\\^_`abcdefghijklmnopqrstuvwxyz|~";

/// Whether `c` may stand in a method name: printable ASCII that is not
/// reserved.
pub open spec fn is_method_char(c: char) -> bool {
    '!' <= c <= '~' && !is_reserved(c)
}

/// What parsing one step gives: the parsed thing and the text after it.
pub struct Parsed<T> {
    pub value: T,
    pub rest: Seq<char>,
}

/// How many method characters `text` starts with.
pub open spec fn method_run(text: Seq<char>) -> nat
    decreases text.len(),
{
    if text.len() > 0 && is_method_char(text[0]) {
        1 + method_run(text.skip(1))
    } else {
        0
    }
}

/// The ranges and single characters that `text` starts with, as many as
/// there are.
pub open spec fn parse_ranges(text: Seq<char>) -> Parsed<Seq<(char, char)>>
    decreases text.len(),
{
    if text.len() >= 3 && is_method_char(text[0]) && text[1] == '-' && is_method_char(text[2]) {
        let more = parse_ranges(text.skip(3));
        Parsed { value: seq![(text[0], text[2])] + more.value, rest: more.rest }
    } else if text.len() >= 1 && is_method_char(text[0]) {
        let more = parse_ranges(text.skip(1));
        Parsed { value: seq![(text[0], text[0])] + more.value, rest: more.rest }
    } else {
        Parsed { value: Seq::empty(), rest: text }
    }
}

/// The character set that `text` starts with: `[`, `!` where it inverts,
/// one range or character or more, and `]`.
pub open spec fn parse_charset(text: Seq<char>) -> Option<Parsed<ExpressionView>> {
    let inverted = text.len() > 1 && text[1] == '!';
    let ranges = parse_ranges(
        if inverted {
            text.skip(2)
        } else {
            text.skip(1)
        },
    );
    if text.len() == 0 || text[0] != '[' || ranges.value.len() == 0 || ranges.rest.len() == 0
        || ranges.rest[0] != ']' {
        None
    } else {
        Some(
            Parsed {
                value: ExpressionView::Chars(inverted, ranges.value),
                rest: ranges.rest.skip(1),
            },
        )
    }
}

/// The literals, separated by `,`, that `text` starts with: one or more.
pub open spec fn parse_alternatives(text: Seq<char>) -> Option<Parsed<Seq<Seq<char>>>>
    decreases text.len(),
{
    let run = method_run(text);
    if run == 0 || run > text.len() {
        None
    } else if run < text.len() && text[run as int] == ',' {
        match parse_alternatives(text.skip(run as int + 1)) {
            None => None,
            Some(more) => Some(
                Parsed { value: seq![text.take(run as int)] + more.value, rest: more.rest },
            ),
        }
    } else {
        Some(Parsed { value: seq![text.take(run as int)], rest: text.skip(run as int) })
    }
}

/// The choice that `text` starts with: `{`, literals separated by `,`, and
/// `}`.
pub open spec fn parse_choice(text: Seq<char>) -> Option<Parsed<ExpressionView>> {
    if text.len() == 0 || text[0] != '{' {
        None
    } else {
        match parse_alternatives(text.skip(1)) {
            None => None,
            Some(found) => if found.rest.len() == 0 || found.rest[0] != '}' {
                None
            } else {
                Some(
                    Parsed {
                        value: ExpressionView::Literals(found.value),
                        rest: found.rest.skip(1),
                    },
                )
            },
        }
    }
}

/// The literal that `text` starts with: as many method characters as
/// there are, and one at least.
pub open spec fn parse_literal(text: Seq<char>) -> Option<Parsed<ExpressionView>> {
    let run = method_run(text);
    if run > 0 {
        Some(
            Parsed {
                value: ExpressionView::Literal(text.take(run as int)),
                rest: text.skip(run as int),
            },
        )
    } else {
        None
    }
}

/// The `?` that `text` starts with.
pub open spec fn parse_any_char(text: Seq<char>) -> Option<Parsed<ExpressionView>> {
    if text.len() > 0 && text[0] == '?' {
        Some(Parsed { value: ExpressionView::AnyChar, rest: text.skip(1) })
    } else {
        None
    }
}

/// The `*` that `text` starts with.
pub open spec fn parse_any_string(text: Seq<char>) -> Option<Parsed<ExpressionView>> {
    if text.len() > 0 && text[0] == '*' {
        Some(Parsed { value: ExpressionView::AnyString, rest: text.skip(1) })
    } else {
        None
    }
}

/// The element that `text` starts with: a literal, a character set, a
/// choice, `?` or `*`, whichever is there.
pub open spec fn parse_element(text: Seq<char>) -> Option<Parsed<ExpressionView>> {
    if parse_literal(text) is Some {
        parse_literal(text)
    } else if parse_charset(text) is Some {
        parse_charset(text)
    } else if parse_choice(text) is Some {
        parse_choice(text)
    } else if parse_any_char(text) is Some {
        parse_any_char(text)
    } else {
        parse_any_string(text)
    }
}

/// The elements that `text` starts with, as many as there are.
pub open spec fn parse_elements(text: Seq<char>) -> Parsed<Seq<ExpressionView>>
    decreases text.len(),
{
    match parse_element(text) {
        None => Parsed { value: Seq::empty(), rest: text },
        Some(first) => if first.rest.len() >= text.len() {
            Parsed { value: Seq::empty(), rest: text }
        } else {
            let more = parse_elements(first.rest);
            Parsed { value: seq![first.value] + more.value, rest: more.rest }
        },
    }
}

/// The expression tree of the pattern `text`, one sequence of elements for
/// each method part, where `text` as a whole is a pattern.
pub open spec fn parse_pattern(text: Seq<char>) -> Option<Seq<Seq<ExpressionView>>>
    decreases text.len(),
{
    if text.len() == 0 || text[0] != '/' {
        None
    } else {
        let part = parse_elements(text.skip(1));
        if part.value.len() == 0 {
            None
        } else if part.rest.len() == 0 {
            Some(seq![part.value])
        } else if part.rest.len() >= text.len() {
            None
        } else {
            match parse_pattern(part.rest) {
                None => None,
                Some(more) => Some(seq![part.value] + more),
            }
        }
    }
}

/// `first` put before the ranges that `rest` holds.
pub open spec fn ranges_after(first: Seq<(char, char)>, rest: Parsed<Seq<(char, char)>>) -> Parsed<
    Seq<(char, char)>,
> {
    Parsed { value: first + rest.value, rest: rest.rest }
}

/// `first` put before the literals that `rest` holds.
pub open spec fn alternatives_after(
    first: Seq<Seq<char>>,
    rest: Option<Parsed<Seq<Seq<char>>>>,
) -> Option<Parsed<Seq<Seq<char>>>> {
    match rest {
        None => None,
        Some(more) => Some(Parsed { value: first + more.value, rest: more.rest }),
    }
}

/// `first` put before the elements that `rest` holds.
pub open spec fn elements_after(
    first: Seq<ExpressionView>,
    rest: Parsed<Seq<ExpressionView>>,
) -> Parsed<Seq<ExpressionView>> {
    Parsed { value: first + rest.value, rest: rest.rest }
}

/// `first` put before the parts that `rest` holds.
pub open spec fn parts_after(
    first: Seq<Seq<ExpressionView>>,
    rest: Option<Seq<Seq<ExpressionView>>>,
) -> Option<Seq<Seq<ExpressionView>>> {
    match rest {
        None => None,
        Some(more) => Some(first + more),
    }
}

/// A run of method characters ends inside the text; what it covers are
/// method characters, and what follows it is none.
pub proof fn lemma_method_run(text: Seq<char>)
    ensures
        method_run(text) <= text.len(),
        forall|i: int| 0 <= i < method_run(text) ==> is_method_char(#[trigger] text[i]),
        method_run(text) < text.len() ==> !is_method_char(text[method_run(text) as int]),
    decreases text.len(),
{
    if text.len() > 0 && is_method_char(text[0]) {
        let rest = text.skip(1);
        lemma_method_run(rest);
        assert forall|i: int| 0 <= i < method_run(text) implies is_method_char(
            #[trigger] text[i],
        ) by {
            if i > 0 {
                assert(text[i] == rest[i - 1]);
            }
        }
        if method_run(text) < text.len() {
            assert(text[method_run(text) as int] == rest[method_run(rest) as int]);
        }
    }
}

/// A run of method characters is as long as it is where it ends before
/// a character that is none, or with the text.
pub proof fn lemma_method_run_is(text: Seq<char>, run: nat)
    requires
        run <= text.len(),
        forall|i: int| 0 <= i < run ==> is_method_char(#[trigger] text[i]),
        run < text.len() ==> !is_method_char(text[run as int]),
    ensures
        method_run(text) == run,
{
    lemma_method_run(text);
    let found = method_run(text);
    if found < run {
        assert(is_method_char(text[found as int]));
    } else if found > run {
        assert(is_method_char(text[run as int]));
    }
}

/// Whether `c` is a method character.
pub fn method_char(c: char) -> (yes: bool)
    ensures
        yes == is_method_char(c),
{
    let code = c as u32;
    0x21 <= code && code <= 0x7e && !(c == ' ' || c == '#' || c == '*' || c == ',' || c == '/'
        || c == '?' || c == '[' || c == ']' || c == '{' || c == '}')
}

/// Where the run of method characters that starts at `at` ends.
fn method_run_end(chars: &Vec<char>, at: usize) -> (end: usize)
    requires
        at <= chars@.len(),
    ensures
        at <= end <= chars@.len(),
        end - at == method_run(chars@.skip(at as int)),
{
    let mut end: usize = at;
    while end < chars.len() && method_char(chars[end])
        invariant
            at <= end <= chars@.len(),
            forall|i: int| at <= i < end ==> is_method_char(#[trigger] chars@[i]),
        decreases chars@.len() - end,
    {
        end += 1;
    }
    proof {
        let text = chars@.skip(at as int);
        assert forall|i: int| 0 <= i < end - at implies is_method_char(#[trigger] text[i]) by {
            assert(text[i] == chars@[at + i]);
        }
        if end < chars@.len() {
            assert(text[end - at] == chars@[end as int]);
        }
        lemma_method_run_is(text, (end - at) as nat);
    }
    end
}

/// Skipping on from a place that was skipped to.
proof fn lemma_skip_skip(text: Seq<char>, at: int, more: int)
    requires
        0 <= at,
        0 <= more,
        at + more <= text.len(),
    ensures
        text.skip(at).skip(more) == text.skip(at + more),
        text.skip(at).len() == text.len() - at,
        more < text.len() - at ==> text.skip(at)[more] == text[at + more],
{
    assert(text.skip(at).skip(more) =~= text.skip(at + more));
}

/// Whether what was found at `at` is what the grammar gives there.
pub open spec fn agrees(
    found: Option<(Expression, usize)>,
    expected: Option<Parsed<ExpressionView>>,
    chars: Seq<char>,
    at: usize,
) -> bool {
    match expected {
        None => found is None,
        Some(parsed) => found matches Some((expression, next)) && expression@ == parsed.value
            && at < next <= chars.len() && chars.skip(next as int) == parsed.rest,
    }
}

/// Reads the ranges and single characters that start at `at`.
#[verifier::rlimit(50)]
fn parse_ranges_at(chars: &Vec<char>, at: usize) -> (found: (Vec<(char, char)>, usize))
    requires
        at <= chars@.len(),
    ensures
        at <= found.1 <= chars@.len(),
        parse_ranges(chars@.skip(at as int)) == (Parsed {
            value: found.0@,
            rest: chars@.skip(found.1 as int),
        }),
{
    let mut ranges: Vec<(char, char)> = Vec::new();
    let mut i: usize = at;
    loop
        invariant
            at <= i <= chars@.len(),
            parse_ranges(chars@.skip(at as int)) == ranges_after(
                ranges@,
                parse_ranges(chars@.skip(i as int)),
            ),
        decreases chars@.len() - i,
    {
        let ghost text = chars@.skip(i as int);
        let ghost before = ranges@;
        if chars.len() - i >= 3 && method_char(chars[i]) && chars[i + 1] == '-' && method_char(
            chars[i + 2],
        ) {
            proof {
                lemma_skip_skip(chars@, i as int, 3);
                let more = parse_ranges(chars@.skip(i + 3));
                assert(before + (seq![(text[0], text[2])] + more.value) =~= before.push(
                    (text[0], text[2]),
                ) + more.value);
            }
            ranges.push((chars[i], chars[i + 2]));
            i += 3;
        } else if i < chars.len() && method_char(chars[i]) {
            proof {
                lemma_skip_skip(chars@, i as int, 1);
                let more = parse_ranges(chars@.skip(i + 1));
                assert(before + (seq![(text[0], text[0])] + more.value) =~= before.push(
                    (text[0], text[0]),
                ) + more.value);
            }
            ranges.push((chars[i], chars[i]));
            i += 1;
        } else {
            proof {
                assert(before + Seq::<(char, char)>::empty() =~= before);
            }
            return (ranges, i);
        }
    }
}

/// Reads the character set that starts with the `[` at `at`.
#[verifier::rlimit(50)]
fn parse_charset_at(chars: &Vec<char>, at: usize) -> (found: Option<(Expression, usize)>)
    requires
        at < chars@.len(),
        chars@[at as int] == '[',
    ensures
        agrees(found, parse_charset(chars@.skip(at as int)), chars@, at),
{
    let inverted = chars.len() - at > 1 && chars[at + 1] == '!';
    let start = if inverted {
        at + 2
    } else {
        at + 1
    };
    proof {
        lemma_skip_skip(chars@, at as int, 1);
        if chars@.len() - at >= 2 {
            lemma_skip_skip(chars@, at as int, 2);
        }
    }
    let (ranges, end) = parse_ranges_at(chars, start);
    if ranges.len() == 0 || end >= chars.len() || chars[end] != ']' {
        return None;
    }
    proof {
        lemma_skip_skip(chars@, end as int, 1);
    }
    Some((Expression::Chars(inverted, ranges), end + 1))
}

/// Reads the literals, separated by `,`, that start at `at`.
#[verifier::rlimit(50)]
fn parse_alternatives_at(chars: &Vec<char>, at: usize) -> (found: Option<(Vec<String>, usize)>)
    requires
        at <= chars@.len(),
    ensures
        match parse_alternatives(chars@.skip(at as int)) {
            None => found is None,
            Some(parsed) => found matches Some((texts, next)) && texts_of(texts@) == parsed.value
                && at < next <= chars@.len() && chars@.skip(next as int) == parsed.rest,
        },
{
    let mut texts: Vec<String> = Vec::new();
    let mut i: usize = at;
    loop
        invariant
            at <= i <= chars@.len(),
            i == at || texts@.len() > 0,
            parse_alternatives(chars@.skip(at as int)) == alternatives_after(
                texts_of(texts@),
                parse_alternatives(chars@.skip(i as int)),
            ),
        decreases chars@.len() - i,
    {
        let ghost text = chars@.skip(i as int);
        let ghost before = texts_of(texts@);
        let end = method_run_end(chars, i);
        if end == i {
            return None;
        }
        let literal = copy_text(chars, i, end);
        proof {
            lemma_skip_skip(chars@, i as int, end - i);
            assert(text.take(end - i) =~= literal@);
            assert(texts_of(texts@.push(literal)) =~= before.push(literal@));
        }
        texts.push(literal);
        if end < chars.len() && chars[end] == ',' {
            proof {
                lemma_skip_skip(chars@, i as int, end - i + 1);
                if let Some(more) = parse_alternatives(chars@.skip(end + 1)) {
                    assert(before + (seq![literal@] + more.value) =~= before.push(literal@)
                        + more.value);
                }
            }
            i = end + 1;
        } else {
            proof {
                assert(before + seq![literal@] =~= before.push(literal@));
            }
            return Some((texts, end));
        }
    }
}

/// Reads the choice that starts with the `{` at `at`.
fn parse_choice_at(chars: &Vec<char>, at: usize) -> (found: Option<(Expression, usize)>)
    requires
        at < chars@.len(),
        chars@[at as int] == '{',
    ensures
        agrees(found, parse_choice(chars@.skip(at as int)), chars@, at),
{
    proof {
        lemma_skip_skip(chars@, at as int, 1);
    }
    let size = chars.len();
    let (texts, end) = match parse_alternatives_at(chars, at + 1) {
        None => {
            return None;
        },
        Some(found) => found,
    };
    if end >= size || chars[end] != '}' {
        return None;
    }
    proof {
        lemma_skip_skip(chars@, end as int, 1);
    }
    Some((Expression::Literals(texts), end + 1))
}

/// Reads the element that starts at `at`.
#[verifier::rlimit(50)]
fn parse_element_at(chars: &Vec<char>, at: usize) -> (found: Option<(Expression, usize)>)
    requires
        at <= chars@.len(),
    ensures
        agrees(found, parse_element(chars@.skip(at as int)), chars@, at),
{
    let end = method_run_end(chars, at);
    proof {
        lemma_skip_skip(chars@, at as int, end - at);
        if at < chars@.len() {
            lemma_skip_skip(chars@, at as int, 1);
        }
    }
    if end > at {
        let literal = copy_text(chars, at, end);
        assert(chars@.skip(at as int).take(end - at) =~= literal@);
        return Some((Expression::Literal(literal), end));
    }
    if at >= chars.len() {
        return None;
    }
    let c = chars[at];
    if c == '[' {
        parse_charset_at(chars, at)
    } else if c == '{' {
        parse_choice_at(chars, at)
    } else if c == '?' {
        Some((Expression::AnyChar, at + 1))
    } else if c == '*' {
        Some((Expression::AnyString, at + 1))
    } else {
        None
    }
}

/// Reads the elements that start at `at`, as many as there are.
#[verifier::rlimit(50)]
fn parse_elements_at(chars: &Vec<char>, at: usize) -> (found: (Vec<Expression>, usize))
    requires
        at <= chars@.len(),
    ensures
        at <= found.1 <= chars@.len(),
        parse_elements(chars@.skip(at as int)) == (Parsed {
            value: part_view(found.0@),
            rest: chars@.skip(found.1 as int),
        }),
{
    let mut elements: Vec<Expression> = Vec::new();
    let mut i: usize = at;
    loop
        invariant
            at <= i <= chars@.len(),
            parse_elements(chars@.skip(at as int)) == elements_after(
                part_view(elements@),
                parse_elements(chars@.skip(i as int)),
            ),
        decreases chars@.len() - i,
    {
        let ghost before = part_view(elements@);
        match parse_element_at(chars, i) {
            None => {
                proof {
                    assert(before + Seq::<ExpressionView>::empty() =~= before);
                }
                return (elements, i);
            },
            Some((element, next)) => {
                proof {
                    lemma_skip_skip(chars@, i as int, 0);
                    assert(part_view(elements@.push(element)) =~= before.push(element@));
                    let more = parse_elements(chars@.skip(next as int));
                    assert(before + (seq![element@] + more.value) =~= before.push(element@)
                        + more.value);
                }
                elements.push(element);
                i = next;
            },
        }
    }
}

/// Whether what was found, with the text after it, is what the grammar
/// gives.
pub open spec fn found_with_rest(
    found: Option<(Expression, String)>,
    expected: Option<Parsed<ExpressionView>>,
) -> bool {
    match expected {
        None => found is None,
        Some(parsed) => found matches Some((expression, rest)) && expression@ == parsed.value
            && rest@ == parsed.rest,
    }
}

/// What was found at the start of `chars`, with the text after it in place
/// of the position.
fn with_rest(chars: &Vec<char>, found: Option<(Expression, usize)>) -> (result: Option<
    (Expression, String),
>)
    requires
        found matches Some((_, next)) ==> next <= chars@.len(),
    ensures
        match found {
            None => result is None,
            Some((expression, next)) => result matches Some((same, rest)) && same@ == expression@
                && rest@ == chars@.skip(next as int),
        },
{
    match found {
        None => None,
        Some((expression, next)) => {
            let rest = copy_text(chars, next, chars.len());
            Some((expression, rest))
        },
    }
}

/// Reads the literal that `text` starts with, and hands it back with the
/// text after it.
pub fn pattern_literal(text: &str) -> (found: Option<(Expression, String)>)
    ensures
        found_with_rest(found, parse_literal(text@)),
{
    let chars = to_chars(text);
    assert(chars@.skip(0) =~= chars@);
    let end = method_run_end(&chars, 0);
    if end == 0 {
        return None;
    }
    let literal = copy_text(&chars, 0, end);
    assert(chars@.take(end as int) =~= literal@);
    with_rest(&chars, Some((Expression::Literal(literal), end)))
}

/// Reads the character set that `text` starts with, and hands it back with
/// the text after it.
pub fn pattern_select_char(text: &str) -> (found: Option<(Expression, String)>)
    ensures
        found_with_rest(found, parse_charset(text@)),
{
    let chars = to_chars(text);
    assert(chars@.skip(0) =~= chars@);
    if chars.len() == 0 || chars[0] != '[' {
        return None;
    }
    let found = parse_charset_at(&chars, 0);
    with_rest(&chars, found)
}

/// Reads the choice that `text` starts with, and hands it back with the
/// text after it.
pub fn pattern_select_string(text: &str) -> (found: Option<(Expression, String)>)
    ensures
        found_with_rest(found, parse_choice(text@)),
{
    let chars = to_chars(text);
    assert(chars@.skip(0) =~= chars@);
    if chars.len() == 0 || chars[0] != '{' {
        return None;
    }
    let found = parse_choice_at(&chars, 0);
    with_rest(&chars, found)
}

/// Reads the `?` that `text` starts with, and hands it back with the text
/// after it.
pub fn pattern_any_char(text: &str) -> (found: Option<(Expression, String)>)
    ensures
        found_with_rest(found, parse_any_char(text@)),
{
    let chars = to_chars(text);
    if chars.len() == 0 || chars[0] != '?' {
        return None;
    }
    with_rest(&chars, Some((Expression::AnyChar, 1)))
}

/// Reads the `*` that `text` starts with, and hands it back with the text
/// after it.
pub fn pattern_any_string(text: &str) -> (found: Option<(Expression, String)>)
    ensures
        found_with_rest(found, parse_any_string(text@)),
{
    let chars = to_chars(text);
    if chars.len() == 0 || chars[0] != '*' {
        return None;
    }
    with_rest(&chars, Some((Expression::AnyString, 1)))
}

/// The functions that read and compile address patterns.
pub struct AddressPattern;

impl AddressPattern {
    /// Parses an address pattern into its expression tree: the elements
    /// of each method part. What is not a pattern is refused, with the
    /// reason and the place in the error.
    #[verifier::rlimit(50)]
    pub fn parse(pattern: &str) -> (tree: Result<Vec<Vec<Expression>>, Error>)
        ensures
            match parse_pattern(pattern@) {
                Some(expected) => tree is Ok && tree_view(tree->Ok_0@) == expected,
                None => tree is Err && tree->Err_0 is InvalidPattern,
            },
    {
        let chars = to_chars(pattern);
        let mut parts: Vec<Vec<Expression>> = Vec::new();
        let mut i: usize = 0;
        assert(chars@.skip(0) =~= chars@);
        loop
            invariant
                i <= chars@.len(),
                chars@ == pattern@,
                parse_pattern(pattern@) == parts_after(
                    tree_view(parts@),
                    parse_pattern(chars@.skip(i as int)),
                ),
            decreases chars@.len() - i,
        {
            let ghost before = tree_view(parts@);
            proof {
                lemma_skip_skip(chars@, i as int, 0);
                if i < chars@.len() {
                    lemma_skip_skip(chars@, i as int, 1);
                }
            }
            if i >= chars.len() || chars[i] != '/' {
                return Err(Error::InvalidPattern(refusal("expected `/` at ", i)));
            }
            let (elements, next) = parse_elements_at(&chars, i + 1);
            if elements.len() == 0 {
                return Err(Error::InvalidPattern(refusal("expected an element at ", i + 1)));
            }
            proof {
                assert(tree_view(parts@.push(elements)) =~= before.push(part_view(elements@)));
                assert(before + seq![part_view(elements@)] =~= before.push(part_view(elements@)));
                if let Some(more) = parse_pattern(chars@.skip(next as int)) {
                    assert(before + (seq![part_view(elements@)] + more) =~= before.push(
                        part_view(elements@),
                    ) + more);
                }
            }
            parts.push(elements);
            if next >= chars.len() {
                return Ok(parts);
            }
            i = next;
        }
    }
}

/// A reason for refusing a pattern: what was missed, and the place where
/// it was missed, in decimal.
fn refusal(what: &str, at: usize) -> (reason: String)
    ensures
        reason@ == what@ + decimal_digits(at as nat),
{
    let mut reason = String::new();
    reason.append(what);
    reason.append(position_text(at).as_str());
    assert(reason@ =~= what@ + decimal_digits(at as nat));
    reason
}

/// A position in decimal: its digits, most significant first, without
/// leading zeros.
fn position_text(at: usize) -> (text: String)
    ensures
        text@ == decimal_digits(at as nat),
{
    // The digits come out least significant first.
    let mut digits: Vec<char> = Vec::new();
    let mut left: usize = at;
    assert(decimal_digits(left as nat) + digits@.reverse() =~= decimal_digits(at as nat));
    while left >= 10
        invariant
            decimal_digits(at as nat) == decimal_digits(left as nat) + digits@.reverse(),
        decreases left,
    {
        let digit = (left % 10) as u8;
        let c = (0x30u8 + digit) as char;
        proof {
            let shorter = decimal_digits((left / 10) as nat);
            assert(c == digit_char((left % 10) as nat));
            assert(decimal_digits(left as nat) == shorter.push(c));
            assert(digits@.push(c).reverse() =~= seq![c] + digits@.reverse());
            assert(shorter.push(c) + digits@.reverse() =~= shorter + (seq![c] + digits@.reverse()));
        }
        digits.push(c);
        left = left / 10;
    }
    let last = (0x30u8 + (left as u8)) as char;
    proof {
        assert(last == digit_char(left as nat));
        assert(decimal_digits(left as nat) == seq![last]);
        assert(digits@.push(last).reverse() =~= seq![last] + digits@.reverse());
    }
    digits.push(last);

    let mut text = String::new();
    let mut i: usize = digits.len();
    assert(digits@.reverse().take(0) =~= Seq::<char>::empty());
    while i > 0
        invariant
            i <= digits@.len(),
            text@ == digits@.reverse().take(digits@.len() - i),
        decreases i,
    {
        i -= 1;
        text.push(digits[i]);
        assert(text@ =~= digits@.reverse().take(digits@.len() - i));
    }
    assert(digits@.reverse().take(digits@.len() as int) =~= digits@.reverse());
    text
}

/// `regex::Regex`, a compiled regular expression. Nothing of its inside is
/// known here; what is said of it is said by `regex_source` and
/// `regex_accepts`.
#[verifier::external_type_specification]
#[verifier::external_body]
pub struct ExRegex(regex::Regex);

/// The expression that a compiled regular expression was made from, as
/// `Regex::as_str` gives it.
pub uninterp spec fn regex_source(compiled: &Regex) -> Seq<char>;

/// Whether a compiled regular expression has a match in `haystack`, as
/// `Regex::is_match` tells.
pub uninterp spec fn regex_accepts(compiled: &Regex, haystack: Seq<char>) -> bool;

/// Whether the regular expression `expression`, once `Regex::new` has
/// compiled it, has a match in `haystack`.
pub uninterp spec fn expression_accepts(expression: Seq<char>, haystack: Seq<char>) -> bool;

/// Whether `Regex::new` compiles the regular expression `expression` on a
/// machine whose `usize` has `word_bits` bits. It refuses an expression
/// that is malformed, and one whose compiled form is larger than the limit
/// that it sets itself; that form is measured in bytes of the machine, so
/// the width of its words has a say.
pub uninterp spec fn expression_compiles(expression: Seq<char>, word_bits: nat) -> bool;

/// Whether `compiled` is what `Regex::new` makes of `expression`: it keeps
/// the expression as its source and matches as the expression does.
pub open spec fn compiled_from(compiled: &Regex, expression: Seq<char>) -> bool {
    &&& regex_source(compiled) == expression
    &&& forall|haystack: Seq<char>| #[trigger]
        regex_accepts(compiled, haystack) == expression_accepts(expression, haystack)
}

/// `Regex::new` compiles `expression`, or refuses it and says why. Whether
/// it compiles depends on the expression and on the width of the machine's
/// words, and on nothing else. What it compiles keeps the expression as
/// its source, and matches as the expression does under the settings that
/// `Regex::new` uses.
#[verifier::external_body]
fn regex_new(expression: &str) -> (compiled: Result<Regex, String>)
    ensures
        compiled is Ok <==> expression_compiles(expression@, usize::BITS as nat),
        compiled matches Ok(made) ==> regex_source(&made) == expression@ && forall|
            haystack: Seq<char>,
        | #[trigger]
            regex_accepts(&made, haystack) == expression_accepts(expression@, haystack),
{
    Regex::new(expression).map_err(|refusal| refusal.to_string())
}

/// `Regex::is_match` tells whether the regular expression has a match in
/// the haystack.
#[verifier::external_body]
fn regex_is_match(compiled: &Regex, haystack: &str) -> (yes: bool)
    ensures
        yes == regex_accepts(compiled, haystack@),
{
    compiled.is_match(haystack)
}

/// `Regex::as_str` gives the expression that the regular expression was
/// compiled from.
#[verifier::external_body]
fn regex_as_str(compiled: &Regex) -> (expression: &str)
    ensures
        expression@ == regex_source(compiled),
{
    compiled.as_str()
}

/// `regex::escape` copies the text and puts a backslash before each
/// character that means something in a regular expression.
#[verifier::external_body]
fn regex_escape(text: &str) -> (quoted: String)
    ensures
        quoted@ == escaped(text@),
{
    regex::escape(text)
}

/// Whether `c` means something in a regular expression.
pub open spec fn is_meta_character(c: char) -> bool {
    c == '\\' || c == '.' || c == '+' || c == '*' || c == '?' || c == '(' || c == ')' || c == '|'
        || c == '[' || c == ']' || c == '{' || c == '}' || c == '^' || c == '$' || c == '#' || c
        == '&' || c == '-' || c == '~'
}

/// `c`, behind a backslash where it means something in a regular
/// expression.
pub open spec fn escaped_char(c: char) -> Seq<char> {
    if is_meta_character(c) {
        seq!['\\', c]
    } else {
        seq![c]
    }
}

/// `text` with each of its characters escaped.
pub open spec fn escaped(text: Seq<char>) -> Seq<char>
    decreases text.len(),
{
    if text.len() == 0 {
        Seq::empty()
    } else {
        escaped(text.drop_last()) + escaped_char(text.last())
    }
}

/// A range inside a character class: the escaped first character, and
/// where the last differs from it, `-` and the escaped last one.
pub open spec fn range_text(range: (char, char)) -> Seq<char> {
    if range.0 == range.1 {
        escaped(seq![range.0])
    } else {
        escaped(seq![range.0]) + seq!['-'] + escaped(seq![range.1])
    }
}

/// The first `n` of `ranges` inside a character class.
pub open spec fn ranges_text(ranges: Seq<(char, char)>, n: nat) -> Seq<char>
    decreases n,
{
    if n == 0 || n > ranges.len() {
        Seq::empty()
    } else {
        ranges_text(ranges, (n - 1) as nat) + range_text(ranges[n - 1])
    }
}

/// The first `n` of `literals`, escaped, with `|` between them.
pub open spec fn alternation(literals: Seq<Seq<char>>, n: nat) -> Seq<char>
    decreases n,
{
    if n == 0 || n > literals.len() {
        Seq::empty()
    } else if n == 1 {
        escaped(literals[0])
    } else {
        alternation(literals, (n - 1) as nat) + seq!['|'] + escaped(literals[n - 1])
    }
}

impl ExpressionView {
    /// The regular expression for this element: a literal escaped, a
    /// choice as a group without capture, a character set as a class,
    /// `.` for any character and `(?:.*)` for any string.
    pub open spec fn regex_part(self) -> Seq<char> {
        match self {
            ExpressionView::Literal(text) => escaped(text),
            ExpressionView::Literals(literals) => seq!['(', '?', ':'] + alternation(
                literals,
                literals.len(),
            ) + seq![')'],
            ExpressionView::Chars(inverted, ranges) => (if inverted {
                seq!['[', '^']
            } else {
                seq!['[']
            }) + ranges_text(ranges, ranges.len()) + seq![']'],
            ExpressionView::AnyChar => seq!['.'],
            ExpressionView::AnyString => seq!['(', '?', ':', '.', '*', ')'],
        }
    }
}

/// The regular expressions of the first `n` elements of `part`, one after
/// the other.
pub open spec fn part_text(part: Seq<ExpressionView>, n: nat) -> Seq<char>
    decreases n,
{
    if n == 0 || n > part.len() {
        Seq::empty()
    } else {
        part_text(part, (n - 1) as nat) + part[n - 1].regex_part()
    }
}

/// The regular expressions of the first `n` parts of `tree`, each behind
/// a `/`.
pub open spec fn parts_text(tree: Seq<Seq<ExpressionView>>, n: nat) -> Seq<char>
    decreases n,
{
    if n == 0 || n > tree.len() {
        Seq::empty()
    } else {
        parts_text(tree, (n - 1) as nat) + seq!['/'] + part_text(tree[n - 1], tree[n - 1].len())
    }
}

/// The regular expression of a pattern: its parts between `^` and `$`.
pub open spec fn regex_text(tree: Seq<Seq<ExpressionView>>) -> Seq<char> {
    seq!['^'] + parts_text(tree, tree.len()) + seq!['$']
}

/// One character, escaped.
fn escape_char(c: char) -> (quoted: String)
    ensures
        quoted@ == escaped(seq![c]),
{
    let mut one = String::new();
    one.push(c);
    assert(one@ =~= seq![c]);
    regex_escape(one.as_str())
}

impl Expression {
    /// Appends the regular expression for this element to `regex_string`.
    #[verifier::rlimit(50)]
    pub fn push_regex_part(&self, regex_string: &mut String)
        ensures
            final(regex_string)@ == old(regex_string)@ + self@.regex_part(),
    {
        let ghost before = regex_string@;
        match self {
            Expression::Literal(text) => {
                regex_string.append(regex_escape(text.as_str()).as_str());
            },
            Expression::Literals(literals) => {
                regex_string.push('(');
                regex_string.push('?');
                regex_string.push(':');
                let ghost opened = regex_string@;
                let ghost texts = texts_of(literals@);
                let mut i: usize = 0;
                while i < literals.len()
                    invariant
                        i <= literals@.len(),
                        texts == texts_of(literals@),
                        regex_string@ == opened + alternation(texts, i as nat),
                    decreases literals@.len() - i,
                {
                    if i > 0 {
                        regex_string.push('|');
                    }
                    regex_string.append(regex_escape(literals[i].as_str()).as_str());
                    i += 1;
                    assert(texts[i - 1] == literals@[i - 1]@);
                    assert(regex_string@ =~= opened + alternation(texts, i as nat));
                }
                regex_string.push(')');
                assert(regex_string@ =~= before + self@.regex_part());
            },
            Expression::Chars(inverted, ranges) => {
                regex_string.push('[');
                if *inverted {
                    regex_string.push('^');
                }
                let ghost opened = regex_string@;
                let mut i: usize = 0;
                while i < ranges.len()
                    invariant
                        i <= ranges@.len(),
                        regex_string@ == opened + ranges_text(ranges@, i as nat),
                    decreases ranges@.len() - i,
                {
                    let (start, end) = ranges[i];
                    regex_string.append(escape_char(start).as_str());
                    if start != end {
                        regex_string.push('-');
                        regex_string.append(escape_char(end).as_str());
                    }
                    i += 1;
                    assert(regex_string@ =~= opened + ranges_text(ranges@, i as nat));
                }
                regex_string.push(']');
                assert(regex_string@ =~= before + self@.regex_part());
            },
            Expression::AnyChar => {
                regex_string.push('.');
                assert(regex_string@ =~= before + self@.regex_part());
            },
            Expression::AnyString => {
                regex_string.push('(');
                regex_string.push('?');
                regex_string.push(':');
                regex_string.push('.');
                regex_string.push('*');
                regex_string.push(')');
                assert(regex_string@ =~= before + self@.regex_part());
            },
        }
    }
}

impl AddressPattern {
    /// The regular expression of the pattern, as text: `^`, each method
    /// part behind a `/`, and `$`.
    #[verifier::rlimit(50)]
    pub fn to_regex_string(pattern: &str) -> (text: Result<String, Error>)
        ensures
            match parse_pattern(pattern@) {
                Some(tree) => text is Ok && text->Ok_0@ == regex_text(tree),
                None => text is Err && text->Err_0 is InvalidPattern,
            },
    {
        let expression_tree = match AddressPattern::parse(pattern) {
            Ok(tree) => tree,
            Err(e) => {
                return Err(e);
            },
        };
        let ghost tree = tree_view(expression_tree@);
        let mut regex_string = String::new();
        regex_string.push('^');
        let mut i: usize = 0;
        while i < expression_tree.len()
            invariant
                i <= expression_tree@.len(),
                tree == tree_view(expression_tree@),
                regex_string@ == seq!['^'] + parts_text(tree, i as nat),
            decreases expression_tree@.len() - i,
        {
            regex_string.push('/');
            let method_part = &expression_tree[i];
            let ghost opened = regex_string@;
            let ghost part = part_view(method_part@);
            assert(tree[i as int] == part);
            let mut j: usize = 0;
            while j < method_part.len()
                invariant
                    j <= method_part@.len(),
                    part == part_view(method_part@),
                    regex_string@ == opened + part_text(part, j as nat),
                decreases method_part@.len() - j,
            {
                method_part[j].push_regex_part(&mut regex_string);
                j += 1;
                assert(part[j - 1] == method_part@[j - 1]@);
                assert(regex_string@ =~= opened + part_text(part, j as nat));
            }
            i += 1;
            assert(regex_string@ =~= seq!['^'] + parts_text(tree, i as nat));
        }
        regex_string.push('$');
        assert(regex_string@ =~= regex_text(tree));
        Ok(regex_string)
    }

    /// Parses an address pattern and compiles its regular expression. It
    /// succeeds on a pattern of the grammar whose regular expression
    /// compiles, and on no other.
    ///
    /// The regular expression does not ask whether what `?` or `*` stands
    /// for may stand in an address: the one made from `/foo?` accepts
    /// `/foo,`, which is no address. An `Address` is checked when it is
    /// made, so `matches` asks for one.
    pub fn compile_to_regex(pattern: &str) -> (compiled: Result<Regex, Error>)
        ensures
            compiled is Ok <==> (parse_pattern(pattern@) matches Some(tree) && expression_compiles(
                regex_text(tree),
                usize::BITS as nat,
            )),
            compiled matches Ok(made) ==> parse_pattern(pattern@) matches Some(tree)
                && compiled_from(&made, regex_text(tree)),
            compiled matches Err(e) ==> e is InvalidPattern,
    {
        let regex_string = match AddressPattern::to_regex_string(pattern) {
            Ok(text) => text,
            Err(e) => {
                return Err(e);
            },
        };
        match regex_new(regex_string.as_str()) {
            Ok(made) => Ok(made),
            Err(reason) => Err(Error::InvalidPattern(reason)),
        }
    }

    /// The regular expression that `compiled` was compiled from.
    pub fn expression(compiled: &Regex) -> (expression: &str)
        ensures
            expression@ == regex_source(compiled),
    {
        regex_as_str(compiled)
    }

    /// Whether `address` matches the compiled pattern.
    pub fn matches(compiled: &Regex, address: &Address) -> (yes: bool)
        ensures
            yes == regex_accepts(compiled, address@),
    {
        regex_is_match(compiled, address.as_str())
    }
}

/// Whether an address matches does not depend on which compilation of the
/// pattern is asked: two regular expressions compiled from one expression
/// accept the same addresses.
pub proof fn lemma_match_independent_of_compilation(
    first: &Regex,
    second: &Regex,
    expression: Seq<char>,
    address: Seq<char>,
)
    requires
        compiled_from(first, expression),
        compiled_from(second, expression),
    ensures
        regex_accepts(first, address) == regex_accepts(second, address),
        regex_accepts(first, address) == expression_accepts(expression, address),
{
}

} // verus!
