//! Parse primitives.

use crate::parse::combinator::atomic_ignore_whitespace;
use crate::parse::combinator::first_match;
use crate::parse::combinator::lemma_first_match;
use crate::parse::combinator::spec_first_match;
use crate::parse::combinator::Literals;
use crate::parse::combinator::circumfix;
use crate::parse::combinator::maybe;
use crate::parse::combinator::postfix;
use crate::parse::combinator::prefix;
use crate::parse::combinator::repeat;
use crate::parse::combinator::AtomicIgnoreWhitespace;
use crate::parse::combinator::Circumfix;
use crate::parse::combinator::Intersperse;
use crate::parse::combinator::Maybe;
use crate::parse::combinator::Null;
use crate::parse::combinator::Postfix;
use crate::parse::combinator::Prefix;
use crate::parse::parser::CharPredicate;
use crate::parse::parser::Parser;
use crate::parse::result::Failure;
use crate::parse::result::FailureView;
use crate::parse::result::anchored;
use crate::parse::result::join_previous;
use crate::parse::result::lemma_spec_join_previous_anchored;
use crate::parse::result::result_view;
use crate::parse::result::spec_join_previous;
use crate::parse::result::spec_source_for;
use crate::parse::result::spec_tokenize_value;
use crate::parse::result::FailureSource;
use crate::parse::result::SourceView;
use crate::parse::result::ParseResult;
use crate::parse::result::ResultView;
use crate::parse::result::Success;
use crate::parse::result::SuccessView;
use crate::text::char_len;
use crate::text::char_text;
use crate::text::concat2;
use crate::text::digit_value;
use crate::text::spec_digit_value;
use crate::text::eq_ignore_ascii_case;
use crate::text::first_char;
use crate::text::is_whitespace;
use crate::text::push_decimal;
use crate::text::skip;
use crate::text::spec_decimal;
use crate::text::spec_eq_ignore_ascii_case;
use crate::text::spec_is_whitespace;
use crate::text::take;
use crate::text::Text;
use crate::parse::result::ParseResultExt;
use vstd::prelude::*;
use vstd::std_specs::convert::TryFromSpec;

verus! {

////////////////////////////////////////////////////////////////////////////////
// Char parsing.
////////////////////////////////////////////////////////////////////////////////

/// The result of a parser that takes the first character of `text` if
/// `accepted` holds of it, and else fails expecting `expected`.
pub open spec fn spec_first_char(text: Seq<char>, accepted: bool, expected: Seq<char>)
    -> ResultView<char> {
    if text.len() > 0 && accepted {
        Ok(SuccessView::split(text[0], text, 1))
    } else {
        Err(FailureView::at(text, expected))
    }
}

/// A parser which parses one given `char`.
pub struct Char {
    /// The character to parse.
    pub c: char,
}

impl<'t> Parser<'t> for Char {
    type Value = char;

    open spec fn well_formed(&self) -> bool {
        true
    }

    open spec fn spec_parse(&self, text: Seq<char>) -> ResultView<char> {
        spec_first_char(text, text.len() > 0 && text[0] == self.c, seq![self.c])
    }

    proof fn lemma_anchored(&self, text: Seq<char>) {
    }

    fn parse(&self, text: &'t str) -> (r: ParseResult<'t, char>) {
        let matched = match first_char(text) {
            Some(c) => c == self.c,
            None => false,
        };
        let r: ParseResult<'t, char> = if matched {
            Ok(Success { token: take(text, 1), rest: skip(text, 1), value: self.c })
        } else {
            Err(
                Failure {
                    context: take(text, 0),
                    rest: text,
                    expected: Text::Owned(char_text(self.c)),
                    source: None,
                },
            )
        };
        assert(result_view(r) == self.spec_parse(text@));
        r
    }
}

/// Returns a parser which parses the specified `char`.
pub fn char(c: char) -> (p: Char)
    ensures
        p == (Char { c }),
{
    Char { c }
}

/// A parser which parses any single `char` of a given string.
pub struct CharIn<'o> {
    /// The characters to choose from.
    pub opts: &'o str,
}

impl<'t, 'o> Parser<'t> for CharIn<'o> {
    type Value = char;

    open spec fn well_formed(&self) -> bool {
        true
    }

    open spec fn spec_parse(&self, text: Seq<char>) -> ResultView<char> {
        spec_first_char(
            text,
            text.len() > 0 && self.opts@.contains(text[0]),
            "one of "@ + self.opts@,
        )
    }

    proof fn lemma_anchored(&self, text: Seq<char>) {
    }

    fn parse(&self, text: &'t str) -> (r: ParseResult<'t, char>) {
        if let Some(first) = first_char(text) {
            let count = char_len(self.opts);
            let mut i: usize = 0;
            while i < count
                invariant
                    count == self.opts@.len(),
                    i <= count,
                    text@.len() > 0,
                    first == text@[0],
                    forall|j: int| 0 <= j < i ==> self.opts@[j] != first,
                decreases count - i,
            {
                if self.opts.get_char(i) == first {
                    assert(self.opts@[i as int] == first);
                    return Ok(Success { token: take(text, 1), rest: skip(text, 1), value: first });
                }
                i += 1;
            }
        }
        Err(
            Failure {
                context: take(text, 0),
                rest: text,
                expected: Text::Owned(concat2("one of ", self.opts)),
                source: None,
            },
        )
    }
}

/// Returns a parser which parses any single `char` in the given string.
pub fn char_in<'o>(opts: &'o str) -> (p: CharIn<'o>)
    ensures
        p == (CharIn { opts }),
{
    CharIn { opts }
}

/// A parser which parses a `char` if it satisfies a predicate.
pub struct CharMatching<F> {
    /// The predicate.
    pub f: F,
}

impl<'t, F: CharPredicate> Parser<'t> for CharMatching<F> {
    type Value = char;

    open spec fn well_formed(&self) -> bool {
        true
    }

    open spec fn spec_parse(&self, text: Seq<char>) -> ResultView<char> {
        spec_first_char(
            text,
            text.len() > 0 && self.f.spec_accepts(text[0]),
            "char satisfying predicate"@,
        )
    }

    proof fn lemma_anchored(&self, text: Seq<char>) {
    }

    fn parse(&self, text: &'t str) -> (r: ParseResult<'t, char>) {
        let accepted = match first_char(text) {
            Some(c) => if self.f.accepts(c) {
                Some(c)
            } else {
                None
            },
            None => None,
        };
        let r: ParseResult<'t, char> = match accepted {
            Some(c) => Ok(Success { token: take(text, 1), rest: skip(text, 1), value: c }),
            None => Err(
                Failure {
                    context: take(text, 0),
                    rest: text,
                    expected: Text::Borrowed("char satisfying predicate"),
                    source: None,
                },
            ),
        };
        assert(result_view(r) == self.spec_parse(text@));
        r
    }
}

/// Returns a parser which parses a `char` if it satisfies the given predicate.
pub fn char_matching<F: CharPredicate>(f: F) -> (p: CharMatching<F>)
    ensures
        p == (CharMatching { f }),
{
    CharMatching { f }
}

/// The property of being a whitespace character.
pub struct IsWhitespace;

impl CharPredicate for IsWhitespace {
    open spec fn spec_accepts(&self, c: char) -> bool {
        spec_is_whitespace(c)
    }

    fn accepts(&self, c: char) -> (b: bool) {
        is_whitespace(c)
    }
}

/// The property that every character has.
pub struct AnyChar;

impl CharPredicate for AnyChar {
    open spec fn spec_accepts(&self, c: char) -> bool {
        true
    }

    fn accepts(&self, c: char) -> (b: bool) {
        true
    }
}

/// The result of parsing a whitespace `char`.
pub open spec fn spec_char_whitespace(text: Seq<char>) -> ResultView<char> {
    spec_source_for((CharMatching { f: IsWhitespace }).spec_parse(text), "whitespace char"@)
}

/// Parses a whitespace `char`.
pub fn char_whitespace<'t>(text: &'t str) -> (r: ParseResult<'t, char>)
    ensures
        result_view(r) == spec_char_whitespace(text@),
{
    char_matching(IsWhitespace).parse(text).source_for(Text::Borrowed("whitespace char"))
}

/// The parser of a whitespace `char`.
pub struct CharWhitespace;

impl<'t> Parser<'t> for CharWhitespace {
    type Value = char;

    open spec fn well_formed(&self) -> bool {
        true
    }

    open spec fn spec_parse(&self, text: Seq<char>) -> ResultView<char> {
        spec_char_whitespace(text)
    }

    proof fn lemma_anchored(&self, text: Seq<char>) {
    }

    fn parse(&self, text: &'t str) -> (r: ParseResult<'t, char>) {
        char_whitespace(text)
    }
}

////////////////////////////////////////////////////////////////////////////////
// String parsing.
////////////////////////////////////////////////////////////////////////////////

/// The number of characters, from position `from` on, up to which `text`
/// goes along with `expect`; the first `from` characters are taken to match.
pub open spec fn spec_matched_len(
    expect: Seq<char>,
    text: Seq<char>,
    ignore_case: bool,
    from: nat,
) -> nat
    decreases expect.len() - from,
{
    if from < expect.len() && from < text.len() && spec_same_char(
        expect[from as int],
        text[from as int],
        ignore_case,
    ) {
        spec_matched_len(expect, text, ignore_case, from + 1)
    } else {
        from
    }
}

/// Two characters are the same, exactly or up to ASCII case.
pub open spec fn spec_same_char(a: char, b: char, ignore_case: bool) -> bool {
    if ignore_case {
        spec_eq_ignore_ascii_case(a, b)
    } else {
        a == b
    }
}

/// The result of parsing the literal `expect` at the start of `text`: the
/// success takes as many characters as `expect` has; the failure has as its
/// context the part of `text` that did match.
pub open spec fn spec_literal(
    expect: Seq<char>,
    text: Seq<char>,
    ignore_case: bool,
    expected: Seq<char>,
) -> ResultView<Seq<char>> {
    let matched = spec_matched_len(expect, text, ignore_case, 0);
    if matched == expect.len() {
        Ok(SuccessView::split(text.take(matched as int), text, matched as int))
    } else {
        Err(
            FailureView {
                context: text.take(matched as int),
                expected,
                source: None,
                rest: text,
            },
        )
    }
}

/// The matched length lies between its starting position and the length of
/// either text.
pub proof fn lemma_matched_len_bounds(
    expect: Seq<char>,
    text: Seq<char>,
    ignore_case: bool,
    from: nat,
)
    requires
        from <= expect.len(),
        from <= text.len(),
    ensures
        from <= spec_matched_len(expect, text, ignore_case, from) <= expect.len(),
        spec_matched_len(expect, text, ignore_case, from) <= text.len(),
    decreases expect.len() - from,
{
    if from < expect.len() && from < text.len() && spec_same_char(
        expect[from as int],
        text[from as int],
        ignore_case,
    ) {
        lemma_matched_len_bounds(expect, text, ignore_case, from + 1);
    }
}

/// Returns how many characters of `text` go along with `expect`.
fn matched_len(expect: &str, text: &str, ignore_case: bool) -> (n: usize)
    ensures
        n == spec_matched_len(expect@, text@, ignore_case, 0),
        n <= expect@.len(),
        n <= text@.len(),
{
    let expect_len = char_len(expect);
    let text_len = char_len(text);
    let mut i: usize = 0;
    while i < expect_len && i < text_len
        invariant
            expect_len == expect@.len(),
            text_len == text@.len(),
            i <= expect_len,
            i <= text_len,
            spec_matched_len(expect@, text@, ignore_case, 0) == spec_matched_len(
                expect@,
                text@,
                ignore_case,
                i as nat,
            ),
        decreases expect_len - i,
    {
        let e = expect.get_char(i);
        let t = text.get_char(i);
        let same = if ignore_case {
            eq_ignore_ascii_case(e, t)
        } else {
            e == t
        };
        if !same {
            return i;
        }
        i += 1;
    }
    i
}

/// A parser which parses a given text literal.
pub struct Literal<'e> {
    /// The text to parse.
    pub expect: &'e str,
}

impl<'t, 'e> Parser<'t> for Literal<'e> {
    type Value = &'t str;

    open spec fn well_formed(&self) -> bool {
        true
    }

    open spec fn spec_parse(&self, text: Seq<char>) -> ResultView<Seq<char>> {
        spec_literal(self.expect@, text, false, self.expect@)
    }

    proof fn lemma_anchored(&self, text: Seq<char>) {
        lemma_matched_len_bounds(self.expect@, text, false, 0);
    }

    fn parse(&self, text: &'t str) -> (r: ParseResult<'t, &'t str>) {
        let matched = matched_len(self.expect, text, false);
        if matched == char_len(self.expect) {
            Ok(
                Success {
                    value: take(text, matched),
                    token: take(text, matched),
                    rest: skip(text, matched),
                },
            )
        } else {
            Err(
                Failure {
                    context: take(text, matched),
                    expected: Text::Owned(self.expect.to_owned()),
                    source: None,
                    rest: text,
                },
            )
        }
    }
}

/// Returns a parser which parses the given text literal.
pub fn literal<'e>(expect: &'e str) -> (p: Literal<'e>)
    ensures
        p == (Literal { expect }),
{
    Literal { expect }
}

/// A parser which parses a given text literal, ignoring ASCII case.
pub struct LiteralIgnoreAsciiCase<'e> {
    /// The text to parse.
    pub expect: &'e str,
}

impl<'t, 'e> Parser<'t> for LiteralIgnoreAsciiCase<'e> {
    type Value = &'t str;

    open spec fn well_formed(&self) -> bool {
        true
    }

    open spec fn spec_parse(&self, text: Seq<char>) -> ResultView<Seq<char>> {
        spec_literal(self.expect@, text, true, "ignore case literal "@ + self.expect@)
    }

    proof fn lemma_anchored(&self, text: Seq<char>) {
        lemma_matched_len_bounds(self.expect@, text, true, 0);
    }

    fn parse(&self, text: &'t str) -> (r: ParseResult<'t, &'t str>) {
        let matched = matched_len(self.expect, text, true);
        if matched == char_len(self.expect) {
            Ok(
                Success {
                    value: take(text, matched),
                    token: take(text, matched),
                    rest: skip(text, matched),
                },
            )
        } else {
            Err(
                Failure {
                    context: take(text, matched),
                    expected: Text::Owned(concat2("ignore case literal ", self.expect)),
                    source: None,
                    rest: text,
                },
            )
        }
    }
}

/// Returns a parser which parses the given text literal, ignoring ASCII case.
pub fn literal_ignore_ascii_case<'e>(expect: &'e str) -> (p: LiteralIgnoreAsciiCase<'e>)
    ensures
        p == (LiteralIgnoreAsciiCase { expect }),
{
    LiteralIgnoreAsciiCase { expect }
}

/// The result of parsing any nonzero amount of whitespace.
pub open spec fn spec_whitespace(text: Seq<char>) -> ResultView<Seq<char>> {
    spec_source_for(
        spec_tokenize_value(
            (Intersperse { low: 1, high: None, parser: CharWhitespace, inner_parser: Null })
                .spec_parse(text),
        ),
        "whitespace"@,
    )
}

/// Parses any nonzero amount of whitespace.
pub fn whitespace<'t>(text: &'t str) -> (r: ParseResult<'t, &'t str>)
    ensures
        result_view(r) == spec_whitespace(text@),
{
    repeat(1, None, CharWhitespace).parse(text).tokenize_value().source_for(
        Text::Borrowed("whitespace"),
    )
}

/// The parser of any nonzero amount of whitespace.
pub struct Whitespace;

impl<'t> Parser<'t> for Whitespace {
    type Value = &'t str;

    open spec fn well_formed(&self) -> bool {
        true
    }

    open spec fn spec_parse(&self, text: Seq<char>) -> ResultView<Seq<char>> {
        spec_whitespace(text)
    }

    proof fn lemma_anchored(&self, text: Seq<char>) {
        (Intersperse {
            low: 1,
            high: None,
            parser: CharWhitespace,
            inner_parser: Null,
        }).lemma_anchored(text);
    }

    fn parse(&self, text: &'t str) -> (r: ParseResult<'t, &'t str>) {
        whitespace(text)
    }
}

////////////////////////////////////////////////////////////////////////////////
// Escaped strings
////////////////////////////////////////////////////////////////////////////////

/// The text that a delimited string holds, with the number of characters
/// that it takes up in `rest`, the closing delimiter included. `rest` is
/// what follows the opening delimiter. `None` if `rest` ends before the
/// closing delimiter.
///
/// The string ends where the closing delimiter stands. Before that, an
/// escape that stands in `rest` gives the text that it stands for; where
/// several stand there, the first of the list counts, and if that one is
/// empty, none counts. Any other character gives itself.
pub open spec fn spec_escaped_body(
    closing: &'static str,
    escapes: Seq<(&'static str, &'static str)>,
    rest: Seq<char>,
) -> Option<(Seq<char>, nat)>
    decreases rest.len(),
{
    if (Literal { expect: closing }).spec_parse(rest) is Ok {
        Some((Seq::empty(), closing@.len()))
    } else if rest.len() == 0 {
        None
    } else {
        let (piece, step) = spec_escaped_piece(escapes, rest);
        if 0 < step <= rest.len() {
            match spec_escaped_body(closing, escapes, rest.skip(step as int)) {
                Some((value, len)) => Some((piece + value, step + len)),
                None => None,
            }
        } else {
            None
        }
    }
}

/// The text that the start of `rest` gives to a delimited string, with
/// the number of characters that it takes up: what the first escape that
/// stands there stands for, and else the first character itself.
pub open spec fn spec_escaped_piece(escapes: Seq<(&'static str, &'static str)>, rest: Seq<char>)
    -> (Seq<char>, nat) {
    match spec_first_match(Literals, escapes, rest, 0) {
        Some(i) => if escapes[i as int].0@.len() > 0 {
            (escapes[i as int].1@, escapes[i as int].0@.len())
        } else {
            (seq![rest[0]], 1)
        },
        None => (seq![rest[0]], 1),
    }
}

/// A delimited string does not take up more characters than there are.
pub proof fn lemma_escaped_body(
    closing: &'static str,
    escapes: Seq<(&'static str, &'static str)>,
    rest: Seq<char>,
)
    ensures
        spec_escaped_body(closing, escapes, rest) matches Some((value, len)) ==> len <= rest.len(),
    decreases rest.len(),
{
    lemma_matched_len_bounds(closing@, rest, false, 0);
    if (Literal { expect: closing }).spec_parse(rest) is Ok {
    } else if rest.len() > 0 {
        let (piece, step) = spec_escaped_piece(escapes, rest);
        if 0 < step <= rest.len() {
            lemma_escaped_body(closing, escapes, rest.skip(step as int));
        }
    }
}

/// The result of parsing a delimited and escaped string: the opening
/// delimiter of the first pair of delimiters whose opening delimiter stands
/// at the start of `text`, then the text of the string up to the closing
/// delimiter of that pair. The value is the text that the string holds.
pub open spec fn spec_escaped_string(
    brackets: Seq<(&'static str, &'static str)>,
    escapes: Seq<(&'static str, &'static str)>,
    text: Seq<char>,
) -> ResultView<Seq<char>> {
    match spec_first_match(Literals, brackets, text, 0) {
        None => Err(FailureView::at(text, "escaped string opening"@)),
        Some(i) => {
            let start = brackets[i as int].0@.len();
            match spec_escaped_body(brackets[i as int].1, escapes, text.skip(start as int)) {
                Some((value, len)) => Ok(SuccessView::split(value, text, (start + len) as int)),
                None => Err(
                    FailureView {
                        context: text.take(text.len() as int),
                        expected: "escaped string closing"@,
                        source: None,
                        rest: text,
                    },
                ),
            }
        },
    }
}

/// The body of a delimited string as it goes on after `value` has been
/// gathered from `done` characters.
pub open spec fn spec_escaped_after(
    value: Seq<char>,
    done: nat,
    body: Option<(Seq<char>, nat)>,
) -> Option<(Seq<char>, nat)> {
    match body {
        Some((more, len)) => Some((value + more, done + len)),
        None => None,
    }
}

/// A parser which parses a delimited and escaped string.
pub struct EscapedString {
    /// The pairs of an opening and a closing delimiter.
    pub brackets: Vec<(&'static str, &'static str)>,
    /// The escapes, each with the text that it stands for.
    pub escapes: Vec<(&'static str, &'static str)>,
}

impl<'t> Parser<'t> for EscapedString {
    type Value = String;

    open spec fn well_formed(&self) -> bool {
        true
    }

    open spec fn spec_parse(&self, text: Seq<char>) -> ResultView<Seq<char>> {
        spec_escaped_string(self.brackets@, self.escapes@, text)
    }

    proof fn lemma_anchored(&self, text: Seq<char>) {
        lemma_first_match(Literals, self.brackets@, text, 0);
        if let Some(i) = spec_first_match(Literals, self.brackets@, text, 0) {
            let open = self.brackets@[i as int];
            lemma_matched_len_bounds(open.0@, text, false, 0);
            lemma_escaped_body(open.1, self.escapes@, text.skip(open.0@.len() as int));
        }
    }

    fn parse(&self, text: &'t str) -> (r: ParseResult<'t, String>) {
        let (i, open) = match first_match(&Literals, &self.brackets, text) {
            Some(found) => found,
            None => {
                return Err(
                    Failure {
                        context: take(text, 0),
                        rest: text,
                        expected: Text::Borrowed("escaped string opening"),
                        source: None,
                    },
                );
            },
        };
        let closing = self.brackets[i].1;
        let text_len = char_len(text);
        let start = char_len(open.token);
        proof {
            lemma_matched_len_bounds(self.brackets@[i as int].0@, text@, false, 0);
        }
        let mut pos: usize = start;
        let mut value = String::new();
        assert(value@ + Seq::<char>::empty() =~= Seq::<char>::empty());
        loop
            invariant
                text_len == text@.len(),
                start <= pos <= text_len,
                spec_escaped_body(closing, self.escapes@, text@.skip(start as int))
                    == spec_escaped_after(
                    value@,
                    (pos - start) as nat,
                    spec_escaped_body(closing, self.escapes@, text@.skip(pos as int)),
                ),
                start == self.brackets@[i as int].0@.len(),
                closing == self.brackets@[i as int].1,
                i < self.brackets@.len(),
                spec_first_match(Literals, self.brackets@, text@, 0) == Some(i as nat),
            decreases text_len - pos,
        {
            let rest = skip(text, pos);
            proof {
                lemma_matched_len_bounds(closing@, rest@, false, 0);
            }
            if literal(closing).parse(rest).is_ok() {
                let end = pos + char_len(closing);
                assert(value@ + Seq::<char>::empty() =~= value@);
                return Ok(Success { value, token: take(text, end), rest: skip(text, end) });
            }
            if pos == text_len {
                return Err(
                    Failure {
                        context: take(text, text_len),
                        rest: text,
                        expected: Text::Borrowed("escaped string closing"),
                        source: None,
                    },
                );
            }
            let ghost before = value@;
            let step = match first_match(&Literals, &self.escapes, rest) {
                Some((j, escape)) => {
                    let len = char_len(self.escapes[j].0);
                    proof {
                        lemma_matched_len_bounds(self.escapes@[j as int].0@, rest@, false, 0);
                    }
                    if len > 0 {
                        value.append(self.escapes[j].1);
                        len
                    } else {
                        value.push(rest.get_char(0));
                        1
                    }
                },
                None => {
                    value.push(rest.get_char(0));
                    1
                },
            };
            proof {
                let (piece, count) = spec_escaped_piece(self.escapes@, rest@);
                assert(count == step);
                assert(value@ =~= before + piece);
                assert(rest@.skip(step as int) =~= text@.skip(pos + step));
                let tail = spec_escaped_body(closing, self.escapes@, text@.skip(pos + step));
                if let Some((more, len)) = tail {
                    assert(before + (piece + more) =~= value@ + more);
                }
            }
            pos = pos + step;
        }
    }
}

/// Returns a parser that parses a delimited and escaped string.
pub fn escaped_string(
    brackets: Vec<(&'static str, &'static str)>,
    escapes: Vec<(&'static str, &'static str)>,
) -> (p: EscapedString)
    ensures
        p == (EscapedString { brackets, escapes }),
{
    EscapedString { brackets, escapes }
}

////////////////////////////////////////////////////////////////////////////////
// Integer parsing.
////////////////////////////////////////////////////////////////////////////////

/// The property of being a digit in a given radix.
pub struct Digit {
    /// The radix.
    pub radix: u32,
}

impl CharPredicate for Digit {
    open spec fn spec_accepts(&self, c: char) -> bool {
        spec_digit_value(c, self.radix) is Some
    }

    fn accepts(&self, c: char) -> (b: bool) {
        digit_value(c, self.radix).is_some()
    }
}

/// The character that may stand between the digits of an integer.
pub const INT_DIGIT_SEPARATOR: char = '_';

/// A parser of any number of digit separators.
pub type Separators = Intersperse<Char, Null>;

/// A parser of the digits of an integer: any number of separators, then
/// the digits, each with any number of separators after it.
pub type Digits = Prefix<Intersperse<Postfix<CharMatching<Digit>, Separators>, Null>, Separators>;

/// The parser of any number of digit separators.
pub open spec fn spec_separators() -> Separators {
    Intersperse { low: 0, high: None, parser: Char { c: INT_DIGIT_SEPARATOR }, inner_parser: Null }
}

/// The parser of between `low` and `high` digits of the given radix.
pub open spec fn spec_digits(low: usize, high: Option<usize>, radix: u32) -> Digits {
    Prefix {
        parser: Intersperse {
            low,
            high,
            parser: Postfix {
                parser: CharMatching { f: Digit { radix } },
                postfix_parser: spec_separators(),
            },
            inner_parser: Null,
        },
        prefix_parser: spec_separators(),
    }
}

/// Returns the parser of between `low` and `high` digits of the given
/// radix.
fn digits(low: usize, high: Option<usize>, radix: u32) -> (p: Digits)
    ensures
        p == spec_digits(low, high, radix),
        p.well_formed(),
{
    prefix(
        repeat(
            low,
            high,
            postfix(char_matching(Digit { radix }), repeat(0, None, char(INT_DIGIT_SEPARATOR))),
        ),
        repeat(0, None, char(INT_DIGIT_SEPARATOR)),
    )
}

/// The number that the digits in `s` write in the given radix, as it is
/// accumulated from left to right in 64 bits; characters that are no digits
/// are passed over. `Err` if it does not fit: then with the number that had
/// been accumulated when that was found, which is the number before the
/// digit that did not fit if already the shift overflows, and the number
/// with that digit otherwise.
pub open spec fn spec_accumulate(s: Seq<char>, radix: u32) -> Result<nat, nat>
    decreases s.len(),
{
    if s.len() == 0 {
        Ok(0)
    } else {
        match spec_accumulate(s.drop_last(), radix) {
            Err(m) => Err(m),
            Ok(acc) => match spec_digit_value(s.last(), radix) {
                None => Ok(acc),
                Some(d) => if acc * radix > u64::MAX {
                    Err(acc)
                } else if acc * radix + d > u64::MAX {
                    Err((acc * radix + d) as nat)
                } else {
                    Ok((acc * radix + d) as nat)
                },
            },
        }
    }
}

/// An accumulation that has overflowed stays as it is when more characters
/// follow.
pub proof fn lemma_accumulate_overflow(s: Seq<char>, radix: u32, len: int)
    requires
        0 <= len <= s.len(),
        spec_accumulate(s.take(len), radix) is Err,
    ensures
        spec_accumulate(s, radix) == spec_accumulate(s.take(len), radix),
    decreases s.len() - len,
{
    if len < s.len() {
        assert(s.take(len + 1).drop_last() =~= s.take(len));
        lemma_accumulate_overflow(s, radix, len + 1);
    } else {
        assert(s.take(len) =~= s);
    }
}

/// The failure of an integer that does not fit: `digits` is the text of the
/// digits, and `value` what was accumulated.
pub open spec fn spec_overflow(
    int_type: Seq<char>,
    digits: Seq<char>,
    value: nat,
    text: Seq<char>,
) -> FailureView {
    FailureView {
        context: digits,
        expected: "overflow of "@ + int_type + " value"@,
        source: Some(
            SourceView::IntegerOverflow(
                ParseIntegerOverflowView { int_type, int_text: digits, value: value as u128 },
            ),
        ),
        rest: text,
    }
}

/// Returns the failure of an integer that does not fit.
fn overflow<'t>(int_type: &'static str, digits: &'t str, value: u128, text: &'t str) -> (f: Failure<
    't,
>)
    ensures
        f.deep_view() == spec_overflow(int_type@, digits@, value as nat, text@),
{
    let mut expected = concat2("overflow of ", int_type);
    expected.append(" value");
    Failure {
        context: digits,
        expected: Text::Owned(expected),
        source: Some(
            Box::new(
                FailureSource::IntegerOverflow(
                    ParseIntegerOverflow {
                        int_type: Text::Borrowed(int_type),
                        int_text: Text::Owned(digits.to_owned()),
                        value,
                    },
                ),
            ),
        ),
        rest: text,
    }
}

/// What the digits of an integer are expected to be.
pub open spec fn spec_digits_expected(int_type: Seq<char>, radix: u32) -> Seq<char> {
    int_type + " integer digits with radix "@ + spec_decimal(radix as nat)
}

/// The result of parsing an unsigned integer of type `T` with the given
/// radix and number of digits.
///
/// The digits are parsed first: separators may stand before, between and
/// after them, and are not counted. Their number in the given radix is the
/// value if it fits in 64 bits and in `T`; if not, the parse fails with the
/// overflow as its source.
pub open spec fn spec_uint_digits_value<T: TryFrom<u64> + DeepView>(
    int_type: Seq<char>,
    low: usize,
    high: Option<usize>,
    radix: u32,
    text: Seq<char>,
) -> ResultView<T::V> {
    match spec_source_for(
        spec_digits(low, high, radix).spec_parse(text),
        spec_digits_expected(int_type, radix),
    ) {
        Err(f) => Err(f),
        Ok(digits) => match spec_accumulate(digits.token, radix) {
            Err(m) => Err(spec_overflow(int_type, digits.token, m, text)),
            Ok(v) => match T::try_from_spec(v as u64) {
                Ok(t) => Ok(digits.with_value(t.deep_view())),
                Err(_) => Err(spec_overflow(int_type, digits.token, v, text)),
            },
        },
    }
}

/// A parser which parses an unsigned integer with a given radix and number
/// of digits.
pub struct UintDigitsValue<T> {
    /// The name of the integer type.
    pub int_type: &'static str,
    /// The least number of digits.
    pub low: usize,
    /// The greatest number of digits, if there is one.
    pub high: Option<usize>,
    /// The radix.
    pub radix: u32,
    /// The integer type.
    pub marker: core::marker::PhantomData<T>,
}

impl<'t, T: TryFrom<u64> + DeepView> Parser<'t> for UintDigitsValue<T> {
    type Value = T;

    open spec fn well_formed(&self) -> bool {
        T::obeys_try_from_spec()
    }

    open spec fn spec_parse(&self, text: Seq<char>) -> ResultView<T::V> {
        spec_uint_digits_value::<T>(self.int_type@, self.low, self.high, self.radix, text)
    }

    proof fn lemma_anchored(&self, text: Seq<char>) {
        spec_digits(self.low, self.high, self.radix).lemma_anchored(text);
    }

    #[verifier::loop_isolation(false)]
    fn parse(&self, text: &'t str) -> (r: ParseResult<'t, T>) {
        let mut label = concat2(self.int_type, " integer digits with radix ");
        push_decimal(&mut label, self.radix as u128);
        proof {
            spec_digits(self.low, self.high, self.radix).lemma_anchored(text@);
        }
        let digits_suc = match digits(self.low, self.high, self.radix).parse(text).source_for(
            Text::Owned(label),
        ) {
            Ok(s) => s,
            Err(f) => {
                let r: ParseResult<'t, T> = Err(f);
                assert(result_view(r) == self.spec_parse(text@));
                return r;
            },
        };
        let token = digits_suc.token;
        let len = char_len(token);
        let mut res: u64 = 0;
        let mut i: usize = 0;
        while i < len
            invariant
                len == token@.len(),
                i <= len,
                spec_accumulate(token@.take(i as int), self.radix) == Ok::<nat, nat>(res as nat),
            decreases len - i,
        {
            let c = token.get_char(i);
            proof {
                assert(token@.take(i + 1).drop_last() =~= token@.take(i as int));
            }
            if let Some(d) = digit_value(c, self.radix) {
                let shifted = match res.checked_mul(self.radix as u64) {
                    Some(m) => m,
                    None => {
                        proof {
                            lemma_accumulate_overflow(token@, self.radix, i + 1);
                        }
                        let r: ParseResult<'t, T> = Err(
                            overflow(self.int_type, token, res as u128, text),
                        );
                        assert(result_view(r) == self.spec_parse(text@));
                        return r;
                    },
                };
                res = match shifted.checked_add(d as u64) {
                    Some(a) => a,
                    None => {
                        proof {
                            lemma_accumulate_overflow(token@, self.radix, i + 1);
                        }
                        let r: ParseResult<'t, T> = Err(
                            overflow(self.int_type, token, shifted as u128 + d as u128, text),
                        );
                        assert(result_view(r) == self.spec_parse(text@));
                        return r;
                    },
                };
            }
            i += 1;
        }
        assert(token@.take(len as int) =~= token@);
        let r: ParseResult<'t, T> = match T::try_from(res) {
            Ok(value) => Ok(Success { value, token, rest: digits_suc.rest }),
            Err(_) => Err(overflow(self.int_type, token, res as u128, text)),
        };
        assert(result_view(r) == self.spec_parse(text@));
        r
    }
}

/// Returns a parser which parses an unsigned integer with the given radix and
/// number of digits.
pub fn uint_digits_value<T: TryFrom<u64> + DeepView>(
    int_type: &'static str,
    low: usize,
    high: Option<usize>,
    radix: u32,
) -> (p: UintDigitsValue<T>)
    ensures
        p == (UintDigitsValue::<T> {
            int_type,
            low,
            high,
            radix,
            marker: core::marker::PhantomData,
        }),
{
    UintDigitsValue { int_type, low, high, radix, marker: core::marker::PhantomData }
}

/// Returns a parser which parses an unsigned integer with the given radix.
pub fn uint_value<T: TryFrom<u64> + DeepView>(int_type: &'static str, radix: u32) -> (p:
    UintDigitsValue<T>)
    ensures
        p == (UintDigitsValue::<T> {
            int_type,
            low: 1,
            high: None,
            radix,
            marker: core::marker::PhantomData,
        }),
{
    uint_digits_value(int_type, 1, None, radix)
}

/// The radix that an integer radix prefix at the start of `text` stands
/// for: 2 for `0b`, 8 for `0o` and 16 for `0x`.
pub open spec fn spec_radix_prefix(text: Seq<char>) -> Option<u32> {
    if text.len() >= 2 && text[0] == '0' {
        if text[1] == 'b' {
            Some(2u32)
        } else if text[1] == 'o' {
            Some(8u32)
        } else if text[1] == 'x' {
            Some(16u32)
        } else {
            None
        }
    } else {
        None
    }
}

/// The result of parsing an integer radix prefix.
pub open spec fn spec_prefix_radix_token(text: Seq<char>) -> ResultView<Seq<char>> {
    if spec_radix_prefix(text) is Some {
        Ok(SuccessView::split(text.take(2), text, 2))
    } else {
        Err(FailureView::at(text, "0[box]"@))
    }
}

/// Returns the radix that an integer radix prefix at the start of `text`
/// stands for.
fn radix_prefix(text: &str) -> (r: Option<u32>)
    ensures
        r == spec_radix_prefix(text@),
{
    if char_len(text) >= 2 && text.get_char(0) == '0' {
        let c = text.get_char(1);
        if c == 'b' {
            Some(2)
        } else if c == 'o' {
            Some(8)
        } else if c == 'x' {
            Some(16)
        } else {
            None
        }
    } else {
        None
    }
}

/// Parses an integer radix prefix.
pub fn prefix_radix_token<'t>(text: &'t str) -> (r: ParseResult<'t, &'t str>)
    ensures
        result_view(r) == spec_prefix_radix_token(text@),
{
    if radix_prefix(text).is_some() {
        Ok(Success { token: take(text, 2), rest: skip(text, 2), value: take(text, 2) })
    } else {
        Err(
            Failure {
                context: take(text, 0),
                rest: text,
                expected: Text::Borrowed("0[box]"),
                source: None,
            },
        )
    }
}

/// The parser of an integer radix prefix.
pub struct PrefixRadixToken;

impl<'t> Parser<'t> for PrefixRadixToken {
    type Value = &'t str;

    open spec fn well_formed(&self) -> bool {
        true
    }

    open spec fn spec_parse(&self, text: Seq<char>) -> ResultView<Seq<char>> {
        spec_prefix_radix_token(text)
    }

    proof fn lemma_anchored(&self, text: Seq<char>) {
    }

    fn parse(&self, text: &'t str) -> (r: ParseResult<'t, &'t str>) {
        prefix_radix_token(text)
    }
}

/// The result of parsing an unsigned integer of type `T` with optional
/// radix prefix: after `0b`, `0o` or `0x` the digits are taken in radix 2, 8
/// or 16, and else in radix 10.
pub open spec fn spec_uint<T: TryFrom<u64> + DeepView>(int_type: Seq<char>, text: Seq<char>)
    -> ResultView<T::V> {
    let (radix, prior) = match spec_radix_prefix(text) {
        Some(radix) => (radix, 2nat),
        None => (10u32, 0nat),
    };
    spec_join_previous(
        spec_source_for(
            spec_uint_digits_value::<T>(int_type, 1, None, radix, text.skip(prior as int)),
            "parse "@ + int_type + " value"@,
        ),
        prior,
        text,
    )
}

/// A parser which parses an unsigned integer with optional radix prefix.
pub struct Uint<T> {
    /// The name of the integer type.
    pub int_type: &'static str,
    /// The integer type.
    pub marker: core::marker::PhantomData<T>,
}

impl<'t, T: TryFrom<u64> + DeepView> Parser<'t> for Uint<T> {
    type Value = T;

    open spec fn well_formed(&self) -> bool {
        T::obeys_try_from_spec()
    }

    open spec fn spec_parse(&self, text: Seq<char>) -> ResultView<T::V> {
        spec_uint::<T>(self.int_type@, text)
    }

    proof fn lemma_anchored(&self, text: Seq<char>) {
        let (radix, prior) = match spec_radix_prefix(text) {
            Some(radix) => (radix, 2nat),
            None => (10u32, 0nat),
        };
        let value = (UintDigitsValue::<T> {
            int_type: self.int_type,
            low: 1,
            high: None,
            radix,
            marker: core::marker::PhantomData,
        });
        value.lemma_anchored(text.skip(prior as int));
        lemma_spec_join_previous_anchored(
            SuccessView::split((), text, prior as int),
            spec_source_for(
                value.spec_parse(text.skip(prior as int)),
                "parse "@ + self.int_type@ + " value"@,
            ),
            text,
        );
    }

    fn parse(&self, text: &'t str) -> (r: ParseResult<'t, T>) {
        let (radix, prior): (u32, usize) = match radix_prefix(text) {
            Some(radix) => (radix, 2),
            None => (10, 0),
        };
        let mut label = concat2("parse ", self.int_type);
        label.append(" value");
        let value = uint_value::<T>(self.int_type, radix);
        proof {
            value.lemma_anchored(text@.skip(prior as int));
            lemma_spec_join_previous_anchored(
                SuccessView::split((), text@, prior as int),
                spec_source_for(
                    value.spec_parse(text@.skip(prior as int)),
                    "parse "@ + self.int_type@ + " value"@,
                ),
                text@,
            );
        }
        let r: ParseResult<'t, T> = join_previous(
            value.parse(skip(text, prior)).source_for(Text::Owned(label)),
            take(text, prior),
            text,
        );
        assert(result_view(r) == self.spec_parse(text@));
        r
    }
}

/// Returns a parser which parses an unsigned integer with optional radix
/// prefix.
pub fn uint<T: TryFrom<u64> + DeepView>(int_type: &'static str) -> (p: Uint<T>)
    ensures
        p == (Uint::<T> { int_type, marker: core::marker::PhantomData }),
{
    Uint { int_type, marker: core::marker::PhantomData }
}

////////////////////////////////////////////////////////////////////////////////
// Float parsing.
////////////////////////////////////////////////////////////////////////////////

/// The characters that write a sign.
pub const FLOAT_SIGNS: &'static str = "+-";

/// The characters that start an exponent.
pub const FLOAT_EXPONENT_MARKS: &'static str = "eE";

/// A parser of a run of decimal digits.
pub type DecimalDigits = Intersperse<CharMatching<Digit>, Null>;

/// The parser of at least `low` decimal digits.
pub open spec fn spec_decimal_digits(low: usize) -> DecimalDigits {
    Intersperse {
        low,
        high: None,
        parser: CharMatching { f: Digit { radix: 10 } },
        inner_parser: Null,
    }
}

/// The result of a parser of text with the result of another parser of
/// text after it, as one text.
pub open spec fn spec_then(
    first: ResultView<Seq<char>>,
    second: ResultView<Seq<char>>,
    text: Seq<char>,
) -> ResultView<Seq<char>> {
    match first {
        Err(f) => Err(f),
        Ok(s) => spec_tokenize_value(spec_join_previous(second, s.token.len(), text)),
    }
}

/// The result of parsing the exponent of a float: `e` or `E`, an optional
/// sign, and at least one decimal digit.
pub open spec fn spec_float_exp(text: Seq<char>) -> ResultView<Seq<char>> {
    match spec_source_for(
        (CharIn { opts: FLOAT_EXPONENT_MARKS }).spec_parse(text),
        "float exponent"@,
    ) {
        Err(f) => Err(f),
        Ok(mark) => match spec_join_previous(
            (Maybe { parser: CharIn { opts: FLOAT_SIGNS } }).spec_parse(mark.rest),
            mark.token.len(),
            text,
        ) {
            Err(f) => Err(f),
            Ok(sign) => spec_tokenize_value(
                spec_join_previous(
                    spec_source_for(
                        spec_decimal_digits(1).spec_parse(sign.rest),
                        "float exponent digits"@,
                    ),
                    sign.token.len(),
                    text,
                ),
            ),
        },
    }
}

/// The exponent of a float is anchored.
pub proof fn lemma_float_exp_anchored(text: Seq<char>)
    ensures
        anchored(spec_float_exp(text), text),
{
    (CharIn { opts: FLOAT_EXPONENT_MARKS }).lemma_anchored(text);
    if let Ok(mark) = spec_source_for(
        (CharIn { opts: FLOAT_EXPONENT_MARKS }).spec_parse(text),
        "float exponent"@,
    ) {
        let sign_parser = (Maybe { parser: CharIn { opts: FLOAT_SIGNS } });
        sign_parser.lemma_anchored(mark.rest);
        lemma_spec_join_previous_anchored(mark, sign_parser.spec_parse(mark.rest), text);
        if let Ok(sign) = spec_join_previous(
            sign_parser.spec_parse(mark.rest),
            mark.token.len(),
            text,
        ) {
            spec_decimal_digits(1).lemma_anchored(sign.rest);
            lemma_spec_join_previous_anchored(
                sign,
                spec_source_for(
                    spec_decimal_digits(1).spec_parse(sign.rest),
                    "float exponent digits"@,
                ),
                text,
            );
        }
    }
}

/// Parses the floating point exponent.
pub fn float_exp<'t>(text: &'t str) -> (r: ParseResult<'t, &'t str>)
    ensures
        result_view(r) == spec_float_exp(text@),
{
    let mark = match char_in(FLOAT_EXPONENT_MARKS).parse(text).source_for(
        Text::Borrowed("float exponent"),
    ) {
        Ok(s) => s,
        Err(f) => {
            return Err(f);
        },
    };
    let sign_parser = maybe(char_in(FLOAT_SIGNS));
    proof {
        (CharIn { opts: FLOAT_EXPONENT_MARKS }).lemma_anchored(text@);
        sign_parser.lemma_anchored(mark.rest@);
        lemma_spec_join_previous_anchored(
            mark.deep_view(),
            sign_parser.spec_parse(mark.rest@),
            text@,
        );
    }
    let sign = match join_previous(sign_parser.parse(mark.rest), mark.token, text) {
        Ok(s) => s,
        Err(f) => {
            return Err(f);
        },
    };
    let digits = repeat(1, None, char_matching(Digit { radix: 10 }));
    proof {
        digits.lemma_anchored(sign.rest@);
        lemma_spec_join_previous_anchored(
            sign.deep_view(),
            spec_source_for(digits.spec_parse(sign.rest@), "float exponent digits"@),
            text@,
        );
    }
    join_previous(
        digits.parse(sign.rest).source_for(Text::Borrowed("float exponent digits")),
        sign.token,
        text,
    ).tokenize_value()
}

/// The parser of the exponent of a float.
pub struct FloatExp;

impl<'t> Parser<'t> for FloatExp {
    type Value = &'t str;

    open spec fn well_formed(&self) -> bool {
        true
    }

    open spec fn spec_parse(&self, text: Seq<char>) -> ResultView<Seq<char>> {
        spec_float_exp(text)
    }

    proof fn lemma_anchored(&self, text: Seq<char>) {
        lemma_float_exp_anchored(text);
    }

    fn parse(&self, text: &'t str) -> (r: ParseResult<'t, &'t str>) {
        float_exp(text)
    }
}

/// A parser of the mantissa of a float: decimal digits with an optional
/// point before, between or after them. Its value is the point.
pub type Mantissa = Circumfix<Maybe<Char>, DecimalDigits>;

/// The parser of the mantissa of a float.
pub open spec fn spec_mantissa() -> Mantissa {
    Circumfix {
        parser: Maybe { parser: Char { c: '.' } },
        circumfix_parser: spec_decimal_digits(0),
    }
}

/// The result of parsing a float: an optional sign, and then either `inf`,
/// or `nan`, or a mantissa with an optional exponent. The mantissa is a run
/// of decimal digits with an optional point before, between or after them,
/// and has at least one digit. The value is the text of the float.
///
/// An exponent that follows is part of the float; one that breaks off
/// after its mark fails the parse.
pub open spec fn spec_float(float_type: Seq<char>, text: Seq<char>) -> ResultView<Seq<char>> {
    match (Maybe { parser: CharIn { opts: FLOAT_SIGNS } }).spec_parse(text) {
        Err(f) => Err(f),
        Ok(sign) => {
            let prior = sign.token.len();
            let inf = spec_join_previous(
                (Literal { expect: "inf" }).spec_parse(sign.rest),
                prior,
                text,
            );
            let nan = spec_join_previous(
                (Literal { expect: "nan" }).spec_parse(sign.rest),
                prior,
                text,
            );
            if inf is Ok {
                spec_tokenize_value(inf)
            } else if nan is Ok {
                spec_tokenize_value(nan)
            } else {
                match spec_join_previous(spec_mantissa().spec_parse(sign.rest), prior, text) {
                    Err(f) => Err(f),
                    Ok(mantissa) => {
                        let point: nat = if mantissa.value is Some {
                            1
                        } else {
                            0
                        };
                        if mantissa.token.len() <= prior + point {
                            Err(
                                FailureView {
                                    context: mantissa.token,
                                    expected: float_type + " float digits"@,
                                    source: None,
                                    rest: text,
                                },
                            )
                        } else {
                            spec_tokenize_value(
                                spec_join_previous(
                                    (AtomicIgnoreWhitespace { parser: FloatExp }).spec_parse(
                                        mantissa.rest,
                                    ),
                                    mantissa.token.len(),
                                    text,
                                ),
                            )
                        }
                    },
                }
            }
        },
    }
}

/// A float is anchored.
pub proof fn lemma_float_anchored(float_type: Seq<char>, text: Seq<char>)
    ensures
        anchored(spec_float(float_type, text), text),
{
    let sign_parser = (Maybe { parser: CharIn { opts: FLOAT_SIGNS } });
    sign_parser.lemma_anchored(text);
    if let Ok(sign) = sign_parser.spec_parse(text) {
        (Literal { expect: "inf" }).lemma_anchored(sign.rest);
        lemma_spec_join_previous_anchored(
            sign,
            (Literal { expect: "inf" }).spec_parse(sign.rest),
            text,
        );
        (Literal { expect: "nan" }).lemma_anchored(sign.rest);
        lemma_spec_join_previous_anchored(
            sign,
            (Literal { expect: "nan" }).spec_parse(sign.rest),
            text,
        );
        spec_mantissa().lemma_anchored(sign.rest);
        lemma_spec_join_previous_anchored(sign, spec_mantissa().spec_parse(sign.rest), text);
        if let Ok(mantissa) = spec_join_previous(
            spec_mantissa().spec_parse(sign.rest),
            sign.token.len(),
            text,
        ) {
            let exp = (AtomicIgnoreWhitespace { parser: FloatExp });
            exp.lemma_anchored(mantissa.rest);
            lemma_spec_join_previous_anchored(mantissa, exp.spec_parse(mantissa.rest), text);
        }
    }
}

/// A parser which parses the text of a float value.
pub struct Float {
    /// The name of the float type.
    pub float_type: &'static str,
}

impl<'t> Parser<'t> for Float {
    type Value = &'t str;

    open spec fn well_formed(&self) -> bool {
        true
    }

    open spec fn spec_parse(&self, text: Seq<char>) -> ResultView<Seq<char>> {
        spec_float(self.float_type@, text)
    }

    proof fn lemma_anchored(&self, text: Seq<char>) {
        lemma_float_anchored(self.float_type@, text);
    }

    fn parse(&self, text: &'t str) -> (r: ParseResult<'t, &'t str>) {
        let sign_parser = maybe(char_in(FLOAT_SIGNS));
        let sign = match sign_parser.parse(text) {
            Ok(s) => s,
            Err(f) => {
                return Err(f);
            },
        };
        proof {
            sign_parser.lemma_anchored(text@);
            (Literal { expect: "inf" }).lemma_anchored(sign.rest@);
            lemma_spec_join_previous_anchored(
                sign.deep_view(),
                (Literal { expect: "inf" }).spec_parse(sign.rest@),
                text@,
            );
            (Literal { expect: "nan" }).lemma_anchored(sign.rest@);
            lemma_spec_join_previous_anchored(
                sign.deep_view(),
                (Literal { expect: "nan" }).spec_parse(sign.rest@),
                text@,
            );
            spec_mantissa().lemma_anchored(sign.rest@);
            lemma_spec_join_previous_anchored(
                sign.deep_view(),
                spec_mantissa().spec_parse(sign.rest@),
                text@,
            );
        }
        let inf = join_previous(literal("inf").parse(sign.rest), sign.token, text);
        if inf.is_ok() {
            return inf.tokenize_value();
        }
        let nan = join_previous(literal("nan").parse(sign.rest), sign.token, text);
        if nan.is_ok() {
            return nan.tokenize_value();
        }
        let mantissa_parser = circumfix(
            maybe(char('.')),
            repeat(0, None, char_matching(Digit { radix: 10 })),
        );
        let mantissa = match join_previous(mantissa_parser.parse(sign.rest), sign.token, text) {
            Ok(s) => s,
            Err(f) => {
                return Err(f);
            },
        };
        let point: usize = if mantissa.value.is_some() {
            1
        } else {
            0
        };
        if char_len(mantissa.token) - char_len(sign.token) <= point {
            return Err(
                Failure {
                    context: mantissa.token,
                    expected: Text::Owned(concat2(self.float_type, " float digits")),
                    source: None,
                    rest: text,
                },
            );
        }
        let exp = atomic_ignore_whitespace(FloatExp);
        proof {
            exp.lemma_anchored(mantissa.rest@);
            lemma_spec_join_previous_anchored(
                mantissa.deep_view(),
                exp.spec_parse(mantissa.rest@),
                text@,
            );
        }
        join_previous(exp.parse(mantissa.rest), mantissa.token, text).tokenize_value()
    }
}

/// Returns a parser which parses the text of a float value.
pub fn float(float_type: &'static str) -> (p: Float)
    ensures
        p == (Float { float_type }),
{
    Float { float_type }
}

////////////////////////////////////////////////////////////////////////////////
// ParseIntegerOverflow
////////////////////////////////////////////////////////////////////////////////

/// An overflow error occurred while parsing an integer.
#[derive(Debug)]
pub struct ParseIntegerOverflow {
    /// The integer type.
    pub int_type: Text<'static>,
    /// The integer text.
    pub int_text: Text<'static>,
    /// The value that was accumulated when the overflow was found.
    pub value: u128,
}

/// The mathematical content of a [`ParseIntegerOverflow`].
pub struct ParseIntegerOverflowView {
    pub int_type: Seq<char>,
    pub int_text: Seq<char>,
    pub value: u128,
}

impl DeepView for ParseIntegerOverflow {
    type V = ParseIntegerOverflowView;

    open spec fn deep_view(&self) -> ParseIntegerOverflowView {
        ParseIntegerOverflowView {
            int_type: self.int_type@,
            int_text: self.int_text@,
            value: self.value,
        }
    }
}

impl ParseIntegerOverflowView {
    /// The message that describes the overflow.
    pub open spec fn message(self) -> Seq<char> {
        "integer value '"@ + self.int_text + "' ("@ + spec_decimal(self.value as nat)
            + ") does not fit in type "@ + self.int_type
    }
}

impl ParseIntegerOverflow {
    /// Returns the message that describes the overflow.
    pub fn message(&self) -> (r: String)
        ensures
            r@ == self.deep_view().message(),
    {
        let mut r = String::from_str("integer value '");
        r.append(self.int_text.as_str());
        r.append("' (");
        push_decimal(&mut r, self.value);
        r.append(") does not fit in type ");
        r.append(self.int_type.as_str());
        r
    }
}

} // verus!
