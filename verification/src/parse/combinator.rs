//! Parser combinators.
//!
//! Each combinator takes one or more parsers and returns a new parser. A
//! combinator that tries a parser again, or another parser after a failure,
//! does so on the text it was given: a failure consumes nothing.

use crate::parse::parser::DependentParser;
use crate::parse::parser::Parser;
use crate::parse::parser::ParserFactory;
use crate::parse::primitive::char;
use crate::parse::primitive::literal;
use crate::parse::primitive::literal_ignore_ascii_case;
use crate::parse::primitive::Char;
use crate::parse::primitive::Literal;
use crate::parse::primitive::LiteralIgnoreAsciiCase;
use crate::parse::result::anchored;
use crate::parse::result::join_previous;
use crate::parse::result::lemma_spec_join_previous_anchored;
use crate::parse::result::result_view;
use crate::parse::result::spec_join_previous;
use crate::parse::result::spec_source_for;
use crate::parse::result::spec_tokenize_value;
use crate::parse::result::Failure;
use crate::parse::result::FailureView;
use crate::parse::result::ParseResult;
use crate::parse::result::ResultView;
use crate::parse::result::Success;
use crate::parse::result::SuccessView;
use crate::text::all_whitespace;
use crate::text::char_len;
use crate::text::skip;
use crate::text::spec_all_whitespace;
use crate::text::take;
use crate::text::Text;
use crate::parse::result::ParseResultExt;
use vstd::prelude::*;

verus! {

////////////////////////////////////////////////////////////////////////////////
// Null
////////////////////////////////////////////////////////////////////////////////

/// The parser which succeeds on any text and parses nothing.
pub struct Null;

impl<'t> Parser<'t> for Null {
    type Value = ();

    open spec fn well_formed(&self) -> bool {
        true
    }

    open spec fn spec_parse(&self, text: Seq<char>) -> ResultView<()> {
        Ok(SuccessView::split((), text, 0))
    }

    proof fn lemma_anchored(&self, text: Seq<char>) {
    }

    fn parse(&self, text: &'t str) -> (r: ParseResult<'t, ()>) {
        let r: ParseResult<'t, ()> = Ok(
            Success { value: (), token: take(text, 0), rest: skip(text, 0) },
        );
        assert(result_view(r) == self.spec_parse(text@));
        r
    }
}

/// Returns the parser which succeeds on any text and parses nothing.
pub fn null() -> (p: Null)
    ensures
        p == Null,
{
    Null
}

////////////////////////////////////////////////////////////////////////////////
// Parser combinators.
////////////////////////////////////////////////////////////////////////////////

/// A parser which gives the parsed text as its value.
pub struct Tokenize<F> {
    /// The parser to attempt.
    pub parser: F,
}

impl<'t, F: Parser<'t>> Parser<'t> for Tokenize<F> {
    type Value = &'t str;

    open spec fn well_formed(&self) -> bool {
        self.parser.well_formed()
    }

    open spec fn spec_parse(&self, text: Seq<char>) -> ResultView<Seq<char>> {
        spec_tokenize_value(self.parser.spec_parse(text))
    }

    proof fn lemma_anchored(&self, text: Seq<char>) {
        self.parser.lemma_anchored(text);
    }

    fn parse(&self, text: &'t str) -> (r: ParseResult<'t, &'t str>) {
        let r: ParseResult<'t, &'t str> = self.parser.parse(text).tokenize_value();
        assert(result_view(r) == self.spec_parse(text@));
        r
    }
}

/// Tokenizes the parsed value.
pub fn tokenize<'t, F: Parser<'t>>(parser: F) -> (p: Tokenize<F>)
    ensures
        p == (Tokenize { parser }),
{
    Tokenize { parser }
}

/// The success on `text` that parses nothing and has no value.
pub open spec fn spec_nothing<V>(text: Seq<char>) -> ResultView<Option<V>> {
    Ok(SuccessView::split(None, text, 0))
}

/// A result with the value of any success wrapped in `Some`.
pub open spec fn spec_some<V>(r: ResultView<V>) -> ResultView<Option<V>> {
    match r {
        Ok(s) => Ok(s.with_value(Some(s.value))),
        Err(f) => Err(f),
    }
}

/// The result of an optional parse: a failure becomes a success that parses
/// nothing.
pub open spec fn spec_maybe<V>(r: ResultView<V>, text: Seq<char>) -> ResultView<Option<V>> {
    match r {
        Ok(s) => spec_some(r),
        Err(_) => spec_nothing(text),
    }
}

/// A parser which attempts a parse and succeeds without a value if it
/// fails.
pub struct Maybe<F> {
    /// The parser to attempt.
    pub parser: F,
}

impl<'t, F: Parser<'t>> Parser<'t> for Maybe<F> {
    type Value = Option<F::Value>;

    open spec fn well_formed(&self) -> bool {
        self.parser.well_formed()
    }

    open spec fn spec_parse(&self, text: Seq<char>) -> ResultView<
        Option<<F::Value as DeepView>::V>,
    > {
        spec_maybe(self.parser.spec_parse(text), text)
    }

    proof fn lemma_anchored(&self, text: Seq<char>) {
        self.parser.lemma_anchored(text);
    }

    fn parse(&self, text: &'t str) -> (r: ParseResult<'t, Option<F::Value>>) {
        let r: ParseResult<'t, Option<F::Value>> = match self.parser.parse(text) {
            Ok(success) => Ok(
                Success { value: Some(success.value), token: success.token, rest: success.rest },
            ),
            Err(_) => Ok(Success { token: take(text, 0), rest: skip(text, 0), value: None }),
        };
        assert(result_view(r) == self.spec_parse(text@));
        r
    }
}

/// Returns a parser which will attempt a parse, wrapping the result in `Some`
/// if it succeeds, otherwise converting the failure into a success with `None`.
pub fn maybe<'t, F: Parser<'t>>(parser: F) -> (p: Maybe<F>)
    ensures
        p == (Maybe { parser }),
{
    Maybe { parser }
}

/// A parser which attempts a parse and expects it to succeed or to parse
/// nothing.
pub struct Atomic<F> {
    /// The parser to attempt.
    pub parser: F,
}

impl<'t, F: Parser<'t>> Parser<'t> for Atomic<F> {
    type Value = Option<F::Value>;

    open spec fn well_formed(&self) -> bool {
        self.parser.well_formed()
    }

    open spec fn spec_parse(&self, text: Seq<char>) -> ResultView<
        Option<<F::Value as DeepView>::V>,
    > {
        match self.parser.spec_parse(text) {
            Ok(s) => Ok(s.with_value(Some(s.value))),
            Err(f) => if f.context.len() == 0 {
                spec_nothing(text)
            } else {
                Err(f)
            },
        }
    }

    proof fn lemma_anchored(&self, text: Seq<char>) {
        self.parser.lemma_anchored(text);
    }

    fn parse(&self, text: &'t str) -> (r: ParseResult<'t, Option<F::Value>>) {
        let r: ParseResult<'t, Option<F::Value>> = match self.parser.parse(text) {
            Ok(success) => Ok(
                Success { value: Some(success.value), token: success.token, rest: success.rest },
            ),
            Err(fail) => if char_len(fail.context) == 0 {
                Ok(Success { token: take(text, 0), rest: skip(text, 0), value: None })
            } else {
                Err(fail)
            },
        };
        assert(result_view(r) == self.spec_parse(text@));
        r
    }
}

/// Returns a parser which will attempt a parse, expecting it to succeed or
/// parse nothing.
pub fn atomic<'t, F: Parser<'t>>(parser: F) -> (p: Atomic<F>)
    ensures
        p == (Atomic { parser }),
{
    Atomic { parser }
}

/// A parser which attempts a parse and expects it to succeed or to parse
/// only whitespace.
pub struct AtomicIgnoreWhitespace<F> {
    /// The parser to attempt.
    pub parser: F,
}

impl<'t, F: Parser<'t>> Parser<'t> for AtomicIgnoreWhitespace<F> {
    type Value = Option<F::Value>;

    open spec fn well_formed(&self) -> bool {
        self.parser.well_formed()
    }

    open spec fn spec_parse(&self, text: Seq<char>) -> ResultView<
        Option<<F::Value as DeepView>::V>,
    > {
        match self.parser.spec_parse(text) {
            Ok(s) => Ok(s.with_value(Some(s.value))),
            Err(f) => if spec_all_whitespace(f.context) {
                Ok(
                    SuccessView {
                        value: None,
                        token: f.context,
                        rest: f.rest.skip(f.context.len() as int),
                    },
                )
            } else {
                Err(f)
            },
        }
    }

    proof fn lemma_anchored(&self, text: Seq<char>) {
        self.parser.lemma_anchored(text);
    }

    fn parse(&self, text: &'t str) -> (r: ParseResult<'t, Option<F::Value>>) {
        proof {
            self.parser.lemma_anchored(text@);
        }
        let r: ParseResult<'t, Option<F::Value>> = match self.parser.parse(text) {
            Ok(success) => Ok(
                Success { value: Some(success.value), token: success.token, rest: success.rest },
            ),
            Err(fail) => if all_whitespace(fail.context) {
                Ok(Success { token: fail.context, rest: fail.rest_continuing(), value: None })
            } else {
                Err(fail)
            },
        };
        assert(result_view(r) == self.spec_parse(text@));
        r
    }
}

/// Returns a parser which will attempt a parse, expecting it to succeed or
/// parse only whitespace.
pub fn atomic_ignore_whitespace<'t, F: Parser<'t>>(parser: F) -> (p: AtomicIgnoreWhitespace<F>)
    ensures
        p == (AtomicIgnoreWhitespace { parser }),
{
    AtomicIgnoreWhitespace { parser }
}

/// A parser which requires a parse to succeed if a condition holds, and
/// else attempts it.
pub struct RequireIf<F> {
    /// What is expected where the parse is required.
    pub expected: Text<'static>,
    /// Whether the parse is required.
    pub required: bool,
    /// The parser to attempt.
    pub parser: F,
}

impl<'t, F: Parser<'t>> Parser<'t> for RequireIf<F> {
    type Value = Option<F::Value>;

    open spec fn well_formed(&self) -> bool {
        self.parser.well_formed()
    }

    open spec fn spec_parse(&self, text: Seq<char>) -> ResultView<
        Option<<F::Value as DeepView>::V>,
    > {
        if self.required {
            spec_some(spec_source_for(self.parser.spec_parse(text), self.expected@))
        } else {
            spec_maybe(self.parser.spec_parse(text), text)
        }
    }

    proof fn lemma_anchored(&self, text: Seq<char>) {
        self.parser.lemma_anchored(text);
    }

    fn parse(&self, text: &'t str) -> (r: ParseResult<'t, Option<F::Value>>) {
        let r: ParseResult<'t, Option<F::Value>> = if self.required {
            match self.parser.parse(text).source_for(self.expected.duplicate()) {
                Ok(success) => Ok(
                    Success {
                        value: Some(success.value),
                        token: success.token,
                        rest: success.rest,
                    },
                ),
                Err(fail) => Err(fail),
            }
        } else {
            match self.parser.parse(text) {
                Ok(success) => Ok(
                    Success {
                        value: Some(success.value),
                        token: success.token,
                        rest: success.rest,
                    },
                ),
                Err(_) => Ok(Success { token: take(text, 0), rest: skip(text, 0), value: None }),
            }
        };
        assert(result_view(r) == self.spec_parse(text@));
        r
    }
}

/// Returns a parser which will require a parse to succeed if `required`
/// holds, and will attempt it otherwise.
pub fn require_if<'t, F: Parser<'t>>(expected: Text<'static>, required: bool, parser: F) -> (p:
    RequireIf<F>)
    ensures
        p == (RequireIf { expected, required, parser }),
{
    RequireIf { expected, required, parser }
}

////////////////////////////////////////////////////////////////////////////////
// Sequences
////////////////////////////////////////////////////////////////////////////////

/// The result of two parsers in sequence on `text`, with both values.
pub open spec fn spec_pair<'t, F: Parser<'t>, G: Parser<'t>>(fst: F, snd: G, text: Seq<char>)
    -> ResultView<(<F::Value as DeepView>::V, <G::Value as DeepView>::V)> {
    match fst.spec_parse(text) {
        Err(f) => Err(f),
        Ok(s1) => match spec_join_previous(snd.spec_parse(s1.rest), s1.token.len(), text) {
            Err(f) => Err(f),
            Ok(s2) => Ok(s2.with_value((s1.value, s2.value))),
        },
    }
}

/// Two parsers in sequence are anchored.
pub proof fn lemma_pair_anchored<'t, F: Parser<'t>, G: Parser<'t>>(
    fst: F,
    snd: G,
    text: Seq<char>,
)
    requires
        fst.well_formed(),
        snd.well_formed(),
    ensures
        anchored(spec_pair(fst, snd, text), text),
{
    fst.lemma_anchored(text);
    if let Ok(s1) = fst.spec_parse(text) {
        snd.lemma_anchored(s1.rest);
        lemma_spec_join_previous_anchored(s1, snd.spec_parse(s1.rest), text);
    }
}

/// Attempts two parsers in sequence on `text`.
fn parse_pair<'t, F: Parser<'t>, G: Parser<'t>>(fst: &F, snd: &G, text: &'t str) -> (r:
    ParseResult<'t, (F::Value, G::Value)>)
    requires
        fst.well_formed(),
        snd.well_formed(),
    ensures
        result_view(r) == spec_pair(*fst, *snd, text@),
{
    match fst.parse(text) {
        Err(f) => Err(f),
        Ok(s1) => {
            proof {
                fst.lemma_anchored(text@);
                snd.lemma_anchored(s1.rest@);
                lemma_spec_join_previous_anchored(
                    s1.deep_view(),
                    snd.spec_parse(s1.rest@),
                    text@,
                );
            }
            match join_previous(snd.parse(s1.rest), s1.token, text) {
                Err(f) => Err(f),
                Ok(s2) => Ok(
                    Success { value: (s1.value, s2.value), token: s2.token, rest: s2.rest },
                ),
            }
        },
    }
}

/// The result with the first of the two values of any success.
pub open spec fn spec_first<V, U>(r: ResultView<(V, U)>) -> ResultView<V> {
    match r {
        Ok(s) => Ok(s.with_value(s.value.0)),
        Err(f) => Err(f),
    }
}

/// The result with the second of the two values of any success.
pub open spec fn spec_second<V, U>(r: ResultView<(V, U)>) -> ResultView<U> {
    match r {
        Ok(s) => Ok(s.with_value(s.value.1)),
        Err(f) => Err(f),
    }
}

/// A parser which attempts two parsers in sequence and keeps both values.
pub struct Pair<F, G> {
    /// The first parser.
    pub fst_parser: F,
    /// The second parser.
    pub snd_parser: G,
}

impl<'t, F: Parser<'t>, G: Parser<'t>> Parser<'t> for Pair<F, G> {
    type Value = (F::Value, G::Value);

    open spec fn well_formed(&self) -> bool {
        self.fst_parser.well_formed() && self.snd_parser.well_formed()
    }

    open spec fn spec_parse(&self, text: Seq<char>) -> ResultView<
        (<F::Value as DeepView>::V, <G::Value as DeepView>::V),
    > {
        spec_pair(self.fst_parser, self.snd_parser, text)
    }

    proof fn lemma_anchored(&self, text: Seq<char>) {
        lemma_pair_anchored(self.fst_parser, self.snd_parser, text);
    }

    fn parse(&self, text: &'t str) -> (r: ParseResult<'t, (F::Value, G::Value)>) {
        let r: ParseResult<'t, (F::Value, G::Value)> = parse_pair(
            &self.fst_parser,
            &self.snd_parser,
            text,
        );
        assert(result_view(r) == self.spec_parse(text@));
        r
    }
}

/// Returns a parser which will attempt to parse with the first argument and
/// then the second, joining the tokens and keeping both values.
pub fn pair<'t, F: Parser<'t>, G: Parser<'t>>(fst_parser: F, snd_parser: G) -> (p: Pair<F, G>)
    ensures
        p == (Pair { fst_parser, snd_parser }),
{
    Pair { fst_parser, snd_parser }
}

/// A parser which attempts a prefix parser and then a parser, and keeps the
/// value of the parser.
pub struct Prefix<F, G> {
    /// The parser whose value is kept.
    pub parser: F,
    /// The parser of the prefix.
    pub prefix_parser: G,
}

impl<'t, F: Parser<'t>, G: Parser<'t>> Parser<'t> for Prefix<F, G> {
    type Value = F::Value;

    open spec fn well_formed(&self) -> bool {
        self.parser.well_formed() && self.prefix_parser.well_formed()
    }

    open spec fn spec_parse(&self, text: Seq<char>) -> ResultView<<F::Value as DeepView>::V> {
        spec_second(spec_pair(self.prefix_parser, self.parser, text))
    }

    proof fn lemma_anchored(&self, text: Seq<char>) {
        lemma_pair_anchored(self.prefix_parser, self.parser, text);
    }

    fn parse(&self, text: &'t str) -> (r: ParseResult<'t, F::Value>) {
        let r: ParseResult<'t, F::Value> = match parse_pair(
            &self.prefix_parser,
            &self.parser,
            text,
        ) {
            Ok(s) => Ok(Success { value: s.value.1, token: s.token, rest: s.rest }),
            Err(f) => Err(f),
        };
        assert(result_view(r) == self.spec_parse(text@));
        r
    }
}

/// Returns a parser which will attempt to parse with the second argument and
/// then the first, joining the tokens while discarding the value of the second
/// parser.
pub fn prefix<'t, F: Parser<'t>, G: Parser<'t>>(parser: F, prefix_parser: G) -> (p: Prefix<F, G>)
    ensures
        p == (Prefix { parser, prefix_parser }),
{
    Prefix { parser, prefix_parser }
}

/// A parser which attempts a parser and then a postfix parser, and keeps the
/// value of the parser.
pub struct Postfix<F, G> {
    /// The parser whose value is kept.
    pub parser: F,
    /// The parser of the postfix.
    pub postfix_parser: G,
}

impl<'t, F: Parser<'t>, G: Parser<'t>> Parser<'t> for Postfix<F, G> {
    type Value = F::Value;

    open spec fn well_formed(&self) -> bool {
        self.parser.well_formed() && self.postfix_parser.well_formed()
    }

    open spec fn spec_parse(&self, text: Seq<char>) -> ResultView<<F::Value as DeepView>::V> {
        spec_first(spec_pair(self.parser, self.postfix_parser, text))
    }

    proof fn lemma_anchored(&self, text: Seq<char>) {
        lemma_pair_anchored(self.parser, self.postfix_parser, text);
    }

    fn parse(&self, text: &'t str) -> (r: ParseResult<'t, F::Value>) {
        let r: ParseResult<'t, F::Value> = match parse_pair(
            &self.parser,
            &self.postfix_parser,
            text,
        ) {
            Ok(s) => Ok(Success { value: s.value.0, token: s.token, rest: s.rest }),
            Err(f) => Err(f),
        };
        assert(result_view(r) == self.spec_parse(text@));
        r
    }
}

/// Returns a parser which will attempt to parse with the first argument and
/// then the second, joining the tokens while discarding the value of the second
/// parser.
pub fn postfix<'t, F: Parser<'t>, G: Parser<'t>>(parser: F, postfix_parser: G) -> (p: Postfix<
    F,
    G,
>)
    ensures
        p == (Postfix { parser, postfix_parser }),
{
    Postfix { parser, postfix_parser }
}

/// The result of three parsers in sequence on `text`, with the value of the
/// second.
pub open spec fn spec_bracket<'t, F: Parser<'t>, G: Parser<'t>, H: Parser<'t>>(
    parser: F,
    prefix_parser: G,
    postfix_parser: H,
    text: Seq<char>,
) -> ResultView<<F::Value as DeepView>::V> {
    match spec_second(spec_pair(prefix_parser, parser, text)) {
        Err(f) => Err(f),
        Ok(s2) => match spec_join_previous(
            postfix_parser.spec_parse(s2.rest),
            s2.token.len(),
            text,
        ) {
            Err(f) => Err(f),
            Ok(s3) => Ok(s3.with_value(s2.value)),
        },
    }
}

/// Three parsers in sequence are anchored.
pub proof fn lemma_bracket_anchored<'t, F: Parser<'t>, G: Parser<'t>, H: Parser<'t>>(
    parser: F,
    prefix_parser: G,
    postfix_parser: H,
    text: Seq<char>,
)
    requires
        parser.well_formed(),
        prefix_parser.well_formed(),
        postfix_parser.well_formed(),
    ensures
        anchored(spec_bracket(parser, prefix_parser, postfix_parser, text), text),
{
    lemma_pair_anchored(prefix_parser, parser, text);
    if let Ok(s2) = spec_second(spec_pair(prefix_parser, parser, text)) {
        postfix_parser.lemma_anchored(s2.rest);
        lemma_spec_join_previous_anchored(s2, postfix_parser.spec_parse(s2.rest), text);
    }
}

/// Attempts three parsers in sequence on `text`.
fn parse_bracket<'t, F: Parser<'t>, G: Parser<'t>, H: Parser<'t>>(
    parser: &F,
    prefix_parser: &G,
    postfix_parser: &H,
    text: &'t str,
) -> (r: ParseResult<'t, F::Value>)
    requires
        parser.well_formed(),
        prefix_parser.well_formed(),
        postfix_parser.well_formed(),
    ensures
        result_view(r) == spec_bracket(*parser, *prefix_parser, *postfix_parser, text@),
{
    match parse_pair(prefix_parser, parser, text) {
        Err(f) => Err(f),
        Ok(s2) => {
            proof {
                lemma_pair_anchored(*prefix_parser, *parser, text@);
                postfix_parser.lemma_anchored(s2.rest@);
                lemma_spec_join_previous_anchored(
                    s2.deep_view(),
                    postfix_parser.spec_parse(s2.rest@),
                    text@,
                );
            }
            match join_previous(postfix_parser.parse(s2.rest), s2.token, text) {
                Err(f) => Err(f),
                Ok(s3) => Ok(Success { value: s2.value.1, token: s3.token, rest: s3.rest }),
            }
        },
    }
}

/// A parser which attempts a parser between two parses of another, and
/// keeps the value of the parser in the middle.
pub struct Circumfix<F, G> {
    /// The parser whose value is kept.
    pub parser: F,
    /// The parser of what stands on both sides.
    pub circumfix_parser: G,
}

impl<'t, F: Parser<'t>, G: Parser<'t>> Parser<'t> for Circumfix<F, G> {
    type Value = F::Value;

    open spec fn well_formed(&self) -> bool {
        self.parser.well_formed() && self.circumfix_parser.well_formed()
    }

    open spec fn spec_parse(&self, text: Seq<char>) -> ResultView<<F::Value as DeepView>::V> {
        spec_bracket(self.parser, self.circumfix_parser, self.circumfix_parser, text)
    }

    proof fn lemma_anchored(&self, text: Seq<char>) {
        lemma_bracket_anchored(self.parser, self.circumfix_parser, self.circumfix_parser, text);
    }

    fn parse(&self, text: &'t str) -> (r: ParseResult<'t, F::Value>) {
        let r: ParseResult<'t, F::Value> = parse_bracket(
            &self.parser,
            &self.circumfix_parser,
            &self.circumfix_parser,
            text,
        );
        assert(result_view(r) == self.spec_parse(text@));
        r
    }
}

/// Returns a parser which will attempt to parse with the second argument and
/// then the first, then the second again, joining the tokens while discarding
/// the values from the second parser.
pub fn circumfix<'t, F: Parser<'t>, G: Parser<'t>>(parser: F, circumfix_parser: G) -> (p:
    Circumfix<F, G>)
    ensures
        p == (Circumfix { parser, circumfix_parser }),
{
    Circumfix { parser, circumfix_parser }
}

/// A parser which attempts a parser between a prefix and a postfix, and
/// keeps the value of the parser in the middle.
pub struct Bracket<F, G, H> {
    /// The parser whose value is kept.
    pub parser: F,
    /// The parser of the prefix.
    pub prefix_parser: G,
    /// The parser of the postfix.
    pub postfix_parser: H,
}

impl<'t, F: Parser<'t>, G: Parser<'t>, H: Parser<'t>> Parser<'t> for Bracket<F, G, H> {
    type Value = F::Value;

    open spec fn well_formed(&self) -> bool {
        &&& self.parser.well_formed()
        &&& self.prefix_parser.well_formed()
        &&& self.postfix_parser.well_formed()
    }

    open spec fn spec_parse(&self, text: Seq<char>) -> ResultView<<F::Value as DeepView>::V> {
        spec_bracket(self.parser, self.prefix_parser, self.postfix_parser, text)
    }

    proof fn lemma_anchored(&self, text: Seq<char>) {
        lemma_bracket_anchored(self.parser, self.prefix_parser, self.postfix_parser, text);
    }

    fn parse(&self, text: &'t str) -> (r: ParseResult<'t, F::Value>) {
        let r: ParseResult<'t, F::Value> = parse_bracket(
            &self.parser,
            &self.prefix_parser,
            &self.postfix_parser,
            text,
        );
        assert(result_view(r) == self.spec_parse(text@));
        r
    }
}

/// Returns a parser which will attempt to parse with the second argument, first
/// argument, and then the third, joining the tokens while discarding the value
/// of the second and third parser.
pub fn bracket<'t, F: Parser<'t>, G: Parser<'t>, H: Parser<'t>>(
    parser: F,
    prefix_parser: G,
    postfix_parser: H,
) -> (p: Bracket<F, G, H>)
    ensures
        p == (Bracket { parser, prefix_parser, postfix_parser }),
{
    Bracket { parser, prefix_parser, postfix_parser }
}

/// The result of three parsers in sequence on `text`, the third of which
/// is given the value of the first; the value is that of the second.
pub open spec fn spec_dynamic_bracket<
    't,
    F: Parser<'t>,
    G: Parser<'t>,
    H: DependentParser<'t, G::Value>,
>(parser: F, prefix_parser: G, postfix_parser: H, text: Seq<char>) -> ResultView<
    <F::Value as DeepView>::V,
> {
    match spec_pair(prefix_parser, parser, text) {
        Err(f) => Err(f),
        Ok(s2) => match spec_join_previous(
            postfix_parser.spec_parse_with(s2.rest, s2.value.0),
            s2.token.len(),
            text,
        ) {
            Err(f) => Err(f),
            Ok(s3) => Ok(s3.with_value(s2.value.1)),
        },
    }
}

/// A parser which attempts a parser between a prefix and a postfix that
/// depends on the prefix, and keeps the value of the parser in the middle.
pub struct DynamicBracket<F, G, H> {
    /// The parser whose value is kept.
    pub parser: F,
    /// The parser of the prefix.
    pub prefix_parser: G,
    /// The parser of the postfix, which is given the value of the prefix.
    pub postfix_parser: H,
}

impl<'t, F: Parser<'t>, G: Parser<'t>, H: DependentParser<'t, G::Value>> Parser<
    't,
> for DynamicBracket<F, G, H> {
    type Value = F::Value;

    open spec fn well_formed(&self) -> bool {
        &&& self.parser.well_formed()
        &&& self.prefix_parser.well_formed()
        &&& self.postfix_parser.well_formed()
    }

    open spec fn spec_parse(&self, text: Seq<char>) -> ResultView<<F::Value as DeepView>::V> {
        spec_dynamic_bracket(self.parser, self.prefix_parser, self.postfix_parser, text)
    }

    proof fn lemma_anchored(&self, text: Seq<char>) {
        lemma_pair_anchored(self.prefix_parser, self.parser, text);
        if let Ok(s2) = spec_pair(self.prefix_parser, self.parser, text) {
            self.postfix_parser.lemma_anchored_with(s2.rest, s2.value.0);
            lemma_spec_join_previous_anchored(
                s2,
                self.postfix_parser.spec_parse_with(s2.rest, s2.value.0),
                text,
            );
        }
    }

    fn parse(&self, text: &'t str) -> (r: ParseResult<'t, F::Value>) {
        let r: ParseResult<'t, F::Value> = match parse_pair(
            &self.prefix_parser,
            &self.parser,
            text,
        ) {
            Err(f) => Err(f),
            Ok(s2) => {
                proof {
                    lemma_pair_anchored(self.prefix_parser, self.parser, text@);
                    self.postfix_parser.lemma_anchored_with(s2.rest@, s2.value.0.deep_view());
                    lemma_spec_join_previous_anchored(
                        s2.deep_view(),
                        self.postfix_parser.spec_parse_with(s2.rest@, s2.value.0.deep_view()),
                        text@,
                    );
                }
                match join_previous(
                    self.postfix_parser.parse_with(s2.rest, s2.value.0),
                    s2.token,
                    text,
                ) {
                    Err(f) => Err(f),
                    Ok(s3) => Ok(Success { value: s2.value.1, token: s3.token, rest: s3.rest }),
                }
            },
        };
        assert(result_view(r) == self.spec_parse(text@));
        r
    }
}

/// Returns a parser which will attempt to parse with the second argument, first
/// argument, and then the third, joining the tokens while discarding the value
/// of the second and third parser. The third parser is given the value of
/// the second.
pub fn dynamic_bracket<'t, F: Parser<'t>, G: Parser<'t>, H: DependentParser<'t, G::Value>>(
    parser: F,
    prefix_parser: G,
    postfix_parser: H,
) -> (p: DynamicBracket<F, G, H>)
    ensures
        p == (DynamicBracket { parser, prefix_parser, postfix_parser }),
{
    DynamicBracket { parser, prefix_parser, postfix_parser }
}

/// The parser of the `char` that it is given.
pub struct SameChar;

impl<'t> DependentParser<'t, char> for SameChar {
    type Value = char;

    open spec fn well_formed(&self) -> bool {
        true
    }

    open spec fn spec_parse_with(&self, text: Seq<char>, arg: char) -> ResultView<char> {
        (Char { c: arg }).spec_parse(text)
    }

    proof fn lemma_anchored_with(&self, text: Seq<char>, arg: char) {
        (Char { c: arg }).lemma_anchored(text);
    }

    fn parse_with(&self, text: &'t str, arg: char) -> (r: ParseResult<'t, char>) {
        char(arg).parse(text)
    }
}

////////////////////////////////////////////////////////////////////////////////
// Literal map combinators
////////////////////////////////////////////////////////////////////////////////

/// The maker of the parsers of text literals.
pub struct Literals;

impl<'t> ParserFactory<'t> for Literals {
    type Output = Literal<'static>;

    open spec fn spec_parser(&self, pattern: &'static str) -> Literal<'static> {
        Literal { expect: pattern }
    }

    proof fn lemma_well_formed(&self, pattern: &'static str) {
    }

    fn parser(&self, pattern: &'static str) -> (p: Literal<'static>) {
        literal(pattern)
    }
}

/// The maker of the parsers of text literals that ignore ASCII case.
pub struct LiteralsIgnoreAsciiCase;

impl<'t> ParserFactory<'t> for LiteralsIgnoreAsciiCase {
    type Output = LiteralIgnoreAsciiCase<'static>;

    open spec fn spec_parser(&self, pattern: &'static str) -> LiteralIgnoreAsciiCase<'static> {
        LiteralIgnoreAsciiCase { expect: pattern }
    }

    proof fn lemma_well_formed(&self, pattern: &'static str) {
    }

    fn parser(&self, pattern: &'static str) -> (p: LiteralIgnoreAsciiCase<'static>) {
        literal_ignore_ascii_case(pattern)
    }
}

/// The place of the first pattern, from the place `from` on, whose parser
/// succeeds on `text`.
pub open spec fn spec_first_match<'t, P: ParserFactory<'t>, V>(
    parser: P,
    map: Seq<(&'static str, V)>,
    text: Seq<char>,
    from: nat,
) -> Option<nat>
    decreases map.len() - from,
{
    if from >= map.len() {
        None
    } else if parser.spec_parser(map[from as int].0).spec_parse(text) is Ok {
        Some(from)
    } else {
        spec_first_match(parser, map, text, from + 1)
    }
}

/// The result of the first parser that succeeds on `text` among the
/// parsers of the patterns of a map, with the value that the map gives for
/// that pattern; if there is none, the failure that expects `expected`.
pub open spec fn spec_any_literal_map<'t, P: ParserFactory<'t>, V: DeepView>(
    parser: P,
    expected: Seq<char>,
    map: Seq<(&'static str, V)>,
    text: Seq<char>,
) -> ResultView<V::V> {
    match spec_first_match(parser, map, text, 0) {
        Some(i) => match parser.spec_parser(map[i as int].0).spec_parse(text) {
            Ok(s) => Ok(s.with_value(map[i as int].1.deep_view())),
            Err(f) => Err(f),
        },
        None => Err(FailureView::at(text, expected)),
    }
}

/// The place that a first match has is a place in the map.
pub proof fn lemma_first_match<'t, P: ParserFactory<'t>, V>(
    parser: P,
    map: Seq<(&'static str, V)>,
    text: Seq<char>,
    from: nat,
)
    ensures
        spec_first_match(parser, map, text, from) matches Some(i) ==> from <= i < map.len()
            && parser.spec_parser(map[i as int].0).spec_parse(text) is Ok,
    decreases map.len() - from,
{
    if from < map.len() && !(parser.spec_parser(map[from as int].0).spec_parse(text) is Ok) {
        lemma_first_match(parser, map, text, from + 1);
    }
}

/// Finds the first pattern of the map whose parser succeeds on `text`.
/// Returns the place of the pattern with the success.
pub(crate) fn first_match<'t, P: ParserFactory<'t>, V>(
    parser: &P,
    map: &Vec<(&'static str, V)>,
    text: &'t str,
) -> (r: Option<(usize, Success<'t, <P::Output as Parser<'t>>::Value>)>)
    ensures
        match r {
            Some((i, s)) => {
                &&& spec_first_match(*parser, map@, text@, 0) == Some(i as nat)
                &&& i < map@.len()
                &&& parser.spec_parser(map@[i as int].0).spec_parse(text@) == Ok::<
                    SuccessView<<<P::Output as Parser<'t>>::Value as DeepView>::V>,
                    FailureView,
                >(s.deep_view())
            },
            None => spec_first_match(*parser, map@, text@, 0) is None,
        },
{
    let mut i: usize = 0;
    while i < map.len()
        invariant
            i <= map@.len(),
            spec_first_match(*parser, map@, text@, 0) == spec_first_match(
                *parser,
                map@,
                text@,
                i as nat,
            ),
        decreases map@.len() - i,
    {
        let pattern = map[i].0;
        proof {
            parser.lemma_well_formed(pattern);
        }
        if let Ok(success) = parser.parser(pattern).parse(text) {
            return Some((i, success));
        }
        i += 1;
    }
    None
}

/// A parser which attempts the parsers of the patterns of a map and gives
/// the value of the first pattern whose parser succeeds.
pub struct AnyLiteralMap<P, V> {
    /// The maker of the parsers of the patterns.
    pub parser: P,
    /// What is expected if no parser succeeds.
    pub expected: Text<'static>,
    /// The patterns with their values.
    pub map: Vec<(&'static str, V)>,
}

impl<'t, P: ParserFactory<'t>, V: Copy + DeepView> Parser<'t> for AnyLiteralMap<P, V> {
    type Value = V;

    open spec fn well_formed(&self) -> bool {
        true
    }

    open spec fn spec_parse(&self, text: Seq<char>) -> ResultView<V::V> {
        spec_any_literal_map(self.parser, self.expected@, self.map@, text)
    }

    proof fn lemma_anchored(&self, text: Seq<char>) {
        lemma_first_match(self.parser, self.map@, text, 0);
        if let Some(i) = spec_first_match(self.parser, self.map@, text, 0) {
            self.parser.lemma_well_formed(self.map@[i as int].0);
            self.parser.spec_parser(self.map@[i as int].0).lemma_anchored(text);
        }
    }

    fn parse(&self, text: &'t str) -> (r: ParseResult<'t, V>) {
        let r: ParseResult<'t, V> = match first_match(&self.parser, &self.map, text) {
            Some((i, success)) => Ok(
                Success { value: self.map[i].1, token: success.token, rest: success.rest },
            ),
            None => Err(
                Failure {
                    context: take(text, 0),
                    rest: text,
                    expected: self.expected.duplicate(),
                    source: None,
                },
            ),
        };
        assert(result_view(r) == self.spec_parse(text@));
        r
    }
}

/// Attempts a sequence of parses with the parsers that the maker gives for
/// the patterns on the left of the map. If one succeeds, the value on the
/// right of its pattern is returned.
pub fn any_literal_map<'t, P: ParserFactory<'t>, V: Copy + DeepView>(
    parser: P,
    expected: Text<'static>,
    map: Vec<(&'static str, V)>,
) -> (p: AnyLiteralMap<P, V>)
    ensures
        p == (AnyLiteralMap { parser, expected, map }),
{
    AnyLiteralMap { parser, expected, map }
}

/// A parser for one parse, which attempts the parsers of the patterns of a
/// map and gives the value of the first pattern whose parser succeeds.
pub struct AnyLiteralMapOnce<P, V> {
    /// The maker of the parsers of the patterns.
    pub parser: P,
    /// What is expected if no parser succeeds.
    pub expected: Text<'static>,
    /// The patterns with their values.
    pub map: Vec<(&'static str, V)>,
}

impl<P, V: DeepView> AnyLiteralMapOnce<P, V> {
    /// Attempts a parse of `text` and gives the value out of the map.
    pub fn parse_once<'t>(self, text: &'t str) -> (r: ParseResult<'t, V>) where
        P: ParserFactory<'t>,
        ensures
            result_view(r) == spec_any_literal_map(self.parser, self.expected@, self.map@, text@),
    {
        let mut map = self.map;
        match first_match(&self.parser, &map, text) {
            Some((i, success)) => {
                let entry = map.swap_remove(i);
                Ok(Success { value: entry.1, token: success.token, rest: success.rest })
            },
            None => Err(
                Failure {
                    context: take(text, 0),
                    rest: text,
                    expected: self.expected,
                    source: None,
                },
            ),
        }
    }
}

/// Attempts a sequence of parses with the parsers that the maker gives for
/// the patterns on the left of the map. If one succeeds, the value on the
/// right of its pattern is returned. The parser is for one parse.
pub fn any_literal_map_once<P, V: DeepView>(
    parser: P,
    expected: Text<'static>,
    map: Vec<(&'static str, V)>,
) -> (p: AnyLiteralMapOnce<P, V>)
    ensures
        p == (AnyLiteralMapOnce { parser, expected, map }),
{
    AnyLiteralMapOnce { parser, expected, map }
}

////////////////////////////////////////////////////////////////////////////////
// Repetitions
////////////////////////////////////////////////////////////////////////////////

/// The number of repetitions at which a repetition stops: `high`, or `low`
/// where `high` is below it; without `high`, the largest number there is.
pub open spec fn spec_limit(low: usize, high: Option<usize>) -> usize {
    match high {
        Some(h) => if h < low {
            low
        } else {
            h
        },
        None => usize::MAX,
    }
}

/// True if there is an end parser and it succeeds on `text`.
pub open spec fn spec_end_matches<'t, H: Parser<'t>>(end_parser: Option<&H>, text: Seq<char>)
    -> bool {
    match end_parser {
        Some(e) => e.spec_parse(text) is Ok,
        None => false,
    }
}

/// How a repetition that has come as far as `acc` goes on. `acc` holds the
/// values parsed so far, the token that covers them and what is left of
/// `text`.
///
/// The repetition is over, with `acc`, once `limit` values are there or the
/// end parser succeeds on what is left. Else the separator and then the
/// parser are attempted on what is left. If the end parser succeeds after
/// the separator, the repetition is over and the separator is part of the
/// token. If the separator or the parser fails, the repetition is over with
/// `acc` as it was, unless fewer than `low` values are there: then it
/// fails. A repetition that parsed nothing is counted, and is the last one
/// once `low` values are there.
pub open spec fn spec_more<'t, F: Parser<'t>, G: Parser<'t>, H: Parser<'t>>(
    parser: F,
    inner_parser: G,
    end_parser: Option<&H>,
    low: usize,
    limit: usize,
    text: Seq<char>,
    acc: SuccessView<Seq<<F::Value as DeepView>::V>>,
) -> ResultView<Seq<<F::Value as DeepView>::V>>
    decreases
            (if acc.value.len() < low {
                low - acc.value.len()
            } else {
                0
            }),
            acc.rest.len(),
{
    let count = acc.value.len();
    if count >= limit || spec_end_matches(end_parser, acc.rest) {
        Ok(acc)
    } else {
        match spec_join_previous(inner_parser.spec_parse(acc.rest), acc.token.len(), text) {
            Err(f) => if count < low {
                Err(f)
            } else {
                Ok(acc)
            },
            Ok(sep) => if spec_end_matches(end_parser, sep.rest) {
                Ok(sep.with_value(acc.value))
            } else {
                match spec_join_previous(parser.spec_parse(sep.rest), sep.token.len(), text) {
                    Err(f) => if count < low {
                        Err(f)
                    } else {
                        Ok(acc)
                    },
                    Ok(item) => {
                        let next = item.with_value(acc.value.push(item.value));
                        if count + 1 >= low && next.rest.len() >= acc.rest.len() {
                            Ok(next)
                        } else {
                            spec_more(parser, inner_parser, end_parser, low, limit, text, next)
                        }
                    },
                }
            },
        }
    }
}

/// The result of a repetition on `text`: the parser is attempted again and
/// again, each time but the first after the separator, and the values are
/// collected in order.
///
/// Nothing is parsed if no repetition is allowed or the end parser succeeds
/// at once. If the first attempt fails, the repetition fails unless `low`
/// is zero.
pub open spec fn spec_repetition<'t, F: Parser<'t>, G: Parser<'t>, H: Parser<'t>>(
    parser: F,
    inner_parser: G,
    end_parser: Option<&H>,
    low: usize,
    high: Option<usize>,
    text: Seq<char>,
) -> ResultView<Seq<<F::Value as DeepView>::V>> {
    let limit = spec_limit(low, high);
    let nothing = SuccessView::split(Seq::empty(), text, 0);
    if limit == 0 || spec_end_matches(end_parser, text) {
        Ok(nothing)
    } else {
        match parser.spec_parse(text) {
            Err(f) => if low == 0 {
                Ok(nothing)
            } else {
                Err(f)
            },
            Ok(item) => {
                let first = item.with_value(seq![item.value]);
                if low <= 1 && first.rest.len() >= text.len() {
                    Ok(first)
                } else {
                    spec_more(parser, inner_parser, end_parser, low, limit, text, first)
                }
            },
        }
    }
}

/// The result with the number of values in place of the values of any
/// success.
pub open spec fn spec_count<V>(r: ResultView<Seq<V>>) -> ResultView<usize> {
    match r {
        Ok(s) => Ok(s.with_value(s.value.len() as usize)),
        Err(f) => Err(f),
    }
}

/// A repetition that goes on from an anchored success is anchored.
pub proof fn lemma_more_anchored<'t, F: Parser<'t>, G: Parser<'t>, H: Parser<'t>>(
    parser: F,
    inner_parser: G,
    end_parser: Option<&H>,
    low: usize,
    limit: usize,
    text: Seq<char>,
    acc: SuccessView<Seq<<F::Value as DeepView>::V>>,
)
    requires
        parser.well_formed(),
        inner_parser.well_formed(),
        acc.anchored(text),
    ensures
        anchored(spec_more(parser, inner_parser, end_parser, low, limit, text, acc), text),
    decreases
            (if acc.value.len() < low {
                low - acc.value.len()
            } else {
                0
            }),
            acc.rest.len(),
{
    let count = acc.value.len();
    if count >= limit || spec_end_matches(end_parser, acc.rest) {
    } else {
        inner_parser.lemma_anchored(acc.rest);
        lemma_spec_join_previous_anchored(acc, inner_parser.spec_parse(acc.rest), text);
        match spec_join_previous(inner_parser.spec_parse(acc.rest), acc.token.len(), text) {
            Err(f) => {},
            Ok(sep) => {
                if spec_end_matches(end_parser, sep.rest) {
                } else {
                    parser.lemma_anchored(sep.rest);
                    lemma_spec_join_previous_anchored(sep, parser.spec_parse(sep.rest), text);
                    match spec_join_previous(
                        parser.spec_parse(sep.rest),
                        sep.token.len(),
                        text,
                    ) {
                        Err(f) => {},
                        Ok(item) => {
                            let next = item.with_value(acc.value.push(item.value));
                            if count + 1 >= low && next.rest.len() >= acc.rest.len() {
                            } else {
                                lemma_more_anchored(
                                    parser,
                                    inner_parser,
                                    end_parser,
                                    low,
                                    limit,
                                    text,
                                    next,
                                );
                            }
                        },
                    }
                }
            },
        }
    }
}

/// A repetition is anchored.
pub proof fn lemma_repetition_anchored<'t, F: Parser<'t>, G: Parser<'t>, H: Parser<'t>>(
    parser: F,
    inner_parser: G,
    end_parser: Option<&H>,
    low: usize,
    high: Option<usize>,
    text: Seq<char>,
)
    requires
        parser.well_formed(),
        inner_parser.well_formed(),
    ensures
        anchored(spec_repetition(parser, inner_parser, end_parser, low, high, text), text),
{
    let limit = spec_limit(low, high);
    if limit == 0 || spec_end_matches(end_parser, text) {
    } else {
        parser.lemma_anchored(text);
        if let Ok(item) = parser.spec_parse(text) {
            let first = item.with_value(seq![item.value]);
            lemma_more_anchored(parser, inner_parser, end_parser, low, limit, text, first);
        }
    }
}

/// A repetition that goes on from `acc` and succeeds has no more than
/// `limit` values and, if there is no end parser, no fewer than `low`.
pub proof fn lemma_more_count<'t, F: Parser<'t>, G: Parser<'t>, H: Parser<'t>>(
    parser: F,
    inner_parser: G,
    end_parser: Option<&H>,
    low: usize,
    limit: usize,
    text: Seq<char>,
    acc: SuccessView<Seq<<F::Value as DeepView>::V>>,
)
    requires
        low <= limit,
        acc.value.len() <= limit,
    ensures
        spec_more(parser, inner_parser, end_parser, low, limit, text, acc) matches Ok(s) ==> {
            &&& s.value.len() <= limit
            &&& end_parser is None ==> low <= s.value.len()
        },
    decreases
            (if acc.value.len() < low {
                low - acc.value.len()
            } else {
                0
            }),
            acc.rest.len(),
{
    let count = acc.value.len();
    if count >= limit || spec_end_matches(end_parser, acc.rest) {
    } else {
        match spec_join_previous(inner_parser.spec_parse(acc.rest), acc.token.len(), text) {
            Err(f) => {},
            Ok(sep) => {
                if spec_end_matches(end_parser, sep.rest) {
                } else {
                    match spec_join_previous(
                        parser.spec_parse(sep.rest),
                        sep.token.len(),
                        text,
                    ) {
                        Err(f) => {},
                        Ok(item) => {
                            let next = item.with_value(acc.value.push(item.value));
                            if count + 1 >= low && next.rest.len() >= acc.rest.len() {
                            } else {
                                lemma_more_count(
                                    parser,
                                    inner_parser,
                                    end_parser,
                                    low,
                                    limit,
                                    text,
                                    next,
                                );
                            }
                        },
                    }
                }
            },
        }
    }
}

/// A repetition that succeeds has no more values than `high`, or than `low`
/// where `high` is below it, and, if there is no end parser, no fewer than
/// `low`.
pub proof fn lemma_repetition_count<'t, F: Parser<'t>, G: Parser<'t>, H: Parser<'t>>(
    parser: F,
    inner_parser: G,
    end_parser: Option<&H>,
    low: usize,
    high: Option<usize>,
    text: Seq<char>,
)
    ensures
        spec_repetition(parser, inner_parser, end_parser, low, high, text) matches Ok(s) ==> {
            &&& s.value.len() <= spec_limit(low, high)
            &&& end_parser is None ==> low <= s.value.len()
        },
{
    let limit = spec_limit(low, high);
    if limit == 0 || spec_end_matches(end_parser, text) {
    } else {
        if let Ok(item) = parser.spec_parse(text) {
            let first = item.with_value(seq![item.value]);
            lemma_more_count(parser, inner_parser, end_parser, low, limit, text, first);
        }
    }
}

/// A property that holds of every value of the parser holds of every value
/// of a repetition that goes on from values of which it holds.
pub proof fn lemma_more_values<'t, F: Parser<'t>, G: Parser<'t>, H: Parser<'t>>(
    parser: F,
    inner_parser: G,
    end_parser: Option<&H>,
    low: usize,
    limit: usize,
    text: Seq<char>,
    acc: SuccessView<Seq<<F::Value as DeepView>::V>>,
    property: spec_fn(<F::Value as DeepView>::V) -> bool,
)
    requires
        forall|t: Seq<char>|
            (#[trigger] parser.spec_parse(t)) matches Ok(s) ==> property(s.value),
        forall|i: int| 0 <= i < acc.value.len() ==> property(#[trigger] acc.value[i]),
    ensures
        spec_more(parser, inner_parser, end_parser, low, limit, text, acc) matches Ok(s)
            ==> forall|i: int| 0 <= i < s.value.len() ==> property(#[trigger] s.value[i]),
    decreases
            (if acc.value.len() < low {
                low - acc.value.len()
            } else {
                0
            }),
            acc.rest.len(),
{
    let count = acc.value.len();
    if count >= limit || spec_end_matches(end_parser, acc.rest) {
    } else {
        match spec_join_previous(inner_parser.spec_parse(acc.rest), acc.token.len(), text) {
            Err(f) => {},
            Ok(sep) => {
                if spec_end_matches(end_parser, sep.rest) {
                } else {
                    assert(parser.spec_parse(sep.rest) matches Ok(s) ==> property(s.value));
                    match spec_join_previous(
                        parser.spec_parse(sep.rest),
                        sep.token.len(),
                        text,
                    ) {
                        Err(f) => {},
                        Ok(item) => {
                            let next = item.with_value(acc.value.push(item.value));
                            assert forall|i: int| 0 <= i < next.value.len() implies property(
                                #[trigger] next.value[i],
                            ) by {
                                if i < count {
                                    assert(next.value[i] == acc.value[i]);
                                }
                            }
                            if count + 1 >= low && next.rest.len() >= acc.rest.len() {
                            } else {
                                lemma_more_values(
                                    parser,
                                    inner_parser,
                                    end_parser,
                                    low,
                                    limit,
                                    text,
                                    next,
                                    property,
                                );
                            }
                        },
                    }
                }
            },
        }
    }
}

/// A property that holds of every value of the parser holds of every value
/// of a repetition.
pub proof fn lemma_repetition_values<'t, F: Parser<'t>, G: Parser<'t>, H: Parser<'t>>(
    parser: F,
    inner_parser: G,
    end_parser: Option<&H>,
    low: usize,
    high: Option<usize>,
    text: Seq<char>,
    property: spec_fn(<F::Value as DeepView>::V) -> bool,
)
    requires
        forall|t: Seq<char>|
            (#[trigger] parser.spec_parse(t)) matches Ok(s) ==> property(s.value),
    ensures
        spec_repetition(parser, inner_parser, end_parser, low, high, text) matches Ok(s)
            ==> forall|i: int| 0 <= i < s.value.len() ==> property(#[trigger] s.value[i]),
{
    let limit = spec_limit(low, high);
    if limit == 0 || spec_end_matches(end_parser, text) {
    } else {
        assert(parser.spec_parse(text) matches Ok(s) ==> property(s.value));
        if let Ok(item) = parser.spec_parse(text) {
            let first = item.with_value(seq![item.value]);
            lemma_more_values(
                parser,
                inner_parser,
                end_parser,
                low,
                limit,
                text,
                first,
                property,
            );
        }
    }
}

/// Returns true if there is an end parser and it succeeds on `text`.
fn end_matches<'t, H: Parser<'t>>(end_parser: Option<&H>, text: &'t str) -> (b: bool)
    requires
        end_parser matches Some(e) ==> e.well_formed(),
    ensures
        b == spec_end_matches(end_parser, text@),
{
    match end_parser {
        Some(e) => e.parse(text).is_ok(),
        None => false,
    }
}

/// Runs a repetition on `text`. Returns the number of values with the
/// values themselves, which are left out unless `collect` is set.
fn repetition<'t, F: Parser<'t>, G: Parser<'t>, H: Parser<'t>>(
    parser: &F,
    inner_parser: &G,
    end_parser: Option<&H>,
    low: usize,
    high: Option<usize>,
    collect: bool,
    text: &'t str,
) -> (r: ParseResult<'t, (usize, Vec<F::Value>)>)
    requires
        parser.well_formed(),
        inner_parser.well_formed(),
        end_parser matches Some(e) ==> e.well_formed(),
    ensures
        match (r, spec_repetition(*parser, *inner_parser, end_parser, low, high, text@)) {
            (Ok(s), Ok(v)) => {
                &&& s.value.0 == v.value.len()
                &&& collect ==> s.value.1.deep_view() == v.value
                &&& s.token@ == v.token
                &&& s.rest@ == v.rest
            },
            (Err(f), Err(g)) => f.deep_view() == g,
            _ => false,
        },
{
    let limit: usize = match high {
        Some(h) => if h < low {
            low
        } else {
            h
        },
        None => usize::MAX,
    };
    let text_len = char_len(text);
    let mut values: Vec<F::Value> = Vec::new();
    if limit == 0 || end_matches(end_parser, text) {
        assert(values.deep_view() =~= Seq::empty());
        return Ok(Success { value: (0, values), token: take(text, 0), rest: skip(text, 0) });
    }
    let first = match parser.parse(text) {
        Err(f) => {
            if low == 0 {
                assert(values.deep_view() =~= Seq::empty());
                return Ok(
                    Success { value: (0, values), token: take(text, 0), rest: skip(text, 0) },
                );
            } else {
                return Err(f);
            }
        },
        Ok(s) => s,
    };
    proof {
        parser.lemma_anchored(text@);
    }
    let mut token: &'t str = first.token;
    let mut rest: &'t str = first.rest;
    let ghost mut acc: SuccessView<Seq<<F::Value as DeepView>::V>> = first.deep_view().with_value(
        seq![first.value.deep_view()],
    );
    if collect {
        values.push(first.value);
        assert(values.deep_view() =~= acc.value);
    }
    let mut count: usize = 1;
    if low <= 1 && char_len(rest) >= text_len {
        return Ok(Success { value: (count, values), token, rest });
    }
    loop
        invariant
            parser.well_formed(),
            inner_parser.well_formed(),
            end_parser matches Some(e) ==> e.well_formed(),
            limit == spec_limit(low, high),
            text_len == text@.len(),
            acc.anchored(text@),
            token@ == acc.token,
            rest@ == acc.rest,
            count == acc.value.len(),
            collect ==> values.deep_view() == acc.value,
            spec_repetition(*parser, *inner_parser, end_parser, low, high, text@) == spec_more(
                *parser,
                *inner_parser,
                end_parser,
                low,
                limit,
                text@,
                acc,
            ),
        decreases
                (if count < low {
                    low - count
                } else {
                    0
                }),
                rest@.len(),
    {
        if count >= limit || end_matches(end_parser, rest) {
            return Ok(Success { value: (count, values), token, rest });
        }
        proof {
            inner_parser.lemma_anchored(rest@);
            lemma_spec_join_previous_anchored(acc, inner_parser.spec_parse(rest@), text@);
        }
        let sep = match join_previous(inner_parser.parse(rest), token, text) {
            Err(f) => {
                if count < low {
                    return Err(f);
                } else {
                    return Ok(Success { value: (count, values), token, rest });
                }
            },
            Ok(s) => s,
        };
        if end_matches(end_parser, sep.rest) {
            return Ok(Success { value: (count, values), token: sep.token, rest: sep.rest });
        }
        proof {
            parser.lemma_anchored(sep.rest@);
            lemma_spec_join_previous_anchored(
                sep.deep_view(),
                parser.spec_parse(sep.rest@),
                text@,
            );
        }
        let item = match join_previous(parser.parse(sep.rest), sep.token, text) {
            Err(f) => {
                if count < low {
                    return Err(f);
                } else {
                    return Ok(Success { value: (count, values), token, rest });
                }
            },
            Ok(s) => s,
        };
        let progress = char_len(item.rest) < char_len(rest);
        let ghost next = item.deep_view().with_value(acc.value.push(item.value.deep_view()));
        token = item.token;
        rest = item.rest;
        if collect {
            values.push(item.value);
            assert(values.deep_view() =~= next.value);
        }
        count = count + 1;
        if count >= low && !progress {
            return Ok(Success { value: (count, values), token, rest });
        }
        proof {
            acc = next;
        }
    }
}

/// A parser which repeats a parse with a separator between the repetitions
/// and counts them.
pub struct Intersperse<F, G> {
    /// The least number of repetitions.
    pub low: usize,
    /// The greatest number of repetitions, if there is one.
    pub high: Option<usize>,
    /// The parser to repeat.
    pub parser: F,
    /// The parser of the separator.
    pub inner_parser: G,
}

impl<'t, F: Parser<'t>, G: Parser<'t>> Parser<'t> for Intersperse<F, G> {
    type Value = usize;

    open spec fn well_formed(&self) -> bool {
        self.parser.well_formed() && self.inner_parser.well_formed()
    }

    open spec fn spec_parse(&self, text: Seq<char>) -> ResultView<usize> {
        spec_count(
            spec_repetition(
                self.parser,
                self.inner_parser,
                None::<&Null>,
                self.low,
                self.high,
                text,
            ),
        )
    }

    proof fn lemma_anchored(&self, text: Seq<char>) {
        lemma_repetition_anchored(
            self.parser,
            self.inner_parser,
            None::<&Null>,
            self.low,
            self.high,
            text,
        );
    }

    fn parse(&self, text: &'t str) -> (r: ParseResult<'t, usize>) {
        let r: ParseResult<'t, usize> = match repetition(
            &self.parser,
            &self.inner_parser,
            None::<&Null>,
            self.low,
            self.high,
            false,
            text,
        ) {
            Ok(s) => Ok(Success { value: s.value.0, token: s.token, rest: s.rest }),
            Err(f) => Err(f),
        };
        assert(result_view(r) == self.spec_parse(text@));
        r
    }
}

/// Returns a parser which repeats a parse a given number of times, each
/// time but the first after a parse of the separator, stopping if a failure
/// occurs or the upper limit is reached, returning the number of successes.
/// Fails if the lower limit is not reached.
pub fn intersperse<'t, F: Parser<'t>, G: Parser<'t>>(
    low: usize,
    high: Option<usize>,
    parser: F,
    inner_parser: G,
) -> (p: Intersperse<F, G>)
    ensures
        p == (Intersperse { low, high, parser, inner_parser }),
{
    Intersperse { low, high, parser, inner_parser }
}

/// A parser which repeats a parse with a separator between the repetitions
/// and collects the values.
pub struct IntersperseCollect<F, G> {
    /// The least number of repetitions.
    pub low: usize,
    /// The greatest number of repetitions, if there is one.
    pub high: Option<usize>,
    /// The parser to repeat.
    pub parser: F,
    /// The parser of the separator.
    pub inner_parser: G,
}

impl<'t, F: Parser<'t>, G: Parser<'t>> Parser<'t> for IntersperseCollect<F, G> {
    type Value = Vec<F::Value>;

    open spec fn well_formed(&self) -> bool {
        self.parser.well_formed() && self.inner_parser.well_formed()
    }

    open spec fn spec_parse(&self, text: Seq<char>) -> ResultView<Seq<<F::Value as DeepView>::V>> {
        spec_repetition(self.parser, self.inner_parser, None::<&Null>, self.low, self.high, text)
    }

    proof fn lemma_anchored(&self, text: Seq<char>) {
        lemma_repetition_anchored(
            self.parser,
            self.inner_parser,
            None::<&Null>,
            self.low,
            self.high,
            text,
        );
    }

    fn parse(&self, text: &'t str) -> (r: ParseResult<'t, Vec<F::Value>>) {
        let r: ParseResult<'t, Vec<F::Value>> = match repetition(
            &self.parser,
            &self.inner_parser,
            None::<&Null>,
            self.low,
            self.high,
            true,
            text,
        ) {
            Ok(s) => Ok(Success { value: s.value.1, token: s.token, rest: s.rest }),
            Err(f) => Err(f),
        };
        assert(result_view(r) == self.spec_parse(text@));
        r
    }
}

/// Returns a parser which repeats a parse a given number of times, each
/// time but the first after a parse of the separator, stopping if a failure
/// occurs or the upper limit is reached, returning a `Vec` containing each
/// successful result in order. Fails if the lower limit is not reached.
pub fn intersperse_collect<'t, F: Parser<'t>, G: Parser<'t>>(
    low: usize,
    high: Option<usize>,
    parser: F,
    inner_parser: G,
) -> (p: IntersperseCollect<F, G>)
    ensures
        p == (IntersperseCollect { low, high, parser, inner_parser }),
{
    IntersperseCollect { low, high, parser, inner_parser }
}

/// A parser which repeats a parse with a separator between the repetitions
/// until an end parser succeeds, and counts the repetitions.
pub struct IntersperseUntil<F, G, H> {
    /// The least number of repetitions.
    pub low: usize,
    /// The greatest number of repetitions, if there is one.
    pub high: Option<usize>,
    /// The parser to repeat.
    pub parser: F,
    /// The parser of the separator.
    pub inner_parser: G,
    /// The parser of what ends the repetition.
    pub end_parser: H,
}

impl<'t, F: Parser<'t>, G: Parser<'t>, H: Parser<'t>> Parser<'t> for IntersperseUntil<F, G, H> {
    type Value = usize;

    open spec fn well_formed(&self) -> bool {
        &&& self.parser.well_formed()
        &&& self.inner_parser.well_formed()
        &&& self.end_parser.well_formed()
    }

    open spec fn spec_parse(&self, text: Seq<char>) -> ResultView<usize> {
        spec_count(
            spec_repetition(
                self.parser,
                self.inner_parser,
                Some(&self.end_parser),
                self.low,
                self.high,
                text,
            ),
        )
    }

    proof fn lemma_anchored(&self, text: Seq<char>) {
        lemma_repetition_anchored(
            self.parser,
            self.inner_parser,
            Some(&self.end_parser),
            self.low,
            self.high,
            text,
        );
    }

    fn parse(&self, text: &'t str) -> (r: ParseResult<'t, usize>) {
        let r: ParseResult<'t, usize> = match repetition(
            &self.parser,
            &self.inner_parser,
            Some(&self.end_parser),
            self.low,
            self.high,
            false,
            text,
        ) {
            Ok(s) => Ok(Success { value: s.value.0, token: s.token, rest: s.rest }),
            Err(f) => Err(f),
        };
        assert(result_view(r) == self.spec_parse(text@));
        r
    }
}

/// Returns a parser which repeats a parse a given number of times, each
/// time but the first after a parse of the separator, stopping if a failure
/// occurs, the upper limit is reached or the end parser succeeds, returning
/// the number of successes. The end parser is attempted before every
/// repetition, and again after the separator; what it parses is left in the
/// text. Fails if the lower limit is not reached before a failure occurs.
pub fn intersperse_until<'t, F: Parser<'t>, G: Parser<'t>, H: Parser<'t>>(
    low: usize,
    high: Option<usize>,
    parser: F,
    inner_parser: G,
    end_parser: H,
) -> (p: IntersperseUntil<F, G, H>)
    ensures
        p == (IntersperseUntil { low, high, parser, inner_parser, end_parser }),
{
    IntersperseUntil { low, high, parser, inner_parser, end_parser }
}

/// A parser which repeats a parse with a separator between the repetitions
/// until an end parser succeeds, and collects the values.
pub struct IntersperseCollectUntil<F, G, H> {
    /// The least number of repetitions.
    pub low: usize,
    /// The greatest number of repetitions, if there is one.
    pub high: Option<usize>,
    /// The parser to repeat.
    pub parser: F,
    /// The parser of the separator.
    pub inner_parser: G,
    /// The parser of what ends the repetition.
    pub end_parser: H,
}

impl<'t, F: Parser<'t>, G: Parser<'t>, H: Parser<'t>> Parser<'t> for IntersperseCollectUntil<
    F,
    G,
    H,
> {
    type Value = Vec<F::Value>;

    open spec fn well_formed(&self) -> bool {
        &&& self.parser.well_formed()
        &&& self.inner_parser.well_formed()
        &&& self.end_parser.well_formed()
    }

    open spec fn spec_parse(&self, text: Seq<char>) -> ResultView<Seq<<F::Value as DeepView>::V>> {
        spec_repetition(
            self.parser,
            self.inner_parser,
            Some(&self.end_parser),
            self.low,
            self.high,
            text,
        )
    }

    proof fn lemma_anchored(&self, text: Seq<char>) {
        lemma_repetition_anchored(
            self.parser,
            self.inner_parser,
            Some(&self.end_parser),
            self.low,
            self.high,
            text,
        );
    }

    fn parse(&self, text: &'t str) -> (r: ParseResult<'t, Vec<F::Value>>) {
        let r: ParseResult<'t, Vec<F::Value>> = match repetition(
            &self.parser,
            &self.inner_parser,
            Some(&self.end_parser),
            self.low,
            self.high,
            true,
            text,
        ) {
            Ok(s) => Ok(Success { value: s.value.1, token: s.token, rest: s.rest }),
            Err(f) => Err(f),
        };
        assert(result_view(r) == self.spec_parse(text@));
        r
    }
}

/// Returns a parser which repeats a parse a given number of times, each
/// time but the first after a parse of the separator, stopping if a failure
/// occurs, the upper limit is reached or the end parser succeeds, returning
/// a `Vec` containing each successful result in order. The end parser is
/// attempted before every repetition, and again after the separator; what
/// it parses is left in the text. Fails if the lower limit is not reached
/// before a failure occurs.
pub fn intersperse_collect_until<'t, F: Parser<'t>, G: Parser<'t>, H: Parser<'t>>(
    low: usize,
    high: Option<usize>,
    parser: F,
    inner_parser: G,
    end_parser: H,
) -> (p: IntersperseCollectUntil<F, G, H>)
    ensures
        p == (IntersperseCollectUntil { low, high, parser, inner_parser, end_parser }),
{
    IntersperseCollectUntil { low, high, parser, inner_parser, end_parser }
}

/// Returns a parser which repeats a parse a given number of times, stopping if
/// a failure occurs or the upper limit is reached, returning the number of
/// successes. Fails if the lower limit is not reached.
pub fn repeat<'t, F: Parser<'t>>(low: usize, high: Option<usize>, parser: F) -> (p: Intersperse<
    F,
    Null,
>)
    ensures
        p == (Intersperse { low, high, parser, inner_parser: Null }),
{
    intersperse(low, high, parser, null())
}

/// Returns a parser which repeats a parse a given number of times, stopping if
/// a failure occurs or the upper limit is reached, returning a `Vec` containing
/// each successful result in order. Fails if the lower limit is not reached.
pub fn repeat_collect<'t, F: Parser<'t>>(low: usize, high: Option<usize>, parser: F) -> (p:
    IntersperseCollect<F, Null>)
    ensures
        p == (IntersperseCollect { low, high, parser, inner_parser: Null }),
{
    intersperse_collect(low, high, parser, null())
}

/// Returns a parser which repeats a parse a given number of times, stopping if
/// a failure occurs, the upper limit is reached or the end parser succeeds,
/// returning the number of successes. Fails if the lower limit is not reached
/// before a failure occurs.
pub fn repeat_until<'t, F: Parser<'t>, G: Parser<'t>>(
    low: usize,
    high: Option<usize>,
    parser: F,
    end_parser: G,
) -> (p: IntersperseUntil<F, Null, G>)
    ensures
        p == (IntersperseUntil { low, high, parser, inner_parser: Null, end_parser }),
{
    intersperse_until(low, high, parser, null(), end_parser)
}

/// Returns a parser which repeats a parse a given number of times, stopping if
/// a failure occurs, the upper limit is reached or the end parser succeeds,
/// returning a `Vec` containing each successful result in order. Fails if the
/// lower limit is not reached before a failure occurs.
pub fn repeat_collect_until<'t, F: Parser<'t>, G: Parser<'t>>(
    low: usize,
    high: Option<usize>,
    parser: F,
    end_parser: G,
) -> (p: IntersperseCollectUntil<F, Null, G>)
    ensures
        p == (IntersperseCollectUntil { low, high, parser, inner_parser: Null, end_parser }),
{
    intersperse_collect_until(low, high, parser, null(), end_parser)
}

} // verus!
