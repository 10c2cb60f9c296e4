//! Parser results.
//!
//! A parse attempt on a text either succeeds with a value, the token it
//! consumed and the rest of the text, or fails with a description of what was
//! expected. Contracts speak of results through their views, in which every
//! string is the sequence of its characters.

use crate::cell::InvalidCellSelector;
use crate::cell::InvalidCellSelectorView;
use crate::parse::primitive::ParseIntegerOverflow;
use crate::parse::primitive::ParseIntegerOverflowView;
use crate::text::char_len;
use crate::text::skip;
use crate::text::take;
use crate::text::Text;
use vstd::prelude::*;

verus! {

/// The result of a parse attempt.
pub type ParseResult<'t, V> = Result<Success<'t, V>, Failure<'t>>;

/// The mathematical content of a [`ParseResult`].
pub type ResultView<V> = Result<SuccessView<V>, FailureView>;

////////////////////////////////////////////////////////////////////////////////
// Views
////////////////////////////////////////////////////////////////////////////////

/// The mathematical content of a [`Success`].
pub struct SuccessView<V> {
    /// The parsed value.
    pub value: V,
    /// The parsed text.
    pub token: Seq<char>,
    /// The remainder of the parsable text.
    pub rest: Seq<char>,
}

/// The mathematical content of a [`Failure`].
pub struct FailureView {
    /// The text that was matched before the parse failed.
    pub context: Seq<char>,
    /// What the failing parse expected.
    pub expected: Seq<char>,
    /// The cause of the failure.
    pub source: Option<SourceView>,
    /// The text that the failing parse was given.
    pub rest: Seq<char>,
}

/// The mathematical content of a [`FailureOwned`].
pub struct FailureOwnedView {
    /// The text that was matched before the parse failed.
    pub context: Seq<char>,
    /// What the failing parse expected.
    pub expected: Seq<char>,
    /// The cause of the failure.
    pub source: Option<Box<SourceView>>,
}

/// The mathematical content of a [`FailureSource`].
pub enum SourceView {
    /// A parse failure.
    Parse(FailureOwnedView),
    /// An integer that does not fit its type.
    IntegerOverflow(ParseIntegerOverflowView),
    /// Range bounds that make no selector.
    InvalidSelector(InvalidCellSelectorView),
}

impl<V> SuccessView<V> {
    /// The same success with another value.
    pub open spec fn with_value<U>(self, value: U) -> SuccessView<U> {
        SuccessView { value, token: self.token, rest: self.rest }
    }

    /// The success of a parse that came after a success with a token of
    /// `prior` characters, both within `text`: the token is extended
    /// backward over that token.
    pub open spec fn join_previous(self, prior: nat, text: Seq<char>) -> SuccessView<V> {
        SuccessView {
            value: self.value,
            token: text.take((prior + self.token.len()) as int),
            rest: self.rest,
        }
    }

    /// The success that takes the first `len` characters of `text`.
    pub open spec fn split(value: V, text: Seq<char>, len: int) -> SuccessView<V> {
        SuccessView { value, token: text.take(len), rest: text.skip(len) }
    }

    /// The token and the rest are the two parts of `text`.
    pub open spec fn anchored(self, text: Seq<char>) -> bool {
        &&& self.token.len() <= text.len()
        &&& self.token == text.take(self.token.len() as int)
        &&& self.rest == text.skip(self.token.len() as int)
    }
}

impl FailureView {
    /// The failure without the text it was given.
    pub open spec fn to_owned(self) -> FailureOwnedView {
        FailureOwnedView {
            context: self.context,
            expected: self.expected,
            source: match self.source {
                Some(s) => Some(Box::new(s)),
                None => None,
            },
        }
    }

    /// The failure that expects `expected` and has `self` as its source.
    pub open spec fn source_for(self, expected: Seq<char>) -> FailureView {
        FailureView {
            context: self.context,
            expected,
            source: Some(SourceView::Parse(self.to_owned())),
            rest: self.rest,
        }
    }

    /// The failure of a parse that came after a success with a token of
    /// `prior` characters, both within `text`: the context is extended
    /// backward over that token.
    pub open spec fn join_context(self, prior: nat, text: Seq<char>) -> FailureView {
        FailureView {
            context: text.take((prior + self.context.len()) as int),
            expected: self.expected,
            source: self.source,
            rest: text,
        }
    }

    /// The failure with its context and text replaced.
    pub open spec fn new_context(self, context: Seq<char>, text: Seq<char>) -> FailureView {
        FailureView { context, expected: self.expected, source: self.source, rest: text }
    }

    /// The failure on `text` of a parser that matched nothing.
    pub open spec fn at(text: Seq<char>, expected: Seq<char>) -> FailureView {
        FailureView { context: text.take(0), expected, source: None, rest: text }
    }

    /// The failure was given `text`, and its context is a prefix of it.
    pub open spec fn anchored(self, text: Seq<char>) -> bool {
        &&& self.rest == text
        &&& self.context.len() <= text.len()
        &&& self.context == text.take(self.context.len() as int)
    }

    /// The message that describes the failure.
    pub open spec fn message(self) -> Seq<char> {
        spec_message(self.expected, self.context)
    }
}

impl FailureOwnedView {
    /// The message that describes the failure.
    pub open spec fn message(self) -> Seq<char> {
        spec_message(self.expected, self.context)
    }
}

/// The message of a parse failure: what was expected and, if anything was
/// matched, what was found.
pub open spec fn spec_message(expected: Seq<char>, context: Seq<char>) -> Seq<char> {
    if context.len() > 0 {
        "parse error: expected "@ + expected + ", found "@ + context
    } else {
        "parse error: expected "@ + expected
    }
}

/// A result is anchored in `text` if its parts are slices of `text`: on
/// success the token followed by the rest is `text`; on failure the rest is
/// `text`, untouched, and the context is a prefix of it.
pub open spec fn anchored<V>(r: ResultView<V>, text: Seq<char>) -> bool {
    match r {
        Ok(s) => s.anchored(text),
        Err(f) => f.anchored(text),
    }
}

/// The result with `expected` in place of any failure, which becomes its
/// source.
pub open spec fn spec_source_for<V>(r: ResultView<V>, expected: Seq<char>) -> ResultView<V> {
    match r {
        Ok(s) => Ok(s),
        Err(f) => Err(f.source_for(expected)),
    }
}

/// The result with the context of any failure extended backward over a
/// token of `prior` characters.
pub open spec fn spec_with_join_context<V>(r: ResultView<V>, prior: nat, text: Seq<char>)
    -> ResultView<V> {
    match r {
        Ok(s) => Ok(s),
        Err(f) => Err(f.join_context(prior, text)),
    }
}

/// The result with the context and the text of any failure replaced.
pub open spec fn spec_with_new_context<V>(
    r: ResultView<V>,
    context: Seq<char>,
    text: Seq<char>,
) -> ResultView<V> {
    match r {
        Ok(s) => Ok(s),
        Err(f) => Err(f.new_context(context, text)),
    }
}

/// The result with the token in place of the value of any success.
pub open spec fn spec_tokenize_value<V>(r: ResultView<V>) -> ResultView<Seq<char>> {
    match r {
        Ok(s) => Ok(s.with_value(s.token)),
        Err(f) => Err(f),
    }
}

/// The result without the value of any success.
pub open spec fn spec_discard_value<V>(r: ResultView<V>) -> ResultView<()> {
    match r {
        Ok(s) => Ok(s.with_value(())),
        Err(f) => Err(f),
    }
}

/// The result with any success that leaves text unparsed turned into a
/// failure.
pub open spec fn spec_expect_end_of_text<V>(r: ResultView<V>) -> ResultView<V> {
    match r {
        Ok(s) => if s.rest.len() == 0 {
            Ok(s)
        } else {
            Err(
                FailureView {
                    context: s.token,
                    expected: "end-of-text"@,
                    source: None,
                    rest: s.rest,
                },
            )
        },
        Err(f) => Err(f),
    }
}

/// The result turned round: a success becomes a failure, and a failure
/// becomes a success whose value and token are the context of the failure.
pub open spec fn spec_expect_failure<V>(r: ResultView<V>) -> ResultView<Seq<char>> {
    match r {
        Ok(s) => Err(
            FailureView {
                context: s.token,
                expected: "parse failure"@,
                source: None,
                rest: s.rest,
            },
        ),
        Err(f) => Ok(SuccessView { value: f.context, token: f.context, rest: f.rest }),
    }
}

/// A success that is anchored in the rest of a success, which is anchored in
/// `text`, is anchored in `text` once its token is joined to the token
/// before it.
pub proof fn lemma_join_previous_anchored<V, U>(
    first: SuccessView<V>,
    second: SuccessView<U>,
    text: Seq<char>,
)
    requires
        first.anchored(text),
        second.anchored(first.rest),
    ensures
        second.join_previous(first.token.len(), text).anchored(text),
        second.join_previous(first.token.len(), text).token.len() == first.token.len()
            + second.token.len(),
        first.token.len() + second.token.len() <= text.len(),
{
    let joined = second.join_previous(first.token.len(), text);
    assert(joined.rest =~= text.skip(joined.token.len() as int));
}

/// A failure that is anchored in the rest of a success, which is anchored in
/// `text`, is anchored in `text` once its context is joined to the token.
pub proof fn lemma_join_context_anchored<V>(
    first: SuccessView<V>,
    failure: FailureView,
    text: Seq<char>,
)
    requires
        first.anchored(text),
        failure.anchored(first.rest),
    ensures
        failure.join_context(first.token.len(), text).anchored(text),
        first.token.len() + failure.context.len() <= text.len(),
{
}

/// The result of a parse of the rest of a success, joined to that success.
pub open spec fn spec_join_previous<V>(r: ResultView<V>, prior: nat, text: Seq<char>)
    -> ResultView<V> {
    match r {
        Ok(s) => Ok(s.join_previous(prior, text)),
        Err(f) => Err(f.join_context(prior, text)),
    }
}

/// A result that is anchored in the rest of a success, which is anchored in
/// `text`, is anchored in `text` once it is joined to that success.
pub proof fn lemma_spec_join_previous_anchored<V, U>(
    first: SuccessView<V>,
    r: ResultView<U>,
    text: Seq<char>,
)
    requires
        first.anchored(text),
        anchored(r, first.rest),
    ensures
        anchored(spec_join_previous(r, first.token.len(), text), text),
        match r {
            Ok(s) => first.token.len() + s.token.len() <= text.len(),
            Err(f) => first.token.len() + f.context.len() <= text.len(),
        },
{
    match r {
        Ok(s) => lemma_join_previous_anchored(first, s, text),
        Err(f) => lemma_join_context_anchored(first, f, text),
    }
}

/// The success that splits a text is anchored in it.
pub proof fn lemma_split_anchored<V>(value: V, text: Seq<char>, len: int)
    requires
        0 <= len <= text.len(),
    ensures
        SuccessView::split(value, text, len).anchored(text),
{
}

////////////////////////////////////////////////////////////////////////////////
// Success
////////////////////////////////////////////////////////////////////////////////

/// A struct representing a successful parse.
#[derive(Debug)]
pub struct Success<'t, V> {
    /// The parsed value.
    pub value: V,
    /// The parsed text.
    pub token: &'t str,
    /// The remainder of the parsable text.
    pub rest: &'t str,
}

impl<'t, V: DeepView> DeepView for Success<'t, V> {
    type V = SuccessView<V::V>;

    open spec fn deep_view(&self) -> SuccessView<V::V> {
        SuccessView { value: self.value.deep_view(), token: self.token@, rest: self.rest@ }
    }
}

impl<'t, V> Success<'t, V> {
    /// Applies the given closure to the parsed value and returns the result.
    pub fn map_value<F, U>(self, f: F) -> (r: Success<'t, U>) where F: FnOnce(V) -> U
        requires
            f.requires((self.value,)),
        ensures
            f.ensures((self.value,), r.value),
            r.token@ == self.token@,
            r.rest@ == self.rest@,
    {
        Success { value: f(self.value), token: self.token, rest: self.rest }
    }

    /// Discards the parsed value.
    pub fn discard_value(self) -> (r: Success<'t, ()>)
        ensures
            r.token@ == self.token@,
            r.rest@ == self.rest@,
    {
        Success { value: (), token: self.token, rest: self.rest }
    }

    /// Discards the parsed value, replacing it with the parsed text.
    pub fn tokenize_value(self) -> (r: Success<'t, &'t str>)
        ensures
            r.value@ == self.token@,
            r.token@ == self.token@,
            r.rest@ == self.rest@,
    {
        Success { value: self.token, token: self.token, rest: self.rest }
    }

    /// Joins two sequential successful parse results together, discarding
    /// their values. The first of them is a parse of `text`.
    pub fn join<U>(self, other: Success<'t, U>, text: &'t str) -> (r: Success<'t, ()>)
        requires
            self.token@.len() + other.token@.len() <= text@.len(),
        ensures
            r.token@ == text@.take((self.token@.len() + other.token@.len()) as int),
            r.rest@ == other.rest@,
    {
        // The text is no shorter than the tokens, and its length is a `usize`.
        let _ = char_len(text);
        let len = char_len(self.token) + char_len(other.token);
        Success { value: (), token: take(text, len), rest: other.rest }
    }

    /// Joins two sequential successful parse results together, combining
    /// values with the given function. The first of them is a parse of
    /// `text`.
    pub fn join_with<F, U, T>(self, other: Success<'t, U>, text: &'t str, f: F) -> (r: Success<
        't,
        T,
    >) where F: FnOnce(V, U) -> T
        requires
            self.token@.len() + other.token@.len() <= text@.len(),
            f.requires((self.value, other.value)),
        ensures
            f.ensures((self.value, other.value), r.value),
            r.token@ == text@.take((self.token@.len() + other.token@.len()) as int),
            r.rest@ == other.rest@,
    {
        // The text is no shorter than the tokens, and its length is a `usize`.
        let _ = char_len(text);
        let len = char_len(self.token) + char_len(other.token);
        Success { value: f(self.value, other.value), token: take(text, len), rest: other.rest }
    }

    /// Joins a failure result to a previously successful result, expanding
    /// the context of the failure. The success is a parse of `text`.
    pub fn join_failure(&self, other: Failure<'t>, text: &'t str) -> (r: Failure<'t>)
        requires
            self.token@.len() + other.context@.len() <= text@.len(),
        ensures
            r.deep_view() == other.deep_view().join_context(self.token@.len(), text@),
    {
        // The text is no shorter than the tokens, and its length is a `usize`.
        let _ = char_len(text);
        let len = char_len(self.token) + char_len(other.context);
        Failure {
            context: take(text, len),
            expected: other.expected,
            source: other.source,
            rest: text,
        }
    }
}

////////////////////////////////////////////////////////////////////////////////
// Failure
////////////////////////////////////////////////////////////////////////////////

/// A struct representing a failed parse with borrowed data.
#[derive(Debug)]
pub struct Failure<'t> {
    /// The parsable text. This is expected to contain any successfully parsed
    /// text, and optionally include any text which should be skipped if the
    /// parse is to recover from errors.
    pub context: &'t str,
    /// The expected result of the failing parse. Recommended to be a literal,
    /// function name, or description of the context.
    pub expected: Text<'static>,
    /// The parse failure that caused this one.
    pub source: Option<Box<FailureSource>>,
    /// The remainder of the parsable text. Failed parses should return their
    /// exact input text.
    pub rest: &'t str,
}

/// A struct representing a failed parse with owned data.
///
/// Similar to [`Failure`], except this version owns all of its data, and can
/// thus be kept as the source of another failure.
#[derive(Debug)]
pub struct FailureOwned {
    /// The previously successful parse text. Usually non-empty for any parse
    /// function which employs sequential sub-parsers.
    pub context: String,
    /// The expected result of the failing parse. Recommended to be a literal,
    /// function name, or contextual description.
    pub expected: Text<'static>,
    /// The parse failure that caused this one.
    pub source: Option<Box<FailureSource>>,
}

/// The cause of a parse failure.
#[derive(Debug)]
pub enum FailureSource {
    /// A parse failure.
    Parse(FailureOwned),
    /// An integer that does not fit its type.
    IntegerOverflow(ParseIntegerOverflow),
    /// Range bounds that make no selector.
    InvalidSelector(InvalidCellSelector),
}

/// The view of a failure source.
pub open spec fn source_view(s: FailureSource) -> SourceView
    decreases s,
{
    match s {
        FailureSource::Parse(f) => SourceView::Parse(
            FailureOwnedView {
                context: f.context@,
                expected: f.expected@,
                source: match f.source {
                    Some(b) => Some(Box::new(source_view(*b))),
                    None => None,
                },
            },
        ),
        FailureSource::IntegerOverflow(o) => SourceView::IntegerOverflow(o.deep_view()),
        FailureSource::InvalidSelector(e) => SourceView::InvalidSelector(e.deep_view()),
    }
}

/// The view of the source of a failure, if it has one.
pub open spec fn optional_source_view(s: Option<Box<FailureSource>>) -> Option<SourceView> {
    match s {
        Some(b) => Some(source_view(*b)),
        None => None,
    }
}

impl DeepView for FailureSource {
    type V = SourceView;

    open spec fn deep_view(&self) -> SourceView {
        source_view(*self)
    }
}

impl DeepView for FailureOwned {
    type V = FailureOwnedView;

    open spec fn deep_view(&self) -> FailureOwnedView {
        FailureOwnedView {
            context: self.context@,
            expected: self.expected@,
            source: match self.source {
                Some(b) => Some(Box::new(source_view(*b))),
                None => None,
            },
        }
    }
}

impl<'t> DeepView for Failure<'t> {
    type V = FailureView;

    open spec fn deep_view(&self) -> FailureView {
        FailureView {
            context: self.context@,
            expected: self.expected@,
            source: optional_source_view(self.source),
            rest: self.rest@,
        }
    }
}

/// Returns the message of a parse failure.
fn message(expected: &str, context: &str) -> (r: String)
    ensures
        r@ == spec_message(expected@, context@),
{
    let mut r = String::from_str("parse error: expected ");
    r.append(expected);
    if char_len(context) > 0 {
        r.append(", found ");
        r.append(context);
    }
    r
}

impl<'t> Failure<'t> {
    /// Advances the parse text remainder past the failing token.
    pub fn rest_continuing(&self) -> (r: &'t str)
        requires
            self.context@.len() <= self.rest@.len(),
        ensures
            r@ == self.rest@.skip(self.context@.len() as int),
    {
        skip(self.rest, char_len(self.context))
    }

    /// Converts a borrowed `Failure` into a `FailureOwned`.
    pub fn to_owned(self) -> (r: FailureOwned)
        ensures
            r.deep_view() == self.deep_view().to_owned(),
    {
        FailureOwned {
            context: self.context.to_owned(),
            expected: self.expected,
            source: self.source,
        }
    }

    /// Returns the message that describes the failure.
    pub fn message(&self) -> (r: String)
        ensures
            r@ == self.deep_view().message(),
    {
        message(self.expected.as_str(), self.context)
    }
}

impl SourceView {
    /// The message that describes the cause.
    pub open spec fn message(self) -> Seq<char> {
        match self {
            SourceView::Parse(failure) => failure.message(),
            SourceView::IntegerOverflow(overflow) => overflow.message(),
            SourceView::InvalidSelector(invalid) => invalid.message(),
        }
    }
}

impl FailureSource {
    /// Returns the message that describes the cause.
    pub fn message(&self) -> (r: String)
        ensures
            r@ == self.deep_view().message(),
    {
        match self {
            FailureSource::Parse(failure) => failure.message(),
            FailureSource::IntegerOverflow(overflow) => overflow.message(),
            FailureSource::InvalidSelector(invalid) => invalid.message(),
        }
    }
}

impl FailureOwned {
    /// Returns the message that describes the failure.
    pub fn message(&self) -> (r: String)
        ensures
            r@ == self.deep_view().message(),
    {
        message(self.expected.as_str(), self.context.as_str())
    }
}

////////////////////////////////////////////////////////////////////////////////
// ParseResult
////////////////////////////////////////////////////////////////////////////////

/// The view of a parse result.
pub open spec fn result_view<'t, V: DeepView>(r: ParseResult<'t, V>) -> ResultView<V::V> {
    match r {
        Ok(s) => Ok(s.deep_view()),
        Err(f) => Err(f.deep_view()),
    }
}

/// Joins a result to a success that came before it: the token of a success,
/// or the context of a failure, is extended backward over `prior`, the token
/// of the earlier success, which was a parse of `text`.
pub fn join_previous<'t, V: DeepView>(r: ParseResult<'t, V>, prior: &'t str, text: &'t str) -> (j:
    ParseResult<'t, V>)
    requires
        match r {
            Ok(s) => prior@.len() + s.token@.len() <= text@.len(),
            Err(f) => prior@.len() + f.context@.len() <= text@.len(),
        },
    ensures
        result_view(j) == spec_join_previous(result_view(r), prior@.len(), text@),
{
    // The text is no shorter than the tokens, and its length is a `usize`.
    let _ = char_len(text);
    match r {
        Ok(s) => {
            let len = char_len(prior) + char_len(s.token);
            Ok(Success { value: s.value, token: take(text, len), rest: s.rest })
        },
        Err(f) => {
            let len = char_len(prior) + char_len(f.context);
            Err(
                Failure {
                    context: take(text, len),
                    expected: f.expected,
                    source: f.source,
                    rest: text,
                },
            )
        },
    }
}

/// Extension trait for parse results.
pub trait ParseResultExt<'t, V>: Sized {
    /// The parse result itself.
    spec fn as_result(self) -> ParseResult<'t, V>;

    /// Converts any Err result into a parse failure source.
    ///
    /// The given description will become the new parse description.
    ///
    /// It is recommended to call this before any calls to `with_join_context`
    /// or `with_new_context` to ensure the subparse context is maintained in
    /// the failure source.
    fn source_for(self, expected: Text<'static>) -> Self;

    /// Sets the context for a failed parse by extending back to include a
    /// previously successful parse.
    ///
    /// This is typically used to establish a recovery point before a
    /// previously successful parse.
    fn with_join_context<U>(self, success: &Success<'t, U>, text: &'t str) -> ParseResult<'t, V>
        requires
            self.as_result() matches Err(f) ==> success.token@.len() + f.context@.len()
                <= text@.len(),
    ;

    /// Sets a new context for a failed parse.
    ///
    /// This is typically used by a parser combinator to establish a recovery
    /// point before any subparser calls. The `context` argument sets the
    /// context directly, and should only be non-empty if there is a known
    /// recovery point for the parse.
    fn with_new_context(self, context: &'t str, text: &'t str) -> ParseResult<'t, V>;

    /// Returns a reference to the value produced by a successful parse, or
    /// None if the parse was not successful.
    fn value(&self) -> Option<&V>;

    /// Consumes the result, returning the value produced by a successful parse,
    /// or None if the parse was not successful.
    fn into_value(self) -> Option<V>;

    /// Returns the token associated with a successful parse, or None if the
    /// parse was not successful.
    fn token(&self) -> Option<&'t str>;

    /// Returns the remaining parse text.
    fn rest(&self) -> &'t str;

    /// Applies the given closure to the parsed value. Will only be called if
    /// the parse was successful.
    fn map_value<F, U>(self, f: F) -> ParseResult<'t, U> where F: FnOnce(V) -> U
        requires
            self.as_result() matches Ok(s) ==> f.requires((s.value,)),
    ;

    /// Discards the parsed value, replacing it with the parsed text.
    fn tokenize_value(self) -> ParseResult<'t, &'t str>;

    /// Discards the parsed value.
    fn discard_value(self) -> ParseResult<'t, ()>;

    /// Converts a parse success into a failure if the end of the text input
    /// has not been reached.
    fn expect_end_of_text(self) -> ParseResult<'t, V>;

    /// Converts a parse failure into a success and vice versa.
    fn expect_failure(self) -> ParseResult<'t, &'t str>;
}

impl<'t, V: DeepView> ParseResultExt<'t, V> for ParseResult<'t, V> {
    open spec fn as_result(self) -> ParseResult<'t, V> {
        self
    }

    fn source_for(self, expected: Text<'static>) -> (r: Self)
        ensures
            result_view(r) == spec_source_for(result_view(self), expected@),
    {
        match self {
            Ok(success) => Ok(success),
            Err(failure) => {
                let context = failure.context;
                let rest = failure.rest;
                Err(
                    Failure {
                        context,
                        expected,
                        source: Some(Box::new(FailureSource::Parse(failure.to_owned()))),
                        rest,
                    },
                )
            },
        }
    }

    fn with_join_context<U>(self, success: &Success<'t, U>, text: &'t str) -> (r: ParseResult<
        't,
        V,
    >)
        ensures
            result_view(r) == spec_with_join_context(
                result_view(self),
                success.token@.len(),
                text@,
            ),
    {
        match self {
            Ok(s) => Ok(s),
            Err(failure) => Err(success.join_failure(failure, text)),
        }
    }

    fn with_new_context(self, context: &'t str, text: &'t str) -> (r: ParseResult<'t, V>)
        ensures
            result_view(r) == spec_with_new_context(result_view(self), context@, text@),
    {
        match self {
            Ok(s) => Ok(s),
            Err(failure) => Err(
                Failure {
                    context,
                    expected: failure.expected,
                    source: failure.source,
                    rest: text,
                },
            ),
        }
    }

    fn value(&self) -> (r: Option<&V>)
        ensures
            r == match *self {
                Ok(s) => Some(&s.value),
                Err(_) => None,
            },
    {
        match self {
            Ok(success) => Some(&success.value),
            Err(_) => None,
        }
    }

    fn into_value(self) -> (r: Option<V>)
        ensures
            r == match self {
                Ok(s) => Some(s.value),
                Err(_) => None,
            },
    {
        match self {
            Ok(success) => Some(success.value),
            Err(_) => None,
        }
    }

    fn token(&self) -> (r: Option<&'t str>)
        ensures
            r.deep_view() == match *self {
                Ok(s) => Some(s.token@),
                Err(_) => None,
            },
    {
        match self {
            Ok(success) => Some(success.token),
            Err(_) => None,
        }
    }

    fn rest(&self) -> (r: &'t str)
        ensures
            r@ == match *self {
                Ok(s) => s.rest@,
                Err(f) => f.rest@,
            },
    {
        match self {
            Ok(success) => success.rest,
            Err(failure) => failure.rest,
        }
    }

    fn map_value<F, U>(self, f: F) -> (r: ParseResult<'t, U>) where F: FnOnce(V) -> U
        ensures
            match self {
                Ok(s) => r matches Ok(m) && f.ensures((s.value,), m.value) && m.token@ == s.token@
                    && m.rest@ == s.rest@,
                Err(e) => r matches Err(g) && g.deep_view() == e.deep_view(),
            },
    {
        match self {
            Ok(success) => Ok(success.map_value(f)),
            Err(failure) => Err(failure),
        }
    }

    fn tokenize_value(self) -> (r: ParseResult<'t, &'t str>)
        ensures
            result_view(r) == spec_tokenize_value(result_view(self)),
    {
        match self {
            Ok(success) => Ok(success.tokenize_value()),
            Err(failure) => Err(failure),
        }
    }

    fn discard_value(self) -> (r: ParseResult<'t, ()>)
        ensures
            result_view(r) == spec_discard_value(result_view(self)),
    {
        match self {
            Ok(success) => Ok(success.discard_value()),
            Err(failure) => Err(failure),
        }
    }

    fn expect_end_of_text(self) -> (r: ParseResult<'t, V>)
        ensures
            result_view(r) == spec_expect_end_of_text(result_view(self)),
    {
        match self {
            Ok(success) => {
                if char_len(success.rest) == 0 {
                    Ok(success)
                } else {
                    Err(
                        Failure {
                            context: success.token,
                            expected: Text::Borrowed("end-of-text"),
                            source: None,
                            rest: success.rest,
                        },
                    )
                }
            },
            Err(failure) => Err(failure),
        }
    }

    fn expect_failure(self) -> (r: ParseResult<'t, &'t str>)
        ensures
            result_view(r) == spec_expect_failure(result_view(self)),
    {
        match self {
            Ok(success) => Err(
                Failure {
                    context: success.token,
                    expected: Text::Borrowed("parse failure"),
                    source: None,
                    rest: success.rest,
                },
            ),
            Err(failure) => Ok(
                Success { value: failure.context, token: failure.context, rest: failure.rest },
            ),
        }
    }
}

} // verus!
