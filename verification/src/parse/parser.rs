//! The parser trait.

use crate::parse::result::anchored;
use crate::parse::result::result_view;
use crate::parse::result::ParseResult;
use crate::parse::result::ResultView;
use vstd::prelude::*;

verus! {

/// A parser: a value that can attempt a parse of a text.
///
/// What a parser does is a function of the text alone, given by
/// `spec_parse`; `parse` computes it. Every result is anchored in the text
/// that was given: a success splits the text into token and rest, and a
/// failure leaves the text untouched.
pub trait Parser<'t> {
    /// The type of the values that the parser produces.
    type Value: DeepView;

    /// True if the parser was built from valid parts.
    spec fn well_formed(&self) -> bool;

    /// The result of the parser on `text`.
    spec fn spec_parse(&self, text: Seq<char>) -> ResultView<<Self::Value as DeepView>::V>;

    /// The result of a parser is anchored in the text.
    proof fn lemma_anchored(&self, text: Seq<char>)
        requires
            self.well_formed(),
        ensures
            anchored(self.spec_parse(text), text),
    ;

    /// Attempts a parse of `text`.
    fn parse(&self, text: &'t str) -> (r: ParseResult<'t, Self::Value>)
        requires
            self.well_formed(),
        ensures
            result_view(r) == self.spec_parse(text@),
    ;
}

/// A parser whose parse depends on a value that an earlier parse gave.
pub trait DependentParser<'t, A: DeepView> {
    /// The type of the values that the parser produces.
    type Value: DeepView;

    /// True if the parser was built from valid parts.
    spec fn well_formed(&self) -> bool;

    /// The result of the parser on `text`, given `arg`.
    spec fn spec_parse_with(&self, text: Seq<char>, arg: A::V) -> ResultView<
        <Self::Value as DeepView>::V,
    >;

    /// The result of a parser is anchored in the text.
    proof fn lemma_anchored_with(&self, text: Seq<char>, arg: A::V)
        requires
            self.well_formed(),
        ensures
            anchored(self.spec_parse_with(text, arg), text),
    ;

    /// Attempts a parse of `text`, given `arg`.
    fn parse_with(&self, text: &'t str, arg: A) -> (r: ParseResult<'t, Self::Value>)
        requires
            self.well_formed(),
        ensures
            result_view(r) == self.spec_parse_with(text@, arg.deep_view()),
    ;
}

/// A maker of parsers: for each pattern it gives the parser of that
/// pattern.
pub trait ParserFactory<'t> {
    /// The type of the parsers.
    type Output: Parser<'t>;

    /// The parser of `pattern`.
    spec fn spec_parser(&self, pattern: &'static str) -> Self::Output;

    /// The parsers are well formed.
    proof fn lemma_well_formed(&self, pattern: &'static str)
        ensures
            self.spec_parser(pattern).well_formed(),
    ;

    /// Returns the parser of `pattern`.
    fn parser(&self, pattern: &'static str) -> (p: Self::Output)
        ensures
            p == self.spec_parser(pattern),
    ;
}

/// A property of characters that can be tested.
pub trait CharPredicate {
    /// True if `c` has the property.
    spec fn spec_accepts(&self, c: char) -> bool;

    /// Returns true if `c` has the property.
    fn accepts(&self, c: char) -> (b: bool)
        ensures
            b == self.spec_accepts(c),
    ;
}

} // verus!
