//! Laws of the parsers.
//!
//! What holds of the results of the parsers on all texts, beyond what each
//! parser states of itself.

use crate::parse::combinator::spec_limit;
use crate::parse::combinator::spec_more;
use crate::parse::combinator::Intersperse;
use crate::parse::combinator::Null;
use crate::parse::parser::CharPredicate;
use crate::parse::parser::Parser;
use crate::parse::combinator::Maybe;
use crate::parse::primitive::lemma_matched_len_bounds;
use crate::parse::primitive::spec_matched_len;
use crate::parse::primitive::spec_same_char;
use crate::parse::primitive::spec_whitespace;
use crate::parse::primitive::Literal;
use crate::parse::primitive::CharWhitespace;
use crate::parse::primitive::IsWhitespace;
use crate::parse::primitive::Whitespace;
use crate::parse::selection::spec_is_reserved;
use crate::parse::selection::spec_name;
use crate::parse::selection::NameChar;
use crate::text::spec_trim;
use crate::color::CmykView;
use crate::color::HslView;
use crate::color::HsvView;
use crate::color::RgbView;
use crate::color::XyzView;
use crate::parse::color::spec_cmyk_functional;
use crate::parse::color::spec_color;
use crate::parse::color::spec_hsl_functional;
use crate::parse::color::spec_hsv_functional;
use crate::parse::color::spec_notation;
use crate::parse::color::spec_rgb_functional;
use crate::parse::color::spec_xyz_functional;
use crate::cell::CellSelectorView;
use crate::parse::combinator::lemma_repetition_count;
use crate::parse::combinator::lemma_repetition_values;
use crate::parse::selection::spec_cell_selector;
use crate::parse::result::anchored;
use crate::parse::result::FailureOwnedView;
use crate::parse::selection::spec_cell_ref;
use crate::parse::selection::spec_cell_selection;
use crate::parse::selection::spec_cell_selectors;
use crate::parse::selection::GroupRule;
use crate::parse::selection::IndexRule;
use crate::parse::selection::NameRule;
use crate::parse::selection::PositionRule;
use crate::parse::color::spec_expand;
use crate::parse::color::spec_hex_code;
use crate::parse::color::spec_rgb_hex;
use crate::parse::color::spec_rgb_hex_6;
use crate::parse::color::RGB_HEX_PREFIX;
use crate::parse::combinator::Postfix;
use crate::parse::primitive::spec_accumulate;
use crate::parse::primitive::spec_separators;
use crate::parse::primitive::CharMatching;
use crate::parse::primitive::Digit;
use crate::parse::primitive::Separators;
use crate::parse::primitive::INT_DIGIT_SEPARATOR;
use crate::parse::result::FailureView;
use crate::parse::primitive::spec_digits;
use crate::parse::primitive::spec_radix_prefix;
use crate::parse::primitive::spec_uint;
use crate::parse::primitive::spec_uint_digits_value;
use crate::parse::result::SourceView;
use crate::text::spec_digit_value;
use crate::parse::result::lemma_spec_join_previous_anchored;
use crate::parse::result::spec_join_previous;
use crate::parse::result::SuccessView;
use vstd::prelude::*;
use vstd::std_specs::convert::TryFromSpec;

verus! {

////////////////////////////////////////////////////////////////////////////////
// Literals and options
////////////////////////////////////////////////////////////////////////////////

/// Up to the matched length the text goes along with the literal, and at
/// the matched length it does not, if both go on.
pub proof fn lemma_matched_len_chars(
    expect: Seq<char>,
    text: Seq<char>,
    ignore_case: bool,
    from: nat,
)
    requires
        from <= expect.len(),
        from <= text.len(),
        forall|j: int| 0 <= j < from ==> spec_same_char(expect[j], text[j], ignore_case),
    ensures
        ({
            let matched = spec_matched_len(expect, text, ignore_case, from);
            &&& forall|j: int| 0 <= j < matched ==> spec_same_char(expect[j], text[j], ignore_case)
            &&& matched < expect.len() && matched < text.len() ==> !spec_same_char(
                expect[matched as int],
                text[matched as int],
                ignore_case,
            )
        }),
    decreases expect.len() - from,
{
    if from < expect.len() && from < text.len() && spec_same_char(
        expect[from as int],
        text[from as int],
        ignore_case,
    ) {
        lemma_matched_len_chars(expect, text, ignore_case, from + 1);
    }
}

/// The parser of a text literal succeeds on the texts that start with the
/// literal, and on no others. It parses the literal; where it fails, what
/// did match is the start of both the text and the literal.
pub proof fn lemma_literal(expect: &str, text: Seq<char>)
    ensures
        match (Literal { expect }).spec_parse(text) {
            Ok(s) => {
                &&& expect@.is_prefix_of(text)
                &&& s.value == expect@
                &&& s.token == expect@
                &&& s.rest == text.skip(expect@.len() as int)
            },
            Err(f) => {
                &&& !expect@.is_prefix_of(text)
                &&& f.context.len() < expect@.len()
                &&& f.context.is_prefix_of(text)
                &&& f.context.is_prefix_of(expect@)
                &&& f.expected == expect@
                &&& f.rest == text
            },
        },
{
    lemma_matched_len_bounds(expect@, text, false, 0);
    lemma_matched_len_chars(expect@, text, false, 0);
    let matched = spec_matched_len(expect@, text, false, 0);
    match (Literal { expect }).spec_parse(text) {
        Ok(s) => {
            assert(s.token =~= expect@);
            assert(expect@ =~= text.subrange(0, expect@.len() as int));
        },
        Err(f) => {
            assert(f.context =~= expect@.subrange(0, matched as int));
            assert(f.context =~= text.subrange(0, matched as int));
            if expect@.is_prefix_of(text) {
                let start = text.subrange(0, expect@.len() as int);
                assert(expect@[matched as int] == start[matched as int]);
            }
        },
    }
}

/// An optional parse never fails, and parses nothing where the parser
/// fails.
pub proof fn lemma_maybe<'t, F: Parser<'t>>(parser: F, text: Seq<char>)
    ensures
        match (Maybe { parser }).spec_parse(text) {
            Ok(s) => match parser.spec_parse(text) {
                Ok(inner) => s.value == Some(inner.value) && s.token == inner.token && s.rest
                    == inner.rest,
                Err(_) => s.value is None && s.token.len() == 0 && s.rest == text,
            },
            Err(_) => false,
        },
{
    assert(text.skip(0) =~= text);
}

////////////////////////////////////////////////////////////////////////////////
// Repetitions
////////////////////////////////////////////////////////////////////////////////

/// True if the parser succeeds exactly `k` times in a row from `text` on:
/// `k` times it succeeds, each time but the first on what the time before
/// left, and then it fails.
pub open spec fn spec_matches_in_a_row<'t, F: Parser<'t>>(
    parser: F,
    text: Seq<char>,
    k: nat,
) -> bool
    decreases k,
{
    match parser.spec_parse(text) {
        Ok(s) => k > 0 && spec_matches_in_a_row(parser, s.rest, (k - 1) as nat),
        Err(_) => k == 0,
    }
}

/// The text that is left when the parser has succeeded `n` times in a row
/// from `text` on.
pub open spec fn spec_rest_after<'t, F: Parser<'t>>(parser: F, text: Seq<char>, n: nat) -> Seq<
    char,
>
    decreases n,
{
    if n == 0 {
        text
    } else {
        match parser.spec_parse(text) {
            Ok(s) => spec_rest_after(parser, s.rest, (n - 1) as nat),
            Err(_) => text,
        }
    }
}

/// The smaller of two numbers.
pub open spec fn spec_min(a: nat, b: nat) -> nat {
    if a <= b {
        a
    } else {
        b
    }
}

/// A parser succeeds a given number of times in a row from a text on, and
/// no other number of times.
pub proof fn lemma_matches_in_a_row_unique<'t, F: Parser<'t>>(
    parser: F,
    text: Seq<char>,
    j: nat,
    k: nat,
)
    requires
        spec_matches_in_a_row(parser, text, j),
        spec_matches_in_a_row(parser, text, k),
    ensures
        j == k,
    decreases j,
{
    if let Ok(s) = parser.spec_parse(text) {
        lemma_matches_in_a_row_unique(parser, s.rest, (j - 1) as nat, (k - 1) as nat);
    }
}

/// A parser that succeeds a given number of times in a row, and then
/// fails, parses something each time.
pub proof fn lemma_matches_in_a_row_progress<'t, F: Parser<'t>>(
    parser: F,
    text: Seq<char>,
    k: nat,
)
    requires
        parser.well_formed(),
        spec_matches_in_a_row(parser, text, k),
    ensures
        parser.spec_parse(text) matches Ok(s) ==> s.rest.len() < text.len(),
{
    parser.lemma_anchored(text);
    if let Ok(s) = parser.spec_parse(text) {
        if s.rest.len() >= text.len() {
            assert(s.rest =~= text);
            lemma_matches_in_a_row_unique(parser, text, k, (k - 1) as nat);
        }
    }
}

/// How a repetition without separator goes on where the parser succeeds
/// exactly `j` more times in a row: it takes as many of them as the limit
/// allows, and fails if that leaves fewer than `low` values.
pub proof fn lemma_repeat_more<'t, F: Parser<'t>>(
    parser: F,
    low: usize,
    limit: usize,
    text: Seq<char>,
    acc: SuccessView<Seq<<F::Value as DeepView>::V>>,
    j: nat,
)
    requires
        parser.well_formed(),
        low <= limit,
        acc.value.len() <= limit,
        acc.anchored(text),
        spec_matches_in_a_row(parser, acc.rest, j),
    ensures
        match spec_more(parser, Null, None::<&Null>, low, limit, text, acc) {
            Ok(s) => {
                let taken = spec_min(j, (limit - acc.value.len()) as nat);
                &&& acc.value.len() + j >= low
                &&& s.value.len() == acc.value.len() + taken
                &&& s.rest == spec_rest_after(parser, acc.rest, taken)
            },
            Err(_) => acc.value.len() + j < low,
        },
    decreases j,
{
    let count = acc.value.len();
    if count >= limit {
    } else {
        Null.lemma_anchored(acc.rest);
        lemma_spec_join_previous_anchored(acc, Null.spec_parse(acc.rest), text);
        let sep = spec_join_previous(Null.spec_parse(acc.rest), acc.token.len(), text)->Ok_0;
        assert(sep.rest =~= acc.rest);
        parser.lemma_anchored(sep.rest);
        lemma_spec_join_previous_anchored(sep, parser.spec_parse(sep.rest), text);
        match spec_join_previous(parser.spec_parse(sep.rest), sep.token.len(), text) {
            Err(f) => {},
            Ok(item) => {
                let next = item.with_value(acc.value.push(item.value));
                lemma_matches_in_a_row_progress(parser, acc.rest, j);
                lemma_repeat_more(parser, low, limit, text, next, (j - 1) as nat);
            },
        }
    }
}

/// A repetition without separator, on a text from which on the parser
/// succeeds exactly `k` times in a row, succeeds if `k` is at least `low`:
/// then it counts `k` successes, or as many as the limit allows if `k` is
/// above it, and leaves what the parser left after as many successes. It
/// fails if `k` is below `low`. The limit is `high`, unless `high` is below
/// `low`: then it is `low`.
pub proof fn lemma_repeat_count<'t, F: Parser<'t>>(
    parser: F,
    low: usize,
    high: Option<usize>,
    text: Seq<char>,
    k: nat,
)
    requires
        parser.well_formed(),
        spec_matches_in_a_row(parser, text, k),
    ensures
        match (Intersperse { low, high, parser, inner_parser: Null }).spec_parse(text) {
            Ok(s) => {
                let taken = spec_min(k, spec_limit(low, high) as nat);
                &&& k >= low
                &&& s.value == taken
                &&& s.rest == spec_rest_after(parser, text, taken)
            },
            Err(_) => k < low,
        },
{
    let limit = spec_limit(low, high);
    if limit == 0 {
        assert(text.skip(0) =~= text);
    } else {
        parser.lemma_anchored(text);
        match parser.spec_parse(text) {
            Err(f) => {
                assert(text.skip(0) =~= text);
            },
            Ok(item) => {
                let first = item.with_value(seq![item.value]);
                lemma_matches_in_a_row_progress(parser, text, k);
                lemma_repeat_more(parser, low, limit, text, first, (k - 1) as nat);
            },
        }
    }
}

/// A repetition without separator with an upper limit `high` that is not
/// below `low`, on a text from which on the parser succeeds exactly `k`
/// times in a row: it succeeds with the smaller of `k` and `high` as its
/// count if `k` is at least `low`, and fails if `k` is below `low`.
pub proof fn lemma_repeat_count_to_high<'t, F: Parser<'t>>(
    parser: F,
    low: usize,
    high: usize,
    text: Seq<char>,
    k: nat,
)
    requires
        parser.well_formed(),
        low <= high,
        spec_matches_in_a_row(parser, text, k),
    ensures
        match (Intersperse { low, high: Some(high), parser, inner_parser: Null }).spec_parse(text) {
            Ok(s) => k >= low && s.value == spec_min(k, high as nat),
            Err(_) => k < low,
        },
{
    lemma_repeat_count(parser, low, Some(high), text, k);
}

/// The length of the longest run of characters with a property at the
/// start of `text`.
pub open spec fn spec_run<F: CharPredicate>(f: F, text: Seq<char>) -> nat
    decreases text.len(),
{
    if text.len() > 0 && f.spec_accepts(text[0]) {
        1 + spec_run(f, text.skip(1))
    } else {
        0
    }
}

/// The run of characters with a property at the start of a text is within
/// the text, every character of it has the property, and the character
/// after it, if there is one, has not.
pub proof fn lemma_run<F: CharPredicate>(f: F, text: Seq<char>)
    ensures
        spec_run(f, text) <= text.len(),
        forall|i: int| 0 <= i < spec_run(f, text) ==> f.spec_accepts(#[trigger] text[i]),
        spec_run(f, text) < text.len() ==> !f.spec_accepts(text[spec_run(f, text) as int]),
    decreases text.len(),
{
    if text.len() > 0 && f.spec_accepts(text[0]) {
        let rest = text.skip(1);
        lemma_run(f, rest);
        assert forall|i: int| 0 <= i < spec_run(f, text) implies f.spec_accepts(
            #[trigger] text[i],
        ) by {
            if i > 0 {
                assert(text[i] == rest[i - 1]);
            }
        }
    }
}

/// The parser of a character with a property succeeds as many times in a
/// row as the run of such characters at the start of the text is long, and
/// leaves the text without the characters that it has parsed.
pub proof fn lemma_run_in_a_row<F: CharPredicate>(f: F, text: Seq<char>)
    ensures
        spec_matches_in_a_row(CharMatching { f }, text, spec_run(f, text)),
        forall|n: nat|
            n <= spec_run(f, text) ==> #[trigger] spec_rest_after(CharMatching { f }, text, n)
                == text.skip(n as int),
    decreases text.len(),
{
    let parser = CharMatching { f };
    assert(text.skip(0) =~= text);
    lemma_run(f, text);
    if text.len() > 0 && f.spec_accepts(text[0]) {
        let rest = text.skip(1);
        lemma_run_in_a_row(f, rest);
        assert forall|n: nat| n <= spec_run(f, text) implies #[trigger] spec_rest_after(
            parser,
            text,
            n,
        ) == text.skip(n as int) by {
            if n > 0 {
                assert(spec_rest_after(parser, rest, (n - 1) as nat) == rest.skip(n - 1));
                assert(rest.skip(n - 1) =~= text.skip(n as int));
            }
        }
    }
}

/// A repetition of the parser of a character with a property, on a text
/// that starts with a run of `run` such characters: it succeeds if `run` is
/// at least `low`, and then parses `run` characters, or as many as the
/// limit allows if `run` is above it. It fails if `run` is below `low`.
pub proof fn lemma_repeat_run<F: CharPredicate>(
    f: F,
    low: usize,
    high: Option<usize>,
    text: Seq<char>,
)
    ensures
        ({
            let run = spec_run(f, text);
            let taken = spec_min(run, spec_limit(low, high) as nat);
            match (Intersperse { low, high, parser: CharMatching { f }, inner_parser: Null })
                .spec_parse(text) {
                Ok(s) => {
                    &&& run >= low
                    &&& s.value == taken
                    &&& s.token == text.take(taken as int)
                    &&& s.rest == text.skip(taken as int)
                },
                Err(_) => run < low,
            }
        }),
{
    let parser = CharMatching { f };
    let repeated = Intersperse { low, high, parser, inner_parser: Null };
    lemma_run(f, text);
    lemma_run_in_a_row(f, text);
    lemma_repeat_count(parser, low, high, text, spec_run(f, text));
    repeated.lemma_anchored(text);
    if let Ok(s) = repeated.spec_parse(text) {
        let taken = spec_min(spec_run(f, text), spec_limit(low, high) as nat);
        assert(spec_rest_after(parser, text, taken) == text.skip(taken as int));
        assert(s.rest.len() == text.len() - taken);
        assert(s.token.len() == taken);
    }
}

/// Whitespace is parsed where the text starts with a whitespace character,
/// and then all of the whitespace at the start of the text is parsed.
pub proof fn lemma_whitespace_run(text: Seq<char>)
    ensures
        ({
            let run = spec_run(IsWhitespace, text);
            match spec_whitespace(text) {
                Ok(s) => {
                    &&& run >= 1
                    &&& run <= usize::MAX ==> s.value == text.take(run as int) && s.token
                        == text.take(run as int) && s.rest == text.skip(run as int)
                },
                Err(f) => run == 0 && f.context.len() == 0 && f.rest == text,
            }
        }),
{
    lemma_repeat_run(IsWhitespace, 1, None, text);
    CharWhitespace.lemma_anchored(text);
    lemma_char_whitespace_repeat(text);
    Whitespace.lemma_anchored(text);
    lemma_run(IsWhitespace, text);
}

/// A repetition of the parser of a whitespace character gives what the
/// same repetition of the parser of a character with the property of being
/// whitespace gives, but for what a failure expects and has as its source.
pub proof fn lemma_char_whitespace_repeat(text: Seq<char>)
    ensures
        ({
            let named = (Intersperse {
                low: 1,
                high: None,
                parser: CharWhitespace,
                inner_parser: Null,
            }).spec_parse(text);
            let plain = (Intersperse {
                low: 1,
                high: None,
                parser: CharMatching { f: IsWhitespace },
                inner_parser: Null,
            }).spec_parse(text);
            match named {
                Ok(s) => plain == Ok::<SuccessView<usize>, FailureView>(s),
                Err(f) => plain is Err,
            }
        }),
{
    let plain = CharMatching { f: IsWhitespace };
    lemma_run_in_a_row(IsWhitespace, text);
    lemma_same_successes(plain, CharWhitespace, text, spec_run(IsWhitespace, text));
    lemma_repeat_count(plain, 1, None, text, spec_run(IsWhitespace, text));
    lemma_repeat_count(CharWhitespace, 1, None, text, spec_run(IsWhitespace, text));
    (Intersperse { low: 1, high: None, parser: plain, inner_parser: Null }).lemma_anchored(text);
    (Intersperse {
        low: 1,
        high: None,
        parser: CharWhitespace,
        inner_parser: Null,
    }).lemma_anchored(text);
    lemma_same_rest_after(
        plain,
        CharWhitespace,
        text,
        spec_min(spec_run(IsWhitespace, text), usize::MAX as nat),
    );
    let named_result = (Intersperse {
        low: 1,
        high: None,
        parser: CharWhitespace,
        inner_parser: Null,
    }).spec_parse(text);
    let plain_result = (Intersperse {
        low: 1,
        high: None,
        parser: plain,
        inner_parser: Null,
    }).spec_parse(text);
    if let Ok(s) = named_result {
        let p = plain_result->Ok_0;
        assert(s.rest == p.rest);
        assert(s.token =~= p.token);
    }
}

/// The parser of a whitespace character succeeds as many times in a row as
/// the parser of a character with the property of being whitespace.
pub proof fn lemma_same_successes(
    plain: CharMatching<IsWhitespace>,
    named: CharWhitespace,
    text: Seq<char>,
    k: nat,
)
    requires
        spec_matches_in_a_row(plain, text, k),
    ensures
        spec_matches_in_a_row(named, text, k),
    decreases k,
{
    if let Ok(s) = plain.spec_parse(text) {
        lemma_same_successes(plain, named, s.rest, (k - 1) as nat);
    }
}

/// The parser of a whitespace character leaves the same text after any
/// number of successes in a row as the parser of a character with the
/// property of being whitespace.
pub proof fn lemma_same_rest_after(
    plain: CharMatching<IsWhitespace>,
    named: CharWhitespace,
    text: Seq<char>,
    n: nat,
)
    ensures
        spec_rest_after(named, text, n) == spec_rest_after(plain, text, n),
    decreases n,
{
    if n > 0 {
        if let Ok(s) = plain.spec_parse(text) {
            lemma_same_rest_after(plain, named, s.rest, (n - 1) as nat);
        }
    }
}

/// The value of a name that is parsed has at least one character, has no
/// whitespace at its start or at its end, and holds no reserved character.
/// The name ends where the text ends or a reserved character stands.
pub proof fn lemma_name(text: Seq<char>)
    ensures
        spec_name(text) matches Ok(s) ==> {
            &&& s.value.len() > 0
            &&& s.value == spec_trim(s.token)
            &&& forall|i: int| 0 <= i < s.token.len() ==> !spec_is_reserved(#[trigger] s.token[i])
            &&& s.rest.len() > 0 && s.token.len() < usize::MAX ==> spec_is_reserved(s.rest[0])
        },
{
    lemma_repeat_run(NameChar, 1, None, text);
    lemma_run(NameChar, text);
}

////////////////////////////////////////////////////////////////////////////////
// Integers
////////////////////////////////////////////////////////////////////////////////

/// The number that the digits in `s` write in the given radix; characters
/// that are no digits are passed over.
pub open spec fn spec_number(s: Seq<char>, radix: u32) -> nat
    decreases s.len(),
{
    if s.len() == 0 {
        0
    } else {
        match spec_digit_value(s.last(), radix) {
            Some(d) => (spec_number(s.drop_last(), radix) * radix + d) as nat,
            None => spec_number(s.drop_last(), radix),
        }
    }
}

/// The number that a text writes is not below the number that the text
/// without its last character writes.
pub proof fn lemma_number_grows(s: Seq<char>, radix: u32)
    requires
        s.len() > 0,
    ensures
        spec_number(s.drop_last(), radix) <= spec_number(s, radix),
{
    let before = spec_number(s.drop_last(), radix);
    if let Some(d) = spec_digit_value(s.last(), radix) {
        assert(before <= before * radix) by (nonlinear_arith)
            requires
                radix >= 1,
        ;
    }
}

/// What the accumulation of the digits in 64 bits gives: the number that
/// the digits write, if it fits; and if not, the number that the digits up
/// to some place write.
pub proof fn lemma_accumulate_exact(s: Seq<char>, radix: u32)
    ensures
        match spec_accumulate(s, radix) {
            Ok(v) => v == spec_number(s, radix) && v <= u64::MAX,
            Err(m) => {
                &&& spec_number(s, radix) > u64::MAX
                &&& exists|len: int| 0 <= len <= s.len() && m == spec_number(s.take(len), radix)
            },
        },
    decreases s.len(),
{
    if s.len() > 0 {
        let before = s.drop_last();
        lemma_accumulate_exact(before, radix);
        lemma_number_grows(s, radix);
        match spec_accumulate(before, radix) {
            Err(m) => {
                let len = choose|len: int|
                    0 <= len <= before.len() && m == spec_number(before.take(len), radix);
                assert(before.take(len) =~= s.take(len));
            },
            Ok(acc) => {
                if let Some(d) = spec_digit_value(s.last(), radix) {
                    if acc * radix > u64::MAX {
                        assert(s.take(s.len() - 1) =~= before);
                    } else if acc * radix + d > u64::MAX {
                        assert(s.take(s.len() as int) =~= s);
                    }
                }
            },
        }
    } else {
        assert(s.take(0) =~= s);
    }
}

/// What the parser of an unsigned integer with a given radix and number of
/// digits gives once the digits are parsed. If the number that the digits
/// write fits in 64 bits and in the type `T`, the parser succeeds with that
/// number. If not, it fails, and the source of the failure is the overflow
/// with the number as its value where it fits in 64 bits.
pub proof fn lemma_uint_digits_value_exact<T: TryFrom<u64> + DeepView>(
    int_type: Seq<char>,
    low: usize,
    high: Option<usize>,
    radix: u32,
    text: Seq<char>,
)
    ensures
        match spec_digits(low, high, radix).spec_parse(text) {
            Err(_) => spec_uint_digits_value::<T>(int_type, low, high, radix, text) is Err,
            Ok(digits) => {
                let number = spec_number(digits.token, radix);
                let fits = number <= u64::MAX && T::try_from_spec(number as u64) is Ok;
                match spec_uint_digits_value::<T>(int_type, low, high, radix, text) {
                    Ok(s) => {
                        &&& fits
                        &&& s.value == T::try_from_spec(number as u64)->Ok_0.deep_view()
                        &&& s.token == digits.token
                        &&& s.rest == digits.rest
                    },
                    Err(f) => {
                        &&& !fits
                        &&& f.context == digits.token
                        &&& f.source matches Some(SourceView::IntegerOverflow(overflow))
                        &&& number <= u64::MAX ==> overflow.value == number
                    },
                }
            },
        },
{
    if let Ok(digits) = spec_digits(low, high, radix).spec_parse(text) {
        lemma_accumulate_exact(digits.token, radix);
    }
}

/// A `u32` that is parsed with a given radix and number of digits is the
/// number that the digits write; the parser fails if that number is above
/// the largest `u32`.
pub proof fn lemma_uint_digits_value_u32(
    int_type: Seq<char>,
    low: usize,
    high: Option<usize>,
    radix: u32,
    text: Seq<char>,
)
    ensures
        match spec_digits(low, high, radix).spec_parse(text) {
            Err(_) => spec_uint_digits_value::<u32>(int_type, low, high, radix, text) is Err,
            Ok(digits) => match spec_uint_digits_value::<u32>(int_type, low, high, radix, text) {
                Ok(s) => s.value == spec_number(digits.token, radix),
                Err(_) => spec_number(digits.token, radix) > u32::MAX,
            },
        },
{
    lemma_uint_digits_value_exact::<u32>(int_type, low, high, radix, text);
}

/// A `u16` that is parsed with a given radix and number of digits is the
/// number that the digits write; the parser fails if that number is above
/// the largest `u16`.
pub proof fn lemma_uint_digits_value_u16(
    int_type: Seq<char>,
    low: usize,
    high: Option<usize>,
    radix: u32,
    text: Seq<char>,
)
    ensures
        match spec_digits(low, high, radix).spec_parse(text) {
            Err(_) => spec_uint_digits_value::<u16>(int_type, low, high, radix, text) is Err,
            Ok(digits) => match spec_uint_digits_value::<u16>(int_type, low, high, radix, text) {
                Ok(s) => s.value == spec_number(digits.token, radix),
                Err(_) => spec_number(digits.token, radix) > u16::MAX,
            },
        },
{
    lemma_uint_digits_value_exact::<u16>(int_type, low, high, radix, text);
}

/// What the parser of an unsigned integer with optional radix prefix gives
/// once the digits after the prefix are parsed: the digits are taken in the
/// radix of the prefix, or in radix 10 without one. If the number that they
/// write fits in 64 bits and in the type `T`, the parser succeeds with that
/// number, and its token is the prefix with the digits. If not, it fails,
/// and the overflow is the source of the source of the failure, with the
/// number as its value where it fits in 64 bits.
pub proof fn lemma_uint_exact<T: TryFrom<u64> + DeepView>(int_type: Seq<char>, text: Seq<char>)
    ensures
        ({
            let radix = match spec_radix_prefix(text) {
                Some(radix) => radix,
                None => 10u32,
            };
            let prior: nat = if spec_radix_prefix(text) is Some {
                2
            } else {
                0
            };
            match spec_digits(1, None, radix).spec_parse(text.skip(prior as int)) {
                Err(_) => spec_uint::<T>(int_type, text) is Err,
                Ok(digits) => {
                    let number = spec_number(digits.token, radix);
                    let fits = number <= u64::MAX && T::try_from_spec(number as u64) is Ok;
                    match spec_uint::<T>(int_type, text) {
                        Ok(s) => {
                            &&& fits
                            &&& s.value == T::try_from_spec(number as u64)->Ok_0.deep_view()
                            &&& s.token == text.take((prior + digits.token.len()) as int)
                            &&& s.rest == digits.rest
                        },
                        Err(f) => {
                            &&& !fits
                            &&& f.source matches Some(SourceView::Parse(cause))
                            &&& cause.source matches Some(inner)
                            &&& *inner matches SourceView::IntegerOverflow(overflow)
                            &&& number <= u64::MAX ==> overflow.value == number
                        },
                    }
                },
            }
        }),
{
    let radix = match spec_radix_prefix(text) {
        Some(radix) => radix,
        None => 10u32,
    };
    let prior: nat = if spec_radix_prefix(text) is Some {
        2
    } else {
        0
    };
    lemma_uint_digits_value_exact::<T>(int_type, 1, None, radix, text.skip(prior as int));
}

////////////////////////////////////////////////////////////////////////////////
// Plain digits
////////////////////////////////////////////////////////////////////////////////

/// True if every character of `s` is a digit of the radix.
pub open spec fn spec_all_digits(s: Seq<char>, radix: u32) -> bool {
    forall|i: int| 0 <= i < s.len() ==> spec_digit_value(#[trigger] s[i], radix) is Some
}

/// The parser of one digit with the separators after it.
pub open spec fn spec_digit(radix: u32) -> Postfix<CharMatching<Digit>, Separators> {
    Postfix { parser: CharMatching { f: Digit { radix } }, postfix_parser: spec_separators() }
}

/// On a text that does not start with a separator, the parser of
/// separators parses nothing.
pub proof fn lemma_no_separators(text: Seq<char>)
    requires
        text.len() > 0 ==> text[0] != INT_DIGIT_SEPARATOR,
    ensures
        spec_separators().spec_parse(text) == Ok::<SuccessView<usize>, FailureView>(
            SuccessView::split(0usize, text, 0),
        ),
{
}

/// On a text that starts with a digit after which no separator stands, the
/// parser of one digit parses that digit.
pub proof fn lemma_one_digit(text: Seq<char>, radix: u32)
    requires
        text.len() > 0,
        spec_digit_value(text[0], radix) is Some,
        text.len() > 1 ==> text[1] != INT_DIGIT_SEPARATOR,
    ensures
        spec_digit(radix).spec_parse(text) == Ok::<SuccessView<char>, FailureView>(
            SuccessView::split(text[0], text, 1),
        ),
{
    let rest = text.skip(1);
    lemma_no_separators(rest);
    spec_digit(radix).lemma_anchored(text);
    assert(rest.skip(0) =~= rest);
}

/// From a text of nothing but digits on, the parser of one digit succeeds
/// once for each digit, and nothing is left after that.
pub proof fn lemma_digits_in_a_row(text: Seq<char>, radix: u32)
    requires
        spec_all_digits(text, radix),
    ensures
        spec_matches_in_a_row(spec_digit(radix), text, text.len()),
        spec_rest_after(spec_digit(radix), text, text.len()).len() == 0,
    decreases text.len(),
{
    if text.len() > 0 {
        let rest = text.skip(1);
        assert(spec_digit_value(text[0], radix) is Some);
        if text.len() > 1 {
            assert(spec_digit_value(text[1], radix) is Some);
        }
        lemma_one_digit(text, radix);
        assert forall|i: int| 0 <= i < rest.len() implies spec_digit_value(
            #[trigger] rest[i],
            radix,
        ) is Some by {
            assert(rest[i] == text[i + 1]);
        }
        lemma_digits_in_a_row(rest, radix);
    }
}

/// On a text of nothing but digits, the parser of the digits of an integer
/// succeeds if the digits are at least `low`, and takes them all if they
/// are not more than the limit allows. It fails if they are fewer than
/// `low`.
pub proof fn lemma_plain_digits(low: usize, high: Option<usize>, radix: u32, text: Seq<char>)
    requires
        spec_all_digits(text, radix),
    ensures
        match spec_digits(low, high, radix).spec_parse(text) {
            Ok(s) => {
                &&& low <= text.len()
                &&& text.len() <= spec_limit(low, high) ==> s.token == text && s.rest
                    == Seq::<char>::empty()
            },
            Err(_) => text.len() < low,
        },
{
    if text.len() > 0 {
        assert(spec_digit_value(text[0], radix) is Some);
    }
    lemma_no_separators(text);
    let start = text.skip(0);
    assert(start =~= text);
    lemma_digits_in_a_row(start, radix);
    lemma_repeat_count(spec_digit(radix), low, high, start, start.len());
    spec_digits(low, high, radix).lemma_anchored(text);
    if let Ok(s) = spec_digits(low, high, radix).spec_parse(text) {
        if text.len() <= spec_limit(low, high) {
            assert(s.rest =~= Seq::<char>::empty());
            assert(s.token =~= text);
        }
    }
}

/// What the parser of an unsigned integer gives on a text of nothing but
/// digits, of which there are not fewer than `low` and not more than the
/// limit allows: all of the text is parsed, and the value is the number
/// that the digits write, if it fits in 64 bits and in the type `T`; if
/// not, the parser fails.
pub proof fn lemma_uint_digits_value_plain<T: TryFrom<u64> + DeepView>(
    int_type: Seq<char>,
    low: usize,
    high: Option<usize>,
    radix: u32,
    text: Seq<char>,
)
    requires
        spec_all_digits(text, radix),
        low <= text.len() <= spec_limit(low, high),
    ensures
        ({
            let number = spec_number(text, radix);
            match spec_uint_digits_value::<T>(int_type, low, high, radix, text) {
                Ok(s) => {
                    &&& number <= u64::MAX
                    &&& T::try_from_spec(number as u64) matches Ok(value)
                    &&& s.value == value.deep_view()
                    &&& s.token == text
                    &&& s.rest == Seq::<char>::empty()
                },
                Err(_) => number > u64::MAX || T::try_from_spec(number as u64) is Err,
            }
        }),
{
    lemma_plain_digits(low, high, radix, text);
    lemma_uint_digits_value_exact::<T>(int_type, low, high, radix, text);
}

////////////////////////////////////////////////////////////////////////////////
// RGB hex codes
////////////////////////////////////////////////////////////////////////////////

/// The value of a hex digit; zero for any other character.
pub open spec fn spec_hex_digit(c: char) -> nat {
    match spec_digit_value(c, 16) {
        Some(d) => d as nat,
        None => 0,
    }
}

/// The number that two hex digits write.
pub proof fn lemma_number_of_two(a: char, b: char)
    requires
        spec_digit_value(a, 16) is Some,
        spec_digit_value(b, 16) is Some,
    ensures
        spec_number(seq![a, b], 16) == spec_hex_digit(a) * 16 + spec_hex_digit(b),
        spec_number(seq![a, b], 16) < 256,
{
    let s2 = seq![a, b];
    let s1 = seq![a];
    assert(s2.drop_last() =~= s1);
    assert(s1.drop_last() =~= Seq::<char>::empty());
    assert(spec_number(s1.drop_last(), 16) == 0);
    assert(spec_number(s1, 16) == spec_hex_digit(a));
}

/// The number that three hex digits write.
pub proof fn lemma_number_of_three(a: char, b: char, c: char)
    requires
        spec_digit_value(a, 16) is Some,
        spec_digit_value(b, 16) is Some,
        spec_digit_value(c, 16) is Some,
    ensures
        spec_number(seq![a, b, c], 16) == spec_hex_digit(a) * 256 + spec_hex_digit(b) * 16
            + spec_hex_digit(c),
        spec_number(seq![a, b, c], 16) < 4096,
{
    lemma_number_of_two(a, b);
    assert(seq![a, b, c].drop_last() =~= seq![a, b]);
}

/// The number that six hex digits write: the numbers that the three pairs
/// write stand in it from the highest octet to the lowest.
pub proof fn lemma_number_of_six(a: char, b: char, c: char, d: char, e: char, f: char)
    requires
        spec_digit_value(a, 16) is Some,
        spec_digit_value(b, 16) is Some,
        spec_digit_value(c, 16) is Some,
        spec_digit_value(d, 16) is Some,
        spec_digit_value(e, 16) is Some,
        spec_digit_value(f, 16) is Some,
    ensures
        spec_number(seq![a, b, c, d, e, f], 16) == spec_number(seq![a, b], 16) * 0x10000
            + spec_number(seq![c, d], 16) * 0x100 + spec_number(seq![e, f], 16),
        spec_number(seq![a, b, c, d, e, f], 16) < 0x1000000,
{
    lemma_number_of_three(a, b, c);
    lemma_number_of_two(a, b);
    lemma_number_of_two(c, d);
    lemma_number_of_two(e, f);
    let s6 = seq![a, b, c, d, e, f];
    let s5 = seq![a, b, c, d, e];
    let s4 = seq![a, b, c, d];
    let s3 = seq![a, b, c];
    assert(s6.drop_last() =~= s5);
    assert(s5.drop_last() =~= s4);
    assert(s4.drop_last() =~= s3);
    assert(spec_number(s4, 16) == spec_number(s3, 16) * 16 + spec_hex_digit(d));
    assert(spec_number(s5, 16) == spec_number(s4, 16) * 16 + spec_hex_digit(e));
    assert(spec_number(s6, 16) == spec_number(s5, 16) * 16 + spec_hex_digit(f));
}

/// The characters after the first of a text whose rest is nothing but hex
/// digits are hex digits.
pub proof fn lemma_digits_after_prefix(text: Seq<char>)
    requires
        spec_all_digits(text.skip(1), 16),
    ensures
        forall|i: int| 1 <= i < text.len() ==> spec_digit_value(#[trigger] text[i], 16) is Some,
{
    assert forall|i: int| 1 <= i < text.len() implies spec_digit_value(
        #[trigger] text[i],
        16,
    ) is Some by {
        assert(text[i] == text.skip(1)[i - 1]);
    }
}

/// What the parser of an RGB hex code with a given number of digits gives
/// on `#` with as many hex digits after it and nothing else: all of the
/// text is parsed, and the value is the number that the digits write,
/// unless it is above the largest `u32`.
pub proof fn lemma_hex_code_plain(count: usize, text: Seq<char>)
    requires
        text.len() == count + 1,
        text[0] == RGB_HEX_PREFIX,
        spec_all_digits(text.skip(1), 16),
    ensures
        match spec_hex_code(count).spec_parse(text) {
            Ok(s) => {
                &&& s.value == spec_number(text.skip(1), 16)
                &&& s.token == text
                &&& s.rest == Seq::<char>::empty()
            },
            Err(_) => spec_number(text.skip(1), 16) > u32::MAX,
        },
{
    lemma_uint_digits_value_plain::<u32>("u32"@, count, Some(count), 16, text.skip(1));
    if let Ok(s) = spec_hex_code(count).spec_parse(text) {
        assert(s.token =~= text);
    }
}

/// The parser of an RGB hex code with a given number of digits fails on
/// `#` with another number of hex digits after it and nothing else.
pub proof fn lemma_hex_code_other(count: usize, text: Seq<char>)
    requires
        0 < text.len() < count + 1,
        text[0] == RGB_HEX_PREFIX,
        spec_all_digits(text.skip(1), 16),
    ensures
        spec_hex_code(count).spec_parse(text) is Err,
{
    lemma_plain_digits(count, Some(count), 16, text.skip(1));
}

/// On `#RRGGBB`, six hex digits after `#` and nothing else, the parser of
/// an RGB hex code parses all of the text, and the number of the color is
/// `0xRRGGBB`: the numbers that `RR`, `GG` and `BB` write as hex digits
/// stand in it from the highest octet to the lowest.
pub proof fn lemma_rgb_hex_6(text: Seq<char>)
    requires
        text.len() == 7,
        text[0] == RGB_HEX_PREFIX,
        spec_all_digits(text.skip(1), 16),
    ensures
        spec_rgb_hex(text) == Ok::<SuccessView<RgbView>, FailureView>(
            SuccessView {
                value: RgbView::Hex(
                    (spec_number(text.subrange(1, 3), 16) * 0x10000 + spec_number(
                        text.subrange(3, 5),
                        16,
                    ) * 0x100 + spec_number(text.subrange(5, 7), 16)) as u32,
                ),
                token: text,
                rest: Seq::<char>::empty(),
            },
        ),
        spec_number(text.subrange(1, 3), 16) < 0x100,
        spec_number(text.subrange(3, 5), 16) < 0x100,
        spec_number(text.subrange(5, 7), 16) < 0x100,
{
    lemma_hex_code_plain(6, text);
    lemma_digits_after_prefix(text);
    lemma_number_of_six(text[1], text[2], text[3], text[4], text[5], text[6]);
    lemma_number_of_two(text[1], text[2]);
    lemma_number_of_two(text[3], text[4]);
    lemma_number_of_two(text[5], text[6]);
    assert(text.skip(1) =~= seq![text[1], text[2], text[3], text[4], text[5], text[6]]);
    assert(text.subrange(1, 3) =~= seq![text[1], text[2]]);
    assert(text.subrange(3, 5) =~= seq![text[3], text[4]]);
    assert(text.subrange(5, 7) =~= seq![text[5], text[6]]);
}

/// On two hex digits and nothing else, the parser of a `u8` with two hex
/// digits gives the number that they write.
pub proof fn lemma_hex_pair(text: Seq<char>)
    requires
        text.len() == 2,
        spec_all_digits(text, 16),
    ensures
        spec_uint_digits_value::<u8>("u8"@, 2, Some(2), 16, text) == Ok::<
            SuccessView<u8>,
            FailureView,
        >(
            SuccessView {
                value: spec_number(text, 16) as u8,
                token: text,
                rest: Seq::<char>::empty(),
            },
        ),
        spec_number(text, 16) < 0x100,
{
    lemma_uint_digits_value_plain::<u8>("u8"@, 2, Some(2), 16, text);
    assert(spec_digit_value(text[0], 16) is Some);
    assert(spec_digit_value(text[1], 16) is Some);
    lemma_number_of_two(text[0], text[1]);
    assert(text =~= seq![text[0], text[1]]);
}

/// The text `#RRGGBB` for the text `#RGB`: each digit stands twice.
pub open spec fn spec_doubled(text: Seq<char>) -> Seq<char> {
    seq![text[0], text[1], text[1], text[2], text[2], text[3], text[3]]
}

/// The number `0xRRGGBB` for the number `0xRGB` of three hex digits.
pub proof fn lemma_expand_digits(r: u32, g: u32, b: u32)
    requires
        r < 16,
        g < 16,
        b < 16,
    ensures
        spec_expand((r * 256 + g * 16 + b) as u32) == r * 0x110000 + g * 0x1100 + b * 0x11,
{
    let v: u32 = (r * 256 + g * 16 + b) as u32;
    assert(v / 0x100 % 0x10 == r && v / 0x10 % 0x10 == g && v % 0x10 == b) by (bit_vector)
        requires
            r < 16,
            g < 16,
            b < 16,
            v == r * 256 + g * 16 + b,
    ;
}

/// Each digit of `#RGB` stands twice in the number of `#RRGGBB`.
pub proof fn lemma_doubled_number(a: char, b: char, c: char)
    requires
        spec_digit_value(a, 16) is Some,
        spec_digit_value(b, 16) is Some,
        spec_digit_value(c, 16) is Some,
    ensures
        spec_expand(spec_number(seq![a, b, c], 16) as u32) == spec_number(
            seq![a, a, b, b, c, c],
            16,
        ),
{
    let r = spec_digit_value(a, 16)->Some_0;
    let g = spec_digit_value(b, 16)->Some_0;
    let bl = spec_digit_value(c, 16)->Some_0;
    lemma_number_of_three(a, b, c);
    assert(spec_number(seq![a, b, c], 16) == r * 256 + g * 16 + bl);
    lemma_expand_digits(r, g, bl);
    lemma_number_of_two(a, a);
    lemma_number_of_two(b, b);
    lemma_number_of_two(c, c);
    assert(spec_number(seq![a, a], 16) == r * 17);
    assert(spec_number(seq![b, b], 16) == g * 17);
    assert(spec_number(seq![c, c], 16) == bl * 17);
    lemma_number_of_six(a, a, b, b, c, c);
    assert(spec_number(seq![a, a, b, b, c, c], 16) == r * 17 * 0x10000 + g * 17 * 0x100 + bl
        * 17);
}

/// On `#RGB`, the parser of an RGB hex code gives the number of the three
/// digits with each digit twice.
proof fn lemma_rgb_hex_3_value(text: Seq<char>)
    requires
        text.len() == 4,
        text[0] == RGB_HEX_PREFIX,
        spec_all_digits(text.skip(1), 16),
    ensures
        spec_rgb_hex(text) matches Ok(s) && s.value == RgbView::Hex(
            spec_expand(spec_number(text.skip(1), 16) as u32),
        ) && s.token == text && s.rest == Seq::<char>::empty(),
{
    lemma_digits_after_prefix(text);
    lemma_hex_code_other(6, text);
    lemma_hex_code_plain(3, text);
    assert(text.skip(1) =~= seq![text[1], text[2], text[3]]);
    lemma_number_of_three(text[1], text[2], text[3]);
}

/// On `#RRGGBB` for `#RGB`, the parser of a 6-digit RGB hex code gives the
/// number of the six digits.
proof fn lemma_rgb_hex_6_doubled(text: Seq<char>)
    requires
        text.len() == 4,
        text[0] == RGB_HEX_PREFIX,
        spec_all_digits(text.skip(1), 16),
    ensures
        spec_rgb_hex_6(spec_doubled(text)) matches Ok(d) && d.value == RgbView::Hex(
            spec_number(spec_doubled(text).skip(1), 16) as u32,
        ),
{
    let doubled = spec_doubled(text);
    lemma_digits_after_prefix(text);
    assert(doubled.skip(1) =~= seq![text[1], text[1], text[2], text[2], text[3], text[3]]);
    lemma_hex_code_plain(6, doubled);
    lemma_number_of_six(text[1], text[1], text[2], text[2], text[3], text[3]);
}

/// On `#RGB`, three hex digits after `#` and nothing else, the parser of an
/// RGB hex code parses all of the text, and the number of the color is that
/// of `#RRGGBB`, in which each digit stands twice.
pub proof fn lemma_rgb_hex_3(text: Seq<char>)
    requires
        text.len() == 4,
        text[0] == RGB_HEX_PREFIX,
        spec_all_digits(text.skip(1), 16),
    ensures
        spec_rgb_hex(text) matches Ok(s) && spec_rgb_hex_6(spec_doubled(text)) matches Ok(d)
            && s.value == d.value && s.token == text && s.rest == Seq::<char>::empty(),
{
    let doubled = spec_doubled(text);
    lemma_digits_after_prefix(text);
    lemma_rgb_hex_3_value(text);
    lemma_rgb_hex_6_doubled(text);
    lemma_doubled_number(text[1], text[2], text[3]);
    assert(text.skip(1) =~= seq![text[1], text[2], text[3]]);
    assert(doubled.skip(1) =~= seq![text[1], text[1], text[2], text[2], text[3], text[3]]);
}

////////////////////////////////////////////////////////////////////////////////
// Colors
////////////////////////////////////////////////////////////////////////////////

/// The result of an RGB hex code is anchored in the text.
pub proof fn lemma_rgb_hex_anchored(text: Seq<char>)
    ensures
        anchored(spec_rgb_hex(text), text),
{
    spec_hex_code(6).lemma_anchored(text);
    spec_hex_code(3).lemma_anchored(text);
}

/// The results of the functional notations are anchored in the text.
pub proof fn lemma_functional_anchored(text: Seq<char>)
    ensures
        anchored(spec_rgb_functional(text), text),
        anchored(spec_cmyk_functional(text), text),
        anchored(spec_hsv_functional(text), text),
        anchored(spec_hsl_functional(text), text),
        anchored(spec_xyz_functional(text), text),
{
    spec_notation("rgb", 3).lemma_anchored(text);
    spec_notation("cmyk", 4).lemma_anchored(text);
    spec_notation("hsv", 3).lemma_anchored(text);
    spec_notation("hsl", 3).lemma_anchored(text);
    spec_notation("xyz", 3).lemma_anchored(text);
}

/// The result of a color is anchored in the text: a success splits the
/// text into token and rest, and a failure leaves the text untouched.
pub proof fn lemma_color_anchored(text: Seq<char>)
    ensures
        anchored(spec_color(text), text),
{
    lemma_rgb_hex_anchored(text);
    lemma_functional_anchored(text);
}

/// A color fails only if every notation fails, and the context of its
/// failure is then the longest of the contexts of their failures: no
/// notation got further.
pub proof fn lemma_color_longest_context(text: Seq<char>)
    ensures
        spec_color(text) matches Err(failure) ==> {
            &&& spec_rgb_hex(text) matches Err(f) && f.context.len() <= failure.context.len()
            &&& spec_rgb_functional(text) matches Err(f) && f.context.len()
                <= failure.context.len()
            &&& spec_cmyk_functional(text) matches Err(f) && f.context.len()
                <= failure.context.len()
            &&& spec_hsv_functional(text) matches Err(f) && f.context.len()
                <= failure.context.len()
            &&& spec_hsl_functional(text) matches Err(f) && f.context.len()
                <= failure.context.len()
            &&& spec_xyz_functional(text) matches Err(f) && f.context.len()
                <= failure.context.len()
            &&& failure.source matches Some(SourceView::Parse(cause)) && cause.context
                == failure.context && ({
                ||| spec_rgb_hex(text) == Err::<SuccessView<RgbView>, FailureView>(
                    cause_in(cause, text),
                )
                ||| spec_rgb_functional(text) == Err::<SuccessView<RgbView>, FailureView>(
                    cause_in(cause, text),
                )
                ||| spec_cmyk_functional(text) == Err::<SuccessView<CmykView>, FailureView>(
                    cause_in(cause, text),
                )
                ||| spec_hsv_functional(text) == Err::<SuccessView<HsvView>, FailureView>(
                    cause_in(cause, text),
                )
                ||| spec_hsl_functional(text) == Err::<SuccessView<HslView>, FailureView>(
                    cause_in(cause, text),
                )
                ||| spec_xyz_functional(text) == Err::<SuccessView<XyzView>, FailureView>(
                    cause_in(cause, text),
                )
            })
        },
{
    lemma_rgb_hex_anchored(text);
    lemma_functional_anchored(text);
}

/// The failure on `text` that is kept as `cause`.
pub open spec fn cause_in(cause: FailureOwnedView, text: Seq<char>) -> FailureView {
    FailureView {
        context: cause.context,
        expected: cause.expected,
        source: match cause.source {
            Some(source) => Some(*source),
            None => None,
        },
        rest: text,
    }
}

////////////////////////////////////////////////////////////////////////////////
// Cell references and selections
////////////////////////////////////////////////////////////////////////////////

/// The result of a cell reference is anchored in the text.
pub proof fn lemma_cell_ref_anchored(text: Seq<char>)
    ensures
        anchored(spec_cell_ref(text), text),
{
    PositionRule.lemma_anchored(text);
    IndexRule.lemma_anchored(text);
    GroupRule.lemma_anchored(text);
    NameRule.lemma_anchored(text);
}

/// The result of a cell selection is anchored in the text.
pub proof fn lemma_cell_selection_anchored(text: Seq<char>)
    ensures
        anchored(spec_cell_selection(text), text),
{
    spec_cell_selectors().lemma_anchored(text);
}

/// A cell selection that succeeds holds at least one selector.
pub proof fn lemma_cell_selection_count(text: Seq<char>)
    ensures
        spec_cell_selection(text) matches Ok(s) ==> s.value.len() >= 1,
{
    let list = spec_cell_selectors();
    lemma_repetition_count(list.parser, list.inner_parser, None::<&Null>, 1, None, text);
}

/// A cell selector that is parsed is valid: the upper bound of a range is
/// not below its lower bound.
pub proof fn lemma_cell_selector_valid(text: Seq<char>)
    ensures
        spec_cell_selector(text) matches Ok(s) ==> s.value.valid(),
{
}

/// Every selector of a cell selection that is parsed is valid.
pub proof fn lemma_cell_selection_valid(text: Seq<char>)
    ensures
        spec_cell_selection(text) matches Ok(s) ==> forall|i: int|
            0 <= i < s.value.len() ==> (#[trigger] s.value[i]).valid(),
{
    let list = spec_cell_selectors();
    assert forall|t: Seq<char>|
        (#[trigger] list.parser.spec_parse(t)) matches Ok(s) ==> s.value.valid() by {
        lemma_cell_selector_valid(t);
    }
    lemma_repetition_values(
        list.parser,
        list.inner_parser,
        None::<&Null>,
        1,
        None,
        text,
        |selector: CellSelectorView| selector.valid(),
    );
}

} // verus!
