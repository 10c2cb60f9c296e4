//! Cell selection parsing.
//!
//! The grammar of cell references and cell selectors. Five characters are
//! reserved: `*` for all, `,` between selectors, `.` between the fields of a
//! position, `:` before an index or a position, and `-` between the bounds
//! of a range.

use crate::cell::range_view;
use crate::cell::spec_group_range;
use crate::cell::spec_index_range;
use crate::cell::spec_position_range;
use crate::cell::CellRef;
use crate::cell::CellRefView;
use crate::cell::CellSelection;
use crate::cell::CellSelector;
use crate::cell::CellSelectorView;
use crate::cell::InvalidCellSelector;
use crate::cell::InvalidCellSelectorView;
use crate::cell::Position;
use crate::cell::PositionSelector;
use crate::cell::REF_ALL_TOKEN;
use crate::cell::REF_POS_SEP_TOKEN;
use crate::cell::REF_PREFIX_TOKEN;
use crate::cell::REF_RANGE_TOKEN;
use crate::cell::REF_SEP_TOKEN;
use crate::parse::combinator::circumfix;
use crate::parse::combinator::intersperse_collect;
use crate::parse::combinator::maybe;
use crate::parse::combinator::postfix;
use crate::parse::combinator::prefix;
use crate::parse::combinator::repeat;
use crate::parse::combinator::spec_some;
use crate::parse::combinator::Circumfix;
use crate::parse::combinator::Intersperse;
use crate::parse::combinator::IntersperseCollect;
use crate::parse::combinator::Maybe;
use crate::parse::combinator::Null;
use crate::parse::combinator::Postfix;
use crate::parse::combinator::Prefix;
use crate::parse::laws::lemma_cell_selection_count;
use crate::parse::laws::lemma_cell_selection_valid;
use crate::parse::parser::CharPredicate;
use crate::parse::parser::Parser;
use crate::parse::primitive::char;
use crate::parse::primitive::char_matching;
use crate::parse::primitive::uint;
use crate::parse::primitive::Char;
use crate::parse::primitive::CharMatching;
use crate::parse::primitive::Uint;
use crate::parse::primitive::Whitespace;
use crate::parse::result::anchored;
use crate::parse::result::join_previous;
use crate::parse::result::lemma_spec_join_previous_anchored;
use crate::parse::result::result_view;
use crate::parse::result::spec_join_previous;
use crate::parse::result::spec_source_for;
use crate::parse::result::Failure;
use crate::parse::result::FailureSource;
use crate::parse::result::FailureView;
use crate::parse::result::ParseResult;
use crate::parse::result::ResultView;
use crate::parse::result::SourceView;
use crate::parse::result::Success;
use crate::parse::result::SuccessView;
use crate::text::char_len;
use crate::text::spec_trim;
use crate::text::take;
use crate::text::trim;
use crate::text::Text;
use crate::parse::result::ParseResultExt;
use vstd::prelude::*;

verus! {

////////////////////////////////////////////////////////////////////////////////
// Steps of a rule
////////////////////////////////////////////////////////////////////////////////

/// The result of one step of a rule on `text`: after `prior` characters
/// have been parsed and `rest` is left, the parser is attempted on `rest`.
/// Its failure is the source of a failure that expects `label`, and its
/// result is joined to what was parsed before.
pub open spec fn spec_step<'t, P: Parser<'t>>(
    parser: P,
    label: Seq<char>,
    prior: nat,
    rest: Seq<char>,
    text: Seq<char>,
) -> ResultView<<P::Value as DeepView>::V> {
    spec_join_previous(spec_source_for(parser.spec_parse(rest), label), prior, text)
}

/// A step of a rule is anchored.
pub proof fn lemma_step_anchored<'t, P: Parser<'t>>(
    parser: P,
    label: Seq<char>,
    prior: nat,
    rest: Seq<char>,
    text: Seq<char>,
)
    requires
        parser.well_formed(),
        prior <= text.len(),
        rest == text.skip(prior as int),
    ensures
        anchored(spec_step(parser, label, prior, rest, text), text),
        match spec_source_for(parser.spec_parse(rest), label) {
            Ok(s) => prior + s.token.len() <= text.len(),
            Err(f) => prior + f.context.len() <= text.len(),
        },
{
    parser.lemma_anchored(rest);
    lemma_spec_join_previous_anchored(
        SuccessView::split((), text, prior as int),
        spec_source_for(parser.spec_parse(rest), label),
        text,
    );
}

/// Runs one step of a rule on `text`, after the token `prior` has been
/// parsed and `rest` is left.
fn step<'t, P: Parser<'t>>(
    parser: &P,
    label: &'static str,
    prior: &'t str,
    rest: &'t str,
    text: &'t str,
) -> (r: ParseResult<'t, P::Value>)
    requires
        parser.well_formed(),
        prior@.len() <= text@.len(),
        rest@ == text@.skip(prior@.len() as int),
    ensures
        result_view(r) == spec_step(*parser, label@, prior@.len(), rest@, text@),
        anchored(result_view(r), text@),
{
    proof {
        lemma_step_anchored(*parser, label@, prior@.len(), rest@, text@);
    }
    join_previous(parser.parse(rest).source_for(Text::Borrowed(label)), prior, text)
}

/// The result of a mark and a field after it, as two steps of a rule; the
/// value is that of the field.
pub open spec fn spec_field<'t, P: Parser<'t>>(
    mark: char,
    mark_label: Seq<char>,
    field: P,
    field_label: Seq<char>,
    prior: nat,
    rest: Seq<char>,
    text: Seq<char>,
) -> ResultView<<P::Value as DeepView>::V> {
    match spec_step(Char { c: mark }, mark_label, prior, rest, text) {
        Err(f) => Err(f),
        Ok(m) => spec_step(field, field_label, m.token.len(), m.rest, text),
    }
}

/// A mark and a field after it are anchored.
pub proof fn lemma_field_anchored<'t, P: Parser<'t>>(
    mark: char,
    mark_label: Seq<char>,
    field: P,
    field_label: Seq<char>,
    prior: nat,
    rest: Seq<char>,
    text: Seq<char>,
)
    requires
        field.well_formed(),
        prior <= text.len(),
        rest == text.skip(prior as int),
    ensures
        anchored(spec_field(mark, mark_label, field, field_label, prior, rest, text), text),
{
    lemma_step_anchored(Char { c: mark }, mark_label, prior, rest, text);
    if let Ok(m) = spec_step(Char { c: mark }, mark_label, prior, rest, text) {
        lemma_step_anchored(field, field_label, m.token.len(), m.rest, text);
    }
}

/// Parses a mark and a field after it on `text`, after the token `prior`
/// has been parsed and `rest` is left.
fn field<'t, P: Parser<'t>>(
    mark: char,
    mark_label: &'static str,
    parser: &P,
    field_label: &'static str,
    prior: &'t str,
    rest: &'t str,
    text: &'t str,
) -> (r: ParseResult<'t, P::Value>)
    requires
        parser.well_formed(),
        prior@.len() <= text@.len(),
        rest@ == text@.skip(prior@.len() as int),
    ensures
        result_view(r) == spec_field(
            mark,
            mark_label@,
            *parser,
            field_label@,
            prior@.len(),
            rest@,
            text@,
        ),
        anchored(result_view(r), text@),
{
    match step(&char(mark), mark_label, prior, rest, text) {
        Err(f) => Err(f),
        Ok(m) => step(parser, field_label, m.token, m.rest, text),
    }
}

////////////////////////////////////////////////////////////////////////////////
// Names
////////////////////////////////////////////////////////////////////////////////

/// True if `c` is one of the five reserved characters.
pub open spec fn spec_is_reserved(c: char) -> bool {
    ||| c == REF_ALL_TOKEN
    ||| c == REF_SEP_TOKEN
    ||| c == REF_POS_SEP_TOKEN
    ||| c == REF_PREFIX_TOKEN
    ||| c == REF_RANGE_TOKEN
}

/// The property of being a character that may stand in a name.
pub struct NameChar;

impl CharPredicate for NameChar {
    open spec fn spec_accepts(&self, c: char) -> bool {
        !spec_is_reserved(c)
    }

    fn accepts(&self, c: char) -> (b: bool) {
        !(c == REF_ALL_TOKEN || c == REF_SEP_TOKEN || c == REF_POS_SEP_TOKEN || c
            == REF_PREFIX_TOKEN || c == REF_RANGE_TOKEN)
    }
}

/// A parser of the characters of a name.
pub type NameChars = Intersperse<CharMatching<NameChar>, Null>;

/// The parser of the characters of a name.
pub open spec fn spec_name_chars() -> NameChars {
    Intersperse { low: 1, high: None, parser: CharMatching { f: NameChar }, inner_parser: Null }
}

/// The result of parsing a name: the longest run of characters that are not
/// reserved. The value is the run without the whitespace at its start and
/// at its end, which must leave at least one character.
pub open spec fn spec_name(text: Seq<char>) -> ResultView<Seq<char>> {
    match spec_source_for(spec_name_chars().spec_parse(text), "cell ref name"@) {
        Err(f) => Err(f),
        Ok(run) => if spec_trim(run.token).len() == 0 {
            Err(
                FailureView {
                    context: run.token,
                    expected: "cell ref name"@,
                    source: None,
                    rest: text,
                },
            )
        } else {
            Ok(run.with_value(spec_trim(run.token)))
        },
    }
}

/// Parses a name.
pub fn name<'t>(text: &'t str) -> (r: ParseResult<'t, &'t str>)
    ensures
        result_view(r) == spec_name(text@),
{
    let run = match repeat(1, None, char_matching(NameChar)).parse(text).source_for(
        Text::Borrowed("cell ref name"),
    ) {
        Ok(s) => s,
        Err(f) => {
            return Err(f);
        },
    };
    let value = trim(run.token);
    if char_len(value) == 0 {
        Err(
            Failure {
                context: run.token,
                expected: Text::Borrowed("cell ref name"),
                source: None,
                rest: text,
            },
        )
    } else {
        Ok(Success { value, token: run.token, rest: run.rest })
    }
}

/// The parser of a name.
pub struct NameRule;

impl<'t> Parser<'t> for NameRule {
    type Value = &'t str;

    open spec fn well_formed(&self) -> bool {
        true
    }

    open spec fn spec_parse(&self, text: Seq<char>) -> ResultView<Seq<char>> {
        spec_name(text)
    }

    proof fn lemma_anchored(&self, text: Seq<char>) {
        spec_name_chars().lemma_anchored(text);
    }

    fn parse(&self, text: &'t str) -> (r: ParseResult<'t, &'t str>) {
        name(text)
    }
}

////////////////////////////////////////////////////////////////////////////////
// Indices and positions
////////////////////////////////////////////////////////////////////////////////

/// The parser of a `u32`.
pub open spec fn spec_u32() -> Uint<u32> {
    Uint { int_type: "u32", marker: core::marker::PhantomData }
}

/// The parser of a `u16`.
pub open spec fn spec_u16() -> Uint<u16> {
    Uint { int_type: "u16", marker: core::marker::PhantomData }
}

/// The result of parsing an index: `:` and a `u32`.
pub open spec fn spec_index(text: Seq<char>) -> ResultView<u32> {
    spec_source_for(
        (Prefix { parser: spec_u32(), prefix_parser: Char { c: REF_PREFIX_TOKEN } }).spec_parse(
            text,
        ),
        "cell ref index"@,
    )
}

/// Parses an index.
pub fn index<'t>(text: &'t str) -> (r: ParseResult<'t, u32>)
    ensures
        result_view(r) == spec_index(text@),
{
    prefix(uint::<u32>("u32"), char(REF_PREFIX_TOKEN)).parse(text).source_for(
        Text::Borrowed("cell ref index"),
    )
}

/// The parser of an index.
pub struct IndexRule;

impl<'t> Parser<'t> for IndexRule {
    type Value = u32;

    open spec fn well_formed(&self) -> bool {
        true
    }

    open spec fn spec_parse(&self, text: Seq<char>) -> ResultView<u32> {
        spec_index(text)
    }

    proof fn lemma_anchored(&self, text: Seq<char>) {
        (Prefix {
            parser: spec_u32(),
            prefix_parser: Char { c: REF_PREFIX_TOKEN },
        }).lemma_anchored(text);
    }

    fn parse(&self, text: &'t str) -> (r: ParseResult<'t, u32>) {
        index(text)
    }
}

/// The result of the three fields of a position on `text`, for a given
/// parser of a field and given labels: `:` and the page, `.` and the line,
/// `.` and the column. The value holds the three fields in this order.
pub open spec fn spec_fields<'t, P: Parser<'t>>(
    field: P,
    labels: Seq<Seq<char>>,
    text: Seq<char>,
) -> ResultView<
    (<P::Value as DeepView>::V, <P::Value as DeepView>::V, <P::Value as DeepView>::V),
> {
    match spec_field(REF_PREFIX_TOKEN, labels[0], field, labels[1], 0, text, text) {
        Err(f) => Err(f),
        Ok(page) => match spec_field(
            REF_POS_SEP_TOKEN,
            labels[2],
            field,
            labels[3],
            page.token.len(),
            page.rest,
            text,
        ) {
            Err(f) => Err(f),
            Ok(line) => match spec_field(
                REF_POS_SEP_TOKEN,
                labels[2],
                field,
                labels[4],
                line.token.len(),
                line.rest,
                text,
            ) {
                Err(f) => Err(f),
                Ok(column) => Ok(column.with_value((page.value, line.value, column.value))),
            },
        },
    }
}

/// The three fields of a position are anchored.
pub proof fn lemma_fields_anchored<'t, P: Parser<'t>>(
    field: P,
    labels: Seq<Seq<char>>,
    text: Seq<char>,
)
    requires
        field.well_formed(),
    ensures
        anchored(spec_fields(field, labels, text), text),
{
    assert(text =~= text.skip(0));
    lemma_field_anchored(REF_PREFIX_TOKEN, labels[0], field, labels[1], 0, text, text);
    if let Ok(page) = spec_field(REF_PREFIX_TOKEN, labels[0], field, labels[1], 0, text, text) {
        lemma_field_anchored(
            REF_POS_SEP_TOKEN,
            labels[2],
            field,
            labels[3],
            page.token.len(),
            page.rest,
            text,
        );
        if let Ok(line) = spec_field(
            REF_POS_SEP_TOKEN,
            labels[2],
            field,
            labels[3],
            page.token.len(),
            page.rest,
            text,
        ) {
            lemma_field_anchored(
                REF_POS_SEP_TOKEN,
                labels[2],
                field,
                labels[4],
                line.token.len(),
                line.rest,
                text,
            );
        }
    }
}

/// The labels of the parts of a position: the prefix, the page, the
/// separator, the line and the column.
pub open spec fn spec_position_labels() -> Seq<Seq<char>> {
    seq![
        "cell ref position prefix"@,
        "cell ref position page"@,
        "cell ref position separator"@,
        "cell ref position line"@,
        "cell ref position column"@,
    ]
}

/// The labels of the parts of a position selector: the prefix, the page,
/// the separator, the line and the column.
pub open spec fn spec_position_selector_labels() -> Seq<Seq<char>> {
    seq![
        "cell ref position selector prefix"@,
        "cell ref position selector page"@,
        "cell ref position selector separator"@,
        "cell ref position selector line"@,
        "cell ref position selector column"@,
    ]
}

/// The result of parsing a position: `:`, the page, `.`, the line, `.` and
/// the column, each of the three a `u16`.
pub open spec fn spec_position(text: Seq<char>) -> ResultView<Position> {
    match spec_fields(spec_u16(), spec_position_labels(), text) {
        Err(f) => Err(f),
        Ok(s) => Ok(
            s.with_value(Position { page: s.value.0, line: s.value.1, column: s.value.2 }),
        ),
    }
}

/// Parses a Position.
pub fn position<'t>(text: &'t str) -> (r: ParseResult<'t, Position>)
    ensures
        result_view(r) == spec_position(text@),
{
    let field_parser = uint::<u16>("u16");
    proof {
        assert(text@ =~= text@.skip(0));
    }
    let page = match field(
        REF_PREFIX_TOKEN,
        "cell ref position prefix",
        &field_parser,
        "cell ref position page",
        take(text, 0),
        text,
        text,
    ) {
        Ok(s) => s,
        Err(f) => {
            return Err(f);
        },
    };
    let line = match field(
        REF_POS_SEP_TOKEN,
        "cell ref position separator",
        &field_parser,
        "cell ref position line",
        page.token,
        page.rest,
        text,
    ) {
        Ok(s) => s,
        Err(f) => {
            return Err(f);
        },
    };
    let column = match field(
        REF_POS_SEP_TOKEN,
        "cell ref position separator",
        &field_parser,
        "cell ref position column",
        line.token,
        line.rest,
        text,
    ) {
        Ok(s) => s,
        Err(f) => {
            return Err(f);
        },
    };
    Ok(
        Success {
            value: Position { page: page.value, line: line.value, column: column.value },
            token: column.token,
            rest: column.rest,
        },
    )
}

/// The parser of a position.
pub struct PositionRule;

impl<'t> Parser<'t> for PositionRule {
    type Value = Position;

    open spec fn well_formed(&self) -> bool {
        true
    }

    open spec fn spec_parse(&self, text: Seq<char>) -> ResultView<Position> {
        spec_position(text)
    }

    proof fn lemma_anchored(&self, text: Seq<char>) {
        lemma_fields_anchored(spec_u16(), spec_position_labels(), text);
    }

    fn parse(&self, text: &'t str) -> (r: ParseResult<'t, Position>) {
        position(text)
    }
}

/// The result of parsing a `u16` or the token for all: the value is the
/// number, or `None` after the token.
pub open spec fn spec_u16_or_all(text: Seq<char>) -> ResultView<Option<u16>> {
    match (Char { c: REF_ALL_TOKEN }).spec_parse(text) {
        Ok(all) => Ok(all.with_value(None)),
        Err(_) => spec_some(spec_u16().spec_parse(text)),
    }
}

/// Parses a u16 or an 'all' selector token. Return Some if a u16 was parsed, or
/// None if 'all' was parsed.
pub fn u16_or_all<'t>(text: &'t str) -> (r: ParseResult<'t, Option<u16>>)
    ensures
        result_view(r) == spec_u16_or_all(text@),
{
    match char(REF_ALL_TOKEN).parse(text) {
        Ok(all_suc) => Ok(Success { value: None, token: all_suc.token, rest: all_suc.rest }),
        Err(_) => match uint::<u16>("u16").parse(text) {
            Ok(s) => Ok(Success { value: Some(s.value), token: s.token, rest: s.rest }),
            Err(f) => Err(f),
        },
    }
}

/// The parser of a `u16` or the token for all.
pub struct U16OrAllRule;

impl<'t> Parser<'t> for U16OrAllRule {
    type Value = Option<u16>;

    open spec fn well_formed(&self) -> bool {
        true
    }

    open spec fn spec_parse(&self, text: Seq<char>) -> ResultView<Option<u16>> {
        spec_u16_or_all(text)
    }

    proof fn lemma_anchored(&self, text: Seq<char>) {
        (Char { c: REF_ALL_TOKEN }).lemma_anchored(text);
        spec_u16().lemma_anchored(text);
    }

    fn parse(&self, text: &'t str) -> (r: ParseResult<'t, Option<u16>>) {
        u16_or_all(text)
    }
}

/// The result of parsing a position selector: `:`, the page, `.`, the line,
/// `.` and the column, each of the three a `u16` or the token for all.
pub open spec fn spec_position_selector(text: Seq<char>) -> ResultView<PositionSelector> {
    match spec_fields(U16OrAllRule, spec_position_selector_labels(), text) {
        Err(f) => Err(f),
        Ok(s) => Ok(
            s.with_value(
                PositionSelector { page: s.value.0, line: s.value.1, column: s.value.2 },
            ),
        ),
    }
}

/// Parses a PositionSelector.
pub fn position_selector<'t>(text: &'t str) -> (r: ParseResult<'t, PositionSelector>)
    ensures
        result_view(r) == spec_position_selector(text@),
{
    proof {
        assert(text@ =~= text@.skip(0));
    }
    let page = match field(
        REF_PREFIX_TOKEN,
        "cell ref position selector prefix",
        &U16OrAllRule,
        "cell ref position selector page",
        take(text, 0),
        text,
        text,
    ) {
        Ok(s) => s,
        Err(f) => {
            return Err(f);
        },
    };
    let line = match field(
        REF_POS_SEP_TOKEN,
        "cell ref position selector separator",
        &U16OrAllRule,
        "cell ref position selector line",
        page.token,
        page.rest,
        text,
    ) {
        Ok(s) => s,
        Err(f) => {
            return Err(f);
        },
    };
    let column = match field(
        REF_POS_SEP_TOKEN,
        "cell ref position selector separator",
        &U16OrAllRule,
        "cell ref position selector column",
        line.token,
        line.rest,
        text,
    ) {
        Ok(s) => s,
        Err(f) => {
            return Err(f);
        },
    };
    Ok(
        Success {
            value: PositionSelector { page: page.value, line: line.value, column: column.value },
            token: column.token,
            rest: column.rest,
        },
    )
}

////////////////////////////////////////////////////////////////////////////////
// Groups
////////////////////////////////////////////////////////////////////////////////

/// The result of parsing a group name with its index: a name, and an index
/// right after it.
pub open spec fn spec_group(text: Seq<char>) -> ResultView<(Seq<char>, u32)> {
    match spec_source_for(spec_name(text), "cell ref group name"@) {
        Err(f) => Err(f),
        Ok(group) => match spec_step(
            IndexRule,
            "cell ref group index"@,
            group.token.len(),
            group.rest,
            text,
        ) {
            Err(f) => Err(f),
            Ok(idx) => Ok(idx.with_value((group.value, idx.value))),
        },
    }
}

/// A group name with its index is anchored.
pub proof fn lemma_group_anchored(text: Seq<char>)
    ensures
        anchored(spec_group(text), text),
{
    NameRule.lemma_anchored(text);
    if let Ok(group) = spec_source_for(spec_name(text), "cell ref group name"@) {
        lemma_step_anchored(
            IndexRule,
            "cell ref group index"@,
            group.token.len(),
            group.rest,
            text,
        );
    }
}

/// Parses a group name with its index.
pub fn group<'t>(text: &'t str) -> (r: ParseResult<'t, (&'t str, u32)>)
    ensures
        result_view(r) == spec_group(text@),
{
    let name_suc = match name(text).source_for(Text::Borrowed("cell ref group name")) {
        Ok(s) => s,
        Err(f) => {
            return Err(f);
        },
    };
    proof {
        NameRule.lemma_anchored(text@);
    }
    match step(&IndexRule, "cell ref group index", name_suc.token, name_suc.rest, text) {
        Ok(s) => Ok(Success { value: (name_suc.value, s.value), token: s.token, rest: s.rest }),
        Err(f) => Err(f),
    }
}

/// The parser of a group name with its index.
pub struct GroupRule;

impl<'t> Parser<'t> for GroupRule {
    type Value = (&'t str, u32);

    open spec fn well_formed(&self) -> bool {
        true
    }

    open spec fn spec_parse(&self, text: Seq<char>) -> ResultView<(Seq<char>, u32)> {
        spec_group(text)
    }

    proof fn lemma_anchored(&self, text: Seq<char>) {
        lemma_group_anchored(text);
    }

    fn parse(&self, text: &'t str) -> (r: ParseResult<'t, (&'t str, u32)>) {
        group(text)
    }
}

/// A parser of a name with all cells of the group after it.
pub type GroupAll = Postfix<NameRule, Postfix<Char, Char>>;

/// The parser of a name with `:*` after it.
pub open spec fn spec_group_all_parser() -> GroupAll {
    Postfix {
        parser: NameRule,
        postfix_parser: Postfix {
            parser: Char { c: REF_PREFIX_TOKEN },
            postfix_parser: Char { c: REF_ALL_TOKEN },
        },
    }
}

/// The result of parsing a group all selector: a name, and `:*` right after
/// it. The value is the name.
pub open spec fn spec_group_all(text: Seq<char>) -> ResultView<Seq<char>> {
    spec_source_for(spec_group_all_parser().spec_parse(text), "cell ref group all"@)
}

/// Parses a group all selector.
pub fn group_all<'t>(text: &'t str) -> (r: ParseResult<'t, &'t str>)
    ensures
        result_view(r) == spec_group_all(text@),
{
    postfix(NameRule, postfix(char(REF_PREFIX_TOKEN), char(REF_ALL_TOKEN))).parse(
        text,
    ).source_for(Text::Borrowed("cell ref group all"))
}

////////////////////////////////////////////////////////////////////////////////
// Ranges
////////////////////////////////////////////////////////////////////////////////

/// A parser of the separator of a range.
pub type RangeSeparator = Circumfix<Char, Maybe<Whitespace>>;

/// A parser of the separator and upper bound of a range.
pub type RangeSuffix<F> = Prefix<F, RangeSeparator>;

/// The parser of the separator and upper bound of a range, for a given
/// parser of the bound: `-`, with whitespace before and after it as may be,
/// and the bound.
pub open spec fn spec_range_suffix<F>(parser: F) -> RangeSuffix<F> {
    Prefix {
        parser,
        prefix_parser: Circumfix {
            parser: Char { c: REF_RANGE_TOKEN },
            circumfix_parser: Maybe { parser: Whitespace },
        },
    }
}

/// Returns a parser which parses the separator and upper bound of a range using
/// the given parser.
pub fn range_suffix<'t, F: Parser<'t>>(parser: F) -> (p: RangeSuffix<F>)
    ensures
        p == spec_range_suffix(parser),
{
    prefix(parser, circumfix(char(REF_RANGE_TOKEN), maybe(Whitespace)))
}

/// The failure of a range whose bounds make no selector: `token` is the
/// text of the range.
pub open spec fn spec_invalid_range(
    token: Seq<char>,
    expected: Seq<char>,
    error: InvalidCellSelectorView,
    text: Seq<char>,
) -> FailureView {
    FailureView {
        context: token,
        expected,
        source: Some(SourceView::InvalidSelector(error)),
        rest: text,
    }
}

/// The result of a lower bound with the range suffix that was parsed after
/// it: the selector that the two bounds make, or a failure with the reason
/// why they make none as its source.
pub open spec fn spec_range<V, U>(
    low: SuccessView<V>,
    high: SuccessView<U>,
    range: Result<CellSelectorView, InvalidCellSelectorView>,
    expected: Seq<char>,
    text: Seq<char>,
) -> ResultView<CellSelectorView> {
    let joined = high.join_previous(low.token.len(), text);
    match range {
        Ok(selector) => Ok(joined.with_value(selector)),
        Err(error) => Err(spec_invalid_range(joined.token, expected, error, text)),
    }
}

/// Returns the result of a lower bound with the range suffix that was
/// parsed after it.
fn range<'t>(
    low: &'t str,
    high: &'t str,
    rest: &'t str,
    made: Result<CellSelector<'t>, InvalidCellSelector>,
    expected: &'static str,
    text: &'t str,
) -> (r: ParseResult<'t, CellSelector<'t>>)
    requires
        low@.len() + high@.len() <= text@.len(),
    ensures
        result_view(r) == spec_range(
            SuccessView { value: (), token: low@, rest: Seq::empty() },
            SuccessView { value: (), token: high@, rest: rest@ },
            range_view(made),
            expected@,
            text@,
        ),
{
    // The text is no shorter than the tokens, and its length is a `usize`.
    let _ = char_len(text);
    let token = take(text, char_len(low) + char_len(high));
    match made {
        Ok(selector) => Ok(Success { value: selector, token, rest }),
        Err(error) => Err(
            Failure {
                context: token,
                expected: Text::Borrowed(expected),
                source: Some(Box::new(FailureSource::InvalidSelector(error))),
                rest: text,
            },
        ),
    }
}

////////////////////////////////////////////////////////////////////////////////
// Parse cell refs.
////////////////////////////////////////////////////////////////////////////////

/// The result of parsing a cell reference: a position, or else an index, or
/// else a group name with its index, or else a name.
pub open spec fn spec_cell_ref(text: Seq<char>) -> ResultView<CellRefView> {
    if let Ok(pos) = spec_position(text) {
        Ok(pos.with_value(CellRefView::Position(pos.value)))
    } else if let Ok(idx) = spec_index(text) {
        Ok(idx.with_value(CellRefView::Index(idx.value)))
    } else if let Ok(group) = spec_group(text) {
        Ok(group.with_value(CellRefView::Group { group: group.value.0, idx: group.value.1 }))
    } else {
        match spec_source_for(spec_name(text), "cell ref value"@) {
            Ok(name) => Ok(name.with_value(CellRefView::Name(name.value))),
            Err(f) => Err(f),
        }
    }
}

/// Parses a CellRef.
pub fn cell_ref<'t>(text: &'t str) -> (r: ParseResult<'t, CellRef<'t>>)
    ensures
        result_view(r) == spec_cell_ref(text@),
{
    if let Ok(pos_suc) = position(text) {
        Ok(
            Success {
                value: CellRef::Position(pos_suc.value),
                token: pos_suc.token,
                rest: pos_suc.rest,
            },
        )
    } else if let Ok(idx_suc) = index(text) {
        Ok(
            Success {
                value: CellRef::Index(idx_suc.value),
                token: idx_suc.token,
                rest: idx_suc.rest,
            },
        )
    } else if let Ok(group_suc) = group(text) {
        Ok(
            Success {
                value: CellRef::Group {
                    group: Text::Borrowed(group_suc.value.0),
                    idx: group_suc.value.1,
                },
                token: group_suc.token,
                rest: group_suc.rest,
            },
        )
    } else {
        match name(text).source_for(Text::Borrowed("cell ref value")) {
            Ok(s) => Ok(
                Success {
                    value: CellRef::Name(Text::Borrowed(s.value)),
                    token: s.token,
                    rest: s.rest,
                },
            ),
            Err(f) => Err(f),
        }
    }
}

////////////////////////////////////////////////////////////////////////////////
// Parse cell selectors.
////////////////////////////////////////////////////////////////////////////////

/// The selector that starts with a position: the position is the lower
/// bound of a range if a range suffix with a position follows, and else
/// stands for itself.
pub open spec fn spec_position_or_range(pos: SuccessView<Position>, text: Seq<char>)
    -> ResultView<CellSelectorView> {
    match spec_range_suffix(PositionRule).spec_parse(pos.rest) {
        Ok(ub) => spec_range(
            pos,
            ub,
            spec_position_range(pos.value, ub.value),
            "valid position range"@,
            text,
        ),
        Err(_) => Ok(
            pos.with_value(
                CellSelectorView::PositionSelector(PositionSelector::spec_from(pos.value)),
            ),
        ),
    }
}

/// The selector that starts with an index: the index is the lower bound of
/// a range if a range suffix with an index follows, and else stands for
/// itself.
pub open spec fn spec_index_or_range(idx: SuccessView<u32>, text: Seq<char>) -> ResultView<
    CellSelectorView,
> {
    match spec_range_suffix(IndexRule).spec_parse(idx.rest) {
        Ok(ub) => spec_range(
            idx,
            ub,
            spec_index_range(idx.value, ub.value),
            "valid index range"@,
            text,
        ),
        Err(_) => Ok(idx.with_value(CellSelectorView::Index(idx.value))),
    }
}

/// The selector that starts with a group name and its index: the two are
/// the lower bound of a range if a range suffix with a group name and its
/// index follows, and else stand for themselves.
pub open spec fn spec_group_or_range(group: SuccessView<(Seq<char>, u32)>, text: Seq<char>)
    -> ResultView<CellSelectorView> {
    match spec_range_suffix(GroupRule).spec_parse(group.rest) {
        Ok(ub) => spec_range(
            group,
            ub,
            spec_group_range(group.value.0, group.value.1, ub.value.0, ub.value.1),
            "valid group range"@,
            text,
        ),
        Err(_) => Ok(
            group.with_value(CellSelectorView::Group { group: group.value.0, idx: group.value.1 }),
        ),
    }
}

/// The result of parsing a cell selector. The alternatives are attempted in
/// this order, and the first that succeeds decides:
///
/// - the token for all;
/// - a position, alone or as the lower bound of a range;
/// - a position selector;
/// - an index, alone or as the lower bound of a range;
/// - a group all selector;
/// - a group name with its index, alone or as the lower bound of a range;
/// - a name.
///
/// A range whose bounds make no selector fails the parse.
pub open spec fn spec_cell_selector(text: Seq<char>) -> ResultView<CellSelectorView> {
    if let Ok(all) = (Char { c: REF_ALL_TOKEN }).spec_parse(text) {
        Ok(all.with_value(CellSelectorView::All))
    } else if let Ok(pos) = spec_position(text) {
        spec_position_or_range(pos, text)
    } else if let Ok(pos_sel) = spec_position_selector(text) {
        Ok(pos_sel.with_value(CellSelectorView::PositionSelector(pos_sel.value)))
    } else if let Ok(idx) = spec_index(text) {
        spec_index_or_range(idx, text)
    } else if let Ok(group_all) = spec_group_all(text) {
        Ok(group_all.with_value(CellSelectorView::GroupAll(group_all.value)))
    } else if let Ok(group) = spec_group(text) {
        spec_group_or_range(group, text)
    } else {
        match spec_source_for(spec_name(text), "cell selector value"@) {
            Ok(name) => Ok(name.with_value(CellSelectorView::Name(name.value))),
            Err(f) => Err(f),
        }
    }
}

/// A lower bound with a range suffix after it is anchored.
pub proof fn lemma_range_anchored<'t, F: Parser<'t>, V>(
    parser: F,
    low: SuccessView<V>,
    range: Result<CellSelectorView, InvalidCellSelectorView>,
    expected: Seq<char>,
    text: Seq<char>,
)
    requires
        parser.well_formed(),
        low.anchored(text),
        spec_range_suffix(parser).spec_parse(low.rest) is Ok,
    ensures
        anchored(
            spec_range(
                low,
                spec_range_suffix(parser).spec_parse(low.rest)->Ok_0,
                range,
                expected,
                text,
            ),
            text,
        ),
        low.token.len() + spec_range_suffix(parser).spec_parse(low.rest)->Ok_0.token.len()
            <= text.len(),
{
    spec_range_suffix(parser).lemma_anchored(low.rest);
    lemma_spec_join_previous_anchored(low, spec_range_suffix(parser).spec_parse(low.rest), text);
}

/// A cell selector is anchored.
pub proof fn lemma_cell_selector_anchored(text: Seq<char>)
    ensures
        anchored(spec_cell_selector(text), text),
{
    (Char { c: REF_ALL_TOKEN }).lemma_anchored(text);
    PositionRule.lemma_anchored(text);
    lemma_fields_anchored(U16OrAllRule, spec_position_selector_labels(), text);
    IndexRule.lemma_anchored(text);
    spec_group_all_parser().lemma_anchored(text);
    GroupRule.lemma_anchored(text);
    NameRule.lemma_anchored(text);
    if let Ok(all) = (Char { c: REF_ALL_TOKEN }).spec_parse(text) {
    } else if let Ok(pos) = spec_position(text) {
        if let Ok(ub) = spec_range_suffix(PositionRule).spec_parse(pos.rest) {
            lemma_range_anchored(
                PositionRule,
                pos,
                spec_position_range(pos.value, ub.value),
                "valid position range"@,
                text,
            );
        }
    } else if let Ok(pos_sel) = spec_position_selector(text) {
    } else if let Ok(idx) = spec_index(text) {
        if let Ok(ub) = spec_range_suffix(IndexRule).spec_parse(idx.rest) {
            lemma_range_anchored(
                IndexRule,
                idx,
                spec_index_range(idx.value, ub.value),
                "valid index range"@,
                text,
            );
        }
    } else if let Ok(group_all) = spec_group_all(text) {
    } else if let Ok(group) = spec_group(text) {
        if let Ok(ub) = spec_range_suffix(GroupRule).spec_parse(group.rest) {
            lemma_range_anchored(
                GroupRule,
                group,
                spec_group_range(group.value.0, group.value.1, ub.value.0, ub.value.1),
                "valid group range"@,
                text,
            );
        }
    }
}

/// Returns the selector that starts with the position that was parsed.
fn position_or_range<'t>(pos_suc: Success<'t, Position>, text: &'t str) -> (r: ParseResult<
    't,
    CellSelector<'t>,
>)
    requires
        pos_suc.deep_view().anchored(text@),
    ensures
        result_view(r) == spec_position_or_range(pos_suc.deep_view(), text@),
{
    match range_suffix(PositionRule).parse(pos_suc.rest) {
        Ok(ub_suc) => {
            proof {
                lemma_range_anchored(
                    PositionRule,
                    pos_suc.deep_view(),
                    spec_position_range(pos_suc.value, ub_suc.value),
                    "valid position range"@,
                    text@,
                );
            }
            range(
                pos_suc.token,
                ub_suc.token,
                ub_suc.rest,
                CellSelector::position_range(pos_suc.value, ub_suc.value),
                "valid position range",
                text,
            )
        },
        Err(_) => Ok(
            Success {
                value: CellSelector::PositionSelector(PositionSelector::from(pos_suc.value)),
                token: pos_suc.token,
                rest: pos_suc.rest,
            },
        ),
    }
}

/// Returns the selector that starts with the index that was parsed.
fn index_or_range<'t>(index_suc: Success<'t, u32>, text: &'t str) -> (r: ParseResult<
    't,
    CellSelector<'t>,
>)
    requires
        index_suc.deep_view().anchored(text@),
    ensures
        result_view(r) == spec_index_or_range(index_suc.deep_view(), text@),
{
    match range_suffix(IndexRule).parse(index_suc.rest) {
        Ok(ub_suc) => {
            proof {
                lemma_range_anchored(
                    IndexRule,
                    index_suc.deep_view(),
                    spec_index_range(index_suc.value, ub_suc.value),
                    "valid index range"@,
                    text@,
                );
            }
            range(
                index_suc.token,
                ub_suc.token,
                ub_suc.rest,
                CellSelector::index_range(index_suc.value, ub_suc.value),
                "valid index range",
                text,
            )
        },
        Err(_) => Ok(
            Success {
                value: CellSelector::Index(index_suc.value),
                token: index_suc.token,
                rest: index_suc.rest,
            },
        ),
    }
}

/// Returns the selector that starts with the group name and index that
/// were parsed.
fn group_or_range<'t>(group_suc: Success<'t, (&'t str, u32)>, text: &'t str) -> (r: ParseResult<
    't,
    CellSelector<'t>,
>)
    requires
        group_suc.deep_view().anchored(text@),
    ensures
        result_view(r) == spec_group_or_range(group_suc.deep_view(), text@),
{
    match range_suffix(GroupRule).parse(group_suc.rest) {
        Ok(ub_suc) => {
            proof {
                lemma_range_anchored(
                    GroupRule,
                    group_suc.deep_view(),
                    spec_group_range(
                        group_suc.value.0@,
                        group_suc.value.1,
                        ub_suc.value.0@,
                        ub_suc.value.1,
                    ),
                    "valid group range"@,
                    text@,
                );
            }
            range(
                group_suc.token,
                ub_suc.token,
                ub_suc.rest,
                CellSelector::group_range(
                    Text::Borrowed(group_suc.value.0),
                    group_suc.value.1,
                    Text::Borrowed(ub_suc.value.0),
                    ub_suc.value.1,
                ),
                "valid group range",
                text,
            )
        },
        Err(_) => Ok(
            Success {
                value: CellSelector::Group {
                    group: Text::Borrowed(group_suc.value.0),
                    idx: group_suc.value.1,
                },
                token: group_suc.token,
                rest: group_suc.rest,
            },
        ),
    }
}

/// Parses a CellSelector.
pub fn cell_selector<'t>(text: &'t str) -> (r: ParseResult<'t, CellSelector<'t>>)
    ensures
        result_view(r) == spec_cell_selector(text@),
        r matches Ok(s) ==> s.value.deep_view().valid(),
{
    if let Ok(all_suc) = char(REF_ALL_TOKEN).parse(text) {
        Ok(Success { value: CellSelector::All, token: all_suc.token, rest: all_suc.rest })
    } else if let Ok(pos_suc) = position(text) {
        proof {
            PositionRule.lemma_anchored(text@);
        }
        position_or_range(pos_suc, text)
    } else if let Ok(pos_sel_suc) = position_selector(text) {
        Ok(
            Success {
                value: CellSelector::PositionSelector(pos_sel_suc.value),
                token: pos_sel_suc.token,
                rest: pos_sel_suc.rest,
            },
        )
    } else if let Ok(index_suc) = index(text) {
        proof {
            IndexRule.lemma_anchored(text@);
        }
        index_or_range(index_suc, text)
    } else if let Ok(group_all_suc) = group_all(text) {
        Ok(
            Success {
                value: CellSelector::GroupAll(Text::Borrowed(group_all_suc.value)),
                token: group_all_suc.token,
                rest: group_all_suc.rest,
            },
        )
    } else if let Ok(group_suc) = group(text) {
        proof {
            GroupRule.lemma_anchored(text@);
        }
        group_or_range(group_suc, text)
    } else {
        match name(text).source_for(Text::Borrowed("cell selector value")) {
            Ok(s) => Ok(
                Success {
                    value: CellSelector::Name(Text::Borrowed(s.value)),
                    token: s.token,
                    rest: s.rest,
                },
            ),
            Err(f) => Err(f),
        }
    }
}

/// The parser of a cell selector.
pub struct CellSelectorRule;

impl<'t> Parser<'t> for CellSelectorRule {
    type Value = CellSelector<'t>;

    open spec fn well_formed(&self) -> bool {
        true
    }

    open spec fn spec_parse(&self, text: Seq<char>) -> ResultView<CellSelectorView> {
        spec_cell_selector(text)
    }

    proof fn lemma_anchored(&self, text: Seq<char>) {
        lemma_cell_selector_anchored(text);
    }

    fn parse(&self, text: &'t str) -> (r: ParseResult<'t, CellSelector<'t>>) {
        cell_selector(text)
    }
}

////////////////////////////////////////////////////////////////////////////////
// Parse cell selections.
////////////////////////////////////////////////////////////////////////////////

/// A parser of the separator of two cell selectors.
pub type SelectorSeparator = Circumfix<Char, Maybe<Whitespace>>;

/// The parser of one or more cell selectors with `,` between them, and
/// whitespace before and after it as may be.
pub open spec fn spec_cell_selectors() -> IntersperseCollect<CellSelectorRule, SelectorSeparator> {
    IntersperseCollect {
        low: 1,
        high: None,
        parser: CellSelectorRule,
        inner_parser: Circumfix {
            parser: Char { c: REF_SEP_TOKEN },
            circumfix_parser: Maybe { parser: Whitespace },
        },
    }
}

/// The result of parsing a cell selection: one or more cell selectors,
/// separated by `,`, in the order in which they stand in the text.
pub open spec fn spec_cell_selection(text: Seq<char>) -> ResultView<Seq<CellSelectorView>> {
    spec_source_for(spec_cell_selectors().spec_parse(text), "cell selection"@)
}

/// Parses a CellSelection.
pub fn cell_selection<'t>(text: &'t str) -> (r: ParseResult<'t, CellSelection<'t>>)
    ensures
        result_view(r) == spec_cell_selection(text@),
        r matches Ok(s) ==> s.value.valid() && s.value.selectors@.len() >= 1,
{
    proof {
        lemma_cell_selection_valid(text@);
        lemma_cell_selection_count(text@);
    }
    match intersperse_collect(
        1,
        None,
        CellSelectorRule,
        circumfix(char(REF_SEP_TOKEN), maybe(Whitespace)),
    ).parse(text).source_for(Text::Borrowed("cell selection")) {
        Ok(s) => Ok(
            Success { value: CellSelection::from(s.value), token: s.token, rest: s.rest },
        ),
        Err(f) => Err(f),
    }
}

} // verus!
