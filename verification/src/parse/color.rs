//! Color parsing.
//!
//! A color is written as an RGB hex code, `#RRGGBB` or `#RGB`, or in
//! functional notation: the name of a color space and its components in
//! parentheses, as in `rgb(1.0, 0.5, 0.0)`.

use crate::color::Cmyk;
use crate::color::CmykView;
use crate::color::Color;
use crate::color::ColorView;
use crate::color::Hsl;
use crate::color::HslView;
use crate::color::Hsv;
use crate::color::HsvView;
use crate::color::Rgb;
use crate::color::RgbView;
use crate::color::Xyz;
use crate::color::XyzView;
use crate::parse::combinator::bracket;
use crate::parse::combinator::circumfix;
use crate::parse::combinator::intersperse_collect;
use crate::parse::combinator::lemma_repetition_count;
use crate::parse::combinator::maybe;
use crate::parse::combinator::postfix;
use crate::parse::combinator::prefix;
use crate::parse::combinator::Bracket;
use crate::parse::combinator::Circumfix;
use crate::parse::combinator::IntersperseCollect;
use crate::parse::combinator::Maybe;
use crate::parse::combinator::Null;
use crate::parse::combinator::Postfix;
use crate::parse::combinator::Prefix;
use crate::parse::primitive::char;
use crate::parse::primitive::float;
use crate::parse::primitive::literal_ignore_ascii_case;
use crate::parse::primitive::uint_digits_value;
use crate::parse::primitive::Char;
use crate::parse::primitive::Float;
use crate::parse::primitive::LiteralIgnoreAsciiCase;
use crate::parse::primitive::UintDigitsValue;
use crate::parse::primitive::Whitespace;
use crate::parse::result::result_view;
use crate::parse::result::Failure;
use crate::parse::result::FailureSource;
use crate::parse::result::FailureView;
use crate::parse::result::ParseResult;
use crate::parse::result::ResultView;
use crate::parse::result::Success;
use crate::text::char_len;
use crate::text::Text;
use crate::parse::parser::Parser;
use vstd::prelude::*;

verus! {

/// The token that starts an RGB hex code.
pub const RGB_HEX_PREFIX: char = '#';

/// The token that separates the components in functional notation.
pub const FUNCTIONAL_SEPARATOR: char = ',';

/// The token that opens the components in functional notation.
pub const FUNCTIONAL_OPEN_BRACKET: char = '(';

/// The token that closes the components in functional notation.
pub const FUNCTIONAL_CLOSE_BRACKET: char = ')';

////////////////////////////////////////////////////////////////////////////////
// rgb_hex
////////////////////////////////////////////////////////////////////////////////

/// A parser of an RGB hex code.
pub type HexCode = Prefix<UintDigitsValue<u32>, Char>;

/// The parser of an RGB hex code with the given number of hex digits.
pub open spec fn spec_hex_code(count: usize) -> HexCode {
    Prefix {
        parser: UintDigitsValue {
            int_type: "u32",
            low: count,
            high: Some(count),
            radix: 16,
            marker: core::marker::PhantomData,
        },
        prefix_parser: Char { c: RGB_HEX_PREFIX },
    }
}

/// Returns the parser of an RGB hex code with the given number of hex
/// digits.
fn hex_code(count: usize) -> (p: HexCode)
    ensures
        p == spec_hex_code(count),
        p.well_formed(),
{
    prefix(uint_digits_value::<u32>("u32", count, Some(count), 16), char(RGB_HEX_PREFIX))
}

/// The result with the value of any success as the number of an RGB hex
/// code.
pub open spec fn spec_hex(r: ResultView<u32>) -> ResultView<RgbView> {
    match r {
        Ok(s) => Ok(s.with_value(RgbView::Hex(s.value))),
        Err(f) => Err(f),
    }
}

/// The result of parsing a 6-digit RGB hex code: `#` and six hex digits,
/// which write the number of the color.
pub open spec fn spec_rgb_hex_6(text: Seq<char>) -> ResultView<RgbView> {
    spec_hex(spec_hex_code(6).spec_parse(text))
}

/// Parses a 6-digit RGB hex code.
pub fn rgb_hex_6<'t>(text: &'t str) -> (r: ParseResult<'t, Rgb<'t>>)
    ensures
        result_view(r) == spec_rgb_hex_6(text@),
{
    match hex_code(6).parse(text) {
        Ok(suc) => Ok(Success { value: Rgb::Hex(suc.value), token: suc.token, rest: suc.rest }),
        Err(f) => Err(f),
    }
}

/// The number `0xRRGGBB` for the number `0xRGB`: each hex digit stands
/// twice.
pub open spec fn spec_expand(v: u32) -> u32 {
    ((v / 0x100 % 0x10) * 0x110000 + (v / 0x10 % 0x10) * 0x1100 + (v % 0x10) * 0x11) as u32
}

/// Returns the number `0xRRGGBB` for the number `0xRGB`.
pub fn expand(v: u32) -> (expanded: u32)
    ensures
        expanded == spec_expand(v),
{
    let mut expanded: u32 = 0;
    expanded |= v & 0x00F;
    expanded |= (v & 0x00F) << 4;
    expanded |= (v & 0x0F0) << 4;
    expanded |= (v & 0x0F0) << 8;
    expanded |= (v & 0xF00) << 8;
    expanded |= (v & 0xF00) << 12;
    assert(((((((0u32 | (v & 0x00F)) | ((v & 0x00F) << 4)) | ((v & 0x0F0) << 4)) | ((v & 0x0F0)
        << 8)) | ((v & 0xF00) << 8)) | ((v & 0xF00) << 12)) == ((v / 0x100 % 0x10) * 0x110000 + (v
        / 0x10 % 0x10) * 0x1100 + (v % 0x10) * 0x11)) by (bit_vector);
    expanded
}

/// The result of parsing a 3-digit RGB hex code: `#` and three hex digits,
/// each of which stands twice in the number of the color.
pub open spec fn spec_rgb_hex_3(text: Seq<char>) -> ResultView<RgbView> {
    match spec_hex_code(3).spec_parse(text) {
        Ok(s) => Ok(s.with_value(RgbView::Hex(spec_expand(s.value)))),
        Err(f) => Err(f),
    }
}

/// Parses a 3-digit RGB hex code.
pub fn rgb_hex_3<'t>(text: &'t str) -> (r: ParseResult<'t, Rgb<'t>>)
    ensures
        result_view(r) == spec_rgb_hex_3(text@),
{
    match hex_code(3).parse(text) {
        Ok(suc) => Ok(
            Success { value: Rgb::Hex(expand(suc.value)), token: suc.token, rest: suc.rest },
        ),
        Err(f) => Err(f),
    }
}

/// The result of parsing an RGB hex code: a 6-digit code, or else a 3-digit
/// code.
pub open spec fn spec_rgb_hex(text: Seq<char>) -> ResultView<RgbView> {
    match spec_rgb_hex_6(text) {
        Ok(s) => Ok(s),
        Err(_) => spec_rgb_hex_3(text),
    }
}

/// Parses an RGB hex code.
pub fn rgb_hex<'t>(text: &'t str) -> (r: ParseResult<'t, Rgb<'t>>)
    ensures
        result_view(r) == spec_rgb_hex(text@),
{
    match rgb_hex_6(text) {
        Ok(s) => Ok(s),
        Err(_) => rgb_hex_3(text),
    }
}

////////////////////////////////////////////////////////////////////////////////
// functional notation
////////////////////////////////////////////////////////////////////////////////

/// A parser of the components of a color in functional notation.
pub type Functional = Bracket<
    IntersperseCollect<Float, Circumfix<Char, Maybe<Whitespace>>>,
    Postfix<Char, Maybe<Whitespace>>,
    Prefix<Char, Maybe<Whitespace>>,
>;

/// A parser of a color in functional notation.
pub type Notation<'e> = Prefix<Functional, LiteralIgnoreAsciiCase<'e>>;

/// The parser of `n` components in functional notation: `(`, then `n`
/// floats with `,` between them, then `)`. Whitespace may stand after `(`,
/// before `)`, and before and after `,`.
pub open spec fn spec_functional(n: usize) -> Functional {
    Bracket {
        parser: IntersperseCollect {
            low: n,
            high: Some(n),
            parser: Float { float_type: "f32" },
            inner_parser: Circumfix {
                parser: Char { c: FUNCTIONAL_SEPARATOR },
                circumfix_parser: Maybe { parser: Whitespace },
            },
        },
        prefix_parser: Postfix {
            parser: Char { c: FUNCTIONAL_OPEN_BRACKET },
            postfix_parser: Maybe { parser: Whitespace },
        },
        postfix_parser: Prefix {
            parser: Char { c: FUNCTIONAL_CLOSE_BRACKET },
            prefix_parser: Maybe { parser: Whitespace },
        },
    }
}

/// Returns a parser which parses a functional suffix with n float parameters.
fn functional(n: usize) -> (p: Functional)
    ensures
        p == spec_functional(n),
        p.well_formed(),
{
    bracket(
        intersperse_collect(
            n,
            Some(n),
            float("f32"),
            circumfix(char(FUNCTIONAL_SEPARATOR), maybe(Whitespace)),
        ),
        postfix(char(FUNCTIONAL_OPEN_BRACKET), maybe(Whitespace)),
        prefix(char(FUNCTIONAL_CLOSE_BRACKET), maybe(Whitespace)),
    )
}

/// The parser of a color in functional notation: the name of the color
/// space, in upper or lower case, and `n` components.
pub open spec fn spec_notation<'e>(name: &'e str, n: usize) -> Notation<'e> {
    Prefix { parser: spec_functional(n), prefix_parser: LiteralIgnoreAsciiCase { expect: name } }
}

/// The components of a color in functional notation are as many as were
/// asked for.
pub proof fn lemma_notation_count<'e>(name: &'e str, n: usize, text: Seq<char>)
    ensures
        spec_notation(name, n).spec_parse(text) matches Ok(s) ==> s.value.len() == n,
{
    if let Ok(s0) = (LiteralIgnoreAsciiCase { expect: name }).spec_parse(text) {
        let open = spec_functional(n).prefix_parser;
        if let Ok(s1) = open.spec_parse(s0.rest) {
            let list = spec_functional(n).parser;
            lemma_repetition_count(
                list.parser,
                list.inner_parser,
                None::<&Null>,
                n,
                Some(n),
                s1.rest,
            );
        }
    }
}

/// Parses a color in functional notation on `text`.
fn notation<'t>(name: &'static str, n: usize, text: &'t str) -> (r: ParseResult<
    't,
    Vec<&'t str>,
>)
    ensures
        result_view(r) == spec_notation(name, n).spec_parse(text@),
        r matches Ok(s) ==> s.value@.len() == n,
{
    proof {
        lemma_notation_count(name, n, text@);
    }
    prefix(functional(n), literal_ignore_ascii_case(name)).parse(text)
}

/// The result of parsing an RGB value from its functional notation.
pub open spec fn spec_rgb_functional(text: Seq<char>) -> ResultView<RgbView> {
    match spec_notation("rgb", 3).spec_parse(text) {
        Ok(s) => Ok(
            s.with_value(RgbView::Ratios { r: s.value[0], g: s.value[1], b: s.value[2] }),
        ),
        Err(f) => Err(f),
    }
}

/// Parses an RGB value from its functional notation.
pub fn rgb_functional<'t>(text: &'t str) -> (r: ParseResult<'t, Rgb<'t>>)
    ensures
        result_view(r) == spec_rgb_functional(text@),
{
    match notation("rgb", 3, text) {
        Ok(suc) => Ok(
            Success {
                value: Rgb::Ratios { r: suc.value[0], g: suc.value[1], b: suc.value[2] },
                token: suc.token,
                rest: suc.rest,
            },
        ),
        Err(f) => Err(f),
    }
}

/// The result of parsing an HSV value from its functional notation.
pub open spec fn spec_hsv_functional(text: Seq<char>) -> ResultView<HsvView> {
    match spec_notation("hsv", 3).spec_parse(text) {
        Ok(s) => Ok(s.with_value(HsvView { h: s.value[0], s: s.value[1], v: s.value[2] })),
        Err(f) => Err(f),
    }
}

/// Parses an HSV value from its functional notation.
pub fn hsv_functional<'t>(text: &'t str) -> (r: ParseResult<'t, Hsv<'t>>)
    ensures
        result_view(r) == spec_hsv_functional(text@),
{
    match notation("hsv", 3, text) {
        Ok(suc) => Ok(
            Success {
                value: Hsv { h: suc.value[0], s: suc.value[1], v: suc.value[2] },
                token: suc.token,
                rest: suc.rest,
            },
        ),
        Err(f) => Err(f),
    }
}

/// The result of parsing an HSL value from its functional notation.
pub open spec fn spec_hsl_functional(text: Seq<char>) -> ResultView<HslView> {
    match spec_notation("hsl", 3).spec_parse(text) {
        Ok(s) => Ok(s.with_value(HslView { h: s.value[0], s: s.value[1], l: s.value[2] })),
        Err(f) => Err(f),
    }
}

/// Parses an HSL value from its functional notation.
pub fn hsl_functional<'t>(text: &'t str) -> (r: ParseResult<'t, Hsl<'t>>)
    ensures
        result_view(r) == spec_hsl_functional(text@),
{
    match notation("hsl", 3, text) {
        Ok(suc) => Ok(
            Success {
                value: Hsl { h: suc.value[0], s: suc.value[1], l: suc.value[2] },
                token: suc.token,
                rest: suc.rest,
            },
        ),
        Err(f) => Err(f),
    }
}

/// The result of parsing a CMYK value from its functional notation.
pub open spec fn spec_cmyk_functional(text: Seq<char>) -> ResultView<CmykView> {
    match spec_notation("cmyk", 4).spec_parse(text) {
        Ok(s) => Ok(
            s.with_value(
                CmykView { c: s.value[0], m: s.value[1], y: s.value[2], k: s.value[3] },
            ),
        ),
        Err(f) => Err(f),
    }
}

/// Parses a CMYK value from its functional notation.
pub fn cmyk_functional<'t>(text: &'t str) -> (r: ParseResult<'t, Cmyk<'t>>)
    ensures
        result_view(r) == spec_cmyk_functional(text@),
{
    match notation("cmyk", 4, text) {
        Ok(suc) => Ok(
            Success {
                value: Cmyk {
                    c: suc.value[0],
                    m: suc.value[1],
                    y: suc.value[2],
                    k: suc.value[3],
                },
                token: suc.token,
                rest: suc.rest,
            },
        ),
        Err(f) => Err(f),
    }
}

/// The result of parsing an XYZ value from its functional notation.
pub open spec fn spec_xyz_functional(text: Seq<char>) -> ResultView<XyzView> {
    match spec_notation("xyz", 3).spec_parse(text) {
        Ok(s) => Ok(s.with_value(XyzView { x: s.value[0], y: s.value[1], z: s.value[2] })),
        Err(f) => Err(f),
    }
}

/// Parses an XYZ value from its functional notation.
pub fn xyz_functional<'t>(text: &'t str) -> (r: ParseResult<'t, Xyz<'t>>)
    ensures
        result_view(r) == spec_xyz_functional(text@),
{
    match notation("xyz", 3, text) {
        Ok(suc) => Ok(
            Success {
                value: Xyz { x: suc.value[0], y: suc.value[1], z: suc.value[2] },
                token: suc.token,
                rest: suc.rest,
            },
        ),
        Err(f) => Err(f),
    }
}

////////////////////////////////////////////////////////////////////////////////
// Color
////////////////////////////////////////////////////////////////////////////////

/// Of two failures the later one if its context is longer, and else the
/// earlier one.
pub open spec fn spec_longest(earlier: FailureView, later: FailureView) -> FailureView {
    if later.context.len() > earlier.context.len() {
        later
    } else {
        earlier
    }
}

/// Returns of two failures the later one if its context is longer, and
/// else the earlier one.
fn longest<'t>(earlier: Failure<'t>, later: Failure<'t>) -> (r: Failure<'t>)
    ensures
        r.deep_view() == spec_longest(earlier.deep_view(), later.deep_view()),
{
    if char_len(later.context) > char_len(earlier.context) {
        later
    } else {
        earlier
    }
}

/// The failure of a color, given the failures of its notations in the
/// order in which they are attempted: it expects a color value, and its
/// source is the failure with the longest context, the earliest of them if
/// there are several.
pub open spec fn spec_color_failure(
    rgb_hex: FailureView,
    rgb: FailureView,
    cmyk: FailureView,
    hsv: FailureView,
    hsl: FailureView,
    xyz: FailureView,
) -> FailureView {
    spec_longest(
        spec_longest(spec_longest(spec_longest(spec_longest(rgb_hex, rgb), cmyk), hsv), hsl),
        xyz,
    ).source_for("color value"@)
}

/// The result of parsing a color. The notations are attempted in this
/// order, and the first that succeeds decides: an RGB hex code, and then the
/// functional notation of an RGB, a CMYK, an HSV, an HSL and an XYZ value.
pub open spec fn spec_color(text: Seq<char>) -> ResultView<ColorView> {
    match spec_rgb_hex(text) {
        Ok(s) => Ok(s.with_value(ColorView::Rgb(s.value))),
        Err(rgb_hex) => match spec_rgb_functional(text) {
            Ok(s) => Ok(s.with_value(ColorView::Rgb(s.value))),
            Err(rgb) => match spec_cmyk_functional(text) {
                Ok(s) => Ok(s.with_value(ColorView::Cmyk(s.value))),
                Err(cmyk) => match spec_hsv_functional(text) {
                    Ok(s) => Ok(s.with_value(ColorView::Hsv(s.value))),
                    Err(hsv) => match spec_hsl_functional(text) {
                        Ok(s) => Ok(s.with_value(ColorView::Hsl(s.value))),
                        Err(hsl) => match spec_xyz_functional(text) {
                            Ok(s) => Ok(s.with_value(ColorView::Xyz(s.value))),
                            Err(xyz) => Err(
                                spec_color_failure(rgb_hex, rgb, cmyk, hsv, hsl, xyz),
                            ),
                        },
                    },
                },
            },
        },
    }
}

/// Parses a Color.
pub fn color<'t>(text: &'t str) -> (r: ParseResult<'t, Color<'t>>)
    ensures
        result_view(r) == spec_color(text@),
{
    let fail = match rgb_hex(text) {
        Ok(s) => {
            return Ok(Success { value: Color::Rgb(s.value), token: s.token, rest: s.rest });
        },
        Err(f) => f,
    };
    let fail = match rgb_functional(text) {
        Ok(s) => {
            return Ok(Success { value: Color::Rgb(s.value), token: s.token, rest: s.rest });
        },
        Err(f) => longest(fail, f),
    };
    let fail = match cmyk_functional(text) {
        Ok(s) => {
            return Ok(Success { value: Color::Cmyk(s.value), token: s.token, rest: s.rest });
        },
        Err(f) => longest(fail, f),
    };
    let fail = match hsv_functional(text) {
        Ok(s) => {
            return Ok(Success { value: Color::Hsv(s.value), token: s.token, rest: s.rest });
        },
        Err(f) => longest(fail, f),
    };
    let fail = match hsl_functional(text) {
        Ok(s) => {
            return Ok(Success { value: Color::Hsl(s.value), token: s.token, rest: s.rest });
        },
        Err(f) => longest(fail, f),
    };
    let fail = match xyz_functional(text) {
        Ok(s) => {
            return Ok(Success { value: Color::Xyz(s.value), token: s.token, rest: s.rest });
        },
        Err(f) => longest(fail, f),
    };
    let context = fail.context;
    let rest = fail.rest;
    Err(
        Failure {
            context,
            expected: Text::Borrowed("color value"),
            source: Some(Box::new(FailureSource::Parse(fail.to_owned()))),
            rest,
        },
    )
}

} // verus!
