//! Parsing: results, primitive parsers, combinators and the grammars.

pub mod color;
pub mod combinator;
pub mod laws;
pub mod parser;
pub mod primitive;
pub mod result;
pub mod selection;

pub use self::color::cmyk_functional;
pub use self::color::color;
pub use self::color::expand;
pub use self::color::Functional;
pub use self::color::FUNCTIONAL_CLOSE_BRACKET;
pub use self::color::FUNCTIONAL_OPEN_BRACKET;
pub use self::color::FUNCTIONAL_SEPARATOR;
pub use self::color::HexCode;
pub use self::color::hsl_functional;
pub use self::color::hsv_functional;
pub use self::color::Notation;
pub use self::color::rgb_functional;
pub use self::color::rgb_hex;
pub use self::color::rgb_hex_3;
pub use self::color::rgb_hex_6;
pub use self::color::RGB_HEX_PREFIX;
pub use self::color::xyz_functional;
pub use self::combinator::any_literal_map;
pub use self::combinator::any_literal_map_once;
pub use self::combinator::AnyLiteralMap;
pub use self::combinator::AnyLiteralMapOnce;
pub use self::combinator::Atomic;
pub use self::combinator::atomic;
pub use self::combinator::atomic_ignore_whitespace;
pub use self::combinator::AtomicIgnoreWhitespace;
pub use self::combinator::Bracket;
pub use self::combinator::bracket;
pub use self::combinator::Circumfix;
pub use self::combinator::circumfix;
pub use self::combinator::dynamic_bracket;
pub use self::combinator::DynamicBracket;
pub use self::combinator::Intersperse;
pub use self::combinator::intersperse;
pub use self::combinator::intersperse_collect;
pub use self::combinator::intersperse_collect_until;
pub use self::combinator::intersperse_until;
pub use self::combinator::IntersperseCollect;
pub use self::combinator::IntersperseCollectUntil;
pub use self::combinator::IntersperseUntil;
pub use self::combinator::Literals;
pub use self::combinator::LiteralsIgnoreAsciiCase;
pub use self::combinator::Maybe;
pub use self::combinator::maybe;
pub use self::combinator::Null;
pub use self::combinator::null;
pub use self::combinator::Pair;
pub use self::combinator::pair;
pub use self::combinator::Postfix;
pub use self::combinator::postfix;
pub use self::combinator::Prefix;
pub use self::combinator::prefix;
pub use self::combinator::repeat;
pub use self::combinator::repeat_collect;
pub use self::combinator::repeat_collect_until;
pub use self::combinator::repeat_until;
pub use self::combinator::require_if;
pub use self::combinator::RequireIf;
pub use self::combinator::SameChar;
pub use self::combinator::Tokenize;
pub use self::combinator::tokenize;
pub use self::parser::CharPredicate;
pub use self::parser::DependentParser;
pub use self::parser::Parser;
pub use self::parser::ParserFactory;
pub use self::primitive::AnyChar;
pub use self::primitive::Char;
pub use self::primitive::char;
pub use self::primitive::char_in;
pub use self::primitive::char_matching;
pub use self::primitive::char_whitespace;
pub use self::primitive::CharIn;
pub use self::primitive::CharMatching;
pub use self::primitive::CharWhitespace;
pub use self::primitive::DecimalDigits;
pub use self::primitive::Digit;
pub use self::primitive::Digits;
pub use self::primitive::escaped_string;
pub use self::primitive::EscapedString;
pub use self::primitive::Float;
pub use self::primitive::float;
pub use self::primitive::float_exp;
pub use self::primitive::FLOAT_EXPONENT_MARKS;
pub use self::primitive::FLOAT_SIGNS;
pub use self::primitive::FloatExp;
pub use self::primitive::INT_DIGIT_SEPARATOR;
pub use self::primitive::IsWhitespace;
pub use self::primitive::Literal;
pub use self::primitive::literal;
pub use self::primitive::literal_ignore_ascii_case;
pub use self::primitive::LiteralIgnoreAsciiCase;
pub use self::primitive::Mantissa;
pub use self::primitive::ParseIntegerOverflow;
pub use self::primitive::ParseIntegerOverflowView;
pub use self::primitive::prefix_radix_token;
pub use self::primitive::PrefixRadixToken;
pub use self::primitive::Separators;
pub use self::primitive::Uint;
pub use self::primitive::uint;
pub use self::primitive::uint_digits_value;
pub use self::primitive::uint_value;
pub use self::primitive::UintDigitsValue;
pub use self::primitive::Whitespace;
pub use self::primitive::whitespace;
pub use self::result::Failure;
pub use self::result::FailureOwned;
pub use self::result::FailureOwnedView;
pub use self::result::FailureSource;
pub use self::result::FailureView;
pub use self::result::join_previous;
pub use self::result::ParseResult;
pub use self::result::ParseResultExt;
pub use self::result::ResultView;
pub use self::result::SourceView;
pub use self::result::Success;
pub use self::result::SuccessView;
pub use self::selection::cell_ref;
pub use self::selection::cell_selection;
pub use self::selection::cell_selector;
pub use self::selection::CellSelectorRule;
pub use self::selection::group;
pub use self::selection::group_all;
pub use self::selection::GroupAll;
pub use self::selection::GroupRule;
pub use self::selection::index;
pub use self::selection::IndexRule;
pub use self::selection::name;
pub use self::selection::NameChar;
pub use self::selection::NameChars;
pub use self::selection::NameRule;
pub use self::selection::position;
pub use self::selection::position_selector;
pub use self::selection::PositionRule;
pub use self::selection::range_suffix;
pub use self::selection::RangeSeparator;
pub use self::selection::RangeSuffix;
pub use self::selection::SelectorSeparator;
pub use self::selection::u16_or_all;
pub use self::selection::U16OrAllRule;
