use atma::parse::any_literal_map;
use atma::parse::any_literal_map_once;
use atma::parse::atomic;
use atma::parse::atomic_ignore_whitespace;
use atma::parse::bracket;
use atma::parse::char;
use atma::parse::char_in;
use atma::parse::char_matching;
use atma::parse::circumfix;
use atma::parse::dynamic_bracket;
use atma::parse::intersperse;
use atma::parse::intersperse_collect;
use atma::parse::intersperse_collect_until;
use atma::parse::intersperse_until;
use atma::parse::literal;
use atma::parse::maybe;
use atma::parse::null;
use atma::parse::pair;
use atma::parse::postfix;
use atma::parse::prefix;
use atma::parse::repeat;
use atma::parse::repeat_collect;
use atma::parse::repeat_collect_until;
use atma::parse::repeat_until;
use atma::parse::require_if;
use atma::parse::tokenize;
use atma::parse::uint;
use atma::parse::AnyChar;
use atma::parse::FailureSource;
use atma::parse::Literals;
use atma::parse::LiteralsIgnoreAsciiCase;
use atma::parse::Parser;
use atma::parse::SameChar;
use atma::parse::Whitespace;
use atma::text::Text;

const LETTERS: &'static str = "abcdefghijklmnopqrstuvwxyz";

#[test]
fn null_parses_nothing() {
    let success = null().parse("abc").unwrap();
    assert_eq!(success.token, "");
    assert_eq!(success.rest, "abc");
}

#[test]
fn tokenize_gives_the_token_as_the_value() {
    let success = tokenize(repeat(1, None, char('a'))).parse("aaab").unwrap();
    assert_eq!(success.value, "aaa");
    assert_eq!(success.token, "aaa");
    assert_eq!(success.rest, "b");
    assert!(tokenize(char('a')).parse("b").is_err());
}

#[test]
fn maybe_never_fails() {
    let success = maybe(char('a')).parse("ab").unwrap();
    assert_eq!(success.value, Some('a'));
    assert_eq!(success.token, "a");
    assert_eq!(success.rest, "b");
    let success = maybe(char('a')).parse("b").unwrap();
    assert_eq!(success.value, None);
    assert_eq!(success.token, "");
    assert_eq!(success.rest, "b");
    let success = maybe(literal("abc")).parse("abX").unwrap();
    assert_eq!(success.value, None);
    assert_eq!(success.rest, "abX");
}

#[test]
fn atomic_fails_if_something_was_parsed() {
    let success = atomic(literal("abc")).parse("abcd").unwrap();
    assert_eq!(success.value, Some("abc"));
    assert_eq!(success.rest, "d");
    let success = atomic(literal("abc")).parse("xyz").unwrap();
    assert_eq!(success.value, None);
    assert_eq!(success.token, "");
    assert_eq!(success.rest, "xyz");
    let failure = atomic(literal("abc")).parse("abX").unwrap_err();
    assert_eq!(failure.context, "ab");
    assert_eq!(failure.rest, "abX");
}

#[test]
fn atomic_ignore_whitespace_skips_the_whitespace() {
    let parser = atomic_ignore_whitespace(prefix(char('x'), Whitespace));
    let success = parser.parse("  xy").unwrap();
    assert_eq!(success.value, Some('x'));
    assert_eq!(success.token, "  x");
    assert_eq!(success.rest, "y");
    let success = parser.parse("  y").unwrap();
    assert_eq!(success.value, None);
    assert_eq!(success.token, "  ");
    assert_eq!(success.rest, "y");
    let success = parser.parse("y").unwrap();
    assert_eq!(success.value, None);
    assert_eq!(success.token, "");
    assert_eq!(success.rest, "y");
    let failure = atomic_ignore_whitespace(literal("abc")).parse("abX").unwrap_err();
    assert_eq!(failure.context, "ab");
    assert_eq!(failure.rest, "abX");
}

#[test]
fn require_if_requires_the_parse_on_demand() {
    let required = require_if(Text::Borrowed("a sign"), true, char_in("+-"));
    assert_eq!(required.parse("+1").unwrap().value, Some('+'));
    let failure = required.parse("1").unwrap_err();
    assert_eq!(failure.expected.as_str(), "a sign");
    assert_eq!(failure.rest, "1");
    match failure.source.as_deref() {
        Some(FailureSource::Parse(owned)) => assert_eq!(owned.expected.as_str(), "one of +-"),
        _ => panic!("the source is the failure of the parser"),
    }
    let optional = require_if(Text::Borrowed("a sign"), false, char_in("+-"));
    assert_eq!(optional.parse("+1").unwrap().value, Some('+'));
    let success = optional.parse("1").unwrap();
    assert_eq!(success.value, None);
    assert_eq!(success.rest, "1");
}

#[test]
fn repeat_counts_the_matches_up_to_the_limit() {
    let success = repeat(2, Some(4), char('a')).parse("aaaaaa").unwrap();
    assert_eq!(success.value, 4);
    assert_eq!(success.token, "aaaa");
    assert_eq!(success.rest, "aa");
    let success = repeat(2, Some(4), char('a')).parse("aaab").unwrap();
    assert_eq!(success.value, 3);
    assert_eq!(success.token, "aaa");
    assert_eq!(success.rest, "b");
    let success = repeat(2, None, char('a')).parse("aaaaaab").unwrap();
    assert_eq!(success.value, 6);
    assert_eq!(success.rest, "b");
    let success = repeat(2, Some(2), char('a')).parse("aa").unwrap();
    assert_eq!(success.value, 2);
    assert_eq!(success.rest, "");
}

#[test]
fn repeat_fails_below_the_lower_limit() {
    let failure = repeat(2, Some(4), char('a')).parse("ab").unwrap_err();
    assert_eq!(failure.context, "a");
    assert_eq!(failure.expected.as_str(), "a");
    assert_eq!(failure.rest, "ab");
    let failure = repeat(1, None, char('a')).parse("b").unwrap_err();
    assert_eq!(failure.context, "");
    assert_eq!(failure.rest, "b");
    let failure = repeat(3, None, char('a')).parse("aa").unwrap_err();
    assert_eq!(failure.context, "aa");
    assert_eq!(failure.rest, "aa");
}

#[test]
fn repeat_with_min_of_matches_and_limit_for_many_inputs() {
    let mut k: usize = 0;
    while k <= 6 {
        let mut text = String::new();
        for _ in 0..k {
            text.push('a');
        }
        text.push('b');
        let mut low: usize = 0;
        while low <= 4 {
            let mut high: usize = low;
            while high <= 5 {
                let result = repeat(low, Some(high), char('a')).parse(text.as_str());
                if k >= low {
                    let success = result.unwrap();
                    let taken = if k < high { k } else { high };
                    assert_eq!(success.value, taken);
                    assert_eq!(success.token, &text[..taken]);
                    assert_eq!(success.rest, &text[taken..]);
                } else {
                    let failure = result.unwrap_err();
                    assert_eq!(failure.rest, text.as_str());
                    assert_eq!(failure.context, &text[..k]);
                }
                high += 1;
            }
            let result = repeat(low, None, char('a')).parse(text.as_str());
            if k >= low {
                assert_eq!(result.unwrap().value, k);
            } else {
                assert!(result.is_err());
            }
            low += 1;
        }
        k += 1;
    }
}

#[test]
fn repeat_allows_no_match_with_lower_limit_zero() {
    let success = repeat(0, None, char('a')).parse("bbb").unwrap();
    assert_eq!(success.value, 0);
    assert_eq!(success.token, "");
    assert_eq!(success.rest, "bbb");
    let success = repeat(0, Some(0), char('a')).parse("aaa").unwrap();
    assert_eq!(success.value, 0);
    assert_eq!(success.token, "");
    assert_eq!(success.rest, "aaa");
}

#[test]
fn repeat_takes_the_lower_limit_where_the_upper_is_below_it() {
    let success = repeat(3, Some(2), char('a')).parse("aaaaa").unwrap();
    assert_eq!(success.value, 3);
    assert_eq!(success.rest, "aa");
    assert!(repeat(3, Some(2), char('a')).parse("aab").is_err());
}

#[test]
fn repeat_ends_on_a_match_that_parses_nothing() {
    let success = repeat(0, None, maybe(char('a'))).parse("b").unwrap();
    assert_eq!(success.value, 1);
    assert_eq!(success.token, "");
    assert_eq!(success.rest, "b");
    let success = repeat(0, None, maybe(char('a'))).parse("aab").unwrap();
    assert_eq!(success.value, 3);
    assert_eq!(success.token, "aa");
    assert_eq!(success.rest, "b");
    let success = repeat(3, Some(3), maybe(char('a'))).parse("b").unwrap();
    assert_eq!(success.value, 3);
    assert_eq!(success.rest, "b");
    let success = repeat(3, None, maybe(char('a'))).parse("").unwrap();
    assert_eq!(success.value, 3);
    let success = repeat_collect(0, None, maybe(char('a'))).parse("ab").unwrap();
    assert_eq!(success.value, vec![Some('a'), None]);
}

#[test]
fn repeat_collect_collects_the_values_in_order() {
    let success = repeat_collect(1, None, char_in(LETTERS)).parse("abc1").unwrap();
    assert_eq!(success.value, vec!['a', 'b', 'c']);
    assert_eq!(success.token, "abc");
    assert_eq!(success.rest, "1");
    let success = repeat_collect(0, Some(2), char_in(LETTERS)).parse("abc1").unwrap();
    assert_eq!(success.value, vec!['a', 'b']);
    assert_eq!(success.rest, "c1");
    let success = repeat_collect(0, None, char_in(LETTERS)).parse("1").unwrap();
    assert!(success.value.is_empty());
    assert!(repeat_collect(4, None, char_in(LETTERS)).parse("abc1").is_err());
}

#[test]
fn intersperse_counts_the_matches_between_separators() {
    let success = intersperse(1, None, char_in(LETTERS), char(',')).parse("a,b,c;").unwrap();
    assert_eq!(success.value, 3);
    assert_eq!(success.token, "a,b,c");
    assert_eq!(success.rest, ";");
    let success = intersperse(1, Some(2), char_in(LETTERS), char(',')).parse("a,b,c;").unwrap();
    assert_eq!(success.value, 2);
    assert_eq!(success.token, "a,b");
    assert_eq!(success.rest, ",c;");
}

#[test]
fn intersperse_leaves_a_separator_without_a_match_after_it() {
    let success = intersperse(1, None, char_in(LETTERS), char(',')).parse("a,b,").unwrap();
    assert_eq!(success.value, 2);
    assert_eq!(success.token, "a,b");
    assert_eq!(success.rest, ",");
    let success = intersperse(1, None, char_in(LETTERS), char(',')).parse("a,1").unwrap();
    assert_eq!(success.value, 1);
    assert_eq!(success.rest, ",1");
}

#[test]
fn intersperse_fails_below_the_lower_limit() {
    let failure = intersperse(3, None, char_in(LETTERS), char(',')).parse("a,b;c").unwrap_err();
    assert_eq!(failure.context, "a,b");
    assert_eq!(failure.expected.as_str(), ",");
    assert_eq!(failure.rest, "a,b;c");
    let failure = intersperse(3, None, char_in(LETTERS), char(',')).parse("a,b,1").unwrap_err();
    assert_eq!(failure.context, "a,b,");
    assert_eq!(failure.rest, "a,b,1");
    let failure = intersperse(1, None, char_in(LETTERS), char(',')).parse("1").unwrap_err();
    assert_eq!(failure.context, "");
    assert_eq!(failure.rest, "1");
}

#[test]
fn intersperse_collect_parses_a_list_of_letters() {
    let parser = intersperse_collect(2, None, tokenize(char_in(LETTERS)), char(','));
    let success = parser.parse("a,b,c").unwrap();
    assert_eq!(success.value, vec!["a", "b", "c"]);
    assert_eq!(success.token, "a,b,c");
    assert_eq!(success.rest, "");
}

#[test]
fn intersperse_collect_fails_below_the_lower_limit() {
    let parser = intersperse_collect(2, None, tokenize(char_in(LETTERS)), char(','));
    let failure = parser.parse("a").unwrap_err();
    assert_eq!(failure.context, "a");
    assert_eq!(failure.rest, "a");
    let failure = parser.parse("a,1").unwrap_err();
    assert_eq!(failure.context, "a,");
    assert_eq!(failure.rest, "a,1");
}

#[test]
fn intersperse_collect_parses_numbers_with_whitespace() {
    let parser = intersperse_collect(
        1,
        None,
        uint::<u32>("u32"),
        circumfix(char(','), maybe(Whitespace)),
    );
    let success = parser.parse("1 ,2,  3 , 0x10 ;").unwrap();
    assert_eq!(success.value, vec![1, 2, 3, 16]);
    assert_eq!(success.token, "1 ,2,  3 , 0x10");
    assert_eq!(success.rest, " ;");
}

#[test]
fn repeat_until_ends_at_the_end_token() {
    let success = repeat_collect_until(0, None, char_matching(AnyChar), char(']'))
        .parse("abc]d")
        .unwrap();
    assert_eq!(success.value, vec!['a', 'b', 'c']);
    assert_eq!(success.token, "abc");
    assert_eq!(success.rest, "]d");
    let success = repeat_until(0, None, char_matching(AnyChar), char(']')).parse("abc]d").unwrap();
    assert_eq!(success.value, 3);
    assert_eq!(success.rest, "]d");
    let success = repeat_until(0, None, char_matching(AnyChar), char(']')).parse("]d").unwrap();
    assert_eq!(success.value, 0);
    assert_eq!(success.token, "");
    assert_eq!(success.rest, "]d");
}

#[test]
fn repeat_until_ends_at_the_end_token_below_the_lower_limit() {
    let success = repeat_until(5, None, char('a'), char(';')).parse("aa;").unwrap();
    assert_eq!(success.value, 2);
    assert_eq!(success.token, "aa");
    assert_eq!(success.rest, ";");
    let failure = repeat_until(5, None, char('a'), char(';')).parse("aab").unwrap_err();
    assert_eq!(failure.context, "aa");
    assert_eq!(failure.rest, "aab");
    let success = repeat_until(5, None, char('a'), char(';')).parse(";").unwrap();
    assert_eq!(success.value, 0);
}

#[test]
fn repeat_until_stops_at_the_upper_limit() {
    let success = repeat_collect_until(0, Some(2), char('a'), char(';')).parse("aaa;").unwrap();
    assert_eq!(success.value, vec!['a', 'a']);
    assert_eq!(success.rest, "a;");
}

#[test]
fn intersperse_until_takes_a_separator_before_the_end_token() {
    let parser = intersperse_collect_until(0, None, char_in(LETTERS), char(','), char(']'));
    let success = parser.parse("a,b,]").unwrap();
    assert_eq!(success.value, vec!['a', 'b']);
    assert_eq!(success.token, "a,b,");
    assert_eq!(success.rest, "]");
    let success = parser.parse("a,b]").unwrap();
    assert_eq!(success.value, vec!['a', 'b']);
    assert_eq!(success.token, "a,b");
    assert_eq!(success.rest, "]");
    let success = parser.parse("a,b,1]").unwrap();
    assert_eq!(success.value, vec!['a', 'b']);
    assert_eq!(success.token, "a,b");
    assert_eq!(success.rest, ",1]");
    let parser = intersperse_until(0, None, char_in(LETTERS), char(','), char(']'));
    let success = parser.parse("a,b,]").unwrap();
    assert_eq!(success.value, 2);
    assert_eq!(success.token, "a,b,");
    let success = parser.parse("]").unwrap();
    assert_eq!(success.value, 0);
    assert_eq!(success.rest, "]");
}

#[test]
fn pair_keeps_both_values() {
    let success = pair(char('a'), uint::<u8>("u8")).parse("a12b").unwrap();
    assert_eq!(success.value, ('a', 12));
    assert_eq!(success.token, "a12");
    assert_eq!(success.rest, "b");
    let failure = pair(char('a'), char('b')).parse("ac").unwrap_err();
    assert_eq!(failure.context, "a");
    assert_eq!(failure.expected.as_str(), "b");
    assert_eq!(failure.rest, "ac");
    let failure = pair(char('a'), char('b')).parse("xb").unwrap_err();
    assert_eq!(failure.context, "");
    assert_eq!(failure.expected.as_str(), "a");
    assert_eq!(failure.rest, "xb");
}

#[test]
fn prefix_and_postfix_keep_one_value() {
    let success = prefix(uint::<u8>("u8"), char('#')).parse("#12b").unwrap();
    assert_eq!(success.value, 12);
    assert_eq!(success.token, "#12");
    assert_eq!(success.rest, "b");
    let failure = prefix(uint::<u8>("u8"), char('#')).parse("#b").unwrap_err();
    assert_eq!(failure.context, "#");
    assert_eq!(failure.rest, "#b");
    let success = postfix(uint::<u8>("u8"), char('%')).parse("12%b").unwrap();
    assert_eq!(success.value, 12);
    assert_eq!(success.token, "12%");
    assert_eq!(success.rest, "b");
    let failure = postfix(uint::<u8>("u8"), char('%')).parse("12b").unwrap_err();
    assert_eq!(failure.context, "12");
    assert_eq!(failure.expected.as_str(), "%");
    assert_eq!(failure.rest, "12b");
}

#[test]
fn circumfix_and_bracket_keep_the_value_in_the_middle() {
    let success = circumfix(char('x'), char('|')).parse("|x|r").unwrap();
    assert_eq!(success.value, 'x');
    assert_eq!(success.token, "|x|");
    assert_eq!(success.rest, "r");
    let failure = circumfix(char('x'), char('|')).parse("|x)").unwrap_err();
    assert_eq!(failure.context, "|x");
    assert_eq!(failure.rest, "|x)");
    let success = bracket(uint::<u8>("u8"), char('('), char(')')).parse("(42)!").unwrap();
    assert_eq!(success.value, 42);
    assert_eq!(success.token, "(42)");
    assert_eq!(success.rest, "!");
    let failure = bracket(uint::<u8>("u8"), char('('), char(')')).parse("(42]").unwrap_err();
    assert_eq!(failure.context, "(42");
    assert_eq!(failure.expected.as_str(), ")");
    assert_eq!(failure.rest, "(42]");
    let failure = bracket(uint::<u8>("u8"), char('('), char(')')).parse("(x)").unwrap_err();
    assert_eq!(failure.context, "(");
    assert_eq!(failure.rest, "(x)");
    let failure = bracket(uint::<u8>("u8"), char('('), char(')')).parse("42)").unwrap_err();
    assert_eq!(failure.context, "");
}

#[test]
fn dynamic_bracket_closes_with_the_char_that_opened() {
    let parser = dynamic_bracket(uint::<u8>("u8"), char_in("'\""), SameChar);
    let success = parser.parse("'42' rest").unwrap();
    assert_eq!(success.value, 42);
    assert_eq!(success.token, "'42'");
    assert_eq!(success.rest, " rest");
    let success = parser.parse("\"7\"").unwrap();
    assert_eq!(success.value, 7);
    let failure = parser.parse("'42\"").unwrap_err();
    assert_eq!(failure.context, "'42");
    assert_eq!(failure.expected.as_str(), "'");
    assert_eq!(failure.rest, "'42\"");
}

#[test]
fn any_literal_map_gives_the_value_of_the_first_match() {
    let parser = any_literal_map(
        Literals,
        Text::Borrowed("a truth value"),
        vec![("true", true), ("false", false), ("t", true)],
    );
    let success = parser.parse("false!").unwrap();
    assert_eq!(success.value, false);
    assert_eq!(success.token, "false");
    assert_eq!(success.rest, "!");
    let success = parser.parse("true").unwrap();
    assert_eq!(success.value, true);
    assert_eq!(success.token, "true");
    let success = parser.parse("tru").unwrap();
    assert_eq!(success.value, true);
    assert_eq!(success.token, "t");
    assert_eq!(success.rest, "ru");
    let failure = parser.parse("maybe").unwrap_err();
    assert_eq!(failure.expected.as_str(), "a truth value");
    assert_eq!(failure.context, "");
    assert!(failure.source.is_none());
    assert_eq!(failure.rest, "maybe");
    let failure = parser.parse("TRUE").unwrap_err();
    assert_eq!(failure.rest, "TRUE");
}

#[test]
fn any_literal_map_ignores_case_on_demand() {
    let parser = any_literal_map(
        LiteralsIgnoreAsciiCase,
        Text::Borrowed("a color space"),
        vec![("rgb", 3u8), ("cmyk", 4u8)],
    );
    assert_eq!(parser.parse("CMYK(").unwrap().value, 4);
    assert_eq!(parser.parse("Rgb(").unwrap().value, 3);
    assert!(parser.parse("hsv(").is_err());
}

#[test]
fn any_literal_map_once_gives_the_value_out_of_the_map() {
    let parser = any_literal_map_once(
        Literals,
        Text::Borrowed("a greeting"),
        vec![("hi", String::from("informal")), ("hello", String::from("formal"))],
    );
    let success = parser.parse_once("hello there").unwrap();
    assert_eq!(success.value, "formal");
    assert_eq!(success.token, "hello");
    assert_eq!(success.rest, " there");
    let parser = any_literal_map_once(
        Literals,
        Text::Borrowed("a greeting"),
        vec![("hi", String::from("informal")), ("hello", String::from("formal"))],
    );
    let failure = parser.parse_once("bye").unwrap_err();
    assert_eq!(failure.expected.as_str(), "a greeting");
    assert_eq!(failure.rest, "bye");
}
