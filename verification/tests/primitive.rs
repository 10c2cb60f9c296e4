use atma::parse::char;
use atma::parse::char_in;
use atma::parse::char_matching;
use atma::parse::char_whitespace;
use atma::parse::escaped_string;
use atma::parse::float;
use atma::parse::float_exp;
use atma::parse::literal;
use atma::parse::literal_ignore_ascii_case;
use atma::parse::prefix_radix_token;
use atma::parse::uint;
use atma::parse::uint_digits_value;
use atma::parse::uint_value;
use atma::parse::whitespace;
use atma::parse::AnyChar;
use atma::parse::Digit;
use atma::parse::Failure;
use atma::parse::FailureOwned;
use atma::parse::FailureSource;
use atma::parse::IsWhitespace;
use atma::parse::ParseIntegerOverflow;
use atma::parse::Parser;

fn parse_source<'a>(failure: &'a Failure<'_>) -> &'a FailureOwned {
    match failure.source.as_deref() {
        Some(FailureSource::Parse(owned)) => owned,
        _ => panic!("the source is a parse failure"),
    }
}

fn overflow_source(owned: &FailureOwned) -> &ParseIntegerOverflow {
    match owned.source.as_deref() {
        Some(FailureSource::IntegerOverflow(overflow)) => overflow,
        _ => panic!("the source is an integer overflow"),
    }
}

#[test]
fn char_parses_the_given_char() {
    let success = char('a').parse("abc").unwrap();
    assert_eq!(success.value, 'a');
    assert_eq!(success.token, "a");
    assert_eq!(success.rest, "bc");
}

#[test]
fn char_parses_a_char_of_several_bytes() {
    let success = char('é').parse("été").unwrap();
    assert_eq!(success.value, 'é');
    assert_eq!(success.token, "é");
    assert_eq!(success.rest, "té");
}

#[test]
fn char_fails_on_another_char() {
    let failure = char('a').parse("bc").unwrap_err();
    assert_eq!(failure.context, "");
    assert_eq!(failure.expected.as_str(), "a");
    assert!(failure.source.is_none());
    assert_eq!(failure.rest, "bc");
}

#[test]
fn char_fails_on_the_empty_text() {
    let failure = char('a').parse("").unwrap_err();
    assert_eq!(failure.context, "");
    assert_eq!(failure.rest, "");
}

#[test]
fn char_in_parses_any_of_the_chars() {
    let success = char_in("+-").parse("-1").unwrap();
    assert_eq!(success.value, '-');
    assert_eq!(success.token, "-");
    assert_eq!(success.rest, "1");
    let success = char_in("+-").parse("+1").unwrap();
    assert_eq!(success.value, '+');
}

#[test]
fn char_in_fails_on_any_other_char() {
    let failure = char_in("+-").parse("1").unwrap_err();
    assert_eq!(failure.context, "");
    assert_eq!(failure.expected.as_str(), "one of +-");
    assert!(failure.source.is_none());
    assert_eq!(failure.rest, "1");
    assert!(char_in("").parse("1").is_err());
    assert!(char_in("+-").parse("").is_err());
}

#[test]
fn char_matching_parses_a_char_with_the_property() {
    let success = char_matching(Digit { radix: 10 }).parse("42").unwrap();
    assert_eq!(success.value, '4');
    assert_eq!(success.token, "4");
    assert_eq!(success.rest, "2");
    let success = char_matching(AnyChar).parse("é!").unwrap();
    assert_eq!(success.value, 'é');
    assert_eq!(success.rest, "!");
    assert!(char_matching(IsWhitespace).parse("\u{2003}x").is_ok());
}

#[test]
fn char_matching_fails_on_a_char_without_the_property() {
    let failure = char_matching(Digit { radix: 10 }).parse("x").unwrap_err();
    assert_eq!(failure.context, "");
    assert_eq!(failure.expected.as_str(), "char satisfying predicate");
    assert!(failure.source.is_none());
    assert_eq!(failure.rest, "x");
    assert!(char_matching(AnyChar).parse("").is_err());
}

#[test]
fn char_whitespace_parses_one_whitespace_char() {
    let success = char_whitespace(" \tx").unwrap();
    assert_eq!(success.value, ' ');
    assert_eq!(success.token, " ");
    assert_eq!(success.rest, "\tx");
    let failure = char_whitespace("x").unwrap_err();
    assert_eq!(failure.expected.as_str(), "whitespace char");
    assert_eq!(failure.context, "");
    assert_eq!(failure.rest, "x");
    assert_eq!(parse_source(&failure).expected.as_str(), "char satisfying predicate");
}

#[test]
fn whitespace_parses_one_or_more_whitespace_chars() {
    let success = whitespace("  \t\nx y").unwrap();
    assert_eq!(success.value, "  \t\n");
    assert_eq!(success.token, "  \t\n");
    assert_eq!(success.rest, "x y");
}

#[test]
fn whitespace_fails_without_whitespace() {
    let failure = whitespace("x ").unwrap_err();
    assert_eq!(failure.expected.as_str(), "whitespace");
    assert_eq!(failure.context, "");
    assert_eq!(failure.rest, "x ");
    let cause = parse_source(&failure);
    assert_eq!(cause.expected.as_str(), "whitespace char");
    assert!(whitespace("").is_err());
}

#[test]
fn literal_parses_the_given_text() {
    let success = literal("abc").parse("abcd").unwrap();
    assert_eq!(success.value, "abc");
    assert_eq!(success.token, "abc");
    assert_eq!(success.rest, "d");
    let success = literal("").parse("abcd").unwrap();
    assert_eq!(success.token, "");
    assert_eq!(success.rest, "abcd");
}

#[test]
fn literal_reports_what_did_match() {
    let failure = literal("abc").parse("abX").unwrap_err();
    assert_eq!(failure.context, "ab");
    assert_eq!(failure.expected.as_str(), "abc");
    assert!(failure.source.is_none());
    assert_eq!(failure.rest, "abX");
    let failure = literal("abc").parse("ab").unwrap_err();
    assert_eq!(failure.context, "ab");
    let failure = literal("abc").parse("xyz").unwrap_err();
    assert_eq!(failure.context, "");
    let failure = literal("abc").parse("ABC").unwrap_err();
    assert_eq!(failure.context, "");
}

#[test]
fn literal_ignore_ascii_case_parses_in_any_case() {
    let success = literal_ignore_ascii_case("rgb").parse("RgB(1").unwrap();
    assert_eq!(success.value, "RgB");
    assert_eq!(success.token, "RgB");
    assert_eq!(success.rest, "(1");
}

#[test]
fn literal_ignore_ascii_case_reports_what_did_match() {
    let failure = literal_ignore_ascii_case("rgb").parse("RGx").unwrap_err();
    assert_eq!(failure.context, "RG");
    assert_eq!(failure.expected.as_str(), "ignore case literal rgb");
    assert_eq!(failure.rest, "RGx");
    let failure = literal_ignore_ascii_case("é").parse("É").unwrap_err();
    assert_eq!(failure.context, "");
}

#[test]
fn prefix_radix_token_parses_the_three_prefixes() {
    for text in ["0b1", "0o7", "0xF"].iter() {
        let success = prefix_radix_token(text).unwrap();
        assert_eq!(success.token, &text[..2]);
        assert_eq!(success.value, &text[..2]);
        assert_eq!(success.rest, &text[2..]);
    }
    for text in ["", "0", "10", "0B1", "0X1", "b0", "x"].iter() {
        let failure = prefix_radix_token(text).unwrap_err();
        assert_eq!(failure.context, "");
        assert_eq!(failure.expected.as_str(), "0[box]");
        assert_eq!(failure.rest, *text);
    }
}

#[test]
fn uint_parses_with_every_radix_prefix() {
    let success = uint::<u32>("u32").parse("0x1F rest").unwrap();
    assert_eq!(success.value, 31);
    assert_eq!(success.token, "0x1F");
    assert_eq!(success.rest, " rest");
    assert_eq!(uint::<u32>("u32").parse("0b101").unwrap().value, 5);
    assert_eq!(uint::<u32>("u32").parse("0o17").unwrap().value, 15);
    assert_eq!(uint::<u32>("u32").parse("123").unwrap().value, 123);
    assert_eq!(uint::<u32>("u32").parse("0xff").unwrap().value, 255);
    assert_eq!(uint::<u8>("u8").parse("255").unwrap().value, 255);
    assert_eq!(uint::<u64>("u64").parse("18446744073709551615").unwrap().value, u64::MAX);
    assert_eq!(uint::<u32>("u32").parse("0").unwrap().value, 0);
}

#[test]
fn uint_stops_at_the_first_char_that_is_no_digit() {
    let success = uint::<u32>("u32").parse("0b102").unwrap();
    assert_eq!(success.value, 2);
    assert_eq!(success.token, "0b10");
    assert_eq!(success.rest, "2");
    let success = uint::<u32>("u32").parse("12ab").unwrap();
    assert_eq!(success.value, 12);
    assert_eq!(success.rest, "ab");
}

#[test]
fn uint_passes_over_separators() {
    let success = uint::<u32>("u32").parse("1_000_000,").unwrap();
    assert_eq!(success.value, 1000000);
    assert_eq!(success.token, "1_000_000");
    assert_eq!(success.rest, ",");
    let success = uint::<u32>("u32").parse("_1__2_").unwrap();
    assert_eq!(success.value, 12);
    assert_eq!(success.token, "_1__2_");
    let success = uint::<u32>("u32").parse("0x_F_F").unwrap();
    assert_eq!(success.value, 255);
}

#[test]
fn uint_fails_without_digits() {
    let failure = uint::<u32>("u32").parse("x").unwrap_err();
    assert_eq!(failure.expected.as_str(), "parse u32 value");
    assert_eq!(failure.context, "");
    assert_eq!(failure.rest, "x");
    let cause = parse_source(&failure);
    assert_eq!(cause.expected.as_str(), "u32 integer digits with radix 10");
    let failure = uint::<u32>("u32").parse("0x").unwrap_err();
    assert_eq!(failure.context, "0x");
    assert_eq!(failure.rest, "0x");
    assert_eq!(parse_source(&failure).expected.as_str(), "u32 integer digits with radix 16");
    let failure = uint::<u32>("u32").parse("___").unwrap_err();
    assert_eq!(failure.context, "___");
    assert!(uint::<u32>("u32").parse("").is_err());
}

#[test]
fn uint_fails_on_a_number_that_does_not_fit_the_type() {
    let failure = uint::<u16>("u16").parse("65536").unwrap_err();
    assert_eq!(failure.expected.as_str(), "parse u16 value");
    assert_eq!(failure.context, "65536");
    assert_eq!(failure.rest, "65536");
    let cause = parse_source(&failure);
    assert_eq!(cause.expected.as_str(), "overflow of u16 value");
    assert_eq!(cause.context, "65536");
    let overflow = overflow_source(cause);
    assert_eq!(overflow.int_type.as_str(), "u16");
    assert_eq!(overflow.int_text.as_str(), "65536");
    assert_eq!(overflow.value, 65536);
    assert_eq!(uint::<u16>("u16").parse("65535").unwrap().value, 65535);
    let failure = uint::<u8>("u8").parse("0x1_00").unwrap_err();
    let overflow_cause = parse_source(&failure);
    assert_eq!(overflow_source(overflow_cause).value, 256);
    assert_eq!(overflow_source(overflow_cause).int_text.as_str(), "1_00");
}

#[test]
fn uint_fails_on_a_number_that_does_not_fit_64_bits() {
    let failure = uint::<u64>("u64").parse("18446744073709551616").unwrap_err();
    let overflow = overflow_source(parse_source(&failure));
    assert_eq!(overflow.value, 18446744073709551616);
    assert_eq!(overflow.int_type.as_str(), "u64");
    let failure = uint::<u64>("u64").parse("99999999999999999999").unwrap_err();
    let overflow = overflow_source(parse_source(&failure));
    assert_eq!(overflow.value, 9999999999999999999);
    let failure = uint::<u32>("u32").parse("0xFFFF_FFFF_FFFF_FFFF_F").unwrap_err();
    let overflow = overflow_source(parse_source(&failure));
    assert_eq!(overflow.value, 0xFFFF_FFFF_FFFF_FFFF);
    assert_eq!(failure.context, "0xFFFF_FFFF_FFFF_FFFF_F");
}

#[test]
fn uint_value_parses_with_the_given_radix() {
    assert_eq!(uint_value::<u32>("u32", 2).parse("1012").unwrap().value, 5);
    assert_eq!(uint_value::<u32>("u32", 36).parse("zz").unwrap().value, 35 * 36 + 35);
    assert_eq!(uint_value::<u32>("u32", 16).parse("0x10").unwrap().value, 0);
    assert!(uint_value::<u32>("u32", 2).parse("2").is_err());
}

#[test]
fn uint_digits_value_counts_the_digits() {
    let parser = uint_digits_value::<u32>("u32", 6, Some(6), 16);
    let success = parser.parse("1234567").unwrap();
    assert_eq!(success.value, 0x123456);
    assert_eq!(success.token, "123456");
    assert_eq!(success.rest, "7");
    let success = parser.parse("12_34_56zz").unwrap();
    assert_eq!(success.value, 0x123456);
    assert_eq!(success.token, "12_34_56");
    assert_eq!(success.rest, "zz");
    let failure = parser.parse("12345").unwrap_err();
    assert_eq!(failure.expected.as_str(), "u32 integer digits with radix 16");
    assert_eq!(failure.context, "12345");
    assert_eq!(failure.rest, "12345");
    let parser = uint_digits_value::<u8>("u8", 2, Some(2), 16);
    assert_eq!(parser.parse("ff").unwrap().value, 255);
    assert_eq!(parser.parse("0A").unwrap().value, 10);
    let parser = uint_digits_value::<u32>("u32", 0, Some(2), 10);
    let success = parser.parse("x").unwrap();
    assert_eq!(success.value, 0);
    assert_eq!(success.token, "");
}

#[test]
fn float_parses_the_text_of_a_float() {
    let cases = [
        ("1.0, ", "1.0", ", "),
        ("-.5e-3x", "-.5e-3", "x"),
        ("5.", "5.", ""),
        ("+5", "+5", ""),
        ("1.e5", "1.e5", ""),
        ("1E+5", "1E+5", ""),
        ("inf", "inf", ""),
        ("-inf)", "-inf", ")"),
        ("+nan", "+nan", ""),
        ("1.0.5", "1.0", ".5"),
        ("1 e5", "1", " e5"),
        ("007", "007", ""),
    ];
    for (text, token, rest) in cases.iter() {
        let success = float("f32").parse(text).unwrap();
        assert_eq!(success.value, *token, "value of {:?}", text);
        assert_eq!(success.token, *token, "token of {:?}", text);
        assert_eq!(success.rest, *rest, "rest of {:?}", text);
        assert!(token.parse::<f32>().is_ok(), "{:?} is a float", token);
    }
}

#[test]
fn float_fails_without_a_digit_in_the_mantissa() {
    for (text, context) in [(".", "."), ("", ""), ("abc", ""), ("-", "-"), ("+.e5", "+."), ("e5", "")].iter() {
        let failure = float("f32").parse(text).unwrap_err();
        assert_eq!(failure.expected.as_str(), "f32 float digits");
        assert_eq!(failure.context, *context, "context of {:?}", text);
        assert_eq!(failure.rest, *text);
        assert!(failure.source.is_none());
    }
}

#[test]
fn float_fails_on_an_exponent_that_breaks_off() {
    let failure = float("f32").parse("1e").unwrap_err();
    assert_eq!(failure.expected.as_str(), "float exponent digits");
    assert_eq!(failure.context, "1e");
    assert_eq!(failure.rest, "1e");
    let failure = float("f32").parse("2.5E-x").unwrap_err();
    assert_eq!(failure.context, "2.5E-");
    assert_eq!(failure.rest, "2.5E-x");
}

#[test]
fn float_exp_parses_an_exponent() {
    let success = float_exp("e+10x").unwrap();
    assert_eq!(success.value, "e+10");
    assert_eq!(success.token, "e+10");
    assert_eq!(success.rest, "x");
    assert_eq!(float_exp("E5").unwrap().token, "E5");
    let failure = float_exp("x").unwrap_err();
    assert_eq!(failure.expected.as_str(), "float exponent");
    assert_eq!(failure.context, "");
    let failure = float_exp("e-").unwrap_err();
    assert_eq!(failure.expected.as_str(), "float exponent digits");
    assert_eq!(failure.context, "e-");
    assert_eq!(failure.rest, "e-");
}

#[test]
fn escaped_string_parses_a_delimited_string() {
    let parser = escaped_string(
        vec![("\"", "\""), ("<<", ">>")],
        vec![("\\n", "\n"), ("\\\"", "\""), ("\\\\", "\\")],
    );
    let success = parser.parse("\"a\\nb\\\"c\" rest").unwrap();
    assert_eq!(success.value, "a\nb\"c");
    assert_eq!(success.token, "\"a\\nb\\\"c\"");
    assert_eq!(success.rest, " rest");
    let success = parser.parse("<<x\"y>>z").unwrap();
    assert_eq!(success.value, "x\"y");
    assert_eq!(success.token, "<<x\"y>>");
    assert_eq!(success.rest, "z");
    let success = parser.parse("\"\"").unwrap();
    assert_eq!(success.value, "");
    assert_eq!(success.rest, "");
    let success = parser.parse("\"a\\\\\"b").unwrap();
    assert_eq!(success.value, "a\\");
    assert_eq!(success.rest, "b");
}

#[test]
fn escaped_string_fails_without_delimiters() {
    let parser = escaped_string(vec![("\"", "\"")], vec![("\\\"", "\"")]);
    let failure = parser.parse("abc").unwrap_err();
    assert_eq!(failure.expected.as_str(), "escaped string opening");
    assert_eq!(failure.context, "");
    assert_eq!(failure.rest, "abc");
    let failure = parser.parse("\"abc\\\"").unwrap_err();
    assert_eq!(failure.expected.as_str(), "escaped string closing");
    assert_eq!(failure.context, "\"abc\\\"");
    assert_eq!(failure.rest, "\"abc\\\"");
}

#[test]
fn escaped_string_passes_over_an_empty_escape() {
    let parser = escaped_string(vec![("'", "'")], vec![("", "!"), ("~", "-")]);
    let success = parser.parse("'a~b'").unwrap();
    assert_eq!(success.value, "a~b");
}

#[test]
fn every_float_that_is_parsed_whole_is_a_float_of_std() {
    let alphabet: Vec<char> = "+-.eE0159inaf ".chars().collect();
    let n = alphabet.len();
    let mut parsed = 0;
    let mut index = 0;
    while index < n * n * n * n * n {
        let mut text = String::new();
        let mut rest = index;
        for _ in 0..5 {
            let digit = rest % n;
            rest /= n;
            if digit == n - 1 {
                break;
            }
            text.push(alphabet[digit]);
        }
        if let Ok(success) = float("f64").parse(text.as_str()) {
            assert_eq!(success.value, success.token);
            assert!(text.starts_with(success.token));
            assert_eq!(&text[success.token.len()..], success.rest);
            assert!(!success.token.is_empty());
            assert!(success.token.parse::<f64>().is_ok(), "{:?} is a float", success.token);
            assert!(success.token.parse::<f32>().is_ok(), "{:?} is a float", success.token);
            parsed += 1;
        } else {
            let failure = float("f64").parse(text.as_str()).unwrap_err();
            assert_eq!(failure.rest, text.as_str());
            assert!(text.starts_with(failure.context));
        }
        index += 1;
    }
    assert!(parsed > 1000);
}

#[test]
fn uint_value_agrees_with_std_on_plain_digits() {
    let digits: Vec<char> = "0123456789abcdefghijklmnopqrstuvwxyzABCDEFGHIJKLMNOPQRSTUVWXYZ"
        .chars()
        .collect();
    let mut state: u64 = 0x2545F4914F6CDD1D;
    let mut checked = 0;
    for round in 0..20000 {
        state ^= state << 13;
        state ^= state >> 7;
        state ^= state << 17;
        let radix = 2 + (state % 35) as u32;
        let len = 1 + ((state >> 8) % 14) as usize;
        let mut text = String::new();
        let mut bits = state >> 16;
        for _ in 0..len {
            let pick = (bits % 62) as usize;
            bits = bits / 62 + (round as u64);
            let c = digits[pick];
            if c.to_digit(radix).is_some() {
                text.push(c);
            }
        }
        if text.is_empty() {
            continue;
        }
        let ours = uint_value::<u32>("u32", radix).parse(text.as_str());
        match u32::from_str_radix(text.as_str(), radix) {
            Ok(value) => {
                let success = ours.unwrap();
                assert_eq!(success.value, value, "{:?} in radix {}", text, radix);
                assert_eq!(success.token, text.as_str());
                assert_eq!(success.rest, "");
            },
            Err(_) => {
                let failure = ours.unwrap_err();
                assert_eq!(failure.context, text.as_str());
                assert_eq!(failure.expected.as_str(), "overflow of u32 value");
                let wide = u128::from_str_radix(text.as_str(), radix).unwrap();
                match failure.source.as_deref() {
                    Some(FailureSource::IntegerOverflow(overflow)) => {
                        if wide <= u64::MAX as u128 {
                            assert_eq!(overflow.value, wide);
                        } else {
                            assert!(overflow.value <= wide);
                        }
                    },
                    _ => panic!("the source is the overflow"),
                }
            },
        }
        checked += 1;
    }
    assert!(checked > 10000);
}
