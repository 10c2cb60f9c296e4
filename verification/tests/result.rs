use atma::parse::result::join_previous;
use atma::parse::result::Failure;
use atma::parse::result::FailureOwned;
use atma::parse::result::FailureSource;
use atma::parse::result::ParseResult;
use atma::parse::result::ParseResultExt;
use atma::parse::result::Success;
use atma::parse::ParseIntegerOverflow;
use atma::text::Text;

fn failure<'t>(context: &'t str, expected: &'static str, rest: &'t str) -> Failure<'t> {
    Failure { context, expected: Text::Borrowed(expected), source: None, rest }
}

#[test]
fn source_for_wraps_a_failure_as_the_source() {
    let text = "abc";
    let result: ParseResult<'_, u32> = Err(failure("ab", "inner", text));
    let wrapped = result.source_for(Text::Borrowed("outer")).unwrap_err();
    assert_eq!(wrapped.context, "ab");
    assert_eq!(wrapped.rest, "abc");
    assert_eq!(wrapped.expected.as_str(), "outer");
    match wrapped.source.as_deref() {
        Some(FailureSource::Parse(owned)) => {
            assert_eq!(owned.context, "ab");
            assert_eq!(owned.expected.as_str(), "inner");
            assert!(owned.source.is_none());
        },
        _ => panic!("the source is the inner failure"),
    }
}

#[test]
fn source_for_keeps_the_causal_chain() {
    let text = "abc";
    let result: ParseResult<'_, u32> = Err(failure("", "first", text));
    let wrapped = result
        .source_for(Text::Borrowed("second"))
        .source_for(Text::Borrowed("third"))
        .unwrap_err();
    assert_eq!(wrapped.expected.as_str(), "third");
    let second = match wrapped.source.as_deref() {
        Some(FailureSource::Parse(owned)) => owned,
        _ => panic!("the source is a parse failure"),
    };
    assert_eq!(second.expected.as_str(), "second");
    let first = match second.source.as_deref() {
        Some(FailureSource::Parse(owned)) => owned,
        _ => panic!("the source is a parse failure"),
    };
    assert_eq!(first.expected.as_str(), "first");
    assert!(first.source.is_none());
}

#[test]
fn source_for_leaves_a_success_alone() {
    let result: ParseResult<'_, u32> = Ok(Success { value: 7, token: "7", rest: "x" });
    let same = result.source_for(Text::Borrowed("outer")).unwrap();
    assert_eq!(same.value, 7);
    assert_eq!(same.token, "7");
    assert_eq!(same.rest, "x");
}

#[test]
fn with_join_context_extends_the_context_backward() {
    let text = "ab12cd";
    let prior = Success { value: (), token: "ab", rest: "12cd" };
    let result: ParseResult<'_, u32> = Err(failure("12", "letter", "12cd"));
    let joined = result.with_join_context(&prior, text).unwrap_err();
    assert_eq!(joined.context, "ab12");
    assert_eq!(joined.rest, "ab12cd");
    assert_eq!(joined.expected.as_str(), "letter");
}

#[test]
fn with_new_context_replaces_context_and_rest() {
    let text = "ab12cd";
    let result: ParseResult<'_, u32> = Err(failure("12", "letter", "12cd"));
    let replaced = result.with_new_context("", text).unwrap_err();
    assert_eq!(replaced.context, "");
    assert_eq!(replaced.rest, "ab12cd");
    assert_eq!(replaced.expected.as_str(), "letter");
}

#[test]
fn value_token_and_rest_of_a_result() {
    let ok: ParseResult<'_, u32> = Ok(Success { value: 7, token: "7", rest: "x" });
    assert_eq!(ok.value(), Some(&7));
    assert_eq!(ok.token(), Some("7"));
    assert_eq!(ok.rest(), "x");
    assert_eq!(ok.into_value(), Some(7));
    let err: ParseResult<'_, u32> = Err(failure("", "digit", "x"));
    assert_eq!(err.value(), None);
    assert_eq!(err.token(), None);
    assert_eq!(err.rest(), "x");
    assert_eq!(err.into_value(), None);
}

#[test]
fn map_value_applies_the_closure_to_a_success() {
    let ok: ParseResult<'_, u32> = Ok(Success { value: 7, token: "7", rest: "x" });
    let mapped = ok.map_value(|v| v + 1).unwrap();
    assert_eq!(mapped.value, 8);
    assert_eq!(mapped.token, "7");
    assert_eq!(mapped.rest, "x");
    let err: ParseResult<'_, u32> = Err(failure("", "digit", "x"));
    let still = err.map_value(|v| v + 1).unwrap_err();
    assert_eq!(still.expected.as_str(), "digit");
}

#[test]
fn tokenize_value_and_discard_value() {
    let ok: ParseResult<'_, u32> = Ok(Success { value: 7, token: "7", rest: "x" });
    let tokenized = ok.tokenize_value().unwrap();
    assert_eq!(tokenized.value, "7");
    assert_eq!(tokenized.token, "7");
    let ok: ParseResult<'_, u32> = Ok(Success { value: 7, token: "7", rest: "x" });
    let discarded = ok.discard_value().unwrap();
    assert_eq!(discarded.value, ());
    assert_eq!(discarded.token, "7");
    assert_eq!(discarded.rest, "x");
}

#[test]
fn expect_end_of_text_fails_if_text_is_left() {
    let ok: ParseResult<'_, u32> = Ok(Success { value: 7, token: "7", rest: "" });
    assert_eq!(ok.expect_end_of_text().unwrap().value, 7);
    let ok: ParseResult<'_, u32> = Ok(Success { value: 7, token: "7", rest: "x" });
    let failed = ok.expect_end_of_text().unwrap_err();
    assert_eq!(failed.context, "7");
    assert_eq!(failed.expected.as_str(), "end-of-text");
    assert!(failed.source.is_none());
    assert_eq!(failed.rest, "x");
}

#[test]
fn expect_failure_turns_the_result_round() {
    let ok: ParseResult<'_, u32> = Ok(Success { value: 7, token: "7", rest: "x" });
    let failed = ok.expect_failure().unwrap_err();
    assert_eq!(failed.context, "7");
    assert_eq!(failed.expected.as_str(), "parse failure");
    assert_eq!(failed.rest, "x");
    let err: ParseResult<'_, u32> = Err(failure("ab", "digit", "abx"));
    let succeeded = err.expect_failure().unwrap();
    assert_eq!(succeeded.value, "ab");
    assert_eq!(succeeded.token, "ab");
    assert_eq!(succeeded.rest, "abx");
}

#[test]
fn success_map_discard_and_tokenize() {
    let success = Success { value: 2u32, token: "2", rest: "x" };
    let mapped = success.map_value(|v| v * 10);
    assert_eq!(mapped.value, 20);
    assert_eq!(mapped.discard_value().value, ());
    let success = Success { value: 2u32, token: "2", rest: "x" };
    assert_eq!(success.tokenize_value().value, "2");
}

#[test]
fn join_makes_one_success_of_two() {
    let text = "ab12cd";
    let first = Success { value: 'a', token: "ab", rest: "12cd" };
    let second = Success { value: 12u32, token: "12", rest: "cd" };
    let joined = first.join(second, text);
    assert_eq!(joined.token, "ab12");
    assert_eq!(joined.rest, "cd");
}

#[test]
fn join_with_combines_the_values() {
    let text = "ab12cd";
    let first = Success { value: 'a', token: "ab", rest: "12cd" };
    let second = Success { value: 12u32, token: "12", rest: "cd" };
    let joined = first.join_with(second, text, |c, n| (c, n));
    assert_eq!(joined.value, ('a', 12));
    assert_eq!(joined.token, "ab12");
    assert_eq!(joined.rest, "cd");
}

#[test]
fn join_failure_extends_the_context() {
    let text = "ab12cd";
    let first = Success { value: 'a', token: "ab", rest: "12cd" };
    let joined = first.join_failure(failure("1", "two digits", "12cd"), text);
    assert_eq!(joined.context, "ab1");
    assert_eq!(joined.rest, "ab12cd");
    assert_eq!(joined.expected.as_str(), "two digits");
}

#[test]
fn join_previous_joins_either_result() {
    let text = "ab12cd";
    let ok: ParseResult<'_, u32> = Ok(Success { value: 12, token: "12", rest: "cd" });
    let joined = join_previous(ok, "ab", text).unwrap();
    assert_eq!(joined.value, 12);
    assert_eq!(joined.token, "ab12");
    assert_eq!(joined.rest, "cd");
    let err: ParseResult<'_, u32> = Err(failure("1", "two digits", "12cd"));
    let joined = join_previous(err, "ab", text).unwrap_err();
    assert_eq!(joined.context, "ab1");
    assert_eq!(joined.rest, "ab12cd");
}

#[test]
fn rest_continuing_skips_the_context() {
    assert_eq!(failure("ab", "digit", "abcd").rest_continuing(), "cd");
    assert_eq!(failure("", "digit", "abcd").rest_continuing(), "abcd");
    assert_eq!(failure("é", "digit", "éx").rest_continuing(), "x");
}

#[test]
fn to_owned_keeps_context_expected_and_source() {
    let inner = FailureOwned {
        context: String::from("a"),
        expected: Text::Borrowed("inner"),
        source: None,
    };
    let borrowed = Failure {
        context: "ab",
        expected: Text::Borrowed("outer"),
        source: Some(Box::new(FailureSource::Parse(inner))),
        rest: "abc",
    };
    let owned = borrowed.to_owned();
    assert_eq!(owned.context, "ab");
    assert_eq!(owned.expected.as_str(), "outer");
    match owned.source.as_deref() {
        Some(FailureSource::Parse(inner)) => assert_eq!(inner.expected.as_str(), "inner"),
        _ => panic!("the source is kept"),
    }
}

#[test]
fn message_names_what_was_expected_and_found() {
    assert_eq!(failure("", "digit", "x").message(), "parse error: expected digit");
    assert_eq!(failure("ab", "digit", "abx").message(), "parse error: expected digit, found ab");
    let owned = failure("ab", "digit", "abx").to_owned();
    assert_eq!(owned.message(), "parse error: expected digit, found ab");
    let owned = failure("", "digit", "abx").to_owned();
    assert_eq!(owned.message(), "parse error: expected digit");
}

#[test]
fn overflow_message_names_text_value_and_type() {
    let overflow = ParseIntegerOverflow {
        int_type: Text::Borrowed("u16"),
        int_text: Text::Owned(String::from("70_000")),
        value: 70000,
    };
    assert_eq!(overflow.message(), "integer value '70_000' (70000) does not fit in type u16");
}

#[test]
fn the_message_of_a_cause_is_that_of_what_it_holds() {
    let overflow = ParseIntegerOverflow {
        int_type: Text::Borrowed("u8"),
        int_text: Text::Borrowed("256"),
        value: 256,
    };
    assert_eq!(
        FailureSource::IntegerOverflow(overflow).message(),
        "integer value '256' (256) does not fit in type u8"
    );
    let owned = failure("ab", "digit", "abx").to_owned();
    assert_eq!(FailureSource::Parse(owned).message(), "parse error: expected digit, found ab");
}
