use atma::cell::CellRef;
use atma::cell::CellSelector;
use atma::cell::InvalidCellSelector;
use atma::cell::Position;
use atma::cell::PositionSelector;
use atma::parse::cell_ref;
use atma::parse::cell_selection;
use atma::parse::cell_selector;
use atma::parse::group;
use atma::parse::group_all;
use atma::parse::index;
use atma::parse::name;
use atma::parse::position;
use atma::parse::position_selector;
use atma::parse::range_suffix;
use atma::parse::u16_or_all;
use atma::parse::Failure;
use atma::parse::FailureOwned;
use atma::parse::FailureSource;
use atma::parse::IndexRule;
use atma::parse::Parser;

fn parse_source<'a>(failure: &'a Failure<'_>) -> &'a FailureOwned {
    match failure.source.as_deref() {
        Some(FailureSource::Parse(owned)) => owned,
        _ => panic!("the source is a parse failure"),
    }
}

fn selector_source<'a>(failure: &'a Failure<'_>) -> &'a InvalidCellSelector {
    match failure.source.as_deref() {
        Some(FailureSource::InvalidSelector(error)) => error,
        _ => panic!("the source is an invalid selector"),
    }
}

fn describe(selector: &CellSelector<'_>) -> String {
    match selector {
        CellSelector::All => String::from("all"),
        CellSelector::Index(idx) => format!("index {}", idx),
        CellSelector::IndexRange { low, high } => format!("index {}-{}", low, high),
        CellSelector::PositionSelector(selector) => {
            format!("position {:?}.{:?}.{:?}", selector.page, selector.line, selector.column)
        },
        CellSelector::PositionRange { low, high } => format!(
            "position {}.{}.{}-{}.{}.{}",
            low.page, low.line, low.column, high.page, high.line, high.column
        ),
        CellSelector::Name(name) => format!("name {}", name.as_str()),
        CellSelector::Group { group, idx } => format!("group {}:{}", group.as_str(), idx),
        CellSelector::GroupRange { group, low, high } => {
            format!("group {}:{}-{}", group.as_str(), low, high)
        },
        CellSelector::GroupAll(group) => format!("group {}:*", group.as_str()),
    }
}

#[test]
fn name_parses_a_run_of_chars_that_are_not_reserved() {
    let success = name("name1, rest").unwrap();
    assert_eq!(success.value, "name1");
    assert_eq!(success.token, "name1");
    assert_eq!(success.rest, ", rest");
    for reserved in ["*", ",", ".", ":", "-"].iter() {
        let text = format!("ab{}cd", reserved);
        let success = name(text.as_str()).unwrap();
        assert_eq!(success.value, "ab");
        assert_eq!(success.rest, &text[2..]);
    }
}

#[test]
fn name_keeps_whitespace_within_and_trims_it_at_the_ends() {
    let success = name("  my name  :x").unwrap();
    assert_eq!(success.value, "my name");
    assert_eq!(success.token, "  my name  ");
    assert_eq!(success.rest, ":x");
}

#[test]
fn name_fails_without_a_char_that_is_no_whitespace() {
    let failure = name(":x").unwrap_err();
    assert_eq!(failure.expected.as_str(), "cell ref name");
    assert_eq!(failure.context, "");
    assert_eq!(failure.rest, ":x");
    assert_eq!(parse_source(&failure).expected.as_str(), "char satisfying predicate");
    let failure = name("   ,").unwrap_err();
    assert_eq!(failure.expected.as_str(), "cell ref name");
    assert_eq!(failure.context, "   ");
    assert_eq!(failure.rest, "   ,");
    assert!(failure.source.is_none());
    assert!(name("").is_err());
}

#[test]
fn index_parses_the_prefix_and_a_u32() {
    let success = index(":42,").unwrap();
    assert_eq!(success.value, 42);
    assert_eq!(success.token, ":42");
    assert_eq!(success.rest, ",");
    assert_eq!(index(":0xFF").unwrap().value, 255);
    assert_eq!(index(":4294967295").unwrap().value, u32::MAX);
    let failure = index("42").unwrap_err();
    assert_eq!(failure.expected.as_str(), "cell ref index");
    assert_eq!(failure.context, "");
    assert_eq!(failure.rest, "42");
    let failure = index(":x").unwrap_err();
    assert_eq!(failure.context, ":");
    assert_eq!(failure.rest, ":x");
    let failure = index(":4294967296").unwrap_err();
    assert_eq!(failure.expected.as_str(), "cell ref index");
    assert_eq!(failure.context, ":4294967296");
}

#[test]
fn position_parses_page_line_and_column() {
    let success = position(":5.3.2-").unwrap();
    assert_eq!(success.value, Position { page: 5, line: 3, column: 2 });
    assert_eq!(success.token, ":5.3.2");
    assert_eq!(success.rest, "-");
    let success = position(":0x10.0b11.65535").unwrap();
    assert_eq!(success.value, Position { page: 16, line: 3, column: 65535 });
}

#[test]
fn position_names_the_part_that_failed() {
    let failure = position("5.3.2").unwrap_err();
    assert_eq!(failure.expected.as_str(), "cell ref position prefix");
    assert_eq!(failure.context, "");
    assert_eq!(failure.rest, "5.3.2");
    assert_eq!(parse_source(&failure).expected.as_str(), ":");
    let failure = position(":x").unwrap_err();
    assert_eq!(failure.expected.as_str(), "cell ref position page");
    assert_eq!(failure.context, ":");
    let failure = position(":1").unwrap_err();
    assert_eq!(failure.expected.as_str(), "cell ref position separator");
    assert_eq!(failure.context, ":1");
    let failure = position(":1.").unwrap_err();
    assert_eq!(failure.expected.as_str(), "cell ref position line");
    assert_eq!(failure.context, ":1.");
    let failure = position(":1.2").unwrap_err();
    assert_eq!(failure.expected.as_str(), "cell ref position separator");
    assert_eq!(failure.context, ":1.2");
    assert_eq!(failure.rest, ":1.2");
    let failure = position(":1.2.*").unwrap_err();
    assert_eq!(failure.expected.as_str(), "cell ref position column");
    assert_eq!(failure.context, ":1.2.");
    assert_eq!(failure.rest, ":1.2.*");
    let failure = position(":1.65536.3").unwrap_err();
    assert_eq!(failure.expected.as_str(), "cell ref position line");
    assert_eq!(failure.context, ":1.65536");
    assert_eq!(parse_source(&failure).expected.as_str(), "parse u16 value");
}

#[test]
fn u16_or_all_parses_a_number_or_the_token_for_all() {
    let success = u16_or_all("*.").unwrap();
    assert_eq!(success.value, None);
    assert_eq!(success.token, "*");
    assert_eq!(success.rest, ".");
    let success = u16_or_all("17.").unwrap();
    assert_eq!(success.value, Some(17));
    assert_eq!(success.token, "17");
    let failure = u16_or_all("x").unwrap_err();
    assert_eq!(failure.expected.as_str(), "parse u16 value");
    assert_eq!(failure.rest, "x");
}

#[test]
fn position_selector_parses_numbers_and_tokens_for_all() {
    let success = position_selector(":5.3.*").unwrap();
    assert_eq!(success.value, PositionSelector { page: Some(5), line: Some(3), column: None });
    assert_eq!(success.token, ":5.3.*");
    assert_eq!(success.rest, "");
    let success = position_selector(":*.*.*,").unwrap();
    assert_eq!(success.value, PositionSelector { page: None, line: None, column: None });
    assert_eq!(success.rest, ",");
    let success = position_selector(":1.2.3").unwrap();
    assert_eq!(success.value, PositionSelector { page: Some(1), line: Some(2), column: Some(3) });
    let failure = position_selector(":1.*").unwrap_err();
    assert_eq!(failure.expected.as_str(), "cell ref position selector separator");
    assert_eq!(failure.context, ":1.*");
    let failure = position_selector("1").unwrap_err();
    assert_eq!(failure.expected.as_str(), "cell ref position selector prefix");
}

#[test]
fn group_parses_a_name_with_its_index() {
    let success = group("group:3-group:9").unwrap();
    assert_eq!(success.value, ("group", 3));
    assert_eq!(success.token, "group:3");
    assert_eq!(success.rest, "-group:9");
    let success = group(" my group :12").unwrap();
    assert_eq!(success.value, ("my group", 12));
    let failure = group(":3").unwrap_err();
    assert_eq!(failure.expected.as_str(), "cell ref group name");
    assert_eq!(failure.context, "");
    let failure = group("group").unwrap_err();
    assert_eq!(failure.expected.as_str(), "cell ref group index");
    assert_eq!(failure.context, "group");
    assert_eq!(failure.rest, "group");
    let failure = group("group:x").unwrap_err();
    assert_eq!(failure.context, "group:");
}

#[test]
fn group_all_parses_a_name_with_the_token_for_all() {
    let success = group_all("group:*,").unwrap();
    assert_eq!(success.value, "group");
    assert_eq!(success.token, "group:*");
    assert_eq!(success.rest, ",");
    let failure = group_all("group:3").unwrap_err();
    assert_eq!(failure.expected.as_str(), "cell ref group all");
    assert_eq!(failure.context, "group:");
    assert_eq!(failure.rest, "group:3");
    assert!(group_all("group").is_err());
}

#[test]
fn range_suffix_parses_the_separator_and_the_upper_bound() {
    let success = range_suffix(IndexRule).parse("-:9,").unwrap();
    assert_eq!(success.value, 9);
    assert_eq!(success.token, "-:9");
    assert_eq!(success.rest, ",");
    let success = range_suffix(IndexRule).parse("  -\t:9").unwrap();
    assert_eq!(success.value, 9);
    assert_eq!(success.token, "  -\t:9");
    assert!(range_suffix(IndexRule).parse(":9").is_err());
    assert!(range_suffix(IndexRule).parse("-9").is_err());
}

#[test]
fn cell_ref_parses_every_kind_of_reference() {
    match cell_ref(":1.2.3").unwrap().value {
        CellRef::Position(position) => {
            assert_eq!(position, Position { page: 1, line: 2, column: 3 })
        },
        _ => panic!("a position"),
    }
    match cell_ref(":3").unwrap().value {
        CellRef::Index(idx) => assert_eq!(idx, 3),
        _ => panic!("an index"),
    }
    match cell_ref("grp:4").unwrap().value {
        CellRef::Group { group, idx } => {
            assert_eq!(group.as_str(), "grp");
            assert_eq!(idx, 4);
        },
        _ => panic!("a group"),
    }
    let success = cell_ref("plain, next").unwrap();
    match success.value {
        CellRef::Name(name) => assert_eq!(name.as_str(), "plain"),
        _ => panic!("a name"),
    }
    assert_eq!(success.token, "plain");
    assert_eq!(success.rest, ", next");
}

#[test]
fn cell_ref_takes_an_index_where_the_position_breaks_off() {
    let success = cell_ref(":1.2").unwrap();
    match success.value {
        CellRef::Index(idx) => assert_eq!(idx, 1),
        _ => panic!("an index"),
    }
    assert_eq!(success.token, ":1");
    assert_eq!(success.rest, ".2");
}

#[test]
fn cell_ref_fails_on_a_reserved_char() {
    let failure = cell_ref("*").unwrap_err();
    assert_eq!(failure.expected.as_str(), "cell ref value");
    assert_eq!(failure.context, "");
    assert_eq!(failure.rest, "*");
    assert_eq!(parse_source(&failure).expected.as_str(), "cell ref name");
    assert!(cell_ref("").is_err());
}

#[test]
fn cell_selector_parses_a_position_selector_with_a_wildcard() {
    let success = cell_selector(":5.3.*").unwrap();
    match success.value {
        CellSelector::PositionSelector(selector) => {
            assert_eq!(selector, PositionSelector { page: Some(5), line: Some(3), column: None })
        },
        _ => panic!("a position selector"),
    }
    assert_eq!(success.token, ":5.3.*");
    assert_eq!(success.rest, "");
}

#[test]
fn cell_selector_parses_a_position_range() {
    let success = cell_selector(":5.3.2-:6.0.0").unwrap();
    match success.value {
        CellSelector::PositionRange { low, high } => {
            assert_eq!(low, Position { page: 5, line: 3, column: 2 });
            assert_eq!(high, Position { page: 6, line: 0, column: 0 });
        },
        _ => panic!("a position range"),
    }
    assert_eq!(success.token, ":5.3.2-:6.0.0");
    assert_eq!(success.rest, "");
}

#[test]
fn cell_selector_fails_on_a_position_range_in_the_wrong_order() {
    let failure = cell_selector(":6.0.0-:5.3.2").unwrap_err();
    assert_eq!(failure.expected.as_str(), "valid position range");
    assert_eq!(failure.context, ":6.0.0-:5.3.2");
    assert_eq!(failure.rest, ":6.0.0-:5.3.2");
    match selector_source(&failure) {
        InvalidCellSelector::PositionRangeOrder { low, high } => {
            assert_eq!(*low, Position { page: 6, line: 0, column: 0 });
            assert_eq!(*high, Position { page: 5, line: 3, column: 2 });
        },
        _ => panic!("the order of the positions"),
    }
}

#[test]
fn cell_selector_parses_every_kind_of_selector() {
    let cases = [
        ("*", "all", ""),
        ("*x", "all", "x"),
        (":1.2.3", "position Some(1).Some(2).Some(3)", ""),
        (":*.2.*", "position None.Some(2).None", ""),
        (":1.2.3 - :1.2.3", "position 1.2.3-1.2.3", ""),
        (":12", "index 12", ""),
        (":12, x", "index 12", ", x"),
        (":1-:5", "index 1-5", ""),
        (":1 - :5", "index 1-5", ""),
        (":3-:3", "index 3-3", ""),
        (":1-x", "index 1", "-x"),
        ("grp:*", "group grp:*", ""),
        ("grp:3", "group grp:3", ""),
        ("grp:3-grp:9", "group grp:3-9", ""),
        ("my grp:3 - my grp :9", "group my grp:3-9", ""),
        ("name1", "name name1", ""),
        ("name one, two", "name name one", ", two"),
        (":1.2", "index 1", ".2"),
    ];
    for (text, expected, rest) in cases.iter() {
        let success = cell_selector(text).unwrap();
        assert_eq!(describe(&success.value), *expected, "selector of {:?}", text);
        assert_eq!(success.rest, *rest, "rest of {:?}", text);
        assert_eq!(success.token, &text[..text.len() - rest.len()], "token of {:?}", text);
    }
}

#[test]
fn cell_selector_fails_on_ranges_that_make_no_selector() {
    let failure = cell_selector(":9-:3").unwrap_err();
    assert_eq!(failure.expected.as_str(), "valid index range");
    assert_eq!(failure.context, ":9-:3");
    assert_eq!(failure.rest, ":9-:3");
    match selector_source(&failure) {
        InvalidCellSelector::IndexRangeOrder { low, high } => {
            assert_eq!((*low, *high), (9, 3));
        },
        _ => panic!("the order of the indices"),
    }
    let failure = cell_selector("a:1-b:2, x").unwrap_err();
    assert_eq!(failure.expected.as_str(), "valid group range");
    assert_eq!(failure.context, "a:1-b:2");
    assert_eq!(failure.rest, "a:1-b:2, x");
    match selector_source(&failure) {
        InvalidCellSelector::GroupRangeMismatch { low, high } => {
            assert_eq!(low, "a");
            assert_eq!(high, "b");
        },
        _ => panic!("the groups differ"),
    }
    let failure = cell_selector("a:5-a:2").unwrap_err();
    match selector_source(&failure) {
        InvalidCellSelector::GroupRangeOrder { group, low, high } => {
            assert_eq!(group, "a");
            assert_eq!((*low, *high), (5, 2));
        },
        _ => panic!("the order of the indices in the group"),
    }
}

#[test]
fn cell_selector_fails_where_no_alternative_parses() {
    let failure = cell_selector(",").unwrap_err();
    assert_eq!(failure.expected.as_str(), "cell selector value");
    assert_eq!(failure.context, "");
    assert_eq!(failure.rest, ",");
    assert!(cell_selector("").is_err());
    assert!(cell_selector(":").is_err());
}

#[test]
fn cell_selection_parses_selectors_in_order() {
    let success = cell_selection("*, name1, :12, group:3-group:9").unwrap();
    let described: Vec<String> = success.value.selectors.iter().map(describe).collect();
    assert_eq!(described, vec!["all", "name name1", "index 12", "group group:3-9"]);
    assert_eq!(success.token, "*, name1, :12, group:3-group:9");
    assert_eq!(success.rest, "");
}

#[test]
fn cell_selection_keeps_the_order_of_the_text() {
    let success = cell_selection("group:3-group:9, :12, name1, *").unwrap();
    let described: Vec<String> = success.value.selectors.iter().map(describe).collect();
    assert_eq!(described, vec!["group group:3-9", "index 12", "name name1", "all"]);
    let success = cell_selection(":12,*,*,:12").unwrap();
    let described: Vec<String> = success.value.selectors.iter().map(describe).collect();
    assert_eq!(described, vec!["index 12", "all", "all", "index 12"]);
}

#[test]
fn cell_selection_of_one_selector() {
    let success = cell_selection(":1.2.3").unwrap();
    assert_eq!(success.value.selectors.len(), 1);
    let success = cell_selection("a , b ,").unwrap();
    let described: Vec<String> = success.value.selectors.iter().map(describe).collect();
    assert_eq!(described, vec!["name a", "name b"]);
    assert_eq!(success.token, "a , b ");
    assert_eq!(success.rest, ",");
}

#[test]
fn cell_selection_fails_without_a_selector() {
    let failure = cell_selection("").unwrap_err();
    assert_eq!(failure.expected.as_str(), "cell selection");
    assert_eq!(failure.context, "");
    assert_eq!(failure.rest, "");
    assert_eq!(parse_source(&failure).expected.as_str(), "cell selector value");
    assert!(cell_selection(", a").is_err());
}

#[test]
fn cell_selection_ends_before_a_range_that_makes_no_selector() {
    let failure = cell_selection(":9-:3").unwrap_err();
    assert_eq!(failure.expected.as_str(), "cell selection");
    assert_eq!(parse_source(&failure).expected.as_str(), "valid index range");
    let success = cell_selection("*, :9-:3").unwrap();
    assert_eq!(success.value.selectors.len(), 1);
    assert_eq!(success.rest, ", :9-:3");
}
