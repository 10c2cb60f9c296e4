use atma::cell::CellRef;
use atma::cell::CellSelection;
use atma::cell::CellSelector;
use atma::cell::InvalidCellSelector;
use atma::cell::Position;
use atma::cell::PositionSelector;
use atma::text::Text;

fn position(page: u16, line: u16, column: u16) -> Position {
    Position { page, line, column }
}

#[test]
fn positions_are_ordered_by_page_line_and_column() {
    assert!(position(1, 9, 9) < position(2, 0, 0));
    assert!(position(1, 1, 9) < position(1, 2, 0));
    assert!(position(1, 1, 1) < position(1, 1, 2));
    assert!(position(1, 1, 1) <= position(1, 1, 1));
    assert!(position(5, 3, 2) < position(6, 0, 0));
    assert!(position(6, 0, 0) > position(5, 3, 2));
    assert_eq!(position(1, 2, 3), position(1, 2, 3));
    assert_ne!(position(1, 2, 3), position(1, 2, 4));
}

#[test]
fn the_partial_order_of_positions_is_their_total_order() {
    let values: [u16; 3] = [0, 1, 65535];
    let mut all = Vec::new();
    for &page in values.iter() {
        for &line in values.iter() {
            for &column in values.iter() {
                all.push(position(page, line, column));
            }
        }
    }
    for a in all.iter() {
        for b in all.iter() {
            assert_eq!(a.partial_cmp(b), Some(a.cmp(b)));
            assert_eq!(
                a.cmp(b),
                (a.page, a.line, a.column).cmp(&(b.page, b.line, b.column))
            );
        }
    }
}

#[test]
fn into_static_keeps_the_reference() {
    let made_static: CellRef<'static> = {
        let local = String::from("local name");
        CellRef::Name(Text::Borrowed(local.as_str())).into_static()
    };
    match made_static {
        CellRef::Name(name) => assert_eq!(name.as_str(), "local name"),
        _ => panic!("a name"),
    }
    let made_static: CellRef<'static> = {
        let local = String::from("grp");
        CellRef::Group { group: Text::Borrowed(local.as_str()), idx: 7 }.into_static()
    };
    match made_static {
        CellRef::Group { group, idx } => {
            assert_eq!(group.as_str(), "grp");
            assert_eq!(idx, 7);
        },
        _ => panic!("a group"),
    }
    assert!(matches!(CellRef::Index(3).into_static(), CellRef::Index(3)));
    match CellRef::Position(position(1, 2, 3)).into_static() {
        CellRef::Position(p) => assert_eq!(p, position(1, 2, 3)),
        _ => panic!("a position"),
    }
}

#[test]
fn position_selectors_select_positions() {
    let selector = PositionSelector { page: Some(1), line: None, column: Some(3) };
    assert!(selector.selects(&position(1, 0, 3)));
    assert!(selector.selects(&position(1, 9, 3)));
    assert!(!selector.selects(&position(2, 0, 3)));
    assert!(!selector.selects(&position(1, 0, 4)));
    assert!(PositionSelector::all().selects(&position(7, 8, 9)));
    let one = PositionSelector::from(position(7, 8, 9));
    assert_eq!(one, PositionSelector { page: Some(7), line: Some(8), column: Some(9) });
    assert!(one.selects(&position(7, 8, 9)));
    assert!(!one.selects(&position(7, 8, 0)));
}

#[test]
fn index_range_needs_its_bounds_in_order() {
    assert!(matches!(
        CellSelector::index_range(1, 5),
        Ok(CellSelector::IndexRange { low: 1, high: 5 })
    ));
    assert!(matches!(
        CellSelector::index_range(5, 5),
        Ok(CellSelector::IndexRange { low: 5, high: 5 })
    ));
    assert!(matches!(
        CellSelector::index_range(5, 1),
        Err(InvalidCellSelector::IndexRangeOrder { low: 5, high: 1 })
    ));
}

#[test]
fn position_range_needs_its_bounds_in_order() {
    match CellSelector::position_range(position(5, 3, 2), position(6, 0, 0)) {
        Ok(CellSelector::PositionRange { low, high }) => {
            assert_eq!(low, position(5, 3, 2));
            assert_eq!(high, position(6, 0, 0));
        },
        _ => panic!("a position range"),
    }
    assert!(CellSelector::position_range(position(1, 1, 1), position(1, 1, 1)).is_ok());
    match CellSelector::position_range(position(6, 0, 0), position(5, 3, 2)) {
        Err(InvalidCellSelector::PositionRangeOrder { low, high }) => {
            assert_eq!(low, position(6, 0, 0));
            assert_eq!(high, position(5, 3, 2));
        },
        _ => panic!("the order of the positions"),
    }
    assert!(CellSelector::position_range(position(1, 1, 2), position(1, 1, 1)).is_err());
    assert!(CellSelector::position_range(position(1, 2, 0), position(1, 1, 9)).is_err());
}

#[test]
fn group_range_needs_one_group_and_its_bounds_in_order() {
    match CellSelector::group_range(Text::Borrowed("g"), 3, Text::Borrowed("g"), 9) {
        Ok(CellSelector::GroupRange { group, low, high }) => {
            assert_eq!(group.as_str(), "g");
            assert_eq!((low, high), (3, 9));
        },
        _ => panic!("a group range"),
    }
    match CellSelector::group_range(Text::Borrowed("g"), 3, Text::Borrowed("h"), 9) {
        Err(InvalidCellSelector::GroupRangeMismatch { low, high }) => {
            assert_eq!(low, "g");
            assert_eq!(high, "h");
        },
        _ => panic!("the groups differ"),
    }
    match CellSelector::group_range(Text::Borrowed("g"), 9, Text::Owned(String::from("g")), 3) {
        Err(InvalidCellSelector::GroupRangeOrder { group, low, high }) => {
            assert_eq!(group, "g");
            assert_eq!((low, high), (9, 3));
        },
        _ => panic!("the order of the indices"),
    }
}

#[test]
fn a_selection_holds_its_selectors_in_order() {
    let selection = CellSelection::from(vec![CellSelector::Index(2), CellSelector::All]);
    assert_eq!(selection.selectors.len(), 2);
    assert!(matches!(selection.selectors[0], CellSelector::Index(2)));
    assert!(matches!(selection.selectors[1], CellSelector::All));
}

#[test]
fn invalid_selectors_have_messages() {
    assert_eq!(
        InvalidCellSelector::IndexRangeOrder { low: 9, high: 3 }.message(),
        "invalid index range: upper bound :3 is below lower bound :9"
    );
    assert_eq!(
        InvalidCellSelector::PositionRangeOrder {
            low: position(6, 0, 0),
            high: position(5, 3, 2)
        }
        .message(),
        "invalid position range: upper bound :5.3.2 comes before lower bound :6.0.0"
    );
    assert_eq!(
        InvalidCellSelector::GroupRangeOrder { group: String::from("g"), low: 5, high: 2 }
            .message(),
        "invalid group range: upper bound g:2 is below lower bound g:5"
    );
    assert_eq!(
        InvalidCellSelector::GroupRangeMismatch {
            low: String::from("a"),
            high: String::from("b")
        }
        .message(),
        "invalid group range: the bounds name the groups a and b"
    );
}
