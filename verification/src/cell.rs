//! Palette cell references and selectors.

pub mod position;

pub use self::position::Position;

use crate::text::push_decimal;
use crate::text::spec_decimal;
use crate::text::text_eq;
use crate::text::Text;
use vstd::prelude::*;
use vstd::std_specs::convert::FromSpecImpl;

verus! {

////////////////////////////////////////////////////////////////////////////////
// Constants
////////////////////////////////////////////////////////////////////////////////

/// The token that selects all cells, or all values of a position field.
pub const REF_ALL_TOKEN: char = '*';

/// The token that separates the selectors of a selection.
pub const REF_SEP_TOKEN: char = ',';

/// The token that separates the fields of a position.
pub const REF_POS_SEP_TOKEN: char = '.';

/// The token that starts an index, a position or the index within a group.
pub const REF_PREFIX_TOKEN: char = ':';

/// The token that stands between the bounds of a range.
pub const REF_RANGE_TOKEN: char = '-';

////////////////////////////////////////////////////////////////////////////////
// CellRef
////////////////////////////////////////////////////////////////////////////////

/// A reference to a cell in a palette.
#[derive(Debug)]
pub enum CellRef<'name> {
    /// A reference to a cell based on an internal index.
    Index(u32),
    /// A reference to a cell based on an assigned name.
    Name(Text<'name>),
    /// A reference to a cell based on an assigned position.
    Position(Position),
    /// A reference to a cell based on an assigned group and index within that
    /// group.
    Group {
        /// The name of the group.
        group: Text<'name>,
        /// The index of the cell within the group.
        idx: u32,
    },
}

/// The mathematical content of a [`CellRef`].
pub enum CellRefView {
    Index(u32),
    Name(Seq<char>),
    Position(Position),
    Group { group: Seq<char>, idx: u32 },
}

impl<'name> DeepView for CellRef<'name> {
    type V = CellRefView;

    open spec fn deep_view(&self) -> CellRefView {
        match self {
            CellRef::Index(idx) => CellRefView::Index(*idx),
            CellRef::Name(name) => CellRefView::Name(name@),
            CellRef::Position(position) => CellRefView::Position(*position),
            CellRef::Group { group, idx } => CellRefView::Group { group: group@, idx: *idx },
        }
    }
}

impl<'name> CellRef<'name> {
    /// Converts a `CellRef` to a static lifetime.
    pub fn into_static(self) -> (r: CellRef<'static>)
        ensures
            r.deep_view() == self.deep_view(),
    {
        match self {
            CellRef::Index(idx) => CellRef::Index(idx),
            CellRef::Position(position) => CellRef::Position(position),
            CellRef::Name(name) => CellRef::Name(name.into_static()),
            CellRef::Group { group, idx } => CellRef::Group { group: group.into_static(), idx },
        }
    }
}

////////////////////////////////////////////////////////////////////////////////
// PositionSelector
////////////////////////////////////////////////////////////////////////////////

/// A pattern of cell positions: each field is given, or stands for all of
/// its values.
#[derive(Debug, Clone, Copy, PartialEq, Eq, Structural)]
pub struct PositionSelector {
    /// The page number of the cell, or all pages.
    pub page: Option<u16>,
    /// The line number of the cell, or all lines.
    pub line: Option<u16>,
    /// The column number of the cell, or all columns.
    pub column: Option<u16>,
}

impl DeepView for PositionSelector {
    type V = PositionSelector;

    open spec fn deep_view(&self) -> PositionSelector {
        *self
    }
}

impl PositionSelector {
    /// The selector of one position.
    pub open spec fn spec_from(position: Position) -> PositionSelector {
        PositionSelector {
            page: Some(position.page),
            line: Some(position.line),
            column: Some(position.column),
        }
    }

    /// True if the position is one of those that the selector stands for.
    pub open spec fn spec_selects(self, position: Position) -> bool {
        &&& self.page matches Some(page) ==> page == position.page
        &&& self.line matches Some(line) ==> line == position.line
        &&& self.column matches Some(column) ==> column == position.column
    }

    /// Returns the selector of one position.
    pub fn from(position: Position) -> (r: PositionSelector)
        ensures
            r == PositionSelector::spec_from(position),
    {
        PositionSelector {
            page: Some(position.page),
            line: Some(position.line),
            column: Some(position.column),
        }
    }

    /// Returns the selector of all positions.
    pub fn all() -> (r: PositionSelector)
        ensures
            r == (PositionSelector { page: None, line: None, column: None }),
    {
        PositionSelector { page: None, line: None, column: None }
    }

    /// Returns true if the position is one of those that the selector stands
    /// for.
    pub fn selects(&self, position: &Position) -> (r: bool)
        ensures
            r == self.spec_selects(*position),
    {
        let page = match self.page {
            Some(page) => page == position.page,
            None => true,
        };
        let line = match self.line {
            Some(line) => line == position.line,
            None => true,
        };
        let column = match self.column {
            Some(column) => column == position.column,
            None => true,
        };
        page && line && column
    }
}

////////////////////////////////////////////////////////////////////////////////
// InvalidCellSelector
////////////////////////////////////////////////////////////////////////////////

/// The reason why the two bounds of a range do not make a cell selector.
#[derive(Debug)]
#[allow(inconsistent_fields)]
pub enum InvalidCellSelector {
    /// The upper index is below the lower index.
    IndexRangeOrder { low: u32, high: u32 },
    /// The upper position comes before the lower position.
    PositionRangeOrder { low: Position, high: Position },
    /// The upper index is below the lower index within the group.
    GroupRangeOrder { group: String, low: u32, high: u32 },
    /// The two bounds name different groups.
    GroupRangeMismatch { low: String, high: String },
}

/// The mathematical content of an [`InvalidCellSelector`].
#[allow(inconsistent_fields)]
pub enum InvalidCellSelectorView {
    IndexRangeOrder { low: u32, high: u32 },
    PositionRangeOrder { low: Position, high: Position },
    GroupRangeOrder { group: Seq<char>, low: u32, high: u32 },
    GroupRangeMismatch { low: Seq<char>, high: Seq<char> },
}

impl DeepView for InvalidCellSelector {
    type V = InvalidCellSelectorView;

    open spec fn deep_view(&self) -> InvalidCellSelectorView {
        match self {
            InvalidCellSelector::IndexRangeOrder { low, high } => {
                InvalidCellSelectorView::IndexRangeOrder { low: *low, high: *high }
            },
            InvalidCellSelector::PositionRangeOrder { low, high } => {
                InvalidCellSelectorView::PositionRangeOrder { low: *low, high: *high }
            },
            InvalidCellSelector::GroupRangeOrder { group, low, high } => {
                InvalidCellSelectorView::GroupRangeOrder { group: group@, low: *low, high: *high }
            },
            InvalidCellSelector::GroupRangeMismatch { low, high } => {
                InvalidCellSelectorView::GroupRangeMismatch { low: low@, high: high@ }
            },
        }
    }
}

/// The text that writes a position: `:`, the page, `.`, the line, `.` and
/// the column.
pub open spec fn spec_position_text(position: Position) -> Seq<char> {
    seq![REF_PREFIX_TOKEN] + spec_decimal(position.page as nat) + seq![REF_POS_SEP_TOKEN]
        + spec_decimal(position.line as nat) + seq![REF_POS_SEP_TOKEN] + spec_decimal(
        position.column as nat,
    )
}

/// Appends the text that writes a position to `out`.
fn push_position(out: &mut String, position: Position)
    ensures
        final(out)@ == old(out)@ + spec_position_text(position),
{
    out.push(REF_PREFIX_TOKEN);
    push_decimal(out, position.page as u128);
    out.push(REF_POS_SEP_TOKEN);
    push_decimal(out, position.line as u128);
    out.push(REF_POS_SEP_TOKEN);
    push_decimal(out, position.column as u128);
    assert(final(out)@ =~= old(out)@ + spec_position_text(position));
}

impl InvalidCellSelectorView {
    /// The message that describes why the bounds make no selector.
    pub open spec fn message(self) -> Seq<char> {
        match self {
            InvalidCellSelectorView::IndexRangeOrder { low, high } => {
                "invalid index range: upper bound :"@ + spec_decimal(high as nat)
                    + " is below lower bound :"@ + spec_decimal(low as nat)
            },
            InvalidCellSelectorView::PositionRangeOrder { low, high } => {
                "invalid position range: upper bound "@ + spec_position_text(high)
                    + " comes before lower bound "@ + spec_position_text(low)
            },
            InvalidCellSelectorView::GroupRangeOrder { group, low, high } => {
                "invalid group range: upper bound "@ + group + seq![REF_PREFIX_TOKEN]
                    + spec_decimal(high as nat) + " is below lower bound "@ + group
                    + seq![REF_PREFIX_TOKEN] + spec_decimal(low as nat)
            },
            InvalidCellSelectorView::GroupRangeMismatch { low, high } => {
                "invalid group range: the bounds name the groups "@ + low + " and "@ + high
            },
        }
    }
}

impl InvalidCellSelector {
    /// Returns the message that describes why the bounds make no selector.
    pub fn message(&self) -> (r: String)
        ensures
            r@ == self.deep_view().message(),
    {
        match self {
            InvalidCellSelector::IndexRangeOrder { low, high } => {
                let mut r = String::from_str("invalid index range: upper bound :");
                push_decimal(&mut r, *high as u128);
                r.append(" is below lower bound :");
                push_decimal(&mut r, *low as u128);
                r
            },
            InvalidCellSelector::PositionRangeOrder { low, high } => {
                let mut r = String::from_str("invalid position range: upper bound ");
                push_position(&mut r, *high);
                r.append(" comes before lower bound ");
                push_position(&mut r, *low);
                r
            },
            InvalidCellSelector::GroupRangeOrder { group, low, high } => {
                let mut r = String::from_str("invalid group range: upper bound ");
                r.append(group.as_str());
                r.push(REF_PREFIX_TOKEN);
                push_decimal(&mut r, *high as u128);
                r.append(" is below lower bound ");
                r.append(group.as_str());
                r.push(REF_PREFIX_TOKEN);
                push_decimal(&mut r, *low as u128);
                assert(r@ =~= self.deep_view().message());
                r
            },
            InvalidCellSelector::GroupRangeMismatch { low, high } => {
                let mut r = String::from_str("invalid group range: the bounds name the groups ");
                r.append(low.as_str());
                r.append(" and ");
                r.append(high.as_str());
                r
            },
        }
    }
}

////////////////////////////////////////////////////////////////////////////////
// CellSelector
////////////////////////////////////////////////////////////////////////////////

/// A selector of cells in a palette.
#[derive(Debug)]
#[allow(inconsistent_fields)]
pub enum CellSelector<'name> {
    /// All cells.
    All,
    /// The cell with an index.
    Index(u32),
    /// The cells with an index from `low` to `high`.
    IndexRange {
        /// The lower bound of the range.
        low: u32,
        /// The upper bound of the range.
        high: u32,
    },
    /// The cells at the positions that a position selector stands for.
    PositionSelector(PositionSelector),
    /// The cells at a position from `low` to `high`.
    PositionRange {
        /// The lower bound of the range.
        low: Position,
        /// The upper bound of the range.
        high: Position,
    },
    /// The cell with a name.
    Name(Text<'name>),
    /// The cell with an index within a group.
    Group {
        /// The name of the group.
        group: Text<'name>,
        /// The index of the cell within the group.
        idx: u32,
    },
    /// The cells of a group with an index from `low` to `high` within the
    /// group.
    GroupRange {
        /// The name of the group.
        group: Text<'name>,
        /// The lower bound of the range.
        low: u32,
        /// The upper bound of the range.
        high: u32,
    },
    /// All cells of a group.
    GroupAll(Text<'name>),
}

/// The mathematical content of a [`CellSelector`].
#[allow(inconsistent_fields)]
pub enum CellSelectorView {
    All,
    Index(u32),
    IndexRange { low: u32, high: u32 },
    PositionSelector(PositionSelector),
    PositionRange { low: Position, high: Position },
    Name(Seq<char>),
    Group { group: Seq<char>, idx: u32 },
    GroupRange { group: Seq<char>, low: u32, high: u32 },
    GroupAll(Seq<char>),
}

impl<'name> DeepView for CellSelector<'name> {
    type V = CellSelectorView;

    open spec fn deep_view(&self) -> CellSelectorView {
        match self {
            CellSelector::All => CellSelectorView::All,
            CellSelector::Index(idx) => CellSelectorView::Index(*idx),
            CellSelector::IndexRange { low, high } => CellSelectorView::IndexRange {
                low: *low,
                high: *high,
            },
            CellSelector::PositionSelector(selector) => CellSelectorView::PositionSelector(
                *selector,
            ),
            CellSelector::PositionRange { low, high } => CellSelectorView::PositionRange {
                low: *low,
                high: *high,
            },
            CellSelector::Name(name) => CellSelectorView::Name(name@),
            CellSelector::Group { group, idx } => CellSelectorView::Group {
                group: group@,
                idx: *idx,
            },
            CellSelector::GroupRange { group, low, high } => CellSelectorView::GroupRange {
                group: group@,
                low: *low,
                high: *high,
            },
            CellSelector::GroupAll(group) => CellSelectorView::GroupAll(group@),
        }
    }
}

impl CellSelectorView {
    /// True if the selector is valid: the upper bound of a range is not
    /// below its lower bound.
    pub open spec fn valid(self) -> bool {
        match self {
            CellSelectorView::IndexRange { low, high } => low <= high,
            CellSelectorView::PositionRange { low, high } => !high.spec_before(low),
            CellSelectorView::GroupRange { group, low, high } => low <= high,
            _ => true,
        }
    }
}

/// The view of what the construction of a range gives.
pub open spec fn range_view<'name>(r: Result<CellSelector<'name>, InvalidCellSelector>) -> Result<
    CellSelectorView,
    InvalidCellSelectorView,
> {
    match r {
        Ok(selector) => Ok(selector.deep_view()),
        Err(error) => Err(error.deep_view()),
    }
}

/// The range of the indices from `low` to `high`, which must not be below
/// `low`.
pub open spec fn spec_index_range(low: u32, high: u32) -> Result<
    CellSelectorView,
    InvalidCellSelectorView,
> {
    if high < low {
        Err(InvalidCellSelectorView::IndexRangeOrder { low, high })
    } else {
        Ok(CellSelectorView::IndexRange { low, high })
    }
}

/// The range of the positions from `low` to `high`, which must not come
/// before `low`.
pub open spec fn spec_position_range(low: Position, high: Position) -> Result<
    CellSelectorView,
    InvalidCellSelectorView,
> {
    if high.spec_before(low) {
        Err(InvalidCellSelectorView::PositionRangeOrder { low, high })
    } else {
        Ok(CellSelectorView::PositionRange { low, high })
    }
}

/// The range within a group of the indices from `idx_low` to `idx_high`:
/// both bounds must name the same group, and `idx_high` must not be below
/// `idx_low`.
pub open spec fn spec_group_range(
    group_low: Seq<char>,
    idx_low: u32,
    group_high: Seq<char>,
    idx_high: u32,
) -> Result<CellSelectorView, InvalidCellSelectorView> {
    if group_low != group_high {
        Err(InvalidCellSelectorView::GroupRangeMismatch { low: group_low, high: group_high })
    } else if idx_high < idx_low {
        Err(
            InvalidCellSelectorView::GroupRangeOrder {
                group: group_low,
                low: idx_low,
                high: idx_high,
            },
        )
    } else {
        Ok(CellSelectorView::GroupRange { group: group_low, low: idx_low, high: idx_high })
    }
}

impl<'name> CellSelector<'name> {
    /// Constructs the selector of a range of indices.
    pub fn index_range(low: u32, high: u32) -> (r: Result<
        CellSelector<'name>,
        InvalidCellSelector,
    >)
        ensures
            range_view(r) == spec_index_range(low, high),
            r matches Ok(selector) ==> selector.deep_view().valid(),
    {
        if high < low {
            Err(InvalidCellSelector::IndexRangeOrder { low, high })
        } else {
            Ok(CellSelector::IndexRange { low, high })
        }
    }

    /// Constructs the selector of a range of positions.
    pub fn position_range(low: Position, high: Position) -> (r: Result<
        CellSelector<'name>,
        InvalidCellSelector,
    >)
        ensures
            range_view(r) == spec_position_range(low, high),
            r matches Ok(selector) ==> selector.deep_view().valid(),
    {
        if high < low {
            Err(InvalidCellSelector::PositionRangeOrder { low, high })
        } else {
            Ok(CellSelector::PositionRange { low, high })
        }
    }

    /// Constructs the selector of a range of indices within a group.
    pub fn group_range(
        group_low: Text<'name>,
        idx_low: u32,
        group_high: Text<'name>,
        idx_high: u32,
    ) -> (r: Result<CellSelector<'name>, InvalidCellSelector>)
        ensures
            range_view(r) == spec_group_range(group_low@, idx_low, group_high@, idx_high),
            r matches Ok(selector) ==> selector.deep_view().valid(),
    {
        if !text_eq(group_low.as_str(), group_high.as_str()) {
            Err(
                InvalidCellSelector::GroupRangeMismatch {
                    low: group_low.into_owned(),
                    high: group_high.into_owned(),
                },
            )
        } else if idx_high < idx_low {
            Err(
                InvalidCellSelector::GroupRangeOrder {
                    group: group_low.into_owned(),
                    low: idx_low,
                    high: idx_high,
                },
            )
        } else {
            Ok(CellSelector::GroupRange { group: group_low, low: idx_low, high: idx_high })
        }
    }
}

////////////////////////////////////////////////////////////////////////////////
// CellSelection
////////////////////////////////////////////////////////////////////////////////

/// A selection of cells in a palette: cell selectors in a given order, in
/// which a selector may occur more than once.
#[derive(Debug)]
pub struct CellSelection<'name> {
    /// The selectors.
    pub selectors: Vec<CellSelector<'name>>,
}

impl<'name> CellSelection<'name> {
    /// True if every selector of the selection is valid.
    pub open spec fn valid(self) -> bool {
        forall|i: int|
            0 <= i < self.deep_view().len() ==> (#[trigger] self.deep_view()[i]).valid()
    }
}

impl<'name> DeepView for CellSelection<'name> {
    type V = Seq<CellSelectorView>;

    open spec fn deep_view(&self) -> Seq<CellSelectorView> {
        self.selectors.deep_view()
    }
}

impl<'name> From<Vec<CellSelector<'name>>> for CellSelection<'name> {
    fn from(selectors: Vec<CellSelector<'name>>) -> (r: CellSelection<'name>) {
        CellSelection { selectors }
    }
}

impl<'name> FromSpecImpl<Vec<CellSelector<'name>>> for CellSelection<'name> {
    open spec fn obeys_from_spec() -> bool {
        true
    }

    open spec fn from_spec(selectors: Vec<CellSelector<'name>>) -> CellSelection<'name> {
        CellSelection { selectors }
    }
}

} // verus!
