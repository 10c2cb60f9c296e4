//! A text-grammar engine for a palette-addressing language: a library of
//! backtracking parser combinators, and on top of it the grammars for cell
//! references, cell selections and color literals.
//!
//! - [`text`] holds what the parsers need of characters and string slices.
//! - [`parse`] holds the parse results, the [`parse::Parser`] trait, the
//!   primitive parsers, the combinators, the grammars, and the laws that
//!   are proved of them.
//! - [`cell`] and [`color`] hold the values that the grammars produce.
//!
//! Every parser is a function of the text that it is given: `spec_parse`
//! says what the result is, and `parse` is proved to compute it. A text is
//! the sequence of its characters; lengths and positions count characters.

pub mod cell;
pub mod color;
pub mod parse;
pub mod text;

pub use self::cell::CellRef;
pub use self::cell::CellSelection;
pub use self::cell::CellSelector;
pub use self::cell::InvalidCellSelector;
pub use self::cell::Position;
pub use self::cell::PositionSelector;
pub use self::color::Cmyk;
pub use self::color::Color;
pub use self::color::Hsl;
pub use self::color::Hsv;
pub use self::color::Rgb;
pub use self::color::Xyz;
pub use self::text::Text;
