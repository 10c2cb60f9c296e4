//! Color literals.
//!
//! A color literal is the text of a color as it was written: the number of
//! an RGB hex code, or the components of a color in functional notation,
//! each component the text of a float.

use vstd::prelude::*;

verus! {

/// An RGB color literal.
#[derive(Debug, Clone, Copy)]
pub enum Rgb<'t> {
    /// The color of a hex code, as the number `0xRRGGBB`.
    Hex(u32),
    /// The color with the given red, green and blue components.
    Ratios {
        /// The red component.
        r: &'t str,
        /// The green component.
        g: &'t str,
        /// The blue component.
        b: &'t str,
    },
}

/// The mathematical content of an [`Rgb`].
pub enum RgbView {
    Hex(u32),
    Ratios { r: Seq<char>, g: Seq<char>, b: Seq<char> },
}

impl<'t> DeepView for Rgb<'t> {
    type V = RgbView;

    open spec fn deep_view(&self) -> RgbView {
        match self {
            Rgb::Hex(hex) => RgbView::Hex(*hex),
            Rgb::Ratios { r, g, b } => RgbView::Ratios { r: r@, g: g@, b: b@ },
        }
    }
}

/// The red, green and blue octets of the number `0xRRGGBB`.
pub open spec fn spec_hex_octets(hex: u32) -> (u8, u8, u8) {
    ((hex / 0x10000 % 0x100) as u8, (hex / 0x100 % 0x100) as u8, (hex % 0x100) as u8)
}

impl<'t> Rgb<'t> {
    /// Returns the red, green and blue octets of the color, if it is the
    /// color of a hex code.
    pub fn hex_octets(&self) -> (r: Option<(u8, u8, u8)>)
        ensures
            r == match self.deep_view() {
                RgbView::Hex(hex) => Some(spec_hex_octets(hex)),
                RgbView::Ratios { .. } => None,
            },
    {
        match self {
            Rgb::Hex(hex) => Some(
                (
                    (*hex / 0x10000 % 0x100) as u8,
                    (*hex / 0x100 % 0x100) as u8,
                    (*hex % 0x100) as u8,
                ),
            ),
            Rgb::Ratios { .. } => None,
        }
    }
}

/// A CMYK color literal.
#[derive(Debug, Clone, Copy)]
pub struct Cmyk<'t> {
    /// The cyan component.
    pub c: &'t str,
    /// The magenta component.
    pub m: &'t str,
    /// The yellow component.
    pub y: &'t str,
    /// The key component.
    pub k: &'t str,
}

/// The mathematical content of a [`Cmyk`].
pub struct CmykView {
    pub c: Seq<char>,
    pub m: Seq<char>,
    pub y: Seq<char>,
    pub k: Seq<char>,
}

impl<'t> DeepView for Cmyk<'t> {
    type V = CmykView;

    open spec fn deep_view(&self) -> CmykView {
        CmykView { c: self.c@, m: self.m@, y: self.y@, k: self.k@ }
    }
}

/// An HSV color literal.
#[derive(Debug, Clone, Copy)]
pub struct Hsv<'t> {
    /// The hue component.
    pub h: &'t str,
    /// The saturation component.
    pub s: &'t str,
    /// The value component.
    pub v: &'t str,
}

/// The mathematical content of an [`Hsv`].
pub struct HsvView {
    pub h: Seq<char>,
    pub s: Seq<char>,
    pub v: Seq<char>,
}

impl<'t> DeepView for Hsv<'t> {
    type V = HsvView;

    open spec fn deep_view(&self) -> HsvView {
        HsvView { h: self.h@, s: self.s@, v: self.v@ }
    }
}

/// An HSL color literal.
#[derive(Debug, Clone, Copy)]
pub struct Hsl<'t> {
    /// The hue component.
    pub h: &'t str,
    /// The saturation component.
    pub s: &'t str,
    /// The lightness component.
    pub l: &'t str,
}

/// The mathematical content of an [`Hsl`].
pub struct HslView {
    pub h: Seq<char>,
    pub s: Seq<char>,
    pub l: Seq<char>,
}

impl<'t> DeepView for Hsl<'t> {
    type V = HslView;

    open spec fn deep_view(&self) -> HslView {
        HslView { h: self.h@, s: self.s@, l: self.l@ }
    }
}

/// An XYZ color literal.
#[derive(Debug, Clone, Copy)]
pub struct Xyz<'t> {
    /// The x component.
    pub x: &'t str,
    /// The y component.
    pub y: &'t str,
    /// The z component.
    pub z: &'t str,
}

/// The mathematical content of an [`Xyz`].
pub struct XyzView {
    pub x: Seq<char>,
    pub y: Seq<char>,
    pub z: Seq<char>,
}

impl<'t> DeepView for Xyz<'t> {
    type V = XyzView;

    open spec fn deep_view(&self) -> XyzView {
        XyzView { x: self.x@, y: self.y@, z: self.z@ }
    }
}

/// A color literal.
#[derive(Debug, Clone, Copy)]
pub enum Color<'t> {
    /// An RGB color.
    Rgb(Rgb<'t>),
    /// A CMYK color.
    Cmyk(Cmyk<'t>),
    /// An HSV color.
    Hsv(Hsv<'t>),
    /// An HSL color.
    Hsl(Hsl<'t>),
    /// An XYZ color.
    Xyz(Xyz<'t>),
}

/// The mathematical content of a [`Color`].
pub enum ColorView {
    Rgb(RgbView),
    Cmyk(CmykView),
    Hsv(HsvView),
    Hsl(HslView),
    Xyz(XyzView),
}

impl<'t> DeepView for Color<'t> {
    type V = ColorView;

    open spec fn deep_view(&self) -> ColorView {
        match self {
            Color::Rgb(rgb) => ColorView::Rgb(rgb.deep_view()),
            Color::Cmyk(cmyk) => ColorView::Cmyk(cmyk.deep_view()),
            Color::Hsv(hsv) => ColorView::Hsv(hsv.deep_view()),
            Color::Hsl(hsl) => ColorView::Hsl(hsl.deep_view()),
            Color::Xyz(xyz) => ColorView::Xyz(xyz.deep_view()),
        }
    }
}

} // verus!
