//! Computed style values that the layout and paint stages read.
use vstd::prelude::*;

use crate::display::Display;

verus! {

/// An RGBA color, one byte per channel.
#[derive(Debug, Clone, Copy, PartialEq, Eq, Structural)]
pub struct Color {
    pub r: u8,
    pub g: u8,
    pub b: u8,
    pub a: u8,
}

/// A computed color value: the fully transparent keyword, or a color.
#[derive(Debug, Clone, Copy, PartialEq, Eq, Structural)]
pub enum ColorValue {
    Transparent,
    Rgba(Color),
}

pub open spec fn resolved_color(v: ColorValue) -> Color {
    match v {
        ColorValue::Transparent => Color { r: 0, g: 0, b: 0, a: 0 },
        ColorValue::Rgba(c) => c,
    }
}

impl ColorValue {
    /// The color to paint with; the transparent keyword is black at zero alpha.
    pub fn resolve(&self) -> (r: Color)
        ensures
            r == resolved_color(*self),
    {
        match self {
            ColorValue::Transparent => Color { r: 0, g: 0, b: 0, a: 0 },
            ColorValue::Rgba(c) => *c,
        }
    }

    pub fn is_transparent(&self) -> (r: bool)
        ensures
            r == (*self == ColorValue::Transparent),
    {
        match self {
            ColorValue::Transparent => true,
            _ => false,
        }
    }
}

#[derive(Debug, Clone, Copy, PartialEq, Eq, Structural)]
pub enum BorderStyle {
    Hidden,
    Dotted,
    Dashed,
    Solid,
    Double,
    Groove,
    Ridge,
    Inset,
    Outset,
}

/// The computed style of one border edge; `style` is absent for `border-style: none`.
#[derive(Debug, Clone, Copy, PartialEq, Eq, Structural)]
pub struct BorderSide {
    pub style: Option<BorderStyle>,
    pub color: ColorValue,
}

/// A length in whole pixels, or in percent of a reference length.
#[derive(Debug, Clone, Copy, PartialEq, Eq, Structural)]
pub enum Length {
    Px(i32),
    Percent(i32),
}

/// The length in pixels, percentages taken of `basis`.
pub open spec fn length_px(l: Length, basis: i32) -> int {
    match l {
        Length::Px(v) => v as int,
        Length::Percent(p) => percent_of(p as int * basis as int),
    }
}

/// A hundredth of `x`, rounded toward zero.
pub open spec fn percent_of(x: int) -> int {
    if x >= 0 {
        x / 100
    } else {
        -((-x) / 100)
    }
}

impl Length {
    pub fn to_px(&self, basis: i32) -> (r: i64)
        ensures
            r == length_px(*self, basis),
    {
        match self {
            Length::Px(v) => *v as i64,
            Length::Percent(p) => {
                assert(-0x8000_0000_0000_0000 < (*p as int) * (basis as int) < 0x8000_0000_0000_0000) by (nonlinear_arith);
                let x = *p as i64 * basis as i64;
                if x >= 0 {
                    x / 100
                } else {
                    -((-x) / 100)
                }
            },
        }
    }

    pub open spec fn spec_is_zero(self) -> bool {
        match self {
            Length::Px(v) => v == 0,
            Length::Percent(p) => p == 0,
        }
    }
}

/// One corner's radius: its horizontal and vertical extent.
#[derive(Debug, Clone, Copy, PartialEq, Eq, Structural)]
pub struct BorderRadius {
    pub horizontal: Length,
    pub vertical: Length,
}

impl BorderRadius {
    pub open spec fn spec_is_zero(self) -> bool {
        self.horizontal.spec_is_zero() && self.vertical.spec_is_zero()
    }

    pub fn is_zero(&self) -> (r: bool)
        ensures
            r == self.spec_is_zero(),
    {
        let h = match self.horizontal {
            Length::Px(v) => v == 0,
            Length::Percent(p) => p == 0,
        };
        let v = match self.vertical {
            Length::Px(v) => v == 0,
            Length::Percent(p) => p == 0,
        };
        h && v
    }
}

/// The computed values of the properties that layout and paint read.
#[derive(Debug, Clone, Copy, PartialEq, Eq, Structural)]
pub struct ComputedStyle {
    pub display: Display,
    pub background_color: ColorValue,
    pub color: ColorValue,
    pub font_size: i32,
    pub border_top: BorderSide,
    pub border_right: BorderSide,
    pub border_bottom: BorderSide,
    pub border_left: BorderSide,
    pub radius_top_left: BorderRadius,
    pub radius_top_right: BorderRadius,
    pub radius_bottom_left: BorderRadius,
    pub radius_bottom_right: BorderRadius,
}

} // verus!
