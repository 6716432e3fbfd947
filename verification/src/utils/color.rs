use vstd::prelude::*;
use crate::utils::number::{clamped, multiply_divide, ratio, UNIT};

verus! {

/// Represents a RGB color
#[derive(PartialEq, Eq, Clone, Copy, Debug, Structural)]
pub struct RGBColor {
    /// The red component of a color
    pub red: u8,
    /// The green component of a color
    pub green: u8,
    /// The blue component of a color
    pub blue: u8,
}

/// The share `intensity` of `component`, rounded down, but neither below
/// zero nor above `component`. An intensity of `UNIT` is full light.
pub open spec fn darkened(component: u8, intensity: int) -> int {
    clamped(ratio(component as int, intensity, UNIT as int), 0, component as int)
}

impl RGBColor {
    pub fn black() -> (color: RGBColor)
        ensures
            color == (RGBColor { red: 0, green: 0, blue: 0 }),
    {
        RGBColor { red: 0, green: 0, blue: 0 }
    }

    pub fn dark_gray() -> (color: RGBColor)
        ensures
            color == (RGBColor { red: 50, green: 50, blue: 50 }),
    {
        RGBColor { red: 50, green: 50, blue: 50 }
    }

    pub fn red() -> (color: RGBColor)
        ensures
            color == (RGBColor { red: 180, green: 0, blue: 0 }),
    {
        RGBColor { red: 180, green: 0, blue: 0 }
    }

    pub fn green() -> (color: RGBColor)
        ensures
            color == (RGBColor { red: 50, green: 128, blue: 0 }),
    {
        RGBColor { red: 50, green: 128, blue: 0 }
    }

    pub fn blue() -> (color: RGBColor)
        ensures
            color == (RGBColor { red: 0, green: 64, blue: 128 }),
    {
        RGBColor { red: 0, green: 64, blue: 128 }
    }

    pub fn yellow() -> (color: RGBColor)
        ensures
            color == (RGBColor { red: 255, green: 184, blue: 0 }),
    {
        RGBColor { red: 255, green: 184, blue: 0 }
    }

    pub fn orange() -> (color: RGBColor)
        ensures
            color == (RGBColor { red: 255, green: 80, blue: 0 }),
    {
        RGBColor { red: 255, green: 80, blue: 0 }
    }
}

impl RGBColor {
    /// This color under light of the given intensity: each channel darkened
    /// on its own.
    pub open spec fn lit(self, intensity: int) -> RGBColor {
        RGBColor {
            red: darkened(self.red, intensity) as u8,
            green: darkened(self.green, intensity) as u8,
            blue: darkened(self.blue, intensity) as u8,
        }
    }

    /// Creates a new color by darkening the color to the given intensity, in
    /// millionths. No channel gets brighter than it was.
    pub fn adjust_light_intensity(&self, intensity: i64) -> (color: RGBColor)
        ensures
            color == self.lit(intensity as int),
            color.red <= self.red,
            color.green <= self.green,
            color.blue <= self.blue,
    {
        RGBColor {
            red: RGBColor::darken_component(self.red, intensity),
            green: RGBColor::darken_component(self.green, intensity),
            blue: RGBColor::darken_component(self.blue, intensity),
        }
    }

    /// Determines the value of a certain color component when darkening a color.
    fn darken_component(component: u8, intensity: i64) -> (value: u8)
        ensures
            value == darkened(component, intensity as int),
            value <= component,
    {
        let share: i128 = multiply_divide(component as i64, intensity, UNIT);
        if share < 0 {
            0
        } else if share > component as i128 {
            component
        } else {
            share as u8
        }
    }
}

} // verus!
