//! Colours of the frame: the flat shades of floor and ceiling and one per
//! wall material.

use crate::raycast::WallType;
use vstd::prelude::*;

verus! {

/// A colour, as red, green and blue.
#[derive(Debug, Clone, Copy, PartialEq, Eq, Structural)]
pub struct Color {
    pub r: u8,
    pub g: u8,
    pub b: u8,
}

/// The grey level of a cleared frame.
pub const CLEAR_LEVEL: u8 = 0;

/// The grey level of the flat ceiling.
pub const CEILING_LEVEL: u8 = 56;

/// The grey level of the flat floor.
pub const FLOOR_LEVEL: u8 = 112;

/// The grey of the given level.
pub open spec fn gray_of(level: u8) -> Color {
    Color { r: level, g: level, b: level }
}

/// The grey of the given level.
pub fn gray(level: u8) -> (color: Color)
    ensures
        color == gray_of(level),
{
    Color { r: level, g: level, b: level }
}

/// The colour a wall of the given material is drawn in.
pub open spec fn wall_color_of(wall: WallType) -> Color {
    match wall {
        WallType::Stone => Color { r: 128, g: 128, b: 128 },
        WallType::Wood => Color { r: 139, g: 69, b: 19 },
        WallType::Metal => Color { r: 192, g: 192, b: 192 },
    }
}

/// The colour a wall of the given material is drawn in.
pub fn wall_color(wall: WallType) -> (color: Color)
    ensures
        color == wall_color_of(wall),
{
    match wall {
        WallType::Stone => Color { r: 128, g: 128, b: 128 },
        WallType::Wood => Color { r: 139, g: 69, b: 19 },
        WallType::Metal => Color { r: 192, g: 192, b: 192 },
    }
}

} // verus!
