//! The arithmetic of the view: which angle a screen column looks along, how
//! tall a wall at a given distance appears, and which rows a span of a given
//! height covers.
//!
//! Angles are binary angles: the full circle is `2^32`, so that a turn past
//! the full circle wraps by itself. Heights and positions of the viewer are
//! 16.16 fixed-point map units.

use vstd::arithmetic::div_mod::lemma_div_denominator;
use vstd::arithmetic::div_mod::lemma_div_is_ordered_by_denominator;
use vstd::prelude::*;

verus! {

/// The horizontal field of view, a sixth of the full circle (sixty degrees).
pub const FIELD_OF_VIEW: u32 = 0x2AAA_AAAA;

/// Half the field of view.
pub const HALF_FIELD_OF_VIEW: u32 = 0x1555_5555;

/// The factor between the reciprocal of a wall's distance and its height on
/// screen, in rows per screen height.
pub const WALL_SCALE: u64 = 100;

/// The angle that screen column `col` of `width` looks along, for a viewer
/// facing `angle`: the columns divide the field of view evenly, the first
/// looking half the field to one side of `angle`.
pub open spec fn column_angle_of(angle: u32, col: u32, width: u32) -> u32 {
    ((angle - HALF_FIELD_OF_VIEW + (col * FIELD_OF_VIEW) / (width as int)) % 0x1_0000_0000) as u32
}

/// The angle of the ray through a screen column.
pub fn column_angle(angle: u32, col: u32, width: u32) -> (ray_angle: u32)
    requires
        col < width,
    ensures
        ray_angle == column_angle_of(angle, col, width),
{
    assert(col * FIELD_OF_VIEW <= 0xFFFF_FFFF * 0x2AAA_AAAA) by (nonlinear_arith)
        requires
            col <= 0xFFFF_FFFF,
            FIELD_OF_VIEW == 0x2AAA_AAAA,
    ;
    let sweep: u64 = (col as u64 * FIELD_OF_VIEW as u64) / (width as u64);
    assert(sweep <= FIELD_OF_VIEW) by {
        assert(col * FIELD_OF_VIEW <= width * FIELD_OF_VIEW) by (nonlinear_arith)
            requires
                col < width,
        ;
        vstd::arithmetic::div_mod::lemma_div_is_ordered(
            col as int * FIELD_OF_VIEW as int,
            width as int * FIELD_OF_VIEW as int,
            width as int,
        );
        vstd::arithmetic::div_mod::lemma_div_multiples_vanish(
            FIELD_OF_VIEW as int,
            width as int,
        );
        assert(width as int * FIELD_OF_VIEW as int == FIELD_OF_VIEW as int * width as int)
            by (nonlinear_arith);
    }
    let turned: u64 = angle as u64 + 0x1_0000_0000 - HALF_FIELD_OF_VIEW as u64 + sweep;
    let wrapped: u64 = turned % 0x1_0000_0000;
    assert(wrapped == (angle - HALF_FIELD_OF_VIEW + sweep) % 0x1_0000_0000) by {
        vstd::arithmetic::div_mod::lemma_mod_multiples_vanish(
            1,
            angle - HALF_FIELD_OF_VIEW + sweep,
            0x1_0000_0000,
        );
    }
    wrapped as u32
}

/// The distance from the viewer at which the floor or ceiling is seen in
/// screen row `row`: the viewer's height times half the screen height,
/// divided by the row's distance from the middle of the screen. The row in
/// the middle looks at the horizon and has no distance.
pub open spec fn plane_distance_of(height: u32, screen_height: u32, row: u32) -> Option<int> {
    if 2 * row == screen_height {
        None
    } else if 2 * row < screen_height {
        Some((height * screen_height) / (screen_height - 2 * row))
    } else {
        Some((height * screen_height) / (2 * row - screen_height))
    }
}

/// Whether a screen row shows ceiling rather than floor: the rows above the
/// horizontal midline do.
pub open spec fn is_ceiling_row(screen_height: u32, row: u32) -> bool {
    row < screen_height / 2
}

/// The distance at which the floor or ceiling is seen in a screen row, in the
/// units of `height`.
pub fn plane_distance(height: u32, screen_height: u32, row: u32) -> (distance: Option<u64>)
    ensures
        match distance {
            Some(d) => plane_distance_of(height, screen_height, row) == Some(d as int),
            None => plane_distance_of(height, screen_height, row) is None,
        },
{
    let twice: u64 = 2 * (row as u64);
    let full: u64 = screen_height as u64;
    let span: u64 = if twice < full {
        full - twice
    } else {
        twice - full
    };
    if span == 0 {
        return None;
    }
    assert(height as u64 * full <= 0xFFFF_FFFF * 0xFFFF_FFFF) by (nonlinear_arith)
        requires
            height <= 0xFFFF_FFFF,
            full <= 0xFFFF_FFFF,
    ;
    Some((height as u64 * full) / span)
}

/// The height in rows at which a wall `distance` steps away appears on a
/// screen of the given height: the screen height over the distance, times
/// `WALL_SCALE`.
pub open spec fn wall_height_of(screen_height: int, distance: int) -> int
    recommends
        distance > 0,
{
    (100 * screen_height) / distance
}

/// The rows `[top, bottom)` that a span of height `h` covers when centred on
/// a screen of the given height, clipped to the screen.
pub open spec fn centered_span(screen_height: int, h: int) -> (int, int) {
    if h >= screen_height {
        (0, screen_height)
    } else {
        ((screen_height - h) / 2, (screen_height - h) / 2 + h)
    }
}

/// The rows that a wall `distance` steps away covers. A wall at distance zero
/// fills the column.
pub open spec fn wall_span_of(screen_height: int, distance: int) -> (int, int) {
    if distance <= 0 {
        (0, screen_height)
    } else {
        centered_span(screen_height, wall_height_of(screen_height, distance))
    }
}

/// Doubling the distance of a wall halves its height on screen, rounding
/// down.
pub proof fn lemma_wall_height_halves(screen_height: int, distance: int)
    requires
        0 <= screen_height,
        0 < distance,
    ensures
        wall_height_of(screen_height, 2 * distance) == wall_height_of(screen_height, distance) / 2,
{
    lemma_div_denominator(100 * screen_height, distance, 2);
    assert(distance * 2 == 2 * distance);
}

/// A wall farther away never appears taller.
pub proof fn lemma_wall_height_shrinks(screen_height: int, near: int, far: int)
    requires
        0 <= screen_height,
        0 < near <= far,
    ensures
        wall_height_of(screen_height, far) <= wall_height_of(screen_height, near),
{
    lemma_div_is_ordered_by_denominator(100 * screen_height, near, far);
}

/// The height in rows of a wall at the given distance, which is not zero.
pub fn wall_height(screen_height: u32, distance: u32) -> (h: u64)
    requires
        distance > 0,
    ensures
        h == wall_height_of(screen_height as int, distance as int),
{
    (WALL_SCALE * screen_height as u64) / (distance as u64)
}

/// The rows `[top, bottom)` of a centred span of height `h`.
pub fn span_rows(screen_height: u32, h: u64) -> (rows: (u32, u32))
    ensures
        (rows.0 as int, rows.1 as int) == centered_span(screen_height as int, h as int),
        rows.0 <= rows.1 <= screen_height,
{
    if h >= screen_height as u64 {
        (0, screen_height)
    } else {
        let rest: u32 = screen_height - h as u32;
        (rest / 2, rest / 2 + h as u32)
    }
}

/// The rows `[top, bottom)` that a wall at the given distance covers.
pub fn wall_span(screen_height: u32, distance: u32) -> (rows: (u32, u32))
    ensures
        (rows.0 as int, rows.1 as int) == wall_span_of(screen_height as int, distance as int),
        rows.0 <= rows.1 <= screen_height,
{
    if distance == 0 {
        (0, screen_height)
    } else {
        span_rows(screen_height, wall_height(screen_height, distance))
    }
}

} // verus!
