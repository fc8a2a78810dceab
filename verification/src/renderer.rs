//! The frame: a grid of colours that the three passes of a frame draw into,
//! first the floor and ceiling, then one wall slice per screen column, then
//! the sprites from the farthest to the nearest.
//!
//! A frame is stored row by row: the pixel in column `col` of row `row` is at
//! `row * width + col`.

use crate::color::gray;
use crate::color::gray_of;
use crate::color::wall_color;
use crate::color::wall_color_of;
use crate::color::Color;
use crate::color::CEILING_LEVEL;
use crate::color::CLEAR_LEVEL;
use crate::color::FLOOR_LEVEL;
use crate::grid::in_span;
use crate::grid::lemma_cell_in_grid;
use crate::grid::lemma_cell_index;
use crate::map::LevelMap;
use crate::map::MapSpec;
use crate::projection::centered_span;
use crate::projection::span_rows;
use crate::projection::wall_span;
use crate::projection::wall_span_of;
use crate::raycast::cast;
use crate::raycast::cast_ray;
use crate::raycast::Ray;
use crate::raycast::RayHit;
use crate::sprites::draw_order;
use crate::sprites::draw_order_of;
use crate::sprites::is_draw_order;
use crate::sprites::SpriteColumn;
use vstd::prelude::*;

verus! {

/// The viewer: where it stands, which way it faces and how high its eye is.
/// Position and height are 16.16 fixed-point map units; the angle is a binary
/// angle, `2^32` to the full circle.
#[derive(Debug, Clone, Copy, PartialEq, Eq, Structural)]
pub struct Player {
    pub x: i32,
    pub y: i32,
    pub angle: u32,
    pub height: u32,
}

/// The frame with the rows `[top, bottom)` of column `col` set to `color`.
pub open spec fn span_drawn(
    frame: Seq<Color>,
    width: int,
    col: int,
    top: int,
    bottom: int,
    color: Color,
) -> Seq<Color> {
    Seq::new(
        frame.len(),
        |k: int|
            if in_span(k, width, col, top, bottom) {
                color
            } else {
                frame[k]
            },
    )
}

/// A frame of one colour.
pub open spec fn cleared(width: int, height: int, color: Color) -> Seq<Color> {
    Seq::new((width * height) as nat, |k: int| color)
}

/// The frame after the floor and ceiling pass: the rows above the midline in
/// the ceiling's colour, the others in the floor's.
pub open spec fn background(width: int, height: int) -> Seq<Color> {
    Seq::new(
        (width * height) as nat,
        |k: int|
            if k / width < height / 2 {
                gray_of(CEILING_LEVEL)
            } else {
                gray_of(FLOOR_LEVEL)
            },
    )
}

/// The frame with the wall slice of a hit drawn into column `col`: a span in
/// the colour of the wall's material, centred, as tall as the hit's distance
/// makes it.
pub open spec fn slice_drawn(frame: Seq<Color>, width: int, height: int, col: int, hit: RayHit) -> Seq<
    Color,
> {
    let rows = wall_span_of(height, hit.distance as int);
    span_drawn(frame, width, col, rows.0, rows.1, wall_color_of(hit.wall_type))
}

/// The frame after the first `n` columns of the wall pass. Column `k` shows
/// what ray `k` hits; a column whose ray hits nothing is left as it was.
pub open spec fn walls_drawn(
    frame: Seq<Color>,
    width: int,
    height: int,
    map: MapSpec,
    x: int,
    y: int,
    rays: Seq<Ray>,
    n: int,
) -> Seq<Color>
    decreases n,
{
    if n <= 0 {
        frame
    } else {
        let before = walls_drawn(frame, width, height, map, x, y, rays, n - 1);
        match cast(map, x, y, rays[n - 1]) {
            Some(hit) => slice_drawn(before, width, height, n - 1, hit),
            None => before,
        }
    }
}

/// The frame with one sprite drawn: a centred span of the sprite's height and
/// colour in its column, or nothing if its column is off screen.
pub open spec fn sprite_drawn(frame: Seq<Color>, width: int, height: int, sprite: SpriteColumn) -> Seq<
    Color,
> {
    if 0 <= sprite.screen_x < width {
        let rows = centered_span(height, sprite.height as int);
        span_drawn(frame, width, sprite.screen_x as int, rows.0, rows.1, sprite.color)
    } else {
        frame
    }
}

/// The frame after the first `n` sprites of `order` have been drawn, one over
/// the other.
pub open spec fn sprites_drawn(
    frame: Seq<Color>,
    width: int,
    height: int,
    sprites: Seq<SpriteColumn>,
    order: Seq<usize>,
    n: int,
) -> Seq<Color>
    decreases n,
{
    if n <= 0 {
        frame
    } else {
        sprite_drawn(
            sprites_drawn(frame, width, height, sprites, order, n - 1),
            width,
            height,
            sprites[order[n - 1] as int],
        )
    }
}

/// How many columns the wall pass draws: one per ray, and no more than the
/// frame is wide.
pub open spec fn columns_cast(width: int, rays: Seq<Ray>) -> int {
    if rays.len() < width {
        rays.len() as int
    } else {
        width
    }
}

/// A whole frame: the background, then the walls, then the sprites in draw
/// order.
pub open spec fn frame_of(
    width: int,
    height: int,
    map: MapSpec,
    player: Player,
    rays: Seq<Ray>,
    sprites: Seq<SpriteColumn>,
) -> Seq<Color> {
    let walls = walls_drawn(
        background(width, height),
        width,
        height,
        map,
        player.x as int,
        player.y as int,
        rays,
        columns_cast(width, rays),
    );
    let order = draw_order_of(sprites);
    sprites_drawn(walls, width, height, sprites, order, order.len() as int)
}

/// The frame a renderer draws into, with its width and height.
pub struct Renderer {
    screen_width: u32,
    screen_height: u32,
    pixels: Vec<Color>,
}

impl Renderer {
    /// The frame holds one pixel per column and row. `new` establishes this
    /// and every method keeps it.
    pub closed spec fn well_formed(&self) -> bool {
        self.pixels@.len() == self.screen_width * self.screen_height
    }

    /// The width of the frame in columns.
    pub closed spec fn cols(&self) -> int {
        self.screen_width as int
    }

    /// The height of the frame in rows.
    pub closed spec fn rows(&self) -> int {
        self.screen_height as int
    }

    /// The pixels of the frame, row by row.
    pub closed spec fn frame(&self) -> Seq<Color> {
        self.pixels@
    }

    /// A renderer with a cleared frame of the given size.
    pub fn new(width: u32, height: u32) -> (renderer: Renderer)
        requires
            width * height <= usize::MAX,
        ensures
            renderer.well_formed(),
            renderer.cols() == width,
            renderer.rows() == height,
            renderer.frame() == cleared(width as int, height as int, gray_of(CLEAR_LEVEL)),
    {
        let ghost total = width * height;
        assert(0 <= total) by (nonlinear_arith)
            requires
                total == width * height,
        ;
        let count: usize = width as usize * height as usize;
        let mut pixels: Vec<Color> = Vec::new();
        let mut i: usize = 0;
        while i < count
            invariant
                i <= count,
                pixels@.len() == i,
                forall|k: int| 0 <= k < i ==> pixels@[k] == gray_of(CLEAR_LEVEL),
            decreases count - i,
        {
            pixels.push(gray(CLEAR_LEVEL));
            i = i + 1;
        }
        assert(pixels@ =~= cleared(width as int, height as int, gray_of(CLEAR_LEVEL)));
        Renderer { screen_width: width, screen_height: height, pixels }
    }

    /// The width of the frame in columns.
    pub fn width(&self) -> (w: u32)
        ensures
            w == self.cols(),
    {
        self.screen_width
    }

    /// The height of the frame in rows.
    pub fn height(&self) -> (h: u32)
        ensures
            h == self.rows(),
    {
        self.screen_height
    }

    /// The pixels of the frame, row by row.
    pub fn pixels(&self) -> (p: &Vec<Color>)
        ensures
            p@ == self.frame(),
    {
        &self.pixels
    }

    /// The colour of the pixel in column `col` of row `row`.
    pub fn pixel(&self, col: u32, row: u32) -> (color: Color)
        requires
            self.well_formed(),
            col < self.cols(),
            row < self.rows(),
        ensures
            color == self.frame()[row * self.cols() + col],
    {
        proof {
            lemma_cell_in_grid(
                self.screen_width as int,
                self.screen_height as int,
                col as int,
                row as int,
            );
        }
        let count: usize = self.pixels.len();
        assert(row * self.screen_width + col < count);
        self.pixels[row as usize * self.screen_width as usize + col as usize]
    }

    /// Sets every pixel of the frame to one colour.
    pub fn clear(&mut self, color: Color)
        requires
            old(self).well_formed(),
        ensures
            final(self).well_formed(),
            final(self).cols() == old(self).cols(),
            final(self).rows() == old(self).rows(),
            final(self).frame() == cleared(old(self).cols(), old(self).rows(), color),
    {
        let count: usize = self.pixels.len();
        let mut i: usize = 0;
        while i < count
            invariant
                i <= count,
                self.pixels@.len() == count,
                self.screen_width == old(self).screen_width,
                self.screen_height == old(self).screen_height,
                forall|k: int| 0 <= k < i ==> self.pixels@[k] == color,
            decreases count - i,
        {
            self.pixels.set(i, color);
            i = i + 1;
        }
        assert(self.pixels@ =~= cleared(
            self.screen_width as int,
            self.screen_height as int,
            color,
        ));
    }

    /// Sets the rows `[top, bottom)` of one column to a colour.
    pub fn draw_span(&mut self, col: u32, top: u32, bottom: u32, color: Color)
        requires
            old(self).well_formed(),
            col < old(self).cols(),
            top <= bottom <= old(self).rows(),
        ensures
            final(self).well_formed(),
            final(self).cols() == old(self).cols(),
            final(self).rows() == old(self).rows(),
            final(self).frame() == span_drawn(
                old(self).frame(),
                old(self).cols(),
                col as int,
                top as int,
                bottom as int,
                color,
            ),
    {
        let width: usize = self.screen_width as usize;
        let count: usize = self.pixels.len();
        let ghost w = self.screen_width as int;
        let ghost h = self.screen_height as int;
        let ghost before = self.pixels@;
        let mut row: u32 = top;
        assert(self.pixels@ =~= span_drawn(before, w, col as int, top as int, top as int, color));
        while row < bottom
            invariant
                top <= row <= bottom,
                bottom <= h,
                col < w,
                w == self.screen_width,
                h == self.screen_height,
                width == w,
                self.screen_width == old(self).screen_width,
                self.screen_height == old(self).screen_height,
                before.len() == w * h,
                before.len() == count,
                self.pixels@ == span_drawn(before, w, col as int, top as int, row as int, color),
            decreases bottom - row,
        {
            proof {
                lemma_cell_in_grid(w, h, col as int, row as int);
                lemma_cell_index(w, col as int, row as int);
            }
            let ghost drawn = self.pixels@;
            let at: usize = row as usize * width + col as usize;
            self.pixels.set(at, color);
            assert(self.pixels@ =~= span_drawn(
                before,
                w,
                col as int,
                top as int,
                row as int + 1,
                color,
            )) by {
                assert forall|k: int| 0 <= k < before.len() implies self.pixels@[k] == span_drawn(
                    before,
                    w,
                    col as int,
                    top as int,
                    row as int + 1,
                    color,
                )[k] by {
                    assert(in_span(k, w, col as int, row as int, row as int + 1) <==> k == at);
                    if k != at {
                        assert(self.pixels@[k] == drawn[k]);
                    }
                }
            }
            row = row + 1;
        }
    }

    /// The floor and ceiling pass: every row above the midline is given the
    /// ceiling's colour, every other row the floor's.
    pub fn render_floor_ceiling(&mut self)
        requires
            old(self).well_formed(),
        ensures
            final(self).well_formed(),
            final(self).cols() == old(self).cols(),
            final(self).rows() == old(self).rows(),
            final(self).frame() == background(old(self).cols(), old(self).rows()),
    {
        let count: usize = self.pixels.len();
        let width: usize = self.screen_width as usize;
        let midline: usize = (self.screen_height / 2) as usize;
        let ceiling: Color = gray(CEILING_LEVEL);
        let floor: Color = gray(FLOOR_LEVEL);
        let mut i: usize = 0;
        while i < count
            invariant
                i <= count,
                self.pixels@.len() == count,
                count == self.screen_width * self.screen_height,
                self.screen_width == old(self).screen_width,
                self.screen_height == old(self).screen_height,
                width == self.screen_width,
                midline == self.screen_height / 2,
                ceiling == gray_of(CEILING_LEVEL),
                floor == gray_of(FLOOR_LEVEL),
                forall|k: int|
                    0 <= k < i ==> self.pixels@[k] == background(
                        self.screen_width as int,
                        self.screen_height as int,
                    )[k],
            decreases count - i,
        {
            assert(width > 0) by (nonlinear_arith)
                requires
                    i < count,
                    count == self.screen_width * self.screen_height,
                    width == self.screen_width,
            ;
            let shade: Color = if i / width < midline {
                ceiling
            } else {
                floor
            };
            self.pixels.set(i, shade);
            i = i + 1;
        }
        assert(self.pixels@ =~= background(self.screen_width as int, self.screen_height as int));
    }

    /// Draws the wall slice of a hit into a column.
    pub fn draw_wall_slice(&mut self, screen_x: u32, hit: &RayHit)
        requires
            old(self).well_formed(),
            screen_x < old(self).cols(),
        ensures
            final(self).well_formed(),
            final(self).cols() == old(self).cols(),
            final(self).rows() == old(self).rows(),
            final(self).frame() == slice_drawn(
                old(self).frame(),
                old(self).cols(),
                old(self).rows(),
                screen_x as int,
                *hit,
            ),
    {
        let rows: (u32, u32) = wall_span(self.screen_height, hit.distance);
        self.draw_span(screen_x, rows.0, rows.1, wall_color(hit.wall_type));
    }

    /// The wall pass: casts the ray of every column from the viewer's place
    /// and draws what it hits. `rays` holds one direction per column, from
    /// the left; columns without a ray are left as they are.
    pub fn render_3d_view(&mut self, map: &LevelMap, player: &Player, rays: &Vec<Ray>)
        requires
            old(self).well_formed(),
        ensures
            final(self).well_formed(),
            final(self).cols() == old(self).cols(),
            final(self).rows() == old(self).rows(),
            final(self).frame() == walls_drawn(
                old(self).frame(),
                old(self).cols(),
                old(self).rows(),
                map@,
                player.x as int,
                player.y as int,
                rays@,
                columns_cast(old(self).cols(), rays@),
            ),
    {
        let ghost before = self.pixels@;
        let ghost w = self.screen_width as int;
        let ghost h = self.screen_height as int;
        let count: usize = if rays.len() < self.screen_width as usize {
            rays.len()
        } else {
            self.screen_width as usize
        };
        let mut col: usize = 0;
        while col < count
            invariant
                col <= count,
                count <= rays@.len(),
                count <= self.screen_width,
                count == columns_cast(w, rays@),
                self.well_formed(),
                w == self.screen_width,
                h == self.screen_height,
                self.screen_width == old(self).screen_width,
                self.screen_height == old(self).screen_height,
                self.pixels@ == walls_drawn(
                    before,
                    w,
                    h,
                    map@,
                    player.x as int,
                    player.y as int,
                    rays@,
                    col as int,
                ),
            decreases count - col,
        {
            match cast_ray(map, player.x, player.y, &rays[col]) {
                Some(hit) => {
                    self.draw_wall_slice(col as u32, &hit);
                },
                None => {},
            }
            col = col + 1;
        }
    }

    /// Draws one sprite, unless its column is off screen.
    pub fn render_sprite(&mut self, sprite: &SpriteColumn)
        requires
            old(self).well_formed(),
        ensures
            final(self).well_formed(),
            final(self).cols() == old(self).cols(),
            final(self).rows() == old(self).rows(),
            final(self).frame() == sprite_drawn(
                old(self).frame(),
                old(self).cols(),
                old(self).rows(),
                *sprite,
            ),
    {
        if sprite.screen_x >= 0 && sprite.screen_x < self.screen_width as i64 {
            let rows: (u32, u32) = span_rows(self.screen_height, sprite.height as u64);
            self.draw_span(sprite.screen_x as u32, rows.0, rows.1, sprite.color);
        }
    }

    /// The sprite pass: draws the sprites from the farthest to the nearest,
    /// so that a nearer sprite covers a farther one. A sprite without a depth
    /// is left out.
    pub fn render_sprites(&mut self, sprites: &Vec<SpriteColumn>)
        requires
            old(self).well_formed(),
        ensures
            final(self).well_formed(),
            final(self).cols() == old(self).cols(),
            final(self).rows() == old(self).rows(),
            final(self).frame() == sprites_drawn(
                old(self).frame(),
                old(self).cols(),
                old(self).rows(),
                sprites@,
                draw_order_of(sprites@),
                draw_order_of(sprites@).len() as int,
            ),
    {
        let ghost before = self.pixels@;
        let ghost w = self.screen_width as int;
        let ghost h = self.screen_height as int;
        let order: Vec<usize> = draw_order(sprites);
        let mut i: usize = 0;
        while i < order.len()
            invariant
                i <= order@.len(),
                order@ == draw_order_of(sprites@),
                is_draw_order(sprites@, order@),
                self.well_formed(),
                w == self.screen_width,
                h == self.screen_height,
                self.screen_width == old(self).screen_width,
                self.screen_height == old(self).screen_height,
                self.pixels@ == sprites_drawn(before, w, h, sprites@, order@, i as int),
            decreases order@.len() - i,
        {
            let at: usize = order[i];
            self.render_sprite(&sprites[at]);
            i = i + 1;
        }
    }

    /// Draws a whole frame: the floor and ceiling, then the walls, then the
    /// sprites. The same map, viewer, rays and sprites always give the same
    /// frame.
    pub fn render_frame(
        &mut self,
        map: &LevelMap,
        player: &Player,
        rays: &Vec<Ray>,
        sprites: &Vec<SpriteColumn>,
    )
        requires
            old(self).well_formed(),
        ensures
            final(self).well_formed(),
            final(self).cols() == old(self).cols(),
            final(self).rows() == old(self).rows(),
            final(self).frame() == frame_of(
                old(self).cols(),
                old(self).rows(),
                map@,
                *player,
                rays@,
                sprites@,
            ),
    {
        self.render_floor_ceiling();
        self.render_3d_view(map, player, rays);
        self.render_sprites(sprites);
    }
}

} // verus!
