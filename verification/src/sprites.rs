//! Sprites: how a billboard in the world becomes a column of the screen, and
//! the order in which the columns are drawn, the farthest first, so that
//! nearer ones are painted over them.
//!
//! The depth of a projected sprite is its distance from the viewer. A sprite
//! whose distance is not a number has no depth and is not drawn.

use crate::color::Color;
use crate::numbers::integer_root;
use crate::numbers::is_root;
use crate::numbers::lemma_product_bound;
use crate::raycast::Ray;
use crate::renderer::Player;
use crate::texture::Texture;
use vstd::arithmetic::div_mod::lemma_fundamental_div_mod;
use vstd::arithmetic::div_mod::lemma_mod_bound;
use vstd::prelude::*;

verus! {

/// One sprite as it is to be drawn: a column of the screen, a height in rows,
/// and a colour.
#[derive(Debug, Clone, Copy, PartialEq, Eq, Structural)]
pub struct SpriteColumn {
    /// The distance from the viewer, or `None` if it is not a number.
    pub depth: Option<u64>,
    /// The screen column of the sprite's centre, which may lie off screen.
    pub screen_x: i64,
    /// The height of the sprite in rows.
    pub height: u32,
    pub color: Color,
}

/// A billboard in the world: a texture that stands at a place of the map and
/// always faces the viewer. The place is in 16.16 fixed-point map units, and
/// so is the scale, `65536` being life size.
#[derive(Debug, Clone)]
pub struct Sprite {
    pub texture: Texture,
    pub x: i32,
    pub y: i32,
    pub scale: u32,
}

/// The screen column of a sprite that is never on screen.
pub const OFF_SCREEN: i64 = -1;

/// The square of the distance between the viewer and a place, in viewer
/// coordinates.
pub open spec fn distance_squared(x: int, y: int, player: Player) -> int {
    (x - player.x) * (x - player.x) + (y - player.y) * (y - player.y)
}

/// How far ahead of the viewer a place lies: the dot product of the way to it
/// with the direction the viewer faces.
pub open spec fn ahead(x: int, y: int, player: Player, facing: Ray) -> int {
    (x - player.x) * facing.dx + (y - player.y) * facing.dy
}

/// How far to the side of the viewer's line of sight a place lies: the cross
/// product of the direction the viewer faces with the way to the place.
pub open spec fn aside(x: int, y: int, player: Player, facing: Ray) -> int {
    (y - player.y) * facing.dx - (x - player.x) * facing.dy
}

/// The screen column of a place: the middle of the screen, moved by half the
/// screen's width times the tangent of the angle between the line of sight
/// and the way to the place, which is `aside` over `ahead`. A place straight
/// to the side has no column, and a column outside the screen is
/// `OFF_SCREEN`.
pub open spec fn screen_column(ahead: int, aside: int, width: int) -> int {
    if ahead == 0 {
        -1
    } else {
        let column = if ahead > 0 {
            (width * (ahead + aside)) / (2 * ahead)
        } else {
            (width * (-ahead - aside)) / (2 * -ahead)
        };
        if 0 <= column < width {
            column
        } else {
            -1
        }
    }
}

/// The height of a sprite on screen, in rows: the height of its texture times
/// its scale, over its distance. At no distance it is as tall as can be.
pub open spec fn apparent_height(texture_height: int, scale: int, distance: int) -> int {
    if distance <= 0 || (texture_height * scale) / distance > 0xFFFF_FFFF {
        0xFFFF_FFFF
    } else {
        (texture_height * scale) / distance
    }
}

/// `column` is what `sprite` looks like to a viewer who stands at `player`
/// and faces along `facing`, on a screen `width` columns wide: its depth is
/// its distance rounded down, and its column and height are those of its
/// place and size.
pub open spec fn is_projection(
    sprite: Sprite,
    player: Player,
    facing: Ray,
    width: int,
    color: Color,
    column: SpriteColumn,
) -> bool {
    &&& column.depth matches Some(depth) && is_root(
        distance_squared(sprite.x as int, sprite.y as int, player),
        depth as int,
    ) && column.height == apparent_height(
        sprite.texture.height as int,
        sprite.scale as int,
        depth as int,
    )
    &&& column.screen_x == screen_column(
        ahead(sprite.x as int, sprite.y as int, player, facing),
        aside(sprite.x as int, sprite.y as int, player, facing),
        width,
    )
    &&& column.color == color
}

/// Projects a sprite onto the screen of a viewer who faces along `facing`.
/// The sprite is drawn in `color`.
pub fn project_sprite(sprite: &Sprite, player: &Player, facing: &Ray, width: u32, color: Color) -> (column:
    SpriteColumn)
    ensures
        is_projection(*sprite, *player, *facing, width as int, color, column),
{
    let dx: i128 = sprite.x as i128 - player.x as i128;
    let dy: i128 = sprite.y as i128 - player.y as i128;
    let fx: i128 = facing.dx as i128;
    let fy: i128 = facing.dy as i128;
    proof {
        lemma_product_bound(dx as int, dx as int, 0x1_0000_0000, 0x1_0000_0000);
        lemma_product_bound(dy as int, dy as int, 0x1_0000_0000, 0x1_0000_0000);
        lemma_product_bound(dx as int, fx as int, 0x1_0000_0000, 0x8000_0000);
        lemma_product_bound(dy as int, fy as int, 0x1_0000_0000, 0x8000_0000);
        lemma_product_bound(dy as int, fx as int, 0x1_0000_0000, 0x8000_0000);
        lemma_product_bound(dx as int, fy as int, 0x1_0000_0000, 0x8000_0000);
        assert(dx * dx >= 0 && dy * dy >= 0) by (nonlinear_arith);
    }
    let distance: u64 = integer_root((dx * dx + dy * dy) as u128);
    let along: i128 = dx * fx + dy * fy;
    let across: i128 = dy * fx - dx * fy;
    assert(sprite.texture.height * sprite.scale <= 0xFFFF * 0xFFFF_FFFF) by (nonlinear_arith)
        requires
            sprite.texture.height <= 0xFFFF,
            sprite.scale <= 0xFFFF_FFFF,
    ;
    let size: u64 = sprite.texture.height as u64 * sprite.scale as u64;
    let height: u32 = if distance == 0 || size / distance > 0xFFFF_FFFF {
        0xFFFF_FFFF
    } else {
        (size / distance) as u32
    };
    let wide: i128 = width as i128;
    let screen_x: i64 = if along == 0 {
        OFF_SCREEN
    } else {
        let (over, under): (i128, i128) = if along > 0 {
            (along + across, 2 * along)
        } else {
            (-along - across, 2 * -along)
        };
        proof {
            lemma_product_bound(
                wide as int,
                over as int,
                0x1_0000_0000,
                0x2_0000_0000_0000_0000,
            );
        }
        if over < 0 {
            proof {
                lemma_negative_quotient(wide as int, over as int, under as int);
            }
            OFF_SCREEN
        } else {
            let column: i128 = (wide * over) / under;
            if column < wide {
                column as i64
            } else {
                OFF_SCREEN
            }
        }
    };
    SpriteColumn { depth: Some(distance), screen_x, height, color }
}

/// A negative number over a positive one is negative, however it is scaled
/// by a width.
proof fn lemma_negative_quotient(width: int, over: int, under: int)
    requires
        0 <= width,
        over < 0,
        under > 0,
    ensures
        !(0 <= (width * over) / under < width),
{
    assert(width * over <= 0) by (nonlinear_arith)
        requires
            0 <= width,
            over < 0,
    ;
    if width * over < 0 {
        let top = width * over;
        lemma_fundamental_div_mod(top, under);
        lemma_mod_bound(top, under);
        let quotient = top / under;
        let rest = top % under;
        assert(quotient < 0) by (nonlinear_arith)
            requires
                top == under * quotient + rest,
                0 <= rest < under,
                top < 0,
        ;
    } else {
        assert(width == 0) by (nonlinear_arith)
            requires
                width * over == 0,
                over < 0,
                0 <= width,
        ;
    }
}

/// The depth key of sprite `i`.
pub open spec fn depth_of(sprites: Seq<SpriteColumn>, i: usize) -> u64 {
    sprites[i as int].depth->Some_0
}

/// Sprite `a` is drawn before sprite `b`: it is farther away, or as far and
/// earlier in the list.
pub open spec fn drawn_before(sprites: Seq<SpriteColumn>, a: usize, b: usize) -> bool {
    depth_of(sprites, a) > depth_of(sprites, b) || (depth_of(sprites, a) == depth_of(sprites, b)
        && a < b)
}

/// `order` lists the first `n` sprites that have a depth, each once, the
/// farthest first.
pub open spec fn orders_first(sprites: Seq<SpriteColumn>, order: Seq<usize>, n: int) -> bool {
    &&& forall|i: int|
        0 <= i < order.len() ==> (#[trigger] order[i]) < n && sprites[order[i] as int].depth
            is Some
    &&& forall|i: int, j: int|
        0 <= i < j < order.len() ==> drawn_before(sprites, #[trigger] order[i], #[trigger] order[j])
    &&& forall|a: int|
        0 <= a < n && (#[trigger] sprites[a]).depth is Some ==> exists|i: int|
            0 <= i < order.len() && #[trigger] order[i] == a
}

/// `order` is the draw order of `sprites`: every sprite with a depth is
/// listed once and no other, and depths never increase along the list.
pub open spec fn is_draw_order(sprites: Seq<SpriteColumn>, order: Seq<usize>) -> bool {
    orders_first(sprites, order, sprites.len() as int)
}

/// Where a sprite of depth `depth` goes into `order`: after the last entry,
/// from `from` on, that is at least as far.
pub open spec fn slot_from(sprites: Seq<SpriteColumn>, order: Seq<usize>, depth: u64, from: int) -> int
    decreases order.len() - from,
{
    if from >= order.len() || depth_of(sprites, order[from]) < depth {
        from
    } else {
        slot_from(sprites, order, depth, from + 1)
    }
}

/// The draw order of the first `n` sprites, built by putting each sprite that
/// has a depth into its place among those before it.
pub open spec fn order_of(sprites: Seq<SpriteColumn>, n: int) -> Seq<usize>
    decreases n,
{
    if n <= 0 {
        Seq::empty()
    } else {
        let before = order_of(sprites, n - 1);
        match sprites[n - 1].depth {
            None => before,
            Some(depth) => before.insert(slot_from(sprites, before, depth, 0), (n - 1) as usize),
        }
    }
}

/// The draw order of a list of sprites.
pub open spec fn draw_order_of(sprites: Seq<SpriteColumn>) -> Seq<usize> {
    order_of(sprites, sprites.len() as int)
}

/// The slot of a depth lies in the list, every entry between the start of the
/// search and the slot is at least as far, and the entry at the slot is
/// nearer.
pub proof fn lemma_slot(sprites: Seq<SpriteColumn>, order: Seq<usize>, depth: u64, from: int)
    requires
        0 <= from <= order.len(),
    ensures
        from <= slot_from(sprites, order, depth, from) <= order.len(),
        forall|i: int|
            from <= i < slot_from(sprites, order, depth, from) ==> depth_of(
                sprites,
                #[trigger] order[i],
            ) >= depth,
        slot_from(sprites, order, depth, from) < order.len() ==> depth_of(
            sprites,
            order[slot_from(sprites, order, depth, from)],
        ) < depth,
    decreases order.len() - from,
{
    if from >= order.len() || depth_of(sprites, order[from]) < depth {
    } else {
        lemma_slot(sprites, order, depth, from + 1);
    }
}

/// The order built for the first `n` sprites lists exactly those of them that
/// have a depth, the farthest first and equals in the order of the list.
pub proof fn lemma_order_of(sprites: Seq<SpriteColumn>, n: int)
    requires
        0 <= n <= sprites.len(),
        sprites.len() <= usize::MAX,
    ensures
        orders_first(sprites, order_of(sprites, n), n),
    decreases n,
{
    if n > 0 {
        lemma_order_of(sprites, n - 1);
        let before = order_of(sprites, n - 1);
        match sprites[n - 1].depth {
            None => {
                assert(order_of(sprites, n) == before);
            },
            Some(depth) => {
                let at = slot_from(sprites, before, depth, 0);
                let new = (n - 1) as usize;
                let after = before.insert(at, new);
                lemma_slot(sprites, before, depth, 0);
                assert(order_of(sprites, n) == after);
                assert forall|i: int| 0 <= i < after.len() implies (#[trigger] after[i]) < n
                    && sprites[after[i] as int].depth is Some by {
                    if i < at {
                        assert(after[i] == before[i]);
                    } else if i > at {
                        assert(after[i] == before[i - 1]);
                    }
                }
                assert forall|i: int, j: int| 0 <= i < j < after.len() implies drawn_before(
                    sprites,
                    #[trigger] after[i],
                    #[trigger] after[j],
                ) by {
                    if j < at {
                        assert(after[i] == before[i] && after[j] == before[j]);
                    } else if j == at {
                        assert(after[i] == before[i]);
                        assert(depth_of(sprites, before[i]) >= depth);
                        assert(before[i] < n - 1);
                    } else if i == at {
                        assert(after[j] == before[j - 1]);
                        if j - 1 > at {
                            assert(drawn_before(sprites, before[at], before[j - 1]));
                        }
                    } else if i < at {
                        assert(after[i] == before[i] && after[j] == before[j - 1]);
                    } else {
                        assert(after[i] == before[i - 1] && after[j] == before[j - 1]);
                    }
                }
                assert forall|a: int| 0 <= a < n && (#[trigger] sprites[a]).depth is Some implies exists|
                    i: int,
                | 0 <= i < after.len() && #[trigger] after[i] == a by {
                    if a == n - 1 {
                        assert(after[at] == a);
                    } else {
                        let i = choose|i: int| 0 <= i < before.len() && #[trigger] before[i] == a;
                        if i < at {
                            assert(after[i] == a);
                        } else {
                            assert(after[i + 1] == a);
                        }
                    }
                }
            },
        }
    }
}

/// Finds the slot of a depth in a list that is already in draw order.
fn find_slot(sprites: &Vec<SpriteColumn>, order: &Vec<usize>, depth: u64) -> (at: usize)
    requires
        forall|i: int|
            0 <= i < order@.len() ==> (#[trigger] order@[i]) < sprites@.len()
                && sprites@[order@[i] as int].depth is Some,
    ensures
        at == slot_from(sprites@, order@, depth, 0),
        at <= order@.len(),
{
    let mut at: usize = 0;
    while at < order.len()
        invariant
            at <= order@.len(),
            slot_from(sprites@, order@, depth, 0) == slot_from(sprites@, order@, depth, at as int),
            forall|i: int|
                0 <= i < order@.len() ==> (#[trigger] order@[i]) < sprites@.len()
                    && sprites@[order@[i] as int].depth is Some,
        decreases order@.len() - at,
    {
        let entry: usize = order[at];
        let far: bool = match sprites[entry].depth {
            Some(d) => d >= depth,
            None => false,
        };
        if !far {
            return at;
        }
        at = at + 1;
    }
    at
}

/// Lists the sprites in the order they are to be drawn: the farthest first,
/// equally far ones in the order they were given, and those without a depth
/// not at all.
pub fn draw_order(sprites: &Vec<SpriteColumn>) -> (order: Vec<usize>)
    ensures
        order@ == draw_order_of(sprites@),
        is_draw_order(sprites@, order@),
{
    let mut order: Vec<usize> = Vec::new();
    let mut i: usize = 0;
    while i < sprites.len()
        invariant
            i <= sprites@.len(),
            order@ == order_of(sprites@, i as int),
            orders_first(sprites@, order@, i as int),
        decreases sprites@.len() - i,
    {
        match sprites[i].depth {
            Some(depth) => {
                let at: usize = find_slot(sprites, &order, depth);
                order.insert(at, i);
            },
            None => {},
        }
        i = i + 1;
        proof {
            lemma_order_of(sprites@, i as int);
        }
    }
    order
}

} // verus!
