//! Rays against walls: a ray is marched from the viewer in steps of one map
//! unit, and each sample point is tested against the solid linedefs of the
//! map.
//!
//! Positions are 16.16 fixed-point map units. A ray's direction is given in
//! the same units per step, so a direction of length `65536` advances one map
//! unit per step. A sample point is inside a wall when it is no more than
//! half a map unit from the wall's linedef: a ray of unit length that crosses
//! the linedef has a sample that close on one side or the other.

use crate::map::LevelMap;
use crate::map::Linedef;
use crate::map::MapSpec;
use crate::map::Vertex;
use crate::map::NO_SIDEDEF;
use crate::numbers::lemma_product_bound;
use vstd::prelude::*;
use vstd::string::StrSliceExecFns;

verus! {

/// How many steps a ray is marched before it is given up.
pub const MAX_VIEW_STEPS: u32 = 1000;

/// Half a map unit, the distance from a linedef within which a point is
/// inside the wall.
pub const WALL_REACH: i128 = 32768;

/// A point farther than this from the start of a linedef, along either axis,
/// is never inside its wall. Such points are told apart before any product is
/// formed, which keeps the products small.
pub const FAR_AWAY: i128 = 0x4_0000_0000;

/// What a wall is made of, which decides its colour.
#[derive(Debug, Clone, Copy, PartialEq, Eq, Structural)]
pub enum WallType {
    Stone,
    Wood,
    Metal,
}

/// The direction of a ray: the step, in viewer coordinates, from one sample
/// to the next.
#[derive(Debug, Clone, Copy, PartialEq, Eq, Structural)]
pub struct Ray {
    pub dx: i32,
    pub dy: i32,
}

/// Where a ray first met a wall.
#[derive(Debug, Clone, Copy, PartialEq, Eq, Structural)]
pub struct RayHit {
    /// The number of steps marched.
    pub distance: u32,
    pub wall_type: WallType,
    pub hit_x: i64,
    pub hit_y: i64,
}

/// `name` begins with `prefix`.
pub open spec fn starts_with(name: Seq<char>, prefix: Seq<char>) -> bool {
    prefix.len() <= name.len() && name.take(prefix.len() as int) == prefix
}

/// The material of a wall, told from the name of its middle texture: names
/// that begin with `WOOD` are wood, names that begin with `METAL` are metal,
/// all others stone.
pub open spec fn material_of(texture: Seq<char>) -> WallType {
    if starts_with(texture, "WOOD"@) {
        WallType::Wood
    } else if starts_with(texture, "METAL"@) {
        WallType::Metal
    } else {
        WallType::Stone
    }
}

/// A linedef without a back side is a solid wall.
pub open spec fn is_solid(linedef: Linedef) -> bool {
    linedef.back_sidedef == 0xFFFF
}

/// The point `(x, y)` is no more than half a map unit from the segment
/// between the vertices `a` and `b`. The nearest point of the segment is `a`
/// if the point projects before it, `b` if it projects past it, and the foot
/// of the perpendicular otherwise.
pub open spec fn near_segment(a: Vertex, b: Vertex, x: int, y: int) -> bool {
    let ux = b.x - a.x;
    let uy = b.y - a.y;
    let vx = x - a.x * 65536;
    let vy = y - a.y * 65536;
    let wx = vx - ux * 65536;
    let wy = vy - uy * 65536;
    let along = vx * ux + vy * uy;
    let length2 = ux * ux + uy * uy;
    let across = vx * uy - vy * ux;
    if along <= 0 {
        vx * vx + vy * vy <= 32768 * 32768
    } else if along >= length2 * 65536 {
        wx * wx + wy * wy <= 32768 * 32768
    } else {
        across * across <= 32768 * 32768 * length2
    }
}

/// A point that is farther than `FAR_AWAY` from the start of a segment, along
/// either axis, is more than half a map unit from every point of it. Here
/// `(ux, uy)` is the segment in map units and `(vx, vy)` the point as seen
/// from the segment's start.
pub proof fn lemma_far_is_not_near(ux: int, uy: int, vx: int, vy: int)
    requires
        -65535 <= ux <= 65535,
        -65535 <= uy <= 65535,
        vx < -0x4_0000_0000 || vx > 0x4_0000_0000 || vy < -0x4_0000_0000 || vy > 0x4_0000_0000,
    ensures
        vx * vx + vy * vy > 32768 * 32768,
        (vx - ux * 65536) * (vx - ux * 65536) + (vy - uy * 65536) * (vy - uy * 65536) > 32768
            * 32768,
        0 < vx * ux + vy * uy < (ux * ux + uy * uy) * 65536 ==> (vx * uy - vy * ux) * (vx * uy - vy
            * ux) > 32768 * 32768 * (ux * ux + uy * uy),
{
    let far: int = 0x4_0000_0000;
    let wx = vx - ux * 65536;
    let wy = vy - uy * 65536;
    let along = vx * ux + vy * uy;
    let length2 = ux * ux + uy * uy;
    let across = vx * uy - vy * ux;
    let square = vx * vx + vy * vy;
    assert(vx * vx >= 0 && vy * vy >= 0 && wx * wx >= 0 && wy * wy >= 0) by (nonlinear_arith);
    if vx < -far || vx > far {
        assert(vx * vx >= far * far) by (nonlinear_arith)
            requires
                vx < -far || vx > far,
                far > 0,
        ;
        assert(wx * wx >= 0x3_0000_0000 * 0x3_0000_0000) by (nonlinear_arith)
            requires
                wx < -0x3_0000_0000 || wx > 0x3_0000_0000,
        ;
    } else {
        assert(vy * vy >= far * far) by (nonlinear_arith)
            requires
                vy < -far || vy > far,
                far > 0,
        ;
        assert(wy * wy >= 0x3_0000_0000 * 0x3_0000_0000) by (nonlinear_arith)
            requires
                wy < -0x3_0000_0000 || wy > 0x3_0000_0000,
        ;
    }
    assert(square >= far * far);
    if 0 < along && along < length2 * 65536 {
        lemma_lagrange(ux, uy, vx, vy);
        assert(0 <= ux * ux <= 65535 * 65535 && 0 <= uy * uy <= 65535 * 65535)
            by (nonlinear_arith)
            requires
                -65535 <= ux <= 65535,
                -65535 <= uy <= 65535,
        ;
        let reach = length2 * 65536;
        assert(along * along < reach * reach) by (nonlinear_arith)
            requires
                0 < along < reach,
        ;
        assert(reach * reach == length2 * (length2 * 65536 * 65536)) by (nonlinear_arith)
            requires
                reach == length2 * 65536,
        ;
        let spare = square - length2 * 65536 * 65536;
        assert(spare >= 32768 * 32768);
        assert(length2 * spare >= length2 * (32768 * 32768)) by (nonlinear_arith)
            requires
                length2 > 0,
                spare >= 32768 * 32768,
        ;
        assert(length2 * spare == square * length2 - length2 * (length2 * 65536 * 65536))
            by (nonlinear_arith)
            requires
                spare == square - length2 * 65536 * 65536,
        ;
        assert(length2 * (32768 * 32768) == 32768 * 32768 * length2) by (nonlinear_arith);
    }
}

/// Lagrange's identity in the plane: the squares of the dot product and of
/// the cross product of two vectors add up to the product of the squares of
/// their lengths.
pub proof fn lemma_lagrange(ux: int, uy: int, vx: int, vy: int)
    ensures
        (vx * ux + vy * uy) * (vx * ux + vy * uy) + (vx * uy - vy * ux) * (vx * uy - vy * ux) == (vx
            * vx + vy * vy) * (ux * ux + uy * uy),
{
    let a = vx * ux;
    let b = vy * uy;
    let c = vx * uy;
    let d = vy * ux;
    let p = vx * vx;
    let q = vy * vy;
    let r = ux * ux;
    let t = uy * uy;
    assert((a + b) * (a + b) == a * a + 2 * (a * b) + b * b) by (nonlinear_arith);
    assert((c - d) * (c - d) == c * c - 2 * (c * d) + d * d) by (nonlinear_arith);
    assert(a * b == c * d) by (nonlinear_arith)
        requires
            a == vx * ux,
            b == vy * uy,
            c == vx * uy,
            d == vy * ux,
    ;
    assert(a * a == p * r) by (nonlinear_arith)
        requires
            a == vx * ux,
            p == vx * vx,
            r == ux * ux,
    ;
    assert(b * b == q * t) by (nonlinear_arith)
        requires
            b == vy * uy,
            q == vy * vy,
            t == uy * uy,
    ;
    assert(c * c == p * t) by (nonlinear_arith)
        requires
            c == vx * uy,
            p == vx * vx,
            t == uy * uy,
    ;
    assert(d * d == q * r) by (nonlinear_arith)
        requires
            d == vy * ux,
            q == vy * vy,
            r == ux * ux,
    ;
    assert((p + q) * (r + t) == p * r + p * t + q * r + q * t) by (nonlinear_arith);
}

/// A point far from the start of a segment is not near the segment.
pub proof fn lemma_far_point(a: Vertex, b: Vertex, x: int, y: int)
    requires
        x - a.x * 65536 < -0x4_0000_0000 || x - a.x * 65536 > 0x4_0000_0000 || y - a.y * 65536
            < -0x4_0000_0000 || y - a.y * 65536 > 0x4_0000_0000,
    ensures
        !near_segment(a, b, x, y),
{
    lemma_far_is_not_near(b.x - a.x, b.y - a.y, x - a.x * 65536, y - a.y * 65536);
}

/// The wall that linedef `i` puts at the point `(x, y)`: its material, if the
/// linedef is solid, its vertices and front side exist, and the point is
/// inside it. A linedef whose references lead nowhere is passed over.
pub open spec fn wall_at(map: MapSpec, i: int, x: int, y: int) -> Option<WallType> {
    let linedef = map.linedefs[i];
    if !is_solid(linedef) {
        None
    } else if linedef.start_vertex >= map.vertices.len() || linedef.end_vertex
        >= map.vertices.len() || linedef.front_sidedef >= map.sidedefs.len() {
        None
    } else if near_segment(
        map.vertices[linedef.start_vertex as int],
        map.vertices[linedef.end_vertex as int],
        x,
        y,
    ) {
        Some(material_of(map.sidedefs[linedef.front_sidedef as int].middle_texture))
    } else {
        None
    }
}

/// The wall at the point `(x, y)` among the linedefs from `from` on: that of
/// the first linedef that puts one there.
pub open spec fn wall_from(map: MapSpec, x: int, y: int, from: int) -> Option<WallType>
    decreases map.linedefs.len() - from,
{
    if from < 0 || from >= map.linedefs.len() {
        None
    } else {
        match wall_at(map, from, x, y) {
            Some(wall) => Some(wall),
            None => wall_from(map, x, y, from + 1),
        }
    }
}

/// The wall at the point `(x, y)`, if the point is inside one.
pub open spec fn collision(map: MapSpec, x: int, y: int) -> Option<WallType> {
    wall_from(map, x, y, 0)
}

/// The wall at sample `k` of a ray: the point `k` steps from the start.
pub open spec fn wall_on_ray(map: MapSpec, x: int, y: int, ray: Ray, k: int) -> Option<WallType> {
    collision(map, x + k * ray.dx, y + k * ray.dy)
}

/// The first hit of the ray among the samples from step `from` on, short of
/// `MAX_VIEW_STEPS`.
pub open spec fn cast_from(map: MapSpec, x: int, y: int, ray: Ray, from: int) -> Option<RayHit>
    decreases 1000 - from,
{
    if from < 0 || from >= 1000 {
        None
    } else {
        match wall_on_ray(map, x, y, ray, from) {
            Some(wall) => Some(
                RayHit {
                    distance: from as u32,
                    wall_type: wall,
                    hit_x: (x + from * ray.dx) as i64,
                    hit_y: (y + from * ray.dy) as i64,
                },
            ),
            None => cast_from(map, x, y, ray, from + 1),
        }
    }
}

/// The first hit of the ray, if it meets a wall within `MAX_VIEW_STEPS`.
pub open spec fn cast(map: MapSpec, x: int, y: int, ray: Ray) -> Option<RayHit> {
    cast_from(map, x, y, ray, 0)
}

/// A hit is the nearest: no sample before it is inside a wall, and the sample
/// at it is.
pub proof fn lemma_cast_is_first(map: MapSpec, x: int, y: int, ray: Ray, from: int)
    requires
        0 <= from,
    ensures
        match cast_from(map, x, y, ray, from) {
            Some(hit) => {
                &&& from <= hit.distance < 1000
                &&& wall_on_ray(map, x, y, ray, hit.distance as int) == Some(hit.wall_type)
                &&& forall|k: int|
                    from <= k < hit.distance ==> wall_on_ray(map, x, y, ray, k) is None
            },
            None => forall|k: int| from <= k < 1000 ==> wall_on_ray(map, x, y, ray, k) is None,
        },
    decreases 1000 - from,
{
    if from < 1000 {
        lemma_cast_is_first(map, x, y, ray, from + 1);
    }
}

/// Tells whether `name` begins with `prefix`.
pub fn has_prefix(name: &str, prefix: &str) -> (r: bool)
    ensures
        r == starts_with(name@, prefix@),
{
    let n: usize = prefix.unicode_len();
    if name.unicode_len() < n {
        return false;
    }
    let mut i: usize = 0;
    while i < n
        invariant
            n == prefix@.len(),
            n <= name@.len(),
            i <= n,
            forall|k: int| 0 <= k < i ==> name@[k] == prefix@[k],
        decreases n - i,
    {
        if name.get_char(i) != prefix.get_char(i) {
            assert(name@.take(n as int)[i as int] != prefix@[i as int]);
            return false;
        }
        i = i + 1;
    }
    assert(name@.take(n as int) =~= prefix@);
    true
}

/// The material of a wall with the given middle texture.
pub fn wall_material(texture: &str) -> (wall: WallType)
    ensures
        wall == material_of(texture@),
{
    if has_prefix(texture, "WOOD") {
        WallType::Wood
    } else if has_prefix(texture, "METAL") {
        WallType::Metal
    } else {
        WallType::Stone
    }
}

/// Tells whether a point is inside the wall of the linedef from `a` to `b`.
pub fn point_near_segment(a: &Vertex, b: &Vertex, x: i64, y: i64) -> (near: bool)
    ensures
        near == near_segment(*a, *b, x as int, y as int),
{
    let ux: i128 = b.x as i128 - a.x as i128;
    let uy: i128 = b.y as i128 - a.y as i128;
    let vx: i128 = x as i128 - (a.x as i128) * 65536;
    let vy: i128 = y as i128 - (a.y as i128) * 65536;
    if vx < -FAR_AWAY || vx > FAR_AWAY || vy < -FAR_AWAY || vy > FAR_AWAY {
        proof {
            lemma_far_point(*a, *b, x as int, y as int);
        }
        return false;
    }
    let wx: i128 = vx - ux * 65536;
    let wy: i128 = vy - uy * 65536;
    proof {
        lemma_product_bound(vx as int, ux as int, 0x4_0000_0000, 0x1_0000);
        lemma_product_bound(vy as int, uy as int, 0x4_0000_0000, 0x1_0000);
        lemma_product_bound(vx as int, uy as int, 0x4_0000_0000, 0x1_0000);
        lemma_product_bound(vy as int, ux as int, 0x4_0000_0000, 0x1_0000);
        lemma_product_bound(ux as int, ux as int, 0x1_0000, 0x1_0000);
        lemma_product_bound(uy as int, uy as int, 0x1_0000, 0x1_0000);
        lemma_product_bound(vx as int, vx as int, 0x4_0000_0000, 0x4_0000_0000);
        lemma_product_bound(vy as int, vy as int, 0x4_0000_0000, 0x4_0000_0000);
        lemma_product_bound(wx as int, wx as int, 0x8_0000_0000, 0x8_0000_0000);
        lemma_product_bound(wy as int, wy as int, 0x8_0000_0000, 0x8_0000_0000);
    }
    let along: i128 = vx * ux + vy * uy;
    let length2: i128 = ux * ux + uy * uy;
    let reach2: i128 = WALL_REACH * WALL_REACH;
    if along <= 0 {
        vx * vx + vy * vy <= reach2
    } else if along >= length2 * 65536 {
        wx * wx + wy * wy <= reach2
    } else {
        let across: i128 = vx * uy - vy * ux;
        proof {
            lemma_product_bound(
                across as int,
                across as int,
                0x8_0000_0000_0000,
                0x8_0000_0000_0000,
            );
            lemma_product_bound(reach2 as int, length2 as int, 0x4000_0000, 0x2_0000_0000);
        }
        across * across <= reach2 * length2
    }
}

/// Looks for a wall at a point: the first solid linedef the point is inside
/// of decides, and its front side's middle texture tells the material.
pub fn check_wall_collision(map: &LevelMap, x: i64, y: i64) -> (r: Option<WallType>)
    ensures
        r == collision(map@, x as int, y as int),
{
    let mut i: usize = 0;
    while i < map.linedefs.len()
        invariant
            i <= map.linedefs@.len(),
            collision(map@, x as int, y as int) == wall_from(map@, x as int, y as int, i as int),
        decreases map.linedefs@.len() - i,
    {
        let linedef: &Linedef = &map.linedefs[i];
        assert(map@.linedefs[i as int] == *linedef);
        assert(map@.sidedefs.len() == map.sidedefs@.len());
        assert(linedef.front_sidedef < map.sidedefs@.len() ==> map@.sidedefs[linedef.front_sidedef
            as int] == map.sidedefs@[linedef.front_sidedef as int]@);
        if linedef.back_sidedef == NO_SIDEDEF {
            match map.vertex(linedef.start_vertex) {
                Ok(start) => match map.vertex(linedef.end_vertex) {
                    Ok(end) => match map.sidedef(linedef.front_sidedef) {
                        Ok(front) => {
                            if point_near_segment(start, end, x, y) {
                                return Some(wall_material(front.middle_texture.as_str()));
                            }
                        },
                        Err(_) => {},
                    },
                    Err(_) => {},
                },
                Err(_) => {},
            }
        }
        i = i + 1;
    }
    None
}

/// Marches a ray from `(x, y)` and reports the first sample that is inside a
/// wall. A ray that meets no wall within `MAX_VIEW_STEPS` hits nothing.
pub fn cast_ray(map: &LevelMap, x: i32, y: i32, ray: &Ray) -> (r: Option<RayHit>)
    ensures
        r == cast(map@, x as int, y as int, *ray),
{
    let mut step: u32 = 0;
    while step < MAX_VIEW_STEPS
        invariant
            step <= MAX_VIEW_STEPS,
            cast(map@, x as int, y as int, *ray) == cast_from(
                map@,
                x as int,
                y as int,
                *ray,
                step as int,
            ),
        decreases MAX_VIEW_STEPS - step,
    {
        proof {
            lemma_product_bound(step as int, ray.dx as int, 1000, 0x8000_0000);
            lemma_product_bound(step as int, ray.dy as int, 1000, 0x8000_0000);
        }
        let sample_x: i64 = x as i64 + (step as i64) * (ray.dx as i64);
        let sample_y: i64 = y as i64 + (step as i64) * (ray.dy as i64);
        match check_wall_collision(map, sample_x, sample_y) {
            Some(wall) => {
                return Some(
                    RayHit { distance: step, wall_type: wall, hit_x: sample_x, hit_y: sample_y },
                );
            },
            None => {},
        }
        step = step + 1;
    }
    None
}

} // verus!
