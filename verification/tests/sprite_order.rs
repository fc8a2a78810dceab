use doom_core::color::Color;
use doom_core::numbers::integer_root;
use doom_core::raycast::Ray;
use doom_core::renderer::Player;
use doom_core::sprites::draw_order;
use doom_core::sprites::project_sprite;
use doom_core::sprites::Sprite;
use doom_core::texture::Texture;
use doom_core::sprites::SpriteColumn;

fn sprite(depth: Option<u64>) -> SpriteColumn {
    SpriteColumn { depth, screen_x: 0, height: 1, color: Color { r: 1, g: 2, b: 3 } }
}

fn key(distance: f64) -> Option<u64> {
    if distance.is_nan() {
        None
    } else {
        Some(distance.to_bits())
    }
}

#[test]
fn farthest_sprite_is_drawn_first() {
    let sprites: Vec<SpriteColumn> = [30, 10, 50, 20, 40].iter().map(|d| sprite(Some(*d))).collect();
    assert_eq!(draw_order(&sprites), vec![2, 4, 0, 3, 1]);
}

#[test]
fn sprite_without_a_depth_is_left_out() {
    let sprites = vec![sprite(Some(5)), sprite(None), sprite(Some(9)), sprite(None)];
    assert_eq!(draw_order(&sprites), vec![2, 0]);
    assert_eq!(draw_order(&vec![sprite(None)]), Vec::<usize>::new());
    assert_eq!(draw_order(&vec![]), Vec::<usize>::new());
}

#[test]
fn equally_far_sprites_keep_their_order() {
    let sprites = vec![sprite(Some(7)), sprite(Some(9)), sprite(Some(7)), sprite(Some(9)), sprite(Some(7))];
    assert_eq!(draw_order(&sprites), vec![1, 3, 0, 2, 4]);
}

#[test]
fn order_of_distinct_distances_never_increases() {
    let mut distances = Vec::new();
    let mut seed: u64 = 0x9E37_79B9_7F4A_7C15;
    for _ in 0..200 {
        seed = seed.wrapping_mul(6364136223846793005).wrapping_add(1442695040888963407);
        distances.push((seed >> 11) as f64 / 1024.0);
    }
    distances[17] = f64::NAN;
    distances[101] = f64::NAN;
    distances[5] = f64::INFINITY;
    distances[6] = 0.0;
    let sprites: Vec<SpriteColumn> = distances.iter().map(|d| sprite(key(*d))).collect();
    let order = draw_order(&sprites);
    assert_eq!(order.len(), 198);
    assert!(!order.contains(&17) && !order.contains(&101));
    assert_eq!(order[0], 5);
    assert_eq!(order[197], 6);
    for pair in order.windows(2) {
        assert!(distances[pair[0]] >= distances[pair[1]]);
    }
    let mut seen = order.clone();
    seen.sort();
    seen.dedup();
    assert_eq!(seen.len(), 198);
}

const UNIT: i32 = 65536;
const RED: Color = Color { r: 200, g: 0, b: 0 };

fn billboard(x: i32, y: i32, height: u16, scale: u32) -> Sprite {
    Sprite { texture: Texture { width: 1, height, pixels: vec![0; height as usize] }, x, y, scale }
}

fn viewer(x: i32, y: i32) -> Player {
    Player { x, y, angle: 0, height: 41 * UNIT as u32 }
}

const EAST: Ray = Ray { dx: UNIT, dy: 0 };

#[test]
fn root_is_rounded_down() {
    assert_eq!(integer_root(0), 0);
    assert_eq!(integer_root(1), 1);
    assert_eq!(integer_root(3), 1);
    assert_eq!(integer_root(4), 2);
    assert_eq!(integer_root(24), 4);
    assert_eq!(integer_root(25), 5);
    assert_eq!(integer_root(1 << 64), 1 << 32);
    assert_eq!(integer_root((1 << 64) - 1), (1 << 32) - 1);
    assert_eq!(integer_root(u128::MAX), u64::MAX);
    assert_eq!(integer_root((u64::MAX as u128) * (u64::MAX as u128)), u64::MAX);
    assert_eq!(integer_root((u64::MAX as u128) * (u64::MAX as u128) - 1), u64::MAX - 1);
    for n in 0..2000u128 {
        let r = integer_root(n) as u128;
        assert!(r * r <= n && n < (r + 1) * (r + 1));
    }
}

#[test]
fn sprite_straight_ahead_stands_in_the_middle() {
    let s = project_sprite(&billboard(100 * UNIT, 0, 56, UNIT as u32), &viewer(0, 0), &EAST, 800, RED);
    assert_eq!(s.depth, Some(100 * UNIT as u64));
    assert_eq!(s.screen_x, 400);
    assert_eq!(s.height, 0);
    assert_eq!(s.color, RED);
    let s = project_sprite(&billboard(2 * UNIT, 0, 56, 4 * UNIT as u32), &viewer(0, 0), &EAST, 800, RED);
    assert_eq!(s.height, 112);
    let s = project_sprite(&billboard(7 * UNIT, UNIT, 56, 600 * UNIT as u32), &viewer(5 * UNIT, UNIT), &EAST, 801, RED);
    assert_eq!((s.depth, s.screen_x, s.height), (Some(2 * UNIT as u64), 400, 16800));
}

#[test]
fn sprite_to_the_side_moves_by_the_tangent() {
    // Forty-five degrees to the left: the tangent is one, the column the screen's edge.
    let s = project_sprite(&billboard(10 * UNIT, 10 * UNIT, 1, 1), &viewer(0, 0), &EAST, 800, RED);
    assert_eq!(s.screen_x, -1);
    let s = project_sprite(&billboard(10 * UNIT, 10 * UNIT - 1, 1, 1), &viewer(0, 0), &EAST, 800, RED);
    assert_eq!(s.screen_x, 799);
    let s = project_sprite(&billboard(10 * UNIT, -10 * UNIT, 1, 1), &viewer(0, 0), &EAST, 800, RED);
    assert_eq!(s.screen_x, 0);
    let s = project_sprite(&billboard(10 * UNIT, -10 * UNIT - 1, 1, 1), &viewer(0, 0), &EAST, 800, RED);
    assert_eq!(s.screen_x, -1);
    let s = project_sprite(&billboard(10 * UNIT, 5 * UNIT, 1, 1), &viewer(0, 0), &EAST, 800, RED);
    assert_eq!(s.screen_x, 600);
    let s = project_sprite(&billboard(10 * UNIT, -5 * UNIT, 1, 1), &viewer(0, 0), &EAST, 800, RED);
    assert_eq!(s.screen_x, 200);
    assert_eq!(s.depth, Some(integer_root(125u128 << 32)));
}

#[test]
fn sprite_beside_or_at_the_viewer_has_no_column() {
    let s = project_sprite(&billboard(0, 10 * UNIT, 8, UNIT as u32), &viewer(0, 0), &EAST, 800, RED);
    assert_eq!(s.screen_x, -1);
    let s = project_sprite(&billboard(3, 4, 8, UNIT as u32), &viewer(3, 4), &EAST, 800, RED);
    assert_eq!((s.depth, s.screen_x, s.height), (Some(0), -1, u32::MAX));
    let s = project_sprite(&billboard(3, 4, 8, 0), &viewer(3, 5), &EAST, 0, RED);
    assert_eq!((s.depth, s.screen_x, s.height), (Some(1), -1, 0));
}

#[test]
fn sprite_behind_the_viewer_is_mirrored_by_the_tangent() {
    let s = project_sprite(&billboard(-10 * UNIT, 5 * UNIT, 1, 1), &viewer(0, 0), &EAST, 800, RED);
    assert_eq!(s.screen_x, 200);
    let s = project_sprite(&billboard(-10 * UNIT, 0, 1, 1), &viewer(0, 0), &EAST, 800, RED);
    assert_eq!(s.screen_x, 400);
}

#[test]
fn farthest_corners_of_the_map_do_not_overflow() {
    let far = billboard(i32::MAX, i32::MIN, u16::MAX, u32::MAX);
    let s = project_sprite(&far, &viewer(i32::MIN, i32::MAX), &Ray { dx: i32::MIN, dy: i32::MAX }, u32::MAX, RED);
    assert_eq!(s.depth, Some(integer_root(2 * ((1u128 << 32) - 1) * ((1u128 << 32) - 1))));
    assert!(s.screen_x == -1 || (0..u32::MAX as i64).contains(&s.screen_x));
    assert_eq!(s.height as u64, (u16::MAX as u64 * u32::MAX as u64) / s.depth.unwrap());
}

#[test]
fn projected_sprites_are_drawn_farthest_first() {
    let sprites: Vec<_> = [(30, 0), (10, 3), (50, -20), (20, 1), (40, 9)]
        .iter()
        .map(|(x, y)| project_sprite(&billboard(x * UNIT, y * UNIT, 8, UNIT as u32), &viewer(0, 0), &EAST, 640, RED))
        .collect();
    assert_eq!(draw_order(&sprites), vec![2, 4, 0, 3, 1]);
}
