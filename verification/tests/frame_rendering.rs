use doom_core::color::gray;
use doom_core::color::wall_color;
use doom_core::color::Color;
use doom_core::color::CEILING_LEVEL;
use doom_core::color::FLOOR_LEVEL;
use doom_core::map::LevelMap;
use doom_core::map::Linedef;
use doom_core::map::Sidedef;
use doom_core::map::Vertex;
use doom_core::raycast::Ray;
use doom_core::raycast::RayHit;
use doom_core::raycast::WallType;
use doom_core::renderer::Player;
use doom_core::renderer::Renderer;
use doom_core::sprites::SpriteColumn;

const RED: Color = Color { r: 200, g: 0, b: 0 };
const GREEN: Color = Color { r: 0, g: 200, b: 0 };

fn wall_map() -> LevelMap {
    LevelMap {
        vertices: vec![Vertex { x: 200, y: -500 }, Vertex { x: 200, y: 500 }],
        linedefs: vec![Linedef {
            start_vertex: 0,
            end_vertex: 1,
            flags: 0,
            special_type: 0,
            sector_tag: 0,
            front_sidedef: 0,
            back_sidedef: 0xFFFF,
        }],
        sidedefs: vec![Sidedef {
            x_offset: 0,
            y_offset: 0,
            upper_texture: "-".to_string(),
            lower_texture: "-".to_string(),
            middle_texture: "METAL1".to_string(),
            sector: 0,
        }],
        sectors: vec![],
        things: vec![],
    }
}

fn empty_map() -> LevelMap {
    LevelMap { vertices: vec![], linedefs: vec![], sidedefs: vec![], sectors: vec![], things: vec![] }
}

fn viewer() -> Player {
    Player { x: 0, y: 0, angle: 0, height: 41 << 16 }
}

fn column(r: &Renderer, col: u32) -> Vec<Color> {
    (0..r.height()).map(|row| r.pixel(col, row)).collect()
}

#[test]
fn new_frame_is_cleared() {
    let r = Renderer::new(4, 3);
    assert_eq!((r.width(), r.height()), (4, 3));
    assert_eq!(r.pixels().len(), 12);
    assert!(r.pixels().iter().all(|p| *p == gray(0)));
    let empty = Renderer::new(0, 7);
    assert_eq!(empty.pixels().len(), 0);
}

#[test]
fn wall_colours_by_material() {
    assert_eq!(wall_color(WallType::Stone), Color { r: 128, g: 128, b: 128 });
    assert_eq!(wall_color(WallType::Wood), Color { r: 139, g: 69, b: 19 });
    assert_eq!(wall_color(WallType::Metal), Color { r: 192, g: 192, b: 192 });
}

#[test]
fn span_touches_only_its_column_and_rows() {
    let mut r = Renderer::new(5, 6);
    r.draw_span(2, 1, 4, RED);
    for row in 0..6 {
        for col in 0..5 {
            let expected = if col == 2 && (1..4).contains(&row) { RED } else { gray(0) };
            assert_eq!(r.pixel(col, row), expected);
            assert_eq!(r.pixels()[(row * 5 + col) as usize], expected);
        }
    }
    r.draw_span(4, 3, 3, GREEN);
    assert!(r.pixels().iter().all(|p| *p != GREEN));
    r.clear(GREEN);
    assert!(r.pixels().iter().all(|p| *p == GREEN));
}

#[test]
fn rows_above_the_midline_are_ceiling() {
    let mut r = Renderer::new(3, 5);
    r.render_floor_ceiling();
    let ceiling = gray(CEILING_LEVEL);
    let floor = gray(FLOOR_LEVEL);
    assert_eq!(column(&r, 0), vec![ceiling, ceiling, floor, floor, floor]);
    assert_eq!(column(&r, 2), vec![ceiling, ceiling, floor, floor, floor]);
    let mut r = Renderer::new(2, 4);
    r.render_floor_ceiling();
    assert_eq!(column(&r, 1), vec![ceiling, ceiling, floor, floor]);
}

#[test]
fn wall_slice_is_as_tall_as_its_distance_makes_it() {
    let mut r = Renderer::new(2, 600);
    let hit = RayHit { distance: 200, wall_type: WallType::Wood, hit_x: 0, hit_y: 0 };
    r.draw_wall_slice(1, &hit);
    let wood = wall_color(WallType::Wood);
    for row in 0..600 {
        assert_eq!(r.pixel(1, row) == wood, (150..450).contains(&row));
        assert_eq!(r.pixel(0, row), gray(0));
    }
    let near = RayHit { distance: 0, wall_type: WallType::Stone, hit_x: 0, hit_y: 0 };
    r.draw_wall_slice(0, &near);
    assert!(column(&r, 0).iter().all(|p| *p == wall_color(WallType::Stone)));
}

#[test]
fn wall_twice_as_far_is_half_as_tall_on_screen() {
    let east = Ray { dx: 65536, dy: 0 };
    let count = |player_x: i32| {
        let mut r = Renderer::new(1, 600);
        r.render_3d_view(&wall_map(), &Player { x: player_x, y: 0, angle: 0, height: 0 }, &vec![east]);
        column(&r, 0).iter().filter(|p| **p == wall_color(WallType::Metal)).count()
    };
    assert_eq!(count(0), 300);
    assert_eq!(count(-200 * 65536), 150);
    assert_eq!(count(100 * 65536), 600);
    assert_eq!(count(-600 * 65536), 75);
}

#[test]
fn column_without_a_hit_keeps_floor_and_ceiling() {
    let mut r = Renderer::new(3, 600);
    let rays = vec![Ray { dx: 65536, dy: 0 }, Ray { dx: -65536, dy: 0 }];
    r.render_frame(&wall_map(), &viewer(), &rays, &vec![]);
    let metal = wall_color(WallType::Metal);
    assert_eq!(column(&r, 0).iter().filter(|p| **p == metal).count(), 300);
    for col in 1..3 {
        for row in 0..600 {
            let expected = if row < 300 { gray(CEILING_LEVEL) } else { gray(FLOOR_LEVEL) };
            assert_eq!(r.pixel(col, row), expected);
        }
    }
    assert_eq!(r.pixel(0, 149), gray(CEILING_LEVEL));
    assert_eq!(r.pixel(0, 150), metal);
    assert_eq!(r.pixel(0, 449), metal);
    assert_eq!(r.pixel(0, 450), gray(FLOOR_LEVEL));
}

#[test]
fn rays_beyond_the_frame_width_are_ignored() {
    let mut r = Renderer::new(1, 10);
    let rays = vec![Ray { dx: -65536, dy: 0 }, Ray { dx: 65536, dy: 0 }];
    r.render_3d_view(&wall_map(), &viewer(), &rays);
    assert!(r.pixels().iter().all(|p| *p == gray(0)));
}

#[test]
fn nearer_sprite_covers_a_farther_one() {
    let far = SpriteColumn { depth: Some(900), screen_x: 1, height: 6, color: RED };
    let near = SpriteColumn { depth: Some(100), screen_x: 1, height: 2, color: GREEN };
    for sprites in [vec![far, near], vec![near, far]] {
        let mut r = Renderer::new(3, 8);
        r.render_sprites(&sprites);
        let bg = gray(0);
        assert_eq!(column(&r, 1), vec![bg, RED, RED, GREEN, GREEN, RED, RED, bg]);
        assert!(column(&r, 0).iter().all(|p| *p == bg));
    }
}

#[test]
fn sprite_off_screen_or_without_depth_is_skipped() {
    let mut r = Renderer::new(3, 4);
    let sprites = vec![
        SpriteColumn { depth: Some(1), screen_x: -1, height: 4, color: RED },
        SpriteColumn { depth: Some(2), screen_x: 3, height: 4, color: RED },
        SpriteColumn { depth: Some(3), screen_x: i64::MAX, height: 4, color: RED },
        SpriteColumn { depth: None, screen_x: 1, height: 4, color: RED },
        SpriteColumn { depth: Some(4), screen_x: 2, height: 4, color: GREEN },
        SpriteColumn { depth: Some(5), screen_x: 0, height: u32::MAX, color: GREEN },
    ];
    r.render_frame(&empty_map(), &viewer(), &vec![], &sprites);
    assert!(r.pixels().iter().all(|p| *p != RED));
    assert!(column(&r, 0).iter().all(|p| *p == GREEN));
    assert!(column(&r, 2).iter().all(|p| *p == GREEN));
    assert_eq!(column(&r, 1), vec![gray(CEILING_LEVEL), gray(CEILING_LEVEL), gray(FLOOR_LEVEL), gray(FLOOR_LEVEL)]);
}

#[test]
fn same_inputs_give_the_same_frame() {
    let rays: Vec<Ray> = (0..16).map(|i| Ray { dx: 65536 - i * 100, dy: i * 3000 }).collect();
    let sprites = vec![
        SpriteColumn { depth: Some(7), screen_x: 3, height: 5, color: RED },
        SpriteColumn { depth: Some(7), screen_x: 3, height: 9, color: GREEN },
    ];
    let mut a = Renderer::new(16, 32);
    let mut b = Renderer::new(16, 32);
    a.render_frame(&wall_map(), &viewer(), &rays, &sprites);
    b.clear(RED);
    b.render_frame(&wall_map(), &viewer(), &rays, &sprites);
    b.render_frame(&wall_map(), &viewer(), &rays, &sprites);
    assert_eq!(a.pixels(), b.pixels());
}
