use particle_toy::{
    new_field, update_field, Particle, Vector2, FRICTION, PARTICLE_COUNT, SCALE, SCREEN_HEIGHT,
    SCREEN_WIDTH,
};

const W: i32 = 800;
const H: i32 = 800;

fn px(v: i64) -> i64 {
    v * SCALE
}

fn particle(x: i64, y: i64, vx: i64, vy: i64) -> Particle {
    Particle { pos: Vector2 { x, y }, vel: Vector2 { x: vx, y: vy } }
}

fn frame(q: &mut Particle, pointer: &Vector2) {
    q.update(pointer, FRICTION, &W, &H);
}

#[test]
fn outside_pointer_one_frame() {
    let mut q = particle(px(400), px(400), px(1), 0);
    frame(&mut q, &Vector2::from_pixels(-10, 400));
    assert_eq!(q.vel, Vector2 { x: 990_000, y: 0 });
    assert_eq!(q.pos, Vector2 { x: 400_990_000, y: px(400) });
}

#[test]
fn outside_pointer_hundred_frames() {
    let mut q = particle(px(400), px(400), px(1), 0);
    let pointer = Vector2::from_pixels(-10, 400);
    for _ in 0..100 {
        frame(&mut q, &pointer);
    }
    let expected = 0.99f64.powi(100);
    let got = q.vel.x as f64 / SCALE as f64;
    assert!((got - expected).abs() < 1e-3, "{} vs {}", got, expected);
    assert!((got - 0.366).abs() < 1e-3);
    assert_eq!(q.vel.y, 0);
}

#[test]
fn pointer_on_particle_is_fixed_point() {
    let mut q = particle(px(100), px(100), 0, 0);
    let pointer = Vector2::from_pixels(100, 100);
    frame(&mut q, &pointer);
    assert_eq!(q, particle(px(100), px(100), 0, 0));
    frame(&mut q, &pointer);
    assert_eq!(q, particle(px(100), px(100), 0, 0));
}

#[test]
fn attractor_directly_right() {
    let mut q = particle(px(100), px(100), 0, 0);
    let pointer = Vector2::from_pixels(200, 100);
    q.attract(&pointer);
    assert_eq!(q.vel, Vector2 { x: 10_000, y: 0 });
    q.do_friction(FRICTION);
    assert_eq!(q.vel, Vector2 { x: 9_900, y: 0 });
    q.apply_velocity(&W, &H);
    assert_eq!(q.pos, Vector2 { x: 100_009_900, y: px(100) });
}

#[test]
fn attractor_directly_right_whole_frame() {
    let mut q = particle(px(100), px(100), 0, 0);
    frame(&mut q, &Vector2::from_pixels(200, 100));
    assert_eq!(q, particle(100_009_900, px(100), 9_900, 0));
}

#[test]
fn wall_clamp_keeps_velocity() {
    let mut q = particle(799_500_000, px(400), px(10), 0);
    let pointer = Vector2::from_pixels(-1, -1);
    frame(&mut q, &pointer);
    assert_eq!(q, particle(px(800), px(400), 9_900_000, 0));
    frame(&mut q, &pointer);
    assert_eq!(q, particle(px(800), px(400), 9_801_000, 0));
}

#[test]
fn wall_clamp_at_zero() {
    let mut q = particle(500_000, px(3), -px(2), -px(5));
    q.apply_velocity(&W, &H);
    assert_eq!(q.pos, Vector2 { x: 0, y: 0 });
    assert_eq!(q.vel, Vector2 { x: -px(2), y: -px(5) });
}

#[test]
fn distance_floor_caps_pull() {
    let mut q = particle(px(100), px(100), 0, 0);
    q.attract(&Vector2 { x: 100_100_000, y: px(100) });
    assert_eq!(q.vel, Vector2 { x: px(2), y: 0 });
}

#[test]
fn distance_floor_within_half_pixel_diagonal() {
    let mut q = particle(px(100), px(100), 0, 0);
    q.attract(&Vector2 { x: 100_300_000, y: 100_400_000 });
    // distance 0.5, normal (-0.6, -0.8), divided by 0.5
    assert_eq!(q.vel, Vector2 { x: 1_200_000, y: 1_600_000 });
}

#[test]
fn pull_at_diagonal_distance() {
    let mut q = particle(px(100), px(100), px(1), 0);
    q.attract(&Vector2::from_pixels(103, 104));
    // distance 5, normal (-0.6, -0.8), change (0.12, 0.16)
    assert_eq!(q.vel, Vector2 { x: 1_120_000, y: 160_000 });
    assert_eq!(q.pos, Vector2 { x: px(100), y: px(100) });
}

#[test]
fn pointer_on_canvas_border_attracts() {
    let mut q = particle(px(700), px(800), 0, 0);
    q.attract(&Vector2::from_pixels(800, 800));
    assert_eq!(q.vel, Vector2 { x: 10_000, y: 0 });
}

#[test]
fn pointer_just_off_canvas_does_nothing() {
    let start = particle(px(700), px(700), 123, -456);
    for pointer in [
        Vector2 { x: px(800) + 1, y: px(400) },
        Vector2 { x: -1, y: px(400) },
        Vector2 { x: px(400), y: px(800) + 1 },
        Vector2 { x: px(400), y: -1 },
        Vector2::from_pixels(-10, 400),
    ] {
        let mut q = start;
        q.attract(&pointer);
        assert_eq!(q, start);
    }
}

#[test]
fn attract_points_towards_pointer() {
    let pointer = Vector2::from_pixels(250, 600);
    for (x, y) in [(10, 10), (790, 20), (250, 100), (600, 600), (249, 601), (0, 800)] {
        let mut q = particle(px(x), px(y), 0, 0);
        q.attract(&pointer);
        let dot = q.vel.x as i128 * (pointer.x - q.pos.x) as i128
            + q.vel.y as i128 * (pointer.y - q.pos.y) as i128;
        assert!(dot > 0, "particle at ({}, {})", x, y);
    }
}

#[test]
fn friction_decays_each_component() {
    let mut q = particle(0, 0, px(3), -px(7));
    let mut prev = q.vel;
    for _ in 0..50 {
        q.do_friction(FRICTION);
        assert!(q.vel.x.abs() <= prev.x.abs() && q.vel.x >= 0);
        assert!(q.vel.y.abs() <= prev.y.abs() && q.vel.y <= 0);
        prev = q.vel;
    }
    let expected = 3.0 * 0.99f64.powi(50) * SCALE as f64;
    assert!((q.vel.x as f64) <= expected && (q.vel.x as f64) > expected - 50.0);
}

#[test]
fn friction_halving_is_exact() {
    let mut q = particle(px(1), px(2), px(4), -px(8));
    q.do_friction(500_000);
    assert_eq!(q.vel, Vector2 { x: px(2), y: -px(4) });
    assert_eq!(q.pos, Vector2 { x: px(1), y: px(2) });
}

#[test]
fn friction_rounds_towards_zero() {
    let mut q = particle(0, 0, 3, -3);
    q.do_friction(FRICTION);
    assert_eq!(q.vel, Vector2 { x: 2, y: -2 });
}

#[test]
fn clamp_twice_equals_once() {
    let mut q = particle(px(790), px(5), px(50), -px(50));
    q.apply_velocity(&W, &H);
    let once = q.pos;
    let mut again = particle(once.x, once.y, 0, 0);
    again.apply_velocity(&W, &H);
    assert_eq!(again.pos, once);
    assert_eq!(once, Vector2 { x: px(800), y: 0 });
}

#[test]
fn positions_stay_on_canvas() {
    let mut field = vec![
        particle(0, 0, -px(100), -px(100)),
        particle(px(800), px(800), px(100), px(100)),
        particle(px(400), px(400), px(1000), -px(1000)),
    ];
    let pointer = Vector2::from_pixels(400, 400);
    for _ in 0..200 {
        update_field(&mut field, &pointer, FRICTION, &W, &H);
        for q in &field {
            assert!(q.pos.x >= 0 && q.pos.x <= px(800));
            assert!(q.pos.y >= 0 && q.pos.y <= px(800));
        }
    }
}

#[test]
fn field_frame_updates_each_particle() {
    let start = vec![
        particle(px(400), px(400), px(1), 0),
        particle(px(100), px(100), 0, 0),
        particle(799_500_000, px(400), px(10), 0),
    ];
    let pointer = Vector2::from_pixels(-10, 400);
    let mut field = start.clone();
    update_field(&mut field, &pointer, FRICTION, &W, &H);
    assert_eq!(field.len(), 3);
    for (q, s) in field.iter().zip(start.iter()) {
        let mut alone = *s;
        alone.update(&pointer, FRICTION, &W, &H);
        assert_eq!(*q, alone);
    }
    assert_eq!(field[2], particle(px(800), px(400), 9_900_000, 0));
}

#[test]
fn permuted_field_gives_same_particles() {
    let start = vec![
        particle(px(10), px(20), px(1), -px(1)),
        particle(px(300), px(700), 0, 0),
        particle(px(650), px(50), -500_000, 250_000),
    ];
    let pointer = Vector2::from_pixels(320, 410);
    let mut plain = start.clone();
    update_field(&mut plain, &pointer, FRICTION, &W, &H);
    let perm = [2usize, 0, 1];
    let mut shuffled: Vec<Particle> = perm.iter().map(|&i| start[i]).collect();
    update_field(&mut shuffled, &pointer, FRICTION, &W, &H);
    let mut restored = vec![shuffled[0]; 3];
    for (k, &i) in perm.iter().enumerate() {
        restored[i] = shuffled[k];
    }
    assert_eq!(restored, plain);
}

#[test]
fn same_start_and_trace_give_same_frames() {
    let start = vec![particle(px(5), px(6), 1, 2), particle(px(700), px(300), -px(1), 3)];
    let trace = [
        Vector2::from_pixels(100, 100),
        Vector2::from_pixels(-5, 100),
        Vector2::from_pixels(700, 299),
        Vector2::from_pixels(400, 900),
    ];
    let mut a = start.clone();
    let mut b = start.clone();
    for p in trace.iter() {
        update_field(&mut a, p, FRICTION, &W, &H);
        update_field(&mut b, p, FRICTION, &W, &H);
        assert_eq!(a, b);
    }
}

#[test]
fn randomized_field_within_spawn_bounds() {
    let field = new_field(PARTICLE_COUNT, &SCREEN_WIDTH, &SCREEN_HEIGHT);
    assert_eq!(field.len(), PARTICLE_COUNT);
    for q in &field {
        assert!(q.pos.x >= 0 && q.pos.x < px(799));
        assert!(q.pos.y >= 0 && q.pos.y < px(799));
        assert!(q.vel.x >= -SCALE && q.vel.x < SCALE);
        assert!(q.vel.y >= -SCALE && q.vel.y < SCALE);
    }
    assert!(field.iter().any(|q| q.pos != field[0].pos));
}

#[test]
fn randomize_small_canvas() {
    let mut q = particle(px(500), px(500), px(9), px(9));
    for _ in 0..100 {
        q.randomize(&2, &3);
        assert!(q.pos.x >= 0 && q.pos.x < px(1));
        assert!(q.pos.y >= 0 && q.pos.y < px(2));
        assert!(q.vel.x >= -SCALE && q.vel.x < SCALE);
        assert!(q.vel.y >= -SCALE && q.vel.y < SCALE);
    }
}

#[test]
fn new_particle_within_spawn_bounds() {
    let q = Particle::new(&W, &H);
    assert!(q.pos.x >= 0 && q.pos.x < px(799));
    assert!(q.pos.y >= 0 && q.pos.y < px(799));
    assert!(q.vel.x >= -SCALE && q.vel.x < SCALE);
}

#[test]
fn empty_field_frame() {
    let mut field: Vec<Particle> = new_field(0, &W, &H);
    assert!(field.is_empty());
    update_field(&mut field, &Vector2::from_pixels(1, 1), FRICTION, &W, &H);
    assert!(field.is_empty());
}

#[test]
fn pixel_truncates_position() {
    let q = particle(799_999_999, 500_000, 0, 0);
    assert_eq!(q.pixel(), (799, 0));
    let q = particle(px(800), px(12), 0, 0);
    assert_eq!(q.pixel(), (800, 12));
}

#[test]
fn from_pixels_scales() {
    assert_eq!(Vector2::from_pixels(3, -4), Vector2 { x: 3_000_000, y: -4_000_000 });
}

#[test]
fn pull_never_exceeds_two_pixels() {
    let mut q = particle(px(100), px(100), 0, 0);
    q.attract(&Vector2 { x: px(100) + 1, y: px(100) + 1 });
    // distance rounds up to 2 units, normal (0.5, 0.5), divided by the 0.5 floor
    assert_eq!(q.vel, Vector2 { x: px(1), y: px(1) });
    for (dx, dy) in [(1, 0), (1, 1), (2, 3), (300_000, 400_000), (499_999, 1), (7, -5)] {
        let mut q = particle(px(400), px(400), 0, 0);
        q.attract(&Vector2 { x: px(400) + dx, y: px(400) + dy });
        let len2 = q.vel.x as i128 * q.vel.x as i128 + q.vel.y as i128 * q.vel.y as i128;
        assert!(len2 <= 4 * (SCALE as i128) * (SCALE as i128), "offset ({}, {})", dx, dy);
    }
}
