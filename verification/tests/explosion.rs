use firework::color::Rgb;
use firework::explosion::Explosion;
use firework::explosion::FADE_START_MS;
use firework::pool::SurfacePool;
use firework::sparkle::Sparkle;
use firework::vector2d::Vector2D;
use firework::FireworkError;

fn one_sparkle_explosion(lifetime_ms: u32, direction: Vector2D, color: Rgb) -> Explosion {
    Explosion {
        lifetime_ms,
        time_left_ms: lifetime_ms,
        sparkles: vec![Sparkle::new(Vector2D::new(100_000, 50_000), direction, color)],
        image_index: 0,
        gravity_fp: 0,
    }
}

#[test]
fn alpha_formula_at_full_half_and_zero() {
    assert_eq!(FADE_START_MS, 1000);
    // lifetime 5.0 s; at time_left = 5.0 s the alpha is 1.0
    let mut e = one_sparkle_explosion(5000, Vector2D::new(0, 0), Rgb::new(500, 500, 500));
    let out = e.update(0);
    assert_eq!(e.time_left_ms, 5000);
    assert_eq!(out.alpha_permille, 1000);
    // at time_left = 0.5 s the alpha is 0.5
    let out = e.update(4500);
    assert_eq!(e.time_left_ms, 500);
    assert_eq!(out.alpha_permille, 500);
    // at time_left = 0.0 the alpha is exactly 0
    let out = e.update(500);
    assert_eq!(e.time_left_ms, 0);
    assert_eq!(out.alpha_permille, 0);
    assert!(out.surface_cleared);
}

#[test]
fn fade_is_monotone_over_successive_updates() {
    let mut e = one_sparkle_explosion(3000, Vector2D::new(100, -100), Rgb::new(900, 100, 300));
    let mut last_tl = e.time_left_ms;
    let mut last_alpha = 1000;
    loop {
        let out = e.update(700);
        assert!(e.time_left_ms < last_tl);
        assert!(out.alpha_permille <= last_alpha);
        last_tl = e.time_left_ms;
        last_alpha = out.alpha_permille;
        if e.time_left_ms == 0 {
            assert_eq!(out.alpha_permille, 0);
            break;
        }
    }
}

#[test]
fn sparkle_drift_at_full_fade_is_100_units_per_second() {
    // direction (1.0, 0.0), one second, full fade: 100 units to the right
    let mut e = one_sparkle_explosion(10_000, Vector2D::new(1000, 0), Rgb::new(100, 100, 100));
    e.gravity_fp = 0;
    let out = e.update(1000);
    let seg = out.segments[0];
    assert_eq!(seg.start.x, 100_000);
    assert_eq!(seg.start.y, 50_000);
    assert_eq!(seg.end.x, 200_000);
    // gravity accumulated over this frame: 9.82 units/s, applied for 1 s
    assert_eq!(seg.end.y, 50_000 - 9820);
    assert_eq!(e.sparkles[0].position.x, 200_000);
}

#[test]
fn gravity_accumulates_each_frame() {
    let mut e = one_sparkle_explosion(10_000, Vector2D::new(0, 0), Rgb::new(100, 100, 100));
    e.update(1000);
    assert_eq!(e.gravity_fp, 9820);
    e.update(1000);
    assert_eq!(e.gravity_fp, 19_640);
}

#[test]
fn spawn_rejects_invalid_configuration_without_taking_a_slot() {
    let mut pool = SurfacePool::new(2);
    let mut explosions: Vec<Explosion> = Vec::new();
    let no_directions: Vec<Vector2D> = Vec::new();
    let one = vec![Vector2D::new(500, 500)];
    // zero sparkles
    let r = Explosion::spawn(5000, &no_directions, 800, 600, &mut pool, &mut explosions);
    assert_eq!(r, Err(FireworkError::InvalidConfiguration));
    // zero lifetime
    let r = Explosion::spawn(0, &one, 800, 600, &mut pool, &mut explosions);
    assert_eq!(r, Err(FireworkError::InvalidConfiguration));
    // surface too small for the 50-unit spawn margin
    let r = Explosion::spawn(5000, &one, 100, 600, &mut pool, &mut explosions);
    assert_eq!(r, Err(FireworkError::InvalidConfiguration));
    let r = Explosion::spawn(5000, &one, 800, 100, &mut pool, &mut explosions);
    assert_eq!(r, Err(FireworkError::InvalidConfiguration));
    // no slot was consumed and no explosion created
    assert_eq!(pool.free_len(), 2);
    assert_eq!(explosions.len(), 0);
}

#[test]
fn spawn_places_all_sparkles_at_one_origin_inside_the_margin() {
    let mut pool = SurfacePool::new(1);
    let mut explosions: Vec<Explosion> = Vec::new();
    let directions = vec![
        Vector2D::new(1000, 0),
        Vector2D::new(0, 1000),
        Vector2D::new(-707, -707),
    ];
    Explosion::spawn(5000, &directions, 800, 600, &mut pool, &mut explosions).unwrap();
    let e = &explosions[0];
    assert_eq!(e.lifetime_ms, 5000);
    assert_eq!(e.time_left_ms, 5000);
    assert_eq!(e.gravity_fp, 0);
    assert_eq!(e.sparkles.len(), 3);
    let origin = e.sparkles[0].position;
    assert!(50_000 <= origin.x && origin.x < (800 - 50) * 1000);
    assert!(50_000 <= origin.y && origin.y < (600 - 50) * 1000);
    for (i, s) in e.sparkles.iter().enumerate() {
        assert_eq!(s.position.x, origin.x);
        assert_eq!(s.position.y, origin.y);
        assert_eq!(s.direction, directions[i]);
        assert!(s.color.r < 1000 && s.color.g < 1000 && s.color.b < 1000);
    }
    // colours alternate by index parity
    assert_eq!(e.sparkles[0].color, e.sparkles[2].color);
}

#[test]
fn spawn_on_minimal_surface_pins_the_origin() {
    // width and height 101 leave exactly one legal origin: (50, 50)
    let mut pool = SurfacePool::new(1);
    let mut explosions: Vec<Explosion> = Vec::new();
    let directions = vec![Vector2D::new(100, -100)];
    Explosion::spawn(1000, &directions, 101, 101, &mut pool, &mut explosions).unwrap();
    assert_eq!(explosions[0].sparkles[0].position.x, 50_000);
    assert_eq!(explosions[0].sparkles[0].position.y, 50_000);
}

#[test]
fn spawn_exhausts_after_capacity() {
    let mut pool = SurfacePool::new(1);
    let mut explosions: Vec<Explosion> = Vec::new();
    let directions = vec![Vector2D::new(500, 0)];
    Explosion::spawn(5000, &directions, 800, 600, &mut pool, &mut explosions).unwrap();
    let r = Explosion::spawn(5000, &directions, 800, 600, &mut pool, &mut explosions);
    assert_eq!(r, Err(FireworkError::Exhausted));
    assert_eq!(explosions.len(), 1);
}

#[test]
fn explosions_compare_by_slot_identity() {
    let a = one_sparkle_explosion(1000, Vector2D::new(0, 0), Rgb::new(1, 2, 3));
    let mut b = one_sparkle_explosion(9999, Vector2D::new(500, 500), Rgb::new(7, 8, 9));
    assert!(a == b);
    b.image_index = 1;
    assert!(a != b);
}
