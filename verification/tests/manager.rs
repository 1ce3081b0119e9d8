use firework::manager::ExplosionManager;
use firework::vector2d::Vector2D;
use firework::FireworkError;

fn burst() -> Vec<Vector2D> {
    vec![
        Vector2D::new(1000, 0),
        Vector2D::new(0, 1000),
        Vector2D::new(-1000, 0),
        Vector2D::new(0, -1000),
    ]
}

#[test]
fn end_to_end_acquire_expire_release_reacquire() {
    let mut m = ExplosionManager::new(2);
    // spawn A: succeeds, one slot held
    m.spawn(1000, &burst(), 800, 600).unwrap();
    assert_eq!(m.live_count(), 1);
    assert_eq!(m.free_count(), 1);
    // spawn B: succeeds, both slots held
    m.spawn(10_000, &burst(), 800, 600).unwrap();
    assert_eq!(m.live_count(), 2);
    assert_eq!(m.free_count(), 0);
    // spawn C: fails with Exhausted, both slots still held
    let r = m.spawn(5000, &burst(), 800, 600);
    assert_eq!(r, Err(FireworkError::Exhausted));
    assert_eq!(m.live_count(), 2);
    assert_eq!(m.free_count(), 0);
    // advance past A's lifetime: A expires and is reaped
    let frames = m.tick(1000);
    assert_eq!(frames.len(), 2);
    assert_eq!(frames[0].alpha_permille, 0);
    assert!(frames[0].surface_cleared);
    assert!(frames[1].alpha_permille > 0);
    assert_eq!(m.live_count(), 1);
    assert_eq!(m.free_count(), 1);
    // spawn D: succeeds again, both slots held
    m.spawn(5000, &burst(), 800, 600).unwrap();
    assert_eq!(m.live_count(), 2);
    assert_eq!(m.free_count(), 0);
}

#[test]
fn live_explosions_hold_distinct_slots() {
    let mut m = ExplosionManager::new(3);
    for _ in 0..3 {
        m.spawn(5000, &burst(), 800, 600).unwrap();
    }
    let a = m.explosions[0].get_image();
    let b = m.explosions[1].get_image();
    let c = m.explosions[2].get_image();
    assert!(a != b && b != c && a != c);
}

#[test]
fn conservation_holds_through_spawns_and_ticks() {
    let mut m = ExplosionManager::new(4);
    for lifetime in [500u32, 1000, 1500] {
        m.spawn(lifetime, &burst(), 800, 600).unwrap();
        assert_eq!(m.live_count() + m.free_count(), 4);
    }
    for _ in 0..4 {
        m.tick(400);
        assert_eq!(m.live_count() + m.free_count(), 4);
    }
    assert_eq!(m.live_count(), 0);
    assert_eq!(m.free_count(), 4);
}

#[test]
fn tick_reports_one_frame_per_live_explosion() {
    let mut m = ExplosionManager::new(2);
    m.spawn(5000, &burst(), 800, 600).unwrap();
    m.spawn(5000, &burst(), 800, 600).unwrap();
    let slots = [m.explosions[0].get_image(), m.explosions[1].get_image()];
    let frames = m.tick(16);
    assert_eq!(frames.len(), 2);
    for (frame, slot) in frames.iter().zip(slots) {
        assert_eq!(frame.slot, slot);
        assert_eq!(frame.segments.len(), 4);
        assert_eq!(frame.alpha_permille, 1000);
        assert!(!frame.surface_cleared);
    }
}

#[test]
fn manager_spawn_rejects_bad_configuration_without_slot_loss() {
    let mut m = ExplosionManager::new(2);
    let none: Vec<Vector2D> = Vec::new();
    assert_eq!(
        m.spawn(5000, &none, 800, 600),
        Err(FireworkError::InvalidConfiguration)
    );
    assert_eq!(
        m.spawn(0, &burst(), 800, 600),
        Err(FireworkError::InvalidConfiguration)
    );
    assert_eq!(
        m.spawn(5000, &burst(), 60, 600),
        Err(FireworkError::InvalidConfiguration)
    );
    assert_eq!(m.free_count(), 2);
    assert_eq!(m.live_count(), 0);
}

#[test]
fn survivors_keep_their_relative_order() {
    let mut m = ExplosionManager::new(3);
    m.spawn(400, &burst(), 800, 600).unwrap();
    m.spawn(5000, &burst(), 800, 600).unwrap();
    m.spawn(6000, &burst(), 800, 600).unwrap();
    let keep = [m.explosions[1].get_image(), m.explosions[2].get_image()];
    m.tick(500);
    assert_eq!(m.live_count(), 2);
    assert_eq!(m.explosions[0].get_image(), keep[0]);
    assert_eq!(m.explosions[1].get_image(), keep[1]);
}
