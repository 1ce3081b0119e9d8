use firework::color::Rgb;
use firework::sparkle::Sparkle;
use firework::vector2d::Vector2D;

#[test]
fn fade_full_leaves_channels_unchanged() {
    let c = Rgb::new(800, 600, 400);
    let f = c.fade(5000, 5000);
    assert_eq!((f.r, f.g, f.b), (800, 600, 400));
}

#[test]
fn fade_half_halves_each_channel() {
    let c = Rgb::new(800, 600, 400);
    let f = c.fade(2500, 5000);
    assert_eq!((f.r, f.g, f.b), (400, 300, 200));
}

#[test]
fn fade_zero_blacks_out() {
    let c = Rgb::new(1000, 999, 1);
    let f = c.fade(0, 5000);
    assert_eq!((f.r, f.g, f.b), (0, 0, 0));
}

#[test]
fn drawn_segment_colour_is_base_times_fade() {
    let mut s = Sparkle::new(
        Vector2D::new(0, 0),
        Vector2D::new(0, 0),
        Rgb::new(800, 600, 400),
    );
    // full fade: time_left == lifetime
    let seg = s.update_and_draw(16, 0, 4000, 4000);
    assert_eq!((seg.color.r, seg.color.g, seg.color.b), (800, 600, 400));
    assert_eq!(seg.width_permille, 1200);
    // half fade
    let seg = s.update_and_draw(16, 0, 2000, 4000);
    assert_eq!((seg.color.r, seg.color.g, seg.color.b), (400, 300, 200));
    assert_eq!(seg.width_permille, 600);
}
