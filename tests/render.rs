use firework::render::{may_scatter, render_pixels, MAX_DEPTH};
use firework::util::{Color, Coord};

#[test]
fn render_shades_each_pixel_once_in_order() {
    let buf = render_pixels(4, 3, &|i: usize| Color(i as u8, 0, 9));
    assert_eq!(buf.len(), 12);
    for (i, c) in buf.iter().enumerate() {
        assert_eq!(*c, Color(i as u8, 0, 9));
    }
}

#[test]
fn render_is_deterministic() {
    let shade = |i: usize| {
        let c = Coord::from_index(i, 5, 4);
        Color((c.0 * 40) as u8, (c.1 * 50) as u8, (i % 256) as u8)
    };
    assert_eq!(render_pixels(5, 4, &shade), render_pixels(5, 4, &shade));
}

#[test]
fn render_empty_image() {
    assert!(render_pixels(0, 7, &|_| Color(1, 2, 3)).is_empty());
}

#[test]
fn depth_cap() {
    assert_eq!(MAX_DEPTH, 10);
    assert!(may_scatter(0));
    assert!(may_scatter(9));
    assert!(!may_scatter(10));
    assert!(!may_scatter(11));
}
