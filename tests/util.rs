use firework::util::{Axis, Color, Coord};

#[test]
fn color_packs_as_rgb_word() {
    assert_eq!(u32::from(Color(0x12, 0x34, 0x56)), 0x0012_3456);
    assert_eq!(u32::from(Color(255, 255, 255)), 0x00ff_ffff);
    assert_eq!(u32::from(Color(0, 0, 0)), 0);
    assert_eq!(u32::from(Color(1, 0, 0)), 65536);
}

#[test]
fn coord_from_index_counts_rows_upward() {
    assert_eq!(Coord::from_index(0, 4, 3), Coord(0, 3));
    assert_eq!(Coord::from_index(3, 4, 3), Coord(3, 3));
    assert_eq!(Coord::from_index(5, 4, 3), Coord(1, 2));
    assert_eq!(Coord::from_index(11, 4, 3), Coord(3, 1));
}

#[test]
fn coord_from_index_distinct_pixels() {
    let (w, h) = (7usize, 5usize);
    let mut seen = Vec::new();
    for i in 0..w * h {
        let c = Coord::from_index(i, w, h);
        assert!(c.0 < w);
        assert!(c.1 >= 1 && c.1 <= h);
        assert!(!seen.contains(&c));
        seen.push(c);
    }
}

#[test]
fn axis_other_is_the_third_axis() {
    assert_eq!(Axis::other(Axis::X, Axis::Y), Axis::Z);
    assert_eq!(Axis::other(Axis::Y, Axis::X), Axis::Z);
    assert_eq!(Axis::other(Axis::Y, Axis::Z), Axis::X);
    assert_eq!(Axis::other(Axis::Z, Axis::Y), Axis::X);
    assert_eq!(Axis::other(Axis::X, Axis::Z), Axis::Y);
    assert_eq!(Axis::other(Axis::Z, Axis::X), Axis::Y);
}

#[test]
fn axis_index() {
    assert_eq!(Axis::X.index(), 0);
    assert_eq!(Axis::Y.index(), 1);
    assert_eq!(Axis::Z.index(), 2);
}
