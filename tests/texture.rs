use firework::texture::{corner_hashes, gradient, Gradient, ImageTexture, PERMUTATION};
use firework::util::Axis;

fn small_image() -> ImageTexture {
    // 3 x 2 image, rows from the top.
    let pixels: Vec<u8> = (0..18u8).collect();
    ImageTexture::new(3, 2, pixels).unwrap()
}

#[test]
fn image_texture_rejects_bad_sizes() {
    assert!(ImageTexture::new(0, 2, Vec::new()).is_none());
    assert!(ImageTexture::new(2, 0, Vec::new()).is_none());
    assert!(ImageTexture::new(2, 2, vec![0; 11]).is_none());
    assert!(ImageTexture::new(2, 2, vec![0; 12]).is_some());
}

#[test]
fn image_texture_texel_lookup() {
    let t = small_image();
    assert_eq!((t.width(), t.height()), (3, 2));
    assert_eq!(t.texel(0, 0), [0, 1, 2]);
    assert_eq!(t.texel(2, 0), [6, 7, 8]);
    assert_eq!(t.texel(1, 1), [12, 13, 14]);
}

#[test]
fn image_texture_texel_clamps() {
    let t = small_image();
    assert_eq!(t.texel(3, 0), [6, 7, 8]);
    assert_eq!(t.texel(u32::MAX, u32::MAX), [15, 16, 17]);
    assert_eq!(t.texel(0, 9), [9, 10, 11]);
}

#[test]
fn permutation_is_a_permutation() {
    let mut p: Vec<u8> = PERMUTATION.to_vec();
    p.sort();
    assert_eq!(p, (0..=255u8).collect::<Vec<_>>());
    assert_eq!(PERMUTATION[0], 151);
}

#[test]
fn perlin_corner_hashes() {
    assert_eq!(corner_hashes(0, 0, 0), [36, 103, 108, 110, 86, 164, 128, 195]);
    assert_eq!(corner_hashes(255, 255, 255), [215, 61, 103, 30, 20, 125, 140, 36]);
    assert_eq!(corner_hashes(3, 17, 200), [182, 189, 120, 234, 250, 124, 182, 189]);
    assert_eq!(corner_hashes(259, 17, 712), corner_hashes(3, 17, 200));
}

#[test]
fn perlin_gradients() {
    let g = |u, un, v, vn| Gradient { u, u_negated: un, v, v_negated: vn };
    assert_eq!(gradient(0), g(Axis::X, false, Axis::Y, false));
    assert_eq!(gradient(3), g(Axis::X, true, Axis::Y, true));
    assert_eq!(gradient(5), g(Axis::X, true, Axis::Z, false));
    assert_eq!(gradient(8), g(Axis::Y, false, Axis::Z, false));
    assert_eq!(gradient(12), g(Axis::Y, false, Axis::X, false));
    assert_eq!(gradient(14), g(Axis::Y, false, Axis::X, true));
    assert_eq!(gradient(15), g(Axis::Y, true, Axis::Z, true));
    assert_eq!(gradient(16 + 12), gradient(12));
}
