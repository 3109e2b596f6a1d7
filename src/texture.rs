use crate::util::Axis;
use vstd::prelude::*;

verus! {

/// An 8-bit RGB image used as a texture: `width * height` pixels stored row
/// by row from the top, three bytes each.
pub struct ImageTexture {
    width: u32,
    height: u32,
    pixels: Vec<u8>,
}

/// The three bytes of pixel `(i, j)` of an image `width` pixels wide.
pub open spec fn pixel_at(pixels: Seq<u8>, width: int, i: int, j: int) -> Seq<u8> {
    pixels.subrange(3 * (j * width + i), 3 * (j * width + i) + 3)
}

/// The smaller of `a` and `b`.
pub open spec fn min_u32(a: u32, b: u32) -> u32 {
    if a < b {
        a
    } else {
        b
    }
}

impl ImageTexture {
    pub closed spec fn spec_width(&self) -> u32 {
        self.width
    }

    pub closed spec fn spec_height(&self) -> u32 {
        self.height
    }

    pub closed spec fn spec_pixels(&self) -> Seq<u8> {
        self.pixels@
    }

    #[verifier::type_invariant]
    closed spec fn inv(&self) -> bool {
        &&& self.width > 0
        &&& self.height > 0
        &&& self.pixels@.len() == 3 * self.width * self.height
    }

    /// Wraps `width * height` RGB pixels, stored row by row from the top.
    /// Returns `None` for an empty image or when `pixels` holds another number
    /// of bytes.
    pub fn new(width: u32, height: u32, pixels: Vec<u8>) -> (r: Option<ImageTexture>)
        ensures
            r is Some <==> (width > 0 && height > 0 && pixels@.len() == 3 * width * height),
            r matches Some(t) ==> t.spec_width() == width && t.spec_height() == height
                && t.spec_pixels() == pixels@,
    {
        if width == 0 || height == 0 {
            return None;
        }
        let n = pixels.len() as u128;
        let (w, h) = (width as u128, height as u128);
        assert(w * h <= 0xffff_ffff * 0xffff_ffff) by (nonlinear_arith)
            requires
                w <= 0xffff_ffff,
                h <= 0xffff_ffff,
        ;
        assert(3 * w * h == 3 * (w * h)) by (nonlinear_arith);
        if n != 3 * (w * h) {
            return None;
        }
        Some(ImageTexture { width, height, pixels })
    }

    /// The width in pixels.
    pub fn width(&self) -> (r: u32)
        ensures
            r == self.spec_width(),
    {
        self.width
    }

    /// The height in pixels.
    pub fn height(&self) -> (r: u32)
        ensures
            r == self.spec_height(),
    {
        self.height
    }

    /// The color of pixel `(i, j)`, column `i` and row `j` from the top, with
    /// both clamped into the image.
    pub fn texel(&self, i: u32, j: u32) -> (r: [u8; 3])
        ensures
            self.spec_width() > 0,
            self.spec_height() > 0,
            r@ == pixel_at(
                self.spec_pixels(),
                self.spec_width() as int,
                min_u32(i, (self.spec_width() - 1) as u32) as int,
                min_u32(j, (self.spec_height() - 1) as u32) as int,
            ),
    {
        proof {
            use_type_invariant(self);
        }
        let i = if i < self.width - 1 {
            i
        } else {
            self.width - 1
        };
        let j = if j < self.height - 1 {
            j
        } else {
            self.height - 1
        };
        let len = self.pixels.len();
        let w = self.width as usize;
        let (ii, jj) = (i as usize, j as usize);
        proof {
            lemma_pixel_in_bounds(ii as int, jj as int, w as int, self.height as int);
        }
        let base = 3 * (jj * w + ii);
        let r = [self.pixels[base], self.pixels[base + 1], self.pixels[base + 2]];
        assert(r@ =~= pixel_at(self.pixels@, w as int, ii as int, jj as int));
        r
    }
}

proof fn lemma_pixel_in_bounds(i: int, j: int, w: int, h: int)
    requires
        0 <= i < w,
        0 <= j < h,
    ensures
        3 * (j * w + i) + 3 <= 3 * w * h,
        0 <= j * w + i,
{
    assert(j * w + i < w * h) by (nonlinear_arith)
        requires
            0 <= i < w,
            0 <= j < h,
    ;
    assert(0 <= j * w) by (nonlinear_arith)
        requires
            0 <= j,
            0 <= w,
    ;
    assert(3 * w * h == 3 * (w * h)) by (nonlinear_arith);
}

/// Ken Perlin's permutation of `0..256`, which hashes the lattice points of
/// the noise function.
pub const PERMUTATION: [u8; 256] = [
    151, 160, 137, 91, 90, 15, 131, 13, 201, 95, 96, 53, 194, 233, 7, 225,
    140, 36, 103, 30, 69, 142, 8, 99, 37, 240, 21, 10, 23, 190, 6, 148,
    247, 120, 234, 75, 0, 26, 197, 62, 94, 252, 219, 203, 117, 35, 11, 32,
    57, 177, 33, 88, 237, 149, 56, 87, 174, 20, 125, 136, 171, 168, 68, 175,
    74, 165, 71, 134, 139, 48, 27, 166, 77, 146, 158, 231, 83, 111, 229, 122,
    60, 211, 133, 230, 220, 105, 92, 41, 55, 46, 245, 40, 244, 102, 143, 54,
    65, 25, 63, 161, 1, 216, 80, 73, 209, 76, 132, 187, 208, 89, 18, 169,
    200, 196, 135, 130, 116, 188, 159, 86, 164, 100, 109, 198, 173, 186, 3, 64,
    52, 217, 226, 250, 124, 123, 5, 202, 38, 147, 118, 126, 255, 82, 85, 212,
    207, 206, 59, 227, 47, 16, 58, 17, 182, 189, 28, 42, 223, 183, 170, 213,
    119, 248, 152, 2, 44, 154, 163, 70, 221, 153, 101, 155, 167, 43, 172, 9,
    129, 22, 39, 253, 19, 98, 108, 110, 79, 113, 224, 232, 178, 185, 112, 104,
    218, 246, 97, 228, 251, 34, 242, 193, 238, 210, 144, 12, 191, 179, 162, 241,
    81, 51, 145, 235, 249, 14, 239, 107, 49, 192, 214, 31, 181, 199, 106, 157,
    184, 84, 204, 176, 115, 121, 50, 45, 127, 4, 150, 254, 138, 236, 205, 93,
    222, 114, 67, 29, 24, 72, 243, 141, 128, 195, 78, 66, 215, 61, 156, 180,
];

/// The permutation, repeated with period 256.
pub open spec fn perm(i: int) -> int {
    PERMUTATION@[i % 256] as int
}

fn perm_exec(i: usize) -> (r: usize)
    ensures
        r as int == perm(i as int),
        r < 256,
{
    PERMUTATION[i % 256] as usize
}

/// The hash of the lattice corner `(x0 + dx, y0 + dy, z0 + dz)`.
pub open spec fn corner_hash(x0: int, y0: int, z0: int, dx: int, dy: int, dz: int) -> int {
    perm(perm(perm(x0 + dx) + y0 + dy) + z0 + dz)
}

/// The hashes of the eight corners of the lattice cell whose lowest corner is
/// `(x0, y0, z0)`, each coordinate taken modulo 256. The corner
/// `(x0 + dx, y0 + dy, z0 + dz)` stands at index `4 * dx + 2 * dy + dz`.
pub fn corner_hashes(x0: usize, y0: usize, z0: usize) -> (r: [usize; 8])
    ensures
        forall|dx: int, dy: int, dz: int|
            0 <= dx < 2 && 0 <= dy < 2 && 0 <= dz < 2 ==> #[trigger] r@[4 * dx + 2 * dy + dz] as int
                == corner_hash(x0 as int % 256, y0 as int % 256, z0 as int % 256, dx, dy, dz),
{
    let (x, y, z) = (x0 % 256, y0 % 256, z0 % 256);
    let a = perm_exec(x) + y;
    let b = perm_exec(x + 1) + y;
    let aa = perm_exec(a) + z;
    let ab = perm_exec(a + 1) + z;
    let ba = perm_exec(b) + z;
    let bb = perm_exec(b + 1) + z;
    let r = [
        perm_exec(aa),
        perm_exec(aa + 1),
        perm_exec(ab),
        perm_exec(ab + 1),
        perm_exec(ba),
        perm_exec(ba + 1),
        perm_exec(bb),
        perm_exec(bb + 1),
    ];
    assert forall|dx: int, dy: int, dz: int|
        0 <= dx < 2 && 0 <= dy < 2 && 0 <= dz < 2 implies #[trigger] r@[4 * dx + 2 * dy + dz] as int
            == corner_hash(x as int, y as int, z as int, dx, dy, dz) by {
        assert(perm(x + 0) == perm(x as int));
    }
    r
}

/// The gradient that a lattice hash selects at a corner, as a sum of two
/// signed components of the offset from that corner: `±p[u] ± p[v]`.
#[derive(Debug, Clone, Copy, PartialEq, Eq, Structural)]
pub struct Gradient {
    pub u: Axis,
    pub u_negated: bool,
    pub v: Axis,
    pub v_negated: bool,
}

/// The gradient of hash `hash`, from its low four bits `h`: `u` is x below 8
/// and y from 8; `v` is y below 4, x at 12 and 14, z otherwise; bit 0 negates
/// `u` and bit 1 negates `v`.
pub open spec fn gradient_spec(hash: usize) -> Gradient {
    let h = hash % 16;
    Gradient {
        u: if h < 8 {
            Axis::X
        } else {
            Axis::Y
        },
        u_negated: h % 2 == 1,
        v: if h < 4 {
            Axis::Y
        } else if h == 12 || h == 14 {
            Axis::X
        } else {
            Axis::Z
        },
        v_negated: (h / 2) % 2 == 1,
    }
}

/// The gradient that `hash` selects.
pub fn gradient(hash: usize) -> (r: Gradient)
    ensures
        r == gradient_spec(hash),
{
    let h = hash % 16;
    let u = if h < 8 {
        Axis::X
    } else {
        Axis::Y
    };
    let v = if h < 4 {
        Axis::Y
    } else if h == 12 || h == 14 {
        Axis::X
    } else {
        Axis::Z
    };
    Gradient { u, u_negated: h % 2 == 1, v, v_negated: (h / 2) % 2 == 1 }
}

} // verus!
