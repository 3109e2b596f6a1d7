use vstd::prelude::*;

verus! {

/// An 8-bit RGB pixel.
#[derive(Debug, Clone, Copy, PartialEq, Eq, Structural)]
pub struct Color(pub u8, pub u8, pub u8);

/// The `0x00RRGGBB` word of a pixel, as a number.
pub open spec fn packed_rgb(c: Color) -> int {
    c.0 as int * 65536 + c.1 as int * 256 + c.2 as int
}

impl From<Color> for u32 {
    /// Packs a pixel as `0x00RRGGBB`.
    fn from(color: Color) -> (r: u32)
        ensures
            r as int == packed_rgb(color),
    {
        let (a, b, c) = (color.0 as u32, color.1 as u32, color.2 as u32);
        let r = a << 16u32 | b << 8u32 | c;
        assert(r == a * 65536 + b * 256 + c) by (bit_vector)
            requires
                a < 256,
                b < 256,
                c < 256,
                r == a << 16u32 | b << 8u32 | c,
        ;
        r
    }
}

impl vstd::std_specs::convert::FromSpecImpl<Color> for u32 {
    open spec fn obeys_from_spec() -> bool {
        true
    }

    open spec fn from_spec(color: Color) -> u32 {
        packed_rgb(color) as u32
    }
}

/// A pixel position on screen: column, then row counted upward.
#[derive(Debug, Clone, Copy, PartialEq, Eq, Structural)]
pub struct Coord(pub usize, pub usize);

impl Coord {
    /// The screen position of the pixel stored at `idx`. Rows are stored top
    /// down while `y` counts upward, so index 0 is at `(0, height)`.
    pub fn from_index(idx: usize, width: usize, height: usize) -> (r: Coord)
        requires
            width > 0,
            idx / width <= height,
        ensures
            r.0 == idx % width,
            r.1 == height - idx / width,
    {
        Coord(idx % width, height - (idx / width))
    }
}

/// The pixels at two distinct indices of a buffer `width` pixels wide stand
/// at distinct screen positions under `Coord::from_index`.
pub proof fn lemma_from_index_injective(i: usize, j: usize, width: usize, height: usize)
    requires
        width > 0,
        i != j,
    ensures
        i % width != j % width || height - i / width != height - j / width,
{
    vstd::arithmetic::div_mod::lemma_fundamental_div_mod(i as int, width as int);
    vstd::arithmetic::div_mod::lemma_fundamental_div_mod(j as int, width as int);
}

/// A coordinate axis.
#[derive(Debug, Copy, Clone, PartialEq, Eq, Structural)]
pub enum Axis {
    X,
    Y,
    Z,
}

impl Axis {
    /// The position of the axis in a vector: 0, 1 or 2.
    pub open spec fn spec_index(self) -> int {
        match self {
            Axis::X => 0,
            Axis::Y => 1,
            Axis::Z => 2,
        }
    }

    /// The component that this axis selects from a vector.
    pub fn index(self) -> (r: usize)
        ensures
            r as int == self.spec_index(),
    {
        match self {
            Axis::X => 0,
            Axis::Y => 1,
            Axis::Z => 2,
        }
    }

    /// The third axis, given two distinct ones.
    pub fn other(a: Axis, b: Axis) -> (r: Axis)
        requires
            a != b,
        ensures
            r != a,
            r != b,
            r.spec_index() == 3 - a.spec_index() - b.spec_index(),
    {
        match (a, b) {
            (Axis::X, Axis::Y) | (Axis::Y, Axis::X) => Axis::Z,
            (Axis::Y, Axis::Z) | (Axis::Z, Axis::Y) => Axis::X,
            _ => Axis::Y,
        }
    }
}

} // verus!
