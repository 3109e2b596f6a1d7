use crate::util::Axis;
use vstd::prelude::*;

verus! {

/// One face of an axis-aligned cuboid: a rectangle spanning axes `a1` and
/// `a2`, lying in the plane of the cuboid's low or high corner on the third
/// axis, with its normal flipped from `+third axis` when `flip_normal` holds.
#[derive(Debug, Clone, Copy, PartialEq, Eq, Structural)]
pub struct CuboidFace {
    pub a1: Axis,
    pub a2: Axis,
    pub at_max: bool,
    pub flip_normal: bool,
}

/// The axis that a face's normal lies on.
pub open spec fn normal_axis(f: CuboidFace) -> int {
    3 - f.a1.spec_index() - f.a2.spec_index()
}

/// A face spans two distinct axes in increasing order, and its normal points
/// out of the cuboid: along `+axis` on the high side, `-axis` on the low side.
pub open spec fn outward_face(f: CuboidFace) -> bool {
    &&& f.a1.spec_index() < f.a2.spec_index()
    &&& f.flip_normal == !f.at_max
}

/// Some face of `faces` lies on the `side` of axis `k`.
pub open spec fn has_face(faces: Seq<CuboidFace>, k: int, side: bool) -> bool {
    exists|i: int| 0 <= i < faces.len() && normal_axis(#[trigger] faces[i]) == k && faces[i].at_max == side
}

/// The six faces of an axis-aligned cuboid, in the order XY high, XY low,
/// XZ high, XZ low, YZ high, YZ low. Each normal points outward, and each
/// side of each axis has exactly one face.
pub fn rect3d_faces() -> (r: [CuboidFace; 6])
    ensures
        r@ == seq![
            CuboidFace { a1: Axis::X, a2: Axis::Y, at_max: true, flip_normal: false },
            CuboidFace { a1: Axis::X, a2: Axis::Y, at_max: false, flip_normal: true },
            CuboidFace { a1: Axis::X, a2: Axis::Z, at_max: true, flip_normal: false },
            CuboidFace { a1: Axis::X, a2: Axis::Z, at_max: false, flip_normal: true },
            CuboidFace { a1: Axis::Y, a2: Axis::Z, at_max: true, flip_normal: false },
            CuboidFace { a1: Axis::Y, a2: Axis::Z, at_max: false, flip_normal: true },
        ],
        forall|i: int| 0 <= i < 6 ==> outward_face(#[trigger] r@[i]),
        forall|k: int, side: bool| 0 <= k < 3 ==> #[trigger] has_face(r@, k, side),
        forall|i: int, j: int|
            0 <= i < j < 6 ==> !(normal_axis(#[trigger] r@[i]) == normal_axis(#[trigger] r@[j])
                && r@[i].at_max == r@[j].at_max),
{
    let face = |a1: Axis, a2: Axis, at_max: bool| -> (f: CuboidFace)
        ensures
            f == (CuboidFace { a1, a2, at_max, flip_normal: !at_max }),
        { CuboidFace { a1, a2, at_max, flip_normal: !at_max } };
    let r = [
        face(Axis::X, Axis::Y, true),
        face(Axis::X, Axis::Y, false),
        face(Axis::X, Axis::Z, true),
        face(Axis::X, Axis::Z, false),
        face(Axis::Y, Axis::Z, true),
        face(Axis::Y, Axis::Z, false),
    ];
    assert forall|k: int, side: bool| 0 <= k < 3 implies #[trigger] has_face(r@, k, side) by {
        let i = (2 - k) * 2 + if side {
            0int
        } else {
            1int
        };
        assert(normal_axis(r@[i]) == k && r@[i].at_max == side);
    }
    assert(r@ =~= seq![
        CuboidFace { a1: Axis::X, a2: Axis::Y, at_max: true, flip_normal: false },
        CuboidFace { a1: Axis::X, a2: Axis::Y, at_max: false, flip_normal: true },
        CuboidFace { a1: Axis::X, a2: Axis::Z, at_max: true, flip_normal: false },
        CuboidFace { a1: Axis::X, a2: Axis::Z, at_max: false, flip_normal: true },
        CuboidFace { a1: Axis::Y, a2: Axis::Z, at_max: true, flip_normal: false },
        CuboidFace { a1: Axis::Y, a2: Axis::Z, at_max: false, flip_normal: true },
    ]);
    r
}

} // verus!
