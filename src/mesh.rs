use crate::math::{add_vec3, vec2_unit_x, vec2_unit_y, vec2_zero, vec3_sum};
use std::sync::Arc;
use ultraviolet::{Vec2, Vec3};
use vstd::prelude::*;

verus! {

/// Why a set of mesh arrays does not describe a triangle mesh.
#[derive(Debug, Clone, Copy, PartialEq, Eq, Structural)]
pub enum MeshError {
    /// Normals were given, but not one per vertex.
    NormalsLength,
    /// UV coordinates were given, but not one pair per vertex.
    UvsLength,
    /// The index list does not come in triples.
    IndicesLength,
    /// An index names no vertex.
    IndexOutOfRange,
}

/// A triangle mesh: vertices, optional per-vertex normals and UV coordinates,
/// and an index list in which each triple of entries forms a triangle.
pub struct TriangleMesh {
    indicies: Vec<usize>,
    verts: Vec<Vec3>,
    normals: Option<Vec<Vec3>>,
    uvs: Option<Vec<Vec2>>,
    material: usize,
}

/// The view of an optional per-vertex array.
pub open spec fn opt_view<T>(a: Option<Vec<T>>) -> Option<Seq<T>> {
    match a {
        Some(v) => Some(v@),
        None => None,
    }
}

/// An optional per-vertex array is absent or has one entry per vertex.
pub open spec fn per_vertex<T>(a: Option<Seq<T>>, num_verts: nat) -> bool {
    a matches Some(s) ==> s.len() == num_verts
}

/// Every index names a vertex.
pub open spec fn indices_in_range(indices: Seq<usize>, num_verts: nat) -> bool {
    forall|i: int| 0 <= i < indices.len() ==> (#[trigger] indices[i] as int) < num_verts
}

/// The arrays describe a triangle mesh.
pub open spec fn valid_mesh(
    indices: Seq<usize>,
    num_verts: nat,
    normals: Option<Seq<Vec3>>,
    uvs: Option<Seq<Vec2>>,
) -> bool {
    &&& per_vertex(normals, num_verts)
    &&& per_vertex(uvs, num_verts)
    &&& indices.len() % 3 == 0
    &&& indices_in_range(indices, num_verts)
}

/// The three entries of `s` that the corners of triangle `t` index.
pub open spec fn corners<T>(s: Seq<T>, indices: Seq<usize>, t: int) -> Seq<T> {
    seq![s[indices[3 * t] as int], s[indices[3 * t + 1] as int], s[indices[3 * t + 2] as int]]
}

proof fn lemma_corners_in_bounds(t: int, len: int)
    requires
        0 <= t < len / 3,
        len >= 0,
    ensures
        3 * t + 2 < len,
{
}

impl TriangleMesh {
    pub closed spec fn indices(&self) -> Seq<usize> {
        self.indicies@
    }

    pub closed spec fn vertices(&self) -> Seq<Vec3> {
        self.verts@
    }

    pub closed spec fn vertex_normals(&self) -> Option<Seq<Vec3>> {
        opt_view(self.normals)
    }

    pub closed spec fn vertex_uvs(&self) -> Option<Seq<Vec2>> {
        opt_view(self.uvs)
    }

    pub closed spec fn material_index(&self) -> usize {
        self.material
    }

    /// The number of triangles.
    pub open spec fn triangle_count(&self) -> nat {
        self.indices().len() / 3
    }

    #[verifier::type_invariant]
    closed spec fn inv(&self) -> bool {
        valid_mesh(self.indicies@, self.verts@.len(), opt_view(self.normals), opt_view(self.uvs))
    }

    /// Creates a mesh from its arrays, or says which of them is inconsistent,
    /// checking the normals, then the UVs, then the index list.
    pub fn new(
        verts: Vec<Vec3>,
        indicies: Vec<usize>,
        normals: Option<Vec<Vec3>>,
        uvs: Option<Vec<Vec2>>,
        material: usize,
    ) -> (r: Result<TriangleMesh, MeshError>)
        ensures
            r is Ok <==> valid_mesh(indicies@, verts@.len(), opt_view(normals), opt_view(uvs)),
            r matches Ok(m) ==> {
                &&& m.indices() == indicies@
                &&& m.vertices() == verts@
                &&& m.vertex_normals() == opt_view(normals)
                &&& m.vertex_uvs() == opt_view(uvs)
                &&& m.material_index() == material
            },
            (r matches Err(MeshError::NormalsLength)) <==> !per_vertex(
                opt_view(normals),
                verts@.len(),
            ),
            (r matches Err(MeshError::UvsLength)) <==> per_vertex(
                opt_view(normals),
                verts@.len(),
            ) && !per_vertex(opt_view(uvs), verts@.len()),
            (r matches Err(MeshError::IndicesLength)) <==> per_vertex(
                opt_view(normals),
                verts@.len(),
            ) && per_vertex(opt_view(uvs), verts@.len()) && indicies@.len() % 3 != 0,
    {
        let num_verts = verts.len();
        let normals_ok = match &normals {
            Some(n) => n.len() == num_verts,
            None => true,
        };
        if !normals_ok {
            return Err(MeshError::NormalsLength);
        }
        let uvs_ok = match &uvs {
            Some(u) => u.len() == num_verts,
            None => true,
        };
        if !uvs_ok {
            return Err(MeshError::UvsLength);
        }
        assert(per_vertex(opt_view(normals), verts@.len()));
        assert(per_vertex(opt_view(uvs), verts@.len()));
        if indicies.len() % 3 != 0 {
            return Err(MeshError::IndicesLength);
        }
        let mut i: usize = 0;
        while i < indicies.len()
            invariant
                i <= indicies.len(),
                num_verts == verts.len(),
                per_vertex(opt_view(normals), verts@.len()),
                per_vertex(opt_view(uvs), verts@.len()),
                indicies@.len() % 3 == 0,
                indices_in_range(indicies@.subrange(0, i as int), num_verts as nat),
            decreases indicies.len() - i,
        {
            if indicies[i] >= num_verts {
                assert(!indices_in_range(indicies@, num_verts as nat)) by {
                    assert(indicies@[i as int] >= num_verts);
                }
                return Err(MeshError::IndexOutOfRange);
            }
            assert(indicies@.subrange(0, i + 1) =~= indicies@.subrange(0, i as int).push(
                indicies@[i as int],
            ));
            i = i + 1;
        }
        assert(indicies@.subrange(0, i as int) =~= indicies@);
        Ok(TriangleMesh { indicies, verts, normals, uvs, material })
    }

    /// Translates every vertex by `pos`.
    pub fn translate(self, pos: Vec3) -> (r: Self)
        ensures
            r.vertices().len() == self.vertices().len(),
            forall|i: int|
                0 <= i < self.vertices().len() ==> r.vertices()[i] == vec3_sum(
                    #[trigger] self.vertices()[i],
                    pos,
                ),
            r.indices() == self.indices(),
            r.vertex_normals() == self.vertex_normals(),
            r.vertex_uvs() == self.vertex_uvs(),
            r.material_index() == self.material_index(),
    {
        proof {
            use_type_invariant(&self);
        }
        let TriangleMesh { indicies, verts, normals, uvs, material } = self;
        let mut moved: Vec<Vec3> = Vec::new();
        let mut i: usize = 0;
        while i < verts.len()
            invariant
                i <= verts.len(),
                moved@.len() == i,
                forall|j: int| 0 <= j < i ==> moved@[j] == vec3_sum(#[trigger] verts@[j], pos),
            decreases verts.len() - i,
        {
            moved.push(add_vec3(verts[i], pos));
            i = i + 1;
        }
        TriangleMesh { indicies, verts: moved, normals, uvs, material }
    }

    /// The vertices of triangle `idx`.
    pub fn get_triangle_verts(&self, idx: usize) -> (r: [Vec3; 3])
        requires
            idx < self.triangle_count(),
        ensures
            r@ == corners(self.vertices(), self.indices(), idx as int),
    {
        proof {
            use_type_invariant(self);
        }
        let n = self.indicies.len();
        proof {
            lemma_corners_in_bounds(idx as int, n as int);
        }
        let base_idx = 3 * idx;
        [
            self.verts[self.indicies[base_idx]],
            self.verts[self.indicies[base_idx + 1]],
            self.verts[self.indicies[base_idx + 2]],
        ]
    }

    /// The normals at the vertices of triangle `idx`, if the mesh has normals.
    pub fn get_triangle_normals(&self, idx: usize) -> (r: Option<[Vec3; 3]>)
        requires
            idx < self.triangle_count(),
        ensures
            r is Some <==> self.vertex_normals() is Some,
            r matches Some(n) ==> n@ == corners(
                self.vertex_normals().unwrap(),
                self.indices(),
                idx as int,
            ),
    {
        proof {
            use_type_invariant(self);
        }
        if let Some(normals) = &self.normals {
            let n = self.indicies.len();
            proof {
                lemma_corners_in_bounds(idx as int, n as int);
            }
            let base_idx = 3 * idx;
            Some(
                [
                    normals[self.indicies[base_idx]],
                    normals[self.indicies[base_idx + 1]],
                    normals[self.indicies[base_idx + 2]],
                ],
            )
        } else {
            None
        }
    }

    /// The UV coordinates at the vertices of triangle `idx`; without UVs in
    /// the mesh, `(0, 0)`, `(1, 0)` and `(0, 1)`.
    pub fn get_triangle_uvs(&self, idx: usize) -> (r: [Vec2; 3])
        requires
            idx < self.triangle_count(),
        ensures
            self.vertex_uvs() matches Some(uvs) ==> r@ == corners(uvs, self.indices(), idx as int),
    {
        proof {
            use_type_invariant(self);
        }
        if let Some(uv) = &self.uvs {
            let n = self.indicies.len();
            proof {
                lemma_corners_in_bounds(idx as int, n as int);
            }
            let base_idx = 3 * idx;
            [
                uv[self.indicies[base_idx]],
                uv[self.indicies[base_idx + 1]],
                uv[self.indicies[base_idx + 2]],
            ]
        } else {
            [vec2_zero(), vec2_unit_x(), vec2_unit_y()]
        }
    }

    pub fn num_verts(&self) -> (r: usize)
        ensures
            r == self.vertices().len(),
    {
        self.verts.len()
    }

    pub fn num_tris(&self) -> (r: usize)
        ensures
            r == self.triangle_count(),
    {
        self.indicies.len() / 3
    }

    pub fn material(&self) -> (r: usize)
        ensures
            r == self.material_index(),
    {
        self.material
    }
}

/// One triangle of a shared mesh.
pub struct Triangle {
    mesh: Arc<TriangleMesh>,
    index: usize,
}

impl Triangle {
    pub closed spec fn spec_mesh(&self) -> TriangleMesh {
        *self.mesh
    }

    pub closed spec fn spec_index(&self) -> usize {
        self.index
    }

    #[verifier::type_invariant]
    closed spec fn inv(&self) -> bool {
        self.index < (*self.mesh).triangle_count()
    }

    /// Triangle `index` of `mesh`.
    pub fn new(mesh: Arc<TriangleMesh>, index: usize) -> (r: Triangle)
        requires
            index < mesh.triangle_count(),
        ensures
            r.spec_mesh() == *mesh,
            r.spec_index() == index,
    {
        Triangle { mesh, index }
    }

    /// Which triangle of its mesh this is.
    pub fn index(&self) -> (r: usize)
        ensures
            r == self.spec_index(),
            r < self.spec_mesh().triangle_count(),
    {
        proof {
            use_type_invariant(self);
        }
        self.index
    }

    /// The three vertices.
    pub fn verts(&self) -> (r: [Vec3; 3])
        ensures
            r@ == corners(self.spec_mesh().vertices(), self.spec_mesh().indices(), self.spec_index() as int),
    {
        proof {
            use_type_invariant(self);
        }
        self.mesh.get_triangle_verts(self.index)
    }

    /// The normals at the three vertices, if the mesh has normals.
    pub fn normals(&self) -> (r: Option<[Vec3; 3]>)
        ensures
            r is Some <==> self.spec_mesh().vertex_normals() is Some,
            r matches Some(n) ==> n@ == corners(
                self.spec_mesh().vertex_normals().unwrap(),
                self.spec_mesh().indices(),
                self.spec_index() as int,
            ),
    {
        proof {
            use_type_invariant(self);
        }
        self.mesh.get_triangle_normals(self.index)
    }

    /// The UV coordinates at the three vertices.
    pub fn uvs(&self) -> (r: [Vec2; 3])
        ensures
            self.spec_mesh().vertex_uvs() matches Some(uvs) ==> r@ == corners(
                uvs,
                self.spec_mesh().indices(),
                self.spec_index() as int,
            ),
    {
        proof {
            use_type_invariant(self);
        }
        self.mesh.get_triangle_uvs(self.index)
    }

    /// The material of the mesh.
    pub fn material(&self) -> (r: usize)
        ensures
            r == self.spec_mesh().material_index(),
    {
        self.mesh.material()
    }
}

} // verus!
