use firework::mesh::{MeshError, Triangle, TriangleMesh};
use ultraviolet::{Vec2, Vec3};

fn quad_verts() -> Vec<Vec3> {
    vec![
        Vec3::new(0., 0., 0.),
        Vec3::new(1., 0., 0.),
        Vec3::new(1., 1., 0.),
        Vec3::new(0., 1., 0.),
    ]
}

#[test]
fn mesh_accepts_consistent_arrays() {
    let m = TriangleMesh::new(quad_verts(), vec![0, 1, 2, 0, 2, 3], None, None, 4).unwrap();
    assert_eq!(m.num_tris(), 2);
    assert_eq!(m.num_verts(), 4);
    assert_eq!(m.material(), 4);
    let [a, b, c] = m.get_triangle_verts(1);
    assert_eq!((a, b, c), (Vec3::new(0., 0., 0.), Vec3::new(1., 1., 0.), Vec3::new(0., 1., 0.)));
    assert!(m.get_triangle_normals(0).is_none());
    assert_eq!(m.get_triangle_uvs(0), [Vec2::zero(), Vec2::unit_x(), Vec2::unit_y()]);
}

#[test]
fn mesh_reports_each_inconsistency() {
    let bad_normals = Some(vec![Vec3::unit_y(); 3]);
    let bad_uvs = Some(vec![Vec2::zero(); 5]);
    assert_eq!(
        TriangleMesh::new(quad_verts(), vec![0, 1, 2], bad_normals.clone(), bad_uvs.clone(), 0).err(),
        Some(MeshError::NormalsLength)
    );
    assert_eq!(
        TriangleMesh::new(quad_verts(), vec![0, 1, 2], None, bad_uvs, 0).err(),
        Some(MeshError::UvsLength)
    );
    assert_eq!(
        TriangleMesh::new(quad_verts(), vec![0, 1, 2, 3], None, None, 0).err(),
        Some(MeshError::IndicesLength)
    );
    assert_eq!(
        TriangleMesh::new(quad_verts(), vec![0, 1, 4], None, None, 0).err(),
        Some(MeshError::IndexOutOfRange)
    );
}

#[test]
fn mesh_per_vertex_attributes() {
    let normals: Vec<Vec3> = (0..4).map(|i| Vec3::new(i as f32, 0., 1.)).collect();
    let uvs: Vec<Vec2> = (0..4).map(|i| Vec2::new(0.25 * i as f32, 0.5)).collect();
    let m = TriangleMesh::new(quad_verts(), vec![3, 2, 1], Some(normals.clone()), Some(uvs.clone()), 0)
        .unwrap();
    assert_eq!(m.get_triangle_normals(0), Some([normals[3], normals[2], normals[1]]));
    assert_eq!(m.get_triangle_uvs(0), [uvs[3], uvs[2], uvs[1]]);
}

#[test]
fn mesh_translate_moves_every_vertex() {
    let m = TriangleMesh::new(quad_verts(), vec![0, 1, 2], None, None, 0).unwrap();
    let m = m.translate(Vec3::new(1., 2., 3.));
    assert_eq!(
        m.get_triangle_verts(0),
        [Vec3::new(1., 2., 3.), Vec3::new(2., 2., 3.), Vec3::new(2., 3., 3.)]
    );
    assert_eq!(m.num_verts(), 4);
}

#[test]
fn mesh_empty_is_valid() {
    let m = TriangleMesh::new(Vec::new(), Vec::new(), None, None, 0).unwrap();
    assert_eq!(m.num_tris(), 0);
}

#[test]
fn triangle_reads_its_corners() {
    let normals: Vec<Vec3> = (0..4).map(|i| Vec3::new(0., i as f32, 1.)).collect();
    let mesh = TriangleMesh::new(quad_verts(), vec![0, 1, 2, 0, 2, 3], Some(normals.clone()), None, 7)
        .unwrap();
    let mesh = std::sync::Arc::new(mesh);
    let t = Triangle::new(mesh.clone(), 1);
    assert_eq!(t.index(), 1);
    assert_eq!(t.material(), 7);
    assert_eq!(t.verts(), mesh.get_triangle_verts(1));
    assert_eq!(t.verts()[2], Vec3::new(0., 1., 0.));
    assert_eq!(t.normals(), Some([normals[0], normals[2], normals[3]]));
    assert_eq!(t.uvs(), [Vec2::zero(), Vec2::unit_x(), Vec2::unit_y()]);
}
