use firework::mesh::TriangleMesh;
use firework::scene::Scene;

#[derive(Debug, Default, PartialEq)]
struct Env(u8);

#[test]
fn scene_handles_stay_valid() {
    let mut scene: Scene<&str, String, Env> = Scene::new();
    assert_eq!(scene.num_objects(), 0);
    assert_eq!(*scene.environment(), Env(0));
    let red = scene.add_material("red".to_string());
    let green = scene.add_material("green".to_string());
    assert_eq!((red, green), (0, 1));
    let ball = scene.add_object("ball");
    let mesh = TriangleMesh::new(Vec::new(), Vec::new(), None, None, red).unwrap();
    scene.add_mesh(mesh);
    let floor = scene.add_object("floor");
    assert_eq!((ball, floor), (0, 1));
    scene.add_material("blue".to_string());
    assert_eq!(scene.get_material(red), "red");
    assert_eq!(scene.get_material(green), "green");
    assert_eq!(*scene.get_object(ball), "ball");
    assert_eq!(*scene.get_object(floor), "floor");
    assert_eq!(scene.num_materials(), 3);
    scene.set_environment(Env(7));
    assert_eq!(*scene.environment(), Env(7));
    let (objects, materials, meshes, env) = scene.into_parts();
    assert_eq!(objects, vec!["ball", "floor"]);
    assert_eq!(materials.len(), 3);
    assert_eq!(meshes.len(), 1);
    assert_eq!(env, Env(7));
}
