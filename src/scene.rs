use crate::mesh::TriangleMesh;
use vstd::prelude::*;

verus! {

/// Used to index materials in a `Scene`.
pub type MaterialIdx = usize;

/// Used to index render objects in a `Scene`.
pub type RenderObjectIdx = usize;

/// A scene: render objects `O`, materials `M`, triangle meshes and an
/// environment `E`. The pools only grow, so an index handed out by an `add_`
/// method names the same entry for the scene's whole life.
pub struct Scene<O, M, E> {
    render_objects: Vec<O>,
    materials: Vec<M>,
    meshes: Vec<TriangleMesh>,
    environment: E,
}

impl<O, M, E> Scene<O, M, E> {
    pub closed spec fn objects(&self) -> Seq<O> {
        self.render_objects@
    }

    pub closed spec fn material_pool(&self) -> Seq<M> {
        self.materials@
    }

    pub closed spec fn mesh_pool(&self) -> Seq<TriangleMesh> {
        self.meshes@
    }

    pub closed spec fn environment_spec(&self) -> E {
        self.environment
    }

    /// Creates an empty scene with the given environment.
    pub fn with_environment(environment: E) -> (r: Self)
        ensures
            r.objects().len() == 0,
            r.material_pool().len() == 0,
            r.mesh_pool().len() == 0,
            r.environment_spec() == environment,
    {
        Scene { render_objects: Vec::new(), materials: Vec::new(), meshes: Vec::new(), environment }
    }

    /// Adds a render object and returns its index.
    pub fn add_object(&mut self, obj: O) -> (r: RenderObjectIdx)
        requires
            old(self).objects().len() < usize::MAX,
        ensures
            r == old(self).objects().len(),
            final(self).objects() == old(self).objects().push(obj),
            final(self).material_pool() == old(self).material_pool(),
            final(self).mesh_pool() == old(self).mesh_pool(),
            final(self).environment_spec() == old(self).environment_spec(),
    {
        self.render_objects.push(obj);
        self.render_objects.len() - 1
    }

    /// Adds a triangle mesh.
    pub fn add_mesh(&mut self, mesh: TriangleMesh)
        ensures
            final(self).mesh_pool() == old(self).mesh_pool().push(mesh),
            final(self).objects() == old(self).objects(),
            final(self).material_pool() == old(self).material_pool(),
            final(self).environment_spec() == old(self).environment_spec(),
    {
        self.meshes.push(mesh);
    }

    /// The render object at `idx`.
    pub fn get_object(&self, idx: RenderObjectIdx) -> (r: &O)
        requires
            idx < self.objects().len(),
        ensures
            *r == self.objects()[idx as int],
    {
        &self.render_objects[idx]
    }

    /// Adds a material and returns its index.
    pub fn add_material(&mut self, mat: M) -> (r: MaterialIdx)
        requires
            old(self).material_pool().len() < usize::MAX,
        ensures
            r == old(self).material_pool().len(),
            final(self).material_pool() == old(self).material_pool().push(mat),
            final(self).objects() == old(self).objects(),
            final(self).mesh_pool() == old(self).mesh_pool(),
            final(self).environment_spec() == old(self).environment_spec(),
    {
        self.materials.push(mat);
        self.materials.len() - 1
    }

    /// The material at `idx`.
    pub fn get_material(&self, idx: MaterialIdx) -> (r: &M)
        requires
            idx < self.material_pool().len(),
        ensures
            *r == self.material_pool()[idx as int],
    {
        &self.materials[idx]
    }

    /// Replaces the environment.
    pub fn set_environment(&mut self, env: E)
        ensures
            final(self).environment_spec() == env,
            final(self).objects() == old(self).objects(),
            final(self).material_pool() == old(self).material_pool(),
            final(self).mesh_pool() == old(self).mesh_pool(),
    {
        self.environment = env;
    }

    /// The environment.
    pub fn environment(&self) -> (r: &E)
        ensures
            *r == self.environment_spec(),
    {
        &self.environment
    }

    /// The number of render objects.
    pub fn num_objects(&self) -> (r: usize)
        ensures
            r == self.objects().len(),
    {
        self.render_objects.len()
    }

    /// The number of materials.
    pub fn num_materials(&self) -> (r: usize)
        ensures
            r == self.material_pool().len(),
    {
        self.materials.len()
    }

    /// Takes the scene apart into its objects, materials, meshes and
    /// environment.
    pub fn into_parts(self) -> (r: (Vec<O>, Vec<M>, Vec<TriangleMesh>, E))
        ensures
            r.0@ == self.objects(),
            r.1@ == self.material_pool(),
            r.2@ == self.mesh_pool(),
            r.3 == self.environment_spec(),
    {
        (self.render_objects, self.materials, self.meshes, self.environment)
    }
}

impl<O, M, E: Default> Scene<O, M, E> {
    /// Creates an empty scene with the default environment.
    pub fn new() -> (r: Self)
        ensures
            r.objects().len() == 0,
            r.material_pool().len() == 0,
            r.mesh_pool().len() == 0,
    {
        Scene::with_environment(E::default())
    }
}

} // verus!
