//! A path tracer's integer and structural core: pixel packing and screen
//! coordinates, coordinate axes, the bounding volume hierarchy (its
//! construction and the order in which a ray probes it), triangle mesh
//! topology, the cuboid's face layout, the scene's append-only pools, image
//! texel lookup and the Perlin lattice hash. Float geometry is supplied by the
//! caller: as opaque `ultraviolet` vectors, as bounding volumes, or as
//! closures that test a ray.

pub mod bvh;
pub mod math;
pub mod mesh;
pub mod objects;
pub mod render;
pub mod scene;
pub mod texture;
pub mod util;
