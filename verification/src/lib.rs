//! A voxel world: dense chunks of blocks, the mesher that finds the faces
//! that can be seen, the builder of indexed meshes, and the registry that
//! says which chunks are loaded and what is to be drawn.
//!
//! - [`chunk`]: blocks, faces, positions and the chunk grid.
//! - [`mesh`]: vertices, meshes and the mesh builder.
//! - [`voxel_mesh`]: the visible faces of a chunk and their mesh.
//! - [`face_bound`]: a chunk of sixteen blocks a side always fits one mesh.
//! - [`world`]: the chunks of the world, group by group.
//! - [`renderer`]: the registry of chunk renderers.
//! - [`controls`]: which way the keys say to move.
//! - [`search`]: facts about sequences that the proofs share.
//!
//! Everything here is plain data and arithmetic. Coordinates and colour
//! channels of mesh vertices are fixed-point integers (see [`mesh::UNIT`]), so
//! that the geometry can be stated and proved exactly; turning them into the
//! floating-point layout that a graphics device expects is left to the caller.

pub mod chunk;
pub mod controls;
pub mod face_bound;
pub mod mesh;
pub mod renderer;
pub mod search;
pub mod voxel_mesh;
pub mod world;
