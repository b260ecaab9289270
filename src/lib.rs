//! The per-frame logic of a small 3D scene: a poller that waits for environment
//! textures to finish loading and turns each into a cube map once, and the yaw
//! accounting of the entities that spin in place or orbit the origin.

pub mod texture;
pub mod pending;
pub mod animate;
