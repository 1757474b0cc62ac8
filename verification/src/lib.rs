pub mod model;
pub mod linear;
pub mod primitives;
pub mod partial_hasher;
