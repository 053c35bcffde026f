//! Decision logic of a Monte-Carlo path tracer over spheres: the layout of the
//! random scene, the depth-limited control of a light path, the choice of the
//! closest hit, and the order in which pixels are visited.
pub mod layout;
pub mod path;
pub mod raster;
pub mod scene;
