//! Border tracing on label grids and polyline simplification, with the
//! behaviour of every function stated as a contract and proved.

pub mod binary_image;
pub mod contour;
pub mod curve;
pub mod grid;
pub mod kernel;
pub mod length;
pub mod neighbors;
pub mod order;
pub mod simplify;
pub mod tracer;
pub mod tracer_laws;
pub mod window_info;
