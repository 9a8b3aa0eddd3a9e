//! Encoder-side building blocks of MapLibre Tiles (MLT): columnar geometry
//! collections built from row geometries, their length streams, staged
//! layers with property columns, the flat coordinate/meta input format, the
//! feature count of undecoded geometry columns, and the handle surface
//! foreign callers use.

pub mod builder;
pub mod capacity;
pub mod column;
pub mod dense;
pub mod ffi;
pub mod geom;
pub mod laws;
pub mod geometry_type;
pub mod meta;
pub mod model;
pub mod plan;
pub mod raw;
pub mod staged;
pub mod staging;
pub mod streams;
pub mod tessellation;
pub mod text;
pub mod tile;
pub mod values;
