//! Verified core of the torus grid cutter: the half-edge mesh and the
//! topological steps of cutting, region labelling, statistics and export.
pub mod color_scheme;
pub mod export;
pub mod geom;
pub mod mesh;
pub mod pipeline;
pub mod ui;
