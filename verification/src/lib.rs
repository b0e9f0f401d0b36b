//! World partitioning and streaming pipeline.
//!
//! An authored scene is split offline into spatially bounded chunks, one per
//! occupied grid cell, and each chunk is serialized into a self-contained
//! binary artifact.  At run time a chunk manager resolves entity positions to
//! cell coordinates, loads and caches chunk artifacts on demand, and evicts
//! chunks that fall outside every entity's spawn radius.  A collision layer
//! answers proximity and sweep queries against the resident geometry.
//!
//! World-space coordinates are fixed-point integers (whole world units);
//! callers that work in floating point convert at the boundary by flooring.

pub mod assemble;
pub mod codec;
pub mod collision;
pub mod partition;
pub mod geom;
pub mod grid;
pub mod manager;
pub mod props;
pub mod scene;
