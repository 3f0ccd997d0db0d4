//! A tile-streaming cache for planet-scale raster data.
//!
//! The crate tracks, per observer, which quadtree tiles of a planetary
//! dataset are demanded at each moment (the tile tree), assigns demanded
//! tiles to a bounded pool of atlas slots with reference counting and
//! lazy eviction (the tile atlas), and schedules the loading of tile
//! data under a concurrency budget (the tile loader).

pub mod atlas;
pub mod attachment;
pub mod config;
pub mod coord;
pub mod frame;
pub mod grid;
pub mod laws;
pub mod loader;
pub mod tree;
