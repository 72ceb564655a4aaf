//! Windowed caching of globally tiled elevation rasters, with the pixel
//! containers, tile names and water-body labelling around it.
//!
//! The centre of the library is `dem_buffer::DemBuffer`: a fixed-size grid
//! of cells that follows a moving view over the globe. Every cell holds the
//! packed global cell coordinates it stands for, so that the laws of the
//! buffer (every cell set, neighbours adjacent on the globe, the centre cell
//! at the recorded centre, repeated updates doing nothing) are stated and
//! proved over the cells themselves.
pub mod arith;
pub mod cell_key;
pub mod dem_buffer;
pub mod dem_tile;
pub mod dem_tile_id;
pub mod errors;
pub mod grayscale8_bitmap;
pub mod grayscale_bitmap;
pub mod hillshading;
pub mod mono_bitmap;
pub mod raster16;
pub mod testing;
pub mod text;
pub mod types;
pub mod water_bodies;
pub mod worldcover;
