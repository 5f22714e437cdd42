//! Tile pyramid arithmetic, cache key namespace, invalidation planning and
//! vector tile assembly for the map layers of a rail infrastructure.

pub mod cache_keys;
pub mod client;
pub mod document;
pub mod invalidation;
pub mod layers_description;
pub mod layers_error;
pub mod map_layers;
pub mod operation;
pub mod redis_config;
pub mod sql_query;
pub mod tile_request;
pub mod tiles;
pub mod track_section;
pub mod vector_tile;
