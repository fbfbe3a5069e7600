//! Tile-based map engine: coordinate types, tilesets, tilemaps with a
//! scrollable viewport, per-cell flags, map exits, and a textual map
//! descriptor format, together with small input-state and preference
//! helpers.

pub mod codec;
pub mod controller;
pub mod error;
pub mod file;
pub mod ici;
pub mod prefs;
pub mod tilemap;
pub mod tileset;
pub mod units;
