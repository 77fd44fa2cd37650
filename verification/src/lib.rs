//! Core of a photo-culling tool: classifies scanned camera files,
//! pairs raster previews with their raw-sensor siblings into logical
//! photos, clusters those into time-based burst stacks, persists the
//! result idempotently into a relational model, and plans small cached
//! preview images with a fast-path/fallback decode strategy.

pub mod datetime;
pub mod exif;
pub mod model;
pub mod pairs;
pub mod paths;
pub mod pipeline;
pub mod scanner;
pub mod slug;
pub mod stacks;
pub mod store;
pub mod text;
pub mod thumbs;
