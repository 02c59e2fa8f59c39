//! A tile-storage engine for map-tile containers.
//!
//! Tiles are addressed by zoom/column/row coordinates and kept in a container
//! that follows one of three physical layouts: flat, flat with a per-tile
//! content hash, or normalized (deduplicated through a content table).
//! The engine offers schema-aware reads and batch writes, copying between
//! containers, aggregate-hash integrity checks, and binary patches.

pub mod agg;
pub mod bindiff;
pub mod container;
pub mod copy;
pub mod hashing;
pub mod mbtiles;
pub mod patch;
pub mod schema;
pub mod stream;
pub mod style;
pub mod text;
pub mod tile;

pub use bindiff::PatchType;
pub use container::Container;
pub use container::WriteError;
pub use copy::CopyError;
pub use copy::CopyStats;
pub use copy::copy_container;
pub use hashing::md5_hex;
pub use mbtiles::Mbtiles;
pub use patch::PatchArtifact;
pub use patch::PatchEntry;
pub use patch::PatchError;
pub use patch::PatchFileInfo;
pub use patch::PatchOp;
pub use patch::compute_patch;
pub use schema::CopyDuplicateMode;
pub use schema::CopyType;
pub use schema::DetectError;
pub use schema::MbtType;
pub use schema::MbtTypeCli;
pub use schema::SchemaProbe;
pub use schema::detect_type;
pub use stream::StreamError;
pub use stream::stream_row;
pub use style::LightAnchor;
pub use style::VectorScheme;
pub use text::elide_vec;
pub use tile::CoordinateError;
pub use tile::TileCoord;
pub use tile::invert_y_value;
pub use tile::parse_tile_index;
