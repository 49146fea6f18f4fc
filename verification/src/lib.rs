//! Compiles authored appearances (creatures, items, effects) into a compact
//! binary package, and loads such a package back.
//!
//! A package is one index file, which describes every appearance, frame group
//! and animation, and one sprite file per frame, which holds the compressed
//! pixels of one square cell cut out of a spritesheet. All functions here work
//! on bytes and plain values: reading and writing the files is left to the
//! caller.
//!
//! - [`types`] holds the authoring model, [`loaded_types`] the loaded one.
//! - [`geometry`] says which dimensions a spritesheet must have, and which of
//!   its cells belong to which direction.
//! - [`sprite`] cuts a sheet into cells and compresses them.
//! - [`text`] names the sprite files and says where a sheet is looked for.
//! - [`wire`] and [`format`] describe the bytes of the files; [`writer`]
//!   writes an index and [`loader`] reads one, and keeps the sprites that it
//!   has loaded in a [`cache`].
//! - [`compiler`] turns a manifest and its sheets into a package, and
//!   [`round_trip`] shows that the package loads as what was authored.
//! - [`outside`] holds the calls into other crates, which are taken on trust.

pub mod cache;
pub mod compiler;
pub mod error;
pub mod format;
pub mod geometry;
pub mod loaded_types;
pub mod loader;
pub mod outside;
pub mod round_trip;
pub mod sprite;
pub mod text;
pub mod types;
pub mod wire;
pub mod writer;

pub use cache::SpriteCache;
pub use compiler::{compile_appearances, CompilationResult, CompiledPackage, SpriteFile};
pub use error::AppearanceError;
pub use geometry::{
    calculate_direction_row, cell_rect, expected_sheet_size, slice_indices, CellRect,
};
pub use loaded_types::{
    AppearanceDatabase, LoadedAnimation, LoadedAppearance, LoadedFrameGroup, LoadedSprite,
};
pub use loader::{load_all, load_database_only, AppearanceLoader};
pub use sprite::{slice_spritesheet, RawImage};
pub use text::sprite_file_name;
pub use types::{
    default_frames, default_looped, direction_to_u8, u8_to_direction, Animation, Appearance,
    AppearancesFile, Direction, FrameGroup, Offset, Orientation, SpriteData, SpriteMetadata,
};
