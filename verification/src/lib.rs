//! Data-access layer for browsing and extracting assets from a game's
//! archive container ("pak") and tabular text ("st" family) formats.
//!
//! The crate is organized leaf-first:
//! - [`util_binary`]: an in-memory seekable byte source, fixed-width
//!   little-endian reads, pointer tables, and a small struct parser;
//! - [`pak`]: the archive index (a name → location table built once per
//!   archive) and extraction of archived files;
//! - [`st`] and [`stb`]: the tabular dataset codecs, with a line-variant
//!   and a block-variant header shape and per-cell or whole-grid access;
//! - [`formats`]: classification of files by extension;
//! - [`location`]: filesystem and in-archive item locations;
//! - [`cache`]: a keyed single-flight load cache polled cooperatively,
//!   with producers run by the caller;
//! - [`tree`]: the lazy tree of browsable items that composes the codecs
//!   and the cache;
//! - [`natural`]: the numeric-aware, case-insensitive sibling ordering;
//! - [`text`]: lossy display decoding of raw byte strings;
//! - [`error`]: the error kinds shared by all components.

pub mod cache;
pub mod error;
pub mod formats;
pub mod location;
pub mod natural;
pub mod pak;
pub mod st;
pub mod stb;
pub mod text;
pub mod tree;
pub mod util_binary;
