//! Reading and writing Modrinth modpack archives.
//!
//! A pack is a zip container that holds one JSON manifest and a tree of
//! literal files to be unpacked beside what the manifest tells a launcher to
//! download. This crate turns the bytes of such a container into a
//! [`Modpack`] and back, and states in contracts what each step yields.
//!
//! The way from bytes to a pack has three steps, each in a module of its
//! own: [`container`] reads the entries of the zip file, [`json_text`] reads
//! the text of the manifest as a tree, and [`manifest_read`] with
//! [`archive`] read the tree and the entries as a pack. The way back is
//! [`manifest_write`], [`json_text`] and [`container`] again. The zip file
//! and the JSON text are the work of the `zip` and `serde_json` crates;
//! everything between them is proved, and [`manifest_laws`] and
//! [`archive_laws`] state what follows: that a pack which is written and
//! read again is the same pack.

pub mod archive;
pub mod archive_laws;
pub mod container;
pub mod error;
pub mod json;
pub mod json_text;
pub mod manifest;
pub mod manifest_json;
pub mod manifest_laws;
pub mod manifest_read;
pub mod manifest_write;
pub mod overrides;
pub mod path;
pub mod text;

pub use archive::Side;
pub use error::{DecodeError, Error, Field};
pub use json::Json;
pub use manifest::{
    Dependencies, Dependency, Env, Environment, File, GameType, Hashes, Modpack,
};
pub use overrides::Overrides;
