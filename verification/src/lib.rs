//! A minimal, local, content-addressed version-control engine.
//!
//! The engine works on an in-memory image of a repository: its control
//! data (`repository::Repository`: HEAD, the index, the heads and the
//! object store) and its working tree (`file_manager::WorkTree`). Reading
//! that image from disk and writing it back is left to the caller.
//!
//! - `identity`: 20-byte object ids, their hexadecimal form, SHA-1.
//! - `text`: equality and order of strings, paths.
//! - `codec`, `traits`: the stored form of every structure, and the proof
//!   that what is written is read back.
//! - `id_map`, `objects`, `object_store`, `repository`: the data.
//! - `file_manager`: the working tree.
//! - `objects_manager`: building, comparing, loading and merging trees.
//! - `vcs_manager`: init, commit, status, branch, jump, merge, log.
//! - `public_info`, `report_printer`, `errors`, `commands`: what is
//!   reported, and how.

pub mod codec;
pub mod commands;
pub mod errors;
pub mod file_manager;
pub mod id_map;
pub mod identity;
pub mod object_store;
pub mod objects;
pub mod objects_manager;
pub mod public_info;
pub mod report_printer;
pub mod repository;
pub mod text;
pub mod traits;
pub mod vcs_manager;
