//! Locates build-artifact directories (dependency and build caches) in a
//! directory tree, reports their size and file counts, and supports a
//! surrounding program that deletes them.
//!
//! The core is two recursive walkers over an in-memory snapshot of a
//! directory tree ([`fs_model::FsEntry`]):
//!
//! * the locator ([`locate::get_paths_to_delete`]) finds directories whose
//!   name matches a configured target kind, validating build caches by a
//!   marker file, and never descends into a matched directory;
//! * the measurer ([`measure::dir_size`]) computes the directory count,
//!   file count and total byte size of everything under one directory,
//!   tolerating unreadable subdirectories.
//!
//! Reading the real filesystem into the snapshot, deleting matched
//! directories and all presentation live outside this library.

pub mod fs_model;
pub mod locate;
pub mod measure;
pub mod params;
pub mod stats;
