//! Build littlefs filesystem images from a host directory tree.
//!
//! The crate resolves a partially specified image geometry into a validated
//! one, decides which entries of a directory tree belong in the image
//! (ignore globs, a force-include whitelist, hidden-file and depth rules),
//! and turns the surviving entries into a deterministic, sorted pack plan.
//! The block-storage engine that materialises the plan is a collaborator
//! outside this crate; the crate only prepares exact instructions for it.

pub mod config;
pub mod image;
pub mod params;
pub mod paths;
pub mod globs;
pub mod pack;
