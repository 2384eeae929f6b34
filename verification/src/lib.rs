//! Native backend of a desktop note-taking application.
//!
//! The library persists a local "vault" (a folder holding one JSON index
//! document and a subdirectory of opaque encrypted assets) with crash-safe
//! atomic writes, validates untrusted identifiers and paths, plans bulk
//! markdown exports with deterministic name de-duplication, and decides the
//! application's tray/window lifecycle transitions.
//!
//! Directory contents are modelled as [`dirmodel::DirModel`], a map from file
//! names to file contents; the unverified host mirrors every mutation of the
//! model onto the real file system.

pub mod assets;
pub mod dirmodel;
pub mod errors;
pub mod export;
pub mod lifecycle;
pub mod names;
pub mod text;
pub mod validate;
pub mod vault;
