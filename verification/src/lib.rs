//! Resolution engine for flake-parts project templates.
//!
//! A project is assembled from named, reusable template fragments
//! ("parts"), each coming from a named origin ("store").  This crate
//! canonicalizes part references, computes the transitive dependency
//! closure of a requested set of parts, validates the result (missing
//! parts, conflicting parts) and merges the accepted parts' metadata
//! into a single context for rendering.
pub mod cmd;
pub mod config;
pub mod fs_utils;
pub mod nix;
pub mod parts;
pub mod templates;
