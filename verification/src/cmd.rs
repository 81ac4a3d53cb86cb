//! Command-level data and the resolution pipeline shared by the
//! commands.
use vstd::prelude::*;

pub mod add;
pub mod init;
pub mod list;

verus! {

/// Options shared by every command: which part stores to load and
/// whether the builder's own base store is among them.
pub struct SharedArgs {
    /// Additional part store references to load.
    pub parts_stores: Vec<String>,
    /// Leave out the base parts store shipped with the builder.
    pub disable_base_parts: bool,
    /// Write a per-part metadata file next to the copied parts.
    pub write_meta: bool,
    /// Enable verbose logging.
    pub verbose: bool,
}

} // verus!
