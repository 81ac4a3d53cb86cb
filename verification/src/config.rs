//! Fixed references of the builder's own part stores.
use vstd::prelude::*;

verus! {

/// Reference of the store holding the base parts shipped with the
/// builder.
pub open spec fn spec_base_parts_store_uri() -> Seq<char> {
    "github:tsandrini/flake-parts-builder#flake-parts"@
}

/// Reference of the store holding the bootstrap parts, needed by every
/// freshly initialized project.
pub open spec fn spec_bootstrap_parts_store_uri() -> Seq<char> {
    "github:tsandrini/flake-parts-builder#flake-parts-bootstrap"@
}

/// Canonical reference of the bootstrap part itself.
pub open spec fn spec_bootstrap_part_uri() -> Seq<char> {
    "github:tsandrini/flake-parts-builder#flake-parts-bootstrap/_bootstrap"@
}

pub fn base_parts_store_uri() -> (r: String)
    ensures
        r@ == spec_base_parts_store_uri(),
{
    String::from_str("github:tsandrini/flake-parts-builder#flake-parts")
}

pub fn bootstrap_parts_store_uri() -> (r: String)
    ensures
        r@ == spec_bootstrap_parts_store_uri(),
{
    String::from_str("github:tsandrini/flake-parts-builder#flake-parts-bootstrap")
}

pub fn bootstrap_part_uri() -> (r: String)
    ensures
        r@ == spec_bootstrap_part_uri(),
{
    String::from_str("github:tsandrini/flake-parts-builder#flake-parts-bootstrap/_bootstrap")
}

} // verus!
