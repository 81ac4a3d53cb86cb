//! The store-listing command's data.
use vstd::prelude::*;

use crate::cmd::SharedArgs;

verus! {

/// Arguments of the command that lists every part of every loaded
/// store.  Listing itself is plain output handled by the surrounding
/// program; the store list it walks comes from
/// `effective_parts_stores_for_init`.
pub struct ListCommand {
    pub shared_args: SharedArgs,
}

} // verus!
