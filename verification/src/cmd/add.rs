//! The part-addition command: like initialization, but against an
//! already bootstrapped project.
use vstd::prelude::*;

use crate::cmd::init::InitCommand;
use crate::config::base_parts_store_uri;
use crate::config::spec_base_parts_store_uri;
use crate::parts::clone_string_vec;

verus! {

/// Arguments of the part-addition command.  The addition pipeline
/// reuses the initialization arguments; only the surrounding file
/// handling differs.
pub struct AddCommand {
    pub init: InitCommand,
}

/// The part stores the addition command loads: the user's, then
/// (unless disabled) the builder's base store.  No bootstrap store: the
/// project is already bootstrapped.
pub fn effective_parts_stores_for_add(user: &Vec<String>, disable_base_parts: bool) -> (r: Vec<
    String,
>)
    ensures
        r.deep_view() == if disable_base_parts {
            user.deep_view()
        } else {
            user.deep_view().push(spec_base_parts_store_uri())
        },
{
    let mut out = clone_string_vec(user);
    let ghost base = out.deep_view();
    if !disable_base_parts {
        out.push(base_parts_store_uri());
        proof {
            assert(out.deep_view() =~= base.push(spec_base_parts_store_uri()));
        }
    }
    out
}

} // verus!
