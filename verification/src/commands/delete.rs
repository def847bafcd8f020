//! Soft-deleting pads.
use vstd::prelude::*;
use crate::commands::relocate::{relocate_selected, relocation_outcome};
use crate::commands::CmdResult;
use crate::error::PadzError;
use crate::index::PadSelector;
use crate::model::{Bucket, Scope};
use crate::resolve::selectors_view;
use crate::store::Store;

verus! {

/// Moves the selected active pads, with all their descendants, to the
/// deleted bucket. Selecting a delete-protected (pinned) pad fails before
/// anything moves. The result lists each deleted pad at its deleted index.
pub fn run(store: &mut Store, scope: Scope, selectors: &Vec<PadSelector>) -> (r: Result<CmdResult, PadzError>)
    ensures
        relocation_outcome(old(store)@, final(store)@, scope, selectors_view(selectors@), true, Bucket::Deleted, r),
{
    relocate_selected(store, scope, selectors, true, Bucket::Deleted)
}

} // verus!
