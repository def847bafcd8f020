//! Creating pads.
use vstd::prelude::*;
use crate::commands::CmdResult;
use crate::error::PadzError;
use crate::index::{DisplayIndex, PadSelector, SelectorV};
use crate::model::{new_pad_value, strings_view, Bucket, MetadataV, Pad, PadV, Scope};
use crate::resolve::{resolve_all, resolve_selectors, scope_lin, TitleBucket};
use crate::store::{lemma_save_found, stored_path, spec_save, Store, StoredV};
use crate::tree::{dps_view, flat_dp, lemma_dps_view_push, DisplayPad};

verus! {

/// The parent a new pad gets: none without a selector; otherwise the one pad
/// the selector resolves to. Resolving to no pad or to several is an error.
pub open spec fn parent_for(s: Seq<StoredV>, scope: Scope, parent: Option<SelectorV>) -> Result<Option<u128>, ()> {
    match parent {
        None => Ok(None),
        Some(sel) => match resolve_all(scope_lin(s, scope), seq![sel], false, TitleBucket::Active) {
            Ok(x) => if x.len() == 1 {
                Ok(Some(x[0].1))
            } else {
                Err(())
            },
            Err(_) => Err(()),
        },
    }
}

/// Whether `msg` is the text of a parent selector that does not designate
/// one pad: the resolution error (see [`crate::resolve::all_error_text`]),
/// or that it designates none or several.
pub open spec fn parent_error(s: Seq<StoredV>, scope: Scope, parent: Option<SelectorV>, msg: Seq<char>) -> bool {
    match parent {
        None => false,
        Some(sel) => match resolve_all(scope_lin(s, scope), seq![sel], false, TitleBucket::Active) {
            Err(_) => crate::resolve::all_error_text(scope_lin(s, scope), seq![sel], false, TitleBucket::Active, msg),
            Ok(x) => if x.len() == 0 {
                msg == "Parent pad not found"@
            } else {
                msg == "Parent selector is ambiguous/multiple matches"@
            },
        },
    }
}

/// The pad placed under `parent`, when there is one.
pub open spec fn with_parent(p: PadV, parent: Option<u128>) -> PadV {
    match parent {
        Some(id) => PadV { metadata: MetadataV { parent_id: Some(id), ..p.metadata }, ..p },
        None => p,
    }
}

pub open spec fn opt_selector_view(s: Option<PadSelector>) -> Option<SelectorV> {
    match s {
        Some(x) => Some(x@),
        None => None,
    }
}

/// What creating `pad` under the selected parent reports: the stored pad at
/// display index 1 and the path of its file.
pub open spec fn created(res: CmdResult, p: PadV, scope: Scope, t: Seq<StoredV>) -> bool {
    &&& dps_view(res.affected_pads@) == seq![flat_dp(p, DisplayIndex::Regular(1))]
    &&& strings_view(res.pad_paths@) == seq![stored_path(t, scope, Bucket::Active, p.metadata.id)]
    &&& res.listed_pads@.len() == 0
    &&& res.listed_depths@.len() == 0
    &&& res.messages@.len() == 0
    &&& res.notices@.len() == 0
    &&& res.outcomes@.len() == 0
}

/// Stores the given new pad as an active pad of `scope`, under the parent the
/// selector designates (see [`parent_for`]).
pub fn create_pad(store: &mut Store, scope: Scope, pad: Pad, parent: Option<PadSelector>) -> (r: Result<
    CmdResult,
    PadzError,
>)
    ensures
        match parent_for(old(store)@, scope, opt_selector_view(parent)) {
            Err(_) => r matches Err(PadzError::Api(m)) && parent_error(old(store)@, scope, opt_selector_view(parent), m@)
                && final(store)@ == old(store)@,
            Ok(pid) => r matches Ok(res) && created(res, with_parent(pad@, pid), scope, final(store)@) && final(store)@
                == spec_save(old(store)@, with_parent(pad@, pid), scope, Bucket::Active),
        },
{
    let mut pad = pad;
    match parent {
        Some(sel) => {
            let mut sels: Vec<PadSelector> = Vec::new();
            sels.push(sel);
            proof {
                assert(crate::resolve::selectors_view(sels@) =~= seq![sels@[0]@]);
            }
            let resolved = match resolve_selectors(store, scope, &sels, false, TitleBucket::Active) {
                Ok(v) => v,
                Err(e) => return Err(e),
            };
            if resolved.len() == 0 {
                let m = "Parent pad not found".to_string();
                proof {
                    vstd::string::to_string_from_display_ensures_for_str("Parent pad not found", m);
                }
                return Err(PadzError::Api(m));
            } else if resolved.len() > 1 {
                let m = "Parent selector is ambiguous/multiple matches".to_string();
                proof {
                    vstd::string::to_string_from_display_ensures_for_str(
                        "Parent selector is ambiguous/multiple matches",
                        m,
                    );
                }
                return Err(PadzError::Api(m));
            }
            pad.metadata.parent_id = Some(resolved[0].1);
        },
        None => {},
    }
    let ghost p = pad@;
    match store.save_pad(&pad, scope, Bucket::Active) {
        Ok(()) => {},
        Err(e) => return Err(e),
    }
    proof {
        lemma_save_found(old(store)@, p, scope, Bucket::Active);
    }
    let path = match store.get_pad_path(pad.metadata.id, scope, Bucket::Active) {
        Ok(p) => p,
        Err(e) => return Err(e),
    };
    let mut result = CmdResult::new();
    let dp = DisplayPad { pad, index: DisplayIndex::Regular(1), matches: None, children: Vec::new() };
    proof {
        assert(dps_view(dp.children@) =~= Seq::empty());
        lemma_dps_view_push(result.affected_pads@, dp);
    }
    result.affected_pads.push(dp);
    result.pad_paths.push(path);
    proof {
        assert(strings_view(result.pad_paths@) =~= seq![stored_path(store@, scope, Bucket::Active, p.metadata.id)]);
    }
    Ok(result)
}

/// What creating a pad from `title` and `content` under the selected parent
/// does: a parent that does not resolve to one pad is an error and nothing
/// changes; otherwise a new root pad (fresh id, created now) placed under
/// that parent is saved and reported.
pub open spec fn create_outcome(
    s: Seq<StoredV>,
    t: Seq<StoredV>,
    scope: Scope,
    title: Seq<char>,
    content: Seq<char>,
    parent: Option<SelectorV>,
    r: Result<CmdResult, PadzError>,
) -> bool {
    match parent_for(s, scope, parent) {
        Err(_) => r matches Err(PadzError::Api(m)) && parent_error(s, scope, parent, m@) && t == s,
        Ok(pid) => r matches Ok(res) && res.affected_pads@.len() == 1 && {
            let p = res.affected_pads@[0].pad@;
            &&& p == with_parent(new_pad_value(p.metadata.id, p.metadata.created_at, title, content), pid)
            &&& created(res, p, scope, t)
            &&& t == spec_save(s, p, scope, Bucket::Active)
        },
    }
}

/// Creates a new active pad with a fresh id, now, from a title and a body,
/// under the parent the selector designates (see [`parent_for`]).
pub fn run(store: &mut Store, scope: Scope, title: String, content: String, parent: Option<PadSelector>) -> (r:
    Result<CmdResult, PadzError>)
    ensures
        create_outcome(old(store)@, final(store)@, scope, title@, content@, opt_selector_view(parent), r),
{
    let pad = Pad::new(title, content);
    let ghost pv = pad@;
    let r = create_pad(store, scope, pad, parent);
    proof {
        if r is Ok {
            let res = r->Ok_0;
            crate::tree::lemma_dps_view_index(res.affected_pads@);
            let pid = parent_for(old(store)@, scope, opt_selector_view(parent))->Ok_0;
            assert(dps_view(res.affected_pads@)[0] == flat_dp(with_parent(pv, pid), DisplayIndex::Regular(1)));
            assert(res.affected_pads@[0].pad@ == with_parent(pv, pid));
        }
    }
    r
}

} // verus!
