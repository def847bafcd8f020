//! The file paths of selected pads.
use vstd::prelude::*;
use crate::commands::CmdResult;
use crate::error::PadzError;
use crate::index::{DisplayIndex, PadSelector};
use crate::model::{strings_view, Bucket, Scope};
use crate::resolve::{resolve_all, resolve_selectors, resolved_view, scope_lin, selectors_view, TitleBucket};
use crate::store::{stored_path, stored_in, Store, StoredV};

verus! {

/// The file paths of the selected pads, in selection order.
pub open spec fn selection_paths(s: Seq<StoredV>, scope: Scope, x: Seq<(Seq<DisplayIndex>, u128)>) -> Seq<Seq<char>> {
    x.map_values(|p: (Seq<DisplayIndex>, u128)| stored_path(s, scope, Bucket::Active, p.1))
}

/// Every selected pad is active.
pub open spec fn all_active(s: Seq<StoredV>, scope: Scope, x: Seq<(Seq<DisplayIndex>, u128)>) -> bool {
    forall|i: int| 0 <= i < x.len() ==> stored_in(s, scope, #[trigger] x[i].1, Bucket::Active)
}

/// What asking for the paths of the selected pads gives: their paths, or an
/// error when resolution fails or a selected pad is not active.
pub open spec fn paths_outcome(s: Seq<StoredV>, scope: Scope, sels: Seq<crate::index::SelectorV>, r: Result<
    CmdResult,
    PadzError,
>) -> bool {
    match resolve_all(scope_lin(s, scope), sels, false, TitleBucket::Active) {
        Err(_) => r matches Err(PadzError::Api(m)) && crate::resolve::all_error_text(
            scope_lin(s, scope),
            sels,
            false,
            TitleBucket::Active,
            m@,
        ),
        Ok(x) => if all_active(s, scope, x) {
            r matches Ok(res) && strings_view(res.pad_paths@) == selection_paths(s, scope, x)
                && res.affected_pads@.len() == 0 && res.listed_pads@.len() == 0 && res.messages@.len() == 0
                && res.listed_depths@.len() == 0 && res.notices@.len() == 0 && res.outcomes@.len() == 0
                && res.nesting == crate::commands::NestingMode::Tree
        } else {
            r matches Err(e) && e is Store
        },
    }
}

/// The file paths of the selected active pads (see [`paths_outcome`]).
pub fn run(store: &Store, scope: Scope, selectors: &Vec<PadSelector>) -> (r: Result<CmdResult, PadzError>)
    ensures
        paths_outcome(store@, scope, selectors_view(selectors@), r),
{
    let resolved = match resolve_selectors(store, scope, selectors, false, TitleBucket::Active) {
        Ok(v) => v,
        Err(e) => return Err(e),
    };
    let ghost x = resolved_view(resolved@);
    let mut paths: Vec<String> = Vec::new();
    let mut i: usize = 0;
    while i < resolved.len()
        invariant
            x == resolved_view(resolved@),
            x.len() == resolved@.len(),
            resolve_all(scope_lin(store@, scope), selectors_view(selectors@), false, TitleBucket::Active) == Ok::<
                Seq<(Seq<DisplayIndex>, u128)>,
                (),
            >(x),
            i <= resolved.len(),
            forall|j: int| 0 <= j < i ==> stored_in(store@, scope, #[trigger] x[j].1, Bucket::Active),
            strings_view(paths@) == selection_paths(store@, scope, x.take(i as int)),
        decreases resolved.len() - i,
    {
        let uuid = resolved[i].1;
        proof {
            assert(x[i as int].1 == uuid);
        }
        let p = match store.get_pad_path(uuid, scope, Bucket::Active) {
            Ok(p) => p,
            Err(_) => {
                proof {
                    assert(!stored_in(store@, scope, x[i as int].1, Bucket::Active));
                    assert(!all_active(store@, scope, x));
                }
                return Err(PadzError::Store("Pad not found".to_string()));
            },
        };
        let ghost before = paths@;
        paths.push(p);
        proof {
            assert(x.take(i + 1) =~= x.take(i as int).push(x[i as int]));
            assert(strings_view(paths@) =~= strings_view(before).push(p@));
            assert(strings_view(paths@) =~= selection_paths(store@, scope, x.take(i + 1)));
        }
        i += 1;
    }
    proof {
        assert(x.take(resolved.len() as int) =~= x);
    }
    Ok(CmdResult::new().with_pad_paths(paths))
}

} // verus!
