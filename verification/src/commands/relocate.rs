//! Moving selected active pads, together with their descendants, into
//! another bucket: the shared core of deleting and archiving.
use vstd::prelude::*;
use crate::commands::{affected_only, CmdResult};
use crate::error::PadzError;
use crate::helpers::{all_descendants, collect_found, dedup, found_pads, get_descendant_ids, IndexFilter};
use crate::index::{DisplayIndex, PadSelector};
use crate::model::{Bucket, Scope};
use crate::resolve::{resolve_all, resolve_selectors, resolved_view, scope_lin, selectors_view, TitleBucket};
use crate::store::{indexed_pads, spec_move, stored_in, Store, StoredV};
use crate::tree::dps_view;

verus! {

/// The state of a relocation in progress: the store, the ids already
/// handled (moved pads and their descendants), the ids moved on their own
/// account, and whether a selected pad was missing from the active bucket.
pub struct RelocationV {
    pub store: Seq<StoredV>,
    pub processed: Seq<u128>,
    pub moved: Seq<u128>,
    pub failed: bool,
}

/// Handles one selected id: skipped when already handled; fails when the pad
/// is not active; otherwise the pad and all its descendants move to `to`.
pub open spec fn relocation_step(st: RelocationV, scope: Scope, id: u128, to: Bucket) -> RelocationV {
    if st.failed || st.processed.contains(id) {
        st
    } else if !stored_in(st.store, scope, id, Bucket::Active) {
        RelocationV { failed: true, ..st }
    } else {
        let d = dedup(all_descendants(scope_lin(st.store, scope), seq![id]));
        RelocationV {
            store: spec_move(st.store, seq![id] + d, scope, Bucket::Active, to),
            processed: st.processed.push(id) + d,
            moved: st.moved.push(id),
            failed: false,
        }
    }
}

/// The relocation of the selected ids, in order.
pub open spec fn relocation(s: Seq<StoredV>, scope: Scope, ids: Seq<u128>, to: Bucket) -> RelocationV
    decreases ids.len(),
{
    if ids.len() == 0 {
        RelocationV { store: s, processed: Seq::empty(), moved: Seq::empty(), failed: false }
    } else {
        relocation_step(relocation(s, scope, ids.drop_last(), to), scope, ids.last(), to)
    }
}

/// What relocating the selected pads to `to` does: the store changes as
/// [`relocated_store`] says; the result is the resolution error, a
/// missing-pad error, or the moved pads at their new index.
pub open spec fn relocation_outcome(
    s: Seq<StoredV>,
    t: Seq<StoredV>,
    scope: Scope,
    sels: Seq<crate::index::SelectorV>,
    check: bool,
    to: Bucket,
    r: Result<CmdResult, PadzError>,
) -> bool {
    &&& t == relocated_store(s, scope, sels, check, to)
    &&& match resolve_all(scope_lin(s, scope), sels, check, TitleBucket::Active) {
        Err(_) => r matches Err(PadzError::Api(m)) && crate::resolve::all_error_text(
            scope_lin(s, scope),
            sels,
            check,
            TitleBucket::Active,
            m@,
        ),
        Ok(x) => {
            let st = relocation(s, scope, resolved_ids(x), to);
            if st.failed {
                r matches Err(e) && e is Store
            } else {
                r matches Ok(res) && affected_only(res, found_pads(scope_lin(st.store, scope), st.moved, IndexFilter::Any))
            }
        },
    }
}

/// The ids of resolved selections, in order.
pub open spec fn resolved_ids(x: Seq<(Seq<DisplayIndex>, u128)>) -> Seq<u128> {
    x.map_values(|p: (Seq<DisplayIndex>, u128)| p.1)
}

/// What relocating the selected pads does to the store.
pub open spec fn relocated_store(
    s: Seq<StoredV>,
    scope: Scope,
    sels: Seq<crate::index::SelectorV>,
    check: bool,
    to: Bucket,
) -> Seq<StoredV> {
    match resolve_all(scope_lin(s, scope), sels, check, TitleBucket::Active) {
        Ok(x) => relocation(s, scope, resolved_ids(x), to).store,
        Err(_) => s,
    }
}

/// `t` holds the same pads as `s`, in the same places and scopes; only
/// buckets may differ.
pub open spec fn same_pads(s: Seq<StoredV>, t: Seq<StoredV>) -> bool {
    &&& t.len() == s.len()
    &&& forall|i: int| 0 <= i < s.len() ==> #[trigger] t[i].pad == s[i].pad && t[i].scope == s[i].scope
}

/// Relocating (deleting or archiving) changes no pad: every pad keeps its
/// content, metadata, scope and place, and only buckets change.
pub proof fn lemma_relocation_keeps_pads(s: Seq<StoredV>, scope: Scope, ids: Seq<u128>, to: Bucket)
    ensures
        same_pads(s, relocation(s, scope, ids, to).store),
    decreases ids.len(),
{
    if ids.len() > 0 {
        lemma_relocation_keeps_pads(s, scope, ids.drop_last(), to);
        let st0 = relocation(s, scope, ids.drop_last(), to);
        let st = relocation(s, scope, ids, to);
        assert forall|i: int| 0 <= i < s.len() implies #[trigger] st.store[i].pad == s[i].pad && st.store[i].scope
            == s[i].scope by {
            assert(st0.store[i].pad == s[i].pad);
        }
    }
}

proof fn lemma_failed_stays(s: Seq<StoredV>, scope: Scope, ids: Seq<u128>, to: Bucket, k: int)
    requires
        0 <= k <= ids.len(),
        relocation(s, scope, ids.take(k), to).failed,
    ensures
        relocation(s, scope, ids, to) == relocation(s, scope, ids.take(k), to),
    decreases ids.len() - k,
{
    if k < ids.len() {
        assert(ids.take(k + 1).drop_last() =~= ids.take(k));
        lemma_failed_stays(s, scope, ids, to, k + 1);
    } else {
        assert(ids.take(k) =~= ids);
    }
}

fn contains_id(v: &Vec<u128>, x: u128) -> (r: bool)
    ensures
        r == v@.contains(x),
{
    let mut i: usize = 0;
    while i < v.len()
        invariant
            i <= v.len(),
            forall|j: int| 0 <= j < i ==> v@[j] != x,
        decreases v.len() - i,
    {
        if v[i] == x {
            proof {
                assert(v@[i as int] == x);
            }
            return true;
        }
        i += 1;
    }
    false
}

fn append_ids(dst: &mut Vec<u128>, src: &Vec<u128>)
    ensures
        final(dst)@ == old(dst)@ + src@,
{
    let mut i: usize = 0;
    let ghost d0 = dst@;
    while i < src.len()
        invariant
            i <= src.len(),
            dst@ == d0 + src@.take(i as int),
        decreases src.len() - i,
    {
        dst.push(src[i]);
        proof {
            assert(src@.take(i + 1) =~= src@.take(i as int).push(src@[i as int]));
        }
        i += 1;
    }
    proof {
        assert(src@.take(src.len() as int) =~= src@);
    }
}

/// Resolves the selectors and moves each selected active pad, with all its
/// descendants, from the active bucket to `to`. A pad already moved as a
/// descendant of an earlier selection is skipped. The result lists each
/// moved pad (not its descendants) at its new display index.
pub fn relocate_selected(
    store: &mut Store,
    scope: Scope,
    selectors: &Vec<PadSelector>,
    check_delete_protection: bool,
    to: Bucket,
) -> (r: Result<CmdResult, PadzError>)
    ensures
        final(store)@ == relocated_store(old(store)@, scope, selectors_view(selectors@), check_delete_protection, to),
        match resolve_all(scope_lin(old(store)@, scope), selectors_view(selectors@), check_delete_protection, TitleBucket::Active) {
            Err(_) => r matches Err(PadzError::Api(m)) && crate::resolve::all_error_text(
                scope_lin(old(store)@, scope),
                selectors_view(selectors@),
                check_delete_protection,
                TitleBucket::Active,
                m@,
            ),
            Ok(x) => {
                let st = relocation(old(store)@, scope, resolved_ids(x), to);
                if st.failed {
                    r matches Err(e) && e is Store
                } else {
                    r matches Ok(res) && affected_only(
                        res,
                        found_pads(scope_lin(st.store, scope), st.moved, IndexFilter::Any),
                    )
                }
            },
        },
{
    let ghost s0 = store@;
    let resolved = match resolve_selectors(store, scope, selectors, check_delete_protection, TitleBucket::Active) {
        Ok(v) => v,
        Err(e) => return Err(e),
    };
    let ghost x = resolved_view(resolved@);
    let ghost ids = resolved_ids(x);
    let mut processed: Vec<u128> = Vec::new();
    let mut moved: Vec<u128> = Vec::new();
    let mut i: usize = 0;
    proof {
        assert(ids.take(0) =~= Seq::<u128>::empty());
    }
    while i < resolved.len()
        invariant
            s0 == old(store)@,
            x == resolved_view(resolved@),
            resolve_all(scope_lin(s0, scope), selectors_view(selectors@), check_delete_protection, TitleBucket::Active)
                == Ok::<Seq<(Seq<DisplayIndex>, u128)>, ()>(x),
            ids == resolved_ids(x),
            ids.len() == resolved@.len(),
            i <= resolved.len(),
            relocation(s0, scope, ids.take(i as int), to) == (RelocationV {
                store: store@,
                processed: processed@,
                moved: moved@,
                failed: false,
            }),
        decreases resolved.len() - i,
    {
        let uuid = resolved[i].1;
        proof {
            assert(ids.take(i + 1).drop_last() =~= ids.take(i as int));
            assert(ids.take(i + 1).last() == uuid);
        }
        if !contains_id(&processed, uuid) {
            match store.get_pad(uuid, scope, Bucket::Active) {
                Ok(_) => {},
                Err(e) => {
                    proof {
                        assert(relocation(s0, scope, ids.take(i + 1), to).failed);
                        lemma_failed_stays(s0, scope, ids, to, i + 1);
                        assert(relocation(s0, scope, ids, to).store == store@);
                        assert(e is Store);
                    }
                    return Err(e);
                },
            }
            let mut target: Vec<u128> = Vec::new();
            target.push(uuid);
            proof {
                assert(target@ =~= seq![uuid]);
            }
            let d = match get_descendant_ids(store, scope, &target) {
                Ok(d) => d,
                Err(e) => return Err(e),
            };
            let mut to_move: Vec<u128> = Vec::new();
            to_move.push(uuid);
            append_ids(&mut to_move, &d);
            proof {
                assert(to_move@ =~= seq![uuid] + d@);
            }
            match store.move_pads(&to_move, scope, Bucket::Active, to) {
                Ok(()) => {},
                Err(e) => return Err(e),
            }
            processed.push(uuid);
            append_ids(&mut processed, &d);
            moved.push(uuid);
        }
        i += 1;
    }
    proof {
        assert(ids.take(resolved.len() as int) =~= ids);
    }
    let indexed = match indexed_pads(store, scope) {
        Ok(v) => v,
        Err(e) => return Err(e),
    };
    let affected = collect_found(&indexed, &moved, IndexFilter::Any);
    let mut result = CmdResult::new();
    result.affected_pads = affected;
    Ok(result)
}

} // verus!
