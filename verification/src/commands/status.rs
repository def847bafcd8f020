//! Marking pads done and reopening them.
use vstd::prelude::*;
use crate::commands::{CmdNotice, CmdOutcome, CmdResult, NoticeV, OutcomeV};
use crate::error::PadzError;
use crate::helpers::local_index;
use crate::index::{copy_path, DisplayIndex, PadSelector, SelectorV};
use crate::model::{Bucket, MetadataV, PadV, Scope, TodoStatus};
use crate::resolve::{resolve_all, resolve_selectors, resolved_view, scope_lin, selectors_view, TitleBucket};
use crate::store::{
    find_pad, lemma_find_pad_some, lemma_save_found, lemma_save_keeps_others, spec_save, stored_in, Store, StoredV,
};
use crate::tree::{dps_view, flat_dp, lemma_dps_view_push, DisplayPad, DisplayPadV};

verus! {

/// The state of a status change in progress.
pub struct StatusingV {
    pub store: Seq<StoredV>,
    pub notices: Seq<NoticeV>,
    pub outcomes: Seq<OutcomeV>,
    pub affected: Seq<DisplayPadV>,
    pub failed: bool,
}

/// Handles one selection: a pad already in the target status is noted;
/// otherwise its status is set and saved. A selected pad that is not
/// active fails the command.
pub open spec fn status_step(st: StatusingV, scope: Scope, sel: (Seq<DisplayIndex>, u128), target: TodoStatus) -> StatusingV {
    if st.failed {
        st
    } else if !stored_in(st.store, scope, sel.1, Bucket::Active) {
        StatusingV { failed: true, ..st }
    } else {
        let p = st.store[find_pad(st.store, scope, sel.1)->0].pad;
        if p.metadata.status == target {
            StatusingV { notices: st.notices.push(NoticeV::AlreadyInStatus(sel.0, target)), ..st }
        } else {
            let q = PadV { metadata: MetadataV { status: target, ..p.metadata }, ..p };
            StatusingV {
                store: spec_save(st.store, q, scope, Bucket::Active),
                outcomes: st.outcomes.push(OutcomeV::StatusChanged(sel.0, target)),
                affected: st.affected.push(flat_dp(q, local_index(sel.0))),
                ..st
            }
        }
    }
}

pub open spec fn statusing(s: Seq<StoredV>, scope: Scope, sels: Seq<(Seq<DisplayIndex>, u128)>, target: TodoStatus) -> StatusingV
    decreases sels.len(),
{
    if sels.len() == 0 {
        StatusingV { store: s, notices: Seq::empty(), outcomes: Seq::empty(), affected: Seq::empty(), failed: false }
    } else {
        status_step(statusing(s, scope, sels.drop_last(), target), scope, sels.last(), target)
    }
}

/// The outcome of setting the status of the selected pads, and the store
/// after it.
pub open spec fn status_outcome(
    s: Seq<StoredV>,
    t: Seq<StoredV>,
    scope: Scope,
    sels: Seq<SelectorV>,
    target: TodoStatus,
    r: Result<CmdResult, PadzError>,
) -> bool {
    match resolve_all(scope_lin(s, scope), sels, false, TitleBucket::Active) {
        Err(_) => r matches Err(PadzError::Api(m)) && crate::resolve::all_error_text(
            scope_lin(s, scope),
            sels,
            false,
            TitleBucket::Active,
            m@,
        ) && t == s,
        Ok(x) => {
            let st = statusing(s, scope, x, target);
            &&& t == st.store
            &&& if st.failed {
                r matches Err(e) && e is Store
            } else {
                r matches Ok(res) && dps_view(res.affected_pads@) == st.affected && res.notices@.map_values(
                    |n: CmdNotice| n@,
                ) == st.notices && res.outcomes@.map_values(|o: CmdOutcome| o@) == st.outcomes
            }
        },
    }
}

proof fn lemma_failed_stays(
    s: Seq<StoredV>,
    scope: Scope,
    sels: Seq<(Seq<DisplayIndex>, u128)>,
    target: TodoStatus,
    k: int,
)
    requires
        0 <= k <= sels.len(),
        statusing(s, scope, sels.take(k), target).failed,
    ensures
        statusing(s, scope, sels, target) == statusing(s, scope, sels.take(k), target),
    decreases sels.len() - k,
{
    if k < sels.len() {
        assert(sels.take(k + 1).drop_last() =~= sels.take(k));
        lemma_failed_stays(s, scope, sels, target, k + 1);
    } else {
        assert(sels.take(k) =~= sels);
    }
}

/// The pad with this id is an active pad of `scope` with status `target`.
pub open spec fn active_in_status(s: Seq<StoredV>, scope: Scope, id: u128, target: TodoStatus) -> bool {
    find_pad(s, scope, id) matches Some(i) && s[i].bucket == Bucket::Active && s[i].pad.metadata.status == target
}

/// A status change that goes through leaves every selected pad an active
/// pad with the target status.
pub proof fn lemma_status_applied(
    s: Seq<StoredV>,
    scope: Scope,
    sels: Seq<(Seq<DisplayIndex>, u128)>,
    target: TodoStatus,
)
    requires
        !statusing(s, scope, sels, target).failed,
    ensures
        forall|k: int|
            0 <= k < sels.len() ==> #[trigger] active_in_status(
                statusing(s, scope, sels, target).store,
                scope,
                sels[k].1,
                target,
            ),
    decreases sels.len(),
{
    if sels.len() > 0 {
        let pre = sels.drop_last();
        let st0 = statusing(s, scope, pre, target);
        let last = sels.last();
        let st = statusing(s, scope, sels, target);
        lemma_status_applied(s, scope, pre, target);
        lemma_find_pad_some(st0.store, scope, last.1);
        let p = st0.store[find_pad(st0.store, scope, last.1)->0].pad;
        if p.metadata.status == target {
            assert forall|k: int| 0 <= k < sels.len() implies #[trigger] active_in_status(st.store, scope, sels[k].1, target) by {
                if k < pre.len() {
                    assert(sels[k] == pre[k]);
                }
            }
        } else {
            let q = PadV { metadata: MetadataV { status: target, ..p.metadata }, ..p };
            lemma_save_found(st0.store, q, scope, Bucket::Active);
            assert forall|k: int| 0 <= k < sels.len() implies #[trigger] active_in_status(st.store, scope, sels[k].1, target) by {
                if sels[k].1 != last.1 {
                    lemma_save_keeps_others(st0.store, q, scope, Bucket::Active, scope, sels[k].1);
                    assert(sels[k] == pre[k]);
                    assert(active_in_status(st0.store, scope, pre[k].1, target));
                }
            }
        }
    }
}

/// Sets the todo status of the selected active pads (see [`status_outcome`]).
pub fn set_status(store: &mut Store, scope: Scope, selectors: &Vec<PadSelector>, target: TodoStatus) -> (r: Result<
    CmdResult,
    PadzError,
>)
    ensures
        status_outcome(old(store)@, final(store)@, scope, selectors_view(selectors@), target, r),
{
    let ghost s0 = store@;
    let resolved = match resolve_selectors(store, scope, selectors, false, TitleBucket::Active) {
        Ok(v) => v,
        Err(e) => return Err(e),
    };
    let ghost x = resolved_view(resolved@);
    let mut result = CmdResult::new();
    let mut i: usize = 0;
    proof {
        assert(x.take(0) =~= Seq::<(Seq<DisplayIndex>, u128)>::empty());
        assert(result.notices@.map_values(|n: CmdNotice| n@) =~= Seq::<NoticeV>::empty());
        assert(result.outcomes@.map_values(|o: CmdOutcome| o@) =~= Seq::<OutcomeV>::empty());
        assert(dps_view(result.affected_pads@) =~= Seq::<DisplayPadV>::empty());
    }
    while i < resolved.len()
        invariant
            s0 == old(store)@,
            x == resolved_view(resolved@),
            x.len() == resolved@.len(),
            resolve_all(scope_lin(s0, scope), selectors_view(selectors@), false, TitleBucket::Active) == Ok::<
                Seq<(Seq<DisplayIndex>, u128)>,
                (),
            >(x),
            i <= resolved.len(),
            statusing(s0, scope, x.take(i as int), target) == (StatusingV {
                store: store@,
                notices: result.notices@.map_values(|n: CmdNotice| n@),
                outcomes: result.outcomes@.map_values(|o: CmdOutcome| o@),
                affected: dps_view(result.affected_pads@),
                failed: false,
            }),
        decreases resolved.len() - i,
    {
        let id = resolved[i].1;
        proof {
            assert(x.take(i + 1).drop_last() =~= x.take(i as int));
            assert(x.take(i + 1).last() == x[i as int]);
            assert(x[i as int].1 == id);
            assert(x[i as int].0 == resolved@[i as int].0@);
        }
        let mut pad = match store.get_pad(id, scope, Bucket::Active) {
            Ok(p) => p,
            Err(e) => {
                proof {
                    assert(statusing(s0, scope, x.take(i + 1), target).failed);
                    lemma_failed_stays(s0, scope, x, target, i + 1);
                }
                return Err(e);
            },
        };
        let path = &resolved[i].0;
        if pad.metadata.status == target {
            let n = CmdNotice::AlreadyInStatus { path: copy_path(path), status: target };
            let ghost before = result.notices@;
            result.notices.push(n);
            proof {
                assert(result.notices@.map_values(|n: CmdNotice| n@) =~= before.map_values(|n: CmdNotice| n@).push(
                    NoticeV::AlreadyInStatus(x[i as int].0, target),
                ));
            }
        } else {
            pad.metadata.status = target;
            match store.save_pad(&pad, scope, Bucket::Active) {
                Ok(()) => {},
                Err(e) => return Err(e),
            }
            let o = CmdOutcome::StatusChanged { path: copy_path(path), status: target };
            let ghost before = result.outcomes@;
            result.outcomes.push(o);
            proof {
                assert(result.outcomes@.map_values(|o: CmdOutcome| o@) =~= before.map_values(|o: CmdOutcome| o@).push(
                    OutcomeV::StatusChanged(x[i as int].0, target),
                ));
            }
            let local = if path.len() > 0 {
                path[path.len() - 1]
            } else {
                DisplayIndex::Regular(0)
            };
            let dp = DisplayPad { pad, index: local, matches: None, children: Vec::new() };
            proof {
                assert(dps_view(dp.children@) =~= Seq::<DisplayPadV>::empty());
                lemma_dps_view_push(result.affected_pads@, dp);
            }
            result.affected_pads.push(dp);
        }
        i += 1;
    }
    proof {
        assert(x.take(resolved.len() as int) =~= x);
    }
    Ok(result)
}

/// Marks the selected active pads done.
pub fn complete(store: &mut Store, scope: Scope, selectors: &Vec<PadSelector>) -> (r: Result<CmdResult, PadzError>)
    ensures
        status_outcome(old(store)@, final(store)@, scope, selectors_view(selectors@), TodoStatus::Done, r),
{
    set_status(store, scope, selectors, TodoStatus::Done)
}

/// Reopens the selected active pads: their status becomes planned.
pub fn reopen(store: &mut Store, scope: Scope, selectors: &Vec<PadSelector>) -> (r: Result<CmdResult, PadzError>)
    ensures
        status_outcome(old(store)@, final(store)@, scope, selectors_view(selectors@), TodoStatus::Planned, r),
{
    set_status(store, scope, selectors, TodoStatus::Planned)
}

} // verus!
