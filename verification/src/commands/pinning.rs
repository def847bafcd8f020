//! Pinning and unpinning pads.
use vstd::prelude::*;
use crate::commands::{messages_view, CmdMessage, CmdResult, MessageLevel};
use crate::error::PadzError;
use crate::helpers::{collect_found, found_pads, IndexFilter};
use crate::index::{path_chars, path_text, DisplayIndex, PadSelector};
use crate::model::{now_millis, Bucket, MetadataV, PadV, Scope};
use crate::resolve::{resolve_all, resolve_selectors, resolved_view, scope_lin, selectors_view, TitleBucket};
use crate::store::{
    find_pad, indexed_pads, lemma_find_pad_some, lemma_save_found, lemma_save_keeps_others, spec_save, stored_in, Store,
    StoredV,
};
use crate::text::{append_chars, lit, string_from_chars};
use crate::tree::dps_view;

verus! {

/// The state of a pin or unpin in progress: the store, the notes about pads
/// already in the requested state, the ids handled, and whether a selected
/// pad was missing from the active bucket.
pub struct PinningV {
    pub store: Seq<StoredV>,
    pub notes: Seq<Seq<char>>,
    pub ids: Seq<u128>,
    pub failed: bool,
}

/// Metadata with the pinned flag set: pinning records the time and protects
/// the pad from deletion; unpinning clears both.
pub open spec fn pinned_metadata(m: MetadataV, pinned: bool, now: i64) -> MetadataV {
    MetadataV {
        is_pinned: pinned,
        pinned_at: if pinned { Some(now) } else { None },
        delete_protected: pinned,
        ..m
    }
}

/// The note for a pad already in the requested state.
pub open spec fn pin_note(path: Seq<DisplayIndex>, pinned: bool) -> Seq<char> {
    "Pad "@ + path_text(path) + if pinned {
        " is already pinned"@
    } else {
        " is already unpinned"@
    }
}

/// Handles one selection.
pub open spec fn pinning_step(
    st: PinningV,
    scope: Scope,
    sel: (Seq<DisplayIndex>, u128),
    pinned: bool,
    now: i64,
) -> PinningV {
    if st.failed {
        st
    } else if !stored_in(st.store, scope, sel.1, Bucket::Active) {
        PinningV { failed: true, ..st }
    } else {
        let p = st.store[find_pad(st.store, scope, sel.1)->0].pad;
        let q = PadV { metadata: pinned_metadata(p.metadata, pinned, now), ..p };
        PinningV {
            store: spec_save(st.store, q, scope, Bucket::Active),
            notes: if p.metadata.is_pinned == pinned {
                st.notes.push(pin_note(sel.0, pinned))
            } else {
                st.notes
            },
            ids: st.ids.push(sel.1),
            failed: false,
        }
    }
}

/// Pinning (or unpinning) the selections in order.
pub open spec fn pinning(
    s: Seq<StoredV>,
    scope: Scope,
    sels: Seq<(Seq<DisplayIndex>, u128)>,
    pinned: bool,
    now: i64,
) -> PinningV
    decreases sels.len(),
{
    if sels.len() == 0 {
        PinningV { store: s, notes: Seq::empty(), ids: Seq::empty(), failed: false }
    } else {
        pinning_step(pinning(s, scope, sels.drop_last(), pinned, now), scope, sels.last(), pinned, now)
    }
}

/// The pad with this id is an active pad of `scope` whose pinned flag, and
/// deletion protection, are `pinned`.
pub open spec fn active_pinned_as(s: Seq<StoredV>, scope: Scope, id: u128, pinned: bool) -> bool {
    find_pad(s, scope, id) matches Some(i) && s[i].bucket == Bucket::Active && s[i].pad.metadata.is_pinned == pinned
        && s[i].pad.metadata.delete_protected == pinned
}

/// A pin (or unpin) that goes through leaves every selected pad active,
/// pinned (or unpinned), and protected from deletion exactly when pinned.
pub proof fn lemma_pinning_applied(
    s: Seq<StoredV>,
    scope: Scope,
    sels: Seq<(Seq<DisplayIndex>, u128)>,
    pinned: bool,
    now: i64,
)
    requires
        !pinning(s, scope, sels, pinned, now).failed,
    ensures
        forall|k: int|
            0 <= k < sels.len() ==> #[trigger] active_pinned_as(
                pinning(s, scope, sels, pinned, now).store,
                scope,
                sels[k].1,
                pinned,
            ),
    decreases sels.len(),
{
    if sels.len() > 0 {
        let pre = sels.drop_last();
        let st0 = pinning(s, scope, pre, pinned, now);
        let last = sels.last();
        let st = pinning(s, scope, sels, pinned, now);
        lemma_pinning_applied(s, scope, pre, pinned, now);
        lemma_find_pad_some(st0.store, scope, last.1);
        let p = st0.store[find_pad(st0.store, scope, last.1)->0].pad;
        let q = PadV { metadata: pinned_metadata(p.metadata, pinned, now), ..p };
        lemma_save_found(st0.store, q, scope, Bucket::Active);
        assert forall|k: int| 0 <= k < sels.len() implies #[trigger] active_pinned_as(st.store, scope, sels[k].1, pinned) by {
            if sels[k].1 != last.1 {
                lemma_save_keeps_others(st0.store, q, scope, Bucket::Active, scope, sels[k].1);
                assert(sels[k] == pre[k]);
                assert(active_pinned_as(st0.store, scope, pre[k].1, pinned));
            }
        }
    }
}

/// The store after pinning (or unpinning) the selected pads.
pub open spec fn pinned_store(
    s: Seq<StoredV>,
    scope: Scope,
    sels: Seq<crate::index::SelectorV>,
    pinned: bool,
    now: i64,
) -> Seq<StoredV> {
    match resolve_all(scope_lin(s, scope), sels, false, TitleBucket::Active) {
        Ok(x) => pinning(s, scope, x, pinned, now).store,
        Err(_) => s,
    }
}

/// The messages of a pin or unpin: one info note per pad already in the
/// requested state.
pub open spec fn info_notes(notes: Seq<Seq<char>>) -> Seq<(MessageLevel, Seq<char>)> {
    notes.map_values(|n: Seq<char>| (MessageLevel::Info, n))
}

/// What pinning (or unpinning) the selected pads at time `now` does: the
/// store changes as [`pinning`] says; the result is the resolution error,
/// a missing-pad error, or the notes and the handled pads at their new index.
pub open spec fn pin_outcome(
    s: Seq<StoredV>,
    t: Seq<StoredV>,
    scope: Scope,
    sels: Seq<crate::index::SelectorV>,
    pinned: bool,
    now: i64,
    r: Result<CmdResult, PadzError>,
) -> bool {
    &&& t == pinned_store(s, scope, sels, pinned, now)
    &&& match resolve_all(scope_lin(s, scope), sels, false, TitleBucket::Active) {
        Err(_) => r matches Err(PadzError::Api(m)) && crate::resolve::all_error_text(
            scope_lin(s, scope),
            sels,
            false,
            TitleBucket::Active,
            m@,
        ),
        Ok(x) => {
            let st = pinning(s, scope, x, pinned, now);
            if st.failed {
                r matches Err(e) && e is Store
            } else {
                r matches Ok(res) && messages_view(res.messages@) == info_notes(st.notes) && dps_view(
                    res.affected_pads@,
                ) == found_pads(
                    scope_lin(st.store, scope),
                    st.ids,
                    if pinned {
                        IndexFilter::Pinned
                    } else {
                        IndexFilter::Regular
                    },
                ) && res.listed_pads@.len() == 0 && res.pad_paths@.len() == 0
            }
        },
    }
}

proof fn lemma_failed_stays(
    s: Seq<StoredV>,
    scope: Scope,
    sels: Seq<(Seq<DisplayIndex>, u128)>,
    pinned: bool,
    now: i64,
    k: int,
)
    requires
        0 <= k <= sels.len(),
        pinning(s, scope, sels.take(k), pinned, now).failed,
    ensures
        pinning(s, scope, sels, pinned, now) == pinning(s, scope, sels.take(k), pinned, now),
    decreases sels.len() - k,
{
    if k < sels.len() {
        assert(sels.take(k + 1).drop_last() =~= sels.take(k));
        lemma_failed_stays(s, scope, sels, pinned, now, k + 1);
    } else {
        assert(sels.take(k) =~= sels);
    }
}

/// Sets the pinned state of the selected active pads at time `now`. Pads
/// already in that state are saved all the same and noted in an info
/// message. The result lists each handled pad at its new index: its pinned
/// index after pinning, its regular index after unpinning.
pub fn pin_state_at(
    store: &mut Store,
    scope: Scope,
    selectors: &Vec<PadSelector>,
    pinned: bool,
    now: i64,
) -> (r: Result<CmdResult, PadzError>)
    ensures
        pin_outcome(old(store)@, final(store)@, scope, selectors_view(selectors@), pinned, now, r),
{
    let ghost s0 = store@;
    let resolved = match resolve_selectors(store, scope, selectors, false, TitleBucket::Active) {
        Ok(v) => v,
        Err(e) => return Err(e),
    };
    let ghost x = resolved_view(resolved@);
    let mut result = CmdResult::new();
    let mut ids: Vec<u128> = Vec::new();
    let ghost mut notes: Seq<Seq<char>> = Seq::empty();
    let mut i: usize = 0;
    proof {
        assert(x.take(0) =~= Seq::<(Seq<DisplayIndex>, u128)>::empty());
        assert(messages_view(result.messages@) =~= info_notes(notes));
    }
    while i < resolved.len()
        invariant
            s0 == old(store)@,
            x == resolved_view(resolved@),
            x.len() == resolved@.len(),
            resolve_all(scope_lin(s0, scope), selectors_view(selectors@), false, TitleBucket::Active) == Ok::<
                Seq<(Seq<DisplayIndex>, u128)>,
                (),
            >(x),
            i <= resolved.len(),
            pinning(s0, scope, x.take(i as int), pinned, now) == (PinningV {
                store: store@,
                notes,
                ids: ids@,
                failed: false,
            }),
            messages_view(result.messages@) == info_notes(notes),
            result.affected_pads@.len() == 0,
            result.listed_pads@.len() == 0,
            result.pad_paths@.len() == 0,
        decreases resolved.len() - i,
    {
        let uuid = resolved[i].1;
        proof {
            assert(x.take(i + 1).drop_last() =~= x.take(i as int));
            assert(x.take(i + 1).last() == x[i as int]);
            assert(x[i as int].1 == uuid);
            assert(x[i as int].0 == resolved@[i as int].0@);
        }
        let mut pad = match store.get_pad(uuid, scope, Bucket::Active) {
            Ok(p) => p,
            Err(e) => {
                proof {
                    assert(pinning(s0, scope, x.take(i + 1), pinned, now).failed);
                    lemma_failed_stays(s0, scope, x, pinned, now, i + 1);
                }
                return Err(e);
            },
        };
        let was_pinned = pad.metadata.is_pinned;
        pad.metadata.set_pinned(pinned, now);
        match store.save_pad(&pad, scope, Bucket::Active) {
            Ok(()) => {},
            Err(e) => return Err(e),
        }
        if was_pinned == pinned {
            let mut m = lit("Pad ");
            append_chars(&mut m, &path_chars(&resolved[i].0));
            if pinned {
                append_chars(&mut m, &lit(" is already pinned"));
            } else {
                append_chars(&mut m, &lit(" is already unpinned"));
            }
            let ghost note = m@;
            proof {
                assert(note == pin_note(x[i as int].0, pinned));
            }
            let msg = CmdMessage::info(string_from_chars(&m));
            let ghost mv = msg;
            let ghost before = result.messages@;
            result.add_message(msg);
            proof {
                notes = notes.push(note);
                assert(result.messages@ == before.push(mv));
                assert(mv.content@ == note && mv.level == MessageLevel::Info);
                assert(messages_view(result.messages@) =~= messages_view(before).push((MessageLevel::Info, note)));
                assert(info_notes(notes) =~= info_notes(notes.drop_last()).push((MessageLevel::Info, note)));
                assert(messages_view(result.messages@) =~= info_notes(notes));
            }
        }
        ids.push(uuid);
        i += 1;
    }
    proof {
        assert(x.take(resolved.len() as int) =~= x);
    }
    let indexed = match indexed_pads(store, scope) {
        Ok(v) => v,
        Err(e) => return Err(e),
    };
    let filter = if pinned {
        IndexFilter::Pinned
    } else {
        IndexFilter::Regular
    };
    result.affected_pads = collect_found(&indexed, &ids, filter);
    Ok(result)
}

/// Pins the selected active pads now (see [`pin_state_at`]).
pub fn pin(store: &mut Store, scope: Scope, selectors: &Vec<PadSelector>) -> (r: Result<CmdResult, PadzError>)
    ensures
        exists|now: i64| pin_outcome(old(store)@, final(store)@, scope, selectors_view(selectors@), true, now, r),
{
    let now = now_millis();
    let r = pin_state_at(store, scope, selectors, true, now);
    proof {
        assert(pin_outcome(old(store)@, store@, scope, selectors_view(selectors@), true, now, r));
    }
    r
}

/// Unpins the selected active pads now (see [`pin_state_at`]).
pub fn unpin(store: &mut Store, scope: Scope, selectors: &Vec<PadSelector>) -> (r: Result<CmdResult, PadzError>)
    ensures
        exists|now: i64| pin_outcome(old(store)@, final(store)@, scope, selectors_view(selectors@), false, now, r),
{
    let now = now_millis();
    let r = pin_state_at(store, scope, selectors, false, now);
    proof {
        assert(pin_outcome(old(store)@, store@, scope, selectors_view(selectors@), false, now, r));
    }
    r
}

} // verus!
