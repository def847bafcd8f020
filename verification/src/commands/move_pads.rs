//! Moving pads under another pad, or to the top level.
use vstd::prelude::*;
use crate::commands::{messages_view, CmdMessage, CmdResult, MessageLevel};
use crate::error::{ErrorKind, PadzError};
use crate::helpers::local_index;
use crate::index::{path_chars, path_text, DisplayIndex, PadSelector, SelectorV};
use crate::model::{now_millis, Bucket, MetadataV, PadV, Scope};
use crate::resolve::{resolve_all, resolve_selectors, resolved_view, scope_lin, selectors_view, TitleBucket};
use crate::store::{find_pad, spec_save, stored_in, Store, StoredV};
use crate::text::{append_chars, lit, string_from_chars};
use crate::tree::{dps_view, flat_dp, lemma_dps_view_push, DisplayPad, DisplayPadV};

verus! {

/// How far [`is_descendant_of`] walks up before giving up.
pub const MAX_DEPTH: u32 = 1000;

/// The pad with this id among the active pads of `scope`.
pub open spec fn active_pad(s: Seq<StoredV>, scope: Scope, id: u128) -> PadV {
    s[find_pad(s, scope, id)->0].pad
}

/// Walks up from `cur` at most `fuel` steps: whether `ancestor` is met as a
/// parent. A pad on the way that is not active is an error.
pub open spec fn ancestor_walk(s: Seq<StoredV>, scope: Scope, cur: u128, ancestor: u128, fuel: nat) -> Result<
    bool,
    (),
>
    decreases fuel,
{
    if fuel == 0 {
        Ok(false)
    } else if !stored_in(s, scope, cur, Bucket::Active) {
        Err(())
    } else {
        match active_pad(s, scope, cur).metadata.parent_id {
            Some(p) => if p == ancestor {
                Ok(true)
            } else {
                ancestor_walk(s, scope, p, ancestor, (fuel - 1) as nat)
            },
            None => Ok(false),
        }
    }
}

/// Whether `ancestor` is above `child` in the tree, looking at most
/// [`MAX_DEPTH`] levels up.
pub fn is_descendant_of(store: &Store, scope: Scope, child_id: u128, ancestor_id: u128) -> (r: Result<
    bool,
    PadzError,
>)
    ensures
        match ancestor_walk(store@, scope, child_id, ancestor_id, MAX_DEPTH as nat) {
            Ok(b) => r == Ok::<bool, PadzError>(b),
            Err(_) => r matches Err(e) && e is Store,
        },
{
    let mut current = child_id;
    let mut depth: u32 = 0;
    while depth < MAX_DEPTH
        invariant
            depth <= MAX_DEPTH,
            ancestor_walk(store@, scope, child_id, ancestor_id, MAX_DEPTH as nat) == ancestor_walk(
                store@,
                scope,
                current,
                ancestor_id,
                (MAX_DEPTH - depth) as nat,
            ),
        decreases MAX_DEPTH - depth,
    {
        let pad = match store.get_pad(current, scope, Bucket::Active) {
            Ok(p) => p,
            Err(e) => return Err(e),
        };
        match pad.metadata.parent_id {
            Some(parent) => {
                if parent == ancestor_id {
                    return Ok(true);
                }
                current = parent;
                depth += 1;
            },
            None => return Ok(false),
        }
    }
    Ok(false)
}

/// The state of a move in progress.
pub struct MovingV {
    pub store: Seq<StoredV>,
    pub processed: Seq<u128>,
    pub affected: Seq<DisplayPadV>,
    pub notes: Seq<Seq<char>>,
    pub err: Option<ErrorKind>,
}

/// The note for a pad that already sits under the destination.
pub open spec fn at_destination_note(path: Seq<DisplayIndex>) -> Seq<char> {
    "Pad '"@ + path_text(path) + "' is already at destination"@
}

/// Handles one selected source: repeated sources are skipped; moving a pad
/// into itself or into its own descendant is refused; a pad already under
/// the destination is noted and left alone; otherwise its parent becomes
/// the destination and its update time `now`.
pub open spec fn moving_step(
    st: MovingV,
    scope: Scope,
    sel: (Seq<DisplayIndex>, u128),
    dest: Option<u128>,
    now: i64,
) -> MovingV {
    let id = sel.1;
    if st.err is Some || st.processed.contains(id) {
        st
    } else {
        let st1 = MovingV { processed: st.processed.push(id), ..st };
        if dest == Some(id) {
            MovingV { err: Some(ErrorKind::Api), ..st1 }
        } else if dest is Some && ancestor_walk(st.store, scope, dest->0, id, MAX_DEPTH as nat) is Err {
            MovingV { err: Some(ErrorKind::Store), ..st1 }
        } else if dest is Some && ancestor_walk(st.store, scope, dest->0, id, MAX_DEPTH as nat) == Ok::<bool, ()>(
            true,
        ) {
            MovingV { err: Some(ErrorKind::Api), ..st1 }
        } else if !stored_in(st.store, scope, id, Bucket::Active) {
            MovingV { err: Some(ErrorKind::Store), ..st1 }
        } else {
            let p = active_pad(st.store, scope, id);
            if p.metadata.parent_id == dest {
                MovingV { notes: st.notes.push(at_destination_note(sel.0)), ..st1 }
            } else {
                let q = PadV { metadata: MetadataV { parent_id: dest, updated_at: now, ..p.metadata }, ..p };
                MovingV {
                    store: spec_save(st.store, q, scope, Bucket::Active),
                    affected: st.affected.push(flat_dp(q, local_index(sel.0))),
                    ..st1
                }
            }
        }
    }
}

/// Moving the selected sources in order.
pub open spec fn moving(
    s: Seq<StoredV>,
    scope: Scope,
    sels: Seq<(Seq<DisplayIndex>, u128)>,
    dest: Option<u128>,
    now: i64,
) -> MovingV
    decreases sels.len(),
{
    if sels.len() == 0 {
        MovingV { store: s, processed: Seq::empty(), affected: Seq::empty(), notes: Seq::empty(), err: None }
    } else {
        moving_step(moving(s, scope, sels.drop_last(), dest, now), scope, sels.last(), dest, now)
    }
}

pub open spec fn dest_view(d: Option<&PadSelector>) -> Option<SelectorV> {
    match d {
        Some(x) => Some(x@),
        None => None,
    }
}

/// The destination a selector designates: exactly one active pad.
pub open spec fn destination_of(s: Seq<StoredV>, scope: Scope, dest: Option<SelectorV>) -> Result<
    Option<u128>,
    ErrorKind,
> {
    match dest {
        None => Ok(None),
        Some(sel) => match resolve_all(scope_lin(s, scope), seq![sel], false, TitleBucket::Active) {
            Err(_) => Err(ErrorKind::Api),
            Ok(x) => if x.len() != 1 {
                Err(ErrorKind::Api)
            } else if !stored_in(s, scope, x[0].1, Bucket::Active) {
                Err(ErrorKind::Store)
            } else {
                Ok(Some(x[0].1))
            },
        },
    }
}

/// What a move reports: the moved pads (each at the local index it was
/// selected by) and one info note per pad already at the destination.
pub open spec fn moved_report(res: CmdResult, affected: Seq<DisplayPadV>, notes: Seq<Seq<char>>) -> bool {
    &&& dps_view(res.affected_pads@) == affected
    &&& messages_view(res.messages@) == notes.map_values(|n: Seq<char>| (MessageLevel::Info, n))
    &&& res.listed_pads@.len() == 0
    &&& res.pad_paths@.len() == 0
}

/// The outcome of moving at time `now`, and the store after it.
pub open spec fn move_outcome(
    s: Seq<StoredV>,
    t: Seq<StoredV>,
    scope: Scope,
    sels: Seq<SelectorV>,
    dest: Option<SelectorV>,
    now: i64,
    r: Result<CmdResult, PadzError>,
) -> bool {
    match resolve_all(scope_lin(s, scope), sels, false, TitleBucket::Active) {
        Err(_) => r matches Err(PadzError::Api(m)) && crate::resolve::all_error_text(
            scope_lin(s, scope),
            sels,
            false,
            TitleBucket::Active,
            m@,
        ) && t == s,
        Ok(x) => if x.len() == 0 {
            r matches Ok(res) && moved_report(res, Seq::empty(), Seq::empty()) && t == s
        } else {
            match destination_of(s, scope, dest) {
                Err(k) => r matches Err(e) && e.kind() == k && t == s,
                Ok(d) => {
                    let st = moving(s, scope, x, d, now);
                    &&& t == st.store
                    &&& match st.err {
                        Some(k) => r matches Err(e) && e.kind() == k,
                        None => r matches Ok(res) && moved_report(res, st.affected, st.notes),
                    }
                },
            }
        },
    }
}

/// `c` is a chain of parent links among the active pads of `scope`: each
/// pad of it but the last is active and has the next as its parent.
pub open spec fn parent_chain(s: Seq<StoredV>, scope: Scope, c: Seq<u128>) -> bool {
    &&& c.len() >= 2
    &&& forall|i: int|
        0 <= i < c.len() - 1 ==> stored_in(s, scope, #[trigger] c[i], Bucket::Active) && s[find_pad(
            s,
            scope,
            c[i],
        )->0].pad.metadata.parent_id == Some(c[i + 1])
}

/// Walking up finds an ancestor at any depth: when parent links lead from
/// `child` to `ancestor` in at most `fuel` steps, the walk says so.
pub proof fn lemma_walk_finds_ancestor(s: Seq<StoredV>, scope: Scope, c: Seq<u128>, fuel: nat)
    requires
        parent_chain(s, scope, c),
        c.len() - 1 <= fuel,
    ensures
        ancestor_walk(s, scope, c[0], c.last(), fuel) == Ok::<bool, ()>(true),
    decreases c.len(),
{
    assert(stored_in(s, scope, c[0], Bucket::Active));
    if c[1] != c.last() {
        let d = c.skip(1);
        assert forall|i: int| 0 <= i < d.len() - 1 implies stored_in(s, scope, #[trigger] d[i], Bucket::Active) && s[find_pad(
            s,
            scope,
            d[i],
        )->0].pad.metadata.parent_id == Some(d[i + 1]) by {
            assert(d[i] == c[i + 1]);
            assert(d[i + 1] == c[i + 2]);
        }
        assert(d.len() >= 2);
        lemma_walk_finds_ancestor(s, scope, d, (fuel - 1) as nat);
        assert(d[0] == c[1]);
        assert(d.last() == c.last());
    }
}

/// Moving a pad under a pad of its own subtree is refused: when parent
/// links lead from the destination up to the source (within [`MAX_DEPTH`]
/// steps), handling that source fails and changes nothing.
pub proof fn lemma_move_into_descendant_refused(
    st: MovingV,
    scope: Scope,
    sel: (Seq<DisplayIndex>, u128),
    c: Seq<u128>,
    now: i64,
)
    requires
        st.err is None,
        !st.processed.contains(sel.1),
        parent_chain(st.store, scope, c),
        c.last() == sel.1,
        c.len() - 1 <= MAX_DEPTH,
    ensures
        moving_step(st, scope, sel, Some(c[0]), now).err == Some(ErrorKind::Api),
        moving_step(st, scope, sel, Some(c[0]), now).store == st.store,
{
    lemma_walk_finds_ancestor(st.store, scope, c, MAX_DEPTH as nat);
}

/// A move whose first source lies above its destination is refused with an
/// error, and the store is left as it was.
pub proof fn lemma_move_cycle_refused(
    s: Seq<StoredV>,
    t: Seq<StoredV>,
    scope: Scope,
    sels: Seq<SelectorV>,
    dest: Option<SelectorV>,
    now: i64,
    r: Result<CmdResult, PadzError>,
    c: Seq<u128>,
)
    requires
        move_outcome(s, t, scope, sels, dest, now, r),
        resolve_all(scope_lin(s, scope), sels, false, TitleBucket::Active) is Ok,
        resolve_all(scope_lin(s, scope), sels, false, TitleBucket::Active)->Ok_0.len() > 0,
        destination_of(s, scope, dest) == Ok::<Option<u128>, ErrorKind>(Some(c[0])),
        parent_chain(s, scope, c),
        c.last() == resolve_all(scope_lin(s, scope), sels, false, TitleBucket::Active)->Ok_0[0].1,
        c.len() - 1 <= MAX_DEPTH,
    ensures
        r is Err,
        t == s,
{
    let x = resolve_all(scope_lin(s, scope), sels, false, TitleBucket::Active)->Ok_0;
    let st0 = moving(s, scope, x.take(0), Some(c[0]), now);
    assert(x.take(0) =~= Seq::<(Seq<DisplayIndex>, u128)>::empty());
    assert(x.take(1).drop_last() =~= x.take(0));
    assert(x.take(1).last() == x[0]);
    lemma_move_into_descendant_refused(st0, scope, x[0], c, now);
    lemma_err_stays(s, scope, x, Some(c[0]), now, 1);
}

proof fn lemma_err_stays(
    s: Seq<StoredV>,
    scope: Scope,
    sels: Seq<(Seq<DisplayIndex>, u128)>,
    dest: Option<u128>,
    now: i64,
    k: int,
)
    requires
        0 <= k <= sels.len(),
        moving(s, scope, sels.take(k), dest, now).err is Some,
    ensures
        moving(s, scope, sels, dest, now) == moving(s, scope, sels.take(k), dest, now),
    decreases sels.len() - k,
{
    if k < sels.len() {
        assert(sels.take(k + 1).drop_last() =~= sels.take(k));
        lemma_err_stays(s, scope, sels, dest, now, k + 1);
    } else {
        assert(sels.take(k) =~= sels);
    }
}

fn contains_id(v: &Vec<u128>, x: u128) -> (r: bool)
    ensures
        r == v@.contains(x),
{
    let mut i: usize = 0;
    while i < v.len()
        invariant
            i <= v.len(),
            forall|j: int| 0 <= j < i ==> v@[j] != x,
        decreases v.len() - i,
    {
        if v[i] == x {
            proof {
                assert(v@[i as int] == x);
            }
            return true;
        }
        i += 1;
    }
    false
}

fn path_message(prefix: &str, path: &Vec<DisplayIndex>, suffix: &str) -> (r: String)
    ensures
        r@ == prefix@ + path_text(path@) + suffix@,
{
    let mut m = lit(prefix);
    append_chars(&mut m, &path_chars(path));
    append_chars(&mut m, &lit(suffix));
    string_from_chars(&m)
}

/// Moves the selected active pads under the destination pad (or to the top
/// level when there is none), at time `now` (see [`move_outcome`]).
pub fn move_at(
    store: &mut Store,
    scope: Scope,
    selectors: &Vec<PadSelector>,
    destination_selector: Option<&PadSelector>,
    now: i64,
) -> (r: Result<CmdResult, PadzError>)
    ensures
        move_outcome(
            old(store)@,
            final(store)@,
            scope,
            selectors_view(selectors@),
            dest_view(destination_selector),
            now,
            r,
        ),
{
    let ghost s0 = store@;
    let sources = match resolve_selectors(store, scope, selectors, false, TitleBucket::Active) {
        Ok(v) => v,
        Err(e) => return Err(e),
    };
    let ghost x = resolved_view(sources@);
    if sources.len() == 0 {
        let res = CmdResult::new();
        proof {
            assert(messages_view(res.messages@) =~= Seq::<Seq<char>>::empty().map_values(
                |n: Seq<char>| (MessageLevel::Info, n),
            ));
            assert(dps_view(res.affected_pads@) =~= Seq::<DisplayPadV>::empty());
        }
        return Ok(res);
    }
    let dest: Option<u128> = match destination_selector {
        Some(sel) => {
            let mut sels: Vec<PadSelector> = Vec::new();
            sels.push(sel.duplicate());
            proof {
                assert(selectors_view(sels@) =~= seq![sel@]);
            }
            let found = match resolve_selectors(store, scope, &sels, false, TitleBucket::Active) {
                Ok(v) => v,
                Err(e) => return Err(e),
            };
            if found.len() == 0 {
                return Err(PadzError::Api("Destination not found".to_string()));
            }
            if found.len() > 1 {
                return Err(PadzError::Api("Destination selector must resolve to a single pad".to_string()));
            }
            let dest_id = found[0].1;
            match store.get_pad(dest_id, scope, Bucket::Active) {
                Ok(_) => {},
                Err(e) => return Err(e),
            }
            Some(dest_id)
        },
        None => None,
    };
    let mut result = CmdResult::new();
    let mut processed: Vec<u128> = Vec::new();
    let ghost mut notes: Seq<Seq<char>> = Seq::empty();
    let mut i: usize = 0;
    proof {
        assert(x.take(0) =~= Seq::<(Seq<DisplayIndex>, u128)>::empty());
        assert(messages_view(result.messages@) =~= notes.map_values(|n: Seq<char>| (MessageLevel::Info, n)));
        assert(dps_view(result.affected_pads@) =~= Seq::<DisplayPadV>::empty());
    }
    while i < sources.len()
        invariant
            s0 == old(store)@,
            x == resolved_view(sources@),
            x.len() == sources@.len(),
            x.len() > 0,
            resolve_all(scope_lin(s0, scope), selectors_view(selectors@), false, TitleBucket::Active) == Ok::<
                Seq<(Seq<DisplayIndex>, u128)>,
                (),
            >(x),
            destination_of(s0, scope, dest_view(destination_selector)) == Ok::<Option<u128>, ErrorKind>(dest),
            i <= sources.len(),
            moving(s0, scope, x.take(i as int), dest, now) == (MovingV {
                store: store@,
                processed: processed@,
                affected: dps_view(result.affected_pads@),
                notes,
                err: None,
            }),
            messages_view(result.messages@) == notes.map_values(|n: Seq<char>| (MessageLevel::Info, n)),
            result.listed_pads@.len() == 0,
            result.pad_paths@.len() == 0,
        decreases sources.len() - i,
    {
        let id = sources[i].1;
        proof {
            assert(x.take(i + 1).drop_last() =~= x.take(i as int));
            assert(x.take(i + 1).last() == x[i as int]);
            assert(x[i as int].1 == id);
            assert(x[i as int].0 == sources@[i as int].0@);
        }
        if !contains_id(&processed, id) {
            processed.push(id);
            if dest == Some(id) {
                proof {
                    assert(moving(s0, scope, x.take(i + 1), dest, now).err == Some(ErrorKind::Api));
                    lemma_err_stays(s0, scope, x, dest, now, i + 1);
                }
                return Err(PadzError::Api(path_message("Cannot move pad '", &sources[i].0, "' into itself")));
            }
            match dest {
                Some(target) => {
                    let below = match is_descendant_of(store, scope, target, id) {
                        Ok(b) => b,
                        Err(e) => {
                            proof {
                                assert(moving(s0, scope, x.take(i + 1), dest, now).err == Some(ErrorKind::Store));
                                lemma_err_stays(s0, scope, x, dest, now, i + 1);
                            }
                            return Err(e);
                        },
                    };
                    if below {
                        proof {
                            lemma_err_stays(s0, scope, x, dest, now, i + 1);
                        }
                        return Err(
                            PadzError::Api(path_message("Cannot move pad '", &sources[i].0, "' into its own descendant")),
                        );
                    }
                },
                None => {},
            }
            let mut pad = match store.get_pad(id, scope, Bucket::Active) {
                Ok(p) => p,
                Err(e) => {
                    proof {
                        lemma_err_stays(s0, scope, x, dest, now, i + 1);
                    }
                    return Err(e);
                },
            };
            if pad.metadata.parent_id == dest {
                let msg = CmdMessage::info(path_message("Pad '", &sources[i].0, "' is already at destination"));
                let ghost mv = msg;
                let ghost before = result.messages@;
                result.add_message(msg);
                proof {
                    let note = at_destination_note(x[i as int].0);
                    notes = notes.push(note);
                    assert(messages_view(result.messages@) =~= messages_view(before).push((MessageLevel::Info, note)));
                    assert(messages_view(result.messages@) =~= notes.map_values(
                        |n: Seq<char>| (MessageLevel::Info, n),
                    ));
                }
            } else {
                pad.metadata.parent_id = dest;
                pad.metadata.updated_at = now;
                match store.save_pad(&pad, scope, Bucket::Active) {
                    Ok(()) => {},
                    Err(e) => return Err(e),
                }
                let path = &sources[i].0;
                let local = if path.len() > 0 {
                    path[path.len() - 1]
                } else {
                    DisplayIndex::Regular(0)
                };
                let dp = DisplayPad { pad, index: local, matches: None, children: Vec::new() };
                proof {
                    assert(dps_view(dp.children@) =~= Seq::<DisplayPadV>::empty());
                    lemma_dps_view_push(result.affected_pads@, dp);
                }
                result.affected_pads.push(dp);
            }
        }
        i += 1;
    }
    proof {
        assert(x.take(sources.len() as int) =~= x);
    }
    Ok(result)
}

/// Moves the selected active pads now (see [`move_at`]).
pub fn run(
    store: &mut Store,
    scope: Scope,
    selectors: &Vec<PadSelector>,
    destination_selector: Option<&PadSelector>,
) -> (r: Result<CmdResult, PadzError>)
    ensures
        exists|now: i64|
            #[trigger] move_outcome(
                old(store)@,
                final(store)@,
                scope,
                selectors_view(selectors@),
                dest_view(destination_selector),
                now,
                r,
            ),
{
    let now = now_millis();
    let r = move_at(store, scope, selectors, destination_selector, now);
    proof {
        assert(move_outcome(
            old(store)@,
            store@,
            scope,
            selectors_view(selectors@),
            dest_view(destination_selector),
            now,
            r,
        ));
    }
    r
}

} // verus!
