//! Permanently removing pads.
use vstd::prelude::*;
use crate::error::{ErrorKind, PadzError};
use crate::helpers::{
    all_descendants, all_fetchable, dedup, fetched, get_descendant_ids, pads_with_paths_by_selectors,
    path_pads_view,
};
use crate::index::{copy_path, fmt_path, path_text, DisplayIndex, PadSelector, SelectorV};
use crate::model::{Bucket, Scope, TodoStatus};
use crate::resolve::{all_error_text, linearize_tree, lined_view, resolve_all, scope_lin, selectors_view, LinV, TitleBucket};
use crate::store::{find_pad, indexed_pads, spec_indexed, Store, StoredV};
use crate::text::{append_chars, decimal, decimal_chars, lit, string_from_chars};
use crate::tree::{dp_clone, dp_view, dps_view, lemma_dps_view_index, DisplayPad, DisplayPadV};

verus! {

/// One explicitly selected pad with its complete display path.
#[derive(Debug)]
pub struct PurgeSelection {
    pub path: Vec<DisplayIndex>,
    pub pad: DisplayPad,
}

impl PurgeSelection {
    /// The complete display selector of this selection (such as `1.2`).
    pub fn selector(&self) -> (r: String)
        ensures
            r@ == path_text(self.path@),
    {
        fmt_path(&self.path)
    }
}

/// The result of a permanent deletion.
#[derive(Debug)]
pub enum PurgeOutcome {
    /// Nothing matched.
    Empty,
    Purged {
        /// The selections, each pad once, in display order.
        selected_pads: Vec<PurgeSelection>,
        /// The number of distinct pads removed.
        total_purged: usize,
        /// The number of removed descendants that were not selected.
        descendant_count: usize,
    },
}

/// A selection as a value: its display path and its pad.
pub type SelectionV = (Seq<DisplayIndex>, DisplayPadV);

pub enum PurgeV {
    Empty,
    Purged { selected: Seq<SelectionV>, total: nat, descendants: nat },
}

pub open spec fn selections_view(v: Seq<PurgeSelection>) -> Seq<SelectionV> {
    v.map_values(|x: PurgeSelection| (x.path@, dp_view(x.pad)))
}

pub open spec fn outcome_view(o: PurgeOutcome) -> PurgeV {
    match o {
        PurgeOutcome::Empty => PurgeV::Empty,
        PurgeOutcome::Purged { selected_pads, total_purged, descendant_count } => PurgeV::Purged {
            selected: selections_view(selected_pads@),
            total: total_purged as nat,
            descendants: descendant_count as nat,
        },
    }
}

/// A pad that purging without selectors takes: a deleted pad, or a done pad
/// when done pads are included.
pub open spec fn purgeable(d: DisplayPadV, include_done: bool) -> bool {
    d.index is Deleted || (include_done && d.pad.metadata.status == TodoStatus::Done)
}

/// The purgeable pads of the whole tree, at every depth, each with its full
/// display path, in display order.
pub open spec fn purgeable_selections(l: Seq<LinV>, include_done: bool) -> Seq<SelectionV>
    decreases l.len(),
{
    if l.len() == 0 {
        Seq::empty()
    } else {
        let r = purgeable_selections(l.drop_last(), include_done);
        if purgeable(l.last().1, include_done) {
            r.push((l.last().0, l.last().1))
        } else {
            r
        }
    }
}

/// The pads a purge with selectors takes, fetched from the store.
pub open spec fn fetched_selections(s: Seq<StoredV>, scope: Scope, x: Seq<(Seq<DisplayIndex>, u128)>) -> Seq<
    SelectionV,
> {
    Seq::new(x.len(), |k: int| (x[k].0, fetched(s, scope, x[k].0, x[k].1)))
}

/// What a purge takes before removing repetitions: without selectors, every
/// deleted pad (and every done pad when asked), at any depth; otherwise the pads the selectors designate
/// (searching titles among deleted pads, refusing protected pads).
pub open spec fn purge_selections(s: Seq<StoredV>, scope: Scope, sels: Seq<SelectorV>, include_done: bool) -> Result<
    Seq<SelectionV>,
    ErrorKind,
> {
    if sels.len() == 0 {
        Ok(purgeable_selections(scope_lin(s, scope), include_done))
    } else {
        match resolve_all(scope_lin(s, scope), sels, true, TitleBucket::Deleted) {
            Ok(x) => if all_fetchable(s, scope, x) {
                Ok(fetched_selections(s, scope, x))
            } else {
                Err(ErrorKind::Store)
            },
            Err(_) => Err(ErrorKind::Api),
        }
    }
}

pub open spec fn selection_ids(c: Seq<SelectionV>) -> Seq<u128> {
    c.map_values(|x: SelectionV| x.1.pad.metadata.id)
}

/// The selections with each pad kept once, at its first occurrence.
pub open spec fn unique_selections(c: Seq<SelectionV>) -> Seq<SelectionV>
    decreases c.len(),
{
    if c.len() == 0 {
        Seq::empty()
    } else {
        let r = unique_selections(c.drop_last());
        if selection_ids(r).contains(c.last().1.pad.metadata.id) {
            r
        } else {
            r.push(c.last())
        }
    }
}

/// The store with the pads of these ids (of `scope`) removed, one by one.
pub open spec fn remove_ids(s: Seq<StoredV>, scope: Scope, ids: Seq<u128>) -> Seq<StoredV>
    decreases ids.len(),
{
    if ids.len() == 0 {
        s
    } else {
        let t = remove_ids(s, scope, ids.drop_last());
        match find_pad(t, scope, ids.last()) {
            Some(i) => t.remove(i),
            None => t,
        }
    }
}

/// The ids a purge removes: the selected pads and all their descendants,
/// each once.
pub open spec fn purge_ids(s: Seq<StoredV>, scope: Scope, u: Seq<SelectionV>) -> Seq<u128> {
    dedup(selection_ids(u) + dedup(all_descendants(scope_lin(s, scope), selection_ids(u))))
}

/// The outcome of a purge and the store after it. Nothing is removed unless
/// the purge is confirmed, and selected pads with descendants need the
/// recursive flag.
pub open spec fn purge_spec(
    s: Seq<StoredV>,
    scope: Scope,
    sels: Seq<SelectorV>,
    recursive: bool,
    confirmed: bool,
    include_done: bool,
) -> (Result<PurgeV, ErrorKind>, Seq<StoredV>) {
    match purge_selections(s, scope, sels, include_done) {
        Err(k) => (Err(k), s),
        Ok(c) => {
            let u = unique_selections(c);
            if u.len() == 0 {
                (Ok(PurgeV::Empty), s)
            } else if dedup(all_descendants(scope_lin(s, scope), selection_ids(u))).len() > 0 && !recursive {
                (Err(ErrorKind::Api), s)
            } else if !confirmed {
                (Err(ErrorKind::Api), s)
            } else {
                let all = purge_ids(s, scope, u);
                (
                    Ok(PurgeV::Purged { selected: u, total: all.len(), descendants: (all.len() - u.len()) as nat }),
                    remove_ids(s, scope, all),
                )
            }
        },
    }
}

/// How many of the pads have descendants.
pub open spec fn count_with_children(l: Seq<LinV>, ids: Seq<u128>) -> nat
    decreases ids.len(),
{
    if ids.len() == 0 {
        0
    } else {
        count_with_children(l, ids.drop_last()) + if dedup(all_descendants(l, seq![ids.last()])).len() > 0 {
            1nat
        } else {
            0nat
        }
    }
}

/// Whether `msg` is the text of a refused purge: a selector that fails is
/// named (see [`all_error_text`]); selected pads with descendants without
/// the recursive flag are counted; an unconfirmed purge gives the number of
/// pads it would remove. A failure to read the store has its own text.
#[verifier::opaque]
pub open spec fn purge_message(
    s: Seq<StoredV>,
    scope: Scope,
    sels: Seq<SelectorV>,
    recursive: bool,
    include_done: bool,
    msg: Seq<char>,
) -> bool {
    match purge_selections(s, scope, sels, include_done) {
        Err(ErrorKind::Api) => all_error_text(scope_lin(s, scope), sels, true, TitleBucket::Deleted, msg),
        Err(_) => true,
        Ok(c) => {
            let u = unique_selections(c);
            if dedup(all_descendants(scope_lin(s, scope), selection_ids(u))).len() > 0 && !recursive {
                msg == "Cannot purge: "@ + decimal(count_with_children(scope_lin(s, scope), selection_ids(u)))
                    + " pad(s) have children. Use --recursive (-r) to purge entire subtrees."@
            } else {
                msg == "Purging "@ + decimal(purge_ids(s, scope, u).len())
                    + " pad(s). Aborted, confirm with --yes or -y for hard deletion."@
            }
        },
    }
}

fn contains_id(v: &Vec<u128>, x: u128) -> (r: bool)
    ensures
        r == v@.contains(x),
{
    let mut i: usize = 0;
    while i < v.len()
        invariant
            i <= v.len(),
            forall|j: int| 0 <= j < i ==> v@[j] != x,
        decreases v.len() - i,
    {
        if v[i] == x {
            proof {
                assert(v@[i as int] == x);
            }
            return true;
        }
        i += 1;
    }
    false
}

proof fn lemma_unique_ids(c: Seq<SelectionV>)
    ensures
        selection_ids(unique_selections(c)).len() == unique_selections(c).len(),
        forall|i: int, j: int|
            0 <= i < j < unique_selections(c).len() ==> #[trigger] selection_ids(unique_selections(c))[i]
                != #[trigger] selection_ids(unique_selections(c))[j],
    decreases c.len(),
{
    if c.len() > 0 {
        lemma_unique_ids(c.drop_last());
        let r = unique_selections(c.drop_last());
        if !selection_ids(r).contains(c.last().1.pad.metadata.id) {
            assert(selection_ids(r.push(c.last())) =~= selection_ids(r).push(c.last().1.pad.metadata.id));
        }
    }
}

proof fn lemma_dedup_distinct(t: Seq<u128>)
    requires
        forall|i: int, j: int| 0 <= i < j < t.len() ==> #[trigger] t[i] != #[trigger] t[j],
    ensures
        dedup(t) == t,
    decreases t.len(),
{
    if t.len() > 0 {
        lemma_dedup_distinct(t.drop_last());
        assert(t.drop_last().push(t.last()) =~= t);
        if t.drop_last().contains(t.last()) {
            let j = choose|j: int| 0 <= j < t.drop_last().len() && t.drop_last()[j] == t.last();
            assert(t[j] == t[t.len() - 1]);
        }
    }
}

proof fn lemma_dedup_grows(s: Seq<u128>, k: int)
    requires
        0 <= k <= s.len(),
    ensures
        dedup(s.take(k)).len() <= dedup(s).len(),
    decreases s.len() - k,
{
    if k < s.len() {
        lemma_dedup_grows(s, k + 1);
        assert(s.take(k + 1).drop_last() =~= s.take(k));
    } else {
        assert(s.take(k) =~= s);
    }
}

/// Purge counts: a confirmed purge that removes pads selects each pad at most
/// once, and counts every removed pad either as a selection or as a
/// descendant, so the total is the selections plus the descendants.
pub proof fn lemma_purge_counts(
    s: Seq<StoredV>,
    scope: Scope,
    sels: Seq<SelectorV>,
    recursive: bool,
    include_done: bool,
)
    ensures
        match purge_spec(s, scope, sels, recursive, true, include_done).0 {
            Ok(PurgeV::Purged { selected, total, descendants }) => {
                &&& total == selected.len() + descendants
                &&& forall|i: int, j: int|
                    0 <= i < j < selected.len() ==> #[trigger] selected[i].1.pad.metadata.id
                        != #[trigger] selected[j].1.pad.metadata.id
            },
            _ => true,
        },
{
    match purge_selections(s, scope, sels, include_done) {
        Err(_) => {},
        Ok(c) => {
            let u = unique_selections(c);
            lemma_unique_ids(c);
            let ids = selection_ids(u);
            let joined = ids + dedup(all_descendants(scope_lin(s, scope), ids));
            lemma_dedup_distinct(ids);
            assert(joined.take(ids.len() as int) =~= ids);
            lemma_dedup_grows(joined, ids.len() as int);
            assert(purge_ids(s, scope, u) == dedup(joined));
            assert forall|i: int, j: int| 0 <= i < j < u.len() implies #[trigger] u[i].1.pad.metadata.id
                != #[trigger] u[j].1.pad.metadata.id by {
                assert(ids[i] == u[i].1.pad.metadata.id);
                assert(ids[j] == u[j].1.pad.metadata.id);
            }
        },
    }
}

proof fn lemma_remove_ids(s: Seq<StoredV>, scope: Scope, ids: Seq<u128>)
    requires
        crate::store::ids_unique(s),
    ensures
        crate::store::ids_unique(remove_ids(s, scope, ids)),
        forall|id: u128| #[trigger] ids.contains(id) ==> find_pad(remove_ids(s, scope, ids), scope, id) is None,
        forall|e: StoredV|
            #[trigger] s.contains(e) && !(e.scope == scope && ids.contains(e.pad.metadata.id)) ==> remove_ids(
                s,
                scope,
                ids,
            ).contains(e),
        forall|e: StoredV| #[trigger] remove_ids(s, scope, ids).contains(e) ==> s.contains(e),
    decreases ids.len(),
{
    if ids.len() > 0 {
        let pre = ids.drop_last();
        let x = ids.last();
        lemma_remove_ids(s, scope, pre);
        let t = remove_ids(s, scope, pre);
        crate::store::lemma_find_pad_some(t, scope, x);
        match find_pad(t, scope, x) {
            Some(i) => {
                let r = t.remove(i);
                assert forall|a: int, b: int|
                    0 <= a < r.len() && 0 <= b < r.len() && a != b && r[a].scope == r[b].scope implies #[trigger] r[a].pad.metadata.id
                    != #[trigger] r[b].pad.metadata.id by {
                    let a2 = if a < i { a } else { a + 1 };
                    let b2 = if b < i { b } else { b + 1 };
                    assert(r[a] == t[a2] && r[b] == t[b2]);
                }
                assert forall|e: StoredV| #[trigger] r.contains(e) implies s.contains(e) by {
                    let w = choose|w: int| 0 <= w < r.len() && r[w] == e;
                    let w2 = if w < i { w } else { w + 1 };
                    assert(t[w2] == e);
                    assert(t.contains(e));
                }
                assert forall|id: u128| #[trigger] ids.contains(id) implies find_pad(r, scope, id) is None by {
                    crate::store::lemma_find_pad_some(r, scope, id);
                    if find_pad(r, scope, id) is Some {
                        let j = find_pad(r, scope, id)->0;
                        let j2 = if j < i { j } else { j + 1 };
                        assert(r[j] == t[j2]);
                        if id == x {
                            assert(t[i].scope == scope && t[i].pad.metadata.id == x);
                            assert(j2 != i);
                        } else {
                            let k = choose|k: int| 0 <= k < ids.len() && ids[k] == id;
                            assert(pre[k] == id);
                            assert(pre.contains(id));
                            crate::store::lemma_find_pad_some(t, scope, id);
                        }
                    }
                }
                assert forall|e: StoredV|
                    #[trigger] s.contains(e) && !(e.scope == scope && ids.contains(e.pad.metadata.id)) implies r.contains(e) by {
                    if pre.contains(e.pad.metadata.id) {
                        let k = choose|k: int| 0 <= k < pre.len() && pre[k] == e.pad.metadata.id;
                        assert(ids[k] == e.pad.metadata.id);
                    }
                    assert(t.contains(e));
                    let w = choose|w: int| 0 <= w < t.len() && t[w] == e;
                    if w == i {
                        assert(ids[ids.len() - 1] == x);
                    } else {
                        let w2 = if w < i { w } else { w - 1 };
                        assert(r[w2] == e);
                    }
                }
            },
            None => {
                assert forall|id: u128| #[trigger] ids.contains(id) implies find_pad(t, scope, id) is None by {
                    if id != x {
                        let k = choose|k: int| 0 <= k < ids.len() && ids[k] == id;
                        assert(pre[k] == id);
                        assert(pre.contains(id));
                    }
                }
                assert forall|e: StoredV|
                    #[trigger] s.contains(e) && !(e.scope == scope && ids.contains(e.pad.metadata.id)) implies t.contains(e) by {
                    if pre.contains(e.pad.metadata.id) {
                        let k = choose|k: int| 0 <= k < pre.len() && pre[k] == e.pad.metadata.id;
                        assert(ids[k] == e.pad.metadata.id);
                    }
                }
            },
        }
    }
}

/// A confirmed purge removes exactly the selected pads and all their
/// descendants: afterwards no pad of the scope has one of those ids, every
/// other stored pad is still there, and nothing was added. The removed ids
/// are the selections followed by their descendants, each once.
pub proof fn lemma_purge_removes(
    s: Seq<StoredV>,
    scope: Scope,
    sels: Seq<SelectorV>,
    recursive: bool,
    include_done: bool,
)
    requires
        crate::store::ids_unique(s),
    ensures
        purge_spec(s, scope, sels, recursive, true, include_done).0 matches Ok(PurgeV::Purged { selected, total, descendants })
            ==> {
            let gone = dedup(selection_ids(selected) + all_descendants(scope_lin(s, scope), selection_ids(selected)));
            let t = purge_spec(s, scope, sels, recursive, true, include_done).1;
            &&& total == gone.len()
            &&& forall|id: u128| #[trigger] gone.contains(id) ==> find_pad(t, scope, id) is None
            &&& forall|e: StoredV|
                #[trigger] s.contains(e) && !(e.scope == scope && gone.contains(e.pad.metadata.id)) ==> t.contains(e)
            &&& forall|e: StoredV| #[trigger] t.contains(e) ==> s.contains(e)
        },
{
    match purge_selections(s, scope, sels, include_done) {
        Err(_) => {},
        Ok(c) => {
            let u = unique_selections(c);
            let ids = selection_ids(u);
            let d = all_descendants(scope_lin(s, scope), ids);
            let all = purge_ids(s, scope, u);
            crate::helpers::lemma_dedup_laws(ids + d);
            crate::helpers::lemma_dedup_laws(d);
            crate::helpers::lemma_dedup_laws(ids + dedup(d));
            assert forall|x: u128| #![trigger all.contains(x)] #![trigger dedup(ids + d).contains(x)]
                all.contains(x) == dedup(ids + d).contains(x) by {
                assert(dedup(ids + dedup(d)).contains(x) == (ids + dedup(d)).contains(x));
                assert(dedup(ids + d).contains(x) == (ids + d).contains(x));
                if (ids + dedup(d)).contains(x) {
                    let w = choose|w: int| 0 <= w < (ids + dedup(d)).len() && (ids + dedup(d))[w] == x;
                    if w < ids.len() {
                        assert((ids + d)[w] == x);
                    } else {
                        assert(dedup(d)[w - ids.len()] == x);
                        assert(dedup(d).contains(x));
                        let v = choose|v: int| 0 <= v < d.len() && d[v] == x;
                        assert((ids + d)[ids.len() + v] == x);
                    }
                }
                if (ids + d).contains(x) {
                    let w = choose|w: int| 0 <= w < (ids + d).len() && (ids + d)[w] == x;
                    if w < ids.len() {
                        assert((ids + dedup(d))[w] == x);
                    } else {
                        assert(d[w - ids.len()] == x);
                        assert(d.contains(x));
                        assert(dedup(d).contains(x));
                        let v = choose|v: int| 0 <= v < dedup(d).len() && dedup(d)[v] == x;
                        assert((ids + dedup(d))[ids.len() + v] == x);
                    }
                }
            }
            lemma_remove_ids(s, scope, all);
            lemma_purge_counts(s, scope, sels, recursive, include_done);
            if u.len() > 0 && !(dedup(d).len() > 0 && !recursive) {
                lemma_same_members_same_len(all, dedup(ids + d));
                let gone = dedup(ids + d);
                let t = remove_ids(s, scope, all);
                assert(purge_spec(s, scope, sels, recursive, true, include_done).1 == t);
                assert forall|id: u128| #[trigger] gone.contains(id) implies find_pad(t, scope, id) is None by {
                    assert(all.contains(id));
                }
                assert forall|e: StoredV|
                    #[trigger] s.contains(e) && !(e.scope == scope && gone.contains(e.pad.metadata.id)) implies t.contains(e) by {
                    assert(all.contains(e.pad.metadata.id) == gone.contains(e.pad.metadata.id));
                }
            }
        },
    }
}

/// Two sequences without repetitions and with the same members have the
/// same length.
proof fn lemma_same_members_same_len(a: Seq<u128>, b: Seq<u128>)
    requires
        forall|i: int, j: int| 0 <= i < j < a.len() ==> #[trigger] a[i] != #[trigger] a[j],
        forall|i: int, j: int| 0 <= i < j < b.len() ==> #[trigger] b[i] != #[trigger] b[j],
        forall|x: u128| #[trigger] a.contains(x) == b.contains(x),
    ensures
        a.len() == b.len(),
{
    assert(a.no_duplicates());
    assert(b.no_duplicates());
    a.unique_seq_to_set();
    b.unique_seq_to_set();
    assert(a.to_set() =~= b.to_set());
}

/// The selections before removing repetitions.
fn gather_selections(store: &Store, scope: Scope, selectors: &Vec<PadSelector>, include_done: bool) -> (r: Result<
    Vec<PurgeSelection>,
    PadzError,
>)
    ensures
        match purge_selections(store@, scope, selectors_view(selectors@), include_done) {
            Ok(c) => r matches Ok(v) && selections_view(v@) == c,
            Err(k) => r matches Err(e) && e.kind() == k && (e matches PadzError::Api(m) ==> all_error_text(
                scope_lin(store@, scope),
                selectors_view(selectors@),
                true,
                TitleBucket::Deleted,
                m@,
            )),
        },
{
    let mut out: Vec<PurgeSelection> = Vec::new();
    if selectors.len() == 0 {
        let roots = match indexed_pads(store, scope) {
            Ok(v) => v,
            Err(e) => return Err(e),
        };
        let l = linearize_tree(&roots);
        let ghost lv = lined_view(l@);
        let mut i: usize = 0;
        proof {
            assert(lv.take(0) =~= Seq::<LinV>::empty());
            assert(selections_view(out@) =~= Seq::<SelectionV>::empty());
        }
        while i < l.len()
            invariant
                lv == lined_view(l@),
                lv == scope_lin(store@, scope),
                i <= l.len(),
                selections_view(out@) == purgeable_selections(lv.take(i as int), include_done),
            decreases l.len() - i,
        {
            proof {
                assert(lv.take(i + 1).drop_last() =~= lv.take(i as int));
                assert(lv.take(i + 1).last() == lv[i as int]);
                assert(lv[i as int] == (l@[i as int].path@, dp_view(*l@[i as int].node)));
            }
            let d: &DisplayPad = l[i].node;
            let take = matches!(d.index, DisplayIndex::Deleted(_)) || (include_done && d.pad.metadata.status
                == TodoStatus::Done);
            if take {
                let sel = PurgeSelection { path: copy_path(&l[i].path), pad: dp_clone(d) };
                let ghost before = out@;
                out.push(sel);
                proof {
                    assert(selections_view(out@) =~= selections_view(before).push((sel.path@, dp_view(sel.pad))));
                }
            }
            i += 1;
        }
        proof {
            assert(lv.take(l.len() as int) =~= lv);
        }
        Ok(out)
    } else {
        let v = match pads_with_paths_by_selectors(store, scope, selectors, true, TitleBucket::Deleted) {
            Ok(v) => v,
            Err(e) => return Err(e),
        };
        let ghost pv = path_pads_view(v@);
        let mut i: usize = 0;
        while i < v.len()
            invariant
                pv == path_pads_view(v@),
                i <= v.len(),
                selections_view(out@) == pv.take(i as int),
            decreases v.len() - i,
        {
            let sel = PurgeSelection { path: copy_path(&v[i].0), pad: dp_clone(&v[i].1) };
            let ghost before = out@;
            out.push(sel);
            proof {
                assert(selections_view(out@) =~= selections_view(before).push((sel.path@, dp_view(sel.pad))));
                assert(pv.take(i + 1) =~= pv.take(i as int).push(pv[i as int]));
            }
            i += 1;
        }
        proof {
            let x = resolve_all(scope_lin(store@, scope), selectors_view(selectors@), true, TitleBucket::Deleted)->Ok_0;
            assert(pv.take(v.len() as int) =~= pv);
            assert(pv =~= fetched_selections(store@, scope, x));
        }
        Ok(out)
    }
}

/// Removes repetitions, keeping the first selection of each pad.
fn unique_of(c: &Vec<PurgeSelection>) -> (r: Vec<PurgeSelection>)
    ensures
        selections_view(r@) == unique_selections(selections_view(c@)),
{
    let ghost cv = selections_view(c@);
    let mut out: Vec<PurgeSelection> = Vec::new();
    let mut seen: Vec<u128> = Vec::new();
    let mut i: usize = 0;
    proof {
        assert(cv.take(0) =~= Seq::<SelectionV>::empty());
        assert(selections_view(out@) =~= Seq::<SelectionV>::empty());
        assert(seen@ =~= selection_ids(selections_view(out@)));
    }
    while i < c.len()
        invariant
            cv == selections_view(c@),
            i <= c.len(),
            selections_view(out@) == unique_selections(cv.take(i as int)),
            seen@ == selection_ids(selections_view(out@)),
        decreases c.len() - i,
    {
        proof {
            assert(cv.take(i + 1).drop_last() =~= cv.take(i as int));
            assert(cv.take(i + 1).last() == cv[i as int]);
        }
        let id = c[i].pad.pad.metadata.id;
        if !contains_id(&seen, id) {
            let sel = PurgeSelection { path: copy_path(&c[i].path), pad: dp_clone(&c[i].pad) };
            let ghost before = out@;
            out.push(sel);
            seen.push(id);
            proof {
                assert(selections_view(out@) =~= selections_view(before).push((sel.path@, dp_view(sel.pad))));
                assert(seen@ =~= selection_ids(selections_view(out@)));
            }
        }
        i += 1;
    }
    proof {
        assert(cv.take(c.len() as int) =~= cv);
    }
    out
}

/// The refusal of a purge whose selected pads have descendants while the
/// recursive flag is off: it counts the selected pads that have any.
fn children_refusal(store: &Store, scope: Scope, targets: &Vec<u128>) -> (m: String)
    ensures
        m@ == "Cannot purge: "@ + decimal(count_with_children(scope_lin(store@, scope), targets@))
            + " pad(s) have children. Use --recursive (-r) to purge entire subtrees."@,
{
    let mut with_children: usize = 0;
    let mut j: usize = 0;
    proof {
        assert(targets@.take(0) =~= Seq::<u128>::empty());
    }
    while j < targets.len()
        invariant
            j <= targets.len(),
            with_children <= j,
            with_children == count_with_children(scope_lin(store@, scope), targets@.take(j as int)),
        decreases targets.len() - j,
    {
        let mut one: Vec<u128> = Vec::new();
        one.push(targets[j]);
        proof {
            assert(targets@.take(j + 1).drop_last() =~= targets@.take(j as int));
            assert(one@ =~= seq![targets@.take(j + 1).last()]);
        }
        match get_descendant_ids(store, scope, &one) {
            Ok(d) => {
                if d.len() > 0 {
                    with_children += 1;
                }
            },
            Err(_) => {},
        }
        j += 1;
    }
    let mut m = lit("Cannot purge: ");
    append_chars(&mut m, &decimal_chars(with_children));
    append_chars(&mut m, &lit(" pad(s) have children. Use --recursive (-r) to purge entire subtrees."));
    proof {
        assert(targets@.take(targets.len() as int) =~= targets@);
        assert(m@ =~= "Cannot purge: "@ + decimal(count_with_children(scope_lin(store@, scope), targets@))
            + " pad(s) have children. Use --recursive (-r) to purge entire subtrees."@);
    }
    string_from_chars(&m)
}

/// The refusal of an unconfirmed purge of `total` pads.
fn unconfirmed_refusal(total: usize) -> (m: String)
    ensures
        m@ == "Purging "@ + decimal(total as nat) + " pad(s). Aborted, confirm with --yes or -y for hard deletion."@,
{
    let mut m = lit("Purging ");
    append_chars(&mut m, &decimal_chars(total));
    append_chars(&mut m, &lit(" pad(s). Aborted, confirm with --yes or -y for hard deletion."));
    proof {
        assert(m@ =~= "Purging "@ + decimal(total as nat)
            + " pad(s). Aborted, confirm with --yes or -y for hard deletion."@);
    }
    string_from_chars(&m)
}

/// What purging gives: the store and the result as [`purge_spec`] says.
pub open spec fn purge_result(
    s: Seq<StoredV>,
    t: Seq<StoredV>,
    scope: Scope,
    sels: Seq<crate::index::SelectorV>,
    recursive: bool,
    confirmed: bool,
    include_done: bool,
    r: Result<PurgeOutcome, PadzError>,
) -> bool {
    let (o, u) = purge_spec(s, scope, sels, recursive, confirmed, include_done);
    &&& t == u
    &&& match o {
        Ok(v) => r matches Ok(x) && outcome_view(x) == v,
        Err(k) => r matches Err(e) && e.kind() == k && (e matches PadzError::Api(m) ==> purge_message(
            s,
            scope,
            sels,
            recursive,
            include_done,
            m@,
        )),
    }
}

/// Permanently removes pads (see [`purge_spec`]).
///
/// Without selectors it takes every deleted pad, at any depth, and the done ones
/// too when `include_done` is set; with selectors, the pads they designate.
/// Each pad counts once. Selected pads with descendants are refused unless
/// `recursive` is set, and nothing is removed unless `confirmed` is set.
#[verifier::rlimit(40)]
pub fn run(
    store: &mut Store,
    scope: Scope,
    selectors: &Vec<PadSelector>,
    recursive: bool,
    confirmed: bool,
    include_done: bool,
) -> (r: Result<PurgeOutcome, PadzError>)
    ensures
        purge_result(old(store)@, final(store)@, scope, selectors_view(selectors@), recursive, confirmed, include_done, r),
{
    let ghost s0 = store@;
    let gathered = match gather_selections(store, scope, selectors, include_done) {
        Ok(v) => v,
        Err(e) => {
            proof {
                reveal(purge_message);
            }
            return Err(e);
        },
    };
    let selected = unique_of(&gathered);
    if selected.len() == 0 {
        return Ok(PurgeOutcome::Empty);
    }
    let ghost u = selections_view(selected@);
    let mut targets: Vec<u128> = Vec::new();
    let mut i: usize = 0;
    while i < selected.len()
        invariant
            u == selections_view(selected@),
            i <= selected.len(),
            targets@ == selection_ids(u.take(i as int)),
        decreases selected.len() - i,
    {
        targets.push(selected[i].pad.pad.metadata.id);
        proof {
            assert(selection_ids(u.take(i + 1)) =~= selection_ids(u.take(i as int)).push(u[i as int].1.pad.metadata.id));
        }
        i += 1;
    }
    proof {
        assert(u.take(selected.len() as int) =~= u);
    }
    let descendants = match get_descendant_ids(store, scope, &targets) {
        Ok(d) => d,
        Err(e) => return Err(e),
    };
    if descendants.len() > 0 && !recursive {
        let m = children_refusal(store, scope, &targets);
        proof {
            assert(targets@ == selection_ids(u));
            reveal(purge_message);
        }
        return Err(PadzError::Api(m));
    }
    let mut all_ids: Vec<u128> = Vec::new();
    let ghost joined = targets@ + descendants@;
    let mut k: usize = 0;
    proof {
        assert(joined.take(0) =~= Seq::<u128>::empty());
    }
    while k < targets.len()
        invariant
            joined == targets@ + descendants@,
            k <= targets.len(),
            all_ids@ == dedup(joined.take(k as int)),
        decreases targets.len() - k,
    {
        let id = targets[k];
        proof {
            assert(joined.take(k + 1).drop_last() =~= joined.take(k as int));
            assert(joined.take(k + 1).last() == id);
        }
        if !contains_id(&all_ids, id) {
            all_ids.push(id);
        }
        k += 1;
    }
    let mut k2: usize = 0;
    while k2 < descendants.len()
        invariant
            joined == targets@ + descendants@,
            k2 <= descendants.len(),
            all_ids@ == dedup(joined.take(targets.len() + k2)),
        decreases descendants.len() - k2,
    {
        let id = descendants[k2];
        proof {
            assert(joined.take(targets.len() + k2 + 1).drop_last() =~= joined.take(targets.len() + k2));
            assert(joined.take(targets.len() + k2 + 1).last() == id);
        }
        if !contains_id(&all_ids, id) {
            all_ids.push(id);
        }
        k2 += 1;
    }
    proof {
        assert(joined.take(joined.len() as int) =~= joined);
        lemma_unique_ids(selections_view(gathered@));
        assert(targets@ == selection_ids(u));
        lemma_dedup_distinct(targets@);
        assert(joined.take(targets.len() as int) =~= targets@);
        lemma_dedup_grows(joined, targets.len() as int);
    }
    let total = all_ids.len();
    let descendant_count = total - selected.len();
    if !confirmed {
        proof {
            assert(all_ids@ == purge_ids(s0, scope, u));
            reveal(purge_message);
        }
        return Err(PadzError::Api(unconfirmed_refusal(total)));
    }
    let mut n: usize = 0;
    proof {
        assert(all_ids@.take(0) =~= Seq::<u128>::empty());
    }
    while n < all_ids.len()
        invariant
            n <= all_ids.len(),
            store@ == remove_ids(s0, scope, all_ids@.take(n as int)),
        decreases all_ids.len() - n,
    {
        let id = all_ids[n];
        proof {
            assert(all_ids@.take(n + 1).drop_last() =~= all_ids@.take(n as int));
            assert(all_ids@.take(n + 1).last() == id);
        }
        if store.contains(id, scope, Bucket::Deleted) {
            match store.delete_pad(id, scope, Bucket::Deleted) {
                Ok(()) => {},
                Err(e) => return Err(e),
            }
        } else if store.contains(id, scope, Bucket::Active) {
            match store.delete_pad(id, scope, Bucket::Active) {
                Ok(()) => {},
                Err(e) => return Err(e),
            }
        } else if store.contains(id, scope, Bucket::Archived) {
            match store.delete_pad(id, scope, Bucket::Archived) {
                Ok(()) => {},
                Err(e) => return Err(e),
            }
        }
        n += 1;
    }
    proof {
        assert(all_ids@.take(all_ids.len() as int) =~= all_ids@);
    }
    Ok(PurgeOutcome::Purged { selected_pads: selected, total_purged: total, descendant_count })
}

} // verus!
