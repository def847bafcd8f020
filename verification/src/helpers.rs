//! Shared helpers of the commands: fetching selected pads, subtrees and
//! nested listings.
use vstd::prelude::*;
use crate::error::PadzError;
use crate::index::{copy_path, DisplayIndex, PadSelector};
use crate::model::{Bucket, PadV, Scope};
use crate::resolve::{
    all_error_text, find_id, lined_view, linearize, linearize_tree, lin_forest, resolve_all, resolve_selectors,
    resolved_view, scope_lin, selectors_view, LinV, Lined, TitleBucket,
};
use crate::store::{find_pad, indexed_pads, stored_in, Store, StoredV};
use crate::tree::{
    dp_clone, dp_flat, dp_view, dps_view, flat_dp, DisplayPad, DisplayPadV, lemma_dps_view_index,
    lemma_dps_view_push,
};

verus! {

/// The storage bucket of a pad with this display index.
pub open spec fn spec_bucket_for(i: DisplayIndex) -> Bucket {
    match i {
        DisplayIndex::Pinned(_) | DisplayIndex::Regular(_) => Bucket::Active,
        DisplayIndex::Archived(_) => Bucket::Archived,
        DisplayIndex::Deleted(_) => Bucket::Deleted,
    }
}

/// Determines the storage bucket for a pad based on its display index.
pub fn bucket_for_index(i: &DisplayIndex) -> (r: Bucket)
    ensures
        r == spec_bucket_for(*i),
{
    match i {
        DisplayIndex::Pinned(_) | DisplayIndex::Regular(_) => Bucket::Active,
        DisplayIndex::Archived(_) => Bucket::Archived,
        DisplayIndex::Deleted(_) => Bucket::Deleted,
    }
}

/// The last segment of a path (`Regular(0)` for the empty path).
pub open spec fn local_index(p: Seq<DisplayIndex>) -> DisplayIndex {
    if p.len() > 0 {
        p.last()
    } else {
        DisplayIndex::Regular(0)
    }
}

/// Every resolved pad is stored in the bucket its local index names.
pub open spec fn all_fetchable(s: Seq<StoredV>, scope: Scope, x: Seq<(Seq<DisplayIndex>, u128)>) -> bool {
    forall|k: int| 0 <= k < x.len() ==> #[trigger] stored_in(s, scope, x[k].1, spec_bucket_for(local_index(x[k].0)))
}

/// The flat pad fetched for a resolved path and id.
pub open spec fn fetched(s: Seq<StoredV>, scope: Scope, p: Seq<DisplayIndex>, id: u128) -> DisplayPadV {
    flat_dp(s[find_pad(s, scope, id)->0].pad, local_index(p))
}

pub open spec fn path_pads_view(v: Seq<(Vec<DisplayIndex>, DisplayPad)>) -> Seq<(Seq<DisplayIndex>, DisplayPadV)> {
    v.map_values(|x: (Vec<DisplayIndex>, DisplayPad)| (x.0@, dp_view(x.1)))
}

/// Resolves selectors and fetches each pad from the store, paired with its
/// full display path; each pad carries its local index and no children.
pub fn pads_with_paths_by_selectors(
    store: &Store,
    scope: Scope,
    selectors: &Vec<PadSelector>,
    check_delete_protection: bool,
    title_bucket: TitleBucket,
) -> (r: Result<Vec<(Vec<DisplayIndex>, DisplayPad)>, PadzError>)
    ensures
        match resolve_all(scope_lin(store@, scope), selectors_view(selectors@), check_delete_protection, title_bucket) {
            Ok(x) => if all_fetchable(store@, scope, x) {
                r matches Ok(v) && v@.len() == x.len() && forall|k: int| 0 <= k < x.len() ==>
                    #[trigger] path_pads_view(v@)[k] == (x[k].0, fetched(store@, scope, x[k].0, x[k].1))
            } else {
                r matches Err(PadzError::Store(m)) && m@ == "Pad not found"@
            },
            Err(_) => r matches Err(PadzError::Api(m)) && all_error_text(
                scope_lin(store@, scope),
                selectors_view(selectors@),
                check_delete_protection,
                title_bucket,
                m@,
            ),
        },
{
    let resolved = match resolve_selectors(store, scope, selectors, check_delete_protection, title_bucket) {
        Ok(v) => v,
        Err(e) => return Err(e),
    };
    let ghost x = resolved_view(resolved@);
    let mut out: Vec<(Vec<DisplayIndex>, DisplayPad)> = Vec::new();
    let mut k: usize = 0;
    while k < resolved.len()
        invariant
            x == resolved_view(resolved@),
            resolve_all(scope_lin(store@, scope), selectors_view(selectors@), check_delete_protection, title_bucket) == Ok::<Seq<(Seq<DisplayIndex>, u128)>, ()>(x),
            k <= resolved.len(),
            out@.len() == k,
            forall|j: int| 0 <= j < k ==> #[trigger] stored_in(store@, scope, x[j].1, spec_bucket_for(local_index(x[j].0))),
            forall|j: int| 0 <= j < k ==> #[trigger] path_pads_view(out@)[j] == (x[j].0, fetched(store@, scope, x[j].0, x[j].1)),
        decreases resolved.len() - k,
    {
        let path = &resolved[k].0;
        let id = resolved[k].1;
        let local = if path.len() > 0 { path[path.len() - 1] } else { DisplayIndex::Regular(0) };
        let bucket = bucket_for_index(&local);
        let pad = match store.get_pad(id, scope, bucket) {
            Ok(p) => p,
            Err(e) => {
                return Err(e);
            },
        };
        let dp = DisplayPad { pad, index: local, matches: None, children: Vec::new() };
        proof {
            assert(dps_view(dp.children@) =~= Seq::<DisplayPadV>::empty());
        }
        let ghost before = out@;
        let item = (copy_path(path), dp);
        out.push(item);
        proof {
            assert(path_pads_view(out@) =~= path_pads_view(before).push((item.0@, dp_view(item.1))));
            assert(dp_view(item.1) == fetched(store@, scope, x[k as int].0, x[k as int].1));
        }
        k += 1;
    }
    Ok(out)
}

pub open spec fn flat_pads_view(v: Seq<DisplayPad>) -> Seq<DisplayPadV> {
    v.map_values(|d: DisplayPad| dp_view(d))
}

/// Resolves selectors and fetches each pad from the store; each pad carries
/// its local index and no children (see [`pads_with_paths_by_selectors`]).
pub fn pads_by_selectors(
    store: &Store,
    scope: Scope,
    selectors: &Vec<PadSelector>,
    check_delete_protection: bool,
    title_bucket: TitleBucket,
) -> (r: Result<Vec<DisplayPad>, PadzError>)
    ensures
        match resolve_all(scope_lin(store@, scope), selectors_view(selectors@), check_delete_protection, title_bucket) {
            Ok(x) => if all_fetchable(store@, scope, x) {
                r matches Ok(v) && v@.len() == x.len() && forall|k: int| 0 <= k < x.len() ==>
                    #[trigger] flat_pads_view(v@)[k] == fetched(store@, scope, x[k].0, x[k].1)
            } else {
                r matches Err(PadzError::Store(m)) && m@ == "Pad not found"@
            },
            Err(_) => r matches Err(PadzError::Api(m)) && all_error_text(
                scope_lin(store@, scope),
                selectors_view(selectors@),
                check_delete_protection,
                title_bucket,
                m@,
            ),
        },
{
    let with_paths = match pads_with_paths_by_selectors(store, scope, selectors, check_delete_protection, title_bucket) {
        Ok(v) => v,
        Err(e) => return Err(e),
    };
    let ghost wv = path_pads_view(with_paths@);
    let mut out: Vec<DisplayPad> = Vec::new();
    let mut k: usize = 0;
    while k < with_paths.len()
        invariant
            wv == path_pads_view(with_paths@),
            k <= with_paths.len(),
            out@.len() == k,
            forall|j: int| 0 <= j < k ==> #[trigger] flat_pads_view(out@)[j] == wv[j].1,
        decreases with_paths.len() - k,
    {
        let ghost before = out@;
        let c = dp_clone(&with_paths[k].1);
        out.push(c);
        proof {
            assert(flat_pads_view(out@) =~= flat_pads_view(before).push(dp_view(c)));
        }
        k += 1;
    }
    Ok(out)
}

// ---------------------------------------------------------------------------
// Subtrees
// ---------------------------------------------------------------------------

/// The ids of a node's descendants, in pre-order.
pub open spec fn subtree_ids(n: DisplayPadV) -> Seq<u128> {
    lin_forest(n.children, Seq::empty()).map_values(|x: LinV| x.1.pad.metadata.id)
}

/// The descendants of the first node holding the pad `id` (none if absent).
/// The ids along a walk.
pub open spec fn lin_ids(l: Seq<LinV>) -> Seq<u128> {
    l.map_values(|x: LinV| x.1.pad.metadata.id)
}

proof fn lemma_lin_ids_concat(a: Seq<LinV>, b: Seq<LinV>)
    ensures
        lin_ids(a + b) == lin_ids(a) + lin_ids(b),
{
    assert(lin_ids(a + b) =~= lin_ids(a) + lin_ids(b));
}

proof fn lemma_node_ids_prefix(n: DisplayPadV, p: Seq<DisplayIndex>, q: Seq<DisplayIndex>)
    ensures
        lin_ids(crate::resolve::lin_node(n, p)) == seq![n.pad.metadata.id] + lin_ids(lin_forest(n.children, q)),
    decreases n,
{
    lemma_forest_ids_prefix(n.children, p.push(n.index), q);
    lemma_lin_ids_concat(seq![(p.push(n.index), n)], lin_forest(n.children, p.push(n.index)));
    assert(lin_ids(seq![(p.push(n.index), n)]) =~= seq![n.pad.metadata.id]);
}

proof fn lemma_forest_ids_prefix(s: Seq<DisplayPadV>, p: Seq<DisplayIndex>, q: Seq<DisplayIndex>)
    ensures
        lin_ids(lin_forest(s, p)) == lin_ids(lin_forest(s, q)),
    decreases s,
{
    if s.len() > 0 {
        lemma_forest_ids_prefix(s.drop_last(), p, q);
        lemma_node_ids_prefix(s.last(), p, q);
        lemma_node_ids_prefix(s.last(), q, q);
        lemma_lin_ids_concat(lin_forest(s.drop_last(), p), crate::resolve::lin_node(s.last(), p));
        lemma_lin_ids_concat(lin_forest(s.drop_last(), q), crate::resolve::lin_node(s.last(), q));
    }
}

proof fn lemma_forest_members(s: Seq<DisplayPadV>)
    ensures
        forall|x: u128|
            #[trigger] lin_ids(lin_forest(s, Seq::empty())).contains(x) <==> exists|k: int|
                0 <= k < s.len() && ((#[trigger] s[k]).pad.metadata.id == x || subtree_ids(s[k]).contains(x)),
    decreases s.len(),
{
    if s.len() > 0 {
        let t = s.drop_last();
        let n = s.last();
        let e = Seq::<DisplayIndex>::empty();
        lemma_forest_members(t);
        lemma_node_ids_prefix(n, e, e);
        lemma_lin_ids_concat(lin_forest(t, e), crate::resolve::lin_node(n, e));
        let a = lin_ids(lin_forest(t, e));
        let b = seq![n.pad.metadata.id] + lin_ids(lin_forest(n.children, e));
        assert(subtree_ids(n) == lin_ids(lin_forest(n.children, e)));
        assert forall|x: u128| #[trigger] lin_ids(lin_forest(s, Seq::empty())).contains(x) <==> exists|k: int|
            0 <= k < s.len() && ((#[trigger] s[k]).pad.metadata.id == x || subtree_ids(s[k]).contains(x)) by {
            assert(lin_ids(lin_forest(s, e)) == a + b);
            if (a + b).contains(x) {
                let w = choose|w: int| 0 <= w < (a + b).len() && (a + b)[w] == x;
                if w < a.len() {
                    assert(a[w] == x);
                    assert(a.contains(x));
                    let k = choose|k: int| 0 <= k < t.len() && ((#[trigger] t[k]).pad.metadata.id == x || subtree_ids(t[k]).contains(x));
                    assert(s[k] == t[k]);
                } else if w == a.len() {
                    assert(s[s.len() - 1] == n);
                } else {
                    assert(subtree_ids(n)[w - a.len() - 1] == x);
                    assert(subtree_ids(n).contains(x));
                    assert(s[s.len() - 1] == n);
                }
            }
            if exists|k: int| 0 <= k < s.len() && ((#[trigger] s[k]).pad.metadata.id == x || subtree_ids(s[k]).contains(x)) {
                let k = choose|k: int| 0 <= k < s.len() && ((#[trigger] s[k]).pad.metadata.id == x || subtree_ids(s[k]).contains(x));
                if k < s.len() - 1 {
                    assert(t[k] == s[k]);
                    assert(a.contains(x));
                    let w = choose|w: int| 0 <= w < a.len() && a[w] == x;
                    assert((a + b)[w] == x);
                } else if n.pad.metadata.id == x {
                    assert((a + b)[a.len() as int] == x);
                } else {
                    let w = choose|w: int| 0 <= w < subtree_ids(n).len() && subtree_ids(n)[w] == x;
                    assert((a + b)[a.len() + 1 + w] == x);
                }
            }
        }
    }
}

/// The descendants of a pad are its whole subtree: its children, and the
/// descendants of each child, and nothing else.
pub proof fn lemma_subtree_ids_law(n: DisplayPadV)
    ensures
        forall|k: int| 0 <= k < n.children.len() ==> subtree_ids(n).contains((#[trigger] n.children[k]).pad.metadata.id),
        forall|k: int, x: u128|
            0 <= k < n.children.len() && #[trigger] subtree_ids(n.children[k]).contains(x) ==> subtree_ids(n).contains(x),
        forall|x: u128|
            #[trigger] subtree_ids(n).contains(x) ==> exists|k: int|
                0 <= k < n.children.len() && ((#[trigger] n.children[k]).pad.metadata.id == x || subtree_ids(
                    n.children[k],
                ).contains(x)),
{
    lemma_forest_members(n.children);
    assert(subtree_ids(n) == lin_ids(lin_forest(n.children, Seq::empty())));
    assert forall|k: int| 0 <= k < n.children.len() implies subtree_ids(n).contains(
        (#[trigger] n.children[k]).pad.metadata.id,
    ) by {
        assert(lin_ids(lin_forest(n.children, Seq::empty())).contains(n.children[k].pad.metadata.id));
    }
    assert forall|k: int, x: u128|
        0 <= k < n.children.len() && #[trigger] subtree_ids(n.children[k]).contains(x) implies subtree_ids(n).contains(x) by {
        assert(lin_ids(lin_forest(n.children, Seq::empty())).contains(x));
    }
}

pub open spec fn descendants_of(l: Seq<LinV>, id: u128) -> Seq<u128> {
    match find_id(l, id, 0) {
        Some(k) => subtree_ids(l[k].1),
        None => Seq::empty(),
    }
}

/// `s` without repetitions, keeping first occurrences.
pub open spec fn dedup(s: Seq<u128>) -> Seq<u128>
    decreases s.len(),
{
    if s.len() == 0 {
        Seq::empty()
    } else {
        let d = dedup(s.drop_last());
        if d.contains(s.last()) {
            d
        } else {
            d.push(s.last())
        }
    }
}

/// The descendants of all targets, concatenated in target order.
pub open spec fn all_descendants(l: Seq<LinV>, targets: Seq<u128>) -> Seq<u128>
    decreases targets.len(),
{
    if targets.len() == 0 {
        Seq::empty()
    } else {
        all_descendants(l, targets.drop_last()) + descendants_of(l, targets.last())
    }
}

proof fn lemma_dedup_push(s: Seq<u128>, x: u128)
    ensures
        dedup(s.push(x)) == if dedup(s).contains(x) {
            dedup(s)
        } else {
            dedup(s).push(x)
        },
{
    assert(s.push(x).drop_last() =~= s);
}

/// Removing repetitions keeps exactly the same ids, each once.
pub proof fn lemma_dedup_laws(s: Seq<u128>)
    ensures
        forall|x: u128| #[trigger] dedup(s).contains(x) <==> s.contains(x),
        forall|i: int, j: int| 0 <= i < j < dedup(s).len() ==> #[trigger] dedup(s)[i] != #[trigger] dedup(s)[j],
    decreases s.len(),
{
    if s.len() > 0 {
        let t = s.drop_last();
        let y = s.last();
        lemma_dedup_laws(t);
        let d = dedup(t);
        assert(dedup(s) == if d.contains(y) { d } else { d.push(y) });
        assert forall|x: u128| #[trigger] dedup(s).contains(x) <==> s.contains(x) by {
            assert(d.contains(x) == t.contains(x));
            if !d.contains(y) {
                if d.push(y).contains(x) {
                    let w = choose|w: int| 0 <= w < d.push(y).len() && d.push(y)[w] == x;
                    if w < d.len() {
                        assert(d[w] == x);
                    }
                }
                if d.contains(x) {
                    let w = choose|w: int| 0 <= w < d.len() && d[w] == x;
                    assert(d.push(y)[w] == x);
                }
                assert(d.push(y)[d.len() as int] == y);
            }
            if s.contains(x) {
                let k = choose|k: int| 0 <= k < s.len() && s[k] == x;
                if k < s.len() - 1 {
                    assert(t[k] == x);
                }
            }
            if t.contains(x) {
                let k = choose|k: int| 0 <= k < t.len() && t[k] == x;
                assert(s[k] == x);
            }
            if x == y {
                assert(s[s.len() - 1] == y);
            }
        }
        if !d.contains(y) {
            assert forall|i: int, j: int| 0 <= i < j < d.push(y).len() implies #[trigger] d.push(y)[i]
                != #[trigger] d.push(y)[j] by {
                assert(d.push(y)[i] == d[i]);
                if j == d.len() {
                    assert(d.push(y)[j] == y);
                } else {
                    assert(d.push(y)[j] == d[j]);
                }
            }
        }
    }
}

/// The descendants of some targets, each once: an id is there exactly when
/// it is in the subtree below one of the targets.
pub proof fn lemma_descendant_set(l: Seq<LinV>, targets: Seq<u128>)
    ensures
        forall|x: u128|
            #[trigger] dedup(all_descendants(l, targets)).contains(x) <==> exists|k: int|
                0 <= k < targets.len() && #[trigger] descendants_of(l, targets[k]).contains(x),
        forall|i: int, j: int|
            0 <= i < j < dedup(all_descendants(l, targets)).len() ==> #[trigger] dedup(all_descendants(l, targets))[i]
                != #[trigger] dedup(all_descendants(l, targets))[j],
    decreases targets.len(),
{
    lemma_dedup_laws(all_descendants(l, targets));
    if targets.len() > 0 {
        let t = targets.drop_last();
        lemma_descendant_set(l, t);
        lemma_dedup_laws(all_descendants(l, t));
        let a = all_descendants(l, t);
        let d = descendants_of(l, targets.last());
        assert forall|x: u128| #[trigger] dedup(all_descendants(l, targets)).contains(x) <==> exists|k: int|
            0 <= k < targets.len() && #[trigger] descendants_of(l, targets[k]).contains(x) by {
            assert(all_descendants(l, targets) == a + d);
            assert(dedup(a + d).contains(x) == (a + d).contains(x));
            if (a + d).contains(x) {
                let w = choose|w: int| 0 <= w < (a + d).len() && (a + d)[w] == x;
                if w < a.len() {
                    assert(a[w] == x);
                    assert(a.contains(x));
                    assert(dedup(a).contains(x));
                    let k = choose|k: int| 0 <= k < t.len() && #[trigger] descendants_of(l, t[k]).contains(x);
                    assert(targets[k] == t[k]);
                } else {
                    assert(d[w - a.len()] == x);
                    assert(targets[targets.len() - 1] == targets.last());
                    assert(d.contains(x));
                    assert(descendants_of(l, targets[targets.len() - 1]).contains(x));
                }
            }
            if exists|k: int| 0 <= k < targets.len() && #[trigger] descendants_of(l, targets[k]).contains(x) {
                let k = choose|k: int| 0 <= k < targets.len() && #[trigger] descendants_of(l, targets[k]).contains(x);
                if k < targets.len() - 1 {
                    assert(t[k] == targets[k]);
                    assert(dedup(a).contains(x));
                    assert(a.contains(x));
                    let w = choose|w: int| 0 <= w < a.len() && a[w] == x;
                    assert((a + d)[w] == x);
                } else {
                    let w = choose|w: int| 0 <= w < d.len() && d[w] == x;
                    assert((a + d)[a.len() + w] == x);
                }
            }
        }
    }
}

fn contains_u128(v: &Vec<u128>, x: u128) -> (r: bool)
    ensures
        r == v@.contains(x),
{
    let mut i: usize = 0;
    while i < v.len()
        invariant
            i <= v.len(),
            forall|j: int| 0 <= j < i ==> v@[j] != x,
        decreases v.len() - i,
    {
        if v[i] == x {
            proof {
                assert(v@[i as int] == x);
            }
            return true;
        }
        i += 1;
    }
    false
}

fn find_id_in(l: &Vec<Lined>, id: u128) -> (r: Option<usize>)
    ensures
        match r {
            Some(k) => find_id(lined_view(l@), id, 0) == Some(k as int) && k < l@.len(),
            None => find_id(lined_view(l@), id, 0) is None,
        },
{
    let ghost lv = lined_view(l@);
    let mut k: usize = 0;
    while k < l.len()
        invariant
            lv == lined_view(l@),
            k <= l.len(),
            find_id(lv, id, 0) == find_id(lv, id, k as int),
        decreases l.len() - k,
    {
        if l[k].node.pad.metadata.id == id {
            return Some(k);
        }
        k += 1;
    }
    None
}

/// The ids of the descendants of the targets in the scope's tree, each once,
/// in the order found.
pub fn get_descendant_ids(store: &Store, scope: Scope, targets: &Vec<u128>) -> (r: Result<Vec<u128>, PadzError>)
    ensures
        r matches Ok(v) && v@ == dedup(all_descendants(scope_lin(store@, scope), targets@)),
{
    let roots = match indexed_pads(store, scope) {
        Ok(r) => r,
        Err(e) => return Err(e),
    };
    let l = linearize_tree(&roots);
    let ghost lv = lined_view(l@);
    let mut out: Vec<u128> = Vec::new();
    let ghost mut acc: Seq<u128> = Seq::empty();
    let mut t: usize = 0;
    while t < targets.len()
        invariant
            lv == lined_view(l@),
            lv == scope_lin(store@, scope),
            t <= targets.len(),
            acc == all_descendants(lv, targets@.take(t as int)),
            out@ == dedup(acc),
        decreases targets.len() - t,
    {
        proof {
            assert(targets@.take(t + 1).drop_last() =~= targets@.take(t as int));
        }
        match find_id_in(&l, targets[t]) {
            Some(k) => {
                let node: &DisplayPad = l[k].node;
                let sub = linearize_tree(&node.children);
                let ghost ids = lined_view(sub@).map_values(|x: LinV| x.1.pad.metadata.id);
                proof {
                    assert(ids == subtree_ids(lv[k as int].1));
                }
                let mut j: usize = 0;
                while j < sub.len()
                    invariant
                        ids == lined_view(sub@).map_values(|x: LinV| x.1.pad.metadata.id),
                        j <= sub.len(),
                        out@ == dedup(acc + ids.take(j as int)),
                    decreases sub.len() - j,
                {
                    let id = sub[j].node.pad.metadata.id;
                    proof {
                        assert((acc + ids.take(j + 1)) =~= (acc + ids.take(j as int)).push(id));
                        lemma_dedup_push(acc + ids.take(j as int), id);
                    }
                    if !contains_u128(&out, id) {
                        out.push(id);
                    }
                    j += 1;
                }
                proof {
                    assert(ids.take(ids.len() as int) =~= ids);
                    acc = acc + ids;
                }
            },
            None => {
                proof {
                    assert(acc + Seq::<u128>::empty() =~= acc);
                }
            },
        }
        proof {
            assert(acc == all_descendants(lv, targets@.take(t + 1)));
        }
        t += 1;
    }
    proof {
        assert(targets@.take(targets@.len() as int) =~= targets@);
    }
    Ok(out)
}

/// Which display indexes [`find_pad_by_uuid`] accepts.
#[derive(Clone, Copy, Debug, PartialEq, Eq, Structural)]
pub enum IndexFilter {
    Any,
    Pinned,
    Regular,
}

pub open spec fn accepts(f: IndexFilter, i: DisplayIndex) -> bool {
    match f {
        IndexFilter::Any => true,
        IndexFilter::Pinned => i is Pinned,
        IndexFilter::Regular => i is Regular,
    }
}

/// The first position at or after `k` holding pad `id` under an accepted index.
pub open spec fn find_accepted(l: Seq<LinV>, id: u128, f: IndexFilter, k: int) -> Option<int>
    decreases l.len() - k,
{
    if k < 0 || k >= l.len() {
        None
    } else if l[k].1.pad.metadata.id == id && accepts(f, l[k].1.index) {
        Some(k)
    } else {
        find_accepted(l, id, f, k + 1)
    }
}

proof fn lemma_find_accepted_from(l: Seq<LinV>, id: u128, f: IndexFilter, k: int)
    requires
        0 <= k <= l.len(),
    ensures
        find_accepted(l, id, f, k) matches Some(p) ==> k <= p < l.len() && l[p].1.pad.metadata.id == id && accepts(
            f,
            l[p].1.index,
        ) && forall|j: int| k <= j < p ==> !(#[trigger] l[j].1.pad.metadata.id == id && accepts(f, l[j].1.index)),
        find_accepted(l, id, f, k) is None ==> forall|j: int|
            k <= j < l.len() ==> !(#[trigger] l[j].1.pad.metadata.id == id && accepts(f, l[j].1.index)),
    decreases l.len() - k,
{
    if k < l.len() {
        lemma_find_accepted_from(l, id, f, k + 1);
    }
}

/// UUID lookup takes the first match in pre-order: the walk position it
/// finds holds the pad under an accepted index, and no earlier position
/// does; it finds none exactly when no position does.
pub proof fn lemma_find_accepted_first(l: Seq<LinV>, id: u128, f: IndexFilter)
    ensures
        find_accepted(l, id, f, 0) matches Some(p) ==> 0 <= p < l.len() && l[p].1.pad.metadata.id == id && accepts(
            f,
            l[p].1.index,
        ) && forall|j: int| 0 <= j < p ==> !(#[trigger] l[j].1.pad.metadata.id == id && accepts(f, l[j].1.index)),
        find_accepted(l, id, f, 0) is None <==> forall|j: int|
            0 <= j < l.len() ==> !(#[trigger] l[j].1.pad.metadata.id == id && accepts(f, l[j].1.index)),
{
    lemma_find_accepted_from(l, id, f, 0);
}

/// Finds, in pre-order, the first node holding pad `uuid` whose own index
/// the filter accepts; returns that node as it stands in the forest, with
/// its subtree.
pub fn find_pad_by_uuid<'a>(pads: &'a Vec<DisplayPad>, uuid: u128, filter: IndexFilter) -> (r: Option<&'a DisplayPad>)
    ensures
        match find_accepted(linearize(dps_view(pads@)), uuid, filter, 0) {
            Some(k) => r matches Some(d) && dp_view(*d) == linearize(dps_view(pads@))[k].1,
            None => r is None,
        },
{
    let l = linearize_tree(pads);
    let ghost lv = lined_view(l@);
    let mut k: usize = 0;
    while k < l.len()
        invariant
            lv == lined_view(l@),
            lv == linearize(dps_view(pads@)),
            k <= l.len(),
            find_accepted(lv, uuid, filter, 0) == find_accepted(lv, uuid, filter, k as int),
        decreases l.len() - k,
    {
        let n: &DisplayPad = l[k].node;
        let ok = match filter {
            IndexFilter::Any => true,
            IndexFilter::Pinned => matches!(n.index, DisplayIndex::Pinned(_)),
            IndexFilter::Regular => matches!(n.index, DisplayIndex::Regular(_)),
        };
        if n.pad.metadata.id == uuid && ok {
            return Some(n);
        }
        k += 1;
    }
    None
}

/// For each id in order, the first accepted node holding it, shown flat;
/// ids with no accepted node are skipped.
pub open spec fn found_pads(l: Seq<LinV>, ids: Seq<u128>, f: IndexFilter) -> Seq<DisplayPadV>
    decreases ids.len(),
{
    if ids.len() == 0 {
        Seq::empty()
    } else {
        let r = found_pads(l, ids.drop_last(), f);
        match find_accepted(l, ids.last(), f, 0) {
            Some(k) => r.push(flat_dp(l[k].1.pad, l[k].1.index)),
            None => r,
        }
    }
}

/// Looks each id up with [`find_pad_by_uuid`] and keeps the pads found,
/// each without children or search matches.
pub fn collect_found(pads: &Vec<DisplayPad>, ids: &Vec<u128>, filter: IndexFilter) -> (r: Vec<DisplayPad>)
    ensures
        dps_view(r@) == found_pads(linearize(dps_view(pads@)), ids@, filter),
{
    let ghost l = linearize(dps_view(pads@));
    let mut out: Vec<DisplayPad> = Vec::new();
    let mut i: usize = 0;
    while i < ids.len()
        invariant
            l == linearize(dps_view(pads@)),
            i <= ids.len(),
            dps_view(out@) == found_pads(l, ids@.take(i as int), filter),
        decreases ids.len() - i,
    {
        proof {
            assert(ids@.take(i + 1).drop_last() =~= ids@.take(i as int));
        }
        match find_pad_by_uuid(pads, ids[i], filter) {
            Some(n) => {
                let d = dp_flat(n);
                let ghost before = out@;
                out.push(d);
                proof {
                    lemma_dps_view_push(before, d);
                }
            },
            None => {},
        }
        i += 1;
    }
    proof {
        assert(ids@.take(ids.len() as int) =~= ids@);
    }
    out
}

// ---------------------------------------------------------------------------
// Nested listings
// ---------------------------------------------------------------------------

/// A pad with its nesting depth, produced by walking a subtree.
#[derive(Debug)]
pub struct NestedPad {
    pub pad: DisplayPad,
    pub depth: usize,
}

pub open spec fn nested_view(v: Seq<NestedPad>) -> Seq<(DisplayPadV, usize)> {
    v.map_values(|n: NestedPad| (dp_view(n.pad), n.depth))
}

pub open spec fn next_depth(d: usize) -> usize {
    if d < usize::MAX {
        (d + 1) as usize
    } else {
        d
    }
}

/// A pad without its children, keeping its search matches.
pub open spec fn without_children(n: DisplayPadV) -> DisplayPadV {
    DisplayPadV { children: Seq::empty(), ..n }
}

/// Pre-order walk of a subtree with depths, skipping deleted children.
pub open spec fn flat_node(n: DisplayPadV, depth: usize) -> Seq<(DisplayPadV, usize)>
    decreases n,
{
    seq![(without_children(n), depth)] + flat_forest(n.children, next_depth(depth))
}

pub open spec fn flat_forest(s: Seq<DisplayPadV>, depth: usize) -> Seq<(DisplayPadV, usize)>
    decreases s,
{
    if s.len() == 0 {
        Seq::empty()
    } else if s.last().index is Deleted {
        flat_forest(s.drop_last(), depth)
    } else {
        flat_forest(s.drop_last(), depth) + flat_node(s.last(), depth)
    }
}

fn flatten_tree(dp: &DisplayPad, depth: usize, out: &mut Vec<NestedPad>)
    ensures
        nested_view(final(out)@) == nested_view(old(out)@) + flat_node(dp_view(*dp), depth),
    decreases dp,
{
    let flat = DisplayPad {
        pad: dp.pad.duplicate(),
        index: dp.index,
        matches: crate::tree::matches_clone(&dp.matches),
        children: Vec::new(),
    };
    proof {
        assert(dps_view(flat.children@) =~= Seq::<DisplayPadV>::empty());
        assert(dp_view(flat) == without_children(dp_view(*dp)));
    }
    let ghost before = out@;
    out.push(NestedPad { pad: flat, depth });
    proof {
        assert(nested_view(out@) =~= nested_view(before).push((without_children(dp_view(*dp)), depth)));
    }
    let ghost start = nested_view(out@);
    let d = if depth < usize::MAX { depth + 1 } else { depth };
    let mut k: usize = 0;
    while k < dp.children.len()
        invariant
            k <= dp.children.len(),
            d == next_depth(depth),
            nested_view(out@) == start + flat_forest(dps_view(dp.children@.take(k as int)), d),
        decreases dp.children.len() - k,
    {
        proof {
            assert(dp.children@.take(k + 1).drop_last() =~= dp.children@.take(k as int));
            assert(decreases_to!(*dp => dp.children@[k as int]));
            let t = dp.children@.take(k + 1);
            assert(dps_view(t).drop_last() =~= dps_view(dp.children@.take(k as int)));
            assert(dps_view(t).last() == dp_view(dp.children@[k as int]));
        }
        if !matches!(dp.children[k].index, DisplayIndex::Deleted(_)) {
            flatten_tree(&dp.children[k], d, out);
        }
        proof {
            let t = dp.children@.take(k + 1);
            assert(nested_view(out@) =~= start + flat_forest(dps_view(t), d));
        }
        k += 1;
    }
    proof {
        assert(dp.children@.take(dp.children@.len() as int) =~= dp.children@);
        assert(nested_view(out@) =~= nested_view(before) + flat_node(dp_view(*dp), depth));
    }
}

/// What [`collect_nested_pads`] yields for one selected pad.
pub open spec fn nested_for(l: Seq<LinV>, d: DisplayPadV) -> Seq<(DisplayPadV, usize)> {
    match find_id(l, d.pad.metadata.id, 0) {
        Some(k) => flat_node(l[k].1, 0),
        None => seq![(d, 0usize)],
    }
}

pub open spec fn all_nested(l: Seq<LinV>, ds: Seq<DisplayPadV>) -> Seq<(DisplayPadV, usize)>
    decreases ds.len(),
{
    if ds.len() == 0 {
        Seq::empty()
    } else {
        all_nested(l, ds.drop_last()) + nested_for(l, ds.last())
    }
}

proof fn lemma_flat_node_shape(n: DisplayPadV, depth: usize)
    ensures
        flat_node(n, depth).len() >= 1,
        flat_node(n, depth)[0] == (without_children(n), depth),
        forall|i: int|
            0 <= i < flat_node(n, depth).len() ==> (#[trigger] flat_node(n, depth)[i]).0.children.len() == 0
                && flat_node(n, depth)[i].1 >= depth,
    decreases n,
{
    lemma_flat_forest_shape(n.children, next_depth(depth));
    let f = flat_forest(n.children, next_depth(depth));
    assert forall|i: int| 0 <= i < flat_node(n, depth).len() implies (#[trigger] flat_node(n, depth)[i]).0.children.len()
        == 0 && flat_node(n, depth)[i].1 >= depth by {
        if i > 0 {
            assert(flat_node(n, depth)[i] == f[i - 1]);
        }
    }
}

proof fn lemma_flat_forest_shape(s: Seq<DisplayPadV>, depth: usize)
    ensures
        forall|i: int|
            0 <= i < flat_forest(s, depth).len() ==> (#[trigger] flat_forest(s, depth)[i]).0.children.len() == 0
                && flat_forest(s, depth)[i].1 >= depth,
    decreases s,
{
    if s.len() > 0 {
        lemma_flat_forest_shape(s.drop_last(), depth);
        if !(s.last().index is Deleted) {
            lemma_flat_node_shape(s.last(), depth);
            let a = flat_forest(s.drop_last(), depth);
            let c = flat_node(s.last(), depth);
            assert forall|i: int| 0 <= i < (a + c).len() implies (#[trigger] (a + c)[i]).0.children.len() == 0
                && (a + c)[i].1 >= depth by {
                if i >= a.len() {
                    assert((a + c)[i] == c[i - a.len()]);
                } else {
                    assert((a + c)[i] == a[i]);
                }
            }
        }
    }
}

/// Nested collection in pre-order: collecting pads `a` then `b` gives the
/// collection of `a` followed by that of `b`; the walk of each pad found in
/// the tree starts with its node at depth 0, and every entry of a walk has
/// its children emptied.
pub proof fn lemma_nested_preorder(l: Seq<LinV>, a: Seq<DisplayPadV>, b: Seq<DisplayPadV>)
    ensures
        all_nested(l, a + b) == all_nested(l, a) + all_nested(l, b),
        forall|k: int| 0 <= k < b.len() && #[trigger] find_id(l, b[k].pad.metadata.id, 0) is Some ==> nested_for(l, b[k])[0]
            == (without_children(l[find_id(l, b[k].pad.metadata.id, 0)->0].1), 0usize),
        forall|k: int, i: int|
            0 <= k < b.len() && 0 <= i < nested_for(l, b[k]).len() && find_id(l, b[k].pad.metadata.id, 0) is Some
                ==> (#[trigger] nested_for(l, b[k])[i]).0.children.len() == 0,
    decreases b.len(),
{
    if b.len() > 0 {
        lemma_nested_preorder(l, a, b.drop_last());
        assert((a + b).drop_last() =~= a + b.drop_last());
        assert((a + b).last() == b.last());
    } else {
        assert(a + b =~= a);
    }
    assert forall|k: int| 0 <= k < b.len() && #[trigger] find_id(l, b[k].pad.metadata.id, 0) is Some implies nested_for(l, b[k])[0]
        == (without_children(l[find_id(l, b[k].pad.metadata.id, 0)->0].1), 0usize) by {
        lemma_flat_node_shape(l[find_id(l, b[k].pad.metadata.id, 0)->0].1, 0);
    }
    assert forall|k: int, i: int|
        0 <= k < b.len() && 0 <= i < nested_for(l, b[k]).len() && find_id(l, b[k].pad.metadata.id, 0) is Some
            implies (#[trigger] nested_for(l, b[k])[i]).0.children.len() == 0 by {
        lemma_flat_node_shape(l[find_id(l, b[k].pad.metadata.id, 0)->0].1, 0);
    }
}

/// Re-resolves the given pads in the scope's tree and walks each one's
/// subtree: the pad at depth 0, its children at depth 1, and so on, leaving
/// out deleted children. A pad not found in the tree is kept as given.
pub fn collect_nested_pads(store: &Store, scope: Scope, root_pads: &Vec<DisplayPad>) -> (r: Result<Vec<NestedPad>, PadzError>)
    ensures
        r matches Ok(v) && nested_view(v@) == all_nested(scope_lin(store@, scope), flat_pads_view(root_pads@)),
{
    let roots = match indexed_pads(store, scope) {
        Ok(r) => r,
        Err(e) => return Err(e),
    };
    let l = linearize_tree(&roots);
    let ghost lv = lined_view(l@);
    let ghost ds = flat_pads_view(root_pads@);
    let mut out: Vec<NestedPad> = Vec::new();
    let mut i: usize = 0;
    proof {
        assert(nested_view(out@) =~= Seq::<(DisplayPadV, usize)>::empty());
    }
    while i < root_pads.len()
        invariant
            lv == lined_view(l@),
            lv == scope_lin(store@, scope),
            ds == flat_pads_view(root_pads@),
            i <= root_pads.len(),
            nested_view(out@) == all_nested(lv, ds.take(i as int)),
        decreases root_pads.len() - i,
    {
        proof {
            assert(ds.take(i + 1).drop_last() =~= ds.take(i as int));
            assert(ds.take(i + 1).last() == dp_view(root_pads@[i as int]));
        }
        match find_id_in(&l, root_pads[i].pad.metadata.id) {
            Some(k) => {
                flatten_tree(l[k].node, 0, &mut out);
            },
            None => {
                let ghost before = out@;
                out.push(NestedPad { pad: dp_clone(&root_pads[i]), depth: 0 });
                proof {
                    assert(nested_view(out@) =~= nested_view(before).push((dp_view(root_pads@[i as int]), 0usize)));
                }
            },
        }
        proof {
            assert(nested_view(out@) =~= all_nested(lv, ds.take(i + 1)));
        }
        i += 1;
    }
    proof {
        assert(ds.take(ds.len() as int) =~= ds);
    }
    Ok(out)
}

} // verus!
