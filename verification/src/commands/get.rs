//! Listing pads: selection by selectors, status and attribute filters, and
//! search.
pub mod search;
use vstd::prelude::*;
use crate::attributes::{filter_matches, status_text, AttrFilter, AttrValue, AttrValueV, FilterOp, status_name};
use crate::commands::CmdResult;
use crate::error::PadzError;
use crate::index::{DisplayIndex, PadSelector, SelectorV};
use crate::model::{strings_view, MetadataV, Scope, TodoStatus};
use crate::tree::{dp_clone, dp_view, dps_view, lemma_dps_view_index, lemma_dps_view_push, matches_clone, DisplayPad, DisplayPadV};
use crate::resolve::{
    find_id, find_id_exec, find_path, find_path_exec, lemma_positions_push, lined_view, linearize, linearize_tree,
    positions, prefix_match, prefix_matches, title_match, LinV, Lined, TitleBucket,
};
use crate::model::{uuid_text};
use crate::text::{append_chars, chars_of, contains_chars, decimal_chars, lit, string_from_chars, to_lowercase};

verus! {

/// Which pads a listing shows, by their display index.
#[derive(Clone, Copy, Debug, PartialEq, Eq, Structural)]
pub enum PadStatusFilter {
    All,
    Active,
    Archived,
    Deleted,
    Pinned,
}

/// Whether a pad with this display index passes the status filter.
pub open spec fn matches_status(i: DisplayIndex, s: PadStatusFilter) -> bool {
    match s {
        PadStatusFilter::All => true,
        PadStatusFilter::Active => i is Pinned || i is Regular,
        PadStatusFilter::Archived => i is Archived,
        PadStatusFilter::Deleted => i is Deleted,
        PadStatusFilter::Pinned => i is Pinned,
    }
}

/// A pad filtered by status: dropped when its index does not pass; under a
/// deleted pad all children stay, otherwise children are filtered the same
/// way.
pub open spec fn status_node(n: DisplayPadV, s: PadStatusFilter) -> Option<DisplayPadV>
    decreases n,
{
    if !matches_status(n.index, s) {
        None
    } else if s == PadStatusFilter::Deleted {
        Some(n)
    } else {
        Some(DisplayPadV { children: status_forest(n.children, s), ..n })
    }
}

/// A list of pads filtered by status, in order.
pub open spec fn status_forest(ns: Seq<DisplayPadV>, s: PadStatusFilter) -> Seq<DisplayPadV>
    decreases ns,
{
    if ns.len() == 0 {
        Seq::empty()
    } else {
        let r = status_forest(ns.drop_last(), s);
        match status_node(ns.last(), s) {
            Some(x) => r.push(x),
            None => r,
        }
    }
}

proof fn lemma_status_forest_push(ns: Seq<DisplayPadV>, x: DisplayPadV, s: PadStatusFilter)
    ensures
        status_forest(ns.push(x), s) == match status_node(x, s) {
            Some(y) => status_forest(ns, s).push(y),
            None => status_forest(ns, s),
        },
{
    assert(ns.push(x).drop_last() =~= ns);
}

fn status_passes(i: DisplayIndex, s: PadStatusFilter) -> (r: bool)
    ensures
        r == matches_status(i, s),
{
    match s {
        PadStatusFilter::All => true,
        PadStatusFilter::Active => matches!(i, DisplayIndex::Pinned(_)) || matches!(i, DisplayIndex::Regular(_)),
        PadStatusFilter::Archived => matches!(i, DisplayIndex::Archived(_)),
        PadStatusFilter::Deleted => matches!(i, DisplayIndex::Deleted(_)),
        PadStatusFilter::Pinned => matches!(i, DisplayIndex::Pinned(_)),
    }
}

fn status_filter_pad(dp: &DisplayPad, s: PadStatusFilter) -> (r: Option<DisplayPad>)
    ensures
        match status_node(dp_view(*dp), s) {
            Some(v) => r matches Some(x) && dp_view(x) == v,
            None => r is None,
        },
    decreases dp,
{
    if !status_passes(dp.index, s) {
        return None;
    }
    if s == PadStatusFilter::Deleted {
        return Some(crate::tree::dp_clone(dp));
    }
    let mut children: Vec<DisplayPad> = Vec::new();
    let mut i: usize = 0;
    proof {
        assert(dp.children@.take(0) =~= Seq::<DisplayPad>::empty());
    }
    while i < dp.children.len()
        invariant
            i <= dp.children.len(),
            s != PadStatusFilter::Deleted,
            dps_view(children@) == status_forest(dps_view(dp.children@.take(i as int)), s),
        decreases dp.children.len() - i,
    {
        proof {
            assert(decreases_to!(*dp => dp.children@[i as int]));
            assert(dp.children@.take(i + 1) =~= dp.children@.take(i as int).push(dp.children@[i as int]));
            lemma_dps_view_push(dp.children@.take(i as int), dp.children@[i as int]);
            lemma_status_forest_push(dps_view(dp.children@.take(i as int)), dp_view(dp.children@[i as int]), s);
        }
        match status_filter_pad(&dp.children[i], s) {
            Some(c) => {
                let ghost before = children@;
                children.push(c);
                proof {
                    lemma_dps_view_push(before, c);
                }
            },
            None => {},
        }
        i += 1;
    }
    proof {
        assert(dp.children@.take(dp.children.len() as int) =~= dp.children@);
    }
    Some(DisplayPad { pad: dp.pad.duplicate(), index: dp.index, matches: matches_clone(&dp.matches), children })
}

/// Filters a tree by status (see [`status_forest`]).
pub fn filter_tree(pads: &Vec<DisplayPad>, status: PadStatusFilter) -> (r: Vec<DisplayPad>)
    ensures
        dps_view(r@) == status_forest(dps_view(pads@), status),
{
    let mut out: Vec<DisplayPad> = Vec::new();
    let mut i: usize = 0;
    proof {
        assert(pads@.take(0) =~= Seq::<DisplayPad>::empty());
    }
    while i < pads.len()
        invariant
            i <= pads.len(),
            dps_view(out@) == status_forest(dps_view(pads@.take(i as int)), status),
        decreases pads.len() - i,
    {
        proof {
            assert(pads@.take(i + 1) =~= pads@.take(i as int).push(pads@[i as int]));
            lemma_dps_view_push(pads@.take(i as int), pads@[i as int]);
            lemma_status_forest_push(dps_view(pads@.take(i as int)), dp_view(pads@[i as int]), status);
        }
        match status_filter_pad(&pads[i], status) {
            Some(c) => {
                let ghost before = out@;
                out.push(c);
                proof {
                    lemma_dps_view_push(before, c);
                }
            },
            None => {},
        }
        i += 1;
    }
    proof {
        assert(pads@.take(pads.len() as int) =~= pads@);
    }
    out
}

// ---------------------------------------------------------------------------
// Attribute filters
// ---------------------------------------------------------------------------

/// A filter as a value: attribute name, operation, compared value.
pub type FilterV = (Seq<char>, FilterOp, AttrValueV);

pub open spec fn filters_view(fs: Seq<AttrFilter>) -> Seq<FilterV> {
    fs.map_values(|f: AttrFilter| (f.attr@, f.op, f.value@))
}

/// All filters hold of the metadata.
pub open spec fn all_filters_match(fs: Seq<FilterV>, m: MetadataV) -> bool {
    forall|i: int| 0 <= i < fs.len() ==> #[trigger] filter_matches(fs[i].0, fs[i].1, fs[i].2, m)
}

/// A pad filtered by attributes: its children are filtered first; it stays
/// when all filters hold of it or when a child stayed.
pub open spec fn attr_node(n: DisplayPadV, fs: Seq<FilterV>) -> Option<DisplayPadV>
    decreases n,
{
    let kids = attr_forest(n.children, fs);
    if all_filters_match(fs, n.pad.metadata) || kids.len() > 0 {
        Some(DisplayPadV { children: kids, ..n })
    } else {
        None
    }
}

pub open spec fn attr_forest(ns: Seq<DisplayPadV>, fs: Seq<FilterV>) -> Seq<DisplayPadV>
    decreases ns,
{
    if ns.len() == 0 {
        Seq::empty()
    } else {
        let r = attr_forest(ns.drop_last(), fs);
        match attr_node(ns.last(), fs) {
            Some(x) => r.push(x),
            None => r,
        }
    }
}

/// The pads kept by the attribute filters; no filters keep everything.
pub open spec fn spec_apply_attr_filters(ns: Seq<DisplayPadV>, fs: Seq<FilterV>) -> Seq<DisplayPadV> {
    if fs.len() == 0 {
        ns
    } else {
        attr_forest(ns, fs)
    }
}

proof fn lemma_attr_forest_push(ns: Seq<DisplayPadV>, x: DisplayPadV, fs: Seq<FilterV>)
    ensures
        attr_forest(ns.push(x), fs) == match attr_node(x, fs) {
            Some(y) => attr_forest(ns, fs).push(y),
            None => attr_forest(ns, fs),
        },
{
    assert(ns.push(x).drop_last() =~= ns);
}

fn all_match(filters: &Vec<AttrFilter>, m: &crate::model::Metadata) -> (r: bool)
    ensures
        r == all_filters_match(filters_view(filters@), m@),
{
    let ghost fv = filters_view(filters@);
    let mut i: usize = 0;
    while i < filters.len()
        invariant
            fv == filters_view(filters@),
            i <= filters.len(),
            forall|j: int| 0 <= j < i ==> #[trigger] filter_matches(fv[j].0, fv[j].1, fv[j].2, m@),
        decreases filters.len() - i,
    {
        if !filters[i].matches(m) {
            proof {
                assert(fv[i as int] == (filters@[i as int].attr@, filters@[i as int].op, filters@[i as int].value@));
                assert(!filter_matches(fv[i as int].0, fv[i as int].1, fv[i as int].2, m@));
            }
            return false;
        }
        proof {
            assert(fv[i as int] == (filters@[i as int].attr@, filters@[i as int].op, filters@[i as int].value@));
        }
        i += 1;
    }
    true
}

fn attr_filter_pad(dp: &DisplayPad, filters: &Vec<AttrFilter>) -> (r: Option<DisplayPad>)
    ensures
        match attr_node(dp_view(*dp), filters_view(filters@)) {
            Some(v) => r matches Some(x) && dp_view(x) == v,
            None => r is None,
        },
    decreases dp,
{
    let ghost fs = filters_view(filters@);
    let mut children: Vec<DisplayPad> = Vec::new();
    let mut i: usize = 0;
    proof {
        assert(dp.children@.take(0) =~= Seq::<DisplayPad>::empty());
    }
    while i < dp.children.len()
        invariant
            fs == filters_view(filters@),
            i <= dp.children.len(),
            dps_view(children@) == attr_forest(dps_view(dp.children@.take(i as int)), fs),
        decreases dp.children.len() - i,
    {
        proof {
            assert(decreases_to!(*dp => dp.children@[i as int]));
            assert(dp.children@.take(i + 1) =~= dp.children@.take(i as int).push(dp.children@[i as int]));
            lemma_dps_view_push(dp.children@.take(i as int), dp.children@[i as int]);
            lemma_attr_forest_push(dps_view(dp.children@.take(i as int)), dp_view(dp.children@[i as int]), fs);
        }
        match attr_filter_pad(&dp.children[i], filters) {
            Some(c) => {
                let ghost before = children@;
                children.push(c);
                proof {
                    lemma_dps_view_push(before, c);
                }
            },
            None => {},
        }
        i += 1;
    }
    proof {
        assert(dp.children@.take(dp.children.len() as int) =~= dp.children@);
        crate::tree::lemma_dps_view_index(children@);
    }
    if all_match(filters, &dp.pad.metadata) || children.len() > 0 {
        Some(DisplayPad { pad: dp.pad.duplicate(), index: dp.index, matches: matches_clone(&dp.matches), children })
    } else {
        None
    }
}

/// Filters a tree by attributes (see [`spec_apply_attr_filters`]).
pub fn apply_attr_filters(pads: &Vec<DisplayPad>, filters: &Vec<AttrFilter>) -> (r: Vec<DisplayPad>)
    ensures
        dps_view(r@) == spec_apply_attr_filters(dps_view(pads@), filters_view(filters@)),
{
    let mut out: Vec<DisplayPad> = Vec::new();
    if filters.len() == 0 {
        let mut i: usize = 0;
        while i < pads.len()
            invariant
                i <= pads.len(),
                dps_view(out@) == dps_view(pads@.take(i as int)),
            decreases pads.len() - i,
        {
            let ghost before = out@;
            let c = crate::tree::dp_clone(&pads[i]);
            out.push(c);
            proof {
                lemma_dps_view_push(before, c);
                assert(pads@.take(i + 1) =~= pads@.take(i as int).push(pads@[i as int]));
                lemma_dps_view_push(pads@.take(i as int), pads@[i as int]);
            }
            i += 1;
        }
        proof {
            assert(pads@.take(pads.len() as int) =~= pads@);
        }
        return out;
    }
    let ghost fs = filters_view(filters@);
    let mut i: usize = 0;
    proof {
        assert(pads@.take(0) =~= Seq::<DisplayPad>::empty());
    }
    while i < pads.len()
        invariant
            fs == filters_view(filters@),
            i <= pads.len(),
            dps_view(out@) == attr_forest(dps_view(pads@.take(i as int)), fs),
        decreases pads.len() - i,
    {
        proof {
            assert(pads@.take(i + 1) =~= pads@.take(i as int).push(pads@[i as int]));
            lemma_dps_view_push(pads@.take(i as int), pads@[i as int]);
            lemma_attr_forest_push(dps_view(pads@.take(i as int)), dp_view(pads@[i as int]), fs);
        }
        match attr_filter_pad(&pads[i], filters) {
            Some(c) => {
                let ghost before = out@;
                out.push(c);
                proof {
                    lemma_dps_view_push(before, c);
                }
            },
            None => {},
        }
        i += 1;
    }
    proof {
        assert(pads@.take(pads.len() as int) =~= pads@);
    }
    out
}

// ---------------------------------------------------------------------------
// Selection by selectors
// ---------------------------------------------------------------------------

pub open spec fn node_ids(m: Seq<DisplayPadV>) -> Seq<u128> {
    m.map_values(|d: DisplayPadV| d.pad.metadata.id)
}

/// Adds a pad unless a pad with its id is already there.
pub open spec fn add_unique(m: Seq<DisplayPadV>, d: DisplayPadV) -> Seq<DisplayPadV> {
    if node_ids(m).contains(d.pad.metadata.id) {
        m
    } else {
        m.push(d)
    }
}

/// Adds pads one by one (see [`add_unique`]).
pub open spec fn add_each(m: Seq<DisplayPadV>, ds: Seq<DisplayPadV>) -> Seq<DisplayPadV>
    decreases ds.len(),
{
    if ds.len() == 0 {
        m
    } else {
        add_unique(add_each(m, ds.drop_last()), ds.last())
    }
}

/// The pads (with their subtrees) that one selector picks from the walk of
/// the tree: a path, every pad from the start path to the end path, a UUID,
/// the single pad whose UUID starts with the prefix, or every pad whose
/// title holds the term (ignoring case). Picking nothing is an error.
pub open spec fn select_one(l: Seq<LinV>, sel: SelectorV) -> Result<Seq<DisplayPadV>, ()> {
    match sel {
        SelectorV::Path(p) => match find_path(l, p, 0) {
            Some(k) => Ok(seq![l[k].1]),
            None => Err(()),
        },
        SelectorV::Range(a, z) => match (find_path(l, a, 0), find_path(l, z, 0)) {
            (Some(i), Some(j)) => if i > j {
                Err(())
            } else {
                Ok(Seq::new((j - i + 1) as nat, |k: int| l[i + k].1))
            },
            _ => Err(()),
        },
        SelectorV::Uuid(u) => match find_id(l, u, 0) {
            Some(k) => Ok(seq![l[k].1]),
            None => Err(()),
        },
        SelectorV::ShortUuid(h) => {
            let m = positions(l.len() as int, |k: int| prefix_match(l, h, k));
            if m.len() == 1 {
                Ok(seq![l[m[0]].1])
            } else {
                Err(())
            }
        },
        SelectorV::Title(t) => {
            let m = positions(l.len() as int, |k: int| title_match(l, t, TitleBucket::Any, k));
            if m.len() == 0 {
                Err(())
            } else {
                Ok(m.map_values(|k: int| l[k].1))
            }
        },
    }
}

/// Whether `msg` is the error text for a selector that picks nothing (see
/// [`select_one`]): a missing path, range end or id is named; a reversed
/// range is refused; a UUID prefix matching no pad or several, and a title
/// matching none, are named.
pub open spec fn select_error_text(l: Seq<LinV>, sel: SelectorV, msg: Seq<char>) -> bool {
    match sel {
        SelectorV::Path(p) => msg == "Index "@ + crate::index::path_text(p) + " not found in current scope"@,
        SelectorV::Range(a, z) => match (find_path(l, a, 0), find_path(l, z, 0)) {
            (None, _) => msg == "Range start "@ + crate::index::path_text(a) + " not found"@,
            (Some(_), None) => msg == "Range end "@ + crate::index::path_text(z) + " not found"@,
            _ => msg == "Invalid range: start appears after end"@,
        },
        SelectorV::Uuid(u) => msg == "No pad found with UUID "@ + crate::model::uuid_hyphenated(u),
        SelectorV::ShortUuid(h) => {
            let n = positions(l.len() as int, |k: int| prefix_match(l, h, k)).len();
            if n == 0 {
                msg == "No pad found with UUID prefix "@ + h
            } else {
                msg == "UUID prefix \""@ + h + "\" matches "@ + crate::text::decimal(n) + " pads. Use more characters to be unique."@
            }
        },
        SelectorV::Title(t) => msg == "No pad found matching \""@ + t + "\""@,
    }
}

/// Whether `msg` is the error text of the first selector that picks nothing.
pub open spec fn select_all_error_text(l: Seq<LinV>, sels: Seq<SelectorV>, msg: Seq<char>) -> bool
    decreases sels.len(),
{
    if sels.len() == 0 {
        false
    } else if select_all(l, sels.drop_last()) is Err {
        select_all_error_text(l, sels.drop_last(), msg)
    } else {
        select_error_text(l, sels.last(), msg)
    }
}

/// The pads the selectors pick, each once, in the order first picked.
pub open spec fn select_all(l: Seq<LinV>, sels: Seq<SelectorV>) -> Result<Seq<DisplayPadV>, ()>
    decreases sels.len(),
{
    if sels.len() == 0 {
        Ok(Seq::empty())
    } else {
        match select_all(l, sels.drop_last()) {
            Ok(m) => match select_one(l, sels.last()) {
                Ok(ds) => Ok(add_each(m, ds)),
                Err(_) => Err(()),
            },
            Err(_) => Err(()),
        }
    }
}

/// `p` is how `m` starts.
pub open spec fn is_prefix(p: Seq<DisplayPadV>, m: Seq<DisplayPadV>) -> bool {
    p.len() <= m.len() && forall|i: int| 0 <= i < p.len() ==> #[trigger] m[i] == p[i]
}

/// No two pads of the sequence have the same id.
pub open spec fn distinct_ids(m: Seq<DisplayPadV>) -> bool {
    forall|i: int, j: int| 0 <= i < j < m.len() ==> #[trigger] m[i].pad.metadata.id != #[trigger] m[j].pad.metadata.id
}

proof fn lemma_add_each_keeps(m: Seq<DisplayPadV>, ds: Seq<DisplayPadV>)
    requires
        distinct_ids(m),
    ensures
        distinct_ids(add_each(m, ds)),
        add_each(m, ds).len() >= m.len(),
        forall|i: int| 0 <= i < m.len() ==> #[trigger] add_each(m, ds)[i] == m[i],
        forall|k: int| 0 <= k < ds.len() ==> node_ids(add_each(m, ds)).contains(#[trigger] ds[k].pad.metadata.id),
        forall|k: int| 0 <= k < m.len() ==> node_ids(add_each(m, ds)).contains(#[trigger] m[k].pad.metadata.id),
    decreases ds.len(),
{
    if ds.len() > 0 {
        let r = add_each(m, ds.drop_last());
        lemma_add_each_keeps(m, ds.drop_last());
        let x = ds.last();
        assert forall|k: int| 0 <= k < ds.len() - 1 implies node_ids(r).contains(#[trigger] ds[k].pad.metadata.id) by {
            assert(ds.drop_last()[k] == ds[k]);
        }
        if !node_ids(r).contains(x.pad.metadata.id) {
            let r2 = r.push(x);
            assert forall|i: int, j: int| 0 <= i < j < r2.len() implies #[trigger] r2[i].pad.metadata.id
                != #[trigger] r2[j].pad.metadata.id by {
                if j == r.len() {
                    assert(node_ids(r)[i] == r[i].pad.metadata.id);
                }
            }
            assert forall|k: int| 0 <= k < ds.len() implies node_ids(r2).contains(#[trigger] ds[k].pad.metadata.id) by {
                if k < ds.len() - 1 {
                    let w = choose|w: int| 0 <= w < node_ids(r).len() && node_ids(r)[w] == ds[k].pad.metadata.id;
                    assert(node_ids(r2)[w] == node_ids(r)[w]);
                } else {
                    assert(node_ids(r2)[r.len() as int] == x.pad.metadata.id);
                }
            }
            assert forall|k: int| 0 <= k < m.len() implies node_ids(r2).contains(#[trigger] m[k].pad.metadata.id) by {
                let w = choose|w: int| 0 <= w < node_ids(r).len() && node_ids(r)[w] == m[k].pad.metadata.id;
                assert(node_ids(r2)[w] == node_ids(r)[w]);
            }
        }
    } else {
        assert forall|k: int| 0 <= k < m.len() implies node_ids(add_each(m, ds)).contains(
            #[trigger] m[k].pad.metadata.id,
        ) by {
            assert(node_ids(m)[k] == m[k].pad.metadata.id);
        }
    }
}

/// Filtering by selectors keeps each pad once, in the order first picked:
/// the pads that succeeding selectors pick have distinct ids, every pad a
/// selector picks is among them, and what the first selectors pick comes
/// first, unchanged, whatever the later ones add.
pub proof fn lemma_select_all_distinct(l: Seq<LinV>, sels: Seq<SelectorV>)
    ensures
        select_all(l, sels) matches Ok(m) ==> {
            &&& distinct_ids(m)
            &&& forall|k: int, x: int|
                0 <= k < sels.len() && select_one(l, sels[k]) is Ok && 0 <= x < select_one(l, sels[k])->Ok_0.len()
                    ==> node_ids(m).contains(#[trigger] select_one(l, sels[k])->Ok_0[x].pad.metadata.id)
            &&& forall|k: int|
                0 <= k <= sels.len() ==> (select_all(l, #[trigger] sels.take(k)) is Ok && is_prefix(
                    select_all(l, sels.take(k))->Ok_0,
                    m,
                ))
        },
    decreases sels.len(),
{
    if sels.len() == 0 {
        assert(sels.take(0) =~= sels);
    } else {
        lemma_select_all_distinct(l, sels.drop_last());
        match select_all(l, sels.drop_last()) {
            Ok(m0) => match select_one(l, sels.last()) {
                Ok(ds) => {
                    lemma_add_each_keeps(m0, ds);
                    let m = add_each(m0, ds);
                    assert forall|k: int, x: int|
                        0 <= k < sels.len() && select_one(l, sels[k]) is Ok && 0 <= x < select_one(l, sels[k])->Ok_0.len()
                            implies node_ids(m).contains(#[trigger] select_one(l, sels[k])->Ok_0[x].pad.metadata.id) by {
                        if k < sels.len() - 1 {
                            assert(sels.drop_last()[k] == sels[k]);
                            let id = select_one(l, sels[k])->Ok_0[x].pad.metadata.id;
                            let w = choose|w: int| 0 <= w < node_ids(m0).len() && node_ids(m0)[w] == id;
                            assert(m0[w].pad.metadata.id == id);
                            assert(node_ids(m)[w] == m[w].pad.metadata.id);
                        }
                    }
                    assert forall|k: int| 0 <= k <= sels.len() implies (select_all(l, #[trigger] sels.take(k)) is Ok
                        && is_prefix(select_all(l, sels.take(k))->Ok_0, m)) by {
                        if k < sels.len() {
                            assert(sels.drop_last().take(k) =~= sels.take(k));
                        } else {
                            assert(sels.take(k) =~= sels);
                        }
                    }
                },
                Err(_) => {},
            },
            Err(_) => {},
        }
    }
}

proof fn lemma_add_each_single(m: Seq<DisplayPadV>, x: DisplayPadV)
    ensures
        add_each(m, seq![x]) == add_unique(m, x),
{
    assert(seq![x].drop_last() =~= Seq::<DisplayPadV>::empty());
    assert(add_each(m, Seq::<DisplayPadV>::empty()) == m);
    assert(seq![x].last() == x);
}

fn push_unique(m: &mut Vec<DisplayPad>, d: &DisplayPad)
    ensures
        dps_view(final(m)@) == add_unique(dps_view(old(m)@), dp_view(*d)),
{
    proof {
        lemma_dps_view_index(m@);
    }
    let mut i: usize = 0;
    while i < m.len()
        invariant
            i <= m.len(),
            dps_view(m@).len() == m@.len(),
            forall|k: int| 0 <= k < m@.len() ==> #[trigger] dps_view(m@)[k] == dp_view(m@[k]),
            forall|k: int| 0 <= k < i ==> m@[k].pad.metadata.id != d.pad.metadata.id,
        decreases m.len() - i,
    {
        if m[i].pad.metadata.id == d.pad.metadata.id {
            proof {
                assert(node_ids(dps_view(m@))[i as int] == d.pad.metadata.id);
            }
            return;
        }
        i += 1;
    }
    proof {
        assert(!node_ids(dps_view(m@)).contains(d.pad.metadata.id)) by {
            if node_ids(dps_view(m@)).contains(d.pad.metadata.id) {
                let k = choose|k: int| 0 <= k < node_ids(dps_view(m@)).len() && node_ids(dps_view(m@))[k] == d.pad.metadata.id;
                assert(dps_view(m@)[k] == dp_view(m@[k]));
            }
        }
    }
    let ghost before = m@;
    let c = dp_clone(d);
    m.push(c);
    proof {
        lemma_dps_view_push(before, c);
    }
}

fn with_chars(before: &str, t: &Vec<char>, after: &str) -> (r: String)
    ensures
        r@ == before@ + t@ + after@,
{
    let mut m = lit(before);
    append_chars(&mut m, t);
    append_chars(&mut m, &lit(after));
    string_from_chars(&m)
}

fn selector_error(before: &str, p: &Vec<DisplayIndex>, after: &str) -> (r: PadzError)
    ensures
        r matches PadzError::Api(m) && m@ == before@ + crate::index::path_text(p@) + after@,
{
    PadzError::Api(with_chars(before, &crate::index::path_chars(p), after))
}

/// Adds the pads one selector picks (see [`select_one`]).
fn select_into(l: &Vec<Lined>, sel: &PadSelector, matched: &mut Vec<DisplayPad>) -> (r: Result<(), PadzError>)
    ensures
        match select_one(lined_view(l@), sel@) {
            Ok(ds) => r is Ok && dps_view(final(matched)@) == add_each(dps_view(old(matched)@), ds),
            Err(_) => r matches Err(PadzError::Api(m)) && select_error_text(lined_view(l@), sel@, m@),
        },
{
    let ghost lv = lined_view(l@);
    let ghost m0 = dps_view(matched@);
    match sel {
        PadSelector::Path(p) => match find_path_exec(l, p) {
            Some(k) => {
                push_unique(matched, l[k].node);
                proof {
                    assert(lv[k as int].1 == dp_view(*l@[k as int].node));
                    lemma_add_each_single(m0, lv[k as int].1);
                }
                Ok(())
            },
            None => Err(selector_error("Index ", p, " not found in current scope")),
        },
        PadSelector::Range(a, z) => {
            let i = match find_path_exec(l, a) {
                Some(i) => i,
                None => return Err(selector_error("Range start ", a, " not found")),
            };
            let j = match find_path_exec(l, z) {
                Some(j) => j,
                None => return Err(selector_error("Range end ", z, " not found")),
            };
            if i > j {
                return Err(PadzError::Api(string_from_chars(&lit("Invalid range: start appears after end"))));
            }
            let ghost ds = Seq::new((j - i + 1) as nat, |k: int| lv[i + k].1);
            let mut k: usize = i;
            proof {
                assert(ds.take(0) =~= Seq::<DisplayPadV>::empty());
            }
            while k <= j
                invariant
                    lv == lined_view(l@),
                    i <= k <= j + 1,
                    j < l@.len(),
                    j < l.len(),
                    ds == Seq::new((j - i + 1) as nat, |k: int| lv[i + k].1),
                    dps_view(matched@) == add_each(m0, ds.take(k - i)),
                decreases j + 1 - k,
            {
                push_unique(matched, l[k].node);
                proof {
                    assert(ds.take(k - i + 1).drop_last() =~= ds.take(k - i));
                    assert(ds.take(k - i + 1).last() == lv[k as int].1);
                    assert(lv[k as int].1 == dp_view(*l@[k as int].node));
                }
                k += 1;
            }
            proof {
                assert(ds.take(j - i + 1) =~= ds);
            }
            Ok(())
        },
        PadSelector::Uuid(u) => match find_id_exec(l, *u) {
            Some(k) => {
                push_unique(matched, l[k].node);
                proof {
                    assert(lv[k as int].1 == dp_view(*l@[k as int].node));
                    lemma_add_each_single(m0, lv[k as int].1);
                }
                Ok(())
            },
            None => {
                let t = chars_of(uuid_text(*u).as_str());
                let m = with_chars("No pad found with UUID ", &t, "");
                proof {
                    reveal_strlit("");
                    assert(m@ =~= "No pad found with UUID "@ + crate::model::uuid_hyphenated(*u));
                }
                Err(PadzError::Api(m))
            },
        },
        PadSelector::ShortUuid(h) => {
            let hex = chars_of(h.as_str());
            let (count, first) = prefix_matches(l, &hex);
            if count == 1 {
                proof {
                    let m = positions(lv.len() as int, |k: int| prefix_match(lv, h@, k));
                    crate::resolve::lemma_positions_bounds(lv.len() as int, |k: int| prefix_match(lv, h@, k));
                    assert(m[0] == first);
                }
                push_unique(matched, l[first].node);
                proof {
                    assert(lv[first as int].1 == dp_view(*l@[first as int].node));
                    lemma_add_each_single(m0, lv[first as int].1);
                }
                Ok(())
            } else if count == 0 {
                let m = with_chars("No pad found with UUID prefix ", &hex, "");
                proof {
                    reveal_strlit("");
                    assert(m@ =~= "No pad found with UUID prefix "@ + h@);
                }
                Err(PadzError::Api(m))
            } else {
                let mut m = lit("UUID prefix \"");
                append_chars(&mut m, &hex);
                append_chars(&mut m, &lit("\" matches "));
                append_chars(&mut m, &decimal_chars(count));
                append_chars(&mut m, &lit(" pads. Use more characters to be unique."));
                proof {
                    assert(m@ =~= "UUID prefix \""@ + h@ + "\" matches "@ + crate::text::decimal(count as nat)
                        + " pads. Use more characters to be unique."@);
                }
                Err(PadzError::Api(string_from_chars(&m)))
            }
        },
        PadSelector::Title(t) => {
            let ghost pred = |k: int| title_match(lv, t@, TitleBucket::Any, k);
            let term_lower = chars_of(to_lowercase(t.as_str()).as_str());
            let mut count: usize = 0;
            let mut k: usize = 0;
            while k < l.len()
                invariant
                    lv == lined_view(l@),
                    pred == (|k: int| title_match(lv, t@, TitleBucket::Any, k)),
                    term_lower@ == crate::text::spec_lowercase(t@),
                    k <= l.len(),
                    count == positions(k as int, pred).len(),
                    count <= k,
                    dps_view(matched@) == add_each(m0, positions(k as int, pred).map_values(|q: int| lv[q].1)),
                decreases l.len() - k,
            {
                let title_lower = chars_of(to_lowercase(l[k].node.pad.metadata.title.as_str()).as_str());
                let hit = contains_chars(&title_lower, &term_lower);
                proof {
                    lemma_positions_push(k as int, pred);
                    assert(crate::resolve::path_in_bucket(lv[k as int].0, TitleBucket::Any));
                    assert(lv[k as int].1 == dp_view(*l@[k as int].node));
                    assert(pred(k as int) == hit);
                }
                if hit {
                    push_unique(matched, l[k].node);
                    count += 1;
                    proof {
                        let before = positions(k as int, pred);
                        let bm = before.map_values(|q: int| lv[q].1);
                        assert(before.push(k as int).map_values(|q: int| lv[q].1) =~= bm.push(lv[k as int].1));
                        assert(bm.push(lv[k as int].1).drop_last() =~= bm);
                    }
                }
                k += 1;
            }
            proof {
                assert(pred =~= (|k: int| title_match(lined_view(l@), t@, TitleBucket::Any, k)));
                let m = positions(lv.len() as int, pred);
                assert(m.map_values(|q: int| lv[q].1) =~= m.map_values(|k: int| lined_view(l@)[k].1));
            }
            if count == 0 {
                Err(PadzError::Api(with_chars("No pad found matching \"", &chars_of(t.as_str()), "\"")))
            } else {
                Ok(())
            }
        },
    }
}

/// Keeps only the pads the selectors pick, each with its full subtree, in
/// the order first picked (see [`select_all`]).
pub fn filter_by_selectors(pads: &Vec<DisplayPad>, selectors: &Vec<PadSelector>) -> (r: Result<
    Vec<DisplayPad>,
    PadzError,
>)
    ensures
        match select_all(linearize(dps_view(pads@)), crate::resolve::selectors_view(selectors@)) {
            Ok(m) => r matches Ok(v) && dps_view(v@) == m,
            Err(_) => r matches Err(PadzError::Api(m)) && select_all_error_text(
                linearize(dps_view(pads@)),
                crate::resolve::selectors_view(selectors@),
                m@,
            ),
        },
{
    let l = linearize_tree(pads);
    let ghost lv = lined_view(l@);
    let ghost sv = crate::resolve::selectors_view(selectors@);
    let mut matched: Vec<DisplayPad> = Vec::new();
    let mut i: usize = 0;
    proof {
        assert(dps_view(matched@) =~= Seq::<DisplayPadV>::empty());
    }
    while i < selectors.len()
        invariant
            lv == lined_view(l@),
            lv == linearize(dps_view(pads@)),
            sv == crate::resolve::selectors_view(selectors@),
            i <= selectors.len(),
            select_all(lv, sv.take(i as int)) == Ok::<Seq<DisplayPadV>, ()>(dps_view(matched@)),
        decreases selectors.len() - i,
    {
        proof {
            assert(sv.take(i + 1).drop_last() =~= sv.take(i as int));
            assert(sv.take(i + 1).last() == selectors@[i as int]@);
        }
        match select_into(&l, &selectors[i], &mut matched) {
            Ok(()) => {},
            Err(e) => {
                proof {
                    lemma_select_prefix_err(lv, sv, i + 1);
                    lemma_select_text_prefix(lv, sv, i + 1, e->Api_0@);
                }
                return Err(e);
            },
        }
        i += 1;
    }
    proof {
        assert(sv.take(selectors.len() as int) =~= sv);
    }
    Ok(matched)
}

proof fn lemma_select_text_prefix(l: Seq<LinV>, sels: Seq<SelectorV>, k: int, msg: Seq<char>)
    requires
        0 <= k <= sels.len(),
        select_all(l, sels.take(k)) is Err,
        select_all_error_text(l, sels.take(k), msg),
    ensures
        select_all_error_text(l, sels, msg),
    decreases sels.len() - k,
{
    if k < sels.len() {
        assert(sels.take(k + 1).drop_last() =~= sels.take(k));
        lemma_select_text_prefix(l, sels, k + 1, msg);
    } else {
        assert(sels.take(k) =~= sels);
    }
}

proof fn lemma_select_prefix_err(l: Seq<LinV>, sels: Seq<SelectorV>, k: int)
    requires
        0 <= k <= sels.len(),
        select_all(l, sels.take(k)) is Err,
    ensures
        select_all(l, sels) is Err,
    decreases sels.len() - k,
{
    if k < sels.len() {
        assert(sels.take(k + 1).drop_last() =~= sels.take(k));
        lemma_select_prefix_err(l, sels, k + 1);
    } else {
        assert(sels.take(k) =~= sels);
    }
}

// ---------------------------------------------------------------------------
// Listing
// ---------------------------------------------------------------------------

/// What a listing shows.
#[derive(Debug)]
pub struct PadFilter {
    pub status: PadStatusFilter,
    pub search_term: Option<String>,
    /// Only pads with this todo status (none: any status).
    pub todo_status: Option<TodoStatus>,
    /// Only pads carrying all these tags (none or empty: any tags).
    pub tags: Option<Vec<String>>,
}

impl Default for PadFilter {
    /// Active pads, no search, no todo or tag filter.
    fn default() -> (r: PadFilter)
        ensures
            r.status == PadStatusFilter::Active,
            r.search_term is None,
            r.todo_status is None,
            r.tags is None,
    {
        PadFilter { status: PadStatusFilter::Active, search_term: None, todo_status: None, tags: None }
    }
}

pub open spec fn opt_text(t: Option<String>) -> Option<Seq<char>> {
    match t {
        Some(s) => Some(s@),
        None => None,
    }
}

pub open spec fn opt_tags(t: Option<Vec<String>>) -> Option<Seq<Seq<char>>> {
    match t {
        Some(v) => Some(strings_view(v@)),
        None => None,
    }
}

/// The attribute filters of a listing: the todo status, when given, and
/// all the tags, when some are given.
pub open spec fn filters_for(todo: Option<TodoStatus>, tags: Option<Seq<Seq<char>>>) -> Seq<FilterV> {
    (match todo {
        Some(t) => seq![("status"@, FilterOp::Eq, AttrValueV::Enum(status_name(t)))],
        None => Seq::empty(),
    }) + (match tags {
        Some(ts) => if ts.len() > 0 {
            seq![("tags"@, FilterOp::ContainsAll, AttrValueV::List(ts))]
        } else {
            Seq::empty()
        },
        None => Seq::empty(),
    })
}

/// The pads a listing shows: the pads the selectors pick (all, without
/// selectors), filtered by status, then by attributes, then searched.
pub open spec fn spec_listing(
    roots: Seq<DisplayPadV>,
    status: PadStatusFilter,
    search: Option<Seq<char>>,
    todo: Option<TodoStatus>,
    tags: Option<Seq<Seq<char>>>,
    sels: Seq<SelectorV>,
) -> Result<Seq<DisplayPadV>, ()> {
    let chosen = if sels.len() == 0 {
        Ok(roots)
    } else {
        select_all(linearize(roots), sels)
    };
    match chosen {
        Err(_) => Err(()),
        Ok(c) => {
            let a = spec_apply_attr_filters(status_forest(c, status), filters_for(todo, tags));
            Ok(
                match search {
                    Some(t) => self::search::spec_apply_search(a, t),
                    None => a,
                },
            )
        },
    }
}

/// Every pad of the list, and every pad below them, has a pinned index.
pub open spec fn all_pinned(ns: Seq<DisplayPadV>) -> bool
    decreases ns,
{
    if ns.len() == 0 {
        true
    } else {
        all_pinned(ns.drop_last()) && ns.last().index is Pinned && all_pinned(ns.last().children)
    }
}

proof fn lemma_all_pinned_index(ns: Seq<DisplayPadV>)
    requires
        all_pinned(ns),
    ensures
        forall|i: int| 0 <= i < ns.len() ==> (#[trigger] ns[i]).index is Pinned && all_pinned(ns[i].children),
    decreases ns.len(),
{
    if ns.len() > 0 {
        lemma_all_pinned_index(ns.drop_last());
        assert forall|i: int| 0 <= i < ns.len() implies (#[trigger] ns[i]).index is Pinned && all_pinned(ns[i].children) by {
            if i < ns.len() - 1 {
                assert(ns.drop_last()[i] == ns[i]);
            }
        }
    }
}

proof fn lemma_status_pinned(ns: Seq<DisplayPadV>)
    ensures
        all_pinned(status_forest(ns, PadStatusFilter::Pinned)),
    decreases ns,
{
    if ns.len() > 0 {
        lemma_status_pinned(ns.drop_last());
        let n = ns.last();
        let r = status_forest(ns.drop_last(), PadStatusFilter::Pinned);
        if n.index is Pinned {
            lemma_status_pinned(n.children);
            let x = status_node(n, PadStatusFilter::Pinned)->0;
            assert(r.push(x).drop_last() =~= r);
        }
    }
}

proof fn lemma_status_pinned_keeps(ns: Seq<DisplayPadV>)
    ensures
        forall|i: int|
            0 <= i < ns.len() && (#[trigger] ns[i]).index is Pinned ==> exists|j: int|
                0 <= j < status_forest(ns, PadStatusFilter::Pinned).len() && (#[trigger] status_forest(
                    ns,
                    PadStatusFilter::Pinned,
                )[j]).pad == ns[i].pad && status_forest(ns, PadStatusFilter::Pinned)[j].index == ns[i].index,
    decreases ns.len(),
{
    if ns.len() > 0 {
        let t = ns.drop_last();
        lemma_status_pinned_keeps(t);
        let r = status_forest(t, PadStatusFilter::Pinned);
        assert forall|i: int|
            0 <= i < ns.len() && (#[trigger] ns[i]).index is Pinned implies exists|j: int|
                0 <= j < status_forest(ns, PadStatusFilter::Pinned).len() && (#[trigger] status_forest(
                    ns,
                    PadStatusFilter::Pinned,
                )[j]).pad == ns[i].pad && status_forest(ns, PadStatusFilter::Pinned)[j].index == ns[i].index by {
            let f = status_forest(ns, PadStatusFilter::Pinned);
            if i < ns.len() - 1 {
                assert(t[i] == ns[i]);
                let j = choose|j: int| 0 <= j < r.len() && (#[trigger] r[j]).pad == t[i].pad && r[j].index == t[i].index;
                assert(f[j] == r[j]);
            } else {
                let x = status_node(ns[i], PadStatusFilter::Pinned)->0;
                assert(ns[i] == ns.last());
                assert(status_node(ns[i], PadStatusFilter::Pinned) is Some);
                assert(f == r.push(x));
                assert(f[r.len() as int] == x);
            }
        }
    }
}

proof fn lemma_attr_keeps_pinned(ns: Seq<DisplayPadV>, fs: Seq<FilterV>)
    requires
        all_pinned(ns),
    ensures
        all_pinned(attr_forest(ns, fs)),
    decreases ns,
{
    if ns.len() > 0 {
        lemma_attr_keeps_pinned(ns.drop_last(), fs);
        lemma_attr_keeps_pinned(ns.last().children, fs);
        let r = attr_forest(ns.drop_last(), fs);
        match attr_node(ns.last(), fs) {
            Some(x) => {
                assert(r.push(x).drop_last() =~= r);
                assert(all_pinned(r.push(x)));
            },
            None => {},
        }
    }
}

/// The pinned status filter lists only pinned pads, and all of them: under
/// it every pad it keeps, and every pad below those, has a pinned index,
/// and each pinned pad of the list is kept. A listing under that filter
/// shows only pinned pads: at every depth without a search, at the top
/// with one.
pub proof fn lemma_pinned_filter(
    ns: Seq<DisplayPadV>,
    search: Option<Seq<char>>,
    todo: Option<TodoStatus>,
    tags: Option<Seq<Seq<char>>>,
    sels: Seq<SelectorV>,
)
    ensures
        all_pinned(status_forest(ns, PadStatusFilter::Pinned)),
        forall|i: int|
            0 <= i < ns.len() && (#[trigger] ns[i]).index is Pinned ==> exists|j: int|
                0 <= j < status_forest(ns, PadStatusFilter::Pinned).len() && (#[trigger] status_forest(
                    ns,
                    PadStatusFilter::Pinned,
                )[j]).pad == ns[i].pad && status_forest(ns, PadStatusFilter::Pinned)[j].index == ns[i].index,
        spec_listing(ns, PadStatusFilter::Pinned, search, todo, tags, sels) matches Ok(v) ==> (forall|j: int|
            0 <= j < v.len() ==> (#[trigger] v[j]).index is Pinned) && (search is None ==> all_pinned(v)),
{
    lemma_status_pinned(ns);
    lemma_status_pinned_keeps(ns);
    let chosen = if sels.len() == 0 {
        Ok(ns)
    } else {
        select_all(linearize(ns), sels)
    };
    match chosen {
        Ok(c) => {
            let sf = status_forest(c, PadStatusFilter::Pinned);
            lemma_status_pinned(c);
            let fs = filters_for(todo, tags);
            let a = spec_apply_attr_filters(sf, fs);
            if fs.len() > 0 {
                lemma_attr_keeps_pinned(sf, fs);
            }
            lemma_all_pinned_index(a);
            match search {
                Some(t) => {
                    assert forall|j: int| 0 <= j < self::search::spec_apply_search(a, t).len() implies (#[trigger] self::search::spec_apply_search(
                        a,
                        t,
                    )[j]).index is Pinned by {
                        self::search::lemma_search_result_one(a, t, j);
                    }
                },
                None => {
                    assert forall|j: int| 0 <= j < a.len() implies (#[trigger] a[j]).index is Pinned by {}
                },
            }
        },
        Err(_) => {},
    }
}

/// What listing the pads of a scope gives (see [`spec_listing`]).
pub open spec fn listing_outcome(
    s: Seq<crate::store::StoredV>,
    scope: Scope,
    filter: PadFilter,
    sels: Seq<crate::index::SelectorV>,
    r: Result<CmdResult, PadzError>,
) -> bool {
    match spec_listing(
        crate::store::spec_indexed(s, scope),
        filter.status,
        opt_text(filter.search_term),
        filter.todo_status,
        opt_tags(filter.tags),
        sels,
    ) {
        Ok(v) => r matches Ok(res) && dps_view(res.listed_pads@) == v && res.affected_pads@.len() == 0
            && res.messages@.len() == 0 && res.pad_paths@.len() == 0 && res.listed_depths@.len() == 0
            && res.notices@.len() == 0 && res.outcomes@.len() == 0 && res.nesting == crate::commands::NestingMode::Tree,
        Err(_) => r matches Err(PadzError::Api(m)) && select_all_error_text(
            linearize(crate::store::spec_indexed(s, scope)),
            sels,
            m@,
        ),
    }
}

/// Lists the pads of a scope (see [`listing_outcome`]).
pub fn run(store: &crate::store::Store, scope: Scope, filter: PadFilter, selectors: &Vec<PadSelector>) -> (r: Result<
    CmdResult,
    PadzError,
>)
    ensures
        listing_outcome(store@, scope, filter, crate::resolve::selectors_view(selectors@), r),
{
    let indexed = match crate::store::indexed_pads(store, scope) {
        Ok(v) => v,
        Err(e) => return Err(e),
    };
    let chosen = if selectors.len() == 0 {
        indexed
    } else {
        match filter_by_selectors(&indexed, selectors) {
            Ok(v) => v,
            Err(e) => return Err(e),
        }
    };
    let by_status = filter_tree(&chosen, filter.status);
    let mut filters: Vec<AttrFilter> = Vec::new();
    match filter.todo_status {
        Some(t) => {
            filters.push(AttrFilter::eq("status", AttrValue::Enum(status_text(t))));
        },
        None => {},
    }
    let ghost before_tags = filters@;
    match filter.tags {
        Some(tags) => {
            if tags.len() > 0 {
                filters.push(AttrFilter::contains_all("tags", tags));
            }
        },
        None => {},
    }
    proof {
        reveal_strlit("status");
        reveal_strlit("tags");
        assert(filters_view(filters@) =~= filters_for(filter.todo_status, opt_tags(filter.tags)));
    }
    let by_attrs = apply_attr_filters(&by_status, &filters);
    let listed = match filter.search_term {
        Some(t) => self::search::apply_search(&by_attrs, t.as_str()),
        None => by_attrs,
    };
    Ok(CmdResult::new().with_listed_pads(listed))
}

} // verus!
