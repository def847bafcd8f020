//! The indexed pad tree.
//!
//! `index_pads` arranges the pads of one scope into a forest. Every sibling
//! list holds, in this order: the pinned active pads (`p1`, `p2`, ...), all
//! active pads (`1`, `2`, ...; a pinned pad appears here a second time, with
//! the same children), the archived pads (`ar1`, ...)
//! and the deleted pads (`d1`, ...). Within each group pads are numbered
//! newest first: by creation time, later first, and among equal times the one
//! listed later first. A pad whose parent is not among the pads is a root.
use vstd::prelude::*;
use crate::index::DisplayIndex;
use crate::model::{Bucket, Pad, PadV};

verus! {

/// A piece of text from a search hit: plain, or the matched term.
#[derive(Debug, PartialEq, Eq)]
pub enum MatchSegment {
    Plain(String),
    Match(String),
}

/// A line of a pad that matched a search, cut into segments.
#[derive(Debug)]
pub struct SearchMatch {
    pub line_number: usize,
    pub segments: Vec<MatchSegment>,
}

/// A pad together with its display index and its displayed children.
#[derive(Debug)]
pub struct DisplayPad {
    pub pad: Pad,
    pub index: DisplayIndex,
    pub matches: Option<Vec<SearchMatch>>,
    pub children: Vec<DisplayPad>,
}

pub enum MatchSegmentV {
    Plain(Seq<char>),
    Match(Seq<char>),
}

pub struct SearchMatchV {
    pub line_number: usize,
    pub segments: Seq<MatchSegmentV>,
}

/// The mathematical value of a [`DisplayPad`].
pub struct DisplayPadV {
    pub pad: PadV,
    pub index: DisplayIndex,
    pub matches: Option<Seq<SearchMatchV>>,
    pub children: Seq<DisplayPadV>,
}

impl View for MatchSegment {
    type V = MatchSegmentV;

    open spec fn view(&self) -> MatchSegmentV {
        match self {
            MatchSegment::Plain(s) => MatchSegmentV::Plain(s@),
            MatchSegment::Match(s) => MatchSegmentV::Match(s@),
        }
    }
}

pub open spec fn segments_view(s: Seq<MatchSegment>) -> Seq<MatchSegmentV> {
    s.map_values(|m: MatchSegment| m@)
}

impl View for SearchMatch {
    type V = SearchMatchV;

    open spec fn view(&self) -> SearchMatchV {
        SearchMatchV { line_number: self.line_number, segments: segments_view(self.segments@) }
    }
}

pub open spec fn search_matches_view(m: Option<Vec<SearchMatch>>) -> Option<Seq<SearchMatchV>> {
    match m {
        Some(v) => Some(v@.map_values(|x: SearchMatch| x@)),
        None => None,
    }
}

/// The value of a display pad.
pub open spec fn dp_view(dp: DisplayPad) -> DisplayPadV
    decreases dp,
{
    DisplayPadV {
        pad: dp.pad@,
        index: dp.index,
        matches: search_matches_view(dp.matches),
        children: dps_view(dp.children@),
    }
}

/// The values of a sequence of display pads.
pub open spec fn dps_view(s: Seq<DisplayPad>) -> Seq<DisplayPadV>
    decreases s,
{
    if s.len() == 0 {
        Seq::empty()
    } else {
        dps_view(s.drop_last()).push(dp_view(s.last()))
    }
}

impl View for DisplayPad {
    type V = DisplayPadV;

    open spec fn view(&self) -> DisplayPadV {
        dp_view(*self)
    }
}

pub proof fn lemma_dps_view_push(s: Seq<DisplayPad>, x: DisplayPad)
    ensures
        dps_view(s.push(x)) == dps_view(s).push(dp_view(x)),
{
    assert(s.push(x).drop_last() =~= s);
}

pub proof fn lemma_dps_view_index(s: Seq<DisplayPad>)
    ensures
        dps_view(s).len() == s.len(),
        forall|i: int| 0 <= i < s.len() ==> #[trigger] dps_view(s)[i] == dp_view(s[i]),
    decreases s.len(),
{
    if s.len() > 0 {
        lemma_dps_view_index(s.drop_last());
    }
}

fn segment_clone(m: &MatchSegment) -> (r: MatchSegment)
    ensures
        r@ == m@,
{
    match m {
        MatchSegment::Plain(s) => MatchSegment::Plain(s.clone()),
        MatchSegment::Match(s) => MatchSegment::Match(s.clone()),
    }
}

/// A copy of a search match.
pub fn search_match_clone(m: &SearchMatch) -> (r: SearchMatch)
    ensures
        r@ == m@,
{
    let mut segs: Vec<MatchSegment> = Vec::new();
    let mut i: usize = 0;
    while i < m.segments.len()
        invariant
            i <= m.segments.len(),
            segs@.len() == i,
            forall|j: int| 0 <= j < i ==> (#[trigger] segs@[j])@ == m.segments@[j]@,
        decreases m.segments.len() - i,
    {
        segs.push(segment_clone(&m.segments[i]));
        i += 1;
    }
    proof {
        assert(segments_view(segs@) =~= segments_view(m.segments@));
    }
    SearchMatch { line_number: m.line_number, segments: segs }
}

/// A copy of optional search matches.
pub fn matches_clone(m: &Option<Vec<SearchMatch>>) -> (r: Option<Vec<SearchMatch>>)
    ensures
        search_matches_view(r) == search_matches_view(*m),
{
    match m {
        None => None,
        Some(v) => {
            let mut out: Vec<SearchMatch> = Vec::new();
            let mut i: usize = 0;
            while i < v.len()
                invariant
                    i <= v.len(),
                    out@.len() == i,
                    forall|j: int| 0 <= j < i ==> (#[trigger] out@[j])@ == v@[j]@,
                decreases v.len() - i,
            {
                out.push(search_match_clone(&v[i]));
                i += 1;
            }
            proof {
                assert(out@.map_values(|x: SearchMatch| x@) =~= v@.map_values(|x: SearchMatch| x@));
            }
            Some(out)
        },
    }
}

/// A deep copy of a display pad and its subtree.
pub fn dp_clone(dp: &DisplayPad) -> (r: DisplayPad)
    ensures
        dp_view(r) == dp_view(*dp),
    decreases dp,
{
    let mut children: Vec<DisplayPad> = Vec::new();
    let mut i: usize = 0;
    while i < dp.children.len()
        invariant
            i <= dp.children.len(),
            dps_view(children@) == dps_view(dp.children@.take(i as int)),
        decreases dp.children.len() - i,
    {
        proof {
            assert(decreases_to!(*dp => dp.children@[i as int]));
        }
        let c = dp_clone(&dp.children[i]);
        let ghost before = children@;
        children.push(c);
        proof {
            lemma_dps_view_push(before, c);
            assert(dp.children@.take(i + 1).drop_last() =~= dp.children@.take(i as int));
        }
        i += 1;
    }
    proof {
        assert(dp.children@.take(dp.children@.len() as int) =~= dp.children@);
    }
    DisplayPad {
        pad: dp.pad.duplicate(),
        index: dp.index,
        matches: matches_clone(&dp.matches),
        children,
    }
}

/// A copy of a display pad without its children or search matches.
pub fn dp_flat(dp: &DisplayPad) -> (r: DisplayPad)
    ensures
        dp_view(r) == flat_dp(dp_view(*dp).pad, dp.index),
{
    let r = DisplayPad { pad: dp.pad.duplicate(), index: dp.index, matches: None, children: Vec::new() };
    proof {
        assert(dps_view(r.children@) =~= Seq::<DisplayPadV>::empty());
    }
    r
}

/// A pad shown on its own, without children or search matches.
pub open spec fn flat_dp(pad: PadV, index: DisplayIndex) -> DisplayPadV {
    DisplayPadV { pad, index, matches: None, children: Seq::empty() }
}

// ---------------------------------------------------------------------------
// The entries of a scope
// ---------------------------------------------------------------------------

/// A pad together with the bucket it was listed from.
pub struct Ent {
    pub bucket: Bucket,
    pub pad: Pad,
}

pub struct EntV {
    pub bucket: Bucket,
    pub pad: PadV,
}

impl View for Ent {
    type V = EntV;

    open spec fn view(&self) -> EntV {
        EntV { bucket: self.bucket, pad: self.pad@ }
    }
}

pub open spec fn ents_view(s: Seq<Ent>) -> Seq<EntV> {
    s.map_values(|e: Ent| e@)
}

pub open spec fn pads_view(s: Seq<Pad>) -> Seq<PadV> {
    s.map_values(|p: Pad| p@)
}

/// Pads tagged with the bucket they came from.
pub open spec fn tagged(pads: Seq<PadV>, b: Bucket) -> Seq<EntV> {
    pads.map_values(|p: PadV| EntV { bucket: b, pad: p })
}

/// The entries `index_pads` works on: active, then archived, then deleted.
pub open spec fn scope_ents(active: Seq<PadV>, archived: Seq<PadV>, deleted: Seq<PadV>) -> Seq<EntV> {
    tagged(active, Bucket::Active) + tagged(archived, Bucket::Archived) + tagged(deleted, Bucket::Deleted)
}

// ---------------------------------------------------------------------------
// Newest-first order
// ---------------------------------------------------------------------------

/// Entry `i` is newer than entry `j`: created later, or at the same time and listed later.
pub open spec fn newer(e: Seq<EntV>, i: int, j: int) -> bool {
    e[i].pad.metadata.created_at > e[j].pad.metadata.created_at || (
    e[i].pad.metadata.created_at == e[j].pad.metadata.created_at && i > j)
}

/// Inserts `p` before the first element it is newer than.
pub open spec fn insert_newest_first(e: Seq<EntV>, o: Seq<int>, p: int) -> Seq<int>
    decreases o.len(),
{
    if o.len() == 0 {
        seq![p]
    } else if newer(e, p, o[0]) {
        seq![p] + o
    } else {
        seq![o[0]] + insert_newest_first(e, o.drop_first(), p)
    }
}

/// The positions `0..n` ordered newest first.
pub open spec fn order_upto(e: Seq<EntV>, n: int) -> Seq<int>
    decreases n,
{
    if n <= 0 {
        Seq::empty()
    } else {
        insert_newest_first(e, order_upto(e, n - 1), n - 1)
    }
}

/// All positions of `e`, newest first.
pub open spec fn newest_first(e: Seq<EntV>) -> Seq<int> {
    order_upto(e, e.len() as int)
}

proof fn lemma_insert_split(e: Seq<EntV>, o: Seq<int>, p: int, k: int)
    requires
        0 <= k <= o.len(),
        forall|j: int| 0 <= j < k ==> !newer(e, p, #[trigger] o[j]),
        k == o.len() || newer(e, p, o[k]),
    ensures
        insert_newest_first(e, o, p) == o.take(k) + seq![p] + o.skip(k),
    decreases k,
{
    if k == 0 {
        if o.len() == 0 {
            assert(o.take(0) + seq![p] + o.skip(0) =~= seq![p]);
        } else {
            assert(o.take(0) + seq![p] + o.skip(0) =~= seq![p] + o);
        }
    } else {
        let t = o.drop_first();
        assert forall|j: int| 0 <= j < k - 1 implies !newer(e, p, #[trigger] t[j]) by {
            assert(t[j] == o[j + 1]);
        }
        lemma_insert_split(e, t, p, k - 1);
        assert(seq![o[0]] + (t.take(k - 1) + seq![p] + t.skip(k - 1)) =~= o.take(k) + seq![p] + o.skip(k));
    }
}

proof fn lemma_order_bounds(e: Seq<EntV>, n: int)
    requires
        0 <= n,
    ensures
        order_upto(e, n).len() == n,
        forall|k: int| 0 <= k < n ==> 0 <= #[trigger] order_upto(e, n)[k] < n,
    decreases n,
{
    if n > 0 {
        lemma_order_bounds(e, n - 1);
        let o = order_upto(e, n - 1);
        lemma_insert_bounds(e, o, n - 1, n);
    }
}

proof fn lemma_insert_bounds(e: Seq<EntV>, o: Seq<int>, p: int, n: int)
    requires
        0 <= p < n,
        forall|k: int| 0 <= k < o.len() ==> 0 <= #[trigger] o[k] < n,
    ensures
        insert_newest_first(e, o, p).len() == o.len() + 1,
        forall|k: int| 0 <= k < o.len() + 1 ==> 0 <= #[trigger] insert_newest_first(e, o, p)[k] < n,
    decreases o.len(),
{
    if o.len() > 0 && !newer(e, p, o[0]) {
        let t = o.drop_first();
        lemma_insert_bounds(e, t, p, n);
        let r = insert_newest_first(e, o, p);
        assert forall|k: int| 0 <= k < o.len() + 1 implies 0 <= #[trigger] r[k] < n by {
            if k > 0 {
                assert(r[k] == insert_newest_first(e, t, p)[k - 1]);
            }
        }
    }
}

/// The positions of `ents`, newest first.
pub fn order_newest_first(ents: &Vec<Ent>) -> (r: Vec<usize>)
    ensures
        r@.map_values(|i: usize| i as int) == newest_first(ents_view(ents@)),
        r@.len() == ents@.len(),
        forall|k: int| 0 <= k < r@.len() ==> #[trigger] r@[k] < ents@.len(),
{
    let ghost e = ents_view(ents@);
    let mut r: Vec<usize> = Vec::new();
    let mut n: usize = 0;
    while n < ents.len()
        invariant
            e == ents_view(ents@),
            n <= ents.len(),
            r@.map_values(|i: usize| i as int) == order_upto(e, n as int),
            r@.len() == n,
            forall|k: int| 0 <= k < r@.len() ==> #[trigger] r@[k] < n,
        decreases ents.len() - n,
    {
        let ghost o = r@.map_values(|i: usize| i as int);
        let mut k: usize = 0;
        while k < r.len()
            invariant
                e == ents_view(ents@),
                n < ents.len(),
                k <= r.len(),
                o == r@.map_values(|i: usize| i as int),
                forall|j: int| 0 <= j < r@.len() ==> #[trigger] r@[j] < n,
                forall|j: int| 0 <= j < k ==> !newer(e, n as int, #[trigger] o[j]),
            ensures
                k <= r.len(),
                forall|j: int| 0 <= j < k ==> !newer(e, n as int, #[trigger] o[j]),
                k == r.len() || newer(e, n as int, o[k as int]),
            decreases r.len() - k,
        {
            let q = r[k];
            let cn = ents[n].pad.metadata.created_at;
            let cq = ents[q].pad.metadata.created_at;
            if cn > cq || (cn == cq && n > q) {
                break;
            }
            k += 1;
        }
        proof {
            assert(k == r.len() || newer(e, n as int, o[k as int]));
            lemma_insert_split(e, o, n as int, k as int);
        }
        let ghost old_r = r@;
        r.insert(k, n);
        proof {
            assert(r@.map_values(|i: usize| i as int) =~= o.take(k as int) + seq![n as int] + o.skip(k as int));
            assert forall|j: int| 0 <= j < r@.len() implies #[trigger] r@[j] < n + 1 by {
                if j < k {
                    assert(r@[j] == old_r[j]);
                } else if j > k {
                    assert(r@[j] == old_r[j - 1]);
                }
            }
        }
        n += 1;
    }
    r
}


// ---------------------------------------------------------------------------
// The forest
// ---------------------------------------------------------------------------

/// The four sibling groups, in display order.
#[derive(Clone, Copy, Debug, PartialEq, Eq, Structural)]
pub enum Group {
    Pinned,
    Regular,
    Archived,
    Deleted,
}

/// Some entry has this id.
pub open spec fn has_pad(e: Seq<EntV>, id: u128) -> bool {
    exists|j: int| 0 <= j < e.len() && #[trigger] e[j].pad.metadata.id == id
}

/// The parent a pad is displayed under: its parent, when that pad is present.
pub open spec fn eff_parent(e: Seq<EntV>, i: int) -> Option<u128> {
    match e[i].pad.metadata.parent_id {
        Some(p) => if has_pad(e, p) {
            Some(p)
        } else {
            None
        },
        None => None,
    }
}

/// Entry `i` belongs to group `g` of the children of `parent` (roots: `None`).
pub open spec fn in_group(e: Seq<EntV>, i: int, parent: Option<u128>, g: Group) -> bool {
    eff_parent(e, i) == parent && match g {
        Group::Pinned => e[i].bucket == Bucket::Active && e[i].pad.metadata.is_pinned,
        Group::Regular => e[i].bucket == Bucket::Active,
        Group::Archived => e[i].bucket == Bucket::Archived,
        Group::Deleted => e[i].bucket == Bucket::Deleted,
    }
}

/// The display index of the `n`-th member of group `g`.
pub open spec fn group_index(g: Group, n: usize) -> DisplayIndex {
    match g {
        Group::Pinned => DisplayIndex::Pinned(n),
        Group::Regular => DisplayIndex::Regular(n),
        Group::Archived => DisplayIndex::Archived(n),
        Group::Deleted => DisplayIndex::Deleted(n),
    }
}

/// The sibling list under `parent`, with `fuel` levels of nesting left.
pub open spec fn forest(e: Seq<EntV>, o: Seq<int>, parent: Option<u128>, fuel: nat) -> Seq<DisplayPadV>
    decreases fuel, o.len() + 1,
{
    if fuel == 0 {
        Seq::empty()
    } else {
        scan(e, o, parent, Group::Pinned, fuel, 0, 0) + scan(e, o, parent, Group::Regular, fuel, 0, 0)
            + scan(e, o, parent, Group::Archived, fuel, 0, 0) + scan(e, o, parent, Group::Deleted, fuel, 0, 0)
    }
}

/// The members of group `g` under `parent` from position `k` of the order
/// on, numbered from `count + 1`.
pub open spec fn scan(
    e: Seq<EntV>,
    o: Seq<int>,
    parent: Option<u128>,
    g: Group,
    fuel: nat,
    k: int,
    count: nat,
) -> Seq<DisplayPadV>
    decreases fuel, o.len() - k,
{
    if fuel == 0 || k < 0 || k >= o.len() {
        Seq::empty()
    } else if in_group(e, o[k], parent, g) {
        seq![
            DisplayPadV {
                pad: e[o[k]].pad,
                index: group_index(g, (count + 1) as usize),
                matches: None,
                children: forest(e, o, Some(e[o[k]].pad.metadata.id), (fuel - 1) as nat),
            },
        ] + scan(e, o, parent, g, fuel, k + 1, count + 1)
    } else {
        scan(e, o, parent, g, fuel, k + 1, count)
    }
}

/// The indexed forest of the given active, archived and deleted pads.
pub open spec fn spec_index_pads(active: Seq<PadV>, archived: Seq<PadV>, deleted: Seq<PadV>) -> Seq<DisplayPadV> {
    let e = scope_ents(active, archived, deleted);
    forest(e, newest_first(e), None, e.len())
}

/// The parent entry `i` is displayed under.
fn effective_parent(ents: &Vec<Ent>, i: usize) -> (r: Option<u128>)
    requires
        i < ents@.len(),
    ensures
        r == eff_parent(ents_view(ents@), i as int),
{
    let ghost e = ents_view(ents@);
    match ents[i].pad.metadata.parent_id {
        None => None,
        Some(p) => {
            let mut j: usize = 0;
            while j < ents.len()
                invariant
                    e == ents_view(ents@),
                    i < ents@.len(),
                    e[i as int].pad.metadata.parent_id == Some(p),
                    j <= ents.len(),
                    forall|k: int| 0 <= k < j ==> #[trigger] e[k].pad.metadata.id != p,
                decreases ents.len() - j,
            {
                if ents[j].pad.metadata.id == p {
                    proof {
                        assert(e[j as int].pad.metadata.id == p);
                    }
                    return Some(p);
                }
                j += 1;
            }
            None
        },
    }
}

fn is_in_group(ents: &Vec<Ent>, i: usize, parent: Option<u128>, g: Group) -> (r: bool)
    requires
        i < ents@.len(),
    ensures
        r == in_group(ents_view(ents@), i as int, parent, g),
{
    let ep = effective_parent(ents, i);
    let same = match (ep, parent) {
        (Some(a), Some(b)) => a == b,
        (None, None) => true,
        _ => false,
    };
    if !same {
        return false;
    }
    let b = ents[i].bucket;
    match g {
        Group::Pinned => b == Bucket::Active && ents[i].pad.metadata.is_pinned,
        Group::Regular => b == Bucket::Active,
        Group::Archived => b == Bucket::Archived,
        Group::Deleted => b == Bucket::Deleted,
    }
}

fn make_group_index(g: Group, n: usize) -> (r: DisplayIndex)
    ensures
        r == group_index(g, n),
{
    match g {
        Group::Pinned => DisplayIndex::Pinned(n),
        Group::Regular => DisplayIndex::Regular(n),
        Group::Archived => DisplayIndex::Archived(n),
        Group::Deleted => DisplayIndex::Deleted(n),
    }
}

fn build_forest(ents: &Vec<Ent>, order: &Vec<usize>, parent: Option<u128>, fuel: usize) -> (r: Vec<DisplayPad>)
    requires
        forall|k: int| 0 <= k < order@.len() ==> #[trigger] order@[k] < ents@.len(),
    ensures
        dps_view(r@) == forest(ents_view(ents@), order@.map_values(|i: usize| i as int), parent, fuel as nat),
    decreases fuel, 1int,
{
    let mut out: Vec<DisplayPad> = Vec::new();
    if fuel == 0 {
        return out;
    }
    let ghost e = ents_view(ents@);
    let ghost o = order@.map_values(|i: usize| i as int);
    scan_into(ents, order, parent, Group::Pinned, fuel, &mut out);
    scan_into(ents, order, parent, Group::Regular, fuel, &mut out);
    scan_into(ents, order, parent, Group::Archived, fuel, &mut out);
    scan_into(ents, order, parent, Group::Deleted, fuel, &mut out);
    proof {
        assert(dps_view(Seq::<DisplayPad>::empty()) =~= Seq::<DisplayPadV>::empty());
        assert(dps_view(out@) =~= forest(e, o, parent, fuel as nat));
    }
    out
}

fn scan_into(
    ents: &Vec<Ent>,
    order: &Vec<usize>,
    parent: Option<u128>,
    g: Group,
    fuel: usize,
    out: &mut Vec<DisplayPad>,
)
    requires
        fuel > 0,
        forall|k: int| 0 <= k < order@.len() ==> #[trigger] order@[k] < ents@.len(),
    ensures
        dps_view(final(out)@) == dps_view(old(out)@) + scan(
            ents_view(ents@),
            order@.map_values(|i: usize| i as int),
            parent,
            g,
            fuel as nat,
            0,
            0,
        ),
    decreases fuel, 0int,
{
    let ghost e = ents_view(ents@);
    let ghost o = order@.map_values(|i: usize| i as int);
    let ghost out0 = dps_view(out@);
    let mut k: usize = 0;
    let mut count: usize = 0;
    while k < order.len()
        invariant
            fuel > 0,
            e == ents_view(ents@),
            o == order@.map_values(|i: usize| i as int),
            forall|j: int| 0 <= j < order@.len() ==> #[trigger] order@[j] < ents@.len(),
            k <= order.len(),
            count <= k,
            dps_view(out@) + scan(e, o, parent, g, fuel as nat, k as int, count as nat) == out0 + scan(
                e,
                o,
                parent,
                g,
                fuel as nat,
                0,
                0,
            ),
        decreases order.len() - k,
    {
        let i = order[k];
        if is_in_group(ents, i, parent, g) {
            let children = build_forest(ents, order, Some(ents[i].pad.metadata.id), fuel - 1);
            let dp = DisplayPad {
                pad: ents[i].pad.duplicate(),
                index: make_group_index(g, count + 1),
                matches: None,
                children,
            };
            let ghost before = out@;
            out.push(dp);
            proof {
                lemma_dps_view_push(before, dp);
                assert(dps_view(Seq::<DisplayPad>::empty()) =~= Seq::<DisplayPadV>::empty());
                assert(search_matches_view(None) == None::<Seq<SearchMatchV>>);
                let node = dp_view(dp);
                assert(scan(e, o, parent, g, fuel as nat, k as int, count as nat) =~= seq![node]
                    + scan(e, o, parent, g, fuel as nat, k + 1, (count + 1) as nat));
                assert(dps_view(out@) + scan(e, o, parent, g, fuel as nat, k + 1, (count + 1) as nat)
                    =~= dps_view(before) + scan(e, o, parent, g, fuel as nat, k as int, count as nat));
            }
            count += 1;
        }
        k += 1;
    }
    proof {
        assert(dps_view(out@) =~= dps_view(out@) + scan(e, o, parent, g, fuel as nat, k as int, count as nat));
    }
}

/// Arranges the pads of a scope into the indexed forest (see the module
/// documentation for the numbering).
pub fn index_pads(active: Vec<Pad>, archived: Vec<Pad>, deleted: Vec<Pad>) -> (r: Vec<DisplayPad>)
    ensures
        dps_view(r@) == spec_index_pads(pads_view(active@), pads_view(archived@), pads_view(deleted@)),
{
    let mut ents: Vec<Ent> = Vec::new();
    append_tagged(&mut ents, &active, Bucket::Active);
    append_tagged(&mut ents, &archived, Bucket::Archived);
    append_tagged(&mut ents, &deleted, Bucket::Deleted);
    proof {
        assert(ents_view(ents@) =~= scope_ents(pads_view(active@), pads_view(archived@), pads_view(deleted@)));
    }
    let order = order_newest_first(&ents);
    build_forest(&ents, &order, None, ents.len())
}

fn append_tagged(ents: &mut Vec<Ent>, pads: &Vec<Pad>, b: Bucket)
    ensures
        ents_view(final(ents)@) == ents_view(old(ents)@) + tagged(pads_view(pads@), b),
{
    let ghost e0 = ents_view(ents@);
    let mut i: usize = 0;
    while i < pads.len()
        invariant
            i <= pads.len(),
            ents_view(ents@) == e0 + tagged(pads_view(pads@.take(i as int)), b),
        decreases pads.len() - i,
    {
        let ghost before = ents@;
        ents.push(Ent { bucket: b, pad: pads[i].duplicate() });
        proof {
            assert(ents_view(ents@) =~= ents_view(before).push(EntV { bucket: b, pad: pads@[i as int]@ }));
            assert(tagged(pads_view(pads@.take(i + 1)), b) =~= tagged(pads_view(pads@.take(i as int)), b).push(
                EntV { bucket: b, pad: pads@[i as int]@ },
            ));
            assert(ents_view(ents@) =~= e0 + tagged(pads_view(pads@.take(i + 1)), b));
        }
        i += 1;
    }
    proof {
        assert(pads@.take(pads@.len() as int) =~= pads@);
    }
}

} // verus!
