//! Selector resolution over the linearized pad tree.
//!
//! The tree is walked in pre-order; every visited pad is paired with its full
//! display path. Paths, ranges, UUIDs, UUID prefixes and title searches are
//! resolved against that list.
use vstd::prelude::*;
use crate::error::PadzError;
use crate::index::{
    copy_path, fmt_path, path_eq, DisplayIndex, PadSelector, SelectorV, path_text,
};
use crate::model::{uuid_simple, uuid_simple_chars, uuid_text, Bucket, Pad, Scope};
use crate::store::{find_pad, indexed_pads, spec_indexed, stored_in, Store, StoredV};
use crate::text::{
    chars_of, chars_starts_with, contains_chars, contains_sub, spec_lowercase, starts_with,
    to_lowercase, lit, append_chars, string_from_chars, decimal_chars, find_from, slice_chars, first_occurrence,
};
use crate::tree::{dp_view, dps_view, DisplayPad, DisplayPadV, lemma_dps_view_index};

verus! {

/// A visited pad with its full display path.
pub type LinV = (Seq<DisplayIndex>, DisplayPadV);

/// Pre-order walk of a sibling list whose parent has display path `prefix`.
pub open spec fn lin_forest(s: Seq<DisplayPadV>, prefix: Seq<DisplayIndex>) -> Seq<LinV>
    decreases s,
{
    if s.len() == 0 {
        Seq::empty()
    } else {
        lin_forest(s.drop_last(), prefix) + lin_node(s.last(), prefix)
    }
}

/// Pre-order walk of one pad and its subtree.
pub open spec fn lin_node(n: DisplayPadV, prefix: Seq<DisplayIndex>) -> Seq<LinV>
    decreases n,
{
    seq![(prefix.push(n.index), n)] + lin_forest(n.children, prefix.push(n.index))
}

/// The linearized tree of a forest of roots.
pub open spec fn linearize(roots: Seq<DisplayPadV>) -> Seq<LinV> {
    lin_forest(roots, Seq::empty())
}

/// A visited pad (by reference) with its full display path.
pub struct Lined<'a> {
    pub path: Vec<DisplayIndex>,
    pub node: &'a DisplayPad,
}

pub open spec fn lined_view(s: Seq<Lined>) -> Seq<LinV> {
    s.map_values(|l: Lined| (l.path@, dp_view(*l.node)))
}

fn lin_recursive<'a>(pad: &'a DisplayPad, prefix: &Vec<DisplayIndex>, out: &mut Vec<Lined<'a>>)
    ensures
        lined_view(final(out)@) == lined_view(old(out)@) + lin_node(dp_view(*pad), prefix@),
    decreases pad,
{
    let mut path = copy_path(prefix);
    path.push(pad.index);
    let ghost p = path@;
    let ghost before = out@;
    out.push(Lined { path: copy_path(&path), node: pad });
    proof {
        assert(lined_view(out@) =~= lined_view(before).push((p, dp_view(*pad))));
    }
    let ghost start = lined_view(out@);
    let mut k: usize = 0;
    while k < pad.children.len()
        invariant
            k <= pad.children.len(),
            path@ == p,
            lined_view(out@) == start + lin_forest(dps_view(pad.children@.take(k as int)), p),
        decreases pad.children.len() - k,
    {
        proof {
            assert(pad.children@.take(k + 1).drop_last() =~= pad.children@.take(k as int));
            assert(decreases_to!(*pad => pad.children@[k as int]));
        }
        lin_recursive(&pad.children[k], &path, out);
        proof {
            let t = pad.children@.take(k + 1);
            assert(dps_view(t) == dps_view(t.drop_last()).push(dp_view(t.last())));
            assert(dps_view(t).drop_last() =~= dps_view(pad.children@.take(k as int)));
            assert(lined_view(out@) =~= start + lin_forest(dps_view(t), p));
        }
        k += 1;
    }
    proof {
        assert(pad.children@.take(pad.children@.len() as int) =~= pad.children@);
        assert(dp_view(*pad).children == dps_view(pad.children@));
        assert(lined_view(out@) =~= lined_view(before) + lin_node(dp_view(*pad), prefix@));
    }
}

/// Linearizes a forest: every pad, in pre-order, with its full display path.
pub fn linearize_tree<'a>(roots: &'a Vec<DisplayPad>) -> (r: Vec<Lined<'a>>)
    ensures
        lined_view(r@) == linearize(dps_view(roots@)),
{
    let mut out: Vec<Lined<'a>> = Vec::new();
    let empty: Vec<DisplayIndex> = Vec::new();
    let mut k: usize = 0;
    proof {
        assert(lined_view(out@) =~= Seq::<LinV>::empty());
        assert(roots@.take(0) =~= Seq::<DisplayPad>::empty());
    }
    while k < roots.len()
        invariant
            k <= roots.len(),
            empty@ == Seq::<DisplayIndex>::empty(),
            lined_view(out@) == lin_forest(dps_view(roots@.take(k as int)), Seq::empty()),
        decreases roots.len() - k,
    {
        proof {
            assert(roots@.take(k + 1).drop_last() =~= roots@.take(k as int));
        }
        lin_recursive(&roots[k], &empty, &mut out);
        proof {
            let t = roots@.take(k + 1);
            assert(dps_view(t).drop_last() =~= dps_view(roots@.take(k as int)));
            assert(lined_view(out@) =~= lin_forest(dps_view(t), Seq::empty()));
        }
        k += 1;
    }
    proof {
        assert(roots@.take(roots@.len() as int) =~= roots@);
    }
    out
}


// ---------------------------------------------------------------------------
// Selector resolution
// ---------------------------------------------------------------------------

/// Which bucket a title search is limited to.
#[derive(Clone, Copy, Debug, PartialEq, Eq, Structural)]
pub enum TitleBucket {
    /// Only active pads (every segment regular or pinned).
    Active,
    /// Only archived pads (some segment archived, none deleted).
    Archived,
    /// Only deleted pads (some segment deleted).
    Deleted,
    /// Any pad.
    Any,
}

pub open spec fn is_deleted_index(i: DisplayIndex) -> bool {
    i matches DisplayIndex::Deleted(_)
}

pub open spec fn is_archived_index(i: DisplayIndex) -> bool {
    i matches DisplayIndex::Archived(_)
}

/// Whether a pad at this path counts as living in the bucket: a path is
/// deleted when any segment is, archived when any segment is (and none is
/// deleted), and active otherwise.
pub open spec fn path_in_bucket(path: Seq<DisplayIndex>, b: TitleBucket) -> bool {
    let has_deleted = exists|i: int| 0 <= i < path.len() && is_deleted_index(#[trigger] path[i]);
    let has_archived = exists|i: int| 0 <= i < path.len() && is_archived_index(#[trigger] path[i]);
    match b {
        TitleBucket::Any => true,
        TitleBucket::Deleted => path.len() > 0 && has_deleted,
        TitleBucket::Archived => path.len() > 0 && has_archived && !has_deleted,
        TitleBucket::Active => path.len() > 0 && !has_deleted && !has_archived,
    }
}

/// Decides [`path_in_bucket`].
pub fn path_in_bucket_exec(path: &Vec<DisplayIndex>, b: TitleBucket) -> (r: bool)
    ensures
        r == path_in_bucket(path@, b),
{
    if b == TitleBucket::Any {
        return true;
    }
    if path.len() == 0 {
        return false;
    }
    let mut has_deleted = false;
    let mut has_archived = false;
    let mut i: usize = 0;
    while i < path.len()
        invariant
            i <= path.len(),
            has_deleted == exists|j: int| 0 <= j < i && is_deleted_index(#[trigger] path@[j]),
            has_archived == exists|j: int| 0 <= j < i && is_archived_index(#[trigger] path@[j]),
        decreases path.len() - i,
    {
        match path[i] {
            DisplayIndex::Deleted(_) => {
                has_deleted = true;
            },
            DisplayIndex::Archived(_) => {
                has_archived = true;
            },
            _ => {},
        }
        i += 1;
    }
    match b {
        TitleBucket::Deleted => has_deleted,
        TitleBucket::Archived => has_archived && !has_deleted,
        _ => !has_deleted && !has_archived,
    }
}

/// The pad at position `k` of the walk is protected from deletion.
pub open spec fn protected_at(l: Seq<LinV>, k: int) -> bool {
    l[k].1.pad.metadata.delete_protected
}

/// The first position at or after `k` whose path is `p`.
pub open spec fn find_path(l: Seq<LinV>, p: Seq<DisplayIndex>, k: int) -> Option<int>
    decreases l.len() - k,
{
    if k < 0 || k >= l.len() {
        None
    } else if l[k].0 == p {
        Some(k)
    } else {
        find_path(l, p, k + 1)
    }
}

/// The first position at or after `k` holding the pad with this id.
pub open spec fn find_id(l: Seq<LinV>, id: u128, k: int) -> Option<int>
    decreases l.len() - k,
{
    if k < 0 || k >= l.len() {
        None
    } else if l[k].1.pad.metadata.id == id {
        Some(k)
    } else {
        find_id(l, id, k + 1)
    }
}

/// The path and id of the pad at position `k`.
pub open spec fn pair_at(l: Seq<LinV>, k: int) -> (Seq<DisplayIndex>, u128) {
    (l[k].0, l[k].1.pad.metadata.id)
}

/// The pad at `k` matches the UUID prefix.
pub open spec fn prefix_match(l: Seq<LinV>, hex: Seq<char>, k: int) -> bool {
    starts_with(uuid_simple(l[k].1.pad.metadata.id), hex)
}

/// The pad at `k` matches the title term within the bucket.
pub open spec fn title_match(l: Seq<LinV>, term: Seq<char>, b: TitleBucket, k: int) -> bool {
    path_in_bucket(l[k].0, b) && contains_sub(
        spec_lowercase(l[k].1.pad.metadata.title),
        spec_lowercase(term),
    )
}

/// Positions `0..n` satisfying `pred`.
pub open spec fn positions(n: int, pred: spec_fn(int) -> bool) -> Seq<int> {
    Seq::new(n as nat, |k: int| k).filter(pred)
}

/// Resolves a single position, checking protection when asked.
pub open spec fn single(l: Seq<LinV>, k: int, check: bool) -> Result<Seq<(Seq<DisplayIndex>, u128)>, ()> {
    if check && protected_at(l, k) {
        Err(())
    } else {
        Ok(seq![pair_at(l, k)])
    }
}

/// What one selector resolves to.
pub open spec fn resolve_one(l: Seq<LinV>, sel: SelectorV, check: bool, b: TitleBucket) -> Result<
    Seq<(Seq<DisplayIndex>, u128)>,
    (),
> {
    match sel {
        SelectorV::Path(p) => match find_path(l, p, 0) {
            Some(k) => if check && protected_at(l, k) {
                Err(())
            } else {
                Ok(seq![(p, l[k].1.pad.metadata.id)])
            },
            None => Err(()),
        },
        SelectorV::Range(a, z) => match (find_path(l, a, 0), find_path(l, z, 0)) {
            (Some(i), Some(j)) => if i > j {
                Err(())
            } else if check && exists|k: int| i <= k <= j && #[trigger] protected_at(l, k) {
                Err(())
            } else {
                Ok(Seq::new((j - i + 1) as nat, |k: int| pair_at(l, i + k)))
            },
            _ => Err(()),
        },
        SelectorV::Uuid(u) => match find_id(l, u, 0) {
            Some(k) => single(l, k, check),
            None => Err(()),
        },
        SelectorV::ShortUuid(h) => {
            let m = positions(l.len() as int, |k: int| prefix_match(l, h, k));
            if m.len() == 1 {
                single(l, m[0], check)
            } else {
                Err(())
            }
        },
        SelectorV::Title(t) => {
            let m = positions(l.len() as int, |k: int| title_match(l, t, b, k));
            if m.len() == 1 {
                single(l, m[0], check)
            } else {
                Err(())
            }
        },
    }
}

/// What a list of selectors resolves to: the concatenation of their
/// resolutions, or an error when any of them fails.
pub open spec fn resolve_all(l: Seq<LinV>, sels: Seq<SelectorV>, check: bool, b: TitleBucket) -> Result<
    Seq<(Seq<DisplayIndex>, u128)>,
    (),
>
    decreases sels.len(),
{
    if sels.len() == 0 {
        Ok(Seq::empty())
    } else {
        match (resolve_all(l, sels.drop_last(), check, b), resolve_one(l, sels.last(), check, b)) {
            (Ok(x), Ok(y)) => Ok(x + y),
            _ => Err(()),
        }
    }
}

/// A selector picks a delete-protected pad: the pad at its path, any pad of
/// its range, the pad with its id, or the single pad its UUID prefix or
/// title designates.
pub open spec fn protected_pick(l: Seq<LinV>, sel: SelectorV, b: TitleBucket) -> bool {
    match sel {
        SelectorV::Path(p) => match find_path(l, p, 0) {
            Some(k) => protected_at(l, k),
            None => false,
        },
        SelectorV::Range(a, z) => match (find_path(l, a, 0), find_path(l, z, 0)) {
            (Some(i), Some(j)) => exists|k: int| i <= k <= j && #[trigger] protected_at(l, k),
            _ => false,
        },
        SelectorV::Uuid(u) => match find_id(l, u, 0) {
            Some(k) => protected_at(l, k),
            None => false,
        },
        SelectorV::ShortUuid(h) => {
            let m = positions(l.len() as int, |k: int| prefix_match(l, h, k));
            m.len() == 1 && protected_at(l, m[0])
        },
        SelectorV::Title(t) => {
            let m = positions(l.len() as int, |k: int| title_match(l, t, b, k));
            m.len() == 1 && protected_at(l, m[0])
        },
    }
}

proof fn lemma_protection_one(l: Seq<LinV>, sel: SelectorV, b: TitleBucket, msg: Seq<char>)
    requires
        resolve_one(l, sel, false, b) is Ok,
    ensures
        resolve_one(l, sel, true, b) == if protected_pick(l, sel, b) {
            Err::<Seq<(Seq<DisplayIndex>, u128)>, ()>(())
        } else {
            resolve_one(l, sel, false, b)
        },
        one_error_text(l, sel, b, msg) <==> msg == protection_text(),
{
}

/// Delete protection across selector kinds: when every selector resolves,
/// checking protection refuses exactly when some selector picks a
/// delete-protected pad, with the protection text; otherwise it resolves
/// to the same pads as without the check.
pub proof fn lemma_delete_protection(l: Seq<LinV>, sels: Seq<SelectorV>, b: TitleBucket, msg: Seq<char>)
    requires
        resolve_all(l, sels, false, b) is Ok,
    ensures
        (exists|i: int| 0 <= i < sels.len() && #[trigger] protected_pick(l, sels[i], b)) ==> resolve_all(l, sels, true, b)
            is Err && (all_error_text(l, sels, true, b, msg) <==> msg == protection_text()),
        !(exists|i: int| 0 <= i < sels.len() && #[trigger] protected_pick(l, sels[i], b)) ==> resolve_all(l, sels, true, b)
            == resolve_all(l, sels, false, b),
    decreases sels.len(),
{
    if sels.len() > 0 {
        let pre = sels.drop_last();
        let last = sels.last();
        assert(resolve_all(l, pre, false, b) is Ok);
        assert(resolve_one(l, last, false, b) is Ok);
        lemma_delete_protection(l, pre, b, msg);
        lemma_protection_one(l, last, b, msg);
        if exists|i: int| 0 <= i < pre.len() && #[trigger] protected_pick(l, pre[i], b) {
            let i = choose|i: int| 0 <= i < pre.len() && #[trigger] protected_pick(l, pre[i], b);
            assert(sels[i] == pre[i]);
        } else {
            assert forall|i: int| 0 <= i < pre.len() implies !#[trigger] protected_pick(l, pre[i], b) by {}
            if protected_pick(l, last, b) {
                assert(sels[sels.len() - 1] == last);
            } else {
                assert forall|i: int| 0 <= i < sels.len() implies !#[trigger] protected_pick(l, sels[i], b) by {
                    if i < sels.len() - 1 {
                        assert(sels[i] == pre[i]);
                    }
                }
            }
        }
    }
}

/// The text of the refusal of a delete-protected pad.
pub open spec fn protection_text() -> Seq<char> {
    "Pinned pads are delete protected, unpin then delete it"@
}

/// Whether `msg` is the error text for a selector that fails (see
/// [`resolve_one`]): a protected pad is refused; a missing path, range end
/// or id is named; a reversed range names both ends; a UUID prefix or title
/// matching nothing is named, and one matching several gives their number
/// (a title match lists up to [`AMBIGUITY_LIST_THRESHOLD`] pads, see
/// [`ambiguity_text`]).
pub open spec fn one_error_text(l: Seq<LinV>, sel: SelectorV, b: TitleBucket, msg: Seq<char>) -> bool {
    match sel {
        SelectorV::Path(p) => match find_path(l, p, 0) {
            Some(_) => msg == protection_text(),
            None => msg == "Index "@ + crate::index::path_text(p) + " not found in current scope"@,
        },
        SelectorV::Range(a, z) => match (find_path(l, a, 0), find_path(l, z, 0)) {
            (None, _) => msg == "Range start "@ + crate::index::path_text(a) + " not found"@,
            (Some(_), None) => msg == "Range end "@ + crate::index::path_text(z) + " not found"@,
            (Some(i), Some(j)) => if i > j {
                msg == "Invalid range: "@ + crate::index::path_text(a) + " appears after "@ + crate::index::path_text(z)
                    + " in the list"@
            } else {
                msg == protection_text()
            },
        },
        SelectorV::Uuid(u) => match find_id(l, u, 0) {
            Some(_) => msg == protection_text(),
            None => msg == "No pad found with UUID "@ + crate::model::uuid_hyphenated(u),
        },
        SelectorV::ShortUuid(h) => {
            let n = positions(l.len() as int, |k: int| prefix_match(l, h, k)).len();
            if n == 1 {
                msg == protection_text()
            } else if n == 0 {
                msg == "No pad found with UUID prefix "@ + h
            } else {
                msg == "UUID prefix \""@ + h + "\" matches "@ + crate::text::decimal(n) + " pads. Use more characters to be unique."@
            }
        },
        SelectorV::Title(t) => {
            let n = positions(l.len() as int, |k: int| title_match(l, t, b, k)).len();
            if n == 1 {
                msg == protection_text()
            } else if n == 0 {
                msg == "No pad found matching \""@ + t + "\""@
            } else {
                exists|h: Seq<char>| #[trigger] highlighted(t, h) && ambiguity_text(l, t, b, n as usize, h, msg)
            }
        },
    }
}

/// Whether `msg` is the error text of the first selector that fails.
pub open spec fn all_error_text(l: Seq<LinV>, sels: Seq<SelectorV>, check: bool, b: TitleBucket, msg: Seq<char>) -> bool
    decreases sels.len(),
{
    if sels.len() == 0 {
        false
    } else if resolve_all(l, sels.drop_last(), check, b) is Err {
        all_error_text(l, sels.drop_last(), check, b, msg)
    } else {
        one_error_text(l, sels.last(), b, msg)
    }
}

pub open spec fn selectors_view(s: Seq<PadSelector>) -> Seq<SelectorV> {
    s.map_values(|x: PadSelector| x@)
}

pub open spec fn resolved_view(s: Seq<(Vec<DisplayIndex>, u128)>) -> Seq<(Seq<DisplayIndex>, u128)> {
    s.map_values(|x: (Vec<DisplayIndex>, u128)| (x.0@, x.1))
}

/// The linearized tree of a scope.
pub open spec fn scope_lin(s: Seq<StoredV>, scope: Scope) -> Seq<LinV> {
    linearize(spec_indexed(s, scope))
}

pub(crate) fn find_path_exec(l: &Vec<Lined>, p: &Vec<DisplayIndex>) -> (r: Option<usize>)
    ensures
        match r {
            Some(k) => find_path(lined_view(l@), p@, 0) == Some(k as int) && k < l@.len(),
            None => find_path(lined_view(l@), p@, 0) is None,
        },
{
    let ghost lv = lined_view(l@);
    let mut k: usize = 0;
    while k < l.len()
        invariant
            lv == lined_view(l@),
            k <= l.len(),
            find_path(lv, p@, 0) == find_path(lv, p@, k as int),
        decreases l.len() - k,
    {
        if path_eq(&l[k].path, p) {
            return Some(k);
        }
        k += 1;
    }
    None
}

pub(crate) fn find_id_exec(l: &Vec<Lined>, id: u128) -> (r: Option<usize>)
    ensures
        match r {
            Some(k) => find_id(lined_view(l@), id, 0) == Some(k as int) && k < l@.len(),
            None => find_id(lined_view(l@), id, 0) is None,
        },
{
    let ghost lv = lined_view(l@);
    let mut k: usize = 0;
    while k < l.len()
        invariant
            lv == lined_view(l@),
            k <= l.len(),
            find_id(lv, id, 0) == find_id(lv, id, k as int),
        decreases l.len() - k,
    {
        if l[k].node.pad.metadata.id == id {
            return Some(k);
        }
        k += 1;
    }
    None
}

fn protection_error() -> (r: PadzError)
    ensures
        r matches PadzError::Api(m) && m@ == "Pinned pads are delete protected, unpin then delete it"@,
{
    PadzError::Api(string_from_chars(&lit("Pinned pads are delete protected, unpin then delete it")))
}

/// Text followed by a path and more text, as a message.
fn message_with_path(before: &str, p: &Vec<DisplayIndex>, after: &str) -> (r: String)
    ensures
        r@ == before@ + crate::index::path_text(p@) + after@,
{
    let mut m = lit(before);
    append_chars(&mut m, &crate::index::path_chars(p));
    append_chars(&mut m, &lit(after));
    string_from_chars(&m)
}

/// Text followed by a quoted term and more text, as a message.
fn message_with_text(before: &str, t: &Vec<char>, after: &str) -> (r: String)
    ensures
        r@ == before@ + t@ + after@,
{
    let mut m = lit(before);
    append_chars(&mut m, t);
    append_chars(&mut m, &lit(after));
    string_from_chars(&m)
}

pub(crate) proof fn lemma_positions_push(n: int, pred: spec_fn(int) -> bool)
    requires
        0 <= n,
    ensures
        positions(n + 1, pred) == if pred(n) {
            positions(n, pred).push(n)
        } else {
            positions(n, pred)
        },
{
    let s = Seq::new((n + 1) as nat, |k: int| k);
    assert(s.drop_last() =~= Seq::new(n as nat, |k: int| k));
    assert(s.last() == n);
    reveal_with_fuel(Seq::filter, 1);
}

pub(crate) proof fn lemma_positions_bounds(n: int, pred: spec_fn(int) -> bool)
    requires
        0 <= n,
    ensures
        forall|i: int| 0 <= i < positions(n, pred).len() ==> 0 <= #[trigger] positions(n, pred)[i] < n,
    decreases n,
{
    if n > 0 {
        lemma_positions_bounds(n - 1, pred);
        lemma_positions_push(n - 1, pred);
    } else {
        assert(Seq::new(0, |k: int| k) =~= Seq::<int>::empty());
        reveal_with_fuel(Seq::filter, 1);
    }
}

/// Counts, and records the first of, the positions matching a UUID prefix.
pub(crate) fn prefix_matches(l: &Vec<Lined>, hex: &Vec<char>) -> (r: (usize, usize))
    ensures
        ({
            let m = positions(l@.len() as int, |k: int| prefix_match(lined_view(l@), hex@, k));
            &&& r.0 == m.len()
            &&& m.len() >= 1 ==> r.1 == m[0]
        }),
{
    let ghost lv = lined_view(l@);
    let ghost pred = |k: int| prefix_match(lv, hex@, k);
    let mut count: usize = 0;
    let mut first: usize = 0;
    let mut k: usize = 0;
    while k < l.len()
        invariant
            lv == lined_view(l@),
            pred == (|k: int| prefix_match(lv, hex@, k)),
            k <= l.len(),
            count == positions(k as int, pred).len(),
            count >= 1 ==> first == positions(k as int, pred)[0],
            count <= k,
        decreases l.len() - k,
    {
        let id_hex = uuid_simple_chars(l[k].node.pad.metadata.id);
        let hit = chars_starts_with(&id_hex, hex);
        proof {
            lemma_positions_push(k as int, pred);
            assert(pred(k as int) == hit);
        }
        if hit {
            if count == 0 {
                first = k;
            }
            count += 1;
        }
        k += 1;
    }
    (count, first)
}

/// Counts, and records the first of, the positions matching a title term.
fn title_matches(l: &Vec<Lined>, term: &str, b: TitleBucket) -> (r: (usize, usize))
    ensures
        ({
            let m = positions(l@.len() as int, |k: int| title_match(lined_view(l@), term@, b, k));
            &&& r.0 == m.len()
            &&& m.len() >= 1 ==> r.1 == m[0]
        }),
{
    let ghost lv = lined_view(l@);
    let ghost pred = |k: int| title_match(lv, term@, b, k);
    let term_lower = chars_of(to_lowercase(term).as_str());
    let mut count: usize = 0;
    let mut first: usize = 0;
    let mut k: usize = 0;
    while k < l.len()
        invariant
            lv == lined_view(l@),
            pred == (|k: int| title_match(lv, term@, b, k)),
            term_lower@ == spec_lowercase(term@),
            k <= l.len(),
            count == positions(k as int, pred).len(),
            count >= 1 ==> first == positions(k as int, pred)[0],
            count <= k,
        decreases l.len() - k,
    {
        let in_b = path_in_bucket_exec(&l[k].path, b);
        let hit = if in_b {
            let title_lower = chars_of(to_lowercase(l[k].node.pad.metadata.title.as_str()).as_str());
            contains_chars(&title_lower, &term_lower)
        } else {
            false
        };
        proof {
            lemma_positions_push(k as int, pred);
            assert(pred(k as int) == hit);
        }
        if hit {
            if count == 0 {
                first = k;
            }
            count += 1;
        }
        k += 1;
    }
    (count, first)
}

/// Most ambiguous title matches listed in an error; above it only their
/// number is given.
pub const AMBIGUITY_LIST_THRESHOLD: usize = 5;

/// The text in the accent colour of list indexes: as it is where the
/// terminal takes no colours, else between the ANSI codes for a yellow
/// foreground and for a reset.
pub open spec fn index_styled(s: Seq<char>, r: Seq<char>) -> bool {
    r == s || r == "\x1b[33m"@ + s + "\x1b[0m"@
}

/// The text highlighted as search hits are: as it is where the terminal
/// takes no colours, else between the ANSI codes for a black foreground on
/// a yellow background and for a reset.
pub open spec fn highlighted(s: Seq<char>, r: Seq<char>) -> bool {
    r == s || r == highlight_text(s, true)
}

/// The text, highlighted or not.
pub open spec fn highlight_text(s: Seq<char>, wrap: bool) -> Seq<char> {
    if wrap {
        "\x1b[30m\x1b[43m"@ + s + "\x1b[0m"@
    } else {
        s
    }
}

/// Calls `console::style` with `yellow()` and formats the result: the text
/// in the accent colour of list indexes. `console` writes the colour codes
/// only where the terminal takes colours, so either form may come back (see
/// [`index_styled`]).
#[verifier::external_body]
fn style_index(s: &str) -> (r: String)
    ensures
        index_styled(s@, r@),
{
    console::style(s).yellow().to_string()
}

/// Calls `console::style` with `black().on_yellow()` and formats the result:
/// the text highlighted as search hits are. `console` writes the colour
/// codes only where the terminal takes colours, so either form may come back
/// (see [`highlighted`]).
#[verifier::external_body]
fn highlight(s: &str) -> (r: String)
    ensures
        highlighted(s@, r@),
{
    console::style(s).black().on_yellow().to_string()
}

/// A search term highlighted and quoted.
fn style_match(term: &str) -> (r: String)
    ensures
        exists|h: Seq<char>| #[trigger] highlighted(term@, h) && r@ == "\""@ + h + "\""@,
{
    let mut m = lit("\"");
    let h = highlight(term);
    append_chars(&mut m, &chars_of(h.as_str()));
    m.push('"');
    proof {
        reveal_strlit("\"");
        assert(m@ =~= "\""@ + h@ + "\""@);
    }
    string_from_chars(&m)
}

/// The characters of `s` from `a` to `b`, `b` clamped to its length and `a`
/// to `b`.
pub open spec fn clamped(s: Seq<char>, a: int, b: int) -> Seq<char> {
    let hi = if b < s.len() {
        b
    } else {
        s.len() as int
    };
    let lo = if a < hi {
        a
    } else {
        hi
    };
    s.subrange(lo, hi)
}

/// The characters of `t` from `a` to `b`, both clamped to its length.
fn clamped_slice(t: &Vec<char>, a: usize, b: usize) -> (r: Vec<char>)
    ensures
        r@ == clamped(t@, a as int, b as int),
{
    let hi = if b < t.len() {
        b
    } else {
        t.len()
    };
    let lo = if a < hi {
        a
    } else {
        hi
    };
    slice_chars(t, lo, hi)
}

/// The title `t` from `cursor` on with each occurrence of `term` in its
/// lowercased form `tl` (found from left to right, not overlapping)
/// highlighted, the `k`-th one of them as `st[k]` says.
pub open spec fn marked_title(
    t: Seq<char>,
    tl: Seq<char>,
    term: Seq<char>,
    cursor: int,
    st: Seq<bool>,
    k: int,
) -> Seq<char>
    decreases tl.len() + 1 - cursor,
{
    if cursor < 0 || cursor > tl.len() {
        clamped(t, cursor, t.len() as int)
    } else {
        match first_occurrence(tl, term, cursor) {
            None => clamped(t, cursor, t.len() as int),
            Some(start) => {
                let end = start + term.len();
                if end <= cursor || end > tl.len() {
                    clamped(t, cursor, t.len() as int)
                } else {
                    clamped(t, cursor, start) + highlight_text(clamped(t, start, end), st[k]) + marked_title(
                        t,
                        tl,
                        term,
                        end,
                        st,
                        k + 1,
                    )
                }
            },
        }
    }
}

/// A title with every case-insensitive occurrence of a lowercased term
/// highlighted, each as `st` says (see [`marked_title`]); the title as it
/// is for an empty term.
pub open spec fn title_with_match(title: Seq<char>, term_lower: Seq<char>, st: Seq<bool>) -> Seq<char> {
    if term_lower.len() == 0 {
        title
    } else {
        marked_title(title, spec_lowercase(title), term_lower, 0, st, 0)
    }
}

/// A title with every case-insensitive occurrence of the lowercased term
/// highlighted; positions are those of the lowercased title.
fn style_title_with_match(title: &str, term_lower: &Vec<char>) -> (r: String)
    ensures
        exists|st: Seq<bool>| #[trigger] title_with_match(title@, term_lower@, st) == r@,
{
    if term_lower.len() == 0 {
        let r = string_from_chars(&chars_of(title));
        assert(title_with_match(title@, term_lower@, Seq::<bool>::empty()) == r@);
        return r;
    }
    let tl = chars_of(to_lowercase(title).as_str());
    let t = chars_of(title);
    let ghost term = term_lower@;
    let mut out: Vec<char> = Vec::new();
    let mut cursor: usize = 0;
    let mut done = false;
    let ghost mut styles: Seq<bool> = Seq::empty();
    proof {
        assert forall|st: Seq<bool>| st.len() >= 0 && st.take(0) == styles implies #[trigger] marked_title(t@, tl@, term, 0, st, 0)
            == out@ + marked_title(t@, tl@, term, 0, st, 0) by {
            assert(out@ + marked_title(t@, tl@, term, 0, st, 0) =~= marked_title(t@, tl@, term, 0, st, 0));
        }
    }
    while !done
        invariant
            term == term_lower@,
            term.len() > 0,
            t@ == title@,
            tl@ == spec_lowercase(title@),
            cursor <= tl.len(),
            forall|st: Seq<bool>|
                st.len() >= styles.len() && st.take(styles.len() as int) == styles ==> #[trigger] marked_title(
                    t@,
                    tl@,
                    term,
                    0,
                    st,
                    0,
                ) == out@
                    + marked_title(t@, tl@, term, cursor as int, st, styles.len() as int),
            done ==> first_occurrence(tl@, term, cursor as int) is None,
        decreases tl.len() + 1 - cursor + (if done { 0int } else { 1int }),
    {
        match find_from(&tl, term_lower, cursor) {
            Some(start) => {
                let end = start + term_lower.len();
                let before = clamped_slice(&t, cursor, start);
                let hit = string_from_chars(&clamped_slice(&t, start, end));
                let h = highlight(hit.as_str());
                let ghost b = h@ != hit@;
                let ghost out0 = out@;
                let ghost k = styles.len() as int;
                append_chars(&mut out, &before);
                append_chars(&mut out, &chars_of(h.as_str()));
                proof {
                    assert(highlight_text(hit@, b) == h@);
                    let ghost prev = styles;
                    styles = styles.push(b);
                    assert forall|st: Seq<bool>| st.len() >= styles.len() && st.take(styles.len() as int) == styles implies #[trigger] marked_title(
                        t@,
                        tl@,
                        term,
                        0,
                        st,
                        0,
                    ) == out@ + marked_title(t@, tl@, term, end as int, st, styles.len() as int) by {
                        assert(st.take(k) =~= st.take(k + 1).drop_last());
                        assert(st.take(k) == prev);
                        assert(st[k] == st.take(k + 1)[k]);
                        assert(st[k] == b);
                        assert(marked_title(t@, tl@, term, cursor as int, st, k) == before@ + h@ + marked_title(
                            t@,
                            tl@,
                            term,
                            end as int,
                            st,
                            k + 1,
                        ));
                        assert(out@ =~= out0 + before@ + h@);
                    }
                }
                cursor = end;
            },
            None => {
                done = true;
            },
        }
    }
    let tail = clamped_slice(&t, cursor, t.len());
    append_chars(&mut out, &tail);
    proof {
        assert(styles.take(styles.len() as int) =~= styles);
        assert(marked_title(t@, tl@, term, cursor as int, styles, styles.len() as int) == tail@);
        assert(title_with_match(title@, term_lower@, styles) == out@);
    }
    string_from_chars(&out)
}

/// The lines joined, one per line.
pub open spec fn join_lines(lines: Seq<Seq<char>>) -> Seq<char>
    decreases lines.len(),
{
    if lines.len() == 0 {
        Seq::empty()
    } else if lines.len() == 1 {
        lines[0]
    } else {
        join_lines(lines.drop_last()) + seq!['\n'] + lines.last()
    }
}

/// The listing line of the pad at `k`: indented, its path in the accent
/// colour, a dot, and its title with the term highlighted.
pub open spec fn match_line(lv: Seq<LinV>, term_lower: Seq<char>, k: int, line: Seq<char>) -> bool {
    exists|hp: Seq<char>, st: Seq<bool>|
        #![trigger index_styled(crate::index::path_text(lv[k].0), hp), title_with_match(lv[k].1.pad.metadata.title, term_lower, st)]
        index_styled(crate::index::path_text(lv[k].0), hp) && line == "    "@ + hp + ". "@ + title_with_match(
            lv[k].1.pad.metadata.title,
            term_lower,
            st,
        )
}

/// The lines list the pads at `hits`, in order.
pub open spec fn listed_lines(lv: Seq<LinV>, term_lower: Seq<char>, hits: Seq<int>, lines: Seq<Seq<char>>) -> bool {
    &&& lines.len() == hits.len()
    &&& forall|i: int| 0 <= i < hits.len() ==> #[trigger] match_line(lv, term_lower, hits[i], lines[i])
}

/// The positions of the pads whose titles match the term in the bucket.
pub open spec fn title_hits(lv: Seq<LinV>, term: Seq<char>, b: TitleBucket) -> Seq<int> {
    positions(lv.len() as int, |k: int| title_match(lv, term, b, k))
}

/// The error text for a term matching `count` pads, the quoted term
/// highlighted as `h`: up to [`AMBIGUITY_LIST_THRESHOLD`] matches, every
/// pad whose title matches is listed (see [`match_line`]); beyond, only the
/// number is given.
pub open spec fn ambiguity_text(
    lv: Seq<LinV>,
    term: Seq<char>,
    b: TitleBucket,
    count: usize,
    h: Seq<char>,
    msg: Seq<char>,
) -> bool {
    let head = "Term \""@ + h + "\""@;
    if count <= AMBIGUITY_LIST_THRESHOLD {
        exists|lines: Seq<Seq<char>>|
            #[trigger] listed_lines(lv, spec_lowercase(term), title_hits(lv, term, b), lines) && msg == head + " matches multiple pads. Use one, or be more specific:\n"@ + join_lines(lines)
    } else {
        msg == head + " matches "@ + crate::text::decimal(count as nat) + " pads. Please be more specific."@
    }
}

/// The error for a title term matching several pads: up to
/// [`AMBIGUITY_LIST_THRESHOLD`] matches are listed with their paths and
/// highlighted titles, one per line; beyond that only their number is given.
fn ambiguity_message(l: &Vec<Lined>, term: &str, b: TitleBucket, count: usize) -> (r: String)
    ensures
        exists|h: Seq<char>| #[trigger] highlighted(term@, h) && ambiguity_text(lined_view(l@), term@, b, count, h, r@),
{
    let ghost lv = lined_view(l@);
    let ghost pred = |k: int| title_match(lv, term@, b, k);
    let term_lower = chars_of(to_lowercase(term).as_str());
    let mut m = lit("Term ");
    let styled = style_match(term);
    let ghost h = choose|h: Seq<char>| #[trigger] highlighted(term@, h) && styled@ == "\""@ + h + "\""@;
    append_chars(&mut m, &chars_of(styled.as_str()));
    let ghost head = m@;
    proof {
        reveal_strlit("Term ");
        reveal_strlit("\"");
        reveal_strlit("Term \"");
        assert(head =~= "Term \""@ + h + "\""@);
    }
    if count <= AMBIGUITY_LIST_THRESHOLD {
        append_chars(&mut m, &lit(" matches multiple pads. Use one, or be more specific:\n"));
        let ghost top = m@;
        let ghost mut lines: Seq<Seq<char>> = Seq::empty();
        let mut listed: usize = 0;
        let mut k: usize = 0;
        proof {
            assert(m@ =~= top + join_lines(lines));
            assert(positions(0, pred) =~= Seq::<int>::empty()) by {
                reveal_with_fuel(Seq::filter, 1);
                assert(Seq::new(0, |k: int| k) =~= Seq::<int>::empty());
            }
        }
        while k < l.len()
            invariant
                lv == lined_view(l@),
                pred == (|k: int| title_match(lv, term@, b, k)),
                term_lower@ == spec_lowercase(term@),
                k <= l.len(),
                listed_lines(lv, spec_lowercase(term@), positions(k as int, pred), lines),
                (listed > 0) == (lines.len() > 0),
                m@ == top + join_lines(lines),
            decreases l.len() - k,
        {
            let hit = if path_in_bucket_exec(&l[k].path, b) {
                let title_lower = chars_of(to_lowercase(l[k].node.pad.metadata.title.as_str()).as_str());
                contains_chars(&title_lower, &term_lower)
            } else {
                false
            };
            proof {
                lemma_positions_push(k as int, pred);
                assert(lv[k as int] == (l@[k as int].path@, dp_view(*l@[k as int].node)));
                assert(pred(k as int) == hit);
            }
            if hit {
                let ghost before = m@;
                let ghost prev = lines;
                if listed > 0 {
                    m.push('\n');
                }
                let ghost lead = m@;
                append_chars(&mut m, &lit("    "));
                let p = string_from_chars(&crate::index::path_chars(&l[k].path));
                let hp = style_index(p.as_str());
                append_chars(&mut m, &chars_of(hp.as_str()));
                append_chars(&mut m, &lit(". "));
                let tm = style_title_with_match(l[k].node.pad.metadata.title.as_str(), &term_lower);
                append_chars(&mut m, &chars_of(tm.as_str()));
                listed = 1;
                proof {
                    let st = choose|st: Seq<bool>|
                        #[trigger] title_with_match(l@[k as int].node.pad.metadata.title@, term_lower@, st) == tm@;
                    let line = "    "@ + hp@ + ". "@ + tm@;
                    assert(m@ =~= lead + line);
                    assert(lv[k as int].1.pad.metadata.title == l@[k as int].node.pad.metadata.title@);
                    assert(match_line(lv, spec_lowercase(term@), k as int, line)) by {
                        assert(index_styled(crate::index::path_text(lv[k as int].0), hp@));
                        assert(title_with_match(lv[k as int].1.pad.metadata.title, spec_lowercase(term@), st) == tm@);
                    }
                    lines = lines.push(line);
                    let hits = positions(k + 1, pred);
                    assert(hits == positions(k as int, pred).push(k as int));
                    assert forall|i: int| 0 <= i < hits.len() implies #[trigger] match_line(
                        lv,
                        spec_lowercase(term@),
                        hits[i],
                        lines[i],
                    ) by {
                        if i < prev.len() {
                            assert(hits[i] == positions(k as int, pred)[i]);
                            assert(lines[i] == prev[i]);
                        }
                    }
                    assert(lines.drop_last() =~= prev);
                    if prev.len() > 0 {
                        assert(lead =~= top + join_lines(prev) + seq!['\n']);
                        assert(m@ =~= top + join_lines(lines));
                    } else {
                        assert(lead =~= top);
                        assert(m@ =~= top + join_lines(lines));
                    }
                }
            }
            k += 1;
        }
        proof {
            assert(title_hits(lv, term@, b) == positions(lv.len() as int, pred));
            assert(listed_lines(lv, spec_lowercase(term@), title_hits(lv, term@, b), lines));
            assert(m@ =~= head + " matches multiple pads. Use one, or be more specific:\n"@ + join_lines(lines));
        }
    } else {
        append_chars(&mut m, &lit(" matches "));
        append_chars(&mut m, &decimal_chars(count));
        append_chars(&mut m, &lit(" pads. Please be more specific."));
        proof {
            assert(m@ =~= head + " matches "@ + crate::text::decimal(count as nat) + " pads. Please be more specific."@);
        }
    }
    let r = string_from_chars(&m);
    assert(ambiguity_text(lv, term@, b, count, h, r@));
    r
}

fn push_single(l: &Vec<Lined>, k: usize, check: bool, out: &mut Vec<(Vec<DisplayIndex>, u128)>) -> (r: Result<(), PadzError>)
    requires
        k < l@.len(),
    ensures
        match single(lined_view(l@), k as int, check) {
            Ok(x) => r is Ok && resolved_view(final(out)@) == resolved_view(old(out)@) + x,
            Err(_) => r matches Err(PadzError::Api(m)) && m@ == protection_text(),
        },
{
    if check && l[k].node.pad.metadata.delete_protected {
        return Err(protection_error());
    }
    let ghost before = out@;
    out.push((copy_path(&l[k].path), l[k].node.pad.metadata.id));
    proof {
        assert(resolved_view(out@) =~= resolved_view(before) + seq![pair_at(lined_view(l@), k as int)]);
    }
    Ok(())
}

/// Resolves one selector against the linearized tree, appending the result.
fn resolve_one_exec(
    l: &Vec<Lined>,
    sel: &PadSelector,
    check: bool,
    b: TitleBucket,
    out: &mut Vec<(Vec<DisplayIndex>, u128)>,
) -> (r: Result<(), PadzError>)
    ensures
        match resolve_one(lined_view(l@), sel@, check, b) {
            Ok(x) => r is Ok && resolved_view(final(out)@) == resolved_view(old(out)@) + x,
            Err(_) => r matches Err(PadzError::Api(m)) && one_error_text(lined_view(l@), sel@, b, m@),
        },
{
    let ghost lv = lined_view(l@);
    match sel {
        PadSelector::Path(p) => {
            match find_path_exec(l, p) {
                Some(k) => {
                    if check && l[k].node.pad.metadata.delete_protected {
                        return Err(protection_error());
                    }
                    let ghost before = out@;
                    out.push((copy_path(p), l[k].node.pad.metadata.id));
                    proof {
                        assert(resolved_view(out@) =~= resolved_view(before) + seq![(p@, lv[k as int].1.pad.metadata.id)]);
                    }
                    Ok(())
                },
                None => Err(PadzError::Api(message_with_path("Index ", p, " not found in current scope"))),
            }
        },
        PadSelector::Range(a, z) => {
            let i = match find_path_exec(l, a) {
                Some(i) => i,
                None => {
                    return Err(PadzError::Api(message_with_path("Range start ", a, " not found")));
                },
            };
            let j = match find_path_exec(l, z) {
                Some(j) => j,
                None => {
                    return Err(PadzError::Api(message_with_path("Range end ", z, " not found")));
                },
            };
            if i > j {
                let mut m = lit("Invalid range: ");
                append_chars(&mut m, &crate::index::path_chars(a));
                append_chars(&mut m, &lit(" appears after "));
                append_chars(&mut m, &crate::index::path_chars(z));
                append_chars(&mut m, &lit(" in the list"));
                proof {
                    assert(m@ =~= "Invalid range: "@ + crate::index::path_text(a@) + " appears after "@
                        + crate::index::path_text(z@) + " in the list"@);
                }
                return Err(PadzError::Api(string_from_chars(&m)));
            }
            let mut k = i;
            while k <= j
                invariant
                    lv == lined_view(l@),
                    i <= k <= j + 1,
                    j < l.len(),
                    find_path(lv, a@, 0) == Some(i as int),
                    find_path(lv, z@, 0) == Some(j as int),
                    sel@ == SelectorV::Range(a@, z@),
                    check ==> forall|m: int| i <= m < k ==> !#[trigger] protected_at(lv, m),
                decreases j + 1 - k,
            {
                if check && l[k].node.pad.metadata.delete_protected {
                    proof {
                        assert(protected_at(lv, k as int));
                        assert(find_path(lv, a@, 0) == Some(i as int));
                        assert(find_path(lv, z@, 0) == Some(j as int));
                        assert(resolve_one(lv, sel@, check, b) is Err);
                    }
                    return Err(protection_error());
                }
                k += 1;
            }
            let ghost before = out@;
            let mut k = i;
            while k <= j
                invariant
                    lv == lined_view(l@),
                    i <= k <= j + 1,
                    j < l.len(),
                    resolved_view(out@) == resolved_view(before) + Seq::new((k - i) as nat, |m: int| pair_at(lv, i + m)),
                decreases j + 1 - k,
            {
                let ghost prev = out@;
                out.push((copy_path(&l[k].path), l[k].node.pad.metadata.id));
                proof {
                    assert(resolved_view(out@) =~= resolved_view(prev).push(pair_at(lv, k as int)));
                    assert(Seq::new((k + 1 - i) as nat, |m: int| pair_at(lv, i + m)) =~= Seq::new((k - i) as nat, |m: int| pair_at(lv, i + m)).push(pair_at(lv, k as int)));
                }
                k += 1;
            }
            Ok(())
        },
        PadSelector::Uuid(u) => {
            match find_id_exec(l, *u) {
                Some(k) => push_single(l, k, check, out),
                None => {
                    let t = chars_of(uuid_text(*u).as_str());
                    let m = message_with_text("No pad found with UUID ", &t, "");
                    proof {
                        reveal_strlit("");
                        assert(m@ =~= "No pad found with UUID "@ + crate::model::uuid_hyphenated(*u));
                    }
                    Err(PadzError::Api(m))
                },
            }
        },
        PadSelector::ShortUuid(h) => {
            let hc = chars_of(h.as_str());
            let (count, first) = prefix_matches(l, &hc);
            if count == 1 {
                proof {
                    let m = positions(lv.len() as int, |k: int| prefix_match(lv, h@, k));
                    lemma_positions_bounds(lv.len() as int, |k: int| prefix_match(lv, h@, k));
                    assert(m[0] < lv.len());
                }
                push_single(l, first, check, out)
            } else if count == 0 {
                let m = message_with_text("No pad found with UUID prefix ", &hc, "");
                proof {
                    reveal_strlit("");
                    assert(m@ =~= "No pad found with UUID prefix "@ + h@);
                }
                Err(PadzError::Api(m))
            } else {
                let mut m = lit("UUID prefix \"");
                append_chars(&mut m, &hc);
                append_chars(&mut m, &lit("\" matches "));
                append_chars(&mut m, &decimal_chars(count));
                append_chars(&mut m, &lit(" pads. Use more characters to be unique."));
                proof {
                    assert(m@ =~= "UUID prefix \""@ + h@ + "\" matches "@ + crate::text::decimal(count as nat)
                        + " pads. Use more characters to be unique."@);
                }
                Err(PadzError::Api(string_from_chars(&m)))
            }
        },
        PadSelector::Title(t) => {
            let (count, first) = title_matches(l, t.as_str(), b);
            let tc = chars_of(t.as_str());
            if count == 1 {
                proof {
                    let m = positions(lv.len() as int, |k: int| title_match(lv, t@, b, k));
                    lemma_positions_bounds(lv.len() as int, |k: int| title_match(lv, t@, b, k));
                    assert(m[0] < lv.len());
                }
                push_single(l, first, check, out)
            } else if count == 0 {
                Err(PadzError::Api(message_with_text("No pad found matching \"", &tc, "\"")))
            } else {
                Err(PadzError::Api(ambiguity_message(l, t.as_str(), b, count)))
            }
        },
    }
}

/// Resolves selectors to the display paths and ids of the pads they
/// designate (see [`resolve_all`]); fails when any selector fails.
pub fn resolve_selectors(
    store: &Store,
    scope: Scope,
    selectors: &Vec<PadSelector>,
    check_delete_protection: bool,
    title_bucket: TitleBucket,
) -> (r: Result<Vec<(Vec<DisplayIndex>, u128)>, PadzError>)
    ensures
        match resolve_all(scope_lin(store@, scope), selectors_view(selectors@), check_delete_protection, title_bucket) {
            Ok(x) => r matches Ok(v) && resolved_view(v@) == x,
            Err(_) => r matches Err(PadzError::Api(m)) && all_error_text(
                scope_lin(store@, scope),
                selectors_view(selectors@),
                check_delete_protection,
                title_bucket,
                m@,
            ),
        },
{
    let roots = match indexed_pads(store, scope) {
        Ok(r) => r,
        Err(e) => return Err(e),
    };
    let l = linearize_tree(&roots);
    let ghost lv = lined_view(l@);
    let ghost sv = selectors_view(selectors@);
    let mut out: Vec<(Vec<DisplayIndex>, u128)> = Vec::new();
    let mut i: usize = 0;
    proof {
        assert(resolved_view(out@) =~= Seq::<(Seq<DisplayIndex>, u128)>::empty());
    }
    while i < selectors.len()
        invariant
            lv == lined_view(l@),
            lv == scope_lin(store@, scope),
            sv == selectors_view(selectors@),
            i <= selectors.len(),
            resolve_all(lv, sv.take(i as int), check_delete_protection, title_bucket) == Ok::<Seq<(Seq<DisplayIndex>, u128)>, ()>(resolved_view(out@)),
        decreases selectors.len() - i,
    {
        proof {
            assert(sv.take(i + 1).drop_last() =~= sv.take(i as int));
            assert(sv.take(i + 1).last() == selectors@[i as int]@);
        }
        match resolve_one_exec(&l, &selectors[i], check_delete_protection, title_bucket, &mut out) {
            Ok(()) => {},
            Err(e) => {
                proof {
                    lemma_resolve_all_prefix_err(lv, sv, check_delete_protection, title_bucket, i + 1);
                    assert(sv.take(i + 1).last() == sv[i as int]);
                    lemma_error_text_prefix(lv, sv, check_delete_protection, title_bucket, i + 1, e->Api_0@);
                }
                return Err(e);
            },
        }
        i += 1;
    }
    proof {
        assert(sv.take(selectors.len() as int) =~= sv);
    }
    Ok(out)
}

proof fn lemma_error_text_prefix(l: Seq<LinV>, sels: Seq<SelectorV>, check: bool, b: TitleBucket, k: int, msg: Seq<char>)
    requires
        0 <= k <= sels.len(),
        resolve_all(l, sels.take(k), check, b) is Err,
        all_error_text(l, sels.take(k), check, b, msg),
    ensures
        all_error_text(l, sels, check, b, msg),
    decreases sels.len() - k,
{
    if k < sels.len() {
        assert(sels.take(k + 1).drop_last() =~= sels.take(k));
        lemma_error_text_prefix(l, sels, check, b, k + 1, msg);
    } else {
        assert(sels.take(k) =~= sels);
    }
}

proof fn lemma_resolve_all_prefix_err(l: Seq<LinV>, sels: Seq<SelectorV>, check: bool, b: TitleBucket, k: int)
    requires
        0 <= k <= sels.len(),
        resolve_all(l, sels.take(k), check, b) is Err,
    ensures
        resolve_all(l, sels, check, b) is Err,
    decreases sels.len() - k,
{
    if k < sels.len() {
        assert(sels.take(k + 1).drop_last() =~= sels.take(k));
        lemma_resolve_all_prefix_err(l, sels, check, b, k + 1);
    } else {
        assert(sels.take(k) =~= sels);
    }
}

} // verus!
