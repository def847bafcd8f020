//! Turning command-line selector strings into pad selectors.
//!
//! Index strings (`1`, `p2`, `d3-d5`, `1.2`), UUIDs and short UUIDs become
//! selectors; when any string is not one, all of them together become a
//! title search. Two variants first read bare numbers as deleted or
//! archived indexes.
use vstd::prelude::*;
use crate::error::PadzError;
use crate::index::{
    chars_views, looks_like_short_uuid, parse_index_or_range, parse_uuid, spec_looks_like_short_uuid,
    spec_parse_selector, spec_uuid_parse, split_char, split_on, PadSelector, SelectorV,
};
use crate::resolve::selectors_view;
use crate::text::{
    all_digits, append_chars, chars_all_digits, chars_of, find_from, first_occurrence, lit, slice_chars,
    string_from_chars,
};

verus! {

/// The strings joined with `sep` between them.
pub open spec fn join_with(parts: Seq<Seq<char>>, sep: char) -> Seq<char>
    decreases parts.len(),
{
    if parts.len() == 0 {
        Seq::empty()
    } else if parts.len() == 1 {
        parts[0]
    } else {
        join_with(parts.drop_last(), sep) + seq![sep] + parts.last()
    }
}

/// The selectors with repetitions removed, keeping first occurrences.
pub open spec fn unique_selectors(s: Seq<SelectorV>) -> Seq<SelectorV>
    decreases s.len(),
{
    if s.len() == 0 {
        Seq::empty()
    } else {
        let r = unique_selectors(s.drop_last());
        if r.contains(s.last()) {
            r
        } else {
            r.push(s.last())
        }
    }
}

/// Every input is a selector.
pub open spec fn all_selectors(inputs: Seq<Seq<char>>) -> bool {
    forall|i: int| 0 <= i < inputs.len() ==> #[trigger] spec_parse_selector(inputs[i]) is Some
}

/// The selectors of the inputs: each input parsed, repetitions removed;
/// when some input is not a selector, one title search for all the inputs
/// joined by spaces.
pub open spec fn spec_parse_selectors(inputs: Seq<Seq<char>>) -> Seq<SelectorV> {
    if all_selectors(inputs) {
        unique_selectors(inputs.map_values(|s: Seq<char>| spec_parse_selector(s)->0))
    } else {
        seq![SelectorV::Title(join_with(inputs, ' '))]
    }
}

proof fn lemma_unique_selectors(s: Seq<SelectorV>)
    ensures
        unique_selectors(s).no_duplicates(),
        forall|x: SelectorV| #[trigger] unique_selectors(s).contains(x) <==> s.contains(x),
    decreases s.len(),
{
    if s.len() > 0 {
        let t = s.drop_last();
        let y = s.last();
        lemma_unique_selectors(t);
        let d = unique_selectors(t);
        assert forall|x: SelectorV| #[trigger] unique_selectors(s).contains(x) <==> s.contains(x) by {
            assert(d.contains(x) == t.contains(x));
            if !d.contains(y) {
                if d.push(y).contains(x) {
                    let w = choose|w: int| 0 <= w < d.push(y).len() && d.push(y)[w] == x;
                    if w < d.len() {
                        assert(d[w] == x);
                    }
                }
                if d.contains(x) {
                    let w = choose|w: int| 0 <= w < d.len() && d[w] == x;
                    assert(d.push(y)[w] == x);
                }
                assert(d.push(y)[d.len() as int] == y);
            }
            if s.contains(x) {
                let k = choose|k: int| 0 <= k < s.len() && s[k] == x;
                if k < s.len() - 1 {
                    assert(t[k] == x);
                }
            }
            if t.contains(x) {
                let k = choose|k: int| 0 <= k < t.len() && t[k] == x;
                assert(s[k] == x);
            }
            if x == y {
                assert(s[s.len() - 1] == y);
            }
        }
        if !d.contains(y) {
            assert forall|i: int, j: int|
                0 <= i < d.push(y).len() && 0 <= j < d.push(y).len() && i != j implies d.push(y)[i] != d.push(y)[j] by {
                if i == d.len() {
                    assert(d.push(y)[j] == d[j]);
                } else if j == d.len() {
                    assert(d.push(y)[i] == d[i]);
                } else {
                    assert(d.push(y)[i] == d[i] && d.push(y)[j] == d[j]);
                }
            }
        }
    }
}

/// Parsing selector strings: when every string is a selector, each distinct
/// selector comes out once, in the order first given; otherwise the strings
/// joined by spaces become one title search.
pub proof fn lemma_parse_selectors_laws(inputs: Seq<Seq<char>>)
    ensures
        all_selectors(inputs) ==> spec_parse_selectors(inputs).no_duplicates() && forall|i: int|
            0 <= i < inputs.len() ==> spec_parse_selectors(inputs).contains(
                #[trigger] spec_parse_selector(inputs[i])->0,
            ),
        !all_selectors(inputs) ==> spec_parse_selectors(inputs) == seq![SelectorV::Title(join_with(inputs, ' '))],
{
    let parsed = inputs.map_values(|s: Seq<char>| spec_parse_selector(s)->0);
    lemma_unique_selectors(parsed);
    assert forall|i: int| 0 <= i < inputs.len() implies unique_selectors(parsed).contains(
        #[trigger] spec_parse_selector(inputs[i])->0,
    ) by {
        assert(parsed[i] == spec_parse_selector(inputs[i])->0);
        assert(parsed.contains(parsed[i]));
    }
}

pub open spec fn strs_view(v: Seq<&str>) -> Seq<Seq<char>> {
    v.map_values(|s: &str| s@)
}

fn join_spaces(inputs: &Vec<&str>) -> (r: String)
    ensures
        r@ == join_with(strs_view(inputs@), ' '),
{
    let ghost iv = strs_view(inputs@);
    let mut out: Vec<char> = Vec::new();
    let mut i: usize = 0;
    proof {
        assert(iv.take(0) =~= Seq::<Seq<char>>::empty());
    }
    while i < inputs.len()
        invariant
            iv == strs_view(inputs@),
            i <= inputs.len(),
            out@ == join_with(iv.take(i as int), ' '),
        decreases inputs.len() - i,
    {
        proof {
            assert(iv.take(i + 1).drop_last() =~= iv.take(i as int));
            assert(iv.take(i + 1).last() == inputs@[i as int]@);
        }
        if i > 0 {
            out.push(' ');
        }
        append_chars(&mut out, &chars_of(inputs[i]));
        proof {
            if i == 0 {
                assert(iv.take(1)[0] == inputs@[0]@);
                assert(out@ =~= join_with(iv.take(1), ' '));
            }
        }
        i += 1;
    }
    proof {
        assert(iv.take(inputs.len() as int) =~= iv);
    }
    string_from_chars(&out)
}

/// Parses selector strings (see [`spec_parse_selectors`]); never fails.
pub fn parse_selectors(inputs: &Vec<&str>) -> (r: Result<Vec<PadSelector>, PadzError>)
    ensures
        r matches Ok(v) && selectors_view(v@) == spec_parse_selectors(strs_view(inputs@)),
{
    let ghost iv = strs_view(inputs@);
    let mut all: Vec<PadSelector> = Vec::new();
    let mut i: usize = 0;
    while i < inputs.len()
        invariant
            iv == strs_view(inputs@),
            i <= inputs.len(),
            all@.len() == i,
            forall|j: int| 0 <= j < i ==> #[trigger] spec_parse_selector(iv[j]) == Some(all@[j]@),
        decreases inputs.len() - i,
    {
        match parse_index_or_range(inputs[i]) {
            Ok(sel) => {
                all.push(sel);
            },
            Err(_) => {
                proof {
                    assert(spec_parse_selector(iv[i as int]) is None);
                    assert(!all_selectors(iv));
                }
                let mut out: Vec<PadSelector> = Vec::new();
                out.push(PadSelector::Title(join_spaces(inputs)));
                proof {
                    assert(selectors_view(out@) =~= seq![SelectorV::Title(join_with(iv, ' '))]);
                }
                return Ok(out);
            },
        }
        i += 1;
    }
    let ghost parsed = iv.map_values(|s: Seq<char>| spec_parse_selector(s)->0);
    proof {
        assert(selectors_view(all@) =~= parsed);
    }
    let mut unique: Vec<PadSelector> = Vec::new();
    let mut k: usize = 0;
    proof {
        assert(parsed.take(0) =~= Seq::<SelectorV>::empty());
        assert(selectors_view(unique@) =~= Seq::<SelectorV>::empty());
    }
    while k < all.len()
        invariant
            parsed == selectors_view(all@),
            k <= all.len(),
            selectors_view(unique@) == unique_selectors(parsed.take(k as int)),
        decreases all.len() - k,
    {
        proof {
            assert(parsed.take(k + 1).drop_last() =~= parsed.take(k as int));
            assert(parsed.take(k + 1).last() == all@[k as int]@);
        }
        let mut seen = false;
        let mut j: usize = 0;
        while j < unique.len()
            invariant
                k < all.len(),
                j <= unique.len(),
                seen == exists|q: int| 0 <= q < j && unique@[q]@ == all@[k as int]@,
            decreases unique.len() - j,
        {
            if unique[j].same_as(&all[k]) {
                seen = true;
            }
            j += 1;
        }
        proof {
            if seen {
                let q = choose|q: int| 0 <= q < unique@.len() && unique@[q]@ == all@[k as int]@;
                assert(selectors_view(unique@)[q] == all@[k as int]@);
            } else {
                assert forall|q: int| 0 <= q < selectors_view(unique@).len() implies selectors_view(unique@)[q]
                    != all@[k as int]@ by {
                    assert(selectors_view(unique@)[q] == unique@[q]@);
                }
            }
        }
        if !seen {
            let ghost before = unique@;
            unique.push(all[k].duplicate());
            proof {
                assert(selectors_view(unique@) =~= selectors_view(before).push(all@[k as int]@));
            }
        }
        k += 1;
    }
    proof {
        assert(parsed.take(all.len() as int) =~= parsed);
        assert(all_selectors(iv));
    }
    Ok(unique)
}

/// A bare number with `prefix` put in front; anything else unchanged.
pub open spec fn prefixed_if_number(s: Seq<char>, prefix: Seq<char>) -> Seq<char> {
    if s.len() > 0 && all_digits(s) {
        prefix + s
    } else {
        s
    }
}

/// Reading an index in a bucket twice is reading it once: an index that
/// already carries the bucket's prefix (`d3`) stays as it is.
pub proof fn lemma_prefixed_if_number_idempotent(s: Seq<char>, prefix: Seq<char>)
    requires
        prefix.len() > 0,
        !crate::text::is_digit(prefix[0]),
    ensures
        prefixed_if_number(prefixed_if_number(s, prefix), prefix) == prefixed_if_number(s, prefix),
{
    if s.len() > 0 && all_digits(s) {
        let t = prefix + s;
        assert(t[0] == prefix[0]);
        assert(!all_digits(t));
    }
}

/// A path whose last segment, when a bare number, gets `prefix`.
pub open spec fn path_with_prefix(s: Seq<char>, prefix: Seq<char>) -> Seq<char> {
    let parts = split_char(s, '.');
    join_with(parts.update(parts.len() - 1, prefixed_if_number(parts.last(), prefix)), '.')
}

/// An index string with bare numbers in the last segment of each path read
/// in the bucket of `prefix`; UUIDs and short UUIDs are kept as they are.
pub open spec fn index_with_prefix(s: Seq<char>, prefix: Seq<char>) -> Seq<char> {
    if spec_uuid_parse(s) is Some || spec_looks_like_short_uuid(s) {
        s
    } else if first_occurrence(s, seq!['-'], 0) matches Some(d) && d > 0 {
        let d = first_occurrence(s, seq!['-'], 0)->0;
        path_with_prefix(s.subrange(0, d), prefix) + seq!['-'] + path_with_prefix(
            s.subrange(d + 1, s.len() as int),
            prefix,
        )
    } else {
        path_with_prefix(s, prefix)
    }
}

fn prefix_if_number(s: &Vec<char>, prefix: &str) -> (r: Vec<char>)
    ensures
        r@ == prefixed_if_number(s@, prefix@),
{
    if s.len() > 0 && chars_all_digits(s) {
        let mut r = lit(prefix);
        append_chars(&mut r, s);
        r
    } else {
        slice_chars(s, 0, s.len())
    }
}

proof fn lemma_split_acc_nonempty(s: Seq<char>, c: char, i: int, cur: Seq<char>)
    ensures
        crate::index::split_acc(s, c, i, cur).len() >= 1,
    decreases s.len() - i,
{
    if i < s.len() {
        if s[i] == c {
            lemma_split_acc_nonempty(s, c, i + 1, Seq::empty());
        } else {
            lemma_split_acc_nonempty(s, c, i + 1, cur.push(s[i]));
        }
    }
}

fn path_prefixed(s: &Vec<char>, prefix: &str) -> (r: Vec<char>)
    ensures
        r@ == path_with_prefix(s@, prefix@),
{
    let parts = split_on(s, '.');
    let ghost pv = chars_views(parts@);
    proof {
        lemma_split_acc_nonempty(s@, '.', 0, Seq::empty());
    }
    let n = parts.len();
    let ghost target = pv.update(n - 1, prefixed_if_number(pv.last(), prefix@));
    let mut out: Vec<char> = Vec::new();
    let mut i: usize = 0;
    proof {
        assert(target.take(0) =~= Seq::<Seq<char>>::empty());
    }
    while i < n
        invariant
            pv == chars_views(parts@),
            n == parts.len(),
            n >= 1,
            target == pv.update(n - 1, prefixed_if_number(pv.last(), prefix@)),
            i <= n,
            out@ == join_with(target.take(i as int), '.'),
        decreases n - i,
    {
        let piece = if i + 1 == n {
            prefix_if_number(&parts[i], prefix)
        } else {
            slice_chars(&parts[i], 0, parts[i].len())
        };
        proof {
            assert(parts@[i as int]@.subrange(0, parts@[i as int]@.len() as int) =~= parts@[i as int]@);
            assert(pv[i as int] == parts@[i as int]@);
            assert(piece@ == target[i as int]);
            assert(target.take(i + 1).drop_last() =~= target.take(i as int));
            assert(target.take(i + 1).last() == target[i as int]);
        }
        if i > 0 {
            out.push('.');
        }
        append_chars(&mut out, &piece);
        proof {
            if i == 0 {
                assert(out@ =~= join_with(target.take(1), '.'));
            }
        }
        i += 1;
    }
    proof {
        assert(target.take(n as int) =~= target);
    }
    out
}

fn index_prefixed(s: &str, prefix: &str) -> (r: String)
    ensures
        r@ == index_with_prefix(s@, prefix@),
{
    let c = chars_of(s);
    if parse_uuid(s).is_some() || looks_like_short_uuid(&c) {
        return s.to_string();
    }
    let dash = lit("-");
    proof {
        reveal_strlit("-");
        assert(dash@ =~= seq!['-']);
    }
    match find_from(&c, &dash, 0) {
        Some(d) => {
            if d > 0 {
                proof {
                    assert(d + 1 <= c.len());
                }
                let mut r = path_prefixed(&slice_chars(&c, 0, d), prefix);
                r.push('-');
                append_chars(&mut r, &path_prefixed(&slice_chars(&c, d + 1, c.len()), prefix));
                return string_from_chars(&r);
            }
        },
        None => {},
    }
    string_from_chars(&path_prefixed(&c, prefix))
}

/// A single index read as deleted when it is a bare number: `3` becomes
/// `d3`; anything else is unchanged.
pub fn normalize_single_to_deleted(s: &str) -> (r: String)
    ensures
        r@ == prefixed_if_number(s@, "d"@),
{
    string_from_chars(&prefix_if_number(&chars_of(s), "d"))
}

/// A path with its last segment read as deleted when it is a bare number:
/// `1.2` becomes `1.d2`.
pub fn normalize_path_for_deleted(s: &str) -> (r: String)
    ensures
        r@ == path_with_prefix(s@, "d"@),
{
    string_from_chars(&path_prefixed(&chars_of(s), "d"))
}

/// A path with its last segment read as archived when it is a bare number:
/// `1.2` becomes `1.ar2`.
pub fn normalize_path_for_archived(s: &str) -> (r: String)
    ensures
        r@ == path_with_prefix(s@, "ar"@),
{
    string_from_chars(&path_prefixed(&chars_of(s), "ar"))
}

/// An index string read in the deleted bucket: `3` becomes `d3`, `3-5`
/// becomes `d3-d5`; UUIDs and short UUIDs are kept.
pub fn normalize_to_deleted_index(s: &str) -> (r: String)
    ensures
        r@ == index_with_prefix(s@, "d"@),
{
    index_prefixed(s, "d")
}

/// An index string read in the archived bucket: `3` becomes `ar3`, `3-5`
/// becomes `ar3-ar5`; UUIDs and short UUIDs are kept.
pub fn normalize_to_archived_index(s: &str) -> (r: String)
    ensures
        r@ == index_with_prefix(s@, "ar"@),
{
    index_prefixed(s, "ar")
}

fn normalized_all(inputs: &Vec<&str>, deleted: bool) -> (r: Vec<String>)
    ensures
        r@.map_values(|s: String| s@) == strs_view(inputs@).map_values(
            |s: Seq<char>| index_with_prefix(s, if deleted { "d"@ } else { "ar"@ }),
        ),
{
    let mut out: Vec<String> = Vec::new();
    let mut i: usize = 0;
    while i < inputs.len()
        invariant
            i <= inputs.len(),
            out@.len() == i,
            forall|j: int| 0 <= j < i ==> #[trigger] out@[j]@ == index_with_prefix(
                inputs@[j]@,
                if deleted { "d"@ } else { "ar"@ },
            ),
        decreases inputs.len() - i,
    {
        let n = if deleted {
            normalize_to_deleted_index(inputs[i])
        } else {
            normalize_to_archived_index(inputs[i])
        };
        out.push(n);
        i += 1;
    }
    proof {
        assert(out@.map_values(|s: String| s@) =~= strs_view(inputs@).map_values(
            |s: Seq<char>| index_with_prefix(s, if deleted { "d"@ } else { "ar"@ }),
        ));
    }
    out
}

fn as_strs(v: &Vec<String>) -> (r: Vec<&str>)
    ensures
        strs_view(r@) == v@.map_values(|s: String| s@),
{
    let mut out: Vec<&str> = Vec::new();
    let mut i: usize = 0;
    while i < v.len()
        invariant
            i <= v.len(),
            out@.len() == i,
            forall|j: int| 0 <= j < i ==> #[trigger] out@[j]@ == v@[j]@,
        decreases v.len() - i,
    {
        out.push(v[i].as_str());
        i += 1;
    }
    proof {
        assert(strs_view(out@) =~= v@.map_values(|s: String| s@));
    }
    out
}

/// Parses selectors for commands on deleted pads: bare numbers are read as
/// deleted indexes first.
pub fn parse_selectors_for_deleted(inputs: &Vec<&str>) -> (r: Result<Vec<PadSelector>, PadzError>)
    ensures
        r matches Ok(v) && selectors_view(v@) == spec_parse_selectors(
            strs_view(inputs@).map_values(|s: Seq<char>| index_with_prefix(s, "d"@)),
        ),
{
    let normalized = normalized_all(inputs, true);
    let strs = as_strs(&normalized);
    parse_selectors(&strs)
}

/// Parses selectors for commands on archived pads: bare numbers are read as
/// archived indexes first.
pub fn parse_selectors_for_archived(inputs: &Vec<&str>) -> (r: Result<Vec<PadSelector>, PadzError>)
    ensures
        r matches Ok(v) && selectors_view(v@) == spec_parse_selectors(
            strs_view(inputs@).map_values(|s: Seq<char>| index_with_prefix(s, "ar"@)),
        ),
{
    let normalized = normalized_all(inputs, false);
    let strs = as_strs(&normalized);
    parse_selectors(&strs)
}

} // verus!
