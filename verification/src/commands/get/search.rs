//! Searching pads: which lines match, how matches are highlighted, and how
//! hits are ranked.
use vstd::prelude::*;
use crate::index::{chars_views, split_acc, split_char, split_on};
use crate::text::{
    chars_of, contains_chars, contains_sub, is_whitespace, matches_at, occurs_at, first_occurrence, find_from,
    slice_chars, spec_is_whitespace, spec_lowercase, string_from_chars, to_lowercase,
};
use crate::tree::{
    dp_clone, dp_view, dps_view, lemma_dps_view_push, search_matches_view, segments_view, DisplayPad, DisplayPadV,
    MatchSegment, MatchSegmentV, SearchMatch, SearchMatchV,
};

verus! {

// ---------------------------------------------------------------------------
// Lines
// ---------------------------------------------------------------------------

/// A line without the carriage return of a `\r\n` ending.
pub open spec fn strip_cr(l: Seq<char>) -> Seq<char> {
    if l.len() > 0 && l.last() == '\r' {
        l.drop_last()
    } else {
        l
    }
}

/// `str::lines`: the text split at `\n`, each line ended by `\n` losing a
/// trailing `\r`, and no final empty line.
pub open spec fn text_lines(s: Seq<char>) -> Seq<Seq<char>> {
    let parts = split_char(s, '\n');
    let body = parts.drop_last().map_values(|p: Seq<char>| strip_cr(p));
    if parts.last().len() == 0 {
        body
    } else {
        body.push(parts.last())
    }
}

proof fn lemma_split_nonempty(s: Seq<char>, c: char, i: int, cur: Seq<char>)
    ensures
        split_acc(s, c, i, cur).len() >= 1,
    decreases s.len() - i,
{
    if i < s.len() {
        if s[i] == c {
            lemma_split_nonempty(s, c, i + 1, Seq::empty());
        } else {
            lemma_split_nonempty(s, c, i + 1, cur.push(s[i]));
        }
    }
}

/// The lines of a text (see [`text_lines`]).
pub fn lines_of(s: &Vec<char>) -> (r: Vec<Vec<char>>)
    ensures
        chars_views(r@) == text_lines(s@),
{
    let parts = split_on(s, '\n');
    proof {
        lemma_split_nonempty(s@, '\n', 0, Seq::empty());
    }
    let ghost pv = chars_views(parts@);
    let n = parts.len();
    let mut out: Vec<Vec<char>> = Vec::new();
    let mut i: usize = 0;
    while i + 1 < n
        invariant
            pv == chars_views(parts@),
            pv == split_char(s@, '\n'),
            n == parts.len(),
            n >= 1,
            i < n,
            chars_views(out@) == pv.take(i as int).map_values(|p: Seq<char>| strip_cr(p)),
        decreases n - i,
    {
        let p = &parts[i];
        let line = if p.len() > 0 && p[p.len() - 1] == '\r' {
            slice_chars(p, 0, p.len() - 1)
        } else {
            slice_chars(p, 0, p.len())
        };
        proof {
            assert(p@.subrange(0, p@.len() as int) =~= p@);
            assert(pv[i as int] == p@);
            assert(line@ == strip_cr(pv[i as int]));
        }
        let ghost before = out@;
        out.push(line);
        proof {
            assert(chars_views(out@) =~= chars_views(before).push(line@));
            assert(pv.take(i + 1).map_values(|p: Seq<char>| strip_cr(p)) =~= pv.take(i as int).map_values(
                |p: Seq<char>| strip_cr(p),
            ).push(strip_cr(pv[i as int])));
        }
        i += 1;
    }
    proof {
        assert(pv.take(i as int) =~= pv.drop_last());
        assert(pv[n - 1] == parts@[n - 1]@);
    }
    if parts[n - 1].len() > 0 {
        let last = slice_chars(&parts[n - 1], 0, parts[n - 1].len());
        let ghost before = out@;
        out.push(last);
        proof {
            assert(parts@[n - 1]@.subrange(0, parts@[n - 1]@.len() as int) =~= parts@[n - 1]@);
            assert(chars_views(out@) =~= chars_views(before).push(last@));
        }
    }
    out
}

// ---------------------------------------------------------------------------
// Highlighting
// ---------------------------------------------------------------------------

/// The text shown for a match: the original text, unless lowering its case
/// changed its length, in which case the lowered text.
pub open spec fn display_source(text: Seq<char>, low: Seq<char>) -> Seq<char> {
    if low.len() == text.len() {
        text
    } else {
        low
    }
}

/// The plain piece between the end of the previous match and position `i`.
pub open spec fn plain_between(src: Seq<char>, last: int, i: int) -> Seq<MatchSegmentV> {
    if i > last {
        seq![MatchSegmentV::Plain(src.subrange(last, i))]
    } else {
        Seq::empty()
    }
}

/// Scans `low` from position `i` for non-overlapping occurrences of `term`
/// (an empty term matches at every position), cutting `src` into plain and
/// matched pieces; `last` is where the previous match ended.
pub open spec fn highlight_scan(low: Seq<char>, src: Seq<char>, term: Seq<char>, i: int, last: int) -> Seq<
    MatchSegmentV,
>
    decreases low.len() + 1 - i,
{
    if i < 0 || i > low.len() {
        if last < src.len() {
            seq![MatchSegmentV::Plain(src.subrange(last, src.len() as int))]
        } else {
            Seq::empty()
        }
    } else if occurs_at(low, term, i) {
        plain_between(src, last, i) + seq![MatchSegmentV::Match(src.subrange(i, i + term.len()))]
            + highlight_scan(low, src, term, i + if term.len() > 0 { term.len() as int } else { 1 }, i + term.len())
    } else {
        highlight_scan(low, src, term, i + 1, last)
    }
}

/// The pieces of `text` with every occurrence of `term_lower` in the lowered
/// text marked as a match.
pub open spec fn spec_highlight(text: Seq<char>, term_lower: Seq<char>) -> Seq<MatchSegmentV> {
    let low = spec_lowercase(text);
    highlight_scan(low, display_source(text, low), term_lower, 0, 0)
}

/// Cuts `text` into plain pieces and the pieces matching `term_lower`,
/// ignoring case (see [`spec_highlight`]).
pub fn highlight_matches(text: &str, term_lower: &str) -> (r: Vec<MatchSegment>)
    ensures
        segments_view(r@) == spec_highlight(text@, term_lower@),
{
    let low = chars_of(to_lowercase(text).as_str());
    let t = chars_of(text);
    let src = if low.len() == t.len() {
        t
    } else {
        slice_chars(&low, 0, low.len())
    };
    proof {
        assert(low@.subrange(0, low@.len() as int) =~= low@);
        assert(src@ == display_source(text@, low@));
    }
    let term = chars_of(term_lower);
    let ghost full = spec_highlight(text@, term_lower@);
    let mut segs: Vec<MatchSegment> = Vec::new();
    let mut i: usize = 0;
    let mut last: usize = 0;
    proof {
        assert(segments_view(segs@) =~= Seq::<MatchSegmentV>::empty());
    }
    while i < low.len()
        invariant
            low@ == spec_lowercase(text@),
            src@ == display_source(text@, low@),
            src@.len() == low@.len(),
            term@ == term_lower@,
            full == spec_highlight(text@, term_lower@),
            last <= i <= low.len(),
            segments_view(segs@) + highlight_scan(low@, src@, term@, i as int, last as int) == full,
        decreases low.len() - i,
    {
        if matches_at(&low, &term, i) {
            let ghost before = segments_view(segs@);
            if i > last {
                segs.push(MatchSegment::Plain(string_from_chars(&slice_chars(&src, last, i))));
            }
            let end = i + term.len();
            segs.push(MatchSegment::Match(string_from_chars(&slice_chars(&src, i, end))));
            proof {
                assert(segments_view(segs@) =~= before + plain_between(src@, last as int, i as int) + seq![
                    MatchSegmentV::Match(src@.subrange(i as int, end as int)),
                ]);
            }
            last = end;
            if term.len() > 0 {
                i = end;
            } else {
                i = i + 1;
            }
        } else {
            i = i + 1;
        }
    }
    if matches_at(&low, &term, i) {
        let ghost before = segments_view(segs@);
        if i > last {
            segs.push(MatchSegment::Plain(string_from_chars(&slice_chars(&src, last, i))));
        }
        segs.push(MatchSegment::Match(string_from_chars(&slice_chars(&src, i, i))));
        proof {
            assert(term@.len() == 0);
            assert(segments_view(segs@) =~= before + plain_between(src@, last as int, i as int) + seq![
                MatchSegmentV::Match(src@.subrange(i as int, i as int)),
            ]);
        }
        last = i;
    }
    let ghost before = segments_view(segs@);
    if last < src.len() {
        segs.push(MatchSegment::Plain(string_from_chars(&slice_chars(&src, last, src.len()))));
    }
    proof {
        assert(segments_view(segs@) =~= before + highlight_scan(low@, src@, term@, low@.len() as int + 1, last as int));
    }
    segs
}

// ---------------------------------------------------------------------------
// Context around a match
// ---------------------------------------------------------------------------

/// Characters that separate words: whitespace and full stops.
pub open spec fn is_separator(c: char) -> bool {
    spec_is_whitespace(c) || c == '.'
}

/// Word counting: after reading `c`, the number of words begun and whether
/// the scan is inside a word.
pub open spec fn word_step(c: char, words: nat, in_word: bool) -> (nat, bool) {
    if !is_separator(c) && !in_word {
        (words + 1, true)
    } else if is_separator(c) && in_word {
        (words, false)
    } else {
        (words, in_word)
    }
}

/// Reading leftwards from position `idx`: the position just after the
/// character that begins word `n + 1`, or 0 when fewer words precede.
pub open spec fn back_scan(s: Seq<char>, idx: int, words: nat, in_word: bool, n: nat) -> int
    decreases idx,
{
    if idx <= 0 {
        0
    } else {
        let st = word_step(s[idx - 1], words, in_word);
        if st.0 > n {
            idx
        } else {
            back_scan(s, idx - 1, st.0, st.1, n)
        }
    }
}

/// Reading rightwards from position `i`: the position of the character that
/// begins word `n + 1`, or the end when fewer words follow.
pub open spec fn fwd_scan(s: Seq<char>, i: int, words: nat, in_word: bool, n: nat) -> int
    decreases s.len() - i,
{
    if i < 0 || i >= s.len() {
        s.len() as int
    } else {
        let st = word_step(s[i], words, in_word);
        if st.0 > n {
            i
        } else {
            fwd_scan(s, i + 1, st.0, st.1, n)
        }
    }
}

pub open spec fn ellipsis() -> Seq<MatchSegmentV> {
    seq![MatchSegmentV::Plain(seq!['\u{2026}'])]
}

/// The first match of `term` in `line` (ignoring case) with up to `n` words
/// of context on each side; an ellipsis marks each cut side. A line
/// without a match is returned whole.
pub open spec fn spec_context(line: Seq<char>, term: Seq<char>, n: nat) -> Seq<MatchSegmentV> {
    let low = spec_lowercase(line);
    let src = display_source(line, low);
    match first_occurrence(low, term, 0) {
        None => seq![MatchSegmentV::Plain(line)],
        Some(st) => {
            let en = st + term.len();
            let a = back_scan(src, st, 0, false, n);
            let b = fwd_scan(src, en, 0, false, n);
            (if a > 0 {
                ellipsis()
            } else {
                Seq::empty()
            }) + plain_between(src, a, st) + seq![MatchSegmentV::Match(src.subrange(st, en))] + plain_between(src, en, b)
                + (if b < src.len() {
                ellipsis()
            } else {
                Seq::empty()
            })
        },
    }
}

fn separator(c: char) -> (r: bool)
    ensures
        r == is_separator(c),
{
    is_whitespace(c) || c == '.'
}

proof fn lemma_back_scan_range(s: Seq<char>, idx: int, words: nat, in_word: bool, n: nat)
    ensures
        0 <= back_scan(s, idx, words, in_word, n) <= if idx > 0 { idx } else { 0 },
    decreases idx,
{
    if idx > 0 {
        let st = word_step(s[idx - 1], words, in_word);
        if st.0 <= n {
            lemma_back_scan_range(s, idx - 1, st.0, st.1, n);
        }
    }
}

proof fn lemma_fwd_scan_range(s: Seq<char>, i: int, words: nat, in_word: bool, n: nat)
    requires
        0 <= i,
    ensures
        (if i <= s.len() { i } else { s.len() as int }) <= fwd_scan(s, i, words, in_word, n) <= s.len(),
    decreases s.len() - i,
{
    if i < s.len() {
        let st = word_step(s[i], words, in_word);
        if st.0 <= n {
            lemma_fwd_scan_range(s, i + 1, st.0, st.1, n);
        }
    }
}

/// The first match of `term_lower` in `line` with `context_words` words of
/// context on each side (see [`spec_context`]).
pub fn extract_context(line: &str, term_lower: &str, context_words: usize) -> (r: Vec<MatchSegment>)
    ensures
        segments_view(r@) == spec_context(line@, term_lower@, context_words as nat),
{
    let low = chars_of(to_lowercase(line).as_str());
    let term = chars_of(term_lower);
    let st = match find_from(&low, &term, 0) {
        Some(i) => i,
        None => {
            let mut segs: Vec<MatchSegment> = Vec::new();
            segs.push(MatchSegment::Plain(line.to_string()));
            proof {
                assert(segments_view(segs@) =~= seq![MatchSegmentV::Plain(line@)]);
            }
            return segs;
        },
    };
    let t = chars_of(line);
    let src = if low.len() == t.len() {
        t
    } else {
        slice_chars(&low, 0, low.len())
    };
    proof {
        assert(low@.subrange(0, low@.len() as int) =~= low@);
        assert(src@ == display_source(line@, low@));
    }
    let en = st + term.len();
    proof {
        assert(occurs_at(low@, term@, st as int));
    }
    let n = context_words as u128;
    // Leftwards.
    let mut a: usize = 0;
    let mut idx: usize = st;
    let mut words: u128 = 0;
    let mut in_word = false;
    let ghost target_a = back_scan(src@, st as int, 0, false, context_words as nat);
    while idx > 0
        invariant_except_break
            idx <= st,
            words <= n,
            a == 0,
            back_scan(src@, idx as int, words as nat, in_word, context_words as nat) == target_a,
        invariant
            st <= src@.len(),
            n == context_words as u128,
        ensures
            a as int == target_a,
        decreases idx,
    {
        let c = src[idx - 1];
        let sep = separator(c);
        if !sep && !in_word {
            words = words + 1;
            in_word = true;
        } else if sep && in_word {
            in_word = false;
        }
        if words > n {
            a = idx;
            break;
        }
        idx = idx - 1;
    }
    proof {
        lemma_back_scan_range(src@, st as int, 0, false, context_words as nat);
    }
    // Rightwards.
    let mut b: usize = src.len();
    let mut i: usize = en;
    words = 0;
    in_word = false;
    let ghost target_b = fwd_scan(src@, en as int, 0, false, context_words as nat);
    while i < src.len()
        invariant_except_break
            en <= i <= src@.len(),
            words <= n,
            b == src@.len(),
            fwd_scan(src@, i as int, words as nat, in_word, context_words as nat) == target_b,
        invariant
            n == context_words as u128,
            en <= src@.len(),
        ensures
            b as int == target_b,
        decreases src.len() - i,
    {
        let c = src[i];
        let sep = separator(c);
        if !sep && !in_word {
            words = words + 1;
            in_word = true;
        } else if sep && in_word {
            in_word = false;
        }
        if words > n {
            b = i;
            break;
        }
        i = i + 1;
    }
    proof {
        lemma_fwd_scan_range(src@, en as int, 0, false, context_words as nat);
        assert(a as int == target_a);
        assert(b as int == target_b);
    }
    let mut segs: Vec<MatchSegment> = Vec::new();
    let mut dots: Vec<char> = Vec::new();
    dots.push('\u{2026}');
    if a > 0 {
        segs.push(MatchSegment::Plain(string_from_chars(&dots)));
    }
    if st > a {
        segs.push(MatchSegment::Plain(string_from_chars(&slice_chars(&src, a, st))));
    }
    segs.push(MatchSegment::Match(string_from_chars(&slice_chars(&src, st, en))));
    if b > en {
        segs.push(MatchSegment::Plain(string_from_chars(&slice_chars(&src, en, b))));
    }
    if b < src.len() {
        segs.push(MatchSegment::Plain(string_from_chars(&dots)));
    }
    proof {
        assert(segments_view(segs@) =~= spec_context(line@, term_lower@, context_words as nat));
    }
    segs
}

// ---------------------------------------------------------------------------
// Scoring and ranking
// ---------------------------------------------------------------------------

/// Line `k` (not the first, which repeats the title) holds the term.
pub open spec fn line_hit(lines: Seq<Seq<char>>, tl: Seq<char>, k: int) -> bool {
    1 <= k && contains_sub(spec_lowercase(lines[k]), tl)
}

/// The positions below `n` of the lines holding the term.
pub open spec fn hits_upto(lines: Seq<Seq<char>>, tl: Seq<char>, n: int) -> Seq<int>
    decreases n,
{
    if n <= 0 {
        Seq::empty()
    } else {
        let r = hits_upto(lines, tl, n - 1);
        if line_hit(lines, tl, n - 1) {
            r.push(n - 1)
        } else {
            r
        }
    }
}

pub open spec fn title_hit(d: DisplayPadV, tl: Seq<char>) -> bool {
    contains_sub(spec_lowercase(d.pad.metadata.title), tl)
}

/// The score of a pad: 10 for a title match and 5 per matching line.
pub open spec fn search_score(d: DisplayPadV, tl: Seq<char>) -> int {
    let lines = text_lines(d.pad.content);
    (if title_hit(d, tl) {
        10int
    } else {
        0int
    }) + 5 * hits_upto(lines, tl, lines.len() as int).len()
}

/// At most `room` of the hits.
pub open spec fn capped(h: Seq<int>, room: int) -> Seq<int> {
    if h.len() <= room {
        h
    } else {
        h.take(room)
    }
}

/// The matches shown for a pad: the highlighted title when it matches,
/// then matching lines with their context, four matches at most.
pub open spec fn search_matches(d: DisplayPadV, tl: Seq<char>) -> Seq<SearchMatchV> {
    let lines = text_lines(d.pad.content);
    let tm = if title_hit(d, tl) {
        seq![SearchMatchV { line_number: 0, segments: spec_highlight(d.pad.metadata.title, tl) }]
    } else {
        Seq::empty()
    };
    tm + capped(hits_upto(lines, tl, lines.len() as int), 4 - tm.len()).map_values(
        |k: int| SearchMatchV { line_number: (k + 1) as usize, segments: spec_context(lines[k], tl, 3) },
    )
}

/// A pad with its score.
pub type Ranked = (DisplayPadV, int);

/// The pads with a positive score, carrying their matches, in order.
pub open spec fn scored(pads: Seq<DisplayPadV>, tl: Seq<char>) -> Seq<Ranked>
    decreases pads.len(),
{
    if pads.len() == 0 {
        Seq::empty()
    } else {
        let r = scored(pads.drop_last(), tl);
        let d = pads.last();
        if search_score(d, tl) > 0 {
            r.push((DisplayPadV { matches: Some(search_matches(d, tl)), ..d }, search_score(d, tl)))
        } else {
            r
        }
    }
}

/// The length of a pad's title in UTF-8 bytes.
pub open spec fn title_bytes(d: DisplayPadV) -> usize {
    vstd::utf8::encode_utf8(d.pad.metadata.title).len() as usize
}

/// `a` is shown before `b`: a higher score, then a shorter title, then an
/// earlier creation.
pub open spec fn ranks_before(a: Ranked, b: Ranked) -> bool {
    a.1 > b.1 || (a.1 == b.1 && (title_bytes(a.0) < title_bytes(b.0) || (title_bytes(a.0) == title_bytes(b.0)
        && a.0.pad.metadata.created_at < b.0.pad.metadata.created_at)))
}

/// The first position at or after `k` holding an entry that `x` goes before.
pub open spec fn insert_at(r: Seq<Ranked>, x: Ranked, k: int) -> int
    decreases r.len() - k,
{
    if k < 0 || k >= r.len() {
        r.len() as int
    } else if ranks_before(x, r[k]) {
        k
    } else {
        insert_at(r, x, k + 1)
    }
}

/// The entries in ranking order; entries that tie keep their order.
pub open spec fn rank_all(xs: Seq<Ranked>) -> Seq<Ranked>
    decreases xs.len(),
{
    if xs.len() == 0 {
        Seq::empty()
    } else {
        let r = rank_all(xs.drop_last());
        r.insert(insert_at(r, xs.last(), 0), xs.last())
    }
}

/// No entry ranks before an earlier one.
pub open spec fn best_first(r: Seq<Ranked>) -> bool {
    forall|i: int, j: int| 0 <= i < j < r.len() ==> !ranks_before(#[trigger] r[j], #[trigger] r[i])
}

proof fn lemma_ranks_before_order(a: Ranked, b: Ranked, c: Ranked)
    ensures
        !(ranks_before(a, b) && ranks_before(b, a)),
        ranks_before(a, b) && ranks_before(b, c) ==> ranks_before(a, c),
{
}

proof fn lemma_insert_at(r: Seq<Ranked>, x: Ranked, k: int)
    requires
        0 <= k <= r.len(),
    ensures
        k <= insert_at(r, x, k) <= r.len(),
        forall|m: int| k <= m < insert_at(r, x, k) ==> !ranks_before(x, #[trigger] r[m]),
        insert_at(r, x, k) < r.len() ==> ranks_before(x, r[insert_at(r, x, k)]),
    decreases r.len() - k,
{
    if k < r.len() && !ranks_before(x, r[k]) {
        lemma_insert_at(r, x, k + 1);
    }
}

/// Search ranking keeps every scored entry: the ranking holds the same
/// entries, each as often, as what it ranks.
pub proof fn lemma_rank_all_permutation(xs: Seq<Ranked>)
    ensures
        rank_all(xs).to_multiset() =~= xs.to_multiset(),
        rank_all(xs).len() == xs.len(),
    decreases xs.len(),
{
    broadcast use vstd::multiset::group_multiset_axioms;
    broadcast use vstd::seq_lib::group_to_multiset_ensures;
    if xs.len() == 0 {
        assert(xs.to_multiset().len() == 0);
        assert(rank_all(xs).to_multiset().len() == 0);
    } else {
        let r = rank_all(xs.drop_last());
        let x = xs.last();
        lemma_rank_all_permutation(xs.drop_last());
        lemma_insert_at(r, x, 0);
        let p = insert_at(r, x, 0);
        let a = r.subrange(0, p);
        let b = r.subrange(p, r.len() as int);
        assert(r.insert(p, x) =~= a + seq![x] + b);
        assert(r =~= a + b);
        vstd::seq_lib::lemma_multiset_commutative(a + seq![x], b);
        vstd::seq_lib::lemma_multiset_commutative(a, seq![x]);
        vstd::seq_lib::lemma_multiset_commutative(a, b);
        vstd::seq_lib::lemma_multiset_commutative(xs.drop_last(), seq![x]);
        assert(xs =~= xs.drop_last() + seq![x]);
        assert(seq![x] =~= Seq::<Ranked>::empty().push(x));
        assert(Seq::<Ranked>::empty().to_multiset().len() == 0);
        assert(seq![x].to_multiset() =~= vstd::multiset::Multiset::singleton(x));
        assert(rank_all(xs) == r.insert(p, x));
    }
}

proof fn lemma_hits_upto(lines: Seq<Seq<char>>, tl: Seq<char>, n: int)
    requires
        0 <= n,
    ensures
        hits_upto(lines, tl, n).len() > 0 <==> exists|k: int| 0 <= k < n && #[trigger] line_hit(lines, tl, k),
    decreases n,
{
    if n > 0 {
        lemma_hits_upto(lines, tl, n - 1);
        if exists|k: int| 0 <= k < n && #[trigger] line_hit(lines, tl, k) {
            let k = choose|k: int| 0 <= k < n && #[trigger] line_hit(lines, tl, k);
            if k < n - 1 {
                assert(exists|k2: int| 0 <= k2 < n - 1 && #[trigger] line_hit(lines, tl, k2));
            }
        }
        if hits_upto(lines, tl, n - 1).len() > 0 {
            let k = choose|k: int| 0 <= k < n - 1 && #[trigger] line_hit(lines, tl, k);
            assert(0 <= k < n && line_hit(lines, tl, k));
        }
    }
}

#[verifier::rlimit(100)]
proof fn lemma_scored_members(pads: Seq<DisplayPadV>, tl: Seq<char>)
    ensures
        forall|i: int|
            0 <= i < pads.len() && search_score(#[trigger] pads[i], tl) > 0 ==> scored(pads, tl).contains(
                (DisplayPadV { matches: Some(search_matches(pads[i], tl)), ..pads[i] }, search_score(pads[i], tl)),
            ),
        forall|j: int|
            0 <= j < scored(pads, tl).len() ==> exists|i: int|
                0 <= i < pads.len() && #[trigger] pads[i].pad == (#[trigger] scored(pads, tl)[j]).0.pad && pads[i].index
                    == scored(pads, tl)[j].0.index && search_score(pads[i], tl) > 0,
    decreases pads.len(),
{
    if pads.len() > 0 {
        let t = pads.drop_last();
        let d = pads.last();
        lemma_scored_members(t, tl);
        let r = scored(t, tl);
        let e = (DisplayPadV { matches: Some(search_matches(d, tl)), ..d }, search_score(d, tl));
        assert forall|i: int|
            0 <= i < pads.len() && search_score(#[trigger] pads[i], tl) > 0 implies scored(pads, tl).contains(
                (DisplayPadV { matches: Some(search_matches(pads[i], tl)), ..pads[i] }, search_score(pads[i], tl)),
            ) by {
            if i < pads.len() - 1 {
                assert(t[i] == pads[i]);
                let x = (DisplayPadV { matches: Some(search_matches(pads[i], tl)), ..pads[i] }, search_score(pads[i], tl));
                assert(r.contains(x));
                let w = choose|w: int| 0 <= w < r.len() && r[w] == x;
                assert(r.push(e)[w] == x);
            } else {
                assert(pads[i] == d);
                assert(r.push(e)[r.len() as int] == e);
            }
        }
        assert forall|j: int| 0 <= j < scored(pads, tl).len() implies exists|i: int|
            0 <= i < pads.len() && #[trigger] pads[i].pad == (#[trigger] scored(pads, tl)[j]).0.pad && pads[i].index
                == scored(pads, tl)[j].0.index && search_score(pads[i], tl) > 0 by {
            if j < r.len() {
                if search_score(d, tl) > 0 {
                    assert(scored(pads, tl)[j] == r[j]);
                }
                let i = choose|i: int|
                    0 <= i < t.len() && #[trigger] t[i].pad == (#[trigger] r[j]).0.pad && t[i].index == r[j].0.index
                        && search_score(t[i], tl) > 0;
                assert(pads[i] == t[i]);
            } else {
                assert(scored(pads, tl)[j] == e);
                assert(pads[pads.len() - 1] == d);
            }
        }
    }
}

/// The pad's title, or one of its content lines after the first, contains
/// the term, both lowered.
pub open spec fn holds_term(d: DisplayPadV, term: Seq<char>) -> bool {
    ||| contains_sub(spec_lowercase(d.pad.metadata.title), spec_lowercase(term))
    ||| exists|k: int|
        1 <= k < text_lines(d.pad.content).len() && contains_sub(
            spec_lowercase(#[trigger] text_lines(d.pad.content)[k]),
            spec_lowercase(term),
        )
}

/// Some entry of `res` is the pad `d` at its index.
pub open spec fn lists_pad(res: Seq<DisplayPadV>, d: DisplayPadV) -> bool {
    exists|j: int| 0 <= j < res.len() && (#[trigger] res[j]).pad == d.pad && res[j].index == d.index
}

proof fn lemma_holds_term_scores(d: DisplayPadV, term: Seq<char>)
    ensures
        holds_term(d, term) <==> search_score(d, spec_lowercase(term)) > 0,
{
    let tl = spec_lowercase(term);
    let lines = text_lines(d.pad.content);
    lemma_hits_upto(lines, tl, lines.len() as int);
    if exists|k: int| 0 <= k < lines.len() && #[trigger] line_hit(lines, tl, k) {
        let k = choose|k: int| 0 <= k < lines.len() && #[trigger] line_hit(lines, tl, k);
        assert(contains_sub(spec_lowercase(text_lines(d.pad.content)[k]), spec_lowercase(term)));
    }
    if exists|k: int|
        1 <= k < text_lines(d.pad.content).len() && contains_sub(
            spec_lowercase(#[trigger] text_lines(d.pad.content)[k]),
            spec_lowercase(term),
        ) {
        let k = choose|k: int|
            1 <= k < text_lines(d.pad.content).len() && contains_sub(
                spec_lowercase(#[trigger] text_lines(d.pad.content)[k]),
                spec_lowercase(term),
            );
        assert(line_hit(lines, tl, k));
    }
}

#[verifier::rlimit(100)]
proof fn lemma_search_found_one(pads: Seq<DisplayPadV>, term: Seq<char>, i: int)
    requires
        0 <= i < pads.len(),
        search_score(pads[i], spec_lowercase(term)) > 0,
    ensures
        lists_pad(spec_apply_search(pads, term), pads[i]),
{
    broadcast use vstd::seq_lib::group_to_multiset_ensures;
    let tl = spec_lowercase(term);
    let sc = scored(pads, tl);
    let rk = rank_all(sc);
    lemma_scored_members(pads, tl);
    lemma_rank_all_permutation(sc);
    let d = pads[i];
    let e = (DisplayPadV { matches: Some(search_matches(d, tl)), ..d }, search_score(d, tl));
    assert(sc.contains(e));
    assert(sc.to_multiset().count(e) > 0);
    assert(rk.contains(e));
    let j = choose|j: int| 0 <= j < rk.len() && rk[j] == e;
    assert(spec_apply_search(pads, term)[j] == e.0);
}

#[verifier::rlimit(100)]
pub(crate) proof fn lemma_search_result_one(pads: Seq<DisplayPadV>, term: Seq<char>, j: int)
    requires
        0 <= j < spec_apply_search(pads, term).len(),
    ensures
        exists|i: int|
            0 <= i < pads.len() && #[trigger] pads[i].pad == spec_apply_search(pads, term)[j].pad && pads[i].index
                == spec_apply_search(pads, term)[j].index && search_score(pads[i], spec_lowercase(term)) > 0,
{
    broadcast use vstd::seq_lib::group_to_multiset_ensures;
    let tl = spec_lowercase(term);
    let sc = scored(pads, tl);
    let rk = rank_all(sc);
    lemma_scored_members(pads, tl);
    lemma_rank_all_permutation(sc);
    let e = rk[j];
    assert(spec_apply_search(pads, term)[j] == e.0);
    assert(rk.contains(e));
    assert(rk.to_multiset().count(e) > 0);
    assert(sc.contains(e));
    let w = choose|w: int| 0 <= w < sc.len() && sc[w] == e;
    let i = choose|i: int|
        0 <= i < pads.len() && #[trigger] pads[i].pad == (#[trigger] sc[w]).0.pad && pads[i].index == sc[w].0.index
            && search_score(pads[i], tl) > 0;
    assert(pads[i].pad == spec_apply_search(pads, term)[j].pad);
}

/// Search is case-insensitive on the title and on every line of the
/// content after the first: a pad whose title, or some content line after
/// the first, contains the term when both are lowered is in the results;
/// and every result is such a pad, at its index.
pub proof fn lemma_search_finds_matches(pads: Seq<DisplayPadV>, term: Seq<char>)
    ensures
        forall|i: int| 0 <= i < pads.len() && holds_term(#[trigger] pads[i], term) ==> lists_pad(
            spec_apply_search(pads, term),
            pads[i],
        ),
        forall|j: int|
            0 <= j < spec_apply_search(pads, term).len() ==> exists|i: int|
                0 <= i < pads.len() && #[trigger] pads[i].pad == (#[trigger] spec_apply_search(pads, term)[j]).pad
                    && pads[i].index == spec_apply_search(pads, term)[j].index && holds_term(pads[i], term),
{
    assert forall|i: int| 0 <= i < pads.len() && holds_term(#[trigger] pads[i], term) implies lists_pad(
        spec_apply_search(pads, term),
        pads[i],
    ) by {
        lemma_holds_term_scores(pads[i], term);
        lemma_search_found_one(pads, term, i);
    }
    assert forall|j: int| 0 <= j < spec_apply_search(pads, term).len() implies exists|i: int|
        0 <= i < pads.len() && #[trigger] pads[i].pad == (#[trigger] spec_apply_search(pads, term)[j]).pad
            && pads[i].index == spec_apply_search(pads, term)[j].index && holds_term(pads[i], term) by {
        lemma_search_result_one(pads, term, j);
        let i = choose|i: int|
            0 <= i < pads.len() && #[trigger] pads[i].pad == spec_apply_search(pads, term)[j].pad && pads[i].index
                == spec_apply_search(pads, term)[j].index && search_score(pads[i], spec_lowercase(term)) > 0;
        lemma_holds_term_scores(pads[i], term);
    }
}

/// The full search order: the results are the pads with a positive score,
/// each once as often as it occurs, carrying its matches, ranked best first
/// (see [`lemma_rank_all_best_first`] and [`lemma_rank_all_permutation`]).
pub proof fn lemma_search_order(pads: Seq<DisplayPadV>, term: Seq<char>)
    ensures
        rank_all(scored(pads, spec_lowercase(term))).to_multiset() =~= scored(pads, spec_lowercase(term)).to_multiset(),
        best_first(rank_all(scored(pads, spec_lowercase(term)))),
        spec_apply_search(pads, term).len() == scored(pads, spec_lowercase(term)).len(),
{
    lemma_rank_all_permutation(scored(pads, spec_lowercase(term)));
    lemma_rank_all_best_first(scored(pads, spec_lowercase(term)));
}

/// Search results come best first: in the ranking behind
/// [`spec_apply_search`], no entry ranks before an earlier one.
pub proof fn lemma_rank_all_best_first(xs: Seq<Ranked>)
    ensures
        best_first(rank_all(xs)),
    decreases xs.len(),
{
    if xs.len() > 0 {
        let r = rank_all(xs.drop_last());
        let x = xs.last();
        lemma_rank_all_best_first(xs.drop_last());
        lemma_insert_at(r, x, 0);
        let p = insert_at(r, x, 0);
        let t = r.insert(p, x);
        assert forall|i: int, j: int| 0 <= i < j < t.len() implies !ranks_before(#[trigger] t[j], #[trigger] t[i]) by {
            if j < p {
                assert(t[i] == r[i] && t[j] == r[j]);
            } else if j == p {
                assert(t[i] == r[i]);
                assert(t[j] == x);
                if ranks_before(x, r[i]) {
                    assert(!ranks_before(x, r[i]));
                }
            } else if i == p {
                assert(t[i] == x);
                assert(t[j] == r[j - 1]);
                assert(p < r.len());
                lemma_ranks_before_order(r[j - 1], x, r[p]);
                if j - 1 > p {
                    assert(!ranks_before(r[j - 1], r[p]));
                }
            } else if i < p {
                assert(t[i] == r[i] && t[j] == r[j - 1]);
            } else {
                assert(t[i] == r[i - 1] && t[j] == r[j - 1]);
            }
        }
    }
}

/// The pads matching the search term (ignoring case), best first, each with
/// its matches.
pub open spec fn spec_apply_search(pads: Seq<DisplayPadV>, term: Seq<char>) -> Seq<DisplayPadV> {
    rank_all(scored(pads, spec_lowercase(term))).map_values(|x: Ranked| x.0)
}

pub open spec fn found_view(v: Seq<SearchMatch>) -> Seq<SearchMatchV> {
    v.map_values(|x: SearchMatch| x@)
}

/// Scores one pad; a pad with a positive score comes back with its matches.
fn search_pad(dp: &DisplayPad, tl: &str) -> (r: Option<(DisplayPad, u128)>)
    ensures
        if search_score(dp_view(*dp), tl@) > 0 {
            r matches Some(x) && dp_view(x.0) == (DisplayPadV {
                matches: Some(search_matches(dp_view(*dp), tl@)),
                ..dp_view(*dp)
            }) && x.1 == search_score(dp_view(*dp), tl@)
        } else {
            r is None
        },
{
    let ghost d = dp_view(*dp);
    let tlc = chars_of(tl);
    let title_low = chars_of(to_lowercase(dp.pad.metadata.title.as_str()).as_str());
    let t_hit = contains_chars(&title_low, &tlc);
    let mut ms: Vec<SearchMatch> = Vec::new();
    if t_hit {
        let segs = highlight_matches(dp.pad.metadata.title.as_str(), tl);
        ms.push(SearchMatch { line_number: 0, segments: segs });
    }
    let ghost tm = if t_hit {
        seq![SearchMatchV { line_number: 0, segments: spec_highlight(d.pad.metadata.title, tl@) }]
    } else {
        Seq::<SearchMatchV>::empty()
    };
    proof {
        assert(found_view(ms@) =~= tm);
    }
    let lines = lines_of(&chars_of(dp.pad.content.as_str()));
    let ghost lv = chars_views(lines@);
    let mut count: u128 = 0;
    let mut k: usize = 0;
    proof {
        assert(capped(hits_upto(lv, tl@, 0), 4 - tm.len()) =~= Seq::<int>::empty());
    }
    while k < lines.len()
        invariant
            lv == chars_views(lines@),
            lv == text_lines(d.pad.content),
            tlc@ == tl@,
            tm.len() <= 1,
            k <= lines.len(),
            count == hits_upto(lv, tl@, k as int).len(),
            count <= k,
            found_view(ms@) == tm + capped(hits_upto(lv, tl@, k as int), 4 - tm.len()).map_values(
                |q: int| SearchMatchV { line_number: (q + 1) as usize, segments: spec_context(lv[q], tl@, 3) },
            ),
            ms@.len() == tm.len() + capped(hits_upto(lv, tl@, k as int), 4 - tm.len()).len(),
        decreases lines.len() - k,
    {
        let line = string_from_chars(&lines[k]);
        proof {
            assert(lv[k as int] == lines@[k as int]@);
        }
        let hit = if k >= 1 {
            let low = chars_of(to_lowercase(line.as_str()).as_str());
            contains_chars(&low, &tlc)
        } else {
            false
        };
        proof {
            assert(hit == line_hit(lv, tl@, k as int));
        }
        if hit {
            let ghost h = hits_upto(lv, tl@, k as int);
            let ghost f = |q: int| SearchMatchV { line_number: (q + 1) as usize, segments: spec_context(lv[q], tl@, 3) };
            if ms.len() < 4 {
                let segs = extract_context(line.as_str(), tl, 3);
                let ghost before = ms@;
                let m = SearchMatch { line_number: k + 1, segments: segs };
                ms.push(m);
                proof {
                    assert(h.len() < 4 - tm.len());
                    assert(capped(h.push(k as int), 4 - tm.len()) == h.push(k as int));
                    assert(h.push(k as int).map_values(f) =~= h.map_values(f).push(f(k as int)));
                    assert(found_view(ms@) =~= found_view(before).push(m@));
                }
            } else {
                proof {
                    assert(capped(h.push(k as int), 4 - tm.len()) =~= capped(h, 4 - tm.len()));
                }
            }
            count = count + 1;
        }
        k += 1;
    }
    let score: u128 = (if t_hit { 10 } else { 0 }) + 5 * count;
    proof {
        assert(score == search_score(d, tl@));
        assert(search_matches(d, tl@) == found_view(ms@));
    }
    if score > 0 {
        let mut c = dp_clone(dp);
        c.matches = Some(ms);
        proof {
            assert(search_matches_view(c.matches) == Some(found_view(ms@)));
        }
        Some((c, score))
    } else {
        None
    }
}

pub open spec fn ranked_view(v: Seq<(DisplayPad, u128)>) -> Seq<Ranked> {
    v.map_values(|x: (DisplayPad, u128)| (dp_view(x.0), x.1 as int))
}

fn ranks_before_exec(a: &(DisplayPad, u128), b: &(DisplayPad, u128)) -> (r: bool)
    ensures
        r == ranks_before((dp_view(a.0), a.1 as int), (dp_view(b.0), b.1 as int)),
{
    let sa = a.0.pad.metadata.title.as_str();
    let sb = b.0.pad.metadata.title.as_str();
    let la = sa.len();
    let lb = sb.len();
    proof {
        assert(sa@ == a.0.pad.metadata.title@);
        assert(sb@ == b.0.pad.metadata.title@);
        assert(la == vstd::utf8::encode_utf8(sa@).len() as usize);
        assert(lb == vstd::utf8::encode_utf8(sb@).len() as usize);
    }
    a.1 > b.1 || (a.1 == b.1 && (la < lb || (la == lb && a.0.pad.metadata.created_at < b.0.pad.metadata.created_at)))
}

/// Keeps the pads that match the term, with their matches, best first
/// (see [`spec_apply_search`]). Only the listed pads are searched, not
/// their children.
pub fn apply_search(pads: &Vec<DisplayPad>, term: &str) -> (r: Vec<DisplayPad>)
    ensures
        dps_view(r@) == spec_apply_search(dps_view(pads@), term@),
{
    let tl = to_lowercase(term);
    let ghost tlv = tl@;
    proof {
        crate::tree::lemma_dps_view_index(pads@);
    }
    let mut ranked: Vec<(DisplayPad, u128)> = Vec::new();
    let ghost pv = dps_view(pads@);
    let mut i: usize = 0;
    proof {
        assert(ranked_view(ranked@) =~= rank_all(scored(pv.take(0), tlv)));
    }
    while i < pads.len()
        invariant
            pv == dps_view(pads@),
            pv.len() == pads@.len(),
            forall|k: int| 0 <= k < pads@.len() ==> #[trigger] pv[k] == dp_view(pads@[k]),
            tlv == tl@,
            tlv == spec_lowercase(term@),
            i <= pads.len(),
            ranked_view(ranked@) == rank_all(scored(pv.take(i as int), tlv)),
        decreases pads.len() - i,
    {
        proof {
            assert(pv.take(i + 1).drop_last() =~= pv.take(i as int));
            assert(pv.take(i + 1).last() == pv[i as int]);
        }
        match search_pad(&pads[i], tl.as_str()) {
            Some(x) => {
                let ghost rv = ranked_view(ranked@);
                let ghost xv = (dp_view(x.0), x.1 as int);
                let mut j: usize = 0;
                while j < ranked.len()
                    invariant_except_break
                        insert_at(rv, xv, 0) == insert_at(rv, xv, j as int),
                    invariant
                        rv == ranked_view(ranked@),
                        xv == (dp_view(x.0), x.1 as int),
                        j <= ranked.len(),
                    ensures
                        insert_at(rv, xv, 0) == j as int,
                    decreases ranked.len() - j,
                {
                    if ranks_before_exec(&x, &ranked[j]) {
                        break;
                    }
                    j += 1;
                }
                proof {
                    assert(insert_at(rv, xv, 0) == j as int);
                }
                ranked.insert(j, x);
                proof {
                    assert(ranked_view(ranked@) =~= rv.insert(j as int, xv));
                    let sc = scored(pv.take(i as int), tlv);
                    assert(scored(pv.take(i + 1), tlv) == sc.push(xv));
                    assert(sc.push(xv).drop_last() =~= sc);
                }
            },
            None => {},
        }
        i += 1;
    }
    proof {
        assert(pv.take(pads.len() as int) =~= pv);
    }
    let mut out: Vec<DisplayPad> = Vec::new();
    let ghost rv = ranked_view(ranked@);
    let mut k: usize = 0;
    while k < ranked.len()
        invariant
            rv == ranked_view(ranked@),
            k <= ranked.len(),
            dps_view(out@) == rv.take(k as int).map_values(|x: Ranked| x.0),
        decreases ranked.len() - k,
    {
        let c = dp_clone(&ranked[k].0);
        let ghost before = out@;
        out.push(c);
        proof {
            lemma_dps_view_push(before, c);
            assert(rv.take(k + 1).map_values(|x: Ranked| x.0) =~= rv.take(k as int).map_values(|x: Ranked| x.0).push(
                rv[k as int].0,
            ));
        }
        k += 1;
    }
    proof {
        assert(rv.take(ranked.len() as int) =~= rv);
    }
    out
}

} // verus!
