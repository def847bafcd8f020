//! Display indexes, selectors and the indexed pad tree.
//!
//! Every listed pad has a display index local to its siblings: `p3` for the
//! third pinned pad, `3` for the third active pad, `ar3` and `d3` for archived
//! and deleted pads. A path such as `1.d2` walks down the tree.
use vstd::prelude::*;
use crate::error::PadzError;
use crate::model::{Pad, PadV};
use crate::text::{
    all_digits, chars_of, decimal, decimal_chars, decimal_value, first_occurrence, find_from,
    is_ascii_alpha, is_hex_digit, lit, parse_decimal, slice_chars, string_from_chars,
    char_is_ascii_alpha, char_is_hex_digit, append_chars,
};

verus! {

/// The display index of a pad among its siblings.
#[derive(Clone, Copy, Debug, PartialEq, Eq, Structural)]
pub enum DisplayIndex {
    Pinned(usize),
    Regular(usize),
    Archived(usize),
    Deleted(usize),
}

/// How a user designates pads.
#[derive(Debug)]
pub enum PadSelector {
    /// A full display path such as `1.2`.
    Path(Vec<DisplayIndex>),
    /// All pads from the first path to the second, in display order.
    Range(Vec<DisplayIndex>, Vec<DisplayIndex>),
    /// The pad whose title contains this text (case-insensitive).
    Title(String),
    /// The pad with this UUID.
    Uuid(u128),
    /// The pad whose UUID (as 32 hex digits) starts with this text.
    ShortUuid(String),
}

/// The mathematical value of a [`PadSelector`].
pub enum SelectorV {
    Path(Seq<DisplayIndex>),
    Range(Seq<DisplayIndex>, Seq<DisplayIndex>),
    Title(Seq<char>),
    Uuid(u128),
    ShortUuid(Seq<char>),
}

impl View for PadSelector {
    type V = SelectorV;

    open spec fn view(&self) -> SelectorV {
        match self {
            PadSelector::Path(p) => SelectorV::Path(p@),
            PadSelector::Range(a, b) => SelectorV::Range(a@, b@),
            PadSelector::Title(t) => SelectorV::Title(t@),
            PadSelector::Uuid(u) => SelectorV::Uuid(*u),
            PadSelector::ShortUuid(h) => SelectorV::ShortUuid(h@),
        }
    }
}

/// A copy of a display path.
pub fn copy_path(p: &Vec<DisplayIndex>) -> (r: Vec<DisplayIndex>)
    ensures
        r@ == p@,
{
    let mut r: Vec<DisplayIndex> = Vec::new();
    let mut i: usize = 0;
    while i < p.len()
        invariant
            i <= p.len(),
            r@ == p@.take(i as int),
        decreases p.len() - i,
    {
        r.push(p[i]);
        proof {
            assert(p@.take(i as int).push(p@[i as int]) =~= p@.take(i + 1));
        }
        i += 1;
    }
    proof {
        assert(p@.take(p@.len() as int) =~= p@);
    }
    r
}

/// Equality of two display paths.
pub fn path_eq(a: &Vec<DisplayIndex>, b: &Vec<DisplayIndex>) -> (r: bool)
    ensures
        r == (a@ == b@),
{
    if a.len() != b.len() {
        return false;
    }
    let mut i: usize = 0;
    while i < a.len()
        invariant
            a.len() == b.len(),
            i <= a.len(),
            forall|j: int| 0 <= j < i ==> a@[j] == b@[j],
        decreases a.len() - i,
    {
        if a[i] != b[i] {
            return false;
        }
        i += 1;
    }
    proof {
        assert(a@ =~= b@);
    }
    true
}

impl PadSelector {
    /// A copy of this selector.
    pub fn duplicate(&self) -> (r: PadSelector)
        ensures
            r@ == self@,
    {
        match self {
            PadSelector::Path(p) => PadSelector::Path(copy_path(p)),
            PadSelector::Range(a, b) => PadSelector::Range(copy_path(a), copy_path(b)),
            PadSelector::Title(t) => PadSelector::Title(t.clone()),
            PadSelector::Uuid(u) => PadSelector::Uuid(*u),
            PadSelector::ShortUuid(h) => PadSelector::ShortUuid(h.clone()),
        }
    }

    /// Whether two selectors designate pads in the same way.
    pub fn same_as(&self, other: &PadSelector) -> (r: bool)
        ensures
            r == (self@ == other@),
    {
        match self {
            PadSelector::Path(a) => match other {
                PadSelector::Path(b) => path_eq(a, b),
                _ => false,
            },
            PadSelector::Range(a1, a2) => match other {
                PadSelector::Range(b1, b2) => {
                    let x = path_eq(a1, b1);
                    let y = path_eq(a2, b2);
                    x && y
                },
                _ => false,
            },
            PadSelector::Title(a) => match other {
                PadSelector::Title(b) => a.eq(b),
                _ => false,
            },
            PadSelector::Uuid(a) => match other {
                PadSelector::Uuid(b) => *a == *b,
                _ => false,
            },
            PadSelector::ShortUuid(a) => match other {
                PadSelector::ShortUuid(b) => a.eq(b),
                _ => false,
            },
        }
    }
}

// ---------------------------------------------------------------------------
// Rendering indexes and paths
// ---------------------------------------------------------------------------

/// The text of a display index: `p3`, `3`, `ar3` or `d3`.
pub open spec fn index_text(i: DisplayIndex) -> Seq<char> {
    match i {
        DisplayIndex::Pinned(n) => seq!['p'] + decimal(n as nat),
        DisplayIndex::Regular(n) => decimal(n as nat),
        DisplayIndex::Archived(n) => seq!['a', 'r'] + decimal(n as nat),
        DisplayIndex::Deleted(n) => seq!['d'] + decimal(n as nat),
    }
}

/// The text of a display path: its indexes joined by dots.
pub open spec fn path_text(p: Seq<DisplayIndex>) -> Seq<char>
    decreases p.len(),
{
    if p.len() == 0 {
        Seq::empty()
    } else if p.len() == 1 {
        index_text(p[0])
    } else {
        path_text(p.drop_last()) + seq!['.'] + index_text(p.last())
    }
}

impl DisplayIndex {
    /// The characters of this index's text.
    pub fn to_chars(&self) -> (r: Vec<char>)
        ensures
            r@ == index_text(*self),
    {
        match self {
            DisplayIndex::Pinned(n) => {
                let mut r: Vec<char> = Vec::new();
                r.push('p');
                let d = decimal_chars(*n);
                append_chars(&mut r, &d);
                proof {
                    assert(r@ =~= seq!['p'] + decimal(*n as nat));
                }
                r
            },
            DisplayIndex::Regular(n) => decimal_chars(*n),
            DisplayIndex::Archived(n) => {
                let mut r: Vec<char> = Vec::new();
                r.push('a');
                r.push('r');
                let d = decimal_chars(*n);
                append_chars(&mut r, &d);
                proof {
                    assert(r@ =~= seq!['a', 'r'] + decimal(*n as nat));
                }
                r
            },
            DisplayIndex::Deleted(n) => {
                let mut r: Vec<char> = Vec::new();
                r.push('d');
                let d = decimal_chars(*n);
                append_chars(&mut r, &d);
                proof {
                    assert(r@ =~= seq!['d'] + decimal(*n as nat));
                }
                r
            },
        }
    }

    /// The text of this index (`p3`, `3`, `ar3`, `d3`).
    pub fn display(&self) -> (r: String)
        ensures
            r@ == index_text(*self),
    {
        string_from_chars(&self.to_chars())
    }
}

/// The characters of a path's text.
pub fn path_chars(p: &Vec<DisplayIndex>) -> (r: Vec<char>)
    ensures
        r@ == path_text(p@),
{
    let mut r: Vec<char> = Vec::new();
    let mut i: usize = 0;
    while i < p.len()
        invariant
            i <= p.len(),
            r@ == path_text(p@.take(i as int)),
        decreases p.len() - i,
    {
        proof {
            assert(p@.take(i + 1).drop_last() =~= p@.take(i as int));
        }
        if i > 0 {
            r.push('.');
        }
        let t = p[i].to_chars();
        let ghost before = r@;
        append_chars(&mut r, &t);
        proof {
            if i == 0 {
                assert(p@.take(1).len() == 1);
                assert(r@ =~= index_text(p@.take(1)[0]));
            } else {
                assert(r@ =~= path_text(p@.take(i as int)) + seq!['.'] + index_text(p@[i as int]));
            }
        }
        i += 1;
    }
    proof {
        assert(p@.take(p@.len() as int) =~= p@);
    }
    r
}

/// The text of a display path, e.g. `1.p2`.
pub fn fmt_path(p: &Vec<DisplayIndex>) -> (r: String)
    ensures
        r@ == path_text(p@),
{
    string_from_chars(&path_chars(p))
}

// ---------------------------------------------------------------------------
// Parsing indexes, paths and selectors
// ---------------------------------------------------------------------------

/// A non-empty run of digits whose value fits a `usize`.
pub open spec fn spec_number(s: Seq<char>) -> Option<usize> {
    if s.len() > 0 && all_digits(s) && decimal_value(s) <= usize::MAX {
        Some(decimal_value(s) as usize)
    } else {
        None
    }
}

/// One index segment: `ar<n>`, `p<n>`, `d<n>` or `<n>`.
pub open spec fn spec_parse_index(s: Seq<char>) -> Option<DisplayIndex> {
    if s.len() >= 2 && s[0] == 'a' && s[1] == 'r' && spec_number(s.subrange(2, s.len() as int)) is Some {
        Some(DisplayIndex::Archived(spec_number(s.subrange(2, s.len() as int))->0))
    } else if s.len() >= 1 && s[0] == 'p' && spec_number(s.subrange(1, s.len() as int)) is Some {
        Some(DisplayIndex::Pinned(spec_number(s.subrange(1, s.len() as int))->0))
    } else if s.len() >= 1 && s[0] == 'd' && spec_number(s.subrange(1, s.len() as int)) is Some {
        Some(DisplayIndex::Deleted(spec_number(s.subrange(1, s.len() as int))->0))
    } else if spec_number(s) is Some {
        Some(DisplayIndex::Regular(spec_number(s)->0))
    } else {
        None
    }
}

fn parse_number(s: &Vec<char>) -> (r: Option<usize>)
    ensures
        r == spec_number(s@),
{
    parse_decimal(s)
}

/// Parses one index segment.
pub fn parse_index(s: &Vec<char>) -> (r: Option<DisplayIndex>)
    ensures
        r == spec_parse_index(s@),
{
    if s.len() >= 2 && s[0] == 'a' && s[1] == 'r' {
        let rest = slice_chars(s, 2, s.len());
        if let Some(n) = parse_number(&rest) {
            return Some(DisplayIndex::Archived(n));
        }
    }
    if s.len() >= 1 && s[0] == 'p' {
        let rest = slice_chars(s, 1, s.len());
        if let Some(n) = parse_number(&rest) {
            return Some(DisplayIndex::Pinned(n));
        }
    }
    if s.len() >= 1 && s[0] == 'd' {
        let rest = slice_chars(s, 1, s.len());
        if let Some(n) = parse_number(&rest) {
            return Some(DisplayIndex::Deleted(n));
        }
    }
    match parse_number(s) {
        Some(n) => Some(DisplayIndex::Regular(n)),
        None => None,
    }
}

/// The pieces of `s` between occurrences of `c`, scanning from position `i`
/// with `cur` already collected for the current piece.
pub open spec fn split_acc(s: Seq<char>, c: char, i: int, cur: Seq<char>) -> Seq<Seq<char>>
    decreases s.len() - i,
{
    if i >= s.len() {
        seq![cur]
    } else if s[i] == c {
        seq![cur] + split_acc(s, c, i + 1, Seq::empty())
    } else {
        split_acc(s, c, i + 1, cur.push(s[i]))
    }
}

/// `s.split(c)`: the pieces of `s` between occurrences of `c` (at least one).
pub open spec fn split_char(s: Seq<char>, c: char) -> Seq<Seq<char>> {
    split_acc(s, c, 0, Seq::empty())
}

/// The character sequences of a list of character vectors.
pub open spec fn chars_views(s: Seq<Vec<char>>) -> Seq<Seq<char>> {
    s.map_values(|v: Vec<char>| v@)
}

/// Splits `s` at every occurrence of `c`.
pub fn split_on(s: &Vec<char>, c: char) -> (r: Vec<Vec<char>>)
    ensures
        chars_views(r@) == split_char(s@, c),
{
    let mut out: Vec<Vec<char>> = Vec::new();
    let mut cur: Vec<char> = Vec::new();
    let mut i: usize = 0;
    while i < s.len()
        invariant
            i <= s.len(),
            chars_views(out@) + split_acc(s@, c, i as int, cur@) == split_char(s@, c),
        decreases s.len() - i,
    {
        if s[i] == c {
            let ghost before = chars_views(out@);
            let ghost old_cur = cur@;
            let piece = cur;
            cur = Vec::new();
            out.push(piece);
            proof {
                assert(chars_views(out@) =~= before.push(old_cur));
                assert(before + split_acc(s@, c, i as int, old_cur) =~= before.push(old_cur) + split_acc(s@, c, i + 1, Seq::empty()));
            }
        } else {
            cur.push(s[i]);
        }
        i += 1;
    }
    let ghost before = chars_views(out@);
    let ghost last = cur@;
    out.push(cur);
    proof {
        assert(chars_views(out@) =~= before.push(last));
        assert(before + split_acc(s@, c, i as int, last) =~= before.push(last));
    }
    out
}

/// Every segment parses as an index.
pub open spec fn spec_parse_segments(segs: Seq<Seq<char>>) -> Option<Seq<DisplayIndex>>
    decreases segs.len(),
{
    if segs.len() == 0 {
        Some(Seq::empty())
    } else {
        match (spec_parse_segments(segs.drop_last()), spec_parse_index(segs.last())) {
            (Some(p), Some(i)) => Some(p.push(i)),
            _ => None,
        }
    }
}

/// A dotted path such as `1.p2.d3`.
pub open spec fn spec_parse_path(s: Seq<char>) -> Option<Seq<DisplayIndex>> {
    spec_parse_segments(split_char(s, '.'))
}

/// Parses a dotted path.
pub fn parse_path(s: &Vec<char>) -> (r: Option<Vec<DisplayIndex>>)
    ensures
        match r {
            Some(p) => spec_parse_path(s@) == Some(p@),
            None => spec_parse_path(s@) is None,
        },
{
    let segs = split_on(s, '.');
    let ghost sv = chars_views(segs@);
    let mut out: Vec<DisplayIndex> = Vec::new();
    let mut i: usize = 0;
    while i < segs.len()
        invariant
            i <= segs.len(),
            sv == chars_views(segs@),
            sv == split_char(s@, '.'),
            spec_parse_segments(sv.take(i as int)) == Some(out@),
        decreases segs.len() - i,
    {
        proof {
            assert(sv.take(i + 1).drop_last() =~= sv.take(i as int));
            assert(sv.take(i + 1).last() == segs@[i as int]@);
        }
        match parse_index(&segs[i]) {
            Some(ix) => {
                out.push(ix);
            },
            None => {
                proof {
                    lemma_parse_segments_prefix_none(sv, i + 1);
                    assert(sv =~= split_char(s@, '.'));
                }
                return None;
            },
        }
        i += 1;
    }
    proof {
        assert(sv.take(segs.len() as int) =~= sv);
        assert(sv =~= split_char(s@, '.'));
    }
    Some(out)
}

proof fn lemma_parse_segments_prefix_none(segs: Seq<Seq<char>>, k: int)
    requires
        0 <= k <= segs.len(),
        spec_parse_segments(segs.take(k)) is None,
    ensures
        spec_parse_segments(segs) is None,
    decreases segs.len() - k,
{
    if k < segs.len() {
        assert(segs.take(k + 1).drop_last() =~= segs.take(k));
        lemma_parse_segments_prefix_none(segs, k + 1);
    } else {
        assert(segs.take(k) =~= segs);
    }
}

/// Non-empty, all hex digits, with at least one letter (so not a plain index).
pub open spec fn spec_looks_like_short_uuid(s: Seq<char>) -> bool {
    s.len() > 0 && (forall|i: int| 0 <= i < s.len() ==> is_hex_digit(#[trigger] s[i])) && (exists|i: int|
        0 <= i < s.len() && is_ascii_alpha(#[trigger] s[i]))
}

/// Whether the text looks like the start of a UUID written as hex digits.
pub fn looks_like_short_uuid(s: &Vec<char>) -> (r: bool)
    ensures
        r == spec_looks_like_short_uuid(s@),
{
    if s.len() == 0 {
        return false;
    }
    let mut i: usize = 0;
    let mut any_alpha = false;
    while i < s.len()
        invariant
            i <= s.len(),
            forall|j: int| 0 <= j < i ==> is_hex_digit(#[trigger] s@[j]),
            any_alpha == exists|j: int| 0 <= j < i && is_ascii_alpha(#[trigger] s@[j]),
        decreases s.len() - i,
    {
        if !char_is_hex_digit(s[i]) {
            return false;
        }
        if char_is_ascii_alpha(s[i]) {
            any_alpha = true;
        }
        i += 1;
    }
    any_alpha
}

/// What `uuid::Uuid::parse_str` accepts, and the 128-bit value it yields.
pub uninterp spec fn spec_uuid_parse(s: Seq<char>) -> Option<u128>;

/// Calls `uuid::Uuid::parse_str`; the result is the named parse of the text.
#[verifier::external_body]
pub fn parse_uuid(s: &str) -> (r: Option<u128>)
    ensures
        r == spec_uuid_parse(s@),
{
    match uuid::Uuid::parse_str(s) {
        Ok(u) => Some(u.as_u128()),
        Err(_) => None,
    }
}

/// What a selector string means, if anything: a UUID; else a range when a
/// dash follows the first character; else a path; else a short UUID.
pub open spec fn spec_parse_selector(s: Seq<char>) -> Option<SelectorV> {
    if spec_uuid_parse(s) is Some {
        Some(SelectorV::Uuid(spec_uuid_parse(s)->0))
    } else if first_occurrence(s, seq!['-'], 0) matches Some(d) && d > 0 {
        let d = first_occurrence(s, seq!['-'], 0)->0;
        match (spec_parse_path(s.subrange(0, d)), spec_parse_path(s.subrange(d + 1, s.len() as int))) {
            (Some(a), Some(b)) => Some(SelectorV::Range(a, b)),
            _ => None,
        }
    } else if spec_parse_path(s) is Some {
        Some(SelectorV::Path(spec_parse_path(s)->0))
    } else if spec_looks_like_short_uuid(s) {
        Some(SelectorV::ShortUuid(s))
    } else {
        None
    }
}

/// Parses one selector: a UUID, an index range such as `3-5`, a path such
/// as `1.2`, or a short UUID. Anything else is an error.
pub fn parse_index_or_range(input: &str) -> (r: Result<PadSelector, PadzError>)
    ensures
        match r {
            Ok(sel) => spec_parse_selector(input@) == Some(sel@),
            Err(_) => spec_parse_selector(input@) is None,
        },
{
    if let Some(u) = parse_uuid(input) {
        return Ok(PadSelector::Uuid(u));
    }
    let s = chars_of(input);
    let dash = lit("-");
    proof {
        reveal_strlit("-");
        assert(dash@ =~= seq!['-']);
    }
    match find_from(&s, &dash, 0) {
        Some(d) => {
            if d > 0 {
                proof {
                    assert(d + 1 <= s.len());
                }
                let a = slice_chars(&s, 0, d);
                let b = slice_chars(&s, d + 1, s.len());
                match (parse_path(&a), parse_path(&b)) {
                    (Some(pa), Some(pb)) => {
                        return Ok(PadSelector::Range(pa, pb));
                    },
                    _ => {
                        return Err(PadzError::Api("Invalid index range".to_string()));
                    },
                }
            }
        },
        None => {},
    }
    match parse_path(&s) {
        Some(p) => Ok(PadSelector::Path(p)),
        None => {
            if looks_like_short_uuid(&s) {
                Ok(PadSelector::ShortUuid(string_from_chars(&s)))
            } else {
                Err(PadzError::Api("Not a pad index".to_string()))
            }
        },
    }
}

} // verus!
