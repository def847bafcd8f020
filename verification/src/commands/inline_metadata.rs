//! Inline metadata for md and lex files: the same keys as an archive's
//! metadata, each under the prefix `padz.`.
//!
//! Markdown carries them as YAML frontmatter between `---` fences; lex as
//! leading `:: padz.KEY :: VALUE` annotations. A file without the opening
//! sentinel has no metadata and is imported as plain content.
use vstd::prelude::*;
use crate::commands::metadata_schema::SCHEMA_VERSION;
use crate::export::json_archive::status_name;
use crate::json::{json_members_view, json_view, JsonV, JsonValue};
use crate::commands::metadata_apply::opt_text;
use crate::yaml::{yaml_json, yaml_to_json, YamlValue};
use crate::model::{strings_view, uuid_hyphenated, Bucket, Metadata, MetadataV, TodoStatus};
use crate::patch::{rfc3339_secs_text, spec_rfc3339_secs_text};
use crate::text::{
    all_digits, append_chars, chars_of, chars_starts_with, decimal, decimal_value, digit_value, find_from, first_occurrence,
    is_digit, lit, occurs_at, slice_chars, spec_is_whitespace, starts_with, string_from_chars, trail_ws, trim, trim_chars,
    chars_eq, char_is_digit,
};

verus! {

// ---------------------------------------------------------------------------
// Text helpers
// ---------------------------------------------------------------------------

/// The text without a leading byte-order mark.
pub open spec fn strip_bom(s: Seq<char>) -> Seq<char> {
    if s.len() > 0 && s[0] == '\u{feff}' {
        s.skip(1)
    } else {
        s
    }
}

/// Where the line starting at `pos` ends: just past its newline, or at the
/// end of the text.
pub open spec fn line_end(s: Seq<char>, pos: int) -> int {
    match first_occurrence(s, seq!['\n'], pos) {
        Some(i) => i + 1,
        None => s.len() as int,
    }
}

/// A line without its newline.
pub open spec fn chomp(line: Seq<char>) -> Seq<char> {
    if line.len() > 0 && line.last() == '\n' {
        line.drop_last()
    } else {
        line
    }
}

/// The text without its trailing `c` characters.
pub open spec fn trim_end_char(s: Seq<char>, c: char) -> Seq<char>
    decreases s.len(),
{
    if s.len() > 0 && s.last() == c {
        trim_end_char(s.drop_last(), c)
    } else {
        s
    }
}

/// The text without its leading `c` characters.
pub open spec fn trim_start_char(s: Seq<char>, c: char) -> Seq<char>
    decreases s.len(),
{
    if s.len() > 0 && s[0] == c {
        trim_start_char(s.skip(1), c)
    } else {
        s
    }
}

/// `str::trim_end`: the text without its trailing whitespace.
pub open spec fn trim_end_ws(s: Seq<char>) -> Seq<char> {
    s.take(s.len() - trail_ws(s))
}

fn strip_bom_exec(s: Vec<char>) -> (r: Vec<char>)
    ensures
        r@ == strip_bom(s@),
{
    if s.len() > 0 && s[0] == '\u{feff}' {
        slice_chars(&s, 1, s.len())
    } else {
        s
    }
}

fn line_end_exec(s: &Vec<char>, pos: usize) -> (r: usize)
    ensures
        r == line_end(s@, pos as int),
        pos < s.len() ==> pos < r <= s.len(),
{
    match find_from(s, &lit("\n"), pos) {
        Some(i) => {
            proof {
                reveal_strlit("\n");
                assert(seq!['\n'] =~= "\n"@);
            }
            assert(i < s.len());
            i + 1
        },
        None => {
            proof {
                reveal_strlit("\n");
                assert(seq!['\n'] =~= "\n"@);
            }
            s.len()
        },
    }
}

fn chomp_exec(line: Vec<char>) -> (r: Vec<char>)
    ensures
        r@ == chomp(line@),
{
    if line.len() > 0 && line[line.len() - 1] == '\n' {
        slice_chars(&line, 0, line.len() - 1)
    } else {
        line
    }
}

fn trim_end_char_exec(s: &Vec<char>, c: char) -> (r: Vec<char>)
    ensures
        r@ == trim_end_char(s@, c),
{
    let mut n = s.len();
    proof {
        assert(s@.take(n as int) =~= s@);
    }
    while n > 0 && s[n - 1] == c
        invariant
            n <= s.len(),
            trim_end_char(s@, c) == trim_end_char(s@.take(n as int), c),
        decreases n,
    {
        proof {
            assert(s@.take(n as int).drop_last() =~= s@.take(n - 1));
        }
        n -= 1;
    }
    proof {
        assert(s@.take(n as int) == s@.subrange(0, n as int));
        if n > 0 {
            assert(s@.take(n as int).last() == s@[n - 1]);
        }
    }
    slice_chars(s, 0, n)
}

fn trim_start_char_exec(s: &Vec<char>, c: char) -> (r: Vec<char>)
    ensures
        r@ == trim_start_char(s@, c),
{
    let mut i: usize = 0;
    proof {
        assert(s@.skip(0) =~= s@);
    }
    while i < s.len() && s[i] == c
        invariant
            i <= s.len(),
            trim_start_char(s@, c) == trim_start_char(s@.skip(i as int), c),
        decreases s.len() - i,
    {
        proof {
            assert(s@.skip(i as int).skip(1) =~= s@.skip(i + 1));
        }
        i += 1;
    }
    proof {
        assert(s@.skip(i as int) == s@.subrange(i as int, s.len() as int));
        if i < s.len() {
            assert(s@.skip(i as int)[0] == s@[i as int]);
        }
    }
    slice_chars(s, i, s.len())
}

fn trim_end_ws_exec(s: &Vec<char>) -> (r: Vec<char>)
    ensures
        r@ == trim_end_ws(s@),
{
    let mut n = s.len();
    proof {
        assert(s@.take(n as int) =~= s@);
    }
    while n > 0 && crate::text::is_whitespace(s[n - 1])
        invariant
            n <= s.len(),
            trail_ws(s@) == (s.len() - n) + trail_ws(s@.take(n as int)),
        decreases n,
    {
        proof {
            assert(s@.take(n as int).subrange(0, n - 1) =~= s@.take(n - 1));
        }
        n -= 1;
    }
    proof {
        if n > 0 {
            assert(s@.take(n as int)[n - 1] == s@[n - 1]);
        }
        assert(trail_ws(s@.take(n as int)) == 0);
        assert(s@.take(n as int) == s@.subrange(0, n as int));
    }
    slice_chars(s, 0, n)
}

// ---------------------------------------------------------------------------
// Lex annotations
// ---------------------------------------------------------------------------

/// `:: KEY :: VALUE` read as its key and value; a trailing `::` (and the
/// spaces before it) is dropped from the value.
pub open spec fn lex_annotation(line: Seq<char>) -> Option<(Seq<char>, Seq<char>)> {
    if !starts_with(line, ":: "@) {
        None
    } else {
        let rest = line.skip(3);
        match first_occurrence(rest, " :: "@, 0) {
            None => None,
            Some(mid) => Some((rest.take(mid), trim_end_ws(trim_end_char(rest.skip(mid + 4), ':')))),
        }
    }
}

/// Reads a lex annotation line (see [`lex_annotation`]).
pub fn parse_lex_annotation(line: &Vec<char>) -> (r: Option<(Vec<char>, Vec<char>)>)
    ensures
        match lex_annotation(line@) {
            Some((k, v)) => r matches Some((a, b)) && a@ == k && b@ == v,
            None => r is None,
        },
{
    proof {
        reveal_strlit(":: ");
        reveal_strlit(" :: ");
    }
    if !chars_starts_with(line, &lit(":: ")) {
        return None;
    }
    let rest = slice_chars(line, 3, line.len());
    proof {
        assert(rest@ =~= line@.skip(3));
    }
    match find_from(&rest, &lit(" :: "), 0) {
        None => None,
        Some(mid) => {
            let key = slice_chars(&rest, 0, mid);
            let tail = slice_chars(&rest, mid + 4, rest.len());
            proof {
                assert(key@ =~= rest@.take(mid as int));
                assert(tail@ =~= rest@.skip(mid + 4));
            }
            let value = trim_end_ws_exec(&trim_end_char_exec(&tail, ':'));
            Some((key, value))
        },
    }
}

/// The number a text denotes as `u64::from_str` reads it: an optional `+`
/// and at least one digit, within `u64`.
pub open spec fn u64_value(s: Seq<char>) -> Option<nat> {
    let d = if s.len() > 0 && s[0] == '+' {
        s.skip(1)
    } else {
        s
    };
    if d.len() > 0 && all_digits(d) && decimal_value(d) <= u64::MAX {
        Some(decimal_value(d) as nat)
    } else {
        None
    }
}

/// The non-empty trimmed pieces of a comma-separated list from `from` on.
pub open spec fn comma_items(s: Seq<char>, from: int) -> Seq<Seq<char>>
    decreases s.len() - from,
{
    if from < 0 || from > s.len() {
        Seq::empty()
    } else {
        match first_occurrence(s, seq![','], from) {
            Some(i) => if from <= i < s.len() {
                keep_nonempty(trim(s.subrange(from, i))) + comma_items(s, i + 1)
            } else {
                Seq::empty()
            },
            None => keep_nonempty(trim(s.subrange(from, s.len() as int))),
        }
    }
}

pub open spec fn keep_nonempty(t: Seq<char>) -> Seq<Seq<char>> {
    if t.len() == 0 {
        Seq::empty()
    } else {
        seq![t]
    }
}

pub open spec fn texts_json(ts: Seq<Seq<char>>) -> Seq<JsonV> {
    ts.map_values(|t: Seq<char>| JsonV::String(t))
}

/// The JSON value a scalar of `key` becomes: the schema version a number
/// when it reads as one; the flags booleans for `true` and `false`; an empty
/// time or parent, or `null`, null; the tags an array of the non-empty
/// trimmed comma-separated names; anything else the text itself.
pub open spec fn coerced(key: Seq<char>, raw: Seq<char>) -> JsonV {
    if key == "schema_version"@ {
        match u64_value(raw) {
            Some(n) => JsonV::Number(decimal(n)),
            None => JsonV::String(raw),
        }
    } else if key == "is_pinned"@ || key == "delete_protected"@ {
        if raw == "true"@ {
            JsonV::Bool(true)
        } else if raw == "false"@ {
            JsonV::Bool(false)
        } else {
            JsonV::String(raw)
        }
    } else if key == "pinned_at"@ || key == "parent_id"@ {
        if raw == "null"@ || raw.len() == 0 {
            JsonV::Null
        } else {
            JsonV::String(raw)
        }
    } else if key == "tags"@ {
        if raw.len() == 0 {
            JsonV::Array(Seq::empty())
        } else {
            JsonV::Array(texts_json(comma_items(raw, 0)))
        }
    } else {
        JsonV::String(raw)
    }
}

fn text_json(v: &Vec<char>) -> (r: JsonValue)
    ensures
        r@ == JsonV::String(v@),
{
    JsonValue::String(string_from_chars(v))
}

#[verifier::loop_isolation(false)]
fn parse_u64_text(s: &Vec<char>) -> (r: Option<u64>)
    ensures
        r matches Some(x) ==> u64_value(s@) == Some(x as nat),
        r is None ==> u64_value(s@) is None,
{
    let start: usize = if s.len() > 0 && s[0] == '+' {
        1
    } else {
        0
    };
    let d = slice_chars(s, start, s.len());
    let ghost dd = if s@.len() > 0 && s@[0] == '+' {
        s@.skip(1)
    } else {
        s@
    };
    proof {
        assert(d@ =~= dd);
    }
    if d.len() == 0 {
        assert(u64_value(s@) is None);
        return None;
    }
    let mut v: u64 = 0;
    let mut i: usize = 0;
    while i < d.len()
        invariant
            i <= d.len(),
            all_digits(d@.take(i as int)),
            v == decimal_value(d@.take(i as int)),
        decreases d.len() - i,
    {
        if !char_is_digit(d[i]) {
            proof {
                assert(!all_digits(dd)) by {
                    assert(!is_digit(dd[i as int]));
                }
            }
            assert(u64_value(s@) is None);
            return None;
        }
        proof {
            assert(d@.take(i + 1).drop_last() =~= d@.take(i as int));
            assert(d@.take(i + 1).last() == d@[i as int]);
            assert(all_digits(d@.take(i + 1)));
        }
        let digit = (d[i] as u32 - '0' as u32) as u64;
        assert(digit == digit_value(d@[i as int]));
        if v > (u64::MAX - digit) / 10 {
            proof {
                lemma_digits_value_grows(d@, i as int);
            }
            assert(u64_value(s@) is None);
            return None;
        }
        v = v * 10 + digit;
        i += 1;
    }
    proof {
        assert(d@.take(d.len() as int) =~= d@);
    }
    assert(u64_value(s@) == Some(v as nat));
    Some(v)
}

proof fn lemma_digits_value_grows(d: Seq<char>, i: int)
    requires
        0 <= i < d.len(),
        all_digits(d.take(i + 1)),
        decimal_value(d.take(i)) > (u64::MAX - digit_value(d[i])) / 10,
    ensures
        !(all_digits(d) && decimal_value(d) <= u64::MAX),
{
    assert(d.take(i + 1).drop_last() =~= d.take(i));
    assert(d.take(i + 1).last() == d[i]);
    assert(decimal_value(d.take(i + 1)) > u64::MAX) by (nonlinear_arith)
        requires
            decimal_value(d.take(i + 1)) == decimal_value(d.take(i)) * 10 + digit_value(d[i]),
            decimal_value(d.take(i)) > (u64::MAX - digit_value(d[i])) / 10,
            0 <= digit_value(d[i]) <= 9,
    ;
    if all_digits(d) {
        lemma_value_prefix(d, i + 1);
    }
}

proof fn lemma_value_prefix(s: Seq<char>, i: int)
    requires
        all_digits(s),
        0 <= i <= s.len(),
    ensures
        decimal_value(s.take(i)) <= decimal_value(s),
    decreases s.len() - i,
{
    if i < s.len() {
        assert(s.drop_last().take(i) =~= s.take(i));
        assert(all_digits(s.drop_last()));
        lemma_value_prefix(s.drop_last(), i);
        lemma_value_nonneg(s.drop_last());
        assert(is_digit(s[s.len() - 1]));
    } else {
        assert(s.take(i) =~= s);
    }
}

proof fn lemma_value_nonneg(s: Seq<char>)
    requires
        all_digits(s),
    ensures
        decimal_value(s) >= 0,
    decreases s.len(),
{
    if s.len() > 0 {
        lemma_value_nonneg(s.drop_last());
        assert(is_digit(s[s.len() - 1]));
    }
}

fn decimal_u64(n: u64) -> (r: Vec<char>)
    ensures
        r@ == decimal(n as nat),
    decreases n,
{
    if n < 10 {
        let mut v: Vec<char> = Vec::new();
        v.push(digit_of(n));
        proof {
            assert(v@ =~= seq![crate::text::digit_char(n as int)]);
        }
        v
    } else {
        let mut v = decimal_u64(n / 10);
        v.push(digit_of(n % 10));
        v
    }
}

fn digit_of(d: u64) -> (c: char)
    requires
        d < 10,
    ensures
        c == crate::text::digit_char(d as int),
{
    if d == 0 { '0' }
    else if d == 1 { '1' }
    else if d == 2 { '2' }
    else if d == 3 { '3' }
    else if d == 4 { '4' }
    else if d == 5 { '5' }
    else if d == 6 { '6' }
    else if d == 7 { '7' }
    else if d == 8 { '8' }
    else { '9' }
}

fn keep_nonempty_into(items: &mut Vec<JsonValue>, t: Vec<char>)
    ensures
        crate::json::json_items_view(final(items)@) == crate::json::json_items_view(old(items)@) + texts_json(
            keep_nonempty(t@),
        ),
{
    if t.len() > 0 {
        let ghost before = items@;
        items.push(text_json(&t));
        proof {
            assert(items@.drop_last() =~= before);
            assert(texts_json(keep_nonempty(t@)) =~= seq![JsonV::String(t@)]);
        }
    } else {
        proof {
            assert(texts_json(keep_nonempty(t@)) =~= Seq::<JsonV>::empty());
            assert(crate::json::json_items_view(items@) + Seq::<JsonV>::empty() =~= crate::json::json_items_view(items@));
        }
    }
}

fn comma_items_json(s: &Vec<char>) -> (r: Vec<JsonValue>)
    ensures
        crate::json::json_items_view(r@) == texts_json(comma_items(s@, 0)),
{
    let comma = lit(",");
    proof {
        reveal_strlit(",");
        assert(comma@ =~= seq![',']);
    }
    let mut items: Vec<JsonValue> = Vec::new();
    let mut from: usize = 0;
    let mut done = false;
    while !done
        invariant
            comma@ == seq![','],
            from <= s.len(),
            !done ==> texts_json(comma_items(s@, 0)) == crate::json::json_items_view(items@) + texts_json(
                comma_items(s@, from as int),
            ),
            done ==> texts_json(comma_items(s@, 0)) == crate::json::json_items_view(items@),
        decreases s.len() - from + (if done { 0int } else { 1int }),
    {
        let ghost acc = crate::json::json_items_view(items@);
        match find_from(s, &comma, from) {
            Some(i) => {
                let piece = trim_chars(&slice_chars(s, from, i));
                keep_nonempty_into(&mut items, piece);
                proof {
                    assert(occurs_at(s@, seq![','], i as int));
                    assert(i < s.len());
                    assert(texts_json(keep_nonempty(trim(s@.subrange(from as int, i as int))) + comma_items(s@, i + 1))
                        =~= texts_json(keep_nonempty(trim(s@.subrange(from as int, i as int)))) + texts_json(
                        comma_items(s@, i + 1),
                    ));
                    assert(acc + texts_json(keep_nonempty(trim(s@.subrange(from as int, i as int)))) + texts_json(
                        comma_items(s@, i + 1),
                    ) =~= acc + (texts_json(keep_nonempty(trim(s@.subrange(from as int, i as int)))) + texts_json(
                        comma_items(s@, i + 1),
                    )));
                }
                from = i + 1;
            },
            None => {
                let piece = trim_chars(&slice_chars(s, from, s.len()));
                keep_nonempty_into(&mut items, piece);
                done = true;
            },
        }
    }
    items
}

/// Turns a scalar of `key` into its JSON value (see [`coerced`]).
pub fn coerce_scalar(key: &Vec<char>, raw: &Vec<char>) -> (r: JsonValue)
    ensures
        r@ == coerced(key@, raw@),
{
    proof {
        reveal_strlit("schema_version");
        reveal_strlit("is_pinned");
        reveal_strlit("delete_protected");
        reveal_strlit("pinned_at");
        reveal_strlit("parent_id");
        reveal_strlit("tags");
    }
    if chars_eq(key, &lit("schema_version")) {
        match parse_u64_text(raw) {
            Some(n) => {
                let r = JsonValue::Number(string_from_chars(&decimal_u64(n)));
                r
            },
            None => text_json(raw),
        }
    } else if chars_eq(key, &lit("is_pinned")) || chars_eq(key, &lit("delete_protected")) {
        if chars_eq(raw, &lit("true")) {
            JsonValue::Bool(true)
        } else if chars_eq(raw, &lit("false")) {
            JsonValue::Bool(false)
        } else {
            text_json(raw)
        }
    } else if chars_eq(key, &lit("pinned_at")) || chars_eq(key, &lit("parent_id")) {
        if chars_eq(raw, &lit("null")) || raw.len() == 0 {
            JsonValue::Null
        } else {
            text_json(raw)
        }
    } else if chars_eq(key, &lit("tags")) {
        if raw.len() == 0 {
            let r = JsonValue::Array(Vec::new());
            proof {
                assert(crate::json::json_items_view(Seq::<JsonValue>::empty()) =~= Seq::<JsonV>::empty());
            }
            r
        } else {
            JsonValue::Array(comma_items_json(raw))
        }
    } else {
        text_json(raw)
    }
}

// ---------------------------------------------------------------------------
// Metadata bags
// ---------------------------------------------------------------------------

/// The position of the first member named `k`.
pub open spec fn key_index(m: Seq<(Seq<char>, JsonV)>, k: Seq<char>) -> Option<int>
    decreases m.len(),
{
    if m.len() == 0 {
        None
    } else {
        match key_index(m.drop_last(), k) {
            Some(i) => Some(i),
            None => if m.last().0 == k {
                Some(m.len() - 1)
            } else {
                None
            },
        }
    }
}

/// The members with `k` set to `v`: in place when `k` is there, else last.
pub open spec fn upsert(m: Seq<(Seq<char>, JsonV)>, k: Seq<char>, v: JsonV) -> Seq<(Seq<char>, JsonV)> {
    match key_index(m, k) {
        Some(i) => m.update(i, (k, v)),
        None => m.push((k, v)),
    }
}

proof fn lemma_key_index_first(m: Seq<(Seq<char>, JsonV)>, k: Seq<char>, j: int)
    requires
        0 <= j < m.len(),
        m[j].0 == k,
        forall|i: int| 0 <= i < j ==> #[trigger] m[i].0 != k,
    ensures
        key_index(m, k) == Some(j),
    decreases m.len(),
{
    if j < m.len() - 1 {
        assert(m.drop_last()[j] == m[j]);
        assert forall|i: int| 0 <= i < j implies #[trigger] m.drop_last()[i].0 != k by {
            assert(m.drop_last()[i] == m[i]);
        }
        lemma_key_index_first(m.drop_last(), k, j);
    } else {
        lemma_key_index_none(m.drop_last(), k);
    }
}

proof fn lemma_key_index_none(m: Seq<(Seq<char>, JsonV)>, k: Seq<char>)
    requires
        forall|i: int| 0 <= i < m.len() ==> #[trigger] m[i].0 != k,
    ensures
        key_index(m, k) is None,
    decreases m.len(),
{
    if m.len() > 0 {
        assert forall|i: int| 0 <= i < m.len() - 1 implies #[trigger] m.drop_last()[i].0 != k by {
            assert(m.drop_last()[i] == m[i]);
        }
        lemma_key_index_none(m.drop_last(), k);
    }
}

/// Sets member `key` of the bag (see [`upsert`]).
pub(crate) fn upsert_member(meta: &mut Vec<(String, JsonValue)>, key: Vec<char>, v: JsonValue)
    ensures
        json_members_view(final(meta)@) == upsert(json_members_view(old(meta)@), key@, v@),
{
    let ghost m0 = json_members_view(meta@);
    proof {
        crate::json::lemma_members_view(meta@);
    }
    let mut j: usize = 0;
    while j < meta.len()
        invariant
            m0 == json_members_view(meta@),
            m0 == json_members_view(old(meta)@),
            m0.len() == meta@.len(),
            forall|i: int| 0 <= i < meta@.len() ==> #[trigger] m0[i] == (meta@[i].0@, json_view(meta@[i].1)),
            j <= meta.len(),
            forall|i: int| 0 <= i < j ==> #[trigger] m0[i].0 != key@,
        decreases meta.len() - j,
    {
        if chars_eq(&chars_of(meta[j].0.as_str()), &key) {
            proof {
                assert(m0[j as int].0 == key@);
                lemma_key_index_first(m0, key@, j as int);
            }
            let ghost before = meta@;
            let entry = (string_from_chars(&key), v);
            let ghost ev = (key@, entry.1@);
            meta.set(j, entry);
            proof {
                crate::json::lemma_members_view(meta@);
                assert(json_members_view(meta@) =~= m0.update(j as int, ev));
                assert(ev == (key@, v@));
                assert(upsert(m0, key@, v@) == m0.update(j as int, (key@, v@)));
            }
            return;
        }
        j += 1;
    }
    proof {
        lemma_key_index_none(m0, key@);
    }
    let ghost before = meta@;
    meta.push((string_from_chars(&key), v));
    proof {
        assert(meta@.drop_last() =~= before);
    }
}

// ---------------------------------------------------------------------------
// Reading lex metadata
// ---------------------------------------------------------------------------

/// Reads leading annotations from the line at `pos` on into the bag `meta`:
/// each line (without its newline) that starts with `:: padz.` and reads as
/// an annotation sets its key without the prefix to its coerced, trimmed
/// value; the first other line stops the reading. Gives the bag and where
/// the reading stopped.
pub open spec fn lex_scan(s: Seq<char>, pos: int, meta: Seq<(Seq<char>, JsonV)>) -> (Seq<(Seq<char>, JsonV)>, int)
    decreases s.len() - pos,
{
    if pos < 0 || pos >= s.len() {
        (meta, pos)
    } else {
        let end = line_end(s, pos);
        if end <= pos || end > s.len() {
            (meta, pos)
        } else {
            let line = chomp(s.subrange(pos, end));
            if !starts_with(line, ":: padz."@) {
                (meta, pos)
            } else {
                match lex_annotation(line) {
                    None => (meta, pos),
                    Some((key, value)) => {
                        let meta2 = if starts_with(key, "padz."@) {
                            upsert(meta, key.skip(5), coerced(key.skip(5), trim(value)))
                        } else {
                            meta
                        };
                        lex_scan(s, end, meta2)
                    },
                }
            }
        }
    }
}

/// The metadata and body of a lex document: none unless it starts (after a
/// byte-order mark) with `:: padz.` and its leading annotations set some
/// key (see [`lex_scan`]); the body is what follows them, without leading
/// newlines.
pub open spec fn lex_metadata(raw: Seq<char>) -> Option<(JsonV, Seq<char>)> {
    let s = strip_bom(raw);
    if !starts_with(s, ":: padz."@) {
        None
    } else {
        let (m, consumed) = lex_scan(s, 0, Seq::empty());
        if m.len() == 0 {
            None
        } else {
            Some((JsonV::Object(m), trim_start_char(s.skip(consumed), '\n')))
        }
    }
}

/// Reads the metadata and body of a lex document (see [`lex_metadata`]).
pub fn parse_lex_metadata(raw: &str) -> (r: Option<(JsonValue, String)>)
    ensures
        match lex_metadata(raw@) {
            Some((v, body)) => r matches Some((x, b)) && x@ == v && b@ == body,
            None => r is None,
        },
{
    let s = strip_bom_exec(chars_of(raw));
    let sentinel = lit(":: padz.");
    let prefix = lit("padz.");
    proof {
        reveal_strlit("padz.");
    }
    if !chars_starts_with(&s, &sentinel) {
        return None;
    }
    let mut meta: Vec<(String, JsonValue)> = Vec::new();
    let mut pos: usize = 0;
    let mut done = false;
    proof {
        assert(json_members_view(meta@) =~= Seq::<(Seq<char>, JsonV)>::empty());
    }
    while !done && pos < s.len()
        invariant
            sentinel@ == ":: padz."@,
            prefix@ == "padz."@,
            prefix@.len() == 5,
            pos <= s.len(),
            !done ==> lex_scan(s@, 0, Seq::empty()) == lex_scan(s@, pos as int, json_members_view(meta@)),
            done ==> lex_scan(s@, 0, Seq::empty()) == (json_members_view(meta@), pos as int),
        decreases s.len() - pos + (if done { 0int } else { 1int }),
    {
        let end = line_end_exec(&s, pos);
        let line = chomp_exec(slice_chars(&s, pos, end));
        if !chars_starts_with(&line, &sentinel) {
            done = true;
        } else {
            match parse_lex_annotation(&line) {
                None => {
                    done = true;
                },
                Some((key, value)) => {
                    if chars_starts_with(&key, &prefix) {
                        let bare = slice_chars(&key, 5, key.len());
                        proof {
                            assert(bare@ =~= key@.skip(5));
                        }
                        let v = coerce_scalar(&bare, &trim_chars(&value));
                        upsert_member(&mut meta, bare, v);
                    }
                    pos = end;
                },
            }
        }
    }
    let ghost m = json_members_view(meta@);
    proof {
        crate::json::lemma_members_view(meta@);
    }
    if meta.len() == 0 {
        return None;
    }
    let rest = slice_chars(&s, pos, s.len());
    proof {
        assert(rest@ =~= s@.skip(pos as int));
    }
    let body = trim_start_char_exec(&rest, '\n');
    Some((JsonValue::Object(meta), string_from_chars(&body)))
}

// ---------------------------------------------------------------------------
// Writing metadata
// ---------------------------------------------------------------------------

/// The label a bucket is written with.
pub open spec fn bucket_name(b: Bucket) -> Seq<char> {
    match b {
        Bucket::Active => "Active"@,
        Bucket::Archived => "Archived"@,
        Bucket::Deleted => "Deleted"@,
    }
}

/// A time as inline metadata writes it: its RFC 3339 text at whole
/// seconds, or `null` when `chrono` cannot represent it.
pub open spec fn secs_text(ms: i64) -> Seq<char> {
    match spec_rfc3339_secs_text(ms) {
        Some(t) => t,
        None => "null"@,
    }
}

pub open spec fn bool_text(b: bool) -> Seq<char> {
    if b {
        "true"@
    } else {
        "false"@
    }
}

/// The names joined by commas.
pub open spec fn join_commas(ts: Seq<Seq<char>>) -> Seq<char>
    decreases ts.len(),
{
    if ts.len() == 0 {
        Seq::empty()
    } else if ts.len() == 1 {
        ts[0]
    } else {
        join_commas(ts.drop_last()) + ","@ + ts.last()
    }
}

/// One annotation line.
pub open spec fn lex_line(key: Seq<char>, value: Seq<char>) -> Seq<char> {
    ":: padz."@ + key + " :: "@ + value + "\n"@
}

/// The lex annotations of a pad's metadata, one per key in the archive
/// order with the schema version first and the bucket last, then a blank
/// line.
pub open spec fn lex_block(m: MetadataV, bucket: Bucket) -> Seq<char> {
    lex_line("schema_version"@, decimal(SCHEMA_VERSION as nat)) + lex_line("id"@, uuid_hyphenated(m.id)) + lex_line(
        "created_at"@,
        secs_text(m.created_at),
    ) + lex_line("updated_at"@, secs_text(m.updated_at)) + lex_line("is_pinned"@, bool_text(m.is_pinned)) + lex_line(
        "pinned_at"@,
        match m.pinned_at {
            Some(t) => secs_text(t),
            None => "null"@,
        },
    ) + lex_line("delete_protected"@, bool_text(m.delete_protected)) + lex_line(
        "parent_id"@,
        match m.parent_id {
            Some(p) => uuid_hyphenated(p),
            None => "null"@,
        },
    ) + lex_line("status"@, status_name(m.status)) + lex_line("tags"@, join_commas(m.tags)) + lex_line(
        "bucket"@,
        bucket_name(bucket),
    ) + "\n"@
}

fn push_lex_line(out: &mut Vec<char>, key: &str, value: &Vec<char>)
    ensures
        final(out)@ == old(out)@ + lex_line(key@, value@),
{
    let ghost o = out@;
    append_chars(out, &lit(":: padz."));
    append_chars(out, &lit(key));
    append_chars(out, &lit(" :: "));
    append_chars(out, value);
    append_chars(out, &lit("\n"));
    proof {
        assert(out@ =~= o + lex_line(key@, value@));
    }
}

fn secs_chars(ms: i64) -> (r: Vec<char>)
    ensures
        r@ == secs_text(ms),
{
    match rfc3339_secs_text(ms) {
        Some(t) => chars_of(t.as_str()),
        None => lit("null"),
    }
}

fn bool_chars(b: bool) -> (r: Vec<char>)
    ensures
        r@ == bool_text(b),
{
    if b {
        lit("true")
    } else {
        lit("false")
    }
}

fn join_commas_chars(ts: &Vec<String>) -> (r: Vec<char>)
    ensures
        r@ == join_commas(strings_view(ts@)),
{
    let ghost tv = strings_view(ts@);
    let mut out: Vec<char> = Vec::new();
    let mut i: usize = 0;
    proof {
        reveal_strlit(",");
        assert(tv.take(0) =~= Seq::<Seq<char>>::empty());
    }
    while i < ts.len()
        invariant
            tv == strings_view(ts@),
            i <= ts.len(),
            out@ == join_commas(tv.take(i as int)),
        decreases ts.len() - i,
    {
        proof {
            assert(tv.take(i + 1).drop_last() =~= tv.take(i as int));
            assert(tv.take(i + 1).last() == tv[i as int]);
            assert(tv[i as int] == ts@[i as int]@);
        }
        if i > 0 {
            out.push(',');
            proof {
                reveal_strlit(",");
                assert(seq![','] =~= ","@);
            }
        } else {
            proof {
                assert(tv.take(1)[0] == tv[0]);
            }
        }
        append_chars(&mut out, &chars_of(ts[i].as_str()));
        proof {
            reveal_strlit(",");
            if i > 0 {
                assert(out@ =~= join_commas(tv.take(i as int)) + ","@ + tv[i as int]);
            }
        }
        i += 1;
    }
    proof {
        assert(tv.take(ts.len() as int) =~= tv);
    }
    out
}

fn status_chars(s: TodoStatus) -> (r: Vec<char>)
    ensures
        r@ == status_name(s),
{
    match s {
        TodoStatus::Planned => lit("Planned"),
        TodoStatus::InProgress => lit("InProgress"),
        TodoStatus::Done => lit("Done"),
    }
}

fn bucket_chars(b: Bucket) -> (r: Vec<char>)
    ensures
        r@ == bucket_name(b),
{
    match b {
        Bucket::Active => lit("Active"),
        Bucket::Archived => lit("Archived"),
        Bucket::Deleted => lit("Deleted"),
    }
}

/// Writes a pad's metadata as lex annotations (see [`lex_block`]), to be
/// put before its content.
pub fn serialize_lex_metadata(meta: &Metadata, bucket: Bucket) -> (r: String)
    ensures
        r@ == lex_block(meta@, bucket),
{
    let mut out: Vec<char> = Vec::new();
    push_lex_line(&mut out, "schema_version", &decimal_u64(SCHEMA_VERSION as u64));
    push_lex_line(&mut out, "id", &crate::model::uuid_hyphenated_chars(meta.id));
    push_lex_line(&mut out, "created_at", &secs_chars(meta.created_at));
    push_lex_line(&mut out, "updated_at", &secs_chars(meta.updated_at));
    push_lex_line(&mut out, "is_pinned", &bool_chars(meta.is_pinned));
    let pinned = match meta.pinned_at {
        Some(t) => secs_chars(t),
        None => lit("null"),
    };
    push_lex_line(&mut out, "pinned_at", &pinned);
    push_lex_line(&mut out, "delete_protected", &bool_chars(meta.delete_protected));
    let parent = match meta.parent_id {
        Some(p) => crate::model::uuid_hyphenated_chars(p),
        None => lit("null"),
    };
    push_lex_line(&mut out, "parent_id", &parent);
    push_lex_line(&mut out, "status", &status_chars(meta.status));
    push_lex_line(&mut out, "tags", &join_commas_chars(&meta.tags));
    push_lex_line(&mut out, "bucket", &bucket_chars(bucket));
    let ghost before = out@;
    out.push('\n');
    proof {
        reveal_strlit("\n");
        assert(out@ =~= before + "\n"@);
        assert(out@ =~= lex_block(meta@, bucket));
    }
    string_from_chars(&out)
}

// ---------------------------------------------------------------------------
// Markdown frontmatter
// ---------------------------------------------------------------------------

/// A frontmatter fence: the line, without its newlines and surrounding
/// whitespace, is `---`.
pub open spec fn is_fence(line: Seq<char>) -> bool {
    trim(trim_end_char(line, '\n')) == "---"@
}

/// The first fence line at or after `pos`: where it starts and ends.
pub open spec fn closing_fence(s: Seq<char>, pos: int) -> Option<(int, int)>
    decreases s.len() - pos,
{
    if pos < 0 || pos >= s.len() {
        None
    } else {
        let end = line_end(s, pos);
        if end <= pos || end > s.len() {
            None
        } else if is_fence(s.subrange(pos, end)) {
            Some((pos, end))
        } else {
            closing_fence(s, end)
        }
    }
}

/// The YAML text and the body of a Markdown document with frontmatter: the
/// document (after a byte-order mark) starts with `---` and its first line
/// is a fence; the YAML text runs from the next line up to the next fence
/// line, and the body is what follows that, without leading newlines. None
/// when either fence is missing.
pub open spec fn md_parts(raw: Seq<char>) -> Option<(Seq<char>, Seq<char>)> {
    let s = strip_bom(raw);
    if !starts_with(s, "---"@) {
        None
    } else {
        let first = line_end(s, 0);
        if !is_fence(s.take(first)) {
            None
        } else {
            match closing_fence(s, first) {
                None => None,
                Some((a, b)) => Some((s.subrange(first, a), trim_start_char(s.skip(b), '\n'))),
            }
        }
    }
}

fn is_fence_exec(line: &Vec<char>) -> (r: bool)
    ensures
        r == is_fence(line@),
{
    chars_eq(&trim_chars(&trim_end_char_exec(line, '\n')), &lit("---"))
}

/// Splits a Markdown document into its frontmatter's YAML text and its body
/// (see [`md_parts`]).
pub fn md_frontmatter_parts(raw: &str) -> (r: Option<(String, String)>)
    ensures
        match md_parts(raw@) {
            None => r is None,
            Some((y, b)) => r matches Some((ry, rb)) && ry@ == y && rb@ == b,
        },
{
    let s = strip_bom_exec(chars_of(raw));
    if !chars_starts_with(&s, &lit("---")) {
        return None;
    }
    proof {
        reveal_strlit("---");
        assert(s@.len() >= 3);
    }
    let first = line_end_exec(&s, 0);
    let head = slice_chars(&s, 0, first);
    proof {
        assert(head@ =~= s@.take(first as int));
    }
    if !is_fence_exec(&head) {
        return None;
    }
    let mut pos = first;
    while pos < s.len()
        invariant
            first <= pos <= s.len(),
            s@ == strip_bom(raw@),
            starts_with(s@, "---"@),
            is_fence(s@.take(first as int)),
            first == line_end(s@, 0),
            first <= s.len(),
            closing_fence(s@, first as int) == closing_fence(s@, pos as int),
        decreases s.len() - pos,
    {
        let end = line_end_exec(&s, pos);
        let line = slice_chars(&s, pos, end);
        if is_fence_exec(&line) {
            let yaml = slice_chars(&s, first, pos);
            let rest = slice_chars(&s, end, s.len());
            let body = trim_start_char_exec(&rest, '\n');
            proof {
                assert(rest@ =~= s@.skip(end as int));
                assert(line@ == s@.subrange(pos as int, end as int));
                assert(closing_fence(s@, pos as int) == Some((pos as int, end as int)));
            }
            return Some((string_from_chars(&yaml), string_from_chars(&body)));
        }
        pos = end;
    }
    None
}

/// The members that frontmatter entries set: each entry whose key is a
/// string starting with `padz.` sets the key without the prefix to the JSON
/// reading of its value; the other entries are left out.
pub open spec fn padz_members(s: Seq<(YamlValue, YamlValue)>) -> Seq<(Seq<char>, JsonV)>
    decreases s.len(),
{
    if s.len() == 0 {
        Seq::empty()
    } else {
        let m = padz_members(s.drop_last());
        match s.last().0 {
            YamlValue::String(k) => if starts_with(k@, "padz."@) {
                upsert(m, k@.skip(5), yaml_json(s.last().1))
            } else {
                m
            },
            _ => m,
        }
    }
}

/// The metadata and body of a Markdown document, given `yaml`, what its
/// frontmatter's YAML text (see [`md_parts`]) reads as (none when it is not
/// valid YAML): none unless the document has frontmatter whose YAML is a
/// mapping with some `padz.` key (see [`padz_members`]).
pub open spec fn md_frontmatter(raw: Seq<char>, yaml: Option<YamlValue>) -> Option<(JsonV, Seq<char>)> {
    match md_parts(raw) {
        None => None,
        Some((_, body)) => match yaml {
            Some(YamlValue::Mapping(es)) => {
                let m = padz_members(es@);
                if m.len() == 0 {
                    None
                } else {
                    Some((JsonV::Object(m), body))
                }
            },
            _ => None,
        },
    }
}

/// Reads the metadata and body of a Markdown document (see
/// [`md_frontmatter`]); `yaml` is what the YAML text that
/// [`md_frontmatter_parts`] gives reads as, none when it is not valid YAML.
pub fn parse_md_frontmatter(raw: &str, yaml: &Option<YamlValue>) -> (r: Option<(JsonValue, String)>)
    ensures
        match md_frontmatter(raw@, *yaml) {
            None => r is None,
            Some((j, b)) => r matches Some((rj, rb)) && rj@ == j && rb@ == b,
        },
{
    let body = match md_frontmatter_parts(raw) {
        None => return None,
        Some((_, b)) => b,
    };
    let entries = match yaml {
        Some(YamlValue::Mapping(es)) => es,
        _ => return None,
    };
    let mut out: Vec<(String, JsonValue)> = Vec::new();
    let mut i: usize = 0;
    proof {
        assert(entries@.take(0) =~= Seq::<(YamlValue, YamlValue)>::empty());
    }
    while i < entries.len()
        invariant
            i <= entries.len(),
            json_members_view(out@) == padz_members(entries@.take(i as int)),
        decreases entries.len() - i,
    {
        proof {
            assert(entries@.take(i + 1).drop_last() =~= entries@.take(i as int));
            assert(entries@.take(i + 1).last() == entries@[i as int]);
        }
        match &entries[i].0 {
            YamlValue::String(k) => {
                let kc = chars_of(k.as_str());
                if chars_starts_with(&kc, &lit("padz.")) {
                    proof {
                        reveal_strlit("padz.");
                    }
                    let bare = slice_chars(&kc, 5, kc.len());
                    proof {
                        assert(bare@ =~= k@.skip(5));
                    }
                    let j = yaml_to_json(&entries[i].1);
                    upsert_member(&mut out, bare, j);
                }
            },
            _ => {},
        }
        i += 1;
    }
    proof {
        assert(entries@.take(entries.len() as int) =~= entries@);
    }
    if out.len() == 0 {
        return None;
    }
    Some((JsonValue::Object(out), body))
}

/// A value of a frontmatter mapping as this library writes it.
#[derive(Debug)]
pub enum YamlField {
    Null,
    Bool(bool),
    Int(u64),
    Text(String),
    Texts(Vec<String>),
}

pub enum YamlFieldV {
    Null,
    Bool(bool),
    Int(nat),
    Text(Seq<char>),
    Texts(Seq<Seq<char>>),
}

impl View for YamlField {
    type V = YamlFieldV;

    open spec fn view(&self) -> YamlFieldV {
        match self {
            YamlField::Null => YamlFieldV::Null,
            YamlField::Bool(b) => YamlFieldV::Bool(*b),
            YamlField::Int(n) => YamlFieldV::Int(*n as nat),
            YamlField::Text(t) => YamlFieldV::Text(t@),
            YamlField::Texts(ts) => YamlFieldV::Texts(strings_view(ts@)),
        }
    }
}

pub open spec fn fields_view(s: Seq<(String, YamlField)>) -> Seq<(Seq<char>, YamlFieldV)> {
    s.map_values(|e: (String, YamlField)| (e.0@, e.1@))
}

/// The YAML document that `serde_yaml::to_string` writes for a mapping of
/// these string keys, in order, to these values; none if it fails.
pub uninterp spec fn spec_yaml_document(fields: Seq<(Seq<char>, YamlFieldV)>) -> Option<Seq<char>>;

/// Calls `serde_yaml::to_string` on the `serde_yaml::Mapping` of the keys,
/// in order, to the values, each value turned into the `serde_yaml::Value`
/// of the same shape. Claimed: the result is [`spec_yaml_document`] of the
/// fields, `None` where the call returns an error.
#[verifier::external_body]
fn yaml_document(fields: &Vec<(String, YamlField)>) -> (r: Option<String>)
    ensures
        opt_text(r) == spec_yaml_document(fields_view(fields@)),
{
    let m: serde_yaml::Mapping = fields.iter().map(|(k, v)| (serde_yaml::Value::String(k.clone()), match v {
        YamlField::Null => serde_yaml::Value::Null,
        YamlField::Bool(b) => serde_yaml::Value::Bool(*b),
        YamlField::Int(n) => serde_yaml::Value::Number((*n).into()),
        YamlField::Text(t) => serde_yaml::Value::String(t.clone()),
        YamlField::Texts(ts) => serde_yaml::Value::Sequence(ts.iter().cloned().map(serde_yaml::Value::String).collect()),
    })).collect();
    serde_yaml::to_string(&m).ok()
}

/// A time as frontmatter writes it: its RFC 3339 text at whole seconds, or
/// null when `chrono` cannot represent it.
pub open spec fn time_field(ms: i64) -> YamlFieldV {
    match spec_rfc3339_secs_text(ms) {
        Some(t) => YamlFieldV::Text(t),
        None => YamlFieldV::Null,
    }
}

/// The frontmatter mapping of a pad's metadata: the archive keys under the
/// prefix `padz.`, schema version first and bucket last.
pub open spec fn md_fields(m: MetadataV, bucket: Bucket) -> Seq<(Seq<char>, YamlFieldV)> {
    seq![
        ("padz.schema_version"@, YamlFieldV::Int(SCHEMA_VERSION as nat)),
        ("padz.id"@, YamlFieldV::Text(uuid_hyphenated(m.id))),
        ("padz.created_at"@, time_field(m.created_at)),
        ("padz.updated_at"@, time_field(m.updated_at)),
        ("padz.is_pinned"@, YamlFieldV::Bool(m.is_pinned)),
        ("padz.pinned_at"@, match m.pinned_at {
            Some(t) => time_field(t),
            None => YamlFieldV::Null,
        }),
        ("padz.delete_protected"@, YamlFieldV::Bool(m.delete_protected)),
        ("padz.parent_id"@, match m.parent_id {
            Some(p) => YamlFieldV::Text(uuid_hyphenated(p)),
            None => YamlFieldV::Null,
        }),
        ("padz.status"@, YamlFieldV::Text(status_name(m.status))),
        ("padz.tags"@, YamlFieldV::Texts(m.tags)),
        ("padz.bucket"@, YamlFieldV::Text(bucket_name(bucket))),
    ]
}

fn time_value(ms: i64) -> (r: YamlField)
    ensures
        r@ == time_field(ms),
{
    match rfc3339_secs_text(ms) {
        Some(t) => YamlField::Text(t),
        None => YamlField::Null,
    }
}

fn copy_strings(v: &Vec<String>) -> (r: Vec<String>)
    ensures
        strings_view(r@) == strings_view(v@),
{
    let mut out: Vec<String> = Vec::new();
    let mut i: usize = 0;
    while i < v.len()
        invariant
            i <= v.len(),
            out@.len() == i,
            forall|j: int| 0 <= j < i ==> #[trigger] out@[j]@ == v@[j]@,
        decreases v.len() - i,
    {
        out.push(string_from_chars(&chars_of(v[i].as_str())));
        i += 1;
    }
    proof {
        assert(strings_view(out@) =~= strings_view(v@));
    }
    out
}

/// The frontmatter mapping of a pad's metadata (see [`md_fields`]).
pub fn md_frontmatter_fields(meta: &Metadata, bucket: Bucket) -> (r: Vec<(String, YamlField)>)
    ensures
        fields_view(r@) == md_fields(meta@, bucket),
{
    let mut out: Vec<(String, YamlField)> = Vec::new();
    out.push((string_from_chars(&lit("padz.schema_version")), YamlField::Int(SCHEMA_VERSION as u64)));
    out.push((string_from_chars(&lit("padz.id")), YamlField::Text(string_from_chars(&crate::model::uuid_hyphenated_chars(meta.id)))));
    out.push((string_from_chars(&lit("padz.created_at")), time_value(meta.created_at)));
    out.push((string_from_chars(&lit("padz.updated_at")), time_value(meta.updated_at)));
    out.push((string_from_chars(&lit("padz.is_pinned")), YamlField::Bool(meta.is_pinned)));
    let pinned = match meta.pinned_at {
        Some(t) => time_value(t),
        None => YamlField::Null,
    };
    out.push((string_from_chars(&lit("padz.pinned_at")), pinned));
    out.push((string_from_chars(&lit("padz.delete_protected")), YamlField::Bool(meta.delete_protected)));
    let parent = match meta.parent_id {
        Some(p) => YamlField::Text(string_from_chars(&crate::model::uuid_hyphenated_chars(p))),
        None => YamlField::Null,
    };
    out.push((string_from_chars(&lit("padz.parent_id")), parent));
    out.push((string_from_chars(&lit("padz.status")), YamlField::Text(string_from_chars(&status_chars(meta.status)))));
    out.push((string_from_chars(&lit("padz.tags")), YamlField::Texts(copy_strings(&meta.tags))));
    out.push((string_from_chars(&lit("padz.bucket")), YamlField::Text(string_from_chars(&bucket_chars(bucket)))));
    proof {
        assert(fields_view(out@) =~= md_fields(meta@, bucket));
    }
    out
}

/// The frontmatter block of a pad's metadata: the YAML document of its
/// mapping (see [`md_fields`]) between `---` fences, then a blank line.
pub open spec fn md_frontmatter_block(m: MetadataV, bucket: Bucket) -> Option<Seq<char>> {
    match spec_yaml_document(md_fields(m, bucket)) {
        Some(y) => Some("---\n"@ + y + "---\n\n"@),
        None => None,
    }
}

/// Writes a pad's metadata as YAML frontmatter (see [`md_frontmatter_block`]), to be
/// put before its content; none when the YAML writer fails.
pub fn serialize_md_frontmatter(meta: &Metadata, bucket: Bucket) -> (r: Option<String>)
    ensures
        opt_text(r) == md_frontmatter_block(meta@, bucket),
{
    let fields = md_frontmatter_fields(meta, bucket);
    match yaml_document(&fields) {
        None => None,
        Some(y) => {
            let mut out = lit("---\n");
            append_chars(&mut out, &chars_of(y.as_str()));
            append_chars(&mut out, &lit("---\n\n"));
            Some(string_from_chars(&out))
        },
    }
}

} // verus!
