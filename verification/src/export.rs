//! Exporting pads: file names, single-file merges and tar.gz archives.
pub mod json_archive;
use vstd::prelude::*;
use crate::commands::NestingMode;
use crate::error::PadzError;
use crate::helpers::{
    all_nested, collect_nested_pads, flat_pads_view, nested_view, pads_by_selectors, NestedPad,
};
use crate::index::{DisplayIndex, PadSelector};
use crate::model::{Bucket, Scope};
use crate::commands::inline_metadata::{lex_block, md_frontmatter_block};
use crate::resolve::{scope_lin, selectors_view, TitleBucket};
use crate::store::{indexed_pads, spec_indexed, stored_ext, stored_in, Store, StoredV};
use crate::text::{
    append_chars, chars_of, ends_with, find_from, first_occurrence, is_alphanumeric, lit, occurs_at, slice_chars,
    spec_is_alphanumeric, spec_lowercase, string_from_chars, to_lowercase, trim, trim_chars, chars_ends_with, chars_eq,
};
use crate::tree::{dp_clone, dp_view, dps_view, lemma_dps_view_index, DisplayPad, DisplayPadV};
use crate::commands::get::search::{lines_of, text_lines};
use crate::index::chars_views;
use pulldown_cmark::{Event, HeadingLevel, Options, Parser, Tag, TagEnd};
use pulldown_cmark_to_cmark::cmark;

verus! {

// ---------------------------------------------------------------------------
// Formats and file names
// ---------------------------------------------------------------------------

/// The format of a single-file export.
#[derive(Clone, Copy, Debug, PartialEq, Eq, Structural)]
pub enum SingleFileFormat {
    Text,
    Markdown,
}

/// Markdown when the lowered name ends in `.md` or `.markdown`, else text.
pub open spec fn spec_format_of(name: Seq<char>) -> SingleFileFormat {
    let lower = spec_lowercase(name);
    if ends_with(lower, ".md"@) || ends_with(lower, ".markdown"@) {
        SingleFileFormat::Markdown
    } else {
        SingleFileFormat::Text
    }
}

impl SingleFileFormat {
    /// The format a file name asks for (see [`spec_format_of`]).
    pub fn from_filename(filename: &str) -> (r: SingleFileFormat)
        ensures
            r == spec_format_of(filename@),
    {
        let lower = chars_of(to_lowercase(filename).as_str());
        if chars_ends_with(&lower, &lit(".md")) || chars_ends_with(&lower, &lit(".markdown")) {
            SingleFileFormat::Markdown
        } else {
            SingleFileFormat::Text
        }
    }
}

/// A character kept in file names: letters, digits, space, `-` and `_`.
pub open spec fn name_char(c: char) -> bool {
    spec_is_alphanumeric(c) || c == ' ' || c == '-' || c == '_'
}

/// A name made safe for a file: other characters become `_`, then the
/// result is trimmed.
pub open spec fn spec_sanitize(name: Seq<char>) -> Seq<char> {
    trim(name.map_values(|c: char| if name_char(c) { c } else { '_' }))
}

/// Makes a name safe for a file (see [`spec_sanitize`]).
pub fn sanitize_filename(name: &str) -> (r: String)
    ensures
        r@ == spec_sanitize(name@),
{
    let s = chars_of(name);
    let mut out: Vec<char> = Vec::new();
    let mut i: usize = 0;
    while i < s.len()
        invariant
            i <= s.len(),
            out@ == s@.take(i as int).map_values(|c: char| if name_char(c) { c } else { '_' }),
        decreases s.len() - i,
    {
        let c = s[i];
        let keep = is_alphanumeric(c) || c == ' ' || c == '-' || c == '_';
        out.push(if keep { c } else { '_' });
        proof {
            assert(s@.take(i + 1).map_values(|c: char| if name_char(c) { c } else { '_' }) =~= s@.take(
                i as int,
            ).map_values(|c: char| if name_char(c) { c } else { '_' }).push(if keep { c } else { '_' }));
        }
        i += 1;
    }
    proof {
        assert(s@.take(s.len() as int) =~= s@);
    }
    string_from_chars(&trim_chars(&out))
}

/// Sanitizing keeps only name characters, never lengthens a name, and
/// changes nothing the second time.
pub proof fn lemma_sanitize_laws(name: Seq<char>)
    ensures
        forall|i: int| 0 <= i < spec_sanitize(name).len() ==> name_char(#[trigger] spec_sanitize(name)[i]),
        spec_sanitize(name).len() <= name.len(),
        spec_sanitize(spec_sanitize(name)) == spec_sanitize(name),
{
    let m = name.map_values(|c: char| if name_char(c) { c } else { '_' });
    assert(forall|i: int| 0 <= i < m.len() ==> name_char(#[trigger] m[i]));
    crate::text::lemma_trim_props(m);
    let t = trim(m);
    let (a, b) = choose|a: int, b: int| 0 <= a <= b <= m.len() && #[trigger] m.subrange(a, b) == t;
    assert forall|i: int| 0 <= i < t.len() implies name_char(#[trigger] t[i]) by {
        assert(t[i] == m[a + i]);
    }
    assert(t.map_values(|c: char| if name_char(c) { c } else { '_' }) =~= t);
}

/// `title` without the suffix (of `n` characters) when its lowered form ends
/// with `suffix`.
pub open spec fn without_suffix(title: Seq<char>, suffix: Seq<char>) -> Option<Seq<char>> {
    if ends_with(spec_lowercase(title), suffix) && title.len() >= suffix.len() {
        Some(title.subrange(0, title.len() - suffix.len()))
    } else {
        None
    }
}

/// The file name of a single-file export: the title without its own
/// extension, made safe, with the extension of the format.
pub open spec fn spec_output_filename(title: Seq<char>, format: SingleFileFormat) -> Seq<char> {
    let base = match format {
        SingleFileFormat::Markdown => match without_suffix(title, ".md"@) {
            Some(b) => b,
            None => match without_suffix(title, ".markdown"@) {
                Some(b) => b,
                None => title,
            },
        },
        SingleFileFormat::Text => match without_suffix(title, ".txt"@) {
            Some(b) => b,
            None => title,
        },
    };
    spec_sanitize(base) + match format {
        SingleFileFormat::Markdown => ".md"@,
        SingleFileFormat::Text => ".txt"@,
    }
}

/// The extension a single-file export is written with.
pub open spec fn format_suffix(format: SingleFileFormat) -> Seq<char> {
    match format {
        SingleFileFormat::Markdown => ".md"@,
        SingleFileFormat::Text => ".txt"@,
    }
}

/// An output file name ends with its format's extension, and naming it
/// again gives it back whenever its lowered form keeps that extension (the
/// lowering is std's `to_lowercase`, trusted here with no facts stated).
pub proof fn lemma_output_filename_stable(title: Seq<char>, format: SingleFileFormat)
    ensures
        ends_with(spec_output_filename(title, format), format_suffix(format)),
        ends_with(spec_lowercase(spec_output_filename(title, format)), format_suffix(format)) ==> spec_output_filename(
            spec_output_filename(title, format),
            format,
        ) == spec_output_filename(title, format),
{
    reveal_strlit(".md");
    reveal_strlit(".txt");
    let f = spec_output_filename(title, format);
    let base = match format {
        SingleFileFormat::Markdown => match without_suffix(title, ".md"@) {
            Some(b) => b,
            None => match without_suffix(title, ".markdown"@) {
                Some(b) => b,
                None => title,
            },
        },
        SingleFileFormat::Text => match without_suffix(title, ".txt"@) {
            Some(b) => b,
            None => title,
        },
    };
    let x = format_suffix(format);
    assert(f == spec_sanitize(base) + x);
    assert(f.subrange(f.len() - x.len(), f.len() as int) =~= x);
    if ends_with(spec_lowercase(f), x) {
        lemma_sanitize_laws(base);
        assert(f.subrange(0, f.len() - x.len()) =~= spec_sanitize(base));
        assert(without_suffix(f, x) == Some(spec_sanitize(base)));
    }
}

fn strip_suffix_if(t: &Vec<char>, lower: &Vec<char>, suffix: &str) -> (r: Option<Vec<char>>)
    requires
        lower@ == spec_lowercase(t@),
    ensures
        match without_suffix(t@, suffix@) {
            Some(b) => r matches Some(x) && x@ == b,
            None => r is None,
        },
{
    let s = lit(suffix);
    if chars_ends_with(lower, &s) && t.len() >= s.len() {
        Some(slice_chars(t, 0, t.len() - s.len()))
    } else {
        None
    }
}

/// The file name of a single-file export (see [`spec_output_filename`]).
pub fn sanitize_output_filename(title: &str, format: SingleFileFormat) -> (r: String)
    ensures
        r@ == spec_output_filename(title@, format),
{
    let t = chars_of(title);
    let lower = chars_of(to_lowercase(title).as_str());
    let base = match format {
        SingleFileFormat::Markdown => match strip_suffix_if(&t, &lower, ".md") {
            Some(b) => b,
            None => match strip_suffix_if(&t, &lower, ".markdown") {
                Some(b) => b,
                None => slice_chars(&t, 0, t.len()),
            },
        },
        SingleFileFormat::Text => match strip_suffix_if(&t, &lower, ".txt") {
            Some(b) => b,
            None => slice_chars(&t, 0, t.len()),
        },
    };
    proof {
        assert(t@.subrange(0, t@.len() as int) =~= t@);
    }
    let safe = sanitize_filename(string_from_chars(&base).as_str());
    let mut out = chars_of(safe.as_str());
    match format {
        SingleFileFormat::Markdown => append_chars(&mut out, &lit(".md")),
        SingleFileFormat::Text => append_chars(&mut out, &lit(".txt")),
    }
    string_from_chars(&out)
}

// ---------------------------------------------------------------------------
// Single-file merges
// ---------------------------------------------------------------------------

/// The body of a pad's text: everything after the first blank line,
/// trimmed; none when there is no blank line.
pub open spec fn body_of(content: Seq<char>) -> Option<Seq<char>> {
    match first_occurrence(content, "\n\n"@, 0) {
        Some(i) => Some(trim(content.subrange(i + 2, content.len() as int))),
        None => None,
    }
}

fn body_exec(content: &str) -> (r: Option<Vec<char>>)
    ensures
        match body_of(content@) {
            Some(b) => r matches Some(x) && x@ == b,
            None => r is None,
        },
{
    let c = chars_of(content);
    match find_from(&c, &lit("\n\n"), 0) {
        Some(i) => {
            proof {
                reveal_strlit("\n\n");
                assert(i + 2 <= c.len());
            }
            Some(trim_chars(&slice_chars(&c, i + 2, c.len())))
        },
        None => None,
    }
}

/// `n` spaces.
pub open spec fn spaces(n: nat) -> Seq<char> {
    Seq::new(n, |i: int| ' ')
}

/// `n` copies of `c`.
pub open spec fn repeated(c: char, n: nat) -> Seq<char> {
    Seq::new(n, |i: int| c)
}

/// The length of a title in UTF-8 bytes.
pub open spec fn byte_len(s: Seq<char>) -> usize {
    vstd::utf8::encode_utf8(s).len() as usize
}

/// The lines of a body, each indented unless empty, each ended by a newline.
pub open spec fn indented_lines(lines: Seq<Seq<char>>, indent: Seq<char>) -> Seq<char>
    decreases lines.len(),
{
    if lines.len() == 0 {
        Seq::empty()
    } else {
        indented_lines(lines.drop_last(), indent) + if lines.last().len() == 0 {
            seq!['\n']
        } else {
            indent + lines.last() + seq!['\n']
        }
    }
}

/// One pad in a text export: its title between two rules of `=` (as long as
/// the title in bytes, at least 40), then its body, indented four spaces per
/// level of depth.
pub open spec fn text_block(title: Seq<char>, content: Seq<char>, depth: usize) -> Seq<char> {
    let ind = spaces(4 * depth as nat);
    let rule = repeated('=', if byte_len(title) >= 40 { byte_len(title) as nat } else { 40 });
    ind + rule + seq!['\n'] + ind + title + seq!['\n'] + ind + rule + seq!['\n', '\n'] + match body_of(content) {
        None => Seq::empty(),
        Some(body) => if depth == 0 {
            body
        } else {
            let lines = indented_lines(text_lines(body), ind);
            if body.len() > 0 {
                lines.drop_last()
            } else {
                lines
            }
        },
    }
}

/// Pads merged as plain text, blocks separated by a blank line.
pub open spec fn spec_merge_text(pads: Seq<(DisplayPadV, usize)>) -> Seq<char>
    decreases pads.len(),
{
    if pads.len() == 0 {
        Seq::empty()
    } else {
        let r = spec_merge_text(pads.drop_last());
        let p = pads.last();
        (if pads.len() > 1 {
            r + seq!['\n', '\n']
        } else {
            r
        }) + text_block(p.0.pad.metadata.title, p.0.pad.content, p.1)
    }
}

fn push_spaces(out: &mut Vec<char>, depth: usize)
    ensures
        final(out)@ == old(out)@ + spaces(4 * depth as nat),
{
    let ghost o = out@;
    let mut k: usize = 0;
    while k < depth
        invariant
            k <= depth,
            out@ == o + spaces(4 * k as nat),
        decreases depth - k,
    {
        out.push(' ');
        out.push(' ');
        out.push(' ');
        out.push(' ');
        proof {
            assert(out@ =~= o + spaces(4 * (k + 1) as nat));
        }
        k += 1;
    }
}

fn push_repeated(out: &mut Vec<char>, c: char, n: usize)
    ensures
        final(out)@ == old(out)@ + repeated(c, n as nat),
{
    let ghost o = out@;
    let mut k: usize = 0;
    while k < n
        invariant
            k <= n,
            out@ == o + repeated(c, k as nat),
        decreases n - k,
    {
        out.push(c);
        proof {
            assert(out@ =~= o + repeated(c, (k + 1) as nat));
        }
        k += 1;
    }
}

fn text_block_exec(out: &mut Vec<char>, title: &str, content: &str, depth: usize)
    ensures
        final(out)@ == old(out)@ + text_block(title@, content@, depth),
{
    let ghost o = out@;
    let tlen = title.len();
    let width = if tlen >= 40 { tlen } else { 40 };
    let t = chars_of(title);
    push_spaces(out, depth);
    push_repeated(out, '=', width);
    out.push('\n');
    push_spaces(out, depth);
    append_chars(out, &t);
    out.push('\n');
    push_spaces(out, depth);
    push_repeated(out, '=', width);
    out.push('\n');
    out.push('\n');
    let ghost head = out@;
    match body_exec(content) {
        Some(body) => {
            if depth == 0 {
                append_chars(out, &body);
            } else {
                let lines = lines_of(&body);
                let ghost lv = chars_views(lines@);
                let ghost start = out@;
                let mut k: usize = 0;
                while k < lines.len()
                    invariant
                        lv == chars_views(lines@),
                        k <= lines.len(),
                        out@ == start + indented_lines(lv.take(k as int), spaces(4 * depth as nat)),
                    decreases lines.len() - k,
                {
                    proof {
                        assert(lv.take(k + 1).drop_last() =~= lv.take(k as int));
                        assert(lv[k as int] == lines@[k as int]@);
                    }
                    if lines[k].len() == 0 {
                        out.push('\n');
                    } else {
                        push_spaces(out, depth);
                        append_chars(out, &lines[k]);
                        out.push('\n');
                    }
                    proof {
                        assert(out@ =~= start + indented_lines(lv.take(k + 1), spaces(4 * depth as nat)));
                    }
                    k += 1;
                }
                proof {
                    assert(lv.take(lines.len() as int) =~= lv);
                }
                if body.len() > 0 && out.len() > 0 {
                    let ghost before = out@;
                    out.pop();
                    proof {
                        assert(indented_lines(lv, spaces(4 * depth as nat)).len() > 0) by {
                            lemma_lines_nonempty(body@);
                            lemma_indented_nonempty(lv, spaces(4 * depth as nat));
                        }
                        assert(out@ =~= start + indented_lines(lv, spaces(4 * depth as nat)).drop_last());
                    }
                }
            }
        },
        None => {},
    }
    proof {
        assert(out@ =~= o + text_block(title@, content@, depth));
    }
}

proof fn lemma_lines_nonempty(s: Seq<char>)
    requires
        s.len() > 0,
    ensures
        text_lines(s).len() > 0,
{
    let parts = crate::index::split_char(s, '\n');
    lemma_split_len(s, '\n', 0, Seq::empty());
    if parts.len() == 1 {
        lemma_split_single(s, '\n', 0, Seq::empty());
    }
}

proof fn lemma_split_len(s: Seq<char>, c: char, i: int, cur: Seq<char>)
    ensures
        crate::index::split_acc(s, c, i, cur).len() >= 1,
    decreases s.len() - i,
{
    if i < s.len() {
        if s[i] == c {
            lemma_split_len(s, c, i + 1, Seq::empty());
        } else {
            lemma_split_len(s, c, i + 1, cur.push(s[i]));
        }
    }
}

/// A split with a single piece holds every character from `i` on.
proof fn lemma_split_single(s: Seq<char>, c: char, i: int, cur: Seq<char>)
    requires
        0 <= i <= s.len(),
        crate::index::split_acc(s, c, i, cur).len() == 1,
    ensures
        crate::index::split_acc(s, c, i, cur)[0].len() == cur.len() + s.len() - i,
    decreases s.len() - i,
{
    if i < s.len() {
        if s[i] == c {
            lemma_split_len(s, c, i + 1, Seq::empty());
        } else {
            lemma_split_single(s, c, i + 1, cur.push(s[i]));
        }
    }
}

proof fn lemma_indented_nonempty(lines: Seq<Seq<char>>, ind: Seq<char>)
    requires
        lines.len() > 0,
    ensures
        indented_lines(lines, ind).len() > 0,
{
}

/// Merges pads as plain text (see [`spec_merge_text`]).
pub fn merge_as_text(pads: &Vec<NestedPad>) -> (r: String)
    ensures
        r@ == spec_merge_text(nested_view(pads@)),
{
    let ghost pv = nested_view(pads@);
    let mut out: Vec<char> = Vec::new();
    let mut i: usize = 0;
    proof {
        assert(pv.take(0) =~= Seq::<(DisplayPadV, usize)>::empty());
    }
    while i < pads.len()
        invariant
            pv == nested_view(pads@),
            i <= pads.len(),
            out@ == spec_merge_text(pv.take(i as int)),
        decreases pads.len() - i,
    {
        proof {
            assert(pv.take(i + 1).drop_last() =~= pv.take(i as int));
            assert(pv.take(i + 1).last() == pv[i as int]);
            assert(pv[i as int] == (dp_view(pads@[i as int].pad), pads@[i as int].depth));
        }
        if i > 0 {
            out.push('\n');
            out.push('\n');
        }
        let np = &pads[i];
        text_block_exec(&mut out, np.pad.pad.metadata.title.as_str(), np.pad.pad.content.as_str(), np.depth);
        i += 1;
    }
    proof {
        assert(pv.take(pads.len() as int) =~= pv);
    }
    string_from_chars(&out)
}

// ---------------------------------------------------------------------------
// Markdown
// ---------------------------------------------------------------------------

#[verifier::external_type_specification]
#[verifier::external_body]
pub struct ExHeadingLevel(pulldown_cmark::HeadingLevel);

/// A heading level raised by `amount`, at most 6.
pub open spec fn raised_level(level: usize, amount: usize) -> usize {
    if level + amount <= 6 {
        (level + amount) as usize
    } else {
        6
    }
}

/// A heading level raised by `amount`, at most 6.
pub fn bump_level(level: usize, amount: usize) -> (r: usize)
    ensures
        r == raised_level(level, amount),
{
    if level <= 6 && amount <= 6 - level {
        level + amount
    } else {
        6
    }
}

/// For each event `pulldown_cmark::Parser::new_ext` (all options) reads from
/// a Markdown text, in order: the level of a heading's start or end event,
/// or none for any other event.
pub uninterp spec fn spec_markdown_headings(content: Seq<char>) -> Seq<Option<u8>>;

/// The Markdown that `pulldown_cmark_to_cmark::cmark` renders from the
/// events of a text, each heading event given the level listed for it at
/// its position; none when `cmark` refuses the events.
pub uninterp spec fn spec_markdown_rendered(content: Seq<char>, levels: Seq<Option<u8>>) -> Option<Seq<char>>;

/// Calls `pulldown_cmark::Parser::new_ext` with all options and gives, event
/// by event, the level of each heading event (see [`spec_markdown_headings`]).
#[verifier::external_body]
fn markdown_headings(content: &str) -> (r: Vec<Option<u8>>)
    ensures
        r@ == spec_markdown_headings(content@),
        forall|i: int| 0 <= i < r@.len() ==> (#[trigger] r@[i] matches Some(n) ==> 1 <= n <= 6),
{
    Parser::new_ext(content, Options::all()).map(|e| match e {
        Event::Start(Tag::Heading { level, .. }) => Some(level as u8),
        Event::End(TagEnd::Heading(level)) => Some(level as u8),
        _ => None,
    }).collect()
}

/// Calls `pulldown_cmark::HeadingLevel::try_from` on a level from 1 to 6.
#[verifier::external_body]
fn heading_level(n: u8) -> HeadingLevel
    requires
        1 <= n <= 6,
{
    HeadingLevel::try_from(n as usize).unwrap_or(HeadingLevel::H6)
}

/// Parses with `pulldown_cmark::Parser::new_ext` (all options), gives each
/// heading event the level listed at its position, and renders the events
/// with `pulldown_cmark_to_cmark::cmark`; none when `cmark` refuses them
/// (see [`spec_markdown_rendered`]).
#[verifier::external_body]
fn render_markdown_with_levels(content: &str, levels: &Vec<Option<u8>>) -> (r: Option<String>)
    requires
        forall|i: int| 0 <= i < levels@.len() ==> (#[trigger] levels@[i] matches Some(n) ==> 1 <= n <= 6),
    ensures
        crate::commands::metadata_apply::opt_text(r) == spec_markdown_rendered(content@, levels@),
{
    let events: Vec<Event> = Parser::new_ext(content, Options::all()).zip(levels.iter()).map(|(e, l)| match (e, l) {
        (Event::Start(Tag::Heading { id, classes, attrs, .. }), Some(n)) =>
            Event::Start(Tag::Heading { level: heading_level(*n), id, classes, attrs }),
        (Event::End(TagEnd::Heading(_)), Some(n)) => Event::End(TagEnd::Heading(heading_level(*n))),
        (other, _) => other,
    }).collect();
    let mut out = String::new();
    cmark(events.iter(), &mut out, Options::all()).ok().map(|_| out)
}

/// Heading levels raised by `amount`, at most to 6; other events stay.
pub open spec fn raised_levels(hs: Seq<Option<u8>>, amount: usize) -> Seq<Option<u8>> {
    hs.map_values(
        |h: Option<u8>|
            match h {
                Some(l) => Some(raised_level(l as usize, amount) as u8),
                None => None,
            },
    )
}

/// The Markdown with every heading raised by `amount` levels (at most to
/// level 6), rendered again; none when the renderer refuses the result.
pub open spec fn spec_bumped_markdown(content: Seq<char>, amount: usize) -> Option<Seq<char>> {
    spec_markdown_rendered(content, raised_levels(spec_markdown_headings(content), amount))
}

/// Raises every Markdown heading by `amount` levels, at most to level 6
/// (see [`spec_bumped_markdown`]): the headings are read with
/// `pulldown_cmark`, raised here, and rendered with
/// `pulldown_cmark_to_cmark`; none when the renderer refuses the events.
pub fn bump_markdown_headers_by(content: &str, amount: usize) -> (r: Option<String>)
    ensures
        crate::commands::metadata_apply::opt_text(r) == spec_bumped_markdown(content@, amount),
{
    let hs = markdown_headings(content);
    let mut raised: Vec<Option<u8>> = Vec::new();
    let mut i: usize = 0;
    while i < hs.len()
        invariant
            i <= hs.len(),
            raised@ == raised_levels(hs@, amount).take(i as int),
            forall|k: int| 0 <= k < hs@.len() ==> (#[trigger] hs@[k] matches Some(n) ==> 1 <= n <= 6),
            forall|k: int| 0 <= k < raised@.len() ==> (#[trigger] raised@[k] matches Some(n) ==> 1 <= n <= 6),
        decreases hs.len() - i,
    {
        let next = match hs[i] {
            Some(l) => Some(bump_level(l as usize, amount) as u8),
            None => None,
        };
        proof {
            assert(raised_levels(hs@, amount).take(i + 1) =~= raised_levels(hs@, amount).take(i as int).push(next));
        }
        raised.push(next);
        i += 1;
    }
    proof {
        assert(raised_levels(hs@, amount).take(hs.len() as int) =~= raised_levels(hs@, amount));
    }
    render_markdown_with_levels(content, &raised)
}

/// Raises every Markdown heading by two levels.
pub fn bump_markdown_headers(content: &str) -> (r: Option<String>)
    ensures
        crate::commands::metadata_apply::opt_text(r) == spec_bumped_markdown(content@, 2),
{
    bump_markdown_headers_by(content, 2)
}

/// `depth + 2`, saturating.
pub open spec fn plus_two(depth: usize) -> usize {
    if depth <= usize::MAX - 2 {
        (depth + 2) as usize
    } else {
        usize::MAX
    }
}

/// One pad in a Markdown export: a heading for its title (level 2 at the
/// top, one deeper per level, at most 6), then its body with headings raised
/// to nest under it.
pub open spec fn md_block(title: Seq<char>, content: Seq<char>, depth: usize) -> Seq<char> {
    let level = if plus_two(depth) <= 6 { plus_two(depth) as nat } else { 6 };
    repeated('#', level) + seq![' '] + title + seq!['\n', '\n'] + match body_of(content) {
        Some(b) => if b.len() > 0 {
            match spec_bumped_markdown(b, plus_two(depth)) {
                Some(t) => t,
                None => b,
            }
        } else {
            Seq::empty()
        },
        None => Seq::empty(),
    }
}

pub open spec fn md_blocks(pads: Seq<(DisplayPadV, usize)>) -> Seq<char>
    decreases pads.len(),
{
    if pads.len() == 0 {
        Seq::empty()
    } else {
        let r = md_blocks(pads.drop_last());
        let p = pads.last();
        (if pads.len() > 1 {
            r + "\n\n---\n\n"@
        } else {
            r
        }) + md_block(p.0.pad.metadata.title, p.0.pad.content, p.1)
    }
}

/// Pads merged as Markdown under the export title as the top heading,
/// separated by rules.
pub open spec fn spec_merge_markdown(pads: Seq<(DisplayPadV, usize)>, export_title: Seq<char>) -> Seq<char> {
    "# "@ + export_title + "\n\n"@ + md_blocks(pads)
}

/// Merges pads as Markdown (see [`spec_merge_markdown`]).
pub fn merge_as_markdown(pads: &Vec<NestedPad>, export_title: &str) -> (r: String)
    ensures
        r@ == spec_merge_markdown(nested_view(pads@), export_title@),
{
    let ghost pv = nested_view(pads@);
    let mut out = lit("# ");
    append_chars(&mut out, &chars_of(export_title));
    append_chars(&mut out, &lit("\n\n"));
    let ghost head = out@;
    let mut i: usize = 0;
    proof {
        assert(pv.take(0) =~= Seq::<(DisplayPadV, usize)>::empty());
        assert(out@ =~= head + md_blocks(pv.take(0)));
    }
    while i < pads.len()
        invariant
            pv == nested_view(pads@),
            i <= pads.len(),
            out@ == head + md_blocks(pv.take(i as int)),
        decreases pads.len() - i,
    {
        proof {
            assert(pv.take(i + 1).drop_last() =~= pv.take(i as int));
            assert(pv.take(i + 1).last() == pv[i as int]);
            assert(pv[i as int] == (dp_view(pads@[i as int].pad), pads@[i as int].depth));
        }
        if i > 0 {
            append_chars(&mut out, &lit("\n\n---\n\n"));
        }
        let np = &pads[i];
        let bump = if np.depth <= usize::MAX - 2 {
            np.depth + 2
        } else {
            usize::MAX
        };
        let level = if bump <= 6 {
            bump
        } else {
            6
        };
        push_repeated(&mut out, '#', level);
        out.push(' ');
        append_chars(&mut out, &chars_of(np.pad.pad.metadata.title.as_str()));
        out.push('\n');
        out.push('\n');
        match body_exec(np.pad.pad.content.as_str()) {
            Some(b) => {
                if b.len() > 0 {
                    match bump_markdown_headers_by(string_from_chars(&b).as_str(), bump) {
                        Some(bumped) => append_chars(&mut out, &chars_of(bumped.as_str())),
                        None => append_chars(&mut out, &b),
                    }
                }
            },
            None => {},
        }
        proof {
            assert(out@ =~= head + md_blocks(pv.take(i + 1)));
        }
        i += 1;
    }
    proof {
        assert(pv.take(pads.len() as int) =~= pv);
        assert(out@ =~= spec_merge_markdown(pv, export_title@));
    }
    string_from_chars(&out)
}

/// The text of a single-file export.
#[derive(Debug)]
pub struct SingleFileExportResult {
    pub content: String,
    pub format: SingleFileFormat,
}

/// The merged text in the given format.
pub open spec fn spec_single_file(pads: Seq<(DisplayPadV, usize)>, title: Seq<char>, format: SingleFileFormat) -> Seq<
    char,
> {
    match format {
        SingleFileFormat::Text => spec_merge_text(pads),
        SingleFileFormat::Markdown => spec_merge_markdown(pads, title),
    }
}

/// Merges pads into one text in the given format.
pub fn merge_pads_to_single_file(pads: &Vec<NestedPad>, title: &str, format: SingleFileFormat) -> (r:
    SingleFileExportResult)
    ensures
        r.content@ == spec_single_file(nested_view(pads@), title@, format),
        r.format == format,
{
    let content = match format {
        SingleFileFormat::Text => merge_as_text(pads),
        SingleFileFormat::Markdown => merge_as_markdown(pads, title),
    };
    SingleFileExportResult { content, format }
}

// ---------------------------------------------------------------------------
// Exports
// ---------------------------------------------------------------------------

/// The kind of artifact an export produces.
#[derive(Clone, Copy, Debug, PartialEq, Eq, Structural)]
pub enum ExportFormat {
    Archive,
    MetadataArchive,
    JsonArchive,
    SingleFile,
}

/// A fact noticed while exporting.
#[derive(Debug, PartialEq, Eq)]
pub enum ExportWarning {
    /// These pads have a format without inline metadata.
    MetadataUnavailable { titles: Vec<String> },
}

/// What an export produced.
#[derive(Debug, PartialEq, Eq)]
pub struct ExportReport {
    pub format: ExportFormat,
    pub exported: usize,
    pub warnings: Vec<ExportWarning>,
}

/// The bytes of an export with the file name suggested for them.
#[derive(Debug)]
pub struct ExportArtifact {
    pub bytes: Vec<u8>,
    pub suggested_filename: String,
    pub report: ExportReport,
}

/// An export had nothing to export, or produced an artifact.
#[derive(Debug)]
pub enum ExportOutcome {
    Empty { format: ExportFormat },
    Artifact(ExportArtifact),
}

/// The top-level pads that are not deleted, in order.
pub open spec fn live_roots(roots: Seq<DisplayPadV>) -> Seq<DisplayPadV>
    decreases roots.len(),
{
    if roots.len() == 0 {
        Seq::empty()
    } else {
        let r = live_roots(roots.drop_last());
        if roots.last().index is Deleted {
            r
        } else {
            r.push(roots.last())
        }
    }
}

/// The pads an export takes: without selectors, the top-level pads that are
/// not deleted (with their children); otherwise the pads the selectors
/// designate, each on its own.
pub open spec fn export_selection(s: Seq<StoredV>, scope: Scope, sels: Seq<crate::index::SelectorV>) -> Result<
    Seq<DisplayPadV>,
    crate::error::ErrorKind,
> {
    if sels.len() == 0 {
        Ok(live_roots(spec_indexed(s, scope)))
    } else {
        match crate::resolve::resolve_all(scope_lin(s, scope), sels, false, TitleBucket::Any) {
            Ok(x) => if crate::helpers::all_fetchable(s, scope, x) {
                Ok(Seq::new(x.len(), |k: int| crate::helpers::fetched(s, scope, x[k].0, x[k].1)))
            } else {
                Err(crate::error::ErrorKind::Store)
            },
            Err(_) => Err(crate::error::ErrorKind::Api),
        }
    }
}

/// The pads an export takes (see [`export_selection`]).
pub fn resolve_pads(store: &Store, scope: Scope, selectors: &Vec<PadSelector>) -> (r: Result<Vec<DisplayPad>, PadzError>)
    ensures
        match export_selection(store@, scope, selectors_view(selectors@)) {
            Ok(p) => r matches Ok(v) && flat_pads_view(v@) == p,
            Err(k) => r matches Err(e) && e.kind() == k,
        },
{
    if selectors.len() == 0 {
        let roots = match indexed_pads(store, scope) {
            Ok(v) => v,
            Err(e) => return Err(e),
        };
        let ghost rv = dps_view(roots@);
        proof {
            lemma_dps_view_index(roots@);
        }
        let mut out: Vec<DisplayPad> = Vec::new();
        let mut i: usize = 0;
        proof {
            assert(rv.take(0) =~= Seq::<DisplayPadV>::empty());
            assert(flat_pads_view(out@) =~= Seq::<DisplayPadV>::empty());
        }
        while i < roots.len()
            invariant
                rv == dps_view(roots@),
                rv == spec_indexed(store@, scope),
                rv.len() == roots@.len(),
                forall|k: int| 0 <= k < roots@.len() ==> #[trigger] rv[k] == dp_view(roots@[k]),
                i <= roots.len(),
                flat_pads_view(out@) == live_roots(rv.take(i as int)),
            decreases roots.len() - i,
        {
            proof {
                assert(rv.take(i + 1).drop_last() =~= rv.take(i as int));
                assert(rv.take(i + 1).last() == rv[i as int]);
                assert(rv[i as int] == dp_view(roots@[i as int]));
            }
            if !matches!(roots[i].index, DisplayIndex::Deleted(_)) {
                let c = dp_clone(&roots[i]);
                let ghost before = out@;
                out.push(c);
                proof {
                    assert(flat_pads_view(out@) =~= flat_pads_view(before).push(dp_view(c)));
                }
            }
            i += 1;
        }
        proof {
            assert(rv.take(roots.len() as int) =~= rv);
        }
        Ok(out)
    } else {
        let r = pads_by_selectors(store, scope, selectors, false, TitleBucket::Any);
        proof {
            if r is Ok {
                let x = crate::resolve::resolve_all(
                    scope_lin(store@, scope),
                    selectors_view(selectors@),
                    false,
                    TitleBucket::Any,
                )->Ok_0;
                assert(flat_pads_view(r->Ok_0@) =~= Seq::new(
                    x.len(),
                    |k: int| crate::helpers::fetched(store@, scope, x[k].0, x[k].1),
                ));
            }
        }
        r
    }
}

/// The pads of an export with their depths: flat, each at depth 0; or each
/// followed by its live descendants.
pub open spec fn nesting_of(s: Seq<StoredV>, scope: Scope, p: Seq<DisplayPadV>, nesting: NestingMode) -> Seq<
    (DisplayPadV, usize),
> {
    match nesting {
        NestingMode::Flat => p.map_values(|d: DisplayPadV| (d, 0usize)),
        _ => all_nested(scope_lin(s, scope), p),
    }
}

/// The pads of an export with their depths (see [`nesting_of`]).
pub fn resolve_nested(store: &Store, scope: Scope, pads: &Vec<DisplayPad>, nesting: NestingMode) -> (r: Result<
    Vec<NestedPad>,
    PadzError,
>)
    ensures
        r matches Ok(v) && nested_view(v@) == nesting_of(store@, scope, flat_pads_view(pads@), nesting),
{
    match nesting {
        NestingMode::Flat => {
            let mut out: Vec<NestedPad> = Vec::new();
            let mut i: usize = 0;
            while i < pads.len()
                invariant
                    i <= pads.len(),
                    nested_view(out@) == flat_pads_view(pads@.take(i as int)).map_values(
                        |d: DisplayPadV| (d, 0usize),
                    ),
                decreases pads.len() - i,
            {
                let np = NestedPad { pad: dp_clone(&pads[i]), depth: 0 };
                let ghost before = out@;
                out.push(np);
                proof {
                    assert(nested_view(out@) =~= nested_view(before).push((dp_view(np.pad), 0usize)));
                    assert(flat_pads_view(pads@.take(i + 1)).map_values(|d: DisplayPadV| (d, 0usize))
                        =~= flat_pads_view(pads@.take(i as int)).map_values(|d: DisplayPadV| (d, 0usize)).push(
                        (dp_view(pads@[i as int]), 0usize),
                    ));
                }
                i += 1;
            }
            proof {
                assert(pads@.take(pads.len() as int) =~= pads@);
            }
            Ok(out)
        },
        _ => collect_nested_pads(store, scope, pads),
    }
}

/// The UTF-8 bytes of a text.
pub(crate) fn utf8_bytes(s: &String) -> (r: Vec<u8>)
    ensures
        r@ == vstd::utf8::encode_utf8(s@),
{
    vstd::slice::slice_to_vec(s.as_str().as_bytes())
}

/// What a single-file export yields (see [`run_single_file`]).
pub open spec fn single_file_outcome(
    s: Seq<StoredV>,
    scope: Scope,
    sels: Seq<crate::index::SelectorV>,
    title: Seq<char>,
    nesting: NestingMode,
    r: Result<ExportOutcome, PadzError>,
) -> bool {
    match export_selection(s, scope, sels) {
        Err(k) => r matches Err(e) && e.kind() == k,
        Ok(p) => if p.len() == 0 {
            r matches Ok(ExportOutcome::Empty { format }) && format == ExportFormat::SingleFile
        } else {
            let format = spec_format_of(title);
            r matches Ok(ExportOutcome::Artifact(a)) && a.bytes@ == vstd::utf8::encode_utf8(
                spec_single_file(nesting_of(s, scope, p, nesting), title, format),
            ) && a.suggested_filename@ == spec_output_filename(title, format) && a.report.format
                == ExportFormat::SingleFile && a.report.exported == p.len() && a.report.warnings@.len() == 0
        },
    }
}

/// Exports the selected pads (all live top-level pads without selectors)
/// into one text, in the format the title's extension asks for.
pub fn run_single_file(
    store: &Store,
    scope: Scope,
    selectors: &Vec<PadSelector>,
    title: &str,
    nesting: NestingMode,
) -> (r: Result<ExportOutcome, PadzError>)
    ensures
        single_file_outcome(store@, scope, selectors_view(selectors@), title@, nesting, r),
{
    let pads = match resolve_pads(store, scope, selectors) {
        Ok(v) => v,
        Err(e) => return Err(e),
    };
    if pads.len() == 0 {
        return Ok(ExportOutcome::Empty { format: ExportFormat::SingleFile });
    }
    let nested = match resolve_nested(store, scope, &pads, nesting) {
        Ok(v) => v,
        Err(e) => return Err(e),
    };
    let format = SingleFileFormat::from_filename(title);
    let merged = merge_pads_to_single_file(&nested, title, format);
    let filename = sanitize_output_filename(title, format);
    Ok(
        ExportOutcome::Artifact(
            ExportArtifact {
                bytes: utf8_bytes(&merged.content),
                suggested_filename: filename,
                report: ExportReport { format: ExportFormat::SingleFile, exported: pads.len(), warnings: Vec::new() },
            },
        ),
    )
}

// ---------------------------------------------------------------------------
// Archives
// ---------------------------------------------------------------------------

/// A tar archive being written into a gzip encoder over a byte vector.
/// Verus does not take the declarations of `tar::Builder` and
/// `flate2::write::GzEncoder` (their `std::io::Write` bound), so the builder
/// is held here, hidden, and spoken of through [`archive_entries`].
#[verifier::external_body]
pub struct ArchiveWriter {
    inner: tar::Builder<flate2::write::GzEncoder<Vec<u8>>>,
}

/// The entries appended so far to an archive: each entry's path, data and
/// file mode, in order.
pub uninterp spec fn archive_entries(b: ArchiveWriter) -> Seq<(Seq<char>, Seq<u8>, u32)>;

/// The gzip-compressed tar archive holding these entries, as `tar::Builder`
/// and `flate2::write::GzEncoder` (default compression) write it.
pub uninterp spec fn spec_tar_gz(entries: Seq<(Seq<char>, Seq<u8>, u32)>) -> Seq<u8>;

/// Calls `tar::Builder::new` over `flate2::write::GzEncoder::new` on an empty
/// vector: an archive with no entries.
#[verifier::external_body]
pub(crate) fn new_archive() -> (r: ArchiveWriter)
    ensures
        archive_entries(r) == Seq::<(Seq<char>, Seq<u8>, u32)>::empty(),
{
    ArchiveWriter {
        inner: tar::Builder::new(flate2::write::GzEncoder::new(Vec::new(), flate2::Compression::default())),
    }
}

/// Whether `tar` takes a path for an entry: `Header::set_path` (or, for a
/// long path, the GNU long-name entry that `Builder::append_data` writes)
/// accepts it.
pub uninterp spec fn spec_tar_accepts(path: Seq<char>) -> bool;

/// Calls `tar::Builder::append_data` with a GNU header carrying the data's
/// size and `mode`. The data is a byte slice and the archive is written
/// into a vector, so only the path can be refused (see
/// [`spec_tar_accepts`]); on success the entry is appended. A refusal is
/// reported as an `Io` error.
#[verifier::external_body]
pub(crate) fn append_entry(b: &mut ArchiveWriter, path: &str, data: &Vec<u8>, mode: u32) -> (r: Result<
    (),
    PadzError,
>)
    ensures
        r is Ok <==> spec_tar_accepts(path@),
        r is Ok ==> archive_entries(*final(b)) == archive_entries(*old(b)).push((path@, data@, mode)),
        r matches Err(e) ==> e is Io,
{
    let mut header = tar::Header::new_gnu();
    header.set_size(data.len() as u64);
    header.set_mode(mode);
    header.set_cksum();
    b.inner.append_data(&mut header, path, data.as_slice()).map_err(|e| PadzError::Io(e.to_string()))
}

/// Calls `tar::Builder::into_inner` and `GzEncoder::finish`: the archive
/// bytes of the appended entries. Both only write into a vector, which
/// cannot fail, so the bytes always come back.
#[verifier::external_body]
pub(crate) fn finish_archive(b: ArchiveWriter) -> (r: Result<Vec<u8>, PadzError>)
    ensures
        r is Ok,
        r matches Ok(v) ==> v@ == spec_tar_gz(archive_entries(b)),
{
    let enc = b.inner.into_inner().map_err(|e| PadzError::Io(e.to_string()))?;
    enc.finish().map_err(|e| PadzError::Io(e.to_string()))
}

/// Calls `chrono::Utc::now` and formats it with `chrono`'s `format` as
/// `%Y-%m-%d_%H-%M-%S`, a pattern `chrono` always renders; the clock is
/// outside the library, so nothing is stated of the text.
#[verifier::external_body]
pub(crate) fn now_stamp() -> String {
    chrono::Utc::now().format("%Y-%m-%d_%H-%M-%S").to_string()
}

/// File mode of archive entries (`rw-r--r--`).
pub const ENTRY_MODE: u32 = 420;

/// The first eight hex digits of a UUID.
pub open spec fn short_id(id: u128) -> Seq<char> {
    crate::model::uuid_hyphenated(id).take(8)
}

/// The archive path of a pad: its safe title and short id.
pub open spec fn entry_path(d: DisplayPadV, ext: Seq<char>) -> Seq<char> {
    "padz/"@ + spec_sanitize(d.pad.metadata.title) + seq!['-'] + short_id(d.pad.metadata.id) + seq!['.'] + ext
}

/// The entries of a plain archive: each pad as a text file holding its title,
/// a blank line and its content.
pub open spec fn plain_entries(pads: Seq<(DisplayPadV, usize)>) -> Seq<(Seq<char>, Seq<u8>, u32)> {
    pads.map_values(
        |p: (DisplayPadV, usize)|
            (
                entry_path(p.0, "txt"@),
                vstd::utf8::encode_utf8(p.0.pad.metadata.title + seq!['\n', '\n'] + p.0.pad.content),
                ENTRY_MODE,
            ),
    )
}

/// A character in ASCII lower case.
pub open spec fn ascii_lower_char(c: char) -> char {
    if 'A' <= c && c <= 'Z' {
        (((c as u32) + 32) as u8) as char
    } else {
        c
    }
}

/// A text in ASCII lower case.
pub open spec fn ascii_lower(t: Seq<char>) -> Seq<char> {
    t.map_values(|c: char| ascii_lower_char(c))
}

/// Where a metadata archive takes a pad from: the bucket holding it, active
/// before archived, with its file's extension in ASCII lower case; a pad in
/// neither counts as an active `.txt` file.
pub open spec fn meta_source(s: Seq<StoredV>, scope: Scope, id: u128) -> (Bucket, Seq<char>) {
    if stored_in(s, scope, id, Bucket::Active) {
        (Bucket::Active, ascii_lower(stored_ext(s, scope, id)))
    } else if stored_in(s, scope, id, Bucket::Archived) {
        (Bucket::Archived, ascii_lower(stored_ext(s, scope, id)))
    } else {
        (Bucket::Active, "txt"@)
    }
}

/// The metadata block put before a pad's content: YAML frontmatter for
/// `md` and `markdown` files (none when the YAML writer fails), lex
/// annotations for `lex` files, and no block (`Some(None)`) for any other
/// file, which has no metadata dialect.
pub open spec fn meta_block(s: Seq<StoredV>, scope: Scope, d: DisplayPadV) -> Option<Option<Seq<char>>> {
    let (b, e) = meta_source(s, scope, d.pad.metadata.id);
    if e == "md"@ || e == "markdown"@ {
        match md_frontmatter_block(d.pad.metadata, b) {
            Some(t) => Some(Some(t)),
            None => None,
        }
    } else if e == "lex"@ {
        Some(Some(lex_block(d.pad.metadata, b)))
    } else {
        Some(None)
    }
}

/// A pad's entry in a metadata archive: named with its file's extension,
/// holding its metadata block (when it has one) and then its content.
pub open spec fn meta_entry(s: Seq<StoredV>, scope: Scope, d: DisplayPadV) -> (Seq<char>, Seq<u8>, u32) {
    (
        entry_path(d, meta_source(s, scope, d.pad.metadata.id).1),
        vstd::utf8::encode_utf8(
            match meta_block(s, scope, d) {
                Some(Some(t)) => t + d.pad.content,
                _ => d.pad.content,
            },
        ),
        ENTRY_MODE,
    )
}

/// Each pad once (first occurrence), as its entry (see [`meta_entry`]).
pub open spec fn metadata_entries(s: Seq<StoredV>, scope: Scope, pads: Seq<(DisplayPadV, usize)>) -> Seq<
    (Seq<char>, Seq<u8>, u32),
>
    decreases pads.len(),
{
    if pads.len() == 0 {
        Seq::empty()
    } else {
        let r = metadata_entries(s, scope, pads.drop_last());
        let d = pads.last().0;
        if first_seen(pads, pads.len() - 1) {
            r.push(meta_entry(s, scope, d))
        } else {
            r
        }
    }
}

/// The pad at position `k` is the first with its id.
pub open spec fn first_seen(pads: Seq<(DisplayPadV, usize)>, k: int) -> bool {
    forall|j: int| 0 <= j < k ==> #[trigger] pads[j].0.pad.metadata.id != pads[k].0.pad.metadata.id
}

/// The titles of the pads a metadata archive stores without metadata: each
/// pad once whose file has no metadata dialect.
pub open spec fn plain_titles(s: Seq<StoredV>, scope: Scope, pads: Seq<(DisplayPadV, usize)>) -> Seq<Seq<char>>
    decreases pads.len(),
{
    if pads.len() == 0 {
        Seq::empty()
    } else {
        let r = plain_titles(s, scope, pads.drop_last());
        if first_seen(pads, pads.len() - 1) && meta_block(s, scope, pads.last().0) == Some::<Option<Seq<char>>>(None) {
            r.push(pads.last().0.pad.metadata.title)
        } else {
            r
        }
    }
}

fn text_entry(d: &DisplayPad, with_title: bool) -> (r: (String, Vec<u8>))
    ensures
        r.0@ == entry_path(dp_view(*d), "txt"@),
        r.1@ == vstd::utf8::encode_utf8(
            if with_title {
                d.pad.metadata.title@ + seq!['\n', '\n'] + d.pad.content@
            } else {
                d.pad.content@
            },
        ),
{
    let mut name = lit("padz/");
    append_chars(&mut name, &chars_of(sanitize_filename(d.pad.metadata.title.as_str()).as_str()));
    name.push('-');
    let id = crate::model::uuid_hyphenated_chars(d.pad.metadata.id);
    proof {
        crate::model::lemma_uuid_hyphenated_len(d.pad.metadata.id);
    }
    append_chars(&mut name, &slice_chars(&id, 0, 8));
    name.push('.');
    append_chars(&mut name, &lit("txt"));
    let text = if with_title {
        let mut t = chars_of(d.pad.metadata.title.as_str());
        t.push('\n');
        t.push('\n');
        append_chars(&mut t, &chars_of(d.pad.content.as_str()));
        proof {
            assert(t@ =~= d.pad.metadata.title@ + seq!['\n', '\n'] + d.pad.content@);
        }
        t
    } else {
        chars_of(d.pad.content.as_str())
    };
    (string_from_chars(&name), utf8_bytes(&string_from_chars(&text)))
}

/// Whether pad `k` is the first with its id.
pub(crate) fn is_first(pads: &Vec<NestedPad>, k: usize) -> (r: bool)
    requires
        k < pads.len(),
    ensures
        r == first_seen(nested_view(pads@), k as int),
{
    let ghost pv = nested_view(pads@);
    let mut j: usize = 0;
    while j < k
        invariant
            pv == nested_view(pads@),
            k < pads.len(),
            j <= k,
            forall|q: int| 0 <= q < j ==> #[trigger] pv[q].0.pad.metadata.id != pv[k as int].0.pad.metadata.id,
        decreases k - j,
    {
        proof {
            assert(pv[j as int].0 == dp_view(pads@[j as int].pad));
            assert(pv[k as int].0 == dp_view(pads@[k as int].pad));
        }
        if pads[j].pad.pad.metadata.id == pads[k].pad.pad.metadata.id {
            assert(pv[j as int].0.pad.metadata.id == pv[k as int].0.pad.metadata.id);
            return false;
        }
        j += 1;
    }
    true
}

/// The suggested name of an archive written at the time `stamp` names.
pub open spec fn archive_name(stamp: Seq<char>, with_metadata: bool) -> Seq<char> {
    "padz-"@ + stamp + if with_metadata {
        ".meta.gz"@
    } else {
        ".tar.gz"@
    }
}

/// The error of a metadata archive whose YAML frontmatter could not be
/// written.
pub open spec fn yaml_failure_text() -> Seq<char> {
    "Failed to write YAML frontmatter"@
}

fn ascii_lower_exec(t: &Vec<char>) -> (r: Vec<char>)
    ensures
        r@ == ascii_lower(t@),
{
    let mut out: Vec<char> = Vec::new();
    let mut i: usize = 0;
    while i < t.len()
        invariant
            i <= t.len(),
            out@ == ascii_lower(t@.take(i as int)),
        decreases t.len() - i,
    {
        let c = t[i];
        let l = if 'A' <= c && c <= 'Z' {
            let x: u32 = c as u32;
            let y: u8 = (x + 32) as u8;
            y as char
        } else {
            c
        };
        out.push(l);
        proof {
            assert(ascii_lower(t@.take(i + 1)) =~= ascii_lower(t@.take(i as int)).push(ascii_lower_char(c)));
        }
        i += 1;
    }
    proof {
        assert(t@.take(t.len() as int) =~= t@);
    }
    out
}

fn meta_source_exec(store: &Store, scope: Scope, id: u128) -> (r: (Bucket, Vec<char>))
    ensures
        (r.0, r.1@) == meta_source(store@, scope, id),
{
    let b = if store.contains(id, scope, Bucket::Active) {
        Bucket::Active
    } else if store.contains(id, scope, Bucket::Archived) {
        Bucket::Archived
    } else {
        proof {
            reveal_strlit("txt");
        }
        return (Bucket::Active, lit("txt"));
    };
    match store.file_extension(id, scope) {
        Some(e) => (b, ascii_lower_exec(&chars_of(e.as_str()))),
        None => {
            proof {
                assert(false);
            }
            (b, lit("txt"))
        },
    }
}

/// The entry of a pad in a metadata archive, or the text of the failure to
/// write its YAML frontmatter; also whether the pad has no metadata block.
fn meta_entry_exec(store: &Store, scope: Scope, d: &DisplayPad) -> (r: Result<(String, Vec<u8>, bool), String>)
    ensures
        match meta_block(store@, scope, dp_view(*d)) {
            None => r matches Err(m) && m@ == yaml_failure_text(),
            Some(b) => r matches Ok((name, data, plain)) && (name@, data@, ENTRY_MODE) == meta_entry(
                store@,
                scope,
                dp_view(*d),
            ) && plain == (b is None),
        },
{
    let (bucket, ext) = meta_source_exec(store, scope, d.pad.metadata.id);
    let is_md = chars_eq(&ext, &lit("md")) || chars_eq(&ext, &lit("markdown"));
    let is_lex = chars_eq(&ext, &lit("lex"));
    let block: Option<Vec<char>> = if is_md {
        match crate::commands::inline_metadata::serialize_md_frontmatter(&d.pad.metadata, bucket) {
            Some(t) => Some(chars_of(t.as_str())),
            None => {
                let m = string_from_chars(&lit("Failed to write YAML frontmatter"));
                proof {
                    reveal_strlit("Failed to write YAML frontmatter");
                }
                return Err(m);
            },
        }
    } else if is_lex {
        Some(chars_of(crate::commands::inline_metadata::serialize_lex_metadata(&d.pad.metadata, bucket).as_str()))
    } else {
        None
    };
    let mut name = lit("padz/");
    append_chars(&mut name, &chars_of(sanitize_filename(d.pad.metadata.title.as_str()).as_str()));
    name.push('-');
    let id = crate::model::uuid_hyphenated_chars(d.pad.metadata.id);
    proof {
        crate::model::lemma_uuid_hyphenated_len(d.pad.metadata.id);
    }
    append_chars(&mut name, &slice_chars(&id, 0, 8));
    name.push('.');
    append_chars(&mut name, &ext);
    let plain = block.is_none();
    let mut text = match block {
        Some(b) => b,
        None => Vec::new(),
    };
    append_chars(&mut text, &chars_of(d.pad.content.as_str()));
    proof {
        assert(name@ =~= entry_path(dp_view(*d), ext@));
        if !plain {
            assert(text@ =~= meta_block(store@, scope, dp_view(*d))->Some_0->Some_0 + d.pad.content@);
        } else {
            assert(text@ =~= d.pad.content@);
        }
    }
    Ok((string_from_chars(&name), utf8_bytes(&string_from_chars(&text)), plain))
}

/// What an archive export yields (see [`run`]).
pub open spec fn archive_outcome(
    s: Seq<StoredV>,
    scope: Scope,
    sels: Seq<crate::index::SelectorV>,
    nesting: NestingMode,
    with_metadata: bool,
    r: Result<ExportOutcome, PadzError>,
) -> bool {
    let format = if with_metadata {
        ExportFormat::MetadataArchive
    } else {
        ExportFormat::Archive
    };
    match export_selection(s, scope, sels) {
        Err(k) => r matches Err(e) && e.kind() == k,
        Ok(p) => if p.len() == 0 {
            r matches Ok(ExportOutcome::Empty { format: f }) && f == format
        } else {
            let nested = nesting_of(s, scope, p, nesting);
            let entries = if with_metadata {
                metadata_entries(s, scope, nested)
            } else {
                plain_entries(nested)
            };
            match r {
                Ok(ExportOutcome::Artifact(a)) => {
                    &&& a.bytes@ == spec_tar_gz(entries)
                    &&& exists|stamp: Seq<char>| #[trigger] archive_name(stamp, with_metadata) == a.suggested_filename@
                    &&& a.report.format == format
                    &&& a.report.exported == p.len()
                    &&& (with_metadata ==> forall|i: int|
                        0 <= i < nested.len() && first_seen(nested, i) ==> #[trigger] meta_block(s, scope, nested[i].0)
                            is Some)
                    &&& (if with_metadata && plain_titles(s, scope, nested).len() > 0 {
                        &&& a.report.warnings@.len() == 1
                        &&& (a.report.warnings@[0] matches ExportWarning::MetadataUnavailable { titles }
                            && titles@.map_values(|t: String| t@) == plain_titles(s, scope, nested))
                    } else {
                        a.report.warnings@.len() == 0
                    })
                },
                Ok(ExportOutcome::Empty { .. }) => false,
                Err(e) => if with_metadata {
                    exists|i: int|
                        0 <= i < nested.len() && #[trigger] first_seen(nested, i) && ((e is Io && !spec_tar_accepts(
                            meta_entry(s, scope, nested[i].0).0,
                        )) || (e matches PadzError::Api(m)
                            && m@ == yaml_failure_text() && meta_block(s, scope, nested[i].0) is None))
                } else {
                    e is Io && exists|i: int|
                        0 <= i < nested.len() && !#[trigger] spec_tar_accepts(entry_path(nested[i].0, "txt"@))
                },
            }
        },
    }
}

/// Exports the selected pads (all live top-level pads without selectors) as
/// a gzip-compressed tar archive: each pad as a text file headed by its
/// title, or, with metadata, each pad once under its file's extension,
/// headed by its metadata in the file's dialect (YAML frontmatter for
/// Markdown, annotations for lex); pads whose files have no dialect are
/// listed in a warning. The suggested name holds the current time.
#[verifier::loop_isolation(false)]
#[verifier::rlimit(50)]
pub fn run(
    store: &Store,
    scope: Scope,
    selectors: &Vec<PadSelector>,
    nesting: NestingMode,
    with_metadata: bool,
) -> (r: Result<ExportOutcome, PadzError>)
    ensures
        archive_outcome(store@, scope, selectors_view(selectors@), nesting, with_metadata, r),
{
    let format = if with_metadata {
        ExportFormat::MetadataArchive
    } else {
        ExportFormat::Archive
    };
    let pads = match resolve_pads(store, scope, selectors) {
        Ok(v) => v,
        Err(e) => return Err(e),
    };
    if pads.len() == 0 {
        return Ok(ExportOutcome::Empty { format });
    }
    let nested = match resolve_nested(store, scope, &pads, nesting) {
        Ok(v) => v,
        Err(e) => return Err(e),
    };
    let ghost nv = nested_view(nested@);
    let mut builder = new_archive();
    let mut titles: Vec<String> = Vec::new();
    let mut i: usize = 0;
    proof {
        assert(nv.take(0) =~= Seq::<(DisplayPadV, usize)>::empty());
        assert(plain_entries(nv.take(0)) =~= Seq::<(Seq<char>, Seq<u8>, u32)>::empty());
        assert(titles@.map_values(|t: String| t@) =~= plain_titles(store@, scope, nv.take(0)));
    }
    while i < nested.len()
        invariant
            nv == nested_view(nested@),
            i <= nested.len(),
            archive_entries(builder) == if with_metadata {
                metadata_entries(store@, scope, nv.take(i as int))
            } else {
                plain_entries(nv.take(i as int))
            },
            with_metadata ==> titles@.map_values(|t: String| t@) == plain_titles(store@, scope, nv.take(i as int)),
            with_metadata ==> forall|q: int|
                0 <= q < i && first_seen(nv, q) ==> #[trigger] meta_block(store@, scope, nv[q].0) is Some,
        decreases nested.len() - i,
    {
        proof {
            assert(nv.take(i + 1).drop_last() =~= nv.take(i as int));
            assert(nv.take(i + 1).last() == nv[i as int]);
            assert(nv[i as int].0 == dp_view(nested@[i as int].pad));
            assert forall|q: int| 0 <= q < i implies #[trigger] nv.take(i + 1)[q] == nv[q] by {}
            if first_seen(nv, i as int) {
                assert forall|q: int| 0 <= q < i implies #[trigger] nv.take(i + 1)[q].0.pad.metadata.id
                    != nv.take(i + 1)[i as int].0.pad.metadata.id by {
                    assert(nv.take(i + 1)[q] == nv[q]);
                }
            } else {
                let q = choose|q: int| 0 <= q < i && #[trigger] nv[q].0.pad.metadata.id == nv[i as int].0.pad.metadata.id;
                assert(nv.take(i + 1)[q] == nv[q]);
            }
            assert(first_seen(nv.take(i + 1), i as int) == first_seen(nv, i as int));
        }
        if with_metadata {
            if is_first(&nested, i) {
                let (name, data, plain) = match meta_entry_exec(store, scope, &nested[i].pad) {
                    Ok(x) => x,
                    Err(m) => {
                        proof {
                            assert(first_seen(nv, i as int));
                        }
                        return Err(PadzError::Api(m));
                    },
                };
                match append_entry(&mut builder, name.as_str(), &data, ENTRY_MODE) {
                    Ok(()) => {},
                    Err(e) => {
                        proof {
                            assert(first_seen(nv, i as int));
                            assert(!spec_tar_accepts(meta_entry(store@, scope, nv[i as int].0).0));
                        }
                        return Err(e);
                    },
                }
                if plain {
                    let ghost before = titles@;
                    titles.push(nested[i].pad.pad.metadata.title.clone());
                    proof {
                        assert(titles@.map_values(|t: String| t@) =~= before.map_values(|t: String| t@).push(
                            nv[i as int].0.pad.metadata.title,
                        ));
                    }
                }
            }
        } else {
            let (name, data) = text_entry(&nested[i].pad, true);
            match append_entry(&mut builder, name.as_str(), &data, ENTRY_MODE) {
                Ok(()) => {},
                Err(e) => {
                    proof {
                        assert(!spec_tar_accepts(entry_path(nv[i as int].0, "txt"@)));
                    }
                    return Err(e);
                },
            }
            proof {
                assert(plain_entries(nv.take(i + 1)) =~= plain_entries(nv.take(i as int)).push(
                    (name@, data@, ENTRY_MODE),
                ));
            }
        }
        i += 1;
    }
    proof {
        assert(nv.take(nested.len() as int) =~= nv);
    }
    let bytes = match finish_archive(builder) {
        Ok(b) => b,
        Err(e) => return Err(e),
    };
    let stamp = now_stamp();
    let mut name = lit("padz-");
    append_chars(&mut name, &chars_of(stamp.as_str()));
    if with_metadata {
        append_chars(&mut name, &lit(".meta.gz"));
    } else {
        append_chars(&mut name, &lit(".tar.gz"));
    }
    assert(name@ =~= archive_name(stamp@, with_metadata));
    let mut warnings: Vec<ExportWarning> = Vec::new();
    if with_metadata && titles.len() > 0 {
        warnings.push(ExportWarning::MetadataUnavailable { titles });
    }
    Ok(
        ExportOutcome::Artifact(
            ExportArtifact {
                bytes,
                suggested_filename: string_from_chars(&name),
                report: ExportReport { format, exported: pads.len(), warnings },
            },
        ),
    )
}

} // verus!
