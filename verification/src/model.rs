//! The pad data model: scopes, buckets, todo status, metadata and pads.
use vstd::prelude::*;
use crate::text::{
    append_chars, chars_of, find_from, first_occurrence, lemma_trim_unchanged, lemma_trimmed_ends, lit, occurs_at,
    slice_chars, spec_is_whitespace, string_from_chars, trim, trim_chars,
};

verus! {

/// Which set of pads a command works on.
#[derive(Clone, Copy, Debug, PartialEq, Eq, Structural)]
pub enum Scope {
    Project,
    Global,
}

/// The storage bucket a pad lives in.
#[derive(Clone, Copy, Debug, PartialEq, Eq, Structural)]
pub enum Bucket {
    Active,
    Archived,
    Deleted,
}

/// The todo status of a pad.
#[derive(Clone, Copy, Debug, PartialEq, Eq, Structural)]
pub enum TodoStatus {
    Planned,
    InProgress,
    Done,
}

/// A pad's metadata. Timestamps are Unix milliseconds; ids are 128-bit UUIDs.
#[derive(Debug)]
pub struct Metadata {
    pub id: u128,
    pub title: String,
    pub created_at: i64,
    pub updated_at: i64,
    pub is_pinned: bool,
    pub pinned_at: Option<i64>,
    pub delete_protected: bool,
    pub parent_id: Option<u128>,
    pub status: TodoStatus,
    pub tags: Vec<String>,
}

/// A pad: metadata plus its full text (the first line is the title).
#[derive(Debug)]
pub struct Pad {
    pub metadata: Metadata,
    pub content: String,
}

/// The mathematical value of [`Metadata`].
pub struct MetadataV {
    pub id: u128,
    pub title: Seq<char>,
    pub created_at: i64,
    pub updated_at: i64,
    pub is_pinned: bool,
    pub pinned_at: Option<i64>,
    pub delete_protected: bool,
    pub parent_id: Option<u128>,
    pub status: TodoStatus,
    pub tags: Seq<Seq<char>>,
}

/// The mathematical value of [`Pad`].
pub struct PadV {
    pub metadata: MetadataV,
    pub content: Seq<char>,
}

pub open spec fn strings_view(v: Seq<String>) -> Seq<Seq<char>> {
    v.map_values(|s: String| s@)
}

impl View for Metadata {
    type V = MetadataV;

    open spec fn view(&self) -> MetadataV {
        MetadataV {
            id: self.id,
            title: self.title@,
            created_at: self.created_at,
            updated_at: self.updated_at,
            is_pinned: self.is_pinned,
            pinned_at: self.pinned_at,
            delete_protected: self.delete_protected,
            parent_id: self.parent_id,
            status: self.status,
            tags: strings_view(self.tags@),
        }
    }
}

impl View for Pad {
    type V = PadV;

    open spec fn view(&self) -> PadV {
        PadV { metadata: self.metadata@, content: self.content@ }
    }
}

/// A copy of a list of strings.
pub fn copy_strings(v: &Vec<String>) -> (r: Vec<String>)
    ensures
        strings_view(r@) == strings_view(v@),
{
    let mut r: Vec<String> = Vec::new();
    let mut i: usize = 0;
    while i < v.len()
        invariant
            i <= v.len(),
            r@.len() == i,
            forall|k: int| 0 <= k < i ==> (#[trigger] r@[k])@ == v@[k]@,
        decreases v.len() - i,
    {
        r.push(v[i].clone());
        i += 1;
    }
    proof {
        assert(strings_view(r@) =~= strings_view(v@));
    }
    r
}

impl Metadata {
    /// A copy of this metadata.
    pub fn duplicate(&self) -> (r: Metadata)
        ensures
            r@ == self@,
    {
        Metadata {
            id: self.id,
            title: self.title.clone(),
            created_at: self.created_at,
            updated_at: self.updated_at,
            is_pinned: self.is_pinned,
            pinned_at: self.pinned_at,
            delete_protected: self.delete_protected,
            parent_id: self.parent_id,
            status: self.status,
            tags: copy_strings(&self.tags),
        }
    }

    /// Sets the pinned flag; pinning also records the time and protects the
    /// pad from deletion, unpinning clears both.
    pub fn set_pinned(&mut self, pinned: bool, now: i64)
        ensures
            final(self)@ == (MetadataV {
                is_pinned: pinned,
                pinned_at: if pinned { Some(now) } else { None },
                delete_protected: pinned,
                ..old(self)@
            }),
    {
        self.is_pinned = pinned;
        self.pinned_at = if pinned { Some(now) } else { None };
        self.delete_protected = pinned;
    }
}

impl Pad {
    /// A copy of this pad.
    pub fn duplicate(&self) -> (r: Pad)
        ensures
            r@ == self@,
    {
        Pad { metadata: self.metadata.duplicate(), content: self.content.clone() }
    }

    /// A new root pad with the given identity and time: the content is the
    /// title, followed by a blank line and the body when the body is not empty.
    pub fn with_identity(id: u128, now: i64, title: String, body: String) -> (r: Pad)
        ensures
            r@ == new_pad_value(id, now, title@, body@),
    {
        let mut content: Vec<char> = chars_of(title.as_str());
        let b = chars_of(body.as_str());
        if b.len() > 0 {
            content.push('\n');
            content.push('\n');
            append_chars(&mut content, &b);
        }
        proof {
            if body@.len() > 0 {
                assert(content@ =~= title@ + seq!['\n', '\n'] + body@);
            } else {
                assert(content@ =~= title@);
            }
            assert(content@ =~= compose_content(title@, body@));
        }
        let content = string_from_chars(&content);
        let tags: Vec<String> = Vec::new();
        proof {
            assert(strings_view(tags@) =~= Seq::empty());
        }
        Pad {
            metadata: Metadata {
                id,
                title,
                created_at: now,
                updated_at: now,
                is_pinned: false,
                pinned_at: None,
                delete_protected: false,
                parent_id: None,
                status: TodoStatus::Planned,
                tags,
            },
            content,
        }
    }

    /// Takes the title and body from raw text at time `now`: the content is
    /// rebuilt from them (see [`compose_content`]); blank text changes
    /// nothing.
    pub fn update_from_raw(&mut self, raw: &str, now: i64)
        ensures
            match spec_title_and_body(raw@) {
                Some((t, b)) => final(self)@ == (PadV {
                    metadata: MetadataV { title: t, updated_at: now, ..old(self)@.metadata },
                    content: compose_content(t, b),
                }),
                None => final(self)@ == old(self)@,
            },
    {
        match extract_title_and_body(raw) {
            Some((title, body)) => {
                let mut content: Vec<char> = chars_of(title.as_str());
                let b = chars_of(body.as_str());
                if b.len() > 0 {
                    content.push('\n');
                    content.push('\n');
                    append_chars(&mut content, &b);
                }
                proof {
                    if body@.len() > 0 {
                        assert(content@ =~= title@ + seq!['\n', '\n'] + body@);
                    } else {
                        assert(content@ =~= title@);
                    }
                }
                self.metadata.title = title;
                self.metadata.updated_at = now;
                self.content = string_from_chars(&content);
            },
            None => {},
        }
    }

    /// A new root pad with a fresh random id, created now.
    pub fn new(title: String, body: String) -> (r: Pad)
        ensures
            r@ == new_pad_value(r@.metadata.id, r@.metadata.created_at, title@, body@),
    {
        let id = new_pad_id();
        let now = now_millis();
        Pad::with_identity(id, now, title, body)
    }
}

/// The full text of a pad with the given title and body.
pub open spec fn compose_content(title: Seq<char>, body: Seq<char>) -> Seq<char> {
    if body.len() == 0 {
        title
    } else {
        title + seq!['\n', '\n'] + body
    }
}

/// The value of a freshly created root pad.
pub open spec fn new_pad_value(id: u128, now: i64, title: Seq<char>, body: Seq<char>) -> PadV {
    PadV {
        metadata: MetadataV {
            id,
            title,
            created_at: now,
            updated_at: now,
            is_pinned: false,
            pinned_at: None,
            delete_protected: false,
            parent_id: None,
            status: TodoStatus::Planned,
            tags: Seq::empty(),
        },
        content: compose_content(title, body),
    }
}

/// Calls `uuid::Uuid::new_v4`; the id is random, so nothing is stated of it.
#[verifier::external_body]
pub fn new_pad_id() -> u128 {
    uuid::Uuid::new_v4().as_u128()
}

/// Calls `chrono::Utc::now` and returns it as Unix milliseconds; the clock
/// is outside the library, so nothing is stated of the value.
#[verifier::external_body]
pub fn now_millis() -> i64 {
    chrono::Utc::now().timestamp_millis()
}

// ---------------------------------------------------------------------------
// Title and body extraction from raw text
// ---------------------------------------------------------------------------

/// The first line of `s` (everything before the first newline).
pub open spec fn first_line(s: Seq<char>) -> Seq<char> {
    match first_occurrence(s, seq!['\n'], 0) {
        Some(i) => s.subrange(0, i),
        None => s,
    }
}

/// Everything after the first newline of `s` (empty when there is none).
pub open spec fn after_first_line(s: Seq<char>) -> Seq<char> {
    match first_occurrence(s, seq!['\n'], 0) {
        Some(i) => s.subrange(i + 1, s.len() as int),
        None => Seq::empty(),
    }
}

/// The title and body of raw pad text: the text is trimmed; nothing is
/// extracted from blank text; otherwise the title is the trimmed first line
/// and the body the trimmed remainder.
pub open spec fn spec_title_and_body(raw: Seq<char>) -> Option<(Seq<char>, Seq<char>)> {
    let t = trim(raw);
    if t.len() == 0 {
        None
    } else {
        Some((trim(first_line(t)), trim(after_first_line(t))))
    }
}

proof fn lemma_no_newline_before(hay: Seq<char>, from: int, to: int)
    requires
        0 <= from <= to <= hay.len(),
        forall|j: int| from <= j < to ==> hay[j] != '\n',
    ensures
        first_occurrence(hay, seq!['\n'], from) == first_occurrence(hay, seq!['\n'], to),
    decreases to - from,
{
    if from < to {
        if occurs_at(hay, seq!['\n'], from) {
            assert(hay.subrange(from, from + 1)[0] == hay[from]);
        }
        lemma_no_newline_before(hay, from + 1, to);
    }
}

/// The title and body a pad's content was composed from are what the
/// content reads back as, for a title that is one trimmed non-empty line and
/// a trimmed body.
pub proof fn lemma_content_round_trip(title: Seq<char>, body: Seq<char>)
    requires
        title.len() > 0,
        trim(title) == title,
        !title.contains('\n'),
        trim(body) == body,
    ensures
        spec_title_and_body(compose_content(title, body)) == Some((title, body)),
{
    let c = compose_content(title, body);
    lemma_trimmed_ends(title);
    assert forall|j: int| 0 <= j < title.len() implies title[j] != '\n' by {
        if title[j] == '\n' {
            assert(title.contains('\n'));
        }
    }
    if body.len() == 0 {
        lemma_no_newline_before(title, 0, title.len() as int);
        assert(!occurs_at(title, seq!['\n'], title.len() as int));
        assert(first_occurrence(title, seq!['\n'], title.len() + 1int) is None);
        assert(trim(Seq::<char>::empty()) =~= Seq::<char>::empty());
    } else {
        lemma_trimmed_ends(body);
        let nl = seq!['\n', '\n'];
        assert(c =~= title + nl + body);
        assert(c[0] == title[0]);
        assert(c[c.len() - 1] == body[body.len() - 1]);
        lemma_trim_unchanged(c);
        let k = title.len() as int;
        assert forall|j: int| 0 <= j < k implies c[j] != '\n' by {
            assert(c[j] == title[j]);
        }
        lemma_no_newline_before(c, 0, k);
        assert(c.subrange(k, k + 1) =~= seq!['\n']);
        assert(occurs_at(c, seq!['\n'], k));
        assert(c.subrange(0, k) =~= title);
        let rest = c.subrange(k + 1, c.len() as int);
        assert(rest =~= seq!['\n'] + body);
        assert(spec_is_whitespace(rest[0]));
        assert(rest[1] == body[0]);
        crate::text::lemma_lead_ws(rest, 1);
        assert(rest[rest.len() - 1] == body[body.len() - 1]);
        crate::text::lemma_trail_ws(rest, 0);
        assert(rest.subrange(1, rest.len() as int) =~= body);
    }
}

/// Splits raw text into a title and a body (see [`spec_title_and_body`]).
pub fn extract_title_and_body(raw: &str) -> (r: Option<(String, String)>)
    ensures
        match r {
            Some((t, b)) => spec_title_and_body(raw@) == Some((t@, b@)),
            None => spec_title_and_body(raw@) is None,
        },
{
    let s = chars_of(raw);
    let t = trim_chars(&s);
    if t.len() == 0 {
        return None;
    }
    let nl = lit("\n");
    proof {
        reveal_strlit("\n");
        assert(nl@ =~= seq!['\n']);
    }
    let (line, rest) = match find_from(&t, &nl, 0) {
        Some(i) => (slice_chars(&t, 0, i), slice_chars(&t, i + 1, t.len())),
        None => (slice_chars(&t, 0, t.len()), Vec::new()),
    };
    proof {
        assert(t@.subrange(0, t@.len() as int) =~= t@);
    }
    let title = trim_chars(&line);
    let body = trim_chars(&rest);
    Some((string_from_chars(&title), string_from_chars(&body)))
}


// ---------------------------------------------------------------------------
// UUID text
// ---------------------------------------------------------------------------

pub open spec fn hex_char(d: int) -> char {
    if d < 10 {
        crate::text::digit_char(d)
    } else if d == 10 { 'a' }
    else if d == 11 { 'b' }
    else if d == 12 { 'c' }
    else if d == 13 { 'd' }
    else if d == 14 { 'e' }
    else { 'f' }
}

/// The `k`-th hex digit (most significant first) of a 128-bit id.
pub open spec fn id_nibble(id: u128, k: int) -> int {
    ((id >> ((4 * (31 - k)) as u32)) & 15u128) as int
}

/// A UUID as 32 lowercase hex digits (the hyphenated form without hyphens).
pub open spec fn uuid_simple(id: u128) -> Seq<char> {
    Seq::new(32, |k: int| hex_char(id_nibble(id, k)))
}

/// A UUID in its usual hyphenated 8-4-4-4-12 form.
pub open spec fn uuid_hyphenated(id: u128) -> Seq<char> {
    let s = uuid_simple(id);
    s.subrange(0, 8) + seq!['-'] + s.subrange(8, 12) + seq!['-'] + s.subrange(12, 16) + seq!['-']
        + s.subrange(16, 20) + seq!['-'] + s.subrange(20, 32)
}

/// A hyphenated UUID has 36 characters.
pub proof fn lemma_uuid_hyphenated_len(id: u128)
    ensures
        uuid_hyphenated(id).len() == 36,
{
}

fn hex_char_exec(d: u128) -> (c: char)
    requires
        d < 16,
    ensures
        c == hex_char(d as int),
{
    if d == 0 { '0' }
    else if d == 1 { '1' }
    else if d == 2 { '2' }
    else if d == 3 { '3' }
    else if d == 4 { '4' }
    else if d == 5 { '5' }
    else if d == 6 { '6' }
    else if d == 7 { '7' }
    else if d == 8 { '8' }
    else if d == 9 { '9' }
    else if d == 10 { 'a' }
    else if d == 11 { 'b' }
    else if d == 12 { 'c' }
    else if d == 13 { 'd' }
    else if d == 14 { 'e' }
    else { 'f' }
}

/// The 32 hex digits of an id.
pub fn uuid_simple_chars(id: u128) -> (r: Vec<char>)
    ensures
        r@ == uuid_simple(id),
{
    let mut r: Vec<char> = Vec::new();
    let mut k: u32 = 0;
    while k < 32
        invariant
            k <= 32,
            r@.len() == k,
            forall|j: int| 0 <= j < k ==> #[trigger] r@[j] == hex_char(id_nibble(id, j)),
        decreases 32 - k,
    {
        let shift: u32 = 4 * (31 - k);
        let d: u128 = (id >> shift) & 15u128;
        assert(((id >> shift) & 15u128) < 16) by (bit_vector);
        r.push(hex_char_exec(d));
        k += 1;
    }
    proof {
        assert(r@ =~= uuid_simple(id));
    }
    r
}

/// An id in hyphenated UUID form.
pub fn uuid_hyphenated_chars(id: u128) -> (r: Vec<char>)
    ensures
        r@ == uuid_hyphenated(id),
{
    let s = uuid_simple_chars(id);
    let mut r = slice_chars(&s, 0, 8);
    r.push('-');
    append_chars(&mut r, &slice_chars(&s, 8, 12));
    r.push('-');
    append_chars(&mut r, &slice_chars(&s, 12, 16));
    r.push('-');
    append_chars(&mut r, &slice_chars(&s, 16, 20));
    r.push('-');
    append_chars(&mut r, &slice_chars(&s, 20, 32));
    proof {
        assert(r@ =~= uuid_hyphenated(id));
    }
    r
}

/// An id in hyphenated UUID form, as a string.
pub fn uuid_text(id: u128) -> (r: String)
    ensures
        r@ == uuid_hyphenated(id),
{
    string_from_chars(&uuid_hyphenated_chars(id))
}

} // verus!
