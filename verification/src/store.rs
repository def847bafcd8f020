//! An in-memory pad store: pads of both scopes, each in one bucket.
//!
//! Within a scope no two stored pads share an id (the type invariant), so a
//! pad lives in exactly one bucket at a time.
use vstd::prelude::*;
use crate::error::PadzError;
use crate::model::{uuid_hyphenated, uuid_hyphenated_chars, Bucket, Pad, PadV, Scope};
use crate::text::{append_chars, lit, string_from_chars};
use crate::tree::{index_pads, pads_view, spec_index_pads, DisplayPad, dps_view};

verus! {

/// A stored pad with its scope and bucket, and the file extension (without
/// the dot) its content is kept under.
#[derive(Debug)]
pub struct StoredPad {
    pub scope: Scope,
    pub bucket: Bucket,
    pub pad: Pad,
    pub ext: String,
}

pub struct StoredV {
    pub scope: Scope,
    pub bucket: Bucket,
    pub pad: PadV,
    pub ext: Seq<char>,
}

impl View for StoredPad {
    type V = StoredV;

    open spec fn view(&self) -> StoredV {
        StoredV { scope: self.scope, bucket: self.bucket, pad: self.pad@, ext: self.ext@ }
    }
}

/// A content file that no index entry names: its scope, bucket, id and text.
#[derive(Debug)]
pub struct LooseContent {
    pub scope: Scope,
    pub bucket: Bucket,
    pub id: u128,
    pub content: String,
}

pub struct LooseV {
    pub scope: Scope,
    pub bucket: Bucket,
    pub id: u128,
    pub content: Seq<char>,
}

impl View for LooseContent {
    type V = LooseV;

    open spec fn view(&self) -> LooseV {
        LooseV { scope: self.scope, bucket: self.bucket, id: self.id, content: self.content@ }
    }
}

pub open spec fn loose_view(s: Seq<LooseContent>) -> Seq<LooseV> {
    s.map_values(|e: LooseContent| e@)
}

/// The extension a pad's content file gets when it is first saved.
pub open spec fn default_ext() -> Seq<char> {
    "txt"@
}

/// What a consistency check of a store repaired.
#[derive(Clone, Copy, Debug, PartialEq, Eq, Structural)]
pub struct DoctorReport {
    /// Index entries dropped because their content was missing.
    pub fixed_missing_files: usize,
    /// Contents without an index entry that were indexed again.
    pub recovered_files: usize,
}

/// The store: stored pads in insertion order, and content files that no
/// index entry names.
#[derive(Debug)]
pub struct Store {
    entries: Vec<StoredPad>,
    loose: Vec<LooseContent>,
}

pub open spec fn stored_view(s: Seq<StoredPad>) -> Seq<StoredV> {
    s.map_values(|e: StoredPad| e@)
}

impl View for Store {
    type V = Seq<StoredV>;

    closed spec fn view(&self) -> Seq<StoredV> {
        stored_view(self.entries@)
    }
}

/// No two stored pads of one scope share an id.
pub open spec fn ids_unique(s: Seq<StoredV>) -> bool {
    forall|i: int, j: int|
        0 <= i < s.len() && 0 <= j < s.len() && i != j && s[i].scope == s[j].scope ==> #[trigger] s[i].pad.metadata.id
            != #[trigger] s[j].pad.metadata.id
}

/// The position of the pad with this id in this scope, if stored.
pub open spec fn find_pad(s: Seq<StoredV>, scope: Scope, id: u128) -> Option<int>
    decreases s.len(),
{
    if s.len() == 0 {
        None
    } else {
        match find_pad(s.drop_last(), scope, id) {
            Some(i) => Some(i),
            None => if s.last().scope == scope && s.last().pad.metadata.id == id {
                Some(s.len() - 1)
            } else {
                None
            },
        }
    }
}

/// The pads of `scope` in `bucket`, in store order.
pub open spec fn listed(s: Seq<StoredV>, scope: Scope, bucket: Bucket) -> Seq<PadV>
    decreases s.len(),
{
    if s.len() == 0 {
        Seq::empty()
    } else {
        let r = listed(s.drop_last(), scope, bucket);
        if s.last().scope == scope && s.last().bucket == bucket {
            r.push(s.last().pad)
        } else {
            r
        }
    }
}

/// The store after saving `pad` into `bucket`: it replaces the stored pad
/// with the same id (moving it to `bucket`, its file keeping its
/// extension), or is added at the end with the default extension.
pub open spec fn spec_save(s: Seq<StoredV>, pad: PadV, scope: Scope, bucket: Bucket) -> Seq<StoredV> {
    match find_pad(s, scope, pad.metadata.id) {
        Some(i) => s.update(i, StoredV { scope, bucket, pad, ext: s[i].ext }),
        None => s.push(StoredV { scope, bucket, pad, ext: default_ext() }),
    }
}

/// The extension of the stored pad's file.
pub open spec fn stored_ext(s: Seq<StoredV>, scope: Scope, id: u128) -> Seq<char> {
    s[find_pad(s, scope, id)->0].ext
}

/// The display path of a stored pad's file, with its extension.
pub open spec fn stored_path(s: Seq<StoredV>, scope: Scope, bucket: Bucket, id: u128) -> Seq<char> {
    pad_path_text(scope, bucket, id, stored_ext(s, scope, id))
}

/// An extension a file can be kept under: not empty, without dots or
/// slashes.
pub open spec fn valid_ext(ext: Seq<char>) -> bool {
    ext.len() > 0 && forall|i: int| 0 <= i < ext.len() ==> #[trigger] ext[i] != '.' && ext[i] != '/'
}

/// The store after moving the listed pads of `scope` from `from` to `to`.
pub open spec fn spec_move(s: Seq<StoredV>, ids: Seq<u128>, scope: Scope, from: Bucket, to: Bucket) -> Seq<
    StoredV,
> {
    s.map_values(
        |e: StoredV|
            if e.scope == scope && e.bucket == from && ids.contains(e.pad.metadata.id) {
                StoredV { bucket: to, ..e }
            } else {
                e
            },
    )
}

/// The pad with this id is stored in this scope and bucket.
pub open spec fn stored_in(s: Seq<StoredV>, scope: Scope, id: u128, bucket: Bucket) -> bool {
    find_pad(s, scope, id) matches Some(i) && s[i].bucket == bucket
}

/// The display path of a pad's file kept under extension `ext`.
pub open spec fn pad_path_text(scope: Scope, bucket: Bucket, id: u128, ext: Seq<char>) -> Seq<char> {
    (match scope {
        Scope::Project => seq!['p', 'r', 'o', 'j', 'e', 'c', 't'],
        Scope::Global => seq!['g', 'l', 'o', 'b', 'a', 'l'],
    }) + seq!['/'] + (match bucket {
        Bucket::Active => seq!['a', 'c', 't', 'i', 'v', 'e'],
        Bucket::Archived => seq!['a', 'r', 'c', 'h', 'i', 'v', 'e', 'd'],
        Bucket::Deleted => seq!['d', 'e', 'l', 'e', 't', 'e', 'd'],
    }) + seq!['/', 'p', 'a', 'd', '-'] + uuid_hyphenated(id) + seq!['.'] + ext
}

pub(crate) proof fn lemma_find_pad_some(s: Seq<StoredV>, scope: Scope, id: u128)
    ensures
        find_pad(s, scope, id) matches Some(i) ==> 0 <= i < s.len() && s[i].scope == scope
            && s[i].pad.metadata.id == id,
        find_pad(s, scope, id) is None ==> forall|j: int|
            0 <= j < s.len() ==> !(#[trigger] s[j].scope == scope && s[j].pad.metadata.id == id),
    decreases s.len(),
{
    if s.len() > 0 {
        lemma_find_pad_some(s.drop_last(), scope, id);
        assert forall|j: int| 0 <= j < s.len() - 1 implies s.drop_last()[j] == s[j] by {}
    }
}

proof fn lemma_find_pad_unique(s: Seq<StoredV>, scope: Scope, id: u128, j: int)
    requires
        ids_unique(s),
        0 <= j < s.len(),
        s[j].scope == scope,
        s[j].pad.metadata.id == id,
    ensures
        find_pad(s, scope, id) == Some(j),
{
    lemma_find_pad_some(s, scope, id);
}

proof fn lemma_listed_push(s: Seq<StoredV>, e: StoredV, scope: Scope, bucket: Bucket)
    ensures
        listed(s.push(e), scope, bucket) == if e.scope == scope && e.bucket == bucket {
            listed(s, scope, bucket).push(e.pad)
        } else {
            listed(s, scope, bucket)
        },
{
    assert(s.push(e).drop_last() =~= s);
}

/// After a save, the saved pad is found in the target bucket, and nothing
/// else of its scope's bucket contents changes position.
pub proof fn lemma_save_found(s: Seq<StoredV>, pad: PadV, scope: Scope, bucket: Bucket)
    ensures
        find_pad(spec_save(s, pad, scope, bucket), scope, pad.metadata.id) matches Some(i)
            && spec_save(s, pad, scope, bucket)[i].scope == scope && spec_save(s, pad, scope, bucket)[i].bucket == bucket
            && spec_save(s, pad, scope, bucket)[i].pad == pad,
        stored_in(spec_save(s, pad, scope, bucket), scope, pad.metadata.id, bucket),
{
    lemma_find_pad_some(s, scope, pad.metadata.id);
    match find_pad(s, scope, pad.metadata.id) {
        Some(i) => {
            let e = StoredV { scope, bucket, pad, ext: s[i].ext };
            lemma_find_pad_update(s, scope, pad.metadata.id, i, e);
        },
        None => {
            let e = StoredV { scope, bucket, pad, ext: default_ext() };
            assert(s.push(e).drop_last() =~= s);
        },
    }
}

proof fn lemma_find_pad_update(s: Seq<StoredV>, scope: Scope, id: u128, i: int, e: StoredV)
    requires
        find_pad(s, scope, id) == Some(i),
        e.scope == scope,
        e.pad.metadata.id == id,
    ensures
        find_pad(s.update(i, e), scope, id) == Some(i),
    decreases s.len(),
{
    lemma_find_pad_some(s, scope, id);
    let t = s.update(i, e);
    if i == s.len() - 1 {
        assert(t.drop_last() =~= s.drop_last());
    } else {
        assert(t.drop_last() =~= s.drop_last().update(i, e));
        lemma_find_pad_update(s.drop_last(), scope, id, i, e);
    }
}

proof fn lemma_find_pad_other_update(s: Seq<StoredV>, scope: Scope, id: u128, i: int, e: StoredV)
    requires
        0 <= i < s.len(),
        !(s[i].scope == scope && s[i].pad.metadata.id == id),
        !(e.scope == scope && e.pad.metadata.id == id),
    ensures
        find_pad(s.update(i, e), scope, id) == find_pad(s, scope, id),
    decreases s.len(),
{
    let t = s.update(i, e);
    if i == s.len() - 1 {
        assert(t.drop_last() =~= s.drop_last());
    } else {
        assert(t.drop_last() =~= s.drop_last().update(i, e));
        lemma_find_pad_other_update(s.drop_last(), scope, id, i, e);
    }
}

/// Saving a pad changes nothing for any other pad: every pad with another
/// id, or of another scope, is found where it was, unchanged.
pub proof fn lemma_save_keeps_others(s: Seq<StoredV>, pad: PadV, scope: Scope, bucket: Bucket, other_scope: Scope, id: u128)
    requires
        !(other_scope == scope && id == pad.metadata.id),
    ensures
        find_pad(spec_save(s, pad, scope, bucket), other_scope, id) == find_pad(s, other_scope, id),
        find_pad(s, other_scope, id) matches Some(i) ==> spec_save(s, pad, scope, bucket)[i] == s[i],
{
    lemma_find_pad_some(s, scope, pad.metadata.id);
    lemma_find_pad_some(s, other_scope, id);
    match find_pad(s, scope, pad.metadata.id) {
        Some(i) => {
            let e = StoredV { scope, bucket, pad, ext: s[i].ext };
            lemma_find_pad_other_update(s, other_scope, id, i, e);
        },
        None => {
            let e = StoredV { scope, bucket, pad, ext: default_ext() };
            assert(s.push(e).drop_last() =~= s);
        },
    }
}

/// The store and the number of recovered files after indexing again, in
/// order, each loose content file of `scope` whose id no pad of the scope
/// has and whose text has a title: as a new pad with that id, created at
/// `now`, titled and filled from the text, in the file's bucket.
pub open spec fn recovered(s: Seq<StoredV>, l: Seq<LooseV>, scope: Scope, now: i64) -> (Seq<StoredV>, nat)
    decreases l.len(),
{
    if l.len() == 0 {
        (s, 0)
    } else {
        let (t, n) = recovered(s, l.drop_last(), scope, now);
        let o = l.last();
        if o.scope == scope && find_pad(t, scope, o.id) is None {
            match crate::model::spec_title_and_body(o.content) {
                Some((title, body)) => (
                    spec_save(t, crate::model::new_pad_value(o.id, now, title, body), scope, o.bucket),
                    n + 1,
                ),
                None => (t, n),
            }
        } else {
            (t, n)
        }
    }
}

impl Store {
    #[verifier::type_invariant]
    closed spec fn inv(&self) -> bool {
        ids_unique(stored_view(self.entries@))
    }

    /// An empty store.
    pub fn new() -> (r: Store)
        ensures
            r@ == Seq::<StoredV>::empty(),
    {
        let r = Store { entries: Vec::new(), loose: Vec::new() };
        proof {
            assert(stored_view(r.entries@) =~= Seq::<StoredV>::empty());
        }
        r
    }

    /// The pads of `scope` in `bucket`, in store order.
    pub fn list_pads(&self, scope: Scope, bucket: Bucket) -> (r: Result<Vec<Pad>, PadzError>)
        ensures
            r matches Ok(v) && pads_view(v@) == listed(self@, scope, bucket),
    {
        let mut out: Vec<Pad> = Vec::new();
        let mut i: usize = 0;
        while i < self.entries.len()
            invariant
                i <= self.entries.len(),
                pads_view(out@) == listed(stored_view(self.entries@.take(i as int)), scope, bucket),
            decreases self.entries.len() - i,
        {
            let ghost before = out@;
            let e = &self.entries[i];
            proof {
                assert(stored_view(self.entries@.take(i + 1)) =~= stored_view(self.entries@.take(i as int)).push(self.entries@[i as int]@));
                lemma_listed_push(stored_view(self.entries@.take(i as int)), self.entries@[i as int]@, scope, bucket);
            }
            if e.scope == scope && e.bucket == bucket {
                out.push(e.pad.duplicate());
                proof {
                    assert(pads_view(out@) =~= pads_view(before).push(e.pad@));
                }
            }
            i += 1;
        }
        proof {
            assert(self.entries@.take(self.entries@.len() as int) =~= self.entries@);
        }
        Ok(out)
    }

    /// Position of the pad with this id in this scope.
    fn position(&self, scope: Scope, id: u128) -> (r: Option<usize>)
        ensures
            match r {
                Some(i) => find_pad(self@, scope, id) == Some(i as int) && i < self@.len(),
                None => find_pad(self@, scope, id) is None,
            },
            self@.len() == self.entries@.len(),
    {
        proof {
            use_type_invariant(self);
        }
        let mut i: usize = 0;
        while i < self.entries.len()
            invariant
                i <= self.entries.len(),
                ids_unique(self@),
                self@ == stored_view(self.entries@),
                forall|j: int| 0 <= j < i ==> !(#[trigger] self@[j].scope == scope && self@[j].pad.metadata.id == id),
            decreases self.entries.len() - i,
        {
            if self.entries[i].scope == scope && self.entries[i].pad.metadata.id == id {
                proof {
                    lemma_find_pad_unique(self@, scope, id, i as int);
                }
                return Some(i);
            }
            i += 1;
        }
        proof {
            lemma_find_pad_some(self@, scope, id);
        }
        None
    }

    /// Whether the pad is stored in this scope and bucket.
    pub fn contains(&self, id: u128, scope: Scope, bucket: Bucket) -> (r: bool)
        ensures
            r == stored_in(self@, scope, id, bucket),
    {
        match self.position(scope, id) {
            Some(i) => self.entries[i].bucket == bucket,
            None => false,
        }
    }

    /// The pad with this id in this scope and bucket.
    pub fn get_pad(&self, id: u128, scope: Scope, bucket: Bucket) -> (r: Result<Pad, PadzError>)
        ensures
            r is Ok <==> stored_in(self@, scope, id, bucket),
            r matches Ok(p) ==> p@ == self@[find_pad(self@, scope, id)->0].pad,
            r matches Err(e) ==> e matches PadzError::Store(m) && m@ == "Pad not found"@,
    {
        match self.position(scope, id) {
            Some(i) => {
                if self.entries[i].bucket == bucket {
                    return Ok(self.entries[i].pad.duplicate());
                }
            },
            None => {},
        }
        let m = "Pad not found".to_string();
        proof {
            vstd::string::to_string_from_display_ensures_for_str("Pad not found", m);
        }
        Err(PadzError::Store(m))
    }

    /// Saves a pad into `bucket` of `scope` (see [`spec_save`]).
    pub fn save_pad(&mut self, pad: &Pad, scope: Scope, bucket: Bucket) -> (r: Result<(), PadzError>)
        ensures
            r is Ok,
            final(self)@ == spec_save(old(self)@, pad@, scope, bucket),
    {
        proof {
            use_type_invariant(&*self);
        }
        let ghost s = self@;
        match self.position(scope, pad.metadata.id) {
            Some(i) => {
                let ext = string_from_chars(&crate::text::chars_of(self.entries[i].ext.as_str()));
                let e = StoredPad { scope, bucket, pad: pad.duplicate(), ext };
                proof {
                    lemma_find_pad_some(s, scope, pad.metadata.id);
                    assert(stored_view(self.entries@.update(i as int, e)) =~= s.update(i as int, e@));
                    assert(ids_unique(s.update(i as int, e@)));
                }
                let mut entries: Vec<StoredPad> = Vec::new();
                std::mem::swap(&mut entries, &mut self.entries);
                entries.set(i, e);
                self.entries = entries;
            },
            None => {
                let e = StoredPad { scope, bucket, pad: pad.duplicate(), ext: string_from_chars(&lit("txt")) };
                proof {
                    reveal_strlit("txt");
                    lemma_find_pad_some(s, scope, pad.metadata.id);
                    assert(stored_view(self.entries@.push(e)) =~= s.push(e@));
                    assert(ids_unique(s.push(e@)));
                }
                let mut entries: Vec<StoredPad> = Vec::new();
                std::mem::swap(&mut entries, &mut self.entries);
                entries.push(e);
                self.entries = entries;
            },
        }
        Ok(())
    }

    /// Moves the listed pads of `scope` from bucket `from` to bucket `to`;
    /// ids not stored in `from` are left alone.
    pub fn move_pads(&mut self, ids: &Vec<u128>, scope: Scope, from: Bucket, to: Bucket) -> (r: Result<(), PadzError>)
        ensures
            r is Ok,
            final(self)@ == spec_move(old(self)@, ids@, scope, from, to),
    {
        proof {
            use_type_invariant(&*self);
        }
        let ghost s = self@;
        let mut entries: Vec<StoredPad> = Vec::new();
                std::mem::swap(&mut entries, &mut self.entries);
        let mut i: usize = 0;
        while i < entries.len()
            invariant
                i <= entries.len(),
                entries@.len() == s.len(),
                forall|j: int| 0 <= j < i ==> (#[trigger] stored_view(entries@)[j]) == spec_move(s, ids@, scope, from, to)[j],
                forall|j: int| i <= j < entries@.len() ==> (#[trigger] stored_view(entries@)[j]) == s[j],
            decreases entries.len() - i,
        {
            let ghost before = entries@;
            if entries[i].scope == scope && entries[i].bucket == from && contains_id(ids, entries[i].pad.metadata.id) {
                entries[i].bucket = to;
            }
            proof {
                assert(stored_view(before)[i as int] == s[i as int]);
                assert(stored_view(entries@)[i as int] == spec_move(s, ids@, scope, from, to)[i as int]);
                assert forall|j: int| 0 <= j < entries@.len() && j != i implies #[trigger] stored_view(entries@)[j] == stored_view(before)[j] by {
                    assert(entries@[j] == before[j]);
                }
            }
            i += 1;
        }
        proof {
            assert(stored_view(entries@) =~= spec_move(s, ids@, scope, from, to));
            assert(ids_unique(spec_move(s, ids@, scope, from, to)));
        }
        self.entries = entries;
        Ok(())
    }

    /// Permanently removes the pad with this id from `bucket` of `scope`.
    pub fn delete_pad(&mut self, id: u128, scope: Scope, bucket: Bucket) -> (r: Result<(), PadzError>)
        ensures
            r is Ok <==> stored_in(old(self)@, scope, id, bucket),
            r is Ok ==> final(self)@ == old(self)@.remove(find_pad(old(self)@, scope, id)->0),
            r is Err ==> final(self)@ == old(self)@,
    {
        proof {
            use_type_invariant(&*self);
        }
        let ghost s = self@;
        match self.position(scope, id) {
            Some(i) => {
                if self.entries[i].bucket == bucket {
                    proof {
                        lemma_find_pad_some(s, scope, id);
                        assert(stored_view(self.entries@.remove(i as int)) =~= s.remove(i as int));
                        assert(ids_unique(s.remove(i as int)));
                    }
                    let mut entries: Vec<StoredPad> = Vec::new();
                std::mem::swap(&mut entries, &mut self.entries);
                    entries.remove(i);
                    self.entries = entries;
                    Ok(())
                } else {
                    Err(PadzError::Store("Pad not found".to_string()))
                }
            },
            None => Err(PadzError::Store("Pad not found".to_string())),
        }
    }

    /// The extension of the file of the pad with this id in `scope`.
    pub fn file_extension(&self, id: u128, scope: Scope) -> (r: Option<String>)
        ensures
            r is Some <==> find_pad(self@, scope, id) is Some,
            r matches Some(e) ==> e@ == stored_ext(self@, scope, id),
    {
        match self.position(scope, id) {
            Some(i) => Some(string_from_chars(&crate::text::chars_of(self.entries[i].ext.as_str()))),
            None => None,
        }
    }

    /// The content files that no index entry names, in the order written.
    pub closed spec fn spec_loose(&self) -> Seq<LooseV> {
        loose_view(self.loose@)
    }

    /// Keeps the file of the pad with this id (in `scope`) under the
    /// extension `ext` from now on; refused for an unknown pad or an
    /// extension that is empty or holds a dot or a slash.
    pub fn set_extension(&mut self, id: u128, scope: Scope, ext: &str) -> (r: Result<(), PadzError>)
        ensures
            r is Ok <==> (find_pad(old(self)@, scope, id) is Some && valid_ext(ext@)),
            r is Ok ==> final(self)@ == old(self)@.update(
                find_pad(old(self)@, scope, id)->0,
                StoredV { ext: ext@, ..old(self)@[find_pad(old(self)@, scope, id)->0] },
            ),
            r is Err ==> final(self)@ == old(self)@,
            final(self).spec_loose() == old(self).spec_loose(),
    {
        proof {
            use_type_invariant(&*self);
        }
        let ghost s = self@;
        let e = crate::text::chars_of(ext);
        if e.len() == 0 {
            return Err(PadzError::Api("Invalid file extension".to_string()));
        }
        let mut k: usize = 0;
        while k < e.len()
            invariant
                k <= e.len(),
                e@ == ext@,
                forall|j: int| 0 <= j < k ==> #[trigger] e@[j] != '.' && e@[j] != '/',
            decreases e.len() - k,
        {
            if e[k] == '.' || e[k] == '/' {
                return Err(PadzError::Api("Invalid file extension".to_string()));
            }
            k += 1;
        }
        let i = match self.position(scope, id) {
            Some(i) => i,
            None => return Err(PadzError::Store("Pad not found".to_string())),
        };
        let entry = StoredPad {
            scope: self.entries[i].scope,
            bucket: self.entries[i].bucket,
            pad: self.entries[i].pad.duplicate(),
            ext: string_from_chars(&e),
        };
        proof {
            lemma_find_pad_some(s, scope, id);
            assert(stored_view(self.entries@.update(i as int, entry)) =~= s.update(i as int, entry@));
            assert(ids_unique(s.update(i as int, entry@)));
        }
        let mut entries: Vec<StoredPad> = Vec::new();
        std::mem::swap(&mut entries, &mut self.entries);
        entries.set(i, entry);
        self.entries = entries;
        Ok(())
    }

    /// Writes `content` as the content file of the pad with this id in
    /// `bucket` of `scope`: the stored pad's content when it is stored there,
    /// otherwise a content file that no index entry names.
    pub fn write_content(&mut self, id: u128, scope: Scope, bucket: Bucket, content: &str)
        ensures
            stored_in(old(self)@, scope, id, bucket) ==> final(self)@ == old(self)@.update(
                find_pad(old(self)@, scope, id)->0,
                StoredV {
                    pad: PadV { content: content@, ..old(self)@[find_pad(old(self)@, scope, id)->0].pad },
                    ..old(self)@[find_pad(old(self)@, scope, id)->0]
                },
            ) && final(self).spec_loose() == old(self).spec_loose(),
            !stored_in(old(self)@, scope, id, bucket) ==> final(self)@ == old(self)@ && final(self).spec_loose()
                == old(self).spec_loose().push(LooseV { scope, bucket, id, content: content@ }),
    {
        proof {
            use_type_invariant(&*self);
        }
        let ghost s = self@;
        let text = string_from_chars(&crate::text::chars_of(content));
        match self.position(scope, id) {
            Some(i) => {
                if self.entries[i].bucket == bucket {
                    let mut pad = self.entries[i].pad.duplicate();
                    pad.content = text;
                    let entry = StoredPad {
                        scope: self.entries[i].scope,
                        bucket: self.entries[i].bucket,
                        pad,
                        ext: string_from_chars(&crate::text::chars_of(self.entries[i].ext.as_str())),
                    };
                    proof {
                        lemma_find_pad_some(s, scope, id);
                        assert(stored_view(self.entries@.update(i as int, entry)) =~= s.update(i as int, entry@));
                        assert(ids_unique(s.update(i as int, entry@)));
                    }
                    let mut entries: Vec<StoredPad> = Vec::new();
                    std::mem::swap(&mut entries, &mut self.entries);
                    entries.set(i, entry);
                    self.entries = entries;
                    return;
                }
            },
            None => {},
        }
        let ghost l0 = self.loose@;
        let mut loose: Vec<LooseContent> = Vec::new();
        std::mem::swap(&mut loose, &mut self.loose);
        loose.push(LooseContent { scope, bucket, id, content: text });
        self.loose = loose;
        proof {
            assert(loose_view(self.loose@) =~= loose_view(l0).push(LooseV { scope, bucket, id, content: content@ }));
        }
    }

    /// Reconciles the index of `scope` with its content files, at the time
    /// `now` (see [`recovered`]): every content file of the scope that no
    /// index entry names and that holds a title is indexed again as a new
    /// pad with its id, and the scope's loose files are then gone. An index
    /// entry of this store always has its content, so none is ever dropped.
    pub fn doctor(&mut self, scope: Scope) -> (r: Result<DoctorReport, PadzError>)
        ensures
            r matches Ok(rep) && rep.fixed_missing_files == 0 && exists|now: i64|
                #[trigger] recovered(old(self)@, old(self).spec_loose(), scope, now) == (final(self)@, rep.recovered_files as nat),
            final(self).spec_loose() == old(self).spec_loose().filter(|o: LooseV| o.scope != scope),
    {
        proof {
            use_type_invariant(&*self);
        }
        let now = crate::model::now_millis();
        let ghost s0 = self@;
        let ghost l = self.spec_loose();
        let mut loose: Vec<LooseContent> = Vec::new();
        std::mem::swap(&mut loose, &mut self.loose);
        let mut kept: Vec<LooseContent> = Vec::new();
        let mut count: usize = 0;
        let mut i: usize = 0;
        proof {
            assert(l.take(0) =~= Seq::<LooseV>::empty());
            assert(loose_view(kept@) =~= l.take(0).filter(|o: LooseV| o.scope != scope));
        }
        while i < loose.len()
            invariant
                l == loose_view(loose@),
                i <= loose.len(),
                count <= i,
                recovered(s0, l.take(i as int), scope, now) == (self@, count as nat),
                loose_view(kept@) == l.take(i as int).filter(|o: LooseV| o.scope != scope),
            decreases loose.len() - i,
        {
            proof {
                assert(l.take(i + 1).drop_last() =~= l.take(i as int));
                assert(l.take(i + 1).last() == l[i as int]);
                assert(l[i as int] == loose@[i as int]@);
            }
            let ghost before = kept@;
            if loose[i].scope == scope {
                let id = loose[i].id;
                let mut stored = false;
                if self.contains(id, scope, Bucket::Active) || self.contains(id, scope, Bucket::Archived)
                    || self.contains(id, scope, Bucket::Deleted) {
                    stored = true;
                }
                proof {
                    if !stored && find_pad(self@, scope, id) is Some {
                        let j = find_pad(self@, scope, id)->0;
                        assert(stored_in(self@, scope, id, self@[j].bucket));
                    }
                }
                if !stored {
                    match crate::model::extract_title_and_body(loose[i].content.as_str()) {
                        Some((title, body)) => {
                            let pad = Pad::with_identity(id, now, title, body);
                            let bucket = loose[i].bucket;
                            match self.save_pad(&pad, scope, bucket) {
                                Ok(()) => {},
                                Err(e) => {
                                    proof {
                                        assert(false);
                                    }
                                },
                            }
                            count = count + 1;
                        },
                        None => {},
                    }
                }
                proof {
                    assert(l.take(i + 1).filter(|o: LooseV| o.scope != scope) =~= l.take(i as int).filter(
                        |o: LooseV| o.scope != scope,
                    )) by {
                        reveal(Seq::filter);
                        assert(l.take(i + 1).drop_last() =~= l.take(i as int));
                    }
                }
            } else {
                let o = LooseContent {
                    scope: loose[i].scope,
                    bucket: loose[i].bucket,
                    id: loose[i].id,
                    content: string_from_chars(&crate::text::chars_of(loose[i].content.as_str())),
                };
                kept.push(o);
                proof {
                    assert(loose_view(kept@) =~= loose_view(before).push(l[i as int]));
                    assert(l.take(i + 1).filter(|o: LooseV| o.scope != scope) =~= l.take(i as int).filter(
                        |o: LooseV| o.scope != scope,
                    ).push(l[i as int])) by {
                        reveal(Seq::filter);
                        assert(l.take(i + 1).drop_last() =~= l.take(i as int));
                    }
                }
            }
            i += 1;
        }
        proof {
            assert(l.take(loose.len() as int) =~= l);
            use_type_invariant(&*self);
        }
        self.loose = kept;
        Ok(DoctorReport { fixed_missing_files: 0, recovered_files: count })
    }

    /// The path of the pad's file, when stored in this scope and bucket.
    pub fn get_pad_path(&self, id: u128, scope: Scope, bucket: Bucket) -> (r: Result<String, PadzError>)
        ensures
            r is Ok <==> stored_in(self@, scope, id, bucket),
            r matches Ok(p) ==> p@ == stored_path(self@, scope, bucket, id),
    {
        if !self.contains(id, scope, bucket) {
            return Err(PadzError::Store("Pad not found".to_string()));
        }
        let mut r = match scope {
            Scope::Project => lit("project"),
            Scope::Global => lit("global"),
        };
        r.push('/');
        let b = match bucket {
            Bucket::Active => lit("active"),
            Bucket::Archived => lit("archived"),
            Bucket::Deleted => lit("deleted"),
        };
        append_chars(&mut r, &b);
        append_chars(&mut r, &lit("/pad-"));
        append_chars(&mut r, &uuid_hyphenated_chars(id));
        r.push('.');
        let i = match self.position(scope, id) {
            Some(i) => i,
            None => {
                return Err(PadzError::Store("Pad not found".to_string()));
            },
        };
        append_chars(&mut r, &crate::text::chars_of(self.entries[i].ext.as_str()));
        proof {
            reveal_strlit("project");
            reveal_strlit("global");
            reveal_strlit("active");
            reveal_strlit("archived");
            reveal_strlit("deleted");
            reveal_strlit("/pad-");
            assert(r@ =~= stored_path(self@, scope, bucket, id));
        }
        Ok(string_from_chars(&r))
    }
}

fn contains_id(ids: &Vec<u128>, id: u128) -> (r: bool)
    ensures
        r == ids@.contains(id),
{
    let mut i: usize = 0;
    while i < ids.len()
        invariant
            i <= ids.len(),
            forall|j: int| 0 <= j < i ==> ids@[j] != id,
        decreases ids.len() - i,
    {
        if ids[i] == id {
            proof {
                assert(ids@[i as int] == id);
            }
            return true;
        }
        i += 1;
    }
    false
}

/// The indexed forest of a scope.
pub open spec fn spec_indexed(s: Seq<StoredV>, scope: Scope) -> Seq<crate::tree::DisplayPadV> {
    spec_index_pads(
        listed(s, scope, Bucket::Active),
        listed(s, scope, Bucket::Archived),
        listed(s, scope, Bucket::Deleted),
    )
}

/// Lists all pads of a scope and arranges them into the indexed forest.
pub fn indexed_pads(store: &Store, scope: Scope) -> (r: Result<Vec<DisplayPad>, PadzError>)
    ensures
        r matches Ok(v) && dps_view(v@) == spec_indexed(store@, scope),
{
    let active = match store.list_pads(scope, Bucket::Active) {
        Ok(v) => v,
        Err(e) => return Err(e),
    };
    let archived = match store.list_pads(scope, Bucket::Archived) {
        Ok(v) => v,
        Err(e) => return Err(e),
    };
    let deleted = match store.list_pads(scope, Bucket::Deleted) {
        Ok(v) => v,
        Err(e) => return Err(e),
    };
    Ok(index_pads(active, archived, deleted))
}

} // verus!
