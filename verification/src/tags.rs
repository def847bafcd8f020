//! The tag registry: the tags known in each scope, with their creation time.
use vstd::prelude::*;
use crate::error::PadzError;
use crate::model::Scope;

verus! {

/// A registered tag.
#[derive(Debug)]
pub struct TagEntry {
    pub name: String,
    /// Creation time in milliseconds since the Unix epoch.
    pub created_at: i64,
}

pub struct TagEntryV {
    pub name: Seq<char>,
    pub created_at: i64,
}

impl View for TagEntry {
    type V = TagEntryV;

    open spec fn view(&self) -> TagEntryV {
        TagEntryV { name: self.name@, created_at: self.created_at }
    }
}

pub open spec fn tags_view(v: Seq<TagEntry>) -> Seq<TagEntryV> {
    v.map_values(|t: TagEntry| t@)
}

/// The registries of both scopes.
#[derive(Debug)]
pub struct TagRegistry {
    project: Vec<TagEntry>,
    global: Vec<TagEntry>,
}

impl TagRegistry {
    /// The registered tags of a scope, in order.
    pub closed spec fn tags_of(&self, scope: Scope) -> Seq<TagEntryV> {
        match scope {
            Scope::Project => tags_view(self.project@),
            Scope::Global => tags_view(self.global@),
        }
    }

    /// Empty registries.
    pub fn new() -> (r: TagRegistry)
        ensures
            r.tags_of(Scope::Project) == Seq::<TagEntryV>::empty(),
            r.tags_of(Scope::Global) == Seq::<TagEntryV>::empty(),
    {
        let r = TagRegistry { project: Vec::new(), global: Vec::new() };
        proof {
            assert(tags_view(r.project@) =~= Seq::<TagEntryV>::empty());
            assert(tags_view(r.global@) =~= Seq::<TagEntryV>::empty());
        }
        r
    }

    /// The registered tags of a scope.
    pub fn load_tags(&self, scope: Scope) -> (r: Result<Vec<TagEntry>, PadzError>)
        ensures
            r matches Ok(v) && tags_view(v@) == self.tags_of(scope),
    {
        let src = match scope {
            Scope::Project => &self.project,
            Scope::Global => &self.global,
        };
        let mut out: Vec<TagEntry> = Vec::new();
        let mut i: usize = 0;
        while i < src.len()
            invariant
                i <= src.len(),
                tags_view(out@) == tags_view(src@).take(i as int),
            decreases src.len() - i,
        {
            let ghost before = out@;
            out.push(TagEntry { name: src[i].name.clone(), created_at: src[i].created_at });
            proof {
                assert(tags_view(out@) =~= tags_view(before).push(src@[i as int]@));
                assert(tags_view(src@).take(i + 1) =~= tags_view(src@).take(i as int).push(tags_view(src@)[i as int]));
            }
            i += 1;
        }
        proof {
            assert(tags_view(src@).take(src.len() as int) =~= tags_view(src@));
        }
        Ok(out)
    }

    /// Replaces the registered tags of a scope.
    pub fn save_tags(&mut self, scope: Scope, tags: Vec<TagEntry>) -> (r: Result<(), PadzError>)
        ensures
            r is Ok,
            final(self).tags_of(scope) == tags_view(tags@),
            forall|other: Scope| other != scope ==> final(self).tags_of(other) == old(self).tags_of(other),
    {
        match scope {
            Scope::Project => {
                self.project = tags;
            },
            Scope::Global => {
                self.global = tags;
            },
        }
        Ok(())
    }
}

} // verus!
