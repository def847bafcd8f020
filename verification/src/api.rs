//! The entry point for clients: a thin facade over the commands.
//!
//! Each method reads its selector strings (see
//! [`crate::selectors::parse_selectors`]) and dispatches to one command; its
//! contract is that command's contract on the parsed selectors.
use vstd::prelude::*;
use crate::commands::create::{create_outcome, opt_selector_view};
use crate::commands::doctor::DoctorOutcome;
use crate::commands::get::{listing_outcome, PadFilter};
use crate::commands::init::InitializationOutcome;
use crate::commands::move_pads::{dest_view, move_outcome};
use crate::commands::paths::paths_outcome;
use crate::commands::pinning::pin_outcome;
use crate::commands::purge::{purge_result, PurgeOutcome};
use crate::commands::relocate::relocation_outcome;
use crate::commands::status::status_outcome;
use crate::commands::{create, doctor, get, init, move_pads, paths, pinning, purge, status, archive, delete, CmdResult,
    NestingMode, PadzPaths};
use crate::error::PadzError;
use crate::export::{archive_outcome, single_file_outcome, ExportOutcome};
use crate::import::{import_status, input_reported, inputs_bound, inputs_effect, reports_total, reports_view, ImportInput,
    ImportReport};
use crate::tags::{TagEntryV, TagRegistry};
use crate::index::{parse_index_or_range, spec_parse_selector, PadSelector, SelectorV};
use crate::model::{compose_content, spec_title_and_body, Bucket, MetadataV, Pad, PadV, Scope, TodoStatus};
use crate::selectors::{parse_selectors, spec_parse_selectors, strs_view};
use crate::store::{find_pad, spec_save, stored_in, Store, StoredV};
use crate::text::{chars_of, trim, trim_chars};

verus! {

/// The selectors that selector strings stand for.
pub open spec fn api_selectors(ids: Seq<&str>) -> Seq<SelectorV> {
    spec_parse_selectors(strs_view(ids))
}

/// The parent a parent string names: none without a string; the selector
/// it reads as; an error when it reads as none.
pub open spec fn parent_selector(parent: Option<&str>) -> Result<Option<SelectorV>, ()> {
    match parent {
        None => Ok(None),
        Some(p) => match spec_parse_selector(p@) {
            Some(sel) => Ok(Some(sel)),
            None => Err(()),
        },
    }
}

/// The destination a destination string names: the root without a string
/// or with a blank one; otherwise the selector it reads as, or an error.
pub open spec fn destination_selector(to_parent: Option<&str>) -> Result<Option<SelectorV>, ()> {
    match to_parent {
        None => Ok(None),
        Some(p) => if trim(p@).len() == 0 {
            Ok(None)
        } else {
            match spec_parse_selector(p@) {
                Some(sel) => Ok(Some(sel)),
                None => Err(()),
            }
        },
    }
}

/// A pad re-read at time `now`: title and body taken from its content, or
/// unchanged when the content is blank.
pub open spec fn refreshed(p: PadV, now: i64) -> PadV {
    match spec_title_and_body(p.content) {
        Some((t, b)) => PadV { metadata: MetadataV { title: t, updated_at: now, ..p.metadata }, content: compose_content(t, b) },
        None => p,
    }
}

/// The facade: a store, its tag registry, and the locations it works
/// against.
pub struct PadzApi {
    store: Store,
    tags: TagRegistry,
    paths: PadzPaths,
}

impl View for PadzApi {
    type V = Seq<StoredV>;

    closed spec fn view(&self) -> Seq<StoredV> {
        self.store@
    }
}

fn read_parent(p: &str) -> (r: Result<PadSelector, PadzError>)
    ensures
        match spec_parse_selector(p@) {
            Some(sel) => r matches Ok(x) && x@ == sel,
            None => r matches Err(e) && e is Api,
        },
{
    match parse_index_or_range(p) {
        Ok(sel) => Ok(sel),
        Err(e) => Err(PadzError::Api(e.message())),
    }
}

impl PadzApi {
    /// The locations of this facade.
    pub closed spec fn spec_paths(&self) -> PadzPaths {
        self.paths
    }

    /// The content files of the store that no index entry names.
    pub closed spec fn spec_loose(&self) -> Seq<crate::store::LooseV> {
        self.store.spec_loose()
    }

    /// The tag registry of this facade.
    pub closed spec fn spec_tags(&self) -> TagRegistry {
        self.tags
    }

    /// A facade over `store` and `paths`.
    pub fn new(store: Store, paths: PadzPaths) -> (r: PadzApi)
        ensures
            r@ == store@,
            r.spec_paths() == paths,
            r.spec_tags().tags_of(Scope::Project) == Seq::<TagEntryV>::empty(),
            r.spec_tags().tags_of(Scope::Global) == Seq::<TagEntryV>::empty(),
    {
        PadzApi { store, tags: TagRegistry::new(), paths }
    }

    /// The locations this facade works against.
    pub fn paths(&self) -> (r: &PadzPaths)
        ensures
            *r == self.spec_paths(),
    {
        &self.paths
    }

    /// Creates a pad, under the pad a parent string names (see
    /// [`create_outcome`] and [`parent_selector`]).
    pub fn create_pad(&mut self, scope: Scope, title: String, content: String, parent: Option<&str>) -> (r: Result<
        CmdResult,
        PadzError,
    >)
        ensures
            final(self).spec_tags() == old(self).spec_tags(),
            final(self).spec_paths() == old(self).spec_paths(),
            match parent_selector(parent) {
                Err(_) => r matches Err(e) && e is Api && final(self)@ == old(self)@,
                Ok(sel) => create_outcome(old(self)@, final(self)@, scope, title@, content@, sel, r),
            },
    {
        let parent_sel = match parent {
            Some(p) => match read_parent(p) {
                Ok(sel) => Some(sel),
                Err(e) => return Err(e),
            },
            None => None,
        };
        create::run(&mut self.store, scope, title, content, parent_sel)
    }

    /// Lists pads, all of them without selector strings (see
    /// [`listing_outcome`]).
    pub fn get_pads(&self, scope: Scope, filter: PadFilter, ids: &Vec<&str>) -> (r: Result<CmdResult, PadzError>)
        ensures
            listing_outcome(self@, scope, filter, api_selectors(ids@), r),
    {
        let selectors = if ids.len() == 0 {
            proof {
                assert(strs_view(ids@) =~= Seq::<Seq<char>>::empty());
                assert(api_selectors(ids@) =~= Seq::<SelectorV>::empty());
            }
            Vec::new()
        } else {
            match parse_selectors(ids) {
                Ok(v) => v,
                Err(e) => return Err(e),
            }
        };
        proof {
            assert(crate::resolve::selectors_view(selectors@) == api_selectors(ids@));
        }
        get::run(&self.store, scope, filter, &selectors)
    }

    /// Deletes the selected pads (see [`relocation_outcome`]).
    pub fn delete_pads(&mut self, scope: Scope, ids: &Vec<&str>) -> (r: Result<CmdResult, PadzError>)
        ensures
            final(self).spec_tags() == old(self).spec_tags(),
            final(self).spec_paths() == old(self).spec_paths(),
            relocation_outcome(old(self)@, final(self)@, scope, api_selectors(ids@), true, Bucket::Deleted, r),
    {
        let selectors = match parse_selectors(ids) {
            Ok(v) => v,
            Err(e) => return Err(e),
        };
        delete::run(&mut self.store, scope, &selectors)
    }

    /// Archives the selected pads (see [`relocation_outcome`]).
    pub fn archive_pads(&mut self, scope: Scope, ids: &Vec<&str>) -> (r: Result<CmdResult, PadzError>)
        ensures
            final(self).spec_tags() == old(self).spec_tags(),
            final(self).spec_paths() == old(self).spec_paths(),
            relocation_outcome(old(self)@, final(self)@, scope, api_selectors(ids@), false, Bucket::Archived, r),
    {
        let selectors = match parse_selectors(ids) {
            Ok(v) => v,
            Err(e) => return Err(e),
        };
        archive::run(&mut self.store, scope, &selectors)
    }

    /// Pins the selected pads now (see [`pin_outcome`]).
    pub fn pin_pads(&mut self, scope: Scope, ids: &Vec<&str>) -> (r: Result<CmdResult, PadzError>)
        ensures
            final(self).spec_tags() == old(self).spec_tags(),
            final(self).spec_paths() == old(self).spec_paths(),
            exists|now: i64| pin_outcome(old(self)@, final(self)@, scope, api_selectors(ids@), true, now, r),
    {
        let ghost s0 = self@;
        let selectors = match parse_selectors(ids) {
            Ok(v) => v,
            Err(e) => return Err(e),
        };
        let r = pinning::pin(&mut self.store, scope, &selectors);
        proof {
            let now = choose|now: i64| pin_outcome(s0, self@, scope, crate::resolve::selectors_view(selectors@), true, now, r);
            assert(pin_outcome(s0, self@, scope, api_selectors(ids@), true, now, r));
        }
        r
    }

    /// Unpins the selected pads now (see [`pin_outcome`]).
    pub fn unpin_pads(&mut self, scope: Scope, ids: &Vec<&str>) -> (r: Result<CmdResult, PadzError>)
        ensures
            final(self).spec_tags() == old(self).spec_tags(),
            final(self).spec_paths() == old(self).spec_paths(),
            exists|now: i64| pin_outcome(old(self)@, final(self)@, scope, api_selectors(ids@), false, now, r),
    {
        let ghost s0 = self@;
        let selectors = match parse_selectors(ids) {
            Ok(v) => v,
            Err(e) => return Err(e),
        };
        let r = pinning::unpin(&mut self.store, scope, &selectors);
        proof {
            let now = choose|now: i64| pin_outcome(s0, self@, scope, crate::resolve::selectors_view(selectors@), false, now, r);
            assert(pin_outcome(s0, self@, scope, api_selectors(ids@), false, now, r));
        }
        r
    }

    /// Marks the selected pads done (see [`status_outcome`]).
    pub fn complete_pads(&mut self, scope: Scope, ids: &Vec<&str>) -> (r: Result<CmdResult, PadzError>)
        ensures
            final(self).spec_tags() == old(self).spec_tags(),
            final(self).spec_paths() == old(self).spec_paths(),
            status_outcome(old(self)@, final(self)@, scope, api_selectors(ids@), TodoStatus::Done, r),
    {
        let selectors = match parse_selectors(ids) {
            Ok(v) => v,
            Err(e) => return Err(e),
        };
        status::complete(&mut self.store, scope, &selectors)
    }

    /// Reopens the selected pads (see [`status_outcome`]).
    pub fn reopen_pads(&mut self, scope: Scope, ids: &Vec<&str>) -> (r: Result<CmdResult, PadzError>)
        ensures
            final(self).spec_tags() == old(self).spec_tags(),
            final(self).spec_paths() == old(self).spec_paths(),
            status_outcome(old(self)@, final(self)@, scope, api_selectors(ids@), TodoStatus::Planned, r),
    {
        let selectors = match parse_selectors(ids) {
            Ok(v) => v,
            Err(e) => return Err(e),
        };
        status::reopen(&mut self.store, scope, &selectors)
    }

    /// Moves the selected pads under the pad a destination string names, or
    /// to the root (see [`move_outcome`] and [`destination_selector`]).
    pub fn move_pads(&mut self, scope: Scope, ids: &Vec<&str>, to_parent: Option<&str>) -> (r: Result<
        CmdResult,
        PadzError,
    >)
        ensures
            final(self).spec_tags() == old(self).spec_tags(),
            final(self).spec_paths() == old(self).spec_paths(),
            match destination_selector(to_parent) {
                Err(_) => r matches Err(e) && e is Api && final(self)@ == old(self)@,
                Ok(dest) => exists|now: i64|
                    #[trigger] move_outcome(old(self)@, final(self)@, scope, api_selectors(ids@), dest, now, r),
            },
    {
        let selectors = match parse_selectors(ids) {
            Ok(v) => v,
            Err(e) => return Err(e),
        };
        let dest = match to_parent {
            Some(p) => {
                if trim_chars(&chars_of(p)).len() == 0 {
                    None
                } else {
                    match read_parent(p) {
                        Ok(sel) => Some(sel),
                        Err(e) => return Err(e),
                    }
                }
            },
            None => None,
        };
        let ghost s0 = self@;
        let r = match &dest {
            Some(d) => move_pads::run(&mut self.store, scope, &selectors, Some(d)),
            None => move_pads::run(&mut self.store, scope, &selectors, None),
        };
        proof {
            let dv = match &dest {
                Some(d) => Some(d@),
                None => None,
            };
            assert(destination_selector(to_parent) == Ok::<Option<SelectorV>, ()>(dv));
            let now = choose|now: i64|
                #[trigger] move_outcome(s0, self@, scope, crate::resolve::selectors_view(selectors@), dv, now, r);
            assert(move_outcome(s0, self@, scope, api_selectors(ids@), dv, now, r));
        }
        r
    }

    /// Permanently removes pads (see [`purge_result`]); nothing is removed
    /// without confirmation.
    pub fn purge_pads(
        &mut self,
        scope: Scope,
        ids: &Vec<&str>,
        recursive: bool,
        confirmed: bool,
        include_done: bool,
    ) -> (r: Result<PurgeOutcome, PadzError>)
        ensures
            final(self).spec_tags() == old(self).spec_tags(),
            final(self).spec_paths() == old(self).spec_paths(),
            purge_result(old(self)@, final(self)@, scope, api_selectors(ids@), recursive, confirmed, include_done, r),
    {
        let selectors = match parse_selectors(ids) {
            Ok(v) => v,
            Err(e) => return Err(e),
        };
        purge::run(&mut self.store, scope, &selectors, recursive, confirmed, include_done)
    }

    /// Checks the store of a scope (see [`doctor::run`]).
    pub fn doctor(&mut self, scope: Scope) -> (r: Result<DoctorOutcome, PadzError>)
        ensures
            final(self).spec_tags() == old(self).spec_tags(),
            final(self).spec_paths() == old(self).spec_paths(),
            r matches Ok(o) && exists|now: i64|
                #[trigger] crate::store::recovered(old(self)@, old(self).spec_loose(), scope, now).0 == final(self)@
                    && o == crate::commands::doctor::recovered_outcome(
                    crate::store::recovered(old(self)@, old(self).spec_loose(), scope, now).1,
                ),
    {
        let ghost s0 = self@;
        let ghost l0 = self.spec_loose();
        let r = doctor::run(&mut self.store, scope);
        proof {
            let now = choose|now: i64| #[trigger] crate::store::recovered(s0, l0, scope, now).0 == self.store@ && r
                == Ok::<DoctorOutcome, PadzError>(
                crate::commands::doctor::recovered_outcome(crate::store::recovered(s0, l0, scope, now).1),
            );
            assert(crate::store::recovered(s0, l0, scope, now).0 == self@);
        }
        r
    }

    /// The file paths of the selected pads (see [`paths_outcome`]).
    pub fn pad_paths(&self, scope: Scope, ids: &Vec<&str>) -> (r: Result<CmdResult, PadzError>)
        ensures
            paths_outcome(self@, scope, api_selectors(ids@), r),
    {
        let selectors = match parse_selectors(ids) {
            Ok(v) => v,
            Err(e) => return Err(e),
        };
        paths::run(&self.store, scope, &selectors)
    }

    /// The file path of an active pad, by id.
    pub fn get_path_by_id(&self, scope: Scope, id: u128) -> (r: Result<String, PadzError>)
        ensures
            r is Ok <==> stored_in(self@, scope, id, Bucket::Active),
            r matches Ok(p) ==> p@ == crate::store::stored_path(self@, scope, Bucket::Active, id),
    {
        self.store.get_pad_path(id, scope, Bucket::Active)
    }

    /// Re-reads an active pad: a blank pad is removed and `None` returned;
    /// otherwise its title and body are taken from its content, now, and it
    /// is saved and returned. A pad that is not active is a store error.
    pub fn refresh_pad(&mut self, scope: Scope, id: u128) -> (r: Result<Option<Pad>, PadzError>)
        ensures
            final(self).spec_tags() == old(self).spec_tags(),
            final(self).spec_paths() == old(self).spec_paths(),
            if stored_in(old(self)@, scope, id, Bucket::Active) {
                let i = find_pad(old(self)@, scope, id)->0;
                let p = old(self)@[i].pad;
                if trim(p.content).len() == 0 {
                    r matches Ok(None) && final(self)@ == old(self)@.remove(i)
                } else {
                    r matches Ok(Some(q)) && (exists|now: i64| #[trigger] refreshed(p, now) == q@) && final(self)@
                        == spec_save(old(self)@, q@, scope, Bucket::Active)
                }
            } else {
                r matches Err(e) && e is Store && final(self)@ == old(self)@
            },
    {
        let pad = match self.store.get_pad(id, scope, Bucket::Active) {
            Ok(p) => p,
            Err(e) => return Err(e),
        };
        if trim_chars(&chars_of(pad.content.as_str())).len() == 0 {
            match self.store.delete_pad(id, scope, Bucket::Active) {
                Ok(()) => {},
                Err(e) => return Err(e),
            }
            return Ok(None);
        }
        let mut updated = pad;
        let content = updated.content.clone();
        let now = crate::model::now_millis();
        updated.update_from_raw(content.as_str(), now);
        let ghost p = old(self)@[find_pad(old(self)@, scope, id)->0].pad;
        assert(refreshed(p, now) == updated@);
        match self.store.save_pad(&updated, scope, Bucket::Active) {
            Ok(()) => {},
            Err(e) => return Err(e),
        }
        Ok(Some(updated))
    }

    /// Removes an active pad for good.
    pub fn remove_pad(&mut self, scope: Scope, id: u128) -> (r: Result<(), PadzError>)
        ensures
            final(self).spec_tags() == old(self).spec_tags(),
            final(self).spec_paths() == old(self).spec_paths(),
            r is Ok <==> stored_in(old(self)@, scope, id, Bucket::Active),
            r is Ok ==> final(self)@ == old(self)@.remove(find_pad(old(self)@, scope, id)->0),
            r is Err ==> final(self)@ == old(self)@,
    {
        self.store.delete_pad(id, scope, Bucket::Active)
    }

    /// The initialization of a scope (see [`init::run`]).
    pub fn init(&self, scope: Scope) -> (r: Result<InitializationOutcome, PadzError>)
        ensures
            match scope {
                Scope::Project => match self.spec_paths().project {
                    Some(p) => r matches Ok(InitializationOutcome::Initialized { scope: s, store_path }) && s == scope
                        && store_path@ == p@,
                    None => r matches Err(e) && e is Store,
                },
                Scope::Global => r matches Ok(InitializationOutcome::Initialized { scope: s, store_path }) && s
                    == scope && store_path@ == self.spec_paths().global@,
            },
    {
        init::run(&self.paths, scope)
    }

    /// Exports the selected pads as an archive (see [`archive_outcome`]).
    pub fn export_pads(&self, scope: Scope, ids: &Vec<&str>, nesting: NestingMode, with_metadata: bool) -> (r: Result<
        ExportOutcome,
        PadzError,
    >)
        ensures
            archive_outcome(self@, scope, api_selectors(ids@), nesting, with_metadata, r),
    {
        let selectors = match parse_selectors(ids) {
            Ok(v) => v,
            Err(e) => return Err(e),
        };
        crate::export::run(&self.store, scope, &selectors, nesting, with_metadata)
    }

    /// Exports the selected pads as one file (see [`single_file_outcome`]).
    pub fn export_pads_single_file(&self, scope: Scope, ids: &Vec<&str>, title: &str, nesting: NestingMode) -> (r:
        Result<ExportOutcome, PadzError>)
        ensures
            single_file_outcome(self@, scope, api_selectors(ids@), title@, nesting, r),
    {
        let selectors = match parse_selectors(ids) {
            Ok(v) => v,
            Err(e) => return Err(e),
        };
        crate::export::run_single_file(&self.store, scope, &selectors, title, nesting)
    }

    /// The tag registry of this facade.
    pub fn tags(&self) -> (r: &TagRegistry)
        ensures
            *r == self.spec_tags(),
    {
        &self.tags
    }

    /// Imports the given inputs (see [`crate::import::run`]).
    pub fn import_pads(&mut self, scope: Scope, inputs: Vec<ImportInput>, import_exts: &Vec<String>) -> (r: Result<
        ImportReport,
        PadzError,
    >)
        requires
            inputs_bound(inputs@, import_exts@) <= usize::MAX,
        ensures
            r matches Ok(rep) && rep.sources@.len() == inputs@.len() && (forall|i: int|
                0 <= i < inputs@.len() ==> #[trigger] input_reported(inputs@[i], import_exts@, rep.sources@[i]@))
                && rep.total_imported == reports_total(reports_view(rep.sources@))
                && rep.total_imported <= inputs_bound(inputs@, import_exts@) && rep.status == import_status(
                reports_view(rep.sources@),
            ) && exists|stages: Seq<Seq<StoredV>>, regs: Seq<TagRegistry>|
                #[trigger] inputs_effect(stages, regs, scope, inputs@, import_exts@, reports_view(rep.sources@))
                    && stages[0] == old(self)@ && stages.last() == final(self)@ && regs[0] == old(self).spec_tags()
                    && regs.last() == final(self).spec_tags(),
            final(self).spec_paths() == old(self).spec_paths(),
    {
        crate::import::run(&mut self.store, &mut self.tags, scope, inputs, import_exts)
    }
}

} // verus!
