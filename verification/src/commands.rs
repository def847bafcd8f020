//! Command results and the structured facts commands report.
pub mod relocate;
pub mod delete;
pub mod archive;
pub mod create;
pub mod pinning;
pub mod paths;
pub mod purge;
pub mod move_pads;
pub mod get;
pub mod status;
pub mod metadata_apply;
pub mod doctor;
pub mod init;
pub mod metadata_schema;
pub mod inline_metadata;
use vstd::prelude::*;
use crate::error::PadzError;
use crate::index::DisplayIndex;
use crate::model::{Scope, TodoStatus};
use crate::tree::{dps_view, DisplayPad, DisplayPadV};

verus! {

/// Controls how nested (parent/child) pads are rendered.
#[derive(Clone, Copy, Debug, PartialEq, Eq, Structural)]
pub enum NestingMode {
    /// Only the selected pads, no children.
    Flat,
    /// Children included recursively, without indentation.
    Tree,
    /// Children included recursively, indented four spaces per level.
    Indented,
}

/// A presentation-free fact a command wants the caller to surface.
#[derive(Debug)]
pub enum CmdNotice {
    AlreadyPinned { path: Vec<DisplayIndex> },
    AlreadyUnpinned { path: Vec<DisplayIndex> },
    AlreadyAtDestination { path: Vec<DisplayIndex> },
    AlreadyInStatus { path: Vec<DisplayIndex>, status: TodoStatus },
    NoCompletedPads,
}

pub enum NoticeV {
    AlreadyPinned(Seq<DisplayIndex>),
    AlreadyUnpinned(Seq<DisplayIndex>),
    AlreadyAtDestination(Seq<DisplayIndex>),
    AlreadyInStatus(Seq<DisplayIndex>, TodoStatus),
    NoCompletedPads,
}

impl View for CmdNotice {
    type V = NoticeV;

    open spec fn view(&self) -> NoticeV {
        match self {
            CmdNotice::AlreadyPinned { path } => NoticeV::AlreadyPinned(path@),
            CmdNotice::AlreadyUnpinned { path } => NoticeV::AlreadyUnpinned(path@),
            CmdNotice::AlreadyAtDestination { path } => NoticeV::AlreadyAtDestination(path@),
            CmdNotice::AlreadyInStatus { path, status } => NoticeV::AlreadyInStatus(path@, *status),
            CmdNotice::NoCompletedPads => NoticeV::NoCompletedPads,
        }
    }
}

/// How a pad's content reached the update command.
#[derive(Clone, Copy, Debug, PartialEq, Eq, Structural)]
pub enum UpdateKind {
    Structured,
    Content,
    Refresh,
}

/// A presentation-free fact about a completed pad mutation.
#[derive(Debug)]
pub enum CmdOutcome {
    Updated { path: Vec<DisplayIndex>, title: String, update_kind: UpdateKind },
    StatusChanged { path: Vec<DisplayIndex>, status: TodoStatus },
}

pub enum OutcomeV {
    Updated(Seq<DisplayIndex>, Seq<char>, UpdateKind),
    StatusChanged(Seq<DisplayIndex>, TodoStatus),
}

impl View for CmdOutcome {
    type V = OutcomeV;

    open spec fn view(&self) -> OutcomeV {
        match self {
            CmdOutcome::Updated { path, title, update_kind } => OutcomeV::Updated(path@, title@, *update_kind),
            CmdOutcome::StatusChanged { path, status } => OutcomeV::StatusChanged(path@, *status),
        }
    }
}

/// The locations a store works against, supplied by the caller.
#[derive(Debug)]
pub struct PadzPaths {
    pub project: Option<String>,
    pub global: String,
    pub home: Option<String>,
}

impl PadzPaths {
    /// The directory of a scope; the project scope may be unavailable.
    pub fn scope_dir(&self, scope: Scope) -> (r: Result<String, PadzError>)
        ensures
            match scope {
                Scope::Project => match self.project {
                    Some(p) => r matches Ok(d) && d@ == p@,
                    None => r matches Err(PadzError::Store(m)) && m@ == "Project scope is not available"@,
                },
                Scope::Global => r matches Ok(d) && d@ == self.global@,
            },
    {
        match scope {
            Scope::Project => match &self.project {
                Some(p) => Ok(p.clone()),
                None => {
                    let m = "Project scope is not available".to_string();
                    proof {
                        vstd::string::to_string_from_display_ensures_for_str("Project scope is not available", m);
                    }
                    Err(PadzError::Store(m))
                },
            },
            Scope::Global => Ok(self.global.clone()),
        }
    }
}

/// The level of a message.
#[derive(Clone, Copy, Debug, PartialEq, Eq, Structural)]
pub enum MessageLevel {
    Info,
    Success,
    Warning,
    Error,
}

/// A message with a level.
#[derive(Debug)]
pub struct CmdMessage {
    pub level: MessageLevel,
    pub content: String,
}

impl CmdMessage {
    pub fn info(content: String) -> (r: CmdMessage)
        ensures
            r.level == MessageLevel::Info,
            r.content@ == content@,
    {
        CmdMessage { level: MessageLevel::Info, content }
    }

    pub fn success(content: String) -> (r: CmdMessage)
        ensures
            r.level == MessageLevel::Success,
            r.content@ == content@,
    {
        CmdMessage { level: MessageLevel::Success, content }
    }

    pub fn warning(content: String) -> (r: CmdMessage)
        ensures
            r.level == MessageLevel::Warning,
            r.content@ == content@,
    {
        CmdMessage { level: MessageLevel::Warning, content }
    }

    pub fn error(content: String) -> (r: CmdMessage)
        ensures
            r.level == MessageLevel::Error,
            r.content@ == content@,
    {
        CmdMessage { level: MessageLevel::Error, content }
    }
}

pub open spec fn messages_view(m: Seq<CmdMessage>) -> Seq<(MessageLevel, Seq<char>)> {
    m.map_values(|x: CmdMessage| (x.level, x.content@))
}

/// The structured result of most commands.
#[derive(Debug)]
pub struct CmdResult {
    /// Pads that were modified.
    pub affected_pads: Vec<DisplayPad>,
    /// Pads to display.
    pub listed_pads: Vec<DisplayPad>,
    /// Nesting depths of `listed_pads` (empty: all at depth 0).
    pub listed_depths: Vec<usize>,
    /// Paths of pad files.
    pub pad_paths: Vec<String>,
    pub messages: Vec<CmdMessage>,
    pub notices: Vec<CmdNotice>,
    pub outcomes: Vec<CmdOutcome>,
    /// The nesting mode used to produce `listed_pads`.
    pub nesting: NestingMode,
}

/// A result that reports exactly these affected pads and nothing else.
pub open spec fn affected_only(r: CmdResult, pads: Seq<DisplayPadV>) -> bool {
    &&& dps_view(r.affected_pads@) == pads
    &&& r.listed_pads@.len() == 0
    &&& r.listed_depths@.len() == 0
    &&& r.pad_paths@.len() == 0
    &&& r.messages@.len() == 0
    &&& r.notices@.len() == 0
    &&& r.outcomes@.len() == 0
}

/// The value of an empty result.
pub open spec fn is_empty_result(r: CmdResult) -> bool {
    &&& r.affected_pads@.len() == 0
    &&& r.listed_pads@.len() == 0
    &&& r.listed_depths@.len() == 0
    &&& r.pad_paths@.len() == 0
    &&& r.messages@.len() == 0
    &&& r.notices@.len() == 0
    &&& r.outcomes@.len() == 0
    &&& r.nesting == NestingMode::Tree
}

impl CmdResult {
    /// An empty result.
    pub fn new() -> (r: CmdResult)
        ensures
            is_empty_result(r),
    {
        CmdResult {
            affected_pads: Vec::new(),
            listed_pads: Vec::new(),
            listed_depths: Vec::new(),
            pad_paths: Vec::new(),
            messages: Vec::new(),
            notices: Vec::new(),
            outcomes: Vec::new(),
            nesting: NestingMode::Tree,
        }
    }

    pub fn add_message(&mut self, message: CmdMessage)
        ensures
            final(self).messages@ == old(self).messages@.push(message),
            final(self).affected_pads@ == old(self).affected_pads@,
            final(self).listed_pads@ == old(self).listed_pads@,
            final(self).pad_paths@ == old(self).pad_paths@,
    {
        self.messages.push(message);
    }

    pub fn with_affected_pads(self, pads: Vec<DisplayPad>) -> (r: CmdResult)
        ensures
            r.affected_pads@ == pads@,
            r.listed_pads@ == self.listed_pads@,
            r.messages@ == self.messages@,
            r.pad_paths@ == self.pad_paths@,
    {
        let mut s = self;
        s.affected_pads = pads;
        s
    }

    pub fn with_listed_pads(self, pads: Vec<DisplayPad>) -> (r: CmdResult)
        ensures
            r.listed_pads@ == pads@,
            r.affected_pads@ == self.affected_pads@,
            r.messages@ == self.messages@,
            r.pad_paths@ == self.pad_paths@,
            r.listed_depths@ == self.listed_depths@,
            r.notices@ == self.notices@,
            r.outcomes@ == self.outcomes@,
            r.nesting == self.nesting,
    {
        let mut s = self;
        s.listed_pads = pads;
        s
    }

    pub fn with_pad_paths(self, paths: Vec<String>) -> (r: CmdResult)
        ensures
            r.pad_paths@ == paths@,
            r.affected_pads@ == self.affected_pads@,
            r.listed_pads@ == self.listed_pads@,
            r.messages@ == self.messages@,
            r.listed_depths@ == self.listed_depths@,
            r.notices@ == self.notices@,
            r.outcomes@ == self.outcomes@,
            r.nesting == self.nesting,
    {
        let mut s = self;
        s.pad_paths = paths;
        s
    }
}

impl Default for CmdResult {
    fn default() -> (r: CmdResult)
        ensures
            is_empty_result(r),
    {
        CmdResult::new()
    }
}

/// The result of commands that modify pads.
#[derive(Debug)]
pub struct ModificationResult {
    pub affected_pads: Vec<DisplayPad>,
    pub trailing_messages: Vec<CmdMessage>,
}

impl ModificationResult {
    pub fn new() -> (r: ModificationResult)
        ensures
            r.affected_pads@.len() == 0,
            r.trailing_messages@.len() == 0,
    {
        ModificationResult { affected_pads: Vec::new(), trailing_messages: Vec::new() }
    }

    pub fn with_pads(self, pads: Vec<DisplayPad>) -> (r: ModificationResult)
        ensures
            r.affected_pads@ == pads@,
            r.trailing_messages@ == self.trailing_messages@,
    {
        let mut s = self;
        s.affected_pads = pads;
        s
    }

    pub fn add_info(&mut self, content: String)
        ensures
            messages_view(final(self).trailing_messages@) == messages_view(old(self).trailing_messages@).push(
                (MessageLevel::Info, content@),
            ),
            final(self).affected_pads@ == old(self).affected_pads@,
    {
        let ghost before = self.trailing_messages@;
        self.trailing_messages.push(CmdMessage::info(content));
        proof {
            assert(messages_view(self.trailing_messages@) =~= messages_view(before).push((MessageLevel::Info, content@)));
        }
    }

    /// The same facts as a [`CmdResult`].
    pub fn into_cmd_result(self) -> (r: CmdResult)
        ensures
            r.affected_pads@ == self.affected_pads@,
            r.messages@ == self.trailing_messages@,
            r.listed_pads@.len() == 0,
            r.pad_paths@.len() == 0,
    {
        let mut r = CmdResult::new();
        r.affected_pads = self.affected_pads;
        r.messages = self.trailing_messages;
        r
    }
}

impl Default for ModificationResult {
    fn default() -> (r: ModificationResult)
        ensures
            r.affected_pads@.len() == 0,
            r.trailing_messages@.len() == 0,
    {
        ModificationResult::new()
    }
}

/// A typed update of one pad's fields.
#[derive(Debug)]
pub struct PadUpdate {
    pub index: DisplayIndex,
    pub title: String,
    pub content: String,
    pub status: Option<TodoStatus>,
    pub path: Option<Vec<DisplayIndex>>,
}

impl PadUpdate {
    pub fn new(index: DisplayIndex, title: String, content: String) -> (r: PadUpdate)
        ensures
            r.index == index,
            r.title@ == title@,
            r.content@ == content@,
            r.status is None,
            r.path is None,
    {
        PadUpdate { index, title, content, status: None, path: None }
    }

    pub fn with_status(self, status: TodoStatus) -> (r: PadUpdate)
        ensures
            r.status == Some(status),
            r.index == self.index,
            r.title@ == self.title@,
            r.content@ == self.content@,
    {
        let mut s = self;
        s.status = Some(status);
        s
    }

    pub fn with_path(self, path: Vec<DisplayIndex>) -> (r: PadUpdate)
        ensures
            r.path matches Some(p) && p@ == path@,
            r.index == self.index,
            r.title@ == self.title@,
            r.content@ == self.content@,
            r.status == self.status,
    {
        let mut s = self;
        s.path = Some(path);
        s
    }
}

} // verus!
