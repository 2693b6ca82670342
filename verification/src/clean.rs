//! Cleaning caches: log files that are old enough, and whole directories.
//!
//! The disk is worked on from outside: `action` says what to do next, and `advance` is told what came
//! of it.
use crate::caches::{
    log_key, LogEntry, LogEntryView, CLI_LOG_DIR, CRASH_DIR, PLUGIN_CACHE_DIR, V2_LOG_DIR,
};
use crate::clock::{cutoff_at, cutoff_ms};
use crate::model::{CleanReport, CleanReportView};
use crate::progress::{clean_message, clean_progress, Progress, ProgressView};
use crate::text::{holds_text, same_text, stands_at};
use crate::total::{invalidate_total, total_answer, TotalAnswer, TotalCache};
use vstd::prelude::*;
use vstd::string::*;

verus! {

/// What the key of a cache stands for.
#[derive(Clone, Copy, Debug)]
pub enum CacheKind {
    /// A directory of logs, relative to ZCode's data directory.
    Logs(&'static str),
    /// A directory that is emptied, relative to ZCode's data directory.
    Tree(&'static str),
    /// No cache.
    Unknown,
}

/// What a `CacheKind` holds.
pub enum CacheKindView {
    Logs(Seq<char>),
    Tree(Seq<char>),
    Unknown,
}

impl DeepView for CacheKind {
    type V = CacheKindView;

    open spec fn deep_view(&self) -> CacheKindView {
        match self {
            CacheKind::Logs(rel) => CacheKindView::Logs(rel@),
            CacheKind::Tree(rel) => CacheKindView::Tree(rel@),
            CacheKind::Unknown => CacheKindView::Unknown,
        }
    }
}

/// What the key of a cache stands for.
pub open spec fn kind_of(key: Seq<char>) -> CacheKindView {
    if key == "cli-log"@ {
        CacheKindView::Logs("cli/log"@)
    } else if key == "v2-log"@ {
        CacheKindView::Logs("v2/logs"@)
    } else if key == "plugin-cache"@ {
        CacheKindView::Tree("cli/plugins/cache"@)
    } else if key == "crash"@ {
        CacheKindView::Tree("v2/crash"@)
    } else {
        CacheKindView::Unknown
    }
}

/// What the key of a cache stands for.
pub fn cache_kind(key: &str) -> (r: CacheKind)
    ensures
        r.deep_view() == kind_of(key@),
{
    if same_text(key, "cli-log") {
        CacheKind::Logs(CLI_LOG_DIR)
    } else if same_text(key, "v2-log") {
        CacheKind::Logs(V2_LOG_DIR)
    } else if same_text(key, "plugin-cache") {
        CacheKind::Tree(PLUGIN_CACHE_DIR)
    } else if same_text(key, "crash") {
        CacheKind::Tree(CRASH_DIR)
    } else {
        CacheKind::Unknown
    }
}

/// A log file that is old enough to be removed.
#[derive(Debug)]
pub struct OldFile {
    /// Its position in the listing of its directory.
    pub at: usize,
    pub name: String,
    pub size: u64,
}

/// What an `OldFile` holds.
#[verifier::ext_equal]
pub struct OldFileView {
    pub at: int,
    pub name: Seq<char>,
    pub size: u64,
}

impl DeepView for OldFile {
    type V = OldFileView;

    open spec fn deep_view(&self) -> OldFileView {
        OldFileView { at: self.at as int, name: self.name@, size: self.size }
    }
}

/// Whether an entry of a directory of logs is a file that was last modified at `cutoff` or earlier.
pub open spec fn is_old(e: LogEntryView, cutoff: u128) -> bool {
    e.meta matches Some(m) && m.is_file && m.mtime <= cutoff
}

/// The files in a directory of logs that are old enough to be removed.
pub open spec fn old_files(entries: Seq<LogEntryView>, cutoff: u128) -> Seq<OldFileView>
    decreases entries.len(),
{
    if entries.len() == 0 {
        Seq::empty()
    } else {
        let rest = old_files(entries.drop_last(), cutoff);
        let e = entries.last();
        if is_old(e, cutoff) {
            rest.push(
                OldFileView { at: entries.len() - 1, name: e.name, size: e.meta->0.size },
            )
        } else {
            rest
        }
    }
}

/// The files in a directory of logs that are old enough to be removed.
pub fn clean_dated_log(entries: &Vec<LogEntry>, cutoff: u128) -> (r: Vec<OldFile>)
    ensures
        r.deep_view() == old_files(entries.deep_view(), cutoff),
{
    let ghost all = entries.deep_view();
    let mut r: Vec<OldFile> = Vec::new();
    let mut i: usize = 0;
    assert(all.take(0) =~= Seq::<LogEntryView>::empty());
    assert(r.deep_view() =~= Seq::<OldFileView>::empty());
    while i < entries.len()
        invariant
            all == entries.deep_view(),
            i <= entries.len(),
            r.deep_view() == old_files(all.take(i as int), cutoff),
        decreases entries.len() - i,
    {
        assert(all.take(i + 1).drop_last() =~= all.take(i as int));
        assert(all[i as int] == entries@[i as int].deep_view());
        match entries[i].meta {
            Some(m) => {
                if m.is_file && m.mtime <= cutoff {
                    let ghost before = r.deep_view();
                    let f = OldFile { at: i, name: entries[i].name.clone(), size: m.size };
                    r.push(f);
                    assert(r.deep_view() =~= before.push(f.deep_view()));
                }
            },
            None => {},
        }
        i += 1;
    }
    assert(all.take(i as int) =~= all);
    r
}

/// What happens to the cache whose turn it is.
#[derive(Clone, Copy, Debug, PartialEq, Eq, Structural)]
pub enum CleanStage {
    /// It is announced.
    Announce,
    /// The directory of logs is listed.
    List,
    /// An old log file is removed.
    RemoveFile,
    /// The directory is measured.
    Probe,
    /// The directory is removed.
    RemoveTree,
    /// An empty directory takes its place.
    Recreate,
    /// No cache is left.
    Over,
}

/// A cleaning of caches.
#[derive(Debug)]
pub struct CleanRun {
    /// The keys of the caches to clean.
    pub keys: Vec<String>,
    /// Log files that were last modified then or earlier are removed.
    pub cutoff: u128,
    /// Whose turn it is.
    pub idx: usize,
    pub stage: CleanStage,
    /// The directory of the cache whose turn it is, relative to ZCode's data directory.
    pub rel: String,
    /// The log files to remove from it.
    pub files: Vec<OldFile>,
    /// How many of them are dealt with.
    pub pos: usize,
    pub report: CleanReport,
}

/// What a `CleanRun` holds.
#[verifier::ext_equal]
pub struct CleanRunView {
    pub keys: Seq<Seq<char>>,
    pub cutoff: u128,
    pub idx: int,
    pub stage: CleanStage,
    pub rel: Seq<char>,
    pub files: Seq<OldFileView>,
    pub pos: int,
    pub report: CleanReportView,
}

impl DeepView for CleanRun {
    type V = CleanRunView;

    open spec fn deep_view(&self) -> CleanRunView {
        CleanRunView {
            keys: self.keys.deep_view(),
            cutoff: self.cutoff,
            idx: self.idx as int,
            stage: self.stage,
            rel: self.rel@,
            files: self.files.deep_view(),
            pos: self.pos as int,
            report: self.report.deep_view(),
        }
    }
}

/// What is to be done next. Directories are relative to ZCode's data directory.
#[derive(Debug)]
pub enum CleanAction {
    /// Show this.
    Tell(Progress),
    /// List this directory of logs.
    List(String),
    /// Remove the file with this name, at this position in the listing, from this directory.
    RemoveFile { rel: String, at: usize, name: String },
    /// Report the size of this directory, if it is there.
    Probe(String),
    /// Remove this directory with all that is in it.
    RemoveTree(String),
    /// Make this directory.
    Recreate(String),
    /// Nothing more: the cleaning is over.
    Finish,
}

/// What a `CleanAction` holds.
pub enum CleanActionView {
    Tell(ProgressView),
    List(Seq<char>),
    RemoveFile { rel: Seq<char>, at: int, name: Seq<char> },
    Probe(Seq<char>),
    RemoveTree(Seq<char>),
    Recreate(Seq<char>),
    Finish,
}

impl DeepView for CleanAction {
    type V = CleanActionView;

    open spec fn deep_view(&self) -> CleanActionView {
        match self {
            CleanAction::Tell(p) => CleanActionView::Tell(p.deep_view()),
            CleanAction::List(rel) => CleanActionView::List(rel@),
            CleanAction::RemoveFile { rel, at, name } => CleanActionView::RemoveFile {
                rel: rel@,
                at: *at as int,
                name: name@,
            },
            CleanAction::Probe(rel) => CleanActionView::Probe(rel@),
            CleanAction::RemoveTree(rel) => CleanActionView::RemoveTree(rel@),
            CleanAction::Recreate(rel) => CleanActionView::Recreate(rel@),
            CleanAction::Finish => CleanActionView::Finish,
        }
    }
}

/// What came of an action.
#[derive(Debug)]
pub enum CleanEvent {
    /// It is shown.
    Told,
    /// The directory of logs holds these entries; `None` if it cannot be listed.
    Listed(Option<Vec<LogEntry>>),
    /// The directory has this size; `None` if it is not there.
    Probed(Option<u64>),
    /// The file or the directory is removed.
    Removed,
    /// The file or the directory could not be removed, and why.
    Failed(String),
    /// It was tried to make the directory.
    Recreated,
}

/// What a `CleanEvent` holds.
pub enum CleanEventView {
    Told,
    Listed(Option<Seq<LogEntryView>>),
    Probed(Option<u64>),
    Removed,
    Failed(Seq<char>),
    Recreated,
}

impl DeepView for CleanEvent {
    type V = CleanEventView;

    open spec fn deep_view(&self) -> CleanEventView {
        match self {
            CleanEvent::Told => CleanEventView::Told,
            CleanEvent::Listed(entries) => CleanEventView::Listed(entries.deep_view()),
            CleanEvent::Probed(size) => CleanEventView::Probed(*size),
            CleanEvent::Removed => CleanEventView::Removed,
            CleanEvent::Failed(e) => CleanEventView::Failed(e@),
            CleanEvent::Recreated => CleanEventView::Recreated,
        }
    }
}

impl CleanRunView {
    /// A cleaning at its beginning.
    pub open spec fn start(keys: Seq<Seq<char>>, keep_days: u32, now: u128) -> CleanRunView {
        CleanRunView {
            keys,
            cutoff: cutoff_at(now, keep_days),
            idx: 0,
            stage: if keys.len() == 0 {
                CleanStage::Over
            } else {
                CleanStage::Announce
            },
            rel: Seq::empty(),
            files: Seq::empty(),
            pos: 0,
            report: CleanReportView { deleted_files: 0, freed_disk: 0, errors: Seq::empty() },
        }
    }

    /// Whether logs are dealt with.
    pub open spec fn in_logs(self) -> bool {
        self.stage is List || self.stage is RemoveFile
    }

    /// Whether a directory is dealt with that is emptied.
    pub open spec fn in_tree(self) -> bool {
        self.stage is Probe || self.stage is RemoveTree || self.stage is Recreate
    }

    /// Whether this is a cleaning at some stage: a cache has its turn, or all had it; the directory
    /// is that of the cache; and something is left to remove while log files are removed.
    pub open spec fn wf(self) -> bool {
        &&& 0 <= self.idx <= self.keys.len()
        &&& (self.stage is Over <==> self.idx == self.keys.len())
        &&& self.in_logs() ==> kind_of(self.key()) == CacheKindView::Logs(self.rel)
        &&& self.in_tree() ==> kind_of(self.key()) == CacheKindView::Tree(self.rel)
        &&& self.stage is RemoveFile ==> 0 <= self.pos < self.files.len()
        &&& !(self.stage is RemoveFile) ==> self.files.len() == 0 && self.pos == 0
    }

    /// The key of the cache whose turn it is.
    pub open spec fn key(self) -> Seq<char> {
        self.keys[self.idx]
    }

    /// What is to be done next.
    pub open spec fn action(self) -> CleanActionView {
        match self.stage {
            CleanStage::Announce => CleanActionView::Tell(
                clean_message(self.idx as nat, self.keys.len(), self.key()),
            ),
            CleanStage::List => CleanActionView::List(self.rel),
            CleanStage::RemoveFile => CleanActionView::RemoveFile {
                rel: self.rel,
                at: self.files[self.pos].at,
                name: self.files[self.pos].name,
            },
            CleanStage::Probe => CleanActionView::Probe(self.rel),
            CleanStage::RemoveTree => CleanActionView::RemoveTree(self.rel),
            CleanStage::Recreate => CleanActionView::Recreate(self.rel),
            CleanStage::Over => CleanActionView::Finish,
        }
    }

    /// Whether an event answers what is to be done, and files and bytes can be counted.
    pub open spec fn expects(self, event: CleanEventView) -> bool {
        match event {
            CleanEventView::Told => self.stage is Announce,
            CleanEventView::Listed(_) => self.stage is List,
            CleanEventView::Probed(None) => self.stage is Probe,
            CleanEventView::Probed(Some(size)) => self.stage is Probe && self.report.freed_disk
                + size <= u64::MAX,
            CleanEventView::Removed => {
                ||| self.stage is RemoveTree
                ||| self.stage is RemoveFile && self.report.freed_disk + self.files[self.pos].size
                    <= u64::MAX && self.report.deleted_files < usize::MAX
            },
            CleanEventView::Failed(_) => {
                ||| self.stage is RemoveTree
                ||| self.stage is RemoveFile && self.report.freed_disk + self.files[self.pos].size
                    <= u64::MAX
            },
            CleanEventView::Recreated => self.stage is Recreate,
        }
    }

    /// The turn goes to the next cache.
    pub open spec fn next_turn(self) -> CleanRunView {
        CleanRunView {
            idx: self.idx + 1,
            stage: if self.idx + 1 < self.keys.len() {
                CleanStage::Announce
            } else {
                CleanStage::Over
            },
            rel: Seq::empty(),
            files: Seq::empty(),
            pos: 0,
            ..self
        }
    }

    /// Another error is reported.
    pub open spec fn with_error(self, error: Seq<char>) -> CleanRunView {
        CleanRunView {
            report: CleanReportView { errors: self.report.errors.push(error), ..self.report },
            ..self
        }
    }

    /// More bytes are counted as freed.
    pub open spec fn with_freed(self, size: u64) -> CleanRunView {
        CleanRunView {
            report: CleanReportView {
                freed_disk: self.report.freed_disk + size as nat,
                ..self.report
            },
            ..self
        }
    }

    /// One more log file is counted as removed.
    pub open spec fn with_deleted(self) -> CleanRunView {
        CleanRunView {
            report: CleanReportView {
                deleted_files: self.report.deleted_files + 1,
                ..self.report
            },
            ..self
        }
    }

    /// One of the log files is dealt with.
    pub open spec fn next_file(self) -> CleanRunView {
        if self.pos + 1 < self.files.len() {
            CleanRunView { pos: self.pos + 1, ..self }
        } else {
            self.next_turn()
        }
    }

    /// The cleaning after an event that it expects.
    pub open spec fn after(self, event: CleanEventView) -> CleanRunView {
        match event {
            CleanEventView::Told => match kind_of(self.key()) {
                CacheKindView::Logs(rel) => CleanRunView { stage: CleanStage::List, rel, ..self },
                CacheKindView::Tree(rel) => CleanRunView { stage: CleanStage::Probe, rel, ..self },
                CacheKindView::Unknown => self.with_error(
                    self.key() + ": 未知类别"@,
                ).next_turn(),
            },
            CleanEventView::Listed(None) => self.next_turn(),
            CleanEventView::Listed(Some(entries)) => {
                let files = old_files(entries, self.cutoff);
                if files.len() == 0 {
                    self.next_turn()
                } else {
                    CleanRunView { stage: CleanStage::RemoveFile, files, pos: 0, ..self }
                }
            },
            CleanEventView::Probed(None) => self.next_turn(),
            CleanEventView::Probed(Some(size)) => CleanRunView {
                stage: CleanStage::RemoveTree,
                ..self.with_freed(size)
            },
            CleanEventView::Removed => if self.stage is RemoveTree {
                CleanRunView { stage: CleanStage::Recreate, ..self }
            } else {
                self.with_freed(self.files[self.pos].size).with_deleted().next_file()
            },
            CleanEventView::Failed(e) => if self.stage is RemoveTree {
                self.with_error(self.rel + ": "@ + e).next_turn()
            } else {
                self.with_freed(self.files[self.pos].size).with_error(
                    self.rel + "/"@ + self.files[self.pos].name + ": "@ + e,
                ).next_file()
            },
            CleanEventView::Recreated => self.next_turn(),
        }
    }
}

/// Begins to clean caches. Log files are kept that were modified within the last `keep_days` days.
pub fn clean_caches_impl(keys: Vec<String>, keep_days: u32, now: u128) -> (r: CleanRun)
    ensures
        r.deep_view() == CleanRunView::start(keys.deep_view(), keep_days, now),
        r.deep_view().wf(),
{
    let stage = if keys.len() == 0 {
        CleanStage::Over
    } else {
        CleanStage::Announce
    };
    let r = CleanRun {
        keys,
        cutoff: cutoff_ms(now, keep_days),
        idx: 0,
        stage,
        rel: String::new(),
        files: Vec::new(),
        pos: 0,
        report: CleanReport { deleted_files: 0, freed_disk: 0, errors: Vec::new() },
    };
    assert(r.deep_view() =~= CleanRunView::start(keys.deep_view(), keep_days, now));
    r
}

impl CleanRun {
    /// What is to be done next.
    pub fn action(&self) -> (r: CleanAction)
        requires
            self.deep_view().wf(),
        ensures
            r.deep_view() == self.deep_view().action(),
    {
        match self.stage {
            CleanStage::Announce => {
                assert(self.deep_view().key() == self.keys@[self.idx as int]@);
                CleanAction::Tell(
                    clean_progress(self.idx, self.keys.len(), self.keys[self.idx].as_str()),
                )
            },
            CleanStage::List => CleanAction::List(self.rel.clone()),
            CleanStage::RemoveFile => CleanAction::RemoveFile {
                rel: self.rel.clone(),
                at: self.files[self.pos].at,
                name: self.files[self.pos].name.clone(),
            },
            CleanStage::Probe => CleanAction::Probe(self.rel.clone()),
            CleanStage::RemoveTree => CleanAction::RemoveTree(self.rel.clone()),
            CleanStage::Recreate => CleanAction::Recreate(self.rel.clone()),
            CleanStage::Over => CleanAction::Finish,
        }
    }

    /// Whether an event answers what is to be done, and files and bytes can be counted.
    pub fn can_take(&self, event: &CleanEvent) -> (r: bool)
        requires
            self.deep_view().wf(),
        ensures
            r == self.deep_view().expects(event.deep_view()),
    {
        match event {
            CleanEvent::Told => self.stage == CleanStage::Announce,
            CleanEvent::Listed(_) => self.stage == CleanStage::List,
            CleanEvent::Probed(None) => self.stage == CleanStage::Probe,
            CleanEvent::Probed(Some(size)) => self.stage == CleanStage::Probe
                && self.report.freed_disk <= u64::MAX - *size,
            CleanEvent::Removed => {
                if self.stage == CleanStage::RemoveFile {
                    assert(self.deep_view().files[self.pos as int] == self.files@[self.pos as int].deep_view());
                    self.report.freed_disk <= u64::MAX - self.files[self.pos].size
                        && self.report.deleted_files < usize::MAX
                } else {
                    self.stage == CleanStage::RemoveTree
                }
            },
            CleanEvent::Failed(_) => {
                if self.stage == CleanStage::RemoveFile {
                    assert(self.deep_view().files[self.pos as int] == self.files@[self.pos as int].deep_view());
                    self.report.freed_disk <= u64::MAX - self.files[self.pos].size
                } else {
                    self.stage == CleanStage::RemoveTree
                }
            },
            CleanEvent::Recreated => self.stage == CleanStage::Recreate,
        }
    }

    /// Goes on after an action.
    pub fn advance(&mut self, event: CleanEvent)
        requires
            old(self).deep_view().wf(),
            old(self).deep_view().expects(event.deep_view()),
        ensures
            final(self).deep_view() == old(self).deep_view().after(event.deep_view()),
            final(self).deep_view().wf(),
    {
        assert(self.idx < self.keys.len());
        match event {
            CleanEvent::Told => {
                assert(self.deep_view().key() == self.keys@[self.idx as int]@);
                match cache_kind(self.keys[self.idx].as_str()) {
                    CacheKind::Logs(rel) => {
                        self.rel = rel.to_owned();
                        self.stage = CleanStage::List;
                    },
                    CacheKind::Tree(rel) => {
                        self.rel = rel.to_owned();
                        self.stage = CleanStage::Probe;
                    },
                    CacheKind::Unknown => {
                        let mut message = self.keys[self.idx].clone();
                        message.append(": 未知类别");
                        self.tell_error(message);
                        self.next_turn();
                    },
                }
            },
            CleanEvent::Listed(None) => self.next_turn(),
            CleanEvent::Listed(Some(entries)) => {
                let files = clean_dated_log(&entries, self.cutoff);
                if files.len() == 0 {
                    self.next_turn();
                } else {
                    self.files = files;
                    self.pos = 0;
                    self.stage = CleanStage::RemoveFile;
                }
            },
            CleanEvent::Probed(None) => self.next_turn(),
            CleanEvent::Probed(Some(size)) => {
                self.report.freed_disk = self.report.freed_disk + size;
                self.stage = CleanStage::RemoveTree;
            },
            CleanEvent::Removed => {
                if self.stage == CleanStage::RemoveTree {
                    self.stage = CleanStage::Recreate;
                } else {
                    let f = &self.files[self.pos];
                    assert(self.deep_view().files[self.pos as int] == f.deep_view());
                    self.report.freed_disk = self.report.freed_disk + f.size;
                    self.report.deleted_files = self.report.deleted_files + 1;
                    self.next_file();
                }
            },
            CleanEvent::Failed(e) => {
                if self.stage == CleanStage::RemoveTree {
                    let mut message = self.rel.clone();
                    message.append(": ");
                    message.append(e.as_str());
                    self.tell_error(message);
                    self.next_turn();
                } else {
                    let f = &self.files[self.pos];
                    assert(self.deep_view().files[self.pos as int] == f.deep_view());
                    self.report.freed_disk = self.report.freed_disk + f.size;
                    let mut message = self.rel.clone();
                    message.append("/");
                    message.append(self.files[self.pos].name.as_str());
                    message.append(": ");
                    message.append(e.as_str());
                    self.tell_error(message);
                    self.next_file();
                }
            },
            CleanEvent::Recreated => self.next_turn(),
        }
    }

    fn tell_error(&mut self, message: String)
        ensures
            final(self).deep_view() == old(self).deep_view().with_error(message@),
    {
        let ghost before = self.report.errors.deep_view();
        self.report.errors.push(message);
        assert(self.report.errors.deep_view() =~= before.push(message@));
    }

    fn next_turn(&mut self)
        requires
            old(self).idx < old(self).keys.len(),
        ensures
            final(self).deep_view() == old(self).deep_view().next_turn(),
    {
        self.idx = self.idx + 1;
        self.stage = if self.idx < self.keys.len() {
            CleanStage::Announce
        } else {
            CleanStage::Over
        };
        self.rel = String::new();
        self.files = Vec::new();
        self.pos = 0;
        assert(self.files.deep_view() =~= Seq::<OldFileView>::empty());
    }

    fn next_file(&mut self)
        requires
            old(self).idx < old(self).keys.len(),
            old(self).pos < old(self).files.len(),
        ensures
            final(self).deep_view() == old(self).deep_view().next_file(),
    {
        if self.pos + 1 < self.files.len() {
            self.pos = self.pos + 1;
        } else {
            self.next_turn();
        }
    }
}

/// Ends a cleaning that is over. The remembered size of the data directory does not hold any more:
/// the next scan measures it, whatever it asks for.
pub fn finish_cleaning(run: CleanRun, cache: &mut TotalCache) -> (r: CleanReport)
    requires
        run.deep_view().wf(),
        run.stage is Over,
    ensures
        r.deep_view() == run.deep_view().report,
        *final(cache) == (TotalCache { valid: false, ..*old(cache) }),
        forall|compute: bool| #[trigger]
            total_answer(*final(cache), compute) == TotalAnswer::Measure,
{
    invalidate_total(cache);
    run.report
}

/// A log file is removed exactly if it is a file that was last modified at the cutoff or earlier;
/// what is no file, or is newer, stays.
pub proof fn law_only_old_logs_are_removed(
    entries: Seq<LogEntryView>,
    cutoff: u128,
    f: OldFileView,
)
    ensures
        old_files(entries, cutoff).contains(f) == (0 <= f.at < entries.len() && is_old(
            entries[f.at],
            cutoff,
        ) && f == (OldFileView {
            at: f.at,
            name: entries[f.at].name,
            size: entries[f.at].meta->0.size,
        })),
    decreases entries.len(),
{
    if entries.len() > 0 {
        let fewer = entries.drop_last();
        let rest = old_files(fewer, cutoff);
        let all = old_files(entries, cutoff);
        law_only_old_logs_are_removed(fewer, cutoff, f);
        if rest.contains(f) {
            let m = choose|m: int| 0 <= m < rest.len() && rest[m] == f;
            assert(all[m] == f);
        }
        if all.contains(f) && !rest.contains(f) {
            let m = choose|m: int| 0 <= m < all.len() && all[m] == f;
            if m < rest.len() {
                assert(rest[m] == f);
            }
        }
        if f.at == entries.len() - 1 && is_old(entries[f.at], cutoff) && f.name
            == entries[f.at].name && f.size == entries[f.at].meta->0.size {
            assert(all[rest.len() as int] =~= f);
        }
    }
}

/// Keeping logs for more days never removes a file that keeping them for fewer days would keep.
pub proof fn law_longer_retention_removes_less(
    e: LogEntryView,
    now: u128,
    fewer_days: u32,
    more_days: u32,
)
    requires
        fewer_days <= more_days,
        is_old(e, cutoff_at(now, more_days)),
    ensures
        is_old(e, cutoff_at(now, fewer_days)),
{
}

/// Every cache that a scan lists can be cleaned by the key that it is listed with, and the directory
/// that is cleaned is the one that was scanned.
pub proof fn law_scanned_caches_can_be_cleaned()
    ensures
        kind_of(log_key("cli/log"@)) == CacheKindView::Logs("cli/log"@),
        kind_of(log_key("v2/logs"@)) == CacheKindView::Logs("v2/logs"@),
        kind_of("plugin-cache"@) == CacheKindView::Tree("cli/plugins/cache"@),
        kind_of("crash"@) == CacheKindView::Tree("v2/crash"@),
{
    reveal_strlit("cli/log");
    reveal_strlit("v2/logs");
    reveal_strlit("cli-log");
    reveal_strlit("v2-log");
    reveal_strlit("plugin-cache");
    reveal_strlit("crash");
    let cli = "cli/log"@;
    let v2 = "v2/logs"@;
    assert(cli.subrange(0, 7) =~= cli);
    assert(stands_at(cli, cli, 0));
    assert(!holds_text(v2, cli)) by {
        assert forall|at: int| !stands_at(v2, cli, at) by {
            if stands_at(v2, cli, at) {
                assert(at == 0);
                assert(v2.subrange(0, 7)[0] == cli[0]);
            }
        }
    }
    assert("v2-log"@.len() != "cli-log"@.len());
    assert("plugin-cache"@.len() == 12);
    assert("crash"@.len() == 5);
}

/// Nothing on disk is touched but the four caches: a directory that is listed or removed, or that a
/// file is removed from, is one of theirs; and only the two that are no logs are removed.
pub proof fn law_only_caches_are_touched(run: CleanRunView)
    requires
        run.wf(),
    ensures
        match run.action() {
            CleanActionView::List(rel) => rel == "cli/log"@ || rel == "v2/logs"@,
            CleanActionView::RemoveFile { rel, .. } => rel == "cli/log"@ || rel == "v2/logs"@,
            CleanActionView::Probe(rel) => rel == "cli/plugins/cache"@ || rel == "v2/crash"@,
            CleanActionView::RemoveTree(rel) => rel == "cli/plugins/cache"@ || rel == "v2/crash"@,
            CleanActionView::Recreate(rel) => rel == "cli/plugins/cache"@ || rel == "v2/crash"@,
            CleanActionView::Tell(_) => true,
            CleanActionView::Finish => true,
        },
{
}

/// A directory that was removed is made again, empty, before the turn goes on.
pub proof fn law_removed_directory_is_made_again(run: CleanRunView)
    requires
        run.wf(),
        run.stage is RemoveTree,
    ensures
        run.after(CleanEventView::Removed).action() == CleanActionView::Recreate(run.rel),
        run.after(CleanEventView::Removed).idx == run.idx,
{
}

/// A key that is no cache's is reported as an error, and nothing on disk is looked at.
pub proof fn law_unknown_keys_touch_nothing(run: CleanRunView)
    requires
        run.wf(),
        run.stage is Announce,
        kind_of(run.key()) is Unknown,
    ensures
        ({
            let next = run.after(CleanEventView::Told);
            &&& next.stage is Announce || next.stage is Over
            &&& next.idx == run.idx + 1
            &&& next.report == (CleanReportView {
                errors: run.report.errors.push(run.key() + ": 未知类别"@),
                ..run.report
            })
        }),
{
}

/// The bytes in some log files.
pub open spec fn old_size(files: Seq<OldFileView>) -> nat
    decreases files.len(),
{
    if files.len() == 0 {
        0
    } else {
        old_size(files.drop_last()) + files.last().size as nat
    }
}

/// The cleaning after `n` log files were removed.
pub open spec fn after_removals(run: CleanRunView, n: nat) -> CleanRunView
    decreases n,
{
    if n == 0 {
        run
    } else {
        after_removals(run, (n - 1) as nat).after(CleanEventView::Removed)
    }
}

/// All old files of a directory of logs are removed, one after the other; then each of them is
/// counted as removed, with its bytes as freed, and the turn goes on.
pub proof fn law_all_old_logs_are_removed(run: CleanRunView, n: nat)
    requires
        run.wf(),
        run.stage is RemoveFile,
        run.pos == 0,
        n <= run.files.len(),
    ensures
        after_removals(run, n).report == (CleanReportView {
            deleted_files: run.report.deleted_files + n,
            freed_disk: run.report.freed_disk + old_size(run.files.take(n as int)),
            ..run.report
        }),
        n < run.files.len() ==> after_removals(run, n).action() == (CleanActionView::RemoveFile {
            rel: run.rel,
            at: run.files[n as int].at,
            name: run.files[n as int].name,
        }),
        n == run.files.len() ==> after_removals(run, n).idx == run.idx + 1,
{
    lemma_after_removals(run, n);
}

proof fn lemma_after_removals(run: CleanRunView, n: nat)
    requires
        run.wf(),
        run.stage is RemoveFile,
        run.pos == 0,
        n <= run.files.len(),
    ensures
        ({
            let report = CleanReportView {
                deleted_files: run.report.deleted_files + n,
                freed_disk: run.report.freed_disk + old_size(run.files.take(n as int)),
                ..run.report
            };
            after_removals(run, n) == if n < run.files.len() {
                CleanRunView { pos: n as int, report, ..run }
            } else {
                CleanRunView { report, ..run }.next_turn()
            }
        }),
    decreases n,
{
    if n > 0 {
        lemma_after_removals(run, (n - 1) as nat);
        assert(run.files.take(n as int).drop_last() =~= run.files.take(n - 1));
    } else {
        assert(run.files.take(0) =~= Seq::<OldFileView>::empty());
    }
}

/// The cleaning after some events.
pub open spec fn after_all(run: CleanRunView, events: Seq<CleanEventView>) -> CleanRunView
    decreases events.len(),
{
    if events.len() == 0 {
        run
    } else {
        after_all(run, events.drop_last()).after(events.last())
    }
}

/// Whether each of some events is expected when it comes.
pub open spec fn all_expected(run: CleanRunView, events: Seq<CleanEventView>) -> bool
    decreases events.len(),
{
    events.len() == 0 || (all_expected(run, events.drop_last()) && after_all(
        run,
        events.drop_last(),
    ).expects(events.last()))
}

/// Whether an event lists a file with this name, at this position, that was last modified at `cutoff`
/// or earlier.
pub open spec fn lists_old(event: CleanEventView, at: int, name: Seq<char>, cutoff: u128) -> bool {
    event matches CleanEventView::Listed(Some(entries)) && 0 <= at < entries.len() && is_old(
        entries[at],
        cutoff,
    ) && entries[at].name == name
}

/// However a cleaning goes, a log file is removed only if it was listed before as a file that was not
/// modified within the last `keep_days` days.
pub proof fn law_recent_logs_are_kept(
    keys: Seq<Seq<char>>,
    keep_days: u32,
    now: u128,
    events: Seq<CleanEventView>,
    rel: Seq<char>,
    at: int,
    name: Seq<char>,
)
    requires
        all_expected(CleanRunView::start(keys, keep_days, now), events),
        after_all(CleanRunView::start(keys, keep_days, now), events).action() == (
        CleanActionView::RemoveFile { rel, at, name }),
    ensures
        exists|k: int|
            0 <= k < events.len() && #[trigger] lists_old(
                events[k],
                at,
                name,
                cutoff_at(now, keep_days),
            ),
{
    lemma_run_so_far(keys, keep_days, now, events);
    let run = after_all(CleanRunView::start(keys, keep_days, now), events);
    let k = choose|k: int|
        0 <= k < events.len() && #[trigger] found_by(events[k], run.files, run.cutoff);
    let f = run.files[run.pos];
    assert(run.files.contains(f));
    law_only_old_logs_are_removed(events[k]->Listed_0->0, run.cutoff, f);
    assert(lists_old(events[k], at, name, run.cutoff));
}

/// Whether these are the old files that an event lists.
spec fn found_by(event: CleanEventView, files: Seq<OldFileView>, cutoff: u128) -> bool {
    event matches CleanEventView::Listed(Some(entries)) && files == old_files(entries, cutoff)
}

proof fn lemma_run_so_far(
    keys: Seq<Seq<char>>,
    keep_days: u32,
    now: u128,
    events: Seq<CleanEventView>,
)
    requires
        all_expected(CleanRunView::start(keys, keep_days, now), events),
    ensures
        ({
            let run = after_all(CleanRunView::start(keys, keep_days, now), events);
            &&& run.wf()
            &&& run.cutoff == cutoff_at(now, keep_days)
            &&& run.stage is RemoveFile ==> exists|k: int|
                0 <= k < events.len() && #[trigger] found_by(events[k], run.files, run.cutoff)
        }),
    decreases events.len(),
{
    if events.len() > 0 {
        let fewer = events.drop_last();
        lemma_run_so_far(keys, keep_days, now, fewer);
        let before = after_all(CleanRunView::start(keys, keep_days, now), fewer);
        let run = before.after(events.last());
        if run.stage is RemoveFile {
            if before.stage is RemoveFile {
                let k = choose|k: int|
                    0 <= k < fewer.len() && #[trigger] found_by(fewer[k], run.files, run.cutoff);
                assert(found_by(events[k], run.files, run.cutoff));
            } else {
                assert(found_by(events[events.len() - 1], run.files, run.cutoff));
            }
        }
    }
}

/// Whether an event says what came of removing a log file.
pub open spec fn is_file_outcome(event: CleanEventView) -> bool {
    event is Removed || event is Failed
}

/// How many of some events say that a log file was removed.
pub open spec fn files_removed(events: Seq<CleanEventView>) -> nat
    decreases events.len(),
{
    if events.len() == 0 {
        0
    } else {
        files_removed(events.drop_last()) + (if events.last() is Removed {
            1nat
        } else {
            0nat
        })
    }
}

/// Every old file of a directory of logs is dealt with, whether the removal of others fails or not:
/// each one is counted as removed or reported as an error behind the errors that were there before,
/// its bytes are counted in either case, and after the last one the turn goes on.
pub proof fn law_old_logs_are_removed_or_reported(
    run: CleanRunView,
    outcomes: Seq<CleanEventView>,
)
    requires
        run.wf(),
        run.stage is RemoveFile,
        run.pos == 0,
        outcomes.len() <= run.files.len(),
        forall|k: int| 0 <= k < outcomes.len() ==> is_file_outcome(#[trigger] outcomes[k]),
    ensures
        ({
            let next = after_all(run, outcomes);
            let n = outcomes.len() as int;
            &&& next.report.deleted_files == run.report.deleted_files + files_removed(outcomes)
            &&& next.report.deleted_files + next.report.errors.len() == run.report.deleted_files
                + run.report.errors.len() + n
            &&& run.report.errors.is_prefix_of(next.report.errors)
            &&& next.report.freed_disk == run.report.freed_disk + old_size(run.files.take(n))
            &&& n < run.files.len() ==> next.action() == (CleanActionView::RemoveFile {
                rel: run.rel,
                at: run.files[n].at,
                name: run.files[n].name,
            })
            &&& n == run.files.len() ==> next.idx == run.idx + 1
        }),
{
    lemma_after_outcomes(run, outcomes);
}

proof fn lemma_after_outcomes(run: CleanRunView, outcomes: Seq<CleanEventView>)
    requires
        run.wf(),
        run.stage is RemoveFile,
        run.pos == 0,
        outcomes.len() <= run.files.len(),
        forall|k: int| 0 <= k < outcomes.len() ==> is_file_outcome(#[trigger] outcomes[k]),
    ensures
        ({
            let next = after_all(run, outcomes);
            let n = outcomes.len() as int;
            &&& next.report.deleted_files == run.report.deleted_files + files_removed(outcomes)
            &&& next.report.deleted_files + next.report.errors.len() == run.report.deleted_files
                + run.report.errors.len() + n
            &&& run.report.errors.is_prefix_of(next.report.errors)
            &&& next.report.freed_disk == run.report.freed_disk + old_size(run.files.take(n))
            &&& next == if n < run.files.len() {
                CleanRunView { pos: n, report: next.report, ..run }
            } else {
                CleanRunView { report: next.report, ..run }.next_turn()
            }
        }),
    decreases outcomes.len(),
{
    if outcomes.len() > 0 {
        let fewer = outcomes.drop_last();
        let n = outcomes.len() as int;
        assert forall|k: int| 0 <= k < fewer.len() implies is_file_outcome(#[trigger] fewer[k]) by {
            assert(fewer[k] == outcomes[k]);
        }
        lemma_after_outcomes(run, fewer);
        assert(is_file_outcome(outcomes[n - 1]));
        assert(run.files.take(n).drop_last() =~= run.files.take(n - 1));
    } else {
        assert(run.files.take(0) =~= Seq::<OldFileView>::empty());
    }
}

/// What the keys of caches stand for; every other key stands for nothing.
pub proof fn law_keys_of_caches(key: Seq<char>)
    ensures
        kind_of("cli-log"@) == CacheKindView::Logs("cli/log"@),
        kind_of("v2-log"@) == CacheKindView::Logs("v2/logs"@),
        kind_of("plugin-cache"@) == CacheKindView::Tree("cli/plugins/cache"@),
        kind_of("crash"@) == CacheKindView::Tree("v2/crash"@),
        key != "cli-log"@ && key != "v2-log"@ && key != "plugin-cache"@ && key != "crash"@
            ==> kind_of(key) is Unknown,
{
    reveal_strlit("cli-log");
    reveal_strlit("v2-log");
    reveal_strlit("plugin-cache");
    reveal_strlit("crash");
    assert("cli-log"@.len() == 7);
    assert("v2-log"@.len() == 6);
    assert("plugin-cache"@.len() == 12);
    assert("crash"@.len() == 5);
}

/// A log is old enough to be removed exactly if it is a file that was last modified at least as many
/// days ago as logs are kept. Where the retention reaches back before the epoch, only a file without
/// a time is.
pub proof fn law_old_means_beyond_retention(e: LogEntryView, now: u128, keep_days: u32)
    ensures
        is_old(e, cutoff_at(now, keep_days)) == (e.meta matches Some(m) && m.is_file && (if keep_days
            * 86_400_000 <= now {
            m.mtime + keep_days * 86_400_000 <= now
        } else {
            m.mtime == 0
        })),
{
}

/// The old files of a directory are found in the order in which it lists them, none of them twice.
pub proof fn law_old_files_come_in_order(
    entries: Seq<LogEntryView>,
    cutoff: u128,
    i: int,
    j: int,
)
    requires
        0 <= i < j < old_files(entries, cutoff).len(),
    ensures
        old_files(entries, cutoff)[i].at < old_files(entries, cutoff)[j].at,
    decreases entries.len(),
{
    let fewer = entries.drop_last();
    let rest = old_files(fewer, cutoff);
    if j < rest.len() {
        law_old_files_come_in_order(fewer, cutoff, i, j);
    } else {
        assert(rest.contains(rest[i]));
        law_only_old_logs_are_removed(fewer, cutoff, rest[i]);
    }
}

/// After a directory of logs was listed, each file in it that was last modified at the cutoff or
/// earlier has its turn to be removed, whatever came of those before it; where there is none, the turn
/// goes on and nothing is reported.
pub proof fn law_every_old_log_has_its_turn(
    run: CleanRunView,
    entries: Seq<LogEntryView>,
    j: int,
    outcomes: Seq<CleanEventView>,
)
    requires
        run.wf(),
        run.action() is List,
    ensures
        0 <= j < entries.len() && (entries[j].meta matches Some(m) && m.is_file && m.mtime
            <= run.cutoff) ==> exists|n: int|
            0 <= n < old_files(entries, run.cutoff).len() && #[trigger] old_files(
                entries,
                run.cutoff,
            )[n] == (OldFileView { at: j, name: entries[j].name, size: entries[j].meta->0.size })
                && (outcomes.len() == n && (forall|k: int|
                0 <= k < outcomes.len() ==> is_file_outcome(#[trigger] outcomes[k])) ==> after_all(
                run.after(CleanEventView::Listed(Some(entries))),
                outcomes,
            ).action() == (CleanActionView::RemoveFile { rel: run.rel, at: j, name: entries[j].name })),
        (forall|k: int|
            0 <= k < entries.len() ==> !((#[trigger] entries[k]).meta matches Some(m) && m.is_file
                && m.mtime <= run.cutoff)) ==> run.after(
            CleanEventView::Listed(Some(entries)),
        ).idx == run.idx + 1,
        run.after(CleanEventView::Listed(Some(entries))).report == run.report,
        run.after(CleanEventView::Listed(None)).report == run.report,
        run.after(CleanEventView::Listed(None)).idx == run.idx + 1,
{
    let old = old_files(entries, run.cutoff);
    let next = run.after(CleanEventView::Listed(Some(entries)));
    if 0 <= j < entries.len() && is_old(entries[j], run.cutoff) {
        let f = OldFileView { at: j, name: entries[j].name, size: entries[j].meta->0.size };
        law_only_old_logs_are_removed(entries, run.cutoff, f);
        let n = choose|n: int| 0 <= n < old.len() && old[n] == f;
        assert(old[n] == f);
        assert(next.stage is RemoveFile && next.files == old && next.pos == 0);
        if outcomes.len() == n && (forall|k: int|
            0 <= k < outcomes.len() ==> is_file_outcome(#[trigger] outcomes[k])) {
            law_old_logs_are_removed_or_reported(next, outcomes);
        }
    }
    if forall|k: int|
        0 <= k < entries.len() ==> !((#[trigger] entries[k]).meta matches Some(m) && m.is_file
            && m.mtime <= run.cutoff) {
        if old.len() > 0 {
            assert(old.contains(old[0]));
            law_only_old_logs_are_removed(entries, run.cutoff, old[0]);
            assert(is_old(entries[old[0].at], run.cutoff));
        }
    }
}

/// After it was announced, a directory of logs is listed and any other cache is measured; each cache
/// in its own directory.
pub proof fn law_announced_caches_are_looked_at(run: CleanRunView)
    requires
        run.wf(),
        run.action() is Tell,
    ensures
        ({
            let key = run.keys[run.idx];
            let next = run.after(CleanEventView::Told);
            &&& key == "cli-log"@ ==> next.action() == CleanActionView::List("cli/log"@)
            &&& key == "v2-log"@ ==> next.action() == CleanActionView::List("v2/logs"@)
            &&& key == "plugin-cache"@ ==> next.action() == CleanActionView::Probe(
                "cli/plugins/cache"@,
            )
            &&& key == "crash"@ ==> next.action() == CleanActionView::Probe("v2/crash"@)
            &&& key == "cli-log"@ || key == "v2-log"@ || key == "plugin-cache"@ || key == "crash"@
                ==> next.report == run.report && next.idx == run.idx
        }),
{
    law_keys_of_caches(run.keys[run.idx]);
}

/// A directory that is there is counted with its size and removed; where that fails, it is reported
/// with its error and the turn goes on; one that is not there is left alone.
pub proof fn law_trees_are_removed_or_reported(run: CleanRunView, n: u64, e: Seq<char>)
    requires
        run.wf(),
    ensures
        run.action() is Probe ==> ({
            let there = run.after(CleanEventView::Probed(Some(n)));
            let absent = run.after(CleanEventView::Probed(None));
            &&& there.action() == CleanActionView::RemoveTree(run.rel)
            &&& there.report == (CleanReportView {
                freed_disk: run.report.freed_disk + n as nat,
                ..run.report
            })
            &&& absent.report == run.report
            &&& absent.idx == run.idx + 1
        }),
        run.action() is RemoveTree ==> ({
            let removed = run.after(CleanEventView::Removed);
            let failed = run.after(CleanEventView::Failed(e));
            &&& removed.action() == CleanActionView::Recreate(run.rel)
            &&& removed.report == run.report
            &&& failed.report == (CleanReportView {
                errors: run.report.errors.push(run.rel + ": "@ + e),
                ..run.report
            })
            &&& failed.idx == run.idx + 1
        }),
        run.action() is Recreate ==> run.after(CleanEventView::Recreated).report == run.report
            && run.after(CleanEventView::Recreated).idx == run.idx + 1,
{
}

/// A log file that was removed is counted with its bytes; one that could not be removed is reported
/// with its directory, its name and the error, and its bytes are counted too.
pub proof fn law_log_removals_are_reported(
    run: CleanRunView,
    rel: Seq<char>,
    at: int,
    name: Seq<char>,
    e: Seq<char>,
)
    requires
        run.wf(),
        run.action() == (CleanActionView::RemoveFile { rel, at, name }),
    ensures
        run.after(CleanEventView::Removed).report == (CleanReportView {
            deleted_files: run.report.deleted_files + 1,
            freed_disk: run.report.freed_disk + run.files[run.pos].size as nat,
            ..run.report
        }),
        run.after(CleanEventView::Failed(e)).report == (CleanReportView {
            freed_disk: run.report.freed_disk + run.files[run.pos].size as nat,
            errors: run.report.errors.push(rel + "/"@ + name + ": "@ + e),
            ..run.report
        }),
        run.files[run.pos].at == at,
        run.files[run.pos].name == name,
{
}

/// A cleaning begins with the first cache, or is over where there is none; with nothing reported.
pub proof fn law_cleaning_begins(keys: Seq<Seq<char>>, keep_days: u32, now: u128)
    ensures
        ({
            let run = CleanRunView::start(keys, keep_days, now);
            &&& run.keys == keys && run.cutoff == cutoff_at(now, keep_days) && run.idx == 0
            &&& run.report.deleted_files == 0 && run.report.freed_disk == 0
                && run.report.errors.len() == 0
            &&& keys.len() == 0 ==> run.action() is Finish
            &&& keys.len() > 0 ==> run.action() == CleanActionView::Tell(
                clean_message(0, keys.len(), keys[0]),
            )
        }),
{
}

/// What was asked for stays the same through a cleaning, and turns are only taken one by one.
pub proof fn law_request_is_kept(run: CleanRunView, event: CleanEventView)
    requires
        run.wf(),
        run.expects(event),
    ensures
        run.after(event).keys == run.keys,
        run.after(event).cutoff == run.cutoff,
        run.after(event).idx == run.idx || run.after(event).idx == run.idx + 1,
        run.after(event).idx > run.idx ==> run.after(event).action() == if run.idx + 1
            < run.keys.len() {
            CleanActionView::Tell(
                clean_message((run.idx + 1) as nat, run.keys.len(), run.keys[run.idx + 1]),
            )
        } else {
            CleanActionView::Finish
        },
{
}

/// Every answer to what is to be done is taken, as long as files and bytes can be counted; at the end
/// nothing is.
pub proof fn law_cleaning_takes_every_answer(
    run: CleanRunView,
    entries: Option<Seq<LogEntryView>>,
    n: u64,
    e: Seq<char>,
    event: CleanEventView,
)
    requires
        run.wf(),
    ensures
        run.action() is Tell ==> run.expects(CleanEventView::Told),
        run.action() is List ==> run.expects(CleanEventView::Listed(entries)),
        run.action() is Probe ==> run.expects(CleanEventView::Probed(None)) && run.expects(
            CleanEventView::Probed(Some(n)),
        ) == (run.report.freed_disk + n <= 0xffff_ffff_ffff_ffff),
        run.action() is RemoveTree ==> run.expects(CleanEventView::Removed) && run.expects(
            CleanEventView::Failed(e),
        ),
        run.action() is Recreate ==> run.expects(CleanEventView::Recreated),
        run.action() is RemoveFile ==> run.expects(CleanEventView::Failed(e)) == (
        run.report.freed_disk + run.files[run.pos].size <= 0xffff_ffff_ffff_ffff),
        run.action() is RemoveFile && run.report.deleted_files < usize::MAX ==> run.expects(
            CleanEventView::Removed,
        ) == (run.report.freed_disk + run.files[run.pos].size <= 0xffff_ffff_ffff_ffff),
        run.action() is Finish ==> !run.expects(event),
{
}

} // verus!
