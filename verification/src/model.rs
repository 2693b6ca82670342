//! What scans, deletions and cleanings report, and the settings.
use crate::order::Timed;
use vstd::prelude::*;

verus! {

/// What one location holds of a session.
#[derive(Debug)]
pub struct SessionPart {
    /// The location's key.
    pub loc: String,
    /// The location's name for display.
    pub label: String,
    /// In bytes.
    pub size: u64,
}

/// What a `SessionPart` holds.
#[verifier::ext_equal]
pub struct SessionPartView {
    pub loc: Seq<char>,
    pub label: Seq<char>,
    pub size: u64,
}

impl DeepView for SessionPart {
    type V = SessionPartView;

    open spec fn deep_view(&self) -> SessionPartView {
        SessionPartView { loc: self.loc@, label: self.label@, size: self.size }
    }
}

impl SessionPart {
    /// A part with the same contents.
    pub fn copy(&self) -> (r: SessionPart)
        ensures
            r.deep_view() == self.deep_view(),
    {
        SessionPart { loc: self.loc.clone(), label: self.label.clone(), size: self.size }
    }
}

/// A session, as a scan shows it.
#[derive(Debug)]
pub struct SessionInfo {
    pub id: String,
    pub title: Option<String>,
    pub directory: Option<String>,
    /// When the session was last active, in milliseconds.
    pub time_updated: u128,
    /// The bytes that it takes on disk.
    pub disk_size: u64,
    pub parts: Vec<SessionPart>,
    /// The database knows the session, and nothing of it is on disk.
    pub db_only: bool,
    /// Files of the session are on disk, and the database does not know it.
    pub orphan: bool,
    /// The session was active within the last 24 hours.
    pub protected: bool,
    /// How long ago the session was active, in milliseconds.
    pub age_ms: u128,
}

/// What a `SessionInfo` holds.
#[verifier::ext_equal]
pub struct SessionInfoView {
    pub id: Seq<char>,
    pub title: Option<Seq<char>>,
    pub directory: Option<Seq<char>>,
    pub time_updated: u128,
    pub disk_size: u64,
    pub parts: Seq<SessionPartView>,
    pub db_only: bool,
    pub orphan: bool,
    pub protected: bool,
    pub age_ms: u128,
}

impl DeepView for SessionInfo {
    type V = SessionInfoView;

    open spec fn deep_view(&self) -> SessionInfoView {
        SessionInfoView {
            id: self.id@,
            title: self.title.deep_view(),
            directory: self.directory.deep_view(),
            time_updated: self.time_updated,
            disk_size: self.disk_size,
            parts: self.parts.deep_view(),
            db_only: self.db_only,
            orphan: self.orphan,
            protected: self.protected,
            age_ms: self.age_ms,
        }
    }
}

impl Timed for SessionInfo {
    open spec fn time(&self) -> u128 {
        self.time_updated
    }

    fn time_ms(&self) -> (t: u128) {
        self.time_updated
    }
}

/// A log file, as a scan shows it.
#[derive(Debug)]
pub struct LogFile {
    pub name: String,
    pub size: u64,
    pub mtime: u128,
    /// How long ago the file was modified, in milliseconds.
    pub age_ms: u128,
}

/// What a `LogFile` holds.
#[verifier::ext_equal]
pub struct LogFileView {
    pub name: Seq<char>,
    pub size: u64,
    pub mtime: u128,
    pub age_ms: u128,
}

impl DeepView for LogFile {
    type V = LogFileView;

    open spec fn deep_view(&self) -> LogFileView {
        LogFileView { name: self.name@, size: self.size, mtime: self.mtime, age_ms: self.age_ms }
    }
}

impl Timed for LogFile {
    open spec fn time(&self) -> u128 {
        self.mtime
    }

    fn time_ms(&self) -> (t: u128) {
        self.mtime
    }
}

/// A cache that can be cleaned.
#[derive(Debug)]
pub struct CacheInfo {
    pub key: String,
    pub name: String,
    /// Relative to ZCode's data directory.
    pub path: String,
    /// `dated-log` or `tree`.
    pub kind: String,
    pub note: String,
    pub total_size: u64,
    pub file_count: Option<usize>,
    pub files: Option<Vec<LogFile>>,
}

/// What a `CacheInfo` holds.
#[verifier::ext_equal]
pub struct CacheInfoView {
    pub key: Seq<char>,
    pub name: Seq<char>,
    pub path: Seq<char>,
    pub kind: Seq<char>,
    pub note: Seq<char>,
    pub total_size: u64,
    pub file_count: Option<usize>,
    pub files: Option<Seq<LogFileView>>,
}

impl DeepView for CacheInfo {
    type V = CacheInfoView;

    open spec fn deep_view(&self) -> CacheInfoView {
        CacheInfoView {
            key: self.key@,
            name: self.name@,
            path: self.path@,
            kind: self.kind@,
            note: self.note@,
            total_size: self.total_size,
            file_count: self.file_count,
            files: self.files.deep_view(),
        }
    }
}

/// What a scan found.
#[derive(Debug)]
pub struct ScanReport {
    /// ZCode's data directory.
    pub root: String,
    /// Its size.
    pub total_size: u64,
    pub db_size: u64,
    /// How many sessions were read from the database.
    pub db_session_count: usize,
    /// Why the database could not be read, or not to its end.
    pub db_error: Option<String>,
    /// ZCode may be running: the database's write-ahead log was written recently.
    pub db_busy_hint: bool,
    pub sessions: Vec<SessionInfo>,
    pub caches: Vec<CacheInfo>,
}

/// What a deletion of sessions did.
#[derive(Debug)]
pub struct DeleteReport {
    /// How many sessions were deleted.
    pub deleted: usize,
    /// The sessions that were left alone, and why.
    pub skipped: Vec<String>,
    pub freed_disk: u64,
    pub db_rows_deleted: u64,
    pub errors: Vec<String>,
}

/// What a `DeleteReport` holds.
#[verifier::ext_equal]
pub struct DeleteReportView {
    pub deleted: nat,
    pub skipped: Seq<Seq<char>>,
    pub freed_disk: nat,
    pub db_rows_deleted: nat,
    pub errors: Seq<Seq<char>>,
}

impl DeepView for DeleteReport {
    type V = DeleteReportView;

    open spec fn deep_view(&self) -> DeleteReportView {
        DeleteReportView {
            deleted: self.deleted as nat,
            skipped: self.skipped.deep_view(),
            freed_disk: self.freed_disk as nat,
            db_rows_deleted: self.db_rows_deleted as nat,
            errors: self.errors.deep_view(),
        }
    }
}

/// What a cleaning of caches did.
#[derive(Debug)]
pub struct CleanReport {
    /// How many log files were removed.
    pub deleted_files: usize,
    pub freed_disk: u64,
    pub errors: Vec<String>,
}

/// What a `CleanReport` holds.
#[verifier::ext_equal]
pub struct CleanReportView {
    pub deleted_files: nat,
    pub freed_disk: nat,
    pub errors: Seq<Seq<char>>,
}

impl DeepView for CleanReport {
    type V = CleanReportView;

    open spec fn deep_view(&self) -> CleanReportView {
        CleanReportView {
            deleted_files: self.deleted_files as nat,
            freed_disk: self.freed_disk as nat,
            errors: self.errors.deep_view(),
        }
    }
}

/// The size of the database file before and after it was compacted.
#[derive(Clone, Copy, Debug, PartialEq, Eq, Structural)]
pub struct VacuumReport {
    pub before: u64,
    pub after: u64,
}

/// What the user wants to keep.
#[derive(Clone, Copy, Debug, PartialEq, Eq, Structural)]
pub struct Settings {
    pub session_keep_days: u32,
    pub log_keep_days: u32,
    pub clean_plugin_cache: bool,
    pub clean_crash: bool,
    pub protect_active: bool,
}

/// The settings of someone who never changed any.
pub open spec fn default_settings() -> Settings {
    Settings {
        session_keep_days: 30,
        log_keep_days: 7,
        clean_plugin_cache: false,
        clean_crash: true,
        protect_active: true,
    }
}

impl Default for Settings {
    fn default() -> (r: Settings)
        ensures
            r == default_settings(),
    {
        Settings {
            session_keep_days: 30,
            log_keep_days: 7,
            clean_plugin_cache: false,
            clean_crash: true,
            protect_active: true,
        }
    }
}

/// The settings to work with: those that were read from the settings file, or the default ones where
/// the file is missing or cannot be understood.
pub fn load_settings(read: Option<Settings>) -> (r: Settings)
    ensures
        r == match read {
            Some(settings) => settings,
            None => default_settings(),
        },
{
    match read {
        Some(settings) => settings,
        None => Settings::default(),
    }
}

/// Without settings of the user's own, sessions are kept for 30 days and logs for 7, crash dumps are
/// cleaned and plugins are not, and active sessions are protected.
pub proof fn law_default_settings()
    ensures
        default_settings().session_keep_days == 30,
        default_settings().log_keep_days == 7,
        !default_settings().clean_plugin_cache,
        default_settings().clean_crash,
        default_settings().protect_active,
{
}

} // verus!
