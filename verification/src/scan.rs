//! The scan: what the database and the disk hold of sessions, and the caches.
use crate::caches::{
    describes_logs, is_loggable, loggable, scan_dated_log, scan_tree, tree_info, LogEntry,
    CLI_LOG_DIR, CRASH_DIR, PLUGIN_CACHE_DIR, V2_LOG_DIR,
};
use crate::clock::{
    age_at, age_ms, is_protected, later, latest, protected_at, readable_stamp, stamp_is_readable,
    stamp_ms, to_ms,
};
use crate::model::{
    CacheInfo, ScanReport, SessionInfo, SessionInfoView, SessionPart, SessionPartView,
};
use crate::order::{
    goes_before, law_sorting_keeps_every_item, lemma_newest_first_seen, newest_first, newest_order,
    sort_newest_first, Timed,
};
use crate::sessions::{
    among, by_session, contributions, countable, fs_session, group_sessions, lemma_absent, lemma_present,
    on_disk, scan_fs_sessions, Contribution, DirListing, FoundFile, FsSession,
};
use crate::tree::{measure, tree_size, DirNode};
use vstd::prelude::*;
use vstd::set_lib::*;
use vstd::string::*;

verus! {

/// How recently the write-ahead log must have been written for ZCode to count as running: two
/// minutes.
pub const BUSY_MS: u128 = 120_000;

/// A session in the database.
#[derive(Debug)]
pub struct DbRow {
    pub id: String,
    pub title: Option<String>,
    pub directory: Option<String>,
    pub time_created: Option<i64>,
    pub time_updated: Option<i64>,
}

/// What a `DbRow` holds.
#[verifier::ext_equal]
pub struct DbRowView {
    pub id: Seq<char>,
    pub title: Option<Seq<char>>,
    pub directory: Option<Seq<char>>,
    pub time_created: Option<i64>,
    pub time_updated: Option<i64>,
}

impl DeepView for DbRow {
    type V = DbRowView;

    open spec fn deep_view(&self) -> DbRowView {
        DbRowView {
            id: self.id@,
            title: self.title.deep_view(),
            directory: self.directory.deep_view(),
            time_created: self.time_created,
            time_updated: self.time_updated,
        }
    }
}

/// What came of reading the database.
#[derive(Debug)]
pub enum DbScan {
    /// It could not be opened, and why.
    Closed(String),
    /// These sessions were read, until the end or until reading failed.
    Read { rows: Vec<DbRow>, failure: Option<String> },
}

/// Everything that a scan looks at.
pub struct ScanInput {
    /// ZCode's data directory.
    pub root: String,
    /// The current time, in milliseconds.
    pub now: u128,
    /// The size of the data directory.
    pub total_size: u64,
    /// The size of the database file.
    pub db_size: u64,
    pub db: DbScan,
    /// What the locations with one directory for each session list.
    pub listings: Vec<DirListing>,
    /// What the directory of rollout files lists.
    pub rollout: Vec<FoundFile>,
    /// What `cli/log` lists.
    pub cli_log: Vec<LogEntry>,
    /// What `v2/logs` lists.
    pub v2_log: Vec<LogEntry>,
    /// `cli/plugins/cache`.
    pub plugin_cache: DirNode,
    /// `v2/crash`.
    pub crash: DirNode,
    /// When the database's write-ahead log was last written, if there is one.
    pub wal_mtime: Option<u128>,
}

/// The sessions that were read from the database.
pub open spec fn rows_read(db: DbScan) -> Seq<DbRowView> {
    match db {
        DbScan::Closed(_) => Seq::empty(),
        DbScan::Read { rows, .. } => rows.deep_view(),
    }
}

/// Why the database could not be read, or not to its end.
pub open spec fn db_error_text(db: DbScan) -> Option<Seq<char>> {
    match db {
        DbScan::Closed(error) => Some(error@),
        DbScan::Read { failure: Some(error), .. } => Some("读取会话表失败: "@ + error@),
        DbScan::Read { failure: None, .. } => None,
    }
}

/// When the database last saw a session active: the later of its two timestamps.
pub open spec fn row_time(row: DbRowView) -> u128 {
    later(stamp_ms(row.time_updated) as u128, stamp_ms(row.time_created) as u128)
}

/// Whether both timestamps of a row can be read.
pub open spec fn readable_row(row: DbRowView) -> bool {
    readable_stamp(row.time_updated) && readable_stamp(row.time_created)
}

/// A session of the database, with what the disk holds of it.
pub open spec fn row_info(all: Seq<Contribution>, row: DbRowView, now: u128) -> SessionInfoView {
    let fs = fs_session(all, row.id);
    let time = later(row_time(row), fs.mtime);
    SessionInfoView {
        id: row.id,
        title: row.title,
        directory: row.directory,
        time_updated: time,
        disk_size: fs.size as u64,
        parts: fs.parts,
        db_only: fs.parts.len() == 0,
        orphan: false,
        protected: protected_at(now, time),
        age_ms: age_at(now, time),
    }
}

/// A session that is on disk and that the database does not know.
pub open spec fn orphan_info(all: Seq<Contribution>, id: Seq<char>, now: u128) -> SessionInfoView {
    let fs = fs_session(all, id);
    SessionInfoView {
        id,
        title: None,
        directory: None,
        time_updated: fs.mtime,
        disk_size: fs.size as u64,
        parts: fs.parts,
        db_only: false,
        orphan: true,
        protected: protected_at(now, fs.mtime),
        age_ms: age_at(now, fs.mtime),
    }
}

/// Whether the database knows a session.
pub open spec fn known(rows: Seq<DbRowView>, id: Seq<char>) -> bool {
    exists|k: int| 0 <= k < rows.len() && (#[trigger] rows[k]).id == id
}

/// Whether some sessions have an id in their midst.
pub open spec fn shown(sessions: Seq<SessionInfoView>, id: Seq<char>) -> bool {
    exists|k: int| 0 <= k < sessions.len() && (#[trigger] sessions[k]).id == id
}

/// Whether `orphans` are the sessions that are on disk and that the database does not know: each of
/// them once. Their order is left open.
pub open spec fn are_orphans(
    all: Seq<Contribution>,
    rows: Seq<DbRowView>,
    now: u128,
    orphans: Seq<SessionInfoView>,
) -> bool {
    &&& forall|k: int, l: int|
        0 <= k < l < orphans.len() ==> (#[trigger] orphans[k]).id != (#[trigger] orphans[l]).id
    &&& forall|k: int|
        0 <= k < orphans.len() ==> #[trigger] orphans[k] == orphan_info(all, orphans[k].id, now)
    &&& forall|id: Seq<char>| #[trigger]
        shown(orphans, id) == (on_disk(all, id) && !known(rows, id))
}

/// The sessions of the database, with what the disk holds of them.
pub open spec fn row_infos(
    all: Seq<Contribution>,
    rows: Seq<DbRowView>,
    now: u128,
) -> Seq<SessionInfoView> {
    rows.map_values(|row: DbRowView| row_info(all, row, now))
}

/// Whether `sessions` are all the sessions, those of the database and the orphans, the last active
/// first.
pub open spec fn are_sessions(
    all: Seq<Contribution>,
    rows: Seq<DbRowView>,
    now: u128,
    sessions: Seq<SessionInfoView>,
) -> bool {
    exists|orphans: Seq<SessionInfoView>|
        #![trigger are_orphans(all, rows, now, orphans)]
        are_orphans(all, rows, now, orphans) && newest_first(
            row_infos(all, rows, now) + orphans,
            sessions,
            |s: SessionInfoView| s.time_updated,
        )
}

/// Whether the database's write-ahead log was written so recently that ZCode may be running.
pub open spec fn busy_at(now: u128, wal_mtime: Option<u128>) -> bool {
    wal_mtime matches Some(time) && now < time + BUSY_MS
}

/// Everything that the disk holds of sessions.
pub open spec fn disk_of(input: ScanInput) -> Seq<Contribution> {
    contributions(input.listings.deep_view(), input.rollout.deep_view())
}

/// Whether all times can be read and all bytes be counted in 64 bits.
pub open spec fn scannable(input: ScanInput) -> bool {
    &&& countable(disk_of(input))
    &&& forall|k: int| 0 <= k < rows_read(input.db).len() ==> readable_row(#[trigger] rows_read(input.db)[k])
    &&& loggable(input.cli_log.deep_view())
    &&& loggable(input.v2_log.deep_view())
    &&& tree_size(input.plugin_cache) <= u64::MAX
    &&& tree_size(input.crash) <= u64::MAX
}

/// Whether `report` is the report of a scan.
pub open spec fn reports(input: ScanInput, report: ScanReport) -> bool {
    let caches = report.caches.deep_view();
    &&& report.root@ == input.root@
    &&& report.total_size == input.total_size
    &&& report.db_size == input.db_size
    &&& report.db_session_count == rows_read(input.db).len()
    &&& report.db_error.deep_view() == db_error_text(input.db)
    &&& report.db_busy_hint == busy_at(input.now, input.wal_mtime)
    &&& are_sessions(disk_of(input), rows_read(input.db), input.now, report.sessions.deep_view())
    &&& caches.len() == 4
    &&& describes_logs(caches[0], "cli/log"@, input.cli_log.deep_view())
    &&& describes_logs(caches[1], "v2/logs"@, input.v2_log.deep_view())
    &&& caches[2] == tree_info(
        "plugin-cache"@,
        "插件缓存"@,
        "cli/plugins/cache"@,
        "插件下载缓存，清理后按需重新下载"@,
        input.plugin_cache,
    )
    &&& caches[3] == tree_info(
        "crash"@,
        "崩溃转储"@,
        "v2/crash"@,
        "崩溃 .dmp 诊断文件，通常无用"@,
        input.crash,
    )
}

fn copy_text(text: &Option<String>) -> (r: Option<String>)
    ensures
        r.deep_view() == text.deep_view(),
{
    match text {
        Some(s) => Some(s.clone()),
        None => None,
    }
}

fn copy_parts(parts: &Vec<SessionPart>) -> (r: Vec<SessionPart>)
    ensures
        r.deep_view() == parts.deep_view(),
{
    let mut r: Vec<SessionPart> = Vec::new();
    let mut i: usize = 0;
    while i < parts.len()
        invariant
            i <= parts.len(),
            r.deep_view() == parts.deep_view().take(i as int),
        decreases parts.len() - i,
    {
        let ghost before = r.deep_view();
        r.push(parts[i].copy());
        assert(r.deep_view() =~= before.push(parts.deep_view()[i as int]));
        assert(r.deep_view() =~= parts.deep_view().take(i + 1));
        i += 1;
    }
    assert(r.deep_view() =~= parts.deep_view());
    r
}

/// What the disk holds of a session: its parts, size and latest time; nothing where it is not there.
fn find_session(sessions: &Vec<FsSession>, id: &String, all: Ghost<Seq<Contribution>>) -> (r: (
    Vec<SessionPart>,
    u64,
    u128,
))
    requires
        by_session(all@, sessions.deep_view()),
    ensures
        r.0.deep_view() == fs_session(all@, id@).parts,
        r.1 == fs_session(all@, id@).size,
        r.2 == fs_session(all@, id@).mtime,
{
    let ghost found = sessions.deep_view();
    let mut i: usize = 0;
    while i < sessions.len()
        invariant
            found == sessions.deep_view(),
            by_session(all@, found),
            i <= sessions.len(),
            forall|k: int| 0 <= k < i ==> (#[trigger] found[k]).id != id@,
        decreases sessions.len() - i,
    {
        let s = &sessions[i];
        assert(found[i as int] == s.deep_view());
        if s.id == *id {
            return (copy_parts(&s.parts), s.size, s.mtime);
        }
        i += 1;
    }
    let parts: Vec<SessionPart> = Vec::new();
    proof {
        assert(among(found, id@) == on_disk(all@, id@));
        lemma_absent(all@, id@);
        assert(parts.deep_view() =~= Seq::<SessionPartView>::empty());
    }
    (parts, 0, 0)
}

/// Whether the database knows a session.
fn is_known(rows: &Vec<DbRow>, id: &String) -> (r: bool)
    ensures
        r == known(rows.deep_view(), id@),
{
    let ghost all = rows.deep_view();
    let mut i: usize = 0;
    while i < rows.len()
        invariant
            all == rows.deep_view(),
            i <= rows.len(),
            forall|k: int| 0 <= k < i ==> (#[trigger] all[k]).id != id@,
        decreases rows.len() - i,
    {
        assert(all[i as int] == rows@[i as int].deep_view());
        if rows[i].id == *id {
            return true;
        }
        i += 1;
    }
    false
}

/// All sessions, those of the database and the orphans, the last active first.
fn merge_sessions(
    rows: &Vec<DbRow>,
    fs: &Vec<FsSession>,
    now: u128,
    all: Ghost<Seq<Contribution>>,
) -> (r: Vec<SessionInfo>)
    requires
        by_session(all@, fs.deep_view()),
        forall|k: int| 0 <= k < rows.len() ==> readable_row(#[trigger] rows.deep_view()[k]),
    ensures
        are_sessions(all@, rows.deep_view(), now, r.deep_view()),
{
    let ghost in_db = rows.deep_view();
    let ghost on_fs = fs.deep_view();
    let ghost infos = row_infos(all@, in_db, now);
    let mut sessions: Vec<SessionInfo> = Vec::new();
    let mut i: usize = 0;
    assert(sessions.deep_view() =~= infos.take(0));
    while i < rows.len()
        invariant
            in_db == rows.deep_view(),
            infos == row_infos(all@, in_db, now),
            by_session(all@, fs.deep_view()),
            forall|k: int| 0 <= k < rows.len() ==> readable_row(#[trigger] rows.deep_view()[k]),
            i <= rows.len(),
            sessions.deep_view() == infos.take(i as int),
        decreases rows.len() - i,
    {
        let row = &rows[i];
        assert(in_db[i as int] == row.deep_view());
        assert(readable_row(rows.deep_view()[i as int]));
        let t: u128 = latest(to_ms(row.time_updated), to_ms(row.time_created));
        let (parts, disk_size, fs_mtime) = find_session(fs, &row.id, all);
        let time: u128 = latest(t, fs_mtime);
        let db_only = parts.len() == 0;
        let info = SessionInfo {
            id: row.id.clone(),
            title: copy_text(&row.title),
            directory: copy_text(&row.directory),
            time_updated: time,
            disk_size,
            parts,
            db_only,
            orphan: false,
            protected: is_protected(now, time),
            age_ms: age_ms(now, time),
        };
        let ghost before = sessions.deep_view();
        assert(info.deep_view() =~= infos[i as int]);
        sessions.push(info);
        assert(sessions.deep_view() =~= before.push(infos[i as int]));
        assert(sessions.deep_view() =~= infos.take(i + 1));
        i += 1;
    }
    assert(infos.take(i as int) =~= infos);

    let ghost mut orphans: Seq<SessionInfoView> = Seq::empty();
    let ghost mut origin: Seq<int> = Seq::empty();
    let mut j: usize = 0;
    assert(infos + orphans =~= infos);
    while j < fs.len()
        invariant
            in_db == rows.deep_view(),
            on_fs == fs.deep_view(),
            by_session(all@, on_fs),
            j <= fs.len(),
            sessions.deep_view() == infos + orphans,
            origin.len() == orphans.len(),
            forall|k: int| 0 <= k < orphans.len() ==> 0 <= #[trigger] origin[k] < j,
            forall|k: int, l: int|
                0 <= k < l < orphans.len() ==> #[trigger] origin[k] < #[trigger] origin[l],
            forall|k: int|
                0 <= k < orphans.len() ==> #[trigger] orphans[k] == orphan_info(
                    all@,
                    orphans[k].id,
                    now,
                ) && orphans[k].id == on_fs[origin[k]].id && !known(in_db, orphans[k].id),
            forall|m: int|
                0 <= m < j && !known(in_db, (#[trigger] on_fs[m]).id) ==> shown(
                    orphans,
                    on_fs[m].id,
                ),
        decreases fs.len() - j,
    {
        let s = &fs[j];
        assert(on_fs[j as int] == s.deep_view());
        let ghost before_orphans = orphans;
        if !is_known(rows, &s.id) {
            let info = SessionInfo {
                id: s.id.clone(),
                title: None,
                directory: None,
                time_updated: s.mtime,
                disk_size: s.size,
                parts: copy_parts(&s.parts),
                db_only: false,
                orphan: true,
                protected: is_protected(now, s.mtime),
                age_ms: age_ms(now, s.mtime),
            };
            let ghost before = sessions.deep_view();
            let ghost new_info = info.deep_view();
            assert(new_info =~= orphan_info(all@, s.id@, now));
            sessions.push(info);
            proof {
                assert(sessions.deep_view() =~= before.push(new_info));
                orphans = orphans.push(new_info);
                origin = origin.push(j as int);
                assert(sessions.deep_view() =~= infos + orphans);
                assert(orphans[before_orphans.len() as int].id == s.id@);
                assert(shown(orphans, s.id@));
            }
        }
        proof {
            assert forall|m: int|
                0 <= m < j + 1 && !known(in_db, (#[trigger] on_fs[m]).id) implies shown(
                orphans,
                on_fs[m].id,
            ) by {
                if m < j {
                    let k = choose|k: int|
                        0 <= k < before_orphans.len() && (#[trigger] before_orphans[k]).id
                            == on_fs[m].id;
                    assert(orphans[k].id == on_fs[m].id);
                }
            }
        }
        j += 1;
    }
    proof {
        assert forall|k: int, l: int| 0 <= k < l < orphans.len() implies (#[trigger] orphans[k]).id
            != (#[trigger] orphans[l]).id by {
            assert(origin[k] < origin[l]);
            assert(on_fs[origin[k]].id != on_fs[origin[l]].id);
        }
        assert forall|id: Seq<char>| #[trigger]
            shown(orphans, id) == (on_disk(all@, id) && !known(in_db, id)) by {
            assert(among(on_fs, id) == on_disk(all@, id));
            if shown(orphans, id) {
                let k = choose|k: int| 0 <= k < orphans.len() && (#[trigger] orphans[k]).id == id;
                assert(on_fs[origin[k]].id == id);
            }
            if on_disk(all@, id) && !known(in_db, id) {
                let m = choose|m: int| 0 <= m < on_fs.len() && (#[trigger] on_fs[m]).id == id;
                assert(shown(orphans, on_fs[m].id));
            }
        }
        assert(are_orphans(all@, in_db, now, orphans));
    }
    let ghost unsorted = sessions@;
    let sorted = sort_newest_first(sessions);
    proof {
        let seen = |s: SessionInfo| s.deep_view();
        let seen_time = |s: SessionInfoView| s.time_updated;
        lemma_newest_first_seen(unsorted, sorted@, |s: SessionInfo| s.time(), seen, seen_time);
        assert(unsorted.map_values(seen) =~= infos + orphans);
        assert(sorted@.map_values(seen) =~= sorted.deep_view());
    }
    sorted
}

/// Whether all times can be read and all bytes be counted in 64 bits.
pub fn is_scannable(input: &ScanInput) -> (r: bool)
    ensures
        r == scannable(*input),
{
    if group_sessions(&input.listings, &input.rollout).is_none() {
        return false;
    }
    match &input.db {
        DbScan::Closed(_) => {},
        DbScan::Read { rows, .. } => {
            let ghost all = rows_read(input.db);
            let mut i: usize = 0;
            while i < rows.len()
                invariant
                    all == rows.deep_view(),
                    all == rows_read(input.db),
                    i <= rows.len(),
                    forall|k: int| 0 <= k < i ==> readable_row(#[trigger] all[k]),
                decreases rows.len() - i,
            {
                assert(all[i as int] == rows@[i as int].deep_view());
                if !stamp_is_readable(rows[i].time_updated) || !stamp_is_readable(
                    rows[i].time_created,
                ) {
                    assert(!readable_row(all[i as int]));
                    return false;
                }
                i += 1;
            }
        },
    }
    is_loggable(&input.cli_log) && is_loggable(&input.v2_log) && measure(
        &input.plugin_cache,
    ).is_some() && measure(&input.crash).is_some()
}

/// Scans: puts together what the database and the disk hold of sessions, and lists the caches.
pub fn scan_impl(input: &ScanInput) -> (r: ScanReport)
    requires
        scannable(*input),
    ensures
        reports(*input, r),
{
    let ghost all = disk_of(*input);
    let fs = scan_fs_sessions(&input.listings, &input.rollout);
    let no_rows: Vec<DbRow> = Vec::new();
    let (rows, db_error): (&Vec<DbRow>, Option<String>) = match &input.db {
        DbScan::Closed(error) => (&no_rows, Some(error.clone())),
        DbScan::Read { rows, failure } => match failure {
            Some(error) => {
                let mut message = "读取会话表失败: ".to_owned();
                message.append(error.as_str());
                (rows, Some(message))
            },
            None => (rows, None),
        },
    };
    assert(rows.deep_view() =~= rows_read(input.db));
    assert(db_error.deep_view() == db_error_text(input.db));
    let sessions = merge_sessions(rows, &fs, input.now, Ghost(all));
    let mut caches: Vec<CacheInfo> = Vec::new();
    caches.push(scan_dated_log(CLI_LOG_DIR, &input.cli_log));
    caches.push(scan_dated_log(V2_LOG_DIR, &input.v2_log));
    caches.push(
        scan_tree(
            "plugin-cache",
            "插件缓存",
            PLUGIN_CACHE_DIR,
            "插件下载缓存，清理后按需重新下载",
            &input.plugin_cache,
        ),
    );
    caches.push(
        scan_tree(
            "crash",
            "崩溃转储",
            CRASH_DIR,
            "崩溃 .dmp 诊断文件，通常无用",
            &input.crash,
        ),
    );
    let db_busy_hint = match input.wal_mtime {
        Some(time) => input.now.saturating_sub(time) < BUSY_MS,
        None => false,
    };
    ScanReport {
        root: input.root.clone(),
        total_size: input.total_size,
        db_size: input.db_size,
        db_session_count: rows.len(),
        db_error,
        db_busy_hint,
        sessions,
        caches,
    }
}

/// The orphans among the sessions that a scan shows, and where each session stood before sorting:
/// first the sessions of the database, then the orphans.
proof fn lemma_sorted_sessions(
    all: Seq<Contribution>,
    rows: Seq<DbRowView>,
    now: u128,
    sessions: Seq<SessionInfoView>,
) -> (r: (Seq<SessionInfoView>, Seq<int>))
    requires
        are_sessions(all, rows, now, sessions),
    ensures
        are_orphans(all, rows, now, r.0),
        newest_order(
            row_infos(all, rows, now) + r.0,
            sessions,
            |s: SessionInfoView| s.time_updated,
            r.1,
        ),
        r.1.no_duplicates(),
        forall|i: int| 0 <= i < rows.len() + r.0.len() ==> #[trigger] r.1.contains(i),
{
    let time = |s: SessionInfoView| s.time_updated;
    let orphans = choose|orphans: Seq<SessionInfoView>|
        #![trigger are_orphans(all, rows, now, orphans)]
        are_orphans(all, rows, now, orphans) && newest_first(
            row_infos(all, rows, now) + orphans,
            sessions,
            |s: SessionInfoView| s.time_updated,
        );
    let both = row_infos(all, rows, now) + orphans;
    let places = choose|places: Seq<int>| newest_order(both, sessions, time, places);
    law_sorting_keeps_every_item(both, sessions, time, places);
    (orphans, places)
}

/// A scan shows the sessions that the database knows and those that are on disk, and no others.
pub proof fn law_every_session_is_shown(
    all: Seq<Contribution>,
    rows: Seq<DbRowView>,
    now: u128,
    sessions: Seq<SessionInfoView>,
    id: Seq<char>,
)
    requires
        are_sessions(all, rows, now, sessions),
    ensures
        shown(sessions, id) == (known(rows, id) || on_disk(all, id)),
{
    let (orphans, places) = lemma_sorted_sessions(all, rows, now, sessions);
    let infos = row_infos(all, rows, now);
    let both = infos + orphans;
    assert(shown(orphans, id) == (on_disk(all, id) && !known(rows, id)));
    if known(rows, id) {
        let k = choose|k: int| 0 <= k < rows.len() && (#[trigger] rows[k]).id == id;
        assert(places.contains(k));
        let m = choose|m: int| 0 <= m < places.len() && places[m] == k;
        assert(sessions[m] == both[k]);
    }
    if shown(orphans, id) {
        let k = choose|k: int| 0 <= k < orphans.len() && (#[trigger] orphans[k]).id == id;
        assert(places.contains(infos.len() + k));
        let m = choose|m: int| 0 <= m < places.len() && places[m] == infos.len() + k;
        assert(sessions[m] == both[infos.len() + k]);
    }
    if shown(sessions, id) {
        let m = choose|m: int| 0 <= m < sessions.len() && (#[trigger] sessions[m]).id == id;
        let k = places[m];
        assert(sessions[m] == both[k]);
        if k < infos.len() {
            assert(rows[k].id == id);
        } else {
            assert(orphans[k - infos.len()].id == id);
        }
    }
}

/// Of each session that a scan shows: it is an orphan exactly if it is on disk and the database does
/// not know it; only the database knows it exactly if the database does and nothing of it is on disk;
/// and it is protected exactly if it was last active less than 24 hours ago.
pub proof fn law_marks_of_a_session(
    all: Seq<Contribution>,
    rows: Seq<DbRowView>,
    now: u128,
    sessions: Seq<SessionInfoView>,
    k: int,
)
    requires
        are_sessions(all, rows, now, sessions),
        0 <= k < sessions.len(),
    ensures
        sessions[k].orphan == (on_disk(all, sessions[k].id) && !known(rows, sessions[k].id)),
        sessions[k].db_only == (known(rows, sessions[k].id) && !on_disk(all, sessions[k].id)),
        sessions[k].protected == protected_at(now, sessions[k].time_updated),
{
    let (orphans, places) = lemma_sorted_sessions(all, rows, now, sessions);
    let infos = row_infos(all, rows, now);
    let both = infos + orphans;
    let m = places[k];
    assert(both[m] == sessions[k]);
    if m < infos.len() {
        assert(both[m] == row_info(all, rows[m], now));
        assert(rows[m].id == sessions[k].id);
        if on_disk(all, rows[m].id) {
            lemma_present(all, rows[m].id);
        } else {
            lemma_absent(all, rows[m].id);
        }
    } else {
        assert(orphans[m - infos.len()] == sessions[k]);
        assert(shown(orphans, sessions[k].id));
    }
}

/// A scan shows the sessions in the order of their last activity, the latest first.
pub proof fn law_latest_activity_first(
    all: Seq<Contribution>,
    rows: Seq<DbRowView>,
    now: u128,
    sessions: Seq<SessionInfoView>,
    k: int,
    l: int,
)
    requires
        are_sessions(all, rows, now, sessions),
        0 <= k <= l < sessions.len(),
    ensures
        sessions[k].time_updated >= sessions[l].time_updated,
{
    let (orphans, places) = lemma_sorted_sessions(all, rows, now, sessions);
    let both = row_infos(all, rows, now) + orphans;
    if k < l {
        assert(goes_before(both, |s: SessionInfoView| s.time_updated, places[k], places[l]));
    }
}

/// The newer anything on disk or in the database is, the later a session counts as active: its time
/// is not before any of them.
pub proof fn law_session_time_bounds(all: Seq<Contribution>, row: DbRowView, now: u128)
    requires
        readable_row(row),
    ensures
        row_info(all, row, now).time_updated >= stamp_ms(row.time_updated),
        row_info(all, row, now).time_updated >= stamp_ms(row.time_created),
        row_info(all, row, now).time_updated >= fs_session(all, row.id).mtime,
{
}

/// No session is shown twice, where the database has none twice.
pub proof fn law_no_session_is_shown_twice(
    all: Seq<Contribution>,
    rows: Seq<DbRowView>,
    now: u128,
    sessions: Seq<SessionInfoView>,
    k: int,
    l: int,
)
    requires
        are_sessions(all, rows, now, sessions),
        forall|i: int, j: int|
            0 <= i < j < rows.len() ==> (#[trigger] rows[i]).id != (#[trigger] rows[j]).id,
        0 <= k < l < sessions.len(),
    ensures
        sessions[k].id != sessions[l].id,
{
    let (orphans, places) = lemma_sorted_sessions(all, rows, now, sessions);
    let infos = row_infos(all, rows, now);
    let both = infos + orphans;
    let i = places[k];
    let j = places[l];
    assert(i != j);
    assert(sessions[k] == both[i] && sessions[l] == both[j]);
    if i < infos.len() && j < infos.len() {
        assert(rows[i].id != rows[j].id);
    } else if i >= infos.len() && j >= infos.len() {
        assert(orphans[i - infos.len()].id != orphans[j - infos.len()].id);
    } else if i < infos.len() {
        assert(known(rows, rows[i].id));
        assert(shown(orphans, orphans[j - infos.len()].id));
    } else {
        assert(known(rows, rows[j].id));
        assert(shown(orphans, orphans[i - infos.len()].id));
    }
}

/// The positions of the sessions that are no orphans.
pub open spec fn from_database(sessions: Seq<SessionInfoView>) -> Set<int> {
    Set::new(|k: int| 0 <= k < sessions.len() && !sessions[k].orphan)
}

/// As many sessions are shown that are no orphans as were read from the database.
pub proof fn law_every_row_is_shown_once(
    all: Seq<Contribution>,
    rows: Seq<DbRowView>,
    now: u128,
    sessions: Seq<SessionInfoView>,
)
    requires
        are_sessions(all, rows, now, sessions),
    ensures
        from_database(sessions).finite(),
        from_database(sessions).len() == rows.len(),
{
    let (orphans, places) = lemma_sorted_sessions(all, rows, now, sessions);
    let infos = row_infos(all, rows, now);
    let both = infos + orphans;
    let shown_at = from_database(sessions);
    let place = |k: int| places[k];
    let range = set_int_range(0, rows.len() as int);
    lemma_int_range(0, rows.len() as int);
    lemma_int_range(0, sessions.len() as int);
    assert(shown_at.subset_of(set_int_range(0, sessions.len() as int)));
    lemma_len_subset(shown_at, set_int_range(0, sessions.len() as int));
    assert forall|k: int| 0 <= k < sessions.len() implies (#[trigger] sessions[k]).orphan == (places[k]
        >= infos.len()) by {
        assert(sessions[k] == both[places[k]]);
        if places[k] >= infos.len() {
            assert(orphans[places[k] - infos.len()].orphan);
        }
    }
    assert(shown_at.map(place) =~= range) by {
        assert forall|i: int| range.contains(i) implies #[trigger] shown_at.map(place).contains(i) by {
            assert(places.contains(i));
            let k = choose|k: int| 0 <= k < places.len() && places[k] == i;
            assert(!sessions[k].orphan);
            assert(shown_at.contains(k) && place(k) == i);
        }
        assert forall|i: int| #[trigger] shown_at.map(place).contains(i) implies range.contains(i) by {
            let k = choose|k: int| shown_at.contains(k) && i == place(k);
            assert(!sessions[k].orphan);
        }
    }
    lemma_map_size(shown_at, range, place);
}

/// Of a session of the database, a scan shows the row's own id, title and project directory; as the
/// time of its last activity the latest of the row's two timestamps and of what is on disk; its parts
/// on disk and their size; and its age and whether it is protected at that time.
pub proof fn law_row_is_shown_as_it_is(all: Seq<Contribution>, row: DbRowView, now: u128)
    requires
        readable_row(row),
        fs_session(all, row.id).size <= 0xffff_ffff_ffff_ffff,
    ensures
        ({
            let s = row_info(all, row, now);
            let fs = fs_session(all, row.id);
            &&& s.id == row.id
            &&& s.title == row.title
            &&& s.directory == row.directory
            &&& s.time_updated >= stamp_ms(row.time_updated)
            &&& s.time_updated >= stamp_ms(row.time_created)
            &&& s.time_updated >= fs.mtime
            &&& s.time_updated == stamp_ms(row.time_updated) || s.time_updated == stamp_ms(
                row.time_created,
            ) || s.time_updated == fs.mtime
            &&& s.disk_size == fs.size
            &&& s.parts == fs.parts
            &&& s.db_only == (fs.parts.len() == 0)
            &&& !s.orphan
            &&& s.protected == (now - s.time_updated < 24 * 3600 * 1000)
            &&& s.time_updated <= now ==> s.time_updated + s.age_ms == now
            &&& s.time_updated > now ==> s.age_ms == 0
        }),
        readable_row(row) == (readable_stamp(row.time_updated) && readable_stamp(row.time_created)),
{
}

/// Of an orphan, a scan shows its id, no title and no directory; and the time, parts, size, age and
/// protection that go by what is on disk.
pub proof fn law_orphan_is_shown_as_it_is(all: Seq<Contribution>, id: Seq<char>, now: u128)
    requires
        fs_session(all, id).size <= 0xffff_ffff_ffff_ffff,
    ensures
        ({
            let s = orphan_info(all, id, now);
            let fs = fs_session(all, id);
            &&& s.id == id
            &&& s.title is None
            &&& s.directory is None
            &&& s.time_updated == fs.mtime
            &&& s.disk_size == fs.size
            &&& s.parts == fs.parts
            &&& !s.db_only
            &&& s.orphan
            &&& s.protected == (now - fs.mtime < 24 * 3600 * 1000)
            &&& fs.mtime <= now ==> fs.mtime + s.age_ms == now
            &&& fs.mtime > now ==> s.age_ms == 0
        }),
{
}

/// Every row of the database is shown, with its own id, title and project directory.
pub proof fn law_every_row_is_shown(
    all: Seq<Contribution>,
    rows: Seq<DbRowView>,
    now: u128,
    sessions: Seq<SessionInfoView>,
    k: int,
)
    requires
        are_sessions(all, rows, now, sessions),
        0 <= k < rows.len(),
    ensures
        exists|m: int|
            0 <= m < sessions.len() && #[trigger] sessions[m] == row_info(all, rows[k], now)
                && sessions[m].id == rows[k].id && sessions[m].title == rows[k].title
                && sessions[m].directory == rows[k].directory,
{
    let (orphans, places) = lemma_sorted_sessions(all, rows, now, sessions);
    let both = row_infos(all, rows, now) + orphans;
    assert(places.contains(k));
    let m = choose|m: int| 0 <= m < places.len() && places[m] == k;
    assert(sessions[m] == both[k]);
    assert(both[k] == row_info(all, rows[k], now));
}

/// Every session of which something is on disk, and which is no row of the database, is shown as an
/// orphan.
pub proof fn law_every_orphan_is_shown(
    all: Seq<Contribution>,
    rows: Seq<DbRowView>,
    now: u128,
    sessions: Seq<SessionInfoView>,
    j: int,
)
    requires
        are_sessions(all, rows, now, sessions),
        0 <= j < all.len(),
        forall|k: int| 0 <= k < rows.len() ==> (#[trigger] rows[k]).id != all[j].id,
    ensures
        exists|m: int|
            0 <= m < sessions.len() && #[trigger] sessions[m] == orphan_info(all, all[j].id, now),
{
    let id = all[j].id;
    let (orphans, places) = lemma_sorted_sessions(all, rows, now, sessions);
    let infos = row_infos(all, rows, now);
    assert(on_disk(all, id));
    assert(!known(rows, id));
    assert(shown(orphans, id));
    let k = choose|k: int| 0 <= k < orphans.len() && (#[trigger] orphans[k]).id == id;
    assert(places.contains(infos.len() + k));
    let m = choose|m: int| 0 <= m < places.len() && places[m] == infos.len() + k;
    assert(sessions[m] == (infos + orphans)[infos.len() + k]);
    assert(sessions[m] == orphan_info(all, id, now));
}

/// Nothing else is shown: each session is a row of the database, or an orphan of which something is on
/// disk and which is no row.
pub proof fn law_only_rows_and_orphans_are_shown(
    all: Seq<Contribution>,
    rows: Seq<DbRowView>,
    now: u128,
    sessions: Seq<SessionInfoView>,
    m: int,
)
    requires
        are_sessions(all, rows, now, sessions),
        0 <= m < sessions.len(),
    ensures
        (exists|k: int|
            0 <= k < rows.len() && sessions[m] == row_info(all, #[trigger] rows[k], now)) || (
        sessions[m] == orphan_info(all, sessions[m].id, now) && (exists|j: int|
            0 <= j < all.len() && (#[trigger] all[j]).id == sessions[m].id) && (forall|k: int|
            0 <= k < rows.len() ==> (#[trigger] rows[k]).id != sessions[m].id)),
{
    let (orphans, places) = lemma_sorted_sessions(all, rows, now, sessions);
    let infos = row_infos(all, rows, now);
    let at = places[m];
    assert(sessions[m] == (infos + orphans)[at]);
    if at < infos.len() {
        assert(sessions[m] == row_info(all, rows[at], now));
    } else {
        assert(orphans[at - infos.len()] == sessions[m]);
        assert(shown(orphans, sessions[m].id));
        assert(on_disk(all, sessions[m].id) && !known(rows, sessions[m].id));
    }
}

/// ZCode counts as running exactly if the write-ahead log is there and was written less than two
/// minutes ago, or is from the future.
pub proof fn law_running_means_written_within_two_minutes(now: u128, time: u128)
    ensures
        busy_at(now, Some(time)) == (now - time < 2 * 60 * 1000),
        !busy_at(now, None),
{
}

/// A database that could not be opened gives its error and no sessions; one that failed while it was
/// read gives the sessions up to there, and the error under its heading; else there is no error.
pub proof fn law_database_errors(rows: Vec<DbRow>, error: String)
    ensures
        rows_read(DbScan::Closed(error)).len() == 0,
        db_error_text(DbScan::Closed(error)) == Some(error@),
        rows_read(DbScan::Read { rows, failure: Some(error) }) == rows.deep_view(),
        db_error_text(DbScan::Read { rows, failure: Some(error) }) == Some(
            "读取会话表失败: "@ + error@,
        ),
        rows_read(DbScan::Read { rows, failure: None }) == rows.deep_view(),
        db_error_text(DbScan::Read { rows, failure: None }) is None,
{
}

/// The report of a scan holds what the scan was told, the sessions merged from all that is on disk and
/// all rows, and the four caches in this order.
pub proof fn law_report_holds_what_was_found(input: ScanInput, report: ScanReport)
    requires
        reports(input, report),
    ensures
        report.root@ == input.root@,
        report.total_size == input.total_size,
        report.db_size == input.db_size,
        report.db_session_count == rows_read(input.db).len(),
        report.db_error.deep_view() == db_error_text(input.db),
        report.db_busy_hint == busy_at(input.now, input.wal_mtime),
        are_sessions(
            contributions(input.listings.deep_view(), input.rollout.deep_view()),
            rows_read(input.db),
            input.now,
            report.sessions.deep_view(),
        ),
        report.caches.len() == 4,
        describes_logs(report.caches[0].deep_view(), "cli/log"@, input.cli_log.deep_view()),
        describes_logs(report.caches[1].deep_view(), "v2/logs"@, input.v2_log.deep_view()),
        report.caches[2].deep_view() == tree_info(
            "plugin-cache"@,
            "插件缓存"@,
            "cli/plugins/cache"@,
            "插件下载缓存，清理后按需重新下载"@,
            input.plugin_cache,
        ),
        report.caches[3].deep_view() == tree_info(
            "crash"@,
            "崩溃转储"@,
            "v2/crash"@,
            "崩溃 .dmp 诊断文件，通常无用"@,
            input.crash,
        ),
{
    let caches = report.caches.deep_view();
    assert(caches[0] == report.caches[0].deep_view());
    assert(caches[1] == report.caches[1].deep_view());
    assert(caches[2] == report.caches[2].deep_view());
    assert(caches[3] == report.caches[3].deep_view());
}

/// A scan can be made exactly if no time in the database is negative, no log is from the future, and
/// what each session, each directory of logs and each of the two trees takes fits in 64 bits.
pub proof fn law_scannable_input(input: ScanInput)
    ensures
        scannable(input) == ({
            &&& countable(contributions(input.listings.deep_view(), input.rollout.deep_view()))
            &&& forall|k: int|
                0 <= k < rows_read(input.db).len() ==> readable_stamp(
                    (#[trigger] rows_read(input.db)[k]).time_updated,
                ) && readable_stamp(rows_read(input.db)[k].time_created)
            &&& loggable(input.cli_log.deep_view())
            &&& loggable(input.v2_log.deep_view())
            &&& tree_size(input.plugin_cache) <= 0xffff_ffff_ffff_ffff
            &&& tree_size(input.crash) <= 0xffff_ffff_ffff_ffff
        }),
{
    let rows = rows_read(input.db);
    if scannable(input) {
        assert forall|k: int| 0 <= k < rows.len() implies readable_stamp(
            (#[trigger] rows[k]).time_updated,
        ) && readable_stamp(rows[k].time_created) by {
            assert(readable_row(rows[k]));
        }
    }
}

/// Equally active sessions are shown in the order in which the database has them, and before orphans
/// that are as active.
pub proof fn law_equally_active_sessions_keep_their_order(
    all: Seq<Contribution>,
    rows: Seq<DbRowView>,
    now: u128,
    sessions: Seq<SessionInfoView>,
    k: int,
    l: int,
    n: int,
)
    requires
        are_sessions(all, rows, now, sessions),
        0 <= k < rows.len(),
    ensures
        k < l < rows.len() && row_info(all, rows[k], now).time_updated == row_info(
            all,
            rows[l],
            now,
        ).time_updated ==> exists|i: int, j: int|
            0 <= i < j < sessions.len() && #[trigger] sessions[i] == row_info(all, rows[k], now)
                && #[trigger] sessions[j] == row_info(all, rows[l], now),
        0 <= n < sessions.len() && sessions[n].orphan && sessions[n].time_updated == row_info(
            all,
            rows[k],
            now,
        ).time_updated ==> exists|i: int|
            0 <= i < n && #[trigger] sessions[i] == row_info(all, rows[k], now),
{
    let (orphans, places) = lemma_sorted_sessions(all, rows, now, sessions);
    let infos = row_infos(all, rows, now);
    let both = infos + orphans;
    let time = |s: SessionInfoView| s.time_updated;
    assert(places.contains(k));
    let i = choose|i: int| 0 <= i < places.len() && places[i] == k;
    assert(sessions[i] == both[k]);
    assert(sessions[i] == row_info(all, rows[k], now));
    if k < l < rows.len() {
        assert(places.contains(l));
        let j = choose|j: int| 0 <= j < places.len() && places[j] == l;
        assert(sessions[j] == both[l]);
        assert(sessions[j] == row_info(all, rows[l], now));
        if j < i {
            assert(goes_before(both, time, places[j], places[i]));
        }
    }
    if 0 <= n < sessions.len() && sessions[n].orphan {
        assert(sessions[n] == both[places[n]]);
        if n < i {
            assert(goes_before(both, time, places[n], places[i]));
        }
    }
}

} // verus!
