use zcode_cleaner::caches::{is_loggable, scan_dated_log, scan_tree, LogEntry, LogMeta};
use zcode_cleaner::clock::PROTECT_MS;
use zcode_cleaner::delete::{
    delete_sessions_impl, Activity, DeleteAction, DeleteEvent, Removal,
};
use zcode_cleaner::model::{load_settings, Settings};
use zcode_cleaner::progress::{
    clean_progress, delete_progress, scan_progress, scan_stages, ScanStage,
};
use zcode_cleaner::scan::{is_scannable, scan_impl, DbRow, DbScan, ScanInput, BUSY_MS};
use zcode_cleaner::sessions::{DirListing, FoundDir, FoundFile};
use zcode_cleaner::tree::{DirNode, Entry};

const NOW: u128 = 1_750_000_000_000;

fn log(name: &str, is_file: bool, size: u64, mtime: u128) -> LogEntry {
    LogEntry { name: name.to_string(), meta: Some(LogMeta { is_file, size, mtime, seen_at: NOW }) }
}

fn empty() -> DirNode {
    DirNode { mtime: 0, entries: vec![] }
}

fn row(id: &str, created: Option<i64>, updated: Option<i64>) -> DbRow {
    DbRow {
        id: id.to_string(),
        title: Some(format!("title of {}", id)),
        directory: None,
        time_created: created,
        time_updated: updated,
    }
}

fn input() -> ScanInput {
    ScanInput {
        root: "/home/u/.zcode".to_string(),
        now: NOW,
        total_size: 1234,
        db_size: 56,
        db: DbScan::Read { rows: vec![], failure: None },
        listings: vec![],
        rollout: vec![],
        cli_log: vec![],
        v2_log: vec![],
        plugin_cache: empty(),
        crash: empty(),
        wal_mtime: None,
    }
}

#[test]
fn logs_are_listed_newest_first() {
    let entries = vec![
        log("a", true, 1, 100),
        log("b", true, 2, 300),
        log("dir", false, 1000, 400),
        LogEntry { name: "gone".to_string(), meta: None },
        log("c", true, 4, 300),
        log("d", true, 8, 200),
    ];
    let info = scan_dated_log("cli/log", &entries);
    assert_eq!(info.key, "cli-log");
    assert_eq!(info.name, "CLI 日志");
    assert_eq!(info.path, "cli/log");
    assert_eq!(info.kind, "dated-log");
    assert_eq!(info.note, "按日期的运行日志，可按保留天数清理");
    assert_eq!(info.total_size, 15);
    assert_eq!(info.file_count, Some(4));
    let files: Vec<(String, u64, u128, u128)> = info
        .files
        .unwrap()
        .into_iter()
        .map(|f| (f.name, f.size, f.mtime, f.age_ms))
        .collect();
    assert_eq!(
        files,
        vec![
            ("b".to_string(), 2, 300, NOW - 300),
            ("c".to_string(), 4, 300, NOW - 300),
            ("d".to_string(), 8, 200, NOW - 200),
            ("a".to_string(), 1, 100, NOW - 100),
        ]
    );
    let other = scan_dated_log("v2/logs", &vec![]);
    assert_eq!((other.key.as_str(), other.name.as_str()), ("v2-log", "v2 日志"));
    assert_eq!((other.total_size, other.file_count), (0, Some(0)));
}

#[test]
fn logs_from_the_future_or_beyond_counting_are_told() {
    assert!(is_loggable(&vec![log("a", true, 1, NOW)]));
    assert!(!is_loggable(&vec![log("a", true, 1, NOW + 1)]));
    assert!(is_loggable(&vec![log("a", false, 1, NOW + 1)]));
    assert!(is_loggable(&vec![log("a", true, u64::MAX, 1)]));
    assert!(!is_loggable(&vec![log("a", true, u64::MAX, 1), log("b", true, 1, 1)]));
}

#[test]
fn trees_are_measured() {
    let tree = DirNode { mtime: 1, entries: vec![Entry::Leaf { len: 9, mtime: 2 }] };
    let info = scan_tree("crash", "崩溃转储", "v2/crash", "note", &tree);
    assert_eq!(info.key, "crash");
    assert_eq!(info.name, "崩溃转储");
    assert_eq!(info.path, "v2/crash");
    assert_eq!(info.kind, "tree");
    assert_eq!(info.note, "note");
    assert_eq!(info.total_size, 9);
    assert!(info.file_count.is_none() && info.files.is_none());
}

#[test]
fn scan_merges_database_and_disk() {
    let mut i = input();
    let day = PROTECT_MS;
    i.db = DbScan::Read {
        rows: vec![
            // Seconds, two days old; its files are from an hour ago.
            row("sess_a", None, Some(((NOW - 2 * day) / 1000) as i64)),
            // Milliseconds, the time of creation is the later one.
            row("sess_b", Some((NOW - 3 * day) as i64), Some((NOW - 4 * day) as i64)),
            // No times at all.
            row("sess_c", None, None),
        ],
        failure: None,
    };
    i.listings = vec![DirListing {
        loc: "agents".to_string(),
        found: vec![
            FoundDir { name: "sess_a".to_string(), is_dir: true, size: 10, mtime: NOW - 3_600_000 },
            FoundDir { name: "sess_x".to_string(), is_dir: true, size: 20, mtime: NOW - day },
        ],
    }];
    i.rollout = vec![FoundFile {
        name: "model-io-sess_c.jsonl".to_string(),
        size: 0,
        mtime: NOW - 5 * day,
    }];
    assert!(is_scannable(&i));
    let r = scan_impl(&i);
    assert_eq!(r.root, "/home/u/.zcode");
    assert_eq!((r.total_size, r.db_size, r.db_session_count), (1234, 56, 3));
    assert_eq!(r.db_error, None);
    assert!(!r.db_busy_hint);
    let ids: Vec<&str> = r.sessions.iter().map(|s| s.id.as_str()).collect();
    assert_eq!(ids, vec!["sess_a", "sess_x", "sess_b", "sess_c"]);
    assert_eq!(r.sessions.iter().filter(|s| !s.orphan).count(), r.db_session_count);

    let a = &r.sessions[0];
    assert_eq!(a.title.as_deref(), Some("title of sess_a"));
    assert_eq!(a.directory, None);
    assert_eq!((a.time_updated, a.age_ms), (NOW - 3_600_000, 3_600_000));
    assert_eq!((a.disk_size, a.parts.len()), (10, 1));
    assert_eq!((a.db_only, a.orphan, a.protected), (false, false, true));

    let x = &r.sessions[1];
    assert_eq!((x.title.clone(), x.disk_size, x.time_updated), (None, 20, NOW - day));
    assert_eq!((x.db_only, x.orphan, x.protected), (false, true, false));

    let b = &r.sessions[2];
    assert_eq!(b.time_updated, NOW - 3 * day);
    assert_eq!((b.disk_size, b.parts.len()), (0, 0));
    assert_eq!((b.db_only, b.orphan, b.protected), (true, false, false));

    let c = &r.sessions[3];
    assert_eq!(c.time_updated, NOW - 5 * day);
    // An empty file is on disk all the same.
    assert_eq!((c.disk_size, c.parts.len(), c.db_only), (0, 1, false));

    let caches: Vec<(&str, &str)> =
        r.caches.iter().map(|c| (c.key.as_str(), c.path.as_str())).collect();
    assert_eq!(
        caches,
        vec![
            ("cli-log", "cli/log"),
            ("v2-log", "v2/logs"),
            ("plugin-cache", "cli/plugins/cache"),
            ("crash", "v2/crash"),
        ]
    );
    assert_eq!(r.caches[2].name, "插件缓存");
    assert_eq!(r.caches[2].note, "插件下载缓存，清理后按需重新下载");
    assert_eq!(r.caches[3].name, "崩溃转储");
    assert_eq!(r.caches[3].note, "崩溃 .dmp 诊断文件，通常无用");
}

#[test]
fn database_errors_are_reported() {
    let mut i = input();
    i.db = DbScan::Closed("数据库不存在".to_string());
    i.rollout =
        vec![FoundFile { name: "model-io-sess_c.jsonl".to_string(), size: 3, mtime: 1 }];
    let r = scan_impl(&i);
    assert_eq!(r.db_error.as_deref(), Some("数据库不存在"));
    assert_eq!(r.db_session_count, 0);
    assert_eq!(r.sessions.len(), 1);
    assert!(r.sessions[0].orphan);

    i.db = DbScan::Read {
        rows: vec![row("sess_c", None, Some(5))],
        failure: Some("disk I/O error".to_string()),
    };
    let r = scan_impl(&i);
    assert_eq!(r.db_error.as_deref(), Some("读取会话表失败: disk I/O error"));
    assert_eq!(r.db_session_count, 1);
    assert_eq!(r.sessions.len(), 1);
    assert!(!r.sessions[0].orphan);
    assert_eq!(r.sessions[0].time_updated, 5_000);
}

#[test]
fn recent_wal_hints_at_a_running_zcode() {
    let mut i = input();
    i.wal_mtime = Some(NOW - BUSY_MS + 1);
    assert!(scan_impl(&i).db_busy_hint);
    i.wal_mtime = Some(NOW - BUSY_MS);
    assert!(!scan_impl(&i).db_busy_hint);
    i.wal_mtime = Some(NOW + 5);
    assert!(scan_impl(&i).db_busy_hint);
}

#[test]
fn unreadable_input_is_told() {
    let mut i = input();
    assert!(is_scannable(&i));
    i.db = DbScan::Read { rows: vec![row("sess_a", Some(-1), None)], failure: None };
    assert!(!is_scannable(&i));
    let mut i = input();
    i.crash = DirNode {
        mtime: 1,
        entries: vec![
            Entry::Leaf { len: u64::MAX, mtime: 1 },
            Entry::Leaf { len: u64::MAX, mtime: 1 },
        ],
    };
    assert!(!is_scannable(&i));
    let mut i = input();
    i.v2_log = vec![log("a", true, 1, NOW + 1)];
    assert!(!is_scannable(&i));
}

#[test]
fn progress_messages() {
    let p = delete_progress(11, 627, "sess_0123456789012345678901234567");
    assert_eq!((p.stage.as_str(), p.current, p.total), ("delete", 11, 627));
    assert_eq!(p.message, "正在删除会话 12/627：sess_0123456789012345678");
    let p = clean_progress(0, 2, "cli-log");
    assert_eq!((p.stage.as_str(), p.current, p.total), ("clean", 0, 2));
    assert_eq!(p.message, "正在清理缓存 1/2：cli-log");
    let p = scan_progress(ScanStage::Files);
    assert_eq!((p.stage.as_str(), p.current, p.total), ("scan", 0, 0));
    assert_eq!(p.message, "正在扫描会话文件…");
    let p = scan_progress(ScanStage::Database);
    assert_eq!((p.current, p.total, p.message.as_str()), (1, 3, "正在读取会话数据库…"));
    let p = scan_progress(ScanStage::Caches);
    assert_eq!((p.current, p.total, p.message.as_str()), (2, 3, "正在扫描缓存…"));
    let p = scan_progress(ScanStage::Total);
    assert_eq!((p.current, p.total, p.message.as_str()), (3, 4, "正在统计总占用（较慢）…"));
}

#[test]
fn settings_default() {
    let d = Settings::default();
    assert_eq!((d.session_keep_days, d.log_keep_days), (30, 7));
    assert_eq!((d.clean_plugin_cache, d.clean_crash, d.protect_active), (false, true, true));
    assert_eq!(load_settings(None), d);
    let own = Settings { log_keep_days: 3, ..d };
    assert_eq!(load_settings(Some(own)), own);
}

#[test]
fn spared_sessions_are_shown_protected() {
    let mut i = input();
    let recent = (NOW - 1000) as i64;
    let long_ago = (NOW - 2 * PROTECT_MS) as i64;
    i.db = DbScan::Read {
        rows: vec![row("sess_a", None, Some(recent)), row("sess_b", None, Some(long_ago))],
        failure: None,
    };
    i.listings = vec![DirListing {
        loc: "exec".to_string(),
        found: vec![
            FoundDir { name: "sess_b".to_string(), is_dir: true, size: 1, mtime: 5 },
            FoundDir { name: "sess_x".to_string(), is_dir: true, size: 1, mtime: NOW - 7 },
        ],
    }];
    let shown: Vec<(String, bool)> =
        scan_impl(&i).sessions.into_iter().map(|s| (s.id, s.protected)).collect();
    assert_eq!(
        shown,
        vec![
            ("sess_x".to_string(), true),
            ("sess_a".to_string(), true),
            ("sess_b".to_string(), false),
        ]
    );
    let activity = [
        ("sess_a", 0, Some(recent)),
        ("sess_b", 5, Some(long_ago)),
        ("sess_x", NOW - 7, Some(0)),
    ];
    for (id, mtime, stamp) in activity {
        let mut run = delete_sessions_impl(vec![id.to_string()], false, NOW);
        run.advance(DeleteEvent::Told);
        run.advance(DeleteEvent::Active(Activity {
            mtimes: vec![0, 0, mtime, 0, 0],
            db_time: Some(stamp),
        }));
        let protected = shown.iter().any(|(s, p)| s == id && *p);
        assert_eq!(run.report.skipped.len() == 1, protected, "{}", id);
    }
}

#[test]
fn stages_come_in_order() {
    let short = vec![ScanStage::Files, ScanStage::Database, ScanStage::Caches];
    assert_eq!(scan_stages(false), short);
    assert_eq!(scan_stages(true)[..3], short[..]);
    assert_eq!(scan_stages(true)[3..], [ScanStage::Total]);
}

#[test]
fn deleted_session_frees_what_was_shown_and_is_gone() {
    let listing = |names: &[(&str, u64)]| {
        names
            .iter()
            .map(|(n, size)| FoundDir { name: n.to_string(), is_dir: true, size: *size, mtime: 1 })
            .collect::<Vec<FoundDir>>()
    };
    let rollout = |name: &str, size: u64| FoundFile { name: name.to_string(), size, mtime: 2 };
    let mut i = input();
    i.db = DbScan::Read {
        rows: vec![row("sess_a", None, None), row("sess_b", None, None)],
        failure: None,
    };
    i.listings = vec![
        DirListing { loc: "agents".to_string(), found: listing(&[("sess_a", 10), ("sess_b", 4)]) },
        DirListing { loc: "exec".to_string(), found: listing(&[("sess_a", 300)]) },
    ];
    i.rollout = vec![rollout("model-io-sess_a.jsonl", 7), rollout("model-io-sess_b.jsonl", 9)];
    let shown = scan_impl(&i);
    let size = shown.sessions.iter().find(|s| s.id == "sess_a").unwrap().disk_size;
    assert_eq!(size, 317);

    let mut run = delete_sessions_impl(vec!["sess_a".to_string()], true, NOW);
    run.advance(DeleteEvent::Told);
    run.advance(DeleteEvent::Active(Activity { mtimes: vec![0; 5], db_time: None }));
    run.advance(DeleteEvent::RowsDeleted(1, vec!["sess_a".to_string()]));
    while let DeleteAction::Remove(t) = run.action() {
        let found = match t.is_dir {
            true => i
                .listings
                .iter()
                .filter(|l| l.loc == t.loc)
                .flat_map(|l| l.found.iter())
                .find(|f| f.name == t.name)
                .map(|f| f.size),
            false => i.rollout.iter().find(|f| f.name == t.name).map(|f| f.size),
        };
        if t.is_dir {
            for l in i.listings.iter_mut().filter(|l| l.loc == t.loc) {
                l.found.retain(|f| f.name != t.name);
            }
        } else {
            i.rollout.retain(|f| f.name != t.name);
        }
        run.advance(DeleteEvent::Removal(match found {
            Some(size) => Removal::Removed(size),
            None => Removal::Absent,
        }));
    }
    assert_eq!((run.report.deleted, run.report.freed_disk), (1, size));

    i.db = DbScan::Read { rows: vec![row("sess_b", None, None)], failure: None };
    let left = scan_impl(&i).sessions;
    assert_eq!(left.len(), 1);
    assert_eq!((left[0].id.as_str(), left[0].disk_size), ("sess_b", 13));
}
