use zcode_cleaner::caches::{LogEntry, LogMeta};
use zcode_cleaner::clean::{
    cache_kind, clean_caches_impl, clean_dated_log, finish_cleaning, CacheKind, CleanAction,
    CleanEvent, CleanRun,
};
use zcode_cleaner::clock::DAY_MS;
use zcode_cleaner::total::TotalCache;

const NOW: u128 = 1_750_000_000_000;

fn texts(list: &[&str]) -> Vec<String> {
    list.iter().map(|s| s.to_string()).collect()
}

fn log(name: &str, is_file: bool, size: u64, mtime: u128) -> LogEntry {
    LogEntry { name: name.to_string(), meta: Some(LogMeta { is_file, size, mtime, seen_at: NOW }) }
}

fn step(run: &mut CleanRun, event: CleanEvent) {
    assert!(run.can_take(&event), "{:?} in {:?}", event, run);
    run.advance(event);
}

#[test]
fn keys_stand_for_caches() {
    assert!(matches!(cache_kind("cli-log"), CacheKind::Logs("cli/log")));
    assert!(matches!(cache_kind("v2-log"), CacheKind::Logs("v2/logs")));
    assert!(matches!(cache_kind("plugin-cache"), CacheKind::Tree("cli/plugins/cache")));
    assert!(matches!(cache_kind("crash"), CacheKind::Tree("v2/crash")));
    assert!(matches!(cache_kind("db"), CacheKind::Unknown));
}

#[test]
fn old_files_are_selected() {
    let entries = vec![
        log("at", true, 1, 100),
        log("after", true, 2, 101),
        log("before", true, 4, 99),
        log("dir", false, 8, 0),
        LogEntry { name: "gone".to_string(), meta: None },
    ];
    let old: Vec<(usize, String, u64)> =
        clean_dated_log(&entries, 100).into_iter().map(|f| (f.at, f.name, f.size)).collect();
    assert_eq!(old, vec![(0, "at".to_string(), 1), (2, "before".to_string(), 4)]);
    let fewer: Vec<String> = clean_dated_log(&entries, 99).into_iter().map(|f| f.name).collect();
    assert_eq!(fewer, texts(&["before"]));
}

#[test]
fn old_logs_are_removed() {
    let mut run = clean_caches_impl(texts(&["cli-log", "v2-log"]), 7, NOW);
    assert_eq!(run.cutoff, NOW - 7 * DAY_MS);
    match run.action() {
        CleanAction::Tell(p) => assert_eq!(p.message, "正在清理缓存 1/2：cli-log"),
        other => panic!("{:?}", other),
    }
    step(&mut run, CleanEvent::Told);
    assert!(matches!(run.action(), CleanAction::List(rel) if rel == "cli/log"));
    let old = NOW - 7 * DAY_MS;
    step(
        &mut run,
        CleanEvent::Listed(Some(vec![
            log("a", true, 10, old),
            log("b", true, 20, old + 1),
            log("c", true, 40, old - 1),
        ])),
    );
    assert!(matches!(run.action(), CleanAction::RemoveFile { name, .. } if name == "a"));
    step(&mut run, CleanEvent::Removed);
    match run.action() {
        CleanAction::RemoveFile { rel, at, name } => {
            assert_eq!((rel.as_str(), at, name.as_str()), ("cli/log", 2, "c"))
        }
        other => panic!("{:?}", other),
    }
    step(&mut run, CleanEvent::Failed("busy".to_string()));
    assert!(matches!(run.action(), CleanAction::Tell(_)));
    step(&mut run, CleanEvent::Told);
    assert!(matches!(run.action(), CleanAction::List(rel) if rel == "v2/logs"));
    step(&mut run, CleanEvent::Listed(None));
    assert!(matches!(run.action(), CleanAction::Finish));
    assert_eq!((run.report.deleted_files, run.report.freed_disk), (1, 50));
    assert_eq!(run.report.errors, texts(&["cli/log/c: busy"]));
}

#[test]
fn trees_are_removed_and_made_again() {
    let keys = texts(&["plugin-cache", "crash", "crash", "other"]);
    let mut run = clean_caches_impl(keys, 0, NOW);
    step(&mut run, CleanEvent::Told);
    assert!(matches!(run.action(), CleanAction::Probe(rel) if rel == "cli/plugins/cache"));
    step(&mut run, CleanEvent::Probed(Some(500)));
    assert!(matches!(run.action(), CleanAction::RemoveTree(rel) if rel == "cli/plugins/cache"));
    step(&mut run, CleanEvent::Removed);
    assert!(matches!(run.action(), CleanAction::Recreate(rel) if rel == "cli/plugins/cache"));
    step(&mut run, CleanEvent::Recreated);
    step(&mut run, CleanEvent::Told);
    step(&mut run, CleanEvent::Probed(Some(11)));
    step(&mut run, CleanEvent::Failed("denied".to_string()));
    step(&mut run, CleanEvent::Told);
    step(&mut run, CleanEvent::Probed(None));
    step(&mut run, CleanEvent::Told);
    assert!(matches!(run.action(), CleanAction::Finish));
    assert_eq!((run.report.deleted_files, run.report.freed_disk), (0, 511));
    assert_eq!(run.report.errors, texts(&["v2/crash: denied", "other: 未知类别"]));
}

#[test]
fn empty_cleanings() {
    assert!(matches!(clean_caches_impl(vec![], 7, NOW).action(), CleanAction::Finish));
    let mut run = clean_caches_impl(texts(&["v2-log"]), 7, NOW);
    step(&mut run, CleanEvent::Told);
    step(&mut run, CleanEvent::Listed(Some(vec![log("new", true, 1, NOW)])));
    assert!(matches!(run.action(), CleanAction::Finish));
    assert_eq!(run.report.freed_disk, 0);
}

#[test]
fn bytes_beyond_counting_are_not_taken_when_cleaning() {
    let mut run = clean_caches_impl(texts(&["crash", "crash"]), 7, NOW);
    step(&mut run, CleanEvent::Told);
    step(&mut run, CleanEvent::Probed(Some(u64::MAX)));
    step(&mut run, CleanEvent::Removed);
    step(&mut run, CleanEvent::Recreated);
    step(&mut run, CleanEvent::Told);
    assert!(!run.can_take(&CleanEvent::Probed(Some(1))));
    assert!(run.can_take(&CleanEvent::Probed(None)));
    assert!(!run.can_take(&CleanEvent::Told));
}

#[test]
fn failing_removals_are_reported_and_counted() {
    let mut run = clean_caches_impl(texts(&["no", "v2-log"]), 1, NOW);
    step(&mut run, CleanEvent::Told);
    step(&mut run, CleanEvent::Told);
    let entries = vec![log("a", true, 1, 0), log("b", true, 2, 0), log("c", true, 4, 0)];
    step(&mut run, CleanEvent::Listed(Some(entries)));
    step(&mut run, CleanEvent::Failed("busy".to_string()));
    step(&mut run, CleanEvent::Removed);
    step(&mut run, CleanEvent::Failed("denied".to_string()));
    assert!(matches!(run.action(), CleanAction::Finish));
    assert_eq!((run.report.deleted_files, run.report.freed_disk), (1, 7));
    assert_eq!(
        run.report.errors,
        texts(&["no: 未知类别", "v2/logs/a: busy", "v2/logs/c: denied"])
    );
}

#[test]
fn finished_cleaning_forgets_the_total() {
    let mut run = clean_caches_impl(texts(&["crash"]), 0, NOW);
    step(&mut run, CleanEvent::Told);
    step(&mut run, CleanEvent::Probed(Some(3)));
    step(&mut run, CleanEvent::Removed);
    step(&mut run, CleanEvent::Recreated);
    let mut cache = TotalCache { total: 8, valid: true };
    assert_eq!(finish_cleaning(run, &mut cache).freed_disk, 3);
    assert_eq!((cache.total, cache.valid), (8, false));
}
