use zcode_cleaner::clock::PROTECT_MS;
use zcode_cleaner::db::open_db;
use zcode_cleaner::delete::{
    begin_deletion, delete_sessions_impl, finish_deletion, Activity, DeleteAction, DeleteEvent,
    DeleteRun, Removal, Target,
};
use zcode_cleaner::paths::FilePath;
use zcode_cleaner::place::{remove_place, PlaceAction, PlaceEvent, PlaceRemoval};
use zcode_cleaner::total::{root_total, TotalAnswer, TotalCache};

const NOW: u128 = 1_750_000_000_000;

fn texts(list: &[&str]) -> Vec<String> {
    list.iter().map(|s| s.to_string()).collect()
}

fn active(mtime: u128, db_time: Option<Option<i64>>) -> DeleteEvent {
    DeleteEvent::Active(Activity { mtimes: vec![0, mtime, 0, 0, 0], db_time })
}

fn step(run: &mut DeleteRun, event: DeleteEvent) {
    assert!(run.can_take(&event), "{:?} in {:?}", event, run);
    run.advance(event);
}

fn target(run: &DeleteRun) -> Target {
    match run.action() {
        DeleteAction::Remove(t) => t,
        other => panic!("{:?}", other),
    }
}

#[test]
fn session_is_removed_from_all_places() {
    let mut run = delete_sessions_impl(texts(&["sess_a"]), false, NOW);
    match run.action() {
        DeleteAction::Tell(p) => assert_eq!(p.message, "正在删除会话 1/1：sess_a"),
        other => panic!("{:?}", other),
    }
    step(&mut run, DeleteEvent::Told);
    match run.action() {
        DeleteAction::Inspect { id, places } => {
            assert_eq!(id, "sess_a");
            assert_eq!(places.len(), 5);
        }
        other => panic!("{:?}", other),
    }
    step(&mut run, active(NOW - PROTECT_MS, Some(Some(0))));
    assert!(matches!(run.action(), DeleteAction::DeleteRows(id) if id == "sess_a"));
    step(&mut run, DeleteEvent::RowsDeleted(7, texts(&["sess_a", "sess_b"])));
    let mut seen: Vec<(String, String, String, String, bool)> = Vec::new();
    for n in 0..10u64 {
        let t = target(&run);
        seen.push((t.sid, t.loc, t.dir, t.name, t.is_dir));
        step(
            &mut run,
            DeleteEvent::Removal(match n {
                0 => Removal::Removed(100),
                4 => Removal::Removed(20),
                6 => Removal::Failed(3, "busy".to_string()),
                9 => Removal::Failed(1, "denied".to_string()),
                _ => Removal::Absent,
            }),
        );
    }
    let first: Vec<(&str, &str, &str, &str, bool)> = seen[..5]
        .iter()
        .map(|(a, b, c, d, e)| (a.as_str(), b.as_str(), c.as_str(), d.as_str(), *e))
        .collect();
    assert_eq!(
        first,
        vec![
            ("sess_a", "agents", "cli/agents", "sess_a", true),
            ("sess_a", "artifacts", "cli/artifacts", "sess_a", true),
            ("sess_a", "exec", "cli/exec", "sess_a", true),
            ("sess_a", "image-cache", "cli/image-cache", "sess_a", true),
            ("sess_a", "rollout", "cli/rollout", "model-io-sess_a.jsonl", false),
        ]
    );
    assert!(seen[5..].iter().all(|t| t.0 == "sess_b"));
    assert!(matches!(run.action(), DeleteAction::Finish));
    let r = &run.report;
    assert_eq!((r.deleted, r.freed_disk, r.db_rows_deleted), (1, 124, 7));
    assert!(r.skipped.is_empty());
    assert_eq!(r.errors, texts(&["sess_b/artifacts: busy", "sess_b/rollout: denied"]));
}

#[test]
fn protected_and_malformed_are_skipped() {
    let ids = texts(&["sess_a", "../etc", "sess_b", "sess_c"]);
    let mut run = delete_sessions_impl(ids, false, NOW);
    step(&mut run, DeleteEvent::Told);
    step(&mut run, active(NOW - PROTECT_MS + 1, None));
    step(&mut run, DeleteEvent::Told);
    step(&mut run, DeleteEvent::Told);
    // The database knows better than the disk; in seconds.
    step(&mut run, active(5, Some(Some(((NOW - 1000) / 1000) as i64))));
    step(&mut run, DeleteEvent::Told);
    step(&mut run, active(5, Some(Some(-1))));
    assert!(matches!(run.action(), DeleteAction::Finish));
    assert_eq!(
        run.report.skipped,
        texts(&[
            "sess_a: 近 24h 活跃，处于保护中",
            "../etc: 非法 ID",
            "sess_b: 近 24h 活跃，处于保护中",
            "sess_c: 近 24h 活跃，处于保护中",
        ])
    );
    assert_eq!((run.report.deleted, run.report.freed_disk), (0, 0));
    assert!(run.report.errors.is_empty());
}

#[test]
fn force_overrides_protection_but_not_the_check_of_ids() {
    let mut run = delete_sessions_impl(texts(&["sess_a", "bad"]), true, NOW);
    step(&mut run, DeleteEvent::Told);
    step(&mut run, active(NOW, Some(None)));
    assert!(matches!(run.action(), DeleteAction::DeleteRows(_)));
    step(&mut run, DeleteEvent::RowsFailed("locked".to_string()));
    for _ in 0..5 {
        assert_eq!(target(&run).sid, "sess_a");
        step(&mut run, DeleteEvent::Removal(Removal::Absent));
    }
    step(&mut run, DeleteEvent::Told);
    assert!(matches!(run.action(), DeleteAction::Finish));
    assert_eq!(run.report.errors, texts(&["sess_a/db: locked"]));
    assert_eq!(run.report.skipped, texts(&["bad: 非法 ID"]));
    assert_eq!(run.report.deleted, 1);
    assert_eq!(run.report.deleted + run.report.skipped.len(), 2);
}

#[test]
fn nothing_to_delete_is_over_at_once() {
    let run = delete_sessions_impl(vec![], false, NOW);
    assert!(matches!(run.action(), DeleteAction::Finish));
    assert!(!run.can_take(&DeleteEvent::Told));
}

#[test]
fn counts_beyond_64_bits_are_not_taken() {
    let mut run = delete_sessions_impl(texts(&["sess_a", "sess_b"]), true, NOW);
    step(&mut run, DeleteEvent::Told);
    assert!(!run.can_take(&DeleteEvent::Active(Activity { mtimes: vec![], db_time: None })));
    step(&mut run, active(0, None));
    step(&mut run, DeleteEvent::RowsDeleted(u64::MAX, texts(&["sess_a"])));
    step(&mut run, DeleteEvent::Removal(Removal::Removed(u64::MAX)));
    assert!(!run.can_take(&DeleteEvent::Removal(Removal::Removed(1))));
    for _ in 0..4 {
        step(&mut run, DeleteEvent::Removal(Removal::Absent));
    }
    step(&mut run, DeleteEvent::Told);
    step(&mut run, active(0, None));
    assert!(!run.can_take(&DeleteEvent::RowsDeleted(1, texts(&["sess_b"]))));
    step(&mut run, DeleteEvent::RowsDeleted(0, texts(&["sess_b"])));
    step(&mut run, DeleteEvent::Removal(Removal::Removed(1)));
    for _ in 0..3 {
        step(&mut run, DeleteEvent::Removal(Removal::Absent));
    }
    assert!(!run.can_take(&DeleteEvent::Removal(Removal::Absent)));
}

#[test]
fn rows_of_no_session_conclude_the_turn() {
    let mut run = delete_sessions_impl(texts(&["sess_a"]), true, NOW);
    step(&mut run, DeleteEvent::Told);
    step(&mut run, active(0, None));
    step(&mut run, DeleteEvent::RowsDeleted(0, vec![]));
    assert!(matches!(run.action(), DeleteAction::Finish));
    assert_eq!(run.report.deleted, 1);
}

#[test]
fn target_paths_are_below_the_root() {
    let mut run = delete_sessions_impl(texts(&["sess_a"]), true, NOW);
    step(&mut run, DeleteEvent::Told);
    step(&mut run, active(0, None));
    step(&mut run, DeleteEvent::RowsFailed("e".to_string()));
    let p = target(&run).path(&FilePath::new("/r".to_string()));
    assert_eq!(p.base, "/r");
    assert_eq!(p.parts, texts(&["cli/agents", "sess_a"]));
}

#[test]
fn missing_database_stops_deletion() {
    for force in [false, true] {
        let opened = open_db(false, false).map(|_| ());
        let e = begin_deletion(opened, texts(&["sess_a"]), force, NOW).unwrap_err();
        assert_eq!(e, "数据库不存在");
    }
    let opened = open_db(true, false).map(|_| ());
    let run = begin_deletion(opened, texts(&["sess_a"]), true, NOW).unwrap();
    assert_eq!((run.ids.clone(), run.force, run.now), (texts(&["sess_a"]), true, NOW));
    assert!(matches!(run.action(), DeleteAction::Tell(_)));
}

#[test]
fn finished_deletion_forgets_the_total() {
    let run = delete_sessions_impl(vec![], false, NOW);
    let mut cache = TotalCache { total: 5, valid: true };
    let report = finish_deletion(run, &mut cache);
    assert_eq!(report.deleted, 0);
    assert_eq!((cache.total, cache.valid), (5, false));
    assert_eq!(root_total(&cache, false), TotalAnswer::Measure);
}

#[test]
fn each_failure_is_one_error() {
    let mut run = delete_sessions_impl(texts(&["sess_a", "bad"]), true, NOW);
    step(&mut run, DeleteEvent::Told);
    step(&mut run, active(0, None));
    step(&mut run, DeleteEvent::RowsFailed("locked".to_string()));
    for n in 0..5u64 {
        let failed = Removal::Failed(n, "busy".to_string());
        step(&mut run, DeleteEvent::Removal(if n < 2 { failed } else { Removal::Absent }));
    }
    step(&mut run, DeleteEvent::Told);
    assert_eq!(
        run.report.errors,
        texts(&["sess_a/db: locked", "sess_a/agents: busy", "sess_a/artifacts: busy"])
    );
}

fn place(is_dir: bool) -> PlaceRemoval {
    let text = String::new;
    remove_place(&Target { sid: text(), loc: text(), dir: text(), name: text(), is_dir })
}

#[test]
fn places_are_measured_before_removal() {
    let mut p = place(true);
    assert!(matches!(p.action(), PlaceAction::Probe { is_dir: true }));
    assert!(!p.can_take(&PlaceEvent::Removed));
    p.advance(PlaceEvent::Probed(None));
    assert!(matches!(p.action(), PlaceAction::Finish(Removal::Absent)));
    assert!(!p.can_take(&PlaceEvent::Removed));

    let mut p = place(true);
    p.advance(PlaceEvent::Probed(Some(9)));
    assert!(matches!(p.action(), PlaceAction::Remove { is_dir: true }));
    assert!(p.can_take(&PlaceEvent::Removed) && !p.can_take(&PlaceEvent::Probed(None)));
    p.advance(PlaceEvent::Removed);
    assert!(matches!(p.action(), PlaceAction::Finish(Removal::Removed(9))));

    let mut p = place(false);
    p.advance(PlaceEvent::Probed(Some(4)));
    assert!(matches!(p.action(), PlaceAction::Remove { is_dir: false }));
    p.advance(PlaceEvent::Failed("busy".to_string()));
    assert!(matches!(p.action(), PlaceAction::Finish(Removal::Failed(4, e)) if e == "busy"));
}
