use zcode_cleaner::cli::{cli_run, Command};
use zcode_cleaner::db::{
    background_error, open_db, open_failed, vacuum_impl, OpenMode, Vacuum, VacuumAction,
    VacuumEvent,
};
use zcode_cleaner::model::VacuumReport;
use zcode_cleaner::total::{root_total, wants_total, TotalAnswer, TotalCache};

fn args(list: &[&str]) -> Vec<String> {
    list.iter().map(|s| s.to_string()).collect()
}

#[test]
fn commands_are_read() {
    assert!(matches!(cli_run(&args(&["z", "--scan"])), Ok(Command::Scan)));
    assert!(matches!(cli_run(&args(&["z", "--vacuum", "x"])), Ok(Command::Vacuum)));
    match cli_run(&args(&["z", "--delete-sessions", " sess_a ,sess_b,,", "--force"])) {
        Ok(Command::DeleteSessions { ids, force }) => {
            assert_eq!(ids, vec!["sess_a", "sess_b", "", ""]);
            assert!(force);
        }
        other => panic!("{:?}", other),
    }
    match cli_run(&args(&["z", "--delete-sessions", "sess_a"])) {
        Ok(Command::DeleteSessions { ids, force }) => {
            assert_eq!(ids, vec!["sess_a"]);
            assert!(!force);
        }
        other => panic!("{:?}", other),
    }
}

#[test]
fn wrong_command_lines_are_told() {
    match cli_run(&args(&["z", "--delete-sessions"])) {
        Err(e) => assert_eq!(
            e,
            "用法: zcode-cleaner --delete-sessions <sess_id[,sess_id2...]> [--force]"
        ),
        other => panic!("{:?}", other),
    }
    match cli_run(&args(&["z", "--help"])) {
        Err(e) => assert_eq!(
            e,
            "未知参数 --help。用法: --scan | --delete-sessions <id,...> [--force] | --vacuum"
        ),
        other => panic!("{:?}", other),
    }
}

#[test]
fn lists_of_ids_are_read_back() {
    let ids = vec!["sess_a", "sess_b-1", "sess__"];
    let line = args(&["z", "--delete-sessions", &ids.join(",")]);
    match cli_run(&line) {
        Ok(Command::DeleteSessions { ids: read, .. }) => assert_eq!(read, ids),
        other => panic!("{:?}", other),
    }
}

#[test]
fn database_is_opened_as_it_can_be() {
    assert_eq!(open_db(true, true), Ok(OpenMode::ReadOnly));
    assert_eq!(open_db(true, false), Ok(OpenMode::ReadWrite));
    assert_eq!(open_db(false, true), Err("数据库不存在".to_string()));
    assert_eq!(open_db(false, false), Err("数据库不存在".to_string()));
    assert_eq!(open_failed(OpenMode::ReadOnly, "e"), Ok(OpenMode::ReadWrite));
    assert_eq!(open_failed(OpenMode::ReadWrite, "e"), Err("打开数据库失败: e".to_string()));
    assert_eq!(background_error("e"), "后台任务失败: e");
}

fn step(v: &mut Vacuum, event: VacuumEvent) {
    assert!(v.can_take(&event), "{:?} in {:?}", event, v);
    v.advance(event);
}

#[test]
fn vacuum_reports_both_sizes() {
    let mut v = vacuum_impl();
    assert!(matches!(v.action(), VacuumAction::Measure));
    step(&mut v, VacuumEvent::Size(100));
    match v.action() {
        VacuumAction::Tell(p) => {
            assert_eq!((p.stage.as_str(), p.current, p.total), ("vacuum", 0, 2));
            assert_eq!(p.message, "正在合并 WAL 日志…");
        }
        other => panic!("{:?}", other),
    }
    step(&mut v, VacuumEvent::Done);
    assert!(matches!(v.action(), VacuumAction::Open));
    step(&mut v, VacuumEvent::Done);
    assert!(
        matches!(v.action(), VacuumAction::Execute(s) if s == "PRAGMA wal_checkpoint(TRUNCATE);")
    );
    step(&mut v, VacuumEvent::Done);
    match v.action() {
        VacuumAction::Tell(p) => {
            assert_eq!((p.current, p.total), (1, 2));
            assert_eq!(p.message, "正在压缩数据库（可能需要几十秒）…");
        }
        other => panic!("{:?}", other),
    }
    step(&mut v, VacuumEvent::Done);
    assert!(matches!(v.action(), VacuumAction::Execute(s) if s == "VACUUM;"));
    step(&mut v, VacuumEvent::Done);
    assert!(matches!(v.action(), VacuumAction::Measure));
    step(&mut v, VacuumEvent::Size(40));
    match v.action() {
        VacuumAction::Finish(r) => assert_eq!(r, Ok(VacuumReport { before: 100, after: 40 })),
        other => panic!("{:?}", other),
    }
    assert!(!v.can_take(&VacuumEvent::Done));
}

#[test]
fn vacuum_stops_at_failures() {
    for (done, expected) in [
        (1, "e"),
        (2, "checkpoint 失败（ZCode 可能正在运行，请先退出）: e"),
        (4, "VACUUM 失败（建议退出 ZCode 后重试）: e"),
    ] {
        let mut v = vacuum_impl();
        step(&mut v, VacuumEvent::Size(1));
        for _ in 0..done {
            step(&mut v, VacuumEvent::Done);
        }
        step(&mut v, VacuumEvent::Failed("e".to_string()));
        match v.action() {
            VacuumAction::Finish(r) => assert_eq!(r, Err(expected.to_string())),
            other => panic!("{:?}", other),
        }
    }
    assert!(!vacuum_impl().can_take(&VacuumEvent::Failed("e".to_string())));
}

#[test]
fn scans_of_the_command_line_measure_anew() {
    let scan = cli_run(&args(&["p", "--scan"])).unwrap();
    let cache = TotalCache { total: 1, valid: true };
    assert_eq!(root_total(&cache, scan.compute_total()), TotalAnswer::Measure);
    assert!(!cli_run(&args(&["p", "--vacuum"])).unwrap().compute_total());
    assert!(!cli_run(&args(&["p", "--delete-sessions", "x"])).unwrap().compute_total());
    assert!(!wants_total(None) && !wants_total(Some(false)) && wants_total(Some(true)));
    assert_eq!(root_total(&cache, wants_total(None)), TotalAnswer::Known(1));
}
