//! Messages on how far a task has come.
use crate::text::{decimal, decimal_text, leading, leading_text};
use vstd::prelude::*;
use vstd::string::*;

verus! {

/// How far a task has come.
#[derive(Debug)]
pub struct Progress {
    /// The task.
    pub stage: String,
    pub current: usize,
    pub total: usize,
    /// What is being done.
    pub message: String,
}

/// What a `Progress` holds.
#[verifier::ext_equal]
pub struct ProgressView {
    pub stage: Seq<char>,
    pub current: nat,
    pub total: nat,
    pub message: Seq<char>,
}

impl DeepView for Progress {
    type V = ProgressView;

    open spec fn deep_view(&self) -> ProgressView {
        ProgressView {
            stage: self.stage@,
            current: self.current as nat,
            total: self.total as nat,
            message: self.message@,
        }
    }
}

/// How far a task has come.
pub fn notify(stage: &str, current: usize, total: usize, message: String) -> (r: Progress)
    ensures
        r.deep_view() == (ProgressView {
            stage: stage@,
            current: current as nat,
            total: total as nat,
            message: message@,
        }),
{
    Progress { stage: stage.to_owned(), current, total, message }
}

/// The stages of a scan.
#[derive(Clone, Copy, Debug, PartialEq, Eq, Structural)]
pub enum ScanStage {
    /// Files of sessions are looked for.
    Files,
    /// The database is read.
    Database,
    /// Caches are looked at.
    Caches,
    /// The data directory is measured.
    Total,
}

/// What is said at a stage of a scan.
pub open spec fn scan_message(stage: ScanStage) -> ProgressView {
    match stage {
        ScanStage::Files => ProgressView {
            stage: "scan"@,
            current: 0,
            total: 0,
            message: "正在扫描会话文件…"@,
        },
        ScanStage::Database => ProgressView {
            stage: "scan"@,
            current: 1,
            total: 3,
            message: "正在读取会话数据库…"@,
        },
        ScanStage::Caches => ProgressView {
            stage: "scan"@,
            current: 2,
            total: 3,
            message: "正在扫描缓存…"@,
        },
        ScanStage::Total => ProgressView {
            stage: "scan"@,
            current: 3,
            total: 4,
            message: "正在统计总占用（较慢）…"@,
        },
    }
}

/// What is said at a stage of a scan.
pub fn scan_progress(stage: ScanStage) -> (r: Progress)
    ensures
        r.deep_view() == scan_message(stage),
{
    match stage {
        ScanStage::Files => notify("scan", 0, 0, "正在扫描会话文件…".to_owned()),
        ScanStage::Database => notify("scan", 1, 3, "正在读取会话数据库…".to_owned()),
        ScanStage::Caches => notify("scan", 2, 3, "正在扫描缓存…".to_owned()),
        ScanStage::Total => notify(
            "scan",
            3,
            4,
            "正在统计总占用（较慢）…".to_owned(),
        ),
    }
}

/// The stages of a scan, in order. The data directory is measured anew only where that is asked for.
pub open spec fn scan_stage_list(compute_total: bool) -> Seq<ScanStage> {
    if compute_total {
        seq![ScanStage::Files, ScanStage::Database, ScanStage::Caches, ScanStage::Total]
    } else {
        seq![ScanStage::Files, ScanStage::Database, ScanStage::Caches]
    }
}

/// The stages of a scan, in order.
pub fn scan_stages(compute_total: bool) -> (r: Vec<ScanStage>)
    ensures
        r@ == scan_stage_list(compute_total),
{
    let mut r: Vec<ScanStage> = vec![ScanStage::Files, ScanStage::Database, ScanStage::Caches];
    if compute_total {
        r.push(ScanStage::Total);
    }
    assert(r@ =~= scan_stage_list(compute_total));
    r
}

/// What is said of the item at `idx` of `total`: which one it is, counted from 1, and its name.
pub open spec fn item_message(what: Seq<char>, idx: nat, total: nat, name: Seq<char>) -> Seq<char> {
    what + decimal_text(idx + 1) + "/"@ + decimal_text(total) + "："@ + name
}

fn item_text(what: &str, idx: usize, total: usize, name: &str) -> (r: String)
    requires
        idx < total,
    ensures
        r@ == item_message(what@, idx as nat, total as nat, name@),
{
    let mut r = what.to_owned();
    r.append(decimal(idx + 1).as_str());
    r.append("/");
    r.append(decimal(total).as_str());
    r.append("：");
    r.append(name);
    r
}

/// What is said before the session at `idx` is deleted; of a long id only the beginning is shown.
pub open spec fn delete_message(idx: nat, total: nat, id: Seq<char>) -> ProgressView {
    ProgressView {
        stage: "delete"@,
        current: idx,
        total,
        message: item_message("正在删除会话 "@, idx, total, leading_text(id, 24)),
    }
}

/// What is said before the session at `idx` is deleted.
pub fn delete_progress(idx: usize, total: usize, id: &str) -> (r: Progress)
    requires
        idx < total,
    ensures
        r.deep_view() == delete_message(idx as nat, total as nat, id@),
{
    let message = item_text("正在删除会话 ", idx, total, leading(id, 24));
    notify("delete", idx, total, message)
}

/// What is said before the cache at `idx` is cleaned.
pub open spec fn clean_message(idx: nat, total: nat, key: Seq<char>) -> ProgressView {
    ProgressView {
        stage: "clean"@,
        current: idx,
        total,
        message: item_message("正在清理缓存 "@, idx, total, key),
    }
}

/// What is said before the cache at `idx` is cleaned.
pub fn clean_progress(idx: usize, total: usize, key: &str) -> (r: Progress)
    requires
        idx < total,
    ensures
        r.deep_view() == clean_message(idx as nat, total as nat, key@),
{
    let message = item_text("正在清理缓存 ", idx, total, key);
    notify("clean", idx, total, message)
}

/// A scan looks for files, reads the database, looks at caches and, where that is asked for, measures
/// the data directory, in this order; and says so each time.
pub proof fn law_scan_says_what_it_does(compute_total: bool, stage: ScanStage)
    ensures
        scan_stage_list(compute_total).len() == if compute_total {
            4int
        } else {
            3int
        },
        scan_stage_list(compute_total)[0] is Files,
        scan_stage_list(compute_total)[1] is Database,
        scan_stage_list(compute_total)[2] is Caches,
        compute_total ==> scan_stage_list(compute_total)[3] is Total,
        scan_message(stage).stage == "scan"@,
        stage is Files ==> scan_message(stage).current == 0 && scan_message(stage).total == 0
            && scan_message(stage).message == "正在扫描会话文件…"@,
        stage is Database ==> scan_message(stage).current == 1 && scan_message(stage).total == 3
            && scan_message(stage).message == "正在读取会话数据库…"@,
        stage is Caches ==> scan_message(stage).current == 2 && scan_message(stage).total == 3
            && scan_message(stage).message == "正在扫描缓存…"@,
        stage is Total ==> scan_message(stage).current == 3 && scan_message(stage).total == 4
            && scan_message(stage).message == "正在统计总占用（较慢）…"@,
{
}

/// Before each session and each cache it is said which one it is, of how many, and its name.
pub proof fn law_each_item_is_announced(idx: nat, total: nat, name: Seq<char>)
    ensures
        delete_message(idx, total, name).stage == "delete"@,
        delete_message(idx, total, name).current == idx,
        delete_message(idx, total, name).total == total,
        delete_message(idx, total, name).message == "正在删除会话 "@ + decimal_text(idx + 1) + "/"@
            + decimal_text(total) + "："@ + leading_text(name, 24),
        clean_message(idx, total, name).stage == "clean"@,
        clean_message(idx, total, name).current == idx,
        clean_message(idx, total, name).total == total,
        clean_message(idx, total, name).message == "正在清理缓存 "@ + decimal_text(idx + 1) + "/"@
            + decimal_text(total) + "："@ + name,
{
}

} // verus!
