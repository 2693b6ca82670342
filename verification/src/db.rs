//! Opening and compacting the session database.
//!
//! The database is worked on from outside: `action` says what to do next, and `advance` is told what
//! came of it.
use crate::model::VacuumReport;
use crate::progress::{notify, Progress, ProgressView};
use vstd::prelude::*;
use vstd::string::*;

verus! {

/// The query for all sessions, with what a scan shows of them.
pub const SESSIONS_SQL: &'static str = "SELECT id, title, directory, time_created, time_updated FROM session";

/// The query for the time at which a session was last updated.
pub const LAST_UPDATE_SQL: &'static str = "SELECT COALESCE(MAX(time_updated),0) FROM session WHERE id=?1";

/// How to open the database.
#[derive(Clone, Copy, Debug, PartialEq, Eq, Structural)]
pub enum OpenMode {
    ReadOnly,
    ReadWrite,
}

/// How to open the database; an error where there is none.
pub open spec fn opening(exists: bool, read_only: bool) -> Result<OpenMode, Seq<char>> {
    if !exists {
        Err("数据库不存在"@)
    } else if read_only {
        Ok(OpenMode::ReadOnly)
    } else {
        Ok(OpenMode::ReadWrite)
    }
}

/// How to open the database; an error where there is none.
pub fn open_db(exists: bool, read_only: bool) -> (r: Result<OpenMode, String>)
    ensures
        match r {
            Ok(mode) => opening(exists, read_only) == Ok::<OpenMode, Seq<char>>(mode),
            Err(e) => opening(exists, read_only) == Err::<OpenMode, Seq<char>>(e@),
        },
{
    if !exists {
        return Err("数据库不存在".to_owned());
    }
    if read_only {
        Ok(OpenMode::ReadOnly)
    } else {
        Ok(OpenMode::ReadWrite)
    }
}

/// How to go on after the database could not be opened: a database that cannot be opened for reading
/// only is opened for writing too; when that fails, it is an error.
pub fn open_failed(mode: OpenMode, error: &str) -> (r: Result<OpenMode, String>)
    ensures
        match r {
            Ok(next) => mode == OpenMode::ReadOnly && next == OpenMode::ReadWrite,
            Err(e) => mode == OpenMode::ReadWrite && e@ == "打开数据库失败: "@ + error@,
        },
{
    match mode {
        OpenMode::ReadOnly => Ok(OpenMode::ReadWrite),
        OpenMode::ReadWrite => {
            let mut e = "打开数据库失败: ".to_owned();
            e.append(error);
            Err(e)
        },
    }
}

/// What a task reports that failed in the background.
pub fn background_error(error: &str) -> (r: String)
    ensures
        r@ == "后台任务失败: "@ + error@,
{
    let mut r = "后台任务失败: ".to_owned();
    r.append(error);
    r
}

/// How far the compacting of the database has come.
#[derive(Debug)]
pub enum VacuumStage {
    /// The size of the file is asked for.
    Before,
    /// It is said that the write-ahead log is merged.
    TellMerge,
    /// The database has to be opened.
    Open,
    /// The write-ahead log has to be merged.
    Merge,
    /// It is said that the database is compacted.
    TellCompact,
    /// The database has to be compacted.
    Compact,
    /// The size of the file is asked for again.
    After,
    Done,
    Failed(String),
}

/// What a `VacuumStage` holds.
pub enum VacuumStageView {
    Before,
    TellMerge,
    Open,
    Merge,
    TellCompact,
    Compact,
    After,
    Done,
    Failed(Seq<char>),
}

impl DeepView for VacuumStage {
    type V = VacuumStageView;

    open spec fn deep_view(&self) -> VacuumStageView {
        match self {
            VacuumStage::Before => VacuumStageView::Before,
            VacuumStage::TellMerge => VacuumStageView::TellMerge,
            VacuumStage::Open => VacuumStageView::Open,
            VacuumStage::Merge => VacuumStageView::Merge,
            VacuumStage::TellCompact => VacuumStageView::TellCompact,
            VacuumStage::Compact => VacuumStageView::Compact,
            VacuumStage::After => VacuumStageView::After,
            VacuumStage::Done => VacuumStageView::Done,
            VacuumStage::Failed(e) => VacuumStageView::Failed(e@),
        }
    }
}

/// The compacting of the database.
#[derive(Debug)]
pub struct Vacuum {
    /// The sizes of the file, as far as they are known.
    pub sizes: VacuumReport,
    pub stage: VacuumStage,
}

/// What a `Vacuum` holds.
#[verifier::ext_equal]
pub struct VacuumView {
    pub sizes: VacuumReport,
    pub stage: VacuumStageView,
}

impl DeepView for Vacuum {
    type V = VacuumView;

    open spec fn deep_view(&self) -> VacuumView {
        VacuumView { sizes: self.sizes, stage: self.stage.deep_view() }
    }
}

/// What is to be done next.
#[derive(Debug)]
pub enum VacuumAction {
    /// Report the size of the database file, 0 where it cannot be read.
    Measure,
    /// Show this.
    Tell(Progress),
    /// Open the database for writing.
    Open,
    /// Run these statements.
    Execute(String),
    /// Nothing more.
    Finish(Result<VacuumReport, String>),
}

/// What a `VacuumAction` holds.
pub enum VacuumActionView {
    Measure,
    Tell(ProgressView),
    Open,
    Execute(Seq<char>),
    Finish(Result<VacuumReport, Seq<char>>),
}

impl DeepView for VacuumAction {
    type V = VacuumActionView;

    open spec fn deep_view(&self) -> VacuumActionView {
        match self {
            VacuumAction::Measure => VacuumActionView::Measure,
            VacuumAction::Tell(p) => VacuumActionView::Tell(p.deep_view()),
            VacuumAction::Open => VacuumActionView::Open,
            VacuumAction::Execute(sql) => VacuumActionView::Execute(sql@),
            VacuumAction::Finish(Ok(report)) => VacuumActionView::Finish(Ok(*report)),
            VacuumAction::Finish(Err(e)) => VacuumActionView::Finish(Err(e@)),
        }
    }
}

/// What came of an action.
#[derive(Debug)]
pub enum VacuumEvent {
    /// The file has this size.
    Size(u64),
    /// It is shown, opened or run.
    Done,
    /// The action failed, and why.
    Failed(String),
}

/// What a `VacuumEvent` holds.
pub enum VacuumEventView {
    Size(u64),
    Done,
    Failed(Seq<char>),
}

impl DeepView for VacuumEvent {
    type V = VacuumEventView;

    open spec fn deep_view(&self) -> VacuumEventView {
        match self {
            VacuumEvent::Size(n) => VacuumEventView::Size(*n),
            VacuumEvent::Done => VacuumEventView::Done,
            VacuumEvent::Failed(e) => VacuumEventView::Failed(e@),
        }
    }
}

impl VacuumView {
    /// What is to be done next.
    pub open spec fn action(self) -> VacuumActionView {
        match self.stage {
            VacuumStageView::Before => VacuumActionView::Measure,
            VacuumStageView::TellMerge => VacuumActionView::Tell(
                ProgressView {
                    stage: "vacuum"@,
                    current: 0,
                    total: 2,
                    message: "正在合并 WAL 日志…"@,
                },
            ),
            VacuumStageView::Open => VacuumActionView::Open,
            VacuumStageView::Merge => VacuumActionView::Execute(
                "PRAGMA wal_checkpoint(TRUNCATE);"@,
            ),
            VacuumStageView::TellCompact => VacuumActionView::Tell(
                ProgressView {
                    stage: "vacuum"@,
                    current: 1,
                    total: 2,
                    message: "正在压缩数据库（可能需要几十秒）…"@,
                },
            ),
            VacuumStageView::Compact => VacuumActionView::Execute("VACUUM;"@),
            VacuumStageView::After => VacuumActionView::Measure,
            VacuumStageView::Done => VacuumActionView::Finish(Ok(self.sizes)),
            VacuumStageView::Failed(e) => VacuumActionView::Finish(Err(e)),
        }
    }

    /// Whether an event answers what is to be done.
    pub open spec fn expects(self, event: VacuumEventView) -> bool {
        match event {
            VacuumEventView::Size(_) => self.stage is Before || self.stage is After,
            VacuumEventView::Done => self.stage is TellMerge || self.stage is Open || self.stage is Merge
                || self.stage is TellCompact || self.stage is Compact,
            VacuumEventView::Failed(_) => self.stage is Open || self.stage is Merge || self.stage is Compact,
        }
    }

    /// What a failure is reported as.
    pub open spec fn failure(self, e: Seq<char>) -> Seq<char> {
        match self.stage {
            VacuumStageView::Merge => "checkpoint 失败（ZCode 可能正在运行，请先退出）: "@ + e,
            VacuumStageView::Compact => "VACUUM 失败（建议退出 ZCode 后重试）: "@ + e,
            _ => e,
        }
    }

    /// The compacting after an event that it expects.
    pub open spec fn after(self, event: VacuumEventView) -> VacuumView {
        match event {
            VacuumEventView::Size(n) => if self.stage is Before {
                VacuumView {
                    sizes: VacuumReport { before: n, ..self.sizes },
                    stage: VacuumStageView::TellMerge,
                }
            } else {
                VacuumView {
                    sizes: VacuumReport { after: n, ..self.sizes },
                    stage: VacuumStageView::Done,
                }
            },
            VacuumEventView::Done => VacuumView {
                stage: match self.stage {
                    VacuumStageView::TellMerge => VacuumStageView::Open,
                    VacuumStageView::Open => VacuumStageView::Merge,
                    VacuumStageView::Merge => VacuumStageView::TellCompact,
                    VacuumStageView::TellCompact => VacuumStageView::Compact,
                    _ => VacuumStageView::After,
                },
                ..self
            },
            VacuumEventView::Failed(e) => VacuumView {
                stage: VacuumStageView::Failed(self.failure(e)),
                ..self
            },
        }
    }
}

/// Begins to compact the database: its write-ahead log is merged, then the file is rewritten.
pub fn vacuum_impl() -> (r: Vacuum)
    ensures
        r.deep_view() == (VacuumView {
            sizes: VacuumReport { before: 0, after: 0 },
            stage: VacuumStageView::Before,
        }),
{
    Vacuum { sizes: VacuumReport { before: 0, after: 0 }, stage: VacuumStage::Before }
}

impl Vacuum {
    /// What is to be done next.
    pub fn action(&self) -> (r: VacuumAction)
        ensures
            r.deep_view() == self.deep_view().action(),
    {
        match &self.stage {
            VacuumStage::Before => VacuumAction::Measure,
            VacuumStage::TellMerge => VacuumAction::Tell(
                notify("vacuum", 0, 2, "正在合并 WAL 日志…".to_owned()),
            ),
            VacuumStage::Open => VacuumAction::Open,
            VacuumStage::Merge => VacuumAction::Execute(
                "PRAGMA wal_checkpoint(TRUNCATE);".to_owned(),
            ),
            VacuumStage::TellCompact => VacuumAction::Tell(
                notify(
                    "vacuum",
                    1,
                    2,
                    "正在压缩数据库（可能需要几十秒）…".to_owned(),
                ),
            ),
            VacuumStage::Compact => VacuumAction::Execute("VACUUM;".to_owned()),
            VacuumStage::After => VacuumAction::Measure,
            VacuumStage::Done => VacuumAction::Finish(Ok(self.sizes)),
            VacuumStage::Failed(e) => VacuumAction::Finish(Err(e.clone())),
        }
    }

    /// Whether an event answers what is to be done.
    pub fn can_take(&self, event: &VacuumEvent) -> (r: bool)
        ensures
            r == self.deep_view().expects(event.deep_view()),
    {
        match (&self.stage, event) {
            (VacuumStage::Before, VacuumEvent::Size(_)) => true,
            (VacuumStage::After, VacuumEvent::Size(_)) => true,
            (VacuumStage::TellMerge, VacuumEvent::Done) => true,
            (VacuumStage::Open, VacuumEvent::Done) => true,
            (VacuumStage::Merge, VacuumEvent::Done) => true,
            (VacuumStage::TellCompact, VacuumEvent::Done) => true,
            (VacuumStage::Compact, VacuumEvent::Done) => true,
            (VacuumStage::Open, VacuumEvent::Failed(_)) => true,
            (VacuumStage::Merge, VacuumEvent::Failed(_)) => true,
            (VacuumStage::Compact, VacuumEvent::Failed(_)) => true,
            _ => false,
        }
    }

    /// Goes on after an action.
    pub fn advance(&mut self, event: VacuumEvent)
        requires
            old(self).deep_view().expects(event.deep_view()),
        ensures
            final(self).deep_view() == old(self).deep_view().after(event.deep_view()),
    {
        match event {
            VacuumEvent::Size(n) => match &self.stage {
                VacuumStage::Before => {
                    self.sizes.before = n;
                    self.stage = VacuumStage::TellMerge;
                },
                _ => {
                    self.sizes.after = n;
                    self.stage = VacuumStage::Done;
                },
            },
            VacuumEvent::Done => {
                self.stage = match &self.stage {
                    VacuumStage::TellMerge => VacuumStage::Open,
                    VacuumStage::Open => VacuumStage::Merge,
                    VacuumStage::Merge => VacuumStage::TellCompact,
                    VacuumStage::TellCompact => VacuumStage::Compact,
                    _ => VacuumStage::After,
                };
            },
            VacuumEvent::Failed(e) => {
                let message = match &self.stage {
                    VacuumStage::Merge => {
                        let mut m = "checkpoint 失败（ZCode 可能正在运行，请先退出）: ".to_owned();
                        m.append(e.as_str());
                        m
                    },
                    VacuumStage::Compact => {
                        let mut m = "VACUUM 失败（建议退出 ZCode 后重试）: ".to_owned();
                        m.append(e.as_str());
                        m
                    },
                    _ => e,
                };
                self.stage = VacuumStage::Failed(message);
            },
        }
    }
}

/// The compacting after some events.
pub open spec fn after_events(v: VacuumView, events: Seq<VacuumEventView>) -> VacuumView
    decreases events.len(),
{
    if events.len() == 0 {
        v
    } else {
        after_events(v, events.drop_last()).after(events.last())
    }
}

/// When nothing fails, the report holds the size that the file had before anything was done and the
/// size that it has after the database was rewritten, and the write-ahead log was merged before that.
pub proof fn law_vacuum_reports_both_sizes(start: VacuumView, before: u64, after: u64)
    requires
        start.stage == VacuumStageView::Before,
    ensures
        ({
            let done = VacuumEventView::Done;
            let events = seq![
                VacuumEventView::Size(before),
                done,
                done,
                done,
                done,
                done,
                VacuumEventView::Size(after),
            ];
            &&& after_events(start, events.take(3)).action() == VacuumActionView::Execute(
                "PRAGMA wal_checkpoint(TRUNCATE);"@,
            )
            &&& after_events(start, events.take(5)).action() == VacuumActionView::Execute(
                "VACUUM;"@,
            )
            &&& after_events(start, events).action() == VacuumActionView::Finish(
                Ok(VacuumReport { before, after }),
            )
        }),
{
    let done = VacuumEventView::Done;
    let events = seq![
        VacuumEventView::Size(before),
        done,
        done,
        done,
        done,
        done,
        VacuumEventView::Size(after),
    ];
    assert(after_events(start, events.take(0)) == start);
    assert(events.take(1).drop_last() =~= events.take(0));
    assert(after_events(start, events.take(1)).stage is TellMerge);
    assert(events.take(2).drop_last() =~= events.take(1));
    assert(after_events(start, events.take(2)).stage is Open);
    assert(events.take(3).drop_last() =~= events.take(2));
    assert(after_events(start, events.take(3)).stage is Merge);
    assert(events.take(4).drop_last() =~= events.take(3));
    assert(after_events(start, events.take(4)).stage is TellCompact);
    assert(events.take(5).drop_last() =~= events.take(4));
    assert(after_events(start, events.take(5)).stage is Compact);
    assert(events.take(6).drop_last() =~= events.take(5));
    assert(after_events(start, events.take(6)).stage is After);
    assert(events.drop_last() =~= events.take(6));
}

/// A step that fails ends the compacting: its error is reported and nothing more is done.
pub proof fn law_vacuum_stops_at_a_failure(v: VacuumView, e: Seq<char>)
    requires
        v.expects(VacuumEventView::Failed(e)),
    ensures
        v.after(VacuumEventView::Failed(e)).action() == VacuumActionView::Finish(Err(v.failure(e))),
        forall|event: VacuumEventView| !#[trigger]
            v.after(VacuumEventView::Failed(e)).expects(event),
{
}

/// A database that is there is opened in the mode that was asked for; one that is not there is not
/// opened in any.
pub proof fn law_only_what_is_there_is_opened(read_only: bool)
    ensures
        opening(true, true) == Ok::<OpenMode, Seq<char>>(OpenMode::ReadOnly),
        opening(true, false) == Ok::<OpenMode, Seq<char>>(OpenMode::ReadWrite),
        opening(false, read_only) == Err::<OpenMode, Seq<char>>("数据库不存在"@),
{
}

/// The steps of compacting, in order, and what is said of them.
pub proof fn law_vacuum_steps(start: VacuumView, before: u64, after: u64)
    requires
        start.stage is Before,
    ensures
        ({
            let done = VacuumEventView::Done;
            let measured = start.after(VacuumEventView::Size(before));
            let open = measured.after(done);
            let merge = open.after(done);
            let told = merge.after(done);
            let compact = told.after(done);
            let rewritten = compact.after(done);
            let end = rewritten.after(VacuumEventView::Size(after));
            &&& start.action() is Measure
            &&& measured.action() == VacuumActionView::Tell(
                ProgressView {
                    stage: "vacuum"@,
                    current: 0,
                    total: 2,
                    message: "正在合并 WAL 日志…"@,
                },
            )
            &&& open.action() is Open
            &&& merge.action() == VacuumActionView::Execute("PRAGMA wal_checkpoint(TRUNCATE);"@)
            &&& told.action() == VacuumActionView::Tell(
                ProgressView {
                    stage: "vacuum"@,
                    current: 1,
                    total: 2,
                    message: "正在压缩数据库（可能需要几十秒）…"@,
                },
            )
            &&& compact.action() == VacuumActionView::Execute("VACUUM;"@)
            &&& rewritten.action() is Measure
            &&& end.action() == VacuumActionView::Finish(Ok(VacuumReport { before, after }))
        }),
{
}

/// Every answer to what is to be done is taken, and a failure is told in its own words, under the
/// heading of its step where it has one.
pub proof fn law_vacuum_takes_every_answer(v: VacuumView, n: u64, e: Seq<char>)
    ensures
        v.action() is Measure == v.expects(VacuumEventView::Size(n)),
        (v.action() is Tell || v.action() is Open || v.action() is Execute) == v.expects(
            VacuumEventView::Done,
        ),
        (v.action() is Open || v.action() is Execute) == v.expects(VacuumEventView::Failed(e)),
        v.action() is Open ==> v.failure(e) == e,
        v.stage is Merge ==> v.failure(e) == "checkpoint 失败（ZCode 可能正在运行，请先退出）: "@ + e,
        v.stage is Compact ==> v.failure(e) == "VACUUM 失败（建议退出 ZCode 后重试）: "@ + e,
{
}

/// All sessions are asked for, with what a scan shows of them; and for one session, the latest time of
/// update that the database has, 0 where it has none.
pub proof fn law_queries()
    ensures
        SESSIONS_SQL@ == "SELECT id, title, directory, time_created, time_updated FROM session"@,
        LAST_UPDATE_SQL@ == "SELECT COALESCE(MAX(time_updated),0) FROM session WHERE id=?1"@,
{
}

} // verus!
