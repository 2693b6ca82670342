//! Deleting sessions: from the database, and from all places on disk.
//!
//! The disk and the database are worked on from outside: `action` says what to do next, and `advance`
//! is told what came of it.
use crate::clock::{activity_ms, activity_stamp_ms, is_protected, later, latest, protected_at};
use crate::db::opening;
use crate::model::{DeleteReport, DeleteReportView, SessionInfoView};
use crate::paths::{rollout_name, rollout_name_text, FilePath, FilePathView, ROLLOUT_DIR};
use crate::progress::{delete_message, delete_progress, Progress, ProgressView};
use crate::rows::{answered, collected, descends, law_whole_tree_is_collected};
use crate::scan::{
    are_sessions, known, law_every_session_is_shown, orphan_info, readable_row, row_info, shown,
    DbRowView,
};
use crate::sessions::{
    bytes_in, contributions, dir_contributions, fs_session, is_sess_id, law_session_ids_are_plain_names,
    listed_contributions, of_session, on_disk, rollout_contributions, rollout_id_text, session_dir_list,
    session_dir_locs, valid_sess_id, Contribution, DirListingView, FoundDirView, FoundFileView,
    ID_PREFIX,
};
use crate::total::{invalidate_total, total_answer, TotalAnswer, TotalCache};
use vstd::prelude::*;
use vstd::string::*;

verus! {

/// A place on disk that may hold data of a session.
#[derive(Debug)]
pub struct Target {
    /// The session.
    pub sid: String,
    /// The key of the location.
    pub loc: String,
    /// The location, relative to ZCode's data directory.
    pub dir: String,
    /// The name in that location.
    pub name: String,
    /// Whether it is a directory; else it is a file.
    pub is_dir: bool,
}

/// What a `Target` holds.
#[verifier::ext_equal]
pub struct TargetView {
    pub sid: Seq<char>,
    pub loc: Seq<char>,
    pub dir: Seq<char>,
    pub name: Seq<char>,
    pub is_dir: bool,
}

impl DeepView for Target {
    type V = TargetView;

    open spec fn deep_view(&self) -> TargetView {
        TargetView {
            sid: self.sid@,
            loc: self.loc@,
            dir: self.dir@,
            name: self.name@,
            is_dir: self.is_dir,
        }
    }
}

impl TargetView {
    /// Where the place is, below ZCode's data directory.
    pub open spec fn path(self, root: FilePathView) -> FilePathView {
        root.join(self.dir).join(self.name)
    }
}

impl Target {
    /// Where the place is, below ZCode's data directory.
    pub fn path(&self, root: &FilePath) -> (r: FilePath)
        ensures
            r.deep_view() == self.deep_view().path(root.deep_view()),
    {
        root.join(self.dir.as_str()).join(self.name.as_str())
    }

    fn copy(&self) -> (r: Target)
        ensures
            r.deep_view() == self.deep_view(),
    {
        Target {
            sid: self.sid.clone(),
            loc: self.loc.clone(),
            dir: self.dir.clone(),
            name: self.name.clone(),
            is_dir: self.is_dir,
        }
    }
}

/// The directory of a session in a location.
pub open spec fn dir_target(sid: Seq<char>, loc: (Seq<char>, Seq<char>)) -> TargetView {
    TargetView { sid, loc: loc.0, dir: loc.1, name: sid, is_dir: true }
}

/// The rollout file of a session.
pub open spec fn rollout_target(sid: Seq<char>) -> TargetView {
    TargetView {
        sid,
        loc: "rollout"@,
        dir: ROLLOUT_DIR@,
        name: rollout_name_text(sid),
        is_dir: false,
    }
}

/// The places that may hold data of a session: one in each location, then the rollout file.
pub open spec fn targets_of(sid: Seq<char>) -> Seq<TargetView> {
    session_dir_list().map_values(|loc: (Seq<char>, Seq<char>)| dir_target(sid, loc)).push(
        rollout_target(sid),
    )
}

/// The places that may hold data of some sessions, session by session.
pub open spec fn targets_of_all(sids: Seq<Seq<char>>) -> Seq<TargetView>
    decreases sids.len(),
{
    if sids.len() == 0 {
        Seq::empty()
    } else {
        targets_of_all(sids.drop_last()) + targets_of(sids.last())
    }
}

fn push_targets(list: &mut Vec<Target>, sid: &String)
    ensures
        final(list).deep_view() == old(list).deep_view() + targets_of(sid@),
{
    let locs = session_dir_locs();
    let ghost start = list.deep_view();
    let ghost wanted = targets_of(sid@);
    let mut i: usize = 0;
    assert(start + wanted.take(0) =~= start);
    while i < locs.len()
        invariant
            locs.deep_view() == session_dir_list(),
            locs.len() == 4,
            wanted == targets_of(sid@),
            i <= locs.len(),
            list.deep_view() == start + wanted.take(i as int),
        decreases locs.len() - i,
    {
        let (loc, dir) = locs[i];
        assert(session_dir_list()[i as int] == locs.deep_view()[i as int]);
        let t = Target {
            sid: sid.clone(),
            loc: loc.to_owned(),
            dir: dir.to_owned(),
            name: sid.clone(),
            is_dir: true,
        };
        let ghost before = list.deep_view();
        assert(t.deep_view() == wanted[i as int]);
        list.push(t);
        assert(list.deep_view() =~= before.push(wanted[i as int]));
        assert(list.deep_view() =~= start + wanted.take(i + 1));
        i += 1;
    }
    let t = Target {
        sid: sid.clone(),
        loc: "rollout".to_owned(),
        dir: ROLLOUT_DIR.to_owned(),
        name: rollout_name(sid.as_str()),
        is_dir: false,
    };
    let ghost before = list.deep_view();
    assert(t.deep_view() == wanted[4]);
    list.push(t);
    assert(list.deep_view() =~= before.push(wanted[4]));
    assert(list.deep_view() =~= start + wanted);
}

fn all_targets(sids: &Vec<String>) -> (r: Vec<Target>)
    ensures
        r.deep_view() == targets_of_all(sids.deep_view()),
{
    let ghost all = sids.deep_view();
    let mut r: Vec<Target> = Vec::new();
    let mut i: usize = 0;
    assert(all.take(0) =~= Seq::<Seq<char>>::empty());
    assert(r.deep_view() =~= Seq::<TargetView>::empty());
    while i < sids.len()
        invariant
            all == sids.deep_view(),
            i <= sids.len(),
            r.deep_view() == targets_of_all(all.take(i as int)),
        decreases sids.len() - i,
    {
        assert(all.take(i + 1).drop_last() =~= all.take(i as int));
        assert(all[i as int] == sids@[i as int]@);
        push_targets(&mut r, &sids[i]);
        i += 1;
    }
    assert(all.take(i as int) =~= all);
    r
}

/// What shows when a session was last active.
#[derive(Debug)]
pub struct Activity {
    /// The latest time in each of the places of `targets_of`, in order; 0 where there is nothing.
    pub mtimes: Vec<u128>,
    /// What the database says: `None` if it cannot be asked.
    pub db_time: Option<Option<i64>>,
}

/// What an `Activity` holds.
#[verifier::ext_equal]
pub struct ActivityView {
    pub mtimes: Seq<u128>,
    pub db_time: Option<Option<i64>>,
}

impl DeepView for Activity {
    type V = ActivityView;

    open spec fn deep_view(&self) -> ActivityView {
        ActivityView { mtimes: self.mtimes@, db_time: self.db_time }
    }
}

/// The latest of some times; 0 where there are none.
pub open spec fn latest_of(times: Seq<u128>) -> u128
    decreases times.len(),
{
    if times.len() == 0 {
        0
    } else {
        later(latest_of(times.drop_last()), times.last())
    }
}

/// When a session was last active: the latest of what the disk and the database say.
pub open spec fn last_active(a: ActivityView) -> u128 {
    match a.db_time {
        Some(stamp) => later(latest_of(a.mtimes), activity_stamp_ms(stamp) as u128),
        None => latest_of(a.mtimes),
    }
}

fn last_activity(a: &Activity) -> (r: u128)
    ensures
        r == last_active(a.deep_view()),
{
    let mut time: u128 = 0;
    let mut i: usize = 0;
    assert(a.mtimes@.take(0) =~= Seq::<u128>::empty());
    while i < a.mtimes.len()
        invariant
            i <= a.mtimes.len(),
            time == latest_of(a.mtimes@.take(i as int)),
        decreases a.mtimes.len() - i,
    {
        assert(a.mtimes@.take(i + 1).drop_last() =~= a.mtimes@.take(i as int));
        time = latest(time, a.mtimes[i]);
        i += 1;
    }
    assert(a.mtimes@.take(i as int) =~= a.mtimes@);
    match a.db_time {
        Some(stamp) => latest(time, activity_ms(stamp)),
        None => time,
    }
}

/// What came of removing something from disk.
#[derive(Debug)]
pub enum Removal {
    /// There was nothing to remove.
    Absent,
    /// It was removed, and had this size.
    Removed(u64),
    /// It has this size, and could not be removed, or not wholly.
    Failed(u64, String),
}

/// What a `Removal` holds.
pub enum RemovalView {
    Absent,
    Removed(u64),
    Failed(u64, Seq<char>),
}

impl DeepView for Removal {
    type V = RemovalView;

    open spec fn deep_view(&self) -> RemovalView {
        match self {
            Removal::Absent => RemovalView::Absent,
            Removal::Removed(n) => RemovalView::Removed(*n),
            Removal::Failed(n, e) => RemovalView::Failed(*n, e@),
        }
    }
}

impl Removal {
    /// A removal with the same contents.
    pub fn copy(&self) -> (r: Removal)
        ensures
            r.deep_view() == self.deep_view(),
    {
        match self {
            Removal::Absent => Removal::Absent,
            Removal::Removed(n) => Removal::Removed(*n),
            Removal::Failed(n, e) => Removal::Failed(*n, e.clone()),
        }
    }
}

impl RemovalView {
    /// The bytes that are counted as freed.
    pub open spec fn size(self) -> nat {
        match self {
            RemovalView::Absent => 0,
            RemovalView::Removed(n) => n as nat,
            RemovalView::Failed(n, _) => n as nat,
        }
    }
}

/// What happens to the session whose turn it is.
#[derive(Clone, Copy, Debug, PartialEq, Eq, Structural)]
pub enum DeleteStage {
    /// It is announced.
    Announce,
    /// It is looked up when it was last active.
    Inspect,
    /// It is deleted from the database.
    Rows,
    /// It is removed from disk.
    Remove,
    /// No session is left.
    Over,
}

/// A deletion of sessions.
#[derive(Debug)]
pub struct DeleteRun {
    /// The sessions to delete.
    pub ids: Vec<String>,
    /// Whether sessions are deleted that are protected.
    pub force: bool,
    /// The time at which the deletion began, in milliseconds.
    pub now: u128,
    /// Whose turn it is.
    pub idx: usize,
    pub stage: DeleteStage,
    /// What is to be removed from disk of the session whose turn it is.
    pub targets: Vec<Target>,
    /// How many of the targets are dealt with.
    pub pos: usize,
    /// The bytes freed by them.
    pub freed: u64,
    pub report: DeleteReport,
}

/// What a `DeleteRun` holds.
#[verifier::ext_equal]
pub struct DeleteRunView {
    pub ids: Seq<Seq<char>>,
    pub force: bool,
    pub now: u128,
    pub idx: int,
    pub stage: DeleteStage,
    pub targets: Seq<TargetView>,
    pub pos: int,
    pub freed: nat,
    pub report: DeleteReportView,
}

impl DeepView for DeleteRun {
    type V = DeleteRunView;

    open spec fn deep_view(&self) -> DeleteRunView {
        DeleteRunView {
            ids: self.ids.deep_view(),
            force: self.force,
            now: self.now,
            idx: self.idx as int,
            stage: self.stage,
            targets: self.targets.deep_view(),
            pos: self.pos as int,
            freed: self.freed as nat,
            report: self.report.deep_view(),
        }
    }
}

/// What is to be done next.
#[derive(Debug)]
pub enum DeleteAction {
    /// Show this.
    Tell(Progress),
    /// Report when this session was last active: the times of these places, and of the database.
    Inspect { id: String, places: Vec<Target> },
    /// Delete this session from the database.
    DeleteRows(String),
    /// Remove this from disk.
    Remove(Target),
    /// Nothing more: the deletion is over.
    Finish,
}

/// What a `DeleteAction` holds.
pub enum DeleteActionView {
    Tell(ProgressView),
    Inspect { id: Seq<char>, places: Seq<TargetView> },
    DeleteRows(Seq<char>),
    Remove(TargetView),
    Finish,
}

impl DeepView for DeleteAction {
    type V = DeleteActionView;

    open spec fn deep_view(&self) -> DeleteActionView {
        match self {
            DeleteAction::Tell(p) => DeleteActionView::Tell(p.deep_view()),
            DeleteAction::Inspect { id, places } => DeleteActionView::Inspect {
                id: id@,
                places: places.deep_view(),
            },
            DeleteAction::DeleteRows(id) => DeleteActionView::DeleteRows(id@),
            DeleteAction::Remove(t) => DeleteActionView::Remove(t.deep_view()),
            DeleteAction::Finish => DeleteActionView::Finish,
        }
    }
}

/// What came of an action.
#[derive(Debug)]
pub enum DeleteEvent {
    /// It is shown.
    Told,
    /// The session was last active then.
    Active(Activity),
    /// This many rows were deleted from the database, of these sessions.
    RowsDeleted(u64, Vec<String>),
    /// Nothing could be deleted from the database, and why.
    RowsFailed(String),
    /// The removal from disk.
    Removal(Removal),
}

/// What a `DeleteEvent` holds.
pub enum DeleteEventView {
    Told,
    Active(ActivityView),
    RowsDeleted(u64, Seq<Seq<char>>),
    RowsFailed(Seq<char>),
    Removal(RemovalView),
}

impl DeepView for DeleteEvent {
    type V = DeleteEventView;

    open spec fn deep_view(&self) -> DeleteEventView {
        match self {
            DeleteEvent::Told => DeleteEventView::Told,
            DeleteEvent::Active(a) => DeleteEventView::Active(a.deep_view()),
            DeleteEvent::RowsDeleted(n, ids) => DeleteEventView::RowsDeleted(*n, ids.deep_view()),
            DeleteEvent::RowsFailed(e) => DeleteEventView::RowsFailed(e@),
            DeleteEvent::Removal(r) => DeleteEventView::Removal(r.deep_view()),
        }
    }
}

impl DeleteRunView {
    /// A deletion at its beginning.
    pub open spec fn start(ids: Seq<Seq<char>>, force: bool, now: u128) -> DeleteRunView {
        DeleteRunView {
            ids,
            force,
            now,
            idx: 0,
            stage: if ids.len() == 0 {
                DeleteStage::Over
            } else {
                DeleteStage::Announce
            },
            targets: Seq::empty(),
            pos: 0,
            freed: 0,
            report: DeleteReportView {
                deleted: 0,
                skipped: Seq::empty(),
                freed_disk: 0,
                db_rows_deleted: 0,
                errors: Seq::empty(),
            },
        }
    }

    /// Whether this is a deletion at some stage: a session has its turn, or all had it; every one
    /// that had its turn was deleted or skipped; one that got beyond its announcement has a
    /// well-formed id; and something is left to remove while removing.
    pub open spec fn wf(self) -> bool {
        &&& 0 <= self.idx <= self.ids.len()
        &&& (self.stage is Over <==> self.idx == self.ids.len())
        &&& self.report.deleted + self.report.skipped.len() == self.idx
        &&& self.stage is Inspect || self.stage is Rows || self.stage is Remove ==> is_sess_id(
            self.id(),
        )
        &&& self.stage is Remove ==> 0 <= self.pos < self.targets.len()
        &&& !(self.stage is Remove) ==> self.targets.len() == 0 && self.pos == 0 && self.freed == 0
    }

    /// The session whose turn it is.
    pub open spec fn id(self) -> Seq<char> {
        self.ids[self.idx]
    }

    /// What is to be done next.
    pub open spec fn action(self) -> DeleteActionView {
        match self.stage {
            DeleteStage::Announce => DeleteActionView::Tell(
                delete_message(self.idx as nat, self.ids.len(), self.id()),
            ),
            DeleteStage::Inspect => DeleteActionView::Inspect {
                id: self.id(),
                places: targets_of(self.id()),
            },
            DeleteStage::Rows => DeleteActionView::DeleteRows(self.id()),
            DeleteStage::Remove => DeleteActionView::Remove(self.targets[self.pos]),
            DeleteStage::Over => DeleteActionView::Finish,
        }
    }

    /// Whether an event answers what is to be done, and rows and bytes can be counted in 64 bits.
    pub open spec fn expects(self, event: DeleteEventView) -> bool {
        match event {
            DeleteEventView::Told => self.stage is Announce,
            DeleteEventView::Active(a) => self.stage is Inspect && a.mtimes.len() == targets_of(
                self.id(),
            ).len(),
            DeleteEventView::RowsDeleted(n, _) => self.stage is Rows && self.report.db_rows_deleted
                + n <= u64::MAX,
            DeleteEventView::RowsFailed(_) => self.stage is Rows,
            DeleteEventView::Removal(r) => {
                &&& self.stage is Remove
                &&& self.freed + r.size() <= u64::MAX
                &&& self.pos + 1 == self.targets.len() ==> self.report.freed_disk + self.freed
                    + r.size() <= u64::MAX
            },
        }
    }

    /// The turn goes to the next session.
    pub open spec fn next_turn(self, report: DeleteReportView) -> DeleteRunView {
        DeleteRunView {
            idx: self.idx + 1,
            stage: if self.idx + 1 < self.ids.len() {
                DeleteStage::Announce
            } else {
                DeleteStage::Over
            },
            targets: Seq::empty(),
            pos: 0,
            freed: 0,
            report,
            ..self
        }
    }

    /// The session is left alone.
    pub open spec fn skip(self, why: Seq<char>) -> DeleteRunView {
        self.next_turn(
            DeleteReportView {
                skipped: self.report.skipped.push(self.id() + why),
                ..self.report
            },
        )
    }

    /// The session is deleted.
    pub open spec fn conclude(self, freed: nat) -> DeleteRunView {
        self.next_turn(
            DeleteReportView {
                deleted: self.report.deleted + 1,
                freed_disk: self.report.freed_disk + freed,
                ..self.report
            },
        )
    }

    /// What is on disk of some sessions is to be removed.
    pub open spec fn remove(self, sids: Seq<Seq<char>>) -> DeleteRunView {
        if sids.len() == 0 {
            self.conclude(0)
        } else {
            DeleteRunView {
                stage: DeleteStage::Remove,
                targets: targets_of_all(sids),
                pos: 0,
                freed: 0,
                ..self
            }
        }
    }

    /// Another error is reported.
    pub open spec fn with_error(self, error: Seq<char>) -> DeleteRunView {
        DeleteRunView {
            report: DeleteReportView { errors: self.report.errors.push(error), ..self.report },
            ..self
        }
    }

    /// The deletion after an event that it expects.
    pub open spec fn after(self, event: DeleteEventView) -> DeleteRunView {
        match event {
            DeleteEventView::Told => if is_sess_id(self.id()) {
                DeleteRunView { stage: DeleteStage::Inspect, ..self }
            } else {
                self.skip(": 非法 ID"@)
            },
            DeleteEventView::Active(a) => if !self.force && protected_at(self.now, last_active(a)) {
                self.skip(": 近 24h 活跃，处于保护中"@)
            } else {
                DeleteRunView { stage: DeleteStage::Rows, ..self }
            },
            DeleteEventView::RowsDeleted(n, sids) => DeleteRunView {
                report: DeleteReportView {
                    db_rows_deleted: self.report.db_rows_deleted + n as nat,
                    ..self.report
                },
                ..self
            }.remove(sids),
            DeleteEventView::RowsFailed(e) => self.with_error(self.id() + "/db: "@ + e).remove(
                seq![self.id()],
            ),
            DeleteEventView::Removal(r) => {
                let t = self.targets[self.pos];
                let told = match r {
                    RemovalView::Failed(_, e) => self.with_error(t.sid + "/"@ + t.loc + ": "@ + e),
                    _ => self,
                };
                let freed = self.freed + r.size();
                if self.pos + 1 < self.targets.len() {
                    DeleteRunView { pos: self.pos + 1, freed, ..told }
                } else {
                    told.conclude(freed)
                }
            },
        }
    }
}

fn push_text(list: &mut Vec<String>, text: String)
    ensures
        final(list).deep_view() == old(list).deep_view().push(text@),
{
    list.push(text);
    assert(final(list).deep_view() =~= old(list).deep_view().push(text@));
}

proof fn lemma_some_targets(sids: Seq<Seq<char>>)
    ensures
        targets_of_all(sids).len() == 5 * sids.len(),
    decreases sids.len(),
{
    if sids.len() > 0 {
        lemma_some_targets(sids.drop_last());
    }
}

/// Begins to delete sessions. One that was active within the last 24 hours is left alone, unless
/// `force` is set.
pub fn delete_sessions_impl(ids: Vec<String>, force: bool, now: u128) -> (r: DeleteRun)
    ensures
        r.deep_view() == DeleteRunView::start(ids.deep_view(), force, now),
        r.deep_view().wf(),
{
    let stage = if ids.len() == 0 {
        DeleteStage::Over
    } else {
        DeleteStage::Announce
    };
    let r = DeleteRun {
        ids,
        force,
        now,
        idx: 0,
        stage,
        targets: Vec::new(),
        pos: 0,
        freed: 0,
        report: DeleteReport {
            deleted: 0,
            skipped: Vec::new(),
            freed_disk: 0,
            db_rows_deleted: 0,
            errors: Vec::new(),
        },
    };
    assert(r.deep_view() =~= DeleteRunView::start(ids.deep_view(), force, now));
    r
}

/// The deletion of sessions, where the database could be opened for it; else the error.
pub open spec fn begun(
    opened: Result<(), Seq<char>>,
    ids: Seq<Seq<char>>,
    force: bool,
    now: u128,
) -> Result<DeleteRunView, Seq<char>> {
    match opened {
        Ok(_) => Ok(DeleteRunView::start(ids, force, now)),
        Err(e) => Err(e),
    }
}

/// What came of opening the database.
pub open spec fn outcome(opened: Result<(), String>) -> Result<(), Seq<char>> {
    match opened {
        Ok(_) => Ok(()),
        Err(e) => Err(e@),
    }
}

/// Begins to delete sessions after it was tried to open the database for writing. Where that failed,
/// there is no deletion: the error is all that comes of it.
pub fn begin_deletion(
    opened: Result<(), String>,
    ids: Vec<String>,
    force: bool,
    now: u128,
) -> (r: Result<DeleteRun, String>)
    ensures
        match r {
            Ok(run) => begun(outcome(opened), ids.deep_view(), force, now) == Ok::<
                DeleteRunView,
                Seq<char>,
            >(run.deep_view()) && run.deep_view().wf(),
            Err(e) => begun(outcome(opened), ids.deep_view(), force, now) == Err::<
                DeleteRunView,
                Seq<char>,
            >(e@),
        },
{
    match opened {
        Ok(_) => Ok(delete_sessions_impl(ids, force, now)),
        Err(e) => Err(e),
    }
}

impl DeleteRun {
    /// What is to be done next.
    pub fn action(&self) -> (r: DeleteAction)
        requires
            self.deep_view().wf(),
        ensures
            r.deep_view() == self.deep_view().action(),
    {
        match self.stage {
            DeleteStage::Announce => {
                assert(self.deep_view().id() == self.ids@[self.idx as int]@);
                DeleteAction::Tell(
                    delete_progress(self.idx, self.ids.len(), self.ids[self.idx].as_str()),
                )
            },
            DeleteStage::Inspect => {
                let id = self.ids[self.idx].clone();
                let mut places: Vec<Target> = Vec::new();
                push_targets(&mut places, &id);
                assert(places.deep_view() =~= targets_of(id@));
                DeleteAction::Inspect { id, places }
            },
            DeleteStage::Rows => DeleteAction::DeleteRows(self.ids[self.idx].clone()),
            DeleteStage::Remove => DeleteAction::Remove(self.targets[self.pos].copy()),
            DeleteStage::Over => DeleteAction::Finish,
        }
    }

    /// Whether an event answers what is to be done, and rows and bytes can be counted in 64 bits.
    pub fn can_take(&self, event: &DeleteEvent) -> (r: bool)
        requires
            self.deep_view().wf(),
        ensures
            r == self.deep_view().expects(event.deep_view()),
    {
        match event {
            DeleteEvent::Told => self.stage == DeleteStage::Announce,
            DeleteEvent::Active(a) => self.stage == DeleteStage::Inspect && a.mtimes.len() == 5,
            DeleteEvent::RowsDeleted(n, _) => self.stage == DeleteStage::Rows
                && self.report.db_rows_deleted <= u64::MAX - *n,
            DeleteEvent::RowsFailed(_) => self.stage == DeleteStage::Rows,
            DeleteEvent::Removal(r) => {
                let size: u64 = match r {
                    Removal::Absent => 0,
                    Removal::Removed(n) => *n,
                    Removal::Failed(n, _) => *n,
                };
                if self.stage != DeleteStage::Remove || self.freed > u64::MAX - size {
                    return false;
                }
                let freed: u64 = self.freed + size;
                assert(self.pos < self.targets.len());
                self.pos + 1 < self.targets.len() || self.report.freed_disk <= u64::MAX - freed
            },
        }
    }

    /// Goes on after an action.
    pub fn advance(&mut self, event: DeleteEvent)
        requires
            old(self).deep_view().wf(),
            old(self).deep_view().expects(event.deep_view()),
        ensures
            final(self).deep_view() == old(self).deep_view().after(event.deep_view()),
            final(self).deep_view().wf(),
    {
        assert(self.report.deleted <= self.idx < self.ids.len());
        match event {
            DeleteEvent::Told => {
                assert(self.deep_view().id() == self.ids@[self.idx as int]@);
                if valid_sess_id(self.ids[self.idx].as_str()) {
                    self.stage = DeleteStage::Inspect;
                } else {
                    self.skip(": 非法 ID");
                }
            },
            DeleteEvent::Active(a) => {
                let time: u128 = last_activity(&a);
                if !self.force && is_protected(self.now, time) {
                    self.skip(": 近 24h 活跃，处于保护中");
                } else {
                    self.stage = DeleteStage::Rows;
                }
            },
            DeleteEvent::RowsDeleted(n, sids) => {
                self.report.db_rows_deleted = self.report.db_rows_deleted + n;
                self.remove(sids);
            },
            DeleteEvent::RowsFailed(e) => {
                let id = self.ids[self.idx].clone();
                let mut message = id.clone();
                message.append("/db: ");
                message.append(e.as_str());
                push_text(&mut self.report.errors, message);
                let mut sids: Vec<String> = Vec::new();
                push_text(&mut sids, id);
                assert(sids.deep_view() =~= seq![id@]);
                self.remove(sids);
            },
            DeleteEvent::Removal(r) => {
                let size: u64 = match &r {
                    Removal::Absent => 0,
                    Removal::Removed(n) => *n,
                    Removal::Failed(n, _) => *n,
                };
                if let Removal::Failed(_, e) = &r {
                    let t = &self.targets[self.pos];
                    assert(self.deep_view().targets[self.pos as int] == t.deep_view());
                    let mut message = t.sid.clone();
                    message.append("/");
                    message.append(t.loc.as_str());
                    message.append(": ");
                    message.append(e.as_str());
                    push_text(&mut self.report.errors, message);
                }
                let freed: u64 = self.freed + size;
                assert(self.pos < self.targets.len());
                if self.pos + 1 < self.targets.len() {
                    self.pos = self.pos + 1;
                    self.freed = freed;
                } else {
                    self.conclude(freed);
                }
            },
        }
    }

    fn next_turn(&mut self)
        requires
            old(self).idx < old(self).ids.len(),
        ensures
            final(self).deep_view() == old(self).deep_view().next_turn(
                old(self).report.deep_view(),
            ),
    {
        self.idx = self.idx + 1;
        self.stage = if self.idx < self.ids.len() {
            DeleteStage::Announce
        } else {
            DeleteStage::Over
        };
        self.targets = Vec::new();
        self.pos = 0;
        self.freed = 0;
        assert(self.targets.deep_view() =~= Seq::<TargetView>::empty());
    }

    fn skip(&mut self, why: &str)
        requires
            old(self).idx < old(self).ids.len(),
        ensures
            final(self).deep_view() == old(self).deep_view().skip(why@),
    {
        assert(self.deep_view().id() == self.ids@[self.idx as int]@);
        let mut message = self.ids[self.idx].clone();
        message.append(why);
        push_text(&mut self.report.skipped, message);
        self.next_turn();
    }

    fn conclude(&mut self, freed: u64)
        requires
            old(self).idx < old(self).ids.len(),
            old(self).report.deleted < usize::MAX,
            old(self).report.freed_disk + freed <= u64::MAX,
        ensures
            final(self).deep_view() == old(self).deep_view().conclude(freed as nat),
    {
        self.report.freed_disk = self.report.freed_disk + freed;
        self.report.deleted = self.report.deleted + 1;
        self.next_turn();
    }

    fn remove(&mut self, sids: Vec<String>)
        requires
            old(self).idx < old(self).ids.len(),
            old(self).report.deleted < usize::MAX,
        ensures
            final(self).deep_view() == old(self).deep_view().remove(sids.deep_view()),
            sids.len() > 0 ==> final(self).deep_view().targets.len() > 0,
    {
        if sids.len() == 0 {
            self.conclude(0);
        } else {
            proof {
                lemma_some_targets(sids.deep_view());
            }
            self.targets = all_targets(&sids);
            self.stage = DeleteStage::Remove;
            self.pos = 0;
            self.freed = 0;
        }
    }
}

/// Ends a deletion that is over. The remembered size of the data directory does not hold any more:
/// the next scan measures it, whatever it asks for.
pub fn finish_deletion(run: DeleteRun, cache: &mut TotalCache) -> (r: DeleteReport)
    requires
        run.deep_view().wf(),
        run.stage is Over,
    ensures
        r.deep_view() == run.deep_view().report,
        *final(cache) == (TotalCache { valid: false, ..*old(cache) }),
        forall|compute: bool| #[trigger]
            total_answer(*final(cache), compute) == TotalAnswer::Measure,
{
    invalidate_total(cache);
    run.report
}

/// Where there is no database nothing is deleted, whatever is asked for: there is no deletion that
/// would announce, delete or remove anything, only the error.
pub proof fn law_missing_database_stops_deletion(ids: Seq<Seq<char>>, force: bool, now: u128)
    ensures
        opening(false, false) matches Err(e) && e == "数据库不存在"@ && begun(
            Err(e),
            ids,
            force,
            now,
        ) == Err::<DeleteRunView, Seq<char>>(e),
{
}

/// Whether something is deleted or removed next.
pub open spec fn destroys(action: DeleteActionView) -> bool {
    action is DeleteRows || action is Remove
}

/// A session that was active within the last 24 hours is left alone unless `force` is set: it is
/// reported as skipped, nothing of it is deleted, and the turn goes on.
pub proof fn law_active_sessions_are_spared(run: DeleteRunView, a: ActivityView)
    requires
        run.wf(),
        run.expects(DeleteEventView::Active(a)),
        !run.force,
        protected_at(run.now, last_active(a)),
    ensures
        ({
            let next = run.after(DeleteEventView::Active(a));
            &&& !destroys(next.action())
            &&& next.idx == run.idx + 1
            &&& next.report == (DeleteReportView {
                skipped: run.report.skipped.push(run.id() + ": 近 24h 活跃，处于保护中"@),
                ..run.report
            })
        }),
{
}

/// What is no well-formed session id is left alone in any case: it is reported as skipped, it is not
/// even looked up, and the turn goes on.
pub proof fn law_malformed_ids_are_spared(run: DeleteRunView)
    requires
        run.wf(),
        run.stage is Announce,
        !is_sess_id(run.id()),
    ensures
        ({
            let next = run.after(DeleteEventView::Told);
            &&& next.stage is Announce || next.stage is Over
            &&& next.idx == run.idx + 1
            &&& next.report == (DeleteReportView {
                skipped: run.report.skipped.push(run.id() + ": 非法 ID"@),
                ..run.report
            })
        }),
{
}

/// A session that is not protected, or any with `force`, is deleted from the database next.
pub proof fn law_other_sessions_are_deleted(run: DeleteRunView, a: ActivityView)
    requires
        run.wf(),
        run.expects(DeleteEventView::Active(a)),
        run.force || !protected_at(run.now, last_active(a)),
    ensures
        run.after(DeleteEventView::Active(a)).action() == DeleteActionView::DeleteRows(run.id()),
        run.after(DeleteEventView::Active(a)).report == run.report,
{
}

/// Nothing is deleted or removed in the turn of a session before it was looked up when it was last
/// active, nor ever in the turn of a malformed id.
pub proof fn law_nothing_goes_unchecked(run: DeleteRunView, event: DeleteEventView)
    requires
        run.wf(),
        run.expects(event),
        destroys(run.after(event).action()),
    ensures
        run.after(event).idx == run.idx,
        destroys(run.action()) || run.stage is Inspect,
        is_sess_id(run.id()),
{
}

/// When the deletion is over, each session was either deleted or skipped.
pub proof fn law_every_session_is_accounted_for(run: DeleteRunView)
    requires
        run.wf(),
        run.stage is Over,
    ensures
        run.report.deleted + run.report.skipped.len() == run.ids.len(),
{
}

/// The places that may hold data of some sessions are those of each of them, and no others.
pub proof fn law_places_are_those_of_the_sessions(sids: Seq<Seq<char>>, t: TargetView)
    ensures
        targets_of_all(sids).contains(t) == exists|k: int|
            0 <= k < sids.len() && targets_of(#[trigger] sids[k]).contains(t),
    decreases sids.len(),
{
    if sids.len() > 0 {
        let fewer = sids.drop_last();
        let a = targets_of_all(fewer);
        let b = targets_of(sids.last());
        law_places_are_those_of_the_sessions(fewer, t);
        if a.contains(t) {
            let m = choose|m: int| 0 <= m < a.len() && a[m] == t;
            assert((a + b)[m] == t);
            let k = choose|k: int| 0 <= k < fewer.len() && targets_of(#[trigger] fewer[k]).contains(t);
            assert(targets_of(sids[k]).contains(t));
        }
        if b.contains(t) {
            let m = choose|m: int| 0 <= m < b.len() && b[m] == t;
            assert((a + b)[a.len() + m] == t);
            assert(targets_of(sids[sids.len() - 1]).contains(t));
        }
        if (a + b).contains(t) {
            let m = choose|m: int| 0 <= m < (a + b).len() && (a + b)[m] == t;
            if m < a.len() {
                assert(a[m] == t);
            } else {
                assert(b[m - a.len()] == t);
            }
        }
        if exists|k: int| 0 <= k < sids.len() && targets_of(#[trigger] sids[k]).contains(t) {
            let k = choose|k: int| 0 <= k < sids.len() && targets_of(#[trigger] sids[k]).contains(t);
            if k < fewer.len() {
                assert(targets_of(fewer[k]).contains(t));
            }
        }
    }
}

/// The places of a session with a well-formed id lie directly in one of the five locations: the name
/// in the location holds no separator of paths, and is no name for the location itself or for what
/// is above it.
pub proof fn law_places_lie_in_their_locations(sid: Seq<char>, t: TargetView)
    requires
        is_sess_id(sid),
        targets_of(sid).contains(t),
    ensures
        t.dir == "cli/agents"@ || t.dir == "cli/artifacts"@ || t.dir == "cli/exec"@ || t.dir
            == "cli/image-cache"@ || t.dir == "cli/rollout"@,
        !t.name.contains('/'),
        !t.name.contains('\\'),
        t.name.len() > 2,
{
    reveal_strlit("sess_");
    reveal_strlit("model-io-");
    reveal_strlit(".jsonl");
    law_session_ids_are_plain_names(sid);
    let m = choose|m: int| 0 <= m < targets_of(sid).len() && targets_of(sid)[m] == t;
    if m < 4 {
        assert(t == dir_target(sid, session_dir_list()[m]));
    } else {
        assert(t == rollout_target(sid));
        let prefix = "model-io-"@;
        let suffix = ".jsonl"@;
        assert forall|k: int| 0 <= k < t.name.len() implies #[trigger] t.name[k] != '/'
            && t.name[k] != '\\' by {
            if prefix.len() <= k < prefix.len() + sid.len() {
                assert(t.name[k] == sid[k - prefix.len()]);
                assert(sid.contains(sid[k - prefix.len()]));
            }
        }
    }
}

/// A deletion from the database that fails is reported, and what is on disk of the session itself is
/// removed nevertheless.
pub proof fn law_database_failure_does_not_stop_removal(run: DeleteRunView, e: Seq<char>)
    requires
        run.wf(),
        run.stage is Rows,
    ensures
        ({
            let next = run.after(DeleteEventView::RowsFailed(e));
            &&& next.report.errors == run.report.errors.push(run.id() + "/db: "@ + e)
            &&& next.stage is Remove
            &&& next.targets == targets_of(run.id())
        }),
{
    assert(seq![run.id()].drop_last() =~= Seq::<Seq<char>>::empty());
    assert(targets_of_all(seq![run.id()].drop_last()) =~= Seq::<TargetView>::empty());
    assert(targets_of_all(seq![run.id()]) =~= targets_of(run.id()));
}

/// The deletion after some events.
pub open spec fn after_all(run: DeleteRunView, events: Seq<DeleteEventView>) -> DeleteRunView
    decreases events.len(),
{
    if events.len() == 0 {
        run
    } else {
        after_all(run, events.drop_last()).after(events.last())
    }
}

/// Whether each of some events is expected when it comes.
pub open spec fn all_expected(run: DeleteRunView, events: Seq<DeleteEventView>) -> bool
    decreases events.len(),
{
    events.len() == 0 || (all_expected(run, events.drop_last()) && after_all(
        run,
        events.drop_last(),
    ).expects(events.last()))
}

/// The bytes of everything that was removed.
pub open spec fn bytes_removed(events: Seq<DeleteEventView>) -> nat
    decreases events.len(),
{
    if events.len() == 0 {
        0
    } else {
        bytes_removed(events.drop_last()) + match events.last() {
            DeleteEventView::Removal(r) => r.size(),
            _ => 0,
        }
    }
}

/// The rows that were deleted from the database.
pub open spec fn rows_deleted(events: Seq<DeleteEventView>) -> nat
    decreases events.len(),
{
    if events.len() == 0 {
        0
    } else {
        rows_deleted(events.drop_last()) + match events.last() {
            DeleteEventView::RowsDeleted(n, _) => n as nat,
            _ => 0,
        }
    }
}

/// However a deletion goes, its report adds up: it counts the bytes of everything that was removed
/// and every row that was deleted, and each session was deleted or skipped.
pub proof fn law_report_adds_up(
    ids: Seq<Seq<char>>,
    force: bool,
    now: u128,
    events: Seq<DeleteEventView>,
)
    requires
        all_expected(DeleteRunView::start(ids, force, now), events),
        after_all(DeleteRunView::start(ids, force, now), events).stage is Over,
    ensures
        ({
            let report = after_all(DeleteRunView::start(ids, force, now), events).report;
            &&& report.freed_disk == bytes_removed(events)
            &&& report.db_rows_deleted == rows_deleted(events)
            &&& report.deleted + report.skipped.len() == ids.len()
        }),
{
    lemma_run_so_far(ids, force, now, events);
}

proof fn lemma_run_so_far(
    ids: Seq<Seq<char>>,
    force: bool,
    now: u128,
    events: Seq<DeleteEventView>,
)
    requires
        all_expected(DeleteRunView::start(ids, force, now), events),
    ensures
        ({
            let run = after_all(DeleteRunView::start(ids, force, now), events);
            &&& run.wf()
            &&& run.ids == ids
            &&& run.force == force
            &&& run.now == now
            &&& run.report.freed_disk + run.freed == bytes_removed(events)
            &&& run.report.db_rows_deleted == rows_deleted(events)
        }),
    decreases events.len(),
{
    if events.len() > 0 {
        lemma_run_so_far(ids, force, now, events.drop_last());
        let run = after_all(DeleteRunView::start(ids, force, now), events.drop_last());
        match events.last() {
            DeleteEventView::RowsDeleted(_, sids) => {
                lemma_some_targets(sids);
            },
            DeleteEventView::RowsFailed(_) => {
                lemma_some_targets(seq![run.id()]);
            },
            _ => {},
        }
    }
}

/// Whether an event says that something could not be deleted or removed.
pub open spec fn is_failure(event: DeleteEventView) -> bool {
    event is RowsFailed || (event matches DeleteEventView::Removal(r) && r is Failed)
}

/// How many of some events say that something could not be deleted or removed.
pub open spec fn failures(events: Seq<DeleteEventView>) -> nat
    decreases events.len(),
{
    if events.len() == 0 {
        0
    } else {
        failures(events.drop_last()) + (if is_failure(events.last()) {
            1nat
        } else {
            0nat
        })
    }
}

/// However a deletion goes, its report has one error for each failure. So where it has none, nothing
/// failed.
pub proof fn law_each_failure_is_reported(
    ids: Seq<Seq<char>>,
    force: bool,
    now: u128,
    events: Seq<DeleteEventView>,
)
    requires
        all_expected(DeleteRunView::start(ids, force, now), events),
    ensures
        ({
            let report = after_all(DeleteRunView::start(ids, force, now), events).report;
            &&& report.errors.len() == failures(events)
            &&& report.errors.len() == 0 ==> forall|k: int|
                0 <= k < events.len() ==> !is_failure(#[trigger] events[k])
        }),
    decreases events.len(),
{
    if events.len() > 0 {
        let fewer = events.drop_last();
        law_each_failure_is_reported(ids, force, now, fewer);
        let report = after_all(DeleteRunView::start(ids, force, now), events).report;
        if report.errors.len() == 0 {
            assert forall|k: int| 0 <= k < events.len() implies !is_failure(#[trigger] events[k]) by {
                if k < fewer.len() {
                    assert(fewer[k] == events[k]);
                }
            }
        }
    }
}

/// However a deletion goes, a session is deleted from the database only right after it was looked up
/// when it was last active, and only if it is not protected or `force` is set.
pub proof fn law_only_unprotected_sessions_are_deleted(
    ids: Seq<Seq<char>>,
    force: bool,
    now: u128,
    events: Seq<DeleteEventView>,
    id: Seq<char>,
)
    requires
        all_expected(DeleteRunView::start(ids, force, now), events),
        after_all(DeleteRunView::start(ids, force, now), events).action()
            == DeleteActionView::DeleteRows(id),
    ensures
        ids.contains(id),
        is_sess_id(id),
        events.len() > 0,
        events.last() matches DeleteEventView::Active(a) && (force || !protected_at(
            now,
            last_active(a),
        )),
{
    lemma_run_so_far(ids, force, now, events);
    let run = after_all(DeleteRunView::start(ids, force, now), events);
    assert(ids[run.idx] == id);
    lemma_run_so_far(ids, force, now, events.drop_last());
}

/// Whether an event has the database's part in the deletion of a session done with, after which these
/// places are to be cleared: those of all sessions that were deleted from the database, or those of
/// the session itself where that failed.
pub open spec fn has_cleared(
    event: DeleteEventView,
    id: Seq<char>,
    targets: Seq<TargetView>,
) -> bool {
    match event {
        DeleteEventView::RowsDeleted(_, sids) => targets == targets_of_all(sids),
        DeleteEventView::RowsFailed(_) => targets == targets_of_all(seq![id]),
        _ => false,
    }
}

/// The deletion after some removals from disk.
pub open spec fn after_removals(run: DeleteRunView, removals: Seq<RemovalView>) -> DeleteRunView
    decreases removals.len(),
{
    if removals.len() == 0 {
        run
    } else {
        after_removals(run, removals.drop_last()).after(DeleteEventView::Removal(removals.last()))
    }
}

/// The bytes in some removals.
pub open spec fn removal_size(removals: Seq<RemovalView>) -> nat
    decreases removals.len(),
{
    if removals.len() == 0 {
        0
    } else {
        removal_size(removals.drop_last()) + removals.last().size()
    }
}

/// What is on disk of a session and of all sessions below it is removed: once the database is done
/// with, every place of these sessions is handed out for removal, one after the other and whatever
/// comes of each removal. Only after all of them the session counts as deleted, with the bytes of all
/// removals as freed, and the turn goes on.
pub proof fn law_all_places_are_cleared(
    run: DeleteRunView,
    event: DeleteEventView,
    targets: Seq<TargetView>,
    removals: Seq<RemovalView>,
)
    requires
        run.wf(),
        run.stage is Rows,
        has_cleared(event, run.id(), targets),
        removals.len() <= targets.len(),
    ensures
        ({
            let next = after_removals(run.after(event), removals);
            if removals.len() < targets.len() {
                &&& next.action() == DeleteActionView::Remove(targets[removals.len() as int])
                &&& next.idx == run.idx
                &&& next.report.deleted == run.report.deleted
                &&& next.report.freed_disk == run.report.freed_disk
            } else {
                &&& next.idx == run.idx + 1
                &&& next.report.deleted == run.report.deleted + 1
                &&& next.report.freed_disk == run.report.freed_disk + removal_size(removals)
                &&& !destroys(next.action())
            }
        }),
{
    lemma_after_removals(run, event, targets, removals);
}

proof fn lemma_after_removals(
    run: DeleteRunView,
    event: DeleteEventView,
    targets: Seq<TargetView>,
    removals: Seq<RemovalView>,
)
    requires
        run.wf(),
        run.stage is Rows,
        has_cleared(event, run.id(), targets),
        removals.len() <= targets.len(),
    ensures
        ({
            let next = after_removals(run.after(event), removals);
            &&& next.ids == run.ids
            &&& if removals.len() < targets.len() {
                &&& next.stage is Remove
                &&& next.targets == targets
                &&& next.pos == removals.len()
                &&& next.freed == removal_size(removals)
                &&& next.idx == run.idx
                &&& next.report.deleted == run.report.deleted
                &&& next.report.freed_disk == run.report.freed_disk
            } else {
                &&& next.stage is Announce || next.stage is Over
                &&& next.idx == run.idx + 1
                &&& next.report.deleted == run.report.deleted + 1
                &&& next.report.freed_disk == run.report.freed_disk + removal_size(removals)
            }
        }),
    decreases removals.len(),
{
    if removals.len() > 0 {
        lemma_after_removals(run, event, targets, removals.drop_last());
    } else {
        match event {
            DeleteEventView::RowsDeleted(_, sids) => {
                lemma_some_targets(sids);
            },
            _ => {
                lemma_some_targets(seq![run.id()]);
            },
        }
    }
}

/// Nothing of a whole tree of sessions is forgotten: where the database deleted the sessions that were
/// collected below one, every place of that session, and of each below it at any depth, is cleared.
pub proof fn law_whole_tree_is_cleared(
    is_child: spec_fn(Seq<char>, Seq<char>) -> bool,
    root: Seq<char>,
    found: Seq<Seq<Seq<char>>>,
    x: Seq<char>,
    t: TargetView,
)
    requires
        answered(is_child, root, found),
        found.len() > 0,
        found.last().len() == 0,
        descends(is_child, x, root),
        targets_of(x).contains(t),
    ensures
        targets_of_all(collected(root, found)).contains(t),
{
    let sids = collected(root, found);
    law_whole_tree_is_collected(is_child, root, found, x);
    let k = choose|k: int| 0 <= k < sids.len() && sids[k] == x;
    assert(targets_of(sids[k]).contains(t));
    law_places_are_those_of_the_sessions(sids, t);
}

/// The bytes that a scan found in a place.
pub open spec fn place_size(all: Seq<Contribution>, t: TargetView) -> nat {
    bytes_in(all.filter(|c: Contribution| c.id == t.sid && c.part.loc == t.loc))
}

/// The bytes that a scan shows for some sessions.
pub open spec fn shown_size(all: Seq<Contribution>, sids: Seq<Seq<char>>) -> nat
    decreases sids.len(),
{
    if sids.len() == 0 {
        0
    } else {
        shown_size(all, sids.drop_last()) + fs_session(all, sids.last()).size
    }
}

/// Whether each removal met with what a scan found in its place: nothing where there was nothing.
pub open spec fn as_found(
    all: Seq<Contribution>,
    targets: Seq<TargetView>,
    removals: Seq<RemovalView>,
) -> bool {
    &&& removals.len() == targets.len()
    &&& forall|k: int|
        0 <= k < removals.len() ==> (#[trigger] removals[k]).size() == place_size(all, targets[k])
}

/// The space that a deletion frees is the space that a scan showed: where nothing changed on disk in
/// between, the bytes that are counted as freed for a session, and those below it that the database
/// deleted with it, are the sizes that the scan showed for them.
pub proof fn law_freed_is_what_was_shown(
    run: DeleteRunView,
    rows: u64,
    sids: Seq<Seq<char>>,
    removals: Seq<RemovalView>,
    listings: Seq<DirListingView>,
    rollout: Seq<FoundFileView>,
)
    requires
        run.wf(),
        run.stage is Rows,
        forall|k: int| 0 <= k < listings.len() ==> is_location((#[trigger] listings[k]).loc),
        as_found(contributions(listings, rollout), targets_of_all(sids), removals),
    ensures
        after_removals(
            run.after(DeleteEventView::RowsDeleted(rows, sids)),
            removals,
        ).report.freed_disk == run.report.freed_disk + shown_size(
            contributions(listings, rollout),
            sids,
        ),
{
    let all = contributions(listings, rollout);
    let event = DeleteEventView::RowsDeleted(rows, sids);
    lemma_after_removals(run, event, targets_of_all(sids), removals);
    assert forall|k: int| 0 <= k < all.len() implies in_some_place(#[trigger] all[k]) by {
        assert(all.contains(all[k]));
        lemma_found_in_place(listings, rollout, all[k]);
    }
    lemma_removed_sizes(all, sids, removals);
}

/// Whether a piece of data lies in one of the five locations.
spec fn in_some_place(c: Contribution) -> bool {
    is_location(c.part.loc) || c.part.loc == "rollout"@
}

proof fn lemma_found_in_place(
    listings: Seq<DirListingView>,
    rollout: Seq<FoundFileView>,
    c: Contribution,
)
    requires
        forall|k: int| 0 <= k < listings.len() ==> is_location((#[trigger] listings[k]).loc),
        contributions(listings, rollout).contains(c),
    ensures
        in_some_place(c),
{
    let all = contributions(listings, rollout);
    let at = choose|at: int| 0 <= at < all.len() && all[at] == c;
    let listed = listed_contributions(listings);
    if at < listed.len() {
        assert(listed.contains(c)) by {
            assert(listed[at] == c);
        }
        lemma_listed_location(listings, c);
    } else {
        assert(rollout_contributions(rollout)[at - listed.len()] == c);
        lemma_rollout_location(rollout, at - listed.len());
    }
}

proof fn lemma_removed_sizes(
    all: Seq<Contribution>,
    sids: Seq<Seq<char>>,
    removals: Seq<RemovalView>,
)
    requires
        forall|k: int| 0 <= k < all.len() ==> in_some_place(#[trigger] all[k]),
        as_found(all, targets_of_all(sids), removals),
    ensures
        removal_size(removals) == shown_size(all, sids),
    decreases sids.len(),
{
    let targets = targets_of_all(sids);
    lemma_some_targets(sids);
    if sids.len() > 0 {
        let fewer = sids.drop_last();
        let sid = sids.last();
        let n = removals.len() as int;
        lemma_some_targets(fewer);
        let head = removals.take(n - 5);
        assert forall|k: int| 0 <= k < head.len() implies (#[trigger] head[k]).size() == place_size(
            all,
            targets_of_all(fewer)[k],
        ) by {
            assert(head[k] == removals[k]);
            assert(targets[k] == targets_of_all(fewer)[k]);
        }
        lemma_removed_sizes(all, fewer, head);
        assert forall|m: int| 0 <= m < 5 implies (#[trigger] removals[n - 5 + m]).size()
            == place_size(all, targets_of(sid)[m]) by {
            assert(targets[n - 5 + m] == targets_of(sid)[m]);
        }
        assert(removals.drop_last() =~= removals.take(n - 1));
        assert(removals.take(n - 1).drop_last() =~= removals.take(n - 2));
        assert(removals.take(n - 2).drop_last() =~= removals.take(n - 3));
        assert(removals.take(n - 3).drop_last() =~= removals.take(n - 4));
        assert(removals.take(n - 4).drop_last() =~= removals.take(n - 5));
        assert(removal_size(removals) == removal_size(removals.take(n - 1)) + removals[n - 5
            + 4].size());
        assert(removal_size(removals.take(n - 1)) == removal_size(removals.take(n - 2))
            + removals[n - 5 + 3].size());
        assert(removal_size(removals.take(n - 2)) == removal_size(removals.take(n - 3))
            + removals[n - 5 + 2].size());
        assert(removal_size(removals.take(n - 3)) == removal_size(removals.take(n - 4))
            + removals[n - 5 + 1].size());
        assert(removal_size(removals.take(n - 4)) == removal_size(head) + removals[n - 5
            + 0].size());
        lemma_places_add_up(all, sid);
    }
}

proof fn lemma_places_add_up(all: Seq<Contribution>, sid: Seq<char>)
    requires
        forall|k: int| 0 <= k < all.len() ==> in_some_place(#[trigger] all[k]),
    ensures
        fs_session(all, sid).size == place_size(all, targets_of(sid)[0]) + place_size(
            all,
            targets_of(sid)[1],
        ) + place_size(all, targets_of(sid)[2]) + place_size(all, targets_of(sid)[3]) + place_size(
            all,
            targets_of(sid)[4],
        ),
    decreases all.len(),
{
    let places = targets_of(sid);
    if all.len() > 0 {
        let fewer = all.drop_last();
        let c = all.last();
        assert(fewer.push(c) =~= all);
        assert forall|k: int| 0 <= k < fewer.len() implies in_some_place(#[trigger] fewer[k]) by {
            assert(fewer[k] == all[k]);
        }
        lemma_places_add_up(fewer, sid);
        lemma_place_size_step(fewer, c, places[0]);
        lemma_place_size_step(fewer, c, places[1]);
        lemma_place_size_step(fewer, c, places[2]);
        lemma_place_size_step(fewer, c, places[3]);
        lemma_place_size_step(fewer, c, places[4]);
        fewer.lemma_filter_push(c, |x: Contribution| x.id == sid);
        let own = of_session(fewer, sid);
        assert(own.push(c).drop_last() =~= own);
        assert(in_some_place(all[all.len() - 1]));
        lemma_locations_differ();
    } else {
        assert(of_session(all, sid).len() == 0) by {
            all.lemma_filter_len(|x: Contribution| x.id == sid);
        }
        assert forall|m: int| 0 <= m < 5 implies place_size(all, #[trigger] places[m]) == 0 by {
            all.lemma_filter_len(
                |x: Contribution| x.id == places[m].sid && x.part.loc == places[m].loc,
            );
        }
    }
}

proof fn lemma_place_size_step(all: Seq<Contribution>, c: Contribution, t: TargetView)
    ensures
        place_size(all.push(c), t) == place_size(all, t) + (if c.id == t.sid && c.part.loc == t.loc {
            c.part.size as nat
        } else {
            0
        }),
{
    let here = |x: Contribution| x.id == t.sid && x.part.loc == t.loc;
    all.lemma_filter_push(c, here);
    let own = all.filter(here);
    assert(own.push(c).drop_last() =~= own);
}

proof fn lemma_locations_differ()
    ensures
        forall|k: int, l: int|
            0 <= k < l < session_dir_list().len() ==> (#[trigger] session_dir_list()[k]).0 != (
            #[trigger] session_dir_list()[l]).0,
        forall|k: int|
            0 <= k < session_dir_list().len() ==> (#[trigger] session_dir_list()[k]).0
                != "rollout"@,
{
    reveal_strlit("agents");
    reveal_strlit("artifacts");
    reveal_strlit("exec");
    reveal_strlit("image-cache");
    reveal_strlit("rollout");
    assert("agents"@.len() == 6);
    assert("artifacts"@.len() == 9);
    assert("exec"@.len() == 4);
    assert("image-cache"@.len() == 11);
    assert("rollout"@.len() == 7);
}

/// Whether a scan finds nothing in a place.
pub open spec fn is_cleared(
    t: TargetView,
    listings: Seq<DirListingView>,
    rollout: Seq<FoundFileView>,
) -> bool {
    if t.is_dir {
        forall|k: int, j: int|
            0 <= k < listings.len() && listings[k].loc == t.loc && 0 <= j < listings[k].found.len()
                ==> (#[trigger] listings[k].found[j]).name != t.name
    } else {
        forall|j: int| 0 <= j < rollout.len() ==> (#[trigger] rollout[j]).name != t.name
    }
}

/// A deleted session is not shown any more: where the places of some sessions are cleared and the
/// database has them no longer, a scan shows none of them.
pub proof fn law_deleted_sessions_are_not_shown(
    sids: Seq<Seq<char>>,
    listings: Seq<DirListingView>,
    rollout: Seq<FoundFileView>,
    rows: Seq<DbRowView>,
    now: u128,
    sessions: Seq<SessionInfoView>,
    id: Seq<char>,
)
    requires
        forall|k: int| 0 <= k < listings.len() ==> is_location((#[trigger] listings[k]).loc),
        forall|k: int|
            0 <= k < targets_of_all(sids).len() ==> is_cleared(
                #[trigger] targets_of_all(sids)[k],
                listings,
                rollout,
            ),
        forall|k: int| 0 <= k < sids.len() ==> !known(rows, #[trigger] sids[k]),
        are_sessions(contributions(listings, rollout), rows, now, sessions),
        sids.contains(id),
    ensures
        !shown(sessions, id),
{
    let all = contributions(listings, rollout);
    let s = choose|s: int| 0 <= s < sids.len() && sids[s] == id;
    assert(!known(rows, sids[s]));
    law_every_session_is_shown(all, rows, now, sessions, id);
    if on_disk(all, id) {
        let at = choose|at: int| 0 <= at < all.len() && (#[trigger] all[at]).id == id;
        let listed = listed_contributions(listings);
        if at < listed.len() {
            let (k, j) = lemma_listed_origin(listings, at);
            let loc = listings[k].loc;
            assert(is_location(loc));
            let m = choose|m: int|
                0 <= m < session_dir_list().len() && (#[trigger] session_dir_list()[m]).0 == loc;
            assert(listings[k].found[j].name == targets_of(id)[m].name);
            lemma_place_cleared(sids, listings, rollout, s, m);
        } else {
            let j = lemma_rollout_origin(rollout, at - listed.len());
            assert(ID_PREFIX@.is_prefix_of(id));
            law_rollout_names_match(id, rollout[j].name);
            lemma_place_cleared(sids, listings, rollout, s, 4);
        }
    }
}

/// A deletion without errors is complete: where the database deleted some sessions, no removal of their
/// places added an error, and a place is cleared that was removed or where there was nothing, a scan
/// shows none of these sessions any more.
pub proof fn law_deletion_without_errors_is_complete(
    run: DeleteRunView,
    deleted: u64,
    sids: Seq<Seq<char>>,
    removals: Seq<RemovalView>,
    listings: Seq<DirListingView>,
    rollout: Seq<FoundFileView>,
    rows: Seq<DbRowView>,
    now: u128,
    sessions: Seq<SessionInfoView>,
    id: Seq<char>,
)
    requires
        run.wf(),
        run.stage is Rows,
        removals.len() == targets_of_all(sids).len(),
        after_removals(
            run.after(DeleteEventView::RowsDeleted(deleted, sids)),
            removals,
        ).report.errors.len() == run.report.errors.len(),
        forall|k: int|
            0 <= k < removals.len() && !(removals[k] is Failed) ==> is_cleared(
                #[trigger] targets_of_all(sids)[k],
                listings,
                rollout,
            ),
        forall|k: int| 0 <= k < listings.len() ==> is_location((#[trigger] listings[k]).loc),
        forall|k: int| 0 <= k < sids.len() ==> !known(rows, #[trigger] sids[k]),
        are_sessions(contributions(listings, rollout), rows, now, sessions),
        sids.contains(id),
    ensures
        !shown(sessions, id),
{
    let event = DeleteEventView::RowsDeleted(deleted, sids);
    lemma_errors_of_removals(run, event, targets_of_all(sids), removals);
    assert forall|k: int| 0 <= k < targets_of_all(sids).len() implies is_cleared(
        #[trigger] targets_of_all(sids)[k],
        listings,
        rollout,
    ) by {
        assert(!(removals[k] is Failed));
    }
    law_deleted_sessions_are_not_shown(sids, listings, rollout, rows, now, sessions, id);
}

proof fn lemma_errors_of_removals(
    run: DeleteRunView,
    event: DeleteEventView,
    targets: Seq<TargetView>,
    removals: Seq<RemovalView>,
)
    requires
        run.wf(),
        run.stage is Rows,
        event is RowsDeleted,
        has_cleared(event, run.id(), targets),
        removals.len() <= targets.len(),
    ensures
        ({
            let next = after_removals(run.after(event), removals);
            &&& next.report.errors.len() >= run.report.errors.len()
            &&& next.report.errors.len() == run.report.errors.len() ==> forall|k: int|
                0 <= k < removals.len() ==> !(#[trigger] removals[k] is Failed)
        }),
    decreases removals.len(),
{
    if removals.len() > 0 {
        let fewer = removals.drop_last();
        lemma_errors_of_removals(run, event, targets, fewer);
        let next = after_removals(run.after(event), removals);
        if next.report.errors.len() == run.report.errors.len() {
            assert forall|k: int| 0 <= k < removals.len() implies !(#[trigger] removals[k] is Failed) by {
                if k < fewer.len() {
                    assert(fewer[k] == removals[k]);
                }
            }
        }
    }
}

proof fn lemma_place_cleared(
    sids: Seq<Seq<char>>,
    listings: Seq<DirListingView>,
    rollout: Seq<FoundFileView>,
    s: int,
    m: int,
)
    requires
        forall|k: int|
            0 <= k < targets_of_all(sids).len() ==> is_cleared(
                #[trigger] targets_of_all(sids)[k],
                listings,
                rollout,
            ),
        0 <= s < sids.len(),
        0 <= m < 5,
    ensures
        is_cleared(targets_of(sids[s])[m], listings, rollout),
{
    let t = targets_of(sids[s])[m];
    assert(targets_of(sids[s]).contains(t));
    law_places_are_those_of_the_sessions(sids, t);
    let k = choose|k: int| 0 <= k < targets_of_all(sids).len() && targets_of_all(sids)[k] == t;
    assert(is_cleared(targets_of_all(sids)[k], listings, rollout));
}

proof fn lemma_listed_origin(listings: Seq<DirListingView>, at: int) -> (r: (int, int))
    requires
        0 <= at < listed_contributions(listings).len(),
    ensures
        0 <= r.0 < listings.len(),
        0 <= r.1 < listings[r.0].found.len(),
        listings[r.0].loc == listed_contributions(listings)[at].part.loc,
        listings[r.0].found[r.1].name == listed_contributions(listings)[at].id,
    decreases listings.len(),
{
    let fewer = listings.drop_last();
    let before = listed_contributions(fewer);
    if at < before.len() {
        lemma_listed_origin(fewer, at)
    } else {
        let last = listings.last();
        let j = lemma_dir_origin(last.loc, last.found, at - before.len());
        (listings.len() - 1, j)
    }
}

proof fn lemma_dir_origin(loc: Seq<char>, found: Seq<FoundDirView>, at: int) -> (j: int)
    requires
        0 <= at < dir_contributions(loc, found).len(),
    ensures
        0 <= j < found.len(),
        found[j].name == dir_contributions(loc, found)[at].id,
        dir_contributions(loc, found)[at].part.loc == loc,
    decreases found.len(),
{
    if at < dir_contributions(loc, found.drop_last()).len() {
        lemma_dir_origin(loc, found.drop_last(), at)
    } else {
        found.len() - 1
    }
}

proof fn lemma_rollout_origin(files: Seq<FoundFileView>, at: int) -> (j: int)
    requires
        0 <= at < rollout_contributions(files).len(),
    ensures
        0 <= j < files.len(),
        rollout_id_text(files[j].name) == Some(rollout_contributions(files)[at].id),
    decreases files.len(),
{
    if at < rollout_contributions(files.drop_last()).len() {
        lemma_rollout_origin(files.drop_last(), at)
    } else {
        files.len() - 1
    }
}

/// However a deletion goes, what is removed from disk is a place of a session that was deleted from
/// the database before, or of a listed session where that was tried before and failed.
pub proof fn law_removals_follow_the_database(
    ids: Seq<Seq<char>>,
    force: bool,
    now: u128,
    events: Seq<DeleteEventView>,
    t: TargetView,
)
    requires
        all_expected(DeleteRunView::start(ids, force, now), events),
        after_all(DeleteRunView::start(ids, force, now), events).action()
            == DeleteActionView::Remove(t),
    ensures
        exists|k: int, id: Seq<char>, targets: Seq<TargetView>|
            0 <= k < events.len() && ids.contains(id) && #[trigger] has_cleared(
                events[k],
                id,
                targets,
            ) && targets.contains(t),
{
    lemma_run_so_far(ids, force, now, events);
    lemma_targets_so_far(ids, force, now, events);
    let run = after_all(DeleteRunView::start(ids, force, now), events);
    let k = choose|k: int|
        0 <= k < events.len() && #[trigger] has_cleared(events[k], run.id(), run.targets);
    assert(ids.contains(run.id()));
    assert(run.targets.contains(t));
    assert(has_cleared(events[k], run.id(), run.targets));
}

proof fn lemma_targets_so_far(
    ids: Seq<Seq<char>>,
    force: bool,
    now: u128,
    events: Seq<DeleteEventView>,
)
    requires
        all_expected(DeleteRunView::start(ids, force, now), events),
        after_all(DeleteRunView::start(ids, force, now), events).stage is Remove,
    ensures
        ({
            let run = after_all(DeleteRunView::start(ids, force, now), events);
            exists|k: int|
                0 <= k < events.len() && #[trigger] has_cleared(events[k], run.id(), run.targets)
        }),
    decreases events.len(),
{
    let run = after_all(DeleteRunView::start(ids, force, now), events);
    if events.len() > 0 {
        let fewer = events.drop_last();
        lemma_run_so_far(ids, force, now, fewer);
        if events.last() is Removal {
            lemma_targets_so_far(ids, force, now, fewer);
            let k = choose|k: int|
                0 <= k < fewer.len() && #[trigger] has_cleared(fewer[k], run.id(), run.targets);
            assert(has_cleared(events[k], run.id(), run.targets));
        } else {
            assert(has_cleared(events[events.len() - 1], run.id(), run.targets));
        }
    }
}

/// A session of the database that is spared would be shown as protected: where the disk says the
/// same in both cases and the database's time of last update is the one that a scan reads, a session
/// that a deletion leaves alone as active is one that a scan at that moment marks as protected.
pub proof fn law_spared_sessions_are_shown_protected(
    all: Seq<Contribution>,
    row: DbRowView,
    a: ActivityView,
    now: u128,
)
    requires
        readable_row(row),
        latest_of(a.mtimes) == fs_session(all, row.id).mtime,
        a.db_time == Some(row.time_updated) || a.db_time is None,
        protected_at(now, last_active(a)),
    ensures
        row_info(all, row, now).protected,
{
}

/// An orphan is spared exactly if it is shown as protected, where the disk says the same in both
/// cases and the database has no time for it.
pub proof fn law_spared_orphans_are_shown_protected(
    all: Seq<Contribution>,
    id: Seq<char>,
    a: ActivityView,
    now: u128,
)
    requires
        latest_of(a.mtimes) == fs_session(all, id).mtime,
        a.db_time is None || a.db_time == Some(None::<i64>) || a.db_time == Some(Some(0i64)),
    ensures
        protected_at(now, last_active(a)) == orphan_info(all, id, now).protected,
{
}

/// The rollout file that is removed with a session is the one that a scan counts as the session's,
/// and no other file is.
pub proof fn law_rollout_names_match(id: Seq<char>, name: Seq<char>)
    requires
        ID_PREFIX@.is_prefix_of(id),
    ensures
        (rollout_id_text(name) == Some(id)) == (name == rollout_target(id).name),
{
    reveal_strlit("model-io-");
    reveal_strlit(".jsonl");
    let prefix = "model-io-"@;
    let suffix = ".jsonl"@;
    let full = rollout_name_text(id);
    assert(full.len() == prefix.len() + id.len() + suffix.len());
    assert(prefix.is_prefix_of(full));
    assert(suffix.is_suffix_of(full)) by {
        assert(full.subrange(full.len() - suffix.len(), full.len() as int) =~= suffix);
    }
    assert(full.subrange(prefix.len() as int, full.len() - suffix.len()) =~= id);
    if rollout_id_text(name) == Some(id) {
        assert(name =~= full) by {
            assert(name.subrange(prefix.len() as int, name.len() - suffix.len()) == id);
            assert forall|k: int| 0 <= k < name.len() implies name[k] == full[k] by {
                if k < prefix.len() {
                    assert(name[k] == prefix[k]);
                } else if k < prefix.len() + id.len() {
                    assert(name[k] == id[k - prefix.len()]);
                } else {
                    let from = name.len() - suffix.len();
                    assert(name.subrange(from, name.len() as int)[k - from] == suffix[k - from]);
                }
            }
        }
    }
}

/// Everything that a scan shows of a session is removed with it: where the scan found something of the
/// session, there is a place among those that are cleared, in that location and under the name that
/// it has there: the id for a directory, the name of the session's rollout file for a file.
pub proof fn law_scanned_data_is_removed(
    listings: Seq<DirListingView>,
    rollout: Seq<FoundFileView>,
    c: Contribution,
)
    requires
        forall|k: int|
            0 <= k < listings.len() ==> is_location((#[trigger] listings[k]).loc),
        contributions(listings, rollout).contains(c),
    ensures
        exists|m: int|
            0 <= m < targets_of(c.id).len() && (#[trigger] targets_of(c.id)[m]).loc == c.part.loc
                && targets_of(c.id)[m].is_dir == (c.part.loc != "rollout"@)
                && targets_of(c.id)[m].name == if c.part.loc == "rollout"@ {
                rollout_name_text(c.id)
            } else {
                c.id
            },
{
    lemma_locations_differ();
    let all = contributions(listings, rollout);
    let at = choose|at: int| 0 <= at < all.len() && all[at] == c;
    let listed = listed_contributions(listings);
    if at < listed.len() {
        assert(listed.contains(c)) by {
            assert(listed[at] == c);
        }
        lemma_listed_location(listings, c);
        let m = choose|m: int|
            0 <= m < session_dir_list().len() && (#[trigger] session_dir_list()[m]).0 == c.part.loc;
        assert(targets_of(c.id)[m].loc == c.part.loc);
    } else {
        let files = rollout_contributions(rollout);
        assert(files[at - listed.len()] == c);
        lemma_rollout_location(rollout, at - listed.len());
        assert(targets_of(c.id)[4].loc == c.part.loc);
    }
}

/// Whether a key is that of a location with one directory for each session.
pub open spec fn is_location(key: Seq<char>) -> bool {
    exists|m: int|
        0 <= m < session_dir_list().len() && (#[trigger] session_dir_list()[m]).0 == key
}

proof fn lemma_listed_location(listings: Seq<DirListingView>, c: Contribution)
    requires
        forall|k: int|
            0 <= k < listings.len() ==> is_location((#[trigger] listings[k]).loc),
        listed_contributions(listings).contains(c),
    ensures
        is_location(c.part.loc),
    decreases listings.len(),
{
    if listings.len() > 0 {
        let fewer = listings.drop_last();
        let last = listings.last();
        let a = listed_contributions(fewer);
        let b = dir_contributions(last.loc, last.found);
        assert forall|k: int| 0 <= k < fewer.len() implies is_location((#[trigger] fewer[k]).loc) by {
            assert(fewer[k] == listings[k]);
        }
        let at = choose|at: int| 0 <= at < (a + b).len() && (a + b)[at] == c;
        if at < a.len() {
            assert(a[at] == c);
            lemma_listed_location(fewer, c);
        } else {
            assert(b[at - a.len()] == c);
            lemma_dir_location(last.loc, last.found, at - a.len());
            assert(is_location(listings[listings.len() - 1].loc));
        }
    }
}

proof fn lemma_dir_location(loc: Seq<char>, found: Seq<FoundDirView>, k: int)
    requires
        0 <= k < dir_contributions(loc, found).len(),
    ensures
        dir_contributions(loc, found)[k].part.loc == loc,
    decreases found.len(),
{
    if found.len() > 0 && k < dir_contributions(loc, found.drop_last()).len() {
        lemma_dir_location(loc, found.drop_last(), k);
    }
}

proof fn lemma_rollout_location(files: Seq<FoundFileView>, k: int)
    requires
        0 <= k < rollout_contributions(files).len(),
    ensures
        rollout_contributions(files)[k].part.loc == "rollout"@,
    decreases files.len(),
{
    if files.len() > 0 && k < rollout_contributions(files.drop_last()).len() {
        lemma_rollout_location(files.drop_last(), k);
    }
}

/// The five places of a session: a directory with its id as name in each of four locations, and its
/// rollout file.
pub proof fn law_five_places(sid: Seq<char>)
    ensures
        targets_of(sid).len() == 5,
        targets_of(sid)[0] == (TargetView {
            sid,
            loc: "agents"@,
            dir: "cli/agents"@,
            name: sid,
            is_dir: true,
        }),
        targets_of(sid)[1] == (TargetView {
            sid,
            loc: "artifacts"@,
            dir: "cli/artifacts"@,
            name: sid,
            is_dir: true,
        }),
        targets_of(sid)[2] == (TargetView {
            sid,
            loc: "exec"@,
            dir: "cli/exec"@,
            name: sid,
            is_dir: true,
        }),
        targets_of(sid)[3] == (TargetView {
            sid,
            loc: "image-cache"@,
            dir: "cli/image-cache"@,
            name: sid,
            is_dir: true,
        }),
        targets_of(sid)[4] == (TargetView {
            sid,
            loc: "rollout"@,
            dir: "cli/rollout"@,
            name: "model-io-"@ + sid + ".jsonl"@,
            is_dir: false,
        }),
{
}

/// The places of several sessions are those of each, session by session; and each lies in its location
/// below the data directory, under its name.
pub proof fn law_places_come_session_by_session(
    sids: Seq<Seq<char>>,
    sid: Seq<char>,
    t: TargetView,
    root: FilePathView,
)
    ensures
        targets_of_all(sids.push(sid)) == targets_of_all(sids) + targets_of(sid),
        targets_of_all(Seq::empty()).len() == 0,
        t.path(root).base == root.base,
        t.path(root).parts == root.parts.push(t.dir).push(t.name),
{
    assert(sids.push(sid).drop_last() =~= sids);
}

/// A session was last active at the latest of the times of all its places and of what the database
/// says: none of them is later, and it is one of them, or 0 where there is none.
pub proof fn law_last_activity_is_the_latest(a: ActivityView, k: int)
    ensures
        0 <= k < a.mtimes.len() ==> last_active(a) >= a.mtimes[k],
        a.db_time matches Some(stamp) ==> last_active(a) >= activity_stamp_ms(stamp),
        last_active(a) == 0 || (exists|j: int|
            0 <= j < a.mtimes.len() && #[trigger] a.mtimes[j] == last_active(a)) || (
        a.db_time matches Some(stamp) && last_active(a) == activity_stamp_ms(stamp)),
{
    lemma_latest_of(a.mtimes, k);
}

proof fn lemma_latest_of(times: Seq<u128>, k: int)
    ensures
        0 <= k < times.len() ==> latest_of(times) >= times[k],
        latest_of(times) == 0 || exists|j: int|
            0 <= j < times.len() && #[trigger] times[j] == latest_of(times),
    decreases times.len(),
{
    if times.len() > 0 {
        let fewer = times.drop_last();
        lemma_latest_of(fewer, k);
        assert(0 <= k < fewer.len() ==> fewer[k] == times[k]);
        if latest_of(times) != 0 {
            if latest_of(times) == times.last() {
                assert(times[times.len() - 1] == latest_of(times));
            } else {
                let j = choose|j: int|
                    0 <= j < fewer.len() && #[trigger] fewer[j] == latest_of(fewer);
                assert(times[j] == latest_of(times));
            }
        }
    }
}

/// A session of which any one place was modified less than 24 hours ago, or that the database saw
/// active less than 24 hours ago, is left alone unless `force` is set: it is reported as skipped,
/// nothing of it is deleted or removed, and the turn goes on.
pub proof fn law_recently_modified_sessions_are_spared(run: DeleteRunView, a: ActivityView, k: int)
    requires
        run.wf(),
        run.expects(DeleteEventView::Active(a)),
        !run.force,
        (0 <= k < a.mtimes.len() && run.now - a.mtimes[k] < 24 * 3600 * 1000) || (
        a.db_time matches Some(stamp) && run.now - activity_stamp_ms(stamp) < 24 * 3600 * 1000),
    ensures
        ({
            let next = run.after(DeleteEventView::Active(a));
            &&& next.idx == run.idx + 1
            &&& next.action() is Tell || next.action() is Finish
            &&& next.report.skipped == run.report.skipped.push(
                run.id() + ": 近 24h 活跃，处于保护中"@,
            )
            &&& next.report.deleted == run.report.deleted
            &&& next.report.freed_disk == run.report.freed_disk
            &&& next.report.db_rows_deleted == run.report.db_rows_deleted
            &&& next.report.errors == run.report.errors
        }),
{
    law_last_activity_is_the_latest(a, k);
}

/// A session of which every place was last modified at least 24 hours ago, and that the database did
/// not see active since, is deleted; with `force` any session is.
pub proof fn law_inactive_sessions_are_deleted(run: DeleteRunView, a: ActivityView)
    requires
        run.wf(),
        run.expects(DeleteEventView::Active(a)),
        run.force || (run.now >= 24 * 3600 * 1000 && (forall|k: int|
            0 <= k < a.mtimes.len() ==> run.now - (#[trigger] a.mtimes[k]) >= 24 * 3600 * 1000) && (
        a.db_time matches Some(stamp) ==> run.now - activity_stamp_ms(stamp) >= 24 * 3600
            * 1000)),
    ensures
        run.after(DeleteEventView::Active(a)).action() == DeleteActionView::DeleteRows(
            run.ids[run.idx],
        ),
        run.after(DeleteEventView::Active(a)).report == run.report,
        run.after(DeleteEventView::Active(a)).idx == run.idx,
{
    law_last_activity_is_the_latest(a, 0);
    if !run.force && last_active(a) != 0 && exists|j: int|
        0 <= j < a.mtimes.len() && #[trigger] a.mtimes[j] == last_active(a) {
        let j = choose|j: int| 0 <= j < a.mtimes.len() && #[trigger] a.mtimes[j] == last_active(a);
        assert(run.now - a.mtimes[j] >= 24 * 3600 * 1000);
    }
}

/// A deletion begins with the first session, or is over where there is none; with nothing reported,
/// and with what was asked for. Where the database could not be opened it does not begin.
pub proof fn law_deletion_begins(ids: Seq<Seq<char>>, force: bool, now: u128, e: String)
    ensures
        ({
            let run = DeleteRunView::start(ids, force, now);
            &&& run.ids == ids && run.force == force && run.now == now && run.idx == 0
            &&& run.report.deleted == 0 && run.report.freed_disk == 0
                && run.report.db_rows_deleted == 0
            &&& run.report.skipped.len() == 0 && run.report.errors.len() == 0
            &&& ids.len() == 0 ==> run.action() is Finish
            &&& ids.len() > 0 ==> run.action() == DeleteActionView::Tell(
                delete_message(0, ids.len(), ids[0]),
            )
            &&& begun(Ok(()), ids, force, now) == Ok::<DeleteRunView, Seq<char>>(run)
        }),
        begun(Err(e@), ids, force, now) == Err::<DeleteRunView, Seq<char>>(e@),
        outcome(Err(e)) == Err::<(), Seq<char>>(e@),
        outcome(Ok(())) == Ok::<(), Seq<char>>(()),
{
}

/// What was asked for stays the same through a deletion, and turns are only taken one by one.
pub proof fn law_request_is_kept(run: DeleteRunView, event: DeleteEventView)
    requires
        run.wf(),
        run.expects(event),
    ensures
        run.after(event).ids == run.ids,
        run.after(event).force == run.force,
        run.after(event).now == run.now,
        run.after(event).idx == run.idx || run.after(event).idx == run.idx + 1,
        run.after(event).idx > run.idx ==> run.after(event).action() == if run.idx + 1
            < run.ids.len() {
            DeleteActionView::Tell(
                delete_message((run.idx + 1) as nat, run.ids.len(), run.ids[run.idx + 1]),
            )
        } else {
            DeleteActionView::Finish
        },
{
}

/// A session with a well-formed id is looked up after it was announced: in its five places and under
/// its id.
pub proof fn law_announced_sessions_are_looked_up(run: DeleteRunView)
    requires
        run.wf(),
        run.action() is Tell,
        is_sess_id(run.ids[run.idx]),
    ensures
        run.after(DeleteEventView::Told).action() == (DeleteActionView::Inspect {
            id: run.ids[run.idx],
            places: targets_of(run.ids[run.idx]),
        }),
        run.after(DeleteEventView::Told).report == run.report,
        run.after(DeleteEventView::Told).idx == run.idx,
{
}

/// The rows that the database deleted are counted, and a failure of the database is reported with the
/// session's id; nothing else of the report changes, but that a session without any places counts as
/// deleted at once.
pub proof fn law_database_results_are_reported(
    run: DeleteRunView,
    n: u64,
    sids: Seq<Seq<char>>,
    e: Seq<char>,
)
    requires
        run.wf(),
        run.action() is DeleteRows,
    ensures
        run.after(DeleteEventView::RowsDeleted(n, sids)).report == (DeleteReportView {
            db_rows_deleted: run.report.db_rows_deleted + n as nat,
            deleted: run.report.deleted + (if sids.len() == 0 {
                1nat
            } else {
                0nat
            }),
            ..run.report
        }),
        sids.len() > 0 ==> run.after(DeleteEventView::RowsDeleted(n, sids)).action()
            == DeleteActionView::Remove(targets_of(sids[0])[0]),
        run.after(DeleteEventView::RowsFailed(e)).report == (DeleteReportView {
            errors: run.report.errors.push(run.ids[run.idx] + "/db: "@ + e),
            ..run.report
        }),
        run.after(DeleteEventView::RowsFailed(e)).action() == DeleteActionView::Remove(
            targets_of(run.ids[run.idx])[0],
        ),
{
    if sids.len() > 0 {
        lemma_first_target(sids);
    }
    lemma_first_target(seq![run.id()]);
}

proof fn lemma_first_target(sids: Seq<Seq<char>>)
    requires
        sids.len() > 0,
    ensures
        targets_of_all(sids).len() > 0,
        targets_of_all(sids)[0] == targets_of(sids[0])[0],
    decreases sids.len(),
{
    let fewer = sids.drop_last();
    lemma_some_targets(fewer);
    if fewer.len() > 0 {
        lemma_first_target(fewer);
    } else {
        assert(targets_of_all(fewer) =~= Seq::<TargetView>::empty());
    }
}

/// A removal that failed is reported with the session and the location of the place; one that
/// succeeded, or found nothing, adds no error. Its bytes are those that the place had.
pub proof fn law_removals_are_reported(run: DeleteRunView, t: TargetView, n: u64, e: Seq<char>)
    requires
        run.wf(),
        run.action() == DeleteActionView::Remove(t),
    ensures
        run.after(DeleteEventView::Removal(RemovalView::Failed(n, e))).report.errors
            == run.report.errors.push(t.sid + "/"@ + t.loc + ": "@ + e),
        run.after(DeleteEventView::Removal(RemovalView::Removed(n))).report.errors
            == run.report.errors,
        run.after(DeleteEventView::Removal(RemovalView::Absent)).report.errors
            == run.report.errors,
        run.after(DeleteEventView::Removal(RemovalView::Failed(n, e))).report.skipped
            == run.report.skipped,
        run.after(DeleteEventView::Removal(RemovalView::Removed(n))).report.skipped
            == run.report.skipped,
        run.after(DeleteEventView::Removal(RemovalView::Absent)).report.skipped
            == run.report.skipped,
        RemovalView::Failed(n, e).size() == n,
        RemovalView::Removed(n).size() == n,
        RemovalView::Absent.size() == 0,
{
}

/// Every answer to what is to be done is taken, as long as rows and bytes fit in 64 bits; at the end
/// nothing is.
pub proof fn law_deletion_takes_every_answer(
    run: DeleteRunView,
    a: ActivityView,
    n: u64,
    sids: Seq<Seq<char>>,
    e: Seq<char>,
    r: RemovalView,
    event: DeleteEventView,
)
    requires
        run.wf(),
    ensures
        run.action() is Tell ==> run.expects(DeleteEventView::Told),
        run.action() is Inspect ==> run.expects(DeleteEventView::Active(a)) == (a.mtimes.len()
            == 5),
        run.action() is DeleteRows ==> run.expects(DeleteEventView::RowsFailed(e)) && run.expects(
            DeleteEventView::RowsDeleted(n, sids),
        ) == (run.report.db_rows_deleted + n <= 0xffff_ffff_ffff_ffff),
        run.action() is Remove && run.report.freed_disk + run.freed + r.size()
            <= 0xffff_ffff_ffff_ffff ==> run.expects(DeleteEventView::Removal(r)),
        run.action() is Remove && run.expects(DeleteEventView::Removal(r)) ==> run.freed + r.size()
            <= 0xffff_ffff_ffff_ffff,
        run.action() is Finish ==> !run.expects(event),
{
}

} // verus!
