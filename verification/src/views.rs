//! What is seen of each value is what it holds: contracts speak of the views of values, and no view
//! leaves anything out.
use crate::caches::LogEntry;
use crate::clean::{
    CacheKind, CacheKindView, CleanAction, CleanActionView, CleanEvent, CleanEventView, CleanRun,
    OldFile,
};
use crate::cli::{Command, CommandView};
use crate::db::{
    Vacuum, VacuumAction, VacuumActionView, VacuumEvent, VacuumEventView, VacuumStage,
    VacuumStageView,
};
use crate::delete::{
    Activity, DeleteAction, DeleteActionView, DeleteEvent, DeleteEventView, DeleteRun, Removal,
    RemovalView, Target,
};
use crate::model::{CacheInfo, CleanReport, DeleteReport, LogFile, SessionInfo, SessionPart};
use crate::paths::FilePath;
use crate::place::{
    PlaceAction, PlaceActionView, PlaceEvent, PlaceEventView, PlaceRemoval, PlaceStage,
    PlaceStageView,
};
use crate::progress::Progress;
use crate::rows::{
    RowAction, RowActionView, RowDeletion, RowEvent, RowEventView, RowStage, RowStageView,
};
use crate::scan::DbRow;
use crate::sessions::{DirListing, FoundDir, FoundFile, FsSession};
use vstd::prelude::*;

verus! {

/// All of it is seen of a `LogEntry`.
pub proof fn law_all_is_seen_of_log_entry(v: LogEntry)
    ensures
        v.deep_view().name == v.name@,
        v.deep_view().meta == v.meta,
{
}

/// All of it is seen of a `CacheKind`.
pub proof fn law_all_is_seen_of_cache_kind(v: CacheKind)
    ensures
        v.deep_view() == match &v {
            CacheKind::Logs(rel) => CacheKindView::Logs(rel@),
            CacheKind::Tree(rel) => CacheKindView::Tree(rel@),
            CacheKind::Unknown => CacheKindView::Unknown,
        },
{
}

/// All of it is seen of an `OldFile`.
pub proof fn law_all_is_seen_of_old_file(v: OldFile)
    ensures
        v.deep_view().at == v.at as int,
        v.deep_view().name == v.name@,
        v.deep_view().size == v.size,
{
}

/// All of it is seen of a `CleanRun`.
pub proof fn law_all_is_seen_of_clean_run(v: CleanRun)
    ensures
        v.deep_view().keys == v.keys.deep_view(),
        v.deep_view().cutoff == v.cutoff,
        v.deep_view().idx == v.idx as int,
        v.deep_view().stage == v.stage,
        v.deep_view().rel == v.rel@,
        v.deep_view().files == v.files.deep_view(),
        v.deep_view().pos == v.pos as int,
        v.deep_view().report == v.report.deep_view(),
{
}

/// All of it is seen of a `CleanAction`.
pub proof fn law_all_is_seen_of_clean_action(v: CleanAction)
    ensures
        v.deep_view() == match &v {
            CleanAction::Tell(p) => CleanActionView::Tell(p.deep_view()),
            CleanAction::List(rel) => CleanActionView::List(rel@),
            CleanAction::RemoveFile { rel, at, name } => CleanActionView::RemoveFile {
                rel: rel@,
                at: *at as int,
                name: name@,
            },
            CleanAction::Probe(rel) => CleanActionView::Probe(rel@),
            CleanAction::RemoveTree(rel) => CleanActionView::RemoveTree(rel@),
            CleanAction::Recreate(rel) => CleanActionView::Recreate(rel@),
            CleanAction::Finish => CleanActionView::Finish,
        },
{
}

/// All of it is seen of a `CleanEvent`.
pub proof fn law_all_is_seen_of_clean_event(v: CleanEvent)
    ensures
        v.deep_view() == match &v {
            CleanEvent::Told => CleanEventView::Told,
            CleanEvent::Listed(entries) => CleanEventView::Listed(entries.deep_view()),
            CleanEvent::Probed(size) => CleanEventView::Probed(*size),
            CleanEvent::Removed => CleanEventView::Removed,
            CleanEvent::Failed(e) => CleanEventView::Failed(e@),
            CleanEvent::Recreated => CleanEventView::Recreated,
        },
{
}

/// All of it is seen of a `Command`.
pub proof fn law_all_is_seen_of_command(v: Command)
    ensures
        v.deep_view() == match &v {
            Command::Scan => CommandView::Scan,
            Command::DeleteSessions { ids, force } => CommandView::DeleteSessions {
                ids: ids.deep_view(),
                force: *force,
            },
            Command::Vacuum => CommandView::Vacuum,
        },
{
}

/// All of it is seen of a `VacuumStage`.
pub proof fn law_all_is_seen_of_vacuum_stage(v: VacuumStage)
    ensures
        v.deep_view() == match &v {
            VacuumStage::Before => VacuumStageView::Before,
            VacuumStage::TellMerge => VacuumStageView::TellMerge,
            VacuumStage::Open => VacuumStageView::Open,
            VacuumStage::Merge => VacuumStageView::Merge,
            VacuumStage::TellCompact => VacuumStageView::TellCompact,
            VacuumStage::Compact => VacuumStageView::Compact,
            VacuumStage::After => VacuumStageView::After,
            VacuumStage::Done => VacuumStageView::Done,
            VacuumStage::Failed(e) => VacuumStageView::Failed(e@),
        },
{
}

/// All of it is seen of a `Vacuum`.
pub proof fn law_all_is_seen_of_vacuum(v: Vacuum)
    ensures
        v.deep_view().sizes == v.sizes,
        v.deep_view().stage == v.stage.deep_view(),
{
}

/// All of it is seen of a `VacuumAction`.
pub proof fn law_all_is_seen_of_vacuum_action(v: VacuumAction)
    ensures
        v.deep_view() == match &v {
            VacuumAction::Measure => VacuumActionView::Measure,
            VacuumAction::Tell(p) => VacuumActionView::Tell(p.deep_view()),
            VacuumAction::Open => VacuumActionView::Open,
            VacuumAction::Execute(sql) => VacuumActionView::Execute(sql@),
            VacuumAction::Finish(Ok(report)) => VacuumActionView::Finish(Ok(*report)),
            VacuumAction::Finish(Err(e)) => VacuumActionView::Finish(Err(e@)),
        },
{
}

/// All of it is seen of a `VacuumEvent`.
pub proof fn law_all_is_seen_of_vacuum_event(v: VacuumEvent)
    ensures
        v.deep_view() == match &v {
            VacuumEvent::Size(n) => VacuumEventView::Size(*n),
            VacuumEvent::Done => VacuumEventView::Done,
            VacuumEvent::Failed(e) => VacuumEventView::Failed(e@),
        },
{
}

/// All of it is seen of a `Target`.
pub proof fn law_all_is_seen_of_target(v: Target)
    ensures
        v.deep_view().sid == v.sid@,
        v.deep_view().loc == v.loc@,
        v.deep_view().dir == v.dir@,
        v.deep_view().name == v.name@,
        v.deep_view().is_dir == v.is_dir,
{
}

/// All of it is seen of an `Activity`.
pub proof fn law_all_is_seen_of_activity(v: Activity)
    ensures
        v.deep_view().mtimes == v.mtimes@,
        v.deep_view().db_time == v.db_time,
{
}

/// All of it is seen of a `Removal`.
pub proof fn law_all_is_seen_of_removal(v: Removal)
    ensures
        v.deep_view() == match &v {
            Removal::Absent => RemovalView::Absent,
            Removal::Removed(n) => RemovalView::Removed(*n),
            Removal::Failed(n, e) => RemovalView::Failed(*n, e@),
        },
{
}

/// All of it is seen of a `DeleteRun`.
pub proof fn law_all_is_seen_of_delete_run(v: DeleteRun)
    ensures
        v.deep_view().ids == v.ids.deep_view(),
        v.deep_view().force == v.force,
        v.deep_view().now == v.now,
        v.deep_view().idx == v.idx as int,
        v.deep_view().stage == v.stage,
        v.deep_view().targets == v.targets.deep_view(),
        v.deep_view().pos == v.pos as int,
        v.deep_view().freed == v.freed as nat,
        v.deep_view().report == v.report.deep_view(),
{
}

/// All of it is seen of a `DeleteAction`.
pub proof fn law_all_is_seen_of_delete_action(v: DeleteAction)
    ensures
        v.deep_view() == match &v {
            DeleteAction::Tell(p) => DeleteActionView::Tell(p.deep_view()),
            DeleteAction::Inspect { id, places } => DeleteActionView::Inspect {
                id: id@,
                places: places.deep_view(),
            },
            DeleteAction::DeleteRows(id) => DeleteActionView::DeleteRows(id@),
            DeleteAction::Remove(t) => DeleteActionView::Remove(t.deep_view()),
            DeleteAction::Finish => DeleteActionView::Finish,
        },
{
}

/// All of it is seen of a `DeleteEvent`.
pub proof fn law_all_is_seen_of_delete_event(v: DeleteEvent)
    ensures
        v.deep_view() == match &v {
            DeleteEvent::Told => DeleteEventView::Told,
            DeleteEvent::Active(a) => DeleteEventView::Active(a.deep_view()),
            DeleteEvent::RowsDeleted(n, ids) => DeleteEventView::RowsDeleted(*n, ids.deep_view()),
            DeleteEvent::RowsFailed(e) => DeleteEventView::RowsFailed(e@),
            DeleteEvent::Removal(r) => DeleteEventView::Removal(r.deep_view()),
        },
{
}

/// All of it is seen of a `SessionPart`.
pub proof fn law_all_is_seen_of_session_part(v: SessionPart)
    ensures
        v.deep_view().loc == v.loc@,
        v.deep_view().label == v.label@,
        v.deep_view().size == v.size,
{
}

/// All of it is seen of a `SessionInfo`.
pub proof fn law_all_is_seen_of_session_info(v: SessionInfo)
    ensures
        v.deep_view().id == v.id@,
        v.deep_view().title == v.title.deep_view(),
        v.deep_view().directory == v.directory.deep_view(),
        v.deep_view().time_updated == v.time_updated,
        v.deep_view().disk_size == v.disk_size,
        v.deep_view().parts == v.parts.deep_view(),
        v.deep_view().db_only == v.db_only,
        v.deep_view().orphan == v.orphan,
        v.deep_view().protected == v.protected,
        v.deep_view().age_ms == v.age_ms,
{
}

/// All of it is seen of a `LogFile`.
pub proof fn law_all_is_seen_of_log_file(v: LogFile)
    ensures
        v.deep_view().name == v.name@,
        v.deep_view().size == v.size,
        v.deep_view().mtime == v.mtime,
        v.deep_view().age_ms == v.age_ms,
{
}

/// All of it is seen of a `CacheInfo`.
pub proof fn law_all_is_seen_of_cache_info(v: CacheInfo)
    ensures
        v.deep_view().key == v.key@,
        v.deep_view().name == v.name@,
        v.deep_view().path == v.path@,
        v.deep_view().kind == v.kind@,
        v.deep_view().note == v.note@,
        v.deep_view().total_size == v.total_size,
        v.deep_view().file_count == v.file_count,
        v.deep_view().files == v.files.deep_view(),
{
}

/// All of it is seen of a `DeleteReport`.
pub proof fn law_all_is_seen_of_delete_report(v: DeleteReport)
    ensures
        v.deep_view().deleted == v.deleted as nat,
        v.deep_view().skipped == v.skipped.deep_view(),
        v.deep_view().freed_disk == v.freed_disk as nat,
        v.deep_view().db_rows_deleted == v.db_rows_deleted as nat,
        v.deep_view().errors == v.errors.deep_view(),
{
}

/// All of it is seen of a `CleanReport`.
pub proof fn law_all_is_seen_of_clean_report(v: CleanReport)
    ensures
        v.deep_view().deleted_files == v.deleted_files as nat,
        v.deep_view().freed_disk == v.freed_disk as nat,
        v.deep_view().errors == v.errors.deep_view(),
{
}

/// All of it is seen of a `FilePath`.
pub proof fn law_all_is_seen_of_file_path(v: FilePath)
    ensures
        v.deep_view().base == v.base@,
        v.deep_view().parts == v.parts.deep_view(),
{
}

/// All of it is seen of a `PlaceStage`.
pub proof fn law_all_is_seen_of_place_stage(v: PlaceStage)
    ensures
        v.deep_view() == match &v {
            PlaceStage::Probe => PlaceStageView::Probe,
            PlaceStage::Remove(size) => PlaceStageView::Remove(*size),
            PlaceStage::Done(r) => PlaceStageView::Done(r.deep_view()),
        },
{
}

/// All of it is seen of a `PlaceRemoval`.
pub proof fn law_all_is_seen_of_place_removal(v: PlaceRemoval)
    ensures
        v.deep_view().is_dir == v.is_dir,
        v.deep_view().stage == v.stage.deep_view(),
{
}

/// All of it is seen of a `PlaceAction`.
pub proof fn law_all_is_seen_of_place_action(v: PlaceAction)
    ensures
        v.deep_view() == match &v {
            PlaceAction::Probe { is_dir } => PlaceActionView::Probe { is_dir: *is_dir },
            PlaceAction::Remove { is_dir } => PlaceActionView::Remove { is_dir: *is_dir },
            PlaceAction::Finish(r) => PlaceActionView::Finish(r.deep_view()),
        },
{
}

/// All of it is seen of a `PlaceEvent`.
pub proof fn law_all_is_seen_of_place_event(v: PlaceEvent)
    ensures
        v.deep_view() == match &v {
            PlaceEvent::Probed(found) => PlaceEventView::Probed(*found),
            PlaceEvent::Removed => PlaceEventView::Removed,
            PlaceEvent::Failed(e) => PlaceEventView::Failed(e@),
        },
{
}

/// All of it is seen of a `Progress`.
pub proof fn law_all_is_seen_of_progress(v: Progress)
    ensures
        v.deep_view().stage == v.stage@,
        v.deep_view().current == v.current as nat,
        v.deep_view().total == v.total as nat,
        v.deep_view().message == v.message@,
{
}

/// All of it is seen of a `RowStage`.
pub proof fn law_all_is_seen_of_row_stage(v: RowStage)
    ensures
        v.deep_view() == match &v {
            RowStage::Begin => RowStageView::Begin,
            RowStage::Collect => RowStageView::Collect,
            RowStage::Purge(k) => RowStageView::Purge(*k as int),
            RowStage::Sessions => RowStageView::Sessions,
            RowStage::Commit => RowStageView::Commit,
            RowStage::Done => RowStageView::Done,
            RowStage::Failed(e) => RowStageView::Failed(e@),
        },
{
}

/// All of it is seen of a `RowDeletion`.
pub proof fn law_all_is_seen_of_row_deletion(v: RowDeletion)
    ensures
        v.deep_view().ids == v.ids.deep_view(),
        v.deep_view().rows == v.rows as nat,
        v.deep_view().stage == v.stage.deep_view(),
{
}

/// All of it is seen of a `RowAction`.
pub proof fn law_all_is_seen_of_row_action(v: RowAction)
    ensures
        v.deep_view() == match &v {
            RowAction::Begin => RowActionView::Begin,
            RowAction::Query { sql, params } => RowActionView::Query {
                sql: sql@,
                params: params.deep_view(),
            },
            RowAction::Execute { sql, params } => RowActionView::Execute {
                sql: sql@,
                params: params.deep_view(),
            },
            RowAction::Commit => RowActionView::Commit,
            RowAction::Succeed { rows, ids } => RowActionView::Succeed {
                rows: *rows as nat,
                ids: ids.deep_view(),
            },
            RowAction::Fail(e) => RowActionView::Fail(e@),
        },
{
}

/// All of it is seen of a `RowEvent`.
pub proof fn law_all_is_seen_of_row_event(v: RowEvent)
    ensures
        v.deep_view() == match &v {
            RowEvent::Done => RowEventView::Done,
            RowEvent::Found(ids) => RowEventView::Found(ids.deep_view()),
            RowEvent::Affected(n) => RowEventView::Affected(*n),
            RowEvent::Failed(e) => RowEventView::Failed(e@),
        },
{
}

/// All of it is seen of a `DbRow`.
pub proof fn law_all_is_seen_of_db_row(v: DbRow)
    ensures
        v.deep_view().id == v.id@,
        v.deep_view().title == v.title.deep_view(),
        v.deep_view().directory == v.directory.deep_view(),
        v.deep_view().time_created == v.time_created,
        v.deep_view().time_updated == v.time_updated,
{
}

/// All of it is seen of a `FoundDir`.
pub proof fn law_all_is_seen_of_found_dir(v: FoundDir)
    ensures
        v.deep_view().name == v.name@,
        v.deep_view().is_dir == v.is_dir,
        v.deep_view().size == v.size,
        v.deep_view().mtime == v.mtime,
{
}

/// All of it is seen of a `DirListing`.
pub proof fn law_all_is_seen_of_dir_listing(v: DirListing)
    ensures
        v.deep_view().loc == v.loc@,
        v.deep_view().found == v.found.deep_view(),
{
}

/// All of it is seen of a `FoundFile`.
pub proof fn law_all_is_seen_of_found_file(v: FoundFile)
    ensures
        v.deep_view().name == v.name@,
        v.deep_view().size == v.size,
        v.deep_view().mtime == v.mtime,
{
}

/// All of it is seen of an `FsSession`.
pub proof fn law_all_is_seen_of_fs_session(v: FsSession)
    ensures
        v.deep_view().id == v.id@,
        v.deep_view().parts == v.parts.deep_view(),
        v.deep_view().size == v.size as nat,
        v.deep_view().mtime == v.mtime,
{
}

} // verus!
