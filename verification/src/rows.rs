//! Deleting a session, and the sessions below it, from the database.
//!
//! The database is worked on from outside: `action` says what to do next, and `advance` is told what
//! came of it.
use crate::text::{copy_list, joined_text, lists};
use vstd::prelude::*;
use vstd::string::*;

verus! {

/// `n` placeholders of an SQL statement, with commas between them.
pub open spec fn placeholders_text(n: nat) -> Seq<char> {
    joined_text(Seq::new(n, |i: int| "?"@), ","@)
}

/// `n` placeholders of an SQL statement, with commas between them.
pub fn placeholders(n: usize) -> (r: String)
    ensures
        r@ == placeholders_text(n as nat),
{
    let mut r = String::new();
    let mut i: usize = 0;
    while i < n
        invariant
            i <= n,
            r@ == placeholders_text(i as nat),
        decreases n - i,
    {
        let ghost longer = Seq::new((i + 1) as nat, |i: int| "?"@);
        assert(longer.drop_last() =~= Seq::new(i as nat, |i: int| "?"@));
        if i > 0 {
            r.append(",");
        }
        let ghost before = r@;
        r.append("?");
        assert(i == 0 ==> before =~= Seq::<char>::empty() && r@ =~= "?"@);
        i += 1;
    }
    r
}

/// The tables and columns that refer to sessions.
pub open spec fn session_columns_list() -> Seq<(Seq<char>, Seq<char>)> {
    seq![
        ("message"@, "session_id"@),
        ("todo"@, "session_id"@),
        ("session_entry"@, "session_id"@),
        ("session_target"@, "session_id"@),
        ("workflow_run"@, "parent_session_id"@),
        ("workflow_activity"@, "child_session_id"@),
        ("session_task_link"@, "child_session_id"@),
        ("session_task_link"@, "parent_session_id"@),
        ("model_usage"@, "session_id"@),
        ("turn_usage"@, "session_id"@),
        ("tool_usage"@, "session_id"@),
        ("session_input"@, "session_id"@),
        ("part"@, "session_id"@),
    ]
}

/// How many columns refer to sessions.
pub const COLUMN_COUNT: usize = 13;

/// The tables and columns that refer to sessions.
pub fn session_columns() -> (r: Vec<(&'static str, &'static str)>)
    ensures
        r.deep_view() == session_columns_list(),
        r.len() == COLUMN_COUNT,
{
    let r: Vec<(&'static str, &'static str)> = vec![
        ("message", "session_id"),
        ("todo", "session_id"),
        ("session_entry", "session_id"),
        ("session_target", "session_id"),
        ("workflow_run", "parent_session_id"),
        ("workflow_activity", "child_session_id"),
        ("session_task_link", "child_session_id"),
        ("session_task_link", "parent_session_id"),
        ("model_usage", "session_id"),
        ("turn_usage", "session_id"),
        ("tool_usage", "session_id"),
        ("session_input", "session_id"),
        ("part", "session_id"),
    ];
    assert(r.deep_view() =~= session_columns_list());
    r
}

/// The query for the children of `n` sessions that are not among them.
pub open spec fn children_sql(n: nat) -> Seq<char> {
    "SELECT DISTINCT id FROM session WHERE parent_id IN ("@ + placeholders_text(n)
        + ") AND id NOT IN ("@ + placeholders_text(n) + ")"@
}

fn children_query(n: usize) -> (r: String)
    ensures
        r@ == children_sql(n as nat),
{
    let ph = placeholders(n);
    let mut r = "SELECT DISTINCT id FROM session WHERE parent_id IN (".to_owned();
    r.append(ph.as_str());
    r.append(") AND id NOT IN (");
    r.append(ph.as_str());
    r.append(")");
    r
}

/// The statement that deletes the rows of a table which refer to one of `n` sessions.
pub open spec fn purge_sql(table: Seq<char>, column: Seq<char>, n: nat) -> Seq<char> {
    "DELETE FROM "@ + table + " WHERE "@ + column + " IN ("@ + placeholders_text(n) + ")"@
}

fn purge_statement(table: &str, column: &str, n: usize) -> (r: String)
    ensures
        r@ == purge_sql(table@, column@, n as nat),
{
    let mut r = "DELETE FROM ".to_owned();
    r.append(table);
    r.append(" WHERE ");
    r.append(column);
    r.append(" IN (");
    r.append(placeholders(n).as_str());
    r.append(")");
    r
}

/// All statements that delete `n` sessions, in order: what refers to them, then the sessions.
pub open spec fn deletion_statements(n: nat) -> Seq<Seq<char>> {
    session_columns_list().map_values(|c: (Seq<char>, Seq<char>)| purge_sql(c.0, c.1, n)).push(
        purge_sql("session"@, "id"@, n),
    )
}

/// How far a deletion has come.
#[derive(Debug)]
pub enum RowStage {
    /// Nothing was done yet.
    Begin,
    /// The sessions below the first one are being collected.
    Collect,
    /// The column with this number is the next whose rows are deleted.
    Purge(usize),
    /// The sessions themselves are deleted next.
    Sessions,
    /// All is deleted, and has to be committed.
    Commit,
    /// All is committed.
    Done,
    /// Something went wrong, and nothing is deleted.
    Failed(String),
}

/// What a `RowStage` holds.
pub enum RowStageView {
    Begin,
    Collect,
    Purge(int),
    Sessions,
    Commit,
    Done,
    Failed(Seq<char>),
}

impl DeepView for RowStage {
    type V = RowStageView;

    open spec fn deep_view(&self) -> RowStageView {
        match self {
            RowStage::Begin => RowStageView::Begin,
            RowStage::Collect => RowStageView::Collect,
            RowStage::Purge(k) => RowStageView::Purge(*k as int),
            RowStage::Sessions => RowStageView::Sessions,
            RowStage::Commit => RowStageView::Commit,
            RowStage::Done => RowStageView::Done,
            RowStage::Failed(e) => RowStageView::Failed(e@),
        }
    }
}

/// The deletion of a session, and of the sessions below it, from the database.
#[derive(Debug)]
pub struct RowDeletion {
    /// The sessions to delete, as far as they are collected; the first one is the one asked for.
    pub ids: Vec<String>,
    /// How many rows were deleted.
    pub rows: u64,
    pub stage: RowStage,
}

/// What a `RowDeletion` holds.
#[verifier::ext_equal]
pub struct RowDeletionView {
    pub ids: Seq<Seq<char>>,
    pub rows: nat,
    pub stage: RowStageView,
}

impl DeepView for RowDeletion {
    type V = RowDeletionView;

    open spec fn deep_view(&self) -> RowDeletionView {
        RowDeletionView {
            ids: self.ids.deep_view(),
            rows: self.rows as nat,
            stage: self.stage.deep_view(),
        }
    }
}

/// What is to be done on the database.
#[derive(Debug)]
pub enum RowAction {
    /// Begin a transaction.
    Begin,
    /// Run a query, with these parameters, and report the ids that it finds.
    Query { sql: String, params: Vec<String> },
    /// Run a statement, with these parameters, and report how many rows it affected.
    Execute { sql: String, params: Vec<String> },
    /// Commit the transaction.
    Commit,
    /// Nothing more: all is deleted, this many rows of these sessions.
    Succeed { rows: u64, ids: Vec<String> },
    /// Nothing more: roll the transaction back, if one was begun, and report this error.
    Fail(String),
}

/// What a `RowAction` holds.
pub enum RowActionView {
    Begin,
    Query { sql: Seq<char>, params: Seq<Seq<char>> },
    Execute { sql: Seq<char>, params: Seq<Seq<char>> },
    Commit,
    Succeed { rows: nat, ids: Seq<Seq<char>> },
    Fail(Seq<char>),
}

impl DeepView for RowAction {
    type V = RowActionView;

    open spec fn deep_view(&self) -> RowActionView {
        match self {
            RowAction::Begin => RowActionView::Begin,
            RowAction::Query { sql, params } => RowActionView::Query {
                sql: sql@,
                params: params.deep_view(),
            },
            RowAction::Execute { sql, params } => RowActionView::Execute {
                sql: sql@,
                params: params.deep_view(),
            },
            RowAction::Commit => RowActionView::Commit,
            RowAction::Succeed { rows, ids } => RowActionView::Succeed {
                rows: *rows as nat,
                ids: ids.deep_view(),
            },
            RowAction::Fail(e) => RowActionView::Fail(e@),
        }
    }
}

/// What came of an action.
#[derive(Debug)]
pub enum RowEvent {
    /// The transaction was begun, or committed.
    Done,
    /// The query found these ids.
    Found(Vec<String>),
    /// The statement affected this many rows.
    Affected(u64),
    /// The action failed, and why.
    Failed(String),
}

/// What a `RowEvent` holds.
pub enum RowEventView {
    Done,
    Found(Seq<Seq<char>>),
    Affected(u64),
    Failed(Seq<char>),
}

impl DeepView for RowEvent {
    type V = RowEventView;

    open spec fn deep_view(&self) -> RowEventView {
        match self {
            RowEvent::Done => RowEventView::Done,
            RowEvent::Found(ids) => RowEventView::Found(ids.deep_view()),
            RowEvent::Affected(n) => RowEventView::Affected(*n),
            RowEvent::Failed(e) => RowEventView::Failed(e@),
        }
    }
}

/// The ids with those of `more` behind them that are not there yet.
pub open spec fn with_new(ids: Seq<Seq<char>>, more: Seq<Seq<char>>) -> Seq<Seq<char>>
    decreases more.len(),
{
    if more.len() == 0 {
        ids
    } else {
        let before = with_new(ids, more.drop_last());
        if before.contains(more.last()) {
            before
        } else {
            before.push(more.last())
        }
    }
}

impl RowDeletionView {
    /// A deletion that has not begun.
    pub open spec fn start(id: Seq<char>) -> RowDeletionView {
        RowDeletionView { ids: seq![id], rows: 0, stage: RowStageView::Begin }
    }

    /// Whether this is a deletion at some stage: it has at least one session, none twice, and a
    /// column where one is next.
    pub open spec fn wf(self) -> bool {
        &&& self.ids.len() > 0
        &&& self.ids.no_duplicates()
        &&& self.stage matches RowStageView::Purge(k) ==> 0 <= k < COLUMN_COUNT
    }

    /// What is to be done next.
    pub open spec fn action(self) -> RowActionView {
        let n = self.ids.len();
        match self.stage {
            RowStageView::Begin => RowActionView::Begin,
            RowStageView::Collect => RowActionView::Query {
                sql: children_sql(n),
                params: self.ids + self.ids,
            },
            RowStageView::Purge(k) => RowActionView::Execute {
                sql: purge_sql(session_columns_list()[k].0, session_columns_list()[k].1, n),
                params: self.ids,
            },
            RowStageView::Sessions => RowActionView::Execute {
                sql: purge_sql("session"@, "id"@, n),
                params: self.ids,
            },
            RowStageView::Commit => RowActionView::Commit,
            RowStageView::Done => RowActionView::Succeed { rows: self.rows, ids: self.ids },
            RowStageView::Failed(e) => RowActionView::Fail(e),
        }
    }

    /// Whether an event answers what is to be done, and the rows can be counted in 64 bits.
    pub open spec fn expects(self, event: RowEventView) -> bool {
        match (self.stage, event) {
            (RowStageView::Begin, RowEventView::Done) => true,
            (RowStageView::Collect, RowEventView::Found(_)) => true,
            (RowStageView::Purge(_), RowEventView::Affected(n)) => self.rows + n <= u64::MAX,
            (RowStageView::Sessions, RowEventView::Affected(n)) => self.rows + n <= u64::MAX,
            (RowStageView::Commit, RowEventView::Done) => true,
            (RowStageView::Done, _) => false,
            (RowStageView::Failed(_), _) => false,
            (_, RowEventView::Failed(_)) => true,
            _ => false,
        }
    }

    /// What a failure is reported as: for a table that refers to sessions, with the table's name.
    pub open spec fn failure(self, e: Seq<char>) -> Seq<char> {
        match self.stage {
            RowStageView::Purge(k) => session_columns_list()[k].0 + ": "@ + e,
            RowStageView::Commit => "提交事务失败: "@ + e,
            _ => e,
        }
    }

    /// The deletion after an event that it expects.
    pub open spec fn after(self, event: RowEventView) -> RowDeletionView {
        match event {
            RowEventView::Done => RowDeletionView {
                stage: if self.stage is Begin {
                    RowStageView::Collect
                } else {
                    RowStageView::Done
                },
                ..self
            },
            RowEventView::Found(kids) => if kids.len() == 0 {
                RowDeletionView { stage: RowStageView::Purge(0), ..self }
            } else {
                RowDeletionView { ids: with_new(self.ids, kids), ..self }
            },
            RowEventView::Affected(n) => RowDeletionView {
                rows: self.rows + n as nat,
                stage: match self.stage {
                    RowStageView::Purge(k) => if k + 1 < COLUMN_COUNT {
                        RowStageView::Purge(k + 1)
                    } else {
                        RowStageView::Sessions
                    },
                    _ => RowStageView::Commit,
                },
                ..self
            },
            RowEventView::Failed(e) => RowDeletionView {
                stage: RowStageView::Failed(self.failure(e)),
                ..self
            },
        }
    }
}

proof fn lemma_with_new(ids: Seq<Seq<char>>, more: Seq<Seq<char>>)
    ensures
        ids.is_prefix_of(with_new(ids, more)),
        ids.no_duplicates() ==> with_new(ids, more).no_duplicates(),
        forall|x: Seq<char>| #[trigger]
            with_new(ids, more).contains(x) == (ids.contains(x) || more.contains(x)),
    decreases more.len(),
{
    if more.len() > 0 {
        let fewer = more.drop_last();
        let before = with_new(ids, fewer);
        let now = with_new(ids, more);
        lemma_with_new(ids, fewer);
        assert forall|x: Seq<char>| #[trigger]
            now.contains(x) == (ids.contains(x) || more.contains(x)) by {
            assert(more.contains(x) == (fewer.contains(x) || x == more.last())) by {
                assert(more =~= fewer.push(more.last()));
                if fewer.contains(x) {
                    let k = choose|k: int| 0 <= k < fewer.len() && fewer[k] == x;
                    assert(more[k] == x);
                }
                if x == more.last() {
                    assert(more[more.len() - 1] == x);
                }
                if more.contains(x) && x != more.last() {
                    let k = choose|k: int| 0 <= k < more.len() && more[k] == x;
                    assert(fewer[k] == x);
                }
            }
            assert(before.contains(x) == (ids.contains(x) || fewer.contains(x)));
            if now.len() > before.len() {
                if before.contains(x) {
                    let k = choose|k: int| 0 <= k < before.len() && before[k] == x;
                    assert(now[k] == x);
                }
                if x == more.last() {
                    assert(now[before.len() as int] == x);
                }
                if now.contains(x) {
                    let k = choose|k: int| 0 <= k < now.len() && now[k] == x;
                    if k < before.len() {
                        assert(before[k] == x);
                    }
                }
            }
        }
    }
}

/// Begins the deletion of a session from the database.
pub fn delete_db_rows(id: &str) -> (r: RowDeletion)
    ensures
        r.deep_view() == RowDeletionView::start(id@),
        r.deep_view().wf(),
{
    let mut ids: Vec<String> = Vec::new();
    ids.push(id.to_owned());
    let r = RowDeletion { ids, rows: 0, stage: RowStage::Begin };
    assert(r.deep_view().ids =~= seq![id@]);
    r
}

impl RowDeletion {
    /// What is to be done next.
    pub fn action(&self) -> (r: RowAction)
        requires
            self.deep_view().wf(),
        ensures
            r.deep_view() == self.deep_view().action(),
    {
        let n: usize = self.ids.len();
        match &self.stage {
            RowStage::Begin => RowAction::Begin,
            RowStage::Collect => {
                let mut params = copy_list(&self.ids);
                let mut again = copy_list(&self.ids);
                let ghost first = params.deep_view();
                params.append(&mut again);
                assert(params.deep_view() =~= first + self.ids.deep_view());
                RowAction::Query { sql: children_query(n), params }
            },
            RowStage::Purge(k) => {
                let columns = session_columns();
                let (table, column) = columns[*k];
                assert(session_columns_list()[*k as int] == columns.deep_view()[*k as int]);
                RowAction::Execute {
                    sql: purge_statement(table, column, n),
                    params: copy_list(&self.ids),
                }
            },
            RowStage::Sessions => RowAction::Execute {
                sql: purge_statement("session", "id", n),
                params: copy_list(&self.ids),
            },
            RowStage::Commit => RowAction::Commit,
            RowStage::Done => RowAction::Succeed { rows: self.rows, ids: copy_list(&self.ids) },
            RowStage::Failed(e) => RowAction::Fail(e.clone()),
        }
    }

    /// Whether an event answers what is to be done, and the rows can be counted in 64 bits.
    pub fn can_take(&self, event: &RowEvent) -> (r: bool)
        ensures
            r == self.deep_view().expects(event.deep_view()),
    {
        match (&self.stage, event) {
            (RowStage::Begin, RowEvent::Done) => true,
            (RowStage::Collect, RowEvent::Found(_)) => true,
            (RowStage::Purge(_), RowEvent::Affected(n)) => self.rows <= u64::MAX - *n,
            (RowStage::Sessions, RowEvent::Affected(n)) => self.rows <= u64::MAX - *n,
            (RowStage::Commit, RowEvent::Done) => true,
            (RowStage::Done, _) => false,
            (RowStage::Failed(_), _) => false,
            (_, RowEvent::Failed(_)) => true,
            _ => false,
        }
    }

    /// Goes on after an action.
    pub fn advance(&mut self, event: RowEvent)
        requires
            old(self).deep_view().wf(),
            old(self).deep_view().expects(event.deep_view()),
        ensures
            final(self).deep_view() == old(self).deep_view().after(event.deep_view()),
            final(self).deep_view().wf(),
    {
        match event {
            RowEvent::Done => {
                self.stage = match &self.stage {
                    RowStage::Begin => RowStage::Collect,
                    _ => RowStage::Done,
                };
            },
            RowEvent::Found(kids) => {
                if kids.len() == 0 {
                    self.stage = RowStage::Purge(0);
                } else {
                    self.add_new(&kids);
                }
            },
            RowEvent::Affected(n) => {
                self.rows = self.rows + n;
                self.stage = match &self.stage {
                    RowStage::Purge(k) => if *k + 1 < COLUMN_COUNT {
                        RowStage::Purge(*k + 1)
                    } else {
                        RowStage::Sessions
                    },
                    _ => RowStage::Commit,
                };
            },
            RowEvent::Failed(e) => {
                let message = self.failure_message(e);
                self.stage = RowStage::Failed(message);
            },
        }
    }

    fn failure_message(&self, e: String) -> (r: String)
        requires
            self.deep_view().wf(),
        ensures
            r@ == self.deep_view().failure(e@),
    {
        match &self.stage {
            RowStage::Purge(k) => {
                let columns = session_columns();
                let (table, _column) = columns[*k];
                assert(session_columns_list()[*k as int] == columns.deep_view()[*k as int]);
                let mut r = table.to_owned();
                r.append(": ");
                r.append(e.as_str());
                r
            },
            RowStage::Commit => {
                let mut r = "提交事务失败: ".to_owned();
                r.append(e.as_str());
                r
            },
            _ => e,
        }
    }

    fn add_new(&mut self, kids: &Vec<String>)
        requires
            old(self).deep_view().wf(),
        ensures
            final(self).deep_view() == (RowDeletionView {
                ids: with_new(old(self).deep_view().ids, kids.deep_view()),
                ..old(self).deep_view()
            }),
            final(self).deep_view().wf(),
    {
        let ghost ids = self.ids.deep_view();
        let ghost all = kids.deep_view();
        let mut i: usize = 0;
        assert(all.take(0) =~= Seq::<Seq<char>>::empty());
        while i < kids.len()
            invariant
                all == kids.deep_view(),
                i <= kids.len(),
                self.ids.deep_view() == with_new(ids, all.take(i as int)),
                self.rows == old(self).rows,
                self.stage == old(self).stage,
            decreases kids.len() - i,
        {
            assert(all.take(i + 1).drop_last() =~= all.take(i as int));
            assert(all[i as int] == kids@[i as int]@);
            if !lists(&self.ids, &kids[i]) {
                let ghost before = self.ids.deep_view();
                self.ids.push(kids[i].clone());
                assert(self.ids.deep_view() =~= before.push(all[i as int]));
            }
            i += 1;
        }
        assert(all.take(i as int) =~= all);
        proof {
            lemma_with_new(ids, all);
        }
    }
}

/// The deletion after statements that affected these numbers of rows.
pub open spec fn after_statements(d: RowDeletionView, counts: Seq<u64>) -> RowDeletionView
    decreases counts.len(),
{
    if counts.len() == 0 {
        d
    } else {
        after_statements(d, counts.drop_last()).after(RowEventView::Affected(counts.last()))
    }
}

/// The sum of some numbers of rows.
pub open spec fn row_sum(counts: Seq<u64>) -> nat
    decreases counts.len(),
{
    if counts.len() == 0 {
        0
    } else {
        row_sum(counts.drop_last()) + counts.last() as nat
    }
}

/// Once the sessions are collected, every statement of `deletion_statements` is run on all of them,
/// in order and once each; only after the last one is the deletion committed, and the rows of all
/// statements are counted.
pub proof fn law_all_tables_are_purged(d: RowDeletionView, counts: Seq<u64>)
    requires
        d.wf(),
        d.stage == RowStageView::Purge(0),
        counts.len() <= COLUMN_COUNT + 1,
    ensures
        deletion_statements(d.ids.len()).len() == COLUMN_COUNT + 1,
        after_statements(d, counts).ids == d.ids,
        after_statements(d, counts).rows == d.rows + row_sum(counts),
        after_statements(d, counts).action() == if counts.len() <= COLUMN_COUNT {
            RowActionView::Execute {
                sql: deletion_statements(d.ids.len())[counts.len() as int],
                params: d.ids,
            }
        } else {
            RowActionView::Commit
        },
{
    lemma_after_statements(d, counts);
}

proof fn lemma_after_statements(d: RowDeletionView, counts: Seq<u64>)
    requires
        d.wf(),
        d.stage == RowStageView::Purge(0),
        counts.len() <= COLUMN_COUNT + 1,
    ensures
        after_statements(d, counts) == (RowDeletionView {
            ids: d.ids,
            rows: d.rows + row_sum(counts),
            stage: if counts.len() < COLUMN_COUNT {
                RowStageView::Purge(counts.len() as int)
            } else if counts.len() == COLUMN_COUNT {
                RowStageView::Sessions
            } else {
                RowStageView::Commit
            },
        }),
    decreases counts.len(),
{
    if counts.len() > 0 {
        lemma_after_statements(d, counts.drop_last());
    }
}

/// A failure ends the deletion at once: it is reported, and nothing is committed.
pub proof fn law_failure_commits_nothing(d: RowDeletionView, e: Seq<char>)
    requires
        d.expects(RowEventView::Failed(e)),
    ensures
        d.after(RowEventView::Failed(e)).action() == RowActionView::Fail(d.failure(e)),
        forall|event: RowEventView| !#[trigger] d.after(RowEventView::Failed(e)).expects(event),
{
}

/// Whether `kids` is what the query for children finds, where `is_child(x, p)` says that the parent
/// of `x` is `p`: the children of the sessions in `ids` that are not among them.
pub open spec fn answers(
    is_child: spec_fn(Seq<char>, Seq<char>) -> bool,
    ids: Seq<Seq<char>>,
    kids: Seq<Seq<char>>,
) -> bool {
    forall|x: Seq<char>| #[trigger]
        kids.contains(x) == (has_parent_in(is_child, ids, x) && !ids.contains(x))
}

/// Whether the parent of a session is one of `ids`.
pub open spec fn has_parent_in(
    is_child: spec_fn(Seq<char>, Seq<char>) -> bool,
    ids: Seq<Seq<char>>,
    x: Seq<char>,
) -> bool {
    exists|k: int| 0 <= k < ids.len() && #[trigger] is_child(x, ids[k])
}

/// Whether `line` leads from one session down to another, each the child of the one before.
pub open spec fn is_line(
    is_child: spec_fn(Seq<char>, Seq<char>) -> bool,
    line: Seq<Seq<char>>,
    from: Seq<char>,
    to: Seq<char>,
) -> bool {
    &&& line.len() > 0
    &&& line[0] == from
    &&& line.last() == to
    &&& forall|k: int| 0 < k < line.len() ==> is_child(#[trigger] line[k], line[k - 1])
}

/// Whether a session is another one, or below it, at any depth.
pub open spec fn descends(
    is_child: spec_fn(Seq<char>, Seq<char>) -> bool,
    x: Seq<char>,
    root: Seq<char>,
) -> bool {
    exists|line: Seq<Seq<char>>| is_line(is_child, line, root, x)
}

/// The sessions that are collected after these answers to the query for children.
pub open spec fn collected(root: Seq<char>, found: Seq<Seq<Seq<char>>>) -> Seq<Seq<char>>
    decreases found.len(),
{
    if found.len() == 0 {
        seq![root]
    } else {
        with_new(collected(root, found.drop_last()), found.last())
    }
}

/// Whether the answers are those of a database that does not change in the meantime.
pub open spec fn answered(
    is_child: spec_fn(Seq<char>, Seq<char>) -> bool,
    root: Seq<char>,
    found: Seq<Seq<Seq<char>>>,
) -> bool {
    forall|k: int|
        0 <= k < found.len() ==> answers(is_child, collected(root, found.take(k)), #[trigger] found[k])
}

/// Deleting a session deletes the sessions below it with it: when the query for children finds none
/// any more, the collected sessions are the one asked for and all below it, at any depth, and no
/// others.
pub proof fn law_whole_tree_is_collected(
    is_child: spec_fn(Seq<char>, Seq<char>) -> bool,
    root: Seq<char>,
    found: Seq<Seq<Seq<char>>>,
    x: Seq<char>,
)
    requires
        answered(is_child, root, found),
        found.len() > 0,
        found.last().len() == 0,
    ensures
        collected(root, found).contains(x) == descends(is_child, x, root),
{
    let before = collected(root, found.drop_last());
    let ids = collected(root, found);
    assert(ids == before);
    lemma_collected_descend(is_child, root, found);
    assert(found.take(found.len() - 1) =~= found.drop_last());
    assert(answers(is_child, before, found[found.len() - 1]));
    if descends(is_child, x, root) {
        let line = choose|line: Seq<Seq<char>>| is_line(is_child, line, root, x);
        assert(ids.contains(root)) by {
            lemma_root_collected(root, found);
            assert(ids[0] == root);
        }
        assert forall|y: Seq<char>| has_parent_in(is_child, ids, y) implies #[trigger] ids.contains(
            y,
        ) by {
            assert(!found.last().contains(y));
        }
        lemma_line_collected(is_child, ids, line, root, x);
    }
}

proof fn lemma_root_collected(root: Seq<char>, found: Seq<Seq<Seq<char>>>)
    ensures
        collected(root, found).len() > 0,
        collected(root, found)[0] == root,
    decreases found.len(),
{
    if found.len() > 0 {
        lemma_root_collected(root, found.drop_last());
        lemma_with_new(collected(root, found.drop_last()), found.last());
    }
}

proof fn lemma_collected_descend(
    is_child: spec_fn(Seq<char>, Seq<char>) -> bool,
    root: Seq<char>,
    found: Seq<Seq<Seq<char>>>,
)
    requires
        answered(is_child, root, found),
    ensures
        forall|x: Seq<char>| #[trigger]
            collected(root, found).contains(x) ==> descends(is_child, x, root),
    decreases found.len(),
{
    if found.len() == 0 {
        assert(is_line(is_child, seq![root], root, root));
    } else {
        let fewer = found.drop_last();
        let before = collected(root, fewer);
        assert(answered(is_child, root, fewer)) by {
            assert forall|k: int| 0 <= k < fewer.len() implies answers(
                is_child,
                collected(root, fewer.take(k)),
                #[trigger] fewer[k],
            ) by {
                assert(fewer.take(k) =~= found.take(k));
                assert(answers(is_child, collected(root, found.take(k)), found[k]));
            }
        }
        lemma_collected_descend(is_child, root, fewer);
        lemma_with_new(before, found.last());
        assert(found.take(found.len() - 1) =~= fewer);
        assert(answers(is_child, before, found[found.len() - 1]));
        assert forall|x: Seq<char>| #[trigger] collected(root, found).contains(x) implies descends(
            is_child,
            x,
            root,
        ) by {
            if !before.contains(x) {
                assert(found.last().contains(x));
                let k = choose|k: int| 0 <= k < before.len() && #[trigger] is_child(x, before[k]);
                let p = before[k];
                assert(before.contains(p));
                let line = choose|line: Seq<Seq<char>>| is_line(is_child, line, root, p);
                assert(is_line(is_child, line.push(x), root, x));
            }
        }
    }
}

proof fn lemma_line_collected(
    is_child: spec_fn(Seq<char>, Seq<char>) -> bool,
    ids: Seq<Seq<char>>,
    line: Seq<Seq<char>>,
    root: Seq<char>,
    x: Seq<char>,
)
    requires
        is_line(is_child, line, root, x),
        ids.contains(root),
        forall|y: Seq<char>| has_parent_in(is_child, ids, y) ==> #[trigger] ids.contains(y),
    ensures
        ids.contains(x),
    decreases line.len(),
{
    if line.len() > 1 {
        let shorter = line.drop_last();
        let p = shorter.last();
        assert(is_line(is_child, shorter, root, p));
        lemma_line_collected(is_child, ids, shorter, root, p);
        let k = choose|k: int| 0 <= k < ids.len() && ids[k] == p;
        assert(is_child(line[line.len() - 1], line[line.len() - 2]));
        assert(is_child(x, ids[k]));
        assert(has_parent_in(is_child, ids, x));
    }
}

/// Collecting makes progress: each time the query finds children, there are more collected sessions
/// than before.
pub proof fn law_collecting_makes_progress(
    is_child: spec_fn(Seq<char>, Seq<char>) -> bool,
    ids: Seq<Seq<char>>,
    kids: Seq<Seq<char>>,
)
    requires
        answers(is_child, ids, kids),
        kids.len() > 0,
    ensures
        with_new(ids, kids).len() > ids.len(),
{
    lemma_with_new(ids, kids);
    let x = kids[0];
    assert(kids.contains(x));
    assert(with_new(ids, kids).contains(x));
    assert(!ids.contains(x));
    if with_new(ids, kids).len() == ids.len() {
        assert(with_new(ids, kids) =~= ids);
    }
}

/// Collecting comes to an end: with finitely many sessions, the query finds children fewer times than
/// there are sessions.
pub proof fn law_collecting_ends(
    is_child: spec_fn(Seq<char>, Seq<char>) -> bool,
    root: Seq<char>,
    found: Seq<Seq<Seq<char>>>,
    sessions: Set<Seq<char>>,
)
    requires
        answered(is_child, root, found),
        sessions.finite(),
        sessions.contains(root),
        forall|k: int, x: Seq<char>|
            0 <= k < found.len() && #[trigger] found[k].contains(x) ==> sessions.contains(x),
        forall|k: int| 0 <= k < found.len() ==> (#[trigger] found[k]).len() > 0,
    ensures
        found.len() < sessions.len(),
{
    lemma_collected_grows(is_child, root, found, sessions);
    let ids = collected(root, found);
    ids.unique_seq_to_set();
    assert(ids.to_set().subset_of(sessions));
    vstd::set_lib::lemma_len_subset(ids.to_set(), sessions);
}

proof fn lemma_collected_grows(
    is_child: spec_fn(Seq<char>, Seq<char>) -> bool,
    root: Seq<char>,
    found: Seq<Seq<Seq<char>>>,
    sessions: Set<Seq<char>>,
)
    requires
        answered(is_child, root, found),
        sessions.contains(root),
        forall|k: int, x: Seq<char>|
            0 <= k < found.len() && #[trigger] found[k].contains(x) ==> sessions.contains(x),
        forall|k: int| 0 <= k < found.len() ==> (#[trigger] found[k]).len() > 0,
    ensures
        collected(root, found).len() > found.len(),
        collected(root, found).no_duplicates(),
        forall|x: Seq<char>| #[trigger]
            collected(root, found).contains(x) ==> sessions.contains(x),
    decreases found.len(),
{
    if found.len() > 0 {
        let fewer = found.drop_last();
        let before = collected(root, fewer);
        assert(answered(is_child, root, fewer)) by {
            assert forall|k: int| 0 <= k < fewer.len() implies answers(
                is_child,
                collected(root, fewer.take(k)),
                #[trigger] fewer[k],
            ) by {
                assert(fewer.take(k) =~= found.take(k));
                assert(answers(is_child, collected(root, found.take(k)), found[k]));
            }
        }
        assert forall|k: int, x: Seq<char>|
            0 <= k < fewer.len() && #[trigger] fewer[k].contains(x) implies sessions.contains(x) by {
            assert(found[k].contains(x));
        }
        lemma_collected_grows(is_child, root, fewer, sessions);
        lemma_with_new(before, found.last());
        assert(found.take(found.len() - 1) =~= fewer);
        assert(answers(is_child, before, found[found.len() - 1]));
        assert(found[found.len() - 1].len() > 0);
        law_collecting_makes_progress(is_child, before, found.last());
        assert forall|x: Seq<char>| #[trigger]
            collected(root, found).contains(x) implies sessions.contains(x) by {
            if !before.contains(x) {
                assert(found[found.len() - 1].contains(x));
            }
        }
    }
}

/// The sessions that a deletion works on are those that `collected` says: each answer adds to them,
/// and an empty one ends the collecting.
pub proof fn law_answers_are_collected(
    d: RowDeletionView,
    root: Seq<char>,
    found: Seq<Seq<Seq<char>>>,
    kids: Seq<Seq<char>>,
)
    requires
        d.stage == RowStageView::Collect,
        d.ids == collected(root, found),
    ensures
        d.after(RowEventView::Found(kids)).ids == collected(root, found.push(kids)),
        d.after(RowEventView::Found(kids)).stage == if kids.len() == 0 {
            RowStageView::Purge(0)
        } else {
            RowStageView::Collect
        },
{
    assert(found.push(kids).drop_last() =~= found);
}

/// The deletion after these answers to the query for children.
pub open spec fn after_answers(
    d: RowDeletionView,
    found: Seq<Seq<Seq<char>>>,
) -> RowDeletionView
    decreases found.len(),
{
    if found.len() == 0 {
        d
    } else {
        after_answers(d, found.drop_last()).after(RowEventView::Found(found.last()))
    }
}

/// From beginning to end: when nothing fails, and the query for children finds some until it finds
/// none, the deletion succeeds with all collected sessions and the rows of all statements, and these
/// are committed.
pub proof fn law_deletion_succeeds(root: Seq<char>, found: Seq<Seq<Seq<char>>>, counts: Seq<u64>)
    requires
        found.len() > 0,
        forall|k: int| 0 <= k < found.len() - 1 ==> (#[trigger] found[k]).len() > 0,
        found.last().len() == 0,
        counts.len() == COLUMN_COUNT + 1,
    ensures
        ({
            let begun = RowDeletionView::start(root).after(RowEventView::Done);
            let purged = after_statements(after_answers(begun, found), counts);
            &&& purged.action() == RowActionView::Commit
            &&& purged.after(RowEventView::Done).action() == (RowActionView::Succeed {
                rows: row_sum(counts),
                ids: collected(root, found),
            })
        }),
{
    let begun = RowDeletionView::start(root).after(RowEventView::Done);
    let before = found.drop_last();
    assert forall|k: int| 0 <= k < before.len() implies (#[trigger] before[k]).len() > 0 by {
        assert(before[k] == found[k]);
    }
    lemma_after_answers(root, before);
    law_answers_are_collected(after_answers(begun, before), root, before, found.last());
    assert(before.push(found.last()) =~= found);
    lemma_well_collected(root, found);
    lemma_after_statements(after_answers(begun, found), counts);
}

proof fn lemma_well_collected(root: Seq<char>, found: Seq<Seq<Seq<char>>>)
    ensures
        collected(root, found).len() > 0,
        collected(root, found).no_duplicates(),
    decreases found.len(),
{
    if found.len() > 0 {
        lemma_well_collected(root, found.drop_last());
        lemma_with_new(collected(root, found.drop_last()), found.last());
    }
}

proof fn lemma_after_answers(root: Seq<char>, found: Seq<Seq<Seq<char>>>)
    requires
        forall|k: int| 0 <= k < found.len() ==> (#[trigger] found[k]).len() > 0,
    ensures
        after_answers(RowDeletionView::start(root).after(RowEventView::Done), found) == (
        RowDeletionView { ids: collected(root, found), rows: 0, stage: RowStageView::Collect }),
    decreases found.len(),
{
    if found.len() > 0 {
        let fewer = found.drop_last();
        assert forall|k: int| 0 <= k < fewer.len() implies (#[trigger] fewer[k]).len() > 0 by {
            assert(fewer[k] == found[k]);
        }
        lemma_after_answers(root, fewer);
        assert(found[found.len() - 1].len() > 0);
    }
}

/// A deletion that is repeated finds nothing more: where the first one deleted all that was collected,
/// so that none of those sessions is a child any more and no row refers to one of them (`left(k, x)`
/// is how many rows the statement at `k` would still delete for `x`), the second one finds no children
/// and succeeds with no rows, and with the session asked for alone.
pub proof fn law_second_deletion_finds_nothing(
    is_child: spec_fn(Seq<char>, Seq<char>) -> bool,
    root: Seq<char>,
    found: Seq<Seq<Seq<char>>>,
    left: spec_fn(int, Seq<char>) -> nat,
    kids: Seq<Seq<char>>,
    counts: Seq<u64>,
)
    requires
        answered(is_child, root, found),
        found.len() > 0,
        found.last().len() == 0,
        forall|k: int, x: Seq<char>|
            collected(root, found).contains(x) ==> #[trigger] left(k, x) == 0,
        answers(
            |x: Seq<char>, p: Seq<char>| is_child(x, p) && !collected(root, found).contains(x),
            seq![root],
            kids,
        ),
        counts.len() == COLUMN_COUNT + 1,
        forall|k: int| 0 <= k < counts.len() ==> #[trigger] counts[k] == left(k, root),
    ensures
        kids.len() == 0,
        ({
            let begun = RowDeletionView::start(root).after(RowEventView::Done);
            let purged = after_statements(after_answers(begun, seq![kids]), counts);
            purged.after(RowEventView::Done).action() == (RowActionView::Succeed {
                rows: 0,
                ids: seq![root],
            })
        }),
{
    let ids = collected(root, found);
    let still_child = |x: Seq<char>, p: Seq<char>| is_child(x, p) && !ids.contains(x);
    lemma_root_collected(root, found);
    assert(ids.contains(root)) by {
        assert(ids[0] == root);
    }
    if kids.len() > 0 {
        let x = kids[0];
        assert(kids.contains(x));
        let k = choose|k: int|
            0 <= k < seq![root].len() && #[trigger] still_child(x, seq![root][k]);
        assert(is_child(x, root) && !ids.contains(x));
        assert(is_line(is_child, seq![root, x], root, x));
        law_whole_tree_is_collected(is_child, root, found, x);
    }
    let again = seq![kids];
    law_deletion_succeeds(root, again, counts);
    assert(again.drop_last() =~= Seq::<Seq<Seq<char>>>::empty());
    assert(collected(root, again.drop_last()) == seq![root]);
    assert(collected(root, again) =~= seq![root]);
    assert forall|k: int| 0 <= k < counts.len() implies #[trigger] counts[k] == 0 by {
        assert(left(k, root) == 0);
    }
    lemma_no_rows(counts);
}

proof fn lemma_no_rows(counts: Seq<u64>)
    requires
        forall|k: int| 0 <= k < counts.len() ==> #[trigger] counts[k] == 0,
    ensures
        row_sum(counts) == 0,
    decreases counts.len(),
{
    if counts.len() > 0 {
        assert(counts[counts.len() - 1] == 0);
        lemma_no_rows(counts.drop_last());
    }
}

/// Parents come before their children: each collected session but the one asked for is the child of
/// one that stands before it.
pub proof fn law_parents_come_first(
    is_child: spec_fn(Seq<char>, Seq<char>) -> bool,
    root: Seq<char>,
    found: Seq<Seq<Seq<char>>>,
    k: int,
)
    requires
        answered(is_child, root, found),
        0 < k < collected(root, found).len(),
    ensures
        exists|j: int|
            0 <= j < k && #[trigger] is_child(
                collected(root, found)[k],
                collected(root, found)[j],
            ),
    decreases found.len(),
{
    if found.len() > 0 {
        let fewer = found.drop_last();
        let before = collected(root, fewer);
        let ids = collected(root, found);
        assert forall|i: int| 0 <= i < fewer.len() implies answers(
            is_child,
            collected(root, fewer.take(i)),
            #[trigger] fewer[i],
        ) by {
            assert(fewer.take(i) =~= found.take(i));
            assert(answers(is_child, collected(root, found.take(i)), found[i]));
        }
        lemma_with_new(before, found.last());
        if k < before.len() {
            law_parents_come_first(is_child, root, fewer, k);
            let j = choose|j: int| 0 <= j < k && #[trigger] is_child(before[k], before[j]);
            assert(is_child(ids[k], ids[j]));
        } else {
            lemma_new_ones(before, found.last(), k);
            assert(found.take(found.len() - 1) =~= fewer);
            assert(answers(is_child, before, found[found.len() - 1]));
            let j = choose|j: int| 0 <= j < before.len() && #[trigger] is_child(ids[k], before[j]);
            assert(is_child(ids[k], ids[j]));
        }
    }
}

proof fn lemma_new_ones(ids: Seq<Seq<char>>, more: Seq<Seq<char>>, k: int)
    requires
        ids.len() <= k < with_new(ids, more).len(),
    ensures
        more.contains(with_new(ids, more)[k]),
    decreases more.len(),
{
    if more.len() > 0 {
        let fewer = more.drop_last();
        if k < with_new(ids, fewer).len() {
            lemma_new_ones(ids, fewer, k);
            let m = choose|m: int| 0 <= m < fewer.len() && fewer[m] == with_new(ids, fewer)[k];
            assert(more[m] == with_new(ids, more)[k]);
        } else {
            assert(more[more.len() - 1] == with_new(ids, more)[k]);
        }
    }
}

/// Placeholders are as many question marks as asked for, with a comma between each two.
pub proof fn law_placeholders_alternate(n: nat)
    ensures
        n == 0 ==> placeholders_text(n).len() == 0,
        n > 0 ==> placeholders_text(n).len() == 2 * n - 1,
        forall|k: int|
            0 <= k < placeholders_text(n).len() ==> #[trigger] placeholders_text(n)[k] == (if k % 2
                == 0 {
                '?'
            } else {
                ','
            }),
    decreases n,
{
    reveal_strlit("?");
    reveal_strlit(",");
    let marks = Seq::new(n, |i: int| "?"@);
    if n > 0 {
        let fewer = (n - 1) as nat;
        law_placeholders_alternate(fewer);
        assert(marks.drop_last() =~= Seq::new(fewer, |i: int| "?"@));
        if n == 1 {
            assert(placeholders_text(n) == "?"@);
        } else {
            assert(placeholders_text(n) == placeholders_text(fewer) + ","@ + "?"@);
        }
    }
}

/// Whether a column of a table refers to sessions.
pub open spec fn refers_to_sessions(table: Seq<char>, column: Seq<char>) -> bool {
    ||| table == "message"@ && column == "session_id"@
    ||| table == "todo"@ && column == "session_id"@
    ||| table == "session_entry"@ && column == "session_id"@
    ||| table == "session_target"@ && column == "session_id"@
    ||| table == "workflow_run"@ && column == "parent_session_id"@
    ||| table == "workflow_activity"@ && column == "child_session_id"@
    ||| table == "session_task_link"@ && column == "child_session_id"@
    ||| table == "session_task_link"@ && column == "parent_session_id"@
    ||| table == "model_usage"@ && column == "session_id"@
    ||| table == "turn_usage"@ && column == "session_id"@
    ||| table == "tool_usage"@ && column == "session_id"@
    ||| table == "session_input"@ && column == "session_id"@
    ||| table == "part"@ && column == "session_id"@
}

/// The columns that refer to sessions, by number.
pub proof fn law_session_columns()
    ensures
        session_columns_list().len() == 13,
        session_columns_list()[0] == ("message"@, "session_id"@),
        session_columns_list()[1] == ("todo"@, "session_id"@),
        session_columns_list()[2] == ("session_entry"@, "session_id"@),
        session_columns_list()[3] == ("session_target"@, "session_id"@),
        session_columns_list()[4] == ("workflow_run"@, "parent_session_id"@),
        session_columns_list()[5] == ("workflow_activity"@, "child_session_id"@),
        session_columns_list()[6] == ("session_task_link"@, "child_session_id"@),
        session_columns_list()[7] == ("session_task_link"@, "parent_session_id"@),
        session_columns_list()[8] == ("model_usage"@, "session_id"@),
        session_columns_list()[9] == ("turn_usage"@, "session_id"@),
        session_columns_list()[10] == ("tool_usage"@, "session_id"@),
        session_columns_list()[11] == ("session_input"@, "session_id"@),
        session_columns_list()[12] == ("part"@, "session_id"@),
{
}

/// Deleting sessions leaves no row that refers to one of them: for each column that refers to
/// sessions, and for the sessions themselves, one of the statements that come before the commit
/// deletes the rows with one of the collected ids in that column.
pub proof fn law_no_referring_row_is_left(
    d: RowDeletionView,
    counts: Seq<u64>,
    table: Seq<char>,
    column: Seq<char>,
)
    requires
        d.wf(),
        d.stage == RowStageView::Purge(0),
        counts.len() == 14,
        refers_to_sessions(table, column) || (table == "session"@ && column == "id"@),
    ensures
        exists|k: int|
            0 <= k < 14 && #[trigger] after_statements(d, counts.take(k)).action() == (
            RowActionView::Execute {
                sql: "DELETE FROM "@ + table + " WHERE "@ + column + " IN ("@ + placeholders_text(
                    d.ids.len(),
                ) + ")"@,
                params: d.ids,
            }),
        after_statements(d, counts).action() is Commit,
{
    let columns = session_columns_list();
    law_session_columns();
    lemma_after_statements(d, counts);
    let k: int = if refers_to_sessions(table, column) {
        choose|k: int| 0 <= k < 13 && #[trigger] columns[k] == (table, column)
    } else {
        13
    };
    if refers_to_sessions(table, column) {
        assert(columns[0] == (table, column) || columns[1] == (table, column) || columns[2] == (
            table,
            column,
        ) || columns[3] == (table, column) || columns[4] == (table, column) || columns[5] == (
            table,
            column,
        ) || columns[6] == (table, column) || columns[7] == (table, column) || columns[8] == (
            table,
            column,
        ) || columns[9] == (table, column) || columns[10] == (table, column) || columns[11] == (
            table,
            column,
        ) || columns[12] == (table, column));
    }
    lemma_after_statements(d, counts.take(k));
    assert(after_statements(d, counts.take(k)).action() == (RowActionView::Execute {
        sql: purge_sql(table, column, d.ids.len()),
        params: d.ids,
    }));
}

/// The children that are asked for are those of the collected sessions that are not among them, and
/// the first thing asked for is a transaction.
pub proof fn law_children_are_asked_for(d: RowDeletionView, id: Seq<char>)
    ensures
        RowDeletionView::start(id).action() is Begin,
        RowDeletionView::start(id).ids == seq![id],
        RowDeletionView::start(id).rows == 0,
        RowDeletionView::start(id).after(RowEventView::Done) == (RowDeletionView {
            ids: seq![id],
            rows: 0,
            stage: RowStageView::Collect,
        }),
        d.stage is Collect ==> d.action() == (RowActionView::Query {
            sql: "SELECT DISTINCT id FROM session WHERE parent_id IN ("@ + placeholders_text(
                d.ids.len(),
            ) + ") AND id NOT IN ("@ + placeholders_text(d.ids.len()) + ")"@,
            params: d.ids + d.ids,
        }),
        d.stage is Collect ==> d.after(RowEventView::Found(Seq::empty())) == (RowDeletionView {
            stage: RowStageView::Purge(0),
            ..d
        }),
{
}

/// New ids go behind the others, in the order in which they come, and those that are there stay as
/// they are.
pub proof fn law_new_ids_go_behind(ids: Seq<Seq<char>>, more: Seq<Seq<char>>, x: Seq<char>)
    ensures
        with_new(ids, Seq::empty()) == ids,
        with_new(ids, more).contains(x) ==> with_new(ids, more.push(x)) == with_new(ids, more),
        !with_new(ids, more).contains(x) ==> with_new(ids, more.push(x)) == with_new(
            ids,
            more,
        ).push(x),
        with_new(ids, more).contains(x) == (ids.contains(x) || more.contains(x)),
        ids.is_prefix_of(with_new(ids, more)),
{
    lemma_with_new(ids, more);
    assert(more.push(x).drop_last() =~= more);
}

/// Every answer to what is to be done is taken: success and failure of each step, whatever ids are
/// found, and every number of rows as long as their sum fits in 64 bits. At the end nothing is.
pub proof fn law_every_answer_is_taken(
    d: RowDeletionView,
    found: Seq<Seq<char>>,
    n: u64,
    e: Seq<char>,
    event: RowEventView,
)
    ensures
        d.action() is Begin || d.action() is Commit ==> d.expects(RowEventView::Done) && d.expects(
            RowEventView::Failed(e),
        ),
        d.action() is Query ==> d.expects(RowEventView::Found(found)) && d.expects(
            RowEventView::Failed(e),
        ),
        d.action() is Execute ==> d.expects(RowEventView::Failed(e)) && d.expects(
            RowEventView::Affected(n),
        ) == (d.rows + n <= 0xffff_ffff_ffff_ffff),
        d.action() is Succeed || d.action() is Fail ==> !d.expects(event),
{
}

/// A failure is told in its own words: those of a statement on a table that refers to sessions with
/// the table before them, those of the commit under its heading.
pub proof fn law_failures_are_told(d: RowDeletionView, e: Seq<char>, k: int)
    ensures
        d.stage == RowStageView::Purge(k) ==> d.failure(e) == session_columns_list()[k].0 + ": "@
            + e,
        d.stage is Commit ==> d.failure(e) == "提交事务失败: "@ + e,
        d.stage is Begin || d.stage is Collect || d.stage is Sessions ==> d.failure(e) == e,
        d.after(RowEventView::Failed(e)).action() == RowActionView::Fail(d.failure(e)),
{
}

/// The statements come in the order of the columns, one for each, and the sessions go last.
pub proof fn law_sessions_go_last(d: RowDeletionView, counts: Seq<u64>)
    requires
        d.wf(),
        d.stage == RowStageView::Purge(0),
        counts.len() <= 13,
    ensures
        after_statements(d, counts).action() == (RowActionView::Execute {
            sql: "DELETE FROM "@ + (if counts.len() < 13 {
                session_columns_list()[counts.len() as int].0
            } else {
                "session"@
            }) + " WHERE "@ + (if counts.len() < 13 {
                session_columns_list()[counts.len() as int].1
            } else {
                "id"@
            }) + " IN ("@ + placeholders_text(d.ids.len()) + ")"@,
            params: d.ids,
        }),
{
    lemma_after_statements(d, counts);
}

} // verus!
