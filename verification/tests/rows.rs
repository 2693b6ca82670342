use rusqlite::{params_from_iter, Connection};
use zcode_cleaner::db::{LAST_UPDATE_SQL, SESSIONS_SQL};
use zcode_cleaner::rows::{
    delete_db_rows, placeholders, session_columns, RowAction, RowEvent, COLUMN_COUNT,
};

#[test]
fn placeholders_are_separated_by_commas() {
    assert_eq!(placeholders(0), "");
    assert_eq!(placeholders(1), "?");
    assert_eq!(placeholders(3), "?,?,?");
    assert_eq!(placeholders(100), vec!["?"; 100].join(","));
}

#[test]
fn all_referring_columns_are_known() {
    let c = session_columns();
    assert_eq!(c.len(), COLUMN_COUNT);
    assert_eq!(c[0], ("message", "session_id"));
    assert_eq!(c[4], ("workflow_run", "parent_session_id"));
    assert_eq!(c[7], ("session_task_link", "parent_session_id"));
    assert_eq!(c[12], ("part", "session_id"));
}

fn database() -> Connection {
    let conn = Connection::open_in_memory().unwrap();
    conn.execute_batch("CREATE TABLE session (id TEXT PRIMARY KEY, parent_id TEXT);").unwrap();
    let mut made: Vec<&str> = Vec::new();
    for (table, _) in session_columns() {
        if !made.contains(&table) {
            let columns: Vec<String> = session_columns()
                .iter()
                .filter(|(t, _)| *t == table)
                .map(|(_, c)| format!("{} TEXT", c))
                .collect();
            conn.execute_batch(&format!("CREATE TABLE {} ({});", table, columns.join(","))).unwrap();
            made.push(table);
        }
    }
    for (id, parent) in [
        ("sess_a", None),
        ("sess_b", Some("sess_a")),
        ("sess_c", Some("sess_b")),
        ("sess_d", Some("sess_a")),
        ("sess_z", None),
        ("sess_y", Some("sess_z")),
    ] {
        conn.execute("INSERT INTO session VALUES (?1, ?2)", (id, parent)).unwrap();
        conn.execute("INSERT INTO message VALUES (?1)", (id,)).unwrap();
        conn.execute("INSERT INTO part VALUES (?1)", (id,)).unwrap();
        conn.execute("INSERT INTO session_task_link VALUES (?1, ?2)", (id, parent)).unwrap();
    }
    conn
}

fn ids_in(conn: &Connection, sql: &str) -> Vec<String> {
    let mut stmt = conn.prepare(sql).unwrap();
    let rows = stmt.query_map([], |r| r.get::<_, String>(0)).unwrap();
    rows.map(|r| r.unwrap()).collect()
}

/// Runs a deletion on a database.
fn run(conn: &Connection, id: &str) -> Result<(u64, Vec<String>), String> {
    let mut deletion = delete_db_rows(id);
    let mut tx = None;
    loop {
        let event = match deletion.action() {
            RowAction::Begin => match conn.unchecked_transaction() {
                Ok(t) => {
                    tx = Some(t);
                    RowEvent::Done
                }
                Err(e) => RowEvent::Failed(e.to_string()),
            },
            RowAction::Query { sql, params } => {
                let mut stmt = conn.prepare(&sql).unwrap();
                let rows = stmt
                    .query_map(params_from_iter(params.iter()), |r| r.get::<_, String>(0))
                    .unwrap();
                RowEvent::Found(rows.map(|r| r.unwrap()).collect())
            }
            RowAction::Execute { sql, params } => {
                match conn.execute(&sql, params_from_iter(params.iter())) {
                    Ok(n) => RowEvent::Affected(n as u64),
                    Err(e) => RowEvent::Failed(e.to_string()),
                }
            }
            RowAction::Commit => match tx.take().unwrap().commit() {
                Ok(()) => RowEvent::Done,
                Err(e) => RowEvent::Failed(e.to_string()),
            },
            RowAction::Succeed { rows, ids } => return Ok((rows, ids)),
            RowAction::Fail(e) => return Err(e),
        };
        assert!(deletion.can_take(&event));
        deletion.advance(event);
    }
}

#[test]
fn session_is_deleted_with_all_below_it() {
    let conn = database();
    let (rows, mut ids) = run(&conn, "sess_a").unwrap();
    assert_eq!(ids[0], "sess_a");
    let at = |id: &str| ids.iter().position(|i| i == id).unwrap();
    assert!(at("sess_b") < at("sess_c"));
    ids.sort();
    assert_eq!(ids, vec!["sess_a", "sess_b", "sess_c", "sess_d"]);
    // Of each of the four: a message, a part, a link and the session.
    assert_eq!(rows, 16);
    assert_eq!(ids_in(&conn, "SELECT id FROM session ORDER BY id"), vec!["sess_y", "sess_z"]);
    assert_eq!(ids_in(&conn, "SELECT session_id FROM part ORDER BY 1"), vec!["sess_y", "sess_z"]);
}

#[test]
fn leaf_session_is_deleted_alone() {
    let conn = database();
    let (rows, ids) = run(&conn, "sess_c").unwrap();
    assert_eq!((rows, ids), (4, vec!["sess_c".to_string()]));
    assert_eq!(ids_in(&conn, "SELECT id FROM session").len(), 5);
}

#[test]
fn unknown_session_deletes_nothing() {
    let conn = database();
    let (rows, ids) = run(&conn, "sess_none").unwrap();
    assert_eq!((rows, ids), (0, vec!["sess_none".to_string()]));
    assert_eq!(ids_in(&conn, "SELECT id FROM session").len(), 6);
}

#[test]
fn failing_statement_rolls_back() {
    let conn = database();
    conn.execute_batch("DROP TABLE todo;").unwrap();
    let e = run(&conn, "sess_a").unwrap_err();
    assert!(e.starts_with("todo: "), "{}", e);
    assert_eq!(ids_in(&conn, "SELECT session_id FROM message").len(), 6);
}

#[test]
fn statements_come_in_order() {
    let mut d = delete_db_rows("sess_a");
    assert!(matches!(d.action(), RowAction::Begin));
    d.advance(RowEvent::Done);
    match d.action() {
        RowAction::Query { sql, params } => {
            assert_eq!(
                sql,
                "SELECT DISTINCT id FROM session WHERE parent_id IN (?) AND id NOT IN (?)"
            );
            assert_eq!(params, vec!["sess_a", "sess_a"]);
        }
        other => panic!("{:?}", other),
    }
    d.advance(RowEvent::Found(vec![
        "sess_b".to_string(),
        "sess_a".to_string(),
        "sess_b".to_string(),
    ]));
    match d.action() {
        RowAction::Query { sql, params } => {
            assert_eq!(
                sql,
                "SELECT DISTINCT id FROM session WHERE parent_id IN (?,?) AND id NOT IN (?,?)"
            );
            assert_eq!(params, vec!["sess_a", "sess_b", "sess_a", "sess_b"]);
        }
        other => panic!("{:?}", other),
    }
    d.advance(RowEvent::Found(vec![]));
    let mut seen: Vec<String> = Vec::new();
    for n in 0..14u64 {
        match d.action() {
            RowAction::Execute { sql, params } => {
                assert_eq!(params, vec!["sess_a", "sess_b"]);
                seen.push(sql);
            }
            other => panic!("{:?}", other),
        }
        d.advance(RowEvent::Affected(n));
    }
    assert_eq!(seen[0], "DELETE FROM message WHERE session_id IN (?,?)");
    assert_eq!(seen[12], "DELETE FROM part WHERE session_id IN (?,?)");
    assert_eq!(seen[13], "DELETE FROM session WHERE id IN (?,?)");
    assert!(matches!(d.action(), RowAction::Commit));
    d.advance(RowEvent::Done);
    match d.action() {
        RowAction::Succeed { rows, ids } => {
            assert_eq!(rows, 91);
            assert_eq!(ids, vec!["sess_a", "sess_b"]);
        }
        other => panic!("{:?}", other),
    }
}

#[test]
fn failures_are_named_by_stage() {
    let fail = || RowEvent::Failed("e".to_string());
    let mut d = delete_db_rows("sess_a");
    d.advance(fail());
    assert!(matches!(d.action(), RowAction::Fail(e) if e == "e"));
    assert!(!d.can_take(&fail()));

    let mut d = delete_db_rows("sess_a");
    d.advance(RowEvent::Done);
    d.advance(fail());
    assert!(matches!(d.action(), RowAction::Fail(e) if e == "e"));

    let mut d = delete_db_rows("sess_a");
    d.advance(RowEvent::Done);
    d.advance(RowEvent::Found(vec![]));
    for _ in 0..13 {
        d.advance(RowEvent::Affected(0));
    }
    d.advance(fail());
    assert!(matches!(d.action(), RowAction::Fail(e) if e == "e"));

    let mut d = delete_db_rows("sess_a");
    d.advance(RowEvent::Done);
    d.advance(RowEvent::Found(vec![]));
    for _ in 0..14 {
        d.advance(RowEvent::Affected(0));
    }
    d.advance(fail());
    assert!(matches!(d.action(), RowAction::Fail(e) if e == "提交事务失败: e"));
}

#[test]
fn rows_beyond_counting_are_not_taken() {
    let mut d = delete_db_rows("sess_a");
    assert!(!d.can_take(&RowEvent::Affected(0)));
    d.advance(RowEvent::Done);
    d.advance(RowEvent::Found(vec![]));
    d.advance(RowEvent::Affected(u64::MAX));
    assert!(!d.can_take(&RowEvent::Affected(1)));
    assert!(d.can_take(&RowEvent::Affected(0)));
}

#[test]
fn queries_read_sessions() {
    let conn = Connection::open_in_memory().unwrap();
    conn.execute_batch(
        "CREATE TABLE session (id TEXT, parent_id TEXT, title TEXT, directory TEXT,
            time_created INTEGER, time_updated INTEGER);
         INSERT INTO session VALUES ('sess_a', NULL, 'first', '/src', 1, 2);
         INSERT INTO session VALUES ('sess_b', 'sess_a', NULL, NULL, NULL, NULL);",
    )
    .unwrap();
    let mut stmt = conn.prepare(SESSIONS_SQL).unwrap();
    let rows: Vec<(String, Option<String>, Option<String>, Option<i64>, Option<i64>)> = stmt
        .query_map([], |r| Ok((r.get(0)?, r.get(1)?, r.get(2)?, r.get(3)?, r.get(4)?)))
        .unwrap()
        .map(|r| r.unwrap())
        .collect();
    let text = |s: &str| Some(s.to_string());
    assert_eq!(
        rows,
        vec![
            ("sess_a".to_string(), text("first"), text("/src"), Some(1), Some(2)),
            ("sess_b".to_string(), None, None, None, None),
        ]
    );
    let last = |id: &str| -> Option<i64> {
        conn.query_row(LAST_UPDATE_SQL, [id], |r| r.get(0)).unwrap()
    };
    assert_eq!((last("sess_a"), last("sess_b"), last("sess_c")), (Some(2), Some(0), Some(0)));
}

#[test]
fn second_deletion_finds_nothing() {
    let conn = database();
    assert_eq!(run(&conn, "sess_a").unwrap().0, 16);
    assert_eq!(run(&conn, "sess_a").unwrap(), (0, vec!["sess_a".to_string()]));
}
