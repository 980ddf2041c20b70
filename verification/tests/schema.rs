use ghr_stats::store::schema::{migrate, Plan, TARGET};
use rusqlite::Connection;

/// Bring a database up to date.
fn apply(conn: &mut Connection) -> Result<(), String> {
    let current: i64 = conn.query_row("PRAGMA user_version", [], |row| row.get(0)).unwrap();
    match migrate(current).map_err(|e| e.text())? {
        Plan::UpToDate => Ok(()),
        Plan::Apply(statements) => {
            let tx = conn.transaction().unwrap();
            for sql in statements {
                tx.execute_batch(sql).unwrap();
            }
            tx.pragma_update(None, "user_version", TARGET).unwrap();
            tx.commit().unwrap();
            Ok(())
        }
    }
}

#[test]
fn a_database_written_by_a_newer_build_is_refused() {
    let mut conn = Connection::open_in_memory().unwrap();
    apply(&mut conn).unwrap();
    conn.pragma_update(None, "user_version", TARGET + 1).unwrap();

    let e = apply(&mut conn).unwrap_err();
    assert!(e.contains("written by a NEWER ghr-stats"), "{e}");
    // Both versions are named.
    assert!(e.contains(&format!("v{}", TARGET + 1)), "{e}");
    assert!(e.contains(&format!("v{}", TARGET)), "{e}");
}

#[test]
fn schema_migrate_creates_tables_and_is_idempotent() {
    let mut conn = Connection::open_in_memory().unwrap();
    apply(&mut conn).unwrap();
    // Running again changes nothing.
    apply(&mut conn).unwrap();

    let version: i64 = conn.query_row("PRAGMA user_version", [], |r| r.get(0)).unwrap();
    assert_eq!(version, TARGET);

    let tables: i64 = conn
        .query_row(
            "SELECT count(*) FROM sqlite_master WHERE type='table' AND name IN \
             ('runner_sample','host_sample','job_event','queue_sample','ingest_offset',\
              'api_runner_sample','runner_state','api_runner_state',\
              'api_reconcile_state','api_reconcile_sample')",
            [],
            |r| r.get(0),
        )
        .unwrap();
    assert_eq!(tables, 10);
}

#[test]
fn an_older_database_gets_what_it_lacks() {
    assert!(matches!(migrate(TARGET), Ok(Plan::UpToDate)));
    match migrate(4) {
        Ok(Plan::Apply(v)) => {
            assert_eq!(v.len(), 2);
            assert!(v[0].contains("mem_current_bytes"));
        }
        other => panic!("unexpected {other:?}"),
    }
    assert!(matches!(migrate(-1), Ok(Plan::Apply(v)) if v.is_empty()));
}
