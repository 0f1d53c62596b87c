use std::borrow::Cow;
use std::error::Error as StdError;
use std::fmt;

use sqlx::error::{DatabaseError, ErrorKind};
use squill::{MigrationId, MigrationLog, MigrationRecord, QueryError, Timestamp};

fn record(n: i64, name: &str, seconds: i64, nanos: u32) -> MigrationRecord {
    MigrationRecord {
        id: MigrationId::new(n).unwrap(),
        name: name.to_string(),
        run_at: Timestamp { seconds, nanos },
    }
}

#[derive(Debug)]
struct CodedError(&'static str);

impl fmt::Display for CodedError {
    fn fmt(&self, f: &mut fmt::Formatter<'_>) -> fmt::Result {
        f.write_str("database error ")?;
        f.write_str(self.0)
    }
}

impl StdError for CodedError {}

impl DatabaseError for CodedError {
    fn message(&self) -> &str {
        "relation does not exist"
    }

    fn code(&self) -> Option<Cow<'_, str>> {
        Some(Cow::Borrowed(self.0))
    }

    fn as_error(&self) -> &(dyn StdError + Send + Sync + 'static) {
        self
    }

    fn as_error_mut(&mut self) -> &mut (dyn StdError + Send + Sync + 'static) {
        self
    }

    fn into_error(self: Box<Self>) -> Box<dyn StdError + Send + Sync + 'static> {
        self
    }

    fn kind(&self) -> ErrorKind {
        ErrorKind::Other
    }
}

#[test]
fn missing_table() {
    let err = sqlx::Error::Database(Box::new(CodedError("42P01")));
    let log = MigrationLog::new(Err(err)).unwrap();
    assert_eq!(0, log.len(), "{:?}", log);
}

#[test]
fn missing_table_by_code() {
    let log = MigrationLog::from_query(Err(sqlx::Error::RowNotFound), Some("42P01".to_string()))
        .unwrap();
    assert_eq!(0, log.len());
    assert!(log.last().is_none());
}

#[test]
fn other_query_failures_are_returned() {
    let err = sqlx::Error::Database(Box::new(CodedError("42501")));
    match MigrationLog::new(Err(err)) {
        Err(QueryError(sqlx::Error::Database(e))) => assert_eq!(Some("42501"), e.code().as_deref()),
        other => panic!("Unexpected result: {other:?}"),
    }
    match MigrationLog::new(Err(sqlx::Error::RowNotFound)) {
        Err(QueryError(sqlx::Error::RowNotFound)) => (),
        other => panic!("Unexpected result: {other:?}"),
    }
    for code in [None, Some("42P0".to_string()), Some("42P011".to_string())] {
        match MigrationLog::from_query(Err(sqlx::Error::RowNotFound), code) {
            Err(QueryError(sqlx::Error::RowNotFound)) => (),
            other => panic!("Unexpected result: {other:?}"),
        }
    }
}

#[test]
fn rows_become_the_log() {
    let log = MigrationLog::new(Ok(vec![record(0, "init", 10, 0), record(3, "three", 20, 0)]))
        .unwrap();
    assert_eq!(2, log.len());
    let names: Vec<&str> = log.iter().iter().map(|r| r.name.as_str()).collect();
    assert_eq!(vec!["init", "three"], names);
    assert!(log.contains(MigrationId::new(3).unwrap()));
    assert!(!log.contains(MigrationId::new(1).unwrap()));
    assert_eq!("three", log.get(MigrationId::new(3).unwrap()).unwrap().name);
}

#[test]
fn rows_out_of_order_are_sorted() {
    let log = MigrationLog::from_rows(vec![record(5, "five", 1, 0), record(2, "two", 2, 0)]);
    let ids: Vec<i64> = log.iter().iter().map(|r| r.id.as_i64()).collect();
    assert_eq!(vec![2, 5], ids);
}

#[test]
fn last_applied_uninit() {
    let last = MigrationLog::from_rows(Vec::new()).last();
    assert_eq!(None, last);
}

#[test]
fn last_applied_init() {
    let last = MigrationLog::from_rows(vec![record(0, "init", 100, 0)]).last();
    assert!(last.is_some());

    let last = last.unwrap();
    assert_eq!(MigrationId::new(0).unwrap(), last.id);
    assert_eq!("init", &last.name);
}

#[test]
fn last_applied_out_of_order() {
    // "2-two" ran before "1-one".
    let log = MigrationLog::from_rows(vec![
        record(0, "init", 100, 0),
        record(1, "one", 300, 0),
        record(2, "two", 200, 0),
    ]);
    let last = log.last();
    assert!(last.is_some());

    let last = last.unwrap();
    assert_eq!(MigrationId::new(1).unwrap(), last.id);
    assert_eq!("one", &last.name);
}

#[test]
fn last_applied_ties_go_to_higher_id() {
    let log = MigrationLog::from_rows(vec![
        record(1, "one", 300, 5),
        record(2, "two", 300, 5),
        record(3, "three", 300, 4),
    ]);
    assert_eq!(2, log.last().unwrap().id.as_i64());

    let log = MigrationLog::from_rows(vec![record(1, "one", 300, 6), record(2, "two", 300, 5)]);
    assert_eq!(1, log.last().unwrap().id.as_i64());
}
