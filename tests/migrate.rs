use squill::{
    skip_transaction, Bookkeeping, DirEntry, Event, Execution, MigrateError, MigrationDirectory,
    Step,
};

const NO_OP_NO_TX: &str = "--squill:no-transaction\nselect 1;\n";
const NO_OP_YES_TX: &str = "-- an ordinary script\nselect 1;\n";

fn migration() -> MigrationDirectory {
    MigrationDirectory::from_entry("migrations", &DirEntry { name: "2-two".to_string(), is_dir: true })
        .unwrap()
}

#[test]
fn migrate_no_tx() {
    assert!(skip_transaction(NO_OP_NO_TX));
}

#[test]
fn migrate_yes_tx() {
    assert!(!skip_transaction(NO_OP_YES_TX));
}

#[test]
fn marker_must_start_a_line() {
    assert!(skip_transaction("select 1;\n--squill:no-transaction"));
    assert!(skip_transaction("--squill:no-transaction and more"));
    assert!(!skip_transaction("select 1; --squill:no-transaction"));
    assert!(!skip_transaction(" --squill:no-transaction"));
    assert!(!skip_transaction("--squill:no-transactio"));
    assert!(!skip_transaction("--SQUILL:no-transaction"));
    assert!(!skip_transaction("\r--squill:no-transaction"));
    assert!(!skip_transaction(""));
}

#[test]
fn up_claims_in_a_transaction() {
    let m = migration();
    match m.up(Event::Start) {
        Step::Read(p) => assert_eq!("migrations/2-two/up.sql", p),
        other => panic!("Unexpected step: {other:?}"),
    }
    match m.up(Event::Read(Ok("create table t (x int)".to_string()))) {
        Step::Execute(Execution::Transaction(Bookkeeping::Claim { id, name }, sql)) => {
            assert_eq!(2, id.as_i64());
            assert_eq!("two", name);
            assert_eq!("create table t (x int)", sql);
        }
        other => panic!("Unexpected step: {other:?}"),
    }
    assert!(matches!(m.up(Event::Executed(Ok(()))), Step::Done(Ok(()))));
    match m.up(Event::Executed(Err(sqlx::Error::RowNotFound))) {
        Step::Done(Err(MigrateError::Execute(sqlx::Error::RowNotFound))) => (),
        other => panic!("Unexpected step: {other:?}"),
    }
    let err = std::io::Error::new(std::io::ErrorKind::NotFound, "gone");
    match m.up(Event::Read(Err(err))) {
        Step::Done(Err(MigrateError::Read { path, err })) => {
            assert_eq!("migrations/2-two/up.sql", path);
            assert_eq!(std::io::ErrorKind::NotFound, err.kind());
        }
        other => panic!("Unexpected step: {other:?}"),
    }
}

#[test]
fn marked_script_runs_without_transaction_or_claim() {
    let m = migration();
    match m.up(Event::Read(Ok(NO_OP_NO_TX.to_string()))) {
        Step::Execute(Execution::Direct(sql)) => assert_eq!(NO_OP_NO_TX, sql),
        other => panic!("Unexpected step: {other:?}"),
    }
    match m.down(false, Event::Read(Ok(NO_OP_NO_TX.to_string()))) {
        Step::Execute(Execution::Direct(sql)) => assert_eq!(NO_OP_NO_TX, sql),
        other => panic!("Unexpected step: {other:?}"),
    }
}

#[test]
fn down_refused_when_only_up() {
    let m = migration();
    for event in [
        Event::Start,
        Event::Read(Ok("drop table t".to_string())),
        Event::Executed(Ok(())),
    ] {
        assert!(matches!(m.down(true, event), Step::Done(Err(MigrateError::OnlyUp))));
    }
    match m.down(false, Event::Start) {
        Step::Read(p) => assert_eq!("migrations/2-two/down.sql", p),
        other => panic!("Unexpected step: {other:?}"),
    }
    match m.down(false, Event::Read(Ok("drop table t".to_string()))) {
        Step::Execute(Execution::Transaction(Bookkeeping::Unclaim { id }, sql)) => {
            assert_eq!(2, id.as_i64());
            assert_eq!("drop table t", sql);
        }
        other => panic!("Unexpected step: {other:?}"),
    }
    assert!(matches!(m.down(false, Event::Executed(Ok(()))), Step::Done(Ok(()))));
}
