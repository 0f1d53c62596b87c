use squill::{
    DirEntry, Listing, MigrationId, MigrationIndex, MigrationLog, MigrationRecord, Status,
    Timestamp, UndoError,
};

fn id(n: i64) -> MigrationId {
    MigrationId::new(n).unwrap()
}

fn record(n: i64, name: &str, seconds: i64) -> MigrationRecord {
    MigrationRecord { id: id(n), name: name.to_string(), run_at: Timestamp { seconds, nanos: 0 } }
}

fn index_of(names: &[&str]) -> MigrationIndex {
    let entries = names.iter().map(|n| DirEntry { name: n.to_string(), is_dir: true }).collect();
    MigrationIndex::new("migrations", Listing::Entries(entries)).unwrap()
}

#[test]
fn status_empty() {
    let actual = Status::new(MigrationLog::from_rows(Vec::new()), index_of(&[]));

    assert!(actual.applied.iter().is_empty());
    assert!(actual.available.iter().is_empty());
    assert!(actual.pending().is_empty());
    assert_eq!(0, actual.full_status().len());
}

#[test]
fn pending_migrations() {
    let index = index_of(&["0-init", "1-one", "2-two", "3-three"]);
    let log = MigrationLog::from_rows(vec![record(0, "init", 1), record(2, "two", 2)]);
    let status = Status::new(log, index);
    let actual = status.pending();

    let expected = vec![
        // 0-init applied
        status.available.get(id(1)).unwrap().clone(),
        // 2-two applied
        status.available.get(id(3)).unwrap().clone(),
    ];

    assert_eq!(expected, actual);
}

#[test]
fn pending_never_holds_applied_migrations() {
    let index = index_of(&["30-c", "4-a", "12-b"]);
    let log = MigrationLog::from_rows(vec![record(12, "b", 1), record(99, "gone", 2)]);
    let status = Status::new(log, index);
    let ids: Vec<i64> = status.pending().iter().map(|d| d.id.as_i64()).collect();
    assert_eq!(vec![4, 30], ids);
}

#[test]
fn status_entries() {
    // 0-init and 1-one were applied, then 1-one's directory was deleted.
    let index = index_of(&["0-init", "2-two"]);
    let log = MigrationLog::from_rows(vec![record(0, "init", 10), record(1, "one", 20)]);
    let status = Status::new(log, index);
    let actual = status.full_status();

    assert_eq!(3, actual.len());

    // Applied and still present
    {
        let zero = actual.get(id(0)).unwrap();
        assert_eq!(id(0), zero.id);
        assert_eq!("init", &zero.name);
        assert!(zero.run_at.is_some());
        assert!(zero.directory.is_some());
    }

    // Deleted after applying
    {
        let one = actual.get(id(1)).unwrap();
        assert_eq!(id(1), one.id);
        assert_eq!("one", &one.name);
        assert!(one.run_at.is_some());
        assert_eq!(None, one.directory);
    }

    // Not applied
    {
        let two = actual.get(id(2)).unwrap();
        assert_eq!(id(2), two.id);
        assert_eq!("two", &two.name);
        assert_eq!(None, two.run_at);
        assert_eq!(Some("migrations/2-two".to_string()), two.directory);
    }
}

#[test]
fn applied_name_wins() {
    let index = index_of(&["5-renamed_on_disk"]);
    let log = MigrationLog::from_rows(vec![record(5, "as_applied", 7)]);
    let status = Status::new(log, index);
    let entries = status.full_status();
    let five = entries.get(id(5)).unwrap();
    assert_eq!("as_applied", five.name);
    assert_eq!(Some(Timestamp { seconds: 7, nanos: 0 }), five.run_at);
    assert_eq!(Some("migrations/5-renamed_on_disk".to_string()), five.directory);
}

#[test]
fn undo_target() {
    let status = Status::new(MigrationLog::from_rows(Vec::new()), index_of(&["0-init"]));
    assert!(matches!(status.last_applied_directory(), Err(UndoError::NothingApplied)));

    let log = MigrationLog::from_rows(vec![record(0, "init", 1), record(1, "one", 2)]);
    let status = Status::new(log, index_of(&["0-init"]));
    match status.last_applied_directory() {
        Err(UndoError::MissingFiles(r)) => assert_eq!("one", r.name),
        other => panic!("Unexpected result: {other:?}"),
    }

    let log = MigrationLog::from_rows(vec![record(0, "init", 1), record(1, "one", 2)]);
    let status = Status::new(log, index_of(&["0-init", "1-one"]));
    assert_eq!("migrations/1-one", status.last_applied_directory().unwrap().dir);
}
