use squill::{
    CreateMigrationError, DirEntry, IndexError, IoError, Listing, MigrationDirectory,
    MigrationDirectoryError, MigrationId, MigrationIndex, MigrationParams,
    ParseMigrationIdError, Rename,
};

const ROOT: &str = "migrations";

fn dir(name: &str) -> DirEntry {
    DirEntry { name: name.to_string(), is_dir: true }
}

fn file(name: &str) -> DirEntry {
    DirEntry { name: name.to_string(), is_dir: false }
}

fn id(n: i64) -> MigrationId {
    MigrationId::new(n).unwrap()
}

fn index_of(entries: Vec<DirEntry>) -> MigrationIndex {
    MigrationIndex::new(ROOT, Listing::Entries(entries)).unwrap()
}

fn realpath(base: &str) -> String {
    format!("{ROOT}/{base}")
}

fn directory(n: i64, name: &str, base: &str) -> MigrationDirectory {
    MigrationDirectory {
        id: id(n),
        name: name.to_string(),
        dir: realpath(base),
        up_path: realpath(&format!("{base}/up.sql")),
        down_path: realpath(&format!("{base}/down.sql")),
    }
}

fn params(n: i64, name: &str, up: &str, down: &str) -> MigrationParams {
    MigrationParams {
        id: id(n),
        name: name.to_string(),
        up_sql: up.to_string(),
        down_sql: down.to_string(),
    }
}

#[test]
fn empty() {
    let index = index_of(Vec::new());
    assert_eq!(0, index.len(), "{index:?}");
    assert!(index.iter().is_empty());
}

#[test]
fn no_root_directory() {
    let index = MigrationIndex::new(ROOT, Listing::Missing).unwrap();

    assert_eq!(ROOT, index.dir());
    assert_eq!(0, index.len());
}

#[test]
fn unreadable_root_directory() {
    let err = std::io::Error::new(std::io::ErrorKind::PermissionDenied, "denied");
    match MigrationIndex::new(ROOT, Listing::Failed(err)) {
        Err(IndexError::ReadDir { path, err }) => {
            assert_eq!(ROOT, path);
            assert_eq!(std::io::ErrorKind::PermissionDenied, err.kind());
        }
        other => panic!("Unexpected result: {other:?}"),
    }
}

#[test]
fn duplicate_migration_ids() {
    match MigrationIndex::new(ROOT, Listing::Entries(vec![dir("123-first"), dir("123-second")])) {
        Err(IndexError::MultipleMigrationDirectories(map)) => {
            let mut expected = vec![
                directory(123, "first", "123-first"),
                directory(123, "second", "123-second"),
            ];
            expected.sort();

            let mut actual = map.get(id(123)).unwrap().clone();
            actual.sort();

            assert_eq!(expected, actual);
        }
        Ok(index) => panic!("Index built from invalid state: {index:?}"),
        Err(err) => panic!("{err:?}"),
    }
}

#[test]
fn every_collision_is_reported() {
    let entries = vec![
        dir("7-a"),
        dir("5-b"),
        dir("07-c"),
        dir("9-d"),
        dir("5-e"),
        dir("007-f"),
    ];
    match MigrationIndex::new(ROOT, Listing::Entries(entries)) {
        Err(IndexError::MultipleMigrationDirectories(map)) => {
            assert_eq!(2, map.len());
            assert_eq!(vec![id(5), id(7)], map.keys());
            let sevens: Vec<String> = map.get(id(7)).unwrap().iter().map(|d| d.name.clone()).collect();
            assert_eq!(vec!["a", "c", "f"], sevens);
            let fives: Vec<String> = map.get(id(5)).unwrap().iter().map(|d| d.name.clone()).collect();
            assert_eq!(vec!["b", "e"], fives);
            assert!(map.get(id(9)).is_none());
        }
        other => panic!("Unexpected result: {other:?}"),
    }
}

#[test]
fn extra_files() {
    let index = index_of(vec![dir("not-a-migration-dir"), file(".gitignore"), file("12-file")]);
    assert_eq!(0, index.len(), "{index:?}");
}

#[test]
fn index_counts_valid_directories_in_ascending_order() {
    let index = index_of(vec![
        dir("34567-profiles"),
        file("README"),
        dir("1-users"),
        dir(".git"),
        dir("200-passwords"),
        dir("-x"),
        dir("99999999999999999999-too-big"),
    ]);
    assert_eq!(3, index.len());
    let ids: Vec<i64> = index.iter().iter().map(|d| d.id.as_i64()).collect();
    assert_eq!(vec![1, 200, 34567], ids);
    assert_eq!(&directory(200, "passwords", "200-passwords"), index.get(id(200)).unwrap());
    assert!(index.get(id(2)).is_none());
    assert!(index.contains(id(1)));
}

#[test]
fn directory_names() {
    let d = MigrationDirectory::from_entry(ROOT, &dir("12-add-user-table")).unwrap();
    assert_eq!(12, d.id.as_i64());
    assert_eq!("add-user-table", d.name);
    assert_eq!("migrations/12-add-user-table", d.dir);
    assert_eq!("migrations/12-add-user-table/up.sql", d.up_path);
    assert_eq!("migrations/12-add-user-table/down.sql", d.down_path);

    let d = MigrationDirectory::from_entry("root/", &dir("0-")).unwrap();
    assert_eq!(0, d.id.as_i64());
    assert_eq!("", d.name);
    assert_eq!("root/0-", d.dir);

    let d = MigrationDirectory::from_entry("", &dir("3-x")).unwrap();
    assert_eq!("3-x/up.sql", d.up_path);

    match MigrationDirectory::from_entry(ROOT, &file("1-file")) {
        Err(MigrationDirectoryError::NotDirectory(p)) => assert_eq!("migrations/1-file", p),
        other => panic!("Unexpected result: {other:?}"),
    }
    for name in ["init", "-1-x", "12x-y", "12", "1-line\nbreak"] {
        match MigrationDirectory::from_entry(ROOT, &dir(name)) {
            Err(MigrationDirectoryError::InvalidDirectoryName(p)) => assert_eq!(realpath(name), p),
            other => panic!("Unexpected result for {name:?}: {other:?}"),
        }
    }
    match MigrationDirectory::from_entry(ROOT, &dir("99999999999999999999-big")) {
        Err(MigrationDirectoryError::InvalidMigrationId(ParseMigrationIdError::ParseInt(_))) => (),
        other => panic!("Unexpected result: {other:?}"),
    }
}

#[test]
fn migration_id_already_exists() {
    let mut index = index_of(vec![dir("123-first")]);

    let params = params(123, "second", "-- 123-second: up", "-- 123-second: down");

    match index.create(params, Ok(())) {
        Err(CreateMigrationError::ExistingDirectory(migration)) => {
            assert_eq!(id(123), migration.id);
            assert_eq!("first", &migration.name);
        }
        Ok(files) => panic!("Colliding migration files created: {files:?}"),
        Err(err) => panic!("{err:?}"),
    };
    assert_eq!(1, index.len());
}

#[test]
fn create_migration() {
    let mut index = index_of(Vec::new());

    let params = params(123, "first", "-- 123-first: up", "-- 123-first: down");

    let planned = index.planned(&params).unwrap();
    assert_eq!(realpath("123-first/up.sql"), planned.up_path);
    assert_eq!(realpath("123-first/down.sql"), planned.down_path);

    let files = index.create(params.clone(), Ok(())).unwrap();
    assert_eq!(planned, files);

    let migration = index.get(id(123)).unwrap();

    assert_eq!("first", &migration.name);
    assert_eq!(realpath("123-first"), migration.dir);
}

#[test]
fn create_migration_write_failure() {
    let mut index = index_of(Vec::new());
    let params = params(5, "five", "up", "down");
    let path = realpath("5-five");
    let err = std::io::Error::new(std::io::ErrorKind::Other, "disk full");
    match index.create(params, Err(IoError::CreateDir(path.clone(), err))) {
        Err(CreateMigrationError::Io(IoError::CreateDir(p, _))) => assert_eq!(path, p),
        other => panic!("Unexpected result: {other:?}"),
    }
    assert_eq!(0, index.len());
}

#[test]
fn created_migrations_stay_in_order() {
    let mut index = index_of(vec![dir("0-init")]);
    for (n, name) in [(1, "users"), (34567, "profiles"), (200, "passwords")] {
        index.create(params(n, name, "", ""), Ok(())).unwrap();
    }
    let ids: Vec<i64> = index.iter().iter().map(|d| d.id.as_i64()).collect();
    assert_eq!(vec![0, 1, 200, 34567], ids);
}

#[test]
fn align_id_add_padding() {
    let index = index_of(vec![
        dir("0-init"),
        dir("1-create_users"),
        dir("02-manually_padded"),
        dir("1234567890-unix_timestamp"),
    ]);

    let mut actual = index.align_ids();
    actual.sort();

    let mut expected = vec![
        Rename { from: realpath("0-init"), to: realpath("0000000000-init") },
        Rename { from: realpath("1-create_users"), to: realpath("0000000001-create_users") },
        Rename {
            from: realpath("02-manually_padded"),
            to: realpath("0000000002-manually_padded"),
        },
        Rename {
            from: realpath("1234567890-unix_timestamp"),
            to: realpath("1234567890-unix_timestamp"),
        },
    ];
    expected.sort();

    assert_eq!(expected, actual);
}

#[test]
fn align_ids_to_widest() {
    let index = index_of(vec![dir("7-a"), dir("123-b"), dir("0045-c")]);
    let actual = index.align_ids();
    let expected = vec![
        Rename { from: realpath("7-a"), to: realpath("007-a") },
        Rename { from: realpath("0045-c"), to: realpath("045-c") },
        Rename { from: realpath("123-b"), to: realpath("123-b") },
    ];
    assert_eq!(expected, actual);
}

#[test]
fn align_ids_on_empty_index() {
    assert!(index_of(Vec::new()).align_ids().is_empty());
}
