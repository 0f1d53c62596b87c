use squill::{MigrationId, ParseMigrationIdError};

#[test]
fn migrate_migration_ids() {
    MigrationId::try_from(0).unwrap();
    MigrationId::try_from(1).unwrap();
    MigrationId::try_from(1234567890).unwrap();
    MigrationId::try_from(i64::MAX).unwrap();

    match MigrationId::try_from(-1) {
        Err(ParseMigrationIdError::Negative(_)) => (),

        Ok(id) => panic!("Unexpected success: {id:?}"),
        Err(err) => panic!("Unexpected error: {:?}", err),
    }

    match "-1".parse::<MigrationId>() {
        Err(ParseMigrationIdError::Negative(_)) => (),

        Ok(id) => panic!("Unexpected success: {id:?}"),
        Err(err) => panic!("Unexpected error: {:?}", err),
    }

    match "0x10".parse::<MigrationId>() {
        Err(ParseMigrationIdError::ParseInt(_)) => (),

        Ok(id) => panic!("Unexpected success: {id:?}"),
        Err(err) => panic!("Unexpected error: {:?}", err),
    }

    match "a0".parse::<MigrationId>() {
        Err(ParseMigrationIdError::ParseInt(_)) => (),

        Ok(id) => panic!("Unexpected success: {id:?}"),
        Err(err) => panic!("Unexpected error: {:?}", err),
    }
}

#[test]
fn identifier_reads_back_its_value() {
    for n in [0i64, 1, 7, 10, 99, 1234567890, i64::MAX] {
        let id = MigrationId::new(n).unwrap();
        assert_eq!(n, id.as_i64());
        assert_eq!(n, i64::from(id));
    }
    for n in [-1i64, -10, i64::MIN] {
        match MigrationId::new(n) {
            Err(ParseMigrationIdError::Negative(v)) => assert_eq!(n, v),
            other => panic!("Unexpected result: {other:?}"),
        }
    }
}

#[test]
fn identifier_from_text() {
    assert_eq!(123, "123".parse::<MigrationId>().unwrap().as_i64());
    assert_eq!(5, "+5".parse::<MigrationId>().unwrap().as_i64());
    assert_eq!(0, "-0".parse::<MigrationId>().unwrap().as_i64());
    assert_eq!(2, "0002".parse::<MigrationId>().unwrap().as_i64());
    assert_eq!(i64::MAX, "9223372036854775807".parse::<MigrationId>().unwrap().as_i64());
    for bad in ["", " 1", "1 ", "1_000", "9223372036854775808", "+", "-"] {
        match MigrationId::from_decimal(bad) {
            Err(ParseMigrationIdError::ParseInt(_)) => (),
            other => panic!("Unexpected result for {bad:?}: {other:?}"),
        }
    }
    match MigrationId::from_decimal("-42") {
        Err(ParseMigrationIdError::Negative(v)) => assert_eq!(-42, v),
        other => panic!("Unexpected result: {other:?}"),
    }
}

#[test]
fn identifier_width() {
    let width = |n: i64| MigrationId::new(n).unwrap().width();
    assert_eq!(1, width(0));
    assert_eq!(1, width(9));
    assert_eq!(2, width(10));
    assert_eq!(3, width(200));
    assert_eq!(5, width(34567));
    assert_eq!(10, width(1234567890));
    assert_eq!(19, width(i64::MAX));
}

#[test]
fn identifiers_order_as_integers() {
    let a = MigrationId::new(2).unwrap();
    let b = MigrationId::new(10).unwrap();
    assert!(a < b);
    assert_eq!(a, MigrationId::new(2).unwrap());
}
