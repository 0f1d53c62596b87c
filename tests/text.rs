use squill::cli::CliConfig;
use squill::{slugify, MigrationId, TemplateGroup, TemplateId};

#[test]
fn lib_migration_slugs() {
    assert_eq!("exactly_what_i_typed", slugify("exactly_what_i_typed"));
    assert_eq!(
        "hyphens_become_underscores",
        slugify("hyphens_become_underscores")
    );
    assert_eq!(
        "compress_all_spacing",
        slugify(" compress\t  \r\n all      spacing   ")
    );
    assert_eq!(
        "no_special_characters",
        slugify(".no//special. .characters~")
    );
    assert_eq!(
        "windows_path_separators",
        slugify("windows//path\\separators")
    );
}

#[test]
fn slug_edge_cases() {
    assert_eq!("", slugify(""));
    assert_eq!("", slugify(" -._/\\~ "));
    assert_eq!("a_b", slugify("a-b"));
    assert_eq!("a_b", slugify("a\u{3000}\u{a0}b"));
    assert_eq!("x", slugify("\u{2028}x\u{85}"));
    assert_eq!("Ünïcode_name", slugify("Ünïcode name"));
    assert_eq!("a+b", slugify("a+b"));
}

#[test]
fn template_names() {
    assert_eq!("init.up.sql", TemplateId::InitUp.name());
    assert_eq!("init.down.sql", TemplateId::InitDown.name());
    assert_eq!("new.up.sql", TemplateId::NewUp.name());
    assert_eq!("new.down.sql", TemplateId::NewDown.name());
    assert_eq!("new.up.sql", TemplateGroup::Default.join(TemplateId::NewUp));
    assert_eq!(
        "create_table/new.down.sql",
        TemplateGroup::Named("create_table".to_string()).join(TemplateId::NewDown)
    );
    assert_eq!(TemplateGroup::Default, TemplateGroup::default());
}

#[test]
fn verbosity_levels() {
    let config = |v: Option<u8>, verbosity: Option<u8>| CliConfig {
        database_url: None,
        migrations_dir: None,
        templates_dir: None,
        v,
        verbosity,
    };
    assert_eq!(1, config(None, None).verbosity());
    assert_eq!(3, config(Some(2), None).verbosity());
    assert_eq!(0, config(None, Some(0)).verbosity());
    assert_eq!(4, config(Some(1), Some(4)).verbosity());
}

#[test]
fn padded_identifier_text() {
    assert_eq!("0000000034567", squill::text::zero_padded_decimal(34567, 13));
    assert_eq!("34567", squill::text::zero_padded_decimal(34567, 3));
    assert_eq!("0", squill::text::zero_padded_decimal(0, 0));
    assert_eq!("a/b", squill::text::join("a", "b"));
    assert_eq!("a/b", squill::text::join("a/", "b"));
    assert_eq!("b", squill::text::join("", "b"));
    assert_eq!(19, MigrationId::new(i64::MAX).unwrap().width());
}
