//! Ordered, reversible schema migrations: discovery of migration directories,
//! the applied-migration log, their reconciliation into a status, and the
//! up/down protocol that ties each script to its tracking row.

pub mod cli;
pub mod db;
pub mod foreign;
pub mod id;
pub mod idmap;
pub mod index;
pub mod migrate;
pub mod slug;
pub mod status;
pub mod template;
pub mod text;

pub use crate::db::{MigrationLog, MigrationRecord, QueryError, Timestamp};
pub use crate::id::{MigrationId, ParseMigrationIdError};
pub use crate::idmap::IdMap;
pub use crate::index::{
    CreateMigrationError, IndexError, IoError, Listing, MigrationIndex, MigrationParams, Rename,
};
pub use crate::migrate::{
    skip_transaction, Bookkeeping, DirEntry, Event, Execution, MigrateError, MigrationDirectory,
    MigrationDirectoryError, Step,
};
pub use crate::slug::slugify;
pub use crate::status::{Status, StatusEntry, UndoError};
pub use crate::template::{
    TemplateContext, TemplateDirError, TemplateGroup, TemplateId, TemplateReadError,
};
