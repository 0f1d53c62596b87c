//! Migration directories: how a directory entry names a migration, and the
//! protocol that applies or reverses one migration's script.

use vstd::prelude::*;

use crate::id::{decimal_i64, is_ascii_digit, MigrationId, ParseMigrationIdError};
use crate::text::{chars_of, join, join_path};

verus! {

broadcast use vstd::string::group_string_axioms;

/// The file name of a migration's forward script.
pub open spec fn up_file() -> Seq<char> {
    seq!['u', 'p', '.', 's', 'q', 'l']
}

/// The file name of a migration's reverse script.
pub open spec fn down_file() -> Seq<char> {
    seq!['d', 'o', 'w', 'n', '.', 's', 'q', 'l']
}

/// What a migration directory is, as plain values.
pub struct DirectoryView {
    pub id: int,
    pub name: Seq<char>,
    pub dir: Seq<char>,
    pub up_path: Seq<char>,
    pub down_path: Seq<char>,
}

/// One migration on disk: its identifier, its name, its directory and the
/// paths of its forward and reverse scripts.
#[derive(Debug, PartialEq, Eq, PartialOrd, Ord)]
pub struct MigrationDirectory {
    pub id: MigrationId,
    pub name: String,
    pub dir: String,
    pub up_path: String,
    pub down_path: String,
}

impl View for MigrationDirectory {
    type V = DirectoryView;

    open spec fn view(&self) -> DirectoryView {
        DirectoryView {
            id: self.id@,
            name: self.name@,
            dir: self.dir@,
            up_path: self.up_path@,
            down_path: self.down_path@,
        }
    }
}

impl Clone for MigrationDirectory {
    fn clone(&self) -> (r: Self)
        ensures
            r == *self,
    {
        MigrationDirectory {
            id: self.id,
            name: self.name.clone(),
            dir: self.dir.clone(),
            up_path: self.up_path.clone(),
            down_path: self.down_path.clone(),
        }
    }
}

/// The migration with identifier `id` and name `name` whose directory is
/// `dir`.
pub open spec fn directory_in(dir: Seq<char>, id: int, name: Seq<char>) -> DirectoryView {
    DirectoryView {
        id,
        name,
        dir,
        up_path: join_path(dir, up_file()),
        down_path: join_path(dir, down_file()),
    }
}

/// Does `name` read as decimal digits, then a hyphen at position `k`, then
/// a rest without line breaks?
pub open spec fn splits_at(name: Seq<char>, k: int) -> bool {
    &&& 1 <= k < name.len()
    &&& forall|i: int| 0 <= i < k ==> is_ascii_digit(#[trigger] name[i])
    &&& name[k] == '-'
    &&& forall|i: int| k < i < name.len() ==> #[trigger] name[i] != '\n'
}

/// Where the hyphen of a migration directory name stands, if `name` is one.
pub open spec fn name_split(name: Seq<char>) -> Option<int> {
    if exists|k: int| splits_at(name, k) {
        Some(choose|k: int| splits_at(name, k))
    } else {
        None
    }
}

/// A name splits in at most one place.
pub proof fn lemma_split_unique(name: Seq<char>, k1: int, k2: int)
    requires
        splits_at(name, k1),
        splits_at(name, k2),
    ensures
        k1 == k2,
{
    if k1 < k2 {
        assert(is_ascii_digit(name[k1]));
    } else if k2 < k1 {
        assert(is_ascii_digit(name[k2]));
    }
}

/// The migration that the entry `name` of the directory `root` holds, if it
/// is a directory named `<id>-<name>`.
pub open spec fn entry_directory(root: Seq<char>, name: Seq<char>, is_dir: bool) -> Option<
    DirectoryView,
> {
    if !is_dir {
        None
    } else {
        match name_split(name) {
            None => None,
            Some(k) => match decimal_i64(name.take(k)) {
                None => None,
                Some(v) => Some(directory_in(join_path(root, name), v, name.skip(k + 1))),
            },
        }
    }
}

/// One entry of a listed directory.
#[derive(Debug, Clone, PartialEq, Eq)]
pub struct DirEntry {
    /// The entry's file name.
    pub name: String,
    /// Is the entry a directory?
    pub is_dir: bool,
}

/// Why a directory entry is not a migration directory.
#[derive(Debug)]
pub enum MigrationDirectoryError {
    NotDirectory(String),
    InvalidDirectoryName(String),
    InvalidMigrationId(ParseMigrationIdError),
}

/// The position of the hyphen that splits `name`, if it splits.
fn split_name(name: &Vec<char>) -> (r: Option<usize>)
    ensures
        r is Some <==> name_split(name@) is Some,
        r is Some ==> r->Some_0 as int == name_split(name@)->Some_0,
{
    let n = name.len();
    let mut i: usize = 0;
    while i < n && '0' <= name[i] && name[i] <= '9'
        invariant
            i <= n == name@.len(),
            forall|j: int| 0 <= j < i ==> is_ascii_digit(#[trigger] name@[j]),
        decreases n - i,
    {
        i = i + 1;
    }
    if i == 0 || i >= n || name[i] != '-' {
        proof {
            if exists|k: int| splits_at(name@, k) {
                let k = choose|k: int| splits_at(name@, k);
                if k < i {
                    assert(is_ascii_digit(name@[k]));
                } else if k > i {
                    assert(is_ascii_digit(name@[i as int]));
                }
            }
        }
        return None;
    }
    let mut j: usize = i + 1;
    while j < n
        invariant
            i < j <= n == name@.len(),
            forall|t: int| i < t < j ==> #[trigger] name@[t] != '\n',
        decreases n - j,
    {
        if name[j] == '\n' {
            proof {
                if exists|k: int| splits_at(name@, k) {
                    let k = choose|k: int| splits_at(name@, k);
                    if k < i {
                        assert(is_ascii_digit(name@[k]));
                    } else if k > i {
                        assert(is_ascii_digit(name@[i as int]));
                    }
                    assert(name@[j as int] != '\n');
                }
            }
            return None;
        }
        j = j + 1;
    }
    proof {
        assert(splits_at(name@, i as int));
        let k = choose|k: int| splits_at(name@, k);
        lemma_split_unique(name@, k, i as int);
    }
    Some(i)
}

impl MigrationDirectory {
    /// Reads the migration that the entry `entry` of the directory `root`
    /// names: a directory named `<id>-<name>`, where `<id>` is decimal digits
    /// and `<name>` holds no line break.
    pub fn from_entry(root: &str, entry: &DirEntry) -> (r: Result<
        MigrationDirectory,
        MigrationDirectoryError,
    >)
        ensures
            r is Ok <==> entry_directory(root@, entry.name@, entry.is_dir) is Some,
            r is Ok ==> r->Ok_0@ == entry_directory(root@, entry.name@, entry.is_dir)->Some_0,
            !entry.is_dir ==> (r matches Err(MigrationDirectoryError::NotDirectory(p)) && p@
                == join_path(root@, entry.name@)),
            entry.is_dir && name_split(entry.name@) is None ==> (r matches Err(
                MigrationDirectoryError::InvalidDirectoryName(p),
            ) && p@ == join_path(root@, entry.name@)),
            entry.is_dir && name_split(entry.name@) is Some && decimal_i64(
                entry.name@.take(name_split(entry.name@)->Some_0),
            ) is None ==> r matches Err(
                MigrationDirectoryError::InvalidMigrationId(ParseMigrationIdError::ParseInt(_)),
            ),
    {
        let path = join(root, entry.name.as_str());
        if !entry.is_dir {
            return Err(MigrationDirectoryError::NotDirectory(path));
        }
        let chars = chars_of(entry.name.as_str());
        let k = match split_name(&chars) {
            Some(k) => k,
            None => {
                return Err(MigrationDirectoryError::InvalidDirectoryName(path));
            },
        };
        let n = chars.len();
        let digits = entry.name.as_str().substring_char(0, k);
        let rest = entry.name.as_str().substring_char(k + 1, n);
        assert(digits@ == entry.name@.take(k as int));
        assert(rest@ == entry.name@.skip(k + 1));
        let id = match MigrationId::from_decimal(digits) {
            Ok(id) => id,
            Err(e) => {
                proof {
                    if decimal_i64(digits@) is Some {
                        crate::id::lemma_digits_value_nonneg(digits@);
                    }
                }
                return Err(MigrationDirectoryError::InvalidMigrationId(e));
            },
        };
        proof {
            crate::id::lemma_digits_value_nonneg(digits@);
            reveal_strlit("up.sql");
            reveal_strlit("down.sql");
        }
        let up_path = join(path.as_str(), "up.sql");
        let down_path = join(path.as_str(), "down.sql");
        assert("up.sql"@ =~= up_file());
        assert("down.sql"@ =~= down_file());
        Ok(MigrationDirectory { id, name: rest.to_owned(), dir: path, up_path, down_path })
    }
}

/// The line start that keeps a script out of a transaction.
pub open spec fn no_transaction_marker() -> Seq<char> {
    seq![
        '-', '-', 's', 'q', 'u', 'i', 'l', 'l', ':', 'n', 'o', '-', 't', 'r', 'a', 'n', 's', 'a',
        'c', 't', 'i', 'o', 'n',
    ]
}

/// Does a line of `s` start with the no-transaction marker at position `i`?
pub open spec fn marker_at(s: Seq<char>, i: int) -> bool {
    &&& 0 <= i
    &&& i + no_transaction_marker().len() <= s.len()
    &&& (i == 0 || s[i - 1] == '\n')
    &&& s.subrange(i, i + no_transaction_marker().len()) == no_transaction_marker()
}

/// Does some line of `s` start with the no-transaction marker?
pub open spec fn has_no_transaction_marker(s: Seq<char>) -> bool {
    exists|i: int| marker_at(s, i)
}

/// Does `s` hold `m` at position `i`?
fn holds_at(s: &Vec<char>, i: usize, m: &Vec<char>) -> (r: bool)
    ensures
        r == (i + m@.len() <= s@.len() && s@.subrange(i as int, i + m@.len()) == m@),
{
    if i > s.len() || m.len() > s.len() - i {
        return false;
    }
    let n = s.len();
    let mut j: usize = 0;
    while j < m.len()
        invariant
            n == s@.len(),
            i + m@.len() <= s@.len(),
            j <= m@.len(),
            forall|t: int| 0 <= t < j ==> s@[i + t] == m@[t],
        decreases m@.len() - j,
    {
        if s[i + j] != m[j] {
            assert(s@.subrange(i as int, i + m@.len())[j as int] != m@[j as int]);
            return false;
        }
        j = j + 1;
    }
    assert(s@.subrange(i as int, i + m@.len()) =~= m@);
    true
}

/// Does some line of `sql` start with `--squill:no-transaction`? Such a
/// script runs outside a transaction.
pub fn skip_transaction(sql: &str) -> (r: bool)
    ensures
        r == has_no_transaction_marker(sql@),
{
    let s = chars_of(sql);
    let marker_text = "--squill:no-transaction";
    proof {
        reveal_strlit("--squill:no-transaction");
    }
    let m = chars_of(marker_text);
    assert(m@ =~= no_transaction_marker());
    let mut i: usize = 0;
    while i < s.len()
        invariant
            s@ == sql@,
            m@ == no_transaction_marker(),
            i <= s@.len(),
            forall|t: int| 0 <= t < i ==> !marker_at(sql@, t),
        decreases s@.len() - i,
    {
        if (i == 0 || s[i - 1] == '\n') && holds_at(&s, i, &m) {
            assert(marker_at(sql@, i as int));
            return true;
        }
        i = i + 1;
    }
    proof {
        assert forall|t: int| !marker_at(sql@, t) by {
            if 0 <= t && t >= s@.len() {
                assert(t + no_transaction_marker().len() > s@.len());
            }
        }
    }
    false
}

/// The bookkeeping call that shares a transaction with a script.
#[derive(Debug, PartialEq, Eq)]
pub enum Bookkeeping {
    /// Inserts the tracking row of the migration `id` named `name`.
    Claim { id: MigrationId, name: String },
    /// Deletes the tracking row of the migration `id`.
    Unclaim { id: MigrationId },
}

/// How a script is run.
#[derive(Debug, PartialEq, Eq)]
pub enum Execution {
    /// The script alone, outside any transaction.
    Direct(String),
    /// The bookkeeping call, then the script, in one transaction.
    Transaction(Bookkeeping, String),
}

/// How the script `sql` runs, given the bookkeeping call that tracks it.
pub open spec fn execution_of(sql: String, bookkeeping: Bookkeeping) -> Execution {
    if has_no_transaction_marker(sql@) {
        Execution::Direct(sql)
    } else {
        Execution::Transaction(bookkeeping, sql)
    }
}

/// What happened since the last step of applying or reversing a migration.
#[derive(Debug)]
pub enum Event {
    /// Nothing yet.
    Start,
    /// The script was read, or reading it failed.
    Read(Result<String, std::io::Error>),
    /// The script was run, or running it failed.
    Executed(Result<(), sqlx::Error>),
}

/// What to do next when applying or reversing a migration.
#[derive(Debug)]
pub enum Step {
    /// Read the script at this path.
    Read(String),
    /// Run the script.
    Execute(Execution),
    /// Stop, with this outcome.
    Done(Result<(), MigrateError>),
}

/// Why applying or reversing a migration failed.
#[derive(Debug)]
pub enum MigrateError {
    /// Its script could not be read.
    Read { path: String, err: std::io::Error },
    /// Its script, or the bookkeeping call, failed in the database.
    Execute(sqlx::Error),
    /// Reversals are turned off.
    OnlyUp,
}

impl MigrationDirectory {
    /// The next step of applying this migration after `event`: read the
    /// forward script, then run it with a claim of the migration's tracking
    /// row in one transaction, or alone if it carries the no-transaction
    /// marker.
    pub fn up(&self, event: Event) -> (r: Step)
        ensures
            event is Start ==> r == Step::Read(self.up_path),
            event matches Event::Read(Ok(sql)) ==> r == Step::Execute(
                execution_of(sql, Bookkeeping::Claim { id: self.id, name: self.name }),
            ),
            event matches Event::Read(Err(e)) ==> r == Step::Done(
                Err(MigrateError::Read { path: self.up_path, err: e }),
            ),
            event matches Event::Executed(Ok(_)) ==> r == Step::Done(Ok(())),
            event matches Event::Executed(Err(e)) ==> r == Step::Done(Err(MigrateError::Execute(e))),
    {
        match event {
            Event::Start => Step::Read(self.up_path.clone()),
            Event::Read(Ok(sql)) => {
                let claim = Bookkeeping::Claim { id: self.id, name: self.name.clone() };
                if skip_transaction(sql.as_str()) {
                    Step::Execute(Execution::Direct(sql))
                } else {
                    Step::Execute(Execution::Transaction(claim, sql))
                }
            },
            Event::Read(Err(err)) => Step::Done(
                Err(MigrateError::Read { path: self.up_path.clone(), err }),
            ),
            Event::Executed(Ok(())) => Step::Done(Ok(())),
            Event::Executed(Err(e)) => Step::Done(Err(MigrateError::Execute(e))),
        }
    }

    /// The next step of reversing this migration after `event`. With
    /// `only_up` it stops at once with `OnlyUp`, before any I/O. Otherwise
    /// it reads the reverse script, then runs it with an unclaim of the
    /// migration's tracking row in one transaction, or alone if it carries the
    /// no-transaction marker.
    pub fn down(&self, only_up: bool, event: Event) -> (r: Step)
        ensures
            only_up ==> r == Step::Done(Err(MigrateError::OnlyUp)),
            !only_up && event is Start ==> r == Step::Read(self.down_path),
            !only_up ==> (event matches Event::Read(Ok(sql)) ==> r == Step::Execute(
                execution_of(sql, Bookkeeping::Unclaim { id: self.id }),
            )),
            !only_up ==> (event matches Event::Read(Err(e)) ==> r == Step::Done(
                Err(MigrateError::Read { path: self.down_path, err: e }),
            )),
            !only_up ==> (event matches Event::Executed(Ok(_)) ==> r == Step::Done(Ok(()))),
            !only_up ==> (event matches Event::Executed(Err(e)) ==> r == Step::Done(
                Err(MigrateError::Execute(e)),
            )),
    {
        if only_up {
            return Step::Done(Err(MigrateError::OnlyUp));
        }
        match event {
            Event::Start => Step::Read(self.down_path.clone()),
            Event::Read(Ok(sql)) => {
                let unclaim = Bookkeeping::Unclaim { id: self.id };
                if skip_transaction(sql.as_str()) {
                    Step::Execute(Execution::Direct(sql))
                } else {
                    Step::Execute(Execution::Transaction(unclaim, sql))
                }
            },
            Event::Read(Err(err)) => Step::Done(
                Err(MigrateError::Read { path: self.down_path.clone(), err }),
            ),
            Event::Executed(Ok(())) => Step::Done(Ok(())),
            Event::Executed(Err(e)) => Step::Done(Err(MigrateError::Execute(e))),
        }
    }
}

} // verus!
