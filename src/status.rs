//! The status of each migration: the applied log and the index of migration
//! directories, merged by identifier.

use vstd::prelude::*;

use crate::db::{is_last, MigrationLog, MigrationRecord, Timestamp};
use crate::id::MigrationId;
use crate::idmap::IdMap;
use crate::index::{dirs_ascending, lemma_lookup_at, lookup, MigrationIndex};
use crate::migrate::MigrationDirectory;

verus! {

/// What is known of one migration.
#[derive(Debug, PartialEq, Eq)]
pub struct StatusEntry {
    pub id: MigrationId,
    /// The applied name when it was applied, else the name on disk.
    pub name: String,
    /// When it ran, if it was applied.
    pub run_at: Option<Timestamp>,
    /// Its directory, if it is on disk.
    pub directory: Option<String>,
}

/// The status entry of a migration from its applied record and its
/// directory, at least one of which is there.
pub open spec fn status_entry(row: Option<MigrationRecord>, dir: Option<MigrationDirectory>) -> StatusEntry {
    match row {
        Some(row) => StatusEntry {
            id: row.id,
            name: row.name,
            run_at: Some(row.run_at),
            directory: match dir {
                Some(d) => Some(d.dir),
                None => None,
            },
        },
        None => StatusEntry {
            id: dir->Some_0.id,
            name: dir->Some_0.name,
            run_at: None,
            directory: Some(dir->Some_0.dir),
        },
    }
}

/// The migrations on disk of `s` that `applied` does not hold, in order.
pub open spec fn not_applied(s: Seq<MigrationDirectory>, applied: Map<int, MigrationRecord>) -> Seq<
    MigrationDirectory,
> {
    s.filter(|d: MigrationDirectory| !applied.contains_key(d.id@))
}

/// The record that `applied` holds for `k`, if any.
pub open spec fn applied_record(applied: Map<int, MigrationRecord>, k: int) -> Option<MigrationRecord> {
    if applied.contains_key(k) {
        Some(applied[k])
    } else {
        None
    }
}

/// The status entry of a migration from its applied record and its
/// directory.
fn entry_of(row: Option<MigrationRecord>, dir: Option<MigrationDirectory>) -> (r: StatusEntry)
    requires
        row is Some || dir is Some,
    ensures
        r == status_entry(row, dir),
{
    match row {
        Some(row) => StatusEntry {
            id: row.id,
            name: row.name,
            run_at: Some(row.run_at),
            directory: match dir {
                Some(d) => Some(d.dir),
                None => None,
            },
        },
        None => {
            let d = dir.unwrap();
            StatusEntry { id: d.id, name: d.name, run_at: None, directory: Some(d.dir) }
        },
    }
}

/// Keeping some elements of an ascending list keeps it ascending.
proof fn lemma_filter_ascending(s: Seq<MigrationDirectory>, p: spec_fn(MigrationDirectory) -> bool)
    requires
        dirs_ascending(s),
    ensures
        dirs_ascending(s.filter(p)),
    decreases s.len(),
{
    reveal(Seq::filter);
    if s.len() > 0 {
        let init = s.drop_last();
        lemma_filter_ascending(init, p);
        if p(s.last()) {
            let f = init.filter(p);
            assert forall|i: int| 0 <= i < f.len() implies (#[trigger] f[i]).id@ < s.last().id@ by {
                assert(init.filter(p).contains(f[i]));
                init.lemma_filter_contains_rev(p, f[i]);
                let j = choose|j: int| 0 <= j < init.len() && init[j] == f[i];
                assert(s[j] == init[j]);
            }
        }
    }
}

/// Pending migrations are never applied ones; every migration on disk that
/// was not applied is pending; and they come in strictly ascending order of
/// identifier.
pub proof fn law_pending(status: Status)
    requires
        status.wf(),
    ensures
        forall|i: int|
            0 <= i < not_applied(status.available.entries(), status.applied.as_map()).len()
                ==> !status.applied.as_map().contains_key(
                (#[trigger] not_applied(status.available.entries(), status.applied.as_map())[i]).id@,
            ),
        forall|j: int|
            0 <= j < status.available.entries().len() && !status.applied.as_map().contains_key(
                (#[trigger] status.available.entries()[j]).id@,
            ) ==> not_applied(status.available.entries(), status.applied.as_map()).contains(
                status.available.entries()[j],
            ),
        dirs_ascending(not_applied(status.available.entries(), status.applied.as_map())),
{
    let s = status.available.entries();
    let m = status.applied.as_map();
    let p = |d: MigrationDirectory| !m.contains_key(d.id@);
    assert forall|i: int| 0 <= i < s.filter(p).len() implies !m.contains_key(
        (#[trigger] s.filter(p)[i]).id@,
    ) by {
        s.lemma_filter_pred(p, i);
    }
    assert forall|j: int| 0 <= j < s.len() && !m.contains_key((#[trigger] s[j]).id@) implies s.filter(
        p,
    ).contains(s[j]) by {
        s.lemma_filter_contains(p, j);
    }
    status.available.lemma_ascending();
    lemma_filter_ascending(s, p);
}

/// Why there is no migration to reverse.
#[derive(Debug)]
pub enum UndoError {
    /// No migration was applied.
    NothingApplied,
    /// The migration applied last has no directory on disk.
    MissingFiles(MigrationRecord),
}

/// The applied log and the migrations on disk, read at about the same time.
#[derive(Debug)]
pub struct Status {
    pub applied: MigrationLog,
    pub available: MigrationIndex,
}

impl Status {
    /// Both sources are well formed.
    pub open spec fn wf(&self) -> bool {
        self.applied.wf() && self.available.wf()
    }

    /// The status of the applied log `applied` and the index `available`.
    pub fn new(applied: MigrationLog, available: MigrationIndex) -> (r: Status)
        ensures
            r.applied == applied,
            r.available == available,
    {
        Status { applied, available }
    }

    /// The migrations on disk that were not applied, in ascending order of
    /// identifier: the order in which to apply them.
    pub fn pending(&self) -> (r: Vec<MigrationDirectory>)
        requires
            self.wf(),
        ensures
            r@ == not_applied(self.available.entries(), self.applied.as_map()),
    {
        let ms = self.available.iter();
        let ghost s = self.available.entries();
        let ghost p = |d: MigrationDirectory| !self.applied.as_map().contains_key(d.id@);
        let mut r: Vec<MigrationDirectory> = Vec::new();
        let mut i: usize = 0;
        while i < ms.len()
            invariant
                self.wf(),
                ms@.len() == s.len(),
                forall|j: int| 0 <= j < s.len() ==> *(#[trigger] ms@[j]) == s[j],
                i <= s.len(),
                p == (|d: MigrationDirectory| !self.applied.as_map().contains_key(d.id@)),
                r@ == s.take(i as int).filter(p),
            decreases s.len() - i,
        {
            proof {
                reveal(Seq::filter);
                assert(s.take(i + 1).drop_last() =~= s.take(i as int));
            }
            let m = ms[i];
            if !self.applied.contains(m.id) {
                r.push(m.clone());
            }
            i = i + 1;
        }
        assert(s.take(i as int) =~= s);
        r
    }

    /// The directory of the migration applied last, which undo and redo
    /// reverse.
    pub fn last_applied_directory(&self) -> (r: Result<MigrationDirectory, UndoError>)
        requires
            self.wf(),
        ensures
            r matches Err(UndoError::NothingApplied) <==> self.applied.records().len() == 0,
            r matches Ok(d) ==> exists|x: MigrationRecord|
                is_last(self.applied.records(), x) && lookup(self.available.entries(), x.id@)
                    == Some(d),
            r matches Err(UndoError::MissingFiles(x)) ==> is_last(self.applied.records(), x)
                && lookup(self.available.entries(), x.id@) is None,
    {
        let last = match self.applied.last() {
            Some(x) => x,
            None => {
                return Err(UndoError::NothingApplied);
            },
        };
        match self.available.get(last.id) {
            Some(d) => Ok(d.clone()),
            None => Err(UndoError::MissingFiles(last)),
        }
    }

    /// Every migration that is applied or on disk, by identifier: applied and
    /// on disk, applied with its directory gone, or on disk and not applied.
    pub fn full_status(&self) -> (r: IdMap<StatusEntry>)
        requires
            self.wf(),
        ensures
            r.wf(),
            forall|k: int| #[trigger]
                r.as_map().contains_key(k) <==> (self.applied.as_map().contains_key(k) || lookup(
                    self.available.entries(),
                    k,
                ) is Some),
            forall|k: int| #[trigger]
                r.as_map().contains_key(k) ==> r.as_map()[k] == status_entry(
                    applied_record(self.applied.as_map(), k),
                    lookup(self.available.entries(), k),
                ),
    {
        let ghost amap = self.applied.as_map();
        let ghost es = self.available.entries();
        proof {
            self.applied.lemma_views();
            self.available.lemma_ascending();
        }
        let mut out: IdMap<StatusEntry> = IdMap::new();
        let rows = self.applied.iter();
        let ghost rs = self.applied.records();
        let mut i: usize = 0;
        while i < rows.len()
            invariant
                self.wf(),
                amap == self.applied.as_map(),
                es == self.available.entries(),
                rs == self.applied.records(),
                rows@.len() == rs.len(),
                forall|j: int| 0 <= j < rs.len() ==> *(#[trigger] rows@[j]) == rs[j],
                forall|j: int|
                    0 <= j < rs.len() ==> amap.contains_key((#[trigger] rs[j]).id@) && amap[rs[j].id@]
                        == rs[j],
                forall|k: int| #[trigger] amap.contains_key(k) ==> exists|j: int|
                    0 <= j < rs.len() && (#[trigger] rs[j]).id@ == k,
                i <= rs.len(),
                out.wf(),
                forall|k: int| #[trigger]
                    out.as_map().contains_key(k) <==> exists|j: int|
                        0 <= j < i && (#[trigger] rs[j]).id@ == k,
                forall|k: int| #[trigger]
                    out.as_map().contains_key(k) ==> out.as_map()[k] == status_entry(
                        applied_record(amap, k),
                        lookup(es, k),
                    ),
            decreases rs.len() - i,
        {
            let row = rows[i];
            let dir = match self.available.get(row.id) {
                Some(d) => Some(d.clone()),
                None => None,
            };
            let e = entry_of(Some(row.clone()), dir);
            out.insert(row.id, e);
            i = i + 1;
        }
        let ms = self.available.iter();
        let mut i: usize = 0;
        while i < ms.len()
            invariant
                self.wf(),
                amap == self.applied.as_map(),
                es == self.available.entries(),
                dirs_ascending(es),
                ms@.len() == es.len(),
                forall|j: int| 0 <= j < es.len() ==> *(#[trigger] ms@[j]) == es[j],
                i <= es.len(),
                out.wf(),
                forall|k: int| #[trigger]
                    out.as_map().contains_key(k) <==> (amap.contains_key(k) || exists|j: int|
                        0 <= j < i && (#[trigger] es[j]).id@ == k),
                forall|k: int| #[trigger]
                    out.as_map().contains_key(k) ==> out.as_map()[k] == status_entry(
                        applied_record(amap, k),
                        lookup(es, k),
                    ),
            decreases es.len() - i,
        {
            let m = ms[i];
            if !self.applied.contains(m.id) {
                proof {
                    lemma_lookup_at(es, i as int);
                }
                let e = entry_of(None, Some(m.clone()));
                out.insert(m.id, e);
            }
            i = i + 1;
        }
        proof {
            assert forall|k: int| lookup(es, k) is Some implies #[trigger] out.as_map().contains_key(k) by {
                let j = choose|j: int| 0 <= j < es.len() && (#[trigger] es[j]).id@ == k;
            }
        }
        out
    }
}

} // verus!
