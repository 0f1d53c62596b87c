//! The index of migration directories found under a root directory.

use vstd::prelude::*;

use crate::id::{decimal_width, MigrationId};
use crate::idmap::{lemma_map_of_all, lemma_map_of_at, IdMap};
use crate::migrate::{directory_in, entry_directory, DirEntry, DirectoryView, MigrationDirectory};
use crate::text::{
    join, join_path, lemma_decimal_len, lemma_zero_padded_injective, zero_padded,
    zero_padded_decimal,
};

verus! {

/// What listing the root directory gave.
#[derive(Debug)]
pub enum Listing {
    /// The root directory does not exist.
    Missing,
    /// Its entries, in the order in which they were listed.
    Entries(Vec<DirEntry>),
    /// Listing it failed.
    Failed(std::io::Error),
}

/// The migration directories among the entries `entries` of `root`, in the
/// order in which they were listed.
pub open spec fn listed_directories(root: Seq<char>, entries: Seq<DirEntry>) -> Seq<
    DirectoryView,
> {
    entries.filter_map(|e: DirEntry| entry_directory(root, e.name@, e.is_dir))
}

/// Do two of `ds` share the identifier `k`?
pub open spec fn shared_id(ds: Seq<DirectoryView>, k: int) -> bool {
    exists|i: int, j: int|
        0 <= i < ds.len() && 0 <= j < ds.len() && i != j && (#[trigger] ds[i]).id == k && (
        #[trigger] ds[j]).id == k
}

/// Do all of `ds` have different identifiers?
pub open spec fn ids_unique(ds: Seq<DirectoryView>) -> bool {
    forall|i: int, j: int|
        0 <= i < ds.len() && 0 <= j < ds.len() && i != j ==> (#[trigger] ds[i]).id != (
        #[trigger] ds[j]).id
}

/// The directories of `ds` with identifier `k`, in order.
pub open spec fn with_id(ds: Seq<DirectoryView>, k: int) -> Seq<DirectoryView> {
    ds.filter(|d: DirectoryView| d.id == k)
}

/// Are the identifiers of `s` strictly ascending?
pub open spec fn dirs_ascending(s: Seq<MigrationDirectory>) -> bool {
    forall|i: int, j: int| 0 <= i < j < s.len() ==> (#[trigger] s[i]).id@ < (#[trigger] s[j]).id@
}

/// The views of `s`.
pub open spec fn views(s: Seq<MigrationDirectory>) -> Seq<DirectoryView> {
    s.map_values(|d: MigrationDirectory| d@)
}

/// Do `s` and `ds` hold the same directories, each once?
pub open spec fn same_directories(s: Seq<MigrationDirectory>, ds: Seq<DirectoryView>) -> bool {
    &&& s.len() == ds.len()
    &&& forall|i: int| 0 <= i < ds.len() ==> views(s).contains(#[trigger] ds[i])
    &&& forall|j: int| 0 <= j < s.len() ==> ds.contains(#[trigger] s[j]@)
}

/// The migration of `s` with identifier `k`, if there is one.
pub open spec fn lookup(s: Seq<MigrationDirectory>, k: int) -> Option<MigrationDirectory> {
    if exists|i: int| 0 <= i < s.len() && (#[trigger] s[i]).id@ == k {
        Some(s[choose|i: int| 0 <= i < s.len() && (#[trigger] s[i]).id@ == k])
    } else {
        None
    }
}

/// In an ascending list, the lookup of an entry's identifier finds it.
pub proof fn lemma_lookup_at(s: Seq<MigrationDirectory>, j: int)
    requires
        dirs_ascending(s),
        0 <= j < s.len(),
    ensures
        lookup(s, s[j].id@) == Some(s[j]),
{
    let k = s[j].id@;
    assert(exists|i: int| 0 <= i < s.len() && (#[trigger] s[i]).id@ == k);
    let i = choose|i: int| 0 <= i < s.len() && (#[trigger] s[i]).id@ == k;
    if i < j {
        assert(s[i].id@ < s[j].id@);
    } else if j < i {
        assert(s[j].id@ < s[i].id@);
    }
}

/// The migrations found under a root directory, at most one per identifier,
/// in ascending order of identifier.
#[derive(Debug)]
pub struct MigrationIndex {
    dir: String,
    index: IdMap<MigrationDirectory>,
}

/// Why the index could not be built.
#[derive(Debug)]
pub enum IndexError {
    /// The root directory could not be listed.
    ReadDir { path: String, err: std::io::Error },
    /// Some identifiers are shared by several directories: all of them, for
    /// each such identifier.
    MultipleMigrationDirectories(IdMap<Vec<MigrationDirectory>>),
}

impl MigrationIndex {
    /// The root directory.
    pub closed spec fn root(&self) -> Seq<char> {
        self.dir@
    }

    /// The migrations, in the order in which they are held.
    pub closed spec fn entries(&self) -> Seq<MigrationDirectory> {
        self.index.seq().map_values(|p: (MigrationId, MigrationDirectory)| p.1)
    }

    /// The map is ascending and keyed by each migration's own identifier.
    pub closed spec fn wf(&self) -> bool {
        &&& self.index.wf()
        &&& forall|i: int|
            0 <= i < self.index.seq().len() ==> (#[trigger] self.index.seq()[i]).0@ == self.index.seq()[i].1.id@
    }

    /// A well-formed index is ascending by identifier.
    pub proof fn lemma_ascending(&self)
        requires
            self.wf(),
        ensures
            dirs_ascending(self.entries()),
    {
        assert forall|i: int, j: int| 0 <= i < j < self.entries().len() implies (
        #[trigger] self.entries()[i]).id@ < (#[trigger] self.entries()[j]).id@ by {
            assert(self.index.seq()[i].0@ == self.index.seq()[i].1.id@);
            assert(self.index.seq()[j].0@ == self.index.seq()[j].1.id@);
        }
    }

    /// An empty index of `root`.
    fn empty(root: &str) -> (r: MigrationIndex)
        ensures
            r.wf(),
            r.root() == root@,
            r.entries() == Seq::<MigrationDirectory>::empty(),
    {
        let r = MigrationIndex { dir: root.to_owned(), index: IdMap::new() };
        assert(r.entries() =~= Seq::<MigrationDirectory>::empty());
        r
    }
}

/// `idx` is the index of `root` that holds exactly the directories `ds`.
pub open spec fn indexes(idx: MigrationIndex, root: Seq<char>, ds: Seq<DirectoryView>) -> bool {
    &&& idx.wf()
    &&& idx.root() == root
    &&& same_directories(idx.entries(), ds)
}

/// `c` lists, for each identifier that two or more of `ds` share, all of the
/// directories of `ds` with that identifier.
pub open spec fn collisions_of(c: IdMap<Vec<MigrationDirectory>>, ds: Seq<DirectoryView>) -> bool {
    &&& c.wf()
    &&& forall|k: int| #[trigger] c.as_map().contains_key(k) <==> shared_id(ds, k)
    &&& forall|k: int| #[trigger]
        c.as_map().contains_key(k) ==> views(c.as_map()[k]@) == with_id(ds, k)
}

/// What building the index of `root` from the directories `ds` gives: the
/// index when their identifiers are unique, else every collision.
pub open spec fn index_outcome(
    root: Seq<char>,
    ds: Seq<DirectoryView>,
    r: Result<MigrationIndex, IndexError>,
) -> bool {
    if ids_unique(ds) {
        r matches Ok(idx) && indexes(idx, root, ds)
    } else {
        r matches Err(IndexError::MultipleMigrationDirectories(c)) && collisions_of(c, ds)
    }
}

/// The migration directories among `entries`, in order.
fn directories_of(root: &str, entries: &Vec<DirEntry>) -> (r: Vec<MigrationDirectory>)
    ensures
        views(r@) == listed_directories(root@, entries@),
{
    let mut r: Vec<MigrationDirectory> = Vec::new();
    let mut i: usize = 0;
    while i < entries.len()
        invariant
            i <= entries@.len(),
            views(r@) == entries@.take(i as int).filter_map(
                |e: DirEntry| entry_directory(root@, e.name@, e.is_dir),
            ),
        decreases entries@.len() - i,
    {
        let ghost f = |e: DirEntry| entry_directory(root@, e.name@, e.is_dir);
        proof {
            entries@.lemma_filter_map_take_succ(f, i as int);
        }
        match MigrationDirectory::from_entry(root, &entries[i]) {
            Ok(d) => {
                r.push(d);
                assert(views(r@) =~= entries@.take(i + 1).filter_map(f));
            },
            Err(_) => {
                assert(views(r@) =~= entries@.take(i + 1).filter_map(f));
            },
        }
        i = i + 1;
    }
    assert(entries@.take(i as int) =~= entries@);
    r
}

/// Does another of `ds` share the identifier of `ds[i]`?
fn shares_id(ds: &Vec<MigrationDirectory>, i: usize) -> (r: bool)
    requires
        i < ds@.len(),
    ensures
        r == exists|j: int| 0 <= j < ds@.len() && j != i && (#[trigger] ds@[j]).id@ == ds@[i as int].id@,
{
    let k = ds[i].id.as_i64();
    let mut j: usize = 0;
    while j < ds.len()
        invariant
            i < ds@.len(),
            k as int == ds@[i as int].id@,
            j <= ds@.len(),
            forall|t: int| 0 <= t < j && t != i ==> (#[trigger] ds@[t]).id@ != ds@[i as int].id@,
        decreases ds@.len() - j,
    {
        if j != i && ds[j].id.as_i64() == k {
            return true;
        }
        j = j + 1;
    }
    false
}

/// The directories of `ds` with the identifier `id`, in order.
fn collect_with_id(ds: &Vec<MigrationDirectory>, id: MigrationId) -> (r: Vec<MigrationDirectory>)
    ensures
        views(r@) == with_id(views(ds@), id@),
{
    let k = id.as_i64();
    let mut r: Vec<MigrationDirectory> = Vec::new();
    let mut j: usize = 0;
    let ghost p = |d: DirectoryView| d.id == id@;
    while j < ds.len()
        invariant
            k as int == id@,
            j <= ds@.len(),
            p == (|d: DirectoryView| d.id == id@),
            views(r@) == views(ds@).take(j as int).filter(p),
        decreases ds@.len() - j,
    {
        let ghost s = views(ds@).take(j + 1);
        assert(s.drop_last() =~= views(ds@).take(j as int));
        assert(s.last() == ds@[j as int]@);
        let ghost before = r@;
        if ds[j].id.as_i64() == k {
            r.push(ds[j].clone());
            assert(views(r@) =~= views(before).push(ds@[j as int]@));
        }
        proof {
            reveal(Seq::filter);
        }
        assert(views(r@) =~= s.filter(p));
        j = j + 1;
    }
    assert(views(ds@).take(j as int) =~= views(ds@));
    r
}

/// Do all of `ds` have different identifiers?
fn all_ids_unique(ds: &Vec<MigrationDirectory>) -> (r: bool)
    ensures
        r == ids_unique(views(ds@)),
{
    let mut i: usize = 0;
    while i < ds.len()
        invariant
            i <= ds@.len(),
            forall|t: int, u: int|
                0 <= t < i && 0 <= u < ds@.len() && t != u ==> (#[trigger] ds@[t]).id@ != (
                #[trigger] ds@[u]).id@,
        decreases ds@.len() - i,
    {
        if shares_id(ds, i) {
            proof {
                let j = choose|j: int| 0 <= j < ds@.len() && j != i && (#[trigger] ds@[j]).id@ == ds@[i as int].id@;
                assert(views(ds@)[i as int].id == views(ds@)[j].id);
            }
            return false;
        }
        i = i + 1;
    }
    proof {
        assert forall|t: int, u: int|
            0 <= t < views(ds@).len() && 0 <= u < views(ds@).len() && t != u implies (
        #[trigger] views(ds@)[t]).id != (#[trigger] views(ds@)[u]).id by {
            assert(ds@[t].id@ != ds@[u].id@);
        }
    }
    true
}

impl MigrationIndex {
    /// Builds the index of the root directory `migrations_dir` from what
    /// listing it gave. A missing root gives an empty index. Entries that are
    /// not directories named `<id>-<name>` are skipped. When two or more
    /// directories share an identifier the build fails and reports, for every
    /// such identifier, all of its directories.
    pub fn new(migrations_dir: &str, listing: Listing) -> (r: Result<MigrationIndex, IndexError>)
        ensures
            listing is Missing ==> (r matches Ok(idx) && indexes(
                idx,
                migrations_dir@,
                Seq::<DirectoryView>::empty(),
            )),
            listing matches Listing::Failed(e) ==> (r matches Err(
                IndexError::ReadDir { path, err },
            ) && path@ == migrations_dir@ && err == e),
            listing matches Listing::Entries(es) ==> index_outcome(
                migrations_dir@,
                listed_directories(migrations_dir@, es@),
                r,
            ),
    {
        let es = match listing {
            Listing::Missing => {
                let idx = MigrationIndex::empty(migrations_dir);
                return Ok(idx);
            },
            Listing::Failed(err) => {
                return Err(IndexError::ReadDir { path: migrations_dir.to_owned(), err });
            },
            Listing::Entries(es) => es,
        };
        let ds = directories_of(migrations_dir, &es);
        let ghost vs = views(ds@);
        let n = ds.len();
        if all_ids_unique(&ds) {
            let mut index: IdMap<MigrationDirectory> = IdMap::new();
            let mut i: usize = 0;
            while i < n
                invariant
                    n == ds@.len(),
                    vs == views(ds@),
                    ids_unique(vs),
                    i <= n,
                    index.wf(),
                    index.seq().len() == i,
                    forall|k: int| #[trigger]
                        index.as_map().contains_key(k) ==> index.as_map()[k].id@ == k,
                    forall|t: int|
                        0 <= t < i ==> index.as_map().contains_key(#[trigger] ds@[t].id@)
                            && index.as_map()[ds@[t].id@] == ds@[t],
                    forall|k: int| #[trigger]
                        index.as_map().contains_key(k) ==> exists|t: int|
                            0 <= t < i && (#[trigger] ds@[t]).id@ == k,
                decreases n - i,
            {
                proof {
                    if index.as_map().contains_key(ds@[i as int].id@) {
                        let t = choose|t: int| 0 <= t < i && (#[trigger] ds@[t]).id@ == ds@[i as int].id@;
                        assert(vs[t].id == vs[i as int].id);
                    }
                }
                index.insert(ds[i].id, ds[i].clone());
                i = i + 1;
            }
            let idx = MigrationIndex { dir: migrations_dir.to_owned(), index };
            proof {
                lemma_map_of_all(idx.index.seq());
                let s = idx.index.seq();
                assert forall|j: int| 0 <= j < s.len() implies (#[trigger] s[j]).0@ == s[j].1.id@ by {
                    assert(idx.index.as_map().contains_key(s[j].0@));
                }
                assert(idx.wf());
                let es = idx.entries();
                assert(es.len() == vs.len());
                assert(idx.root() == migrations_dir@);
                assert forall|t: int| 0 <= t < vs.len() implies views(es).contains(#[trigger] vs[t]) by {
                    let k = ds@[t].id@;
                    assert(idx.index.as_map().contains_key(k));
                    let j = choose|j: int| 0 <= j < s.len() && (#[trigger] s[j]).0@ == k;
                    assert(0 <= j < s.len());
                    assert(es[j] == s[j].1);
                    assert(es[j]@ == vs[t]);
                    assert(views(es)[j] == vs[t]);
                }
                assert forall|j: int| 0 <= j < es.len() implies vs.contains(#[trigger] es[j]@) by {
                    let k = s[j].0@;
                    assert(idx.index.as_map().contains_key(k));
                    let t = choose|t: int| 0 <= t < n && (#[trigger] ds@[t]).id@ == k;
                    assert(es[j] == ds@[t]);
                    assert(es[j]@ == vs[t]);
                }
                assert(same_directories(es, vs));
                assert(indexes(idx, migrations_dir@, vs));
            }
            Ok(idx)
        } else {
            let mut coll: IdMap<Vec<MigrationDirectory>> = IdMap::new();
            let mut i: usize = 0;
            while i < n
                invariant
                    n == ds@.len(),
                    vs == views(ds@),
                    i <= n,
                    coll.wf(),
                    forall|k: int| #[trigger]
                        coll.as_map().contains_key(k) <==> (shared_id(vs, k) && exists|t: int|
                            0 <= t < i && (#[trigger] ds@[t]).id@ == k),
                    forall|k: int| #[trigger]
                        coll.as_map().contains_key(k) ==> views(coll.as_map()[k]@) == with_id(
                            vs,
                            k,
                        ),
                decreases n - i,
            {
                let id = ds[i].id;
                let shared = shares_id(&ds, i);
                proof {
                    if shared {
                        let j = choose|j: int| 0 <= j < ds@.len() && j != i && (#[trigger] ds@[j]).id@ == ds@[i as int].id@;
                        assert(vs[i as int].id == id@ && vs[j].id == id@);
                    } else if shared_id(vs, id@) {
                        let (a, b) = choose|a: int, b: int|
                            0 <= a < vs.len() && 0 <= b < vs.len() && a != b && (#[trigger] vs[a]).id == id@ && (
                            #[trigger] vs[b]).id == id@;
                        if a != i {
                            assert(ds@[a].id@ == id@);
                        } else {
                            assert(ds@[b].id@ == id@);
                        }
                    }
                }
                if shared && !coll.contains_key(id) {
                    let group = collect_with_id(&ds, id);
                    coll.insert(id, group);
                }
                i = i + 1;
            }
            proof {
                assert forall|k: int| shared_id(vs, k) implies #[trigger] coll.as_map().contains_key(k) by {
                    let (a, b) = choose|a: int, b: int|
                        0 <= a < vs.len() && 0 <= b < vs.len() && a != b && (#[trigger] vs[a]).id == k && (
                        #[trigger] vs[b]).id == k;
                    assert(ds@[a].id@ == k);
                }
                assert(collisions_of(coll, vs));
            }
            Err(IndexError::MultipleMigrationDirectories(coll))
        }
    }
}

/// Building the index from a listing whose migration directories have
/// unique identifiers gives one entry for each of those directories, in
/// strictly ascending order of identifier, whatever the order of the listing;
/// other entries are left out.
pub proof fn law_index_holds_each_directory_in_order(
    root: Seq<char>,
    entries: Seq<DirEntry>,
    r: Result<MigrationIndex, IndexError>,
)
    requires
        ids_unique(listed_directories(root, entries)),
        index_outcome(root, listed_directories(root, entries), r),
    ensures
        r matches Ok(idx) && idx.entries().len() == listed_directories(root, entries).len()
            && dirs_ascending(idx.entries()) && same_directories(
            idx.entries(),
            listed_directories(root, entries),
        ),
{
    if let Ok(idx) = r {
        idx.lemma_ascending();
    }
}

/// When two or more directories share an identifier, building the index
/// fails, and for each shared identifier the error holds exactly the
/// directories with that identifier, and no other identifier is reported.
pub proof fn law_collisions_are_complete(
    root: Seq<char>,
    entries: Seq<DirEntry>,
    r: Result<MigrationIndex, IndexError>,
)
    requires
        !ids_unique(listed_directories(root, entries)),
        index_outcome(root, listed_directories(root, entries), r),
    ensures
        r matches Err(IndexError::MultipleMigrationDirectories(c)) && (forall|k: int|
            #[trigger] c.as_map().contains_key(k) <==> shared_id(
                listed_directories(root, entries),
                k,
            )) && (forall|k: int| #[trigger]
            c.as_map().contains_key(k) ==> views(c.as_map()[k]@) == with_id(
                listed_directories(root, entries),
                k,
            )),
{
}

/// What a new migration is made of.
#[derive(Debug, Clone, PartialEq, Eq)]
pub struct MigrationParams {
    pub id: MigrationId,
    pub name: String,
    pub up_sql: String,
    pub down_sql: String,
}

/// Why writing a new migration's files failed, and where.
#[derive(Debug)]
pub enum IoError {
    CreateDir(String, std::io::Error),
    CreateFile(String, std::io::Error),
    WriteFile(String, std::io::Error),
}

/// Why a new migration could not be created.
#[derive(Debug)]
pub enum CreateMigrationError {
    /// Writing its files failed.
    Io(IoError),
    /// The identifier is already indexed, by this migration.
    ExistingDirectory(MigrationDirectory),
}

/// A directory rename: from the current path to the new one.
#[derive(Debug, Clone, PartialEq, Eq, PartialOrd, Ord)]
pub struct Rename {
    pub from: String,
    pub to: String,
}

/// The directory name of the migration `id` named `name`, its identifier
/// padded with zeros to `width` digits.
pub open spec fn dir_name(id: int, width: nat, name: Seq<char>) -> Seq<char> {
    zero_padded(id as nat, width) + seq!['-'] + name
}

/// The largest number of digits among the identifiers of `s`; zero if empty.
pub open spec fn max_width(s: Seq<MigrationDirectory>) -> nat
    decreases s.len(),
{
    if s.len() == 0 {
        0
    } else {
        let w = decimal_width(s.last().id@);
        let m = max_width(s.drop_last());
        if w > m {
            w
        } else {
            m
        }
    }
}

/// The width that aligning the identifiers of `s` pads to: the widest
/// identifier's, or ten when there is none.
pub open spec fn aligned_width(s: Seq<MigrationDirectory>) -> nat {
    if s.len() == 0 {
        10
    } else {
        max_width(s)
    }
}

/// The name `d`'s directory takes when identifiers are padded to `width`.
pub open spec fn aligned_name(d: MigrationDirectory, width: nat) -> Seq<char> {
    dir_name(d.id@, width, d.name@)
}

/// No identifier of `s` is wider than `max_width(s)`.
proof fn lemma_max_width(s: Seq<MigrationDirectory>, i: int)
    requires
        0 <= i < s.len(),
    ensures
        decimal_width(s[i].id@) <= max_width(s),
    decreases s.len(),
{
    if i < s.len() - 1 {
        lemma_max_width(s.drop_last(), i);
    }
}

/// Aligning pads every identifier to the same number of digits: that of the
/// widest identifier, or ten when there is none.
pub proof fn law_aligned_ids_share_width(s: Seq<MigrationDirectory>, i: int)
    requires
        0 <= i < s.len(),
        s[i].id@ >= 0,
    ensures
        zero_padded(s[i].id@ as nat, aligned_width(s)).len() == aligned_width(s),
        aligned_width(s) == max_width(s),
{
    lemma_decimal_len(s[i].id@ as nat);
    lemma_max_width(s, i);
}

/// Aligning never gives two migrations of an index the same directory name:
/// their identifiers differ, and padding to a common width keeps them apart.
pub proof fn law_aligned_names_distinct(s: Seq<MigrationDirectory>, i: int, j: int)
    requires
        dirs_ascending(s),
        0 <= i < s.len(),
        0 <= j < s.len(),
        i != j,
        s[i].id@ >= 0,
        s[j].id@ >= 0,
    ensures
        aligned_name(s[i], aligned_width(s)) != aligned_name(s[j], aligned_width(s)),
{
    let w = aligned_width(s);
    let a = s[i].id@ as nat;
    let b = s[j].id@ as nat;
    law_aligned_ids_share_width(s, i);
    law_aligned_ids_share_width(s, j);
    lemma_decimal_len(a);
    lemma_decimal_len(b);
    lemma_max_width(s, i);
    lemma_max_width(s, j);
    let ni = aligned_name(s[i], w);
    let nj = aligned_name(s[j], w);
    if ni == nj {
        assert(ni.subrange(0, w as int) =~= zero_padded(a, w));
        assert(nj.subrange(0, w as int) =~= zero_padded(b, w));
        lemma_zero_padded_injective(a, b, w);
        if i < j {
            assert(s[i].id@ < s[j].id@);
        } else {
            assert(s[j].id@ < s[i].id@);
        }
    }
}

impl MigrationIndex {
    /// In a well-formed index, `lookup` agrees with the map held.
    proof fn lemma_lookup(&self, k: int)
        requires
            self.wf(),
        ensures
            lookup(self.entries(), k) == if self.index.as_map().contains_key(k) {
                Some(self.index.as_map()[k])
            } else {
                None::<MigrationDirectory>
            },
    {
        let s = self.index.seq();
        let es = self.entries();
        self.lemma_ascending();
        if exists|i: int| 0 <= i < es.len() && (#[trigger] es[i]).id@ == k {
            let i = choose|i: int| 0 <= i < es.len() && (#[trigger] es[i]).id@ == k;
            assert(s[i].0@ == s[i].1.id@);
            lemma_map_of_at(s, i);
        } else if self.index.as_map().contains_key(k) {
            let j = choose|j: int| 0 <= j < s.len() && (#[trigger] s[j]).0@ == k;
            assert(s[j].0@ == s[j].1.id@);
            assert(es[j].id@ == k);
        }
    }

    /// The migration with identifier `id`, if indexed.
    pub fn get(&self, id: MigrationId) -> (r: Option<&MigrationDirectory>)
        requires
            self.wf(),
        ensures
            r is Some <==> lookup(self.entries(), id@) is Some,
            r is Some ==> *r->Some_0 == lookup(self.entries(), id@)->Some_0,
    {
        proof {
            self.lemma_lookup(id@);
        }
        self.index.get(id)
    }

    /// Is a migration with identifier `id` indexed?
    pub fn contains(&self, id: MigrationId) -> (r: bool)
        requires
            self.wf(),
        ensures
            r == lookup(self.entries(), id@) is Some,
    {
        proof {
            self.lemma_lookup(id@);
        }
        self.index.contains_key(id)
    }

    /// The number of indexed migrations.
    pub fn len(&self) -> (r: usize)
        ensures
            r == self.entries().len(),
    {
        self.index.len()
    }

    /// The root directory.
    pub fn dir(&self) -> (r: &str)
        ensures
            r@ == self.root(),
    {
        self.dir.as_str()
    }

    /// The indexed migrations, in ascending order of identifier.
    pub fn iter(&self) -> (r: Vec<&MigrationDirectory>)
        ensures
            r@.len() == self.entries().len(),
            forall|i: int| 0 <= i < r@.len() ==> *(#[trigger] r@[i]) == self.entries()[i],
    {
        self.index.values()
    }

    /// Where a new migration would be created: in `<root>/<id>-<name>`, with
    /// its scripts `up.sql` and `down.sql`. Fails with the indexed migration
    /// when its identifier is taken.
    pub fn planned(&self, params: &MigrationParams) -> (r: Result<
        MigrationDirectory,
        CreateMigrationError,
    >)
        requires
            self.wf(),
        ensures
            lookup(self.entries(), params.id@) matches Some(e) ==> (r matches Err(
                CreateMigrationError::ExistingDirectory(x),
            ) && x == e),
            lookup(self.entries(), params.id@) is None ==> (r matches Ok(d) && d@ == directory_in(
                join_path(self.root(), dir_name(params.id@, 0, params.name@)),
                params.id@,
                params.name@,
            )),
    {
        proof {
            self.lemma_lookup(params.id@);
        }
        if let Some(m) = self.index.get(params.id) {
            return Err(CreateMigrationError::ExistingDirectory(m.clone()));
        }
        let mut name = zero_padded_decimal(params.id.as_i64() as u64, 0);
        proof {
            reveal_strlit("-");
            reveal_strlit("up.sql");
            reveal_strlit("down.sql");
        }
        name.append("-");
        name.append(params.name.as_str());
        let dir = join(self.dir.as_str(), name.as_str());
        let up_path = join(dir.as_str(), "up.sql");
        let down_path = join(dir.as_str(), "down.sql");
        assert("up.sql"@ =~= crate::migrate::up_file());
        assert("down.sql"@ =~= crate::migrate::down_file());
        assert(name@ =~= dir_name(params.id@, 0, params.name@));
        Ok(MigrationDirectory { id: params.id, name: params.name.clone(), dir, up_path, down_path })
    }

    /// Records a new migration whose files were written with the outcome
    /// `written`, at the place that `planned` gives. Fails with the indexed
    /// migration when its identifier is taken, or with the write error; the
    /// index is then unchanged.
    pub fn create(&mut self, params: MigrationParams, written: Result<(), IoError>) -> (r: Result<
        MigrationDirectory,
        CreateMigrationError,
    >)
        requires
            old(self).wf(),
        ensures
            final(self).wf(),
            final(self).root() == old(self).root(),
            lookup(old(self).entries(), params.id@) matches Some(e) ==> (r matches Err(
                CreateMigrationError::ExistingDirectory(x),
            ) && x == e),
            lookup(old(self).entries(), params.id@) is None ==> (written matches Err(e) ==> (
            r matches Err(CreateMigrationError::Io(x)) && x == e)),
            r is Err ==> final(self).entries() == old(self).entries(),
            lookup(old(self).entries(), params.id@) is None && written is Ok ==> (r matches Ok(d)
                && d@ == directory_in(
                join_path(old(self).root(), dir_name(params.id@, 0, params.name@)),
                params.id@,
                params.name@,
            ) && final(self).entries().len() == old(self).entries().len() + 1 && forall|k: int|
                lookup(final(self).entries(), k) == if k == params.id@ {
                    Some(d)
                } else {
                    lookup(old(self).entries(), k)
                }),
    {
        let m = match self.planned(&params) {
            Ok(m) => m,
            Err(e) => {
                return Err(e);
            },
        };
        if let Err(e) = written {
            return Err(CreateMigrationError::Io(e));
        }
        let ghost before = *self;
        let r = m.clone();
        self.index.insert(params.id, m);
        proof {
            let s = self.index.seq();
            lemma_map_of_all(s);
            lemma_map_of_all(before.index.seq());
            assert forall|j: int| 0 <= j < s.len() implies (#[trigger] s[j]).0@ == s[j].1.id@ by {
                let k = s[j].0@;
                if k != params.id@ {
                    assert(before.index.as_map().contains_key(k));
                    let i = choose|i: int|
                        0 <= i < before.index.seq().len() && (#[trigger] before.index.seq()[i]).0@ == k;
                    assert(before.index.seq()[i].0@ == before.index.seq()[i].1.id@);
                }
            }
            assert(self.wf());
            before.lemma_lookup(params.id@);
            assert forall|k: int| lookup(self.entries(), k) == if k == params.id@ {
                Some(r)
            } else {
                lookup(before.entries(), k)
            } by {
                self.lemma_lookup(k);
                before.lemma_lookup(k);
            }
        }
        Ok(r)
    }

    /// Renames that pad every identifier with zeros to a common width: that
    /// of the widest identifier, or ten when the index is empty. Each
    /// migration gets one, in ascending order of identifier, also where the
    /// new name is the current one. Nothing is renamed here.
    pub fn align_ids(&self) -> (r: Vec<Rename>)
        requires
            self.wf(),
        ensures
            r@.len() == self.entries().len(),
            forall|i: int|
                0 <= i < r@.len() ==> (#[trigger] r@[i]).from@ == self.entries()[i].dir@
                    && r@[i].to@ == join_path(
                    self.root(),
                    aligned_name(self.entries()[i], aligned_width(self.entries())),
                ),
    {
        let ms = self.index.values();
        let ghost es = self.entries();
        let n = ms.len();
        let mut width: usize = 0;
        let mut i: usize = 0;
        while i < n
            invariant
                n == ms@.len() == es.len(),
                forall|j: int| 0 <= j < n ==> *(#[trigger] ms@[j]) == es[j],
                i <= n,
                width == max_width(es.take(i as int)),
                width <= 19,
            decreases n - i,
        {
            assert(es.take(i + 1).drop_last() =~= es.take(i as int));
            let w = ms[i].id.width();
            if w > width {
                width = w;
            }
            i = i + 1;
        }
        assert(es.take(n as int) =~= es);
        if n == 0 {
            width = 10;
        }
        let mut r: Vec<Rename> = Vec::new();
        let mut i: usize = 0;
        while i < n
            invariant
                n == ms@.len() == es.len(),
                forall|j: int| 0 <= j < n ==> *(#[trigger] ms@[j]) == es[j],
                width == aligned_width(es),
                i <= n,
                r@.len() == i,
                forall|j: int|
                    0 <= j < i ==> (#[trigger] r@[j]).from@ == es[j].dir@ && r@[j].to@ == join_path(
                        self.root(),
                        aligned_name(es[j], aligned_width(es)),
                    ),
            decreases n - i,
        {
            let m = ms[i];
            let mut name = zero_padded_decimal(m.id.as_i64() as u64, width);
            proof {
                reveal_strlit("-");
            }
            name.append("-");
            name.append(m.name.as_str());
            assert(name@ =~= aligned_name(es[i as int], aligned_width(es)));
            let to = join(self.dir.as_str(), name.as_str());
            r.push(Rename { from: m.dir.clone(), to });
            i = i + 1;
        }
        r
    }
}

} // verus!
