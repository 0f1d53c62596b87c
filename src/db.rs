//! The applied-migration log, as read from the database's tracking table.

use vstd::prelude::*;

use crate::id::MigrationId;
use crate::idmap::{lemma_map_of_all, lemma_map_of_at, IdMap};

verus! {

broadcast use vstd::string::group_string_axioms;

/// When a migration ran: seconds since the Unix epoch and nanoseconds within
/// that second, ordered as that pair.
#[derive(Debug, Clone, Copy, PartialEq, Eq, PartialOrd, Ord, Hash, Structural)]
pub struct Timestamp {
    pub seconds: i64,
    pub nanos: u32,
}

/// One row of the tracking table: a migration that was applied.
#[derive(Debug, PartialEq, Eq)]
pub struct MigrationRecord {
    pub id: MigrationId,
    pub name: String,
    pub run_at: Timestamp,
}

impl Clone for MigrationRecord {
    fn clone(&self) -> (r: Self)
        ensures
            r == *self,
    {
        MigrationRecord { id: self.id, name: self.name.clone(), run_at: self.run_at }
    }
}

/// Does `a` come no later than `b` by the pair (run time, identifier)?
pub open spec fn run_order_le(a: MigrationRecord, b: MigrationRecord) -> bool {
    a.run_at.seconds < b.run_at.seconds || (a.run_at.seconds == b.run_at.seconds && (
    a.run_at.nanos < b.run_at.nanos || (a.run_at.nanos == b.run_at.nanos && a.id@ <= b.id@)))
}

/// Is `x` the record of `rs` that ran last, by the pair (run time,
/// identifier)?
pub open spec fn is_last(rs: Seq<MigrationRecord>, x: MigrationRecord) -> bool {
    rs.contains(x) && forall|i: int| 0 <= i < rs.len() ==> run_order_le(#[trigger] rs[i], x)
}

/// The map that the rows `rows` give, a later row replacing an earlier one
/// with the same identifier.
pub open spec fn records_map(rows: Seq<MigrationRecord>) -> Map<int, MigrationRecord>
    decreases rows.len(),
{
    if rows.len() == 0 {
        Map::empty()
    } else {
        records_map(rows.drop_last()).insert(rows.last().id@, rows.last())
    }
}

/// The SQLSTATE code of an undefined table.
pub open spec fn undefined_table_code() -> Seq<char> {
    seq!['4', '2', 'P', '0', '1']
}

/// Does the error code `code` say that the queried table does not exist?
pub open spec fn is_undefined_table_code(code: Option<String>) -> bool {
    code matches Some(c) && c@ == undefined_table_code()
}

/// The migrations applied to a database, by identifier.
#[derive(Debug)]
pub struct MigrationLog {
    log: IdMap<MigrationRecord>,
}

/// Why the applied migrations could not be read.
#[derive(Debug)]
pub struct QueryError(pub sqlx::Error);

/// Relies on `sqlx::Error::Database` and `DatabaseError::code`: the SQLSTATE
/// code of an error that the database returned, if it gave one.
#[verifier::external_body]
fn database_error_code(err: &sqlx::Error) -> (r: Option<String>) {
    match err {
        sqlx::Error::Database(e) => e.code().map(|c| c.into_owned()),
        _ => None,
    }
}

/// Does the error code `code` say that the queried table does not exist?
pub fn is_undefined_table(code: &Option<String>) -> (r: bool)
    ensures
        r == is_undefined_table_code(*code),
{
    match code {
        Some(c) => {
            let cs = crate::text::chars_of(c.as_str());
            let r = cs.len() == 5 && cs[0] == '4' && cs[1] == '2' && cs[2] == 'P' && cs[3] == '0'
                && cs[4] == '1';
            assert(r ==> cs@ =~= undefined_table_code());
            r
        },
        None => false,
    }
}

impl MigrationLog {
    /// The records, in ascending order of identifier.
    pub closed spec fn records(&self) -> Seq<MigrationRecord> {
        self.log.seq().map_values(|p: (MigrationId, MigrationRecord)| p.1)
    }

    /// The records by identifier.
    pub closed spec fn as_map(&self) -> Map<int, MigrationRecord> {
        self.log.as_map()
    }

    /// The records are ascending, each keyed by its own identifier, and the
    /// map holds exactly them.
    pub closed spec fn wf(&self) -> bool {
        &&& self.log.wf()
        &&& forall|i: int|
            0 <= i < self.log.seq().len() ==> (#[trigger] self.log.seq()[i]).0@ == self.log.seq()[i].1.id@
    }

    /// What a well-formed log's two views share.
    pub proof fn lemma_views(&self)
        requires
            self.wf(),
        ensures
            forall|i: int, j: int|
                0 <= i < j < self.records().len() ==> (#[trigger] self.records()[i]).id@ < (
                #[trigger] self.records()[j]).id@,
            forall|i: int|
                0 <= i < self.records().len() ==> self.as_map().contains_key(
                    (#[trigger] self.records()[i]).id@,
                ) && self.as_map()[self.records()[i].id@] == self.records()[i],
            forall|k: int| #[trigger]
                self.as_map().contains_key(k) ==> exists|i: int|
                    0 <= i < self.records().len() && (#[trigger] self.records()[i]).id@ == k,
            forall|k: int| #[trigger] self.as_map().contains_key(k) ==> self.as_map()[k].id@ == k,
            self.as_map().dom().finite(),
            self.as_map().len() == self.records().len(),
    {
        let s = self.log.seq();
        lemma_map_of_all(s);
        assert forall|i: int, j: int| 0 <= i < j < self.records().len() implies (
        #[trigger] self.records()[i]).id@ < (#[trigger] self.records()[j]).id@ by {
            assert(s[i].0@ == s[i].1.id@);
            assert(s[j].0@ == s[j].1.id@);
        }
        assert forall|i: int| 0 <= i < self.records().len() implies self.as_map().contains_key(
            (#[trigger] self.records()[i]).id@,
        ) && self.as_map()[self.records()[i].id@] == self.records()[i] by {
            assert(s[i].0@ == s[i].1.id@);
        }
        assert forall|k: int| #[trigger] self.as_map().contains_key(k) implies exists|i: int|
            0 <= i < self.records().len() && (#[trigger] self.records()[i]).id@ == k by {
            let j = choose|j: int| 0 <= j < s.len() && (#[trigger] s[j]).0@ == k;
            assert(s[j].0@ == s[j].1.id@);
            assert(self.records()[j].id@ == k);
        }
        assert forall|k: int| #[trigger] self.as_map().contains_key(k) implies self.as_map()[k].id@
            == k by {
            let j = choose|j: int| 0 <= j < s.len() && (#[trigger] s[j]).0@ == k;
            assert(s[j].0@ == s[j].1.id@);
            lemma_map_of_at(s, j);
        }
        self.lemma_map_len();
    }

    proof fn lemma_map_len(&self)
        requires
            self.log.wf(),
        ensures
            self.as_map().dom().finite(),
            self.as_map().len() == self.records().len(),
    {
        let s = self.log.seq();
        lemma_map_of_all(s);
        let keys = s.map_values(|p: (MigrationId, MigrationRecord)| p.0@);
        assert(keys.no_duplicates()) by {
            assert forall|i: int, j: int| 0 <= i < keys.len() && 0 <= j < keys.len() && i != j implies keys[i] != keys[j] by {
                if i < j {
                    assert(s[i].0@ < s[j].0@);
                } else {
                    assert(s[j].0@ < s[i].0@);
                }
            }
        }
        assert(self.as_map().dom() =~= keys.to_set()) by {
            assert forall|k: int| self.as_map().dom().contains(k) implies keys.to_set().contains(k) by {
                let j = choose|j: int| 0 <= j < s.len() && (#[trigger] s[j]).0@ == k;
                assert(keys[j] == k);
            }
            assert forall|k: int| keys.to_set().contains(k) implies self.as_map().dom().contains(k) by {
                let j = choose|j: int| 0 <= j < keys.len() && keys[j] == k;
                assert(s[j].0@ == k);
            }
        }
        keys.unique_seq_to_set();
    }

    /// The log that the rows `rows` of the tracking table give.
    pub fn from_rows(rows: Vec<MigrationRecord>) -> (r: MigrationLog)
        ensures
            r.wf(),
            r.as_map() == records_map(rows@),
    {
        let mut log: IdMap<MigrationRecord> = IdMap::new();
        let mut i: usize = 0;
        while i < rows.len()
            invariant
                i <= rows@.len(),
                log.wf(),
                log.as_map() == records_map(rows@.take(i as int)),
                forall|k: int| #[trigger] log.as_map().contains_key(k) ==> log.as_map()[k].id@ == k,
            decreases rows@.len() - i,
        {
            assert(rows@.take(i + 1).drop_last() =~= rows@.take(i as int));
            log.insert(rows[i].id, rows[i].clone());
            i = i + 1;
        }
        assert(rows@.take(i as int) =~= rows@);
        let r = MigrationLog { log };
        proof {
            let s = r.log.seq();
            lemma_map_of_all(s);
            assert forall|j: int| 0 <= j < s.len() implies (#[trigger] s[j]).0@ == s[j].1.id@ by {
                assert(r.log.as_map().contains_key(s[j].0@));
            }
        }
        r
    }

    /// The log that a query of the tracking table gives, from its outcome
    /// `result` and, when it failed, the database's error code `code`. A
    /// failure whose code says that the table does not exist gives an empty
    /// log: nothing was applied yet.
    pub fn from_query(
        result: Result<Vec<MigrationRecord>, sqlx::Error>,
        code: Option<String>,
    ) -> (r: Result<MigrationLog, QueryError>)
        ensures
            result matches Ok(rows) ==> (r matches Ok(log) && log.wf() && log.as_map()
                == records_map(rows@)),
            result matches Err(e) ==> (if is_undefined_table_code(code) {
                r matches Ok(log) && log.wf() && log.as_map() == Map::<int, MigrationRecord>::empty()
            } else {
                r matches Err(QueryError(x)) && x == e
            }),
    {
        match result {
            Ok(rows) => Ok(MigrationLog::from_rows(rows)),
            Err(e) => {
                if is_undefined_table(&code) {
                    let r = MigrationLog::from_rows(Vec::new());
                    assert(records_map(Seq::<MigrationRecord>::empty()) == Map::<
                        int,
                        MigrationRecord,
                    >::empty());
                    Ok(r)
                } else {
                    Err(QueryError(e))
                }
            },
        }
    }

    /// The applied migrations, in ascending order of identifier.
    pub fn iter(&self) -> (r: Vec<&MigrationRecord>)
        ensures
            r@.len() == self.records().len(),
            forall|i: int| 0 <= i < r@.len() ==> *(#[trigger] r@[i]) == self.records()[i],
    {
        self.log.values()
    }

    /// The number of applied migrations.
    pub fn len(&self) -> (r: usize)
        ensures
            r == self.records().len(),
    {
        self.log.len()
    }

    /// Was the migration `id` applied?
    pub fn contains(&self, id: MigrationId) -> (r: bool)
        requires
            self.wf(),
        ensures
            r == self.as_map().contains_key(id@),
    {
        self.log.contains_key(id)
    }

    /// The record of the migration `id`, if it was applied.
    pub fn get(&self, id: MigrationId) -> (r: Option<&MigrationRecord>)
        requires
            self.wf(),
        ensures
            r is Some == self.as_map().contains_key(id@),
            r is Some ==> *r->Some_0 == self.as_map()[id@],
    {
        self.log.get(id)
    }

    /// The migration applied last: the greatest by the pair (run time,
    /// identifier), so that equal run times go to the higher identifier.
    /// `None` when nothing was applied.
    pub fn last(&self) -> (r: Option<MigrationRecord>)
        ensures
            r is None <==> self.records().len() == 0,
            r matches Some(x) ==> is_last(self.records(), x),
    {
        let rs = self.log.values();
        let ghost s = self.records();
        let n = rs.len();
        if n == 0 {
            return None;
        }
        let mut best: usize = 0;
        let mut i: usize = 1;
        while i < n
            invariant
                n == rs@.len() == s.len(),
                forall|j: int| 0 <= j < n ==> *(#[trigger] rs@[j]) == s[j],
                1 <= i <= n,
                best < i,
                forall|j: int| 0 <= j < i ==> run_order_le(#[trigger] s[j], s[best as int]),
            decreases n - i,
        {
            let a = rs[i];
            let b = rs[best];
            let later = a.run_at.seconds > b.run_at.seconds || (a.run_at.seconds == b.run_at.seconds
                && (a.run_at.nanos > b.run_at.nanos || (a.run_at.nanos == b.run_at.nanos
                && a.id.as_i64() > b.id.as_i64())));
            if later {
                best = i;
            }
            i = i + 1;
        }
        let r = rs[best].clone();
        assert(s[best as int] == r);
        Some(r)
    }

    /// The log that a query of the tracking table gives: its rows, or empty
    /// when the database says that the table does not exist; any other
    /// failure is returned.
    pub fn new(result: Result<Vec<MigrationRecord>, sqlx::Error>) -> (r: Result<
        MigrationLog,
        QueryError,
    >)
        ensures
            result matches Ok(rows) ==> (r matches Ok(log) && log.wf() && log.as_map()
                == records_map(rows@)),
            result matches Err(e) ==> (r matches Ok(log) ==> log.wf() && log.as_map() == Map::<
                int,
                MigrationRecord,
            >::empty()),
            result matches Err(e) ==> (r matches Err(QueryError(x)) ==> x == e),
    {
        let code = match &result {
            Ok(_) => None,
            Err(e) => database_error_code(e),
        };
        MigrationLog::from_query(result, code)
    }
}

} // verus!
