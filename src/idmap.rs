//! A map keyed by migration identifier that keeps its entries in ascending
//! order of identifier.

use vstd::prelude::*;

use crate::id::MigrationId;

verus! {

/// Are the identifiers of `s` strictly ascending?
pub open spec fn ids_ascending<V>(s: Seq<(MigrationId, V)>) -> bool {
    forall|i: int, j: int| 0 <= i < j < s.len() ==> (#[trigger] s[i]).0@ < (#[trigger] s[j]).0@
}

/// Does `s` hold an entry with identifier `k`?
pub open spec fn has_id<V>(s: Seq<(MigrationId, V)>, k: int) -> bool {
    exists|i: int| 0 <= i < s.len() && (#[trigger] s[i]).0@ == k
}

/// The map from identifier to value that `s` lists.
pub open spec fn map_of<V>(s: Seq<(MigrationId, V)>) -> Map<int, V> {
    Map::new(
        |k: int| has_id(s, k),
        |k: int| s[choose|i: int| 0 <= i < s.len() && (#[trigger] s[i]).0@ == k].1,
    )
}

/// In an ascending list, each entry is what the map holds for its identifier.
pub proof fn lemma_map_of_at<V>(s: Seq<(MigrationId, V)>, i: int)
    requires
        ids_ascending(s),
        0 <= i < s.len(),
    ensures
        map_of(s).contains_key(s[i].0@),
        map_of(s)[s[i].0@] == s[i].1,
{
    let k = s[i].0@;
    assert(has_id(s, k));
    let j = choose|j: int| 0 <= j < s.len() && (#[trigger] s[j]).0@ == k;
    if j < i {
        assert(s[j].0@ < s[i].0@);
    } else if i < j {
        assert(s[i].0@ < s[j].0@);
    }
}

/// The map of an ascending list, entry by entry.
pub proof fn lemma_map_of_all<V>(s: Seq<(MigrationId, V)>)
    requires
        ids_ascending(s),
    ensures
        forall|i: int|
            0 <= i < s.len() ==> map_of(s).contains_key(#[trigger] s[i].0@) && map_of(s)[s[i].0@]
                == s[i].1,
{
    assert forall|i: int| 0 <= i < s.len() implies map_of(s).contains_key(#[trigger] s[i].0@)
        && map_of(s)[s[i].0@] == s[i].1 by {
        lemma_map_of_at(s, i);
    }
}

/// A map from migration identifier to `V`, held in ascending order of
/// identifier.
#[derive(Debug)]
pub struct IdMap<V> {
    entries: Vec<(MigrationId, V)>,
}

impl<V> IdMap<V> {
    /// The entries, in the order in which they are held.
    pub closed spec fn seq(&self) -> Seq<(MigrationId, V)> {
        self.entries@
    }

    /// The entries are strictly ascending by identifier.
    pub open spec fn wf(&self) -> bool {
        ids_ascending(self.seq())
    }

    /// The map that the entries list.
    pub open spec fn as_map(&self) -> Map<int, V> {
        map_of(self.seq())
    }

    /// An empty map.
    pub fn new() -> (r: Self)
        ensures
            r.wf(),
            r.seq() == Seq::<(MigrationId, V)>::empty(),
            r.as_map() == Map::<int, V>::empty(),
    {
        let r = IdMap { entries: Vec::new() };
        assert(r.as_map() =~= Map::<int, V>::empty());
        r
    }

    /// The number of entries.
    pub fn len(&self) -> (r: usize)
        ensures
            r == self.seq().len(),
    {
        self.entries.len()
    }

    /// Is the map empty?
    pub fn is_empty(&self) -> (r: bool)
        ensures
            r == (self.seq().len() == 0),
    {
        self.entries.len() == 0
    }

    /// Where `id` stands or would stand: the first position whose identifier
    /// is not below `id`, and whether `id` is there.
    fn position(&self, id: MigrationId) -> (r: (usize, bool))
        requires
            self.wf(),
        ensures
            r.0 <= self.seq().len(),
            forall|i: int| 0 <= i < r.0 ==> (#[trigger] self.seq()[i]).0@ < id@,
            forall|i: int| r.0 <= i < self.seq().len() ==> (#[trigger] self.seq()[i]).0@ >= id@,
            r.1 <==> (r.0 < self.seq().len() && self.seq()[r.0 as int].0@ == id@),
    {
        let key = id.as_i64();
        let mut i: usize = 0;
        while i < self.entries.len()
            invariant
                self.wf(),
                key as int == id@,
                i <= self.seq().len(),
                forall|j: int| 0 <= j < i ==> (#[trigger] self.seq()[j]).0@ < id@,
            decreases self.seq().len() - i,
        {
            let here = self.entries[i].0.as_i64();
            if here >= key {
                assert forall|j: int| i <= j < self.seq().len() implies (
                #[trigger] self.seq()[j]).0@ >= id@ by {
                    if i < j {
                        assert(self.seq()[i as int].0@ < self.seq()[j].0@);
                    }
                }
                return (i, here == key);
            }
            i = i + 1;
        }
        (i, false)
    }

    /// Is there an entry for `id`?
    pub fn contains_key(&self, id: MigrationId) -> (r: bool)
        requires
            self.wf(),
        ensures
            r == self.as_map().contains_key(id@),
    {
        let (p, found) = self.position(id);
        proof {
            if found {
                lemma_map_of_at(self.seq(), p as int);
            } else if has_id(self.seq(), id@) {
                let j = choose|j: int| 0 <= j < self.seq().len() && (#[trigger] self.seq()[j]).0@ == id@;
                if j >= p {
                    if j > p {
                        assert(self.seq()[p as int].0@ < self.seq()[j].0@);
                    }
                }
            }
        }
        found
    }

    /// The value held for `id`, if any.
    pub fn get(&self, id: MigrationId) -> (r: Option<&V>)
        requires
            self.wf(),
        ensures
            r is Some == self.as_map().contains_key(id@),
            r is Some ==> *r->Some_0 == self.as_map()[id@],
    {
        let (p, found) = self.position(id);
        proof {
            if found {
                lemma_map_of_at(self.seq(), p as int);
            } else if has_id(self.seq(), id@) {
                let j = choose|j: int| 0 <= j < self.seq().len() && (#[trigger] self.seq()[j]).0@ == id@;
                if j > p {
                    assert(self.seq()[p as int].0@ < self.seq()[j].0@);
                }
            }
        }
        if found {
            Some(&self.entries[p].1)
        } else {
            None
        }
    }

    /// Sets the value held for `id` to `value`, keeping the order.
    pub fn insert(&mut self, id: MigrationId, value: V)
        requires
            old(self).wf(),
        ensures
            final(self).wf(),
            final(self).as_map() == old(self).as_map().insert(id@, value),
            final(self).seq().len() == old(self).seq().len() + if old(self).as_map().contains_key(
                id@,
            ) {
                0int
            } else {
                1int
            },
    {
        let (p, found) = self.position(id);
        let ghost before = self.seq();
        proof {
            if found {
                lemma_map_of_at(before, p as int);
            } else if has_id(before, id@) {
                let j = choose|j: int| 0 <= j < before.len() && (#[trigger] before[j]).0@ == id@;
                if j > p {
                    assert(before[p as int].0@ < before[j].0@);
                }
            }
        }
        if found {
            self.entries.set(p, (id, value));
        } else {
            self.entries.insert(p, (id, value));
        }
        let ghost after = self.seq();
        proof {
            assert(ids_ascending(after)) by {
                assert forall|i: int, j: int| 0 <= i < j < after.len() implies (
                #[trigger] after[i]).0@ < (#[trigger] after[j]).0@ by {
                    if !found {
                        if j < p {
                            assert(before[i].0@ < before[j].0@);
                        } else if i > p {
                            assert(before[i - 1].0@ < before[j - 1].0@);
                        } else if i == p {
                            assert(before[j - 1].0@ >= id@);
                            assert(before[j - 1].0@ != id@);
                        } else {
                            assert(before[i].0@ < id@);
                            if j > p {
                                assert(before[j - 1].0@ >= id@);
                                assert(before[j - 1].0@ != id@);
                                assert(before[i].0@ < before[j - 1].0@);
                            }
                        }
                    } else {
                        assert(before[i].0@ < before[j].0@);
                    }
                }
            }
            lemma_map_of_all(before);
            lemma_map_of_all(after);
            let expected = map_of(before).insert(id@, value);
            assert forall|k: int| #[trigger] map_of(after).contains_key(k) implies expected.contains_key(k)
                && map_of(after)[k] == expected[k] by {
                let j = choose|j: int| 0 <= j < after.len() && (#[trigger] after[j]).0@ == k;
                if found {
                    if j != p {
                        assert(after[j] == before[j]);
                    }
                } else {
                    if j < p {
                        assert(after[j] == before[j]);
                    } else if j > p {
                        assert(after[j] == before[j - 1]);
                    }
                }
            }
            assert forall|k: int| #[trigger] expected.contains_key(k) implies map_of(
                after,
            ).contains_key(k) by {
                if k == id@ {
                    assert(after[p as int].0@ == id@);
                } else {
                    let j = choose|j: int| 0 <= j < before.len() && (#[trigger] before[j]).0@ == k;
                    if found || j < p {
                        assert(after[j].0@ == k);
                    } else {
                        assert(after[j + 1].0@ == k);
                    }
                }
            }
            assert(map_of(after) =~= expected);
        }
    }

    /// The values, in ascending order of identifier.
    pub fn values(&self) -> (r: Vec<&V>)
        ensures
            r@.len() == self.seq().len(),
            forall|i: int| 0 <= i < r@.len() ==> *(#[trigger] r@[i]) == self.seq()[i].1,
    {
        let mut r: Vec<&V> = Vec::new();
        let mut i: usize = 0;
        while i < self.entries.len()
            invariant
                i <= self.seq().len(),
                r@.len() == i,
                forall|j: int| 0 <= j < i ==> *(#[trigger] r@[j]) == self.seq()[j].1,
            decreases self.seq().len() - i,
        {
            r.push(&self.entries[i].1);
            i = i + 1;
        }
        r
    }

    /// The identifiers, in ascending order.
    pub fn keys(&self) -> (r: Vec<MigrationId>)
        ensures
            r@.len() == self.seq().len(),
            forall|i: int| 0 <= i < r@.len() ==> (#[trigger] r@[i]) == self.seq()[i].0,
    {
        let mut r: Vec<MigrationId> = Vec::new();
        let mut i: usize = 0;
        while i < self.entries.len()
            invariant
                i <= self.seq().len(),
                r@.len() == i,
                forall|j: int| 0 <= j < i ==> (#[trigger] r@[j]) == self.seq()[j].0,
            decreases self.seq().len() - i,
        {
            r.push(self.entries[i].0);
            i = i + 1;
        }
        r
    }
}

} // verus!
