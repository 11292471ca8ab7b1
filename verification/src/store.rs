use vstd::prelude::*;
use crate::ids::{dec_digits, render_number};
use crate::user::{User, UserRecord};

verus! {

/// The mapping a sequence of records denotes: each record's identifier,
/// taken in order, bound to its user's name. A later record with the same
/// identifier shadows an earlier one; the store's invariant rules that out.
pub open spec fn map_of(s: Seq<UserRecord>) -> Map<Seq<char>, Seq<char>>
    decreases s.len(),
{
    if s.len() == 0 {
        Map::empty()
    } else {
        map_of(s.drop_last()).insert(s.last().id@, s.last().user.name@)
    }
}

/// No two records carry the same identifier.
pub open spec fn distinct_ids(s: Seq<UserRecord>) -> bool {
    forall|i: int, j: int| 0 <= i < j < s.len() ==> s[i].id@ != s[j].id@
}

/// A key is in the denoted mapping exactly when some record carries it.
pub proof fn lemma_map_of_contains(s: Seq<UserRecord>, k: Seq<char>)
    ensures
        map_of(s).contains_key(k) <==> exists|i: int| 0 <= i < s.len() && s[i].id@ == k,
    decreases s.len(),
{
    if s.len() == 0 {
    } else {
        lemma_map_of_contains(s.drop_last(), k);
        if s.last().id@ == k {
            assert(s[s.len() - 1].id@ == k);
        } else {
            if exists|i: int| 0 <= i < s.len() && s[i].id@ == k {
                let i = choose|i: int| 0 <= i < s.len() && s[i].id@ == k;
                assert(i < s.len() - 1);
                assert(s.drop_last()[i] == s[i]);
            }
            if exists|i: int| 0 <= i < s.drop_last().len() && s.drop_last()[i].id@ == k {
                let i = choose|i: int| 0 <= i < s.drop_last().len() && s.drop_last()[i].id@ == k;
                assert(s[i].id@ == k);
            }
        }
    }
}

/// Under distinct identifiers, each record's identifier is bound to that
/// record's name.
pub proof fn lemma_map_of_index(s: Seq<UserRecord>, i: int)
    requires
        distinct_ids(s),
        0 <= i < s.len(),
    ensures
        map_of(s).contains_key(s[i].id@),
        map_of(s)[s[i].id@] == s[i].user.name@,
    decreases s.len(),
{
    if i == s.len() - 1 {
    } else {
        assert(distinct_ids(s.drop_last())) by {
            assert(forall|p: int, q: int|
                0 <= p < q < s.drop_last().len() ==> s.drop_last()[p] == s[p]
                    && s.drop_last()[q] == s[q]);
        }
        lemma_map_of_index(s.drop_last(), i);
        assert(s.drop_last()[i] == s[i]);
        assert(s[i].id@ != s.last().id@);
    }
}

/// Under distinct identifiers, the denoted mapping has exactly one key per
/// record: the size of the directory is the number of records it holds.
pub proof fn lemma_map_of_dom_len(s: Seq<UserRecord>)
    requires
        distinct_ids(s),
    ensures
        map_of(s).dom().finite(),
        map_of(s).dom().len() == s.len(),
    decreases s.len(),
{
    if s.len() == 0 {
        assert(map_of(s).dom() =~= Set::<Seq<char>>::empty());
    } else {
        assert(distinct_ids(s.drop_last())) by {
            assert(forall|p: int, q: int|
                0 <= p < q < s.drop_last().len() ==> s.drop_last()[p] == s[p]
                    && s.drop_last()[q] == s[q]);
        }
        lemma_map_of_dom_len(s.drop_last());
        lemma_map_of_contains(s.drop_last(), s.last().id@);
        assert(forall|i: int| 0 <= i < s.drop_last().len() ==> s.drop_last()[i] == s[i]);
        assert(!map_of(s.drop_last()).contains_key(s.last().id@));
        assert(map_of(s).dom() =~= map_of(s.drop_last()).dom().insert(s.last().id@));
    }
}

/// Replacing a record by one carrying the same identifier rebinds that
/// identifier in the denoted mapping and touches nothing else.
pub proof fn lemma_map_of_update(s: Seq<UserRecord>, i: int, rec: UserRecord)
    requires
        distinct_ids(s),
        0 <= i < s.len(),
        rec.id@ == s[i].id@,
    ensures
        map_of(s.update(i, rec)) == map_of(s).insert(rec.id@, rec.user.name@),
    decreases s.len(),
{
    let t = s.update(i, rec);
    if i == s.len() - 1 {
        assert(t.drop_last() =~= s.drop_last());
        assert(t.last() == rec);
        assert(map_of(t) =~= map_of(s).insert(rec.id@, rec.user.name@));
    } else {
        assert(distinct_ids(s.drop_last())) by {
            assert(forall|p: int, q: int|
                0 <= p < q < s.drop_last().len() ==> s.drop_last()[p] == s[p]
                    && s.drop_last()[q] == s[q]);
        }
        assert(s.drop_last()[i] == s[i]);
        lemma_map_of_update(s.drop_last(), i, rec);
        assert(t.drop_last() =~= s.drop_last().update(i, rec));
        assert(t.last() == s.last());
        assert(s[i].id@ != s.last().id@);
        assert(map_of(t) =~= map_of(s).insert(rec.id@, rec.user.name@));
    }
}

/// Removing the record at one position removes exactly its identifier from
/// the denoted mapping.
pub proof fn lemma_map_of_remove(s: Seq<UserRecord>, i: int)
    requires
        distinct_ids(s),
        0 <= i < s.len(),
    ensures
        map_of(s.remove(i)) == map_of(s).remove(s[i].id@),
    decreases s.len(),
{
    let t = s.remove(i);
    assert(distinct_ids(s.drop_last())) by {
        assert(forall|p: int, q: int|
            0 <= p < q < s.drop_last().len() ==> s.drop_last()[p] == s[p]
                && s.drop_last()[q] == s[q]);
    }
    if i == s.len() - 1 {
        lemma_map_of_contains(s.drop_last(), s.last().id@);
        assert(forall|j: int| 0 <= j < s.drop_last().len() ==> s.drop_last()[j] == s[j]);
        assert(!map_of(s.drop_last()).contains_key(s.last().id@));
        assert(t =~= s.drop_last());
        assert(map_of(t) =~= map_of(s).remove(s[i].id@));
    } else {
        assert(s.drop_last()[i] == s[i]);
        lemma_map_of_remove(s.drop_last(), i);
        assert(t.drop_last() =~= s.drop_last().remove(i));
        assert(t.last() == s.last());
        assert(s[i].id@ != s.last().id@);
        assert(map_of(t) =~= map_of(s).remove(s[i].id@));
    }
}

/// The directory of user records: the authoritative in-memory collection,
/// owned by one holder and handed out only as copies.
pub struct Directory {
    records: Vec<UserRecord>,
}

impl View for Directory {
    type V = Map<Seq<char>, Seq<char>>;

    open spec fn view(&self) -> Map<Seq<char>, Seq<char>> {
        map_of(self.entries())
    }
}

impl Directory {
    /// The records in storage order.
    pub closed spec fn entries(self) -> Seq<UserRecord> {
        self.records@
    }

    /// Well-formedness: every identifier names at most one record.
    pub open spec fn wf(self) -> bool {
        distinct_ids(self.entries())
    }

    /// The size of a well-formed directory equals its number of records.
    pub proof fn lemma_size(self)
        requires
            self.wf(),
        ensures
            self@.dom().finite(),
            self@.dom().len() == self.entries().len(),
    {
        lemma_map_of_dom_len(self.entries());
    }

    /// An empty directory.
    pub fn new() -> (d: Directory)
        ensures
            d.wf(),
            d@ == Map::<Seq<char>, Seq<char>>::empty(),
            d.entries().len() == 0,
    {
        Directory { records: Vec::new() }
    }

    /// How many records the directory holds.
    pub fn len(&self) -> (n: usize)
        ensures
            n == self.entries().len(),
    {
        self.records.len()
    }

    /// The position of the record carrying `id`, if any.
    fn find_index(&self, id: &String) -> (r: Option<usize>)
        ensures
            match r {
                Some(i) => i < self.entries().len() && self.entries()[i as int].id@ == id@,
                None => forall|i: int| 0 <= i < self.entries().len() ==> self.entries()[i].id@ != id@,
            },
    {
        let mut i: usize = 0;
        while i < self.records.len()
            invariant
                i <= self.records.len(),
                forall|j: int| 0 <= j < i ==> self.entries()[j].id@ != id@,
            decreases self.records.len() - i,
        {
            if self.records[i].id == *id {
                return Some(i);
            }
            i += 1;
        }
        None
    }

    /// Looks up the record for `id`; `None` signals that the identifier is
    /// absent, the store's only error. Read-only: the copy handed back is
    /// independent of the store.
    pub fn get(&self, id: &String) -> (r: Option<UserRecord>)
        requires
            self.wf(),
        ensures
            match r {
                Some(rec) => self@.contains_key(id@) && rec.id@ == id@
                    && rec.user.name@ == self@[id@],
                None => !self@.contains_key(id@),
            },
    {
        proof {
            lemma_map_of_contains(self.entries(), id@);
        }
        match self.find_index(id) {
            Some(i) => {
                proof {
                    lemma_map_of_index(self.entries(), i as int);
                }
                Some(self.records[i].clone())
            },
            None => None,
        }
    }

    /// A snapshot of all records: an independent copy, unaffected by later
    /// mutations of the store.
    pub fn list(&self) -> (r: Vec<UserRecord>)
        ensures
            r@ == self.entries(),
            map_of(r@) == self@,
    {
        let mut out: Vec<UserRecord> = Vec::new();
        let mut i: usize = 0;
        while i < self.records.len()
            invariant
                i <= self.records.len(),
                out@.len() == i,
                forall|j: int| 0 <= j < i ==> out@[j] == self.entries()[j],
            decreases self.records.len() - i,
        {
            out.push(self.records[i].clone());
            i += 1;
        }
        proof {
            assert(out@ =~= self.entries());
        }
        out
    }

    /// Inserts a record under the identifier derived from the current
    /// record count and returns it. Always succeeds. Should the derived
    /// identifier already be in use — possible once records have been
    /// deleted, since the count shrinks with them — the existing record is
    /// overwritten in place, exactly as a map insertion would.
    pub fn create(&mut self, name: String) -> (r: UserRecord)
        requires
            old(self).wf(),
            old(self).entries().len() < usize::MAX,
        ensures
            final(self).wf(),
            r.id@ == dec_digits(old(self).entries().len() + 1),
            r.user.name@ == name@,
            final(self)@ == old(self)@.insert(r.id@, name@),
            old(self)@.contains_key(r.id@) ==> final(self).entries().len()
                == old(self).entries().len(),
            !old(self)@.contains_key(r.id@) ==> final(self).entries().len()
                == old(self).entries().len() + 1,
    {
        let n = self.records.len();
        let id = render_number(n + 1);
        let user = User::new(name);
        let rec = UserRecord { id, user };
        proof {
            lemma_map_of_contains(self.entries(), rec.id@);
        }
        match self.find_index(&rec.id) {
            Some(i) => {
                let stored = rec.clone();
                let ghost s = self.entries();
                proof {
                    lemma_map_of_update(s, i as int, stored);
                }
                self.records[i] = stored;
                proof {
                    assert(forall|j: int| 0 <= j < s.len()
                        ==> self.entries()[j].id@ == s[j].id@);
                }
                rec
            },
            None => {
                let stored = rec.clone();
                let ghost s = self.entries();
                self.records.push(stored);
                proof {
                    assert(self.entries().drop_last() =~= s);
                    assert(forall|j: int| 0 <= j < s.len()
                        ==> self.entries()[j] == s[j]);
                }
                rec
            },
        }
    }

    /// Replaces the name of the record for `id` and returns the updated
    /// record; the identifier itself is never altered. `None` signals that
    /// the identifier is absent, in which case the store is left unchanged.
    pub fn update(&mut self, id: &String, name: String) -> (r: Option<UserRecord>)
        requires
            old(self).wf(),
        ensures
            final(self).wf(),
            final(self).entries().len() == old(self).entries().len(),
            match r {
                Some(rec) => old(self)@.contains_key(id@) && rec.id@ == id@
                    && rec.user.name@ == name@
                    && final(self)@ == old(self)@.insert(id@, name@),
                None => !old(self)@.contains_key(id@) && *final(self) == *old(self),
            },
    {
        proof {
            lemma_map_of_contains(self.entries(), id@);
        }
        match self.find_index(id) {
            Some(i) => {
                let rec = UserRecord {
                    id: self.records[i].id.clone(),
                    user: User::new(name),
                };
                let stored = rec.clone();
                let ghost s = self.entries();
                proof {
                    lemma_map_of_update(s, i as int, stored);
                }
                self.records[i] = stored;
                proof {
                    assert(forall|j: int| 0 <= j < s.len()
                        ==> self.entries()[j].id@ == s[j].id@);
                }
                Some(rec)
            },
            None => None,
        }
    }

    /// Removes the record for `id` if present — removing an absent
    /// identifier is a no-op, not an error — and returns a snapshot of the
    /// remaining collection.
    pub fn delete(&mut self, id: &String) -> (r: Vec<UserRecord>)
        requires
            old(self).wf(),
        ensures
            final(self).wf(),
            final(self)@ == old(self)@.remove(id@),
            r@ == final(self).entries(),
            map_of(r@) == final(self)@,
            old(self)@.contains_key(id@) ==> final(self).entries().len()
                == old(self).entries().len() - 1,
            !old(self)@.contains_key(id@) ==> *final(self) == *old(self),
    {
        proof {
            lemma_map_of_contains(self.entries(), id@);
        }
        match self.find_index(id) {
            Some(i) => {
                let ghost s = self.entries();
                proof {
                    lemma_map_of_remove(s, i as int);
                }
                self.records.remove(i);
                proof {
                    let t = s.remove(i as int);
                    assert(self.entries() == t);
                    assert forall|p: int, q: int|
                        0 <= p < q < t.len() implies t[p].id@ != t[q].id@ by {
                        if p < i {
                            assert(t[p] == s[p]);
                        } else {
                            assert(t[p] == s[p + 1]);
                        }
                        if q < i {
                            assert(t[q] == s[q]);
                        } else {
                            assert(t[q] == s[q + 1]);
                        }
                    }
                }
            },
            None => {
                proof {
                    assert(old(self)@.remove(id@) =~= old(self)@);
                }
            },
        }
        self.list()
    }
}

} // verus!
