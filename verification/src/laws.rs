use vstd::prelude::*;
use crate::ids::{dec_digits, lemma_dec_digits_val};

verus! {

/// The mapping a directory holds after a sequence of creates against an
/// initially empty store, each create assigned the identifier derived from
/// the record count at that moment.
pub open spec fn store_after_creates(names: Seq<Seq<char>>) -> Map<Seq<char>, Seq<char>>
    decreases names.len(),
{
    if names.len() == 0 {
        Map::empty()
    } else {
        store_after_creates(names.drop_last()).insert(dec_digits(names.len() as nat), names.last())
    }
}

/// Sequential creates against an initially empty store never collide: after
/// any sequence of creates the store holds exactly one record per create,
/// and each created record is retrievable under its returned identifier
/// with the name it was given. No other identifier is present.
pub proof fn lemma_sequential_creates(names: Seq<Seq<char>>)
    ensures
        store_after_creates(names).dom().finite(),
        store_after_creates(names).dom().len() == names.len(),
        forall|i: int| 0 <= i < names.len()
            ==> store_after_creates(names).contains_key(#[trigger] dec_digits((i + 1) as nat))
                && store_after_creates(names)[dec_digits((i + 1) as nat)] == names[i],
        forall|k: Seq<char>| #[trigger] store_after_creates(names).contains_key(k)
            ==> exists|i: int| 0 <= i < names.len() && k == #[trigger] dec_digits((i + 1) as nat),
    decreases names.len(),
{
    if names.len() == 0 {
        assert(store_after_creates(names).dom() =~= Set::<Seq<char>>::empty());
    } else {
        let prev = names.drop_last();
        lemma_sequential_creates(prev);
        let n = names.len() as nat;
        let m = store_after_creates(names);
        let pm = store_after_creates(prev);
        assert(!pm.contains_key(dec_digits(n))) by {
            if pm.contains_key(dec_digits(n)) {
                let i = choose|i: int| 0 <= i < prev.len()
                    && dec_digits(n) == #[trigger] dec_digits((i + 1) as nat);
                lemma_dec_digits_val(n);
                lemma_dec_digits_val((i + 1) as nat);
            }
        }
        assert(m.dom() =~= pm.dom().insert(dec_digits(n)));
        assert forall|i: int| 0 <= i < names.len()
            implies m.contains_key(#[trigger] dec_digits((i + 1) as nat))
                && m[dec_digits((i + 1) as nat)] == names[i] by {
            if i < names.len() - 1 {
                assert(prev[i] == names[i]);
                assert(pm.contains_key(dec_digits((i + 1) as nat)));
                if dec_digits((i + 1) as nat) == dec_digits(n) {
                    lemma_dec_digits_val(n);
                    lemma_dec_digits_val((i + 1) as nat);
                }
            }
        }
        assert forall|k: Seq<char>| #[trigger] m.contains_key(k)
            implies exists|i: int| 0 <= i < names.len() && k == #[trigger] dec_digits((i + 1) as nat) by {
            if k == dec_digits(n) {
                assert(0 <= names.len() - 1 < names.len()
                    && k == dec_digits(((names.len() - 1) + 1) as nat));
            } else {
                assert(pm.contains_key(k));
                let i = choose|i: int| 0 <= i < prev.len() && k == #[trigger] dec_digits((i + 1) as nat);
                assert(0 <= i < names.len() && k == dec_digits((i + 1) as nat));
            }
        }
    }
}

/// A store reached from empty by creates alone is extended by one more
/// create: inserting under the next derived identifier — the one `create`
/// assigns, since such a store holds exactly one record per past create —
/// yields the mapping for the longer history.
pub proof fn lemma_create_extends_history(
    names: Seq<Seq<char>>,
    m: Map<Seq<char>, Seq<char>>,
    id: Seq<char>,
    name: Seq<char>,
)
    requires
        m == store_after_creates(names),
        id == dec_digits(names.len() + 1),
    ensures
        m.insert(id, name) == store_after_creates(names.push(name)),
{
    assert(names.push(name).drop_last() =~= names);
    assert(names.push(name).last() == name);
}

/// Deleting an identifier twice leaves the same remaining collection as
/// deleting it once: the second delete is a no-op.
pub proof fn lemma_delete_idempotent(m: Map<Seq<char>, Seq<char>>, id: Seq<char>)
    ensures
        m.remove(id).remove(id) == m.remove(id),
{
    assert(m.remove(id).remove(id) =~= m.remove(id));
}

/// After an update binds a new name to an identifier, a lookup of that same
/// identifier succeeds and finds the new name; the identifier is unchanged.
pub proof fn lemma_update_then_get(m: Map<Seq<char>, Seq<char>>, id: Seq<char>, name: Seq<char>)
    ensures
        m.insert(id, name).contains_key(id),
        m.insert(id, name)[id] == name,
{
}

/// What remains of a mapping after deleting each listed identifier in turn.
pub open spec fn remove_all(m: Map<Seq<char>, Seq<char>>, ids: Seq<Seq<char>>) -> Map<
    Seq<char>,
    Seq<char>,
>
    decreases ids.len(),
{
    if ids.len() == 0 {
        m
    } else {
        remove_all(m, ids.drop_last()).remove(ids.last())
    }
}

/// Deleting distinct, present identifiers from a mapping leaves exactly one
/// entry per identifier not deleted: the remaining count is the old count
/// less the number of deletes, and every surviving identifier keeps its
/// old name.
pub proof fn lemma_remove_all(m: Map<Seq<char>, Seq<char>>, ids: Seq<Seq<char>>)
    requires
        m.dom().finite(),
        ids.no_duplicates(),
        forall|j: int| 0 <= j < ids.len() ==> m.contains_key(#[trigger] ids[j]),
    ensures
        remove_all(m, ids).dom().finite(),
        remove_all(m, ids).dom().len() == m.dom().len() - ids.len(),
        forall|k: Seq<char>| #[trigger] remove_all(m, ids).contains_key(k)
            <==> m.contains_key(k) && !ids.contains(k),
        forall|k: Seq<char>| #[trigger] remove_all(m, ids).contains_key(k)
            ==> remove_all(m, ids)[k] == m[k],
    decreases ids.len(),
{
    if ids.len() == 0 {
        assert(forall|k: Seq<char>| !ids.contains(k));
    } else {
        let prev = ids.drop_last();
        let last = ids.last();
        assert(prev.no_duplicates()) by {
            assert(forall|p: int| 0 <= p < prev.len() ==> prev[p] == ids[p]);
        }
        assert(forall|j: int| 0 <= j < prev.len() ==> m.contains_key(#[trigger] prev[j]));
        lemma_remove_all(m, prev);
        let pm = remove_all(m, prev);
        assert(!prev.contains(last)) by {
            if prev.contains(last) {
                let p = choose|p: int| 0 <= p < prev.len() && prev[p] == last;
                assert(ids[p] == ids[ids.len() - 1]);
            }
        }
        assert(m.contains_key(last));
        assert(pm.contains_key(last));
        assert(remove_all(m, ids).dom() =~= pm.dom().remove(last));
        assert forall|k: Seq<char>| #[trigger] remove_all(m, ids).contains_key(k)
            <==> m.contains_key(k) && !ids.contains(k) by {
            assert(ids.contains(k) <==> prev.contains(k) || k == last) by {
                if ids.contains(k) {
                    let p = choose|p: int| 0 <= p < ids.len() && ids[p] == k;
                    if p < ids.len() - 1 {
                        assert(prev[p] == k);
                    }
                }
                if prev.contains(k) {
                    let p = choose|p: int| 0 <= p < prev.len() && prev[p] == k;
                    assert(ids[p] == k);
                }
                if k == last {
                    assert(ids[ids.len() - 1] == k);
                }
            }
        }
    }
}

/// A run of creates against an initially empty store followed by deletes of
/// distinct, still-present identifiers leaves exactly one record per create
/// not yet deleted, and the surviving identifiers are exactly the assigned
/// ones that were not deleted.
pub proof fn lemma_creates_then_deletes(names: Seq<Seq<char>>, removed: Seq<Seq<char>>)
    requires
        removed.no_duplicates(),
        forall|j: int| 0 <= j < removed.len()
            ==> store_after_creates(names).contains_key(#[trigger] removed[j]),
    ensures
        remove_all(store_after_creates(names), removed).dom().len()
            == names.len() - removed.len(),
        forall|k: Seq<char>|
            #[trigger] remove_all(store_after_creates(names), removed).contains_key(k)
            <==> store_after_creates(names).contains_key(k) && !removed.contains(k),
{
    lemma_sequential_creates(names);
    lemma_remove_all(store_after_creates(names), removed);
}

} // verus!
