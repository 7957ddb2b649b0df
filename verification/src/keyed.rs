//! Lists of records that are found by a numeric key: the first record with a
//! key, inserting or replacing by key, and removing by key.

use vstd::prelude::*;

verus! {

/// A record with a numeric key that its view determines.
pub trait Keyed: DeepView {
    /// The key of a record, read from its view.
    spec fn key_of(v: Self::V) -> u64;

    fn key(&self) -> (k: u64)
        ensures
            k == Self::key_of(self.deep_view()),
    ;
}

/// The position of the first record with the key, or the length of the list
/// if no record has it.
pub open spec fn index_of<T: Keyed>(s: Seq<T::V>, key: u64) -> int
    decreases s.len(),
{
    if s.len() == 0 {
        0
    } else if T::key_of(s[0]) == key {
        0
    } else {
        1 + index_of::<T>(s.skip(1), key)
    }
}

/// Whether some record of the list has the key.
pub open spec fn has_key<T: Keyed>(s: Seq<T::V>, key: u64) -> bool {
    index_of::<T>(s, key) < s.len()
}

/// The first record with the key, if there is one.
pub open spec fn lookup<T: Keyed>(s: Seq<T::V>, key: u64) -> Option<T::V> {
    if has_key::<T>(s, key) {
        Some(s[index_of::<T>(s, key)])
    } else {
        None
    }
}

/// The list without the records that have the key; the others keep their
/// order.
pub open spec fn without<T: Keyed>(s: Seq<T::V>, key: u64) -> Seq<T::V>
    decreases s.len(),
{
    if s.len() == 0 {
        s
    } else if T::key_of(s.last()) == key {
        without::<T>(s.drop_last(), key)
    } else {
        without::<T>(s.drop_last(), key).push(s.last())
    }
}

/// The list with the record put in the place of the first record that has
/// its key, or at the end if no record has it.
pub open spec fn upsert<T: Keyed>(s: Seq<T::V>, item: T::V) -> Seq<T::V> {
    let i = index_of::<T>(s, T::key_of(item));
    if i < s.len() {
        s.update(i, item)
    } else {
        s.push(item)
    }
}

/// The list with the record put in the place of the first record that has
/// its key; unchanged if no record has it.
pub open spec fn replace<T: Keyed>(s: Seq<T::V>, item: T::V) -> Seq<T::V> {
    let i = index_of::<T>(s, T::key_of(item));
    if i < s.len() {
        s.update(i, item)
    } else {
        s
    }
}

/// The list after each record of the batch, in order, is put in by key.
pub open spec fn upsert_all<T: Keyed>(s: Seq<T::V>, batch: Seq<T::V>) -> Seq<T::V>
    decreases batch.len(),
{
    if batch.len() == 0 {
        s
    } else {
        upsert::<T>(upsert_all::<T>(s, batch.drop_last()), batch.last())
    }
}

/// Whether no two records of the list share a key.
pub open spec fn distinct<T: Keyed>(s: Seq<T::V>) -> bool {
    forall|i: int, j: int|
        0 <= i < s.len() && 0 <= j < s.len() && i != j ==> T::key_of(#[trigger] s[i])
            != T::key_of(#[trigger] s[j])
}

/// What `index_of` finds: a position within the list or its length; at a
/// position within, the record has the key; no record before it has.
pub proof fn lemma_index_of<T: Keyed>(s: Seq<T::V>, key: u64)
    ensures
        0 <= index_of::<T>(s, key) <= s.len(),
        index_of::<T>(s, key) < s.len() ==> T::key_of(s[index_of::<T>(s, key)]) == key,
        forall|k: int| 0 <= k < index_of::<T>(s, key) ==> T::key_of(#[trigger] s[k]) != key,
    decreases s.len(),
{
    if s.len() == 0 {
    } else if T::key_of(s[0]) == key {
    } else {
        let rest = s.skip(1);
        lemma_index_of::<T>(rest, key);
        let r = index_of::<T>(rest, key);
        if r < rest.len() {
        }
        assert forall|k: int| 0 <= k < 1 + r implies T::key_of(#[trigger] s[k]) != key by {
            if k > 0 {
                assert(rest[k - 1] == s[k]);
            }
        }
    }
}

/// A position whose record has the key, with none before it that has, is
/// what `index_of` finds; where no record has the key it finds the length.
pub proof fn lemma_index_of_is<T: Keyed>(s: Seq<T::V>, key: u64, i: int)
    requires
        0 <= i <= s.len(),
        i < s.len() ==> T::key_of(s[i]) == key,
        forall|k: int| 0 <= k < i ==> T::key_of(#[trigger] s[k]) != key,
    ensures
        index_of::<T>(s, key) == i,
{
    lemma_index_of::<T>(s, key);
    let j = index_of::<T>(s, key);
    if j < i {
    } else if i < j {
    }
}

/// No record with the key is left after `without`; every record that is left
/// was there before.
pub proof fn lemma_without<T: Keyed>(s: Seq<T::V>, key: u64)
    ensures
        !has_key::<T>(without::<T>(s, key), key),
        without::<T>(s, key).len() <= s.len(),
        forall|k: int|
            0 <= k < without::<T>(s, key).len() ==> s.contains(
                #[trigger] without::<T>(s, key)[k],
            ) && T::key_of(without::<T>(s, key)[k]) != key,
        !has_key::<T>(s, key) ==> without::<T>(s, key) == s,
        distinct::<T>(s) ==> distinct::<T>(without::<T>(s, key)),
    decreases s.len(),
{
    let w = without::<T>(s, key);
    if s.len() == 0 {
        lemma_index_of::<T>(w, key);
    } else {
        let init = s.drop_last();
        lemma_without::<T>(init, key);
        let wi = without::<T>(init, key);
        assert forall|k: int| 0 <= k < w.len() implies s.contains(#[trigger] w[k]) && T::key_of(
            w[k],
        ) != key by {
            if k < wi.len() {
                let j = choose|j: int| 0 <= j < init.len() && init[j] == wi[k];
            } else {
            }
        }
        lemma_index_of::<T>(w, key);
        if !has_key::<T>(s, key) {
            lemma_index_of::<T>(s, key);
            lemma_index_of::<T>(init, key);
            assert forall|k: int| 0 <= k < init.len() implies T::key_of(#[trigger] init[k])
                != key by {
            }
            lemma_index_of_is::<T>(init, key, init.len() as int);
        }
        if distinct::<T>(s) {
            assert forall|i: int, j: int|
                0 <= i < init.len() && 0 <= j < init.len() && i != j implies T::key_of(
                #[trigger] init[i],
            ) != T::key_of(#[trigger] init[j]) by {
            }
            if T::key_of(s.last()) != key {
                assert forall|i: int, j: int|
                    0 <= i < w.len() && 0 <= j < w.len() && i != j implies T::key_of(
                    #[trigger] w[i],
                ) != T::key_of(#[trigger] w[j]) by {
                    lemma_without_keys_from::<T>(init, key);
                    if i < wi.len() && j < wi.len() {
                    } else if i < wi.len() {
                        lemma_key_in_init::<T>(s, wi[i]);
                    } else {
                        lemma_key_in_init::<T>(s, wi[j]);
                    }
                }
            }
        }
    }
}

/// Every record that `without` leaves was in the list.
pub proof fn lemma_without_keys_from<T: Keyed>(s: Seq<T::V>, key: u64)
    ensures
        forall|k: int|
            0 <= k < without::<T>(s, key).len() ==> s.contains(
                #[trigger] without::<T>(s, key)[k],
            ),
    decreases s.len(),
{
    let w = without::<T>(s, key);
    if s.len() > 0 {
        let init = s.drop_last();
        lemma_without_keys_from::<T>(init, key);
        let wi = without::<T>(init, key);
        assert forall|k: int| 0 <= k < w.len() implies s.contains(#[trigger] w[k]) by {
            if k < wi.len() {
                let j = choose|j: int| 0 <= j < init.len() && init[j] == wi[k];
            } else {
            }
        }
    }
}

/// In a list without repeated keys, a record found before the last one has
/// another key than the last.
pub proof fn lemma_key_in_init<T: Keyed>(s: Seq<T::V>, item: T::V)
    requires
        s.len() > 0,
        distinct::<T>(s),
        s.drop_last().contains(item),
    ensures
        T::key_of(item) != T::key_of(s.last()),
{
    let init = s.drop_last();
    let j = choose|j: int| 0 <= j < init.len() && init[j] == item;
}

/// Putting a record in by key keeps the keys of the list distinct, and the
/// record is then the one found under its key.
pub proof fn lemma_upsert<T: Keyed>(s: Seq<T::V>, item: T::V)
    ensures
        lookup::<T>(upsert::<T>(s, item), T::key_of(item)) == Some(item),
        upsert::<T>(s, item).len() == if has_key::<T>(s, T::key_of(item)) {
            s.len()
        } else {
            s.len() + 1
        },
        distinct::<T>(s) ==> distinct::<T>(upsert::<T>(s, item)),
        forall|key: u64|
            key != T::key_of(item) ==> lookup::<T>(upsert::<T>(s, item), key) == lookup::<T>(
                s,
                key,
            ),
        forall|key: u64| #[trigger]
            has_key::<T>(upsert::<T>(s, item), key) == (key == T::key_of(item) || has_key::<T>(
                s,
                key,
            )),
{
    let key = T::key_of(item);
    let i = index_of::<T>(s, key);
    let u = upsert::<T>(s, item);
    lemma_index_of::<T>(s, key);
    lemma_index_of_is::<T>(u, key, i);
    assert forall|other: u64| other != key implies lookup::<T>(u, other) == lookup::<T>(
        s,
        other,
    ) by {
        lemma_index_of::<T>(s, other);
        let j = index_of::<T>(s, other);
        if j < s.len() {
            assert forall|k: int| 0 <= k < j implies T::key_of(#[trigger] u[k]) != other by {
                if k != i {
                }
            }
            lemma_index_of_is::<T>(u, other, j);
        } else {
            assert forall|k: int| 0 <= k < u.len() implies T::key_of(#[trigger] u[k])
                != other by {
                if k != i {
                }
            }
            lemma_index_of_is::<T>(u, other, u.len() as int);
        }
    }
    assert forall|other: u64| #[trigger]
        has_key::<T>(u, other) == (other == key || has_key::<T>(s, other)) by {
        if other != key {
            assert(lookup::<T>(u, other) == lookup::<T>(s, other));
        }
    }
    if distinct::<T>(s) {
        assert forall|a: int, b: int|
            0 <= a < u.len() && 0 <= b < u.len() && a != b implies T::key_of(#[trigger] u[a])
            != T::key_of(#[trigger] u[b]) by {
            if a != i && b != i {
            } else if a == i {
                if i < s.len() {
                }
            } else {
                if i < s.len() {
                }
            }
        }
    }
}

/// Replacing a record by key keeps which keys the list holds and keeps them
/// distinct; a key other than the record's finds what it found before.
pub proof fn lemma_replace<T: Keyed>(s: Seq<T::V>, item: T::V)
    ensures
        replace::<T>(s, item).len() == s.len(),
        distinct::<T>(s) ==> distinct::<T>(replace::<T>(s, item)),
        has_key::<T>(s, T::key_of(item)) ==> replace::<T>(s, item) == upsert::<T>(s, item),
        !has_key::<T>(s, T::key_of(item)) ==> replace::<T>(s, item) == s,
        forall|key: u64| #[trigger]
            has_key::<T>(replace::<T>(s, item), key) == has_key::<T>(s, key),
{
    lemma_upsert::<T>(s, item);
}

/// What is found in a list after `without`: under the removed key nothing,
/// under any other key what was found before.
pub proof fn lemma_without_lookup<T: Keyed>(s: Seq<T::V>, key: u64, other: u64)
    ensures
        lookup::<T>(without::<T>(s, key), other) == if other == key {
            None
        } else {
            lookup::<T>(s, other)
        },
        has_key::<T>(without::<T>(s, key), other) == (other != key && has_key::<T>(s, other)),
    decreases s.len(),
{
    let w = without::<T>(s, key);
    lemma_without::<T>(s, key);
    if other != key && s.len() > 0 {
        let init = s.drop_last();
        let wi = without::<T>(init, key);
        lemma_without_lookup::<T>(init, key, other);
        lemma_index_of::<T>(init, other);
        lemma_index_of::<T>(wi, other);
        lemma_index_of::<T>(s, other);
        let a = index_of::<T>(init, other);
        let b = index_of::<T>(wi, other);
        if a < init.len() {
            // found before the last record, on both sides
            assert forall|k: int| 0 <= k < a implies T::key_of(#[trigger] s[k]) != other by {
                assert(s[k] == init[k]);
            }
            lemma_index_of_is::<T>(s, other, a);
            assert forall|k: int| 0 <= k < b implies T::key_of(#[trigger] w[k]) != other by {
            }
            lemma_index_of_is::<T>(w, other, b);
        } else {
            assert forall|k: int| 0 <= k < init.len() implies T::key_of(#[trigger] s[k])
                != other by {
                assert(s[k] == init[k]);
            }
            assert forall|k: int| 0 <= k < wi.len() implies T::key_of(#[trigger] w[k])
                != other by {
            }
            if T::key_of(s.last()) == other {
                lemma_index_of_is::<T>(s, other, s.len() - 1);
                lemma_index_of_is::<T>(w, other, w.len() - 1);
            } else {
                lemma_index_of_is::<T>(s, other, s.len() as int);
                lemma_index_of_is::<T>(w, other, w.len() as int);
            }
        }
    } else if other != key {
        lemma_index_of::<T>(s, other);
    }
}

/// Putting a batch in by key keeps the keys distinct; the list then holds
/// the keys it held and those of the batch.
pub proof fn lemma_upsert_all<T: Keyed>(s: Seq<T::V>, batch: Seq<T::V>)
    ensures
        distinct::<T>(s) ==> distinct::<T>(upsert_all::<T>(s, batch)),
        forall|key: u64| #[trigger]
            has_key::<T>(upsert_all::<T>(s, batch), key) == (has_key::<T>(s, key) || has_key::<
                T,
            >(batch, key)),
        forall|key: u64|
            has_key::<T>(s, key) ==> #[trigger] has_key::<T>(upsert_all::<T>(s, batch), key),
    decreases batch.len(),
{
    if batch.len() == 0 {
        assert forall|key: u64| !has_key::<T>(batch, key) by {
            lemma_index_of::<T>(batch, key);
        }
    } else {
        let init = batch.drop_last();
        let mid = upsert_all::<T>(s, init);
        lemma_upsert_all::<T>(s, init);
        lemma_upsert::<T>(mid, batch.last());
        assert forall|key: u64| #[trigger]
            has_key::<T>(batch, key) == (has_key::<T>(init, key) || key == T::key_of(
                batch.last(),
            )) by {
            lemma_index_of::<T>(batch, key);
            lemma_index_of::<T>(init, key);
            let a = index_of::<T>(init, key);
            if a < init.len() {
                assert forall|k: int| 0 <= k < a implies T::key_of(#[trigger] batch[k])
                    != key by {
                    assert(batch[k] == init[k]);
                }
                lemma_index_of_is::<T>(batch, key, a);
            } else {
                assert forall|k: int| 0 <= k < init.len() implies T::key_of(
                    #[trigger] batch[k],
                ) != key by {
                    assert(batch[k] == init[k]);
                }
                if key == T::key_of(batch.last()) {
                    lemma_index_of_is::<T>(batch, key, batch.len() - 1);
                } else {
                    lemma_index_of_is::<T>(batch, key, batch.len() as int);
                }
            }
        }
    }
}

/// Finds the first record with the key.
pub fn find_key<T: Keyed>(v: &Vec<T>, key: u64) -> (r: Option<usize>)
    ensures
        match r {
            Some(i) => i < v.len() && i == index_of::<T>(v.deep_view(), key),
            None => !has_key::<T>(v.deep_view(), key),
        },
{
    let mut i: usize = 0;
    while i < v.len()
        invariant
            i <= v.len(),
            forall|k: int| 0 <= k < i ==> T::key_of(#[trigger] v.deep_view()[k]) != key,
        decreases v.len() - i,
    {
        if v[i].key() == key {
            proof {
                lemma_index_of_is::<T>(v.deep_view(), key, i as int);
            }
            return Some(i);
        }
        i += 1;
    }
    proof {
        lemma_index_of_is::<T>(v.deep_view(), key, v.len() as int);
    }
    None
}

/// Puts the record in the place of the first record with its key, or at the
/// end if there is none.
pub fn put<T: Keyed>(v: &mut Vec<T>, item: T)
    ensures
        final(v).deep_view() == upsert::<T>(old(v).deep_view(), item.deep_view()),
{
    let found = find_key(v, item.key());
    match found {
        Some(i) => {
            v.set(i, item);
        },
        None => {
            v.push(item);
        },
    }
}

/// Whether no two records share a key.
pub fn all_distinct<T: Keyed>(v: &Vec<T>) -> (r: bool)
    ensures
        r == distinct::<T>(v.deep_view()),
{
    let mut i: usize = 0;
    while i < v.len()
        invariant
            i <= v.len(),
            forall|a: int, b: int|
                0 <= a < i && a < b < v.len() ==> T::key_of(#[trigger] v.deep_view()[a])
                    != T::key_of(#[trigger] v.deep_view()[b]),
        decreases v.len() - i,
    {
        let key = v[i].key();
        let mut j: usize = i + 1;
        while j < v.len()
            invariant
                i < j <= v.len(),
                key == T::key_of(v.deep_view()[i as int]),
                forall|b: int| i < b < j ==> T::key_of(#[trigger] v.deep_view()[b]) != key,
            decreases v.len() - j,
        {
            if v[j].key() == key {
                assert(T::key_of(v.deep_view()[i as int]) == T::key_of(v.deep_view()[j as int]));
                return false;
            }
            j += 1;
        }
        i += 1;
    }
    assert forall|a: int, b: int|
        0 <= a < v.len() && 0 <= b < v.len() && a != b implies T::key_of(
        #[trigger] v.deep_view()[a],
    ) != T::key_of(#[trigger] v.deep_view()[b]) by {
        if a < b {
        } else {
        }
    }
    true
}

/// Removes every record with the key.
pub fn remove_key<T: Keyed>(v: &mut Vec<T>, key: u64)
    ensures
        final(v).deep_view() == without::<T>(old(v).deep_view(), key),
{
    let mut i: usize = 0;
    let ghost mut done: int = 0;
    assert(old(v).deep_view().take(0) =~= Seq::<T::V>::empty());
    assert(v.deep_view() =~= without::<T>(old(v).deep_view().take(0), key) + old(
        v,
    ).deep_view().skip(0));
    while i < v.len()
        invariant
            0 <= done <= old(v).len(),
            i <= v.len(),
            v.len() - i == old(v).len() - done,
            v.deep_view() == without::<T>(old(v).deep_view().take(done), key) + old(
                v,
            ).deep_view().skip(done),
            i == without::<T>(old(v).deep_view().take(done), key).len(),
        decreases v.len() - i,
    {
        let ghost all = old(v).deep_view();
        let ghost kept = without::<T>(all.take(done), key);
        proof {
            assert(all.take(done + 1).drop_last() =~= all.take(done));
            assert(all.take(done + 1).last() == all[done]);
            assert(v.deep_view()[i as int] == all.skip(done)[0]);
        }
        let ghost before = v.deep_view();
        let ghost before_items = v@;
        if v[i].key() == key {
            v.remove(i);
            proof {
                assert(v@ == before_items.remove(i as int));
                assert forall|k: int| 0 <= k < v.len() implies v.deep_view()[k] == (kept
                    + all.skip(done + 1))[k] by {
                    if k < i {
                        assert(v@[k] == before_items[k]);
                        assert(before[k] == kept[k]);
                    } else {
                        assert(v@[k] == before_items[k + 1]);
                        assert(before[k + 1] == all.skip(done)[k + 1 - i]);
                    }
                }
                assert(v.deep_view() =~= kept + all.skip(done + 1));
            }
        } else {
            proof {
                assert(v.deep_view() =~= kept.push(all[done]) + all.skip(done + 1));
            }
            i += 1;
        }
        proof {
            done = done + 1;
        }
    }
    proof {
        assert(old(v).deep_view().take(done) =~= old(v).deep_view());
        assert(v.deep_view() =~= without::<T>(old(v).deep_view(), key));
    }
}

} // verus!
