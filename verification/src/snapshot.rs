//! A snapshot: the records of one table as they were read in one
//! transaction, in the order in which the store handed them out, one record
//! for each key.

use crate::bytes::{
    bytes_eq, bytes_lt, lemma_lex_lt_irreflexive, lemma_lex_lt_transitive, lex_le, lex_lt,
};
use crate::database_item::DatabaseItem;
use crate::index_map::{map_entries, map_get_index, map_insert, map_len, map_new};
use indexmap::IndexMap;
use vstd::pervasive::unreached;
use vstd::prelude::*;

verus! {

/// The mathematical model of a snapshot: key/data pairs in order.
pub type Entries = Seq<(Seq<u8>, Seq<u8>)>;

/// Whether some entry has this key.
pub open spec fn has_key(entries: Entries, key: Seq<u8>) -> bool {
    exists|i: int| 0 <= i < entries.len() && (#[trigger] entries[i]).0 == key
}

/// The place of an entry with this key, where there is one.
pub open spec fn position_of(entries: Entries, key: Seq<u8>) -> int {
    choose|i: int| 0 <= i < entries.len() && (#[trigger] entries[i]).0 == key
}

/// Map semantics for one record: a key that is already there keeps its place
/// and takes the new data; a new key goes last.
pub open spec fn upsert(entries: Entries, key: Seq<u8>, data: Seq<u8>) -> Entries {
    if has_key(entries, key) {
        entries.update(position_of(entries, key), (key, data))
    } else {
        entries.push((key, data))
    }
}

/// The snapshot that a run of records makes: each record in turn, with map
/// semantics.
pub open spec fn snapshot_of(records: Entries) -> Entries
    decreases records.len(),
{
    if records.len() == 0 {
        Seq::empty()
    } else {
        upsert(snapshot_of(records.drop_last()), records.last().0, records.last().1)
    }
}

/// No key occurs twice.
pub open spec fn keys_distinct(entries: Entries) -> bool {
    forall|i: int, j: int|
        0 <= i < j < entries.len() ==> (#[trigger] entries[i]).0 != (#[trigger] entries[j]).0
}

/// Keys never go down in byte-lexicographic order.
pub open spec fn keys_ascending(entries: Entries) -> bool {
    forall|i: int, j: int|
        0 <= i < j < entries.len() ==> lex_le((#[trigger] entries[i]).0, (#[trigger] entries[j]).0)
}

/// Keys go strictly up in byte-lexicographic order.
pub open spec fn keys_strictly_ascending(entries: Entries) -> bool {
    forall|i: int, j: int|
        0 <= i < j < entries.len() ==> lex_lt((#[trigger] entries[i]).0, (#[trigger] entries[j]).0)
}

/// The records that a vector of items stands for.
pub open spec fn records_of(items: Seq<DatabaseItem>) -> Entries {
    items.map_values(|item: DatabaseItem| item@)
}

/// A snapshot depends on nothing but the bytes of the records and their
/// order: two scans that hand out the same records make the same snapshot.
pub proof fn lemma_same_records_same_snapshot(first: Seq<DatabaseItem>, second: Seq<DatabaseItem>)
    requires
        first.len() == second.len(),
        forall|i: int| 0 <= i < first.len() ==> first[i]@ == second[i]@,
    ensures
        snapshot_of(records_of(first)) == snapshot_of(records_of(second)),
{
    assert(records_of(first) =~= records_of(second));
}

/// Taking one record in keeps the keys distinct.
pub proof fn lemma_upsert_keeps_keys_distinct(entries: Entries, key: Seq<u8>, data: Seq<u8>)
    requires
        keys_distinct(entries),
    ensures
        keys_distinct(upsert(entries, key, data)),
{
    let after = upsert(entries, key, data);
    if has_key(entries, key) {
        assert forall|i: int, j: int| 0 <= i < j < after.len() implies
            (#[trigger] after[i]).0 != (#[trigger] after[j]).0 by {
            assert(after[i].0 == entries[i].0);
            assert(after[j].0 == entries[j].0);
        }
    } else {
        assert forall|i: int, j: int| 0 <= i < j < after.len() implies
            (#[trigger] after[i]).0 != (#[trigger] after[j]).0 by {
            if j < entries.len() {
                assert(after[i].0 == entries[i].0);
                assert(after[j].0 == entries[j].0);
            } else {
                assert(after[i] == entries[i]);
            }
        }
    }
}

/// A snapshot never holds a key twice, whatever the records were.
pub proof fn lemma_snapshot_keys_distinct(records: Entries)
    ensures
        keys_distinct(snapshot_of(records)),
    decreases records.len(),
{
    if records.len() > 0 {
        lemma_snapshot_keys_distinct(records.drop_last());
        lemma_upsert_keeps_keys_distinct(
            snapshot_of(records.drop_last()),
            records.last().0,
            records.last().1,
        );
    }
}

/// Records that never repeat a key make the snapshot that they are: the
/// same entries in the same order.
pub proof fn lemma_snapshot_of_distinct_records(records: Entries)
    requires
        keys_distinct(records),
    ensures
        snapshot_of(records) == records,
    decreases records.len(),
{
    if records.len() > 0 {
        let earlier = records.drop_last();
        let last = records.len() - 1;
        assert forall|i: int, j: int| 0 <= i < j < earlier.len() implies
            (#[trigger] earlier[i]).0 != (#[trigger] earlier[j]).0 by {
            assert(earlier[i] == records[i]);
            assert(earlier[j] == records[j]);
        }
        lemma_snapshot_of_distinct_records(earlier);
        assert(!has_key(earlier, records.last().0)) by {
            if has_key(earlier, records.last().0) {
                let i = position_of(earlier, records.last().0);
                assert(earlier[i] == records[i]);
                assert(records[i].0 != records[last].0);
            }
        }
        assert(earlier.push(records.last()) =~= records);
    } else {
        assert(records =~= Seq::<(Seq<u8>, Seq<u8>)>::empty());
    }
}

/// Every key of a snapshot is the key of one of the records it was made of.
pub proof fn lemma_snapshot_keys_come_from_records(records: Entries, i: int)
    requires
        0 <= i < snapshot_of(records).len(),
    ensures
        has_key(records, snapshot_of(records)[i].0),
    decreases records.len(),
{
    if records.len() > 0 {
        let before = snapshot_of(records.drop_last());
        let key = records.last().0;
        let last = records.len() - 1;
        if i < before.len() && snapshot_of(records)[i].0 == before[i].0 {
            lemma_snapshot_keys_come_from_records(records.drop_last(), i);
            let j = position_of(records.drop_last(), before[i].0);
            assert(records[j].0 == records.drop_last()[j].0);
        } else {
            assert(snapshot_of(records)[i].0 == key);
            assert(records[last].0 == key);
        }
    }
}

/// Where the store hands its records out in byte-lexicographic order of
/// their keys, equal keys side by side or not at all, the snapshot is in
/// strictly ascending order.
pub proof fn lemma_snapshot_of_ascending_records(records: Entries)
    requires
        keys_ascending(records),
    ensures
        keys_strictly_ascending(snapshot_of(records)),
    decreases records.len(),
{
    if records.len() > 0 {
        let earlier = records.drop_last();
        let before = snapshot_of(earlier);
        let key = records.last().0;
        let after = snapshot_of(records);
        let last = records.len() - 1;
        assert forall|i: int, j: int| 0 <= i < j < earlier.len() implies
            lex_le((#[trigger] earlier[i]).0, (#[trigger] earlier[j]).0) by {
            assert(earlier[i] == records[i]);
            assert(earlier[j] == records[j]);
        }
        lemma_snapshot_of_ascending_records(earlier);
        if has_key(before, key) {
            assert forall|i: int, j: int| 0 <= i < j < after.len() implies
                lex_lt((#[trigger] after[i]).0, (#[trigger] after[j]).0) by {
                assert(after[i].0 == before[i].0);
                assert(after[j].0 == before[j].0);
            }
        } else {
            assert forall|i: int, j: int| 0 <= i < j < after.len() implies
                lex_lt((#[trigger] after[i]).0, (#[trigger] after[j]).0) by {
                if j < before.len() {
                    assert(after[i] == before[i]);
                    assert(after[j] == before[j]);
                } else {
                    assert(after[i] == before[i]);
                    assert(after[j].0 == key);
                    lemma_snapshot_keys_come_from_records(earlier, i);
                    let k = position_of(earlier, before[i].0);
                    assert(earlier[k] == records[k]);
                    assert(lex_le(records[k].0, records[last].0));
                    assert(before[i].0 != key);
                }
            }
        }
    }
}

/// Keys that go strictly up never repeat.
pub proof fn lemma_strictly_ascending_keys_are_distinct(entries: Entries)
    requires
        keys_strictly_ascending(entries),
    ensures
        keys_distinct(entries),
{
    assert forall|i: int, j: int| 0 <= i < j < entries.len() implies
        (#[trigger] entries[i]).0 != (#[trigger] entries[j]).0 by {
        lemma_lex_lt_irreflexive(entries[i].0);
    }
}

/// Keys that go up from each entry to the next go up from each entry to
/// every later one.
pub proof fn lemma_ascending_step_by_step(entries: Entries, i: int, j: int)
    requires
        forall|k: int|
            0 < k < entries.len() ==> lex_lt(entries[k - 1].0, (#[trigger] entries[k]).0),
        0 <= i < j < entries.len(),
    ensures
        lex_lt(entries[i].0, entries[j].0),
    decreases j - i,
{
    if i + 1 < j {
        lemma_ascending_step_by_step(entries, i, j - 1);
        assert(lex_lt(entries[j - 1].0, entries[j].0));
        lemma_lex_lt_transitive(entries[i].0, entries[j - 1].0, entries[j].0);
    } else {
        assert(lex_lt(entries[j - 1].0, entries[j].0));
    }
}

/// An immutable, ordered copy of one table's records.
pub struct Snapshot {
    items: IndexMap<Vec<u8>, Vec<u8>>,
}

impl View for Snapshot {
    type V = Seq<(Seq<u8>, Seq<u8>)>;

    closed spec fn view(&self) -> Seq<(Seq<u8>, Seq<u8>)> {
        map_entries(self.items)
    }
}

impl Snapshot {
    #[verifier::type_invariant]
    spec fn keys_never_repeat(self) -> bool {
        keys_distinct(map_entries(self.items))
    }

    /// The snapshot of a table without records.
    pub fn new() -> (snapshot: Snapshot)
        ensures
            snapshot@ == Seq::<(Seq<u8>, Seq<u8>)>::empty(),
    {
        Snapshot { items: map_new() }
    }

    /// Takes the records in, in the order given, with map semantics: of two
    /// records with one key the first fixes the place and the last the data.
    /// Records that never repeat a key are taken as they are.
    pub fn from_records(records: Vec<DatabaseItem>) -> (snapshot: Snapshot)
        ensures
            snapshot@ == snapshot_of(records_of(records@)),
            keys_distinct(snapshot@),
            keys_distinct(records_of(records@)) ==> snapshot@ == records_of(records@),
    {
        let mut items = map_new();
        let ghost all = records_of(records@);
        assert(all.take(0) =~= Seq::<(Seq<u8>, Seq<u8>)>::empty());
        for item in iter: records.into_iter()
            invariant
                iter.seq() == records@,
                all == records_of(records@),
                map_entries(items) == snapshot_of(all.take(iter.index() as int)),
                keys_distinct(map_entries(items)),
        {
            let ghost before = map_entries(items);
            let ghost i = iter.index() as int;
            let (key, data) = item.into_parts();
            let _ = map_insert(&mut items, key, data);
            proof {
                let prefix = all.take(i + 1);
                assert(prefix.drop_last() =~= all.take(i));
                assert(prefix.last() == records@[i]@);
                assert(map_entries(items) == upsert(before, key@, data@)) by {
                    if has_key(before, key@) {
                        assert(before.push((key@, data@)).len() != before.len());
                    }
                }
                lemma_upsert_keeps_keys_distinct(before, key@, data@);
            }
        }
        assert(all.take(records@.len() as int) =~= all);
        proof {
            if keys_distinct(all) {
                lemma_snapshot_of_distinct_records(all);
            }
        }
        Snapshot { items }
    }

    /// The number of entries. No two of them have the same key.
    pub fn len(&self) -> (len: usize)
        ensures
            len == self@.len(),
            keys_distinct(self@),
    {
        proof {
            use_type_invariant(self);
        }
        map_len(&self.items)
    }

    /// Whether the keys go strictly up in byte-lexicographic order, as they
    /// do in a table that the store keeps in its default order.
    pub fn is_strictly_ascending(&self) -> (ascending: bool)
        ensures
            ascending == keys_strictly_ascending(self@),
    {
        let len = self.len();
        let mut k: usize = 1;
        while k < len
            invariant
                len == self@.len(),
                1 <= k,
                forall|h: int|
                    0 < h < k && h < len ==> lex_lt(self@[h - 1].0, (#[trigger] self@[h]).0),
            decreases len - k,
        {
            if !bytes_lt(self.key_at(k - 1), self.key_at(k)) {
                assert(!lex_lt(self@[k - 1].0, self@[k as int].0));
                return false;
            }
            k += 1;
        }
        proof {
            assert forall|i: int, j: int| 0 <= i < j < self@.len() implies
                lex_lt((#[trigger] self@[i]).0, (#[trigger] self@[j]).0) by {
                lemma_ascending_step_by_step(self@, i, j);
            }
        }
        true
    }

    /// The key of the entry at `index`.
    pub fn key_at(&self, index: usize) -> (key: &[u8])
        requires
            index < self@.len(),
        ensures
            key@ == self@[index as int].0,
    {
        match map_get_index(&self.items, index) {
            Some((key, _)) => key.as_slice(),
            None => unreached(),
        }
    }

    /// The data of the entry at `index`.
    pub fn data_at(&self, index: usize) -> (data: &[u8])
        requires
            index < self@.len(),
        ensures
            data@ == self@[index as int].1,
    {
        match map_get_index(&self.items, index) {
            Some((_, data)) => data.as_slice(),
            None => unreached(),
        }
    }

    /// The entry at `index`, copied out.
    pub fn get(&self, index: usize) -> (item: DatabaseItem)
        requires
            index < self@.len(),
        ensures
            item@ == self@[index as int],
    {
        match map_get_index(&self.items, index) {
            Some((key, data)) => DatabaseItem::new(key.as_slice(), data.as_slice()),
            None => unreached(),
        }
    }

    /// Whether the entry at `index` here and the entry at `other_index`
    /// there hold the same key and the same data.
    pub fn same_entry(&self, index: usize, other: &Snapshot, other_index: usize) -> (same: bool)
        requires
            index < self@.len(),
            other_index < other@.len(),
        ensures
            same == (self@[index as int] == other@[other_index as int]),
    {
        match (map_get_index(&self.items, index), map_get_index(&other.items, other_index)) {
            (Some((key, data)), Some((other_key, other_data))) => {
                bytes_eq(key.as_slice(), other_key.as_slice())
                    && bytes_eq(data.as_slice(), other_data.as_slice())
            },
            _ => unreached(),
        }
    }
}

} // verus!
