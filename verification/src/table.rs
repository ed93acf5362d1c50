//! A small table from names to values, kept as a list in the order in
//! which names were first inserted.

use crate::text::same_text;
use vstd::prelude::*;

verus! {

/// A table from names to values.
pub struct Table<V> {
    entries: Vec<(String, V)>,
}

/// The map that a list of entries stands for: for a name that occurs more
/// than once the first entry counts.
pub open spec fn map_of<V: View>(entries: Seq<(String, V)>) -> Map<Seq<char>, V::V>
    decreases entries.len(),
{
    if entries.len() == 0 {
        Map::empty()
    } else {
        map_of(entries.drop_first()).insert(entries[0].0@, entries[0].1@)
    }
}

/// Entries whose names all differ from `key` do not matter for `key`.
proof fn lemma_skip_others<V: View>(entries: Seq<(String, V)>, key: Seq<char>, i: int)
    requires
        0 <= i <= entries.len(),
        forall|j: int| 0 <= j < i ==> (#[trigger] entries[j]).0@ != key,
    ensures
        map_of(entries).dom().contains(key) == map_of(
            entries.subrange(i, entries.len() as int),
        ).dom().contains(key),
        map_of(entries).dom().contains(key) ==> map_of(entries)[key] == map_of(
            entries.subrange(i, entries.len() as int),
        )[key],
    decreases i,
{
    if i == 0 {
        assert(entries.subrange(0, entries.len() as int) =~= entries);
    } else {
        let rest = entries.drop_first();
        assert forall|j: int| 0 <= j < i - 1 implies (#[trigger] rest[j]).0@ != key by {
            assert(rest[j] == entries[j + 1]);
        }
        lemma_skip_others(rest, key, i - 1);
        assert(rest.subrange(i - 1, rest.len() as int) =~= entries.subrange(
            i,
            entries.len() as int,
        ));
        assert(entries[0].0@ != key);
    }
}

/// A new entry at the end counts for its name only if the name is new.
proof fn lemma_push_new<V: View>(entries: Seq<(String, V)>, entry: (String, V))
    requires
        forall|j: int| 0 <= j < entries.len() ==> (#[trigger] entries[j]).0@ != entry.0@,
    ensures
        map_of(entries.push(entry)) == map_of(entries).insert(entry.0@, entry.1@),
    decreases entries.len(),
{
    if entries.len() == 0 {
        assert(entries.push(entry).drop_first() =~= entries);
        assert(map_of(entries.push(entry)) =~= map_of(entries).insert(entry.0@, entry.1@));
    } else {
        let rest = entries.drop_first();
        assert forall|j: int| 0 <= j < rest.len() implies (#[trigger] rest[j]).0@ != entry.0@ by {
            assert(rest[j] == entries[j + 1]);
        }
        lemma_push_new(rest, entry);
        assert(entries.push(entry).drop_first() =~= rest.push(entry));
        assert(entries[0].0@ != entry.0@);
        assert(map_of(entries.push(entry)) =~= map_of(entries).insert(entry.0@, entry.1@));
    }
}

/// Replacing the first entry of a name replaces what the name stands for.
proof fn lemma_update_first<V: View>(entries: Seq<(String, V)>, i: int, entry: (String, V))
    requires
        0 <= i < entries.len(),
        entries[i].0@ == entry.0@,
        forall|j: int| 0 <= j < i ==> (#[trigger] entries[j]).0@ != entry.0@,
    ensures
        map_of(entries.update(i, entry)) == map_of(entries).insert(entry.0@, entry.1@),
    decreases i,
{
    if i == 0 {
        assert(entries.update(0, entry).drop_first() =~= entries.drop_first());
        assert(map_of(entries.update(i, entry)) =~= map_of(entries).insert(entry.0@, entry.1@));
    } else {
        let rest = entries.drop_first();
        assert forall|j: int| 0 <= j < i - 1 implies (#[trigger] rest[j]).0@ != entry.0@ by {
            assert(rest[j] == entries[j + 1]);
        }
        lemma_update_first(rest, i - 1, entry);
        assert(entries.update(i, entry).drop_first() =~= rest.update(i - 1, entry));
        assert(entries[0].0@ != entry.0@);
        assert(map_of(entries.update(i, entry)) =~= map_of(entries).insert(entry.0@, entry.1@));
    }
}

/// Every entry's name is in the map, and every name of the map is the name
/// of an entry that is the first of its name and holds the name's value.
proof fn lemma_map_of_entries<V: View>(entries: Seq<(String, V)>)
    ensures
        forall|j: int|
            0 <= j < entries.len() ==> map_of(entries).dom().contains((#[trigger] entries[j]).0@),
        forall|key: Seq<char>| #[trigger]
            map_of(entries).dom().contains(key) ==> exists|j: int|
                0 <= j < entries.len() && is_first_of(entries, j) && (#[trigger] entries[j]).0@
                    == key && entries[j].1@ == map_of(entries)[key],
        forall|j: int|
            0 <= j < entries.len() && is_first_of(entries, j) ==> map_of(entries)[(
                #[trigger] entries[j]).0@] == entries[j].1@,
    decreases entries.len(),
{
    if entries.len() > 0 {
        let rest = entries.drop_first();
        lemma_map_of_entries(rest);
        assert forall|j: int| 0 <= j < entries.len() implies map_of(entries).dom().contains(
            (#[trigger] entries[j]).0@,
        ) by {
            if j > 0 {
                assert(rest[j - 1] == entries[j]);
            }
        }
        assert forall|key: Seq<char>| #[trigger]
            map_of(entries).dom().contains(key) implies exists|j: int|
            0 <= j < entries.len() && is_first_of(entries, j) && (#[trigger] entries[j]).0@ == key
                && entries[j].1@ == map_of(entries)[key] by {
            if entries[0].0@ == key {
                assert(is_first_of(entries, 0));
            } else {
                let j = choose|j: int|
                    0 <= j < rest.len() && is_first_of(rest, j) && (#[trigger] rest[j]).0@ == key
                        && rest[j].1@ == map_of(rest)[key];
                assert(rest[j] == entries[j + 1]);
                assert(is_first_of(entries, j + 1)) by {
                    assert forall|k: int| 0 <= k < j + 1 implies (#[trigger] entries[k]).0@
                        != entries[j + 1].0@ by {
                        if k > 0 {
                            assert(rest[k - 1] == entries[k]);
                        }
                    }
                }
            }
        }
        assert forall|j: int| 0 <= j < entries.len() && is_first_of(entries, j) implies map_of(
            entries,
        )[(#[trigger] entries[j]).0@] == entries[j].1@ by {
            if j > 0 {
                assert(rest[j - 1] == entries[j]);
                assert(entries[0].0@ != entries[j].0@);
                assert(is_first_of(rest, j - 1)) by {
                    assert forall|k: int| 0 <= k < j - 1 implies (#[trigger] rest[k]).0@ != rest[j
                        - 1].0@ by {
                        assert(rest[k] == entries[k + 1]);
                    }
                }
            }
        }
    }
}

/// Whether `value` is the view of an element of `out`.
pub open spec fn lists_value<V: View>(out: Seq<&V>, value: V::V) -> bool {
    exists|k: int| 0 <= k < out.len() && (#[trigger] out[k])@ == value
}

/// Whether entry `i` is the first entry of its name.
pub open spec fn is_first_of<V>(entries: Seq<(String, V)>, i: int) -> bool {
    forall|k: int| 0 <= k < i ==> (#[trigger] entries[k]).0@ != entries[i].0@
}

impl<V: View> Table<V> {
    /// The map that the table stands for.
    pub closed spec fn view(&self) -> Map<Seq<char>, V::V> {
        map_of(self.entries@)
    }

    /// An empty table.
    pub fn new() -> (out: Self)
        ensures
            out@ == Map::<Seq<char>, V::V>::empty(),
    {
        Table { entries: Vec::new() }
    }

    /// The index of the first entry named `key`.
    fn position(&self, key: &str) -> (out: Option<usize>)
        ensures
            match out {
                Some(i) => i < self.entries.len() && self.entries@[i as int].0@ == key@
                    && is_first_of(self.entries@, i as int),
                None => forall|j: int|
                    0 <= j < self.entries.len() ==> (#[trigger] self.entries@[j]).0@ != key@,
            },
    {
        let mut i: usize = 0;
        while i < self.entries.len()
            invariant
                i <= self.entries.len(),
                forall|j: int| 0 <= j < i ==> (#[trigger] self.entries@[j]).0@ != key@,
            decreases self.entries.len() - i,
        {
            if same_text(self.entries[i].0.as_str(), key) {
                return Some(i);
            }
            i += 1;
        }
        None
    }

    /// The value that `key` stands for, if any.
    pub fn get(&self, key: &str) -> (out: Option<&V>)
        ensures
            match out {
                Some(v) => self@.dom().contains(key@) && v@ == self@[key@],
                None => !self@.dom().contains(key@),
            },
    {
        let found = self.position(key);
        proof {
            let n = self.entries@.len() as int;
            match found {
                Some(i) => {
                    lemma_skip_others(self.entries@, key@, i as int);
                },
                None => {
                    lemma_skip_others(self.entries@, key@, n);
                    assert(self.entries@.subrange(n, n) =~= Seq::<(String, V)>::empty());
                },
            }
        }
        match found {
            Some(i) => Some(&self.entries[i].1),
            None => None,
        }
    }

    /// Lets `key` stand for `value`, in place of what it stood for.
    pub fn insert(&mut self, key: String, value: V)
        ensures
            final(self)@ == old(self)@.insert(key@, value@),
    {
        let found = self.position(key.as_str());
        match found {
            Some(i) => {
                proof {
                    lemma_update_first(self.entries@, i as int, (key, value));
                }
                self.entries.set(i, (key, value));
            },
            None => {
                proof {
                    lemma_push_new(self.entries@, (key, value));
                }
                self.entries.push((key, value));
            },
        }
    }

    /// Tells whether no name stands for anything.
    pub fn is_empty(&self) -> (out: bool)
        ensures
            out == (self@.dom() =~= Set::<Seq<char>>::empty()),
    {
        proof {
            lemma_map_of_entries(self.entries@);
            if self.entries.len() > 0 {
                assert(self@.dom().contains(self.entries@[0].0@));
            }
        }
        self.entries.len() == 0
    }

    /// The values of the table, one for each name.
    pub(crate) fn values(&self) -> (out: Vec<&V>)
        ensures
            forall|i: int| 0 <= i < out.len() ==> self@.contains_value((#[trigger] out@[i])@),
            forall|key: Seq<char>| #[trigger]
                self@.dom().contains(key) ==> lists_value(out@, self@[key]),
    {
        let mut out: Vec<&V> = Vec::new();
        let mut i: usize = 0;
        proof {
            lemma_map_of_entries(self.entries@);
        }
        while i < self.entries.len()
            invariant
                i <= self.entries.len(),
                forall|k: int| 0 <= k < out.len() ==> self@.contains_value((#[trigger] out@[k])@),
                forall|j: int|
                    0 <= j < i && is_first_of(self.entries@, j) ==> #[trigger] lists_value(
                        out@,
                        self.entries@[j].1@,
                    ),
            decreases self.entries.len() - i,
        {
            let mut first = true;
            let mut k: usize = 0;
            while k < i
                invariant
                    k <= i < self.entries.len(),
                    first == forall|j: int|
                        0 <= j < k ==> (#[trigger] self.entries@[j]).0@ != self.entries@[i as int].0@,
                decreases i - k,
            {
                if same_text(self.entries[k].0.as_str(), self.entries[i].0.as_str()) {
                    first = false;
                }
                k += 1;
            }
            assert(first == is_first_of(self.entries@, i as int));
            if first {
                let ghost before = out@;
                proof {
                    lemma_map_of_entries(self.entries@);
                    assert(is_first_of(self.entries@, i as int));
                    assert(self@.dom().contains(self.entries@[i as int].0@));
                }
                out.push(&self.entries[i].1);
                assert forall|j: int|
                    0 <= j < i + 1 && is_first_of(self.entries@, j) implies #[trigger] lists_value(
                    out@,
                    self.entries@[j].1@,
                ) by {
                    if j < i {
                        assert(lists_value(before, self.entries@[j].1@));
                        let k = choose|k: int|
                            0 <= k < before.len() && (#[trigger] before[k])@
                                == self.entries@[j].1@;
                        assert(out@[k] == before[k]);
                    } else {
                        assert(out@[out.len() - 1]@ == self.entries@[j].1@);
                    }
                }
                assert forall|k: int| 0 <= k < out.len() implies self@.contains_value(
                    (#[trigger] out@[k])@,
                ) by {
                    if k < before.len() {
                        assert(out@[k] == before[k]);
                    } else {
                        assert(self@.dom().contains(self.entries@[i as int].0@));
                    }
                }
            }
            i += 1;
        }
        proof {
            lemma_map_of_entries(self.entries@);
            assert forall|key: Seq<char>| #[trigger]
                self@.dom().contains(key) implies lists_value(out@, self@[key]) by {
                let j = choose|j: int|
                    0 <= j < self.entries@.len() && is_first_of(self.entries@, j) && (
                    #[trigger] self.entries@[j]).0@ == key && self.entries@[j].1@ == map_of(
                        self.entries@,
                    )[key];
                assert(lists_value(out@, self.entries@[j].1@));
            }
        }
        out
    }
}

} // verus!
