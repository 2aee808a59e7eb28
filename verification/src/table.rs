//! A table from texts to values: every key occurs once, and the rows keep the
//! order in which their keys came in.

use vstd::prelude::*;

use crate::order::{is_le, lemma_le_chain, text_le};

verus! {

/// A table whose keys are texts.
pub struct Table<V> {
    entries: Vec<(String, V)>,
}

/// Whether no two of the rows have the same key.
pub open spec fn distinct_keys<V>(rows: Seq<(Seq<char>, V)>) -> bool {
    forall|i: int, j: int|
        0 <= i < j < rows.len() ==> (#[trigger] rows[i]).0 != (#[trigger] rows[j]).0
}

/// Whether `key` is the key of one of the rows.
pub open spec fn has_key<V>(rows: Seq<(Seq<char>, V)>, key: Seq<char>) -> bool {
    exists|i: int| 0 <= i < rows.len() && (#[trigger] rows[i]).0 == key
}

/// The place of the row with the key `key`.
pub open spec fn place_of<V>(rows: Seq<(Seq<char>, V)>, key: Seq<char>) -> int {
    choose|i: int| 0 <= i < rows.len() && (#[trigger] rows[i]).0 == key
}

/// The mapping that the rows stand for.
pub open spec fn mapping<V>(rows: Seq<(Seq<char>, V)>) -> Map<Seq<char>, V> {
    Map::new(|k: Seq<char>| has_key(rows, k), |k: Seq<char>| rows[place_of(rows, k)].1)
}

impl<V> View for Table<V> {
    type V = Map<Seq<char>, V>;

    open spec fn view(&self) -> Map<Seq<char>, V> {
        mapping(self.rows())
    }
}

impl<V> Table<V> {
    /// The rows, in order.
    pub closed spec fn rows(&self) -> Seq<(Seq<char>, V)> {
        self.entries@.map_values(|e: (String, V)| (e.0@, e.1))
    }

    #[verifier::type_invariant]
    spec fn keys_occur_once(&self) -> bool {
        distinct_keys(self.rows())
    }

    /// The empty table.
    pub fn new() -> (t: Self)
        ensures
            t.rows() == Seq::<(Seq<char>, V)>::empty(),
            t@ == Map::<Seq<char>, V>::empty(),
    {
        let t: Table<V> = Table { entries: Vec::new() };
        assert(t.rows() =~= Seq::<(Seq<char>, V)>::empty());
        assert(t@ =~= Map::<Seq<char>, V>::empty());
        t
    }

    /// The number of rows.
    pub fn len(&self) -> (n: usize)
        ensures
            n == self.rows().len(),
            distinct_keys(self.rows()),
    {
        proof {
            use_type_invariant(self);
        }
        self.entries.len()
    }

    /// The key of row `i`.
    pub fn key_at(&self, i: usize) -> (k: &String)
        requires
            i < self.rows().len(),
        ensures
            k@ == self.rows()[i as int].0,
    {
        &self.entries[i].0
    }

    /// The value of row `i`.
    pub fn value_at(&self, i: usize) -> (v: &V)
        requires
            i < self.rows().len(),
        ensures
            *v == self.rows()[i as int].1,
    {
        &self.entries[i].1
    }

    /// The place of `key`, where the table has it.
    fn find(&self, key: &str) -> (r: Option<usize>)
        ensures
            match r {
                Some(i) => i < self.rows().len() && self.rows()[i as int].0 == key@,
                None => !has_key(self.rows(), key@),
            },
    {
        for i in 0..self.entries.len()
            invariant
                forall|j: int| 0 <= j < i ==> (#[trigger] self.rows()[j]).0 != key@,
        {
            assert(self.rows()[i as int].0 == self.entries@[i as int].0@);
            if crate::text::same_text(self.entries[i].0.as_str(), key) {
                return Some(i);
            }
        }
        None
    }

    /// The value at `key`.
    pub fn get(&self, key: &str) -> (r: Option<&V>)
        ensures
            match r {
                Some(v) => self@.contains_key(key@) && *v == self@[key@],
                None => !self@.contains_key(key@),
            },
    {
        proof {
            use_type_invariant(self);
        }
        match self.find(key) {
            Some(i) => {
                assert(self.rows()[i as int].0 == key@);
                assert(place_of(self.rows(), key@) == i);
                Some(self.value_at(i))
            },
            None => None,
        }
    }

    /// Sets the value at `key`; a new key gets the last row.
    pub fn insert(&mut self, key: String, value: V)
        ensures
            final(self)@ == old(self)@.insert(key@, value),
            !old(self)@.contains_key(key@) ==> final(self).rows() == old(self).rows().push(
                (key@, value),
            ),
            old(self)@.contains_key(key@) ==> exists|i: int|
                0 <= i < old(self).rows().len() && old(self).rows()[i].0 == key@
                    && final(self).rows() == #[trigger] old(self).rows().update(i, (key@, value)),
    {
        proof {
            use_type_invariant(&*self);
        }
        let ghost before = self.rows();
        let ghost word = key@;
        let place = self.find(key.as_str());
        let mut entries: Vec<(String, V)> = Vec::new();
        std::mem::swap(&mut entries, &mut self.entries);
        let ghost taken = entries@.map_values(|e: (String, V)| (e.0@, e.1));
        assert(taken == before);
        match place {
            Some(i) => {
                entries.set(i, (key, value));
                let ghost now = entries@.map_values(|e: (String, V)| (e.0@, e.1));
                assert(now =~= before.update(i as int, (word, value)));
                assert forall|k: Seq<char>| has_key(now, k) <==> has_key(before, k) || k == word by {
                    if has_key(before, k) {
                        let j = place_of(before, k);
                        assert(now[j].0 == k);
                    }
                    if has_key(now, k) {
                        let j = place_of(now, k);
                        assert(before[j].0 == k);
                    }
                    assert(now[i as int].0 == word);
                }
                assert forall|k: Seq<char>| has_key(now, k) implies mapping(now)[k]
                    == mapping(before).insert(word, value)[k] by {
                    let j = place_of(now, k);
                    assert(now[j].0 == k);
                    assert(before[j].0 == k);
                    assert(place_of(before, k) == j);
                    assert(now[i as int].0 == word);
                }
                assert(mapping(now) =~= mapping(before).insert(word, value));
                self.entries = entries;
            },
            None => {
                entries.push((key, value));
                let ghost now = entries@.map_values(|e: (String, V)| (e.0@, e.1));
                assert(now =~= before.push((word, value)));
                assert forall|k: Seq<char>| has_key(now, k) <==> has_key(before, k) || k == word by {
                    if has_key(before, k) {
                        let j = place_of(before, k);
                        assert(now[j].0 == k);
                    }
                    if has_key(now, k) {
                        let j = place_of(now, k);
                        if j < before.len() {
                            assert(before[j].0 == k);
                        }
                    }
                    assert(now[before.len() as int].0 == word);
                }
                assert forall|i: int, j: int| 0 <= i < j < now.len() implies (#[trigger] now[i]).0
                    != (#[trigger] now[j]).0 by {
                    if j == before.len() {
                        assert(before[i].0 == now[i].0);
                    } else {
                        assert(before[i].0 != before[j].0);
                    }
                }
                assert forall|k: Seq<char>| has_key(now, k) implies mapping(now)[k]
                    == mapping(before).insert(word, value)[k] by {
                    let j = place_of(now, k);
                    if j < before.len() {
                        assert(before[j].0 == k);
                        assert(place_of(before, k) == j);
                    }
                }
                assert(mapping(now) =~= mapping(before).insert(word, value));
                self.entries = entries;
            },
        }
    }

    /// The keys, in order.
    pub fn keys(&self) -> (r: Vec<String>)
        ensures
            r@.len() == self.rows().len(),
            forall|i: int| 0 <= i < r@.len() ==> (#[trigger] r@[i])@ == self.rows()[i].0,
            distinct_keys(self.rows()),
    {
        proof {
            use_type_invariant(self);
        }
        let mut r: Vec<String> = Vec::new();
        for i in 0..self.entries.len()
            invariant
                r@.len() == i,
                self.rows().len() == self.entries@.len(),
                forall|j: int| 0 <= j < i ==> (#[trigger] r@[j])@ == self.rows()[j].0,
        {
            r.push(self.key_at(i).clone());
        }
        r
    }
}

/// Whether each key comes before the one behind it, and none occurs twice.
pub open spec fn ascending<V>(rows: Seq<(Seq<char>, V)>) -> bool {
    forall|i: int, j: int|
        0 <= i < j < rows.len() ==> text_le((#[trigger] rows[i]).0, (#[trigger] rows[j]).0)
            && rows[i].0 != rows[j].0
}

impl<V> Table<V> {
    /// The table with the given rows, where their keys ascend.
    pub fn of_sorted(entries: Vec<(String, V)>) -> (r: Option<Table<V>>)
        ensures
            ({
                let rows = entries@.map_values(|e: (String, V)| (e.0@, e.1));
                match r {
                    Some(t) => ascending(rows) && t.rows() == rows,
                    None => !ascending(rows),
                }
            }),
    {
        let ghost rows = entries@.map_values(|e: (String, V)| (e.0@, e.1));
        let n: usize = entries.len();
        let mut i: usize = 1;
        while i < n
            invariant
                n == entries@.len(),
                1 <= i,
                rows == entries@.map_values(|e: (String, V)| (e.0@, e.1)),
                ascending(rows.take(if i <= n {
                    i as int
                } else {
                    n as int
                })),
            decreases n - i,
        {
            assert(rows[i - 1].0 == entries@[i - 1].0@ && rows[i as int].0
                == entries@[i as int].0@);
            let le = is_le(entries[i - 1].0.as_str(), entries[i].0.as_str());
            if !le || entries[i - 1].0 == entries[i].0 {
                assert(!ascending(rows)) by {
                    if ascending(rows) {
                        assert(text_le(rows[i - 1].0, rows[i as int].0));
                    }
                }
                return None;
            }
            proof {
                let front = rows.take(i as int);
                let now = rows.take(i + 1);
                assert forall|j: int, k: int| 0 <= j < k < now.len() implies text_le(
                    (#[trigger] now[j]).0,
                    (#[trigger] now[k]).0,
                ) && now[j].0 != now[k].0 by {
                    if k < i {
                        assert(front[j] == now[j] && front[k] == now[k]);
                    } else {
                        let last = rows[i - 1].0;
                        if j < i - 1 {
                            assert(front[j] == now[j] && front[i - 1].0 == last);
                            assert(text_le(now[j].0, last) && now[j].0 != last);
                            lemma_le_chain(now[j].0, last, now[k].0);
                        }
                    }
                }
            }
            i += 1;
        }
        assert(rows.take(n as int) == rows);
        let t: Table<V> = Table { entries };
        Some(t)
    }
}

impl<V: Copy> Table<V> {
    /// A copy of the table.
    pub fn copy(&self) -> (r: Table<V>)
        ensures
            r.rows() == self.rows(),
            r@ == self@,
    {
        proof {
            use_type_invariant(self);
        }
        let mut entries: Vec<(String, V)> = Vec::new();
        let ghost all = self.rows();
        for i in 0..self.entries.len()
            invariant
                all == self.rows(),
                entries@.map_values(|e: (String, V)| (e.0@, e.1)) == all.take(i as int),
        {
            let ghost had = entries@.map_values(|e: (String, V)| (e.0@, e.1));
            entries.push((self.entries[i].0.clone(), self.entries[i].1));
            proof {
                assert(all.take(i + 1) =~= all.take(i as int).push(all[i as int]));
                assert(entries@.map_values(|e: (String, V)| (e.0@, e.1)) =~= had.push(
                    all[i as int],
                ));
            }
        }
        assert(all.take(all.len() as int) == all);
        Table { entries }
    }
}

} // verus!
