//! Tables keyed by texts.

use crate::text;
use crate::text::{
    copy, same,
};
use vstd::prelude::*;

verus! {

/// A table: at most one value for each text.
pub struct Table<V> {
    rows: Vec<(String, V)>,
}

/// The row with this key, at `i` or later.
spec fn row_from<V>(rows: Seq<(String, V)>, key: Seq<char>, i: int) -> Option<int>
    decreases rows.len() - i,
{
    if i >= rows.len() {
        None
    } else if rows[i].0@ == key {
        Some(i)
    } else {
        row_from(rows, key, i + 1)
    }
}

proof fn lemma_row<V>(rows: Seq<(String, V)>, key: Seq<char>, i: int)
    requires
        0 <= i,
    ensures
        match row_from(rows, key, i) {
            Some(k) => i <= k < rows.len() && rows[k].0@ == key,
            None => forall|k: int| i <= k < rows.len() ==> (#[trigger] rows[k]).0@ != key,
        },
    decreases rows.len() - i,
{
    if i < rows.len() && rows[i].0@ != key {
        lemma_row(rows, key, i + 1);
    }
}

spec fn rows_map<V>(rows: Seq<(String, V)>) -> Map<Seq<char>, V> {
    Map::new(
        |key: Seq<char>| row_from(rows, key, 0) is Some,
        |key: Seq<char>| rows[row_from(rows, key, 0)->0].1,
    )
}

spec fn distinct<V>(rows: Seq<(String, V)>) -> bool {
    forall|i: int, j: int|
        0 <= i < j < rows.len() ==> (#[trigger] rows[i]).0@ != (#[trigger] rows[j]).0@
}

proof fn lemma_entry<V>(rows: Seq<(String, V)>, i: int)
    requires
        distinct(rows),
        0 <= i < rows.len(),
    ensures
        rows_map(rows).contains_key(rows[i].0@),
        rows_map(rows)[rows[i].0@] == rows[i].1,
{
    lemma_row(rows, rows[i].0@, 0);
}

proof fn lemma_absent<V>(rows: Seq<(String, V)>, key: Seq<char>)
    requires
        forall|k: int| 0 <= k < rows.len() ==> (#[trigger] rows[k]).0@ != key,
    ensures
        !rows_map(rows).contains_key(key),
{
    lemma_row(rows, key, 0);
}

proof fn lemma_contains<V>(rows: Seq<(String, V)>, key: Seq<char>) -> (i: int)
    requires
        rows_map(rows).contains_key(key),
    ensures
        0 <= i < rows.len(),
        rows[i].0@ == key,
{
    lemma_row(rows, key, 0);
    row_from(rows, key, 0)->0
}

impl<V> View for Table<V> {
    type V = Map<Seq<char>, V>;

    closed spec fn view(&self) -> Map<Seq<char>, V> {
        rows_map(self.rows@)
    }
}

impl<V> Table<V> {
    /// No key occurs twice.
    pub closed spec fn wf(&self) -> bool {
        distinct(self.rows@)
    }

    /// An empty table.
    pub fn new() -> (r: Table<V>)
        ensures
            r.wf(),
            r@ == Map::<Seq<char>, V>::empty(),
    {
        let r = Table { rows: Vec::new() };
        assert(r@ =~= Map::<Seq<char>, V>::empty());
        r
    }

    fn place(&self, key: &str) -> (r: Option<usize>)
        requires
            self.wf(),
        ensures
            match r {
                Some(i) => {
                    &&& i < self.rows@.len()
                    &&& self.rows@[i as int].0@ == key@
                    &&& self@.contains_key(key@)
                    &&& self@[key@] == self.rows@[i as int].1
                },
                None => {
                    &&& !self@.contains_key(key@)
                    &&& forall|k: int|
                        0 <= k < self.rows@.len() ==> (#[trigger] self.rows@[k]).0@ != key@
                },
            },
    {
        let mut i: usize = 0;
        while i < self.rows.len()
            invariant
                i <= self.rows@.len(),
                self.wf(),
                forall|k: int| 0 <= k < i ==> (#[trigger] self.rows@[k]).0@ != key@,
            decreases self.rows@.len() - i,
        {
            if same(self.rows[i].0.as_str(), key) {
                proof {
                    lemma_entry(self.rows@, i as int);
                }
                return Some(i);
            }
            i += 1;
        }
        proof {
            lemma_absent(self.rows@, key@);
        }
        None
    }

    /// The value for a key.
    pub fn get(&self, key: &str) -> (r: Option<&V>)
        requires
            self.wf(),
        ensures
            match r {
                Some(v) => self@.contains_key(key@) && *v == self@[key@],
                None => !self@.contains_key(key@),
            },
    {
        match self.place(key) {
            Some(i) => Some(&self.rows[i].1),
            None => None,
        }
    }

    /// Whether there is a value for a key.
    pub fn has(&self, key: &str) -> (r: bool)
        requires
            self.wf(),
        ensures
            r == self@.contains_key(key@),
    {
        self.place(key).is_some()
    }

    /// Sets the value for a key.
    pub fn insert(&mut self, key: &str, value: V)
        requires
            old(self).wf(),
        ensures
            final(self).wf(),
            final(self)@ == old(self)@.insert(key@, value),
    {
        let ghost before = self.rows@;
        let ghost was = self@;
        let place = self.place(key);
        match place {
            Some(i) => {
                self.rows.set(i, (copy(key), value));
            },
            None => {
                self.rows.push((copy(key), value));
            },
        }
        proof {
            let after = self.rows@;
            let at: int = match place {
                Some(i) => i as int,
                None => before.len() as int,
            };
            assert forall|a: int, b: int| 0 <= a < b < after.len() implies (
            #[trigger] after[a]).0@ != (#[trigger] after[b]).0@ by {
                if a != at {
                    assert(after[a] == before[a]);
                }
                if b != at {
                    assert(after[b] == before[b]);
                }
            }
            assert forall|k: Seq<char>| #[trigger]
                rows_map(after).contains_key(k) <==> was.insert(key@, value).contains_key(k) by {
                if rows_map(after).contains_key(k) {
                    let i = lemma_contains(after, k);
                    if i != at {
                        assert(after[i] == before[i]);
                        lemma_entry(before, i);
                    }
                }
                if was.contains_key(k) && k != key@ {
                    let i = lemma_contains(before, k);
                    assert(after[i] == before[i]);
                    lemma_entry(after, i);
                }
                if k == key@ {
                    lemma_entry(after, at);
                }
            }
            assert forall|k: Seq<char>| #[trigger] rows_map(after).contains_key(k) implies rows_map(
                after,
            )[k] == was.insert(key@, value)[k] by {
                let i = lemma_contains(after, k);
                lemma_entry(after, i);
                if i != at {
                    assert(after[i] == before[i]);
                    lemma_entry(before, i);
                }
            }
            assert(self@ =~= was.insert(key@, value));
        }
    }

    /// Takes the value for a key out of the table.
    pub fn remove(&mut self, key: &str) -> (r: Option<V>)
        requires
            old(self).wf(),
        ensures
            final(self).wf(),
            final(self)@ == old(self)@.remove(key@),
            match r {
                Some(v) => old(self)@.contains_key(key@) && v == old(self)@[key@],
                None => !old(self)@.contains_key(key@),
            },
    {
        let ghost before = self.rows@;
        let ghost was = self@;
        let at: usize = match self.place(key) {
            Some(i) => i,
            None => {
                assert(self@ =~= was.remove(key@));
                return None;
            },
        };
        let (_, value) = self.rows.remove(at);
        proof {
            let after = self.rows@;
            assert(after =~= before.remove(at as int));
            assert forall|a: int, b: int| 0 <= a < b < after.len() implies (
            #[trigger] after[a]).0@ != (#[trigger] after[b]).0@ by {
                let x = if a < at { a } else { a + 1 };
                let y = if b < at { b } else { b + 1 };
                assert(after[a] == before[x] && after[b] == before[y]);
            }
            assert forall|k: Seq<char>| #[trigger]
                rows_map(after).contains_key(k) <==> was.remove(key@).contains_key(k) by {
                if rows_map(after).contains_key(k) {
                    let i = lemma_contains(after, k);
                    let x = if i < at { i } else { i + 1 };
                    assert(after[i] == before[x]);
                    lemma_entry(before, x);
                    assert(before[at as int].0@ == key@);
                    assert(x != at);
                    assert(before[x].0@ != before[at as int].0@);
                }
                if was.contains_key(k) && k != key@ {
                    let i = lemma_contains(before, k);
                    let x = if i < at { i } else { i - 1 };
                    assert(after[x] == before[i]);
                    lemma_entry(after, x);
                }
            }
            assert forall|k: Seq<char>| #[trigger] rows_map(after).contains_key(k) implies rows_map(
                after,
            )[k] == was.remove(key@)[k] by {
                let i = lemma_contains(after, k);
                lemma_entry(after, i);
                let x = if i < at { i } else { i + 1 };
                assert(after[i] == before[x]);
                lemma_entry(before, x);
            }
            assert(self@ =~= was.remove(key@));
        }
        Some(value)
    }

    /// Whether the table has no entry.
    pub fn is_empty(&self) -> (r: bool)
        requires
            self.wf(),
        ensures
            r == (self@ == Map::<Seq<char>, V>::empty()),
    {
        if self.rows.len() == 0 {
            assert(self@ =~= Map::<Seq<char>, V>::empty());
            true
        } else {
            proof {
                lemma_entry(self.rows@, 0);
            }
            false
        }
    }

    /// The keys, each once.
    pub fn keys(&self) -> (r: Vec<String>)
        requires
            self.wf(),
        ensures
            text::texts(r@).no_duplicates(),
            forall|k: Seq<char>| #[trigger] text::texts(r@).contains(k) <==> self@.contains_key(k),
    {
        let mut out: Vec<String> = Vec::new();
        let mut i: usize = 0;
        while i < self.rows.len()
            invariant
                i <= self.rows@.len(),
                self.wf(),
                out@.len() == i,
                forall|k: int| 0 <= k < i ==> (#[trigger] text::texts(out@)[k]) == self.rows@[k].0@,
            decreases self.rows@.len() - i,
        {
            let ghost done = text::texts(out@);
            out.push(copy(self.rows[i].0.as_str()));
            assert(text::texts(out@) =~= done.push(self.rows@[i as int].0@));
            i += 1;
        }
        proof {
            let list = text::texts(out@);
            let rows = self.rows@;
            assert forall|a: int, b: int|
                0 <= a < list.len() && 0 <= b < list.len() && a != b implies list[a] != list[b] by {
                if a < b {
                    assert(rows[a].0@ != rows[b].0@);
                } else {
                    assert(rows[b].0@ != rows[a].0@);
                }
            }
            assert forall|k: Seq<char>| #[trigger] list.contains(k) <==> self@.contains_key(k) by {
                if list.contains(k) {
                    let w = choose|w: int| 0 <= w < list.len() && list[w] == k;
                    lemma_entry(rows, w);
                }
                if self@.contains_key(k) {
                    let w = lemma_contains(rows, k);
                    assert(list[w] == k);
                }
            }
        }
        out
    }
}

} // verus!
