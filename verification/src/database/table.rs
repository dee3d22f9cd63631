//! The entries of the store by key, kept in the order of their keys.
use crate::database::entry::{Entry, EntryView};
use crate::text::{
    lemma_text_order_irreflexive, lemma_text_order_total, lemma_text_order_transitive,
    text_before, text_equal, text_less,
};
use vstd::prelude::*;

verus! {

/// Some row of `rows` has the key `key`.
pub open spec fn has_key(rows: Seq<(String, Entry)>, key: Seq<char>) -> bool {
    exists|i: int| 0 <= i < rows.len() && (#[trigger] rows[i]).0@ == key
}

/// A row of `rows` that has the key `key`.
pub open spec fn row_of(rows: Seq<(String, Entry)>, key: Seq<char>) -> int {
    choose|i: int| 0 <= i < rows.len() && (#[trigger] rows[i]).0@ == key
}

/// The keys of the rows go up from each row to the next.
pub open spec fn ascending(rows: Seq<(String, Entry)>) -> bool {
    forall|i: int, j: int|
        0 <= i < j < rows.len() ==> text_before((#[trigger] rows[i]).0@, (#[trigger] rows[j]).0@)
}

/// In rows whose keys go up, a key stands in one row only.
pub proof fn lemma_one_row(rows: Seq<(String, Entry)>, i: int)
    requires
        ascending(rows),
        0 <= i < rows.len(),
    ensures
        has_key(rows, rows[i].0@),
        row_of(rows, rows[i].0@) == i,
{
    let key = rows[i].0@;
    let j = row_of(rows, key);
    lemma_text_order_irreflexive(key);
    if j < i {
        assert(text_before(rows[j].0@, rows[i].0@));
    } else if i < j {
        assert(text_before(rows[i].0@, rows[j].0@));
    }
}

/// The entries by key, in the order of the keys.
#[derive(Debug)]
pub struct Table {
    rows: Vec<(String, Entry)>,
}

impl View for Table {
    type V = Map<Seq<char>, EntryView>;

    closed spec fn view(&self) -> Map<Seq<char>, EntryView> {
        Map::new(
            |key: Seq<char>| has_key(self.rows@, key),
            |key: Seq<char>| self.rows@[row_of(self.rows@, key)].1@,
        )
    }
}

impl Table {
    /// The rows are in the order of their keys, and no key stands twice.
    pub closed spec fn wf(&self) -> bool {
        ascending(self.rows@)
    }

    /// An empty table.
    pub fn new() -> (table: Self)
        ensures
            table.wf(),
            table@ == Map::<Seq<char>, EntryView>::empty(),
    {
        let table = Table { rows: Vec::new() };
        assert(table@ =~= Map::<Seq<char>, EntryView>::empty());
        table
    }

    /// The place of `key` among the rows: every row in front of it has a key
    /// that sorts before `key`, and none from there on has.
    fn locate(&self, key: &str) -> (r: (usize, bool))
        requires
            self.wf(),
        ensures
            r.0 <= self.rows@.len(),
            forall|j: int| 0 <= j < r.0 ==> text_before(self.rows@[j].0@, key@),
            forall|j: int| r.0 <= j < self.rows@.len() ==> !text_before(self.rows@[j].0@, key@),
            r.1 == self@.contains_key(key@),
            r.1 ==> r.0 < self.rows@.len() && self.rows@[r.0 as int].0@ == key@ && row_of(
                self.rows@,
                key@,
            ) == r.0,
    {
        let mut i: usize = 0;
        while i < self.rows.len() && text_less(self.rows[i].0.as_str(), key)
            invariant
                i <= self.rows@.len(),
                forall|j: int| 0 <= j < i ==> text_before(self.rows@[j].0@, key@),
            decreases self.rows@.len() - i,
        {
            i += 1;
        }
        let found = i < self.rows.len() && text_equal(self.rows[i].0.as_str(), key);
        proof {
            let rows = self.rows@;
            assert forall|j: int| i <= j < rows.len() implies !text_before(rows[j].0@, key@) by {
                if i < j && text_before(rows[j].0@, key@) {
                    assert(text_before(rows[i as int].0@, rows[j].0@));
                    lemma_text_order_transitive(rows[i as int].0@, rows[j].0@, key@);
                }
            }
            if found {
                lemma_one_row(rows, i as int);
            } else if has_key(rows, key@) {
                let j = row_of(rows, key@);
                lemma_text_order_irreflexive(key@);
                assert(j > i);
                assert(text_before(rows[i as int].0@, rows[j].0@));
            }
        }
        (i, found)
    }

    /// The entry under `key`, if there is one.
    pub fn get(&self, key: &str) -> (r: Option<&Entry>)
        requires
            self.wf(),
        ensures
            match r {
                Some(entry) => self@.contains_key(key@) && entry@ == self@[key@],
                None => !self@.contains_key(key@),
            },
    {
        let (i, found) = self.locate(key);
        if found {
            Some(&self.rows[i].1)
        } else {
            None
        }
    }

    /// Puts `entry` under `key` and hands back the entry that was there before.
    pub fn insert(&mut self, key: String, entry: Entry) -> (r: Option<Entry>)
        requires
            old(self).wf(),
        ensures
            final(self).wf(),
            final(self)@ == old(self)@.insert(key@, entry@),
            match r {
                Some(before) => old(self)@.contains_key(key@) && before@ == old(self)@[key@],
                None => !old(self)@.contains_key(key@),
            },
    {
        let (i, found) = self.locate(key.as_str());
        let ghost before = self.rows@;
        let ghost name = key@;
        let ghost value = entry@;
        let replaced = if found {
            let row = self.rows.remove(i);
            Some(row.1)
        } else {
            None
        };
        let ghost without = self.rows@;
        self.rows.insert(i, (key, entry));
        proof {
            let after = self.rows@;
            assert forall|a: int| 0 <= a < without.len() implies #[trigger] without[a] == (if found
                && a >= i {
                before[a + 1]
            } else {
                before[a]
            }) by {}
            assert forall|a: int| 0 <= a < after.len() implies (#[trigger] after[a]).0@ == (if a
                == i {
                name
            } else if a < i {
                before[a].0@
            } else if found {
                before[a].0@
            } else {
                before[a - 1].0@
            }) by {}
            assert forall|a: int, b: int| 0 <= a < b < after.len() implies text_before(
                (#[trigger] after[a]).0@,
                (#[trigger] after[b]).0@,
            ) by {
                if b == i {
                } else if a == i {
                    let next = if found { b } else { b - 1 };
                    assert(after[b].0@ == before[next].0@);
                    if found {
                        assert(text_before(before[i as int].0@, before[b].0@));
                    } else {
                        lemma_text_order_total(name, before[next].0@);
                        assert(!has_key(before, name));
                    }
                } else {
                    let low = if a < i || found { a } else { a - 1 };
                    let high = if b < i || found { b } else { b - 1 };
                    assert(after[a].0@ == before[low].0@);
                    assert(after[b].0@ == before[high].0@);
                    assert(text_before(before[low].0@, before[high].0@));
                }
            }
            assert forall|other: Seq<char>| has_key(after, other) <==> (other == name || has_key(
                before,
                other,
            )) by {
                if has_key(after, other) && other != name {
                    let a = row_of(after, other);
                    let b = if a < i || found { a } else { a - 1 };
                    assert(before[b].0@ == other);
                }
                if other == name {
                    assert(after[i as int].0@ == name);
                }
                if has_key(before, other) && other != name {
                    let b = row_of(before, other);
                    let a = if b < i || found { b } else { b + 1 };
                    assert(after[a].0@ == other);
                }
            }
            assert forall|other: Seq<char>| has_key(after, other) implies #[trigger] self@[other]
                == old(self)@.insert(name, value)[other] by {
                let a = row_of(after, other);
                lemma_one_row(after, a);
                if a == i {
                    assert(after[a].1@ == value);
                } else {
                    let b = if a < i || found { a } else { a - 1 };
                    assert(before[b] == after[a]);
                    lemma_one_row(before, b);
                }
            }
            assert(self@ =~= old(self)@.insert(name, value));
        }
        replaced
    }

    /// Takes the entry under `key` out of the table and hands it over.
    pub fn remove(&mut self, key: &str) -> (r: Option<Entry>)
        requires
            old(self).wf(),
        ensures
            final(self).wf(),
            final(self)@ == old(self)@.remove(key@),
            match r {
                Some(before) => old(self)@.contains_key(key@) && before@ == old(self)@[key@],
                None => !old(self)@.contains_key(key@),
            },
    {
        let (i, found) = self.locate(key);
        if found {
            let ghost before = self.rows@;
            let row = self.rows.remove(i);
            proof {
                let after = self.rows@;
                assert forall|a: int| 0 <= a < after.len() implies #[trigger] after[a] == (if a < i {
                    before[a]
                } else {
                    before[a + 1]
                }) by {}
                assert forall|a: int, b: int| 0 <= a < b < after.len() implies text_before(
                    (#[trigger] after[a]).0@,
                    (#[trigger] after[b]).0@,
                ) by {
                    let low = if a < i { a } else { a + 1 };
                    let high = if b < i { b } else { b + 1 };
                    assert(text_before(before[low].0@, before[high].0@));
                }
                assert forall|other: Seq<char>| has_key(after, other) <==> (other != key@
                    && has_key(before, other)) by {
                    if has_key(after, other) {
                        let a = row_of(after, other);
                        let b = if a < i { a } else { a + 1 };
                        assert(before[b] == after[a]);
                        if other == key@ {
                            lemma_one_row(before, b);
                        }
                    }
                    if other != key@ && has_key(before, other) {
                        let b = row_of(before, other);
                        let a = if b < i { b } else { b - 1 };
                        assert(after[a] == before[b]);
                    }
                }
                assert forall|other: Seq<char>| has_key(after, other) implies #[trigger] self@[other]
                    == old(self)@.remove(key@)[other] by {
                    let a = row_of(after, other);
                    let b = if a < i { a } else { a + 1 };
                    assert(before[b] == after[a]);
                    lemma_one_row(before, b);
                }
                assert(self@ =~= old(self)@.remove(key@));
            }
            Some(row.1)
        } else {
            assert(self@ =~= old(self)@.remove(key@));
            None
        }
    }
}

} // verus!
