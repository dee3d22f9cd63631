//! The expiry index: the pairs of an instant and a key, kept in order so that
//! the pair that is due first is at hand.
use crate::text::{
    lemma_text_order_irreflexive, lemma_text_order_total, lemma_text_order_transitive,
    text_before, text_equal, text_less,
};
use vstd::prelude::*;

verus! {

/// An instant, in milliseconds, and the key that expires then.
pub type Due = (u64, Seq<char>);

/// `a` is due before `b`: at an earlier instant, or at the same instant with
/// the key that sorts first.
pub open spec fn due_before(a: Due, b: Due) -> bool {
    a.0 < b.0 || (a.0 == b.0 && text_before(a.1, b.1))
}

/// No pair is due before itself.
pub proof fn lemma_due_order_irreflexive(a: Due)
    ensures
        !due_before(a, a),
{
    lemma_text_order_irreflexive(a.1);
}

/// The order of pairs is transitive.
pub proof fn lemma_due_order_transitive(a: Due, b: Due, c: Due)
    requires
        due_before(a, b),
        due_before(b, c),
    ensures
        due_before(a, c),
{
    if a.0 == b.0 && b.0 == c.0 {
        lemma_text_order_transitive(a.1, b.1, c.1);
    }
}

/// Of two different pairs one is due before the other.
pub proof fn lemma_due_order_total(a: Due, b: Due)
    ensures
        due_before(a, b) || due_before(b, a) || a == b,
{
    lemma_text_order_total(a.1, b.1);
}

/// What an item of the index stands for.
pub open spec fn due_of(item: (u64, String)) -> Due {
    (item.0, item.1@)
}

/// Some item of `items` stands for `due`.
pub open spec fn holds(items: Seq<(u64, String)>, due: Due) -> bool {
    exists|i: int| 0 <= i < items.len() && due_of(#[trigger] items[i]) == due
}

/// Each item is due before all the items in front of it.
pub open spec fn descending(items: Seq<(u64, String)>) -> bool {
    forall|i: int, j: int|
        0 <= i < j < items.len() ==> due_before(due_of(#[trigger] items[j]), due_of(#[trigger] items[i]))
}

/// The pairs of an instant and a key, in order.
#[derive(Debug)]
pub struct Expirations {
    /// Latest first, so that the pair that is due first is the last.
    items: Vec<(u64, String)>,
}

impl View for Expirations {
    type V = Set<Due>;

    closed spec fn view(&self) -> Set<Due> {
        Set::new(|due: Due| holds(self.items@, due))
    }
}

impl Expirations {
    /// The pairs are in order and none stands twice.
    pub closed spec fn wf(&self) -> bool {
        descending(self.items@)
    }

    /// The number of pairs in the index.
    pub closed spec fn count(&self) -> nat {
        self.items@.len()
    }

    /// An empty index.
    pub fn new() -> (index: Self)
        ensures
            index.wf(),
            index@ == Set::<Due>::empty(),
    {
        let index = Expirations { items: Vec::new() };
        assert(index@ =~= Set::<Due>::empty());
        index
    }

    /// The pair that is due first, if there is any.
    pub fn first(&self) -> (r: Option<(u64, &str)>)
        requires
            self.wf(),
        ensures
            match r {
                None => self@ == Set::<Due>::empty(),
                Some((at, key)) => self@.contains((at, key@)) && forall|other: Due|
                    #[trigger] self@.contains(other) ==> other == (at, key@) || due_before(
                        (at, key@),
                        other,
                    ),
            },
    {
        let n = self.items.len();
        if n == 0 {
            assert(self@ =~= Set::<Due>::empty());
            None
        } else {
            let item = &self.items[n - 1];
            assert(holds(self.items@, due_of(self.items@[n - 1])));
            Some((item.0, item.1.as_str()))
        }
    }

    /// The place of `(at, key)` among the items: every item in front of it is
    /// due later, and none from there on is.
    fn locate(&self, at: u64, key: &str) -> (r: (usize, bool))
        requires
            self.wf(),
        ensures
            r.0 <= self.items@.len(),
            forall|j: int| 0 <= j < r.0 ==> due_before((at, key@), due_of(self.items@[j])),
            forall|j: int|
                r.0 <= j < self.items@.len() ==> !due_before((at, key@), due_of(self.items@[j])),
            r.1 == self@.contains((at, key@)),
            r.1 ==> r.0 < self.items@.len() && due_of(self.items@[r.0 as int]) == (at, key@),
    {
        let mut i: usize = 0;
        while i < self.items.len() && (at < self.items[i].0 || (at == self.items[i].0 && text_less(
            key,
            self.items[i].1.as_str(),
        )))
            invariant
                i <= self.items@.len(),
                forall|j: int| 0 <= j < i ==> due_before((at, key@), due_of(self.items@[j])),
            decreases self.items@.len() - i,
        {
            i += 1;
        }
        let found = i < self.items.len() && at == self.items[i].0 && text_equal(
            key,
            self.items[i].1.as_str(),
        );
        proof {
            let due = (at, key@);
            assert forall|j: int| i <= j < self.items@.len() implies !due_before(
                due,
                due_of(self.items@[j]),
            ) by {
                if i < j && due_before(due, due_of(self.items@[j])) {
                    lemma_due_order_transitive(due, due_of(self.items@[j]), due_of(self.items@[i as int]));
                }
            }
            if !found && holds(self.items@, due) {
                let j = choose|j: int| 0 <= j < self.items@.len() && due_of(#[trigger] self.items@[j]) == due;
                lemma_due_order_irreflexive(due);
                assert(j >= i);
                assert(j > i);
                lemma_due_order_total(due, due_of(self.items@[i as int]));
            }
        }
        (i, found)
    }

    /// Puts `(at, key)` into the index. A pair that is there already stays once.
    pub fn insert(&mut self, at: u64, key: String)
        requires
            old(self).wf(),
        ensures
            final(self).wf(),
            final(self)@ == old(self)@.insert((at, key@)),
    {
        let (i, found) = self.locate(at, key.as_str());
        let ghost due = (at, key@);
        if found {
            assert(self@ =~= old(self)@.insert(due));
        } else {
            let ghost before = self.items@;
            self.items.insert(i, (at, key));
            proof {
                let after = self.items@;
                assert forall|a: int, b: int| 0 <= a < b < after.len() implies due_before(
                    due_of(#[trigger] after[b]),
                    due_of(#[trigger] after[a]),
                ) by {
                    if b == i {
                    } else if a == i {
                        assert(after[b] == before[b - 1]);
                        lemma_due_order_total(due, due_of(before[b - 1]));
                        assert(!holds(before, due));
                    } else {
                    }
                }
                assert forall|other: Due| holds(after, other) <==> (other == due || holds(
                    before,
                    other,
                )) by {
                    if holds(after, other) {
                        let a = choose|a: int| 0 <= a < after.len() && due_of(#[trigger] after[a]) == other;
                        if a < i {
                            assert(before[a] == after[a]);
                        } else if a > i {
                            assert(before[a - 1] == after[a]);
                        }
                    }
                    if other == due {
                        assert(due_of(after[i as int]) == due);
                    }
                    if holds(before, other) {
                        let b = choose|b: int| 0 <= b < before.len() && due_of(#[trigger] before[b]) == other;
                        if b < i {
                            assert(after[b] == before[b]);
                        } else {
                            assert(after[b + 1] == before[b]);
                        }
                    }
                }
                assert(self@ =~= old(self)@.insert(due));
            }
        }
    }

    /// Takes `(at, key)` out of the index, if it is there.
    pub fn remove(&mut self, at: u64, key: &str)
        requires
            old(self).wf(),
        ensures
            final(self).wf(),
            final(self)@ == old(self)@.remove((at, key@)),
    {
        let (i, found) = self.locate(at, key);
        let ghost due = (at, key@);
        if found {
            let ghost before = self.items@;
            let taken = self.items.remove(i);
            proof {
                let after = self.items@;
                assert forall|a: int| 0 <= a < after.len() implies #[trigger] after[a] == (if a < i {
                    before[a]
                } else {
                    before[a + 1]
                }) by {}
                assert forall|other: Due| holds(after, other) <==> (other != due && holds(
                    before,
                    other,
                )) by {
                    if holds(after, other) {
                        let a = choose|a: int| 0 <= a < after.len() && due_of(#[trigger] after[a]) == other;
                        let b = if a < i { a } else { a + 1 };
                        assert(before[b] == after[a]);
                        if other == due {
                            lemma_due_order_irreflexive(due);
                            if b < i {
                                assert(due_before(due_of(before[i as int]), due_of(before[b])));
                            } else {
                                assert(due_before(due_of(before[b]), due_of(before[i as int])));
                            }
                        }
                    }
                    if other != due && holds(before, other) {
                        let b = choose|b: int| 0 <= b < before.len() && due_of(#[trigger] before[b]) == other;
                        if b < i {
                            assert(after[b] == before[b]);
                        } else {
                            assert(after[b - 1] == before[b]);
                        }
                    }
                }
                assert(self@ =~= old(self)@.remove(due));
            }
        } else {
            assert(self@ =~= old(self)@.remove(due));
        }
    }

    /// Takes the pair that is due first out of the index and hands it over.
    pub fn pop_first(&mut self) -> (r: Option<(u64, String)>)
        requires
            old(self).wf(),
        ensures
            final(self).wf(),
            match r {
                None => old(self)@ == Set::<Due>::empty() && final(self)@ == old(self)@,
                Some(item) => final(self).count() < old(self).count() && old(self)@.contains(
                    due_of(item),
                ) && final(self)@ == old(self)@.remove(due_of(item)) && forall|other: Due|
                    #[trigger] old(self)@.contains(other) ==> other == due_of(item) || due_before(
                        due_of(item),
                        other,
                    ),
            },
    {
        let ghost before = self.items@;
        match self.items.pop() {
            None => {
                assert(self@ =~= Set::<Due>::empty());
                None
            },
            Some(item) => {
                proof {
                    let after = self.items@;
                    let due = due_of(item);
                    let n = after.len() as int;
                    assert(before[n] == item);
                    assert(holds(before, due));
                    assert forall|other: Due| holds(after, other) <==> (other != due && holds(
                        before,
                        other,
                    )) by {
                        if holds(after, other) {
                            let a = choose|a: int| 0 <= a < after.len() && due_of(#[trigger] after[a]) == other;
                            assert(before[a] == after[a]);
                            if other == due {
                                lemma_due_order_irreflexive(due);
                                assert(due_before(due_of(before[n]), due_of(before[a])));
                            }
                        }
                        if other != due && holds(before, other) {
                            let b = choose|b: int| 0 <= b < before.len() && due_of(#[trigger] before[b]) == other;
                            assert(after[b] == before[b]);
                        }
                    }
                    assert(self@ =~= old(self)@.remove(due));
                    assert forall|other: Due| old(self)@.contains(other) implies other == due
                        || due_before(due, other) by {
                        let b = choose|b: int| 0 <= b < before.len() && due_of(#[trigger] before[b]) == other;
                        if b < n {
                            assert(due_before(due_of(before[n]), due_of(before[b])));
                        }
                    }
                }
                Some(item)
            },
        }
    }
}

} // verus!
