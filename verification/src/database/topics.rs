//! The channels of the store: for each name that has been subscribed to, the
//! sending end of a broadcast channel.
use crate::text::text_equal;
use tokio::sync::broadcast::{Receiver, Sender};
use vstd::prelude::*;

verus! {

/// `tokio::sync::broadcast::Sender`, the sending end of a broadcast channel.
/// Nothing is known of what is inside it.
#[verifier::external_type_specification]
#[verifier::external_body]
#[verifier::reject_recursive_types(T)]
pub struct ExSender<T>(Sender<T>);

/// `tokio::sync::broadcast::Receiver`, a receiving end of a broadcast
/// channel. Nothing is known of what is inside it.
#[verifier::external_type_specification]
#[verifier::external_body]
#[verifier::reject_recursive_types(T)]
pub struct ExReceiver<T>(Receiver<T>);

/// `tokio::sync::broadcast::channel`. It panics for a capacity of zero or of
/// more than half of `usize::MAX`, which the contract leaves out. Nothing is
/// claimed of the two ends.
#[verifier::external_body]
pub(crate) fn open_channel(capacity: usize) -> (ends: (Sender<Vec<u8>>, Receiver<Vec<u8>>))
    requires
        0 < capacity <= usize::MAX / 2,
{
    tokio::sync::broadcast::channel(capacity)
}

/// `tokio::sync::broadcast::Sender::subscribe`: one more receiving end.
/// Nothing is claimed of it. The call panics once a quarter of `usize::MAX`
/// receiving ends are attached, which is more than memory holds.
#[verifier::external_body]
pub(crate) fn attach(sender: &Sender<Vec<u8>>) -> (receiver: Receiver<Vec<u8>>) {
    sender.subscribe()
}

/// `tokio::sync::broadcast::Sender::send`: the number of receiving ends that
/// were attached, or nothing where there was none. The number depends on who
/// is listening, so nothing is claimed of it.
#[verifier::external_body]
pub(crate) fn broadcast(sender: &Sender<Vec<u8>>, payload: Vec<u8>) -> (sent: Option<usize>) {
    sender.send(payload).ok()
}

/// Some topic of `topics` has the name `name`.
pub open spec fn has_topic(topics: Seq<(String, Sender<Vec<u8>>)>, name: Seq<char>) -> bool {
    exists|i: int| 0 <= i < topics.len() && (#[trigger] topics[i]).0@ == name
}

/// A topic of `topics` that has the name `name`.
pub open spec fn topic_of(topics: Seq<(String, Sender<Vec<u8>>)>, name: Seq<char>) -> int {
    choose|i: int| 0 <= i < topics.len() && (#[trigger] topics[i]).0@ == name
}

/// No name stands twice among `topics`.
pub open spec fn distinct(topics: Seq<(String, Sender<Vec<u8>>)>) -> bool {
    forall|i: int, j: int|
        0 <= i < j < topics.len() ==> (#[trigger] topics[i]).0@ != (#[trigger] topics[j]).0@
}

/// Among topics of which no name stands twice, a name stands at one place only.
proof fn lemma_one_topic(topics: Seq<(String, Sender<Vec<u8>>)>, i: int)
    requires
        distinct(topics),
        0 <= i < topics.len(),
    ensures
        has_topic(topics, topics[i].0@),
        topic_of(topics, topics[i].0@) == i,
{
    let j = topic_of(topics, topics[i].0@);
    if j < i {
        assert(topics[j].0@ != topics[i].0@);
    } else if i < j {
        assert(topics[i].0@ != topics[j].0@);
    }
}

/// The channels by name, each with its sending end. No name stands twice.
pub struct Topics {
    topics: Vec<(String, Sender<Vec<u8>>)>,
}

impl View for Topics {
    type V = Map<Seq<char>, Sender<Vec<u8>>>;

    closed spec fn view(&self) -> Map<Seq<char>, Sender<Vec<u8>>> {
        Map::new(
            |name: Seq<char>| has_topic(self.topics@, name),
            |name: Seq<char>| self.topics@[topic_of(self.topics@, name)].1,
        )
    }
}

impl Topics {
    /// No name stands twice.
    pub closed spec fn wf(&self) -> bool {
        distinct(self.topics@)
    }

    /// No channels.
    pub fn new() -> (topics: Self)
        ensures
            topics.wf(),
            topics@ == Map::<Seq<char>, Sender<Vec<u8>>>::empty(),
    {
        let topics = Topics { topics: Vec::new() };
        assert(topics@ =~= Map::<Seq<char>, Sender<Vec<u8>>>::empty());
        topics
    }

    /// The sending end of the channel named `name`, if the channel is there.
    pub fn get(&self, name: &str) -> (r: Option<&Sender<Vec<u8>>>)
        requires
            self.wf(),
        ensures
            match r {
                Some(sender) => self@.contains_key(name@) && *sender == self@[name@],
                None => !self@.contains_key(name@),
            },
    {
        let mut i: usize = 0;
        while i < self.topics.len()
            invariant
                i <= self.topics@.len(),
                self.wf(),
                forall|j: int| 0 <= j < i ==> self.topics@[j].0@ != name@,
            decreases self.topics@.len() - i,
        {
            if text_equal(self.topics[i].0.as_str(), name) {
                proof {
                    lemma_one_topic(self.topics@, i as int);
                }
                return Some(&self.topics[i].1);
            }
            i += 1;
        }
        None
    }

    /// Adds the channel named `name`, which must be new, with its sending
    /// end. The other channels keep theirs.
    pub fn insert(&mut self, name: String, sender: Sender<Vec<u8>>)
        requires
            old(self).wf(),
            !old(self)@.contains_key(name@),
        ensures
            final(self).wf(),
            final(self)@ == old(self)@.insert(name@, sender),
    {
        let ghost before = self.topics@;
        let ghost label = name@;
        self.topics.push((name, sender));
        proof {
            let after = self.topics@;
            assert forall|i: int, j: int| 0 <= i < j < after.len() implies (#[trigger] after[i]).0@
                != (#[trigger] after[j]).0@ by {
                assert(after[i] == before[i]);
                if j < before.len() {
                    assert(after[j] == before[j]);
                } else {
                    assert(has_topic(before, before[i].0@));
                }
            }
            assert forall|other: Seq<char>| has_topic(after, other) <==> (other == label
                || has_topic(before, other)) by {
                if has_topic(after, other) && other != label {
                    let a = topic_of(after, other);
                    assert(before[a] == after[a]);
                }
                if other == label {
                    assert(after[before.len() as int].0@ == label);
                }
                if has_topic(before, other) {
                    let b = topic_of(before, other);
                    assert(after[b] == before[b]);
                }
            }
            assert forall|other: Seq<char>| has_topic(after, other) implies #[trigger] self@[other]
                == old(self)@.insert(label, sender)[other] by {
                let a = topic_of(after, other);
                lemma_one_topic(after, a);
                if a < before.len() {
                    assert(after[a] == before[a]);
                    lemma_one_topic(before, a);
                }
            }
            assert(self@ =~= old(self)@.insert(label, sender));
        }
    }
}

} // verus!
