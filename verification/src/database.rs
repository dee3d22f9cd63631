//! The store: entries by key, the index of their expiries, and the channels
//! that clients publish on and subscribe to.
//!
//! Time is a count of milliseconds that the caller reads from its clock and
//! hands to each operation that needs it.
use crate::database::entry::{BuilderError, Entry, EntryView};
use crate::database::expirations::{Due, Expirations};
use crate::database::table::Table;
use crate::database::topics::{attach, broadcast, open_channel, Topics};
use tokio::sync::broadcast::Receiver;
use vstd::prelude::*;

pub mod entry;
pub mod expirations;
pub mod laws;
pub mod table;
pub mod topics;

verus! {

/// The number of messages that a channel holds for slow subscribers.
pub const CHANNEL_CAPACITY: usize = 1024;

/// The store as a value.
pub struct State {
    /// The entries by key.
    pub data: Map<Seq<char>, EntryView>,
    /// The pairs of an instant and the key that expires then.
    pub expirations: Set<Due>,
    /// The names of the channels that have been subscribed to.
    pub topics: Set<Seq<char>>,
    /// Whether the store still takes part in the server's work.
    pub active: bool,
    /// Whether the worker that purges expired entries has been asked to wake.
    pub signal: bool,
}

/// The index and the entries agree: each pair of the index belongs to an
/// entry with that expiry, and each entry that expires has its pair.
pub open spec fn consistent(state: State) -> bool {
    &&& forall|due: Due| #[trigger]
        state.expirations.contains(due) ==> state.data.contains_key(due.1)
            && state.data[due.1].expires_at == Some(due.0)
    &&& forall|key: Seq<char>| #[trigger]
        state.data.contains_key(key) && state.data[key].expires_at is Some
            ==> state.expirations.contains((state.data[key].expires_at->Some_0, key))
}

/// `at` is the earliest instant of the index.
pub open spec fn is_earliest(expirations: Set<Due>, at: u64) -> bool {
    &&& exists|key: Seq<char>| expirations.contains((at, key))
    &&& forall|due: Due| expirations.contains(due) ==> at <= due.0
}

/// `next` is what the index gives as its next expiry: its earliest instant,
/// or nothing where it is empty.
pub open spec fn is_next_expiry(expirations: Set<Due>, next: Option<u64>) -> bool {
    match next {
        Some(at) => is_earliest(expirations, at),
        None => expirations == Set::<Due>::empty(),
    }
}

/// The payload that a reader of `key` gets.
pub open spec fn read(state: State, key: Seq<char>) -> Option<Seq<u8>> {
    if state.active && state.data.contains_key(key) {
        Some(state.data[key].payload)
    } else {
        None
    }
}

/// The instant at which an entry written at `now` with the lifetime `ttl` expires.
pub open spec fn expiry(ttl: Option<u64>, now: u64) -> Option<u64> {
    match ttl {
        Some(lifetime) => Some((now + lifetime) as u64),
        None => None,
    }
}

/// An entry that expires at `expires_at` would be the first of the index to expire.
pub open spec fn wakes(state: State, expires_at: Option<u64>) -> bool {
    expires_at matches Some(at) && forall|due: Due| state.expirations.contains(due) ==> at < due.0
}

/// The index without the pair of the entry that stands under `key`, if that
/// entry expires.
pub open spec fn without_pair_of(state: State, key: Seq<char>) -> Set<Due> {
    if state.data.contains_key(key) && state.data[key].expires_at is Some {
        state.expirations.remove((state.data[key].expires_at->Some_0, key))
    } else {
        state.expirations
    }
}

/// The store after `payload` was written under `key` at `now` with the
/// lifetime `ttl`. An empty payload and a store that is no longer active
/// change nothing.
pub open spec fn written(
    state: State,
    key: Seq<char>,
    payload: Seq<u8>,
    ttl: Option<u64>,
    now: u64,
) -> State {
    if payload.len() == 0 || !state.active {
        state
    } else {
        let expires_at = expiry(ttl, now);
        let cleared = without_pair_of(state, key);
        State {
            data: state.data.insert(key, EntryView { payload, expires_at }),
            expirations: match expires_at {
                Some(at) => cleared.insert((at, key)),
                None => cleared,
            },
            topics: state.topics,
            active: state.active,
            signal: state.signal || wakes(state, expires_at),
        }
    }
}

/// The entry expires at `now` or before.
pub open spec fn is_due(entry: EntryView, now: u64) -> bool {
    entry.expires_at matches Some(at) && at <= now
}

/// The store after the entries that are due at `now` were purged.
pub open spec fn purged(state: State, now: u64) -> State {
    if !state.active {
        state
    } else {
        State {
            data: Map::new(
                |key: Seq<char>| state.data.contains_key(key) && !is_due(state.data[key], now),
                |key: Seq<char>| state.data[key],
            ),
            expirations: Set::new(|due: Due| state.expirations.contains(due) && due.0 > now),
            topics: state.topics,
            active: state.active,
            signal: state.signal,
        }
    }
}

/// The store after a client subscribed to `channel`.
pub open spec fn subscribed(state: State, channel: Seq<char>) -> State {
    if !state.active {
        state
    } else {
        State {
            data: state.data,
            expirations: state.expirations,
            topics: state.topics.insert(channel),
            active: state.active,
            signal: state.signal,
        }
    }
}

/// The number of subscribers that a message went to, from what the channel reported.
pub open spec fn delivered(sent: Option<usize>) -> usize {
    match sent {
        Some(count) => count,
        None => 0,
    }
}

/// What the channel reported for a message, as the number of subscribers it went to.
pub fn subscriber_count(sent: Option<usize>) -> (count: usize)
    ensures
        count == delivered(sent),
{
    match sent {
        Some(count) => count,
        None => 0,
    }
}

/// The store.
pub struct Database {
    data: Table,
    expiration_set: Expirations,
    pub_sub_map: Topics,
    active: bool,
    expiration_signal: bool,
}

impl View for Database {
    type V = State;

    closed spec fn view(&self) -> State {
        State {
            data: self.data@,
            expirations: self.expiration_set@,
            topics: self.pub_sub_map@.dom(),
            active: self.active,
            signal: self.expiration_signal,
        }
    }
}

impl Database {
    /// The store is in order: the index and the entries agree.
    pub closed spec fn wf(&self) -> bool {
        &&& self.data.wf()
        &&& self.expiration_set.wf()
        &&& self.pub_sub_map.wf()
        &&& consistent(self@)
    }

    /// In a store that is in order the index and the entries agree.
    pub proof fn index_agrees(&self)
        requires
            self.wf(),
        ensures
            consistent(self@),
    {
    }

    /// An empty store that is active.
    pub fn new() -> (database: Self)
        ensures
            database.wf(),
            database@ == (State {
                data: Map::empty(),
                expirations: Set::empty(),
                topics: Set::empty(),
                active: true,
                signal: false,
            }),
    {
        let database = Database {
            data: Table::new(),
            expiration_set: Expirations::new(),
            pub_sub_map: Topics::new(),
            active: true,
            expiration_signal: false,
        };
        assert(database@.topics =~= Set::<Seq<char>>::empty());
        database
    }

    /// A copy of the payload under `key`. A store that is no longer active
    /// shows nothing.
    pub fn get(&self, key: &str) -> (payload: Option<Vec<u8>>)
        requires
            self.wf(),
        ensures
            match read(self@, key@) {
                Some(bytes) => payload is Some && payload->Some_0@ == bytes,
                None => payload is None,
            },
    {
        if !self.active {
            return None;
        }
        match self.data.get(key) {
            Some(entry) => Some(entry.payload()),
            None => None,
        }
    }

    /// The earliest instant at which an entry expires.
    pub fn get_expired(&self) -> (next: Option<u64>)
        requires
            self.wf(),
        ensures
            is_next_expiry(self@.expirations, next),
    {
        match self.expiration_set.first() {
            Some((at, key)) => {
                assert(self@.expirations.contains((at, key@)));
                Some(at)
            },
            None => None,
        }
    }

    /// Writes `val` under `key`. With a lifetime the entry expires that many
    /// milliseconds after `now`. An empty payload is refused and the store stays
    /// as it was. The worker that purges is asked to wake where the new entry
    /// would be the first to expire.
    pub fn set(&mut self, key: String, val: Vec<u8>, expiration: Option<u64>, now: u64) -> (r:
        Result<(), BuilderError>)
        requires
            old(self).wf(),
            expiration matches Some(lifetime) ==> now + lifetime <= u64::MAX,
        ensures
            final(self).wf(),
            final(self)@ == written(old(self)@, key@, val@, expiration, now),
            val@.len() > 0 ==> r is Ok,
            val@.len() == 0 ==> (r is Err && r->Err_0.0@
                == crate::database::entry::empty_buffer_text()),
    {
        let expires_at = match expiration {
            Some(lifetime) => Some(now + lifetime),
            None => None,
        };
        let ghost before = self@;
        let ghost name = key@;
        let ghost payload = val@;
        let entry = match Entry::builder().with_bytes(val).with_expiration(
            expires_at,
        ).build_consume() {
            Ok(entry) => entry,
            Err(e) => {
                return Err(e);
            },
        };
        if !self.active {
            return Ok(());
        }
        let mut notify = false;
        match expires_at {
            Some(at) => match self.expiration_set.first() {
                Some((next, first_key)) => {
                    assert(before.expirations.contains((next, first_key@)));
                    notify = next > at;
                },
                None => {
                    notify = true;
                },
            },
            None => {},
        }
        assert(notify == wakes(before, expires_at));
        let replaced = self.data.insert(key.clone(), entry);
        if let Some(previous) = replaced {
            if let Some(old_at) = previous.expiration() {
                self.expiration_set.remove(old_at, key.as_str());
            }
        }
        assert(self.expiration_set@ == without_pair_of(before, name));
        if let Some(at) = expires_at {
            self.expiration_set.insert(at, key);
        }
        if notify {
            self.expiration_signal = true;
        }
        proof {
            assert(self@ == written(before, name, payload, expiration, now));
            crate::database::laws::write_keeps_index(before, name, payload, expiration, now);
        }
        Ok(())
    }

    /// A receiver for the messages of `key`. The channel is made on the first
    /// subscription to its name. A store that is no longer active gives none.
    pub fn subscribe(&mut self, key: String) -> (receiver: Option<Receiver<Vec<u8>>>)
        requires
            old(self).wf(),
        ensures
            final(self).wf(),
            final(self)@ == subscribed(old(self)@, key@),
            receiver is Some <==> old(self)@.active,
    {
        if !self.active {
            return None;
        }
        let existing = match self.pub_sub_map.get(key.as_str()) {
            Some(sender) => Some(attach(sender)),
            None => None,
        };
        match existing {
            Some(receiver) => {
                assert(self@.topics.insert(key@) =~= self@.topics);
                Some(receiver)
            },
            None => {
                let (sender, receiver) = open_channel(CHANNEL_CAPACITY);
                self.pub_sub_map.insert(key, sender);
                assert(consistent(self@)) by {
                    assert(self@.data == old(self)@.data);
                    assert(self@.expirations == old(self)@.expirations);
                }
                Some(receiver)
            },
        }
    }

    /// Sends `val` to the subscribers of `key` and tells how many there were.
    /// A name that nobody has subscribed to has none, and no channel is made
    /// for it. The store stays as it was.
    pub fn publish(&self, key: &str, val: Vec<u8>) -> (count: usize)
        requires
            self.wf(),
        ensures
            !self@.active || !self@.topics.contains(key@) ==> count == 0,
    {
        if !self.active {
            return 0;
        }
        match self.pub_sub_map.get(key) {
            Some(sender) => subscriber_count(broadcast(sender, val)),
            None => 0,
        }
    }

    /// Ends the store's part in the server's work: from now on nothing is
    /// read, written or purged.
    pub fn halt_background_tasks(&mut self)
        requires
            old(self).wf(),
        ensures
            final(self).wf(),
            final(self)@ == (State { active: false, ..old(self)@ }),
    {
        self.active = false;
    }

    /// Whether the store has been halted.
    pub fn has_shutdown(&self) -> (halted: bool)
        ensures
            halted == !self@.active,
    {
        !self.active
    }

    /// Whether the worker that purges has been asked to wake since this was
    /// last asked. Asking takes the request back.
    pub fn take_expiration_signal(&mut self) -> (raised: bool)
        requires
            old(self).wf(),
        ensures
            final(self).wf(),
            raised == old(self)@.signal,
            final(self)@ == (State { signal: false, ..old(self)@ }),
    {
        let raised = self.expiration_signal;
        self.expiration_signal = false;
        raised
    }

    /// Removes every entry that is due at `now`, and tells the earliest instant
    /// at which one of the others expires. A store that is no longer active is
    /// left alone and tells nothing.
    pub fn purge_expired(&mut self, now: u64) -> (next: Option<u64>)
        requires
            old(self).wf(),
        ensures
            final(self).wf(),
            final(self)@ == purged(old(self)@, now),
            old(self)@.active ==> is_next_expiry(final(self)@.expirations, next),
            !old(self)@.active ==> next is None,
    {
        if !self.active {
            return None;
        }
        let ghost start = self@;
        assert(purged(self@, now).data =~= purged(start, now).data);
        loop
            invariant
                self.wf(),
                self@.active,
                start.active,
                start == old(self)@,
                purged(self@, now) == purged(start, now),
            decreases self.expiration_set.count(),
        {
            let ghost mut seen: Due = (0u64, Seq::<char>::empty());
            let first = match self.expiration_set.first() {
                Some((at, key)) => {
                    proof {
                        seen = (at, key@);
                    }
                    assert(self@.expirations.contains(seen));
                    Some(at)
                },
                None => None,
            };
            let due = match first {
                Some(at) => at <= now,
                None => false,
            };
            if !due {
                proof {
                    let here = self@;
                    assert forall|other: Due| here.expirations.contains(other) implies other.0
                        > now by {}
                    assert(purged(here, now).expirations =~= here.expirations);
                    assert(purged(here, now).data =~= here.data);
                }
                return first;
            }
            let ghost here = self@;
            let item = self.expiration_set.pop_first();
            match item {
                Some((at, key)) => {
                    let removed = self.data.remove(key.as_str());
                    proof {
                        let after = self@;
                        assert(here.expirations.contains(seen));
                        assert(at <= seen.0);
                        crate::database::laws::purge_step(here, at, key@, now);
                        assert(after.data =~= here.data.remove(key@));
                    }
                },
                None => {},
            }
        }
    }
}

} // verus!
