//! What holds of the store whatever is written to it.
use crate::database::entry::EntryView;
use crate::database::expirations::Due;
use crate::database::{
    consistent, expiry, is_earliest, purged, read, subscribed, without_pair_of, written, State,
};
use vstd::prelude::*;

verus! {

/// A write keeps the index and the entries in agreement. The pair of the entry
/// that was replaced leaves the index, and the pair of the new entry enters it.
pub proof fn write_keeps_index(
    state: State,
    key: Seq<char>,
    payload: Seq<u8>,
    ttl: Option<u64>,
    now: u64,
)
    requires
        consistent(state),
    ensures
        consistent(written(state, key, payload, ttl, now)),
{
    let after = written(state, key, payload, ttl, now);
    if payload.len() > 0 && state.active {
        let expires_at = expiry(ttl, now);
        let cleared = without_pair_of(state, key);
        assert forall|due: Due| #[trigger] after.expirations.contains(due) implies after.data.contains_key(
            due.1,
        ) && after.data[due.1].expires_at == Some(due.0) by {
            if expires_at is Some && due == (expires_at->Some_0, key) {
            } else {
                assert(cleared.contains(due));
                assert(state.expirations.contains(due));
                if due.1 == key {
                    assert(state.data[key].expires_at == Some(due.0));
                    assert(due == (state.data[key].expires_at->Some_0, key));
                }
            }
        }
        assert forall|other: Seq<char>| #[trigger]
            after.data.contains_key(other) && after.data[other].expires_at is Some implies after.expirations.contains(
            (after.data[other].expires_at->Some_0, other),
        ) by {
            if other != key {
                assert(state.data.contains_key(other));
                let due = (state.data[other].expires_at->Some_0, other);
                assert(state.expirations.contains(due));
                assert(cleared.contains(due));
            }
        }
    }
}

/// Taking an entry that is due out of the entries and its pair out of the
/// index keeps the two in agreement, and purging what is left gives what
/// purging everything gives.
pub proof fn purge_step(state: State, at: u64, key: Seq<char>, now: u64)
    requires
        consistent(state),
        state.active,
        state.expirations.contains((at, key)),
        at <= now,
    ensures
        consistent(
            State {
                data: state.data.remove(key),
                expirations: state.expirations.remove((at, key)),
                ..state
            },
        ),
        purged(
            State {
                data: state.data.remove(key),
                expirations: state.expirations.remove((at, key)),
                ..state
            },
            now,
        ) == purged(state, now),
{
    let after = State {
        data: state.data.remove(key),
        expirations: state.expirations.remove((at, key)),
        ..state
    };
    assert(state.data.contains_key(key) && state.data[key].expires_at == Some(at));
    assert forall|due: Due| #[trigger] after.expirations.contains(due) implies after.data.contains_key(
        due.1,
    ) && after.data[due.1].expires_at == Some(due.0) by {
        assert(state.expirations.contains(due));
        if due.1 == key {
            assert(due == (at, key));
        }
    }
    assert forall|other: Seq<char>| #[trigger]
        after.data.contains_key(other) && after.data[other].expires_at is Some implies after.expirations.contains(
        (after.data[other].expires_at->Some_0, other),
    ) by {
        assert(state.data.contains_key(other));
    }
    assert(purged(after, now).data =~= purged(state, now).data);
    assert(purged(after, now).expirations =~= purged(state, now).expirations);
}

/// One write: the key, the payload, the lifetime and the instant of writing.
pub struct Write {
    pub key: Seq<char>,
    pub payload: Seq<u8>,
    pub ttl: Option<u64>,
    pub now: u64,
}

/// The store after the writes of `writes`, made in order.
pub open spec fn written_all(state: State, writes: Seq<Write>) -> State
    decreases writes.len(),
{
    if writes.len() == 0 {
        state
    } else {
        let last = writes.last();
        written(written_all(state, writes.drop_last()), last.key, last.payload, last.ttl, last.now)
    }
}

/// Writes do not halt the store.
pub proof fn writes_keep_active(state: State, writes: Seq<Write>)
    ensures
        written_all(state, writes).active == state.active,
    decreases writes.len(),
{
    if writes.len() > 0 {
        writes_keep_active(state, writes.drop_last());
    }
}

/// The last write wins: after any sequence of writes, a reader of the key
/// that was written last gets the payload that was written last. Reading
/// changes nothing, so reads between the writes make no difference.
pub proof fn last_write_is_read(state: State, writes: Seq<Write>)
    requires
        state.active,
        writes.len() > 0,
        writes.last().payload.len() > 0,
    ensures
        read(written_all(state, writes), writes.last().key) == Some(writes.last().payload),
{
    writes_keep_active(state, writes.drop_last());
}

/// After any sequence of writes the index and the entries agree.
pub proof fn writes_keep_index(state: State, writes: Seq<Write>)
    requires
        consistent(state),
    ensures
        consistent(written_all(state, writes)),
    decreases writes.len(),
{
    if writes.len() > 0 {
        let last = writes.last();
        writes_keep_index(state, writes.drop_last());
        write_keeps_index(
            written_all(state, writes.drop_last()),
            last.key,
            last.payload,
            last.ttl,
            last.now,
        );
    }
}

/// `at` is the earliest instant at which an entry of `data` expires.
pub open spec fn is_earliest_expiry(data: Map<Seq<char>, EntryView>, at: u64) -> bool {
    &&& exists|key: Seq<char>| data.contains_key(key) && data[key].expires_at == Some(at)
    &&& forall|key: Seq<char>|
        data.contains_key(key) && data[key].expires_at is Some ==> at
            <= data[key].expires_at->Some_0
}

/// Where the index and the entries agree, the earliest instant of the index
/// is the earliest expiry among the entries.
pub proof fn earliest_of_index_is_earliest_expiry(state: State, at: u64)
    requires
        consistent(state),
    ensures
        is_earliest(state.expirations, at) <==> is_earliest_expiry(state.data, at),
{
    if is_earliest(state.expirations, at) {
        let key = choose|key: Seq<char>| state.expirations.contains((at, key));
        assert(state.data.contains_key(key) && state.data[key].expires_at == Some(at));
        assert forall|other: Seq<char>|
            state.data.contains_key(other) && state.data[other].expires_at is Some implies at
            <= state.data[other].expires_at->Some_0 by {
            assert(state.expirations.contains((state.data[other].expires_at->Some_0, other)));
        }
    }
    if is_earliest_expiry(state.data, at) {
        let key = choose|key: Seq<char>|
            state.data.contains_key(key) && state.data[key].expires_at == Some(at);
        assert(state.expirations.contains((at, key)));
        assert forall|due: Due| state.expirations.contains(due) implies at <= due.0 by {
            assert(state.data.contains_key(due.1) && state.data[due.1].expires_at == Some(due.0));
        }
    }
}

/// The earliest instant of an index is one instant only.
pub proof fn earliest_is_unique(expirations: Set<Due>, a: u64, b: u64)
    requires
        is_earliest(expirations, a),
        is_earliest(expirations, b),
    ensures
        a == b,
{
    let first = choose|key: Seq<char>| expirations.contains((a, key));
    let second = choose|key: Seq<char>| expirations.contains((b, key));
    assert(expirations.contains((a, first)));
    assert(expirations.contains((b, second)));
}

/// An entry written with a lifetime is gone once its lifetime is over and
/// the store has been purged: a reader then gets nothing.
pub proof fn expired_entry_is_gone(
    state: State,
    key: Seq<char>,
    payload: Seq<u8>,
    lifetime: u64,
    now: u64,
    later: u64,
)
    requires
        state.active,
        payload.len() > 0,
        now + lifetime <= later,
    ensures
        read(purged(written(state, key, payload, Some(lifetime), now), later), key) is None,
{
}

/// Purging removes exactly the entries that are due and keeps the index and
/// the entries in agreement.
pub proof fn purge_keeps_index(state: State, now: u64)
    requires
        consistent(state),
    ensures
        consistent(purged(state, now)),
{
    let after = purged(state, now);
    if state.active {
        assert forall|due: Due| #[trigger] after.expirations.contains(due) implies after.data.contains_key(
            due.1,
        ) && after.data[due.1].expires_at == Some(due.0) by {
            assert(state.expirations.contains(due));
        }
        assert forall|other: Seq<char>| #[trigger]
            after.data.contains_key(other) && after.data[other].expires_at is Some implies after.expirations.contains(
            (after.data[other].expires_at->Some_0, other),
        ) by {
            assert(state.data.contains_key(other));
        }
    }
}

/// One thing that is done to the store.
pub enum Op {
    /// A payload is written under a key.
    Write(Write),
    /// The entries that are due at an instant are purged.
    Purge { now: u64 },
    /// A client subscribes to a channel.
    Subscribe { channel: Seq<char> },
    /// A message is published on a channel.
    Publish { channel: Seq<char> },
    /// The store is halted.
    Halt,
}

/// The store after `op`.
pub open spec fn applied(state: State, op: Op) -> State {
    match op {
        Op::Write(write) => written(state, write.key, write.payload, write.ttl, write.now),
        Op::Purge { now } => purged(state, now),
        Op::Subscribe { channel } => subscribed(state, channel),
        Op::Publish { channel } => state,
        Op::Halt => State { active: false, ..state },
    }
}

/// The store after the operations of `ops`, made in order.
pub open spec fn applied_all(state: State, ops: Seq<Op>) -> State
    decreases ops.len(),
{
    if ops.len() == 0 {
        state
    } else {
        applied(applied_all(state, ops.drop_last()), ops.last())
    }
}

/// Whatever is done to the store, the index and the entries agree afterwards.
pub proof fn index_agrees_after(state: State, ops: Seq<Op>)
    requires
        consistent(state),
    ensures
        consistent(applied_all(state, ops)),
    decreases ops.len(),
{
    if ops.len() > 0 {
        index_agrees_after(state, ops.drop_last());
        let before = applied_all(state, ops.drop_last());
        match ops.last() {
            Op::Write(write) => {
                write_keeps_index(before, write.key, write.payload, write.ttl, write.now);
            },
            Op::Purge { now } => {
                purge_keeps_index(before, now);
            },
            _ => {},
        }
    }
}

/// A channel comes to be by a subscription only: as long as nobody has
/// subscribed to it, whatever else was done and published, the store holds no
/// channel of that name.
pub proof fn no_channel_without_subscription(state: State, ops: Seq<Op>, channel: Seq<char>)
    requires
        !state.topics.contains(channel),
        forall|i: int| 0 <= i < ops.len() ==> ops[i] != (Op::Subscribe { channel }),
    ensures
        !applied_all(state, ops).topics.contains(channel),
    decreases ops.len(),
{
    if ops.len() > 0 {
        no_channel_without_subscription(state, ops.drop_last(), channel);
        assert(ops.last() == ops[ops.len() - 1]);
    }
}

} // verus!
