//! Which workers may be given work.
use vstd::prelude::*;
use vstd::hash_map::StringHashMap;
use crate::text::{copy_str, same_text};

verus! {

/// A failed worker whose channel is open is taken back after this many seconds.
pub const WORKER_REHAB_SECS: u64 = 60;

/// A worker with this many strikes counts as failed.
pub const WORKER_STRIKE_LIMIT: u32 = 3;

/// Sending pauses while more than this many bytes wait in a channel.
pub const BUFFERED_HIGH_WATER: usize = 4194304;

pub const NANOS_PER_SEC: u64 = 1_000_000_000;

/// The whole seconds from `since` to `now`, two readings of one clock in nanoseconds; none if
/// `since` is the later one.
pub open spec fn elapsed_secs(now: u64, since: u64) -> u64 {
    if now <= since {
        0
    } else {
        ((now - since) / NANOS_PER_SEC as int) as u64
    }
}

/// The whole seconds from `since` to `now`.
pub fn elapsed(now: u64, since: u64) -> (r: u64)
    ensures
        r == elapsed_secs(now, since),
{
    if now <= since {
        0
    } else {
        (now - since) / NANOS_PER_SEC
    }
}

/// A sender waits before the next frame while the channel is too full.
pub fn must_wait(buffered: usize) -> (r: bool)
    ensures
        r == (buffered > BUFFERED_HIGH_WATER),
{
    buffered > BUFFERED_HIGH_WATER
}

/// The states of a peer connection.
#[derive(Debug, Clone, Copy, PartialEq, Eq, Structural)]
pub enum PeerState {
    Unspecified,
    New,
    Connecting,
    Connected,
    Disconnected,
    Failed,
    Closed,
}

/// Whether a worker is lost when its connection enters this state.
pub fn connection_lost(state: PeerState) -> (r: bool)
    ensures
        r == (state == PeerState::Closed || state == PeerState::Failed || state
            == PeerState::Disconnected),
{
    match state {
        PeerState::Closed | PeerState::Failed | PeerState::Disconnected => true,
        _ => false,
    }
}

/// The data channel to a worker.
#[derive(Debug, Clone)]
pub struct Channel {
    pub worker_id: String,
    pub open: bool,
}

/// One of the channels to `worker` is open.
pub open spec fn channel_open(channels: Seq<Channel>, worker: Seq<char>) -> bool {
    exists|i: int|
        0 <= i < channels.len() && (#[trigger] channels[i]).open && channels[i].worker_id@ == worker
}

/// The failed workers that are left when those that have served their time are taken back.
pub open spec fn still_failed(
    failed: Map<Seq<char>, u64>,
    channels: Seq<Channel>,
    now: u64,
) -> Map<Seq<char>, u64> {
    Map::new(
        |w: Seq<char>|
            failed.contains_key(w) && !(channel_open(channels, w) && elapsed_secs(now, failed[w])
                >= WORKER_REHAB_SECS),
        |w: Seq<char>| failed[w],
    )
}

/// The channels, in their order, that are open and lead to a worker that has not failed.
pub open spec fn usable_channels(channels: Seq<Channel>, failed: Map<Seq<char>, u64>) -> Seq<Channel>
    decreases channels.len(),
{
    if channels.len() == 0 {
        Seq::empty()
    } else {
        let c = channels.last();
        let before = usable_channels(channels.drop_last(), failed);
        if c.open && !failed.contains_key(c.worker_id@) {
            before.push(c)
        } else {
            before
        }
    }
}

/// The views of strings.
pub open spec fn texts(s: Seq<String>) -> Seq<Seq<char>> {
    Seq::new(s.len(), |i: int| s[i]@)
}

/// The workers that the channels lead to.
pub open spec fn channel_workers(channels: Seq<Channel>) -> Seq<Seq<char>> {
    Seq::new(channels.len(), |i: int| channels[i].worker_id@)
}

/// The workers but `worker`, in their order.
pub open spec fn without(workers: Seq<Seq<char>>, worker: Seq<char>) -> Seq<Seq<char>>
    decreases workers.len(),
{
    if workers.len() == 0 {
        Seq::empty()
    } else {
        let before = without(workers.drop_last(), worker);
        if workers.last() == worker {
            before
        } else {
            before.push(workers.last())
        }
    }
}

/// The workers but `worker`, in their order.
pub fn others(available: &Vec<String>, worker: &str) -> (r: Vec<String>)
    ensures
        texts(r@) == without(texts(available@), worker@),
{
    let mut r: Vec<String> = Vec::new();
    let mut i: usize = 0;
    while i < available.len()
        invariant
            i <= available@.len(),
            texts(r@) == without(texts(available@).take(i as int), worker@),
        decreases available@.len() - i,
    {
        let ghost had = r@;
        let ghost more = texts(available@).take(i + 1);
        assert(more.drop_last() =~= texts(available@).take(i as int));
        assert(more.last() == available@[i as int]@);
        if !same_text(available[i].as_str(), worker) {
            r.push(available[i].clone());
            assert(texts(r@) =~= texts(had).push(available@[i as int]@));
        }
        i = i + 1;
    }
    assert(texts(available@).take(i as int) =~= texts(available@));
    r
}

/// The workers that failed, each with the time at which it did.
pub struct FailedWorkers {
    since: StringHashMap<u64>,
}

impl View for FailedWorkers {
    type V = Map<Seq<char>, u64>;

    closed spec fn view(&self) -> Map<Seq<char>, u64> {
        self.since@
    }
}

impl FailedWorkers {
    pub fn new() -> (r: Self)
        ensures
            r@ == Map::<Seq<char>, u64>::empty(),
    {
        FailedWorkers { since: StringHashMap::new() }
    }

    /// The worker failed at `now`.
    pub fn mark_worker_failed(&mut self, worker_id: &str, now: u64)
        ensures
            final(self)@ == old(self)@.insert(worker_id@, now),
    {
        self.since.insert(copy_str(worker_id), now);
    }

    /// Workers with an open data channel, excluding recently failed ones.
    /// A failed worker whose channel is still open is rehabilitated after a cooldown.
    pub fn get_available_workers(&mut self, channels: &Vec<Channel>, now: u64) -> (r: Vec<String>)
        ensures
            final(self)@ == still_failed(old(self)@, channels@, now),
            texts(r@) == channel_workers(usable_channels(channels@, final(self)@)),
    {
        let ghost before = self.since@;
        let mut i: usize = 0;
        while i < channels.len()
            invariant
                i <= channels@.len(),
                self.since@ == still_failed(before, channels@.take(i as int), now),
            decreases channels@.len() - i,
        {
            let ghost seen = channels@.take(i as int);
            let ghost more = channels@.take(i + 1);
            let ghost w = channels@[i as int].worker_id@;
            let ghost was = self.since@;
            proof {
                assert(more =~= seen.push(channels@[i as int]));
                assert forall|v: Seq<char>|
                    channel_open(more, v) <==> (channel_open(seen, v) || (channels@[i as int].open
                        && w == v)) by {
                    if channel_open(seen, v) {
                        let j = choose|j: int|
                            0 <= j < seen.len() && (#[trigger] seen[j]).open && seen[j].worker_id@
                                == v;
                        assert(more[j].open);
                    }
                    if channels@[i as int].open && w == v {
                        assert(more[i as int].open);
                    }
                    if channel_open(more, v) && !(channels@[i as int].open && w == v) {
                        let j = choose|j: int|
                            0 <= j < more.len() && (#[trigger] more[j]).open && more[j].worker_id@
                                == v;
                        assert(seen[j].open);
                    }
                }
            }
            if channels[i].open {
                let served: bool = match self.since.get(channels[i].worker_id.as_str()) {
                    Some(since) => elapsed(now, *since) >= WORKER_REHAB_SECS,
                    None => false,
                };
                if served {
                    self.since.remove(channels[i].worker_id.as_str());
                }
            }
            assert(self.since@ =~= still_failed(before, more, now));
            i = i + 1;
        }
        assert(channels@.take(i as int) =~= channels@);
        let mut r: Vec<String> = Vec::new();
        let mut i: usize = 0;
        while i < channels.len()
            invariant
                i <= channels@.len(),
                texts(r@) == channel_workers(usable_channels(channels@.take(i as int), self.since@)),
            decreases channels@.len() - i,
        {
            let ghost more = channels@.take(i + 1);
            let ghost had = r@;
            assert(more.drop_last() =~= channels@.take(i as int));
            assert(more.last() == channels@[i as int]);
            if channels[i].open && !self.since.contains_key(channels[i].worker_id.as_str()) {
                r.push(channels[i].worker_id.clone());
                assert(texts(r@) =~= texts(had).push(channels@[i as int].worker_id@));
            }
            assert(texts(r@) =~= channel_workers(usable_channels(more, self.since@)));
            i = i + 1;
        }
        assert(channels@.take(i as int) =~= channels@);
        r
    }
}

proof fn lemma_usable_contains(channels: Seq<Channel>, failed: Map<Seq<char>, u64>, w: Seq<char>)
    ensures
        channel_workers(usable_channels(channels, failed)).contains(w) <==> (channel_open(
            channels,
            w,
        ) && !failed.contains_key(w)),
    decreases channels.len(),
{
    let all = channel_workers(usable_channels(channels, failed));
    if channels.len() == 0 {
        assert(all.len() == 0);
    } else {
        let rest = channels.drop_last();
        let c = channels.last();
        let had = channel_workers(usable_channels(rest, failed));
        lemma_usable_contains(rest, failed, w);
        if channel_open(rest, w) {
            let j = choose|j: int|
                0 <= j < rest.len() && (#[trigger] rest[j]).open && rest[j].worker_id@ == w;
            assert(channels[j].open);
        }
        if c.open && c.worker_id@ == w {
            assert(channels[channels.len() - 1].open);
        }
        if channel_open(channels, w) && !(c.open && c.worker_id@ == w) {
            let j = choose|j: int|
                0 <= j < channels.len() && (#[trigger] channels[j]).open && channels[j].worker_id@
                    == w;
            assert(rest[j].open);
        }
        if c.open && !failed.contains_key(c.worker_id@) {
            assert(all =~= had.push(c.worker_id@));
            if had.contains(w) {
                let j = choose|j: int| 0 <= j < had.len() && had[j] == w;
                assert(all[j] == w);
            }
            assert(all[all.len() - 1] == c.worker_id@);
            if all.contains(w) && c.worker_id@ != w {
                let j = choose|j: int| 0 <= j < all.len() && all[j] == w;
                assert(had[j] == w);
            }
        } else {
            assert(all =~= had);
        }
    }
}

/// A worker is available just when a channel to it is open and it either has not failed or
/// failed long enough ago.
pub proof fn available_exactly_when_open_and_trusted(
    failed: Map<Seq<char>, u64>,
    channels: Seq<Channel>,
    now: u64,
    worker: Seq<char>,
)
    ensures
        channel_workers(
            usable_channels(channels, still_failed(failed, channels, now)),
        ).contains(worker) <==> (channel_open(channels, worker) && (failed.contains_key(worker)
            ==> elapsed_secs(now, failed[worker]) >= WORKER_REHAB_SECS)),
{
    lemma_usable_contains(channels, still_failed(failed, channels, now), worker);
}

proof fn lemma_without(workers: Seq<Seq<char>>, worker: Seq<char>, other: Seq<char>)
    ensures
        without(workers, worker).contains(other) <==> (workers.contains(other) && other != worker),
    decreases workers.len(),
{
    if workers.len() > 0 {
        let rest = workers.drop_last();
        let before = without(rest, worker);
        let all = without(workers, worker);
        lemma_without(rest, worker, other);
        if rest.contains(other) {
            let k = choose|k: int| 0 <= k < rest.len() && rest[k] == other;
            assert(workers[k] == other);
        }
        if workers.contains(other) && other != workers.last() {
            let k = choose|k: int| 0 <= k < workers.len() && workers[k] == other;
            assert(rest[k] == other);
        }
        assert(workers[workers.len() - 1] == workers.last());
        if workers.last() != worker {
            assert(all[all.len() - 1] == workers.last());
            if before.contains(other) {
                let k = choose|k: int| 0 <= k < before.len() && before[k] == other;
                assert(all[k] == other);
            }
            if all.contains(other) && other != workers.last() {
                let k = choose|k: int| 0 <= k < all.len() && all[k] == other;
                assert(before[k] == other);
            }
        }
    }
}

/// Leaving a worker out leaves out that one and no other.
pub proof fn without_leaves_out_one(workers: Seq<Seq<char>>, worker: Seq<char>)
    ensures
        forall|other: Seq<char>| #[trigger]
            without(workers, worker).contains(other) <==> (workers.contains(other) && other
                != worker),
{
    assert forall|other: Seq<char>| #[trigger]
        without(workers, worker).contains(other) <==> (workers.contains(other) && other
            != worker) by {
        lemma_without(workers, worker, other);
    }
}

/// The whole seconds between two readings of the clock: so many thousand million nanoseconds have
/// passed, and not as many as one more would take. A clock that did not move on counts none.
pub proof fn seconds_are_whole(now: u64, since: u64)
    ensures
        now <= since ==> elapsed_secs(now, since) == 0,
        now > since ==> 1_000_000_000 * elapsed_secs(now, since) <= now - since < 1_000_000_000 * (
        elapsed_secs(now, since) + 1),
{
}

/// The workers of channels that are open and that have not failed can be used, in the order of
/// the channels, and no others.
pub proof fn open_channels_are_used_in_order(
    a: Seq<Channel>,
    b: Seq<Channel>,
    c: Channel,
    failed: Map<Seq<char>, u64>,
)
    ensures
        usable_channels(a + b, failed) == usable_channels(a, failed) + usable_channels(b, failed),
        c.open && !failed.contains_key(c.worker_id@) ==> usable_channels(seq![c], failed)
            == seq![c],
        !c.open || failed.contains_key(c.worker_id@) ==> usable_channels(seq![c], failed).len() == 0,
        channel_workers(a.push(c)) == channel_workers(a).push(c.worker_id@),
    decreases b.len(),
{
    reveal_with_fuel(usable_channels, 2);
    if b.len() == 0 {
        assert(a + b =~= a);
        assert(usable_channels(a, failed) + usable_channels(b, failed) =~= usable_channels(
            a,
            failed,
        ));
    } else {
        assert((a + b).drop_last() =~= a + b.drop_last());
        assert((a + b).last() == b.last());
        open_channels_are_used_in_order(a, b.drop_last(), c, failed);
        assert(usable_channels(a + b, failed) =~= usable_channels(a, failed) + usable_channels(
            b,
            failed,
        ));
    }
    assert(seq![c].drop_last() =~= Seq::<Channel>::empty());
    assert(c.open && !failed.contains_key(c.worker_id@) ==> usable_channels(seq![c], failed)
        =~= seq![c]);
    assert(channel_workers(a.push(c)) =~= channel_workers(a).push(c.worker_id@));
}

/// A failed worker counts as failed, since the time at which it did, until a minute has passed
/// and a channel to it is open. Nobody else does.
pub proof fn failed_workers_serve_a_minute(
    failed: Map<Seq<char>, u64>,
    channels: Seq<Channel>,
    now: u64,
    worker: Seq<char>,
)
    ensures
        still_failed(failed, channels, now).contains_key(worker) <==> failed.contains_key(worker)
            && ((forall|i: int|
            0 <= i < channels.len() && (#[trigger] channels[i]).worker_id@ == worker
                ==> !channels[i].open) || now - failed[worker] < 60_000_000_000),
        still_failed(failed, channels, now).contains_key(worker) ==> still_failed(
            failed,
            channels,
            now,
        )[worker] == failed[worker],
{
    seconds_are_whole(now, failed[worker]);
    if channel_open(channels, worker) {
        let i = choose|i: int|
            0 <= i < channels.len() && (#[trigger] channels[i]).open && channels[i].worker_id@
                == worker;
        assert(channels[i].worker_id@ == worker);
    }
}

/// Leaving a worker out keeps the others in order and as often as they occur.
pub proof fn others_keep_their_order(
    a: Seq<Seq<char>>,
    b: Seq<Seq<char>>,
    worker: Seq<char>,
    other: Seq<char>,
)
    requires
        other != worker,
    ensures
        without(a + b, worker) == without(a, worker) + without(b, worker),
        without(seq![worker], worker).len() == 0,
        without(seq![other], worker) == seq![other],
    decreases b.len(),
{
    reveal_with_fuel(without, 2);
    if b.len() == 0 {
        assert(a + b =~= a);
        assert(without(a, worker) + without(b, worker) =~= without(a, worker));
    } else {
        assert((a + b).drop_last() =~= a + b.drop_last());
        assert((a + b).last() == b.last());
        others_keep_their_order(a, b.drop_last(), worker, other);
        assert(without(a + b, worker) =~= without(a, worker) + without(b, worker));
    }
    assert(seq![worker].drop_last() =~= Seq::<Seq<char>>::empty());
    assert(seq![other].drop_last() =~= Seq::<Seq<char>>::empty());
    assert(without(seq![other], worker) =~= seq![other]);
}

} // verus!
