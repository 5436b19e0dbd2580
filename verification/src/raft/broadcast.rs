//! The broadcast of committed entries to the readers of the log.

use crate::raft::shared_state::{BusView, SharedState, StateView};
use crate::service_utils::channels;
use crate::service_utils::storage_utils::SerializationData;
use std::sync::Arc;
use vstd::prelude::*;

verus! {

/// How often a full bus is offered the same entry before the rest is deferred.
pub const MAX_RETRIES_PER_ENTRY: u32 = 100;

/// How many refusals pass before the readers are given time.
pub const YIELD_INTERVAL: u32 = 10;

/// Maximum entries to broadcast per time_step to avoid blocking Raft operations.
pub const MAX_BROADCAST_PER_TIMESTEP: u64 = 1000;

/// The entries that the bus accepted, out of those that it was offered.
pub open spec fn accepted(offers: Seq<(Arc<SerializationData>, bool)>) -> Seq<Arc<SerializationData>>
    decreases offers.len(),
{
    if offers.len() == 0 {
        Seq::empty()
    } else if offers.last().1 {
        accepted(offers.drop_last()).push(offers.last().0)
    } else {
        accepted(offers.drop_last())
    }
}

/// `count` offers of `entry`, all refused.
pub open spec fn refusals(entry: Arc<SerializationData>, count: nat) -> Seq<
    (Arc<SerializationData>, bool),
> {
    Seq::new(count, |i: int| (entry, false))
}

/// How often an entry has just been refused, without a break.
pub open spec fn refused_in_a_row(offers: Seq<(Arc<SerializationData>, bool)>) -> nat
    decreases offers.len(),
{
    if offers.len() == 0 || offers.last().1 {
        0
    } else {
        refused_in_a_row(offers.drop_last()) + 1
    }
}

/// How often the readers are told to look again while a full bus is offered
/// entries: at every [`YIELD_INTERVAL`]th refusal of an entry, but for the one
/// after which the rest is deferred.
pub open spec fn pauses(offers: Seq<(Arc<SerializationData>, bool)>) -> nat
    decreases offers.len(),
{
    if offers.len() == 0 {
        0
    } else {
        let refused = refused_in_a_row(offers);
        pauses(offers.drop_last()) + if 0 < refused < MAX_RETRIES_PER_ENTRY && refused
            % YIELD_INTERVAL as nat == 0 {
            1nat
        } else {
            0nat
        }
    }
}

/// How often the readers are told to look again by a broadcast that has made
/// `offers`: once behind the last entry, once when the bus is found full, and
/// from then on at every pause.
pub open spec fn announcements(offers: Seq<(Arc<SerializationData>, bool)>) -> nat
    decreases offers.len(),
{
    if offers.len() == 0 {
        1
    } else if offers[0].1 {
        announcements(offers.skip(1))
    } else {
        2 + pauses(offers.skip(1))
    }
}

/// The version after it has grown `count` times, as a 64-bit counter grows.
pub open spec fn bumped(version: u64, count: int) -> u64 {
    ((version + count) % 0x1_0000_0000_0000_0000) as u64
}

impl BusView {
    /// The index of the first entry that has not been broadcast.
    pub open spec fn next(self) -> int {
        match self.last_index {
            Some(last) => last + 1,
            None => 0,
        }
    }

    /// Whether `after` comes of broadcasting the entries of `log` up to `next`,
    /// where `commit_index` is the last one to be broadcast.
    ///
    /// The bus has accepted, after what it had accepted before, the entries
    /// that were next, in order and without a gap. Nothing else has been
    /// accepted.
    pub open spec fn reached(
        self,
        log: Seq<Arc<SerializationData>>,
        commit_index: u64,
        next: int,
        after: BusView,
    ) -> bool {
        &&& self.next() <= next
        &&& next > self.next() ==> next <= log.len() && next <= commit_index + 1
        &&& self.offers.is_prefix_of(after.offers)
        &&& accepted(after.offers) == if next > self.next() {
            accepted(self.offers) + log.subrange(self.next(), next)
        } else {
            accepted(self.offers)
        }
        &&& after.next() == next
        &&& after.last_index == if next > self.next() {
            Some((next - 1) as u64)
        } else {
            self.last_index
        }
    }

    /// What the bus was offered on the way to `after`.
    pub open spec fn offered_until(self, after: BusView) -> Seq<(Arc<SerializationData>, bool)> {
        after.offers.skip(self.offers.len() as int)
    }

    /// Whether `after` comes of broadcasting everything up to `commit_index`
    /// that has not been broadcast.
    ///
    /// The broadcast stops short only where the log ends, or at an entry that
    /// it has offered as often as a full bus is offered one, in vain. The readers
    /// are told to look again once; if the bus was full, they are told more often.
    pub open spec fn broadcast_to(
        self,
        log: Seq<Arc<SerializationData>>,
        commit_index: u64,
        after: BusView,
    ) -> bool {
        if self.next() > commit_index {
            after == self
        } else {
            &&& self.reached(log, commit_index, after.next(), after)
            &&& after.deferred == (after.next() <= commit_index)
            &&& after.next() <= commit_index && after.next() < log.len()
                ==> refusals(log[after.next()], MAX_RETRIES_PER_ENTRY as nat).is_suffix_of(
                self.offered_until(after),
            )
            &&& after.version == bumped(
                self.version,
                announcements(self.offered_until(after)) as int,
            )
        }
    }

    /// Whether `after` comes of one attempt to catch up with `commit_index`.
    pub open spec fn caught_up(
        self,
        log: Seq<Arc<SerializationData>>,
        commit_index: u64,
        after: BusView,
    ) -> bool {
        if !self.deferred {
            after == self
        } else if self.next() > commit_index {
            after == (BusView { deferred: false, ..self })
        } else {
            let last = if commit_index < self.next() + MAX_BROADCAST_PER_TIMESTEP - 1 {
                commit_index as int
            } else {
                self.next() + MAX_BROADCAST_PER_TIMESTEP - 1
            };
            let stopped = after.next() <= last && after.next() < log.len();
            let offers = self.offered_until(after);
            &&& self.reached(log, last as u64, after.next(), after)
            &&& stopped ==> offers.len() > 0 && offers.last() == (log[after.next()], false)
            &&& forall|i: int|
                0 <= i < offers.len() && (stopped ==> i < offers.len() - 1) ==> (
                #[trigger] offers[i]).1
            &&& after.deferred == (stopped || after.last_index != Some(commit_index))
            &&& after.version == if after.next() > self.next() && !stopped {
                bumped(self.version, 1)
            } else {
                self.version
            }
        }
    }
}

/// Offering an entry in vain changes nothing of what has been accepted.
proof fn lemma_accepted_refusals(
    offers: Seq<(Arc<SerializationData>, bool)>,
    entry: Arc<SerializationData>,
    count: nat,
)
    ensures
        accepted(offers + refusals(entry, count)) == accepted(offers),
    decreases count,
{
    if count == 0 {
        assert(offers + refusals(entry, 0) =~= offers);
    } else {
        let shorter = offers + refusals(entry, (count - 1) as nat);
        let longer = offers + refusals(entry, count);
        assert(longer.drop_last() =~= shorter);
        lemma_accepted_refusals(offers, entry, (count - 1) as nat);
    }
}

/// Offering an entry `count` times in vain, behind one that was accepted, makes
/// for a pause at every [`YIELD_INTERVAL`]th refusal.
proof fn lemma_pauses_refusals(
    offers: Seq<(Arc<SerializationData>, bool)>,
    entry: Arc<SerializationData>,
    count: nat,
)
    requires
        refused_in_a_row(offers) == 0,
        count <= MAX_RETRIES_PER_ENTRY,
    ensures
        refused_in_a_row(offers + refusals(entry, count)) == count,
        pauses(offers + refusals(entry, count)) == pauses(offers) + pauses_for(count),
    decreases count,
{
    if count == 0 {
        assert(offers + refusals(entry, 0) =~= offers);
    } else {
        let shorter = offers + refusals(entry, (count - 1) as nat);
        let longer = offers + refusals(entry, count);
        assert(longer.drop_last() =~= shorter);
        lemma_pauses_refusals(offers, entry, (count - 1) as nat);
    }
}

/// How many pauses there are in `count` refusals of an entry.
pub open spec fn pauses_for(count: nat) -> nat {
    if count < MAX_RETRIES_PER_ENTRY {
        count / YIELD_INTERVAL as nat
    } else {
        ((MAX_RETRIES_PER_ENTRY - 1) / YIELD_INTERVAL as int) as nat
    }
}

/// The readers are not told of entries that are accepted one by one.
proof fn lemma_announcements_behind_accepted(
    offers: Seq<(Arc<SerializationData>, bool)>,
    count: int,
)
    requires
        0 <= count <= offers.len(),
        forall|i: int| 0 <= i < count ==> (#[trigger] offers[i]).1,
    ensures
        announcements(offers) == announcements(offers.skip(count)),
    decreases count,
{
    if count == 0 {
        assert(offers.skip(0) =~= offers);
    } else {
        assert(offers[0].1);
        let rest = offers.skip(1);
        assert forall|i: int| 0 <= i < count - 1 implies (#[trigger] rest[i]).1 by {
            assert(offers[i + 1].1);
        }
        lemma_announcements_behind_accepted(rest, count - 1);
        assert(rest.skip(count - 1) =~= offers.skip(count));
    }
}

/// `entries`, offered one after the other and all accepted.
pub open spec fn acceptances(entries: Seq<Arc<SerializationData>>) -> Seq<
    (Arc<SerializationData>, bool),
> {
    entries.map_values(|e: Arc<SerializationData>| (e, true))
}

/// A bus that accepts every offer has accepted what it was offered.
proof fn lemma_accepted_all(
    before: Seq<(Arc<SerializationData>, bool)>,
    offers: Seq<(Arc<SerializationData>, bool)>,
)
    requires
        forall|i: int| 0 <= i < offers.len() ==> (#[trigger] offers[i]).1,
    ensures
        accepted(before + offers) == accepted(before) + offers.map_values(
            |o: (Arc<SerializationData>, bool)| o.0,
        ),
    decreases offers.len(),
{
    let entries = offers.map_values(|o: (Arc<SerializationData>, bool)| o.0);
    if offers.len() == 0 {
        assert(before + offers =~= before);
        assert(accepted(before) + entries =~= accepted(before));
    } else {
        let fewer = offers.drop_last();
        assert((before + offers).drop_last() =~= before + fewer);
        assert forall|i: int| 0 <= i < fewer.len() implies (#[trigger] fewer[i]).1 by {
            assert(offers[i].1);
        }
        lemma_accepted_all(before, fewer);
        assert(offers[offers.len() - 1].1);
        assert(accepted(before) + entries =~= (accepted(before) + fewer.map_values(
            |o: (Arc<SerializationData>, bool)| o.0,
        )).push(offers.last().0));
    }
}

/// Where the bus accepts every offer, it gets each committed entry that has not
/// been broadcast, once and in order, and the readers are told once. Where there
/// is none nothing happens, so a second broadcast changes nothing.
pub proof fn law_accepting_bus_gets_every_entry(
    before: BusView,
    log: Seq<Arc<SerializationData>>,
    commit_index: u64,
    after: BusView,
    again: BusView,
)
    requires
        before.broadcast_to(log, commit_index, after),
        commit_index < log.len(),
        forall|i: int|
            0 <= i < before.offered_until(after).len() ==> (#[trigger] before.offered_until(
                after,
            )[i]).1,
        after.broadcast_to(log, commit_index, again),
    ensures
        before.next() > commit_index ==> after == before,
        before.next() <= commit_index ==> after == (BusView {
            offers: before.offers + acceptances(log.subrange(before.next(), commit_index + 1)),
            last_index: Some(commit_index),
            deferred: false,
            version: bumped(before.version, 1),
        }),
        again == after,
{
    if before.next() <= commit_index {
        let made = before.offered_until(after);
        assert(after.offers =~= before.offers + made);
        if after.next() <= commit_index {
            let most = refusals(log[after.next()], MAX_RETRIES_PER_ENTRY as nat);
            assert(most.last() == made.last());
            assert(made[made.len() - 1].1);
        }
        lemma_accepted_all(before.offers, made);
        let entries = made.map_values(|o: (Arc<SerializationData>, bool)| o.0);
        let committed = log.subrange(before.next(), commit_index + 1);
        assert(entries =~= (accepted(before.offers) + entries).skip(
            accepted(before.offers).len() as int,
        ));
        assert(committed =~= (accepted(before.offers) + committed).skip(
            accepted(before.offers).len() as int,
        ));
        assert forall|i: int| 0 <= i < made.len() implies made[i] == acceptances(
            committed,
        )[i] by {
            assert(made[i].1);
            assert(entries[i] == committed[i]);
        }
        assert(made =~= acceptances(committed));
        lemma_announcements_behind_accepted(made, made.len() as int);
        assert(made.skip(made.len() as int) =~= Seq::empty());
    }
}

/// Growing a version by two amounts, one after the other, adds up.
proof fn lemma_bumped_sum(version: u64, first: int, second: int)
    requires
        0 <= first,
        0 <= second,
    ensures
        bumped(bumped(version, first), second) == bumped(version, first + second),
{
    let m: int = 0x1_0000_0000_0000_0000;
    vstd::arithmetic::div_mod::lemma_add_mod_noop(version + first, second, m);
    vstd::arithmetic::div_mod::lemma_add_mod_noop((version + first) % m, second, m);
    vstd::arithmetic::div_mod::lemma_mod_twice(version + first, m);
}

impl SharedState {
    /// Tells the readers of the log to look again.
    pub(crate) fn bump_version(&mut self)
        ensures
            final(self)@ == (StateView {
                bus: BusView { version: bumped(old(self)@.bus.version, 1), ..old(self)@.bus },
                ..old(self)@
            }),
    {
        let version: u64 = self.volatile_server_state.commit_state.version;
        self.volatile_server_state.commit_state.version = version.wrapping_add(1);
    }

    /// Offers the entry at `index` to the bus, again and again while it is full.
    fn offer_with_retries(&mut self, index: usize) -> (sent: bool)
        requires
            index < old(self)@.log.len(),
        ensures
            final(self)@ == (StateView { bus: final(self)@.bus, ..old(self)@ }),
            final(self)@.bus.last_index == old(self)@.bus.last_index,
            final(self)@.bus.deferred == old(self)@.bus.deferred,
            sent ==> exists|count: nat|
                {
                    &&& count < MAX_RETRIES_PER_ENTRY
                    &&& final(self)@.bus.offers == (old(self)@.bus.offers + #[trigger] refusals(
                        old(self)@.log[index as int],
                        count,
                    )).push((old(self)@.log[index as int], true))
                    &&& final(self)@.bus.version == bumped(
                        old(self)@.bus.version,
                        pauses_for(count) as int,
                    )
                },
            !sent ==> {
                &&& final(self)@.bus.offers == old(self)@.bus.offers + refusals(
                    old(self)@.log[index as int],
                    MAX_RETRIES_PER_ENTRY as nat,
                )
                &&& final(self)@.bus.version == bumped(
                    old(self)@.bus.version,
                    pauses_for(MAX_RETRIES_PER_ENTRY as nat) as int,
                )
            },
    {
        let entry = self.volatile_server_state.replication_log[index].clone();
        let backoff = crossbeam_utils::Backoff::new();
        let mut retries: u32 = 0;
        let ghost offers = self@.bus.offers;
        let ghost version = self@.bus.version;
        proof {
            assert(offers + refusals(entry, 0) =~= offers);
            vstd::arithmetic::div_mod::lemma_small_mod(version as nat, 0x1_0000_0000_0000_0000);
            assert(bumped(version, 0) == version);
        }
        while retries < MAX_RETRIES_PER_ENTRY
            invariant
                retries <= MAX_RETRIES_PER_ENTRY,
                entry == old(self)@.log[index as int],
                offers == old(self)@.bus.offers,
                version == old(self)@.bus.version,
                self@ == (StateView { bus: self@.bus, ..old(self)@ }),
                self@.bus.last_index == old(self)@.bus.last_index,
                self@.bus.deferred == old(self)@.bus.deferred,
                self@.bus.offers == offers + refusals(entry, retries as nat),
                self@.bus.version == bumped(version, pauses_for(retries as nat) as int),
            decreases MAX_RETRIES_PER_ENTRY - retries,
        {
            if channels::try_broadcast(&mut self.log_entry_bus, entry.clone()) {
                assert(self@.bus.offers == (offers + refusals(entry, retries as nat)).push(
                    (entry, true),
                ));
                return true;
            }
            assert(self@.bus.offers =~= offers + refusals(entry, (retries + 1) as nat));
            retries = retries + 1;
            if retries < MAX_RETRIES_PER_ENTRY && retries % YIELD_INTERVAL == 0 {
                self.bump_version();
                backoff.snooze();
                proof {
                    lemma_bumped_sum(version, pauses_for((retries - 1) as nat) as int, 1);
                }
            }
        }
        false
    }

    /// Broadcasts committed entries when the bus is full.
    ///
    /// 1. Attempts to broadcast with a limited number of retries per entry
    /// 2. Returns early if the bus remains full after max retries
    /// 3. The caller will retry on the next time_step, allowing other Raft operations to proceed
    ///
    /// This prevents blocking elections and heartbeats when consumers are slow.
    /// Returns the index of the first entry that is still to be broadcast.
    fn broadcast_committed_entries_when_bus_full(
        &mut self,
        new_commit_index: u64,
        start_index: usize,
    ) -> (next: usize)
        requires
            start_index <= new_commit_index,
            start_index < old(self)@.log.len(),
        ensures
            final(self)@ == (StateView { bus: final(self)@.bus, ..old(self)@ }),
            final(self)@.bus.last_index == old(self)@.bus.last_index,
            final(self)@.bus.deferred == old(self)@.bus.deferred,
            start_index <= next <= old(self)@.log.len(),
            next <= new_commit_index + 1,
            old(self)@.bus.offers.is_prefix_of(final(self)@.bus.offers),
            accepted(final(self)@.bus.offers) == accepted(old(self)@.bus.offers)
                + old(self)@.log.subrange(start_index as int, next as int),
            next <= new_commit_index && next < old(self)@.log.len() ==> refusals(
                old(self)@.log[next as int],
                MAX_RETRIES_PER_ENTRY as nat,
            ).is_suffix_of(old(self)@.bus.offered_until(final(self)@.bus)),
            final(self)@.bus.version == bumped(
                old(self)@.bus.version,
                1 + pauses(old(self)@.bus.offered_until(final(self)@.bus)) as int,
            ),
    {
        self.bump_version();
        let len: usize = self.volatile_server_state.replication_log.len();
        let ghost log = self@.log;
        let ghost first = old(self)@.bus;
        let mut index: usize = start_index;
        let mut full: bool = false;
        assert(accepted(self@.bus.offers) =~= accepted(old(self)@.bus.offers) + log.subrange(
            start_index as int,
            start_index as int,
        ));
        assert(first.offered_until(self@.bus) =~= Seq::empty());
        while !full && index < len && index as u64 <= new_commit_index
            invariant
                first == old(self)@.bus,
                len == log.len(),
                log == old(self)@.log,
                start_index <= index <= len,
                index <= new_commit_index + 1,
                self@ == (StateView { bus: self@.bus, ..old(self)@ }),
                self@.bus.last_index == old(self)@.bus.last_index,
                self@.bus.deferred == old(self)@.bus.deferred,
                old(self)@.bus.offers.is_prefix_of(self@.bus.offers),
                accepted(self@.bus.offers) == accepted(old(self)@.bus.offers) + log.subrange(
                    start_index as int,
                    index as int,
                ),
                self@.bus.version == bumped(
                    first.version,
                    1 + pauses(first.offered_until(self@.bus)) as int,
                ),
                !full ==> refused_in_a_row(first.offered_until(self@.bus)) == 0,
                full ==> index < len && refusals(
                    log[index as int],
                    MAX_RETRIES_PER_ENTRY as nat,
                ).is_suffix_of(first.offered_until(self@.bus)),
            decreases len - index + (if full { 0int } else { 1int }),
        {
            let ghost before = self@.bus;
            let sent: bool = self.offer_with_retries(index);
            proof {
                let earlier = first.offered_until(before);
                let made = first.offered_until(self@.bus);
                if sent {
                    let refused = choose|refused: nat|
                        {
                            &&& refused < MAX_RETRIES_PER_ENTRY
                            &&& self@.bus.offers == (before.offers + #[trigger] refusals(
                                log[index as int],
                                refused,
                            )).push((log[index as int], true))
                            &&& self@.bus.version == bumped(
                                before.version,
                                pauses_for(refused) as int,
                            )
                        };
                    lemma_bumped_sum(
                        first.version,
                        1 + pauses(earlier) as int,
                        pauses_for(refused) as int,
                    );
                    lemma_pauses_refusals(earlier, log[index as int], refused);
                    assert(made.drop_last() =~= earlier + refusals(log[index as int], refused));
                    assert(made.last().1);
                    lemma_accepted_refusals(before.offers, log[index as int], refused);
                    assert(self@.bus.offers.drop_last() =~= before.offers + refusals(
                        log[index as int],
                        refused,
                    ));
                    assert(accepted(self@.bus.offers) =~= accepted(old(self)@.bus.offers)
                        + log.subrange(start_index as int, index + 1));
                } else {
                    let most = MAX_RETRIES_PER_ENTRY as nat;
                    lemma_accepted_refusals(before.offers, log[index as int], most);
                    lemma_bumped_sum(
                        first.version,
                        1 + pauses(earlier) as int,
                        pauses_for(most) as int,
                    );
                    lemma_pauses_refusals(earlier, log[index as int], most);
                    assert(made =~= earlier + refusals(log[index as int], most));
                    assert(refusals(log[index as int], most) =~= made.subrange(
                        earlier.len() as int,
                        made.len() as int,
                    ));
                }
            }
            if sent {
                index = index + 1;
            } else {
                full = true;
            }
        }
        index
    }

    /// Broadcasts the committed entries that have not been broadcast.
    pub fn broadcast_committed_entries(&mut self, new_commit_index: u64)
        ensures
            final(self)@ == (StateView { bus: final(self)@.bus, ..old(self)@ }),
            old(self)@.bus.broadcast_to(old(self)@.log, new_commit_index, final(self)@.bus),
    {
        let start_index: u64 = match self.volatile_server_state.last_broadcast_index {
            Some(last) => {
                if last >= new_commit_index {
                    return;
                }
                last + 1
            },
            None => 0,
        };
        let len: usize = self.volatile_server_state.replication_log.len();
        let ghost log = self@.log;
        let ghost first = old(self)@.bus;
        let ghost mut count: int = 0;
        let mut index: u64 = start_index;
        let mut full: bool = false;
        proof {
            vstd::arithmetic::div_mod::lemma_small_mod(
                self@.bus.version as nat,
                0x1_0000_0000_0000_0000,
            );
            assert(bumped(self@.bus.version, 0) == self@.bus.version);
            assert(first.offered_until(self@.bus) =~= Seq::empty());
            if start_index <= len {
                assert(accepted(self@.bus.offers) =~= accepted(old(self)@.bus.offers)
                    + log.subrange(start_index as int, start_index as int));
            }
        }
        while !full && index < len as u64 && index <= new_commit_index
            invariant
                0 <= count,
                first == old(self)@.bus,
                len == log.len(),
                log == old(self)@.log,
                start_index == old(self)@.bus.next(),
                start_index <= index,
                index <= new_commit_index + 1,
                index > start_index ==> index <= len,
                self@ == (StateView { bus: self@.bus, ..old(self)@ }),
                self@.bus.last_index == old(self)@.bus.last_index,
                self@.bus.deferred == old(self)@.bus.deferred,
                old(self)@.bus.offers.is_prefix_of(self@.bus.offers),
                accepted(self@.bus.offers) == if index > start_index {
                    accepted(old(self)@.bus.offers) + log.subrange(
                        start_index as int,
                        index as int,
                    )
                } else {
                    accepted(old(self)@.bus.offers)
                },
                self@.bus.version == bumped(first.version, count),
                !full ==> count == 0 && (forall|i: int|
                    0 <= i < first.offered_until(self@.bus).len() ==> (
                    #[trigger] first.offered_until(self@.bus)[i]).1),
                full ==> count + 1 == announcements(first.offered_until(self@.bus)),
                full && index <= new_commit_index && index < len ==> refusals(
                    log[index as int],
                    MAX_RETRIES_PER_ENTRY as nat,
                ).is_suffix_of(first.offered_until(self@.bus)),
            decreases len - index + (if full { 0int } else { 1int }),
        {
            let ghost before = self@.bus;
            let entry = self.volatile_server_state.replication_log[index as usize].clone();
            let sent: bool = channels::try_broadcast(&mut self.log_entry_bus, entry);
            assert(self@.bus.offers.drop_last() =~= before.offers);
            if sent {
                assert(accepted(self@.bus.offers) =~= accepted(old(self)@.bus.offers)
                    + log.subrange(start_index as int, index + 1));
                assert(first.offered_until(self@.bus) =~= first.offered_until(before).push(
                    (log[index as int], true),
                ));
                index = index + 1;
            } else {
                let ghost refused = self@.bus;
                let next: usize = self.broadcast_committed_entries_when_bus_full(
                    new_commit_index,
                    index as usize,
                );
                proof {
                    let earlier = first.offered_until(before);
                    let made = first.offered_until(self@.bus);
                    let retried = refused.offered_until(self@.bus);
                    assert(made =~= earlier + seq![(log[index as int], false)] + retried);
                    assert forall|i: int| 0 <= i < earlier.len() implies (#[trigger] made[i]).1 by {
                        assert(earlier[i].1);
                    }
                    lemma_announcements_behind_accepted(made, earlier.len() as int);
                    let rest = made.skip(earlier.len() as int);
                    assert(rest.skip(1) =~= retried);
                    assert(rest[0] == (log[index as int], false));
                    count = 1 + pauses(retried) as int;
                    if next as u64 <= new_commit_index && next < len {
                        let most = refusals(log[next as int], MAX_RETRIES_PER_ENTRY as nat);
                        assert(most =~= made.subrange(
                            made.len() - most.len(),
                            made.len() as int,
                        ));
                    }
                    if next > start_index {
                        assert(accepted(self@.bus.offers) =~= accepted(old(self)@.bus.offers)
                            + log.subrange(start_index as int, next as int));
                    } else {
                        assert(log.subrange(index as int, next as int) =~= Seq::empty());
                        assert(accepted(self@.bus.offers) =~= accepted(old(self)@.bus.offers));
                    }
                }
                index = next as u64;
                full = true;
            }
        }
        let ghost made = first.offered_until(self@.bus);
        if index > start_index {
            self.volatile_server_state.last_broadcast_index = Some(index - 1);
        }
        self.volatile_server_state.has_deferred_broadcast = index <= new_commit_index;
        self.bump_version();
        proof {
            lemma_bumped_sum(first.version, count, 1);
            assert(first.offered_until(self@.bus) == made);
            if !full {
                lemma_announcements_behind_accepted(made, made.len() as int);
                assert(made.skip(made.len() as int) =~= Seq::empty());
            }
        }
    }

    /// Retries broadcasting deferred entries. Called from time_step.
    /// Returns the number of entries successfully broadcast.
    pub fn retry_deferred_broadcast(&mut self) -> (count: u64)
        ensures
            final(self)@ == (StateView { bus: final(self)@.bus, ..old(self)@ }),
            old(self)@.bus.caught_up(
                old(self)@.log,
                old(self)@.commit_index,
                final(self)@.bus,
            ),
            count == final(self)@.bus.next() - old(self)@.bus.next(),
            count <= MAX_BROADCAST_PER_TIMESTEP,
    {
        if !self.volatile_server_state.has_deferred_broadcast {
            return 0;
        }
        let commit_index: u64 = self.volatile_server_state.commit_index;
        let start_index: u64 = match self.volatile_server_state.last_broadcast_index {
            Some(last) => {
                if last >= commit_index {
                    self.volatile_server_state.has_deferred_broadcast = false;
                    return 0;
                }
                last + 1
            },
            None => 0,
        };
        let end_index: u64 = if commit_index - start_index < MAX_BROADCAST_PER_TIMESTEP {
            commit_index
        } else {
            start_index + (MAX_BROADCAST_PER_TIMESTEP - 1)
        };
        let len: usize = self.volatile_server_state.replication_log.len();
        let ghost log = self@.log;
        let ghost first = old(self)@.bus;
        let mut index: u64 = start_index;
        assert(first.offered_until(self@.bus) =~= Seq::empty());
        while index < len as u64 && index <= end_index
            invariant
                first == old(self)@.bus,
                forall|i: int|
                    0 <= i < first.offered_until(self@.bus).len() ==> (
                    #[trigger] first.offered_until(self@.bus)[i]).1,
                len == log.len(),
                log == old(self)@.log,
                start_index == old(self)@.bus.next(),
                start_index <= end_index,
                end_index - start_index < MAX_BROADCAST_PER_TIMESTEP,
                commit_index == old(self)@.commit_index,
                end_index == if commit_index < start_index + MAX_BROADCAST_PER_TIMESTEP - 1 {
                    commit_index as int
                } else {
                    start_index + MAX_BROADCAST_PER_TIMESTEP - 1
                },
                old(self)@.bus.deferred,
                start_index <= index,
                index <= end_index + 1,
                index > start_index ==> index <= len,
                self@ == (StateView { bus: self@.bus, ..old(self)@ }),
                self@.bus.deferred,
                self@.bus.version == old(self)@.bus.version,
                old(self)@.bus.reached(log, end_index, index as int, self@.bus),
            decreases len - index,
        {
            let ghost before = self@.bus;
            let entry = self.volatile_server_state.replication_log[index as usize].clone();
            let sent: bool = channels::try_broadcast(&mut self.log_entry_bus, entry);
            assert(self@.bus.offers.drop_last() =~= before.offers);
            assert(first.offered_until(self@.bus) =~= first.offered_until(before).push(
                (log[index as int], sent),
            ));
            if !sent {
                return index - start_index;
            }
            assert(accepted(self@.bus.offers) =~= accepted(old(self)@.bus.offers) + log.subrange(
                start_index as int,
                index + 1,
            ));
            self.volatile_server_state.last_broadcast_index = Some(index);
            index = index + 1;
        }
        let ghost made = first.offered_until(self@.bus);
        if index > start_index && index - 1 == commit_index {
            self.volatile_server_state.has_deferred_broadcast = false;
        }
        if index > start_index {
            self.bump_version();
        }
        assert(first.offered_until(self@.bus) == made);
        index - start_index
    }
}

} // verus!
