//! A buffer in which tasks are put into spots that were claimed before.

use crate::runtime_core::types::RuntimeTask;
use crate::service_utils::errors::ServiceError;
use vstd::prelude::*;

verus! {

pub trait TaskBuffer {
    fn claim_spot(&mut self) -> u64;

    fn put_task(&mut self, task: RuntimeTask, spot: u64);

    fn get_task(&mut self) -> Option<RuntimeTask>;
}

/// How often a claim is tried while others claim spots, too.
pub const MAX_RETRIES: u32 = 100;

/// What an attempt to claim a spot has come to.
#[derive(Debug)]
pub enum ClaimStep {
    /// The spot that was claimed, or why none can be.
    Done(Result<u64, ServiceError>),
    /// Another claim came first: try again.
    Retry,
}

/// The error of a buffer that has run out of spots.
pub open spec fn is_overflow(error: ServiceError) -> bool {
    error is ThrottlingError && error->ThrottlingError_0@ == "Write index overflow"@
}

/// The index that follows `idx`. There is none behind the last.
pub fn next_index(idx: u64) -> (next: Result<u64, ServiceError>)
    ensures
        match next {
            Ok(next) => next == idx + 1,
            Err(error) => idx == u64::MAX && is_overflow(error),
        },
{
    if idx == u64::MAX {
        // Incrementing would wrap around causing corruption
        Err(ServiceError::ThrottlingError("Write index overflow".to_owned()))
    } else {
        Ok(idx + 1)
    }
}

/// What an attempt to claim spot `idx` has come to: `won` says whether the write
/// index was still `idx`, and could be moved on; `tried` counts the attempts so
/// far, with this one.
pub fn after_attempt(idx: u64, won: bool, tried: u32) -> (step: ClaimStep)
    ensures
        match step {
            ClaimStep::Done(Ok(spot)) => won && spot == idx,
            ClaimStep::Done(Err(error)) => !won && tried >= MAX_RETRIES
                && error is RaceConditionError,
            ClaimStep::Retry => !won && tried < MAX_RETRIES,
        },
{
    if won {
        ClaimStep::Done(Ok(idx))
    } else if tried >= MAX_RETRIES {
        // Too much contention
        ClaimStep::Done(Err(ServiceError::RaceConditionError))
    } else {
        // Another thread claimed this spot, retry
        ClaimStep::Retry
    }
}

/// A buffer of tasks. Whoever claims a spot has the buffer to themselves, so a
/// claim is never lost to another one.
pub struct TaskBufferImpl<T> {
    pub read_index: u64,
    pub write_index: u64,
    pub tasks: Vec<T>,
}

impl<T> TaskBufferImpl<T> {
    pub fn new() -> (buffer: Self)
        ensures
            buffer.read_index == 0,
            buffer.write_index == 0,
            buffer.tasks@.len() == 0,
    {
        TaskBufferImpl { read_index: 0, write_index: 0, tasks: Vec::new() }
    }

    /// How many spots are claimed and not read.
    pub fn peek_size(&self) -> (size: u64)
        requires
            self.read_index <= self.write_index,
        ensures
            size == self.write_index - self.read_index,
    {
        self.write_index - self.read_index
    }

    /// Claims a spot in the buffer for writing.
    pub fn claim_spot(&mut self) -> (result: Result<u64, ServiceError>)
        ensures
            old(self).claims(result, *final(self)),
            result is Ok <==> old(self).write_index < u64::MAX,
    {
        let idx: u64 = self.write_index;
        match next_index(idx) {
            Ok(next) => {
                self.write_index = next;
                Ok(idx)
            },
            Err(error) => Err(error),
        }
    }

    /// Puts a task where its spot falls among the tasks, before the task that is there.
    pub fn put_task(&mut self, task: T, spot: u64)
        requires
            old(self).tasks@.len() > 0,
        ensures
            final(self).tasks@ == old(self).tasks@.insert(
                (spot as usize) as int % old(self).tasks@.len() as int,
                task,
            ),
            final(self).read_index == old(self).read_index,
            final(self).write_index == old(self).write_index,
    {
        let spot_usize: usize = spot as usize;
        let place: usize = spot_usize % self.tasks.len();
        self.tasks.insert(place, task);
    }

    /// The task that is to be read next.
    pub fn get_task(&mut self) -> (task: Option<&T>)
        requires
            old(self).tasks@.len() > 0,
            old(self).read_index < u64::MAX,
        ensures
            task == Some(
                &old(self).tasks@[(old(self).read_index as usize) as int
                    % old(self).tasks@.len() as int],
            ),
            *final(self) == (TaskBufferImpl {
                read_index: (old(self).read_index + 1) as u64,
                ..*old(self)
            }),
    {
        let usize_idx: usize = self.read_index as usize;
        let place: usize = usize_idx % self.tasks.len();
        self.read_index = self.read_index + 1;
        Some(&self.tasks[place])
    }
}

impl<T> TaskBufferImpl<T> {
    /// Whether a claim comes to `result`, and the buffer to `after`: the spot at
    /// the write index is claimed, unless that is the last index there is.
    pub open spec fn claims(self, result: Result<u64, ServiceError>, after: Self) -> bool {
        match result {
            Ok(spot) => {
                &&& self.write_index < u64::MAX
                &&& spot == self.write_index
                &&& after == (TaskBufferImpl { write_index: (spot + 1) as u64, ..self })
            },
            Err(error) => {
                &&& self.write_index == u64::MAX
                &&& is_overflow(error)
                &&& after == self
            },
        }
    }
}

/// One claim after the other: `buffers` holds the buffer before and after each of them.
pub open spec fn are_claims<T>(
    buffers: Seq<TaskBufferImpl<T>>,
    results: Seq<Result<u64, ServiceError>>,
) -> bool {
    &&& buffers.len() == results.len() + 1
    &&& forall|i: int|
        0 <= i < results.len() ==> (#[trigger] buffers[i]).claims(results[i], buffers[i + 1])
}

/// The spots that some claims have come to, in order.
pub open spec fn spots_of(results: Seq<Result<u64, ServiceError>>) -> Seq<u64>
    decreases results.len(),
{
    if results.len() == 0 {
        Seq::empty()
    } else {
        match results.last() {
            Ok(spot) => spots_of(results.drop_last()).push(spot),
            Err(_) => spots_of(results.drop_last()),
        }
    }
}

/// Claims of spots, one after the other, return one number after the other: no
/// spot is claimed twice, and none is left out. A claim that returns an error
/// claims nothing; it finds that no spot is left.
pub proof fn law_claimed_spots_are_unique<T>(
    buffers: Seq<TaskBufferImpl<T>>,
    results: Seq<Result<u64, ServiceError>>,
)
    requires
        are_claims(buffers, results),
    ensures
        buffers.last().write_index == buffers[0].write_index + spots_of(results).len(),
        forall|i: int|
            0 <= i < spots_of(results).len() ==> #[trigger] spots_of(results)[i]
                == buffers[0].write_index + i,
        forall|i: int|
            0 <= i < results.len() && #[trigger] results[i] is Err ==> is_overflow(
                results[i]->Err_0,
            ) && buffers.last().write_index == u64::MAX,
    decreases results.len(),
{
    if results.len() > 0 {
        let last = results.len() - 1;
        let earlier = buffers.drop_last();
        let others = results.drop_last();
        assert forall|i: int| 0 <= i < last implies (#[trigger] earlier[i]).claims(
            others[i],
            earlier[i + 1],
        ) by {
            assert(buffers[i].claims(results[i], buffers[i + 1]));
        }
        law_claimed_spots_are_unique(earlier, others);
        assert(buffers[last].claims(results[last], buffers[last + 1]));
        assert forall|i: int| 0 <= i < results.len() && #[trigger] results[i] is Err implies
            is_overflow(results[i]->Err_0) && buffers.last().write_index == u64::MAX by {
            if i < last {
                assert(others[i] is Err);
            }
        }
    }
}

/// What one attempt to claim a spot has found: the write index as it was read,
/// and whether it was still that, and was moved on by one.
pub struct Attempt {
    /// The call that makes the attempt.
    pub call: int,
    pub idx: u64,
    pub won: bool,
}

/// Whether attempts take the write index of a buffer from `first` to `last`, in
/// the order in which they reach it, whoever makes them.
///
/// An attempt that wins found the write index that it had read, and moves it on
/// by one in the same moment. One that does not win leaves it alone. One that
/// reads the last index there is goes no further.
pub open spec fn attempts_lead(first: u64, attempts: Seq<Attempt>, last: u64) -> bool
    decreases attempts.len(),
{
    if attempts.len() == 0 {
        last == first
    } else {
        let attempt = attempts.last();
        if attempt.won {
            &&& attempt.idx < u64::MAX
            &&& last == attempt.idx + 1
            &&& attempts_lead(first, attempts.drop_last(), attempt.idx)
        } else {
            &&& attempt.idx == u64::MAX ==> last == u64::MAX
            &&& attempts_lead(first, attempts.drop_last(), last)
        }
    }
}

/// The attempts that a call makes, in order.
pub open spec fn attempts_of(attempts: Seq<Attempt>, call: int) -> Seq<Attempt>
    decreases attempts.len(),
{
    if attempts.len() == 0 {
        Seq::empty()
    } else if attempts.last().call == call {
        attempts_of(attempts.drop_last(), call).push(attempts.last())
    } else {
        attempts_of(attempts.drop_last(), call)
    }
}

/// Whether a call that has made `attempts` returns `result`: it tries again until
/// an attempt wins, no spot is left, or it has tried [`MAX_RETRIES`] times.
pub open spec fn call_returns(attempts: Seq<Attempt>, result: Result<u64, ServiceError>) -> bool {
    &&& 0 < attempts.len() <= MAX_RETRIES
    &&& forall|i: int|
        0 <= i < attempts.len() - 1 ==> !(#[trigger] attempts[i]).won && attempts[i].idx < u64::MAX
    &&& match result {
        Ok(spot) => attempts.last().won && attempts.last().idx == spot,
        Err(error) => !attempts.last().won && if attempts.last().idx == u64::MAX {
            is_overflow(error)
        } else {
            attempts.len() == MAX_RETRIES && error is RaceConditionError
        },
    }
}

/// The calls that have claimed a spot.
pub open spec fn successful_calls(results: Seq<Result<u64, ServiceError>>) -> Set<int> {
    Set::new(|call: int| 0 <= call < results.len() && results[call] is Ok)
}

/// Whether some call has claimed a spot.
pub open spec fn is_returned(results: Seq<Result<u64, ServiceError>>, spot: u64) -> bool {
    exists|call: int|
        0 <= call < results.len() && #[trigger] results[call] == Ok::<u64, ServiceError>(spot)
}

/// Whether some attempt has won a spot.
spec fn is_won(attempts: Seq<Attempt>, spot: u64) -> bool {
    exists|i: int|
        0 <= i < attempts.len() && (#[trigger] attempts[i]).won && attempts[i].idx == spot
}

/// The attempts that win claim the spots from `first` up to `last`, one by one.
proof fn lemma_winners(first: u64, attempts: Seq<Attempt>, last: u64)
    requires
        attempts_lead(first, attempts, last),
    ensures
        first <= last,
        forall|i: int|
            0 <= i < attempts.len() && (#[trigger] attempts[i]).won ==> first <= attempts[i].idx
                < last,
        forall|i: int, j: int|
            0 <= i < j < attempts.len() && (#[trigger] attempts[i]).won && (
            #[trigger] attempts[j]).won ==> attempts[i].idx < attempts[j].idx,
        forall|spot: u64| first <= spot < last ==> #[trigger] is_won(attempts, spot),
        forall|i: int|
            0 <= i < attempts.len() && (#[trigger] attempts[i]).idx == u64::MAX ==> last
                == u64::MAX,
    decreases attempts.len(),
{
    if attempts.len() > 0 {
        let end = attempts.len() - 1;
        let fewer = attempts.drop_last();
        let earlier = if attempts.last().won {
            attempts.last().idx
        } else {
            last
        };
        lemma_winners(first, fewer, earlier);
        assert forall|i: int| 0 <= i < attempts.len() && (#[trigger] attempts[i]).won implies first
            <= attempts[i].idx < last by {
            if i < end {
                assert(fewer[i].won);
            }
        }
        assert forall|i: int, j: int|
            0 <= i < j < attempts.len() && (#[trigger] attempts[i]).won && (
            #[trigger] attempts[j]).won implies attempts[i].idx < attempts[j].idx by {
            assert(fewer[i].won);
            if j < end {
                assert(fewer[j].won);
            }
        }
        assert forall|spot: u64| first <= spot < last implies #[trigger] is_won(
            attempts,
            spot,
        ) by {
            if spot < earlier {
                assert(is_won(fewer, spot));
                let i = choose|i: int|
                    0 <= i < fewer.len() && (#[trigger] fewer[i]).won && fewer[i].idx == spot;
                assert(attempts[i].won);
            } else {
                assert(attempts[end].won);
            }
        }
        assert forall|i: int|
            0 <= i < attempts.len() && (#[trigger] attempts[i]).idx == u64::MAX implies last
            == u64::MAX by {
            if i < end {
                assert(fewer[i].idx == u64::MAX);
            }
        }
    }
}

/// The attempts of a call are those that say so.
proof fn lemma_attempts_of(attempts: Seq<Attempt>, call: int)
    ensures
        forall|i: int|
            0 <= i < attempts.len() && (#[trigger] attempts[i]).call == call ==> attempts_of(
                attempts,
                call,
            ).contains(attempts[i]),
        forall|k: int|
            0 <= k < attempts_of(attempts, call).len() ==> attempts.contains(
                #[trigger] attempts_of(attempts, call)[k],
            ) && attempts_of(attempts, call)[k].call == call,
    decreases attempts.len(),
{
    if attempts.len() > 0 {
        let end = attempts.len() - 1;
        let fewer = attempts.drop_last();
        let own = attempts_of(attempts, call);
        let others = attempts_of(fewer, call);
        lemma_attempts_of(fewer, call);
        assert forall|i: int|
            0 <= i < attempts.len() && (#[trigger] attempts[i]).call == call implies own.contains(
            attempts[i],
        ) by {
            if i < end {
                assert(fewer[i].call == call);
                let k = choose|k: int| 0 <= k < others.len() && others[k] == fewer[i];
                assert(own[k] == attempts[i]);
            } else {
                assert(own[own.len() - 1] == attempts[i]);
            }
        }
        assert forall|k: int| 0 <= k < own.len() implies attempts.contains(#[trigger] own[k])
            && own[k].call == call by {
            if k < others.len() {
                assert(own[k] == others[k]);
                let i = choose|i: int| 0 <= i < fewer.len() && fewer[i] == others[k];
                assert(attempts[i] == own[k]);
            } else {
                assert(attempts[end] == own[k]);
            }
        }
    }
}

/// A call ends with an attempt of its own.
proof fn lemma_call_ends(
    attempts: Seq<Attempt>,
    call: int,
    result: Result<u64, ServiceError>,
) -> (i: int)
    requires
        call_returns(attempts_of(attempts, call), result),
    ensures
        0 <= i < attempts.len(),
        attempts[i] == attempts_of(attempts, call).last(),
        attempts[i].call == call,
{
    lemma_attempts_of(attempts, call);
    let own = attempts_of(attempts, call);
    assert(attempts.contains(own[own.len() - 1]));
    choose|i: int| 0 <= i < attempts.len() && attempts[i] == own[own.len() - 1]
}

/// Whoever claims spots, from however many threads, no spot is claimed twice and
/// none is left out: the spots that calls return are those from the first write
/// index up to the last, each returned once. A call that returns an error claims
/// nothing; none of its attempts has won, or it finds that no spot is left.
pub proof fn law_claims_of_all_threads_are_unique(
    first: u64,
    attempts: Seq<Attempt>,
    last: u64,
    results: Seq<Result<u64, ServiceError>>,
)
    requires
        attempts_lead(first, attempts, last),
        forall|i: int|
            0 <= i < attempts.len() ==> 0 <= (#[trigger] attempts[i]).call < results.len(),
        forall|call: int|
            0 <= call < results.len() ==> call_returns(
                #[trigger] attempts_of(attempts, call),
                results[call],
            ),
    ensures
        successful_calls(results).finite(),
        last == first + successful_calls(results).len(),
        forall|call: int|
            0 <= call < results.len() && (#[trigger] results[call]) is Ok ==> first
                <= results[call]->Ok_0 < last,
        forall|call: int, other: int|
            0 <= call < results.len() && 0 <= other < results.len() && call != other && (
            #[trigger] results[call]) is Ok && (#[trigger] results[other]) is Ok
                ==> results[call]->Ok_0 != results[other]->Ok_0,
        forall|spot: u64| first <= spot < last ==> #[trigger] is_returned(results, spot),
        forall|call: int|
            0 <= call < results.len() && (#[trigger] results[call]) is Err ==> (
            results[call]->Err_0 is RaceConditionError || is_overflow(results[call]->Err_0) && last
                == u64::MAX),
{
    lemma_winners(first, attempts, last);
    assert forall|call: int| 0 <= call < results.len() && (#[trigger] results[call]) is Ok implies
        first <= results[call]->Ok_0 < last by {
        lemma_call_ends(attempts, call, results[call]);
    }
    assert forall|call: int, other: int|
        0 <= call < results.len() && 0 <= other < results.len() && call != other && (
        #[trigger] results[call]) is Ok && (#[trigger] results[other]) is Ok implies
        results[call]->Ok_0 != results[other]->Ok_0 by {
        let i = lemma_call_ends(attempts, call, results[call]);
        let j = lemma_call_ends(attempts, other, results[other]);
        assert(attempts[i].won && attempts[j].won);
        assert(i < j || j < i);
    }
    assert forall|spot: u64| first <= spot < last implies #[trigger] is_returned(
        results,
        spot,
    ) by {
        assert(is_won(attempts, spot));
        let i = choose|i: int|
            0 <= i < attempts.len() && (#[trigger] attempts[i]).won && attempts[i].idx == spot;
        let call = attempts[i].call;
        lemma_attempts_of(attempts, call);
        let own = attempts_of(attempts, call);
        assert(call_returns(own, results[call]));
        let k = choose|k: int| 0 <= k < own.len() && own[k] == attempts[i];
        assert(own[k].won);
        assert(results[call] == Ok::<u64, ServiceError>(spot));
    }
    assert forall|call: int| 0 <= call < results.len() && (#[trigger] results[call]) is Err implies
        results[call]->Err_0 is RaceConditionError || is_overflow(results[call]->Err_0) && last
        == u64::MAX by {
        lemma_call_ends(attempts, call, results[call]);
    }
    lemma_count_successes(first, last, results);
}

/// Where every spot from `first` up to `last` is returned by one call, there are
/// as many successful calls as spots.
proof fn lemma_count_successes(first: u64, last: u64, results: Seq<Result<u64, ServiceError>>)
    requires
        first <= last,
        forall|call: int|
            0 <= call < results.len() && (#[trigger] results[call]) is Ok ==> first
                <= results[call]->Ok_0 < last,
        forall|call: int, other: int|
            0 <= call < results.len() && 0 <= other < results.len() && call != other && (
            #[trigger] results[call]) is Ok && (#[trigger] results[other]) is Ok
                ==> results[call]->Ok_0 != results[other]->Ok_0,
        forall|spot: u64| first <= spot < last ==> #[trigger] is_returned(results, spot),
    ensures
        successful_calls(results).finite(),
        last == first + successful_calls(results).len(),
{
    let calls = successful_calls(results);
    let spots = vstd::set_lib::set_int_range(first as int, last as int);
    let spot_of = |call: int| results[call]->Ok_0 as int;
    vstd::set_lib::lemma_int_range(0, results.len() as int);
    vstd::set_lib::lemma_len_subset(
        calls,
        vstd::set_lib::set_int_range(0, results.len() as int),
    );
    vstd::set_lib::lemma_int_range(first as int, last as int);
    assert(calls.map(spot_of) =~= spots) by {
        assert forall|spot: int| spots.contains(spot) implies #[trigger] calls.map(
            spot_of,
        ).contains(spot) by {
            let narrow = spot as u64;
            assert(is_returned(results, narrow));
            let call = choose|call: int|
                0 <= call < results.len() && #[trigger] results[call] == Ok::<u64, ServiceError>(
                    narrow,
                );
            assert(calls.contains(call) && spot_of(call) == spot);
        }
    }
    vstd::set_lib::lemma_map_size(calls, spots, spot_of);
}

/// A call gives up on a race after a hundred attempts, and not before.
pub proof fn law_races_are_given_up_after_a_hundred_attempts(
    attempts: Seq<Attempt>,
    result: Result<u64, ServiceError>,
)
    requires
        call_returns(attempts, result),
    ensures
        attempts.len() <= 100,
        result matches Err(error) && error is RaceConditionError ==> attempts.len() == 100
            && forall|i: int| 0 <= i < attempts.len() ==> !(#[trigger] attempts[i]).won,
{
}

} // verus!
