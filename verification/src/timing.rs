//! How long the stages of a worker took. Only counts, totals and maxima are kept.

use vstd::prelude::*;
use crate::lineage::saturated;
use std::time::{Duration, Instant};

verus! {

/// How many microseconds `Duration::as_micros` says a duration has.
pub uninterp spec fn micros_in(elapsed: Duration) -> u128;

/// `Duration::as_micros`: the whole microseconds of a duration.
#[verifier::external_body]
fn whole_micros(elapsed: Duration) -> (micros: u128)
    ensures
        micros == micros_in(elapsed),
{
    elapsed.as_micros()
}

/// Declares `std::time::Instant`.
#[verifier::external_type_specification]
#[verifier::external_body]
pub struct ExInstant(Instant);

/// `Instant::now`. Nothing is said of it: it is the time.
#[verifier::external_body]
pub(crate) fn time_now() -> Instant {
    Instant::now()
}

/// `Instant::elapsed`. Nothing is said of it: it rests on the time.
#[verifier::external_body]
fn time_since(started: Instant) -> Duration {
    started.elapsed()
}

/// What `Instant::checked_duration_since` gives for two instants: none where the second is the
/// later one.
pub uninterp spec fn span_between(later: Instant, earlier: Instant) -> Option<Duration>;

/// `Instant::checked_duration_since`, which the two instants decide.
#[verifier::external_body]
fn time_between(later: Instant, earlier: Instant) -> (span: Option<Duration>)
    ensures
        span == span_between(later, earlier),
{
    later.checked_duration_since(earlier)
}

/// Whether there is time left at `now`: there is no deadline, or it is not earlier.
pub open spec fn is_left_at(deadline: Option<Instant>, now: Instant) -> bool {
    deadline matches Some(deadline) ==> span_between(deadline, now) is Some
}

/// Whether there is time left at `now`.
pub fn time_is_left_at(deadline: Option<Instant>, now: Instant) -> (yes: bool)
    ensures
        yes == is_left_at(deadline, now),
{
    match deadline {
        Some(deadline) => time_between(deadline, now).is_some(),
        None => true,
    }
}

/// Whether there is time left. Without a deadline there is; with one, the present time decides.
pub fn time_is_left(deadline: Option<Instant>) -> (yes: bool)
    ensures
        deadline is None ==> yes,
        exists|now: Instant| yes == #[trigger] is_left_at(deadline, now),
{
    let now = time_now();
    let yes = time_is_left_at(deadline, now);
    assert(yes == is_left_at(deadline, now));
    yes
}

/// How often something took place, how long it took in all, and how long at most.
#[derive(Debug, Clone, Copy, PartialEq, Eq, Structural)]
pub struct TimingAggregate {
    pub count: u64,
    pub total_us: u64,
    pub max_us: u64,
}

impl Default for TimingAggregate {
    /// Nothing took place.
    fn default() -> (timing: Self)
        ensures
            timing == no_timing(),
    {
        TimingAggregate { count: 0, total_us: 0, max_us: 0 }
    }
}

/// The timing of what did not take place.
pub open spec fn no_timing() -> TimingAggregate {
    TimingAggregate { count: 0, total_us: 0, max_us: 0 }
}

/// A timing after one more observation. Numbers stop at the largest there is.
pub open spec fn timed(timing: TimingAggregate, micros: u128) -> TimingAggregate {
    let micros = saturated(micros as int);
    TimingAggregate {
        count: saturated(timing.count + 1),
        total_us: saturated(timing.total_us + micros),
        max_us: if timing.max_us >= micros {
            timing.max_us
        } else {
            micros
        },
    }
}

impl TimingAggregate {
    /// Takes in how long something took.
    pub fn observe(&mut self, elapsed: Duration)
        ensures
            *final(self) == timed(*old(self), micros_in(elapsed)),
    {
        self.observe_micros(whole_micros(elapsed));
    }

    /// Takes in how many microseconds something took.
    pub fn observe_micros(&mut self, elapsed_us: u128)
        ensures
            *final(self) == timed(*old(self), elapsed_us),
    {
        let micros: u64 = if elapsed_us > u64::MAX as u128 {
            u64::MAX
        } else {
            elapsed_us as u64
        };
        self.count = self.count.saturating_add(1);
        self.total_us = self.total_us.saturating_add(micros);
        if self.max_us < micros {
            self.max_us = micros;
        }
    }

    /// Does something, takes in how long it took, and hands on what it gave. A failure is measured
    /// like a success.
    pub fn measure<T, F: FnOnce() -> T>(&mut self, operation: F) -> (result: T)
        requires
            operation.requires(()),
        ensures
            operation.ensures((), result),
            exists|micros: u128| *final(self) == #[trigger] timed(*old(self), micros),
    {
        let started = time_now();
        let result = operation();
        self.observe(time_since(started));
        result
    }
}

/// How long the stages of an inference worker took.
#[derive(Debug, Clone, Copy, PartialEq, Eq, Structural)]
pub struct SidecarWorkerTimings {
    pub whisper_model_load: TimingAggregate,
    pub final_queue_wait: TimingAggregate,
    pub final_inference: TimingAggregate,
    pub draft_inference: TimingAggregate,
    pub writer_lock_wait: TimingAggregate,
    pub writer_write: TimingAggregate,
    pub finals_skipped_at_stop: u64,
    pub drafts_taken: u64,
}

impl Default for SidecarWorkerTimings {
    /// Nothing took place.
    fn default() -> (timings: Self)
        ensures
            timings == (SidecarWorkerTimings {
                whisper_model_load: no_timing(),
                final_queue_wait: no_timing(),
                final_inference: no_timing(),
                draft_inference: no_timing(),
                writer_lock_wait: no_timing(),
                writer_write: no_timing(),
                finals_skipped_at_stop: 0,
                drafts_taken: 0,
            }),
    {
        SidecarWorkerTimings {
            whisper_model_load: TimingAggregate::default(),
            final_queue_wait: TimingAggregate::default(),
            final_inference: TimingAggregate::default(),
            draft_inference: TimingAggregate::default(),
            writer_lock_wait: TimingAggregate::default(),
            writer_write: TimingAggregate::default(),
            finals_skipped_at_stop: 0,
            drafts_taken: 0,
        }
    }
}

/// A timing after all of `observations`.
pub open spec fn all_timed(timing: TimingAggregate, observations: Seq<u128>) -> TimingAggregate
    decreases observations.len(),
{
    if observations.len() == 0 {
        timing
    } else {
        timed(all_timed(timing, observations.drop_last()), observations.last())
    }
}

/// The sum of durations in microseconds.
pub open spec fn sum_of(observations: Seq<u128>) -> int
    decreases observations.len(),
{
    if observations.len() == 0 {
        0
    } else {
        sum_of(observations.drop_last()) + saturated(observations.last() as int)
    }
}

/// After any observations a timing has their number and their sum, both stopping at the largest
/// number there is, and the longest of them as its maximum.
pub proof fn timings_add_up(observations: Seq<u128>)
    ensures
        ({
            let timing = all_timed(no_timing(), observations);
            &&& timing.count == saturated(observations.len() as int)
            &&& timing.total_us == saturated(sum_of(observations))
            &&& sum_of(observations) >= 0
            &&& forall|i: int|
                0 <= i < observations.len() ==> timing.max_us >= saturated(
                    #[trigger] observations[i] as int,
                )
            &&& if observations.len() == 0 {
                timing.max_us == 0
            } else {
                exists|i: int|
                    0 <= i < observations.len() && timing.max_us == saturated(
                        #[trigger] observations[i] as int,
                    )
            }
            &&& timing.max_us <= timing.total_us
        }),
    decreases observations.len(),
{
    if observations.len() > 0 {
        let earlier = observations.drop_last();
        timings_add_up(earlier);
        let timing = all_timed(no_timing(), observations);
        assert forall|i: int| 0 <= i < observations.len() implies timing.max_us >= saturated(
            #[trigger] observations[i] as int,
        ) by {
            if i < earlier.len() {
                assert(earlier[i] == observations[i]);
            }
        }
        let longest = if timing.max_us == all_timed(no_timing(), earlier).max_us && earlier.len()
            > 0 {
            choose|i: int|
                0 <= i < earlier.len() && timing.max_us == saturated(#[trigger] earlier[i] as int)
        } else {
            earlier.len() as int
        };
        assert(longest < earlier.len() ==> observations[longest] == earlier[longest]);
        assert(timing.max_us == saturated(observations[longest] as int));
    }
}

/// One more observation counts once, adds its microseconds to the total, and is the maximum where it
/// is longer than all before it; none of the three goes beyond the largest number there is. What did
/// not take place has none of them.
pub proof fn each_observation_is_taken_in(timing: TimingAggregate, micros: u128)
    ensures
        timing.count < u64::MAX ==> timed(timing, micros).count == timing.count + 1,
        timing.count == u64::MAX ==> timed(timing, micros).count == u64::MAX,
        timing.total_us + micros <= u64::MAX ==> timed(timing, micros).total_us == timing.total_us
            + micros,
        timing.total_us + micros > u64::MAX ==> timed(timing, micros).total_us == u64::MAX,
        micros <= timing.max_us ==> timed(timing, micros).max_us == timing.max_us,
        timing.max_us < micros <= u64::MAX ==> timed(timing, micros).max_us == micros,
        micros > u64::MAX ==> timed(timing, micros).max_us == u64::MAX,
        no_timing().count == 0 && no_timing().total_us == 0 && no_timing().max_us == 0,
{
}

/// Without a deadline there is always time left; with one there is until it has passed.
pub proof fn time_is_left_until_the_deadline(deadline: Instant, now: Instant)
    ensures
        is_left_at(None, now),
        is_left_at(Some(deadline), now) == (span_between(deadline, now) is Some),
{
}

} // verus!
