//! How long a thread that found nothing to do sleeps before it looks again.

use vstd::prelude::*;

verus! {

/// The shortest sleep, in microseconds.
pub const MIN_THREAD_SLEEP_TIME: u64 = 500;

/// The longest sleep, in microseconds.
pub const MAX_THREAD_SLEEP_TIME: u64 = 5_000;

/// The sleep that follows a sleep of `time`, in microseconds: twice as long, up to
/// the longest.
pub open spec fn longer(time: nat) -> nat {
    if time * 2 <= MAX_THREAD_SLEEP_TIME {
        time * 2
    } else {
        MAX_THREAD_SLEEP_TIME as nat
    }
}

/// The sleep that follows `rounds` idle rounds, in microseconds.
pub open spec fn sleep_after(rounds: nat) -> nat
    decreases rounds,
{
    if rounds == 0 {
        MIN_THREAD_SLEEP_TIME as nat
    } else {
        longer(sleep_after((rounds - 1) as nat))
    }
}

/// The sleeping times of one thread.
#[derive(Debug)]
pub struct Backoff {
    sleep_time: u64,
}

impl Backoff {
    /// How long the next sleep is, in microseconds.
    pub closed spec fn sleep_time(self) -> nat {
        self.sleep_time as nat
    }

    #[verifier::type_invariant]
    closed spec fn wf(self) -> bool {
        MIN_THREAD_SLEEP_TIME <= self.sleep_time <= MAX_THREAD_SLEEP_TIME
    }

    /// A thread that has not slept yet.
    pub fn new() -> (backoff: Backoff)
        ensures
            backoff.sleep_time() == sleep_after(0),
    {
        Backoff { sleep_time: MIN_THREAD_SLEEP_TIME }
    }

    /// Ends a round. After one without work the thread is to sleep for as many
    /// microseconds as are returned, and longer the next time; after one with work
    /// it is not to sleep, and the next sleep is the shortest again.
    pub fn end_round(&mut self, worked: bool) -> (sleep: Option<u64>)
        ensures
            if worked {
                &&& sleep is None
                &&& final(self).sleep_time() == sleep_after(0)
            } else {
                &&& sleep matches Some(time) && time == old(self).sleep_time()
                    && MIN_THREAD_SLEEP_TIME <= time <= MAX_THREAD_SLEEP_TIME
                &&& final(self).sleep_time() == longer(old(self).sleep_time())
            },
    {
        proof {
            use_type_invariant(&*self);
        }
        if worked {
            self.sleep_time = MIN_THREAD_SLEEP_TIME;
            None
        } else {
            let time = self.sleep_time;
            self.sleep_time = if time * 2 <= MAX_THREAD_SLEEP_TIME {
                time * 2
            } else {
                MAX_THREAD_SLEEP_TIME
            };
            Some(time)
        }
    }
}

/// Sleeps grow from the shortest to the longest and never leave that range; after
/// four idle rounds they are the longest.
pub proof fn law_sleeps_stay_in_range(rounds: nat)
    ensures
        MIN_THREAD_SLEEP_TIME <= sleep_after(rounds) <= MAX_THREAD_SLEEP_TIME,
        sleep_after(rounds) <= sleep_after(rounds + 1),
        rounds >= 4 ==> sleep_after(rounds) == MAX_THREAD_SLEEP_TIME,
    decreases rounds,
{
    if rounds > 0 {
        law_sleeps_stay_in_range((rounds - 1) as nat);
        if rounds == 4 {
            reveal_with_fuel(sleep_after, 5);
        }
    }
}

/// Each sleep is twice as long as the one before it, or the longest where that would
/// be too long; the first after work is the shortest.
pub proof fn law_sleeps_double(rounds: nat)
    ensures
        sleep_after(0) == 500,
        sleep_after(rounds + 1) <= 5_000,
        sleep_after(rounds) * 2 <= 5_000 ==> sleep_after(rounds + 1) == sleep_after(rounds) * 2,
        sleep_after(rounds) * 2 > 5_000 ==> sleep_after(rounds + 1) == 5_000,
        longer(sleep_after(rounds)) == sleep_after(rounds + 1),
{
}

} // verus!
