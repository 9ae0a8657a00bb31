//! Trying again: the pauses between attempts at what may not be up yet.

use vstd::prelude::*;

verus! {

/// The longest pause, in seconds.
pub const LONGEST: u64 = 30;

/// The pause that follows a pause: twice as long, up to the longest.
pub open spec fn longer(pause: u64) -> u64 {
    if 2 * pause < LONGEST {
        (2 * pause) as u64
    } else {
        LONGEST
    }
}

/// The pause, in seconds, once so many attempts have failed before: one second
/// at first, and longer each time.
pub open spec fn pause_after(failures: nat) -> u64
    decreases failures,
{
    if failures == 0 {
        1
    } else {
        longer(pause_after((failures - 1) as nat))
    }
}

/// What to do after an attempt.
#[derive(Debug, PartialEq, Eq)]
pub enum Step<T> {
    /// It worked; here is what was found.
    Done(T),
    /// It failed; wait so many seconds and try again.
    Wait(u64),
}

/// How long to wait before the next attempt.
#[derive(Debug)]
pub struct Backoff {
    delay: u64,
}

impl Backoff {
    /// A pause is at least a second, and at most the longest.
    #[verifier::type_invariant]
    spec fn inv(self) -> bool {
        1 <= self.delay <= LONGEST
    }

    /// The pause, in seconds, that is due after the next failure.
    pub closed spec fn pause(self) -> u64 {
        self.delay
    }

    /// No attempt has failed yet.
    pub fn new() -> (backoff: Self)
        ensures
            backoff.pause() == pause_after(0),
            backoff.pause() == 1,
    {
        Backoff { delay: 1 }
    }

    /// Takes the outcome of an attempt. A failure is answered with a pause of
    /// at least a second, and the next pause is longer, up to the longest.
    pub fn step<T>(&mut self, outcome: Option<T>) -> (step: Step<T>)
        ensures
            outcome matches Some(found) ==> step == Step::Done(found) && *final(self) == *old(self),
            outcome is None ==> step == Step::<T>::Wait(old(self).pause()) && final(self).pause()
                == longer(old(self).pause()),
            step matches Step::Wait(seconds) ==> 1 <= seconds <= LONGEST,
            outcome is None ==> (if old(self).pause() < 15 {
                final(self).pause() == 2 * old(self).pause()
            } else {
                final(self).pause() == 30
            }),
    {
        proof {
            use_type_invariant(&*self);
        }
        match outcome {
            Some(found) => Step::Done(found),
            None => {
                let delay: u64 = self.delay;
                self.delay = if 2 * delay < LONGEST {
                    2 * delay
                } else {
                    LONGEST
                };
                Step::Wait(delay)
            },
        }
    }
}

/// The first pause is a second, and each is twice the one before, up to half a
/// minute.
pub proof fn pauses_double(failures: nat)
    ensures
        pause_after(0) == 1,
        pause_after(failures) < 15 ==> pause_after(failures + 1) == 2 * pause_after(failures),
        pause_after(failures) >= 15 ==> pause_after(failures + 1) == 30,
{
    pauses_grow_to_the_longest(failures);
}

/// Pauses never shrink, are never longer than the longest, and stay there once
/// they reach it.
pub proof fn pauses_grow_to_the_longest(failures: nat)
    ensures
        1 <= pause_after(failures) <= LONGEST,
        pause_after(failures) <= pause_after(failures + 1),
        failures >= 5 ==> pause_after(failures) == LONGEST,
    decreases failures,
{
    reveal_with_fuel(pause_after, 6);
    if failures > 0 {
        pauses_grow_to_the_longest((failures - 1) as nat);
    }
}

} // verus!
