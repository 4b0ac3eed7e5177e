//! Decisions of a data-availability submission: retry with bounded backoff, then give up.
use vstd::prelude::*;

use crate::address::Digest;

verus! {

/// What one submission attempt came to.
#[derive(Clone, Copy, Debug, PartialEq, Eq, Hash)]
pub enum DaOutcome {
    /// The blob was posted; the layer answered with this commitment.
    Posted(Digest),
    /// A transient failure.
    Failed,
}

/// What to do next.
#[derive(Clone, Copy, Debug, PartialEq, Eq, Hash)]
pub enum DaAction {
    /// Wait this many milliseconds, then submit again.
    Retry(u64),
    /// The submission is complete with this commitment.
    Done(Digest),
    /// The attempt ceiling was reached.
    Exhausted,
    /// The submission was already over; nothing to do.
    Idle,
}

/// The retry state of one blob's submission.
#[derive(Clone, Copy, Debug, PartialEq, Eq, Structural, Hash)]
pub struct DaRetry {
    pub attempts: u32,
    pub max_attempts: u32,
    pub delay_ms: u64,
    pub max_delay_ms: u64,
    pub finished: bool,
}

impl DaRetry {
    /// An unfinished submission has attempts left, and the delay is within its ceiling.
    pub open spec fn wf(&self) -> bool {
        (!self.finished ==> self.attempts < self.max_attempts) && self.delay_ms <= self.max_delay_ms
    }

    /// A fresh submission that may make `max_attempts` attempts, waiting `delay_ms` after the
    /// first failure and doubling the wait after each further one, up to `max_delay_ms`.
    pub fn new(max_attempts: u32, delay_ms: u64, max_delay_ms: u64) -> (r: DaRetry)
        requires
            max_attempts > 0,
            delay_ms <= max_delay_ms,
        ensures
            r == (DaRetry { attempts: 0, max_attempts, delay_ms, max_delay_ms, finished: false }),
            r.wf(),
    {
        DaRetry { attempts: 0, max_attempts, delay_ms, max_delay_ms, finished: false }
    }
}

/// The next wait: double the last, capped.
pub open spec fn next_delay(d: u64, cap: u64) -> u64 {
    if d > cap / 2 {
        cap
    } else {
        (d * 2) as u64
    }
}

/// The new state and the action after `o`.
pub open spec fn da_step(s: DaRetry, o: DaOutcome) -> (DaRetry, DaAction) {
    if s.finished {
        (s, DaAction::Idle)
    } else {
        match o {
            DaOutcome::Posted(c) => (
                DaRetry { attempts: (s.attempts + 1) as u32, finished: true, ..s },
                DaAction::Done(c),
            ),
            DaOutcome::Failed => if s.attempts + 1 >= s.max_attempts {
                (
                    DaRetry { attempts: (s.attempts + 1) as u32, finished: true, ..s },
                    DaAction::Exhausted,
                )
            } else {
                (
                    DaRetry {
                        attempts: (s.attempts + 1) as u32,
                        delay_ms: next_delay(s.delay_ms, s.max_delay_ms),
                        ..s
                    },
                    DaAction::Retry(s.delay_ms),
                )
            },
        }
    }
}

/// The actions for a run of outcomes.
pub open spec fn da_run(s: DaRetry, os: Seq<DaOutcome>) -> Seq<DaAction>
    decreases os.len(),
{
    if os.len() == 0 {
        Seq::empty()
    } else {
        seq![da_step(s, os[0]).1] + da_run(da_step(s, os[0]).0, os.skip(1))
    }
}

/// How many actions hand out a commitment.
pub open spec fn count_done(acts: Seq<DaAction>) -> nat
    decreases acts.len(),
{
    if acts.len() == 0 {
        0
    } else {
        (if acts[0] is Done {
            1nat
        } else {
            0nat
        }) + count_done(acts.skip(1))
    }
}

/// Handles the outcome of one attempt.
pub fn step(s: &mut DaRetry, o: DaOutcome) -> (r: DaAction)
    requires
        old(s).wf(),
    ensures
        (*final(s), r) == da_step(*old(s), o),
        final(s).wf(),
{
    if s.finished {
        return DaAction::Idle;
    }
    match o {
        DaOutcome::Posted(c) => {
            s.attempts = s.attempts + 1;
            s.finished = true;
            DaAction::Done(c)
        },
        DaOutcome::Failed => {
            s.attempts = s.attempts + 1;
            if s.attempts >= s.max_attempts {
                s.finished = true;
                DaAction::Exhausted
            } else {
                let d = s.delay_ms;
                s.delay_ms = if s.delay_ms > s.max_delay_ms / 2 {
                    s.max_delay_ms
                } else {
                    s.delay_ms * 2
                };
                DaAction::Retry(d)
            }
        },
    }
}

/// Whatever the outcomes, a submission hands out at most one commitment, and none once it is
/// over.
pub proof fn lemma_at_most_one_commitment(s: DaRetry, os: Seq<DaOutcome>)
    ensures
        count_done(da_run(s, os)) <= 1,
        s.finished ==> count_done(da_run(s, os)) == 0,
    decreases os.len(),
{
    if os.len() > 0 {
        let (s2, a) = da_step(s, os[0]);
        lemma_at_most_one_commitment(s2, os.skip(1));
        let acts = da_run(s, os);
        assert(acts.skip(1) =~= da_run(s2, os.skip(1)));
        assert(acts[0] == a);
        if a is Done {
            assert(s2.finished);
        }
    }
}

} // verus!
