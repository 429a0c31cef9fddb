use vstd::prelude::*;

verus! {

/// Retries after the first attempt before allocation gives up.
pub const MAX_RETRIES: u32 = 5;

/// Delay before the first retry, in milliseconds; it doubles with each retry.
pub const BASE_DELAY_MS: u64 = 100;

/// Longest delay between two attempts before jitter, in milliseconds.
pub const MAX_DELAY_MS: u64 = 5000;

#[verifier::external_type_specification]
#[verifier::external_body]
pub struct ExExponentialBackoff(backon::ExponentialBackoff);

/// How many delays a backoff schedule has handed out.
pub uninterp spec fn backoff_attempts(b: backon::ExponentialBackoff) -> nat;

/// How many delays a backoff schedule hands out in all.
pub uninterp spec fn backoff_max_times(b: backon::ExponentialBackoff) -> nat;

/// The first delay of a backoff schedule, in milliseconds.
pub uninterp spec fn backoff_min_delay_ms(b: backon::ExponentialBackoff) -> nat;

/// The longest delay of a backoff schedule before jitter, in milliseconds.
pub uninterp spec fn backoff_max_delay_ms(b: backon::ExponentialBackoff) -> nat;

/// Relies on `backon::ExponentialBuilder` (factor two, with jitter) and its
/// `BackoffBuilder::build`, which makes the schedule of delays between retries:
/// none handed out yet, with the given count, first delay and cap.
#[verifier::external_body]
fn exponential_backoff(min_delay_ms: u64, max_delay_ms: u64, max_times: u32) -> (r:
    backon::ExponentialBackoff)
    requires
        min_delay_ms <= max_delay_ms <= 1000000000,
    ensures
        backoff_attempts(r) == 0,
        backoff_max_times(r) == max_times,
        backoff_min_delay_ms(r) == min_delay_ms,
        backoff_max_delay_ms(r) == max_delay_ms,
{
    backon::BackoffBuilder::build(
        backon::ExponentialBuilder::default().with_min_delay(
            std::time::Duration::from_millis(min_delay_ms),
        ).with_max_delay(std::time::Duration::from_millis(max_delay_ms)).with_jitter().with_max_times(
            max_times as usize,
        ),
    )
}

/// Relies on `Iterator::next` of `backon::ExponentialBackoff`: until the schedule
/// has handed out its count of delays it hands out one more, never shorter than
/// the first delay and, jitter included, at most twice the cap where the cap is
/// no shorter than the first delay; after that, none.
/// Which delay within those bounds is random.
#[verifier::external_body]
fn next_delay_ms(backoff: &mut backon::ExponentialBackoff) -> (r: Option<u64>)
    ensures
        backoff_max_times(*final(backoff)) == backoff_max_times(*old(backoff)),
        backoff_min_delay_ms(*final(backoff)) == backoff_min_delay_ms(*old(backoff)),
        backoff_max_delay_ms(*final(backoff)) == backoff_max_delay_ms(*old(backoff)),
        backoff_attempts(*old(backoff)) < backoff_max_times(*old(backoff)) ==> (r is Some
            && backoff_attempts(*final(backoff)) == backoff_attempts(*old(backoff)) + 1),
        r matches Some(d) ==> (backoff_min_delay_ms(*old(backoff)) <= backoff_max_delay_ms(
            *old(backoff),
        ) <= 1000000000 ==> backoff_min_delay_ms(*old(backoff)) <= d <= 2
            * backoff_max_delay_ms(*old(backoff))),
        backoff_attempts(*old(backoff)) >= backoff_max_times(*old(backoff)) ==> (r is None
            && backoff_attempts(*final(backoff)) == backoff_attempts(*old(backoff))),
{
    backoff.next().map(|d| d.as_millis() as u64)
}

/// Where one allocation stands.
#[derive(Debug, Clone, Copy)]
pub enum AllocPhase {
    /// The counter is being read.
    Reading,
    /// A compare-and-set from `expected` to `expected + 1` is in flight.
    Swapping { expected: i64 },
    /// The allocator is sleeping before the next attempt.
    Waiting,
    /// The allocation has ended; the last action says how.
    Finished,
}

/// What the allocator asks its driver to do next.
#[derive(Debug, Clone, Copy)]
pub enum AllocAction {
    /// Read the counter row.
    ReadCounter,
    /// Set the counter to `new` on condition that it still holds `expected`.
    CompareAndSet { expected: i64, new: i64 },
    /// Sleep this many milliseconds, then report `Waited`.
    Wait { millis: u64 },
    /// The sequence number is allocated.
    Allocated { value: i64 },
    /// Every attempt failed.
    Exhausted,
}

/// What the driver reports back.
#[derive(Debug, Clone, Copy)]
pub enum AllocEvent {
    /// The counter row holds this value.
    CounterRead { value: i64 },
    /// The counter row could not be read.
    ReadFailed,
    /// The compare-and-set was applied.
    SwapApplied,
    /// The compare-and-set was not applied: another allocator got there first.
    SwapRejected,
    /// The compare-and-set failed in transport.
    SwapFailed,
    /// The requested sleep is over.
    Waited,
}

/// The allocator's state, apart from its delay schedule.
#[derive(Debug, Clone, Copy)]
pub struct AllocState {
    pub phase: AllocPhase,
    pub retries: u32,
    pub pending: AllocAction,
}

impl AllocState {
    pub open spec fn wf(self) -> bool {
        &&& self.retries <= MAX_RETRIES
        &&& match self.phase {
            AllocPhase::Reading => self.pending is ReadCounter,
            AllocPhase::Swapping { expected } => self.pending == (AllocAction::CompareAndSet {
                expected,
                new: (expected + 1) as i64,
            }) && expected < i64::MAX,
            AllocPhase::Waiting => self.pending is Wait && self.retries > 0,
            AllocPhase::Finished => self.pending is Allocated || (self.pending is Exhausted
                && self.retries == MAX_RETRIES),
        }
    }

    /// Steps left at most before the allocation ends.
    pub open spec fn measure(self) -> nat {
        let rank: nat = match self.phase {
            AllocPhase::Reading => 2,
            AllocPhase::Swapping { .. } => 1,
            AllocPhase::Waiting => 3,
            AllocPhase::Finished => 0,
        };
        if self.phase is Finished {
            0
        } else {
            (4 * (MAX_RETRIES - self.retries) + rank) as nat
        }
    }
}

/// The state in which an allocation starts.
pub open spec fn alloc_initial() -> AllocState {
    AllocState { phase: AllocPhase::Reading, retries: 0, pending: AllocAction::ReadCounter }
}

/// After a failed attempt: wait for `delay`, or give up once the retry budget is spent.
pub open spec fn alloc_retry(s: AllocState, delay: u64) -> AllocState {
    if s.retries < MAX_RETRIES {
        AllocState {
            phase: AllocPhase::Waiting,
            retries: (s.retries + 1) as u32,
            pending: AllocAction::Wait { millis: delay },
        }
    } else {
        AllocState { phase: AllocPhase::Finished, retries: s.retries, pending: AllocAction::Exhausted }
    }
}

/// One decision of the allocator: the state after `event`, where `delay` is what
/// the schedule gives if a retry is due. An event that does not answer the
/// pending action counts as a failed attempt.
pub open spec fn alloc_next(s: AllocState, event: AllocEvent, delay: u64) -> AllocState {
    match s.phase {
        AllocPhase::Finished => s,
        AllocPhase::Reading => match event {
            AllocEvent::CounterRead { value } => if value < i64::MAX {
                AllocState {
                    phase: AllocPhase::Swapping { expected: value },
                    retries: s.retries,
                    pending: AllocAction::CompareAndSet { expected: value, new: (value + 1) as i64 },
                }
            } else {
                alloc_retry(s, delay)
            },
            _ => alloc_retry(s, delay),
        },
        AllocPhase::Swapping { expected } => match event {
            AllocEvent::SwapApplied => if expected < i64::MAX {
                AllocState {
                    phase: AllocPhase::Finished,
                    retries: s.retries,
                    pending: AllocAction::Allocated { value: (expected + 1) as i64 },
                }
            } else {
                alloc_retry(s, delay)
            },
            _ => alloc_retry(s, delay),
        },
        AllocPhase::Waiting => match event {
            AllocEvent::Waited => AllocState {
                phase: AllocPhase::Reading,
                retries: s.retries,
                pending: AllocAction::ReadCounter,
            },
            _ => alloc_retry(s, delay),
        },
    }
}

/// `t` follows `s` on `event`, for some delay that the schedule can give.
pub open spec fn alloc_step(s: AllocState, event: AllocEvent, t: AllocState) -> bool {
    exists|d: u64| BASE_DELAY_MS <= d <= 2 * MAX_DELAY_MS && t == #[trigger] alloc_next(s, event, d)
}

/// Each step of an allocation keeps the retry count within its budget and brings
/// the end nearer; a sequence number is handed out only as the answer to a
/// compare-and-set that the store applied, and it is the value that this
/// compare-and-set wrote; a failed attempt is followed by a wait for the
/// schedule's delay, and giving up happens only once the retry budget is spent.
pub proof fn lemma_allocation_step(s: AllocState, event: AllocEvent, delay: u64)
    requires
        s.wf(),
    ensures
        alloc_next(s, event, delay).wf(),
        !(s.phase is Finished) ==> alloc_next(s, event, delay).measure() < s.measure(),
        s.phase is Finished ==> alloc_next(s, event, delay) == s,
        alloc_next(s, event, delay).pending matches AllocAction::Allocated { value } ==> (
        s.phase is Finished && s.pending == alloc_next(s, event, delay).pending) || (
        s.pending matches AllocAction::CompareAndSet { expected, new } && new == value
            && event is SwapApplied),
        (alloc_next(s, event, delay).pending is Exhausted && !(s.phase is Finished)) ==> s.retries
            == MAX_RETRIES,
        alloc_next(s, event, delay).pending matches AllocAction::Wait { millis } ==> millis == delay
            || s.pending == alloc_next(s, event, delay).pending,
{
}

/// The state after answering `events` in turn, with `delays` as what the
/// schedule gives at each step.
pub open spec fn alloc_run(s: AllocState, events: Seq<AllocEvent>, delays: Seq<u64>) -> AllocState
    decreases events.len(),
{
    if events.len() == 0 || delays.len() == 0 {
        s
    } else {
        alloc_run(alloc_next(s, events[0], delays[0]), events.drop_first(), delays.drop_first())
    }
}

/// However the store answers, an allocation ends after at most `measure` steps
/// (twenty-two from the start) with its retry count within the budget, and once
/// ended it stays as it is.
pub proof fn lemma_allocation_ends(s: AllocState, events: Seq<AllocEvent>, delays: Seq<u64>)
    requires
        s.wf(),
        events.len() == delays.len(),
        events.len() >= s.measure(),
    ensures
        alloc_run(s, events, delays).wf(),
        alloc_run(s, events, delays).phase is Finished,
        s.phase is Finished ==> alloc_run(s, events, delays) == s,
    decreases events.len(),
{
    if events.len() > 0 {
        lemma_allocation_step(s, events[0], delays[0]);
        lemma_allocation_ends(alloc_next(s, events[0], delays[0]), events.drop_first(), delays.drop_first());
    }
}

/// Where no compare-and-set is ever applied (every swap conflicts or fails),
/// an allocation hands out no value: given enough steps it ends exhausted, its
/// retry budget spent, so after one first attempt and `MAX_RETRIES` more.
pub proof fn lemma_conflicts_exhaust(s: AllocState, events: Seq<AllocEvent>, delays: Seq<u64>)
    requires
        s.wf(),
        !(s.pending is Allocated),
        events.len() == delays.len(),
        events.len() >= s.measure(),
        forall|k: int| 0 <= k < events.len() ==> !(#[trigger] events[k] is SwapApplied),
    ensures
        alloc_run(s, events, delays).pending is Exhausted,
        alloc_run(s, events, delays).retries == MAX_RETRIES,
    decreases events.len(),
{
    if events.len() > 0 {
        lemma_allocation_step(s, events[0], delays[0]);
        assert(!(events[0] is SwapApplied));
        let rest = events.drop_first();
        assert forall|k: int| 0 <= k < rest.len() implies !(#[trigger] rest[k] is SwapApplied) by {
            assert(rest[k] == events[k + 1]);
        }
        lemma_conflicts_exhaust(alloc_next(s, events[0], delays[0]), rest, delays.drop_first());
    } else {
        lemma_allocation_ends(s, events, delays);
    }
}

/// The measure of the state an allocation starts in.
pub proof fn lemma_initial_measure()
    ensures
        alloc_initial().wf(),
        alloc_initial().measure() == 4 * MAX_RETRIES + 2,
{
}

/// Allocates one sequence number by read and compare-and-set on the counter row,
/// retrying with exponential backoff. The caller performs each action and
/// reports the outcome through `step`.
pub struct SequenceAllocator {
    state: AllocState,
    backoff: backon::ExponentialBackoff,
}

impl View for SequenceAllocator {
    type V = AllocState;

    closed spec fn view(&self) -> AllocState {
        self.state
    }
}

impl SequenceAllocator {
    /// The delay schedule keeps pace with the retries: it has handed out one
    /// delay per retry, and it was made with the allocator's budget and delays.
    pub closed spec fn inv(&self) -> bool {
        &&& self.state.wf()
        &&& backoff_attempts(self.backoff) == self.state.retries
        &&& backoff_max_times(self.backoff) == MAX_RETRIES
        &&& backoff_min_delay_ms(self.backoff) == BASE_DELAY_MS
        &&& backoff_max_delay_ms(self.backoff) == MAX_DELAY_MS
    }

    pub fn new() -> (r: Self)
        ensures
            r@ == alloc_initial(),
            r@.wf(),
            r.inv(),
    {
        SequenceAllocator {
            state: AllocState {
                phase: AllocPhase::Reading,
                retries: 0,
                pending: AllocAction::ReadCounter,
            },
            backoff: exponential_backoff(BASE_DELAY_MS, MAX_DELAY_MS, MAX_RETRIES),
        }
    }

    /// The action the driver should perform now.
    pub fn pending(&self) -> (r: AllocAction)
        ensures
            r == self@.pending,
    {
        self.state.pending
    }

    fn retry(&mut self) -> (r: AllocAction)
        ensures
            old(self).inv() ==> final(self).inv() && final(self)@.wf() && exists|d: u64|
                BASE_DELAY_MS <= d <= 2 * MAX_DELAY_MS && final(self)@ == alloc_retry(
                    old(self)@,
                    d,
                ),
            r == final(self)@.pending,
    {
        let delay = if self.state.retries < MAX_RETRIES {
            next_delay_ms(&mut self.backoff)
        } else {
            None
        };
        let s = self.state;
        self.state = match delay {
            Some(millis) if s.retries < MAX_RETRIES => AllocState {
                phase: AllocPhase::Waiting,
                retries: s.retries + 1,
                pending: AllocAction::Wait { millis },
            },
            _ => AllocState {
                phase: AllocPhase::Finished,
                retries: s.retries,
                pending: AllocAction::Exhausted,
            },
        };
        proof {
            if old(self).inv() {
                let d = match delay {
                    Some(m) => m,
                    None => BASE_DELAY_MS,
                };
                assert(BASE_DELAY_MS <= d <= 2 * MAX_DELAY_MS);
                assert(self.state == alloc_retry(s, d));
                assert(self@ == alloc_retry(old(self)@, d));
                assert(self.state.wf());
                assert(self.inv());
            }
        }
        self.state.pending
    }

    /// Takes the outcome of the pending action and returns the next one.
    pub fn step(&mut self, event: AllocEvent) -> (r: AllocAction)
        ensures
            old(self).inv() ==> final(self).inv() && final(self)@.wf() && alloc_step(
                old(self)@,
                event,
                final(self)@,
            ),
            r == final(self)@.pending,
    {
        let s = self.state;
        let next = match s.phase {
            AllocPhase::Finished => s,
            AllocPhase::Reading => match event {
                AllocEvent::CounterRead { value } if value < i64::MAX => AllocState {
                    phase: AllocPhase::Swapping { expected: value },
                    retries: s.retries,
                    pending: AllocAction::CompareAndSet { expected: value, new: value + 1 },
                },
                _ => {
                    let r = self.retry();
                    proof {
                        if old(self).inv() {
                            let d = choose|d: u64|
                                BASE_DELAY_MS <= d <= 2 * MAX_DELAY_MS && self@ == alloc_retry(
                                    old(self)@,
                                    d,
                                );
                            assert(self@ == alloc_next(old(self)@, event, d));
                        }
                    }
                    return r;
                },
            },
            AllocPhase::Swapping { expected } => match event {
                AllocEvent::SwapApplied if expected < i64::MAX => AllocState {
                    phase: AllocPhase::Finished,
                    retries: s.retries,
                    pending: AllocAction::Allocated { value: expected + 1 },
                },
                _ => {
                    let r = self.retry();
                    proof {
                        if old(self).inv() {
                            let d = choose|d: u64|
                                BASE_DELAY_MS <= d <= 2 * MAX_DELAY_MS && self@ == alloc_retry(
                                    old(self)@,
                                    d,
                                );
                            assert(self@ == alloc_next(old(self)@, event, d));
                        }
                    }
                    return r;
                },
            },
            AllocPhase::Waiting => match event {
                AllocEvent::Waited => AllocState {
                    phase: AllocPhase::Reading,
                    retries: s.retries,
                    pending: AllocAction::ReadCounter,
                },
                _ => {
                    let r = self.retry();
                    proof {
                        if old(self).inv() {
                            let d = choose|d: u64|
                                BASE_DELAY_MS <= d <= 2 * MAX_DELAY_MS && self@ == alloc_retry(
                                    old(self)@,
                                    d,
                                );
                            assert(self@ == alloc_next(old(self)@, event, d));
                        }
                    }
                    return r;
                },
            },
        };
        self.state = next;
        assert(self@ == alloc_next(old(self)@, event, BASE_DELAY_MS));
        self.state.pending
    }
}

} // verus!
