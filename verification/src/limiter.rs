//! The call budget that every outbound gateway call draws from.
//!
//! Calls are counted in fixed windows. A window opens with the first call
//! made when no window is running, and runs for `window_duration` from then.
//! Up to `window_capacity` calls go out in a window; one more is deferred
//! until the window has run out, and then opens the next window. The limiter
//! reads no clock: each request brings the time at which it is made.

use vstd::prelude::*;

verus! {

/// Calls that may go out in one window.
pub const WINDOW_CAPACITY: u32 = 600;

/// How long a window runs, in seconds.
pub const WINDOW_DURATION: u64 = 60;

/// The answer to one request for a call.
#[derive(Clone, Copy, Debug, PartialEq, Eq, Structural)]
pub enum Admission {
    /// The call may go out now; it has been counted.
    Granted,
    /// The window is full. Nothing was counted: ask again after this long.
    Deferred(u64),
}

/// The state of a budget, as the contracts see it.
pub struct Budget {
    pub capacity: nat,
    pub duration: nat,
    pub calls_in_window: nat,
    pub window_start: Option<nat>,
}

impl Budget {
    /// A budget that has granted nothing yet.
    pub open spec fn fresh(capacity: nat, duration: nat) -> Budget {
        Budget { capacity, duration, calls_in_window: 0, window_start: None }
    }

    /// What holds of every budget: it can grant something, and has never
    /// granted more in its window than the window takes.
    pub open spec fn wf(self) -> bool {
        &&& self.capacity >= 1
        &&& self.calls_in_window <= self.capacity
        &&& self.window_start is Some ==> self.calls_in_window >= 1
    }

    /// How much of the running window has passed at `now`. A clock that
    /// reads less than the window's start counts as no time passed.
    pub open spec fn elapsed(self, now: nat) -> nat
        recommends
            self.window_start is Some,
    {
        let start = self.window_start->0;
        if now >= start {
            (now - start) as nat
        } else {
            0
        }
    }

    /// Whether a window is running at `now`.
    pub open spec fn in_window(self, now: nat) -> bool {
        self.window_start is Some && self.elapsed(now) < self.duration
    }

    /// The budget after a request made at `now`.
    pub open spec fn after_request(self, now: nat) -> Budget {
        if self.in_window(now) {
            if self.calls_in_window < self.capacity {
                Budget { calls_in_window: self.calls_in_window + 1, ..self }
            } else {
                self
            }
        } else {
            Budget { calls_in_window: 1, window_start: Some(now), ..self }
        }
    }

    /// Whether a request made at `now` is granted.
    pub open spec fn grants(self, now: nat) -> bool {
        !self.in_window(now) || self.calls_in_window < self.capacity
    }

    /// The answer to a request made at `now`.
    pub open spec fn answer(self, now: nat) -> Admission {
        if self.grants(now) {
            Admission::Granted
        } else {
            Admission::Deferred((self.duration - self.elapsed(now)) as u64)
        }
    }

    /// The budget after the requests made at `times`, in that order.
    pub open spec fn after_requests(self, times: Seq<nat>) -> Budget
        decreases times.len(),
    {
        if times.len() == 0 {
            self
        } else {
            self.after_requests(times.drop_last()).after_request(times.last())
        }
    }

    /// Whether the request `j` of `times` is granted.
    pub open spec fn granted_at(self, times: Seq<nat>, j: int) -> bool
        recommends
            0 <= j < times.len(),
    {
        self.after_requests(times.take(j)).grants(times[j])
    }

    /// Whether the request `j` of `times` is granted and opens a window.
    pub open spec fn opens_window_at(self, times: Seq<nat>, j: int) -> bool
        recommends
            0 <= j < times.len(),
    {
        !self.after_requests(times.take(j)).in_window(times[j])
    }

    /// How many of the first `n` requests of `times` were granted at a time
    /// `t` with `from <= t < until`.
    pub open spec fn dispatched_within(self, times: Seq<nat>, from: nat, until: nat, n: nat) -> nat
        recommends
            n <= times.len(),
        decreases n,
    {
        if n == 0 {
            0
        } else {
            let j = n - 1;
            let earlier = self.dispatched_within(times, from, until, j as nat);
            if self.granted_at(times, j) && from <= times[j] < until {
                earlier + 1
            } else {
                earlier
            }
        }
    }
}

/// Whether no time in `times` is earlier than one before it.
pub open spec fn non_decreasing(times: Seq<nat>) -> bool {
    forall|i: int, j: int| 0 <= i <= j < times.len() ==> times[i] <= times[j]
}

impl Budget {
    proof fn lemma_prefix_step(self, times: Seq<nat>, n: int)
        requires
            0 < n <= times.len(),
        ensures
            self.after_requests(times.take(n)) == self.after_requests(
                times.take(n - 1),
            ).after_request(times[n - 1]),
    {
        assert(times.take(n).drop_last() =~= times.take(n - 1));
    }

    /// Requests keep a budget well formed, and its limits as they were.
    pub proof fn lemma_requests_keep_wf(self, times: Seq<nat>)
        requires
            self.wf(),
        ensures
            self.after_requests(times).wf(),
            self.after_requests(times).capacity == self.capacity,
            self.after_requests(times).duration == self.duration,
        decreases times.len(),
    {
        if times.len() > 0 {
            self.lemma_requests_keep_wf(times.drop_last());
        }
    }

    /// A call that was granted lies before the end of every window that is
    /// running after it.
    proof fn lemma_granted_before_window_end(self, times: Seq<nat>, n: int, j: int)
        requires
            self.wf(),
            self.duration > 0,
            0 <= j < n <= times.len(),
            self.granted_at(times, j),
        ensures
            self.after_requests(times.take(n)).window_start is Some,
            times[j] < self.after_requests(times.take(n)).window_start->0 + self.duration,
        decreases n,
    {
        self.lemma_prefix_step(times, n);
        self.lemma_requests_keep_wf(times.take(n - 1));
        if j < n - 1 {
            self.lemma_granted_before_window_end(times, n - 1, j);
        }
    }

    proof fn lemma_none_dispatched(self, times: Seq<nat>, from: nat, until: nat, n: nat)
        requires
            n <= times.len(),
            forall|j: int|
                0 <= j < n && self.granted_at(times, j) ==> !(from <= #[trigger] times[j] < until),
        ensures
            self.dispatched_within(times, from, until, n) == 0,
        decreases n,
    {
        if n > 0 {
            self.lemma_none_dispatched(times, from, until, (n - 1) as nat);
            assert(!(self.granted_at(times, n - 1) && from <= times[n - 1] < until));
        }
    }

    /// While the window opened by request `i` runs, the calls dispatched
    /// since its start are the calls counted in it; afterwards their number
    /// stays what it was.
    proof fn lemma_window_count(self, times: Seq<nat>, i: int, n: int)
        requires
            self.wf(),
            self.duration > 0,
            non_decreasing(times),
            0 <= i < n <= times.len(),
            self.opens_window_at(times, i),
        ensures
            ({
                let b = self.after_requests(times.take(n));
                let count = self.dispatched_within(
                    times,
                    times[i],
                    times[i] + self.duration,
                    n as nat,
                );
                &&& b.wf()
                &&& b.capacity == self.capacity
                &&& b.duration == self.duration
                &&& b.window_start is Some
                &&& b.window_start->0 <= times[n - 1]
                &&& b.window_start->0 == times[i] ==> count == b.calls_in_window
                &&& b.window_start->0 != times[i] ==> b.window_start->0 >= times[i] + self.duration
                    && count <= self.capacity
            }),
        decreases n,
    {
        let from = times[i];
        let until = times[i] + self.duration;
        self.lemma_prefix_step(times, n);
        self.lemma_requests_keep_wf(times.take(n - 1));
        self.lemma_requests_keep_wf(times.take(n));
        let before = self.after_requests(times.take(n - 1));
        if n == i + 1 {
            assert forall|j: int| 0 <= j < i && self.granted_at(times, j) implies !(from
                <= #[trigger] times[j] < until) by {
                self.lemma_granted_before_window_end(times, i, j);
            }
            self.lemma_none_dispatched(times, from, until, i as nat);
        } else {
            self.lemma_window_count(times, i, n - 1);
            assert(times[i] <= times[n - 2] <= times[n - 1]);
        }
    }

    /// No more than `capacity` calls are dispatched within `duration` of the
    /// first call of a window: where request `i` opens a window, at most
    /// `capacity` of all the requests are granted at a time `t` with
    /// `times[i] <= t < times[i] + duration`. Time does not run backwards.
    pub proof fn law_window_never_exceeds_capacity(self, times: Seq<nat>, i: int)
        requires
            self.wf(),
            non_decreasing(times),
            0 <= i < times.len(),
            self.opens_window_at(times, i),
        ensures
            self.dispatched_within(
                times,
                times[i],
                times[i] + self.duration,
                times.len(),
            ) <= self.capacity,
    {
        if self.duration == 0 {
            self.lemma_none_dispatched(times, times[i], times[i], times.len());
        } else {
            self.lemma_window_count(times, i, times.len() as int);
            self.lemma_requests_keep_wf(times.take(times.len() as int));
        }
    }
}

/// The shared call budget.
#[derive(Debug)]
pub struct RateBudget {
    window_capacity: u32,
    window_duration: u64,
    calls_in_window: u32,
    window_start: Option<u64>,
}

impl View for RateBudget {
    type V = Budget;

    closed spec fn view(&self) -> Budget {
        Budget {
            capacity: self.window_capacity as nat,
            duration: self.window_duration as nat,
            calls_in_window: self.calls_in_window as nat,
            window_start: match self.window_start {
                Some(t) => Some(t as nat),
                None => None,
            },
        }
    }
}

impl RateBudget {
    /// Every budget is well formed.
    #[verifier::type_invariant]
    pub open spec fn valid(&self) -> bool {
        self@.wf()
    }

    /// The budget of the payments platform: `WINDOW_CAPACITY` calls in
    /// `WINDOW_DURATION` seconds.
    pub fn standard() -> (budget: RateBudget)
        ensures
            budget@ == Budget::fresh(WINDOW_CAPACITY as nat, WINDOW_DURATION as nat),
    {
        RateBudget {
            window_capacity: WINDOW_CAPACITY,
            window_duration: WINDOW_DURATION,
            calls_in_window: 0,
            window_start: None,
        }
    }

    /// A budget of `capacity` calls in each window of `duration`. There is
    /// none of no calls at all.
    pub fn with_limits(capacity: u32, duration: u64) -> (budget: Option<RateBudget>)
        ensures
            capacity == 0 ==> budget is None,
            capacity >= 1 ==> budget is Some && budget->0@ == Budget::fresh(
                capacity as nat,
                duration as nat,
            ),
    {
        if capacity == 0 {
            None
        } else {
            Some(
                RateBudget {
                    window_capacity: capacity,
                    window_duration: duration,
                    calls_in_window: 0,
                    window_start: None,
                },
            )
        }
    }

    /// Calls granted in the running window.
    pub fn calls_in_window(&self) -> (n: u32)
        ensures
            n == self@.calls_in_window,
    {
        self.calls_in_window
    }

    /// Asks for one call at the time `now`. A granted call is counted at
    /// once; a deferred one leaves the budget as it was.
    pub fn request(&mut self, now: u64) -> (admission: Admission)
        ensures
            final(self)@ == old(self)@.after_request(now as nat),
            admission == old(self)@.answer(now as nat),
    {
        proof {
            use_type_invariant(&*self);
        }
        match self.window_start {
            Some(start) => {
                let elapsed: u64 = if now >= start {
                    now - start
                } else {
                    0
                };
                if elapsed < self.window_duration {
                    if self.calls_in_window < self.window_capacity {
                        self.calls_in_window = self.calls_in_window + 1;
                        Admission::Granted
                    } else {
                        Admission::Deferred(self.window_duration - elapsed)
                    }
                } else {
                    self.calls_in_window = 1;
                    self.window_start = Some(now);
                    Admission::Granted
                }
            },
            None => {
                self.calls_in_window = 1;
                self.window_start = Some(now);
                Admission::Granted
            },
        }
    }
}

} // verus!
