//! Periodic counters and timers.

use vstd::prelude::*;
use vstd::arithmetic::div_mod::{lemma_mod_add_multiples_vanish, lemma_small_mod};

verus! {

/// The abstract state of a [`Clock`].
pub struct ClockState {
    /// The ticks counted since the last wrap or reset.
    pub count: nat,
    /// The number of ticks in one cycle.
    pub period: nat,
}

impl ClockState {
    /// The count never reaches the period; with a period of zero it rests at
    /// zero.
    pub open spec fn wf(self) -> bool {
        self.count < self.period || self.count == 0
    }

    /// Whether the next tick completes a cycle.
    pub open spec fn wraps(self) -> bool {
        self.count + 1 >= self.period
    }

    /// The state after one tick.
    pub open spec fn tick(self) -> ClockState {
        ClockState { count: if self.wraps() { 0 } else { self.count + 1 }, period: self.period }
    }

    /// The state after a reset.
    pub open spec fn reset(self) -> ClockState {
        ClockState { count: 0, period: self.period }
    }

    /// The state after `n` ticks.
    pub open spec fn ticks(self, n: nat) -> ClockState
        decreases n,
    {
        if n == 0 {
            self
        } else {
            self.tick().ticks((n - 1) as nat)
        }
    }

    /// Ticks and resets keep the count below the period.
    pub proof fn lemma_operations_keep_wf(self)
        requires
            self.wf(),
            self.period > 0,
        ensures
            self.tick().wf(),
            self.tick().period == self.period,
            self.reset().wf(),
            self.reset().period == self.period,
    {
    }

    /// The count goes round with the period: after `n` ticks it stands at
    /// the remainder of the ticks made since it last stood at zero.
    pub proof fn lemma_ticks_go_round(self, n: nat)
        requires
            self.wf(),
            self.period > 0,
        ensures
            self.ticks(n).period == self.period,
            self.ticks(n).count == (self.count + n) % self.period,
            self.ticks(n).wf(),
        decreases n,
    {
        if n == 0 {
            lemma_small_mod(self.count, self.period);
        } else {
            self.tick().lemma_ticks_go_round((n - 1) as nat);
            if self.wraps() {
                // Here count + 1 is the period, so the two sums are one period apart.
                lemma_mod_add_multiples_vanish(n - 1, self.period as int);
            }
        }
    }

    /// From zero, the tick that completes a cycle is the `period`-th and no
    /// earlier one.
    pub proof fn lemma_wraps_on_last_tick_of_cycle(self, n: nat)
        requires
            self.wf(),
            self.period > 0,
            self.count == 0,
            n < self.period,
        ensures
            self.ticks(n).count == n,
            self.ticks(n).wraps() <==> n + 1 == self.period,
    {
        self.lemma_ticks_go_round(n);
        lemma_small_mod(n, self.period);
    }
}

/// An increasing counter that ticks up until a particular count is reached,
/// which then resets itself.
#[derive(Debug, PartialEq, Eq)]
pub struct Clock {
    count: u64,
    period: u64,
}

impl View for Clock {
    type V = ClockState;

    /// The count and the period of the clock.
    closed spec fn view(&self) -> ClockState {
        ClockState { count: self.count as nat, period: self.period as nat }
    }
}

impl Clock {
    /// The count stays below the period.
    #[verifier::type_invariant]
    spec fn inv(self) -> bool {
        self@.wf()
    }

    /// Create a new clock that cycles every `period` ticks.
    pub fn new(period: u64) -> (clock: Clock)
        ensures
            clock@ == (ClockState { count: 0, period: period as nat }),
    {
        Clock { count: 0, period }
    }

    /// Increment the current count by 1. If this is the `period`-th tick, the
    /// counter is reset and `true` is returned.
    ///
    /// A clock with a period of zero cannot tick.
    pub fn tick(&mut self) -> (wrapped: bool)
        requires
            old(self)@.period > 0,
        ensures
            wrapped == old(self)@.wraps(),
            final(self)@ == old(self)@.tick(),
            final(self)@.wf(),
    {
        proof {
            use_type_invariant(&*self);
        }
        let next: u64 = self.count + 1;
        if next >= self.period {
            self.count = 0;
            true
        } else {
            self.count = next;
            false
        }
    }

    /// Reset the current count.
    pub fn reset(&mut self)
        ensures
            final(self)@ == old(self)@.reset(),
            final(self)@.wf(),
    {
        self.count = 0;
    }

    /// Return the current count.
    pub fn count(&self) -> (count: u64)
        ensures
            count == self@.count,
            self@.wf(),
    {
        proof {
            use_type_invariant(self);
        }
        self.count
    }

    /// Return the period of the clock.
    pub fn period(&self) -> (period: u64)
        ensures
            period == self@.period,
            self@.wf(),
    {
        proof {
            use_type_invariant(self);
        }
        self.period
    }
}

/// Indicates which edge of the timer was just hit.
#[derive(Debug, PartialEq, Eq, Clone, Copy)]
pub enum TimerEvent {
    RisingEdge,
    FallingEdge,
}

/// The abstract state of a [`Timer`].
pub struct TimerState {
    /// The number of ticks from one rising edge to the next.
    pub period: nat,
    /// The tick of the next rising edge.
    pub next_start: nat,
    /// The tick of the next falling edge.
    pub next_stop: nat,
}

impl TimerState {
    /// The two edges alternate: the one that is due first is followed by the
    /// other within less than a period. Edges that fall on the same tick
    /// belong to a timer without duration.
    pub open spec fn wf(self) -> bool {
        &&& self.period > 0
        &&& self.next_start <= self.next_stop ==> self.next_stop < self.next_start + self.period
        &&& self.next_stop < self.next_start ==> self.next_start < self.next_stop + self.period
    }

    /// Whether the timer is between a rising and a falling edge.
    pub open spec fn is_active(self) -> bool {
        self.next_start > self.next_stop
    }

    /// The tick of the next edge, rising or falling.
    pub open spec fn next_event_time(self) -> nat {
        if self.next_start < self.next_stop {
            self.next_start
        } else {
            self.next_stop
        }
    }

    /// The edge that is due at `time`, if any. Of several that are due, the
    /// earliest.
    pub open spec fn event(self, time: nat) -> Option<TimerEvent> {
        if self.next_start <= self.next_stop && self.next_start <= time {
            Some(TimerEvent::RisingEdge)
        } else if self.next_stop <= time {
            Some(TimerEvent::FallingEdge)
        } else {
            None
        }
    }

    /// The state after the edge that is due at `time` has been reported. A
    /// rising edge of a timer without duration takes the falling edge along.
    pub open spec fn update(self, time: nat) -> TimerState {
        match self.event(time) {
            Some(TimerEvent::RisingEdge) => TimerState {
                period: self.period,
                next_start: self.next_start + self.period,
                next_stop: if self.next_stop == self.next_start {
                    self.next_stop + self.period
                } else {
                    self.next_stop
                },
            },
            Some(TimerEvent::FallingEdge) => TimerState {
                period: self.period,
                next_start: self.next_start,
                next_stop: self.next_stop + self.period,
            },
            None => self,
        }
    }

    /// Whether both edges of the state can be held in 64 bits.
    pub open spec fn fits(self) -> bool {
        self.next_start <= u64::MAX && self.next_stop <= u64::MAX
    }

    /// An update keeps the edges in step and leaves the period alone.
    pub proof fn lemma_update_keeps_wf(self, time: nat)
        requires
            self.wf(),
        ensures
            self.update(time).wf(),
            self.update(time).period == self.period,
    {
    }

    /// Nothing is due before the next event time, and something is due from
    /// then on.
    pub proof fn lemma_event_is_due_from_next_event_time(self, time: nat)
        requires
            self.wf(),
        ensures
            self.event(time) is None <==> time < self.next_event_time(),
            self.event(time) is None ==> self.update(time) == self,
    {
    }

    /// The edges alternate. A rising edge comes from an inactive timer and
    /// leaves it active, unless the timer has no duration; a falling edge
    /// comes from an active timer and leaves it inactive. Each event moves
    /// its own edge on by one period.
    pub proof fn lemma_edges_alternate(self, time: nat)
        requires
            self.wf(),
        ensures
            self.event(time) == Some(TimerEvent::RisingEdge) ==> ({
                &&& !self.is_active()
                &&& self.update(time).next_start == self.next_start + self.period
                &&& self.update(time).is_active() <==> self.next_start != self.next_stop
            }),
            self.event(time) == Some(TimerEvent::FallingEdge) ==> ({
                &&& self.is_active()
                &&& self.update(time).next_stop == self.next_stop + self.period
                &&& !self.update(time).is_active()
            }),
    {
    }
}

/// A periodic timer with rising and falling edges.
#[derive(Debug, PartialEq, Eq, Clone, Copy)]
pub struct Timer {
    period: u64,
    next_start: u64,
    next_stop: u64,
}

impl View for Timer {
    type V = TimerState;

    /// The period of the timer and its next two edges.
    closed spec fn view(&self) -> TimerState {
        TimerState {
            period: self.period as nat,
            next_start: self.next_start as nat,
            next_stop: self.next_stop as nat,
        }
    }
}

impl Timer {
    /// The edges stay in step with each other.
    #[verifier::type_invariant]
    spec fn inv(self) -> bool {
        self@.wf()
    }

    /// Create a new timer that activates every `period` ticks, starts at the
    /// given `offset` time, and lasts for `duration` ticks. The offset and
    /// duration must be less than the period. The duration may be 0: the
    /// timer will then only emit `RisingEdge` events.
    pub fn new(period: u64, offset: u64, duration: u64) -> (timer: Timer)
        requires
            offset < period,
            duration < period,
            offset + duration <= u64::MAX,
        ensures
            timer@ == (TimerState {
                period: period as nat,
                next_start: offset as nat,
                next_stop: (offset + duration) as nat,
            }),
            timer@.wf(),
    {
        Timer { period, next_start: offset, next_stop: offset + duration }
    }

    /// Get the next tick that will emit a `RisingEdge` event.
    pub fn next_start_time(&self) -> (time: u64)
        ensures
            time == self@.next_start,
            self@.wf(),
    {
        proof {
            use_type_invariant(self);
        }
        self.next_start
    }

    /// Get the next tick that will emit a `FallingEdge` event.
    pub fn next_stop_time(&self) -> (time: u64)
        ensures
            time == self@.next_stop,
            self@.wf(),
    {
        proof {
            use_type_invariant(self);
        }
        self.next_stop
    }

    /// Get the next tick that will produce any `TimerEvent`.
    pub fn next_event_time(&self) -> (time: u64)
        ensures
            time == self@.next_event_time(),
            self@.wf(),
    {
        proof {
            use_type_invariant(self);
        }
        if self.next_start < self.next_stop {
            self.next_start
        } else {
            self.next_stop
        }
    }

    /// Runs the timer until either the given absolute `time` is reached, or
    /// until the next event occurs. You should generally run this function in
    /// a loop, as multiple events may have occured in the time elapsed.
    ///
    /// The edges that the event moves on must stay within 64 bits.
    pub fn update(&mut self, time: u64) -> (event: Option<TimerEvent>)
        requires
            old(self)@.update(time as nat).fits(),
        ensures
            event == old(self)@.event(time as nat),
            final(self)@ == old(self)@.update(time as nat),
            final(self)@.wf(),
    {
        proof {
            use_type_invariant(&*self);
        }
        if self.next_start <= self.next_stop && self.next_start <= time {
            let start = self.next_start + self.period;
            let stop = if self.next_stop == self.next_start {
                self.next_stop + self.period
            } else {
                self.next_stop
            };
            *self = Timer { period: self.period, next_start: start, next_stop: stop };
            Some(TimerEvent::RisingEdge)
        } else if self.next_stop <= time {
            self.next_stop += self.period;
            Some(TimerEvent::FallingEdge)
        } else {
            None
        }
    }

    /// Indicates if the timer is currently between a `RisingEdge` and
    /// `FallingEdge` event.
    pub fn is_active(&self) -> (active: bool)
        ensures
            active == self@.is_active(),
            self@.wf(),
    {
        proof {
            use_type_invariant(self);
        }
        self.next_start > self.next_stop
    }
}

/// `time` is the tick of the earliest event among `timers`, or zero when
/// there are none.
pub open spec fn is_next_timer_event(timers: Seq<Timer>, time: nat) -> bool {
    if timers.len() == 0 {
        time == 0
    } else {
        &&& exists|i: int| 0 <= i < timers.len() && time == (#[trigger] timers[i])@.next_event_time()
        &&& forall|i: int| 0 <= i < timers.len() ==> time <= (#[trigger] timers[i])@.next_event_time()
    }
}

/// Given a list of `timers`, return the next tick that any of the timers
/// will emit a `TimerEvent`.
pub fn next_timer_event(timers: &[Timer]) -> (time: u64)
    ensures
        is_next_timer_event(timers@, time as nat),
{
    if timers.len() == 0 {
        return 0;
    }
    let mut earliest: u64 = timers[0].next_event_time();
    let mut i: usize = 1;
    while i < timers.len()
        invariant
            1 <= i <= timers@.len(),
            exists|k: int| 0 <= k < i && earliest == (#[trigger] timers@[k])@.next_event_time(),
            forall|k: int| 0 <= k < i ==> earliest <= (#[trigger] timers@[k])@.next_event_time(),
        decreases timers@.len() - i,
    {
        let t = timers[i].next_event_time();
        if t < earliest {
            earliest = t;
        }
        i += 1;
    }
    earliest
}

} // verus!
