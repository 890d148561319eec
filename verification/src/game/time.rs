//! Timing trackers. Each cadence of the logic loop owns one and ticks it once
//! per pass. Instants are nanoseconds on the runner's monotonic clock.

use vstd::prelude::*;

verus! {

/// What a tracker has recorded.
pub struct TimeView {
    /// The instant at which the tracker was started.
    pub first: nat,
    /// The instant of the latest tick.
    pub last: nat,
    /// The span between the latest tick and the one before it.
    pub delta: nat,
}

impl TimeView {
    /// The latest tick is not before the start, and the latest span lies
    /// between the two.
    pub open spec fn wf(self) -> bool {
        self.first <= self.last && self.delta <= self.last - self.first
    }

    /// A tracker started at `now`.
    pub open spec fn started(now: nat) -> TimeView {
        TimeView { first: now, last: now, delta: 0 }
    }

    /// The tracker after a tick at `now`. A reading that lies before the
    /// latest tick counts as that tick: the tracker never runs backwards.
    pub open spec fn tick(self, now: nat) -> TimeView {
        let last = if now > self.last { now } else { self.last };
        TimeView { first: self.first, last, delta: (last - self.last) as nat }
    }

    /// The span from the start to the latest tick.
    pub open spec fn elapsed(self) -> nat {
        (self.last - self.first) as nat
    }

    /// The span from the latest tick to `now`, zero if `now` lies before it.
    pub open spec fn since(self, now: nat) -> nat {
        if now > self.last { (now - self.last) as nat } else { 0 }
    }
}

/// Records the instant of the latest tick of one cadence.
#[derive(Clone, Copy, Debug)]
pub struct TimeState {
    first: u64,
    last: u64,
    delta: u64,
}

impl View for TimeState {
    type V = TimeView;

    closed spec fn view(&self) -> TimeView {
        TimeView { first: self.first as nat, last: self.last as nat, delta: self.delta as nat }
    }
}

impl TimeState {
    #[verifier::type_invariant]
    spec fn inv(self) -> bool {
        self.first <= self.last && self.delta <= self.last - self.first
    }

    /// Starts a tracker at `now`.
    pub fn new(now: u64) -> (t: TimeState)
        ensures
            t@ == TimeView::started(now as nat),
            t@.wf(),
    {
        TimeState { first: now, last: now, delta: 0 }
    }

    /// Ticks the tracker at `now`.
    pub fn update(&mut self, now: u64)
        ensures
            final(self)@ == old(self)@.tick(now as nat),
            final(self)@.wf(),
    {
        proof {
            use_type_invariant(&*self);
        }
        let last: u64 = if now > self.last { now } else { self.last };
        *self = TimeState { first: self.first, last, delta: last - self.last };
    }

    /// The instant of the latest tick.
    pub fn last_update(&self) -> (t: u64)
        ensures
            t == self@.last,
    {
        self.last
    }

    /// The span between the latest tick and the one before it.
    pub fn last_update_time(&self) -> (d: u64)
        ensures
            d == self@.delta,
    {
        self.delta
    }

    /// The span from the start to the latest tick.
    pub fn elapsed(&self) -> (d: u64)
        ensures
            d == self@.elapsed(),
            self@.wf(),
    {
        proof {
            use_type_invariant(self);
        }
        self.last - self.first
    }

    /// The span from the latest tick to `now`, zero if `now` lies before it.
    pub fn since_last_update(&self, now: u64) -> (d: u64)
        ensures
            d == self@.since(now as nat),
    {
        if now > self.last { now - self.last } else { 0 }
    }
}

/// A tick keeps the start, never moves the latest tick backwards, and records
/// exactly the span by which it moved.
pub proof fn lemma_tick_advances(t: TimeView, now: nat)
    requires
        t.wf(),
    ensures
        t.tick(now).wf(),
        t.tick(now).first == t.first,
        t.tick(now).last >= t.last,
        t.tick(now).last >= now,
        t.tick(now).last == t.last + t.tick(now).delta,
{
}

} // verus!
