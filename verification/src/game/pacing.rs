//! Frame pacing. The logic loop updates as often as its update interval
//! allows and draws no more often than its frame interval allows.
//!
//! A frame is due once more than the frame interval has passed since the
//! pacer's mark. Drawing moves the mark forward by exactly one interval, not
//! to the present, so a late frame does not delay the ones after it. When no
//! frame is due, the loop sleeps for what is left of the update interval.

use crate::game::runner::Runner;
use crate::game::time::TimeView;
use vstd::prelude::*;

verus! {

/// The pacer as a value, in nanoseconds on the runner's clock.
pub struct PacerView {
    /// The instant from which the next frame interval is counted.
    pub last_frame: nat,
    /// The least span between two updates.
    pub target_update_time: nat,
    /// The least span between two marks.
    pub target_frame_time: nat,
}

impl PacerView {
    /// A pacer with the runner's intervals and its mark at `now`.
    pub open spec fn marked(now: nat) -> PacerView {
        PacerView {
            last_frame: now,
            target_update_time: Runner::TARGET_UPDATE_TIME as nat,
            target_frame_time: Runner::TARGET_FRAME_TIME as nat,
        }
    }

    /// The span from the mark to `now`, zero if `now` lies before it.
    pub open spec fn frame_time(self, now: nat) -> nat {
        if now > self.last_frame { (now - self.last_frame) as nat } else { 0 }
    }

    /// Whether a frame is due at `now`: more than the frame interval has
    /// passed since the mark.
    pub open spec fn frame_due(self, now: nat) -> bool {
        self.frame_time(now) > self.target_frame_time
    }

    /// The pacer after the loop has looked at the clock at `now`: if a frame
    /// is due, the mark moves forward by one frame interval.
    pub open spec fn after_frame(self, now: nat) -> PacerView {
        if self.frame_due(now) {
            PacerView {
                last_frame: self.last_frame + self.target_frame_time,
                target_update_time: self.target_update_time,
                target_frame_time: self.target_frame_time,
            }
        } else {
            self
        }
    }

    /// For how long the loop sleeps when `update_time` has passed since the
    /// last update: what is left of the update interval.
    pub open spec fn pause(self, update_time: nat) -> nat {
        if self.target_update_time > update_time {
            (self.target_update_time - update_time) as nat
        } else {
            0
        }
    }

    /// The pacer after the loop has looked at the clock at each of `instants`
    /// in turn.
    pub open spec fn after_frames_at(self, instants: Seq<nat>) -> PacerView
        decreases instants.len(),
    {
        if instants.len() == 0 {
            self
        } else {
            self.after_frame(instants[0]).after_frames_at(instants.drop_first())
        }
    }

    /// How many frames are drawn when the loop looks at the clock at each of
    /// `instants` in turn.
    pub open spec fn frames_drawn_at(self, instants: Seq<nat>) -> nat
        decreases instants.len(),
    {
        if instants.len() == 0 {
            0
        } else {
            (if self.frame_due(instants[0]) { 1nat } else { 0nat }) + self.after_frame(
                instants[0],
            ).frames_drawn_at(instants.drop_first())
        }
    }
}

/// Decides when the logic loop draws and for how long it sleeps.
#[derive(Clone, Copy, Debug)]
pub struct Pacer {
    last_frame: u64,
    target_update_time: u64,
    target_frame_time: u64,
}

impl View for Pacer {
    type V = PacerView;

    closed spec fn view(&self) -> PacerView {
        PacerView {
            last_frame: self.last_frame as nat,
            target_update_time: self.target_update_time as nat,
            target_frame_time: self.target_frame_time as nat,
        }
    }
}

impl Pacer {
    /// A pacer with the runner's intervals and its mark at `now`.
    pub fn new(now: u64) -> (p: Pacer)
        ensures
            p@ == PacerView::marked(now as nat),
    {
        Pacer {
            last_frame: now,
            target_update_time: Runner::TARGET_UPDATE_TIME,
            target_frame_time: Runner::TARGET_FRAME_TIME,
        }
    }

    /// A pacer with the given intervals and its mark at `now`.
    pub fn with_targets(now: u64, target_update_time: u64, target_frame_time: u64) -> (p: Pacer)
        ensures
            p@ == (PacerView {
                last_frame: now as nat,
                target_update_time: target_update_time as nat,
                target_frame_time: target_frame_time as nat,
            }),
    {
        Pacer { last_frame: now, target_update_time, target_frame_time }
    }

    /// Whether a frame is due at `now`.
    pub fn frame_due(&self, now: u64) -> (due: bool)
        ensures
            due == self@.frame_due(now as nat),
    {
        now > self.last_frame && now - self.last_frame > self.target_frame_time
    }

    /// Looks at the clock at `now`. If a frame is due, moves the mark forward
    /// by one frame interval and says so.
    pub fn begin_frame(&mut self, now: u64) -> (due: bool)
        ensures
            due == old(self)@.frame_due(now as nat),
            final(self)@ == old(self)@.after_frame(now as nat),
    {
        if now > self.last_frame {
            let frame_time: u64 = now - self.last_frame;
            if frame_time > self.target_frame_time {
                self.last_frame = now - (frame_time - self.target_frame_time);
                return true;
            }
        }
        false
    }

    /// For how long to sleep when `update_time` has passed since the last
    /// update. Zero means: do not sleep.
    pub fn pause(&self, update_time: u64) -> (d: u64)
        ensures
            d == self@.pause(update_time as nat),
    {
        if self.target_update_time > update_time {
            self.target_update_time - update_time
        } else {
            0
        }
    }

    /// The instant from which the next frame interval is counted.
    pub fn last_frame(&self) -> (t: u64)
        ensures
            t == self@.last_frame,
    {
        self.last_frame
    }

    /// The least span between two updates.
    pub fn target_update_time(&self) -> (d: u64)
        ensures
            d == self@.target_update_time,
    {
        self.target_update_time
    }

    /// The least span between two marks.
    pub fn target_frame_time(&self) -> (d: u64)
        ensures
            d == self@.target_frame_time,
    {
        self.target_frame_time
    }
}

/// The sleep fills the update interval: the time that has passed since the
/// last update and the sleep that follows make up at least one interval, and
/// there is no sleep once an interval has passed.
pub proof fn lemma_pause_fills_interval(p: PacerView, update_time: nat)
    ensures
        update_time + p.pause(update_time) >= p.target_update_time,
        update_time < p.target_update_time ==> update_time + p.pause(update_time)
            == p.target_update_time,
        update_time >= p.target_update_time ==> p.pause(update_time) == 0,
{
}

/// Updates are paced. On a pass that draws no frame the loop reads the clock
/// at `now`, sleeps for the pause that the pacer asks for, and ticks the
/// update tracker when it wakes. If the clock does not run backwards and the
/// sleep lasts at least as long as asked, the new tick lies at least one
/// update interval behind the one before it.
pub proof fn lemma_updates_are_paced(p: PacerView, tracker: TimeView, now: nat, woke: nat)
    requires
        tracker.wf(),
        tracker.last <= now,
        now + p.pause(tracker.since(now)) <= woke,
    ensures
        tracker.tick(woke).last == woke,
        tracker.tick(woke).last - tracker.last >= p.target_update_time,
        tracker.tick(woke).delta >= p.target_update_time,
{
}

/// Frames are capped. If a frame is drawn at `first` and the next one at
/// `second`, the two lie more than one frame interval apart, less the time by
/// which the first one was late; and the draw tracker, which ticks with each
/// frame, records that span.
pub proof fn lemma_frames_are_capped(p: PacerView, tracker: TimeView, first: nat, second: nat)
    requires
        tracker.wf(),
        tracker.last <= first <= second,
        p.frame_due(first),
        p.after_frame(first).frame_due(second),
    ensures
        second > p.last_frame + 2 * p.target_frame_time,
        second - first > p.target_frame_time - (p.frame_time(first) - p.target_frame_time),
        tracker.tick(first).last == first,
        tracker.tick(first).tick(second).last == second,
        tracker.tick(first).tick(second).delta == second - first,
{
}

/// However fast the loop runs, it does not draw faster. If the loop looked at
/// the clock at `seen` and found no frame due, drew one at `first` and the
/// next at `second`, the two frames lie more than one frame interval apart,
/// less the time between the two looks: the tolerance is one pass of the
/// loop.
pub proof fn lemma_frames_are_capped_up_to_one_pass(
    p: PacerView,
    seen: nat,
    first: nat,
    second: nat,
)
    requires
        seen <= first,
        !p.frame_due(seen),
        p.frame_due(first),
        p.after_frame(first).frame_due(second),
    ensures
        second - first > p.target_frame_time - (first - seen),
{
}

/// The time that the frames of a run take up, one frame interval each, is the
/// interval of the first frame, if one is drawn at the first look at the
/// clock, and the time that the frames of the rest of the run take up.
proof fn lemma_frame_time_adds_up(p: PacerView, instants: Seq<nat>)
    ensures
        instants.len() == 0 ==> p.frames_drawn_at(instants) * p.target_frame_time == 0,
        instants.len() > 0 ==> p.frames_drawn_at(instants) * p.target_frame_time == (if p.frame_due(
            instants[0],
        ) {
            p.target_frame_time
        } else {
            0
        }) + p.after_frame(instants[0]).frames_drawn_at(instants.drop_first())
            * p.target_frame_time,
{
    let step = p.target_frame_time;
    let drawn = p.frames_drawn_at(instants);
    if instants.len() == 0 {
        assert(drawn * step == 0) by (nonlinear_arith)
            requires
                drawn == 0,
        ;
    } else if p.frame_due(instants[0]) {
        let rest = p.after_frame(instants[0]).frames_drawn_at(instants.drop_first());
        assert(drawn * step == step + rest * step) by (nonlinear_arith)
            requires
                drawn == 1 + rest,
        ;
    }
}

/// The cadence does not drift: each frame moves the mark by exactly one frame
/// interval, however late the frame was.
pub proof fn lemma_cadence_is_kept(p: PacerView, instants: Seq<nat>)
    ensures
        p.after_frames_at(instants).last_frame == p.last_frame + p.frames_drawn_at(instants)
            * p.target_frame_time,
        p.after_frames_at(instants).target_frame_time == p.target_frame_time,
        p.after_frames_at(instants).target_update_time == p.target_update_time,
    decreases instants.len(),
{
    lemma_frame_time_adds_up(p, instants);
    if instants.len() > 0 {
        lemma_cadence_is_kept(p.after_frame(instants[0]), instants.drop_first());
    }
}

/// The frame rate is bounded. However often the loop looks at the clock up to
/// the instant `horizon`, the frames that it draws fit into the time that has
/// passed since the mark, one frame interval each.
pub proof fn lemma_frame_rate_is_bounded(p: PacerView, instants: Seq<nat>, horizon: nat)
    requires
        forall|i: int| 0 <= i < instants.len() ==> instants[i] <= horizon,
        p.last_frame <= horizon,
    ensures
        p.last_frame + p.frames_drawn_at(instants) * p.target_frame_time <= horizon,
    decreases instants.len(),
{
    lemma_frame_time_adds_up(p, instants);
    if instants.len() > 0 {
        let tail = instants.drop_first();
        assert forall|i: int| 0 <= i < tail.len() implies tail[i] <= horizon by {
            assert(tail[i] == instants[i + 1]);
        }
        assert(instants[0] <= horizon);
        lemma_frame_rate_is_bounded(p.after_frame(instants[0]), tail, horizon);
    }
}

/// A run of the logic loop on a clock of its own: the hooks take no time,
/// and every sleep lasts exactly as long as the pacer asks.
pub struct Run {
    /// The pacer after the run.
    pub pacer: PacerView,
    /// The update tracker after the run.
    pub tracker: TimeView,
    /// The instant at which the run ends.
    pub now: nat,
    /// How many passes drew a frame. Such a pass ticks the update cadence
    /// without sleeping.
    pub frames: nat,
    /// How many passes drew none. Such a pass sleeps for what is left of the
    /// update interval and ticks the update cadence when it wakes.
    pub paced: nat,
}

/// The run of `passes` passes that starts at `now`. Each pass ticks the
/// update cadence once, so the run counts `passes` ticks.
pub open spec fn run_for(p: PacerView, tracker: TimeView, now: nat, passes: nat) -> Run
    decreases passes,
{
    if passes == 0 {
        Run { pacer: p, tracker, now, frames: 0, paced: 0 }
    } else if p.frame_due(now) {
        let rest = run_for(p.after_frame(now), tracker.tick(now), now, (passes - 1) as nat);
        Run {
            pacer: rest.pacer,
            tracker: rest.tracker,
            now: rest.now,
            frames: rest.frames + 1,
            paced: rest.paced,
        }
    } else {
        let woke = now + p.pause(tracker.since(now));
        let rest = run_for(p, tracker.tick(woke), woke, (passes - 1) as nat);
        Run {
            pacer: rest.pacer,
            tracker: rest.tracker,
            now: rest.now,
            frames: rest.frames,
            paced: rest.paced + 1,
        }
    }
}

/// Both cadences are kept over a run. A run that starts at a tick of the
/// update cadence, with the pacer's mark no more than a frame interval and an
/// update interval behind, goes on like this however long it lasts:
///
/// - every pass ticks the update cadence once;
/// - the passes that draw no frame take one update interval each, and
///   nothing else takes time: so over a span of time the update cadence
///   ticks once for each update interval of the span and once more for each
///   frame drawn in it;
/// - the frames take up one frame interval each of the time since the mark,
///   and never fall more than a frame interval and an update interval behind:
///   so over a span of time one frame is drawn for each frame interval, give
///   or take one.
pub proof fn lemma_run_keeps_both_cadences(p: PacerView, tracker: TimeView, now: nat, passes: nat)
    requires
        tracker.wf(),
        tracker.last == now,
        p.last_frame <= now <= p.last_frame + p.target_frame_time + p.target_update_time,
    ensures
        ({
            let run = run_for(p, tracker, now, passes);
            &&& run.frames + run.paced == passes
            &&& run.now == now + run.paced * p.target_update_time
            &&& run.tracker.last == run.now
            &&& run.tracker.wf()
            &&& run.pacer.last_frame == p.last_frame + run.frames * p.target_frame_time
            &&& run.pacer.last_frame <= run.now
            &&& run.now <= run.pacer.last_frame + p.target_frame_time + p.target_update_time
            &&& run.pacer.target_frame_time == p.target_frame_time
            &&& run.pacer.target_update_time == p.target_update_time
        }),
    decreases passes,
{
    let run = run_for(p, tracker, now, passes);
    let frame = p.target_frame_time;
    let update = p.target_update_time;
    if passes == 0 {
        assert(run.paced * update == 0) by (nonlinear_arith)
            requires
                run.paced == 0,
        ;
        assert(run.frames * frame == 0) by (nonlinear_arith)
            requires
                run.frames == 0,
        ;
    } else if p.frame_due(now) {
        let rest = run_for(p.after_frame(now), tracker.tick(now), now, (passes - 1) as nat);
        lemma_run_keeps_both_cadences(
            p.after_frame(now),
            tracker.tick(now),
            now,
            (passes - 1) as nat,
        );
        assert(run.frames * frame == frame + rest.frames * frame) by (nonlinear_arith)
            requires
                run.frames == rest.frames + 1,
        ;
    } else {
        let woke = now + p.pause(tracker.since(now));
        let rest = run_for(p, tracker.tick(woke), woke, (passes - 1) as nat);
        lemma_run_keeps_both_cadences(p, tracker.tick(woke), woke, (passes - 1) as nat);
        assert(run.paced * update == update + rest.paced * update) by (nonlinear_arith)
            requires
                run.paced == rest.paced + 1,
        ;
    }
}

} // verus!
