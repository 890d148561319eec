//! The presentation side's protocol: when it stops, what becomes of the
//! events that it forwards, and what it does about frames.

use crate::game::error::Error;
use crate::game::input::OsEvent;
use crate::game::pipeline::{Event, FeedbackEvent, PipelineView, TryRecvError};
use crate::game::runner::Runner;
use vstd::prelude::*;

verus! {

/// What became of an event that the presentation side forwards.
#[derive(Clone, Copy, Debug, PartialEq, Eq, Structural)]
pub enum Forward {
    /// The event is queued for the logic side.
    Delivered,
    /// The queue is full. Nothing has changed; forward the same event again.
    Busy,
    /// The presentation side has stopped.
    Stopped,
}

/// What the presentation side does about frames at the end of a pass.
#[derive(Debug, PartialEq, Eq)]
pub enum FramePoll<F> {
    /// Show this frame on the background colour.
    Present(F),
    /// No frame is ready: sleep for the idle span.
    Idle,
    /// The presentation side has stopped.
    Stopped,
}

/// The pipeline after the presentation side has looked for the exit signal.
pub open spec fn after_poll<F>(p: PipelineView<F>) -> PipelineView<F> {
    if p.presentation_alive && p.poll_feedback_result() != Err::<FeedbackEvent, TryRecvError>(
        TryRecvError::Empty,
    ) {
        p.after_poll_feedback().after_presentation_exit()
    } else {
        p
    }
}

/// Whether the presentation side stops when it looks for the exit signal: it
/// has stopped before, the signal waits, or the logic side is gone.
pub open spec fn poll_stops<F>(p: PipelineView<F>) -> bool {
    !p.presentation_alive || p.poll_feedback_result() != Err::<FeedbackEvent, TryRecvError>(
        TryRecvError::Empty,
    )
}

/// What becomes of `event` when the presentation side forwards it.
pub open spec fn forward_result<F>(p: PipelineView<F>, event: Event) -> Forward {
    if !p.presentation_alive || !p.logic_alive {
        Forward::Stopped
    } else if p.accepts_event() {
        Forward::Delivered
    } else {
        Forward::Busy
    }
}

/// The pipeline after the presentation side has forwarded `event`.
pub open spec fn after_forward<F>(p: PipelineView<F>, event: Event) -> PipelineView<F> {
    if !p.presentation_alive {
        p
    } else if !p.logic_alive {
        p.after_presentation_exit()
    } else {
        p.after_submit_event(event)
    }
}

/// The pipeline after the presentation side has reported a renderer failure:
/// once the notice is queued, or nobody is left to read it, the presentation
/// side has stopped.
pub open spec fn after_failure<F>(p: PipelineView<F>, error: Error) -> PipelineView<F> {
    if forward_result(p, Event::Crash(error)) == Forward::Busy || !p.presentation_alive {
        p
    } else {
        p.after_submit_event(Event::Crash(error)).after_presentation_exit()
    }
}

/// What the presentation side does about frames.
pub open spec fn frame_poll<F>(p: PipelineView<F>) -> FramePoll<F> {
    if !p.presentation_alive {
        FramePoll::Stopped
    } else {
        match p.next_frame_result() {
            Ok(frame) => FramePoll::Present(frame),
            Err(TryRecvError::Empty) => FramePoll::Idle,
            Err(TryRecvError::Disconnected) => FramePoll::Stopped,
        }
    }
}

/// The pipeline after the presentation side has looked for a frame.
pub open spec fn after_frame_poll<F>(p: PipelineView<F>) -> PipelineView<F> {
    if !p.presentation_alive {
        p
    } else if p.next_frame_result() == Err::<F, TryRecvError>(TryRecvError::Disconnected) {
        p.after_presentation_exit()
    } else {
        p.after_next_frame()
    }
}

/// What forwarding a batch of events comes to.
pub struct Forwarded<F> {
    /// The pipeline afterwards.
    pub pipeline: PipelineView<F>,
    /// The events that are still to be forwarded, oldest first.
    pub pending: Seq<OsEvent>,
    /// `Delivered` if nothing is left to forward, else what stopped the
    /// forwarding.
    pub outcome: Forward,
}

/// Forwards `events` in their order for as long as each is delivered.
pub open spec fn forward_all<F>(p: PipelineView<F>, events: Seq<OsEvent>) -> Forwarded<F>
    decreases events.len(),
{
    if events.len() == 0 {
        Forwarded { pipeline: p, pending: events, outcome: Forward::Delivered }
    } else if forward_result(p, Event::Os(events[0])) == Forward::Delivered {
        forward_all(after_forward(p, Event::Os(events[0])), events.drop_first())
    } else {
        Forwarded {
            pipeline: after_forward(p, Event::Os(events[0])),
            pending: events,
            outcome: forward_result(p, Event::Os(events[0])),
        }
    }
}

/// What the presentation loop does at the end of a pass.
#[derive(Debug, PartialEq, Eq)]
pub enum Step<F> {
    /// The loop has stopped.
    Stopped,
    /// The event queue is full. The events that were not forwarded are still
    /// pending; make the pass again.
    Busy,
    /// Show this frame on the background colour.
    Present(F),
    /// No frame is ready: sleep for the idle span.
    Idle,
}

/// What a pass of the presentation loop comes to: the exit signal is looked
/// for first, then the pending events are forwarded, then a frame is taken.
pub open spec fn pass_step<F>(p: PipelineView<F>, events: Seq<OsEvent>) -> Step<F> {
    let forwarded = forward_all(after_poll(p), events);
    if poll_stops(p) {
        Step::Stopped
    } else if forwarded.outcome == Forward::Stopped {
        Step::Stopped
    } else if forwarded.outcome == Forward::Busy {
        Step::Busy
    } else {
        match frame_poll(forwarded.pipeline) {
            FramePoll::Present(frame) => Step::Present(frame),
            FramePoll::Idle => Step::Idle,
            FramePoll::Stopped => Step::Stopped,
        }
    }
}

/// The pipeline after a pass of the presentation loop.
pub open spec fn after_pass<F>(p: PipelineView<F>, events: Seq<OsEvent>) -> PipelineView<F> {
    let forwarded = forward_all(after_poll(p), events);
    if poll_stops(p) {
        after_poll(p)
    } else if forwarded.outcome == Forward::Delivered {
        after_frame_poll(forwarded.pipeline)
    } else {
        forwarded.pipeline
    }
}

/// The events that are still pending after a pass of the presentation loop.
pub open spec fn pending_after_pass<F>(p: PipelineView<F>, events: Seq<OsEvent>) -> Seq<OsEvent> {
    if poll_stops(p) {
        events
    } else {
        forward_all(after_poll(p), events).pending
    }
}

/// A side that has stopped attempts nothing: a presentation side that is
/// recorded as stopped forwards no event, takes no frame and no signal, and
/// reports no failure, whatever it is asked to do.
pub proof fn lemma_stopped_side_attempts_nothing<F>(
    p: PipelineView<F>,
    event: Event,
    error: Error,
    pending: Seq<OsEvent>,
)
    requires
        !p.presentation_alive,
    ensures
        poll_stops(p),
        after_poll(p) == p,
        forward_result(p, event) == Forward::Stopped,
        after_forward(p, event) == p,
        frame_poll(p) == FramePoll::<F>::Stopped,
        after_frame_poll(p) == p,
        after_failure(p, error) == p,
        pass_step(p, pending) == Step::<F>::Stopped,
        after_pass(p, pending) == p,
        pending_after_pass(p, pending) == pending,
{
}

/// Forwarding keeps the pipeline within its bounds, and the events that stay
/// pending are the tail of the batch: none is lost and none overtakes
/// another.
pub proof fn lemma_forwarding_stays_bounded<F>(p: PipelineView<F>, events: Seq<OsEvent>)
    requires
        p.wf(),
    ensures
        forward_all(p, events).pipeline.wf(),
        forward_all(p, events).pending.len() <= events.len(),
        forward_all(p, events).pending == events.subrange(
            events.len() - forward_all(p, events).pending.len(),
            events.len() as int,
        ),
        forward_all(p, events).outcome == Forward::Delivered ==> forward_all(p, events).pending.len()
            == 0,
    decreases events.len(),
{
    let pending = forward_all(p, events).pending;
    if events.len() > 0 && forward_result(p, Event::Os(events[0])) == Forward::Delivered {
        let tail = events.drop_first();
        lemma_forwarding_stays_bounded(after_forward(p, Event::Os(events[0])), tail);
        assert(tail.subrange(tail.len() - pending.len(), tail.len() as int) =~= events.subrange(
            events.len() - pending.len(),
            events.len() as int,
        ));
    } else {
        assert(pending =~= events.subrange(0, events.len() as int));
    }
}

/// Events that are forwarded while there is room reach the queue in the order
/// in which the window system reported them, behind what was queued before.
pub proof fn lemma_forwarded_events_keep_order<F>(p: PipelineView<F>, events: Seq<OsEvent>)
    requires
        p.presentation_alive,
        p.logic_alive,
        p.events.len() + events.len() <= Runner::EVENT_QUEUE_SIZE,
    ensures
        forward_all(p, events).outcome == Forward::Delivered,
        forward_all(p, events).pending.len() == 0,
        forward_all(p, events).pipeline.events == p.events + events.map_values(
            |event: OsEvent| Event::Os(event),
        ),
        forward_all(p, events).pipeline.frame == p.frame,
        forward_all(p, events).pipeline.feedback == p.feedback,
        forward_all(p, events).pipeline.logic_alive,
        forward_all(p, events).pipeline.presentation_alive,
    decreases events.len(),
{
    let queued = events.map_values(|event: OsEvent| Event::Os(event));
    if events.len() > 0 {
        let tail = events.drop_first();
        lemma_forwarded_events_keep_order(after_forward(p, Event::Os(events[0])), tail);
        assert(p.events.push(Event::Os(events[0])) + tail.map_values(
            |event: OsEvent| Event::Os(event),
        ) =~= p.events + queued);
    } else {
        assert(p.events + queued =~= p.events);
    }
}

} // verus!
