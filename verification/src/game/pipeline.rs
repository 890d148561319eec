//! The three bounded queues between the presentation side and the logic side,
//! and the protocol by which either side stops the other.
//!
//! Events travel to the logic side in a queue that keeps their order and never
//! loses one: when it is full the sender gets the event back and tries again.
//! Frames travel to the presentation side through a single slot: a frame that
//! finds the slot taken is dropped, so at most one frame is ever in flight.
//! The exit signal travels to the presentation side through a single slot as
//! well. No send and no receive ever waits.
//!
//! Where the two sides run apart, the logic side works on a pipeline of its
//! own and trades with the pipeline that both sides reach in one short step,
//! the exchange: what it queued goes over, what is queued for it comes back.
//! Neither side then waits for the other longer than an exchange takes.

use crate::game::error::Error;
use crate::game::input::OsEvent;
use crate::game::runner::Runner;
use std::collections::VecDeque;
use vstd::prelude::*;

verus! {

/// What the presentation side sends to the logic side.
#[derive(Clone, Copy, Debug, PartialEq, Eq)]
pub enum Event {
    /// An event of the window system.
    Os(OsEvent),
    /// The renderer failed; the pipeline is to shut down.
    Crash(Error),
}

/// What the logic side sends to the presentation side.
#[derive(Clone, Copy, Debug, PartialEq, Eq, Structural)]
pub enum FeedbackEvent {
    /// Stop looping.
    Exit,
}

/// Why something was not queued. It comes back with the reason.
#[derive(Debug, PartialEq, Eq)]
pub enum TrySendError<T> {
    /// The queue holds as much as it may.
    Full(T),
    /// The receiving side has stopped.
    Disconnected(T),
}

/// Why nothing was received.
#[derive(Clone, Copy, Debug, PartialEq, Eq, Structural)]
pub enum TryRecvError {
    /// Nothing is queued, and the sending side is still running.
    Empty,
    /// Nothing is queued, and the sending side has stopped.
    Disconnected,
}

/// The pipeline as a value: what is in flight, and which sides are running.
pub struct PipelineView<F> {
    /// The queued events, oldest first.
    pub events: Seq<Event>,
    /// The frame that awaits presentation.
    pub frame: Option<F>,
    /// The signal that awaits the presentation side.
    pub feedback: Option<FeedbackEvent>,
    pub logic_alive: bool,
    pub presentation_alive: bool,
}

impl<F> PipelineView<F> {
    /// No queue holds more than it may, and nothing is queued for a side that
    /// has stopped.
    pub open spec fn wf(self) -> bool {
        &&& self.events.len() <= Runner::EVENT_QUEUE_SIZE
        &&& !self.logic_alive ==> self.events.len() == 0
        &&& !self.presentation_alive ==> self.frame is None && self.feedback is None
    }

    /// Nothing in flight, both sides running.
    pub open spec fn fresh() -> PipelineView<F> {
        PipelineView {
            events: Seq::empty(),
            frame: None,
            feedback: None,
            logic_alive: true,
            presentation_alive: true,
        }
    }

    /// Whether an event sent now is queued.
    pub open spec fn accepts_event(self) -> bool {
        self.logic_alive && self.events.len() < Runner::EVENT_QUEUE_SIZE
    }

    /// The pipeline after an attempt to send `event`: queued behind the others
    /// if there is room and the logic side runs, else nothing changes.
    pub open spec fn after_submit_event(self, event: Event) -> PipelineView<F> {
        if self.accepts_event() {
            PipelineView {
                events: self.events.push(event),
                frame: self.frame,
                feedback: self.feedback,
                logic_alive: self.logic_alive,
                presentation_alive: self.presentation_alive,
            }
        } else {
            self
        }
    }

    /// What an attempt to send `event` reports. A stopped logic side is
    /// reported before a full queue.
    pub open spec fn submit_event_result(self, event: Event) -> Result<(), TrySendError<Event>> {
        if !self.logic_alive {
            Err(TrySendError::Disconnected(event))
        } else if self.events.len() >= Runner::EVENT_QUEUE_SIZE {
            Err(TrySendError::Full(event))
        } else {
            Ok(())
        }
    }

    /// The pipeline after the logic side has tried to take an event: the
    /// oldest one is gone, if there was one.
    pub open spec fn after_next_event(self) -> PipelineView<F> {
        if self.events.len() > 0 {
            PipelineView {
                events: self.events.drop_first(),
                frame: self.frame,
                feedback: self.feedback,
                logic_alive: self.logic_alive,
                presentation_alive: self.presentation_alive,
            }
        } else {
            self
        }
    }

    /// What an attempt to take an event reports: the oldest one if there is
    /// one.
    pub open spec fn next_event_result(self) -> Result<Event, TryRecvError> {
        if self.events.len() > 0 {
            Ok(self.events[0])
        } else if self.presentation_alive {
            Err(TryRecvError::Empty)
        } else {
            Err(TryRecvError::Disconnected)
        }
    }

    /// Whether a frame sent now takes the slot.
    pub open spec fn accepts_frame(self) -> bool {
        self.presentation_alive && self.frame is None
    }

    /// The pipeline after an attempt to hand `frame` over: it takes the slot
    /// if the slot is free, else it is dropped and nothing changes.
    pub open spec fn after_submit_frame(self, frame: F) -> PipelineView<F> {
        if self.accepts_frame() {
            PipelineView {
                events: self.events,
                frame: Some(frame),
                feedback: self.feedback,
                logic_alive: self.logic_alive,
                presentation_alive: self.presentation_alive,
            }
        } else {
            self
        }
    }

    /// The pipeline after the presentation side has tried to take a frame.
    pub open spec fn after_next_frame(self) -> PipelineView<F> {
        PipelineView {
            events: self.events,
            frame: None,
            feedback: self.feedback,
            logic_alive: self.logic_alive,
            presentation_alive: self.presentation_alive,
        }
    }

    /// What an attempt to take a frame reports: the frame in the slot if
    /// there is one.
    pub open spec fn next_frame_result(self) -> Result<F, TryRecvError> {
        match self.frame {
            Some(frame) => Ok(frame),
            None => if self.logic_alive {
                Err(TryRecvError::Empty)
            } else {
                Err(TryRecvError::Disconnected)
            },
        }
    }

    /// Whether an exit signal sent now takes the slot.
    pub open spec fn accepts_feedback(self) -> bool {
        self.presentation_alive && self.feedback is None
    }

    /// The pipeline after the logic side has asked the presentation side to
    /// stop: the signal waits in its slot, unless one waits there already or
    /// nobody is left to read it.
    pub open spec fn after_signal_exit(self) -> PipelineView<F> {
        if self.accepts_feedback() {
            PipelineView {
                events: self.events,
                frame: self.frame,
                feedback: Some(FeedbackEvent::Exit),
                logic_alive: self.logic_alive,
                presentation_alive: self.presentation_alive,
            }
        } else {
            self
        }
    }

    /// The pipeline after the presentation side has tried to take a signal.
    pub open spec fn after_poll_feedback(self) -> PipelineView<F> {
        PipelineView {
            events: self.events,
            frame: self.frame,
            feedback: None,
            logic_alive: self.logic_alive,
            presentation_alive: self.presentation_alive,
        }
    }

    /// What an attempt to take a signal reports.
    pub open spec fn poll_feedback_result(self) -> Result<FeedbackEvent, TryRecvError> {
        match self.feedback {
            Some(signal) => Ok(signal),
            None => if self.logic_alive {
                Err(TryRecvError::Empty)
            } else {
                Err(TryRecvError::Disconnected)
            },
        }
    }

    /// The pipeline after the logic side has stopped. The events that it did
    /// not take are dropped; what it sent stays.
    pub open spec fn after_logic_exit(self) -> PipelineView<F> {
        PipelineView {
            events: Seq::empty(),
            frame: self.frame,
            feedback: self.feedback,
            logic_alive: false,
            presentation_alive: self.presentation_alive,
        }
    }

    /// The pipeline after the presentation side has stopped. The frame and
    /// the signal that it did not take are dropped; what it sent stays.
    pub open spec fn after_presentation_exit(self) -> PipelineView<F> {
        PipelineView {
            events: self.events,
            frame: None,
            feedback: None,
            logic_alive: self.logic_alive,
            presentation_alive: false,
        }
    }

    /// The pipeline after attempts to hand over each of `frames` in turn.
    pub open spec fn after_frames(self, frames: Seq<F>) -> PipelineView<F>
        decreases frames.len(),
    {
        if frames.len() == 0 {
            self
        } else {
            self.after_submit_frame(frames[0]).after_frames(frames.drop_first())
        }
    }

    /// The pipeline after attempts to send each of `events` in turn.
    pub open spec fn after_events(self, events: Seq<Event>) -> PipelineView<F>
        decreases events.len(),
    {
        if events.len() == 0 {
            self
        } else {
            self.after_submit_event(events[0]).after_events(events.drop_first())
        }
    }

    /// The number of frames in flight.
    pub open spec fn frames_in_flight(self) -> nat {
        if self.frame is Some { 1 } else { 0 }
    }

    /// The number of signals in flight.
    pub open spec fn signals_in_flight(self) -> nat {
        if self.feedback is Some { 1 } else { 0 }
    }

    /// This pipeline once it is known which sides run: nothing is kept for a
    /// side that has stopped.
    pub open spec fn agreed(self, logic_alive: bool, presentation_alive: bool) -> PipelineView<F> {
        PipelineView {
            events: if logic_alive { self.events } else { Seq::empty() },
            frame: if presentation_alive { self.frame } else { None },
            feedback: if presentation_alive { self.feedback } else { None },
            logic_alive,
            presentation_alive,
        }
    }

    /// How many events an exchange moves from `shared` to this pipeline, the
    /// logic side's own: all that `shared` holds, as far as there is room.
    pub open spec fn events_moved(self, shared: PipelineView<F>) -> nat {
        let logic_alive = self.logic_alive && shared.logic_alive;
        let waiting = if logic_alive { shared.events.len() } else { 0 };
        let room = if logic_alive && self.events.len() < Runner::EVENT_QUEUE_SIZE {
            (Runner::EVENT_QUEUE_SIZE - self.events.len()) as nat
        } else {
            0
        };
        if waiting < room { waiting } else { room }
    }

    /// This pipeline, the logic side's own, after an exchange with `shared`.
    /// A side runs if both pipelines say so. The oldest events of `shared`
    /// have come over and are queued behind what was here; the frame and the
    /// signal have gone.
    pub open spec fn own_after_exchange(self, shared: PipelineView<F>) -> PipelineView<F> {
        let logic_alive = self.logic_alive && shared.logic_alive;
        let presentation_alive = self.presentation_alive && shared.presentation_alive;
        let own = self.agreed(logic_alive, presentation_alive);
        let other = shared.agreed(logic_alive, presentation_alive);
        PipelineView {
            events: own.events + other.events.subrange(0, self.events_moved(shared) as int),
            frame: None,
            feedback: None,
            logic_alive,
            presentation_alive,
        }
    }

    /// This pipeline, the one that both sides reach, after an exchange with
    /// `own`, the logic side's own. A side runs if both pipelines say so. The
    /// events that went over are gone from the front of the queue. The frame
    /// of the logic side has taken the slot if the slot was free, else it was
    /// dropped; so with the signal.
    pub open spec fn shared_after_exchange(self, own: PipelineView<F>) -> PipelineView<F> {
        let logic_alive = own.logic_alive && self.logic_alive;
        let presentation_alive = own.presentation_alive && self.presentation_alive;
        let near = own.agreed(logic_alive, presentation_alive);
        let far = self.agreed(logic_alive, presentation_alive);
        PipelineView {
            events: far.events.subrange(own.events_moved(self) as int, far.events.len() as int),
            frame: if far.frame is Some { far.frame } else { near.frame },
            feedback: if far.feedback is Some { far.feedback } else { near.feedback },
            logic_alive,
            presentation_alive,
        }
    }
}

/// The queues between the two sides. `F` is a recorded frame.
pub struct Pipeline<F> {
    events: VecDeque<Event>,
    frame: Option<F>,
    feedback: Option<FeedbackEvent>,
    logic_alive: bool,
    presentation_alive: bool,
}

impl<F> View for Pipeline<F> {
    type V = PipelineView<F>;

    closed spec fn view(&self) -> PipelineView<F> {
        PipelineView {
            events: self.events@,
            frame: self.frame,
            feedback: self.feedback,
            logic_alive: self.logic_alive,
            presentation_alive: self.presentation_alive,
        }
    }
}

impl<F> Pipeline<F> {
    /// A pipeline with nothing in flight and both sides running.
    pub fn new() -> (p: Pipeline<F>)
        ensures
            p@ == PipelineView::<F>::fresh(),
            p@.wf(),
    {
        Pipeline {
            events: VecDeque::new(),
            frame: None,
            feedback: None,
            logic_alive: true,
            presentation_alive: true,
        }
    }

    /// Sends an event to the logic side. A full queue hands the event back to
    /// be sent again; a stopped logic side hands it back for good.
    pub fn submit_event(&mut self, event: Event) -> (r: Result<(), TrySendError<Event>>)
        ensures
            final(self)@ == old(self)@.after_submit_event(event),
            old(self)@.wf() ==> final(self)@.wf(),
            r == old(self)@.submit_event_result(event),
    {
        if !self.logic_alive {
            Err(TrySendError::Disconnected(event))
        } else if self.events.len() >= Runner::EVENT_QUEUE_SIZE {
            Err(TrySendError::Full(event))
        } else {
            self.events.push_back(event);
            Ok(())
        }
    }

    /// Takes the oldest queued event.
    pub fn next_event(&mut self) -> (r: Result<Event, TryRecvError>)
        ensures
            final(self)@ == old(self)@.after_next_event(),
            old(self)@.wf() ==> final(self)@.wf(),
            r == old(self)@.next_event_result(),
    {
        match self.events.pop_front() {
            Some(event) => {
                Ok(event)
            },
            None => if self.presentation_alive {
                Err(TryRecvError::Empty)
            } else {
                Err(TryRecvError::Disconnected)
            },
        }
    }

    /// Hands a frame to the presentation side. If a frame still waits there,
    /// the new one is dropped: the frame is neither queued nor tried again.
    /// Says whether the frame took the slot.
    ///
    /// The presentation side outlives the logic side, so a frame is only ever
    /// handed over while it runs.
    pub fn submit_frame(&mut self, frame: F) -> (queued: bool)
        requires
            old(self)@.presentation_alive,
        ensures
            final(self)@ == old(self)@.after_submit_frame(frame),
            old(self)@.wf() ==> final(self)@.wf(),
            queued == old(self)@.accepts_frame(),
    {
        if self.frame.is_none() {
            self.frame = Some(frame);
            true
        } else {
            false
        }
    }

    /// Takes the frame that awaits presentation.
    pub fn next_frame(&mut self) -> (r: Result<F, TryRecvError>)
        ensures
            final(self)@ == old(self)@.after_next_frame(),
            old(self)@.wf() ==> final(self)@.wf(),
            r == old(self)@.next_frame_result(),
    {
        match self.frame.take() {
            Some(frame) => Ok(frame),
            None => if self.logic_alive {
                Err(TryRecvError::Empty)
            } else {
                Err(TryRecvError::Disconnected)
            },
        }
    }

    /// Asks the presentation side to stop. One signal is enough: if one waits
    /// already, or if the presentation side has stopped by itself, nothing
    /// changes. Says whether this call placed the signal.
    pub fn signal_exit(&mut self) -> (placed: bool)
        ensures
            final(self)@ == old(self)@.after_signal_exit(),
            old(self)@.wf() ==> final(self)@.wf(),
            placed == old(self)@.accepts_feedback(),
    {
        if self.presentation_alive && self.feedback.is_none() {
            self.feedback = Some(FeedbackEvent::Exit);
            true
        } else {
            false
        }
    }

    /// Tells the logic side that the renderer has failed. The notice travels
    /// behind the events that are already queued, and is handed back like an
    /// event if it cannot be queued.
    pub fn signal_crash(&mut self, reason: Error) -> (r: Result<(), TrySendError<Event>>)
        ensures
            final(self)@ == old(self)@.after_submit_event(Event::Crash(reason)),
            old(self)@.wf() ==> final(self)@.wf(),
            r == old(self)@.submit_event_result(Event::Crash(reason)),
    {
        self.submit_event(Event::Crash(reason))
    }

    /// Takes the signal that awaits the presentation side.
    pub fn poll_feedback(&mut self) -> (r: Result<FeedbackEvent, TryRecvError>)
        ensures
            final(self)@ == old(self)@.after_poll_feedback(),
            old(self)@.wf() ==> final(self)@.wf(),
            r == old(self)@.poll_feedback_result(),
    {
        match self.feedback.take() {
            Some(signal) => Ok(signal),
            None => if self.logic_alive {
                Err(TryRecvError::Empty)
            } else {
                Err(TryRecvError::Disconnected)
            },
        }
    }

    /// Records that the logic side has stopped.
    pub fn logic_exited(&mut self)
        ensures
            final(self)@ == old(self)@.after_logic_exit(),
            old(self)@.wf() ==> final(self)@.wf(),
    {
        self.events.clear();
        self.logic_alive = false;
    }

    /// Records that the presentation side has stopped.
    pub fn presentation_exited(&mut self)
        ensures
            final(self)@ == old(self)@.after_presentation_exit(),
            old(self)@.wf() ==> final(self)@.wf(),
    {
        self.frame = None;
        self.feedback = None;
        self.presentation_alive = false;
    }

    /// Trades with `shared`, the pipeline that both sides reach. This
    /// pipeline is the logic side's own.
    ///
    /// Both pipelines come to agree on which sides run: a side that either
    /// has recorded as stopped is stopped in both, and what was kept for it
    /// is dropped. The frame that waits here takes the slot of `shared` if
    /// that is free and is dropped if it is not; so with the exit signal. The
    /// events that wait in `shared` come over, oldest first, as far as there
    /// is room here; the others stay where they are.
    pub fn exchange(&mut self, shared: &mut Pipeline<F>)
        ensures
            final(self)@ == old(self)@.own_after_exchange(old(shared)@),
            final(shared)@ == old(shared)@.shared_after_exchange(old(self)@),
            old(self)@.wf() && old(shared)@.wf() ==> final(self)@.wf() && final(shared)@.wf(),
    {
        if !(self.presentation_alive && shared.presentation_alive) {
            self.presentation_exited();
            shared.presentation_exited();
        }
        if !(self.logic_alive && shared.logic_alive) {
            self.logic_exited();
            shared.logic_exited();
        }
        match self.frame.take() {
            Some(frame) => {
                shared.submit_frame(frame);
            },
            None => {},
        }
        match self.feedback.take() {
            Some(signal) => {
                if shared.feedback.is_none() {
                    shared.feedback = Some(signal);
                }
            },
            None => {},
        }
        let ghost own = self@;
        let ghost other = shared@;
        let ghost moved = old(self)@.events_moved(old(shared)@);
        let ghost own_after = old(self)@.own_after_exchange(old(shared)@);
        let ghost shared_after = old(shared)@.shared_after_exchange(old(self)@);
        let mut count: usize = 0;
        while shared.events.len() > 0 && self.events.len() < Runner::EVENT_QUEUE_SIZE
            invariant
                count <= moved,
                count <= other.events.len(),
                self@.events == own.events + other.events.subrange(0, count as int),
                shared@.events == other.events.subrange(count as int, other.events.len() as int),
                own_after == old(self)@.own_after_exchange(old(shared)@),
                shared_after == old(shared)@.shared_after_exchange(old(self)@),
                self@.frame == own_after.frame,
                self@.feedback == own_after.feedback,
                self@.logic_alive == own_after.logic_alive,
                self@.presentation_alive == own_after.presentation_alive,
                shared@.frame == shared_after.frame,
                shared@.feedback == shared_after.feedback,
                shared@.logic_alive == shared_after.logic_alive,
                shared@.presentation_alive == shared_after.presentation_alive,
                own.logic_alive == (old(self)@.logic_alive && old(shared)@.logic_alive),
                own.events == old(self)@.agreed(own.logic_alive, own.presentation_alive).events,
                other.events == old(shared)@.agreed(own.logic_alive, own.presentation_alive).events,
                moved == old(self)@.events_moved(old(shared)@),
                shared@.events.len() > 0 && self@.events.len() < Runner::EVENT_QUEUE_SIZE
                    ==> count < moved,
                !(shared@.events.len() > 0 && self@.events.len() < Runner::EVENT_QUEUE_SIZE)
                    ==> count == moved,
            decreases shared@.events.len(),
        {
            match shared.events.pop_front() {
                Some(event) => {
                    self.events.push_back(event);
                    count = count + 1;
                    proof {
                        assert(self@.events =~= own.events + other.events.subrange(
                            0,
                            count as int,
                        ));
                        assert(shared@.events =~= other.events.subrange(
                            count as int,
                            other.events.len() as int,
                        ));
                    }
                },
                None => {},
            }
        }
        proof {
            assert(self@.events =~= old(self)@.own_after_exchange(old(shared)@).events);
            assert(shared@.events =~= old(shared)@.shared_after_exchange(old(self)@).events);
        }
    }

    /// Whether the logic side runs.
    pub fn logic_alive(&self) -> (b: bool)
        ensures
            b == self@.logic_alive,
    {
        self.logic_alive
    }

    /// Whether the presentation side runs.
    pub fn presentation_alive(&self) -> (b: bool)
        ensures
            b == self@.presentation_alive,
    {
        self.presentation_alive
    }

    /// The number of events that await the logic side.
    pub fn pending_events(&self) -> (n: usize)
        ensures
            n == self@.events.len(),
    {
        self.events.len()
    }

    /// The number of frames that await presentation.
    pub fn pending_frames(&self) -> (n: usize)
        ensures
            n == self@.frames_in_flight(),
    {
        if self.frame.is_some() { 1 } else { 0 }
    }

    /// The number of signals that await the presentation side.
    pub fn pending_feedback(&self) -> (n: usize)
        ensures
            n == self@.signals_in_flight(),
    {
        if self.feedback.is_some() { 1 } else { 0 }
    }
}

/// Whatever either side does, no queue outgrows its bound and nothing is kept
/// for a side that has stopped.
pub proof fn lemma_pipeline_stays_bounded<F>(p: PipelineView<F>, event: Event, frame: F)
    requires
        p.wf(),
    ensures
        p.events.len() <= Runner::EVENT_QUEUE_SIZE,
        p.frames_in_flight() <= Runner::PIC_QUEUE_LENGTH,
        p.signals_in_flight() <= Runner::FEEDBACK_QUEUE_SIZE,
        PipelineView::<F>::fresh().wf(),
        p.after_submit_event(event).wf(),
        p.after_next_event().wf(),
        p.after_submit_frame(frame).wf(),
        p.after_next_frame().wf(),
        p.after_signal_exit().wf(),
        p.after_poll_feedback().wf(),
        p.after_logic_exit().wf(),
        p.after_presentation_exit().wf(),
{
}

/// A frame that finds the slot taken, or nobody to take it, changes nothing,
/// and neither does any frame after it.
pub proof fn lemma_taken_slot_drops<F>(p: PipelineView<F>, frames: Seq<F>)
    requires
        !p.accepts_frame(),
    ensures
        p.after_frames(frames) == p,
    decreases frames.len(),
{
    if frames.len() > 0 {
        lemma_taken_slot_drops(p, frames.drop_first());
    }
}

/// At most one frame is in flight. While the presentation side takes none,
/// however many frames the logic side hands over, the slot holds one frame if
/// any was handed over and none otherwise; the one it holds is the first that
/// found it free, and the queues beside it are untouched.
pub proof fn lemma_at_most_one_frame_in_flight<F>(p: PipelineView<F>, frames: Seq<F>)
    requires
        p.presentation_alive,
    ensures
        p.after_frames(frames).frames_in_flight() == if p.frames_in_flight() + frames.len() < 1 {
            p.frames_in_flight() + frames.len()
        } else {
            1
        },
        p.frame is None && frames.len() > 0 ==> p.after_frames(frames).frame == Some(frames[0]),
        p.frame is Some ==> p.after_frames(frames).frame == p.frame,
        p.after_frames(frames).events == p.events,
        p.after_frames(frames).feedback == p.feedback,
        p.after_frames(frames).logic_alive == p.logic_alive,
        p.after_frames(frames).presentation_alive,
{
    if p.frame is Some {
        lemma_taken_slot_drops(p, frames);
    } else if frames.len() > 0 {
        lemma_taken_slot_drops(p.after_submit_frame(frames[0]), frames.drop_first());
    }
}

/// Events that are sent while there is room are queued behind what was there,
/// in the order in which they were sent, so the logic side takes them in that
/// order.
pub proof fn lemma_events_keep_order<F>(p: PipelineView<F>, events: Seq<Event>)
    requires
        p.logic_alive,
        p.events.len() + events.len() <= Runner::EVENT_QUEUE_SIZE,
    ensures
        p.after_events(events).events == p.events + events,
        p.after_events(events).frame == p.frame,
        p.after_events(events).feedback == p.feedback,
        p.after_events(events).logic_alive,
        p.after_events(events).presentation_alive == p.presentation_alive,
    decreases events.len(),
{
    if events.len() > 0 {
        lemma_events_keep_order(p.after_submit_event(events[0]), events.drop_first());
        assert(p.events.push(events[0]) + events.drop_first() =~= p.events + events);
    } else {
        assert(p.events + events =~= p.events);
    }
}

/// An event that is queued behind others is taken after them: taking from
/// the front and queueing at the back do not disturb each other.
pub proof fn lemma_first_in_first_out<F>(p: PipelineView<F>, event: Event)
    requires
        p.accepts_event(),
    ensures
        p.events.len() == 0 ==> p.after_submit_event(event).next_event_result() == Ok::<
            Event,
            TryRecvError,
        >(event),
        p.events.len() > 0 ==> p.after_submit_event(event).next_event_result()
            == p.next_event_result(),
        p.events.len() > 0 ==> p.after_submit_event(event).after_next_event()
            == p.after_next_event().after_submit_event(event),
{
    if p.events.len() > 0 {
        assert(p.events.push(event).drop_first() =~= p.events.drop_first().push(event));
    }
}

/// Asking the presentation side to stop a second time changes nothing: one
/// signal waits, and it is the one that the first call placed or found.
pub proof fn lemma_exit_signal_idempotent<F>(p: PipelineView<F>)
    ensures
        p.after_signal_exit().after_signal_exit() == p.after_signal_exit(),
        !p.after_signal_exit().accepts_feedback(),
        p.presentation_alive ==> p.after_signal_exit().feedback == Some(FeedbackEvent::Exit),
        p.presentation_alive ==> p.after_signal_exit().poll_feedback_result() == Ok::<
            FeedbackEvent,
            TryRecvError,
        >(FeedbackEvent::Exit),
{
}

/// An exchange loses no event and lets none overtake another: while the
/// logic side runs, the events of the logic side's own pipeline followed by
/// those of the shared one are the same before and after, and those that came
/// over are the oldest of the shared queue. Once the logic side has stopped,
/// neither pipeline keeps an event.
pub proof fn lemma_exchange_keeps_order<F>(own: PipelineView<F>, shared: PipelineView<F>)
    ensures
        own.logic_alive && shared.logic_alive ==> own.own_after_exchange(shared).events
            + shared.shared_after_exchange(own).events == own.events + shared.events,
        own.logic_alive && shared.logic_alive && own.events.len() + shared.events.len()
            <= Runner::EVENT_QUEUE_SIZE ==> own.own_after_exchange(shared).events == own.events
            + shared.events && shared.shared_after_exchange(own).events.len() == 0,
        !(own.logic_alive && shared.logic_alive) ==> own.own_after_exchange(shared).events.len()
            == 0 && shared.shared_after_exchange(own).events.len() == 0,
{
    if own.logic_alive && shared.logic_alive {
        let moved = own.events_moved(shared) as int;
        assert(own.events + shared.events.subrange(0, moved) + shared.events.subrange(
            moved,
            shared.events.len() as int,
        ) =~= own.events + shared.events);
        if own.events.len() + shared.events.len() <= Runner::EVENT_QUEUE_SIZE {
            assert(shared.events.subrange(0, moved) =~= shared.events);
        }
    }
}

/// An exchange sends what the logic side would have sent. While both sides
/// run, the shared pipeline after the exchange holds the frame and the signal
/// that it would hold had the logic side handed its frame and its signal to
/// it directly: a frame that finds the slot taken is dropped, a second signal
/// changes nothing. The logic side's own pipeline keeps neither.
pub proof fn lemma_exchange_sends_as_sent<F>(own: PipelineView<F>, shared: PipelineView<F>)
    requires
        own.logic_alive && shared.logic_alive,
        own.presentation_alive && shared.presentation_alive,
    ensures
        own.own_after_exchange(shared).frame is None,
        own.own_after_exchange(shared).feedback is None,
        shared.shared_after_exchange(own).frame == (match own.frame {
            Some(frame) => shared.after_submit_frame(frame).frame,
            None => shared.frame,
        }),
        shared.shared_after_exchange(own).feedback == (if own.feedback is Some {
            shared.after_signal_exit().feedback
        } else {
            shared.feedback
        }),
        shared.shared_after_exchange(own).frames_in_flight() <= Runner::PIC_QUEUE_LENGTH,
        own.own_after_exchange(shared).logic_alive,
        own.own_after_exchange(shared).presentation_alive,
        shared.shared_after_exchange(own).logic_alive,
        shared.shared_after_exchange(own).presentation_alive,
{
    if own.feedback is Some {
        assert(own.feedback == Some(FeedbackEvent::Exit));
    }
}

/// After an exchange the two pipelines agree on which sides run: a side
/// that either had recorded as stopped is stopped in both, and neither keeps
/// anything for it.
pub proof fn lemma_exchange_spreads_the_stop<F>(own: PipelineView<F>, shared: PipelineView<F>)
    ensures
        own.own_after_exchange(shared).logic_alive == (own.logic_alive && shared.logic_alive),
        shared.shared_after_exchange(own).logic_alive == (own.logic_alive && shared.logic_alive),
        own.own_after_exchange(shared).presentation_alive == (own.presentation_alive
            && shared.presentation_alive),
        shared.shared_after_exchange(own).presentation_alive == (own.presentation_alive
            && shared.presentation_alive),
        !(own.presentation_alive && shared.presentation_alive) ==> shared.shared_after_exchange(
            own,
        ).frame is None && shared.shared_after_exchange(own).feedback is None,
        own.wf() && shared.wf() ==> own.own_after_exchange(shared).wf()
            && shared.shared_after_exchange(own).wf(),
{
}

} // verus!
