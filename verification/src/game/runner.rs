//! The runner: the state that the logic side keeps, and the decisions of both
//! loops.
//!
//! The logic loop updates the simulation, takes every queued event, draws a
//! frame when one is due and says for how long to sleep. The presentation
//! loop looks for the exit signal, forwards the events of the window system,
//! and takes the frame that is ready. Either side can stop the other, and
//! once a side has stopped it attempts nothing more.
//!
//! The loops themselves, the clock and the sleeping belong to the embedding
//! program: it calls one function per step and does what the result says.

use crate::game::error::Error;
use crate::game::input::{EventHandleResult, InputState, LogicalSize, OsEvent, Point};
use crate::game::logic::{
    after_drain, after_handling, calls, drain, drain_pass, drain_stops, ends_loop, handling_stops,
    hook_handled, hook_of, hooks_of, hooks_of_all, input_after, input_after_all, input_handled,
    inputs_seen, inputs_seen_in_pass, made_in_turn, states_seen,
    lemma_drain_leaves_a_tail, lemma_loop_stops_at_first_terminal, none_ends_loop, Drained, Hook,
    Pace,
};
use crate::game::pacing::{Pacer, PacerView};
use crate::game::pipeline::{
    lemma_exchange_keeps_order, Event, FeedbackEvent, Pipeline, PipelineView, TryRecvError,
    TrySendError,
};
use crate::game::presentation::{
    after_failure, after_forward, after_frame_poll, after_pass, after_poll, forward_all,
    forward_result, frame_poll, lemma_forwarded_events_keep_order, lemma_forwarding_stays_bounded,
    pass_step, pending_after_pass,
    poll_stops, Forward, FramePoll, Step,
};
use crate::game::time::{TimeState, TimeView};
use crate::game::Game;
use std::collections::VecDeque;
use vstd::prelude::*;

verus! {

/// An identifier that no other identifier of the same run equals.
#[derive(Debug, PartialEq, Eq, Clone, Copy, Structural)]
pub struct ID(u64);

impl ID {
    /// The number behind the identifier.
    pub closed spec fn number(self) -> nat {
        self.0 as nat
    }

    /// Takes the next identifier from the state's generator.
    ///
    /// The generator counts in 64 bits and does not wrap.
    pub fn next(state: &mut State) -> (id: ID)
        requires
            old(state)@.next_id < u64::MAX,
        ensures
            id.number() == old(state)@.next_id,
            final(state)@ == old(state)@.after_id(),
            old(state)@.wf() ==> final(state)@.wf(),
    {
        let number: u64 = state.with_mut(|x: &mut State| -> (n: u64)
            requires
                old(x)@.next_id < u64::MAX,
            ensures
                n == old(x)@.next_id,
                final(x)@ == old(x)@.after_id(),
            {
                let id: u64 = x.id_keeper;
                x.id_keeper += 1;
                id
            });
        ID(number)
    }

    /// The number behind the identifier.
    pub fn value(&self) -> (n: u64)
        ensures
            n == self.number(),
    {
        self.0
    }
}

/// The state of the logic side as a value.
pub struct StateView {
    /// The window size and pointer position.
    pub input: InputState,
    /// The tracker of the update cadence.
    pub update_clock: TimeView,
    /// The tracker of the draw cadence.
    pub draw_clock: TimeView,
    /// The number of the next identifier.
    pub next_id: nat,
}

impl StateView {
    /// Both trackers are well formed.
    pub open spec fn wf(self) -> bool {
        self.update_clock.wf() && self.draw_clock.wf()
    }

    /// The state of a loop that starts at `now` in a window of the given size.
    pub open spec fn started(inner_size: LogicalSize, now: nat) -> StateView {
        StateView {
            input: InputState { window_size: inner_size, mouse_position: Point { x: 0, y: 0 } },
            update_clock: TimeView::started(now),
            draw_clock: TimeView::started(now),
            next_id: 0,
        }
    }

    /// The state after one identifier was taken.
    pub open spec fn after_id(self) -> StateView {
        StateView {
            input: self.input,
            update_clock: self.update_clock,
            draw_clock: self.draw_clock,
            next_id: self.next_id + 1,
        }
    }

    /// The state with another input snapshot.
    pub open spec fn with_input(self, input: InputState) -> StateView {
        StateView {
            input,
            update_clock: self.update_clock,
            draw_clock: self.draw_clock,
            next_id: self.next_id,
        }
    }

    /// The state after a tick of the update cadence at `now`.
    pub open spec fn after_update_tick(self, now: nat) -> StateView {
        StateView {
            input: self.input,
            update_clock: self.update_clock.tick(now),
            draw_clock: self.draw_clock,
            next_id: self.next_id,
        }
    }

    /// The state after a tick of the draw cadence at `now`.
    pub open spec fn after_draw_tick(self, now: nat) -> StateView {
        StateView {
            input: self.input,
            update_clock: self.update_clock,
            draw_clock: self.draw_clock.tick(now),
            next_id: self.next_id,
        }
    }
}

/// What the logic side keeps between the passes of its loop: the input
/// snapshot, one tracker for each cadence, and the identifier generator.
///
/// The logic side owns it. The simulation's hooks read it; only the runner
/// and the identifier generator change it.
pub struct State {
    input_state: InputState,
    time_state: TimeState,
    time_state_draw: TimeState,
    id_keeper: u64,
}

impl View for State {
    type V = StateView;

    closed spec fn view(&self) -> StateView {
        StateView {
            input: self.input_state,
            update_clock: self.time_state@,
            draw_clock: self.time_state_draw@,
            next_id: self.id_keeper as nat,
        }
    }
}

impl State {
    /// The state of a loop that starts at `now` in a window of the given size.
    pub fn new(inner_size: LogicalSize, now: u64) -> (state: State)
        ensures
            state@ == StateView::started(inner_size, now as nat),
            state@.wf(),
    {
        State {
            input_state: InputState::new(inner_size),
            time_state: TimeState::new(now),
            time_state_draw: TimeState::new(now),
            id_keeper: 0,
        }
    }

    /// Runs `f` on the state and hands back what it returns.
    #[inline]
    pub fn with<F, R>(&self, f: F) -> (r: R) where F: FnOnce(&State) -> R
        requires
            f.requires((self,)),
        ensures
            f.ensures((self,), r),
    {
        f(self)
    }

    /// Runs `f` on the state, which it may change, and hands back what it
    /// returns.
    #[inline]
    pub fn with_mut<F, R>(&mut self, f: F) -> (r: R) where F: FnOnce(&mut State) -> R
        requires
            forall|x: &mut State| *x == *old(self) ==> #[trigger] f.requires((x,)),
        ensures
            exists|x: &mut State|
                *x == *old(self) && *final(x) == *final(self) && #[trigger] f.ensures((x,), r),
    {
        f(self)
    }

    /// The span between the latest two ticks of the update cadence.
    pub fn last_update_time(&self) -> (d: u64)
        ensures
            d == self@.update_clock.delta,
    {
        self.time_state.last_update_time()
    }

    /// The span from the start of the loop to the latest tick of the update
    /// cadence.
    pub fn elapsed(&self) -> (d: u64)
        ensures
            d == self@.update_clock.elapsed(),
    {
        self.time_state.elapsed()
    }

    /// The span between the latest two ticks of the draw cadence.
    pub fn last_update_time_draw(&self) -> (d: u64)
        ensures
            d == self@.draw_clock.delta,
    {
        self.time_state_draw.last_update_time()
    }

    /// The span from the start of the loop to the latest tick of the draw
    /// cadence.
    pub fn elapsed_draw(&self) -> (d: u64)
        ensures
            d == self@.draw_clock.elapsed(),
    {
        self.time_state_draw.elapsed()
    }

    /// The current pointer position.
    pub fn mouse_position(&self) -> (p: Point)
        ensures
            p == self@.input.mouse_position,
    {
        self.input_state.mouse_position
    }

    /// The current window size.
    pub fn window_size(&self) -> (s: LogicalSize)
        ensures
            s == self@.input.window_size,
    {
        self.input_state.window_size
    }

    /// The input snapshot.
    pub fn input_state(&self) -> (s: InputState)
        ensures
            s == self@.input,
    {
        self.input_state
    }

    /// The tracker of the update cadence.
    pub fn time_state(&self) -> (t: &TimeState)
        ensures
            t@ == self@.update_clock,
    {
        &self.time_state
    }

    /// The tracker of the draw cadence.
    pub fn time_state_draw(&self) -> (t: &TimeState)
        ensures
            t@ == self@.draw_clock,
    {
        &self.time_state_draw
    }

    /// The number of the next identifier: how many have been taken.
    pub fn next_id(&self) -> (n: u64)
        ensures
            n == self@.next_id,
    {
        self.id_keeper
    }

    /// The span from the latest tick of the update cadence to `now`.
    pub fn since_update(&self, now: u64) -> (d: u64)
        ensures
            d == self@.update_clock.since(now as nat),
    {
        self.time_state.since_last_update(now)
    }

    /// Ticks the update cadence at `now`. The logic loop does so once at the
    /// end of each pass, after it has slept.
    pub fn tick(&mut self, now: u64)
        ensures
            final(self)@ == old(self)@.after_update_tick(now as nat),
            old(self)@.wf() ==> final(self)@.wf(),
    {
        self.time_state.update(now);
    }

    /// Ticks the draw cadence at `now`. The logic loop does so once for each
    /// frame that it draws.
    pub fn tick_draw(&mut self, now: u64)
        ensures
            final(self)@ == old(self)@.after_draw_tick(now as nat),
            old(self)@.wf() ==> final(self)@.wf(),
    {
        self.time_state_draw.update(now);
    }

    /// Takes one event of the window system into the input snapshot and says
    /// what the runner is to do with it.
    pub fn handle_event(&mut self, event: &OsEvent) -> (r: Option<EventHandleResult>)
        ensures
            final(self)@ == old(self)@.with_input(old(self)@.input.after(*event)),
            old(self)@.wf() ==> final(self)@.wf(),
            r == InputState::outcome(*event),
    {
        self.input_state.handle_event(event)
    }
}

/// The entry points of the two loops.
pub struct Runner;

impl Runner {
    /// How many frames may await presentation.
    pub const PIC_QUEUE_LENGTH: usize = 1;

    /// How many events may await the logic side.
    pub const EVENT_QUEUE_SIZE: usize = 8;

    /// How many signals may await the presentation side.
    pub const FEEDBACK_QUEUE_SIZE: usize = 1;

    /// The least span between two updates, in nanoseconds: a thousand
    /// updates a second.
    pub const TARGET_UPDATE_TIME: u64 = 1_000_000;

    /// The least span between two frames, in nanoseconds: a hundred and
    /// twenty-five frames a second.
    pub const TARGET_FRAME_TIME: u64 = 8_000_000;

    /// For how long the presentation side sleeps when no frame is ready, in
    /// nanoseconds.
    pub const IDLE_SLEEP: u64 = 1_000_000;

    /// The colour behind every frame, as alpha, red, green and blue.
    pub const BACKGROUND: u32 = 0xFF0A_0A0A;

    /// The prologue of the logic side at the instant `now`: sets up the
    /// state for a window of the given size, builds the simulation with it,
    /// tells the simulation the window size, and sets the pacer's mark.
    ///
    /// `make` gets the fresh state and may take identifiers from it. The
    /// state that comes back is the one that `make` left; the simulation that
    /// comes back is the one that `make` built, after it was told the size.
    pub fn start<G: Game, F>(make: F, inner_size: LogicalSize, now: u64) -> (started: (
        G,
        State,
        Pacer,
    )) where F: FnOnce(&mut State) -> G
        requires
            forall|x: &mut State|
                x@ == StateView::started(inner_size, now as nat) ==> #[trigger] make.requires((x,)),
        ensures
            started.2@ == PacerView::marked(now as nat),
            exists|x: &mut State, built: G|
                {
                    &&& x@ == StateView::started(inner_size, now as nat)
                    &&& *final(x) == started.1
                    &&& #[trigger] make.ensures((x,), built)
                    &&& exists|told: &mut G|
                        {
                            &&& *told == built
                            &&& *final(told) == started.0
                            &&& #[trigger] call_ensures(
                                G::set_size,
                                (told, started.1@.input.window_size),
                                (),
                            )
                        }
                },
    {
        let mut state = State::new(inner_size, now);
        let mut game = make(&mut state);
        game.set_size(state.window_size());
        (game, state, Pacer::new(now))
    }

    /// Takes `event` into the state and says which hook it asks for.
    pub fn hook_for(state: &mut State, event: Event) -> (hook: Option<Hook>)
        ensures
            hook == hook_of(event),
            final(state)@ == old(state)@.with_input(input_after(old(state)@.input, event)),
            old(state)@.wf() ==> final(state)@.wf(),
    {
        match event {
            Event::Os(os) => match state.handle_event(&os) {
                Some(EventHandleResult::Input(input)) => Some(Hook::Input(input)),
                Some(EventHandleResult::Resized(size)) => Some(Hook::Resized(size)),
                Some(EventHandleResult::Exit) => Some(Hook::Close),
                None => None,
            },
            Event::Crash(error) => Some(Hook::Crash(error)),
        }
    }

    /// Handles one event on the logic side: takes it into the state and calls
    /// the hook that it asks for, once, with the state as it is after the
    /// event. An event that asks for no hook leaves the simulation alone. An
    /// event that stops the loop has its hook called first; after that the
    /// presentation side is asked to stop and the logic side is recorded as
    /// stopped. Once the logic side has stopped, no event is handled: no hook
    /// is called, and nothing changes. Says whether the loop stops.
    pub fn handle_event<G: Game>(
        game: &mut G,
        state: &mut State,
        event: Event,
        pipeline: &mut Pipeline<G::Frame>,
    ) -> (stop: bool)
        ensures
            stop == handling_stops(old(pipeline)@, event),
            final(state)@ == old(state)@.with_input(
                input_handled(old(pipeline)@, old(state)@.input, event),
            ),
            old(state)@.wf() ==> final(state)@.wf(),
            final(pipeline)@ == after_handling(old(pipeline)@, event),
            old(pipeline)@.wf() ==> final(pipeline)@.wf(),
            match hook_handled(old(pipeline)@, event) {
                Some(hook) => exists|made: &mut G|
                    *made == *old(game) && *final(made) == *final(game) && #[trigger] calls(
                        made,
                        *final(state),
                        hook,
                    ),
                None => *final(game) == *old(game),
            },
    {
        if !pipeline.logic_alive() {
            return true;
        }
        match Runner::hook_for(state, event) {
            Some(hook) => {
                Runner::call(game, state, hook);
                if hook.is_terminal() {
                    pipeline.signal_exit();
                    pipeline.logic_exited();
                    true
                } else {
                    false
                }
            },
            None => false,
        }
    }

    /// Makes one call on the simulation: the one that `hook` names, with
    /// what `hook` carries.
    fn call<G: Game>(game: &mut G, state: &State, hook: Hook)
        ensures
            exists|made: &mut G|
                *made == *old(game) && *final(made) == *final(game) && #[trigger] calls(
                    made,
                    *state,
                    hook,
                ),
    {
        match hook {
            Hook::Input(input) => {
                game.input(state, input);
                proof {
                    let made = choose|made: &mut G|
                        *made == *old(game) && *final(made) == *game && #[trigger] call_ensures(
                            G::input,
                            (made, state, input),
                            (),
                        );
                    assert(calls(made, *state, hook));
                }
            },
            Hook::Resized(size) => {
                game.set_size(size);
                proof {
                    let made = choose|made: &mut G|
                        *made == *old(game) && *final(made) == *game && #[trigger] call_ensures(
                            G::set_size,
                            (made, size),
                            (),
                        );
                    assert(calls(made, *state, hook));
                }
            },
            Hook::Close => {
                game.close();
                proof {
                    let made = choose|made: &mut G|
                        *made == *old(game) && *final(made) == *game && #[trigger] call_ensures(
                            G::close,
                            (made,),
                            (),
                        );
                    assert(calls(made, *state, hook));
                }
            },
            Hook::Crash(error) => {
                game.crash(error);
                proof {
                    let made = choose|made: &mut G|
                        *made == *old(game) && *final(made) == *game && #[trigger] call_ensures(
                            G::crash,
                            (made, error),
                            (),
                        );
                    assert(calls(made, *state, hook));
                }
            },
        }
    }

    /// Takes every queued event, oldest first, and handles each: the hooks
    /// that the events ask for are called one after another, in the order of
    /// the events, each with the state as it is after its event. Stops at the
    /// first event that stops the loop; what lies behind it is never handled.
    /// Says whether the loop stops: an event said so, or the queue is empty
    /// and the presentation side is gone, or the logic side had stopped
    /// before. When the loop stops the logic side is recorded as stopped, and
    /// once it has stopped no event is taken and no hook is called.
    pub fn drain_events<G: Game>(
        game: &mut G,
        state: &mut State,
        pipeline: &mut Pipeline<G::Frame>,
    ) -> (stop: bool)
        ensures
            stop == drain_stops(old(pipeline)@, old(state)@.input),
            final(state)@ == old(state)@.with_input(
                drain_pass(old(pipeline)@, old(state)@.input).input,
            ),
            final(pipeline)@ == after_drain(old(pipeline)@, old(state)@.input),
            old(state)@.wf() ==> final(state)@.wf(),
            old(pipeline)@.wf() ==> final(pipeline)@.wf(),
            exists|made: Seq<&mut G>, left: Seq<G>, states: Seq<State>|
                {
                    &&& #[trigger] made_in_turn(
                        *old(game),
                        *final(game),
                        made,
                        left,
                        states,
                        drain_pass(old(pipeline)@, old(state)@.input).hooks,
                    )
                    &&& forall|i: int| 0 <= i < made.len() ==> *final(#[trigger] made[i]) == left[i]
                    &&& states_seen(
                        states,
                        old(state)@,
                        inputs_seen_in_pass(old(pipeline)@, old(state)@.input),
                    )
                },
    {
        if !pipeline.logic_alive() {
            proof {
                assert(made_in_turn(
                    *old(game),
                    *game,
                    Seq::<&mut G>::empty(),
                    Seq::<G>::empty(),
                    Seq::<State>::empty(),
                    drain_pass(old(pipeline)@, old(state)@.input).hooks,
                ));
                assert(states_seen(
                    Seq::<State>::empty(),
                    old(state)@,
                    inputs_seen_in_pass(old(pipeline)@, old(state)@.input),
                ));
            }
            return true;
        }
        let ghost hooks = drain(state@.input, pipeline@.events).hooks;
        let ghost inputs = inputs_seen(state@.input, pipeline@.events);
        let ghost mut hooks_done: Seq<Hook> = Seq::empty();
        let ghost mut inputs_done: Seq<InputState> = Seq::empty();
        proof {
            assert(hooks =~= hooks_done + hooks);
            assert(inputs =~= inputs_done + inputs);
            assert(made_in_turn(
                *old(game),
                *game,
                Seq::<&mut G>::empty(),
                Seq::<G>::empty(),
                Seq::<State>::empty(),
                hooks_done,
            ));
        }
        loop
            invariant
                drain(state@.input, pipeline@.events).input == drain(
                    old(state)@.input,
                    old(pipeline)@.events,
                ).input,
                drain(state@.input, pipeline@.events).rest == drain(
                    old(state)@.input,
                    old(pipeline)@.events,
                ).rest,
                drain(state@.input, pipeline@.events).stopped == drain(
                    old(state)@.input,
                    old(pipeline)@.events,
                ).stopped,
                state@ == old(state)@.with_input(state@.input),
                pipeline@.frame == old(pipeline)@.frame,
                pipeline@.feedback == old(pipeline)@.feedback,
                pipeline@.logic_alive,
                old(pipeline)@.logic_alive,
                pipeline@.presentation_alive == old(pipeline)@.presentation_alive,
                old(pipeline)@.wf() ==> pipeline@.wf(),
                old(state)@.wf() ==> state@.wf(),
                hooks == drain(old(state)@.input, old(pipeline)@.events).hooks,
                inputs == inputs_seen(old(state)@.input, old(pipeline)@.events),
                hooks == hooks_done + drain(state@.input, pipeline@.events).hooks,
                inputs == inputs_done + inputs_seen(state@.input, pipeline@.events),
                exists|made: Seq<&mut G>, left: Seq<G>, states: Seq<State>|
                    {
                        &&& #[trigger] made_in_turn(
                            *old(game),
                            *game,
                            made,
                            left,
                            states,
                            hooks_done,
                        )
                        &&& forall|i: int|
                            0 <= i < made.len() ==> *final(#[trigger] made[i]) == left[i]
                        &&& states_seen(states, old(state)@, inputs_done)
                    },
            decreases pipeline@.events.len(),
        {
            let ghost queued = pipeline@.events;
            let ghost before = *game;
            let ghost hooks_before = hooks_done;
            let ghost inputs_before = inputs_done;
            match pipeline.next_event() {
                Ok(event) => {
                    let stop = Runner::handle_event(game, state, event, pipeline);
                    proof {
                        let rest = drain(state@.input, queued.drop_first()).hooks;
                        let seen = inputs_seen(state@.input, queued.drop_first());
                        let (made, left, states) = choose|
                            made: Seq<&mut G>,
                            left: Seq<G>,
                            states: Seq<State>,
                        |
                            {
                                &&& #[trigger] made_in_turn(
                                    *old(game),
                                    before,
                                    made,
                                    left,
                                    states,
                                    hooks_before,
                                )
                                &&& forall|i: int|
                                    0 <= i < made.len() ==> *final(#[trigger] made[i]) == left[i]
                                &&& states_seen(states, old(state)@, inputs_before)
                            };
                        match hook_of(event) {
                            Some(hook) => {
                                let call = choose|call: &mut G|
                                    *call == before && *final(call) == *game && #[trigger] calls(
                                        call,
                                        *state,
                                        hook,
                                    );
                                hooks_done = hooks_before.push(hook);
                                inputs_done = inputs_before.push(state@.input);
                                if stop {
                                    assert(hooks =~= hooks_done);
                                    assert(inputs =~= inputs_done);
                                } else {
                                    assert(hooks =~= hooks_done + rest);
                                    assert(inputs =~= inputs_done + seen);
                                }
                                let made_now = made.push(call);
                                let left_now = left.push(*game);
                                let states_now = states.push(*state);
                                assert forall|i: int| 0 <= i < hooks_done.len() implies #[trigger] calls(
                                    made_now[i],
                                    states_now[i],
                                    hooks_done[i],
                                ) by {
                                    if i < hooks_before.len() {
                                        assert(calls(made[i], states[i], hooks_before[i]));
                                    }
                                }
                                assert(made_in_turn(
                                    *old(game),
                                    *game,
                                    made_now,
                                    left_now,
                                    states_now,
                                    hooks_done,
                                ));
                                assert(states_seen(states_now, old(state)@, inputs_done));
                            },
                            None => {
                                assert(hooks =~= hooks_done + rest);
                                assert(inputs =~= inputs_done + seen);
                                assert(made_in_turn(
                                    *old(game),
                                    *game,
                                    made,
                                    left,
                                    states,
                                    hooks_done,
                                ));
                            },
                        }
                    }
                    if stop {
                        return true;
                    }
                },
                Err(TryRecvError::Empty) => {
                    proof {
                        assert(hooks =~= hooks_done);
                        assert(inputs =~= inputs_done);
                    }
                    return false;
                },
                Err(TryRecvError::Disconnected) => {
                    proof {
                        assert(hooks =~= hooks_done);
                        assert(inputs =~= inputs_done);
                    }
                    pipeline.logic_exited();
                    return true;
                },
            }
        }
    }

    /// One pass of the logic loop at the instant `now`, up to its sleep.
    ///
    /// Updates the simulation, then takes every queued event. If the loop
    /// stops there, the logic side is recorded as stopped. Else, if a frame
    /// is due, the simulation draws one, the frame is handed over or dropped,
    /// and the draw cadence ticks; if none is due, the pass ends with the
    /// sleep that fills the update interval. The caller sleeps and then ticks
    /// the update cadence.
    ///
    /// The calls on the simulation are these, in this order: `update`, once,
    /// with the state as the pass found it; the hooks that the events ask
    /// for; and, if a frame is due, `draw` with the state after the events
    /// and the size of the window. The frame that is handed over is the one
    /// that `draw` returned.
    ///
    /// Once the logic side has stopped, a pass attempts nothing: it calls no
    /// hook, draws no frame, and changes nothing.
    pub fn game_thread<G: Game>(
        game: &mut G,
        state: &mut State,
        pacer: &mut Pacer,
        pipeline: &mut Pipeline<G::Frame>,
        now: u64,
    ) -> (pace: Pace)
        ensures
            ({
                let drained = drain_pass(old(pipeline)@, old(state)@.input);
                let taken = after_drain(old(pipeline)@, old(state)@.input);
                let stop = drain_stops(old(pipeline)@, old(state)@.input);
                let due = old(pacer)@.frame_due(now as nat);
                let input = old(state)@.with_input(drained.input);
                &&& stop ==> {
                    &&& pace == Pace::Stop
                    &&& final(state)@ == input
                    &&& final(pacer)@ == old(pacer)@
                    &&& final(pipeline)@ == taken
                }
                &&& !stop && due ==> {
                    &&& pace == Pace::Resume { after: 0 }
                    &&& final(state)@ == input.after_draw_tick(now as nat)
                    &&& final(pacer)@ == old(pacer)@.after_frame(now as nat)
                    &&& exists|seen: State, frame: G::Frame|
                        {
                            &&& seen@ == input
                            &&& #[trigger] call_ensures(
                                G::draw,
                                (&*final(game), &seen, input.input.window_size),
                                frame,
                            )
                            &&& final(pipeline)@ == taken.after_submit_frame(frame)
                        }
                }
                &&& !stop && !due ==> {
                    &&& pace == Pace::Resume {
                        after: old(pacer)@.pause(
                            old(state)@.update_clock.since(now as nat),
                        ) as u64,
                    }
                    &&& final(state)@ == input
                    &&& final(pacer)@ == old(pacer)@
                    &&& final(pipeline)@ == taken
                }
            }),
            old(state)@.wf() ==> final(state)@.wf(),
            old(pipeline)@.wf() ==> final(pipeline)@.wf(),
            !old(pipeline)@.logic_alive ==> *final(game) == *old(game),
            old(pipeline)@.logic_alive ==> exists|update: &mut G|
                {
                    &&& *update == *old(game)
                    &&& #[trigger] call_ensures(G::update, (update, &*old(state)), ())
                    &&& exists|made: Seq<&mut G>, left: Seq<G>, states: Seq<State>|
                        {
                            &&& #[trigger] made_in_turn(
                                *final(update),
                                *final(game),
                                made,
                                left,
                                states,
                                drain(old(state)@.input, old(pipeline)@.events).hooks,
                            )
                            &&& forall|i: int|
                                0 <= i < made.len() ==> *final(#[trigger] made[i]) == left[i]
                            &&& states_seen(
                                states,
                                old(state)@,
                                inputs_seen(old(state)@.input, old(pipeline)@.events),
                            )
                        }
                },
    {
        if !pipeline.logic_alive() {
            return Pace::Stop;
        }
        game.update(state);
        if Runner::drain_events(game, state, pipeline) {
            return Pace::Stop;
        }
        if pacer.begin_frame(now) {
            let frame = game.draw(state, state.window_size());
            pipeline.submit_frame(frame);
            state.tick_draw(now);
            Pace::Resume { after: 0 }
        } else {
            Pace::Resume { after: pacer.pause(state.since_update(now)) }
        }
    }

    /// The first step of a pass of the presentation loop: looks for the exit
    /// signal. Says whether the loop stops: the signal was there, the logic
    /// side is gone, or the loop had stopped before. A loop that stops here
    /// forwards no event and takes no frame.
    pub fn poll_feedback<F>(pipeline: &mut Pipeline<F>) -> (stop: bool)
        ensures
            stop == poll_stops(old(pipeline)@),
            final(pipeline)@ == after_poll(old(pipeline)@),
            old(pipeline)@.wf() ==> final(pipeline)@.wf(),
    {
        if !pipeline.presentation_alive() {
            return true;
        }
        match pipeline.poll_feedback() {
            Ok(FeedbackEvent::Exit) => {
                pipeline.presentation_exited();
                true
            },
            Err(TryRecvError::Empty) => {
                false
            },
            Err(TryRecvError::Disconnected) => {
                pipeline.presentation_exited();
                true
            },
        }
    }

    /// Forwards one event of the window system to the logic side. If the
    /// logic side is gone, the presentation side stops.
    pub fn forward_event<F>(pipeline: &mut Pipeline<F>, event: OsEvent) -> (r: Forward)
        ensures
            r == forward_result(old(pipeline)@, Event::Os(event)),
            final(pipeline)@ == after_forward(old(pipeline)@, Event::Os(event)),
            old(pipeline)@.wf() ==> final(pipeline)@.wf(),
    {
        if !pipeline.presentation_alive() {
            return Forward::Stopped;
        }
        match pipeline.submit_event(Event::Os(event)) {
            Ok(()) => Forward::Delivered,
            Err(TrySendError::Full(_)) => Forward::Busy,
            Err(TrySendError::Disconnected(_)) => {
                pipeline.presentation_exited();
                Forward::Stopped
            },
        }
    }

    /// The last step of a pass of the presentation loop: takes the frame that
    /// is ready. If none is ready and the logic side is gone, the
    /// presentation side stops.
    pub fn next_frame<F>(pipeline: &mut Pipeline<F>) -> (r: FramePoll<F>)
        ensures
            r == frame_poll(old(pipeline)@),
            final(pipeline)@ == after_frame_poll(old(pipeline)@),
            old(pipeline)@.wf() ==> final(pipeline)@.wf(),
    {
        if !pipeline.presentation_alive() {
            return FramePoll::Stopped;
        }
        match pipeline.next_frame() {
            Ok(frame) => FramePoll::Present(frame),
            Err(TryRecvError::Empty) => FramePoll::Idle,
            Err(TryRecvError::Disconnected) => {
                pipeline.presentation_exited();
                FramePoll::Stopped
            },
        }
    }

    /// Forwards the pending events of the window system to the logic side,
    /// oldest first, for as long as each is delivered. An event that finds
    /// the queue full stays pending, and so does every event behind it.
    pub fn forward_events<F>(pipeline: &mut Pipeline<F>, pending: &mut VecDeque<OsEvent>) -> (r:
        Forward)
        ensures
            ({
                let forwarded = forward_all(old(pipeline)@, old(pending)@);
                &&& r == forwarded.outcome
                &&& final(pipeline)@ == forwarded.pipeline
                &&& final(pending)@ == forwarded.pending
            }),
            old(pipeline)@.wf() ==> final(pipeline)@.wf(),
    {
        loop
            invariant
                forward_all(old(pipeline)@, old(pending)@) == forward_all(pipeline@, pending@),
                old(pipeline)@.wf() ==> pipeline@.wf(),
            decreases pending@.len(),
        {
            if pending.len() == 0 {
                return Forward::Delivered;
            }
            let event = pending[0];
            match Runner::forward_event(pipeline, event) {
                Forward::Delivered => {
                    pending.pop_front();
                },
                Forward::Busy => {
                    return Forward::Busy;
                },
                Forward::Stopped => {
                    return Forward::Stopped;
                },
            }
        }
    }

    /// One pass of the presentation loop, up to the drawing.
    ///
    /// Looks for the exit signal; if the loop goes on, forwards the pending
    /// events of the window system; if all of them went through, takes the
    /// frame that is ready. The caller reads the window system before the
    /// pass, and after it shows the frame, sleeps, or stops, as the result
    /// says.
    pub fn run<F>(pipeline: &mut Pipeline<F>, pending: &mut VecDeque<OsEvent>) -> (step: Step<F>)
        ensures
            step == pass_step(old(pipeline)@, old(pending)@),
            final(pipeline)@ == after_pass(old(pipeline)@, old(pending)@),
            old(pipeline)@.wf() ==> final(pipeline)@.wf(),
            final(pending)@ == pending_after_pass(old(pipeline)@, old(pending)@),
    {
        if Runner::poll_feedback(pipeline) {
            return Step::Stopped;
        }
        match Runner::forward_events(pipeline, pending) {
            Forward::Stopped => Step::Stopped,
            Forward::Busy => Step::Busy,
            Forward::Delivered => match Runner::next_frame(pipeline) {
                FramePoll::Present(frame) => Step::Present(frame),
                FramePoll::Idle => Step::Idle,
                FramePoll::Stopped => Step::Stopped,
            },
        }
    }

    /// Reports that the renderer failed to present a frame. The failure is
    /// sent to the logic side as a crash notice, behind the events that are
    /// queued, and the presentation side stops. While the queue is full
    /// nothing changes and the report is to be made again.
    pub fn renderer_failed<F>(pipeline: &mut Pipeline<F>, code: ash::vk::Result) -> (r: Forward)
        ensures
            r == forward_result(old(pipeline)@, Event::Crash(Error::RendererError(code))),
            final(pipeline)@ == after_failure(old(pipeline)@, Error::RendererError(code)),
            old(pipeline)@.wf() ==> final(pipeline)@.wf(),
    {
        if !pipeline.presentation_alive() {
            return Forward::Stopped;
        }
        let error = Error::from(code);
        match pipeline.signal_crash(error) {
            Ok(()) => {
                pipeline.presentation_exited();
                Forward::Delivered
            },
            Err(TrySendError::Full(_)) => Forward::Busy,
            Err(TrySendError::Disconnected(_)) => {
                pipeline.presentation_exited();
                Forward::Stopped
            },
        }
    }
}

/// Input reaches the simulation in order. When the presentation side
/// forwards a batch of events of the window system and then a request to
/// close, and all of them find room, the logic side calls the hooks of the
/// batch in the order in which the window system reported the events, then
/// calls `close`, once, and stops.
pub proof fn lemma_input_is_handled_in_order<F>(
    p: PipelineView<F>,
    input: InputState,
    events: Seq<OsEvent>,
)
    requires
        p.presentation_alive,
        p.logic_alive,
        p.events.len() == 0,
        events.len() < Runner::EVENT_QUEUE_SIZE,
        forall|i: int| 0 <= i < events.len() ==> events[i] != OsEvent::Quit,
    ensures
        forward_all(p, events.push(OsEvent::Quit)).outcome == Forward::Delivered,
        drain(input, forward_all(p, events.push(OsEvent::Quit)).pipeline.events) == (Drained {
            input: input_after_all(input, events.map_values(|event: OsEvent| Event::Os(event))),
            hooks: hooks_of_all(events.map_values(|event: OsEvent| Event::Os(event))).push(
                Hook::Close,
            ),
            rest: Seq::empty(),
            stopped: true,
        }),
{
    let close = Event::Os(OsEvent::Quit);
    let queued = events.map_values(|event: OsEvent| Event::Os(event));
    let batch = events.push(OsEvent::Quit);
    lemma_forwarded_events_keep_order(p, batch);
    assert(batch.map_values(|event: OsEvent| Event::Os(event)) =~= queued.push(close));
    assert(p.events + queued.push(close) =~= queued + seq![close] + Seq::<Event>::empty());
    assert forall|i: int| 0 <= i < queued.len() implies !ends_loop(#[trigger] queued[i]) by {
        assert(events[i] != OsEvent::Quit);
    }
    lemma_loop_stops_at_first_terminal(input, queued, close, Seq::empty());
    assert(hooks_of_all(queued) + hooks_of(close) =~= hooks_of_all(queued).push(Hook::Close));
}

/// Input reaches the simulation in order across an exchange as well. When
/// the presentation side forwards a batch of events and then a request to
/// close to the shared pipeline, and the logic side takes them over in an
/// exchange, it calls the hooks of the batch in the order in which the window
/// system reported the events, then calls `close`, once, and stops.
pub proof fn lemma_input_is_handled_in_order_after_exchange<F>(
    own: PipelineView<F>,
    shared: PipelineView<F>,
    input: InputState,
    events: Seq<OsEvent>,
)
    requires
        own.logic_alive,
        own.events.len() == 0,
        shared.presentation_alive,
        shared.logic_alive,
        shared.events.len() == 0,
        events.len() < Runner::EVENT_QUEUE_SIZE,
        forall|i: int| 0 <= i < events.len() ==> events[i] != OsEvent::Quit,
    ensures
        drain(
            input,
            own.own_after_exchange(
                forward_all(shared, events.push(OsEvent::Quit)).pipeline,
            ).events,
        ) == (Drained {
            input: input_after_all(input, events.map_values(|event: OsEvent| Event::Os(event))),
            hooks: hooks_of_all(events.map_values(|event: OsEvent| Event::Os(event))).push(
                Hook::Close,
            ),
            rest: Seq::empty(),
            stopped: true,
        }),
{
    let sent = forward_all(shared, events.push(OsEvent::Quit)).pipeline;
    lemma_input_is_handled_in_order(shared, input, events);
    lemma_forwarded_events_keep_order(shared, events.push(OsEvent::Quit));
    lemma_exchange_keeps_order(own, sent);
    assert(own.own_after_exchange(sent).events =~= sent.events);
}

/// A renderer failure reaches the simulation once. When the presentation side
/// reports the failure and the notice finds room, the presentation side has
/// stopped and attempts nothing more; the logic side handles the events that
/// were queued before the notice, in their order, then calls the crash hook
/// with that failure, once, and stops.
pub proof fn lemma_crash_is_propagated_once<F>(
    p: PipelineView<F>,
    input: InputState,
    error: Error,
)
    requires
        p.presentation_alive,
        p.accepts_event(),
        none_ends_loop(p.events),
    ensures
        forward_result(p, Event::Crash(error)) == Forward::Delivered,
        !after_failure(p, error).presentation_alive,
        after_failure(p, error).frame is None,
        after_failure(p, error).events == p.events.push(Event::Crash(error)),
        drain(input, after_failure(p, error).events) == (Drained {
            input: input_after_all(input, p.events),
            hooks: hooks_of_all(p.events).push(Hook::Crash(error)),
            rest: Seq::empty(),
            stopped: true,
        }),
{
    let notice = Event::Crash(error);
    lemma_loop_stops_at_first_terminal(input, p.events, notice, Seq::empty());
    assert(p.events + seq![notice] + Seq::<Event>::empty() =~= p.events.push(notice));
    assert(hooks_of_all(p.events) + hooks_of(notice) =~= hooks_of_all(p.events).push(
        Hook::Crash(error),
    ));
}

/// Whatever the two loops do, no queue outgrows its bound and nothing is kept
/// for a side that has stopped.
pub proof fn lemma_loops_keep_pipeline_bounded<F>(
    p: PipelineView<F>,
    input: InputState,
    event: Event,
    error: Error,
    pending: Seq<OsEvent>,
)
    requires
        p.wf(),
    ensures
        after_handling(p, event).wf(),
        after_drain(p, input).wf(),
        after_poll(p).wf(),
        after_forward(p, event).wf(),
        after_frame_poll(p).wf(),
        after_failure(p, error).wf(),
        after_pass(p, pending).wf(),
{
    lemma_drain_leaves_a_tail(input, p.events);
    lemma_forwarding_stays_bounded(after_poll(p), pending);
}

} // verus!
