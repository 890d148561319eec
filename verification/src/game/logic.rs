//! The logic side's protocol: which hook an event asks for, which events
//! stop the loop, and what taking the queued events comes to.

use crate::game::error::Error;
use crate::game::input::{EventHandleResult, InputEvent, InputState, LogicalSize};
use crate::game::pipeline::{Event, PipelineView};
use crate::game::runner::{State, StateView};
use crate::game::Game;
use vstd::prelude::*;

verus! {

/// A call of one of the simulation's hooks that an event asks for.
#[derive(Clone, Copy, Debug, PartialEq, Eq)]
pub enum Hook {
    /// Hand the event to `input`.
    Input(InputEvent),
    /// Hand the size to `set_size`.
    Resized(LogicalSize),
    /// Call `close` and stop.
    Close,
    /// Hand the failure to `crash` and stop.
    Crash(Error),
}

impl Hook {
    /// Whether the logic loop stops after this call.
    pub open spec fn terminal(self) -> bool {
        self is Close || self is Crash
    }

    /// Whether the logic loop stops after this call.
    pub fn is_terminal(&self) -> (b: bool)
        ensures
            b == self.terminal(),
    {
        match self {
            Hook::Close => true,
            Hook::Crash(_) => true,
            _ => false,
        }
    }
}

/// The hook that `event` asks for, if any.
pub open spec fn hook_of(event: Event) -> Option<Hook> {
    match event {
        Event::Os(os) => match InputState::outcome(os) {
            Some(EventHandleResult::Input(input)) => Some(Hook::Input(input)),
            Some(EventHandleResult::Resized(size)) => Some(Hook::Resized(size)),
            Some(EventHandleResult::Exit) => Some(Hook::Close),
            None => None,
        },
        Event::Crash(error) => Some(Hook::Crash(error)),
    }
}

/// Whether `game` is a borrow of the simulation through which one call was
/// made: the call that `hook` names, with what `hook` carries, and with
/// `state` where the hook reads the state. The simulation before the call is
/// what `game` borrowed, the simulation after it is what `game` gave back.
pub open spec fn calls<G: Game>(game: &mut G, state: State, hook: Hook) -> bool {
    match hook {
        Hook::Input(input) => call_ensures(G::input, (game, &state, input), ()),
        Hook::Resized(size) => call_ensures(G::set_size, (game, size), ()),
        Hook::Close => call_ensures(G::close, (game,), ()),
        Hook::Crash(error) => call_ensures(G::crash, (game, error), ()),
    }
}

/// Whether the logic loop stops at `event`: a request to close the window, or
/// the notice of a renderer failure.
pub open spec fn ends_loop(event: Event) -> bool {
    hook_of(event) matches Some(hook) && hook.terminal()
}

/// The input snapshot after `event`.
pub open spec fn input_after(input: InputState, event: Event) -> InputState {
    match event {
        Event::Os(os) => input.after(os),
        Event::Crash(_) => input,
    }
}

/// The hooks that `event` adds to the calls made so far.
pub open spec fn hooks_of(event: Event) -> Seq<Hook> {
    match hook_of(event) {
        Some(hook) => seq![hook],
        None => Seq::empty(),
    }
}

/// What taking events from the queue comes to.
pub struct Drained {
    /// The input snapshot after the events that were taken.
    pub input: InputState,
    /// The hooks that were called, in the order of the calls.
    pub hooks: Seq<Hook>,
    /// The events that were not taken.
    pub rest: Seq<Event>,
    /// Whether an event stopped the loop.
    pub stopped: bool,
}

/// Takes the queued events in their order, up to and including the first
/// that stops the loop. What lies behind that one is not taken.
pub open spec fn drain(input: InputState, events: Seq<Event>) -> Drained
    decreases events.len(),
{
    if events.len() == 0 {
        Drained { input, hooks: Seq::empty(), rest: events, stopped: false }
    } else if ends_loop(events[0]) {
        Drained {
            input: input_after(input, events[0]),
            hooks: hooks_of(events[0]),
            rest: events.drop_first(),
            stopped: true,
        }
    } else {
        let then = drain(input_after(input, events[0]), events.drop_first());
        Drained {
            input: then.input,
            hooks: hooks_of(events[0]) + then.hooks,
            rest: then.rest,
            stopped: then.stopped,
        }
    }
}

/// The input snapshots that the hooks of `drain(input, events)` see, one for
/// each hook and in the order of the hooks: each hook sees the snapshot as it
/// is after the event that asked for the hook.
pub open spec fn inputs_seen(input: InputState, events: Seq<Event>) -> Seq<InputState>
    decreases events.len(),
{
    if events.len() == 0 {
        Seq::empty()
    } else {
        let next = input_after(input, events[0]);
        let here = if hook_of(events[0]) is Some { seq![next] } else { Seq::empty() };
        if ends_loop(events[0]) {
            here
        } else {
            here + inputs_seen(next, events.drop_first())
        }
    }
}

/// Whether `made` are borrows of the simulation through which the calls of
/// `hooks` were made, one call for each hook and in the order of the hooks:
/// the first on the simulation `before`, each later one on the simulation as
/// the call before it left it, which `left` lists, and the last leaving the
/// simulation `after`. Without a hook the simulation is left alone.
pub open spec fn made_in_turn<G: Game>(
    before: G,
    after: G,
    made: Seq<&mut G>,
    left: Seq<G>,
    states: Seq<State>,
    hooks: Seq<Hook>,
) -> bool {
    &&& made.len() == hooks.len()
    &&& left.len() == hooks.len()
    &&& states.len() == hooks.len()
    &&& forall|i: int| 0 <= i < hooks.len() ==> #[trigger] calls(made[i], states[i], hooks[i])
    &&& forall|i: int|
        0 <= i < hooks.len() ==> *#[trigger] made[i] == (if i == 0 {
            before
        } else {
            left[i - 1]
        })
    &&& after == (if hooks.len() == 0 {
        before
    } else {
        left.last()
    })
}

/// Whether `states` are the state of the logic side as the hooks of a pass
/// see it: as it was before the pass, but for the input snapshot, which is
/// the one of `inputs` that belongs to the hook.
pub open spec fn states_seen(states: Seq<State>, before: StateView, inputs: Seq<InputState>) -> bool {
    &&& states.len() == inputs.len()
    &&& forall|i: int|
        0 <= i < states.len() ==> (#[trigger] states[i])@ == before.with_input(inputs[i])
}

/// The hook that is called when the logic side handles `event`: the one that
/// the event asks for while the logic side runs, none once it has stopped.
pub open spec fn hook_handled<F>(p: PipelineView<F>, event: Event) -> Option<Hook> {
    if p.logic_alive { hook_of(event) } else { None }
}

/// Whether the logic loop stops when the logic side handles `event`: the
/// event asks for it, or the logic side has stopped before.
pub open spec fn handling_stops<F>(p: PipelineView<F>, event: Event) -> bool {
    !p.logic_alive || ends_loop(event)
}

/// The input snapshot after the logic side has handled `event`. A logic side
/// that has stopped takes no event into its snapshot.
pub open spec fn input_handled<F>(
    p: PipelineView<F>,
    input: InputState,
    event: Event,
) -> InputState {
    if p.logic_alive { input_after(input, event) } else { input }
}

/// The pipeline after the logic side has handled `event`: an event that
/// stops the loop has the presentation side asked to stop and the logic side
/// recorded as stopped; any other event, and any event once the logic side
/// has stopped, changes nothing.
pub open spec fn after_handling<F>(p: PipelineView<F>, event: Event) -> PipelineView<F> {
    if p.logic_alive && ends_loop(event) {
        p.after_signal_exit().after_logic_exit()
    } else {
        p
    }
}

/// What taking the queued events comes to for the logic side: what `drain`
/// says of the queue while the logic side runs; once it has stopped it takes
/// no event and calls no hook.
pub open spec fn drain_pass<F>(p: PipelineView<F>, input: InputState) -> Drained {
    if p.logic_alive {
        drain(input, p.events)
    } else {
        Drained { input, hooks: Seq::empty(), rest: p.events, stopped: true }
    }
}

/// The input snapshots that the hooks of `drain_pass(p, input)` see.
pub open spec fn inputs_seen_in_pass<F>(p: PipelineView<F>, input: InputState) -> Seq<
    InputState,
> {
    if p.logic_alive { inputs_seen(input, p.events) } else { Seq::empty() }
}

/// Whether the logic loop stops after it has taken the queued events: an
/// event stopped it, the queue is empty and the presentation side is gone,
/// or the logic side had stopped before.
pub open spec fn drain_stops<F>(p: PipelineView<F>, input: InputState) -> bool {
    drain_pass(p, input).stopped || !p.presentation_alive
}

/// The pipeline after the logic side has taken the queued events. A logic
/// side that had stopped leaves the pipeline alone. Else the events that were
/// handled are gone from the queue; if an event stopped the loop, the
/// presentation side has been asked to stop; and if the loop stops, the logic
/// side is recorded as stopped, which drops the events that were not handled.
pub open spec fn after_drain<F>(p: PipelineView<F>, input: InputState) -> PipelineView<F> {
    let drained = drain_pass(p, input);
    let taken = PipelineView {
        events: drained.rest,
        frame: p.frame,
        feedback: p.feedback,
        logic_alive: p.logic_alive,
        presentation_alive: p.presentation_alive,
    };
    if !p.logic_alive {
        p
    } else if drained.stopped {
        taken.after_signal_exit().after_logic_exit()
    } else if !p.presentation_alive {
        taken.after_logic_exit()
    } else {
        taken
    }
}

/// What the logic loop does at the end of a pass.
#[derive(Clone, Copy, Debug, PartialEq, Eq, Structural)]
pub enum Pace {
    /// The loop has stopped.
    Stop,
    /// Sleep for `after` nanoseconds, tick the update cadence, and go on with
    /// the next pass. Zero means: do not sleep.
    Resume { after: u64 },
}

/// The hooks that `events` ask for, in the order of the events.
pub open spec fn hooks_of_all(events: Seq<Event>) -> Seq<Hook>
    decreases events.len(),
{
    if events.len() == 0 {
        Seq::empty()
    } else {
        hooks_of(events[0]) + hooks_of_all(events.drop_first())
    }
}

/// The input snapshot after each of `events` in turn.
pub open spec fn input_after_all(input: InputState, events: Seq<Event>) -> InputState
    decreases events.len(),
{
    if events.len() == 0 {
        input
    } else {
        input_after_all(input_after(input, events[0]), events.drop_first())
    }
}

/// Whether none of `events` stops the logic loop.
pub open spec fn none_ends_loop(events: Seq<Event>) -> bool {
    forall|i: int| 0 <= i < events.len() ==> !ends_loop(#[trigger] events[i])
}

/// Events that do not stop the loop are all taken, and each has its hook
/// called, in the order in which the events were queued.
pub proof fn lemma_events_are_handled_in_order(input: InputState, events: Seq<Event>)
    requires
        none_ends_loop(events),
    ensures
        drain(input, events) == (Drained {
            input: input_after_all(input, events),
            hooks: hooks_of_all(events),
            rest: Seq::empty(),
            stopped: false,
        }),
    decreases events.len(),
{
    if events.len() > 0 {
        let tail = events.drop_first();
        assert forall|i: int| 0 <= i < tail.len() implies !ends_loop(#[trigger] tail[i]) by {
            assert(tail[i] == events[i + 1]);
        }
        lemma_events_are_handled_in_order(input_after(input, events[0]), tail);
    } else {
        assert(events =~= Seq::empty());
    }
}

/// The loop stops at the first event that asks for it, and not before. Every
/// event that was queued before that one has been handled by then, in the
/// order of the queue; the hook of the stopping event is the last that is
/// called, and it is called once; whatever was queued behind it, another
/// request to close or another crash notice included, is never handled.
pub proof fn lemma_loop_stops_at_first_terminal(
    input: InputState,
    before: Seq<Event>,
    terminal: Event,
    behind: Seq<Event>,
)
    requires
        none_ends_loop(before),
        ends_loop(terminal),
    ensures
        drain(input, before + seq![terminal] + behind) == (Drained {
            input: input_after(input_after_all(input, before), terminal),
            hooks: hooks_of_all(before) + hooks_of(terminal),
            rest: behind,
            stopped: true,
        }),
        hooks_of(terminal).len() == 1,
        hooks_of(terminal)[0].terminal(),
    decreases before.len(),
{
    let queue = before + seq![terminal] + behind;
    if before.len() == 0 {
        assert(queue[0] == terminal);
        assert(queue.drop_first() =~= behind);
        assert(hooks_of_all(before) + hooks_of(terminal) =~= hooks_of(terminal));
    } else {
        let tail = before.drop_first();
        assert forall|i: int| 0 <= i < tail.len() implies !ends_loop(#[trigger] tail[i]) by {
            assert(tail[i] == before[i + 1]);
        }
        assert(queue[0] == before[0]);
        assert(queue.drop_first() =~= tail + seq![terminal] + behind);
        lemma_loop_stops_at_first_terminal(input_after(input, before[0]), tail, terminal, behind);
        assert(hooks_of(before[0]) + (hooks_of_all(tail) + hooks_of(terminal)) =~= hooks_of_all(
            before,
        ) + hooks_of(terminal));
    }
}

/// Of the hooks that one pass calls for its events, only the last can be one
/// that stops the loop, and the loop stops exactly if it is: neither `close`
/// nor `crash` is called twice, and nothing is called after either.
pub proof fn lemma_terminal_hook_is_last(input: InputState, events: Seq<Event>)
    ensures
        ({
            let drained = drain(input, events);
            &&& forall|i: int| 0 <= i < drained.hooks.len() - 1 ==> !(#[trigger] drained.hooks[i]).terminal()
            &&& drained.stopped <==> drained.hooks.len() > 0 && drained.hooks.last().terminal()
            &&& !drained.stopped ==> drained.rest.len() == 0
        }),
    decreases events.len(),
{
    if events.len() > 0 && !ends_loop(events[0]) {
        lemma_terminal_hook_is_last(input_after(input, events[0]), events.drop_first());
    }
}

/// Taking events never adds any: what is left in the queue is the tail of
/// what was there.
pub proof fn lemma_drain_leaves_a_tail(input: InputState, events: Seq<Event>)
    ensures
        drain(input, events).rest.len() <= events.len(),
        drain(input, events).rest == events.subrange(
            events.len() - drain(input, events).rest.len(),
            events.len() as int,
        ),
    decreases events.len(),
{
    let rest = drain(input, events).rest;
    if events.len() == 0 {
        assert(rest =~= events.subrange(0, 0));
    } else if ends_loop(events[0]) {
        assert(rest =~= events.subrange(1, events.len() as int));
    } else {
        let tail = events.drop_first();
        lemma_drain_leaves_a_tail(input_after(input, events[0]), tail);
        assert(tail.subrange(tail.len() - rest.len(), tail.len() as int) =~= events.subrange(
            events.len() - rest.len(),
            events.len() as int,
        ));
    }
}

/// A logic side that has stopped attempts nothing: it handles no event, calls
/// no hook, takes nothing into its snapshot and leaves the pipeline alone.
pub proof fn lemma_stopped_logic_side_attempts_nothing<F>(
    p: PipelineView<F>,
    input: InputState,
    event: Event,
)
    requires
        !p.logic_alive,
    ensures
        handling_stops(p, event),
        hook_handled(p, event) is None,
        input_handled(p, input, event) == input,
        after_handling(p, event) == p,
        drain_stops(p, input),
        drain_pass(p, input).hooks.len() == 0,
        drain_pass(p, input).input == input,
        inputs_seen_in_pass(p, input).len() == 0,
        after_drain(p, input) == p,
{
}

/// A hook that stops the loop is called once. The event that asks for it
/// leaves the logic side recorded as stopped, so whatever event is handled
/// after it, another request to close or another crash notice included,
/// calls no hook and changes nothing.
pub proof fn lemma_stopping_hook_is_called_once<F>(
    p: PipelineView<F>,
    event: Event,
    later: Event,
)
    requires
        p.logic_alive,
        ends_loop(event),
    ensures
        handling_stops(p, event),
        hook_handled(p, event) is Some,
        !after_handling(p, event).logic_alive,
        hook_handled(after_handling(p, event), later) is None,
        handling_stops(after_handling(p, event), later),
        after_handling(after_handling(p, event), later) == after_handling(p, event),
{
}

} // verus!
