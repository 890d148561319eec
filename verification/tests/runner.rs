use std::cell::Cell;
use std::collections::VecDeque;
use tachibana::game::pacing::Pacer;
use tachibana::game::pipeline::{Event, FeedbackEvent, Pipeline, TryRecvError};
use tachibana::game::logic::{Hook, Pace};
use tachibana::game::presentation::{Forward, FramePoll, Step};
use tachibana::game::{
    Error, Game, InputEvent, LogicalSize, MouseButton, OsEvent, Point, Runner, State, ID,
};

const MS: u64 = 1_000_000;

#[derive(Debug, Clone, PartialEq)]
enum Call {
    Update,
    Input(InputEvent),
    SetSize(LogicalSize),
    Close,
    Crash(Error),
}

struct Probe {
    calls: Vec<Call>,
    draws: Cell<u32>,
}

impl Probe {
    fn new() -> Probe {
        Probe { calls: Vec::new(), draws: Cell::new(0) }
    }

    fn count(&self, wanted: &Call) -> usize {
        self.calls.iter().filter(|c| *c == wanted).count()
    }

    fn without_updates(&self) -> Vec<Call> {
        self.calls.iter().filter(|c| **c != Call::Update).cloned().collect()
    }
}

impl Game for Probe {
    type Frame = (u32, LogicalSize);

    fn update(&mut self, _state: &State) {
        self.calls.push(Call::Update);
    }

    fn draw(&self, _state: &State, bounds: LogicalSize) -> (u32, LogicalSize) {
        self.draws.set(self.draws.get() + 1);
        (self.draws.get(), bounds)
    }

    fn input(&mut self, _state: &State, event: InputEvent) {
        self.calls.push(Call::Input(event));
    }

    fn set_size(&mut self, size: LogicalSize) {
        self.calls.push(Call::SetSize(size));
    }

    fn close(&mut self) {
        self.calls.push(Call::Close);
    }

    fn crash(&mut self, error: Error) {
        self.calls.push(Call::Crash(error));
    }
}

fn setup() -> (Probe, State, Pacer, Pipeline<(u32, LogicalSize)>) {
    let (game, state, pacer) =
        Runner::start(|_state: &mut State| Probe::new(), LogicalSize::new(1280, 720), 0);
    (game, state, pacer, Pipeline::new())
}

fn motion(n: i32) -> OsEvent {
    OsEvent::MouseMotion { x: n, y: n + 1 }
}

#[test]
fn start_tells_the_simulation_the_window_size() {
    let (game, state, pacer, _) = setup();
    assert_eq!(game.calls, vec![Call::SetSize(LogicalSize::new(1280, 720))]);
    assert_eq!(state.window_size(), LogicalSize::new(1280, 720));
    assert_eq!(state.elapsed(), 0);
    assert_eq!(pacer.last_frame(), 0);
    assert_eq!(pacer.target_frame_time(), 8 * MS);
}

#[test]
fn start_lets_the_simulation_take_identifiers() {
    let (ids, mut state, _) = Runner::start(
        |state: &mut State| IdProbe { first: ID::next(state), second: ID::next(state) },
        LogicalSize::new(1, 1),
        7,
    );
    assert_eq!(ids.first.value(), 0);
    assert_eq!(ids.second.value(), 1);
    assert_eq!(ID::next(&mut state).value(), 2);
}

struct IdProbe {
    first: ID,
    second: ID,
}

impl Game for IdProbe {
    type Frame = ();

    fn update(&mut self, _state: &State) {}

    fn draw(&self, _state: &State, _bounds: LogicalSize) {}

    fn input(&mut self, _state: &State, _event: InputEvent) {}

    fn set_size(&mut self, _size: LogicalSize) {}

    fn close(&mut self) {}

    fn crash(&mut self, _error: Error) {}
}

#[test]
fn hook_for_each_kind_of_event() {
    let mut state = State::new(LogicalSize::new(10, 10), 0);
    assert_eq!(Runner::hook_for(&mut state, Event::Os(OsEvent::Quit)), Some(Hook::Close));
    assert_eq!(
        Runner::hook_for(&mut state, Event::Os(OsEvent::Resized { width: 5, height: -5 })),
        Some(Hook::Resized(LogicalSize::new(5, 0)))
    );
    assert_eq!(state.window_size(), LogicalSize::new(5, 0));
    assert_eq!(
        Runner::hook_for(&mut state, Event::Os(motion(3))),
        Some(Hook::Input(InputEvent::MouseMove(Point::new(3, 4))))
    );
    assert_eq!(state.mouse_position(), Point::new(3, 4));
    assert_eq!(
        Runner::hook_for(&mut state, Event::Os(OsEvent::KeyDown { keycode: 13 })),
        Some(Hook::Input(InputEvent::KeyDown(13)))
    );
    assert_eq!(Runner::hook_for(&mut state, Event::Os(OsEvent::Other)), None);
    let failure = Error::RendererError(ash::vk::Result::ERROR_DEVICE_LOST);
    assert_eq!(Runner::hook_for(&mut state, Event::Crash(failure)), Some(Hook::Crash(failure)));
    assert_eq!(state.mouse_position(), Point::new(3, 4));
}

#[test]
fn only_close_and_crash_are_terminal() {
    let failure = Error::RendererError(ash::vk::Result::ERROR_DEVICE_LOST);
    assert!(Hook::Close.is_terminal());
    assert!(Hook::Crash(failure).is_terminal());
    assert!(!Hook::Input(InputEvent::KeyUp(1)).is_terminal());
    assert!(!Hook::Resized(LogicalSize::new(1, 1)).is_terminal());
}

#[test]
fn handle_event_dispatches_input() {
    let (mut game, mut state, _, mut pipeline) = setup();
    game.calls.clear();
    let event = Event::Os(OsEvent::MouseButtonDown { button: MouseButton::Left, x: 1, y: 2 });
    assert!(!Runner::handle_event(&mut game, &mut state, event, &mut pipeline));
    assert_eq!(
        game.calls,
        vec![Call::Input(InputEvent::MouseDown(MouseButton::Left, Point::new(1, 2)))]
    );
    assert_eq!(state.mouse_position(), Point::new(1, 2));
    assert_eq!(pipeline.pending_feedback(), 0);
}

#[test]
fn handle_event_dispatches_resize() {
    let (mut game, mut state, _, mut pipeline) = setup();
    game.calls.clear();
    let event = Event::Os(OsEvent::Resized { width: 300, height: 200 });
    assert!(!Runner::handle_event(&mut game, &mut state, event, &mut pipeline));
    assert_eq!(game.calls, vec![Call::SetSize(LogicalSize::new(300, 200))]);
    assert_eq!(state.window_size(), LogicalSize::new(300, 200));
}

#[test]
fn handle_event_ignores_what_it_has_no_use_for() {
    let (mut game, mut state, _, mut pipeline) = setup();
    game.calls.clear();
    assert!(!Runner::handle_event(&mut game, &mut state, Event::Os(OsEvent::Other), &mut pipeline));
    assert!(game.calls.is_empty());
    assert_eq!(pipeline.pending_feedback(), 0);
}

#[test]
fn exit_closes_once_and_signals_the_presentation_side() {
    let (mut game, mut state, _, mut pipeline) = setup();
    game.calls.clear();
    assert!(Runner::handle_event(&mut game, &mut state, Event::Os(OsEvent::Quit), &mut pipeline));
    assert_eq!(game.calls, vec![Call::Close]);
    assert_eq!(pipeline.poll_feedback(), Ok(FeedbackEvent::Exit));
}

#[test]
fn second_request_to_close_closes_nothing() {
    let (mut game, mut state, _, mut pipeline) = setup();
    game.calls.clear();
    assert!(Runner::handle_event(&mut game, &mut state, Event::Os(OsEvent::Quit), &mut pipeline));
    assert_eq!(game.calls, vec![Call::Close]);
    assert!(!pipeline.logic_alive());
    assert!(Runner::handle_event(&mut game, &mut state, Event::Os(OsEvent::Quit), &mut pipeline));
    assert!(Runner::handle_event(&mut game, &mut state, Event::Os(OsEvent::Quit), &mut pipeline));
    assert_eq!(game.calls, vec![Call::Close]);
    assert_eq!(game.count(&Call::Close), 1);
    assert_eq!(pipeline.pending_feedback(), 1);
    assert_eq!(pipeline.poll_feedback(), Ok(FeedbackEvent::Exit));
    assert_eq!(pipeline.poll_feedback(), Err(TryRecvError::Disconnected));
}

#[test]
fn second_crash_notice_crashes_nothing() {
    let (mut game, mut state, _, mut pipeline) = setup();
    game.calls.clear();
    let first = Error::RendererError(ash::vk::Result::ERROR_DEVICE_LOST);
    let second = Error::RendererError(ash::vk::Result::ERROR_OUT_OF_HOST_MEMORY);
    assert!(Runner::handle_event(&mut game, &mut state, Event::Crash(first), &mut pipeline));
    assert!(Runner::handle_event(&mut game, &mut state, Event::Crash(second), &mut pipeline));
    assert!(Runner::handle_event(&mut game, &mut state, Event::Os(OsEvent::Quit), &mut pipeline));
    assert_eq!(game.calls, vec![Call::Crash(first)]);
}

#[test]
fn stopped_logic_side_handles_no_event() {
    let (mut game, mut state, _, mut pipeline) = setup();
    game.calls.clear();
    pipeline.logic_exited();
    assert!(Runner::handle_event(&mut game, &mut state, Event::Os(motion(5)), &mut pipeline));
    assert!(Runner::handle_event(
        &mut game,
        &mut state,
        Event::Os(OsEvent::Resized { width: 1, height: 1 }),
        &mut pipeline
    ));
    assert!(game.calls.is_empty());
    assert_eq!(state.mouse_position(), Point::new(0, 0));
    assert_eq!(state.window_size(), LogicalSize::new(1280, 720));
    assert_eq!(pipeline.pending_feedback(), 0);
    assert!(Runner::drain_events(&mut game, &mut state, &mut pipeline));
    assert!(game.calls.is_empty());
}

#[test]
fn pass_after_the_stop_attempts_nothing() {
    let (mut game, mut state, mut pacer, mut pipeline) = setup();
    pipeline.submit_event(Event::Os(OsEvent::Quit)).unwrap();
    assert_eq!(Runner::game_thread(&mut game, &mut state, &mut pacer, &mut pipeline, MS), Pace::Stop);
    let calls = game.calls.clone();
    assert_eq!(game.count(&Call::Update), 1);
    assert_eq!(
        Runner::game_thread(&mut game, &mut state, &mut pacer, &mut pipeline, 9 * MS),
        Pace::Stop
    );
    assert_eq!(
        Runner::game_thread(&mut game, &mut state, &mut pacer, &mut pipeline, 50 * MS),
        Pace::Stop
    );
    assert_eq!(game.calls, calls);
    assert_eq!(game.draws.get(), 0);
    assert_eq!(pipeline.pending_frames(), 0);
    assert_eq!(pacer.last_frame(), 0);
    assert_eq!(state.last_update_time_draw(), 0);
    assert_eq!(pipeline.pending_feedback(), 1);
}

#[test]
fn crash_notice_calls_the_crash_hook_with_the_failure() {
    let (mut game, mut state, _, mut pipeline) = setup();
    game.calls.clear();
    let failure = Error::RendererError(ash::vk::Result::ERROR_OUT_OF_DEVICE_MEMORY);
    assert!(Runner::handle_event(&mut game, &mut state, Event::Crash(failure), &mut pipeline));
    assert_eq!(game.calls, vec![Call::Crash(failure)]);
    assert_eq!(pipeline.poll_feedback(), Ok(FeedbackEvent::Exit));
}

#[test]
fn events_before_exit_are_handled_in_order() {
    let (mut game, mut state, _, mut pipeline) = setup();
    game.calls.clear();
    for n in 0..5 {
        pipeline.submit_event(Event::Os(motion(n))).unwrap();
    }
    pipeline.submit_event(Event::Os(OsEvent::Quit)).unwrap();
    pipeline.submit_event(Event::Os(motion(99))).unwrap();
    assert!(Runner::drain_events(&mut game, &mut state, &mut pipeline));
    let mut expected: Vec<Call> =
        (0..5).map(|n| Call::Input(InputEvent::MouseMove(Point::new(n, n + 1)))).collect();
    expected.push(Call::Close);
    assert_eq!(game.calls, expected);
    assert_eq!(state.mouse_position(), Point::new(4, 5));
    assert!(!pipeline.logic_alive());
    assert_eq!(pipeline.pending_events(), 0);
    assert_eq!(pipeline.pending_feedback(), 1);
}

#[test]
fn drain_takes_everything_when_nothing_stops_it() {
    let (mut game, mut state, _, mut pipeline) = setup();
    game.calls.clear();
    for n in 0..8 {
        pipeline.submit_event(Event::Os(motion(n))).unwrap();
    }
    assert!(!Runner::drain_events(&mut game, &mut state, &mut pipeline));
    assert_eq!(game.calls.len(), 8);
    assert_eq!(pipeline.pending_events(), 0);
    assert_eq!(pipeline.pending_feedback(), 0);
    assert!(!Runner::drain_events(&mut game, &mut state, &mut pipeline));
    assert_eq!(game.calls.len(), 8);
}

#[test]
fn drain_stops_when_the_presentation_side_is_gone() {
    let (mut game, mut state, _, mut pipeline) = setup();
    game.calls.clear();
    pipeline.submit_event(Event::Os(motion(1))).unwrap();
    pipeline.presentation_exited();
    assert!(Runner::drain_events(&mut game, &mut state, &mut pipeline));
    assert_eq!(game.calls, vec![Call::Input(InputEvent::MouseMove(Point::new(1, 2)))]);
    assert_eq!(game.count(&Call::Close), 0);
    assert_eq!(pipeline.pending_feedback(), 0);
    assert!(!pipeline.logic_alive());
}

#[test]
fn exit_sent_twice_closes_once() {
    let (mut game, mut state, mut pacer, mut pipeline) = setup();
    pipeline.submit_event(Event::Os(OsEvent::Quit)).unwrap();
    pipeline.submit_event(Event::Os(OsEvent::Quit)).unwrap();
    assert_eq!(Runner::game_thread(&mut game, &mut state, &mut pacer, &mut pipeline, MS), Pace::Stop);
    assert_eq!(game.count(&Call::Close), 1);
    assert!(!pipeline.logic_alive());
    assert_eq!(pipeline.pending_events(), 0);
    assert!(!pipeline.signal_exit());
    assert!(!pipeline.signal_exit());
    assert_eq!(pipeline.pending_feedback(), 1);
    let mut pending = VecDeque::new();
    assert_eq!(Runner::run(&mut pipeline, &mut pending), Step::Stopped);
    assert_eq!(Runner::run(&mut pipeline, &mut pending), Step::Stopped);
    assert_eq!(game.count(&Call::Close), 1);
}

#[test]
fn pass_without_a_due_frame_asks_for_the_rest_of_the_interval() {
    let (mut game, mut state, mut pacer, mut pipeline) = setup();
    game.calls.clear();
    let pace = Runner::game_thread(&mut game, &mut state, &mut pacer, &mut pipeline, 300_000);
    assert_eq!(pace, Pace::Resume { after: 700_000 });
    assert_eq!(game.calls, vec![Call::Update]);
    assert_eq!(game.draws.get(), 0);
    assert_eq!(pipeline.pending_frames(), 0);
    assert_eq!(pacer.last_frame(), 0);
    assert_eq!(state.last_update_time_draw(), 0);
    state.tick(MS);
    let pace = Runner::game_thread(&mut game, &mut state, &mut pacer, &mut pipeline, 3 * MS);
    assert_eq!(pace, Pace::Resume { after: 0 });
    assert_eq!(game.draws.get(), 0);
}

#[test]
fn pass_with_a_due_frame_draws_and_does_not_sleep() {
    let (mut game, mut state, mut pacer, mut pipeline) = setup();
    game.calls.clear();
    pipeline.submit_event(Event::Os(OsEvent::Resized { width: 64, height: 48 })).unwrap();
    let now = 8 * MS + 500;
    let pace = Runner::game_thread(&mut game, &mut state, &mut pacer, &mut pipeline, now);
    assert_eq!(pace, Pace::Resume { after: 0 });
    assert_eq!(game.calls, vec![Call::Update, Call::SetSize(LogicalSize::new(64, 48))]);
    assert_eq!(game.draws.get(), 1);
    assert_eq!(pipeline.next_frame(), Ok((1, LogicalSize::new(64, 48))));
    assert_eq!(pacer.last_frame(), 8 * MS);
    assert_eq!(state.time_state_draw().last_update(), now);
    assert_eq!(state.last_update_time_draw(), now);
    assert_eq!(state.time_state().last_update(), 0);
}

#[test]
fn frame_that_finds_the_slot_taken_is_dropped() {
    let (mut game, mut state, mut pacer, mut pipeline) = setup();
    let mut now = 0;
    for _ in 0..5 {
        now += 9 * MS;
        let pace = Runner::game_thread(&mut game, &mut state, &mut pacer, &mut pipeline, now);
        assert_eq!(pace, Pace::Resume { after: 0 });
        state.tick(now);
        assert_eq!(pipeline.pending_frames(), 1);
    }
    assert_eq!(game.draws.get(), 5);
    assert_eq!(pipeline.next_frame(), Ok((1, LogicalSize::new(1280, 720))));
    assert_eq!(pipeline.next_frame(), Err(TryRecvError::Empty));
}

#[test]
fn stopped_pass_draws_nothing() {
    let (mut game, mut state, mut pacer, mut pipeline) = setup();
    pipeline.submit_event(Event::Os(OsEvent::Quit)).unwrap();
    let pace = Runner::game_thread(&mut game, &mut state, &mut pacer, &mut pipeline, 50 * MS);
    assert_eq!(pace, Pace::Stop);
    assert_eq!(game.draws.get(), 0);
    assert_eq!(pacer.last_frame(), 0);
    assert_eq!(state.last_update_time_draw(), 0);
    assert_eq!(pipeline.next_frame(), Err(TryRecvError::Disconnected));
}

#[test]
fn hundred_milliseconds_give_a_hundred_updates_and_twelve_frames() {
    let (game, mut state, _, mut pipeline) = setup();
    let mut game = game;
    game.calls.clear();
    let mut pacer = Pacer::with_targets(0, MS, 8 * MS);
    let mut now = 0u64;
    let mut passes = 0usize;
    let mut paced_ticks = 0usize;
    let mut frames_shown = 0u32;
    while now < 100 * MS {
        match Runner::game_thread(&mut game, &mut state, &mut pacer, &mut pipeline, now) {
            Pace::Stop => panic!("the loop stopped without being asked to"),
            Pace::Resume { after } => {
                let before = state.time_state().last_update();
                now += after;
                state.tick(now);
                if after > 0 {
                    paced_ticks += 1;
                    assert!(state.time_state().last_update() - before >= MS);
                }
            }
        }
        passes += 1;
        if pipeline.next_frame().is_ok() {
            frames_shown += 1;
        }
    }
    assert_eq!(paced_ticks, 100);
    assert_eq!(game.draws.get(), 12);
    assert_eq!(frames_shown, 12);
    assert_eq!(game.count(&Call::Update), passes);
    assert_eq!(passes, 112);
    assert_eq!(state.elapsed(), 100 * MS);
    assert_eq!(pacer.last_frame(), 12 * 8 * MS);
}

#[test]
fn presentation_pass_forwards_events_then_takes_the_frame() {
    let mut pipeline: Pipeline<u32> = Pipeline::new();
    pipeline.submit_frame(5);
    let mut pending: VecDeque<OsEvent> = (0..3).map(motion).collect();
    assert_eq!(Runner::run(&mut pipeline, &mut pending), Step::Present(5));
    assert!(pending.is_empty());
    for n in 0..3 {
        assert_eq!(pipeline.next_event(), Ok(Event::Os(motion(n))));
    }
    assert_eq!(Runner::run(&mut pipeline, &mut pending), Step::Idle);
    assert!(pipeline.presentation_alive());
}

#[test]
fn presentation_pass_keeps_what_the_full_queue_refused() {
    let mut pipeline: Pipeline<u32> = Pipeline::new();
    pipeline.submit_frame(5);
    let mut pending: VecDeque<OsEvent> = (0..11).map(motion).collect();
    assert_eq!(Runner::run(&mut pipeline, &mut pending), Step::Busy);
    assert_eq!(pending, (8..11).map(motion).collect::<VecDeque<OsEvent>>());
    assert_eq!(pipeline.pending_events(), 8);
    assert_eq!(pipeline.pending_frames(), 1);
    for n in 0..8 {
        assert_eq!(pipeline.next_event(), Ok(Event::Os(motion(n))));
    }
    assert_eq!(Runner::run(&mut pipeline, &mut pending), Step::Present(5));
    assert!(pending.is_empty());
    for n in 8..11 {
        assert_eq!(pipeline.next_event(), Ok(Event::Os(motion(n))));
    }
}

#[test]
fn exit_signal_stops_the_pass_before_anything_is_forwarded() {
    let mut pipeline: Pipeline<u32> = Pipeline::new();
    pipeline.submit_frame(5);
    pipeline.signal_exit();
    let mut pending: VecDeque<OsEvent> = (0..3).map(motion).collect();
    assert_eq!(Runner::run(&mut pipeline, &mut pending), Step::Stopped);
    assert_eq!(pending.len(), 3);
    assert_eq!(pipeline.pending_events(), 0);
    assert!(!pipeline.presentation_alive());
}

#[test]
fn presentation_stops_when_the_logic_side_is_gone() {
    let mut pipeline: Pipeline<u32> = Pipeline::new();
    pipeline.logic_exited();
    assert!(Runner::poll_feedback(&mut pipeline));
    assert!(!pipeline.presentation_alive());

    let mut pipeline: Pipeline<u32> = Pipeline::new();
    assert!(!Runner::poll_feedback(&mut pipeline));
    pipeline.logic_exited();
    assert_eq!(Runner::forward_event(&mut pipeline, motion(1)), Forward::Stopped);
    assert!(!pipeline.presentation_alive());

    let mut pipeline: Pipeline<u32> = Pipeline::new();
    pipeline.submit_frame(3);
    pipeline.logic_exited();
    assert_eq!(Runner::next_frame(&mut pipeline), FramePoll::Present(3));
    assert!(pipeline.presentation_alive());
    assert_eq!(Runner::next_frame(&mut pipeline), FramePoll::Stopped);
    assert!(!pipeline.presentation_alive());
}

#[test]
fn forward_event_reports_a_full_queue() {
    let mut pipeline: Pipeline<u32> = Pipeline::new();
    for n in 0..8 {
        assert_eq!(Runner::forward_event(&mut pipeline, motion(n)), Forward::Delivered);
    }
    assert_eq!(Runner::forward_event(&mut pipeline, motion(8)), Forward::Busy);
    assert_eq!(pipeline.pending_events(), 8);
    assert!(pipeline.presentation_alive());
}

#[test]
fn renderer_failure_reaches_the_crash_hook_once() {
    let (mut game, mut state, mut pacer, mut pipeline) = setup();
    game.calls.clear();
    let mut pending: VecDeque<OsEvent> = VecDeque::new();
    let mut now = 0;
    for _ in 0..3 {
        now += 9 * MS;
        assert_eq!(
            Runner::game_thread(&mut game, &mut state, &mut pacer, &mut pipeline, now),
            Pace::Resume { after: 0 }
        );
        state.tick(now);
        pending.push_back(motion(1));
        assert!(matches!(Runner::run(&mut pipeline, &mut pending), Step::Present(_)));
    }
    let code = ash::vk::Result::ERROR_DEVICE_LOST;
    assert_eq!(Runner::renderer_failed(&mut pipeline, code), Forward::Delivered);
    assert!(!pipeline.presentation_alive());

    pending.push_back(motion(2));
    assert_eq!(Runner::run(&mut pipeline, &mut pending), Step::Stopped);
    assert_eq!(Runner::forward_event(&mut pipeline, motion(3)), Forward::Stopped);
    assert_eq!(Runner::next_frame(&mut pipeline), FramePoll::Stopped);
    assert_eq!(Runner::renderer_failed(&mut pipeline, code), Forward::Stopped);
    assert_eq!(pipeline.pending_events(), 2);

    game.calls.clear();
    now += MS;
    assert_eq!(Runner::game_thread(&mut game, &mut state, &mut pacer, &mut pipeline, now), Pace::Stop);
    assert_eq!(
        game.without_updates(),
        vec![
            Call::Input(InputEvent::MouseMove(Point::new(1, 2))),
            Call::Crash(Error::RendererError(code)),
        ]
    );
    assert_eq!(game.count(&Call::Crash(Error::RendererError(code))), 1);
    assert_eq!(game.count(&Call::Close), 0);
    assert_eq!(game.draws.get(), 3);
    assert!(!pipeline.logic_alive());
    assert_eq!(pipeline.pending_frames(), 0);
    assert_eq!(pipeline.pending_feedback(), 0);
}

#[test]
fn renderer_failure_waits_for_room_in_the_queue() {
    let mut pipeline: Pipeline<u32> = Pipeline::new();
    for n in 0..8 {
        assert_eq!(Runner::forward_event(&mut pipeline, motion(n)), Forward::Delivered);
    }
    let code = ash::vk::Result::ERROR_SURFACE_LOST_KHR;
    assert_eq!(Runner::renderer_failed(&mut pipeline, code), Forward::Busy);
    assert!(pipeline.presentation_alive());
    assert_eq!(pipeline.pending_events(), 8);
    assert_eq!(pipeline.next_event(), Ok(Event::Os(motion(0))));
    assert_eq!(Runner::renderer_failed(&mut pipeline, code), Forward::Delivered);
    assert!(!pipeline.presentation_alive());
    for n in 1..8 {
        assert_eq!(pipeline.next_event(), Ok(Event::Os(motion(n))));
    }
    assert_eq!(pipeline.next_event(), Ok(Event::Crash(Error::RendererError(code))));
    assert_eq!(pipeline.next_event(), Err(TryRecvError::Disconnected));
}

#[test]
fn renderer_failure_with_the_logic_side_gone_just_stops() {
    let mut pipeline: Pipeline<u32> = Pipeline::new();
    pipeline.logic_exited();
    let code = ash::vk::Result::ERROR_DEVICE_LOST;
    assert_eq!(Runner::renderer_failed(&mut pipeline, code), Forward::Stopped);
    assert!(!pipeline.presentation_alive());
    assert_eq!(pipeline.pending_events(), 0);
}

#[test]
fn idle_sleep_and_background_are_fixed() {
    assert_eq!(Runner::IDLE_SLEEP, MS);
    assert_eq!(Runner::BACKGROUND, 0xFF0A0A0A);
    assert_eq!(Runner::BACKGROUND >> 24, 255);
    assert_eq!((Runner::BACKGROUND >> 16) & 0xFF, 10);
}

#[test]
fn two_sides_trade_through_exchanges() {
    let (mut game, mut state, mut pacer, mut own) = setup();
    game.calls.clear();
    let mut shared: Pipeline<(u32, LogicalSize)> = Pipeline::new();
    let mut pending: VecDeque<OsEvent> = VecDeque::new();
    let mut now = 0;
    let mut shown = Vec::new();
    for pass in 0..20 {
        pending.push_back(motion(pass));
        match Runner::run(&mut shared, &mut pending) {
            Step::Present(frame) => shown.push(frame.0),
            Step::Idle => {}
            other => panic!("the presentation side gave {:?}", other),
        }
        own.exchange(&mut shared);
        now += 3 * MS;
        let pace = Runner::game_thread(&mut game, &mut state, &mut pacer, &mut own, now);
        assert!(matches!(pace, Pace::Resume { .. }));
        own.exchange(&mut shared);
        state.tick(now);
    }
    let inputs: Vec<Call> =
        (0..20).map(|n| Call::Input(InputEvent::MouseMove(Point::new(n, n + 1)))).collect();
    assert_eq!(game.without_updates(), inputs);
    assert_eq!(game.count(&Call::Update), 20);
    assert_eq!(game.draws.get(), 7);
    assert_eq!(shown, vec![1, 2, 3, 4, 5, 6, 7]);
    assert_eq!(shared.pending_frames(), 0);

    pending.push_back(OsEvent::Quit);
    pending.push_back(motion(77));
    assert_eq!(Runner::run(&mut shared, &mut pending), Step::Idle);
    own.exchange(&mut shared);
    assert_eq!(Runner::game_thread(&mut game, &mut state, &mut pacer, &mut own, now), Pace::Stop);
    own.exchange(&mut shared);
    assert_eq!(game.count(&Call::Close), 1);
    assert_eq!(game.calls.last(), Some(&Call::Close));
    assert!(!shared.logic_alive());
    assert_eq!(Runner::run(&mut shared, &mut pending), Step::Stopped);
    assert!(!shared.presentation_alive());
    own.exchange(&mut shared);
    assert_eq!(Runner::game_thread(&mut game, &mut state, &mut pacer, &mut own, now), Pace::Stop);
    assert_eq!(game.count(&Call::Close), 1);
}

#[test]
fn renderer_failure_crosses_the_exchange() {
    let (mut game, mut state, mut pacer, mut own) = setup();
    game.calls.clear();
    let mut shared: Pipeline<(u32, LogicalSize)> = Pipeline::new();
    let code = ash::vk::Result::ERROR_DEVICE_LOST;
    assert_eq!(Runner::forward_event(&mut shared, motion(1)), Forward::Delivered);
    assert_eq!(Runner::renderer_failed(&mut shared, code), Forward::Delivered);
    own.exchange(&mut shared);
    assert!(!own.presentation_alive());
    assert_eq!(Runner::game_thread(&mut game, &mut state, &mut pacer, &mut own, 9 * MS), Pace::Stop);
    own.exchange(&mut shared);
    assert_eq!(
        game.without_updates(),
        vec![
            Call::Input(InputEvent::MouseMove(Point::new(1, 2))),
            Call::Crash(Error::RendererError(code)),
        ]
    );
    assert_eq!(game.draws.get(), 0);
    assert!(!shared.logic_alive());
    assert!(!shared.presentation_alive());
    assert_eq!(shared.pending_feedback(), 0);
}
