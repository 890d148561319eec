//! Input: what the window system reports, what the simulation is told, and
//! the snapshot that the runner keeps between the two.

use vstd::prelude::*;

verus! {

/// A size in logical pixels.
#[derive(Clone, Copy, Debug, PartialEq, Eq, Structural)]
pub struct LogicalSize {
    pub width: u32,
    pub height: u32,
}

impl LogicalSize {
    pub fn new(width: u32, height: u32) -> (s: LogicalSize)
        ensures
            s == (LogicalSize { width, height }),
    {
        LogicalSize { width, height }
    }
}

/// A pointer position in window coordinates.
#[derive(Clone, Copy, Debug, PartialEq, Eq, Structural)]
pub struct Point {
    pub x: i32,
    pub y: i32,
}

impl Point {
    pub fn new(x: i32, y: i32) -> (p: Point)
        ensures
            p == (Point { x, y }),
    {
        Point { x, y }
    }
}

#[derive(Clone, Copy, Debug, PartialEq, Eq, Structural)]
pub enum MouseButton {
    Left,
    Middle,
    Right,
    Other,
}

/// One event of the window system, as the presentation side read it.
#[derive(Clone, Copy, Debug, PartialEq, Eq, Structural)]
pub enum OsEvent {
    /// The user asked to close the window.
    Quit,
    /// The window has a new size. The window system reports signed numbers.
    Resized { width: i32, height: i32 },
    MouseMotion { x: i32, y: i32 },
    MouseButtonDown { button: MouseButton, x: i32, y: i32 },
    MouseButtonUp { button: MouseButton, x: i32, y: i32 },
    KeyDown { keycode: i32 },
    KeyUp { keycode: i32 },
    /// Anything the runner has no use for.
    Other,
}

/// One interaction, as the simulation is told of it.
#[derive(Clone, Copy, Debug, PartialEq, Eq, Structural)]
pub enum InputEvent {
    MouseMove(Point),
    MouseDown(MouseButton, Point),
    MouseUp(MouseButton, Point),
    KeyDown(i32),
    KeyUp(i32),
}

/// What the runner does with an event of the window system.
#[derive(Clone, Copy, Debug, PartialEq, Eq, Structural)]
pub enum EventHandleResult {
    /// Hand the event to the simulation.
    Input(InputEvent),
    /// Tell the simulation the new window size.
    Resized(LogicalSize),
    /// Shut down.
    Exit,
}

/// A reported window dimension as a size: a negative one counts as zero.
pub open spec fn dimension(reported: i32) -> u32 {
    if reported < 0 { 0u32 } else { reported as u32 }
}

/// The current window size and pointer position.
#[derive(Clone, Copy, Debug, PartialEq, Eq, Structural)]
pub struct InputState {
    pub window_size: LogicalSize,
    pub mouse_position: Point,
}

impl InputState {
    /// The snapshot after `event`: a resize sets the window size, every
    /// pointer event sets the pointer position, nothing else changes anything.
    pub open spec fn after(self, event: OsEvent) -> InputState {
        match event {
            OsEvent::Resized { width, height } => InputState {
                window_size: LogicalSize { width: dimension(width), height: dimension(height) },
                mouse_position: self.mouse_position,
            },
            OsEvent::MouseMotion { x, y } => InputState {
                window_size: self.window_size,
                mouse_position: Point { x, y },
            },
            OsEvent::MouseButtonDown { button, x, y } => InputState {
                window_size: self.window_size,
                mouse_position: Point { x, y },
            },
            OsEvent::MouseButtonUp { button, x, y } => InputState {
                window_size: self.window_size,
                mouse_position: Point { x, y },
            },
            _ => self,
        }
    }

    /// What the runner does with `event`.
    pub open spec fn outcome(event: OsEvent) -> Option<EventHandleResult> {
        match event {
            OsEvent::Quit => Some(EventHandleResult::Exit),
            OsEvent::Resized { width, height } => Some(
                EventHandleResult::Resized(
                    LogicalSize { width: dimension(width), height: dimension(height) },
                ),
            ),
            OsEvent::MouseMotion { x, y } => Some(
                EventHandleResult::Input(InputEvent::MouseMove(Point { x, y })),
            ),
            OsEvent::MouseButtonDown { button, x, y } => Some(
                EventHandleResult::Input(InputEvent::MouseDown(button, Point { x, y })),
            ),
            OsEvent::MouseButtonUp { button, x, y } => Some(
                EventHandleResult::Input(InputEvent::MouseUp(button, Point { x, y })),
            ),
            OsEvent::KeyDown { keycode } => Some(
                EventHandleResult::Input(InputEvent::KeyDown(keycode)),
            ),
            OsEvent::KeyUp { keycode } => Some(EventHandleResult::Input(InputEvent::KeyUp(keycode))),
            OsEvent::Other => None,
        }
    }

    /// The snapshot of a fresh window: the given size, the pointer at the
    /// origin.
    pub fn new(window_size: LogicalSize) -> (s: InputState)
        ensures
            s == (InputState { window_size, mouse_position: Point { x: 0, y: 0 } }),
    {
        InputState { window_size, mouse_position: Point { x: 0, y: 0 } }
    }

    /// Takes one event of the window system into the snapshot and says what
    /// the runner is to do with it.
    pub fn handle_event(&mut self, event: &OsEvent) -> (r: Option<EventHandleResult>)
        ensures
            *final(self) == old(self).after(*event),
            r == InputState::outcome(*event),
    {
        match *event {
            OsEvent::Quit => Some(EventHandleResult::Exit),
            OsEvent::Resized { width, height } => {
                let size = LogicalSize { width: clamp(width), height: clamp(height) };
                self.window_size = size;
                Some(EventHandleResult::Resized(size))
            },
            OsEvent::MouseMotion { x, y } => {
                self.mouse_position = Point { x, y };
                Some(EventHandleResult::Input(InputEvent::MouseMove(Point { x, y })))
            },
            OsEvent::MouseButtonDown { button, x, y } => {
                self.mouse_position = Point { x, y };
                Some(EventHandleResult::Input(InputEvent::MouseDown(button, Point { x, y })))
            },
            OsEvent::MouseButtonUp { button, x, y } => {
                self.mouse_position = Point { x, y };
                Some(EventHandleResult::Input(InputEvent::MouseUp(button, Point { x, y })))
            },
            OsEvent::KeyDown { keycode } => Some(
                EventHandleResult::Input(InputEvent::KeyDown(keycode)),
            ),
            OsEvent::KeyUp { keycode } => Some(EventHandleResult::Input(InputEvent::KeyUp(keycode))),
            OsEvent::Other => None,
        }
    }
}

fn clamp(reported: i32) -> (d: u32)
    ensures
        d == dimension(reported),
{
    if reported < 0 { 0 } else { reported as u32 }
}

} // verus!
