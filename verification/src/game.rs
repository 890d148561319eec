//! The runner and the contract between it and a simulation.

use vstd::prelude::*;

pub mod builder;
pub mod error;
pub mod input;
pub mod logic;
pub mod pacing;
pub mod pipeline;
pub mod presentation;
pub mod runner;
pub mod time;

pub use self::builder::Builder;
pub use self::error::Error;
pub use self::input::{EventHandleResult, InputEvent, InputState, LogicalSize, MouseButton, OsEvent, Point};
pub use self::runner::{Runner, State, ID};

verus! {

/// A simulation that the runner drives.
///
/// Every hook runs on the logic side. The runner calls `update` once per pass
/// of its loop, `input` and `set_size` for the events it has normalized, `draw`
/// whenever a frame is due, and exactly one of `close` and `crash` before it
/// stops.
pub trait Game {
    /// One recorded frame, handed as a whole to the presentation side.
    type Frame;

    /// Advances the simulation by one step.
    fn update(&mut self, state: &State);

    /// Records one frame for a surface of the given size. The simulation is
    /// not changed by drawing.
    fn draw(&self, state: &State, bounds: LogicalSize) -> Self::Frame;

    /// Handles one normalized input event.
    fn input(&mut self, state: &State, event: InputEvent);

    /// Tells the simulation the size of the window.
    fn set_size(&mut self, size: LogicalSize);

    /// Runs once before a graceful shutdown.
    fn close(&mut self);

    /// Runs once when the presentation side has reported a renderer failure.
    fn crash(&mut self, error: Error);
}

} // verus!
