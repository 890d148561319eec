//! Tachibana drives an interactive simulation and its presentation at two
//! independent rates. The logic side consumes input, updates the simulation and
//! records frames; the presentation side pumps the window system and shows the
//! frame that is ready. The two sides meet only in three bounded queues.
//!
//! This crate holds the scheduling and transport rules of that pipeline as
//! plain functions on plain values. Threads, the window, the renderer, the
//! clock and sleeping belong to the embedding program.

pub mod game;
