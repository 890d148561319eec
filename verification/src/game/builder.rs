//! The options with which the window is opened.

use crate::game::input::LogicalSize;
use vstd::prelude::*;

verus! {

/// The options as a value.
pub struct BuilderView {
    pub inner_size: LogicalSize,
    pub window_title: Seq<char>,
}

/// Collects the options of the window before the runner starts. The embedding
/// program reads them when it opens the window.
pub struct Builder<'a> {
    inner_size: LogicalSize,
    window_title: &'a str,
}

impl<'a> View for Builder<'a> {
    type V = BuilderView;

    closed spec fn view(&self) -> BuilderView {
        BuilderView { inner_size: self.inner_size, window_title: self.window_title@ }
    }
}

impl<'a> Default for Builder<'a> {
    fn default() -> (b: Self)
        ensures
            b@ == Builder::defaults(),
    {
        Builder::new()
    }
}

impl<'a> Builder<'a> {
    /// The options of a builder that nothing was asked of: a window of 1280
    /// by 720 logical pixels with the title "Tachibana".
    pub open spec fn defaults() -> BuilderView {
        BuilderView {
            inner_size: LogicalSize { width: 1280, height: 720 },
            window_title: "Tachibana"@,
        }
    }

    /// A builder with the default options.
    pub fn new() -> (b: Self)
        ensures
            b@ == Builder::defaults(),
    {
        Builder { inner_size: LogicalSize::new(1280, 720), window_title: "Tachibana" }
    }

    /// Sets the inner size of the window.
    pub fn inner_size(self, inner_size: LogicalSize) -> (b: Self)
        ensures
            b@ == (BuilderView { inner_size, window_title: self@.window_title }),
    {
        Builder { inner_size, window_title: self.window_title }
    }

    /// Sets the title with which the window is created.
    pub fn window_title(self, title: &'a str) -> (b: Self)
        ensures
            b@ == (BuilderView { inner_size: self@.inner_size, window_title: title@ }),
    {
        Builder { inner_size: self.inner_size, window_title: title }
    }

    /// The inner size that the window is to have.
    pub fn size(&self) -> (s: LogicalSize)
        ensures
            s == self@.inner_size,
    {
        self.inner_size
    }

    /// The title that the window is to have.
    pub fn title(&self) -> (t: &'a str)
        ensures
            t@ == self@.window_title,
    {
        self.window_title
    }
}

} // verus!
