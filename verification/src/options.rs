//! What one rendering is configured with.

use vstd::prelude::*;
use crate::window::Window;

verus! {

/// The iteration budget of an evaluation where none is named.
pub const DEFAULT_ITERATIONS: usize = 250;

/// The iteration budget and the window of one rendering.
#[derive(Clone, Copy, Debug, PartialEq, Eq, Structural)]
pub struct Options {
    pub iterations: usize,
    pub window: Window,
}

impl Options {
    /// Options can be rendered when the budget is at least one step and
    /// the window is valid.
    pub open spec fn valid(self) -> bool {
        self.iterations > 0 && self.window.valid()
    }

    /// Whether the options can be rendered.
    pub fn is_valid(&self) -> (b: bool)
        ensures
            b == self.valid(),
    {
        self.iterations > 0 && self.window.is_valid()
    }
}

impl Default for Options {
    fn default() -> (o: Options)
        ensures
            o.iterations == DEFAULT_ITERATIONS,
            o.window == Window::classic(),
            o.valid(),
    {
        Options { iterations: DEFAULT_ITERATIONS, window: Window::default() }
    }
}

} // verus!
