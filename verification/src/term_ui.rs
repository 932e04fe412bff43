//! What the terminal dashboard keeps between two frames.

use vstd::prelude::*;

verus! {

/// The key that leaves the dashboard.
pub const EXIT_KEY: char = 'q';

/// The state of the dashboard: the title that its frame shows.
#[derive(Debug, Clone, Copy, PartialEq, Eq)]
pub struct TuiApp<'a> {
    title: &'a str,
}

impl<'a> View for TuiApp<'a> {
    type V = Seq<char>;

    closed spec fn view(&self) -> Seq<char> {
        self.title@
    }
}

impl<'a> TuiApp<'a> {
    pub fn new(title: &'a str) -> (app: TuiApp<'a>)
        ensures
            app@ == title@,
    {
        TuiApp { title }
    }

    /// The title that the frame shows.
    pub fn title(&self) -> (title: &'a str)
        ensures
            title@ == self@,
    {
        self.title
    }

    /// Whether a key asks to leave the dashboard.
    pub fn is_exit_key(key: char) -> (exit: bool)
        ensures
            exit == (key == EXIT_KEY),
    {
        key == EXIT_KEY
    }
}

} // verus!
