//! The search-box input model and the debounce decision.
//!
//! The input line is a character vector with a cursor, edited one keystroke
//! at a time.  After every edit the caller waits out a debounce window;
//! `search_decision` says, from the pending flag, the elapsed time and the
//! query texts, whether to start a search, clear the results, or keep
//! waiting.

use vstd::prelude::*;

use crate::normalize::str_eq;
use crate::parse::{trim_spec, trim_str};

verus! {

/// Whether keystrokes navigate or edit the search box.
#[derive(Clone, Copy, PartialEq, Eq, Structural)]
pub enum InputMode {
    Normal,
    Editing,
}

/// What the debounce check decides.
#[derive(Clone, Copy, PartialEq, Eq, Structural)]
pub enum SearchAction {
    /// Run a search for the trimmed input now.
    Start,
    /// The input is empty: drop the shown results.
    Clear,
    /// Nothing to do yet.
    Wait,
}

/// The decision for one debounce check: nothing happens while no edit is
/// pending or the window has not elapsed; an emptied input clears the
/// results; an input equal to the last query searched is left alone; any
/// other input starts a search.
pub open spec fn search_decision_spec(
    pending: bool,
    elapsed_ms: u64,
    debounce_ms: u64,
    input: Seq<char>,
    last_query: Seq<char>,
) -> SearchAction {
    if !pending || elapsed_ms < debounce_ms {
        SearchAction::Wait
    } else if trim_spec(input).len() == 0 {
        SearchAction::Clear
    } else if trim_spec(input) == last_query {
        SearchAction::Wait
    } else {
        SearchAction::Start
    }
}

/// Decides what a debounce check should do; see `search_decision_spec`.
pub fn search_decision(
    pending: bool,
    elapsed_ms: u64,
    debounce_ms: u64,
    input: &str,
    last_query: &str,
) -> (r: SearchAction)
    ensures
        r == search_decision_spec(pending, elapsed_ms, debounce_ms, input@, last_query@),
{
    if !pending || elapsed_ms < debounce_ms {
        return SearchAction::Wait;
    }
    let trimmed = trim_str(input);
    if trimmed.as_str().is_empty() {
        SearchAction::Clear
    } else if str_eq(trimmed.as_str(), last_query) {
        SearchAction::Wait
    } else {
        SearchAction::Start
    }
}

/// The text being typed into the search box, with the cursor position in
/// characters.
pub struct InputState {
    pub chars: Vec<char>,
    pub cursor: usize,
}

impl InputState {
    /// The cursor never leaves the text.
    pub open spec fn wf(&self) -> bool {
        self.cursor <= self.chars@.len()
    }

    pub fn new() -> (r: InputState)
        ensures
            r.wf(),
            r.chars@ == Seq::<char>::empty(),
            r.cursor == 0,
    {
        InputState { chars: Vec::new(), cursor: 0 }
    }

    /// Moves the cursor one character left, stopping at the start.
    pub fn move_cursor_left(&mut self)
        requires
            old(self).wf(),
        ensures
            final(self).wf(),
            final(self).chars == old(self).chars,
            final(self).cursor as int == if old(self).cursor > 0 {
                old(self).cursor - 1
            } else {
                0int
            },
    {
        if self.cursor > 0 {
            self.cursor = self.cursor - 1;
        }
    }

    /// Moves the cursor one character right, stopping at the end.
    pub fn move_cursor_right(&mut self)
        requires
            old(self).wf(),
        ensures
            final(self).wf(),
            final(self).chars == old(self).chars,
            final(self).cursor as int == if old(self).cursor < old(self).chars@.len() {
                old(self).cursor + 1
            } else {
                old(self).chars@.len() as int
            },
    {
        if self.cursor < self.chars.len() {
            self.cursor = self.cursor + 1;
        }
    }

    /// Inserts a character at the cursor and moves the cursor past it.
    pub fn enter_char(&mut self, c: char)
        requires
            old(self).wf(),
        ensures
            final(self).wf(),
            final(self).chars@ == old(self).chars@.insert(old(self).cursor as int, c),
            final(self).cursor == old(self).cursor + 1,
    {
        self.chars.insert(self.cursor, c);
        self.move_cursor_right();
    }

    /// Deletes the character before the cursor, when there is one.
    pub fn delete_char(&mut self)
        requires
            old(self).wf(),
        ensures
            final(self).wf(),
            old(self).cursor == 0 ==> *final(self) == *old(self),
            old(self).cursor > 0 ==> final(self).chars@ == old(self).chars@.remove(
                old(self).cursor - 1,
            ) && final(self).cursor == old(self).cursor - 1,
    {
        if self.cursor != 0 {
            self.chars.remove(self.cursor - 1);
            self.cursor = self.cursor - 1;
        }
    }

    /// Puts the cursor back at the start.
    pub fn reset_cursor(&mut self)
        ensures
            final(self).wf(),
            final(self).chars == old(self).chars,
            final(self).cursor == 0,
    {
        self.cursor = 0;
    }

    /// Empties the input and puts the cursor back at the start.
    pub fn clear(&mut self)
        ensures
            final(self).wf(),
            final(self).chars@ == Seq::<char>::empty(),
            final(self).cursor == 0,
    {
        self.chars.clear();
        self.cursor = 0;
    }
}

} // verus!
