//! The decisions of the interactive viewer: what a key does to the state,
//! how long to wait for input, and how the countdown is shown.

use vstd::prelude::*;
use crate::entry::PERIOD;
use crate::registry::{Registry, moved_down, moved_up, persist_of};

verus! {

/// Seconds left in a window at or under which a row is highlighted.
pub const EXPIRY_WARNING: u64 = 5;

/// A key press, as the viewer tells them apart.
#[derive(Debug, Clone, Copy, PartialEq, Eq, Structural)]
pub enum Key {
    Quit,
    Up,
    Down,
    Copy,
    Delete,
    Save,
    Other,
}

/// What the loop around the state has to do after a key.
#[derive(Debug, Clone, PartialEq, Eq)]
pub enum Effect {
    /// Nothing beyond a redraw.
    Nothing,
    /// Put the current code of the credential at this index on the clipboard.
    CopyCode(usize),
    /// Write this text to the data file, replacing what it held.
    Store(String),
}

/// How a row of the table is highlighted.
#[derive(Debug, Clone, Copy, PartialEq, Eq, Structural)]
pub enum RowStyle {
    Plain,
    Selected,
    Expiring,
    SelectedExpiring,
}

/// The registry on show and whether the viewer is to stop.
pub struct ViewerState {
    pub registry: Registry,
    pub should_quit: bool,
}

impl ViewerState {
    /// A running viewer over a registry.
    pub fn new(registry: Registry) -> (r: ViewerState)
        ensures
            r.registry == registry,
            !r.should_quit,
    {
        ViewerState { registry, should_quit: false }
    }

    /// Applies one key to the state and says what is left to do outside.
    pub fn handle_key(&mut self, key: Key) -> (r: Effect)
        requires
            old(self).registry.wf(),
        ensures
            final(self).registry.wf(),
            final(self).should_quit == (old(self).should_quit || key == Key::Quit),
            key == Key::Up ==> final(self).registry@ == (
                old(self).registry@.0,
                moved_up(old(self).registry@.0.len(), old(self).registry@.1),
            ),
            key == Key::Down ==> final(self).registry@ == (
                old(self).registry@.0,
                moved_down(old(self).registry@.0.len(), old(self).registry@.1),
            ),
            key == Key::Delete ==> {
                &&& final(self).registry@.1 is None
                &&& old(self).registry@.1 matches Some(i) ==> final(self).registry@.0
                    == old(self).registry@.0.remove(i as int)
                &&& old(self).registry@.1 is None ==> final(self).registry@.0 == old(
                    self,
                ).registry@.0
            },
            key != Key::Up && key != Key::Down && key != Key::Delete ==> final(self).registry@ == old(
                self,
            ).registry@,
            key == Key::Copy ==> r == match old(self).registry@.1 {
                Some(i) => Effect::CopyCode(i),
                None => Effect::Nothing,
            },
            key == Key::Save ==> (r matches Effect::Store(t) && t@ == persist_of(
                old(self).registry@.0,
            )),
            key != Key::Copy && key != Key::Save ==> r == Effect::Nothing,
    {
        match key {
            Key::Quit => {
                self.should_quit = true;
                Effect::Nothing
            },
            Key::Up => {
                self.registry.move_up();
                Effect::Nothing
            },
            Key::Down => {
                self.registry.move_down();
                Effect::Nothing
            },
            Key::Copy => match self.registry.selected_index() {
                Some(i) => Effect::CopyCode(i),
                None => Effect::Nothing,
            },
            Key::Delete => {
                self.registry.delete_selected();
                Effect::Nothing
            },
            Key::Save => Effect::Store(self.registry.persist()),
            Key::Other => Effect::Nothing,
        }
    }
}

/// How long to wait for input: what is left of the tick, or nothing once
/// the tick has run out.
pub fn poll_timeout_ms(tick_ms: u64, elapsed_ms: u64) -> (r: u64)
    ensures
        r == if elapsed_ms <= tick_ms { tick_ms - elapsed_ms } else { 0 },
{
    match tick_ms.checked_sub(elapsed_ms) {
        Some(d) => d,
        None => 0,
    }
}

/// Whether a whole tick has passed, so that the tick clock starts anew.
pub fn tick_due(tick_ms: u64, elapsed_ms: u64) -> (r: bool)
    ensures
        r == (elapsed_ms >= tick_ms),
{
    elapsed_ms >= tick_ms
}

/// The share of the window that is left, in percent: 100 less the elapsed
/// share rounded to the nearest whole percent.
pub open spec fn percent_left(remaining: nat) -> int {
    100 - (10 * (PERIOD - remaining) + 1) / 3
}

/// The countdown gauge for the seconds left in the window, if known: the
/// percent left and the seconds; a full window where they are not known.
pub fn gauge(remaining: Option<u64>) -> (r: (u64, u64))
    requires
        remaining matches Some(x) ==> x <= PERIOD,
    ensures
        remaining matches Some(x) ==> r == (percent_left(x as nat) as u64, x),
        remaining is None ==> r == (100u64, PERIOD),
        r.0 <= 100,
{
    match remaining {
        Some(x) => {
            let elapsed = PERIOD - x;
            (100 - (10 * elapsed + 1) / 3, x)
        },
        None => (100, PERIOD),
    }
}

/// How a row is highlighted: a selected row, and a row whose code is about
/// to expire, stand out; a selected row about to expire stands out most.
pub fn row_style(remaining: u64, is_selected: bool) -> (r: RowStyle)
    ensures
        r == if is_selected && remaining <= EXPIRY_WARNING {
            RowStyle::SelectedExpiring
        } else if is_selected {
            RowStyle::Selected
        } else if remaining <= EXPIRY_WARNING {
            RowStyle::Expiring
        } else {
            RowStyle::Plain
        },
{
    if is_selected && remaining <= EXPIRY_WARNING {
        RowStyle::SelectedExpiring
    } else if is_selected {
        RowStyle::Selected
    } else if remaining <= EXPIRY_WARNING {
        RowStyle::Expiring
    } else {
        RowStyle::Plain
    }
}

} // verus!
