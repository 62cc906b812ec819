//! The events of the display: which key stands for which event, what a round
//! of polling sends, and what an event does to the results.

use vstd::prelude::*;

use crate::store::{Data, RunState};

verus! {

/// What the user, or the clock, asks of the display.
#[derive(Clone, Copy, Debug, PartialEq, Eq, Structural)]
pub enum InputEvent {
    Quit,
    Up,
    Down,
    Select,
    Tick,
}

/// A key as the keyboard reports it, as far as the display tells keys apart.
#[derive(Clone, Copy, Debug, PartialEq, Eq, Structural)]
pub enum Key {
    Char(char),
    Up,
    Down,
    Other,
}

/// The event that a key stands for, if any: `q` quits, the arrows move the
/// cursor, the space bar selects.
pub open spec fn event_of_key(key: Key) -> Option<InputEvent> {
    match key {
        Key::Char(c) => if c == 'q' {
            Some(InputEvent::Quit)
        } else if c == ' ' {
            Some(InputEvent::Select)
        } else {
            None
        },
        Key::Up => Some(InputEvent::Up),
        Key::Down => Some(InputEvent::Down),
        Key::Other => None,
    }
}

pub fn map_input_to_event(input_code: &Key) -> (event: Option<InputEvent>)
    ensures
        event == event_of_key(*input_code),
{
    match input_code {
        Key::Char('q') => Some(InputEvent::Quit),
        Key::Up => Some(InputEvent::Up),
        Key::Down => Some(InputEvent::Down),
        Key::Char(' ') => Some(InputEvent::Select),
        _ => None,
    }
}

/// The events of one round of polling: the event of the key that was read,
/// if one was read and it stands for an event, and then a tick.
pub open spec fn poll_events(key: Option<Key>) -> Seq<InputEvent> {
    match key {
        Some(key) => match event_of_key(key) {
            Some(event) => seq![event, InputEvent::Tick],
            None => seq![InputEvent::Tick],
        },
        None => seq![InputEvent::Tick],
    }
}

/// The events to send after one round of polling the keyboard, in the order
/// in which they are sent. `key` is the key that was read in this round.
pub fn events_for_poll(key: Option<Key>) -> (events: Vec<InputEvent>)
    ensures
        events@ == poll_events(key),
{
    let mut events: Vec<InputEvent> = Vec::new();
    if let Some(key) = key {
        if let Some(event) = map_input_to_event(&key) {
            events.push(event);
        }
    }
    events.push(InputEvent::Tick);
    events
}

/// The results after an event of the display: the arrows move the cursor, no
/// other event changes anything.
pub open spec fn after_input(state: RunState, event: InputEvent) -> RunState {
    match event {
        InputEvent::Up => state.previous(),
        InputEvent::Down => state.next(),
        _ => state,
    }
}

/// Whether the results can take `event`: an arrow needs a cursor that can
/// move.
pub open spec fn takes_input(state: RunState, event: InputEvent) -> bool {
    (event is Up || event is Down) ==> state.can_move()
}

/// Applies one event of the display to the results and says whether the
/// display is to close.
pub fn apply_input(data: &mut Data, event: InputEvent) -> (quit: bool)
    requires
        takes_input(old(data)@, event),
    ensures
        final(data)@ == after_input(old(data)@, event),
        quit == (event is Quit),
{
    match event {
        InputEvent::Quit => true,
        InputEvent::Tick => false,
        InputEvent::Up => {
            data.previous();
            false
        },
        InputEvent::Down => {
            data.next();
            false
        },
        InputEvent::Select => false,
    }
}

/// The least width of a terminal that the display fits in.
pub const MIN_WIDTH: u16 = 52;

/// The least height of a terminal that the display fits in.
pub const MIN_HEIGHT: u16 = 28;

/// Why a terminal is too small for the display, with the size it has.
#[derive(Clone, Copy, Debug, PartialEq, Eq, Structural)]
pub enum SizeError {
    Width(u16),
    Height(u16),
}

/// Checks that a terminal of `width` columns and `height` rows holds the
/// display. A width that is too small is reported before the height.
pub fn check_size(width: u16, height: u16) -> (fit: Result<(), SizeError>)
    ensures
        width < MIN_WIDTH ==> fit == Err::<(), SizeError>(SizeError::Width(width)),
        width >= MIN_WIDTH && height < MIN_HEIGHT ==> fit == Err::<(), SizeError>(
            SizeError::Height(height),
        ),
        width >= MIN_WIDTH && height >= MIN_HEIGHT ==> fit is Ok,
{
    if width < MIN_WIDTH {
        return Err(SizeError::Width(width));
    }
    if height < MIN_HEIGHT {
        return Err(SizeError::Height(height));
    }
    Ok(())
}

} // verus!
