//! What the interactive client does about its user's input.

use vstd::prelude::*;

verus! {

/// What a terminal reports.
#[derive(Debug, Clone, Copy, PartialEq, Eq, Structural)]
pub enum InputEvent {
    FocusGained,
    FocusLost,
    /// A key; its character, if it has one.
    Key(Option<char>),
    Mouse,
    Paste,
    Resize,
}

/// What is to be done about it.
#[derive(Debug, Clone, Copy, PartialEq, Eq, Structural)]
pub enum Action {
    Nothing,
    Exit,
}

/// What is to be done about an event.
pub open spec fn action_for(event: InputEvent) -> Action {
    match event {
        InputEvent::Key(Some(c)) => if c == 'q' {
            Action::Exit
        } else {
            Action::Nothing
        },
        _ => Action::Nothing,
    }
}

/// The program ends if and only if its user presses the key `q`.
pub proof fn only_q_ends_the_program(event: InputEvent)
    ensures
        action_for(event) is Exit <==> event == InputEvent::Key(Some('q')),
{
}

/// The key `q` ends the program; nothing else has an effect.
pub fn handle_event(event: InputEvent) -> (action: Action)
    ensures
        action == action_for(event),
{
    match event {
        InputEvent::Key(Some(c)) => {
            if c == 'q' {
                Action::Exit
            } else {
                Action::Nothing
            }
        },
        _ => Action::Nothing,
    }
}

} // verus!
