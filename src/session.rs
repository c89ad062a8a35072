use crate::app::{App, Direction};
use vstd::prelude::*;

verus! {

/// One input event of an interactive session.
#[derive(Clone, Copy, Debug, PartialEq, Eq, Structural)]
pub enum InputEvent {
    InsertChar(char),
    DeleteBack,
    Up,
    Down,
    Confirm,
    Cancel,
}

/// How a session ended.
#[derive(Clone, Copy, Debug, PartialEq, Eq, Structural)]
pub enum Outcome {
    Confirmed,
    Cancelled,
}

/// Where a session stands: still taking events, or finished for good.
#[derive(Clone, Copy, Debug, PartialEq, Eq, Structural)]
pub enum SessionState {
    Editing,
    Finished(Outcome),
}

/// The session state that `ev` leads to from `state`.
pub open spec fn next_state(state: SessionState, ev: InputEvent) -> SessionState {
    match state {
        SessionState::Finished(_) => state,
        SessionState::Editing => match ev {
            InputEvent::Confirm => SessionState::Finished(Outcome::Confirmed),
            InputEvent::Cancel => SessionState::Finished(Outcome::Cancelled),
            _ => SessionState::Editing,
        },
    }
}

/// What `ev` does to the engine while the session is editing.
pub open spec fn event_applied(pre: App, post: App, ev: InputEvent) -> bool {
    match ev {
        InputEvent::InsertChar(c) => App::char_inserted(pre, post, c),
        InputEvent::DeleteBack => if pre.query@.len() == 0 {
            post == pre
        } else {
            App::char_removed(pre, post)
        },
        InputEvent::Up => App::cursor_moved(pre, post, Direction::Up) && post.wf(),
        InputEvent::Down => App::cursor_moved(pre, post, Direction::Down) && post.wf(),
        InputEvent::Confirm | InputEvent::Cancel => post == pre,
    }
}

/// Applies one event to the session: edits and moves go to the engine while it is
/// editing; confirm and cancel finish it; a finished session ignores every event.
pub fn handle_event(app: &mut App, state: SessionState, ev: InputEvent) -> (r: SessionState)
    requires
        old(app).wf(),
    ensures
        r == next_state(state, ev),
        final(app).wf(),
        state is Finished ==> *final(app) == *old(app),
        state is Editing ==> event_applied(*old(app), *final(app), ev),
{
    match state {
        SessionState::Finished(_) => state,
        SessionState::Editing => match ev {
            InputEvent::InsertChar(c) => {
                app.insert_char(c);
                SessionState::Editing
            },
            InputEvent::DeleteBack => {
                app.remove_char();
                SessionState::Editing
            },
            InputEvent::Up => {
                app.move_cursor(Direction::Up);
                SessionState::Editing
            },
            InputEvent::Down => {
                app.move_cursor(Direction::Down);
                SessionState::Editing
            },
            InputEvent::Confirm => SessionState::Finished(Outcome::Confirmed),
            InputEvent::Cancel => SessionState::Finished(Outcome::Cancelled),
        },
    }
}

/// The answer of a session: the highlighted candidate once it is confirmed; nothing
/// while it is editing or after it was cancelled.
pub fn final_selection(app: &App, state: SessionState) -> (r: Option<String>)
    ensures
        match r {
            Some(s) => state == SessionState::Finished(Outcome::Confirmed) && app.selected
                < app.filtered_files.len() && s@ == app.filtered_files@[app.selected as int]@,
            None => state != SessionState::Finished(Outcome::Confirmed) || app.selected
                >= app.filtered_files.len(),
        },
{
    match state {
        SessionState::Finished(Outcome::Confirmed) => app.current_selection(),
        _ => None,
    }
}

} // verus!
