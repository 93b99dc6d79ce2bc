//! The input dispatcher: a pure function from the current session state
//! and one input event to the next state and an optional session-level
//! command. It performs no I/O itself.
//!
//! Global keys come first whatever the focus: quit (`q`, interrupt),
//! history-view toggle (`y`), focus cycle (Tab). Everything else goes to
//! the focused panel's vocabulary.

use vstd::prelude::*;

use crate::app::{
    spec_clear_filter, spec_enter_filter, spec_pop_filter_char, spec_push_filter_char,
    spec_scroll_details_down, spec_scroll_details_up, spec_scroll_history_detail_down,
    spec_scroll_history_detail_up, spec_scroll_response_down, spec_scroll_response_up,
    spec_select_next, spec_select_next_history, spec_select_next_variable, spec_select_previous,
    spec_select_previous_history, spec_select_previous_variable, spec_set_response_tab,
    spec_toggle_focus, spec_toggle_history, wf_view, App, AppView, Focus, ResponseTab,
};

verus! {

/// One discrete input event, as the terminal layer reports it.
#[derive(Debug, Clone, Copy, PartialEq, Eq, Structural)]
pub enum Key {
    Up,
    Down,
    Left,
    Right,
    Enter,
    Tab,
    Esc,
    Backspace,
    PageUp,
    PageDown,
    CtrlC,
    Char(char),
}

/// What the session loop should do after one dispatched event.
#[derive(Debug, Clone, Copy, PartialEq, Eq, Structural)]
pub enum EventResult {
    /// Keep going; the state may have changed.
    Continue,
    /// Execute the selected request.
    ExecuteRequest,
    /// Re-execute the selected history entry's request.
    ExecuteHistoryEntry,
    /// End the session.
    Quit,
}

/// The request-list vocabulary while the filter is inactive.
pub open spec fn spec_request_list_keys(a: AppView, key: Key) -> (AppView, EventResult) {
    match key {
        Key::Up => (spec_select_previous(a), EventResult::Continue),
        Key::Char('k') => (spec_select_previous(a), EventResult::Continue),
        Key::Down => (spec_select_next(a), EventResult::Continue),
        Key::Char('j') => (spec_select_next(a), EventResult::Continue),
        Key::Enter => (a, EventResult::ExecuteRequest),
        Key::Char('/') => (spec_enter_filter(a), EventResult::Continue),
        _ => (a, EventResult::Continue),
    }
}

/// The request-list vocabulary while the filter is active: characters
/// build the filter text, backspace shrinks it or leaves the mode, escape
/// clears it; arrows still move, enter still executes.
pub open spec fn spec_filter_keys(a: AppView, key: Key) -> (AppView, EventResult) {
    match key {
        Key::Enter => (a, EventResult::ExecuteRequest),
        Key::Esc => (spec_clear_filter(a), EventResult::Continue),
        Key::Backspace => (spec_pop_filter_char(a), EventResult::Continue),
        Key::Up => (spec_select_previous(a), EventResult::Continue),
        Key::Down => (spec_select_next(a), EventResult::Continue),
        Key::Char(c) => (spec_push_filter_char(a, c), EventResult::Continue),
        _ => (a, EventResult::Continue),
    }
}

/// The response-panel vocabulary: sub-tab switches and scrolling of the
/// active sub-tab.
pub open spec fn spec_response_keys(a: AppView, key: Key) -> (AppView, EventResult) {
    match key {
        Key::Left => (spec_set_response_tab(a, ResponseTab::Body), EventResult::Continue),
        Key::Char('b') => (spec_set_response_tab(a, ResponseTab::Body), EventResult::Continue),
        Key::Right => (spec_set_response_tab(a, ResponseTab::Headers), EventResult::Continue),
        Key::Char('h') => (spec_set_response_tab(a, ResponseTab::Headers), EventResult::Continue),
        Key::Up => (spec_scroll_response_up(a, 1), EventResult::Continue),
        Key::Char('k') => (spec_scroll_response_up(a, 1), EventResult::Continue),
        Key::Down => (spec_scroll_response_down(a, 1), EventResult::Continue),
        Key::Char('j') => (spec_scroll_response_down(a, 1), EventResult::Continue),
        Key::PageUp => (spec_scroll_response_up(a, 10), EventResult::Continue),
        Key::PageDown => (spec_scroll_response_down(a, 10), EventResult::Continue),
        _ => (a, EventResult::Continue),
    }
}

/// The request-details vocabulary: scrolling clamped to the content.
pub open spec fn spec_details_keys(a: AppView, key: Key) -> (AppView, EventResult) {
    match key {
        Key::Up => (spec_scroll_details_up(a, 1), EventResult::Continue),
        Key::Char('k') => (spec_scroll_details_up(a, 1), EventResult::Continue),
        Key::Down => (spec_scroll_details_down(a, 1), EventResult::Continue),
        Key::Char('j') => (spec_scroll_details_down(a, 1), EventResult::Continue),
        Key::PageUp => (spec_scroll_details_up(a, 10), EventResult::Continue),
        Key::PageDown => (spec_scroll_details_down(a, 10), EventResult::Continue),
        _ => (a, EventResult::Continue),
    }
}

/// The variables-panel vocabulary: moving the secondary selection.
pub open spec fn spec_variables_keys(a: AppView, key: Key) -> (AppView, EventResult) {
    match key {
        Key::Up => (spec_select_previous_variable(a), EventResult::Continue),
        Key::Char('k') => (spec_select_previous_variable(a), EventResult::Continue),
        Key::Down => (spec_select_next_variable(a), EventResult::Continue),
        Key::Char('j') => (spec_select_next_variable(a), EventResult::Continue),
        _ => (a, EventResult::Continue),
    }
}

/// The history-list vocabulary: moving the history selection, and
/// re-executing the selected entry.
pub open spec fn spec_history_list_keys(a: AppView, key: Key) -> (AppView, EventResult) {
    match key {
        Key::Up => (spec_select_previous_history(a), EventResult::Continue),
        Key::Char('k') => (spec_select_previous_history(a), EventResult::Continue),
        Key::Down => (spec_select_next_history(a), EventResult::Continue),
        Key::Char('j') => (spec_select_next_history(a), EventResult::Continue),
        Key::Enter => (a, EventResult::ExecuteHistoryEntry),
        _ => (a, EventResult::Continue),
    }
}

/// The history-detail vocabulary: an independent scroll offset.
pub open spec fn spec_history_detail_keys(a: AppView, key: Key) -> (AppView, EventResult) {
    match key {
        Key::Up => (spec_scroll_history_detail_up(a, 1), EventResult::Continue),
        Key::Char('k') => (spec_scroll_history_detail_up(a, 1), EventResult::Continue),
        Key::Down => (spec_scroll_history_detail_down(a, 1), EventResult::Continue),
        Key::Char('j') => (spec_scroll_history_detail_down(a, 1), EventResult::Continue),
        Key::PageUp => (spec_scroll_history_detail_up(a, 10), EventResult::Continue),
        Key::PageDown => (spec_scroll_history_detail_down(a, 10), EventResult::Continue),
        _ => (a, EventResult::Continue),
    }
}

/// The whole dispatcher: the next state and the command one event yields.
pub open spec fn spec_dispatch(a: AppView, key: Key) -> (AppView, EventResult) {
    if key == Key::Char('q') || key == Key::CtrlC {
        (a, EventResult::Quit)
    } else if key == Key::Char('y') {
        (spec_toggle_history(a), EventResult::Continue)
    } else if key == Key::Tab {
        (spec_toggle_focus(a), EventResult::Continue)
    } else {
        match a.focus {
            Focus::RequestList => if a.filter_active {
                spec_filter_keys(a, key)
            } else {
                spec_request_list_keys(a, key)
            },
            Focus::ResponseBody => spec_response_keys(a, key),
            Focus::RequestDetails => spec_details_keys(a, key),
            Focus::VariablesList => spec_variables_keys(a, key),
            Focus::HistoryList => spec_history_list_keys(a, key),
            Focus::HistoryDetail => spec_history_detail_keys(a, key),
        }
    }
}

fn handle_request_list_keys(app: &mut App, key: Key) -> (r: EventResult)
    requires
        old(app).wf(),
        !old(app).filter_active,
    ensures
        (final(app)@, r) == spec_request_list_keys(old(app)@, key),
        final(app).wf(),
{
    match key {
        Key::Up | Key::Char('k') => {
            app.select_previous();
            EventResult::Continue
        },
        Key::Down | Key::Char('j') => {
            app.select_next();
            EventResult::Continue
        },
        Key::Enter => EventResult::ExecuteRequest,
        Key::Char('/') => {
            app.enter_filter();
            EventResult::Continue
        },
        _ => EventResult::Continue,
    }
}

fn handle_filter_keys(app: &mut App, key: Key) -> (r: EventResult)
    requires
        old(app).wf(),
        old(app).filter_active,
    ensures
        (final(app)@, r) == spec_filter_keys(old(app)@, key),
        final(app).wf(),
{
    match key {
        Key::Enter => EventResult::ExecuteRequest,
        Key::Esc => {
            app.clear_filter();
            EventResult::Continue
        },
        Key::Backspace => {
            app.pop_filter_char();
            EventResult::Continue
        },
        Key::Up => {
            app.select_previous();
            EventResult::Continue
        },
        Key::Down => {
            app.select_next();
            EventResult::Continue
        },
        Key::Char(c) => {
            app.push_filter_char(c);
            EventResult::Continue
        },
        _ => EventResult::Continue,
    }
}

fn handle_response_keys(app: &mut App, key: Key) -> (r: EventResult)
    requires
        old(app).wf(),
    ensures
        (final(app)@, r) == spec_response_keys(old(app)@, key),
        final(app).wf(),
{
    match key {
        Key::Left | Key::Char('b') => {
            app.set_response_tab(ResponseTab::Body);
            EventResult::Continue
        },
        Key::Right | Key::Char('h') => {
            app.set_response_tab(ResponseTab::Headers);
            EventResult::Continue
        },
        Key::Up | Key::Char('k') => {
            app.scroll_up();
            EventResult::Continue
        },
        Key::Down | Key::Char('j') => {
            app.scroll_down();
            EventResult::Continue
        },
        Key::PageUp => {
            app.scroll_response_up_by(10);
            EventResult::Continue
        },
        Key::PageDown => {
            app.scroll_response_down_by(10);
            EventResult::Continue
        },
        _ => EventResult::Continue,
    }
}

fn handle_details_keys(app: &mut App, key: Key) -> (r: EventResult)
    requires
        old(app).wf(),
    ensures
        (final(app)@, r) == spec_details_keys(old(app)@, key),
        final(app).wf(),
{
    match key {
        Key::Up | Key::Char('k') => {
            app.scroll_request_details_up();
            EventResult::Continue
        },
        Key::Down | Key::Char('j') => {
            app.scroll_request_details_down();
            EventResult::Continue
        },
        Key::PageUp => {
            app.scroll_request_details_up_by(10);
            EventResult::Continue
        },
        Key::PageDown => {
            app.scroll_request_details_down_by(10);
            EventResult::Continue
        },
        _ => EventResult::Continue,
    }
}

fn handle_variables_keys(app: &mut App, key: Key) -> (r: EventResult)
    requires
        old(app).wf(),
    ensures
        (final(app)@, r) == spec_variables_keys(old(app)@, key),
        final(app).wf(),
{
    match key {
        Key::Up | Key::Char('k') => {
            app.select_previous_variable();
            EventResult::Continue
        },
        Key::Down | Key::Char('j') => {
            app.select_next_variable();
            EventResult::Continue
        },
        _ => EventResult::Continue,
    }
}

fn handle_history_list_keys(app: &mut App, key: Key) -> (r: EventResult)
    requires
        old(app).wf(),
    ensures
        (final(app)@, r) == spec_history_list_keys(old(app)@, key),
        final(app).wf(),
{
    match key {
        Key::Up | Key::Char('k') => {
            app.select_previous_history();
            EventResult::Continue
        },
        Key::Down | Key::Char('j') => {
            app.select_next_history();
            EventResult::Continue
        },
        Key::Enter => EventResult::ExecuteHistoryEntry,
        _ => EventResult::Continue,
    }
}

fn handle_history_detail_keys(app: &mut App, key: Key) -> (r: EventResult)
    requires
        old(app).wf(),
    ensures
        (final(app)@, r) == spec_history_detail_keys(old(app)@, key),
        final(app).wf(),
{
    match key {
        Key::Up | Key::Char('k') => {
            app.scroll_history_detail_up(1);
            EventResult::Continue
        },
        Key::Down | Key::Char('j') => {
            app.scroll_history_detail_down(1);
            EventResult::Continue
        },
        Key::PageUp => {
            app.scroll_history_detail_up(10);
            EventResult::Continue
        },
        Key::PageDown => {
            app.scroll_history_detail_down(10);
            EventResult::Continue
        },
        _ => EventResult::Continue,
    }
}

/// Dispatches one input event: global keys first (quit, history toggle,
/// focus cycle), then the focused panel's vocabulary. Pure state
/// transition — the caller performs any commanded execution.
pub fn handle_key_event(app: &mut App, key: Key) -> (r: EventResult)
    requires
        old(app).wf(),
    ensures
        (final(app)@, r) == spec_dispatch(old(app)@, key),
        final(app).wf(),
{
    match key {
        Key::Char('q') | Key::CtrlC => {
            return EventResult::Quit;
        },
        Key::Char('y') => {
            app.toggle_history_view();
            return EventResult::Continue;
        },
        Key::Tab => {
            app.toggle_focus();
            return EventResult::Continue;
        },
        _ => {},
    }
    match app.focus {
        Focus::RequestList => {
            if app.filter_active {
                handle_filter_keys(app, key)
            } else {
                handle_request_list_keys(app, key)
            }
        },
        Focus::ResponseBody => handle_response_keys(app, key),
        Focus::RequestDetails => handle_details_keys(app, key),
        Focus::VariablesList => handle_variables_keys(app, key),
        Focus::HistoryList => handle_history_list_keys(app, key),
        Focus::HistoryDetail => handle_history_detail_keys(app, key),
    }
}

} // verus!
