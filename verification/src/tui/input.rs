//! Keys and what they do: each key press becomes one action on the state,
//! and the action decides whether the session goes on.
use vstd::prelude::*;
use crate::tui::state::{panel_after, panel_before, FocusPanel, RiskFilter, SortMode, TuiState, filter_after, sort_after};

verus! {

/// A key as the terminal reports it.
#[derive(Debug, Clone, Copy, PartialEq, Eq, Structural)]
pub enum Key {
    Char(char),
    Up,
    Down,
    Left,
    Right,
    Home,
    End,
    Tab,
    BackTab,
    Enter,
    Esc,
    Other,
}

/// What a key press asks of the state.
#[derive(Debug, Clone, Copy, PartialEq, Eq, Structural)]
pub enum Action {
    Quit,
    Next,
    Previous,
    First,
    Last,
    NextFilter,
    NextSort,
    ResetView,
    PreviousPanel,
    NextPanel,
    Ignore,
}

/// The action of a key, `ctrl` telling whether Control was held: `q`, `Q`,
/// Esc and Ctrl+C quit; Down, `j`, `n` move down and Up, `k`, `p` move up
/// (either case); Home and End jump; `f`, `s`, `r` change the filter, the
/// sort and reset the view; BackTab and Left go to the previous panel; Tab,
/// Right, Enter, Space, `h`, `l`, `a`, `d` go to the next one.
pub open spec fn action_of(key: Key, ctrl: bool) -> Action {
    match key {
        Key::Char(c) => {
            if c == 'q' || c == 'Q' {
                Action::Quit
            } else if c == 'c' && ctrl {
                Action::Quit
            } else if c == 'j' || c == 'J' || c == 'n' || c == 'N' {
                Action::Next
            } else if c == 'k' || c == 'K' || c == 'p' || c == 'P' {
                Action::Previous
            } else if c == 'f' || c == 'F' {
                Action::NextFilter
            } else if c == 's' || c == 'S' {
                Action::NextSort
            } else if c == 'r' || c == 'R' {
                Action::ResetView
            } else if c == ' ' || c == 'h' || c == 'H' || c == 'l' || c == 'L' || c == 'a' || c == 'A' || c
                == 'd' || c == 'D' {
                Action::NextPanel
            } else {
                Action::Ignore
            }
        },
        Key::Esc => Action::Quit,
        Key::Down => Action::Next,
        Key::Up => Action::Previous,
        Key::Home => Action::First,
        Key::End => Action::Last,
        Key::BackTab | Key::Left => Action::PreviousPanel,
        Key::Tab | Key::Right | Key::Enter => Action::NextPanel,
        Key::Other => Action::Ignore,
    }
}

/// The action of a key press.
pub fn key_action(key: Key, ctrl: bool) -> (r: Action)
    ensures
        r == action_of(key, ctrl),
{
    match key {
        Key::Char(c) => {
            if c == 'q' || c == 'Q' {
                Action::Quit
            } else if c == 'c' && ctrl {
                Action::Quit
            } else if c == 'j' || c == 'J' || c == 'n' || c == 'N' {
                Action::Next
            } else if c == 'k' || c == 'K' || c == 'p' || c == 'P' {
                Action::Previous
            } else if c == 'f' || c == 'F' {
                Action::NextFilter
            } else if c == 's' || c == 'S' {
                Action::NextSort
            } else if c == 'r' || c == 'R' {
                Action::ResetView
            } else if c == ' ' || c == 'h' || c == 'H' || c == 'l' || c == 'L' || c == 'a' || c == 'A' || c
                == 'd' || c == 'D' {
                Action::NextPanel
            } else {
                Action::Ignore
            }
        },
        Key::Esc => Action::Quit,
        Key::Down => Action::Next,
        Key::Up => Action::Previous,
        Key::Home => Action::First,
        Key::End => Action::Last,
        Key::BackTab | Key::Left => Action::PreviousPanel,
        Key::Tab | Key::Right | Key::Enter => Action::NextPanel,
        Key::Other => Action::Ignore,
    }
}

/// The selection after an action (for actions that move it).
pub open spec fn selection_after(a: Action, selected: int, shown: int) -> int {
    match a {
        Action::Next => if shown == 0 {
            selected
        } else if selected + 1 <= shown - 1 {
            selected + 1
        } else {
            shown - 1
        },
        Action::Previous => if selected == 0 {
            0
        } else {
            selected - 1
        },
        Action::First => 0,
        Action::Last => if shown == 0 {
            selected
        } else {
            shown - 1
        },
        Action::NextFilter | Action::NextSort | Action::ResetView => 0,
        _ => selected,
    }
}

/// The focus after an action.
pub open spec fn focus_after(a: Action, p: FocusPanel) -> FocusPanel {
    match a {
        Action::NextPanel => panel_after(p),
        Action::PreviousPanel => panel_before(p),
        _ => p,
    }
}

/// The filter after an action.
pub open spec fn filter_after_action(a: Action, f: RiskFilter) -> RiskFilter {
    match a {
        Action::NextFilter => filter_after(f),
        Action::ResetView => RiskFilter::All,
        _ => f,
    }
}

/// The sort mode after an action.
pub open spec fn sort_after_action(a: Action, m: SortMode) -> SortMode {
    match a {
        Action::NextSort => sort_after(m),
        Action::ResetView => SortMode::SizeDesc,
        _ => m,
    }
}

impl TuiState {
    /// Carries out an action; the result tells whether the session goes on
    /// (it ends on `Quit` only).
    pub fn apply(&mut self, a: Action) -> (go_on: bool)
        requires
            old(self).consistent(),
        ensures
            go_on == (a != Action::Quit),
            final(self).consistent(),
            final(self).selected == selection_after(a, old(self).selected as int, old(self).visible().len() as int),
            final(self).focus == focus_after(a, old(self).focus),
            final(self).filter == filter_after_action(a, old(self).filter),
            final(self).sort == sort_after_action(a, old(self).sort),
            final(self).findings == old(self).findings,
            final(self).report == old(self).report,
            match a {
                Action::NextFilter | Action::NextSort | Action::ResetView => true,
                _ => final(self).visible() == old(self).visible(),
            },
    {
        let shown = self.visible_len();
        assert(self.selected < shown || self.selected == 0);
        match a {
            Action::Quit => {
                return false;
            },
            Action::Next => self.next(),
            Action::Previous => self.previous(),
            Action::First => self.first(),
            Action::Last => self.last(),
            Action::NextFilter => self.next_filter(),
            Action::NextSort => self.next_sort(),
            Action::ResetView => self.reset_view(),
            Action::PreviousPanel => self.previous_panel(),
            Action::NextPanel => self.next_panel(),
            Action::Ignore => {},
        }
        true
    }
}

} // verus!
