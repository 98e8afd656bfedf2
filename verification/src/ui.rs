//! The view-model and the key dispatch state machine: how the UI state
//! evolves under each event of the merged input stream, and what the event
//! loop should do next.

use vstd::prelude::*;

verus! {

/// The two main views.
#[derive(Clone, Copy, Debug, PartialEq, Eq, Structural)]
pub enum MenuItem {
    Home,
    Tasks,
}

/// The tab position of a view in the menu strip.
pub open spec fn menu_index(m: MenuItem) -> nat {
    match m {
        MenuItem::Home => 0,
        MenuItem::Tasks => 1,
    }
}

impl MenuItem {
    /// The tab position of this view in the menu strip.
    pub fn index(self) -> (r: usize)
        ensures
            r == menu_index(self),
    {
        match self {
            MenuItem::Home => 0,
            MenuItem::Tasks => 1,
        }
    }
}

/// A key the state machine reacts to. Keys the machine ignores arrive as
/// `Other`.
#[derive(Clone, Copy, Debug, PartialEq, Eq, Structural)]
pub enum Key {
    Char(char),
    Enter,
    Up,
    Down,
    Other,
}

/// One event of the merged input stream: a key press, or the periodic
/// redraw heartbeat.
#[derive(Clone, Copy, Debug, PartialEq, Eq, Structural)]
pub enum Event {
    Input(Key),
    Tick,
}

/// What the event loop should do after a dispatch step: keep going, exit,
/// or remove the task at the given index from the store.
#[derive(Clone, Copy, Debug, PartialEq, Eq, Structural)]
pub enum Action {
    Continue,
    Quit,
    Remove(usize),
}

/// The view-model: the active view, the list cursor, and whether the
/// add-task overlay is shown.
#[derive(Clone, Copy, Debug, PartialEq, Eq, Structural)]
pub struct UiState {
    pub active: MenuItem,
    pub selected: usize,
    pub popup: bool,
}

impl UiState {
    /// The state the application starts in: home view, cursor on the first
    /// entry, no overlay.
    pub fn init() -> (s: UiState)
        ensures
            s.active is Home,
            s.selected == 0,
            s.popup == false,
    {
        UiState { active: MenuItem::Home, selected: 0, popup: false }
    }
}

/// The selection one step down the list: past the last entry it wraps to
/// the first.
pub open spec fn spec_nav_down(i: nat, n: nat) -> nat {
    if i + 1 >= n {
        0
    } else {
        i + 1
    }
}

/// The selection one step up the list: before the first entry it wraps to
/// the last. With nothing in the list the selection stays at the start.
pub open spec fn spec_nav_up(i: nat, n: nat) -> nat {
    if i > 0 {
        (i - 1) as nat
    } else if n == 0 {
        0
    } else {
        (n - 1) as nat
    }
}

/// The selection after a successful removal at `i`: the entry before the
/// removed one, or the first entry when the first was removed.
pub open spec fn spec_selection_after_remove(i: nat) -> nat {
    if i > 0 {
        (i - 1) as nat
    } else {
        0
    }
}

/// The selection one step down a list of `n` entries.
pub fn nav_down(i: usize, n: usize) -> (r: usize)
    ensures
        r == spec_nav_down(i as nat, n as nat),
{
    if n == 0 {
        0
    } else if i >= n - 1 {
        0
    } else {
        i + 1
    }
}

/// The selection one step up a list of `n` entries.
pub fn nav_up(i: usize, n: usize) -> (r: usize)
    ensures
        r == spec_nav_up(i as nat, n as nat),
{
    if i > 0 {
        i - 1
    } else if n == 0 {
        0
    } else {
        n - 1
    }
}

/// Wrap-around navigation: for any list of at least one entry, one step
/// down from the last entry selects the first, and one step up from the
/// first selects the last.
pub proof fn lemma_navigation_wraps(n: nat)
    requires
        n >= 1,
    ensures
        spec_nav_down((n - 1) as nat, n) == 0,
        spec_nav_up(0, n) == (n - 1) as nat,
{
}

/// One dispatch step of the event loop: `q` exits, `h` and `t` switch the
/// view, `a` shows the add-task overlay and enter hides it, and in the task
/// view `d` asks for the selected task's removal while the arrow keys move
/// the cursor with wrap-around. Everything else, and the heartbeat, changes
/// nothing. `task_count` is the store's current length, read fresh by the
/// caller for every keystroke.
pub fn dispatch(state: &mut UiState, event: Event, task_count: usize) -> (a: Action)
    ensures
        match event {
            Event::Tick => *final(state) == *old(state) && a is Continue,
            Event::Input(k) => match k {
                Key::Char(c) => if c == 'q' {
                    *final(state) == *old(state) && a is Quit
                } else if c == 'h' {
                    *final(state) == (UiState { active: MenuItem::Home, ..*old(state) })
                        && a is Continue
                } else if c == 't' {
                    *final(state) == (UiState { active: MenuItem::Tasks, ..*old(state) })
                        && a is Continue
                } else if c == 'a' {
                    *final(state) == (UiState { popup: true, ..*old(state) }) && a is Continue
                } else if c == 'd' {
                    *final(state) == *old(state) && if old(state).active is Tasks {
                        a == Action::Remove(old(state).selected)
                    } else {
                        a is Continue
                    }
                } else {
                    *final(state) == *old(state) && a is Continue
                },
                Key::Enter => *final(state) == (UiState { popup: false, ..*old(state) })
                    && a is Continue,
                Key::Down => a is Continue && if old(state).active is Tasks {
                    *final(state) == (UiState {
                        selected: spec_nav_down(
                            old(state).selected as nat,
                            task_count as nat,
                        ) as usize,
                        ..*old(state)
                    })
                } else {
                    *final(state) == *old(state)
                },
                Key::Up => a is Continue && if old(state).active is Tasks {
                    *final(state) == (UiState {
                        selected: spec_nav_up(
                            old(state).selected as nat,
                            task_count as nat,
                        ) as usize,
                        ..*old(state)
                    })
                } else {
                    *final(state) == *old(state)
                },
                Key::Other => *final(state) == *old(state) && a is Continue,
            },
        },
{
    match event {
        Event::Tick => Action::Continue,
        Event::Input(k) => match k {
            Key::Char(c) => {
                if c == 'q' {
                    Action::Quit
                } else if c == 'h' {
                    state.active = MenuItem::Home;
                    Action::Continue
                } else if c == 't' {
                    state.active = MenuItem::Tasks;
                    Action::Continue
                } else if c == 'a' {
                    state.popup = true;
                    Action::Continue
                } else if c == 'd' {
                    match state.active {
                        MenuItem::Tasks => Action::Remove(state.selected),
                        MenuItem::Home => Action::Continue,
                    }
                } else {
                    Action::Continue
                }
            },
            Key::Enter => {
                state.popup = false;
                Action::Continue
            },
            Key::Down => {
                match state.active {
                    MenuItem::Tasks => {
                        state.selected = nav_down(state.selected, task_count);
                    },
                    MenuItem::Home => {},
                }
                Action::Continue
            },
            Key::Up => {
                match state.active {
                    MenuItem::Tasks => {
                        state.selected = nav_up(state.selected, task_count);
                    },
                    MenuItem::Home => {},
                }
                Action::Continue
            },
            Key::Other => Action::Continue,
        },
    }
}

/// The cursor adjustment after the store confirmed a removal.
pub fn confirm_remove(state: &mut UiState)
    ensures
        final(state).selected == spec_selection_after_remove(old(state).selected as nat),
        final(state).active == old(state).active,
        final(state).popup == old(state).popup,
{
    if state.selected > 0 {
        state.selected = state.selected - 1;
    }
}

} // verus!
