//! The modal interaction state machine.
//!
//! The dashboard is in one of three modes. Key presses are first read as
//! logical inputs, which depends on the mode, and an input then moves the mode
//! and may release one action for the caller to perform. Nothing here performs
//! an action: a transition only names it.

use vstd::prelude::*;

verus! {

/// Number of entries in the cleanup menu.
pub const CLEANUP_OPTION_COUNT: usize = 4;

/// Cleanup menu entry that deletes the reported cache directories.
pub const OPTION_CLEAN_CACHES: usize = 0;

/// Cleanup menu entry that prunes container images.
pub const OPTION_PRUNE_IMAGES: usize = 1;

/// Cleanup menu entry that cleans the package manager's cache.
pub const OPTION_CLEAN_PACKAGE_CACHE: usize = 2;

/// Cleanup menu entry that opens the process menu.
pub const OPTION_OPEN_KILL_MENU: usize = 3;

/// What the interaction loop is showing and which inputs it listens to.
#[derive(Clone, Copy, Debug, PartialEq, Eq, Structural)]
pub enum InteractionMode {
    /// The dashboard itself.
    Normal,
    /// The cleanup menu, with the highlighted entry.
    CleanupMenu { selected: usize },
    /// The list of heavy processes, with the highlighted row.
    KillMenu { selected: usize },
}

/// A key as the terminal reports it.
#[derive(Clone, Copy, Debug, PartialEq, Eq, Structural)]
pub enum Key {
    Char(char),
    Esc,
    Up,
    Down,
    Enter,
    Other,
}

/// What a key press means in the mode it was pressed in.
#[derive(Clone, Copy, Debug, PartialEq, Eq, Structural)]
pub enum Input {
    Quit,
    OpenCleanup,
    Up,
    Down,
    Confirm,
    Cancel,
}

/// What a transition asks the caller to do.
#[derive(Clone, Copy, Debug, PartialEq, Eq, Structural)]
pub enum Action {
    /// Nothing.
    Nothing,
    /// Leave the interaction loop.
    Exit,
    /// Delete every reported cache directory.
    CleanCaches,
    /// Run the container tool's prune-all command.
    PruneImages,
    /// Run the package manager's cache cleanup.
    CleanPackageCache,
    /// Terminate the process in this row of the current process list.
    KillProcess { index: usize },
}

/// A mode to move to and the action released on the way.
#[derive(Clone, Copy, Debug, PartialEq, Eq, Structural)]
pub struct Transition {
    pub next: InteractionMode,
    pub action: Action,
}

/// Index of the last row of a list with `count` rows; 0 for an empty list.
pub open spec fn last_index(count: int) -> int {
    if count <= 0 {
        0
    } else {
        count - 1
    }
}

/// The row that a stored selection stands for in a list with `count` rows:
/// a selection past the end stands for the last row.
pub open spec fn clamp_selection(selected: int, count: int) -> int {
    if selected <= last_index(count) {
        selected
    } else {
        last_index(count)
    }
}

/// The row above the selection, wrapping from the first row to the last.
pub open spec fn row_above(selected: int, count: int) -> int {
    let current = clamp_selection(selected, count);
    if current > 0 {
        current - 1
    } else {
        last_index(count)
    }
}

/// The row below the selection, wrapping from the last row to the first.
pub open spec fn row_below(selected: int, count: int) -> int {
    let current = clamp_selection(selected, count);
    if current < last_index(count) {
        current + 1
    } else {
        0
    }
}

impl Action {
    /// Whether performing the action deletes data or ends a process.
    pub open spec fn is_destructive(self) -> bool {
        self is CleanCaches || self is PruneImages || self is CleanPackageCache
            || self is KillProcess
    }
}

impl InteractionMode {
    /// The mode the loop starts in.
    pub fn initial() -> (mode: InteractionMode)
        ensures
            mode == InteractionMode::Normal,
    {
        InteractionMode::Normal
    }

    /// Whether the mode is the dashboard or the top of a menu.
    pub open spec fn at_rest(self) -> bool {
        match self {
            InteractionMode::Normal => true,
            InteractionMode::CleanupMenu { selected } => selected == 0,
            InteractionMode::KillMenu { selected } => selected == 0,
        }
    }

    /// Whether the selection, if the mode has one, is a row of its list.
    /// The cleanup menu has a fixed number of rows; the process menu has one
    /// row per process, and an empty process list admits only selection 0.
    pub open spec fn selection_valid(self, process_count: int) -> bool {
        match self {
            InteractionMode::Normal => true,
            InteractionMode::CleanupMenu { selected } => selected < CLEANUP_OPTION_COUNT,
            InteractionMode::KillMenu { selected } => selected <= last_index(process_count),
        }
    }

    /// The row to highlight or act on, if the mode has a list.
    pub open spec fn spec_selected_row(self, process_count: int) -> Option<int> {
        match self {
            InteractionMode::Normal => None,
            InteractionMode::CleanupMenu { selected } => Some(
                clamp_selection(selected as int, CLEANUP_OPTION_COUNT as int),
            ),
            InteractionMode::KillMenu { selected } => Some(
                clamp_selection(selected as int, process_count),
            ),
        }
    }

    /// The meaning of `key` in this mode, if it has one.
    pub open spec fn spec_read_key(self, key: Key) -> Option<Input> {
        match self {
            InteractionMode::Normal => match key {
                Key::Char(c) => if c == 'q' {
                    Some(Input::Quit)
                } else if c == 'c' {
                    Some(Input::OpenCleanup)
                } else {
                    None
                },
                _ => None,
            },
            _ => match key {
                Key::Char(c) => if c == 'q' {
                    Some(Input::Cancel)
                } else if c == 'k' {
                    Some(Input::Up)
                } else if c == 'j' {
                    Some(Input::Down)
                } else {
                    None
                },
                Key::Esc => Some(Input::Cancel),
                Key::Up => Some(Input::Up),
                Key::Down => Some(Input::Down),
                Key::Enter => Some(Input::Confirm),
                Key::Other => None,
            },
        }
    }

    /// The mode that follows this one on `input`, with `process_count`
    /// processes listed at that moment.
    pub open spec fn spec_next(self, input: Input, process_count: int) -> InteractionMode {
        match self {
            InteractionMode::Normal => match input {
                Input::OpenCleanup => InteractionMode::CleanupMenu { selected: 0 },
                _ => self,
            },
            InteractionMode::CleanupMenu { selected } => match input {
                Input::Up => InteractionMode::CleanupMenu {
                    selected: row_above(selected as int, CLEANUP_OPTION_COUNT as int) as usize,
                },
                Input::Down => InteractionMode::CleanupMenu {
                    selected: row_below(selected as int, CLEANUP_OPTION_COUNT as int) as usize,
                },
                Input::Cancel => InteractionMode::Normal,
                Input::Confirm => if clamp_selection(selected as int, CLEANUP_OPTION_COUNT as int)
                    == OPTION_OPEN_KILL_MENU {
                    InteractionMode::KillMenu { selected: 0 }
                } else {
                    InteractionMode::Normal
                },
                _ => self,
            },
            InteractionMode::KillMenu { selected } => match input {
                Input::Up => InteractionMode::KillMenu {
                    selected: row_above(selected as int, process_count) as usize,
                },
                Input::Down => InteractionMode::KillMenu {
                    selected: row_below(selected as int, process_count) as usize,
                },
                Input::Cancel | Input::Confirm => InteractionMode::CleanupMenu { selected: 0 },
                _ => self,
            },
        }
    }

    /// The action released when `input` arrives in this mode, with
    /// `process_count` processes listed at that moment.
    pub open spec fn spec_action(self, input: Input, process_count: int) -> Action {
        match self {
            InteractionMode::Normal => match input {
                Input::Quit => Action::Exit,
                _ => Action::Nothing,
            },
            InteractionMode::CleanupMenu { selected } => match input {
                Input::Confirm => {
                    let row = clamp_selection(selected as int, CLEANUP_OPTION_COUNT as int);
                    if row == OPTION_CLEAN_CACHES {
                        Action::CleanCaches
                    } else if row == OPTION_PRUNE_IMAGES {
                        Action::PruneImages
                    } else if row == OPTION_CLEAN_PACKAGE_CACHE {
                        Action::CleanPackageCache
                    } else {
                        Action::Nothing
                    }
                },
                _ => Action::Nothing,
            },
            InteractionMode::KillMenu { selected } => match input {
                Input::Confirm => if process_count > 0 {
                    Action::KillProcess {
                        index: clamp_selection(selected as int, process_count) as usize,
                    }
                } else {
                    Action::Nothing
                },
                _ => Action::Nothing,
            },
        }
    }

    /// The row to highlight or act on: the stored selection, or the last row
    /// where the list has become shorter than the selection.
    pub fn selected_row(self, process_count: usize) -> (row: Option<usize>)
        ensures
            match row {
                Some(r) => self.spec_selected_row(process_count as int) == Some(r as int),
                None => self.spec_selected_row(process_count as int) is None,
            },
    {
        match self {
            InteractionMode::Normal => None,
            InteractionMode::CleanupMenu { selected } => Some(
                clamp_row(selected, CLEANUP_OPTION_COUNT),
            ),
            InteractionMode::KillMenu { selected } => Some(clamp_row(selected, process_count)),
        }
    }

    /// Reads a key press in this mode.
    pub fn read_key(self, key: Key) -> (input: Option<Input>)
        ensures
            input == self.spec_read_key(key),
    {
        match self {
            InteractionMode::Normal => match key {
                Key::Char(c) => if c == 'q' {
                    Some(Input::Quit)
                } else if c == 'c' {
                    Some(Input::OpenCleanup)
                } else {
                    None
                },
                _ => None,
            },
            _ => match key {
                Key::Char(c) => if c == 'q' {
                    Some(Input::Cancel)
                } else if c == 'k' {
                    Some(Input::Up)
                } else if c == 'j' {
                    Some(Input::Down)
                } else {
                    None
                },
                Key::Esc => Some(Input::Cancel),
                Key::Up => Some(Input::Up),
                Key::Down => Some(Input::Down),
                Key::Enter => Some(Input::Confirm),
                Key::Other => None,
            },
        }
    }

    /// Applies one input: the mode to continue in and the action to perform.
    /// `process_count` is the length of the process list at this moment.
    pub fn apply(self, input: Input, process_count: usize) -> (step: Transition)
        ensures
            step.next == self.spec_next(input, process_count as int),
            step.action == self.spec_action(input, process_count as int),
    {
        match self {
            InteractionMode::Normal => match input {
                Input::Quit => Transition { next: self, action: Action::Exit },
                Input::OpenCleanup => Transition {
                    next: InteractionMode::CleanupMenu { selected: 0 },
                    action: Action::Nothing,
                },
                _ => Transition { next: self, action: Action::Nothing },
            },
            InteractionMode::CleanupMenu { selected } => match input {
                Input::Up => Transition {
                    next: InteractionMode::CleanupMenu {
                        selected: move_up(selected, CLEANUP_OPTION_COUNT),
                    },
                    action: Action::Nothing,
                },
                Input::Down => Transition {
                    next: InteractionMode::CleanupMenu {
                        selected: move_down(selected, CLEANUP_OPTION_COUNT),
                    },
                    action: Action::Nothing,
                },
                Input::Cancel => Transition {
                    next: InteractionMode::Normal,
                    action: Action::Nothing,
                },
                Input::Confirm => {
                    let row: usize = clamp_row(selected, CLEANUP_OPTION_COUNT);
                    if row == OPTION_OPEN_KILL_MENU {
                        Transition {
                            next: InteractionMode::KillMenu { selected: 0 },
                            action: Action::Nothing,
                        }
                    } else if row == OPTION_CLEAN_CACHES {
                        Transition { next: InteractionMode::Normal, action: Action::CleanCaches }
                    } else if row == OPTION_PRUNE_IMAGES {
                        Transition { next: InteractionMode::Normal, action: Action::PruneImages }
                    } else {
                        Transition {
                            next: InteractionMode::Normal,
                            action: Action::CleanPackageCache,
                        }
                    }
                },
                _ => Transition { next: self, action: Action::Nothing },
            },
            InteractionMode::KillMenu { selected } => match input {
                Input::Up => Transition {
                    next: InteractionMode::KillMenu { selected: move_up(selected, process_count) },
                    action: Action::Nothing,
                },
                Input::Down => Transition {
                    next: InteractionMode::KillMenu {
                        selected: move_down(selected, process_count),
                    },
                    action: Action::Nothing,
                },
                Input::Cancel => Transition {
                    next: InteractionMode::CleanupMenu { selected: 0 },
                    action: Action::Nothing,
                },
                Input::Confirm => {
                    let action = if process_count > 0 {
                        Action::KillProcess { index: clamp_row(selected, process_count) }
                    } else {
                        Action::Nothing
                    };
                    Transition { next: InteractionMode::CleanupMenu { selected: 0 }, action }
                },
                _ => Transition { next: self, action: Action::Nothing },
            },
        }
    }
}

fn clamp_row(selected: usize, count: usize) -> (row: usize)
    ensures
        row as int == clamp_selection(selected as int, count as int),
{
    let last: usize = if count == 0 {
        0
    } else {
        count - 1
    };
    if selected <= last {
        selected
    } else {
        last
    }
}

fn move_up(selected: usize, count: usize) -> (row: usize)
    ensures
        row as int == row_above(selected as int, count as int),
{
    let current: usize = clamp_row(selected, count);
    if current > 0 {
        current - 1
    } else if count == 0 {
        0
    } else {
        count - 1
    }
}

fn move_down(selected: usize, count: usize) -> (row: usize)
    ensures
        row as int == row_below(selected as int, count as int),
{
    let current: usize = clamp_row(selected, count);
    let last: usize = if count == 0 {
        0
    } else {
        count - 1
    };
    if current < last {
        current + 1
    } else {
        0
    }
}

/// Navigation in the process menu never leaves the list as it is at that
/// moment, whatever selection was stored before: with rows to show, the new
/// selection is one of them; with none, it is 0.
pub proof fn lemma_navigation_is_bounded(mode: InteractionMode, input: Input, process_count: nat)
    requires
        (mode is KillMenu),
        (input is Up) || (input is Down),
    ensures
        (mode.spec_next(input, process_count as int) is KillMenu),
        mode.spec_next(input, process_count as int)->KillMenu_selected <= last_index(
            process_count as int,
        ),
        process_count > 0 ==> mode.spec_next(input, process_count as int)->KillMenu_selected
            < process_count,
{
}

/// A valid selection stays valid under every input, and a transition that
/// changes the mode always arrives at a valid selection.
pub proof fn lemma_selection_stays_valid(mode: InteractionMode, input: Input, process_count: nat)
    ensures
        mode.selection_valid(process_count as int) ==> mode.spec_next(
            input,
            process_count as int,
        ).selection_valid(process_count as int),
        mode.spec_next(input, process_count as int) != mode ==> mode.spec_next(
            input,
            process_count as int,
        ).selection_valid(process_count as int),
{
}

/// The row that is highlighted or acted on is always a row of the list:
/// below `count` where the list has rows, and 0 where it has none.
pub proof fn lemma_clamped_row_is_valid(selected: nat, count: nat)
    ensures
        0 <= clamp_selection(selected as int, count as int) <= last_index(count as int),
        count > 0 ==> clamp_selection(selected as int, count as int) < count,
        selected < count ==> clamp_selection(selected as int, count as int) == selected,
{
}

/// Moving up from the first row arrives at the last row, and moving down from
/// the last row arrives at the first.
pub proof fn lemma_navigation_wraps(count: nat)
    ensures
        row_above(0, count as int) == last_index(count as int),
        row_below(last_index(count as int), count as int) == 0,
{
}

/// On a row of the list, up and down undo each other.
pub proof fn lemma_up_and_down_are_inverse(selected: nat, count: nat)
    requires
        selected < count,
    ensures
        row_below(row_above(selected as int, count as int), count as int) == selected,
        row_above(row_below(selected as int, count as int), count as int) == selected,
{
}

/// The loop is left only from the dashboard, and only on the quit input.
pub proof fn lemma_exit_only_from_normal(mode: InteractionMode, input: Input, process_count: nat)
    ensures
        (mode.spec_action(input, process_count as int) is Exit) <==> ((mode is Normal) && (
        input is Quit)),
{
}

/// A destructive action is released only by a confirmation inside a menu,
/// and a process to terminate is always a row of the current list.
pub proof fn lemma_destruction_needs_confirmation(
    mode: InteractionMode,
    input: Input,
    process_count: nat,
)
    ensures
        mode.spec_action(input, process_count as int).is_destructive() ==> (input is Confirm)
            && !(mode is Normal),
        (mode.spec_action(input, process_count as int) is KillProcess) ==> (mode is KillMenu)
            && mode.spec_action(input, process_count as int)->index < process_count,
        (mode is KillMenu) && (input is Confirm) && process_count == 0 ==> (mode.spec_action(
            input,
            process_count as int,
        ) is Nothing),
{
}

/// After a confirmation or a cancellation the interaction rests in the
/// dashboard or at the top of a menu, whatever the action does afterwards.
pub proof fn lemma_menus_return_to_rest(mode: InteractionMode, input: Input, process_count: nat)
    requires
        (input is Confirm) || (input is Cancel),
    ensures
        mode.spec_next(input, process_count as int).at_rest(),
        (mode is KillMenu) ==> mode.spec_next(input, process_count as int) == (
        InteractionMode::CleanupMenu { selected: 0 }),
{
}

/// No key pressed on the dashboard releases a destructive action, no key
/// pressed inside a menu leaves the loop, and only the enter key releases a
/// destructive action at all.
pub proof fn lemma_keys_respect_modes(mode: InteractionMode, key: Key, process_count: nat)
    ensures
        (mode.spec_read_key(key) matches Some(input) ==> {
            let action = mode.spec_action(input, process_count as int);
            &&& (mode is Normal) ==> !action.is_destructive()
            &&& !(mode is Normal) ==> !(action is Exit)
            &&& action.is_destructive() ==> (key is Enter)
        }),
{
}

} // verus!
