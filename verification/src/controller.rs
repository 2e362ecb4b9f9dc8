//! One step of the interaction loop: from a key press and the issue state
//! as it is at that moment to the next mode and the effect to carry out.
//!
//! A step reads the issue state and copies out what the effect needs, so
//! that the state can be let go before anything is deleted or terminated.
//! Carrying out the effect is the caller's, and so is ignoring its failure:
//! the mode that a step returns does not depend on how the effect goes.

use vstd::prelude::*;
use crate::interaction::{clamp_selection, Action, InteractionMode, Key};
use crate::issues::{is_consistent, paths_of, texts_of, IssueState, IssueView};

verus! {

/// Milliseconds between two refreshes of the metrics and the process list.
pub const REFRESH_INTERVAL_MILLIS: u64 = 2_000;

/// Milliseconds that the loop waits for a key before it looks at the clock
/// again.
pub const INPUT_POLL_MILLIS: u64 = 100;

/// Whether the metrics and the process list are due for a refresh, that
/// many milliseconds after the last one.
pub fn refresh_due(elapsed_millis: u128) -> (due: bool)
    ensures
        due == (elapsed_millis >= REFRESH_INTERVAL_MILLIS),
{
    elapsed_millis >= REFRESH_INTERVAL_MILLIS as u128
}

/// What the caller has to carry out after a step.
#[derive(Debug)]
pub enum Effect {
    /// Nothing.
    Nothing,
    /// Leave the interaction loop.
    Exit,
    /// Delete each of these directories with all that is below it; go on
    /// with the next where one cannot be deleted.
    DeleteDirectories { paths: Vec<String> },
    /// Run the container tool's prune-all command once.
    PruneImages,
    /// Run the package manager's cache cleanup once.
    CleanPackageCache,
    /// Send the forceful termination signal to this process.
    TerminateProcess { pid: u32 },
}

/// What an [`Effect`] holds.
pub enum EffectView {
    Nothing,
    Exit,
    DeleteDirectories { paths: Seq<Seq<char>> },
    PruneImages,
    CleanPackageCache,
    TerminateProcess { pid: u32 },
}

impl View for Effect {
    type V = EffectView;

    open spec fn view(&self) -> EffectView {
        match self {
            Effect::Nothing => EffectView::Nothing,
            Effect::Exit => EffectView::Exit,
            Effect::DeleteDirectories { paths } => EffectView::DeleteDirectories {
                paths: texts_of(paths@),
            },
            Effect::PruneImages => EffectView::PruneImages,
            Effect::CleanPackageCache => EffectView::CleanPackageCache,
            Effect::TerminateProcess { pid } => EffectView::TerminateProcess { pid: *pid },
        }
    }
}

/// The mode to continue in and the effect to carry out.
#[derive(Debug)]
pub struct Step {
    pub mode: InteractionMode,
    pub effect: Effect,
}

/// The effect that stands for `action` with the issues as they are: the
/// directories of the caches shown, or the process in the row chosen.
pub open spec fn effect_of(action: Action, issues: IssueView) -> EffectView {
    match action {
        Action::Nothing => EffectView::Nothing,
        Action::Exit => EffectView::Exit,
        Action::CleanCaches => EffectView::DeleteDirectories { paths: paths_of(issues.caches) },
        Action::PruneImages => EffectView::PruneImages,
        Action::CleanPackageCache => EffectView::CleanPackageCache,
        Action::KillProcess { index } => if index < issues.processes.len() {
            EffectView::TerminateProcess { pid: issues.processes[index as int].pid }
        } else {
            EffectView::Nothing
        },
    }
}

/// The mode after `key` is pressed in `mode`: unchanged where the key means
/// nothing there.
pub open spec fn mode_after(mode: InteractionMode, key: Key, issues: IssueView) -> InteractionMode {
    match mode.spec_read_key(key) {
        Some(input) => mode.spec_next(input, issues.processes.len() as int),
        None => mode,
    }
}

/// The effect of pressing `key` in `mode`: none where the key means nothing
/// there.
pub open spec fn effect_after(mode: InteractionMode, key: Key, issues: IssueView) -> EffectView {
    match mode.spec_read_key(key) {
        Some(input) => effect_of(
            mode.spec_action(input, issues.processes.len() as int),
            issues,
        ),
        None => EffectView::Nothing,
    }
}

/// Turns an action into the effect that stands for it with the issues as
/// they are.
pub fn plan(action: Action, issues: &IssueState) -> (effect: Effect)
    ensures
        effect@ == effect_of(action, issues@),
{
    match action {
        Action::Nothing => Effect::Nothing,
        Action::Exit => Effect::Exit,
        Action::CleanCaches => Effect::DeleteDirectories { paths: issues.cache_paths() },
        Action::PruneImages => Effect::PruneImages,
        Action::CleanPackageCache => Effect::CleanPackageCache,
        Action::KillProcess { index } => match issues.process_pid(index) {
            Some(pid) => Effect::TerminateProcess { pid },
            None => Effect::Nothing,
        },
    }
}

/// Handles one key press: reads the key in the current mode, moves the
/// mode, and names the effect to carry out.
pub fn handle_key(mode: InteractionMode, key: Key, issues: &IssueState) -> (step: Step)
    ensures
        step.mode == mode_after(mode, key, issues@),
        step.effect@ == effect_after(mode, key, issues@),
{
    match mode.read_key(key) {
        Some(input) => {
            let transition = mode.apply(input, issues.process_count());
            Step { mode: transition.next, effect: plan(transition.action, issues) }
        },
        None => Step { mode, effect: Effect::Nothing },
    }
}

impl EffectView {
    /// Whether carrying out the effect deletes data or ends a process.
    pub open spec fn is_destructive(self) -> bool {
        self is DeleteDirectories || self is PruneImages || self is CleanPackageCache
            || self is TerminateProcess
    }
}

/// A key that means nothing in the mode changes nothing and has no effect.
pub proof fn lemma_idle_keys_change_nothing(mode: InteractionMode, key: Key, issues: IssueView)
    requires
        mode.spec_read_key(key) is None,
    ensures
        mode_after(mode, key, issues) == mode,
        effect_after(mode, key, issues) == EffectView::Nothing,
{
}

/// Only the enter key, pressed inside a menu, has a destructive effect, and
/// only the quit key, pressed on the dashboard, leaves the loop.
pub proof fn lemma_effects_are_gated(mode: InteractionMode, key: Key, issues: IssueView)
    ensures
        effect_after(mode, key, issues).is_destructive() ==> (key is Enter) && !(mode is Normal),
        (effect_after(mode, key, issues) is Exit) <==> ((mode is Normal) && key == Key::Char(
            'q',
        )),
{
}

/// Confirming in the process menu terminates the process of the selected
/// row, that one only, and returns to the cleanup menu. A selection past
/// the end of the list stands for its last row.
pub proof fn lemma_confirmed_kill_names_selected_process(selected: usize, issues: IssueView)
    requires
        issues.processes.len() > 0,
    ensures
        effect_after(InteractionMode::KillMenu { selected }, Key::Enter, issues) == (
        EffectView::TerminateProcess {
            pid: issues.processes[clamp_selection(
                selected as int,
                issues.processes.len() as int,
            )].pid,
        }),
        selected < issues.processes.len() ==> effect_after(
            InteractionMode::KillMenu { selected },
            Key::Enter,
            issues,
        ) == (EffectView::TerminateProcess { pid: issues.processes[selected as int].pid }),
        mode_after(InteractionMode::KillMenu { selected }, Key::Enter, issues) == (
        InteractionMode::CleanupMenu { selected: 0 }),
{
}

/// Confirming in the process menu while no process is listed does nothing
/// but return to the cleanup menu.
pub proof fn lemma_nothing_listed_nothing_killed(selected: usize, issues: IssueView)
    requires
        issues.processes.len() == 0,
    ensures
        effect_after(InteractionMode::KillMenu { selected }, Key::Enter, issues)
            == EffectView::Nothing,
        mode_after(InteractionMode::KillMenu { selected }, Key::Enter, issues) == (
        InteractionMode::CleanupMenu { selected: 0 }),
{
}

/// Cleaning the caches deletes the directories that are shown, each of
/// which the scan found above the significance floor, and none while the
/// scan is still running.
pub proof fn lemma_cleanup_deletes_what_is_shown(issues: IssueView)
    requires
        is_consistent(issues),
    ensures
        effect_after(InteractionMode::CleanupMenu { selected: 0 }, Key::Enter, issues) == (
        EffectView::DeleteDirectories { paths: paths_of(issues.caches) }),
        paths_of(issues.caches).len() == issues.caches.len(),
        issues.scanning ==> paths_of(issues.caches).len() == 0,
        mode_after(InteractionMode::CleanupMenu { selected: 0 }, Key::Enter, issues)
            == InteractionMode::Normal,
{
}

} // verus!
