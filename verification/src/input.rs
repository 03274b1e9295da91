//! The input dispatcher: keyboard events are routed to the active dialog
//! first, then to the base shortcuts gated by tab and focus; pointer events
//! are resolved through the shared geometry, including drag-to-reorder.

use vstd::prelude::*;

use crate::app::{dropdown_options_ok, App};
use crate::geometry;
use crate::monitor::mviews;
use crate::state::{DialogType, DragState, Effect, FocusPanel, InputResult, KeyInput, MainTab,
    MouseKind, SettingField, SETTING_COUNT};

verus! {

/// Whether the key is this character.
pub open spec fn key_char(k: KeyInput, c: char) -> bool {
    k == KeyInput::Char(c)
}

pub open spec fn is_yes_key(k: KeyInput) -> bool {
    key_char(k, 'y') || key_char(k, 'Y')
}

pub open spec fn is_no_key(k: KeyInput) -> bool {
    key_char(k, 'n') || key_char(k, 'N')
}

pub open spec fn is_quit_key(k: KeyInput) -> bool {
    key_char(k, 'q') || key_char(k, 'Q')
}

pub open spec fn is_apply_key(k: KeyInput) -> bool {
    key_char(k, 'a') || key_char(k, 'A')
}

pub open spec fn is_refresh_key(k: KeyInput) -> bool {
    key_char(k, 'r') || key_char(k, 'R')
}

pub open spec fn is_identify_key(k: KeyInput) -> bool {
    key_char(k, 'i') || key_char(k, 'I')
}

/// Dispatches one key press. The active dialog captures all input; only with
/// no dialog open do the base shortcuts run. Returns whether to keep running
/// and what outside work the caller owes: persisting and applying after an
/// apply or a confirm-apply refusal, persisting the store after workspace
/// changes, a refresh, or the identify signal.
pub fn handle_key(app: &mut App, key: KeyInput, shift: bool, now: u64) -> (r: (
    InputResult,
    Effect,
))
    requires
        old(app).wf(),
    ensures
        final(app).wf(),
        // quitting happens exactly on a confirmed quit, or on quit with no
        // unsaved changes
        r.0 is Quit <==> ((old(app).dialog is ConfirmQuit && is_yes_key(key)) || (old(app).dialog
            is Idle && is_quit_key(key) && !old(app).has_changes)),
        // the save-export-reload effect arises exactly from refusing the
        // apply confirmation or pressing apply on the Live tab
        r.1 is SaveAndApply <==> ((old(app).dialog is ConfirmApply && is_no_key(key)) || (old(
            app,
        ).dialog is Idle && is_apply_key(key) && old(app).main_tab is Live)),
        // the store is persisted exactly after a workspace create, rename,
        // or successful delete
        r.1 is PersistDb <==> ((old(app).dialog is NewWorkspace && key is Enter && old(
            app,
        ).input_buffer@.len() > 0) || (old(app).dialog is RenameWorkspace && key is Enter && old(
            app,
        ).input_buffer@.len() > 0) || (old(app).dialog is DeleteWorkspace && is_yes_key(key)
            && old(app).monitor_db@.workspaces.len() > 1)),
        r.1 is Refresh <==> (old(app).dialog is Idle && is_refresh_key(key) && old(app).main_tab
            is Live),
        r.1 is Identify <==> (old(app).dialog is Idle && is_identify_key(key) && old(
            app,
        ).main_tab is Live),
        // the apply confirmation: yes accepts the changes as the baseline
        // and nothing else moves
        old(app).dialog is ConfirmApply && is_yes_key(key) ==> (mviews(
            final(app).original_monitors@,
        ) == mviews(old(app).monitors@) && !final(app).has_changes && *final(app) == (App {
            original_monitors: final(app).original_monitors,
            has_changes: false,
            dialog: DialogType::Idle,
            message: final(app).message,
            ..*old(app)
        })),
        // no reverts to the baseline, re-saves it into the active workspace
        // and closes; the caller owes the export
        old(app).dialog is ConfirmApply && is_no_key(key) ==> (mviews(final(app).monitors@)
            == mviews(old(app).original_monitors@) && final(app).dialog is Idle
            && final(app).monitor_db@.workspaces == crate::app::upsert_all(
            old(app).monitor_db@.workspaces,
            old(app).selected_workspace as int,
            mviews(old(app).original_monitors@),
        ) && final(app).monitor_db@.active_workspace == old(app).selected_workspace),
        // any other key leaves the apply confirmation as it is
        old(app).dialog is ConfirmApply && !is_yes_key(key) && !is_no_key(key) ==> *final(app)
            == *old(app),
        // the quit confirmation: yes quits and no or escape closes it, with
        // nothing else touched; other keys change nothing
        old(app).dialog is ConfirmQuit && is_yes_key(key) ==> *final(app) == *old(app),
        old(app).dialog is ConfirmQuit && (is_no_key(key) || key is Esc) ==> *final(app) == (App {
            dialog: DialogType::Idle,
            ..*old(app)
        }),
        old(app).dialog is ConfirmQuit && !(is_yes_key(key) || is_no_key(key) || key is Esc)
            ==> *final(app) == *old(app),
        // the dropdown: escape or enter closes it; enter applies first
        old(app).dialog is EditDropdown && (key is Esc || key is Enter) ==> final(app).dialog
            is Idle,
        old(app).dialog is EditDropdown && key is Enter ==> exists|opts: Seq<Seq<char>>|
            #[trigger] dropdown_options_ok(*old(app), opts) && crate::app::applied_selection(
                *old(app),
                App { dialog: old(app).dialog, ..*final(app) },
                opts,
            ),
        // text dialogs: every typed character appends while the buffer is
        // under twenty characters and a full buffer stays as it is;
        // backspace removes the last character; escape discards and closes;
        // nothing else of the state moves
        (old(app).dialog is NewWorkspace || old(app).dialog is RenameWorkspace) ==> {
            &&& (key matches KeyInput::Char(c) ==> (
            if old(app).input_buffer@.len() < 20 {
                final(app).input_buffer@ == old(app).input_buffer@.push(c) && *final(app) == (App {
                    input_buffer: final(app).input_buffer,
                    ..*old(app)
                })
            } else {
                *final(app) == *old(app)
            }))
            &&& (key matches KeyInput::Char(c) ==> final(app).input_buffer@.len() <= (
            if old(app).input_buffer@.len() < 20 {
                old(app).input_buffer@.len() + 1
            } else {
                old(app).input_buffer@.len()
            }))
            &&& (key is Backspace ==> final(app).input_buffer@ == (
            if old(app).input_buffer@.len() > 0 {
                old(app).input_buffer@.drop_last()
            } else {
                old(app).input_buffer@
            }) && *final(app) == (App { input_buffer: final(app).input_buffer, ..*old(app) }))
            &&& (key is Esc ==> final(app).input_buffer@.len() == 0 && *final(app) == (App {
                input_buffer: final(app).input_buffer,
                dialog: DialogType::Idle,
                ..*old(app)
            }))
            &&& (key is Enter && old(app).input_buffer@.len() == 0 ==> *final(app) == *old(app))
            &&& (!(key matches KeyInput::Char(_)) && !(key is Backspace) && !(key is Esc) && !(key
                is Enter) ==> *final(app) == *old(app))
        },
        // creating a workspace appends it, named after the buffer
        old(app).dialog is NewWorkspace && key is Enter && old(app).input_buffer@.len() > 0
            ==> final(app).monitor_db@.workspaces == old(app).monitor_db@.workspaces.push(
            crate::db::WorkspaceView { name: old(app).input_buffer@, monitors: Seq::empty() },
        ) && final(app).dialog is Idle && final(app).input_buffer@.len() == 0,
        // renaming renames the shown workspace to the buffer
        old(app).dialog is RenameWorkspace && key is Enter && old(app).input_buffer@.len() > 0
            ==> final(app).monitor_db@.workspaces == old(app).monitor_db@.workspaces.update(
            old(app).selected_workspace as int,
            crate::db::WorkspaceView {
                name: old(app).input_buffer@,
                ..old(app).monitor_db@.workspaces[old(app).selected_workspace as int]
            },
        ) && final(app).dialog is Idle && final(app).input_buffer@.len() == 0,
        // deleting removes the shown workspace unless it is the last one
        old(app).dialog is DeleteWorkspace && is_yes_key(key) && old(
            app,
        ).monitor_db@.workspaces.len() > 1 ==> final(app).monitor_db@.workspaces == old(
            app,
        ).monitor_db@.workspaces.remove(old(app).selected_workspace as int) && final(app).dialog
            is Idle,
        old(app).dialog is DeleteWorkspace && is_yes_key(key) && old(
            app,
        ).monitor_db@.workspaces.len() <= 1 ==> final(app).monitor_db@.workspaces == old(
            app,
        ).monitor_db@.workspaces && final(app).dialog is Idle,
        // with no dialog open, the whole base-shortcut table holds
        old(app).dialog is Idle ==> base_key_ok(*old(app), *final(app), key, shift, now),
        old(app).dialog is Idle && (key_char(key, 'p') || key_char(key, 'P')) && old(
            app,
        ).main_tab is Live && old(app).monitors@.len() > 0 && crate::monitor::exactly_one_primary(
            mviews(old(app).monitors@),
        ) ==> crate::monitor::exactly_one_primary(mviews(final(app).monitors@)),
{
    match app.dialog {
        DialogType::ConfirmApply { .. } => {
            match key {
                KeyInput::Char(c) => {
                    if c == 'y' || c == 'Y' {
                        app.confirm_changes();
                        (InputResult::Continue, Effect::Nothing)
                    } else if c == 'n' || c == 'N' {
                        app.revert_changes();
                        app.save_and_apply(now);
                        app.dialog = DialogType::Idle;
                        (InputResult::Continue, Effect::SaveAndApply)
                    } else {
                        (InputResult::Continue, Effect::Nothing)
                    }
                },
                _ => (InputResult::Continue, Effect::Nothing),
            }
        },
        DialogType::ConfirmQuit => {
            match key {
                KeyInput::Char(c) => {
                    if c == 'y' || c == 'Y' {
                        (InputResult::Quit, Effect::Nothing)
                    } else if c == 'n' || c == 'N' {
                        app.dialog = DialogType::Idle;
                        (InputResult::Continue, Effect::Nothing)
                    } else {
                        (InputResult::Continue, Effect::Nothing)
                    }
                },
                KeyInput::Esc => {
                    app.dialog = DialogType::Idle;
                    (InputResult::Continue, Effect::Nothing)
                },
                _ => (InputResult::Continue, Effect::Nothing),
            }
        },
        DialogType::EditDropdown => {
            match key {
                KeyInput::Up => {
                    dropdown_up(app);
                    (InputResult::Continue, Effect::Nothing)
                },
                KeyInput::Down => {
                    dropdown_down(app);
                    (InputResult::Continue, Effect::Nothing)
                },
                KeyInput::Char(c) => {
                    if c == 'k' {
                        dropdown_up(app);
                    } else if c == 'j' {
                        dropdown_down(app);
                    }
                    (InputResult::Continue, Effect::Nothing)
                },
                KeyInput::Enter => {
                    app.apply_dropdown_selection();
                    app.dialog = DialogType::Idle;
                    (InputResult::Continue, Effect::Nothing)
                },
                KeyInput::Esc => {
                    app.dialog = DialogType::Idle;
                    (InputResult::Continue, Effect::Nothing)
                },
                _ => (InputResult::Continue, Effect::Nothing),
            }
        },
        DialogType::NewWorkspace => {
            match key {
                KeyInput::Enter => {
                    if app.input_buffer.as_str().unicode_len() > 0 {
                        let name = app.input_buffer.clone();
                        app.create_workspace(name.as_str());
                        app.input_buffer = String::new();
                        app.dialog = DialogType::Idle;
                        (InputResult::Continue, Effect::PersistDb)
                    } else {
                        (InputResult::Continue, Effect::Nothing)
                    }
                },
                KeyInput::Esc => {
                    app.input_buffer = String::new();
                    app.dialog = DialogType::Idle;
                    (InputResult::Continue, Effect::Nothing)
                },
                KeyInput::Backspace => {
                    crate::text::pop_char(&mut app.input_buffer);
                    (InputResult::Continue, Effect::Nothing)
                },
                KeyInput::Char(c) => {
                    buffer_push(app, c);
                    (InputResult::Continue, Effect::Nothing)
                },
                _ => (InputResult::Continue, Effect::Nothing),
            }
        },
        DialogType::RenameWorkspace => {
            match key {
                KeyInput::Enter => {
                    if app.input_buffer.as_str().unicode_len() > 0 {
                        let name = app.input_buffer.clone();
                        app.rename_current_workspace(name.as_str());
                        app.input_buffer = String::new();
                        app.dialog = DialogType::Idle;
                        (InputResult::Continue, Effect::PersistDb)
                    } else {
                        (InputResult::Continue, Effect::Nothing)
                    }
                },
                KeyInput::Esc => {
                    app.input_buffer = String::new();
                    app.dialog = DialogType::Idle;
                    (InputResult::Continue, Effect::Nothing)
                },
                KeyInput::Backspace => {
                    crate::text::pop_char(&mut app.input_buffer);
                    (InputResult::Continue, Effect::Nothing)
                },
                KeyInput::Char(c) => {
                    buffer_push(app, c);
                    (InputResult::Continue, Effect::Nothing)
                },
                _ => (InputResult::Continue, Effect::Nothing),
            }
        },
        DialogType::DeleteWorkspace => {
            match key {
                KeyInput::Char(c) => {
                    if c == 'y' || c == 'Y' {
                        let deleted = app.delete_current_workspace();
                        app.dialog = DialogType::Idle;
                        if deleted {
                            (InputResult::Continue, Effect::PersistDb)
                        } else {
                            (InputResult::Continue, Effect::Nothing)
                        }
                    } else if c == 'n' || c == 'N' {
                        app.dialog = DialogType::Idle;
                        (InputResult::Continue, Effect::Nothing)
                    } else {
                        (InputResult::Continue, Effect::Nothing)
                    }
                },
                KeyInput::Esc => {
                    app.dialog = DialogType::Idle;
                    (InputResult::Continue, Effect::Nothing)
                },
                _ => (InputResult::Continue, Effect::Nothing),
            }
        },
        DialogType::Idle => handle_base_key(app, key, shift, now),
    }
}

/// Moves the dropdown highlight up one option.
fn dropdown_up(app: &mut App)
    requires
        old(app).wf(),
    ensures
        final(app).wf(),
        *final(app) == (App {
            dropdown_selection: if old(app).dropdown_selection > 0 {
                (old(app).dropdown_selection - 1) as usize
            } else {
                0
            },
            ..*old(app)
        }),
{
    if app.dropdown_selection > 0 {
        app.dropdown_selection = app.dropdown_selection - 1;
    }
}

/// Moves the dropdown highlight down one option, bounded by the option
/// count.
fn dropdown_down(app: &mut App)
    requires
        old(app).wf(),
    ensures
        final(app).wf(),
        *final(app) == (App {
            dropdown_selection: final(app).dropdown_selection,
            ..*old(app)
        }),
        exists|opts: Seq<Seq<char>>|
            #[trigger] dropdown_options_ok(*old(app), opts) && final(app).dropdown_selection == (
            if opts.len() > 0 && old(app).dropdown_selection < opts.len() - 1 {
                old(app).dropdown_selection + 1
            } else {
                old(app).dropdown_selection as int
            }),
{
    let options = app.get_dropdown_options();
    let max: usize = if options.len() == 0 {
        0
    } else {
        options.len() - 1
    };
    if app.dropdown_selection < max {
        app.dropdown_selection = app.dropdown_selection + 1;
    }
}

/// Appends a typed character to the input buffer while it is shorter than
/// twenty characters; a full buffer stays as it is.
fn buffer_push(app: &mut App, c: char)
    requires
        old(app).wf(),
    ensures
        final(app).wf(),
        old(app).input_buffer@.len() < 20 ==> final(app).input_buffer@ == old(
            app,
        ).input_buffer@.push(c),
        old(app).input_buffer@.len() >= 20 ==> *final(app) == *old(app),
        *final(app) == (App { input_buffer: final(app).input_buffer, ..*old(app) }),
{
    if app.input_buffer.as_str().unicode_len() < 20 {
        crate::text::push_char(&mut app.input_buffer, c);
    }
}

/// The base shortcuts, reachable only with no dialog open.
fn handle_base_key(app: &mut App, key: KeyInput, shift: bool, now: u64) -> (r: (
    InputResult,
    Effect,
))
    requires
        old(app).wf(),
        old(app).dialog is Idle,
    ensures
        final(app).wf(),
        r.0 is Quit <==> (is_quit_key(key) && !old(app).has_changes),
        r.1 is SaveAndApply <==> (is_apply_key(key) && old(app).main_tab is Live),
        r.1 is Refresh <==> (is_refresh_key(key) && old(app).main_tab is Live),
        r.1 is Identify <==> (is_identify_key(key) && old(app).main_tab is Live),
        !(r.1 is PersistDb),
        base_key_ok(*old(app), *final(app), key, shift, now),
        (key_char(key, 'p') || key_char(key, 'P')) && old(app).main_tab is Live && old(
            app,
        ).monitors@.len() > 0 && crate::monitor::exactly_one_primary(mviews(old(app).monitors@))
            ==> crate::monitor::exactly_one_primary(mviews(final(app).monitors@)),
{
    match key {
        KeyInput::Char(c) => {
            if c == 'q' || c == 'Q' {
                if app.has_changes {
                    app.dialog = DialogType::ConfirmQuit;
                    (InputResult::Continue, Effect::Nothing)
                } else {
                    (InputResult::Quit, Effect::Nothing)
                }
            } else if c == '1' {
                app.switch_tab(MainTab::Live);
                (InputResult::Continue, Effect::Nothing)
            } else if c == '2' {
                app.switch_tab(MainTab::Saved);
                (InputResult::Continue, Effect::Nothing)
            } else if c == '[' {
                if matches!(app.main_tab, MainTab::Saved) {
                    app.prev_workspace();
                }
                (InputResult::Continue, Effect::Nothing)
            } else if c == ']' {
                if matches!(app.main_tab, MainTab::Saved) {
                    app.next_workspace();
                }
                (InputResult::Continue, Effect::Nothing)
            } else if c == 'n' || c == 'N' {
                if matches!(app.main_tab, MainTab::Saved) {
                    app.input_buffer = String::new();
                    app.dialog = DialogType::NewWorkspace;
                }
                (InputResult::Continue, Effect::Nothing)
            } else if c == 'd' || c == 'D' {
                if matches!(app.main_tab, MainTab::Saved) {
                    app.dialog = DialogType::DeleteWorkspace;
                }
                (InputResult::Continue, Effect::Nothing)
            } else if c == 'p' || c == 'P' {
                if matches!(app.main_tab, MainTab::Live) {
                    app.toggle_primary();
                }
                (InputResult::Continue, Effect::Nothing)
            } else if c == 'a' || c == 'A' {
                if matches!(app.main_tab, MainTab::Live) {
                    app.save_and_apply(now);
                    (InputResult::Continue, Effect::SaveAndApply)
                } else {
                    (InputResult::Continue, Effect::Nothing)
                }
            } else if c == 'i' || c == 'I' {
                if matches!(app.main_tab, MainTab::Live) {
                    app.message = String::from_str(
                        "Identifying monitors... Check your displays!",
                    );
                    (InputResult::Continue, Effect::Identify)
                } else {
                    (InputResult::Continue, Effect::Nothing)
                }
            } else if c == 'r' || c == 'R' {
                if matches!(app.main_tab, MainTab::Live) {
                    (InputResult::Continue, Effect::Refresh)
                } else {
                    app.input_buffer = app.current_workspace_name();
                    app.dialog = DialogType::RenameWorkspace;
                    proof {
                        if old(app).selected_workspace < old(app).monitor_db@.workspaces.len() {
                            assert(old(app).monitor_db@.workspaces[old(
                                app,
                            ).selected_workspace as int].wf());
                        }
                    }
                    (InputResult::Continue, Effect::Nothing)
                }
            } else if c == 'h' {
                arrange_left(app, shift);
                (InputResult::Continue, Effect::Nothing)
            } else if c == 'l' {
                arrange_right(app, shift);
                (InputResult::Continue, Effect::Nothing)
            } else if c == 'H' {
                if matches!(app.focus_panel, FocusPanel::Arrangement) && matches!(
                    app.main_tab,
                    MainTab::Live,
                ) {
                    app.move_monitor_left();
                }
                (InputResult::Continue, Effect::Nothing)
            } else if c == 'L' {
                if matches!(app.focus_panel, FocusPanel::Arrangement) && matches!(
                    app.main_tab,
                    MainTab::Live,
                ) {
                    app.move_monitor_right();
                }
                (InputResult::Continue, Effect::Nothing)
            } else if c == 'k' {
                settings_up(app);
                (InputResult::Continue, Effect::Nothing)
            } else if c == 'j' {
                settings_down(app);
                (InputResult::Continue, Effect::Nothing)
            } else if c == ' ' {
                open_setting_editor(app);
                (InputResult::Continue, Effect::Nothing)
            } else {
                (InputResult::Continue, Effect::Nothing)
            }
        },
        KeyInput::Tab => {
            if shift {
                app.select_next_monitor();
            } else {
                app.focus_panel = match app.focus_panel {
                    FocusPanel::Arrangement => FocusPanel::Settings,
                    FocusPanel::Settings => FocusPanel::Arrangement,
                };
            }
            (InputResult::Continue, Effect::Nothing)
        },
        KeyInput::BackTab => {
            app.select_next_monitor();
            (InputResult::Continue, Effect::Nothing)
        },
        KeyInput::Left => {
            arrange_left(app, shift);
            (InputResult::Continue, Effect::Nothing)
        },
        KeyInput::Right => {
            arrange_right(app, shift);
            (InputResult::Continue, Effect::Nothing)
        },
        KeyInput::Up => {
            settings_up(app);
            (InputResult::Continue, Effect::Nothing)
        },
        KeyInput::Down => {
            settings_down(app);
            (InputResult::Continue, Effect::Nothing)
        },
        KeyInput::Enter => {
            open_setting_editor(app);
            (InputResult::Continue, Effect::Nothing)
        },
        _ => (InputResult::Continue, Effect::Nothing),
    }
}

/// Left arrow in the arrangement panel: select or (shifted) reorder.
fn arrange_left(app: &mut App, shift: bool)
    requires
        old(app).wf(),
    ensures
        final(app).wf(),
        arrange_left_ok(*old(app), *final(app), shift),
{
    if matches!(app.focus_panel, FocusPanel::Arrangement) {
        match app.main_tab {
            MainTab::Live => {
                if shift {
                    app.move_monitor_left();
                } else {
                    app.select_prev_monitor();
                }
            },
            MainTab::Saved => {
                if app.saved_selected_monitor > 0 {
                    app.saved_selected_monitor = app.saved_selected_monitor - 1;
                }
            },
        }
    }
}

/// Right arrow in the arrangement panel: select or (shifted) reorder.
fn arrange_right(app: &mut App, shift: bool)
    requires
        old(app).wf(),
    ensures
        final(app).wf(),
        arrange_right_ok(*old(app), *final(app), shift),
{
    if matches!(app.focus_panel, FocusPanel::Arrangement) {
        match app.main_tab {
            MainTab::Live => {
                if shift {
                    app.move_monitor_right();
                } else {
                    app.select_next_monitor();
                }
            },
            MainTab::Saved => {
                if app.saved_monitors.len() > 0 && app.saved_selected_monitor
                    < app.saved_monitors.len() - 1 {
                    app.saved_selected_monitor = app.saved_selected_monitor + 1;
                }
            },
        }
    }
}

/// Up in the settings panel: move the setting highlight.
fn settings_up(app: &mut App)
    requires
        old(app).wf(),
    ensures
        final(app).wf(),
        settings_up_ok(*old(app), *final(app)),
{
    if matches!(app.focus_panel, FocusPanel::Settings) {
        match app.main_tab {
            MainTab::Live => {
                if app.selected_setting > 0 {
                    app.selected_setting = app.selected_setting - 1;
                }
            },
            MainTab::Saved => {
                if app.saved_selected_setting > 0 {
                    app.saved_selected_setting = app.saved_selected_setting - 1;
                }
            },
        }
    }
}

/// Down in the settings panel: move the setting highlight.
fn settings_down(app: &mut App)
    requires
        old(app).wf(),
    ensures
        final(app).wf(),
        settings_down_ok(*old(app), *final(app)),
{
    if matches!(app.focus_panel, FocusPanel::Settings) {
        match app.main_tab {
            MainTab::Live => {
                if app.selected_setting < SETTING_COUNT - 1 {
                    app.selected_setting = app.selected_setting + 1;
                }
            },
            MainTab::Saved => {
                if app.saved_selected_setting < SETTING_COUNT - 1 {
                    app.saved_selected_setting = app.saved_selected_setting + 1;
                }
            },
        }
    }
}

/// Enter or space on a setting: toggle the primary flag, or open the
/// dropdown editor for the other fields.
fn open_setting_editor(app: &mut App)
    requires
        old(app).wf(),
    ensures
        final(app).wf(),
        open_editor_ok(*old(app), *final(app)),
{
    if matches!(app.focus_panel, FocusPanel::Settings) && matches!(app.main_tab, MainTab::Live) {
        let field = SettingField::at(app.selected_setting);
        if matches!(field, SettingField::Primary) {
            app.toggle_primary();
        } else {
            app.dropdown_selection = 0;
            app.dialog = DialogType::EditDropdown;
        }
    }
}

/// Selection moved to the next monitor, wrapping, and nothing else.
pub open spec fn select_next_ok(o: App, f: App) -> bool {
    &&& f == (App { selected_monitor: f.selected_monitor, ..o })
    &&& (o.monitors@.len() == 0 ==> f.selected_monitor == o.selected_monitor)
    &&& (o.monitors@.len() > 0 ==> f.selected_monitor == (o.selected_monitor + 1) % (
    o.monitors@.len() as int))
}

/// Selection moved to the previous monitor, wrapping, and nothing else.
pub open spec fn select_prev_ok(o: App, f: App) -> bool {
    &&& f == (App { selected_monitor: f.selected_monitor, ..o })
    &&& (o.monitors@.len() == 0 ==> f.selected_monitor == o.selected_monitor)
    &&& (o.monitors@.len() > 0 ==> f.selected_monitor as int == (
    if o.selected_monitor == 0 {
        o.monitors@.len() - 1
    } else {
        o.selected_monitor - 1
    }))
}

/// The selected monitor swapped with its left neighbour, followed, and
/// positions recalculated; a no-op at the left edge.
pub open spec fn move_left_ok(o: App, f: App) -> bool {
    &&& f == (App {
        monitors: f.monitors,
        selected_monitor: f.selected_monitor,
        has_changes: f.has_changes,
        ..o
    })
    &&& (o.selected_monitor == 0 || o.monitors@.len() < 2 ==> f == o)
    &&& (o.selected_monitor > 0 && o.monitors@.len() >= 2 ==> {
        let sel = o.selected_monitor as int;
        let swapped = mviews(o.monitors@).update(sel, mviews(o.monitors@)[sel - 1]).update(
            sel - 1,
            mviews(o.monitors@)[sel],
        );
        &&& mviews(f.monitors@) == crate::app::recalced(swapped)
        &&& f.selected_monitor == sel - 1
        &&& f.has_changes
    })
}

/// The selected monitor swapped with its right neighbour, followed, and
/// positions recalculated; a no-op at the right edge.
pub open spec fn move_right_ok(o: App, f: App) -> bool {
    &&& f == (App {
        monitors: f.monitors,
        selected_monitor: f.selected_monitor,
        has_changes: f.has_changes,
        ..o
    })
    &&& (o.monitors@.len() == 0 || o.selected_monitor >= o.monitors@.len() - 1 ==> f == o)
    &&& (o.monitors@.len() > 0 && o.selected_monitor < o.monitors@.len() - 1 ==> {
        let sel = o.selected_monitor as int;
        let swapped = mviews(o.monitors@).update(sel, mviews(o.monitors@)[sel + 1]).update(
            sel + 1,
            mviews(o.monitors@)[sel],
        );
        &&& mviews(f.monitors@) == crate::app::recalced(swapped)
        &&& f.selected_monitor == sel + 1
        &&& f.has_changes
    })
}

/// The saved-panel selection moved one monitor left, floored at the first.
pub open spec fn saved_prev_ok(o: App, f: App) -> bool {
    f == (App {
        saved_selected_monitor: if o.saved_selected_monitor > 0 {
            (o.saved_selected_monitor - 1) as usize
        } else {
            o.saved_selected_monitor
        },
        ..o
    })
}

/// The saved-panel selection moved one monitor right, capped at the last.
pub open spec fn saved_next_ok(o: App, f: App) -> bool {
    f == (App {
        saved_selected_monitor: if o.saved_monitors@.len() > 0 && o.saved_selected_monitor
            < o.saved_monitors@.len() - 1 {
            (o.saved_selected_monitor + 1) as usize
        } else {
            o.saved_selected_monitor
        },
        ..o
    })
}

/// The left-arrow action in the arrangement panel: with focus elsewhere
/// nothing; on Live select or (shifted) reorder; on Saved move the saved
/// selection.
pub open spec fn arrange_left_ok(o: App, f: App, shift: bool) -> bool {
    if !(o.focus_panel is Arrangement) {
        f == o
    } else {
        match o.main_tab {
            MainTab::Live => if shift {
                move_left_ok(o, f)
            } else {
                select_prev_ok(o, f)
            },
            MainTab::Saved => saved_prev_ok(o, f),
        }
    }
}

/// The right-arrow action in the arrangement panel.
pub open spec fn arrange_right_ok(o: App, f: App, shift: bool) -> bool {
    if !(o.focus_panel is Arrangement) {
        f == o
    } else {
        match o.main_tab {
            MainTab::Live => if shift {
                move_right_ok(o, f)
            } else {
                select_next_ok(o, f)
            },
            MainTab::Saved => saved_next_ok(o, f),
        }
    }
}

/// The up-arrow action in the settings panel: the tab's setting highlight
/// moves one field up, floored at the first; with focus elsewhere nothing.
pub open spec fn settings_up_ok(o: App, f: App) -> bool {
    if !(o.focus_panel is Settings) {
        f == o
    } else {
        match o.main_tab {
            MainTab::Live => f == (App {
                selected_setting: if o.selected_setting > 0 {
                    (o.selected_setting - 1) as usize
                } else {
                    o.selected_setting
                },
                ..o
            }),
            MainTab::Saved => f == (App {
                saved_selected_setting: if o.saved_selected_setting > 0 {
                    (o.saved_selected_setting - 1) as usize
                } else {
                    o.saved_selected_setting
                },
                ..o
            }),
        }
    }
}

/// The down-arrow action in the settings panel: the tab's setting highlight
/// moves one field down, capped at the last.
pub open spec fn settings_down_ok(o: App, f: App) -> bool {
    if !(o.focus_panel is Settings) {
        f == o
    } else {
        match o.main_tab {
            MainTab::Live => f == (App {
                selected_setting: if o.selected_setting < SETTING_COUNT - 1 {
                    (o.selected_setting + 1) as usize
                } else {
                    o.selected_setting
                },
                ..o
            }),
            MainTab::Saved => f == (App {
                saved_selected_setting: if o.saved_selected_setting < SETTING_COUNT - 1 {
                    (o.saved_selected_setting + 1) as usize
                } else {
                    o.saved_selected_setting
                },
                ..o
            }),
        }
    }
}

/// Toggling the selected monitor's primary flag under the exclusivity rule:
/// a non-primary selected monitor becomes the unique primary; un-priming
/// promotes the first other monitor; a sole primary or an empty selection
/// changes nothing.
pub open spec fn toggle_primary_ok(o: App, f: App) -> bool {
    &&& f == (App { monitors: f.monitors, has_changes: f.has_changes, ..o })
    &&& f.monitors@.len() == o.monitors@.len()
    &&& (o.selected_monitor >= o.monitors@.len() ==> f == o)
    &&& (o.selected_monitor < o.monitors@.len() && !mviews(o.monitors@)[o.selected_monitor as int].is_primary
        ==> f.has_changes && forall|k: int| 0 <= k < f.monitors@.len()
        ==> (#[trigger] f.monitors@[k])@ == (crate::monitor::MonitorView {
        is_primary: k == o.selected_monitor,
        ..mviews(o.monitors@)[k]
    }))
    &&& (o.selected_monitor < o.monitors@.len() && mviews(o.monitors@)[o.selected_monitor as int].is_primary
        && o.monitors@.len() > 1 ==> f.has_changes && forall|k: int|
        0 <= k < f.monitors@.len() ==> (#[trigger] f.monitors@[k])@
        == (crate::monitor::MonitorView {
        is_primary: k == (if o.selected_monitor == 0 {
            1int
        } else {
            0int
        }),
        ..mviews(o.monitors@)[k]
    }))
    &&& (o.selected_monitor < o.monitors@.len() && mviews(o.monitors@)[o.selected_monitor as int].is_primary
        && o.monitors@.len() <= 1 ==> f == o)
}

/// Enter or space on a setting on the Live tab: the primary checkbox
/// toggles; any other field opens the dropdown editor from its first option;
/// elsewhere nothing happens.
pub open spec fn open_editor_ok(o: App, f: App) -> bool {
    if !(o.focus_panel is Settings) || !(o.main_tab is Live) {
        f == o
    } else if crate::state::SettingField::spec_at(o.selected_setting as int) is Primary {
        toggle_primary_ok(o, f)
    } else {
        f == (App { dropdown_selection: 0, dialog: DialogType::EditDropdown, ..o })
    }
}

/// The other focus panel.
pub open spec fn flipped(p: FocusPanel) -> FocusPanel {
    match p {
        FocusPanel::Arrangement => FocusPanel::Settings,
        FocusPanel::Settings => FocusPanel::Arrangement,
    }
}

/// A tab switch: the tab changes, a dropdown from the other tab closes, and
/// entering the Saved tab rereads its monitors; nothing else moves.
pub open spec fn switch_tab_ok(o: App, f: App, tab: MainTab) -> bool {
    &&& f == (App {
        main_tab: tab,
        dialog: f.dialog,
        saved_monitors: f.saved_monitors,
        saved_selected_monitor: f.saved_selected_monitor,
        ..o
    })
    &&& (o.main_tab != tab && o.dialog is EditDropdown ==> f.dialog is Idle)
    &&& ((o.main_tab == tab || !(o.dialog is EditDropdown)) ==> f.dialog == o.dialog)
    &&& (tab is Saved ==> f.saved_monitors@.len() == o.monitor_db@.workspaces[o.selected_workspace as int].monitors.len()
        && forall|i: int| 0 <= i < f.saved_monitors@.len() ==> (#[trigger] f.saved_monitors@[i])@
        == crate::db::saved_as_monitor(
        o.monitor_db@.workspaces[o.selected_workspace as int].monitors[i],
    ))
}

/// Showing and activating the previous workspace; a no-op at the first.
pub open spec fn ws_prev_ok(o: App, f: App) -> bool {
    &&& (o.selected_workspace == 0 ==> f == o)
    &&& (o.selected_workspace > 0 ==> f.selected_workspace == o.selected_workspace - 1)
    &&& f.monitor_db@.workspaces == o.monitor_db@.workspaces
    &&& f.selected_workspace == f.monitor_db@.active_workspace
    &&& f == (App {
        selected_workspace: f.selected_workspace,
        monitor_db: f.monitor_db,
        saved_monitors: f.saved_monitors,
        saved_selected_monitor: f.saved_selected_monitor,
        ..o
    })
}

/// Showing and activating the next workspace; a no-op at the last.
pub open spec fn ws_next_ok(o: App, f: App) -> bool {
    &&& (o.selected_workspace + 1 >= o.monitor_db@.workspaces.len() ==> f == o)
    &&& (o.selected_workspace + 1 < o.monitor_db@.workspaces.len() ==> f.selected_workspace
        == o.selected_workspace + 1)
    &&& f.monitor_db@.workspaces == o.monitor_db@.workspaces
    &&& f.selected_workspace == f.monitor_db@.active_workspace
    &&& f == (App {
        selected_workspace: f.selected_workspace,
        monitor_db: f.monitor_db,
        saved_monitors: f.saved_monitors,
        saved_selected_monitor: f.saved_selected_monitor,
        ..o
    })
}

/// The apply command: the live monitors are saved into the active workspace
/// and the timed confirmation opens; the live list itself does not move.
pub open spec fn apply_ok(o: App, f: App, now: u64) -> bool {
    &&& f == (App {
        monitor_db: f.monitor_db,
        saved_monitors: f.saved_monitors,
        saved_selected_monitor: f.saved_selected_monitor,
        message: f.message,
        dialog: f.dialog,
        ..o
    })
    &&& f.dialog == (DialogType::ConfirmApply { countdown: 15, started: now })
    &&& f.message@ == "Applied! Check your monitors."@
    &&& f.monitor_db@.workspaces == crate::app::upsert_all(
        o.monitor_db@.workspaces,
        o.selected_workspace as int,
        mviews(o.monitors@),
    )
    &&& f.monitor_db@.active_workspace == o.selected_workspace
}

/// Opening the rename dialog: the buffer is prefilled with the shown
/// workspace's name.
pub open spec fn rename_open_ok(o: App, f: App) -> bool {
    &&& f == (App {
        input_buffer: f.input_buffer,
        dialog: DialogType::RenameWorkspace,
        ..o
    })
    &&& f.input_buffer@ == (if o.selected_workspace < o.monitor_db@.workspaces.len() {
        o.monitor_db@.workspaces[o.selected_workspace as int].name
    } else {
        Seq::<char>::empty()
    })
}

/// The whole base-shortcut table of the dispatcher, with no dialog open:
/// what each key does to the state, by tab and focus.
pub open spec fn base_key_ok(o: App, f: App, key: KeyInput, shift: bool, now: u64) -> bool {
    match key {
        KeyInput::Char(c) => if c == 'q' || c == 'Q' {
            if o.has_changes {
                f == (App { dialog: DialogType::ConfirmQuit, ..o })
            } else {
                f == o
            }
        } else if c == '1' {
            switch_tab_ok(o, f, MainTab::Live)
        } else if c == '2' {
            switch_tab_ok(o, f, MainTab::Saved)
        } else if c == '[' {
            if o.main_tab is Saved {
                ws_prev_ok(o, f)
            } else {
                f == o
            }
        } else if c == ']' {
            if o.main_tab is Saved {
                ws_next_ok(o, f)
            } else {
                f == o
            }
        } else if c == 'n' || c == 'N' {
            if o.main_tab is Saved {
                f == (App {
                    input_buffer: f.input_buffer,
                    dialog: DialogType::NewWorkspace,
                    ..o
                }) && f.input_buffer@.len() == 0
            } else {
                f == o
            }
        } else if c == 'd' || c == 'D' {
            if o.main_tab is Saved {
                f == (App { dialog: DialogType::DeleteWorkspace, ..o })
            } else {
                f == o
            }
        } else if c == 'p' || c == 'P' {
            if o.main_tab is Live {
                toggle_primary_ok(o, f)
            } else {
                f == o
            }
        } else if c == 'a' || c == 'A' {
            if o.main_tab is Live {
                apply_ok(o, f, now)
            } else {
                f == o
            }
        } else if c == 'i' || c == 'I' {
            if o.main_tab is Live {
                f == (App { message: f.message, ..o }) && f.message@
                    == "Identifying monitors... Check your displays!"@
            } else {
                f == o
            }
        } else if c == 'r' || c == 'R' {
            if o.main_tab is Live {
                f == o
            } else {
                rename_open_ok(o, f)
            }
        } else if c == 'h' {
            arrange_left_ok(o, f, shift)
        } else if c == 'l' {
            arrange_right_ok(o, f, shift)
        } else if c == 'H' {
            if o.focus_panel is Arrangement && o.main_tab is Live {
                move_left_ok(o, f)
            } else {
                f == o
            }
        } else if c == 'L' {
            if o.focus_panel is Arrangement && o.main_tab is Live {
                move_right_ok(o, f)
            } else {
                f == o
            }
        } else if c == 'k' {
            settings_up_ok(o, f)
        } else if c == 'j' {
            settings_down_ok(o, f)
        } else if c == ' ' {
            open_editor_ok(o, f)
        } else {
            f == o
        },
        KeyInput::Tab => if shift {
            select_next_ok(o, f)
        } else {
            f == (App { focus_panel: flipped(o.focus_panel), ..o })
        },
        KeyInput::BackTab => select_next_ok(o, f),
        KeyInput::Left => arrange_left_ok(o, f, shift),
        KeyInput::Right => arrange_right_ok(o, f, shift),
        KeyInput::Up => settings_up_ok(o, f),
        KeyInput::Down => settings_down_ok(o, f),
        KeyInput::Enter => open_editor_ok(o, f),
        _ => f == o,
    }
}

/// Length of the longest text in the list, 0 for an empty list.
pub open spec fn max_text_len(ss: Seq<Seq<char>>) -> int
    decreases ss.len(),
{
    if ss.len() == 0 {
        0
    } else if max_text_len(ss.drop_last()) >= ss.last().len() {
        max_text_len(ss.drop_last())
    } else {
        ss.last().len() as int
    }
}

/// What a click owes while the dropdown is open on the Live tab: on an
/// option it applies it and closes; on the border nothing; outside it just
/// closes; and with no options it closes at once.
pub open spec fn dropdown_click_ok(
    o: App,
    f: App,
    opts: Seq<Seq<char>>,
    col: int,
    row: int,
    width: int,
    height: int,
) -> bool {
    if opts.len() == 0 {
        f == (App { dialog: DialogType::Idle, ..o })
    } else {
        let arr_end = geometry::spec_arr_end(height);
        let rect = geometry::spec_dropdown_rect(
            0,
            arr_end,
            width,
            geometry::spec_help_start(height) - arr_end,
            o.selected_setting as int,
            opts.len() as int,
            max_text_len(opts),
        );
        match geometry::spec_dropdown_hit(rect, col, row, opts.len() as int) {
            geometry::DropdownHit::Outside => f == (App { dialog: DialogType::Idle, ..o }),
            geometry::DropdownHit::Border => f == o,
            geometry::DropdownHit::Option(idx) => {
                &&& f.dialog is Idle
                &&& exists|opts2: Seq<Seq<char>>|
                    #[trigger] crate::app::dropdown_options_ok(o, opts2)
                        && crate::app::applied_selection(
                        App { dropdown_selection: idx, ..o },
                        App { dialog: o.dialog, ..f },
                        opts2,
                    )
            },
        }
    }
}

/// What a click with no dialog open owes: in the tab bar it switches tabs by
/// half; in the arrangement band it focuses the panel and, on a monitor box,
/// selects it (and on the Live tab begins a drag); in the settings band it
/// focuses the panel and, on a setting row, selects the field and toggles
/// the primary checkbox or opens the editor by column; in the help bar
/// nothing.
pub open spec fn idle_click_ok(o: App, f: App, col: int, row: int, width: int, height: int) -> bool {
    let tabs_end = geometry::spec_tabs_end(height);
    let arr_end = geometry::spec_arr_end(height);
    let set_end = geometry::spec_help_start(height);
    if row < tabs_end {
        if col < width / 2 {
            switch_tab_ok(o, f, MainTab::Live)
        } else {
            switch_tab_ok(o, f, MainTab::Saved)
        }
    } else if row < arr_end {
        let o2 = App { focus_panel: FocusPanel::Arrangement, ..o };
        let n: int = if o.main_tab is Live {
            o.monitors@.len() as int
        } else {
            o.saved_monitors@.len() as int
        };
        if n > 0 && n <= 65535 {
            match geometry::spec_box_at(width, n, col) {
                Some(i) => if o.main_tab is Live {
                    f == (App {
                        selected_monitor: i as usize,
                        drag_state: DragState::Dragging {
                            monitor_idx: i as usize,
                            start_x: col as u16,
                            start_y: row as u16,
                            current_x: col as u16,
                            current_y: row as u16,
                        },
                        ..o2
                    })
                } else {
                    f == (App {
                        saved_selected_monitor: i as usize,
                        drag_state: DragState::Idle,
                        ..o2
                    })
                },
                None => f == o2,
            }
        } else {
            f == o2
        }
    } else if row < set_end {
        let o2 = App { focus_panel: FocusPanel::Settings, ..o };
        match geometry::spec_row_to_setting(row, arr_end) {
            Some(idx) => if o.main_tab is Live {
                let o3 = App { selected_setting: idx as usize, ..o2 };
                if crate::state::SettingField::spec_at(idx) is Primary {
                    if 3 <= col <= 8 {
                        toggle_primary_ok(o3, f)
                    } else {
                        f == o3
                    }
                } else {
                    if col >= 17 {
                        f == (App {
                            dropdown_selection: 0,
                            dialog: DialogType::EditDropdown,
                            ..o3
                        })
                    } else {
                        f == o3
                    }
                }
            } else {
                f == (App { saved_selected_setting: idx as usize, ..o2 })
            },
            None => f == o2,
        }
    } else {
        f == o
    }
}

/// Dragging only moves the grabbed box's transient position; the
/// arrangement order does not change until release.
pub open spec fn drag_move_ok(o: App, f: App, col: int, row: int) -> bool {
    match o.drag_state {
        DragState::Dragging { monitor_idx, start_x, start_y, .. } => f == (App {
            drag_state: DragState::Dragging {
                monitor_idx,
                start_x,
                start_y,
                current_x: col as u16,
                current_y: row as u16,
            },
            ..o
        }),
        DragState::Idle => f == o,
    }
}

/// A scroll up with no dialog open: in the arrangement band the selection
/// moves left; in the settings band the setting highlight moves up.
pub open spec fn idle_scroll_up_ok(o: App, f: App, row: int, height: int) -> bool {
    let tabs_end = geometry::spec_tabs_end(height);
    let arr_end = geometry::spec_arr_end(height);
    let set_end = geometry::spec_help_start(height);
    if tabs_end <= row < arr_end {
        if o.main_tab is Live {
            select_prev_ok(o, f)
        } else {
            saved_prev_ok(o, f)
        }
    } else if arr_end <= row < set_end {
        if o.main_tab is Live {
            f == (App {
                selected_setting: if o.selected_setting > 0 {
                    (o.selected_setting - 1) as usize
                } else {
                    o.selected_setting
                },
                ..o
            })
        } else {
            f == (App {
                saved_selected_setting: if o.saved_selected_setting > 0 {
                    (o.saved_selected_setting - 1) as usize
                } else {
                    o.saved_selected_setting
                },
                ..o
            })
        }
    } else {
        f == o
    }
}

/// A scroll down with no dialog open: the mirror of the scroll up.
pub open spec fn idle_scroll_down_ok(o: App, f: App, row: int, height: int) -> bool {
    let tabs_end = geometry::spec_tabs_end(height);
    let arr_end = geometry::spec_arr_end(height);
    let set_end = geometry::spec_help_start(height);
    if tabs_end <= row < arr_end {
        if o.main_tab is Live {
            select_next_ok(o, f)
        } else {
            saved_next_ok(o, f)
        }
    } else if arr_end <= row < set_end {
        if o.main_tab is Live {
            f == (App {
                selected_setting: if o.selected_setting < SETTING_COUNT - 1 {
                    (o.selected_setting + 1) as usize
                } else {
                    o.selected_setting
                },
                ..o
            })
        } else {
            f == (App {
                saved_selected_setting: if o.saved_selected_setting < SETTING_COUNT - 1 {
                    (o.saved_selected_setting + 1) as usize
                } else {
                    o.saved_selected_setting
                },
                ..o
            })
        }
    } else {
        f == o
    }
}

/// The whole pointer table with no dialog open.
pub open spec fn idle_mouse_ok(
    o: App,
    f: App,
    kind: MouseKind,
    col: int,
    row: int,
    width: int,
    height: int,
) -> bool {
    match kind {
        MouseKind::DownLeft => idle_click_ok(o, f, col, row, width, height),
        MouseKind::DragLeft => drag_move_ok(o, f, col, row),
        MouseKind::UpLeft => drag_release_ok(o, f),
        MouseKind::ScrollUp => idle_scroll_up_ok(o, f, row, height),
        MouseKind::ScrollDown => idle_scroll_down_ok(o, f, row, height),
        MouseKind::Other => f == o,
    }
}

/// What a drag release owes, when the state was dragging: below the
/// threshold nothing reorders; beyond it the grabbed monitor moves one slot
/// per box-plus-gap of displacement, clamped at the edges, and positions are
/// recalculated.
pub open spec fn drag_release_ok(o: App, f: App) -> bool {
    match o.drag_state {
        DragState::Dragging { start_x, current_x, .. } => {
            let d = geometry::spec_drag_slots(start_x as int, current_x as int);
            &&& f.drag_state is Idle
            &&& (d.1 == 0 ==> mviews(f.monitors@) == mviews(o.monitors@) && f.selected_monitor
                == o.selected_monitor && f.has_changes == o.has_changes)
            &&& (d.1 > 0 && d.0 ==> {
                let s = crate::app::shifted_right(
                    mviews(o.monitors@),
                    o.selected_monitor as int,
                    d.1,
                );
                &&& mviews(f.monitors@) == crate::app::recalced(s.0)
                &&& f.selected_monitor as int == s.1
                &&& f.has_changes
            })
            &&& (d.1 > 0 && !d.0 ==> {
                let s = crate::app::shifted_left(
                    mviews(o.monitors@),
                    o.selected_monitor as int,
                    d.1,
                );
                &&& mviews(f.monitors@) == crate::app::recalced(s.0)
                &&& f.selected_monitor as int == s.1
                &&& f.has_changes
            })
        },
        DragState::Idle => f == o,
    }
}

/// Dispatches one pointer event. The active dialog captures it; with none
/// open, clicks select tabs, monitors and settings, and drags reorder the
/// arrangement. Geometry comes from the same functions the renderer uses.
pub fn handle_mouse(
    app: &mut App,
    kind: MouseKind,
    col: u16,
    row: u16,
    terminal_width: u16,
    terminal_height: u16,
    now: u64,
) -> (r: (InputResult, Effect))
    requires
        old(app).wf(),
    ensures
        final(app).wf(),
        // a click quits exactly on the quit confirmation's yes button
        r.0 is Quit <==> (old(app).dialog is ConfirmQuit && kind is DownLeft
            && geometry::spec_confirm_yes_hit(
            col as int,
            row as int,
            terminal_width as int,
            terminal_height as int,
        )),
        // save-export-reload arises exactly from the apply confirmation's no
        // button
        r.1 is SaveAndApply <==> (old(app).dialog is ConfirmApply && kind is DownLeft
            && !geometry::spec_confirm_yes_hit(
            col as int,
            row as int,
            terminal_width as int,
            terminal_height as int,
        ) && geometry::spec_confirm_no_hit(
            col as int,
            row as int,
            terminal_width as int,
            terminal_height as int,
        )),
        r.1 is SaveAndApply || r.1 is Nothing,
        // with no dialog open, the whole pointer table holds, including the
        // drag-to-reorder law on release
        old(app).dialog is Idle ==> idle_mouse_ok(
            *old(app),
            *final(app),
            kind,
            col as int,
            row as int,
            terminal_width as int,
            terminal_height as int,
        ),
        // a dropdown open outside the Live tab is forced closed
        old(app).dialog is EditDropdown && !(old(app).main_tab is Live) ==> final(app).dialog
            is Idle,
        // a click while the dropdown is open applies, ignores, or closes,
        // by where it lands relative to the popup
        old(app).dialog is EditDropdown && old(app).main_tab is Live && kind is DownLeft
            ==> exists|opts: Seq<Seq<char>>|
            #[trigger] dropdown_options_ok(*old(app), opts) && dropdown_click_ok(
                *old(app),
                *final(app),
                opts,
                col as int,
                row as int,
                terminal_width as int,
                terminal_height as int,
            ),
{
    match app.dialog {
        DialogType::EditDropdown => {
            if !matches!(app.main_tab, MainTab::Live) {
                app.dialog = DialogType::Idle;
                return (InputResult::Continue, Effect::Nothing);
            }
            match kind {
                MouseKind::DownLeft => {
                    let bands = geometry::vertical_bands(terminal_height);
                    let options = app.get_dropdown_options();
                    let ghost opts = crate::text::sviews(options@);
                    if options.len() == 0 {
                        app.dialog = DialogType::Idle;
                        proof {
                            assert(*app == (App { dialog: DialogType::Idle, ..*old(app) }));
                        }
                        return (InputResult::Continue, Effect::Nothing);
                    }
                    let mut max_len: usize = 0;
                    let mut k: usize = 0;
                    proof {
                        assert(opts.subrange(0, 0) =~= Seq::<Seq<char>>::empty());
                    }
                    while k < options.len()
                        invariant
                            k <= options@.len(),
                            opts == crate::text::sviews(options@),
                            max_len == max_text_len(opts.subrange(0, k as int)),
                        decreases options@.len() - k,
                    {
                        let l = options[k].as_str().unicode_len();
                        proof {
                            assert(opts.subrange(0, k + 1).drop_last() =~= opts.subrange(
                                0,
                                k as int,
                            ));
                            assert(opts.subrange(0, k + 1).last() == opts[k as int]);
                        }
                        if l > max_len {
                            max_len = l;
                        }
                        k = k + 1;
                    }
                    proof {
                        assert(opts.subrange(0, options@.len() as int) =~= opts);
                    }
                    let rect = geometry::dropdown_rect(
                        0,
                        bands.1 as usize,
                        terminal_width as usize,
                        (bands.2 - bands.1) as usize,
                        app.selected_setting,
                        options.len(),
                        max_len,
                    );
                    proof {
                        assert(rect.0 + rect.2 <= 1000000);
                        assert(rect.1 + rect.3 <= 1000000);
                    }
                    match geometry::dropdown_hit(rect, col as usize, row as usize, options.len()) {
                        geometry::DropdownHit::Option(idx) => {
                            app.dropdown_selection = idx;
                            let ghost mid = *app;
                            app.apply_dropdown_selection();
                            let ghost applied = *app;
                            app.dialog = DialogType::Idle;
                            proof {
                                let opts2 = choose|opts2: Seq<Seq<char>>|
                                    #[trigger] dropdown_options_ok(mid, opts2)
                                        && crate::app::applied_selection(mid, applied, opts2);
                                assert(dropdown_options_ok(*old(app), opts2));
                                assert(mid == (App {
                                    dropdown_selection: idx,
                                    ..*old(app)
                                }));
                                assert((App { dialog: old(app).dialog, ..*app }) == applied);
                                assert(dropdown_click_ok(
                                    *old(app),
                                    *app,
                                    opts,
                                    col as int,
                                    row as int,
                                    terminal_width as int,
                                    terminal_height as int,
                                ));
                            }
                        },
                        geometry::DropdownHit::Border => {},
                        geometry::DropdownHit::Outside => {
                            app.dialog = DialogType::Idle;
                        },
                    }
                    (InputResult::Continue, Effect::Nothing)
                },
                MouseKind::ScrollUp => {
                    dropdown_up(app);
                    (InputResult::Continue, Effect::Nothing)
                },
                MouseKind::ScrollDown => {
                    dropdown_down(app);
                    (InputResult::Continue, Effect::Nothing)
                },
                _ => (InputResult::Continue, Effect::Nothing),
            }
        },
        DialogType::ConfirmApply { .. } => {
            if matches!(kind, MouseKind::DownLeft) {
                if geometry::confirm_yes_hit(
                    col as usize,
                    row as usize,
                    terminal_width as usize,
                    terminal_height as usize,
                ) {
                    app.confirm_changes();
                    (InputResult::Continue, Effect::Nothing)
                } else if geometry::confirm_no_hit(
                    col as usize,
                    row as usize,
                    terminal_width as usize,
                    terminal_height as usize,
                ) {
                    app.revert_changes();
                    app.save_and_apply(now);
                    app.dialog = DialogType::Idle;
                    (InputResult::Continue, Effect::SaveAndApply)
                } else {
                    (InputResult::Continue, Effect::Nothing)
                }
            } else {
                (InputResult::Continue, Effect::Nothing)
            }
        },
        DialogType::ConfirmQuit => {
            if matches!(kind, MouseKind::DownLeft) {
                if geometry::confirm_yes_hit(
                    col as usize,
                    row as usize,
                    terminal_width as usize,
                    terminal_height as usize,
                ) {
                    (InputResult::Quit, Effect::Nothing)
                } else if geometry::confirm_no_hit(
                    col as usize,
                    row as usize,
                    terminal_width as usize,
                    terminal_height as usize,
                ) {
                    app.dialog = DialogType::Idle;
                    (InputResult::Continue, Effect::Nothing)
                } else {
                    (InputResult::Continue, Effect::Nothing)
                }
            } else {
                (InputResult::Continue, Effect::Nothing)
            }
        },
        DialogType::NewWorkspace | DialogType::RenameWorkspace | DialogType::DeleteWorkspace => {
            // text dialogs take keyboard input only
            (InputResult::Continue, Effect::Nothing)
        },
        DialogType::Idle => handle_mouse_idle(app, kind, col, row, terminal_width, terminal_height),
    }
}

/// Pointer dispatch with no dialog open.
fn handle_mouse_idle(
    app: &mut App,
    kind: MouseKind,
    col: u16,
    row: u16,
    terminal_width: u16,
    terminal_height: u16,
) -> (r: (InputResult, Effect))
    requires
        old(app).wf(),
        old(app).dialog is Idle,
    ensures
        final(app).wf(),
        r.0 is Continue,
        r.1 is Nothing,
        idle_mouse_ok(
            *old(app),
            *final(app),
            kind,
            col as int,
            row as int,
            terminal_width as int,
            terminal_height as int,
        ),
{
    let bands = geometry::vertical_bands(terminal_height);
    match kind {
        MouseKind::DownLeft => {
            if row < bands.0 {
                // the tab bar: left half selects Live, right half Saved
                if col < terminal_width / 2 {
                    app.switch_tab(MainTab::Live);
                } else {
                    app.switch_tab(MainTab::Saved);
                }
            } else if row < bands.1 {
                // the arrangement band: select, and in Live begin a drag
                app.focus_panel = FocusPanel::Arrangement;
                let live = matches!(app.main_tab, MainTab::Live);
                let n = if live {
                    app.monitors.len()
                } else {
                    app.saved_monitors.len()
                };
                if n > 0 && n <= 65535 {
                    match geometry::box_at(terminal_width, n, col) {
                        Some(i) => {
                            if live {
                                app.selected_monitor = i;
                                app.drag_state = DragState::Dragging {
                                    monitor_idx: i,
                                    start_x: col,
                                    start_y: row,
                                    current_x: col,
                                    current_y: row,
                                };
                            } else {
                                app.saved_selected_monitor = i;
                                app.drag_state = DragState::Idle;
                            }
                        },
                        None => {},
                    }
                }
            } else if row < bands.2 {
                // the settings band: select the field, toggle or open editor
                app.focus_panel = FocusPanel::Settings;
                match geometry::row_to_setting(row as usize, bands.1 as usize) {
                    Some(idx) => {
                        if matches!(app.main_tab, MainTab::Live) {
                            app.selected_setting = idx;
                            let field = SettingField::at(idx);
                            let rel_col = col as usize;
                            if matches!(field, SettingField::Primary) {
                                if 3 <= rel_col && rel_col <= 8 {
                                    app.toggle_primary();
                                }
                            } else {
                                if rel_col >= 17 {
                                    app.dropdown_selection = 0;
                                    app.dialog = DialogType::EditDropdown;
                                }
                            }
                        } else {
                            app.saved_selected_setting = idx;
                        }
                    },
                    None => {},
                }
            }
            (InputResult::Continue, Effect::Nothing)
        },
        MouseKind::DragLeft => {
            if let DragState::Dragging { monitor_idx, start_x, start_y, .. } = app.drag_state {
                app.drag_state = DragState::Dragging {
                    monitor_idx,
                    start_x,
                    start_y,
                    current_x: col,
                    current_y: row,
                };
            }
            (InputResult::Continue, Effect::Nothing)
        },
        MouseKind::UpLeft => {
            if let DragState::Dragging { start_x, current_x, .. } = app.drag_state {
                let slots = geometry::drag_slots(start_x, current_x);
                if slots.1 > 0 {
                    app.shift_selected(slots.0, slots.1);
                    app.recalculate_positions();
                    app.has_changes = true;
                    proof {
                        let s = if slots.0 {
                            crate::app::shifted_right(
                                mviews(old(app).monitors@),
                                old(app).selected_monitor as int,
                                slots.1 as int,
                            )
                        } else {
                            crate::app::shifted_left(
                                mviews(old(app).monitors@),
                                old(app).selected_monitor as int,
                                slots.1 as int,
                            )
                        };
                        assert(mviews(app.monitors@) == crate::app::recalced(s.0));
                    }
                }
                app.drag_state = DragState::Idle;
            }
            (InputResult::Continue, Effect::Nothing)
        },
        MouseKind::ScrollUp => {
            if row >= bands.0 && row < bands.1 {
                if matches!(app.main_tab, MainTab::Live) {
                    app.select_prev_monitor();
                } else {
                    if app.saved_selected_monitor > 0 {
                        app.saved_selected_monitor = app.saved_selected_monitor - 1;
                    }
                }
            } else if row >= bands.1 && row < bands.2 {
                if matches!(app.main_tab, MainTab::Live) {
                    if app.selected_setting > 0 {
                        app.selected_setting = app.selected_setting - 1;
                    }
                } else {
                    if app.saved_selected_setting > 0 {
                        app.saved_selected_setting = app.saved_selected_setting - 1;
                    }
                }
            }
            (InputResult::Continue, Effect::Nothing)
        },
        MouseKind::ScrollDown => {
            if row >= bands.0 && row < bands.1 {
                if matches!(app.main_tab, MainTab::Live) {
                    app.select_next_monitor();
                } else {
                    if app.saved_monitors.len() > 0 && app.saved_selected_monitor
                        < app.saved_monitors.len() - 1 {
                        app.saved_selected_monitor = app.saved_selected_monitor + 1;
                    }
                }
            } else if row >= bands.1 && row < bands.2 {
                if matches!(app.main_tab, MainTab::Live) {
                    if app.selected_setting < SETTING_COUNT - 1 {
                        app.selected_setting = app.selected_setting + 1;
                    }
                } else {
                    if app.saved_selected_setting < SETTING_COUNT - 1 {
                        app.saved_selected_setting = app.saved_selected_setting + 1;
                    }
                }
            }
            (InputResult::Continue, Effect::Nothing)
        },
        _ => (InputResult::Continue, Effect::Nothing),
    }
}

} // verus!
