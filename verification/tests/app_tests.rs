use hyprmon::app::App;
use hyprmon::db::MonitorDatabase;
use hyprmon::input::{handle_key, handle_mouse};
use hyprmon::monitor::{ingest_monitors, monitor_from_parts, MonitorConfig};
use hyprmon::rotation::Rotation;
use hyprmon::state::{DialogType, DragState, Effect, HyprEvent, InputResult, KeyInput, MainTab,
    MouseKind, SettingField};

fn monitor_at(name: &str, model: &str, x: i32, primary: bool, modes: Vec<String>)
    -> MonitorConfig {
    monitor_from_parts(name, "ACME", model, 1920, 1080, 6000, x, 0, 100, 0, modes, primary)
}

fn three_monitor_app() -> App {
    let db = MonitorDatabase::new_default();
    let monitors = vec![
        monitor_at("eDP-1", "Panel", 0, true, vec![]),
        monitor_at("DP-1", "First", 1920, false, vec![]),
        monitor_at("DP-2", "Second", 3840, false, vec![]),
    ];
    App::new(db, monitors)
}

#[test]
fn ingest_sorts_by_x_and_guarantees_a_primary() {
    let ms = vec![
        monitor_at("DP-1", "Right", 1920, false, vec![]),
        monitor_at("eDP-1", "Left", 0, false, vec![]),
    ];
    let out = ingest_monitors(ms);
    assert_eq!(out[0].name, "eDP-1");
    assert_eq!(out[1].name, "DP-1");
    assert!(out[0].is_primary);
    assert!(!out[1].is_primary);
}

#[test]
fn exactly_one_primary_after_toggling() {
    let mut app = three_monitor_app();
    // demoting the primary promotes another monitor
    app.selected_monitor = 0;
    app.toggle_primary();
    let primaries = app.monitors.iter().filter(|m| m.is_primary).count();
    assert_eq!(primaries, 1);
    assert!(app.monitors[1].is_primary);
    // promoting a non-primary demotes everything else
    app.selected_monitor = 2;
    app.toggle_primary();
    let primaries = app.monitors.iter().filter(|m| m.is_primary).count();
    assert_eq!(primaries, 1);
    assert!(app.monitors[2].is_primary);
}

#[test]
fn sole_monitor_stays_primary() {
    let db = MonitorDatabase::new_default();
    let mut app = App::new(db, vec![monitor_at("eDP-1", "Panel", 0, true, vec![])]);
    app.toggle_primary();
    assert!(app.monitors[0].is_primary);
}

#[test]
fn recalculate_positions_is_idempotent() {
    let mut app = three_monitor_app();
    app.recalculate_positions();
    let first: Vec<(i32, i32)> = app.monitors.iter().map(|m| (m.position_x, m.position_y))
        .collect();
    assert_eq!(first, vec![(0, 0), (1920, 0), (3840, 0)]);
    app.recalculate_positions();
    let second: Vec<(i32, i32)> = app.monitors.iter().map(|m| (m.position_x, m.position_y))
        .collect();
    assert_eq!(first, second);
}

#[test]
fn positions_scale_with_the_monitor_scale() {
    let db = MonitorDatabase::new_default();
    let mut wide = monitor_at("eDP-1", "Panel", 0, true, vec![]);
    wide.scale = 150;  // 1920 / 1.5 = 1280
    let other = monitor_at("DP-1", "Ext", 10, false, vec![]);
    let mut app = App::new(db, vec![wide, other]);
    app.recalculate_positions();
    assert_eq!(app.monitors[0].position_x, 0);
    assert_eq!(app.monitors[1].position_x, 1280);
}

#[test]
fn move_monitor_right_swaps_and_follows() {
    let mut app = three_monitor_app();
    app.selected_monitor = 0;
    app.move_monitor_right();
    assert_eq!(app.selected_monitor, 1);
    assert_eq!(app.monitors[0].model, "First");
    assert_eq!(app.monitors[1].model, "Panel");
    assert!(app.has_changes);
    // at the right edge nothing moves
    app.selected_monitor = 2;
    app.move_monitor_right();
    assert_eq!(app.selected_monitor, 2);
}

#[test]
fn resolution_dropdown_is_deduplicated_and_sorted_by_pixels() {
    let db = MonitorDatabase::new_default();
    let modes = vec![
        String::from("1920x1080@60Hz"),
        String::from("3840x2160@30Hz"),
        String::from("1920x1080@144Hz"),
    ];
    let mut app = App::new(db, vec![monitor_at("eDP-1", "Panel", 0, true, modes)]);
    app.selected_setting = 0;
    let options = app.get_dropdown_options();
    assert_eq!(options, vec![String::from("3840x2160"), String::from("1920x1080")]);
}

#[test]
fn refresh_dropdown_filters_rounds_and_sorts() {
    let db = MonitorDatabase::new_default();
    let modes = vec![
        String::from("1920x1080@59.94Hz"),
        String::from("1920x1080@144.00Hz"),
        String::from("3840x2160@30.00Hz"),
    ];
    let mut app = App::new(db, vec![monitor_at("eDP-1", "Panel", 0, true, modes)]);
    app.selected_setting = 1;
    let options = app.get_dropdown_options();
    assert_eq!(options, vec![String::from("144Hz"), String::from("60Hz")]);
}

#[test]
fn refresh_dropdown_falls_back_to_the_current_rate() {
    let db = MonitorDatabase::new_default();
    let modes = vec![String::from("800x600@75.00Hz")];
    let mut app = App::new(db, vec![monitor_at("eDP-1", "Panel", 0, true, modes)]);
    app.selected_setting = 1;
    // no mode matches 1920x1080: one entry with the monitor's own rate
    assert_eq!(app.get_dropdown_options(), vec![String::from("60Hz")]);
}

#[test]
fn scale_and_rotation_dropdowns_are_fixed() {
    let mut app = three_monitor_app();
    app.selected_setting = 2;
    assert_eq!(app.get_dropdown_options(), vec![
        String::from("100%"),
        String::from("125%"),
        String::from("150%"),
        String::from("175%"),
        String::from("200%"),
    ]);
    app.selected_setting = 3;
    assert_eq!(app.get_dropdown_options(), vec![
        String::from("Landscape"),
        String::from("Portrait Left"),
        String::from("Portrait Right"),
        String::from("Inverted"),
    ]);
    app.selected_setting = 4;
    assert_eq!(app.get_dropdown_options(), Vec::<String>::new());
}

#[test]
fn applying_a_dropdown_option_updates_the_monitor() {
    let db = MonitorDatabase::new_default();
    let modes = vec![
        String::from("1920x1080@60Hz"),
        String::from("3840x2160@30Hz"),
    ];
    let mut app = App::new(db, vec![monitor_at("eDP-1", "Panel", 0, true, modes)]);
    app.selected_setting = 0;
    app.dropdown_selection = 0;
    app.apply_dropdown_selection();
    assert_eq!(app.monitors[0].resolution, "3840x2160");
    assert!(app.has_changes);
    // scale in percent becomes hundredths
    app.selected_setting = 2;
    app.dropdown_selection = 1;
    app.apply_dropdown_selection();
    assert_eq!(app.monitors[0].scale, 125);
    // rotation by option index
    app.selected_setting = 3;
    app.dropdown_selection = 2;
    app.apply_dropdown_selection();
    assert_eq!(app.monitors[0].rotation, Rotation::Right);
}

#[test]
fn quit_asks_for_confirmation_only_when_dirty() {
    let mut app = three_monitor_app();
    let (r, _) = handle_key(&mut app, KeyInput::Char('q'), false, 0);
    assert!(matches!(r, InputResult::Quit));
    let mut app = three_monitor_app();
    app.has_changes = true;
    let (r, _) = handle_key(&mut app, KeyInput::Char('q'), false, 0);
    assert!(matches!(r, InputResult::Continue));
    assert!(matches!(app.dialog, DialogType::ConfirmQuit));
    let (r, _) = handle_key(&mut app, KeyInput::Char('y'), false, 0);
    assert!(matches!(r, InputResult::Quit));
}

#[test]
fn apply_opens_the_countdown_dialog_and_owes_an_export() {
    let mut app = three_monitor_app();
    let (_, effect) = handle_key(&mut app, KeyInput::Char('a'), false, 5000);
    assert!(matches!(effect, Effect::SaveAndApply));
    assert_eq!(app.dialog, DialogType::ConfirmApply { countdown: 15, started: 5000 });
    // the live monitors were saved into the active workspace
    assert_eq!(app.monitor_db.workspaces[0].monitors.len(), 3);
}

#[test]
fn refusing_the_apply_confirmation_reverts() {
    let mut app = three_monitor_app();
    app.selected_monitor = 0;
    app.move_monitor_right();
    assert_eq!(app.monitors[0].model, "First");
    handle_key(&mut app, KeyInput::Char('a'), false, 0);
    let (_, effect) = handle_key(&mut app, KeyInput::Char('n'), false, 100);
    assert!(matches!(effect, Effect::SaveAndApply));
    assert!(matches!(app.dialog, DialogType::Idle));
    // back to the baseline order
    assert_eq!(app.monitors[0].model, "Panel");
}

#[test]
fn countdown_expiry_reverts_and_reapplies() {
    let mut app = three_monitor_app();
    app.selected_monitor = 0;
    app.move_monitor_right();
    app.save_and_apply(1_000);
    // before the budget: nothing
    assert!(matches!(app.tick(10_000), Effect::Nothing));
    // 15 seconds later: revert and reapply
    let effect = app.tick(1_000 + 15_000);
    assert!(matches!(effect, Effect::SaveAndApply));
    assert!(matches!(app.dialog, DialogType::Idle));
    assert_eq!(app.monitors[0].model, "Panel");
}

#[test]
fn workspace_dialog_creates_renames_and_deletes() {
    let mut app = three_monitor_app();
    handle_key(&mut app, KeyInput::Char('2'), false, 0);
    assert!(matches!(app.main_tab, MainTab::Saved));
    handle_key(&mut app, KeyInput::Char('n'), false, 0);
    assert!(matches!(app.dialog, DialogType::NewWorkspace));
    handle_key(&mut app, KeyInput::Char('w'), false, 0);
    handle_key(&mut app, KeyInput::Char('k'), false, 0);
    let (_, effect) = handle_key(&mut app, KeyInput::Enter, false, 0);
    assert!(matches!(effect, Effect::PersistDb));
    assert_eq!(app.monitor_db.workspaces.len(), 2);
    assert_eq!(app.monitor_db.workspaces[1].name, "wk");
    assert_eq!(app.selected_workspace, 1);
    // rename it
    handle_key(&mut app, KeyInput::Char('r'), false, 0);
    assert!(matches!(app.dialog, DialogType::RenameWorkspace));
    assert_eq!(app.input_buffer, "wk");
    handle_key(&mut app, KeyInput::Backspace, false, 0);
    handle_key(&mut app, KeyInput::Char('x'), false, 0);
    let (_, effect) = handle_key(&mut app, KeyInput::Enter, false, 0);
    assert!(matches!(effect, Effect::PersistDb));
    assert_eq!(app.monitor_db.workspaces[1].name, "wx");
    // delete it
    handle_key(&mut app, KeyInput::Char('d'), false, 0);
    assert!(matches!(app.dialog, DialogType::DeleteWorkspace));
    let (_, effect) = handle_key(&mut app, KeyInput::Char('y'), false, 0);
    assert!(matches!(effect, Effect::PersistDb));
    assert_eq!(app.monitor_db.workspaces.len(), 1);
}

#[test]
fn deleting_the_last_workspace_is_refused() {
    let mut app = three_monitor_app();
    handle_key(&mut app, KeyInput::Char('2'), false, 0);
    handle_key(&mut app, KeyInput::Char('d'), false, 0);
    let (_, effect) = handle_key(&mut app, KeyInput::Char('y'), false, 0);
    assert!(matches!(effect, Effect::Nothing));
    assert_eq!(app.monitor_db.workspaces.len(), 1);
    assert_eq!(app.message, "Cannot delete last workspace");
}

#[test]
fn drag_release_below_threshold_keeps_the_order() {
    let mut app = three_monitor_app();
    app.selected_monitor = 0;
    app.drag_state = DragState::Dragging {
        monitor_idx: 0,
        start_x: 30,
        start_y: 8,
        current_x: 40,
        current_y: 8,
    };
    handle_mouse(&mut app, MouseKind::UpLeft, 40, 8, 120, 40, 0);
    assert_eq!(app.monitors[0].model, "Panel");
    assert_eq!(app.monitors[1].model, "First");
    assert!(!app.has_changes);
    assert!(matches!(app.drag_state, DragState::Idle));
}

#[test]
fn drag_release_of_one_slot_swaps_once() {
    let mut app = three_monitor_app();
    app.selected_monitor = 0;
    app.drag_state = DragState::Dragging {
        monitor_idx: 0,
        start_x: 30,
        start_y: 8,
        current_x: 51,
        current_y: 8,
    };
    handle_mouse(&mut app, MouseKind::UpLeft, 51, 8, 120, 40, 0);
    assert_eq!(app.monitors[0].model, "First");
    assert_eq!(app.monitors[1].model, "Panel");
    assert_eq!(app.selected_monitor, 1);
    assert!(app.has_changes);
}

#[test]
fn clicks_land_on_tabs_boxes_and_settings() {
    let mut app = three_monitor_app();
    // the Saved tab lives on the right half of the tab bar
    handle_mouse(&mut app, MouseKind::DownLeft, 100, 1, 120, 40, 0);
    assert!(matches!(app.main_tab, MainTab::Saved));
    handle_mouse(&mut app, MouseKind::DownLeft, 10, 1, 120, 40, 0);
    assert!(matches!(app.main_tab, MainTab::Live));
    // three boxes on 120 columns start at column 29: click the second box
    handle_mouse(&mut app, MouseKind::DownLeft, 52, 8, 120, 40, 0);
    assert_eq!(app.selected_monitor, 1);
    assert!(matches!(app.drag_state, DragState::Dragging { monitor_idx: 1, .. }));
    // a click on a settings value column opens the dropdown
    app.drag_state = DragState::Idle;
    let bands = hyprmon::geometry::vertical_bands(40);
    let row = bands.1 as usize + 2;
    handle_mouse(&mut app, MouseKind::DownLeft, 30, row as u16, 120, 40, 0);
    assert_eq!(app.selected_setting, 0);
    assert!(matches!(app.dialog, DialogType::EditDropdown));
}

#[test]
fn identify_messages_number_the_monitors() {
    let app = three_monitor_app();
    let msgs = app.identify();
    assert_eq!(msgs, vec![
        String::from("Monitor 1: Laptop"),
        String::from("Monitor 2: First"),
        String::from("Monitor 3: Second"),
    ]);
}

#[test]
fn event_feed_lines_decode_to_events() {
    match hyprmon::state::parse_event("monitoradded>>DP-3") {
        Some(HyprEvent::MonitorAdded(d)) => assert_eq!(d, "DP-3"),
        _ => panic!("expected a monitor-added event"),
    }
    match hyprmon::state::parse_event("monitoraddedv2>>2,DP-3,Dell") {
        Some(HyprEvent::MonitorAdded(d)) => assert_eq!(d, "2,DP-3,Dell"),
        _ => panic!("expected a monitor-added event"),
    }
    match hyprmon::state::parse_event("monitorremoved>>DP-3") {
        Some(HyprEvent::MonitorRemoved(d)) => assert_eq!(d, "DP-3"),
        _ => panic!("expected a monitor-removed event"),
    }
    assert!(hyprmon::state::parse_event("workspace>>3").is_none());
    assert!(hyprmon::state::parse_event("no separator").is_none());
}

#[test]
fn live_config_lists_connected_monitors() {
    let app = three_monitor_app();
    let out = app.generate_config();
    assert!(out.starts_with("# Hyprland Monitor Configuration\n# Generated by hyprmon\n\n"));
    assert!(out.contains("# Panel\nmonitor=eDP-1,1920x1080@60.00,0x0,1.00,transform,0\n\n"));
    assert!(out.contains("# First\nmonitor=desc:ACME First,1920x1080@60.00,1920x0,1.00,transform,0\n\n"));
    assert!(out.ends_with("# Fallback\nmonitor=,preferred,auto,1\n"));
}

#[test]
fn rotation_codes_round_trip() {
    for r in [Rotation::Normal, Rotation::Left, Rotation::Right, Rotation::Inverted] {
        assert_eq!(Rotation::from_transform(r.transform()), r);
    }
    assert_eq!(Rotation::from_transform(9), Rotation::Normal);
    assert_eq!(Rotation::Left.as_str(), "Portrait Left");
}

#[test]
fn setting_fields_enumerate_in_display_order() {
    let all = SettingField::all();
    assert_eq!(all.len(), 5);
    assert_eq!(all[0], SettingField::Resolution);
    assert_eq!(all[4], SettingField::Primary);
    assert_eq!(all[2].label(), "Scale:");
}

#[test]
fn selection_wraps_around() {
    let mut app = three_monitor_app();
    app.selected_monitor = 2;
    app.select_next_monitor();
    assert_eq!(app.selected_monitor, 0);
    app.select_prev_monitor();
    assert_eq!(app.selected_monitor, 2);
}

#[test]
fn changing_tabs_closes_the_dropdown() {
    let mut app = three_monitor_app();
    app.dialog = DialogType::EditDropdown;
    app.switch_tab(MainTab::Saved);
    assert!(matches!(app.dialog, DialogType::Idle));
    let mut app = three_monitor_app();
    app.dialog = DialogType::EditDropdown;
    app.switch_tab(MainTab::Live);
    assert!(matches!(app.dialog, DialogType::EditDropdown));
}

#[test]
fn input_buffer_is_bounded_to_twenty_characters() {
    let mut app = three_monitor_app();
    handle_key(&mut app, KeyInput::Char('2'), false, 0);
    handle_key(&mut app, KeyInput::Char('n'), false, 0);
    for _ in 0..30 {
        handle_key(&mut app, KeyInput::Char('a'), false, 0);
    }
    assert_eq!(app.input_buffer.len(), 20);
}

#[test]
fn dropdown_keys_move_within_bounds() {
    let db = MonitorDatabase::new_default();
    let modes = vec![
        String::from("1920x1080@60Hz"),
        String::from("3840x2160@30Hz"),
    ];
    let mut app = App::new(db, vec![monitor_at("eDP-1", "Panel", 0, true, modes)]);
    app.selected_setting = 0;
    app.dialog = DialogType::EditDropdown;
    handle_key(&mut app, KeyInput::Up, false, 0);
    assert_eq!(app.dropdown_selection, 0);
    handle_key(&mut app, KeyInput::Down, false, 0);
    assert_eq!(app.dropdown_selection, 1);
    handle_key(&mut app, KeyInput::Down, false, 0);
    assert_eq!(app.dropdown_selection, 1);
    // enter applies the highlighted option and closes
    let (_, effect) = handle_key(&mut app, KeyInput::Enter, false, 0);
    assert!(matches!(effect, Effect::Nothing));
    assert!(matches!(app.dialog, DialogType::Idle));
    assert_eq!(app.monitors[0].resolution, "1920x1080");
}

#[test]
fn workspace_navigation_follows_brackets() {
    let mut app = three_monitor_app();
    handle_key(&mut app, KeyInput::Char('2'), false, 0);
    handle_key(&mut app, KeyInput::Char('n'), false, 0);
    handle_key(&mut app, KeyInput::Char('w'), false, 0);
    handle_key(&mut app, KeyInput::Enter, false, 0);
    assert_eq!(app.selected_workspace, 1);
    handle_key(&mut app, KeyInput::Char('['), false, 0);
    assert_eq!(app.selected_workspace, 0);
    assert_eq!(app.monitor_db.active_workspace, 0);
    handle_key(&mut app, KeyInput::Char(']'), false, 0);
    assert_eq!(app.selected_workspace, 1);
    handle_key(&mut app, KeyInput::Char(']'), false, 0);
    assert_eq!(app.selected_workspace, 1);
}

#[test]
fn primary_checkbox_click_toggles() {
    let mut app = three_monitor_app();
    let bands = hyprmon::geometry::vertical_bands(40);
    // the primary row sits five rows below the first setting row
    let row = (bands.1 as usize + 7) as u16;
    app.selected_monitor = 1;
    handle_mouse(&mut app, MouseKind::DownLeft, 5, row, 120, 40, 0);
    assert_eq!(app.selected_setting, 4);
    assert!(app.monitors[1].is_primary);
    assert!(!app.monitors[0].is_primary);
}

#[test]
fn tab_key_flips_focus_and_shifted_tab_selects() {
    let mut app = three_monitor_app();
    assert!(matches!(app.focus_panel, hyprmon::state::FocusPanel::Arrangement));
    handle_key(&mut app, KeyInput::Tab, false, 0);
    assert!(matches!(app.focus_panel, hyprmon::state::FocusPanel::Settings));
    handle_key(&mut app, KeyInput::Tab, true, 0);
    assert_eq!(app.selected_monitor, 1);
    handle_key(&mut app, KeyInput::BackTab, false, 0);
    assert_eq!(app.selected_monitor, 2);
}

#[test]
fn shifted_arrows_reorder_on_the_live_tab() {
    let mut app = three_monitor_app();
    app.selected_monitor = 1;
    handle_key(&mut app, KeyInput::Left, true, 0);
    assert_eq!(app.monitors[0].model, "First");
    assert_eq!(app.selected_monitor, 0);
    handle_key(&mut app, KeyInput::Char('L'), false, 0);
    assert_eq!(app.monitors[0].model, "Panel");
    assert_eq!(app.selected_monitor, 1);
}

#[test]
fn quit_dialog_swallows_unrelated_keys() {
    let mut app = three_monitor_app();
    app.has_changes = true;
    handle_key(&mut app, KeyInput::Char('q'), false, 0);
    assert!(matches!(app.dialog, DialogType::ConfirmQuit));
    // an unrelated key changes nothing: no tab switch, no reorder
    let (r, effect) = handle_key(&mut app, KeyInput::Char('2'), false, 0);
    assert!(matches!(r, InputResult::Continue));
    assert!(matches!(effect, Effect::Nothing));
    assert!(matches!(app.main_tab, MainTab::Live));
    assert!(matches!(app.dialog, DialogType::ConfirmQuit));
    handle_key(&mut app, KeyInput::Esc, false, 0);
    assert!(matches!(app.dialog, DialogType::Idle));
}

#[test]
fn name_dialog_accepts_quotes_and_backslashes() {
    let mut app = three_monitor_app();
    handle_key(&mut app, KeyInput::Char('2'), false, 0);
    handle_key(&mut app, KeyInput::Char('n'), false, 0);
    handle_key(&mut app, KeyInput::Char('a'), false, 0);
    handle_key(&mut app, KeyInput::Char('"'), false, 0);
    handle_key(&mut app, KeyInput::Char('\\'), false, 0);
    assert_eq!(app.input_buffer, "a\"\\");
    let (_, effect) = handle_key(&mut app, KeyInput::Enter, false, 0);
    assert!(matches!(effect, Effect::PersistDb));
    assert_eq!(app.monitor_db.workspaces[1].name, "a\"\\");
}

#[test]
fn overlay_reestablishes_one_primary() {
    // two saved entries both flagged primary: after the overlay the first
    // primary keeps the flag and the invariant holds again
    let mut app = three_monitor_app();
    app.save_and_apply(0);
    for e in app.monitor_db.workspaces[0].monitors.iter_mut() {
        e.monitor.is_primary = true;
    }
    let db = app.monitor_db.duplicate();
    let fetched = vec![
        monitor_at("eDP-1", "Panel", 0, false, vec![]),
        monitor_at("DP-1", "First", 1920, false, vec![]),
    ];
    app.refresh(db, fetched);
    let primaries = app.monitors.iter().filter(|m| m.is_primary).count();
    assert_eq!(primaries, 1);
    assert!(app.monitors[0].is_primary);
}

#[test]
fn monitor_attach_applies_a_known_configuration() {
    let mut app = three_monitor_app();
    // save the current monitors, then simulate the attach event path
    app.save_and_apply(0);
    app.dialog = DialogType::Idle;
    let db = app.monitor_db.duplicate();
    let fetched = vec![
        monitor_at("eDP-1", "Panel", 0, true, vec![]),
        monitor_at("DP-1", "First", 1920, false, vec![]),
    ];
    let effect = app.on_monitor_added(db, fetched, 7_000);
    assert!(matches!(effect, Effect::SaveAndApply));
    let db2 = app.monitor_db.duplicate();
    let unknown = vec![monitor_at("HDMI-9", "Mystery", 0, true, vec![])];
    let mut app2 = three_monitor_app();
    let effect2 = app2.on_monitor_added(db2, unknown, 0);
    assert!(matches!(effect2, Effect::Nothing));
    assert_eq!(app2.message, "New monitor detected!");
}
