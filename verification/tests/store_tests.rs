use hyprmon::db::{MonitorDatabase, SavedEntry, SavedMonitor, Workspace};
use hyprmon::monitor::{monitor_from_parts, MonitorConfig};

fn monitor(name: &str, make: &str, model: &str) -> MonitorConfig {
    monitor_from_parts(name, make, model, 1920, 1080, 6000, 0, 0, 100, 0, vec![
        String::from("1920x1080@60.00Hz"),
    ], true)
}

fn saved(res: &str) -> SavedMonitor {
    SavedMonitor {
        resolution: String::from(res),
        refresh_rate: 5994,
        scale: 100,
        rotation: 0,
        position_x: 0,
        position_y: 0,
        is_primary: true,
    }
}

fn ws_with_keys(name: &str, keys: &[&str]) -> Workspace {
    let mut w = Workspace::new(name);
    for k in keys {
        w.monitors.push(SavedEntry { key: String::from(*k), monitor: saved("1920x1080") });
    }
    w
}

#[test]
fn monitor_key_uses_name_for_builtin_panels() {
    let laptop = monitor("eDP-1", "ACME", "Panel");
    assert_eq!(MonitorDatabase::get_monitor_key(&laptop), "eDP-1");
    let external = monitor("DP-3", "Dell", "U2720Q");
    assert_eq!(MonitorDatabase::get_monitor_key(&external), "desc:Dell U2720Q");
}

#[test]
fn best_workspace_prefers_more_matches() {
    // workspace A matches two of three connected monitors, B matches one
    let mut db = MonitorDatabase::new_default();
    db.workspaces = vec![
        ws_with_keys("B", &["eDP-1"]),
        ws_with_keys("A", &["eDP-1", "desc:Dell U2720Q"]),
    ];
    let connected = vec![
        monitor("eDP-1", "ACME", "Panel"),
        monitor("DP-3", "Dell", "U2720Q"),
        monitor("HDMI-1", "LG", "27GL850"),
    ];
    assert_eq!(db.find_best_workspace(&connected), Some(1));
}

#[test]
fn best_workspace_breaks_ties_by_lowest_index() {
    let mut db = MonitorDatabase::new_default();
    db.workspaces = vec![
        ws_with_keys("first", &["eDP-1"]),
        ws_with_keys("second", &["eDP-1"]),
    ];
    let connected = vec![monitor("eDP-1", "ACME", "Panel")];
    assert_eq!(db.find_best_workspace(&connected), Some(0));
}

#[test]
fn best_workspace_never_selects_zero_scores() {
    let mut db = MonitorDatabase::new_default();
    db.workspaces = vec![ws_with_keys("other", &["desc:Nobody Nothing"])];
    let connected = vec![monitor("eDP-1", "ACME", "Panel")];
    assert_eq!(db.find_best_workspace(&connected), None);
}

#[test]
fn single_key_workspace_matches_builtin_monitor() {
    // a workspace holding only "eDP-1" wins over one with zero matches
    let mut db = MonitorDatabase::new_default();
    db.workspaces = vec![
        ws_with_keys("empty", &[]),
        ws_with_keys("laptop", &["eDP-1"]),
    ];
    let connected = vec![monitor("eDP-1", "ACME", "Panel")];
    assert_eq!(db.find_best_workspace(&connected), Some(1));
}

#[test]
fn delete_refuses_the_last_workspace() {
    let mut db = MonitorDatabase::new_default();
    assert_eq!(db.workspaces.len(), 1);
    assert!(!db.delete_workspace(0));
    assert_eq!(db.workspaces.len(), 1);
    assert_eq!(db.workspaces[0].name, "Default");
}

#[test]
fn delete_removes_and_clamps_active() {
    let mut db = MonitorDatabase::new_default();
    db.add_workspace("second");
    db.active_workspace = 1;
    assert!(db.delete_workspace(1));
    assert_eq!(db.workspaces.len(), 1);
    assert_eq!(db.active_workspace, 0);
}

#[test]
fn update_monitor_upserts_by_key() {
    let mut db = MonitorDatabase::new_default();
    let m = monitor("eDP-1", "ACME", "Panel");
    db.update_monitor(&m);
    assert_eq!(db.workspaces[0].monitors.len(), 1);
    assert_eq!(db.workspaces[0].monitors[0].key, "eDP-1");
    assert_eq!(db.workspaces[0].monitors[0].monitor.refresh_rate, 6000);
    let mut m2 = monitor("eDP-1", "ACME", "Panel");
    m2.refresh_rate = 12000;
    db.update_monitor(&m2);
    assert_eq!(db.workspaces[0].monitors.len(), 1);
    assert_eq!(db.workspaces[0].monitors[0].monitor.refresh_rate, 12000);
}

#[test]
fn apply_saved_config_overwrites_the_live_monitor() {
    let mut db = MonitorDatabase::new_default();
    db.workspaces[0].monitors.push(SavedEntry {
        key: String::from("eDP-1"),
        monitor: SavedMonitor {
            resolution: String::from("2560x1440"),
            refresh_rate: 16500,
            scale: 125,
            rotation: 1,
            position_x: 100,
            position_y: 5,
            is_primary: false,
        },
    });
    let mut m = monitor("eDP-1", "ACME", "Panel");
    assert!(db.apply_saved_config(&mut m));
    assert_eq!(m.resolution, "2560x1440");
    assert_eq!(m.refresh_rate, 16500);
    assert_eq!(m.scale, 125);
    assert_eq!(m.position_x, 100);
    assert_eq!(m.position_y, 5);
    assert!(!m.is_primary);
    let mut other = monitor("DP-3", "Dell", "U2720Q");
    assert!(!db.apply_saved_config(&mut other));
    assert_eq!(other.resolution, "1920x1080");
}

#[test]
fn full_config_lists_every_unique_key() {
    let mut db = MonitorDatabase::new_default();
    db.workspaces[0].monitors.push(SavedEntry {
        key: String::from("eDP-1"),
        monitor: saved("1920x1080"),
    });
    let out = db.generate_full_config();
    let expected = "# Hyprland Monitor Configuration\n# Generated by hyprmon\n# Contains ALL configured monitors from all workspaces\n\nmonitor=eDP-1,1920x1080@59.94,0x0,1\n\n# Fallback for unknown monitors\nmonitor=,preferred,auto,1\n";
    assert_eq!(out, expected);
}

#[test]
fn full_config_writes_scale_and_transform() {
    let mut db = MonitorDatabase::new_default();
    db.workspaces[0].monitors.push(SavedEntry {
        key: String::from("desc:Dell U2720Q"),
        monitor: SavedMonitor {
            resolution: String::from("3840x2160"),
            refresh_rate: 6000,
            scale: 150,
            rotation: 3,
            position_x: -1920,
            position_y: 0,
            is_primary: false,
        },
    });
    let out = db.generate_full_config();
    assert!(out.contains("monitor=desc:Dell U2720Q,3840x2160@60.00,-1920x0,1.50,transform,3\n"));
}

#[test]
fn full_config_merges_later_workspaces_over_earlier() {
    let mut db = MonitorDatabase::new_default();
    db.workspaces[0].monitors.push(SavedEntry {
        key: String::from("eDP-1"),
        monitor: saved("1920x1080"),
    });
    let mut second = Workspace::new("work");
    second.monitors.push(SavedEntry {
        key: String::from("eDP-1"),
        monitor: SavedMonitor { refresh_rate: 14400, ..saved("2560x1440") },
    });
    db.workspaces.push(second);
    let out = db.generate_full_config();
    // the later workspace's entry wins, and the key appears once
    assert!(out.contains("monitor=eDP-1,2560x1440@144.00,0x0,1\n"));
    assert_eq!(out.matches("monitor=eDP-1,").count(), 1);
}

#[test]
fn workspace_monitors_recover_identity_from_keys() {
    let mut db = MonitorDatabase::new_default();
    db.workspaces[0].monitors.push(SavedEntry {
        key: String::from("desc:Dell U2720Q"),
        monitor: saved("3840x2160"),
    });
    db.workspaces[0].monitors.push(SavedEntry {
        key: String::from("eDP-1"),
        monitor: saved("1920x1080"),
    });
    let ms = db.get_workspace_monitors(0);
    assert_eq!(ms.len(), 2);
    assert_eq!(ms[0].name, "desc:Dell U2720Q");
    assert_eq!(ms[0].make, "Dell");
    assert_eq!(ms[0].model, "U2720Q");
    assert_eq!(ms[1].name, "eDP-1");
    assert_eq!(ms[1].make, "");
    assert_eq!(ms[1].model, "eDP-1");
    assert_eq!(ms[1].available_modes, vec![String::from("1920x1080@60Hz")]);
}

#[test]
fn matches_monitors_counts_saved_keys() {
    let ws = ws_with_keys("w", &["eDP-1", "desc:Dell U2720Q"]);
    let connected = vec![
        monitor("eDP-1", "ACME", "Panel"),
        monitor("HDMI-1", "LG", "27GL850"),
    ];
    assert_eq!(ws.matches_monitors(&connected), 1);
}

#[test]
fn monitor_keys_lists_keys_in_order() {
    let ws = ws_with_keys("w", &["eDP-1", "desc:A B"]);
    assert_eq!(ws.monitor_keys(), vec![String::from("eDP-1"), String::from("desc:A B")]);
}
