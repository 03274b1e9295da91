use hyprmon::codec::{decode_db, encode_db};
use hyprmon::db::{MonitorDatabase, SavedEntry, SavedMonitor, Workspace};

fn sample_db() -> MonitorDatabase {
    let mut db = MonitorDatabase::new_default();
    db.workspaces[0].monitors.push(SavedEntry {
        key: String::from("eDP-1"),
        monitor: SavedMonitor {
            resolution: String::from("1920x1080"),
            refresh_rate: 5994,
            scale: 100,
            rotation: 0,
            position_x: 0,
            position_y: 0,
            is_primary: true,
        },
    });
    let mut work = Workspace::new("work");
    work.monitors.push(SavedEntry {
        key: String::from("desc:Dell U2720Q"),
        monitor: SavedMonitor {
            resolution: String::from("3840x2160"),
            refresh_rate: 6000,
            scale: 150,
            rotation: 2,
            position_x: -3840,
            position_y: -10,
            is_primary: false,
        },
    });
    work.monitors.push(SavedEntry {
        key: String::from("eDP-1"),
        monitor: SavedMonitor {
            resolution: String::from("1280x720"),
            refresh_rate: 12000,
            scale: 125,
            rotation: 3,
            position_x: 0,
            position_y: 2160,
            is_primary: true,
        },
    });
    db.workspaces.push(work);
    db.active_workspace = 1;
    db
}

#[test]
fn encoding_reads_back_unchanged() {
    // persisting and reloading yields an equal workspace set and active index
    let db = sample_db();
    let text = encode_db(&db);
    let back = decode_db(text.as_str()).expect("an encoding must decode");
    assert_eq!(back.active_workspace, db.active_workspace);
    assert_eq!(back.workspaces.len(), db.workspaces.len());
    for (w1, w2) in db.workspaces.iter().zip(back.workspaces.iter()) {
        assert_eq!(w1.name, w2.name);
        assert_eq!(w1.monitors.len(), w2.monitors.len());
        for (e1, e2) in w1.monitors.iter().zip(w2.monitors.iter()) {
            assert_eq!(e1.key, e2.key);
            assert_eq!(e1.monitor.resolution, e2.monitor.resolution);
            assert_eq!(e1.monitor.refresh_rate, e2.monitor.refresh_rate);
            assert_eq!(e1.monitor.scale, e2.monitor.scale);
            assert_eq!(e1.monitor.rotation, e2.monitor.rotation);
            assert_eq!(e1.monitor.position_x, e2.monitor.position_x);
            assert_eq!(e1.monitor.position_y, e2.monitor.position_y);
            assert_eq!(e1.monitor.is_primary, e2.monitor.is_primary);
        }
    }
}

#[test]
fn encoding_has_the_documented_shape() {
    let mut db = MonitorDatabase::new_default();
    db.workspaces[0].monitors.push(SavedEntry {
        key: String::from("eDP-1"),
        monitor: SavedMonitor {
            resolution: String::from("1920x1080"),
            refresh_rate: 5994,
            scale: 100,
            rotation: 0,
            position_x: -5,
            position_y: 0,
            is_primary: true,
        },
    });
    let text = encode_db(&db);
    let expected = "{\"workspaces\":[{\"name\":\"Default\",\"monitors\":{\"eDP-1\":{\"resolution\":\"1920x1080\",\"refresh_rate\":59.94,\"scale\":1.00,\"rotation\":0,\"position_x\":-5,\"position_y\":0,\"is_primary\":true}}}],\"active_workspace\":0}";
    assert_eq!(text, expected);
}

#[test]
fn malformed_documents_decode_to_nothing() {
    assert!(decode_db("").is_none());
    assert!(decode_db("not a document").is_none());
    assert!(decode_db("{\"workspaces\":[],\"active_workspace\":0").is_none());
    // a zero scale is invalid and rejected
    let bad = "{\"workspaces\":[{\"name\":\"d\",\"monitors\":{\"k\":{\"resolution\":\"1x1\",\"refresh_rate\":1.00,\"scale\":0.00,\"rotation\":0,\"position_x\":0,\"position_y\":0,\"is_primary\":true}}}],\"active_workspace\":0}";
    assert!(decode_db(bad).is_none());
}

#[test]
fn names_and_keys_round_trip_with_quotes_and_backslashes() {
    let mut db = MonitorDatabase::new_default();
    let mut ws = Workspace::new("he said \"hi\" \\ twice");
    ws.monitors.push(SavedEntry {
        key: String::from("desc:odd \"maker\" b\\c"),
        monitor: SavedMonitor {
            resolution: String::from("1920x1080"),
            refresh_rate: 6000,
            scale: 100,
            rotation: 0,
            position_x: 0,
            position_y: 0,
            is_primary: true,
        },
    });
    db.workspaces.push(ws);
    let text = encode_db(&db);
    let back = decode_db(text.as_str()).expect("escaped text must decode");
    assert_eq!(back.workspaces[1].name, "he said \"hi\" \\ twice");
    assert_eq!(back.workspaces[1].monitors[0].key, "desc:odd \"maker\" b\\c");
}

#[test]
fn missing_active_index_defaults_to_zero() {
    let back = decode_db(
        "{\"workspaces\":[{\"name\":\"d\",\"monitors\":{}}]}",
    ).expect("decodes without the active index");
    assert_eq!(back.active_workspace, 0);
    assert_eq!(back.workspaces.len(), 1);
}

#[test]
fn missing_primary_flag_defaults_off() {
    let text = "{\"workspaces\":[{\"name\":\"d\",\"monitors\":{\"eDP-1\":{\"resolution\":\"1920x1080\",\"refresh_rate\":59.94,\"scale\":1.00,\"rotation\":0,\"position_x\":0,\"position_y\":0}}}],\"active_workspace\":0}";
    let back = decode_db(text).expect("decodes without the primary flag");
    assert!(!back.workspaces[0].monitors[0].monitor.is_primary);
}

#[test]
fn empty_workspace_list_is_repaired_on_load() {
    let back = decode_db("{\"workspaces\":[],\"active_workspace\":7}").expect("decodes");
    assert_eq!(back.workspaces.len(), 1);
    assert_eq!(back.workspaces[0].name, "Default");
    assert_eq!(back.active_workspace, 0);
}

#[test]
fn out_of_range_active_index_is_clamped() {
    let db = MonitorDatabase::new_default();
    let mut text = encode_db(&db);
    text = text.replace("\"active_workspace\":0", "\"active_workspace\":9");
    let back = decode_db(text.as_str()).expect("decodes");
    assert_eq!(back.active_workspace, 0);
}

#[test]
fn numeric_renderings_are_exact() {
    assert_eq!(hyprmon::text::dec_string(0), "0");
    assert_eq!(hyprmon::text::dec_string(6000), "6000");
    assert_eq!(hyprmon::text::centi_string(5994), "59.94");
    assert_eq!(hyprmon::text::centi_string(100), "1.00");
    assert_eq!(hyprmon::text::centi_string(7), "0.07");
    assert_eq!(hyprmon::text::int_string(-1920), "-1920");
    assert_eq!(hyprmon::text::int_string(0), "0");
}

#[test]
fn decimal_parsing_rounds_to_the_nearest_whole() {
    assert_eq!(hyprmon::text::parse_round_u32("59.94"), Some(60));
    assert_eq!(hyprmon::text::parse_round_u32("59.49"), Some(59));
    assert_eq!(hyprmon::text::parse_round_u32("59.5"), Some(60));
    assert_eq!(hyprmon::text::parse_round_u32("144"), Some(144));
    assert_eq!(hyprmon::text::parse_round_u32("0.5"), Some(1));
    assert_eq!(hyprmon::text::parse_round_u32(""), None);
    assert_eq!(hyprmon::text::parse_round_u32("."), None);
    assert_eq!(hyprmon::text::parse_round_u32("6a"), None);
}

#[test]
fn mode_strings_split_into_resolution_and_rate() {
    assert_eq!(
        hyprmon::monitor::mode_res_of("1920x1080@59.94Hz"),
        Some(String::from("1920x1080"))
    );
    assert_eq!(
        hyprmon::monitor::mode_res_of(" 1920x1080 @ 60Hz"),
        Some(String::from("1920x1080"))
    );
    assert_eq!(hyprmon::monitor::mode_res_of("no separator"), None);
    assert_eq!(hyprmon::monitor::mode_rate_of("1920x1080@59.94Hz"), Some(60));
    assert_eq!(hyprmon::monitor::mode_rate_of("1920x1080@144Hz"), Some(144));
    assert_eq!(hyprmon::monitor::mode_rate_of("1920x1080@brokenHz"), None);
}

#[test]
fn pixel_counts_multiply_the_segments() {
    assert_eq!(hyprmon::monitor::pixels_of("1920x1080"), 1920 * 1080);
    assert_eq!(hyprmon::monitor::pixels_of("800"), 800);
    // an unreadable segment is skipped
    assert_eq!(hyprmon::monitor::pixels_of("ax1080"), 1080);
}
