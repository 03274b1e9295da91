use hyprmon::geometry::{box_at, drag_slots, dropdown_hit, dropdown_rect, get_setting_row,
    row_to_setting, vertical_bands, DropdownHit};

#[test]
fn maps_regular_setting_rows() {
    let panel_start = 10;
    assert_eq!(row_to_setting(panel_start + 2, panel_start), Some(0)); // Resolution
    assert_eq!(row_to_setting(panel_start + 3, panel_start), Some(1)); // Refresh Rate
    assert_eq!(row_to_setting(panel_start + 4, panel_start), Some(2)); // Scale
    assert_eq!(row_to_setting(panel_start + 5, panel_start), Some(3)); // Rotation
}

#[test]
fn skips_spacing_and_maps_primary_row() {
    let panel_start = 10;
    assert_eq!(row_to_setting(panel_start + 6, panel_start), None); // spacing row
    assert_eq!(row_to_setting(panel_start + 7, panel_start), Some(4)); // Primary
}

#[test]
fn setting_rows_invert_row_to_setting() {
    for idx in 0..5 {
        let row = get_setting_row(idx, 10);
        assert_eq!(row_to_setting(row, 10), Some(idx));
    }
}

#[test]
fn bands_partition_the_screen() {
    let (tabs_end, arr_end, set_end) = vertical_bands(40);
    assert_eq!(tabs_end, 3);
    assert_eq!(arr_end, 3 + 40 * 38 / 100);
    assert_eq!(set_end, 37);
    let tiny = vertical_bands(4);
    assert!(tiny.0 <= tiny.1 && tiny.1 <= tiny.2 && tiny.2 <= 4);
}

#[test]
fn boxes_center_and_hit() {
    // two boxes on an 80-column screen: total 39 columns, start at 20
    assert_eq!(box_at(80, 2, 19), None);
    assert_eq!(box_at(80, 2, 20), Some(0));
    assert_eq!(box_at(80, 2, 37), Some(0));
    assert_eq!(box_at(80, 2, 38), None); // the gap
    assert_eq!(box_at(80, 2, 41), Some(1));
    assert_eq!(box_at(80, 2, 58), Some(1));
    assert_eq!(box_at(80, 2, 59), None);
    assert_eq!(box_at(80, 0, 40), None);
}

#[test]
fn drag_below_threshold_is_a_click() {
    // the threshold is half a box-plus-gap: 10 columns
    assert_eq!(drag_slots(50, 60), (true, 0));
    assert_eq!(drag_slots(50, 40), (false, 0));
    assert_eq!(drag_slots(50, 50), (false, 0));
}

#[test]
fn drag_of_one_slot_moves_one() {
    // exactly one box-plus-gap of displacement moves one slot
    assert_eq!(drag_slots(50, 71), (true, 1));
    assert_eq!(drag_slots(71, 50), (false, 1));
    // two slots
    assert_eq!(drag_slots(50, 92), (true, 2));
}

#[test]
fn dropdown_rect_clamps_and_floors() {
    // 5 options, longest 9 characters: width floors at 20, height 7
    let r = dropdown_rect(0, 18, 80, 20, 0, 5, 9);
    assert_eq!(r.2, 20);
    assert_eq!(r.3, 7);
    assert_eq!(r.0, 18);
    assert_eq!(r.1, 21);
    // many options: height caps at 10
    let r2 = dropdown_rect(0, 18, 80, 20, 0, 30, 9);
    assert_eq!(r2.3, 10);
}

#[test]
fn dropdown_hits_classify() {
    let rect = (10, 5, 20, 7);
    assert_eq!(dropdown_hit(rect, 5, 6, 5), DropdownHit::Outside);
    assert_eq!(dropdown_hit(rect, 10, 5, 5), DropdownHit::Border);
    assert_eq!(dropdown_hit(rect, 12, 6, 5), DropdownHit::Option(0));
    assert_eq!(dropdown_hit(rect, 12, 8, 5), DropdownHit::Option(2));
    assert_eq!(dropdown_hit(rect, 12, 11, 5), DropdownHit::Border); // bottom border
}
