//! The one geometry shared by the renderer and the pointer hit-tester:
//! vertical band partition, centered monitor boxes, settings rows, dropdown
//! popup placement, dialog buttons, and the drag-to-reorder arithmetic.
//! Renderer and dispatcher must both draw their coordinates from here, so
//! a click always lands on what is painted.

use vstd::prelude::*;

use crate::{BOX_GAP, BOX_WIDTH};

verus! {

/// Row after the tab bar: three rows, fewer on a tiny screen.
pub open spec fn spec_tabs_end(h: int) -> int {
    if h < 3 {
        h
    } else {
        3
    }
}

/// First row of the help bar: three rows at the bottom, fewer on a tiny
/// screen.
pub open spec fn spec_help_start(h: int) -> int {
    if h >= 6 {
        h - 3
    } else {
        spec_tabs_end(h)
    }
}

/// Row after the arrangement band: 38 percent of the height, within the
/// middle region.
pub open spec fn spec_arr_end(h: int) -> int {
    let e = spec_tabs_end(h) + (h * 38) / 100;
    if e > spec_help_start(h) {
        spec_help_start(h)
    } else {
        e
    }
}

/// The vertical band partition of the screen: rows before `r.0` are the tab
/// bar, rows in `[r.0, r.1)` the arrangement band, rows in `[r.1, r.2)` the
/// settings band, and rows from `r.2` on the help bar.
pub fn vertical_bands(height: u16) -> (r: (u16, u16, u16))
    ensures
        r.0 == spec_tabs_end(height as int),
        r.1 == spec_arr_end(height as int),
        r.2 == spec_help_start(height as int),
        0 <= r.0 <= r.1 <= r.2 <= height,
{
    let h = height as u32;
    let tabs_end: u32 = if h < 3 {
        h
    } else {
        3
    };
    let help_start: u32 = if h >= 6 {
        h - 3
    } else {
        tabs_end
    };
    let mut arr_end: u32 = tabs_end + (h * 38) / 100;
    if arr_end > help_start {
        arr_end = help_start;
    }
    proof {
        assert((h * 38) / 100 <= h * 38);
    }
    ((tabs_end as u16), (arr_end as u16), (help_start as u16))
}

/// Column where the row of `n` centered monitor boxes begins: boxes are
/// `BOX_WIDTH` wide with `BOX_GAP` between them; a row too wide starts at 0.
pub open spec fn spec_boxes_start(width: int, n: int) -> int {
    let total = n * (BOX_WIDTH as int) + (n - 1) * (BOX_GAP as int);
    if n <= 0 {
        0
    } else if width < total {
        0
    } else {
        (width - total) / 2
    }
}

/// The monitor box a column falls in, among `n` centered boxes.
pub open spec fn spec_box_at(width: int, n: int, col: int) -> Option<int> {
    let start = spec_boxes_start(width, n);
    let rel = col - start;
    let slot = (BOX_WIDTH + BOX_GAP) as int;
    if n <= 0 || rel < 0 {
        None
    } else if rel / slot < n && rel % slot < BOX_WIDTH as int {
        Some(rel / slot)
    } else {
        None
    }
}

/// Column where the row of `n` centered monitor boxes begins.
pub fn boxes_start_col(width: u16, n: usize) -> (r: u16)
    requires
        n <= 65535,
    ensures
        r == spec_boxes_start(width as int, n as int),
{
    if n == 0 {
        return 0;
    }
    let nw = n as u64;
    proof {
        assert(nw * 18 <= 65535 * 18) by (nonlinear_arith)
            requires
                nw <= 65535,
        ;
        assert((nw - 1) * 3 <= 65535 * 3) by (nonlinear_arith)
            requires
                1 <= nw <= 65535,
        ;
    }
    let total: u64 = nw * (BOX_WIDTH as u64) + (nw - 1) * (BOX_GAP as u64);
    let w = width as u64;
    if w < total {
        0
    } else {
        ((w - total) / 2) as u16
    }
}

/// Which of `n` centered monitor boxes, if any, the column hits.
pub fn box_at(width: u16, n: usize, col: u16) -> (r: Option<usize>)
    requires
        n <= 65535,
    ensures
        match r {
            Some(i) => spec_box_at(width as int, n as int, col as int) == Some(i as int) && i
                < n,
            None => spec_box_at(width as int, n as int, col as int) is None,
        },
{
    if n == 0 {
        return None;
    }
    let nw = n as u64;
    proof {
        assert(1 <= nw <= 65535);
        assert(nw * 18 <= 65535 * 18) by (nonlinear_arith)
            requires
                nw <= 65535,
        ;
        assert((nw - 1) * 3 <= 65535 * 3) by (nonlinear_arith)
            requires
                1 <= nw <= 65535,
        ;
    }
    let total: u64 = nw * (BOX_WIDTH as u64) + (nw - 1) * (BOX_GAP as u64);
    let w = width as u64;
    let start: u64 = if w < total {
        0
    } else {
        (w - total) / 2
    };
    let c = col as u64;
    if c < start {
        return None;
    }
    let rel = c - start;
    let slot = (BOX_WIDTH + BOX_GAP) as u64;
    let i = rel / slot;
    if i < nw && rel % slot < BOX_WIDTH as u64 {
        Some(i as usize)
    } else {
        None
    }
}

/// The screen row of a setting field: two rows into the panel, one per
/// field, with a blank spacing row before the last (primary) field.
pub fn get_setting_row(setting_index: usize, panel_start_y: usize) -> (r: usize)
    requires
        setting_index < crate::state::SETTING_COUNT,
        panel_start_y + 8 <= usize::MAX,
    ensures
        setting_index < 4 ==> r == panel_start_y + 2 + setting_index,
        setting_index == 4 ==> r == panel_start_y + 2 + setting_index + 1,
{
    if setting_index == 4 {
        panel_start_y + 2 + setting_index + 1
    } else {
        panel_start_y + 2 + setting_index
    }
}

/// The setting field a screen row falls on, if any: two rows into the
/// panel, one row per field, with the blank spacing row before the primary
/// field skipped.
pub open spec fn spec_row_to_setting(row: int, panel_start_y: int) -> Option<int> {
    if row < panel_start_y + 2 {
        None
    } else if row - panel_start_y - 2 <= 3 {
        Some(row - panel_start_y - 2)
    } else if row - panel_start_y - 2 == 5 {
        Some(4)
    } else {
        None
    }
}

/// The setting field a screen row falls on, if any: the inverse of
/// [`get_setting_row`], skipping the blank spacing row.
pub fn row_to_setting(row: usize, panel_start_y: usize) -> (r: Option<usize>)
    requires
        panel_start_y + 8 <= usize::MAX,
    ensures
        match r {
            Some(idx) => spec_row_to_setting(row as int, panel_start_y as int) == Some(
                idx as int,
            ) && idx < crate::state::SETTING_COUNT,
            None => spec_row_to_setting(row as int, panel_start_y as int) is None,
        },
{
    if row < panel_start_y + 2 {
        return None;
    }
    let relative_row = row - panel_start_y - 2;
    if relative_row <= 3 {
        Some(relative_row)
    } else if relative_row == 5 {
        Some(4)
    } else {
        None
    }
}

/// The dropdown popup rectangle `(x, y, width, height)`: height two more
/// than the option count, at most 10; width six more than the longest
/// option, at least 20; anchored below the selected setting row at the value
/// column, pulled back so it never leaves the panel.
pub open spec fn spec_dropdown_rect(
    ax: int,
    ay: int,
    aw: int,
    ah: int,
    selected_setting: int,
    n_opts: int,
    max_len: int,
) -> (int, int, int, int) {
    let h = if n_opts + 2 > 10 {
        10
    } else {
        n_opts + 2
    };
    let ml = if max_len > 65535 {
        65535
    } else {
        max_len
    };
    let w0 = ml + 6;
    let w = if w0 < 20 {
        20
    } else {
        w0
    };
    let raw_x = ax + 18;
    let raw_y = ay + 3 + selected_setting;
    let x_lim = if ax + aw - w < 0 {
        0
    } else {
        ax + aw - w
    };
    let y_lim = if ay + ah - h < 0 {
        0
    } else {
        ay + ah - h
    };
    let x = if raw_x > x_lim {
        x_lim
    } else {
        raw_x
    };
    let y = if raw_y > y_lim {
        y_lim
    } else {
        raw_y
    };
    (x, y, w, h)
}

/// Dropdown popup rectangle for the settings panel area.
pub fn dropdown_rect(
    ax: usize,
    ay: usize,
    aw: usize,
    ah: usize,
    selected_setting: usize,
    n_opts: usize,
    max_len: usize,
) -> (r: (usize, usize, usize, usize))
    requires
        ax + aw <= 65535,
        ay + ah <= 65535,
        selected_setting < crate::state::SETTING_COUNT,
    ensures
        (r.0 as int, r.1 as int, r.2 as int, r.3 as int) == spec_dropdown_rect(
            ax as int,
            ay as int,
            aw as int,
            ah as int,
            selected_setting as int,
            n_opts as int,
            max_len as int,
        ),
{
    let h: usize = if n_opts > 8 {
        10
    } else {
        n_opts + 2
    };
    let ml: usize = if max_len > 65535 {
        65535
    } else {
        max_len
    };
    let w0: usize = ml + 6;
    let w: usize = if w0 < 20 {
        20
    } else {
        w0
    };
    let raw_x = ax + 18;
    let raw_y = ay + 3 + selected_setting;
    let x_lim: usize = if ax + aw < w {
        0
    } else {
        ax + aw - w
    };
    let y_lim: usize = if ay + ah < h {
        0
    } else {
        ay + ah - h
    };
    let x = if raw_x > x_lim {
        x_lim
    } else {
        raw_x
    };
    let y = if raw_y > y_lim {
        y_lim
    } else {
        raw_y
    };
    (x, y, w, h)
}

/// Where a click lands relative to the dropdown popup.
#[derive(Debug, Clone, Copy, PartialEq, Eq, Structural)]
pub enum DropdownHit {
    Outside,
    Border,
    Option(usize),
}

/// Classification of a click against the dropdown rectangle: outside it, on
/// its border, or on the option at the clicked inner row.
pub open spec fn spec_dropdown_hit(
    rect: (int, int, int, int),
    col: int,
    row: int,
    n_opts: int,
) -> DropdownHit {
    let (x, y, w, h) = rect;
    if !(x <= col < x + w && y <= row < y + h) {
        DropdownHit::Outside
    } else if row > y && row < y + h - 1 && row - y - 1 < n_opts {
        DropdownHit::Option((row - y - 1) as usize)
    } else {
        DropdownHit::Border
    }
}

/// Where a click lands relative to the dropdown popup.
pub fn dropdown_hit(
    rect: (usize, usize, usize, usize),
    col: usize,
    row: usize,
    n_opts: usize,
) -> (r: DropdownHit)
    requires
        rect.0 + rect.2 <= 1000000,
        rect.1 + rect.3 <= 1000000,
    ensures
        r == spec_dropdown_hit(
            (rect.0 as int, rect.1 as int, rect.2 as int, rect.3 as int),
            col as int,
            row as int,
            n_opts as int,
        ),
{
    let (x, y, w, h) = rect;
    if !(x <= col && col < x + w && y <= row && row < y + h) {
        DropdownHit::Outside
    } else if row > y && row + 1 < y + h && row - y - 1 < n_opts {
        DropdownHit::Option(row - y - 1)
    } else {
        DropdownHit::Border
    }
}

/// The drag threshold: half a box-plus-gap slot.
pub open spec fn spec_drag_threshold() -> int {
    ((BOX_WIDTH + BOX_GAP) / 2) as int
}

/// How a drag release moves the grabbed monitor: to the right or left, and
/// by how many slots. Displacement at or below the threshold moves nothing;
/// beyond it, one slot per full box-plus-gap width, rounded to the nearest.
pub open spec fn spec_drag_slots(start_x: int, current_x: int) -> (bool, int) {
    let dist = current_x - start_x;
    let mag = if dist < 0 {
        -dist
    } else {
        dist
    };
    if mag > spec_drag_threshold() {
        (dist > 0, (mag + spec_drag_threshold()) / ((BOX_WIDTH + BOX_GAP) as int))
    } else {
        (dist > 0, 0)
    }
}

/// Direction and slot count of a drag release.
pub fn drag_slots(start_x: u16, current_x: u16) -> (r: (bool, usize))
    ensures
        (r.0, r.1 as int) == spec_drag_slots(start_x as int, current_x as int),
        r.1 <= 65535,
{
    let s = start_x as i32;
    let c = current_x as i32;
    let dist = c - s;
    let mag: i32 = if dist < 0 {
        -dist
    } else {
        dist
    };
    let threshold: i32 = ((BOX_WIDTH + BOX_GAP) / 2) as i32;
    if mag > threshold {
        let moved = (mag + threshold) / ((BOX_WIDTH + BOX_GAP) as i32);
        (dist > 0, moved as usize)
    } else {
        (dist > 0, 0)
    }
}

/// A rectangle of the given height, centered, spanning a percentage of the
/// area's width; `r` is `(x, y, width, height)` of the surrounding area.
pub fn centered_rect(percent_x: u16, height: u16, r: (u16, u16, u16, u16)) -> (out: (
    u16,
    u16,
    u16,
    u16,
))
    requires
        percent_x <= 100,
    ensures
        out.2 as int == (r.2 as int * percent_x as int) / 100 || (out.2 == 0 && (r.2 as int
            * percent_x as int) / 100 > u16::MAX),
{
    let rw = r.2 as u64;
    proof {
        assert(rw * (percent_x as u64) <= 65535 * 100) by (nonlinear_arith)
            requires
                rw <= 65535,
                percent_x <= 100,
        ;
    }
    let width64 = (rw * percent_x as u64) / 100;
    let width: u16 = if width64 > u16::MAX as u64 {
        0
    } else {
        width64 as u16
    };
    let inner_w = if r.2 >= width {
        r.2 - width
    } else {
        0
    };
    let inner_h = if r.3 >= height {
        r.3 - height
    } else {
        0
    };
    let x = r.0 as u32 + (inner_w as u32) / 2;
    let y = r.1 as u32 + (inner_h as u32) / 2;
    let xo: u16 = if x > u16::MAX as u32 {
        u16::MAX
    } else {
        x as u16
    };
    let yo: u16 = if y > u16::MAX as u32 {
        u16::MAX
    } else {
        y as u16
    };
    (xo, yo, width, height)
}

/// Whether a click at `(col, row)` hits the yes button of a centered
/// confirmation dialog on a `width` by `height` screen.
pub open spec fn spec_confirm_yes_hit(col: int, row: int, width: int, height: int) -> bool {
    let cy = height / 2;
    let cx = width / 2;
    let lo = if cx - 12 < 0 {
        0
    } else {
        cx - 12
    };
    let hi = if cx - 6 < 0 {
        0
    } else {
        cx - 6
    };
    cy <= row <= cy + 2 && lo <= col <= hi
}

/// Whether a click at `(col, row)` hits the no button of a centered
/// confirmation dialog on a `width` by `height` screen.
pub open spec fn spec_confirm_no_hit(col: int, row: int, width: int, height: int) -> bool {
    let cy = height / 2;
    let cx = width / 2;
    let lo = if cx - 2 < 0 {
        0
    } else {
        cx - 2
    };
    cy <= row <= cy + 2 && lo <= col <= cx + 4
}

/// Whether a click at `(col, row)` hits the yes button of a centered
/// confirmation dialog on a `width` by `height` screen.
pub fn confirm_yes_hit(col: usize, row: usize, width: usize, height: usize) -> (r: bool)
    requires
        width <= 65535,
        height <= 65535,
    ensures
        r == spec_confirm_yes_hit(col as int, row as int, width as int, height as int),
{
    let cy = height / 2;
    let cx = width / 2;
    let lo = if cx < 12 {
        0
    } else {
        cx - 12
    };
    let hi = if cx < 6 {
        0
    } else {
        cx - 6
    };
    row >= cy && row <= cy + 2 && col >= lo && col <= hi
}

/// Whether a click at `(col, row)` hits the no button of a centered
/// confirmation dialog on a `width` by `height` screen.
pub fn confirm_no_hit(col: usize, row: usize, width: usize, height: usize) -> (r: bool)
    requires
        width <= 65535,
        height <= 65535,
    ensures
        r == spec_confirm_no_hit(col as int, row as int, width as int, height as int),
{
    let cy = height / 2;
    let cx = width / 2;
    let lo = if cx < 2 {
        0
    } else {
        cx - 2
    };
    row >= cy && row <= cy + 2 && col >= lo && col <= cx + 4
}

} // verus!
