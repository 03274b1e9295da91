//! Modal and selection state: tabs, focus, setting fields, dialogs, drag
//! state, decoded input events, the effects the caller must carry out, and
//! the decoder for the compositor's event feed.

use vstd::prelude::*;

verus! {

/// The two main tabs of the dashboard.
#[derive(Debug, Clone, Copy, PartialEq, Eq, Structural)]
pub enum MainTab {
    Live,
    Saved,
}

/// Which panel holds keyboard focus.
#[derive(Debug, Clone, Copy, PartialEq, Eq, Structural)]
pub enum FocusPanel {
    Arrangement,
    Settings,
}

/// The editable fields of the settings panel, in display order.
#[derive(Debug, Clone, Copy, PartialEq, Eq, Structural)]
pub enum SettingField {
    Resolution,
    RefreshRate,
    Scale,
    Rotation,
    Primary,
}

/// How many setting fields the settings panel shows.
pub const SETTING_COUNT: usize = 5;

impl SettingField {
    /// Every setting field, in display order.
    pub fn all() -> (v: Vec<SettingField>)
        ensures
            v@ == seq![
                SettingField::Resolution,
                SettingField::RefreshRate,
                SettingField::Scale,
                SettingField::Rotation,
                SettingField::Primary,
            ],
    {
        let mut v: Vec<SettingField> = Vec::new();
        v.push(SettingField::Resolution);
        v.push(SettingField::RefreshRate);
        v.push(SettingField::Scale);
        v.push(SettingField::Rotation);
        v.push(SettingField::Primary);
        proof {
            assert(v@ =~= seq![
                SettingField::Resolution,
                SettingField::RefreshRate,
                SettingField::Scale,
                SettingField::Rotation,
                SettingField::Primary,
            ]);
        }
        v
    }

    /// The setting field at a given display index.
    pub open spec fn spec_at(i: int) -> SettingField {
        if i == 0 { SettingField::Resolution }
        else if i == 1 { SettingField::RefreshRate }
        else if i == 2 { SettingField::Scale }
        else if i == 3 { SettingField::Rotation }
        else { SettingField::Primary }
    }

    /// Setting field at a display index below [`SETTING_COUNT`].
    pub fn at(i: usize) -> (f: SettingField)
        requires
            i < SETTING_COUNT,
        ensures
            f == SettingField::spec_at(i as int),
    {
        if i == 0 { SettingField::Resolution }
        else if i == 1 { SettingField::RefreshRate }
        else if i == 2 { SettingField::Scale }
        else if i == 3 { SettingField::Rotation }
        else { SettingField::Primary }
    }

    /// Label text of the field.
    pub fn label(&self) -> (r: &'static str)
        ensures
            *self is Resolution ==> r@ == "Resolution:"@,
            *self is RefreshRate ==> r@ == "Refresh Rate:"@,
            *self is Scale ==> r@ == "Scale:"@,
            *self is Rotation ==> r@ == "Rotation:"@,
            *self is Primary ==> r@ == "Primary:"@,
    {
        match self {
            SettingField::Resolution => "Resolution:",
            SettingField::RefreshRate => "Refresh Rate:",
            SettingField::Scale => "Scale:",
            SettingField::Rotation => "Rotation:",
            SettingField::Primary => "Primary:",
        }
    }
}

/// The exclusive modal dialog. At most one is active; entering a dialog
/// replaces any previous one. `ConfirmApply` carries its countdown budget in
/// seconds and the millisecond timestamp at which it started.
#[derive(Debug, Clone, Copy, PartialEq, Eq, Structural)]
pub enum DialogType {
    Idle,
    ConfirmApply { countdown: u8, started: u64 },
    ConfirmQuit,
    EditDropdown,
    NewWorkspace,
    RenameWorkspace,
    DeleteWorkspace,
}

/// Drag-to-reorder state: nothing, or the grabbed monitor with the pointer's
/// start and current position.
#[derive(Debug, Clone, Copy, PartialEq, Eq, Structural)]
pub enum DragState {
    Idle,
    Dragging { monitor_idx: usize, start_x: u16, start_y: u16, current_x: u16, current_y: u16 },
}

/// A keyboard key, as the dispatcher understands it.
#[derive(Debug, Clone, Copy, PartialEq, Eq, Structural)]
pub enum KeyInput {
    Char(char),
    Enter,
    Esc,
    Backspace,
    Tab,
    BackTab,
    Up,
    Down,
    Left,
    Right,
    Other,
}

/// A pointer event kind, as the dispatcher understands it.
#[derive(Debug, Clone, Copy, PartialEq, Eq, Structural)]
pub enum MouseKind {
    DownLeft,
    DragLeft,
    UpLeft,
    ScrollUp,
    ScrollDown,
    Other,
}

/// What the caller must do after a transition: nothing; persist the store and
/// export and apply the compositor configuration; query the compositor for
/// fresh monitors and hand them back; fire the identify signal; or persist
/// the store alone.
#[derive(Debug, Clone, Copy, PartialEq, Eq, Structural)]
pub enum Effect {
    Nothing,
    SaveAndApply,
    Refresh,
    Identify,
    PersistDb,
}

/// Whether the dispatcher's caller should keep running or quit.
#[derive(Debug, Clone, Copy, PartialEq, Eq, Structural)]
pub enum InputResult {
    Continue,
    Quit,
}

/// A decoded record of the compositor's event feed.
#[derive(Debug, Clone)]
pub enum HyprEvent {
    MonitorAdded(String),
    MonitorRemoved(String),
}

/// Index of the first `>>` separator in a line, or -1 when there is none.
pub open spec fn spec_find_sep(s: Seq<char>, pos: int) -> int
    decreases s.len() - pos,
{
    if pos < 0 || pos + 2 > s.len() {
        -1
    } else if s[pos] == '>' && s[pos + 1] == '>' {
        pos
    } else {
        spec_find_sep(s, pos + 1)
    }
}

/// Meaning of one line of the event feed: `true` for a monitor-added event,
/// `false` for monitor-removed, with the data after the separator; `None`
/// for anything else.
pub open spec fn spec_parse_event(s: Seq<char>) -> Option<(bool, Seq<char>)> {
    let sep = spec_find_sep(s, 0);
    if sep < 0 {
        None
    } else {
        let head = s.subrange(0, sep);
        let data = s.subrange(sep + 2, s.len() as int);
        if head == "monitoradded"@ || head == "monitoraddedv2"@ {
            Some((true, data))
        } else if head == "monitorremoved"@ {
            Some((false, data))
        } else {
            None
        }
    }
}

/// Decodes one line of the event feed: the part before the first `>>` names
/// the event, the rest is its data; unknown events give `None`.
pub fn parse_event(line: &str) -> (r: Option<HyprEvent>)
    ensures
        spec_parse_event(line@) is None <==> r is None,
        r matches Some(HyprEvent::MonitorAdded(d)) ==> spec_parse_event(line@) == Some(
            (true, d@),
        ),
        r matches Some(HyprEvent::MonitorRemoved(d)) ==> spec_parse_event(line@) == Some(
            (false, d@),
        ),
{
    let n = line.unicode_len();
    let mut i: usize = 0;
    let mut sep: Option<usize> = None;
    loop
        invariant_except_break
            sep is None,
        invariant
            n == line@.len(),
            i <= n,
            spec_find_sep(line@, 0) == spec_find_sep(line@, i as int),
        ensures
            match sep {
                Some(p) => spec_find_sep(line@, 0) == p,
                None => spec_find_sep(line@, 0) == -1,
            },
        decreases n - i,
    {
        if n < 2 || i > n - 2 {
            break;
        }
        let c0 = line.get_char(i);
        let c1 = line.get_char(i + 1);
        if c0 == '>' && c1 == '>' {
            sep = Some(i);
            break;
        }
        i = i + 1;
    }
    let sep_pos = match sep {
        Some(p) => p,
        None => {
            return None;
        },
    };
    proof {
        lemma_find_sep_bounds(line@, 0);
        reveal_strlit("monitoradded");
        reveal_strlit("monitoraddedv2");
        reveal_strlit("monitorremoved");
    }
    let added = "monitoradded";
    let added_v2 = "monitoraddedv2";
    let removed = "monitorremoved";
    let is_added = (sep_pos == 12 && crate::text::str_range_eq(line, 0, sep_pos, added, 0, 12))
        || (sep_pos == 14 && crate::text::str_range_eq(line, 0, sep_pos, added_v2, 0, 14));
    let is_removed = sep_pos == 14 && crate::text::str_range_eq(line, 0, sep_pos, removed, 0, 14);
    proof {
        assert(added@.subrange(0, 12) =~= added@);
        assert(added_v2@.subrange(0, 14) =~= added_v2@);
        assert(removed@.subrange(0, 14) =~= removed@);
        assert(line@.subrange(0, sep_pos as int).len() == sep_pos as int);
    }
    if is_added {
        let data = line.substring_char(sep_pos + 2, n);
        Some(HyprEvent::MonitorAdded(String::from_str(data)))
    } else if is_removed {
        let data = line.substring_char(sep_pos + 2, n);
        Some(HyprEvent::MonitorRemoved(String::from_str(data)))
    } else {
        None
    }
}

proof fn lemma_find_sep_bounds(s: Seq<char>, pos: int)
    requires
        0 <= pos <= s.len(),
    ensures
        spec_find_sep(s, pos) == -1 || (pos <= spec_find_sep(s, pos) && spec_find_sep(s, pos) + 2
            <= s.len()),
    decreases s.len() - pos,
{
    if pos + 2 <= s.len() && !(s[pos] == '>' && s[pos + 1] == '>') {
        lemma_find_sep_bounds(s, pos + 1);
    }
}

} // verus!
