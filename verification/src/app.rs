//! The aggregated application state and its transitions: live and saved
//! monitor lists, selections, tabs and dialogs, the layout engine that ties
//! list order to physical placement, and the primary-monitor exclusivity.

use vstd::prelude::*;

use crate::db::{monitor_key, saved_as_monitor, DbView, MonitorDatabase};
use crate::monitor::{all_wf, exactly_one_primary, has_primary, mviews, MonitorConfig,
    MonitorView};
use crate::state::{DialogType, DragState, FocusPanel, MainTab, SETTING_COUNT};
use crate::text::{all_digits, digits_val, find_char_from};

verus! {

/// The whole interactive state of the dashboard.
pub struct App {
    pub monitors: Vec<MonitorConfig>,
    pub original_monitors: Vec<MonitorConfig>,
    pub selected_monitor: usize,
    pub focus_panel: FocusPanel,
    pub selected_setting: usize,
    pub saved_monitors: Vec<MonitorConfig>,
    pub saved_selected_monitor: usize,
    pub saved_selected_setting: usize,
    pub selected_workspace: usize,
    pub main_tab: MainTab,
    pub dialog: DialogType,
    pub dropdown_selection: usize,
    pub has_changes: bool,
    pub message: String,
    pub drag_state: DragState,
    pub monitor_db: MonitorDatabase,
    pub input_buffer: String,
}

/// Width in pixels a resolution string claims: the decimal value of the
/// digits before its first `x`, when there are any and they fit `i32`.
pub open spec fn res_width(res: Seq<char>) -> Option<int> {
    let e = find_char_from(res, 'x', 0);
    if e < 0 {
        None
    } else {
        let seg = res.subrange(0, e);
        if seg.len() > 0 && all_digits(seg) && digits_val(seg) <= i32::MAX {
            Some(digits_val(seg) as int)
        } else {
            None
        }
    }
}

/// How far a monitor advances the running x position: its pixel width
/// divided by its scale (both in hundredths), truncated; 0 when the width
/// cannot be read.
pub open spec fn x_step(m: MonitorView) -> int {
    match res_width(m.resolution) {
        Some(w) => if m.scale > 0 {
            (w * 100) / (m.scale as int)
        } else {
            0
        },
        None => 0,
    }
}

/// The x position assigned to monitor `i`: the running sum of the steps of
/// the monitors before it, each accumulation capped at `i32::MAX`.
pub open spec fn x_pos(ms: Seq<MonitorView>, i: int) -> int
    decreases i,
{
    if i <= 0 {
        0
    } else if x_pos(ms, i - 1) + x_step(ms[i - 1]) > i32::MAX {
        i32::MAX as int
    } else {
        x_pos(ms, i - 1) + x_step(ms[i - 1])
    }
}

/// The monitor list after positions are recalculated: each monitor keeps
/// everything but its position, which becomes the running x and y zero.
pub open spec fn recalced(ms: Seq<MonitorView>) -> Seq<MonitorView> {
    Seq::new(
        ms.len(),
        |i: int| MonitorView { position_x: x_pos(ms, i) as i32, position_y: 0, ..ms[i] },
    )
}

/// The x positions only depend on resolutions and scales, which a
/// recalculation keeps; so the positions of a recalculated list are the
/// positions of the original list.
pub proof fn lemma_x_pos_recalced(ms: Seq<MonitorView>, i: int)
    requires
        0 <= i <= ms.len(),
    ensures
        x_pos(recalced(ms), i) == x_pos(ms, i),
    decreases i,
{
    if i > 0 {
        lemma_x_pos_recalced(ms, i - 1);
        assert(recalced(ms)[i - 1].resolution == ms[i - 1].resolution);
        assert(recalced(ms)[i - 1].scale == ms[i - 1].scale);
        assert(x_step(recalced(ms)[i - 1]) == x_step(ms[i - 1]));
    }
}

/// Recalculating positions is idempotent: a second pass without any
/// reordering leaves every position as the first pass set it.
pub proof fn lemma_recalc_idempotent(ms: Seq<MonitorView>)
    ensures
        recalced(recalced(ms)) == recalced(ms),
{
    assert forall|i: int| 0 <= i < ms.len() implies recalced(recalced(ms))[i] == recalced(
        ms,
    )[i] by {
        lemma_x_pos_recalced(ms, i);
    }
    assert(recalced(recalced(ms)) =~= recalced(ms));
}

/// A monitor after the active workspace's saved configuration, if any, is
/// laid over it.
pub open spec fn applied_view(db: DbView, m: MonitorView) -> MonitorView {
    if 0 <= db.active_workspace < db.workspaces.len() && db.workspaces[db.active_workspace].has_key(
        monitor_key(m),
    ) {
        crate::db::apply_saved(
            m,
            db.workspaces[db.active_workspace].monitors[crate::db::key_index(
                db.workspaces[db.active_workspace].monitors,
                monitor_key(m),
                0,
            )].monitor,
        )
    } else {
        m
    }
}

/// The saved overlay over a whole snapshot, monitor by monitor.
pub open spec fn applied_all(db: DbView, ms: Seq<MonitorView>) -> Seq<MonitorView> {
    Seq::new(ms.len(), |i: int| applied_view(db, ms[i]))
}

/// Index of the first primary monitor, or 0 when none is primary.
pub open spec fn first_primary(ms: Seq<MonitorView>, pos: int) -> int
    decreases ms.len() - pos,
{
    if pos < 0 || pos >= ms.len() {
        0
    } else if ms[pos].is_primary {
        pos
    } else {
        first_primary(ms, pos + 1)
    }
}

/// The primary flags repaired to exactly one: the first primary monitor
/// keeps the flag (the leftmost takes it when none had it), all others lose
/// it. A list that already has exactly one primary is unchanged.
pub open spec fn primary_fixed(ms: Seq<MonitorView>) -> Seq<MonitorView> {
    Seq::new(ms.len(), |k: int| MonitorView { is_primary: k == first_primary(ms, 0), ..ms[k] })
}

proof fn lemma_first_primary_found(ms: Seq<MonitorView>, k: int, pos: int)
    requires
        0 <= pos <= k < ms.len(),
        ms[k].is_primary,
        forall|j: int| pos <= j < k ==> !(#[trigger] ms[j]).is_primary,
    ensures
        first_primary(ms, pos) == k,
    decreases k - pos,
{
    if pos < k {
        lemma_first_primary_found(ms, k, pos + 1);
    }
}

proof fn lemma_first_primary_none(ms: Seq<MonitorView>, pos: int)
    requires
        0 <= pos <= ms.len(),
        forall|j: int| pos <= j < ms.len() ==> !(#[trigger] ms[j]).is_primary,
    ensures
        first_primary(ms, pos) == 0,
    decreases ms.len() - pos,
{
    if pos < ms.len() {
        lemma_first_primary_none(ms, pos + 1);
    }
}

impl App {
    /// Validity of the whole state: selections clamped into range, a valid
    /// store with the shown workspace the active one, and valid monitors.
    pub open spec fn wf(&self) -> bool {
        &&& self.selected_setting < SETTING_COUNT
        &&& self.saved_selected_setting < SETTING_COUNT
        &&& (self.monitors@.len() == 0 ==> self.selected_monitor == 0)
        &&& (self.monitors@.len() > 0 ==> self.selected_monitor < self.monitors@.len())
        &&& (self.saved_monitors@.len() == 0 ==> self.saved_selected_monitor == 0)
        &&& (self.saved_monitors@.len() > 0 ==> self.saved_selected_monitor
            < self.saved_monitors@.len())
        &&& self.monitor_db@.wf()
        &&& self.selected_workspace == self.monitor_db@.active_workspace
        &&& all_wf(mviews(self.monitors@))
        &&& all_wf(mviews(self.original_monitors@))
    }

    /// Builds the state at startup: selects the store's best-matching
    /// workspace for the connected monitors, lays the saved configurations
    /// over them, and takes the result as the unmodified baseline.
    pub fn new(db: MonitorDatabase, monitors: Vec<MonitorConfig>) -> (r: App)
        requires
            db@.wf(),
            all_wf(mviews(monitors@)),
        ensures
            r.wf(),
            r.main_tab is Live,
            r.dialog is Idle,
            r.drag_state is Idle,
            !r.has_changes,
            r.selected_monitor == 0,
            r.focus_panel is Arrangement,
            r.selected_setting == 0,
            r.monitors@.len() == monitors@.len(),
            // the saved overlay, with the primary invariant re-established
            mviews(r.monitors@) == primary_fixed(applied_all(r.monitor_db@, mviews(monitors@))),
            monitors@.len() > 0 ==> crate::monitor::exactly_one_primary(mviews(r.monitors@)),
            mviews(r.original_monitors@) == mviews(r.monitors@),
            r.monitor_db@.workspaces == db@.workspaces,
            // the saved panel shows the active workspace's monitors
            r.selected_workspace == r.monitor_db@.active_workspace,
            r.saved_monitors@.len() == r.monitor_db@.workspaces[r.monitor_db@.active_workspace].monitors.len(),
            forall|i: int| 0 <= i < r.saved_monitors@.len() ==> (#[trigger] r.saved_monitors@[i])@
                == saved_as_monitor(
                r.monitor_db@.workspaces[r.monitor_db@.active_workspace].monitors[i],
            ),
            // the store's best match, if any, becomes the active workspace
            (forall|j: int| 0 <= j < db@.workspaces.len() ==> crate::db::match_score(
                #[trigger] db@.workspaces[j],
                mviews(monitors@),
            ) == 0) ==> r.monitor_db@.active_workspace == db@.active_workspace,
            !(forall|j: int| 0 <= j < db@.workspaces.len() ==> crate::db::match_score(
                #[trigger] db@.workspaces[j],
                mviews(monitors@),
            ) == 0) ==> {
                let a = r.monitor_db@.active_workspace;
                &&& crate::db::match_score(db@.workspaces[a], mviews(monitors@)) > 0
                &&& forall|j: int| 0 <= j < db@.workspaces.len() ==> crate::db::match_score(
                    #[trigger] db@.workspaces[j],
                    mviews(monitors@),
                ) <= crate::db::match_score(db@.workspaces[a], mviews(monitors@))
                &&& forall|j: int| 0 <= j < a ==> crate::db::match_score(
                    #[trigger] db@.workspaces[j],
                    mviews(monitors@),
                ) < crate::db::match_score(db@.workspaces[a], mviews(monitors@))
            },
    {
        let mut monitor_db = db;
        let mut monitors = monitors;
        if let Some(ws_idx) = monitor_db.find_best_workspace(&monitors) {
            monitor_db.active_workspace = ws_idx;
        }
        apply_saved_all(&monitor_db, &mut monitors);
        let original = crate::monitor::clone_monitors(&monitors);
        let selected_workspace = monitor_db.active_workspace;
        let saved_monitors = monitor_db.get_workspace_monitors(selected_workspace);
        let r = App {
            monitors,
            original_monitors: original,
            selected_monitor: 0,
            focus_panel: FocusPanel::Arrangement,
            selected_setting: 0,
            saved_monitors,
            saved_selected_monitor: 0,
            saved_selected_setting: 0,
            selected_workspace,
            main_tab: MainTab::Live,
            dialog: DialogType::Idle,
            dropdown_selection: 0,
            has_changes: false,
            message: String::new(),
            drag_state: DragState::Idle,
            monitor_db,
            input_buffer: String::new(),
        };
        proof {
            assert(all_wf(mviews(r.original_monitors@)));
        }
        r
    }

    /// The monitor the settings panel edits.
    pub fn current_monitor(&self) -> (r: Option<&MonitorConfig>)
        ensures
            match r {
                Some(m) => self.selected_monitor < self.monitors@.len() && m@ == mviews(
                    self.monitors@,
                )[self.selected_monitor as int],
                None => self.selected_monitor >= self.monitors@.len(),
            },
    {
        if self.selected_monitor < self.monitors.len() {
            Some(&self.monitors[self.selected_monitor])
        } else {
            None
        }
    }

    /// Moves the selection to the next monitor, wrapping around.
    pub fn select_next_monitor(&mut self)
        requires
            old(self).wf(),
        ensures
            final(self).wf(),
            *final(self) == (App {
                selected_monitor: final(self).selected_monitor,
                ..*old(self)
            }),
            old(self).monitors@.len() == 0 ==> final(self).selected_monitor == old(
                self,
            ).selected_monitor,
            old(self).monitors@.len() > 0 ==> final(self).selected_monitor == (old(
                self,
            ).selected_monitor + 1) % (old(self).monitors@.len() as int),
    {
        if self.monitors.len() > 0 {
            self.selected_monitor = (self.selected_monitor + 1) % self.monitors.len();
        }
    }

    /// Moves the selection to the previous monitor, wrapping around.
    pub fn select_prev_monitor(&mut self)
        requires
            old(self).wf(),
        ensures
            final(self).wf(),
            *final(self) == (App {
                selected_monitor: final(self).selected_monitor,
                ..*old(self)
            }),
            old(self).monitors@.len() == 0 ==> final(self).selected_monitor == old(
                self,
            ).selected_monitor,
            old(self).monitors@.len() > 0 ==> final(self).selected_monitor == (
            if old(self).selected_monitor == 0 {
                old(self).monitors@.len() - 1
            } else {
                old(self).selected_monitor - 1
            }),
    {
        if self.monitors.len() > 0 {
            if self.selected_monitor == 0 {
                self.selected_monitor = self.monitors.len() - 1;
            } else {
                self.selected_monitor = self.selected_monitor - 1;
            }
        }
    }

    /// Recalculates every monitor's position: x is the running sum of the
    /// widths (divided by scale) of the monitors to the left, y is zero.
    pub fn recalculate_positions(&mut self)
        requires
            old(self).wf(),
        ensures
            final(self).wf(),
            mviews(final(self).monitors@) == recalced(mviews(old(self).monitors@)),
            *final(self) == (App { monitors: final(self).monitors, ..*old(self) }),
    {
        let ghost orig = mviews(old(self).monitors@);
        let mut x: i32 = 0;
        let n = self.monitors.len();
        let mut i: usize = 0;
        while i < n
            invariant
                i <= n,
                n == self.monitors@.len(),
                orig.len() == n,
                0 <= x,
                x == x_pos(orig, i as int),
                forall|k: int| i <= k < n ==> (#[trigger] self.monitors@[k])@ == orig[k],
                forall|k: int| 0 <= k < i ==> (#[trigger] self.monitors@[k])@ == recalced(
                    orig,
                )[k],
                all_wf(mviews(self.monitors@)),
                *self == (App { monitors: self.monitors, ..*old(self) }),
            decreases n - i,
    {
            let ghost before = self.monitors@;
            proof {
                assert(mviews(self.monitors@)[i as int].wf());
            }
            let m = self.monitors[i].duplicate();
            let step = monitor_x_step(&m);
            let updated = MonitorConfig { position_x: x, position_y: 0, ..m };
            self.monitors.set(i, updated);
            proof {
                assert(self.monitors@[i as int]@ =~= recalced(orig)[i as int]);
                assert forall|k: int| 0 <= k < n && k != i implies (#[trigger] self.monitors@[k])@
                    == before[k]@ by {}
                assert forall|k: int| 0 <= k < self.monitors@.len() implies
                    (#[trigger] mviews(self.monitors@)[k]).wf() by {
                    assert(mviews(before)[k].wf());
                    if k == i {
                        assert(self.monitors@[k]@.wf());
                    } else {
                        assert(self.monitors@[k]@ == before[k]@);
                    }
                }
            }
            // advance the running position, capped at i32::MAX
            if step > (i32::MAX - x) as i64 {
                x = i32::MAX;
            } else {
                x = x + (step as i32);
            }
            proof {
                assert(x == x_pos(orig, i + 1));
            }
            i = i + 1;
        }
        proof {
            assert(mviews(self.monitors@) =~= recalced(orig));
        }
    }

    /// Makes exactly the monitor at `index` primary. With the index in
    /// range, exactly one monitor is primary afterwards.
    pub fn set_primary(&mut self, index: usize)
        requires
            old(self).wf(),
        ensures
            final(self).wf(),
            final(self).monitors@.len() == old(self).monitors@.len(),
            forall|k: int| 0 <= k < final(self).monitors@.len() ==> (#[trigger] final(self).monitors@[k])@
                == (MonitorView {
                is_primary: k == index,
                ..mviews(old(self).monitors@)[k]
            }),
            final(self).has_changes,
            index < old(self).monitors@.len() ==> exactly_one_primary(mviews(final(self).monitors@)),
            *final(self) == (App {
                monitors: final(self).monitors,
                has_changes: true,
                ..*old(self)
            }),
    {
        let n = self.monitors.len();
        let ghost orig = mviews(old(self).monitors@);
        let mut i: usize = 0;
        while i < n
            invariant
                i <= n,
                n == self.monitors@.len(),
                orig.len() == n,
                forall|k: int| i <= k < n ==> (#[trigger] self.monitors@[k])@ == orig[k],
                forall|k: int| 0 <= k < i ==> (#[trigger] self.monitors@[k])@ == (MonitorView {
                    is_primary: k == index,
                    ..orig[k]
                }),
                all_wf(mviews(self.monitors@)),
                *self == (App { monitors: self.monitors, ..*old(self) }),
            decreases n - i,
        {
            let ghost before = self.monitors@;
            let m = self.monitors[i].duplicate();
            let updated = MonitorConfig { is_primary: i == index, ..m };
            self.monitors.set(i, updated);
            proof {
                assert forall|k: int| 0 <= k < n && k != i implies (#[trigger] self.monitors@[k])@
                    == before[k]@ by {}
                assert forall|k: int| 0 <= k < self.monitors@.len() implies
                    (#[trigger] mviews(self.monitors@)[k]).wf() by {
                    assert(mviews(before)[k].wf());
                    if k == i {
                        assert(self.monitors@[k]@.wf());
                    } else {
                        assert(self.monitors@[k]@ == before[k]@);
                    }
                }
            }
            i = i + 1;
        }
        self.has_changes = true;
        proof {
            if index < n {
                assert(mviews(self.monitors@)[index as int].is_primary);
            }
        }
    }

    /// Toggles the selected monitor's primary flag under the exclusivity
    /// rule: making it primary demotes all others; un-making it promotes the
    /// first other monitor; a sole monitor stays primary.
    pub fn toggle_primary(&mut self)
        requires
            old(self).wf(),
        ensures
            final(self).wf(),
            final(self).monitors@.len() == old(self).monitors@.len(),
            // a non-primary selected monitor becomes the unique primary
            old(self).selected_monitor < old(self).monitors@.len() && !mviews(
                old(self).monitors@,
            )[old(self).selected_monitor as int].is_primary ==> final(self).has_changes
                && forall|k: int| 0 <= k < final(self).monitors@.len()
                ==> (#[trigger] final(self).monitors@[k])@ == (MonitorView {
                is_primary: k == old(self).selected_monitor,
                ..mviews(old(self).monitors@)[k]
            }),
            // un-priming the selected monitor promotes the first other one
            old(self).selected_monitor < old(self).monitors@.len() && mviews(
                old(self).monitors@,
            )[old(self).selected_monitor as int].is_primary && old(self).monitors@.len() > 1
                ==> final(self).has_changes && forall|k: int|
                0 <= k < final(self).monitors@.len() ==> (#[trigger] final(self).monitors@[k])@
                == (MonitorView {
                is_primary: k == (if old(self).selected_monitor == 0 {
                    1int
                } else {
                    0int
                }),
                ..mviews(old(self).monitors@)[k]
            }),
            // a sole primary monitor cannot be un-primaried
            old(self).selected_monitor < old(self).monitors@.len() && mviews(
                old(self).monitors@,
            )[old(self).selected_monitor as int].is_primary && old(self).monitors@.len() <= 1
                ==> *final(self) == *old(self),
            // exclusivity: a valid selection on a non-empty list leaves
            // exactly one primary monitor, provided one existed or the
            // selected monitor was not primary
            old(self).selected_monitor < old(self).monitors@.len() ==> {
                let m = mviews(old(self).monitors@)[old(self).selected_monitor as int];
                (!m.is_primary || old(self).monitors@.len() > 1) ==> exactly_one_primary(
                    mviews(final(self).monitors@),
                )
            },
            old(self).selected_monitor < old(self).monitors@.len() && exactly_one_primary(
                mviews(old(self).monitors@),
            ) ==> exactly_one_primary(mviews(final(self).monitors@)),
            old(self).selected_monitor >= old(self).monitors@.len() ==> *final(self) == *old(self),
            *final(self) == (App {
                monitors: final(self).monitors,
                has_changes: final(self).has_changes,
                ..*old(self)
            }),
    {
        let idx = self.selected_monitor;
        if idx < self.monitors.len() {
            let is_currently_primary = self.monitors[idx].is_primary;
            if is_currently_primary {
                if self.monitors.len() > 1 {
                    let new_primary: usize = if idx == 0 {
                        1
                    } else {
                        0
                    };
                    self.set_primary(new_primary);
                }
            } else {
                self.set_primary(idx);
            }
        }
    }

    /// Swaps the selected monitor with its left neighbour, keeps it
    /// selected, and recalculates positions; a no-op at the left edge.
    pub fn move_monitor_left(&mut self)
        requires
            old(self).wf(),
        ensures
            final(self).wf(),
            old(self).selected_monitor == 0 || old(self).monitors@.len() < 2 ==> *final(self) == *old(
                self,
            ),
            old(self).selected_monitor > 0 && old(self).monitors@.len() >= 2 ==> {
                let sel = old(self).selected_monitor as int;
                let swapped = mviews(old(self).monitors@).update(
                    sel,
                    mviews(old(self).monitors@)[sel - 1],
                ).update(sel - 1, mviews(old(self).monitors@)[sel]);
                &&& mviews(final(self).monitors@) == recalced(swapped)
                &&& final(self).selected_monitor == sel - 1
                &&& final(self).has_changes
            },
            *final(self) == (App {
                monitors: final(self).monitors,
                selected_monitor: final(self).selected_monitor,
                has_changes: final(self).has_changes,
                ..*old(self)
            }),
    {
        if self.selected_monitor == 0 || self.monitors.len() < 2 {
            return;
        }
        let ghost orig = mviews(self.monitors@);
        let sel = self.selected_monitor;
        crate::swap_adjacent(&mut self.monitors, sel - 1);
        proof {
            assert(mviews(self.monitors@) =~= orig.update(sel as int, orig[sel - 1]).update(
                sel - 1,
                orig[sel as int],
            ));
            assert(all_wf(mviews(self.monitors@))) by {
                assert forall|k: int| 0 <= k < mviews(self.monitors@).len() implies
                    (#[trigger] mviews(self.monitors@)[k]).wf() by {
                    assert(orig[k].wf());
                    if k == sel - 1 {
                        assert(mviews(self.monitors@)[k] == orig[sel as int]);
                        assert(orig[sel as int].wf());
                    } else if k == sel {
                        assert(orig[sel - 1].wf());
                    }
                }
            }
        }
        self.selected_monitor = sel - 1;
        self.recalculate_positions();
        self.has_changes = true;
    }

    /// Swaps the selected monitor with its right neighbour, keeps it
    /// selected, and recalculates positions; a no-op at the right edge.
    pub fn move_monitor_right(&mut self)
        requires
            old(self).wf(),
        ensures
            final(self).wf(),
            old(self).monitors@.len() == 0 || old(self).selected_monitor >= old(
                self,
            ).monitors@.len() - 1 ==> *final(self) == *old(self),
            old(self).monitors@.len() > 0 && old(self).selected_monitor < old(
                self,
            ).monitors@.len() - 1 ==> {
                let sel = old(self).selected_monitor as int;
                let swapped = mviews(old(self).monitors@).update(
                    sel,
                    mviews(old(self).monitors@)[sel + 1],
                ).update(sel + 1, mviews(old(self).monitors@)[sel]);
                &&& mviews(final(self).monitors@) == recalced(swapped)
                &&& final(self).selected_monitor == sel + 1
                &&& final(self).has_changes
            },
            *final(self) == (App {
                monitors: final(self).monitors,
                selected_monitor: final(self).selected_monitor,
                has_changes: final(self).has_changes,
                ..*old(self)
            }),
    {
        if self.monitors.len() == 0 || self.selected_monitor >= self.monitors.len() - 1 {
            return;
        }
        let ghost orig = mviews(self.monitors@);
        let sel = self.selected_monitor;
        crate::swap_adjacent(&mut self.monitors, sel);
        proof {
            assert(mviews(self.monitors@) =~= orig.update(sel as int, orig[sel + 1]).update(
                sel + 1,
                orig[sel as int],
            ));
            assert(all_wf(mviews(self.monitors@))) by {
                assert forall|k: int| 0 <= k < mviews(self.monitors@).len() implies
                    (#[trigger] mviews(self.monitors@)[k]).wf() by {
                    assert(orig[k].wf());
                    if k == sel {
                        assert(orig[sel + 1].wf());
                    } else if k == sel + 1 {
                        assert(orig[sel as int].wf());
                    }
                }
            }
        }
        self.selected_monitor = sel + 1;
        self.recalculate_positions();
        self.has_changes = true;
    }

    /// Throws the edits away: the live monitors revert to the baseline.
    pub fn revert_changes(&mut self)
        requires
            old(self).wf(),
        ensures
            final(self).wf(),
            mviews(final(self).monitors@) == mviews(old(self).original_monitors@),
            !final(self).has_changes,
            final(self).message@ == "Changes reverted."@,
            final(self).selected_monitor == spec_clamp_index(
                old(self).selected_monitor as int,
                old(self).original_monitors@.len() as int,
            ),
            *final(self) == (App {
                monitors: final(self).monitors,
                selected_monitor: final(self).selected_monitor,
                has_changes: false,
                message: final(self).message,
                ..*old(self)
            }),
    {
        let reverted = crate::monitor::clone_monitors(&self.original_monitors);
        proof {
            if reverted@.len() > 0 {
                assert forall|k: int| 0 <= k < mviews(reverted@).len() implies
                    (#[trigger] mviews(reverted@)[k]).wf() by {
                    assert(mviews(old(self).original_monitors@)[k].wf());
                }
            }
        }
        self.monitors = reverted;
        self.selected_monitor = clamp_index(self.selected_monitor, self.monitors.len());
        self.has_changes = false;
        self.message = String::from_str("Changes reverted.");
    }

    /// Accepts the edits: the live monitors become the new baseline and the
    /// dialog closes.
    pub fn confirm_changes(&mut self)
        requires
            old(self).wf(),
        ensures
            final(self).wf(),
            mviews(final(self).original_monitors@) == mviews(old(self).monitors@),
            !final(self).has_changes,
            final(self).dialog is Idle,
            final(self).message@ == "Configuration saved!"@,
            *final(self) == (App {
                original_monitors: final(self).original_monitors,
                has_changes: false,
                dialog: DialogType::Idle,
                message: final(self).message,
                ..*old(self)
            }),
    {
        let baseline = crate::monitor::clone_monitors(&self.monitors);
        proof {
            assert forall|k: int| 0 <= k < mviews(baseline@).len() implies
                (#[trigger] mviews(baseline@)[k]).wf() by {
                assert(mviews(old(self).monitors@)[k].wf());
            }
        }
        self.original_monitors = baseline;
        self.has_changes = false;
        self.dialog = DialogType::Idle;
        self.message = String::from_str("Configuration saved!");
    }
}

impl App {
    /// Rereads the saved-monitor list from the shown workspace and clamps
    /// its selection.
    pub fn refresh_saved_monitors(&mut self)
        requires
            old(self).wf(),
        ensures
            final(self).wf(),
            final(self).saved_monitors@.len() == (
            if old(self).selected_workspace < old(self).monitor_db@.workspaces.len() {
                old(self).monitor_db@.workspaces[old(self).selected_workspace as int].monitors.len()
            } else {
                0
            }),
            forall|i: int| 0 <= i < final(self).saved_monitors@.len()
                ==> (#[trigger] final(self).saved_monitors@[i])@ == saved_as_monitor(
                old(self).monitor_db@.workspaces[old(self).selected_workspace as int].monitors[i],
            ),
            *final(self) == (App {
                saved_monitors: final(self).saved_monitors,
                saved_selected_monitor: final(self).saved_selected_monitor,
                ..*old(self)
            }),
            final(self).saved_selected_monitor == spec_clamp_index(
                old(self).saved_selected_monitor as int,
                final(self).saved_monitors@.len() as int,
            ),
    {
        self.saved_monitors = self.monitor_db.get_workspace_monitors(self.selected_workspace);
        self.saved_selected_monitor = clamp_index(
            self.saved_selected_monitor,
            self.saved_monitors.len(),
        );
    }

    /// Switches the main tab; a dropdown only lives on the Live tab, so
    /// changing tabs closes it. Entering the Saved tab rereads its monitors.
    pub fn switch_tab(&mut self, tab: MainTab)
        requires
            old(self).wf(),
        ensures
            final(self).wf(),
            final(self).main_tab == tab,
            old(self).main_tab != tab && old(self).dialog is EditDropdown ==> final(self).dialog
                is Idle,
            (old(self).main_tab == tab || !(old(self).dialog is EditDropdown)) ==> final(self).dialog == old(self).dialog,
            // entering the Saved tab rereads its monitors from the shown workspace
            tab is Saved ==> final(self).saved_monitors@.len() == old(
                self,
            ).monitor_db@.workspaces[old(self).selected_workspace as int].monitors.len()
                && forall|i: int| 0 <= i < final(self).saved_monitors@.len()
                ==> (#[trigger] final(self).saved_monitors@[i])@ == saved_as_monitor(
                old(self).monitor_db@.workspaces[old(self).selected_workspace as int].monitors[i],
            ),
            *final(self) == (App {
                main_tab: tab,
                dialog: final(self).dialog,
                saved_monitors: final(self).saved_monitors,
                saved_selected_monitor: final(self).saved_selected_monitor,
                ..*old(self)
            }),
    {
        if !matches_tab(self.main_tab, tab) {
            if matches!(self.dialog, DialogType::EditDropdown) {
                self.dialog = DialogType::Idle;
            }
        }
        self.main_tab = tab;
        if matches!(tab, MainTab::Saved) {
            self.refresh_saved_monitors();
        }
    }

    /// Shows and activates the next workspace, when there is one.
    pub fn next_workspace(&mut self)
        requires
            old(self).wf(),
        ensures
            final(self).wf(),
            old(self).selected_workspace + 1 < old(self).monitor_db@.workspaces.len() ==> final(self).selected_workspace == old(self).selected_workspace + 1,
            old(self).selected_workspace + 1 >= old(self).monitor_db@.workspaces.len() ==> *final(self) == *old(self),
            final(self).monitor_db@.workspaces == old(self).monitor_db@.workspaces,
            final(self).selected_workspace == final(self).monitor_db@.active_workspace,
            *final(self) == (App {
                selected_workspace: final(self).selected_workspace,
                monitor_db: final(self).monitor_db,
                saved_monitors: final(self).saved_monitors,
                saved_selected_monitor: final(self).saved_selected_monitor,
                ..*old(self)
            }),
    {
        if self.selected_workspace < self.monitor_db.workspaces.len() - 1 {
            self.selected_workspace = self.selected_workspace + 1;
            self.monitor_db.active_workspace = self.selected_workspace;
            self.refresh_saved_monitors();
        }
    }

    /// Shows and activates the previous workspace, when there is one.
    pub fn prev_workspace(&mut self)
        requires
            old(self).wf(),
        ensures
            final(self).wf(),
            old(self).selected_workspace > 0 ==> final(self).selected_workspace == old(
                self,
            ).selected_workspace - 1,
            old(self).selected_workspace == 0 ==> *final(self) == *old(self),
            final(self).monitor_db@.workspaces == old(self).monitor_db@.workspaces,
            final(self).selected_workspace == final(self).monitor_db@.active_workspace,
            *final(self) == (App {
                selected_workspace: final(self).selected_workspace,
                monitor_db: final(self).monitor_db,
                saved_monitors: final(self).saved_monitors,
                saved_selected_monitor: final(self).saved_selected_monitor,
                ..*old(self)
            }),
    {
        if self.selected_workspace > 0 {
            self.selected_workspace = self.selected_workspace - 1;
            self.monitor_db.active_workspace = self.selected_workspace;
            self.refresh_saved_monitors();
        }
    }

    /// Creates a workspace with the given name, shows and activates it. The
    /// caller must persist the store afterwards.
    pub fn create_workspace(&mut self, name: &str)
        requires
            old(self).wf(),
        ensures
            final(self).wf(),
            final(self).monitor_db@.workspaces == old(self).monitor_db@.workspaces.push(
                crate::db::WorkspaceView { name: name@, monitors: Seq::empty() },
            ),
            final(self).selected_workspace == old(self).monitor_db@.workspaces.len(),
            final(self).selected_workspace == final(self).monitor_db@.active_workspace,
            final(self).message@ == "Created workspace: "@ + name@,
    {
        let idx = self.monitor_db.add_workspace(name);
        self.selected_workspace = idx;
        self.monitor_db.active_workspace = idx;
        self.refresh_saved_monitors();
        let mut message = String::from_str("Created workspace: ");
        message.append(name);
        self.message = message;
    }

    /// Deletes the shown workspace and persists success: refused (returning
    /// `false`, changing nothing of the store) when it is the only one.
    pub fn delete_current_workspace(&mut self) -> (r: bool)
        requires
            old(self).wf(),
        ensures
            final(self).wf(),
            old(self).monitor_db@.workspaces.len() <= 1 ==> (!r && final(self).monitor_db@.workspaces == old(self).monitor_db@.workspaces && final(self).message@ == "Cannot delete last workspace"@),
            old(self).monitor_db@.workspaces.len() > 1 ==> (r && final(self).monitor_db@.workspaces == old(self).monitor_db@.workspaces.remove(
                old(self).selected_workspace as int,
            ) && final(self).message@ == "Workspace deleted"@),
            final(self).selected_workspace == final(self).monitor_db@.active_workspace,
            // after a successful delete, the saved-monitor display list is
            // re-read from the workspace now shown
            old(self).monitor_db@.workspaces.len() > 1 ==> {
                let shown = final(self).monitor_db@.workspaces[final(self).selected_workspace as int];
                &&& final(self).saved_monitors@.len() == shown.monitors.len()
                &&& forall|i: int| 0 <= i < final(self).saved_monitors@.len()
                    ==> (#[trigger] final(self).saved_monitors@[i])@ == saved_as_monitor(
                    shown.monitors[i],
                )
            },
    {
        if self.monitor_db.delete_workspace(self.selected_workspace) {
            self.selected_workspace = clamp_index(
                self.selected_workspace,
                self.monitor_db.workspaces.len(),
            );
            self.monitor_db.active_workspace = self.selected_workspace;
            self.refresh_saved_monitors();
            self.message = String::from_str("Workspace deleted");
            true
        } else {
            self.message = String::from_str("Cannot delete last workspace");
            false
        }
    }

    /// Renames the shown workspace. The caller must persist the store.
    pub fn rename_current_workspace(&mut self, name: &str)
        requires
            old(self).wf(),
        ensures
            final(self).wf(),
            final(self).monitor_db@.workspaces == old(self).monitor_db@.workspaces.update(
                old(self).selected_workspace as int,
                crate::db::WorkspaceView {
                    name: name@,
                    ..old(self).monitor_db@.workspaces[old(self).selected_workspace as int]
                },
            ),
            final(self).message@ == "Renamed to: "@ + name@,
            final(self).selected_workspace == old(self).selected_workspace,
    {
        self.monitor_db.rename_workspace(self.selected_workspace, name);
        let mut message = String::from_str("Renamed to: ");
        message.append(name);
        self.message = message;
    }

    /// Name of the shown workspace.
    pub fn current_workspace_name(&self) -> (r: String)
        ensures
            self.selected_workspace < self.monitor_db@.workspaces.len() ==> r@
                == self.monitor_db@.workspaces[self.selected_workspace as int].name,
            self.selected_workspace >= self.monitor_db@.workspaces.len() ==> r@.len() == 0,
    {
        if self.selected_workspace < self.monitor_db.workspaces.len() {
            self.workspaces_name_at(self.selected_workspace)
        } else {
            String::new()
        }
    }

    /// Name of the workspace at an in-range index.
    fn workspaces_name_at(&self, i: usize) -> (r: String)
        requires
            i < self.monitor_db@.workspaces.len(),
        ensures
            r@ == self.monitor_db@.workspaces[i as int].name,
    {
        self.monitor_db.workspaces[i].name.clone()
    }

    /// Saves the live monitors into the active workspace and opens the timed
    /// apply-confirmation dialog. The caller must persist the store, export
    /// the configuration, and tell the compositor to reload.
    pub fn save_and_apply(&mut self, now: u64)
        requires
            old(self).wf(),
        ensures
            final(self).wf(),
            final(self).dialog == (DialogType::ConfirmApply { countdown: 15, started: now }),
            final(self).message@ == "Applied! Check your monitors."@,
            final(self).monitor_db@.active_workspace == old(self).selected_workspace,
            final(self).selected_workspace == old(self).selected_workspace,
            // every live monitor's configuration is upserted into the active
            // workspace, in list order
            final(self).monitor_db@.workspaces == upsert_all(
                old(self).monitor_db@.workspaces,
                old(self).selected_workspace as int,
                mviews(old(self).monitors@),
            ),
            mviews(final(self).monitors@) == mviews(old(self).monitors@),
            *final(self) == (App {
                monitor_db: final(self).monitor_db,
                saved_monitors: final(self).saved_monitors,
                saved_selected_monitor: final(self).saved_selected_monitor,
                message: final(self).message,
                dialog: final(self).dialog,
                ..*old(self)
            }),
    {
        self.monitor_db.active_workspace = self.selected_workspace;
        let ghost ms = mviews(self.monitors@);
        let n = self.monitors.len();
        let mut i: usize = 0;
        proof {
            assert(ms.subrange(0, 0) =~= Seq::<MonitorView>::empty());
            assert(upsert_all(
                old(self).monitor_db@.workspaces,
                self.selected_workspace as int,
                ms.subrange(0, 0),
            ) == old(self).monitor_db@.workspaces);
        }
        while i < n
            invariant
                i <= n,
                n == self.monitors@.len(),
                mviews(self.monitors@) == ms,
                ms.len() == n,
                self.monitor_db@.wf(),
                self.monitor_db@.active_workspace == old(self).selected_workspace,
                old(self).selected_workspace < self.monitor_db@.workspaces.len(),
                all_wf(ms),
                self.monitor_db@.workspaces == upsert_all(
                    old(self).monitor_db@.workspaces,
                    old(self).selected_workspace as int,
                    ms.subrange(0, i as int),
                ),
                *self == (App {
                    monitor_db: self.monitor_db,
                    ..*old(self)
                }),
            decreases n - i,
        {
            let m = self.monitors[i].duplicate();
            proof {
                assert(mviews(self.monitors@)[i as int].wf());
                assert(ms.subrange(0, i + 1).drop_last() =~= ms.subrange(0, i as int));
                assert(ms.subrange(0, i + 1).last() == ms[i as int]);
            }
            self.monitor_db.update_monitor(&m);
            i = i + 1;
        }
        proof {
            assert(ms.subrange(0, n as int) =~= ms);
        }
        self.refresh_saved_monitors();
        self.message = String::from_str("Applied! Check your monitors.");
        self.dialog = DialogType::ConfirmApply { countdown: 15, started: now };
    }
}

/// The list and selection after the selected monitor is swapped rightwards
/// `count` times, stopping at the right edge.
pub open spec fn shifted_right(ms: Seq<MonitorView>, sel: int, count: int) -> (
    Seq<MonitorView>,
    int,
)
    decreases count,
{
    if count <= 0 || sel < 0 || sel + 1 >= ms.len() {
        (ms, sel)
    } else {
        shifted_right(ms.update(sel, ms[sel + 1]).update(sel + 1, ms[sel]), sel + 1, count - 1)
    }
}

/// The list and selection after the selected monitor is swapped leftwards
/// `count` times, stopping at the left edge.
pub open spec fn shifted_left(ms: Seq<MonitorView>, sel: int, count: int) -> (
    Seq<MonitorView>,
    int,
)
    decreases count,
{
    if count <= 0 || sel <= 0 || sel >= ms.len() {
        (ms, sel)
    } else {
        shifted_left(ms.update(sel, ms[sel - 1]).update(sel - 1, ms[sel]), sel - 1, count - 1)
    }
}

impl App {
    /// Moves the selected monitor `count` slots in the given direction by
    /// adjacent swaps, clamped at the edges; the selection follows it.
    /// Positions are not recalculated here.
    pub fn shift_selected(&mut self, to_right: bool, count: usize)
        requires
            old(self).wf(),
        ensures
            final(self).wf(),
            to_right ==> mviews(final(self).monitors@) == shifted_right(
                mviews(old(self).monitors@),
                old(self).selected_monitor as int,
                count as int,
            ).0 && final(self).selected_monitor as int == shifted_right(
                mviews(old(self).monitors@),
                old(self).selected_monitor as int,
                count as int,
            ).1,
            !to_right ==> mviews(final(self).monitors@) == shifted_left(
                mviews(old(self).monitors@),
                old(self).selected_monitor as int,
                count as int,
            ).0 && final(self).selected_monitor as int == shifted_left(
                mviews(old(self).monitors@),
                old(self).selected_monitor as int,
                count as int,
            ).1,
            *final(self) == (App {
                monitors: final(self).monitors,
                selected_monitor: final(self).selected_monitor,
                ..*old(self)
            }),
    {
        let ghost orig = mviews(old(self).monitors@);
        let ghost sel0 = old(self).selected_monitor as int;
        let mut i: usize = 0;
        while i < count
            invariant
                i <= count,
                self.wf(),
                *self == (App {
                    monitors: self.monitors,
                    selected_monitor: self.selected_monitor,
                    ..*old(self)
                }),
                to_right ==> shifted_right(orig, sel0, count as int) == shifted_right(
                    mviews(self.monitors@),
                    self.selected_monitor as int,
                    count - i,
                ),
                !to_right ==> shifted_left(orig, sel0, count as int) == shifted_left(
                    mviews(self.monitors@),
                    self.selected_monitor as int,
                    count - i,
                ),
            ensures
                i == count || (to_right && self.selected_monitor + 1 >= self.monitors@.len()) || (
                !to_right && self.selected_monitor == 0),
            decreases count - i,
        {
            let ghost cur = mviews(self.monitors@);
            let ghost csel = self.selected_monitor as int;
            if to_right {
                if self.monitors.len() == 0 || self.selected_monitor >= self.monitors.len() - 1 {
                    break;
                }
                let sel = self.selected_monitor;
                crate::swap_adjacent(&mut self.monitors, sel);
                proof {
                    assert(mviews(self.monitors@) =~= cur.update(csel, cur[csel + 1]).update(
                        csel + 1,
                        cur[csel],
                    ));
                    assert forall|k: int| 0 <= k < mviews(self.monitors@).len() implies
                        (#[trigger] mviews(self.monitors@)[k]).wf() by {
                        assert(cur[k].wf());
                        if k == csel {
                            assert(cur[csel + 1].wf());
                        } else if k == csel + 1 {
                            assert(cur[csel].wf());
                        }
                    }
                }
                self.selected_monitor = sel + 1;
            } else {
                if self.selected_monitor == 0 {
                    break;
                }
                let sel = self.selected_monitor;
                crate::swap_adjacent(&mut self.monitors, sel - 1);
                proof {
                    assert(mviews(self.monitors@) =~= cur.update(csel, cur[csel - 1]).update(
                        csel - 1,
                        cur[csel],
                    ));
                    assert forall|k: int| 0 <= k < mviews(self.monitors@).len() implies
                        (#[trigger] mviews(self.monitors@)[k]).wf() by {
                        assert(cur[k].wf());
                        if k == csel {
                            assert(cur[csel - 1].wf());
                        } else if k == csel - 1 {
                            assert(cur[csel].wf());
                        }
                    }
                    assert(mviews(self.monitors@) =~= cur.update(csel, cur[csel - 1]).update(
                        csel - 1,
                        cur[csel],
                    ));
                }
                self.selected_monitor = sel - 1;
            }
            i = i + 1;
        }
    }
}

/// Whether the store has a saved entry for some of these monitors.
pub open spec fn any_saved(db: DbView, ms: Seq<MonitorView>) -> bool {
    exists|i: int| 0 <= i < ms.len() && 0 <= db.active_workspace < db.workspaces.len()
        && db.workspaces[db.active_workspace].has_key(monitor_key(#[trigger] ms[i]))
}

impl App {
    /// Installs a freshly loaded store and a fresh monitor snapshot: saved
    /// configurations are laid over the monitors, which become the new
    /// baseline; the shown workspace follows the store's active one.
    pub fn refresh(&mut self, db: MonitorDatabase, fetched: Vec<MonitorConfig>)
        requires
            old(self).wf(),
            db@.wf(),
            all_wf(mviews(fetched@)),
        ensures
            final(self).wf(),
            final(self).monitor_db@ == db@,
            final(self).monitors@.len() == fetched@.len(),
            // the saved overlay, with the primary invariant re-established
            mviews(final(self).monitors@) == primary_fixed(applied_all(db@, mviews(fetched@))),
            fetched@.len() > 0 ==> crate::monitor::exactly_one_primary(
                mviews(final(self).monitors@),
            ),
            mviews(final(self).original_monitors@) == mviews(final(self).monitors@),
            !final(self).has_changes,
            final(self).message@ == "Monitors refreshed."@,
            final(self).selected_workspace == db@.active_workspace,
    {
        let mut monitors = fetched;
        apply_saved_all(&db, &mut monitors);
        self.monitor_db = db;
        self.selected_workspace = self.monitor_db.active_workspace;
        self.original_monitors = crate::monitor::clone_monitors(&monitors);
        proof {
            assert forall|k: int| 0 <= k < mviews(self.original_monitors@).len() implies
                (#[trigger] mviews(self.original_monitors@)[k]).wf() by {
                assert(mviews(monitors@)[k].wf());
            }
        }
        self.monitors = monitors;
        self.selected_monitor = clamp_index(self.selected_monitor, self.monitors.len());
        self.saved_selected_monitor = clamp_index(
            self.saved_selected_monitor,
            self.saved_monitors.len(),
        );
        self.has_changes = false;
        self.message = String::from_str("Monitors refreshed.");
    }

    /// Reaction to a monitor-attach event, after the caller has reloaded the
    /// store and refetched the monitors: refreshes, and when the store knows
    /// any of the connected monitors, saves and applies at once; the caller
    /// then persists, exports and reloads the compositor.
    pub fn on_monitor_added(
        &mut self,
        db: MonitorDatabase,
        fetched: Vec<MonitorConfig>,
        now: u64,
    ) -> (r: crate::state::Effect)
        requires
            old(self).wf(),
            db@.wf(),
            all_wf(mviews(fetched@)),
        ensures
            final(self).wf(),
            r is SaveAndApply <==> any_saved(db@, mviews(fetched@)),
            !(r is SaveAndApply) ==> r is Nothing && final(self).message@
                == "New monitor detected!"@,
            r is SaveAndApply ==> final(self).dialog == (DialogType::ConfirmApply {
                countdown: 15,
                started: now,
            }),
            // either way the state holds the fresh snapshot with the loaded
            // store's configurations laid over it and the primary invariant
            // re-established, as the new baseline
            final(self).monitors@.len() == fetched@.len(),
            mviews(final(self).monitors@) == primary_fixed(applied_all(db@, mviews(fetched@))),
            mviews(final(self).original_monitors@) == mviews(final(self).monitors@),
            // a known monitor set is saved back at once; an unknown one
            // leaves the loaded store as it is
            r is SaveAndApply ==> final(self).monitor_db@.workspaces == upsert_all(
                db@.workspaces,
                db@.active_workspace,
                mviews(final(self).monitors@),
            ) && final(self).monitor_db@.active_workspace == db@.active_workspace,
            !(r is SaveAndApply) ==> final(self).monitor_db@ == db@,
    {
        let ghost fetched_views = mviews(fetched@);
        self.refresh(db, fetched);
        let n = self.monitors.len();
        proof {
            let xs = applied_all(db@, fetched_views);
            assert forall|k: int| 0 <= k < n implies (#[trigger] self.monitors@[k])@
                == (MonitorView {
                is_primary: k == first_primary(xs, 0),
                ..applied_view(db@, fetched_views[k])
            }) by {
                assert(mviews(self.monitors@)[k] == primary_fixed(xs)[k]);
                assert(primary_fixed(xs)[k] == MonitorView {
                    is_primary: k == first_primary(xs, 0),
                    ..xs[k]
                });
                assert(xs[k] == applied_view(db@, fetched_views[k]));
            }
        }
        let mut has_saved = false;
        let mut i: usize = 0;
        while i < n
            invariant
                i <= n,
                n == self.monitors@.len(),
                self.wf(),
                self.monitor_db@ == db@,
                fetched_views.len() == n,
                forall|k: int| 0 <= k < n ==> (#[trigger] self.monitors@[k])@ == (MonitorView {
                    is_primary: k == first_primary(applied_all(db@, fetched_views), 0),
                    ..applied_view(db@, fetched_views[k])
                }),
                has_saved == exists|k: int| 0 <= k < i && 0 <= db@.active_workspace
                    < db@.workspaces.len() && db@.workspaces[db@.active_workspace].has_key(
                    monitor_key(#[trigger] fetched_views[k]),
                ),
            decreases n - i,
        {
            let found = self.monitor_db.get_saved_config(&self.monitors[i]).is_some();
            proof {
                // a saved overlay does not change the monitor's identity key
                assert(monitor_key(self.monitors@[i as int]@) == monitor_key(
                    fetched_views[i as int],
                ));
            }
            if found {
                has_saved = true;
            }
            i = i + 1;
        }
        if has_saved {
            self.message = String::from_str("Monitor connected - applying saved config...");
            self.save_and_apply(now);
            crate::state::Effect::SaveAndApply
        } else {
            self.message = String::from_str("New monitor detected!");
            crate::state::Effect::Nothing
        }
    }

    /// Reaction to a monitor-detach event, after the caller has reloaded the
    /// store and refetched the monitors.
    pub fn on_monitor_removed(&mut self, db: MonitorDatabase, fetched: Vec<MonitorConfig>)
        requires
            old(self).wf(),
            db@.wf(),
            all_wf(mviews(fetched@)),
        ensures
            final(self).wf(),
            final(self).message@ == "Monitor disconnected."@,
            final(self).monitors@.len() == fetched@.len(),
            mviews(final(self).monitors@) == primary_fixed(applied_all(db@, mviews(fetched@))),
    {
        self.refresh(db, fetched);
        self.message = String::from_str("Monitor disconnected.");
    }

    /// One timer check of the apply-confirmation dialog: when its countdown
    /// has expired, the changes revert and are saved and applied again; the
    /// caller then persists, exports and reloads the compositor.
    pub fn tick(&mut self, now: u64) -> (r: crate::state::Effect)
        requires
            old(self).wf(),
        ensures
            final(self).wf(),
            match old(self).dialog {
                DialogType::ConfirmApply { countdown, started } => {
                    &&& (now >= started && (now - started) / 1000 >= countdown as u64) ==> (r
                        is SaveAndApply && final(self).dialog is Idle && mviews(
                        final(self).monitors@,
                    ) == mviews(old(self).original_monitors@)
                        && final(self).monitor_db@.workspaces == upsert_all(
                        old(self).monitor_db@.workspaces,
                        old(self).selected_workspace as int,
                        mviews(old(self).original_monitors@),
                    ) && final(self).monitor_db@.active_workspace == old(
                        self,
                    ).selected_workspace)
                    &&& !(now >= started && (now - started) / 1000 >= countdown as u64) ==> (r
                        is Nothing && *final(self) == *old(self))
                },
                _ => r is Nothing && *final(self) == *old(self),
            },
    {
        if let DialogType::ConfirmApply { countdown, started } = self.dialog {
            let expired = now >= started && (now - started) / 1000 >= countdown as u64;
            if expired {
                self.revert_changes();
                self.save_and_apply(now);
                self.dialog = DialogType::Idle;
                return crate::state::Effect::SaveAndApply;
            }
        }
        crate::state::Effect::Nothing
    }

    /// The texts of the identify notifications, one per monitor, numbered
    /// left to right.
    pub fn identify(&self) -> (r: Vec<String>)
        ensures
            r@.len() == self.monitors@.len(),
            forall|i: int| 0 <= i < r@.len() ==> (#[trigger] r@[i])@ == "Monitor "@
                + crate::text::dec_digits((i + 1) as nat) + ": "@ + mviews(
                self.monitors@,
            )[i].display_name(),
    {
        let mut r: Vec<String> = Vec::new();
        let n = self.monitors.len();
        let mut i: usize = 0;
        while i < n
            invariant
                i <= n,
                n == self.monitors@.len(),
                r@.len() == i,
                forall|k: int| 0 <= k < i ==> (#[trigger] r@[k])@ == "Monitor "@
                    + crate::text::dec_digits((k + 1) as nat) + ": "@ + mviews(
                    self.monitors@,
                )[k].display_name(),
            decreases n - i,
        {
            let mut msg = String::from_str("Monitor ");
            let num = crate::text::dec_string((i + 1) as u64);
            msg.append(num.as_str());
            msg.append(": ");
            let name = self.monitors[i].display_name();
            msg.append(name.as_str());
            proof {
                assert(msg@ =~= "Monitor "@ + crate::text::dec_digits((i + 1) as nat) + ": "@
                    + mviews(self.monitors@)[i as int].display_name());
            }
            r.push(msg);
            i = i + 1;
        }
        r
    }
}

/// Lays the saved configurations of the store's active workspace over every
/// monitor of the list.
fn apply_saved_all(db: &MonitorDatabase, monitors: &mut Vec<MonitorConfig>)
    requires
        db@.wf(),
        all_wf(mviews(old(monitors)@)),
    ensures
        final(monitors)@.len() == old(monitors)@.len(),
        mviews(final(monitors)@) == primary_fixed(applied_all(db@, mviews(old(monitors)@))),
        old(monitors)@.len() > 0 ==> crate::monitor::exactly_one_primary(
            mviews(final(monitors)@),
        ),
        all_wf(mviews(final(monitors)@)),
{
    let ghost fetched = mviews(old(monitors)@);
    let n = monitors.len();
    let mut i: usize = 0;
    while i < n
        invariant
            i <= n,
            n == monitors@.len(),
            db@.wf(),
            fetched.len() == n,
            forall|k: int| i <= k < n ==> (#[trigger] monitors@[k])@ == fetched[k],
            forall|k: int| 0 <= k < i ==> (#[trigger] monitors@[k])@ == applied_view(
                db@,
                fetched[k],
            ),
            all_wf(mviews(monitors@)),
        decreases n - i,
    {
        let ghost before = monitors@;
        let mut m = monitors.remove(i);
        db.apply_saved_config(&mut m);
        monitors.insert(i, m);
        proof {
            assert forall|k: int| 0 <= k < n && k != i implies (#[trigger] monitors@[k])@
                == before[k]@ by {}
            assert(monitors@[i as int]@ == applied_view(db@, fetched[i as int]));
            assert forall|k: int| 0 <= k < monitors@.len() implies (#[trigger] mviews(
                monitors@,
            )[k]).wf() by {
                assert(mviews(before)[k].wf());
                if k == i {
                    assert(monitors@[k]@.wf());
                } else {
                    assert(monitors@[k]@ == before[k]@);
                }
            }
        }
        i = i + 1;
    }
    proof {
        assert(mviews(monitors@) =~= applied_all(db@, fetched));
    }
    // restore the exactly-one-primary invariant the overlay may have broken:
    // the first primary monitor keeps the flag, or the leftmost takes it
    let ghost applied = mviews(monitors@);
    let mut chosen: usize = 0;
    let mut found: bool = false;
    let mut i: usize = 0;
    while i < n
        invariant
            i <= n,
            n == monitors@.len(),
            mviews(monitors@) == applied,
            !found ==> chosen == 0 && forall|j: int| 0 <= j < i ==> !(#[trigger] applied[j]).is_primary,
            found ==> chosen < i && applied[chosen as int].is_primary && forall|j: int|
                0 <= j < chosen ==> !(#[trigger] applied[j]).is_primary,
        decreases n - i,
    {
        if !found && monitors[i].is_primary {
            chosen = i;
            found = true;
            proof {
                assert(applied[i as int].is_primary);
            }
        }
        i = i + 1;
    }
    proof {
        if found {
            lemma_first_primary_found(applied, chosen as int, 0);
        } else {
            lemma_first_primary_none(applied, 0);
        }
        assert(first_primary(applied, 0) == chosen as int);
    }
    let mut k: usize = 0;
    while k < n
        invariant
            k <= n,
            n == monitors@.len(),
            applied.len() == n,
            chosen as int == first_primary(applied, 0),
            forall|j: int| k <= j < n ==> (#[trigger] monitors@[j])@ == applied[j],
            forall|j: int| 0 <= j < k ==> (#[trigger] monitors@[j])@ == (MonitorView {
                is_primary: j == chosen,
                ..applied[j]
            }),
            all_wf(mviews(monitors@)),
        decreases n - k,
    {
        let ghost before = monitors@;
        let m = monitors[k].duplicate();
        let updated = MonitorConfig { is_primary: k == chosen, ..m };
        monitors.set(k, updated);
        proof {
            assert forall|j: int| 0 <= j < n && j != k implies (#[trigger] monitors@[j])@
                == before[j]@ by {}
            assert forall|j: int| 0 <= j < monitors@.len() implies (#[trigger] mviews(
                monitors@,
            )[j]).wf() by {
                assert(mviews(before)[j].wf());
                if j == k {
                    assert(monitors@[j]@.wf());
                } else {
                    assert(monitors@[j]@ == before[j]@);
                }
            }
        }
        k = k + 1;
    }
    proof {
        assert(mviews(monitors@) =~= primary_fixed(applied));
        if n > 0 {
            assert(chosen < n) by {
                if found {
                } else {
                }
            }
            assert(mviews(monitors@)[chosen as int].is_primary);
            assert(crate::monitor::exactly_one_primary(mviews(monitors@)));
        }
    }
}

/// Whether two tabs are the same.
fn matches_tab(a: MainTab, b: MainTab) -> (r: bool)
    ensures
        r == (a == b),
{
    match (a, b) {
        (MainTab::Live, MainTab::Live) => true,
        (MainTab::Saved, MainTab::Saved) => true,
        _ => false,
    }
}

/// The workspace list after the configurations of a list of monitors are
/// upserted, one after the other, into the workspace at `active`.
pub open spec fn upsert_all(
    wss: Seq<crate::db::WorkspaceView>,
    active: int,
    ms: Seq<MonitorView>,
) -> Seq<crate::db::WorkspaceView>
    decreases ms.len(),
{
    if ms.len() == 0 || !(0 <= active < wss.len()) {
        wss
    } else {
        let prev = upsert_all(wss, active, ms.drop_last());
        prev.update(
            active,
            crate::db::WorkspaceView {
                monitors: crate::db::upsert(
                    prev[active].monitors,
                    monitor_key(ms.last()),
                    crate::db::saved_of(ms.last()),
                ),
                ..prev[active]
            },
        )
    }
}

/// Order of the resolution dropdown: more pixels first; equal pixel counts
/// ordered lexicographically.
pub open spec fn res_le(a: Seq<char>, b: Seq<char>) -> bool {
    crate::monitor::pixels_from(a, 0) > crate::monitor::pixels_from(b, 0) || (
    crate::monitor::pixels_from(a, 0) == crate::monitor::pixels_from(b, 0)
        && crate::text::lex_le(a, b))
}

proof fn lemma_res_le_total(a: Seq<char>, b: Seq<char>)
    ensures
        res_le(a, b) || res_le(b, a),
{
    crate::text::lemma_lex_le_total(a, b);
}

proof fn lemma_res_le_trans(a: Seq<char>, b: Seq<char>, c: Seq<char>)
    requires
        res_le(a, b),
        res_le(b, c),
    ensures
        res_le(a, c),
{
    if crate::monitor::pixels_from(a, 0) == crate::monitor::pixels_from(b, 0)
        && crate::monitor::pixels_from(b, 0) == crate::monitor::pixels_from(c, 0) {
        crate::text::lemma_lex_le_trans(a, b, c);
    }
}

/// Whether some mode of the list names this resolution.
pub open spec fn is_mode_res(modes: Seq<Seq<char>>, r: Seq<char>) -> bool {
    exists|i: int| 0 <= i < modes.len() && crate::monitor::mode_res(#[trigger] modes[i])
        == Some(r)
}

/// What the resolution dropdown offers: every resolution its modes name,
/// once each, ordered by descending pixel count.
pub open spec fn res_options_ok(modes: Seq<Seq<char>>, opts: Seq<Seq<char>>) -> bool {
    &&& opts.no_duplicates()
    &&& forall|p: int, q: int| 0 <= p < q < opts.len() ==> res_le(
        #[trigger] opts[p],
        #[trigger] opts[q],
    )
    &&& forall|k: int| 0 <= k < opts.len() ==> is_mode_res(modes, #[trigger] opts[k])
    &&& forall|s: Seq<char>| #[trigger] is_mode_res(modes, s) ==> opts.contains(s)
}

/// Whether some mode of the list names this resolution with this rounded
/// whole refresh rate.
pub open spec fn is_matching_rate(modes: Seq<Seq<char>>, cur: Seq<char>, rate: u32) -> bool {
    exists|i: int| 0 <= i < modes.len() && crate::monitor::mode_res(#[trigger] modes[i])
        == Some(cur) && crate::monitor::mode_rate(modes[i]) == Some(rate)
}

/// What the refresh-rate dropdown offers for the current resolution: every
/// matching rounded rate once, strictly descending.
pub open spec fn rates_list_ok(modes: Seq<Seq<char>>, cur: Seq<char>, rates: Seq<u32>) -> bool {
    &&& forall|p: int, q: int| 0 <= p < q < rates.len() ==> (#[trigger] rates[p])
        > (#[trigger] rates[q])
    &&& forall|k: int| 0 <= k < rates.len() ==> is_matching_rate(modes, cur, #[trigger] rates[k])
    &&& forall|rate: u32| #[trigger] is_matching_rate(modes, cur, rate) ==> rates.contains(rate)
}

/// The refresh-rate dropdown: the matching rates as `NHz` texts when any
/// mode matches, else one entry with the monitor's own rounded rate.
pub open spec fn rate_options_ok(m: MonitorView, opts: Seq<Seq<char>>) -> bool {
    let cur = crate::text::trimmed(m.resolution, 0, m.resolution.len() as int);
    if exists|rate: u32| is_matching_rate(m.modes, cur, rate) {
        exists|rates: Seq<u32>|
            {
                &&& #[trigger] rates_list_ok(m.modes, cur, rates)
                &&& opts.len() == rates.len()
                &&& forall|k: int| 0 <= k < opts.len() ==> #[trigger] opts[k]
                    == crate::text::dec_digits(rates[k] as nat) + "Hz"@
            }
    } else {
        opts == seq![
            crate::text::dec_digits(crate::db::round_hz(m.refresh_rate as nat)) + "Hz"@,
        ]
    }
}

impl App {
    /// The options the dropdown offers for the selected setting of the
    /// selected monitor: its resolutions by descending pixel count; the
    /// rounded refresh rates matching its resolution, descending, or its own
    /// rate when none match; the fixed scale percentages; the rotations.
    /// Without a monitor, or for the primary checkbox, there are none.
    pub fn get_dropdown_options(&self) -> (r: Vec<String>)
        requires
            self.wf(),
        ensures
            dropdown_options_ok(*self, crate::text::sviews(r@)),
    {
        let field = crate::state::SettingField::at(self.selected_setting);
        let monitor = match self.current_monitor() {
            Some(m) => m,
            None => {
                return Vec::new();
            },
        };
        let ghost m = mviews(self.monitors@)[self.selected_monitor as int];
        match field {
            crate::state::SettingField::Resolution => {
                let r = resolution_options(&monitor.available_modes);
                proof {
                    assert(m.modes == crate::text::sviews(monitor.available_modes@));
                }
                r
            },
            crate::state::SettingField::RefreshRate => {
                let rates = refresh_rate_values(&monitor.available_modes, &monitor.resolution);
                proof {
                    assert(m.modes == crate::text::sviews(monitor.available_modes@));
                    assert(m.resolution == monitor.resolution@);
                }
                let ghost cur = crate::text::trimmed(m.resolution, 0, m.resolution.len() as int);
                if rates.len() == 0 {
                    let mut s = crate::text::dec_string(((monitor.refresh_rate as u64) + 50)
                        / 100);
                    s.append("Hz");
                    let mut out: Vec<String> = Vec::new();
                    out.push(s);
                    proof {
                        assert(crate::text::sviews(out@) =~= seq![
                            crate::text::dec_digits(
                                crate::db::round_hz(m.refresh_rate as nat),
                            ) + "Hz"@,
                        ]);
                        assert forall|rate: u32| !is_matching_rate(m.modes, cur, rate) by {
                            if is_matching_rate(m.modes, cur, rate) {
                                assert(rates@.contains(rate));
                            }
                        }
                    }
                    out
                } else {
                    let mut out: Vec<String> = Vec::new();
                    let n = rates.len();
                    let mut i: usize = 0;
                    while i < n
                        invariant
                            i <= n,
                            n == rates@.len(),
                            out@.len() == i,
                            forall|k: int| 0 <= k < i ==> #[trigger] crate::text::sviews(
                                out@,
                            )[k] == crate::text::dec_digits(rates@[k] as nat) + "Hz"@,
                        decreases n - i,
                    {
                        let mut s = crate::text::dec_string(rates[i] as u64);
                        s.append("Hz");
                        let ghost before = crate::text::sviews(out@);
                        let ghost sv = s@;
                        out.push(s);
                        proof {
                            assert(crate::text::sviews(out@) =~= before.push(sv));
                            assert(crate::text::sviews(out@)[i as int] == sv);
                        }
                        i = i + 1;
                    }
                    proof {
                        assert(is_matching_rate(m.modes, cur, rates@[0]));
                        assert(rates_list_ok(m.modes, cur, rates@));
                    }
                    out
                }
            },
            crate::state::SettingField::Scale => {
                let mut out: Vec<String> = Vec::new();
                out.push(String::from_str("100%"));
                out.push(String::from_str("125%"));
                out.push(String::from_str("150%"));
                out.push(String::from_str("175%"));
                out.push(String::from_str("200%"));
                proof {
                    assert(crate::text::sviews(out@) =~= seq![
                        "100%"@,
                        "125%"@,
                        "150%"@,
                        "175%"@,
                        "200%"@,
                    ]);
                }
                out
            },
            crate::state::SettingField::Rotation => {
                let mut out: Vec<String> = Vec::new();
                out.push(String::from_str("Landscape"));
                out.push(String::from_str("Portrait Left"));
                out.push(String::from_str("Portrait Right"));
                out.push(String::from_str("Inverted"));
                proof {
                    assert(crate::text::sviews(out@) =~= seq![
                        "Landscape"@,
                        "Portrait Left"@,
                        "Portrait Right"@,
                        "Inverted"@,
                    ]);
                }
                out
            },
            crate::state::SettingField::Primary => Vec::new(),
        }
    }
}

/// The monitor after one dropdown option is applied to one setting field.
pub open spec fn dropdown_applied(
    field: crate::state::SettingField,
    m: MonitorView,
    opt: Seq<char>,
    idx: int,
) -> MonitorView {
    match field {
        crate::state::SettingField::Resolution => MonitorView { resolution: opt, ..m },
        crate::state::SettingField::RefreshRate => match crate::text::spec_parse_u64(opt, 0) {
            Some(p) => MonitorView {
                refresh_rate: crate::text::cap32((p.0 * 100) as nat) as u32,
                ..m
            },
            None => m,
        },
        crate::state::SettingField::Scale => match crate::text::spec_parse_u64(opt, 0) {
            Some(p) => if 0 < p.0 <= u32::MAX {
                MonitorView { scale: p.0 as u32, ..m }
            } else {
                m
            },
            None => m,
        },
        crate::state::SettingField::Rotation => MonitorView {
            rotation: if idx == 0 {
                crate::rotation::Rotation::Normal
            } else if idx == 1 {
                crate::rotation::Rotation::Left
            } else if idx == 2 {
                crate::rotation::Rotation::Right
            } else if idx == 3 {
                crate::rotation::Rotation::Inverted
            } else {
                crate::rotation::Rotation::Normal
            },
            ..m
        },
        crate::state::SettingField::Primary => m,
    }
}

/// How applying the dropdown selection transforms the state, for the given
/// option list: out of range, nothing; else the selected monitor's field
/// takes the selected value, positions are recalculated, the state is dirty.
pub open spec fn applied_selection(o: App, f: App, opts: Seq<Seq<char>>) -> bool {
    let idx = o.dropdown_selection as int;
    if idx >= opts.len() {
        f == o
    } else if o.selected_monitor >= o.monitors@.len() {
        true
    } else {
        let sel = o.selected_monitor as int;
        let m = mviews(o.monitors@)[sel];
        let updated = dropdown_applied(
            crate::state::SettingField::spec_at(o.selected_setting as int),
            m,
            opts[idx],
            idx,
        );
        &&& mviews(f.monitors@) == recalced(mviews(o.monitors@).update(sel, updated))
        &&& f.has_changes
        &&& f == (App { monitors: f.monitors, has_changes: true, ..o })
    }
}

impl App {
    /// Applies the highlighted dropdown option to the selected setting of
    /// the selected monitor and recalculates positions; out of range, it
    /// does nothing.
    pub fn apply_dropdown_selection(&mut self)
        requires
            old(self).wf(),
        ensures
            final(self).wf(),
            exists|opts: Seq<Seq<char>>|
                #[trigger] dropdown_options_ok(*old(self), opts) && applied_selection(
                    *old(self),
                    *final(self),
                    opts,
                ),
    {
        let field = crate::state::SettingField::at(self.selected_setting);
        let options = self.get_dropdown_options();
        let ghost opts = crate::text::sviews(options@);
        let dropdown_idx = self.dropdown_selection;
        if dropdown_idx >= options.len() {
            proof {
                assert(dropdown_options_ok(*old(self), opts) && applied_selection(
                    *old(self),
                    *old(self),
                    opts,
                ));
            }
            return;
        }
        let selected_value = &options[dropdown_idx];
        let ghost opt = opts[dropdown_idx as int];
        proof {
            assert(selected_value@ == opt);
            assert(self.selected_monitor < self.monitors@.len());
        }
        let sel = self.selected_monitor;
        let ghost orig = mviews(self.monitors@);
        let ghost m = orig[sel as int];
        let mon = self.monitors[sel].duplicate();
        let updated: MonitorConfig = match field {
            crate::state::SettingField::Resolution => {
                MonitorConfig { resolution: selected_value.clone(), ..mon }
            },
            crate::state::SettingField::RefreshRate => {
                match crate::text::parse_u64_at(selected_value.as_str(), 0) {
                    Some((v, _)) => {
                        let centi: u32 = if v > (u32::MAX as u64) / 100 {
                            u32::MAX
                        } else {
                            (v * 100) as u32
                        };
                        proof {
                            if v > (u32::MAX as u64) / 100 {
                                assert((v as nat) * 100 > u32::MAX) by (nonlinear_arith)
                                    requires
                                        v > (u32::MAX as u64) / 100,
                                        (u32::MAX as u64) / 100 == 42949672,
                                ;
                            }
                        }
                        MonitorConfig { refresh_rate: centi, ..mon }
                    },
                    None => mon,
                }
            },
            crate::state::SettingField::Scale => {
                match crate::text::parse_u64_at(selected_value.as_str(), 0) {
                    Some((v, _)) => {
                        if 0 < v && v <= u32::MAX as u64 {
                            MonitorConfig { scale: v as u32, ..mon }
                        } else {
                            mon
                        }
                    },
                    None => mon,
                }
            },
            crate::state::SettingField::Rotation => {
                let rotation = if dropdown_idx == 0 {
                    crate::rotation::Rotation::Normal
                } else if dropdown_idx == 1 {
                    crate::rotation::Rotation::Left
                } else if dropdown_idx == 2 {
                    crate::rotation::Rotation::Right
                } else if dropdown_idx == 3 {
                    crate::rotation::Rotation::Inverted
                } else {
                    crate::rotation::Rotation::Normal
                };
                MonitorConfig { rotation, ..mon }
            },
            crate::state::SettingField::Primary => mon,
        };
        proof {
            assert(updated@ == dropdown_applied(
                crate::state::SettingField::spec_at(old(self).selected_setting as int),
                m,
                opt,
                dropdown_idx as int,
            ));
            assert(updated@.wf());
        }
        self.monitors.set(sel, updated);
        proof {
            assert(mviews(self.monitors@) =~= orig.update(sel as int, updated@));
            assert forall|k: int| 0 <= k < mviews(self.monitors@).len() implies
                (#[trigger] mviews(self.monitors@)[k]).wf() by {
                assert(orig[k].wf());
            }
        }
        self.has_changes = true;
        self.recalculate_positions();
        proof {
            assert(dropdown_options_ok(*old(self), opts) && applied_selection(
                *old(self),
                *final(self),
                opts,
            ));
        }
    }
}

/// One line block of the live-monitor export: a comment naming the model,
/// then the monitor rule with rate and scale in two decimals and the
/// transform always written.
pub open spec fn live_config_line(m: MonitorView) -> Seq<char> {
    "# "@ + m.model + "\nmonitor="@ + monitor_key(m) + ","@ + m.resolution + "@"@
        + crate::text::centi_digits(m.refresh_rate as nat) + ","@ + crate::text::int_digits(
        m.position_x as int,
    ) + "x"@ + crate::text::int_digits(m.position_y as int) + ","@ + crate::text::centi_digits(
        m.scale as nat,
    ) + ",transform,"@ + crate::text::dec_digits(m.rotation.spec_transform() as nat) + "\n\n"@
}

/// The line blocks of the live-monitor export, in list order.
pub open spec fn live_config_lines(ms: Seq<MonitorView>) -> Seq<char>
    decreases ms.len(),
{
    if ms.len() == 0 {
        Seq::empty()
    } else {
        live_config_lines(ms.drop_last()) + live_config_line(ms.last())
    }
}

/// The whole live-monitor export: header, one block per connected monitor,
/// and the fallback rule.
pub open spec fn live_config(ms: Seq<MonitorView>) -> Seq<char> {
    "# Hyprland Monitor Configuration\n# Generated by hyprmon\n\n"@ + live_config_lines(ms)
        + "# Fallback\nmonitor=,preferred,auto,1\n"@
}

/// Emits one line block of the live-monitor export.
fn live_config_line_of(m: &MonitorConfig) -> (out: String)
    ensures
        out@ == live_config_line(m@),
{
    let mut out = String::from_str("# ");
    out.append(m.model.as_str());
    out.append("\nmonitor=");
    let key = MonitorDatabase::get_monitor_key(m);
    out.append(key.as_str());
    out.append(",");
    out.append(m.resolution.as_str());
    out.append("@");
    let rate = crate::text::centi_string(m.refresh_rate as u64);
    out.append(rate.as_str());
    out.append(",");
    let px = crate::text::int_string(m.position_x as i64);
    out.append(px.as_str());
    out.append("x");
    let py = crate::text::int_string(m.position_y as i64);
    out.append(py.as_str());
    out.append(",");
    let sc = crate::text::centi_string(m.scale as u64);
    out.append(sc.as_str());
    out.append(",transform,");
    let rot = crate::text::dec_string(m.rotation.transform() as u64);
    out.append(rot.as_str());
    out.append("\n\n");
    proof {
        assert(out@ =~= live_config_line(m@));
    }
    out
}

impl App {
    /// The compositor configuration of the connected monitors alone, one
    /// commented block each, with a trailing fallback rule.
    pub fn generate_config(&self) -> (out: String)
        ensures
            out@ == live_config(mviews(self.monitors@)),
    {
        let ghost ms = mviews(self.monitors@);
        let mut out = String::from_str(
            "# Hyprland Monitor Configuration\n# Generated by hyprmon\n\n",
        );
        let n = self.monitors.len();
        let mut i: usize = 0;
        proof {
            assert(ms.subrange(0, 0) =~= Seq::<MonitorView>::empty());
            assert(out@ =~= "# Hyprland Monitor Configuration\n# Generated by hyprmon\n\n"@
                + live_config_lines(ms.subrange(0, 0)));
        }
        while i < n
            invariant
                i <= n,
                n == self.monitors@.len(),
                ms == mviews(self.monitors@),
                out@ == "# Hyprland Monitor Configuration\n# Generated by hyprmon\n\n"@
                    + live_config_lines(ms.subrange(0, i as int)),
            decreases n - i,
        {
            let line = live_config_line_of(&self.monitors[i]);
            out.append(line.as_str());
            proof {
                assert(ms.subrange(0, i + 1).drop_last() =~= ms.subrange(0, i as int));
                assert(ms.subrange(0, i + 1).last() == ms[i as int]);
                assert(out@ =~= "# Hyprland Monitor Configuration\n# Generated by hyprmon\n\n"@
                    + live_config_lines(ms.subrange(0, i + 1)));
            }
            i = i + 1;
        }
        proof {
            assert(ms.subrange(0, n as int) =~= ms);
        }
        out.append("# Fallback\nmonitor=,preferred,auto,1\n");
        proof {
            assert(out@ =~= live_config(ms));
        }
        out
    }
}

/// What the dropdown must offer, by the selected setting.
pub open spec fn dropdown_options_ok(app: App, opts: Seq<Seq<char>>) -> bool {
    if app.selected_monitor >= app.monitors@.len() {
        opts.len() == 0
    } else {
        let m = mviews(app.monitors@)[app.selected_monitor as int];
        match crate::state::SettingField::spec_at(app.selected_setting as int) {
            crate::state::SettingField::Resolution => res_options_ok(m.modes, opts),
            crate::state::SettingField::RefreshRate => rate_options_ok(m, opts),
            crate::state::SettingField::Scale => opts == seq![
                "100%"@,
                "125%"@,
                "150%"@,
                "175%"@,
                "200%"@,
            ],
            crate::state::SettingField::Rotation => opts == seq![
                "Landscape"@,
                "Portrait Left"@,
                "Portrait Right"@,
                "Inverted"@,
            ],
            crate::state::SettingField::Primary => opts.len() == 0,
        }
    }
}

/// One more mode keeps resolution completeness, provided whatever resolution
/// it names is already among the options.
proof fn lemma_res_prefix_extend(mv: Seq<Seq<char>>, opts: Seq<Seq<char>>, i: int)
    requires
        0 <= i < mv.len(),
        forall|s: Seq<char>| #[trigger] is_mode_res(mv.subrange(0, i), s) ==> opts.contains(s),
        forall|s: Seq<char>| crate::monitor::mode_res(mv[i]) == Some(s) ==> opts.contains(s),
    ensures
        forall|s: Seq<char>| #[trigger] is_mode_res(mv.subrange(0, i + 1), s) ==> opts.contains(
            s,
        ),
{
    assert forall|s: Seq<char>| #[trigger] is_mode_res(mv.subrange(0, i + 1), s) implies
        opts.contains(s) by {
        let w = choose|w: int| 0 <= w < i + 1 && crate::monitor::mode_res(
            #[trigger] mv.subrange(0, i + 1)[w],
        ) == Some(s);
        if w < i {
            assert(mv.subrange(0, i as int)[w] == mv.subrange(0, i + 1)[w]);
            assert(is_mode_res(mv.subrange(0, i as int), s));
        } else {
            assert(mv.subrange(0, i + 1)[w] == mv[i]);
        }
    }
}

/// One more mode keeps rate completeness, provided whatever matching rate it
/// offers is already among the rates.
proof fn lemma_rate_prefix_extend(mv: Seq<Seq<char>>, cur: Seq<char>, rates: Seq<u32>, i: int)
    requires
        0 <= i < mv.len(),
        forall|rate: u32| #[trigger] is_matching_rate(mv.subrange(0, i), cur, rate)
            ==> rates.contains(rate),
        forall|rate: u32| crate::monitor::mode_res(mv[i]) == Some(cur)
            && crate::monitor::mode_rate(mv[i]) == Some(rate) ==> rates.contains(rate),
    ensures
        forall|rate: u32| #[trigger] is_matching_rate(mv.subrange(0, i + 1), cur, rate)
            ==> rates.contains(rate),
{
    assert forall|rate: u32| #[trigger] is_matching_rate(mv.subrange(0, i + 1), cur, rate)
        implies rates.contains(rate) by {
        let w = choose|w: int| 0 <= w < i + 1 && crate::monitor::mode_res(
            #[trigger] mv.subrange(0, i + 1)[w],
        ) == Some(cur) && crate::monitor::mode_rate(mv.subrange(0, i + 1)[w]) == Some(rate);
        if w < i {
            assert(mv.subrange(0, i as int)[w] == mv.subrange(0, i + 1)[w]);
            assert(is_matching_rate(mv.subrange(0, i as int), cur, rate));
        } else {
            assert(mv.subrange(0, i + 1)[w] == mv[i]);
        }
    }
}

/// Whether `a` should come no later than `b` in the resolution dropdown.
fn res_le_exec(a: &String, b: &String) -> (r: bool)
    ensures
        r == res_le(a@, b@),
{
    let pa = crate::monitor::pixels_of(a.as_str());
    let pb = crate::monitor::pixels_of(b.as_str());
    if pa > pb {
        true
    } else if pa < pb {
        false
    } else {
        crate::text::str_lex_le(a.as_str(), b.as_str())
    }
}

/// Orders resolutions by descending pixel count, keeping the same texts.
fn sort_resolutions(v: &mut Vec<String>)
    ensures
        crate::text::sviews(final(v)@).to_multiset() == crate::text::sviews(
            old(v)@,
        ).to_multiset(),
        forall|p: int, q: int| 0 <= p < q < final(v)@.len() ==> res_le(
            #[trigger] crate::text::sviews(final(v)@)[p],
            #[trigger] crate::text::sviews(final(v)@)[q],
        ),
        final(v)@.len() == old(v)@.len(),
{
    let n = v.len();
    if n <= 1 {
        return;
    }
    let mut i: usize = 1;
    while i < n
        invariant
            1 <= i <= n,
            n == v@.len(),
            crate::text::sviews(v@).to_multiset() == crate::text::sviews(old(v)@).to_multiset(),
            forall|p: int, q: int| 0 <= p < q < i ==> res_le(
                #[trigger] crate::text::sviews(v@)[p],
                #[trigger] crate::text::sviews(v@)[q],
            ),
        decreases n - i,
    {
        let mut j: usize = i;
        while j > 0 && !res_le_exec(&v[j - 1], &v[j])
            invariant
                0 <= j <= i < n,
                n == v@.len(),
                crate::text::sviews(v@).to_multiset() == crate::text::sviews(
                    old(v)@,
                ).to_multiset(),
                forall|p: int, q: int| 0 <= p < q <= i && p != j && q != j ==> res_le(
                    #[trigger] crate::text::sviews(v@)[p],
                    #[trigger] crate::text::sviews(v@)[q],
                ),
                forall|q: int| j < q <= i ==> res_le(
                    crate::text::sviews(v@)[j as int],
                    #[trigger] crate::text::sviews(v@)[q],
                ),
            decreases j,
        {
            proof {
                lemma_res_le_total(
                    crate::text::sviews(v@)[j - 1],
                    crate::text::sviews(v@)[j as int],
                );
            }
            let ghost before = crate::text::sviews(v@);
            crate::swap_adjacent(v, j - 1);
            proof {
                assert(crate::text::sviews(v@) =~= before.update(j - 1, before[j as int]).update(
                    j as int,
                    before[j - 1],
                ));
                crate::lemma_swap_adjacent_multiset(before, j - 1);
            }
            j = j - 1;
        }
        proof {
            let sv = crate::text::sviews(v@);
            assert forall|p: int, q: int| 0 <= p < q <= i implies res_le(
                #[trigger] sv[p],
                #[trigger] sv[q],
            ) by {
                if q == j && p < j - 1 {
                    lemma_res_le_trans(sv[p], sv[j - 1], sv[j as int]);
                }
            }
        }
        i = i + 1;
    }
}

/// The resolution dropdown for a list of mode strings.
fn resolution_options(modes: &Vec<String>) -> (r: Vec<String>)
    ensures
        res_options_ok(crate::text::sviews(modes@), crate::text::sviews(r@)),
{
    let ghost mv = crate::text::sviews(modes@);
    let n = modes.len();
    let mut r: Vec<String> = Vec::new();
    let mut i: usize = 0;
    while i < n
        invariant
            i <= n,
            n == modes@.len(),
            mv == crate::text::sviews(modes@),
            crate::text::sviews(r@).no_duplicates(),
            forall|k: int| 0 <= k < r@.len() ==> is_mode_res(
                mv,
                #[trigger] crate::text::sviews(r@)[k],
            ),
            forall|s: Seq<char>| #[trigger] is_mode_res(mv.subrange(0, i as int), s)
                ==> crate::text::sviews(r@).contains(s),
        decreases n - i,
    {
        match crate::monitor::mode_res_of(modes[i].as_str()) {
            Some(res) => {
                proof {
                    assert(crate::monitor::mode_res(mv[i as int]) == Some(res@));
                }
                if !crate::text::contains_string(&r, &res) {
                    let ghost before = crate::text::sviews(r@);
                    let ghost resv = res@;
                    r.push(res);
                    proof {
                        assert(crate::text::sviews(r@) =~= before.push(resv));
                        assert(is_mode_res(mv, resv));
                        assert(crate::text::sviews(r@)[crate::text::sviews(r@).len() - 1]
                            == resv);
                        assert(crate::text::sviews(r@).contains(resv));
                        assert forall|s: Seq<char>| is_mode_res(mv.subrange(0, i as int), s)
                            implies crate::text::sviews(r@).contains(s) by {
                            assert(before.contains(s));
                            let w = choose|w: int| 0 <= w < before.len() && before[w] == s;
                            assert(crate::text::sviews(r@)[w] == s);
                        }
                        lemma_res_prefix_extend(mv, crate::text::sviews(r@), i as int);
                    }
                } else {
                    proof {
                        assert(crate::text::sviews(r@).contains(res@));
                        lemma_res_prefix_extend(mv, crate::text::sviews(r@), i as int);
                    }
                }
            },
            None => {
                proof {
                    assert(crate::monitor::mode_res(mv[i as int]) is None);
                    lemma_res_prefix_extend(mv, crate::text::sviews(r@), i as int);
                }
            },
        }
        i = i + 1;
    }
    let ghost collected = crate::text::sviews(r@);
    proof {
        assert(mv.subrange(0, n as int) =~= mv);
    }
    sort_resolutions(&mut r);
    proof {
        let after = crate::text::sviews(r@);
        collected.lemma_multiset_has_no_duplicates();
        assert forall|x: Seq<char>| after.to_multiset().contains(x) implies
            after.to_multiset().count(x) == 1 by {}
        after.lemma_multiset_has_no_duplicates_conv();
        assert forall|k: int| 0 <= k < after.len() implies is_mode_res(
            mv,
            #[trigger] after[k],
        ) by {
            vstd::seq_lib::to_multiset_contains(after, after[k]);
            vstd::seq_lib::to_multiset_contains(collected, after[k]);
            assert(collected.contains(after[k]));
            let w = choose|w: int| 0 <= w < collected.len() && collected[w] == after[k];
            assert(is_mode_res(mv, collected[w]));
        }
        assert forall|s: Seq<char>| #[trigger] is_mode_res(mv, s) implies after.contains(s) by {
            assert(collected.contains(s));
            vstd::seq_lib::to_multiset_contains(collected, s);
            vstd::seq_lib::to_multiset_contains(after, s);
        }
    }
    r
}

/// Orders rates descending, keeping the same rates.
fn sort_rates_desc(v: &mut Vec<u32>)
    ensures
        final(v)@.to_multiset() == old(v)@.to_multiset(),
        forall|p: int, q: int| 0 <= p < q < final(v)@.len() ==> (#[trigger] final(v)@[p])
            >= (#[trigger] final(v)@[q]),
        final(v)@.len() == old(v)@.len(),
{
    let n = v.len();
    if n <= 1 {
        return;
    }
    let mut i: usize = 1;
    while i < n
        invariant
            1 <= i <= n,
            n == v@.len(),
            v@.to_multiset() == old(v)@.to_multiset(),
            forall|p: int, q: int| 0 <= p < q < i ==> (#[trigger] v@[p]) >= (#[trigger] v@[q]),
        decreases n - i,
    {
        let mut j: usize = i;
        while j > 0 && v[j - 1] < v[j]
            invariant
                0 <= j <= i < n,
                n == v@.len(),
                v@.to_multiset() == old(v)@.to_multiset(),
                forall|p: int, q: int| 0 <= p < q <= i && p != j && q != j ==> (#[trigger] v@[p])
                    >= (#[trigger] v@[q]),
                forall|q: int| j < q <= i ==> v@[j as int] >= (#[trigger] v@[q]),
            decreases j,
        {
            let ghost before = v@;
            crate::swap_adjacent(v, j - 1);
            proof {
                crate::lemma_swap_adjacent_multiset(before, j - 1);
            }
            j = j - 1;
        }
        i = i + 1;
    }
}

/// The matching rounded refresh rates for the given resolution, strictly
/// descending.
fn refresh_rate_values(modes: &Vec<String>, resolution: &String) -> (rates: Vec<u32>)
    ensures
        rates_list_ok(
            crate::text::sviews(modes@),
            crate::text::trimmed(resolution@, 0, resolution@.len() as int),
            rates@,
        ),
{
    let ghost mv = crate::text::sviews(modes@);
    let ghost cur = crate::text::trimmed(resolution@, 0, resolution@.len() as int);
    let rn = resolution.as_str().unicode_len();
    let (ta, tb) = crate::text::trim_range(resolution.as_str(), 0, rn);
    let n = modes.len();
    let mut rates: Vec<u32> = Vec::new();
    let mut i: usize = 0;
    while i < n
        invariant
            i <= n,
            n == modes@.len(),
            mv == crate::text::sviews(modes@),
            cur == crate::text::trimmed(resolution@, 0, resolution@.len() as int),
            ta <= tb <= rn,
            rn == resolution@.len(),
            cur == resolution@.subrange(ta as int, tb as int),
            rates@.no_duplicates(),
            forall|k: int| 0 <= k < rates@.len() ==> is_matching_rate(
                mv,
                cur,
                #[trigger] rates@[k],
            ),
            forall|rate: u32| #[trigger] is_matching_rate(mv.subrange(0, i as int), cur, rate)
                ==> rates@.contains(rate),
        decreases n - i,
    {
        let mode = &modes[i];
        match crate::monitor::mode_res_of(mode.as_str()) {
            Some(res) => {
                let rl = res.as_str().unicode_len();
                if crate::text::str_range_eq(res.as_str(), 0, rl, resolution.as_str(), ta, tb) {
                    proof {
                        assert(res@.subrange(0, rl as int) =~= res@);
                        assert(crate::monitor::mode_res(mv[i as int]) == Some(cur));
                    }
                    match crate::monitor::mode_rate_of(mode.as_str()) {
                        Some(rate) => {
                            proof {
                                assert(is_matching_rate(mv, cur, rate));
                            }
                            if !contains_rate(&rates, rate) {
                                let ghost before = rates@;
                                rates.push(rate);
                                proof {
                                    assert(rates@ =~= before.push(rate));
                                    assert(rates@[rates@.len() - 1] == rate);
                                    assert(rates@.contains(rate));
                                    assert forall|t: u32| is_matching_rate(
                                        mv.subrange(0, i as int),
                                        cur,
                                        t,
                                    ) implies rates@.contains(t) by {
                                        assert(before.contains(t));
                                        let w = choose|w: int|
                                            0 <= w < before.len() && before[w] == t;
                                        assert(rates@[w] == t);
                                    }
                                    lemma_rate_prefix_extend(mv, cur, rates@, i as int);
                                }
                            } else {
                                proof {
                                    lemma_rate_prefix_extend(mv, cur, rates@, i as int);
                                }
                            }
                        },
                        None => {
                            proof {
                                assert(crate::monitor::mode_rate(mv[i as int]) is None);
                                lemma_rate_prefix_extend(mv, cur, rates@, i as int);
                            }
                        },
                    }
                } else {
                    proof {
                        assert(res@.subrange(0, rl as int) =~= res@);
                        assert(crate::monitor::mode_res(mv[i as int]) != Some(cur));
                        lemma_rate_prefix_extend(mv, cur, rates@, i as int);
                    }
                }
            },
            None => {
                proof {
                    assert(crate::monitor::mode_res(mv[i as int]) is None);
                    lemma_rate_prefix_extend(mv, cur, rates@, i as int);
                }
            },
        }
        i = i + 1;
    }
    let ghost collected = rates@;
    proof {
        assert(mv.subrange(0, n as int) =~= mv);
    }
    sort_rates_desc(&mut rates);
    proof {
        let after = rates@;
        collected.lemma_multiset_has_no_duplicates();
        after.lemma_multiset_has_no_duplicates_conv();
        assert forall|k: int| 0 <= k < after.len() implies is_matching_rate(
            mv,
            cur,
            #[trigger] after[k],
        ) by {
            vstd::seq_lib::to_multiset_contains(after, after[k]);
            vstd::seq_lib::to_multiset_contains(collected, after[k]);
            assert(collected.contains(after[k]));
            let w = choose|w: int| 0 <= w < collected.len() && collected[w] == after[k];
            assert(is_matching_rate(mv, cur, collected[w]));
        }
        assert forall|rate: u32| #[trigger] is_matching_rate(mv, cur, rate) implies
            after.contains(rate) by {
            assert(collected.contains(rate));
            vstd::seq_lib::to_multiset_contains(collected, rate);
            vstd::seq_lib::to_multiset_contains(after, rate);
        }
        // descending and free of duplicates: strictly descending
        assert forall|p: int, q: int| 0 <= p < q < after.len() implies (#[trigger] after[p])
            > (#[trigger] after[q]) by {
            assert(after[p] >= after[q]);
        }
    }
    rates
}

/// Whether the list holds this rate.
fn contains_rate(v: &Vec<u32>, rate: u32) -> (r: bool)
    ensures
        r == v@.contains(rate),
{
    let n = v.len();
    let mut i: usize = 0;
    while i < n
        invariant
            i <= n,
            n == v@.len(),
            forall|k: int| 0 <= k < i ==> (#[trigger] v@[k]) != rate,
        decreases n - i,
    {
        if v[i] == rate {
            return true;
        }
        i = i + 1;
    }
    proof {
        assert(!v@.contains(rate));
    }
    false
}

/// The selection index clamped below the length, 0 for an empty list.
pub open spec fn spec_clamp_index(i: int, len: int) -> int {
    if len <= 0 {
        0
    } else if i < len {
        i
    } else {
        len - 1
    }
}

/// The selection index clamped below the length, 0 for an empty list.
pub fn clamp_index(i: usize, len: usize) -> (r: usize)
    ensures
        r == spec_clamp_index(i as int, len as int),
{
    if len == 0 {
        0
    } else if i < len {
        i
    } else {
        len - 1
    }
}

/// How far this monitor advances the running x position.
fn monitor_x_step(m: &MonitorConfig) -> (r: i64)
    requires
        m@.scale > 0,
    ensures
        r == x_step(m@),
        r >= 0,
{
    let res = m.resolution.as_str();
    proof {
        crate::text::lemma_find_char_bounds(res@, 'x', 0);
    }
    match crate::text::find_char(res, 'x', 0) {
        None => 0,
        Some(e) => {
            if e == 0 {
                proof {
                    assert(res@.subrange(0, 0).len() == 0);
                }
                return 0;
            }
            proof {
                assert(res@[e as int] == 'x');
                assert(!crate::text::is_digit_char('x'));
                crate::text::lemma_digit_run_len_bounds(res@, 0);
                let k = crate::text::digit_run_len(res@, 0);
                if k > e {
                    assert(crate::text::is_digit_char(res@[e as int]));
                }
            }
            let run_end = crate::text::digit_run_end(res, 0);
            if run_end < e {
                proof {
                    let seg = res@.subrange(0, e as int);
                    if all_digits(seg) {
                        assert(crate::text::is_digit_char(seg[run_end as int]));
                        assert(seg[run_end as int] == res@[run_end as int]);
                    }
                }
                return 0;
            }
            match crate::text::parse_u64_at(res, 0) {
                Some((w, _)) => {
                    proof {
                        let seg = res@.subrange(0, e as int);
                        let k = crate::text::digit_run_len(res@, 0);
                        assert(k == e);
                        assert(res@.subrange(0, k as int) == seg);
                    }
                    if w > i32::MAX as u64 {
                        0
                    } else {
                        proof {
                            assert((w as int) * 100 <= (i32::MAX as int) * 100) by (nonlinear_arith)
                                requires
                                    w <= i32::MAX as u64,
                            ;
                            assert(((w as int) * 100) / (m.scale as int) <= (w as int) * 100)
                                by (nonlinear_arith)
                                requires
                                    m.scale > 0,
                                    (w as int) * 100 >= 0,
                            ;
                        }
                        ((w * 100) / (m.scale as u64)) as i64
                    }
                },
                None => {
                    proof {
                        let seg = res@.subrange(0, e as int);
                        let k = crate::text::digit_run_len(res@, 0);
                        assert(k == e);
                        assert(res@.subrange(0, k as int) == seg);
                        assert(digits_val(seg) > u64::MAX);
                    }
                    0
                },
            }
        },
    }
}

} // verus!
