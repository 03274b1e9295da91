//! The workspace store: saved per-monitor configurations keyed by a stable
//! monitor identity, named workspaces, matching of saved workspaces against
//! the connected monitor set, and the merge that feeds the exported
//! compositor configuration.

use vstd::prelude::*;

use crate::monitor::{mviews, MonitorConfig, MonitorView};
use crate::rotation::Rotation;
use crate::text::has_prefix;

verus! {

/// Persisted projection of one monitor. Refresh rate and scale are held in
/// hundredths; the rotation is the compositor's transform code 0 to 3.
#[derive(Debug)]
pub struct SavedMonitor {
    pub resolution: String,
    /// Refresh rate in hundredths of Hz.
    pub refresh_rate: u32,
    /// Scale in hundredths; always positive.
    pub scale: u32,
    /// Transform code, 0 to 3.
    pub rotation: u8,
    pub position_x: i32,
    pub position_y: i32,
    pub is_primary: bool,
}

/// Mathematical view of a saved monitor.
#[verifier::ext_equal]
pub struct SavedMonitorView {
    pub resolution: Seq<char>,
    pub refresh_rate: u32,
    pub scale: u32,
    pub rotation: u8,
    pub position_x: i32,
    pub position_y: i32,
    pub is_primary: bool,
}

impl View for SavedMonitor {
    type V = SavedMonitorView;

    open spec fn view(&self) -> SavedMonitorView {
        SavedMonitorView {
            resolution: self.resolution@,
            refresh_rate: self.refresh_rate,
            scale: self.scale,
            rotation: self.rotation,
            position_x: self.position_x,
            position_y: self.position_y,
            is_primary: self.is_primary,
        }
    }
}

impl SavedMonitorView {
    /// Validity: a positive scale and a real transform code.
    pub open spec fn wf(self) -> bool {
        &&& self.scale > 0
        &&& self.rotation < 4
    }
}

impl SavedMonitor {
    /// Field-by-field copy with the same view.
    pub fn duplicate(&self) -> (r: SavedMonitor)
        ensures
            r@ == self@,
    {
        let r = SavedMonitor {
            resolution: self.resolution.clone(),
            refresh_rate: self.refresh_rate,
            scale: self.scale,
            rotation: self.rotation,
            position_x: self.position_x,
            position_y: self.position_y,
            is_primary: self.is_primary,
        };
        proof {
            assert(r@ =~= self@);
        }
        r
    }
}

/// One saved monitor under its identity key.
#[derive(Debug)]
pub struct SavedEntry {
    pub key: String,
    pub monitor: SavedMonitor,
}

/// Mathematical view of a saved entry.
#[verifier::ext_equal]
pub struct SavedEntryView {
    pub key: Seq<char>,
    pub monitor: SavedMonitorView,
}

impl View for SavedEntry {
    type V = SavedEntryView;

    open spec fn view(&self) -> SavedEntryView {
        SavedEntryView { key: self.key@, monitor: self.monitor@ }
    }
}

/// A named workspace: a mapping from monitor identity key to saved monitor,
/// held in insertion order with unique keys.
#[derive(Debug)]
pub struct Workspace {
    pub name: String,
    pub monitors: Vec<SavedEntry>,
}

/// Mathematical view of a workspace.
#[verifier::ext_equal]
pub struct WorkspaceView {
    pub name: Seq<char>,
    pub monitors: Seq<SavedEntryView>,
}

/// Views of a list of saved entries.
pub open spec fn entry_views(es: Seq<SavedEntry>) -> Seq<SavedEntryView> {
    es.map_values(|e: SavedEntry| e@)
}

impl View for Workspace {
    type V = WorkspaceView;

    open spec fn view(&self) -> WorkspaceView {
        WorkspaceView { name: self.name@, monitors: entry_views(self.monitors@) }
    }
}

/// First index of a key among saved entries, or -1.
pub open spec fn key_index(ms: Seq<SavedEntryView>, k: Seq<char>, pos: int) -> int
    decreases ms.len() - pos,
{
    if pos < 0 || pos >= ms.len() {
        -1
    } else if ms[pos].key == k {
        pos
    } else {
        key_index(ms, k, pos + 1)
    }
}

pub proof fn lemma_key_index(ms: Seq<SavedEntryView>, k: Seq<char>, pos: int)
    requires
        0 <= pos <= ms.len(),
    ensures
        key_index(ms, k, pos) == -1 ==> forall|i: int| pos <= i < ms.len()
            ==> (#[trigger] ms[i]).key != k,
        key_index(ms, k, pos) != -1 ==> pos <= key_index(ms, k, pos) < ms.len()
            && ms[key_index(ms, k, pos)].key == k,
        forall|i: int| pos <= i < key_index(ms, k, pos) ==> (#[trigger] ms[i]).key != k,
    decreases ms.len() - pos,
{
    if pos < ms.len() && ms[pos].key != k {
        lemma_key_index(ms, k, pos + 1);
    }
}

/// Whether some entry has the key.
pub open spec fn contains_key(ms: Seq<SavedEntryView>, k: Seq<char>) -> bool {
    exists|i: int| 0 <= i < ms.len() && (#[trigger] ms[i]).key == k
}

/// Whether the entries' keys are pairwise distinct.
pub open spec fn keys_distinct(ms: Seq<SavedEntryView>) -> bool {
    forall|i: int, j: int| 0 <= i < j < ms.len() ==> (#[trigger] ms[i]).key
        != (#[trigger] ms[j]).key
}

impl WorkspaceView {
    /// Validity: distinct keys and valid monitors.
    pub open spec fn wf(self) -> bool {
        &&& keys_distinct(self.monitors)
        &&& forall|i: int| 0 <= i < self.monitors.len()
            ==> (#[trigger] self.monitors[i]).monitor.wf()
    }

    /// Whether the workspace holds a monitor under this key.
    pub open spec fn has_key(self, k: Seq<char>) -> bool {
        contains_key(self.monitors, k)
    }
}

/// First position of the key among the entries.
pub fn find_entry(v: &Vec<SavedEntry>, key: &String) -> (r: Option<usize>)
    ensures
        match r {
            Some(i) => key_index(entry_views(v@), key@, 0) == i && i < v@.len()
                && entry_views(v@)[i as int].key == key@,
            None => key_index(entry_views(v@), key@, 0) == -1 && !contains_key(
                entry_views(v@),
                key@,
            ),
        },
{
    let ghost ms = entry_views(v@);
    let n = v.len();
    let mut i: usize = 0;
    loop
        invariant
            i <= n,
            n == v@.len(),
            ms == entry_views(v@),
            key_index(ms, key@, 0) == key_index(ms, key@, i as int),
        ensures
            (i < n && key_index(ms, key@, 0) == i) || (i == n && key_index(ms, key@, 0) == -1),
        decreases n - i,
    {
        if i >= n {
            break;
        }
        if v[i].key == *key {
            proof {
                assert(ms[i as int].key == key@);
            }
            break;
        }
        proof {
            assert(ms[i as int].key != key@);
        }
        i = i + 1;
    }
    proof {
        lemma_key_index(ms, key@, 0);
    }
    if i < n {
        Some(i)
    } else {
        None
    }
}

/// The stable identity key of a monitor: its device name for a built-in
/// panel (name prefix `eDP`), else `desc:` followed by make and model.
pub open spec fn monitor_key(m: MonitorView) -> Seq<char> {
    if has_prefix(m.name, "eDP"@) {
        m.name
    } else {
        "desc:"@ + m.make + " "@ + m.model
    }
}

/// The persisted projection of a live monitor.
pub open spec fn saved_of(m: MonitorView) -> SavedMonitorView {
    SavedMonitorView {
        resolution: m.resolution,
        refresh_rate: m.refresh_rate,
        scale: m.scale,
        rotation: m.rotation.spec_transform(),
        position_x: m.position_x,
        position_y: m.position_y,
        is_primary: m.is_primary,
    }
}

/// A live monitor overwritten by a saved configuration: geometry, rate,
/// scale, rotation and the primary flag come from the saved entry; identity
/// and modes stay.
pub open spec fn apply_saved(m: MonitorView, s: SavedMonitorView) -> MonitorView {
    MonitorView {
        resolution: s.resolution,
        refresh_rate: s.refresh_rate,
        scale: s.scale,
        rotation: Rotation::spec_from_transform(s.rotation),
        position_x: s.position_x,
        position_y: s.position_y,
        is_primary: s.is_primary,
        ..m
    }
}

/// Entries with the entry under `k` replaced, or appended when absent.
pub open spec fn upsert(
    ms: Seq<SavedEntryView>,
    k: Seq<char>,
    v: SavedMonitorView,
) -> Seq<SavedEntryView> {
    let i = key_index(ms, k, 0);
    if i >= 0 {
        ms.update(i, SavedEntryView { key: k, monitor: v })
    } else {
        ms.push(SavedEntryView { key: k, monitor: v })
    }
}

/// Upserting a well-formed entry keeps a workspace well-formed.
pub proof fn lemma_upsert_wf(ws: WorkspaceView, k: Seq<char>, v: SavedMonitorView)
    requires
        ws.wf(),
        v.wf(),
    ensures
        (WorkspaceView { monitors: upsert(ws.monitors, k, v), ..ws }).wf(),
{
    let ms = ws.monitors;
    lemma_key_index(ms, k, 0);
    let out = upsert(ms, k, v);
    let i = key_index(ms, k, 0);
    if i >= 0 {
        assert forall|p: int, q: int| 0 <= p < q < out.len() implies (#[trigger] out[p]).key
            != (#[trigger] out[q]).key by {
            assert(out[p].key == if p == i { k } else { ms[p].key });
            assert(out[q].key == if q == i { k } else { ms[q].key });
            assert(ms[i].key == k);
        }
    } else {
        assert forall|p: int, q: int| 0 <= p < q < out.len() implies (#[trigger] out[p]).key
            != (#[trigger] out[q]).key by {
            if q == out.len() - 1 {
                assert(out[q].key == k);
                assert(out[p].key == ms[p].key);
            }
        }
    }
}

/// Saved entries of every workspace, in workspace order then entry order.
pub open spec fn all_entries(wss: Seq<WorkspaceView>) -> Seq<SavedEntryView>
    decreases wss.len(),
{
    if wss.len() == 0 {
        Seq::empty()
    } else {
        all_entries(wss.drop_last()) + wss.last().monitors
    }
}

/// Entries merged by key: each entry is upserted in order, so a later
/// workspace's entry overwrites an earlier one's under the same key, which
/// keeps its first-seen position.
pub open spec fn merge_entries(es: Seq<SavedEntryView>) -> Seq<SavedEntryView>
    decreases es.len(),
{
    if es.len() == 0 {
        Seq::empty()
    } else {
        upsert(merge_entries(es.drop_last()), es.last().key, es.last().monitor)
    }
}

/// A scale in hundredths as the configuration writes it: a whole number when
/// it is whole, else with two decimal places.
pub open spec fn scale_text(c: nat) -> Seq<char> {
    if c % 100 == 0 {
        crate::text::dec_digits(c / 100)
    } else {
        crate::text::centi_digits(c)
    }
}

/// One line of the exported configuration.
pub open spec fn config_line(e: SavedEntryView) -> Seq<char> {
    "monitor="@ + e.key + ","@ + e.monitor.resolution + "@"@ + crate::text::centi_digits(
        e.monitor.refresh_rate as nat,
    ) + ","@ + crate::text::int_digits(e.monitor.position_x as int) + "x"@
        + crate::text::int_digits(e.monitor.position_y as int) + ","@ + scale_text(
        e.monitor.scale as nat,
    ) + (if e.monitor.rotation == 0 {
        Seq::<char>::empty()
    } else {
        ",transform,"@ + crate::text::dec_digits(e.monitor.rotation as nat)
    }) + "\n"@
}

/// The lines of the exported configuration, one per merged entry.
pub open spec fn config_lines(es: Seq<SavedEntryView>) -> Seq<char>
    decreases es.len(),
{
    if es.len() == 0 {
        Seq::empty()
    } else {
        config_lines(es.drop_last()) + config_line(es.last())
    }
}

/// The whole exported configuration: a fixed header, one line per unique
/// saved-monitor key across all workspaces, and a catch-all fallback rule.
pub open spec fn full_config(db: DbView) -> Seq<char> {
    config_header() + config_lines(merge_entries(all_entries(db.workspaces)))
        + config_footer()
}

pub open spec fn config_header() -> Seq<char> {
    "# Hyprland Monitor Configuration\n# Generated by hyprmon\n# Contains ALL configured monitors from all workspaces\n\n"@
}

pub open spec fn config_footer() -> Seq<char> {
    "\n# Fallback for unknown monitors\nmonitor=,preferred,auto,1\n"@
}

/// Upserts one entry, replacing the entry under the same key or appending.
fn upsert_entry(v: &mut Vec<SavedEntry>, key: String, m: SavedMonitor)
    ensures
        entry_views(final(v)@) == upsert(entry_views(old(v)@), key@, m@),
{
    proof {
        lemma_key_index(entry_views(v@), key@, 0);
    }
    match find_entry(v, &key) {
        Some(i) => {
            v.set(i, SavedEntry { key, monitor: m });
            proof {
                assert(entry_views(final(v)@) =~= upsert(entry_views(old(v)@), key@, m@));
            }
        },
        None => {
            v.push(SavedEntry { key, monitor: m });
            proof {
                assert(entry_views(final(v)@) =~= upsert(entry_views(old(v)@), key@, m@));
            }
        },
    }
}

/// How many of the connected monitors the workspace has a saved entry for.
pub open spec fn match_score(ws: WorkspaceView, conn: Seq<MonitorView>) -> nat
    decreases conn.len(),
{
    if conn.len() == 0 {
        0
    } else {
        match_score(ws, conn.drop_last()) + if ws.has_key(monitor_key(conn.last())) {
            1nat
        } else {
            0nat
        }
    }
}

impl Workspace {
    /// A new, empty workspace with the given name.
    pub fn new(name: &str) -> (r: Workspace)
        ensures
            r@.name == name@,
            r@.monitors.len() == 0,
            r@.wf(),
    {
        Workspace { name: String::from_str(name), monitors: Vec::new() }
    }

    /// Exact copy of the workspace.
    pub fn duplicate(&self) -> (r: Workspace)
        ensures
            r@ == self@,
    {
        let mut monitors: Vec<SavedEntry> = Vec::new();
        let mut i: usize = 0;
        while i < self.monitors.len()
            invariant
                i <= self.monitors@.len(),
                monitors@.len() == i,
                forall|k: int| 0 <= k < i ==> (#[trigger] monitors@[k])@ == self.monitors@[k]@,
            decreases self.monitors@.len() - i,
        {
            let e = &self.monitors[i];
            monitors.push(SavedEntry { key: e.key.clone(), monitor: e.monitor.duplicate() });
            i = i + 1;
        }
        let r = Workspace { name: self.name.clone(), monitors };
        proof {
            assert(r@.monitors =~= self@.monitors);
            assert(r@ =~= self@);
        }
        r
    }

    /// The identity keys saved in this workspace, in order.
    pub fn monitor_keys(&self) -> (r: Vec<String>)
        ensures
            r@.len() == self@.monitors.len(),
            forall|i: int| 0 <= i < r@.len() ==> (#[trigger] r@[i])@ == self@.monitors[i].key,
    {
        let mut r: Vec<String> = Vec::new();
        let mut i: usize = 0;
        while i < self.monitors.len()
            invariant
                i <= self.monitors@.len(),
                r@.len() == i,
                forall|k: int| 0 <= k < i ==> (#[trigger] r@[k])@ == self@.monitors[k].key,
            decreases self.monitors@.len() - i,
        {
            r.push(self.monitors[i].key.clone());
            i = i + 1;
        }
        r
    }

    /// How many of the connected monitors this workspace has an entry for.
    pub fn matches_monitors(&self, connected: &Vec<MonitorConfig>) -> (r: usize)
        ensures
            r == match_score(self@, mviews(connected@)),
    {
        let n = connected.len();
        let mut i: usize = 0;
        let mut score: usize = 0;
        proof {
            assert(mviews(connected@).subrange(0, 0) =~= Seq::<MonitorView>::empty());
        }
        while i < n
            invariant
                i <= n,
                n == connected@.len(),
                score <= i,
                score == match_score(self@, mviews(connected@).subrange(0, i as int)),
            decreases n - i,
        {
            let key = MonitorDatabase::get_monitor_key(&connected[i]);
            let found = find_entry(&self.monitors, &key).is_some();
            proof {
                let pre = mviews(connected@).subrange(0, i as int);
                let cur = mviews(connected@).subrange(0, i + 1);
                assert(cur.drop_last() =~= pre);
                assert(cur.last() == connected@[i as int]@);
                if found {
                    assert(self@.has_key(monitor_key(cur.last())));
                } else {
                    lemma_key_index(self@.monitors, monitor_key(cur.last()), 0);
                }
            }
            if found {
                score = score + 1;
            }
            i = i + 1;
        }
        proof {
            assert(mviews(connected@).subrange(0, n as int) =~= mviews(connected@));
        }
        score
    }
}

/// The ordered list of workspaces and the index of the active one.
#[derive(Debug)]
pub struct MonitorDatabase {
    pub workspaces: Vec<Workspace>,
    pub active_workspace: usize,
}

/// Mathematical view of the database.
#[verifier::ext_equal]
pub struct DbView {
    pub workspaces: Seq<WorkspaceView>,
    pub active_workspace: int,
}

impl View for MonitorDatabase {
    type V = DbView;

    open spec fn view(&self) -> DbView {
        DbView {
            workspaces: self.workspaces@.map_values(|w: Workspace| w@),
            active_workspace: self.active_workspace as int,
        }
    }
}

impl DbView {
    /// Validity: at least one workspace, a valid active index, and valid
    /// workspaces throughout.
    pub open spec fn wf(self) -> bool {
        &&& self.workspaces.len() >= 1
        &&& 0 <= self.active_workspace < self.workspaces.len()
        &&& forall|i: int| 0 <= i < self.workspaces.len() ==> (#[trigger] self.workspaces[i]).wf()
    }
}

impl Default for MonitorDatabase {
    /// A fresh database: one workspace named `Default`, active.
    fn default() -> (r: MonitorDatabase)
        ensures
            r@.wf(),
            r@.workspaces.len() == 1,
            r@.workspaces[0].name == "Default"@,
            r@.workspaces[0].monitors.len() == 0,
            r@.active_workspace == 0,
    {
        MonitorDatabase::new_default()
    }
}

impl MonitorDatabase {
    /// A fresh database: one workspace named `Default`, active.
    pub fn new_default() -> (r: MonitorDatabase)
        ensures
            r@.wf(),
            r@.workspaces.len() == 1,
            r@.workspaces[0].name == "Default"@,
            r@.workspaces[0].monitors.len() == 0,
            r@.active_workspace == 0,
    {
        let ws = Workspace::new("Default");

        let mut workspaces: Vec<Workspace> = Vec::new();
        workspaces.push(ws);
        let r = MonitorDatabase { workspaces, active_workspace: 0 };
        proof {
            assert(r@.workspaces.len() == 1);
            assert(r@.workspaces[0].wf());
        }
        r
    }

    /// Exact copy of the database.
    pub fn duplicate(&self) -> (r: MonitorDatabase)
        ensures
            r@ == self@,
    {
        let mut workspaces: Vec<Workspace> = Vec::new();
        let mut i: usize = 0;
        while i < self.workspaces.len()
            invariant
                i <= self.workspaces@.len(),
                workspaces@.len() == i,
                forall|k: int| 0 <= k < i ==> (#[trigger] workspaces@[k])@
                    == self.workspaces@[k]@,
            decreases self.workspaces@.len() - i,
        {
            workspaces.push(self.workspaces[i].duplicate());
            i = i + 1;
        }
        let r = MonitorDatabase { workspaces, active_workspace: self.active_workspace };
        proof {
            assert(r@.workspaces =~= self@.workspaces);
            assert(r@ =~= self@);
        }
        r
    }

    /// The identity key the store files a monitor under.
    pub fn get_monitor_key(monitor: &MonitorConfig) -> (r: String)
        ensures
            r@ == monitor_key(monitor@),
    {
        if crate::text::str_has_prefix(monitor.name.as_str(), "eDP") {
            monitor.name.clone()
        } else {
            let mut r = String::from_str("desc:");
            r.append(monitor.make.as_str());
            r.append(" ");
            r.append(monitor.model.as_str());
            proof {
                assert(r@ =~= monitor_key(monitor@));
            }
            r
        }
    }

    /// The active workspace, when its index is in range.
    pub fn current_workspace(&self) -> (r: Option<&Workspace>)
        ensures
            match r {
                Some(w) => self@.active_workspace < self@.workspaces.len() && w@
                    == self@.workspaces[self@.active_workspace],
                None => self@.active_workspace >= self@.workspaces.len(),
            },
    {
        if self.active_workspace < self.workspaces.len() {
            Some(&self.workspaces[self.active_workspace])
        } else {
            None
        }
    }

    /// Appends a new, empty workspace and returns its index.
    pub fn add_workspace(&mut self, name: &str) -> (r: usize)
        ensures
            r == old(self)@.workspaces.len(),
            final(self)@.workspaces.len() == old(self)@.workspaces.len() + 1,
            final(self)@.workspaces =~= old(self)@.workspaces.push(
                WorkspaceView { name: name@, monitors: Seq::empty() },
            ),
            final(self)@.active_workspace == old(self)@.active_workspace,
            old(self)@.wf() ==> final(self)@.wf(),
    {
        let ws = Workspace::new(name);
        let idx = self.workspaces.len();
        self.workspaces.push(ws);
        proof {
            assert(final(self)@.workspaces =~~= old(self)@.workspaces.push(
                WorkspaceView { name: name@, monitors: Seq::empty() },
            ));
        }
        idx
    }

    /// Removes the workspace at the index, unless it is the only one or the
    /// index is out of range; clamps the active index back into range. The
    /// sole workspace of a database can never be deleted: the call then
    /// returns failure and changes nothing.
    pub fn delete_workspace(&mut self, idx: usize) -> (r: bool)
        ensures
            (old(self)@.workspaces.len() <= 1 || idx >= old(self)@.workspaces.len()) ==> (!r
                && final(self)@ == old(self)@),
            (old(self)@.workspaces.len() > 1 && idx < old(self)@.workspaces.len()) ==> (r
                && final(self)@.workspaces =~= old(self)@.workspaces.remove(idx as int)
                && final(self)@.active_workspace == (
                if old(self)@.active_workspace >= old(self)@.workspaces.len() - 1 {
                    old(self)@.workspaces.len() - 2
                } else {
                    old(self)@.active_workspace
                })),
            old(self)@.wf() ==> final(self)@.wf(),
    {
        if self.workspaces.len() <= 1 || idx >= self.workspaces.len() {
            proof {
                assert(final(self)@ =~= old(self)@);
            }
            return false;
        }
        self.workspaces.remove(idx);
        if self.active_workspace >= self.workspaces.len() {
            self.active_workspace = self.workspaces.len() - 1;
        }
        proof {
            assert(final(self)@.workspaces =~= old(self)@.workspaces.remove(idx as int));
            if old(self)@.wf() {
                assert forall|i: int| 0 <= i < final(self)@.workspaces.len() implies
                    (#[trigger] final(self)@.workspaces[i]).wf() by {
                    if i < idx {
                        assert(old(self)@.workspaces[i].wf());
                    } else {
                        assert(old(self)@.workspaces[i + 1].wf());
                    }
                }
            }
        }
        true
    }

    /// Renames the workspace at the index; out of range, nothing changes.
    pub fn rename_workspace(&mut self, idx: usize, name: &str)
        ensures
            idx < old(self)@.workspaces.len() ==> final(self)@.workspaces
                =~= old(self)@.workspaces.update(
                idx as int,
                WorkspaceView { name: name@, ..old(self)@.workspaces[idx as int] },
            ),
            idx >= old(self)@.workspaces.len() ==> final(self)@ == old(self)@,
            final(self)@.active_workspace == old(self)@.active_workspace,
            old(self)@.wf() ==> final(self)@.wf(),
    {
        if idx < self.workspaces.len() {
            // replace the workspace wholesale to rename it
            let old_ws = self.workspaces.remove(idx);
            let ws = Workspace { name: String::from_str(name), monitors: old_ws.monitors };
            self.workspaces.insert(idx, ws);
            proof {
                assert(final(self)@.workspaces =~= old(self)@.workspaces.update(
                    idx as int,
                    WorkspaceView { name: name@, ..old(self)@.workspaces[idx as int] },
                ));
            }
        } else {
            proof {
                assert(final(self)@ =~= old(self)@);
            }
        }
    }

    /// Saves the monitor's current configuration into the active workspace,
    /// overwriting any earlier entry under the same identity key.
    pub fn update_monitor(&mut self, monitor: &MonitorConfig)
        ensures
            old(self)@.active_workspace < old(self)@.workspaces.len() ==> final(self)@.workspaces
                == old(self)@.workspaces.update(
                old(self)@.active_workspace,
                WorkspaceView {
                    monitors: upsert(
                        old(self)@.workspaces[old(self)@.active_workspace].monitors,
                        monitor_key(monitor@),
                        saved_of(monitor@),
                    ),
                    ..old(self)@.workspaces[old(self)@.active_workspace]
                },
            ),
            old(self)@.active_workspace >= old(self)@.workspaces.len() ==> final(self)@ == old(
                self,
            )@,
            final(self)@.active_workspace == old(self)@.active_workspace,
            old(self)@.wf() && monitor@.wf() ==> final(self)@.wf(),
    {
        let key = Self::get_monitor_key(monitor);
        let saved = SavedMonitor {
            resolution: monitor.resolution.clone(),
            refresh_rate: monitor.refresh_rate,
            scale: monitor.scale,
            rotation: monitor.rotation.transform(),
            position_x: monitor.position_x,
            position_y: monitor.position_y,
            is_primary: monitor.is_primary,
        };
        let a = self.active_workspace;
        if a >= self.workspaces.len() {
            proof {
                assert(final(self)@ =~= old(self)@);
            }
            return;
        }
        let mut ws = self.workspaces.remove(a);
        let ghost old_ws = ws@;
        proof {
            lemma_key_index(old_ws.monitors, key@, 0);
        }
        match find_entry(&ws.monitors, &key) {
            Some(i) => {
                ws.monitors.set(i, SavedEntry { key, monitor: saved });
                proof {
                    assert(ws@.monitors =~= upsert(
                        old_ws.monitors,
                        monitor_key(monitor@),
                        saved_of(monitor@),
                    ));
                }
            },
            None => {
                ws.monitors.push(SavedEntry { key, monitor: saved });
                proof {
                    assert(ws@.monitors =~= upsert(
                        old_ws.monitors,
                        monitor_key(monitor@),
                        saved_of(monitor@),
                    ));
                }
            },
        }
        self.workspaces.insert(a, ws);
        proof {
            assert(final(self)@.workspaces =~= old(self)@.workspaces.update(
                a as int,
                WorkspaceView {
                    monitors: upsert(
                        old_ws.monitors,
                        monitor_key(monitor@),
                        saved_of(monitor@),
                    ),
                    ..old(self)@.workspaces[a as int]
                },
            ));
            if old(self)@.wf() && monitor@.wf() {
                lemma_upsert_wf(
                    old(self)@.workspaces[a as int],
                    monitor_key(monitor@),
                    saved_of(monitor@),
                );
                assert forall|i: int| 0 <= i < final(self)@.workspaces.len() implies
                    (#[trigger] final(self)@.workspaces[i]).wf() by {
                    if i != a as int {
                        assert(old(self)@.workspaces[i].wf());
                    }
                }
            }
        }
    }

    /// The saved configuration of this monitor in the active workspace.
    pub fn get_saved_config(&self, monitor: &MonitorConfig) -> (r: Option<&SavedMonitor>)
        ensures
            match r {
                Some(s) => {
                    &&& self@.active_workspace < self@.workspaces.len()
                    &&& self@.workspaces[self@.active_workspace].has_key(monitor_key(monitor@))
                    &&& s@ == self@.workspaces[self@.active_workspace].monitors[key_index(
                        self@.workspaces[self@.active_workspace].monitors,
                        monitor_key(monitor@),
                        0,
                    )].monitor
                },
                None => self@.active_workspace >= self@.workspaces.len()
                    || !self@.workspaces[self@.active_workspace].has_key(monitor_key(monitor@)),
            },
    {
        if self.active_workspace >= self.workspaces.len() {
            return None;
        }
        let key = Self::get_monitor_key(monitor);
        let ws = &self.workspaces[self.active_workspace];
        proof {
            lemma_key_index(ws@.monitors, key@, 0);
        }
        match find_entry(&ws.monitors, &key) {
            Some(i) => Some(&ws.monitors[i].monitor),
            None => None,
        }
    }

    /// Overwrites the live monitor with its saved configuration from the
    /// active workspace; reports whether a saved entry was found.
    pub fn apply_saved_config(&self, monitor: &mut MonitorConfig) -> (r: bool)
        ensures
            r == (self@.active_workspace < self@.workspaces.len()
                && self@.workspaces[self@.active_workspace].has_key(
                monitor_key(old(monitor)@),
            )),
            r ==> final(monitor)@ == apply_saved(
                old(monitor)@,
                self@.workspaces[self@.active_workspace].monitors[key_index(
                    self@.workspaces[self@.active_workspace].monitors,
                    monitor_key(old(monitor)@),
                    0,
                )].monitor,
            ),
            !r ==> final(monitor)@ == old(monitor)@,
            old(monitor)@.wf() && self@.wf() ==> final(monitor)@.wf(),
    {
        let saved_opt = self.get_saved_config(monitor);
        match saved_opt {
            Some(saved) => {
                let saved = saved.duplicate();
                monitor.resolution = saved.resolution;
                monitor.refresh_rate = saved.refresh_rate;
                monitor.scale = saved.scale;
                monitor.rotation = Rotation::from_transform(saved.rotation);
                monitor.position_x = saved.position_x;
                monitor.position_y = saved.position_y;
                monitor.is_primary = saved.is_primary;
                proof {
                    if self@.wf() {
                        let ws = self@.workspaces[self@.active_workspace];
                        let i = key_index(ws.monitors, monitor_key(old(monitor)@), 0);
                        lemma_key_index(ws.monitors, monitor_key(old(monitor)@), 0);
                        assert(ws.monitors[i].monitor.wf());
                    }
                    assert(final(monitor)@ =~= apply_saved(
                        old(monitor)@,
                        self@.workspaces[self@.active_workspace].monitors[key_index(
                            self@.workspaces[self@.active_workspace].monitors,
                            monitor_key(old(monitor)@),
                            0,
                        )].monitor,
                    ));
                }
                true
            },
            None => {
                proof {
                    assert(final(monitor)@ =~= old(monitor)@);
                }
                false
            },
        }
    }

    /// The best-matching workspace for the connected monitors: the one with
    /// the strictly highest match score; earlier workspaces win ties; no
    /// selection when every score is zero.
    pub fn find_best_workspace(&self, connected: &Vec<MonitorConfig>) -> (r: Option<usize>)
        ensures
            match r {
                Some(i) => {
                    &&& 0 <= i < self@.workspaces.len()
                    &&& match_score(self@.workspaces[i as int], mviews(connected@)) > 0
                    &&& forall|j: int| 0 <= j < self@.workspaces.len() ==> match_score(
                        #[trigger] self@.workspaces[j],
                        mviews(connected@),
                    ) <= match_score(self@.workspaces[i as int], mviews(connected@))
                    &&& forall|j: int| 0 <= j < i ==> match_score(
                        #[trigger] self@.workspaces[j],
                        mviews(connected@),
                    ) < match_score(self@.workspaces[i as int], mviews(connected@))
                },
                None => forall|j: int| 0 <= j < self@.workspaces.len() ==> match_score(
                    #[trigger] self@.workspaces[j],
                    mviews(connected@),
                ) == 0,
            },
    {
        let ghost conn = mviews(connected@);
        let n = self.workspaces.len();
        let mut best_idx: Option<usize> = None;
        let mut best_score: usize = 0;
        let mut idx: usize = 0;
        while idx < n
            invariant
                idx <= n,
                n == self@.workspaces.len(),
                conn == mviews(connected@),
                match best_idx {
                    Some(i) => {
                        &&& 0 <= i < idx
                        &&& best_score == match_score(self@.workspaces[i as int], conn)
                        &&& best_score > 0
                        &&& forall|j: int| 0 <= j < idx ==> match_score(
                            #[trigger] self@.workspaces[j],
                            conn,
                        ) <= best_score
                        &&& forall|j: int| 0 <= j < i ==> match_score(
                            #[trigger] self@.workspaces[j],
                            conn,
                        ) < best_score
                    },
                    None => best_score == 0 && forall|j: int| 0 <= j < idx ==> match_score(
                        #[trigger] self@.workspaces[j],
                        conn,
                    ) == 0,
                },
            decreases n - idx,
        {
            let score = self.workspaces[idx].matches_monitors(connected);
            if score > best_score {
                best_score = score;
                best_idx = Some(idx);
            }
            idx = idx + 1;
        }
        best_idx
    }

    /// Emits the compositor configuration for every saved monitor across all
    /// workspaces: entries are merged by key in workspace order (a later
    /// workspace overwrites an earlier one, at the key's first-seen
    /// position), one line each, with a trailing fallback rule.
    pub fn generate_full_config(&self) -> (out: String)
        ensures
            out@ == full_config(self@),
    {
        let ghost wss = self@.workspaces;
        // merge the entries of all workspaces by key
        let mut merged: Vec<SavedEntry> = Vec::new();
        let mut w: usize = 0;
        proof {
            assert(wss.subrange(0, 0) =~= Seq::<WorkspaceView>::empty());
            assert(entry_views(merged@) =~= merge_entries(all_entries(wss.subrange(0, 0))));
        }
        while w < self.workspaces.len()
            invariant
                w <= self.workspaces@.len(),
                wss == self@.workspaces,
                entry_views(merged@) == merge_entries(all_entries(wss.subrange(0, w as int))),
            decreases self.workspaces@.len() - w,
        {
            let ws = &self.workspaces[w];
            let ghost base = all_entries(wss.subrange(0, w as int));
            let mut e: usize = 0;
            proof {
                assert(ws@.monitors.subrange(0, 0) =~= Seq::<SavedEntryView>::empty());
                assert(base + ws@.monitors.subrange(0, 0) =~= base);
            }
            while e < ws.monitors.len()
                invariant
                    e <= ws.monitors@.len(),
                    ws@ == wss[w as int],
                    0 <= w < wss.len(),
                    entry_views(merged@) == merge_entries(
                        base + ws@.monitors.subrange(0, e as int),
                    ),
                decreases ws.monitors@.len() - e,
            {
                let entry = &ws.monitors[e];
                upsert_entry(&mut merged, entry.key.clone(), entry.monitor.duplicate());
                proof {
                    let pre = base + ws@.monitors.subrange(0, e as int);
                    let cur = base + ws@.monitors.subrange(0, e + 1);
                    assert(cur =~= pre.push(ws@.monitors[e as int]));
                    assert(cur.drop_last() =~= pre);
                    assert(merge_entries(cur) == upsert(
                        merge_entries(pre),
                        ws@.monitors[e as int].key,
                        ws@.monitors[e as int].monitor,
                    ));
                }
                e = e + 1;
            }
            proof {
                assert(ws@.monitors.subrange(0, ws.monitors@.len() as int) =~= ws@.monitors);
                assert(wss.subrange(0, w + 1).drop_last() =~= wss.subrange(0, w as int));
                assert(all_entries(wss.subrange(0, w + 1)) =~= base + ws@.monitors);
            }
            w = w + 1;
        }
        proof {
            assert(wss.subrange(0, wss.len() as int) =~= wss);
        }
        let ghost entries = entry_views(merged@);
        // emit the text
        let mut out = String::from_str(
            "# Hyprland Monitor Configuration\n# Generated by hyprmon\n# Contains ALL configured monitors from all workspaces\n\n",
        );
        let mut i: usize = 0;
        proof {
            assert(entries.subrange(0, 0) =~= Seq::<SavedEntryView>::empty());
            assert(out@ =~= config_header() + config_lines(entries.subrange(0, 0)));
        }
        while i < merged.len()
            invariant
                i <= merged@.len(),
                entries == entry_views(merged@),
                out@ == config_header() + config_lines(entries.subrange(0, i as int)),
            decreases merged@.len() - i,
        {
            let line = config_line_of(&merged[i]);
            out.append(line.as_str());
            proof {
                assert(entries.subrange(0, i + 1).drop_last() =~= entries.subrange(0, i as int));
                assert(entries.subrange(0, i + 1).last() == entries[i as int]);
                assert(out@ =~= config_header() + config_lines(entries.subrange(0, i + 1)));
            }
            i = i + 1;
        }
        proof {
            assert(entries.subrange(0, merged@.len() as int) =~= entries);
        }
        out.append("\n# Fallback for unknown monitors\nmonitor=,preferred,auto,1\n");
        proof {
            assert(out@ =~= full_config(self@));
        }
        out
    }

    /// The saved monitors of a workspace, converted back to live monitor
    /// descriptors for display; an out-of-range index gives an empty list.
    pub fn get_workspace_monitors(&self, ws_idx: usize) -> (r: Vec<MonitorConfig>)
        ensures
            ws_idx < self@.workspaces.len() ==> {
                &&& r@.len() == self@.workspaces[ws_idx as int].monitors.len()
                &&& forall|i: int| 0 <= i < r@.len() ==> (#[trigger] r@[i])@ == saved_as_monitor(
                    self@.workspaces[ws_idx as int].monitors[i],
                )
            },
            ws_idx >= self@.workspaces.len() ==> r@.len() == 0,
    {
        let mut r: Vec<MonitorConfig> = Vec::new();
        if ws_idx >= self.workspaces.len() {
            return r;
        }
        let ws = &self.workspaces[ws_idx];
        let mut i: usize = 0;
        while i < ws.monitors.len()
            invariant
                i <= ws.monitors@.len(),
                ws_idx < self@.workspaces.len(),
                ws@ == self@.workspaces[ws_idx as int],
                r@.len() == i,
                forall|k: int| 0 <= k < i ==> (#[trigger] r@[k])@ == saved_as_monitor(
                    ws@.monitors[k],
                ),
            decreases ws.monitors@.len() - i,
        {
            let entry = &ws.monitors[i];
            let m = saved_entry_to_monitor(entry);
            proof {
                assert(ws@.monitors[i as int] == entry@);
            }
            r.push(m);
            i = i + 1;
        }
        r
    }
}

/// Emits one line of the exported configuration.
fn config_line_of(entry: &SavedEntry) -> (out: String)
    ensures
        out@ == config_line(entry@),
{
    let mut out = String::from_str("monitor=");
    out.append(entry.key.as_str());
    out.append(",");
    out.append(entry.monitor.resolution.as_str());
    out.append("@");
    let rate = crate::text::centi_string(entry.monitor.refresh_rate as u64);
    out.append(rate.as_str());
    out.append(",");
    let px = crate::text::int_string(entry.monitor.position_x as i64);
    out.append(px.as_str());
    out.append("x");
    let py = crate::text::int_string(entry.monitor.position_y as i64);
    out.append(py.as_str());
    out.append(",");
    if entry.monitor.scale % 100 == 0 {
        let sc = crate::text::dec_string((entry.monitor.scale / 100) as u64);
        out.append(sc.as_str());
    } else {
        let sc = crate::text::centi_string(entry.monitor.scale as u64);
        out.append(sc.as_str());
    }
    if entry.monitor.rotation != 0 {
        out.append(",transform,");
        let rot = crate::text::dec_string(entry.monitor.rotation as u64);
        out.append(rot.as_str());
    }
    out.append("\n");
    proof {
        assert(out@ =~= config_line(entry@));
    }
    out
}

/// Make and model recovered from a `desc:` key: the text after the prefix is
/// split at its last space; without a space, it is all model.
pub open spec fn desc_split(k: Seq<char>) -> (Seq<char>, Seq<char>) {
    let desc = k.skip(5);
    let sp = crate::text::rfind_char(desc, ' ');
    if sp < 0 {
        (Seq::empty(), desc)
    } else {
        (desc.subrange(0, sp), desc.skip(sp + 1))
    }
}

/// Rounding of a rate in hundredths to whole units, half rounded up.
pub open spec fn round_hz(centi: nat) -> nat {
    (centi + 50) / 100
}

/// A saved entry seen as a live monitor descriptor: identity recovered from
/// the key, one available mode synthesized from its resolution and rate.
pub open spec fn saved_as_monitor(e: SavedEntryView) -> MonitorView {
    let mode = e.monitor.resolution + "@"@ + crate::text::dec_digits(
        round_hz(e.monitor.refresh_rate as nat),
    ) + "Hz"@;
    let mm = if has_prefix(e.key, "desc:"@) {
        desc_split(e.key)
    } else {
        (Seq::<char>::empty(), e.key)
    };
    MonitorView {
        name: e.key,
        make: mm.0,
        model: mm.1,
        resolution: e.monitor.resolution,
        refresh_rate: e.monitor.refresh_rate,
        position_x: e.monitor.position_x,
        position_y: e.monitor.position_y,
        scale: e.monitor.scale,
        rotation: Rotation::spec_from_transform(e.monitor.rotation),
        is_primary: e.monitor.is_primary,
        modes: seq![mode],
    }
}

/// Converts one saved entry back to a live monitor descriptor.
fn saved_entry_to_monitor(entry: &SavedEntry) -> (r: MonitorConfig)
    ensures
        r@ == saved_as_monitor(entry@),
{
    let key = &entry.key;
    let n = key.as_str().unicode_len();
    let (make, model) = if crate::text::str_has_prefix(key.as_str(), "desc:") {
        proof {
            reveal_strlit("desc:");
        }
        let desc = key.as_str().substring_char(5, n);
        match crate::text::rfind_char_in(desc, ' ') {
            Some(sp) => {
                let make = String::from_str(desc.substring_char(0, sp));
                let model = String::from_str(desc.substring_char(sp + 1, n - 5));
                proof {
                    assert(desc@ =~= entry.key@.skip(5));
                    assert(make@ =~= desc_split(entry.key@).0);
                    assert(model@ =~= desc_split(entry.key@).1);
                }
                (make, model)
            },
            None => {
                let make = String::new();
                let model = String::from_str(desc);
                proof {
                    assert(desc@ =~= entry.key@.skip(5));
                    assert(make@ =~= desc_split(entry.key@).0);
                    assert(model@ =~= desc_split(entry.key@).1);
                }
                (make, model)
            },
        }
    } else {
        (String::new(), key.clone())
    };
    let mut mode = entry.monitor.resolution.clone();
    mode.append("@");
    let rounded: u64 = ((entry.monitor.refresh_rate as u64) + 50) / 100;
    let rate = crate::text::dec_string(rounded);
    mode.append(rate.as_str());
    mode.append("Hz");
    let mut modes: Vec<String> = Vec::new();
    modes.push(mode);
    let r = MonitorConfig {
        name: key.clone(),
        make,
        model,
        resolution: entry.monitor.resolution.clone(),
        refresh_rate: entry.monitor.refresh_rate,
        position_x: entry.monitor.position_x,
        position_y: entry.monitor.position_y,
        scale: entry.monitor.scale,
        rotation: Rotation::from_transform(entry.monitor.rotation),
        is_primary: entry.monitor.is_primary,
        available_modes: modes,
    };
    proof {
        assert(r@ =~~= saved_as_monitor(entry@));
    }
    r
}

} // verus!
