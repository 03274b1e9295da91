//! The persisted store's document format: a compact text of shape
//! `{"workspaces":[...],"active_workspace":N}`, written by [`encode_db`] and
//! read back by [`decode_db`]. Decoding an encoding yields the database
//! back; quotes and backslashes in names and keys are escaped, so any text
//! can be held. The format is the store's own: fields stand in the fixed
//! order the encoder writes, with no whitespace between tokens; a monitor's
//! `is_primary` may be left out and defaults off, and a document may end
//! without `active_workspace`, which defaults to 0. A document from any
//! other writer — reordered fields, added whitespace — reads as malformed,
//! and the caller falls back to a fresh default store, the same outcome an
//! unreadable or absent document has. Loaded documents are repaired: an
//! empty workspace list becomes one `Default` workspace, and an
//! out-of-range active index is clamped.

use vstd::prelude::*;

use crate::db::{DbView, MonitorDatabase, SavedEntry, SavedEntryView, SavedMonitor,
    SavedMonitorView, Workspace, WorkspaceView};
use crate::text::{centi_digits, dec_digits, digits_val, int_digits};

verus! {

/// Text between double quotes.
pub open spec fn quoted(t: Seq<char>) -> Seq<char> {
    seq!['"'] + esc(t) + seq!['"']
}

/// Escaping of one character inside a quoted string: a quote or backslash
/// gets a backslash before it; every other character stands as itself.
pub open spec fn esc_char(c: char) -> Seq<char> {
    if c == '"' || c == '\\' {
        seq!['\\', c]
    } else {
        seq![c]
    }
}

/// Escaping of a whole text, character by character. Any text at all can be
/// held in the store this way.
pub open spec fn esc(t: Seq<char>) -> Seq<char>
    decreases t.len(),
{
    if t.len() == 0 {
        Seq::empty()
    } else {
        esc_char(t[0]) + esc(t.skip(1))
    }
}

/// Escaping distributes over concatenation.
proof fn lemma_esc_concat(a: Seq<char>, b: Seq<char>)
    ensures
        esc(a + b) == esc(a) + esc(b),
    decreases a.len(),
{
    if a.len() == 0 {
        assert(a + b =~= b);
        assert(esc(a) + esc(b) =~= esc(b));
    } else {
        assert((a + b)[0] == a[0]);
        assert((a + b).skip(1) =~= a.skip(1) + b);
        lemma_esc_concat(a.skip(1), b);
        assert(esc_char(a[0]) + (esc(a.skip(1)) + esc(b)) =~= (esc_char(a[0]) + esc(a.skip(1)))
            + esc(b));
        assert(esc(a + b) =~= esc(a) + esc(b));
    }
}

/// The escaping of one character.
proof fn lemma_esc_single(c: char)
    ensures
        esc(seq![c]) == esc_char(c),
{
    assert(seq![c].skip(1) =~= Seq::<char>::empty());
    assert(esc(Seq::<char>::empty()) =~= Seq::<char>::empty());
    assert(esc(seq![c]) == esc_char(c) + esc(seq![c].skip(1)));
    assert(esc_char(c) + Seq::<char>::empty() =~= esc_char(c));
}

/// Encoding of a saved monitor: an object with its fields in fixed order,
/// rates and scales with two decimals.
pub open spec fn enc_saved(s: SavedMonitorView) -> Seq<char> {
    "{\"resolution\":"@ + quoted(s.resolution) + ",\"refresh_rate\":"@ + centi_digits(
        s.refresh_rate as nat,
    ) + ",\"scale\":"@ + centi_digits(s.scale as nat) + ",\"rotation\":"@ + dec_digits(
        s.rotation as nat,
    ) + ",\"position_x\":"@ + int_digits(s.position_x as int) + ",\"position_y\":"@ + int_digits(
        s.position_y as int,
    ) + ",\"is_primary\":"@ + (if s.is_primary {
        "true"@
    } else {
        "false"@
    }) + "}"@
}

/// Encoding of one saved entry: the quoted key, a colon, the monitor.
pub open spec fn enc_entry(e: SavedEntryView) -> Seq<char> {
    quoted(e.key) + ":"@ + enc_saved(e.monitor)
}

/// Encoding of a workspace's entries, comma-separated.
pub open spec fn enc_entries(es: Seq<SavedEntryView>) -> Seq<char>
    decreases es.len(),
{
    if es.len() == 0 {
        Seq::empty()
    } else if es.len() == 1 {
        enc_entry(es[0])
    } else {
        enc_entry(es[0]) + ","@ + enc_entries(es.drop_first())
    }
}

/// Encoding of a workspace: its name and its entry map.
pub open spec fn enc_ws(w: WorkspaceView) -> Seq<char> {
    "{\"name\":"@ + quoted(w.name) + ",\"monitors\":{"@ + enc_entries(w.monitors) + "}}"@
}

/// Encoding of the workspace list, comma-separated.
pub open spec fn enc_ws_list(wss: Seq<WorkspaceView>) -> Seq<char>
    decreases wss.len(),
{
    if wss.len() == 0 {
        Seq::empty()
    } else if wss.len() == 1 {
        enc_ws(wss[0])
    } else {
        enc_ws(wss[0]) + ","@ + enc_ws_list(wss.drop_first())
    }
}

/// Encoding of the whole database.
pub open spec fn enc_db(db: DbView) -> Seq<char> {
    "{\"workspaces\":["@ + enc_ws_list(db.workspaces) + "],\"active_workspace\":"@ + dec_digits(
        db.active_workspace as nat,
    ) + "}"@
}

/// Appends a text with its quotes and backslashes escaped.
fn append_escaped(out: &mut String, t: &str)
    ensures
        final(out)@ == old(out)@ + esc(t@),
{
    let n = t.unicode_len();
    let mut i: usize = 0;
    proof {
        assert(t@.subrange(0, 0) =~= Seq::<char>::empty());
        assert(old(out)@ + esc(t@.subrange(0, 0)) =~= old(out)@);
    }
    while i < n
        invariant
            i <= n,
            n == t@.len(),
            out@ == old(out)@ + esc(t@.subrange(0, i as int)),
        decreases n - i,
    {
        let c = t.get_char(i);
        proof {
            assert(t@.subrange(0, i + 1) =~= t@.subrange(0, i as int) + seq![c]);
            lemma_esc_concat(t@.subrange(0, i as int), seq![c]);
            lemma_esc_single(c);
        }
        if c == '"' || c == '\\' {
            crate::text::push_char(out, '\\');
        }
        crate::text::push_char(out, c);
        proof {
            assert(out@ =~= old(out)@ + esc(t@.subrange(0, i + 1)));
        }
        i = i + 1;
    }
    proof {
        assert(t@.subrange(0, n as int) =~= t@);
    }
}

/// Appends a text between double quotes, escaped.
fn append_quoted(out: &mut String, t: &str)
    ensures
        final(out)@ == old(out)@ + quoted(t@),
{
    out.append("\"");
    append_escaped(out, t);
    out.append("\"");
    proof {
        reveal_strlit("\"");
        assert("\""@ =~= seq!['"']);
        assert(out@ =~= old(out)@ + quoted(t@));
    }
}

/// Writes one saved monitor.
fn encode_saved(s: &SavedMonitor) -> (out: String)
    ensures
        out@ == enc_saved(s@),
{
    let mut out = String::from_str("{\"resolution\":");
    append_quoted(&mut out, s.resolution.as_str());
    out.append(",\"refresh_rate\":");
    let r = crate::text::centi_string(s.refresh_rate as u64);
    out.append(r.as_str());
    out.append(",\"scale\":");
    let sc = crate::text::centi_string(s.scale as u64);
    out.append(sc.as_str());
    out.append(",\"rotation\":");
    let rot = crate::text::dec_string(s.rotation as u64);
    out.append(rot.as_str());
    out.append(",\"position_x\":");
    let px = crate::text::int_string(s.position_x as i64);
    out.append(px.as_str());
    out.append(",\"position_y\":");
    let py = crate::text::int_string(s.position_y as i64);
    out.append(py.as_str());
    out.append(",\"is_primary\":");
    if s.is_primary {
        out.append("true");
    } else {
        out.append("false");
    }
    out.append("}");
    proof {
        reveal_strlit("\"");
        assert("\""@ =~= seq!['"']);
        assert(out@ =~= enc_saved(s@));
    }
    out
}

/// Writes one workspace.
fn encode_ws(w: &Workspace) -> (out: String)
    ensures
        out@ == enc_ws(w@),
{
    let mut out = String::from_str("{\"name\":");
    append_quoted(&mut out, w.name.as_str());
    out.append(",\"monitors\":{");
    let n = w.monitors.len();
    let mut i: usize = 0;
    proof {
        reveal_strlit("\"");
        assert("\""@ =~= seq!['"']);
        assert(out@ =~= "{\"name\":"@ + quoted(w@.name) + ",\"monitors\":{"@);
    }
    while i < n
        invariant
            i <= n,
            n == w.monitors@.len(),
            w@.monitors.len() == n,
            forall|k: int| 0 <= k < n ==> w@.monitors[k] == (#[trigger] w.monitors@[k])@,
            out@ == "{\"name\":"@ + quoted(w@.name) + ",\"monitors\":{"@
                + enc_entries_prefix(w@.monitors, i as int),
        decreases n - i,
    {
        if i > 0 {
            out.append(",");
        }
        let e = &w.monitors[i];
        append_quoted(&mut out, e.key.as_str());
        out.append(":");
        let saved = encode_saved(&e.monitor);
        out.append(saved.as_str());
        proof {
            reveal_strlit("\"");
            assert("\""@ =~= seq!['"']);
            lemma_enc_entries_prefix_step(w@.monitors, i as int);
            assert(out@ =~= "{\"name\":"@ + quoted(w@.name) + ",\"monitors\":{"@
                + enc_entries_prefix(w@.monitors, i + 1));
        }
        i = i + 1;
    }
    out.append("}}");
    proof {
        lemma_enc_entries_prefix_full(w@.monitors);
        assert(out@ =~= enc_ws(w@));
    }
    out
}

/// The encoding of the first `i` entries, with a trailing comma boundary
/// exactly as the full encoding has it.
pub open spec fn enc_entries_prefix(es: Seq<SavedEntryView>, i: int) -> Seq<char>
    decreases i,
{
    if i <= 0 {
        Seq::empty()
    } else if i == 1 {
        enc_entry(es[0])
    } else {
        enc_entries_prefix(es, i - 1) + ","@ + enc_entry(es[i - 1])
    }
}

proof fn lemma_enc_entries_prefix_step(es: Seq<SavedEntryView>, i: int)
    requires
        0 <= i < es.len(),
    ensures
        i == 0 ==> enc_entries_prefix(es, 1) == enc_entry(es[0]),
        i > 0 ==> enc_entries_prefix(es, i + 1) == enc_entries_prefix(es, i) + ","@ + enc_entry(
            es[i],
        ),
{
}

/// The prefix encoding of the whole list is its encoding.
proof fn lemma_enc_entries_prefix_full(es: Seq<SavedEntryView>)
    ensures
        enc_entries_prefix(es, es.len() as int) == enc_entries(es),
    decreases es.len(),
{
    if es.len() > 1 {
        lemma_enc_entries_prefix_full(es.drop_first());
        lemma_enc_entries_prefix_shift(es, es.len() as int);
    }
}

/// A prefix encoding steps through `drop_first` like the full encoding does.
proof fn lemma_enc_entries_prefix_shift(es: Seq<SavedEntryView>, i: int)
    requires
        2 <= i <= es.len(),
    ensures
        enc_entries_prefix(es, i) == enc_entry(es[0]) + ","@ + enc_entries_prefix(
            es.drop_first(),
            i - 1,
        ),
    decreases i,
{
    if i == 2 {
        assert(es.drop_first()[0] == es[1]);
        assert(enc_entries_prefix(es, 1) == enc_entry(es[0]));
        assert(enc_entries_prefix(es, 2) == enc_entries_prefix(es, 1) + ","@ + enc_entry(es[1]));
        assert(enc_entries_prefix(es.drop_first(), 1) == enc_entry(es[1]));
    } else {
        lemma_enc_entries_prefix_shift(es, i - 1);
        assert(es.drop_first()[i - 2] == es[i - 1]);
        assert((enc_entry(es[0]) + ","@ + enc_entries_prefix(es.drop_first(), i - 2)) + ","@
            + enc_entry(es[i - 1]) =~= enc_entry(es[0]) + ","@ + (enc_entries_prefix(
            es.drop_first(),
            i - 2,
        ) + ","@ + enc_entry(es[i - 1])));
    }
}

/// The encoding of the first `i` workspaces.
pub open spec fn enc_ws_prefix(wss: Seq<WorkspaceView>, i: int) -> Seq<char>
    decreases i,
{
    if i <= 0 {
        Seq::empty()
    } else if i == 1 {
        enc_ws(wss[0])
    } else {
        enc_ws_prefix(wss, i - 1) + ","@ + enc_ws(wss[i - 1])
    }
}

proof fn lemma_enc_ws_prefix_full(wss: Seq<WorkspaceView>)
    ensures
        enc_ws_prefix(wss, wss.len() as int) == enc_ws_list(wss),
    decreases wss.len(),
{
    if wss.len() > 1 {
        lemma_enc_ws_prefix_full(wss.drop_first());
        lemma_enc_ws_prefix_shift(wss, wss.len() as int);
    }
}

#[verifier::rlimit(100)]
proof fn lemma_enc_ws_prefix_shift(wss: Seq<WorkspaceView>, i: int)
    requires
        2 <= i <= wss.len(),
    ensures
        enc_ws_prefix(wss, i) == enc_ws(wss[0]) + ","@ + enc_ws_prefix(wss.drop_first(), i - 1),
    decreases i,
{
    if i == 2 {
        assert(wss.drop_first()[0] == wss[1]);
        assert(enc_ws_prefix(wss, 1) == enc_ws(wss[0]));
        assert(enc_ws_prefix(wss, 2) == enc_ws_prefix(wss, 1) + ","@ + enc_ws(wss[1]));
        assert(enc_ws_prefix(wss.drop_first(), 1) == enc_ws(wss[1]));
    } else {
        lemma_enc_ws_prefix_shift(wss, i - 1);
        assert(wss.drop_first()[i - 2] == wss[i - 1]);
        assert((enc_ws(wss[0]) + ","@ + enc_ws_prefix(wss.drop_first(), i - 2)) + ","@ + enc_ws(
            wss[i - 1],
        ) =~= enc_ws(wss[0]) + ","@ + (enc_ws_prefix(wss.drop_first(), i - 2) + ","@ + enc_ws(
            wss[i - 1],
        )));
    }
}

/// Writes the whole database as its persisted document.
pub fn encode_db(db: &MonitorDatabase) -> (out: String)
    ensures
        out@ == enc_db(db@),
{
    let mut out = String::from_str("{\"workspaces\":[");
    let n = db.workspaces.len();
    let mut i: usize = 0;
    proof {
        assert(out@ =~= "{\"workspaces\":["@ + enc_ws_prefix(db@.workspaces, 0));
    }
    while i < n
        invariant
            i <= n,
            n == db.workspaces@.len(),
            db@.workspaces.len() == n,
            forall|k: int| 0 <= k < n ==> db@.workspaces[k] == (#[trigger] db.workspaces@[k])@,
            out@ == "{\"workspaces\":["@ + enc_ws_prefix(db@.workspaces, i as int),
        decreases n - i,
    {
        if i > 0 {
            out.append(",");
        }
        let ws = encode_ws(&db.workspaces[i]);
        out.append(ws.as_str());
        proof {
            assert(out@ =~= "{\"workspaces\":["@ + enc_ws_prefix(db@.workspaces, i + 1));
        }
        i = i + 1;
    }
    out.append("],\"active_workspace\":");
    let a = crate::text::dec_string(db.active_workspace as u64);
    out.append(a.as_str());
    out.append("}");
    proof {
        lemma_enc_ws_prefix_full(db@.workspaces);
        assert(out@ =~= enc_db(db@));
    }
    out
}

/// Fixed-text match: the position after the literal when it stands at `pos`.
pub open spec fn parse_lit(s: Seq<char>, pos: int, lit: Seq<char>) -> Option<int> {
    if 0 <= pos && pos + lit.len() <= s.len() && s.subrange(pos, pos + lit.len() as int) == lit {
        Some(pos + lit.len() as int)
    } else {
        None
    }
}

/// Content of a quoted string from `pos` (just after the opening quote) up
/// to the closing quote, with escapes undone: a backslash must be followed
/// by a quote or a backslash, which it stands for; everything else stands
/// for itself.
pub open spec fn parse_qcontent(s: Seq<char>, pos: int) -> Option<(Seq<char>, int)>
    decreases s.len() - pos,
{
    if pos < 0 || pos >= s.len() {
        None
    } else if s[pos] == '"' {
        Some((Seq::empty(), pos + 1))
    } else if s[pos] == '\\' {
        if pos + 2 <= s.len() && (s[pos + 1] == '"' || s[pos + 1] == '\\') {
            match parse_qcontent(s, pos + 2) {
                None => None,
                Some(r) => Some((seq![s[pos + 1]] + r.0, r.1)),
            }
        } else {
            None
        }
    } else {
        match parse_qcontent(s, pos + 1) {
            None => None,
            Some(r) => Some((seq![s[pos]] + r.0, r.1)),
        }
    }
}

/// Quoted, escaped text at `pos`: its unescaped content and the position
/// after the closing quote.
pub open spec fn parse_quoted(s: Seq<char>, pos: int) -> Option<(Seq<char>, int)> {
    if 0 <= pos < s.len() && s[pos] == '"' {
        parse_qcontent(s, pos + 1)
    } else {
        None
    }
}

/// A boolean literal at `pos`.
pub open spec fn parse_bool(s: Seq<char>, pos: int) -> Option<(bool, int)> {
    match parse_lit(s, pos, "true"@) {
        Some(p) => Some((true, p)),
        None => match parse_lit(s, pos, "false"@) {
            Some(p) => Some((false, p)),
            None => None,
        },
    }
}

/// A signed decimal at `pos` that fits `i32`.
pub open spec fn parse_i32(s: Seq<char>, pos: int) -> Option<(int, int)> {
    if 0 <= pos < s.len() && s[pos] == '-' {
        match crate::text::spec_parse_u64(s, pos + 1) {
            Some(p) => if p.0 <= 0x8000_0000u64 {
                Some((-(p.0 as int), p.1))
            } else {
                None
            },
            None => None,
        }
    } else {
        match crate::text::spec_parse_u64(s, pos) {
            Some(p) => if p.0 <= i32::MAX as u64 {
                Some((p.0 as int, p.1))
            } else {
                None
            },
            None => None,
        }
    }
}

/// A decimal with exactly two fraction digits at `pos`, as a value in
/// hundredths that fits `u32`.
pub open spec fn parse_centi(s: Seq<char>, pos: int) -> Option<(int, int)> {
    match crate::text::spec_parse_u64(s, pos) {
        Some(ip) => {
            let p = ip.1;
            if p + 3 <= s.len() && s[p] == '.' && crate::text::is_digit_char(s[p + 1])
                && crate::text::is_digit_char(s[p + 2]) {
                let v = ip.0 * 100 + crate::text::digit_val(s[p + 1]) * 10
                    + crate::text::digit_val(s[p + 2]);
                if v <= u32::MAX {
                    Some((v as int, p + 3))
                } else {
                    None
                }
            } else {
                None
            }
        },
        None => None,
    }
}

/// A saved monitor object at `pos`; only well-formed monitors parse.
pub open spec fn parse_saved(s: Seq<char>, pos: int) -> Option<(SavedMonitorView, int)> {
    match parse_lit(s, pos, "{\"resolution\":"@) {
        None => None,
        Some(p1) => match parse_quoted(s, p1) {
            None => None,
            Some((resolution, p2)) => match parse_lit(s, p2, ",\"refresh_rate\":"@) {
                None => None,
                Some(p3) => match parse_centi(s, p3) {
                    None => None,
                    Some((refresh, p4)) => match parse_lit(s, p4, ",\"scale\":"@) {
                        None => None,
                        Some(p5) => match parse_centi(s, p5) {
                            None => None,
                            Some((scale, p6)) => if scale == 0 {
                                None
                            } else {
                                match parse_lit(s, p6, ",\"rotation\":"@) {
                                    None => None,
                                    Some(p7) => match crate::text::spec_parse_u64(s, p7) {
                                        None => None,
                                        Some((rot, p8)) => if rot > 3 {
                                            None
                                        } else {
                                            parse_saved_tail(
                                                s,
                                                p8,
                                                resolution,
                                                refresh,
                                                scale,
                                                rot as int,
                                            )
                                        },
                                    },
                                }
                            },
                        },
                    },
                },
            },
        },
    }
}

/// The positions and primary flag of a saved monitor object, after the
/// rotation.
pub open spec fn parse_saved_tail(
    s: Seq<char>,
    pos: int,
    resolution: Seq<char>,
    refresh: int,
    scale: int,
    rot: int,
) -> Option<(SavedMonitorView, int)> {
    match parse_lit(s, pos, ",\"position_x\":"@) {
        None => None,
        Some(p1) => match parse_i32(s, p1) {
            None => None,
            Some((px, p2)) => match parse_lit(s, p2, ",\"position_y\":"@) {
                None => None,
                Some(p3) => match parse_i32(s, p3) {
                    None => None,
                    Some((py, p4)) => match parse_lit(s, p4, ",\"is_primary\":"@) {
                        // the primary flag may be left out; it defaults off
                        None => match parse_lit(s, p4, "}"@) {
                            None => None,
                            Some(p7) => Some(
                                (
                                    SavedMonitorView {
                                        resolution,
                                        refresh_rate: refresh as u32,
                                        scale: scale as u32,
                                        rotation: rot as u8,
                                        position_x: px as i32,
                                        position_y: py as i32,
                                        is_primary: false,
                                    },
                                    p7,
                                ),
                            ),
                        },
                        Some(p5) => match parse_bool(s, p5) {
                            None => None,
                            Some((primary, p6)) => match parse_lit(s, p6, "}"@) {
                                None => None,
                                Some(p7) => Some(
                                    (
                                        SavedMonitorView {
                                            resolution,
                                            refresh_rate: refresh as u32,
                                            scale: scale as u32,
                                            rotation: rot as u8,
                                            position_x: px as i32,
                                            position_y: py as i32,
                                            is_primary: primary,
                                        },
                                        p7,
                                    ),
                                ),
                            },
                        },
                    },
                },
            },
        },
    }
}

/// One saved entry at `pos`: quoted key, colon, monitor object.
pub open spec fn parse_entry(s: Seq<char>, pos: int) -> Option<(SavedEntryView, int)> {
    match parse_quoted(s, pos) {
        None => None,
        Some((key, p1)) => match parse_lit(s, p1, ":"@) {
            None => None,
            Some(p2) => match parse_saved(s, p2) {
                None => None,
                Some((m, p3)) => Some((SavedEntryView { key, monitor: m }, p3)),
            },
        },
    }
}

/// Comma-separated entries at `pos`, up to (not consuming) a closing brace.
pub open spec fn parse_entries(s: Seq<char>, pos: int) -> Option<(Seq<SavedEntryView>, int)>
    decreases s.len() - pos,
{
    if pos < 0 || pos >= s.len() {
        None
    } else if s[pos] == '}' {
        Some((Seq::empty(), pos))
    } else {
        match parse_entry(s, pos) {
            None => None,
            Some((e, p1)) => if !(pos < p1 <= s.len()) {
                None
            } else if p1 < s.len() && s[p1] == ',' {
                match parse_entries(s, p1 + 1) {
                    None => None,
                    Some((rest, p2)) => if rest.len() == 0 {
                        None
                    } else {
                        Some((seq![e] + rest, p2))
                    },
                }
            } else {
                Some((seq![e], p1))
            },
        }
    }
}

/// One workspace object at `pos`; its entry keys must be distinct.
pub open spec fn parse_ws(s: Seq<char>, pos: int) -> Option<(WorkspaceView, int)> {
    match parse_lit(s, pos, "{\"name\":"@) {
        None => None,
        Some(p1) => match parse_quoted(s, p1) {
            None => None,
            Some((name, p2)) => match parse_lit(s, p2, ",\"monitors\":{"@) {
                None => None,
                Some(p3) => match parse_entries(s, p3) {
                    None => None,
                    Some((entries, p4)) => if !crate::db::keys_distinct(entries) {
                        None
                    } else {
                        match parse_lit(s, p4, "}}"@) {
                            None => None,
                            Some(p5) => Some((WorkspaceView { name, monitors: entries }, p5)),
                        }
                    },
                },
            },
        },
    }
}

/// Comma-separated workspaces at `pos`, up to (not consuming) a closing
/// bracket.
pub open spec fn parse_ws_list(s: Seq<char>, pos: int) -> Option<(Seq<WorkspaceView>, int)>
    decreases s.len() - pos,
{
    if pos < 0 || pos >= s.len() {
        None
    } else if s[pos] == ']' {
        Some((Seq::empty(), pos))
    } else {
        match parse_ws(s, pos) {
            None => None,
            Some((w, p1)) => if !(pos < p1 <= s.len()) {
                None
            } else if p1 < s.len() && s[p1] == ',' {
                match parse_ws_list(s, p1 + 1) {
                    None => None,
                    Some((rest, p2)) => if rest.len() == 0 {
                        None
                    } else {
                        Some((seq![w] + rest, p2))
                    },
                }
            } else {
                Some((seq![w], p1))
            },
        }
    }
}

/// The whole document: the workspace list and the active index, consuming
/// the entire text. A document without the active index reads as index 0.
pub open spec fn parse_db(s: Seq<char>) -> Option<(Seq<WorkspaceView>, int)> {
    match parse_lit(s, 0, "{\"workspaces\":["@) {
        None => None,
        Some(p1) => match parse_ws_list(s, p1) {
            None => None,
            Some((wss, p2)) => match parse_lit(s, p2, "],\"active_workspace\":"@) {
                None => match parse_lit(s, p2, "]}"@) {
                    None => None,
                    Some(p5) => if p5 == s.len() {
                        Some((wss, 0))
                    } else {
                        None
                    },
                },
                Some(p3) => match crate::text::spec_parse_u64(s, p3) {
                    None => None,
                    Some((active, p4)) => match parse_lit(s, p4, "}"@) {
                        None => None,
                        Some(p5) => if p5 == s.len() && active <= usize::MAX as u64 {
                            Some((wss, active as int))
                        } else {
                            None
                        },
                    },
                },
            },
        },
    }
}

/// The default workspace synthesized on load of an empty list.
pub open spec fn default_ws_view() -> WorkspaceView {
    WorkspaceView { name: "Default"@, monitors: Seq::empty() }
}

/// Load repair: an empty workspace list becomes one `Default` workspace, and
/// the active index is clamped into range.
pub open spec fn repair(wss: Seq<WorkspaceView>, active: int) -> DbView {
    let wss2 = if wss.len() == 0 {
        seq![default_ws_view()]
    } else {
        wss
    };
    let active2 = if active >= wss2.len() {
        wss2.len() - 1
    } else {
        active
    };
    DbView { workspaces: wss2, active_workspace: active2 }
}

/// Meaning of a persisted document: the parsed and repaired database, or
/// nothing when the text is not a well-formed document.
pub open spec fn spec_decode(s: Seq<char>) -> Option<DbView> {
    match parse_db(s) {
        None => None,
        Some((wss, active)) => Some(repair(wss, active)),
    }
}

/// Whatever an entry-list parse yields is well formed entry by entry.
proof fn lemma_parse_entries_wf(s: Seq<char>, pos: int)
    ensures
        parse_entries(s, pos) matches Some(r) ==> forall|i: int| 0 <= i < r.0.len()
            ==> (#[trigger] r.0[i]).monitor.wf(),
    decreases s.len() - pos,
{
    if 0 <= pos < s.len() && s[pos] != '}' {
        match parse_entry(s, pos) {
            Some((e, p1)) => {
                if pos < p1 <= s.len() && p1 < s.len() && s[p1] == ',' {
                    lemma_parse_entries_wf(s, p1 + 1);
                }
            },
            None => {},
        }
    }
}

/// Whatever a workspace parse yields is well formed.
proof fn lemma_parse_ws_wf(s: Seq<char>, pos: int)
    ensures
        parse_ws(s, pos) matches Some(r) ==> r.0.wf(),
{
    match parse_lit(s, pos, "{\"name\":"@) {
        Some(p1) => match parse_quoted(s, p1) {
            Some((name, p2)) => match parse_lit(s, p2, ",\"monitors\":{"@) {
                Some(p3) => {
                    lemma_parse_entries_wf(s, p3);
                },
                None => {},
            },
            None => {},
        },
        None => {},
    }
}

/// Whatever a workspace-list parse yields is well formed workspace by
/// workspace.
proof fn lemma_parse_ws_list_wf(s: Seq<char>, pos: int)
    ensures
        parse_ws_list(s, pos) matches Some(r) ==> forall|i: int| 0 <= i < r.0.len()
            ==> (#[trigger] r.0[i]).wf(),
    decreases s.len() - pos,
{
    if 0 <= pos < s.len() && s[pos] != ']' {
        match parse_ws(s, pos) {
            Some((w, p1)) => {
                lemma_parse_ws_wf(s, pos);
                if pos < p1 <= s.len() && p1 < s.len() && s[p1] == ',' {
                    lemma_parse_ws_list_wf(s, p1 + 1);
                }
            },
            None => {},
        }
    }
}

/// A decoded document is a well-formed database.
pub proof fn lemma_decode_wf(s: Seq<char>)
    ensures
        spec_decode(s) matches Some(db) ==> db.wf(),
{
    reveal_strlit("Default");
    match parse_db(s) {
        Some((wss, active)) => {
            match parse_lit(s, 0, "{\"workspaces\":["@) {
                Some(p1) => {
                    lemma_parse_ws_list_wf(s, p1);
                },
                None => {},
            }
            assert(default_ws_view().wf());
            let db = repair(wss, active);
            assert forall|i: int| 0 <= i < db.workspaces.len() implies
                (#[trigger] db.workspaces[i]).wf() by {
                if wss.len() == 0 {
                    assert(db.workspaces[i] == default_ws_view());
                }
            }
        },
        None => {},
    }
}

/// Reads a literal at `pos`.
fn exec_lit(s: &str, pos: usize, lit: &str) -> (r: Option<usize>)
    requires
        pos <= s@.len(),
    ensures
        match r {
            Some(p) => parse_lit(s@, pos as int, lit@) == Some(p as int) && pos <= p <= s@.len(),
            None => parse_lit(s@, pos as int, lit@) is None,
        },
{
    let ll = lit.unicode_len();
    let n = s.unicode_len();
    if ll > n - pos {
        return None;
    }
    proof {
        assert(lit@.subrange(0, ll as int) =~= lit@);
    }
    if crate::text::str_range_eq(s, pos, pos + ll, lit, 0, ll) {
        Some(pos + ll)
    } else {
        None
    }
}

/// Reads quoted well-formed text at `pos`.
fn exec_quoted(s: &str, pos: usize) -> (r: Option<(String, usize)>)
    requires
        pos <= s@.len(),
    ensures
        match r {
            Some(t) => parse_quoted(s@, pos as int) == Some((t.0@, t.1 as int)) && pos < t.1
                <= s@.len(),
            None => parse_quoted(s@, pos as int) is None,
        },
{
    let n = s.unicode_len();
    if pos >= n {
        return None;
    }
    if s.get_char(pos) != '"' {
        return None;
    }
    let mut acc = String::new();
    let mut i = pos + 1;
    proof {
        assert(acc@ + Seq::<char>::empty() =~= acc@);
    }
    loop
        invariant
            pos + 1 <= i <= n,
            n == s@.len(),
            pos < s@.len(),
            s@[pos as int] == '"',
            match parse_qcontent(s@, i as int) {
                Some(rest) => parse_qcontent(s@, pos + 1) == Some((acc@ + rest.0, rest.1)),
                None => parse_qcontent(s@, pos + 1) is None,
            },
        decreases n - i,
    {
        if i >= n {
            return None;
        }
        let c = s.get_char(i);
        if c == '"' {
            proof {
                assert(parse_qcontent(s@, i as int) == Some((Seq::<char>::empty(), i + 1)));
                assert(acc@ + Seq::<char>::empty() =~= acc@);
            }
            return Some((acc, i + 1));
        }
        if c == '\\' {
            if i + 1 >= n {
                return None;
            }
            let c2 = s.get_char(i + 1);
            if !(c2 == '"' || c2 == '\\') {
                return None;
            }
            let ghost before = acc@;
            crate::text::push_char(&mut acc, c2);
            proof {
                match parse_qcontent(s@, i + 2) {
                    Some(rest) => {
                        assert(before + (seq![c2] + rest.0) =~= acc@ + rest.0);
                    },
                    None => {},
                }
            }
            i = i + 2;
        } else {
            let ghost before = acc@;
            crate::text::push_char(&mut acc, c);
            proof {
                match parse_qcontent(s@, i + 1) {
                    Some(rest) => {
                        assert(before + (seq![c] + rest.0) =~= acc@ + rest.0);
                    },
                    None => {},
                }
            }
            i = i + 1;
        }
    }
}

/// Reads a boolean literal at `pos`.
fn exec_bool(s: &str, pos: usize) -> (r: Option<(bool, usize)>)
    requires
        pos <= s@.len(),
    ensures
        match r {
            Some(t) => parse_bool(s@, pos as int) == Some((t.0, t.1 as int)) && pos <= t.1
                <= s@.len(),
            None => parse_bool(s@, pos as int) is None,
        },
{
    match exec_lit(s, pos, "true") {
        Some(p) => Some((true, p)),
        None => match exec_lit(s, pos, "false") {
            Some(p) => Some((false, p)),
            None => None,
        },
    }
}

/// Reads a signed decimal that fits `i32` at `pos`.
fn exec_i32(s: &str, pos: usize) -> (r: Option<(i32, usize)>)
    requires
        pos <= s@.len(),
    ensures
        match r {
            Some(t) => parse_i32(s@, pos as int) == Some((t.0 as int, t.1 as int)) && pos < t.1
                <= s@.len(),
            None => parse_i32(s@, pos as int) is None,
        },
{
    let n = s.unicode_len();
    if pos < n && s.get_char(pos) == '-' {
        match crate::text::parse_u64_at(s, pos + 1) {
            Some((v, p)) => {
                if v <= 0x8000_0000u64 {
                    let neg: i64 = -(v as i64);
                    Some((neg as i32, p))
                } else {
                    None
                }
            },
            None => None,
        }
    } else {
        match crate::text::parse_u64_at(s, pos) {
            Some((v, p)) => {
                if v <= i32::MAX as u64 {
                    Some((v as i32, p))
                } else {
                    None
                }
            },
            None => None,
        }
    }
}

/// Reads a two-decimal number at `pos`, in hundredths.
fn exec_centi(s: &str, pos: usize) -> (r: Option<(u32, usize)>)
    requires
        pos <= s@.len(),
    ensures
        match r {
            Some(t) => parse_centi(s@, pos as int) == Some((t.0 as int, t.1 as int)) && pos < t.1
                <= s@.len(),
            None => parse_centi(s@, pos as int) is None,
        },
{
    let n = s.unicode_len();
    match crate::text::parse_u64_at(s, pos) {
        Some((ip, p)) => {
            if n - p < 3 {
                return None;
            }
            let dot = s.get_char(p);
            if dot != '.' {
                return None;
            }
            let c1 = s.get_char(p + 1);
            let c2 = s.get_char(p + 2);
            if !(48 <= (c1 as u32) && (c1 as u32) <= 57 && 48 <= (c2 as u32) && (c2 as u32)
                <= 57) {
                return None;
            }
            let d1 = ((c1 as u32) - 48) as u64;
            let d2 = ((c2 as u32) - 48) as u64;
            if ip > ((u32::MAX as u64) - d1 * 10 - d2) / 100 {
                proof {
                    assert((ip as int) * 100 + d1 * 10 + d2 > u32::MAX) by (nonlinear_arith)
                        requires
                            ip > ((u32::MAX as u64) - d1 * 10 - d2) / 100,
                            d1 < 10,
                            d2 < 10,
                            ((u32::MAX as u64) - d1 * 10 - d2) / 100 == (((u32::MAX as u64) - d1
                                * 10 - d2) as int) / 100,
                    ;
                }
                return None;
            }
            let v: u64 = ip * 100 + d1 * 10 + d2;
            proof {
                assert((ip as int) * 100 + d1 * 10 + d2 <= u32::MAX) by (nonlinear_arith)
                    requires
                        ip <= ((u32::MAX as u64) - d1 * 10 - d2) / 100,
                        d1 < 10,
                        d2 < 10,
                        ((u32::MAX as u64) - d1 * 10 - d2) / 100 == (((u32::MAX as u64) - d1 * 10
                            - d2) as int) / 100,
                ;
            }
            Some((v as u32, p + 3))
        },
        None => None,
    }
}

/// Reads one saved monitor object at `pos`.
fn exec_saved(s: &str, pos: usize) -> (r: Option<(SavedMonitor, usize)>)
    requires
        pos <= s@.len(),
    ensures
        match r {
            Some(t) => parse_saved(s@, pos as int) == Some((t.0@, t.1 as int)) && pos < t.1
                <= s@.len(),
            None => parse_saved(s@, pos as int) is None,
        },
{
    let p1 = match exec_lit(s, pos, "{\"resolution\":") {
        Some(p) => p,
        None => {
            return None;
        },
    };
    let (resolution, p2) = match exec_quoted(s, p1) {
        Some(t) => t,
        None => {
            return None;
        },
    };
    let p3 = match exec_lit(s, p2, ",\"refresh_rate\":") {
        Some(p) => p,
        None => {
            return None;
        },
    };
    let (refresh, p4) = match exec_centi(s, p3) {
        Some(t) => t,
        None => {
            return None;
        },
    };
    let p5 = match exec_lit(s, p4, ",\"scale\":") {
        Some(p) => p,
        None => {
            return None;
        },
    };
    let (scale, p6) = match exec_centi(s, p5) {
        Some(t) => t,
        None => {
            return None;
        },
    };
    if scale == 0 {
        return None;
    }
    let p7 = match exec_lit(s, p6, ",\"rotation\":") {
        Some(p) => p,
        None => {
            return None;
        },
    };
    let (rot, p8) = match crate::text::parse_u64_at(s, p7) {
        Some(t) => t,
        None => {
            return None;
        },
    };
    if rot > 3 {
        return None;
    }
    let p9 = match exec_lit(s, p8, ",\"position_x\":") {
        Some(p) => p,
        None => {
            return None;
        },
    };
    let (px, p10) = match exec_i32(s, p9) {
        Some(t) => t,
        None => {
            return None;
        },
    };
    let p11 = match exec_lit(s, p10, ",\"position_y\":") {
        Some(p) => p,
        None => {
            return None;
        },
    };
    let (py, p12) = match exec_i32(s, p11) {
        Some(t) => t,
        None => {
            return None;
        },
    };
    let (primary, p15) = match exec_lit(s, p12, ",\"is_primary\":") {
        Some(p13) => {
            let (primary, p14) = match exec_bool(s, p13) {
                Some(t) => t,
                None => {
                    return None;
                },
            };
            let p15 = match exec_lit(s, p14, "}") {
                Some(p) => p,
                None => {
                    return None;
                },
            };
            (primary, p15)
        },
        None => {
            // the primary flag may be left out; it defaults off
            let p15 = match exec_lit(s, p12, "}") {
                Some(p) => p,
                None => {
                    return None;
                },
            };
            (false, p15)
        },
    };
    let m = SavedMonitor {
        resolution,
        refresh_rate: refresh,
        scale,
        rotation: rot as u8,
        position_x: px,
        position_y: py,
        is_primary: primary,
    };
    Some((m, p15))
}

/// Reads one saved entry at `pos`.
fn exec_entry(s: &str, pos: usize) -> (r: Option<(SavedEntry, usize)>)
    requires
        pos <= s@.len(),
    ensures
        match r {
            Some(t) => parse_entry(s@, pos as int) == Some((t.0@, t.1 as int)) && pos < t.1
                <= s@.len(),
            None => parse_entry(s@, pos as int) is None,
        },
{
    let (key, p1) = match exec_quoted(s, pos) {
        Some(t) => t,
        None => {
            return None;
        },
    };
    let p2 = match exec_lit(s, p1, ":") {
        Some(p) => p,
        None => {
            return None;
        },
    };
    let (m, p3) = match exec_saved(s, p2) {
        Some(t) => t,
        None => {
            return None;
        },
    };
    Some((SavedEntry { key, monitor: m }, p3))
}

/// Reads the comma-separated entries at `pos`, up to a closing brace.
fn exec_entries(s: &str, pos: usize) -> (r: Option<(Vec<SavedEntry>, usize)>)
    requires
        pos <= s@.len(),
    ensures
        match r {
            Some(t) => parse_entries(s@, pos as int) == Some(
                (crate::db::entry_views(t.0@), t.1 as int),
            ) && pos <= t.1 <= s@.len(),
            None => parse_entries(s@, pos as int) is None,
        },
    decreases s@.len() - pos,
{
    let n = s.unicode_len();
    if pos >= n {
        return None;
    }
    if s.get_char(pos) == '}' {
        let out: Vec<SavedEntry> = Vec::new();
        proof {
            assert(crate::db::entry_views(out@) =~= Seq::<SavedEntryView>::empty());
        }
        return Some((out, pos));
    }
    let (e, p1) = match exec_entry(s, pos) {
        Some(t) => t,
        None => {
            return None;
        },
    };
    if p1 < n && s.get_char(p1) == ',' {
        match exec_entries(s, p1 + 1) {
            Some((rest, p2)) => {
                if rest.len() == 0 {
                    return None;
                }
                let ghost ev = e@;
                let ghost restv = crate::db::entry_views(rest@);
                let mut out: Vec<SavedEntry> = Vec::new();
                out.push(e);
                let mut rest = rest;
                out.append(&mut rest);
                proof {
                    assert(crate::db::entry_views(out@) =~= seq![ev] + restv);
                }
                Some((out, p2))
            },
            None => None,
        }
    } else {
        let mut out: Vec<SavedEntry> = Vec::new();
        let ghost ev = e@;
        out.push(e);
        proof {
            assert(crate::db::entry_views(out@) =~= seq![ev]);
        }
        Some((out, p1))
    }
}

/// Whether the entries' keys are pairwise distinct.
fn exec_keys_distinct(v: &Vec<SavedEntry>) -> (r: bool)
    ensures
        r == crate::db::keys_distinct(crate::db::entry_views(v@)),
{
    let n = v.len();
    let mut i: usize = 0;
    while i < n
        invariant
            i <= n,
            n == v@.len(),
            forall|p: int, q: int| 0 <= p < q < n && p < i ==> (#[trigger] crate::db::entry_views(
                v@,
            )[p]).key != (#[trigger] crate::db::entry_views(v@)[q]).key,
        decreases n - i,
    {
        let mut j: usize = i + 1;
        while j < n
            invariant
                i < j <= n || (i + 1 == j && j > n),
                i < n,
                n == v@.len(),
                forall|q: int| i < q < j ==> (#[trigger] crate::db::entry_views(v@)[q]).key
                    != crate::db::entry_views(v@)[i as int].key,
            decreases n - j,
        {
            if v[i].key == v[j].key {
                proof {
                    assert(crate::db::entry_views(v@)[i as int].key == crate::db::entry_views(
                        v@,
                    )[j as int].key);
                }
                return false;
            }
            proof {
                assert(crate::db::entry_views(v@)[j as int].key != crate::db::entry_views(
                    v@,
                )[i as int].key);
            }
            j = j + 1;
        }
        i = i + 1;
    }
    true
}

/// Reads one workspace object at `pos`.
fn exec_ws(s: &str, pos: usize) -> (r: Option<(Workspace, usize)>)
    requires
        pos <= s@.len(),
    ensures
        match r {
            Some(t) => parse_ws(s@, pos as int) == Some((t.0@, t.1 as int)) && pos < t.1
                <= s@.len(),
            None => parse_ws(s@, pos as int) is None,
        },
{
    let p1 = match exec_lit(s, pos, "{\"name\":") {
        Some(p) => p,
        None => {
            return None;
        },
    };
    let (name, p2) = match exec_quoted(s, p1) {
        Some(t) => t,
        None => {
            return None;
        },
    };
    let p3 = match exec_lit(s, p2, ",\"monitors\":{") {
        Some(p) => p,
        None => {
            return None;
        },
    };
    let (entries, p4) = match exec_entries(s, p3) {
        Some(t) => t,
        None => {
            return None;
        },
    };
    if !exec_keys_distinct(&entries) {
        return None;
    }
    let p5 = match exec_lit(s, p4, "}}") {
        Some(p) => p,
        None => {
            return None;
        },
    };
    Some((Workspace { name, monitors: entries }, p5))
}

/// Reads the comma-separated workspaces at `pos`, up to a closing bracket.
fn exec_ws_list(s: &str, pos: usize) -> (r: Option<(Vec<Workspace>, usize)>)
    requires
        pos <= s@.len(),
    ensures
        match r {
            Some(t) => parse_ws_list(s@, pos as int) == Some(
                (t.0@.map_values(|w: Workspace| w@), t.1 as int),
            ) && pos <= t.1 <= s@.len(),
            None => parse_ws_list(s@, pos as int) is None,
        },
    decreases s@.len() - pos,
{
    let n = s.unicode_len();
    if pos >= n {
        return None;
    }
    if s.get_char(pos) == ']' {
        let out: Vec<Workspace> = Vec::new();
        proof {
            assert(out@.map_values(|w: Workspace| w@) =~= Seq::<WorkspaceView>::empty());
        }
        return Some((out, pos));
    }
    let (w, p1) = match exec_ws(s, pos) {
        Some(t) => t,
        None => {
            return None;
        },
    };
    if p1 < n && s.get_char(p1) == ',' {
        match exec_ws_list(s, p1 + 1) {
            Some((rest, p2)) => {
                if rest.len() == 0 {
                    return None;
                }
                let ghost wv = w@;
                let ghost restv = rest@.map_values(|x: Workspace| x@);
                let mut out: Vec<Workspace> = Vec::new();
                out.push(w);
                let mut rest = rest;
                out.append(&mut rest);
                proof {
                    assert(out@.map_values(|x: Workspace| x@) =~= seq![wv] + restv);
                }
                Some((out, p2))
            },
            None => None,
        }
    } else {
        let ghost wv = w@;
        let mut out: Vec<Workspace> = Vec::new();
        out.push(w);
        proof {
            assert(out@.map_values(|x: Workspace| x@) =~= seq![wv]);
        }
        Some((out, p1))
    }
}

/// Reads a persisted document back into a database. Anything malformed reads
/// as nothing; what reads back is repaired (an empty list becomes one
/// `Default` workspace, the active index is clamped) and is well formed.
pub fn decode_db(s: &str) -> (r: Option<MonitorDatabase>)
    ensures
        match r {
            Some(db) => spec_decode(s@) == Some(db@) && db@.wf(),
            None => spec_decode(s@) is None,
        },
{
    let p1 = match exec_lit(s, 0, "{\"workspaces\":[") {
        Some(p) => p,
        None => {
            return None;
        },
    };
    let (wss, p2) = match exec_ws_list(s, p1) {
        Some(t) => t,
        None => {
            return None;
        },
    };
    let n = s.unicode_len();
    let active: u64 = match exec_lit(s, p2, "],\"active_workspace\":") {
        Some(p3) => {
            let (active, p4) = match crate::text::parse_u64_at(s, p3) {
                Some(t) => t,
                None => {
                    return None;
                },
            };
            let p5 = match exec_lit(s, p4, "}") {
                Some(p) => p,
                None => {
                    return None;
                },
            };
            if p5 != n {
                return None;
            }
            if active > usize::MAX as u64 {
                return None;
            }
            active
        },
        None => {
            // a document without the active index reads as index 0
            let p5 = match exec_lit(s, p2, "]}") {
                Some(p) => p,
                None => {
                    return None;
                },
            };
            if p5 != n {
                return None;
            }
            0
        },
    };
    // repair: never an empty list, and an active index in range
    let mut wss = wss;
    let ghost parsed = wss@.map_values(|w: Workspace| w@);
    if wss.len() == 0 {
        let ws = Workspace::new("Default");
        wss.push(ws);
        proof {
            reveal_strlit("Default");
            assert(wss@.map_values(|w: Workspace| w@) =~~= seq![default_ws_view()]);
        }
    }
    let mut active_idx = active as usize;
    if active_idx >= wss.len() {
        active_idx = wss.len() - 1;
    }
    let db = MonitorDatabase { workspaces: wss, active_workspace: active_idx };
    proof {
        let rep = repair(parsed, active as int);
        assert(db@.workspaces =~= rep.workspaces);
        assert(db@ =~= rep);
        lemma_decode_wf(s@);
    }
    Some(db)
}

/// A run of `k` digits at `pos` with a non-digit boundary is the digit run.
proof fn lemma_run_frame(s: Seq<char>, pos: int, k: int)
    requires
        0 <= pos,
        0 <= k,
        pos + k <= s.len(),
        forall|i: int| pos <= i < pos + k ==> crate::text::is_digit_char(#[trigger] s[i]),
        pos + k == s.len() || !crate::text::is_digit_char(s[pos + k]),
    ensures
        crate::text::digit_run_len(s, pos) == k,
    decreases k,
{
    if k > 0 {
        lemma_run_frame(s, pos + 1, k - 1);
    }
}

/// A subrange of a subrange-matched text matches the corresponding part.
proof fn lemma_extract(s: Seq<char>, pos: int, big: Seq<char>, off: int, part: Seq<char>)
    requires
        0 <= pos,
        pos + big.len() <= s.len(),
        s.subrange(pos, pos + big.len() as int) == big,
        0 <= off,
        off + part.len() <= big.len(),
        big.subrange(off, off + part.len() as int) == part,
    ensures
        s.subrange(pos + off, pos + off + part.len() as int) == part,
{
    assert forall|j: int| 0 <= j < part.len() implies s.subrange(
        pos + off,
        pos + off + part.len() as int,
    )[j] == part[j] by {
        assert(s.subrange(pos, pos + big.len() as int)[off + j] == big[off + j]);
        assert(big.subrange(off, off + part.len() as int)[j] == big[off + j]);
    }
    assert(s.subrange(pos + off, pos + off + part.len() as int) =~= part);
}

/// The rendering of a number parses back to it.
proof fn lemma_inv_u64(s: Seq<char>, pos: int, n: u64)
    requires
        0 <= pos,
        pos + dec_digits(n as nat).len() <= s.len(),
        s.subrange(pos, pos + dec_digits(n as nat).len() as int) == dec_digits(n as nat),
        pos + dec_digits(n as nat).len() == s.len() || !crate::text::is_digit_char(
            s[pos + dec_digits(n as nat).len() as int],
        ),
    ensures
        crate::text::spec_parse_u64(s, pos) == Some(
            (n, pos + dec_digits(n as nat).len() as int),
        ),
{
    let d = dec_digits(n as nat);
    crate::text::lemma_dec_digits_wf(n as nat);
    assert forall|i: int| pos <= i < pos + d.len() implies crate::text::is_digit_char(
        #[trigger] s[i],
    ) by {
        assert(s.subrange(pos, pos + d.len() as int)[i - pos] == d[i - pos]);
    }
    lemma_run_frame(s, pos, d.len() as int);
    crate::text::lemma_digits_val_of_dec(n as nat);
    assert(s.subrange(pos, pos + d.len() as int) == d);
    assert(digits_val(s.subrange(pos, pos + d.len() as int)) == n);
}

/// The rendering of quoted well-formed text parses back to it.
#[verifier::rlimit(100)]
proof fn lemma_inv_qcontent(s: Seq<char>, pos: int, t: Seq<char>)
    requires
        0 <= pos,
        pos + esc(t).len() + 1 <= s.len(),
        s.subrange(pos, pos + esc(t).len() + 1) == esc(t) + seq!['"'],
    ensures
        parse_qcontent(s, pos) == Some((t, pos + esc(t).len() + 1)),
    decreases t.len(),
{
    let body = esc(t) + seq!['"'];
    if t.len() == 0 {
        assert(esc(t) =~= Seq::<char>::empty());
        assert(s[pos] == '"') by {
            assert(s.subrange(pos, pos + body.len() as int)[0] == body[0]);
        }
    } else {
        let c = t[0];
        let rest = t.skip(1);
        assert(esc(t) == esc_char(c) + esc(rest));
        let ghost k = esc_char(c).len() as int;
        // the escaped head stands at pos, the escaped tail plus closing
        // quote right after it
        assert forall|j: int| 0 <= j < k implies s[pos + j] == esc_char(c)[j] by {
            assert(s.subrange(pos, pos + body.len() as int)[j] == body[j]);
            assert(body[j] == esc_char(c)[j]);
        }
        assert(s.subrange(pos + k, pos + k + esc(rest).len() + 1) =~= esc(rest) + seq!['"']) by {
            assert forall|j: int| 0 <= j < esc(rest).len() + 1 implies s.subrange(
                pos + k,
                pos + k + esc(rest).len() + 1,
            )[j] == (esc(rest) + seq!['"'])[j] by {
                assert(s.subrange(pos, pos + body.len() as int)[k + j] == body[k + j]);
            }
        }
        lemma_inv_qcontent(s, pos + k, rest);
        assert(seq![c] + rest =~= t);
        if c == '"' || c == '\\' {
            assert(s[pos] == '\\');
            assert(s[pos + 1] == c);
        } else {
            assert(s[pos] == c);
        }
    }
}

/// The quoted escaping of any text parses back to it.
#[verifier::rlimit(100)]
proof fn lemma_inv_quoted(s: Seq<char>, pos: int, t: Seq<char>)
    requires
        0 <= pos,
        pos + quoted(t).len() <= s.len(),
        s.subrange(pos, pos + quoted(t).len() as int) == quoted(t),
    ensures
        parse_quoted(s, pos) == Some((t, pos + quoted(t).len() as int)),
{
    let q = quoted(t);
    assert(q.len() == esc(t).len() + 2);
    assert(s[pos] == '"') by {
        assert(s.subrange(pos, pos + q.len() as int)[0] == q[0]);
    }
    assert(s.subrange(pos + 1, pos + 1 + esc(t).len() + 1) =~= esc(t) + seq!['"']) by {
        assert forall|j: int| 0 <= j < esc(t).len() + 1 implies s.subrange(
            pos + 1,
            pos + 1 + esc(t).len() + 1,
        )[j] == (esc(t) + seq!['"'])[j] by {
            assert(s.subrange(pos, pos + q.len() as int)[1 + j] == q[1 + j]);
        }
    }
    lemma_inv_qcontent(s, pos + 1, t);
}

/// The two-decimal rendering of a value in hundredths parses back to it.
proof fn lemma_inv_centi(s: Seq<char>, pos: int, c: u32)
    requires
        0 <= pos,
        pos + centi_digits(c as nat).len() <= s.len(),
        s.subrange(pos, pos + centi_digits(c as nat).len() as int) == centi_digits(c as nat),
    ensures
        parse_centi(s, pos) == Some((c as int, pos + centi_digits(c as nat).len() as int)),
{
    let ip = (c as nat) / 100;
    let d = dec_digits(ip);
    let full = centi_digits(c as nat);
    assert(full.len() == d.len() + 3);
    crate::text::lemma_dec_digits_wf(ip);
    assert(full.subrange(0, d.len() as int) =~= d);
    lemma_extract(s, pos, full, 0, d);
    assert(s[pos + d.len()] == '.') by {
        assert(s.subrange(pos, pos + full.len() as int)[d.len() as int] == full[d.len() as int]);
        assert(full[d.len() as int] == '.');
    }
    assert(!crate::text::is_digit_char('.'));
    lemma_inv_u64(s, pos, ip as u64);
    let p = pos + d.len() as int;
    let c1 = crate::text::digit_char((((c as nat) / 10) % 10) as int);
    let c2 = crate::text::digit_char(((c as nat) % 10) as int);
    assert(s[p + 1] == c1 && s[p + 2] == c2) by {
        assert(s.subrange(pos, pos + full.len() as int)[d.len() as int + 1] == full[d.len() as int + 1]);
        assert(s.subrange(pos, pos + full.len() as int)[d.len() as int + 2] == full[d.len() as int + 2]);
        assert(full[d.len() as int + 1] == c1);
        assert(full[d.len() as int + 2] == c2);
    }
    crate::text::lemma_digit_char_val((((c as nat) / 10) % 10) as int);
    crate::text::lemma_digit_char_val(((c as nat) % 10) as int);
    assert(ip * 100 + crate::text::digit_val(c1) * 10 + crate::text::digit_val(c2) == c as int)
        by {
        assert(((c as int) / 100) * 100 + (((c as int) / 10) % 10) * 10 + (c as int) % 10 == (
        c as int)) by (nonlinear_arith);
    }
}

/// The rendering of a signed number parses back to it.
proof fn lemma_inv_i32(s: Seq<char>, pos: int, v: i32)
    requires
        0 <= pos,
        pos + int_digits(v as int).len() <= s.len(),
        s.subrange(pos, pos + int_digits(v as int).len() as int) == int_digits(v as int),
        pos + int_digits(v as int).len() == s.len() || !crate::text::is_digit_char(
            s[pos + int_digits(v as int).len() as int],
        ),
    ensures
        parse_i32(s, pos) == Some((v as int, pos + int_digits(v as int).len() as int)),
{
    let full = int_digits(v as int);
    if v < 0 {
        let mag = (-(v as int)) as nat;
        let d = dec_digits(mag);
        assert(full == seq!['-'] + d);
        assert(s[pos] == '-') by {
            assert(s.subrange(pos, pos + full.len() as int)[0] == full[0]);
        }
        assert(full.subrange(1, 1 + d.len() as int) =~= d);
        lemma_extract(s, pos, full, 1, d);
        lemma_inv_u64(s, pos + 1, mag as u64);
        assert(mag <= 0x8000_0000u64);
    } else {
        let d = dec_digits(v as nat);
        assert(full == d);
        assert(s[pos] == d[0]) by {
            assert(s.subrange(pos, pos + full.len() as int)[0] == full[0]);
        }
        crate::text::lemma_dec_digits_wf(v as nat);
        assert(crate::text::is_digit_char(s[pos]));
        assert(s[pos] != '-');
        lemma_inv_u64(s, pos, v as u64);
    }
}

/// The rendering of a boolean parses back to it.
proof fn lemma_inv_bool(s: Seq<char>, pos: int, b: bool)
    requires
        0 <= pos,
        pos + (if b {
            "true"@.len()
        } else {
            "false"@.len()
        }) <= s.len(),
        b ==> s.subrange(pos, pos + "true"@.len() as int) == "true"@,
        !b ==> s.subrange(pos, pos + "false"@.len() as int) == "false"@,
    ensures
        b ==> parse_bool(s, pos) == Some((true, pos + "true"@.len() as int)),
        !b ==> parse_bool(s, pos) == Some((false, pos + "false"@.len() as int)),
{
    reveal_strlit("true");
    reveal_strlit("false");
    if !b {
        // the text cannot also begin with `true`
        if parse_lit(s, pos, "true"@) matches Some(_) {
            assert(s.subrange(pos, pos + 4)[0] == "true"@[0]);
            assert(s.subrange(pos, pos + 5)[0] == "false"@[0]);
            assert(false);
        }
    }
}

/// The encoding of a well-formed saved monitor parses back to it.
#[verifier::rlimit(100)]
proof fn lemma_inv_saved(s: Seq<char>, pos: int, v: SavedMonitorView)
    requires
        0 <= pos,
        v.wf(),
        pos + enc_saved(v).len() <= s.len(),
        s.subrange(pos, pos + enc_saved(v).len() as int) == enc_saved(v),
    ensures
        parse_saved(s, pos) == Some((v, pos + enc_saved(v).len() as int)),
{
    let big = enc_saved(v);
    let l1 = "{\"resolution\":"@;
    let q = quoted(v.resolution);
    let l2 = ",\"refresh_rate\":"@;
    let c1 = centi_digits(v.refresh_rate as nat);
    let l3 = ",\"scale\":"@;
    let c2 = centi_digits(v.scale as nat);
    let l4 = ",\"rotation\":"@;
    let rr = dec_digits(v.rotation as nat);
    let l5 = ",\"position_x\":"@;
    let xx = int_digits(v.position_x as int);
    let l6 = ",\"position_y\":"@;
    let yy = int_digits(v.position_y as int);
    let l7 = ",\"is_primary\":"@;
    let bb = if v.is_primary {
        "true"@
    } else {
        "false"@
    };
    let l8 = "}"@;
    let o1 = l1.len() as int;
    let o2 = o1 + q.len();
    let o3 = o2 + l2.len();
    let o4 = o3 + c1.len();
    let o5 = o4 + l3.len();
    let o6 = o5 + c2.len();
    let o7 = o6 + l4.len();
    let o8 = o7 + rr.len();
    let o9 = o8 + l5.len();
    let o10 = o9 + xx.len();
    let o11 = o10 + l6.len();
    let o12 = o11 + yy.len();
    let o13 = o12 + l7.len();
    let o14 = o13 + bb.len();
    let o15 = o14 + l8.len();
    assert(big.len() == o15);
    assert(big.subrange(0, o1) =~= l1);
    lemma_extract(s, pos, big, 0, l1);
    assert(big.subrange(o1, o2) =~= q);
    lemma_extract(s, pos, big, o1, q);
    lemma_inv_quoted(s, pos + o1, v.resolution);
    assert(big.subrange(o2, o3) =~= l2);
    lemma_extract(s, pos, big, o2, l2);
    assert(big.subrange(o3, o4) =~= c1);
    lemma_extract(s, pos, big, o3, c1);
    lemma_inv_centi(s, pos + o3, v.refresh_rate);
    assert(big.subrange(o4, o5) =~= l3);
    lemma_extract(s, pos, big, o4, l3);
    assert(big.subrange(o5, o6) =~= c2);
    lemma_extract(s, pos, big, o5, c2);
    lemma_inv_centi(s, pos + o5, v.scale);
    assert(big.subrange(o6, o7) =~= l4);
    lemma_extract(s, pos, big, o6, l4);
    assert(big.subrange(o7, o8) =~= rr);
    lemma_extract(s, pos, big, o7, rr);
    assert(big.subrange(o8, o9) =~= l5);
    lemma_extract(s, pos, big, o8, l5);
    reveal_strlit(",\"position_x\":");
    assert(s[pos + o8] == ',') by {
        assert(s.subrange(pos + o8, pos + o9)[0] == l5[0]);
    }
    assert(!crate::text::is_digit_char(','));
    lemma_inv_u64(s, pos + o7, v.rotation as u64);
    assert(big.subrange(o9, o10) =~= xx);
    lemma_extract(s, pos, big, o9, xx);
    assert(big.subrange(o10, o11) =~= l6);
    lemma_extract(s, pos, big, o10, l6);
    reveal_strlit(",\"position_y\":");
    assert(s[pos + o10] == ',') by {
        assert(s.subrange(pos + o10, pos + o11)[0] == l6[0]);
    }
    lemma_inv_i32(s, pos + o9, v.position_x);
    assert(big.subrange(o11, o12) =~= yy);
    lemma_extract(s, pos, big, o11, yy);
    assert(big.subrange(o12, o13) =~= l7);
    lemma_extract(s, pos, big, o12, l7);
    reveal_strlit(",\"is_primary\":");
    assert(s[pos + o12] == ',') by {
        assert(s.subrange(pos + o12, pos + o13)[0] == l7[0]);
    }
    lemma_inv_i32(s, pos + o11, v.position_y);
    assert(big.subrange(o13, o14) =~= bb);
    lemma_extract(s, pos, big, o13, bb);
    lemma_inv_bool(s, pos + o13, v.is_primary);
    assert(big.subrange(o14, o15) =~= l8);
    lemma_extract(s, pos, big, o14, l8);
    assert(v.scale != 0);
    assert(v.rotation <= 3);
    assert(parse_saved(s, pos) == Some((v, pos + o15)));
}

/// The encoding of a well-formed saved entry parses back to it.
#[verifier::rlimit(100)]
proof fn lemma_inv_entry(s: Seq<char>, pos: int, e: SavedEntryView)
    requires
        0 <= pos,
        e.monitor.wf(),
        pos + enc_entry(e).len() <= s.len(),
        s.subrange(pos, pos + enc_entry(e).len() as int) == enc_entry(e),
    ensures
        parse_entry(s, pos) == Some((e, pos + enc_entry(e).len() as int)),
{
    let big = enc_entry(e);
    let q = quoted(e.key);
    let colon = ":"@;
    let sv = enc_saved(e.monitor);
    let o1 = q.len() as int;
    let o2 = o1 + colon.len();
    let o3 = o2 + sv.len();
    assert(big.len() == o3);
    assert(big.subrange(0, o1) =~= q);
    lemma_extract(s, pos, big, 0, q);
    lemma_inv_quoted(s, pos, e.key);
    assert(big.subrange(o1, o2) =~= colon);
    lemma_extract(s, pos, big, o1, colon);
    assert(big.subrange(o2, o3) =~= sv);
    lemma_extract(s, pos, big, o2, sv);
    lemma_inv_saved(s, pos + o2, e.monitor);
}

/// The encoding of well-formed entries, followed by a closing brace, parses
/// back to them.
#[verifier::rlimit(100)]
proof fn lemma_inv_entries(s: Seq<char>, pos: int, es: Seq<SavedEntryView>)
    requires
        0 <= pos,
        forall|i: int| 0 <= i < es.len() ==> (#[trigger] es[i]).monitor.wf(),
        pos + enc_entries(es).len() < s.len(),
        s.subrange(pos, pos + enc_entries(es).len() as int) == enc_entries(es),
        s[pos + enc_entries(es).len() as int] == '}',
    ensures
        parse_entries(s, pos) == Some((es, pos + enc_entries(es).len() as int)),
    decreases es.len(),
{
    let big = enc_entries(es);
    if es.len() == 0 {
        assert(s[pos] == '}');
        assert(es =~= Seq::<SavedEntryView>::empty());
    } else if es.len() == 1 {
        assert(big == enc_entry(es[0]));
        assert(s[pos] == '"') by {
            assert(s.subrange(pos, pos + big.len() as int)[0] == big[0]);
            assert(big[0] == quoted(es[0].key)[0]);
        }
        lemma_inv_entry(s, pos, es[0]);
        let p1 = pos + big.len() as int;
        assert(s[p1] == '}');
        assert(seq![es[0]] =~= es);
    } else {
        let e0 = enc_entry(es[0]);
        let rest = enc_entries(es.drop_first());
        assert(big == e0 + ","@ + rest);
        assert(s[pos] == '"') by {
            assert(s.subrange(pos, pos + big.len() as int)[0] == big[0]);
            assert(big[0] == quoted(es[0].key)[0]);
        }
        assert(big.subrange(0, e0.len() as int) =~= e0);
        lemma_extract(s, pos, big, 0, e0);
        lemma_inv_entry(s, pos, es[0]);
        let p1 = pos + e0.len() as int;
        reveal_strlit(",");
        assert(s[p1] == ',') by {
            assert(s.subrange(pos, pos + big.len() as int)[e0.len() as int]
                == big[e0.len() as int]);
            assert(big[e0.len() as int] == ","@[0]);
        }
        assert(big.subrange(e0.len() as int + 1, big.len() as int) =~= rest);
        lemma_extract(s, pos, big, e0.len() as int + 1, rest);
        assert forall|i: int| 0 <= i < es.drop_first().len() implies
            (#[trigger] es.drop_first()[i]).monitor.wf() by {
            assert(es.drop_first()[i] == es[i + 1]);
        }
        lemma_inv_entries(s, p1 + 1, es.drop_first());
        assert(seq![es[0]] + es.drop_first() =~= es);
    }
}

/// The encoding of a well-formed workspace parses back to it.
#[verifier::rlimit(100)]
proof fn lemma_inv_ws(s: Seq<char>, pos: int, w: WorkspaceView)
    requires
        0 <= pos,
        w.wf(),
        pos + enc_ws(w).len() <= s.len(),
        s.subrange(pos, pos + enc_ws(w).len() as int) == enc_ws(w),
    ensures
        parse_ws(s, pos) == Some((w, pos + enc_ws(w).len() as int)),
{
    let big = enc_ws(w);
    let l1 = "{\"name\":"@;
    let q = quoted(w.name);
    let l2 = ",\"monitors\":{"@;
    let es = enc_entries(w.monitors);
    let l3 = "}}"@;
    let o1 = l1.len() as int;
    let o2 = o1 + q.len();
    let o3 = o2 + l2.len();
    let o4 = o3 + es.len();
    let o5 = o4 + l3.len();
    assert(big.len() == o5);
    assert(big.subrange(0, o1) =~= l1);
    lemma_extract(s, pos, big, 0, l1);
    assert(big.subrange(o1, o2) =~= q);
    lemma_extract(s, pos, big, o1, q);
    lemma_inv_quoted(s, pos + o1, w.name);
    assert(big.subrange(o2, o3) =~= l2);
    lemma_extract(s, pos, big, o2, l2);
    assert(big.subrange(o3, o4) =~= es);
    lemma_extract(s, pos, big, o3, es);
    reveal_strlit("}}");
    assert(s[pos + o4] == '}') by {
        assert(s.subrange(pos, pos + big.len() as int)[o4] == big[o4]);
        assert(big[o4] == l3[0]);
    }
    lemma_inv_entries(s, pos + o3, w.monitors);
    assert(big.subrange(o4, o5) =~= l3);
    lemma_extract(s, pos, big, o4, l3);
}

/// The encoding of well-formed workspaces, followed by a closing bracket,
/// parses back to them.
#[verifier::rlimit(100)]
proof fn lemma_inv_ws_list(s: Seq<char>, pos: int, wss: Seq<WorkspaceView>)
    requires
        0 <= pos,
        forall|i: int| 0 <= i < wss.len() ==> (#[trigger] wss[i]).wf(),
        pos + enc_ws_list(wss).len() < s.len(),
        s.subrange(pos, pos + enc_ws_list(wss).len() as int) == enc_ws_list(wss),
        s[pos + enc_ws_list(wss).len() as int] == ']',
    ensures
        parse_ws_list(s, pos) == Some((wss, pos + enc_ws_list(wss).len() as int)),
    decreases wss.len(),
{
    let big = enc_ws_list(wss);
    reveal_strlit("{\"name\":");
    if wss.len() == 0 {
        assert(s[pos] == ']');
        assert(wss =~= Seq::<WorkspaceView>::empty());
    } else if wss.len() == 1 {
        assert(big == enc_ws(wss[0]));
        assert(s[pos] == '{') by {
            assert(s.subrange(pos, pos + big.len() as int)[0] == big[0]);
            assert(big[0] == "{\"name\":"@[0]);
        }
        lemma_inv_ws(s, pos, wss[0]);
        let p1 = pos + big.len() as int;
        assert(s[p1] == ']');
        assert(seq![wss[0]] =~= wss);
    } else {
        let w0 = enc_ws(wss[0]);
        let rest = enc_ws_list(wss.drop_first());
        assert(big == w0 + ","@ + rest);
        assert(s[pos] == '{') by {
            assert(s.subrange(pos, pos + big.len() as int)[0] == big[0]);
            assert(big[0] == "{\"name\":"@[0]);
        }
        assert(big.subrange(0, w0.len() as int) =~= w0);
        lemma_extract(s, pos, big, 0, w0);
        lemma_inv_ws(s, pos, wss[0]);
        let p1 = pos + w0.len() as int;
        reveal_strlit(",");
        assert(s[p1] == ',') by {
            assert(s.subrange(pos, pos + big.len() as int)[w0.len() as int]
                == big[w0.len() as int]);
            assert(big[w0.len() as int] == ","@[0]);
        }
        assert(big.subrange(w0.len() as int + 1, big.len() as int) =~= rest);
        lemma_extract(s, pos, big, w0.len() as int + 1, rest);
        assert forall|i: int| 0 <= i < wss.drop_first().len() implies
            (#[trigger] wss.drop_first()[i]).wf() by {
            assert(wss.drop_first()[i] == wss[i + 1]);
        }
        lemma_inv_ws_list(s, p1 + 1, wss.drop_first());
        assert(seq![wss[0]] + wss.drop_first() =~= wss);
    }
}

/// The document of a well-formed database parses back to its parts.
#[verifier::rlimit(100)]
proof fn lemma_inv_db(db: DbView)
    requires
        db.wf(),
        db.active_workspace <= usize::MAX,
    ensures
        parse_db(enc_db(db)) == Some((db.workspaces, db.active_workspace)),
{
    let s = enc_db(db);
    let l1 = "{\"workspaces\":["@;
    let wl = enc_ws_list(db.workspaces);
    let l2 = "],\"active_workspace\":"@;
    let ad = dec_digits(db.active_workspace as nat);
    let l3 = "}"@;
    let o1 = l1.len() as int;
    let o2 = o1 + wl.len();
    let o3 = o2 + l2.len();
    let o4 = o3 + ad.len();
    let o5 = o4 + l3.len();
    assert(s.len() == o5);
    assert(s.subrange(0, s.len() as int) =~= s);
    assert(s.subrange(0, o1) =~= l1);
    assert(s.subrange(o1, o2) =~= wl) by {
        assert forall|j: int| 0 <= j < wl.len() implies s.subrange(o1, o2)[j] == wl[j] by {
            assert(s[o1 + j] == wl[j]);
        }
    }
    lemma_extract(s, 0, s, o1, wl);
    reveal_strlit("],\"active_workspace\":");
    assert(s[o2] == ']') by {
        assert(s[o2] == l2[0]);
    }
    lemma_inv_ws_list(s, o1, db.workspaces);
    assert(s.subrange(o2, o3) =~= l2);
    assert(s.subrange(o3, o4) =~= ad);
    reveal_strlit("}");
    assert(s[o4] == '}') by {
        assert(s[o4] == l3[0]);
    }
    assert(!crate::text::is_digit_char('}'));
    lemma_inv_u64(s, o3, db.active_workspace as u64);
    assert(s.subrange(o4, o5) =~= l3);
    assert(parse_db(s) == Some((db.workspaces, db.active_workspace)));
}

/// Persisting a well-formed database and reading it back yields it
/// unchanged: the same workspaces and the same active index.
pub proof fn lemma_store_round_trip(db: DbView)
    requires
        db.wf(),
        db.active_workspace <= usize::MAX,
    ensures
        spec_decode(enc_db(db)) == Some(db),
{
    lemma_inv_db(db);
    assert(repair(db.workspaces, db.active_workspace) =~= db);
}

} // verus!
