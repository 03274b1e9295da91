//! Live monitor descriptors: the per-monitor configuration and its
//! mathematical view, ingestion of a fresh snapshot (ordering and the
//! primary guarantee), and the parsing of `WxH@RHz` mode strings.

use vstd::prelude::*;

use crate::rotation::Rotation;
use crate::text::{all_digits, digit_run_len, digits_val, find_char_from, is_digit_char, lskip,
    rskip, trimmed};

verus! {

/// Mathematical view of a monitor: its text fields as character sequences.
#[verifier::ext_equal]
pub struct MonitorView {
    pub name: Seq<char>,
    pub make: Seq<char>,
    pub model: Seq<char>,
    pub resolution: Seq<char>,
    pub refresh_rate: u32,
    pub position_x: i32,
    pub position_y: i32,
    pub scale: u32,
    pub rotation: Rotation,
    pub is_primary: bool,
    pub modes: Seq<Seq<char>>,
}

impl MonitorView {
    /// Validity: a positive scale, so widths can be divided by it.
    pub open spec fn wf(self) -> bool {
        self.scale > 0
    }

    /// What the display name shows: `Laptop` for a built-in panel
    /// (name prefix `eDP`), else the model.
    pub open spec fn display_name(self) -> Seq<char> {
        if crate::text::has_prefix(self.name, "eDP"@) {
            "Laptop"@
        } else {
            self.model
        }
    }
}

/// One connected display, as the dashboard edits it. Refresh rate and scale
/// are held in hundredths (5994 is 59.94 Hz; 125 is a scale of 1.25).
#[derive(Debug)]
pub struct MonitorConfig {
    pub name: String,
    pub make: String,
    pub model: String,
    /// Resolution as `WxH` text.
    pub resolution: String,
    /// Refresh rate in hundredths of Hz.
    pub refresh_rate: u32,
    pub position_x: i32,
    pub position_y: i32,
    /// Scale in hundredths; always positive.
    pub scale: u32,
    pub rotation: Rotation,
    pub is_primary: bool,
    /// Mode strings of the form `WxH@RHz`.
    pub available_modes: Vec<String>,
}

impl View for MonitorConfig {
    type V = MonitorView;

    open spec fn view(&self) -> MonitorView {
        MonitorView {
            name: self.name@,
            make: self.make@,
            model: self.model@,
            resolution: self.resolution@,
            refresh_rate: self.refresh_rate,
            position_x: self.position_x,
            position_y: self.position_y,
            scale: self.scale,
            rotation: self.rotation,
            is_primary: self.is_primary,
            modes: crate::text::sviews(self.available_modes@),
        }
    }
}

/// Views of a list of monitors.
pub open spec fn mviews(ms: Seq<MonitorConfig>) -> Seq<MonitorView> {
    ms.map_values(|m: MonitorConfig| m@)
}

impl MonitorConfig {
    /// Name shown in the panels for this monitor.
    pub fn display_name(&self) -> (r: String)
        ensures
            r@ == self@.display_name(),
    {
        if crate::text::str_has_prefix(self.name.as_str(), "eDP") {
            String::from_str("Laptop")
        } else {
            self.model.clone()
        }
    }

    /// Field-by-field copy with the same view.
    pub fn duplicate(&self) -> (r: MonitorConfig)
        ensures
            r@ == self@,
    {
        let mut modes: Vec<String> = Vec::new();
        let mut i: usize = 0;
        while i < self.available_modes.len()
            invariant
                i <= self.available_modes@.len(),
                modes@ == self.available_modes@.subrange(0, i as int),
            decreases self.available_modes@.len() - i,
        {
            modes.push(self.available_modes[i].clone());
            proof {
                assert(modes@ =~= self.available_modes@.subrange(0, i + 1));
            }
            i = i + 1;
        }
        proof {
            assert(self.available_modes@.subrange(0, self.available_modes@.len() as int)
                =~= self.available_modes@);
        }
        let r = MonitorConfig {
            name: self.name.clone(),
            make: self.make.clone(),
            model: self.model.clone(),
            resolution: self.resolution.clone(),
            refresh_rate: self.refresh_rate,
            position_x: self.position_x,
            position_y: self.position_y,
            scale: self.scale,
            rotation: self.rotation,
            is_primary: self.is_primary,
            available_modes: modes,
        };
        proof {
            assert(r@ =~= self@);
        }
        r
    }
}

/// Builds a monitor from raw adapter values: the resolution is written
/// `WxH`, a zero scale becomes the smallest positive one, and the transform
/// code picks the rotation; text fields are taken as they come.
pub fn monitor_from_parts(
    name: &str,
    make: &str,
    model: &str,
    width: u32,
    height: u32,
    refresh_centi: u32,
    x: i32,
    y: i32,
    scale_centi: u32,
    transform: u8,
    modes: Vec<String>,
    focused: bool,
) -> (m: MonitorConfig)
    ensures
        m@.wf(),
        m@.name == name@,
        m@.make == make@,
        m@.model == model@,
        m@.resolution == crate::text::dec_digits(width as nat) + seq!['x']
            + crate::text::dec_digits(height as nat),
        m@.refresh_rate == refresh_centi,
        m@.position_x == x,
        m@.position_y == y,
        m@.scale == (if scale_centi == 0 {
            1u32
        } else {
            scale_centi
        }),
        m@.rotation == Rotation::spec_from_transform(transform),
        m@.is_primary == focused,
        m@.modes == crate::text::sviews(modes@),
{
    let mut resolution = crate::text::dec_string(width as u64);
    resolution.append("x");
    proof {
        reveal_strlit("x");
        assert("x"@ =~= seq!['x']);
    }
    let h = crate::text::dec_string(height as u64);
    resolution.append(h.as_str());
    MonitorConfig {
        name: String::from_str(name),
        make: String::from_str(make),
        model: String::from_str(model),
        resolution,
        refresh_rate: refresh_centi,
        position_x: x,
        position_y: y,
        scale: if scale_centi == 0 {
            1
        } else {
            scale_centi
        },
        rotation: Rotation::from_transform(transform),
        is_primary: focused,
        available_modes: modes,
    }
}

/// Copy of a monitor list, the same in every view.
pub fn clone_monitors(v: &Vec<MonitorConfig>) -> (r: Vec<MonitorConfig>)
    ensures
        mviews(r@) == mviews(v@),
        r@.len() == v@.len(),
{
    let mut r: Vec<MonitorConfig> = Vec::new();
    let mut i: usize = 0;
    while i < v.len()
        invariant
            i <= v@.len(),
            r@.len() == i,
            mviews(r@) == mviews(v@.subrange(0, i as int)),
        decreases v@.len() - i,
    {
        let ghost old_r = r@;
        r.push(v[i].duplicate());
        proof {
            assert forall|k: int| 0 <= k < i + 1 implies mviews(r@)[k] == mviews(
                v@.subrange(0, i + 1),
            )[k] by {
                if k < i {
                    assert(mviews(old_r)[k] == mviews(v@.subrange(0, i as int))[k]);
                    assert(r@[k] == old_r[k]);
                    assert(v@.subrange(0, i + 1)[k] == v@.subrange(0, i as int)[k]);
                } else {
                    assert(r@[k]@ == v@[i as int]@);
                }
            }
            assert(mviews(r@) =~= mviews(v@.subrange(0, i + 1)));
        }
        i = i + 1;
    }
    proof {
        assert(v@.subrange(0, v@.len() as int) =~= v@);
        assert(mviews(r@) =~= mviews(v@));
    }
    r
}

/// Whether every monitor of the list is well formed.
pub open spec fn all_wf(ms: Seq<MonitorView>) -> bool {
    forall|i: int| 0 <= i < ms.len() ==> (#[trigger] ms[i]).wf()
}

/// Whether some monitor of the list is primary.
pub open spec fn has_primary(ms: Seq<MonitorView>) -> bool {
    exists|i: int| 0 <= i < ms.len() && (#[trigger] ms[i]).is_primary
}

/// Whether exactly one monitor of the list is primary.
pub open spec fn exactly_one_primary(ms: Seq<MonitorView>) -> bool {
    has_primary(ms) && forall|i: int, j: int|
        0 <= i < ms.len() && 0 <= j < ms.len() && (#[trigger] ms[i]).is_primary
            && (#[trigger] ms[j]).is_primary ==> i == j
}

/// Whether the list is ordered left to right by horizontal position.
pub open spec fn sorted_by_x(ms: Seq<MonitorView>) -> bool {
    forall|i: int, j: int| 0 <= i < j < ms.len() ==> (#[trigger] ms[i]).position_x
        <= (#[trigger] ms[j]).position_x
}

/// Orders the list by horizontal position, keeping the same monitors.
fn sort_monitors_by_x(v: &mut Vec<MonitorConfig>)
    ensures
        sorted_by_x(mviews(final(v)@)),
        mviews(final(v)@).to_multiset() == mviews(old(v)@).to_multiset(),
        final(v)@.len() == old(v)@.len(),
{
    let n = v.len();
    if n <= 1 {
        return;
    }
    let mut i: usize = 1;
    while i < n
        invariant
            1 <= i <= n,
            n == v@.len(),
            mviews(v@).to_multiset() == mviews(old(v)@).to_multiset(),
            forall|p: int, q: int| 0 <= p < q < i ==> (#[trigger] mviews(v@)[p]).position_x
                <= (#[trigger] mviews(v@)[q]).position_x,
        decreases n - i,
    {
        let mut j: usize = i;
        while j > 0 && v[j - 1].position_x > v[j].position_x
            invariant
                0 <= j <= i < n,
                n == v@.len(),
                mviews(v@).to_multiset() == mviews(old(v)@).to_multiset(),
                forall|p: int, q: int| 0 <= p < q <= i && p != j && q != j
                    ==> (#[trigger] mviews(v@)[p]).position_x
                    <= (#[trigger] mviews(v@)[q]).position_x,
                forall|q: int| j < q <= i ==> (mviews(v@)[j as int]).position_x
                    <= (#[trigger] mviews(v@)[q]).position_x,
            decreases j,
        {
            let ghost before = v@;
            crate::swap_adjacent(v, j - 1);
            proof {
                assert(mviews(v@) =~= mviews(before).update(j - 1, mviews(before)[j as int])
                    .update(j as int, mviews(before)[j - 1]));
                crate::lemma_swap_adjacent_multiset(mviews(before), j - 1);
            }
            j = j - 1;
        }
        proof {
            assert forall|p: int, q: int| 0 <= p < q <= i implies
                (#[trigger] mviews(v@)[p]).position_x
                <= (#[trigger] mviews(v@)[q]).position_x by {
                if p == j {
                    assert(mviews(v@)[j as int].position_x <= mviews(v@)[q].position_x);
                } else if q == j {
                    // the loop stopped: the neighbour to the left is in order
                    assert(j > 0);
                    assert(v@[j - 1].position_x <= v@[j as int].position_x);
                    assert(mviews(v@)[j - 1].position_x <= mviews(v@)[j as int].position_x);
                    if p < j - 1 {
                        assert(mviews(v@)[p].position_x <= mviews(v@)[j - 1].position_x);
                    }
                }
            }
        }
        i = i + 1;
    }
}

/// Whenever two lists hold the same monitors, well-formedness of all of one
/// carries to the other.
proof fn lemma_multiset_all_wf(a: Seq<MonitorView>, b: Seq<MonitorView>)
    requires
        a.to_multiset() == b.to_multiset(),
        all_wf(a),
    ensures
        all_wf(b),
{
    assert forall|i: int| 0 <= i < b.len() implies (#[trigger] b[i]).wf() by {
        vstd::seq_lib::to_multiset_contains(b, b[i]);
        assert(b.contains(b[i]));
        assert(b.to_multiset().count(b[i]) > 0);
        vstd::seq_lib::to_multiset_contains(a, b[i]);
        assert(a.contains(b[i]));
        let j = choose|j: int| 0 <= j < a.len() && a[j] == b[i];
        assert(a[j].wf());
    }
}

/// Ingests a fresh snapshot of connected monitors: orders them left to right
/// by horizontal position and, when none is primary, makes the leftmost one
/// primary, so that a non-empty snapshot always has a primary monitor.
pub fn ingest_monitors(monitors: Vec<MonitorConfig>) -> (r: Vec<MonitorConfig>)
    ensures
        r@.len() == monitors@.len(),
        sorted_by_x(mviews(r@)),
        monitors@.len() > 0 ==> has_primary(mviews(r@)),
        all_wf(mviews(monitors@)) ==> all_wf(mviews(r@)),
        has_primary(mviews(monitors@)) ==> mviews(r@).to_multiset() == mviews(
            monitors@,
        ).to_multiset(),
        // with no primary in the snapshot, the leftmost monitor is the one
        // promoted, and the rest are the snapshot's monitors unchanged
        !has_primary(mviews(monitors@)) && monitors@.len() > 0 ==> mviews(r@)[0].is_primary
            && mviews(r@).update(
            0,
            MonitorView { is_primary: false, ..mviews(r@)[0] },
        ).to_multiset() == mviews(monitors@).to_multiset(),
{
    let ghost orig = mviews(monitors@);
    let mut v = monitors;
    sort_monitors_by_x(&mut v);
    let ghost sorted = mviews(v@);
    proof {
        vstd::seq_lib::to_multiset_len(orig);
        vstd::seq_lib::to_multiset_len(sorted);
    }
    let n = v.len();
    let mut i: usize = 0;
    let mut any: bool = false;
    while i < n
        invariant
            i <= n,
            n == v@.len(),
            mviews(v@) == sorted,
            any == exists|k: int| 0 <= k < i && (#[trigger] sorted[k]).is_primary,
        decreases n - i,
    {
        if v[i].is_primary {
            any = true;
            proof {
                assert(sorted[i as int].is_primary);
            }
        }
        i = i + 1;
    }
    proof {
        if has_primary(orig) {
            let k = choose|k: int| 0 <= k < orig.len() && (#[trigger] orig[k]).is_primary;
            vstd::seq_lib::to_multiset_contains(orig, orig[k]);
            vstd::seq_lib::to_multiset_contains(sorted, orig[k]);
            assert(sorted.contains(orig[k]));
            let m = choose|m: int| 0 <= m < sorted.len() && sorted[m] == orig[k];
            assert(sorted[m].is_primary);
            assert(any);
        }
        if all_wf(orig) {
            lemma_multiset_all_wf(orig, sorted);
        }
    }
    if !any && n > 0 {
        let first = v[0].duplicate();
        let promoted = MonitorConfig { is_primary: true, ..first };
        let ghost before = mviews(v@);
        v.set(0, promoted);
        proof {
            assert(mviews(v@) =~= before.update(
                0,
                MonitorView { is_primary: true, ..before[0] },
            ));
            assert(mviews(v@)[0].is_primary);
            assert(has_primary(mviews(v@)));
            assert forall|p: int, q: int| 0 <= p < q < mviews(v@).len() implies
                (#[trigger] mviews(v@)[p]).position_x <= (#[trigger] mviews(v@)[q]).position_x by {
                assert(sorted[p].position_x <= sorted[q].position_x);
            }
            if all_wf(orig) {
                assert forall|t: int| 0 <= t < mviews(v@).len() implies
                    (#[trigger] mviews(v@)[t]).wf() by {
                    assert(sorted[t].wf());
                }
            }
            // un-flagging the promoted monitor gives the snapshot back
            assert(!sorted[0].is_primary);
            assert((MonitorView { is_primary: false, ..mviews(v@)[0] }) =~= sorted[0]);
            assert(mviews(v@).update(
                0,
                MonitorView { is_primary: false, ..mviews(v@)[0] },
            ) =~= sorted);
        }
    } else {
        proof {
            // a positive scan on the ordered list means the snapshot itself
            // had a primary monitor
            if any {
                let k = choose|k: int| 0 <= k < n && (#[trigger] sorted[k]).is_primary;
                vstd::seq_lib::to_multiset_contains(sorted, sorted[k]);
                vstd::seq_lib::to_multiset_contains(orig, sorted[k]);
                assert(orig.contains(sorted[k]));
                let m = choose|m: int| 0 <= m < orig.len() && orig[m] == sorted[k];
                assert(orig[m].is_primary);
                assert(has_primary(orig));
            }
        }
    }
    v
}

/// Saturating multiplication, capped at `u64::MAX`.
pub open spec fn sat_mul64(a: nat, b: nat) -> nat {
    if a * b > u64::MAX { u64::MAX as nat } else { a * b }
}

/// Value a segment contributes to a pixel count: its decimal value when it is
/// a non-empty digit run that fits `u64`, else 1 (the segment is skipped).
pub open spec fn segment_pixels(seg: Seq<char>) -> nat {
    if seg.len() > 0 && all_digits(seg) && digits_val(seg) <= u64::MAX {
        digits_val(seg)
    } else {
        1
    }
}

/// Pixel count of a resolution string: the saturating product of the decimal
/// values of its `x`-separated segments, unparseable segments skipped.
pub open spec fn pixels_from(s: Seq<char>, pos: int) -> nat
    decreases s.len() - pos + 1,
{
    if pos < 0 || pos > s.len() {
        1
    } else {
        let e = find_char_from(s, 'x', pos);
        if e < 0 {
            segment_pixels(s.subrange(pos, s.len() as int))
        } else if pos <= e <= s.len() {
            sat_mul64(segment_pixels(s.subrange(pos, e)), pixels_from(s, e + 1))
        } else {
            1
        }
    }
}

/// Pixel count denoted by a resolution string such as `1920x1080`.
pub fn pixels_of(s: &str) -> (r: u64)
    ensures
        r as nat == pixels_from(s@, 0),
{
    pixels_of_at(s, 0)
}

fn pixels_of_at(s: &str, pos: usize) -> (r: u64)
    requires
        pos <= s@.len(),
    ensures
        r as nat == pixels_from(s@, pos as int),
    decreases s@.len() - pos,
{
    let n = s.unicode_len();
    proof {
        crate::text::lemma_find_char_bounds(s@, 'x', pos as int);
    }
    let e = crate::text::find_char(s, 'x', pos);
    match e {
        None => {
            let seg_val = segment_value(s, pos, n);
            proof {
                assert(s@.subrange(pos as int, s@.len() as int) == s@.subrange(
                    pos as int,
                    n as int,
                ));
            }
            seg_val
        },
        Some(p) => {
            proof {
                assert(s@[p as int] == 'x');
                assert(!is_digit_char('x'));
            }
            let seg_val = segment_value(s, pos, p);
            let rest = pixels_of_at(s, p + 1);
            mul_sat64(seg_val, rest)
        },
    }
}

/// Decimal value of the segment `[lo, hi)` when it is all digits and fits
/// `u64`, else 1. The character at `hi`, if any, must not be a digit, so the
/// digit run from `lo` cannot pass `hi`.
fn segment_value(s: &str, lo: usize, hi: usize) -> (r: u64)
    requires
        lo <= hi <= s@.len(),
        hi == s@.len() || !is_digit_char(s@[hi as int]),
    ensures
        r as nat == segment_pixels(s@.subrange(lo as int, hi as int)),
{
    let ghost seg = s@.subrange(lo as int, hi as int);
    if lo == hi {
        proof {
            assert(seg.len() == 0);
        }
        return 1;
    }
    proof {
        crate::text::lemma_digit_run_len_bounds(s@, lo as int);
        lemma_run_len_subrange(s@, lo as int, hi as int);
        // the run cannot pass hi: s[hi] is not a digit
        let k = digit_run_len(s@, lo as int);
        if lo + k > hi {
            assert(is_digit_char(s@[hi as int]));
        }
    }
    let run_end = crate::text::digit_run_end(s, lo);
    if run_end < hi {
        proof {
            if all_digits(seg) {
                assert(is_digit_char(seg[run_end - lo]));
                assert(seg[run_end - lo] == s@[run_end as int]);
            }
        }
        return 1;
    }
    proof {
        let k = digit_run_len(s@, lo as int);
        assert(lo + k == hi);
        assert(s@.subrange(lo as int, lo + k) == seg);
        assert(all_digits(seg));
    }
    match crate::text::parse_u64_at(s, lo) {
        Some((value, _)) => value,
        None => 1,
    }
}

/// The digit run within a subrange: if the run from `lo` reaches `hi` or
/// beyond, the subrange is all digits.
proof fn lemma_run_len_subrange(s: Seq<char>, lo: int, hi: int)
    requires
        0 <= lo <= hi <= s.len(),
    ensures
        lo + digit_run_len(s, lo) >= hi ==> all_digits(s.subrange(lo, hi)),
        forall|i: int| lo <= i < lo + digit_run_len(s, lo) ==> is_digit_char(#[trigger] s[i]),
        lo + digit_run_len(s, lo) < hi ==> !is_digit_char(s[lo + digit_run_len(s, lo)]),
{
    crate::text::lemma_digit_run_len_bounds(s, lo);
    if lo + digit_run_len(s, lo) >= hi {
        assert forall|i: int| 0 <= i < hi - lo implies is_digit_char(
            #[trigger] s.subrange(lo, hi)[i],
        ) by {
            assert(s.subrange(lo, hi)[i] == s[lo + i]);
        }
    }
}

/// Saturating product of two pixel counts.
fn mul_sat64(a: u64, b: u64) -> (r: u64)
    ensures
        r as nat == sat_mul64(a as nat, b as nat),
{
    match a.checked_mul(b) {
        Some(p) => p,
        None => u64::MAX,
    }
}

/// The whitespace-trimmed resolution part of a mode string: what stands
/// before its first `@`, or nothing when the mode has no `@`.
pub open spec fn mode_res(m: Seq<char>) -> Option<Seq<char>> {
    let at = find_char_from(m, '@', 0);
    if at < 0 {
        None
    } else {
        Some(trimmed(m, 0, at))
    }
}

/// The rate part of a mode string: what stands after its first `@`, trimmed,
/// with every trailing `Hz` stripped, trimmed again. `None` when the mode has
/// no `@`.
pub open spec fn mode_rate_text(m: Seq<char>) -> Option<Seq<char>> {
    let at = find_char_from(m, '@', 0);
    if at < 0 {
        None
    } else {
        let a = lskip(m, at + 1, m.len() as int);
        let b = rskip(m, a, m.len() as int);
        let b2 = strip_hz_end(m, a, b);
        Some(trimmed(m, a, b2))
    }
}

/// Position before any trailing repetitions of `Hz` in `[lo, hi)`.
pub open spec fn strip_hz_end(s: Seq<char>, lo: int, hi: int) -> int
    decreases hi - lo,
{
    if lo + 2 <= hi && hi <= s.len() && s[hi - 2] == 'H' && s[hi - 1] == 'z' {
        strip_hz_end(s, lo, hi - 2)
    } else {
        hi
    }
}

pub proof fn lemma_strip_hz_bounds(s: Seq<char>, lo: int, hi: int)
    requires
        0 <= lo <= hi,
    ensures
        lo <= strip_hz_end(s, lo, hi) <= hi,
    decreases hi - lo,
{
    if lo + 2 <= hi && hi <= s.len() && s[hi - 2] == 'H' && s[hi - 1] == 'z' {
        lemma_strip_hz_bounds(s, lo, hi - 2);
    }
}

/// The whole refresh rate a mode string offers, in Hz rounded to the nearest
/// whole number: its rate part read as a decimal; nothing when the mode has
/// no `@` or the rate part is not a decimal.
pub open spec fn mode_rate(m: Seq<char>) -> Option<u32> {
    match mode_rate_text(m) {
        Option::None => Option::None,
        Option::Some(t) => match crate::text::spec_round_dec(t) {
            Option::None => Option::None,
            Option::Some(n) => Option::Some(crate::text::cap32(n) as u32),
        },
    }
}

/// Rounded whole refresh rate of a mode string, if it has one.
pub fn mode_rate_of(m: &str) -> (r: Option<u32>)
    ensures
        r == mode_rate(m@),
{
    match mode_rate_text_of(m) {
        Some(t) => crate::text::parse_round_u32(t.as_str()),
        None => None,
    }
}

/// Resolution part of a mode string, when the mode has an `@`.
pub fn mode_res_of(m: &str) -> (r: Option<String>)
    ensures
        match r {
            Some(res) => mode_res(m@) == Some(res@),
            None => mode_res(m@) is None,
        },
{
    let at = match crate::text::find_char(m, '@', 0) {
        Some(p) => p,
        None => {
            return None;
        },
    };
    let (a, b) = crate::text::trim_range(m, 0, at);
    let part = m.substring_char(a, b);
    Some(String::from_str(part))
}

/// Rate part of a mode string (trimmed, `Hz` suffixes stripped), when the
/// mode has an `@`.
pub fn mode_rate_text_of(m: &str) -> (r: Option<String>)
    ensures
        match r {
            Some(t) => mode_rate_text(m@) == Some(t@),
            None => mode_rate_text(m@) is None,
        },
{
    let n = m.unicode_len();
    let at = match crate::text::find_char(m, '@', 0) {
        Some(p) => p,
        None => {
            return None;
        },
    };
    let (a, b) = crate::text::trim_range(m, at + 1, n);
    proof {
        lemma_strip_hz_bounds(m@, a as int, b as int);
    }
    let mut b2 = b;
    loop
        invariant
            a <= b2 <= b <= n,
            n == m@.len(),
            strip_hz_end(m@, a as int, b as int) == strip_hz_end(m@, a as int, b2 as int),
        ensures
            b2 == strip_hz_end(m@, a as int, b as int),
        decreases b2,
    {
        if b2 < 2 || b2 - 2 < a {
            break;
        }
        let ch = m.get_char(b2 - 2);
        let cz = m.get_char(b2 - 1);
        if !(ch == 'H' && cz == 'z') {
            break;
        }
        proof {
            lemma_strip_hz_bounds(m@, a as int, b2 - 2);
        }
        b2 = b2 - 2;
    }
    let (a2, b3) = crate::text::trim_range(m, a, b2);
    let part = m.substring_char(a2, b3);
    Some(String::from_str(part))
}

} // verus!
