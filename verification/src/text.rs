//! Character and decimal-text primitives: decimal rendering and parsing
//! with their inversion lemmas, trim/find/prefix helpers, and the ordering
//! helpers the dropdown logic uses.

use vstd::prelude::*;

verus! {

/// Relies on String::push: appends exactly the given character.
#[verifier::external_body]
pub fn push_char(s: &mut String, c: char)
    ensures
        final(s)@ == old(s)@.push(c),
{
    s.push(c);
}

/// Relies on String::pop: removes exactly the last character, if any.
#[verifier::external_body]
pub fn pop_char(s: &mut String)
    ensures
        old(s)@.len() == 0 ==> final(s)@ == old(s)@,
        old(s)@.len() > 0 ==> final(s)@ == old(s)@.drop_last(),
{
    let _ = s.pop();
}

/// Whether a character is a decimal digit.
pub open spec fn is_digit_char(c: char) -> bool {
    48 <= (c as u32) <= 57
}

/// Numeric value of a digit character.
pub open spec fn digit_val(c: char) -> int {
    (c as u32) - 48
}

/// The digit character for a value below ten.
pub open spec fn digit_char(d: int) -> char {
    if d == 0 { '0' }
    else if d == 1 { '1' }
    else if d == 2 { '2' }
    else if d == 3 { '3' }
    else if d == 4 { '4' }
    else if d == 5 { '5' }
    else if d == 6 { '6' }
    else if d == 7 { '7' }
    else if d == 8 { '8' }
    else { '9' }
}

pub broadcast proof fn lemma_digit_char_val(d: int)
    requires
        0 <= d < 10,
    ensures
        is_digit_char(#[trigger] digit_char(d)),
        digit_val(digit_char(d)) == d,
{
}

/// Decimal digit string of a natural number, most significant digit first.
pub open spec fn dec_digits(n: nat) -> Seq<char>
    decreases n,
{
    if n < 10 {
        seq![digit_char(n as int)]
    } else {
        dec_digits(n / 10) + seq![digit_char((n % 10) as int)]
    }
}

pub broadcast proof fn lemma_dec_digits_wf(n: nat)
    ensures
        #[trigger] dec_digits(n).len() >= 1,
        forall|i: int| 0 <= i < dec_digits(n).len()
            ==> is_digit_char(#[trigger] dec_digits(n)[i]),
    decreases n,
{
    if n >= 10 {
        lemma_dec_digits_wf(n / 10);
    }
}

/// The one-character string for a digit value.
pub fn digit_str(d: u64) -> (r: &'static str)
    requires
        d < 10,
    ensures
        r@ == seq![digit_char(d as int)],
{
    proof {
        reveal_strlit("0");
        reveal_strlit("1");
        reveal_strlit("2");
        reveal_strlit("3");
        reveal_strlit("4");
        reveal_strlit("5");
        reveal_strlit("6");
        reveal_strlit("7");
        reveal_strlit("8");
        reveal_strlit("9");
    }
    let r = match d {
        0 => "0",
        1 => "1",
        2 => "2",
        3 => "3",
        4 => "4",
        5 => "5",
        6 => "6",
        7 => "7",
        8 => "8",
        _ => "9",
    };
    proof {
        assert(r@ =~= seq![digit_char(d as int)]);
    }
    r
}

/// Decimal rendering of an unsigned number.
pub fn dec_string(n: u64) -> (r: String)
    ensures
        r@ == dec_digits(n as nat),
    decreases n,
{
    if n < 10 {
        String::from_str(digit_str(n))
    } else {
        let mut r = dec_string(n / 10);
        r.append(digit_str(n % 10));
        r
    }
}

/// Decimal digit string of an integer, with a leading minus sign when negative.
pub open spec fn int_digits(n: int) -> Seq<char> {
    if n < 0 {
        seq!['-'] + dec_digits((-n) as nat)
    } else {
        dec_digits(n as nat)
    }
}

/// Decimal rendering of a signed number.
pub fn int_string(n: i64) -> (r: String)
    requires
        n > i64::MIN,
    ensures
        r@ == int_digits(n as int),
{
    if n < 0 {
        let mut r = String::from_str("-");
        proof {
            reveal_strlit("-");
            assert(r@ =~= seq!['-']);
        }
        let d = dec_string((-n) as u64);
        r.append(d.as_str());
        r
    } else {
        dec_string(n as u64)
    }
}

/// Digit string of a value held in hundredths, rendered with exactly two
/// decimal places.
pub open spec fn centi_digits(c: nat) -> Seq<char> {
    dec_digits(c / 100) + seq!['.'] + seq![digit_char(((c / 10) % 10) as int)]
        + seq![digit_char((c % 10) as int)]
}

/// Rendering with two decimal places of a value held in hundredths.
pub fn centi_string(c: u64) -> (r: String)
    ensures
        r@ == centi_digits(c as nat),
{
    let mut r = dec_string(c / 100);
    r.append(".");
    proof {
        reveal_strlit(".");
    }
    r.append(digit_str((c / 10) % 10));
    r.append(digit_str(c % 10));
    proof {
        assert(r@ =~= centi_digits(c as nat));
    }
    r
}

/// Length of the run of digit characters starting at `pos`.
pub open spec fn digit_run_len(s: Seq<char>, pos: int) -> int
    decreases s.len() - pos,
{
    if pos < 0 || pos >= s.len() || !is_digit_char(s[pos]) {
        0
    } else {
        1 + digit_run_len(s, pos + 1)
    }
}

pub proof fn lemma_digit_run_len_bounds(s: Seq<char>, pos: int)
    requires
        0 <= pos <= s.len(),
    ensures
        0 <= digit_run_len(s, pos),
        pos + digit_run_len(s, pos) <= s.len(),
        forall|i: int| pos <= i < pos + digit_run_len(s, pos) ==> is_digit_char(#[trigger] s[i]),
        pos + digit_run_len(s, pos) < s.len() ==> !is_digit_char(s[pos + digit_run_len(s, pos)]),
    decreases s.len() - pos,
{
    if pos < s.len() && is_digit_char(s[pos]) {
        lemma_digit_run_len_bounds(s, pos + 1);
    }
}

/// Value of a string of digit characters, most significant first.
pub open spec fn digits_val(d: Seq<char>) -> nat
    decreases d.len(),
{
    if d.len() == 0 {
        0
    } else {
        digits_val(d.drop_last()) * 10 + (if digit_val(d.last()) >= 0 { digit_val(d.last()) as nat } else { 0 })
    }
}

/// The digit string of a number evaluates back to that number.
pub proof fn lemma_digits_val_of_dec(n: nat)
    ensures
        digits_val(dec_digits(n)) == n,
    decreases n,
{
    if n < 10 {
        assert(dec_digits(n) =~= seq![digit_char(n as int)]);
        assert(dec_digits(n).drop_last() =~= Seq::<char>::empty());
        lemma_digit_char_val(n as int);
        assert(digits_val(Seq::<char>::empty()) == 0);
        assert(digits_val(dec_digits(n)) == digits_val(Seq::<char>::empty()) * 10 + n);
    } else {
        lemma_digits_val_of_dec(n / 10);
        lemma_digit_char_val((n % 10) as int);
        assert(dec_digits(n).drop_last() =~= dec_digits(n / 10));
        assert(dec_digits(n).last() == digit_char((n % 10) as int));
        assert(digits_val(dec_digits(n)) == digits_val(dec_digits(n / 10)) * 10 + n % 10);
    }
}

/// A digit-string prefix never evaluates above the whole string.
pub proof fn lemma_digits_val_prefix(d: Seq<char>, k: int)
    requires
        0 <= k <= d.len(),
    ensures
        digits_val(d.subrange(0, k)) <= digits_val(d),
    decreases d.len() - k,
{
    if k < d.len() {
        lemma_digits_val_prefix(d, k + 1);
        let a = d.subrange(0, k);
        let b = d.subrange(0, k + 1);
        assert(b.drop_last() =~= a);
        assert(digits_val(a) <= digits_val(b));
    } else {
        assert(d.subrange(0, k) =~= d);
    }
}

/// Parse of the digit run at `pos`: its value and the position after it.
/// `None` when no digit stands at `pos` or the value exceeds `u64`.
pub open spec fn spec_parse_u64(s: Seq<char>, pos: int) -> Option<(u64, int)> {
    let k = digit_run_len(s, pos);
    if k == 0 {
        None
    } else if digits_val(s.subrange(pos, pos + k)) > u64::MAX {
        None
    } else {
        Some((digits_val(s.subrange(pos, pos + k)) as u64, pos + k))
    }
}

/// Position right after the run of digits starting at `pos`.
pub fn digit_run_end(s: &str, pos: usize) -> (end: usize)
    requires
        pos <= s@.len(),
    ensures
        end == pos + digit_run_len(s@, pos as int),
        pos <= end <= s@.len(),
{
    let n = s.unicode_len();
    proof {
        lemma_digit_run_len_bounds(s@, pos as int);
    }
    let ghost k = digit_run_len(s@, pos as int);
    let mut i: usize = pos;
    loop
        invariant
            pos <= i <= n,
            n == s@.len(),
            0 <= k,
            pos + k <= n,
            k == digit_run_len(s@, pos as int),
            i <= pos + k,
            forall|j: int| pos <= j < pos + k ==> is_digit_char(#[trigger] s@[j]),
            pos + k < n ==> !is_digit_char(s@[pos + k]),
        ensures
            i == pos + k,
        decreases n - i,
    {
        if i >= n {
            proof {
                assert(i == pos + k);
            }
            break;
        }
        let c = s.get_char(i);
        if !(48 <= (c as u32) && (c as u32) <= 57) {
            proof {
                assert(!is_digit_char(s@[i as int]));
                assert(i == pos + k);
            }
            break;
        }
        proof {
            assert(is_digit_char(s@[i as int]));
            assert(i < pos + k);
        }
        i = i + 1;
    }
    i
}

/// Parses the run of digits starting at character position `pos`.
pub fn parse_u64_at(s: &str, pos: usize) -> (r: Option<(u64, usize)>)
    requires
        pos <= s@.len(),
    ensures
        r matches Some(v) ==> spec_parse_u64(s@, pos as int) == Some((v.0, v.1 as int)),
        r is None ==> spec_parse_u64(s@, pos as int) is None,
        r matches Some(v) ==> pos < v.1 <= s@.len(),
{
    let end = digit_run_end(s, pos);
    if end == pos {
        return None;
    }
    let ghost run = s@.subrange(pos as int, end as int);
    let mut i: usize = pos;
    let mut v: u64 = 0;
    proof {
        assert(run.subrange(0, 0) =~= Seq::<char>::empty());
        lemma_digit_run_len_bounds(s@, pos as int);
    }
    while i < end
        invariant
            pos <= i <= end <= s@.len(),
            end == pos + digit_run_len(s@, pos as int),
            run == s@.subrange(pos as int, end as int),
            forall|j: int| pos <= j < end ==> is_digit_char(#[trigger] s@[j]),
            v == digits_val(run.subrange(0, i - pos)),
            v <= u64::MAX,
        decreases end - i,
    {
        let c = s.get_char(i);
        let d: u64 = ((c as u32) - 48) as u64;
        proof {
            assert(run[i - pos] == s@[i as int]);
            assert(is_digit_char(run[i - pos]));
            assert(d == digit_val(run[i - pos]));
            assert(run.subrange(0, i - pos + 1).drop_last() =~= run.subrange(0, i - pos));
            assert(run.subrange(0, i - pos + 1).last() == run[i - pos]);
            assert(digits_val(run.subrange(0, i - pos + 1)) == digits_val(
                run.subrange(0, i - pos),
            ) * 10 + d);
        }
        if v > (u64::MAX - d) / 10 {
            proof {
                assert(v * 10 + d > u64::MAX) by (nonlinear_arith)
                    requires
                        v > (u64::MAX - d) / 10,
                        d < 10,
                        0 <= v,
                ;
                lemma_digits_val_prefix(run, i - pos + 1);
                assert(digits_val(run) > u64::MAX);
            }
            return None;
        }
        v = v * 10 + d;
        i = i + 1;
    }
    proof {
        assert(run.subrange(0, end - pos) =~= run);
    }
    Some((v, end))
}

/// Lexicographic order on character sequences, by code point.
pub open spec fn lex_le(a: Seq<char>, b: Seq<char>) -> bool
    decreases a.len(),
{
    if a.len() == 0 {
        true
    } else if b.len() == 0 {
        false
    } else if (a[0] as u32) < (b[0] as u32) {
        true
    } else if (a[0] as u32) > (b[0] as u32) {
        false
    } else {
        lex_le(a.skip(1), b.skip(1))
    }
}

/// Any two texts are lexicographically comparable.
pub proof fn lemma_lex_le_total(a: Seq<char>, b: Seq<char>)
    ensures
        lex_le(a, b) || lex_le(b, a),
    decreases a.len(),
{
    if a.len() > 0 && b.len() > 0 && (a[0] as u32) == (b[0] as u32) {
        lemma_lex_le_total(a.skip(1), b.skip(1));
    }
}

/// Lexicographic order is transitive.
pub proof fn lemma_lex_le_trans(a: Seq<char>, b: Seq<char>, c: Seq<char>)
    requires
        lex_le(a, b),
        lex_le(b, c),
    ensures
        lex_le(a, c),
    decreases a.len(),
{
    if a.len() > 0 && b.len() > 0 && c.len() > 0 {
        if (a[0] as u32) == (b[0] as u32) && (b[0] as u32) == (c[0] as u32) {
            lemma_lex_le_trans(a.skip(1), b.skip(1), c.skip(1));
        }
    }
}

/// Whether `a` is lexicographically at most `b`.
pub fn str_lex_le(a: &str, b: &str) -> (r: bool)
    ensures
        r == lex_le(a@, b@),
{
    let an = a.unicode_len();
    let bn = b.unicode_len();
    let mut i: usize = 0;
    proof {
        assert(a@.skip(0) =~= a@);
        assert(b@.skip(0) =~= b@);
    }
    loop
        invariant
            an == a@.len(),
            bn == b@.len(),
            i <= an,
            i <= bn,
            lex_le(a@, b@) == lex_le(a@.skip(i as int), b@.skip(i as int)),
        decreases an - i,
    {
        if i >= an {
            proof {
                assert(a@.skip(i as int).len() == 0);
            }
            return true;
        }
        if i >= bn {
            proof {
                assert(b@.skip(i as int).len() == 0);
                assert(a@.skip(i as int).len() > 0);
            }
            return false;
        }
        let ca = a.get_char(i);
        let cb = b.get_char(i);
        proof {
            assert(a@.skip(i as int)[0] == a@[i as int]);
            assert(b@.skip(i as int)[0] == b@[i as int]);
            assert(a@.skip(i as int).skip(1) =~= a@.skip(i + 1));
            assert(b@.skip(i as int).skip(1) =~= b@.skip(i + 1));
        }
        if (ca as u32) < (cb as u32) {
            return true;
        }
        if (ca as u32) > (cb as u32) {
            return false;
        }
        i = i + 1;
    }
}

/// Views of a list of strings.
pub open spec fn sviews(ss: Seq<String>) -> Seq<Seq<char>> {
    ss.map_values(|s: String| s@)
}

/// Whether some string of the list holds this text.
pub open spec fn contains_text(ss: Seq<Seq<char>>, t: Seq<char>) -> bool {
    exists|k: int| 0 <= k < ss.len() && ss[k] == t
}

/// Whether the list holds a string with the same text.
pub fn contains_string(v: &Vec<String>, s: &String) -> (r: bool)
    ensures
        r == contains_text(sviews(v@), s@),
{
    let n = v.len();
    let mut i: usize = 0;
    while i < n
        invariant
            i <= n,
            n == v@.len(),
            forall|k: int| 0 <= k < i ==> sviews(v@)[k] != s@,
        decreases n - i,
    {
        if v[i] == *s {
            proof {
                assert(sviews(v@)[i as int] == s@);
            }
            return true;
        }
        proof {
            assert(sviews(v@)[i as int] != s@);
        }
        i = i + 1;
    }
    false
}

/// Clamp of a natural number into `u32`.
pub open spec fn cap32(n: nat) -> nat {
    if n > u32::MAX {
        u32::MAX as nat
    } else {
        n
    }
}

/// Meaning of a plain decimal text, rounded to the nearest whole number
/// (half away from zero): digits, optionally followed by a point and more
/// digits, with at least one digit in all; anything else means nothing.
pub open spec fn spec_round_dec(seg: Seq<char>) -> Option<nat> {
    let k = digit_run_len(seg, 0);
    if seg.len() > 0 && k == seg.len() {
        Some(digits_val(seg))
    } else if 0 <= k < seg.len() && seg[k] == '.' && digit_run_len(seg, k + 1) == seg.len() - k
        - 1 && (k > 0 || seg.len() > k + 1) {
        let ip = digits_val(seg.subrange(0, k));
        if k + 1 < seg.len() && digit_val(seg[k + 1]) >= 5 {
            Some((ip + 1) as nat)
        } else {
            Some(ip)
        }
    } else {
        None
    }
}

/// Parses a decimal text and rounds it to the nearest whole number, capped
/// at `u32::MAX`.
pub fn parse_round_u32(s: &str) -> (r: Option<u32>)
    ensures
        match r {
            Some(v) => spec_round_dec(s@) matches Some(n) && v == cap32(n),
            None => spec_round_dec(s@) is None,
        },
{
    let n = s.unicode_len();
    proof {
        lemma_digit_run_len_bounds(s@, 0);
    }
    let k = digit_run_end(s, 0);
    if n > 0 && k == n {
        // all digits
        match parse_u64_at(s, 0) {
            Some((v, _)) => {
                proof {
                    assert(s@.subrange(0, n as int) =~= s@);
                }
                if v > u32::MAX as u64 {
                    Some(u32::MAX)
                } else {
                    Some(v as u32)
                }
            },
            None => {
                proof {
                    assert(s@.subrange(0, n as int) =~= s@);
                }
                Some(u32::MAX)
            },
        }
    } else if k < n {
        let c = s.get_char(k);
        if c != '.' {
            return None;
        }
        proof {
            lemma_digit_run_len_bounds(s@, k + 1);
        }
        let k2 = digit_run_end(s, k + 1);
        if k2 != n {
            proof {
                assert(digit_run_len(s@, k + 1) != s@.len() - k - 1);
            }
            return None;
        }
        if k == 0 && n == 1 {
            return None;
        }
        // integer part
        let ip: u64 = if k == 0 {
            proof {
                assert(s@.subrange(0, 0).len() == 0);
            }
            0
        } else {
            match parse_u64_at(s, 0) {
                Some((v, _)) => v,
                None => u64::MAX,
            }
        };
        let ghost ip_spec = digits_val(s@.subrange(0, k as int));
        proof {
            if k > 0 {
                lemma_digits_val_prefix(s@.subrange(0, k as int), k as int);
            }
        }
        // round up when the first fraction digit is five or more
        let round_up: bool = if k + 1 < n {
            let d = s.get_char(k + 1);
            (d as u32) >= 53
        } else {
            false
        };
        let add: u64 = if round_up {
            1
        } else {
            0
        };
        if ip >= u32::MAX as u64 {
            proof {
                assert(ip_spec + add >= u32::MAX) by {
                    if k > 0 && ip == u64::MAX && !(spec_parse_u64(s@, 0) matches Some(_)) {
                        assert(digits_val(s@.subrange(0, k as int)) > u64::MAX);
                    }
                }
            }
            Some(u32::MAX)
        } else {
            Some((ip + add) as u32)
        }
    } else {
        None
    }
}
pub open spec fn is_space_char(c: char) -> bool {
    c == ' ' || c == '\t' || c == '\n' || c == '\r'
}

/// First position in `[lo, hi)` that does not hold whitespace, or `hi`.
pub open spec fn lskip(s: Seq<char>, lo: int, hi: int) -> int
    decreases hi - lo,
{
    if lo < hi && 0 <= lo < s.len() && is_space_char(s[lo]) {
        lskip(s, lo + 1, hi)
    } else {
        lo
    }
}

/// Position after the last character in `[lo, hi)` that is not whitespace,
/// or `lo`.
pub open spec fn rskip(s: Seq<char>, lo: int, hi: int) -> int
    decreases hi - lo,
{
    if lo < hi && 0 < hi <= s.len() && is_space_char(s[hi - 1]) {
        rskip(s, lo, hi - 1)
    } else {
        hi
    }
}

/// The whitespace-trimmed subrange of the character range `[lo, hi)`.
pub open spec fn trimmed(s: Seq<char>, lo: int, hi: int) -> Seq<char> {
    let a = lskip(s, lo, hi);
    let b = rskip(s, a, hi);
    s.subrange(a, b)
}

/// Bounds of the whitespace-trimmed part of the character range `[lo, hi)`.
pub fn trim_range(s: &str, lo: usize, hi: usize) -> (r: (usize, usize))
    requires
        lo <= hi,
        hi <= s@.len(),
    ensures
        r.0 == lskip(s@, lo as int, hi as int),
        r.1 == rskip(s@, r.0 as int, hi as int),
        lo <= r.0 <= r.1 <= hi,
        trimmed(s@, lo as int, hi as int) == s@.subrange(r.0 as int, r.1 as int),
{
    let mut a = lo;
    loop
        invariant
            lo <= a <= hi <= s@.len(),
            lskip(s@, lo as int, hi as int) == lskip(s@, a as int, hi as int),
        ensures
            a == lskip(s@, lo as int, hi as int),
        decreases hi - a,
    {
        if a >= hi {
            break;
        }
        let c = s.get_char(a);
        if !(c == ' ' || c == '\t' || c == '\n' || c == '\r') {
            break;
        }
        a = a + 1;
    }
    let mut b = hi;
    loop
        invariant
            a <= b <= hi <= s@.len(),
            rskip(s@, a as int, hi as int) == rskip(s@, a as int, b as int),
        ensures
            b == rskip(s@, a as int, hi as int),
        decreases b,
    {
        if b <= a {
            break;
        }
        let c = s.get_char(b - 1);
        if !(c == ' ' || c == '\t' || c == '\n' || c == '\r') {
            break;
        }
        b = b - 1;
    }
    (a, b)
}

/// First position at or after `pos` holding the character, or -1.
pub open spec fn find_char_from(s: Seq<char>, c: char, pos: int) -> int
    decreases s.len() - pos,
{
    if pos < 0 || pos >= s.len() {
        -1
    } else if s[pos] == c {
        pos
    } else {
        find_char_from(s, c, pos + 1)
    }
}

pub proof fn lemma_find_char_bounds(s: Seq<char>, c: char, pos: int)
    requires
        0 <= pos <= s.len(),
    ensures
        find_char_from(s, c, pos) == -1 || (pos <= find_char_from(s, c, pos) < s.len()
            && s[find_char_from(s, c, pos)] == c),
        find_char_from(s, c, pos) == -1 ==> forall|i: int|
            pos <= i < s.len() ==> s[i] != c,
        forall|i: int| pos <= i < find_char_from(s, c, pos) ==> s[i] != c,
    decreases s.len() - pos,
{
    if pos < s.len() && s[pos] != c {
        lemma_find_char_bounds(s, c, pos + 1);
    }
}

/// Position of the first occurrence of a character at or after `pos`.
pub fn find_char(s: &str, c: char, pos: usize) -> (r: Option<usize>)
    requires
        pos <= s@.len(),
    ensures
        match r {
            Some(p) => find_char_from(s@, c, pos as int) == p && pos <= p < s@.len(),
            None => find_char_from(s@, c, pos as int) == -1,
        },
{
    let n = s.unicode_len();
    let mut i: usize = pos;
    loop
        invariant
            pos <= i <= n,
            n == s@.len(),
            find_char_from(s@, c, pos as int) == find_char_from(s@, c, i as int),
        ensures
            (i < n && find_char_from(s@, c, pos as int) == i) || (i == n && find_char_from(
                s@,
                c,
                pos as int,
            ) == -1),
        decreases n - i,
    {
        if i >= n {
            break;
        }
        if s.get_char(i) == c {
            break;
        }
        i = i + 1;
    }
    if i < n {
        Some(i)
    } else {
        None
    }
}

/// Last position holding the character, or -1.
pub open spec fn rfind_char(s: Seq<char>, c: char) -> int
    decreases s.len(),
{
    if s.len() == 0 {
        -1
    } else if s[s.len() - 1] == c {
        s.len() - 1
    } else {
        rfind_char(s.drop_last(), c)
    }
}

/// Position of the last occurrence of a character, if any.
pub fn rfind_char_in(s: &str, c: char) -> (r: Option<usize>)
    ensures
        match r {
            Some(p) => rfind_char(s@, c) == p && p < s@.len(),
            None => rfind_char(s@, c) == -1,
        },
{
    let n = s.unicode_len();
    let mut i: usize = n;
    proof {
        assert(s@.subrange(0, n as int) =~= s@);
    }
    loop
        invariant
            i <= n,
            n == s@.len(),
            rfind_char(s@, c) == rfind_char(s@.subrange(0, i as int), c),
        ensures
            (i > 0 && rfind_char(s@, c) == i - 1) || (i == 0 && rfind_char(s@, c) == -1),
        decreases i,
    {
        if i == 0 {
            proof {
                assert(s@.subrange(0, 0).len() == 0);
            }
            break;
        }
        let ch = s.get_char(i - 1);
        proof {
            assert(s@.subrange(0, i as int).len() == i);
            assert(s@.subrange(0, i as int)[i - 1] == s@[i - 1]);
            assert(s@.subrange(0, i as int).drop_last() =~= s@.subrange(0, i - 1));
        }
        if ch == c {
            break;
        }
        i = i - 1;
    }
    if i > 0 {
        Some(i - 1)
    } else {
        None
    }
}

/// Whether `p` is a prefix of `s`.
pub open spec fn has_prefix(s: Seq<char>, p: Seq<char>) -> bool {
    p.len() <= s.len() && s.subrange(0, p.len() as int) == p
}

/// Whether the string starts with the given prefix.
pub fn str_has_prefix(s: &str, p: &str) -> (r: bool)
    ensures
        r == has_prefix(s@, p@),
{
    let sn = s.unicode_len();
    let pn = p.unicode_len();
    if pn > sn {
        return false;
    }
    proof {
        assert(p@.subrange(0, pn as int) =~= p@);
    }
    str_range_eq(s, 0, pn, p, 0, pn)
}

/// Whether every character in the range is a decimal digit.
pub open spec fn all_digits(s: Seq<char>) -> bool {
    forall|i: int| 0 <= i < s.len() ==> is_digit_char(#[trigger] s[i])
}

/// Whether two character ranges hold the same text.
pub fn str_range_eq(a: &str, a0: usize, a1: usize, b: &str, b0: usize, b1: usize) -> (r: bool)
    requires
        a0 <= a1 <= a@.len(),
        b0 <= b1 <= b@.len(),
    ensures
        r == (a@.subrange(a0 as int, a1 as int) == b@.subrange(b0 as int, b1 as int)),
{
    if a1 - a0 != b1 - b0 {
        proof {
            assert(a@.subrange(a0 as int, a1 as int).len() != b@.subrange(b0 as int, b1 as int).len());
        }
        return false;
    }
    let len = a1 - a0;
    let mut i: usize = 0;
    while i < len
        invariant
            a0 <= a1 <= a@.len(),
            b0 <= b1 <= b@.len(),
            len == a1 - a0,
            len == b1 - b0,
            i <= len,
            forall|j: int| 0 <= j < i ==> #[trigger] a@[a0 + j] == b@[b0 + j],
        decreases len - i,
    {
        let ca = a.get_char(a0 + i);
        let cb = b.get_char(b0 + i);
        if ca != cb {
            proof {
                assert(a@.subrange(a0 as int, a1 as int)[i as int] == a@[a0 + i]);
                assert(b@.subrange(b0 as int, b1 as int)[i as int] == b@[b0 + i]);
            }
            return false;
        }
        i = i + 1;
    }
    proof {
        assert forall|j: int| 0 <= j < a1 - a0 implies a@.subrange(a0 as int, a1 as int)[j]
            == b@.subrange(b0 as int, b1 as int)[j] by {
            assert(a@[a0 + j] == b@[b0 + j]);
        }
        assert(a@.subrange(a0 as int, a1 as int) =~= b@.subrange(b0 as int, b1 as int));
    }
    true
}

} // verus!
