//! Epoch parsing into TDB nanoseconds.
use vstd::prelude::*;
use anise::prelude::{Duration, Epoch, TimeScale};
use crate::text::{digits_value, is_digit_char};

verus! {

/// hifitime's time scale of an epoch, carried through without being read.
#[verifier::external_type_specification]
#[verifier::external_body]
pub struct ExTimeScale(TimeScale);

/// What the epoch parser makes of `text`: the epoch's duration in
/// nanoseconds in its own time scale, with that time scale; or the parser's
/// error message.
pub uninterp spec fn parsed_epoch(text: Seq<char>) -> Result<(int, TimeScale), Seq<char>>;

/// The TDB duration, in nanoseconds, of the epoch `ns` nanoseconds into `scale`.
pub uninterp spec fn tdb_ns_of(ns: int, scale: TimeScale) -> int;

/// 2^77, above the magnitude of every TDB duration in nanoseconds: a
/// duration is a signed 16-bit count of centuries (3.15576e18 ns each) plus
/// an unsigned 64-bit count of nanoseconds, at most about 1.04e23 in all.
pub open spec fn duration_limit() -> int {
    0x20000000000000000000
}

/// A character that `str::trim` removes: Unicode's `White_Space`.
pub open spec fn is_trim_space(c: char) -> bool {
    let u = c as int;
    ||| 9 <= u <= 13
    ||| u == 0x20
    ||| u == 0x85
    ||| u == 0xA0
    ||| u == 0x1680
    ||| 0x2000 <= u <= 0x200A
    ||| u == 0x2028
    ||| u == 0x2029
    ||| u == 0x202F
    ||| u == 0x205F
    ||| u == 0x3000
}

/// `t` without its leading whitespace.
pub open spec fn trim_start(t: Seq<char>) -> Seq<char>
    decreases t.len(),
{
    if t.len() > 0 && is_trim_space(t[0]) {
        trim_start(t.drop_first())
    } else {
        t
    }
}

/// `t` without its trailing whitespace.
pub open spec fn trim_end(t: Seq<char>) -> Seq<char>
    decreases t.len(),
{
    if t.len() > 0 && is_trim_space(t.last()) {
        trim_end(t.drop_last())
    } else {
        t
    }
}

/// `t` without leading and trailing whitespace, as `str::trim` gives it.
pub open spec fn trimmed(t: Seq<char>) -> Seq<char> {
    trim_end(trim_start(t))
}

/// `s` starts like a numeric epoch: `JD`, `MJD` or `SEC`.
pub open spec fn has_numeric_prefix(s: Seq<char>) -> bool {
    ||| s.len() >= 2 && s[0] == 'J' && s[1] == 'D'
    ||| s.len() >= 3 && s[0] == 'M' && s[1] == 'J' && s[2] == 'D'
    ||| s.len() >= 3 && s[0] == 'S' && s[1] == 'E' && s[2] == 'C'
}

/// The characters of a numeric epoch `s` among which its number lies: after
/// the first two characters, and before the time scale that ends the text
/// (taken as its last two characters, or four when it ends in `GPS`).
pub open spec fn numeric_field(s: Seq<char>) -> Seq<char> {
    let n = s.len() as int;
    let end = if n >= 4 && s[n - 3] == 'G' && s[n - 2] == 'P' && s[n - 1] == 'S' {
        n - 4
    } else {
        n - 2
    };
    if end <= 2 {
        Seq::empty()
    } else {
        s.subrange(2, end)
    }
}

/// A letter of every spelling of infinity and NaN (`inf`, `infinity`, `nan`,
/// in any case): a number without these letters is not one of them.
pub open spec fn is_nonfinite_letter(c: char) -> bool {
    c == 'a' || c == 'f' || c == 'i' || c == 'n' || c == 'A' || c == 'F' || c == 'I' || c == 'N'
}

/// An exponent marker.
pub open spec fn is_exponent_marker(c: char) -> bool {
    c == 'e' || c == 'E'
}

/// The position of the first exponent marker in `u`, or its length if none.
pub open spec fn marker_index(u: Seq<char>) -> nat
    decreases u.len(),
{
    if u.len() == 0 || is_exponent_marker(u[0]) {
        0
    } else {
        1 + marker_index(u.drop_first())
    }
}

/// The number of decimal digits in `u`.
pub open spec fn count_digits(u: Seq<char>) -> nat
    decreases u.len(),
{
    if u.len() == 0 {
        0
    } else {
        count_digits(u.drop_last()) + if is_digit_char(u.last()) {
            1nat
        } else {
            0nat
        }
    }
}

/// The number of decimal digits with which `u` starts.
pub open spec fn leading_digits(u: Seq<char>) -> nat
    decreases u.len(),
{
    if u.len() > 0 && is_digit_char(u[0]) {
        1 + leading_digits(u.drop_first())
    } else {
        0
    }
}

/// Any number written in `u` is finite. With no letter of infinity or NaN,
/// a number below 10^308 is finite; a number written with `d` digits before
/// its exponent marker (or with none) and an exponent of at most `x` is below
/// 10^(d + x), and a negative exponent makes it smaller still.
pub open spec fn number_finite(u: Seq<char>) -> bool {
    let p = marker_index(u);
    let d = count_digits(u.take(p as int));
    &&& forall|i: int| 0 <= i < u.len() ==> !is_nonfinite_letter(#[trigger] u[i])
    &&& if p >= u.len() {
        d <= 308
    } else {
        let after = u.subrange(p as int + 1, u.len() as int);
        if after.len() > 0 && after[0] == '-' {
            d <= 308
        } else {
            let rest = if after.len() > 0 && after[0] == '+' {
                after.drop_first()
            } else {
                after
            };
            d + digits_value(rest.take(leading_digits(rest) as int)) <= 308
        }
    }
}

/// The digits of the largest `i32`, which no year may equal.
pub open spec fn largest_i32_digits() -> Seq<char> {
    seq!['2', '1', '4', '7', '4', '8', '3', '6', '4', '7']
}

/// At `i`, `t` has a decimal point followed by more than nine digits.
pub open spec fn long_fraction_at(t: Seq<char>, i: int) -> bool {
    &&& 0 <= i
    &&& i + 10 < t.len()
    &&& t[i] == '.'
    &&& forall|j: int| 1 <= j <= 10 ==> is_digit_char(#[trigger] t[i + j])
}

/// At `i`, `t` holds the digits of the largest `i32`.
pub open spec fn largest_i32_at(t: Seq<char>, i: int) -> bool {
    0 <= i && i + 10 <= t.len() && t.subrange(i, i + 10) == largest_i32_digits()
}

/// Texts on which the epoch parser returns rather than panics.
/// A numeric epoch (`JD`, `MJD`, `SEC`) panics when its number is not finite,
/// so its number must be finite. Another text is read as a Gregorian date,
/// which panics on a fraction of a second of more than nine digits and on
/// December 31, 23:59 of the year 2147483647; such texts, and any text
/// holding either pattern (which the date parser refuses in every other
/// place), are left out.
pub open spec fn epoch_text_safe(t: Seq<char>) -> bool {
    let s = trimmed(t);
    if has_numeric_prefix(s) {
        number_finite(numeric_field(s))
    } else {
        forall|i: int| 0 <= i < t.len() ==> !long_fraction_at(t, i) && !largest_i32_at(t, i)
    }
}

/// Calls hifitime's `Epoch::from_str` (through anise's prelude) on `text`
/// and gives the epoch's duration in its own time scale, in nanoseconds
/// (`total_nanoseconds`), with that time scale; an error is rendered with its
/// `Display` implementation. Claimed: the outcome depends on the text alone,
/// and the nanosecond count is below `duration_limit()` in magnitude, as
/// `Duration::total_nanoseconds` computes it from an `i16` and a `u64`. The
/// parser panics when the value of a `JD`, `MJD` or `SEC` epoch is not finite
/// (in `Unit::const_multiply`), when a Gregorian fraction of a second has
/// more than nine digits (a `usize` underflow), and on December 31, 23:59 of
/// the year 2147483647 (an `i32` overflow); `requires` leaves these texts
/// out, as `epoch_text_safe` describes.
#[verifier::external_body]
fn parse_epoch(text: &str) -> (r: Result<(i128, TimeScale), String>)
    requires
        epoch_text_safe(text@),
    ensures
        r matches Ok((ns, ts)) ==> (parsed_epoch(text@) matches Ok((v, s)) && v == ns && s == ts),
        r matches Ok((ns, ts)) ==> -duration_limit() < ns < duration_limit(),
        r matches Err(msg) ==> (parsed_epoch(text@) matches Err(m) && m == msg@),
{
    match text.parse::<Epoch>() {
        Ok(epoch) => Ok((epoch.duration.total_nanoseconds(), epoch.time_scale)),
        Err(e) => Err(format!("{e}")),
    }
}

/// Calls hifitime's `Epoch::from_duration` on `Duration::from_total_nanoseconds(ns)`
/// and `scale`, then `to_tdb_duration().total_nanoseconds()`. Claimed: the
/// result depends on `ns` and `scale` alone, and is below `duration_limit()`
/// in magnitude, as any duration's nanosecond count is.
#[verifier::external_body]
fn to_tdb_ns(ns: i128, scale: TimeScale) -> (r: i128)
    ensures
        r == tdb_ns_of(ns as int, scale),
        -duration_limit() < r < duration_limit(),
{
    Epoch::from_duration(Duration::from_total_nanoseconds(ns), scale).to_tdb_duration().total_nanoseconds()
}

/// Compares two time scales with hifitime's derived `PartialEq`. Claimed: the
/// result is whether they are the same time scale (a fieldless enum).
#[verifier::external_body]
fn same_scale(a: TimeScale, b: TimeScale) -> (r: bool)
    ensures
        r == (a == b),
{
    a == b
}

/// The message with which an epoch text outside `epoch_text_safe` is refused.
pub open spec fn unsupported_epoch_message(text: Seq<char>) -> Seq<char> {
    "Unsupported epoch (a number that may not be finite, a fraction of a second beyond nine digits, or the year 2147483647): "@ + text
}

/// What reading `text` as an epoch gives: its duration in nanoseconds in
/// its own time scale, with that time scale; or the message of the error
/// that refuses it. A text outside `epoch_text_safe` is refused before the
/// parser sees it.
pub open spec fn window_epoch(text: Seq<char>) -> Result<(int, TimeScale), Seq<char>> {
    if !epoch_text_safe(text) {
        Err(unsupported_epoch_message(text))
    } else {
        parsed_epoch(text)
    }
}

/// Read one epoch text, refusing a text that the parser cannot be given
/// safely: its duration in nanoseconds in its own time scale, and that scale.
pub fn read_epoch(text: &str) -> (r: Result<(i128, TimeScale), String>)
    ensures
        r matches Ok((ns, ts)) ==> (window_epoch(text@) matches Ok((v, s)) && v == ns && s == ts),
        r matches Ok((ns, ts)) ==> -duration_limit() < ns < duration_limit(),
        r matches Err(msg) ==> (window_epoch(text@) matches Err(m) && m == msg@),
{
    if !epoch_text_is_safe(text) {
        let mut msg = String::from_str(
            "Unsupported epoch (a number that may not be finite, a fraction of a second beyond nine digits, or the year 2147483647): ",
        );
        msg.append(text);
        return Err(msg);
    }
    parse_epoch(text)
}

/// Four epochs on one time line: when all share a time scale, their
/// nanoseconds in that scale (with `Some` of the scale); else their TDB
/// nanoseconds (with `None`).
pub open spec fn on_common_line(
    a: (int, TimeScale),
    b: (int, TimeScale),
    c: (int, TimeScale),
    d: (int, TimeScale),
) -> (Seq<int>, Option<TimeScale>) {
    if b.1 == a.1 && c.1 == a.1 && d.1 == a.1 {
        (seq![a.0, b.0, c.0, d.0], Some(a.1))
    } else {
        (seq![tdb_ns_of(a.0, a.1), tdb_ns_of(b.0, b.1), tdb_ns_of(c.0, c.1), tdb_ns_of(d.0, d.1)], None)
    }
}

/// Put four epochs on one time line: see `on_common_line`.
pub fn common_time_line(
    a: (i128, TimeScale),
    b: (i128, TimeScale),
    c: (i128, TimeScale),
    d: (i128, TimeScale),
) -> (r: (i128, i128, i128, i128, Option<TimeScale>))
    requires
        -duration_limit() < a.0 < duration_limit(),
        -duration_limit() < b.0 < duration_limit(),
        -duration_limit() < c.0 < duration_limit(),
        -duration_limit() < d.0 < duration_limit(),
    ensures
        ({
            let line = on_common_line(
                (a.0 as int, a.1),
                (b.0 as int, b.1),
                (c.0 as int, c.1),
                (d.0 as int, d.1),
            );
            &&& r.0 == line.0[0]
            &&& r.1 == line.0[1]
            &&& r.2 == line.0[2]
            &&& r.3 == line.0[3]
            &&& r.4 == line.1
        }),
        -duration_limit() < r.0 < duration_limit(),
        -duration_limit() < r.1 < duration_limit(),
        -duration_limit() < r.2 < duration_limit(),
        -duration_limit() < r.3 < duration_limit(),
{
    if same_scale(b.1, a.1) && same_scale(c.1, a.1) && same_scale(d.1, a.1) {
        (a.0, b.0, c.0, d.0, Some(a.1))
    } else {
        (to_tdb_ns(a.0, a.1), to_tdb_ns(b.0, b.1), to_tdb_ns(c.0, c.1), to_tdb_ns(d.0, d.1), None)
    }
}

fn is_trim_space_char(c: char) -> (b: bool)
    ensures
        b == is_trim_space(c),
{
    let u = c as u32;
    (9 <= u && u <= 13) || u == 0x20 || u == 0x85 || u == 0xA0 || u == 0x1680 || (0x2000 <= u && u
        <= 0x200A) || u == 0x2028 || u == 0x2029 || u == 0x202F || u == 0x205F || u == 0x3000
}

fn is_digit(c: char) -> (b: bool)
    ensures
        b == is_digit_char(c),
{
    let u = c as u32;
    assert('0' as int == 48 && '9' as int == 57);
    48 <= u && u <= 57
}

fn digit_value(c: char) -> (v: u32)
    requires
        is_digit_char(c),
    ensures
        v == c as int - '0' as int,
{
    assert('0' as int == 48);
    (c as u32) - 48
}

fn is_nonfinite_letter_char(c: char) -> (b: bool)
    ensures
        b == is_nonfinite_letter(c),
{
    c == 'a' || c == 'f' || c == 'i' || c == 'n' || c == 'A' || c == 'F' || c == 'I' || c == 'N'
}

fn chars_of(text: &str) -> (cs: Vec<char>)
    ensures
        cs@ == text@,
{
    let n = text.unicode_len();
    let mut cs: Vec<char> = Vec::new();
    let mut i: usize = 0;
    while i < n
        invariant
            n == text@.len(),
            i <= n,
            cs@ =~= text@.subrange(0, i as int),
        decreases n - i,
    {
        cs.push(text.get_char(i));
        i = i + 1;
    }
    assert(cs@ =~= text@);
    cs
}

/// Whether every number written in `cs[a..b]` is finite: see `number_finite`.
fn number_is_finite(cs: &Vec<char>, a: usize, b: usize) -> (r: bool)
    requires
        a <= b <= cs@.len(),
    ensures
        r == number_finite(cs@.subrange(a as int, b as int)),
{
    let ghost u = cs@.subrange(a as int, b as int);
    let mut i: usize = a;
    while i < b
        invariant
            a <= i <= b <= cs@.len(),
            u == cs@.subrange(a as int, b as int),
            forall|j: int| 0 <= j < i - a ==> !is_nonfinite_letter(#[trigger] u[j]),
        decreases b - i,
    {
        if is_nonfinite_letter_char(cs[i]) {
            assert(u[i - a] == cs@[i as int]);
            return false;
        }
        i = i + 1;
    }
    let mut p: usize = a;
    assert(u.subrange(0, u.len() as int) =~= u);
    while p < b && !(cs[p] == 'e' || cs[p] == 'E')
        invariant
            a <= p <= b <= cs@.len(),
            u == cs@.subrange(a as int, b as int),
            marker_index(u) == (p - a) + marker_index(cs@.subrange(p as int, b as int)),
        decreases b - p,
    {
        let ghost sub = cs@.subrange(p as int, b as int);
        assert(sub.drop_first() =~= cs@.subrange(p + 1, b as int));
        p = p + 1;
    }
    assert(marker_index(cs@.subrange(p as int, b as int)) == 0);
    let ghost mp = (p - a) as int;
    assert(marker_index(u) == mp);
    let mut d: usize = 0;
    let mut k: usize = a;
    while k < p
        invariant
            a <= k <= p <= b <= cs@.len(),
            d <= k - a,
            d == count_digits(cs@.subrange(a as int, k as int)),
        decreases p - k,
    {
        let ghost prev = cs@.subrange(a as int, k as int);
        assert(cs@.subrange(a as int, k + 1).drop_last() =~= prev);
        if is_digit(cs[k]) {
            d = d + 1;
        }
        k = k + 1;
    }
    assert(u.take(mp) =~= cs@.subrange(a as int, p as int));
    if p == b {
        return d <= 308;
    }
    let mut q: usize = p + 1;
    let ghost after = u.subrange(mp + 1, u.len() as int);
    assert(after =~= cs@.subrange(q as int, b as int));
    if q < b && cs[q] == '-' {
        return d <= 308;
    }
    if q < b && cs[q] == '+' {
        q = q + 1;
    }
    let ghost rest = cs@.subrange(q as int, b as int);
    assert(rest == (if after.len() > 0 && after[0] == '+' { after.drop_first() } else { after }));
    let mut v: u32 = 0;
    let mut e: usize = q;
    assert(rest.subrange(0, rest.len() as int) =~= rest);
    while e < b && is_digit(cs[e])
        invariant
            q <= e <= b <= cs@.len(),
            rest == cs@.subrange(q as int, b as int),
            leading_digits(rest) == (e - q) + leading_digits(cs@.subrange(e as int, b as int)),
            forall|j: int| q <= j < e ==> is_digit_char(#[trigger] cs@[j]),
            v <= 1000,
            v == (if digits_value(cs@.subrange(q as int, e as int)) <= 1000 {
                digits_value(cs@.subrange(q as int, e as int))
            } else {
                1000
            }),
        decreases b - e,
    {
        let ghost sub = cs@.subrange(e as int, b as int);
        assert(sub.drop_first() =~= cs@.subrange(e + 1, b as int));
        let ghost pre = cs@.subrange(q as int, e as int);
        let ghost next = cs@.subrange(q as int, e + 1);
        assert(next.drop_last() =~= pre);
        assert(next.last() == cs@[e as int]);
        let dv = digit_value(cs[e]);
        let w: u32 = v * 10 + dv;
        v = if w > 1000 { 1000 } else { w };
        e = e + 1;
    }
    assert(leading_digits(cs@.subrange(e as int, b as int)) == 0);
    assert(rest.take(leading_digits(rest) as int) =~= cs@.subrange(q as int, e as int));
    d <= 308 && v <= 308 - d as u32
}

/// Whether `cs` has, at `i`, a decimal point followed by more than nine digits.
fn long_fraction_here(cs: &Vec<char>, i: usize) -> (r: bool)
    requires
        i < cs@.len(),
    ensures
        r == long_fraction_at(cs@, i as int),
{
    if cs.len() - i <= 10 || cs[i] != '.' {
        return false;
    }
    let mut j: usize = 1;
    while j <= 10
        invariant
            1 <= j <= 11,
            i + 10 < cs.len(),
            cs@[i as int] == '.',
            forall|k: int| 1 <= k < j ==> is_digit_char(#[trigger] cs@[i + k]),
        decreases 11 - j,
    {
        if !is_digit(cs[i + j]) {
            return false;
        }
        j = j + 1;
    }
    true
}

/// Whether `cs` holds, at `i`, the digits of the largest `i32`.
fn largest_i32_here(cs: &Vec<char>, i: usize) -> (r: bool)
    requires
        i < cs@.len(),
    ensures
        r == largest_i32_at(cs@, i as int),
{
    if cs.len() - i < 10 {
        return false;
    }
    let pattern: Vec<char> = vec!['2', '1', '4', '7', '4', '8', '3', '6', '4', '7'];
    assert(pattern@ =~= largest_i32_digits());
    let mut j: usize = 0;
    while j < 10
        invariant
            j <= 10,
            i + 10 <= cs.len(),
            pattern@ == largest_i32_digits(),
            forall|k: int| 0 <= k < j ==> cs@[i + k] == pattern@[k],
        decreases 10 - j,
    {
        if cs[i + j] != pattern[j] {
            assert(cs@.subrange(i as int, i + 10)[j as int] != largest_i32_digits()[j as int]);
            return false;
        }
        j = j + 1;
    }
    assert(cs@.subrange(i as int, i + 10) =~= largest_i32_digits());
    true
}

/// Whether the epoch parser can be given `text`: see `epoch_text_safe`.
pub fn epoch_text_is_safe(text: &str) -> (b: bool)
    ensures
        b == epoch_text_safe(text@),
{
    let cs = chars_of(text);
    let n = cs.len();
    let ghost t = text@;
    let mut lo: usize = 0;
    assert(t.subrange(0, n as int) =~= t);
    while lo < n && is_trim_space_char(cs[lo])
        invariant
            n == t.len(),
            cs@ == t,
            lo <= n,
            trim_start(t) == trim_start(t.subrange(lo as int, n as int)),
        decreases n - lo,
    {
        let ghost sub = t.subrange(lo as int, n as int);
        assert(sub.drop_first() =~= t.subrange(lo + 1, n as int));
        lo = lo + 1;
    }
    assert(trim_start(t) == t.subrange(lo as int, n as int));
    let mut hi: usize = n;
    while hi > lo && is_trim_space_char(cs[hi - 1])
        invariant
            n == t.len(),
            cs@ == t,
            lo <= hi <= n,
            trimmed(t) == trim_end(t.subrange(lo as int, hi as int)),
        decreases hi - lo,
    {
        let ghost sub = t.subrange(lo as int, hi as int);
        assert(sub.drop_last() =~= t.subrange(lo as int, hi - 1));
        hi = hi - 1;
    }
    let ghost s = t.subrange(lo as int, hi as int);
    assert(trimmed(t) == s);
    let len = hi - lo;
    let numeric = (len >= 2 && cs[lo] == 'J' && cs[lo + 1] == 'D') || (len >= 3 && cs[lo] == 'M'
        && cs[lo + 1] == 'J' && cs[lo + 2] == 'D') || (len >= 3 && cs[lo] == 'S' && cs[lo + 1]
        == 'E' && cs[lo + 2] == 'C');
    assert(numeric == has_numeric_prefix(s));
    if numeric {
        let end: usize = if len >= 4 && cs[hi - 3] == 'G' && cs[hi - 2] == 'P' && cs[hi - 1] == 'S' {
            len - 4
        } else {
            len - 2
        };
        if end <= 2 {
            assert(numeric_field(s) =~= Seq::<char>::empty());
            assert(marker_index(numeric_field(s)) == 0);
            assert(numeric_field(s).take(0) =~= Seq::<char>::empty());
            return true;
        }
        assert(numeric_field(s) =~= cs@.subrange(lo + 2, lo + end));
        return number_is_finite(&cs, lo + 2, lo + end);
    }
    let mut i: usize = 0;
    while i < n
        invariant
            n == t.len(),
            cs@ == t,
            t == text@,
            !has_numeric_prefix(trimmed(t)),
            i <= n,
            forall|k: int| 0 <= k < i ==> !long_fraction_at(t, k) && !largest_i32_at(t, k),
        decreases n - i,
    {
        if long_fraction_here(&cs, i) || largest_i32_here(&cs, i) {
            return false;
        }
        i = i + 1;
    }
    true
}

proof fn lemma_no_marker_index(u: Seq<char>)
    requires
        forall|i: int| 0 <= i < u.len() ==> !is_exponent_marker(#[trigger] u[i]),
    ensures
        marker_index(u) == u.len(),
    decreases u.len(),
{
    if u.len() > 0 {
        assert(!is_exponent_marker(u[0]));
        let rest = u.drop_first();
        assert forall|i: int| 0 <= i < rest.len() implies !is_exponent_marker(#[trigger] rest[i]) by {
            assert(rest[i] == u[i + 1]);
        }
        lemma_no_marker_index(rest);
    }
}

proof fn lemma_count_digits_bounded(u: Seq<char>)
    ensures
        count_digits(u) <= u.len(),
    decreases u.len(),
{
    if u.len() > 0 {
        lemma_count_digits_bounded(u.drop_last());
    }
}

/// A number written without an exponent, without any letter of `inf`,
/// `infinity` or `nan`, and in at most 308 characters is finite: every
/// plain decimal of up to 308 characters (such as `2460000.500000000`) counts
/// as finite.
pub proof fn lemma_plain_decimal_is_finite(u: Seq<char>)
    requires
        u.len() <= 308,
        forall|i: int|
            0 <= i < u.len() ==> {
                let c = #[trigger] u[i];
                c != 'e' && c != 'E' && c != 'a' && c != 'A' && c != 'f' && c != 'F' && c != 'i' && c
                    != 'I' && c != 'n' && c != 'N'
            },
    ensures
        number_finite(u),
{
    lemma_no_marker_index(u);
    assert(u.take(u.len() as int) =~= u);
    lemma_count_digits_bounded(u);
}

/// A numeric epoch (`JD`, `MJD` or `SEC`, after trimming) whose number field
/// is at most 308 characters without an exponent or a letter of `inf`,
/// `infinity` or `nan` is safe: it is handed to the parser, whatever the
/// number of its digits.
pub proof fn lemma_plain_numeric_epoch_is_safe(t: Seq<char>)
    requires
        has_numeric_prefix(trimmed(t)),
        numeric_field(trimmed(t)).len() <= 308,
        forall|i: int|
            0 <= i < numeric_field(trimmed(t)).len() ==> {
                let c = #[trigger] numeric_field(trimmed(t))[i];
                c != 'e' && c != 'E' && c != 'a' && c != 'A' && c != 'f' && c != 'F' && c != 'i' && c
                    != 'I' && c != 'n' && c != 'N'
            },
    ensures
        epoch_text_safe(t),
{
    lemma_plain_decimal_is_finite(numeric_field(trimmed(t)));
}

/// The four window epochs are put on one time line: the line keeps a time
/// scale (and the epochs' own nanoseconds) exactly when all four are written
/// in it; as soon as one epoch's time scale differs from the departure
/// start's, the line is TDB (`None`) and each value is the TDB nanoseconds
/// of its own epoch.
pub proof fn lemma_common_line_is_one_time_line(
    a: (int, TimeScale),
    b: (int, TimeScale),
    c: (int, TimeScale),
    d: (int, TimeScale),
)
    ensures
        ({
            let line = on_common_line(a, b, c, d);
            &&& line.0.len() == 4
            &&& (b.1 == a.1 && c.1 == a.1 && d.1 == a.1) ==> {
                &&& line.1 == Some(a.1)
                &&& line.0[0] == a.0 && line.0[1] == b.0 && line.0[2] == c.0 && line.0[3] == d.0
            }
            &&& (b.1 != a.1 || c.1 != a.1 || d.1 != a.1) ==> {
                &&& line.1 is None
                &&& line.0[0] == tdb_ns_of(a.0, a.1)
                &&& line.0[1] == tdb_ns_of(b.0, b.1)
                &&& line.0[2] == tdb_ns_of(c.0, c.1)
                &&& line.0[3] == tdb_ns_of(d.0, d.1)
            }
            &&& line.1 matches Some(ts) ==> a.1 == ts && b.1 == ts && c.1 == ts && d.1 == ts
        }),
{
}

proof fn lemma_marker_after_plain(m: Seq<char>, rest: Seq<char>)
    requires
        forall|i: int| 0 <= i < m.len() ==> !is_exponent_marker(#[trigger] m[i]),
        rest.len() > 0,
        is_exponent_marker(rest[0]),
    ensures
        marker_index(m + rest) == m.len(),
    decreases m.len(),
{
    if m.len() == 0 {
        assert(m + rest =~= rest);
    } else {
        let m2 = m.drop_first();
        assert((m + rest).drop_first() =~= m2 + rest);
        assert((m + rest)[0] == m[0]);
        assert forall|i: int| 0 <= i < m2.len() implies !is_exponent_marker(#[trigger] m2[i]) by {
            assert(m2[i] == m[i + 1]);
        }
        lemma_marker_after_plain(m2, rest);
    }
}

proof fn lemma_all_leading_digits(x: Seq<char>)
    requires
        forall|i: int| 0 <= i < x.len() ==> is_digit_char(#[trigger] x[i]),
    ensures
        leading_digits(x) == x.len(),
    decreases x.len(),
{
    if x.len() > 0 {
        let x2 = x.drop_first();
        assert forall|i: int| 0 <= i < x2.len() implies is_digit_char(#[trigger] x2[i]) by {
            assert(x2[i] == x[i + 1]);
        }
        lemma_all_leading_digits(x2);
    }
}

/// A number written as a mantissa of at most `m` characters, without an
/// exponent marker or a letter of `inf`, `infinity` or `nan`, then `e` (or
/// `E`) and a run of exponent digits whose value `x` keeps `m + x` at most
/// 308, is finite: it is below 10^308.
pub proof fn lemma_exponent_number_is_finite(mantissa: Seq<char>, marker: char, exponent: Seq<char>)
    requires
        marker == 'e' || marker == 'E',
        forall|i: int|
            0 <= i < mantissa.len() ==> {
                let c = #[trigger] mantissa[i];
                c != 'e' && c != 'E' && c != 'a' && c != 'A' && c != 'f' && c != 'F' && c != 'i' && c
                    != 'I' && c != 'n' && c != 'N'
            },
        exponent.len() > 0,
        forall|i: int| 0 <= i < exponent.len() ==> '0' <= #[trigger] exponent[i] <= '9',
        mantissa.len() + digits_value(exponent) <= 308,
    ensures
        number_finite(mantissa + seq![marker] + exponent),
{
    let u = mantissa + seq![marker] + exponent;
    let tail = seq![marker] + exponent;
    assert(u =~= mantissa + tail);
    lemma_marker_after_plain(mantissa, tail);
    assert(u.take(mantissa.len() as int) =~= mantissa);
    lemma_count_digits_bounded(mantissa);
    let after = u.subrange(mantissa.len() as int + 1, u.len() as int);
    assert(after =~= exponent);
    assert(is_digit_char(exponent[0]));
    lemma_all_leading_digits(exponent);
    assert(exponent.take(exponent.len() as int) =~= exponent);
    assert forall|i: int| 0 <= i < u.len() implies !is_nonfinite_letter(#[trigger] u[i]) by {
        if i < mantissa.len() {
            assert(u[i] == mantissa[i]);
        } else if i == mantissa.len() {
            assert(u[i] == marker);
        } else {
            assert(u[i] == exponent[i - mantissa.len() - 1]);
            assert(is_digit_char(exponent[i - mantissa.len() - 1]));
        }
    }
}

/// A text that is not a numeric epoch (after trimming), that nowhere holds a
/// decimal point followed by ten digits, and that nowhere holds the digits
/// `2147483647`, is safe: every ordinary Gregorian date is handed to the
/// parser. Conversely, a date text holding either pattern is refused.
pub proof fn lemma_date_texts(t: Seq<char>)
    requires
        !has_numeric_prefix(trimmed(t)),
    ensures
        epoch_text_safe(t) <==> (forall|i: int|
            0 <= i < t.len() ==> !(i + 10 < t.len() && #[trigger] t[i] == '.' && (forall|j: int|
                1 <= j <= 10 ==> '0' <= #[trigger] t[i + j] <= '9')) && !(i + 10 <= t.len()
                && t.subrange(i, i + 10) == seq!['2', '1', '4', '7', '4', '8', '3', '6', '4', '7'])),
{
    let year = seq!['2', '1', '4', '7', '4', '8', '3', '6', '4', '7'];
    assert(largest_i32_digits() == year);
    if epoch_text_safe(t) {
        assert forall|i: int| 0 <= i < t.len() implies !(i + 10 < t.len() && #[trigger] t[i] == '.'
            && (forall|j: int| 1 <= j <= 10 ==> '0' <= #[trigger] t[i + j] <= '9')) && !(i + 10
            <= t.len() && t.subrange(i, i + 10) == year) by {
            assert(!long_fraction_at(t, i));
            assert(!largest_i32_at(t, i));
        }
    } else {
        let i = choose|i: int| 0 <= i < t.len() && !(!long_fraction_at(t, i) && !largest_i32_at(t, i));
        assert(0 <= i < t.len());
        if long_fraction_at(t, i) {
            assert(i + 10 < t.len() && t[i] == '.' && (forall|j: int| 1 <= j <= 10 ==> '0' <= #[trigger] t[i + j] <= '9'));
        } else {
            assert(i + 10 <= t.len() && t.subrange(i, i + 10) == year);
        }
    }
}

} // verus!
