//! Durations: parsing the ISO-8601 duration strings the upstream
//! leaderboard service submits, and rendering them as zero-padded
//! `HH:MM:SS` text.
//!
//! The accepted grammar is `P [days D] [T [hours H] [minutes M]
//! [seconds [. fraction] S]]` with at least one component present, each
//! component an unsigned integer of at most twelve digits.  The fraction
//! of a second is truncated: only whole seconds are kept.  Hours are not
//! wrapped at 24; an hour count of one hundred or more simply widens the
//! hours field.

use vstd::prelude::*;
use vstd::string::*;

verus! {

/// A decimal digit character.
pub open spec fn is_digit(c: char) -> bool {
    48 <= c as u32 <= 57
}

/// The numeric value of a decimal digit character.
pub open spec fn digit_val(c: char) -> int {
    c as u32 - 48
}

/// How many decimal digits stand at position `i`.
pub open spec fn digit_run(s: Seq<char>, i: int) -> int
    decreases s.len() - i,
{
    if i < s.len() && is_digit(s[i]) {
        1 + digit_run(s, i + 1)
    } else {
        0
    }
}

/// The numeric value of the digits `s[i..j]`.
pub open spec fn digits_val(s: Seq<char>, i: int, j: int) -> int
    decreases j - i,
{
    if i < j {
        digits_val(s, i, j - 1) * 10 + digit_val(s[j - 1])
    } else {
        0
    }
}

/// A duration component `<digits><marker>` at position `i`: its value and
/// the position after the marker.  Absent when there is no digit, more
/// than twelve digits, or another marker.
pub open spec fn spec_component(s: Seq<char>, i: int, marker: char) -> Option<(int, int)> {
    let n = digit_run(s, i);
    if 1 <= n <= 12 && i + n < s.len() && s[i + n] == marker {
        Some((digits_val(s, i, i + n), i + n + 1))
    } else {
        None
    }
}

/// An optional component: value 0 and an unchanged position when absent.
pub open spec fn spec_opt_component(s: Seq<char>, i: int, marker: char) -> (int, int) {
    match spec_component(s, i, marker) {
        Some(vp) => vp,
        None => (0, i),
    }
}

/// The seconds component `<digits>[.<digits>]S` at position `i`: its whole
/// second count (the fraction is truncated) and the position after the
/// `S`; value 0 and an unchanged position when absent.
pub open spec fn spec_seconds(s: Seq<char>, i: int) -> (int, int) {
    let n = digit_run(s, i);
    if 1 <= n <= 12 {
        if i + n < s.len() && s[i + n] == 'S' {
            (digits_val(s, i, i + n), i + n + 1)
        } else if i + n < s.len() && s[i + n] == '.' {
            let m = digit_run(s, i + n + 1);
            if m >= 1 && i + n + 1 + m < s.len() && s[i + n + 1 + m] == 'S' {
                (digits_val(s, i, i + n), i + n + 1 + m + 1)
            } else {
                (0, i)
            }
        } else {
            (0, i)
        }
    } else {
        (0, i)
    }
}

/// The whole seconds denoted by an ISO-8601 duration, or `None` when the
/// text is not a duration this crate accepts.
pub open spec fn spec_parse_duration(s: Seq<char>) -> Option<int> {
    if s.len() == 0 || s[0] != 'P' {
        None
    } else {
        let (d, i1) = spec_opt_component(s, 1, 'D');
        if i1 == s.len() {
            if i1 > 1 {
                Some(d * 86400)
            } else {
                None
            }
        } else if s[i1] == 'T' {
            let (h, i2) = spec_opt_component(s, i1 + 1, 'H');
            let (m, i3) = spec_opt_component(s, i2, 'M');
            let (sec, i4) = spec_seconds(s, i3);
            if i4 == s.len() && i4 > i1 + 1 {
                Some(d * 86400 + h * 3600 + m * 60 + sec)
            } else {
                None
            }
        } else {
            None
        }
    }
}

/// Ten to the `n`th.
spec fn pow10(n: int) -> int
    decreases n,
{
    if n <= 0 {
        1
    } else {
        10 * pow10(n - 1)
    }
}

proof fn lemma_pow10_pos(n: int)
    ensures
        pow10(n) >= 1,
    decreases n,
{
    if n > 0 {
        lemma_pow10_pos(n - 1);
    }
}

proof fn lemma_pow10_mono(a: int, b: int)
    requires
        a <= b,
    ensures
        pow10(a) <= pow10(b),
    decreases b - a,
{
    if a < b {
        lemma_pow10_mono(a, b - 1);
        lemma_pow10_pos(b - 1);
    }
}

proof fn lemma_pow10_12()
    ensures
        pow10(11) == 100_000_000_000,
        pow10(12) == 1_000_000_000_000,
{
    reveal_with_fuel(pow10, 13);
}

/// How many decimal digits stand at position `i`, as executable code.
fn digit_run_len(s: &str, len: usize, i: usize) -> (n: usize)
    requires
        s@.len() == len,
        i <= len,
    ensures
        n as int == digit_run(s@, i as int),
        i + n <= len,
        forall|t: int| i <= t < i + n ==> is_digit(s@[t]),
{
    let mut j = i;
    while j < len
        invariant_except_break
            i <= j <= len,
            s@.len() == len,
            digit_run(s@, i as int) == (j - i) + digit_run(s@, j as int),
            forall|t: int| i <= t < j ==> is_digit(s@[t]),
        ensures
            i <= j <= len,
            digit_run(s@, i as int) == j - i,
            forall|t: int| i <= t < j ==> is_digit(s@[t]),
        decreases len - j,
    {
        let c = s.get_char(j);
        let u = c as u32;
        if !(48 <= u && u <= 57) {
            proof {
                assert(!is_digit(s@[j as int]));
                assert(digit_run(s@, j as int) == 0);
            }
            break ;
        }
        proof {
            assert(is_digit(s@[j as int]));
            assert(digit_run(s@, j as int) == 1 + digit_run(s@, j as int + 1));
        }
        j += 1;
    }
    j - i
}

/// The value of the digits `s[i..j]`, executable.  Twelve digits at most,
/// so the value is below ten to the twelfth.
fn digits_value(s: &str, i: usize, j: usize) -> (v: u64)
    requires
        i <= j,
        j as int <= s@.len(),
        j - i <= 12,
        forall|t: int| i <= t < j ==> is_digit(s@[t]),
    ensures
        v as int == digits_val(s@, i as int, j as int),
        v < 1_000_000_000_000,
{
    let mut v: u64 = 0;
    let mut t = i;
    while t < j
        invariant
            i <= t <= j,
            j - i <= 12,
            j as int <= s@.len(),
            forall|q: int| i <= q < j ==> is_digit(s@[q]),
            v as int == digits_val(s@, i as int, t as int),
            (v as int) < pow10(t - i),
        decreases j - t,
    {
        let c = s.get_char(t);
        proof {
            assert(is_digit(s@[t as int]));
            lemma_pow10_mono(t - i, 11);
            lemma_pow10_12();
            assert(digits_val(s@, i as int, t as int + 1) == digits_val(s@, i as int, t as int)
                * 10 + digit_val(s@[t as int]));
        }
        let d = (c as u32 - 48) as u64;
        v = v * 10 + d;
        t += 1;
    }
    proof {
        lemma_pow10_mono(t - i, 12);
        lemma_pow10_12();
    }
    v
}

/// An optional duration component at position `i`, executable: its value
/// and the position after its marker; value 0 and position `i` when
/// absent.
fn read_component(s: &str, len: usize, i: usize, marker: char) -> (r: (u64, usize))
    requires
        s@.len() == len,
        i <= len,
    ensures
        (r.0 as int, r.1 as int) == spec_opt_component(s@, i as int, marker),
        r.0 < 1_000_000_000_000,
        i <= r.1 <= len,
{
    let n = digit_run_len(s, len, i);
    if 1 <= n && n <= 12 && i + n < len {
        let c = s.get_char(i + n);
        if c == marker {
            let v = digits_value(s, i, i + n);
            return (v, i + n + 1);
        }
    }
    (0, i)
}

/// The seconds component at position `i`, executable: whole seconds (any
/// fraction is truncated) and the position after the `S`; value 0 and
/// position `i` when absent.
fn read_seconds(s: &str, len: usize, i: usize) -> (r: (u64, usize))
    requires
        s@.len() == len,
        i <= len,
    ensures
        (r.0 as int, r.1 as int) == spec_seconds(s@, i as int),
        r.0 < 1_000_000_000_000,
        i <= r.1 <= len,
{
    let n = digit_run_len(s, len, i);
    if 1 <= n && n <= 12 {
        if i + n < len && s.get_char(i + n) == 'S' {
            let v = digits_value(s, i, i + n);
            return (v, i + n + 1);
        }
        if i + n < len && s.get_char(i + n) == '.' {
            let m = digit_run_len(s, len, i + n + 1);
            if m >= 1 && i + n + 1 + m < len && s.get_char(i + n + 1 + m) == 'S' {
                let v = digits_value(s, i, i + n);
                return (v, i + n + 1 + m + 1);
            }
        }
    }
    (0, i)
}

/// Parse an ISO-8601 duration into its whole second count; `None` exactly
/// when the text is outside the accepted grammar.
pub fn parse_duration(s: &str) -> (r: Option<u64>)
    ensures
        match r {
            Some(v) => spec_parse_duration(s@) == Some(v as int),
            None => spec_parse_duration(s@) is None,
        },
{
    let len = s.unicode_len();
    if len == 0 {
        return None;
    }
    if s.get_char(0) != 'P' {
        return None;
    }
    let (d, i1) = read_component(s, len, 1, 'D');
    if i1 == len {
        if i1 > 1 {
            return Some(d * 86400);
        } else {
            return None;
        }
    }
    if s.get_char(i1) != 'T' {
        return None;
    }
    let (h, i2) = read_component(s, len, i1 + 1, 'H');
    let (m, i3) = read_component(s, len, i2, 'M');
    let (sec, i4) = read_seconds(s, len, i3);
    if i4 == len && i4 > i1 + 1 {
        Some(d * 86400 + h * 3600 + m * 60 + sec)
    } else {
        None
    }
}

/// The character of a decimal digit.
pub open spec fn digit_char(d: int) -> char {
    if d == 0 {
        '0'
    } else if d == 1 {
        '1'
    } else if d == 2 {
        '2'
    } else if d == 3 {
        '3'
    } else if d == 4 {
        '4'
    } else if d == 5 {
        '5'
    } else if d == 6 {
        '6'
    } else if d == 7 {
        '7'
    } else if d == 8 {
        '8'
    } else {
        '9'
    }
}

/// The decimal rendering of a nonnegative number, without padding.
pub open spec fn spec_decimal(n: int) -> Seq<char>
    decreases n,
{
    if n < 10 {
        seq![digit_char(n)]
    } else {
        spec_decimal(n / 10).push(digit_char(n % 10))
    }
}

/// The decimal rendering of a field, zero-padded to at least two digits.
pub open spec fn spec_pad2(n: int) -> Seq<char> {
    if n < 10 {
        seq!['0', digit_char(n)]
    } else {
        spec_decimal(n)
    }
}

/// The `HH:MM:SS` rendering of a duration in whole seconds.
pub open spec fn spec_hms(total: int) -> Seq<char> {
    spec_pad2(total / 3600) + seq![':'] + spec_pad2((total / 60) % 60) + seq![':'] + spec_pad2(
        total % 60,
    )
}

/// One digit as borrowed text.
fn digit_str(d: u64) -> (r: &'static str)
    requires
        d < 10,
    ensures
        r@ == seq![digit_char(d as int)],
{
    let r: &'static str = match d {
        0 => "0",
        1 => "1",
        2 => "2",
        3 => "3",
        4 => "4",
        5 => "5",
        6 => "6",
        7 => "7",
        8 => "8",
        _ => "9",
    };
    proof {
        reveal_strlit("0");
        reveal_strlit("1");
        reveal_strlit("2");
        reveal_strlit("3");
        reveal_strlit("4");
        reveal_strlit("5");
        reveal_strlit("6");
        reveal_strlit("7");
        reveal_strlit("8");
        reveal_strlit("9");
        assert(r@ =~= seq![digit_char(d as int)]);
    }
    r
}

/// Append the decimal rendering of `n`.
fn push_decimal(n: u64, out: &mut String)
    ensures
        final(out)@ == old(out)@ + spec_decimal(n as int),
    decreases n,
{
    if n < 10 {
        out.append(digit_str(n));
    } else {
        push_decimal(n / 10, out);
        out.append(digit_str(n % 10));
        proof {
            assert(out@ =~= old(out)@ + spec_decimal(n as int));
        }
    }
}

/// Append `n` zero-padded to at least two digits.
fn push_pad2(n: u64, out: &mut String)
    ensures
        final(out)@ == old(out)@ + spec_pad2(n as int),
{
    if n < 10 {
        out.append("0");
        out.append(digit_str(n));
        proof {
            reveal_strlit("0");
            assert(out@ =~= old(out)@ + spec_pad2(n as int));
        }
    } else {
        push_decimal(n, out);
    }
}

/// Render a whole second count as zero-padded `HH:MM:SS` text; the hours
/// field widens past two digits when the count asks for it.
pub fn format_hms(total: u64) -> (r: String)
    ensures
        r@ == spec_hms(total as int),
{
    let mut out = String::new();
    push_pad2(total / 3600, &mut out);
    out.append(":");
    push_pad2((total / 60) % 60, &mut out);
    out.append(":");
    push_pad2(total % 60, &mut out);
    proof {
        reveal_strlit(":");
        assert(out@ =~= spec_hms(total as int));
    }
    out
}

/// Normalize an upstream ISO-8601 duration to `HH:MM:SS` text, truncated
/// to whole seconds; `None` exactly when the text is outside the accepted
/// grammar.
pub fn duration_to_hms(s: &str) -> (r: Option<String>)
    ensures
        r is None <==> spec_parse_duration(s@) is None,
        r matches Some(t) ==> (spec_parse_duration(s@) matches Some(v) && t@ == spec_hms(v)),
{
    match parse_duration(s) {
        Some(total) => Some(format_hms(total)),
        None => None,
    }
}

} // verus!
