//! Text helpers used across the interface: variable extraction from
//! templates, truncation with an ellipsis, and human-readable durations and
//! byte counts.

use vstd::prelude::*;
use crate::strings::{dec, digit, digit_char, push_char, push_dec, string_views, opt_string_view};
use vstd::string::StrSliceExecFns;

verus! {

// ---------------------------------------------------------------------------
// Template variables
// ---------------------------------------------------------------------------

/// The pattern of a template variable: `${name}`, where the name is a letter
/// or underscore followed by letters, digits and underscores. Group 1 holds
/// the name.
pub const VARIABLE_PATTERN: &'static str = r"\$\{([a-zA-Z_][a-zA-Z0-9_]*)\}";

/// What the `regex` crate reports for `pattern` on `text`: `None` when the
/// pattern does not compile, otherwise, for each successive non-overlapping
/// match, the text of capture group 1 when that group took part.
pub uninterp spec fn regex_group1_matches(pattern: Seq<char>, text: Seq<char>) -> Option<
    Seq<Option<Seq<char>>>,
>;

/// Compiles `pattern` with `regex::Regex::new` and walks `captures_iter` over
/// `text`, keeping capture group 1 of each match. The contract ties the result
/// to `regex_group1_matches`; it does not restate the crate's matching rules.
#[verifier::external_body]
fn regex_capture_group1(pattern: &str, text: &str) -> (res: Option<Vec<Option<String>>>)
    ensures
        match regex_group1_matches(pattern@, text@) {
            None => res is None,
            Some(caps) => res matches Some(v) && v@.map_values(|o: Option<String>| opt_string_view(o)) == caps,
        },
{
    match regex::Regex::new(pattern) {
        Ok(re) => Some(
            re.captures_iter(text).map(|c| c.get(1).map(|m| m.as_str().to_string())).collect(),
        ),
        Err(_) => None,
    }
}

/// The names present in `caps`, each kept once, in order of first appearance.
pub open spec fn distinct_names(caps: Seq<Option<Seq<char>>>) -> Seq<Seq<char>>
    decreases caps.len(),
{
    if caps.len() == 0 {
        Seq::empty()
    } else {
        let rest = distinct_names(caps.drop_last());
        match caps.last() {
            Some(name) => if rest.contains(name) {
                rest
            } else {
                rest.push(name)
            },
            None => rest,
        }
    }
}

/// Keeps the names found in `captures`, each once, in order of first
/// appearance; absent captures are skipped.
pub fn collect_variable_names(captures: Vec<Option<String>>) -> (found: Vec<String>)
    ensures
        string_views(found@) == distinct_names(
            captures@.map_values(|o: Option<String>| opt_string_view(o)),
        ),
{
    let ghost caps = captures@.map_values(|o: Option<String>| opt_string_view(o));
    let mut found: Vec<String> = Vec::new();
    let mut i: usize = 0;
    while i < captures.len()
        invariant
            i <= captures.len(),
            caps == captures@.map_values(|o: Option<String>| opt_string_view(o)),
            string_views(found@) == distinct_names(caps.take(i as int)),
        decreases captures.len() - i,
    {
        proof {
            assert(caps.take(i + 1).drop_last() =~= caps.take(i as int));
        }
        match &captures[i] {
            Some(name) => {
                let mut present = false;
                let mut j: usize = 0;
                while j < found.len()
                    invariant
                        j <= found.len(),
                        present <==> exists|k: int| 0 <= k < j && found@[k]@ == name@,
                    decreases found.len() - j,
                {
                    if found[j] == *name {
                        present = true;
                    }
                    j += 1;
                }
                proof {
                    let fv = string_views(found@);
                    if present {
                        let k = choose|k: int| 0 <= k < j && found@[k]@ == name@;
                        assert(fv[k] == name@);
                    } else {
                        assert forall|k: int| 0 <= k < fv.len() implies fv[k] != name@ by {
                            assert(found@[k]@ != name@);
                        }
                    }
                }
                if !present {
                    let ghost before = found@;
                    let copy = name.clone();
                    found.push(copy);
                    proof {
                        assert(string_views(found@) =~= string_views(before).push(name@));
                    }
                }
            },
            None => {},
        }
        i += 1;
    }
    proof {
        assert(caps.take(captures.len() as int) =~= caps);
    }
    found
}

/// Extracts the variable names (`${name}`) of a template, each once, in order
/// of first appearance.
pub fn extract_variables(template: &str) -> (found: Vec<String>)
    ensures
        match regex_group1_matches(VARIABLE_PATTERN@, template@) {
            Some(caps) => string_views(found@) == distinct_names(caps),
            None => found@.len() == 0,
        },
{
    match regex_capture_group1(VARIABLE_PATTERN, template) {
        Some(captures) => collect_variable_names(captures),
        None => Vec::new(),
    }
}

// ---------------------------------------------------------------------------
// Truncation
// ---------------------------------------------------------------------------

/// `s` shortened to at most `max_len` characters, the ellipsis included:
/// unchanged when it fits, otherwise its first `max_len - 1` characters
/// followed by an ellipsis, or the ellipsis alone when `max_len` is at most
/// one.
pub open spec fn truncated_text(s: Seq<char>, max_len: nat) -> Seq<char> {
    if s.len() <= max_len {
        s
    } else if max_len <= 1 {
        seq!['\u{2026}']
    } else {
        s.take(max_len - 1).push('\u{2026}')
    }
}

/// Truncates a string to at most `max_len` characters (the ellipsis
/// included), adding an ellipsis only if it was shortened.
pub fn truncate_string(s: &str, max_len: usize) -> (r: String)
    ensures
        r@ == truncated_text(s@, max_len as nat),
{
    let n = s.unicode_len();
    if n <= max_len {
        s.to_owned()
    } else if max_len <= 1 {
        let mut r = String::new();
        push_char(&mut r, '\u{2026}');
        r
    } else {
        let prefix = s.substring_char(0, max_len - 1);
        let mut r = prefix.to_owned();
        push_char(&mut r, '\u{2026}');
        proof {
            assert(s@.subrange(0, max_len - 1) =~= s@.take(max_len - 1));
        }
        r
    }
}

// ---------------------------------------------------------------------------
// Durations
// ---------------------------------------------------------------------------

/// The text of a duration of `seconds`: `45s`, `1m`, `1m 30s`, `2h`, `2h 30m`.
pub open spec fn duration_text(seconds: nat) -> Seq<char> {
    if seconds < 60 {
        dec(seconds).push('s')
    } else if seconds < 3600 {
        let minutes = seconds / 60;
        let secs = seconds % 60;
        if secs == 0 {
            dec(minutes).push('m')
        } else {
            dec(minutes) + seq!['m', ' '] + dec(secs).push('s')
        }
    } else {
        let hours = seconds / 3600;
        let minutes = (seconds % 3600) / 60;
        if minutes == 0 {
            dec(hours).push('h')
        } else {
            dec(hours) + seq!['h', ' '] + dec(minutes).push('m')
        }
    }
}

/// Formats a duration in a human-readable way ("2h 30m", "45s").
pub fn format_duration(seconds: u64) -> (s: String)
    ensures
        s@ == duration_text(seconds as nat),
{
    let mut s = String::new();
    if seconds < 60 {
        push_dec(&mut s, seconds);
        push_char(&mut s, 's');
    } else if seconds < 3600 {
        let minutes = seconds / 60;
        let secs = seconds % 60;
        push_dec(&mut s, minutes);
        push_char(&mut s, 'm');
        if secs != 0 {
            push_char(&mut s, ' ');
            push_dec(&mut s, secs);
            push_char(&mut s, 's');
        }
    } else {
        let hours = seconds / 3600;
        let minutes = (seconds % 3600) / 60;
        push_dec(&mut s, hours);
        push_char(&mut s, 'h');
        if minutes != 0 {
            push_char(&mut s, ' ');
            push_dec(&mut s, minutes);
            push_char(&mut s, 'm');
        }
    }
    s
}

// ---------------------------------------------------------------------------
// Byte counts
// ---------------------------------------------------------------------------

/// `n / d` rounded to the nearest integer, ties to the even neighbour.
pub open spec fn round_half_even_div(n: nat, d: nat) -> nat {
    let q = n / d;
    let r = n % d;
    if 2 * r > d || (2 * r == d && q % 2 == 1) {
        q + 1
    } else {
        q
    }
}

/// The spacing of 64-bit binary floating-point numbers around `b`: one below
/// 2^53, doubling with each further bit of magnitude.
pub open spec fn f64_unit(b: nat) -> nat
    decreases b,
{
    if b < 0x20000000000000 {
        1
    } else {
        2 * f64_unit(b / 2)
    }
}

/// The 64-bit binary floating-point number nearest to `b` (ties to even):
/// the value that converting the integer `b` to `f64` gives.
pub open spec fn f64_nearest(b: nat) -> nat {
    round_half_even_div(b, f64_unit(b)) * f64_unit(b)
}

/// A count of tenths rendered with one decimal: `15` is `1.5`.
pub open spec fn tenths_text(t: nat) -> Seq<char> {
    dec(t / 10) + seq!['.', digit_char((t % 10) as int)]
}

/// A count of hundredths rendered with two decimals: `150` is `1.50`.
pub open spec fn hundredths_text(t: nat) -> Seq<char> {
    dec(t / 100) + seq!['.', digit_char(((t / 10) % 10) as int), digit_char((t % 10) as int)]
}

/// The text of a byte count: whole bytes below 1 KiB, then kilo-, mega- and
/// gigabytes in binary units, rounded to one decimal (two for gigabytes),
/// exactly as a correctly rounded decimal rendering of the quotient gives it.
pub open spec fn bytes_text(b: nat) -> Seq<char> {
    if b < 1024 {
        dec(b) + seq![' ', 'B']
    } else if b < 1048576 {
        tenths_text(round_half_even_div(b * 10, 1024)) + seq![' ', 'K', 'B']
    } else if b < 1073741824 {
        tenths_text(round_half_even_div(b * 10, 1048576)) + seq![' ', 'M', 'B']
    } else {
        hundredths_text(round_half_even_div(f64_nearest(b) * 100, 1073741824)) + seq![
            ' ',
            'G',
            'B',
        ]
    }
}

fn div_round_half_even(n: u128, d: u128) -> (r: u128)
    requires
        0 < d <= 0x1_0000_0000_0000_0000_0000,
        n < 0x1_0000_0000_0000_0000_0000_0000,
    ensures
        r == round_half_even_div(n as nat, d as nat),
        r <= n / d + 1,
{
    let q = n / d;
    let rem = n % d;
    if 2 * rem > d || (2 * rem == d && q % 2 == 1) {
        q + 1
    } else {
        q
    }
}

/// Converts `b` to the nearest 64-bit float and back, in exact arithmetic.
fn nearest_f64_value(b: u64) -> (m: u128)
    ensures
        m == f64_nearest(b as nat),
        m <= 0x2_0000_0000_0000_0000,
{
    let mut v: u64 = b;
    let mut p: u128 = 1;
    while v >= 0x20000000000000
        invariant
            1 <= p <= 4096,
            v as nat == b as nat / p as nat,
            f64_unit(b as nat) == p * f64_unit(v as nat),
        decreases v,
    {
        proof {
            vstd::arithmetic::div_mod::lemma_div_denominator(b as int, p as int, 2);
            assert(p * v <= b) by (nonlinear_arith)
                requires
                    v as nat == b as nat / p as nat,
                    p >= 1,
            ;
            assert(p < 2048) by (nonlinear_arith)
                requires
                    p * v <= b,
                    v >= 0x20000000000000,
                    b < 0x1_0000_0000_0000_0000,
            ;
            let x = f64_unit((v / 2) as nat);
            assert(f64_unit(v as nat) == 2 * x);
            assert(p * (2 * x) == (p * 2) * x) by (nonlinear_arith);
        }
        v = v / 2;
        p = p * 2;
    }
    let q = v as u128;
    let r = (b as u128) % p;
    proof {
        assert(f64_unit(v as nat) == 1);
        assert(f64_unit(b as nat) == p) by (nonlinear_arith)
            requires
                f64_unit(b as nat) == p * f64_unit(v as nat),
                f64_unit(v as nat) == 1,
        ;
        assert(q as nat == b as nat / p as nat);
        assert(r as nat == b as nat % p as nat);
    }
    let rounded = if 2 * r > p || (2 * r == p && q % 2 == 1) {
        q + 1
    } else {
        q
    };
    proof {
        assert(rounded <= 0x20000000000000);
        assert(rounded * p <= 0x20000000000000 * 4096) by (nonlinear_arith)
            requires
                rounded <= 0x20000000000000,
                p <= 4096,
        ;
    }
    rounded * p
}

fn push_tenths(s: &mut String, t: u64)
    ensures
        final(s)@ == old(s)@ + tenths_text(t as nat),
{
    push_dec(s, t / 10);
    push_char(s, '.');
    let c = digit(t % 10);
    push_char(s, c);
}

fn push_hundredths(s: &mut String, t: u64)
    ensures
        final(s)@ == old(s)@ + hundredths_text(t as nat),
{
    push_dec(s, t / 100);
    push_char(s, '.');
    let c1 = digit((t / 10) % 10);
    push_char(s, c1);
    let c2 = digit(t % 10);
    push_char(s, c2);
}

/// Formats a byte count in a human-readable way ("1.5 MB", "256 B").
pub fn format_bytes(bytes: u64) -> (s: String)
    ensures
        s@ == bytes_text(bytes as nat),
{
    let mut s = String::new();
    if bytes < 1024 {
        push_dec(&mut s, bytes);
        push_char(&mut s, ' ');
        push_char(&mut s, 'B');
    } else if bytes < 1048576 {
        let t = div_round_half_even((bytes as u128) * 10, 1024);
        push_tenths(&mut s, t as u64);
        push_char(&mut s, ' ');
        push_char(&mut s, 'K');
        push_char(&mut s, 'B');
    } else if bytes < 1073741824 {
        let t = div_round_half_even((bytes as u128) * 10, 1048576);
        push_tenths(&mut s, t as u64);
        push_char(&mut s, ' ');
        push_char(&mut s, 'M');
        push_char(&mut s, 'B');
    } else {
        let m = nearest_f64_value(bytes);
        let t = div_round_half_even(m * 100, 1073741824);
        push_hundredths(&mut s, t as u64);
        push_char(&mut s, ' ');
        push_char(&mut s, 'G');
        push_char(&mut s, 'B');
    }
    s
}

} // verus!
