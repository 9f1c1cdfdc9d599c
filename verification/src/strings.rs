//! Small building blocks for producing text: decimal rendering of integers
//! and character-level string assembly.

use vstd::prelude::*;
use vstd::string::StrSliceExecFns;

verus! {

/// Compares two string slices (std's `==` on `str`).
#[verifier::external_body]
pub(crate) fn str_eq(a: &str, b: &str) -> (eq: bool)
    ensures
        eq == (a@ == b@),
{
    a == b
}

/// Removes a prefix (std's `str::strip_prefix`): the rest of `s` when `s`
/// begins with `prefix`, otherwise `None`.
#[verifier::external_body]
pub(crate) fn strip_prefix<'a>(s: &'a str, prefix: &str) -> (rest: Option<&'a str>)
    ensures
        match rest {
            Some(r) => prefix@.is_prefix_of(s@) && r@ == s@.skip(prefix@.len() as int),
            None => !prefix@.is_prefix_of(s@),
        },
{
    s.strip_prefix(prefix)
}

/// What std's `str::to_lowercase` gives for a text (Unicode lower-casing).
pub uninterp spec fn unicode_lowercase(text: Seq<char>) -> Seq<char>;

/// Lower-cases a text with std's `str::to_lowercase`; the result is the one
/// `unicode_lowercase` names.
#[verifier::external_body]
pub(crate) fn to_lowercase(s: &str) -> (r: String)
    ensures
        r@ == unicode_lowercase(s@),
{
    s.to_lowercase()
}

/// What std's `str::to_uppercase` gives for a text (Unicode upper-casing).
pub uninterp spec fn unicode_uppercase(text: Seq<char>) -> Seq<char>;

/// Upper-cases a text with std's `str::to_uppercase`; the result is the one
/// `unicode_uppercase` names.
#[verifier::external_body]
pub(crate) fn to_uppercase(s: &str) -> (r: String)
    ensures
        r@ == unicode_uppercase(s@),
{
    s.to_uppercase()
}

/// Whether std's `char::is_whitespace` holds of a character (the Unicode
/// White_Space property).
pub uninterp spec fn is_unicode_whitespace(c: char) -> bool;

/// Tests a character with std's `char::is_whitespace`; the answer is the one
/// `is_unicode_whitespace` names.
#[verifier::external_body]
pub(crate) fn is_whitespace(c: char) -> (b: bool)
    ensures
        b == is_unicode_whitespace(c),
{
    c.is_whitespace()
}

/// Whether every character of `s` is whitespace (so that trimming leaves
/// nothing).
pub open spec fn blank(s: Seq<char>) -> bool {
    forall|i: int| 0 <= i < s.len() ==> is_unicode_whitespace(#[trigger] s[i])
}

/// Whether a text is empty once trimmed: all of its characters are
/// whitespace.
pub fn is_blank(s: &str) -> (b: bool)
    ensures
        b == blank(s@),
{
    let n = s.unicode_len();
    let mut i: usize = 0;
    while i < n
        invariant
            n == s@.len(),
            i <= n,
            forall|k: int| 0 <= k < i ==> is_unicode_whitespace(#[trigger] s@[k]),
        decreases n - i,
    {
        if !is_whitespace(s.get_char(i)) {
            return false;
        }
        i += 1;
    }
    true
}

/// Number of leading whitespace characters of `s`.
pub open spec fn leading_ws(s: Seq<char>) -> nat
    decreases s.len(),
{
    if s.len() == 0 {
        0
    } else if is_unicode_whitespace(s[0]) {
        1 + leading_ws(s.drop_first())
    } else {
        0
    }
}

/// Number of trailing whitespace characters of `s`.
pub open spec fn trailing_ws(s: Seq<char>) -> nat
    decreases s.len(),
{
    if s.len() == 0 {
        0
    } else if is_unicode_whitespace(s.last()) {
        1 + trailing_ws(s.drop_last())
    } else {
        0
    }
}

/// `s` without leading and trailing whitespace (std's `str::trim`).
pub open spec fn trimmed(s: Seq<char>) -> Seq<char> {
    if leading_ws(s) == s.len() {
        Seq::empty()
    } else {
        s.subrange(leading_ws(s) as int, s.len() - trailing_ws(s))
    }
}

/// The character of a decimal digit.
pub open spec fn digit_char(d: int) -> char {
    (d + 48) as char
}

/// Decimal rendering of a natural number, most significant digit first,
/// with no leading zeros (zero is rendered as `0`).
pub open spec fn dec(n: nat) -> Seq<char>
    decreases n,
{
    if n < 10 {
        seq![digit_char(n as int)]
    } else {
        dec(n / 10).push(digit_char((n % 10) as int))
    }
}

/// The views of a sequence of strings.
pub open spec fn string_views(v: Seq<String>) -> Seq<Seq<char>> {
    v.map_values(|s: String| s@)
}

/// The view of an optional string.
pub open spec fn opt_string_view(o: Option<String>) -> Option<Seq<char>> {
    match o {
        Some(s) => Some(s@),
        None => None,
    }
}

/// Appends one character to a `String` (std's `String::push`).
#[verifier::external_body]
pub(crate) fn push_char(s: &mut String, c: char)
    ensures
        final(s)@ == old(s)@.push(c),
{
    s.push(c)
}

/// The digit character for `d < 10`.
pub fn digit(d: u64) -> (c: char)
    requires
        d < 10,
    ensures
        c == digit_char(d as int),
{
    let b: u8 = (d as u8) + 48;
    b as char
}

/// Appends the decimal rendering of `n` to `s`.
pub fn push_dec(s: &mut String, n: u64)
    ensures
        final(s)@ == old(s)@ + dec(n as nat),
    decreases n,
{
    if n < 10 {
        let c = digit(n);
        push_char(s, c);
        proof {
            assert(dec(n as nat) == seq![digit_char(n as int)]);
        }
    } else {
        push_dec(s, n / 10);
        let c = digit(n % 10);
        push_char(s, c);
    }
}

/// The decimal rendering of `n` as a new string.
pub fn dec_string(n: u64) -> (s: String)
    ensures
        s@ == dec(n as nat),
{
    let mut s = String::new();
    push_dec(&mut s, n);
    s
}

/// The pieces of `s` between occurrences of `sep` (std's `str::split` with a
/// character pattern): one more piece than there are separators, empty
/// pieces included.
pub open spec fn split_on(s: Seq<char>, sep: char) -> Seq<Seq<char>>
    decreases s.len(),
{
    if s.len() == 0 {
        seq![Seq::<char>::empty()]
    } else {
        let init = split_on(s.drop_last(), sep);
        if s.last() == sep {
            init.push(Seq::<char>::empty())
        } else {
            init.update(init.len() - 1, init.last().push(s.last()))
        }
    }
}

/// There is always at least one piece.
pub proof fn lemma_split_on_nonempty(s: Seq<char>, sep: char)
    ensures
        split_on(s, sep).len() >= 1,
    decreases s.len(),
{
    if s.len() > 0 {
        lemma_split_on_nonempty(s.drop_last(), sep);
    }
}

/// Splits `s` at every `sep` character.
pub fn split_by_char(s: &str, sep: char) -> (parts: Vec<String>)
    ensures
        string_views(parts@) == split_on(s@, sep),
{
    let n = s.unicode_len();
    let mut parts: Vec<String> = Vec::new();
    let mut current = String::new();
    let mut i: usize = 0;
    while i < n
        invariant
            n == s@.len(),
            i <= n,
            string_views(parts@).push(current@) == split_on(s@.take(i as int), sep),
        decreases n - i,
    {
        let c = s.get_char(i);
        let ghost before = string_views(parts@).push(current@);
        proof {
            lemma_split_on_nonempty(s@.take(i as int), sep);
            assert(s@.take(i + 1).drop_last() =~= s@.take(i as int));
            assert(s@.take(i + 1).last() == c);
        }
        if c == sep {
            parts.push(current);
            current = String::new();
            proof {
                assert(string_views(parts@).push(current@) =~= before.push(Seq::<char>::empty()));
            }
        } else {
            push_char(&mut current, c);
            proof {
                assert(string_views(parts@).push(current@) =~= before.update(
                    before.len() - 1,
                    before.last().push(c),
                ));
            }
        }
        i += 1;
    }
    proof {
        assert(s@.take(n as int) =~= s@);
    }
    parts.push(current);
    parts
}

/// Appending text without a separator extends the last piece.
pub proof fn lemma_split_on_plain(a: Seq<char>, b: Seq<char>, sep: char)
    requires
        !b.contains(sep),
    ensures
        split_on(a + b, sep) == split_on(a, sep).update(
            split_on(a, sep).len() - 1,
            split_on(a, sep).last() + b,
        ),
    decreases b.len(),
{
    lemma_split_on_nonempty(a, sep);
    if b.len() == 0 {
        assert(a + b =~= a);
        assert(split_on(a, sep).last() + b =~= split_on(a, sep).last());
        assert(split_on(a, sep).update(split_on(a, sep).len() - 1, split_on(a, sep).last())
            =~= split_on(a, sep));
    } else {
        let b0 = b.drop_last();
        assert(!b0.contains(sep)) by {
            if b0.contains(sep) {
                let k = choose|k: int| 0 <= k < b0.len() && b0[k] == sep;
                assert(b[k] == sep);
            }
        }
        lemma_split_on_plain(a, b0, sep);
        assert((a + b).drop_last() =~= a + b0);
        assert((a + b).last() == b.last());
        assert(b.last() != sep) by {
            assert(b[b.len() - 1] == b.last());
        }
        assert((split_on(a, sep).last() + b0).push(b.last()) =~= split_on(a, sep).last() + b);
        lemma_split_on_nonempty(a + b0, sep);
        assert(split_on(a + b, sep) =~= split_on(a, sep).update(
            split_on(a, sep).len() - 1,
            split_on(a, sep).last() + b,
        ));
    }
}

/// Appending a separator starts a new, empty piece.
pub proof fn lemma_split_on_sep(a: Seq<char>, sep: char)
    ensures
        split_on(a.push(sep), sep) == split_on(a, sep).push(Seq::<char>::empty()),
{
    assert(a.push(sep).drop_last() =~= a);
}

/// Text without a separator is a single piece.
pub proof fn lemma_split_on_single(b: Seq<char>, sep: char)
    requires
        !b.contains(sep),
    ensures
        split_on(b, sep) == seq![b],
{
    lemma_split_on_plain(Seq::<char>::empty(), b, sep);
    assert(Seq::<char>::empty() + b =~= b);
    assert(Seq::<char>::empty() + b =~= b);
    assert(seq![Seq::<char>::empty()].update(0, Seq::<char>::empty() + b) =~= seq![b]);
}

/// Joining pieces: splitting `a`, a separator, then `b` without separators
/// gives the pieces of `a` followed by `b`.
pub proof fn lemma_split_on_join(a: Seq<char>, b: Seq<char>, sep: char)
    requires
        !b.contains(sep),
    ensures
        split_on(a + seq![sep] + b, sep) == split_on(a, sep).push(b),
{
    lemma_split_on_sep(a, sep);
    assert(a + seq![sep] =~= a.push(sep));
    lemma_split_on_plain(a.push(sep), b, sep);
    assert(Seq::<char>::empty() + b =~= b);
    assert(split_on(a, sep).push(Seq::<char>::empty()).update(
        split_on(a, sep).len() as int,
        Seq::<char>::empty() + b,
    ) =~= split_on(a, sep).push(b));
}

proof fn lemma_leading_ws(s: Seq<char>, i: int)
    requires
        0 <= i <= s.len(),
        forall|k: int| 0 <= k < i ==> is_unicode_whitespace(#[trigger] s[k]),
    ensures
        leading_ws(s) == i + leading_ws(s.skip(i)),
    decreases i,
{
    if i == 0 {
        assert(s.skip(0) =~= s);
    } else {
        let d = s.drop_first();
        assert forall|k: int| 0 <= k < i - 1 implies is_unicode_whitespace(#[trigger] d[k]) by {
            assert(d[k] == s[k + 1]);
        }
        lemma_leading_ws(d, i - 1);
        assert(d.skip(i - 1) =~= s.skip(i));
    }
}

proof fn lemma_trailing_ws(s: Seq<char>, j: int)
    requires
        0 <= j <= s.len(),
        forall|k: int| j <= k < s.len() ==> is_unicode_whitespace(#[trigger] s[k]),
    ensures
        trailing_ws(s) == (s.len() - j) + trailing_ws(s.take(j)),
    decreases s.len() - j,
{
    if j == s.len() {
        assert(s.take(j) =~= s);
    } else {
        let d = s.drop_last();
        lemma_trailing_ws(d, j);
        assert(d.take(j) =~= s.take(j));
        assert(is_unicode_whitespace(s[s.len() - 1]));
    }
}

/// `s` without leading and trailing whitespace (std's `str::trim`).
pub fn trim(s: &str) -> (t: &str)
    ensures
        t@ == trimmed(s@),
{
    let n = s.unicode_len();
    let mut lo: usize = 0;
    while lo < n
        invariant
            n == s@.len(),
            lo <= n,
            forall|k: int| 0 <= k < lo ==> is_unicode_whitespace(#[trigger] s@[k]),
        ensures
            lo <= n,
            forall|k: int| 0 <= k < lo ==> is_unicode_whitespace(#[trigger] s@[k]),
            lo < n ==> !is_unicode_whitespace(s@[lo as int]),
        decreases n - lo,
    {
        if !is_whitespace(s.get_char(lo)) {
            break;
        }
        lo += 1;
    }
    proof {
        lemma_leading_ws(s@, lo as int);
    }
    if lo == n {
        proof {
            assert(s@.skip(n as int).len() == 0);
        }
        let t = s.substring_char(n, n);
        proof {
            assert(t@ =~= Seq::<char>::empty());
        }
        return t;
    }
    proof {
        assert(s@.skip(lo as int)[0] == s@[lo as int]);
        assert(leading_ws(s@) == lo);
    }
    let mut hi: usize = n;
    while hi > lo + 1
        invariant
            n == s@.len(),
            lo < hi <= n,
            !is_unicode_whitespace(s@[lo as int]),
            forall|k: int| hi <= k < n ==> is_unicode_whitespace(#[trigger] s@[k]),
        ensures
            lo < hi <= n,
            forall|k: int| hi <= k < n ==> is_unicode_whitespace(#[trigger] s@[k]),
            !is_unicode_whitespace(s@[hi - 1]),
        decreases hi,
    {
        if !is_whitespace(s.get_char(hi - 1)) {
            break;
        }
        hi -= 1;
    }
    proof {
        lemma_trailing_ws(s@, hi as int);
        assert(s@.take(hi as int).last() == s@[hi - 1]);
    }
    s.substring_char(lo, hi)
}

/// Whether a character is an ASCII digit.
pub open spec fn ascii_digit(c: char) -> bool {
    48 <= (c as u32) <= 57
}

/// Whether every character is an ASCII digit.
pub open spec fn all_ascii_digits(s: Seq<char>) -> bool {
    forall|i: int| 0 <= i < s.len() ==> ascii_digit(#[trigger] s[i])
}

/// The value of a string of ASCII digits.
pub open spec fn digits_value(s: Seq<char>) -> nat
    decreases s.len(),
{
    if s.len() == 0 {
        0
    } else {
        digits_value(s.drop_last()) * 10 + ((s.last() as u32) - 48) as nat
    }
}

/// The decimal rendering of a number consists of digits that read back as
/// the number.
pub proof fn lemma_dec_digits(n: nat)
    ensures
        all_ascii_digits(dec(n)),
        digits_value(dec(n)) == n,
        dec(n).len() >= 1,
    decreases n,
{
    if n < 10 {
        let c = digit_char(n as int);
        assert((c as u32) == n + 48);
        assert(dec(n) == seq![c]);
        assert(seq![c].drop_last() =~= Seq::<char>::empty());
        assert(ascii_digit(seq![c][0]));
        assert(digits_value(seq![c]) == digits_value(Seq::<char>::empty()) * 10 + ((c as u32)
            - 48) as nat);
    } else {
        lemma_dec_digits(n / 10);
        let c = digit_char((n % 10) as int);
        assert((c as u32) == n % 10 + 48);
        let d = dec(n / 10);
        assert(dec(n) == d.push(c));
        assert(d.push(c).drop_last() =~= d);
        assert forall|i: int| 0 <= i < d.push(c).len() implies ascii_digit(#[trigger] d.push(c)[i]) by {
            if i < d.len() {
                assert(d.push(c)[i] == d[i]);
            }
        }
        assert(digits_value(d.push(c)) == digits_value(d) * 10 + ((c as u32) - 48) as nat);
        assert((n / 10) * 10 + n % 10 == n) by (nonlinear_arith);
    }
}

/// Different numbers render differently.
pub proof fn lemma_dec_injective(a: nat, b: nat)
    requires
        dec(a) == dec(b),
    ensures
        a == b,
{
    lemma_dec_digits(a);
    lemma_dec_digits(b);
}

/// A character with ASCII capitals made lower case (std's
/// `char::to_ascii_lowercase`).
pub open spec fn ascii_lower_char(c: char) -> char {
    if 65 <= (c as u32) <= 90 {
        ((c as u32) + 32) as char
    } else {
        c
    }
}

/// A text with ASCII capitals made lower case, other characters unchanged
/// (std's `str::to_ascii_lowercase`).
pub open spec fn ascii_lower(s: Seq<char>) -> Seq<char> {
    s.map_values(|c: char| ascii_lower_char(c))
}

/// Compares two texts ignoring ASCII case (std's `str::eq_ignore_ascii_case`,
/// documented as `to_ascii_lowercase(a) == to_ascii_lowercase(b)`).
#[verifier::external_body]
pub(crate) fn eq_ignore_ascii_case(a: &str, b: &str) -> (eq: bool)
    ensures
        eq == (ascii_lower(a@) == ascii_lower(b@)),
{
    a.eq_ignore_ascii_case(b)
}

/// Lower-casing works piece by piece.
pub proof fn lemma_ascii_lower_add(a: Seq<char>, b: Seq<char>)
    ensures
        ascii_lower(a + b) == ascii_lower(a) + ascii_lower(b),
{
    assert(ascii_lower(a + b) =~= ascii_lower(a) + ascii_lower(b));
}

/// Lower-casing leaves digits alone.
pub proof fn lemma_ascii_lower_digits(s: Seq<char>)
    requires
        all_ascii_digits(s),
    ensures
        ascii_lower(s) == s,
{
    assert forall|i: int| 0 <= i < s.len() implies ascii_lower(s)[i] == s[i] by {
        assert(ascii_digit(s[i]));
    }
    assert(ascii_lower(s) =~= s);
}

/// The pieces joined with `sep` between them (std's `[String]::join`).
pub open spec fn joined(parts: Seq<Seq<char>>, sep: Seq<char>) -> Seq<char>
    decreases parts.len(),
{
    if parts.len() == 0 {
        Seq::empty()
    } else if parts.len() == 1 {
        parts[0]
    } else {
        joined(parts.drop_last(), sep) + sep + parts.last()
    }
}

/// Joins strings with a separator (see `joined`).
pub fn join_with(parts: &Vec<String>, sep: &str) -> (s: String)
    ensures
        s@ == joined(string_views(parts@), sep@),
{
    let ghost views = string_views(parts@);
    let mut s = String::new();
    let mut i: usize = 0;
    while i < parts.len()
        invariant
            i <= parts@.len(),
            views == string_views(parts@),
            s@ == joined(views.take(i as int), sep@),
        decreases parts@.len() - i,
    {
        proof {
            assert(views.take(i + 1).drop_last() =~= views.take(i as int));
            assert(views.take(i + 1).last() == parts@[i as int]@);
        }
        if i > 0 {
            s.append(sep);
        } else {
            proof {
                assert(views.take(1)[0] == parts@[0]@);
                assert(s@ + parts@[0]@ =~= parts@[0]@);
            }
        }
        s.append(parts[i].as_str());
        i += 1;
    }
    proof {
        assert(views.take(parts@.len() as int) =~= views);
    }
    s
}

} // verus!
