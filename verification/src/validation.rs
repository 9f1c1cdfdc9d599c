//! Form validation: the rules a dialog field is checked against, the message
//! each rule gives, and the visual feedback and validity tracking of fields
//! and forms. The entry widgets themselves are the window's part; it hands
//! each field's text to `FieldValidator::validate` and applies the feedback.

use vstd::prelude::*;
use vstd::string::StringExecFns;
use crate::strings::{
    all_ascii_digits, ascii_digit, blank, dec, digits_value, is_blank, push_dec, trim, trimmed,
};
use crate::terminal::config::{pattern_compiles, regex_compiles};

verus! {

/// CSS class applied to fields with validation errors.
pub const ERROR_CSS_CLASS: &'static str = "error";

/// CSS class applied to fields with validation warnings.
pub const WARNING_CSS_CLASS: &'static str = "warning";

/// CSS class applied to fields that passed validation.
pub const SUCCESS_CSS_CLASS: &'static str = "success";

/// Result of a validation check.
#[derive(Debug, Clone)]
pub enum ValidationResult {
    /// Field is valid
    Valid,
    /// Field has a warning (non-blocking)
    Warning(String),
    /// Field has an error (blocking)
    Error(String),
}

/// Whether a result is the outcome `o`: `Valid` for no error, `Error` with
/// the message otherwise.
pub open spec fn result_is(r: ValidationResult, o: Option<Seq<char>>) -> bool {
    match (r, o) {
        (ValidationResult::Valid, None) => true,
        (ValidationResult::Error(m), Some(t)) => m@ == t,
        _ => false,
    }
}

impl ValidationResult {
    /// Returns true if the result is valid (no errors).
    pub fn is_valid(&self) -> (b: bool)
        ensures
            b == !(*self is Error),
    {
        match self {
            ValidationResult::Error(_) => false,
            _ => true,
        }
    }

    /// Returns true if the result is an error.
    pub fn is_error(&self) -> (b: bool)
        ensures
            b == (*self is Error),
    {
        match self {
            ValidationResult::Error(_) => true,
            _ => false,
        }
    }

    /// Returns the message if there is one.
    pub fn message(&self) -> (m: Option<&str>)
        ensures
            match *self {
                ValidationResult::Valid => m is None,
                ValidationResult::Warning(s) => m is Some && m->0@ == s@,
                ValidationResult::Error(s) => m is Some && m->0@ == s@,
            },
    {
        match self {
            ValidationResult::Valid => None,
            ValidationResult::Warning(msg) => Some(msg.as_str()),
            ValidationResult::Error(msg) => Some(msg.as_str()),
        }
    }
}

// ---------------------------------------------------------------------------
// Outside helpers
// ---------------------------------------------------------------------------

/// Whether std's `char::is_alphanumeric` holds of a character (Unicode
/// Alphabetic or Numeric).
pub uninterp spec fn is_unicode_alphanumeric(c: char) -> bool;

/// Tests a character with std's `char::is_alphanumeric`; the answer is the
/// one `is_unicode_alphanumeric` names.
#[verifier::external_body]
fn is_alphanumeric(c: char) -> (b: bool)
    ensures
        b == is_unicode_alphanumeric(c),
{
    c.is_alphanumeric()
}

/// Whether the regular expression `pattern` (as `regex::Regex::new` reads
/// it) matches somewhere in `text` (`Regex::is_match`).
pub uninterp spec fn regex_finds(pattern: Seq<char>, text: Seq<char>) -> bool;

/// Compiles `pattern` with `regex::Regex::new` and runs `is_match` on
/// `text`; the answer is the one `regex_finds` names.
#[verifier::external_body]
fn regex_is_match(pattern: &str, text: &str) -> (b: bool)
    requires
        regex_compiles(pattern@),
    ensures
        b == regex_finds(pattern@, text@),
{
    match regex::Regex::new(pattern) {
        Ok(re) => re.is_match(text),
        Err(_) => false,
    }
}

// ---------------------------------------------------------------------------
// Port numbers
// ---------------------------------------------------------------------------

/// What std's `u16::from_str` gives: an optional `+`, then one or more ASCII
/// digits whose value fits in 16 bits.
pub open spec fn parsed_u16(s: Seq<char>) -> Option<u16> {
    let body = if s.len() > 0 && s[0] == '+' {
        s.drop_first()
    } else {
        s
    };
    if body.len() == 0 || !all_ascii_digits(body) || digits_value(body) > 65535 {
        None
    } else {
        Some(digits_value(body) as u16)
    }
}

proof fn lemma_digits_value_grows(s: Seq<char>, i: int)
    requires
        0 <= i <= s.len(),
        all_ascii_digits(s),
    ensures
        digits_value(s.take(i)) <= digits_value(s),
    decreases s.len() - i,
{
    if i < s.len() {
        lemma_digits_value_grows(s, i + 1);
        assert(s.take(i + 1).drop_last() =~= s.take(i));
        assert(s.take(i + 1).last() == s[i]);
        assert(ascii_digit(s[i]));
    } else {
        assert(s.take(i) =~= s);
    }
}

/// Reads a port number as `u16::from_str` does (see `parsed_u16`).
pub fn parse_u16(s: &str) -> (p: Option<u16>)
    ensures
        p == parsed_u16(s@),
{
    let n = s.unicode_len();
    let mut i: usize = 0;
    if n > 0 && s.get_char(0) == '+' {
        i = 1;
    }
    let start = i;
    let ghost body = s@.skip(start as int);
    proof {
        if n > 0 && s@[0] == '+' {
            assert(body =~= s@.drop_first());
        } else {
            assert(body =~= s@);
        }
    }
    if start == n {
        return None;
    }
    let mut acc: u32 = 0;
    while i < n
        invariant
            n == s@.len(),
            start <= i <= n,
            start < n,
            body == s@.skip(start as int),
            body == (if s@.len() > 0 && s@[0] == '+' {
                s@.drop_first()
            } else {
                s@
            }),
            all_ascii_digits(body.take(i - start)),
            acc == digits_value(body.take(i - start)),
            acc <= 65535,
        decreases n - i,
    {
        let c = s.get_char(i);
        let code: u32 = c as u32;
        proof {
            assert(body[i - start] == c);
        }
        if code < 48 || code > 57 {
            proof {
                assert(!ascii_digit(body[i - start]));
            }
            return None;
        }
        proof {
            assert(body.take(i - start + 1).drop_last() =~= body.take(i - start));
            assert(body.take(i - start + 1).last() == c);
            assert forall|k: int| 0 <= k < i - start + 1 implies ascii_digit(
                #[trigger] body.take(i - start + 1)[k],
            ) by {
                if k < i - start {
                    assert(body.take(i - start + 1)[k] == body.take(i - start)[k]);
                }
            }
        }
        acc = acc * 10 + (code - 48);
        i += 1;
        proof {
            assert(acc == digits_value(body.take(i - start)));
        }
        if acc > 65535 {
            proof {
                if all_ascii_digits(body) {
                    lemma_digits_value_grows(body, i - start);
                }
            }
            return None;
        }
    }
    proof {
        assert(body.take(n - start) =~= body);
    }
    Some(acc as u16)
}

// ---------------------------------------------------------------------------
// Checks
// ---------------------------------------------------------------------------

/// One rule a field is checked against.
pub enum Check {
    /// The field must not be blank
    Required { name: String },
    /// The field must have at least `min` characters
    MinLength { name: String, min: usize },
    /// The field must have at most `max` characters
    MaxLength { name: String, max: usize },
    /// The field must be a host name or address
    Hostname,
    /// The field must be a port number above 0
    PortNumber,
    /// The field must match a regular expression
    Pattern { name: String, regex: String, message: String },
}

/// A character allowed in a host name: alphanumeric, `.`, `-`, `:`, `[`, `]`.
pub open spec fn host_char(c: char) -> bool {
    is_unicode_alphanumeric(c) || c == '.' || c == '-' || c == ':' || c == '[' || c == ']'
}

/// The error a host name field gives, checked on its trimmed text.
pub open spec fn hostname_error(value: Seq<char>) -> Option<Seq<char>> {
    let t = trimmed(value);
    if t.len() == 0 {
        Some("Host is required"@)
    } else if !(forall|i: int| 0 <= i < t.len() ==> host_char(#[trigger] t[i])) {
        Some("Invalid hostname format"@)
    } else if t[0] == '-' || t.last() == '-' {
        Some("Hostname cannot start or end with a hyphen"@)
    } else {
        None
    }
}

/// What a host name field accepts: its trimmed text must be non-empty, made
/// only of alphanumerics, `.`, `-`, `:`, `[` and `]`, and neither start nor
/// end with `-`; any such text is accepted, whatever its length, and each
/// other text gets the error for the first rule it breaks.
pub proof fn hostname_rule_law(value: Seq<char>)
    ensures
        ({
            let t = trimmed(value);
            let chars_ok = forall|i: int| 0 <= i < t.len() ==> host_char(#[trigger] t[i]);
            &&& (t.len() > 0 && chars_ok && t[0] != '-' && t[t.len() - 1] != '-')
                <==> hostname_error(value) is None
            &&& t.len() == 0 ==> hostname_error(value) == Some("Host is required"@)
            &&& t.len() > 0 && !chars_ok ==> hostname_error(value) == Some(
                "Invalid hostname format"@,
            )
            &&& t.len() > 0 && chars_ok && (t[0] == '-' || t[t.len() - 1] == '-')
                ==> hostname_error(value) == Some("Hostname cannot start or end with a hyphen"@)
        }),
{
}

/// The error a port field gives, checked on its trimmed text.
pub open spec fn port_error(value: Seq<char>) -> Option<Seq<char>> {
    let t = trimmed(value);
    if t.len() == 0 {
        Some("Port is required"@)
    } else {
        match parsed_u16(t) {
            Some(p) => if p > 0 {
                None
            } else {
                Some("Port must be greater than 0"@)
            },
            None => Some("Invalid port number"@),
        }
    }
}

/// The error a check gives for a field's text, or `None` when it passes.
pub open spec fn check_error(c: Check, value: Seq<char>) -> Option<Seq<char>> {
    match c {
        Check::Required { name } => if blank(value) {
            Some(name@ + " is required"@)
        } else {
            None
        },
        Check::MinLength { name, min } => if value.len() < min {
            Some(name@ + " must be at least "@ + dec(min as nat) + " characters"@)
        } else {
            None
        },
        Check::MaxLength { name, max } => if value.len() > max {
            Some(name@ + " must be at most "@ + dec(max as nat) + " characters"@)
        } else {
            None
        },
        Check::Hostname => hostname_error(value),
        Check::PortNumber => port_error(value),
        Check::Pattern { name, regex, message } => if regex_finds(regex@, value) {
            None
        } else {
            Some(name@ + ": "@ + message@)
        },
    }
}

/// A check is usable: a pattern check holds an expression that compiles.
pub open spec fn check_wf(c: Check) -> bool {
    match c {
        Check::Pattern { regex, .. } => regex_compiles(regex@),
        _ => true,
    }
}

/// The first error of a sequence of checks, in order.
pub open spec fn first_error(checks: Seq<Check>, value: Seq<char>) -> Option<Seq<char>>
    decreases checks.len(),
{
    if checks.len() == 0 {
        None
    } else {
        match check_error(checks[0], value) {
            Some(m) => Some(m),
            None => first_error(checks.drop_first(), value),
        }
    }
}

proof fn lemma_first_error_skip(checks: Seq<Check>, value: Seq<char>, i: int)
    requires
        0 <= i <= checks.len(),
        forall|k: int| 0 <= k < i ==> check_error(#[trigger] checks[k], value) is None,
    ensures
        first_error(checks, value) == first_error(checks.skip(i), value),
    decreases i,
{
    if i == 0 {
        assert(checks.skip(0) =~= checks);
    } else {
        let d = checks.drop_first();
        assert(check_error(checks[0], value) is None);
        assert forall|k: int| 0 <= k < i - 1 implies check_error(#[trigger] d[k], value) is None by {
            assert(d[k] == checks[k + 1]);
        }
        lemma_first_error_skip(d, value, i - 1);
        assert(d.skip(i - 1) =~= checks.skip(i));
    }
}

/// The first error of two runs of checks one after the other is that of the
/// first run, or else that of the second.
pub proof fn lemma_first_error_concat(a: Seq<Check>, b: Seq<Check>, value: Seq<char>)
    ensures
        first_error(a + b, value) == match first_error(a, value) {
            Some(m) => Some(m),
            None => first_error(b, value),
        },
    decreases a.len(),
{
    if a.len() == 0 {
        assert(a + b =~= b);
    } else {
        assert((a + b).drop_first() =~= a.drop_first() + b);
        assert((a + b)[0] == a[0]);
        lemma_first_error_concat(a.drop_first(), b, value);
    }
}

impl Check {
    /// A copy of the check.
    pub fn duplicate(&self) -> (d: Check)
        ensures
            d == *self,
    {
        match self {
            Check::Required { name } => Check::Required { name: name.clone() },
            Check::MinLength { name, min } => Check::MinLength { name: name.clone(), min: *min },
            Check::MaxLength { name, max } => Check::MaxLength { name: name.clone(), max: *max },
            Check::Hostname => Check::Hostname,
            Check::PortNumber => Check::PortNumber,
            Check::Pattern { name, regex, message } => Check::Pattern {
                name: name.clone(),
                regex: regex.clone(),
                message: message.clone(),
            },
        }
    }

    /// The error the check gives for `value`, or `None` when it passes.
    pub fn error(&self, value: &str) -> (e: Option<String>)
        requires
            check_wf(*self),
        ensures
            match (e, check_error(*self, value@)) {
                (Some(m), Some(t)) => m@ == t,
                (None, None) => true,
                _ => false,
            },
    {
        match self {
            Check::Required { name } => {
                if is_blank(value) {
                    let mut m = name.clone();
                    m.append(" is required");
                    Some(m)
                } else {
                    None
                }
            },
            Check::MinLength { name, min } => {
                if value.unicode_len() < *min {
                    let mut m = name.clone();
                    m.append(" must be at least ");
                    push_dec(&mut m, *min as u64);
                    m.append(" characters");
                    Some(m)
                } else {
                    None
                }
            },
            Check::MaxLength { name, max } => {
                if value.unicode_len() > *max {
                    let mut m = name.clone();
                    m.append(" must be at most ");
                    push_dec(&mut m, *max as u64);
                    m.append(" characters");
                    Some(m)
                } else {
                    None
                }
            },
            Check::Hostname => hostname_check(value),
            Check::PortNumber => port_check(value),
            Check::Pattern { name, regex, message } => {
                if regex_is_match(regex.as_str(), value) {
                    None
                } else {
                    let mut m = name.clone();
                    m.append(": ");
                    m.append(message.as_str());
                    Some(m)
                }
            },
        }
    }
}

fn hostname_check(value: &str) -> (e: Option<String>)
    ensures
        match (e, hostname_error(value@)) {
            (Some(m), Some(t)) => m@ == t,
            (None, None) => true,
            _ => false,
        },
{
    let t = trim(value);
    let n = t.unicode_len();
    if n == 0 {
        return Some(String::from_str("Host is required"));
    }
    let mut i: usize = 0;
    while i < n
        invariant
            n == t@.len(),
            t@ == trimmed(value@),
            i <= n,
            forall|k: int| 0 <= k < i ==> host_char(#[trigger] t@[k]),
        decreases n - i,
    {
        let c = t.get_char(i);
        if !(is_alphanumeric(c) || c == '.' || c == '-' || c == ':' || c == '[' || c == ']') {
            proof {
                assert(!host_char(t@[i as int]));
            }
            return Some(String::from_str("Invalid hostname format"));
        }
        i += 1;
    }
    if t.get_char(0) == '-' || t.get_char(n - 1) == '-' {
        return Some(String::from_str("Hostname cannot start or end with a hyphen"));
    }
    None
}

fn port_check(value: &str) -> (e: Option<String>)
    ensures
        match (e, port_error(value@)) {
            (Some(m), Some(t)) => m@ == t,
            (None, None) => true,
            _ => false,
        },
{
    let t = trim(value);
    if t.unicode_len() == 0 {
        return Some(String::from_str("Port is required"));
    }
    match parse_u16(t) {
        Some(p) => if p > 0 {
            None
        } else {
            Some(String::from_str("Port must be greater than 0"))
        },
        None => Some(String::from_str("Invalid port number")),
    }
}

// ---------------------------------------------------------------------------
// Validators
// ---------------------------------------------------------------------------

/// A validator: checks run in order, the first error wins.
pub struct ValidatorFn {
    checks: Vec<Check>,
}

impl View for ValidatorFn {
    type V = Seq<Check>;

    closed spec fn view(&self) -> Seq<Check> {
        self.checks@
    }
}

impl ValidatorFn {
    /// Every check of the validator is usable.
    pub open spec fn wf(&self) -> bool {
        forall|i: int| 0 <= i < self@.len() ==> check_wf(#[trigger] self@[i])
    }

    /// Runs the validator on a field's text: the first check that fails
    /// gives the error, otherwise the field is valid.
    pub fn call(&self, value: &str) -> (r: ValidationResult)
        requires
            self.wf(),
        ensures
            result_is(r, first_error(self@, value@)),
    {
        let mut i: usize = 0;
        while i < self.checks.len()
            invariant
                i <= self@.len(),
                self.wf(),
                forall|k: int| 0 <= k < i ==> check_error(#[trigger] self@[k], value@) is None,
            decreases self@.len() - i,
        {
            match self.checks[i].error(value) {
                Some(m) => {
                    proof {
                        lemma_first_error_skip(self@, value@, i as int);
                        assert(self@.skip(i as int)[0] == self@[i as int]);
                    }
                    return ValidationResult::Error(m);
                },
                None => {},
            }
            i += 1;
        }
        proof {
            lemma_first_error_skip(self@, value@, i as int);
        }
        ValidationResult::Valid
    }
}

fn single(c: Check) -> (v: ValidatorFn)
    ensures
        v@ == seq![c],
{
    let mut checks: Vec<Check> = Vec::new();
    checks.push(c);
    ValidatorFn { checks }
}

/// Validates that a field is not empty.
pub fn required(field_name: &str) -> (v: ValidatorFn)
    ensures
        v.wf(),
        v@.len() == 1,
        v@[0] matches Check::Required { name } && name@ == field_name@,
{
    single(Check::Required { name: field_name.to_string() })
}

/// Validates that a field has at least `min` characters.
pub fn min_length(field_name: &str, min: usize) -> (v: ValidatorFn)
    ensures
        v.wf(),
        v@.len() == 1,
        v@[0] matches Check::MinLength { name, min: m } && name@ == field_name@ && m == min,
{
    single(Check::MinLength { name: field_name.to_string(), min })
}

/// Validates that a field has at most `max` characters.
pub fn max_length(field_name: &str, max: usize) -> (v: ValidatorFn)
    ensures
        v.wf(),
        v@.len() == 1,
        v@[0] matches Check::MaxLength { name, max: m } && name@ == field_name@ && m == max,
{
    single(Check::MaxLength { name: field_name.to_string(), max })
}

/// Validates that a field is a host name or address.
pub fn hostname() -> (v: ValidatorFn)
    ensures
        v.wf(),
        v@ == seq![Check::Hostname],
{
    single(Check::Hostname)
}

/// Validates that a field is a port number.
pub fn port_number() -> (v: ValidatorFn)
    ensures
        v.wf(),
        v@ == seq![Check::PortNumber],
{
    single(Check::PortNumber)
}

/// Validates that a field matches the regular expression `regex`, which must
/// compile (see `try_pattern` for an expression not known to).
pub fn pattern(field_name: &str, regex: &str, error_message: &str) -> (v: ValidatorFn)
    requires
        regex_compiles(regex@),
    ensures
        v.wf(),
        v@.len() == 1,
        v@[0] matches Check::Pattern { name, regex: r, message } && name@ == field_name@ && r@
            == regex@ && message@ == error_message@,
{
    single(
        Check::Pattern {
            name: field_name.to_string(),
            regex: regex.to_string(),
            message: error_message.to_string(),
        },
    )
}

/// The pattern validator, or `None` when `regex` does not compile.
pub fn try_pattern(field_name: &str, regex: &str, error_message: &str) -> (v: Option<ValidatorFn>)
    ensures
        v is Some <==> regex_compiles(regex@),
        v is Some ==> {
            let w = v->0;
            &&& w.wf()
            &&& w@.len() == 1
            &&& w@[0] matches Check::Pattern { name, regex: r, message } && name@ == field_name@
                && r@ == regex@ && message@ == error_message@
        },
{
    if pattern_compiles(regex) {
        Some(pattern(field_name, regex, error_message))
    } else {
        None
    }
}

/// The checks of several validators, one validator after the other.
pub open spec fn joined_checks(validators: Seq<ValidatorFn>) -> Seq<Check>
    decreases validators.len(),
{
    if validators.len() == 0 {
        Seq::empty()
    } else {
        validators[0]@ + joined_checks(validators.drop_first())
    }
}

/// The first error among several validators, tried in order.
pub open spec fn validators_error(validators: Seq<ValidatorFn>, value: Seq<char>) -> Option<
    Seq<char>,
>
    decreases validators.len(),
{
    if validators.len() == 0 {
        None
    } else {
        match first_error(validators[0]@, value) {
            Some(m) => Some(m),
            None => validators_error(validators.drop_first(), value),
        }
    }
}

/// The joined checks fail first where the validators do.
pub proof fn lemma_joined_error(validators: Seq<ValidatorFn>, value: Seq<char>)
    ensures
        first_error(joined_checks(validators), value) == validators_error(validators, value),
    decreases validators.len(),
{
    if validators.len() > 0 {
        lemma_joined_error(validators.drop_first(), value);
        lemma_first_error_concat(validators[0]@, joined_checks(validators.drop_first()), value);
    }
}

proof fn lemma_joined_push(validators: Seq<ValidatorFn>, v: ValidatorFn)
    ensures
        joined_checks(validators.push(v)) == joined_checks(validators) + v@,
    decreases validators.len(),
{
    let p = validators.push(v);
    if validators.len() == 0 {
        assert(p.drop_first() =~= Seq::<ValidatorFn>::empty());
        assert(p[0] == v);
        assert(joined_checks(p.drop_first()) == Seq::<Check>::empty());
        assert(joined_checks(p) == v@ + Seq::<Check>::empty());
        assert(v@ + Seq::<Check>::empty() =~= v@);
        assert(joined_checks(validators) == Seq::<Check>::empty());
        assert(Seq::<Check>::empty() + v@ =~= v@);
    } else {
        assert(p.drop_first() =~= validators.drop_first().push(v));
        assert(p[0] == validators[0]);
        lemma_joined_push(validators.drop_first(), v);
        assert(joined_checks(p) == validators[0]@ + joined_checks(p.drop_first()));
        assert(validators[0]@ + (joined_checks(validators.drop_first()) + v@) =~= (validators[0]@
            + joined_checks(validators.drop_first())) + v@);
    }
}

/// Combines validators: the first error found, in order, wins.
pub fn all_of(validators: Vec<ValidatorFn>) -> (v: ValidatorFn)
    requires
        forall|i: int| 0 <= i < validators@.len() ==> (#[trigger] validators@[i]).wf(),
    ensures
        v.wf(),
        v@ == joined_checks(validators@),
{
    let mut checks: Vec<Check> = Vec::new();
    let mut i: usize = 0;
    while i < validators.len()
        invariant
            i <= validators@.len(),
            forall|k: int| 0 <= k < validators@.len() ==> (#[trigger] validators@[k]).wf(),
            checks@ == joined_checks(validators@.take(i as int)),
            forall|k: int| 0 <= k < checks@.len() ==> check_wf(#[trigger] checks@[k]),
        decreases validators@.len() - i,
    {
        let v = &validators[i];
        let ghost before = checks@;
        let mut j: usize = 0;
        while j < v.checks.len()
            invariant
                j <= v@.len(),
                v.wf(),
                checks@ == before + v@.take(j as int),
                forall|k: int| 0 <= k < checks@.len() ==> check_wf(#[trigger] checks@[k]),
            decreases v@.len() - j,
        {
            checks.push(v.checks[j].duplicate());
            proof {
                assert(before + v@.take(j + 1) =~= (before + v@.take(j as int)).push(v@[j as int]));
            }
            j += 1;
        }
        proof {
            assert(v@.take(v@.len() as int) =~= v@);
            assert(validators@.take(i + 1) =~= validators@.take(i as int).push(validators@[i as int]));
            lemma_joined_push(validators@.take(i as int), validators@[i as int]);
        }
        i += 1;
    }
    proof {
        assert(validators@.take(validators@.len() as int) =~= validators@);
    }
    ValidatorFn { checks }
}

// ---------------------------------------------------------------------------
// Fields and forms
// ---------------------------------------------------------------------------

/// What a field shows after validation.
pub struct FieldFeedback {
    /// The result of the validators
    pub result: ValidationResult,
    /// The class the entry gets once the three feedback classes are removed
    pub entry_class: Option<&'static str>,
    /// The label's new text and visibility, where the field has a label
    pub label: Option<(String, bool)>,
    /// Whether the field is valid now
    pub is_valid: bool,
    /// Whether validity changed, so that the change callback runs with
    /// `is_valid`
    pub changed: bool,
}

/// The feedback of a field with the given result: an error marks the entry
/// with `error` and shows the message; a valid non-empty field is marked
/// `success`, and the label is cleared and hidden.
pub open spec fn feedback_is(
    f: FieldFeedback,
    outcome: Option<Seq<char>>,
    value: Seq<char>,
    has_label: bool,
    was_valid: bool,
) -> bool {
    &&& result_is(f.result, outcome)
    &&& f.is_valid == (outcome is None)
    &&& f.changed == (f.is_valid != was_valid)
    &&& match outcome {
        Some(m) => {
            &&& f.entry_class is Some && f.entry_class->0@ == "error"@
            &&& if has_label {
                f.label matches Some((text, shown)) && text@ == m && shown
            } else {
                f.label is None
            }
        },
        None => {
            &&& if value.len() > 0 {
                f.entry_class is Some && f.entry_class->0@ == "success"@
            } else {
                f.entry_class is None
            }
            &&& if has_label {
                f.label matches Some((text, shown)) && text@.len() == 0 && !shown
            } else {
                f.label is None
            }
        },
    }
}

/// A field's validators and its validity so far.
pub struct FieldValidator {
    validators: Vec<ValidatorFn>,
    has_error_label: bool,
    is_valid: bool,
}

impl FieldValidator {
    /// The validators, in order.
    pub closed spec fn validators_spec(&self) -> Seq<ValidatorFn> {
        self.validators@
    }

    /// Whether the field shows messages in a label.
    pub closed spec fn has_label_spec(&self) -> bool {
        self.has_error_label
    }

    /// The field's validity as last recorded.
    pub closed spec fn valid_spec(&self) -> bool {
        self.is_valid
    }

    /// Every validator is usable.
    pub open spec fn wf(&self) -> bool {
        forall|i: int|
            0 <= i < self.validators_spec().len() ==> (#[trigger] self.validators_spec()[i]).wf()
    }

    /// Creates a validator with no rules and no label; the field counts as
    /// valid.
    pub fn new() -> (f: Self)
        ensures
            f.wf(),
            f.validators_spec().len() == 0,
            !f.has_label_spec(),
            f.valid_spec(),
    {
        FieldValidator { validators: Vec::new(), has_error_label: false, is_valid: true }
    }

    /// Shows messages in a label from now on.
    pub fn with_error_label(self) -> (f: Self)
        ensures
            f.validators_spec() == self.validators_spec(),
            f.has_label_spec(),
            f.valid_spec() == self.valid_spec(),
    {
        let mut f = self;
        f.has_error_label = true;
        f
    }

    /// Adds a validator, run after those already there.
    pub fn add_validator(self, validator: ValidatorFn) -> (f: Self)
        ensures
            f.validators_spec() == self.validators_spec().push(validator),
            f.has_label_spec() == self.has_label_spec(),
            f.valid_spec() == self.valid_spec(),
    {
        let mut f = self;
        f.validators.push(validator);
        f
    }

    /// Adds a required validator.
    pub fn required(self, field_name: &str) -> (f: Self)
        ensures
            f.validators_spec().len() == self.validators_spec().len() + 1,
            f.validators_spec().take(self.validators_spec().len() as int)
                == self.validators_spec(),
            f.validators_spec().last()@.len() == 1,
            f.validators_spec().last()@[0] matches Check::Required { name } && name@
                == field_name@,
            self.wf() ==> f.wf(),
            f.has_label_spec() == self.has_label_spec(),
            f.valid_spec() == self.valid_spec(),
    {
        let f = self.add_validator(required(field_name));
        proof {
            assert(f.validators_spec().take(self.validators_spec().len() as int)
                =~= self.validators_spec());
        }
        f
    }

    /// Adds a hostname validator.
    pub fn hostname(self) -> (f: Self)
        ensures
            f.validators_spec().len() == self.validators_spec().len() + 1,
            f.validators_spec().take(self.validators_spec().len() as int)
                == self.validators_spec(),
            f.validators_spec().last()@ == seq![Check::Hostname],
            self.wf() ==> f.wf(),
            f.has_label_spec() == self.has_label_spec(),
            f.valid_spec() == self.valid_spec(),
    {
        let f = self.add_validator(hostname());
        proof {
            assert(f.validators_spec().take(self.validators_spec().len() as int)
                =~= self.validators_spec());
        }
        f
    }

    /// Validates the field's text and records the new validity; returns the
    /// visual feedback and whether the change callback runs.
    pub fn validate(&mut self, value: &str) -> (f: FieldFeedback)
        requires
            old(self).wf(),
        ensures
            final(self).wf(),
            final(self).validators_spec() == old(self).validators_spec(),
            final(self).has_label_spec() == old(self).has_label_spec(),
            feedback_is(
                f,
                validators_error(old(self).validators_spec(), value@),
                value@,
                old(self).has_label_spec(),
                old(self).valid_spec(),
            ),
            final(self).valid_spec() == f.is_valid,
    {
        let mut i: usize = 0;
        let mut result = ValidationResult::Valid;
        proof {
            assert(self.validators@.skip(0) =~= self.validators@);
        }
        while i < self.validators.len()
            invariant_except_break
                result_is(result, None),
            invariant
                i <= self.validators@.len(),
                self.wf(),
                validators_error(self.validators@, value@) == validators_error(
                    self.validators@.skip(i as int),
                    value@,
                ),
            ensures
                result_is(result, validators_error(self.validators@, value@)),
            decreases self.validators@.len() - i,
        {
            assert(self.validators_spec()[i as int].wf());
            let r = self.validators[i].call(value);
            proof {
                assert(self.validators@.skip(i as int)[0] == self.validators@[i as int]);
                assert(self.validators@.skip(i as int).drop_first() =~= self.validators@.skip(
                    i + 1,
                ));
            }
            if r.is_error() {
                result = r;
                break;
            }
            i += 1;
        }
        let outcome_error = result.is_error();
        let entry_class: Option<&'static str> = if outcome_error {
            Some(ERROR_CSS_CLASS)
        } else if value.unicode_len() > 0 {
            Some(SUCCESS_CSS_CLASS)
        } else {
            None
        };
        proof {
            reveal_strlit("error");
            reveal_strlit("success");
        }
        let label: Option<(String, bool)> = if !self.has_error_label {
            None
        } else {
            match &result {
                ValidationResult::Error(m) => Some((m.clone(), true)),
                _ => Some((String::new(), false)),
            }
        };
        let is_valid = !outcome_error;
        let changed = is_valid != self.is_valid;
        self.is_valid = is_valid;
        FieldFeedback { result, entry_class, label, is_valid, changed }
    }

    /// Returns whether the field is currently valid.
    pub fn is_valid(&self) -> (b: bool)
        ensures
            b == self.valid_spec(),
    {
        self.is_valid
    }
}

/// The feedback of a whole form.
pub struct FormFeedback {
    /// Whether every field is valid
    pub all_valid: bool,
    /// Whether the form's validity changed, so that its callback runs with
    /// `all_valid`
    pub changed: bool,
    /// Each field's feedback, in order
    pub fields: Vec<FieldFeedback>,
}

/// A form: its fields and its validity so far.
pub struct FormValidator {
    fields: Vec<FieldValidator>,
    is_valid: bool,
}

impl FormValidator {
    /// The fields, in order.
    pub closed spec fn fields_spec(&self) -> Seq<FieldValidator> {
        self.fields@
    }

    /// The form's validity as last recorded.
    pub closed spec fn valid_spec(&self) -> bool {
        self.is_valid
    }

    /// Every field is usable.
    pub open spec fn wf(&self) -> bool {
        forall|i: int| 0 <= i < self.fields_spec().len() ==> (#[trigger] self.fields_spec()[i]).wf()
    }

    /// Creates a form with no fields; it counts as valid.
    pub fn new() -> (f: Self)
        ensures
            f.wf(),
            f.fields_spec().len() == 0,
            f.valid_spec(),
    {
        FormValidator { fields: Vec::new(), is_valid: true }
    }

    /// Adds a field.
    pub fn add_field(&mut self, validator: FieldValidator)
        requires
            old(self).wf(),
            validator.wf(),
        ensures
            final(self).wf(),
            final(self).fields_spec() == old(self).fields_spec().push(validator),
            final(self).valid_spec() == old(self).valid_spec(),
    {
        self.fields.push(validator);
        proof {
            assert forall|k: int| 0 <= k < self.fields_spec().len() implies (
            #[trigger] self.fields_spec()[k]).wf() by {
                if k < old(self).fields_spec().len() {
                    assert(self.fields_spec()[k] == old(self).fields_spec()[k]);
                }
            }
        }
    }

    /// Validates every field (each gets its feedback, none is skipped) with
    /// its text in `values`; the form is valid when all fields are.
    pub fn validate(&mut self, values: &Vec<String>) -> (f: FormFeedback)
        requires
            old(self).wf(),
            values@.len() == old(self).fields_spec().len(),
        ensures
            final(self).wf(),
            final(self).fields_spec().len() == old(self).fields_spec().len(),
            f.fields@.len() == values@.len(),
            forall|i: int|
                0 <= i < values@.len() ==> {
                    let before = #[trigger] old(self).fields_spec()[i];
                    let after = final(self).fields_spec()[i];
                    &&& after.validators_spec() == before.validators_spec()
                    &&& after.has_label_spec() == before.has_label_spec()
                    &&& feedback_is(
                        f.fields@[i],
                        validators_error(before.validators_spec(), values@[i]@),
                        values@[i]@,
                        before.has_label_spec(),
                        before.valid_spec(),
                    )
                    &&& after.valid_spec() == f.fields@[i].is_valid
                },
            f.all_valid == (forall|i: int|
                0 <= i < values@.len() ==> validators_error(
                    (#[trigger] old(self).fields_spec()[i]).validators_spec(),
                    values@[i]@,
                ) is None),
            f.changed == (f.all_valid != old(self).valid_spec()),
            final(self).valid_spec() == f.all_valid,
    {
        let ghost before = self.fields@;
        let mut feedback: Vec<FieldFeedback> = Vec::new();
        let mut all_valid = true;
        let mut i: usize = 0;
        while i < self.fields.len()
            invariant
                i <= self.fields@.len(),
                self.fields@.len() == before.len(),
                values@.len() == before.len(),
                forall|k: int| 0 <= k < before.len() ==> (#[trigger] before[k]).wf(),
                forall|k: int| 0 <= k < self.fields@.len() ==> (#[trigger] self.fields@[k]).wf(),
                forall|k: int| i <= k < before.len() ==> self.fields@[k] == before[k],
                feedback@.len() == i,
                self.is_valid == old(self).is_valid,
                forall|k: int|
                    0 <= k < i ==> {
                        let b = #[trigger] before[k];
                        let a = self.fields@[k];
                        &&& a.validators_spec() == b.validators_spec()
                        &&& a.has_label_spec() == b.has_label_spec()
                        &&& feedback_is(
                            feedback@[k],
                            validators_error(b.validators_spec(), values@[k]@),
                            values@[k]@,
                            b.has_label_spec(),
                            b.valid_spec(),
                        )
                        &&& a.valid_spec() == feedback@[k].is_valid
                    },
                all_valid == (forall|k: int|
                    0 <= k < i ==> validators_error(
                        (#[trigger] before[k]).validators_spec(),
                        values@[k]@,
                    ) is None),
            decreases before.len() - i,
        {
            let ghost fields_before = self.fields@;
            assert(self.fields@[i as int].wf());
            let mut field = self.fields.remove(i);
            let fb = field.validate(values[i].as_str());
            self.fields.insert(i, field);
            proof {
                assert(self.fields@ =~= fields_before.update(i as int, field));
            }
            let ghost prev_all = all_valid;
            if !fb.is_valid {
                all_valid = false;
            }
            let ghost fb_valid = fb.is_valid;
            feedback.push(fb);
            proof {
                assert(fb_valid == (validators_error(before[i as int].validators_spec(), values@[i as int]@) is None));
                if all_valid {
                    assert forall|k: int| 0 <= k < i + 1 implies validators_error(
                        (#[trigger] before[k]).validators_spec(),
                        values@[k]@,
                    ) is None by {
                        if k < i {
                            assert(prev_all);
                        }
                    }
                } else {
                    if prev_all {
                        assert(!fb_valid);
                    }
                }
            }
            i += 1;
        }
        let changed = all_valid != self.is_valid;
        self.is_valid = all_valid;
        FormFeedback { all_valid, changed, fields: feedback }
    }

    /// Returns whether the form is currently valid.
    pub fn is_valid(&self) -> (b: bool)
        ensures
            b == self.valid_spec(),
    {
        self.is_valid
    }
}

impl Default for FormValidator {
    fn default() -> (f: Self)
        ensures
            f.wf(),
            f.fields_spec().len() == 0,
            f.valid_spec(),
    {
        Self::new()
    }
}

} // verus!
