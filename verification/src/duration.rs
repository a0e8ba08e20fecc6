//! Go-style duration strings (`"5m"`, `"1h30m"`, etc.).
//!
//! Used both for the per-resource `spec.syncInterval` field and for the
//! operator-level refresh intervals configured via environment variables.
use vstd::prelude::*;
use vstd::string::*;

use crate::text;
use crate::text::{chars_of, join3, quote, read_unsigned, trim};

verus! {

/// Nanoseconds in a second.
pub const NANOS_PER_SEC: u128 = 1_000_000_000;

/// The longest span: as many seconds as 64 bits can count, and all but a
/// nanosecond of one more.
pub const MAX_NANOS: u128 = 18_446_744_073_709_551_615_999_999_999;

/// As many seconds as 64 bits can count, in nanoseconds.
pub const MAX_WHOLE_SECS: u128 = 18_446_744_073_709_551_615_000_000_000;

/// A span of time: whole seconds, and the nanoseconds beyond them.
#[derive(Clone, Copy, Debug, PartialEq, Eq, Structural)]
pub struct Duration {
    pub secs: u64,
    /// Less than a second.
    pub nanos: u32,
}

/// The span of `n` nanoseconds.
pub open spec fn of_nanos(n: nat) -> Duration {
    Duration { secs: (n / 1_000_000_000) as u64, nanos: (n % 1_000_000_000) as u32 }
}

impl Duration {
    /// The nanoseconds beyond the whole seconds make up less than a second.
    pub open spec fn wf(self) -> bool {
        self.nanos < 1_000_000_000
    }

    /// The whole span, in nanoseconds.
    pub open spec fn total(self) -> nat {
        (self.secs * 1_000_000_000 + self.nanos) as nat
    }

    /// The span of `secs` seconds.
    pub fn from_secs(secs: u64) -> (r: Self)
        ensures
            r == (Duration { secs, nanos: 0 }),
    {
        Duration { secs, nanos: 0 }
    }

    /// The span of `nanos` nanoseconds.
    pub fn from_nanos(nanos: u128) -> (r: Self)
        requires
            nanos <= MAX_NANOS,
        ensures
            r == of_nanos(nanos as nat),
            r.total() == nanos,
            r.wf(),
    {
        Duration { secs: (nanos / NANOS_PER_SEC) as u64, nanos: (nanos % NANOS_PER_SEC) as u32 }
    }

    /// The number of whole seconds.
    pub fn as_secs(&self) -> (r: u64)
        ensures
            r == self.secs,
    {
        self.secs
    }

    /// The whole span, in nanoseconds.
    pub fn as_nanos(&self) -> (r: u128)
        ensures
            r == self.total(),
    {
        self.secs as u128 * NANOS_PER_SEC + self.nanos as u128
    }

    /// Whether the span is empty.
    pub fn is_zero(&self) -> (r: bool)
        ensures
            r == (self.total() == 0),
    {
        self.secs == 0 && self.nanos == 0
    }
}

/// Every span up to the longest is kept to the nanosecond, and in one way only.
pub proof fn law_spans_are_exact(n: nat, d: Duration)
    requires
        d.wf(),
    ensures
        n <= MAX_NANOS ==> of_nanos(n).wf() && of_nanos(n).total() == n,
        d.total() <= MAX_NANOS,
        of_nanos(d.total()) == d,
{
}

// ---------------------------------------------------------------------------
// Grammar
// ---------------------------------------------------------------------------

/// What can be wrong with a duration string.
#[derive(Clone, Copy, Debug)]
pub enum DurationFault {
    UnexpectedChar,
    InvalidNumber,
    MissingUnit,
    UnknownUnit(char),
}

/// The end of the run of decimal digits at `i`.
pub open spec fn digits_end(s: Seq<char>, i: int) -> int
    decreases s.len() - i,
{
    if 0 <= i < s.len() && text::is_digit(s[i]) {
        digits_end(s, i + 1)
    } else {
        i
    }
}

/// The unit at `i`: the nanoseconds that it stands for and its length in
/// characters.
pub open spec fn unit_at(s: Seq<char>, i: int) -> Option<(nat, int)> {
    let then_s = i + 1 < s.len() && s[i + 1] == 's';
    if i < 0 || i >= s.len() {
        None
    } else if then_s && s[i] == 'n' {
        Some((1nat, 2int))
    } else if then_s && (s[i] == '\u{b5}' || s[i] == 'u') {
        Some((1_000nat, 2int))
    } else if then_s && s[i] == 'm' {
        Some((1_000_000nat, 2int))
    } else if s[i] == 's' {
        Some((1_000_000_000nat, 1int))
    } else if s[i] == 'm' {
        Some((60_000_000_000nat, 1int))
    } else if s[i] == 'h' {
        Some((3_600_000_000_000nat, 1int))
    } else {
        None
    }
}

/// The nanoseconds that the terms from `i` on add up to.
pub open spec fn span(s: Seq<char>, i: int) -> Result<nat, DurationFault>
    decreases s.len() - i,
    via span_decreases
{
    let j = digits_end(s, i);
    if i < 0 || i >= s.len() {
        Ok(0)
    } else if j <= i {
        Err(DurationFault::UnexpectedChar)
    } else {
        match text::unsigned(s.subrange(i, j), u64::MAX as nat) {
            None => Err(DurationFault::InvalidNumber),
            Some(n) => if j >= s.len() {
                Err(DurationFault::MissingUnit)
            } else {
                match unit_at(s, j) {
                    None => Err(DurationFault::UnknownUnit(s[j])),
                    Some((factor, len)) => match span(s, j + len) {
                        Ok(rest) => Ok(n * factor + rest),
                        Err(e) => Err(e),
                    },
                }
            },
        }
    }
}

#[via_fn]
proof fn span_decreases(s: Seq<char>, i: int) {
    if 0 <= i {
        lemma_digits_end(s, i);
    }
}

/// Whether the terms from `i` on can be read: the seconds of each can be counted
/// in 64 bits, and a character in the place of a unit is an ASCII character.
pub open spec fn readable(s: Seq<char>, i: int) -> bool
    decreases s.len() - i,
    via readable_decreases
{
    let j = digits_end(s, i);
    if i < 0 || i >= s.len() || j <= i || j >= s.len() {
        true
    } else {
        match text::unsigned(s.subrange(i, j), u64::MAX as nat) {
            None => true,
            Some(n) => match unit_at(s, j) {
                None => s[j] <= '\u{7f}',
                Some((factor, len)) => n * factor <= MAX_WHOLE_SECS && readable(s, j + len),
            },
        }
    }
}

#[via_fn]
proof fn readable_decreases(s: Seq<char>, i: int) {
    if 0 <= i {
        lemma_digits_end(s, i);
    }
}

/// `digits_end` is a position at or after `i`; what lies between is digits,
/// and what stands there is none.
pub proof fn lemma_digits_end(s: Seq<char>, i: int)
    requires
        0 <= i,
    ensures
        i <= digits_end(s, i),
        i <= s.len() ==> digits_end(s, i) <= s.len(),
        forall|k: int| i <= k < digits_end(s, i) ==> text::is_digit(#[trigger] s[k]),
        digits_end(s, i) < s.len() ==> !text::is_digit(s[digits_end(s, i)]),
    decreases s.len() - i,
{
    if i < s.len() && text::is_digit(s[i]) {
        lemma_digits_end(s, i + 1);
    }
}

/// The end of a run of digits is where a character is no digit.
pub proof fn lemma_digits_end_is(s: Seq<char>, i: int, j: int)
    requires
        0 <= i <= j <= s.len(),
        forall|k: int| i <= k < j ==> text::is_digit(#[trigger] s[k]),
        j < s.len() ==> !text::is_digit(s[j]),
    ensures
        digits_end(s, i) == j,
    decreases j - i,
{
    if i < j {
        lemma_digits_end_is(s, i + 1, j);
    }
}

/// The span of `n` nanoseconds; where its seconds are more than 64 bits can
/// count, as many whole seconds as they can.
pub open spec fn saturated(n: nat) -> Duration {
    if n > MAX_NANOS {
        Duration { secs: u64::MAX, nanos: 0 }
    } else {
        of_nanos(n)
    }
}

// ---------------------------------------------------------------------------
// Reading
// ---------------------------------------------------------------------------

/// The end of the run of decimal digits at `from`.
fn scan_digits(cs: &Vec<char>, from: usize) -> (r: usize)
    requires
        from <= cs@.len(),
    ensures
        r == digits_end(cs@, from as int),
        from <= r <= cs@.len(),
{
    let mut i: usize = from;
    while i < cs.len() && cs[i] >= '0' && cs[i] <= '9'
        invariant
            from <= i <= cs@.len(),
            digits_end(cs@, from as int) == digits_end(cs@, i as int),
        decreases cs@.len() - i,
    {
        i = i + 1;
    }
    i
}

/// The unit at `i`: the nanoseconds that it stands for and its length.
fn read_unit(cs: &Vec<char>, i: usize) -> (r: Option<(u128, usize)>)
    requires
        i < cs@.len(),
    ensures
        match r {
            Some(u) => {
                &&& unit_at(cs@, i as int) == Some((u.0 as nat, u.1 as int))
                &&& i + u.1 <= cs@.len()
                &&& u.0 <= 3_600_000_000_000
            },
            None => unit_at(cs@, i as int) is None,
        },
{
    let c = cs[i];
    let then_s = cs.len() - i > 1 && cs[i + 1] == 's';
    if then_s && c == 'n' {
        Some((1, 2))
    } else if then_s && (c == '\u{b5}' || c == 'u') {
        Some((1_000, 2))
    } else if then_s && c == 'm' {
        Some((1_000_000, 2))
    } else if c == 's' {
        Some((1_000_000_000, 1))
    } else if c == 'm' {
        Some((60_000_000_000, 1))
    } else if c == 'h' {
        Some((3_600_000_000_000, 1))
    } else {
        None
    }
}

/// The nanoseconds of a term.
fn term_nanos(num: u64, factor: u128) -> (r: u128)
    requires
        factor <= 3_600_000_000_000,
    ensures
        r == num * factor,
{
    proof {
        assert(num * factor <= 0xFFFF_FFFF_FFFF_FFFF * 3_600_000_000_000) by (nonlinear_arith)
            requires
                num <= 0xFFFF_FFFF_FFFF_FFFF,
                factor <= 3_600_000_000_000,
        ;
    }
    num as u128 * factor
}

/// Adds up the terms of a trimmed duration string.
fn read_terms(cs: &Vec<char>) -> (r: Result<Duration, DurationFault>)
    requires
        readable(cs@, 0),
    ensures
        match r {
            Ok(d) => span(cs@, 0) is Ok && d == saturated(span(cs@, 0)->Ok_0),
            Err(e) => span(cs@, 0) == Err::<nat, DurationFault>(e),
        },
{
    let mut total: u128 = 0;
    let mut past_limit = false;
    let mut i: usize = 0;
    let ghost mut sum: nat = 0;
    while i < cs.len()
        invariant
            i <= cs@.len(),
            readable(cs@, i as int),
            past_limit == (sum > MAX_NANOS),
            !past_limit ==> total == sum,
            span(cs@, 0) == (match span(cs@, i as int) {
                Ok(rest) => Ok::<nat, DurationFault>(sum + rest),
                Err(e) => Err(e),
            }),
        decreases cs@.len() - i,
    {
        let j = scan_digits(cs, i);
        if j == i {
            return Err(DurationFault::UnexpectedChar);
        }
        let num = match read_unsigned(cs, i, j, u64::MAX) {
            Some(n) => n,
            None => return Err(DurationFault::InvalidNumber),
        };
        if j >= cs.len() {
            return Err(DurationFault::MissingUnit);
        }
        let (factor, len) = match read_unit(cs, j) {
            Some(u) => u,
            None => return Err(DurationFault::UnknownUnit(cs[j])),
        };
        let nanos = term_nanos(num, factor);
        if past_limit || total > MAX_NANOS - nanos {
            past_limit = true;
        } else {
            total = total + nanos;
        }
        proof {
            sum = sum + (num as nat) * (factor as nat);
        }
        i = j + len;
    }
    if past_limit {
        return Ok(Duration::from_secs(u64::MAX));
    }
    Ok(Duration::from_nanos(total))
}

/// Whether a duration string can be read at all.
pub fn duration_readable(s: &str) -> (r: bool)
    ensures
        r == readable(text::trimmed(s@), 0),
{
    let t = trim(s);
    let cs = chars_of(t.as_str());
    let mut i: usize = 0;
    while i < cs.len()
        invariant
            i <= cs@.len(),
            cs@ == text::trimmed(s@),
            readable(cs@, 0) == readable(cs@, i as int),
        decreases cs@.len() - i,
    {
        let j = scan_digits(&cs, i);
        if j == i || j >= cs.len() {
            return true;
        }
        let num = match read_unsigned(&cs, i, j, u64::MAX) {
            Some(n) => n,
            None => return true,
        };
        let (factor, len) = match read_unit(&cs, j) {
            Some(u) => u,
            None => return cs[j] <= '\u{7f}',
        };
        if term_nanos(num, factor) > MAX_WHOLE_SECS {
            return false;
        }
        i = j + len;
    }
    true
}

// ---------------------------------------------------------------------------
// Results
// ---------------------------------------------------------------------------

/// What is reported of a fault in the duration string `s`.
pub open spec fn fault_message(s: Seq<char>, fault: DurationFault) -> Seq<char> {
    match fault {
        DurationFault::UnexpectedChar => "unexpected char in duration "@ + text::quoted(s),
        DurationFault::InvalidNumber => "invalid number in duration "@ + text::quoted(s),
        DurationFault::MissingUnit => "missing unit in duration "@ + text::quoted(s),
        DurationFault::UnknownUnit(c) => "unknown unit in duration "@ + text::quoted(s) + (": "@
            + text::quoted(seq![c])),
    }
}

/// Writes what is reported of a fault in the duration string `s`.
pub fn describe_fault(s: &str, fault: DurationFault) -> (r: String)
    ensures
        r@ == fault_message(s@, fault),
{
    let shown = quote(s);
    match fault {
        DurationFault::UnexpectedChar => {
            let mut out = "unexpected char in duration ".to_owned();
            out.append(shown.as_str());
            out
        },
        DurationFault::InvalidNumber => {
            let mut out = "invalid number in duration ".to_owned();
            out.append(shown.as_str());
            out
        },
        DurationFault::MissingUnit => {
            let mut out = "missing unit in duration ".to_owned();
            out.append(shown.as_str());
            out
        },
        DurationFault::UnknownUnit(c) => {
            let mut one = String::new();
            one.push(c);
            proof {
                assert(one@ =~= seq![c]);
            }
            let mut tail = ": ".to_owned();
            tail.append(quote(one.as_str()).as_str());
            join3("unknown unit in duration ", shown.as_str(), tail.as_str())
        },
    }
}

/// What reading the terms of the trimmed duration string `t` gives.
pub open spec fn terms_result(t: Seq<char>) -> Result<Duration, Seq<char>> {
    match span(t, 0) {
        Ok(n) => Ok(saturated(n)),
        Err(fault) => Err(fault_message(t, fault)),
    }
}

/// What reading a duration string gives.
pub open spec fn duration_of(s: Seq<char>) -> Result<Duration, Seq<char>> {
    let t = text::trimmed(s);
    if t.len() == 0 {
        Err("empty duration string"@)
    } else {
        terms_result(t)
    }
}

/// The view of a duration or of an error text.
pub open spec fn duration_view(r: Result<Duration, String>) -> Result<Duration, Seq<char>> {
    match r {
        Ok(d) => Ok(d),
        Err(m) => Err(m@),
    }
}

/// Reads the terms of a trimmed duration string, or says what is wrong.
pub(crate) fn sum_terms(t: &str) -> (r: Result<Duration, String>)
    requires
        readable(t@, 0),
    ensures
        duration_view(r) == terms_result(t@),
{
    let cs = chars_of(t);
    match read_terms(&cs) {
        Ok(d) => Ok(d),
        Err(fault) => Err(describe_fault(t, fault)),
    }
}

/// Parse a Go-style duration string supporting `ns`, `us`/`\u{b5}s`, `ms`, `s`, `m`, `h` units.
///
/// Units may be combined (`"1h30m"`). An empty string is an error here; callers that
/// want an empty string to mean "use the default" should check for it before calling.
pub fn parse_duration(s: &str) -> (r: Result<Duration, String>)
    requires
        readable(text::trimmed(s@), 0),
    ensures
        duration_view(r) == duration_of(s@),
{
    let t = trim(s);
    if t.as_str().is_empty() {
        return Err("empty duration string".to_owned());
    }
    sum_terms(t.as_str())
}

// ---------------------------------------------------------------------------
// Laws
// ---------------------------------------------------------------------------

proof fn lemma_span_append(a: Seq<char>, b: Seq<char>, i: int)
    requires
        0 <= i <= a.len(),
        b.len() > 0,
        text::is_digit(b[0]),
        span(a, i) is Ok,
        span(b, 0) is Ok,
    ensures
        span(a + b, i) == Ok::<nat, DurationFault>(
            span(a, i)->Ok_0 + span(b, 0)->Ok_0,
        ),
        readable(a + b, i) == (readable(a, i) && readable(b, 0)),
    decreases a.len() - i,
{
    let s = a + b;
    if i == a.len() {
        lemma_span_shift(a, b, 0);
    } else {
        let j = digits_end(a, i);
        lemma_digits_end(a, i);
        assert(j < a.len());
        assert forall|k: int| i <= k < j implies text::is_digit(#[trigger] s[k]) by {
            assert(s[k] == a[k]);
        }
        lemma_digits_end_is(s, i, j);
        assert(s.subrange(i, j) =~= a.subrange(i, j));
        let u = unit_at(a, j)->0;
        assert(unit_at(s, j) == unit_at(a, j));
        lemma_span_append(a, b, j + u.1);
    }
}

proof fn lemma_span_shift(a: Seq<char>, b: Seq<char>, i: int)
    requires
        0 <= i <= b.len(),
    ensures
        span(a + b, a.len() + i) == span(b, i),
        readable(a + b, a.len() + i) == readable(b, i),
    decreases b.len() - i,
{
    let s = a + b;
    if i < b.len() {
        let j = digits_end(b, i);
        lemma_digits_end(b, i);
        assert forall|k: int| a.len() + i <= k < a.len() + j implies text::is_digit(
            #[trigger] s[k],
        ) by {
            assert(s[k] == b[k - a.len()]);
        }
        lemma_digits_end_is(s, a.len() + i, a.len() + j);
        assert(s.subrange(a.len() + i, a.len() + j) =~= b.subrange(i, j));
        if j < b.len() {
            assert(unit_at(s, a.len() + j) == unit_at(b, j));
            if let Some((f, len)) = unit_at(b, j) {
                lemma_span_shift(a, b, j + len);
            }
        }
    }
}

/// Units may be combined: two durations that can be read, one written after the
/// other, stand for the sum of their nanoseconds.
pub proof fn law_durations_add(a: Seq<char>, b: Seq<char>)
    requires
        span(a, 0) is Ok,
        span(b, 0) is Ok,
    ensures
        span(a + b, 0) == Ok::<nat, DurationFault>(span(a, 0)->Ok_0 + span(b, 0)->Ok_0),
        readable(a + b, 0) == (readable(a, 0) && readable(b, 0)),
{
    if b.len() == 0 {
        assert(a + b =~= a);
    } else {
        lemma_digits_end(b, 0);
        lemma_span_append(a, b, 0);
    }
}

/// The sum of two numbers of seconds, or as many as 64 bits can count.
pub open spec fn saturating_sum(a: u64, b: u64) -> u64 {
    if a + b > u64::MAX {
        u64::MAX
    } else {
        (a + b) as u64
    }
}

/// Two durations of whole seconds, one written after the other, are read as the
/// sum of the seconds that each is read as, and that sum saturates; whatever
/// the units, which of the two comes first makes no difference.
pub proof fn law_written_durations_add(a: Seq<char>, b: Seq<char>)
    requires
        text::trimmed(a) == a,
        text::trimmed(b) == b,
        duration_of(a) is Ok,
        duration_of(b) is Ok,
    ensures
        span(a, 0)->Ok_0 % 1_000_000_000 == 0 && span(b, 0)->Ok_0 % 1_000_000_000 == 0
            ==> duration_of(a + b) == Ok::<Duration, Seq<char>>(
            Duration {
                secs: saturating_sum(duration_of(a)->Ok_0.secs, duration_of(b)->Ok_0.secs),
                nanos: 0,
            },
        ),
        duration_of(a + b) == duration_of(b + a),
{
    law_durations_add(a, b);
    law_durations_add(b, a);
    text::lemma_trimmed_ends(a);
    text::lemma_trimmed_ends(b);
    assert((a + b)[0] == a[0] && (a + b).last() == b.last());
    assert((b + a)[0] == b[0] && (b + a).last() == a.last());
    text::lemma_trimmed_already(a + b);
    text::lemma_trimmed_already(b + a);
}

/// Every unit in the terms from `i` on is one of `s`, `m` and `h`.
pub open spec fn whole_units(s: Seq<char>, i: int) -> bool
    decreases s.len() - i,
    via whole_units_decreases
{
    let j = digits_end(s, i);
    if i < 0 || i >= s.len() || j <= i {
        true
    } else {
        match unit_at(s, j) {
            None => true,
            Some((factor, len)) => len == 1 && whole_units(s, j + len),
        }
    }
}

#[via_fn]
proof fn whole_units_decreases(s: Seq<char>, i: int) {
    if 0 <= i {
        lemma_digits_end(s, i);
    }
}

proof fn lemma_seconds_in_term(n: nat, factor: nat)
    requires
        factor == 1_000_000_000 || factor == 60_000_000_000 || factor == 3_600_000_000_000,
    ensures
        (n * factor) % 1_000_000_000 == 0,
{
    if factor == 1_000_000_000 {
        assert(n * factor == n * 1_000_000_000);
    } else if factor == 60_000_000_000 {
        assert(n * factor == n * 60_000_000_000);
    } else {
        assert(n * factor == n * 3_600_000_000_000);
    }
}

proof fn lemma_whole_units_divide(s: Seq<char>, i: int)
    requires
        0 <= i <= s.len(),
        span(s, i) is Ok,
        whole_units(s, i),
    ensures
        span(s, i)->Ok_0 % 1_000_000_000 == 0,
    decreases s.len() - i,
{
    if i < s.len() {
        let j = digits_end(s, i);
        lemma_digits_end(s, i);
        let u = unit_at(s, j)->0;
        let n = text::unsigned(s.subrange(i, j), u64::MAX as nat)->0;
        lemma_whole_units_divide(s, j + u.1);
        lemma_seconds_in_term(n, u.0);
        let rest = span(s, j + u.1)->Ok_0;
        assert(span(s, i)->Ok_0 == n * u.0 + rest);
    }
}

/// Hours, minutes and seconds make whole seconds, and these saturate at what 64
/// bits can count.
pub proof fn law_whole_units_make_whole_seconds(s: Seq<char>, i: int)
    requires
        0 <= i <= s.len(),
        span(s, i) is Ok,
        whole_units(s, i),
    ensures
        span(s, i)->Ok_0 % 1_000_000_000 == 0,
        saturated(span(s, i)->Ok_0) == (Duration {
            secs: if span(s, i)->Ok_0 / 1_000_000_000 > u64::MAX {
                u64::MAX
            } else {
                (span(s, i)->Ok_0 / 1_000_000_000) as u64
            },
            nanos: 0,
        }),
{
    lemma_whole_units_divide(s, i);
    lemma_whole_seconds_saturate(span(s, i)->Ok_0);
}

proof fn lemma_whole_seconds_saturate(n: nat)
    requires
        n % 1_000_000_000 == 0,
    ensures
        saturated(n) == (Duration {
            secs: if n / 1_000_000_000 > u64::MAX {
                u64::MAX
            } else {
                (n / 1_000_000_000) as u64
            },
            nanos: 0,
        }),
{
}

proof fn lemma_decimal_digits(n: nat)
    ensures
        text::decimal(n).len() > 0,
        text::all_digits(text::decimal(n)),
        text::digits_value(text::decimal(n)) == n,
    decreases n,
{
    let s = text::decimal(n);
    if n < 10 {
        reveal_with_fuel(text::digits_value, 2);
        assert(s.drop_last() =~= seq![]);
    } else {
        lemma_decimal_digits(n / 10);
        assert(s.drop_last() =~= text::decimal(n / 10));
    }
}

/// The nanoseconds that a unit stands for.
pub open spec fn unit_nanos(unit: Seq<char>) -> nat {
    if unit == seq!['h'] {
        3_600_000_000_000
    } else if unit == seq!['m'] {
        60_000_000_000
    } else if unit == seq!['s'] {
        1_000_000_000
    } else if unit == seq!['m', 's'] {
        1_000_000
    } else if unit == seq!['u', 's'] || unit == seq!['\u{b5}', 's'] {
        1_000
    } else {
        1
    }
}

/// A number followed by a unit is that many hours, minutes, seconds,
/// milliseconds, microseconds or nanoseconds, and is read as just that much
/// where its seconds can be counted in 64 bits.
pub proof fn law_single_term(n: nat, unit: Seq<char>)
    requires
        n <= u64::MAX,
        unit == seq!['h'] || unit == seq!['m'] || unit == seq!['s'] || unit == seq!['m', 's']
            || unit == seq!['u', 's'] || unit == seq!['\u{b5}', 's'] || unit == seq!['n', 's'],
    ensures
        span(text::decimal(n) + unit, 0) == Ok::<nat, DurationFault>(n * unit_nanos(unit)),
        readable(text::decimal(n) + unit, 0) <==> n * unit_nanos(unit) <= MAX_WHOLE_SECS,
        n * unit_nanos(unit) <= MAX_WHOLE_SECS ==> terms_result(text::decimal(n) + unit) == Ok::<
            Duration,
            Seq<char>,
        >(of_nanos(n * unit_nanos(unit))),
{
    let d = text::decimal(n);
    let s = d + unit;
    let j = d.len() as int;
    lemma_decimal_digits(n);
    assert forall|k: int| 0 <= k < j implies text::is_digit(#[trigger] s[k]) by {
        assert(s[k] == d[k]);
    }
    assert(s[j] == unit[0]);
    lemma_digits_end_is(s, 0, j);
    assert(s.subrange(0, j) =~= d);
    assert(unit.len() == 1 || unit.len() == 2);
    if unit.len() == 2 {
        assert(s[j + 1] == 's');
    }
    let u = unit_at(s, j)->0;
    assert(unit_at(s, j) is Some && u.1 == unit.len());
    assert(u.0 == unit_nanos(unit));
    assert(span(s, j + unit.len()) == Ok::<nat, DurationFault>(0));
    assert(readable(s, j + unit.len()));
}

/// A span is read to the nanosecond where a [`Duration`] can hold it, and else
/// as the most seconds that 64 bits can count.
pub proof fn law_spans_saturate(n: nat)
    ensures
        n <= 18_446_744_073_709_551_615_999_999_999 ==> saturated(n).secs * 1_000_000_000
            + saturated(n).nanos == n && saturated(n).nanos < 1_000_000_000,
        n > 18_446_744_073_709_551_615_999_999_999 ==> saturated(n) == (Duration {
            secs: u64::MAX,
            nanos: 0,
        }),
{
    if n <= MAX_NANOS {
        law_spans_are_exact(n, Duration { secs: 0, nanos: 0 });
    }
}

/// A duration is read from its text between white space, which may not be
/// empty: it is what the terms in it add up to, and not one term may be amiss.
pub proof fn law_duration_is_its_terms(s: Seq<char>)
    ensures
        text::trimmed(s).len() == 0 ==> duration_of(s) is Err,
        text::trimmed(s).len() > 0 ==> match span(text::trimmed(s), 0) {
            Ok(n) => duration_of(s) == Ok::<Duration, Seq<char>>(saturated(n)),
            Err(_) => duration_of(s) is Err,
        },
        span(text::trimmed(s), 0) matches Ok(n) ==> terms_result(text::trimmed(s)) == Ok::<
            Duration,
            Seq<char>,
        >(saturated(n)),
        text::trimmed(s).len() > 0 ==> (duration_of(s) matches Err(m) ==> text::holds_within(
            m,
            text::quoted(text::trimmed(s)),
        )),
{
    let t = text::trimmed(s);
    if let Err(fault) = span(t, 0) {
        let q = text::quoted(t);
        let none = Seq::<char>::empty();
        let m = fault_message(t, fault);
        match fault {
            DurationFault::UnexpectedChar => {
                assert(m =~= "unexpected char in duration "@ + q + none);
            },
            DurationFault::InvalidNumber => {
                assert(m =~= "invalid number in duration "@ + q + none);
            },
            DurationFault::MissingUnit => {
                assert(m =~= "missing unit in duration "@ + q + none);
            },
            DurationFault::UnknownUnit(c) => {
                assert(m =~= "unknown unit in duration "@ + q + (": "@ + text::quoted(seq![c])));
            },
        }
    }
}

/// A term without a number, without a unit, or with a number that 64 bits cannot
/// hold is refused, and so is a unit that is none of `ns`, `us`, `ms`, `s`, `m`
/// and `h`.
pub proof fn law_faulty_terms_are_told(digits: Seq<char>, c: char, rest: Seq<char>)
    requires
        text::all_digits(digits),
        !text::is_digit(c),
    ensures
        span(seq![c] + rest, 0) == Err::<nat, DurationFault>(DurationFault::UnexpectedChar),
        readable(seq![c] + rest, 0),
        readable(digits, 0),
        digits.len() > 0 && text::digits_value(digits) <= u64::MAX ==> span(digits, 0) == Err::<
            nat,
            DurationFault,
        >(DurationFault::MissingUnit),
        digits.len() > 0 && text::digits_value(digits) > u64::MAX ==> {
            &&& span(digits, 0) == Err::<nat, DurationFault>(DurationFault::InvalidNumber)
            &&& span(digits + (seq![c] + rest), 0) == Err::<nat, DurationFault>(
                DurationFault::InvalidNumber,
            )
            &&& readable(digits + (seq![c] + rest), 0)
        },
        digits.len() > 0 && text::digits_value(digits) <= u64::MAX && c != 's' && c != 'm' && c
            != 'h' && !((c == 'n' || c == 'u' || c == '\u{b5}') && rest.len() > 0 && rest[0] == 's')
            ==> span(digits + (seq![c] + rest), 0) == Err::<nat, DurationFault>(
            DurationFault::UnknownUnit(c),
        ) && (readable(digits + (seq![c] + rest), 0) <==> c as int <= 127),
{
    let n = digits.len() as int;
    let bare = seq![c] + rest;
    lemma_digits_end_is(bare, 0, 0);
    lemma_digits_end_is(digits, 0, n);
    assert(digits.subrange(0, n) =~= digits);
    let s = digits + bare;
    assert forall|k: int| 0 <= k < n implies text::is_digit(#[trigger] s[k]) by {
        assert(s[k] == digits[k]);
    }
    assert(s[n] == c);
    lemma_digits_end_is(s, 0, n);
    assert(s.subrange(0, n) =~= digits);
    if rest.len() > 0 {
        assert(s[n + 1] == rest[0]);
    }
}

proof fn lemma_span_then(a: Seq<char>, b: Seq<char>, i: int)
    requires
        0 <= i <= a.len(),
        b.len() > 0,
        b[0] != 's',
        span(a, i) is Ok,
    ensures
        span(a + b, i) == (match span(b, 0) {
            Ok(n) => Ok::<nat, DurationFault>(span(a, i)->Ok_0 + n),
            Err(e) => Err(e),
        }),
        readable(a + b, i) == (readable(a, i) && readable(b, 0)),
    decreases a.len() - i,
{
    let s = a + b;
    if i == a.len() {
        lemma_span_shift(a, b, 0);
    } else {
        let j = digits_end(a, i);
        lemma_digits_end(a, i);
        assert(j < a.len());
        assert forall|k: int| i <= k < j implies text::is_digit(#[trigger] s[k]) by {
            assert(s[k] == a[k]);
        }
        lemma_digits_end_is(s, i, j);
        assert(s.subrange(i, j) =~= a.subrange(i, j));
        let u = unit_at(a, j)->0;
        assert(unit_at(s, j) == unit_at(a, j));
        lemma_span_then(a, b, j + u.1);
    }
}

/// A fault behind terms that can be read is the fault of the whole. (An `s`
/// behind an `m` belongs to its unit.)
pub proof fn law_fault_behind_good_terms(a: Seq<char>, b: Seq<char>)
    requires
        span(a, 0) is Ok,
        b.len() > 0,
        b[0] != 's',
    ensures
        span(b, 0) matches Err(e) ==> span(a + b, 0) == Err::<nat, DurationFault>(e),
        readable(a + b, 0) == (readable(a, 0) && readable(b, 0)),
{
    lemma_span_then(a, b, 0);
}

/// What a reader is told of each fault, word for word.
pub proof fn law_duration_messages_read(s: Seq<char>, c: char)
    ensures
        fault_message(s, DurationFault::UnexpectedChar) == "unexpected char in duration "@
            + text::quoted(s),
        fault_message(s, DurationFault::InvalidNumber) == "invalid number in duration "@
            + text::quoted(s),
        fault_message(s, DurationFault::MissingUnit) == "missing unit in duration "@
            + text::quoted(s),
        fault_message(s, DurationFault::UnknownUnit(c)) == "unknown unit in duration "@
            + text::quoted(s) + ": "@ + text::quoted(seq![c]),
        span(s, 0) matches Err(e) ==> terms_result(s) == Err::<Duration, Seq<char>>(
            fault_message(s, e),
        ),
        text::trimmed(s).len() == 0 ==> duration_of(s) == Err::<Duration, Seq<char>>(
            "empty duration string"@,
        ),
{
    let q = text::quoted(s);
    let start = "unknown unit in duration "@ + q;
    assert(start + (": "@ + text::quoted(seq![c])) =~= start + ": "@ + text::quoted(seq![c]));
}

} // verus!
