//! The duration expression grammar.
//!
//! An expression is a run of decimal digits, an attached unit token, and an
//! optional seconds segment after the first colon: `"{n}{unit}[:{seconds}]"`.
//! A unit token containing the letter `h` (in either case) selects hours, one
//! containing `m` selects minutes; this is substring containment by design, so
//! `h` also matches the residual characters of `hour` and `m` matches within
//! `minute`. An empty unit token is invalid on its own, but is rescued by a
//! seconds segment, which then carries the whole value; only in that case is
//! the seconds component capped at 59.

use vstd::prelude::*;
use vstd::string::*;

verus! {

/// An ASCII decimal digit.
pub open spec fn is_digit(c: char) -> bool {
    48 <= c as u32 <= 57
}

/// The value of an ASCII decimal digit.
pub open spec fn digit_val(c: char) -> int {
    c as u32 - 48
}

/// Every character of the sequence is a decimal digit.
pub open spec fn all_digits(s: Seq<char>) -> bool {
    forall|i: int| 0 <= i < s.len() ==> is_digit(#[trigger] s[i])
}

/// The value of a digit sequence read as a decimal number.
pub open spec fn dec_val(s: Seq<char>) -> int
    decreases s.len(),
{
    if s.len() == 0 {
        0
    } else {
        10 * dec_val(s.drop_last()) + digit_val(s.last())
    }
}

/// The index of the first colon, or the length when there is none.
pub open spec fn first_colon(s: Seq<char>) -> int
    decreases s.len(),
{
    if s.len() == 0 {
        0
    } else if s[0] == ':' {
        0
    } else {
        1 + first_colon(s.skip(1))
    }
}

/// The index of the first non-digit character, or the length when the whole
/// sequence is digits.
pub open spec fn digits_end(s: Seq<char>) -> int
    decreases s.len(),
{
    if s.len() == 0 {
        0
    } else if !is_digit(s[0]) {
        0
    } else {
        1 + digits_end(s.skip(1))
    }
}

/// The unit token selects hours: it contains an `h` in either case.
pub open spec fn unit_has_hours(u: Seq<char>) -> bool {
    exists|i: int| 0 <= i < u.len() && ((#[trigger] u[i]) == 'h' || u[i] == 'H')
}

/// The unit token selects minutes: it contains an `m` in either case.
pub open spec fn unit_has_minutes(u: Seq<char>) -> bool {
    exists|i: int| 0 <= i < u.len() && ((#[trigger] u[i]) == 'm' || u[i] == 'M')
}

/// The components of a parsed interval, as unbounded integers.
pub struct SpecInterval {
    pub hours: int,
    pub minutes: int,
    pub seconds: int,
}

impl SpecInterval {
    /// The single total-seconds value that all computation collapses to.
    pub open spec fn total(self) -> int {
        self.hours * 3600 + self.minutes * 60 + self.seconds
    }
}

/// The parse failures, each carrying the offending token.
pub enum SpecParseError {
    InvalidDuration(Seq<char>),
    InvalidUnit(Seq<char>),
    InvalidSeconds(Seq<char>),
    SecondsOutOfRange,
}

/// The grammar itself: what parsing an input yields.
///
/// The input is cut at the first colon. The part before it holds the digits
/// of the duration value and, right after them, the unit token; the part
/// after the colon is the seconds segment. Checks are applied in this order:
/// the digits must be non-empty and fit in a `u64`; the unit token must name
/// hours or minutes, or be empty with a seconds segment present; the seconds
/// segment, when present, must be all digits and fit; a seconds value above
/// 59 is rejected only when the unit token is empty; a total beyond `u64`
/// is rejected as an invalid duration.
pub open spec fn parse_spec(s: Seq<char>) -> Result<SpecInterval, SpecParseError> {
    let head = s.take(first_colon(s));
    let digits = head.take(digits_end(head));
    let unit = head.skip(digits_end(head));
    let has_secs = first_colon(s) < s.len();
    let sseg = s.skip(first_colon(s) + 1);
    if digits.len() == 0 || dec_val(digits) > u64::MAX {
        Err(SpecParseError::InvalidDuration(head))
    } else if !unit_has_hours(unit) && !unit_has_minutes(unit) && !(unit.len() == 0
        && has_secs) {
        Err(SpecParseError::InvalidUnit(unit))
    } else if has_secs && (sseg.len() == 0 || !all_digits(sseg) || dec_val(sseg) > u64::MAX) {
        Err(SpecParseError::InvalidSeconds(sseg))
    } else {
        let v = dec_val(digits);
        let secs = if has_secs { dec_val(sseg) } else { 0 };
        let hours = if unit_has_hours(unit) { v } else { 0 };
        let minutes = if !unit_has_hours(unit) && unit_has_minutes(unit) { v } else { 0 };
        if unit.len() == 0 && secs > 59 {
            Err(SpecParseError::SecondsOutOfRange)
        } else if hours * 3600 + minutes * 60 + secs > u64::MAX {
            Err(SpecParseError::InvalidDuration(head))
        } else {
            Ok(SpecInterval { hours, minutes, seconds: secs })
        }
    }
}

/// The rendered text of a parse failure, with the offending token embedded.
pub open spec fn error_message(e: SpecParseError) -> Seq<char> {
    match e {
        SpecParseError::InvalidDuration(t) => "Invalid duration: "@ + t,
        SpecParseError::InvalidUnit(t) => "Invalid unit: "@ + t,
        SpecParseError::InvalidSeconds(t) => "Invalid seconds: "@ + t,
        SpecParseError::SecondsOutOfRange => "Seconds cannot exceed 59"@,
    }
}

/// A parse failure, carrying the offending token for display.
#[derive(Debug, Clone, PartialEq, Eq)]
pub enum ParseError {
    InvalidDuration(String),
    InvalidUnit(String),
    InvalidSeconds(String),
    SecondsOutOfRange,
}

impl ParseError {
    /// Renders the failure as a human-readable message with the offending
    /// token embedded.
    pub fn message(&self) -> (r: String)
        ensures
            r@ == match self {
                ParseError::InvalidDuration(t) => "Invalid duration: "@ + t@,
                ParseError::InvalidUnit(t) => "Invalid unit: "@ + t@,
                ParseError::InvalidSeconds(t) => "Invalid seconds: "@ + t@,
                ParseError::SecondsOutOfRange => "Seconds cannot exceed 59"@,
            },
    {
        match self {
            ParseError::InvalidDuration(t) => String::from_str("Invalid duration: ").concat(
                t.as_str(),
            ),
            ParseError::InvalidUnit(t) => String::from_str("Invalid unit: ").concat(t.as_str()),
            ParseError::InvalidSeconds(t) => String::from_str("Invalid seconds: ").concat(
                t.as_str(),
            ),
            ParseError::SecondsOutOfRange => String::from_str("Seconds cannot exceed 59"),
        }
    }
}

/// An exact, non-negative duration in whole seconds, kept as the
/// hours/minutes/seconds provenance of its parse.
#[derive(Debug, Clone)]
pub struct TimeInterval {
    hours: u64,
    minutes: u64,
    seconds: u64,
}

impl TimeInterval {
    /// The hours component.
    pub closed spec fn spec_hours(&self) -> u64 {
        self.hours
    }

    /// The minutes component.
    pub closed spec fn spec_minutes(&self) -> u64 {
        self.minutes
    }

    /// The seconds component.
    pub closed spec fn spec_seconds(&self) -> u64 {
        self.seconds
    }

    /// The single total-seconds value that all computation collapses to.
    pub open spec fn total(&self) -> int {
        self.spec_hours() * 3600 + self.spec_minutes() * 60 + self.spec_seconds()
    }

    /// The total fits in a `u64`; every parsed interval satisfies this.
    pub open spec fn wf(&self) -> bool {
        self.total() <= u64::MAX
    }

    /// The total duration in whole seconds.
    pub fn total_seconds(&self) -> (r: u64)
        requires
            self.wf(),
        ensures
            r as int == self.total(),
    {
        self.hours * 3600 + self.minutes * 60 + self.seconds
    }

    /// The interval as a std duration of whole seconds.
    pub fn to_duration(&self) -> core::time::Duration
        requires
            self.wf(),
    {
        core::time::Duration::new(self.total_seconds(), 0)
    }
}

/// Relies on std's `Duration::new`: it builds a duration out of seconds and
/// nanoseconds, and panics only when the carry from the nanoseconds
/// overflows the seconds counter.
pub assume_specification [ core::time::Duration::new ](secs: u64, nanos: u32) -> core::time::Duration
    requires
        secs + nanos as int / 1_000_000_000 <= u64::MAX,
;

proof fn lemma_first_colon_bounds(s: Seq<char>)
    ensures
        0 <= first_colon(s) <= s.len(),
        first_colon(s) < s.len() ==> s[first_colon(s)] == ':',
        forall|j: int| 0 <= j < first_colon(s) ==> s[j] != ':',
    decreases s.len(),
{
    if s.len() > 0 && s[0] != ':' {
        lemma_first_colon_bounds(s.skip(1));
        assert(forall|j: int| 0 <= j < first_colon(s.skip(1)) ==> s.skip(1)[j] != ':');
        assert forall|j: int| 0 <= j < first_colon(s) implies s[j] != ':' by {
            if j > 0 {
                assert(s.skip(1)[j - 1] == s[j]);
            }
        }
    }
}

proof fn lemma_first_colon_from_scan(s: Seq<char>, k: int)
    requires
        0 <= k <= s.len(),
        forall|j: int| 0 <= j < k ==> s[j] != ':',
        k < s.len() ==> s[k] == ':',
    ensures
        first_colon(s) == k,
{
    lemma_first_colon_bounds(s);
    let f = first_colon(s);
    if f < k {
        assert(s[f] == ':');
    }
    if f > k {
        assert(k < s.len());
        assert(s[k] != ':');
    }
}

proof fn lemma_digits_end_bounds(s: Seq<char>)
    ensures
        0 <= digits_end(s) <= s.len(),
        digits_end(s) < s.len() ==> !is_digit(s[digits_end(s)]),
        forall|j: int| 0 <= j < digits_end(s) ==> is_digit(#[trigger] s[j]),
    decreases s.len(),
{
    if s.len() > 0 && is_digit(s[0]) {
        lemma_digits_end_bounds(s.skip(1));
        assert forall|j: int| 0 <= j < digits_end(s) implies is_digit(#[trigger] s[j]) by {
            if j > 0 {
                assert(is_digit(s.skip(1)[j - 1]));
                assert(s.skip(1)[j - 1] == s[j]);
            }
        }
    }
}

proof fn lemma_digits_end_from_scan(s: Seq<char>, k: int)
    requires
        0 <= k <= s.len(),
        forall|j: int| 0 <= j < k ==> is_digit(#[trigger] s[j]),
        k < s.len() ==> !is_digit(s[k]),
    ensures
        digits_end(s) == k,
{
    lemma_digits_end_bounds(s);
    let f = digits_end(s);
    if f < k {
        assert(is_digit(s[f]));
    }
    if f > k {
        assert(k < s.len());
        assert(is_digit(s[k]));
    }
}

proof fn lemma_dec_val_nonneg(s: Seq<char>)
    requires
        all_digits(s),
    ensures
        dec_val(s) >= 0,
    decreases s.len(),
{
    if s.len() > 0 {
        assert(all_digits(s.drop_last())) by {
            assert forall|i: int| 0 <= i < s.drop_last().len() implies is_digit(
                #[trigger] s.drop_last()[i],
            ) by {
                assert(s.drop_last()[i] == s[i]);
            }
        }
        lemma_dec_val_nonneg(s.drop_last());
    }
}

proof fn lemma_all_digits_take(s: Seq<char>, k: int)
    requires
        all_digits(s),
        0 <= k <= s.len(),
    ensures
        all_digits(s.take(k)),
{
    assert forall|i: int| 0 <= i < s.take(k).len() implies is_digit(#[trigger] s.take(k)[i]) by {
        assert(s.take(k)[i] == s[i]);
    }
}

proof fn lemma_dec_val_prefix_le(s: Seq<char>, k: int)
    requires
        all_digits(s),
        0 <= k <= s.len(),
    ensures
        dec_val(s.take(k)) <= dec_val(s),
    decreases s.len() - k,
{
    if k < s.len() {
        lemma_dec_val_prefix_le(s, k + 1);
        lemma_all_digits_take(s, k);
        lemma_dec_val_nonneg(s.take(k));
        assert(s.take(k + 1).drop_last() =~= s.take(k));
        assert(s.take(k + 1).last() == s[k]);
        assert(dec_val(s.take(k + 1)) == 10 * dec_val(s.take(k)) + digit_val(s[k]));
    } else {
        assert(s.take(k) =~= s);
    }
}

fn find_first_colon(s: &str) -> (k: usize)
    ensures
        k as int == first_colon(s@),
        k <= s@.len(),
{
    let n = s.unicode_len();
    let mut i: usize = 0;
    while i < n
        invariant
            0 <= i <= n,
            n == s@.len(),
            forall|j: int| 0 <= j < i ==> s@[j] != ':',
        decreases n - i,
    {
        if s.get_char(i) == ':' {
            proof {
                lemma_first_colon_from_scan(s@, i as int);
            }
            return i;
        }
        i += 1;
    }
    proof {
        lemma_first_colon_from_scan(s@, n as int);
    }
    n
}

fn find_digits_end_upto(s: &str, to: usize) -> (k: usize)
    requires
        to as int <= s@.len(),
    ensures
        k as int == digits_end(s@.take(to as int)),
        k <= to,
{
    let ghost head = s@.take(to as int);
    let mut i: usize = 0;
    while i < to
        invariant
            0 <= i <= to,
            to as int <= s@.len(),
            head == s@.take(to as int),
            forall|j: int| 0 <= j < i ==> is_digit(#[trigger] head[j]),
        decreases to - i,
    {
        let c = s.get_char(i);
        let u = c as u32;
        if u < 48 || u > 57 {
            proof {
                assert(head[i as int] == s@[i as int]);
                lemma_digits_end_from_scan(head, i as int);
            }
            return i;
        }
        proof {
            assert(head[i as int] == s@[i as int]);
        }
        i += 1;
    }
    proof {
        lemma_digits_end_from_scan(head, to as int);
    }
    to
}

fn contains_mark(s: &str, from: usize, to: usize, lower: char, upper: char) -> (b: bool)
    requires
        from <= to,
        to as int <= s@.len(),
    ensures
        b == exists|j: int| from <= j < to && ((#[trigger] s@[j]) == lower || s@[j] == upper),
{
    let mut i: usize = from;
    while i < to
        invariant
            from <= i <= to,
            to as int <= s@.len(),
            forall|j: int| from <= j < i ==> (#[trigger] s@[j]) != lower && s@[j] != upper,
        decreases to - i,
    {
        let c = s.get_char(i);
        if c == lower || c == upper {
            return true;
        }
        i += 1;
    }
    false
}

fn all_digits_range(s: &str, from: usize, to: usize) -> (b: bool)
    requires
        from <= to,
        to as int <= s@.len(),
    ensures
        b == all_digits(s@.subrange(from as int, to as int)),
{
    let ghost sub = s@.subrange(from as int, to as int);
    let mut i: usize = from;
    while i < to
        invariant
            from <= i <= to,
            to as int <= s@.len(),
            sub == s@.subrange(from as int, to as int),
            forall|j: int| 0 <= j < i - from ==> is_digit(#[trigger] sub[j]),
        decreases to - i,
    {
        let c = s.get_char(i);
        let u = c as u32;
        proof {
            assert(sub[i - from] == s@[i as int]);
        }
        if u < 48 || u > 57 {
            return false;
        }
        i += 1;
    }
    true
}

fn parse_decimal(s: &str, from: usize, to: usize) -> (r: Option<u64>)
    requires
        from <= to,
        to as int <= s@.len(),
        all_digits(s@.subrange(from as int, to as int)),
    ensures
        ({
            let d = s@.subrange(from as int, to as int);
            match r {
                Some(v) => v as int == dec_val(d),
                None => dec_val(d) > u64::MAX,
            }
        }),
{
    let ghost d = s@.subrange(from as int, to as int);
    let mut acc: u64 = 0;
    let mut i: usize = from;
    while i < to
        invariant
            from <= i <= to,
            to as int <= s@.len(),
            all_digits(d),
            d == s@.subrange(from as int, to as int),
            acc as int == dec_val(d.take(i - from)),
        decreases to - i,
    {
        let c = s.get_char(i);
        proof {
            assert(d[i - from] == s@[i as int]);
            assert(is_digit(d[i - from]));
        }
        let u = c as u32;
        let dv: u64 = (u - 48) as u64;
        let wide: u128 = acc as u128 * 10 + dv as u128;
        proof {
            assert(d.take(i - from + 1).drop_last() =~= d.take(i - from));
            assert(d.take(i - from + 1).last() == d[i - from]);
            assert(dec_val(d.take(i - from + 1)) == 10 * dec_val(d.take(i - from)) + digit_val(
                d[i - from],
            ));
        }
        if wide > u64::MAX as u128 {
            proof {
                lemma_dec_val_prefix_le(d, i - from + 1);
            }
            return None;
        }
        acc = wide as u64;
        i += 1;
    }
    proof {
        assert(d.take(to - from) =~= d);
    }
    Some(acc)
}

proof fn lemma_exists_mark_subrange(s: Seq<char>, from: int, to: int, c1: char, c2: char)
    requires
        0 <= from <= to <= s.len(),
    ensures
        (exists|j: int| from <= j < to && ((#[trigger] s[j]) == c1 || s[j] == c2)) <==> (exists|
            i: int,
        |
            0 <= i < to - from && ((#[trigger] s.subrange(from, to)[i]) == c1 || s.subrange(
                from,
                to,
            )[i] == c2)),
{
    let sub = s.subrange(from, to);
    if exists|j: int| from <= j < to && ((#[trigger] s[j]) == c1 || s[j] == c2) {
        let j = choose|j: int| from <= j < to && ((#[trigger] s[j]) == c1 || s[j] == c2);
        assert(sub[j - from] == s[j]);
    }
    if exists|i: int| 0 <= i < to - from && ((#[trigger] sub[i]) == c1 || sub[i] == c2) {
        let i = choose|i: int| 0 <= i < to - from && ((#[trigger] sub[i]) == c1 || sub[i] == c2);
        assert(s[from + i] == sub[i]);
        assert(from <= from + i < to && (s[from + i] == c1 || s[from + i] == c2));
    }
}

impl TimeInterval {
    /// Parses a duration expression; the returned interval and each failure
    /// are exactly what the grammar (`parse_spec`) assigns to the input.
    pub fn parse_from_str(interval_str: &str) -> (r: Result<TimeInterval, ParseError>)
        ensures
            ({
                let o = parse_spec(interval_str@);
                match o {
                    Ok(iv) => r matches Ok(t) && t.spec_hours() as int == iv.hours
                        && t.spec_minutes() as int == iv.minutes && t.spec_seconds() as int
                        == iv.seconds && t.wf(),
                    Err(e) => match e {
                        SpecParseError::InvalidDuration(tok) => r matches Err(
                            ParseError::InvalidDuration(t),
                        ) && t@ == tok,
                        SpecParseError::InvalidUnit(tok) => r matches Err(
                            ParseError::InvalidUnit(t),
                        ) && t@ == tok,
                        SpecParseError::InvalidSeconds(tok) => r matches Err(
                            ParseError::InvalidSeconds(t),
                        ) && t@ == tok,
                        SpecParseError::SecondsOutOfRange => r matches Err(
                            ParseError::SecondsOutOfRange,
                        ),
                    },
                }
            }),
    {
        let ghost s = interval_str@;
        let n = interval_str.unicode_len();
        let ci = find_first_colon(interval_str);
        let de = find_digits_end_upto(interval_str, ci);
        let ghost head = s.take(ci as int);
        let ghost digits = head.take(de as int);
        let ghost unit = head.skip(de as int);
        proof {
            lemma_digits_end_bounds(head);
            assert(digits =~= s.subrange(0, de as int));
            assert(unit =~= s.subrange(de as int, ci as int));
            assert(all_digits(digits)) by {
                assert forall|i: int| 0 <= i < digits.len() implies is_digit(
                    #[trigger] digits[i],
                ) by {
                    assert(digits[i] == head[i]);
                }
            }
        }
        if de == 0 {
            proof {
                assert(digits.len() == 0);
            }
            return Err(
                ParseError::InvalidDuration(interval_str.substring_char(0, ci).to_owned()),
            );
        }
        let value: u64 = match parse_decimal(interval_str, 0, de) {
            Some(v) => v,
            None => {
                return Err(
                    ParseError::InvalidDuration(interval_str.substring_char(0, ci).to_owned()),
                );
            },
        };
        let has_h = contains_mark(interval_str, de, ci, 'h', 'H');
        let has_m = contains_mark(interval_str, de, ci, 'm', 'M');
        proof {
            lemma_exists_mark_subrange(s, de as int, ci as int, 'h', 'H');
            lemma_exists_mark_subrange(s, de as int, ci as int, 'm', 'M');
            assert(has_h == unit_has_hours(unit));
            assert(has_m == unit_has_minutes(unit));
        }
        let has_secs = ci < n;
        if !has_h && !has_m && !(de == ci && has_secs) {
            return Err(ParseError::InvalidUnit(interval_str.substring_char(de, ci).to_owned()));
        }
        let mut seconds: u64 = 0;
        if has_secs {
            let sfrom = ci + 1;
            let ghost sseg = s.skip(ci as int + 1);
            proof {
                assert(sseg =~= s.subrange(sfrom as int, n as int));
            }
            if sfrom == n || !all_digits_range(interval_str, sfrom, n) {
                return Err(
                    ParseError::InvalidSeconds(interval_str.substring_char(sfrom, n).to_owned()),
                );
            }
            seconds = match parse_decimal(interval_str, sfrom, n) {
                Some(v) => v,
                None => {
                    return Err(
                        ParseError::InvalidSeconds(
                            interval_str.substring_char(sfrom, n).to_owned(),
                        ),
                    );
                },
            };
            if de == ci && seconds > 59 {
                return Err(ParseError::SecondsOutOfRange);
            }
        }
        let hours: u64 = if has_h { value } else { 0 };
        let minutes: u64 = if !has_h && has_m { value } else { 0 };
        let total_wide: u128 = hours as u128 * 3600 + minutes as u128 * 60 + seconds as u128;
        if total_wide > u64::MAX as u128 {
            return Err(
                ParseError::InvalidDuration(interval_str.substring_char(0, ci).to_owned()),
            );
        }
        Ok(TimeInterval { hours, minutes, seconds })
    }
}

impl core::str::FromStr for TimeInterval {
    type Err = String;

    /// Delegates to `parse_from_str`: the same interval on success, and on
    /// failure the same error rendered by `message`.
    fn from_str(s: &str) -> (r: Result<TimeInterval, String>)
        ensures
            (r is Ok) == (parse_spec(s@) is Ok),
            r matches Ok(t) ==> (parse_spec(s@) matches Ok(iv) && t.spec_hours() as int
                == iv.hours && t.spec_minutes() as int == iv.minutes && t.spec_seconds() as int
                == iv.seconds && t.wf()),
            r matches Err(m) ==> (parse_spec(s@) matches Err(e) && m@ == error_message(e)),
    {
        match TimeInterval::parse_from_str(s) {
            Ok(t) => Ok(t),
            Err(e) => Err(e.message()),
        }
    }
}

/// Law: every input made of decimal digits followed by the letter `h`
/// parses, and its total is exactly the digits' value times 3600.
pub proof fn lemma_hours_input_total(d: Seq<char>)
    requires
        d.len() > 0,
        all_digits(d),
        dec_val(d) * 3600 <= u64::MAX,
    ensures
        ({
            let r = parse_spec(d.push('h'));
            r matches Ok(iv) && iv.hours == dec_val(d) && iv.minutes == 0 && iv.seconds == 0
                && iv.total() == dec_val(d) * 3600
        }),
{
    let s = d.push('h');
    lemma_dec_val_nonneg(d);
    assert forall|j: int| 0 <= j < s.len() implies s[j] != ':' by {
        if j < d.len() {
            assert(is_digit(s[j]));
        }
    }
    lemma_first_colon_from_scan(s, s.len() as int);
    let head = s.take(first_colon(s));
    assert(head =~= s);
    assert forall|j: int| 0 <= j < d.len() implies is_digit(#[trigger] head[j]) by {
        assert(head[j] == d[j]);
    }
    assert(!is_digit(head[d.len() as int]));
    lemma_digits_end_from_scan(head, d.len() as int);
    let digits = head.take(digits_end(head));
    let unit = head.skip(digits_end(head));
    assert(digits =~= d);
    assert(unit.len() == 1 && unit[0] == 'h');
    assert(unit_has_hours(unit));
}

/// Law: every input made of decimal digits followed by the letter `m`
/// parses, and its total is exactly the digits' value times 60.
pub proof fn lemma_minutes_input_total(d: Seq<char>)
    requires
        d.len() > 0,
        all_digits(d),
        dec_val(d) * 60 <= u64::MAX,
    ensures
        ({
            let r = parse_spec(d.push('m'));
            r matches Ok(iv) && iv.hours == 0 && iv.minutes == dec_val(d) && iv.seconds == 0
                && iv.total() == dec_val(d) * 60
        }),
{
    let s = d.push('m');
    lemma_dec_val_nonneg(d);
    assert forall|j: int| 0 <= j < s.len() implies s[j] != ':' by {
        if j < d.len() {
            assert(is_digit(s[j]));
        }
    }
    lemma_first_colon_from_scan(s, s.len() as int);
    let head = s.take(first_colon(s));
    assert(head =~= s);
    assert forall|j: int| 0 <= j < d.len() implies is_digit(#[trigger] head[j]) by {
        assert(head[j] == d[j]);
    }
    assert(!is_digit(head[d.len() as int]));
    lemma_digits_end_from_scan(head, d.len() as int);
    let digits = head.take(digits_end(head));
    let unit = head.skip(digits_end(head));
    assert(digits =~= d);
    assert(unit.len() == 1 && unit[0] == 'm');
    assert(!unit_has_hours(unit));
    assert(unit_has_minutes(unit));
}

} // verus!
