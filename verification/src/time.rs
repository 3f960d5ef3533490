//! Minimal time handling: an epoch-second timestamp, RFC 3339 parsing and
//! formatting, and whole-day differences. No time zones beyond offsets,
//! no calendars beyond the proleptic Gregorian one.

use vstd::prelude::*;
use vstd::arithmetic::div_mod::{lemma_fundamental_div_mod, lemma_fundamental_div_mod_converse};
use crate::text::{dec, dec_padded, digits_value, is_digit, lemma_dec_digits, push_char, push_padded};

verus! {

/// Seconds since 1970-01-01T00:00:00Z.
#[derive(Debug, Clone, Copy, PartialEq, Eq, Structural, PartialOrd, Ord)]
pub struct Utc(pub i64);

/// A span of time in seconds.
#[derive(Debug, Clone, Copy, PartialEq, Eq, Structural, PartialOrd, Ord)]
pub struct Duration(pub i64);

#[verifier::external_type_specification]
#[verifier::external_body]
pub struct ExSystemTime(std::time::SystemTime);

/// `SystemTime::now`: the system clock. What it reads is not stated.
#[verifier::external_body]
fn system_now() -> std::time::SystemTime {
    std::time::SystemTime::now()
}

/// `SystemTime::duration_since(UNIX_EPOCH)`: how long after the Unix
/// epoch `t` lies, `None` when it lies before. Nothing more is stated.
#[verifier::external_body]
fn since_epoch(t: &std::time::SystemTime) -> Option<core::time::Duration> {
    t.duration_since(std::time::UNIX_EPOCH).ok()
}

/// `Duration::as_secs`: the whole seconds of `d`. Nothing more is stated.
#[verifier::external_body]
fn whole_secs(d: &core::time::Duration) -> u64 {
    d.as_secs()
}

/// `str::trim`: the slice without leading and trailing Unicode whitespace.
#[verifier::external_body]
pub(crate) fn trim_str(s: &str) -> (r: &str)
    ensures
        r@ == trim(s@),
{
    s.trim()
}

/// Unicode `White_Space`, the characters `str::trim` removes.
pub open spec fn is_unicode_ws(c: char) -> bool {
    let v = c as u32;
    (0x09 <= v && v <= 0x0D) || v == 0x20 || v == 0x85 || v == 0xA0 || v == 0x1680
        || (0x2000 <= v && v <= 0x200A) || v == 0x2028 || v == 0x2029 || v == 0x202F
        || v == 0x205F || v == 0x3000
}

pub open spec fn trim_start(s: Seq<char>) -> Seq<char>
    decreases s.len(),
{
    if s.len() > 0 && is_unicode_ws(s[0]) {
        trim_start(s.drop_first())
    } else {
        s
    }
}

pub open spec fn trim_end(s: Seq<char>) -> Seq<char>
    decreases s.len(),
{
    if s.len() > 0 && is_unicode_ws(s.last()) {
        trim_end(s.drop_last())
    } else {
        s
    }
}

/// `s` without leading and trailing Unicode whitespace.
pub open spec fn trim(s: Seq<char>) -> Seq<char> {
    trim_end(trim_start(s))
}

pub open spec fn is_digit_byte(b: u8) -> bool {
    48 <= b && b <= 57
}

/// The value of the `n` decimal digits at `p`, if they are all digits.
pub open spec fn int_at(b: Seq<u8>, p: int, n: nat) -> Option<nat>
    decreases n,
{
    if n == 0 {
        Some(0)
    } else {
        match int_at(b, p, (n - 1) as nat) {
            Some(v) => if 0 <= p + n - 1 < b.len() && is_digit_byte(b[p + n - 1]) {
                Some(v * 10 + (b[p + n - 1] - 48) as nat)
            } else {
                None
            },
            None => None,
        }
    }
}

/// A leap year of the proleptic Gregorian calendar.
pub open spec fn leap_year(y: nat) -> bool {
    y % 4 == 0 && (y % 100 != 0 || y % 400 == 0)
}

/// The number of days in month `m` (1 to 12) of year `y`.
pub open spec fn days_in_month(y: nat, m: nat) -> nat {
    if m == 2 {
        if leap_year(y) { 29 } else { 28 }
    } else if m == 4 || m == 6 || m == 9 || m == 11 {
        30
    } else {
        31
    }
}

/// Days since 1970-01-01 of a proleptic Gregorian date (Howard Hinnant's
/// `days_from_civil`); `None` for an impossible date: a month outside 1 to
/// 12, or a day outside the month's length. For January and February the
/// year is taken one back as a `u32`, so year 0 wraps around to
/// 4294967295.
pub open spec fn civil_days(y: nat, m: nat, d: nat) -> Option<int> {
    if !(1 <= m <= 12) || !(1 <= d <= days_in_month(y, m)) {
        None
    } else {
        let yy: int = if m <= 2 { if y == 0 { 4294967295 } else { y - 1 } } else { y as int };
        let mm: int = if m <= 2 { (m + 9) as int } else { m - 3 };
        let era = yy / 400;
        let yoe = yy - era * 400;
        let doy = (153 * mm + 2) / 5 + d - 1;
        let doe = yoe * 365 + yoe / 4 - yoe / 100 + doy;
        Some(era * 146097 + doe - 719468)
    }
}

/// End of an optional `.fff` fraction at position 19.
pub open spec fn fraction_end(b: Seq<u8>) -> int {
    if 19 < b.len() && b[19] == 46 {
        digit_run_end(b, 20)
    } else {
        19
    }
}

pub open spec fn digit_run_end(b: Seq<u8>, p: int) -> int
    decreases b.len() - p,
{
    if 0 <= p < b.len() && is_digit_byte(b[p]) {
        digit_run_end(b, p + 1)
    } else {
        p
    }
}

/// The zone suffix at `i`: nothing or `Z`/`z` is UTC; `+HH[:]MM` and
/// `-HH[:]MM` are offsets in seconds east of UTC. Anything after a
/// complete suffix is ignored.
pub open spec fn zone_offset(b: Seq<u8>, i: int) -> Option<int> {
    if i >= b.len() {
        Some(0)
    } else if b[i] == 90 || b[i] == 122 {
        Some(0)
    } else if b[i] == 43 || b[i] == 45 {
        let j = i + 1;
        let k = if j + 2 < b.len() && b[j + 2] == 58 { j + 3 } else { j + 2 };
        match (int_at(b, j, 2), int_at(b, k, 2)) {
            (Some(h), Some(m)) => Some(if b[i] == 43 { (h * 3600 + m * 60) as int } else { -(h * 3600 + m * 60) }),
            _ => None,
        }
    } else {
        None
    }
}

/// The instant an RFC 3339 text `YYYY-MM-DD(T| )HH:MM:SS[.f...][Z|±HH[:]MM]`
/// (as bytes) stands for. Hours, minutes and seconds are not range-checked.
pub open spec fn rfc3339_bytes(b: Seq<u8>) -> Option<int> {
    if b.len() < 20 {
        None
    } else {
        match (int_at(b, 0, 4), int_at(b, 5, 2), int_at(b, 8, 2), int_at(b, 11, 2), int_at(b, 14, 2), int_at(b, 17, 2)) {
            (Some(y), Some(mo), Some(d), Some(h), Some(mi), Some(s)) => {
                if b[4] == 45 && b[7] == 45 && (b[10] == 84 || b[10] == 32) && b[13] == 58 && b[16] == 58 {
                    match (zone_offset(b, fraction_end(b)), civil_days(y, mo, d)) {
                        (Some(tz), Some(days)) => Some(days * 86400 + h * 3600 + mi * 60 + s - tz),
                        _ => None,
                    }
                } else {
                    None
                }
            },
            _ => None,
        }
    }
}

/// The instant an RFC 3339 text stands for, after trimming whitespace.
pub open spec fn rfc3339(s: Seq<char>) -> Option<int> {
    rfc3339_bytes(vstd::utf8::encode_utf8(trim(s)))
}

/// Year, month and day of a day count since 1970-01-01 (Howard Hinnant's
/// `civil_from_days`).
pub open spec fn civil_from(z: int) -> (int, int, int) {
    let z2 = z + 719468;
    let era = z2 / 146097;
    let doe = z2 - era * 146097;
    let yoe = (doe - doe / 1460 + doe / 36524 - doe / 146096) / 365;
    let y = yoe + era * 400;
    let doy = doe - (365 * yoe + yoe / 4 - yoe / 100);
    let mp = (5 * doy + 2) / 153;
    let d = doy - (153 * mp + 2) / 5 + 1;
    let m = if mp < 10 { mp + 3 } else { mp - 9 };
    (if m <= 2 { y + 1 } else { y }, m, d)
}

/// `YYYY-MM-DDTHH:MM:SSZ` for instant `t`; the year is written as a `u32`.
pub open spec fn rfc3339_text(t: int) -> Seq<char> {
    let days = t / 86400;
    let rem = t % 86400;
    let (y, m, d) = civil_from(days);
    dec_padded((y as u32) as nat, 4) + seq!['-'] + dec_padded(m as nat, 2) + seq!['-']
        + dec_padded(d as nat, 2) + seq!['T'] + dec_padded((rem / 3600) as nat, 2) + seq![':']
        + dec_padded(((rem / 60) % 60) as nat, 2) + seq![':'] + dec_padded((rem % 60) as nat, 2) + seq!['Z']
}

/// Floor division by a positive divisor.
fn floor_div(x: i64, k: i64) -> (r: i64)
    requires
        k > 0,
    ensures
        r == x / k,
{
    if x >= 0 {
        ((x as u64) / (k as u64)) as i64
    } else {
        let y: u64 = (-(x + 1)) as u64;
        let q: u64 = y / (k as u64);
        proof {
            let yi = y as int;
            let qi = q as int;
            lemma_fundamental_div_mod(yi, k as int);
            let r0 = yi % (k as int);
            assert(x == (-qi - 1) * k + (k - 1 - r0)) by (nonlinear_arith)
                requires yi == -(x + 1), yi == k * qi + r0;
            lemma_fundamental_div_mod_converse(x as int, k as int, -qi - 1, k - 1 - r0);
        }
        -(q as i64) - 1
    }
}

/// Remainder of floor division by a positive divisor.
fn floor_mod(x: i64, k: i64) -> (r: i64)
    requires
        k > 0,
    ensures
        r == x % k,
        0 <= r < k,
{
    if x >= 0 {
        ((x as u64) % (k as u64)) as i64
    } else {
        let y: u64 = (-(x + 1)) as u64;
        let m: u64 = y % (k as u64);
        proof {
            let yi = y as int;
            let qi = yi / (k as int);
            lemma_fundamental_div_mod(yi, k as int);
            let r0 = yi % (k as int);
            assert(x == (-qi - 1) * k + (k - 1 - r0)) by (nonlinear_arith)
                requires yi == -(x + 1), yi == k * qi + r0;
            lemma_fundamental_div_mod_converse(x as int, k as int, -qi - 1, k - 1 - r0);
        }
        k - 1 - (m as i64)
    }
}

impl Utc {
    /// The current time from the system clock; 0 when the clock reads
    /// before the epoch, `i64::MAX` when it reads past what an `i64` holds.
    pub fn now() -> (t: Self)
        ensures
            t.0 >= 0,
    {
        match since_epoch(&system_now()) {
            Some(d) => {
                let s = whole_secs(&d);
                Utc(if s > 9223372036854775807u64 { i64::MAX } else { s as i64 })
            },
            None => Utc(0),
        }
    }

    /// Parse a subset of RFC 3339: `YYYY-MM-DDTHH:MM:SS[.fff][Z|±HH:MM]`
    /// after trimming whitespace. Anything that does not fit gives `None`.
    pub fn parse_rfc3339(s: &str) -> (r: Option<Self>)
        ensures
            match rfc3339(s@) {
                Some(v) => r == Some(Utc(v as i64)) && i64::MIN <= v <= i64::MAX,
                None => r is None,
            },
    {
        let t = trim_str(s);
        let bytes = t.as_bytes();
        let ghost b = bytes@;
        if bytes.len() < 20 {
            return None;
        }
        let year = match parse_int_range(bytes, 0, 4) { Some(v) => v, None => return None };
        if bytes[4] != 45 {
            return None;
        }
        let month = match parse_int_range(bytes, 5, 2) { Some(v) => v, None => return None };
        if bytes[7] != 45 {
            return None;
        }
        let day = match parse_int_range(bytes, 8, 2) { Some(v) => v, None => return None };
        if bytes[10] != 84 && bytes[10] != 32 {
            return None;
        }
        let hour = match parse_int_range(bytes, 11, 2) { Some(v) => v, None => return None };
        if bytes[13] != 58 {
            return None;
        }
        let minute = match parse_int_range(bytes, 14, 2) { Some(v) => v, None => return None };
        if bytes[16] != 58 {
            return None;
        }
        let second = match parse_int_range(bytes, 17, 2) { Some(v) => v, None => return None };
        let mut idx: usize = 19;
        if idx < bytes.len() && bytes[idx] == 46 {
            idx += 1;
            while idx < bytes.len() && 48 <= bytes[idx] && bytes[idx] <= 57
                invariant
                    b == bytes@,
                    20 <= idx <= bytes@.len(),
                    digit_run_end(b, idx as int) == digit_run_end(b, 20),
                decreases bytes.len() - idx,
            {
                idx += 1;
            }
        }
        assert(idx == fraction_end(b));
        let mut tz: i64 = 0;
        if idx < bytes.len() {
            let c = bytes[idx];
            if c == 90 || c == 122 {
            } else if c == 43 || c == 45 {
                let j = idx + 1;
                let oh = match parse_int_range(bytes, j, 2) { Some(v) => v, None => return None };
                let mut k = j + 2;
                if k < bytes.len() && bytes[k] == 58 {
                    k += 1;
                }
                let om = match parse_int_range(bytes, k, 2) { Some(v) => v, None => return None };
                let off = oh as i64 * 3600 + om as i64 * 60;
                tz = if c == 43 { off } else { -off };
            } else {
                return None;
            }
        }
        let days = match days_from_civil(year, month, day) { Some(d) => d, None => return None };
        let secs = days * 86400 + hour as i64 * 3600 + minute as i64 * 60 + second as i64 - tz;
        Some(Utc(secs))
    }

    /// `YYYY-MM-DDTHH:MM:SSZ`.
    pub fn to_rfc3339(self) -> (r: String)
        ensures
            r@ == rfc3339_text(self.0 as int),
    {
        let secs = self.0;
        let days = floor_div(secs, 86400);
        let rem = floor_mod(secs, 86400);
        let (year, month, day) = civil_from_days(days);
        let rem = rem as u32;
        let hour = rem / 3600;
        let minute = (rem / 60) % 60;
        let second = rem % 60;
        let mut out = String::new();
        push_padded(&mut out, year as u64, 4);
        push_char(&mut out, '-');
        push_padded(&mut out, month as u64, 2);
        push_char(&mut out, '-');
        push_padded(&mut out, day as u64, 2);
        push_char(&mut out, 'T');
        push_padded(&mut out, hour as u64, 2);
        push_char(&mut out, ':');
        push_padded(&mut out, minute as u64, 2);
        push_char(&mut out, ':');
        push_padded(&mut out, second as u64, 2);
        push_char(&mut out, 'Z');
        assert(out@ =~= rfc3339_text(self.0 as int));
        out
    }

    /// The time from `earlier` to `self`.
    pub fn since(self, earlier: Utc) -> (d: Duration)
        requires
            i64::MIN <= self.0 - earlier.0 <= i64::MAX,
        ensures
            d.0 == self.0 - earlier.0,
    {
        Duration(self.0 - earlier.0)
    }
}

impl Duration {
    /// Whole days, rounded toward zero.
    pub fn num_days(&self) -> (n: i64)
        ensures
            n == (if self.0 >= 0 { self.0 / 86400 } else { -((-self.0) / 86400) }),
    {
        if self.0 >= 0 {
            ((self.0 as u64) / 86400) as i64
        } else {
            let m: u64 = if self.0 == i64::MIN { 9223372036854775808u64 } else { (-self.0) as u64 };
            -((m / 86400) as i64)
        }
    }
}

/// `n` decimal digits at `p`, as a number.
fn parse_int_range(b: &[u8], p: usize, n: usize) -> (r: Option<u32>)
    requires
        1 <= n <= 4,
    ensures
        match int_at(b@, p as int, n as nat) {
            Some(v) => r == Some(v as u32) && v < 10000,
            None => r is None,
        },
{
    if p > b.len() || b.len() - p < n {
        proof {
            lemma_int_at_short(b@, p as int, n as nat);
        }
        return None;
    }
    let bl = b.len();
    proof {
        reveal_with_fuel(pow10, 5);
    }
    let mut v: u32 = 0;
    let mut i: usize = 0;
    while i < n
        invariant
            1 <= n <= 4,
            bl == b@.len(),
            p + n <= bl,
            pow10(4) == 10000,
            i <= n,
            int_at(b@, p as int, i as nat) == Some(v as nat),
            v < pow10(i as nat),
        decreases n - i,
    {
        let c = b[p + i];
        if !(48 <= c && c <= 57) {
            proof {
                lemma_int_at_none_after(b@, p as int, (i + 1) as nat, n as nat);
            }
            return None;
        }
        proof {
            assert(pow10((i + 1) as nat) == pow10(i as nat) * 10);
            assert(v * 10 + (c - 48) < pow10((i + 1) as nat)) by (nonlinear_arith)
                requires v < pow10(i as nat), c - 48 <= 9, pow10((i + 1) as nat) == pow10(i as nat) * 10;
            lemma_pow10_mono((i + 1) as nat, 4);
        }
        v = v * 10 + (c - 48) as u32;
        i += 1;
    }
    proof {
        lemma_pow10_mono(n as nat, 4);
    }
    Some(v)
}

pub open spec fn pow10(n: nat) -> nat
    decreases n,
{
    if n == 0 { 1 } else { pow10((n - 1) as nat) * 10 }
}

proof fn lemma_pow10_mono(a: nat, b: nat)
    requires
        a <= b,
    ensures
        pow10(a) <= pow10(b),
    decreases b - a,
{
    if a < b {
        lemma_pow10_mono(a, (b - 1) as nat);
    }
}

proof fn lemma_int_at_short(b: Seq<u8>, p: int, n: nat)
    requires
        n >= 1,
        p > b.len() || b.len() - p < n,
    ensures
        int_at(b, p, n) is None,
    decreases n,
{
    if n > 1 {
        if p > b.len() || b.len() - p < n - 1 {
            lemma_int_at_short(b, p, (n - 1) as nat);
        }
    }
}

proof fn lemma_int_at_none_after(b: Seq<u8>, p: int, i: nat, n: nat)
    requires
        1 <= i <= n,
        int_at(b, p, i) is None,
    ensures
        int_at(b, p, n) is None,
    decreases n - i,
{
    if i < n {
        lemma_int_at_none_after(b, p, i + 1, n);
    }
}

/// Howard Hinnant's `days_from_civil`; `None` for an impossible date.
fn days_from_civil(y: u32, m: u32, d: u32) -> (r: Option<i64>)
    requires
        y < 10000,
    ensures
        match civil_days(y as nat, m as nat, d as nat) {
            Some(v) => r == Some(v as i64) && -800000 <= v <= 1600000000000,
            None => r is None,
        },
{
    if !(1 <= m && m <= 12) || !(1 <= d && d <= 31) {
        return None;
    }
    let leap = y % 4 == 0 && (y % 100 != 0 || y % 400 == 0);
    let month_len: u32 = if m == 2 {
        if leap { 29 } else { 28 }
    } else if m == 4 || m == 6 || m == 9 || m == 11 {
        30
    } else {
        31
    };
    if d > month_len {
        return None;
    }
    let yy: i64 = if m <= 2 { y.wrapping_sub(1) as i64 } else { y as i64 };
    let mm: i64 = if m <= 2 { m as i64 + 9 } else { m as i64 - 3 };
    let era = yy / 400;
    let yoe = yy - era * 400;
    let doy = (153 * mm + 2) / 5 + d as i64 - 1;
    let doe = yoe * 365 + yoe / 4 - yoe / 100 + doy;
    Some(era * 146097 + doe - 719468)
}

/// Howard Hinnant's `civil_from_days`: year (as a `u32`), month, day.
fn civil_from_days(z: i64) -> (r: (u32, u32, u32))
    requires
        -200000000000000 <= z <= 200000000000000,
    ensures
        ({
            let (y, m, d) = civil_from(z as int);
            r == ((y as u32), m as u32, d as u32) && 1 <= m <= 12 && 1 <= d <= 31
        }),
{
    let z2 = z + 719468;
    let era = floor_div(z2, 146097);
    let doe = z2 - era * 146097;
    proof {
        lemma_fundamental_div_mod(z2 as int, 146097);
    }
    let yoe = (doe - doe / 1460 + doe / 36524 - doe / 146096) / 365;
    let y = yoe + era * 400;
    let doy = doe - (365 * yoe + yoe / 4 - yoe / 100);
    proof {
        lemma_year_of_era(doe as int);
    }
    let mp = (5 * doy + 2) / 153;
    let dd = doy - (153 * mp + 2) / 5 + 1;
    let m = if mp < 10 { mp + 3 } else { mp - 9 };
    let yy = if m <= 2 { y + 1 } else { y };
    proof {
        lemma_month_day(doy as int);
    }
    (yy as u32, m as u32, dd as u32)
}

/// Within one 400-year era, the year index is in range and the day of
/// the year is in range.
proof fn lemma_year_of_era(doe: int)
    requires
        0 <= doe < 146097,
    ensures
        ({
            let yoe = (doe - doe / 1460 + doe / 36524 - doe / 146096) / 365;
            let doy = doe - (365 * yoe + yoe / 4 - yoe / 100);
            0 <= yoe <= 399 && 0 <= doy <= 365
        }),
{
}

proof fn lemma_month_day(doy: int)
    requires
        0 <= doy <= 365,
    ensures
        ({
            let mp = (5 * doy + 2) / 153;
            let d = doy - (153 * mp + 2) / 5 + 1;
            0 <= mp <= 11 && 1 <= d <= 31
        }),
{
}


proof fn lemma_digits_value_concat(a: Seq<char>, b: Seq<char>)
    ensures
        digits_value(a + b) == digits_value(a) * pow10(b.len()) + digits_value(b),
    decreases b.len(),
{
    if b.len() == 0 {
        assert(a + b =~= a);
        assert(pow10(0) == 1);
        assert(digits_value(b) == 0);
    } else {
        assert(pow10(b.len()) == pow10(b.drop_last().len()) * 10);
        lemma_digits_value_concat(a, b.drop_last());
        assert((a + b).drop_last() =~= a + b.drop_last());
        assert((a + b).last() == b.last());
        let x = digits_value(a);
        let y = digits_value(b.drop_last());
        let p = pow10(b.drop_last().len());
        assert((x * p + y) * 10 + crate::text::digit_value(b.last()) == x * (p * 10) + (y * 10 + crate::text::digit_value(b.last()))) by (nonlinear_arith);
    }
}

proof fn lemma_zeros_value(k: nat)
    ensures
        digits_value(Seq::new(k, |i: int| '0')) == 0,
    decreases k,
{
    if k > 0 {
        lemma_zeros_value((k - 1) as nat);
        assert(Seq::new(k, |i: int| '0').drop_last() =~= Seq::new((k - 1) as nat, |i: int| '0'));
    }
}

proof fn lemma_dec_len(n: nat, k: nat)
    requires
        k >= 1,
        n < pow10(k),
    ensures
        dec(n).len() <= k,
    decreases k,
{
    if n >= 10 {
        assert(pow10(k) == pow10((k - 1) as nat) * 10);
        assert(n / 10 < pow10((k - 1) as nat));
        if k == 1 {
            assert(pow10(1) == 10) by {
                reveal_with_fuel(pow10, 2);
            }
        } else {
            lemma_dec_len(n / 10, (k - 1) as nat);
        }
    }
}

/// Zero-padded decimal text of `n < 10^w` is exactly `w` digits and reads
/// back as `n`.
proof fn lemma_padded(n: nat, w: nat)
    requires
        w >= 1,
        n < pow10(w),
    ensures
        dec_padded(n, w).len() == w,
        forall|i: int| 0 <= i < w ==> is_digit(#[trigger] dec_padded(n, w)[i]),
        digits_value(dec_padded(n, w)) == n,
{
    lemma_dec_digits(n);
    lemma_dec_len(n, w);
    let d = dec(n);
    if d.len() < w {
        let z = Seq::new((w - d.len()) as nat, |i: int| '0');
        lemma_zeros_value((w - d.len()) as nat);
        assert(digits_value(z) == 0);
        lemma_digits_value_concat(z, d);
        assert(digits_value(z + d) == 0 * pow10(d.len()) + digits_value(d));
        assert(digits_value(z + d) == n);
        assert(dec_padded(n, w) == z + d);
        assert forall|i: int| 0 <= i < w implies is_digit(#[trigger] dec_padded(n, w)[i]) by {
            if i >= z.len() {
                assert(dec_padded(n, w)[i] == d[i - z.len()]);
            }
        }
    }
}

/// `n` digit characters at `p` read as bytes.
proof fn lemma_int_at_chars(t: Seq<char>, b: Seq<u8>, p: int, n: nat)
    requires
        b.len() == t.len(),
        forall|i: int| 0 <= i < t.len() ==> #[trigger] b[i] == t[i] as u8,
        0 <= p,
        p + n <= t.len(),
        forall|i: int| p <= i < p + n ==> is_digit(#[trigger] t[i]),
    ensures
        int_at(b, p, n) == Some(digits_value(t.subrange(p, p + n))),
    decreases n,
{
    if n > 0 {
        lemma_int_at_chars(t, b, p, (n - 1) as nat);
        assert(t.subrange(p, p + n).drop_last() =~= t.subrange(p, p + n - 1));
        assert(t.subrange(p, p + n).last() == t[p + n - 1]);
        assert(is_digit(t[p + n - 1]));
        assert(b[p + n - 1] == t[p + n - 1] as u8);
    } else {
        assert(t.subrange(p, p) =~= Seq::<char>::empty());
    }
}

/// `t`'s date lies in years 0000 (from March) to 9999, where the
/// four-digit year field and the parser's calendar both hold it.
pub open spec fn four_digit_year(t: int) -> bool {
    let (y, m, d) = civil_from(t / 86400);
    0 <= y <= 9999 && !(y == 0 && m <= 2)
}

proof fn lemma_civil_inverse(z: int)
    requires
        ({
            let (y, m, d) = civil_from(z);
            0 <= y <= 9999 && !(y == 0 && m <= 2)
        }),
    ensures
        ({
            let (y, m, d) = civil_from(z);
            1 <= m <= 12 && 1 <= d <= 31 && civil_days(y as nat, m as nat, d as nat) == Some(z)
        }),
{
    let z2 = z + 719468;
    let era = z2 / 146097;
    let doe = z2 - era * 146097;
    lemma_fundamental_div_mod(z2, 146097);
    lemma_year_of_era(doe);
    let yoe = (doe - doe / 1460 + doe / 36524 - doe / 146096) / 365;
    let doy = doe - (365 * yoe + yoe / 4 - yoe / 100);
    lemma_month_day(doy);
    let (y, m, d) = civil_from(z);
    let yy: int = if m <= 2 { y - 1 } else { y };
    assert(yy == yoe + era * 400);
    lemma_fundamental_div_mod_converse(yy, 400, era, yoe);
}

/// The layout of the formatted text: digit fields at fixed offsets,
/// separators in between.
#[verifier::rlimit(40)]
proof fn lemma_text_layout(t: int, py: Seq<char>, pm: Seq<char>, pd: Seq<char>, ph: Seq<char>, pmi: Seq<char>, ps: Seq<char>)
    requires
        py.len() == 4 && pm.len() == 2 && pd.len() == 2 && ph.len() == 2 && pmi.len() == 2 && ps.len() == 2,
        forall|i: int| 0 <= i < 4 ==> is_digit(#[trigger] py[i]),
        forall|i: int| 0 <= i < 2 ==> is_digit(#[trigger] pm[i]),
        forall|i: int| 0 <= i < 2 ==> is_digit(#[trigger] pd[i]),
        forall|i: int| 0 <= i < 2 ==> is_digit(#[trigger] ph[i]),
        forall|i: int| 0 <= i < 2 ==> is_digit(#[trigger] pmi[i]),
        forall|i: int| 0 <= i < 2 ==> is_digit(#[trigger] ps[i]),
    ensures
        ({
            let text = py + seq!['-'] + pm + seq!['-'] + pd + seq!['T'] + ph + seq![':'] + pmi + seq![':'] + ps + seq!['Z'];
            &&& text.len() == 20
            &&& text.subrange(0, 4) == py
            &&& text.subrange(5, 7) == pm
            &&& text.subrange(8, 10) == pd
            &&& text.subrange(11, 13) == ph
            &&& text.subrange(14, 16) == pmi
            &&& text.subrange(17, 19) == ps
            &&& text[4] == '-' && text[7] == '-' && text[10] == 'T' && text[13] == ':' && text[16] == ':' && text[19] == 'Z'
            &&& forall|i: int| 0 <= i < 20 && i != 4 && i != 7 && i != 10 && i != 13 && i != 16 && i != 19
                ==> is_digit(#[trigger] text[i])
        }),
{
    let text = py + seq!['-'] + pm + seq!['-'] + pd + seq!['T'] + ph + seq![':'] + pmi + seq![':'] + ps + seq!['Z'];
    assert(text.subrange(0, 4) =~= py);
    assert(text.subrange(5, 7) =~= pm);
    assert(text.subrange(8, 10) =~= pd);
    assert(text.subrange(11, 13) =~= ph);
    assert(text.subrange(14, 16) =~= pmi);
    assert(text.subrange(17, 19) =~= ps);
    assert forall|i: int| 0 <= i < 20 && i != 4 && i != 7 && i != 10 && i != 13 && i != 16 && i != 19
        implies is_digit(#[trigger] text[i]) by {
        if i < 4 {
            assert(text[i] == py[i]);
        } else if i < 7 {
            assert(text[i] == pm[i - 5]);
        } else if i < 10 {
            assert(text[i] == pd[i - 8]);
        } else if i < 13 {
            assert(text[i] == ph[i - 11]);
        } else if i < 16 {
            assert(text[i] == pmi[i - 14]);
        } else {
            assert(text[i] == ps[i - 17]);
        }
    }
}

/// The bytes of a 20-character ASCII text laid out as the formatter does
/// read back as its fields.
proof fn lemma_text_bytes(text: Seq<char>)
    requires
        text.len() == 20,
        text[4] == '-' && text[7] == '-' && text[10] == 'T' && text[13] == ':' && text[16] == ':' && text[19] == 'Z',
        forall|i: int| 0 <= i < 20 && i != 4 && i != 7 && i != 10 && i != 13 && i != 16 && i != 19
            ==> is_digit(#[trigger] text[i]),
    ensures
        ({
            let b = vstd::utf8::encode_utf8(trim(text));
            &&& b.len() == 20
            &&& int_at(b, 0, 4) == Some(digits_value(text.subrange(0, 4)))
            &&& int_at(b, 5, 2) == Some(digits_value(text.subrange(5, 7)))
            &&& int_at(b, 8, 2) == Some(digits_value(text.subrange(8, 10)))
            &&& int_at(b, 11, 2) == Some(digits_value(text.subrange(11, 13)))
            &&& int_at(b, 14, 2) == Some(digits_value(text.subrange(14, 16)))
            &&& int_at(b, 17, 2) == Some(digits_value(text.subrange(17, 19)))
            &&& b[4] == 45 && b[7] == 45 && b[10] == 84 && b[13] == 58 && b[16] == 58
            &&& fraction_end(b) == 19
            &&& zone_offset(b, 19) == Some(0int)
        }),
{
    assert(vstd::utf8::is_ascii_chars(text)) by {
        assert forall|i: int| 0 <= i < text.len() implies '\0' <= #[trigger] text[i] <= '\u{7f}' by {
            if i != 4 && i != 7 && i != 10 && i != 13 && i != 16 && i != 19 {
                assert(is_digit(text[i]));
            }
        }
    }
    assert(is_digit(text[0]));
    assert(trim_start(text) == text);
    assert(trim_end(text) == text);
    vstd::utf8::is_ascii_chars_encode_utf8(text);
    let b = vstd::utf8::encode_utf8(text);
    assert forall|i: int| 0 <= i < text.len() implies #[trigger] b[i] == text[i] as u8 by {}
    assert forall|i: int| 0 <= i < 4 implies is_digit(#[trigger] text[i]) by {}
    lemma_int_at_chars(text, b, 0, 4);
    assert forall|i: int| 5 <= i < 7 implies is_digit(#[trigger] text[i]) by {}
    lemma_int_at_chars(text, b, 5, 2);
    assert forall|i: int| 8 <= i < 10 implies is_digit(#[trigger] text[i]) by {}
    lemma_int_at_chars(text, b, 8, 2);
    assert forall|i: int| 11 <= i < 13 implies is_digit(#[trigger] text[i]) by {}
    lemma_int_at_chars(text, b, 11, 2);
    assert forall|i: int| 14 <= i < 16 implies is_digit(#[trigger] text[i]) by {}
    lemma_int_at_chars(text, b, 14, 2);
    assert forall|i: int| 17 <= i < 19 implies is_digit(#[trigger] text[i]) by {}
    lemma_int_at_chars(text, b, 17, 2);
    assert(b[19] == 90);
}

/// Formatting an instant as RFC 3339 and parsing the text back gives the
/// same instant, for dates the four-digit year field can hold.
#[verifier::spinoff_prover]
#[verifier::rlimit(40)]
pub proof fn lemma_rfc3339_roundtrip(t: int)
    requires
        i64::MIN <= t <= i64::MAX,
        four_digit_year(t),
    ensures
        rfc3339(rfc3339_text(t)) == Some(t),
{
    let days = t / 86400;
    let rem = t % 86400;
    lemma_fundamental_div_mod(t, 86400);
    let (y, m, d) = civil_from(days);
    lemma_civil_inverse(days);
    let h = rem / 3600;
    let mi = (rem / 60) % 60;
    let sec = rem % 60;
    reveal_with_fuel(pow10, 5);
    assert((y as u32) as nat == y);
    lemma_padded(y as nat, 4);
    lemma_padded(m as nat, 2);
    lemma_padded(d as nat, 2);
    lemma_padded(h as nat, 2);
    lemma_padded(mi as nat, 2);
    lemma_padded(sec as nat, 2);
    let py = dec_padded(y as nat, 4);
    let pm = dec_padded(m as nat, 2);
    let pd = dec_padded(d as nat, 2);
    let ph = dec_padded(h as nat, 2);
    let pmi = dec_padded(mi as nat, 2);
    let ps = dec_padded(sec as nat, 2);
    let text = rfc3339_text(t);
    assert(text == py + seq!['-'] + pm + seq!['-'] + pd + seq!['T'] + ph + seq![':'] + pmi + seq![':'] + ps + seq!['Z']);
    lemma_text_layout(t, py, pm, pd, ph, pmi, ps);
    lemma_text_bytes(text);
    assert(rem == h * 3600 + mi * 60 + sec);
}

proof fn lemma_four_digit_years(t: int)
    requires
        0 <= t < 253402300800,
    ensures
        four_digit_year(t),
{
    let z = t / 86400;
    assert(0 <= z <= 2932896);
    let z2 = z + 719468;
    let era = z2 / 146097;
    let doe = z2 - era * 146097;
    lemma_fundamental_div_mod(z2, 146097);
    assert(4 <= era <= 24);
    lemma_year_of_era(doe);
    let yoe = (doe - doe / 1460 + doe / 36524 - doe / 146096) / 365;
    let doy = doe - (365 * yoe + yoe / 4 - yoe / 100);
    lemma_month_day(doy);
    let mp = (5 * doy + 2) / 153;
    if era == 24 && yoe == 399 {
        assert(doe <= 146036);
        assert(doy <= 305);
        assert(mp < 10);
    }
}

/// Formatting an instant from 1970-01-01T00:00:00Z to
/// 9999-12-31T23:59:59Z as RFC 3339 and parsing the text back gives the
/// same instant.
pub proof fn law_rfc3339_roundtrip(t: int)
    requires
        0 <= t < 253402300800,
    ensures
        rfc3339(rfc3339_text(t)) == Some(t),
{
    lemma_four_digit_years(t);
    lemma_rfc3339_roundtrip(t);
}

} // verus!
