//! Local wall-clock time and the fixed-width timestamps that name backups
//! (`YYYYMMDD_HHMMSS`).

use vstd::prelude::*;
use chrono::{Datelike, Timelike};
use crate::backups::no_dots;
use crate::text::{decimal, decimal_chars, digit, lemma_lt_after_common_prefix, lemma_lt_prefix_decides, string_of_chars, text_lt};

verus! {

/// A local date and time of day, as plain numbers.
#[derive(Clone, Copy, Debug, PartialEq, Eq, Structural)]
pub struct LocalTime {
    pub year: i32,
    pub month: u32,
    pub day: u32,
    pub hour: u32,
    pub minute: u32,
    pub second: u32,
}

impl LocalTime {
    pub open spec fn wf(&self) -> bool {
        1 <= self.month <= 12 && 1 <= self.day <= 31 && self.hour < 24 && self.minute < 60 && self.second < 60
    }
}

/// Relies on chrono's `Local::now` and its `Datelike` / `Timelike` accessors:
/// month 1 to 12, day 1 to 31, hour 0 to 23, minute and second 0 to 59.
#[verifier::external_body]
pub(crate) fn local_now() -> (r: LocalTime)
    ensures
        r.wf(),
{
    let now = chrono::Local::now();
    LocalTime {
        year: now.year(),
        month: now.month(),
        day: now.day(),
        hour: now.hour(),
        minute: now.minute(),
        second: now.second(),
    }
}

/// `n` in decimal, zero-padded on the left to at least `width` digits.
pub open spec fn padded(n: nat, width: nat) -> Seq<char> {
    if decimal(n).len() >= width {
        decimal(n)
    } else {
        Seq::new((width - decimal(n).len()) as nat, |i: int| '0') + decimal(n)
    }
}

/// The year as `%Y` writes it: four digits for 0 to 9999, otherwise a sign
/// followed by at least four digits.
pub open spec fn year_text(y: int) -> Seq<char> {
    if 0 <= y <= 9999 {
        padded(y as nat, 4)
    } else if y > 9999 {
        seq!['+'] + padded(y as nat, 4)
    } else {
        seq!['-'] + padded((-y) as nat, 4)
    }
}

/// The date part of a timestamp: `YYYYMMDD`.
pub open spec fn date_text(t: LocalTime) -> Seq<char> {
    year_text(t.year as int) + padded(t.month as nat, 2) + padded(t.day as nat, 2)
}

/// A backup timestamp: `YYYYMMDD_HHMMSS`.
pub open spec fn timestamp_of(t: LocalTime) -> Seq<char> {
    date_text(t) + seq!['_'] + padded(t.hour as nat, 2) + padded(t.minute as nat, 2) + padded(t.second as nat, 2)
}

proof fn lemma_decimal_no_dots(n: nat)
    ensures
        no_dots(decimal(n)),
    decreases n,
{
    if n >= 10 {
        lemma_decimal_no_dots(n / 10);
        assert(digit(n % 10) != '.');
    } else {
        assert(digit(n) != '.');
    }
}

proof fn lemma_padded_no_dots(n: nat, width: nat)
    ensures
        no_dots(padded(n, width)),
{
    lemma_decimal_no_dots(n);
}

/// A timestamp holds no '.', so it never adds a segment to a backup name.
pub proof fn lemma_timestamp_no_dots(t: LocalTime)
    ensures
        no_dots(timestamp_of(t)),
{
    lemma_padded_no_dots(t.year as nat, 4);
    lemma_padded_no_dots((-t.year) as nat, 4);
    lemma_padded_no_dots(t.month as nat, 2);
    lemma_padded_no_dots(t.day as nat, 2);
    lemma_padded_no_dots(t.hour as nat, 2);
    lemma_padded_no_dots(t.minute as nat, 2);
    lemma_padded_no_dots(t.second as nat, 2);
}

/// `a` is strictly earlier than `b`, comparing year, month, day, hour,
/// minute and second in turn.
pub open spec fn time_before(a: LocalTime, b: LocalTime) -> bool {
    if a.year != b.year {
        a.year < b.year
    } else if a.month != b.month {
        a.month < b.month
    } else if a.day != b.day {
        a.day < b.day
    } else if a.hour != b.hour {
        a.hour < b.hour
    } else if a.minute != b.minute {
        a.minute < b.minute
    } else {
        a.second < b.second
    }
}

proof fn lemma_digit_code(d: nat)
    requires
        d < 10,
    ensures
        digit(d) as u32 == 48 + d,
{
}

proof fn lemma_two_digits(n: nat)
    requires
        n < 100,
    ensures
        padded(n, 2) == seq![digit(n / 10), digit(n % 10)],
{
    if n < 10 {
        assert(decimal(n) == seq![digit(n)]);
        assert(padded(n, 2) =~= seq![digit(n / 10), digit(n % 10)]);
    } else {
        assert(decimal(n / 10) == seq![digit(n / 10)]);
        assert(padded(n, 2) =~= seq![digit(n / 10), digit(n % 10)]);
    }
}

proof fn lemma_four_digits(n: nat)
    requires
        n < 10000,
    ensures
        padded(n, 4) == seq![digit(n / 1000), digit((n / 100) % 10), digit((n / 10) % 10), digit(n % 10)],
{
    let r = seq![digit(n / 1000), digit((n / 100) % 10), digit((n / 10) % 10), digit(n % 10)];
    if n < 10 {
        assert(decimal(n) == seq![digit(n)]);
        assert(padded(n, 4) =~= r);
    } else if n < 100 {
        assert(decimal(n / 10) == seq![digit(n / 10)]);
        assert(decimal(n) =~= seq![digit(n / 10), digit(n % 10)]);
        assert(padded(n, 4) =~= r);
    } else if n < 1000 {
        assert(n / 10 / 10 == n / 100);
        assert(decimal(n / 100) == seq![digit(n / 100)]);
        assert(decimal(n / 10) =~= seq![digit(n / 100), digit((n / 10) % 10)]);
        assert(decimal(n) =~= seq![digit(n / 100), digit((n / 10) % 10), digit(n % 10)]);
        assert(padded(n, 4) =~= r);
    } else {
        assert(n / 10 / 10 == n / 100);
        assert(n / 100 / 10 == n / 1000);
        assert(decimal(n / 1000) == seq![digit(n / 1000)]);
        assert(decimal(n / 100) =~= seq![digit(n / 1000), digit((n / 100) % 10)]);
        assert(decimal(n / 10) =~= seq![digit(n / 1000), digit((n / 100) % 10), digit((n / 10) % 10)]);
        assert(decimal(n) =~= r);
        assert(padded(n, 4) =~= r);
    }
}

proof fn lemma_digit_lt(a: nat, b: nat)
    requires
        a < b < 10,
    ensures
        text_lt(seq![digit(a)], seq![digit(b)]),
{
    lemma_digit_code(a);
    lemma_digit_code(b);
}

/// Two fixed-width fields compare as their numbers do.
proof fn lemma_two_digits_order(a: nat, b: nat)
    requires
        a < b < 100,
    ensures
        text_lt(padded(a, 2), padded(b, 2)),
        padded(a, 2).len() == 2,
{
    lemma_two_digits(a);
    lemma_two_digits(b);
    let pa = padded(a, 2);
    let pb = padded(b, 2);
    if a / 10 < b / 10 {
        lemma_digit_lt(a / 10, b / 10);
        lemma_lt_prefix_decides(seq![digit(a / 10)], seq![digit(b / 10)], seq![digit(a % 10)], seq![digit(b % 10)]);
        assert(pa =~= seq![digit(a / 10)] + seq![digit(a % 10)]);
        assert(pb =~= seq![digit(b / 10)] + seq![digit(b % 10)]);
    } else {
        lemma_digit_lt(a % 10, b % 10);
        lemma_lt_after_common_prefix(seq![digit(a / 10)], seq![digit(a % 10)], seq![digit(b % 10)]);
        assert(pa =~= seq![digit(a / 10)] + seq![digit(a % 10)]);
        assert(pb =~= seq![digit(a / 10)] + seq![digit(b % 10)]);
    }
}

proof fn lemma_div_facts(n: nat)
    ensures
        n / 100 / 10 == n / 1000,
        (n / 100) % 10 == (n / 100) % 10,
        (n % 100) / 10 == (n / 10) % 10,
        (n % 100) % 10 == n % 10,
        n == (n / 100) * 100 + n % 100,
{
    assert(n / 100 / 10 == n / 1000) by (nonlinear_arith);
    assert((n % 100) / 10 == (n / 10) % 10) by (nonlinear_arith);
    assert((n % 100) % 10 == n % 10) by (nonlinear_arith);
    assert(n == (n / 100) * 100 + n % 100) by (nonlinear_arith);
}

proof fn lemma_four_is_two_twos(n: nat)
    requires
        n < 10000,
    ensures
        padded(n, 4) == padded(n / 100, 2) + padded(n % 100, 2),
        n / 100 < 100,
        n % 100 < 100,
{
    lemma_four_digits(n);
    lemma_div_facts(n);
    assert(n / 100 < 100) by (nonlinear_arith)
        requires n < 10000;
    lemma_two_digits(n / 100);
    lemma_two_digits(n % 100);
    assert(padded(n, 4) =~= padded(n / 100, 2) + padded(n % 100, 2));
}

proof fn lemma_four_digits_order(a: nat, b: nat)
    requires
        a < b < 10000,
    ensures
        text_lt(padded(a, 4), padded(b, 4)),
        padded(a, 4).len() == 4,
{
    lemma_four_is_two_twos(a);
    lemma_four_is_two_twos(b);
    lemma_div_facts(a);
    lemma_div_facts(b);
    lemma_two_digits(a / 100);
    lemma_two_digits(a % 100);
    lemma_two_digits(b / 100);
    lemma_two_digits(b % 100);
    if a / 100 < b / 100 {
        lemma_two_digits_order(a / 100, b / 100);
        lemma_lt_prefix_decides(padded(a / 100, 2), padded(b / 100, 2), padded(a % 100, 2), padded(b % 100, 2));
    } else {
        assert(a / 100 == b / 100) by (nonlinear_arith)
            requires a < b, a / 100 >= b / 100;
        assert(a % 100 < b % 100);
        lemma_two_digits_order(a % 100, b % 100);
        lemma_lt_after_common_prefix(padded(a / 100, 2), padded(a % 100, 2), padded(b % 100, 2));
    }
}

proof fn lemma_field_step(x1: Seq<char>, x2: Seq<char>, q1: Seq<char>, q2: Seq<char>, a: nat, b: nat, w: nat)
    requires
        x1 == padded(a, w),
        x2 == padded(b, w),
        w == 2 || w == 4,
        a < 100 || w == 4,
        b < 100 || w == 4,
        a < 10000,
        b < 10000,
        a < b || (a == b && text_lt(q1, q2)),
    ensures
        text_lt(x1 + q1, x2 + q2),
{
    if a < b {
        if w == 2 {
            lemma_two_digits_order(a, b);
            lemma_two_digits(b);
        } else {
            lemma_four_digits_order(a, b);
            lemma_four_digits(b);
        }
        lemma_lt_prefix_decides(x1, x2, q1, q2);
    } else {
        lemma_lt_after_common_prefix(x1, q1, q2);
    }
}

proof fn lemma_timestamp_shape(t: LocalTime)
    requires
        0 <= t.year <= 9999,
    ensures
        timestamp_of(t) == padded(t.year as nat, 4) + (padded(t.month as nat, 2) + (padded(t.day as nat, 2) + (seq!['_'] + (padded(t.hour as nat, 2) + (padded(t.minute as nat, 2) + padded(t.second as nat, 2)))))),
{
    lemma_regroup(
        padded(t.year as nat, 4),
        padded(t.month as nat, 2),
        padded(t.day as nat, 2),
        seq!['_'],
        padded(t.hour as nat, 2),
        padded(t.minute as nat, 2),
        padded(t.second as nat, 2),
    );
}

proof fn lemma_regroup(a: Seq<char>, b: Seq<char>, c: Seq<char>, d: Seq<char>, e: Seq<char>, f: Seq<char>, g: Seq<char>)
    ensures
        a + b + c + d + e + f + g == a + (b + (c + (d + (e + (f + g))))),
{
    assert(a + b + c + d + e + f + g =~= a + (b + (c + (d + (e + (f + g))))));
}

/// A timestamp of a four-digit year has fifteen characters.
pub proof fn lemma_timestamp_len(t: LocalTime)
    requires
        t.wf(),
        0 <= t.year <= 9999,
    ensures
        timestamp_of(t).len() == 15,
{
    lemma_timestamp_shape(t);
    lemma_four_digits(t.year as nat);
    lemma_two_digits(t.month as nat);
    lemma_two_digits(t.day as nat);
    lemma_two_digits(t.hour as nat);
    lemma_two_digits(t.minute as nat);
    lemma_two_digits(t.second as nat);
}

/// For years of four digits, a later time gives a timestamp that sorts
/// after: text order of timestamps is time order.
#[verifier::rlimit(60)]
pub proof fn lemma_timestamp_order(t1: LocalTime, t2: LocalTime)
    requires
        t1.wf(),
        t2.wf(),
        0 <= t1.year <= 9999,
        0 <= t2.year <= 9999,
        time_before(t1, t2),
    ensures
        text_lt(timestamp_of(t1), timestamp_of(t2)),
{
    let y1 = padded(t1.year as nat, 4);
    let y2 = padded(t2.year as nat, 4);
    let mo1 = padded(t1.month as nat, 2);
    let mo2 = padded(t2.month as nat, 2);
    let d1 = padded(t1.day as nat, 2);
    let d2 = padded(t2.day as nat, 2);
    let h1 = padded(t1.hour as nat, 2);
    let h2 = padded(t2.hour as nat, 2);
    let mi1 = padded(t1.minute as nat, 2);
    let mi2 = padded(t2.minute as nat, 2);
    let s1 = padded(t1.second as nat, 2);
    let s2 = padded(t2.second as nat, 2);
    let u = seq!['_'];
    lemma_timestamp_shape(t1);
    lemma_timestamp_shape(t2);
    let r1 = mi1 + s1;
    let r2 = mi2 + s2;
    let q1 = h1 + r1;
    let q2 = h2 + r2;
    let v1 = d1 + (u + q1);
    let v2 = d2 + (u + q2);
    let w1 = mo1 + v1;
    let w2 = mo2 + v2;
    let same_upto_minute = t1.year == t2.year && t1.month == t2.month && t1.day == t2.day && t1.hour == t2.hour && t1.minute == t2.minute;
    let same_upto_hour = t1.year == t2.year && t1.month == t2.month && t1.day == t2.day && t1.hour == t2.hour;
    let same_upto_day = t1.year == t2.year && t1.month == t2.month && t1.day == t2.day;
    let same_upto_month = t1.year == t2.year && t1.month == t2.month;
    if same_upto_minute {
        assert(t1.second < t2.second);
        lemma_two_digits_order(t1.second as nat, t2.second as nat);
    }
    if t1.minute < t2.minute || same_upto_minute {
        lemma_field_step(mi1, mi2, s1, s2, t1.minute as nat, t2.minute as nat, 2);
    }
    if t1.hour < t2.hour || same_upto_hour {
        lemma_field_step(h1, h2, r1, r2, t1.hour as nat, t2.hour as nat, 2);
    }
    if t1.day < t2.day || same_upto_day {
        if same_upto_day {
            lemma_lt_after_common_prefix(u, q1, q2);
        }
        lemma_field_step(d1, d2, u + q1, u + q2, t1.day as nat, t2.day as nat, 2);
    }
    if t1.month < t2.month || same_upto_month {
        lemma_field_step(mo1, mo2, v1, v2, t1.month as nat, t2.month as nat, 2);
    }
    lemma_field_step(y1, y2, w1, w2, t1.year as nat, t2.year as nat, 4);
}

fn padded_chars(n: u128, width: usize) -> (r: Vec<char>)
    ensures
        r@ == padded(n as nat, width as nat),
{
    let digits = decimal_chars(n);
    if digits.len() >= width {
        return digits;
    }
    let zeros = width - digits.len();
    let mut out: Vec<char> = Vec::new();
    let mut i: usize = 0;
    while i < zeros
        invariant
            i <= zeros,
            out@ == Seq::new(i as nat, |k: int| '0'),
        decreases zeros - i,
    {
        out.push('0');
        i += 1;
        proof {
            assert(out@ =~= Seq::new(i as nat, |k: int| '0'));
        }
    }
    let mut j: usize = 0;
    let ghost z = out@;
    while j < digits.len()
        invariant
            j <= digits@.len(),
            out@ == z + digits@.subrange(0, j as int),
        decreases digits@.len() - j,
    {
        out.push(digits[j]);
        j += 1;
        proof {
            assert(out@ =~= z + digits@.subrange(0, j as int));
        }
    }
    proof {
        assert(digits@.subrange(0, digits@.len() as int) =~= digits@);
    }
    out
}

fn year_chars(y: i32) -> (r: Vec<char>)
    ensures
        r@ == year_text(y as int),
{
    if 0 <= y && y <= 9999 {
        padded_chars(y as u128, 4)
    } else {
        let mut out: Vec<char> = Vec::new();
        let magnitude: u128 = if y > 9999 {
            out.push('+');
            y as u128
        } else {
            out.push('-');
            (0i64 - y as i64) as u128
        };
        let digits = padded_chars(magnitude, 4);
        let ghost s = out@;
        let mut j: usize = 0;
        while j < digits.len()
            invariant
                j <= digits@.len(),
                out@ == s + digits@.subrange(0, j as int),
            decreases digits@.len() - j,
        {
            out.push(digits[j]);
            j += 1;
            proof {
                assert(out@ =~= s + digits@.subrange(0, j as int));
            }
        }
        proof {
            assert(digits@.subrange(0, digits@.len() as int) =~= digits@);
        }
        out
    }
}

/// Renders `YYYYMMDD_HHMMSS`, as chrono's `%Y%m%d_%H%M%S` does.
pub fn backup_timestamp(t: LocalTime) -> (r: String)
    ensures
        r@ == timestamp_of(t),
{
    let mut v = year_chars(t.year);
    v.append(&mut padded_chars(t.month as u128, 2));
    v.append(&mut padded_chars(t.day as u128, 2));
    v.push('_');
    v.append(&mut padded_chars(t.hour as u128, 2));
    v.append(&mut padded_chars(t.minute as u128, 2));
    v.append(&mut padded_chars(t.second as u128, 2));
    string_of_chars(&v)
}

} // verus!
