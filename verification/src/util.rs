//! Time: the clock in whole seconds, and its rendering as an instant in UTC.

use vstd::arithmetic::div_mod::{lemma_hoist_over_denominator, lemma_mod_multiples_vanish};
use vstd::prelude::*;
use vstd::string::*;

use crate::text::{dec_i64_padded, dec_nat, dec_padded, digit, sorts_before, text_le};

verus! {

// ---------------------------------------------------------------------------
// The calendar
// ---------------------------------------------------------------------------

/// A leap year of the (proleptic) Gregorian calendar.
pub open spec fn is_leap(y: int) -> bool {
    y % 4 == 0 && (y % 100 != 0 || y % 400 == 0)
}

/// The days of a year.
pub open spec fn year_len(y: int) -> int {
    if is_leap(y) {
        366
    } else {
        365
    }
}

/// The leap years among the years 1 to `y`.
pub open spec fn leaps_until(y: int) -> int {
    y / 4 - y / 100 + y / 400
}

/// The day number of the first of January of year `y`; day 0 is 1970-01-01.
pub open spec fn year_start(y: int) -> int {
    365 * (y - 1970) + leaps_until(y - 1) - leaps_until(1969)
}

/// The days of month `m` (1 to 12) of year `y`.
pub open spec fn month_len(y: int, m: int) -> int {
    if m == 2 {
        if is_leap(y) {
            29
        } else {
            28
        }
    } else if m == 4 || m == 6 || m == 9 || m == 11 {
        30
    } else {
        31
    }
}

/// The days of year `y` before month `m`.
pub open spec fn month_start(y: int, m: int) -> int
    decreases m,
{
    if m <= 1 {
        0
    } else {
        month_start(y, m - 1) + month_len(y, m - 1)
    }
}

/// A date of the calendar: year, month and day.
pub open spec fn is_date(c: (int, int, int)) -> bool {
    1 <= c.1 <= 12 && 1 <= c.2 <= month_len(c.0, c.1)
}

/// The days from 1970-01-01 to a date.
pub open spec fn day_number(c: (int, int, int)) -> int {
    year_start(c.0) + month_start(c.0, c.1) + c.2 - 1
}

/// The date whose day number is `z`.
pub open spec fn civil(z: int) -> (int, int, int) {
    choose|c: (int, int, int)| #[trigger] is_date(c) && day_number(c) == z
}

/// A year starts where the year before it ends.
pub proof fn year_start_step(y: int)
    ensures
        year_start(y + 1) == year_start(y) + year_len(y),
{
    assert(y / 4 - (y - 1) / 4 == if y % 4 == 0 { 1int } else { 0 });
    assert(y / 100 - (y - 1) / 100 == if y % 100 == 0 { 1int } else { 0 });
    assert(y / 400 - (y - 1) / 400 == if y % 400 == 0 { 1int } else { 0 });
}

proof fn month_starts(y: int)
    ensures
        month_start(y, 1) == 0,
        month_start(y, 2) == 31,
        month_start(y, 3) == 59 + year_len(y) - 365,
        month_start(y, 4) == 90 + year_len(y) - 365,
        month_start(y, 5) == 120 + year_len(y) - 365,
        month_start(y, 6) == 151 + year_len(y) - 365,
        month_start(y, 7) == 181 + year_len(y) - 365,
        month_start(y, 8) == 212 + year_len(y) - 365,
        month_start(y, 9) == 243 + year_len(y) - 365,
        month_start(y, 10) == 273 + year_len(y) - 365,
        month_start(y, 11) == 304 + year_len(y) - 365,
        month_start(y, 12) == 334 + year_len(y) - 365,
{
    reveal_with_fuel(month_start, 13);
}

proof fn within_year(c: (int, int, int))
    requires
        is_date(c),
    ensures
        0 <= month_start(c.0, c.1) + c.2 - 1 < year_len(c.0),
{
    month_starts(c.0);
}

/// No two dates have the same day number.
pub proof fn dates_are_distinct(a: (int, int, int), b: (int, int, int))
    requires
        is_date(a),
        is_date(b),
        day_number(a) == day_number(b),
    ensures
        a == b,
{
    within_year(a);
    within_year(b);
    year_start_step(a.0);
    year_start_step(b.0);
    month_starts(a.0);
    month_starts(b.0);
    if a.0 < b.0 {
        years_ascend(a.0 + 1, b.0);
    } else if b.0 < a.0 {
        years_ascend(b.0 + 1, a.0);
    }
}

proof fn years_ascend(a: int, b: int)
    requires
        a <= b,
    ensures
        year_start(a) <= year_start(b),
    decreases b - a,
{
    if a < b {
        years_ascend(a, b - 1);
        year_start_step(b - 1);
    }
}

/// A date is what `civil` gives for its day number.
pub proof fn civil_of_date(c: (int, int, int))
    requires
        is_date(c),
    ensures
        civil(day_number(c)) == c,
{
    let k = civil(day_number(c));
    assert(is_date(c) && day_number(c) == day_number(c));
    dates_are_distinct(k, c);
}

/// The year of a 400-year cycle, counted from March, in which a day falls, and
/// the day of that year.
proof fn cycle_year(doe: int, yoe: int)
    requires
        0 <= doe <= 146096,
        yoe == (doe - doe / 1460 + doe / 36524 - doe / 146096) / 365,
    ensures
        0 <= yoe <= 399,
        0 <= doe - (365 * yoe + yoe / 4 - yoe / 100),
        doe - (365 * yoe + yoe / 4 - yoe / 100) < if is_leap(yoe + 1) { 366int } else { 365 },
{
}

/// The months of a year counted from March: month `mp` starts on day
/// `(153 * mp + 2) / 5`.
proof fn march_month(doy: int, mp: int)
    requires
        0 <= doy <= 365,
        mp == (5 * doy + 2) / 153,
    ensures
        0 <= mp <= 11,
        mp == 0 ==> (153 * mp + 2) / 5 == 0 && doy < 31,
        mp == 1 ==> (153 * mp + 2) / 5 == 31 && doy < 61,
        mp == 2 ==> (153 * mp + 2) / 5 == 61 && doy < 92,
        mp == 3 ==> (153 * mp + 2) / 5 == 92 && doy < 122,
        mp == 4 ==> (153 * mp + 2) / 5 == 122 && doy < 153,
        mp == 5 ==> (153 * mp + 2) / 5 == 153 && doy < 184,
        mp == 6 ==> (153 * mp + 2) / 5 == 184 && doy < 214,
        mp == 7 ==> (153 * mp + 2) / 5 == 214 && doy < 245,
        mp == 8 ==> (153 * mp + 2) / 5 == 245 && doy < 275,
        mp == 9 ==> (153 * mp + 2) / 5 == 275 && doy < 306,
        mp == 10 ==> (153 * mp + 2) / 5 == 306 && doy < 337,
        mp == 11 ==> (153 * mp + 2) / 5 == 337,
        (153 * mp + 2) / 5 <= doy,
{
}

/// The first of March of the year that lies `yoe` years into cycle `era`.
proof fn march_first(era: int, yoe: int)
    requires
        0 <= yoe <= 399,
    ensures
        year_start(yoe + 400 * era) + 59 + year_len(yoe + 400 * era) - 365
            == 146_097 * era + 365 * yoe + yoe / 4 - yoe / 100 - 719_468,
        is_leap(yoe + 400 * era + 1) == is_leap(yoe + 1),
        is_leap(yoe + 400 * era) == is_leap(yoe),
{
    cycle_quotients(era, yoe - 1);
    cycle_quotients(era, yoe);
    cycle_quotients(era, yoe + 1);
    assert(year_start(yoe + 400 * era) == 146_097 * era + year_start(yoe));
    assert(year_start(yoe) + 59 + year_len(yoe) - 365 == 365 * yoe + yoe / 4 - yoe / 100 - 719_468)
        by {
        year_start_step(yoe);
        assert(yoe / 400 == 0);
    }
}

proof fn cycle_quotients(era: int, k: int)
    ensures
        (k + 400 * era) / 4 == k / 4 + 100 * era,
        (k + 400 * era) / 100 == k / 100 + 4 * era,
        (k + 400 * era) / 400 == k / 400 + era,
        (k + 400 * era) % 4 == k % 4,
        (k + 400 * era) % 100 == k % 100,
        (k + 400 * era) % 400 == k % 400,
{
    lemma_hoist_over_denominator(k, 100 * era, 4);
    lemma_hoist_over_denominator(k, 4 * era, 100);
    lemma_hoist_over_denominator(k, era, 400);
    lemma_mod_multiples_vanish(100 * era, k, 4);
    lemma_mod_multiples_vanish(4 * era, k, 100);
    lemma_mod_multiples_vanish(era, k, 400);
}

/// The date `doy` days behind the first of March of year `y`.
proof fn date_from_march(y: int, doy: int, mp: int, c: (int, int, int))
    requires
        0 <= doy < year_len(y + 1),
        mp == (5 * doy + 2) / 153,
        c.2 == doy - (153 * mp + 2) / 5 + 1,
        c.1 == if mp < 10 { mp + 3 } else { mp - 9 },
        c.0 == if c.1 <= 2 { y + 1 } else { y },
    ensures
        is_date(c),
        day_number(c) == year_start(y) + 59 + year_len(y) - 365 + doy,
{
    march_month(doy, mp);
    month_starts(c.0);
    year_start_step(y);
}

/// The date of day `z`, counted from 1970-01-01.
pub fn civil_from_days(z: i64) -> (r: (i64, u32, u32))
    requires
        z <= i64::MAX - 719_468,
    ensures
        (r.0 as int, r.1 as int, r.2 as int) == civil(z as int),
        is_date((r.0 as int, r.1 as int, r.2 as int)),
        day_number((r.0 as int, r.1 as int, r.2 as int)) == z,
        -0x7fff_ffff_ffff_ff00 <= r.0 <= 0x7fff_ffff_ffff_ff00,
{
    let z0: i64 = z + 719_468;
    let era: i64 = if z0 >= 0 {
        z0 / 146_097
    } else {
        -1 - (-1 - z0) / 146_097
    };
    assert(era == (z0 as int) / 146_097);
    let doe: i64 = z0 - era * 146_097;
    let yoe: i64 = (doe - doe / 1460 + doe / 36_524 - doe / 146_096) / 365;
    proof {
        cycle_year(doe as int, yoe as int);
    }
    let y: i64 = yoe + era * 400;
    let doy: i64 = doe - (365 * yoe + yoe / 4 - yoe / 100);
    let mp: i64 = (5 * doy + 2) / 153;
    proof {
        march_month(doy as int, mp as int);
    }
    let d: i64 = doy - (153 * mp + 2) / 5 + 1;
    let m: i64 = if mp < 10 {
        mp + 3
    } else {
        mp - 9
    };
    let year: i64 = if m <= 2 {
        y + 1
    } else {
        y
    };
    proof {
        march_first(era as int, yoe as int);
        date_from_march(y as int, doy as int, mp as int, (year as int, m as int, d as int));
        civil_of_date((year as int, m as int, d as int));
    }
    (year, m as u32, d as u32)
}

// ---------------------------------------------------------------------------
// Instants
// ---------------------------------------------------------------------------

/// An instant in UTC, `2026-07-25T16:54:58Z`: the date in the calendar above, the
/// year of at least four characters, and the time of day.
pub open spec fn rfc3339(epoch: int) -> Seq<char> {
    let date = civil(epoch / 86_400);
    let secs = epoch % 86_400;
    dec_padded(date.0, 4) + "-"@ + dec_padded(date.1, 2) + "-"@ + dec_padded(date.2, 2) + "T"@
        + dec_padded(secs / 3600, 2) + ":"@ + dec_padded((secs % 3600) / 60, 2) + ":"@
        + dec_padded(secs % 60, 2) + "Z"@
}

/// Format a Unix timestamp as an RFC 3339 instant in UTC.
pub fn to_rfc3339_utc(epoch: i64) -> (s: String)
    ensures
        s@ == rfc3339(epoch as int),
{
    let days: i64 = if epoch >= 0 {
        epoch / 86_400
    } else {
        -1 - (-1 - epoch) / 86_400
    };
    assert(days == (epoch as int) / 86_400);
    let secs: i64 = if epoch >= 0 {
        epoch % 86_400
    } else {
        86_399 - (-1 - epoch) % 86_400
    };
    assert(secs == (epoch as int) % 86_400);
    let date = civil_from_days(days);
    let mut s = dec_i64_padded(date.0, 4);
    s.append("-");
    s.append(dec_i64_padded(date.1 as i64, 2).as_str());
    s.append("-");
    s.append(dec_i64_padded(date.2 as i64, 2).as_str());
    s.append("T");
    s.append(dec_i64_padded(secs / 3600, 2).as_str());
    s.append(":");
    s.append(dec_i64_padded((secs % 3600) / 60, 2).as_str());
    s.append(":");
    s.append(dec_i64_padded(secs % 60, 2).as_str());
    s.append("Z");
    s
}

/// A reading of the system's clock.
#[verifier::external_type_specification]
#[verifier::external_body]
pub struct ExSystemTime(std::time::SystemTime);

/// `SystemTime::now`. The clock decides the result, so nothing is claimed of it.
#[verifier::external_body]
fn clock_now() -> std::time::SystemTime {
    std::time::SystemTime::now()
}

/// `SystemTime::duration_since` the Unix epoch: `None` where the reading stands
/// before it. A reading shows nothing of itself here, so nothing is claimed of the
/// result.
#[verifier::external_body]
fn since_epoch(t: std::time::SystemTime) -> Option<std::time::Duration> {
    t.duration_since(std::time::UNIX_EPOCH).ok()
}

/// `Duration::as_secs`: the whole seconds of a time. A time shows nothing of itself
/// here, so nothing is claimed of the result.
#[verifier::external_body]
fn whole_secs(d: std::time::Duration) -> u64 {
    d.as_secs()
}

/// The Unix time that a reading of the clock stands for: 0 for a clock before
/// the epoch.
pub open spec fn clock_epoch(reading: Option<u64>) -> i64 {
    match reading {
        Some(secs) => secs as i64,
        None => 0,
    }
}

/// The Unix time that a reading of the clock gives.
pub fn epoch_of_clock(reading: Option<u64>) -> (r: i64)
    ensures
        r == clock_epoch(reading),
        reading matches Some(secs) ==> secs <= i64::MAX ==> r == secs,
{
    match reading {
        Some(secs) => secs as i64,
        None => 0,
    }
}

/// Current Unix time in whole seconds (0 if the clock predates the epoch).
pub fn now_epoch() -> (r: i64)
    ensures
        exists|reading: Option<u64>| r == #[trigger] clock_epoch(reading),
{
    let reading: Option<u64> = match since_epoch(clock_now()) {
        Some(d) => Some(whole_secs(d)),
        None => None,
    };
    epoch_of_clock(reading)
}

/// Every day number belongs to a date.
pub proof fn civil_exists(z: int)
    ensures
        is_date(civil(z)),
        day_number(civil(z)) == z,
{
    let z0 = z + 719_468;
    let era = z0 / 146_097;
    let doe = z0 - era * 146_097;
    let yoe = (doe - doe / 1460 + doe / 36_524 - doe / 146_096) / 365;
    cycle_year(doe, yoe);
    let y = yoe + era * 400;
    let doy = doe - (365 * yoe + yoe / 4 - yoe / 100);
    let mp = (5 * doy + 2) / 153;
    march_month(doy, mp);
    let m = if mp < 10 {
        mp + 3
    } else {
        mp - 9
    };
    let c = (if m <= 2 {
        y + 1
    } else {
        y
    }, m, doy - (153 * mp + 2) / 5 + 1);
    march_first(era, yoe);
    date_from_march(y, doy, mp, c);
    civil_of_date(c);
}

// ---------------------------------------------------------------------------
// Instants read back, and sort as they follow one another
// ---------------------------------------------------------------------------

/// The seconds of the years 0 to 9999.
pub open spec fn in_four_digit_years(epoch: int) -> bool {
    -62_167_219_200 <= epoch <= 253_402_300_799
}

/// The number that the two digits of `t` from `i` on stand for.
pub open spec fn two_digits(t: Seq<char>, i: int) -> int {
    10 * (t[i] as int - '0' as int) + (t[i + 1] as int - '0' as int)
}

/// The Unix time of an instant as it is written: its date's days and its time of
/// day, read at their places.
pub open spec fn instant_in(t: Seq<char>) -> int {
    let date = (100 * two_digits(t, 0) + two_digits(t, 2), two_digits(t, 5), two_digits(t, 8));
    86_400 * day_number(date) + 3600 * two_digits(t, 11) + 60 * two_digits(t, 14) + two_digits(
        t,
        17,
    )
}

/// A number of two digits.
spec fn pair(n: int) -> Seq<char> {
    seq![digit(n / 10), digit(n % 10)]
}

spec fn date_text(date: (int, int, int)) -> Seq<char> {
    pair(date.0 / 100) + pair(date.0 % 100) + seq!['-'] + pair(date.1) + seq!['-'] + pair(date.2)
        + seq!['T']
}

spec fn clock_text(secs: int) -> Seq<char> {
    pair(secs / 3600) + seq![':'] + pair((secs % 3600) / 60) + seq![':'] + pair(secs % 60) + seq![
        'Z',
    ]
}

proof fn two_padded(n: int)
    requires
        0 <= n < 100,
    ensures
        dec_padded(n, 2) == pair(n),
{
    reveal_with_fuel(dec_nat, 2);
    assert(dec_padded(n, 2) =~= pair(n));
}

proof fn four_padded(n: int)
    requires
        0 <= n < 10_000,
    ensures
        dec_padded(n, 4) == pair(n / 100) + pair(n % 100),
{
    reveal_with_fuel(dec_nat, 4);
    assert(n / 100 / 10 == n / 10 / 10 / 10);
    assert((n / 100) % 10 == (n / 10 / 10) % 10);
    assert((n % 100) / 10 == (n / 10) % 10);
    assert((n % 100) % 10 == n % 10);
    assert(dec_padded(n, 4) =~= pair(n / 100) + pair(n % 100));
}

proof fn pair_reads(n: int)
    requires
        0 <= n < 100,
    ensures
        two_digits(pair(n), 0) == n,
{
    digit_counts(n / 10);
    digit_counts(n % 10);
}

proof fn digit_counts(d: int)
    requires
        0 <= d < 10,
    ensures
        digit(d) as int == '0' as int + d,
{
}

/// The date and the time of day of an instant, within their bounds.
proof fn parts_of_instant(epoch: int)
    requires
        in_four_digit_years(epoch),
    ensures
        is_date(civil(epoch / 86_400)),
        day_number(civil(epoch / 86_400)) == epoch / 86_400,
        0 <= civil(epoch / 86_400).0 < 10_000,
        1 <= civil(epoch / 86_400).1 <= 12,
        1 <= civil(epoch / 86_400).2 <= 31,
{
    let z = epoch / 86_400;
    let date = civil(z);
    civil_exists(z);
    within_year(date);
    year_start_step(date.0);
    if date.0 < 0 {
        years_ascend(date.0 + 1, 0);
    } else if date.0 >= 10_000 {
        years_ascend(10_000, date.0);
    }
}

proof fn instant_written(epoch: int)
    requires
        in_four_digit_years(epoch),
    ensures
        rfc3339(epoch) == date_text(civil(epoch / 86_400)) + clock_text(epoch % 86_400),
{
    let date = civil(epoch / 86_400);
    let secs = epoch % 86_400;
    parts_of_instant(epoch);
    four_padded(date.0);
    two_padded(date.1);
    two_padded(date.2);
    two_padded(secs / 3600);
    two_padded((secs % 3600) / 60);
    two_padded(secs % 60);
    reveal_strlit("-");
    reveal_strlit("T");
    reveal_strlit(":");
    reveal_strlit("Z");
    assert("-"@ =~= seq!['-']);
    assert("T"@ =~= seq!['T']);
    assert(":"@ =~= seq![':']);
    assert("Z"@ =~= seq!['Z']);
    assert(rfc3339(epoch) =~= date_text(date) + clock_text(secs));
}

/// The years from 0 to 9999 give an instant of twenty characters, the separators
/// at their places.
pub proof fn rfc3339_is_fixed_width(epoch: int)
    requires
        in_four_digit_years(epoch),
    ensures
        rfc3339(epoch).len() == 20,
        rfc3339(epoch)[4] == '-' && rfc3339(epoch)[7] == '-',
        rfc3339(epoch)[10] == 'T',
        rfc3339(epoch)[13] == ':' && rfc3339(epoch)[16] == ':',
        rfc3339(epoch)[19] == 'Z',
{
    instant_written(epoch);
}

/// In the years from 0 to 9999 the text of an instant reads back as the instant.
pub proof fn rfc3339_reads_back(epoch: int)
    requires
        in_four_digit_years(epoch),
    ensures
        instant_in(rfc3339(epoch)) == epoch,
{
    let t = rfc3339(epoch);
    let date = civil(epoch / 86_400);
    let secs = epoch % 86_400;
    instant_written(epoch);
    parts_of_instant(epoch);
    date_reads(date, clock_text(secs));
    clock_reads(date_text(date), secs);
}

proof fn date_reads(date: (int, int, int), clock: Seq<char>)
    requires
        0 <= date.0 < 10_000,
        1 <= date.1 <= 12,
        1 <= date.2 <= 31,
    ensures
        100 * two_digits(date_text(date) + clock, 0) + two_digits(date_text(date) + clock, 2)
            == date.0,
        two_digits(date_text(date) + clock, 5) == date.1,
        two_digits(date_text(date) + clock, 8) == date.2,
{
    pair_reads(date.0 / 100);
    pair_reads(date.0 % 100);
    pair_reads(date.1);
    pair_reads(date.2);
}

proof fn clock_reads(date: Seq<char>, secs: int)
    requires
        date.len() == 11,
        0 <= secs < 86_400,
    ensures
        3600 * two_digits(date + clock_text(secs), 11) + 60 * two_digits(
            date + clock_text(secs),
            14,
        ) + two_digits(date + clock_text(secs), 17) == secs,
{
    pair_reads(secs / 3600);
    pair_reads((secs % 3600) / 60);
    pair_reads(secs % 60);
    assert(two_digits(date + clock_text(secs), 11) == secs / 3600);
    assert(two_digits(date + clock_text(secs), 14) == (secs % 3600) / 60);
    assert(two_digits(date + clock_text(secs), 17) == secs % 60);
}

/// A later day is a later date: by its year, else its month, else its day.
proof fn later_days_are_later_dates(a: (int, int, int), b: (int, int, int))
    requires
        is_date(a),
        is_date(b),
        day_number(a) < day_number(b),
    ensures
        a.0 < b.0 || (a.0 == b.0 && (a.1 < b.1 || (a.1 == b.1 && a.2 < b.2))),
{
    within_year(a);
    within_year(b);
    year_start_step(a.0);
    year_start_step(b.0);
    month_starts(a.0);
    if b.0 < a.0 {
        years_ascend(b.0 + 1, a.0);
    }
}

/// Texts that start alike: the rest decides.
proof fn rest_decides(p: Seq<char>, u: Seq<char>, v: Seq<char>)
    requires
        sorts_before(u, v),
    ensures
        sorts_before(p + u, p + v),
    decreases p.len(),
{
    if p.len() == 0 {
        assert(p + u =~= u);
        assert(p + v =~= v);
    } else {
        rest_decides(p.drop_first(), u, v);
        assert((p + u).drop_first() =~= p.drop_first() + u);
        assert((p + v).drop_first() =~= p.drop_first() + v);
    }
}

/// Texts that start with parts of one length: the first part decides.
proof fn start_decides(p: Seq<char>, q: Seq<char>, u: Seq<char>, v: Seq<char>)
    requires
        p.len() == q.len(),
        sorts_before(p, q),
    ensures
        sorts_before(p + u, q + v),
    decreases p.len(),
{
    if p.len() == 0 {
        assert(p =~= q);
    } else if p[0] == q[0] {
        assert(p =~= seq![p[0]] + p.drop_first());
        assert(q =~= seq![q[0]] + q.drop_first());
        start_decides(p.drop_first(), q.drop_first(), u, v);
        assert((p + u).drop_first() =~= p.drop_first() + u);
        assert((q + v).drop_first() =~= q.drop_first() + v);
    }
}

proof fn pairs_sort(m: int, n: int)
    requires
        0 <= m < n < 100,
    ensures
        sorts_before(pair(m), pair(n)),
{
    digit_counts(m / 10);
    digit_counts(m % 10);
    digit_counts(n / 10);
    digit_counts(n % 10);
    reveal_with_fuel(text_le, 3);
}

/// Texts that first differ in a number of two digits.
proof fn pair_decides(p: Seq<char>, m: int, n: int, u: Seq<char>, v: Seq<char>)
    requires
        0 <= m < n < 100,
    ensures
        sorts_before(p + pair(m) + u, p + pair(n) + v),
{
    pairs_sort(m, n);
    start_decides(pair(m), pair(n), u, v);
    rest_decides(p, pair(m) + u, pair(n) + v);
    assert(p + pair(m) + u =~= p + (pair(m) + u));
    assert(p + pair(n) + v =~= p + (pair(n) + v));
}

proof fn dates_sort(a: (int, int, int), b: (int, int, int))
    requires
        0 <= a.0 < 10_000 && 1 <= a.1 <= 12 && 1 <= a.2 <= 31,
        0 <= b.0 < 10_000 && 1 <= b.1 <= 12 && 1 <= b.2 <= 31,
        a.0 < b.0 || (a.0 == b.0 && (a.1 < b.1 || (a.1 == b.1 && a.2 < b.2))),
    ensures
        sorts_before(date_text(a), date_text(b)),
{
    let dash = seq!['-'];
    let day_a = dash + pair(a.2) + seq!['T'];
    let day_b = dash + pair(b.2) + seq!['T'];
    let none: Seq<char> = seq![];
    if a.0 / 100 < b.0 / 100 {
        let u = pair(a.0 % 100) + dash + pair(a.1) + day_a;
        let v = pair(b.0 % 100) + dash + pair(b.1) + day_b;
        pair_decides(none, a.0 / 100, b.0 / 100, u, v);
        assert(date_text(a) =~= none + pair(a.0 / 100) + u);
        assert(date_text(b) =~= none + pair(b.0 / 100) + v);
    } else if a.0 < b.0 {
        let p = pair(a.0 / 100);
        let u = dash + pair(a.1) + day_a;
        let v = dash + pair(b.1) + day_b;
        pair_decides(p, a.0 % 100, b.0 % 100, u, v);
        assert(date_text(a) =~= p + pair(a.0 % 100) + u);
        assert(date_text(b) =~= p + pair(b.0 % 100) + v);
    } else if a.1 < b.1 {
        let p = pair(a.0 / 100) + pair(a.0 % 100) + dash;
        pair_decides(p, a.1, b.1, day_a, day_b);
        assert(date_text(a) =~= p + pair(a.1) + day_a);
        assert(date_text(b) =~= p + pair(b.1) + day_b);
    } else {
        let p = pair(a.0 / 100) + pair(a.0 % 100) + dash + pair(a.1) + dash;
        pair_decides(p, a.2, b.2, seq!['T'], seq!['T']);
    }
}

proof fn clocks_sort(s: int, t: int)
    requires
        0 <= s < t < 86_400,
    ensures
        sorts_before(clock_text(s), clock_text(t)),
{
    let colon = seq![':'];
    let none: Seq<char> = seq![];
    if s / 3600 < t / 3600 {
        let u = colon + pair((s % 3600) / 60) + colon + pair(s % 60) + seq!['Z'];
        let v = colon + pair((t % 3600) / 60) + colon + pair(t % 60) + seq!['Z'];
        pair_decides(none, s / 3600, t / 3600, u, v);
        assert(clock_text(s) =~= none + pair(s / 3600) + u);
        assert(clock_text(t) =~= none + pair(t / 3600) + v);
    } else if (s % 3600) / 60 < (t % 3600) / 60 {
        let p = pair(s / 3600) + colon;
        let u = colon + pair(s % 60) + seq!['Z'];
        let v = colon + pair(t % 60) + seq!['Z'];
        pair_decides(p, (s % 3600) / 60, (t % 3600) / 60, u, v);
        assert(clock_text(s) =~= p + pair((s % 3600) / 60) + u);
        assert(clock_text(t) =~= p + pair((t % 3600) / 60) + v);
    } else {
        let p = pair(s / 3600) + colon + pair((s % 3600) / 60) + colon;
        pair_decides(p, s % 60, t % 60, seq!['Z'], seq!['Z']);
    }
}

/// In the years from 0 to 9999 a later instant sorts later as text.
pub proof fn later_instants_sort_later(a: int, b: int)
    requires
        in_four_digit_years(a),
        in_four_digit_years(b),
        a < b,
    ensures
        sorts_before(rfc3339(a), rfc3339(b)),
{
    instant_written(a);
    instant_written(b);
    parts_of_instant(a);
    parts_of_instant(b);
    let d = civil(a / 86_400);
    let e = civil(b / 86_400);
    if a / 86_400 < b / 86_400 {
        later_days_are_later_dates(d, e);
        dates_sort(d, e);
        start_decides(date_text(d), date_text(e), clock_text(a % 86_400), clock_text(b % 86_400));
    } else {
        clocks_sort(a % 86_400, b % 86_400);
        rest_decides(date_text(d), clock_text(a % 86_400), clock_text(b % 86_400));
    }
}

} // verus!
