//! Dates of the Gregorian calendar from a count of seconds.

use vstd::prelude::*;
use crate::text;
use crate::text::padded_text;

verus! {

/// A year with a 29 February.
pub open spec fn is_leap(y: int) -> bool {
    y % 4 == 0 && (y % 100 != 0 || y % 400 == 0)
}

/// Days of a year.
pub open spec fn year_days(y: int) -> int {
    if is_leap(y) {
        366
    } else {
        365
    }
}

/// Days of a month.
pub open spec fn month_days(y: int, m: int) -> int {
    if m == 2 {
        if is_leap(y) {
            29
        } else {
            28
        }
    } else if m == 4 || m == 6 || m == 9 || m == 11 {
        30
    } else {
        31
    }
}

/// Days from 1 January 1970 to 1 January of `y`.
pub open spec fn days_to_year(y: int) -> int
    decreases y,
{
    if y <= 1970 {
        0
    } else {
        days_to_year(y - 1) + year_days(y - 1)
    }
}

/// Days from 1 January to the first of month `m`.
pub open spec fn days_to_month(y: int, m: int) -> int
    decreases m,
{
    if m <= 1 {
        0
    } else {
        days_to_month(y, m - 1) + month_days(y, m - 1)
    }
}

/// A calendar date.
#[derive(Debug, Clone, Copy, PartialEq, Eq, Structural)]
pub struct Date {
    pub year: u64,
    pub month: u64,
    pub day: u64,
}

impl Date {
    /// A date of the calendar from 1970 on.
    pub open spec fn valid(self) -> bool {
        &&& self.year >= 1970
        &&& 1 <= self.month <= 12
        &&& 1 <= self.day <= month_days(self.year as int, self.month as int)
    }

    /// Days from 1 January 1970 to the date.
    pub open spec fn number(self) -> int {
        days_to_year(self.year as int) + days_to_month(self.year as int, self.month as int)
            + self.day - 1
    }
}

/// Days from 1 March of year zero to 1 March of `y`.
spec fn march_days(y: int) -> int {
    365 * y + y / 4 - y / 100 + y / 400
}

proof fn lemma_march_days(y: int)
    requires
        y >= 1970,
    ensures
        days_to_year(y) == march_days(y - 1) + 306 - 719468,
    decreases y,
{
    if y > 1970 {
        lemma_march_days(y - 1);
        assert(march_days(y - 1) - march_days(y - 2) == year_days(y - 1));
    }
}

/// Days from 1 March to the first of the month `mp` months later.
spec fn march_month(mp: int) -> int {
    if mp == 0 {
        0
    } else if mp == 1 {
        31
    } else if mp == 2 {
        61
    } else if mp == 3 {
        92
    } else if mp == 4 {
        122
    } else if mp == 5 {
        153
    } else if mp == 6 {
        184
    } else if mp == 7 {
        214
    } else if mp == 8 {
        245
    } else if mp == 9 {
        275
    } else if mp == 10 {
        306
    } else if mp == 11 {
        337
    } else {
        367
    }
}

proof fn lemma_days_to_month(y: int)
    ensures
        days_to_month(y, 1) == 0,
        days_to_month(y, 2) == 31,
        days_to_month(y, 3) == 59 + if is_leap(y) {
            1int
        } else {
            0
        },
        forall|m: int|
            3 <= m <= 12 ==> #[trigger] days_to_month(y, m) == days_to_month(y, 3) + march_month(
                m - 3,
            ),
{
    reveal_with_fuel(days_to_month, 13);
    assert(days_to_month(y, 4) == days_to_month(y, 3) + 31);
    assert(days_to_month(y, 5) == days_to_month(y, 3) + 61);
    assert(days_to_month(y, 6) == days_to_month(y, 3) + 92);
    assert(days_to_month(y, 7) == days_to_month(y, 3) + 122);
    assert(days_to_month(y, 8) == days_to_month(y, 3) + 153);
    assert(days_to_month(y, 9) == days_to_month(y, 3) + 184);
    assert(days_to_month(y, 10) == days_to_month(y, 3) + 214);
    assert(days_to_month(y, 11) == days_to_month(y, 3) + 245);
    assert(days_to_month(y, 12) == days_to_month(y, 3) + 275);
}

/// The year that begins in March and the day within it.
fn march_year(z: u64) -> (r: (u64, u64))
    requires
        719468 <= z <= 1_000_000_000_000_000_000,
    ensures
        march_days(r.0 as int) + r.1 == z,
        r.1 <= 365,
        r.1 == 365 ==> is_leap(r.0 + 1),
        r.0 >= 1969,
        r.0 <= z,
{
    let era: u64 = z / 146_097;
    let doe: u64 = z % 146_097;
    let century: u64 = if doe >= 3 * 36_524 {
        3
    } else {
        doe / 36_524
    };
    let doc: u64 = doe - century * 36_524;
    let quad: u64 = doc / 1_461;
    let doq: u64 = doc % 1_461;
    let yoq: u64 = if doq >= 3 * 365 {
        3
    } else {
        doq / 365
    };
    let doy: u64 = doq - yoq * 365;
    let y: u64 = era * 400 + century * 100 + quad * 4 + yoq;
    proof {
        assert(quad <= 24);
        assert(y as int / 4 == era * 100 + century * 25 + quad);
        assert(y as int / 100 == era * 4 + century);
        assert(y as int / 400 == era as int);
        if doy == 365 {
            assert(yoq == 3);
            assert((y + 1) % 4 == 0);
            if quad == 24 {
                assert(century == 3);
                assert((y + 1) % 400 == 0);
            } else {
                assert((y + 1) % 100 == quad * 4 + 4);
            }
        }
        if y < 1969 {
            assert(march_days(y as int) + doy < 719468);
        }
    }
    (y, doy)
}

/// The date that lies `days` days after 1 January 1970.
pub fn date_of(days: u64) -> (d: Date)
    requires
        days <= 999_999_999_999_000_000,
    ensures
        d.valid(),
        d.number() == days,
{
    let (y, doy) = march_year(days + 719_468);
    let mp: u64 = (5 * doy + 2) / 153;
    let day: u64 = doy - (153 * mp + 2) / 5 + 1;
    proof {
        assert(mp <= 11);
        assert((153 * mp + 2) as int / 5 == march_month(mp as int)) by {
            if mp == 0 {
            } else if mp == 1 {
            } else if mp == 2 {
            } else if mp == 3 {
            } else if mp == 4 {
            } else if mp == 5 {
            } else if mp == 6 {
            } else if mp == 7 {
            } else if mp == 8 {
            } else if mp == 9 {
            } else if mp == 10 {
            } else {
            }
        }
        lemma_days_to_month(y as int);
        lemma_days_to_month(y + 1);
        lemma_march_days(y + 1);
        if y >= 1970 {
            lemma_march_days(y as int);
            assert(march_days(y as int) - march_days(y - 1) == year_days(y as int));
        }
    }
    if mp < 10 {
        let d = Date { year: y, month: mp + 3, day };
        proof {
            assert(days_to_month(y as int, mp + 3) == days_to_month(y as int, 3) + march_month(
                mp as int,
            ));
            if y == 1969 {
                assert(march_days(1969) + doy < 719468) by {
                    assert(doy < 306);
                }
            }
        }
        d
    } else {
        let d = Date { year: y + 1, month: mp - 9, day };
        assert(days_to_month(y + 1, mp - 9) == march_month(mp as int) - 306);
        d
    }
}

/// Two dates with one day number are the same date.
pub proof fn law_day_number_is_unique(a: Date, b: Date)
    requires
        a.valid(),
        b.valid(),
        a.number() == b.number(),
    ensures
        a == b,
{
    lemma_within_year(a);
    lemma_within_year(b);
    if a.year < b.year {
        lemma_years_increase(a.year + 1, b.year as int);
    } else if b.year < a.year {
        lemma_years_increase(b.year + 1, a.year as int);
    } else {
        if a.month < b.month {
            lemma_months_increase(a.year as int, a.month + 1, b.month as int);
        } else if b.month < a.month {
            lemma_months_increase(a.year as int, b.month + 1, a.month as int);
        }
    }
}

pub proof fn lemma_years_increase(a: int, b: int)
    requires
        1970 <= a <= b,
    ensures
        days_to_year(a) <= days_to_year(b),
    decreases b,
{
    if a < b {
        lemma_years_increase(a, b - 1);
    }
}

proof fn lemma_months_increase(y: int, a: int, b: int)
    requires
        1 <= a <= b,
    ensures
        days_to_month(y, a) <= days_to_month(y, b),
    decreases b,
{
    if a < b {
        lemma_months_increase(y, a, b - 1);
    }
}

pub proof fn lemma_within_year(d: Date)
    requires
        d.valid(),
    ensures
        days_to_year(d.year as int) <= d.number() < days_to_year(d.year + 1),
{
    let y = d.year as int;
    lemma_months_increase(y, 1, d.month as int);
    lemma_months_increase(y, d.month + 1, 13);
    lemma_days_to_month(y);
    assert(days_to_month(y, 13) == year_days(y)) by {
        assert(days_to_month(y, 12) == days_to_month(y, 3) + march_month(9));
        reveal_with_fuel(days_to_month, 2);
    }
}

/// The next day has the next number: a date rolls over at the end of its month,
/// and a month at the end of its year.
pub proof fn law_next_day(a: Date, b: Date)
    requires
        a.valid(),
        b.valid(),
        b.number() == a.number() + 1,
        a.year < u64::MAX,
    ensures
        b == if a.day < month_days(a.year as int, a.month as int) {
            Date { day: (a.day + 1) as u64, ..a }
        } else if a.month < 12 {
            Date { month: (a.month + 1) as u64, day: 1, ..a }
        } else {
            Date { year: (a.year + 1) as u64, month: 1, day: 1 }
        },
{
    let next = if a.day < month_days(a.year as int, a.month as int) {
        Date { day: (a.day + 1) as u64, ..a }
    } else if a.month < 12 {
        Date { month: (a.month + 1) as u64, day: 1, ..a }
    } else {
        Date { year: (a.year + 1) as u64, month: 1, day: 1 }
    };
    let y = a.year as int;
    lemma_days_to_month(y);
    assert(days_to_month(y, 12) == days_to_month(y, 3) + march_month(9));
    assert(days_to_month(y, a.month + 1) == days_to_month(y, a.month as int) + month_days(
        y,
        a.month as int,
    ));
    assert(next.valid());
    assert(next.number() == a.number() + 1);
    law_day_number_is_unique(next, b);
}

/// A time of day and a date, written to the second in Coordinated Universal Time.
pub open spec fn timestamp(d: Date, h: int, m: int, s: int) -> Seq<char> {
    text::zero_filled(text::decimal(d.year as int), 4) + seq!['-'] + text::zero_filled(
        text::decimal(d.month as int),
        2,
    ) + seq!['-'] + text::zero_filled(text::decimal(d.day as int), 2) + seq!['T']
        + text::zero_filled(text::decimal(h), 2) + seq![':'] + text::zero_filled(
        text::decimal(m),
        2,
    ) + seq![':'] + text::zero_filled(text::decimal(s), 2) + seq!['Z']
}

/// The timestamp of a moment `secs` seconds after the start of 1970.
pub fn iso8601_utc(secs: u64) -> (r: String)
    ensures
        exists|d: Date|
            d.valid() && d.number() == secs as int / 86400 && r@ == #[trigger] timestamp(
                d,
                (secs as int % 86400) / 3600,
                (secs as int % 3600) / 60,
                secs as int % 60,
            ),
{
    let days: u64 = secs / 86_400;
    let rem: u64 = secs % 86_400;
    let d = date_of(days);
    let h: u64 = rem / 3_600;
    let m: u64 = (rem % 3_600) / 60;
    let s: u64 = rem % 60;
    let mut r = padded_text(d.year, 4);
    r.push('-');
    r.append(padded_text(d.month, 2).as_str());
    r.push('-');
    r.append(padded_text(d.day, 2).as_str());
    r.push('T');
    r.append(padded_text(h, 2).as_str());
    r.push(':');
    r.append(padded_text(m, 2).as_str());
    r.push(':');
    r.append(padded_text(s, 2).as_str());
    r.push('Z');
    proof {
        assert(secs as int % 3600 == rem as int % 3600);
        assert(secs as int % 60 == rem as int % 60);
        assert(r@ =~= timestamp(d, h as int, m as int, s as int));
    }
    r
}

} // verus!
