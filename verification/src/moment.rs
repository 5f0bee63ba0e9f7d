//! What timestamps tell: they read back.

use vstd::prelude::*;

use crate::calendar;
use crate::calendar::{iso8601_utc, Date};
use crate::text;

verus! {

/// A timestamp reads back: before the year 10000 it is twenty characters, whose digits
/// stand for a date of the calendar and a time of day that count up to the moment.
pub proof fn law_timestamps_read_back(secs: u64, r: String) -> (d: Date)
    requires
        call_ensures(iso8601_utc, (secs,), r),
        secs < 86400 * calendar::days_to_year(10000),
    ensures
        r@.len() == 20,
        r@[4] == '-' && r@[7] == '-' && r@[10] == 'T' && r@[13] == ':' && r@[16] == ':',
        r@[19] == 'Z',
        d.valid(),
        d.year == text::digits_value(r@.subrange(0, 4)),
        d.month == text::digits_value(r@.subrange(5, 7)),
        d.day == text::digits_value(r@.subrange(8, 10)),
        text::digits_value(r@.subrange(11, 13)) < 24,
        text::digits_value(r@.subrange(14, 16)) < 60,
        text::digits_value(r@.subrange(17, 19)) < 60,
        86400 * d.number() + 3600 * text::digits_value(r@.subrange(11, 13)) + 60
            * text::digits_value(r@.subrange(14, 16)) + text::digits_value(r@.subrange(17, 19))
            == secs,
{
    let h: int = (secs as int % 86400) / 3600;
    let mi: int = (secs as int % 3600) / 60;
    let s: int = secs as int % 60;
    let d = choose|d: Date|
        d.valid() && d.number() == secs as int / 86400 && r@ == #[trigger] calendar::timestamp(d, h, mi, s);
    assert(d.year < 10000) by {
        if d.year >= 10000 {
            calendar::lemma_years_increase(10000, d.year as int);
            calendar::lemma_within_year(d);
        }
    }
    let y = text::zero_filled(text::decimal(d.year as int), 4);
    let mo = text::zero_filled(text::decimal(d.month as int), 2);
    let da = text::zero_filled(text::decimal(d.day as int), 2);
    let ht = text::zero_filled(text::decimal(h), 2);
    let mt = text::zero_filled(text::decimal(mi), 2);
    let st = text::zero_filled(text::decimal(s), 2);
    text::law_filling_keeps_the_value(d.year as int, 4);
    text::law_filling_keeps_the_value(d.month as int, 2);
    text::law_filling_keeps_the_value(d.day as int, 2);
    text::law_filling_keeps_the_value(h, 2);
    text::law_filling_keeps_the_value(mi, 2);
    text::law_filling_keeps_the_value(s, 2);
    text::law_decimal_is_short(d.year as int);
    text::law_decimal_is_short(d.month as int);
    text::law_decimal_is_short(d.day as int);
    text::law_decimal_is_short(h);
    text::law_decimal_is_short(mi);
    text::law_decimal_is_short(s);
    lemma_places(y, mo, da, ht, mt, st);
    lemma_time_of_day(secs as int);
    d
}

proof fn lemma_time_of_day(secs: int)
    requires
        0 <= secs,
    ensures
        86400 * (secs / 86400) + 3600 * ((secs % 86400) / 3600) + 60 * ((secs % 3600) / 60) + secs
            % 60 == secs,
        0 <= (secs % 86400) / 3600 < 24,
        0 <= (secs % 3600) / 60 < 60,
        0 <= secs % 60 < 60,
{
    assert((secs % 86400) % 3600 == secs % 3600);
    assert((secs % 3600) % 60 == secs % 60);
}

/// Where the parts of a timestamp stand.
proof fn lemma_places(
    y: Seq<char>,
    mo: Seq<char>,
    da: Seq<char>,
    h: Seq<char>,
    m: Seq<char>,
    s: Seq<char>,
)
    requires
        y.len() == 4,
        mo.len() == 2,
        da.len() == 2,
        h.len() == 2,
        m.len() == 2,
        s.len() == 2,
    ensures
        ({
            let t = y + seq!['-'] + mo + seq!['-'] + da + seq!['T'] + h + seq![':'] + m + seq![':']
                + s + seq!['Z'];
            &&& t.len() == 20
            &&& t[4] == '-' && t[7] == '-' && t[10] == 'T' && t[13] == ':' && t[16] == ':'
            &&& t[19] == 'Z'
            &&& t.subrange(0, 4) == y
            &&& t.subrange(5, 7) == mo
            &&& t.subrange(8, 10) == da
            &&& t.subrange(11, 13) == h
            &&& t.subrange(14, 16) == m
            &&& t.subrange(17, 19) == s
        }),
{
    let t = y + seq!['-'] + mo + seq!['-'] + da + seq!['T'] + h + seq![':'] + m + seq![':'] + s
        + seq!['Z'];
    assert(t.subrange(0, 4) =~= y);
    assert(t.subrange(5, 7) =~= mo);
    assert(t.subrange(8, 10) =~= da);
    assert(t.subrange(11, 13) =~= h);
    assert(t.subrange(14, 16) =~= m);
    assert(t.subrange(17, 19) =~= s);
}

} // verus!
