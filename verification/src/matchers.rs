//! The composed matchers: optional separator runs interleaved with the
//! three fields of a date (year, month, day) or of a time (hour, minute,
//! second).  A matcher either consumes its whole pattern and succeeds, or
//! fails with the cursor back at its starting position.

use crate::fields::day_matches;
use crate::fields::day_value;
use crate::fields::hour_matches;
use crate::fields::hour_value;
use crate::fields::min_sec_matches;
use crate::fields::min_sec_value;
use crate::fields::month_matches;
use crate::fields::month_value;
use crate::fields::parse_date;
use crate::fields::parse_hour;
use crate::fields::parse_minute_second;
use crate::fields::parse_month;
use crate::fields::parse_year;
use crate::fields::year_matches;
use crate::fields::year_value;
use crate::model::CalendarDate;
use crate::model::ClockTime;
use crate::model::date_valid;
use crate::model::time_valid;
use vstd::prelude::*;

verus! {

/// The separator set: characters treated as insignificant filler between
/// and around date/time fields.
pub open spec fn is_separator(c: char) -> bool {
    c == 'T' || c == '-' || c == '_' || c == ':' || c == '.' || c == ',' || c == ' ' || c == '\t'
}

/// The cursor after skipping every separator from `pos` onward: the first
/// position at or after `pos` holding a non-separator, or the end.
pub open spec fn skip_separators_at(s: Seq<char>, pos: int) -> int
    decreases s.len() - pos,
{
    if pos < s.len() && is_separator(s[pos]) {
        skip_separators_at(s, pos + 1)
    } else {
        pos
    }
}

/// Skipping separators lands between `pos` and the end, crosses only
/// separators, and stops on a non-separator when it stops inside.
pub proof fn lemma_skip_separators_shape(s: Seq<char>, pos: int)
    requires
        0 <= pos <= s.len(),
    ensures
        pos <= skip_separators_at(s, pos) <= s.len(),
        forall|i: int|
            pos <= i < skip_separators_at(s, pos) ==> is_separator(#[trigger] s[i]),
        skip_separators_at(s, pos) < s.len() ==> !is_separator(s[skip_separators_at(s, pos)]),
    decreases s.len() - pos,
{
    if pos < s.len() && is_separator(s[pos]) {
        lemma_skip_separators_shape(s, pos + 1);
    }
}

/// Conversely, a stretch of separators from `pos` up to a stopping point
/// `k` determines where the skip lands.
pub proof fn lemma_skip_separators_pins(s: Seq<char>, pos: int, k: int)
    requires
        0 <= pos <= k <= s.len(),
        forall|i: int| pos <= i < k ==> is_separator(#[trigger] s[i]),
        k < s.len() ==> !is_separator(s[k]),
    ensures
        skip_separators_at(s, pos) == k,
    decreases k - pos,
{
    if pos < k {
        lemma_skip_separators_pins(s, pos + 1, k);
    }
}

/// A full date match at `pos`: separators, year, separators, month,
/// separators, day.  Yields the cursor one past the day and the date.
pub open spec fn date_match(s: Seq<char>, pos: int) -> Option<(int, CalendarDate)> {
    let p1 = skip_separators_at(s, pos);
    if year_matches(s, p1) {
        let p2 = skip_separators_at(s, p1 + 4);
        if month_matches(s, p2) {
            let p3 = skip_separators_at(s, p2 + 2);
            if day_matches(s, p3) {
                Some(
                    (
                        p3 + 2,
                        CalendarDate {
                            year: year_value(s, p1) as u32,
                            month: month_value(s, p2) as u32,
                            day: day_value(s, p3) as u32,
                        },
                    ),
                )
            } else {
                None
            }
        } else {
            None
        }
    } else {
        None
    }
}

/// A full time match at `pos`: separators, hour, separators, minute,
/// separators, second.
pub open spec fn time_match(s: Seq<char>, pos: int) -> Option<(int, ClockTime)> {
    let p1 = skip_separators_at(s, pos);
    if hour_matches(s, p1) {
        let p2 = skip_separators_at(s, p1 + 2);
        if min_sec_matches(s, p2) {
            let p3 = skip_separators_at(s, p2 + 2);
            if min_sec_matches(s, p3) {
                Some(
                    (
                        p3 + 2,
                        ClockTime {
                            hour: hour_value(s, p1) as u32,
                            minute: min_sec_value(s, p2) as u32,
                            second: min_sec_value(s, p3) as u32,
                        },
                    ),
                )
            } else {
                None
            }
        } else {
            None
        }
    } else {
        None
    }
}

/// A date match always moves the cursor forward, never past the end, and
/// produces a date inside the validators' ranges.
pub proof fn lemma_date_match_shape(s: Seq<char>, pos: int)
    requires
        0 <= pos <= s.len(),
    ensures
        date_match(s, pos) matches Some(m) ==> pos < m.0 <= s.len() && date_valid(m.1),
{
    lemma_skip_separators_shape(s, pos);
    let p1 = skip_separators_at(s, pos);
    if year_matches(s, p1) {
        lemma_skip_separators_shape(s, p1 + 4);
        let p2 = skip_separators_at(s, p1 + 4);
        if month_matches(s, p2) {
            lemma_skip_separators_shape(s, p2 + 2);
        }
    }
}

/// A time match always moves the cursor forward, never past the end, and
/// produces a time inside the validators' ranges.
pub proof fn lemma_time_match_shape(s: Seq<char>, pos: int)
    requires
        0 <= pos <= s.len(),
    ensures
        time_match(s, pos) matches Some(m) ==> pos < m.0 <= s.len() && time_valid(m.1),
{
    lemma_skip_separators_shape(s, pos);
    let p1 = skip_separators_at(s, pos);
    if hour_matches(s, p1) {
        lemma_skip_separators_shape(s, p1 + 2);
        let p2 = skip_separators_at(s, p1 + 2);
        if min_sec_matches(s, p2) {
            lemma_skip_separators_shape(s, p2 + 2);
        }
    }
}

/// A date match only reads the characters it consumes: a match that ends
/// by `q` also matches in the window cut out between `off` and `q`.
pub proof fn lemma_date_match_narrow(s: Seq<char>, off: int, q: int)
    requires
        0 <= off <= q <= s.len(),
    ensures
        (match date_match(s, off) {
            Some((end, d)) => end <= q ==> date_match(s.subrange(off, q), 0) == Some(
                (end - off, d),
            ),
            None => true,
        }),
{
    let sub = s.subrange(off, q);
    if let Some((end, d)) = date_match(s, off) {
        if end <= q {
            let p1 = skip_separators_at(s, off);
            let p2 = skip_separators_at(s, p1 + 4);
            let p3 = skip_separators_at(s, p2 + 2);
            lemma_skip_separators_shape(s, off);
            lemma_skip_separators_shape(s, p1 + 4);
            lemma_skip_separators_shape(s, p2 + 2);
            lemma_skip_separators_pins(sub, 0, p1 - off);
            lemma_skip_separators_pins(sub, p1 - off + 4, p2 - off);
            lemma_skip_separators_pins(sub, p2 - off + 2, p3 - off);
            assert(year_value(sub, p1 - off) == year_value(s, p1));
            assert(month_value(sub, p2 - off) == month_value(s, p2));
            assert(day_value(sub, p3 - off) == day_value(s, p3));
        }
    }
}

/// The converse: a date match inside a window is a date match of the
/// whole string at the window's start.
pub proof fn lemma_date_match_widen(s: Seq<char>, off: int, q: int)
    requires
        0 <= off <= q <= s.len(),
    ensures
        (match date_match(s.subrange(off, q), 0) {
            Some((end, d)) => date_match(s, off) == Some((off + end, d)),
            None => true,
        }),
{
    let sub = s.subrange(off, q);
    if let Some((end, d)) = date_match(sub, 0) {
        let p1 = skip_separators_at(sub, 0);
        let p2 = skip_separators_at(sub, p1 + 4);
        let p3 = skip_separators_at(sub, p2 + 2);
        lemma_skip_separators_shape(sub, 0);
        lemma_skip_separators_shape(sub, p1 + 4);
        lemma_skip_separators_shape(sub, p2 + 2);
        assert forall|i: int| off <= i < off + p1 implies is_separator(#[trigger] s[i]) by {
            assert(sub[i - off] == s[i]);
        }
        assert forall|i: int| off + p1 + 4 <= i < off + p2 implies is_separator(
            #[trigger] s[i],
        ) by {
            assert(sub[i - off] == s[i]);
        }
        assert forall|i: int| off + p2 + 2 <= i < off + p3 implies is_separator(
            #[trigger] s[i],
        ) by {
            assert(sub[i - off] == s[i]);
        }
        lemma_skip_separators_pins(s, off, off + p1);
        lemma_skip_separators_pins(s, off + p1 + 4, off + p2);
        lemma_skip_separators_pins(s, off + p2 + 2, off + p3);
        assert(year_value(s, off + p1) == year_value(sub, p1));
        assert(month_value(s, off + p2) == month_value(sub, p2));
        assert(day_value(s, off + p3) == day_value(sub, p3));
    }
}

/// A time match only reads the characters it consumes.
pub proof fn lemma_time_match_narrow(s: Seq<char>, off: int, q: int)
    requires
        0 <= off <= q <= s.len(),
    ensures
        (match time_match(s, off) {
            Some((end, t)) => end <= q ==> time_match(s.subrange(off, q), 0) == Some(
                (end - off, t),
            ),
            None => true,
        }),
{
    let sub = s.subrange(off, q);
    if let Some((end, t)) = time_match(s, off) {
        if end <= q {
            let p1 = skip_separators_at(s, off);
            let p2 = skip_separators_at(s, p1 + 2);
            let p3 = skip_separators_at(s, p2 + 2);
            lemma_skip_separators_shape(s, off);
            lemma_skip_separators_shape(s, p1 + 2);
            lemma_skip_separators_shape(s, p2 + 2);
            lemma_skip_separators_pins(sub, 0, p1 - off);
            lemma_skip_separators_pins(sub, p1 - off + 2, p2 - off);
            lemma_skip_separators_pins(sub, p2 - off + 2, p3 - off);
            assert(hour_value(sub, p1 - off) == hour_value(s, p1));
            assert(min_sec_value(sub, p2 - off) == min_sec_value(s, p2));
            assert(min_sec_value(sub, p3 - off) == min_sec_value(s, p3));
        }
    }
}

/// The converse: a time match inside a window is a time match of the
/// whole string at the window's start.
pub proof fn lemma_time_match_widen(s: Seq<char>, off: int, q: int)
    requires
        0 <= off <= q <= s.len(),
    ensures
        (match time_match(s.subrange(off, q), 0) {
            Some((end, t)) => time_match(s, off) == Some((off + end, t)),
            None => true,
        }),
{
    let sub = s.subrange(off, q);
    if let Some((end, t)) = time_match(sub, 0) {
        let p1 = skip_separators_at(sub, 0);
        let p2 = skip_separators_at(sub, p1 + 2);
        let p3 = skip_separators_at(sub, p2 + 2);
        lemma_skip_separators_shape(sub, 0);
        lemma_skip_separators_shape(sub, p1 + 2);
        lemma_skip_separators_shape(sub, p2 + 2);
        assert forall|i: int| off <= i < off + p1 implies is_separator(#[trigger] s[i]) by {
            assert(sub[i - off] == s[i]);
        }
        assert forall|i: int| off + p1 + 2 <= i < off + p2 implies is_separator(
            #[trigger] s[i],
        ) by {
            assert(sub[i - off] == s[i]);
        }
        assert forall|i: int| off + p2 + 2 <= i < off + p3 implies is_separator(
            #[trigger] s[i],
        ) by {
            assert(sub[i - off] == s[i]);
        }
        lemma_skip_separators_pins(s, off, off + p1);
        lemma_skip_separators_pins(s, off + p1 + 2, off + p2);
        lemma_skip_separators_pins(s, off + p2 + 2, off + p3);
        assert(hour_value(s, off + p1) == hour_value(sub, p1));
        assert(min_sec_value(s, off + p2) == min_sec_value(sub, p2));
        assert(min_sec_value(s, off + p3) == min_sec_value(sub, p3));
    }
}

/// Executable separator test.
pub fn is_separator_char(c: char) -> (r: bool)
    ensures
        r == is_separator(c),
{
    c == 'T' || c == '-' || c == '_' || c == ':' || c == '.' || c == ',' || c == ' ' || c == '\t'
}

/// Advances the cursor past every separator character.
pub fn skip_separators(s: &str, pos: usize) -> (r: usize)
    requires
        pos <= s@.len(),
    ensures
        r == skip_separators_at(s@, pos as int),
        pos <= r <= s@.len(),
{
    let n = s.unicode_len();
    let mut p = pos;
    while p < n && is_separator_char(s.get_char(p))
        invariant
            pos <= p <= n,
            n == s@.len(),
            skip_separators_at(s@, pos as int) == skip_separators_at(s@, p as int),
        decreases n - p,
    {
        p = p + 1;
    }
    proof {
        lemma_skip_separators_shape(s@, pos as int);
    }
    p
}

/// The calendar-date matcher.  On success the returned cursor sits one
/// past the day field; on failure nothing is consumed.
pub fn parse_calendar_date(s: &str, pos: usize) -> (r: Option<(usize, CalendarDate)>)
    requires
        pos <= s@.len(),
    ensures
        r is Some <==> date_match(s@, pos as int) is Some,
        r matches Some(m) ==> date_match(s@, pos as int) == Some((m.0 as int, m.1)),
        r matches Some(m) ==> pos < m.0 <= s@.len() && date_valid(m.1),
{
    proof {
        lemma_date_match_shape(s@, pos as int);
    }
    let p1 = skip_separators(s, pos);
    let (p1b, year) = match parse_year(s, p1) {
        Some(m) => m,
        None => { return None; },
    };
    let p2 = skip_separators(s, p1b);
    let (p2b, month) = match parse_month(s, p2) {
        Some(m) => m,
        None => { return None; },
    };
    let p3 = skip_separators(s, p2b);
    let (p3b, day) = match parse_date(s, p3) {
        Some(m) => m,
        None => { return None; },
    };
    Some((p3b, CalendarDate { year, month, day }))
}

/// The clock-time matcher, the mirror image of the date matcher.
pub fn parse_time(s: &str, pos: usize) -> (r: Option<(usize, ClockTime)>)
    requires
        pos <= s@.len(),
    ensures
        r is Some <==> time_match(s@, pos as int) is Some,
        r matches Some(m) ==> time_match(s@, pos as int) == Some((m.0 as int, m.1)),
        r matches Some(m) ==> pos < m.0 <= s@.len() && time_valid(m.1),
{
    proof {
        lemma_time_match_shape(s@, pos as int);
    }
    let p1 = skip_separators(s, pos);
    let (p1b, hour) = match parse_hour(s, p1) {
        Some(m) => m,
        None => { return None; },
    };
    let p2 = skip_separators(s, p1b);
    let (p2b, minute) = match parse_minute_second(s, p2) {
        Some(m) => m,
        None => { return None; },
    };
    let p3 = skip_separators(s, p2b);
    let (p3b, second) = match parse_minute_second(s, p3) {
        Some(m) => m,
        None => { return None; },
    };
    Some((p3b, ClockTime { hour, minute, second }))
}

} // verus!
