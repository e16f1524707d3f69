//! The digit-field validators: fixed-width numeric recognizers, one per
//! timestamp field.  Each one reads a fixed number of characters at a
//! cursor position and either succeeds with the field value and the new
//! cursor, or fails having consumed nothing.

use crate::model::day_in_pattern;
use vstd::prelude::*;

verus! {

pub open spec fn is_digit(c: char) -> bool {
    '0' <= c && c <= '9'
}

/// The numeric value of a decimal digit character.
pub open spec fn digit_val(c: char) -> int {
    c as int - '0' as int
}

/// A year match: `2`, then `0` or `1`, then two digits — exactly the
/// four-digit numbers 2000 through 2199.
pub open spec fn year_matches(s: Seq<char>, pos: int) -> bool {
    &&& pos + 4 <= s.len()
    &&& s[pos] == '2'
    &&& (s[pos + 1] == '0' || s[pos + 1] == '1')
    &&& is_digit(s[pos + 2])
    &&& is_digit(s[pos + 3])
}

pub open spec fn year_value(s: Seq<char>, pos: int) -> int {
    2000 + 100 * digit_val(s[pos + 1]) + 10 * digit_val(s[pos + 2]) + digit_val(s[pos + 3])
}

/// A month match: `0` followed by any digit (00–09), or `1` followed by
/// `0`, `1` or `2` (10–12).
pub open spec fn month_matches(s: Seq<char>, pos: int) -> bool {
    &&& pos + 2 <= s.len()
    &&& {
        ||| (s[pos] == '0' && is_digit(s[pos + 1]))
        ||| (s[pos] == '1' && (s[pos + 1] == '0' || s[pos + 1] == '1' || s[pos + 1] == '2'))
    }
}

pub open spec fn month_value(s: Seq<char>, pos: int) -> int {
    10 * digit_val(s[pos]) + digit_val(s[pos + 1])
}

/// A day-of-month match: `0`, `1` or `2` followed by a nonzero digit
/// (01–09, 11–19, 21–29), or `3` followed by `0` or `1` (30, 31).
/// `10` and `20` are deliberately not matched: the rule is a digit
/// pattern, kept exactly as the scanner has always behaved.
pub open spec fn day_matches(s: Seq<char>, pos: int) -> bool {
    &&& pos + 2 <= s.len()
    &&& {
        ||| ((s[pos] == '0' || s[pos] == '1' || s[pos] == '2') && '1' <= s[pos + 1] && s[pos + 1]
            <= '9')
        ||| (s[pos] == '3' && (s[pos + 1] == '0' || s[pos + 1] == '1'))
    }
}

pub open spec fn day_value(s: Seq<char>, pos: int) -> int {
    10 * digit_val(s[pos]) + digit_val(s[pos + 1])
}

/// An hour match: `0` or `1` followed by any digit (00–19), or `2`
/// followed by `0`–`3` (20–23).
pub open spec fn hour_matches(s: Seq<char>, pos: int) -> bool {
    &&& pos + 2 <= s.len()
    &&& {
        ||| ((s[pos] == '0' || s[pos] == '1') && is_digit(s[pos + 1]))
        ||| (s[pos] == '2' && (s[pos + 1] == '0' || s[pos + 1] == '1' || s[pos + 1] == '2' || s[pos
            + 1] == '3'))
    }
}

pub open spec fn hour_value(s: Seq<char>, pos: int) -> int {
    10 * digit_val(s[pos]) + digit_val(s[pos + 1])
}

/// A minute or second match: `0`–`5` followed by any digit (00–59).
pub open spec fn min_sec_matches(s: Seq<char>, pos: int) -> bool {
    &&& pos + 2 <= s.len()
    &&& '0' <= s[pos] && s[pos] <= '5'
    &&& is_digit(s[pos + 1])
}

pub open spec fn min_sec_value(s: Seq<char>, pos: int) -> int {
    10 * digit_val(s[pos]) + digit_val(s[pos + 1])
}

/// Of four digit characters, the year validator accepts exactly the
/// numbers 2000 through 2199, and its value is that number.
pub proof fn lemma_year_accepts_exactly(s: Seq<char>, pos: int)
    requires
        0 <= pos,
        pos + 4 <= s.len(),
        is_digit(s[pos]),
        is_digit(s[pos + 1]),
        is_digit(s[pos + 2]),
        is_digit(s[pos + 3]),
    ensures
        year_matches(s, pos) <==> 2000 <= 1000 * digit_val(s[pos]) + 100 * digit_val(s[pos + 1])
            + 10 * digit_val(s[pos + 2]) + digit_val(s[pos + 3]) <= 2199,
        year_matches(s, pos) ==> year_value(s, pos) == 1000 * digit_val(s[pos]) + 100 * digit_val(
            s[pos + 1],
        ) + 10 * digit_val(s[pos + 2]) + digit_val(s[pos + 3]),
{
}

/// Of two digit characters, the hour validator accepts exactly the
/// numbers 00 through 23, and its value is that number.
pub proof fn lemma_hour_accepts_exactly(s: Seq<char>, pos: int)
    requires
        0 <= pos,
        pos + 2 <= s.len(),
        is_digit(s[pos]),
        is_digit(s[pos + 1]),
    ensures
        hour_matches(s, pos) <==> 10 * digit_val(s[pos]) + digit_val(s[pos + 1]) <= 23,
        hour_matches(s, pos) ==> hour_value(s, pos) == 10 * digit_val(s[pos]) + digit_val(
            s[pos + 1],
        ),
{
}

/// Of two digit characters, the day validator accepts exactly the quirk
/// set 01–09, 11–19, 21–29, 30, 31 — so 00, 10, 20 and 32–99 are
/// rejected — and its value is the two-digit number.
pub proof fn lemma_day_accepts_exactly(s: Seq<char>, pos: int)
    requires
        0 <= pos,
        pos + 2 <= s.len(),
        is_digit(s[pos]),
        is_digit(s[pos + 1]),
    ensures
        day_matches(s, pos) <==> day_in_pattern(10 * digit_val(s[pos]) + digit_val(s[pos + 1])),
        day_matches(s, pos) ==> day_value(s, pos) == 10 * digit_val(s[pos]) + digit_val(
            s[pos + 1],
        ),
{
}

/// The numeric value of a digit character, executable form.
fn digit_of(c: char) -> (v: u32)
    requires
        is_digit(c),
    ensures
        v == digit_val(c),
        v <= 9,
{
    c as u32 - 48
}

/// Year validator: reads four characters at `pos`.
pub fn parse_year(s: &str, pos: usize) -> (r: Option<(usize, u32)>)
    requires
        pos <= s@.len(),
    ensures
        r is Some <==> year_matches(s@, pos as int),
        r matches Some(p) ==> p.0 == pos + 4 && p.1 == year_value(s@, pos as int) && 2000 <= p.1
            <= 2199,
{
    let n = s.unicode_len();
    if n - pos < 4 {
        return None;
    }
    let c1 = s.get_char(pos);
    let c2 = s.get_char(pos + 1);
    let c3 = s.get_char(pos + 2);
    let c4 = s.get_char(pos + 3);
    if c1 == '2' && (c2 == '0' || c2 == '1') && '0' <= c3 && c3 <= '9' && '0' <= c4 && c4 <= '9' {
        let v = 2000 + 100 * digit_of(c2) + 10 * digit_of(c3) + digit_of(c4);
        Some((pos + 4, v))
    } else {
        None
    }
}

/// Month validator: reads two characters at `pos`.
pub fn parse_month(s: &str, pos: usize) -> (r: Option<(usize, u32)>)
    requires
        pos <= s@.len(),
    ensures
        r is Some <==> month_matches(s@, pos as int),
        r matches Some(p) ==> p.0 == pos + 2 && p.1 == month_value(s@, pos as int) && p.1 <= 12,
{
    let n = s.unicode_len();
    if n - pos < 2 {
        return None;
    }
    let c1 = s.get_char(pos);
    let c2 = s.get_char(pos + 1);
    if (c1 == '0' && '0' <= c2 && c2 <= '9') || (c1 == '1' && (c2 == '0' || c2 == '1' || c2 == '2'))
    {
        Some((pos + 2, 10 * digit_of(c1) + digit_of(c2)))
    } else {
        None
    }
}

/// Day validator: reads two characters at `pos`.  Named after the field it
/// recognizes in a date pattern, not after calendar dates as a whole.
pub fn parse_date(s: &str, pos: usize) -> (r: Option<(usize, u32)>)
    requires
        pos <= s@.len(),
    ensures
        r is Some <==> day_matches(s@, pos as int),
        r matches Some(p) ==> p.0 == pos + 2 && p.1 == day_value(s@, pos as int) && day_in_pattern(
            p.1 as int,
        ),
{
    let n = s.unicode_len();
    if n - pos < 2 {
        return None;
    }
    let c1 = s.get_char(pos);
    let c2 = s.get_char(pos + 1);
    if ((c1 == '0' || c1 == '1' || c1 == '2') && '1' <= c2 && c2 <= '9') || (c1 == '3' && (c2 == '0'
        || c2 == '1')) {
        Some((pos + 2, 10 * digit_of(c1) + digit_of(c2)))
    } else {
        None
    }
}

/// Hour validator: reads two characters at `pos`.
pub fn parse_hour(s: &str, pos: usize) -> (r: Option<(usize, u32)>)
    requires
        pos <= s@.len(),
    ensures
        r is Some <==> hour_matches(s@, pos as int),
        r matches Some(p) ==> p.0 == pos + 2 && p.1 == hour_value(s@, pos as int) && p.1 <= 23,
{
    let n = s.unicode_len();
    if n - pos < 2 {
        return None;
    }
    let c1 = s.get_char(pos);
    let c2 = s.get_char(pos + 1);
    if ((c1 == '0' || c1 == '1') && '0' <= c2 && c2 <= '9') || (c1 == '2' && (c2 == '0' || c2 == '1'
        || c2 == '2' || c2 == '3')) {
        Some((pos + 2, 10 * digit_of(c1) + digit_of(c2)))
    } else {
        None
    }
}

/// Minute/second validator: reads two characters at `pos`.
pub fn parse_minute_second(s: &str, pos: usize) -> (r: Option<(usize, u32)>)
    requires
        pos <= s@.len(),
    ensures
        r is Some <==> min_sec_matches(s@, pos as int),
        r matches Some(p) ==> p.0 == pos + 2 && p.1 == min_sec_value(s@, pos as int) && p.1 <= 59,
{
    let n = s.unicode_len();
    if n - pos < 2 {
        return None;
    }
    let c1 = s.get_char(pos);
    let c2 = s.get_char(pos + 1);
    if '0' <= c1 && c1 <= '5' && '0' <= c2 && c2 <= '9' {
        Some((pos + 2, 10 * digit_of(c1) + digit_of(c2)))
    } else {
        None
    }
}

} // verus!
