//! The scanning assembler and the timestamp synthesizer.
//!
//! One left-to-right pass: at each cursor position try the date matcher,
//! then the time matcher, then consume a single filler character.  Each
//! successful match overwrites the slot for its kind, so the last match of
//! each kind wins.  The synthesizer fills the slots that never matched
//! with fixed defaults.

use crate::matchers::date_match;
use crate::matchers::lemma_date_match_narrow;
use crate::matchers::lemma_date_match_shape;
use crate::matchers::lemma_date_match_widen;
use crate::matchers::lemma_time_match_narrow;
use crate::matchers::lemma_time_match_shape;
use crate::matchers::lemma_time_match_widen;
use crate::matchers::parse_calendar_date;
use crate::matchers::parse_time;
use crate::matchers::time_match;
use crate::model::CalendarDate;
use crate::model::ClockTime;
use crate::model::ScanState;
use crate::model::Timestamp;
use crate::model::date_valid;
use crate::model::default_date;
use crate::model::default_time;
use crate::model::spec_default_date;
use crate::model::spec_default_time;
use crate::model::time_valid;
use crate::model::timestamp_valid;
use vstd::prelude::*;

verus! {

/// The scan result for the suffix of `s` that starts at `pos`: the last
/// date match and the last time match among the attempts the scan makes
/// from `pos` to the end.  A match found further right shadows one found
/// at `pos`; a slot the suffix never fills stays `None`.
pub open spec fn scan_from(s: Seq<char>, pos: int) -> ScanState
    decreases s.len() - pos,
        when 0 <= pos <= s.len()
        via scan_from_decreases
{
    if pos >= s.len() {
        ScanState { last_date: None, last_time: None }
    } else {
        match date_match(s, pos) {
            Some((end, d)) => {
                let tail = scan_from(s, end);
                ScanState {
                    last_date: if tail.last_date is Some {
                        tail.last_date
                    } else {
                        Some(d)
                    },
                    last_time: tail.last_time,
                }
            },
            None => match time_match(s, pos) {
                Some((end, t)) => {
                    let tail = scan_from(s, end);
                    ScanState {
                        last_date: tail.last_date,
                        last_time: if tail.last_time is Some {
                            tail.last_time
                        } else {
                            Some(t)
                        },
                    }
                },
                None => scan_from(s, pos + 1),
            },
        }
    }
}

#[via_fn]
proof fn scan_from_decreases(s: Seq<char>, pos: int) {
    if pos < s.len() {
        lemma_date_match_shape(s, pos);
        lemma_time_match_shape(s, pos);
    }
}

/// Folding a later accumulator over an earlier one: the later slot wins
/// wherever it is filled.
pub open spec fn shadow(tail: ScanState, acc: ScanState) -> ScanState {
    ScanState {
        last_date: if tail.last_date is Some {
            tail.last_date
        } else {
            acc.last_date
        },
        last_time: if tail.last_time is Some {
            tail.last_time
        } else {
            acc.last_time
        },
    }
}

/// The timestamp synthesized from a finished scan: matched components are
/// kept, missing ones fall back to the defaults.
pub open spec fn spec_synthesize(st: ScanState) -> Timestamp {
    Timestamp {
        date: match st.last_date {
            Some(d) => d,
            None => spec_default_date(),
        },
        time: match st.last_time {
            Some(t) => t,
            None => spec_default_time(),
        },
    }
}

/// The timestamp a whole name scans to.
pub open spec fn timestamp_of(s: Seq<char>) -> Timestamp {
    spec_synthesize(scan_from(s, 0))
}

/// Re-scanning just the text a date match consumed, in isolation, yields
/// exactly that date and no time: embedding a date in surrounding junk
/// does not change what its own characters scan to.
pub proof fn lemma_rescan_date(s: Seq<char>, pos: int)
    requires
        0 <= pos <= s.len(),
    ensures
        (match date_match(s, pos) {
            Some((end, d)) => timestamp_of(s.subrange(pos, end)) == (Timestamp {
                date: d,
                time: spec_default_time(),
            }),
            None => true,
        }),
{
    if let Some((end, d)) = date_match(s, pos) {
        lemma_date_match_shape(s, pos);
        lemma_date_match_narrow(s, pos, end);
        let sub = s.subrange(pos, end);
        assert(date_match(sub, 0) == Some((sub.len() as int, d)));
        assert(scan_from(sub, sub.len() as int) == (ScanState {
            last_date: None,
            last_time: None,
        }));
        assert(scan_from(sub, 0) == (ScanState { last_date: Some(d), last_time: None }));
    }
}

/// The time-match counterpart: re-scanning the consumed text alone yields
/// that time and the default date.  The scan tries the date matcher
/// first, so the statement carries the assembler's own side condition
/// that no date match stood at the position.
pub proof fn lemma_rescan_time(s: Seq<char>, pos: int)
    requires
        0 <= pos <= s.len(),
        date_match(s, pos) is None,
    ensures
        (match time_match(s, pos) {
            Some((end, t)) => timestamp_of(s.subrange(pos, end)) == (Timestamp {
                date: spec_default_date(),
                time: t,
            }),
            None => true,
        }),
{
    if let Some((end, t)) = time_match(s, pos) {
        lemma_time_match_shape(s, pos);
        lemma_time_match_narrow(s, pos, end);
        let sub = s.subrange(pos, end);
        assert(time_match(sub, 0) == Some((sub.len() as int, t)));
        lemma_date_match_widen(s, pos, end);
        assert(date_match(sub, 0) is None);
        assert(scan_from(sub, sub.len() as int) == (ScanState {
            last_date: None,
            last_time: None,
        }));
        assert(scan_from(sub, 0) == (ScanState { last_date: None, last_time: Some(t) }));
    }
}

/// Every component a scan ever records lies inside the validators'
/// ranges: the slots only ever hold dates and times built by a match.
pub proof fn lemma_scan_state_valid(s: Seq<char>, pos: int)
    requires
        0 <= pos <= s.len(),
    ensures
        (match scan_from(s, pos).last_date {
            Some(d) => date_valid(d),
            None => true,
        }),
        (match scan_from(s, pos).last_time {
            Some(t) => time_valid(t),
            None => true,
        }),
    decreases s.len() - pos,
{
    if pos < s.len() {
        lemma_date_match_shape(s, pos);
        lemma_time_match_shape(s, pos);
        if let Some((end, d)) = date_match(s, pos) {
            lemma_scan_state_valid(s, end);
        } else if let Some((end, t)) = time_match(s, pos) {
            lemma_scan_state_valid(s, end);
        } else {
            lemma_scan_state_valid(s, pos + 1);
        }
    }
}

/// Where one scan step moves the cursor from `pos`: past a date match,
/// else past a time match, else one filler character ahead.
pub open spec fn scan_step(s: Seq<char>, pos: int) -> int {
    match date_match(s, pos) {
        Some((end, d)) => end,
        None => match time_match(s, pos) {
            Some((end, t)) => end,
            None => pos + 1,
        },
    }
}

/// Whether the scan pass over `s`, started at `pos`, ever puts its cursor
/// on `q`.
pub open spec fn scan_visits(s: Seq<char>, pos: int, q: int) -> bool
    decreases s.len() - pos,
        when 0 <= pos <= s.len()
        via scan_visits_decreases
{
    pos == q || (pos < s.len() && scan_visits(s, scan_step(s, pos), q))
}

#[via_fn]
proof fn scan_visits_decreases(s: Seq<char>, pos: int, q: int) {
    if pos < s.len() {
        lemma_date_match_shape(s, pos);
        lemma_time_match_shape(s, pos);
    }
}

/// A date slot filled by the rest of the scan shadows everything found
/// earlier: the scan's date from `pos` equals its date from any later
/// visited position `q`, whenever the suffix from `q` still finds a date.
pub proof fn lemma_scan_date_shadows(s: Seq<char>, pos: int, q: int)
    requires
        0 <= pos <= s.len(),
        0 <= q <= s.len(),
        scan_visits(s, pos, q),
        scan_from(s, q).last_date is Some,
    ensures
        scan_from(s, pos).last_date == scan_from(s, q).last_date,
    decreases s.len() - pos,
{
    if pos != q {
        lemma_date_match_shape(s, pos);
        lemma_time_match_shape(s, pos);
        lemma_scan_date_shadows(s, scan_step(s, pos), q);
    }
}

/// The time slot behaves the same way: the scan's time from `pos` equals
/// its time from any later visited position `q` whose suffix still finds
/// a time.
pub proof fn lemma_scan_time_shadows(s: Seq<char>, pos: int, q: int)
    requires
        0 <= pos <= s.len(),
        0 <= q <= s.len(),
        scan_visits(s, pos, q),
        scan_from(s, q).last_time is Some,
    ensures
        scan_from(s, pos).last_time == scan_from(s, q).last_time,
    decreases s.len() - pos,
{
    if pos != q {
        lemma_date_match_shape(s, pos);
        lemma_time_match_shape(s, pos);
        lemma_scan_time_shadows(s, scan_step(s, pos), q);
    }
}

/// Last match wins: whatever text stands before it, a date that the scan
/// reaches and that runs to the end of the name decides the synthesized
/// date, discarding every date matched earlier.
pub proof fn lemma_last_match_wins(prefix: Seq<char>, tail: Seq<char>)
    requires
        date_match(tail, 0) matches Some(m) && m.0 == tail.len(),
        scan_visits(prefix + tail, 0, prefix.len() as int),
    ensures
        (match date_match(tail, 0) {
            Some((end, d)) => timestamp_of(prefix + tail).date == d,
            None => true,
        }),
{
    let s = prefix + tail;
    let n0 = prefix.len() as int;
    if let Some((end, d)) = date_match(tail, 0) {
        assert(s.subrange(n0, s.len() as int) =~= tail);
        lemma_date_match_widen(s, n0, s.len() as int);
        assert(date_match(s, n0) == Some((s.len() as int, d)));
        assert(scan_from(s, s.len() as int) == (ScanState { last_date: None, last_time: None }));
        assert(scan_from(s, n0).last_date == Some(d));
        lemma_scan_date_shadows(s, 0, n0);
    }
}

/// The time counterpart of last-match-wins: a time that the scan reaches
/// and that runs to the end of the name decides the synthesized time,
/// provided no date match stands at that position to pre-empt it.
pub proof fn lemma_last_time_match_wins(prefix: Seq<char>, tail: Seq<char>)
    requires
        time_match(tail, 0) matches Some(m) && m.0 == tail.len(),
        date_match(prefix + tail, prefix.len() as int) is None,
        scan_visits(prefix + tail, 0, prefix.len() as int),
    ensures
        (match time_match(tail, 0) {
            Some((end, t)) => timestamp_of(prefix + tail).time == t,
            None => true,
        }),
{
    let s = prefix + tail;
    let n0 = prefix.len() as int;
    if let Some((end, t)) = time_match(tail, 0) {
        assert(s.subrange(n0, s.len() as int) =~= tail);
        lemma_time_match_widen(s, n0, s.len() as int);
        assert(time_match(s, n0) == Some((s.len() as int, t)));
        assert(scan_from(s, s.len() as int) == (ScanState { last_date: None, last_time: None }));
        assert(scan_from(s, n0).last_time == Some(t));
        lemma_scan_time_shadows(s, 0, n0);
    }
}

/// Runs the scan over the whole string.
pub fn scan_name(s: &str) -> (st: ScanState)
    ensures
        st == scan_from(s@, 0),
{
    let n = s.unicode_len();
    let mut pos: usize = 0;
    let mut last_date: Option<CalendarDate> = None;
    let mut last_time: Option<ClockTime> = None;
    while pos < n
        invariant
            pos <= n,
            n == s@.len(),
            scan_from(s@, 0) == shadow(
                scan_from(s@, pos as int),
                ScanState { last_date, last_time },
            ),
        decreases n - pos,
    {
        if let Some((end, d)) = parse_calendar_date(s, pos) {
            last_date = Some(d);
            pos = end;
        } else if let Some((end, t)) = parse_time(s, pos) {
            last_time = Some(t);
            pos = end;
        } else {
            pos = pos + 1;
        }
    }
    ScanState { last_date, last_time }
}

/// Synthesizes the final timestamp from a finished scan state.
pub fn synthesize(st: ScanState) -> (ts: Timestamp)
    ensures
        ts == spec_synthesize(st),
{
    let date = match st.last_date {
        Some(d) => d,
        None => default_date(),
    };
    let time = match st.last_time {
        Some(t) => t,
        None => default_time(),
    };
    Timestamp { date, time }
}

/// The whole pipeline on one name: scan, then synthesize.  Fails exactly
/// on empty input, where not even the one-character filler step can move.
pub fn parse_file_internal(name: &str) -> (r: Option<Timestamp>)
    ensures
        r is Some <==> name@.len() > 0,
        r matches Some(ts) ==> ts == timestamp_of(name@) && timestamp_valid(ts),
{
    if name.unicode_len() == 0 {
        None
    } else {
        proof {
            lemma_scan_state_valid(name@, 0);
        }
        let st = scan_name(name);
        Some(synthesize(st))
    }
}

/// The boundary entry point: a non-empty name always yields the timestamp
/// its scan synthesizes; the empty string is the one rejected input.
pub fn parse_file_name(name: &str) -> (r: Result<Timestamp, String>)
    ensures
        r is Ok <==> name@.len() > 0,
        r matches Ok(ts) ==> ts == timestamp_of(name@) && timestamp_valid(ts),
{
    match parse_file_internal(name) {
        Some(ts) => Ok(ts),
        None => Err("parse error: empty input".to_owned()),
    }
}

} // verus!
