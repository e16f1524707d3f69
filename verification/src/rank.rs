//! The ranking layer: pairs each name with its synthesized timestamp and
//! orders the pairs, timestamp-major and name-minor, so a caller can sort
//! ascending or pick the highest-ranked entry.

use crate::model::Timestamp;
use crate::scan::scan_name;
use crate::scan::synthesize;
use crate::scan::timestamp_of;
use vstd::prelude::*;

verus! {

/// One ranked item: a name and the timestamp scanned out of it.
#[derive(Debug, Clone)]
pub struct Entry {
    pub name: String,
    pub timestamp: Timestamp,
}

/// Strict timestamp order: date-major, time-minor, each component in turn.
pub open spec fn ts_lt(a: Timestamp, b: Timestamp) -> bool {
    if a.date.year != b.date.year {
        a.date.year < b.date.year
    } else if a.date.month != b.date.month {
        a.date.month < b.date.month
    } else if a.date.day != b.date.day {
        a.date.day < b.date.day
    } else if a.time.hour != b.time.hour {
        a.time.hour < b.time.hour
    } else if a.time.minute != b.time.minute {
        a.time.minute < b.time.minute
    } else {
        a.time.second < b.time.second
    }
}

/// Lexicographic order on character sequences, by code point.
pub open spec fn seq_lex_le(a: Seq<char>, b: Seq<char>) -> bool
    decreases a.len(),
{
    if a.len() == 0 {
        true
    } else if b.len() == 0 {
        false
    } else if a[0] != b[0] {
        a[0] < b[0]
    } else {
        seq_lex_le(a.skip(1), b.skip(1))
    }
}

/// The total order entries are ranked by: timestamp ascending, ties broken
/// by name ascending.
pub open spec fn entry_le(a: Entry, b: Entry) -> bool {
    ts_lt(a.timestamp, b.timestamp) || (a.timestamp == b.timestamp && seq_lex_le(
        a.name@,
        b.name@,
    ))
}

/// Ascending order over a whole sequence of entries.
pub open spec fn sorted_by_rank(s: Seq<Entry>) -> bool {
    forall|i: int, j: int| 0 <= i < j < s.len() ==> entry_le(#[trigger] s[i], #[trigger] s[j])
}

pub proof fn lemma_lex_le_total(a: Seq<char>, b: Seq<char>)
    ensures
        seq_lex_le(a, b) || seq_lex_le(b, a),
    decreases a.len(),
{
    if a.len() > 0 && b.len() > 0 && a[0] == b[0] {
        lemma_lex_le_total(a.skip(1), b.skip(1));
    }
}

pub proof fn lemma_lex_le_trans(a: Seq<char>, b: Seq<char>, c: Seq<char>)
    requires
        seq_lex_le(a, b),
        seq_lex_le(b, c),
    ensures
        seq_lex_le(a, c),
    decreases a.len(),
{
    if a.len() > 0 && b.len() > 0 && c.len() > 0 && a[0] == b[0] && b[0] == c[0] {
        lemma_lex_le_trans(a.skip(1), b.skip(1), c.skip(1));
    }
}

/// The ranking order is total: of any two entries, one ranks at or below
/// the other.
pub proof fn lemma_entry_le_total(a: Entry, b: Entry)
    ensures
        entry_le(a, b) || entry_le(b, a),
{
    if !ts_lt(a.timestamp, b.timestamp) && !ts_lt(b.timestamp, a.timestamp) {
        assert(a.timestamp == b.timestamp);
        lemma_lex_le_total(a.name@, b.name@);
    }
}

/// The ranking order is transitive.
pub proof fn lemma_entry_le_trans(a: Entry, b: Entry, c: Entry)
    requires
        entry_le(a, b),
        entry_le(b, c),
    ensures
        entry_le(a, c),
{
    if a.timestamp == b.timestamp && b.timestamp == c.timestamp {
        lemma_lex_le_trans(a.name@, b.name@, c.name@);
    }
}

/// Lexicographic comparison of two strings, character by character.
pub fn str_lex_le(a: &str, b: &str) -> (r: bool)
    ensures
        r == seq_lex_le(a@, b@),
{
    let an = a.unicode_len();
    let bn = b.unicode_len();
    proof {
        assert(a@.skip(0) =~= a@);
        assert(b@.skip(0) =~= b@);
    }
    let mut i: usize = 0;
    while i < an && i < bn
        invariant
            i <= an,
            i <= bn,
            an == a@.len(),
            bn == b@.len(),
            seq_lex_le(a@, b@) == seq_lex_le(a@.skip(i as int), b@.skip(i as int)),
        decreases an - i,
    {
        let ca = a.get_char(i);
        let cb = b.get_char(i);
        if ca != cb {
            return ca < cb;
        }
        proof {
            assert(a@.skip(i as int).skip(1) =~= a@.skip(i + 1));
            assert(b@.skip(i as int).skip(1) =~= b@.skip(i + 1));
        }
        i = i + 1;
    }
    an <= bn
}

/// Strict timestamp comparison, the executable form of [`ts_lt`].
pub fn timestamp_lt(a: &Timestamp, b: &Timestamp) -> (r: bool)
    ensures
        r == ts_lt(*a, *b),
{
    if a.date.year != b.date.year {
        a.date.year < b.date.year
    } else if a.date.month != b.date.month {
        a.date.month < b.date.month
    } else if a.date.day != b.date.day {
        a.date.day < b.date.day
    } else if a.time.hour != b.time.hour {
        a.time.hour < b.time.hour
    } else if a.time.minute != b.time.minute {
        a.time.minute < b.time.minute
    } else {
        a.time.second < b.time.second
    }
}

impl Entry {
    /// Whether `self` ranks at or below `other`.
    pub fn ranks_le(&self, other: &Entry) -> (r: bool)
        ensures
            r == entry_le(*self, *other),
    {
        if timestamp_lt(&self.timestamp, &other.timestamp) {
            true
        } else if self.timestamp == other.timestamp {
            str_lex_le(self.name.as_str(), other.name.as_str())
        } else {
            false
        }
    }
}

/// Sorts the entries ascending by rank.  The result holds exactly the
/// entries it was given, reordered.
pub fn sort_entries(v: &mut Vec<Entry>)
    ensures
        sorted_by_rank(final(v)@),
        final(v)@.to_multiset() == old(v)@.to_multiset(),
{
    broadcast use vstd::seq_lib::group_to_multiset_ensures;

    if v.len() < 2 {
        return;
    }
    let mut i: usize = 1;
    while i < v.len()
        invariant
            1 <= i <= v@.len(),
            v@.len() == old(v)@.len(),
            v@.to_multiset() == old(v)@.to_multiset(),
            sorted_by_rank(v@.take(i as int)),
        decreases v@.len() - i,
    {
        let ghost u = v@;
        let mut j: usize = 0;
        while j < i && v[j].ranks_le(&v[i])
            invariant
                j <= i < v@.len(),
                v@ == u,
                forall|k: int| 0 <= k < j ==> entry_le(#[trigger] v@[k], v@[i as int]),
            decreases i - j,
        {
            j = j + 1;
        }
        if j < i {
            proof {
                lemma_entry_le_total(u[j as int], u[i as int]);
            }
            let e = v.remove(i);
            v.insert(j, e);
            proof {
                let w = u.remove(i as int);
                assert(v@ == w.insert(j as int, u[i as int]));
                vstd::seq_lib::to_multiset_remove(u, i as int);
                vstd::seq_lib::to_multiset_insert(w, j as int, u[i as int]);
                assert(u.contains(u[i as int])) by {
                    assert(u[i as int] == u[i as int]);
                }
                vstd::seq_lib::to_multiset_contains(u, u[i as int]);
                assert(u.to_multiset().count(u[i as int]) > 0);
                assert(u.to_multiset().remove(u[i as int]).insert(u[i as int]) =~= u.to_multiset());
                assert(v@.to_multiset() == old(v)@.to_multiset());
                assert forall|m: int, m2: int| 0 <= m < m2 < i implies entry_le(
                    #[trigger] u[m],
                    #[trigger] u[m2],
                ) by {
                    assert(u.take(i as int)[m] == u[m]);
                    assert(u.take(i as int)[m2] == u[m2]);
                }
                assert forall|k: int, l: int| 0 <= k < l < i + 1 implies entry_le(
                    #[trigger] v@.take(i + 1)[k],
                    #[trigger] v@.take(i + 1)[l],
                ) by {
                    let jj = j as int;
                    let ii = i as int;
                    assert(forall|m: int| 0 <= m < jj ==> v@[m] == u[m]);
                    assert(v@[jj] == u[ii]);
                    assert(forall|m: int| jj < m <= ii ==> v@[m] == u[m - 1]);
                    if k < jj && l == jj {
                        // below the insertion point the prefix is unchanged
                    } else if k == jj && l > jj {
                        if jj < l - 1 {
                            lemma_entry_le_trans(u[ii], u[jj], u[l - 1]);
                        }
                    }
                }
            }
        } else {
            proof {
                assert forall|k: int, l: int| 0 <= k < l < i + 1 implies entry_le(
                    #[trigger] v@.take(i + 1)[k],
                    #[trigger] v@.take(i + 1)[l],
                ) by {
                    assert(v@.take(i + 1)[k] == v@[k]);
                    assert(v@.take(i + 1)[l] == v@[l]);
                }
            }
        }
        i = i + 1;
    }
    proof {
        assert(v@.take(v@.len() as int) =~= v@);
    }
}

/// Picks the highest-ranked entry: the greatest timestamp, ties going to
/// the lexicographically greatest name.  Empty input yields `None`.
pub fn select_latest(v: &Vec<Entry>) -> (r: Option<usize>)
    ensures
        r is Some <==> v@.len() > 0,
        r matches Some(i) ==> i < v@.len() && forall|j: int|
            0 <= j < v@.len() ==> entry_le(#[trigger] v@[j], v@[i as int]),
{
    if v.len() == 0 {
        return None;
    }
    proof {
        lemma_entry_le_total(v@[0], v@[0]);
    }
    let mut best: usize = 0;
    let mut i: usize = 1;
    while i < v.len()
        invariant
            best < i <= v@.len(),
            forall|j: int| 0 <= j < i ==> entry_le(#[trigger] v@[j], v@[best as int]),
        decreases v@.len() - i,
    {
        if v[best].ranks_le(&v[i]) {
            proof {
                assert forall|j: int| 0 <= j < i + 1 implies entry_le(
                    #[trigger] v@[j],
                    v@[i as int],
                ) by {
                    if j < i {
                        lemma_entry_le_trans(v@[j], v@[best as int], v@[i as int]);
                    } else {
                        lemma_entry_le_total(v@[i as int], v@[i as int]);
                    }
                }
            }
            best = i;
        } else {
            proof {
                lemma_entry_le_total(v@[best as int], v@[i as int]);
            }
        }
        i = i + 1;
    }
    Some(best)
}

/// The entries a list of names gives rise to: one per non-empty name, in
/// the order the names came, each carrying its scanned timestamp.
pub open spec fn entries_of(names: Seq<String>) -> Seq<Entry>
    decreases names.len(),
{
    if names.len() == 0 {
        Seq::empty()
    } else {
        let prev = entries_of(names.drop_last());
        let last = names.last();
        if last@.len() == 0 {
            prev
        } else {
            prev.push(Entry { name: last, timestamp: timestamp_of(last@) })
        }
    }
}

/// Builds the ranked entries for a list of names, skipping empty names,
/// which the scanner rejects.
pub fn build_entries(names: &Vec<String>) -> (v: Vec<Entry>)
    ensures
        v@ == entries_of(names@),
{
    let mut v: Vec<Entry> = Vec::new();
    let mut i: usize = 0;
    while i < names.len()
        invariant
            i <= names@.len(),
            v@ == entries_of(names@.take(i as int)),
        decreases names@.len() - i,
    {
        let name = &names[i];
        if name.as_str().unicode_len() > 0 {
            let st = scan_name(name.as_str());
            let ts = synthesize(st);
            v.push(Entry { name: name.clone(), timestamp: ts });
        }
        proof {
            assert(names@.take(i + 1).drop_last() =~= names@.take(i as int));
            assert(names@.take(i + 1).last() == names@[i as int]);
        }
        i = i + 1;
    }
    proof {
        assert(names@.take(names@.len() as int) =~= names@);
    }
    v
}

} // verus!
