use filedate::model::CalendarDate;
use filedate::model::ClockTime;
use filedate::model::Timestamp;
use filedate::rank::build_entries;
use filedate::rank::select_latest;
use filedate::rank::sort_entries;
use filedate::rank::str_lex_le;
use filedate::rank::timestamp_lt;
use filedate::rank::Entry;

fn ts(year: u32, month: u32, day: u32, hour: u32, minute: u32, second: u32) -> Timestamp {
    Timestamp {
        date: CalendarDate { year, month, day },
        time: ClockTime { hour, minute, second },
    }
}

fn entry(name: &str, stamp: Timestamp) -> Entry {
    Entry { name: name.to_string(), timestamp: stamp }
}

#[test]
fn timestamp_order_is_date_major() {
    let earlier = ts(2020, 2, 3, 23, 59, 59);
    let later = ts(2020, 2, 4, 0, 0, 0);
    assert!(timestamp_lt(&earlier, &later));
    assert!(!timestamp_lt(&later, &earlier));
    let same = ts(2020, 2, 3, 23, 59, 59);
    assert!(!timestamp_lt(&earlier, &same));
    assert!(timestamp_lt(&ts(2020, 2, 3, 3, 4, 5), &ts(2020, 2, 3, 3, 4, 6)));
}

#[test]
fn string_order_is_lexicographic() {
    assert!(str_lex_le("a", "b"));
    assert!(!str_lex_le("b", "a"));
    assert!(str_lex_le("abc", "abd"));
    assert!(str_lex_le("ab", "abc"));
    assert!(!str_lex_le("abc", "ab"));
    assert!(str_lex_le("", "a"));
    assert!(str_lex_le("same", "same"));
}

#[test]
fn ranks_le_breaks_ties_by_name() {
    let c1 = entry("a", ts(2020, 1, 1, 0, 0, 0));
    let c2 = entry("b", ts(2020, 1, 1, 0, 0, 0));
    assert!(c1.ranks_le(&c2));
    assert!(!c2.ranks_le(&c1));
}

#[test]
fn sort_orders_by_timestamp_then_name() {
    let a = entry("zzz", ts(2001, 1, 1, 0, 0, 0));
    let b = entry("aaa", ts(2003, 1, 1, 0, 0, 0));
    let c1 = entry("a", ts(2002, 6, 15, 12, 0, 0));
    let c2 = entry("b", ts(2002, 6, 15, 12, 0, 0));
    let mut v = vec![b, c2, a, c1];
    sort_entries(&mut v);
    let names: Vec<&str> = v.iter().map(|e| e.name.as_str()).collect();
    assert_eq!(names, vec!["zzz", "a", "b", "aaa"]);
}

#[test]
fn select_latest_picks_greatest_timestamp() {
    let v = vec![
        entry("old", ts(2001, 1, 1, 0, 0, 0)),
        entry("new", ts(2021, 12, 31, 23, 59, 59)),
        entry("mid", ts(2010, 6, 15, 12, 0, 0)),
    ];
    let i = select_latest(&v).expect("non-empty");
    assert_eq!(v[i].name, "new");
}

#[test]
fn select_latest_tie_goes_to_greatest_name() {
    let v = vec![
        entry("b", ts(2020, 1, 1, 0, 0, 0)),
        entry("a", ts(2020, 1, 1, 0, 0, 0)),
    ];
    let i = select_latest(&v).expect("non-empty");
    assert_eq!(v[i].name, "b");
}

#[test]
fn select_latest_of_nothing_is_none() {
    let v: Vec<Entry> = Vec::new();
    assert!(select_latest(&v).is_none());
}

#[test]
fn build_entries_scans_each_name() {
    let names = vec![
        "report-2020-02-03.txt".to_string(),
        String::new(),
        "notes.txt".to_string(),
    ];
    let v = build_entries(&names);
    assert_eq!(v.len(), 2);
    assert_eq!(v[0].name, "report-2020-02-03.txt");
    assert_eq!(v[0].timestamp, ts(2020, 2, 3, 0, 0, 0));
    assert_eq!(v[1].name, "notes.txt");
    assert_eq!(v[1].timestamp, ts(2000, 1, 1, 0, 0, 0));
}

#[test]
fn latest_of_scanned_directory_listing() {
    let names = vec![
        "backup_2019-05-01.tar".to_string(),
        "backup_2021-05-01.tar".to_string(),
        "backup_2020-05-01.tar".to_string(),
    ];
    let mut v = build_entries(&names);
    sort_entries(&mut v);
    assert_eq!(v.last().expect("non-empty").name, "backup_2021-05-01.tar");
}
