use spraycc::clock::{now, time_shown, whole_seconds, LONGEST_SPAN, SECOND};
use spraycc::history::{path_to_history, History, HistoryEntry, RETENTION};

const DAY: u128 = 24 * 3600 * SECOND;

/// Writes a history out as text and reads it back.
fn reread(history: &History) -> History {
    let rows: Vec<(String, u64, u64)> = history
        .entries()
        .iter()
        .map(|e| (e.target.clone(), e.elapsed as u64, e.as_of as u64))
        .collect();
    let data = serde_json::to_vec_pretty(&(history.version(), rows)).unwrap();
    let (version, rows): (u32, Vec<(String, u64, u64)>) = serde_json::from_slice(&data).unwrap();
    History::from_entries(
        version,
        rows.into_iter()
            .map(|(target, elapsed, as_of)| HistoryEntry {
                target,
                elapsed: elapsed as u128,
                as_of: as_of as u128,
            })
            .collect(),
    )
}

#[test]
fn test_read_write_history() {
    let foo_time = 5 * SECOND;
    let bar_time = 55 * SECOND;
    let mut h = History::default();
    h.update("foo.o", foo_time);
    h.update("bar.o", bar_time);

    let htest = reread(&History::to_write(None, h, now()));
    assert_eq!(htest.get("foo.o"), Some(foo_time));
    assert_eq!(htest.get("bar.o"), Some(bar_time));
}

#[test]
fn test_merge_history() {
    let old_time = 7 * SECOND;
    let foo_time = 5 * SECOND;
    let bar_time = 55 * SECOND;
    let fuz_time = 321 * SECOND;
    let six_mos_ago = now() - 3600 * 24 * 180 * SECOND;
    let year_ago = six_mos_ago - 3600 * 24 * 180 * SECOND;

    // Write a base history first
    let mut h2 = History::default();
    h2.update("fuz_test", fuz_time);
    h2.test_update("foo.o", old_time, six_mos_ago);
    h2.test_update("bar.o", old_time, year_ago);
    h2.test_update("wayold", old_time, year_ago);
    let base = reread(&History::to_write(None, h2, now()));

    let mut h = History::default();
    h.update("foo.o", foo_time);
    h.update("bar.o", bar_time);

    // The history loaded back should be a merge of the two
    let htest = reread(&History::to_write(Some(base), h, now()));
    assert_eq!(htest.get("foo.o"), Some(foo_time));
    assert_eq!(htest.get("bar.o"), Some(bar_time));
    assert_eq!(htest.get("fuz_test"), Some(fuz_time));
    assert_eq!(htest.get("wayold"), None);
}

#[test]
fn a_new_history_is_empty() {
    let mut history = History::default();
    assert!(history.is_empty());
    assert_eq!(history.version(), 1);
    assert_eq!(history.get("a"), None);
    history.test_update("a", 1, 2);
    assert!(!history.is_empty());
    assert_eq!(history.get("a"), Some(1));
    assert_eq!(history.get("b"), None);
}

#[test]
fn a_later_record_replaces_an_earlier_one() {
    let entry = |target: &str, elapsed: u128, as_of: u128| HistoryEntry {
        target: target.to_string(),
        elapsed,
        as_of,
    };
    let history = History::from_entries(4, vec![entry("a", 1, 9), entry("b", 2, 9), entry("a", 3, 5)]);
    assert_eq!(history.version(), 4);
    assert_eq!(history.entries(), &vec![entry("a", 3, 5), entry("b", 2, 9)]);

    let mut merged = history;
    merged.merge(History::from_entries(7, vec![entry("b", 8, 10), entry("c", 4, 1)]));
    assert_eq!(merged.version(), 4);
    assert_eq!(merged.get("a"), Some(3));
    assert_eq!(merged.get("b"), Some(8));
    assert_eq!(merged.get("c"), Some(4));
    assert_eq!(merged.entries().len(), 3);
}

#[test]
fn merging_keeps_the_more_recent_entry() {
    let mut history = History::default();
    history.test_update("a.o", 5 * SECOND, 10 * SECOND);
    let mut older = History::default();
    older.test_update("a.o", 7 * SECOND, 0);
    history.merge(older);
    assert_eq!(history.get("a.o"), Some(5 * SECOND));
    assert_eq!(history.entries()[0].as_of, 10 * SECOND);

    // Of two entries of the same time, the incoming one counts.
    let mut same = History::default();
    same.test_update("a.o", 8 * SECOND, 10 * SECOND);
    history.merge(same);
    assert_eq!(history.get("a.o"), Some(8 * SECOND));
}

#[test]
fn entries_are_kept_for_half_a_year() {
    assert_eq!(RETENTION, 183 * DAY);
    let time = 1000 * DAY;
    let mut history = History::default();
    history.test_update("just in time", 1, time - RETENTION + 1);
    history.test_update("just too late", 2, time - RETENTION);
    history.test_update("from the future", 3, time + DAY);
    history.purge(time);
    assert_eq!(history.get("just in time"), Some(1));
    assert_eq!(history.get("just too late"), None);
    assert_eq!(history.get("from the future"), Some(3));
}

#[test]
fn writing_twice_changes_nothing() {
    let time = 1000 * DAY;
    let recorded = || History::from_entries(1, vec![HistoryEntry { target: "a".to_string(), elapsed: 1, as_of: time }]);
    let mut existing = History::default();
    existing.test_update("a", 9, time - DAY);
    existing.test_update("b", 2, time - DAY);
    existing.test_update("c", 3, 0);
    let once = History::to_write(Some(existing), recorded(), time);
    let entries = once.entries().clone();
    let twice = History::to_write(Some(once), recorded(), time);
    assert_eq!(twice.entries(), &entries);
    assert_eq!(twice.get("a"), Some(1));
    assert_eq!(twice.get("b"), Some(2));
    assert_eq!(twice.get("c"), None);
}

#[test]
fn the_history_is_in_the_home_directory() {
    assert_eq!(path_to_history("/home/me"), "/home/me/.spraycc.history");
    assert_eq!(path_to_history("/"), "/.spraycc.history");
}

#[test]
fn the_clock_is_read() {
    let since = std::time::SystemTime::now()
        .duration_since(std::time::SystemTime::UNIX_EPOCH)
        .unwrap()
        .as_nanos();
    let read = now();
    assert!(whole_seconds(since, read) <= 60);
    assert!(read > 50 * 365 * DAY);
}

#[test]
fn a_clock_before_the_epoch_shows_the_epoch() {
    assert_eq!(time_shown(Some(5 * SECOND + 7)), 5 * SECOND + 7);
    assert_eq!(time_shown(None), 0);
    assert_eq!(std::time::Duration::MAX.as_nanos(), LONGEST_SPAN);
}

#[test]
fn whole_seconds_pass() {
    assert_eq!(whole_seconds(5, 5 + SECOND - 1), 0);
    assert_eq!(whole_seconds(5, 5 + SECOND), 1);
    assert_eq!(whole_seconds(0, 10 * SECOND + 7), 10);
    assert_eq!(whole_seconds(10 * SECOND, 0), 0);
}
