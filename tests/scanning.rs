use seek::scan::{check_root, merge_results, split_listing, ScanError};
use seek::utils::distribute;
use seek::walker::{Entry, Walker};
use seek::ScanResult;

fn s(text: &str) -> String {
    text.to_string()
}

fn found(path: &str, is_dir: bool) -> Entry {
    Entry::Found { path: s(path), is_dir }
}

#[test]
fn scan_result_starts_empty() {
    let r = ScanResult::new();
    assert_eq!(r.size(), 0);
    assert_eq!(r.total(), 0);
    assert_eq!(r.error_count, 0);
    assert_eq!(r.success_count, 0);
}

#[test]
fn scan_result_counts_and_merges() {
    let mut a = ScanResult::new();
    a.push(s("/a"));
    a.increase_success(1);
    a.increase_error(2);
    let mut b = ScanResult::new();
    b.push(s("/b"));
    b.push(s("/c"));
    b.increase_success(2);
    b.increase_error(1);
    a.append(b);
    assert_eq!(a.paths, vec![s("/a"), s("/b"), s("/c")]);
    assert_eq!(a.size(), 3);
    assert_eq!(a.success_count, 3);
    assert_eq!(a.error_count, 3);
    assert_eq!(a.total(), 6);
}

#[test]
fn walker_with_zero_limit_takes_nothing() {
    let w = Walker::new(0);
    assert!(!w.wants_more());
    let r = w.finish();
    assert!(r.paths.is_empty());
    assert_eq!(r.total(), 0);
}

#[test]
fn walker_stops_after_limit_directories() {
    let events = vec![
        found("/r/a", true),
        found("/r/a/f.txt", false),
        Entry::Failed,
        found("/r/a/b", true),
        found("/r/a/b/g.txt", false),
    ];
    let mut w = Walker::new(2);
    let mut taken = 0;
    for e in events {
        if !w.wants_more() {
            break;
        }
        w.record(e);
        taken += 1;
    }
    assert_eq!(taken, 4);
    let r = w.finish();
    assert_eq!(r.paths, vec![s("/r/a"), s("/r/a/f.txt"), s("/r/a/b")]);
    assert_eq!(r.success_count, 3);
    assert_eq!(r.error_count, 1);
    assert_eq!(r.total(), taken);
}

#[test]
fn walker_records_a_single_file_root() {
    let mut w = Walker::new(5);
    w.record(found("/r/only.txt", false));
    assert!(w.wants_more());
    let r = w.finish();
    assert_eq!(r.paths, vec![s("/r/only.txt")]);
    assert_eq!(r.success_count, 1);
}

#[test]
fn check_root_reports_each_error() {
    assert_eq!(check_root(false, false), Err(ScanError::NotFound));
    assert_eq!(check_root(false, true), Err(ScanError::NotFound));
    assert_eq!(check_root(true, false), Err(ScanError::NotADirectory));
    assert_eq!(check_root(true, true), Ok(()));
}

#[test]
fn split_listing_separates_files_and_directories() {
    let listing = vec![found("/r/a", true), found("/r/x.txt", false), Entry::Failed, found("/r/b", true)];
    let (top, dirs) = split_listing(listing);
    assert_eq!(top.paths, vec![s("/r/x.txt")]);
    assert_eq!(dirs, vec![s("/r/a"), s("/r/b")]);
    assert_eq!(top.success_count, 3);
    assert_eq!(top.error_count, 1);
}

#[test]
fn scan_total_counts_every_attempt() {
    let listing = vec![found("/r/a", true), Entry::Failed, found("/r/x", false)];
    let (top, dirs) = split_listing(listing);
    let mut parts = Vec::new();
    for d in dirs {
        let mut w = Walker::new(10);
        w.record(found(&d, true));
        w.record(Entry::Failed);
        w.record(found(&format!("{}/f", d), false));
        parts.push(w.finish());
    }
    let merged = merge_results(top, parts);
    assert_eq!(merged.total(), 3 + 3);
    assert_eq!(merged.success_count, 2 + 2);
    assert_eq!(merged.error_count, 1 + 1);
    assert_eq!(merged.paths, vec![s("/r/x"), s("/r/a"), s("/r/a/f")]);
}

#[test]
fn merge_results_keeps_order_and_adds_counters() {
    let mut top = ScanResult::new();
    top.push(s("t"));
    top.increase_success(1);
    let mut p1 = ScanResult::new();
    p1.push(s("p1"));
    p1.increase_error(4);
    let mut p2 = ScanResult::new();
    p2.push(s("p2"));
    p2.increase_success(7);
    let m = merge_results(top, vec![p1, p2]);
    assert_eq!(m.paths, vec![s("t"), s("p1"), s("p2")]);
    assert_eq!(m.success_count, 8);
    assert_eq!(m.error_count, 4);
}

#[test]
fn distribute_deals_round_robin() {
    let items: Vec<String> = (0..5).map(|i| i.to_string()).collect();
    let r = distribute(&items, 2);
    assert_eq!(r, vec![vec![s("0"), s("2"), s("4")], vec![s("1"), s("3")]]);
}

#[test]
fn distribute_drops_empty_buckets() {
    let items = vec![s("a"), s("b")];
    let r = distribute(&items, 4);
    assert_eq!(r, vec![vec![s("a")], vec![s("b")]]);
    let none: Vec<String> = Vec::new();
    assert!(distribute(&none, 3).is_empty());
    assert!(distribute(&none, 0).is_empty());
}

#[test]
fn distribute_with_one_worker_keeps_order() {
    let items = vec![s("a"), s("b"), s("c")];
    assert_eq!(distribute(&items, 1), vec![items.clone()]);
}

#[test]
fn worker_count_does_not_change_the_workload() {
    let items: Vec<String> = (0..11).map(|i| format!("/r/d{}", i)).collect();
    let mut one: Vec<String> = distribute(&items, 1).into_iter().flatten().collect();
    let mut many: Vec<String> = distribute(&items, 4).into_iter().flatten().collect();
    one.sort();
    many.sort();
    assert_eq!(one, many);
    assert_eq!(many.len(), 11);
}
