use tetron_messageboard::quota::{sum_sizes, FileEntry, QuotaSweep};

fn file(hash: &str, size: u64, mtime: u64) -> FileEntry {
    FileEntry { hash: hash.to_string(), size, mtime }
}

fn run(files: &Vec<FileEntry>, max: u64, grace: u64, now: u64) -> Vec<String> {
    let mut sweep = QuotaSweep::begin_at(files, max, grace, now);
    while sweep.next().is_some() {
        sweep.record(true);
    }
    sweep.evicted()
}

#[test]
fn nothing_goes_within_the_cap() {
    let files = vec![file("a", 50, 0), file("b", 50, 0)];
    assert_eq!(sum_sizes(&files), 100);
    assert!(run(&files, 100, 0, 10).is_empty());
}

#[test]
fn the_largest_goes_first_until_back_under() {
    let files = vec![file("a", 10, 0), file("b", 40, 0), file("c", 30, 0)];
    assert_eq!(run(&files, 79, 0, 10), ["b"]);
    assert_eq!(run(&files, 39, 0, 10), ["b", "c"]);
    assert_eq!(run(&files, 0, 0, 10), ["b", "c", "a"]);
}

#[test]
fn equal_sizes_go_in_the_order_they_were_listed() {
    let files = vec![file("a", 10, 0), file("b", 20, 0), file("c", 10, 0), file("d", 20, 0)];
    assert_eq!(run(&files, 0, 0, 10), ["b", "d", "a", "c"]);
}

#[test]
fn new_files_are_exempt() {
    let files = vec![file("old", 10, 100), file("new", 90, 101)];
    assert_eq!(run(&files, 5, 50, 150), ["old"]);
    assert_eq!(run(&files, 5, 50, 151), ["new", "old"]);
    assert!(run(&files, 5, 200, 150).is_empty());
    // A file that is stamped with the epoch has always outlived the grace period.
    let ancient = vec![file("zero", 10, 0)];
    assert_eq!(run(&ancient, 5, 200, 150), ["zero"]);
}

#[test]
fn files_that_stay_are_not_counted_as_gone() {
    let files = vec![file("a", 10, 0), file("b", 40, 0), file("c", 30, 0)];
    let mut sweep = QuotaSweep::begin_at(&files, 39, 0, 10);
    assert_eq!(sweep.next().as_deref(), Some("b"));
    sweep.record(false);
    assert_eq!(sweep.next().as_deref(), Some("c"));
    sweep.record(true);
    assert_eq!(sweep.next().as_deref(), Some("a"));
    sweep.record(true);
    assert_eq!(sweep.next(), None);
    assert_eq!(sweep.evicted(), ["c", "a"]);
}

#[test]
fn a_sweep_now_uses_the_clock() {
    let files = vec![file("old", 10, 0), file("future", 10, u64::MAX)];
    let sweep = QuotaSweep::begin(&files, 0, 3600);
    assert_eq!(sweep.next().as_deref(), Some("old"));
}

#[test]
fn what_is_freed_and_what_is_left_add_up() {
    let files = vec![file("a", 10, 0), file("b", 40, 0), file("c", 30, 0), file("new", 5, 99)];
    let gone = run(&files, 20, 10, 50);
    assert_eq!(gone, ["b", "c"]);
    let freed: u64 = files.iter().filter(|f| gone.contains(&f.hash)).map(|f| f.size).sum();
    let left: u64 = files.iter().filter(|f| !gone.contains(&f.hash)).map(|f| f.size).sum();
    assert_eq!(freed + left, 85);
    assert!(left <= 20);
}
