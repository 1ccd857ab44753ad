use betterdisk::model::EntryKind;
use betterdisk::scanner::{calculate_dir_size, DirEntry, FsNode, Scanner};

fn file(path: &str, len: u64) -> FsNode {
    FsNode { path: path.to_string(), kind: EntryKind::File, len, children: vec![] }
}

fn other(path: &str, kind: EntryKind, len: u64) -> FsNode {
    FsNode { path: path.to_string(), kind, len, children: vec![] }
}

fn dir(path: &str, children: Vec<FsNode>) -> FsNode {
    FsNode { path: path.to_string(), kind: EntryKind::Dir, len: 4096, children }
}

/// /r
///   a/        (x: 10, deep/ (y: 5))
///   f         (7)
///   b/        (z: 30)
///   link      (symlink, 1000)
///   bad       (unreadable)
///   fifo      (other, 3)
fn sample() -> FsNode {
    dir(
        "/r",
        vec![
            dir("/r/a", vec![file("/r/a/x", 10), dir("/r/a/deep", vec![file("/r/a/deep/y", 5)])]),
            file("/r/f", 7),
            dir("/r/b", vec![file("/r/b/z", 30)]),
            other("/r/link", EntryKind::Symlink, 1000),
            other("/r/bad", EntryKind::Unreadable, 0),
            other("/r/fifo", EntryKind::Other, 3),
        ],
    )
}

fn names(e: &DirEntry) -> Vec<&str> {
    e.children.iter().map(|c| c.path.as_str()).collect()
}

#[test]
fn scan_sums_files_and_orders_children_largest_first() {
    let s = Scanner::new();
    let e = s.scan_dir(&sample(), 2);
    assert_eq!(e.path, "/r");
    assert!(e.is_dir);
    assert_eq!(e.size, 52);
    assert_eq!(names(&e), vec!["/r/b", "/r/a"]);
    assert_eq!(e.children[0].size, 30);
    assert_eq!(e.children[1].size, 15);
}

#[test]
fn depth_two_lists_one_level() {
    let s = Scanner::new();
    let e = s.scan_dir(&sample(), 2);
    for c in &e.children {
        assert!(c.is_dir);
        assert!(c.children.is_empty());
    }
}

#[test]
fn depth_zero_lists_every_level() {
    let s = Scanner::new();
    let e = s.scan_dir(&sample(), 0);
    let a = &e.children[1];
    assert_eq!(a.path, "/r/a");
    assert_eq!(names(a), vec!["/r/a/deep"]);
    assert_eq!(a.children[0].size, 5);
}

#[test]
fn depth_one_lists_every_level() {
    // A limit of 1 becomes 0 for the subdirectories, which then list every level.
    let s = Scanner::new();
    let e = s.scan_dir(&sample(), 1);
    assert_eq!(names(&e.children[1]), vec!["/r/a/deep"]);
}

#[test]
fn depth_three_lists_two_levels() {
    let s = Scanner::new();
    let e = s.scan_dir(&sample(), 3);
    let a = &e.children[1];
    assert_eq!(names(a), vec!["/r/a/deep"]);
    assert!(a.children[0].children.is_empty());
    let t = dir("/t", vec![dir("/t/1", vec![dir("/t/1/2", vec![dir("/t/1/2/3", vec![file("/t/1/2/3/f", 9)])])])]);
    let e = s.scan_dir(&t, 3);
    assert_eq!(e.size, 9);
    assert_eq!(e.children[0].children[0].size, 9);
    assert!(e.children[0].children[0].children.is_empty());
}

#[test]
fn file_root_reports_its_length() {
    let s = Scanner::new();
    let e = s.scan_dir(&file("/etc/hosts", 321), 2);
    assert_eq!(e.path, "/etc/hosts");
    assert!(!e.is_dir);
    assert_eq!(e.size, 321);
    assert!(e.children.is_empty());
}

#[test]
fn empty_directory() {
    let s = Scanner::new();
    let e = s.scan_dir(&dir("/empty", vec![]), 2);
    assert!(e.is_dir);
    assert_eq!(e.size, 0);
    assert!(e.children.is_empty());
}

#[test]
fn equal_sizes_keep_listing_order() {
    let t = dir(
        "/d",
        vec![
            dir("/d/p", vec![file("/d/p/f", 4)]),
            dir("/d/q", vec![file("/d/q/f", 8)]),
            dir("/d/r", vec![file("/d/r/f", 4)]),
            dir("/d/s", vec![file("/d/s/f", 8)]),
        ],
    );
    let e = Scanner::new().scan_dir(&t, 2);
    assert_eq!(names(&e), vec!["/d/q", "/d/s", "/d/p", "/d/r"]);
}

#[test]
fn cancelled_at_the_start() {
    let e = Scanner::new().scan_dir_answering(&sample(), 2, &vec![true]);
    assert_eq!(e.path, "/r");
    assert!(e.is_dir);
    assert_eq!(e.size, 0);
    assert!(e.children.is_empty());
}

#[test]
fn cancelled_during_the_listing() {
    // checks: root, before /r/a, entering /r/a, [deep walk of /r/a: x, deep, y], before /r/f, before /r/b
    let answers = vec![false, false, false, false, false, false, false, true];
    let e = Scanner::new().scan_dir_answering(&sample(), 2, &answers);
    assert_eq!(e.size, 22);
    assert_eq!(names(&e), vec!["/r/a"]);
    assert!(e.size <= 52);
}

#[test]
fn cancelled_inside_a_subdirectory() {
    // checks: root, before /r/a, entering /r/a (cancelled)
    let e = Scanner::new().scan_dir_answering(&sample(), 2, &vec![false, false, true]);
    // /r/a reports itself empty; the listing of /r goes on
    assert_eq!(names(&e), vec!["/r/b", "/r/a"]);
    assert_eq!(e.children[1].size, 0);
    assert_eq!(e.size, 37);
}

#[test]
fn cancelled_inside_a_walk() {
    // checks: root, before /r/a, entering /r/a, x, deep (cancelled)
    let e = Scanner::new().scan_dir_answering(&sample(), 2, &vec![false, false, false, false, true]);
    assert_eq!(e.children[1].path, "/r/a");
    assert_eq!(e.children[1].size, 10);
    assert_eq!(e.size, 47);
}

#[test]
fn answers_past_the_end_mean_not_cancelled() {
    let e = Scanner::new().scan_dir_answering(&sample(), 2, &vec![false]);
    assert_eq!(e.size, 52);
}

#[test]
fn cancel_before_a_scan_has_no_effect() {
    let s = Scanner::new();
    s.cancel();
    let e = s.scan_dir(&sample(), 2);
    assert_eq!(e.size, 52);
}

#[test]
fn running_total_adds_every_finished_directory() {
    let s = Scanner::new();
    assert_eq!(s.get_total_size(), 0);
    s.scan_dir(&sample(), 2);
    // /r/a (15) + /r/b (30) + /r (52)
    assert_eq!(s.get_total_size(), 97);
    s.scan_dir(&dir("/e", vec![file("/e/f", 1)]), 2);
    assert_eq!(s.get_total_size(), 1);
}

#[test]
fn file_bytes_counts_regular_files_only() {
    assert_eq!(sample().file_bytes(), Some(52));
    assert_eq!(file("/x", 5).file_bytes(), Some(5));
    let big = dir("/big", vec![file("/big/a", u64::MAX), file("/big/b", 1)]);
    assert_eq!(big.file_bytes(), None);
    let nested = dir("/n", vec![file("/n/a", 1), dir("/n/d", vec![file("/n/d/b", u64::MAX)])]);
    assert_eq!(nested.file_bytes(), None);
}

#[test]
fn calculate_dir_size_counts_every_regular_file() {
    assert_eq!(calculate_dir_size(&sample()), 52);
    assert_eq!(calculate_dir_size(&file("/f", 12)), 12);
    assert_eq!(calculate_dir_size(&other("/l", EntryKind::Symlink, 12)), 0);
    assert_eq!(calculate_dir_size(&dir("/e", vec![])), 0);
}

#[test]
fn clone_copies_the_whole_tree() {
    let e = Scanner::new().scan_dir(&sample(), 0);
    let c = e.clone();
    assert_eq!(c.path, e.path);
    assert_eq!(c.size, e.size);
    assert_eq!(names(&c), names(&e));
    assert_eq!(names(&c.children[1]), vec!["/r/a/deep"]);
    assert_eq!(c.children[1].children[0].size, 5);
}
