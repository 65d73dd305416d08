use dirsum::engine::{summarize, fold_results, traverse_dir, DirEntry};
use dirsum::limiter::ConcurrencyLimiter;
use dirsum::result::TraversalResult;
use dirsum::tree::{FsDir, FsEntry};

fn file(name: &str, size: u64) -> FsEntry {
    FsEntry { name: name.to_string(), size, subtree: None }
}

fn dir(name: &str, size: u64, sub: FsDir) -> FsEntry {
    FsEntry { name: name.to_string(), size, subtree: Some(Box::new(sub)) }
}

fn readable(entries: Vec<FsEntry>) -> FsDir {
    FsDir::Readable { entries }
}

#[test]
fn example_tree_counts_four_entries_and_thirty_five_bytes() {
    // root: a (10 bytes), b (20 bytes), d/ (reported size 0) containing c (5 bytes)
    let tree = readable(vec![
        file("a", 10),
        file("b", 20),
        dir("d", 0, readable(vec![file("c", 5)])),
    ]);
    let mut diags: Vec<String> = Vec::new();
    let r = traverse_dir(&tree, ".", &mut diags);
    assert_eq!(r.count, 4);
    assert_eq!(r.size, 35);
    assert!(diags.is_empty());
}

#[test]
fn directory_reported_size_is_included() {
    // Same tree, but the reader reports 4096 bytes for the directory entry
    // itself: that reported size is part of the total.
    let tree = readable(vec![
        file("a", 10),
        file("b", 20),
        dir("d", 4096, readable(vec![file("c", 5)])),
    ]);
    let mut diags: Vec<String> = Vec::new();
    let r = traverse_dir(&tree, ".", &mut diags);
    assert_eq!(r.count, 4);
    assert_eq!(r.size, 4131);
    assert!(diags.is_empty());
}

#[test]
fn empty_directory_yields_zero() {
    let tree = readable(vec![]);
    let mut diags: Vec<String> = Vec::new();
    let r = traverse_dir(&tree, ".", &mut diags);
    assert_eq!(r.count, 0);
    assert_eq!(r.size, 0);
    assert!(diags.is_empty());
}

#[test]
fn unreadable_root_yields_zero_and_one_diagnostic() {
    let tree = FsDir::Unreadable;
    let mut diags: Vec<String> = Vec::new();
    let r = traverse_dir(&tree, "/denied", &mut diags);
    assert_eq!(r.count, 0);
    assert_eq!(r.size, 0);
    assert_eq!(diags, vec!["/denied".to_string()]);
}

#[test]
fn one_unreadable_subdirectory_loses_only_its_own_contribution() {
    let full = readable(vec![
        file("a", 10),
        dir("d", 0, readable(vec![file("c", 5), file("e", 7)])),
        file("b", 20),
    ]);
    let broken = readable(vec![
        file("a", 10),
        dir("d", 0, FsDir::Unreadable),
        file("b", 20),
    ]);
    let mut diags: Vec<String> = Vec::new();
    let r_full = traverse_dir(&full, ".", &mut diags);
    assert!(diags.is_empty());
    let r_broken = traverse_dir(&broken, ".", &mut diags);
    // the subtree under d held 2 entries of 12 bytes; d's own entry stays
    assert_eq!(r_full.count, 5);
    assert_eq!(r_full.size, 42);
    assert_eq!(r_broken.count, r_full.count - 2);
    assert_eq!(r_broken.size, r_full.size - 12);
    assert_eq!(diags, vec!["./d".to_string()]);
}

#[test]
fn sibling_order_does_not_change_the_value() {
    let one = readable(vec![
        file("a", 10),
        dir("d", 1, readable(vec![file("c", 5)])),
        file("b", 20),
    ]);
    let other = readable(vec![
        file("b", 20),
        file("a", 10),
        dir("d", 1, readable(vec![file("c", 5)])),
    ]);
    let mut diags: Vec<String> = Vec::new();
    let r1 = traverse_dir(&one, ".", &mut diags);
    let r2 = traverse_dir(&other, ".", &mut diags);
    assert_eq!(r1.count, r2.count);
    assert_eq!(r1.size, r2.size);
}

#[test]
fn repeated_walks_agree() {
    let tree = readable(vec![
        file("a", 1),
        dir("d", 0, readable(vec![dir("e", 0, FsDir::Unreadable)])),
    ]);
    let mut diags1: Vec<String> = Vec::new();
    let mut diags2: Vec<String> = Vec::new();
    let r1 = traverse_dir(&tree, "root", &mut diags1);
    let r2 = traverse_dir(&tree, "root", &mut diags2);
    assert_eq!(r1, r2);
    assert_eq!(diags1, diags2);
    assert_eq!(diags1, vec!["root/d/e".to_string()]);
}

#[test]
fn summarize_tallies_and_lists_subdirectories_in_order() {
    let entries = vec![
        DirEntry { name: "x".to_string(), size: 3, is_dir: false },
        DirEntry { name: "sub1".to_string(), size: 100, is_dir: true },
        DirEntry { name: "y".to_string(), size: 4, is_dir: false },
        DirEntry { name: "sub2".to_string(), size: 200, is_dir: true },
    ];
    let (local, subdirs) = summarize(&entries);
    assert_eq!(local.count, 4);
    assert_eq!(local.size, 307);
    assert_eq!(subdirs, vec!["sub1".to_string(), "sub2".to_string()]);
}

#[test]
fn summarize_of_nothing_is_zero() {
    let entries: Vec<DirEntry> = Vec::new();
    let (local, subdirs) = summarize(&entries);
    assert_eq!(local.count, 0);
    assert_eq!(local.size, 0);
    assert!(subdirs.is_empty());
}

#[test]
fn fold_adds_children_to_the_seed() {
    let seed = TraversalResult { count: 2, size: 30 };
    let children = vec![
        TraversalResult { count: 1, size: 5 },
        TraversalResult { count: 4, size: 7 },
    ];
    let folded = fold_results(seed, &children);
    assert_eq!(folded.count, 7);
    assert_eq!(folded.size, 42);
}

#[test]
fn totals_saturate_instead_of_wrapping() {
    let a = TraversalResult { count: u64::MAX - 1, size: u64::MAX };
    let b = TraversalResult { count: 5, size: 1 };
    let c = a.combine(b);
    assert_eq!(c.count, u64::MAX);
    assert_eq!(c.size, u64::MAX);
}

#[test]
fn zero_is_a_neutral_contribution() {
    let z = TraversalResult::zero();
    let r = TraversalResult { count: 3, size: 9 }.combine(z);
    assert_eq!(r.count, 3);
    assert_eq!(r.size, 9);
}

#[test]
fn limiter_never_admits_more_reads_than_its_capacity() {
    let mut l = ConcurrencyLimiter::new(2);
    assert!(l.try_acquire());
    assert!(l.try_acquire());
    assert!(!l.try_acquire());
    assert_eq!(l.held(), 2);
    l.release();
    assert_eq!(l.held(), 1);
    assert!(l.try_acquire());
    assert!(!l.try_acquire());
    assert_eq!(l.held(), 2);
}

#[test]
fn limiter_of_capacity_one_alternates() {
    let mut l = ConcurrencyLimiter::new(1);
    assert!(l.try_acquire());
    assert!(!l.try_acquire());
    l.release();
    assert!(l.try_acquire());
}

#[test]
fn releasing_an_idle_limiter_changes_nothing() {
    let mut l = ConcurrencyLimiter::new(3);
    l.release();
    assert_eq!(l.held(), 0);
    assert!(l.try_acquire());
    assert_eq!(l.held(), 1);
}

#[test]
fn several_failures_are_each_reported_once_in_discovery_order() {
    let tree = readable(vec![
        dir("p", 0, FsDir::Unreadable),
        file("a", 6),
        dir("q", 0, readable(vec![dir("r", 0, FsDir::Unreadable)])),
    ]);
    let mut diags: Vec<String> = Vec::new();
    let r = traverse_dir(&tree, ".", &mut diags);
    // the three entries of the root are still counted, with 6 bytes from a
    assert_eq!(r.count, 4);
    assert_eq!(r.size, 6);
    assert_eq!(diags, vec!["./p".to_string(), "./q/r".to_string()]);
}

#[test]
fn deep_nesting_is_counted_once_per_entry() {
    let tree = readable(vec![dir(
        "l1",
        0,
        readable(vec![dir("l2", 0, readable(vec![file("leaf", 8)]))]),
    )]);
    let mut diags: Vec<String> = Vec::new();
    let r = traverse_dir(&tree, ".", &mut diags);
    assert_eq!(r.count, 3);
    assert_eq!(r.size, 8);
}
