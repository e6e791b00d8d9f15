use dirsize::ScanError;
use dirsize::scanner::{rank_entries, scan, DirListing, Entry};
use dirsize::tree::{compute_size, FsChild, FsNode};

fn file(name: &str, size: u64) -> FsChild {
    FsChild { name: name.to_string(), node: FsNode::File(size) }
}

fn dir(name: &str, children: Vec<FsChild>) -> FsChild {
    FsChild { name: name.to_string(), node: FsNode::Dir(children) }
}

fn unreadable(name: &str) -> FsChild {
    FsChild { name: name.to_string(), node: FsNode::Unreadable }
}

fn pairs_of(report: Vec<Entry>) -> Vec<(String, u64)> {
    report.into_iter().map(|e| (e.name, e.size)).collect()
}

#[test]
fn sizes_single_file() {
    assert_eq!(compute_size(&FsNode::File(1234)), Ok(1234));
}

#[test]
fn sizes_empty_directory() {
    assert_eq!(compute_size(&FsNode::Dir(vec![])), Ok(0));
}

#[test]
fn sizes_nested_directories() {
    let tree = FsNode::Dir(vec![
        file("a", 10),
        dir("b", vec![file("c", 20), dir("d", vec![file("e", 30)])]),
    ]);
    assert_eq!(compute_size(&tree), Ok(60));
}

#[test]
fn sizes_unreadable_entry_fails_whole_subtree() {
    let tree = FsNode::Dir(vec![file("a", 10), dir("b", vec![unreadable("gone")])]);
    assert_eq!(compute_size(&tree), Err(ScanError::Io));
}

#[test]
fn sizes_overflow_is_an_error() {
    let tree = FsNode::Dir(vec![file("big", u64::MAX), file("one", 1)]);
    assert_eq!(compute_size(&tree), Err(ScanError::Io));
}

#[test]
fn end_to_end_ranking() {
    let root = DirListing::Children(vec![
        file("a.txt", 1000),
        file("b.txt", 500),
        dir("c", vec![file("inner", 2000)]),
    ]);
    let report = scan(root, 2).unwrap();
    assert_eq!(
        pairs_of(report),
        vec![("c".to_string(), 2000), ("a.txt".to_string(), 1000), ("b.txt".to_string(), 500)]
    );
}

#[test]
fn failing_child_is_omitted_and_scan_succeeds() {
    let root = DirListing::Children(vec![
        file("kept", 7),
        unreadable("dropped"),
        dir("spoiled", vec![unreadable("inner")]),
    ]);
    let report = scan(root, 3).unwrap();
    assert_eq!(pairs_of(report), vec![("kept".to_string(), 7)]);
}

#[test]
fn missing_root_is_not_found() {
    assert_eq!(scan(DirListing::Missing, 4).err(), Some(ScanError::NotFound));
}

#[test]
fn unreadable_root_is_io_failure() {
    assert_eq!(scan(DirListing::Unreadable, 4).err(), Some(ScanError::Io));
}

#[test]
fn zero_concurrency_is_rejected() {
    assert_eq!(scan(DirListing::Children(vec![file("a", 1)]), 0).err(), Some(ScanError::Config));
    assert_eq!(scan(DirListing::Missing, 0).err(), Some(ScanError::Config));
}

#[test]
fn ten_children_under_a_bound_of_one() {
    let children: Vec<FsChild> =
        (0..10u64).map(|i| file(&format!("f{}", i), 100 * (i + 1))).collect();
    let report = scan(DirListing::Children(children), 1).unwrap();
    assert_eq!(report.len(), 10);
    for (k, e) in report.iter().enumerate() {
        assert_eq!(e.size, 100 * (10 - k as u64));
        assert_eq!(e.name, format!("f{}", 9 - k));
    }
}

#[test]
fn scanning_twice_yields_the_same_pairs() {
    let listing = || {
        DirListing::Children(vec![
            file("a", 5),
            file("b", 5),
            dir("c", vec![file("x", 2), file("y", 3)]),
            unreadable("z"),
        ])
    };
    let mut first = pairs_of(scan(listing(), 2).unwrap());
    let mut second = pairs_of(scan(listing(), 2).unwrap());
    first.sort();
    second.sort();
    assert_eq!(first, second);
}

#[test]
fn equal_sizes_all_appear() {
    let root = DirListing::Children(vec![file("a", 5), file("b", 5), file("c", 1)]);
    let report = scan(root, 2).unwrap();
    assert_eq!(report.len(), 3);
    assert_eq!(report[0].size, 5);
    assert_eq!(report[1].size, 5);
    assert_eq!(report[2].size, 1);
    let mut names: Vec<String> = report.into_iter().map(|e| e.name).collect();
    names.sort();
    assert_eq!(names, vec!["a".to_string(), "b".to_string(), "c".to_string()]);
}

#[test]
fn ranking_sorts_descending() {
    let entries = vec![
        Entry { name: "small".to_string(), size: 1 },
        Entry { name: "large".to_string(), size: 1000 },
        Entry { name: "middle".to_string(), size: 30 },
    ];
    let ranked = rank_entries(entries);
    assert_eq!(
        pairs_of(ranked),
        vec![
            ("large".to_string(), 1000),
            ("middle".to_string(), 30),
            ("small".to_string(), 1),
        ]
    );
}

#[test]
fn ranking_an_empty_report() {
    let ranked = rank_entries(Vec::new());
    assert!(ranked.is_empty());
}
