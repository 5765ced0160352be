use wincleaner::scan::DirectoryHotspot;
use wincleaner::sizes::{sort_by_size_desc, tally_files, WalkEntry};

fn hotspot(name: &str, size: u64) -> DirectoryHotspot {
    DirectoryHotspot { name: name.to_string(), path: format!("C:\\{}", name), size_bytes: size }
}

#[test]
fn sort_is_largest_first_and_stable() {
    let items = vec![hotspot("a", 5), hotspot("b", 9), hotspot("c", 5), hotspot("d", 1), hotspot("e", 9)];
    let sorted = sort_by_size_desc(items);
    let names: Vec<&str> = sorted.iter().map(|h| h.name.as_str()).collect();
    assert_eq!(names, vec!["b", "e", "a", "c", "d"]);
}

#[test]
fn sort_keeps_every_item() {
    let items = vec![hotspot("x", 3), hotspot("y", 3), hotspot("z", 0)];
    let sorted = sort_by_size_desc(items);
    assert_eq!(sorted.len(), 3);
    for w in sorted.windows(2) {
        assert!(w[0].size_bytes >= w[1].size_bytes);
    }
    assert!(sort_by_size_desc(Vec::<DirectoryHotspot>::new()).is_empty());
}

#[test]
fn tally_counts_files_and_their_known_lengths() {
    let entries = vec![
        WalkEntry { is_file: true, size: Some(10) },
        WalkEntry { is_file: false, size: Some(4096) },
        WalkEntry { is_file: true, size: None },
        WalkEntry { is_file: true, size: Some(5) },
    ];
    let t = tally_files(&entries);
    assert_eq!(t.total_size, 15);
    assert_eq!(t.file_count, 3);
    let empty = tally_files(&Vec::new());
    assert_eq!((empty.total_size, empty.file_count), (0, 0));
}
