use wincleaner::scan::{
    detect_signatures, is_obsolete_download, min_hotspot_bytes, select_hotspots, signature_summary,
    total_size, DirectoryHotspot, FileDetail, TechSignatures,
};

fn detail(name: &str, size: u64, is_dir: bool) -> FileDetail {
    FileDetail { name: name.to_string(), size_bytes: size, is_dir, last_modified: "Unknown".to_string() }
}

#[test]
fn threshold_defaults_to_100_mb() {
    assert_eq!(min_hotspot_bytes(None), 104857600);
    assert_eq!(min_hotspot_bytes(Some(1)), 1048576);
    assert_eq!(min_hotspot_bytes(Some(0)), 0);
}

#[test]
fn hotspots_keep_large_entries_largest_first() {
    let h = |n: &str, s: u64| DirectoryHotspot { name: n.to_string(), path: n.to_string(), size_bytes: s };
    let out = select_hotspots(vec![h("a", 10), h("b", 50), h("c", 9), h("d", 50), h("e", 20)], 10);
    let names: Vec<&str> = out.iter().map(|x| x.name.as_str()).collect();
    assert_eq!(names, vec!["b", "d", "e", "a"]);
}

#[test]
fn signatures_come_from_folder_names() {
    let entries = vec![
        detail("node_modules", 5, true),
        detail(".git", 1, true),
        detail("target", 3, false),
        detail("bazel-out", 2, true),
    ];
    let sig = detect_signatures(&entries);
    assert_eq!(
        sig,
        TechSignatures { node_modules: true, cargo_target: false, git: true, gradle: false, bazel: true }
    );
    assert_eq!(
        signature_summary(&sig),
        "Dossier contenant des signatures de technologies de d\u{e9}veloppement : Node.js (node_modules), Git Repository (.git), Bazel Build (bazel-*)"
    );
    assert_eq!(total_size(&entries), 11);
}

#[test]
fn no_signature_gives_standard_summary() {
    let sig = detect_signatures(&vec![detail("src", 1, true)]);
    assert_eq!(signature_summary(&sig), "Dossier standard ou inconnu");
    let one = TechSignatures { node_modules: false, cargo_target: true, git: false, gradle: false, bazel: false };
    assert_eq!(
        signature_summary(&one),
        "Dossier contenant des signatures de technologies de d\u{e9}veloppement : Rust Cargo (target)"
    );
}

#[test]
fn obsolete_downloads_are_old_installers_and_archives() {
    assert!(is_obsolete_download("ZIP", 31));
    assert!(is_obsolete_download("7z", 400));
    assert!(!is_obsolete_download("zip", 30));
    assert!(!is_obsolete_download("txt", 400));
    assert!(!is_obsolete_download("", 400));
}

#[test]
fn hotspots_law_on_values() {
    let h = |n: &str, s: u64| DirectoryHotspot { name: n.to_string(), path: n.to_string(), size_bytes: s };
    let input = vec![h("a", 1), h("b", 7), h("c", 3), h("d", 7), h("e", 2)];
    let out = select_hotspots(input, 3);
    assert_eq!(out.len(), 3);
    assert!(out.iter().all(|x| x.size_bytes >= 3));
    for w in out.windows(2) {
        assert!(w[0].size_bytes >= w[1].size_bytes);
    }
}
