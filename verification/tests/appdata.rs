use wincleaner::appdata::{age_in_days, is_appdata_leftover, is_excluded_appdata_dir, is_installed_name};

fn v(names: &[&str]) -> Vec<String> {
    names.iter().map(|s| s.to_string()).collect()
}

#[test]
fn excluded_names_are_exact_lowercase_names() {
    assert!(is_excluded_appdata_dir("microsoft"));
    assert!(is_excluded_appdata_dir("apple computer"));
    assert!(is_excluded_appdata_dir("com_microsoft_visualstudio_telemetry"));
    assert!(!is_excluded_appdata_dir("microsoft2"));
    assert!(!is_excluded_appdata_dir("Microsoft"));
}

#[test]
fn installed_names_match_by_containment_either_way() {
    let dirs = v(&["mozilla firefox"]);
    let apps = v(&["vlc media player", "obs"]);
    assert!(is_installed_name("firefox", &dirs, &apps));
    assert!(is_installed_name("obs-studio", &dirs, &apps));
    assert!(is_installed_name("vlc media player", &dirs, &apps));
    assert!(!is_installed_name("gimp", &dirs, &apps));
    assert!(!is_installed_name("x", &Vec::new(), &Vec::new()));
    assert!(is_installed_name("", &dirs, &Vec::new()));
}

#[test]
fn leftover_needs_old_unlisted_directory() {
    let dirs = v(&["notepad++"]);
    let apps = v(&["7-zip"]);
    assert!(is_appdata_leftover("OldTool", true, 16, &dirs, &apps));
    assert!(!is_appdata_leftover("OldTool", true, 15, &dirs, &apps));
    assert!(!is_appdata_leftover("OldTool", false, 100, &dirs, &apps));
    assert!(!is_appdata_leftover("Notepad++", true, 100, &dirs, &apps));
    // Excluded names are compared after lowercasing.
    assert!(!is_appdata_leftover("MICROSOFT", true, 100, &dirs, &apps));
    assert!(!is_appdata_leftover("Temp", true, 100, &dirs, &apps));
}

#[test]
fn age_is_counted_in_whole_days() {
    assert_eq!(age_in_days(Some(86399)), 0);
    assert_eq!(age_in_days(Some(86400)), 1);
    assert_eq!(age_in_days(Some(16 * 86400 + 5)), 16);
    assert_eq!(age_in_days(None), 0);
}

#[test]
fn installed_is_overlap_law_on_values() {
    let dirs = v(&["abc"]);
    let apps: Vec<String> = Vec::new();
    // Exact membership and containment agree.
    assert_eq!(is_installed_name("abc", &dirs, &apps), true);
    assert_eq!(is_installed_name("ab", &dirs, &apps), true);
    assert_eq!(is_installed_name("xabcx", &dirs, &apps), true);
    assert_eq!(is_installed_name("abd", &dirs, &apps), false);
}
