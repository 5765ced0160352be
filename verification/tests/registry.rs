use wincleaner::registry::{
    installed_app_names, lowercase_names, parse_hive, startup_target, uninstall_junk,
    uninstall_target, CheckTarget, Hive, UninstallKeyNames,
};

#[test]
fn installed_names_are_lowercased_key_by_key() {
    let keys = vec![
        UninstallKeyNames {
            key_name: "{ABC}".to_string(),
            display_name: Some("Great App".to_string()),
            publisher: Some("ACME Corp".to_string()),
        },
        UninstallKeyNames { key_name: "Tool".to_string(), display_name: None, publisher: None },
    ];
    assert_eq!(
        installed_app_names(&keys),
        vec!["great app".to_string(), "acme corp".to_string(), "{abc}".to_string(), "tool".to_string()]
    );
}

#[test]
fn program_folder_names_are_lowercased() {
    let names = vec!["Common Files".to_string(), "\u{c9}DITEUR".to_string()];
    assert_eq!(lowercase_names(&names), vec!["common files".to_string(), "\u{e9}diteur".to_string()]);
}

#[test]
fn startup_commands_give_paths_to_check() {
    assert_eq!(startup_target("\"C:\\x\\y.exe\" /s"), CheckTarget::Check("C:\\x\\y.exe".to_string()));
    assert_eq!(startup_target("   "), CheckTarget::Skip);
    assert_eq!(startup_target("\"\" rest"), CheckTarget::Skip);
    assert_eq!(startup_target("\u{130}.exe"), CheckTarget::Unextractable);
}

#[test]
fn uninstall_location_comes_before_uninstall_string() {
    assert_eq!(
        uninstall_target(Some("  C:\\Apps\\X  "), Some("C:\\other.exe")),
        CheckTarget::Check("C:\\Apps\\X".to_string())
    );
    assert_eq!(uninstall_target(Some("   "), Some("C:\\other.exe")), CheckTarget::Skip);
    assert_eq!(
        uninstall_target(None, Some("MsiExec.exe /X{123}")),
        CheckTarget::Check("MsiExec.exe".to_string())
    );
    assert_eq!(uninstall_target(None, None), CheckTarget::Skip);
}

#[test]
fn uninstall_report_is_built_from_key() {
    let j = uninstall_junk("HKEY_LOCAL_MACHINE", "Software\\Uninstall", "{K}", None, "C:\\gone".to_string());
    assert_eq!(j.hive, "HKEY_LOCAL_MACHINE");
    assert_eq!(j.key_path, "Software\\Uninstall\\{K}");
    assert_eq!(j.display_name, "{K}");
    assert_eq!(j.invalid_path, "C:\\gone");
    let k = uninstall_junk("H", "P", "N", Some("Name".to_string()), String::new());
    assert_eq!(k.display_name, "Name");
}

#[test]
fn only_two_hives_are_accepted() {
    assert_eq!(parse_hive("HKEY_CURRENT_USER"), Some(Hive::CurrentUser));
    assert_eq!(parse_hive("HKEY_LOCAL_MACHINE"), Some(Hive::LocalMachine));
    assert_eq!(parse_hive("HKEY_USERS"), None);
    assert_eq!(parse_hive("hkey_current_user"), None);
}
