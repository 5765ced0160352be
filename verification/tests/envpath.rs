use wincleaner::envpath::{clean_path, env_var_refs, expand_and_clean_path};

#[test]
fn quotes_and_white_space_are_removed() {
    assert_eq!(clean_path("  \"C:\\Program Files\\X\"  "), "C:\\Program Files\\X");
    assert_eq!(clean_path("\""), "\"");
    assert_eq!(clean_path("\"\""), "");
    assert_eq!(clean_path("\"a"), "\"a");
}

#[test]
fn references_are_listed_in_order() {
    let refs = env_var_refs("\"%SystemRoot%\\%Sub%\\x.exe\"");
    assert_eq!(refs, vec!["SystemRoot".to_string(), "Sub".to_string()]);
    assert_eq!(env_var_refs("no refs"), Vec::<String>::new());
    assert_eq!(env_var_refs("a%b"), Vec::<String>::new());
    assert_eq!(env_var_refs("%%x"), vec![String::new()]);
}

#[test]
fn references_are_replaced_by_their_values() {
    let values = vec![Some("C:\\Windows".to_string())];
    assert_eq!(
        expand_and_clean_path(" %windir%\\system32\\a.exe ", &values),
        "C:\\Windows\\system32\\a.exe"
    );
}

#[test]
fn unknown_references_stay_as_written() {
    let values = vec![None, Some("B".to_string())];
    assert_eq!(expand_and_clean_path("%A%-%B%-%C%", &values), "%A%-B-%C%");
}

#[test]
fn unclosed_percent_is_kept() {
    assert_eq!(expand_and_clean_path("50% done", &vec![Some("x".to_string())]), "50% done");
}

#[test]
fn without_values_the_cleaned_path_comes_back() {
    for p in ["\"%ProgramFiles%\\App\"", " %a%%b% ", "x%y", "%"] {
        assert_eq!(expand_and_clean_path(p, &Vec::new()), clean_path(p));
    }
}

#[test]
fn quoted_path_law_on_values_for_cleaning() {
    for inner in ["C:\\x y", "", " padded "] {
        assert_eq!(clean_path(&format!("\"{}\"", inner)), inner);
    }
}

#[test]
fn values_follow_references_in_order() {
    for p in ["%A%\\%B%", " \"%x%y%z%\" ", "plain", "%%"] {
        let vals: Vec<Option<String>> =
            env_var_refs(p).iter().map(|n| Some(format!("%{}%", n))).collect();
        assert_eq!(expand_and_clean_path(p, &vals), clean_path(p));
    }
    assert_eq!(env_var_refs("%x%y%z%"), vec!["x".to_string(), "z".to_string()]);
}
