use common_utils::desktop_file_builder::DesktopFileBuilder;
use common_utils::desktop_file_helpers::{
    choose_desktop_file_location, find_entry_by_name, paths_with_exec_containing,
    GLOBAL_APPLICATIONS_DIR,
};

fn entry(name: Option<&str>, exec: Option<&str>) -> DesktopFileBuilder {
    let mut b = DesktopFileBuilder::new();
    b.set_type("Application".to_string());
    if let Some(n) = name {
        b.set_name(n.to_string());
    }
    if let Some(e) = exec {
        b.set_exec(e.to_string());
    }
    b
}

#[test]
fn find_by_name_returns_first_match() {
    let entries = vec![
        entry(Some("Other"), Some("other")),
        entry(None, Some("x")),
        entry(Some("Foo"), Some("foo1")),
        entry(Some("Foo"), Some("foo2")),
    ];
    assert_eq!(find_entry_by_name(&entries, "Foo"), Some(2));
    assert_eq!(find_entry_by_name(&entries, "foo"), None);
    assert_eq!(find_entry_by_name(&vec![], "Foo"), None);
}

#[test]
fn exec_substring_collects_all_matches_in_order() {
    let paths = vec!["/a.desktop".to_string(), "/b.desktop".to_string(), "/c.desktop".to_string()];
    let entries = vec![
        entry(Some("A"), Some("/opt/Foo.AppImage --no-sandbox")),
        entry(Some("B"), None),
        entry(Some("C"), Some("/home/u/Foo.AppImage")),
    ];
    assert_eq!(
        paths_with_exec_containing(&paths, &entries, "Foo.AppImage"),
        vec!["/a.desktop".to_string(), "/c.desktop".to_string()]
    );
}

#[test]
fn exec_substring_without_match_is_empty() {
    let paths = vec!["/a.desktop".to_string(), "/b.desktop".to_string()];
    let entries = vec![entry(Some("A"), Some("alpha")), entry(Some("B"), Some("beta"))];
    let found = paths_with_exec_containing(&paths, &entries, "gamma");
    assert!(found.is_empty());
    assert!(paths_with_exec_containing(&vec![], &vec![], "x").is_empty());
}

#[test]
fn location_prefers_override() {
    assert_eq!(
        choose_desktop_file_location(Some("/custom".to_string()), true, Some("/home/u/.local/share/applications".to_string()), true),
        Ok("/custom".to_string())
    );
}

#[test]
fn location_then_global() {
    assert_eq!(
        choose_desktop_file_location(None, true, Some("/home/u/.local/share/applications".to_string()), true),
        Ok(GLOBAL_APPLICATIONS_DIR.to_string())
    );
    assert_eq!(GLOBAL_APPLICATIONS_DIR, "/usr/share/applications");
}

#[test]
fn location_then_local() {
    assert_eq!(
        choose_desktop_file_location(None, false, Some("/home/u/.local/share/applications".to_string()), true),
        Ok("/home/u/.local/share/applications".to_string())
    );
}

#[test]
fn location_errors() {
    assert_eq!(
        choose_desktop_file_location(None, false, None, false),
        Err("Failed to get home directory")
    );
    assert_eq!(
        choose_desktop_file_location(None, false, Some("/home/u/.local/share/applications".to_string()), false),
        Err("Default path does not exist")
    );
}
