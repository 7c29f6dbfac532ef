use common_utils::desktop_file_builder::DesktopFileBuilder;
use common_utils::text::{contains_text, join_text, split_text};

fn full_builder() -> DesktopFileBuilder {
    let mut builder = DesktopFileBuilder::new();
    builder.set_type("Application".to_string());
    builder.set_version("1.0".to_string());
    builder.set_name("Test App".to_string());
    builder.set_comment("This is a test".to_string());
    builder.set_path("/usr/bin/test".to_string());
    builder.set_exec("test".to_string());
    builder.set_icon("/usr/share/icons/test.png".to_string());
    builder.set_terminal(true);
    builder.set_categories(vec!["Utility".to_string()]);
    builder.set_no_sandbox(true);
    builder
}

#[test]
fn test_new() {
    let builder = DesktopFileBuilder::new();
    assert!(builder.type_().is_none());
    assert!(builder.version().is_none());
    assert!(builder.name().is_none());
    assert!(builder.comment().is_none());
    assert!(builder.path().is_none());
    assert!(builder.exec().is_none());
    assert!(builder.icon().is_none());
    assert!(builder.terminal().is_none());
    assert!(builder.categories().is_none());
    assert!(builder.no_sanbox().is_none());
}

#[test]
fn test_setters() {
    let mut builder = DesktopFileBuilder::new();
    builder.set_type("Application".to_string());
    builder.set_version("1.0".to_string());
    builder.set_name("Test App".to_string());
    builder.set_comment("This is a test".to_string());
    builder.set_path("/usr/bin/test".to_string());
    builder.set_exec("test".to_string());
    builder.set_icon("/usr/share/icons/test.png".to_string());
    builder.set_terminal(true);
    builder.set_categories(vec!["Utility".to_string()]);
    builder.set_no_sandbox(true);

    assert_eq!(builder.type_(), Some("Application".to_string()));
    assert_eq!(builder.version(), Some("1.0".to_string()));
    assert_eq!(builder.name(), Some("Test App".to_string()));
    assert_eq!(builder.comment(), Some("This is a test".to_string()));
    assert_eq!(builder.path(), Some("/usr/bin/test".to_string()));
    assert_eq!(builder.exec(), Some("test".to_string()));
    assert_eq!(builder.icon(), Some("/usr/share/icons/test.png".to_string()));
    assert_eq!(builder.terminal(), Some(true));
    assert_eq!(builder.categories(), Some("Utility".to_string()));
    assert_eq!(builder.no_sanbox(), Some(true));
}

#[test]
fn test_generate_content_string() {
    let builder = full_builder();
    let content = builder.generate_content_string().unwrap();
    let expected_content = "[Desktop Entry]\nType=Application\nVersion=1.0\nName=Test App\nComment=This is a test\nPath=/usr/bin/test\nExec=test --no-sandbox\nIcon=/usr/share/icons/test.png\nTerminal=true\nCategories=Utility\nX-AppHub=true\n";
    assert_eq!(content, expected_content);
}

#[test]
fn setters_chain() {
    let mut builder = DesktopFileBuilder::new();
    builder.set_type("Application".to_string()).set_name("Chained".to_string());
    assert_eq!(builder.type_(), Some("Application".to_string()));
    assert_eq!(builder.name(), Some("Chained".to_string()));
}

#[test]
fn round_trip_all_fields() {
    let content = full_builder().generate_content_string().unwrap();
    let parsed = DesktopFileBuilder::from_desktop_entry_content(&content, true).unwrap();
    assert_eq!(parsed.type_(), Some("Application".to_string()));
    assert_eq!(parsed.version(), Some("1.0".to_string()));
    assert_eq!(parsed.name(), Some("Test App".to_string()));
    assert_eq!(parsed.comment(), Some("This is a test".to_string()));
    assert_eq!(parsed.path(), Some("/usr/bin/test".to_string()));
    assert_eq!(parsed.exec(), Some("test --no-sandbox".to_string()));
    assert_eq!(parsed.icon(), Some("/usr/share/icons/test.png".to_string()));
    assert_eq!(parsed.terminal(), Some(true));
    assert_eq!(parsed.categories(), Some("Utility".to_string()));
    assert_eq!(parsed.no_sanbox(), None);
}

#[test]
fn round_trip_without_sandbox_flag() {
    let mut builder = full_builder();
    builder.set_no_sandbox(false);
    builder.set_terminal(false);
    let content = builder.generate_content_string().unwrap();
    let parsed = DesktopFileBuilder::from_desktop_entry_content(&content, false).unwrap();
    assert_eq!(parsed.exec(), Some("test".to_string()));
    assert_eq!(parsed.terminal(), Some(false));
}

#[test]
fn missing_type_fails() {
    let mut builder = DesktopFileBuilder::new();
    builder.set_version("1.0".to_string());
    builder.set_name("Test App".to_string());
    builder.set_exec("test".to_string());
    builder.set_terminal(true);
    assert_eq!(builder.generate_content_string(), Err("Type field is mandatory"));
}

#[test]
fn missing_name_fails() {
    let mut builder = DesktopFileBuilder::new();
    builder.set_type("Application".to_string());
    builder.set_exec("foo".to_string());
    builder.set_comment("c".to_string());
    assert_eq!(builder.generate_content_string(), Err("Name field is mandatory"));
}

#[test]
fn missing_exec_fails() {
    let mut builder = DesktopFileBuilder::new();
    builder.set_type("Application".to_string());
    builder.set_name("Foo".to_string());
    builder.set_icon("i".to_string());
    builder.set_no_sandbox(true);
    assert_eq!(builder.generate_content_string(), Err("Exec field is mandatory"));
}

#[test]
fn missing_everything_reports_type_first() {
    assert_eq!(DesktopFileBuilder::new().generate_content_string(), Err("Type field is mandatory"));
}

#[test]
fn minimal_entry_has_no_empty_lines() {
    let mut builder = DesktopFileBuilder::new();
    builder.set_type("Application".to_string());
    builder.set_name("Foo".to_string());
    builder.set_exec("foo".to_string());
    assert_eq!(
        builder.generate_content_string().unwrap(),
        "[Desktop Entry]\nType=Application\nName=Foo\nExec=foo\nX-AppHub=true\n"
    );
}

#[test]
fn exec_without_flag_is_unchanged() {
    let mut builder = DesktopFileBuilder::new();
    builder.set_type("Application".to_string());
    builder.set_name("Foo".to_string());
    builder.set_exec("foo --bar".to_string());
    builder.set_no_sandbox(false);
    assert_eq!(
        builder.generate_content_string().unwrap(),
        "[Desktop Entry]\nType=Application\nName=Foo\nExec=foo --bar\nX-AppHub=true\n"
    );
}

#[test]
fn terminal_parses_true_only_for_true() {
    let cases = [("true", true), ("True", false), ("1", false), ("", false), ("false", false), ("true ", false)];
    for (text, expected) in cases {
        let content = format!("[Desktop Entry]\nTerminal={}\n", text);
        let parsed = DesktopFileBuilder::from_desktop_entry_content(&content, false).unwrap();
        assert_eq!(parsed.terminal(), Some(expected));
    }
}

#[test]
fn categories_keep_order() {
    let mut builder = DesktopFileBuilder::new();
    builder.set_type("Application".to_string());
    builder.set_name("Foo".to_string());
    builder.set_exec("foo".to_string());
    builder.set_categories(vec!["Utility".to_string(), "Development".to_string(), "Game".to_string()]);
    assert_eq!(builder.categories(), Some("Utility;Development;Game".to_string()));
    let content = builder.generate_content_string().unwrap();
    let parsed = DesktopFileBuilder::from_desktop_entry_content(&content, true).unwrap();
    let cats = parsed.categories().unwrap();
    assert_eq!(split_text(&cats, ';'), vec!["Utility".to_string(), "Development".to_string(), "Game".to_string()]);
}

#[test]
fn categories_split_only_on_semicolon() {
    let content = "[Desktop Entry]\nCategories=Audio Video,Player;;Tools:x;\n";
    let parsed = DesktopFileBuilder::from_desktop_entry_content(content, false).unwrap();
    let cats = parsed.categories().unwrap();
    assert_eq!(cats, "Audio Video,Player;;Tools:x;");
    assert_eq!(
        split_text(&cats, ';'),
        vec!["Audio Video,Player".to_string(), "".to_string(), "Tools:x".to_string(), "".to_string()]
    );
}

#[test]
fn scenario_minimal_text_parses() {
    let text = "[Desktop Entry]\nType=Application\nName=Foo\nExec=foo\nX-AppHub=true\n";
    let parsed = DesktopFileBuilder::from_desktop_entry_content(text, true).unwrap();
    assert_eq!(parsed.type_(), Some("Application".to_string()));
    assert_eq!(parsed.name(), Some("Foo".to_string()));
    assert_eq!(parsed.exec(), Some("foo".to_string()));
    assert!(parsed.version().is_none());
    assert!(parsed.comment().is_none());
    assert!(parsed.path().is_none());
    assert!(parsed.icon().is_none());
    assert!(parsed.terminal().is_none());
    assert!(parsed.categories().is_none());
    assert!(parsed.no_sanbox().is_none());
}

#[test]
fn marker_required_but_missing_fails() {
    let text = "[Desktop Entry]\nType=Application\nName=Foo\nExec=foo\n";
    assert!(matches!(
        DesktopFileBuilder::from_desktop_entry_content(text, true),
        Err("Invalid .desktop file")
    ));
    assert!(DesktopFileBuilder::from_desktop_entry_content(text, false).is_ok());
}

#[test]
fn marker_must_be_a_whole_line() {
    let text = "[Desktop Entry]\nName=Foo\nX-AppHub=trueish\nComment=X-AppHub=true\n";
    assert!(DesktopFileBuilder::from_desktop_entry_content(text, true).is_err());
}

#[test]
fn keys_match_at_line_start_and_first_wins() {
    let text = "[Desktop Entry]\nGenericName=Generic\nName=First\nName=Second\nX-AppHub=true";
    let parsed = DesktopFileBuilder::from_desktop_entry_content(text, true).unwrap();
    assert_eq!(parsed.name(), Some("First".to_string()));
}

#[test]
fn value_keeps_rest_of_line() {
    let text = "Exec=env A=b run %U\nName=x=y";
    let parsed = DesktopFileBuilder::from_desktop_entry_content(text, false).unwrap();
    assert_eq!(parsed.exec(), Some("env A=b run %U".to_string()));
    assert_eq!(parsed.name(), Some("x=y".to_string()));
}

#[test]
fn empty_text_parses_to_nothing() {
    let parsed = DesktopFileBuilder::from_desktop_entry_content("", false).unwrap();
    assert!(parsed.type_().is_none());
    assert!(parsed.name().is_none());
    assert!(DesktopFileBuilder::from_desktop_entry_content("", true).is_err());
}

#[test]
fn text_helpers() {
    assert_eq!(split_text("a;b", ';'), vec!["a".to_string(), "b".to_string()]);
    assert_eq!(split_text("", ';'), vec!["".to_string()]);
    assert_eq!(join_text(&vec!["a".to_string(), "b".to_string(), "c".to_string()], ";"), "a;b;c");
    assert_eq!(join_text(&vec![], ";"), "");
    assert!(contains_text("/opt/apps/Foo.AppImage --x", "Foo.AppImage"));
    assert!(contains_text("abc", ""));
    assert!(!contains_text("abc", "abcd"));
    assert!(!contains_text("abc", "ac"));
}
