use vibeshell::desktop::{first_of_each_id, parse_desktop_entry, split_data_dirs};

const FIREFOX: &str = "\
[Desktop Entry]
Type=Application
Name=Firefox
Name[de]=Feuerfuchs
Exec=firefox %u
Icon=firefox
Keywords=browser; web ;;internet;
Keywords[de]=netz
Terminal=False

[Desktop Action new-window]
Name=New Window
Exec=firefox --new-window
";

#[test]
fn parses_the_desktop_entry_group() {
    let e = parse_desktop_entry(FIREFOX, "firefox.desktop".into(), "/usr/share/applications/firefox.desktop".into())
        .expect("listed");
    assert_eq!(e.id, "firefox.desktop");
    assert_eq!(e.name, "Firefox");
    assert_eq!(e.exec_line, "firefox %u");
    assert_eq!(e.icon.as_deref(), Some("firefox"));
    assert_eq!(e.keywords, vec!["browser".to_owned(), "web".to_owned(), "internet".to_owned()]);
    assert!(!e.terminal);
}

#[test]
fn hidden_or_non_applications_are_not_listed() {
    let hidden = "[Desktop Entry]\nType=Application\nName=X\nExec=x\nNoDisplay=true\n";
    assert!(parse_desktop_entry(hidden, "x.desktop".into(), "x".into()).is_none());
    let link = "[Desktop Entry]\nType=Link\nName=X\nExec=x\n";
    assert!(parse_desktop_entry(link, "x.desktop".into(), "x".into()).is_none());
    let nameless = "[Desktop Entry]\nType=Application\nExec=x\n";
    assert!(parse_desktop_entry(nameless, "x.desktop".into(), "x".into()).is_none());
    let outside = "Type=Application\nName=X\nExec=x\n";
    assert!(parse_desktop_entry(outside, "x.desktop".into(), "x".into()).is_none());
}

#[test]
fn terminal_flag_ignores_case_and_spacing() {
    let text = "# comment\r\n[Desktop Entry]\r\n  Type = Application  \r\nName=Htop\r\nExec=htop\r\nTerminal=TRUE\r\n";
    let e = parse_desktop_entry(text, "htop.desktop".into(), "p".into()).expect("listed");
    assert!(e.terminal);
    assert_eq!(e.icon, None);
    assert!(e.keywords.is_empty());
}

#[test]
fn first_desktop_id_in_search_order_wins() {
    let a = parse_desktop_entry("[Desktop Entry]\nType=Application\nName=A\nExec=a\n", "app.desktop".into(), "home".into())
        .unwrap();
    let b = parse_desktop_entry("[Desktop Entry]\nType=Application\nName=B\nExec=b\n", "app.desktop".into(), "usr".into())
        .unwrap();
    let c = parse_desktop_entry("[Desktop Entry]\nType=Application\nName=C\nExec=c\n", "other.desktop".into(), "usr".into())
        .unwrap();
    let kept = first_of_each_id(vec![a, b, c]);
    let names: Vec<&str> = kept.iter().map(|e| e.name.as_str()).collect();
    assert_eq!(names, vec!["A", "C"]);
}

#[test]
fn data_dirs_skip_empty_items() {
    assert_eq!(split_data_dirs("/usr/local/share:/usr/share"), vec!["/usr/local/share".to_owned(), "/usr/share".to_owned()]);
    assert_eq!(split_data_dirs("::/opt/share:"), vec!["/opt/share".to_owned()]);
    assert!(split_data_dirs("").is_empty());
}
