use ie_r::config::TemplateKey;
use ie_r::daemon::UserEvent;
use ie_r::menu::{build_menu, history_icon_path, is_native_popup_desktop, menu_choice, MenuAction};

#[test]
fn icon_path_drops_hash() {
    assert_eq!(history_icon_path("/tmp/ie-r-colors", "#A1B2C3"), "/tmp/ie-r-colors/A1B2C3.png");
}

#[test]
fn icon_path_absolute_entry_replaces_dir() {
    assert_eq!(history_icon_path("/tmp/ie-r-colors", "#/etc/x"), "/etc/x.png");
    assert_eq!(history_icon_path("/tmp/ie-r-colors/", "#AA"), "/tmp/ie-r-colors/AA.png");
    assert_eq!(history_icon_path("", "#AA"), "AA.png");
}

#[test]
fn menu_lines_and_actions() {
    let history = vec!["#112233".to_string()];
    let (lines, actions) = build_menu(&history, "hsl", false, "/tmp/ie-r-colors");
    assert_eq!(lines.len(), 16);
    assert_eq!(actions.len(), 16);
    assert_eq!(lines[0], "#112233\0icon\x1f/tmp/ie-r-colors/112233.png");
    assert!(matches!(&actions[0], MenuAction::History(h) if h == "#112233"));
    assert_eq!(lines[1], "○ HTML");
    assert_eq!(lines[5], "● HSL");
    assert!(matches!(actions[5], MenuAction::Template(TemplateKey::Hsl)));
    assert_eq!(lines[4], "○ RGB Float");
    assert_eq!(lines[11], "○ Show HUD");
    assert_eq!(lines[12], "⚙ Edit Config");
    assert_eq!(lines[13], "🌐 Homepage");
    assert_eq!(lines[14], "ℹ About");
    assert_eq!(lines[15], "✕ Quit");
    assert!(matches!(actions[15], MenuAction::Quit));
    let (lines, _) = build_menu(&Vec::new(), "x", true, "/d");
    assert_eq!(lines[10], "✓ Show HUD");
}

#[test]
fn menu_choice_reads_index() {
    assert_eq!(menu_choice(" 3\n", 16), Some(3));
    assert_eq!(menu_choice("", 16), None);
    assert_eq!(menu_choice("  \n", 16), None);
    assert_eq!(menu_choice("16", 16), None);
    assert_eq!(menu_choice("x", 16), None);
    assert_eq!(menu_choice("+2", 16), Some(2));
}

#[test]
fn menu_action_events() {
    assert!(matches!(MenuAction::Template(TemplateKey::Cmyk).into_event(), UserEvent::SelectTemplate(k) if k == "cmyk"));
    assert!(matches!(MenuAction::History("#010203".to_string()).into_event(), UserEvent::CopyFromHistory(h) if h == "#010203"));
    assert!(matches!(MenuAction::ToggleHud.into_event(), UserEvent::ToggleHUD));
    assert!(matches!(MenuAction::About.into_event(), UserEvent::ShowAbout));
    assert!(matches!(MenuAction::Homepage.into_event(), UserEvent::OpenHomepage));
    assert!(matches!(MenuAction::EditConfig.into_event(), UserEvent::EditConfig));
    assert!(matches!(MenuAction::Quit.into_event(), UserEvent::Quit));
}

#[test]
fn native_popup_desktops() {
    assert!(is_native_popup_desktop("KDE"));
    assert!(is_native_popup_desktop("ubuntu:GNOME"));
    assert!(is_native_popup_desktop("X-Cinnamon:"));
    assert!(!is_native_popup_desktop("Hyprland"));
    assert!(!is_native_popup_desktop(""));
    assert!(!is_native_popup_desktop("KDE5"));
    assert!(!is_native_popup_desktop("kde"));
}
