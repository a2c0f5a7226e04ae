use gitrx::menu::{build_menu, AppMenuEntry, WINDOW_MENU_ID};

#[test]
fn the_menu_keeps_the_standard_commands() {
    let menu = build_menu("gitrx", true);
    let titles: Vec<&str> = menu.iter().map(|m| m.title.as_str()).collect();
    assert_eq!(titles, vec!["gitrx", "Edit", "Window"]);
    assert_eq!(
        menu[0].entries,
        vec![
            AppMenuEntry::About,
            AppMenuEntry::Separator,
            AppMenuEntry::InstallCli,
            AppMenuEntry::Separator,
            AppMenuEntry::Services,
            AppMenuEntry::Separator,
            AppMenuEntry::Hide,
            AppMenuEntry::HideOthers,
            AppMenuEntry::ShowAll,
            AppMenuEntry::Separator,
            AppMenuEntry::Quit,
        ]
    );
    assert_eq!(
        menu[1].entries,
        vec![
            AppMenuEntry::Undo,
            AppMenuEntry::Redo,
            AppMenuEntry::Separator,
            AppMenuEntry::Cut,
            AppMenuEntry::Copy,
            AppMenuEntry::Paste,
            AppMenuEntry::SelectAll,
        ]
    );
    assert_eq!(
        menu[2].entries,
        vec![
            AppMenuEntry::Minimize,
            AppMenuEntry::Maximize,
            AppMenuEntry::Fullscreen,
            AppMenuEntry::Separator,
            AppMenuEntry::CloseWindow,
        ]
    );
    assert_eq!(menu[0].id, None);
    assert_eq!(menu[2].id, Some(WINDOW_MENU_ID));
}

#[test]
fn only_macos_offers_the_launcher() {
    let menu = build_menu("gitrx", false);
    assert!(!menu[0].entries.contains(&AppMenuEntry::InstallCli));
    assert_eq!(menu[0].entries.len(), 9);
}
