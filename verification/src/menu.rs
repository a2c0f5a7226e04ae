//! The application menu: its layout, and where its events go.
//!
//! The standard commands have to be part of the layout: without them the clipboard commands are
//! missing from every text field.

use crate::text::{owned, same_text};
use vstd::prelude::*;

verus! {

/// The id of the item that installs the command line launcher.
pub const INSTALL_CLI_ID: &'static str = "install-cli";

/// The id of the window submenu, by which it is found once the menu is installed.
pub const WINDOW_MENU_ID: &'static str = "window-menu";

/// An entry of a submenu.
#[derive(Debug, Clone, Copy, PartialEq, Eq, Structural)]
pub enum AppMenuEntry {
    Separator,
    About,
    InstallCli,
    Services,
    Hide,
    HideOthers,
    ShowAll,
    Quit,
    Undo,
    Redo,
    Cut,
    Copy,
    Paste,
    SelectAll,
    Minimize,
    Maximize,
    Fullscreen,
    CloseWindow,
}

/// A submenu.
#[derive(Debug, Clone)]
pub struct Submenu {
    /// The id by which the submenu is found again.
    pub id: Option<&'static str>,
    pub title: String,
    pub entries: Vec<AppMenuEntry>,
}

/// A submenu as contracts speak of it.
#[verifier::ext_equal]
pub struct SubmenuView {
    pub id: Option<Seq<char>>,
    pub title: Seq<char>,
    pub entries: Seq<AppMenuEntry>,
}

impl View for Submenu {
    type V = SubmenuView;

    open spec fn view(&self) -> SubmenuView {
        SubmenuView {
            id: match self.id {
                Some(id) => Some(id@),
                None => None,
            },
            title: self.title@,
            entries: self.entries@,
        }
    }
}

/// The entries of the application's own submenu. Only macOS has the launcher item.
pub open spec fn app_entries(macos: bool) -> Seq<AppMenuEntry> {
    seq![AppMenuEntry::About, AppMenuEntry::Separator] + (if macos {
        seq![AppMenuEntry::InstallCli, AppMenuEntry::Separator]
    } else {
        Seq::empty()
    }) + seq![
        AppMenuEntry::Services,
        AppMenuEntry::Separator,
        AppMenuEntry::Hide,
        AppMenuEntry::HideOthers,
        AppMenuEntry::ShowAll,
        AppMenuEntry::Separator,
        AppMenuEntry::Quit,
    ]
}

/// The entries of the edit submenu.
pub open spec fn edit_entries() -> Seq<AppMenuEntry> {
    seq![
        AppMenuEntry::Undo,
        AppMenuEntry::Redo,
        AppMenuEntry::Separator,
        AppMenuEntry::Cut,
        AppMenuEntry::Copy,
        AppMenuEntry::Paste,
        AppMenuEntry::SelectAll,
    ]
}

/// The entries of the window submenu.
pub open spec fn window_entries() -> Seq<AppMenuEntry> {
    seq![
        AppMenuEntry::Minimize,
        AppMenuEntry::Maximize,
        AppMenuEntry::Fullscreen,
        AppMenuEntry::Separator,
        AppMenuEntry::CloseWindow,
    ]
}

/// The layout of the application menu.
pub open spec fn menu_layout(app_name: Seq<char>, macos: bool) -> Seq<SubmenuView> {
    seq![
        SubmenuView { id: None, title: app_name, entries: app_entries(macos) },
        SubmenuView { id: None, title: "Edit"@, entries: edit_entries() },
        SubmenuView { id: Some(WINDOW_MENU_ID@), title: "Window"@, entries: window_entries() },
    ]
}

/// The layout of the application menu.
pub fn build_menu(app_name: &str, macos: bool) -> (r: Vec<Submenu>)
    ensures
        r@.map_values(|m: Submenu| m@) == menu_layout(app_name@, macos),
{
    let mut app: Vec<AppMenuEntry> = Vec::new();
    app.push(AppMenuEntry::About);
    app.push(AppMenuEntry::Separator);
    if macos {
        app.push(AppMenuEntry::InstallCli);
        app.push(AppMenuEntry::Separator);
    }
    app.push(AppMenuEntry::Services);
    app.push(AppMenuEntry::Separator);
    app.push(AppMenuEntry::Hide);
    app.push(AppMenuEntry::HideOthers);
    app.push(AppMenuEntry::ShowAll);
    app.push(AppMenuEntry::Separator);
    app.push(AppMenuEntry::Quit);
    assert(app@ =~= app_entries(macos));
    let mut edit: Vec<AppMenuEntry> = Vec::new();
    edit.push(AppMenuEntry::Undo);
    edit.push(AppMenuEntry::Redo);
    edit.push(AppMenuEntry::Separator);
    edit.push(AppMenuEntry::Cut);
    edit.push(AppMenuEntry::Copy);
    edit.push(AppMenuEntry::Paste);
    edit.push(AppMenuEntry::SelectAll);
    assert(edit@ =~= edit_entries());
    let mut window: Vec<AppMenuEntry> = Vec::new();
    window.push(AppMenuEntry::Minimize);
    window.push(AppMenuEntry::Maximize);
    window.push(AppMenuEntry::Fullscreen);
    window.push(AppMenuEntry::Separator);
    window.push(AppMenuEntry::CloseWindow);
    assert(window@ =~= window_entries());
    let mut menu: Vec<Submenu> = Vec::new();
    menu.push(Submenu { id: None, title: owned(app_name), entries: app });
    menu.push(Submenu { id: None, title: owned("Edit"), entries: edit });
    menu.push(Submenu { id: Some(WINDOW_MENU_ID), title: owned("Window"), entries: window });
    assert(menu@.map_values(|m: Submenu| m@) =~= menu_layout(app_name@, macos));
    menu
}

/// Where a menu event goes.
#[derive(Debug, Clone, Copy, PartialEq, Eq, Structural)]
pub enum MenuRoute {
    /// The command line launcher is installed.
    InstallCli,
    /// The context menu takes it.
    ContextMenu,
}

/// Where a menu event goes.
pub fn handle_menu_event(id: &str, macos: bool) -> (r: MenuRoute)
    ensures
        r == if macos && id@ == INSTALL_CLI_ID@ {
            MenuRoute::InstallCli
        } else {
            MenuRoute::ContextMenu
        },
{
    if macos && same_text(id, INSTALL_CLI_ID) {
        MenuRoute::InstallCli
    } else {
        MenuRoute::ContextMenu
    }
}

/// The ids of the application menu and of the context menu never meet: an id that installs the
/// launcher is no item of the context menu.
pub proof fn law_menu_ids_do_not_collide()
    ensures
        crate::context_menu::action_with(INSTALL_CLI_ID@) is None,
        crate::context_menu::action_with(WINDOW_MENU_ID@) is None,
{
    reveal_strlit("install-cli");
    reveal_strlit("window-menu");
    reveal_strlit("ctx:stage");
    reveal_strlit("ctx:unstage");
    reveal_strlit("ctx:ignore");
    reveal_strlit("ctx:discard");
    reveal_strlit("ctx:trash");
    reveal_strlit("ctx:open");
    reveal_strlit("ctx:reveal");
    assert("install-cli"@[0] == 'i');
    assert("window-menu"@[0] == 'w');
    assert("ctx:stage"@[0] == 'c');
    assert("ctx:unstage"@[0] == 'c');
    assert("ctx:ignore"@[0] == 'c');
    assert("ctx:discard"@[0] == 'c');
    assert("ctx:trash"@[0] == 'c');
    assert("ctx:open"@[0] == 'c');
    assert("ctx:reveal"@[0] == 'c');
}

/// What the menu holds: the application's own submenu first, under its name, then the clipboard
/// commands that every text field needs, then the window commands under the id by which the
/// submenu is found again. The launcher is offered on macOS and nowhere else, and nothing else
/// depends on the system.
pub proof fn law_menu_has_its_submenus(app_name: &str, macos: bool, r: Vec<Submenu>)
    requires
        call_ensures(build_menu, (app_name, macos), r),
    ensures
        r@.len() == 3,
        r@[0].title@ == app_name@ && r@[0].id is None,
        r@[0].entries@.contains(AppMenuEntry::InstallCli) <==> macos,
        macos ==> r@[0].entries@ == seq![
            AppMenuEntry::About,
            AppMenuEntry::Separator,
            AppMenuEntry::InstallCli,
            AppMenuEntry::Separator,
            AppMenuEntry::Services,
            AppMenuEntry::Separator,
            AppMenuEntry::Hide,
            AppMenuEntry::HideOthers,
            AppMenuEntry::ShowAll,
            AppMenuEntry::Separator,
            AppMenuEntry::Quit,
        ],
        !macos ==> r@[0].entries@ == seq![
            AppMenuEntry::About,
            AppMenuEntry::Separator,
            AppMenuEntry::Services,
            AppMenuEntry::Separator,
            AppMenuEntry::Hide,
            AppMenuEntry::HideOthers,
            AppMenuEntry::ShowAll,
            AppMenuEntry::Separator,
            AppMenuEntry::Quit,
        ],
        r@[1].title@ == "Edit"@ && r@[1].id is None,
        r@[1].entries@ == seq![
            AppMenuEntry::Undo,
            AppMenuEntry::Redo,
            AppMenuEntry::Separator,
            AppMenuEntry::Cut,
            AppMenuEntry::Copy,
            AppMenuEntry::Paste,
            AppMenuEntry::SelectAll,
        ],
        r@[2].title@ == "Window"@ && (r@[2].id matches Some(id) && id@ == "window-menu"@),
        r@[2].entries@ == seq![
            AppMenuEntry::Minimize,
            AppMenuEntry::Maximize,
            AppMenuEntry::Fullscreen,
            AppMenuEntry::Separator,
            AppMenuEntry::CloseWindow,
        ],
{
    let m = r@.map_values(|m: Submenu| m@);
    assert(m.len() == r@.len());
    assert(m[0] == r@[0]@ && m[1] == r@[1]@ && m[2] == r@[2]@);
    if macos {
        assert(r@[0].entries@[2] == AppMenuEntry::InstallCli);
    }
}

/// The launcher's item installs the launcher, on macOS; every other event is for the context menu.
pub proof fn law_only_its_item_installs_the_launcher(id: &str, macos: bool, r: MenuRoute)
    requires
        call_ensures(handle_menu_event, (id, macos), r),
    ensures
        r is InstallCli <==> macos && id@ == "install-cli"@,
        r is ContextMenu <==> !macos || id@ != "install-cli"@,
{
}

} // verus!
