//! Decisions taken on window, tray, menu, shortcut and navigation events. The
//! shell performs what these functions decide.
use vstd::prelude::*;
use crate::strings::{eq_ignoring_ascii_case, str_eq_ignore_ascii_case, str_equal};

verus! {

/// Id of the tray menu entry that shows or hides the window.
pub const MENU_TOGGLE: &'static str = "tray-toggle";

/// Id of the tray menu entry that reloads the page.
pub const MENU_RELOAD: &'static str = "tray-reload";

/// Id of the tray menu entry that clears the browsing data and reloads.
pub const MENU_HARD_RELOAD: &'static str = "tray-hard-reload";

/// Id of the tray menu entry that quits.
pub const MENU_QUIT: &'static str = "tray-quit";

/// Id of the tray menu's "Start at Login" check box.
pub const MENU_AUTOSTART: &'static str = "tray-autostart";

/// Whether the main window is shown after a show/hide request: an explicit
/// request wins, and without one the window flips, so a hidden window shows.
pub open spec fn shows_after(desired_visible: Option<bool>, hidden: bool) -> bool {
    match desired_visible {
        Some(v) => v,
        None => hidden,
    }
}

/// Whether the window counts as hidden after a show/hide request.
pub open spec fn hidden_after(desired_visible: Option<bool>, hidden: bool) -> bool {
    !shows_after(desired_visible, hidden)
}

/// Decides whether a show/hide request shows the main window (`true`) or
/// hides it (`false`), given whether it is hidden now.
pub fn window_should_show(desired_visible: Option<bool>, hidden: bool) -> (show: bool)
    ensures
        show == shows_after(desired_visible, hidden),
{
    match desired_visible {
        Some(v) => v,
        None => hidden,
    }
}

/// Flipping the window twice brings it back to where it was, and an explicit
/// request gives the same state however often it is repeated.
pub proof fn lemma_toggle_laws(hidden: bool, v: bool)
    ensures
        hidden_after(None, hidden_after(None, hidden)) == hidden,
        hidden_after(None, hidden) == !hidden,
        hidden_after(Some(v), hidden_after(Some(v), hidden)) == hidden_after(Some(v), hidden),
        hidden_after(Some(v), hidden) == !v,
{
}

/// What becomes of the page when the window is brought up.
#[derive(PartialEq, Eq, Structural, Debug, Clone, Copy)]
pub enum ReloadKind {
    /// Leave the page as it is.
    Keep,
    /// Reload the page.
    Reload,
    /// Clear all browsing data, then reload the page.
    ClearAndReload,
}

/// A request on the main window: a show/hide request and a reload.
#[derive(PartialEq, Eq, Structural, Debug, Clone, Copy)]
pub struct WindowRequest {
    /// `Some(true)` to show, `Some(false)` to hide, `None` to flip.
    pub desired_visible: Option<bool>,
    /// What to do with the page afterwards.
    pub reload: ReloadKind,
}

/// The entries of the tray menu.
#[derive(PartialEq, Eq, Structural, Debug, Clone, Copy)]
pub enum MenuCommand {
    Toggle,
    Reload,
    HardReload,
    Quit,
    Autostart,
    /// An id the menu does not know: nothing happens.
    Unknown,
}

/// The menu entry with the given id.
pub open spec fn menu_command_of(id: Seq<char>) -> MenuCommand {
    if id == MENU_TOGGLE@ {
        MenuCommand::Toggle
    } else if id == MENU_RELOAD@ {
        MenuCommand::Reload
    } else if id == MENU_HARD_RELOAD@ {
        MenuCommand::HardReload
    } else if id == MENU_QUIT@ {
        MenuCommand::Quit
    } else if id == MENU_AUTOSTART@ {
        MenuCommand::Autostart
    } else {
        MenuCommand::Unknown
    }
}

/// Identifies the tray menu entry behind a menu event id.
pub fn menu_command(id: &str) -> (cmd: MenuCommand)
    ensures
        cmd == menu_command_of(id@),
{
    if str_equal(id, MENU_TOGGLE) {
        MenuCommand::Toggle
    } else if str_equal(id, MENU_RELOAD) {
        MenuCommand::Reload
    } else if str_equal(id, MENU_HARD_RELOAD) {
        MenuCommand::HardReload
    } else if str_equal(id, MENU_QUIT) {
        MenuCommand::Quit
    } else if str_equal(id, MENU_AUTOSTART) {
        MenuCommand::Autostart
    } else {
        MenuCommand::Unknown
    }
}

/// The window request of a menu entry, for the entries that make one: the
/// toggle flips the window, and both reloads bring it up first.
pub open spec fn menu_request_of(cmd: MenuCommand) -> Option<WindowRequest> {
    match cmd {
        MenuCommand::Toggle => Some(WindowRequest { desired_visible: None, reload: ReloadKind::Keep }),
        MenuCommand::Reload => Some(WindowRequest { desired_visible: Some(true), reload: ReloadKind::Reload }),
        MenuCommand::HardReload => Some(
            WindowRequest { desired_visible: Some(true), reload: ReloadKind::ClearAndReload },
        ),
        _ => None,
    }
}

/// The window request that a tray menu entry makes, if any.
pub fn menu_window_request(cmd: MenuCommand) -> (req: Option<WindowRequest>)
    ensures
        req == menu_request_of(cmd),
{
    match cmd {
        MenuCommand::Toggle => Some(WindowRequest { desired_visible: None, reload: ReloadKind::Keep }),
        MenuCommand::Reload => Some(WindowRequest { desired_visible: Some(true), reload: ReloadKind::Reload }),
        MenuCommand::HardReload => Some(
            WindowRequest { desired_visible: Some(true), reload: ReloadKind::ClearAndReload },
        ),
        _ => None,
    }
}

/// The global keyboard shortcuts.
#[derive(PartialEq, Eq, Structural, Debug, Clone, Copy)]
pub enum Shortcut {
    /// CmdOrCtrl+R
    Reload,
    /// CmdOrCtrl+Shift+R
    HardReload,
    /// CmdOrCtrl+W
    Close,
}

/// The accelerator a shortcut is registered under.
pub open spec fn accelerator_of(shortcut: Shortcut) -> Seq<char> {
    match shortcut {
        Shortcut::Reload => "CmdOrCtrl+R"@,
        Shortcut::HardReload => "CmdOrCtrl+Shift+R"@,
        Shortcut::Close => "CmdOrCtrl+W"@,
    }
}

/// The window request a shortcut makes: the reloads bring the window up,
/// closing hides it.
pub open spec fn shortcut_request_of(shortcut: Shortcut) -> WindowRequest {
    match shortcut {
        Shortcut::Reload => WindowRequest { desired_visible: Some(true), reload: ReloadKind::Reload },
        Shortcut::HardReload => WindowRequest {
            desired_visible: Some(true),
            reload: ReloadKind::ClearAndReload,
        },
        Shortcut::Close => WindowRequest { desired_visible: Some(false), reload: ReloadKind::Keep },
    }
}

/// The accelerator under which `shortcut` is registered.
pub fn shortcut_accelerator(shortcut: Shortcut) -> (res: &'static str)
    ensures
        res@ == accelerator_of(shortcut),
{
    match shortcut {
        Shortcut::Reload => "CmdOrCtrl+R",
        Shortcut::HardReload => "CmdOrCtrl+Shift+R",
        Shortcut::Close => "CmdOrCtrl+W",
    }
}

/// The window request that `shortcut` makes.
pub fn shortcut_request(shortcut: Shortcut) -> (req: WindowRequest)
    ensures
        req == shortcut_request_of(shortcut),
{
    match shortcut {
        Shortcut::Reload => WindowRequest { desired_visible: Some(true), reload: ReloadKind::Reload },
        Shortcut::HardReload => WindowRequest {
            desired_visible: Some(true),
            reload: ReloadKind::ClearAndReload,
        },
        Shortcut::Close => WindowRequest { desired_visible: Some(false), reload: ReloadKind::Keep },
    }
}

/// A mouse button on the tray icon.
#[derive(PartialEq, Eq, Structural, Debug, Clone, Copy)]
pub enum PointerButton {
    Left,
    Right,
    Middle,
}

/// Whether a mouse button went down or came up.
#[derive(PartialEq, Eq, Structural, Debug, Clone, Copy)]
pub enum PointerState {
    Up,
    Down,
}

/// What happened on the tray icon.
#[derive(PartialEq, Eq, Structural, Debug, Clone, Copy)]
pub enum TrayPointerEvent {
    Click { button: PointerButton, state: PointerState },
    /// Double clicks and pointer moves, enters and leaves.
    Other,
}

/// Whether a tray icon event flips the main window: releasing the left button
/// does, nothing else.
pub fn tray_event_toggles(event: TrayPointerEvent) -> (res: bool)
    ensures
        res == (event == TrayPointerEvent::Click { button: PointerButton::Left, state: PointerState::Up }),
{
    match event {
        TrayPointerEvent::Click { button: PointerButton::Left, state: PointerState::Up } => true,
        _ => false,
    }
}

/// The hosts the embedded web view may navigate to.
pub open spec fn allowed_host(host: Seq<char>) -> bool {
    eq_ignoring_ascii_case(host, "web.whatsapp.com"@) || eq_ignoring_ascii_case(host, "flows.whatsapp.net"@)
}

/// Whether the web view may open a URL with this scheme and host: the app's
/// own and blank pages, and WhatsApp's hosts over HTTPS; everything else goes
/// to the system browser.
pub open spec fn navigation_allowed(scheme: Seq<char>, host: Option<Seq<char>>) -> bool {
    if scheme == "tauri"@ || scheme == "about"@ {
        true
    } else if scheme == "https"@ {
        match host {
            Some(h) => allowed_host(h),
            None => false,
        }
    } else {
        false
    }
}

/// Decides whether the web view may navigate to a URL of scheme `scheme` and
/// host `host` (its host string, `None` when it has none).
pub fn allow_whatsapp_url(scheme: &str, host: Option<&str>) -> (res: bool)
    ensures
        res == navigation_allowed(
            scheme@,
            match host {
                Some(h) => Some(h@),
                None => None,
            },
        ),
{
    if str_equal(scheme, "tauri") || str_equal(scheme, "about") {
        true
    } else if str_equal(scheme, "https") {
        match host {
            Some(h) => str_eq_ignore_ascii_case(h, "web.whatsapp.com") || str_eq_ignore_ascii_case(
                h,
                "flows.whatsapp.net",
            ),
            None => false,
        }
    } else {
        false
    }
}

/// The state the tray starts in: hidden when the window reports it is not
/// visible (visible when it cannot tell), and the autostart box checked when
/// autostart reports it is enabled (unchecked when it cannot tell).
pub fn initial_tray_flags(window_visible: Option<bool>, autostart_enabled: Option<bool>) -> (res: (
    bool,
    bool,
))
    ensures
        res.0 == !(match window_visible {
            Some(v) => v,
            None => true,
        }),
        res.1 == (match autostart_enabled {
            Some(e) => e,
            None => false,
        }),
{
    let visible = match window_visible {
        Some(v) => v,
        None => true,
    };
    let enabled = match autostart_enabled {
        Some(e) => e,
        None => false,
    };
    (!visible, enabled)
}

/// The web view keeps a URL exactly when its scheme is "tauri" or "about", or
/// it is "https" with a host equal, up to ASCII case, to web.whatsapp.com or
/// flows.whatsapp.net; every other URL is handed to the system.
pub proof fn lemma_navigation_policy(scheme: Seq<char>, host: Option<Seq<char>>)
    ensures
        navigation_allowed(scheme, host) <==> {
            ||| scheme == "tauri"@
            ||| scheme == "about"@
            ||| scheme == "https"@ && host is Some && {
                let h = host.unwrap();
                ||| h.len() == "web.whatsapp.com"@.len() && forall|i: int|
                    0 <= i < h.len() ==> (if 'A' <= #[trigger] h[i] <= 'Z' {
                        h[i] as int + 32
                    } else {
                        h[i] as int
                    }) == (if 'A' <= "web.whatsapp.com"@[i] <= 'Z' {
                        "web.whatsapp.com"@[i] as int + 32
                    } else {
                        "web.whatsapp.com"@[i] as int
                    })
                ||| h.len() == "flows.whatsapp.net"@.len() && forall|i: int|
                    0 <= i < h.len() ==> (if 'A' <= #[trigger] h[i] <= 'Z' {
                        h[i] as int + 32
                    } else {
                        h[i] as int
                    }) == (if 'A' <= "flows.whatsapp.net"@[i] <= 'Z' {
                        "flows.whatsapp.net"@[i] as int + 32
                    } else {
                        "flows.whatsapp.net"@[i] as int
                    })
            }
        },
        navigation_allowed(scheme, host) ==> scheme == "tauri"@ || scheme == "about"@ || scheme
            == "https"@,
{
}

/// The tray menu and the keyboard agree: "Reload" and CmdOrCtrl+R both bring
/// the window up and reload the page, "Clear Cache & Reload" and
/// CmdOrCtrl+Shift+R both bring it up and clear the browsing data before
/// reloading, the show/hide entry flips the window without touching the page,
/// CmdOrCtrl+W hides it without touching the page, and quitting, the
/// autostart box and unknown ids make no window request.
pub proof fn lemma_menu_and_shortcuts_agree(id: Seq<char>)
    ensures
        id == "tray-reload"@ ==> menu_request_of(menu_command_of(id)) == Some(
            shortcut_request_of(Shortcut::Reload),
        ),
        id == "tray-hard-reload"@ ==> menu_request_of(menu_command_of(id)) == Some(
            shortcut_request_of(Shortcut::HardReload),
        ),
        shortcut_request_of(Shortcut::Reload).desired_visible == Some(true),
        shortcut_request_of(Shortcut::Reload).reload == ReloadKind::Reload,
        shortcut_request_of(Shortcut::HardReload).desired_visible == Some(true),
        shortcut_request_of(Shortcut::HardReload).reload == ReloadKind::ClearAndReload,
        shortcut_request_of(Shortcut::Close).desired_visible == Some(false),
        shortcut_request_of(Shortcut::Close).reload == ReloadKind::Keep,
        id == "tray-toggle"@ ==> menu_request_of(menu_command_of(id)) == Some(
            WindowRequest { desired_visible: None, reload: ReloadKind::Keep },
        ),
        id == "tray-quit"@ ==> menu_command_of(id) == MenuCommand::Quit && menu_request_of(
            menu_command_of(id),
        ) is None,
        id == "tray-autostart"@ ==> menu_command_of(id) == MenuCommand::Autostart
            && menu_request_of(menu_command_of(id)) is None,
        menu_command_of(id) == MenuCommand::Unknown ==> menu_request_of(menu_command_of(id)) is None,
        !(id == "tray-reload"@ || id == "tray-hard-reload"@ || id == "tray-toggle"@ || id
            == "tray-quit"@ || id == "tray-autostart"@) ==> menu_command_of(id) == MenuCommand::Unknown,
{
    reveal_strlit("tray-reload");
    reveal_strlit("tray-hard-reload");
    reveal_strlit("tray-toggle");
    reveal_strlit("tray-quit");
    reveal_strlit("tray-autostart");
    assert("tray-reload"@ != "tray-toggle"@) by {
        assert("tray-reload"@[5] != "tray-toggle"@[5]);
    }
    assert("tray-hard-reload"@ != "tray-toggle"@) by {
        assert("tray-hard-reload"@.len() != "tray-toggle"@.len());
    }
    assert("tray-hard-reload"@ != "tray-reload"@) by {
        assert("tray-hard-reload"@.len() != "tray-reload"@.len());
    }
    assert("tray-quit"@ != "tray-toggle"@) by {
        assert("tray-quit"@.len() != "tray-toggle"@.len());
    }
    assert("tray-quit"@ != "tray-reload"@) by {
        assert("tray-quit"@.len() != "tray-reload"@.len());
    }
    assert("tray-quit"@ != "tray-hard-reload"@) by {
        assert("tray-quit"@.len() != "tray-hard-reload"@.len());
    }
    assert("tray-autostart"@ != "tray-toggle"@) by {
        assert("tray-autostart"@.len() != "tray-toggle"@.len());
    }
    assert("tray-autostart"@ != "tray-reload"@) by {
        assert("tray-autostart"@.len() != "tray-reload"@.len());
    }
    assert("tray-autostart"@ != "tray-hard-reload"@) by {
        assert("tray-autostart"@.len() != "tray-hard-reload"@.len());
    }
    assert("tray-autostart"@ != "tray-quit"@) by {
        assert("tray-autostart"@.len() != "tray-quit"@.len());
    }
}

} // verus!
