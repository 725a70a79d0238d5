use whatsapp_lite::control::{
    allow_whatsapp_url, initial_tray_flags, menu_command, menu_window_request, shortcut_accelerator,
    shortcut_request, tray_event_toggles, window_should_show, MenuCommand, PointerButton,
    PointerState, ReloadKind, Shortcut, TrayPointerEvent, WindowRequest, MENU_AUTOSTART,
    MENU_HARD_RELOAD, MENU_QUIT, MENU_RELOAD, MENU_TOGGLE,
};
use whatsapp_lite::strings::{str_eq_ignore_ascii_case, str_equal};

#[test]
fn menu_ids() {
    assert_eq!(MENU_TOGGLE, "tray-toggle");
    assert_eq!(MENU_RELOAD, "tray-reload");
    assert_eq!(MENU_HARD_RELOAD, "tray-hard-reload");
    assert_eq!(MENU_QUIT, "tray-quit");
    assert_eq!(MENU_AUTOSTART, "tray-autostart");
}

#[test]
fn menu_commands_by_id() {
    assert_eq!(menu_command("tray-toggle"), MenuCommand::Toggle);
    assert_eq!(menu_command("tray-reload"), MenuCommand::Reload);
    assert_eq!(menu_command("tray-hard-reload"), MenuCommand::HardReload);
    assert_eq!(menu_command("tray-quit"), MenuCommand::Quit);
    assert_eq!(menu_command("tray-autostart"), MenuCommand::Autostart);
    assert_eq!(menu_command(""), MenuCommand::Unknown);
    assert_eq!(menu_command("tray-Quit"), MenuCommand::Unknown);
    assert_eq!(menu_command("tray-reload "), MenuCommand::Unknown);
}

#[test]
fn menu_window_requests() {
    assert_eq!(
        menu_window_request(MenuCommand::Toggle),
        Some(WindowRequest { desired_visible: None, reload: ReloadKind::Keep })
    );
    assert_eq!(
        menu_window_request(MenuCommand::Reload),
        Some(WindowRequest { desired_visible: Some(true), reload: ReloadKind::Reload })
    );
    assert_eq!(
        menu_window_request(MenuCommand::HardReload),
        Some(WindowRequest { desired_visible: Some(true), reload: ReloadKind::ClearAndReload })
    );
    assert_eq!(menu_window_request(MenuCommand::Quit), None);
    assert_eq!(menu_window_request(MenuCommand::Autostart), None);
    assert_eq!(menu_window_request(MenuCommand::Unknown), None);
}

#[test]
fn shortcuts() {
    assert_eq!(shortcut_accelerator(Shortcut::Reload), "CmdOrCtrl+R");
    assert_eq!(shortcut_accelerator(Shortcut::HardReload), "CmdOrCtrl+Shift+R");
    assert_eq!(shortcut_accelerator(Shortcut::Close), "CmdOrCtrl+W");
    assert_eq!(
        shortcut_request(Shortcut::Reload),
        WindowRequest { desired_visible: Some(true), reload: ReloadKind::Reload }
    );
    assert_eq!(
        shortcut_request(Shortcut::HardReload),
        WindowRequest { desired_visible: Some(true), reload: ReloadKind::ClearAndReload }
    );
    assert_eq!(
        shortcut_request(Shortcut::Close),
        WindowRequest { desired_visible: Some(false), reload: ReloadKind::Keep }
    );
}

#[test]
fn window_visibility_decisions() {
    assert!(window_should_show(None, true));
    assert!(!window_should_show(None, false));
    assert!(window_should_show(Some(true), true));
    assert!(window_should_show(Some(true), false));
    assert!(!window_should_show(Some(false), true));
    assert!(!window_should_show(Some(false), false));
}

#[test]
fn flipping_twice_restores_the_window() {
    for hidden in [true, false] {
        let after_one = !window_should_show(None, hidden);
        let after_two = !window_should_show(None, after_one);
        assert_eq!(after_one, !hidden);
        assert_eq!(after_two, hidden);
        for v in [true, false] {
            let once = !window_should_show(Some(v), hidden);
            let twice = !window_should_show(Some(v), once);
            assert_eq!(once, !v);
            assert_eq!(twice, once);
        }
    }
}

#[test]
fn tray_clicks() {
    let click = |button, state| TrayPointerEvent::Click { button, state };
    assert!(tray_event_toggles(click(PointerButton::Left, PointerState::Up)));
    assert!(!tray_event_toggles(click(PointerButton::Left, PointerState::Down)));
    assert!(!tray_event_toggles(click(PointerButton::Right, PointerState::Up)));
    assert!(!tray_event_toggles(click(PointerButton::Middle, PointerState::Up)));
    assert!(!tray_event_toggles(TrayPointerEvent::Other));
}

#[test]
fn navigation_policy() {
    assert!(allow_whatsapp_url("tauri", Some("localhost")));
    assert!(allow_whatsapp_url("about", None));
    assert!(allow_whatsapp_url("https", Some("web.whatsapp.com")));
    assert!(allow_whatsapp_url("https", Some("WEB.WhatsApp.COM")));
    assert!(allow_whatsapp_url("https", Some("flows.whatsapp.net")));
    assert!(!allow_whatsapp_url("https", Some("www.whatsapp.com")));
    assert!(!allow_whatsapp_url("https", Some("web.whatsapp.com.evil.example")));
    assert!(!allow_whatsapp_url("https", None));
    assert!(!allow_whatsapp_url("http", Some("web.whatsapp.com")));
    assert!(!allow_whatsapp_url("file", None));
    assert!(!allow_whatsapp_url("HTTPS", Some("web.whatsapp.com")));
}

#[test]
fn startup_flags() {
    assert_eq!(initial_tray_flags(Some(true), Some(true)), (false, true));
    assert_eq!(initial_tray_flags(Some(false), Some(false)), (true, false));
    assert_eq!(initial_tray_flags(None, None), (false, false));
}

#[test]
fn string_comparisons() {
    assert!(str_equal("abc", "abc"));
    assert!(!str_equal("abc", "abd"));
    assert!(!str_equal("abc", "ab"));
    assert!(str_equal("", ""));
    assert!(str_eq_ignore_ascii_case("Hello", "hELLO"));
    assert!(!str_eq_ignore_ascii_case("Hello", "Hell0"));
    assert!(str_eq_ignore_ascii_case("Ünï", "Ünï"));
    assert!(!str_eq_ignore_ascii_case("ü", "Ü"));
    assert!(!str_eq_ignore_ascii_case("[", "{"));
    for (a, b) in [("web.whatsapp.com", "WEB.whatsapp.COM"), ("a@z", "A@Z"), ("x`", "X@")] {
        assert_eq!(str_eq_ignore_ascii_case(a, b), a.eq_ignore_ascii_case(b));
    }
}
