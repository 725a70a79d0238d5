use whatsapp_lite::icon::build_tray_icon;
use whatsapp_lite::tray::TrayState;

#[test]
fn new_tray_labels_the_toggle() {
    let (state, label) = TrayState::new(true);
    assert!(state.hidden());
    assert_eq!(label, "Show WhatsApp Lite");
    let (state, label) = TrayState::new(false);
    assert!(!state.hidden());
    assert_eq!(label, "Hide WhatsApp Lite");
}

#[test]
fn update_unread_shows_the_count() {
    let (mut state, _) = TrayState::new(false);
    let shown = state.update_unread(3);
    assert_eq!(shown.tooltip, "3 unread messages");
    assert_eq!(shown.title, Some("3".to_string()));
    assert_eq!(shown.badge_count, Some(3));
    assert_eq!(shown.icon, build_tray_icon(3));
    assert!(!state.hidden());

    let shown = state.update_unread(0);
    assert_eq!(shown.tooltip, "WhatsApp Lite");
    assert_eq!(shown.title, None);
    assert_eq!(shown.badge_count, None);
    assert_eq!(shown.icon, build_tray_icon(0));

    let shown = state.update_unread(2500);
    assert_eq!(shown.tooltip, "999+ unread messages");
    assert_eq!(shown.title, Some("99+".to_string()));
    assert_eq!(shown.badge_count, Some(99));
}

#[test]
fn set_hidden_is_read_back() {
    let (mut state, _) = TrayState::new(false);
    assert_eq!(state.set_hidden(true), "Show WhatsApp Lite");
    assert!(state.hidden());
    assert_eq!(state.set_hidden(false), "Hide WhatsApp Lite");
    assert!(!state.hidden());
}

#[test]
fn toggle_main_window_flips_and_obeys_requests() {
    let (mut state, _) = TrayState::new(true);
    assert_eq!(state.toggle_main_window(None), (true, "Hide WhatsApp Lite"));
    assert!(!state.hidden());
    assert_eq!(state.toggle_main_window(None), (false, "Show WhatsApp Lite"));
    assert!(state.hidden());
    assert_eq!(state.toggle_main_window(Some(true)), (true, "Hide WhatsApp Lite"));
    assert_eq!(state.toggle_main_window(Some(true)), (true, "Hide WhatsApp Lite"));
    assert_eq!(state.toggle_main_window(Some(false)), (false, "Show WhatsApp Lite"));
    assert!(state.hidden());
}
