//! The tray's state: how many messages are unread and whether the main window
//! is hidden, and what the tray shows for them.
use vstd::prelude::*;
use crate::control::{shows_after, window_should_show};
use crate::icon::{build_tray_icon, icon_rendered};
use crate::text::{
    badge_count, badge_label, badge_number, badge_text, toggle_item_label, toggle_item_text,
    tooltip, tooltip_text,
};

verus! {

/// What the tray shows for an unread count.
pub struct UnreadDisplay {
    /// The tray icon, ICON_SIZE x ICON_SIZE RGBA pixels.
    pub icon: Vec<u8>,
    /// The tray tooltip.
    pub tooltip: String,
    /// The title shown beside the tray icon, where the platform has one.
    pub title: Option<String>,
    /// The number on the window's dock or taskbar badge.
    pub badge_count: Option<i64>,
}

/// The unread count last reported and whether the main window is hidden.
pub struct TrayState {
    unread: u32,
    hidden: bool,
}

impl TrayState {
    /// The unread count last reported.
    pub closed spec fn unread_count(&self) -> u32 {
        self.unread
    }

    /// Whether the main window is hidden.
    pub closed spec fn is_hidden(&self) -> bool {
        self.hidden
    }

    /// A tray with nothing unread, for a window that is `hidden` or not; the
    /// show/hide entry's text to start with comes with it.
    pub fn new(hidden: bool) -> (res: (TrayState, &'static str))
        ensures
            res.0.unread_count() == 0,
            res.0.is_hidden() == hidden,
            res.1@ == toggle_item_text(hidden),
    {
        let mut state = TrayState { unread: 0, hidden: false };
        let label = state.set_hidden(hidden);
        (state, label)
    }

    /// Records `count` unread messages and returns what the tray then shows.
    pub fn update_unread(&mut self, count: u32) -> (shown: UnreadDisplay)
        ensures
            final(self).unread_count() == count,
            final(self).is_hidden() == old(self).is_hidden(),
            icon_rendered(count, shown.icon@),
            shown.tooltip@ == tooltip(count),
            match shown.title {
                None => badge_label(count) is None,
                Some(t) => badge_label(count) == Some(t@),
            },
            match shown.badge_count {
                None => badge_number(count) is None,
                Some(n) => badge_number(count) == Some(n as int),
            },
    {
        self.unread = count;
        UnreadDisplay {
            icon: build_tray_icon(count),
            tooltip: tooltip_text(count),
            title: badge_text(count),
            badge_count: badge_count(count),
        }
    }

    /// Records whether the window is hidden; returns the show/hide entry's
    /// new text.
    pub fn set_hidden(&mut self, hidden: bool) -> (label: &'static str)
        ensures
            final(self).is_hidden() == hidden,
            final(self).unread_count() == old(self).unread_count(),
            label@ == toggle_item_text(hidden),
    {
        self.hidden = hidden;
        toggle_item_label(hidden)
    }

    /// Whether the main window is hidden.
    pub fn hidden(&self) -> (res: bool)
        ensures
            res == self.is_hidden(),
    {
        self.hidden
    }

    /// Decides a show/hide request on the main window: returns whether to
    /// show it (else hide it) and the show/hide entry's new text, and records
    /// the window's new state.
    pub fn toggle_main_window(&mut self, desired_visible: Option<bool>) -> (res: (bool, &'static str))
        ensures
            res.0 == shows_after(desired_visible, old(self).is_hidden()),
            final(self).is_hidden() == !res.0,
            final(self).unread_count() == old(self).unread_count(),
            res.1@ == toggle_item_text(!res.0),
    {
        let show = window_should_show(desired_visible, self.hidden);
        let label = self.set_hidden(!show);
        (show, label)
    }
}

/// The show/hide entry names what choosing it does: while the window is hidden
/// it reads "Show WhatsApp Lite" and choosing it shows the window; while shown
/// it reads "Hide WhatsApp Lite" and choosing it hides the window.
pub proof fn lemma_toggle_label_names_action(hidden: bool)
    ensures
        shows_after(None, hidden) ==> toggle_item_text(hidden) == "Show WhatsApp Lite"@,
        !shows_after(None, hidden) ==> toggle_item_text(hidden) == "Hide WhatsApp Lite"@,
        shows_after(None, hidden) == hidden,
{
}

} // verus!
