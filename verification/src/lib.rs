//! Verified core of the WhatsApp Lite desktop shell: the tray icon rasteriser,
//! the unread-badge and tooltip texts, and the decisions taken on window,
//! tray, shortcut and navigation events.
pub mod canvas;
pub mod glyph;
pub mod text;
pub mod icon;
pub mod strings;
pub mod control;
pub mod tray;
