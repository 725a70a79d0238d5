# WhatsApp Lite, verified core

A desktop shell around WhatsApp Web. The logic of the shell lives in the
verified library under `src/`; `app/` is the Tauri program that performs what
the library decides.

- `src/canvas.rs`: a square RGBA canvas in a byte slice, drawing described by
  layers (`painted`), pixel setting, filling and discs, and the laws of
  layering (stacking, determinism).
- `src/glyph.rs`: the 5x7 font of the badge and the scaled glyph painter.
- `src/icon.rs`: the phone, the unread badge and the whole tray icon, with the
  icon's laws (saturation above 99, the badge touches only its own pixels,
  opacity).
- `src/text.rs`: decimal numerals, badge label and number, tooltip and menu
  texts.
- `src/strings.rs`: exact and ASCII-case-insensitive string comparison.
- `src/control.rs`: menu, shortcut, tray-click, show/hide and navigation
  decisions.
- `src/tray.rs`: the tray's state and what it shows for an unread count.
- `app/bridge.rs`: the script injected into the web page that
  reports unread counts and forwards notifications.

Geometry that a float formulation would give as fractions of the icon's side
is computed exactly, in hundredths of the side and two-hundredths of a pixel;
`tests/icon.rs` checks it pixel for pixel against the single-precision float
formulation of the same shapes.
