use whatsapp_lite::text::{
    badge_count, badge_text, decimal_string, push_decimal, toggle_item_label, tooltip_text,
};

#[test]
fn badge_text_is_absent_without_unread() {
    assert_eq!(badge_text(0), None);
}

#[test]
fn badge_text_shows_small_counts() {
    assert_eq!(badge_text(1), Some("1".to_string()));
    assert_eq!(badge_text(7), Some("7".to_string()));
    assert_eq!(badge_text(42), Some("42".to_string()));
    assert_eq!(badge_text(99), Some("99".to_string()));
}

#[test]
fn badge_text_saturates_above_99() {
    assert_eq!(badge_text(100), Some("99+".to_string()));
    assert_eq!(badge_text(12345), Some("99+".to_string()));
    assert_eq!(badge_text(u32::MAX), Some("99+".to_string()));
}

#[test]
fn badge_count_caps_at_99() {
    assert_eq!(badge_count(0), None);
    assert_eq!(badge_count(1), Some(1));
    assert_eq!(badge_count(99), Some(99));
    assert_eq!(badge_count(100), Some(99));
    assert_eq!(badge_count(u32::MAX), Some(99));
}

#[test]
fn badge_text_and_count_agree() {
    for n in 0..300u32 {
        match (badge_text(n), badge_count(n)) {
            (None, None) => assert_eq!(n, 0),
            (Some(t), Some(c)) => {
                if n <= 99 {
                    assert_eq!(t.parse::<i64>().unwrap(), c);
                } else {
                    assert_eq!(t, "99+");
                    assert_eq!(c, 99);
                }
                assert!(!t.is_empty() && t.len() <= 3);
            }
            _ => panic!("badge text and count disagree at {n}"),
        }
    }
}

#[test]
fn tooltip_texts() {
    assert_eq!(tooltip_text(0), "WhatsApp Lite");
    assert_eq!(tooltip_text(1), "1 unread message");
    assert_eq!(tooltip_text(2), "2 unread messages");
    assert_eq!(tooltip_text(57), "57 unread messages");
    assert_eq!(tooltip_text(999), "999 unread messages");
    assert_eq!(tooltip_text(1000), "999+ unread messages");
    assert_eq!(tooltip_text(u32::MAX), "999+ unread messages");
}

#[test]
fn toggle_item_labels() {
    assert_eq!(toggle_item_label(true), "Show WhatsApp Lite");
    assert_eq!(toggle_item_label(false), "Hide WhatsApp Lite");
}

#[test]
fn decimal_strings_match_std() {
    for n in [0u32, 1, 9, 10, 11, 99, 100, 101, 1234, 65535, 1_000_000, u32::MAX] {
        assert_eq!(decimal_string(n), n.to_string());
    }
    for n in 0..2000u32 {
        assert_eq!(decimal_string(n), n.to_string());
    }
}

#[test]
fn push_decimal_appends() {
    let mut s = String::from("n=");
    push_decimal(&mut s, 305);
    assert_eq!(s, "n=305");
}
