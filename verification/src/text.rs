//! The texts the tray shows for an unread count: the badge label, the tooltip
//! and the show/hide menu entry, together with the dock badge number.
use vstd::prelude::*;

verus! {

/// The character of decimal digit `d`.
pub open spec fn digit_char(d: int) -> char {
    (48 + d) as char
}

/// The decimal numeral of `n`, without leading zeros.
pub open spec fn decimal(n: nat) -> Seq<char>
    decreases n,
{
    if n < 10 {
        seq![digit_char(n as int)]
    } else {
        decimal(n / 10).push(digit_char((n % 10) as int))
    }
}

/// The number that a string of decimal digits denotes.
pub open spec fn decimal_value(s: Seq<char>) -> int
    decreases s.len(),
{
    if s.len() == 0 {
        0
    } else {
        decimal_value(s.drop_last()) * 10 + (s.last() as int - 48)
    }
}

/// Reading a numeral back gives the number it was written from, and a
/// numeral is made of digits.
pub proof fn lemma_decimal_value(n: nat)
    ensures
        decimal_value(decimal(n)) == n,
        decimal(n).len() >= 1,
        forall|i: int| 0 <= i < decimal(n).len() ==> '0' <= #[trigger] decimal(n)[i] <= '9',
        n > 0 ==> decimal(n)[0] != '0',
    decreases n,
{
    if n < 10 {
        assert(decimal(n).drop_last() =~= Seq::<char>::empty());
        assert(digit_char(n as int) as int == 48 + n);
        assert(decimal_value(decimal(n).drop_last()) == 0);
        assert(decimal_value(decimal(n)) == decimal_value(decimal(n).drop_last()) * 10 + (
        decimal(n).last() as int - 48));
    } else {
        lemma_decimal_value(n / 10);
        assert(decimal(n).drop_last() =~= decimal(n / 10));
        assert(digit_char((n % 10) as int) as int == 48 + n % 10);
        assert(decimal(n).last() == digit_char((n % 10) as int));
        assert(n == (n / 10) * 10 + n % 10);
        assert(decimal_value(decimal(n)) == decimal_value(decimal(n).drop_last()) * 10 + (
        decimal(n).last() as int - 48));
    }
}

/// The numeral of a number below 10^k has at most k digits.
pub proof fn lemma_decimal_len(n: nat, k: nat, bound: nat)
    requires
        n < bound,
        bound == vstd::arithmetic::power::pow(10, k),
        k >= 1,
    ensures
        decimal(n).len() <= k,
    decreases k,
{
    vstd::arithmetic::power::lemma_pow_positive(10, k);
    if n >= 10 {
        vstd::arithmetic::power::lemma_pow_positive(10, (k - 1) as nat);
        vstd::arithmetic::power::lemma_pow_adds(10, 1, (k - 1) as nat);
        vstd::arithmetic::power::lemma_pow1(10);
        let b1 = vstd::arithmetic::power::pow(10, (k - 1) as nat) as nat;
        assert(bound == 10 * b1);
        assert(n / 10 < b1) by (nonlinear_arith)
            requires
                n < 10 * b1,
        ;
        if k == 1 {
            vstd::arithmetic::power::lemma_pow0(10);
            assert(false);
        }
        lemma_decimal_len(n / 10, (k - 1) as nat, b1);
    }
}

/// The one-character string of decimal digit `d`.
fn digit_str(d: u32) -> (s: &'static str)
    requires
        d < 10,
    ensures
        s@ == seq![digit_char(d as int)],
{
    match d {
        0 => {
            proof {
                reveal_strlit("0");
            }
            "0"
        },
        1 => {
            proof {
                reveal_strlit("1");
            }
            "1"
        },
        2 => {
            proof {
                reveal_strlit("2");
            }
            "2"
        },
        3 => {
            proof {
                reveal_strlit("3");
            }
            "3"
        },
        4 => {
            proof {
                reveal_strlit("4");
            }
            "4"
        },
        5 => {
            proof {
                reveal_strlit("5");
            }
            "5"
        },
        6 => {
            proof {
                reveal_strlit("6");
            }
            "6"
        },
        7 => {
            proof {
                reveal_strlit("7");
            }
            "7"
        },
        8 => {
            proof {
                reveal_strlit("8");
            }
            "8"
        },
        _ => {
            proof {
                reveal_strlit("9");
            }
            "9"
        },
    }
}

/// Appends the decimal numeral of `n`.
pub fn push_decimal(s: &mut String, n: u32)
    ensures
        final(s)@ == old(s)@ + decimal(n as nat),
    decreases n,
{
    if n >= 10 {
        push_decimal(s, n / 10);
    }
    s.append(digit_str(n % 10));
    proof {
        if n >= 10 {
            assert(decimal(n as nat) == decimal((n / 10) as nat).push(digit_char((n % 10) as int)));
        }
    }
}

/// The decimal numeral of `n` as a string.
pub fn decimal_string(n: u32) -> (s: String)
    ensures
        s@ == decimal(n as nat),
{
    let mut s = String::new();
    push_decimal(&mut s, n);
    assert(s@ =~= decimal(n as nat));
    s
}

/// The label of the unread badge: none without unread messages, the count up
/// to 99, and "99+" above.
pub open spec fn badge_label(count: u32) -> Option<Seq<char>> {
    if count == 0 {
        None
    } else if count > 99 {
        Some(seq!['9', '9', '+'])
    } else {
        Some(decimal(count as nat))
    }
}

/// The number shown on the window's dock or taskbar badge.
pub open spec fn badge_number(count: u32) -> Option<int> {
    if count == 0 {
        None
    } else if count > 99 {
        Some(99)
    } else {
        Some(count as int)
    }
}

/// The tray tooltip for an unread count.
pub open spec fn tooltip(count: u32) -> Seq<char> {
    if count == 0 {
        "WhatsApp Lite"@
    } else if count > 999 {
        "999+ unread messages"@
    } else if count == 1 {
        "1 unread message"@
    } else {
        decimal(count as nat) + " unread messages"@
    }
}

/// The text of the tray menu entry that shows or hides the main window.
pub open spec fn toggle_item_text(hidden: bool) -> Seq<char> {
    if hidden {
        "Show WhatsApp Lite"@
    } else {
        "Hide WhatsApp Lite"@
    }
}

/// The unread badge label for `count` messages.
pub fn badge_text(count: u32) -> (res: Option<String>)
    ensures
        match res {
            None => badge_label(count) is None,
            Some(s) => badge_label(count) == Some(s@),
        },
{
    if count == 0 {
        None
    } else if count > 99 {
        let mut s = String::new();
        s.append("99+");
        proof {
            reveal_strlit("99+");
            assert(s@ =~= seq!['9', '9', '+']);
        }
        Some(s)
    } else {
        Some(decimal_string(count))
    }
}

/// The dock or taskbar badge number for `count` messages.
pub fn badge_count(count: u32) -> (res: Option<i64>)
    ensures
        match res {
            None => badge_number(count) is None,
            Some(n) => badge_number(count) == Some(n as int),
        },
{
    if count == 0 {
        None
    } else if count > 99 {
        Some(99)
    } else {
        Some(count as i64)
    }
}

/// The tray tooltip for `count` unread messages.
pub fn tooltip_text(count: u32) -> (res: String)
    ensures
        res@ == tooltip(count),
{
    let mut s = String::new();
    if count == 0 {
        s.append("WhatsApp Lite");
    } else if count > 999 {
        s.append("999+ unread messages");
    } else if count == 1 {
        s.append("1 unread message");
    } else {
        push_decimal(&mut s, count);
        s.append(" unread messages");
    }
    assert(s@ =~= tooltip(count));
    s
}

/// The text of the show/hide menu entry while the window is `hidden` or not.
pub fn toggle_item_label(hidden: bool) -> (res: &'static str)
    ensures
        res@ == toggle_item_text(hidden),
{
    if hidden {
        "Show WhatsApp Lite"
    } else {
        "Hide WhatsApp Lite"
    }
}

/// The badge label and the badge number agree: both are absent exactly when
/// there is nothing unread, the label reads as the number up to 99, and above
/// 99 the label is "99+" and the number 99. The label has at most three
/// characters.
pub proof fn lemma_badge_agrees(count: u32)
    ensures
        badge_label(count) is None <==> badge_number(count) is None,
        1 <= count <= 99 ==> decimal_value(badge_label(count).unwrap())
            == badge_number(count).unwrap(),
        count > 99 ==> badge_label(count) == Some(seq!['9', '9', '+']) && badge_number(count)
            == Some(99int),
        badge_label(count) matches Some(l) ==> 1 <= l.len() <= 3,
{
    if 1 <= count <= 99 {
        lemma_decimal_value(count as nat);
        vstd::arithmetic::power::lemma_pow1(10);
        vstd::arithmetic::power::lemma_pow_adds(10, 1, 1);
        assert(vstd::arithmetic::power::pow(10, 2) == 100);
        lemma_decimal_len(count as nat, 2, 100);
    }
}

/// The numerals of numbers below a thousand, digit by digit.
proof fn lemma_decimal_below_1000(n: nat)
    requires
        n < 1000,
    ensures
        n < 10 ==> decimal(n) == seq![(48 + n) as char],
        10 <= n < 100 ==> decimal(n) == seq![(48 + n / 10) as char, (48 + n % 10) as char],
        100 <= n ==> decimal(n) == seq![
            (48 + n / 100) as char,
            (48 + (n / 10) % 10) as char,
            (48 + n % 10) as char,
        ],
{
    if n >= 10 {
        assert(decimal(n) == decimal(n / 10).push(digit_char((n % 10) as int)));
        if n >= 100 {
            let m = n / 10;
            assert(decimal(m) == decimal(m / 10).push(digit_char((m % 10) as int)));
            assert(m / 10 == n / 100);
            assert(decimal(m / 10) == seq![digit_char((n / 100) as int)]);
            assert(decimal(n) =~= seq![
                (48 + n / 100) as char,
                (48 + (n / 10) % 10) as char,
                (48 + n % 10) as char,
            ]);
        } else {
            assert(decimal(n / 10) == seq![digit_char((n / 10) as int)]);
            assert(decimal(n) =~= seq![(48 + n / 10) as char, (48 + n % 10) as char]);
        }
    }
}

/// The badge label is the count written in decimal, digit by digit, up to 99,
/// "99+" above, and absent when nothing is unread.
pub proof fn lemma_badge_label_digits(count: u32)
    ensures
        count == 0 ==> badge_label(count) is None,
        1 <= count <= 9 ==> badge_label(count) == Some(seq![(48 + count) as char]),
        10 <= count <= 99 ==> badge_label(count) == Some(
            seq![(48 + count / 10) as char, (48 + count % 10) as char],
        ),
        count > 99 ==> badge_label(count) == Some(seq!['9', '9', '+']),
{
    if 1 <= count <= 99 {
        lemma_decimal_below_1000(count as nat);
    }
}

/// The tooltip: the app's name when nothing is unread, "1 unread message" for
/// one, the count written in decimal, digit by digit, followed by
/// " unread messages" from 2 to 999, and "999+ unread messages" exactly above
/// 999.
pub proof fn lemma_tooltip_numeral(count: u32)
    ensures
        count == 0 ==> tooltip(count) == "WhatsApp Lite"@,
        count == 1 ==> tooltip(count) == "1 unread message"@,
        2 <= count <= 9 ==> tooltip(count) == seq![(48 + count) as char] + " unread messages"@,
        10 <= count <= 99 ==> tooltip(count) == seq![(48 + count / 10) as char, (48 + count % 10) as char]
            + " unread messages"@,
        100 <= count <= 999 ==> tooltip(count) == seq![
            (48 + count / 100) as char,
            (48 + (count / 10) % 10) as char,
            (48 + count % 10) as char,
        ] + " unread messages"@,
        (tooltip(count) == "999+ unread messages"@) <==> count > 999,
{
    reveal_strlit("WhatsApp Lite");
    reveal_strlit("1 unread message");
    reveal_strlit(" unread messages");
    reveal_strlit("999+ unread messages");
    if 2 <= count <= 999 {
        lemma_decimal_below_1000(count as nat);
        let t = tooltip(count);
        assert(t.len() <= 19);
        assert(t != "999+ unread messages"@) by {
            assert("999+ unread messages"@.len() == 20);
        }
    } else if count == 0 {
        assert("WhatsApp Lite"@.len() != "999+ unread messages"@.len());
    } else if count == 1 {
        assert("1 unread message"@.len() != "999+ unread messages"@.len());
    }
}

} // verus!
