//! The tray icon: a dark square with a green disc, a phone in its middle and,
//! while messages are unread, a red badge carrying the unread count.
use vstd::prelude::*;
use crate::canvas::{
    byte_index, disc, draw_circle, fill_rect, lemma_canvas_fits, lemma_painted_unique, in_canvas, layer_fits, lemma_paint_over, lemma_painted_nothing,
    lemma_painted_same_on_canvas, painted, pixel_fits, set_pixel, single_pixel, solid, stack,
    Layer, Rgba,
};
use crate::glyph::{draw_glyph, font, glyph_bits, glyph_in_range, glyph_layer};
use crate::text::{badge_label, badge_text, lemma_badge_agrees};
use vstd::string::*;

verus! {

/// The icon's background, and the outline and details of the phone.
pub const DARK: Rgba = [0x0b, 0x14, 0x1a, 0xff];

/// The ring between the background and the green disc.
pub const RING: Rgba = [0x19, 0x28, 0x30, 0xff];

/// The green disc.
pub const GREEN: Rgba = [0x25, 0xd3, 0x66, 0xff];

/// The phone's screen and the badge digits.
pub const WHITE: Rgba = [0xff, 0xff, 0xff, 0xff];

/// The unread badge.
pub const RED: Rgba = [0xdf, 0x3a, 0x32, 0xff];

/// Width of the phone: 22% of the side, rounded to the nearest pixel.
pub open spec fn phone_width(size: int) -> int {
    (22 * size + 50) / 100
}

/// Height of the phone: 36% of the side, rounded to the nearest pixel.
pub open spec fn phone_height(size: int) -> int {
    (36 * size + 50) / 100
}

/// Left edge of the phone, centring it horizontally.
pub open spec fn phone_left(size: int) -> int {
    (size - phone_width(size)) / 2
}

/// Top edge of the phone, centring it vertically.
pub open spec fn phone_top(size: int) -> int {
    (size - phone_height(size)) / 2
}

/// Row of the speaker slit: 15% of the height below the top, truncated.
pub open spec fn speaker_row(size: int) -> int {
    phone_top(size) + (15 * phone_height(size)) / 100
}

/// Row of the centre of the home button: a sixth of the height above the bottom.
pub open spec fn button_row(size: int) -> int {
    phone_top(size) + phone_height(size) - phone_height(size) / 6
}

/// The phone's body: a one-pixel dark outline around a white screen.
pub open spec fn phone_body(size: int) -> Layer {
    |x: int, y: int|
        {
            let w = phone_width(size);
            let h = phone_height(size);
            let dx = x - phone_left(size);
            let dy = y - phone_top(size);
            if 0 <= dx < w && 0 <= dy < h {
                if dx == 0 || dx == w - 1 || dy == 0 || dy == h - 1 {
                    Some(DARK)
                } else {
                    Some(WHITE)
                }
            } else {
                None
            }
        }
}

/// The speaker slit: a dark line across the middle half of the phone.
pub open spec fn phone_speaker(size: int) -> Layer {
    |x: int, y: int|
        {
            let w = phone_width(size);
            let x0 = phone_left(size);
            if y == speaker_row(size) && x0 + w / 4 <= x <= x0 + (3 * w) / 4 {
                Some(DARK)
            } else {
                None
            }
        }
}

/// The home button: a dark disc of radius 8% of the phone's smaller side.
pub open spec fn phone_button(size: int) -> Layer {
    let w = phone_width(size);
    let h = phone_height(size);
    disc(
        200 * phone_left(size) + 100 * w,
        200 * button_row(size),
        16 * (if w < h {
            w
        } else {
            h
        }),
        DARK,
    )
}

/// The whole phone: body, then speaker, then button.
pub open spec fn phone_layer(size: int) -> Layer {
    |x: int, y: int| stack(phone_button(size)(x, y), stack(phone_speaker(size)(x, y), phone_body(size)(x, y)))
}

/// What `layer` paints inside the `w`-wide box at `(ox, oy)`, on the box's
/// rows before `y` and on row `y` before column `x`.
pub open spec fn box_prefix(layer: Layer, ox: int, oy: int, w: int, x: int, y: int) -> Layer {
    |px: int, py: int|
        {
            let dx = px - ox;
            let dy = py - oy;
            if 0 <= dx < w && 0 <= dy && (dy < y || (dy == y && dx < x)) {
                layer(px, py)
            } else {
                None
            }
        }
}

/// A layer that paints only where another one paints fits where that one fits.
pub proof fn lemma_layer_fits_within(len: int, size: int, big: Layer, small: Layer)
    requires
        layer_fits(len, size, big),
        forall|x: int, y: int|
            in_canvas(size, x, y) && (#[trigger] small(x, y)) is Some ==> big(x, y) is Some,
    ensures
        layer_fits(len, size, small),
{
    assert forall|x: int, y: int|
        in_canvas(size, x, y) && (#[trigger] small(x, y)) is Some implies pixel_fits(len, size, x, y) by {
        assert(big(x, y) is Some);
    }
}

proof fn lemma_phone_geometry(size: int)
    requires
        0 <= size <= 0x20000,
    ensures
        0 <= phone_width(size) <= size,
        0 <= phone_height(size) <= size,
        0 <= phone_left(size),
        phone_left(size) + phone_width(size) <= size,
        0 <= phone_top(size),
        phone_top(size) + phone_height(size) <= size,
{
}

/// A phone whose pixels all fit in a buffer is drawn on a canvas of at most
/// 0x10000 pixels a side.
proof fn lemma_phone_size_bound(len: int, size: int)
    requires
        0 <= size,
        layer_fits(len, size, phone_layer(size)),
    ensures
        size <= 0x10000,
{
    if size > 0x10000 {
        let h = phone_height(size);
        let x0 = phone_left(size);
        let y = phone_top(size) + h - 1;
        assert(1 <= h <= size);
        assert(0 <= x0 < size);
        assert(0 <= y < size);
        assert(y >= 0x8000 - 2);
        assert(phone_body(size)(x0, y) is Some);
        assert(phone_layer(size)(x0, y) is Some);
        assert(pixel_fits(len, size, x0, y));
        assert(y * size >= (0x8000 - 2) * 0x10000) by (nonlinear_arith)
            requires
                y >= 0x8000 - 2,
                size > 0x10000,
        ;
    }
}

/// A badge whose pixels all fit in a buffer is drawn on a canvas of at most
/// 0x20000 pixels a side.
proof fn lemma_badge_size_bound(len: int, size: int, count: u32)
    requires
        0 <= size,
        layer_fits(len, size, badge_layer(size, count)),
    ensures
        size <= 0x20000,
{
    if size > 0x20000 {
        let x = (72 * size) / 100;
        let y = (22 * size) / 100;
        let dx = 200 * x - 144 * size;
        let dy = 200 * y - 44 * size;
        assert(-200 < dx <= 0);
        assert(-200 < dy <= 0);
        assert(dx * dx + dy * dy <= (46 * size) * (46 * size)) by (nonlinear_arith)
            requires
                -200 < dx <= 0,
                -200 < dy <= 0,
                size > 0x20000,
        ;
        assert(badge_disc(size)(x, y) is Some);
        assert(badge_layer(size, count)(x, y) is Some);
        assert(pixel_fits(len, size, x, y));
        assert(y >= 0x7000);
        assert(y * size >= 0x7000 * 0x20000) by (nonlinear_arith)
            requires
                y >= 0x7000,
                size > 0x20000,
        ;
    }
}

/// Paints the phone in the middle of the canvas: its outlined body, its
/// speaker slit and its home button.
pub fn draw_phone(data: &mut [u8], size: u32)
    requires
        layer_fits(old(data)@.len() as int, size as int, phone_layer(size as int)),
    ensures
        painted(old(data)@, final(data)@, size as int, phone_layer(size as int)),
{
    let ghost d0 = data@;
    let ghost s = size as int;
    proof {
        lemma_phone_size_bound(d0.len() as int, s);
        lemma_phone_geometry(s);
    }
    let width: u32 = (22 * size + 50) / 100;
    let height: u32 = (36 * size + 50) / 100;
    let x0: u32 = (size - width) / 2;
    let y0: u32 = (size - height) / 2;
    let ghost body = phone_body(s);
    proof {
        lemma_layer_fits_within(d0.len() as int, s, phone_layer(s), body);
        lemma_painted_nothing(d0, s, box_prefix(body, x0 as int, y0 as int, width as int, 0, 0));
    }
    let mut y: u32 = 0;
    while y < height
        invariant
            y <= height,
            s == size as int,
            size <= 0x20000,
            width == phone_width(s),
            height == phone_height(s),
            x0 == phone_left(s),
            y0 == phone_top(s),
            x0 + width <= size,
            y0 + height <= size,
            body == phone_body(s),
            data@.len() == d0.len(),
            layer_fits(d0.len() as int, s, body),
            painted(d0, data@, s, box_prefix(body, x0 as int, y0 as int, width as int, 0, y as int)),
        decreases height - y,
    {
        let mut x: u32 = 0;
        while x < width
            invariant
                x <= width,
                y < height,
                s == size as int,
                size <= 0x20000,
                width == phone_width(s),
                height == phone_height(s),
                x0 == phone_left(s),
                y0 == phone_top(s),
                x0 + width <= size,
                y0 + height <= size,
                body == phone_body(s),
                data@.len() == d0.len(),
                layer_fits(d0.len() as int, s, body),
                painted(
                    d0,
                    data@,
                    s,
                    box_prefix(body, x0 as int, y0 as int, width as int, x as int, y as int),
                ),
            decreases width - x,
        {
            let px = (x0 + x) as i32;
            let py = (y0 + y) as i32;
            let color = if x == 0 || x == width - 1 || y == 0 || y == height - 1 {
                DARK
            } else {
                WHITE
            };
            let ghost before = data@;
            proof {
                assert(body(px as int, py as int) == Some(color));
            }
            set_pixel(data, size, px, py, color);
            proof {
                lemma_paint_over(
                    d0,
                    before,
                    data@,
                    s,
                    box_prefix(body, x0 as int, y0 as int, width as int, x as int, y as int),
                    single_pixel(size, px, py, color),
                    box_prefix(body, x0 as int, y0 as int, width as int, x + 1, y as int),
                );
            }
            x = x + 1;
        }
        proof {
            lemma_painted_same_on_canvas(
                d0,
                data@,
                s,
                box_prefix(body, x0 as int, y0 as int, width as int, width as int, y as int),
                box_prefix(body, x0 as int, y0 as int, width as int, 0, y + 1),
            );
        }
        y = y + 1;
    }
    proof {
        lemma_painted_same_on_canvas(
            d0,
            data@,
            s,
            box_prefix(body, x0 as int, y0 as int, width as int, 0, height as int),
            body,
        );
    }
    let ghost d1 = data@;
    let speaker_y = y0 + (15 * height) / 100;
    let lo = x0 + width / 4;
    let hi = x0 + (3 * width) / 4;
    let ghost speaker = phone_speaker(s);
    let ghost run = |lim: int|
        (|px: int, py: int|
            if py == speaker_y && lo <= px < lim {
                Some(DARK)
            } else {
                None
            });
    proof {
        lemma_layer_fits_within(d0.len() as int, s, phone_layer(s), speaker);
        lemma_painted_nothing(d1, s, run(lo as int));
    }
    let mut x = lo;
    while x <= hi
        invariant
            lo <= x <= hi + 1,
            hi <= size,
            speaker_y <= size,
            s == size as int,
            size <= 0x20000,
            speaker == phone_speaker(s),
            speaker_y == speaker_row(s),
            lo == phone_left(s) + phone_width(s) / 4,
            hi == phone_left(s) + (3 * phone_width(s)) / 4,
            run == (|lim: int|
                (|px: int, py: int|
                    if py == speaker_y && lo <= px < lim {
                        Some(DARK)
                    } else {
                        None
                    })),
            data@.len() == d0.len(),
            layer_fits(d0.len() as int, s, speaker),
            painted(d1, data@, s, run(x as int)),
        decreases hi + 1 - x,
    {
        let ghost before = data@;
        proof {
            assert(speaker(x as int, speaker_y as int) is Some);
        }
        set_pixel(data, size, x as i32, speaker_y as i32, DARK);
        proof {
            lemma_paint_over(
                d1,
                before,
                data@,
                s,
                run(x as int),
                single_pixel(size, x as i32, speaker_y as i32, DARK),
                run(x + 1),
            );
        }
        x = x + 1;
    }
    proof {
        lemma_painted_same_on_canvas(d1, data@, s, run(hi + 1), speaker);
    }
    let ghost d2 = data@;
    let button_y = y0 + height - height / 6;
    let small = if width < height {
        width
    } else {
        height
    };
    proof {
        lemma_layer_fits_within(d0.len() as int, s, phone_layer(s), phone_button(s));
    }
    draw_circle(
        data,
        size,
        200 * (x0 as i64) + 100 * (width as i64),
        200 * (button_y as i64),
        16 * (small as i64),
        DARK,
    );
    proof {
        lemma_paint_over(
            d0,
            d1,
            d2,
            s,
            body,
            speaker,
            |px: int, py: int| stack(speaker(px, py), body(px, py)),
        );
        lemma_paint_over(
            d0,
            d2,
            data@,
            s,
            |px: int, py: int| stack(speaker(px, py), body(px, py)),
            phone_button(s),
            phone_layer(s),
        );
    }
}

/// The characters written on the badge; "1" when nothing is unread.
pub open spec fn badge_chars(count: u32) -> Seq<char> {
    match badge_label(count) {
        Some(l) => l,
        None => seq!['1'],
    }
}

/// Width in pixels of a badge text of `n` characters: glyphs ten pixels wide,
/// two pixels apart.
pub open spec fn badge_text_width(n: int) -> int {
    n * 10 + (n - 1) * 2
}

/// Left edge of the badge text, centred on the badge.
pub open spec fn badge_text_left(size: int, count: u32) -> int {
    (72 * size) / 100 - badge_text_width(badge_chars(count).len() as int) / 2
}

/// Top edge of the badge text, centred on the badge.
pub open spec fn badge_text_top(size: int) -> int {
    (22 * size) / 100 - 7
}

/// The first `k` characters of `label`, in white glyphs at double scale, twelve
/// pixels apart, starting at `(ox, oy)`.
pub open spec fn text_pixel(label: Seq<char>, ox: int, oy: int, k: nat, x: int, y: int) -> Option<Rgba>
    decreases k,
{
    if k == 0 {
        None
    } else {
        let g = match font(label[k - 1]) {
            Some(g) => glyph_layer(g, ox + (k - 1) * 12, oy, 2, WHITE)(x, y),
            None => None,
        };
        stack(g, text_pixel(label, ox, oy, (k - 1) as nat, x, y))
    }
}

/// The badge's red disc: centre at 72% and 22% of the side, radius 23%.
pub open spec fn badge_disc(size: int) -> Layer {
    disc(144 * size, 44 * size, 46 * size, RED)
}

/// The whole badge: the red disc with the label over it.
pub open spec fn badge_layer(size: int, count: u32) -> Layer {
    |x: int, y: int|
        stack(
            text_pixel(
                badge_chars(count),
                badge_text_left(size, count),
                badge_text_top(size),
                badge_chars(count).len(),
                x,
                y,
            ),
            badge_disc(size)(x, y),
        )
}

/// Character `j` of `label`, drawn twelve pixels further right per character
/// from `(ox, oy)` at double scale, lights pixel `(x, y)`.
pub open spec fn glyph_hit(label: Seq<char>, ox: int, oy: int, j: int, x: int, y: int) -> bool {
    &&& font(label[j]) is Some
    &&& glyph_layer(font(label[j]).unwrap(), ox + 12 * j, oy, 2, WHITE)(x, y) is Some
}

proof fn lemma_text_pixel_hits(label: Seq<char>, ox: int, oy: int, k: nat, x: int, y: int)
    ensures
        text_pixel(label, ox, oy, k, x, y) == (if exists|j: int|
            0 <= j < k && #[trigger] glyph_hit(label, ox, oy, j, x, y) {
            Some(WHITE)
        } else {
            None
        }),
    decreases k,
{
    if k > 0 {
        lemma_text_pixel_hits(label, ox, oy, (k - 1) as nat, x, y);
        if glyph_hit(label, ox, oy, k - 1, x, y) {
            assert(text_pixel(label, ox, oy, k, x, y) == Some(WHITE));
        } else {
            if exists|j: int| 0 <= j < k && #[trigger] glyph_hit(label, ox, oy, j, x, y) {
                let j = choose|j: int| 0 <= j < k && #[trigger] glyph_hit(label, ox, oy, j, x, y);
                assert(j < k - 1);
            }
        }
    }
}

/// The characters painted on the badge are those of the badge label shown as
/// the tray title: the count in decimal, digit by digit, up to 99, "99+" above,
/// and "1" when nothing is unread.
pub proof fn lemma_badge_chars(count: u32)
    ensures
        count > 0 ==> badge_label(count) == Some(badge_chars(count)),
        count == 0 ==> badge_chars(count) == seq!['1'],
        1 <= count <= 9 ==> badge_chars(count) == seq![(48 + count) as char],
        10 <= count <= 99 ==> badge_chars(count) == seq![(48 + count / 10) as char, (48 + count % 10) as char],
        count > 99 ==> badge_chars(count) == seq!['9', '9', '+'],
{
    crate::text::lemma_badge_label_digits(count);
}

/// The badge, pixel by pixel: white where a glyph of one of the badge's
/// characters lights the pixel, the characters ten pixels wide, two apart, and
/// centred on (72%, 22%) of the side; elsewhere red inside the disc of radius
/// 23% of the side around that point; elsewhere untouched.
pub proof fn lemma_badge_layer_glyphs(size: int, count: u32, x: int, y: int)
    ensures
        ({
            let chars = badge_chars(count);
            let n = chars.len() as int;
            let left = (72 * size) / 100 - (n * 10 + (n - 1) * 2) / 2;
            let top = (22 * size) / 100 - 7;
            let dx = 200 * x - 144 * size;
            let dy = 200 * y - 44 * size;
            badge_layer(size, count)(x, y) == if exists|k: int|
                0 <= k < n && #[trigger] glyph_hit(chars, left, top, k, x, y) {
                Some([0xffu8, 0xff, 0xff, 0xff])
            } else if dx * dx + dy * dy <= (46 * size) * (46 * size) {
                Some([0xdfu8, 0x3a, 0x32, 0xff])
            } else {
                None
            }
        }),
{
    let chars = badge_chars(count);
    lemma_text_pixel_hits(
        chars,
        badge_text_left(size, count),
        badge_text_top(size),
        chars.len(),
        x,
        y,
    );
}

/// A glyph of the text paints only where the text paints.
proof fn lemma_text_covers(label: Seq<char>, ox: int, oy: int, k: nat, j: nat, g: [u8; 7], x: int, y: int)
    requires
        j < k,
        font(label[j as int]) == Some(g),
        glyph_layer(g, ox + j * 12, oy, 2, WHITE)(x, y) is Some,
    ensures
        text_pixel(label, ox, oy, k, x, y) is Some,
    decreases k,
{
    if j < k - 1 {
        lemma_text_covers(label, ox, oy, (k - 1) as nat, j, g, x, y);
    }
}

/// Paints the unread badge for `count` in the top-right corner: a red disc and,
/// over it, the badge label in white ("1" when nothing is unread).
pub fn draw_badge(data: &mut [u8], size: u32, count: u32)
    requires
        layer_fits(old(data)@.len() as int, size as int, badge_layer(size as int, count)),
    ensures
        painted(old(data)@, final(data)@, size as int, badge_layer(size as int, count)),
{
    let ghost d0 = data@;
    let ghost s = size as int;
    proof {
        lemma_badge_size_bound(d0.len() as int, s, count);
        lemma_badge_agrees(count);
    }
    let label = match badge_text(count) {
        Some(l) => l,
        None => {
            let mut one = String::new();
            one.append("1");
            proof {
                reveal_strlit("1");
                assert(one@ =~= seq!['1']);
            }
            one
        },
    };
    let ghost chars = badge_chars(count);
    assert(label@ == chars);
    let cx: u32 = (72 * size) / 100;
    let cy: u32 = (22 * size) / 100;
    proof {
        lemma_layer_fits_within(
            d0.len() as int,
            s,
            badge_layer(s, count),
            badge_disc(s),
        );
    }
    draw_circle(data, size, 144 * (size as i64), 44 * (size as i64), 46 * (size as i64), RED);
    let ghost d1 = data@;
    let text = label.as_str();
    let n = text.unicode_len();
    let text_w: usize = n * 10 + (n - 1) * 2;
    let start_x: i32 = cx as i32 - (text_w / 2) as i32;
    let start_y: i32 = cy as i32 - 7;
    let ghost ox = start_x as int;
    let ghost oy = start_y as int;
    assert(ox == badge_text_left(s, count));
    assert(oy == badge_text_top(s));
    let ghost text_layer = |x: int, y: int| text_pixel(chars, ox, oy, chars.len(), x, y);
    let mut i: usize = 0;
    proof {
        lemma_painted_nothing(d1, s, |x: int, y: int| text_pixel(chars, ox, oy, 0, x, y));
    }
    while i < n
        invariant
            i <= n,
            1 <= n <= 3,
            n == chars.len(),
            text@ == chars,
            s == size as int,
            size <= 0x20000,
            ox == start_x as int,
            oy == start_y as int,
            0 <= cx <= 0x20000,
            0 <= cy <= 0x20000,
            ox == cx - (text_w / 2) as int,
            oy == cy - 7,
            text_w <= 34,
            data@.len() == d0.len(),
            layer_fits(d0.len() as int, s, badge_layer(s, count)),
            chars == badge_chars(count),
            ox == badge_text_left(s, count),
            oy == badge_text_top(s),
            painted(d1, data@, s, |x: int, y: int| text_pixel(chars, ox, oy, i as nat, x, y)),
        decreases n - i,
    {
        let ch = text.get_char(i);
        let gx: i32 = start_x + (i as i32) * 12;
        match glyph_bits(ch) {
            Some(g) => {
                let ghost before = data@;
                proof {
                    let gl = glyph_layer(g, gx as int, oy, 2, WHITE);
                    assert forall|x: int, y: int|
                        in_canvas(s, x, y) && (#[trigger] gl(x, y)) is Some implies badge_layer(
                        s,
                        count,
                    )(x, y) is Some by {
                        lemma_text_covers(chars, ox, oy, chars.len(), i as nat, g, x, y);
                    }
                    lemma_layer_fits_within(d0.len() as int, s, badge_layer(s, count), gl);
                    assert(glyph_in_range(g, gx as int, oy, 2));
                }
                draw_glyph(data, size, gx, start_y, &g, 2, WHITE);
                proof {
                    lemma_paint_over(
                        d1,
                        before,
                        data@,
                        s,
                        |x: int, y: int| text_pixel(chars, ox, oy, i as nat, x, y),
                        glyph_layer(g, gx as int, oy, 2, WHITE),
                        |x: int, y: int| text_pixel(chars, ox, oy, (i + 1) as nat, x, y),
                    );
                }
            },
            None => {
                proof {
                    lemma_painted_same_on_canvas(
                        d1,
                        data@,
                        s,
                        |x: int, y: int| text_pixel(chars, ox, oy, i as nat, x, y),
                        |x: int, y: int| text_pixel(chars, ox, oy, (i + 1) as nat, x, y),
                    );
                }
            },
        }
        i = i + 1;
    }
    proof {
        lemma_paint_over(d0, d1, data@, s, badge_disc(s), text_layer, badge_layer(s, count));
    }
}

/// Side of the tray icon in pixels.
pub const ICON_SIZE: u32 = 96;

/// The dark ring's disc: centred, radius 42% of the side.
pub open spec fn ring_disc(size: int) -> Layer {
    disc(100 * size, 100 * size, 84 * size, RING)
}

/// The green disc: centred, radius 35% of the side.
pub open spec fn green_disc(size: int) -> Layer {
    disc(100 * size, 100 * size, 70 * size, GREEN)
}

/// The icon without a badge: dark background, ring, green disc, phone.
pub open spec fn base_icon_layer(size: int) -> Layer {
    |x: int, y: int|
        stack(
            phone_layer(size)(x, y),
            stack(green_disc(size)(x, y), stack(ring_disc(size)(x, y), Some(DARK))),
        )
}

/// The icon for `count` unread messages: the badge goes over the base icon
/// when there is anything unread.
pub open spec fn icon_layer(size: int, count: u32) -> Layer {
    |x: int, y: int|
        if count > 0 {
            stack(badge_layer(size, count)(x, y), base_icon_layer(size)(x, y))
        } else {
            base_icon_layer(size)(x, y)
        }
}

/// A buffer of `len` zero bytes.
pub open spec fn blank(len: nat) -> Seq<u8> {
    Seq::new(len, |i: int| 0u8)
}

/// `pixels` is the RGBA image of the tray icon for `count` unread messages.
pub open spec fn icon_rendered(count: u32, pixels: Seq<u8>) -> bool {
    let n = (ICON_SIZE * ICON_SIZE * 4) as nat;
    &&& pixels.len() == n
    &&& painted(blank(n), pixels, ICON_SIZE as int, icon_layer(ICON_SIZE as int, count))
}

/// Renders the tray icon for `count` unread messages as ICON_SIZE x ICON_SIZE
/// RGBA pixels, row by row.
pub fn build_tray_icon(count: u32) -> (pixels: Vec<u8>)
    ensures
        icon_rendered(count, pixels@),
{
    let size: u32 = ICON_SIZE;
    let mut data: Vec<u8> = vec![0u8; 36864];
    let ghost s = size as int;
    let ghost n = 36864nat;
    assert(data@ =~= blank(n));
    proof {
        lemma_canvas_fits(n as int, s, solid(DARK));
        lemma_canvas_fits(n as int, s, ring_disc(s));
        lemma_canvas_fits(n as int, s, green_disc(s));
        lemma_canvas_fits(n as int, s, phone_layer(s));
        lemma_canvas_fits(n as int, s, badge_layer(s, count));
    }
    fill_rect(data.as_mut_slice(), size, DARK);
    let ghost d1 = data@;
    draw_circle(data.as_mut_slice(), size, 100 * 96, 100 * 96, 84 * 96, RING);
    let ghost d2 = data@;
    draw_circle(data.as_mut_slice(), size, 100 * 96, 100 * 96, 70 * 96, GREEN);
    let ghost d3 = data@;
    draw_phone(data.as_mut_slice(), size);
    let ghost d4 = data@;
    proof {
        let l2 = |x: int, y: int| stack(ring_disc(s)(x, y), Some(DARK));
        let l3 = |x: int, y: int| stack(green_disc(s)(x, y), stack(ring_disc(s)(x, y), Some(DARK)));
        lemma_paint_over(blank(n), d1, d2, s, solid(DARK), ring_disc(s), l2);
        lemma_paint_over(blank(n), d2, d3, s, l2, green_disc(s), l3);
        lemma_paint_over(blank(n), d3, d4, s, l3, phone_layer(s), base_icon_layer(s));
    }
    if count > 0 {
        draw_badge(data.as_mut_slice(), size, count);
        proof {
            lemma_paint_over(blank(n), d4, data@, s, base_icon_layer(s), badge_layer(s, count), icon_layer(s, count));
        }
    } else {
        proof {
            lemma_painted_same_on_canvas(blank(n), d4, s, base_icon_layer(s), icon_layer(s, count));
        }
    }
    data
}

/// Above 99 unread messages the icon no longer changes: every count above 99
/// renders the same pixels.
pub proof fn lemma_icon_saturates(c1: u32, c2: u32, p1: Seq<u8>, p2: Seq<u8>)
    requires
        c1 > 99,
        c2 > 99,
        icon_rendered(c1, p1),
        icon_rendered(c2, p2),
    ensures
        p1 == p2,
{
    let s = ICON_SIZE as int;
    let n = (ICON_SIZE * ICON_SIZE * 4) as nat;
    assert(badge_chars(c1) == badge_chars(c2));
    lemma_painted_same_on_canvas(blank(n), p1, s, icon_layer(s, c1), icon_layer(s, c2));
    lemma_painted_unique(blank(n), p1, p2, s, icon_layer(s, c2));
}

/// The icon with unread messages is the icon without them with the badge
/// painted over it: the badge changes no other pixel.
pub proof fn lemma_badge_over_plain_icon(count: u32, plain: Seq<u8>, badged: Seq<u8>)
    requires
        count > 0,
        icon_rendered(0, plain),
        icon_rendered(count, badged),
    ensures
        painted(plain, badged, ICON_SIZE as int, badge_layer(ICON_SIZE as int, count)),
{
    let s = ICON_SIZE as int;
    let n = (ICON_SIZE * ICON_SIZE * 4) as nat;
    let l = badge_layer(s, count);
    assert forall|x: int, y: int, c: int|
        in_canvas(s, x, y) && 0 <= c < 4 && byte_index(s, x, y, c) < plain.len() implies
        #[trigger] badged[byte_index(s, x, y, c)] == crate::canvas::paint_byte(
            plain[byte_index(s, x, y, c)],
            l(x, y),
            c,
        ) by {
        assert(plain[byte_index(s, x, y, c)] == crate::canvas::paint_byte(
            blank(n)[byte_index(s, x, y, c)],
            icon_layer(s, 0)(x, y),
            c,
        ));
    }
    assert forall|i: int| s * s * 4 <= i < plain.len() implies #[trigger] badged[i] == plain[i] by {
        assert(badged[i] == blank(n)[i]);
    }
}

/// The badge text paints white or nothing.
proof fn lemma_text_white(label: Seq<char>, ox: int, oy: int, k: nat, x: int, y: int)
    ensures
        text_pixel(label, ox, oy, k, x, y) is None || text_pixel(label, ox, oy, k, x, y) == Some(WHITE),
    decreases k,
{
    if k > 0 {
        lemma_text_white(label, ox, oy, (k - 1) as nat, x, y);
    }
}

/// The icon is opaque: every pixel's alpha channel is 0xff.
pub proof fn lemma_icon_opaque(count: u32, pixels: Seq<u8>)
    requires
        icon_rendered(count, pixels),
    ensures
        forall|x: int, y: int|
            in_canvas(ICON_SIZE as int, x, y) ==> #[trigger] pixels[byte_index(ICON_SIZE as int, x, y, 3)]
                == 0xff,
{
    let s = ICON_SIZE as int;
    assert forall|x: int, y: int| in_canvas(s, x, y) implies #[trigger] pixels[byte_index(s, x, y, 3)]
        == 0xff by {
        crate::canvas::lemma_pixel_number_bound(s, x, y);
        let n = (ICON_SIZE * ICON_SIZE * 4) as nat;
        lemma_text_white(
            badge_chars(count),
            badge_text_left(s, count),
            badge_text_top(s),
            badge_chars(count).len(),
            x,
            y,
        );
        assert(DARK[3] == 0xff && WHITE[3] == 0xff && RED[3] == 0xff && GREEN[3] == 0xff && RING[3]
            == 0xff);
        let col = icon_layer(s, count)(x, y);
        assert(col is Some);
        assert(col.unwrap()[3] == 0xff);
        assert(pixels[byte_index(s, x, y, 3)] == crate::canvas::paint_byte(
            blank(n)[byte_index(s, x, y, 3)],
            icon_layer(s, count)(x, y),
            3,
        ));
    }
}

} // verus!
