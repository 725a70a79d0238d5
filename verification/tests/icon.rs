use whatsapp_lite::canvas::{draw_circle, fill_rect};
use whatsapp_lite::glyph::{draw_glyph, glyph_bits};
use whatsapp_lite::icon::{build_tray_icon, draw_badge, draw_phone, DARK, GREEN, ICON_SIZE, RED, RING, WHITE};

// The icon geometry computed in single-precision floats, pixel by pixel: the
// exact subpixel geometry of the library must draw the same pixels.

fn fp_set_pixel(data: &mut [u8], size: u32, x: i32, y: i32, color: [u8; 4]) {
    if x < 0 || y < 0 || x >= size as i32 || y >= size as i32 {
        return;
    }
    let idx = ((y as u32 * size + x as u32) * 4) as usize;
    data[idx..idx + 4].copy_from_slice(&color);
}

fn fp_fill(data: &mut [u8], size: u32, color: [u8; 4]) {
    for y in 0..size {
        for x in 0..size {
            fp_set_pixel(data, size, x as i32, y as i32, color);
        }
    }
}

fn fp_circle(data: &mut [u8], size: u32, cx: f32, cy: f32, radius: f32, color: [u8; 4]) {
    let radius_sq = radius * radius;
    for y in 0..size {
        for x in 0..size {
            let dx = x as f32 - cx;
            let dy = y as f32 - cy;
            if dx * dx + dy * dy <= radius_sq {
                fp_set_pixel(data, size, x as i32, y as i32, color);
            }
        }
    }
}

fn fp_phone(data: &mut [u8], size: u32) {
    let width = (size as f32 * 0.22).round() as i32;
    let height = (size as f32 * 0.36).round() as i32;
    let x0 = (size as i32 - width) / 2;
    let y0 = (size as i32 - height) / 2;
    for y in 0..height {
        for x in 0..width {
            let color = if x == 0 || x == width - 1 || y == 0 || y == height - 1 { DARK } else { WHITE };
            fp_set_pixel(data, size, x0 + x, y0 + y, color);
        }
    }
    let speaker_y = y0 + (height as f32 * 0.15) as i32;
    for x in x0 + (width / 4)..=x0 + (3 * width / 4) {
        fp_set_pixel(data, size, x, speaker_y, DARK);
    }
    let button_y = y0 + height - (height / 6);
    let button_radius = width.min(height) as f32 * 0.08;
    fp_circle(data, size, x0 as f32 + (width as f32 / 2.0), button_y as f32, button_radius, DARK);
}

fn fp_glyph(data: &mut [u8], size: u32, sx0: i32, sy0: i32, glyph: &[u8; 7], scale: i32, color: [u8; 4]) {
    for (row, bits) in glyph.iter().enumerate() {
        for col in 0..5 {
            if bits & (1 << (4 - col)) != 0 {
                for sy in 0..scale {
                    for sx in 0..scale {
                        fp_set_pixel(data, size, sx0 + col * scale + sx, sy0 + row as i32 * scale + sy, color);
                    }
                }
            }
        }
    }
}

fn fp_label(count: u32) -> String {
    if count == 0 {
        "1".to_string()
    } else if count > 99 {
        "99+".to_string()
    } else {
        count.to_string()
    }
}

fn fp_badge(data: &mut [u8], size: u32, count: u32) {
    let label = fp_label(count);
    let cx = size as f32 * 0.72;
    let cy = size as f32 * 0.22;
    let radius = size as f32 * 0.23;
    fp_circle(data, size, cx, cy, radius, RED);
    let text_width = label.chars().count() as i32 * 10 + (label.len().saturating_sub(1)) as i32 * 2;
    let start_x = (cx as i32) - text_width / 2;
    let start_y = (cy as i32) - 7;
    for (index, ch) in label.chars().enumerate() {
        if let Some(glyph) = glyph_bits(ch) {
            fp_glyph(data, size, start_x + index as i32 * 12, start_y, &glyph, 2, WHITE);
        }
    }
}

fn fp_icon(count: u32) -> Vec<u8> {
    let size = 96u32;
    let mut data = vec![0u8; (size * size * 4) as usize];
    fp_fill(&mut data, size, DARK);
    fp_circle(&mut data, size, size as f32 / 2.0, size as f32 / 2.0, size as f32 * 0.42, RING);
    fp_circle(&mut data, size, size as f32 / 2.0, size as f32 / 2.0, size as f32 * 0.35, GREEN);
    fp_phone(&mut data, size);
    if count > 0 {
        fp_badge(&mut data, size, count);
    }
    data
}

fn px(data: &[u8], size: u32, x: u32, y: u32) -> [u8; 4] {
    let i = ((y * size + x) * 4) as usize;
    [data[i], data[i + 1], data[i + 2], data[i + 3]]
}

#[test]
fn glyph_table() {
    assert_eq!(glyph_bits('0'), Some([0b01110, 0b10001, 0b10011, 0b10101, 0b11001, 0b10001, 0b01110]));
    assert_eq!(glyph_bits('7'), Some([0b11111, 0b00001, 0b00010, 0b00100, 0b01000, 0b01000, 0b01000]));
    assert_eq!(glyph_bits('+'), Some([0b00100, 0b00100, 0b11111, 0b00100, 0b00100, 0b00000, 0b00000]));
    for ch in "0123456789+".chars() {
        let g = glyph_bits(ch).unwrap();
        assert!(g.iter().all(|row| *row < 32));
    }
    assert_eq!(glyph_bits('a'), None);
    assert_eq!(glyph_bits(' '), None);
    assert_eq!(glyph_bits('-'), None);
}

#[test]
fn glyph_one_at_scale_one() {
    let size = 8u32;
    let mut data = vec![0u8; (size * size * 4) as usize];
    let g = glyph_bits('1').unwrap();
    draw_glyph(&mut data, size, 1, 0, &g, 1, WHITE);
    let mut rows = Vec::new();
    for y in 0..7 {
        let mut bits = 0u8;
        for x in 0..5 {
            if px(&data, size, x + 1, y) == WHITE {
                bits |= 1 << (4 - x);
            }
        }
        rows.push(bits);
    }
    assert_eq!(rows, g.to_vec());
    for y in 0..size {
        assert_eq!(px(&data, size, 0, y), [0, 0, 0, 0]);
        assert_eq!(px(&data, size, 6, y), [0, 0, 0, 0]);
    }
}

#[test]
fn glyph_blocks_at_scale_two_and_three() {
    for scale in [2i32, 3] {
        for (sx0, sy0) in [(0, 0), (3, 2), (-4, -3), (20, 25)] {
            let size = 32u32;
            let g = glyph_bits('8').unwrap();
            let mut a = vec![1u8; (size * size * 4) as usize];
            let mut b = a.clone();
            draw_glyph(&mut a, size, sx0, sy0, &g, scale, RED);
            fp_glyph(&mut b, size, sx0, sy0, &g, scale, RED);
            assert_eq!(a, b);
        }
    }
}

#[test]
fn glyph_with_no_scale_draws_nothing() {
    let size = 8u32;
    let mut data = vec![3u8; (size * size * 4) as usize];
    let g = glyph_bits('8').unwrap();
    draw_glyph(&mut data, size, 0, 0, &g, 0, RED);
    draw_glyph(&mut data, size, 0, 0, &g, -2, RED);
    assert!(data.iter().all(|b| *b == 3));
}

#[test]
fn phone_matches_float_geometry() {
    for size in 0..=140u32 {
        let mut a = vec![0u8; (size * size * 4) as usize];
        let mut b = a.clone();
        draw_phone(&mut a, size);
        fp_phone(&mut b, size);
        assert_eq!(a, b, "size {size}");
    }
}

#[test]
fn phone_at_icon_size() {
    let size = 96u32;
    let mut data = vec![0u8; (size * size * 4) as usize];
    draw_phone(&mut data, size);
    // body 21 x 35 at (37, 30): outline dark, screen white
    assert_eq!(px(&data, size, 37, 30), DARK);
    assert_eq!(px(&data, size, 57, 64), DARK);
    assert_eq!(px(&data, size, 38, 31), WHITE);
    assert_eq!(px(&data, size, 36, 30), [0, 0, 0, 0]);
    assert_eq!(px(&data, size, 58, 30), [0, 0, 0, 0]);
    // speaker on row 35 from x = 42 to x = 52
    assert_eq!(px(&data, size, 42, 35), DARK);
    assert_eq!(px(&data, size, 52, 35), DARK);
    assert_eq!(px(&data, size, 41, 35), WHITE);
    assert_eq!(px(&data, size, 53, 35), WHITE);
    // button centred at (47.5, 60), radius 1.68
    assert_eq!(px(&data, size, 47, 60), DARK);
    assert_eq!(px(&data, size, 48, 61), DARK);
    assert_eq!(px(&data, size, 46, 60), DARK);
    assert_eq!(px(&data, size, 45, 60), WHITE);
    assert_eq!(px(&data, size, 47, 62), WHITE);
}

#[test]
fn badge_matches_float_geometry() {
    for size in [24u32, 40, 64, 96, 120] {
        for count in [0u32, 1, 5, 10, 42, 99, 100, 777] {
            let mut a = vec![0u8; (size * size * 4) as usize];
            let mut b = a.clone();
            draw_badge(&mut a, size, count);
            fp_badge(&mut b, size, count);
            assert_eq!(a, b, "size {size} count {count}");
        }
    }
}

#[test]
fn tray_discs_match_float_geometry() {
    for size in 1..=140u32 {
        for (f, n) in [(0.42f32, 84i64), (0.35, 70)] {
            let mut a = vec![0u8; (size * size * 4) as usize];
            let mut b = a.clone();
            let s = size as i64;
            draw_circle(&mut a, size, 100 * s, 100 * s, n * s, RED);
            fp_circle(&mut b, size, size as f32 / 2.0, size as f32 / 2.0, size as f32 * f, RED);
            assert_eq!(a, b, "size {size}");
        }
    }
}

#[test]
fn tray_icon_matches_float_geometry() {
    for count in [0u32, 1, 7, 9, 10, 42, 88, 99, 100, 1000, u32::MAX] {
        assert_eq!(build_tray_icon(count), fp_icon(count), "count {count}");
    }
}

#[test]
fn tray_icon_size_and_corners() {
    let icon = build_tray_icon(0);
    let size = ICON_SIZE;
    assert_eq!(icon.len(), (size * size * 4) as usize);
    assert_eq!(px(&icon, size, 0, 0), DARK);
    assert_eq!(px(&icon, size, 95, 95), DARK);
    assert_eq!(px(&icon, size, 48, 8), RING);
    assert_eq!(px(&icon, size, 48, 16), GREEN);
    assert_eq!(px(&icon, size, 48, 48), WHITE);
}

#[test]
fn tray_icon_same_for_all_counts_above_99() {
    let a = build_tray_icon(100);
    assert_eq!(build_tray_icon(101), a);
    assert_eq!(build_tray_icon(5000), a);
    assert_eq!(build_tray_icon(u32::MAX), a);
    assert_ne!(build_tray_icon(99), a);
}

#[test]
fn badge_changes_only_badge_pixels() {
    let plain = build_tray_icon(0);
    let size = 96u32;
    for count in [1u32, 23, 150] {
        let badged = build_tray_icon(count);
        let mut over = plain.clone();
        draw_badge(&mut over, size, count);
        assert_eq!(badged, over);
        assert_ne!(badged, plain);
        // the badge sits in the top right: the bottom half is untouched
        let half = (size * size * 2) as usize;
        assert_eq!(&badged[half..], &plain[half..]);
    }
}

#[test]
fn tray_icon_is_opaque() {
    for count in [0u32, 3, 100] {
        let icon = build_tray_icon(count);
        assert!(icon.chunks(4).all(|p| p[3] == 0xff));
    }
}

#[test]
fn background_fill_is_uniform() {
    let mut data = vec![0u8; 96 * 96 * 4];
    fill_rect(&mut data, 96, DARK);
    assert!(data.chunks(4).all(|p| p == DARK));
}
