use whatsapp_lite::canvas::{draw_circle, fill_rect, set_pixel};

const RED: [u8; 4] = [1, 2, 3, 4];

fn pixel(data: &[u8], size: u32, x: u32, y: u32) -> [u8; 4] {
    let i = ((y * size + x) * 4) as usize;
    [data[i], data[i + 1], data[i + 2], data[i + 3]]
}

#[test]
fn set_pixel_writes_the_four_bytes_of_the_pixel() {
    let mut data = vec![0u8; 4 * 4 * 4];
    set_pixel(&mut data, 4, 2, 1, RED);
    let i = (1 * 4 + 2) * 4;
    assert_eq!(&data[i..i + 4], &RED);
    let changed = data.iter().filter(|b| **b != 0).count();
    assert_eq!(changed, 4);
}

#[test]
fn set_pixel_clips_outside_the_canvas() {
    let mut data = vec![9u8; 3 * 3 * 4 + 8];
    let before = data.clone();
    set_pixel(&mut data, 3, -1, 0, RED);
    set_pixel(&mut data, 3, 0, -1, RED);
    set_pixel(&mut data, 3, 3, 0, RED);
    set_pixel(&mut data, 3, 0, 3, RED);
    set_pixel(&mut data, 3, i32::MIN, i32::MAX, RED);
    assert_eq!(data, before);
}

#[test]
fn set_pixel_needs_only_the_pixel_to_fit() {
    let mut data = vec![0u8; 4];
    set_pixel(&mut data, 1000, 0, 0, RED);
    assert_eq!(data, RED.to_vec());
}

#[test]
fn set_pixel_with_a_side_beyond_i32_paints_nothing() {
    let mut data = vec![0u8; 8];
    set_pixel(&mut data, 0x8000_0000, 0, 0, RED);
    assert_eq!(data, vec![0u8; 8]);
}

#[test]
fn fill_rect_paints_the_canvas_and_nothing_after_it() {
    let mut data = vec![7u8; 5 * 5 * 4 + 3];
    fill_rect(&mut data, 5, RED);
    for y in 0..5 {
        for x in 0..5 {
            assert_eq!(pixel(&data, 5, x, y), RED);
        }
    }
    assert_eq!(&data[100..], &[7, 7, 7]);
}

#[test]
fn fill_rect_on_an_empty_canvas_does_nothing() {
    let mut data = vec![7u8; 4];
    fill_rect(&mut data, 0, RED);
    assert_eq!(data, vec![7u8; 4]);
}

#[test]
fn circle_of_radius_one_pixel() {
    // centre of pixel (2, 2), radius exactly one pixel: a plus sign of five pixels
    let mut data = vec![0u8; 5 * 5 * 4];
    draw_circle(&mut data, 5, 400, 400, 200, RED);
    let mut lit = Vec::new();
    for y in 0..5 {
        for x in 0..5 {
            if pixel(&data, 5, x, y) == RED {
                lit.push((x, y));
            }
        }
    }
    assert_eq!(lit, vec![(2, 1), (1, 2), (2, 2), (3, 2), (2, 3)]);
}

#[test]
fn circle_boundary_is_inclusive() {
    // centre at the corner between four pixels, radius reaching (0,0) exactly
    let mut data = vec![0u8; 2 * 2 * 4];
    // centre (100, 100) subpixels; pixel (0,0) is at distance^2 = 2 * 100^2
    draw_circle(&mut data, 2, 100, 100, 141, RED);
    assert_eq!(pixel(&data, 2, 0, 0), [0, 0, 0, 0]);
    draw_circle(&mut data, 2, 100, 100, 142, RED);
    assert_eq!(pixel(&data, 2, 0, 0), RED);
    assert_eq!(pixel(&data, 2, 1, 1), RED);
}

#[test]
fn circle_is_clipped_to_the_canvas() {
    let mut data = vec![0u8; 3 * 3 * 4 + 4];
    draw_circle(&mut data, 3, -1000, -1000, 5000, RED);
    for y in 0..3 {
        for x in 0..3 {
            assert_eq!(pixel(&data, 3, x, y), RED);
        }
    }
    assert_eq!(&data[36..], &[0, 0, 0, 0]);
}

#[test]
fn painting_twice_is_painting_once() {
    let mut once = vec![5u8; 6 * 6 * 4];
    draw_circle(&mut once, 6, 500, 600, 450, RED);
    let mut twice = once.clone();
    draw_circle(&mut twice, 6, 500, 600, 450, RED);
    assert_eq!(once, twice);
}

#[test]
fn later_layers_cover_earlier_ones() {
    let blue = [9, 9, 9, 9];
    let mut data = vec![0u8; 4 * 4 * 4];
    fill_rect(&mut data, 4, blue);
    draw_circle(&mut data, 4, 0, 0, 200, RED);
    assert_eq!(pixel(&data, 4, 0, 0), RED);
    assert_eq!(pixel(&data, 4, 1, 0), RED);
    assert_eq!(pixel(&data, 4, 1, 1), blue);
    assert_eq!(pixel(&data, 4, 3, 3), blue);
}
