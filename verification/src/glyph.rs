//! A 5x7 bitmap font for the badge digits and '+', and a scaled glyph painter.
use vstd::prelude::*;
use vstd::arithmetic::div_mod::lemma_fundamental_div_mod;
use vstd::arithmetic::div_mod::lemma_fundamental_div_mod_converse;
use vstd::arithmetic::div_mod::lemma_mod_pos_bound;
use vstd::arithmetic::div_mod::lemma_div_pos_is_pos;
use crate::canvas::{in_canvas, layer_fits, lemma_paint_over, lemma_painted_nothing, lemma_painted_same_on_canvas, painted, pixel_fits, set_pixel, single_pixel, Layer, Rgba};

verus! {

/// The font: seven rows of five bits, the leftmost column in bit 4.
pub open spec fn font(ch: char) -> Option<[u8; 7]> {
    if ch == '0' {
        Some([0b01110, 0b10001, 0b10011, 0b10101, 0b11001, 0b10001, 0b01110])
    } else if ch == '1' {
        Some([0b00100, 0b01100, 0b00100, 0b00100, 0b00100, 0b00100, 0b01110])
    } else if ch == '2' {
        Some([0b01110, 0b10001, 0b00001, 0b00010, 0b00100, 0b01000, 0b11111])
    } else if ch == '3' {
        Some([0b11110, 0b00001, 0b00001, 0b00110, 0b00001, 0b00001, 0b11110])
    } else if ch == '4' {
        Some([0b00010, 0b00110, 0b01010, 0b10010, 0b11111, 0b00010, 0b00010])
    } else if ch == '5' {
        Some([0b11111, 0b10000, 0b11110, 0b00001, 0b00001, 0b10001, 0b01110])
    } else if ch == '6' {
        Some([0b00110, 0b01000, 0b10000, 0b11110, 0b10001, 0b10001, 0b01110])
    } else if ch == '7' {
        Some([0b11111, 0b00001, 0b00010, 0b00100, 0b01000, 0b01000, 0b01000])
    } else if ch == '8' {
        Some([0b01110, 0b10001, 0b10001, 0b01110, 0b10001, 0b10001, 0b01110])
    } else if ch == '9' {
        Some([0b01110, 0b10001, 0b10001, 0b01111, 0b00001, 0b00010, 0b01100])
    } else if ch == '+' {
        Some([0b00100, 0b00100, 0b11111, 0b00100, 0b00100, 0b00000, 0b00000])
    } else {
        None
    }
}

/// The glyph of `ch`: the decimal digits and '+' have one, nothing else does.
pub fn glyph_bits(ch: char) -> (res: Option<[u8; 7]>)
    ensures
        res == font(ch),
        res is Some <== ('0' <= ch <= '9' || ch == '+'),
        res is Some ==> ('0' <= ch <= '9' || ch == '+'),
{
    match ch {
        '0' => Some([0b01110, 0b10001, 0b10011, 0b10101, 0b11001, 0b10001, 0b01110]),
        '1' => Some([0b00100, 0b01100, 0b00100, 0b00100, 0b00100, 0b00100, 0b01110]),
        '2' => Some([0b01110, 0b10001, 0b00001, 0b00010, 0b00100, 0b01000, 0b11111]),
        '3' => Some([0b11110, 0b00001, 0b00001, 0b00110, 0b00001, 0b00001, 0b11110]),
        '4' => Some([0b00010, 0b00110, 0b01010, 0b10010, 0b11111, 0b00010, 0b00010]),
        '5' => Some([0b11111, 0b10000, 0b11110, 0b00001, 0b00001, 0b10001, 0b01110]),
        '6' => Some([0b00110, 0b01000, 0b10000, 0b11110, 0b10001, 0b10001, 0b01110]),
        '7' => Some([0b11111, 0b00001, 0b00010, 0b00100, 0b01000, 0b01000, 0b01000]),
        '8' => Some([0b01110, 0b10001, 0b10001, 0b01110, 0b10001, 0b10001, 0b01110]),
        '9' => Some([0b01110, 0b10001, 0b10001, 0b01111, 0b00001, 0b00010, 0b01100]),
        '+' => Some([0b00100, 0b00100, 0b11111, 0b00100, 0b00100, 0b00000, 0b00000]),
        _ => None,
    }
}

/// The bitmaps of the badge font, row by row from the top, bit 4 the leftmost
/// column; every other character has no glyph.
pub proof fn lemma_font_bitmaps(ch: char)
    ensures
        font('0') == Some([0b01110u8, 0b10001, 0b10011, 0b10101, 0b11001, 0b10001, 0b01110]),
        font('1') == Some([0b00100u8, 0b01100, 0b00100, 0b00100, 0b00100, 0b00100, 0b01110]),
        font('2') == Some([0b01110u8, 0b10001, 0b00001, 0b00010, 0b00100, 0b01000, 0b11111]),
        font('3') == Some([0b11110u8, 0b00001, 0b00001, 0b00110, 0b00001, 0b00001, 0b11110]),
        font('4') == Some([0b00010u8, 0b00110, 0b01010, 0b10010, 0b11111, 0b00010, 0b00010]),
        font('5') == Some([0b11111u8, 0b10000, 0b11110, 0b00001, 0b00001, 0b10001, 0b01110]),
        font('6') == Some([0b00110u8, 0b01000, 0b10000, 0b11110, 0b10001, 0b10001, 0b01110]),
        font('7') == Some([0b11111u8, 0b00001, 0b00010, 0b00100, 0b01000, 0b01000, 0b01000]),
        font('8') == Some([0b01110u8, 0b10001, 0b10001, 0b01110, 0b10001, 0b10001, 0b01110]),
        font('9') == Some([0b01110u8, 0b10001, 0b10001, 0b01111, 0b00001, 0b00010, 0b01100]),
        font('+') == Some([0b00100u8, 0b00100, 0b11111, 0b00100, 0b00100, 0b00000, 0b00000]),
        !('0' <= ch <= '9' || ch == '+') ==> font(ch) is None,
{
}

/// Column `col` (0 is leftmost) of a glyph row is lit.
pub open spec fn glyph_bit(bits: u8, col: int) -> bool {
    bits & (1u8 << ((4 - col) as u8)) != 0
}

/// The glyph's pixels, block by block: pixel `(sx, sy)` of the block of font
/// cell `(row, col)` lies at `(ox + col * scale + sx, oy + row * scale + sy)` and
/// is painted exactly when bit `4 - col` of row `row` is set; nothing outside
/// the glyph's `5 * scale` by `7 * scale` box is painted.
pub proof fn lemma_glyph_blocks(
    glyph: [u8; 7],
    ox: int,
    oy: int,
    scale: int,
    color: Rgba,
    row: int,
    col: int,
    sx: int,
    sy: int,
    x: int,
    y: int,
)
    ensures
        scale > 0 && 0 <= row < 7 && 0 <= col < 5 && 0 <= sx < scale && 0 <= sy < scale ==> glyph_layer(
            glyph,
            ox,
            oy,
            scale,
            color,
        )(ox + col * scale + sx, oy + row * scale + sy) == if (glyph[row] >> ((4 - col) as u8)) & 1
            == 1 {
            Some(color)
        } else {
            None
        },
        !(scale > 0 && ox <= x < ox + 5 * scale && oy <= y < oy + 7 * scale) ==> glyph_layer(
            glyph,
            ox,
            oy,
            scale,
            color,
        )(x, y) is None,
{
    if scale > 0 && 0 <= row < 7 && 0 <= col < 5 && 0 <= sx < scale && 0 <= sy < scale {
        assert((col + 1) * scale <= 5 * scale) by (nonlinear_arith)
            requires
                col + 1 <= 5,
                0 < scale,
        ;
        assert((col + 1) * scale == col * scale + scale) by (nonlinear_arith);
        assert((row + 1) * scale <= 7 * scale) by (nonlinear_arith)
            requires
                row + 1 <= 7,
                0 < scale,
        ;
        assert((row + 1) * scale == row * scale + scale) by (nonlinear_arith);
        assert(0 <= col * scale) by (nonlinear_arith)
            requires
                0 <= col,
                0 < scale,
        ;
        assert(0 <= row * scale) by (nonlinear_arith)
            requires
                0 <= row,
                0 < scale,
        ;
        lemma_fundamental_div_mod_converse(col * scale + sx, scale, col, sx);
        lemma_fundamental_div_mod_converse(row * scale + sy, scale, row, sy);
        let bits = glyph[row];
        let k = (4 - col) as u8;
        assert(k < 5);
        assert((bits & (1u8 << k) != 0) == ((bits >> k) & 1 == 1)) by (bit_vector)
            requires
                k < 5,
        ;
    }
}

/// The glyph drawn with its top-left corner at `(ox, oy)`, each font cell
/// becoming a `scale` by `scale` block.
pub open spec fn glyph_layer(glyph: [u8; 7], ox: int, oy: int, scale: int, color: Rgba) -> Layer {
    |x: int, y: int|
        {
            let dx = x - ox;
            let dy = y - oy;
            if scale > 0 && 0 <= dx < 5 * scale && 0 <= dy < 7 * scale && glyph_bit(
                glyph[dy / scale],
                dx / scale,
            ) {
                Some(color)
            } else {
                None
            }
        }
}

/// The coordinates of every lit block of the glyph are representable as `i32`.
pub open spec fn glyph_in_range(glyph: [u8; 7], ox: int, oy: int, scale: int) -> bool {
    scale > 0 ==> forall|row: int, col: int|
        0 <= row < 7 && 0 <= col < 5 && #[trigger] glyph_bit(glyph[row], col) ==> {
            &&& row * scale <= i32::MAX
            &&& col * scale <= i32::MAX
            &&& oy + (row + 1) * scale - 1 <= i32::MAX
            &&& ox + (col + 1) * scale - 1 <= i32::MAX
        }
}

/// `(r1, c1, y1, x1)` comes strictly before `(r2, c2, y2, x2)` in the order in
/// which the glyph is painted: font row, font column, then block row and column.
pub open spec fn cell_before(r1: int, c1: int, y1: int, x1: int, r2: int, c2: int, y2: int, x2: int) -> bool {
    ||| r1 < r2
    ||| r1 == r2 && c1 < c2
    ||| r1 == r2 && c1 == c2 && y1 < y2
    ||| r1 == r2 && c1 == c2 && y1 == y2 && x1 < x2
}

/// The part of the glyph painted before block pixel `(sx, sy)` of cell `(row, col)`.
pub open spec fn glyph_done(
    glyph: [u8; 7],
    ox: int,
    oy: int,
    scale: int,
    color: Rgba,
    row: int,
    col: int,
    sy: int,
    sx: int,
) -> Layer {
    |x: int, y: int|
        {
            let dx = x - ox;
            let dy = y - oy;
            if scale > 0 && 0 <= dx < 5 * scale && 0 <= dy < 7 * scale && cell_before(
                dy / scale,
                dx / scale,
                dy % scale,
                dx % scale,
                row,
                col,
                sy,
                sx,
            ) && glyph_bit(glyph[dy / scale], dx / scale) {
                Some(color)
            } else {
                None
            }
        }
}

/// The block coordinates of an offset `d` into a glyph of `cells` cells.
proof fn lemma_cell(d: int, scale: int, cells: int)
    requires
        0 <= d < cells * scale,
        scale > 0,
    ensures
        d == (d / scale) * scale + d % scale,
        0 <= d % scale < scale,
        0 <= d / scale < cells,
{
    lemma_fundamental_div_mod(d, scale);
    lemma_mod_pos_bound(d, scale);
    lemma_div_pos_is_pos(d, scale);
    assert((d / scale) * scale == scale * (d / scale)) by (nonlinear_arith);
    assert(d / scale < cells) by (nonlinear_arith)
        requires
            (d / scale) * scale <= d,
            d < cells * scale,
            scale > 0,
    ;
}

/// Painting block pixel `(sx, sy)` of cell `(row, col)` advances the painted
/// part of the glyph by one pixel.
proof fn lemma_glyph_step(
    glyph: [u8; 7],
    ox: int,
    oy: int,
    scale: int,
    color: Rgba,
    row: int,
    col: int,
    sy: int,
    sx: int,
    size: u32,
    px: i32,
    py: i32,
)
    requires
        scale > 0,
        0 <= row < 7,
        0 <= col < 5,
        0 <= sy < scale,
        0 <= sx < scale,
        glyph_bit(glyph[row], col),
        size <= i32::MAX,
        px == ox + col * scale + sx,
        py == oy + row * scale + sy,
    ensures
        forall|x: int, y: int|
            in_canvas(size as int, x, y) ==> #[trigger] glyph_done(
                glyph,
                ox,
                oy,
                scale,
                color,
                row,
                col,
                sy,
                sx + 1,
            )(x, y) == crate::canvas::stack(
                single_pixel(size, px, py, color)(x, y),
                glyph_done(glyph, ox, oy, scale, color, row, col, sy, sx)(x, y),
            ),
{
    assert(0 <= col * scale) by (nonlinear_arith)
        requires
            0 <= col,
            0 < scale,
    ;
    assert((col + 1) * scale <= 5 * scale) by (nonlinear_arith)
        requires
            col + 1 <= 5,
            0 < scale,
    ;
    assert((col + 1) * scale == col * scale + scale) by (nonlinear_arith);
    assert(0 <= row * scale) by (nonlinear_arith)
        requires
            0 <= row,
            0 < scale,
    ;
    assert((row + 1) * scale <= 7 * scale) by (nonlinear_arith)
        requires
            row + 1 <= 7,
            0 < scale,
    ;
    assert((row + 1) * scale == row * scale + scale) by (nonlinear_arith);
    lemma_fundamental_div_mod_converse(col * scale + sx, scale, col, sx);
    lemma_fundamental_div_mod_converse(row * scale + sy, scale, row, sy);
    assert forall|x: int, y: int| in_canvas(size as int, x, y) implies #[trigger] glyph_done(
        glyph,
        ox,
        oy,
        scale,
        color,
        row,
        col,
        sy,
        sx + 1,
    )(x, y) == crate::canvas::stack(
        single_pixel(size, px, py, color)(x, y),
        glyph_done(glyph, ox, oy, scale, color, row, col, sy, sx)(x, y),
    ) by {
        let dx = x - ox;
        let dy = y - oy;
        if x == px && y == py {
            assert(dx == col * scale + sx);
            assert(dy == row * scale + sy);
        } else if 0 <= dx < 5 * scale && 0 <= dy < 7 * scale {
            lemma_cell(dx, scale, 5);
            lemma_cell(dy, scale, 7);
            if dx / scale == col && dy / scale == row && dx % scale == sx && dy % scale == sy {
                assert(dx == col * scale + sx);
                assert(dy == row * scale + sy);
            }
        }
    }
}

/// Paints the lit cells of `glyph` as `scale` by `scale` blocks, the glyph's
/// top-left corner at `(start_x, start_y)`; blocks outside the canvas are
/// clipped away.
pub fn draw_glyph(
    data: &mut [u8],
    size: u32,
    start_x: i32,
    start_y: i32,
    glyph: &[u8; 7],
    scale: i32,
    color: Rgba,
)
    requires
        size <= i32::MAX,
        glyph_in_range(*glyph, start_x as int, start_y as int, scale as int),
        layer_fits(
            old(data)@.len() as int,
            size as int,
            glyph_layer(*glyph, start_x as int, start_y as int, scale as int, color),
        ),
    ensures
        painted(
            old(data)@,
            final(data)@,
            size as int,
            glyph_layer(*glyph, start_x as int, start_y as int, scale as int, color),
        ),
{
    let ghost d0 = data@;
    let ghost s = size as int;
    let ghost g = *glyph;
    let ghost ox = start_x as int;
    let ghost oy = start_y as int;
    let ghost sc = scale as int;
    proof {
        lemma_painted_nothing(d0, s, glyph_done(g, ox, oy, sc, color, 0, 0, 0, 0));
    }
    let mut row: usize = 0;
    while row < 7
        invariant
            row <= 7,
            size <= i32::MAX,
            s == size as int,
            g == *glyph,
            ox == start_x as int,
            oy == start_y as int,
            sc == scale as int,
            glyph_in_range(g, ox, oy, sc),
            data@.len() == d0.len(),
            layer_fits(d0.len() as int, s, glyph_layer(g, ox, oy, sc, color)),
            painted(d0, data@, s, glyph_done(g, ox, oy, sc, color, row as int, 0, 0, 0)),
        decreases 7 - row,
    {
        let bits = glyph[row];
        let mut col: u8 = 0;
        while col < 5
            invariant
                col <= 5,
                row < 7,
                bits == g[row as int],
                size <= i32::MAX,
                s == size as int,
                g == *glyph,
                ox == start_x as int,
                oy == start_y as int,
                sc == scale as int,
                glyph_in_range(g, ox, oy, sc),
                data@.len() == d0.len(),
                layer_fits(d0.len() as int, s, glyph_layer(g, ox, oy, sc, color)),
                painted(d0, data@, s, glyph_done(g, ox, oy, sc, color, row as int, col as int, 0, 0)),
            decreases 5 - col,
        {
            if bits & (1u8 << (4 - col)) != 0 {
                assert(glyph_bit(g[row as int], col as int));
                let mut sy: i32 = 0;
                while sy < scale
                    invariant
                        0 <= sy,
                        scale > 0 ==> sy <= scale,
                        col < 5,
                        row < 7,
                        glyph_bit(g[row as int], col as int),
                        size <= i32::MAX,
                        s == size as int,
                        ox == start_x as int,
                        oy == start_y as int,
                        sc == scale as int,
                        glyph_in_range(g, ox, oy, sc),
                        data@.len() == d0.len(),
                        layer_fits(d0.len() as int, s, glyph_layer(g, ox, oy, sc, color)),
                        painted(
                            d0,
                            data@,
                            s,
                            glyph_done(g, ox, oy, sc, color, row as int, col as int, sy as int, 0),
                        ),
                    decreases scale - sy,
                {
                    let mut sx: i32 = 0;
                    while sx < scale
                        invariant
                            0 <= sx <= scale,
                            0 <= sy < scale,
                            col < 5,
                            row < 7,
                            glyph_bit(g[row as int], col as int),
                            size <= i32::MAX,
                            s == size as int,
                            ox == start_x as int,
                            oy == start_y as int,
                            sc == scale as int,
                            glyph_in_range(g, ox, oy, sc),
                            data@.len() == d0.len(),
                            layer_fits(d0.len() as int, s, glyph_layer(g, ox, oy, sc, color)),
                            painted(
                                d0,
                                data@,
                                s,
                                glyph_done(
                                    g,
                                    ox,
                                    oy,
                                    sc,
                                    color,
                                    row as int,
                                    col as int,
                                    sy as int,
                                    sx as int,
                                ),
                            ),
                        decreases scale - sx,
                    {
                        proof {
                            assert(glyph_bit(g[row as int], col as int));
                            assert(col * sc <= i32::MAX);
                            assert(row * sc <= i32::MAX);
                            assert(ox + (col + 1) * sc - 1 <= i32::MAX);
                            assert(oy + (row + 1) * sc - 1 <= i32::MAX);
                            assert((col + 1) * sc == col * sc + sc) by (nonlinear_arith);
                            assert((row + 1) * sc == row * sc + sc) by (nonlinear_arith);
                            assert(0 <= col * sc) by (nonlinear_arith)
                                requires
                                    0 <= col,
                                    0 < sc,
                            ;
                            assert(0 <= row * sc) by (nonlinear_arith)
                                requires
                                    0 <= row,
                                    0 < sc,
                            ;
                        }
                        let px = start_x + (col as i32) * scale + sx;
                        let py = start_y + (row as i32) * scale + sy;
                        let ghost before = data@;
                        proof {
                            lemma_glyph_step(
                                g,
                                ox,
                                oy,
                                sc,
                                color,
                                row as int,
                                col as int,
                                sy as int,
                                sx as int,
                                size,
                                px,
                                py,
                            );
                            if in_canvas(s, px as int, py as int) {
                                let l = glyph_layer(g, ox, oy, sc, color);
                                let px_i = px as int;
                                let py_i = py as int;
                                assert(glyph_done(
                                    g,
                                    ox,
                                    oy,
                                    sc,
                                    color,
                                    row as int,
                                    col as int,
                                    sy as int,
                                    sx + 1,
                                )(px_i, py_i) is Some);
                                assert(l(px_i, py_i) is Some);
                                assert(pixel_fits(d0.len() as int, s, px_i, py_i));
                            }
                        }
                        set_pixel(data, size, px, py, color);
                        proof {
                            lemma_paint_over(
                                d0,
                                before,
                                data@,
                                s,
                                glyph_done(
                                    g,
                                    ox,
                                    oy,
                                    sc,
                                    color,
                                    row as int,
                                    col as int,
                                    sy as int,
                                    sx as int,
                                ),
                                single_pixel(size, px, py, color),
                                glyph_done(
                                    g,
                                    ox,
                                    oy,
                                    sc,
                                    color,
                                    row as int,
                                    col as int,
                                    sy as int,
                                    sx + 1,
                                ),
                            );
                        }
                        sx = sx + 1;
                    }
                    proof {
                        assert forall|x: int, y: int| in_canvas(s, x, y) implies #[trigger] glyph_done(
                            g,
                            ox,
                            oy,
                            sc,
                            color,
                            row as int,
                            col as int,
                            sy as int,
                            sc,
                        )(x, y) == glyph_done(
                            g,
                            ox,
                            oy,
                            sc,
                            color,
                            row as int,
                            col as int,
                            sy + 1,
                            0,
                        )(x, y) by {
                            let dx = x - ox;
                            let dy = y - oy;
                            if sc > 0 && 0 <= dx < 5 * sc && 0 <= dy < 7 * sc {
                                lemma_cell(dx, sc, 5);
                                lemma_cell(dy, sc, 7);
                            }
                        }
                        lemma_painted_same_on_canvas(
                            d0,
                            data@,
                            s,
                            glyph_done(g, ox, oy, sc, color, row as int, col as int, sy as int, sc),
                            glyph_done(g, ox, oy, sc, color, row as int, col as int, sy + 1, 0),
                        );
                    }
                    sy = sy + 1;
                }
                proof {
                    assert forall|x: int, y: int| in_canvas(s, x, y) implies #[trigger] glyph_done(
                        g,
                        ox,
                        oy,
                        sc,
                        color,
                        row as int,
                        col as int,
                        sy as int,
                        0,
                    )(x, y) == glyph_done(g, ox, oy, sc, color, row as int, col + 1, 0, 0)(x, y) by {
                        let dx = x - ox;
                        let dy = y - oy;
                        if sc > 0 && 0 <= dx < 5 * sc && 0 <= dy < 7 * sc {
                            lemma_cell(dx, sc, 5);
                            lemma_cell(dy, sc, 7);
                        }
                    }
                    lemma_painted_same_on_canvas(
                        d0,
                        data@,
                        s,
                        glyph_done(g, ox, oy, sc, color, row as int, col as int, sy as int, 0),
                        glyph_done(g, ox, oy, sc, color, row as int, col + 1, 0, 0),
                    );
                }
            } else {
                proof {
                    assert(!glyph_bit(g[row as int], col as int));
                    assert forall|x: int, y: int| in_canvas(s, x, y) implies #[trigger] glyph_done(
                        g,
                        ox,
                        oy,
                        sc,
                        color,
                        row as int,
                        col as int,
                        0,
                        0,
                    )(x, y) == glyph_done(g, ox, oy, sc, color, row as int, col + 1, 0, 0)(x, y) by {
                        let dx = x - ox;
                        let dy = y - oy;
                        if sc > 0 && 0 <= dx < 5 * sc && 0 <= dy < 7 * sc {
                            lemma_cell(dx, sc, 5);
                            lemma_cell(dy, sc, 7);
                        }
                    }
                    lemma_painted_same_on_canvas(
                        d0,
                        data@,
                        s,
                        glyph_done(g, ox, oy, sc, color, row as int, col as int, 0, 0),
                        glyph_done(g, ox, oy, sc, color, row as int, col + 1, 0, 0),
                    );
                }
            }
            col = col + 1;
        }
        proof {
            assert forall|x: int, y: int| in_canvas(s, x, y) implies #[trigger] glyph_done(
                g,
                ox,
                oy,
                sc,
                color,
                row as int,
                5,
                0,
                0,
            )(x, y) == glyph_done(g, ox, oy, sc, color, row + 1, 0, 0, 0)(x, y) by {
                let dx = x - ox;
                let dy = y - oy;
                if sc > 0 && 0 <= dx < 5 * sc && 0 <= dy < 7 * sc {
                    lemma_cell(dx, sc, 5);
                    lemma_cell(dy, sc, 7);
                }
            }
            lemma_painted_same_on_canvas(
                d0,
                data@,
                s,
                glyph_done(g, ox, oy, sc, color, row as int, 5, 0, 0),
                glyph_done(g, ox, oy, sc, color, row + 1, 0, 0, 0),
            );
        }
        row = row + 1;
    }
    proof {
        assert forall|x: int, y: int| in_canvas(s, x, y) implies #[trigger] glyph_done(
            g,
            ox,
            oy,
            sc,
            color,
            7,
            0,
            0,
            0,
        )(x, y) == glyph_layer(g, ox, oy, sc, color)(x, y) by {
            let dx = x - ox;
            let dy = y - oy;
            if sc > 0 && 0 <= dx < 5 * sc && 0 <= dy < 7 * sc {
                lemma_cell(dx, sc, 5);
                lemma_cell(dy, sc, 7);
            }
        }
        lemma_painted_same_on_canvas(
            d0,
            data@,
            s,
            glyph_done(g, ox, oy, sc, color, 7, 0, 0, 0),
            glyph_layer(g, ox, oy, sc, color),
        );
    }
}

} // verus!
