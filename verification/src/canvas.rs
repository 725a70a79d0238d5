//! A square RGBA canvas held in a byte slice, four bytes per pixel, row by row.
//!
//! Drawing is described by *layers*: a layer gives, for each pixel of the
//! canvas, either the colour it is painted with or `None` for "left as it was".
use vstd::prelude::*;

verus! {

/// An RGBA colour, one byte per channel.
pub type Rgba = [u8; 4];

/// What a drawing operation does to each pixel.
pub type Layer = spec_fn(int, int) -> Option<Rgba>;

/// `(x, y)` is a pixel of a `size` by `size` canvas.
pub open spec fn in_canvas(size: int, x: int, y: int) -> bool {
    0 <= x < size && 0 <= y < size
}

/// Position in the buffer of channel `c` of pixel `(x, y)`.
pub open spec fn byte_index(size: int, x: int, y: int, c: int) -> int {
    (y * size + x) * 4 + c
}

/// The pixel's four bytes lie in a buffer of `len` bytes, and the start of
/// the pixel is representable in the `u32` arithmetic that addresses it.
pub open spec fn pixel_fits(len: int, size: int, x: int, y: int) -> bool {
    &&& (y * size + x) * 4 + 4 <= len
    &&& (y * size + x) * 4 <= u32::MAX
}

/// A pixel that `set_pixel` writes: coordinates inside the canvas, with a side
/// that the signed coordinates can be compared against.
pub open spec fn drawable(size: u32, x: i32, y: i32) -> bool {
    &&& size <= i32::MAX
    &&& in_canvas(size as int, x as int, y as int)
}

/// Channel `c` of a byte whose pixel the layer gives `px`.
pub open spec fn paint_byte(old_byte: u8, px: Option<Rgba>, c: int) -> u8 {
    match px {
        Some(color) => color[c],
        None => old_byte,
    }
}

/// `top` drawn over `below`.
pub open spec fn stack(top: Option<Rgba>, below: Option<Rgba>) -> Option<Rgba> {
    match top {
        Some(color) => Some(color),
        None => below,
    }
}

/// `new` is `old` with `layer` painted over the `size` by `size` canvas at its
/// start; bytes beyond the canvas are unchanged.
pub open spec fn painted(old: Seq<u8>, new: Seq<u8>, size: int, layer: Layer) -> bool {
    &&& new.len() == old.len()
    &&& forall|x: int, y: int, c: int|
        in_canvas(size, x, y) && 0 <= c < 4 && byte_index(size, x, y, c) < old.len() ==>
            #[trigger] new[byte_index(size, x, y, c)] == paint_byte(
                old[byte_index(size, x, y, c)],
                layer(x, y),
                c,
            )
    &&& forall|i: int| size * size * 4 <= i < old.len() ==> #[trigger] new[i] == old[i]
}

/// The layer that paints one pixel, when `set_pixel` would draw it.
pub open spec fn single_pixel(size: u32, x: i32, y: i32, color: Rgba) -> Layer {
    |px: int, py: int|
        if drawable(size, x, y) && px == x && py == y {
            Some(color)
        } else {
            None
        }
}

/// Every in-canvas pixel that `layer` paints lies in a buffer of `len` bytes
/// (and is addressable in `u32`).
pub open spec fn layer_fits(len: int, size: int, layer: Layer) -> bool {
    forall|x: int, y: int|
        in_canvas(size, x, y) && (#[trigger] layer(x, y)) is Some ==> pixel_fits(len, size, x, y)
}

/// Pixels of a canvas are numbered row by row, and the numbering preserves
/// that order.
pub proof fn lemma_pixel_order(size: int, x1: int, y1: int, x2: int, y2: int)
    requires
        in_canvas(size, x1, y1),
        in_canvas(size, x2, y2),
        y1 < y2 || (y1 == y2 && x1 < x2),
    ensures
        y1 * size + x1 < y2 * size + x2,
{
    if y1 < y2 {
        assert((y1 + 1) * size <= y2 * size) by (nonlinear_arith)
            requires
                y1 + 1 <= y2,
                0 <= size,
        ;
        assert((y1 + 1) * size == y1 * size + size) by (nonlinear_arith);
    }
}

/// The number of a canvas pixel is below the number of pixels.
pub proof fn lemma_pixel_number_bound(size: int, x: int, y: int)
    requires
        in_canvas(size, x, y),
    ensures
        0 <= y * size + x < size * size,
{
    assert(0 <= y * size) by (nonlinear_arith)
        requires
            0 <= y,
            0 <= size,
    ;
    assert((y + 1) * size <= size * size) by (nonlinear_arith)
        requires
            y + 1 <= size,
            0 <= size,
    ;
    assert((y + 1) * size == y * size + size) by (nonlinear_arith);
}

/// Distinct pixels own disjoint bytes.
pub proof fn lemma_pixel_bytes_disjoint(
    size: int,
    x1: int,
    y1: int,
    c1: int,
    x2: int,
    y2: int,
    c2: int,
)
    requires
        in_canvas(size, x1, y1),
        in_canvas(size, x2, y2),
        0 <= c1 < 4,
        0 <= c2 < 4,
        x1 != x2 || y1 != y2,
    ensures
        byte_index(size, x1, y1, c1) != byte_index(size, x2, y2, c2),
{
    if y1 < y2 || (y1 == y2 && x1 < x2) {
        lemma_pixel_order(size, x1, y1, x2, y2);
    } else {
        lemma_pixel_order(size, x2, y2, x1, y1);
    }
}

/// Paints `color` at `(x, y)` when the pixel lies on the canvas; pixels
/// outside the canvas are clipped away.
pub fn set_pixel(data: &mut [u8], size: u32, x: i32, y: i32, color: Rgba)
    requires
        drawable(size, x, y) ==> pixel_fits(old(data)@.len() as int, size as int, x as int, y as int),
    ensures
        painted(old(data)@, final(data)@, size as int, single_pixel(size, x, y, color)),
{
    if x < 0 || y < 0 || size > 0x7fff_ffff || x >= size as i32 || y >= size as i32 {
        return;
    }
    let xu = x as u32;
    let yu = y as u32;
    let idx = ((yu * size + xu) * 4) as usize;
    data[idx] = color[0];
    data[idx + 1] = color[1];
    data[idx + 2] = color[2];
    data[idx + 3] = color[3];
    proof {
        let s = size as int;
        assert(idx == byte_index(s, x as int, y as int, 0));
        assert forall|px: int, py: int, c: int|
            in_canvas(s, px, py) && 0 <= c < 4 && byte_index(s, px, py, c) < old(data)@.len() implies
            #[trigger] data@[byte_index(s, px, py, c)] == paint_byte(
                old(data)@[byte_index(s, px, py, c)],
                single_pixel(size, x, y, color)(px, py),
                c,
            ) by {
            if px == x && py == y {
            } else {
                lemma_pixel_bytes_disjoint(s, px, py, c, x as int, y as int, 0);
                lemma_pixel_bytes_disjoint(s, px, py, c, x as int, y as int, 1);
                lemma_pixel_bytes_disjoint(s, px, py, c, x as int, y as int, 2);
                lemma_pixel_bytes_disjoint(s, px, py, c, x as int, y as int, 3);
            }
        }
        lemma_pixel_number_bound(s, x as int, y as int);
    }
}

/// On a buffer that holds the whole canvas, every layer fits.
pub proof fn lemma_canvas_fits(len: int, size: int, layer: Layer)
    requires
        size * size * 4 <= len,
        size * size <= 0x4000_0000,
    ensures
        layer_fits(len, size, layer),
{
    assert forall|x: int, y: int|
        in_canvas(size, x, y) && (#[trigger] layer(x, y)) is Some implies pixel_fits(len, size, x, y) by {
        lemma_pixel_number_bound(size, x, y);
    }
}

/// Painting is deterministic: the bytes after painting a layer over a buffer
/// are determined by the buffer and the layer.
pub proof fn lemma_painted_unique(a: Seq<u8>, b1: Seq<u8>, b2: Seq<u8>, size: int, layer: Layer)
    requires
        0 <= size,
        painted(a, b1, size, layer),
        painted(a, b2, size, layer),
    ensures
        b1 == b2,
{
    assert forall|i: int| 0 <= i < b1.len() implies b1[i] == b2[i] by {
        if i < size * size * 4 {
            let p = i / 4;
            let c = i % 4;
            let x = p % size;
            let y = p / size;
            vstd::arithmetic::div_mod::lemma_fundamental_div_mod(i, 4);
            vstd::arithmetic::div_mod::lemma_mod_pos_bound(i, 4);
            assert(size > 0) by {
                if size == 0 {
                    assert(size * size == 0);
                }
            }
            vstd::arithmetic::div_mod::lemma_fundamental_div_mod(p, size);
            vstd::arithmetic::div_mod::lemma_mod_pos_bound(p, size);
            vstd::arithmetic::div_mod::lemma_div_pos_is_pos(p, size);
            assert(p < size * size);
            assert(y < size) by (nonlinear_arith)
                requires
                    p == size * y + x,
                    0 <= x,
                    p < size * size,
                    size > 0,
            ;
            assert(y * size == size * y) by (nonlinear_arith);
            assert(byte_index(size, x, y, c) == i);
            assert(b1[byte_index(size, x, y, c)] == b2[byte_index(size, x, y, c)]);
        }
    }
    assert(b1 =~= b2);
}

/// The layer that paints every pixel with one colour.
pub open spec fn solid(color: Rgba) -> Layer {
    |x: int, y: int| Some(color)
}

/// What `layer` paints on the pixels strictly before `(x, y)` in row order.
pub open spec fn prefix(layer: Layer, x: int, y: int) -> Layer {
    |px: int, py: int|
        if py < y || (py == y && px < x) {
            layer(px, py)
        } else {
            None
        }
}

/// Layers are stacked: painting `under` and then `over` paints `over` drawn
/// over `under`, and pixels neither paints keep their bytes.
pub proof fn lemma_paint_over(
    a: Seq<u8>,
    b: Seq<u8>,
    c: Seq<u8>,
    size: int,
    under: Layer,
    over: Layer,
    both: Layer,
)
    requires
        painted(a, b, size, under),
        painted(b, c, size, over),
        forall|x: int, y: int|
            in_canvas(size, x, y) ==> #[trigger] both(x, y) == stack(over(x, y), under(x, y)),
    ensures
        painted(a, c, size, both),
{
    assert forall|x: int, y: int, ch: int|
        in_canvas(size, x, y) && 0 <= ch < 4 && byte_index(size, x, y, ch) < a.len() implies
        #[trigger] c[byte_index(size, x, y, ch)] == paint_byte(
            a[byte_index(size, x, y, ch)],
            both(x, y),
            ch,
        ) by {
        assert(b[byte_index(size, x, y, ch)] == paint_byte(
            a[byte_index(size, x, y, ch)],
            under(x, y),
            ch,
        ));
    }
}

/// Only what a layer does on the canvas matters.
pub proof fn lemma_painted_same_on_canvas(a: Seq<u8>, b: Seq<u8>, size: int, l1: Layer, l2: Layer)
    requires
        painted(a, b, size, l1),
        forall|x: int, y: int| in_canvas(size, x, y) ==> #[trigger] l1(x, y) == l2(x, y),
    ensures
        painted(a, b, size, l2),
{
    assert forall|x: int, y: int, ch: int|
        in_canvas(size, x, y) && 0 <= ch < 4 && byte_index(size, x, y, ch) < a.len() implies
        #[trigger] b[byte_index(size, x, y, ch)] == paint_byte(
            a[byte_index(size, x, y, ch)],
            l2(x, y),
            ch,
        ) by {
        assert(l1(x, y) == l2(x, y));
    }
}

/// A layer that paints nothing leaves the buffer as it is.
pub proof fn lemma_painted_nothing(a: Seq<u8>, size: int, layer: Layer)
    requires
        forall|x: int, y: int| in_canvas(size, x, y) ==> (#[trigger] layer(x, y)) is None,
    ensures
        painted(a, a, size, layer),
{
    assert forall|x: int, y: int, ch: int|
        in_canvas(size, x, y) && 0 <= ch < 4 && byte_index(size, x, y, ch) < a.len() implies
        #[trigger] a[byte_index(size, x, y, ch)] == paint_byte(
            a[byte_index(size, x, y, ch)],
            layer(x, y),
            ch,
        ) by {
        assert(layer(x, y) is None);
    }
}

/// Paints every pixel of the canvas with `color`.
pub fn fill_rect(data: &mut [u8], size: u32, color: Rgba)
    requires
        layer_fits(old(data)@.len() as int, size as int, solid(color)),
    ensures
        painted(old(data)@, final(data)@, size as int, solid(color)),
{
    let ghost d0 = data@;
    let ghost s = size as int;
    proof {
        if size > 0 {
            assert(solid(color)(size - 1, 0) is Some);
            assert(pixel_fits(d0.len() as int, s, size - 1, 0));
        }
        lemma_painted_nothing(d0, s, prefix(solid(color), 0, 0));
    }
    let mut y: u32 = 0;
    while y < size
        invariant
            y <= size,
            size <= 0x4000_0000,
            s == size as int,
            data@.len() == d0.len(),
            layer_fits(d0.len() as int, s, solid(color)),
            painted(d0, data@, s, prefix(solid(color), 0, y as int)),
        decreases size - y,
    {
        let mut x: u32 = 0;
        while x < size
            invariant
                x <= size,
                y < size,
                size <= 0x4000_0000,
                s == size as int,
                data@.len() == d0.len(),
                layer_fits(d0.len() as int, s, solid(color)),
                painted(d0, data@, s, prefix(solid(color), x as int, y as int)),
            decreases size - x,
        {
            let ghost before = data@;
            proof {
                assert(solid(color)(x as int, y as int) is Some);
            }
            set_pixel(data, size, x as i32, y as i32, color);
            proof {
                lemma_paint_over(
                    d0,
                    before,
                    data@,
                    s,
                    prefix(solid(color), x as int, y as int),
                    single_pixel(size, x as i32, y as i32, color),
                    prefix(solid(color), x + 1, y as int),
                );
            }
            x = x + 1;
        }
        proof {
            lemma_painted_same_on_canvas(
                d0,
                data@,
                s,
                prefix(solid(color), s, y as int),
                prefix(solid(color), 0, y + 1),
            );
        }
        y = y + 1;
    }
    proof {
        lemma_painted_same_on_canvas(d0, data@, s, prefix(solid(color), 0, s), solid(color));
    }
}

/// Circle geometry is measured in two-hundredths of a pixel, so that the
/// half-pixel and hundredth-of-a-side positions of the icon are exact.
pub const SUBPIXELS: i64 = 200;

/// Largest magnitude of a centre coordinate or radius, in subpixels.
pub const COORD_LIMIT: i64 = 0x100_0000_0000;

/// Pixel `(x, y)` lies in the closed disc of centre `(cx, cy)` and radius `r`
/// (all in subpixels).
pub open spec fn in_disc(cx: int, cy: int, r: int, x: int, y: int) -> bool {
    let dx = SUBPIXELS * x - cx;
    let dy = SUBPIXELS * y - cy;
    dx * dx + dy * dy <= r * r
}

/// The layer of a filled disc.
pub open spec fn disc(cx: int, cy: int, r: int, color: Rgba) -> Layer {
    |x: int, y: int|
        if in_disc(cx, cy, r, x, y) {
            Some(color)
        } else {
            None
        }
}

proof fn lemma_square_bound(d: i128)
    requires
        -0x200_0000_0000 <= d <= 0x200_0000_0000,
    ensures
        0 <= d * d <= 0x4_0000_0000_0000_0000_0000,
{
    assert(0 <= d * d <= 0x4_0000_0000_0000_0000_0000) by (nonlinear_arith)
        requires
            -0x200_0000_0000 <= d <= 0x200_0000_0000,
    ;
}

/// Paints every canvas pixel inside the disc of centre `(cx, cy)` and radius
/// `radius`, all measured in subpixels.
pub fn draw_circle(data: &mut [u8], size: u32, cx: i64, cy: i64, radius: i64, color: Rgba)
    requires
        size <= i32::MAX,
        -COORD_LIMIT <= cx <= COORD_LIMIT,
        -COORD_LIMIT <= cy <= COORD_LIMIT,
        -COORD_LIMIT <= radius <= COORD_LIMIT,
        layer_fits(old(data)@.len() as int, size as int, disc(cx as int, cy as int, radius as int, color)),
    ensures
        painted(old(data)@, final(data)@, size as int, disc(cx as int, cy as int, radius as int, color)),
{
    let ghost d0 = data@;
    let ghost s = size as int;
    let ghost layer = disc(cx as int, cy as int, radius as int, color);
    proof {
        lemma_painted_nothing(d0, s, prefix(layer, 0, 0));
    }
    proof {
        lemma_square_bound(radius as i128);
    }
    let r2: i128 = (radius as i128) * (radius as i128);
    let mut y: u32 = 0;
    while y < size
        invariant
            y <= size,
            size <= i32::MAX,
            s == size as int,
            -COORD_LIMIT <= cx <= COORD_LIMIT,
            -COORD_LIMIT <= cy <= COORD_LIMIT,
            r2 == radius * radius,
            layer == disc(cx as int, cy as int, radius as int, color),
            data@.len() == d0.len(),
            layer_fits(d0.len() as int, s, layer),
            painted(d0, data@, s, prefix(layer, 0, y as int)),
        decreases size - y,
    {
        let dy: i128 = 200 * (y as i128) - cy as i128;
        proof {
            lemma_square_bound(dy);
        }
        let dy2: i128 = dy * dy;
        let mut x: u32 = 0;
        while x < size
            invariant
                x <= size,
                y < size,
                size <= i32::MAX,
                s == size as int,
                -COORD_LIMIT <= cx <= COORD_LIMIT,
                dy == SUBPIXELS * y - cy,
                dy2 == dy * dy,
                0 <= dy2 <= 0x4_0000_0000_0000_0000_0000,
                r2 == radius * radius,
                layer == disc(cx as int, cy as int, radius as int, color),
                data@.len() == d0.len(),
                layer_fits(d0.len() as int, s, layer),
                painted(d0, data@, s, prefix(layer, x as int, y as int)),
            decreases size - x,
        {
            let dx: i128 = 200 * (x as i128) - cx as i128;
            proof {
                lemma_square_bound(dx);
            }
            let ghost before = data@;
            if dx * dx + dy2 <= r2 {
                proof {
                    assert(layer(x as int, y as int) is Some);
                }
                set_pixel(data, size, x as i32, y as i32, color);
                proof {
                    lemma_paint_over(
                        d0,
                        before,
                        data@,
                        s,
                        prefix(layer, x as int, y as int),
                        single_pixel(size, x as i32, y as i32, color),
                        prefix(layer, x + 1, y as int),
                    );
                }
            } else {
                proof {
                    lemma_painted_same_on_canvas(
                        d0,
                        data@,
                        s,
                        prefix(layer, x as int, y as int),
                        prefix(layer, x + 1, y as int),
                    );
                }
            }
            x = x + 1;
        }
        proof {
            lemma_painted_same_on_canvas(d0, data@, s, prefix(layer, s, y as int), prefix(layer, 0, y + 1));
        }
        y = y + 1;
    }
    proof {
        lemma_painted_same_on_canvas(d0, data@, s, prefix(layer, 0, s), layer);
    }
}

} // verus!
