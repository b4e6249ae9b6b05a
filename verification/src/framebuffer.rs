//! Pixels of the 640x400 framebuffer behind the kernel's text console:
//! four bytes per pixel, blue, green, red, then an opaque alpha byte.
use vstd::prelude::*;

verus! {

/// Bytes per pixel.
pub const PIXEL_BYTES: usize = 4;

/// Bytes per row of pixels.
pub const STRIDE: usize = 2560;

/// Bytes per row of text cells (eight rows of pixels).
pub const TEXT_ROW_BYTES: usize = 20480;

/// Bytes of the visible picture.
pub const VISIBLE_BYTES: usize = 1024000;

/// A colour given by its red, green and blue parts.
#[derive(Clone, Copy)]
pub struct Rgb {
    pub r: u8,
    pub g: u8,
    pub b: u8,
}

/// Byte `k` of a pixel of colour `c`.
pub open spec fn pixel_byte(c: Rgb, k: int) -> u8 {
    if k == 0 {
        c.b
    } else if k == 1 {
        c.g
    } else if k == 2 {
        c.r
    } else {
        0xff
    }
}

/// Writes one pixel of colour `c` at byte offset `4 * p`.
fn write_pixel(fb: &mut [u8], p: usize, c: Rgb)
    requires
        4 * p + 4 <= old(fb)@.len(),
    ensures
        final(fb)@.len() == old(fb)@.len(),
        forall|i: int|
            0 <= i < old(fb)@.len() ==> #[trigger] final(fb)@[i] == if 4 * p <= i < 4 * p + 4 {
                pixel_byte(c, i - 4 * p)
            } else {
                old(fb)@[i]
            },
{
    let o = 4 * p;
    fb[o] = c.b;
    fb[o + 1] = c.g;
    fb[o + 2] = c.r;
    fb[o + 3] = 0xff;
}

/// Paints every whole pixel of `fb` with colour `c`; a trailing part of a
/// pixel is left as it was.
pub fn fill_pixels(fb: &mut [u8], c: Rgb)
    ensures
        final(fb)@.len() == old(fb)@.len(),
        forall|i: int|
            0 <= i < old(fb)@.len() ==> #[trigger] final(fb)@[i] == if i < old(fb)@.len() - old(
                fb,
            )@.len() % 4 {
                pixel_byte(c, i % 4)
            } else {
                old(fb)@[i]
            },
{
    let n = fb.len() / 4;
    let mut p: usize = 0;
    while p < n
        invariant
            n == old(fb)@.len() / 4,
            p <= n,
            fb@.len() == old(fb)@.len(),
            forall|i: int|
                0 <= i < fb@.len() ==> #[trigger] fb@[i] == if i < 4 * p {
                    pixel_byte(c, i % 4)
                } else {
                    old(fb)@[i]
                },
        decreases n - p,
    {
        let ghost before = fb@;
        write_pixel(fb, p, c);
        assert forall|i: int| 0 <= i < fb@.len() implies #[trigger] fb@[i] == if i < 4 * (p + 1) {
            pixel_byte(c, i % 4)
        } else {
            old(fb)@[i]
        } by {
            assert(before[i] == if i < 4 * p {
                pixel_byte(c, i % 4)
            } else {
                old(fb)@[i]
            });
            if 4 * p <= i < 4 * p + 4 {
                assert(i % 4 == i - 4 * p);
            }
        }
        p = p + 1;
    }
}

/// Moves the picture up by one row of text cells and paints the freed
/// bottom row with colour `c`; bytes past the picture are left as they were.
pub fn scroll_up(fb: &mut [u8], c: Rgb)
    requires
        old(fb)@.len() >= VISIBLE_BYTES,
    ensures
        final(fb)@.len() == old(fb)@.len(),
        forall|i: int|
            0 <= i < old(fb)@.len() ==> #[trigger] final(fb)@[i] == if i < VISIBLE_BYTES
                - TEXT_ROW_BYTES {
                old(fb)@[i + TEXT_ROW_BYTES]
            } else if i < VISIBLE_BYTES {
                pixel_byte(c, i % 4)
            } else {
                old(fb)@[i]
            },
{
    let moved = VISIBLE_BYTES - TEXT_ROW_BYTES;
    let mut i: usize = 0;
    while i < moved
        invariant
            moved == VISIBLE_BYTES - TEXT_ROW_BYTES,
            i <= moved,
            fb@.len() == old(fb)@.len(),
            old(fb)@.len() >= VISIBLE_BYTES,
            forall|j: int|
                0 <= j < fb@.len() ==> #[trigger] fb@[j] == if j < i {
                    old(fb)@[j + TEXT_ROW_BYTES]
                } else {
                    old(fb)@[j]
                },
        decreases moved - i,
    {
        let v = fb[i + TEXT_ROW_BYTES];
        fb[i] = v;
        i = i + 1;
    }
    let mut p: usize = moved / 4;
    while p < VISIBLE_BYTES / 4
        invariant
            moved == VISIBLE_BYTES - TEXT_ROW_BYTES,
            moved / 4 <= p <= VISIBLE_BYTES / 4,
            fb@.len() == old(fb)@.len(),
            old(fb)@.len() >= VISIBLE_BYTES,
            forall|j: int|
                0 <= j < fb@.len() ==> #[trigger] fb@[j] == if j < moved {
                    old(fb)@[j + TEXT_ROW_BYTES]
                } else if j < 4 * p {
                    pixel_byte(c, j % 4)
                } else {
                    old(fb)@[j]
                },
        decreases VISIBLE_BYTES / 4 - p,
    {
        let ghost before = fb@;
        write_pixel(fb, p, c);
        assert forall|j: int| 0 <= j < fb@.len() implies #[trigger] fb@[j] == if j < moved {
            old(fb)@[j + TEXT_ROW_BYTES]
        } else if j < 4 * (p + 1) {
            pixel_byte(c, j % 4)
        } else {
            old(fb)@[j]
        } by {
            assert(before[j] == if j < moved {
                old(fb)@[j + TEXT_ROW_BYTES]
            } else if j < 4 * p {
                pixel_byte(c, j % 4)
            } else {
                old(fb)@[j]
            });
            if 4 * p <= j < 4 * p + 4 {
                assert(j % 4 == j - 4 * p);
            }
        }
        p = p + 1;
    }
}

/// `(x, y)` lies on a `width` by `height` picture, the bounds taken as
/// `i32` as the drawing code compares them.
pub open spec fn on_picture(width: u32, height: u32, x: int, y: int) -> bool {
    0 <= x < (width as i32) as int && 0 <= y < (height as i32) as int
}

/// Sets pixel `(x, y)` of a `width` by `height` picture stored row by row in
/// `fb` to colour `c`; a point off the picture is ignored.
pub fn put_pixel(fb: &mut [u8], width: u32, height: u32, x: i32, y: i32, c: Rgb)
    requires
        on_picture(width, height, x as int, y as int) ==> (y as int * width as int
            + x as int) * 4 + 4 <= old(fb)@.len(),
    ensures
        final(fb)@.len() == old(fb)@.len(),
        forall|i: int|
            0 <= i < old(fb)@.len() ==> #[trigger] final(fb)@[i] == if on_picture(
                width,
                height,
                x as int,
                y as int,
            ) && (y as int * width as int + x as int) * 4 <= i < (y as int * width as int
                + x as int) * 4 + 4 {
                pixel_byte(c, i - (y as int * width as int + x as int) * 4)
            } else {
                old(fb)@[i]
            },
{
    let w = #[verifier::truncate] (width as i32);
    let h = #[verifier::truncate] (height as i32);
    if x < 0 || y < 0 || x >= w || y >= h {
        return;
    }
    assert(w > 0 ==> w as int == width as int) by (bit_vector)
        requires
            w == width as i32,
    ;
    let len = fb.len();
    assert(on_picture(width, height, x as int, y as int));
    let ghost row = y as int * width as int;
    assert(0 <= row) by (nonlinear_arith)
        requires
            y >= 0,
            row == y as int * width as int,
    ;
    assert((row + x as int) * 4 + 4 <= len);
    let yy = y as usize;
    let ww = width as usize;
    assert(yy as int * ww as int == row);
    let line = yy * ww;
    let p = line + x as usize;
    write_pixel(fb, p, c);
}

} // verus!
