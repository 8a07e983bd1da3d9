use vstd::prelude::*;
use crate::bitmap::Bitmap;
use crate::canvas::Canvas;
use crate::error::GraphicsError;
use crate::line::draw_line;
use crate::line::line_in_range;
use crate::line::line_pixels;
use crate::raster::draw_point;
use crate::raster::fill_rect;
use crate::raster::rect_in_range;
use crate::raster::rect_pixels;

verus! {

/// Distance between two lines of the grid.
pub const GRID_SIZE: i64 = 32;

/// Side of the square that the grid covers.
pub const RECT_SIZE: i64 = 256;

/// Colour of the grid and of the rays.
pub const LINE_COLOR: u32 = 0xffff00;

/// The canvas after an attempt to set one pixel.
pub open spec fn dotted(c: Canvas, color: u32, x: int, y: int) -> Canvas {
    if c.in_range(x, y) {
        c.with_pixel(x, y, color)
    } else {
        c
    }
}

/// The canvas after an attempt to fill a block.
pub open spec fn filled(c: Canvas, color: u32, x: int, y: int, w: int, h: int) -> Canvas {
    if rect_in_range(c, x, y, w, h) {
        c.painted(rect_pixels(x, y, w, h), color)
    } else {
        c
    }
}

/// The canvas after an attempt to draw a line.
pub open spec fn lined(c: Canvas, color: u32, x0: int, y0: int, x1: int, y1: int) -> Canvas {
    if line_in_range(c, x0, y0, x1, y1) {
        c.painted(line_pixels(x0, y0, x1, y1), color)
    } else {
        c
    }
}

/// The four blocks of the backdrop can all be filled: the whole screen and
/// three squares along the diagonal.
pub open spec fn backdrop_fits(c: Canvas) -> bool {
    &&& rect_in_range(c, 0, 0, c.width, c.height)
    &&& rect_in_range(c, 32, 32, 32, 32)
    &&& rect_in_range(c, 64, 64, 64, 64)
    &&& rect_in_range(c, 128, 128, 128, 128)
}

/// The backdrop: the screen cleared to black, then a red, a green and a
/// blue square, each twice the size of the one before. Filling stops at the
/// first block that does not fit.
pub open spec fn backdrop(c: Canvas) -> Canvas {
    if !rect_in_range(c, 0, 0, c.width, c.height) {
        c
    } else {
        let black = filled(c, 0x000000, 0, 0, c.width, c.height);
        if !rect_in_range(c, 32, 32, 32, 32) {
            black
        } else {
            let red = filled(black, 0xff0000, 32, 32, 32, 32);
            if !rect_in_range(c, 64, 64, 64, 64) {
                red
            } else {
                let green = filled(red, 0x00ff00, 64, 64, 64, 64);
                filled(green, 0x0000ff, 128, 128, 128, 128)
            }
        }
    }
}

/// The first `n` pixels of the diagonal, each a shade of grey brighter than
/// the one before.
pub open spec fn diagonal(c: Canvas, n: int) -> Canvas
    decreases n,
{
    if n <= 0 {
        c
    } else {
        dotted(diagonal(c, n - 1), (0x010101 * (n - 1)) as u32, n - 1, n - 1)
    }
}

/// The first `n` horizontal and vertical lines of the grid.
pub open spec fn grid(c: Canvas, n: int) -> Canvas
    decreases n,
{
    if n <= 0 {
        c
    } else {
        let i = 32 * (n - 1);
        lined(lined(grid(c, n - 1), LINE_COLOR, 0, i, 256, i), LINE_COLOR, i, 0, i, 256)
    }
}

/// The rays from the centre of the grid to the first `n` grid points on
/// each of its four sides.
pub open spec fn rays(c: Canvas, n: int) -> Canvas
    decreases n,
{
    if n <= 0 {
        c
    } else {
        let i = 32 * (n - 1);
        let left = lined(rays(c, n - 1), LINE_COLOR, 128, 128, 0, i);
        let top = lined(left, LINE_COLOR, 128, 128, i, 0);
        let right = lined(top, LINE_COLOR, 128, 128, 256, i);
        lined(right, LINE_COLOR, 128, 128, i, 256)
    }
}

/// The whole picture: backdrop, diagonal, grid and rays.
pub open spec fn picture(c: Canvas) -> Canvas {
    rays(grid(diagonal(backdrop(c), 256), 9), 9)
}

/// Paints the diagnostic picture. The backdrop has to fit the screen: where
/// one of its blocks does not, painting stops there with `OutOfRange`.
/// Diagonal, grid and rays are drawn as far as they fit.
pub fn efi_main<T: Bitmap>(vram: &mut T) -> (r: Result<(), GraphicsError>)
    requires
        old(vram).view().well_formed(),
    ensures
        backdrop_fits(old(vram).view()) ==> r.is_ok() && final(vram).view() == picture(
            old(vram).view(),
        ),
        !backdrop_fits(old(vram).view()) ==> r == Err::<(), GraphicsError>(
            GraphicsError::OutOfRange,
        ) && final(vram).view() == backdrop(old(vram).view()),
        final(vram).view().well_formed(),
        final(vram).view().same_frame(old(vram).view()),
{
    let vw = vram.width();
    let vh = vram.height();
    match fill_rect(vram, 0x000000, 0, 0, vw, vh) {
        Ok(()) => {},
        Err(e) => {
            return Err(e);
        },
    }
    match fill_rect(vram, 0xff0000, 32, 32, 32, 32) {
        Ok(()) => {},
        Err(e) => {
            return Err(e);
        },
    }
    match fill_rect(vram, 0x00ff00, 64, 64, 64, 64) {
        Ok(()) => {},
        Err(e) => {
            return Err(e);
        },
    }
    match fill_rect(vram, 0x0000ff, 128, 128, 128, 128) {
        Ok(()) => {},
        Err(e) => {
            return Err(e);
        },
    }
    let ghost start = vram.view();
    let mut i: i64 = 0;
    while i < 256
        invariant
            0 <= i <= 256,
            start.well_formed(),
            vram.view().well_formed(),
            vram.view().same_frame(start),
            vram.view() == diagonal(start, i as int),
        decreases 256 - i,
    {
        assert(0x010101 * i <= 0x010101 * 255) by (nonlinear_arith)
            requires
                0 <= i <= 255,
        ;
        let shade: u32 = 0x010101 * (i as u32);
        let _ = draw_point(vram, shade, i, i);
        i = i + 1;
    }
    let cx: i64 = RECT_SIZE / 2;
    let cy: i64 = RECT_SIZE / 2;
    let ghost dotted_canvas = vram.view();
    let mut k: i64 = 0;
    while k <= 8
        invariant
            0 <= k <= 9,
            vram.view().well_formed(),
            vram.view().same_frame(start),
            vram.view() == grid(dotted_canvas, k as int),
        decreases 9 - k,
    {
        let i: i64 = k * GRID_SIZE;
        let _ = draw_line(vram, LINE_COLOR, 0, i, RECT_SIZE, i);
        let _ = draw_line(vram, LINE_COLOR, i, 0, i, RECT_SIZE);
        k = k + 1;
    }
    let ghost grid_canvas = vram.view();
    let mut k: i64 = 0;
    while k <= 8
        invariant
            0 <= k <= 9,
            cx == 128,
            cy == 128,
            vram.view().well_formed(),
            vram.view().same_frame(start),
            vram.view() == rays(grid_canvas, k as int),
        decreases 9 - k,
    {
        let i: i64 = k * GRID_SIZE;
        let _ = draw_line(vram, LINE_COLOR, cx, cy, 0, i);
        let _ = draw_line(vram, LINE_COLOR, cx, cy, i, 0);
        let _ = draw_line(vram, LINE_COLOR, cx, cy, RECT_SIZE, i);
        let _ = draw_line(vram, LINE_COLOR, cx, cy, i, RECT_SIZE);
        k = k + 1;
    }
    Ok(())
}

} // verus!
