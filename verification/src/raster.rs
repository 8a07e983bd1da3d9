use vstd::prelude::*;
use vstd::set_lib::lemma_set_disjoint_lens;
use crate::bitmap::Bitmap;
use crate::bitmap::unchecked_pixel_at_mut;
use crate::canvas::Canvas;
use crate::canvas::lemma_painted_empty;
use crate::canvas::lemma_painted_insert;
use crate::canvas::lemma_offset_in_bounds;
use crate::error::GraphicsError;

verus! {

/// The pixels of the block of `w` columns and `h` rows whose top-left corner
/// is `(x, y)`; none if `w` or `h` is not positive.
pub open spec fn rect_pixels(x: int, y: int, w: int, h: int) -> Set<(int, int)> {
    Set::new(|p: (int, int)| x <= p.0 < x + w && y <= p.1 < y + h)
}

/// Both corners of the block are addressable.
pub open spec fn rect_in_range(c: Canvas, x: int, y: int, w: int, h: int) -> bool {
    c.in_range(x, y) && c.in_range(x + w - 1, y + h - 1)
}

/// The part of the block that is done when the rows above `row` are filled
/// and row `row` is filled up to column `col`.
pub open spec fn rect_progress(x: int, y: int, w: int, row: int, col: int) -> Set<(int, int)> {
    Set::new(
        |p: (int, int)| x <= p.0 < x + w && (y <= p.1 < row || (p.1 == row && p.0 < col)),
    )
}

/// Sets one pixel that is known to be addressable.
fn unchecked_draw_point<T: Bitmap>(buf: &mut T, color: u32, x: i64, y: i64)
    requires
        old(buf).view().well_formed(),
        old(buf).view().in_range(x as int, y as int),
    ensures
        final(buf).view() == old(buf).view().with_pixel(x as int, y as int, color),
{
    let cell = unchecked_pixel_at_mut(buf, x, y);
    *cell = color;
}

/// Sets pixel `(x, y)` to `color`, or changes nothing if it is not
/// addressable.
pub fn draw_point<T: Bitmap>(buf: &mut T, color: u32, x: i64, y: i64) -> (r: Result<
    (),
    GraphicsError,
>)
    requires
        old(buf).view().well_formed(),
    ensures
        old(buf).view().in_range(x as int, y as int) ==> r.is_ok() && final(buf).view() == old(
            buf,
        ).view().with_pixel(x as int, y as int, color),
        !old(buf).view().in_range(x as int, y as int) ==> r == Err::<(), GraphicsError>(
            GraphicsError::OutOfRange,
        ) && final(buf).view() == old(buf).view(),
        final(buf).view().well_formed(),
        final(buf).view().same_frame(old(buf).view()),
{
    proof {
        if buf.view().in_range(x as int, y as int) {
            lemma_offset_in_bounds(buf.view(), x as int, y as int);
        }
    }
    match buf.pixel_at_mut(x, y) {
        Some(cell) => {
            *cell = color;
            Ok(())
        },
        None => Err(GraphicsError::OutOfRange),
    }
}

/// `a + len - 1` where it is a coordinate that an `i64` can hold.
fn far_corner(a: i64, len: i64) -> (r: Option<i64>)
    ensures
        i64::MIN <= a + len - 1 <= i64::MAX ==> r == Some((a + len - 1) as i64),
        !(i64::MIN <= a + len - 1 <= i64::MAX) ==> r.is_none(),
{
    let wide: i128 = a as i128 + len as i128 - 1;
    if wide < i64::MIN as i128 || wide > i64::MAX as i128 {
        None
    } else {
        Some(wide as i64)
    }
}

/// Fills the block of `w` columns and `h` rows at `(x, y)` with `color`.
/// Both corners are tested before anything is written. A block with no
/// column or no row whose corners pass the test is filled by writing
/// nothing.
pub fn fill_rect<T: Bitmap>(buf: &mut T, color: u32, px: i64, py: i64, w: i64, h: i64) -> (r:
    Result<(), GraphicsError>)
    requires
        old(buf).view().well_formed(),
    ensures
        rect_in_range(old(buf).view(), px as int, py as int, w as int, h as int) ==> r.is_ok()
            && final(buf).view() == old(buf).view().painted(
            rect_pixels(px as int, py as int, w as int, h as int),
            color,
        ),
        !rect_in_range(old(buf).view(), px as int, py as int, w as int, h as int) ==> r == Err::<
            (),
            GraphicsError,
        >(GraphicsError::OutOfRange) && final(buf).view() == old(buf).view(),
        final(buf).view().well_formed(),
        final(buf).view().same_frame(old(buf).view()),
{
    let stride = buf.pixels_per_line();
    let height = buf.height();
    let right = far_corner(px, w);
    let bottom = far_corner(py, h);
    if right.is_none() || bottom.is_none() {
        return Err(GraphicsError::OutOfRange);
    }
    if !buf.is_in_x_range(px) || !buf.is_in_y_range(py) || !buf.is_in_x_range(right.unwrap())
        || !buf.is_in_y_range(bottom.unwrap()) {
        return Err(GraphicsError::OutOfRange);
    }
    let ghost start = buf.view();
    let x_end: i64 = px + w;
    let y_end: i64 = py + h;
    let mut y: i64 = py;
    proof {
        lemma_painted_empty(start, color);
        assert(rect_pixels(px as int, py as int, w as int, 0) =~= Set::empty());
    }
    while y < y_end
        invariant
            start.well_formed(),
            rect_in_range(start, px as int, py as int, w as int, h as int),
            x_end == px + w,
            y_end == py + h,
            py <= y,
            y <= y_end || y == py,
            buf.view() == start.painted(
                rect_pixels(px as int, py as int, w as int, y - py),
                color,
            ),
        decreases y_end - y,
    {
        let mut x: i64 = px;
        proof {
            assert(rect_progress(px as int, py as int, w as int, y as int, px as int)
                =~= rect_pixels(px as int, py as int, w as int, y - py));
        }
        while x < x_end
            invariant
                start.well_formed(),
                rect_in_range(start, px as int, py as int, w as int, h as int),
                x_end == px + w,
                y_end == py + h,
                py <= y < y_end,
                px <= x,
                x <= x_end || x == px,
                buf.view() == start.painted(
                    rect_progress(px as int, py as int, w as int, y as int, x as int),
                    color,
                ),
            decreases x_end - x,
        {
            proof {
                lemma_offset_in_bounds(start, x as int, y as int);
                lemma_painted_insert(
                    start,
                    rect_progress(px as int, py as int, w as int, y as int, x as int),
                    x as int,
                    y as int,
                    color,
                );
                assert(rect_progress(px as int, py as int, w as int, y as int, x as int).insert(
                    (x as int, y as int),
                ) =~= rect_progress(px as int, py as int, w as int, y as int, x + 1));
            }
            unchecked_draw_point(buf, color, x, y);
            x = x + 1;
        }
        proof {
            assert(rect_progress(px as int, py as int, w as int, y as int, x as int)
                =~= rect_pixels(px as int, py as int, w as int, y + 1 - py));
        }
        y = y + 1;
    }
    proof {
        assert(rect_pixels(px as int, py as int, w as int, y - py) =~= rect_pixels(
            px as int,
            py as int,
            w as int,
            h as int,
        ));
    }
    Ok(())
}

/// The pixels of `w` columns of row `y`, from column `x` on.
pub open spec fn row_pixels(x: int, y: int, w: int) -> Set<(int, int)> {
    Set::new(|p: (int, int)| x <= p.0 < x + w && p.1 == y)
}

/// A row of `w` pixels has `w` pixels.
pub proof fn lemma_row_count(x: int, y: int, w: int)
    requires
        0 <= w,
    ensures
        row_pixels(x, y, w).finite(),
        row_pixels(x, y, w).len() == w,
    decreases w,
{
    if w == 0 {
        assert(row_pixels(x, y, w) =~= Set::empty());
    } else {
        lemma_row_count(x, y, w - 1);
        assert(row_pixels(x, y, w) =~= row_pixels(x, y, w - 1).insert((x + w - 1, y)));
    }
}

/// A block of `w` columns and `h` rows has `w * h` pixels.
pub proof fn lemma_rect_count(x: int, y: int, w: int, h: int)
    requires
        0 <= w,
        0 <= h,
    ensures
        rect_pixels(x, y, w, h).finite(),
        rect_pixels(x, y, w, h).len() == w * h,
    decreases h,
{
    if h == 0 {
        assert(rect_pixels(x, y, w, h) =~= Set::empty());
        assert(w * 0 == 0);
    } else {
        let above = rect_pixels(x, y, w, h - 1);
        let last = row_pixels(x, y + h - 1, w);
        lemma_rect_count(x, y, w, h - 1);
        lemma_row_count(x, y + h - 1, w);
        assert(rect_pixels(x, y, w, h) =~= above + last);
        assert(above.disjoint(last));
        lemma_set_disjoint_lens(above, last);
        assert(w * (h - 1) + w == w * h) by (nonlinear_arith);
    }
}

} // verus!
