use vstd::prelude::*;
use crate::canvas::Canvas;
use crate::canvas::lemma_offset_in_bounds;

verus! {

/// Anything that can be addressed as a rectangle of 32-bit pixels.
pub trait Bitmap {
    /// What the buffer is: its geometry and the cells of its memory.
    spec fn view(&self) -> Canvas;

    /// Size of one pixel in bytes.
    fn bytes_per_pixel(&self) -> (n: i64)
        ensures
            n == 4,
    ;

    /// Cells per scan line in memory.
    fn pixels_per_line(&self) -> (n: i64)
        ensures
            n == self.view().stride,
    ;

    fn width(&self) -> (n: i64)
        ensures
            n == self.view().width,
    ;

    fn height(&self) -> (n: i64)
        ensures
            n == self.view().height,
    ;

    /// The memory behind the buffer, one element per pixel cell. Writing
    /// through it changes the cells and nothing else.
    fn buf_mut(&mut self) -> (buf: &mut [u32])
        ensures
            buf@ == old(self).view().cells,
            final(self).view() == (Canvas { cells: final(buf)@, ..old(self).view() }),
    ;

    /// The cell of pixel `(x, y)` if the pixel is addressable.
    fn pixel_at_mut(&mut self, x: i64, y: i64) -> (cell: Option<&mut u32>)
        requires
            old(self).view().well_formed(),
        ensures
            old(self).view().in_range(x as int, y as int) ==> cell.is_some() && *cell.unwrap()
                == old(self).view().pixel(x as int, y as int) && final(self).view() == old(
                self,
            ).view().with_pixel(x as int, y as int, *final(cell.unwrap())),
            !old(self).view().in_range(x as int, y as int) ==> cell.is_none() && final(self).view()
                == old(self).view(),
    {
        if self.is_in_x_range(x) && self.is_in_y_range(y) {
            let stride = self.pixels_per_line();
            proof {
                lemma_offset_in_bounds(self.view(), x as int, y as int);
            }
            Some(cell_at(self.buf_mut(), stride, x, y))
        } else {
            None
        }
    }

    /// Whether column `px` is addressable: inside the visible width and
    /// inside the scan line.
    fn is_in_x_range(&self, px: i64) -> (b: bool)
        ensures
            b == self.view().in_x_range(px as int),
    {
        let w = self.width();
        let s = self.pixels_per_line();
        0 <= px && px < (if w <= s {
            w
        } else {
            s
        })
    }

    /// Whether row `py` is addressable.
    fn is_in_y_range(&self, py: i64) -> (b: bool)
        ensures
            b == self.view().in_y_range(py as int),
    {
        0 <= py && py < self.height()
    }
}

/// The cell at row `y`, column `x` of a memory with `stride` cells per row.
fn cell_at(cells: &mut [u32], stride: i64, x: i64, y: i64) -> (cell: &mut u32)
    requires
        0 <= y * stride,
        0 <= x,
        y * stride + x < old(cells)@.len(),
    ensures
        *cell == old(cells)@[y * stride + x],
        final(cells)@ == old(cells)@.update(y * stride + x, *final(cell)),
{
    let len = cells.len();
    let wide: i128 = (y as i128) * (stride as i128) + (x as i128);
    let index: usize = wide as usize;
    &mut cells[index]
}

/// The cell of an addressable pixel, without a test of the coordinates. Only
/// for use right after a whole shape has passed its test.
pub(crate) fn unchecked_pixel_at_mut<T: Bitmap>(buf: &mut T, x: i64, y: i64) -> (cell: &mut u32)
    requires
        old(buf).view().well_formed(),
        old(buf).view().in_range(x as int, y as int),
    ensures
        *cell == old(buf).view().pixel(x as int, y as int),
        final(buf).view() == old(buf).view().with_pixel(x as int, y as int, *final(cell)),
{
    let stride = buf.pixels_per_line();
    proof {
        lemma_offset_in_bounds(buf.view(), x as int, y as int);
    }
    cell_at(buf.buf_mut(), stride, x, y)
}

} // verus!
