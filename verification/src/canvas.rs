use vstd::prelude::*;
use vstd::arithmetic::div_mod::lemma_fundamental_div_mod_converse;
use vstd::arithmetic::div_mod::lemma_fundamental_div_mod;

verus! {

/// The mathematical model of a pixel buffer: its geometry and the 32-bit
/// cells of the memory behind it, row after row, `stride` cells per row.
pub struct Canvas {
    pub width: int,
    pub height: int,
    pub stride: int,
    pub cells: Seq<u32>,
}

impl Canvas {
    /// Columns that may be addressed: the row is `stride` cells long in
    /// memory, but only `width` of them are shown.
    pub open spec fn visible_width(self) -> int {
        if self.width <= self.stride {
            self.width
        } else {
            self.stride
        }
    }

    pub open spec fn in_x_range(self, x: int) -> bool {
        0 <= x < self.visible_width()
    }

    pub open spec fn in_y_range(self, y: int) -> bool {
        0 <= y < self.height
    }

    pub open spec fn in_range(self, x: int, y: int) -> bool {
        self.in_x_range(x) && self.in_y_range(y)
    }

    /// Index of the cell of pixel `(x, y)`.
    pub open spec fn offset(self, x: int, y: int) -> int {
        y * self.stride + x
    }

    /// Every addressable pixel has its cell inside the memory.
    pub open spec fn well_formed(self) -> bool {
        self.visible_width() > 0 && self.height > 0 ==> (self.height - 1) * self.stride
            + self.visible_width() <= self.cells.len()
    }

    /// Colour of pixel `(x, y)`.
    pub open spec fn pixel(self, x: int, y: int) -> u32 {
        self.cells[self.offset(x, y)]
    }

    /// Same geometry and the same amount of memory.
    pub open spec fn same_frame(self, other: Canvas) -> bool {
        &&& self.width == other.width
        &&& self.height == other.height
        &&& self.stride == other.stride
        &&& self.cells.len() == other.cells.len()
    }

    /// The canvas after pixel `(x, y)` was set to `color`.
    pub open spec fn with_pixel(self, x: int, y: int, color: u32) -> Canvas {
        Canvas { cells: self.cells.update(self.offset(x, y), color), ..self }
    }

    /// Whether cell `k` holds a pixel of `shape`.
    pub open spec fn covers(self, shape: Set<(int, int)>, k: int) -> bool {
        self.stride > 0 && shape.contains((k % self.stride, k / self.stride))
    }

    /// The canvas after every pixel of `shape` was set to `color`: the cells
    /// of those pixels hold `color`, every other cell is as before.
    pub open spec fn painted(self, shape: Set<(int, int)>, color: u32) -> Canvas {
        Canvas {
            cells: Seq::new(
                self.cells.len(),
                |k: int|
                    if self.covers(shape, k) {
                        color
                    } else {
                        self.cells[k]
                    },
            ),
            ..self
        }
    }
}

/// The cell of an addressable pixel lies inside the memory.
pub proof fn lemma_offset_in_bounds(c: Canvas, x: int, y: int)
    requires
        c.well_formed(),
        c.in_range(x, y),
    ensures
        0 <= c.offset(x, y) < c.cells.len(),
        0 <= y * c.stride,
        0 <= x < c.stride,
{
    assert(0 <= y * c.stride && y * c.stride <= (c.height - 1) * c.stride) by (nonlinear_arith)
        requires
            0 <= y <= c.height - 1,
            0 < c.stride,
    ;
}

/// A cell index determines its pixel: column and row are remainder and
/// quotient by the stride.
pub proof fn lemma_offset_unique(c: Canvas, x: int, y: int)
    requires
        0 <= x < c.stride,
    ensures
        c.offset(x, y) % c.stride == x,
        c.offset(x, y) / c.stride == y,
{
    lemma_fundamental_div_mod_converse(c.offset(x, y), c.stride, y, x);
}

/// Painting nothing changes nothing.
pub proof fn lemma_painted_empty(c: Canvas, color: u32)
    ensures
        c.painted(Set::empty(), color) == c,
{
    assert(c.painted(Set::empty(), color).cells =~= c.cells);
}

/// Setting one more pixel after painting a shape paints the shape with that
/// pixel added.
pub proof fn lemma_painted_insert(c: Canvas, shape: Set<(int, int)>, x: int, y: int, color: u32)
    requires
        0 <= x < c.stride,
        0 <= c.offset(x, y) < c.cells.len(),
    ensures
        c.painted(shape, color).with_pixel(x, y, color) == c.painted(shape.insert((x, y)), color),
{
    let a = c.painted(shape, color).with_pixel(x, y, color);
    let b = c.painted(shape.insert((x, y)), color);
    lemma_offset_unique(c, x, y);
    assert forall|k: int| 0 <= k < c.cells.len() implies a.cells[k] == b.cells[k] by {
        if k != c.offset(x, y) {
            lemma_fundamental_div_mod(k, c.stride);
            assert((k % c.stride, k / c.stride) != (x, y)) by (nonlinear_arith)
                requires
                    k == c.stride * (k / c.stride) + k % c.stride,
                    k != y * c.stride + x,
            ;
        }
    }
    assert(a.cells =~= b.cells);
}

/// Painting a shape leaves alone every cell that is not the cell of one of
/// its pixels.
pub proof fn lemma_painted_elsewhere(c: Canvas, shape: Set<(int, int)>, color: u32, k: int)
    requires
        0 <= k < c.cells.len(),
        forall|x: int, y: int| shape.contains((x, y)) ==> c.offset(x, y) != k,
    ensures
        c.painted(shape, color).cells[k] == c.cells[k],
{
    if c.covers(shape, k) {
        lemma_fundamental_div_mod(k, c.stride);
        assert(shape.contains((k % c.stride, k / c.stride)));
        assert(c.offset(k % c.stride, k / c.stride) == k) by (nonlinear_arith)
            requires
                k == c.stride * (k / c.stride) + k % c.stride,
                c.offset(k % c.stride, k / c.stride) == (k / c.stride) * c.stride + k % c.stride,
        ;
    }
}

/// Reading back after painting: an addressable pixel holds `color` if it
/// belongs to the shape and its former colour if not.
pub proof fn lemma_painted_pixel(c: Canvas, shape: Set<(int, int)>, color: u32, x: int, y: int)
    requires
        c.well_formed(),
        c.in_range(x, y),
    ensures
        c.painted(shape, color).pixel(x, y) == if shape.contains((x, y)) {
            color
        } else {
            c.pixel(x, y)
        },
{
    lemma_offset_in_bounds(c, x, y);
    lemma_offset_unique(c, x, y);
}

/// Reading back after setting one pixel: that pixel holds `color`, every
/// other addressable pixel its former colour.
pub proof fn lemma_with_pixel_pixel(c: Canvas, px: int, py: int, color: u32, x: int, y: int)
    requires
        c.well_formed(),
        c.in_range(px, py),
        c.in_range(x, y),
    ensures
        c.with_pixel(px, py, color).pixel(x, y) == if (x, y) == (px, py) {
            color
        } else {
            c.pixel(x, y)
        },
{
    lemma_offset_in_bounds(c, x, y);
    lemma_offset_in_bounds(c, px, py);
    lemma_offset_unique(c, x, y);
    lemma_offset_unique(c, px, py);
}

} // verus!
