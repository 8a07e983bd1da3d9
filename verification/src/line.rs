use vstd::prelude::*;
use vstd::arithmetic::div_mod::lemma_fundamental_div_mod;
use vstd::arithmetic::div_mod::lemma_fundamental_div_mod_converse;
use crate::bitmap::Bitmap;
use crate::canvas::Canvas;
use crate::canvas::lemma_offset_in_bounds;
use crate::canvas::lemma_painted_empty;
use crate::canvas::lemma_painted_insert;
use crate::error::GraphicsError;
use crate::raster::draw_point;

verus! {

pub open spec fn magnitude(v: int) -> int {
    if v < 0 {
        -v
    } else {
        v
    }
}

pub open spec fn direction(v: int) -> int {
    if v < 0 {
        -1
    } else if v == 0 {
        0
    } else {
        1
    }
}

/// How far the line has moved along its minor axis after `ia` of `da` steps
/// along the major axis, where the whole line moves `db`: `db * ia / da`
/// rounded to the nearest integer, a half rounded up.
pub open spec fn slope_offset(da: int, db: int, ia: int) -> int {
    if da == 0 {
        0
    } else {
        (2 * db * ia + da) / (2 * da)
    }
}

/// The minor-axis offset at step `ia`, where there is one: none if the
/// first axis is not the longer one, or if the step is not on the line.
pub open spec fn slope_point(da: int, db: int, ia: int) -> Option<int> {
    if da < db {
        None
    } else if da == 0 || 0 <= ia <= da {
        Some(slope_offset(da, db, ia))
    } else {
        None
    }
}

/// Number of steps along the major axis: the larger of the two distances.
pub open spec fn line_steps(x0: int, y0: int, x1: int, y1: int) -> int {
    if magnitude(x1 - x0) >= magnitude(y1 - y0) {
        magnitude(x1 - x0)
    } else {
        magnitude(y1 - y0)
    }
}

/// Distance along the minor axis.
pub open spec fn line_rise(x0: int, y0: int, x1: int, y1: int) -> int {
    if magnitude(x1 - x0) >= magnitude(y1 - y0) {
        magnitude(y1 - y0)
    } else {
        magnitude(x1 - x0)
    }
}

/// The pixel of step `i` of the line from `(x0, y0)` to `(x1, y1)`. The
/// major axis is x unless the line is taller than wide.
pub open spec fn line_point(x0: int, y0: int, x1: int, y1: int, i: int) -> (int, int) {
    let dx = magnitude(x1 - x0);
    let dy = magnitude(y1 - y0);
    let sx = direction(x1 - x0);
    let sy = direction(y1 - y0);
    if dx >= dy {
        (x0 + i * sx, y0 + slope_offset(dx, dy, i) * sy)
    } else {
        (x0 + slope_offset(dy, dx, i) * sx, y0 + i * sy)
    }
}

/// The pixels of the first `n` steps of the line.
pub open spec fn line_prefix(x0: int, y0: int, x1: int, y1: int, n: int) -> Set<(int, int)> {
    Set::new(
        |p: (int, int)| exists|i: int| 0 <= i < n && p == #[trigger] line_point(x0, y0, x1, y1, i),
    )
}

/// The pixels of the line from `(x0, y0)` to `(x1, y1)`, both ends included.
pub open spec fn line_pixels(x0: int, y0: int, x1: int, y1: int) -> Set<(int, int)> {
    line_prefix(x0, y0, x1, y1, line_steps(x0, y0, x1, y1) + 1)
}

/// Floor of a quotient with a positive divisor lies where the bounds on the
/// dividend put it.
proof fn lemma_floor_between(n: int, d: int, lo: int, hi: int)
    requires
        d > 0,
        lo * d <= n < (hi + 1) * d,
    ensures
        lo <= n / d <= hi,
{
    lemma_fundamental_div_mod(n, d);
    let q = n / d;
    let r = n % d;
    assert(lo <= q <= hi) by (nonlinear_arith)
        requires
            d > 0,
            lo * d <= n < (hi + 1) * d,
            n == d * q + r,
            0 <= r < d,
    ;
}

/// On a line the minor-axis offset stays between nought and the minor
/// distance.
pub proof fn lemma_slope_offset_bounds(da: int, db: int, ia: int)
    requires
        0 <= db <= da,
        0 <= ia <= da,
    ensures
        0 <= slope_offset(da, db, ia) <= db,
{
    if da > 0 {
        assert(0 <= 2 * db * ia + da < (db + 1) * (2 * da)) by (nonlinear_arith)
            requires
                0 <= db <= da,
                0 <= ia <= da,
                da > 0,
        ;
        lemma_floor_between(2 * db * ia + da, 2 * da, 0, db);
    }
}

/// The minor-axis offset for step `ia` of `da` on a line that moves `db`
/// along its minor axis; see `slope_point`. The quotient is rounded down
/// also where `db` is negative.
pub fn calc_slope_point(da: i64, db: i64, ia: i64) -> (r: Option<i64>)
    ensures
        slope_point(da as int, db as int, ia as int) == match r {
            Some(v) => Some(v as int),
            None => None,
        },
{
    if da < db {
        None
    } else if da == 0 {
        Some(0)
    } else if 0 <= ia && ia <= da {
        assert(-0x8000_0000_0000_0000 * 0x7fff_ffff_ffff_ffff <= db * ia
            <= 0x7fff_ffff_ffff_ffff * 0x7fff_ffff_ffff_ffff) by (nonlinear_arith)
            requires
                -0x8000_0000_0000_0000 <= db <= 0x7fff_ffff_ffff_ffff,
                0 <= ia <= 0x7fff_ffff_ffff_ffff,
        ;
        let product: i128 = (db as i128) * (ia as i128);
        let n: i128 = 2 * product + (da as i128);
        let d: i128 = 2 * (da as i128);
        assert(n == 2 * db * ia + da) by (nonlinear_arith)
            requires
                n == 2 * (db * ia) + da,
        ;
        if n >= 0 {
            let q: i128 = n / d;
            proof {
                if db >= 0 {
                    lemma_slope_offset_bounds(da as int, db as int, ia as int);
                } else {
                    assert(n < 1 * d) by (nonlinear_arith)
                        requires
                            n == 2 * db * ia + da,
                            db < 0,
                            ia >= 0,
                            d == 2 * da,
                            da > 0,
                    ;
                    lemma_floor_between(n as int, d as int, 0, 0);
                }
            }
            Some(q as i64)
        } else {
            let m: i128 = -n;
            let up: i128 = (m + d - 1) / d;
            proof {
                let qq = (m + d - 1) / (d as int);
                let rr = (m + d - 1) % (d as int);
                lemma_fundamental_div_mod(m + d - 1, d as int);
                assert(n == (-qq) * d + (d - 1 - rr)) by (nonlinear_arith)
                    requires
                        m + d - 1 == d * qq + rr,
                        n == -m,
                ;
                lemma_fundamental_div_mod_converse(n as int, d as int, -qq, d - 1 - rr);
                assert(db * d <= n) by (nonlinear_arith)
                    requires
                        n == 2 * db * ia + da,
                        db < 0,
                        0 <= ia <= da,
                        d == 2 * da,
                        da > 0,
                ;
                lemma_floor_between(n as int, d as int, db as int, -1);
            }
            Some((-up) as i64)
        }
    } else {
        None
    }
}

/// Both ends of the line are addressable.
pub open spec fn line_in_range(c: Canvas, x0: int, y0: int, x1: int, y1: int) -> bool {
    c.in_range(x0, y0) && c.in_range(x1, y1)
}

/// A step count times a direction is the count, its negative, or nought.
pub proof fn lemma_directed(i: int, v: int)
    ensures
        i * direction(v) == if v < 0 {
            -i
        } else if v == 0 {
            0
        } else {
            i
        },
{
    if v < 0 {
        assert(i * (-1) == -i);
    } else if v == 0 {
        assert(i * 0 == 0);
    } else {
        assert(i * 1 == i);
    }
}

/// Every pixel of a line lies in the box that its two ends span.
pub proof fn lemma_line_point_in_box(x0: int, y0: int, x1: int, y1: int, i: int)
    requires
        0 <= i <= line_steps(x0, y0, x1, y1),
    ensures
        x0 <= line_point(x0, y0, x1, y1, i).0 <= x1 || x1 <= line_point(x0, y0, x1, y1, i).0 <= x0,
        y0 <= line_point(x0, y0, x1, y1, i).1 <= y1 || y1 <= line_point(x0, y0, x1, y1, i).1 <= y0,
{
    let dx = magnitude(x1 - x0);
    let dy = magnitude(y1 - y0);
    if dx >= dy {
        lemma_slope_offset_bounds(dx, dy, i);
        lemma_directed(i, x1 - x0);
        lemma_directed(slope_offset(dx, dy, i), y1 - y0);
    } else {
        lemma_slope_offset_bounds(dy, dx, i);
        lemma_directed(i, y1 - y0);
        lemma_directed(slope_offset(dy, dx, i), x1 - x0);
    }
}

/// One more step adds that step's pixel.
pub proof fn lemma_line_prefix_step(x0: int, y0: int, x1: int, y1: int, n: int)
    requires
        0 <= n,
    ensures
        line_prefix(x0, y0, x1, y1, n + 1) == line_prefix(x0, y0, x1, y1, n).insert(
            line_point(x0, y0, x1, y1, n),
        ),
        line_prefix(x0, y0, x1, y1, 0) == Set::<(int, int)>::empty(),
{
    let next = line_prefix(x0, y0, x1, y1, n + 1);
    let with = line_prefix(x0, y0, x1, y1, n).insert(line_point(x0, y0, x1, y1, n));
    assert forall|p: (int, int)| next.contains(p) <==> with.contains(p) by {
        if next.contains(p) {
            let i = choose|i: int| 0 <= i < n + 1 && p == #[trigger] line_point(x0, y0, x1, y1, i);
            if i < n {
                assert(line_prefix(x0, y0, x1, y1, n).contains(p));
            }
        }
        if with.contains(p) {
            if p == line_point(x0, y0, x1, y1, n) {
                assert(0 <= n < n + 1);
            } else {
                let i = choose|i: int| 0 <= i < n && p == #[trigger] line_point(x0, y0, x1, y1, i);
                assert(0 <= i < n + 1);
            }
        }
    }
    assert(next =~= with);
    assert(line_prefix(x0, y0, x1, y1, 0) =~= Set::<(int, int)>::empty());
}

/// Draws the line from `(x0, y0)` to `(x1, y1)` in `color`, both ends
/// included, or nothing if an end is not addressable.
pub fn draw_line<T: Bitmap>(buf: &mut T, color: u32, x0: i64, y0: i64, x1: i64, y1: i64) -> (r:
    Result<(), GraphicsError>)
    requires
        old(buf).view().well_formed(),
    ensures
        line_in_range(old(buf).view(), x0 as int, y0 as int, x1 as int, y1 as int) ==> r.is_ok()
            && final(buf).view() == old(buf).view().painted(
            line_pixels(x0 as int, y0 as int, x1 as int, y1 as int),
            color,
        ),
        !line_in_range(old(buf).view(), x0 as int, y0 as int, x1 as int, y1 as int) ==> r == Err::<
            (),
            GraphicsError,
        >(GraphicsError::OutOfRange) && final(buf).view() == old(buf).view(),
        final(buf).view().well_formed(),
        final(buf).view().same_frame(old(buf).view()),
{
    if !buf.is_in_x_range(x0) || !buf.is_in_x_range(x1) || !buf.is_in_y_range(y0)
        || !buf.is_in_y_range(y1) {
        return Err(GraphicsError::OutOfRange);
    }
    let stride = buf.pixels_per_line();
    let height = buf.height();
    let dx: i64 = if x1 >= x0 {
        x1 - x0
    } else {
        x0 - x1
    };
    let sx: i64 = if x1 > x0 {
        1
    } else if x1 < x0 {
        -1
    } else {
        0
    };
    let dy: i64 = if y1 >= y0 {
        y1 - y0
    } else {
        y0 - y1
    };
    let sy: i64 = if y1 > y0 {
        1
    } else if y1 < y0 {
        -1
    } else {
        0
    };
    let x_major = dx >= dy;
    let steps: i64 = if x_major {
        dx
    } else {
        dy
    };
    let rise: i64 = if x_major {
        dy
    } else {
        dx
    };
    let ghost start = buf.view();
    proof {
        lemma_painted_empty(start, color);
        lemma_line_prefix_step(x0 as int, y0 as int, x1 as int, y1 as int, 0);
    }
    let mut i: i64 = 0;
    while i <= steps
        invariant
            start.well_formed(),
            line_in_range(start, x0 as int, y0 as int, x1 as int, y1 as int),
            start.stride == stride,
            start.height == height,
            dx == magnitude(x1 - x0),
            dy == magnitude(y1 - y0),
            sx == direction(x1 - x0),
            sy == direction(y1 - y0),
            x_major == (dx >= dy),
            steps == line_steps(x0 as int, y0 as int, x1 as int, y1 as int),
            rise == line_rise(x0 as int, y0 as int, x1 as int, y1 as int),
            0 <= i <= steps + 1,
            buf.view() == start.painted(
                line_prefix(x0 as int, y0 as int, x1 as int, y1 as int, i as int),
                color,
            ),
        decreases steps + 1 - i,
    {
        if let Some(offset) = calc_slope_point(steps, rise, i) {
            let rx: i64 = if x_major {
                i
            } else {
                offset
            };
            let ry: i64 = if x_major {
                offset
            } else {
                i
            };
            proof {
                lemma_slope_offset_bounds(steps as int, rise as int, i as int);
                lemma_directed(rx as int, x1 - x0);
                lemma_directed(ry as int, y1 - y0);
                lemma_line_point_in_box(x0 as int, y0 as int, x1 as int, y1 as int, i as int);
            }
            let x: i64 = x0 + rx * sx;
            let y: i64 = y0 + ry * sy;
            proof {
                assert((x as int, y as int) == line_point(
                    x0 as int,
                    y0 as int,
                    x1 as int,
                    y1 as int,
                    i as int,
                ));
                lemma_offset_in_bounds(start, x as int, y as int);
                lemma_painted_insert(
                    start,
                    line_prefix(x0 as int, y0 as int, x1 as int, y1 as int, i as int),
                    x as int,
                    y as int,
                    color,
                );
                lemma_line_prefix_step(x0 as int, y0 as int, x1 as int, y1 as int, i as int);
            }
            match draw_point(buf, color, x, y) {
                Ok(()) => {},
                Err(e) => {
                    return Err(e);
                },
            }
        }
        i = i + 1;
    }
    Ok(())
}

} // verus!
