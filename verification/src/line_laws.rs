use vstd::prelude::*;
use vstd::arithmetic::div_mod::lemma_fundamental_div_mod;
use vstd::arithmetic::div_mod::lemma_fundamental_div_mod_converse;
use crate::line::direction;
use crate::line::lemma_directed;
use crate::line::lemma_slope_offset_bounds;
use crate::line::line_pixels;
use crate::line::line_point;
use crate::line::line_rise;
use crate::line::line_steps;
use crate::line::magnitude;
use crate::line::slope_offset;

verus! {

/// Step `i` falls exactly half way between two pixels, so that rounding has
/// to pick one of them.
pub open spec fn falls_half_way(da: int, db: int, i: int) -> bool {
    da > 0 && (2 * db * i + da) % (2 * da) == 0
}

/// No step of the line falls half way between two pixels.
pub open spec fn line_without_half_steps(x0: int, y0: int, x1: int, y1: int) -> bool {
    forall|i: int|
        0 <= i <= line_steps(x0, y0, x1, y1) ==> !#[trigger] falls_half_way(
            line_steps(x0, y0, x1, y1),
            line_rise(x0, y0, x1, y1),
            i,
        )
}

/// Where step `i` does not fall half way, the offsets at `i` steps from one
/// end and at `i` steps from the other add up to the whole minor distance.
pub proof fn lemma_slope_offset_mirrored(da: int, db: int, i: int)
    requires
        0 <= db <= da,
        0 <= i <= da,
        !falls_half_way(da, db, i),
    ensures
        slope_offset(da, db, i) + slope_offset(da, db, da - i) == db,
{
    if da > 0 {
        let n = 2 * db * i + da;
        let d = 2 * da;
        let q = n / d;
        let r = n % d;
        lemma_fundamental_div_mod(n, d);
        let m = 2 * db * (da - i) + da;
        assert(m == (db - q) * d + (d - r)) by (nonlinear_arith)
            requires
                n == d * q + r,
                n == 2 * db * i + da,
                d == 2 * da,
                m == 2 * db * (da - i) + da,
        ;
        lemma_fundamental_div_mod_converse(m, d, db - q, d - r);
    }
}

/// Where step `i` does not fall half way, it gives the same pixel as the
/// step equally far from the other end of the line drawn the other way.
pub proof fn lemma_line_point_mirrored(x0: int, y0: int, x1: int, y1: int, i: int)
    requires
        0 <= i <= line_steps(x0, y0, x1, y1),
        !falls_half_way(line_steps(x0, y0, x1, y1), line_rise(x0, y0, x1, y1), i),
    ensures
        line_point(x0, y0, x1, y1, i) == line_point(
            x1,
            y1,
            x0,
            y0,
            line_steps(x0, y0, x1, y1) - i,
        ),
        line_steps(x1, y1, x0, y0) == line_steps(x0, y0, x1, y1),
        line_rise(x1, y1, x0, y0) == line_rise(x0, y0, x1, y1),
{
    let steps = line_steps(x0, y0, x1, y1);
    let rise = line_rise(x0, y0, x1, y1);
    let j = steps - i;
    lemma_slope_offset_mirrored(steps, rise, i);
    lemma_slope_offset_bounds(steps, rise, i);
    lemma_slope_offset_bounds(steps, rise, j);
    let a = slope_offset(steps, rise, i);
    let b = slope_offset(steps, rise, j);
    lemma_directed(i, x1 - x0);
    lemma_directed(i, y1 - y0);
    lemma_directed(a, x1 - x0);
    lemma_directed(a, y1 - y0);
    lemma_directed(j, x0 - x1);
    lemma_directed(j, y0 - y1);
    lemma_directed(b, x0 - x1);
    lemma_directed(b, y0 - y1);
}

/// Drawing a line from either end colours the same pixels, provided no step
/// falls half way between two pixels. (Such a step is rounded towards the
/// far end, so the two directions would then pick different pixels.)
pub proof fn lemma_line_reversed(x0: int, y0: int, x1: int, y1: int)
    requires
        line_without_half_steps(x0, y0, x1, y1),
    ensures
        line_pixels(x0, y0, x1, y1) == line_pixels(x1, y1, x0, y0),
{
    let steps = line_steps(x0, y0, x1, y1);
    let rise = line_rise(x0, y0, x1, y1);
    let forth = line_pixels(x0, y0, x1, y1);
    let back = line_pixels(x1, y1, x0, y0);
    lemma_slope_offset_bounds(steps, rise, 0);
    assert(!falls_half_way(steps, rise, 0));
    lemma_line_point_mirrored(x0, y0, x1, y1, 0);
    assert forall|p: (int, int)| forth.contains(p) <==> back.contains(p) by {
        if forth.contains(p) {
            let i = choose|i: int|
                0 <= i < steps + 1 && p == #[trigger] line_point(x0, y0, x1, y1, i);
            assert(!falls_half_way(steps, rise, i));
            lemma_line_point_mirrored(x0, y0, x1, y1, i);
            assert(p == line_point(x1, y1, x0, y0, steps - i));
        }
        if back.contains(p) {
            let j = choose|j: int|
                0 <= j < steps + 1 && p == #[trigger] line_point(x1, y1, x0, y0, j);
            assert(!falls_half_way(steps, rise, steps - j));
            lemma_line_point_mirrored(x0, y0, x1, y1, steps - j);
            assert(p == line_point(x0, y0, x1, y1, steps - j));
        }
    }
    assert(forth =~= back);
}

/// Where a step falls half way, the offsets at that step from one end and
/// from the other add up to one more than the minor distance: both
/// directions round the step away from their start.
pub proof fn lemma_slope_offset_half_way(da: int, db: int, i: int)
    requires
        0 <= db <= da,
        0 <= i <= da,
        falls_half_way(da, db, i),
    ensures
        slope_offset(da, db, i) + slope_offset(da, db, da - i) == db + 1,
        db > 0,
{
    let n = 2 * db * i + da;
    let d = 2 * da;
    let q = n / d;
    lemma_fundamental_div_mod(n, d);
    let m = 2 * db * (da - i) + da;
    assert(m == (db + 1 - q) * d + 0) by (nonlinear_arith)
        requires
            n == d * q + 0,
            n == 2 * db * i + da,
            d == 2 * da,
            m == 2 * db * (da - i) + da,
    ;
    lemma_fundamental_div_mod_converse(m, d, db + 1 - q, 0);
    if db == 0 {
        assert(n == da) by (nonlinear_arith)
            requires
                n == 2 * db * i + da,
                db == 0,
        ;
        lemma_fundamental_div_mod_converse(n, d, 0, da);
    }
}

/// A line with a step that falls half way does not colour the same pixels
/// from both ends: the pixel of that step is missing from the line drawn the
/// other way.
pub proof fn lemma_line_reversed_differs(x0: int, y0: int, x1: int, y1: int, i: int)
    requires
        0 <= i <= line_steps(x0, y0, x1, y1),
        falls_half_way(line_steps(x0, y0, x1, y1), line_rise(x0, y0, x1, y1), i),
    ensures
        line_pixels(x0, y0, x1, y1).contains(line_point(x0, y0, x1, y1, i)),
        !line_pixels(x1, y1, x0, y0).contains(line_point(x0, y0, x1, y1, i)),
        line_pixels(x0, y0, x1, y1) != line_pixels(x1, y1, x0, y0),
{
    let steps = line_steps(x0, y0, x1, y1);
    let rise = line_rise(x0, y0, x1, y1);
    let p = line_point(x0, y0, x1, y1, i);
    let back = line_pixels(x1, y1, x0, y0);
    lemma_slope_offset_half_way(steps, rise, i);
    let a = slope_offset(steps, rise, i);
    lemma_directed(i, x1 - x0);
    lemma_directed(i, y1 - y0);
    lemma_directed(a, x1 - x0);
    lemma_directed(a, y1 - y0);
    if back.contains(p) {
        let j = choose|j: int| 0 <= j < steps + 1 && p == #[trigger] line_point(x1, y1, x0, y0, j);
        let b = slope_offset(steps, rise, j);
        lemma_directed(j, x0 - x1);
        lemma_directed(j, y0 - y1);
        lemma_directed(b, x0 - x1);
        lemma_directed(b, y0 - y1);
        assert(j == steps - i);
        assert(false);
    }
}

/// A line whose two ends are one pixel is that pixel.
pub proof fn lemma_line_single(x: int, y: int)
    ensures
        line_pixels(x, y, x, y) == set![(x, y)],
{
    let line = line_pixels(x, y, x, y);
    assert(line_point(x, y, x, y, 0) == (x, y));
    assert forall|p: (int, int)| line.contains(p) <==> p == (x, y) by {
        if line.contains(p) {
            let i = choose|i: int| 0 <= i < 1 && p == #[trigger] line_point(x, y, x, y, i);
            assert(i == 0);
        }
    }
    assert(line =~= set![(x, y)]);
}

/// A horizontal line is the unbroken run of pixels between its ends, both
/// included, in its row.
pub proof fn lemma_line_horizontal(x0: int, x1: int, y: int)
    ensures
        line_pixels(x0, y, x1, y) == Set::new(
            |p: (int, int)| p.1 == y && (x0 <= p.0 <= x1 || x1 <= p.0 <= x0),
        ),
{
    let line = line_pixels(x0, y, x1, y);
    let run = Set::new(|p: (int, int)| p.1 == y && (x0 <= p.0 <= x1 || x1 <= p.0 <= x0));
    let dx = magnitude(x1 - x0);
    assert forall|i: int| 0 <= i <= dx implies #[trigger] line_point(x0, y, x1, y, i) == (
        x0 + i * direction(x1 - x0),
        y,
    ) by {
        lemma_slope_offset_bounds(dx, 0, i);
        assert(slope_offset(dx, 0, i) * 0 == 0);
    }
    assert forall|p: (int, int)| line.contains(p) <==> run.contains(p) by {
        if line.contains(p) {
            let i = choose|i: int| 0 <= i < dx + 1 && p == #[trigger] line_point(x0, y, x1, y, i);
            lemma_directed(i, x1 - x0);
        }
        if run.contains(p) {
            let i = magnitude(p.0 - x0);
            lemma_directed(i, x1 - x0);
            assert(0 <= i < dx + 1);
            assert(p == line_point(x0, y, x1, y, i));
        }
    }
    assert(line =~= run);
}

/// A vertical line is the unbroken run of pixels between its ends, both
/// included, in its column.
pub proof fn lemma_line_vertical(x: int, y0: int, y1: int)
    ensures
        line_pixels(x, y0, x, y1) == Set::new(
            |p: (int, int)| p.0 == x && (y0 <= p.1 <= y1 || y1 <= p.1 <= y0),
        ),
{
    let line = line_pixels(x, y0, x, y1);
    let run = Set::new(|p: (int, int)| p.0 == x && (y0 <= p.1 <= y1 || y1 <= p.1 <= y0));
    let dy = magnitude(y1 - y0);
    assert forall|i: int| 0 <= i <= dy implies #[trigger] line_point(x, y0, x, y1, i) == (
        x,
        y0 + i * direction(y1 - y0),
    ) by {
        if dy > 0 {
            lemma_slope_offset_bounds(dy, 0, i);
            assert(slope_offset(dy, 0, i) * 0 == 0);
        } else {
            assert(i * 0 == 0);
        }
    }
    assert forall|p: (int, int)| line.contains(p) <==> run.contains(p) by {
        if line.contains(p) {
            let i = choose|i: int| 0 <= i < dy + 1 && p == #[trigger] line_point(x, y0, x, y1, i);
            lemma_directed(i, y1 - y0);
        }
        if run.contains(p) {
            let i = magnitude(p.1 - y0);
            lemma_directed(i, y1 - y0);
            assert(0 <= i < dy + 1);
            assert(p == line_point(x, y0, x, y1, i));
        }
    }
    assert(line =~= run);
}

} // verus!
