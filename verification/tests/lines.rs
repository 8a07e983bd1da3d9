use framebuffer_draw::error::GraphicsError;
use framebuffer_draw::line::{calc_slope_point, draw_line};
use framebuffer_draw::vram::{init_vram, DisplayDescriptor};

fn square(side: u32) -> DisplayDescriptor {
    DisplayDescriptor {
        horizontal_resolution: side,
        vertical_resolution: side,
        pixels_per_scan_line: side,
        frame_buffer_base: 0,
        frame_buffer_size: (side as usize) * (side as usize) * 4,
    }
}

/// Draws one line on a blank square and returns the pixels it coloured,
/// row by row.
fn drawn(side: u32, x0: i64, y0: i64, x1: i64, y1: i64) -> Vec<(i64, i64)> {
    let mut region = vec![0u32; (side * side) as usize];
    let mut vram = init_vram(&square(side), &mut region).unwrap();
    assert_eq!(draw_line(&mut vram, 0xffff00, x0, y0, x1, y1), Ok(()));
    let mut points = Vec::new();
    for y in 0..side as i64 {
        for x in 0..side as i64 {
            let cell = region[(y * side as i64 + x) as usize];
            assert!(cell == 0 || cell == 0xffff00);
            if cell != 0 {
                points.push((x, y));
            }
        }
    }
    points
}

#[test]
fn calc_slope_point_rounds_to_nearest() {
    assert_eq!(calc_slope_point(4, 2, 0), Some(0));
    assert_eq!(calc_slope_point(4, 2, 1), Some(1));
    assert_eq!(calc_slope_point(4, 2, 2), Some(1));
    assert_eq!(calc_slope_point(4, 2, 3), Some(2));
    assert_eq!(calc_slope_point(4, 2, 4), Some(2));
    assert_eq!(calc_slope_point(10, 3, 1), Some(0));
    assert_eq!(calc_slope_point(10, 3, 2), Some(1));
    assert_eq!(calc_slope_point(10, 3, 5), Some(2));
    assert_eq!(calc_slope_point(10, 3, 9), Some(3));
    assert_eq!(calc_slope_point(7, 7, 5), Some(5));
    assert_eq!(calc_slope_point(7, 0, 5), Some(0));
}

#[test]
fn calc_slope_point_has_no_point_off_the_line() {
    assert_eq!(calc_slope_point(2, 3, 1), None);
    assert_eq!(calc_slope_point(-1, 0, 0), None);
    assert_eq!(calc_slope_point(4, 2, 5), None);
    assert_eq!(calc_slope_point(4, 2, -1), None);
    assert_eq!(calc_slope_point(-5, -3, 0), None);
}

#[test]
fn calc_slope_point_of_a_single_point_is_zero() {
    assert_eq!(calc_slope_point(0, 0, 0), Some(0));
    assert_eq!(calc_slope_point(0, 0, 9), Some(0));
    assert_eq!(calc_slope_point(0, -4, -9), Some(0));
}

#[test]
fn calc_slope_point_rounds_down_below_zero() {
    // floor(0 / 8), floor(-4 / 8), floor(-8 / 8), floor(-12 / 8)
    assert_eq!(calc_slope_point(4, -2, 1), Some(0));
    assert_eq!(calc_slope_point(4, -2, 2), Some(-1));
    assert_eq!(calc_slope_point(4, -2, 3), Some(-1));
    assert_eq!(calc_slope_point(4, -2, 4), Some(-2));
    assert_eq!(calc_slope_point(4, -3, 1), Some(-1));
}

#[test]
fn calc_slope_point_at_the_limits() {
    assert_eq!(calc_slope_point(i64::MAX, i64::MAX, i64::MAX), Some(i64::MAX));
    assert_eq!(calc_slope_point(i64::MAX, i64::MAX, 12345), Some(12345));
    assert_eq!(calc_slope_point(i64::MAX, i64::MIN, i64::MAX), Some(i64::MIN));
    assert_eq!(calc_slope_point(i64::MAX, 0, i64::MAX), Some(0));
    assert_eq!(calc_slope_point(i64::MIN, i64::MIN, 0), None);
}

#[test]
fn draw_line_regression_fixture() {
    // offsets floor((4 * i + 4) / 8) for i = 0..=4: 0, 1, 1, 2, 2
    assert_eq!(drawn(5, 0, 0, 4, 2), vec![(0, 0), (1, 1), (2, 1), (3, 2), (4, 2)]);
}

#[test]
fn draw_line_on_a_wider_buffer_with_padding() {
    let mut region = vec![0u32; 8 * 3];
    let d = DisplayDescriptor {
        horizontal_resolution: 5,
        vertical_resolution: 3,
        pixels_per_scan_line: 8,
        frame_buffer_base: 0,
        frame_buffer_size: 96,
    };
    let mut vram = init_vram(&d, &mut region).unwrap();
    assert_eq!(draw_line(&mut vram, 6, 0, 0, 4, 2), Ok(()));
    assert_eq!(draw_line(&mut vram, 6, 0, 0, 5, 2), Err(GraphicsError::OutOfRange));
    let mut expected = vec![0u32; 24];
    for (x, y) in [(0usize, 0usize), (1, 1), (2, 1), (3, 2), (4, 2)] {
        expected[y * 8 + x] = 6;
    }
    assert_eq!(region, expected);
}

#[test]
fn draw_line_of_one_point_draws_that_point() {
    assert_eq!(drawn(5, 3, 2, 3, 2), vec![(3, 2)]);
    assert_eq!(drawn(5, 0, 0, 0, 0), vec![(0, 0)]);
    assert_eq!(drawn(5, 4, 4, 4, 4), vec![(4, 4)]);
}

#[test]
fn draw_line_horizontal_is_a_run() {
    let run: Vec<(i64, i64)> = (1..=6).map(|x| (x, 3)).collect();
    assert_eq!(drawn(8, 1, 3, 6, 3), run);
    assert_eq!(drawn(8, 6, 3, 1, 3), run);
}

#[test]
fn draw_line_vertical_is_a_run() {
    let run: Vec<(i64, i64)> = (2..=7).map(|y| (5, y)).collect();
    assert_eq!(drawn(8, 5, 2, 5, 7), run);
    assert_eq!(drawn(8, 5, 7, 5, 2), run);
}

#[test]
fn draw_line_diagonal_and_steep() {
    assert_eq!(drawn(4, 0, 0, 3, 3), vec![(0, 0), (1, 1), (2, 2), (3, 3)]);
    assert_eq!(drawn(4, 3, 0, 0, 3), vec![(3, 0), (2, 1), (1, 2), (0, 3)]);
    // taller than wide: y is the major axis
    assert_eq!(drawn(7, 0, 0, 1, 6), vec![(0, 0), (0, 1), (0, 2), (1, 3), (1, 4), (1, 5), (1, 6)]);
}

#[test]
fn draw_line_is_the_same_from_either_end_without_half_steps() {
    for (x0, y0, x1, y1) in [
        (0, 0, 9, 3),
        (0, 0, 3, 9),
        (1, 8, 8, 2),
        (9, 9, 0, 0),
        (2, 3, 7, 3),
        (4, 1, 4, 9),
        (0, 9, 5, 7),
        (6, 6, 6, 6),
    ] {
        assert_eq!(drawn(10, x0, y0, x1, y1), drawn(10, x1, y1, x0, y0));
    }
}

#[test]
fn draw_line_rounds_a_half_step_away_from_its_start() {
    assert_eq!(drawn(3, 0, 0, 2, 1), vec![(0, 0), (1, 1), (2, 1)]);
    assert_eq!(drawn(3, 2, 1, 0, 0), vec![(0, 0), (1, 0), (2, 1)]);
}

#[test]
fn draw_line_with_an_end_out_of_range_draws_nothing() {
    let mut region = vec![4u32; 25];
    let mut vram = init_vram(&square(5), &mut region).unwrap();
    assert_eq!(draw_line(&mut vram, 1, 0, 0, 5, 0), Err(GraphicsError::OutOfRange));
    assert_eq!(draw_line(&mut vram, 1, 0, 0, 0, 5), Err(GraphicsError::OutOfRange));
    assert_eq!(draw_line(&mut vram, 1, -1, 0, 4, 4), Err(GraphicsError::OutOfRange));
    assert_eq!(draw_line(&mut vram, 1, 0, -1, 4, 4), Err(GraphicsError::OutOfRange));
    assert_eq!(draw_line(&mut vram, 1, i64::MIN, 0, i64::MAX, 0), Err(GraphicsError::OutOfRange));
    assert!(region.iter().all(|&c| c == 4));
}

#[test]
fn draw_line_leaves_other_pixels_as_they_were() {
    let mut region: Vec<u32> = (1000..1025).collect();
    let mut vram = init_vram(&square(5), &mut region).unwrap();
    assert_eq!(draw_line(&mut vram, 1, 4, 0, 0, 4), Ok(()));
    for y in 0..5usize {
        for x in 0..5usize {
            let k = y * 5 + x;
            assert_eq!(region[k], if x + y == 4 { 1 } else { 1000 + k as u32 });
        }
    }
}
