use framebuffer_draw::bitmap::Bitmap;
use framebuffer_draw::error::GraphicsError;
use framebuffer_draw::raster::{draw_point, fill_rect};
use framebuffer_draw::vram::{init_vram, locate_graphic_protocol, DisplayDescriptor, EFI_SUCCESS};

fn descriptor(width: u32, height: u32, stride: u32, cells: usize) -> DisplayDescriptor {
    DisplayDescriptor {
        horizontal_resolution: width,
        vertical_resolution: height,
        pixels_per_scan_line: stride,
        frame_buffer_base: 0,
        frame_buffer_size: cells * 4,
    }
}

#[test]
fn accessors_report_the_descriptor() {
    let mut region = vec![0u32; 8 * 3];
    let mut vram = init_vram(&descriptor(5, 3, 8, 24), &mut region).unwrap();
    assert_eq!(vram.bytes_per_pixel(), 4);
    assert_eq!(vram.width(), 5);
    assert_eq!(vram.height(), 3);
    assert_eq!(vram.pixels_per_line(), 8);
    assert_eq!(vram.buf_mut().len(), 24);
}

#[test]
fn range_tests_use_the_smaller_of_width_and_stride() {
    let mut region = vec![0u32; 8 * 3];
    let vram = init_vram(&descriptor(5, 3, 8, 24), &mut region).unwrap();
    assert!(vram.is_in_x_range(0));
    assert!(vram.is_in_x_range(4));
    assert!(!vram.is_in_x_range(5));
    assert!(!vram.is_in_x_range(7));
    assert!(!vram.is_in_x_range(-1));
    assert!(vram.is_in_y_range(0));
    assert!(vram.is_in_y_range(2));
    assert!(!vram.is_in_y_range(3));
    assert!(!vram.is_in_y_range(-1));

    let mut narrow = vec![0u32; 4 * 3];
    let vram = init_vram(&descriptor(6, 3, 4, 12), &mut narrow).unwrap();
    assert!(vram.is_in_x_range(3));
    assert!(!vram.is_in_x_range(4));
}

#[test]
fn init_vram_rejects_memory_that_is_too_small() {
    let mut region = vec![0u32; 23];
    assert!(matches!(
        init_vram(&descriptor(8, 3, 8, 23), &mut region),
        Err(GraphicsError::OutOfRange)
    ));
    // the last row needs only the visible columns
    let mut region = vec![0u32; 8 * 2 + 5];
    assert!(init_vram(&descriptor(5, 3, 8, 21), &mut region).is_ok());
    let mut region = vec![0u32; 8 * 2 + 4];
    assert!(init_vram(&descriptor(5, 3, 8, 20), &mut region).is_err());
}

#[test]
fn init_vram_rejects_a_byte_size_that_is_too_small() {
    let mut region = vec![0u32; 24];
    let mut d = descriptor(8, 3, 8, 24);
    d.frame_buffer_size = 95;
    assert!(matches!(init_vram(&d, &mut region), Err(GraphicsError::OutOfRange)));
    d.frame_buffer_size = 96;
    assert!(init_vram(&d, &mut region).is_ok());
}

#[test]
fn init_vram_accepts_an_empty_screen() {
    let mut region: Vec<u32> = Vec::new();
    let mut vram = init_vram(&descriptor(0, 0, 0, 0), &mut region).unwrap();
    assert_eq!(draw_point(&mut vram, 1, 0, 0), Err(GraphicsError::OutOfRange));
    assert_eq!(fill_rect(&mut vram, 1, 0, 0, 0, 0), Err(GraphicsError::OutOfRange));
}

#[test]
fn lookup_failure_is_protocol_not_found() {
    assert_eq!(locate_graphic_protocol(EFI_SUCCESS), Ok(()));
    assert_eq!(locate_graphic_protocol(0), Ok(()));
    assert_eq!(locate_graphic_protocol(1), Err(GraphicsError::ProtocolNotFound));
    assert_eq!(
        locate_graphic_protocol(0x8000_0000_0000_000e),
        Err(GraphicsError::ProtocolNotFound)
    );
    assert_eq!(locate_graphic_protocol(u64::MAX), Err(GraphicsError::ProtocolNotFound));
}

#[test]
fn pixel_at_mut_gives_the_cell_or_nothing() {
    let mut region: Vec<u32> = (0..24).collect();
    let mut vram = init_vram(&descriptor(5, 3, 8, 24), &mut region).unwrap();
    assert_eq!(vram.pixel_at_mut(0, 0).map(|c| *c), Some(0));
    assert_eq!(vram.pixel_at_mut(4, 2).map(|c| *c), Some(20));
    assert_eq!(vram.pixel_at_mut(3, 1).map(|c| *c), Some(11));
    assert!(vram.pixel_at_mut(5, 0).is_none());
    assert!(vram.pixel_at_mut(0, 3).is_none());
    assert!(vram.pixel_at_mut(-1, 0).is_none());
    assert!(vram.pixel_at_mut(0, -1).is_none());
    *vram.pixel_at_mut(3, 1).unwrap() = 99;
    *vram.pixel_at_mut(4, 1).unwrap() = 77;
    assert_eq!(region[11], 99);
    assert_eq!(region[12], 77);
}

#[test]
fn draw_point_then_read_returns_the_color() {
    let mut region = vec![7u32; 8 * 3];
    let mut vram = init_vram(&descriptor(5, 3, 8, 24), &mut region).unwrap();
    for y in 0..3 {
        for x in 0..5 {
            let color = (100 + y * 10 + x) as u32;
            assert_eq!(draw_point(&mut vram, color, x, y), Ok(()));
            assert_eq!(*vram.pixel_at_mut(x, y).unwrap(), color);
        }
    }
    for y in 0..3usize {
        for x in 0..8usize {
            let expected = if x < 5 { (100 + y * 10 + x) as u32 } else { 7 };
            assert_eq!(region[y * 8 + x], expected);
        }
    }
}

#[test]
fn draw_point_out_of_range_changes_nothing() {
    let mut region = vec![7u32; 8 * 3];
    let mut vram = init_vram(&descriptor(5, 3, 8, 24), &mut region).unwrap();
    for (x, y) in [(5, 0), (7, 0), (8, 0), (-1, 0), (0, 3), (0, -1), (i64::MAX, 0), (0, i64::MIN)] {
        assert_eq!(draw_point(&mut vram, 1, x, y), Err(GraphicsError::OutOfRange));
    }
    assert!(region.iter().all(|&c| c == 7));
}

#[test]
fn fill_rect_colors_exactly_the_block() {
    let mut region = vec![0u32; 100 * 100];
    let mut vram = init_vram(&descriptor(100, 100, 100, 10000), &mut region).unwrap();
    assert_eq!(fill_rect(&mut vram, 0xFF0000, 10, 10, 20, 20), Ok(()));
    assert_eq!(*vram.pixel_at_mut(30, 10).unwrap(), 0);
    assert_eq!(*vram.pixel_at_mut(9, 9).unwrap(), 0);
    for y in 0..100usize {
        for x in 0..100usize {
            let inside = (10..=29).contains(&x) && (10..=29).contains(&y);
            assert_eq!(region[y * 100 + x], if inside { 0xFF0000 } else { 0 });
        }
    }
    assert_eq!(region.iter().filter(|&&c| c == 0xFF0000).count(), 400);
}

#[test]
fn fill_rect_with_a_corner_out_of_range_changes_nothing() {
    let mut region = vec![5u32; 100 * 100];
    let mut vram = init_vram(&descriptor(100, 100, 100, 10000), &mut region).unwrap();
    assert_eq!(fill_rect(&mut vram, 1, 90, 90, 20, 20), Err(GraphicsError::OutOfRange));
    assert_eq!(fill_rect(&mut vram, 1, -1, 0, 5, 5), Err(GraphicsError::OutOfRange));
    assert_eq!(fill_rect(&mut vram, 1, 0, 100, 1, 1), Err(GraphicsError::OutOfRange));
    assert_eq!(fill_rect(&mut vram, 1, 0, 0, 101, 1), Err(GraphicsError::OutOfRange));
    assert_eq!(fill_rect(&mut vram, 1, 0, 0, 1, 101), Err(GraphicsError::OutOfRange));
    assert_eq!(fill_rect(&mut vram, 1, 1, 1, i64::MAX, 1), Err(GraphicsError::OutOfRange));
    assert_eq!(fill_rect(&mut vram, 1, 1, 1, 1, i64::MIN), Err(GraphicsError::OutOfRange));
    assert!(region.iter().all(|&c| c == 5));
}

#[test]
fn fill_rect_keeps_out_of_the_padding() {
    let mut region = vec![0u32; 8 * 3];
    let mut vram = init_vram(&descriptor(5, 3, 8, 24), &mut region).unwrap();
    assert_eq!(fill_rect(&mut vram, 9, 0, 0, 5, 3), Ok(()));
    assert_eq!(fill_rect(&mut vram, 9, 0, 0, 6, 3), Err(GraphicsError::OutOfRange));
    for y in 0..3usize {
        for x in 0..8usize {
            assert_eq!(region[y * 8 + x], if x < 5 { 9 } else { 0 });
        }
    }
}

#[test]
fn fill_rect_without_columns_or_rows_writes_nothing() {
    let mut region = vec![3u32; 10 * 10];
    let mut vram = init_vram(&descriptor(10, 10, 10, 100), &mut region).unwrap();
    // the far corner (x + w - 1, y + h - 1) is still tested
    assert_eq!(fill_rect(&mut vram, 1, 4, 4, 0, 0), Ok(()));
    assert_eq!(fill_rect(&mut vram, 1, 4, 4, -2, 3), Ok(()));
    assert_eq!(fill_rect(&mut vram, 1, 4, 4, 3, -3), Ok(()));
    assert_eq!(fill_rect(&mut vram, 1, 0, 0, 0, 1), Err(GraphicsError::OutOfRange));
    assert_eq!(fill_rect(&mut vram, 1, 4, 4, 3, -4), Err(GraphicsError::OutOfRange));
    assert_eq!(fill_rect(&mut vram, 1, 4, 4, -5, 1), Err(GraphicsError::OutOfRange));
    assert!(region.iter().all(|&c| c == 3));
}

#[test]
fn fill_rect_of_one_pixel_and_of_the_whole_screen() {
    let mut region = vec![0u32; 4 * 4];
    let mut vram = init_vram(&descriptor(4, 4, 4, 16), &mut region).unwrap();
    assert_eq!(fill_rect(&mut vram, 2, 0, 0, 4, 4), Ok(()));
    assert_eq!(fill_rect(&mut vram, 8, 3, 3, 1, 1), Ok(()));
    let mut expected = vec![2u32; 16];
    expected[15] = 8;
    assert_eq!(region, expected);
}

#[test]
fn errors_have_a_message() {
    assert_eq!(GraphicsError::OutOfRange.message(), "Out of Range");
    assert_eq!(
        GraphicsError::ProtocolNotFound.message(),
        "Failed to locate graphics output protocol"
    );
    assert_ne!(GraphicsError::OutOfRange, GraphicsError::ProtocolNotFound);
}
