use vstd::prelude::*;
use crate::bitmap::Bitmap;
use crate::canvas::Canvas;
use crate::error::GraphicsError;

verus! {

/// What the display-adapter service tells of its linear framebuffer.
#[derive(Clone, Copy, Debug)]
pub struct DisplayDescriptor {
    pub horizontal_resolution: u32,
    pub vertical_resolution: u32,
    /// Cells per scan line; may exceed the horizontal resolution.
    pub pixels_per_scan_line: u32,
    pub frame_buffer_base: usize,
    /// Size of the framebuffer in bytes.
    pub frame_buffer_size: usize,
}

/// A view over the framebuffer's memory with the geometry of the display.
pub struct VramBufferInfo<'a> {
    pub buf: &'a mut [u32],
    pub width: i64,
    pub height: i64,
    pub pixels_per_line: i64,
}

impl<'a> Bitmap for VramBufferInfo<'a> {
    open spec fn view(&self) -> Canvas {
        Canvas {
            width: self.width as int,
            height: self.height as int,
            stride: self.pixels_per_line as int,
            cells: self.buf@,
        }
    }

    fn bytes_per_pixel(&self) -> (n: i64) {
        4
    }

    fn pixels_per_line(&self) -> (n: i64) {
        self.pixels_per_line
    }

    fn width(&self) -> (n: i64) {
        self.width
    }

    fn height(&self) -> (n: i64) {
        self.height
    }

    fn buf_mut(&mut self) -> (buf: &mut [u32]) {
        &mut *self.buf
    }
}

/// Status word by which the firmware reports success.
pub const EFI_SUCCESS: u64 = 0;

/// The canvas that a descriptor lays over the given cells.
pub open spec fn descriptor_canvas(descriptor: DisplayDescriptor, cells: Seq<u32>) -> Canvas {
    Canvas {
        width: descriptor.horizontal_resolution as int,
        height: descriptor.vertical_resolution as int,
        stride: descriptor.pixels_per_scan_line as int,
        cells,
    }
}

/// Whether every addressable pixel of the descriptor's geometry has its
/// four bytes inside the framebuffer's byte size and its cell inside `cells`.
pub open spec fn descriptor_fits(descriptor: DisplayDescriptor, cells: Seq<u32>) -> bool {
    let canvas = descriptor_canvas(descriptor, cells);
    canvas.visible_width() > 0 && canvas.height > 0 ==> {
        let needed = (canvas.height - 1) * canvas.stride + canvas.visible_width();
        needed <= cells.len() && needed * 4 <= descriptor.frame_buffer_size
    }
}

/// Judges the status word that the firmware returned for the lookup of the
/// display-adapter service: anything but success means the service is not
/// to be had.
pub fn locate_graphic_protocol(status: u64) -> (r: Result<(), GraphicsError>)
    ensures
        status == EFI_SUCCESS ==> r.is_ok(),
        status != EFI_SUCCESS ==> r == Err::<(), GraphicsError>(GraphicsError::ProtocolNotFound),
{
    if status != EFI_SUCCESS {
        return Err(GraphicsError::ProtocolNotFound);
    }
    Ok(())
}

/// Lays the descriptor's geometry over the framebuffer's memory, handed in
/// as its 32-bit cells. The view is made only if the geometry fits the
/// memory, so every later access through it stays inside.
pub fn init_vram<'a>(descriptor: &DisplayDescriptor, region: &'a mut [u32]) -> (r: Result<
    VramBufferInfo<'a>,
    GraphicsError,
>)
    ensures
        descriptor_fits(*descriptor, old(region)@) ==> r.is_ok() && r.unwrap().view()
            == descriptor_canvas(*descriptor, old(region)@) && r.unwrap().view().well_formed(),
        !descriptor_fits(*descriptor, old(region)@) ==> r == Err::<VramBufferInfo<'a>, GraphicsError>(
            GraphicsError::OutOfRange,
        ),
{
    let width = descriptor.horizontal_resolution;
    let height = descriptor.vertical_resolution;
    let stride = descriptor.pixels_per_scan_line;
    let visible = if width <= stride {
        width
    } else {
        stride
    };
    if visible > 0 && height > 0 {
        assert((height - 1) * stride <= 0xffff_ffff * 0xffff_ffff) by (nonlinear_arith)
            requires
                0 <= height - 1 <= 0xffff_ffff,
                0 <= stride <= 0xffff_ffff,
        ;
        let needed: u128 = ((height - 1) as u128) * (stride as u128) + (visible as u128);
        if needed > region.len() as u128 || needed * 4 > descriptor.frame_buffer_size as u128 {
            return Err(GraphicsError::OutOfRange);
        }
    }
    Ok(
        VramBufferInfo {
            buf: region,
            width: width as i64,
            height: height as i64,
            pixels_per_line: stride as i64,
        },
    )
}

} // verus!
