//! The picture a machine without a serial line shows when the kernel has come
//! up: red rising to the right, blue rising downwards.
use vstd::prelude::*;

verus! {

/// The colour of the pixel at `(x, y)` of a screen this large, as red, green
/// and blue bytes from the top.
pub open spec fn gradient(x: u32, y: u32, width: u32, height: u32) -> int {
    (x * 255 / width as int) * 0x1_0000 + 0x2000 + y * 255 / height as int
}

/// The pixel at `(x, y)`.
pub fn smoke_pixel(x: u32, y: u32, width: u32, height: u32) -> (r: u32)
    requires
        x < width,
        y < height,
    ensures
        r == gradient(x, y, width, height),
{
    let red: u64 = x as u64 * 255 / width as u64;
    let blue: u64 = y as u64 * 255 / height as u64;
    proof {
        let (a, w) = (x * 255, width as int);
        assert(a / w <= 255) by (nonlinear_arith)
            requires
                0 <= a <= 255 * w,
                w > 0,
        ;
        let (b, h) = (y * 255, height as int);
        assert(b / h <= 255) by (nonlinear_arith)
            requires
                0 <= b <= 255 * h,
                h > 0,
        ;
    }
    red as u32 * 0x1_0000 + 0x2000 + blue as u32
}

/// Where the pixel at `(x, y)` is in the framebuffer.
pub fn smoke_offset(x: u32, y: u32, pitch: u32, bytes_per_pixel: u32) -> (r: u64)
    requires
        y * pitch + x * bytes_per_pixel <= u64::MAX,
    ensures
        r == y * pitch + x * bytes_per_pixel,
{
    proof {
        assert(y * pitch >= 0) by (nonlinear_arith);
        assert(x * bytes_per_pixel >= 0) by (nonlinear_arith);
    }
    y as u64 * pitch as u64 + x as u64 * bytes_per_pixel as u64
}

} // verus!
