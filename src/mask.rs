use vstd::prelude::*;

verus! {

/// Layout of the pixel buffer that a mask is built from.
#[derive(Clone, Copy, Debug, PartialEq, Eq, Structural)]
pub enum PixelFormat {
    /// One luminance byte per pixel.
    Luma8,
    /// A luminance byte, then an alpha byte.
    LumaA8,
    /// Red, green and blue bytes.
    Rgb8,
    /// Red, green, blue and alpha bytes.
    Rgba8,
    /// A layout with no channel that can stand for opacity.
    Unsupported,
}

/// Why a pixel buffer could not be turned into a mask.
#[derive(Clone, Copy, Debug, PartialEq, Eq, Structural)]
pub enum MaskError {
    /// The pixel format has no alpha or colour channel to read opacity from.
    UnsupportedFormat,
    /// The buffer's length is not width × height × bytes per pixel, or the
    /// pixel count does not fit in a `u32`.
    SizeMismatch,
}

/// A width × height grid of opaque (`true`) and transparent (`false`) pixels,
/// stored row by row from the top.
#[derive(Clone, Debug)]
pub struct PixelMask {
    pub width: u32,
    pub height: u32,
    pub cells: Vec<bool>,
}

pub open spec fn bytes_per_pixel(f: PixelFormat) -> int {
    match f {
        PixelFormat::Luma8 => 1,
        PixelFormat::LumaA8 => 2,
        PixelFormat::Rgb8 => 3,
        PixelFormat::Rgba8 => 4,
        PixelFormat::Unsupported => 0,
    }
}

/// Whether pixel `i` of `data` is opaque: its alpha byte is non-zero where the
/// format has one, otherwise one of its colour bytes is.
pub open spec fn pixel_opaque(f: PixelFormat, data: Seq<u8>, i: int) -> bool {
    let b = i * bytes_per_pixel(f);
    match f {
        PixelFormat::Luma8 => data[b] != 0,
        PixelFormat::LumaA8 => data[b + 1] != 0,
        PixelFormat::Rgb8 => data[b] != 0 || data[b + 1] != 0 || data[b + 2] != 0,
        PixelFormat::Rgba8 => data[b + 3] != 0,
        PixelFormat::Unsupported => false,
    }
}

/// The occupancy of each of the first `n` pixels of `data`.
pub open spec fn occupancy(f: PixelFormat, data: Seq<u8>, n: nat) -> Seq<bool> {
    Seq::new(n, |i: int| pixel_opaque(f, data, i))
}

impl PixelMask {
    /// One cell per pixel, and a pixel count that fits in a `u32`.
    pub open spec fn wf(&self) -> bool {
        &&& self.width as int * self.height as int <= u32::MAX as int
        &&& self.cells@.len() == self.width as int * self.height as int
    }

    pub open spec fn opaque_at(&self, x: int, y: int) -> bool {
        self.cells@[y * self.width + x]
    }

    /// Whether the pixel at column `x`, row `y` is opaque.
    pub fn is_opaque(&self, x: u32, y: u32) -> (r: bool)
        requires
            self.wf(),
            x < self.width,
            y < self.height,
        ensures
            r == self.opaque_at(x as int, y as int),
    {
        proof {
            assert(y as int * self.width as int + x < self.width as int * self.height as int)
                by (nonlinear_arith)
                requires x < self.width, y < self.height;
        }
        self.cells[y as usize * self.width as usize + x as usize]
    }
}

fn format_bytes(f: PixelFormat) -> (r: usize)
    ensures
        r == bytes_per_pixel(f),
{
    match f {
        PixelFormat::Luma8 => 1,
        PixelFormat::LumaA8 => 2,
        PixelFormat::Rgb8 => 3,
        PixelFormat::Rgba8 => 4,
        PixelFormat::Unsupported => 0,
    }
}

/// Builds the occupancy mask of a `width` × `height` image whose pixels are laid
/// out in `data` as `format` says. A pixel is opaque when its alpha is above
/// zero, or, for a format without alpha, when one of its colour channels is.
pub fn build_mask(width: u32, height: u32, format: PixelFormat, data: &Vec<u8>) -> (r: Result<
    PixelMask,
    MaskError,
>)
    ensures
        format == PixelFormat::Unsupported ==> r == Err::<PixelMask, MaskError>(
            MaskError::UnsupportedFormat,
        ),
        format != PixelFormat::Unsupported ==> (r is Err <==> (width as int * height as int
            > u32::MAX as int || data@.len() != width as int * height as int * bytes_per_pixel(
            format,
        ))),
        r is Err ==> r == Err::<PixelMask, MaskError>(MaskError::UnsupportedFormat) || r
            == Err::<PixelMask, MaskError>(MaskError::SizeMismatch),
        r matches Ok(m) ==> {
            &&& m.wf()
            &&& m.width == width
            &&& m.height == height
            &&& m.cells@ == occupancy(format, data@, (width as int * height as int) as nat)
        },
{
    if format == PixelFormat::Unsupported {
        return Err(MaskError::UnsupportedFormat);
    }
    let bpp = format_bytes(format);
    proof {
        assert(width as int * height as int <= u32::MAX as int * u32::MAX as int)
            by (nonlinear_arith);
    }
    let n64: u64 = width as u64 * height as u64;
    if n64 > u32::MAX as u64 {
        return Err(MaskError::SizeMismatch);
    }
    let n = n64 as usize;
    if n.checked_mul(bpp) != Some(data.len()) {
        return Err(MaskError::SizeMismatch);
    }
    let len = data.len();
    let mut cells: Vec<bool> = Vec::new();
    let mut i: usize = 0;
    while i < n
        invariant
            n == width as int * height as int,
            1 <= bpp <= 4,
            bpp == bytes_per_pixel(format),
            format != PixelFormat::Unsupported,
            data@.len() == n * bpp,
            len == data@.len(),
            i <= n,
            cells@ == occupancy(format, data@, i as nat),
        decreases n - i,
    {
        proof {
            assert(i * bpp + bpp <= n * bpp) by (nonlinear_arith)
                requires i < n, bpp >= 1;
            assert(i * bpp + bpp == (i + 1) * bpp) by (nonlinear_arith);
            assert(i * bpp + bpp <= data@.len());
        }
        let b = i * bpp;
        let opaque = match format {
            PixelFormat::Luma8 => data[b] != 0,
            PixelFormat::LumaA8 => data[b + 1] != 0,
            PixelFormat::Rgb8 => data[b] != 0 || data[b + 1] != 0 || data[b + 2] != 0,
            _ => data[b + 3] != 0,
        };
        cells.push(opaque);
        proof {
            assert(cells@ =~= occupancy(format, data@, (i + 1) as nat));
        }
        i = i + 1;
    }
    Ok(PixelMask { width, height, cells })
}

} // verus!
