use vstd::prelude::*;

verus! {

/// Index of a pixel inside a row-major buffer.
pub open spec fn pixel_index(x: int, y: int, width: int) -> int {
    y * width + x
}

/// A pixel coordinate inside a `width` by `height` grid.
pub open spec fn in_grid(x: int, y: int, width: int, height: int) -> bool {
    0 <= x < width && 0 <= y < height
}

pub proof fn lemma_pixel_index_bound(x: int, y: int, width: int, height: int)
    requires
        in_grid(x, y, width, height),
    ensures
        0 <= pixel_index(x, y, width) < width * height,
{
    assert(0 <= y * width + x < width * height) by (nonlinear_arith)
        requires
            0 <= x < width,
            0 <= y < height,
    ;
}

/// A decoded RGB image: row-major, three bytes (red, green, blue) per pixel.
#[derive(Debug)]
pub struct RgbBuf {
    pub width: u32,
    pub height: u32,
    pub data: Vec<u8>,
}

impl RgbBuf {
    /// The byte buffer holds exactly three bytes for every pixel.
    pub open spec fn wf(self) -> bool {
        self.data@.len() == 3 * self.width * self.height
    }

    /// Channel `c` (0 = red, 1 = green, 2 = blue) of the pixel at `(x, y)`.
    pub open spec fn spec_channel(self, x: int, y: int, c: int) -> u8 {
        self.data@[3 * pixel_index(x, y, self.width as int) + c]
    }

    pub fn new(width: u32, height: u32, data: Vec<u8>) -> (r: RgbBuf)
        requires
            data@.len() == 3 * width * height,
        ensures
            r.wf(),
            r.width == width,
            r.height == height,
            r.data == data,
    {
        RgbBuf { width, height, data }
    }

    /// Reads the red, green and blue bytes of the pixel at `(x, y)`.
    pub fn pixel(&self, x: u32, y: u32) -> (p: (u8, u8, u8))
        requires
            self.wf(),
            x < self.width,
            y < self.height,
        ensures
            p.0 == self.spec_channel(x as int, y as int, 0),
            p.1 == self.spec_channel(x as int, y as int, 1),
            p.2 == self.spec_channel(x as int, y as int, 2),
    {
        proof {
            lemma_pixel_index_bound(x as int, y as int, self.width as int, self.height as int);
            assert(self.data@.len() <= usize::MAX) by {
                assert(self.data.len() == self.data@.len());
            }
            assert(3 * (self.width as int) * (self.height as int)
                == 3 * ((self.width as int) * (self.height as int))) by (nonlinear_arith);
        }
        let base: usize = 3 * ((y as usize) * (self.width as usize) + (x as usize));
        (self.data[base], self.data[base + 1], self.data[base + 2])
    }
}

/// What the collaborator that loads pictures from disk handed over: the
/// file was missing, decoding failed with a reason, or a decoded RGB
/// buffer.
pub enum LoadedImage {
    Missing,
    Failed(String),
    Decoded(RgbBuf),
}

/// A single-channel (grayscale) image: row-major, one byte per pixel.
#[derive(Debug)]
pub struct GrayBuf {
    pub width: u32,
    pub height: u32,
    pub data: Vec<u8>,
}

impl GrayBuf {
    /// The byte buffer holds exactly one byte for every pixel.
    pub open spec fn wf(self) -> bool {
        self.data@.len() == self.width * self.height
    }

    /// The intensity of the pixel at `(x, y)`.
    pub open spec fn spec_at(self, x: int, y: int) -> u8 {
        self.data@[pixel_index(x, y, self.width as int)]
    }

    pub fn new(width: u32, height: u32, data: Vec<u8>) -> (r: GrayBuf)
        requires
            data@.len() == width * height,
        ensures
            r.wf(),
            r.width == width,
            r.height == height,
            r.data == data,
    {
        GrayBuf { width, height, data }
    }

    /// Reads the intensity of the pixel at `(x, y)`.
    pub fn at(&self, x: u32, y: u32) -> (v: u8)
        requires
            self.wf(),
            x < self.width,
            y < self.height,
        ensures
            v == self.spec_at(x as int, y as int),
    {
        proof {
            lemma_pixel_index_bound(x as int, y as int, self.width as int, self.height as int);
            assert(self.data@.len() <= usize::MAX) by {
                assert(self.data.len() == self.data@.len());
            }
        }
        self.data[(y as usize) * (self.width as usize) + (x as usize)]
    }
}

} // verus!
