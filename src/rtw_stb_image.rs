use vstd::prelude::*;

verus! {

/// Channels per pixel in the byte data.
pub const BYTES_PER_PIXEL: usize = 3;

/// A decoded image as 8-bit RGB rows, top row first; or no image at all,
/// when loading failed.
#[derive(Debug)]
pub struct RtwImage {
    byte_data: Option<Vec<u8>>,
    width: u32,
    height: u32,
    bytes_per_scanline: usize,
}

/// The colour given for any lookup in an image that holds no data.
pub open spec fn magenta() -> Seq<u8> {
    seq![255u8, 0u8, 255u8]
}

impl RtwImage {
    pub closed spec fn spec_width(self) -> u32 {
        self.width
    }

    pub closed spec fn spec_height(self) -> u32 {
        self.height
    }

    pub closed spec fn spec_data(self) -> Option<Seq<u8>> {
        match self.byte_data {
            Some(d) => Some(d@),
            None => None,
        }
    }

    /// With data, the image has at least one pixel and the data holds
    /// exactly `width * height` pixels, row after row.
    pub closed spec fn wf(self) -> bool {
        match self.byte_data {
            None => self.width == 0 && self.height == 0,
            Some(d) => {
                &&& self.width > 0
                &&& self.height > 0
                &&& self.bytes_per_scanline == self.width * 3
                &&& d.len() == self.height * self.bytes_per_scanline
            },
        }
    }

    /// The colour at `(x, y)` with both clamped into the image.
    pub open spec fn spec_pixel(self, x: u32, y: u32) -> Seq<u8> {
        match self.spec_data() {
            None => magenta(),
            Some(d) => {
                let cx = if x < self.spec_width() { x as int } else { self.spec_width() - 1 };
                let cy = if y < self.spec_height() { y as int } else { self.spec_height() - 1 };
                let i = (cy * self.spec_width() + cx) * 3;
                seq![d[i], d[i + 1], d[i + 2]]
            },
        }
    }

    /// The image that failed to load: no data, no pixels.
    pub fn empty() -> (r: RtwImage)
        ensures
            r.wf(),
            r.spec_data() is None,
            r.spec_width() == 0,
            r.spec_height() == 0,
    {
        RtwImage { byte_data: None, width: 0, height: 0, bytes_per_scanline: 0 }
    }

    /// The image of `width` by `height` pixels whose RGB bytes are `bytes`,
    /// row after row; `None` unless it has a pixel and `bytes` holds
    /// exactly that many pixels.
    pub fn from_bytes(width: u32, height: u32, bytes: Vec<u8>) -> (r: Option<RtwImage>)
        ensures
            r is Some <==> (width > 0 && height > 0 && bytes.len() == width * height * 3),
            r matches Some(img) ==> img.wf() && img.spec_width() == width && img.spec_height()
                == height && img.spec_data() == Some(bytes@),
    {
        if width == 0 || height == 0 {
            return None;
        }
        let w = width as usize;
        let h = height as usize;
        if w > usize::MAX / 3 {
            assert(bytes.len() != width * height * 3) by (nonlinear_arith)
                requires
                    w > usize::MAX / 3,
                    height > 0,
                    w == width,
                    bytes.len() <= usize::MAX,
            ;
            return None;
        }
        let bytes_per_scanline = w * BYTES_PER_PIXEL;
        if h > usize::MAX / bytes_per_scanline {
            assert(bytes.len() != width * height * 3) by (nonlinear_arith)
                requires
                    h > usize::MAX / bytes_per_scanline,
                    bytes_per_scanline == w * 3,
                    w == width,
                    h == height,
                    bytes.len() <= usize::MAX,
                    bytes_per_scanline > 0,
            ;
            return None;
        }
        assert(h * bytes_per_scanline <= usize::MAX) by (nonlinear_arith)
            requires
                h <= usize::MAX / bytes_per_scanline,
                bytes_per_scanline > 0,
        ;
        if bytes.len() != h * bytes_per_scanline {
            assert(bytes.len() != width * height * 3) by (nonlinear_arith)
                requires
                    bytes.len() != h * bytes_per_scanline,
                    bytes_per_scanline == w * 3,
                    w == width,
                    h == height,
            ;
            return None;
        }
        assert(bytes.len() == width * height * 3) by (nonlinear_arith)
            requires
                bytes.len() == h * bytes_per_scanline,
                bytes_per_scanline == w * 3,
                w == width,
                h == height,
        ;
        Some(RtwImage { byte_data: Some(bytes), width, height, bytes_per_scanline })
    }

    pub fn width(&self) -> (r: u32)
        ensures
            r == self.spec_width(),
    {
        self.width
    }

    pub fn height(&self) -> (r: u32)
        ensures
            r == self.spec_height(),
    {
        self.height
    }

    /// The RGB bytes of the pixel at `(x, y)`, with `x` and `y` clamped to
    /// the last column and row; magenta when the image holds no data.
    pub fn pixel_data(&self, x: u32, y: u32) -> (r: [u8; 3])
        requires
            self.wf(),
        ensures
            r@ == self.spec_pixel(x, y),
    {
        match &self.byte_data {
            None => [255u8, 0u8, 255u8],
            Some(d) => {
                let cx = if x < self.width { x } else { self.width - 1 };
                let cy = if y < self.height { y } else { self.height - 1 };
                let bps = self.bytes_per_scanline;
                let w = self.width as usize;
                let h = self.height as usize;
                assert((cy as int) * bps + (cx as int) * 3 + 2 < h * bps) by (nonlinear_arith)
                    requires
                        cy < h,
                        cx < w,
                        bps == w * 3,
                ;
                assert((cy as int) * bps + (cx as int) * 3 == ((cy as int) * w + cx) * 3) by (nonlinear_arith)
                    requires
                        bps == w * 3,
                ;
                let index = cy as usize * bps + cx as usize * BYTES_PER_PIXEL;
                let r = [d[index], d[index + 1], d[index + 2]];
                assert(r@ =~= self.spec_pixel(x, y));
                r
            },
        }
    }
}

} // verus!
