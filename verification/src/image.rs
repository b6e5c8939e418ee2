//! An RGBA raster held as plain values: width, height and the row-major
//! bytes `r, g, b, a` of each pixel.
use vstd::prelude::*;

verus! {

/// An RGBA image: `height` rows of `width` pixels, four bytes per pixel.
pub struct RgbaImage {
    width: u32,
    height: u32,
    data: Vec<u8>,
}

/// Packs a pixel into one integer, `r` in the high byte and `a` in the low
/// byte; integer order on keys is the lexicographic order on `[r, g, b, a]`.
pub open spec fn color_key(r: u8, g: u8, b: u8, a: u8) -> int {
    r as int * 16777216 + g as int * 65536 + b as int * 256 + a as int
}

impl RgbaImage {
    #[verifier::type_invariant]
    spec fn inv(&self) -> bool {
        self.data@.len() == self.width as int * self.height as int * 4
    }

    /// Width in pixels.
    pub closed spec fn spec_width(&self) -> u32 {
        self.width
    }

    /// Height in pixels.
    pub closed spec fn spec_height(&self) -> u32 {
        self.height
    }

    /// The raw bytes, four per pixel, rows top to bottom.
    pub closed spec fn spec_data(&self) -> Seq<u8> {
        self.data@
    }

    /// An image from its raw bytes; `None` unless there are exactly
    /// `width * height * 4` of them.
    pub fn from_raw(width: u32, height: u32, data: Vec<u8>) -> (r: Option<RgbaImage>)
        ensures
            r is Some <==> data@.len() == width as int * height as int * 4,
            r matches Some(img) ==> img.spec_width() == width && img.spec_height() == height
                && img.spec_data() == data@,
    {
        let w: u64 = width as u64;
        let h: u64 = height as u64;
        assert(w * h <= 0xffff_ffff_ffff_ffff) by (nonlinear_arith)
            requires
                w <= 0xffff_ffff,
                h <= 0xffff_ffff,
        ;
        let n: u128 = (w as u128) * (h as u128) * 4;
        if (data.len() as u128) == n {
            Some(RgbaImage { width, height, data })
        } else {
            None
        }
    }

    /// An image of the given size with every pixel set to `pixel`.
    pub fn from_pixel(width: u32, height: u32, pixel: [u8; 4]) -> (r: RgbaImage)
        requires
            width as int * height as int * 4 <= usize::MAX,
        ensures
            r.spec_width() == width,
            r.spec_height() == height,
            r.spec_data().len() == width as int * height as int * 4,
            forall|i: int|
                0 <= i < r.spec_data().len() ==> #[trigger] r.spec_data()[i] == pixel@[i % 4],
    {
        let total: usize = (width as usize) * (height as usize);
        let mut data: Vec<u8> = Vec::new();
        let mut i: usize = 0;
        while i < total
            invariant
                total == width as int * height as int,
                total * 4 <= usize::MAX,
                i <= total,
                data@.len() == i * 4,
                forall|j: int| 0 <= j < data@.len() ==> #[trigger] data@[j] == pixel@[j % 4],
            decreases total - i,
        {
            let ghost before = data@;
            data.push(pixel[0]);
            data.push(pixel[1]);
            data.push(pixel[2]);
            data.push(pixel[3]);
            proof {
                assert forall|j: int| 0 <= j < data@.len() implies #[trigger] data@[j] == pixel@[j
                    % 4] by {
                    if j >= before.len() {
                        assert(j - i * 4 == j % 4) by (nonlinear_arith)
                            requires
                                i * 4 <= j < i * 4 + 4,
                        ;
                    }
                }
            }
            i = i + 1;
        }
        RgbaImage { width, height, data }
    }

    /// Width in pixels.
    pub fn width(&self) -> (r: u32)
        ensures
            r == self.spec_width(),
    {
        self.width
    }

    /// Height in pixels.
    pub fn height(&self) -> (r: u32)
        ensures
            r == self.spec_height(),
    {
        self.height
    }

    /// The raw bytes; there are `width * height * 4` of them.
    pub fn as_raw(&self) -> (r: &Vec<u8>)
        ensures
            r@ == self.spec_data(),
            r@.len() == self.spec_width() as int * self.spec_height() as int * 4,
    {
        proof {
            use_type_invariant(self);
        }
        &self.data
    }
}

} // verus!
