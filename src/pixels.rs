//! An 8-bit RGB pixel buffer, stored row-major with three bytes per pixel.
use vstd::prelude::*;

use crate::prelude::Rgb;

verus! {

/// What an [`RgbImage`] holds: its dimensions and its bytes, three per pixel
/// (red, green, blue), pixels in row-major order.
pub struct PixelGrid {
    pub width: nat,
    pub height: nat,
    pub bytes: Seq<u8>,
}

impl PixelGrid {
    pub open spec fn pixel_count(self) -> nat {
        self.width * self.height
    }

    pub open spec fn wf(self) -> bool {
        self.bytes.len() == 3 * self.pixel_count()
    }

    /// The byte of channel `c` of the pixel with row-major index `p`.
    pub open spec fn channel(self, p: int, c: int) -> u8 {
        self.bytes[3 * p + c]
    }

    /// The pixel with row-major index `p`.
    pub open spec fn pixel(self, p: int) -> Rgb<u8> {
        Rgb(self.bytes[3 * p], self.bytes[3 * p + 1], self.bytes[3 * p + 2])
    }
}

/// An 8-bit RGB image whose byte buffer always holds exactly three bytes per
/// pixel.
#[derive(Debug)]
pub struct RgbImage {
    width: u32,
    height: u32,
    data: Vec<u8>,
}

impl View for RgbImage {
    type V = PixelGrid;

    closed spec fn view(&self) -> PixelGrid {
        PixelGrid { width: self.width as nat, height: self.height as nat, bytes: self.data@ }
    }
}

impl RgbImage {
    #[verifier::type_invariant]
    spec fn buffer_fits(self) -> bool {
        self.data.len() == 3 * (self.width * self.height)
    }

    /// A black image of the given size.
    pub fn new(width: u32, height: u32) -> (r: RgbImage)
        requires
            3 * (width * height) <= usize::MAX,
        ensures
            r@.width == width,
            r@.height == height,
            r@.bytes == Seq::new(3 * (width * height) as nat, |i: int| 0u8),
    {
        let n: usize = 3 * (width as usize * height as usize);
        let data = vec![0u8; n];
        let r = RgbImage { width, height, data };
        assert(r@.bytes =~= Seq::new(3 * (width * height) as nat, |i: int| 0u8));
        r
    }

    /// An image over `data`, which must hold three bytes per pixel, row-major.
    pub fn from_raw(width: u32, height: u32, data: Vec<u8>) -> (r: Option<RgbImage>)
        ensures
            r is Some <==> data.len() == 3 * (width * height),
            r matches Some(img) ==> img@ == (PixelGrid { width: width as nat, height: height as nat, bytes: data@ }),
    {
        assert(width as int * height as int <= u64::MAX) by (nonlinear_arith)
            requires
                width <= u32::MAX,
                height <= u32::MAX,
        ;
        let pixels: u64 = width as u64 * height as u64;
        if data.len() % 3 == 0 && data.len() as u64 / 3 == pixels {
            Some(RgbImage { width, height, data })
        } else {
            None
        }
    }

    pub fn width(&self) -> (r: u32)
        ensures
            r == self@.width,
    {
        self.width
    }

    pub fn height(&self) -> (r: u32)
        ensures
            r == self@.height,
    {
        self.height
    }

    /// Number of pixels; the buffer holds three bytes for each.
    pub fn pixel_count(&self) -> (r: usize)
        ensures
            r == self@.pixel_count(),
            self@.wf(),
    {
        proof {
            use_type_invariant(self);
        }
        self.data.len() / 3
    }

    /// The raw bytes, three per pixel, row-major.
    pub fn as_raw(&self) -> (r: &Vec<u8>)
        ensures
            r@ == self@.bytes,
    {
        &self.data
    }

    /// Byte of channel `c` of pixel `p` (row-major index).
    pub fn channel(&self, p: usize, c: usize) -> (r: u8)
        requires
            p < self@.pixel_count(),
            c < 3,
        ensures
            r == self@.channel(p as int, c as int),
    {
        proof {
            use_type_invariant(self);
        }
        self.data[3 * p + c]
    }

    /// Replaces byte `c` of pixel `p`; nothing else changes.
    pub fn set_channel(&mut self, p: usize, c: usize, value: u8)
        requires
            p < old(self)@.pixel_count(),
            c < 3,
        ensures
            final(self)@ == (PixelGrid { bytes: old(self)@.bytes.update(3 * p + c, value), ..old(self)@ }),
    {
        proof {
            use_type_invariant(&*self);
        }
        self.data[3 * p + c] = value;
    }

    /// Pixel `p` (row-major index).
    pub fn pixel(&self, p: usize) -> (r: Rgb<u8>)
        requires
            p < self@.pixel_count(),
        ensures
            r == self@.pixel(p as int),
    {
        proof {
            use_type_invariant(self);
        }
        Rgb(self.data[3 * p], self.data[3 * p + 1], self.data[3 * p + 2])
    }

    /// A copy of the image.
    pub fn duplicate(&self) -> (r: RgbImage)
        ensures
            r@ == self@,
    {
        proof {
            use_type_invariant(self);
        }
        let data = self.data.clone();
        assert(data@ =~= self.data@);
        RgbImage { width: self.width, height: self.height, data }
    }
}

} // verus!
