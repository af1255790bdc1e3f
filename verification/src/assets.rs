//! The app's images, as raw RGBA pixels.
use vstd::prelude::*;

verus! {

/// A square or rectangular image: its size in pixels, and four bytes of
/// red, green, blue and alpha per pixel, row by row.
#[derive(Debug, Clone, Copy)]
pub struct Image {
    pub width: u32,
    pub height: u32,
    pub rgba: &'static [u8],
}

impl Image {
    /// The image holds exactly the bytes its size claims.
    pub fn is_intact(&self) -> (r: bool)
        ensures
            r == (self.rgba@.len() == self.width * self.height * 4),
    {
        let w = self.width as u128;
        let h = self.height as u128;
        assert(w * h <= 0xffff_ffff_ffff_ffff_ffff_ffff) by (nonlinear_arith)
            requires
                w <= 0xffff_ffff,
                h <= 0xffff_ffff,
        ;
        let area: u128 = w * h;
        let want: u128 = area * 4;
        (self.rgba.len() as u128) == want
    }
}

} // verus!
