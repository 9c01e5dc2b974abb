//! Lays out a data signature as an image of bigram brightness values.

use vstd::prelude::*;

use crate::statistics::Signature;

verus! {

/// Displays a data signature as an image of 2-gram probabilities: the bigram `(first, second)`
/// fills a square of `side_len` pixels at column `first` and row `second`.
pub struct SignatureDisplay {
    /// The side length of the square of one bigram in pixels.
    side_len: u32,
}

impl SignatureDisplay {
    /// The side length of the square of one bigram in pixels.
    pub closed spec fn spec_side_len(&self) -> u32 {
        self.side_len
    }

    /// Creates a new signature display.
    pub fn new() -> (r: SignatureDisplay)
        ensures
            r.spec_side_len() == 0,
    {
        SignatureDisplay { side_len: 0 }
    }

    /// Fits the image into an area of the given size in pixels and returns the side length of
    /// the square of one bigram: the largest that fits both ways.
    pub fn layout(&mut self, width: u32, height: u32) -> (r: u32)
        ensures
            r == (if width / 256 <= height / 256 {
                width / 256
            } else {
                height / 256
            }),
            final(self).spec_side_len() == r,
    {
        let side_len_x = width / 256;
        let side_len_y = height / 256;
        self.side_len = if side_len_x <= side_len_y {
            side_len_x
        } else {
            side_len_y
        };
        self.side_len
    }

    /// The bigram shown at the given pixel of the image, if the pixel lies in the image.
    pub fn bigram_at(&self, x: u32, y: u32) -> (r: Option<(u8, u8)>)
        ensures
            self.spec_side_len() == 0 ==> r is None,
            self.spec_side_len() > 0 ==> r == (if x / self.spec_side_len() < 256 && y
                / self.spec_side_len() < 256 {
                Some(((x / self.spec_side_len()) as u8, (y / self.spec_side_len()) as u8))
            } else {
                None
            }),
    {
        if self.side_len == 0 {
            return None;
        }
        let first = x / self.side_len;
        let second = y / self.side_len;
        if first < 256 && second < 256 {
            Some((first as u8, second as u8))
        } else {
            None
        }
    }

    /// The brightness of the given pixel of the image, `0` outside of it.
    pub fn intensity_at(&self, signature: &Signature, x: u32, y: u32) -> (r: u8)
        ensures
            r == (match self.bigram_spec(x, y) {
                Some((first, second)) => signature.spec_tuple(first, second),
                None => 0,
            }),
    {
        match self.bigram_at(x, y) {
            Some((first, second)) => signature.tuple(first, second),
            None => 0,
        }
    }

    /// The bigram shown at the given pixel of the image, if the pixel lies in the image.
    pub open spec fn bigram_spec(&self, x: u32, y: u32) -> Option<(u8, u8)> {
        if self.spec_side_len() > 0 && x / self.spec_side_len() < 256 && y / self.spec_side_len()
            < 256 {
            Some(((x / self.spec_side_len()) as u8, (y / self.spec_side_len()) as u8))
        } else {
            None
        }
    }
}

} // verus!
