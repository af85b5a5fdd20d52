use vstd::prelude::*;

use crate::err::ImageError;

verus! {

/// The per-pixel arrangement and count of 8-bit color/alpha components.
#[derive(Clone, Copy, Debug, PartialEq, Eq, Structural)]
pub enum ChannelLayout {
    /// One luminance byte per pixel.
    Gray8,
    /// Luminance then alpha, two bytes per pixel.
    GrayAlpha8,
    /// Red, green, blue, three bytes per pixel.
    Rgb8,
    /// Red, green, blue, alpha, four bytes per pixel.
    Rgba8,
}

impl ChannelLayout {
    /// How many bytes one pixel of this layout occupies.
    pub open spec fn channels_spec(self) -> int {
        match self {
            ChannelLayout::Gray8 => 1,
            ChannelLayout::GrayAlpha8 => 2,
            ChannelLayout::Rgb8 => 3,
            ChannelLayout::Rgba8 => 4,
        }
    }

    /// Executable bytes-per-pixel of this layout.
    pub fn channels(&self) -> (r: usize)
        ensures
            r == self.channels_spec(),
            1 <= r <= 4,
    {
        match self {
            ChannelLayout::Gray8 => 1,
            ChannelLayout::GrayAlpha8 => 2,
            ChannelLayout::Rgb8 => 3,
            ChannelLayout::Rgba8 => 4,
        }
    }
}

/// A decoded raster image.
///
/// `pixels` is row-major, top-to-bottom, left-to-right, with the channels of
/// each pixel interleaved as `layout` describes.
#[derive(Clone, Debug)]
pub struct PixelGrid {
    /// Number of pixel columns.
    pub width: u32,
    /// Number of pixel rows.
    pub height: u32,
    /// The per-pixel channel arrangement.
    pub layout: ChannelLayout,
    /// The raw interleaved samples.
    pub pixels: Vec<u8>,
}

impl PixelGrid {
    /// The structural invariant: the buffer length matches the declared
    /// geometry exactly.
    pub open spec fn wf(self) -> bool {
        self.pixels@.len() == self.width as int * self.height as int * self.layout.channels_spec()
    }

    /// Wraps a raw buffer into a grid, rejecting any buffer whose length
    /// does not match the declared geometry.
    pub fn new(width: u32, height: u32, layout: ChannelLayout, pixels: Vec<u8>) -> (r: Result<PixelGrid, ImageError>)
        ensures
            match r {
                Ok(g) => {
                    &&& g.width == width
                    &&& g.height == height
                    &&& g.layout == layout
                    &&& g.pixels@ == pixels@
                    &&& g.wf()
                },
                Err(e) => {
                    &&& e == ImageError::InvalidParameter
                    &&& pixels@.len() != width as int * height as int * layout.channels_spec()
                },
            },
    {
        let ch = layout.channels();
        proof {
            assert((width as int) * (height as int) * (ch as int) <= 0xffff_ffff * 0xffff_ffff * 4) by (nonlinear_arith)
                requires
                    0 <= width <= 0xffff_ffff,
                    0 <= height <= 0xffff_ffff,
                    0 <= ch <= 4,
            ;
        }
        let need: u128 = (width as u128) * (height as u128) * (ch as u128);
        if (pixels.len() as u128) == need {
            Ok(PixelGrid { width, height, layout, pixels })
        } else {
            Err(ImageError::InvalidParameter)
        }
    }
}

} // verus!
