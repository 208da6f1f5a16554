//! Masks: one byte of coverage per pixel.
use vstd::prelude::*;

use crate::geom::IntSize;
use crate::geom::ScreenIntRect;

verus! {

/// A part of a mask.
#[derive(Clone, Copy)]
pub struct SubMaskRef<'a> {
    /// The bytes of the mask, from the part's first one on.
    pub data: &'a [u8],
    /// The size of the part.
    pub size: IntSize,
    /// The number of bytes between the starts of two rows.
    pub real_width: usize,
}

impl<'a> SubMaskRef<'a> {
    /// Returns how a pipeline finds the bytes of the part.
    pub fn mask_ctx(&self) -> (r: MaskCtx<'a>)
        ensures
            r == (MaskCtx { data: self.data, real_width: self.real_width }),
    {
        MaskCtx { data: self.data, real_width: self.real_width }
    }
}

/// How a pipeline finds the bytes of a mask.
#[derive(Clone, Copy)]
pub struct MaskCtx<'a> {
    pub data: &'a [u8],
    /// The number of bytes between the starts of two rows.
    pub real_width: usize,
}

impl<'a> MaskCtx<'a> {
    /// Whether this is what a pipeline gets of a mask, or of there being none.
    pub open spec fn of(self, mask: Option<SubMaskRef<'a>>) -> bool {
        match mask {
            Some(mask) => self.data == mask.data && self.real_width == mask.real_width,
            None => self.data@.len() == 0 && self.real_width == 0,
        }
    }
}

impl<'a> Default for MaskCtx<'a> {
    fn default() -> (r: Self)
        ensures
            r.of(None),
    {
        MaskCtx { data: &[], real_width: 0 }
    }
}

/// A part of a mask that can be written to.
pub struct SubMaskMut<'a> {
    /// The bytes of the mask, from the part's first one on.
    pub data: &'a mut [u8],
    /// The size of the part.
    pub size: IntSize,
    /// The number of bytes between the starts of two rows.
    pub real_width: usize,
}

/// A mask of one or two bytes.
#[derive(Clone, Copy)]
pub struct Mask {
    pub image: [u8; 2],
    pub bounds: ScreenIntRect,
    pub row_bytes: u32,
}

/// How a pipeline finds the bytes of a mask of one or two bytes.
#[derive(Clone, Copy)]
pub struct AAMaskCtx {
    pub pixels: [u8; 2],
    /// The number of bytes between the starts of two rows.
    pub stride: u32,
    /// The distance of the mask's first byte from the byte that the top left corner of
    /// the screen would have.
    pub shift: usize,
}

impl AAMaskCtx {
    /// Whether this is the context of a pipeline that has no such mask.
    pub open spec fn none(self) -> bool {
        self.pixels@ == seq![0u8, 0u8] && self.stride == 0 && self.shift == 0
    }
}

impl Default for AAMaskCtx {
    fn default() -> (r: Self)
        ensures
            r.none(),
    {
        AAMaskCtx { pixels: [0, 0], stride: 0, shift: 0 }
    }
}

} // verus!
