//! What the firmware reports of a linear framebuffer.

use crate::colour::{channel_valid, packed, MAX_CHANNEL_SHIFT, MAX_CHANNEL_SIZE};
use vstd::prelude::*;

verus! {

/// The description of a linear framebuffer: its geometry and where each
/// colour channel sits inside a 32-bit pixel word.
#[derive(Clone, Copy, Debug, PartialEq, Eq, Structural)]
pub struct FramebufferInfo {
    /// Bytes between the starts of two scanlines.
    pub pitch: usize,
    /// Visible pixels per scanline.
    pub width: usize,
    /// Number of scanlines.
    pub height: usize,
    pub red_mask_size: u8,
    pub red_mask_shift: u8,
    pub green_mask_size: u8,
    pub green_mask_shift: u8,
    pub blue_mask_size: u8,
    pub blue_mask_shift: u8,
}

impl FramebufferInfo {
    /// All three channels are at most 8 bits wide and shifted by at most 31.
    pub open spec fn channels_valid(&self) -> bool {
        &&& channel_valid(self.red_mask_size, self.red_mask_shift)
        &&& channel_valid(self.green_mask_size, self.green_mask_shift)
        &&& channel_valid(self.blue_mask_size, self.blue_mask_shift)
    }

    /// Pixel words per scanline, padding included.
    pub open spec fn stride(&self) -> int {
        self.pitch as int / 4
    }

    /// Pixel words in the whole surface, padding included.
    pub open spec fn word_count(&self) -> int {
        self.stride() * self.height
    }

    /// The channels are valid, a scanline holds `width` pixels, and the
    /// surface's word count fits the address space.
    pub open spec fn valid(&self) -> bool {
        &&& self.channels_valid()
        &&& self.width <= self.stride()
        &&& self.word_count() <= usize::MAX
    }

    /// The point (`x`, `y`) is a visible pixel.
    pub open spec fn contains(&self, x: usize, y: usize) -> bool {
        x < self.width && y < self.height
    }

    /// The position of the pixel (`x`, `y`) among the pixel words.
    pub open spec fn index_of(&self, x: usize, y: usize) -> int {
        x + y * self.stride()
    }

    /// The pixel word that this framebuffer's channel layout gives to a
    /// colour.
    pub open spec fn pack(&self, red: u8, green: u8, blue: u8) -> u32 {
        packed(
            red,
            green,
            blue,
            (self.red_mask_size, self.red_mask_shift),
            (self.green_mask_size, self.green_mask_shift),
            (self.blue_mask_size, self.blue_mask_shift),
        )
    }

    /// Tests `channels_valid`.
    pub fn has_valid_channels(&self) -> (ok: bool)
        ensures
            ok == self.channels_valid(),
    {
        self.red_mask_size <= MAX_CHANNEL_SIZE && self.red_mask_shift <= MAX_CHANNEL_SHIFT
            && self.green_mask_size <= MAX_CHANNEL_SIZE && self.green_mask_shift
            <= MAX_CHANNEL_SHIFT && self.blue_mask_size <= MAX_CHANNEL_SIZE && self.blue_mask_shift
            <= MAX_CHANNEL_SHIFT
    }

    /// Tests `valid`.
    pub fn is_valid(&self) -> (ok: bool)
        ensures
            ok == self.valid(),
    {
        let stride: usize = self.pitch / 4;
        if !self.has_valid_channels() || self.width > stride {
            return false;
        }
        match stride.checked_mul(self.height) {
            Some(_) => true,
            None => false,
        }
    }
}

} // verus!
