//! Packing of 8-bit RGB channels into a framebuffer's native 32-bit pixel.

use crate::framebuffer::FramebufferInfo;
use vstd::arithmetic::power2::pow2;
use vstd::bits::{lemma_u32_pow2_no_overflow, lemma_u32_shl_is_mul};
use vstd::prelude::*;

verus! {

/// The alpha byte of every packed pixel: fully opaque.
pub const OPAQUE_ALPHA: u32 = 0xff00_0000;

/// The widest channel a layout may describe, in bits.
pub const MAX_CHANNEL_SIZE: u8 = 8;

/// The highest bit position a channel may be shifted to.
pub const MAX_CHANNEL_SHIFT: u8 = 31;

/// A pixel word in the framebuffer's native encoding.
#[derive(Clone, Copy, Debug, PartialEq, Eq, Structural)]
pub struct Colour(pub u32);

/// A colour as three 8-bit channels.
#[derive(Clone, Copy, Debug, PartialEq, Eq, Structural)]
pub struct Rgb888 {
    pub r: u8,
    pub g: u8,
    pub b: u8,
}

/// A channel of `size` bits placed `shift` bits up fits the rules of a layout.
pub open spec fn channel_valid(size: u8, shift: u8) -> bool {
    size <= MAX_CHANNEL_SIZE && shift <= MAX_CHANNEL_SHIFT
}

/// `value` cut down to its `mask_size` low bits.
pub open spec fn masked(value: u8, mask_size: u8) -> u32 {
    (value as u32) & (((1u32 << (mask_size as u32)) - 1) as u32)
}

/// The pixel word for the channels `red`, `green`, `blue` under a layout given
/// as one (size, shift) pair per channel.
pub open spec fn packed(
    red: u8,
    green: u8,
    blue: u8,
    red_layout: (u8, u8),
    green_layout: (u8, u8),
    blue_layout: (u8, u8),
) -> u32 {
    (masked(red, red_layout.0) << (red_layout.1 as u32)) | (masked(green, green_layout.0) << (
    green_layout.1 as u32)) | (masked(blue, blue_layout.0) << (blue_layout.1 as u32))
        | OPAQUE_ALPHA
}

/// The channel of `layout` read back out of the pixel word `word`.
pub open spec fn unpacked(word: u32, layout: (u8, u8)) -> u32 {
    (word >> (layout.1 as u32)) & (((1u32 << (layout.0 as u32)) - 1) as u32)
}

/// The bits of the channel `first` lie wholly below or wholly above those of
/// `second`.
pub open spec fn channels_apart(first: (u8, u8), second: (u8, u8)) -> bool {
    first.1 + first.0 <= second.1 || second.1 + second.0 <= first.1
}

/// The channel layout of a framebuffer, captured once.
#[derive(Clone, Copy, Debug, PartialEq, Eq, Structural)]
pub struct ColourHandler {
    red_size: u8,
    green_size: u8,
    blue_size: u8,
    red_shift: u8,
    green_shift: u8,
    blue_shift: u8,
}

/// Keeps the `mask_size` low bits of `value`.
pub fn mask_colour(value: u8, mask_size: u8) -> (kept: u32)
    requires
        mask_size < 32,
    ensures
        kept == masked(value, mask_size),
{
    assert((1u32 << (mask_size as u32)) >= 1) by (bit_vector)
        requires
            mask_size < 32,
    ;
    (value as u32) & ((1u32 << (mask_size as u32)) - 1)
}

impl ColourHandler {
    /// The (size, shift) pair of the red channel.
    pub closed spec fn red(&self) -> (u8, u8) {
        (self.red_size, self.red_shift)
    }

    /// The (size, shift) pair of the green channel.
    pub closed spec fn green(&self) -> (u8, u8) {
        (self.green_size, self.green_shift)
    }

    /// The (size, shift) pair of the blue channel.
    pub closed spec fn blue(&self) -> (u8, u8) {
        (self.blue_size, self.blue_shift)
    }

    /// Every channel is at most 8 bits wide and shifted by at most 31. Holds
    /// of every handler that exists at run time.
    #[verifier::type_invariant]
    pub open spec fn wf(&self) -> bool {
        &&& channel_valid(self.red().0, self.red().1)
        &&& channel_valid(self.green().0, self.green().1)
        &&& channel_valid(self.blue().0, self.blue().1)
    }

    /// No two channels share a bit, and none reaches into the alpha byte.
    pub open spec fn channels_disjoint(&self) -> bool {
        &&& channels_apart(self.red(), self.green())
        &&& channels_apart(self.red(), self.blue())
        &&& channels_apart(self.green(), self.blue())
        &&& self.red().1 + self.red().0 <= 24
        &&& self.green().1 + self.green().0 <= 24
        &&& self.blue().1 + self.blue().0 <= 24
    }

    /// The pixel word this layout gives to a colour.
    pub open spec fn pack(&self, red: u8, green: u8, blue: u8) -> u32 {
        packed(red, green, blue, self.red(), self.green(), self.blue())
    }

    /// Captures the channel layout that `framebuffer` reports.
    pub fn from_framebuffer(framebuffer: &FramebufferInfo) -> (handler: ColourHandler)
        requires
            framebuffer.channels_valid(),
        ensures
            handler.wf(),
            handler.red() == (framebuffer.red_mask_size, framebuffer.red_mask_shift),
            handler.green() == (framebuffer.green_mask_size, framebuffer.green_mask_shift),
            handler.blue() == (framebuffer.blue_mask_size, framebuffer.blue_mask_shift),
    {
        ColourHandler {
            red_size: framebuffer.red_mask_size,
            green_size: framebuffer.green_mask_size,
            blue_size: framebuffer.blue_mask_size,
            red_shift: framebuffer.red_mask_shift,
            green_shift: framebuffer.green_mask_shift,
            blue_shift: framebuffer.blue_mask_shift,
        }
    }

    /// Packs three channels into one opaque pixel word.
    pub fn make_colour(&self, red: u8, green: u8, blue: u8) -> (colour: Colour)
        ensures
            colour.0 == self.pack(red, green, blue),
    {
        proof {
            use_type_invariant(self);
        }
        Colour(
            (mask_colour(red, self.red_size) << (self.red_shift as u32)) | (mask_colour(
                green,
                self.green_size,
            ) << (self.green_shift as u32)) | (mask_colour(blue, self.blue_size) << (
            self.blue_shift as u32)) | OPAQUE_ALPHA,
        )
    }

    /// Packs an RGB triple into one opaque pixel word.
    pub fn colour_from_rgb888(&self, p: Rgb888) -> (colour: Colour)
        ensures
            colour.0 == self.pack(p.r, p.g, p.b),
    {
        self.make_colour(p.r, p.g, p.b)
    }
}

/// Masking is the remainder of the value modulo two to the channel's width.
pub proof fn lemma_mask_is_remainder(value: u8, mask_size: u8)
    requires
        mask_size < 32,
    ensures
        masked(value, mask_size) == value as nat % pow2(mask_size as nat),
{
    let bits = mask_size as u32;
    lemma_u32_pow2_no_overflow(bits as nat);
    lemma_u32_shl_is_mul(1u32, bits);
    assert((value as u32) & (((1u32 << bits) - 1) as u32) == (value as u32) % (1u32 << bits))
        by (bit_vector)
        requires
            bits < 32,
    ;
}

/// Masking changes no value that already fits the channel's width.
pub proof fn lemma_mask_keeps_fitting_value(value: u8, mask_size: u8)
    requires
        mask_size < 32,
        value < pow2(mask_size as nat),
    ensures
        masked(value, mask_size) == value,
{
    lemma_mask_is_remainder(value, mask_size);
    vstd::arithmetic::div_mod::lemma_small_mod(value as nat, pow2(mask_size as nat));
}

/// Each channel of a packed pixel reads back as the masked value that went
/// in, and the top byte as fully opaque, when the layout's channels share no
/// bit with each other or with the alpha byte.
pub proof fn lemma_pack_keeps_each_channel(handler: ColourHandler, red: u8, green: u8, blue: u8)
    requires
        handler.wf(),
        handler.channels_disjoint(),
    ensures
        unpacked(handler.pack(red, green, blue), handler.red()) == masked(red, handler.red().0),
        unpacked(handler.pack(red, green, blue), handler.green()) == masked(
            green,
            handler.green().0,
        ),
        unpacked(handler.pack(red, green, blue), handler.blue()) == masked(blue, handler.blue().0),
        handler.pack(red, green, blue) >> 24 == 0xffu32,
{
    let (rs, rh) = (handler.red().0 as u32, handler.red().1 as u32);
    let (gs, gh) = (handler.green().0 as u32, handler.green().1 as u32);
    let (bs, bh) = (handler.blue().0 as u32, handler.blue().1 as u32);
    let r = masked(red, handler.red().0);
    let g = masked(green, handler.green().0);
    let b = masked(blue, handler.blue().0);
    lemma_channel_fits(red, handler.red().0);
    lemma_channel_fits(green, handler.green().0);
    lemma_channel_fits(blue, handler.blue().0);
    let (x, y, z) = (r << rh, g << gh, b << bh);
    lemma_channel_reads_back(r, rs, rh, g, gs, gh, b, bs, bh);
    assert(y | x | z | 0xff00_0000u32 == x | y | z | 0xff00_0000u32) by (bit_vector);
    lemma_channel_reads_back(g, gs, gh, r, rs, rh, b, bs, bh);
    assert(z | x | y | 0xff00_0000u32 == x | y | z | 0xff00_0000u32) by (bit_vector);
    lemma_channel_reads_back(b, bs, bh, r, rs, rh, g, gs, gh);
}

/// A masked value has no bit at or above the channel's width.
proof fn lemma_channel_fits(value: u8, mask_size: u8)
    requires
        mask_size <= 8,
    ensures
        masked(value, mask_size) >> (mask_size as u32) == 0,
{
    let bits = mask_size as u32;
    let wide = value as u32;
    assert((wide & (((1u32 << bits) - 1) as u32)) >> bits == 0) by (bit_vector)
        requires
            bits <= 8,
    ;
}

/// The channel `a` reads back out of a word that also holds the channels `b`
/// and `c` and the alpha byte, when `a` shares no bit with any of them.
proof fn lemma_channel_reads_back(
    a: u32,
    a_size: u32,
    a_shift: u32,
    b: u32,
    b_size: u32,
    b_shift: u32,
    c: u32,
    c_size: u32,
    c_shift: u32,
)
    requires
        a_size <= 8 && b_size <= 8 && c_size <= 8,
        a_shift + a_size <= 24 && b_shift + b_size <= 24 && c_shift + c_size <= 24,
        a >> a_size == 0 && b >> b_size == 0 && c >> c_size == 0,
        a_shift + a_size <= b_shift || b_shift + b_size <= a_shift,
        a_shift + a_size <= c_shift || c_shift + c_size <= a_shift,
    ensures
        (((a << a_shift) | (b << b_shift) | (c << c_shift) | 0xff00_0000u32) >> a_shift) & (((1u32
            << a_size) - 1) as u32) == a,
        ((a << a_shift) | (b << b_shift) | (c << c_shift) | 0xff00_0000u32) >> 24 == 0xffu32,
{
    assert((((a << a_shift) | (b << b_shift) | (c << c_shift) | 0xff00_0000u32) >> a_shift) & (((
    1u32 << a_size) - 1) as u32) == a && ((a << a_shift) | (b << b_shift) | (c << c_shift)
        | 0xff00_0000u32) >> 24 == 0xffu32) by (bit_vector)
        requires
            a_size <= 8 && b_size <= 8 && c_size <= 8,
            a_shift + a_size <= 24 && b_shift + b_size <= 24 && c_shift + c_size <= 24,
            a >> a_size == 0 && b >> b_size == 0 && c >> c_size == 0,
            a_shift + a_size <= b_shift || b_shift + b_size <= a_shift,
            a_shift + a_size <= c_shift || c_shift + c_size <= a_shift,
    ;
}

} // verus!
