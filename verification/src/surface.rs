//! A bounds-checked drawing surface over a linear framebuffer.

use crate::colour::{Colour, ColourHandler, Rgb888};
use crate::framebuffer::FramebufferInfo;
use vstd::prelude::*;

verus! {

/// Why a pixel could not be drawn.
#[derive(Clone, Copy, Debug, PartialEq, Eq, Structural)]
pub enum DebugGraphicsDrawError {
    /// The pixel at (`x`, `y`) lies outside the surface.
    BoundsError { x: usize, y: usize },
}

/// A colour to draw at a point. Coordinates are signed. A point is judged by
/// its coordinates converted to `usize`, so that a negative one counts as a
/// very large one.
#[derive(Clone, Copy, Debug, PartialEq, Eq, Structural)]
pub struct Pixel {
    pub x: i32,
    pub y: i32,
    pub colour: Rgb888,
}

/// A framebuffer's pixel memory together with its geometry and channel
/// layout. The surface owns the memory for as long as it lives; every write
/// goes through it.
pub struct DebugGraphicsState<'a> {
    framebuffer: &'a mut [u32],
    info: FramebufferInfo,
    colour_handler: ColourHandler,
}

impl<'a> View for DebugGraphicsState<'a> {
    type V = Seq<u32>;

    /// The pixel words, scanline after scanline, padding included.
    closed spec fn view(&self) -> Seq<u32> {
        self.framebuffer@
    }
}

/// The pixel words after `pixels` were drawn in order onto the `words` of a
/// framebuffer that `info` describes.
pub open spec fn painted(info: FramebufferInfo, words: Seq<u32>, pixels: Seq<Pixel>) -> Seq<u32>
    decreases pixels.len(),
{
    if pixels.len() == 0 {
        words
    } else {
        let last = pixels.last();
        painted(info, words, pixels.drop_last()).update(
            info.index_of(last.x as usize, last.y as usize),
            info.pack(last.colour.r, last.colour.g, last.colour.b),
        )
    }
}

/// How many of `pixels` come before the first that lies outside the
/// framebuffer that `info` describes: all of them, where none does.
pub open spec fn inside_prefix(info: FramebufferInfo, pixels: Seq<Pixel>) -> nat
    decreases pixels.len(),
{
    if pixels.len() == 0 || !info.contains(pixels.first().x as usize, pixels.first().y as usize) {
        0
    } else {
        1 + inside_prefix(info, pixels.drop_first())
    }
}

impl<'a> DebugGraphicsState<'a> {
    /// The geometry and channel layout the surface was made with.
    pub closed spec fn info(&self) -> FramebufferInfo {
        self.info
    }

    /// The description is valid, and the memory has one word for each of
    /// the pixels it describes.
    pub open spec fn wf(&self) -> bool {
        &&& self.info().valid()
        &&& self@.len() == self.info().word_count()
    }

    #[verifier::type_invariant]
    spec fn inv(&self) -> bool {
        &&& self.wf()
        &&& self.colour_handler.wf()
        &&& self.colour_handler.red() == (self.info.red_mask_size, self.info.red_mask_shift)
        &&& self.colour_handler.green() == (self.info.green_mask_size, self.info.green_mask_shift)
        &&& self.colour_handler.blue() == (self.info.blue_mask_size, self.info.blue_mask_shift)
    }

    /// Takes over `framebuffer` as the pixel memory that `info` describes.
    /// Refuses a description that is not valid, and memory of another length
    /// than it describes.
    pub fn new(framebuffer: &'a mut [u32], info: FramebufferInfo) -> (made: Option<
        DebugGraphicsState<'a>,
    >)
        ensures
            made is Some <==> info.valid() && old(framebuffer)@.len() == info.word_count(),
            made matches Some(state) ==> state.wf() && state.info() == info && state@ == old(
                framebuffer,
            )@,
    {
        if !info.is_valid() {
            return None;
        }
        if framebuffer.len() != (info.pitch / 4) * info.height {
            return None;
        }
        Some(
            DebugGraphicsState {
                colour_handler: ColourHandler::from_framebuffer(&info),
                info,
                framebuffer,
            },
        )
    }

    /// Visible pixels per scanline.
    pub fn width(&self) -> (width: usize)
        ensures
            width == self.info().width,
    {
        self.info.width
    }

    /// Number of scanlines.
    pub fn height(&self) -> (height: usize)
        ensures
            height == self.info().height,
    {
        self.info.height
    }

    /// The pixel words, for reading.
    pub fn framebuffer_as_pixel_slice(&self) -> (words: &[u32])
        ensures
            words@ == self@,
    {
        &*self.framebuffer
    }

    /// Packs three channels into a pixel word of this surface.
    pub fn make_colour(&self, red: u8, green: u8, blue: u8) -> (colour: Colour)
        ensures
            colour.0 == self.info().pack(red, green, blue),
    {
        proof {
            use_type_invariant(self);
        }
        self.colour_handler.make_colour(red, green, blue)
    }

    /// Packs an RGB triple into a pixel word of this surface.
    pub fn colour_from_rgb888(&self, p: Rgb888) -> (colour: Colour)
        ensures
            colour.0 == self.info().pack(p.r, p.g, p.b),
    {
        proof {
            use_type_invariant(self);
        }
        self.colour_handler.colour_from_rgb888(p)
    }

    /// Writes `colour` at (`x`, `y`), or refuses a point outside the surface
    /// and leaves the surface as it was.
    pub fn write_pixel(&mut self, x: usize, y: usize, colour: Colour) -> (done: Result<
        (),
        DebugGraphicsDrawError,
    >)
        ensures
            final(self).info() == old(self).info(),
            match done {
                Ok(()) => {
                    &&& old(self).info().contains(x, y)
                    &&& final(self)@ == old(self)@.update(old(self).info().index_of(x, y), colour.0)
                },
                Err(error) => {
                    &&& !old(self).info().contains(x, y)
                    &&& error == (DebugGraphicsDrawError::BoundsError { x, y })
                    &&& final(self)@ == old(self)@
                },
            },
    {
        proof {
            use_type_invariant(&*self);
        }
        if x >= self.info.width || y >= self.info.height {
            return Err(DebugGraphicsDrawError::BoundsError { x, y });
        }
        let stride = self.info.pitch / 4;
        proof {
            lemma_index_in_range(x as int, y as int, stride as int, self.info.height as int);
        }
        self.framebuffer[x + y * stride] = colour.0;
        Ok(())
    }

    /// Draws `pixels` in order, up to the first that lies outside the
    /// surface, which is reported. What was drawn before it stays.
    pub fn draw_iter(&mut self, pixels: &[Pixel]) -> (done: Result<(), DebugGraphicsDrawError>)
        ensures
            final(self).info() == old(self).info(),
            final(self)@ == painted(
                old(self).info(),
                old(self)@,
                pixels@.take(inside_prefix(old(self).info(), pixels@) as int),
            ),
            match done {
                Ok(()) => inside_prefix(old(self).info(), pixels@) == pixels@.len(),
                Err(error) => {
                    let first = inside_prefix(old(self).info(), pixels@) as int;
                    &&& first < pixels@.len()
                    &&& error == (DebugGraphicsDrawError::BoundsError {
                        x: pixels@[first].x as usize,
                        y: pixels@[first].y as usize,
                    })
                },
            },
    {
        let ghost info = self.info;
        let ghost before = self@;
        let mut i: usize = 0;
        proof {
            assert(pixels@.skip(0) =~= pixels@);
        }
        while i < pixels.len()
            invariant
                i <= pixels@.len(),
                info == old(self).info(),
                before == old(self)@,
                self.info == info,
                self@ == painted(info, before, pixels@.take(i as int)),
                inside_prefix(info, pixels@) == i + inside_prefix(info, pixels@.skip(i as int)),
            decreases pixels@.len() - i,
        {
            let pixel = pixels[i];
            let x = #[verifier::truncate]
            (pixel.x as usize);
            let y = #[verifier::truncate]
            (pixel.y as usize);
            let colour = self.colour_from_rgb888(pixel.colour);
            proof {
                assert(pixels@.skip(i as int).drop_first() =~= pixels@.skip(i + 1));
                assert(pixels@.take(i + 1).drop_last() =~= pixels@.take(i as int));
            }
            match self.write_pixel(x, y, colour) {
                Ok(()) => {},
                Err(error) => {
                    return Err(error);
                },
            }
            i += 1;
        }
        proof {
            assert(pixels@.take(i as int) =~= pixels@);
        }
        Ok(())
    }

    /// Fills the surface with `colour`.
    pub fn fill(&mut self, colour: Colour)
        ensures
            final(self).info() == old(self).info(),
            final(self)@ == Seq::new(old(self)@.len(), |i: int| colour.0),
    {
        fill_framebuffer(self, colour);
    }

    /// Width and height in pixels, each cut to 32 bits.
    pub fn size(&self) -> (size: (u32, u32))
        ensures
            size == (self.info().width as u32, self.info().height as u32),
    {
        (#[verifier::truncate]
        (self.info.width as u32), #[verifier::truncate]
        (self.info.height as u32))
    }
}

/// Writes `colour` to every pixel word of the surface, those of the padding
/// at the end of each scanline too.
pub fn fill_framebuffer(state: &mut DebugGraphicsState, colour: Colour)
    ensures
        final(state).info() == old(state).info(),
        final(state)@ == Seq::new(old(state)@.len(), |i: int| colour.0),
{
    let len = state.framebuffer.len();
    let mut i: usize = 0;
    while i < len
        invariant
            i <= len,
            len == state.framebuffer@.len(),
            state.framebuffer@.len() == old(state).framebuffer@.len(),
            state.info == old(state).info,
            state.colour_handler == old(state).colour_handler,
            forall|k: int| 0 <= k < i ==> state.framebuffer@[k] == colour.0,
        decreases len - i,
    {
        proof {
            use_type_invariant(&*state);
        }
        state.framebuffer[i] = colour.0;
        i += 1;
    }
}

/// A pixel with a negative coordinate lies outside every framebuffer whose
/// width and height are below two to the 31.
pub proof fn lemma_negative_lies_outside(info: FramebufferInfo, pixel: Pixel)
    requires
        info.width <= i32::MAX,
        info.height <= i32::MAX,
        pixel.x < 0 || pixel.y < 0,
    ensures
        !info.contains(pixel.x as usize, pixel.y as usize),
{
    let (x, y) = (pixel.x, pixel.y);
    assert(x < 0 ==> (x as usize) > 0x7fff_ffffusize) by (bit_vector);
    assert(y < 0 ==> (y as usize) > 0x7fff_ffffusize) by (bit_vector);
}

/// A point inside a grid of `height` rows of `stride` words has its word
/// inside the grid.
proof fn lemma_index_in_range(x: int, y: int, stride: int, height: int)
    by (nonlinear_arith)
    requires
        0 <= x < stride,
        0 <= y < height,
    ensures
        0 <= y * stride,
        x + y * stride < stride * height,
{
}

} // verus!
