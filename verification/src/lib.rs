//! An allocation-free text console for early boot: a fixed-capacity ring of
//! length-prefixed text records, a packer from RGB triples to the
//! framebuffer's native pixel words, and a bounds-checked pixel surface.

pub mod colour;
pub mod console;
pub mod framebuffer;
pub mod framing;
pub mod surface;
pub mod text_buffer;

pub use colour::{mask_colour, Colour, ColourHandler, Rgb888};
pub use console::{TextCursor, TextOrigin};
pub use framebuffer::FramebufferInfo;
pub use surface::{fill_framebuffer, DebugGraphicsDrawError, DebugGraphicsState, Pixel};
pub use text_buffer::{gdb_pause, TextBuffer, TextBufferIter, TextWritingError};
