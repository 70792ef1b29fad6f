//! Where the records of a text buffer go on the screen: a pen that moves
//! along fixed-size glyph cells, line by line.

use vstd::prelude::*;

verus! {

/// Width of a glyph cell in pixels.
pub const GLYPH_WIDTH: usize = 9;

/// Height of a line in pixels.
pub const LINE_HEIGHT: usize = 18;

/// Where every line starts, in pixels from the left edge.
pub const LEFT_MARGIN: usize = 9;

/// The pen wraps to the next line once it has moved beyond this.
pub const MAX_LINE_WIDTH: usize = 1000;

/// The byte that ends a line.
pub const NEWLINE: u8 = 10;

/// The point at which a record is drawn.
#[derive(Clone, Copy, Debug, PartialEq, Eq, Structural)]
pub struct TextOrigin {
    pub x: usize,
    pub y: usize,
}

/// The pen: how far along the line it stands, and on which line.
#[derive(Clone, Copy, Debug, PartialEq, Eq, Structural)]
pub struct TextCursor {
    x: usize,
    line_no: usize,
}

/// The last byte of `text` is a newline.
pub open spec fn ends_line(text: Seq<u8>) -> bool {
    text.len() > 0 && text.last() == NEWLINE
}

/// Where the pen stands after `text` was drawn at (`x`, `line`): at the
/// start of the next line where the text ends in a newline or has carried
/// the pen beyond the line's width, else behind the text's last glyph.
pub open spec fn pen_after(x: int, line: int, text: Seq<u8>) -> (int, int) {
    if ends_line(text) || x + GLYPH_WIDTH * text.len() > MAX_LINE_WIDTH {
        (LEFT_MARGIN as int, line + 1)
    } else {
        (x + GLYPH_WIDTH * text.len(), line)
    }
}

/// The vertical position of what is drawn on `line`.
pub open spec fn line_position(line: int) -> int {
    (line + 1) * LINE_HEIGHT
}

impl View for TextCursor {
    type V = (int, int);

    /// The pen's horizontal position in pixels, and its line.
    closed spec fn view(&self) -> (int, int) {
        (self.x as int, self.line_no as int)
    }
}

impl TextCursor {
    #[verifier::type_invariant]
    spec fn on_the_line(&self) -> bool {
        LEFT_MARGIN <= self.x <= MAX_LINE_WIDTH
    }

    /// A pen at the start of the first line.
    pub fn new() -> (pen: TextCursor)
        ensures
            pen@ == (LEFT_MARGIN as int, 0int),
    {
        TextCursor { x: LEFT_MARGIN, line_no: 0 }
    }

    /// The pen's horizontal position in pixels.
    pub fn x(&self) -> (x: usize)
        ensures
            x == self@.0,
    {
        self.x
    }

    /// The line the pen is on, the first being 0.
    pub fn line_no(&self) -> (line: usize)
        ensures
            line == self@.1,
    {
        self.line_no
    }

    /// Says where `text` is to be drawn and moves the pen behind it.
    ///
    /// Gives nothing, and leaves the pen where it is, on a line so far down
    /// that no position can express it.
    pub fn place(&mut self, text: &[u8]) -> (origin: Option<TextOrigin>)
        ensures
            match origin {
                Some(at) => {
                    &&& at.x == old(self)@.0
                    &&& at.y == line_position(old(self)@.1)
                    &&& final(self)@ == pen_after(old(self)@.0, old(self)@.1, text@)
                },
                None => line_position(old(self)@.1) > usize::MAX && final(self)@ == old(self)@,
            },
    {
        proof {
            use_type_invariant(&*self);
        }
        if self.line_no >= usize::MAX / LINE_HEIGHT {
            return None;
        }
        let origin = TextOrigin { x: self.x, y: (self.line_no + 1) * LINE_HEIGHT };
        let len = text.len();
        if (len > 0 && text[len - 1] == NEWLINE) || len > (MAX_LINE_WIDTH - self.x) / GLYPH_WIDTH {
            self.line_no += 1;
            self.x = LEFT_MARGIN;
        } else {
            self.x += GLYPH_WIDTH * len;
        }
        Some(origin)
    }
}

} // verus!
