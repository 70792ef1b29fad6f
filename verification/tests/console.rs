use debug_graphics::console::{GLYPH_WIDTH, LEFT_MARGIN, LINE_HEIGHT, MAX_LINE_WIDTH};
use debug_graphics::{TextBuffer, TextCursor, TextOrigin};

#[test]
fn pen_starts_at_the_margin_of_the_first_line() {
    let pen = TextCursor::new();
    assert_eq!(pen.x(), 9);
    assert_eq!(pen.line_no(), 0);
    assert_eq!((GLYPH_WIDTH, LINE_HEIGHT, LEFT_MARGIN, MAX_LINE_WIDTH), (9, 18, 9, 1000));
}

#[test]
fn text_moves_the_pen_by_its_glyphs() {
    let mut pen = TextCursor::new();
    assert_eq!(pen.place(b"Hello"), Some(TextOrigin { x: 9, y: 18 }));
    assert_eq!((pen.x(), pen.line_no()), (54, 0));
    assert_eq!(pen.place(b", "), Some(TextOrigin { x: 54, y: 18 }));
    assert_eq!((pen.x(), pen.line_no()), (72, 0));
}

#[test]
fn newline_moves_the_pen_to_the_next_line() {
    let mut pen = TextCursor::new();
    pen.place(b"abc").unwrap();
    assert_eq!(pen.place(b"99, 0\n"), Some(TextOrigin { x: 36, y: 18 }));
    assert_eq!((pen.x(), pen.line_no()), (9, 1));
    assert_eq!(pen.place(b"\n"), Some(TextOrigin { x: 9, y: 36 }));
    assert_eq!((pen.x(), pen.line_no()), (9, 2));
    assert_eq!(pen.place(b"x"), Some(TextOrigin { x: 9, y: 54 }));
}

#[test]
fn newline_inside_a_text_ends_no_line() {
    let mut pen = TextCursor::new();
    pen.place(b"a\nb").unwrap();
    assert_eq!((pen.x(), pen.line_no()), (36, 0));
}

#[test]
fn empty_text_leaves_the_pen() {
    let mut pen = TextCursor::new();
    pen.place(b"ab").unwrap();
    assert_eq!(pen.place(b""), Some(TextOrigin { x: 27, y: 18 }));
    assert_eq!((pen.x(), pen.line_no()), (27, 0));
}

#[test]
fn pen_wraps_once_beyond_the_line_width() {
    let mut pen = TextCursor::new();
    pen.place(&[b'a'; 110]).unwrap();
    assert_eq!((pen.x(), pen.line_no()), (999, 0));
    assert_eq!(pen.place(b"b"), Some(TextOrigin { x: 999, y: 18 }));
    assert_eq!((pen.x(), pen.line_no()), (9, 1));
    let mut other = TextCursor::new();
    assert_eq!(other.place(&[b'a'; 111]), Some(TextOrigin { x: 9, y: 18 }));
    assert_eq!((other.x(), other.line_no()), (9, 1));
}

#[test]
fn very_long_text_wraps_once() {
    let mut pen = TextCursor::new();
    let text = vec![b'a'; 65533];
    assert_eq!(pen.place(&text), Some(TextOrigin { x: 9, y: 18 }));
    assert_eq!((pen.x(), pen.line_no()), (9, 1));
}

#[test]
fn records_of_a_buffer_are_placed_line_by_line() {
    let mut buffer = TextBuffer::<64>::new();
    for text in ["Hello", ", ", "99\n", "Hello", ", ", "98\n"] {
        buffer.write_str(text.as_bytes()).unwrap();
    }
    let mut pen = TextCursor::new();
    let mut iter = buffer.into_iter();
    let mut origins = Vec::new();
    while let Some(text) = iter.next() {
        origins.push(pen.place(text).unwrap());
    }
    let wanted: Vec<TextOrigin> = [(9, 18), (54, 18), (72, 18), (9, 36), (54, 36), (72, 36)]
        .iter()
        .map(|at| TextOrigin { x: at.0, y: at.1 })
        .collect();
    assert_eq!(origins, wanted);
    assert_eq!((pen.x(), pen.line_no()), (9, 2));
}
