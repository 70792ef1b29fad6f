use debug_graphics::framing::holds_ascii;
use debug_graphics::{gdb_pause, TextBuffer, TextBufferIter, TextWritingError};
use std::collections::VecDeque;

fn collect<const CAPACITY: usize>(buffer: &TextBuffer<CAPACITY>) -> Vec<Vec<u8>> {
    let mut iter: TextBufferIter<'_, CAPACITY> = buffer.into_iter();
    let mut found = Vec::new();
    while let Some(text) = iter.next() {
        found.push(text.to_vec());
    }
    found
}

fn texts(items: &[&str]) -> Vec<Vec<u8>> {
    items.iter().map(|item| item.as_bytes().to_vec()).collect()
}

/// What a ring of `capacity` bytes holds after `text` was offered to it.
fn model_write(held: &mut VecDeque<Vec<u8>>, text: &[u8], capacity: usize) -> bool {
    let need = text.len() + 2;
    if need > capacity || need > 65535 {
        return false;
    }
    let used: usize = held.iter().map(|item| item.len() + 2).sum();
    if used + need >= capacity {
        let mut freed = 0;
        while freed < need {
            match held.pop_front() {
                Some(gone) => freed += gone.len() + 2,
                None => break,
            }
        }
    }
    held.push_back(text.to_vec());
    true
}

#[test]
fn new_buffer_is_empty_and_all_sentinel() {
    let buffer = TextBuffer::<16>::new();
    assert_eq!(buffer.cursor(), 0);
    assert!(!buffer.shifted());
    assert_eq!(buffer.as_bytes(), &[0xffu8; 16][..]);
    assert!(collect(&buffer).is_empty());
}

#[test]
fn appended_texts_come_back_in_order() {
    let mut buffer = TextBuffer::<64>::new();
    let wanted = texts(&["Hello", ", ", "world", "\n", "99, 0\n"]);
    for text in &wanted {
        assert_eq!(buffer.write_str(text), Ok(&text[..]));
    }
    assert_eq!(collect(&buffer), wanted);
    assert_eq!(buffer.cursor(), 19 + 2 * 5);
    assert!(!buffer.shifted());
}

#[test]
fn record_is_header_then_content() {
    let mut buffer = TextBuffer::<16>::new();
    buffer.write_str(b"AB").unwrap();
    buffer.write_str(b"xyz").unwrap();
    let mut wanted = vec![0u8, 4, b'A', b'B', 0, 5, b'x', b'y', b'z'];
    wanted.resize(16, 0xff);
    assert_eq!(buffer.as_bytes(), &wanted[..]);
    assert_eq!(buffer.cursor(), 9);
}

#[test]
fn header_is_big_endian() {
    let mut buffer = TextBuffer::<600>::new();
    let text = vec![b'a'; 298];
    buffer.write_str(&text).unwrap();
    assert_eq!(&buffer.as_bytes()[..2], &[1u8, 44][..]);
    assert_eq!(buffer.cursor(), 300);
    assert_eq!(collect(&buffer), vec![text]);
}

#[test]
fn write_hands_back_the_stored_copy() {
    let mut buffer = TextBuffer::<32>::new();
    buffer.write_str(b"first").unwrap();
    let stored = buffer.write_str(b"second").unwrap();
    assert_eq!(stored, b"second");
}

#[test]
fn text_longer_than_capacity_is_refused() {
    let mut buffer = TextBuffer::<8>::new();
    buffer.write_str(b"abc").unwrap();
    let before = buffer.as_bytes().to_vec();
    assert_eq!(buffer.write_str(b"1234567"), Err(TextWritingError::TooLong));
    assert_eq!(buffer.as_bytes(), &before[..]);
    assert_eq!(buffer.cursor(), 5);
    assert!(!buffer.shifted());
    assert_eq!(collect(&buffer), texts(&["abc"]));
}

#[test]
fn text_longer_than_a_header_can_say_is_refused() {
    let mut buffer = TextBuffer::<70000>::new();
    let text = vec![b'a'; 65534];
    assert_eq!(buffer.write_str(&text), Err(TextWritingError::TooLong));
    assert_eq!(buffer.cursor(), 0);
    assert!(buffer.as_bytes().iter().all(|byte| *byte == 0xff));
}

#[test]
fn longest_text_a_header_can_say_is_stored() {
    let mut buffer = TextBuffer::<70000>::new();
    let text = vec![b'a'; 65533];
    assert_eq!(buffer.write_str(&text), Ok(&text[..]));
    assert_eq!(&buffer.as_bytes()[..2], &[0xffu8, 0xff][..]);
    assert_eq!(buffer.cursor(), 65535);
}

#[test]
fn tiny_buffers_refuse_everything() {
    let mut none = TextBuffer::<0>::new();
    assert_eq!(none.write_str(b""), Err(TextWritingError::TooLong));
    assert!(collect(&none).is_empty());
    let mut one = TextBuffer::<1>::new();
    assert_eq!(one.write_str(b""), Err(TextWritingError::TooLong));
    assert!(collect(&one).is_empty());
    assert_eq!(one.as_bytes(), &[0xffu8][..]);
}

#[test]
fn second_text_evicts_the_first() {
    let mut buffer = TextBuffer::<16>::new();
    buffer.write_str(b"AB").unwrap();
    assert_eq!(buffer.cursor(), 4);
    buffer.write_str(b"CDEFGHIJKL").unwrap();
    assert_eq!(collect(&buffer), texts(&["CDEFGHIJKL"]));
    assert!(buffer.shifted());
    assert_eq!(buffer.cursor(), 12);
    let mut wanted = vec![0u8, 12];
    wanted.extend_from_slice(b"CDEFGHIJKL");
    wanted.resize(16, 0xff);
    assert_eq!(buffer.as_bytes(), &wanted[..]);
}

#[test]
fn twelve_byte_text_evicts_the_first() {
    let mut buffer = TextBuffer::<16>::new();
    buffer.write_str(b"AB").unwrap();
    buffer.write_str(b"CDEFGHIJKLMN").unwrap();
    assert_eq!(collect(&buffer), texts(&["CDEFGHIJKLMN"]));
    assert_eq!(buffer.cursor(), 14);
    assert!(buffer.shifted());
}

#[test]
fn eviction_drops_only_as_many_as_needed() {
    let mut buffer = TextBuffer::<32>::new();
    for text in ["aaaa", "bbbb", "cccc", "dddd", "eeee"] {
        buffer.write_str(text.as_bytes()).unwrap();
    }
    assert_eq!(buffer.cursor(), 30);
    assert!(!buffer.shifted());
    buffer.write_str(b"ffffff").unwrap();
    assert_eq!(collect(&buffer), texts(&["cccc", "dddd", "eeee", "ffffff"]));
    assert_eq!(buffer.cursor(), 26);
    assert!(buffer.as_bytes()[26..].iter().all(|byte| *byte == 0xff));
    assert!(buffer.shifted());
}

#[test]
fn eviction_starts_when_the_last_byte_would_be_reached() {
    let mut buffer = TextBuffer::<10>::new();
    buffer.write_str(b"abc").unwrap();
    buffer.write_str(b"d").unwrap();
    assert!(!buffer.shifted());
    assert_eq!(buffer.cursor(), 8);
    let mut other = TextBuffer::<10>::new();
    other.write_str(b"abc").unwrap();
    other.write_str(b"def").unwrap();
    assert!(other.shifted());
    assert_eq!(collect(&other), texts(&["def"]));
}

#[test]
fn text_of_the_whole_capacity_is_stored_alone() {
    let mut buffer = TextBuffer::<16>::new();
    buffer.write_str(b"AB").unwrap();
    buffer.write_str(b"0123456789abcd").unwrap();
    assert_eq!(buffer.cursor(), 16);
    assert!(buffer.shifted());
    assert_eq!(collect(&buffer), texts(&["0123456789abcd"]));
    buffer.write_str(b"z").unwrap();
    assert_eq!(collect(&buffer), texts(&["z"]));
    assert_eq!(buffer.cursor(), 3);
}

#[test]
fn empty_text_is_a_record() {
    let mut buffer = TextBuffer::<8>::new();
    buffer.write_str(b"").unwrap();
    buffer.write_str(b"a").unwrap();
    assert_eq!(collect(&buffer), texts(&["", "a"]));
    assert_eq!(&buffer.as_bytes()[..5], &[0u8, 2, 0, 3, b'a'][..]);
}

#[test]
fn two_byte_buffer_yields_nothing() {
    let mut buffer = TextBuffer::<2>::new();
    assert_eq!(buffer.write_str(b""), Ok(&b""[..]));
    assert_eq!(buffer.cursor(), 2);
    assert_eq!(buffer.as_bytes(), &[0u8, 2][..]);
    assert!(!buffer.shifted());
    assert!(collect(&buffer).is_empty());
}

#[test]
fn text_of_the_whole_capacity_shifts_nothing_in_an_empty_buffer() {
    let mut buffer = TextBuffer::<16>::new();
    assert_eq!(buffer.write_str(b"0123456789abcd"), Ok(&b"0123456789abcd"[..]));
    assert_eq!(buffer.cursor(), 16);
    assert!(!buffer.shifted());
    assert_eq!(collect(&buffer), texts(&["0123456789abcd"]));
    buffer.write_str(b"z").unwrap();
    assert!(buffer.shifted());
    assert_eq!(collect(&buffer), texts(&["z"]));
}

#[test]
fn text_that_reaches_the_last_byte_shifts_nothing_in_an_empty_buffer() {
    let mut buffer = TextBuffer::<16>::new();
    buffer.write_str(b"0123456789abc").unwrap();
    assert_eq!(buffer.cursor(), 15);
    assert!(!buffer.shifted());
    buffer.write_str(b"").unwrap();
    assert!(buffer.shifted());
    assert_eq!(collect(&buffer), texts(&[""]));
    assert_eq!(buffer.cursor(), 2);
}

#[test]
fn shifted_stays_once_set() {
    let mut buffer = TextBuffer::<10>::new();
    buffer.write_str(b"abc").unwrap();
    buffer.write_str(b"def").unwrap();
    assert!(buffer.shifted());
    buffer.write_str(b"g").unwrap();
    assert!(buffer.shifted());
    assert_eq!(buffer.write_str(b"0123456789"), Err(TextWritingError::TooLong));
    assert!(buffer.shifted());
    assert_eq!(collect(&buffer), texts(&["def", "g"]));
}

#[test]
fn removing_to_fit_drops_the_oldest_that_free_enough() {
    let mut buffer = TextBuffer::<32>::new();
    for text in ["aaaa", "bb", "cccc", "d"] {
        buffer.write_str(text.as_bytes()).unwrap();
    }
    assert_eq!(buffer.cursor(), 19);
    buffer.remove_to_fit(7);
    assert_eq!(collect(&buffer), texts(&["cccc", "d"]));
    assert_eq!(buffer.cursor(), 9);
    assert!(buffer.shifted());
    let mut wanted = vec![0u8, 6, b'c', b'c', b'c', b'c', 0, 3, b'd'];
    wanted.resize(32, 0xff);
    assert_eq!(buffer.as_bytes(), &wanted[..]);
    buffer.remove_to_fit(6);
    assert_eq!(collect(&buffer), texts(&["d"]));
    assert_eq!(buffer.cursor(), 3);
}

#[test]
fn removing_to_fit_more_than_is_held_drops_everything() {
    let mut buffer = TextBuffer::<16>::new();
    buffer.write_str(b"AB").unwrap();
    buffer.write_str(b"CD").unwrap();
    buffer.remove_to_fit(12);
    assert_eq!(buffer.cursor(), 0);
    assert_eq!(buffer.as_bytes(), &[0xffu8; 16][..]);
    assert!(buffer.shifted());
    assert!(collect(&buffer).is_empty());
    buffer.remove_to_fit(16);
    assert_eq!(buffer.cursor(), 0);
    assert_eq!(buffer.as_bytes(), &[0xffu8; 16][..]);
}

#[test]
fn removing_to_fit_nothing_drops_nothing() {
    let mut buffer = TextBuffer::<16>::new();
    buffer.write_str(b"AB").unwrap();
    let before = buffer.as_bytes().to_vec();
    buffer.remove_to_fit(0);
    assert_eq!(buffer.as_bytes(), &before[..]);
    assert_eq!(buffer.cursor(), 4);
    assert!(!buffer.shifted());
    assert_eq!(collect(&buffer), texts(&["AB"]));
    let mut fresh = TextBuffer::<16>::new();
    fresh.remove_to_fit(5);
    assert_eq!(fresh.cursor(), 0);
    assert!(!fresh.shifted());
    assert_eq!(fresh.as_bytes(), &[0xffu8; 16][..]);
}

#[test]
fn ascii_is_every_byte_below_128() {
    assert!(holds_ascii(b""));
    assert!(holds_ascii(b"Hello, 99\n\x00\x7f"));
    assert!(holds_ascii(&[0, 127]));
    assert!(!holds_ascii(&[128]));
    assert!(!holds_ascii(&[b'a', b'b', 0xff]));
    assert!(!holds_ascii("na\u{ef}ve".as_bytes()));
}

#[test]
fn scans_never_yield_a_cut_record() {
    let mut buffer = TextBuffer::<40>::new();
    let mut held = VecDeque::new();
    let mut seed: u32 = 12345;
    for round in 0..500 {
        seed = seed.wrapping_mul(1664525).wrapping_add(1013904223);
        let len = (seed >> 16) as usize % 45;
        let text: Vec<u8> = (0..len).map(|at| b'a' + ((round + at) % 26) as u8).collect();
        let kept = model_write(&mut held, &text, 40);
        assert_eq!(buffer.write_str(&text).is_ok(), kept);
        let wanted: Vec<Vec<u8>> = held.iter().cloned().collect();
        assert_eq!(collect(&buffer), wanted);
        let used: usize = wanted.iter().map(|item| item.len() + 2).sum();
        assert_eq!(buffer.cursor(), used);
        assert!(buffer.as_bytes()[used..].iter().all(|byte| *byte == 0xff));
    }
    assert!(buffer.shifted());
}

#[test]
fn scanning_twice_yields_the_same() {
    let mut buffer = TextBuffer::<24>::new();
    for text in ["one", "two", "three", "four", "five"] {
        buffer.write_str(text.as_bytes()).unwrap();
    }
    let first = collect(&buffer);
    let second = collect(&buffer);
    assert_eq!(first, second);
    assert_eq!(first, texts(&["three", "four", "five"]));
}

#[test]
fn ended_scan_stays_ended() {
    let mut buffer = TextBuffer::<24>::new();
    buffer.write_str(b"only").unwrap();
    let mut iter = buffer.into_iter();
    assert_eq!(iter.next(), Some(&b"only"[..]));
    assert_eq!(iter.next(), None);
    assert_eq!(iter.next(), None);
}

#[test]
fn sentinel_ends_a_scan_up_to_65532_bytes() {
    let buffer = TextBuffer::<65532>::new();
    assert!(collect(&buffer).is_empty());
}

#[test]
fn sentinel_passes_for_a_record_from_65533_bytes() {
    let buffer = TextBuffer::<65533>::new();
    assert_eq!(collect(&buffer), vec![vec![0xffu8; 65531]]);
}

#[test]
fn pause_hands_its_argument_back() {
    assert_eq!(gdb_pause(7u8), 7);
    assert_eq!(gdb_pause("text"), "text");
    gdb_pause(());
}
