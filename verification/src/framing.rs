//! The byte layout of the ring's records, and what a list of records does
//! when another is appended.
//!
//! A record is a two-byte big-endian header followed by its content. The
//! header holds the record's whole length, itself included. Unused bytes hold
//! the sentinel `0xFF`, so that a header read from them decodes to a length no
//! record can have.

use vstd::prelude::*;

verus! {

/// Bytes a header takes.
pub const HEADER_LEN: usize = 2;

/// The value of every unused byte.
pub const SENTINEL: u8 = 0xff;

/// The longest record a header can describe, header included.
pub const MAX_RECORD_LEN: usize = 0xffff;

/// The length that the header at `pos` declares.
pub open spec fn header_at(bytes: Seq<u8>, pos: int) -> int {
    bytes[pos] as int * 256 + bytes[pos + 1] as int
}

/// The bytes from `pos` up to `end` are whole records, one after another,
/// with nothing left over.
pub open spec fn framed(bytes: Seq<u8>, pos: int, end: int) -> bool
    decreases end - pos,
{
    if pos >= end {
        pos == end
    } else {
        let len = header_at(bytes, pos);
        &&& HEADER_LEN <= len
        &&& pos + len <= end
        &&& framed(bytes, pos + len, end)
    }
}

/// The contents of the records that lie from `pos` up to `end`, first to last.
pub open spec fn records(bytes: Seq<u8>, pos: int, end: int) -> Seq<Seq<u8>>
    decreases end - pos,
{
    let len = header_at(bytes, pos);
    if pos < end && HEADER_LEN <= len && pos + len <= end {
        seq![bytes.subrange(pos + HEADER_LEN, pos + len)] + records(bytes, pos + len, end)
    } else {
        Seq::empty()
    }
}

/// The bytes of one stored record: the header, then the content.
pub open spec fn frame(content: Seq<u8>) -> Seq<u8> {
    let len = content.len() + HEADER_LEN;
    seq![(len / 256) as u8, (len % 256) as u8] + content
}

/// The bytes of a list of stored records, one frame after another.
pub open spec fn encoded(items: Seq<Seq<u8>>) -> Seq<u8>
    decreases items.len(),
{
    if items.len() == 0 {
        Seq::empty()
    } else {
        frame(items.first()) + encoded(items.drop_first())
    }
}

/// Bytes that a list of records takes when stored, headers included.
pub open spec fn stored_len(items: Seq<Seq<u8>>) -> nat
    decreases items.len(),
{
    if items.len() == 0 {
        0
    } else {
        items.first().len() + HEADER_LEN as nat + stored_len(items.drop_first())
    }
}

/// How many of the oldest records go to free at least `need` bytes: as few as
/// free that much, or all of them where even that is not enough.
pub open spec fn evicted(items: Seq<Seq<u8>>, need: int) -> nat
    decreases items.len(),
{
    if need <= 0 || items.len() == 0 {
        0
    } else {
        1 + evicted(items.drop_first(), need - (items.first().len() + HEADER_LEN))
    }
}

/// A record of `content` can be stored in a ring of `capacity` bytes at all.
pub open spec fn fits(content: Seq<u8>, capacity: int) -> bool {
    content.len() + HEADER_LEN <= capacity && content.len() + HEADER_LEN <= MAX_RECORD_LEN
}

/// An append of `content` has to evict first: the ring holds records, and
/// behind them the new one would reach the ring's last byte or beyond.
pub open spec fn needs_eviction(items: Seq<Seq<u8>>, content: Seq<u8>, capacity: int) -> bool {
    items.len() > 0 && stored_len(items) + content.len() + HEADER_LEN >= capacity
}

/// The records held after `content` was appended to a ring of `capacity`
/// bytes that held `items`.
pub open spec fn appended(items: Seq<Seq<u8>>, content: Seq<u8>, capacity: int) -> Seq<Seq<u8>> {
    if needs_eviction(items, content, capacity) {
        items.skip(evicted(items, content.len() + HEADER_LEN) as int).push(content)
    } else {
        items.push(content)
    }
}

/// The records held after each of `texts` in turn was offered to a ring of
/// `capacity` bytes that held `items`: those that fit were appended, the
/// others refused.
pub open spec fn written_all(items: Seq<Seq<u8>>, texts: Seq<Seq<u8>>, capacity: int) -> Seq<
    Seq<u8>,
>
    decreases texts.len(),
{
    if texts.len() == 0 {
        items
    } else if fits(texts.first(), capacity) {
        written_all(appended(items, texts.first(), capacity), texts.drop_first(), capacity)
    } else {
        written_all(items, texts.drop_first(), capacity)
    }
}

/// Every one of `texts`, offered in turn to a ring of `capacity` bytes that
/// holds `items`, fits and is appended without an eviction.
pub open spec fn never_evicts(items: Seq<Seq<u8>>, texts: Seq<Seq<u8>>, capacity: int) -> bool
    decreases texts.len(),
{
    texts.len() > 0 ==> {
        &&& fits(texts.first(), capacity)
        &&& !needs_eviction(items, texts.first(), capacity)
        &&& never_evicts(items.push(texts.first()), texts.drop_first(), capacity)
    }
}

/// What one step of a scan at `pos` finds: nothing more, or a record's
/// content and the position behind it.
///
/// The scan ends where fewer than three bytes are left, and where the header
/// declares less than a header's length or a content longer than the whole
/// buffer, as a header of sentinel bytes does. A record that would run past
/// the buffer's end is cut off there and is the last.
pub open spec fn scan_step(bytes: Seq<u8>, pos: int) -> Option<(Seq<u8>, int)> {
    let capacity = bytes.len() as int;
    let len = header_at(bytes, pos);
    if pos + HEADER_LEN >= capacity {
        None
    } else if len < HEADER_LEN || len - HEADER_LEN > capacity {
        None
    } else if pos + len > capacity {
        Some((bytes.subrange(pos + HEADER_LEN, capacity), capacity))
    } else {
        Some((bytes.subrange(pos + HEADER_LEN, pos + len), pos + len))
    }
}

/// Everything that a scan from `pos` yields, in order.
pub open spec fn scan(bytes: Seq<u8>, pos: int) -> Seq<Seq<u8>>
    decreases bytes.len() - pos,
{
    match scan_step(bytes, pos) {
        Some((content, next)) => seq![content] + scan(bytes, next),
        None => Seq::empty(),
    }
}

/// Every byte of `text` is an ASCII character.
pub open spec fn is_ascii(text: Seq<u8>) -> bool {
    forall|i: int| 0 <= i < text.len() ==> text[i] < 128
}

/// Every one of `items` is ASCII text.
pub open spec fn all_ascii(items: Seq<Seq<u8>>) -> bool {
    forall|i: int| 0 <= i < items.len() ==> #[trigger] is_ascii(items[i])
}

/// Every byte from `from` to the end is the sentinel.
pub open spec fn unused_from(bytes: Seq<u8>, from: int) -> bool {
    forall|i: int| from <= i < bytes.len() ==> bytes[i] == SENTINEL
}

/// Records that lie end to end are framed as a whole, and hold the records
/// of the first stretch followed by those of the second.
pub proof fn lemma_framed_join(bytes: Seq<u8>, pos: int, mid: int, end: int)
    requires
        framed(bytes, pos, mid),
        framed(bytes, mid, end),
    ensures
        framed(bytes, pos, end),
        records(bytes, pos, end) == records(bytes, pos, mid) + records(bytes, mid, end),
    decreases mid - pos,
{
    if pos < mid {
        let len = header_at(bytes, pos);
        lemma_framed_join(bytes, pos + len, mid, end);
        assert(records(bytes, pos, end) == seq![bytes.subrange(pos + 2, pos + len)] + (records(
            bytes,
            pos + len,
            mid,
        ) + records(bytes, mid, end)));
    }
}

/// Framing and contents move with the bytes: where `moved` holds, `by` bytes
/// lower, what `bytes` holds from `pos` up to `end`, it holds the same
/// records there.
pub proof fn lemma_framed_moves(bytes: Seq<u8>, moved: Seq<u8>, by: int, pos: int, end: int)
    requires
        0 <= by <= pos,
        end <= bytes.len(),
        end - by <= moved.len(),
        framed(bytes, pos, end),
        forall|i: int| pos <= i < end ==> moved[i - by] == bytes[i],
    ensures
        framed(moved, pos - by, end - by),
        records(moved, pos - by, end - by) == records(bytes, pos, end),
    decreases end - pos,
{
    if pos < end {
        let len = header_at(bytes, pos);
        assert(moved[pos - by] == bytes[pos]);
        assert(moved[pos + 1 - by] == bytes[pos + 1]);
        lemma_framed_moves(bytes, moved, by, pos + len, end);
        assert(moved.subrange(pos - by + 2, pos - by + len) =~= bytes.subrange(pos + 2, pos + len));
    }
}

/// Framed records take exactly the bytes they lie in.
pub proof fn lemma_framed_stored_len(bytes: Seq<u8>, pos: int, end: int)
    requires
        0 <= pos,
        end <= bytes.len(),
        framed(bytes, pos, end),
    ensures
        stored_len(records(bytes, pos, end)) == end - pos,
    decreases end - pos,
{
    if pos < end {
        let len = header_at(bytes, pos);
        lemma_framed_stored_len(bytes, pos + len, end);
        assert(records(bytes, pos, end).drop_first() =~= records(bytes, pos + len, end));
    }
}

/// Framed bytes are the frames of the records they hold.
pub proof fn lemma_framed_bytes_are_encoded(bytes: Seq<u8>, pos: int, end: int)
    requires
        0 <= pos,
        end <= bytes.len(),
        framed(bytes, pos, end),
    ensures
        bytes.subrange(pos, end) == encoded(records(bytes, pos, end)),
    decreases end - pos,
{
    if pos < end {
        let len = header_at(bytes, pos);
        lemma_framed_bytes_are_encoded(bytes, pos + len, end);
        assert(records(bytes, pos, end).drop_first() =~= records(bytes, pos + len, end));
        assert(bytes.subrange(pos, end) =~= bytes.subrange(pos, pos + len) + bytes.subrange(
            pos + len,
            end,
        ));
    }
}

/// Texts that are all appended without an eviction are all kept, behind
/// what the ring held, in the order in which they came.
pub proof fn lemma_written_all_without_eviction(
    items: Seq<Seq<u8>>,
    texts: Seq<Seq<u8>>,
    capacity: int,
)
    requires
        never_evicts(items, texts, capacity),
    ensures
        written_all(items, texts, capacity) == items + texts,
    decreases texts.len(),
{
    if texts.len() > 0 {
        let text = texts.first();
        lemma_written_all_without_eviction(items.push(text), texts.drop_first(), capacity);
        assert(items.push(text) + texts.drop_first() =~= items + texts);
    } else {
        assert(items + texts =~= items);
    }
}

/// An append that has to evict evicts at least one record.
pub proof fn lemma_eviction_drops_some(items: Seq<Seq<u8>>, content: Seq<u8>, capacity: int)
    requires
        needs_eviction(items, content, capacity),
    ensures
        1 <= evicted(items, content.len() + HEADER_LEN) <= items.len(),
{
    lemma_evicted_at_most_all(items, content.len() + HEADER_LEN);
}

/// Records that together take no more than is asked for are all evicted.
pub proof fn lemma_short_ring_is_emptied(items: Seq<Seq<u8>>, need: int)
    requires
        stored_len(items) <= need,
    ensures
        evicted(items, need) == items.len(),
    decreases items.len(),
{
    if items.len() > 0 {
        lemma_short_ring_is_emptied(
            items.drop_first(),
            need - (items.first().len() + HEADER_LEN),
        );
    }
}

/// An append that has to evict from a ring whose records together take no
/// more than the new one leaves the new one alone in the ring.
pub proof fn lemma_append_to_short_ring(items: Seq<Seq<u8>>, content: Seq<u8>, capacity: int)
    requires
        needs_eviction(items, content, capacity),
        stored_len(items) <= content.len() + HEADER_LEN,
    ensures
        appended(items, content, capacity) == seq![content],
{
    lemma_short_ring_is_emptied(items, content.len() + HEADER_LEN);
    assert(items.skip(items.len() as int).push(content) =~= seq![content]);
}

/// A ring that holds ASCII texts only still does after an ASCII text was
/// appended.
pub proof fn lemma_appended_keeps_ascii(items: Seq<Seq<u8>>, content: Seq<u8>, capacity: int)
    requires
        all_ascii(items),
        is_ascii(content),
    ensures
        all_ascii(appended(items, content, capacity)),
{
    let gone = evicted(items, content.len() + HEADER_LEN) as int;
    lemma_evicted_at_most_all(items, content.len() + HEADER_LEN);
    assert forall|i: int| 0 <= i < items.skip(gone).len() implies is_ascii(
        #[trigger] items.skip(gone)[i],
    ) by {
        assert(is_ascii(items[gone + i]));
    }
}

/// No more records are evicted than there are.
pub proof fn lemma_evicted_at_most_all(items: Seq<Seq<u8>>, need: int)
    ensures
        evicted(items, need) <= items.len(),
    decreases items.len(),
{
    if need > 0 && items.len() > 0 {
        lemma_evicted_at_most_all(items.drop_first(), need - (items.first().len() + HEADER_LEN));
    }
}

/// A scan that reaches the unused bytes at `used` ends there: too few bytes
/// are left for a header, or the buffer is too short for a header of
/// sentinel bytes to pass for a record's.
pub open spec fn scan_ends_at(used: int, capacity: int) -> bool {
    used + HEADER_LEN >= capacity || capacity < MAX_RECORD_LEN - HEADER_LEN
}

/// A scan finds exactly the framed records, where these end before the last
/// byte, the rest is unused, and the scan ends there.
pub proof fn lemma_scan_finds_records(bytes: Seq<u8>, pos: int, end: int)
    requires
        0 <= pos <= end < bytes.len(),
        scan_ends_at(end, bytes.len() as int),
        framed(bytes, pos, end),
        unused_from(bytes, end),
    ensures
        scan(bytes, pos) == records(bytes, pos, end),
    decreases end - pos,
{
    if pos < end {
        lemma_scan_finds_records(bytes, pos + header_at(bytes, pos), end);
    } else if end + HEADER_LEN < bytes.len() {
        assert(bytes[end] == SENTINEL && bytes[end + 1] == SENTINEL);
    }
}

/// Tests whether every byte of `text` is an ASCII character.
pub fn holds_ascii(text: &[u8]) -> (ok: bool)
    ensures
        ok == is_ascii(text@),
{
    let mut i: usize = 0;
    while i < text.len()
        invariant
            i <= text@.len(),
            forall|k: int| 0 <= k < i ==> text@[k] < 128,
        decreases text@.len() - i,
    {
        if text[i] >= 128 {
            return false;
        }
        i += 1;
    }
    true
}

} // verus!
