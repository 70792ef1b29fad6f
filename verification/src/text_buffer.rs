//! A fixed-capacity ring of text records that evicts the oldest on overflow.

use crate::framing::{
    appended, encoded, evicted, framed, header_at, lemma_framed_bytes_are_encoded,
    lemma_framed_join, lemma_framed_moves, lemma_framed_stored_len, lemma_scan_finds_records,
    lemma_written_all_without_eviction, needs_eviction, never_evicts, records, scan,
    scan_ends_at, stored_len, unused_from, written_all, HEADER_LEN, MAX_RECORD_LEN, SENTINEL,
};
use vstd::prelude::*;

verus! {

/// Records shorter than this, header included, pass through the diagnostic
/// hook before they are stored.
pub const PAUSE_BELOW: usize = 10;

/// Why a text could not be stored.
#[derive(Clone, Copy, Debug, PartialEq, Eq, Structural)]
pub enum TextWritingError {
    /// The text with its header is longer than the buffer, or than a header
    /// can say.
    TooLong,
}

/// A buffer of (ascii) characters that can be written to the screen.
///
/// The texts lie in `CAPACITY` bytes as records, oldest first, each behind a
/// header that says its length. A text that finds too little room behind the
/// others pushes the oldest out.
pub struct TextBuffer<const CAPACITY: usize> {
    buffer: [u8; CAPACITY],
    cursor: usize,
    shifted: bool,
}

/// A diagnostic hook: hands its argument back. A place for a breakpoint.
pub fn gdb_pause<T>(i: T) -> (o: T)
    ensures
        o == i,
{
    i
}

impl<const CAPACITY: usize> View for TextBuffer<CAPACITY> {
    type V = Seq<Seq<u8>>;

    /// The live records, oldest first.
    open spec fn view(&self) -> Seq<Seq<u8>> {
        records(self.bytes(), 0, self.used())
    }
}

impl<const CAPACITY: usize> TextBuffer<CAPACITY> {
    /// The backing bytes, all `CAPACITY` of them.
    pub closed spec fn bytes(&self) -> Seq<u8> {
        self.buffer@
    }

    /// The position of the first unused byte.
    pub closed spec fn used(&self) -> int {
        self.cursor as int
    }

    /// An eviction has happened since the buffer was made.
    pub closed spec fn is_shifted(&self) -> bool {
        self.shifted
    }

    /// The bytes up to the first unused one are whole records, every byte
    /// from there on is the sentinel, and a buffer filled to the last byte
    /// holds one record.
    pub open spec fn wf(&self) -> bool {
        &&& self.bytes().len() == CAPACITY
        &&& 0 <= self.used() <= CAPACITY
        &&& framed(self.bytes(), 0, self.used())
        &&& unused_from(self.bytes(), self.used())
        &&& self.used() == CAPACITY && CAPACITY > 0 ==> header_at(self.bytes(), 0) == CAPACITY
    }

    /// What a scan of the bytes from the start yields, in order.
    pub open spec fn yields(&self) -> Seq<Seq<u8>> {
        scan(self.bytes(), 0)
    }

    /// An empty buffer: every byte unused.
    pub fn new() -> (made: TextBuffer<CAPACITY>)
        ensures
            made.wf(),
            made@ == Seq::<Seq<u8>>::empty(),
            made.used() == 0,
            !made.is_shifted(),
    {
        TextBuffer { buffer: [SENTINEL;CAPACITY], cursor: 0, shifted: false }
    }

    /// The position of the first unused byte.
    pub fn cursor(&self) -> (pos: usize)
        ensures
            pos == self.used(),
    {
        self.cursor
    }

    /// Whether an eviction has happened since the buffer was made.
    pub fn shifted(&self) -> (flag: bool)
        ensures
            flag == self.is_shifted(),
    {
        self.shifted
    }

    /// The backing bytes: the stored records, then the unused rest.
    pub fn as_bytes(&self) -> (bytes: &[u8])
        ensures
            bytes@ == self.bytes(),
    {
        self.buffer.as_slice()
    }

    /// The length that the header at `pos` declares.
    fn header(&self, pos: usize) -> (len: usize)
        requires
            pos + 1 < CAPACITY,
        ensures
            len == header_at(self.bytes(), pos as int),
            len <= MAX_RECORD_LEN,
    {
        (self.buffer[pos] as usize) * 256 + (self.buffer[pos + 1] as usize)
    }

    /// Remove enough strings from the front of the buffer to fit
    /// `space_required` new bytes at the end, or all of them where even that
    /// is not enough. What stays moves to the front, and the bytes behind it
    /// become unused. The buffer counts as shifted once a record has gone.
    pub fn remove_to_fit(&mut self, space_required: usize)
        requires
            old(self).wf(),
        ensures
            final(self).wf(),
            final(self)@ == old(self)@.skip(evicted(old(self)@, space_required as int) as int),
            final(self).is_shifted() == (old(self).is_shifted() || evicted(
                old(self)@,
                space_required as int,
            ) > 0),
            final(self).used() == 0 || final(self).used() + space_required <= old(self).used(),
    {
        let ghost before = self.buffer@;
        let ghost all = self@;
        let end = self.cursor;
        let mut bytes: usize = 0;
        let ghost mut dropped: int = 0;
        while bytes < space_required && bytes < end
            invariant
                self.buffer@ == before,
                self.cursor == end,
                self.shifted == old(self).shifted,
                end <= CAPACITY,
                before.len() == CAPACITY,
                bytes <= end,
                framed(before, 0, bytes as int),
                framed(before, bytes as int, end as int),
                all == records(before, 0, end as int),
                0 <= dropped <= all.len(),
                dropped > 0 <==> bytes > 0,
                all.skip(dropped) == records(before, bytes as int, end as int),
                evicted(all, space_required as int) == dropped + evicted(
                    records(before, bytes as int, end as int),
                    space_required - bytes,
                ),
            decreases end - bytes,
        {
            let len = self.header(bytes);
            proof {
                let rest = records(before, bytes as int, end as int);
                assert(rest.drop_first() =~= records(before, bytes + len, end as int));
                assert(framed(before, bytes + len, bytes + len));
                lemma_framed_join(before, 0, bytes as int, bytes + len);
                dropped = dropped + 1;
            }
            bytes += len;
        }
        let kept = end - bytes;
        let mut i: usize = 0;
        while i < kept
            invariant
                self.cursor == end,
                self.shifted == old(self).shifted,
                bytes + kept == end,
                end <= CAPACITY,
                i <= kept,
                self.buffer@.len() == CAPACITY,
                before.len() == CAPACITY,
                forall|j: int| 0 <= j < i ==> self.buffer@[j] == before[j + bytes],
                forall|j: int| i <= j < CAPACITY ==> self.buffer@[j] == before[j],
            decreases kept - i,
        {
            self.buffer[i] = self.buffer[i + bytes];
            i += 1;
        }
        let mut j: usize = kept;
        while j < CAPACITY
            invariant
                self.cursor == end,
                self.shifted == old(self).shifted,
                bytes + kept == end,
                end <= CAPACITY,
                kept <= j <= CAPACITY,
                self.buffer@.len() == CAPACITY,
                before.len() == CAPACITY,
                forall|k: int| 0 <= k < kept ==> self.buffer@[k] == before[k + bytes],
                forall|k: int| kept <= k < j ==> self.buffer@[k] == SENTINEL,
                forall|k: int| j <= k < CAPACITY ==> self.buffer@[k] == before[k],
                unused_from(before, end as int),
            decreases CAPACITY - j,
        {
            self.buffer[j] = SENTINEL;
            j += 1;
        }
        if bytes > 0 {
            self.shifted = true;
        }
        self.cursor = kept;
        proof {
            lemma_framed_moves(before, self.buffer@, bytes as int, bytes as int, end as int);
        }
    }

    /// Stores `string` as the newest record and hands back the stored copy.
    ///
    /// A text that with its header is longer than the buffer, or than a
    /// header can say, is refused and the buffer left as it was. Where the
    /// record would reach the buffer's last byte behind the records that
    /// are there, the oldest of these are evicted first: as few as free the
    /// record's length, or all of them where even that is less. Only then
    /// does the buffer count as shifted.
    pub fn write_str(&mut self, string: &[u8]) -> (stored: Result<&[u8], TextWritingError>)
        requires
            old(self).wf(),
        ensures
            final(self).wf(),
            match stored {
                Ok(text) => {
                    &&& string@.len() + HEADER_LEN <= CAPACITY
                    &&& string@.len() + HEADER_LEN <= MAX_RECORD_LEN
                    &&& final(self)@ == appended(old(self)@, string@, CAPACITY as int)
                    &&& final(self).is_shifted() == (old(self).is_shifted() || needs_eviction(
                        old(self)@,
                        string@,
                        CAPACITY as int,
                    ))
                    &&& text@ == string@
                },
                Err(error) => {
                    &&& error == TextWritingError::TooLong
                    &&& string@.len() + HEADER_LEN > CAPACITY || string@.len() + HEADER_LEN
                        > MAX_RECORD_LEN
                    &&& *final(self) == *old(self)
                },
            },
    {
        if string.len() > MAX_RECORD_LEN - HEADER_LEN || string.len() + HEADER_LEN > CAPACITY {
            return Err(TextWritingError::TooLong);
        }
        let space_required = string.len() + HEADER_LEN;

        if space_required < PAUSE_BELOW {
            gdb_pause(());
        }
        proof {
            lemma_framed_stored_len(self.bytes(), 0, self.used());
        }
        if self.cursor > 0 && CAPACITY - self.cursor <= space_required {
            proof {
                if self.cursor == CAPACITY {
                    // The one record that fills the buffer goes, whatever is asked for.
                    assert(records(self.bytes(), CAPACITY as int, CAPACITY as int).len() == 0);
                    assert(evicted(self@.drop_first(), space_required - CAPACITY) == 0);
                }
            }
            self.remove_to_fit(space_required);
            proof {
                lemma_framed_stored_len(self.bytes(), 0, self.used());
            }
        }
        let ghost kept = self@;
        let ghost before = self.buffer@;
        let ghost shifted = self.shifted;
        let start = self.cursor;

        self.buffer[start] = (space_required / 256) as u8;
        self.buffer[start + 1] = (space_required % 256) as u8;
        let mut i: usize = 0;
        while i < string.len()
            invariant
                self.cursor == start,
                self.shifted == shifted,
                space_required == string@.len() + HEADER_LEN,
                start + space_required <= CAPACITY,
                i <= string@.len(),
                self.buffer@.len() == CAPACITY,
                before.len() == CAPACITY,
                header_at(self.buffer@, start as int) == space_required,
                forall|k: int| 0 <= k < start ==> self.buffer@[k] == before[k],
                forall|k: int| 0 <= k < i ==> self.buffer@[start + HEADER_LEN + k] == string@[k],
                forall|k: int| start + space_required <= k < CAPACITY ==> self.buffer@[k] == before[k],
            decreases string@.len() - i,
        {
            self.buffer[start + HEADER_LEN + i] = string[i];
            i += 1;
        }
        self.cursor = start + space_required;
        proof {
            let after = self.buffer@;
            let end = start + space_required;
            lemma_framed_moves(before, after, 0, 0, start as int);
            assert(framed(after, end, end));
            assert(after.subrange(start + 2, end) =~= string@);
            assert(records(after, end, end) =~= Seq::<Seq<u8>>::empty());
            lemma_framed_join(after, 0, start as int, end);
            assert forall|k: int| end <= k < CAPACITY implies after[k] == SENTINEL by {
                assert(after[k] == before[k]);
            }
        }
        Ok(vstd::slice::slice_subrange(self.buffer.as_slice(), start + HEADER_LEN, self.cursor))
    }

    /// Starts a scan of the records at the oldest.
    pub fn into_iter(&self) -> (iter: TextBufferIter<'_, CAPACITY>)
        ensures
            iter@ == self.yields(),
    {
        TextBufferIter { strings: &self.buffer, cursor: 0 }
    }
}

/// A scan over the records of a [`TextBuffer`], oldest first.
pub struct TextBufferIter<'a, const CAPACITY: usize> {
    strings: &'a [u8; CAPACITY],
    cursor: usize,
}

impl<'a, const CAPACITY: usize> View for TextBufferIter<'a, CAPACITY> {
    type V = Seq<Seq<u8>>;

    /// The records still to come, in order.
    closed spec fn view(&self) -> Seq<Seq<u8>> {
        scan(self.strings@, self.cursor as int)
    }
}

impl<'a, const CAPACITY: usize> TextBufferIter<'a, CAPACITY> {
    #[verifier::type_invariant]
    spec fn within(&self) -> bool {
        self.cursor <= CAPACITY
    }

    /// Hands out the next record, if the scan has not ended.
    pub fn next(&mut self) -> (item: Option<&'a [u8]>)
        ensures
            match item {
                Some(text) => {
                    &&& old(self)@.len() > 0
                    &&& text@ == old(self)@.first()
                    &&& final(self)@ == old(self)@.drop_first()
                },
                None => old(self)@.len() == 0 && final(self)@ == old(self)@,
            },
    {
        proof {
            use_type_invariant(&*self);
        }
        let strings: &'a [u8; CAPACITY] = self.strings;
        let pos = self.cursor;
        if CAPACITY - pos <= HEADER_LEN {
            return None;
        }
        let len = (strings[pos] as usize) * 256 + (strings[pos + 1] as usize);
        if len < HEADER_LEN || len - HEADER_LEN > CAPACITY {
            return None;
        }
        let end = if len > CAPACITY - pos {
            CAPACITY
        } else {
            pos + len
        };
        self.cursor = end;
        proof {
            assert(scan(strings@, pos as int) == seq![strings@.subrange(pos + 2, end as int)]
                + scan(strings@, end as int));
        }
        Some(vstd::slice::slice_subrange(strings.as_slice(), pos + HEADER_LEN, end))
    }
}

/// The bytes of a buffer are the frames of its live records, oldest first,
/// and behind them sentinel bytes up to the capacity.
pub proof fn lemma_bytes_hold_frames<const CAPACITY: usize>(buffer: TextBuffer<CAPACITY>)
    requires
        buffer.wf(),
    ensures
        stored_len(buffer@) == buffer.used(),
        buffer.bytes() == encoded(buffer@) + Seq::new(
            (CAPACITY - buffer.used()) as nat,
            |i: int| SENTINEL,
        ),
{
    let bytes = buffer.bytes();
    lemma_framed_stored_len(bytes, 0, buffer.used());
    lemma_framed_bytes_are_encoded(bytes, 0, buffer.used());
    assert(bytes =~= bytes.subrange(0, buffer.used()) + Seq::new(
        (CAPACITY - buffer.used()) as nat,
        |i: int| SENTINEL,
    ));
}

/// A scan yields the live records, whole and in order, wherever it ends at
/// the first unused byte. The one exception is a buffer of two bytes, where
/// a scan yields nothing.
pub proof fn lemma_scan_yields_live_records<const CAPACITY: usize>(buffer: TextBuffer<CAPACITY>)
    requires
        buffer.wf(),
        scan_ends_at(buffer.used(), CAPACITY as int),
    ensures
        buffer.yields() == if CAPACITY == HEADER_LEN {
            Seq::empty()
        } else {
            buffer@
        },
{
    let bytes = buffer.bytes();
    if buffer.used() < CAPACITY {
        lemma_scan_finds_records(bytes, 0, buffer.used());
    } else if CAPACITY > HEADER_LEN {
        let end = CAPACITY as int;
        assert(records(bytes, end, end) =~= Seq::<Seq<u8>>::empty());
        assert(scan(bytes, 0) == seq![bytes.subrange(2, end)] + scan(bytes, end));
    }
}

/// Texts appended to a fresh buffer that never had to evict come back from
/// a scan exactly as they went in, in order, where the scan ends at the
/// first unused byte. The one exception is a buffer of two bytes, where a
/// scan yields nothing.
pub proof fn lemma_scan_returns_appended<const CAPACITY: usize>(
    buffer: TextBuffer<CAPACITY>,
    texts: Seq<Seq<u8>>,
)
    requires
        buffer.wf(),
        buffer@ == written_all(Seq::empty(), texts, CAPACITY as int),
        never_evicts(Seq::empty(), texts, CAPACITY as int),
        scan_ends_at(stored_len(texts) as int, CAPACITY as int),
    ensures
        buffer.yields() == if CAPACITY == HEADER_LEN {
            Seq::empty()
        } else {
            texts
        },
{
    lemma_written_all_without_eviction(Seq::empty(), texts, CAPACITY as int);
    assert(Seq::<Seq<u8>>::empty() + texts =~= texts);
    lemma_bytes_hold_frames(buffer);
    lemma_scan_yields_live_records(buffer);
}

/// Two scans of one buffer, with no append between them, yield the same.
pub proof fn lemma_scan_is_repeatable<const CAPACITY: usize>(
    buffer: TextBuffer<CAPACITY>,
    first: TextBufferIter<CAPACITY>,
    second: TextBufferIter<CAPACITY>,
)
    requires
        first@ == buffer.yields(),
        second@ == buffer.yields(),
    ensures
        first@ == second@,
{
}

} // verus!
