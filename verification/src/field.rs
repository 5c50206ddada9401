//! The launcher's one-line search field: its text, caret and selection, moved by grapheme
//! cluster and kept within the field's capacity.
use unicode_segmentation::UnicodeSegmentation;
use vstd::prelude::*;
use vstd::string::*;
use vstd::utf8::{decode_utf8, encode_utf8, is_char_boundary, is_continuation_byte, valid_utf8};

verus! {

/// The UTF-8 bytes of a text.
pub open spec fn bytes_of(text: Seq<char>) -> Seq<u8> {
    encode_utf8(text)
}

/// Whether a byte offset of a text falls between two of its characters (or at either end).
pub open spec fn boundary(text: Seq<char>, offset: int) -> bool {
    is_char_boundary(bytes_of(text), offset)
}

/// The characters before a byte offset.
pub open spec fn chars_before(text: Seq<char>, offset: int) -> Seq<char> {
    decode_utf8(bytes_of(text).subrange(0, offset))
}

/// The characters from a byte offset on.
pub open spec fn chars_from(text: Seq<char>, offset: int) -> Seq<char> {
    decode_utf8(bytes_of(text).subrange(offset, bytes_of(text).len() as int))
}

/// Byte offsets at which extended grapheme clusters start, as
/// `UnicodeSegmentation::grapheme_indices` yields them.
pub uninterp spec fn grapheme_offsets(text: Seq<char>) -> Seq<usize>;

/// Calls `UnicodeSegmentation::grapheme_indices` (extended clusters) and keeps the offsets.
/// Each cluster is a slice of the text, so each offset is a character boundary inside it.
#[verifier::external_body]
fn grapheme_starts(text: &str) -> (offsets: Vec<usize>)
    ensures
        offsets@ == grapheme_offsets(text@),
        forall|i: int|
            0 <= i < offsets@.len() ==> #[trigger] offsets@[i] < bytes_of(text@).len() && boundary(
                text@,
                offsets@[i] as int,
            ),
{
    text.grapheme_indices(true).map(|(offset, _)| offset).collect()
}

/// Byte length of the first extended grapheme cluster of a text (zero for an empty text).
pub uninterp spec fn leading_cluster(text: Seq<char>) -> usize;

/// Calls `UnicodeSegmentation::graphemes` (extended) and measures the first cluster, a slice
/// at the start of the text.
#[verifier::external_body]
fn first_cluster_len(text: &str) -> (len: usize)
    ensures
        len == leading_cluster(text@),
        len <= bytes_of(text@).len(),
        boundary(text@, len as int),
{
    text.graphemes(true).next().map_or(0, str::len)
}

/// Byte length of the last extended grapheme cluster of a text (zero for an empty text).
pub uninterp spec fn trailing_cluster(text: Seq<char>) -> usize;

/// Calls `UnicodeSegmentation::graphemes` (extended) and measures the last cluster, a slice
/// at the end of the text.
#[verifier::external_body]
fn last_cluster_len(text: &str) -> (len: usize)
    ensures
        len == trailing_cluster(text@),
        len <= bytes_of(text@).len(),
        boundary(text@, bytes_of(text@).len() - len),
{
    text.graphemes(true).next_back().map_or(0, str::len)
}

/// The first offset in `offsets` at or after `index`, or `fallback` when there is none.
pub open spec fn first_at_least(offsets: Seq<usize>, index: int, fallback: int) -> int
    decreases offsets.len(),
{
    if offsets.len() == 0 {
        fallback
    } else if offsets[0] >= index {
        offsets[0] as int
    } else {
        first_at_least(offsets.drop_first(), index, fallback)
    }
}

/// Where a caret asked for at `index` lands: the first cluster start at or after it, or the
/// end of the text.
pub open spec fn snapped(text: Seq<char>, index: int) -> int {
    first_at_least(grapheme_offsets(text), index, bytes_of(text).len() as int)
}

/// Where the caret lands moving one cluster forward or back from `cursor`.
pub open spec fn stepped(text: Seq<char>, cursor: int, forward: bool) -> int {
    if forward {
        cursor + leading_cluster(chars_from(text, cursor))
    } else {
        cursor - trailing_cluster(chars_before(text, cursor))
    }
}

/// Most characters the search field holds.
pub const FIELD_CAPACITY: usize = 64;

/// The text after replacing the selection `start..end` by as much of `insertion` as fits in
/// the field's capacity next to the characters outside the selection.
pub open spec fn inserted_text(text: Seq<char>, start: int, end: int, insertion: Seq<char>) -> Seq<char> {
    chars_before(text, start) + kept_insertion(text, start, end, insertion) + chars_from(text, end)
}

/// The part of an insertion that fits: its first characters, up to the room left by the
/// characters outside the selection.
pub open spec fn kept_insertion(text: Seq<char>, start: int, end: int, insertion: Seq<char>) -> Seq<char> {
    let outside = chars_before(text, start).len() + chars_from(text, end).len();
    let room = if outside >= FIELD_CAPACITY {
        0
    } else {
        FIELD_CAPACITY - outside
    };
    insertion.take(if room < insertion.len() {
        room
    } else {
        insertion.len() as int
    })
}

/// The launcher's one-line search field, with a caret and a selection anchor as byte offsets.
pub struct TextField {
    pub text: String,
    /// Byte offset of the caret, and of the other end of the selection.
    cursor: usize,
    anchor: usize,
    /// Set by an edit, consumed by the next frame to restart the caret blink.
    touched: bool,
}

proof fn lemma_encode_concat(a: Seq<char>, b: Seq<char>)
    ensures
        encode_utf8(a + b) == encode_utf8(a) + encode_utf8(b),
    decreases a.len(),
{
    if a.len() == 0 {
        assert(a + b =~= b);
        assert(encode_utf8(a) + encode_utf8(b) =~= encode_utf8(b));
    } else {
        lemma_encode_concat(a.drop_first(), b);
        assert((a + b).drop_first() =~= a.drop_first() + b);
        assert((a + b)[0] == a[0]);
    }
}

/// Every character takes at least one byte.
proof fn lemma_encode_len(chars: Seq<char>)
    ensures
        encode_utf8(chars).len() >= chars.len(),
    decreases chars.len(),
{
    if chars.len() > 0 {
        lemma_encode_len(chars.drop_first());
    }
}

/// A boundary of the bytes from `start` on is, shifted by `start`, a boundary of the whole.
proof fn lemma_boundary_from(bytes: Seq<u8>, start: int, offset: int)
    requires
        valid_utf8(bytes),
        is_char_boundary(bytes, start),
        0 <= start <= bytes.len(),
        0 <= offset <= bytes.len() - start,
        is_char_boundary(bytes.subrange(start, bytes.len() as int), offset),
    ensures
        is_char_boundary(bytes, start + offset),
{
    broadcast use vstd::utf8::is_char_boundary_iff_not_is_continuation_byte;
    broadcast use vstd::utf8::is_char_boundary_start_end_of_seq;
    broadcast use vstd::utf8::valid_utf8_split;

    let rest = bytes.subrange(start, bytes.len() as int);
    assert(valid_utf8(rest));
    if offset < rest.len() {
        assert(rest[offset] == bytes[start + offset]);
        assert(!is_continuation_byte(rest[offset]));
    }
}

/// A boundary of the whole after `start` is, shifted back, a boundary of the bytes from `start`.
proof fn lemma_boundary_within(bytes: Seq<u8>, start: int, end: int)
    requires
        valid_utf8(bytes),
        is_char_boundary(bytes, start),
        is_char_boundary(bytes, end),
        0 <= start <= end <= bytes.len(),
    ensures
        is_char_boundary(bytes.subrange(start, bytes.len() as int), end - start),
{
    broadcast use vstd::utf8::is_char_boundary_iff_not_is_continuation_byte;
    broadcast use vstd::utf8::is_char_boundary_start_end_of_seq;
    broadcast use vstd::utf8::valid_utf8_split;

    let rest = bytes.subrange(start, bytes.len() as int);
    assert(valid_utf8(rest));
    if end < bytes.len() {
        assert(rest[end - start] == bytes[end]);
        assert(!is_continuation_byte(rest[end - start]));
    }
}

/// A boundary of the bytes before `end` is a boundary of the whole.
proof fn lemma_boundary_before(bytes: Seq<u8>, end: int, offset: int)
    requires
        valid_utf8(bytes),
        is_char_boundary(bytes, end),
        0 <= offset <= end <= bytes.len(),
        is_char_boundary(bytes.subrange(0, end), offset),
    ensures
        is_char_boundary(bytes, offset),
{
    broadcast use vstd::utf8::is_char_boundary_iff_not_is_continuation_byte;
    broadcast use vstd::utf8::valid_utf8_split;

    let head = bytes.subrange(0, end);
    assert(valid_utf8(head));
    if offset < end {
        assert(head[offset] == bytes[offset]);
        assert(!is_continuation_byte(head[offset]));
    }
}

/// The characters before one boundary and from a later one are no more than the whole text.
proof fn lemma_outside_within(text: Seq<char>, start: int, end: int)
    requires
        boundary(text, start),
        boundary(text, end),
        start <= end,
    ensures
        chars_before(text, start).len() + chars_from(text, end).len() <= text.len(),
{
    broadcast use vstd::utf8::encode_utf8_valid_utf8;
    broadcast use vstd::utf8::encode_utf8_decode_utf8;
    broadcast use vstd::utf8::valid_utf8_split;
    broadcast use vstd::utf8::is_char_boundary_start_end_of_seq;

    let bytes = bytes_of(text);
    assert(valid_utf8(bytes));
    assert(0 <= start && end <= bytes.len()) by {
        reveal_with_fuel(is_char_boundary, 1);
    }
    vstd::utf8::decode_utf8_split(bytes, start);
    let rest = bytes.subrange(start, bytes.len() as int);
    lemma_boundary_within(bytes, start, end);
    vstd::utf8::decode_utf8_split(rest, end - start);
    assert(rest.subrange(end - start, rest.len() as int) =~= bytes.subrange(end, bytes.len() as int));
}

/// Splits a text at a boundary into the characters before and from it.
fn split_text(text: &str, at: usize) -> (parts: (&str, &str))
    requires
        boundary(text@, at as int),
    ensures
        parts.0@ == chars_before(text@, at as int),
        parts.1@ == chars_from(text@, at as int),
        bytes_of(parts.0@) == bytes_of(text@).subrange(0, at as int),
        bytes_of(parts.1@) == bytes_of(text@).subrange(at as int, bytes_of(text@).len() as int),
{
    let parts = text.split_at(at);
    proof {
        vstd::utf8::encode_utf8_decode_utf8(parts.0@);
        vstd::utf8::encode_utf8_decode_utf8(parts.1@);
    }
    parts
}

/// Byte length of a text.
pub(crate) fn byte_len(text: &str) -> (len: usize)
    ensures
        len == bytes_of(text@).len(),
{
    text.as_bytes().len()
}

impl Default for TextField {
    /// An empty field with the caret at the start.
    fn default() -> (field: Self)
        ensures
            field.contents() == Seq::<char>::empty(),
            field.wf(),
            field.caret() == 0,
            field.anchor_offset() == 0,
            !field.edited(),
    {
        let field = TextField { text: String::new(), cursor: 0, anchor: 0, touched: false };
        proof {
            broadcast use vstd::utf8::encode_utf8_valid_utf8;
            broadcast use vstd::utf8::is_char_boundary_start_end_of_seq;

            assert(valid_utf8(bytes_of(field.text@)));
        }
        field
    }
}

impl TextField {
    /// The characters of the text.
    pub closed spec fn contents(&self) -> Seq<char> {
        self.text@
    }

    /// The text.
    pub fn as_str(&self) -> (text: &str)
        ensures
            text@ == self.contents(),
    {
        self.text.as_str()
    }

    /// The caret and anchor lie on character boundaries of the text.
    pub closed spec fn wf(&self) -> bool {
        &&& boundary(self.text@, self.cursor as int)
        &&& boundary(self.text@, self.anchor as int)
    }

    /// Byte offset of the caret.
    pub closed spec fn caret(&self) -> int {
        self.cursor as int
    }

    /// Byte offset of the selection's other end.
    pub closed spec fn anchor_offset(&self) -> int {
        self.anchor as int
    }

    /// Whether an edit has happened since the last frame restarted the caret blink.
    pub closed spec fn edited(&self) -> bool {
        self.touched
    }

    /// Start of the selection.
    pub open spec fn selection_start(&self) -> int {
        if self.caret() <= self.anchor_offset() {
            self.caret()
        } else {
            self.anchor_offset()
        }
    }

    /// End of the selection.
    pub open spec fn selection_end(&self) -> int {
        if self.caret() <= self.anchor_offset() {
            self.anchor_offset()
        } else {
            self.caret()
        }
    }

    /// The selected byte range, from the nearer of caret and anchor to the farther.
    pub fn selection(&self) -> (range: std::ops::Range<usize>)
        ensures
            range.start == self.selection_start(),
            range.end == self.selection_end(),
    {
        if self.cursor <= self.anchor {
            self.cursor..self.anchor
        } else {
            self.anchor..self.cursor
        }
    }

    /// Moves the caret to the first cluster start at or after `index`, extending the
    /// selection when `select` is set and collapsing it otherwise.
    pub fn set_cursor(&mut self, index: usize, select: bool)
        requires
            select ==> old(self).wf(),
        ensures
            final(self).contents() == old(self).contents(),
            final(self).caret() == snapped(old(self).contents(), index as int),
            final(self).anchor_offset() == if select {
                old(self).anchor_offset()
            } else {
                final(self).caret()
            },
            final(self).edited(),
            final(self).wf(),
    {
        let offsets = grapheme_starts(self.text.as_str());
        let mut found = byte_len(self.text.as_str());
        let mut position: usize = 0;
        proof {
            broadcast use vstd::utf8::encode_utf8_valid_utf8;
            broadcast use vstd::utf8::is_char_boundary_start_end_of_seq;

            assert(offsets@.skip(0) =~= offsets@);
        }
        while position < offsets.len()
            invariant
                position <= offsets@.len(),
                offsets@ == grapheme_offsets(self.text@),
                found == bytes_of(self.text@).len(),
                first_at_least(offsets@.skip(position as int), index as int, found as int) == snapped(
                    self.text@,
                    index as int,
                ),
            ensures
                position <= offsets@.len(),
                position < offsets@.len() ==> offsets@[position as int] >= index,
                first_at_least(offsets@.skip(position as int), index as int, found as int) == snapped(
                    self.text@,
                    index as int,
                ),
            decreases offsets@.len() - position,
        {
            if offsets[position] >= index {
                break;
            }
            proof {
                assert(offsets@.skip(position as int).drop_first() =~= offsets@.skip(position + 1));
            }
            position += 1;
        }
        let target = if position < offsets.len() {
            offsets[position]
        } else {
            found
        };
        proof {
            if position >= offsets.len() {
                assert(offsets@.skip(position as int).len() == 0);
            } else {
                assert(offsets@.skip(position as int)[0] == offsets@[position as int]);
            }
            broadcast use vstd::utf8::encode_utf8_valid_utf8;
            broadcast use vstd::utf8::is_char_boundary_start_end_of_seq;

            assert(valid_utf8(bytes_of(self.text@)));
        }
        self.cursor = target;
        if !select {
            self.anchor = self.cursor;
        }
        self.touched = true;
    }

    /// Where the caret lands moving one cluster in `forward`'s direction.
    fn step(&self, forward: bool) -> (target: usize)
        requires
            self.wf(),
        ensures
            target == stepped(self.contents(), self.caret(), forward),
            boundary(self.contents(), target as int),
    {
        let (head, rest) = split_text(self.text.as_str(), self.cursor);
        let total = byte_len(self.text.as_str());
        proof {
            broadcast use vstd::utf8::encode_utf8_valid_utf8;

            assert(valid_utf8(bytes_of(self.text@)));
        }
        if forward {
            let len = first_cluster_len(rest);
            proof {
                lemma_boundary_from(bytes_of(self.text@), self.cursor as int, len as int);
            }
            self.cursor + len
        } else {
            let len = last_cluster_len(head);
            proof {
                lemma_boundary_before(bytes_of(self.text@), self.cursor as int, self.cursor - len);
            }
            self.cursor - len
        }
    }

    /// Replaces the selection by as much of `insertion` as fits in the field's capacity, and
    /// puts the caret after it.
    pub fn insert(&mut self, insertion: &str)
        requires
            old(self).wf(),
        ensures
            final(self).contents() == inserted_text(
                old(self).contents(),
                old(self).selection_start(),
                old(self).selection_end(),
                insertion@,
            ),
            final(self).caret() == snapped(
                final(self).contents(),
                old(self).selection_start() + bytes_of(
                    kept_insertion(
                        old(self).contents(),
                        old(self).selection_start(),
                        old(self).selection_end(),
                        insertion@,
                    ),
                ).len(),
            ),
            final(self).anchor_offset() == final(self).caret(),
            final(self).wf(),
            old(self).contents().len() <= FIELD_CAPACITY ==> final(self).contents().len()
                <= FIELD_CAPACITY,
    {
        proof {
            lemma_outside_within(self.text@, self.selection_start(), self.selection_end());
            lemma_insert_capacity(self.text@, self.selection_start(), self.selection_end(), insertion@);
        }
        let range = self.selection();
        let (head, _) = split_text(self.text.as_str(), range.start);
        let (_, tail) = split_text(self.text.as_str(), range.end);
        proof {
            lemma_encode_len(head@);
            lemma_encode_len(tail@);
            lemma_encode_concat(head@, tail@);
        }
        let total = byte_len(self.text.as_str());
        proof {
            broadcast use vstd::utf8::encode_utf8_valid_utf8;

            assert(valid_utf8(bytes_of(self.text@)));
            assert(range.start <= range.end <= total);
            assert(bytes_of(head@).len() == range.start);
            assert(bytes_of(tail@).len() == total - range.end);
            assert(head@.len() + tail@.len() <= total);
        }
        let outside = head.unicode_len() + tail.unicode_len();
        let room = FIELD_CAPACITY.saturating_sub(outside);
        let count = insertion.unicode_len();
        let take = if room < count {
            room
        } else {
            count
        };
        let kept = insertion.substring_char(0, take);
        let mut text = String::from_str(head);
        text.append(kept);
        text.append(tail);
        let head_len = byte_len(head);
        let kept_len = byte_len(kept);
        let new_len = byte_len(text.as_str());
        proof {
            lemma_encode_concat(head@, kept@);
            lemma_encode_concat(head@ + kept@, tail@);
            assert(kept@ =~= kept_insertion(
                old(self).contents(),
                range.start as int,
                range.end as int,
                insertion@,
            ));
        }
        let target = head_len + kept_len;
        assert(head_len == range.start);
        assert(target == old(self).selection_start() + bytes_of(kept@).len());
        self.text = text;
        self.set_cursor(target, false);
    }

    /// The selected text.
    pub(crate) fn selected_string(&self) -> (text: String)
        requires
            self.wf(),
        ensures
            text@ == self.selected_text(),
    {
        let range = self.selection();
        let (_, rest) = split_text(self.text.as_str(), range.start);
        proof {
            broadcast use vstd::utf8::encode_utf8_valid_utf8;

            lemma_boundary_within(bytes_of(self.text@), range.start as int, range.end as int);
        }
        let (middle, _) = split_text(rest, range.end - range.start);
        proof {
            assert(bytes_of(rest@).subrange(0, range.end - range.start) =~= bytes_of(self.text@).subrange(
                range.start as int,
                range.end as int,
            ));
            vstd::utf8::encode_utf8_decode_utf8(middle@);
        }
        middle.to_owned()
    }

    /// The text after erasing: the selection, or when it is empty, the text between the
    /// anchor and the caret moved one cluster in `forward`'s direction.
    pub open spec fn erased_text(&self, forward: bool) -> Seq<char> {
        inserted_text(self.contents(), self.erased_range(forward).0, self.erased_range(forward).1, Seq::empty())
    }

    /// The byte range an erase removes: the selection, or, when it is empty, the span from the
    /// anchor to one cluster step from the caret in `forward`'s direction.
    pub open spec fn erased_range(&self, forward: bool) -> (int, int) {
        if self.selection_start() == self.selection_end() {
            let target = snapped(self.contents(), stepped(self.contents(), self.caret(), forward));
            let anchor = self.anchor_offset();
            if target <= anchor {
                (target, anchor)
            } else {
                (anchor, target)
            }
        } else {
            (self.selection_start(), self.selection_end())
        }
    }

    /// Where an insertion leaves the caret: the first cluster start at or after the end of
    /// what was kept of the insertion.
    pub open spec fn inserted_caret(&self, insertion: Seq<char>) -> int {
        snapped(
            inserted_text(self.contents(), self.selection_start(), self.selection_end(), insertion),
            self.selection_start() + bytes_of(
                kept_insertion(self.contents(), self.selection_start(), self.selection_end(), insertion),
            ).len(),
        )
    }

    /// Where moving the caret one cluster puts it: a step from the caret when extending the
    /// selection or when it is empty, otherwise the selection's end in `forward`'s direction.
    pub open spec fn moved_caret(&self, forward: bool, select: bool) -> int {
        snapped(
            self.contents(),
            if select || self.selection_start() == self.selection_end() {
                stepped(self.contents(), self.caret(), forward)
            } else if forward {
                self.selection_end()
            } else {
                self.selection_start()
            },
        )
    }

    /// The selected characters.
    pub open spec fn selected_text(&self) -> Seq<char> {
        decode_utf8(bytes_of(self.contents()).subrange(self.selection_start(), self.selection_end()))
    }

    /// Empties the field and puts the caret at its start.
    pub(crate) fn clear(&mut self)
        ensures
            final(self).wf(),
            final(self).contents() == Seq::<char>::empty(),
            final(self).caret() == 0,
            final(self).anchor_offset() == 0,
    {
        self.text = String::new();
        proof {
            broadcast use vstd::utf8::encode_utf8_valid_utf8;
            broadcast use vstd::utf8::is_char_boundary_start_end_of_seq;

            assert(valid_utf8(bytes_of(self.text@)));
            assert(boundary(self.text@, self.anchor as int) ==> self.anchor == 0);
        }
        self.set_cursor(0, false);
        proof {
            assert(valid_utf8(bytes_of(self.text@)));
        }
    }

    /// Selects the whole text, with the caret at its end.
    pub(crate) fn select_all(&mut self)
        requires
            old(self).wf(),
        ensures
            final(self).wf(),
            final(self).contents() == old(self).contents(),
            final(self).anchor_offset() == 0,
            final(self).caret() == snapped(old(self).contents(), bytes_of(old(self).contents()).len() as int),
    {
        let end = byte_len(self.text.as_str());
        self.anchor = 0;
        proof {
            broadcast use vstd::utf8::encode_utf8_valid_utf8;
            broadcast use vstd::utf8::is_char_boundary_start_end_of_seq;

            assert(valid_utf8(bytes_of(self.text@)));
        }
        self.set_cursor(end, true);
    }

    /// Deletes the selection, or one cluster in `forward`'s direction.
    pub fn erase(&mut self, forward: bool)
        requires
            old(self).wf(),
        ensures
            final(self).wf(),
            final(self).anchor_offset() == final(self).caret(),
            final(self).contents() == old(self).erased_text(forward),
            final(self).caret() == snapped(final(self).contents(), old(self).erased_range(forward).0),
    {
        let range = self.selection();
        if range.start == range.end {
            let target = self.step(forward);
            self.set_cursor(target, true);
        }
        proof {
            reveal_strlit("");
        }
        self.insert("");
    }

    /// Moves the caret one cluster, collapsing an existing selection to its near end unless
    /// `select` extends it.
    pub fn move_cursor(&mut self, forward: bool, select: bool)
        requires
            old(self).wf(),
        ensures
            final(self).wf(),
            final(self).contents() == old(self).contents(),
            final(self).caret() == old(self).moved_caret(forward, select),
            final(self).anchor_offset() == if select {
                old(self).anchor_offset()
            } else {
                final(self).caret()
            },
    {
        let range = self.selection();
        let target = if select || range.start == range.end {
            self.step(forward)
        } else if forward {
            range.end
        } else {
            range.start
        };
        self.set_cursor(target, select);
    }
}

/// An insertion never takes the text past the field's capacity: the characters outside the
/// selection plus what is kept of the insertion number at most 64, unless those outside
/// already did and nothing is kept.
pub proof fn lemma_insert_capacity(text: Seq<char>, start: int, end: int, insertion: Seq<char>)
    ensures
        kept_insertion(text, start, end, insertion).len() <= insertion.len(),
        inserted_text(text, start, end, insertion).len() <= FIELD_CAPACITY || kept_insertion(
            text,
            start,
            end,
            insertion,
        ).len() == 0,
{
}


/// The landing place for a caret asked for at `index` is never before `index`, unless there is
/// no cluster start at or after it and the text ends first.
proof fn lemma_first_at_least_bound(offsets: Seq<usize>, index: int, fallback: int)
    ensures
        first_at_least(offsets, index, fallback) >= index || first_at_least(offsets, index, fallback)
            == fallback,
    decreases offsets.len(),
{
    if offsets.len() > 0 && offsets[0] < index {
        lemma_first_at_least_bound(offsets.drop_first(), index, fallback);
    }
}

/// Moving the caret forward never moves it back: it lands at or after where it was.
pub proof fn lemma_forward_never_back(field: TextField, select: bool)
    requires
        field.wf(),
    ensures
        field.moved_caret(true, select) >= field.caret(),
{
    broadcast use vstd::utf8::encode_utf8_valid_utf8;

    reveal_with_fuel(is_char_boundary, 1);
    let text = field.contents();
    assert(valid_utf8(bytes_of(text)));
    assert(boundary(text, field.caret()));
    let target = if select || field.selection_start() == field.selection_end() {
        stepped(text, field.caret(), true)
    } else {
        field.selection_end()
    };
    assert(target >= field.caret());
    assert(field.caret() <= bytes_of(text).len());
    lemma_first_at_least_bound(grapheme_offsets(text), target, bytes_of(text).len() as int);
}

} // verus!
