//! A gap buffer: a mutable sequence of text units (Unicode scalar values)
//! optimized for edits that cluster around a moving cursor.
//!
//! The storage is one contiguous `Vec<char>` split into three adjacent
//! regions: left content, a run of reserved capacity (the gap), and right
//! content. The externally meaningful value — the logical content — is the
//! left content followed by the right content; the gap is never read as
//! content. Relocating the gap to the cursor costs time proportional to the
//! distance moved, so an edit at the gap boundary costs time proportional to
//! the edit size rather than the document size.

use vstd::prelude::*;

verus! {

/// Number of text units in one gap page: the initial gap capacity and the
/// allocation unit by which the gap grows.
pub const GAP_SIZE: usize = 1024;

/// Placeholder written into gap slots, for diagnostic visibility only.
/// Logical content is defined purely by index ranges and never by scanning
/// for this value, so it may also occur as real content without harm.
pub const GAP_MARK: char = '_';

/// Why an operation was refused. A refused operation leaves the buffer
/// exactly as it was.
#[derive(Debug, Clone, Copy, PartialEq, Eq, Structural)]
pub enum GapBufferError {
    /// The requested cursor lies outside `[0, logical length]`.
    OutOfRange,
    /// A deletion asked for more units than remain to the right of the gap.
    InsufficientRightContent,
    /// Growing the gap would overflow the address space.
    CapacityOverflow,
}

/// A gap buffer over `char` text units.
///
/// Representation: `buffer` holds left content on `[0, gap_start)`, the gap
/// on `[gap_start, gap_start + gap_len)`, and right content from
/// `gap_start + gap_len` to the end. The view `self@` is the logical
/// content: left content followed by right content.
#[derive(Debug, Clone)]
pub struct GapBuffer {
    buffer: Vec<char>,
    gap_start: usize,
    gap_len: usize,
}

impl View for GapBuffer {
    type V = Seq<char>;

    /// The logical content: left content followed by right content,
    /// skipping the gap.
    open spec fn view(&self) -> Seq<char> {
        self.spec_buffer().subrange(0, self.spec_gap_start())
            + self.spec_buffer().subrange(
                self.spec_gap_start() + self.spec_gap_len(),
                self.spec_buffer().len() as int,
            )
    }
}

/// How a buffer relates to its prior state after a successful gap
/// relocation to `cursor`: the logical content, the gap length and the
/// storage length are unchanged, and the gap now starts at `cursor`.
pub open spec fn move_gap_relates(pre: GapBuffer, post: GapBuffer, cursor: int) -> bool {
    &&& post.well_formed()
    &&& post@ == pre@
    &&& post.spec_gap_start() == cursor
    &&& post.spec_gap_len() == pre.spec_gap_len()
    &&& post.spec_buffer().len() == pre.spec_buffer().len()
}

/// How a buffer relates to its prior state after a successful insertion of
/// `data`: the new units are spliced into the logical content exactly at the
/// old gap position, and the gap start advances past them. The gap keeps its
/// remaining capacity — what a prior growth installed, when one was needed.
pub open spec fn insert_relates(pre: GapBuffer, post: GapBuffer, data: Seq<char>) -> bool {
    &&& post.well_formed()
    &&& post@ == pre@.subrange(0, pre.spec_gap_start()) + data + pre@.subrange(
        pre.spec_gap_start(),
        pre@.len() as int,
    )
    &&& post.spec_gap_start() == pre.spec_gap_start() + data.len()
    &&& post.spec_gap_len() == if data.len() <= pre.spec_gap_len() {
        pre.spec_gap_len() - data.len()
    } else {
        grow_gap_len(data.len() as int) - data.len()
    }
}

/// How a buffer relates to its prior state after a successful deletion of
/// `count` units: the `count` logical units that immediately followed the
/// gap position are absorbed into the gap, which keeps its start and grows
/// by `count`.
pub open spec fn delete_relates(pre: GapBuffer, post: GapBuffer, count: int) -> bool {
    &&& post.well_formed()
    &&& post@ == pre@.subrange(0, pre.spec_gap_start()) + pre@.subrange(
        pre.spec_gap_start() + count,
        pre@.len() as int,
    )
    &&& post.spec_gap_start() == pre.spec_gap_start()
    &&& post.spec_gap_len() == pre.spec_gap_len() + count
    &&& post.spec_buffer().len() == pre.spec_buffer().len()
}

/// Number of gap pages a growth for `input_size` units allocates. This is
/// deliberately not a ceiling division: whenever `input_size` is not a
/// multiple of the page size, the remainder itself is added to the page
/// count, so the gap overshoots `input_size` generously.
pub open spec fn grow_pages(input_size: int) -> int {
    input_size / (GAP_SIZE as int) + input_size % (GAP_SIZE as int) + 1
}

/// Gap capacity, in units, that a growth for `input_size` units installs.
pub open spec fn grow_gap_len(input_size: int) -> int {
    (GAP_SIZE as int) * grow_pages(input_size)
}

/// How a buffer relates to its prior state after a successful growth for
/// `input_size`: the logical content and the gap position are unchanged,
/// and the gap now has the freshly computed capacity, at least `input_size`.
pub open spec fn grow_relates(pre: GapBuffer, post: GapBuffer, input_size: int) -> bool {
    &&& post.well_formed()
    &&& post@ == pre@
    &&& post.spec_gap_start() == pre.spec_gap_start()
    &&& post.spec_gap_len() == grow_gap_len(input_size)
    &&& post.spec_gap_len() >= input_size
}

impl GapBuffer {
    /// The whole backing storage, gap included.
    pub closed spec fn spec_buffer(&self) -> Seq<char> {
        self.buffer@
    }

    /// First index of the gap; equally, the length of the left content.
    pub closed spec fn spec_gap_start(&self) -> int {
        self.gap_start as int
    }

    /// Number of reserved (content-free) slots in the gap.
    pub closed spec fn spec_gap_len(&self) -> int {
        self.gap_len as int
    }

    /// Length of the logical content.
    pub open spec fn spec_logical_len(&self) -> int {
        self.spec_buffer().len() - self.spec_gap_len()
    }

    /// Representation invariant: the gap is a single contiguous run inside
    /// the storage, and every gap slot holds the placeholder. Established by
    /// construction and preserved by every operation.
    pub open spec fn well_formed(&self) -> bool {
        &&& 0 <= self.spec_gap_start()
        &&& 0 <= self.spec_gap_len()
        &&& self.spec_gap_start() + self.spec_gap_len() <= self.spec_buffer().len()
        &&& forall|i: int|
            self.spec_gap_start() <= i < self.spec_gap_start() + self.spec_gap_len()
                ==> self.spec_buffer()[i] == GAP_MARK
    }

    /// Builds a buffer whose logical content is `data`: one gap page of
    /// placeholder slots followed by `data`, with the gap at offset 0.
    pub fn from(data: Vec<char>) -> (buf: Self)
        ensures
            buf.well_formed(),
            buf@ == data@,
            buf.spec_gap_start() == 0,
            buf.spec_gap_len() == GAP_SIZE,
    {
        let mut buffer: Vec<char> = Vec::new();
        let mut i: usize = 0;
        while i < GAP_SIZE
            invariant
                i <= GAP_SIZE,
                buffer@.len() == i,
                forall|k: int| 0 <= k < i ==> buffer@[k] == GAP_MARK,
            decreases GAP_SIZE - i,
        {
            buffer.push(GAP_MARK);
            i = i + 1;
        }
        let mut j: usize = 0;
        while j < data.len()
            invariant
                j <= data@.len(),
                buffer@.len() == GAP_SIZE + j,
                forall|k: int| 0 <= k < GAP_SIZE ==> buffer@[k] == GAP_MARK,
                forall|k: int| 0 <= k < j ==> buffer@[GAP_SIZE + k] == data@[k],
            decreases data@.len() - j,
        {
            let c = data[j];
            buffer.push(c);
            j = j + 1;
        }
        let buf = GapBuffer { buffer, gap_start: 0, gap_len: GAP_SIZE };
        proof {
            assert(buf@ =~= data@);
        }
        buf
    }

    /// Relocates the gap so that it starts at `cursor`, shifting one unit at
    /// a time across the gap; the logical content is never changed. A cursor
    /// beyond the logical length is refused before any mutation. Relocating
    /// to the position the gap already occupies changes nothing at all.
    /// When the gap is empty, relocation is a direct index reassignment:
    /// with no reserved slots the partition point carries no content either
    /// side of which would need shifting.
    pub fn move_gap(&mut self, cursor: usize) -> (result: Result<(), GapBufferError>)
        requires
            old(self).well_formed(),
        ensures
            final(self).well_formed(),
            final(self)@ == old(self)@,
            (result is Ok) <==> cursor <= old(self).spec_logical_len(),
            result is Ok ==> move_gap_relates(*old(self), *final(self), cursor as int),
            old(self).spec_gap_start() == cursor ==> *final(self) == *old(self),
            result is Err ==> *final(self) == *old(self) && result == Err::<(),
                GapBufferError,
            >(GapBufferError::OutOfRange),
    {
        let logical_len = self.buffer.len() - self.gap_len;
        if cursor > logical_len {
            return Err(GapBufferError::OutOfRange);
        }
        if cursor == self.gap_start {
            return Ok(());
        }
        if self.gap_len == 0 {
            self.gap_start = cursor;
            proof {
                assert(self@ =~= old(self)@);
            }
            return Ok(());
        }
        while cursor < self.gap_start
            invariant
                self.well_formed(),
                self@ == old(self)@,
                1 <= self.spec_gap_len() == old(self).spec_gap_len(),
                self.spec_buffer().len() == old(self).spec_buffer().len(),
                cursor <= self.spec_logical_len(),
            decreases self.spec_gap_start() - cursor,
        {
            let ghost prev = *self;
            let buffer_len = self.buffer.len();
            assert(self.spec_gap_start() + self.spec_gap_len() <= buffer_len);
            let new_start = self.gap_start - 1;
            let right_edge = self.gap_start + self.gap_len - 1;
            let c = self.buffer[new_start];
            self.buffer[right_edge] = c;
            self.buffer[new_start] = GAP_MARK;
            self.gap_start = new_start;
            proof {
                assert(self@ =~= prev@);
            }
        }
        while cursor > self.gap_start
            invariant
                self.well_formed(),
                self@ == old(self)@,
                1 <= self.spec_gap_len() == old(self).spec_gap_len(),
                self.spec_buffer().len() == old(self).spec_buffer().len(),
                self.spec_gap_start() <= cursor <= self.spec_logical_len(),
            decreases cursor - self.spec_gap_start(),
        {
            let ghost prev = *self;
            let buffer_len = self.buffer.len();
            assert(self.spec_gap_start() + self.spec_gap_len() < buffer_len);
            let right_edge = self.gap_start + self.gap_len;
            let c = self.buffer[right_edge];
            self.buffer[self.gap_start] = c;
            self.buffer[right_edge] = GAP_MARK;
            self.gap_start = self.gap_start + 1;
            proof {
                assert(self@ =~= prev@);
            }
        }
        Ok(())
    }

    /// Replaces the gap with one of at least `input_size` reserved slots,
    /// re-laying the storage out as left content, a fresh placeholder-filled
    /// gap of a whole number of gap pages, then right content. The logical
    /// content and the gap position are unchanged. A growth whose new
    /// storage would not fit in the address space is refused before any
    /// mutation.
    pub fn grow(&mut self, input_size: usize) -> (result: Result<(), GapBufferError>)
        requires
            old(self).well_formed(),
        ensures
            final(self).well_formed(),
            final(self)@ == old(self)@,
            (result is Ok) <==> old(self).spec_logical_len() + grow_gap_len(input_size as int)
                <= usize::MAX,
            result is Ok ==> grow_relates(*old(self), *final(self), input_size as int),
            result is Err ==> *final(self) == *old(self) && result == Err::<(),
                GapBufferError,
            >(GapBufferError::CapacityOverflow),
    {
        proof {
            lemma_grow_gap_len_bounds(input_size as int);
        }
        let pages_wide: u128 = (input_size as u128) / (GAP_SIZE as u128) + (input_size as u128)
            % (GAP_SIZE as u128) + 1;
        let gap_wide: u128 = (GAP_SIZE as u128) * pages_wide;
        let buffer_len = self.buffer.len();
        let logical_len = buffer_len - self.gap_len;
        if gap_wide > (usize::MAX as u128) - (logical_len as u128) {
            return Err(GapBufferError::CapacityOverflow);
        }
        let new_gap_len: usize = gap_wide as usize;
        let gap_end = self.gap_start + self.gap_len;
        let mut new_buffer: Vec<char> = Vec::new();
        let mut i: usize = 0;
        while i < self.gap_start
            invariant
                *self == *old(self),
                self.well_formed(),
                i <= self.spec_gap_start(),
                new_buffer@.len() == i,
                forall|k: int| 0 <= k < i ==> new_buffer@[k] == self.spec_buffer()[k],
            decreases self.spec_gap_start() - i,
        {
            let c = self.buffer[i];
            new_buffer.push(c);
            i = i + 1;
        }
        let mut k: usize = 0;
        while k < new_gap_len
            invariant
                *self == *old(self),
                self.well_formed(),
                k <= new_gap_len,
                new_buffer@.len() == self.spec_gap_start() + k,
                forall|m: int| 0 <= m < self.spec_gap_start() ==> new_buffer@[m]
                    == self.spec_buffer()[m],
                forall|m: int| self.spec_gap_start() <= m < self.spec_gap_start() + k
                    ==> new_buffer@[m] == GAP_MARK,
            decreases new_gap_len - k,
        {
            new_buffer.push(GAP_MARK);
            k = k + 1;
        }
        let mut j: usize = gap_end;
        while j < buffer_len
            invariant
                *self == *old(self),
                self.well_formed(),
                buffer_len == self.spec_buffer().len(),
                gap_end == self.spec_gap_start() + self.spec_gap_len(),
                gap_end <= j <= buffer_len,
                new_buffer@.len() == self.spec_gap_start() + new_gap_len + j - gap_end,
                forall|m: int| 0 <= m < self.spec_gap_start() ==> new_buffer@[m]
                    == self.spec_buffer()[m],
                forall|m: int| self.spec_gap_start() <= m < self.spec_gap_start() + new_gap_len
                    ==> new_buffer@[m] == GAP_MARK,
                forall|m: int| gap_end <= m < j ==> new_buffer@[
                    m - gap_end + self.spec_gap_start() + new_gap_len
                ] == self.spec_buffer()[m],
            decreases buffer_len - j,
        {
            let c = self.buffer[j];
            new_buffer.push(c);
            j = j + 1;
        }
        self.buffer = new_buffer;
        self.gap_len = new_gap_len;
        proof {
            assert(self@ =~= old(self)@);
        }
        Ok(())
    }

    /// Writes `input` into the gap at the gap position and advances the gap
    /// start past it, growing the gap first when `input` exceeds the
    /// remaining capacity. On success the logical content gains `input` at
    /// the gap position; only a growth that would overflow the address
    /// space is refused, before any mutation.
    pub fn insert(&mut self, input: Vec<char>) -> (result: Result<(), GapBufferError>)
        requires
            old(self).well_formed(),
        ensures
            final(self).well_formed(),
            (result is Ok) <==> (input@.len() <= old(self).spec_gap_len() || old(
                self,
            ).spec_logical_len() + grow_gap_len(input@.len() as int) <= usize::MAX),
            result is Ok ==> insert_relates(*old(self), *final(self), input@),
            result is Err ==> *final(self) == *old(self) && result == Err::<(),
                GapBufferError,
            >(GapBufferError::CapacityOverflow),
    {
        let input_len = input.len();
        if input_len > self.gap_len {
            match self.grow(input_len) {
                Ok(()) => {}
                Err(e) => {
                    return Err(e);
                }
            }
        }
        let ghost mid = *self;
        let mut i: usize = 0;
        while i < input_len
            invariant
                i <= input_len == input@.len(),
                mid.well_formed(),
                input@.len() <= mid.spec_gap_len(),
                self.spec_gap_start() == mid.spec_gap_start(),
                self.spec_gap_len() == mid.spec_gap_len(),
                self.spec_buffer().len() == mid.spec_buffer().len(),
                forall|k: int| 0 <= k < i ==> self.spec_buffer()[mid.spec_gap_start() + k]
                    == input@[k],
                forall|k: int|
                    0 <= k < mid.spec_buffer().len() && !(mid.spec_gap_start() <= k
                        < mid.spec_gap_start() + i) ==> self.spec_buffer()[k]
                        == mid.spec_buffer()[k],
            decreases input_len - i,
        {
            let buffer_len = self.buffer.len();
            assert(self.spec_gap_start() + self.spec_gap_len() <= buffer_len);
            let idx = self.gap_start + i;
            let c = input[i];
            self.buffer[idx] = c;
            i = i + 1;
        }
        let buffer_len = self.buffer.len();
        assert(self.spec_gap_start() + self.spec_gap_len() <= buffer_len);
        self.gap_start = self.gap_start + input_len;
        self.gap_len = self.gap_len - input_len;
        proof {
            assert forall|k: int|
                self.spec_gap_start() <= k < self.spec_gap_start()
                    + self.spec_gap_len() implies self.spec_buffer()[k] == GAP_MARK by {
                assert(self.spec_buffer()[k] == mid.spec_buffer()[k]);
            }
            assert(self@ =~= mid@.subrange(0, mid.spec_gap_start()) + input@ + mid@.subrange(
                mid.spec_gap_start(),
                mid@.len() as int,
            ));
            assert(mid@ =~= old(self)@);
        }
        Ok(())
    }

    /// Extends the gap forward over the `length` units that immediately
    /// follow it, overwriting them with the placeholder; the gap position is
    /// unchanged and the logical content loses those units. A deletion of
    /// more units than remain to the right of the gap is refused before any
    /// mutation.
    pub fn delete(&mut self, length: usize) -> (result: Result<(), GapBufferError>)
        requires
            old(self).well_formed(),
        ensures
            final(self).well_formed(),
            (result is Ok) <==> length <= old(self).spec_logical_len() - old(
                self,
            ).spec_gap_start(),
            result is Ok ==> delete_relates(*old(self), *final(self), length as int),
            result is Err ==> *final(self) == *old(self) && result == Err::<(),
                GapBufferError,
            >(GapBufferError::InsufficientRightContent),
    {
        let buffer_len = self.buffer.len();
        let gap_end = self.gap_start + self.gap_len;
        if length > buffer_len - gap_end {
            return Err(GapBufferError::InsufficientRightContent);
        }
        let mut i: usize = 0;
        while i < length
            invariant
                i <= length,
                old(self).well_formed(),
                gap_end == old(self).spec_gap_start() + old(self).spec_gap_len(),
                gap_end + length <= buffer_len,
                buffer_len == self.spec_buffer().len(),
                self.spec_gap_start() == old(self).spec_gap_start(),
                self.spec_gap_len() == old(self).spec_gap_len(),
                self.spec_buffer().len() == old(self).spec_buffer().len(),
                forall|k: int| gap_end <= k < gap_end + i ==> self.spec_buffer()[k] == GAP_MARK,
                forall|k: int|
                    0 <= k < self.spec_buffer().len() && !(gap_end <= k < gap_end + i)
                        ==> self.spec_buffer()[k] == old(self).spec_buffer()[k],
            decreases length - i,
        {
            let idx = gap_end + i;
            self.buffer[idx] = GAP_MARK;
            i = i + 1;
        }
        self.gap_len = self.gap_len + length;
        proof {
            assert(self@ =~= old(self)@.subrange(0, old(self).spec_gap_start()) + old(
                self,
            )@.subrange(old(self).spec_gap_start() + length, old(self)@.len() as int));
        }
        Ok(())
    }

    /// First index of the gap; equally, the logical position at which the
    /// next edit applies.
    pub fn gap_start(&self) -> (r: usize)
        ensures
            r == self.spec_gap_start(),
    {
        self.gap_start
    }

    /// Number of reserved slots currently in the gap.
    pub fn gap_len(&self) -> (r: usize)
        ensures
            r == self.spec_gap_len(),
    {
        self.gap_len
    }

    /// Total length of the backing storage, gap included.
    pub fn buffer_len(&self) -> (r: usize)
        ensures
            r == self.spec_buffer().len(),
    {
        self.buffer.len()
    }

    /// Length of the logical content.
    pub fn logical_len(&self) -> (r: usize)
        requires
            self.well_formed(),
        ensures
            r == self.spec_logical_len(),
    {
        self.buffer.len() - self.gap_len
    }

    /// A copy of the whole backing storage, gap slots included — the raw
    /// layout, for diagnostic display.
    pub fn raw_chars(&self) -> (r: Vec<char>)
        ensures
            r@ == self.spec_buffer(),
    {
        let mut r: Vec<char> = Vec::new();
        let mut i: usize = 0;
        while i < self.buffer.len()
            invariant
                i <= self.spec_buffer().len(),
                r@ == self.spec_buffer().subrange(0, i as int),
            decreases self.spec_buffer().len() - i,
        {
            let c = self.buffer[i];
            r.push(c);
            i = i + 1;
        }
        proof {
            assert(r@ =~= self.spec_buffer());
        }
        r
    }

    /// A copy of the logical content: the left content followed by the
    /// right content, in order, skipping the gap. This is how a renderer
    /// must read the visible text.
    pub fn logical_chars(&self) -> (r: Vec<char>)
        requires
            self.well_formed(),
        ensures
            r@ == self@,
    {
        let buffer_len = self.buffer.len();
        let gap_end = self.gap_start + self.gap_len;
        let mut r: Vec<char> = Vec::new();
        let mut i: usize = 0;
        while i < self.gap_start
            invariant
                self.well_formed(),
                i <= self.spec_gap_start(),
                r@ == self.spec_buffer().subrange(0, i as int),
            decreases self.spec_gap_start() - i,
        {
            let c = self.buffer[i];
            r.push(c);
            i = i + 1;
        }
        let mut j: usize = gap_end;
        while j < buffer_len
            invariant
                self.well_formed(),
                buffer_len == self.spec_buffer().len(),
                gap_end == self.spec_gap_start() + self.spec_gap_len(),
                gap_end <= j <= buffer_len,
                r@ == self.spec_buffer().subrange(0, self.spec_gap_start())
                    + self.spec_buffer().subrange(gap_end as int, j as int),
            decreases buffer_len - j,
        {
            let c = self.buffer[j];
            r.push(c);
            j = j + 1;
        }
        proof {
            assert(r@ =~= self@);
        }
        r
    }
}

/// A well-formed buffer's storage is determined by its logical content, gap
/// position and gap length: every gap slot holds the placeholder, and every
/// other slot holds a logical unit at a fixed offset.
proof fn lemma_state_determined(a: GapBuffer, b: GapBuffer)
    requires
        a.well_formed(),
        b.well_formed(),
        a@ == b@,
        a.spec_gap_start() == b.spec_gap_start(),
        a.spec_gap_len() == b.spec_gap_len(),
    ensures
        a.spec_buffer() == b.spec_buffer(),
{
    let gs = a.spec_gap_start();
    let gl = a.spec_gap_len();
    assert(a.spec_buffer().len() == a@.len() + gl);
    assert(b.spec_buffer().len() == b@.len() + gl);
    assert forall|i: int| 0 <= i < a.spec_buffer().len() implies a.spec_buffer()[i]
        == b.spec_buffer()[i] by {
        if i < gs {
            assert(a.spec_buffer()[i] == a@[i]);
            assert(b.spec_buffer()[i] == b@[i]);
        } else if i >= gs + gl {
            assert(a.spec_buffer()[i] == a@[i - gl]);
            assert(b.spec_buffer()[i] == b@[i - gl]);
        }
    }
    assert(a.spec_buffer() =~= b.spec_buffer());
}

/// Law: relocating the gap to a cursor it already occupies is a no-op, so
/// relocating twice to the same cursor yields exactly the state that one
/// relocation yields — the same storage, gap position and gap length.
pub proof fn lemma_move_gap_idempotent(b: GapBuffer, c: GapBuffer, d: GapBuffer, cursor: int)
    requires
        b.well_formed(),
        move_gap_relates(b, c, cursor),
        move_gap_relates(c, d, cursor),
    ensures
        d.spec_buffer() == c.spec_buffer(),
        d.spec_gap_start() == c.spec_gap_start(),
        d.spec_gap_len() == c.spec_gap_len(),
{
    lemma_state_determined(c, d);
}

/// Law: relocating the gap to a valid position `p` and then inserting `s`
/// splices `s` into the logical content exactly at `p`.
pub proof fn lemma_insert_at_cursor(b: GapBuffer, c: GapBuffer, d: GapBuffer, p: int, s: Seq<char>)
    requires
        b.well_formed(),
        0 <= p <= b@.len(),
        move_gap_relates(b, c, p),
        insert_relates(c, d, s),
    ensures
        d@ == b@.subrange(0, p) + s + b@.subrange(p, b@.len() as int),
{
}

/// Law: relocating the gap to a valid position `p` and then deleting `n`
/// units removes exactly the logical units `[p, p + n)`.
pub proof fn lemma_delete_at_cursor(b: GapBuffer, c: GapBuffer, d: GapBuffer, p: int, n: int)
    requires
        b.well_formed(),
        0 <= p,
        0 <= n,
        p + n <= b@.len(),
        move_gap_relates(b, c, p),
        delete_relates(c, d, n),
    ensures
        d@ == b@.subrange(0, p) + b@.subrange(p + n, b@.len() as int),
{
}

/// The page formula always reserves at least one full page, and never less
/// than the requested capacity.
proof fn lemma_grow_gap_len_bounds(n: int)
    requires
        0 <= n,
    ensures
        n <= grow_gap_len(n),
        GAP_SIZE <= grow_gap_len(n),
{
    let g = GAP_SIZE as int;
    assert(n == g * (n / g) + n % g) by {
        vstd::arithmetic::div_mod::lemma_fundamental_div_mod(n, g);
    }
    assert(n / g >= 0) by {
        vstd::arithmetic::div_mod::lemma_div_pos_is_pos(n, g);
    }
    assert(g * (n / g + n % g + 1) == g * (n / g) + g * (n % g) + g) by (nonlinear_arith);
    assert(g * (n % g) >= n % g) by (nonlinear_arith)
        requires
            n % g >= 0,
            g >= 1,
    ;
}

} // verus!
