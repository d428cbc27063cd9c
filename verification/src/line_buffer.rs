//! The line being edited: bytes of bounded number, and a cursor among them.
use vstd::prelude::*;

verus! {

/// What a line buffer is, mathematically: its bytes, the cursor as an index
/// into them, and the number of bytes it may hold.
#[verifier::ext_equal]
pub struct LineModel {
    pub content: Seq<u8>,
    pub cursor: nat,
    pub capacity: nat,
}

impl LineModel {
    /// `0 <= cursor <= length <= capacity`.
    pub open spec fn wf(self) -> bool {
        self.cursor <= self.content.len() && self.content.len() <= self.capacity
    }

    /// The empty line of a given capacity.
    pub open spec fn empty(capacity: nat) -> LineModel {
        LineModel { content: Seq::empty(), cursor: 0, capacity }
    }

    pub open spec fn is_full(self) -> bool {
        self.content.len() >= self.capacity
    }

    /// The byte goes in at the cursor, which steps past it; a full line stays as it is.
    pub open spec fn insert(self, byte: u8) -> LineModel {
        if self.is_full() {
            self
        } else {
            LineModel {
                content: self.content.insert(self.cursor as int, byte),
                cursor: self.cursor + 1,
                capacity: self.capacity,
            }
        }
    }

    /// The byte before the cursor leaves; at the start nothing happens.
    pub open spec fn delete_left(self) -> LineModel {
        if self.cursor == 0 {
            self
        } else {
            LineModel {
                content: self.content.remove(self.cursor - 1),
                cursor: (self.cursor - 1) as nat,
                capacity: self.capacity,
            }
        }
    }

    /// The byte under the cursor leaves; at the end nothing happens.
    pub open spec fn delete_right(self) -> LineModel {
        if self.cursor >= self.content.len() {
            self
        } else {
            LineModel {
                content: self.content.remove(self.cursor as int),
                cursor: self.cursor,
                capacity: self.capacity,
            }
        }
    }

    pub open spec fn move_to(self, cursor: nat) -> LineModel {
        LineModel { content: self.content, cursor, capacity: self.capacity }
    }

    pub open spec fn move_left(self) -> LineModel {
        if self.cursor == 0 {
            self
        } else {
            self.move_to((self.cursor - 1) as nat)
        }
    }

    pub open spec fn move_right(self) -> LineModel {
        if self.cursor >= self.content.len() {
            self
        } else {
            self.move_to(self.cursor + 1)
        }
    }

    pub open spec fn move_home(self) -> LineModel {
        self.move_to(0)
    }

    pub open spec fn move_end(self) -> LineModel {
        self.move_to(self.content.len())
    }

    /// How many bytes of an entry fit.
    pub open spec fn kept(self, entry: Seq<u8>) -> nat {
        if entry.len() <= self.capacity {
            entry.len()
        } else {
            self.capacity
        }
    }

    /// The line becomes the entry, cut to capacity, with the cursor at its end.
    pub open spec fn replace_with(self, entry: Seq<u8>) -> LineModel {
        LineModel {
            content: entry.take(self.kept(entry) as int),
            cursor: self.kept(entry),
            capacity: self.capacity,
        }
    }

    pub open spec fn reset(self) -> LineModel {
        LineModel::empty(self.capacity)
    }

    /// The bytes are inserted one after the other.
    pub open spec fn insert_all(self, bytes: Seq<u8>) -> LineModel
        decreases bytes.len(),
    {
        if bytes.len() == 0 {
            self
        } else {
            self.insert_all(bytes.drop_last()).insert(bytes.last())
        }
    }
}

/// The most bytes that one piece of storage may have.
pub const MAX_BYTES: usize = usize::MAX / 2;

/// An insertion was refused: the line already holds as many bytes as it may.
#[derive(Clone, Copy, Debug, PartialEq, Eq, Structural)]
pub struct BufferFull;

/// An entry was longer than the line may be, and lost its last `dropped` bytes.
#[derive(Clone, Copy, Debug, PartialEq, Eq, Structural)]
pub struct Truncated {
    pub dropped: usize,
}

/// Moves the bytes from `at` up to `len` one place on, towards the end.
/// The place at `len` has to be there. What lies before `at` or behind
/// `len` stays, and so does the byte at `at`.
fn shift_right(data: &mut Vec<u8>, at: usize, len: usize)
    requires
        at <= len < old(data)@.len(),
    ensures
        final(data)@.len() == old(data)@.len(),
        forall|i: int| 0 <= i <= at ==> #[trigger] final(data)@[i] == old(data)@[i],
        forall|i: int| at < i <= len ==> #[trigger] final(data)@[i] == old(data)@[i - 1],
        forall|i: int| len < i < old(data)@.len() ==> #[trigger] final(data)@[i] == old(data)@[i],
{
    let mut j: usize = len;
    while j > at
        invariant
            at <= j <= len,
            len < data@.len(),
            data@.len() == old(data)@.len(),
            forall|i: int| 0 <= i <= j ==> #[trigger] data@[i] == old(data)@[i],
            forall|i: int| j < i <= len ==> #[trigger] data@[i] == old(data)@[i - 1],
            forall|i: int| len < i < data@.len() ==> #[trigger] data@[i] == old(data)@[i],
        decreases j,
    {
        let byte: u8 = data[j - 1];
        data[j] = byte;
        j = j - 1;
    }
}

/// Moves the bytes behind `at` up to `len` one place back, towards the
/// start, over the byte at `at`. What lies before `at` or from `len - 1`
/// on stays.
fn shift_left(data: &mut Vec<u8>, at: usize, len: usize)
    requires
        at < len <= old(data)@.len(),
    ensures
        final(data)@.len() == old(data)@.len(),
        forall|i: int| 0 <= i < at ==> #[trigger] final(data)@[i] == old(data)@[i],
        forall|i: int| at <= i < len - 1 ==> #[trigger] final(data)@[i] == old(data)@[i + 1],
        forall|i: int|
            len - 1 <= i < old(data)@.len() ==> #[trigger] final(data)@[i] == old(data)@[i],
{
    let mut j: usize = at;
    while j + 1 < len
        invariant
            at <= j < len,
            len <= data@.len(),
            data@.len() == old(data)@.len(),
            forall|i: int| 0 <= i < at ==> #[trigger] data@[i] == old(data)@[i],
            forall|i: int| at <= i < j ==> #[trigger] data@[i] == old(data)@[i + 1],
            forall|i: int| j <= i < data@.len() ==> #[trigger] data@[i] == old(data)@[i],
        decreases len - j,
    {
        let byte: u8 = data[j + 1];
        data[j] = byte;
        j = j + 1;
    }
}

/// A line of at most `capacity` bytes with a cursor. The storage has
/// `capacity` places from the time the buffer is made, and never more or
/// fewer; the line lies in the first `len` of them.
pub struct LineBuffer {
    data: Vec<u8>,
    len: usize,
    cursor: usize,
}

impl View for LineBuffer {
    type V = LineModel;

    closed spec fn view(&self) -> LineModel {
        LineModel {
            content: self.data@.take(self.used() as int),
            cursor: self.cursor as nat,
            capacity: self.data@.len(),
        }
    }
}

impl LineBuffer {
    /// The number of places of the storage that the line takes.
    closed spec fn used(&self) -> usize {
        if self.len <= self.data@.len() {
            self.len
        } else {
            self.data@.len() as usize
        }
    }

    /// The invariant of the type: the line lies within the storage, and
    /// the cursor within the line.
    pub open spec fn wf(&self) -> bool {
        self.within() && self@.wf()
    }

    /// The line lies within the storage.
    pub closed spec fn within(&self) -> bool {
        self.len <= self.data@.len()
    }

    /// An empty line that may grow to `capacity` bytes.
    pub fn new(capacity: usize) -> (buffer: LineBuffer)
        requires
            capacity <= MAX_BYTES,
        ensures
            buffer.wf(),
            buffer@ == LineModel::empty(capacity as nat),
    {
        let buffer = LineBuffer { data: vec![0u8; capacity], len: 0, cursor: 0 };
        assert(buffer@.content =~= Seq::<u8>::empty());
        buffer
    }

    pub fn capacity(&self) -> (capacity: usize)
        ensures
            capacity == self@.capacity,
    {
        self.data.len()
    }

    pub fn len(&self) -> (len: usize)
        ensures
            len == self@.content.len(),
    {
        if self.len <= self.data.len() {
            self.len
        } else {
            self.data.len()
        }
    }

    pub fn cursor(&self) -> (cursor: usize)
        ensures
            cursor == self@.cursor,
    {
        self.cursor
    }

    /// The bytes of the line, in order.
    pub fn as_slice(&self) -> (bytes: &[u8])
        ensures
            bytes@ == self@.content,
    {
        let all: &[u8] = self.data.as_slice();
        first_of(all, self.len())
    }

    /// Puts a byte in at the cursor. A full line refuses it and does not change.
    pub fn insert(&mut self, byte: u8) -> (outcome: Result<(), BufferFull>)
        requires
            old(self).wf(),
        ensures
            final(self).wf(),
            final(self)@ == old(self)@.insert(byte),
            outcome == if old(self)@.is_full() {
                Err::<(), BufferFull>(BufferFull)
            } else {
                Ok::<(), BufferFull>(())
            },
    {
        if self.len >= self.data.len() {
            Err(BufferFull)
        } else {
            shift_right(&mut self.data, self.cursor, self.len);
            self.data[self.cursor] = byte;
            self.len = self.len + 1;
            self.cursor = self.cursor + 1;
            assert(self@.content =~= old(self)@.content.insert(old(self)@.cursor as int, byte));
            Ok(())
        }
    }

    /// Removes the byte before the cursor; says whether there was one.
    pub fn delete_left(&mut self) -> (changed: bool)
        requires
            old(self).wf(),
        ensures
            final(self).wf(),
            final(self)@ == old(self)@.delete_left(),
            changed == (old(self)@.cursor > 0),
    {
        if self.cursor == 0 {
            false
        } else {
            self.cursor = self.cursor - 1;
            shift_left(&mut self.data, self.cursor, self.len);
            self.len = self.len - 1;
            assert(self@.content =~= old(self)@.content.remove(old(self)@.cursor - 1));
            true
        }
    }

    /// Removes the byte under the cursor; says whether there was one.
    pub fn delete_right(&mut self) -> (changed: bool)
        requires
            old(self).wf(),
        ensures
            final(self).wf(),
            final(self)@ == old(self)@.delete_right(),
            changed == (old(self)@.cursor < old(self)@.content.len()),
    {
        if self.cursor >= self.len {
            false
        } else {
            shift_left(&mut self.data, self.cursor, self.len);
            self.len = self.len - 1;
            assert(self@.content =~= old(self)@.content.remove(old(self)@.cursor as int));
            true
        }
    }

    /// Steps the cursor one byte back; says whether it moved.
    pub fn move_left(&mut self) -> (moved: bool)
        requires
            old(self).wf(),
        ensures
            final(self).wf(),
            final(self)@ == old(self)@.move_left(),
            moved == (old(self)@.cursor > 0),
    {
        if self.cursor == 0 {
            false
        } else {
            self.cursor = self.cursor - 1;
            true
        }
    }

    /// Steps the cursor one byte on; says whether it moved.
    pub fn move_right(&mut self) -> (moved: bool)
        requires
            old(self).wf(),
        ensures
            final(self).wf(),
            final(self)@ == old(self)@.move_right(),
            moved == (old(self)@.cursor < old(self)@.content.len()),
    {
        if self.cursor >= self.len {
            false
        } else {
            self.cursor = self.cursor + 1;
            true
        }
    }

    /// Puts the cursor before the first byte.
    pub fn move_home(&mut self)
        requires
            old(self).wf(),
        ensures
            final(self).wf(),
            final(self)@ == old(self)@.move_home(),
    {
        self.cursor = 0;
    }

    /// Puts the cursor behind the last byte.
    pub fn move_end(&mut self)
        requires
            old(self).wf(),
        ensures
            final(self).wf(),
            final(self)@ == old(self)@.move_end(),
    {
        self.cursor = self.len;
    }

    /// Makes the line a copy of `entry`, as far as it fits, and puts the
    /// cursor at its end. Says how much was cut off, if anything was.
    pub fn replace_with(&mut self, entry: &[u8]) -> (cut: Option<Truncated>)
        requires
            old(self).wf(),
        ensures
            final(self).wf(),
            final(self)@ == old(self)@.replace_with(entry@),
            cut == if entry@.len() <= old(self)@.capacity {
                None::<Truncated>
            } else {
                Some(Truncated { dropped: (entry@.len() - old(self)@.capacity) as usize })
            },
    {
        let capacity: usize = self.data.len();
        let kept: usize = if entry.len() <= capacity {
            entry.len()
        } else {
            capacity
        };
        let mut i: usize = 0;
        while i < kept
            invariant
                i <= kept,
                kept <= entry@.len(),
                kept <= capacity,
                capacity == self.data@.len(),
                capacity == old(self).data@.len(),
                forall|k: int| 0 <= k < i ==> #[trigger] self.data@[k] == entry@[k],
            decreases kept - i,
        {
            self.data[i] = entry[i];
            i = i + 1;
        }
        self.len = kept;
        self.cursor = kept;
        assert(self@.content =~= entry@.take(kept as int));
        if entry.len() <= capacity {
            None
        } else {
            Some(Truncated { dropped: entry.len() - capacity })
        }
    }

    /// Copies bytes into the storage from place `from` on, as many as fit;
    /// says how many that were.
    fn fill(&mut self, from: usize, bytes: &[u8]) -> (taken: usize)
        requires
            from <= old(self).data@.len(),
        ensures
            final(self).data@.len() == old(self).data@.len(),
            final(self).len == old(self).len,
            final(self).cursor == old(self).cursor,
            taken <= bytes@.len(),
            from + taken <= old(self).data@.len(),
            taken == bytes@.len() || from + taken == old(self).data@.len(),
            forall|k: int| 0 <= k < from ==> #[trigger] final(self).data@[k] == old(self).data@[k],
            forall|k: int| 0 <= k < taken ==> final(self).data@[from + k] == #[trigger] bytes@[k],
    {
        let size: usize = self.data.len();
        let room: usize = size - from;
        let taken: usize = if bytes.len() <= room {
            bytes.len()
        } else {
            room
        };
        let mut i: usize = 0;
        while i < taken
            invariant
                i <= taken,
                taken <= bytes@.len(),
                from + taken <= size,
                size == self.data@.len(),
                self.data@.len() == old(self).data@.len(),
                self.len == old(self).len,
                self.cursor == old(self).cursor,
                forall|k: int| 0 <= k < from ==> #[trigger] self.data@[k] == old(self).data@[k],
                forall|k: int| 0 <= k < i ==> self.data@[from + k] == #[trigger] bytes@[k],
            decreases taken - i,
        {
            self.data[from + i] = bytes[i];
            i = i + 1;
        }
        taken
    }

    /// Makes the line a copy of an entry that comes in two parts, as far as
    /// it fits, and puts the cursor at its end.
    pub fn replace_with_parts(&mut self, head: &[u8], tail: &[u8])
        requires
            old(self).wf(),
        ensures
            final(self).wf(),
            final(self)@ == old(self)@.replace_with(head@ + tail@),
    {
        let size: usize = self.data.len();
        let first: usize = self.fill(0, head);
        let second: usize = self.fill(first, tail);
        assert(first + second <= size);
        self.len = first + second;
        self.cursor = first + second;
        proof {
            let entry = head@ + tail@;
            let kept = old(self)@.kept(entry);
            assert(first + second == kept);
            assert(self@.content =~= entry.take(kept as int));
        }
    }

    /// Makes this line a copy of another, which must not be longer than
    /// this one may be: the same bytes, and the cursor in the same place.
    pub fn copy_from(&mut self, other: &LineBuffer)
        requires
            old(self).wf(),
            other.wf(),
            other@.content.len() <= old(self)@.capacity,
        ensures
            final(self).wf(),
            final(self)@ == (LineModel {
                content: other@.content,
                cursor: other@.cursor,
                capacity: old(self)@.capacity,
            }),
    {
        let taken: usize = self.fill(0, other.as_slice());
        self.len = taken;
        self.cursor = other.cursor;
        assert(self@.content =~= other@.content);
    }

    /// Empties the line and puts the cursor at 0.
    pub fn reset(&mut self)
        requires
            old(self).wf(),
        ensures
            final(self).wf(),
            final(self)@ == old(self)@.reset(),
    {
        self.len = 0;
        self.cursor = 0;
        assert(self@.content =~= Seq::<u8>::empty());
    }
}

/// The first `len` bytes of a slice.
fn first_of(bytes: &[u8], len: usize) -> (part: &[u8])
    requires
        len <= bytes@.len(),
    ensures
        part@ == bytes@.take(len as int),
{
    &bytes[0..len]
}

} // verus!
