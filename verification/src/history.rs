//! Earlier lines, kept in a ring of entry slots over one shared region of bytes.
use vstd::prelude::*;
use crate::line_buffer::{Truncated, MAX_BYTES};

verus! {

/// Which way to walk through the history.
#[derive(Clone, Copy, Debug, PartialEq, Eq, Structural)]
pub enum Direction {
    /// Towards older entries.
    Up,
    /// Towards newer entries.
    Down,
}

/// What a history is, mathematically: its entries, oldest first, the number
/// of entries it may hold, and the number of bytes an entry may have.
#[verifier::ext_equal]
pub struct HistoryModel {
    pub entries: Seq<Seq<u8>>,
    pub capacity: nat,
    pub bound: nat,
}

impl HistoryModel {
    pub open spec fn wf(self) -> bool {
        &&& self.entries.len() <= self.capacity
        &&& forall|k: int|
            0 <= k < self.entries.len() ==> (#[trigger] self.entries[k]).len() <= self.bound
    }

    pub open spec fn empty(capacity: nat, bound: nat) -> HistoryModel {
        HistoryModel { entries: Seq::empty(), capacity, bound }
    }

    /// A line as the history stores it: whole, or cut to the bound.
    pub open spec fn clip(self, line: Seq<u8>) -> Seq<u8> {
        if line.len() <= self.bound {
            line
        } else {
            line.take(self.bound as int)
        }
    }

    /// The line becomes the newest entry. Where every slot is taken, the
    /// oldest entry makes room for it. A history without slots keeps nothing.
    pub open spec fn push(self, line: Seq<u8>) -> HistoryModel {
        if self.capacity == 0 {
            self
        } else if self.entries.len() < self.capacity {
            HistoryModel { entries: self.entries.push(self.clip(line)), ..self }
        } else {
            HistoryModel { entries: self.entries.skip(1).push(self.clip(line)), ..self }
        }
    }

    /// The lines are pushed one after the other.
    pub open spec fn push_all(self, lines: Seq<Seq<u8>>) -> HistoryModel
        decreases lines.len(),
    {
        if lines.len() == 0 {
            self
        } else {
            self.push_all(lines.drop_last()).push(lines.last())
        }
    }

    /// How many of `offered` lines a load takes: as many as there are free slots.
    pub open spec fn accepted(self, offered: nat) -> nat {
        if self.entries.len() + offered <= self.capacity {
            offered
        } else {
            (self.capacity - self.entries.len()) as nat
        }
    }

    /// The first lines that find a free slot are added in order; nothing is displaced.
    pub open spec fn load(self, lines: Seq<Seq<u8>>) -> HistoryModel {
        HistoryModel {
            entries: self.entries + lines.take(self.accepted(lines.len()) as int).map_values(
                |line: Seq<u8>| self.clip(line),
            ),
            ..self
        }
    }

    /// The index next to `current` in a direction, or `None` where `current`
    /// is the last entry that way, or no entry at all.
    pub open spec fn navigate(self, direction: Direction, current: nat) -> Option<nat> {
        match direction {
            Direction::Up => if 0 < current && current < self.entries.len() {
                Some((current - 1) as nat)
            } else {
                None
            },
            Direction::Down => if current + 1 < self.entries.len() {
                Some(current + 1)
            } else {
                None
            },
        }
    }
}

/// The position `i` of a ring of `n` places, for `i` below `2 * n`.
pub open spec fn wrap(i: int, n: int) -> int {
    if i >= n {
        i - n
    } else {
        i
    }
}

/// How far on `p` lies from `start`, walking forwards round the ring.
pub open spec fn ahead(start: int, p: int, n: int) -> int {
    if p >= start {
        p - start
    } else {
        p - start + n
    }
}

/// The `len` bytes that begin at `start` and run on round the ring.
pub open spec fn ring_read(region: Seq<u8>, start: int, len: int) -> Seq<u8> {
    Seq::new(len as nat, |i: int| region[wrap(start + i, region.len() as int)])
}

/// The most slots a history may have: what their table takes fits in one piece of storage.
pub const MAX_SLOTS: usize = MAX_BYTES / 16;

/// Whether a history of `capacity` slots for entries of up to `bound`
/// bytes can be had: the region for the entries, and the table of the
/// slots, each fit in one piece of storage.
pub open spec fn fits(capacity: usize, bound: usize) -> bool {
    capacity <= MAX_SLOTS && capacity * bound <= MAX_BYTES
}

/// Where an entry lies in the region.
#[derive(Clone, Copy, Debug)]
struct Slot {
    start: usize,
    len: usize,
}

/// One entry of the history, seen in place: `head` runs up to the end of the
/// region at most, and `tail` holds what continues at the region's start.
/// The entry is `head` followed by `tail`.
#[derive(Clone, Copy, Debug, PartialEq, Eq)]
pub struct CircularSlice<'a> {
    head: &'a [u8],
    tail: &'a [u8],
}

impl<'a> View for CircularSlice<'a> {
    type V = Seq<u8>;

    /// The entry as one run of bytes.
    open spec fn view(&self) -> Seq<u8> {
        self.head() + self.tail()
    }
}

impl<'a> CircularSlice<'a> {
    /// The part that lies before the end of the region.
    pub closed spec fn head(&self) -> Seq<u8> {
        self.head@
    }

    /// The part that lies at the start of the region.
    pub closed spec fn tail(&self) -> Seq<u8> {
        self.tail@
    }

    /// The two parts, in order.
    pub fn get_slices(&self) -> (parts: (&'a [u8], &'a [u8]))
        ensures
            parts.0@ == self.head(),
            parts.1@ == self.tail(),
    {
        (self.head, self.tail)
    }

    /// The entry in one piece, copied.
    pub fn to_vec(&self) -> (bytes: Vec<u8>)
        ensures
            bytes@ == self@,
    {
        let mut bytes: Vec<u8> = Vec::new();
        let mut i: usize = 0;
        while i < self.head.len()
            invariant
                i <= self.head@.len(),
                bytes@ == self.head@.take(i as int),
            decreases self.head@.len() - i,
        {
            bytes.push(self.head[i]);
            i = i + 1;
            assert(bytes@ =~= self.head@.take(i as int));
        }
        assert(self.head@.take(i as int) =~= self.head@);
        let mut j: usize = 0;
        while j < self.tail.len()
            invariant
                j <= self.tail@.len(),
                bytes@ == self.head@ + self.tail@.take(j as int),
            decreases self.tail@.len() - j,
        {
            bytes.push(self.tail[j]);
            j = j + 1;
            assert(bytes@ =~= self.head@ + self.tail@.take(j as int));
        }
        assert(self.tail@.take(j as int) =~= self.tail@);
        bytes
    }
}

/// The views of a run of byte slices.
pub open spec fn views_of(lines: Seq<&[u8]>) -> Seq<Seq<u8>> {
    lines.map_values(|line: &[u8]| line@)
}

/// Copies the first `len` bytes of `bytes` into the ring, from `start` on.
/// Places outside that stretch keep what they held.
fn copy_into_ring(region: &mut Vec<u8>, start: usize, bytes: &[u8], len: usize)
    requires
        len <= bytes@.len(),
        len <= old(region)@.len(),
        start < old(region)@.len() || (start == 0 && len == 0),
    ensures
        final(region)@.len() == old(region)@.len(),
        forall|t: int|
            0 <= t < len ==> final(region)@[wrap(start + t, old(region)@.len() as int)]
                == #[trigger] bytes@[t],
        forall|p: int|
            0 <= p < old(region)@.len() && ahead(start as int, p, old(region)@.len() as int) >= len
                ==> #[trigger] final(region)@[p] == old(region)@[p],
{
    let size: usize = region.len();
    let mut pos: usize = start;
    let mut i: usize = 0;
    while i < len
        invariant
            i <= len,
            len <= bytes@.len(),
            len <= size,
            size == region@.len(),
            size == old(region)@.len(),
            start < size || (start == 0 && len == 0),
            pos == wrap(start + i, size as int),
            forall|t: int|
                0 <= t < i ==> region@[wrap(start + t, size as int)] == #[trigger] bytes@[t],
            forall|p: int|
                0 <= p < size && ahead(start as int, p, size as int) >= i ==> #[trigger] region@[p]
                    == old(region)@[p],
        decreases len - i,
    {
        region[pos] = bytes[i];
        pos = if pos + 1 == size {
            0
        } else {
            pos + 1
        };
        i = i + 1;
    }
}

/// The part of a slice from `from` up to `to`.
fn slice_range(bytes: &[u8], from: usize, to: usize) -> (part: &[u8])
    requires
        from <= to <= bytes@.len(),
    ensures
        part@ == bytes@.subrange(from as int, to as int),
{
    &bytes[from..to]
}

/// Whether a history of `capacity` slots for entries of up to `bound` bytes can be had.
pub fn can_hold(capacity: usize, bound: usize) -> (can: bool)
    ensures
        can == fits(capacity, bound),
{
    if capacity > MAX_SLOTS {
        false
    } else {
        match capacity.checked_mul(bound) {
            Some(size) => size <= MAX_BYTES,
            None => false,
        }
    }
}

/// A ring of entry slots whose bytes lie, one entry after the other, in a
/// region that is itself a ring. Slots and region are set aside once.
pub struct History {
    region: Vec<u8>,
    slots: Vec<Slot>,
    /// The slot that the next entry goes to.
    write_index: usize,
    /// The number of slots in use.
    count: usize,
    /// The place in the region where the next entry begins.
    write_offset: usize,
    /// The number of bytes in use.
    used: usize,
    /// The most bytes an entry may have.
    bound: usize,
    /// For each entry, oldest first: how far behind the oldest entry's first byte it begins.
    offs: Ghost<Seq<int>>,
}

impl View for History {
    type V = HistoryModel;

    closed spec fn view(&self) -> HistoryModel {
        HistoryModel {
            entries: Seq::new(self.count as nat, |k: int| self.entry_at(k)),
            capacity: self.slots@.len(),
            bound: self.bound as nat,
        }
    }
}

impl History {
    /// The slot of the oldest entry.
    closed spec fn oldest(&self) -> int {
        wrap(self.write_index + self.slots@.len() - self.count, self.slots@.len() as int)
    }

    /// The slot of the `k`-th entry, counting from the oldest.
    closed spec fn slot(&self, k: int) -> Slot {
        self.slots@[wrap(self.oldest() + k, self.slots@.len() as int)]
    }

    closed spec fn entry_at(&self, k: int) -> Seq<u8> {
        ring_read(self.region@, self.slot(k).start as int, self.slot(k).len as int)
    }

    /// The place in the region from which the offsets count.
    closed spec fn base(&self) -> int {
        if self.count == 0 {
            self.write_offset as int
        } else {
            self.slot(0).start as int
        }
    }

    closed spec fn in_region(&self, p: int) -> bool {
        0 <= p < self.region@.len() || (p == 0 && self.region@.len() == 0)
    }

    closed spec fn entry_ok(&self, k: int) -> bool {
        let s = self.slot(k);
        let off = self.offs@[k];
        &&& s.len <= self.bound
        &&& 0 <= off
        &&& off + s.len <= self.used
        &&& self.in_region(s.start as int)
        &&& s.start == wrap(self.base() + off, self.region@.len() as int)
        &&& (k + 1 < self.count ==> self.offs@[k + 1] == off + s.len)
        &&& (k + 1 == self.count ==> off + s.len == self.used)
        &&& self.used - off <= (self.count - k) * self.bound
    }

    /// The number of bytes of the region.
    pub closed spec fn region_len(&self) -> nat {
        self.region@.len()
    }

    /// The place in the region where the entry at `index` begins.
    pub closed spec fn start_of(&self, index: int) -> nat {
        self.slot(index).start as nat
    }

    /// How many bytes of the entry at `index` lie before the end of the
    /// region: all of them, unless the entry runs on at the region's start.
    pub open spec fn head_len(&self, index: int) -> nat {
        let len = self@.entries[index].len();
        if self.start_of(index) + len <= self.region_len() {
            len
        } else {
            (self.region_len() - self.start_of(index)) as nat
        }
    }

    /// The region has room for every slot's entry at its longest; each
    /// entry begins inside the region, and the next one where it ends,
    /// round the region's end.
    pub proof fn law_entries_are_packed(&self, index: int)
        requires
            self.wf(),
            0 <= index < self@.entries.len(),
        ensures
            self.region_len() == self@.capacity * self@.bound,
            self.start_of(index) < self.region_len() || self.region_len() == 0,
            index + 1 < self@.entries.len() ==> self.start_of(index + 1) == wrap(
                (self.start_of(index) + self@.entries[index].len()) as int,
                self.region_len() as int,
            ),
    {
        assert(self.entry_ok(index));
        assert(self.entry_ok(0));
        if index + 1 < self.count {
            assert(self.entry_ok(index + 1));
        }
    }

    /// The invariant of the type: the entries lie one behind the other in the
    /// region, none longer than the bound, and the counters agree with them.
    pub closed spec fn wf(&self) -> bool {
        &&& self.slots@.len() * self.bound == self.region@.len()
        &&& self.count <= self.slots@.len()
        &&& self.write_index < self.slots@.len() || (self.write_index == 0 && self.slots@.len() == 0)
        &&& self.used <= self.region@.len()
        &&& self.in_region(self.write_offset as int)
        &&& self.write_offset == wrap(self.base() + self.used, self.region@.len() as int)
        &&& self.offs@.len() == self.count
        &&& (self.count == 0 ==> self.used == 0)
        &&& (self.count > 0 ==> self.offs@[0] == 0)
        &&& forall|k: int| 0 <= k < self.count ==> #[trigger] self.entry_ok(k)
    }

    /// `wf` of the type gives `wf` of the view.
    pub proof fn lemma_view_wf(&self)
        requires
            self.wf(),
        ensures
            self@.wf(),
    {
        assert forall|k: int| 0 <= k < self@.entries.len() implies (#[trigger] self@.entries[k]).len()
            <= self@.bound by {
            assert(self.entry_ok(k));
        }
    }

    /// An empty history of `capacity` slots for entries of up to `bound` bytes each.
    pub fn new(capacity: usize, bound: usize) -> (history: History)
        requires
            fits(capacity, bound),
        ensures
            history.wf(),
            history@ == HistoryModel::empty(capacity as nat, bound as nat),
    {
        let size: usize = capacity * bound;
        let history = History {
            region: vec![0u8; size],
            slots: vec![Slot { start: 0, len: 0 }; capacity],
            write_index: 0,
            count: 0,
            write_offset: 0,
            used: 0,
            bound,
            offs: Ghost(Seq::empty()),
        };
        assert(history@.entries =~= Seq::<Seq<u8>>::empty());
        history
    }

    /// Gives up the oldest entry.
    fn evict_oldest(&mut self)
        requires
            old(self).wf(),
            old(self).count > 0,
        ensures
            final(self).wf(),
            final(self)@ == (HistoryModel { entries: old(self)@.entries.skip(1), ..old(self)@ }),
            final(self).count == old(self).count - 1,
    {
        let capacity: usize = self.slots.len();
        let first: usize = if self.write_index >= self.count {
            self.write_index - self.count
        } else {
            self.write_index + (capacity - self.count)
        };
        let gone: usize = self.slots[first].len;
        proof {
            assert(old(self).entry_ok(0));
            assert(first == old(self).oldest());
            if old(self).count > 1 {
                assert(old(self).entry_ok(1));
            }
        }
        self.count = self.count - 1;
        self.used = self.used - gone;
        proof {
            let before = old(self).offs@;
            self.offs@ = Seq::new((before.len() - 1) as nat, |k: int| before[k + 1] - gone);
            assert forall|k: int| 0 <= k < self.count implies #[trigger] self.slot(k) == old(
                self,
            ).slot(k + 1) by {}
            assert forall|k: int| 0 <= k < self.count implies #[trigger] self.entry_ok(k) by {
                assert(old(self).entry_ok(k + 1));
                assert(self.slot(k) == old(self).slot(k + 1));
                assert(old(self).entry_ok(1));
                lemma_offsets_grow(old(self), 1, k + 1);
                assert((self.count - k) * self.bound == (old(self).count - (k + 1))
                    * old(self).bound);
            }
            assert(self@.entries =~= old(self)@.entries.skip(1)) by {
                assert forall|k: int| 0 <= k < self.count implies self.entry_at(k) == old(
                    self,
                ).entry_at(k + 1) by {
                    assert(self.slot(k) == old(self).slot(k + 1));
                }
            }
        }
    }

    /// Adds the first `len` bytes of `line` as the newest entry, in a free slot.
    fn append(&mut self, line: &[u8], len: usize)
        requires
            old(self).wf(),
            old(self).count < old(self).slots@.len(),
            len <= line@.len(),
            len <= old(self).bound,
        ensures
            final(self).wf(),
            final(self)@ == (HistoryModel {
                entries: old(self)@.entries.push(line@.take(len as int)),
                ..old(self)@
            }),
    {
        let capacity: usize = self.slots.len();
        let start: usize = self.write_offset;
        proof {
            lemma_room_for_one(old(self));
        }
        copy_into_ring(&mut self.region, start, line, len);
        self.slots[self.write_index] = Slot { start, len };
        self.write_index = if self.write_index + 1 == capacity {
            0
        } else {
            self.write_index + 1
        };
        let size: usize = self.region.len();
        self.write_offset = if len >= size - start {
            len - (size - start)
        } else {
            start + len
        };
        proof {
            self.offs@ = old(self).offs@.push(old(self).used as int);
        }
        self.count = self.count + 1;
        self.used = self.used + len;
        proof {
            let n = old(self).count as int;
            assert(self.oldest() == old(self).oldest());
            assert forall|k: int| 0 <= k < n implies #[trigger] self.slot(k) == old(self).slot(
                k,
            ) by {}
            assert(self.slot(n) == (Slot { start, len }));
            if n > 0 {
                assert(old(self).entry_ok(0));
            }
            assert(self.base() == old(self).base());
            assert(self.write_offset == wrap(self.base() + self.used, size as int));
            assert forall|k: int| 0 <= k < self.count implies #[trigger] self.entry_ok(k) by {
                if k < n {
                    assert(old(self).entry_ok(k));
                    assert(self.slot(k) == old(self).slot(k));
                    assert((self.count - k) * self.bound == (n - k) * self.bound + self.bound)
                        by (nonlinear_arith)
                        requires
                            self.count == n + 1,
                    ;
                } else {
                    if n > 0 {
                        assert(old(self).entry_ok(n - 1));
                    }
                    assert((self.count - k) * self.bound == self.bound) by (nonlinear_arith)
                        requires
                            self.count - k == 1,
                    ;
                }
            }
            assert(self@.entries =~= old(self)@.entries.push(line@.take(len as int))) by {
                assert forall|k: int| 0 <= k < n implies self.entry_at(k) == old(self).entry_at(
                    k,
                ) by {
                    assert(old(self).entry_ok(k));
                    assert(self.slot(k) == old(self).slot(k));
                    let s = old(self).slot(k);
                    assert forall|j: int| 0 <= j < s.len implies #[trigger] self.entry_at(k)[j]
                        == old(self).entry_at(k)[j] by {
                        let p = wrap(s.start + j, size as int);
                        assert(ahead(start as int, p, size as int) >= len);
                    }
                    assert(self.entry_at(k) =~= old(self).entry_at(k));
                }
                assert(self.entry_at(n) =~= line@.take(len as int));
            }
        }
    }

    /// Makes `line` the newest entry, cut to the bound where it is longer;
    /// says how much was cut off, if anything was. Where every slot is taken,
    /// the oldest entry is given up for it. A history without slots keeps
    /// nothing and cuts nothing.
    pub fn push(&mut self, line: &[u8]) -> (cut: Option<Truncated>)
        requires
            old(self).wf(),
        ensures
            final(self).wf(),
            final(self)@ == old(self)@.push(line@),
            cut == if old(self)@.capacity == 0 || line@.len() <= old(self)@.bound {
                None::<Truncated>
            } else {
                Some(Truncated { dropped: (line@.len() - old(self)@.bound) as usize })
            },
    {
        if self.slots.len() == 0 {
            return None;
        }
        let len: usize = if line.len() <= self.bound {
            line.len()
        } else {
            self.bound
        };
        if self.count == self.slots.len() {
            self.evict_oldest();
        }
        self.append(line, len);
        proof {
            assert(line@.take(line@.len() as int) =~= line@);
        }
        if line.len() <= self.bound {
            None
        } else {
            Some(Truncated { dropped: line.len() - self.bound })
        }
    }

    /// Adds lines in order while a slot is free, each cut to the bound where
    /// it is longer, and says how many were added. Nothing is displaced.
    pub fn load_entries(&mut self, lines: &[&[u8]]) -> (accepted: usize)
        requires
            old(self).wf(),
        ensures
            final(self).wf(),
            final(self)@ == old(self)@.load(views_of(lines@)),
            accepted == old(self)@.accepted(lines@.len()),
    {
        let ghost before = self@;
        let ghost offered = views_of(lines@);
        let mut i: usize = 0;
        while i < lines.len() && self.count < self.slots.len()
            invariant
                self.wf(),
                i <= lines@.len(),
                offered == views_of(lines@),
                before.entries.len() + i == self@.entries.len(),
                self@.entries.len() <= before.capacity,
                self@ == (HistoryModel {
                    entries: before.entries + offered.take(i as int).map_values(
                        |line: Seq<u8>| before.clip(line),
                    ),
                    ..before
                }),
            decreases lines@.len() - i,
        {
            let line: &[u8] = lines[i];
            let len: usize = if line.len() <= self.bound {
                line.len()
            } else {
                self.bound
            };
            let ghost so_far = self@;
            self.append(line, len);
            i = i + 1;
            proof {
                assert(line@.take(line@.len() as int) =~= line@);
                assert(offered[i - 1] == line@);
                assert(self@.entries =~= before.entries + offered.take(i as int).map_values(
                    |line: Seq<u8>| before.clip(line),
                ));
            }
        }
        i
    }

    /// The index next to `current` in a direction, or `None` where `current`
    /// is the last entry that way, or no entry at all. There is no way round
    /// from the oldest entry to the newest, nor back.
    pub fn navigate(&self, direction: Direction, current: usize) -> (next: Option<usize>)
        ensures
            match next {
                Some(index) => self@.navigate(direction, current as nat) == Some(index as nat),
                None => self@.navigate(direction, current as nat).is_none(),
            },
    {
        match direction {
            Direction::Up => {
                if 0 < current && current < self.count {
                    Some(current - 1)
                } else {
                    None
                }
            },
            Direction::Down => {
                if current < self.count && current + 1 < self.count {
                    Some(current + 1)
                } else {
                    None
                }
            },
        }
    }

    /// A walk through all the entries, oldest first.
    pub fn iterate(&self) -> (entries: Entries<'_>)
        requires
            self.wf(),
        ensures
            entries.history() == self,
            entries.position() == 0,
            entries.remaining() == self@.entries,
    {
        let entries = Entries { history: self, index: 0 };
        assert(entries.remaining() =~= self@.entries);
        entries
    }

    /// The entry at `index`, counting from the oldest, seen in place.
    pub fn entry(&self, index: usize) -> (found: Option<CircularSlice<'_>>)
        requires
            self.wf(),
        ensures
            match found {
                Some(slice) => {
                    &&& index < self@.entries.len()
                    &&& slice@ == self@.entries[index as int]
                    &&& slice.head().len() == self.head_len(index as int)
                },
                None => index >= self@.entries.len(),
            },
    {
        if index >= self.count {
            return None;
        }
        let capacity: usize = self.slots.len();
        let first: usize = if self.write_index >= self.count {
            self.write_index - self.count
        } else {
            self.write_index + (capacity - self.count)
        };
        let at: usize = if index >= capacity - first {
            index - (capacity - first)
        } else {
            first + index
        };
        let slot: Slot = self.slots[at];
        proof {
            assert(self.entry_ok(index as int));
            assert(slot == self.slot(index as int));
        }
        let size: usize = self.region.len();
        let region: &[u8] = self.region.as_slice();
        let slice = if slot.len <= size - slot.start {
            CircularSlice {
                head: slice_range(region, slot.start, slot.start + slot.len),
                tail: slice_range(region, 0, 0),
            }
        } else {
            CircularSlice {
                head: slice_range(region, slot.start, size),
                tail: slice_range(region, 0, slot.len - (size - slot.start)),
            }
        };
        assert(slice@ =~= self.entry_at(index as int));
        Some(slice)
    }

    /// The number of slots.
    pub fn capacity(&self) -> (capacity: usize)
        ensures
            capacity == self@.capacity,
    {
        self.slots.len()
    }

    /// The most bytes an entry may have.
    pub fn bound(&self) -> (bound: usize)
        ensures
            bound == self@.bound,
    {
        self.bound
    }

    /// The number of entries.
    pub fn len(&self) -> (len: usize)
        ensures
            len == self@.entries.len(),
    {
        self.count
    }
}

/// Later entries begin no earlier than earlier ones.
proof fn lemma_offsets_grow(history: &History, j: int, k: int)
    requires
        history.wf(),
        0 <= j <= k < history.count,
    ensures
        history.offs@[j] <= history.offs@[k],
    decreases k - j,
{
    if j < k {
        assert(history.entry_ok(j));
        lemma_offsets_grow(history, j + 1, k);
    }
}

/// While a slot is free, the region has room for one more entry of full length.
proof fn lemma_room_for_one(history: &History)
    requires
        history.wf(),
        history.count < history.slots@.len(),
    ensures
        history.used + history.bound <= history.region@.len(),
{
    let count = history.count as int;
    let slots = history.slots@.len() as int;
    let bound = history.bound as int;
    if count > 0 {
        assert(history.entry_ok(0));
    }
    assert(history.used <= count * bound);
    assert(count * bound + bound <= slots * bound) by (nonlinear_arith)
        requires
            count + 1 <= slots,
            bound >= 0,
    ;
}

/// A walk through the entries of a history, oldest first. Each entry is
/// looked up when it is asked for, and seen in place. A new walk begins
/// at the oldest entry again.
pub struct Entries<'a> {
    history: &'a History,
    index: usize,
}

impl<'a> Entries<'a> {
    /// The history that is walked through.
    pub closed spec fn history(&self) -> &'a History {
        self.history
    }

    /// The index of the entry that comes next.
    pub closed spec fn position(&self) -> nat {
        self.index as nat
    }

    /// The entries still to come.
    pub open spec fn remaining(&self) -> Seq<Seq<u8>> {
        if self.position() <= self.history()@.entries.len() {
            self.history()@.entries.skip(self.position() as int)
        } else {
            Seq::empty()
        }
    }

    /// The next entry, or `None` behind the newest.
    pub fn next(&mut self) -> (entry: Option<CircularSlice<'a>>)
        requires
            old(self).history().wf(),
        ensures
            final(self).history() == old(self).history(),
            match entry {
                Some(slice) => {
                    &&& old(self).remaining().len() > 0
                    &&& slice@ == old(self).remaining()[0]
                    &&& slice.head().len() == old(self).history().head_len(
                        old(self).position() as int,
                    )
                    &&& final(self).position() == old(self).position() + 1
                    &&& final(self).remaining() == old(self).remaining().skip(1)
                },
                None => old(self).remaining().len() == 0 && final(self).position() == old(
                    self,
                ).position(),
            },
    {
        let found = self.history.entry(self.index);
        if found.is_some() {
            self.index = self.index + 1;
            assert(self.remaining() =~= old(self).remaining().skip(1));
        }
        found
    }
}

/// A walk through all the entries of a history, oldest first.
pub fn get_history_entries(history: &History) -> (entries: Entries<'_>)
    requires
        history.wf(),
    ensures
        entries.history() == history,
        entries.position() == 0,
        entries.remaining() == history@.entries,
{
    history.iterate()
}

} // verus!
