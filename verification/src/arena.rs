//! The arena, the buffer that grows at its top, and the ranges it freezes.

use crate::laws::lemma_page_ceiling;
use crate::model::{overwrite, page_ceiling, zero_padded, ArenaView, HEADER_SIZE};
use vstd::arithmetic::power2::pow2;
use vstd::prelude::*;

verus! {

/// A bump arena: one region of bytes that is filled from the bottom up and
/// never reused.
///
/// The reservation fixes how far the region may grow; memory is taken
/// only for the part that was written, and the rest reads as zero. If
/// memory cannot be had the process ends: an arena without memory has no
/// degraded mode. Dropping the arena gives back all of it.
pub struct BumpAllocRef {
    address_space: usize,
    held: usize,
    top_base: usize,
    top_size: usize,
    written: Vec<u8>,
}

impl View for BumpAllocRef {
    type V = ArenaView;

    closed spec fn view(&self) -> ArenaView {
        ArenaView {
            reserved: self.address_space as nat,
            memory: zero_padded(self.written@, self.held as nat),
            top_base: self.top_base as nat,
            top_size: self.top_size as nat,
        }
    }
}

/// A range of an arena that was frozen: `len` bytes that start at offset
/// `start` of the arena's data. The arena it came from reads it back with
/// [`BumpAllocRef::frozen`], for as long as that arena lives.
#[derive(Clone, Copy, Debug, PartialEq, Eq, Structural)]
pub struct FrozenSlice {
    /// Offset of the first byte.
    pub start: usize,
    /// Number of bytes.
    pub len: usize,
}

impl FrozenSlice {
    /// Number of bytes in the range.
    pub fn len(&self) -> (len: usize)
        ensures
            len == self.len,
    {
        self.len
    }
}

/// The open region of an arena, as a vector of bytes that grows in place.
///
/// It borrows the arena for itself alone, so an arena has one open buffer
/// at a time. [`LiquidVecRef::freeze`] ends it. A buffer that is dropped
/// without being frozen leaves the open region as it is: the next buffer
/// taken from the arena starts with those bytes and goes on from there.
pub struct LiquidVecRef<'alloc> {
    /// The arena whose open region this is.
    pub alloc: &'alloc mut BumpAllocRef,
}

impl<'alloc> View for LiquidVecRef<'alloc> {
    type V = Seq<u8>;

    /// The bytes of the buffer.
    open spec fn view(&self) -> Seq<u8> {
        self.arena().open()
    }
}

/// `Vec::shrink_to_fit`: gives the vector's unused capacity back to the
/// allocator. Trusted: the elements and their order stay as they were.
#[verifier::external_body]
fn release_spare_capacity(bytes: &mut Vec<u8>)
    ensures
        final(bytes)@ == old(bytes)@,
{
    bytes.shrink_to_fit();
}

/// `&mut bytes[start..end]`, the `IndexMut` of a vector by a range.
/// Trusted: the span holds the bytes `start..end`, it keeps its length
/// whatever is written through it, and the vector ends up with what was
/// written there and every other byte as it was.
#[verifier::external_body]
fn span_mut(bytes: &mut Vec<u8>, start: usize, end: usize) -> (span: &mut [u8])
    requires
        start <= end <= old(bytes)@.len(),
    ensures
        span@ == old(bytes)@.subrange(start as int, end as int),
        final(span)@.len() == span@.len(),
        final(bytes)@ == overwrite(old(bytes)@, start as int, final(span)@),
{
    &mut bytes[start..end]
}

/// `bytes` with `items` stored from offset `at` on, longer than before
/// where they reach past its end.
spec fn stored(bytes: Seq<u8>, at: int, items: Seq<u8>) -> Seq<u8> {
    Seq::new(
        if at + items.len() > bytes.len() {
            (at + items.len()) as nat
        } else {
            bytes.len()
        },
        |i: int|
            if at <= i < at + items.len() {
                items[i - at]
            } else {
                bytes[i]
            },
    )
}

/// Storing into the written part of a memory, and growing it on the way,
/// is overwriting the memory.
proof fn lemma_stored_in_memory(bytes: Seq<u8>, at: int, items: Seq<u8>, held: nat)
    requires
        0 <= at <= bytes.len() <= held,
        at + items.len() <= held,
    ensures
        zero_padded(stored(bytes, at, items), held) == overwrite(
            zero_padded(bytes, held),
            at,
            items,
        ),
{
    assert(zero_padded(stored(bytes, at, items), held) =~= overwrite(
        zero_padded(bytes, held),
        at,
        items,
    ));
}

/// Stores `byte` at offset `at`, which lies in `bytes` or right behind it.
fn put(bytes: &mut Vec<u8>, at: usize, byte: u8)
    requires
        at <= old(bytes).len(),
    ensures
        final(bytes)@ == stored(old(bytes)@, at as int, seq![byte]),
{
    if at < bytes.len() {
        bytes[at] = byte;
    } else {
        bytes.push(byte);
    }
    assert(bytes@ =~= stored(old(bytes)@, at as int, seq![byte]));
}

/// Stores `items` from offset `at` on, which lies in `bytes` or right
/// behind it.
fn store(bytes: &mut Vec<u8>, at: usize, items: &[u8])
    requires
        at <= old(bytes).len(),
        at + items@.len() <= usize::MAX,
    ensures
        final(bytes)@ == stored(old(bytes)@, at as int, items@),
{
    let count: usize = items.len();
    let mut i: usize = 0;
    assert(bytes@ =~= stored(old(bytes)@, at as int, items@.take(0)));
    while i < count
        invariant
            i <= count == items@.len(),
            at + count <= usize::MAX,
            at <= old(bytes).len(),
            bytes@ == stored(old(bytes)@, at as int, items@.take(i as int)),
        decreases count - i,
    {
        put(bytes, at + i, items[i]);
        i = i + 1;
        assert(bytes@ =~= stored(old(bytes)@, at as int, items@.take(i as int)));
    }
    assert(items@.take(count as int) =~= items@);
}

/// Stores the `count` bytes that start at offset `from` once more from
/// offset `to` on, which lies behind them, in `bytes` or right behind it.
fn store_within(bytes: &mut Vec<u8>, from: usize, count: usize, to: usize)
    requires
        from + count <= to <= old(bytes).len(),
        to + count <= usize::MAX,
    ensures
        final(bytes)@ == stored(
            old(bytes)@,
            to as int,
            old(bytes)@.subrange(from as int, from + count),
        ),
{
    let ghost source = bytes@.subrange(from as int, from + count);
    let mut i: usize = 0;
    assert(bytes@ =~= stored(old(bytes)@, to as int, source.take(0)));
    while i < count
        invariant
            i <= count,
            from + count <= to <= old(bytes).len(),
            to + count <= usize::MAX,
            source == old(bytes)@.subrange(from as int, from + count),
            bytes@ == stored(old(bytes)@, to as int, source.take(i as int)),
        decreases count - i,
    {
        let byte = bytes[from + i];
        put(bytes, to + i, byte);
        i = i + 1;
        assert(bytes@ =~= stored(old(bytes)@, to as int, source.take(i as int)));
    }
    assert(source.take(count as int) =~= source);
}

impl BumpAllocRef {
    /// What the representation keeps beyond the state it stands for: the
    /// bytes in use were all written, and no byte was written outside the
    /// memory held.
    pub closed spec fn inv(&self) -> bool {
        self.top_base + self.top_size <= self.written@.len() <= self.held
    }

    /// The invariant of every arena that this module hands out.
    pub open spec fn wf(&self) -> bool {
        self@.wf() && self.inv()
    }

    /// An arena over a reservation of 2^32 bytes, on a machine whose
    /// addresses are wider than 32 bits.
    pub fn new() -> (arena: Self)
        requires
            32 < usize::BITS,
        ensures
            arena.wf(),
            arena@ == ArenaView::fresh(pow2(32)),
    {
        Self::new_with_address_space(32)
    }

    /// An arena over a reservation of 2^`bits` bytes, nothing frozen and
    /// the open region empty. The size must fit in the machine's addresses.
    /// The header comes out of the reservation: one smaller than the
    /// header holds no data at all.
    pub fn new_with_address_space(bits: u8) -> (arena: Self)
        requires
            bits < usize::BITS,
        ensures
            arena.wf(),
            arena@ == ArenaView::fresh(pow2(bits as nat)),
    {
        proof {
            vstd::bits::lemma_usize_pow2_no_overflow(bits as nat);
            vstd::bits::lemma_usize_shl_is_mul(1usize, bits as usize);
        }
        let address_space: usize = 1usize << (bits as usize);
        let held: usize = if address_space >= HEADER_SIZE {
            address_space - HEADER_SIZE
        } else {
            0
        };
        BumpAllocRef { address_space, held, top_base: 0, top_size: 0, written: Vec::new() }
    }

    /// Bytes of address space reserved when the arena was made.
    pub fn address_space(&self) -> (reserved: usize)
        ensures
            reserved == self@.reserved,
    {
        self.address_space
    }

    /// Bytes of data memory that the arena still holds.
    pub fn capacity(&self) -> (held: usize)
        ensures
            held == self@.memory.len(),
    {
        self.held
    }

    /// The buffer that can currently be modified: the arena's open
    /// region, with whatever an earlier buffer left in it unfrozen. What is
    /// done through the buffer is done to the arena.
    pub fn top(&mut self) -> (buffer: LiquidVecRef<'_>)
        ensures
            *buffer.alloc == *old(self),
            buffer@ == old(self)@.open(),
            *final(self) == *final(buffer.alloc),
    {
        LiquidVecRef { alloc: self }
    }

    /// The number of data bytes allocated over the lifetime of the arena:
    /// those frozen so far and those in the open region.
    pub fn data_size(&self) -> (used: usize)
        requires
            self.wf(),
        ensures
            used == self@.used(),
    {
        self.top_base + self.top_size
    }

    /// More than half of the reservation is already taken, the header
    /// counted in. A signal to the caller, nothing more: no write is
    /// refused on its account.
    pub fn dangerous(&self) -> (near: bool)
        requires
            self.wf(),
        ensures
            near == self@.dangerous(),
    {
        self.data_size() + HEADER_SIZE > self.address_space / 2
    }

    /// The bytes of a frozen range.
    pub fn frozen(&self, slice: &FrozenSlice) -> (bytes: &[u8])
        requires
            self.wf(),
            self@.is_frozen(slice.start as nat, slice.len as nat),
        ensures
            bytes@ == self@.span(slice.start as nat, slice.len as nat),
    {
        let bytes = vstd::slice::slice_subrange(
            self.written.as_slice(),
            slice.start,
            slice.start + slice.len,
        );
        assert(bytes@ =~= self@.span(slice.start as nat, slice.len as nat));
        bytes
    }

    /// The bytes of a frozen range, to be changed in place. The range
    /// keeps its place and its length; no other byte of the arena changes.
    pub fn frozen_mut(&mut self, slice: &FrozenSlice) -> (bytes: &mut [u8])
        requires
            old(self).wf(),
            old(self)@.is_frozen(slice.start as nat, slice.len as nat),
        ensures
            bytes@ == old(self)@.span(slice.start as nat, slice.len as nat),
            final(bytes)@.len() == slice.len,
            final(self).wf(),
            final(self)@ == old(self)@.patch(slice.start as nat, final(bytes)@),
    {
        let bytes = span_mut(&mut self.written, slice.start, slice.start + slice.len);
        proof {
            assert(bytes@ =~= old(self)@.span(slice.start as nat, slice.len as nat));
            assert(zero_padded(
                overwrite(old(self).written@, slice.start as int, final(bytes)@),
                self.held as nat,
            ) =~= old(self)@.patch(slice.start as nat, final(bytes)@).memory);
        }
        bytes
    }

    /// Gives back the memory that lies behind the bytes in use, from the
    /// next page boundary on. This cannot be undone: the arena never grows
    /// past that boundary again. The bytes in use, frozen or open, are
    /// untouched.
    ///
    /// `page_size` is the size of a page of the machine. The boundary must
    /// lie inside the reservation.
    pub fn shrink_to_allocated(&mut self, page_size: usize)
        requires
            old(self).wf(),
            page_size > 0,
            old(self)@.keep(page_size as nat) <= old(self)@.reserved,
        ensures
            final(self).wf(),
            final(self)@ == old(self)@.shrink(page_size as nat),
    {
        let last: usize = HEADER_SIZE + self.top_base + self.top_size;
        let rest: usize = last % page_size;
        proof {
            lemma_page_ceiling(last as nat, page_size as nat);
            assert(self@.keep(page_size as nat) == page_ceiling(last as nat, page_size as nat));
            assert(self@.reserved <= usize::MAX);
        }
        let fit: usize = if rest == 0 {
            last
        } else {
            last - rest + page_size
        };
        let kept: usize = fit - HEADER_SIZE;
        if kept < self.held {
            self.held = kept;
            if kept < self.written.len() {
                self.written.truncate(kept);
            }
            release_spare_capacity(&mut self.written);
            assert(self@.memory =~= old(self)@.shrink(page_size as nat).memory);
        }
    }

    /// All the bytes in use, the frozen ones first and the open region
    /// last.
    pub fn data_range(&self) -> (bytes: &[u8])
        requires
            self.wf(),
        ensures
            bytes@ == self@.span(0, self@.used()),
    {
        let bytes = vstd::slice::slice_subrange(
            self.written.as_slice(),
            0,
            self.top_base + self.top_size,
        );
        assert(bytes@ =~= self@.span(0, self@.used()));
        bytes
    }

    /// All the bytes in use, to be changed in place. They keep their
    /// number, and the open region its place.
    pub fn data_range_mut(&mut self) -> (bytes: &mut [u8])
        requires
            old(self).wf(),
        ensures
            bytes@ == old(self)@.span(0, old(self)@.used()),
            final(bytes)@.len() == old(self)@.used(),
            final(self).wf(),
            final(self)@ == old(self)@.patch(0, final(bytes)@),
    {
        let bytes = span_mut(&mut self.written, 0, self.top_base + self.top_size);
        proof {
            assert(bytes@ =~= old(self)@.span(0, old(self)@.used()));
            assert(zero_padded(overwrite(old(self).written@, 0, final(bytes)@), self.held as nat)
                =~= old(self)@.patch(0, final(bytes)@).memory);
        }
        bytes
    }
}

impl<'alloc> LiquidVecRef<'alloc> {
    /// The state of the arena behind the buffer.
    pub open spec fn arena(&self) -> ArenaView {
        self.alloc@
    }

    /// The arena is well-formed; every operation keeps it so.
    pub open spec fn wf(&self) -> bool {
        self.alloc.wf()
    }

    /// Ends the buffer: its length is fixed from now on, and the arena's
    /// next buffer starts right behind it, empty. No byte is moved.
    pub fn freeze(self) -> (slice: FrozenSlice)
        requires
            self.wf(),
        ensures
            slice.start == self.arena().top_base,
            slice.len == self@.len(),
            final(self.alloc).wf(),
            final(self.alloc)@ == self.arena().freeze(),
            final(self.alloc)@.span(slice.start as nat, slice.len as nat) == self@,
    {
        let slice = FrozenSlice { start: self.alloc.top_base, len: self.alloc.top_size };
        self.alloc.top_base = self.alloc.top_base + self.alloc.top_size;
        self.alloc.top_size = 0;
        slice
    }

    /// Appends one byte. The arena must have room for it.
    pub fn extend_one(&mut self, item: u8)
        requires
            old(self).wf(),
            old(self).arena().spare() >= 1,
        ensures
            final(self).wf(),
            final(self).arena() == old(self).arena().write(seq![item]),
            final(self)@ == old(self)@.push(item),
            *final(final(self).alloc) == *final(old(self).alloc),
    {
        let at: usize = self.alloc.top_base + self.alloc.top_size;
        put(&mut self.alloc.written, at, item);
        self.alloc.top_size = self.alloc.top_size + 1;
        proof {
            lemma_stored_in_memory(
                old(self).alloc.written@,
                at as int,
                seq![item],
                self.alloc.held as nat,
            );
            assert(self@ =~= old(self)@.push(item));
        }
    }

    /// Appends `items`. The arena must have room for them.
    pub fn extend_from_slice(&mut self, items: &[u8])
        requires
            old(self).wf(),
            items@.len() <= old(self).arena().spare(),
        ensures
            final(self).wf(),
            final(self).arena() == old(self).arena().write(items@),
            final(self)@ == old(self)@ + items@,
            *final(final(self).alloc) == *final(old(self).alloc),
    {
        let at: usize = self.alloc.top_base + self.alloc.top_size;
        store(&mut self.alloc.written, at, items);
        self.alloc.top_size = self.alloc.top_size + items.len();
        proof {
            lemma_stored_in_memory(
                old(self).alloc.written@,
                at as int,
                items@,
                self.alloc.held as nat,
            );
            assert(self@ =~= old(self)@ + items@);
        }
    }

    /// Appends a copy of the bytes `src` of the buffer itself, which must
    /// lie inside it. The arena must have room for them.
    pub fn extend_from_within(&mut self, src: core::ops::Range<usize>)
        requires
            old(self).wf(),
            src.start <= src.end <= old(self)@.len(),
            src.end - src.start <= old(self).arena().spare(),
        ensures
            final(self).wf(),
            final(self).arena() == old(self).arena().repeat(
                src.start as int,
                src.end as int,
            ),
            final(self)@ == old(self)@ + old(self)@.subrange(src.start as int, src.end as int),
            *final(final(self).alloc) == *final(old(self).alloc),
    {
        let at: usize = self.alloc.top_base + self.alloc.top_size;
        let from: usize = self.alloc.top_base + src.start;
        let count: usize = src.end - src.start;
        store_within(&mut self.alloc.written, from, count, at);
        self.alloc.top_size = self.alloc.top_size + count;
        proof {
            let copied = old(self)@.subrange(src.start as int, src.end as int);
            assert(copied =~= old(self).alloc.written@.subrange(from as int, from + count));
            lemma_stored_in_memory(
                old(self).alloc.written@,
                at as int,
                copied,
                self.alloc.held as nat,
            );
            assert(self@ =~= old(self)@ + copied);
        }
    }

    /// Makes room ahead of time for `additional` more bytes, as far as
    /// the arena can hold them, so that writing them need not wait for
    /// memory. A hint: the buffer and the arena read as before, and where
    /// the memory cannot be had now nothing is said.
    pub fn extend_reserve(&mut self, additional: usize)
        requires
            old(self).wf(),
        ensures
            final(self).wf(),
            final(self).arena() == old(self).arena(),
            *final(final(self).alloc) == *final(old(self).alloc),
    {
        let room: usize = self.alloc.held - self.alloc.written.len();
        let ahead: usize = if additional < room {
            additional
        } else {
            room
        };
        let _ = self.alloc.written.try_reserve(ahead);
    }

    /// Removes the last byte and returns it, or returns `None` and leaves
    /// the buffer as it is where it is empty.
    pub fn pop(&mut self) -> (last: Option<u8>)
        requires
            old(self).wf(),
        ensures
            final(self).wf(),
            final(self).arena() == old(self).arena().pop(),
            old(self)@.len() == 0 ==> last.is_none() && final(self)@ == old(self)@,
            old(self)@.len() > 0 ==> last == Some(old(self)@.last()),
            old(self)@.len() > 0 ==> final(self)@ == old(self)@.drop_last(),
            *final(final(self).alloc) == *final(old(self).alloc),
    {
        if self.alloc.top_size == 0 {
            None
        } else {
            self.alloc.top_size = self.alloc.top_size - 1;
            let last = self.alloc.written[self.alloc.top_base + self.alloc.top_size];
            proof {
                assert(self@ =~= old(self)@.drop_last());
            }
            Some(last)
        }
    }

    /// Cuts the buffer to `len` bytes. Where `len` is more than the buffer
    /// holds, nothing happens.
    pub fn truncate(&mut self, len: usize)
        requires
            old(self).wf(),
        ensures
            final(self).wf(),
            final(self).arena() == old(self).arena().truncate(len as nat),
            len > old(self)@.len() ==> final(self)@ == old(self)@,
            len <= old(self)@.len() ==> final(self)@ == old(self)@.take(len as int),
            *final(final(self).alloc) == *final(old(self).alloc),
    {
        if len > self.alloc.top_size {
            return;
        }
        self.alloc.top_size = len;
        proof {
            assert(self@ =~= old(self)@.take(len as int));
        }
    }

    /// Number of bytes in the buffer.
    pub fn len(&self) -> (len: usize)
        requires
            self.wf(),
        ensures
            len == self@.len(),
    {
        self.alloc.top_size
    }

    /// Number of bytes that can still be appended: what the arena holds
    /// behind the buffer.
    pub fn spare(&self) -> (room: usize)
        requires
            self.wf(),
        ensures
            room == self.arena().spare(),
    {
        self.alloc.held - (self.alloc.top_base + self.alloc.top_size)
    }

    /// The bytes of the buffer.
    pub fn as_slice(&self) -> (bytes: &[u8])
        requires
            self.wf(),
        ensures
            bytes@ == self@,
    {
        let bytes = vstd::slice::slice_subrange(
            self.alloc.written.as_slice(),
            self.alloc.top_base,
            self.alloc.top_base + self.alloc.top_size,
        );
        assert(bytes@ =~= self@);
        bytes
    }

    /// The bytes of the buffer, to be changed in place. The buffer keeps
    /// its length; no byte outside it changes.
    pub fn as_mut_slice(&mut self) -> (bytes: &mut [u8])
        requires
            old(self).wf(),
        ensures
            bytes@ == old(self)@,
            final(bytes)@.len() == old(self)@.len(),
            final(self).wf(),
            final(self).arena() == old(self).arena().patch(
                old(self).arena().top_base,
                final(bytes)@,
            ),
            final(self)@ == final(bytes)@,
            *final(final(self).alloc) == *final(old(self).alloc),
    {
        let bytes = span_mut(
            &mut self.alloc.written,
            self.alloc.top_base,
            self.alloc.top_base + self.alloc.top_size,
        );
        proof {
            let after = old(self).arena().patch(old(self).arena().top_base, final(bytes)@);
            assert(bytes@ =~= old(self)@);
            assert(zero_padded(
                overwrite(old(self).alloc.written@, self.alloc.top_base as int, final(bytes)@),
                self.alloc.held as nat,
            ) =~= after.memory);
            assert(after.open() =~= final(bytes)@);
        }
        bytes
    }

    /// Sets the length of the buffer to `new_len` without writing a byte.
    /// A shorter buffer keeps its first `new_len` bytes; a longer one takes
    /// in what the arena's memory holds behind it, zeros where nothing was
    /// written yet. The new length must lie inside the memory held.
    pub fn set_len(&mut self, new_len: usize)
        requires
            old(self).wf(),
            old(self).arena().top_base + new_len <= old(self).arena().memory.len(),
        ensures
            final(self).wf(),
            final(self).arena() == old(self).arena().set_len(new_len as nat),
            final(self)@ == old(self).arena().span(
                old(self).arena().top_base,
                new_len as nat,
            ),
            *final(final(self).alloc) == *final(old(self).alloc),
    {
        let end: usize = self.alloc.top_base + new_len;
        if end > self.alloc.written.len() {
            self.alloc.written.resize(end, 0);
        }
        self.alloc.top_size = new_len;
        proof {
            assert(self.alloc@.memory =~= old(self).arena().memory);
        }
    }
}

} // verus!
