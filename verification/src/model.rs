//! The mathematical state of an arena, and what each operation does to it.

use vstd::prelude::*;

verus! {

/// Bytes at the start of every reservation that are counted as the arena's
/// own bookkeeping: three 8-byte words (the reserved size, the start of the
/// open region, and its length). They are part of the reservation but never
/// part of the data.
pub const HEADER_SIZE: usize = 24;

/// How many data bytes a reservation of `reserved` bytes can hold.
pub open spec fn data_capacity(reserved: nat) -> nat {
    if reserved >= HEADER_SIZE {
        (reserved - HEADER_SIZE) as nat
    } else {
        0
    }
}

/// `memory` with `bytes` stored at offsets `at`, `at + 1`, ... and every
/// other byte as it was.
pub open spec fn overwrite(memory: Seq<u8>, at: int, bytes: Seq<u8>) -> Seq<u8> {
    Seq::new(
        memory.len(),
        |i: int|
            if at <= i < at + bytes.len() {
                bytes[i - at]
            } else {
                memory[i]
            },
    )
}

/// `bytes` followed by zeros, `len` bytes in all.
pub open spec fn zero_padded(bytes: Seq<u8>, len: nat) -> Seq<u8> {
    Seq::new(
        len,
        |i: int|
            if i < bytes.len() {
                bytes[i]
            } else {
                0u8
            },
    )
}

/// The least multiple of `page_size` that is not below `offset`.
pub open spec fn page_ceiling(offset: nat, page_size: nat) -> nat {
    ((offset + page_size - 1) / (page_size as int) * page_size) as nat
}

/// The state of an arena.
///
/// `memory` is the data region that the arena still holds, one byte per
/// offset; a fresh region is all zeros. The bytes below `top_base` are
/// frozen. The open region is the `top_size` bytes that start at
/// `top_base`. What lies above the open region is spare: stale or zero
/// bytes that the next writes replace.
#[verifier::ext_equal]
pub struct ArenaView {
    /// Bytes of address space reserved at creation, header included.
    pub reserved: nat,
    /// The data region still held.
    pub memory: Seq<u8>,
    /// Offset in `memory` at which the open region starts.
    pub top_base: nat,
    /// Length of the open region.
    pub top_size: nat,
}

impl ArenaView {
    /// The open region lies inside the memory held, and the memory held
    /// inside the reservation.
    pub open spec fn wf(self) -> bool {
        &&& self.top_base + self.top_size <= self.memory.len()
        &&& self.memory.len() <= data_capacity(self.reserved)
    }

    /// A fresh arena over a reservation of `reserved` bytes.
    pub open spec fn fresh(reserved: nat) -> Self {
        ArenaView {
            reserved,
            memory: zero_padded(Seq::empty(), data_capacity(reserved)),
            top_base: 0,
            top_size: 0,
        }
    }

    /// Everything frozen so far, oldest first.
    pub open spec fn frozen(self) -> Seq<u8> {
        self.memory.take(self.top_base as int)
    }

    /// The contents of the open region.
    pub open spec fn open(self) -> Seq<u8> {
        self.memory.subrange(self.top_base as int, (self.top_base + self.top_size) as int)
    }

    /// Bytes frozen so far plus bytes in the open region.
    pub open spec fn used(self) -> nat {
        self.top_base + self.top_size
    }

    /// Bytes that can still be written before the memory held runs out.
    pub open spec fn spare(self) -> int {
        self.memory.len() - self.used()
    }

    /// The `len` bytes that start at offset `start`.
    pub open spec fn span(self, start: nat, len: nat) -> Seq<u8> {
        self.memory.subrange(start as int, (start + len) as int)
    }

    /// More than half of the reservation is taken, header included.
    pub open spec fn dangerous(self) -> bool {
        self.used() + HEADER_SIZE > self.reserved / 2
    }

    /// `bytes` written at the end of the open region, which grows by them.
    pub open spec fn write(self, bytes: Seq<u8>) -> Self {
        ArenaView {
            memory: overwrite(self.memory, self.used() as int, bytes),
            top_size: self.top_size + bytes.len(),
            ..self
        }
    }

    /// The bytes `start..end` of the open region written once more at its
    /// end.
    pub open spec fn repeat(self, start: int, end: int) -> Self {
        self.write(self.open().subrange(start, end))
    }

    /// The open region set to `len` bytes, memory untouched: shrinking
    /// leaves the bytes cut off in place, growing takes in whatever the
    /// memory holds there.
    pub open spec fn set_len(self, len: nat) -> Self {
        ArenaView { top_size: len, ..self }
    }

    /// The open region cut to `len` bytes; unchanged where `len` is more
    /// than it holds.
    pub open spec fn truncate(self, len: nat) -> Self {
        if len > self.top_size {
            self
        } else {
            self.set_len(len)
        }
    }

    /// The open region without its last byte; unchanged where it is empty.
    pub open spec fn pop(self) -> Self {
        if self.top_size == 0 {
            self
        } else {
            self.set_len((self.top_size - 1) as nat)
        }
    }

    /// The bytes from offset `at` on replaced by `bytes`, the open region
    /// where it was.
    pub open spec fn patch(self, at: nat, bytes: Seq<u8>) -> Self {
        ArenaView { memory: overwrite(self.memory, at as int, bytes), ..self }
    }

    /// The range of `len` bytes from offset `start` lies in the frozen
    /// part.
    pub open spec fn is_frozen(self, start: nat, len: nat) -> bool {
        start + len <= self.top_base
    }

    /// The open region frozen: the next one starts right behind it, empty.
    pub open spec fn freeze(self) -> Self {
        ArenaView { top_base: self.top_base + self.top_size, top_size: 0, ..self }
    }

    /// The end of the bytes in use, counted from the start of the
    /// reservation and rounded up to a page boundary.
    pub open spec fn keep(self, page_size: nat) -> nat {
        page_ceiling(HEADER_SIZE as nat + self.used(), page_size)
    }

    /// The memory from `keep(page_size)` on given back. Memory given back
    /// earlier stays away.
    pub open spec fn shrink(self, page_size: nat) -> Self {
        let held = self.keep(page_size) - HEADER_SIZE;
        if held < self.memory.len() {
            ArenaView { memory: self.memory.take(held), ..self }
        } else {
            self
        }
    }
}

/// One edit of a buffer, as a value that proofs can speak of.
pub enum Edit {
    /// Append one byte.
    Push(u8),
    /// Append a string of bytes.
    Append(Seq<u8>),
    /// Append a copy of the bytes `start..end` of the buffer itself.
    Repeat { start: int, end: int },
    /// Cut the buffer to a length; nothing happens where it is shorter.
    Truncate(nat),
    /// Remove the last byte; nothing happens where there is none.
    Pop,
}

/// What `edit` does to a plain growable vector of bytes, one that knows of
/// no arena.
pub open spec fn edit_vector(bytes: Seq<u8>, edit: Edit) -> Seq<u8> {
    match edit {
        Edit::Push(byte) => bytes.push(byte),
        Edit::Append(items) => bytes + items,
        Edit::Repeat { start, end } => bytes + bytes.subrange(start, end),
        Edit::Truncate(len) => if len > bytes.len() {
            bytes
        } else {
            bytes.take(len as int)
        },
        Edit::Pop => if bytes.len() == 0 {
            bytes
        } else {
            bytes.drop_last()
        },
    }
}

/// What `edits`, made in order, do to a plain growable vector of bytes.
pub open spec fn edit_vector_all(bytes: Seq<u8>, edits: Seq<Edit>) -> Seq<u8>
    decreases edits.len(),
{
    if edits.len() == 0 {
        bytes
    } else {
        edit_vector_all(edit_vector(bytes, edits.first()), edits.drop_first())
    }
}

/// The vector that `edits` build from an empty one.
pub open spec fn built(edits: Seq<Edit>) -> Seq<u8> {
    edit_vector_all(Seq::empty(), edits)
}

/// The sum of the lengths of the vectors that each of `runs` builds from
/// an empty one.
pub open spec fn built_len(runs: Seq<Seq<Edit>>) -> nat
    decreases runs.len(),
{
    if runs.len() == 0 {
        0
    } else {
        built(runs.first()).len() + built_len(runs.drop_first())
    }
}

impl ArenaView {
    /// `edit` meets the demands of the operation that makes it: a range
    /// lies inside the buffer, and what is appended fits in the memory
    /// held.
    pub open spec fn admits(self, edit: Edit) -> bool {
        match edit {
            Edit::Push(_) => self.spare() >= 1,
            Edit::Append(items) => items.len() <= self.spare(),
            Edit::Repeat { start, end } => {
                &&& 0 <= start <= end <= self.top_size
                &&& end - start <= self.spare()
            },
            Edit::Truncate(_) => true,
            Edit::Pop => true,
        }
    }

    /// The arena after `edit` was made to its open buffer.
    pub open spec fn apply(self, edit: Edit) -> Self {
        match edit {
            Edit::Push(byte) => self.write(seq![byte]),
            Edit::Append(items) => self.write(items),
            Edit::Repeat { start, end } => self.repeat(start, end),
            Edit::Truncate(len) => self.truncate(len),
            Edit::Pop => self.pop(),
        }
    }

    /// Each of `edits` meets its demands at the time it is made.
    pub open spec fn admits_all(self, edits: Seq<Edit>) -> bool
        decreases edits.len(),
    {
        if edits.len() == 0 {
            true
        } else {
            &&& self.admits(edits.first())
            &&& self.apply(edits.first()).admits_all(edits.drop_first())
        }
    }

    /// The arena after `edits` were made in order to its open buffer.
    pub open spec fn run(self, edits: Seq<Edit>) -> Self
        decreases edits.len(),
    {
        if edits.len() == 0 {
            self
        } else {
            self.apply(edits.first()).run(edits.drop_first())
        }
    }

    /// Each of `runs` meets its demands as the edits of one buffer, the
    /// buffers built and frozen one after the other.
    pub open spec fn admits_cycles(self, runs: Seq<Seq<Edit>>) -> bool
        decreases runs.len(),
    {
        if runs.len() == 0 {
            true
        } else {
            &&& self.admits_all(runs.first())
            &&& self.run(runs.first()).freeze().admits_cycles(runs.drop_first())
        }
    }

    /// The arena after one buffer for each of `runs` was built by its
    /// edits and frozen.
    pub open spec fn cycles(self, runs: Seq<Seq<Edit>>) -> Self
        decreases runs.len(),
    {
        if runs.len() == 0 {
            self
        } else {
            self.run(runs.first()).freeze().cycles(runs.drop_first())
        }
    }
}

} // verus!
