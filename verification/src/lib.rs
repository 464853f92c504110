//! A bump arena over one reserved region of bytes, and the growable buffer
//! that builds byte strings in place at the arena's high-water mark.
//!
//! A buffer is opened with [`BumpAllocRef::top`], grown and edited through
//! [`LiquidVecRef`], and ended by [`LiquidVecRef::freeze`], which fixes its
//! length and hands back a [`FrozenSlice`]: a range of the arena that no
//! later buffer can reach. The arena only ever advances; nothing is freed
//! one by one.
//!
//! The region is addressed by offsets, never by raw addresses. `model`
//! holds the mathematical state of an arena and the effect of every
//! operation on it, `arena` the executable types, and `laws` the
//! properties that hold across operations.

pub mod arena;
pub mod laws;
pub mod model;

pub use arena::{BumpAllocRef, FrozenSlice, LiquidVecRef};
pub use model::HEADER_SIZE;
