//! Verified core of a tiling window manager.
//!
//! The library models the data and decisions of the manager: the key bitmap
//! fed by global keyboard deltas, the per-monitor focus-ordered window cache,
//! the tiling layout geometry, the fixed-size wire protocol exchanged with the
//! hook module injected into foreign processes, the I/O slot pool that serves
//! those exchanges, and the per-event arena allocator's bookkeeping.
//!
//! Everything the operating system does (hooks, named pipes, completion
//! ports, window placement) happens outside this crate; the functions here
//! take plain values produced by those calls and return plain values (events,
//! placements, replies) for the caller to act on.

use vstd::prelude::*;

pub mod arena;
pub mod cache;
pub mod events;
pub mod keys;
pub mod layout;
pub mod pool;
pub mod protocol;
pub mod rect;

verus! {

use crate::arena::Arena;
use crate::cache::Cache;

/// Default size of the per-event arena's reserved region.
pub const ARENA_CAPACITY: usize = 0xffff_ffff;

/// Everything the consumer thread owns: the per-event arena and the
/// window/monitor cache. Only that one thread may touch it; the type is the
/// single-writer state the event queue mutates between events.
pub struct Context {
    pub arena: Arena,
    pub cache: Cache,
}

impl Context {
    /// The context invariant: the cache and arena invariants.
    pub open spec fn wf(&self) -> bool {
        self.cache.wf() && self.arena.wf()
    }

    /// A fresh context: an empty cache and an arena over the default
    /// region.
    pub fn new() -> (ctx: Context)
        ensures
            ctx.wf(),
            ctx.cache.queues_view().len() == 0,
            ctx.cache.layouts_view().len() == 0,
            forall|k: u8| !crate::keys::key_down(ctx.cache.keymap_view(), k),
            ctx.arena.spec_end() == 0,
            ctx.arena.spec_used() == 0,
    {
        Context { arena: Arena::new(ARENA_CAPACITY), cache: Cache::new() }
    }
}

} // verus!
