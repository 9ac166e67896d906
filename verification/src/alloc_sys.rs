//! The allocator: block descriptors, the arena that places them, and the
//! process-wide facade with its one-time initialization gate.

use vstd::prelude::*;

pub mod block;
pub mod map;

verus! {

use crate::alloc_sys::map::MemoryMap;
use crate::utils::mutable_option::MutableOption;

/// The allocator facade the rest of the kernel talks to. It starts
/// uninitialized; one initialization call builds the arena, later calls are
/// ignored, and every request before initialization fails closed without
/// touching any state.
pub struct SystemAllocator {
    map: MutableOption<MemoryMap>,
}

impl SystemAllocator {
    /// The held arena, where one has been built.
    pub closed spec fn map_spec(&self) -> Option<MemoryMap> {
        self.map.value
    }

    /// Whether the one-time initialization has happened.
    pub open spec fn is_initialized(&self) -> bool {
        self.map_spec() is Some
    }

    /// The arena behind the facade.
    pub open spec fn arena(&self) -> MemoryMap
        recommends
            self.is_initialized(),
    {
        self.map_spec().unwrap()
    }

    /// An initialized facade holds a well-formed arena.
    pub open spec fn wf(&self) -> bool {
        self.is_initialized() ==> self.arena().wf()
    }

    /// The arena has a free descriptor slot, so a request that places a
    /// block cannot overrun the fixed descriptor storage (overrunning it is
    /// a fatal error by design, and is excluded by precondition instead).
    pub open spec fn can_track_block(&self) -> bool {
        self.is_initialized() ==> self.arena().table().len() < self.arena().table_cap()
    }

    /// The uninitialized facade.
    pub fn new() -> (r: Self)
        ensures
            !r.is_initialized(),
            r.wf(),
    {
        Self { map: MutableOption::new(None) }
    }

    /// Builds the arena over the caller's region, exactly once: while
    /// initialized, further calls change nothing, so the payload base and
    /// length stay what the first call made them.
    pub fn initialize(&mut self, ptr: usize, len: usize)
        requires
            old(self).wf(),
            !old(self).is_initialized() ==> map::valid_region(ptr as int, len as int),
        ensures
            final(self).wf(),
            final(self).is_initialized(),
            old(self).is_initialized() ==> *final(self) == *old(self),
            !old(self).is_initialized() ==> {
                &&& final(self).arena().payload_base() == map::aligned_region_base(ptr as int)
                &&& final(self).arena().payload_len() == map::region_payload_len(
                    ptr as int,
                    len as int,
                )
                &&& final(self).arena().table_cap() == map::region_table_cap(
                    ptr as int,
                    len as int,
                )
                &&& final(self).arena().table().len() == 0
                &&& forall|j: int|
                    0 <= j < final(self).arena().payload().len()
                        ==> final(self).arena().payload()[j] == 0
            },
    {
        let initialized = self.map.get().is_some();
        if !initialized {
            let arena = MemoryMap::new(ptr, len);
            self.map.set(Some(arena));
        }
    }

    /// Whether another block can be tracked: true while uninitialized (no
    /// request places anything then) and while the descriptor storage has a
    /// free slot. Filling the storage is a fatal condition excluded by the
    /// allocation preconditions, so an unverified caller tests this first.
    pub fn has_free_slot(&self) -> (r: bool)
        ensures
            r == self.can_track_block(),
    {
        match &self.map.value {
            Some(arena) => arena.block_count() < arena.block_capacity(),
            None => true,
        }
    }

    /// Routes an allocation request to the arena; before initialization the
    /// request fails closed and nothing changes.
    pub fn allocate(&mut self, size: usize, align: usize) -> (r: Option<usize>)
        requires
            old(self).wf(),
            align >= 1,
            old(self).can_track_block(),
        ensures
            final(self).wf(),
            !old(self).is_initialized() ==> r is None && *final(self) == *old(self),
            old(self).is_initialized() ==> final(self).is_initialized() && map::alloc_spec(
                old(self).arena(),
                final(self).arena(),
                size as int,
                align as int,
                false,
                r,
            ),
            r matches Some(p) ==> (old(self).is_initialized()
                ==> old(self).arena().payload_base() <= p
                    < old(self).arena().payload_base() + old(self).arena().payload_len()),
            r matches Some(p) ==> ((map::MAX_ALIGN as int) % (align as int) == 0 ==> p as int % (
            align as int) == 0),
    {
        match &mut self.map.value {
            Some(arena) => arena.allocate(size, align, false),
            None => None,
        }
    }

    /// An allocation request whose bytes come back zero-filled; before
    /// initialization it fails closed and nothing changes.
    pub fn alloc_zeroed(&mut self, size: usize, align: usize) -> (r: Option<usize>)
        requires
            old(self).wf(),
            align >= 1,
            old(self).can_track_block(),
        ensures
            final(self).wf(),
            !old(self).is_initialized() ==> r is None && *final(self) == *old(self),
            old(self).is_initialized() ==> final(self).is_initialized() && map::alloc_spec(
                old(self).arena(),
                final(self).arena(),
                size as int,
                align as int,
                true,
                r,
            ),
            r matches Some(p) ==> (old(self).is_initialized()
                ==> old(self).arena().payload_base() <= p
                    < old(self).arena().payload_base() + old(self).arena().payload_len()),
            r matches Some(p) ==> ((map::MAX_ALIGN as int) % (align as int) == 0 ==> p as int % (
            align as int) == 0),
    {
        match &mut self.map.value {
            Some(arena) => arena.allocate(size, align, true),
            None => None,
        }
    }

    /// Releases the block a pointer addresses; before initialization the
    /// call is a no-op and nothing changes.
    pub fn dealloc(&mut self, ptr: usize)
        requires
            old(self).wf(),
        ensures
            final(self).wf(),
            !old(self).is_initialized() ==> *final(self) == *old(self),
            old(self).is_initialized() ==> final(self).is_initialized() && map::dealloc_spec(
                old(self).arena(),
                final(self).arena(),
                ptr as int,
            ),
    {
        match &mut self.map.value {
            Some(arena) => arena.dealloc(ptr),
            None => {},
        }
    }

    /// The payload byte a pointer addresses, as a caller reading through a
    /// returned pointer would see it; before initialization, nothing.
    pub fn read_byte(&self, ptr: usize) -> (r: Option<u8>)
        requires
            self.wf(),
        ensures
            !self.is_initialized() ==> r is None,
            self.is_initialized() ==> {
                &&& self.arena().payload_base() <= ptr < self.arena().payload_base()
                    + self.arena().payload_len() ==> r == Some(
                    self.arena().payload()[ptr - self.arena().payload_base()],
                )
                &&& !(self.arena().payload_base() <= ptr < self.arena().payload_base()
                    + self.arena().payload_len()) ==> r is None
            },
    {
        match &self.map.value {
            Some(arena) => arena.read_byte(ptr),
            None => None,
        }
    }

    /// Stores a byte through a pointer, as a caller writing through a
    /// returned pointer would; before initialization the write fails closed
    /// and nothing changes.
    pub fn write_byte(&mut self, ptr: usize, value: u8) -> (r: bool)
        requires
            old(self).wf(),
        ensures
            final(self).wf(),
            !old(self).is_initialized() ==> !r && *final(self) == *old(self),
            old(self).is_initialized() ==> {
                &&& final(self).is_initialized()
                &&& map::same_region(old(self).arena(), final(self).arena())
                &&& final(self).arena().table() == old(self).arena().table()
                &&& old(self).arena().payload_base() <= ptr < old(self).arena().payload_base()
                    + old(self).arena().payload_len() ==> r && final(self).arena().payload()
                    == old(self).arena().payload().update(
                    ptr - old(self).arena().payload_base(),
                    value,
                )
                &&& !(old(self).arena().payload_base() <= ptr
                    < old(self).arena().payload_base() + old(self).arena().payload_len())
                    ==> !r && final(self).arena().payload() == old(self).arena().payload()
            },
    {
        match &mut self.map.value {
            Some(arena) => arena.write_byte(ptr, value),
            None => false,
        }
    }

    /// Resizes the block a pointer addresses, in place or by relocation;
    /// before initialization the request fails closed and nothing changes.
    pub fn realloc(&mut self, ptr: usize, size: usize, align: usize) -> (r: Option<usize>)
        requires
            old(self).wf(),
            align >= 1,
            old(self).can_track_block(),
        ensures
            final(self).wf(),
            !old(self).is_initialized() ==> r is None && *final(self) == *old(self),
            old(self).is_initialized() ==> final(self).is_initialized() && map::realloc_spec(
                old(self).arena(),
                final(self).arena(),
                ptr as int,
                size as int,
                align as int,
                r,
            ),
    {
        match &mut self.map.value {
            Some(arena) => arena.realloc(ptr, size, align),
            None => None,
        }
    }
}

} // verus!
