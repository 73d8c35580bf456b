//! Physical frame allocator: a per-frame table attributing every frame of
//! the pool to at most one owning process.

use vstd::prelude::*;

use crate::Error;
use crate::PAGE_SIZE;

verus! {

/// A process identifier: a small positive integer.  PID 1 is privileged.
#[derive(Clone, Copy, Debug, PartialEq, Eq, Structural)]
pub struct Pid {
    pub v: u8,
}

impl Pid {
    /// A PID is a positive integer.
    pub open spec fn wf(self) -> bool {
        self.v >= 1
    }

    pub fn new(v: u8) -> (r: Option<Pid>)
        ensures
            v == 0 ==> r is None,
            v != 0 ==> r == Some(Pid { v }),
    {
        if v == 0 {
            None
        } else {
            Some(Pid { v })
        }
    }

    pub fn get(&self) -> (r: u8)
        ensures
            r == self.v,
    {
        self.v
    }
}

/// The physical frame table.  Cell `i` covers the frame whose physical
/// address is `i * PAGE_SIZE`; `Some(pid)` means that process owns the
/// frame, `None` that the frame is free.
pub struct MemoryManager {
    frames: Vec<Option<Pid>>,
}

/// Largest frame pool the allocator accepts: with 4096-byte pages this
/// keeps every physical address below 2^32, so it fits a machine word and
/// the 22-bit physical page number of an entry.
pub const MAX_FRAMES: usize = 0x10_0000;

impl MemoryManager {
    pub closed spec fn view(self) -> Seq<Option<Pid>> {
        self.frames@
    }

    /// The pool never outgrows what an entry's physical page number can
    /// address.
    pub open spec fn wf(self) -> bool {
        self@.len() <= MAX_FRAMES
    }

    /// Number of frames in the pool.
    pub fn frame_count(&self) -> (r: usize)
        ensures
            r == self@.len(),
    {
        self.frames.len()
    }

    /// A fresh pool of `n_frames` frames, all free.
    pub fn new(n_frames: usize) -> (r: MemoryManager)
        requires
            n_frames <= MAX_FRAMES,
        ensures
            r.wf(),
            r@.len() == n_frames,
            forall|i: int| 0 <= i < n_frames ==> r@[i] is None,
    {
        let mut frames: Vec<Option<Pid>> = Vec::new();
        let mut i: usize = 0;
        while i < n_frames
            invariant
                i <= n_frames,
                frames@.len() == i,
                forall|j: int| 0 <= j < i ==> frames@[j] is None,
            decreases n_frames - i,
        {
            frames.push(None);
            i = i + 1;
        }
        MemoryManager { frames }
    }

    /// Scan for the lowest free frame, attribute it to `owner`, and return
    /// its physical address.  Fails with `OutOfMemory` exactly when no frame
    /// is free.
    pub fn alloc_page(&mut self, owner: Pid) -> (r: Result<usize, Error>)
        requires
            old(self).wf(),
        ensures
            final(self)@.len() == old(self)@.len(),
            match r {
                Ok(phys) => {
                    &&& phys % PAGE_SIZE == 0
                    &&& phys / PAGE_SIZE < old(self)@.len()
                    &&& old(self)@[phys as int / PAGE_SIZE as int] is None
                    &&& forall|j: int| 0 <= j < phys as int / PAGE_SIZE as int ==> old(self)@[j] is Some
                    &&& final(self)@ == old(self)@.update(phys as int / PAGE_SIZE as int, Some(owner))
                },
                Err(e) => {
                    &&& e == Error::OutOfMemory
                    &&& forall|j: int| 0 <= j < old(self)@.len() ==> old(self)@[j] is Some
                    &&& final(self)@ == old(self)@
                },
            },
    {
        let n = self.frames.len();
        let mut i: usize = 0;
        while i < n
            invariant
                i <= n,
                n == self@.len(),
                n <= MAX_FRAMES,
                self@ == old(self)@,
                forall|j: int| 0 <= j < i ==> self@[j] is Some,
            decreases n - i,
        {
            if self.frames[i].is_none() {
                self.frames[i] = Some(owner);
                let phys = i * PAGE_SIZE;
                assert((i * PAGE_SIZE) as int / PAGE_SIZE as int == i as int
                    && (i * PAGE_SIZE) as int % PAGE_SIZE as int == 0) by (nonlinear_arith)
                    requires
                        i >= 0,
                        PAGE_SIZE == 4096,
                ;
                return Ok(phys);
            }
            i = i + 1;
        }
        Err(Error::OutOfMemory)
    }

    /// Free the frame at physical address `phys`.  Fails with `BadAddress`
    /// exactly when `phys` is not page-aligned or outside the pool.
    pub fn release_page(&mut self, phys: usize) -> (r: Result<(), Error>)
        ensures
            final(self)@.len() == old(self)@.len(),
            match r {
                Ok(()) => {
                    &&& phys % PAGE_SIZE == 0
                    &&& phys / PAGE_SIZE < old(self)@.len()
                    &&& final(self)@ == old(self)@.update(phys as int / PAGE_SIZE as int, None)
                },
                Err(e) => {
                    &&& e == Error::BadAddress
                    &&& !(phys % PAGE_SIZE == 0 && phys / PAGE_SIZE < old(self)@.len())
                    &&& final(self)@ == old(self)@
                },
            },
    {
        if phys % PAGE_SIZE != 0 {
            return Err(Error::BadAddress);
        }
        let idx = phys / PAGE_SIZE;
        if idx >= self.frames.len() {
            return Err(Error::BadAddress);
        }
        self.frames[idx] = None;
        Ok(())
    }

    /// Reattribute the frame at `phys` to `new_owner` (a page move changes
    /// ownership).  Fails with `BadAddress` exactly when `phys` is not
    /// page-aligned or outside the pool.
    pub fn reattribute(&mut self, phys: usize, new_owner: Pid) -> (r: Result<(), Error>)
        ensures
            final(self)@.len() == old(self)@.len(),
            match r {
                Ok(()) => {
                    &&& phys % PAGE_SIZE == 0
                    &&& phys / PAGE_SIZE < old(self)@.len()
                    &&& final(self)@ == old(self)@.update(phys as int / PAGE_SIZE as int, Some(new_owner))
                },
                Err(e) => {
                    &&& e == Error::BadAddress
                    &&& !(phys % PAGE_SIZE == 0 && phys / PAGE_SIZE < old(self)@.len())
                    &&& final(self)@ == old(self)@
                },
            },
    {
        if phys % PAGE_SIZE != 0 {
            return Err(Error::BadAddress);
        }
        let idx = phys / PAGE_SIZE;
        if idx >= self.frames.len() {
            return Err(Error::BadAddress);
        }
        self.frames[idx] = Some(new_owner);
        Ok(())
    }

    /// Free every frame owned by `pid`; every other cell is untouched.
    pub fn release_all(&mut self, pid: Pid)
        ensures
            final(self)@.len() == old(self)@.len(),
            forall|i: int|
                0 <= i < old(self)@.len() ==> final(self)@[i] == (if old(self)@[i] == Some(pid) {
                    None::<Pid>
                } else {
                    old(self)@[i]
                }),
    {
        let n = self.frames.len();
        let mut i: usize = 0;
        while i < n
            invariant
                i <= n,
                n == self@.len(),
                self@.len() == old(self)@.len(),
                forall|j: int|
                    0 <= j < i ==> self@[j] == (if old(self)@[j] == Some(pid) {
                        None::<Pid>
                    } else {
                        old(self)@[j]
                    }),
                forall|j: int| i <= j < n ==> self@[j] == old(self)@[j],
            decreases n - i,
        {
            if let Some(owner) = self.frames[i] {
                if owner.v == pid.v {
                    self.frames[i] = None;
                }
            }
            i = i + 1;
        }
    }

    /// The owner recorded for the frame at `phys`, or `None` for a free or
    /// out-of-pool frame.
    pub fn owner_of(&self, phys: usize) -> (r: Option<Pid>)
        ensures
            r == (if phys % PAGE_SIZE == 0 && phys / PAGE_SIZE < self@.len() {
                self@[phys as int / PAGE_SIZE as int]
            } else {
                None::<Pid>
            }),
    {
        if phys % PAGE_SIZE != 0 {
            return None;
        }
        let idx = phys / PAGE_SIZE;
        if idx >= self.frames.len() {
            return None;
        }
        self.frames[idx]
    }
}

} // verus!
