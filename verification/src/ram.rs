//! A byte-level model of physical memory, addressed through an address
//! space: what a load or store at a virtual address touches, and when a
//! store faults instead.

use vstd::prelude::*;

use crate::flags::MMU_VALID;
use crate::flags::MMU_W;
use crate::mem::spec_phys_of;
use crate::mem::AddressSpace;
use crate::Error;

verus! {

/// Physical memory as one flat byte array, frame `i` at bytes
/// `i * PAGE_SIZE ..`.
pub struct Ram {
    bytes: Vec<u8>,
}

/// The physical byte a virtual address touches: its page's frame base plus
/// the page offset.
pub open spec fn spec_phys_index(space: AddressSpace, va: usize) -> int {
    spec_phys_of(space.entry_at(va)) + (va & 0xfff)
}

/// A load through `space` at `va` works: the address translates and the
/// backing byte exists.
pub open spec fn spec_can_read(space: AddressSpace, va: usize, ram: Ram) -> bool {
    space.translates(va) && spec_phys_index(space, va) < ram@.len()
}

/// A store through `space` at `va` works: additionally the entry is
/// writable.  A store through a read-only mapping faults.
pub open spec fn spec_can_write(space: AddressSpace, va: usize, ram: Ram) -> bool {
    spec_can_read(space, va, ram) && space.entry_at(va) & MMU_W != 0
}

impl Ram {
    pub closed spec fn view(self) -> Seq<u8> {
        self.bytes@
    }

    /// `n_bytes` of zeroed physical memory.
    pub fn new(n_bytes: usize) -> (r: Ram)
        ensures
            r@.len() == n_bytes,
            forall|i: int| 0 <= i < n_bytes ==> r@[i] == 0,
    {
        let mut bytes: Vec<u8> = Vec::new();
        let mut i: usize = 0;
        while i < n_bytes
            invariant
                i <= n_bytes,
                bytes@.len() == i,
                forall|j: int| 0 <= j < i ==> bytes@[j] == 0,
            decreases n_bytes - i,
        {
            bytes.push(0);
            i = i + 1;
        }
        Ram { bytes }
    }

    /// Load the byte at virtual address `va` through `space`.  Fails with
    /// `BadAddress` exactly when the address does not translate or the
    /// backing byte is outside this memory.
    pub fn read_byte(&self, space: &AddressSpace, va: usize) -> (r: Result<u8, Error>)
        requires
            space.wf(),
        ensures
            match r {
                Ok(b) => spec_can_read(*space, va, *self) && b == self@[spec_phys_index(
                    *space,
                    va,
                )],
                Err(e) => e == Error::BadAddress && !spec_can_read(*space, va, *self),
            },
    {
        let phys = match crate::mem::virt_to_phys(space, va) {
            Ok(p) => p,
            Err(_) => {
                return Err(Error::BadAddress);
            },
        };
        proof {
            crate::mem::lemma_vpn_bounds(va);
            space.lemma_entry_bounded(
                crate::mem::spec_vpn1(va) as int,
                crate::mem::spec_vpn0(va) as int,
            );
            crate::mem::lemma_phys_of_bounds(space.entry_at(va));
            assert(va & 0xfff < 4096) by (bit_vector);
        }
        let idx = phys + (va & 0xfff);
        if idx >= self.bytes.len() {
            return Err(Error::BadAddress);
        }
        Ok(self.bytes[idx])
    }

    /// Store `val` at virtual address `va` through `space`.  Fails with
    /// `BadAddress` exactly when the address does not translate, is not
    /// writable (the fault an immutably-borrowed page raises), or the
    /// backing byte is outside this memory; nothing changes then.
    pub fn write_byte(&mut self, space: &AddressSpace, va: usize, val: u8) -> (r: Result<(), Error>)
        requires
            space.wf(),
        ensures
            match r {
                Ok(()) => spec_can_write(*space, va, *old(self)) && final(self)@ == old(
                    self,
                )@.update(spec_phys_index(*space, va), val),
                Err(e) => e == Error::BadAddress && !spec_can_write(*space, va, *old(self))
                    && final(self)@ == old(self)@,
            },
    {
        let phys = match crate::mem::virt_to_phys(space, va) {
            Ok(p) => p,
            Err(_) => {
                return Err(Error::BadAddress);
            },
        };
        let vpn1 = (va >> 22) & 0x3ff;
        let vpn0 = (va >> 12) & 0x3ff;
        proof {
            crate::mem::lemma_vpn_bounds(va);
            space.lemma_entry_bounded(vpn1 as int, vpn0 as int);
            crate::mem::lemma_phys_of_bounds(space.entry_at(va));
            assert(va & 0xfff < 4096) by (bit_vector);
        }
        let entry = match crate::mem::pagetable_entry(space, va & 0xffff_f000) {
            Ok(e) => e,
            Err(_) => {
                proof {
                    assert((va & 0xffff_f000) & 3 == 0) by (bit_vector);
                    assert(((va & 0xffff_f000) >> 22) & 0x3ff == (va >> 22) & 0x3ff)
                        by (bit_vector);
                }
                return Err(Error::BadAddress);
            },
        };
        proof {
            assert((va & 0xffff_f000) & 3 == 0) by (bit_vector);
            assert(((va & 0xffff_f000) >> 22) & 0x3ff == (va >> 22) & 0x3ff && ((va & 0xffff_f000)
                >> 12) & 0x3ff == (va >> 12) & 0x3ff) by (bit_vector);
        }
        if entry & MMU_W == 0 {
            return Err(Error::BadAddress);
        }
        let idx = phys + (va & 0xfff);
        if idx >= self.bytes.len() {
            return Err(Error::BadAddress);
        }
        self.bytes[idx] = val;
        Ok(())
    }
}

} // verus!
