//! The two-level page-table engine: mapping, unmapping, reserving, and the
//! lend / return / move operations that implement zero-copy message passing
//! between address spaces.
//!
//! The tables are held as explicit data: a root table of 1024 entries whose
//! valid entries each own a leaf table of 1024 entries.  (The fixed virtual
//! self-mapping windows a bare-metal kernel uses for O(1) edit access are an
//! MMU artifact; the external contract of every operation is unchanged by
//! walking the explicit tables instead.)  An entry is a 32-bit word: bits
//! 10.. hold the physical page number, bits 0..10 the flags of `crate::flags`.

use vstd::prelude::*;

use crate::flags::MMU_A;
use crate::flags::MMU_D;
use crate::flags::MMU_P;
use crate::flags::MMU_S;
use crate::flags::MMU_USER;
use crate::flags::MMU_VALID;
use crate::flags::MMU_W;
use crate::flags::spec_translate_flags;
use crate::flags::translate_flags;
use crate::flags::untranslate_flags;
use crate::manager::MemoryManager;
use crate::manager::Pid;
use crate::Error;

verus! {

/// Entries per table (both levels).
pub const TABLE_ENTRIES: usize = 1024;

/// Exclusive upper bound on a well-formed entry: the physical page number
/// fits 20 bits, so the physical address it encodes fits a machine word.
pub const ENTRY_BOUND: u32 = 0x4000_0000;

/// Index into the root table for a virtual address.
pub open spec fn spec_vpn1(addr: usize) -> usize {
    (addr >> 22) & 0x3ff
}

/// Index into the leaf table for a virtual address.
pub open spec fn spec_vpn0(addr: usize) -> usize {
    (addr >> 12) & 0x3ff
}

/// The physical address an entry points at.
pub open spec fn spec_phys_of(e: u32) -> usize {
    ((e as usize) >> 10) << 12
}

/// Both table indices of an address are in range.
pub proof fn lemma_vpn_bounds(addr: usize)
    ensures
        spec_vpn1(addr) < 1024,
        spec_vpn0(addr) < 1024,
{
    assert((addr >> 22) & 0x3ff < 1024 && (addr >> 12) & 0x3ff < 1024) by (bit_vector);
}

/// A valid entry can only exist where a leaf table does: a missing leaf
/// reads as the zero entry.
pub proof fn lemma_valid_entry_leaf_mapped(s: AddressSpace, addr: usize)
    requires
        s.wf(),
        s.entry_at(addr) & MMU_VALID != 0,
    ensures
        s.leaf_mapped(spec_vpn1(addr) as int),
{
    lemma_vpn_bounds(addr);
    assert(0u32 & MMU_VALID == 0) by (bit_vector);
    if !s.leaf_mapped(spec_vpn1(addr) as int) {
        assert(s.entry_at(addr) == 0);
    }
}

/// A bounded entry encodes a physical address that fits a machine word.
pub proof fn lemma_phys_of_bounds(e: u32)
    requires
        e < ENTRY_BOUND,
    ensures
        spec_phys_of(e) <= 0xffff_f000,
        spec_phys_of(e) % 4096 == 0,
{
    assert(e < 0x4000_0000 ==> (((e as usize) >> 10) << 12) <= 0xffff_f000 && (((e
        as usize) >> 10) << 12) % 4096 == 0) by (bit_vector);
}

/// One leaf page table.
pub struct LeafTable {
    entries: Vec<u32>,
}

/// A process address space: the root table, the leaf tables its valid root
/// entries own, and the ASID the MMU would tag its translations with.
pub struct AddressSpace {
    asid: u8,
    root_phys: usize,
    root: Vec<u32>,
    leaves: Vec<Option<LeafTable>>,
}

impl AddressSpace {
    /// ASID of this space.
    pub closed spec fn spec_asid(self) -> u8 {
        self.asid
    }

    /// Physical address of the root table frame.
    pub closed spec fn spec_root_phys(self) -> usize {
        self.root_phys
    }

    /// Root table entry `vpn1`.
    pub closed spec fn l1(self, vpn1: int) -> u32 {
        self.root@[vpn1]
    }

    /// Whether a leaf table exists for root index `vpn1`.
    pub closed spec fn leaf_mapped(self, vpn1: int) -> bool {
        self.leaves@[vpn1] is Some
    }

    /// Leaf entry `(vpn1, vpn0)`; 0 where no leaf table exists.
    pub closed spec fn entry(self, vpn1: int, vpn0: int) -> u32 {
        match self.leaves@[vpn1] {
            Some(lt) => lt.entries@[vpn0],
            None => 0,
        }
    }

    /// The entry that translates `addr`.
    pub open spec fn entry_at(self, addr: usize) -> u32 {
        self.entry(spec_vpn1(addr) as int, spec_vpn0(addr) as int)
    }

    /// `addr` currently translates: its leaf exists and its entry is valid.
    pub open spec fn translates(self, addr: usize) -> bool {
        self.leaf_mapped(spec_vpn1(addr) as int) && self.entry_at(addr) & MMU_VALID != 0
    }

    /// The leaf table at root index `i`, if it exists, has 1024 entries,
    /// all bounded.
    pub closed spec fn leaf_wf(self, i: int) -> bool {
        match self.leaves@[i] {
            Some(lt) => lt.entries@.len() == 1024 && (forall|j: int|
                0 <= j < 1024 ==> lt.entries@[j] < ENTRY_BOUND),
            None => true,
        }
    }

    /// Well-formedness: both levels have 1024 entries, a root entry is valid
    /// exactly where its leaf table exists, and every entry is bounded.
    pub closed spec fn wf(self) -> bool {
        &&& self.root@.len() == 1024
        &&& self.leaves@.len() == 1024
        &&& forall|i: int|
            0 <= i < 1024 ==> ((self.root@[i] & MMU_VALID != 0) <==> self.leaves@[i] is Some)
        &&& forall|i: int| 0 <= i < 1024 ==> self.root@[i] < ENTRY_BOUND
        &&& forall|i: int| 0 <= i < 1024 ==> #[trigger] self.leaf_wf(i)
    }

    /// Every entry of a well-formed space is bounded.
    pub proof fn lemma_entry_bounded(self, i: int, j: int)
        requires
            self.wf(),
            0 <= i < 1024,
            0 <= j < 1024,
        ensures
            self.entry(i, j) < ENTRY_BOUND,
    {
        assert(self.leaf_wf(i));
    }

    /// Everything but the leaf entry `(v1, v0)` is as in `prior`: same ASID,
    /// same root, same leaf layout, every other entry equal.
    pub open spec fn same_except(self, prior: AddressSpace, v1: int, v0: int) -> bool {
        &&& self.spec_asid() == prior.spec_asid()
        &&& self.spec_root_phys() == prior.spec_root_phys()
        &&& forall|i: int| 0 <= i < 1024 ==> self.l1(i) == prior.l1(i)
        &&& forall|i: int| 0 <= i < 1024 ==> self.leaf_mapped(i) == prior.leaf_mapped(i)
        &&& forall|i: int, j: int|
            0 <= i < 1024 && 0 <= j < 1024 && !(i == v1 && j == v0) ==> self.entry(i, j)
                == prior.entry(i, j)
    }

    /// A fresh, empty address space for `pid`: the root-table frame is
    /// allocated from (and attributed by) the memory manager, every entry is
    /// invalid, and no leaf table exists yet.
    pub fn new(mm: &mut MemoryManager, pid: Pid) -> (r: Result<AddressSpace, Error>)
        requires
            old(mm).wf(),
        ensures
            final(mm).wf(),
            final(mm)@.len() == old(mm)@.len(),
            match r {
                Ok(space) => {
                    &&& space.wf()
                    &&& space.spec_asid() == pid.v
                    &&& forall|i: int| 0 <= i < 1024 ==> space.l1(i) == 0
                    &&& forall|i: int, j: int|
                        0 <= i < 1024 && 0 <= j < 1024 ==> space.entry(i, j) == 0
                    &&& space.spec_root_phys() % crate::PAGE_SIZE == 0
                    &&& final(mm)@ == old(mm)@.update(
                        space.spec_root_phys() as int / crate::PAGE_SIZE as int,
                        Some(pid),
                    )
                },
                Err(e) => {
                    &&& e == Error::OutOfMemory
                    &&& forall|j: int| 0 <= j < old(mm)@.len() ==> old(mm)@[j] is Some
                    &&& final(mm)@ == old(mm)@
                },
            },
    {
        let root_phys = match mm.alloc_page(pid) {
            Ok(p) => p,
            Err(e) => {
                return Err(e);
            },
        };
        let mut root: Vec<u32> = Vec::new();
        let mut leaves: Vec<Option<LeafTable>> = Vec::new();
        let mut i: usize = 0;
        while i < TABLE_ENTRIES
            invariant
                i <= TABLE_ENTRIES,
                root@.len() == i,
                leaves@.len() == i,
                forall|j: int| 0 <= j < i ==> root@[j] == 0,
                forall|j: int| 0 <= j < i ==> leaves@[j] is None,
            decreases TABLE_ENTRIES - i,
        {
            root.push(0);
            leaves.push(None);
            i = i + 1;
        }
        let space = AddressSpace { asid: pid.v, root_phys, root, leaves };
        proof {
            assert(0u32 & MMU_VALID == 0) by (bit_vector);
            assert(forall|i: int| 0 <= i < 1024 ==> #[trigger] space.leaf_wf(i));
            assert(forall|i: int, j: int|
                0 <= i < 1024 && 0 <= j < 1024 ==> space.entry(i, j) == 0);
        }
        Ok(space)
    }

    /// Read the entry at `(vpn1, vpn0)`.
    fn get_entry(&self, vpn1: usize, vpn0: usize) -> (r: u32)
        requires
            self.wf(),
            vpn1 < 1024,
            vpn0 < 1024,
            self.leaf_mapped(vpn1 as int),
        ensures
            r == self.entry(vpn1 as int, vpn0 as int),
    {
        proof {
            assert(self.leaf_wf(vpn1 as int));
        }
        match &self.leaves[vpn1] {
            Some(lt) => lt.entries[vpn0],
            None => 0,
        }
    }

    /// Overwrite the entry at `(vpn1, vpn0)`.
    fn set_entry(&mut self, vpn1: usize, vpn0: usize, val: u32)
        requires
            old(self).wf(),
            vpn1 < 1024,
            vpn0 < 1024,
            old(self).leaf_mapped(vpn1 as int),
            val < ENTRY_BOUND,
        ensures
            final(self).wf(),
            final(self).same_except(*old(self), vpn1 as int, vpn0 as int),
            final(self).entry(vpn1 as int, vpn0 as int) == val,
    {
        proof {
            assert(old(self).leaf_wf(vpn1 as int));
        }
        match &mut self.leaves[vpn1] {
            Some(lt) => {
                lt.entries[vpn0] = val;
            },
            None => {
                proof {
                    assert(false);
                }
            },
        }
        proof {
            assert forall|i: int| 0 <= i < 1024 implies #[trigger] self.leaf_wf(i) by {
                assert(old(self).leaf_wf(i));
            }
            assert forall|i: int, j: int|
                0 <= i < 1024 && 0 <= j < 1024 && !(i == vpn1 && j == vpn0) implies self.entry(i, j)
                == old(self).entry(i, j) by {
                assert(old(self).leaf_wf(i));
            }
        }
    }

    /// Read the root entry `vpn1`.
    fn get_l1(&self, vpn1: usize) -> (r: u32)
        requires
            self.wf(),
            vpn1 < 1024,
        ensures
            r == self.l1(vpn1 as int),
    {
        self.root[vpn1]
    }

    /// The MMU register value that selects this space.
    pub fn mapping(&self) -> (r: MemoryMapping)
        ensures
            r.spec_satp() == mapping_satp(self.spec_asid(), self.spec_root_phys()),
    {
        MemoryMapping {
            satp: 0x8000_0000usize | ((self.asid as usize) << 22) | (self.root_phys >> 12),
        }
    }
}

/// The satp value selecting mode Sv32, `asid`, and the root table at
/// `root_phys`.
pub open spec fn mapping_satp(asid: u8, root_phys: usize) -> usize {
    0x8000_0000usize | ((asid as usize) << 22) | (root_phys >> 12)
}

/// Model of the MMU's translation register (mode, ASID, root page number).
/// On hardware this is a control register; the hosted kernel emulates it.
pub struct Mmu {
    pub satp: usize,
}

/// A handle on an address space as the MMU names it: the raw register value.
#[derive(Clone, Copy, Debug, PartialEq, Eq, Structural)]
pub struct MemoryMapping {
    satp: usize,
}

impl Default for MemoryMapping {
    /// The null mapping: no mode, no ASID, no root.
    fn default() -> (r: MemoryMapping)
        ensures
            r.spec_satp() == 0,
    {
        MemoryMapping { satp: 0 }
    }
}

impl MemoryMapping {
    pub closed spec fn spec_satp(self) -> usize {
        self.satp
    }

    /// The raw register value this handle names.
    pub fn bits(&self) -> (r: usize)
        ensures
            r == self.spec_satp(),
    {
        self.satp
    }

    /// Replace the raw register value held by this handle.
    pub fn from_raw(&mut self, satp: usize)
        ensures
            final(self).spec_satp() == satp,
    {
        self.satp = satp;
    }

    /// The mapping the MMU currently applies.
    pub fn current(mmu: &Mmu) -> (r: MemoryMapping)
        ensures
            r.spec_satp() == mmu.satp,
    {
        MemoryMapping { satp: mmu.satp }
    }

    /// The PID this mapping belongs to, read from the ASID field.
    pub fn get_pid(&self) -> (r: Pid)
        requires
            1 <= (self.spec_satp() >> 22) & 0x1ff <= 0xff,
        ensures
            r.v == (self.spec_satp() >> 22) & 0x1ff,
    {
        let v = ((self.satp >> 22) & 0x1ff) as u8;
        Pid { v }
    }

    /// Make this mapping the one the MMU applies.  On hardware this also
    /// flushes the TLB; the model registers only the new root.
    pub fn activate(self, mmu: &mut Mmu) -> (r: Result<(), Error>)
        ensures
            final(mmu).satp == self.spec_satp(),
            r is Ok,
    {
        mmu.satp = self.satp;
        Ok(())
    }
}

/// The entry `map_page_inner` installs: the physical page number of `phys`,
/// the translated flags, V, A and D, and U when mapping for user mode.
pub open spec fn spec_mapped_entry(phys: usize, req: usize, user: bool) -> u32 {
    (((phys >> 12) as u32) << 10) | spec_translate_flags(req) | MMU_VALID | MMU_A | MMU_D | (
    if user {
        MMU_USER
    } else {
        0u32
    })
}

impl AddressSpace {
    /// Make sure a leaf table exists for root index `vpn1`, allocating and
    /// zero-filling a frame for it if absent.  Fails with `OutOfMemory`
    /// exactly when a frame is needed and none is free; nothing changes
    /// then.  No leaf entry changes either way.
    fn ensure_leaf(&mut self, mm: &mut MemoryManager, pid: Pid, vpn1: usize) -> (r: Result<
        (),
        Error,
    >)
        requires
            old(self).wf(),
            old(mm).wf(),
            vpn1 < 1024,
        ensures
            final(self).wf(),
            final(mm).wf(),
            final(mm)@.len() == old(mm)@.len(),
            final(self).spec_asid() == old(self).spec_asid(),
            final(self).spec_root_phys() == old(self).spec_root_phys(),
            forall|i: int, j: int|
                0 <= i < 1024 && 0 <= j < 1024 ==> final(self).entry(i, j) == old(self).entry(i, j),
            forall|i: int| 0 <= i < 1024 && i != vpn1 ==> final(self).l1(i) == old(self).l1(i),
            forall|i: int|
                0 <= i < 1024 && i != vpn1 ==> final(self).leaf_mapped(i) == old(self).leaf_mapped(
                    i,
                ),
            match r {
                Ok(()) => {
                    &&& final(self).leaf_mapped(vpn1 as int)
                    &&& (old(self).leaf_mapped(vpn1 as int) ==> final(self).l1(vpn1 as int) == old(
                        self,
                    ).l1(vpn1 as int) && final(mm)@ == old(mm)@)
                    &&& (!old(self).leaf_mapped(vpn1 as int) ==> exists|fi: int|
                        0 <= fi < old(mm)@.len() && old(mm)@[fi] is None && final(mm)@ == old(
                            mm,
                        )@.update(fi, Some(pid)))
                },
                Err(e) => {
                    &&& e == Error::OutOfMemory
                    &&& !old(self).leaf_mapped(vpn1 as int)
                    &&& forall|j: int| 0 <= j < old(mm)@.len() ==> old(mm)@[j] is Some
                    &&& *final(self) == *old(self)
                    &&& final(mm)@ == old(mm)@
                },
            },
    {
        if self.get_l1(vpn1) & MMU_VALID != 0 {
            return Ok(());
        }
        let l0pt_phys = match mm.alloc_page(pid) {
            Ok(p) => p,
            Err(e) => {
                return Err(e);
            },
        };
        proof {
            assert(l0pt_phys <= 0xffff_f000) by {
                assert(l0pt_phys as int / 4096 < 0x10_0000 && l0pt_phys % 4096 == 0 ==> l0pt_phys
                    <= 0xffff_f000) by (nonlinear_arith);
            }
        }
        let ppn = (l0pt_phys >> 12) as u32;
        let l1_entry: u32 = (ppn << 10) | MMU_VALID;
        proof {
            assert(l0pt_phys <= 0xffff_f000 ==> ((l0pt_phys >> 12) as u32) << 10 < 0x4000_0000
                && ((((l0pt_phys >> 12) as u32) << 10) | 1u32) < 0x4000_0000 && ((((l0pt_phys >> 12)
                as u32) << 10) | 1u32) & 1u32 != 0u32) by (bit_vector);
        }
        let mut entries: Vec<u32> = Vec::new();
        let mut i: usize = 0;
        while i < TABLE_ENTRIES
            invariant
                i <= TABLE_ENTRIES,
                entries@.len() == i,
                forall|j: int| 0 <= j < i ==> entries@[j] == 0,
            decreases TABLE_ENTRIES - i,
        {
            entries.push(0);
            i = i + 1;
        }
        self.root[vpn1] = l1_entry;
        self.leaves[vpn1] = Some(LeafTable { entries });
        proof {
            assert forall|i2: int| 0 <= i2 < 1024 implies #[trigger] self.leaf_wf(i2) by {
                if i2 != vpn1 {
                    assert(old(self).leaf_wf(i2));
                }
            }
            assert forall|i2: int, j: int|
                0 <= i2 < 1024 && 0 <= j < 1024 implies self.entry(i2, j) == old(self).entry(
                i2,
                j,
            ) by {
                assert(old(self).leaf_wf(i2));
            }
        }
        Ok(())
    }

    /// Reserve `addr`: make sure its leaf table exists, and, unless the
    /// entry is already valid (in which case nothing changes: reserving is
    /// idempotent), write the requested flags without marking the entry
    /// valid.  Fails with `OutOfMemory` exactly when a leaf table is needed
    /// and no frame is free.
    pub fn reserve_address(
        &mut self,
        mm: &mut MemoryManager,
        pid: Pid,
        addr: usize,
        flags: usize,
    ) -> (r: Result<(), Error>)
        requires
            old(self).wf(),
            old(mm).wf(),
        ensures
            final(self).wf(),
            final(mm).wf(),
            final(mm)@.len() == old(mm)@.len(),
            final(self).spec_asid() == old(self).spec_asid(),
            final(self).spec_root_phys() == old(self).spec_root_phys(),
            forall|i: int, j: int|
                0 <= i < 1024 && 0 <= j < 1024 && !(i == spec_vpn1(addr) && j == spec_vpn0(addr))
                    ==> final(self).entry(i, j) == old(self).entry(i, j),
            match r {
                Ok(()) => {
                    &&& final(self).leaf_mapped(spec_vpn1(addr) as int)
                    &&& (old(self).entry_at(addr) & MMU_VALID != 0 ==> final(self).entry_at(addr)
                        == old(self).entry_at(addr))
                    &&& (old(self).entry_at(addr) & MMU_VALID == 0 ==> final(self).entry_at(addr)
                        == spec_translate_flags(flags))
                    &&& (old(self).leaf_mapped(spec_vpn1(addr) as int) ==> final(mm)@ == old(mm)@)
                    &&& (!old(self).leaf_mapped(spec_vpn1(addr) as int) ==> exists|fi: int|
                        0 <= fi < old(mm)@.len() && old(mm)@[fi] is None && final(mm)@ == old(
                            mm,
                        )@.update(fi, Some(pid)))
                },
                Err(e) => {
                    &&& e == Error::OutOfMemory
                    &&& !old(self).leaf_mapped(spec_vpn1(addr) as int)
                    &&& forall|j: int| 0 <= j < old(mm)@.len() ==> old(mm)@[j] is Some
                    &&& *final(self) == *old(self)
                    &&& final(mm)@ == old(mm)@
                },
            },
    {
        let vpn1 = (addr >> 22) & 0x3ff;
        let vpn0 = (addr >> 12) & 0x3ff;
        proof {
            lemma_vpn_bounds(addr);
        }
        match self.ensure_leaf(mm, pid, vpn1) {
            Ok(()) => {},
            Err(e) => {
                return Err(e);
            },
        }
        let current_mapping = self.get_entry(vpn1, vpn0);
        if current_mapping & MMU_VALID != 0 {
            return Ok(());
        }
        let new_entry = translate_flags(flags);
        proof {
            assert(spec_translate_flags(flags) < 0x4000_0000) by (bit_vector);
        }
        self.set_entry(vpn1, vpn0, new_entry);
        Ok(())
    }
}

/// Map the frame at `phys` to `virt` in `space`, allocating (and
/// zero-filling) a leaf table first if none covers `virt`.  The installed
/// entry carries the translated flags plus V, A, D and, when `map_user`
/// holds, U.  Fails with `AlreadyMapped` exactly when the target entry is
/// already valid, and with `OutOfMemory` when a leaf table is needed and no
/// frame is free; the target entry is unchanged on either failure.
pub fn map_page_inner(
    mm: &mut MemoryManager,
    space: &mut AddressSpace,
    pid: Pid,
    phys: usize,
    virt: usize,
    req_flags: usize,
    map_user: bool,
) -> (r: Result<(), Error>)
    requires
        old(space).wf(),
        old(mm).wf(),
        phys <= 0xffff_ffff,
    ensures
        final(space).wf(),
        final(mm).wf(),
        final(mm)@.len() == old(mm)@.len(),
        final(space).spec_asid() == old(space).spec_asid(),
        final(space).spec_root_phys() == old(space).spec_root_phys(),
        forall|i: int, j: int|
            0 <= i < 1024 && 0 <= j < 1024 && !(i == spec_vpn1(virt) && j == spec_vpn0(virt))
                ==> final(space).entry(i, j) == old(space).entry(i, j),
        forall|i: int|
            0 <= i < 1024 && i != spec_vpn1(virt) ==> final(space).l1(i) == old(space).l1(i),
        forall|i: int|
            0 <= i < 1024 && i != spec_vpn1(virt) ==> final(space).leaf_mapped(i) == old(
                space,
            ).leaf_mapped(i),
        match r {
            Ok(()) => {
                &&& old(space).entry_at(virt) & MMU_VALID == 0
                &&& final(space).leaf_mapped(spec_vpn1(virt) as int)
                &&& final(space).entry_at(virt) == spec_mapped_entry(phys, req_flags, map_user)
                &&& (old(space).leaf_mapped(spec_vpn1(virt) as int) ==> final(mm)@ == old(mm)@)
                &&& (!old(space).leaf_mapped(spec_vpn1(virt) as int) ==> exists|fi: int|
                    0 <= fi < old(mm)@.len() && old(mm)@[fi] is None && final(mm)@ == old(
                        mm,
                    )@.update(fi, Some(pid)))
            },
            Err(e) => {
                &&& final(space).entry_at(virt) == old(space).entry_at(virt)
                &&& (e == Error::AlreadyMapped || e == Error::OutOfMemory)
                &&& (e == Error::AlreadyMapped ==> old(space).entry_at(virt) & MMU_VALID != 0
                    && final(mm)@ == old(mm)@ && (forall|i: int|
                    0 <= i < 1024 ==> final(space).l1(i) == old(space).l1(i)) && (forall|i: int|
                    0 <= i < 1024 ==> final(space).leaf_mapped(i) == old(space).leaf_mapped(i)))
                &&& (e == Error::OutOfMemory ==> !old(space).leaf_mapped(spec_vpn1(virt) as int)
                    && (forall|j: int| 0 <= j < old(mm)@.len() ==> old(mm)@[j] is Some)
                    && *final(space) == *old(space) && final(mm)@ == old(mm)@)
            },
        },
{
    let ppn1 = (phys >> 22) & 0xfff;
    let ppn0 = (phys >> 12) & 0x3ff;
    let vpn1 = (virt >> 22) & 0x3ff;
    let vpn0 = (virt >> 12) & 0x3ff;
    proof {
        lemma_vpn_bounds(virt);
    }
    let flags = translate_flags(req_flags) | (if map_user {
        MMU_USER
    } else {
        0u32
    });
    match space.ensure_leaf(mm, pid, vpn1) {
        Ok(()) => {},
        Err(e) => {
            return Err(e);
        },
    }
    if space.get_entry(vpn1, vpn0) & MMU_VALID != 0 {
        proof {
            assert(0u32 & MMU_VALID == 0) by (bit_vector);
        }
        return Err(Error::AlreadyMapped);
    }
    let word = (ppn1 << 20) | (ppn0 << 10);
    proof {
        assert(((((phys >> 22) & 0xfff) << 20) | (((phys >> 12) & 0x3ff) << 10)) <= 0xffff_fc00)
            by (bit_vector);
    }
    let entry = (word as u32) | flags | MMU_VALID | MMU_D | MMU_A;
    proof {
        let tf = spec_translate_flags(req_flags);
        let uf: u32 = if map_user {
            MMU_USER
        } else {
            0u32
        };
        assert(phys <= 0xffff_ffff && tf < 16 && uf <= 16 ==> ((((phys >> 22) & 0xfff) << 20) | ((
        (phys >> 12) & 0x3ff) << 10)) as u32 | (tf | uf) | 0x1u32 | 0x80u32 | 0x40u32 == ((((phys
            >> 12) as u32) << 10) | tf | 0x1u32 | 0x40u32 | 0x80u32 | uf) && (((((phys >> 22)
            & 0xfff) << 20) | (((phys >> 12) & 0x3ff) << 10)) as u32 | (tf | uf) | 0x1u32 | 0x80u32
            | 0x40u32) < 0x4000_0000 && ((((phys >> 22) & 0xfff) << 20) | (((phys >> 12) & 0x3ff)
            << 10)) as u32 | (tf | uf) | 0x1u32 | 0x80u32 | 0x40u32 != 0u32 && (((((phys >> 22)
            & 0xfff) << 20) | (((phys >> 12) & 0x3ff) << 10)) as u32 | (tf | uf) | 0x1u32 | 0x80u32
            | 0x40u32) & 0x1u32 != 0u32) by (bit_vector);
        assert(spec_translate_flags(req_flags) < 16) by (bit_vector);
    }
    space.set_entry(vpn1, vpn0, entry);
    Ok(())
}

/// Clear the entry for `virt` and hand back the physical address it mapped.
/// The frame itself is not freed: the caller decides its fate.  Fails with
/// `BadAlignment` exactly when `virt` is not 4-byte aligned, and with
/// `BadAddress` when no leaf covers `virt` or the entry is not valid;
/// nothing changes on failure.
pub fn unmap_page_inner(space: &mut AddressSpace, virt: usize) -> (r: Result<usize, Error>)
    requires
        old(space).wf(),
    ensures
        final(space).wf(),
        final(space).spec_asid() == old(space).spec_asid(),
        final(space).spec_root_phys() == old(space).spec_root_phys(),
        match r {
            Ok(phys) => {
                &&& virt & 3 == 0
                &&& old(space).translates(virt)
                &&& phys == spec_phys_of(old(space).entry_at(virt))
                &&& final(space).entry_at(virt) == 0
                &&& final(space).same_except(*old(space), spec_vpn1(virt) as int, spec_vpn0(virt) as int)
            },
            Err(e) => {
                &&& *final(space) == *old(space)
                &&& (e == Error::BadAlignment && virt & 3 != 0) || (e == Error::BadAddress && virt
                    & 3 == 0 && !old(space).translates(virt))
            },
        },
{
    let entry = match pagetable_entry(space, virt) {
        Ok(e) => e,
        Err(e) => {
            return Err(e);
        },
    };
    if entry & MMU_VALID == 0 {
        return Err(Error::BadAddress);
    }
    proof {
        lemma_vpn_bounds(virt);
        space.lemma_entry_bounded(spec_vpn1(virt) as int, spec_vpn0(virt) as int);
        lemma_phys_of_bounds(entry);
    }
    let phys = ((entry as usize) >> 10) << 12;
    space.set_entry((virt >> 22) & 0x3ff, (virt >> 12) & 0x3ff, 0);
    Ok(phys)
}

/// Add the U flag to the (valid) entry for `virt`: a freshly allocated page
/// is zeroed under kernel ownership and only then handed to user mode.
/// Fails with `BadAddress` exactly when no leaf covers `virt` or the entry
/// is not valid; nothing changes then.
pub fn hand_page_to_user(space: &mut AddressSpace, virt: usize) -> (r: Result<(), Error>)
    requires
        old(space).wf(),
    ensures
        final(space).wf(),
        final(space).spec_asid() == old(space).spec_asid(),
        final(space).spec_root_phys() == old(space).spec_root_phys(),
        match r {
            Ok(()) => {
                &&& old(space).translates(virt)
                &&& final(space).entry_at(virt) == old(space).entry_at(virt) | MMU_USER
                &&& final(space).same_except(*old(space), spec_vpn1(virt) as int, spec_vpn0(virt) as int)
            },
            Err(e) => {
                &&& *final(space) == *old(space)
                &&& e == Error::BadAddress
                &&& !old(space).translates(virt)
            },
        },
{
    let vpn1 = (virt >> 22) & 0x3ff;
    let vpn0 = (virt >> 12) & 0x3ff;
    proof {
        lemma_vpn_bounds(virt);
    }
    if space.get_l1(vpn1) & MMU_VALID == 0 {
        return Err(Error::BadAddress);
    }
    let entry = space.get_entry(vpn1, vpn0);
    if entry & MMU_VALID == 0 {
        return Err(Error::BadAddress);
    }
    proof {
        space.lemma_entry_bounded(vpn1 as int, vpn0 as int);
        assert(entry < 0x4000_0000 ==> (entry | 0x10u32) < 0x4000_0000) by (bit_vector);
    }
    space.set_entry(vpn1, vpn0, entry | MMU_USER);
    Ok(())
}

/// Look up the entry that translates `addr`.  Fails with `BadAlignment`
/// exactly when `addr` is not 4-byte aligned, and with `BadAddress` exactly
/// when no leaf table covers `addr`.
pub fn pagetable_entry(space: &AddressSpace, addr: usize) -> (r: Result<u32, Error>)
    requires
        space.wf(),
    ensures
        match r {
            Ok(e) => addr & 3 == 0 && space.leaf_mapped(spec_vpn1(addr) as int) && e
                == space.entry_at(addr),
            Err(e) => (e == Error::BadAlignment && addr & 3 != 0) || (e == Error::BadAddress && addr
                & 3 == 0 && !space.leaf_mapped(spec_vpn1(addr) as int)),
        },
{
    if addr & 3 != 0 {
        return Err(Error::BadAlignment);
    }
    let vpn1 = (addr >> 22) & 0x3ff;
    let vpn0 = (addr >> 12) & 0x3ff;
    proof {
        lemma_vpn_bounds(addr);
    }
    if space.get_l1(vpn1) & MMU_VALID == 0 {
        proof {
            assert(!space.leaf_mapped(vpn1 as int));
        }
        return Err(Error::BadAddress);
    }
    Ok(space.get_entry(vpn1, vpn0))
}

/// The physical address `addr` translates to.  Fails with `BadAddress`
/// exactly when `addr` does not translate.
pub fn virt_to_phys(space: &AddressSpace, virt: usize) -> (r: Result<usize, Error>)
    requires
        space.wf(),
    ensures
        match r {
            Ok(phys) => space.translates(virt) && phys == spec_phys_of(space.entry_at(virt)),
            Err(e) => e == Error::BadAddress && !space.translates(virt),
        },
{
    let vpn1 = (virt >> 22) & 0x3ff;
    let vpn0 = (virt >> 12) & 0x3ff;
    proof {
        lemma_vpn_bounds(virt);
    }
    if space.get_l1(vpn1) & MMU_VALID == 0 {
        return Err(Error::BadAddress);
    }
    let entry = space.get_entry(vpn1, vpn0);
    if entry & MMU_VALID == 0 {
        return Err(Error::BadAddress);
    }
    proof {
        space.lemma_entry_bounded(spec_vpn1(virt) as int, spec_vpn0(virt) as int);
        lemma_phys_of_bounds(entry);
    }
    Ok(((entry as usize) >> 10) << 12)
}

/// What a lender's entry becomes on a mutable lend: valid bit cleared (the
/// lender must not touch the page while it is lent out), shared bit set,
/// everything else kept.
pub open spec fn spec_lend_source_mutable(e: u32) -> u32 {
    (e & !MMU_VALID) | MMU_S
}

/// What a lender's entry becomes on an immutable lend: W cleared, S set,
/// and P set exactly when the entry was writable, so the W bit can be
/// restored on return.
pub open spec fn spec_lend_source_immutable(e: u32) -> u32 {
    (e & !MMU_W) | ((if e & MMU_W != 0 {
        MMU_P
    } else {
        0u32
    }) | MMU_S)
}

/// What a lender's entry becomes when the borrow is returned: a
/// mutably-lent entry (valid bit clear) gets V back and S cleared; an
/// immutably-lent entry gets W back exactly when P recorded it, and S and P
/// cleared.
pub open spec fn spec_returned_lender(d: u32) -> u32 {
    if d & MMU_VALID == 0 {
        (d & !MMU_S) | MMU_VALID
    } else {
        (d & !(MMU_S | MMU_P)) | (if d & MMU_P != 0 {
            MMU_W
        } else {
            0u32
        })
    }
}

/// Lend the page at `src_addr` of `src_space` to `dest_space` at
/// `dest_addr`.  A mutable lend refuses an already-shared source entry with
/// `ShareViolation`; otherwise the source entry is marked lent
/// (`spec_lend_source_mutable` / `spec_lend_source_immutable`) and the frame
/// is mapped into the destination, read-write for a mutable lend and
/// read-only for an immutable one.  Frame ownership does not change.  The
/// source edit precedes the destination map and is not rolled back if the
/// map fails: the discipline is strictly two-phase.
pub fn lend_page_inner(
    mm: &mut MemoryManager,
    src_space: &mut AddressSpace,
    src_addr: usize,
    dest_pid: Pid,
    dest_space: &mut AddressSpace,
    dest_addr: usize,
    mutable: bool,
) -> (r: Result<usize, Error>)
    requires
        old(src_space).wf(),
        old(dest_space).wf(),
        old(mm).wf(),
    ensures
        final(src_space).wf(),
        final(dest_space).wf(),
        final(mm).wf(),
        final(mm)@.len() == old(mm)@.len(),
        final(src_space).spec_asid() == old(src_space).spec_asid(),
        final(dest_space).spec_asid() == old(dest_space).spec_asid(),
        final(src_space).spec_root_phys() == old(src_space).spec_root_phys(),
        final(dest_space).spec_root_phys() == old(dest_space).spec_root_phys(),
        forall|i: int, j: int|
            0 <= i < 1024 && 0 <= j < 1024 && !(i == spec_vpn1(src_addr) && j == spec_vpn0(
                src_addr,
            )) ==> final(src_space).entry(i, j) == old(src_space).entry(i, j),
        forall|i: int, j: int|
            0 <= i < 1024 && 0 <= j < 1024 && !(i == spec_vpn1(dest_addr) && j == spec_vpn0(
                dest_addr,
            )) ==> final(dest_space).entry(i, j) == old(dest_space).entry(i, j),
        forall|i: int| 0 <= i < 1024 ==> final(src_space).l1(i) == old(src_space).l1(i),
        forall|i: int|
            0 <= i < 1024 ==> final(src_space).leaf_mapped(i) == old(src_space).leaf_mapped(i),
        forall|i: int|
            0 <= i < 1024 && i != spec_vpn1(dest_addr) ==> final(dest_space).l1(i) == old(
                dest_space,
            ).l1(i),
        forall|i: int|
            0 <= i < 1024 && i != spec_vpn1(dest_addr) ==> final(dest_space).leaf_mapped(i) == old(
                dest_space,
            ).leaf_mapped(i),
        match r {
            Ok(phys) => {
                &&& src_addr & 3 == 0
                &&& old(src_space).leaf_mapped(spec_vpn1(src_addr) as int)
                &&& final(dest_space).leaf_mapped(spec_vpn1(dest_addr) as int)
                &&& phys == spec_phys_of(old(src_space).entry_at(src_addr))
                &&& final(src_space).entry_at(src_addr) == (if mutable {
                    spec_lend_source_mutable(old(src_space).entry_at(src_addr))
                } else {
                    spec_lend_source_immutable(old(src_space).entry_at(src_addr))
                })
                &&& (mutable ==> old(src_space).entry_at(src_addr) & MMU_S == 0)
                &&& old(dest_space).entry_at(dest_addr) & MMU_VALID == 0
                &&& final(dest_space).entry_at(dest_addr) == spec_mapped_entry(
                    phys,
                    if mutable {
                        crate::flags::MEM_R | crate::flags::MEM_W
                    } else {
                        crate::flags::MEM_R
                    },
                    dest_pid.v != 1,
                )
            },
            Err(e) => {
                &&& final(dest_space).entry_at(dest_addr) == old(dest_space).entry_at(dest_addr)
                &&& (e == Error::BadAlignment ==> src_addr & 3 != 0)
                &&& (e == Error::BadAddress ==> !old(src_space).leaf_mapped(
                    spec_vpn1(src_addr) as int,
                ))
                &&& (e == Error::ShareViolation ==> mutable && old(src_space).entry_at(src_addr)
                    & MMU_S != 0)
                &&& ((e == Error::BadAlignment || e == Error::BadAddress || e
                    == Error::ShareViolation) ==> *final(src_space) == *old(src_space)
                    && final(mm)@ == old(mm)@)
                &&& (e == Error::AlreadyMapped ==> old(dest_space).entry_at(dest_addr) & MMU_VALID
                    != 0 && final(mm)@ == old(mm)@)
                &&& (e == Error::OutOfMemory ==> !old(dest_space).leaf_mapped(
                    spec_vpn1(dest_addr) as int,
                ) && (forall|j: int| 0 <= j < old(mm)@.len() ==> old(mm)@[j] is Some)
                    && final(mm)@ == old(mm)@)
                &&& (e == Error::AlreadyMapped || e == Error::OutOfMemory
                    || e == Error::BadAlignment || e == Error::BadAddress || e
                    == Error::ShareViolation)
                &&& ((e == Error::AlreadyMapped || e == Error::OutOfMemory) ==> src_addr & 3 == 0
                    && old(src_space).leaf_mapped(spec_vpn1(src_addr) as int) && (mutable ==> old(
                    src_space,
                ).entry_at(src_addr) & MMU_S == 0) && final(src_space).entry_at(src_addr) == (
                if mutable {
                    spec_lend_source_mutable(old(src_space).entry_at(src_addr))
                } else {
                    spec_lend_source_immutable(old(src_space).entry_at(src_addr))
                }))
            },
        },
{
    let entry = match pagetable_entry(src_space, src_addr) {
        Ok(e) => e,
        Err(e) => {
            return Err(e);
        },
    };
    proof {
        lemma_vpn_bounds(src_addr);
        src_space.lemma_entry_bounded(spec_vpn1(src_addr) as int, spec_vpn0(src_addr) as int);
        lemma_phys_of_bounds(entry);
        assert(entry < 0x4000_0000 ==> ((entry & !0x1u32) | 0x100u32) < 0x4000_0000 && ((entry
            & !0x4u32) | ((if entry & 0x4u32 != 0 {
            0x200u32
        } else {
            0u32
        }) | 0x100u32)) < 0x4000_0000) by (bit_vector);
    }
    let phys = ((entry as usize) >> 10) << 12;
    let vpn1 = (src_addr >> 22) & 0x3ff;
    let vpn0 = (src_addr >> 12) & 0x3ff;

    let result = if mutable {
        // Sharing a page that is already shared is a sharing violation.
        if entry & MMU_S != 0 {
            return Err(Error::ShareViolation);
        }
        // The page becomes writable in the destination, so it must be
        // unavailable here: set S, clear V, keep everything else.
        src_space.set_entry(vpn1, vpn0, (entry & !MMU_VALID) | MMU_S);
        map_page_inner(
            mm,
            dest_space,
            dest_pid,
            phys,
            dest_addr,
            crate::flags::MEM_R | crate::flags::MEM_W,
            dest_pid.get() != 1,
        )
    } else {
        // Immutably shared: remember whether the page was writable, then
        // make it read-only here.
        let previous_flag: u32 = if entry & MMU_W != 0 {
            MMU_P
        } else {
            0
        };
        src_space.set_entry(vpn1, vpn0, (entry & !MMU_W) | (previous_flag | MMU_S));
        map_page_inner(
            mm,
            dest_space,
            dest_pid,
            phys,
            dest_addr,
            crate::flags::MEM_R,
            dest_pid.get() != 1,
        )
    };
    match result {
        Ok(()) => Ok(phys),
        Err(e) => Err(e),
    }
}

/// Return the page at `src_addr` of `src_space` (the borrower) to
/// `dest_space` (the lender) at `dest_addr`.  The borrower's entry is
/// cleared outright — a borrow is never retained — and the lender's entry
/// is restored (`spec_returned_lender`).  Fails with `ShareViolation`
/// exactly when the borrower's entry is not valid.  The lender side must
/// actually record a lend at `dest_addr`; violating that is a kernel bug,
/// not an error a caller can see.
pub fn return_page_inner(
    src_space: &mut AddressSpace,
    src_addr: usize,
    dest_space: &mut AddressSpace,
    dest_addr: usize,
) -> (r: Result<usize, Error>)
    requires
        old(src_space).wf(),
        old(dest_space).wf(),
        dest_addr & 3 == 0,
        old(dest_space).leaf_mapped(spec_vpn1(dest_addr) as int),
        old(dest_space).entry_at(dest_addr) & MMU_S != 0,
    ensures
        final(src_space).wf(),
        final(dest_space).wf(),
        match r {
            Ok(phys) => {
                &&& src_addr & 3 == 0
                &&& old(src_space).leaf_mapped(spec_vpn1(src_addr) as int)
                &&& old(src_space).entry_at(src_addr) & MMU_VALID != 0
                &&& phys == spec_phys_of(old(src_space).entry_at(src_addr))
                &&& final(src_space).entry_at(src_addr) == 0
                &&& final(src_space).same_except(
                    *old(src_space),
                    spec_vpn1(src_addr) as int,
                    spec_vpn0(src_addr) as int,
                )
                &&& final(dest_space).entry_at(dest_addr) == spec_returned_lender(
                    old(dest_space).entry_at(dest_addr),
                )
                &&& final(dest_space).same_except(
                    *old(dest_space),
                    spec_vpn1(dest_addr) as int,
                    spec_vpn0(dest_addr) as int,
                )
            },
            Err(e) => {
                &&& *final(src_space) == *old(src_space)
                &&& *final(dest_space) == *old(dest_space)
                &&& (e == Error::BadAlignment && src_addr & 3 != 0) || (e == Error::BadAddress
                    && src_addr & 3 == 0 && !old(src_space).leaf_mapped(spec_vpn1(src_addr) as int))
                    || (e == Error::ShareViolation && old(src_space).entry_at(src_addr) & MMU_VALID
                    == 0)
            },
        },
{
    let src_entry = match pagetable_entry(src_space, src_addr) {
        Ok(e) => e,
        Err(e) => {
            return Err(e);
        },
    };
    if src_entry & MMU_VALID == 0 {
        return Err(Error::ShareViolation);
    }
    proof {
        lemma_vpn_bounds(src_addr);
        lemma_vpn_bounds(dest_addr);
        src_space.lemma_entry_bounded(spec_vpn1(src_addr) as int, spec_vpn0(src_addr) as int);
        lemma_phys_of_bounds(src_entry);
    }
    let phys = ((src_entry as usize) >> 10) << 12;
    src_space.set_entry((src_addr >> 22) & 0x3ff, (src_addr >> 12) & 0x3ff, 0);

    let dest_entry = dest_space.get_entry((dest_addr >> 22) & 0x3ff, (dest_addr >> 12) & 0x3ff);
    proof {
        dest_space.lemma_entry_bounded(spec_vpn1(dest_addr) as int, spec_vpn0(dest_addr) as int);
        assert(dest_entry < 0x4000_0000 ==> ((dest_entry & !0x100u32) | 0x1u32) < 0x4000_0000 && ((
        dest_entry & !(0x100u32 | 0x200u32)) | (if dest_entry & 0x200u32 != 0 {
            0x4u32
        } else {
            0u32
        })) < 0x4000_0000) by (bit_vector);
    }
    let new_dest = if dest_entry & MMU_VALID == 0 {
        // The page was mutably borrowed: give the lender its valid bit back
        // and clear the shared bit.
        (dest_entry & !MMU_S) | MMU_VALID
    } else {
        // The page was immutably borrowed, and had its W bit clobbered:
        // restore W exactly when P recorded it, and clear S and P.
        (dest_entry & !(MMU_S | MMU_P)) | (if dest_entry & MMU_P != 0 {
            MMU_W
        } else {
            0
        })
    };
    dest_space.set_entry((dest_addr >> 22) & 0x3ff, (dest_addr >> 12) & 0x3ff, new_dest);
    Ok(phys)
}

/// Move the page at `src_addr` of `src_space` to `dest_space` at
/// `dest_addr`: the source entry is cleared, a fresh entry with the same
/// R/W/X flags is installed in the destination, and ownership of the frame
/// is reattributed to `dest_pid`.  The source edit precedes the destination
/// map and is not rolled back if the map fails.
pub fn move_page_inner(
    mm: &mut MemoryManager,
    src_space: &mut AddressSpace,
    src_addr: usize,
    dest_pid: Pid,
    dest_space: &mut AddressSpace,
    dest_addr: usize,
) -> (r: Result<(), Error>)
    requires
        old(src_space).wf(),
        old(dest_space).wf(),
        old(mm).wf(),
    ensures
        final(src_space).wf(),
        final(dest_space).wf(),
        final(mm).wf(),
        final(mm)@.len() == old(mm)@.len(),
        final(src_space).spec_asid() == old(src_space).spec_asid(),
        final(dest_space).spec_asid() == old(dest_space).spec_asid(),
        final(src_space).spec_root_phys() == old(src_space).spec_root_phys(),
        final(dest_space).spec_root_phys() == old(dest_space).spec_root_phys(),
        forall|i: int, j: int|
            0 <= i < 1024 && 0 <= j < 1024 && !(i == spec_vpn1(src_addr) && j == spec_vpn0(
                src_addr,
            )) ==> final(src_space).entry(i, j) == old(src_space).entry(i, j),
        forall|i: int, j: int|
            0 <= i < 1024 && 0 <= j < 1024 && !(i == spec_vpn1(dest_addr) && j == spec_vpn0(
                dest_addr,
            )) ==> final(dest_space).entry(i, j) == old(dest_space).entry(i, j),
        forall|i: int| 0 <= i < 1024 ==> final(src_space).l1(i) == old(src_space).l1(i),
        forall|i: int|
            0 <= i < 1024 ==> final(src_space).leaf_mapped(i) == old(src_space).leaf_mapped(i),
        forall|i: int|
            0 <= i < 1024 && i != spec_vpn1(dest_addr) ==> final(dest_space).l1(i) == old(
                dest_space,
            ).l1(i),
        forall|i: int|
            0 <= i < 1024 && i != spec_vpn1(dest_addr) ==> final(dest_space).leaf_mapped(i) == old(
                dest_space,
            ).leaf_mapped(i),
        match r {
            Ok(()) => {
                &&& src_addr & 3 == 0
                &&& old(src_space).entry_at(src_addr) & MMU_VALID != 0
                &&& final(dest_space).leaf_mapped(spec_vpn1(dest_addr) as int)
                &&& final(src_space).entry_at(src_addr) == 0
                &&& final(src_space).same_except(
                    *old(src_space),
                    spec_vpn1(src_addr) as int,
                    spec_vpn0(src_addr) as int,
                )
                &&& old(dest_space).entry_at(dest_addr) & MMU_VALID == 0
                &&& final(dest_space).entry_at(dest_addr) == spec_mapped_entry(
                    spec_phys_of(old(src_space).entry_at(src_addr)),
                    crate::flags::spec_untranslate_flags(old(src_space).entry_at(src_addr)),
                    dest_pid.v != 1,
                )
                &&& ((spec_phys_of(old(src_space).entry_at(src_addr)) as int
                    / crate::PAGE_SIZE as int) < old(mm)@.len() ==> final(mm)@[spec_phys_of(
                    old(src_space).entry_at(src_addr),
                ) as int / crate::PAGE_SIZE as int] == Some(dest_pid))
            },
            Err(e) => {
                &&& final(dest_space).entry_at(dest_addr) == old(dest_space).entry_at(dest_addr)
                &&& (e == Error::BadAlignment ==> src_addr & 3 != 0 && *final(src_space) == *old(
                    src_space,
                ))
                &&& (e == Error::BadAddress ==> *final(src_space) == *old(src_space) && (!old(
                    src_space,
                ).leaf_mapped(spec_vpn1(src_addr) as int) || old(src_space).entry_at(src_addr)
                    & MMU_VALID == 0))
                &&& (e == Error::AlreadyMapped ==> old(dest_space).entry_at(dest_addr) & MMU_VALID
                    != 0 && final(mm)@ == old(mm)@)
                &&& (e == Error::OutOfMemory ==> !old(dest_space).leaf_mapped(
                    spec_vpn1(dest_addr) as int,
                ) && (forall|j: int| 0 <= j < old(mm)@.len() ==> old(mm)@[j] is Some)
                    && final(mm)@ == old(mm)@)
                &&& ((e == Error::AlreadyMapped || e == Error::OutOfMemory) ==> src_addr & 3 == 0
                    && old(src_space).entry_at(src_addr) & MMU_VALID != 0
                    && final(src_space).entry_at(src_addr) == 0)
                &&& (e == Error::AlreadyMapped || e == Error::OutOfMemory || e
                    == Error::BadAlignment || e == Error::BadAddress)
            },
        },
{
    let entry = match pagetable_entry(src_space, src_addr) {
        Ok(e) => e,
        Err(e) => {
            return Err(e);
        },
    };
    if entry & MMU_VALID == 0 {
        return Err(Error::BadAddress);
    }
    proof {
        lemma_vpn_bounds(src_addr);
        src_space.lemma_entry_bounded(spec_vpn1(src_addr) as int, spec_vpn0(src_addr) as int);
        lemma_phys_of_bounds(entry);
    }
    // Invalidate the old entry first: strict two-phase, no rollback.
    src_space.set_entry((src_addr >> 22) & 0x3ff, (src_addr >> 12) & 0x3ff, 0);

    let phys = ((entry as usize) >> 10) << 12;
    let flags = untranslate_flags(entry);
    match map_page_inner(mm, dest_space, dest_pid, phys, dest_addr, flags, dest_pid.get() != 1) {
        Ok(()) => {},
        Err(e) => {
            return Err(e);
        },
    }
    // A move, unlike a lend, changes who owns the frame.
    match mm.reattribute(phys, dest_pid) {
        Ok(()) => {},
        Err(_) => {},
    }
    Ok(())
}

/// Distinct pages of one buffer land in distinct table slots: for a
/// page-aligned base, the table-index pairs of pages `p` and `q` differ.
pub proof fn lemma_distinct_page_slots(base: usize, p: usize, q: usize)
    requires
        base % crate::PAGE_SIZE == 0,
        p < q,
        q < 0x10_0000,
        base + q * crate::PAGE_SIZE < 0x1_0000_0000,
    ensures
        !(spec_vpn1((base + p * crate::PAGE_SIZE) as usize) == spec_vpn1(
            (base + q * crate::PAGE_SIZE) as usize,
        ) && spec_vpn0((base + p * crate::PAGE_SIZE) as usize) == spec_vpn0(
            (base + q * crate::PAGE_SIZE) as usize,
        )),
{
    assert((base % 4096 == 0 && p < q && q < 0x10_0000 && base + q * 4096 < 0x1_0000_0000) ==> !((((
    base + p * 4096) as usize) >> 22) & 0x3ff == (((base + q * 4096) as usize) >> 22) & 0x3ff && (((
    base + p * 4096) as usize) >> 12) & 0x3ff == (((base + q * 4096) as usize) >> 12) & 0x3ff))
        by (bit_vector);
}

/// A page-aligned address is 4-byte aligned.
pub proof fn lemma_page_aligned_word_aligned(a: usize)
    requires
        a % crate::PAGE_SIZE == 0,
    ensures
        a & 3 == 0,
{
    assert(a % 4096 == 0 ==> a & 3 == 0) by (bit_vector);
}

/// What `lend_range` does to each of the source's entries.
pub open spec fn spec_lend_source(e: u32, mutable: bool) -> u32 {
    if mutable {
        spec_lend_source_mutable(e)
    } else {
        spec_lend_source_immutable(e)
    }
}

/// The flags a borrower receives: read-write for a mutable lend, read-only
/// otherwise.
pub open spec fn spec_borrow_flags(mutable: bool) -> usize {
    if mutable {
        crate::flags::MEM_R | crate::flags::MEM_W
    } else {
        crate::flags::MEM_R
    }
}

/// The address of page `p` of a buffer based at `base`.
pub open spec fn page_addr(base: usize, p: int) -> usize {
    (base + p * crate::PAGE_SIZE) as usize
}

/// Page `p` of a buffer was lent: the source entry is marked lent, the
/// destination entry (previously invalid) maps the source frame with the
/// borrow flags.
pub open spec fn spec_page_lent(
    src_old: AddressSpace,
    src_new: AddressSpace,
    dest_old: AddressSpace,
    dest_new: AddressSpace,
    src_addr: usize,
    dest_addr: usize,
    p: int,
    mutable: bool,
    dest_pid: Pid,
) -> bool {
    &&& src_new.entry_at(page_addr(src_addr, p)) == spec_lend_source(
        src_old.entry_at(page_addr(src_addr, p)),
        mutable,
    )
    &&& (mutable ==> src_old.entry_at(page_addr(src_addr, p)) & MMU_S == 0)
    &&& dest_old.entry_at(page_addr(dest_addr, p)) & MMU_VALID == 0
    &&& dest_new.entry_at(page_addr(dest_addr, p)) == spec_mapped_entry(
        spec_phys_of(src_old.entry_at(page_addr(src_addr, p))),
        spec_borrow_flags(mutable),
        dest_pid.v != 1,
    )
}

/// Page `p` of a borrow was returned: the borrower's entry is cleared and
/// the lender's entry restored.
pub open spec fn spec_page_returned(
    src_new: AddressSpace,
    dest_old: AddressSpace,
    dest_new: AddressSpace,
    src_addr: usize,
    dest_addr: usize,
    p: int,
) -> bool {
    &&& src_new.entry_at(page_addr(src_addr, p)) == 0
    &&& dest_new.entry_at(page_addr(dest_addr, p)) == spec_returned_lender(
        dest_old.entry_at(page_addr(dest_addr, p)),
    )
}

/// How a failed multi-page lend left the spaces: pages before `kp` were
/// fully lent, pages after `kp` are untouched, and the error is tied to
/// page `kp` itself — the strict two-phase discipline rolls nothing back.
pub open spec fn spec_lend_failure(
    src_old: AddressSpace,
    src_new: AddressSpace,
    dest_old: AddressSpace,
    dest_new: AddressSpace,
    src_addr: usize,
    dest_addr: usize,
    kp: int,
    npages: int,
    mutable: bool,
    dest_pid: Pid,
    e: Error,
) -> bool {
    &&& forall|p: int|
        0 <= p < kp ==> #[trigger] spec_page_lent(
            src_old,
            src_new,
            dest_old,
            dest_new,
            src_addr,
            dest_addr,
            p,
            mutable,
            dest_pid,
        )
    &&& forall|p: int|
        kp < p < npages ==> src_new.entry_at(#[trigger] page_addr(src_addr, p))
            == src_old.entry_at(page_addr(src_addr, p)) && dest_new.entry_at(
            page_addr(dest_addr, p),
        ) == dest_old.entry_at(page_addr(dest_addr, p))
    &&& (e == Error::BadAddress ==> !src_old.leaf_mapped(
        spec_vpn1(page_addr(src_addr, kp)) as int,
    ))
    &&& (e == Error::ShareViolation ==> mutable && src_old.entry_at(page_addr(src_addr, kp))
        & MMU_S != 0)
    &&& (e == Error::AlreadyMapped ==> dest_old.entry_at(page_addr(dest_addr, kp)) & MMU_VALID
        != 0)
}

/// Lend the `npages` pages of a buffer, page by page, from `src_space` at
/// `src_addr` into `dest_space` at `dest_addr`.  On success every source
/// entry is marked lent and every destination page maps the matching source
/// frame.  On failure a prefix of the pages may already have been
/// transferred: the discipline is strictly two-phase, nothing is rolled
/// back.
#[verifier::loop_isolation(false)]
pub fn lend_range(
    mm: &mut MemoryManager,
    src_space: &mut AddressSpace,
    src_addr: usize,
    dest_pid: Pid,
    dest_space: &mut AddressSpace,
    dest_addr: usize,
    npages: usize,
    mutable: bool,
) -> (r: Result<(), Error>)
    requires
        old(src_space).wf(),
        old(dest_space).wf(),
        old(mm).wf(),
        src_addr % crate::PAGE_SIZE == 0,
        dest_addr % crate::PAGE_SIZE == 0,
        npages < 0x10_0000,
        src_addr + npages * crate::PAGE_SIZE < 0x1_0000_0000,
        dest_addr + npages * crate::PAGE_SIZE < 0x1_0000_0000,
    ensures
        final(src_space).wf(),
        final(dest_space).wf(),
        final(mm).wf(),
        final(mm)@.len() == old(mm)@.len(),
        final(src_space).spec_asid() == old(src_space).spec_asid(),
        final(dest_space).spec_asid() == old(dest_space).spec_asid(),
        match r {
            Ok(()) => forall|p: int|
                0 <= p < npages ==> #[trigger] spec_page_lent(
                    *old(src_space),
                    *final(src_space),
                    *old(dest_space),
                    *final(dest_space),
                    src_addr,
                    dest_addr,
                    p,
                    mutable,
                    dest_pid,
                ),
            Err(e) => {
                &&& (e == Error::BadAddress || e == Error::ShareViolation || e
                    == Error::AlreadyMapped || e == Error::OutOfMemory)
                &&& (e == Error::OutOfMemory ==> forall|j: int|
                    0 <= j < final(mm)@.len() ==> final(mm)@[j] is Some)
                &&& exists|kp: int|
                    0 <= kp < npages && #[trigger] spec_lend_failure(
                        *old(src_space),
                        *final(src_space),
                        *old(dest_space),
                        *final(dest_space),
                        src_addr,
                        dest_addr,
                        kp,
                        npages as int,
                        mutable,
                        dest_pid,
                        e,
                    )
            },
        },
{
    let ghost src0 = *src_space;
    let ghost dest0 = *dest_space;
    let mut k: usize = 0;
    while k < npages
        invariant
            k <= npages,
            npages < 0x10_0000,
            src_addr % crate::PAGE_SIZE == 0,
            dest_addr % crate::PAGE_SIZE == 0,
            src_addr + npages * crate::PAGE_SIZE < 0x1_0000_0000,
            dest_addr + npages * crate::PAGE_SIZE < 0x1_0000_0000,
            src0 == *old(src_space),
            dest0 == *old(dest_space),
            src_space.wf(),
            dest_space.wf(),
            mm.wf(),
            mm@.len() == old(mm)@.len(),
            src_space.spec_asid() == src0.spec_asid(),
            dest_space.spec_asid() == dest0.spec_asid(),
            forall|i: int|
                0 <= i < 1024 ==> #[trigger] src_space.leaf_mapped(i) == src0.leaf_mapped(i),
            forall|p: int|
                k <= p < npages ==> src_space.entry_at(#[trigger] page_addr(src_addr, p))
                    == src0.entry_at(page_addr(src_addr, p)),
            forall|p: int|
                k <= p < npages ==> dest_space.entry_at(#[trigger] page_addr(dest_addr, p))
                    == dest0.entry_at(page_addr(dest_addr, p)),
            forall|p: int|
                0 <= p < k ==> #[trigger] spec_page_lent(
                    src0,
                    *src_space,
                    dest0,
                    *dest_space,
                    src_addr,
                    dest_addr,
                    p,
                    mutable,
                    dest_pid,
                ),
        decreases npages - k,
    {
        let sa = src_addr + k * crate::PAGE_SIZE;
        let da = dest_addr + k * crate::PAGE_SIZE;
        let ghost src_pre = *src_space;
        let ghost dest_pre = *dest_space;
        proof {
            assert(sa == page_addr(src_addr, k as int));
            assert(da == page_addr(dest_addr, k as int));
        }
        match lend_page_inner(mm, src_space, sa, dest_pid, dest_space, da, mutable) {
            Ok(_) => {},
            Err(e) => {
                proof {
                    lemma_vpn_bounds(sa);
                    lemma_vpn_bounds(da);
                    assert((src_addr + k * crate::PAGE_SIZE) % 4096 == 0) by (nonlinear_arith)
                        requires
                            src_addr % 4096 == 0,
                            crate::PAGE_SIZE == 4096,
                    ;
                    lemma_page_aligned_word_aligned(sa);
                    assert forall|p: int|
                        0 <= p < k implies #[trigger] spec_page_lent(
                        src0,
                        *src_space,
                        dest0,
                        *dest_space,
                        src_addr,
                        dest_addr,
                        p,
                        mutable,
                        dest_pid,
                    ) by {
                        assert(spec_page_lent(
                            src0,
                            src_pre,
                            dest0,
                            dest_pre,
                            src_addr,
                            dest_addr,
                            p,
                            mutable,
                            dest_pid,
                        ));
                        lemma_distinct_page_slots(src_addr, p as usize, k);
                        lemma_distinct_page_slots(dest_addr, p as usize, k);
                        lemma_vpn_bounds(page_addr(src_addr, p));
                        lemma_vpn_bounds(page_addr(dest_addr, p));
                    }
                    assert forall|p: int|
                        k < p < npages implies src_space.entry_at(
                        #[trigger] page_addr(src_addr, p),
                    ) == src0.entry_at(page_addr(src_addr, p)) && dest_space.entry_at(
                        page_addr(dest_addr, p),
                    ) == dest0.entry_at(page_addr(dest_addr, p)) by {
                        assert(src_pre.entry_at(page_addr(src_addr, p)) == src0.entry_at(
                            page_addr(src_addr, p),
                        ));
                        assert(dest_pre.entry_at(page_addr(dest_addr, p)) == dest0.entry_at(
                            page_addr(dest_addr, p),
                        ));
                        lemma_distinct_page_slots(src_addr, k, p as usize);
                        lemma_distinct_page_slots(dest_addr, k, p as usize);
                        lemma_vpn_bounds(page_addr(src_addr, p));
                        lemma_vpn_bounds(page_addr(dest_addr, p));
                    }
                    assert(src_pre.entry_at(sa) == src0.entry_at(sa));
                    assert(dest_pre.entry_at(da) == dest0.entry_at(da));
                    assert(src_pre.leaf_mapped(spec_vpn1(sa) as int) == src0.leaf_mapped(
                        spec_vpn1(sa) as int,
                    ));
                    assert(spec_lend_failure(
                        src0,
                        *src_space,
                        dest0,
                        *dest_space,
                        src_addr,
                        dest_addr,
                        k as int,
                        npages as int,
                        mutable,
                        dest_pid,
                        e,
                    ));
                }
                return Err(e);
            },
        }
        proof {
            lemma_vpn_bounds(sa);
            lemma_vpn_bounds(da);
            assert forall|p: int|
                0 <= p < k + 1 implies #[trigger] spec_page_lent(
                src0,
                *src_space,
                dest0,
                *dest_space,
                src_addr,
                dest_addr,
                p,
                mutable,
                dest_pid,
            ) by {
                if p < k {
                    assert(spec_page_lent(
                        src0,
                        src_pre,
                        dest0,
                        dest_pre,
                        src_addr,
                        dest_addr,
                        p,
                        mutable,
                        dest_pid,
                    ));
                    lemma_distinct_page_slots(src_addr, p as usize, k);
                    lemma_distinct_page_slots(dest_addr, p as usize, k);
                    lemma_vpn_bounds(page_addr(src_addr, p));
                    lemma_vpn_bounds(page_addr(dest_addr, p));
                } else {
                    assert(src_pre.entry_at(sa) == src0.entry_at(sa));
                    assert(dest_pre.entry_at(da) == dest0.entry_at(da));
                    assert(page_addr(src_addr, p) == sa);
                    assert(page_addr(dest_addr, p) == da);
                }
            }
            assert forall|p: int|
                k + 1 <= p < npages implies src_space.entry_at(
                #[trigger] page_addr(src_addr, p),
            ) == src0.entry_at(page_addr(src_addr, p)) by {
                assert(src_pre.entry_at(page_addr(src_addr, p)) == src0.entry_at(
                    page_addr(src_addr, p),
                ));
                lemma_distinct_page_slots(src_addr, k, p as usize);
                lemma_vpn_bounds(page_addr(src_addr, p));
            }
            assert forall|p: int|
                k + 1 <= p < npages implies dest_space.entry_at(
                #[trigger] page_addr(dest_addr, p),
            ) == dest0.entry_at(page_addr(dest_addr, p)) by {
                assert(dest_pre.entry_at(page_addr(dest_addr, p)) == dest0.entry_at(
                    page_addr(dest_addr, p),
                ));
                lemma_distinct_page_slots(dest_addr, k, p as usize);
                lemma_vpn_bounds(page_addr(dest_addr, p));
            }
        }
        k = k + 1;
    }
    Ok(())
}

/// Page `p` of a buffer was moved: the source entry is cleared, the
/// destination entry (previously invalid) maps the source frame with the
/// source entry's R/W/X flags.
pub open spec fn spec_page_moved(
    src_old: AddressSpace,
    src_new: AddressSpace,
    dest_old: AddressSpace,
    dest_new: AddressSpace,
    src_addr: usize,
    dest_addr: usize,
    p: int,
    dest_pid: Pid,
) -> bool {
    &&& src_old.entry_at(page_addr(src_addr, p)) & MMU_VALID != 0
    &&& src_new.entry_at(page_addr(src_addr, p)) == 0
    &&& dest_old.entry_at(page_addr(dest_addr, p)) & MMU_VALID == 0
    &&& dest_new.entry_at(page_addr(dest_addr, p)) == spec_mapped_entry(
        spec_phys_of(src_old.entry_at(page_addr(src_addr, p))),
        crate::flags::spec_untranslate_flags(src_old.entry_at(page_addr(src_addr, p))),
        dest_pid.v != 1,
    )
}

/// How a failed multi-page move left the spaces: pages before `kp` were
/// fully moved, pages after `kp` are untouched, and the error is tied to
/// page `kp`.
pub open spec fn spec_move_failure(
    src_old: AddressSpace,
    src_new: AddressSpace,
    dest_old: AddressSpace,
    dest_new: AddressSpace,
    src_addr: usize,
    dest_addr: usize,
    kp: int,
    npages: int,
    dest_pid: Pid,
    e: Error,
) -> bool {
    &&& forall|p: int|
        0 <= p < kp ==> #[trigger] spec_page_moved(
            src_old,
            src_new,
            dest_old,
            dest_new,
            src_addr,
            dest_addr,
            p,
            dest_pid,
        )
    &&& forall|p: int|
        kp < p < npages ==> src_new.entry_at(#[trigger] page_addr(src_addr, p))
            == src_old.entry_at(page_addr(src_addr, p)) && dest_new.entry_at(
            page_addr(dest_addr, p),
        ) == dest_old.entry_at(page_addr(dest_addr, p))
    &&& (e == Error::BadAddress ==> !src_old.leaf_mapped(spec_vpn1(page_addr(src_addr, kp)) as int)
        || src_old.entry_at(page_addr(src_addr, kp)) & MMU_VALID == 0)
    &&& (e == Error::AlreadyMapped ==> dest_old.entry_at(page_addr(dest_addr, kp)) & MMU_VALID
        != 0)
}

/// Move the `npages` pages of a buffer, page by page, from `src_space` at
/// `src_addr` into `dest_space` at `dest_addr`, reattributing each frame to
/// `dest_pid`.  On failure a prefix of the pages may already have moved:
/// the discipline is strictly two-phase, nothing is rolled back.
#[verifier::loop_isolation(false)]
pub fn move_range(
    mm: &mut MemoryManager,
    src_space: &mut AddressSpace,
    src_addr: usize,
    dest_pid: Pid,
    dest_space: &mut AddressSpace,
    dest_addr: usize,
    npages: usize,
) -> (r: Result<(), Error>)
    requires
        old(src_space).wf(),
        old(dest_space).wf(),
        old(mm).wf(),
        src_addr % crate::PAGE_SIZE == 0,
        dest_addr % crate::PAGE_SIZE == 0,
        npages < 0x10_0000,
        src_addr + npages * crate::PAGE_SIZE < 0x1_0000_0000,
        dest_addr + npages * crate::PAGE_SIZE < 0x1_0000_0000,
    ensures
        final(src_space).wf(),
        final(dest_space).wf(),
        final(mm).wf(),
        final(mm)@.len() == old(mm)@.len(),
        final(src_space).spec_asid() == old(src_space).spec_asid(),
        final(dest_space).spec_asid() == old(dest_space).spec_asid(),
        match r {
            Ok(()) => forall|p: int|
                0 <= p < npages ==> #[trigger] spec_page_moved(
                    *old(src_space),
                    *final(src_space),
                    *old(dest_space),
                    *final(dest_space),
                    src_addr,
                    dest_addr,
                    p,
                    dest_pid,
                ),
            Err(e) => {
                &&& (e == Error::BadAddress || e == Error::AlreadyMapped || e
                    == Error::OutOfMemory)
                &&& (e == Error::OutOfMemory ==> forall|j: int|
                    0 <= j < final(mm)@.len() ==> final(mm)@[j] is Some)
                &&& exists|kp: int|
                    0 <= kp < npages && #[trigger] spec_move_failure(
                        *old(src_space),
                        *final(src_space),
                        *old(dest_space),
                        *final(dest_space),
                        src_addr,
                        dest_addr,
                        kp,
                        npages as int,
                        dest_pid,
                        e,
                    )
            },
        },
{
    let ghost src0 = *src_space;
    let ghost dest0 = *dest_space;
    let mut k: usize = 0;
    while k < npages
        invariant
            k <= npages,
            npages < 0x10_0000,
            src_addr % crate::PAGE_SIZE == 0,
            src_addr + npages * crate::PAGE_SIZE < 0x1_0000_0000,
            src0 == *old(src_space),
            dest0 == *old(dest_space),
            src_space.wf(),
            dest_space.wf(),
            mm.wf(),
            mm@.len() == old(mm)@.len(),
            src_space.spec_asid() == src0.spec_asid(),
            dest_space.spec_asid() == dest0.spec_asid(),
            forall|i: int|
                0 <= i < 1024 ==> #[trigger] src_space.leaf_mapped(i) == src0.leaf_mapped(i),
            forall|p: int|
                k <= p < npages ==> src_space.entry_at(#[trigger] page_addr(src_addr, p))
                    == src0.entry_at(page_addr(src_addr, p)),
            forall|p: int|
                k <= p < npages ==> dest_space.entry_at(#[trigger] page_addr(dest_addr, p))
                    == dest0.entry_at(page_addr(dest_addr, p)),
            forall|p: int|
                0 <= p < k ==> #[trigger] spec_page_moved(
                    src0,
                    *src_space,
                    dest0,
                    *dest_space,
                    src_addr,
                    dest_addr,
                    p,
                    dest_pid,
                ),
        decreases npages - k,
    {
        let sa = src_addr + k * crate::PAGE_SIZE;
        let da = dest_addr + k * crate::PAGE_SIZE;
        let ghost src_pre = *src_space;
        let ghost dest_pre = *dest_space;
        proof {
            assert(sa == page_addr(src_addr, k as int));
            assert(da == page_addr(dest_addr, k as int));
        }
        match move_page_inner(mm, src_space, sa, dest_pid, dest_space, da) {
            Ok(()) => {},
            Err(e) => {
                proof {
                    lemma_vpn_bounds(sa);
                    lemma_vpn_bounds(da);
                    assert((src_addr + k * crate::PAGE_SIZE) % 4096 == 0) by (nonlinear_arith)
                        requires
                            src_addr % 4096 == 0,
                            crate::PAGE_SIZE == 4096,
                    ;
                    lemma_page_aligned_word_aligned(sa);
                    assert forall|p: int|
                        0 <= p < k implies #[trigger] spec_page_moved(
                        src0,
                        *src_space,
                        dest0,
                        *dest_space,
                        src_addr,
                        dest_addr,
                        p,
                        dest_pid,
                    ) by {
                        assert(spec_page_moved(
                            src0,
                            src_pre,
                            dest0,
                            dest_pre,
                            src_addr,
                            dest_addr,
                            p,
                            dest_pid,
                        ));
                        lemma_distinct_page_slots(src_addr, p as usize, k);
                        lemma_distinct_page_slots(dest_addr, p as usize, k);
                        lemma_vpn_bounds(page_addr(src_addr, p));
                        lemma_vpn_bounds(page_addr(dest_addr, p));
                    }
                    assert forall|p: int|
                        k < p < npages implies src_space.entry_at(
                        #[trigger] page_addr(src_addr, p),
                    ) == src0.entry_at(page_addr(src_addr, p)) && dest_space.entry_at(
                        page_addr(dest_addr, p),
                    ) == dest0.entry_at(page_addr(dest_addr, p)) by {
                        assert(src_pre.entry_at(page_addr(src_addr, p)) == src0.entry_at(
                            page_addr(src_addr, p),
                        ));
                        assert(dest_pre.entry_at(page_addr(dest_addr, p)) == dest0.entry_at(
                            page_addr(dest_addr, p),
                        ));
                        lemma_distinct_page_slots(src_addr, k, p as usize);
                        lemma_distinct_page_slots(dest_addr, k, p as usize);
                        lemma_vpn_bounds(page_addr(src_addr, p));
                        lemma_vpn_bounds(page_addr(dest_addr, p));
                    }
                    assert(src_pre.entry_at(sa) == src0.entry_at(sa));
                    assert(dest_pre.entry_at(da) == dest0.entry_at(da));
                    assert(src_pre.leaf_mapped(spec_vpn1(sa) as int) == src0.leaf_mapped(
                        spec_vpn1(sa) as int,
                    ));
                    assert(spec_move_failure(
                        src0,
                        *src_space,
                        dest0,
                        *dest_space,
                        src_addr,
                        dest_addr,
                        k as int,
                        npages as int,
                        dest_pid,
                        e,
                    ));
                }
                return Err(e);
            },
        }
        proof {
            lemma_vpn_bounds(sa);
            lemma_vpn_bounds(da);
            assert forall|p: int|
                0 <= p < k + 1 implies #[trigger] spec_page_moved(
                src0,
                *src_space,
                dest0,
                *dest_space,
                src_addr,
                dest_addr,
                p,
                dest_pid,
            ) by {
                if p < k {
                    assert(spec_page_moved(
                        src0,
                        src_pre,
                        dest0,
                        dest_pre,
                        src_addr,
                        dest_addr,
                        p,
                        dest_pid,
                    ));
                    lemma_distinct_page_slots(src_addr, p as usize, k);
                    lemma_distinct_page_slots(dest_addr, p as usize, k);
                    lemma_vpn_bounds(page_addr(src_addr, p));
                    lemma_vpn_bounds(page_addr(dest_addr, p));
                } else {
                    assert(src_pre.entry_at(sa) == src0.entry_at(sa));
                    assert(dest_pre.entry_at(da) == dest0.entry_at(da));
                    assert(page_addr(src_addr, p) == sa);
                    assert(page_addr(dest_addr, p) == da);
                }
            }
            assert forall|p: int|
                k + 1 <= p < npages implies src_space.entry_at(
                #[trigger] page_addr(src_addr, p),
            ) == src0.entry_at(page_addr(src_addr, p)) by {
                assert(src_pre.entry_at(page_addr(src_addr, p)) == src0.entry_at(
                    page_addr(src_addr, p),
                ));
                lemma_distinct_page_slots(src_addr, k, p as usize);
                lemma_vpn_bounds(page_addr(src_addr, p));
            }
            assert forall|p: int|
                k + 1 <= p < npages implies dest_space.entry_at(
                #[trigger] page_addr(dest_addr, p),
            ) == dest0.entry_at(page_addr(dest_addr, p)) by {
                assert(dest_pre.entry_at(page_addr(dest_addr, p)) == dest0.entry_at(
                    page_addr(dest_addr, p),
                ));
                lemma_distinct_page_slots(dest_addr, k, p as usize);
                lemma_vpn_bounds(page_addr(dest_addr, p));
            }
        }
        k = k + 1;
    }
    Ok(())
}

/// How a failed multi-page return left the spaces: pages before `kp` were
/// fully returned, pages after `kp` are untouched, and the error is tied
/// to page `kp` of the borrower.
pub open spec fn spec_return_failure(
    src_old: AddressSpace,
    src_new: AddressSpace,
    dest_old: AddressSpace,
    dest_new: AddressSpace,
    src_addr: usize,
    dest_addr: usize,
    kp: int,
    npages: int,
    e: Error,
) -> bool {
    &&& forall|p: int|
        0 <= p < kp ==> #[trigger] spec_page_returned(
            src_new,
            dest_old,
            dest_new,
            src_addr,
            dest_addr,
            p,
        )
    &&& forall|p: int|
        kp < p < npages ==> src_new.entry_at(#[trigger] page_addr(src_addr, p))
            == src_old.entry_at(page_addr(src_addr, p)) && dest_new.entry_at(
            page_addr(dest_addr, p),
        ) == dest_old.entry_at(page_addr(dest_addr, p))
    &&& (e == Error::BadAddress ==> !src_old.leaf_mapped(
        spec_vpn1(page_addr(src_addr, kp)) as int,
    ))
    &&& (e == Error::ShareViolation ==> src_old.entry_at(page_addr(src_addr, kp)) & MMU_VALID == 0)
}

/// Return the `npages` pages of a borrowed buffer from `src_space` (the
/// borrower, which loses its mapping) to `dest_space` (the lender, whose
/// entries are restored).  On failure a prefix of the pages may already
/// have been returned: the discipline is strictly two-phase, nothing is
/// rolled back.
#[verifier::loop_isolation(false)]
pub fn return_range(
    src_space: &mut AddressSpace,
    src_addr: usize,
    dest_space: &mut AddressSpace,
    dest_addr: usize,
    npages: usize,
) -> (r: Result<(), Error>)
    requires
        old(src_space).wf(),
        old(dest_space).wf(),
        src_addr % crate::PAGE_SIZE == 0,
        dest_addr % crate::PAGE_SIZE == 0,
        npages < 0x10_0000,
        src_addr + npages * crate::PAGE_SIZE < 0x1_0000_0000,
        dest_addr + npages * crate::PAGE_SIZE < 0x1_0000_0000,
        forall|p: int|
            0 <= p < npages ==> old(dest_space).leaf_mapped(
                spec_vpn1(#[trigger] page_addr(dest_addr, p)) as int,
            ) && old(dest_space).entry_at(page_addr(dest_addr, p)) & MMU_S != 0,
    ensures
        final(src_space).wf(),
        final(dest_space).wf(),
        final(src_space).spec_asid() == old(src_space).spec_asid(),
        final(dest_space).spec_asid() == old(dest_space).spec_asid(),
        match r {
            Ok(()) => forall|p: int|
                0 <= p < npages ==> #[trigger] spec_page_returned(
                    *final(src_space),
                    *old(dest_space),
                    *final(dest_space),
                    src_addr,
                    dest_addr,
                    p,
                ),
            Err(e) => {
                &&& (e == Error::BadAddress || e == Error::ShareViolation)
                &&& exists|kp: int|
                    0 <= kp < npages && #[trigger] spec_return_failure(
                        *old(src_space),
                        *final(src_space),
                        *old(dest_space),
                        *final(dest_space),
                        src_addr,
                        dest_addr,
                        kp,
                        npages as int,
                        e,
                    )
            },
        },
{
    let ghost src0 = *src_space;
    let ghost dest0 = *dest_space;
    let mut k: usize = 0;
    while k < npages
        invariant
            k <= npages,
            npages < 0x10_0000,
            src_addr % crate::PAGE_SIZE == 0,
            dest_addr % crate::PAGE_SIZE == 0,
            src_addr + npages * crate::PAGE_SIZE < 0x1_0000_0000,
            dest_addr + npages * crate::PAGE_SIZE < 0x1_0000_0000,
            src0 == *old(src_space),
            dest0 == *old(dest_space),
            src_space.wf(),
            dest_space.wf(),
            src_space.spec_asid() == src0.spec_asid(),
            dest_space.spec_asid() == dest0.spec_asid(),
            forall|p: int|
                0 <= p < npages ==> dest0.leaf_mapped(
                    spec_vpn1(#[trigger] page_addr(dest_addr, p)) as int,
                ) && dest0.entry_at(page_addr(dest_addr, p)) & MMU_S != 0,
            forall|p: int|
                k <= p < npages ==> src_space.entry_at(#[trigger] page_addr(src_addr, p))
                    == src0.entry_at(page_addr(src_addr, p)) && src_space.leaf_mapped(
                    spec_vpn1(page_addr(src_addr, p)) as int,
                ) == src0.leaf_mapped(spec_vpn1(page_addr(src_addr, p)) as int),
            forall|p: int|
                k <= p < npages ==> dest_space.entry_at(#[trigger] page_addr(dest_addr, p))
                    == dest0.entry_at(page_addr(dest_addr, p)) && dest_space.leaf_mapped(
                    spec_vpn1(page_addr(dest_addr, p)) as int,
                ),
            forall|p: int|
                0 <= p < k ==> #[trigger] spec_page_returned(
                    *src_space,
                    dest0,
                    *dest_space,
                    src_addr,
                    dest_addr,
                    p,
                ),
        decreases npages - k,
    {
        let sa = src_addr + k * crate::PAGE_SIZE;
        let da = dest_addr + k * crate::PAGE_SIZE;
        let ghost src_pre = *src_space;
        let ghost dest_pre = *dest_space;
        proof {
            assert(sa == page_addr(src_addr, k as int));
            assert(da == page_addr(dest_addr, k as int));
            assert((dest_addr + k * crate::PAGE_SIZE) % 4096 == 0) by (nonlinear_arith)
                requires
                    dest_addr % 4096 == 0,
                    crate::PAGE_SIZE == 4096,
            ;
            lemma_page_aligned_word_aligned(da);
        }
        match return_page_inner(src_space, sa, dest_space, da) {
            Ok(_) => {},
            Err(e) => {
                proof {
                    lemma_vpn_bounds(sa);
                    lemma_vpn_bounds(da);
                    assert((src_addr + k * crate::PAGE_SIZE) % 4096 == 0) by (nonlinear_arith)
                        requires
                            src_addr % 4096 == 0,
                            crate::PAGE_SIZE == 4096,
                    ;
                    lemma_page_aligned_word_aligned(sa);
                    assert forall|p: int|
                        0 <= p < k implies #[trigger] spec_page_returned(
                        *src_space,
                        dest0,
                        *dest_space,
                        src_addr,
                        dest_addr,
                        p,
                    ) by {
                        assert(spec_page_returned(src_pre, dest0, dest_pre, src_addr, dest_addr, p));
                        lemma_distinct_page_slots(src_addr, p as usize, k);
                        lemma_distinct_page_slots(dest_addr, p as usize, k);
                        lemma_vpn_bounds(page_addr(src_addr, p));
                        lemma_vpn_bounds(page_addr(dest_addr, p));
                    }
                    assert forall|p: int|
                        k < p < npages implies src_space.entry_at(
                        #[trigger] page_addr(src_addr, p),
                    ) == src0.entry_at(page_addr(src_addr, p)) && dest_space.entry_at(
                        page_addr(dest_addr, p),
                    ) == dest0.entry_at(page_addr(dest_addr, p)) by {
                        assert(src_pre.entry_at(page_addr(src_addr, p)) == src0.entry_at(
                            page_addr(src_addr, p),
                        ));
                        assert(dest_pre.entry_at(page_addr(dest_addr, p)) == dest0.entry_at(
                            page_addr(dest_addr, p),
                        ));
                        lemma_distinct_page_slots(src_addr, k, p as usize);
                        lemma_distinct_page_slots(dest_addr, k, p as usize);
                        lemma_vpn_bounds(page_addr(src_addr, p));
                        lemma_vpn_bounds(page_addr(dest_addr, p));
                    }
                    assert(src_pre.entry_at(sa) == src0.entry_at(sa));
                    assert(src_pre.leaf_mapped(spec_vpn1(sa) as int) == src0.leaf_mapped(
                        spec_vpn1(sa) as int,
                    ));
                    assert(spec_return_failure(
                        src0,
                        *src_space,
                        dest0,
                        *dest_space,
                        src_addr,
                        dest_addr,
                        k as int,
                        npages as int,
                        e,
                    ));
                }
                return Err(e);
            },
        }
        proof {
            lemma_vpn_bounds(sa);
            lemma_vpn_bounds(da);
            assert forall|p: int|
                0 <= p < k + 1 implies #[trigger] spec_page_returned(
                *src_space,
                dest0,
                *dest_space,
                src_addr,
                dest_addr,
                p,
            ) by {
                if p < k {
                    assert(spec_page_returned(src_pre, dest0, dest_pre, src_addr, dest_addr, p));
                    lemma_distinct_page_slots(src_addr, p as usize, k);
                    lemma_distinct_page_slots(dest_addr, p as usize, k);
                    lemma_vpn_bounds(page_addr(src_addr, p));
                    lemma_vpn_bounds(page_addr(dest_addr, p));
                } else {
                    assert(dest_pre.entry_at(da) == dest0.entry_at(da));
                    assert(page_addr(src_addr, p) == sa);
                    assert(page_addr(dest_addr, p) == da);
                }
            }
            assert forall|p: int|
                k + 1 <= p < npages implies src_space.entry_at(
                #[trigger] page_addr(src_addr, p),
            ) == src0.entry_at(page_addr(src_addr, p)) && src_space.leaf_mapped(
                spec_vpn1(page_addr(src_addr, p)) as int,
            ) == src0.leaf_mapped(spec_vpn1(page_addr(src_addr, p)) as int) by {
                assert(src_pre.entry_at(page_addr(src_addr, p)) == src0.entry_at(
                    page_addr(src_addr, p),
                ));
                lemma_distinct_page_slots(src_addr, k, p as usize);
                lemma_vpn_bounds(page_addr(src_addr, p));
            }
            assert forall|p: int|
                k + 1 <= p < npages implies dest_space.entry_at(
                #[trigger] page_addr(dest_addr, p),
            ) == dest0.entry_at(page_addr(dest_addr, p)) && dest_space.leaf_mapped(
                spec_vpn1(page_addr(dest_addr, p)) as int,
            ) by {
                assert(dest_pre.entry_at(page_addr(dest_addr, p)) == dest0.entry_at(
                    page_addr(dest_addr, p),
                ));
                assert(dest_pre.leaf_mapped(spec_vpn1(page_addr(dest_addr, p)) as int));
                lemma_distinct_page_slots(src_addr, k, p as usize);
                lemma_distinct_page_slots(dest_addr, k, p as usize);
                lemma_vpn_bounds(page_addr(src_addr, p));
                lemma_vpn_bounds(page_addr(dest_addr, p));
            }
        }
        k = k + 1;
    }
    Ok(())
}

/// The software-flag invariant every entry the engine writes maintains:
/// P is meaningful only while the page is lent (P=1 implies S=1), and a
/// mutably-lent entry (valid bit clear, shared bit set) never carries P.
pub open spec fn entry_flags_invariant(e: u32) -> bool {
    &&& (e & MMU_P != 0 ==> e & MMU_S != 0)
    &&& (e & MMU_VALID == 0 && e & MMU_S != 0 ==> e & MMU_P == 0)
}

/// Immediately after `map_page_inner` succeeds, the installed entry is
/// valid and translates back to exactly the mapped (page-aligned) physical
/// address; `virt_to_phys` therefore returns it.  The entry starts with
/// neither software bit set, carries W exactly when the caller requested
/// it, and respects the flag invariant.
pub proof fn lemma_mapped_entry_translates(phys: usize, req: usize, user: bool)
    requires
        phys % 4096 == 0,
        phys <= 0xffff_ffff,
    ensures
        spec_mapped_entry(phys, req, user) & MMU_VALID != 0,
        spec_phys_of(spec_mapped_entry(phys, req, user)) == phys,
        spec_mapped_entry(phys, req, user) & MMU_S == 0,
        spec_mapped_entry(phys, req, user) & MMU_P == 0,
        (spec_mapped_entry(phys, req, user) & MMU_W != 0) == (req & crate::flags::MEM_W != 0),
        entry_flags_invariant(spec_mapped_entry(phys, req, user)),
{
    assert(phys % 4096 == 0 && phys <= 0xffff_ffff ==> spec_mapped_entry(phys, req, user) & 0x1u32
        != 0 && spec_phys_of(spec_mapped_entry(phys, req, user)) == phys && spec_mapped_entry(
        phys,
        req,
        user,
    ) & 0x100u32 == 0 && spec_mapped_entry(phys, req, user) & 0x200u32 == 0 && ((spec_mapped_entry(
        phys,
        req,
        user,
    ) & 0x4u32 != 0) == (req & 0x2usize != 0))) by (bit_vector);
}

/// An entry written by `reserve_address` for a previously-invalid slot is
/// not valid: mapping a reserved page cannot fail with `AlreadyMapped`.
pub proof fn lemma_reserved_entry_not_valid(flags: usize)
    ensures
        spec_translate_flags(flags) & MMU_VALID == 0,
        entry_flags_invariant(spec_translate_flags(flags)),
{
    assert(spec_translate_flags(flags) & 0x1u32 == 0 && spec_translate_flags(flags) & 0x100u32 == 0
        && spec_translate_flags(flags) & 0x200u32 == 0) by (bit_vector);
}

/// A mutable lend followed by a return restores the lender's entry exactly:
/// the W bit is preserved and S and P end clear (they were clear before the
/// lend).  While lent, the lender's entry is invalid and marked shared, so
/// the lender cannot touch the page and a second mutable lend is refused.
pub proof fn lemma_mutable_lend_return_round_trip(e: u32)
    requires
        e & MMU_VALID != 0,
        e & MMU_S == 0,
    ensures
        spec_lend_source_mutable(e) & MMU_VALID == 0,
        spec_lend_source_mutable(e) & MMU_S != 0,
        spec_returned_lender(spec_lend_source_mutable(e)) == e,
{
    assert(e & 0x1u32 != 0 && e & 0x100u32 == 0 ==> spec_lend_source_mutable(e) & 0x1u32 == 0
        && spec_lend_source_mutable(e) & 0x100u32 != 0 && spec_returned_lender(
        spec_lend_source_mutable(e),
    ) == e) by (bit_vector);
}

/// An immutable lend followed by a return restores the lender's entry
/// exactly — in particular the W bit comes back to its pre-lend value, via
/// the P bit that recorded it.  While lent, the entry stays valid but is
/// read-only and marked shared.
pub proof fn lemma_immutable_lend_return_round_trip(e: u32)
    requires
        e & MMU_VALID != 0,
        e & MMU_S == 0,
        e & MMU_P == 0,
    ensures
        spec_lend_source_immutable(e) & MMU_VALID != 0,
        spec_lend_source_immutable(e) & MMU_S != 0,
        spec_lend_source_immutable(e) & MMU_W == 0,
        spec_returned_lender(spec_lend_source_immutable(e)) == e,
{
    assert(e & 0x1u32 != 0 && e & 0x100u32 == 0 && e & 0x200u32 == 0 ==> spec_lend_source_immutable(
        e,
    ) & 0x1u32 != 0 && spec_lend_source_immutable(e) & 0x100u32 != 0 && spec_lend_source_immutable(
        e,
    ) & 0x4u32 == 0 && spec_returned_lender(spec_lend_source_immutable(e)) == e) by (bit_vector);
}

/// Both lend transforms mark the lender's entry shared, and a return always
/// clears the shared bit: together with `lend_page_inner` refusing a
/// mutable lend of an already-shared entry, and the borrower's mapping
/// being installed on lend and cleared on return, the S bit tracks exactly
/// the window during which one borrower holds the frame.
pub proof fn lemma_shared_bit_tracks_lend_window(e: u32, d: u32)
    ensures
        spec_lend_source_mutable(e) & MMU_S != 0,
        spec_lend_source_immutable(e) & MMU_S != 0,
        spec_returned_lender(d) & MMU_S == 0,
{
    assert(spec_lend_source_mutable(e) & 0x100u32 != 0 && spec_lend_source_immutable(e) & 0x100u32
        != 0 && spec_returned_lender(d) & 0x100u32 == 0) by (bit_vector);
}

/// The flag invariant (P only with S; no P on a mutably-lent entry) is
/// preserved by both lend transforms — a mutable lend needs the entry to be
/// unshared, an immutable lend to be valid.
pub proof fn lemma_flags_invariant_lend(e: u32, mutable: bool)
    requires
        entry_flags_invariant(e),
        mutable ==> e & MMU_S == 0,
        !mutable ==> e & MMU_VALID != 0,
    ensures
        entry_flags_invariant(
            if mutable {
                spec_lend_source_mutable(e)
            } else {
                spec_lend_source_immutable(e)
            },
        ),
{
    if mutable {
        assert(((e & 0x200u32 != 0 ==> e & 0x100u32 != 0) && e & 0x100u32 == 0)
            ==> entry_flags_invariant(spec_lend_source_mutable(e))) by (bit_vector);
    } else {
        assert(e & 0x1u32 != 0 ==> entry_flags_invariant(spec_lend_source_immutable(e)))
            by (bit_vector);
    }
}

/// The flag invariant is preserved when a lend is returned.
pub proof fn lemma_flags_invariant_returned(d: u32)
    requires
        entry_flags_invariant(d),
        d & MMU_S != 0,
    ensures
        entry_flags_invariant(spec_returned_lender(d)),
{
    assert(((d & 0x200u32 != 0 ==> d & 0x100u32 != 0) && (d & 0x1u32 == 0 && d & 0x100u32 != 0 ==> d
        & 0x200u32 == 0) && d & 0x100u32 != 0) ==> entry_flags_invariant(spec_returned_lender(d)))
        by (bit_vector);
}

/// The flag invariant is preserved when a page is handed to user mode, and
/// holds of a cleared entry.
pub proof fn lemma_flags_invariant_user_and_zero(e: u32)
    requires
        entry_flags_invariant(e),
    ensures
        entry_flags_invariant(e | MMU_USER),
        entry_flags_invariant(0u32),
{
    assert(((e & 0x200u32 != 0 ==> e & 0x100u32 != 0) && (e & 0x1u32 == 0 && e & 0x100u32 != 0 ==> e
        & 0x200u32 == 0)) ==> entry_flags_invariant(e | 0x10u32) && entry_flags_invariant(0u32))
        by (bit_vector);
}

/// Every entry of the space respects the software-flag invariant: P is set
/// only on lent entries, and a mutably-lent entry never carries P.
pub open spec fn space_flags_invariant(s: AddressSpace) -> bool {
    forall|i: int, j: int|
        0 <= i < 1024 && 0 <= j < 1024 ==> entry_flags_invariant(#[trigger] s.entry(i, j))
}

/// The space-wide flag invariant survives any single-entry edit whose new
/// entry respects it — which, by the entry-level lemmas, every edit the
/// engine makes does.  Every engine operation changes at most one entry per
/// space (a fresh leaf reads as zero entries), so applying this lemma step
/// by step carries the invariant through any sequence of operations.
pub proof fn lemma_space_flags_invariant_preserved(
    prior: AddressSpace,
    post: AddressSpace,
    v1: int,
    v0: int,
)
    requires
        space_flags_invariant(prior),
        forall|i: int, j: int|
            0 <= i < 1024 && 0 <= j < 1024 && !(i == v1 && j == v0) ==> post.entry(i, j)
                == prior.entry(i, j),
        0 <= v1 < 1024,
        0 <= v0 < 1024,
        entry_flags_invariant(post.entry(v1, v0)),
    ensures
        space_flags_invariant(post),
{
    assert forall|i: int, j: int|
        0 <= i < 1024 && 0 <= j < 1024 implies entry_flags_invariant(
        #[trigger] post.entry(i, j),
    ) by {
        if !(i == v1 && j == v0) {
            assert(entry_flags_invariant(prior.entry(i, j)));
        }
    }
}

/// A completed lend/return cycle leaves no stuck shared bit: the lender's
/// entry comes back exactly to its pre-lend value, S clear — so a further
/// lend of the same page, mutable included, is not refused as a sharing
/// violation.
pub proof fn lemma_no_stuck_shared_bit(e: u32, mutable: bool)
    requires
        e & MMU_VALID != 0,
        e & MMU_S == 0,
        e & MMU_P == 0,
    ensures
        spec_returned_lender(spec_lend_source(e, mutable)) == e,
        spec_returned_lender(spec_lend_source(e, mutable)) & MMU_S == 0,
{
    if mutable {
        lemma_mutable_lend_return_round_trip(e);
    } else {
        lemma_immutable_lend_return_round_trip(e);
    }
}

/// While a page is lent, the lender's entry is marked shared and exactly
/// the lend's destination maps the frame, at the window entry the lend
/// installed; a mutable lend of an already-shared entry is refused, so a
/// second borrower cannot appear.  (Repeated read-only lends are the one
/// exception: the engine, like the MMU discipline it models, permits
/// several read-only borrowers.)  `lemma_shared_bit_tracks_lend_window`
/// gives the other half: a return clears the shared bit, and the
/// borrower's entry is cleared outright.
pub proof fn lemma_shared_window_established(e_src: u32, mutable: bool, user: bool)
    requires
        e_src < ENTRY_BOUND,
        e_src & MMU_VALID != 0,
        mutable ==> e_src & MMU_S == 0,
    ensures
        spec_lend_source(e_src, mutable) & MMU_S != 0,
        spec_mapped_entry(spec_phys_of(e_src), spec_borrow_flags(mutable), user) & MMU_VALID != 0,
        spec_phys_of(spec_mapped_entry(spec_phys_of(e_src), spec_borrow_flags(mutable), user))
            == spec_phys_of(e_src),
{
    lemma_phys_of_bounds(e_src);
    lemma_mapped_entry_translates(spec_phys_of(e_src), spec_borrow_flags(mutable), user);
    lemma_shared_bit_tracks_lend_window(e_src, 0);
}

/// A fresh address space respects the flag invariant: every entry is zero.
pub proof fn lemma_space_flags_invariant_empty(s: AddressSpace)
    requires
        forall|i: int, j: int| 0 <= i < 1024 && 0 <= j < 1024 ==> s.entry(i, j) == 0,
    ensures
        space_flags_invariant(s),
{
    assert(0u32 & MMU_P == 0) by (bit_vector);
}

/// A mutably-borrowed page is one shared frame: the borrower's mapping
/// points at the lender's frame and is writable, and after the return the
/// lender's restored entry still points at that frame — so bytes the
/// borrower wrote there are visible to the lender afterwards.
pub proof fn lemma_mutable_borrow_shares_frame(e: u32, user: bool)
    requires
        e < ENTRY_BOUND,
        e & MMU_VALID != 0,
        e & MMU_S == 0,
    ensures
        spec_phys_of(spec_mapped_entry(spec_phys_of(e), spec_borrow_flags(true), user))
            == spec_phys_of(e),
        spec_mapped_entry(spec_phys_of(e), spec_borrow_flags(true), user) & MMU_W != 0,
        spec_phys_of(spec_returned_lender(spec_lend_source_mutable(e))) == spec_phys_of(e),
{
    lemma_phys_of_bounds(e);
    lemma_mapped_entry_translates(spec_phys_of(e), spec_borrow_flags(true), user);
    lemma_mutable_lend_return_round_trip(e);
    assert((1usize | 2usize) & 2usize != 0) by (bit_vector);
}

/// An immutably-borrowed page cannot be written through the borrow: the
/// borrower's mapping lacks W (a store faults in the receiver), and the
/// lender's entry keeps pointing at the same frame, untouched but for the
/// W, S and P bits.
pub proof fn lemma_immutable_borrow_is_read_only(e: u32, user: bool)
    requires
        e < ENTRY_BOUND,
    ensures
        spec_mapped_entry(spec_phys_of(e), spec_borrow_flags(false), user) & MMU_W == 0,
        spec_phys_of(spec_lend_source_immutable(e)) == spec_phys_of(e),
{
    lemma_phys_of_bounds(e);
    lemma_mapped_entry_translates(spec_phys_of(e), spec_borrow_flags(false), user);
    assert(1usize & 2usize == 0) by (bit_vector);
    assert(spec_phys_of(spec_lend_source_immutable(e)) == spec_phys_of(e)) by (bit_vector);
}

/// Whether `virt` is free: true exactly when it does not translate.
pub fn address_available(space: &AddressSpace, virt: usize) -> (r: bool)
    requires
        space.wf(),
    ensures
        r == !space.translates(virt),
{
    match virt_to_phys(space, virt) {
        Ok(_) => false,
        Err(_) => true,
    }
}

} // verus!


