use kernel_core::flags::{translate_flags, untranslate_flags, MEM_R, MEM_W, MEM_X, MMU_P, MMU_S, MMU_USER, MMU_VALID, MMU_W};
use kernel_core::manager::{MemoryManager, Pid};
use kernel_core::mem::{
    address_available, hand_page_to_user, lend_page_inner, map_page_inner, pagetable_entry,
    return_page_inner, unmap_page_inner, virt_to_phys, AddressSpace, MemoryMapping, Mmu,
};
use kernel_core::ram::Ram;
use kernel_core::Error;
use kernel_core::DEFAULT_BASE;
use kernel_core::DEFAULT_HEAP_BASE;
use kernel_core::PAGE_SIZE;

fn pid(v: u8) -> Pid {
    Pid::new(v).unwrap()
}

fn space(mm: &mut MemoryManager, v: u8) -> AddressSpace {
    AddressSpace::new(mm, pid(v)).unwrap()
}

#[test]
fn flag_translation_round_trip() {
    assert_eq!(translate_flags(MEM_R), 0x2);
    assert_eq!(translate_flags(MEM_R | MEM_W), 0x6);
    assert_eq!(translate_flags(MEM_R | MEM_W | MEM_X), 0xe);
    assert_eq!(untranslate_flags(translate_flags(MEM_R | MEM_X)), MEM_R | MEM_X);
    // V, A, D, U, S, P are stripped on the way back.
    assert_eq!(untranslate_flags(0x3ff), MEM_R | MEM_W | MEM_X);
}

#[test]
fn map_then_translate_returns_phys() {
    let mut mm = MemoryManager::new(64);
    let mut sp = space(&mut mm, 1);
    let phys = mm.alloc_page(pid(1)).unwrap();
    let virt = DEFAULT_HEAP_BASE;
    map_page_inner(&mut mm, &mut sp, pid(1), phys, virt, MEM_R | MEM_W, true).unwrap();
    assert_eq!(virt_to_phys(&sp, virt).unwrap(), phys);
    let entry = pagetable_entry(&sp, virt).unwrap();
    assert_ne!(entry & MMU_VALID, 0);
    assert_ne!(entry & MMU_USER, 0);
    assert!(!address_available(&sp, virt));
    assert!(address_available(&sp, virt + PAGE_SIZE));
}

#[test]
fn double_map_is_an_error_not_a_panic() {
    let mut mm = MemoryManager::new(64);
    let mut sp = space(&mut mm, 1);
    let phys = mm.alloc_page(pid(1)).unwrap();
    let virt = 0x2000_0000usize;
    map_page_inner(&mut mm, &mut sp, pid(1), phys, virt, MEM_R, true).unwrap();
    let again = map_page_inner(&mut mm, &mut sp, pid(1), phys, virt, MEM_R, true);
    assert_eq!(again, Err(Error::AlreadyMapped));
}

#[test]
fn reserve_then_map_every_page() {
    let mut mm = MemoryManager::new(64);
    let mut sp = space(&mut mm, 1);
    let base = DEFAULT_BASE;
    // Reserve a 4-page range, then map each page: no AlreadyMapped.
    for i in 0..4usize {
        sp.reserve_address(&mut mm, pid(1), base + i * PAGE_SIZE, MEM_R | MEM_W).unwrap();
    }
    for i in 0..4usize {
        let phys = mm.alloc_page(pid(1)).unwrap();
        map_page_inner(&mut mm, &mut sp, pid(1), phys, base + i * PAGE_SIZE, MEM_R | MEM_W, true)
            .unwrap();
    }
    // A second map of any page yields AlreadyMapped, not a panic.
    let phys = mm.alloc_page(pid(1)).unwrap();
    let again = map_page_inner(&mut mm, &mut sp, pid(1), phys, base + PAGE_SIZE, MEM_R, true);
    assert_eq!(again, Err(Error::AlreadyMapped));
}

#[test]
fn reserve_is_idempotent_on_valid_entries() {
    let mut mm = MemoryManager::new(64);
    let mut sp = space(&mut mm, 1);
    let virt = 0x2000_0000usize;
    let phys = mm.alloc_page(pid(1)).unwrap();
    map_page_inner(&mut mm, &mut sp, pid(1), phys, virt, MEM_R | MEM_W, true).unwrap();
    let before = pagetable_entry(&sp, virt).unwrap();
    sp.reserve_address(&mut mm, pid(1), virt, MEM_R).unwrap();
    assert_eq!(pagetable_entry(&sp, virt).unwrap(), before);
}

#[test]
fn unmap_returns_phys_and_clears() {
    let mut mm = MemoryManager::new(64);
    let mut sp = space(&mut mm, 1);
    let phys = mm.alloc_page(pid(1)).unwrap();
    let virt = 0x2000_0000usize;
    map_page_inner(&mut mm, &mut sp, pid(1), phys, virt, MEM_R, false).unwrap();
    assert_eq!(unmap_page_inner(&mut sp, virt).unwrap(), phys);
    assert_eq!(virt_to_phys(&sp, virt), Err(Error::BadAddress));
    assert_eq!(unmap_page_inner(&mut sp, virt), Err(Error::BadAddress));
}

#[test]
fn lookup_requires_word_alignment() {
    let mut mm = MemoryManager::new(64);
    let sp = space(&mut mm, 1);
    assert_eq!(pagetable_entry(&sp, 0x2000_0001), Err(Error::BadAlignment));
    assert_eq!(pagetable_entry(&sp, 0x2000_0000), Err(Error::BadAddress));
}

#[test]
fn hand_page_to_user_sets_user_bit() {
    let mut mm = MemoryManager::new(64);
    let mut sp = space(&mut mm, 1);
    let phys = mm.alloc_page(pid(1)).unwrap();
    let virt = 0x2000_0000usize;
    map_page_inner(&mut mm, &mut sp, pid(1), phys, virt, MEM_R | MEM_W, false).unwrap();
    assert_eq!(pagetable_entry(&sp, virt).unwrap() & MMU_USER, 0);
    hand_page_to_user(&mut sp, virt).unwrap();
    assert_ne!(pagetable_entry(&sp, virt).unwrap() & MMU_USER, 0);
    assert_eq!(hand_page_to_user(&mut sp, virt + PAGE_SIZE), Err(Error::BadAddress));
}

#[test]
fn mutable_lend_and_return_restore_source_exactly() {
    let mut mm = MemoryManager::new(64);
    let mut src = space(&mut mm, 2);
    let mut dst = space(&mut mm, 3);
    let phys = mm.alloc_page(pid(2)).unwrap();
    let va = 0x2000_0000usize;
    let db = 0x4000_0000usize;
    map_page_inner(&mut mm, &mut src, pid(2), phys, va, MEM_R | MEM_W, true).unwrap();
    let before = pagetable_entry(&src, va).unwrap();

    let lent = lend_page_inner(&mut mm, &mut src, va, pid(3), &mut dst, db, true).unwrap();
    assert_eq!(lent, phys);
    // While lent: source invalid and marked shared; borrower maps the frame.
    let during = pagetable_entry(&src, va).unwrap();
    assert_eq!(during & MMU_VALID, 0);
    assert_ne!(during & MMU_S, 0);
    assert_eq!(virt_to_phys(&dst, db).unwrap(), phys);
    assert_ne!(pagetable_entry(&dst, db).unwrap() & MMU_W, 0);

    // A second mutable lend of the same page is a sharing violation.
    let again = lend_page_inner(&mut mm, &mut src, va, pid(3), &mut dst, db + PAGE_SIZE, true);
    assert_eq!(again, Err(Error::ShareViolation));

    let returned = return_page_inner(&mut dst, db, &mut src, va).unwrap();
    assert_eq!(returned, phys);
    // Source restored exactly: W preserved, S and P clear; borrower unmapped.
    let after = pagetable_entry(&src, va).unwrap();
    assert_eq!(after, before);
    assert_eq!(after & (MMU_S | MMU_P), 0);
    assert!(address_available(&dst, db));

    // No stuck S bit: the same page can be lent again.
    lend_page_inner(&mut mm, &mut src, va, pid(3), &mut dst, db + PAGE_SIZE, true).unwrap();
}

#[test]
fn immutable_lend_restores_w_bit() {
    let mut mm = MemoryManager::new(64);
    let mut src = space(&mut mm, 2);
    let mut dst = space(&mut mm, 3);
    let phys = mm.alloc_page(pid(2)).unwrap();
    let va = 0x2000_0000usize;
    let db = 0x4000_0000usize;
    map_page_inner(&mut mm, &mut src, pid(2), phys, va, MEM_R | MEM_W, true).unwrap();
    let before = pagetable_entry(&src, va).unwrap();
    assert_ne!(before & MMU_W, 0);

    lend_page_inner(&mut mm, &mut src, va, pid(3), &mut dst, db, false).unwrap();
    // While lent: source read-only, P records the old W, S set, still valid.
    let during = pagetable_entry(&src, va).unwrap();
    assert_eq!(during & MMU_W, 0);
    assert_ne!(during & MMU_P, 0);
    assert_ne!(during & MMU_S, 0);
    assert_ne!(during & MMU_VALID, 0);
    // The borrower's mapping is read-only.
    assert_eq!(pagetable_entry(&dst, db).unwrap() & MMU_W, 0);

    return_page_inner(&mut dst, db, &mut src, va).unwrap();
    let after = pagetable_entry(&src, va).unwrap();
    assert_eq!(after, before);
}

#[test]
fn immutable_lend_of_read_only_page_stays_read_only() {
    let mut mm = MemoryManager::new(64);
    let mut src = space(&mut mm, 2);
    let mut dst = space(&mut mm, 3);
    let phys = mm.alloc_page(pid(2)).unwrap();
    let va = 0x2000_0000usize;
    map_page_inner(&mut mm, &mut src, pid(2), phys, va, MEM_R, true).unwrap();
    lend_page_inner(&mut mm, &mut src, va, pid(3), &mut dst, 0x4000_0000, false).unwrap();
    // P was not set: the page was never writable.
    assert_eq!(pagetable_entry(&src, va).unwrap() & MMU_P, 0);
    return_page_inner(&mut dst, 0x4000_0000, &mut src, va).unwrap();
    // The W bit did not appear out of nowhere on return.
    assert_eq!(pagetable_entry(&src, va).unwrap() & MMU_W, 0);
}

#[test]
fn mutable_borrow_bytes_visible_after_return() {
    let mut mm = MemoryManager::new(64);
    let mut ram = Ram::new(64 * PAGE_SIZE);
    let mut src = space(&mut mm, 2);
    let mut dst = space(&mut mm, 3);
    let phys = mm.alloc_page(pid(2)).unwrap();
    let va = 0x2000_0000usize;
    let db = 0x4000_0000usize;
    map_page_inner(&mut mm, &mut src, pid(2), phys, va, MEM_R | MEM_W, true).unwrap();
    ram.write_byte(&src, va + 5, 7).unwrap();

    lend_page_inner(&mut mm, &mut src, va, pid(3), &mut dst, db, true).unwrap();
    // The receiver sees the sender's bytes and may mutate them.
    assert_eq!(ram.read_byte(&dst, db + 5).unwrap(), 7);
    ram.write_byte(&dst, db + 5, 42).unwrap();
    return_page_inner(&mut dst, db, &mut src, va).unwrap();
    // The mutation is visible in the sender afterwards.
    assert_eq!(ram.read_byte(&src, va + 5).unwrap(), 42);
}

#[test]
fn immutable_borrow_write_faults_in_receiver() {
    let mut mm = MemoryManager::new(64);
    let mut ram = Ram::new(64 * PAGE_SIZE);
    let mut src = space(&mut mm, 2);
    let mut dst = space(&mut mm, 3);
    let phys = mm.alloc_page(pid(2)).unwrap();
    let va = 0x2000_0000usize;
    let db = 0x4000_0000usize;
    map_page_inner(&mut mm, &mut src, pid(2), phys, va, MEM_R | MEM_W, true).unwrap();
    ram.write_byte(&src, va, 9).unwrap();

    lend_page_inner(&mut mm, &mut src, va, pid(3), &mut dst, db, false).unwrap();
    // A write through the read-only borrow faults in the receiver...
    assert_eq!(ram.write_byte(&dst, db, 1), Err(Error::BadAddress));
    // ...and the source bytes are unaffected.
    assert_eq!(ram.read_byte(&dst, db).unwrap(), 9);
    return_page_inner(&mut dst, db, &mut src, va).unwrap();
    assert_eq!(ram.read_byte(&src, va).unwrap(), 9);
}

#[test]
fn mapping_handle_round_trip() {
    let mut mm = MemoryManager::new(64);
    let sp = space(&mut mm, 5);
    let mapping = sp.mapping();
    let mut mmu = Mmu { satp: 0 };
    mapping.activate(&mut mmu).unwrap();
    let current = MemoryMapping::current(&mmu);
    assert_eq!(current, mapping);
    assert_eq!(current.get_pid().get(), 5);
    let mut other = current;
    other.from_raw(0x8000_0000 | (7usize << 22));
    assert_eq!(other.get_pid().get(), 7);
}

#[test]
fn allocator_scans_reuses_and_releases() {
    let mut mm = MemoryManager::new(4);
    let a = mm.alloc_page(pid(1)).unwrap();
    let b = mm.alloc_page(pid(2)).unwrap();
    assert_eq!(a, 0);
    assert_eq!(b, PAGE_SIZE);
    assert_eq!(mm.owner_of(a).unwrap().get(), 1);
    mm.release_page(a).unwrap();
    // The lowest free frame is reused.
    assert_eq!(mm.alloc_page(pid(3)).unwrap(), a);
    mm.alloc_page(pid(1)).unwrap();
    mm.alloc_page(pid(1)).unwrap();
    assert_eq!(mm.alloc_page(pid(1)), Err(Error::OutOfMemory));
    mm.release_all(pid(1));
    assert!(mm.alloc_page(pid(2)).is_ok());
    assert_eq!(mm.release_page(3), Err(Error::BadAddress));
    assert_eq!(mm.release_page(99 * PAGE_SIZE), Err(Error::BadAddress));
}
