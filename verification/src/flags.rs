//! Page-table entry flags and the translation between the flags a caller
//! requests and the flags the MMU stores.
//!
//! An entry is a 32-bit word.  The low ten bits follow the MMU:
//! {V, R, W, X, U, G, A, D}, plus two software-managed bits: S ("shared":
//! the frame is currently lent to another address space) and P ("previously
//! writable": remembers the pre-lend W bit across an immutable lend).

use vstd::prelude::*;

verus! {

/// MMU entry bit: entry is valid.
pub const MMU_VALID: u32 = 0x001;

/// MMU entry bit: readable.
pub const MMU_R: u32 = 0x002;

/// MMU entry bit: writable.
pub const MMU_W: u32 = 0x004;

/// MMU entry bit: executable.
pub const MMU_X: u32 = 0x008;

/// MMU entry bit: accessible from user mode.
pub const MMU_USER: u32 = 0x010;

/// MMU entry bit: global mapping.
pub const MMU_GLOBAL: u32 = 0x020;

/// MMU entry bit: accessed.
pub const MMU_A: u32 = 0x040;

/// MMU entry bit: dirty.
pub const MMU_D: u32 = 0x080;

/// Software bit: the frame is currently lent to another address space.
pub const MMU_S: u32 = 0x100;

/// Software bit: the entry was writable before an immutable lend.
pub const MMU_P: u32 = 0x200;

/// Requested-flags bit: readable.
pub const MEM_R: usize = 0x1;

/// Requested-flags bit: writable.
pub const MEM_W: usize = 0x2;

/// Requested-flags bit: executable.
pub const MEM_X: usize = 0x4;

/// What `translate_flags` returns: R, W and X carried over, nothing else.
pub open spec fn spec_translate_flags(req: usize) -> u32 {
    (if req & MEM_R != 0 {
        MMU_R
    } else {
        0u32
    }) | (if req & MEM_W != 0 {
        MMU_W
    } else {
        0u32
    }) | (if req & MEM_X != 0 {
        MMU_X
    } else {
        0u32
    })
}

/// What `untranslate_flags` returns: R, W and X read back, everything else
/// (V, U, G, A, D, S, P) stripped.
pub open spec fn spec_untranslate_flags(entry: u32) -> usize {
    (if entry & MMU_R != 0 {
        MEM_R
    } else {
        0usize
    }) | (if entry & MMU_W != 0 {
        MEM_W
    } else {
        0usize
    }) | (if entry & MMU_X != 0 {
        MEM_X
    } else {
        0usize
    })
}

/// Translate requested flags into MMU entry bits: R maps to R, W to W, X to
/// X.  V, A, D and U are asserted by `map_page_inner` itself, never here.
pub fn translate_flags(req_flags: usize) -> (r: u32)
    ensures
        r == spec_translate_flags(req_flags),
{
    let r: u32 = if req_flags & MEM_R != 0 {
        MMU_R
    } else {
        0
    };
    let w: u32 = if req_flags & MEM_W != 0 {
        MMU_W
    } else {
        0
    };
    let x: u32 = if req_flags & MEM_X != 0 {
        MMU_X
    } else {
        0
    };
    r | w | x
}

/// Read requested flags back out of an MMU entry, stripping V, U, G, A, D,
/// S and P.
pub fn untranslate_flags(entry: u32) -> (r: usize)
    ensures
        r == spec_untranslate_flags(entry),
{
    let r: usize = if entry & MMU_R != 0 {
        MEM_R
    } else {
        0
    };
    let w: usize = if entry & MMU_W != 0 {
        MEM_W
    } else {
        0
    };
    let x: usize = if entry & MMU_X != 0 {
        MEM_X
    } else {
        0
    };
    r | w | x
}

/// Translating requested flags and reading them back is the identity on the
/// R, W and X bits.
pub proof fn lemma_flag_translation_round_trip(req: usize)
    ensures
        spec_untranslate_flags(spec_translate_flags(req)) == (req & (MEM_R | MEM_W | MEM_X)),
{
    assert(spec_untranslate_flags(spec_translate_flags(req)) == (req & (MEM_R | MEM_W | MEM_X)))
        by (bit_vector);
}

} // verus!
