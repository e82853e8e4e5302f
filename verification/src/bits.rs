//! Words of flags, worked out.

use vstd::prelude::*;

verus! {

/// What combinations of the flags and modes of the host and of the guest come to.
pub(crate) proof fn lemma_words()
    ensures
        2u32 | 4 == 6,
        0x10u32 | 0x20 == 0x30,
        0x20_0000u32 | 0x100_0000 == 0x120_0000,
        0x120_0000u32 & 0x200 == 0,
        0x120_0000u32 & 0x400 == 0,
        0x8000u32 | 0x20_0000 | 0x4 | 0x100_0000 == 0x120_8004,
        0x120_8004u32 & 0x200 == 0,
        0x120_8004u32 & 0x400 == 0,
        0x100u32 | 0x100_0000 == 0x100_0100,
        0x100_0100u32 & 0x200 == 0,
        0x100u32 | 0x100_0000 | 0x4 == 0x100_0104,
        0x200u32 | 0x100_0000 | 0x100 == 0x100_0300,
        (0x200u32 | 0x800 | 0x100_0000 | 0x100) & 0x800 != 0,
        (2u32 | 0x100_0000) & !0x100u32 & !0x20u32 == 0x100_0002,
        (0u32 | 0x100_0000) & !0x100u32 & !0x20u32 == 0x100_0000,
        2u32 & 3 == 2,
        0u32 & 3 == 0,
        2u32 & 8 == 0,
        0u32 & 8 == 0,
        1u32 | 2 == 3,
        0u32 | 1 | 2 == 3,
        0o120000u32 | 0o777 == 0o120777,
        0o020000u32 | 0o600 == 0o020600,
        0o170000u32 | 0o7777 == 0o177777,
        0xff00_0000u32 | 1 == 0xff00_0001,
        0u32 | 2 == 2,
        0u32 | 4 == 4,
        0u32 | 0 == 0,
        0u32 | 1 == 1,
        2u32 | 0 == 2,
        4u32 | 0 == 4,
        6u32 | 0 == 6,
        2u32 | 1 == 3,
        4u32 | 1 == 5,
        6u32 | 1 == 7,
{
    assert(2u32 | 4 == 6 && 0x10u32 | 0x20 == 0x30 && 0x20_0000u32 | 0x100_0000 == 0x120_0000
        && 0x120_0000u32 & 0x200 == 0 && 0x120_0000u32 & 0x400 == 0 && 0x8000u32 | 0x20_0000 | 0x4
        | 0x100_0000 == 0x120_8004 && 0x120_8004u32 & 0x200 == 0 && 0x120_8004u32 & 0x400 == 0
        && 0x100u32 | 0x100_0000 == 0x100_0100 && 0x100_0100u32 & 0x200 == 0 && 0x100u32
        | 0x100_0000 | 0x4 == 0x100_0104 && 0x200u32 | 0x100_0000 | 0x100 == 0x100_0300 && (0x200u32
        | 0x800 | 0x100_0000 | 0x100) & 0x800 != 0 && (2u32 | 0x100_0000) & !0x100u32 & !0x20u32
        == 0x100_0002 && (0u32 | 0x100_0000) & !0x100u32 & !0x20u32 == 0x100_0000 && 2u32 & 3 == 2
        && 0u32 & 3 == 0 && 2u32 & 8 == 0 && 0u32 & 8 == 0 && 1u32 | 2 == 3 && 0u32 | 1 | 2 == 3
        && 0o120000u32 | 0o777 == 0o120777 && 0o020000u32 | 0o600 == 0o020600 && 0o170000u32
        | 0o7777 == 0o177777 && 0xff00_0000u32 | 1 == 0xff00_0001 && 0u32 | 2 == 2 && 0u32 | 4 == 4
        && 0u32 | 0 == 0 && 0u32 | 1 == 1 && 2u32 | 0 == 2 && 4u32 | 0 == 4 && 6u32 | 0 == 6 && 2u32
        | 1 == 3 && 4u32 | 1 == 5 && 6u32 | 1 == 7) by (bit_vector);
}

} // verus!
