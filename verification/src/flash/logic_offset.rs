//! FES "logical sector compensation" for SD/eMMC.
//!
//! When flash access is on, FES `Flash`-tagged transfers address a logical
//! sector space whose origin is offset from the physical media by a fixed
//! reserve:
//!
//! ```text
//! physical_sector = fes_logical_sector + LOGIC_OFFSET   (mod 2^32)
//! ```
//!
//! The device increments transfer addresses as `u32`, so a whole-disk image
//! written from logical sector `0 - LOGIC_OFFSET` wraps through 0 and places
//! every image sector `N` at physical sector `N`.

use vstd::prelude::*;

verus! {

/// Physical sectors reserved before FES logical sector 0 on SD/eMMC.
pub const DEFAULT_LOGIC_OFFSET: u32 = 40960;

/// The size of the FES sector address space.
pub open spec fn sector_space() -> int {
    0x1_0000_0000
}

/// `physical - logic_offset`, taken modulo 2^32.
pub open spec fn spec_fes_logical_sector(physical: u32, logic_offset: u32) -> u32 {
    ((physical - logic_offset) % sector_space()) as u32
}

/// Translate a physical sector to the FES logical sector to address it with.
///
/// `physical` is where the data must land on the media; `logic_offset` is the
/// device reserve (`DEFAULT_LOGIC_OFFSET` for SD/eMMC, 0 for NAND). The
/// subtraction wraps at 2^32.
pub fn fes_logical_sector(physical: u32, logic_offset: u32) -> (logical: u32)
    ensures
        logical == spec_fes_logical_sector(physical, logic_offset),
        (logical + logic_offset) % sector_space() == physical,
{
    physical.wrapping_sub(logic_offset)
}

/// Translating a physical sector and adding the reserve back (modulo 2^32)
/// gives the physical sector again.
pub proof fn lemma_logical_sector_round_trip(physical: u32, logic_offset: u32)
    ensures
        (spec_fes_logical_sector(physical, logic_offset) + logic_offset) % sector_space()
            == physical,
{
}

/// With no reserve, logical and physical sectors coincide.
pub proof fn lemma_zero_offset_is_identity(physical: u32)
    ensures
        spec_fes_logical_sector(physical, 0) == physical,
{
}

/// Two distinct physical sectors never share a logical sector.
pub proof fn lemma_logical_sector_injective(p1: u32, p2: u32, logic_offset: u32)
    requires
        spec_fes_logical_sector(p1, logic_offset) == spec_fes_logical_sector(p2, logic_offset),
    ensures
        p1 == p2,
{
}

/// A whole-disk image written from the logical sector of physical 0: its
/// sector `n`, addressed at `start + n` (modulo 2^32), lands at physical
/// sector `n`.
pub proof fn lemma_image_sector_lands_at_physical(logic_offset: u32, n: u32)
    ensures
        ((spec_fes_logical_sector(0, logic_offset) + n) % sector_space() + logic_offset)
            % sector_space() == n,
{
}

} // verus!
