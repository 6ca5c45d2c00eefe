//! Where the primary GPT (header + entries) is read from in FES mode.

use crate::config::gpt_parser::Gpt;
use crate::flash::logic_offset::{fes_logical_sector, spec_fes_logical_sector};
use vstd::prelude::*;

verus! {

/// Physical LBA of the GPT header.
pub const GPT_HEADER_LBA: u32 = 1;
/// Bytes per sector.
pub const SECTOR_SIZE: u64 = 512;

/// A read of `count` sectors starting at FES sector `sector`.
#[derive(Debug, Clone, Copy, PartialEq, Eq)]
pub struct SectorRead {
    pub sector: u32,
    pub count: u64,
}

/// The GPT header: one sector at physical LBA 1, compensated by the reserve.
pub fn gpt_header_read(logic_offset: u32) -> (r: SectorRead)
    ensures
        r.sector == spec_fes_logical_sector(GPT_HEADER_LBA, logic_offset),
        r.count == 1,
{
    SectorRead { sector: fes_logical_sector(GPT_HEADER_LBA, logic_offset), count: 1 }
}

/// The entry array: `num_entries * entry_size` bytes rounded up to whole
/// sectors, at the entries LBA (taken as `u32`), compensated by the reserve.
pub fn gpt_entries_read(gpt: &Gpt, logic_offset: u32) -> (r: SectorRead)
    ensures
        r.sector == spec_fes_logical_sector(gpt.partition_entries_lba as u32, logic_offset),
        r.count == (gpt.num_entries * gpt.entry_size + SECTOR_SIZE - 1) / SECTOR_SIZE as int,
{
    assert((gpt.num_entries as u64) * (gpt.entry_size as u64) <= 0xFFFF_FFFE_0000_0001)
        by (nonlinear_arith)
        requires
            gpt.num_entries <= u32::MAX,
            gpt.entry_size <= u32::MAX,
    ;
    let bytes: u64 = (gpt.num_entries as u64) * (gpt.entry_size as u64);
    let count = (bytes + SECTOR_SIZE - 1) / SECTOR_SIZE;
    SectorRead {
        sector: fes_logical_sector(gpt.partition_entries_lba as u32, logic_offset),
        count,
    }
}

} // verus!
