pub mod gpt_reader;

// flash-part: flash one partition image into the device's existing GPT layout.

use crate::config::gpt_parser::{has_named, is_first_named, spec_sector_count, Gpt, SECTOR_SIZE};
use crate::error::FlashError;
use crate::firmware::sparse::{is_sparse_image, spec_is_sparse_image};
use crate::flash::logic_offset::{fes_logical_sector, spec_fes_logical_sector};
use crate::flash::raw_image::{post_action_mode, spec_post_action_mode, ToolMode};
use vstd::prelude::*;

verus! {

pub struct PartitionFlashOptions {
    pub bus: Option<u8>,
    pub port: Option<u8>,
    pub verify: bool,
    /// Post-flash action: "none" (default), "reboot", "poweroff", or "shutdown".
    pub post_action: String,
    /// Optional LiveSuit/IMAGEWTY firmware to bootstrap FEL->FES from.
    pub bootstrap: Option<String>,
    /// FES logical-sector compensation (40960 for SD/eMMC, 0 for NAND).
    pub logic_offset: u32,
}

/// Where and how a partition image is written.
#[derive(Debug, Clone, Copy, PartialEq, Eq)]
pub struct PartitionWritePlan {
    /// Index of the target partition in the GPT.
    pub index: usize,
    /// FES sector at which the image starts.
    pub start_sector: u32,
    /// The image is an Android sparse image.
    pub sparse: bool,
}

/// Capacity in bytes of a partition, as a mathematical integer.
pub open spec fn partition_capacity(first_lba: u64, last_lba: u64) -> int {
    spec_sector_count(first_lba, last_lba) * SECTOR_SIZE
}

/// Find the named partition, check the image fits, and place it at the
/// partition's first LBA, compensated by the FES reserve.
pub fn plan_partition_write(gpt: &Gpt, name: &str, img: &[u8], logic_offset: u32) -> (r: Result<
    PartitionWritePlan,
    FlashError,
>)
    ensures
        !has_named(gpt.partitions@, name@) ==> (r matches Err(FlashError::PartitionNotFound(n))
            && n@ == name@),
        has_named(gpt.partitions@, name@) ==> exists|i: int|
            #![trigger gpt.partitions@[i]]
            is_first_named(gpt.partitions@, name@, i) && {
                let p = gpt.partitions@[i];
                let cap = partition_capacity(p.first_lba, p.last_lba);
                if img@.len() > cap {
                    r == Err::<PartitionWritePlan, FlashError>(
                        FlashError::RawImageTooLarge { image: img@.len() as u64, capacity: cap as u64 },
                    )
                } else {
                    r == Ok::<PartitionWritePlan, FlashError>(
                        PartitionWritePlan {
                            index: i as usize,
                            start_sector: spec_fes_logical_sector(p.first_lba as u32, logic_offset),
                            sparse: spec_is_sparse_image(img@),
                        },
                    )
                }
            },
{
    let i = match gpt.find_index(name) {
        Some(i) => i,
        None => {
            return Err(FlashError::PartitionNotFound(name.to_owned()));
        },
    };
    let p = &gpt.partitions[i];
    let count = p.sector_count();
    let image = img.len() as u64;
    match count.checked_mul(SECTOR_SIZE) {
        Some(capacity) => {
            if image > capacity {
                return Err(FlashError::RawImageTooLarge { image, capacity });
            }
        },
        None => {},
    }
    Ok(
        PartitionWritePlan {
            index: i,
            start_sector: fes_logical_sector(p.first_lba as u32, logic_offset),
            sparse: is_sparse_image(img),
        },
    )
}

/// What flash-part does after writing: nothing for "none", otherwise as
/// flash-raw does.
pub fn partition_post_action(action: &str) -> (r: Option<ToolMode>)
    ensures
        action@ == "none"@ ==> r is None,
        action@ != "none"@ ==> r == Some(spec_post_action_mode(action@)),
{
    let a = action.to_owned();
    if a == "none".to_owned() {
        None
    } else {
        Some(post_action_mode(action))
    }
}

} // verus!
