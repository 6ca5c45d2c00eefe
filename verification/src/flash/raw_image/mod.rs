pub mod layout;

// flash-raw: write a whole raw.img to the device verbatim.

use crate::error::FlashError;
use crate::flash::device_session::DeviceMode;
use crate::flash::fel_bootstrap::FesEntry;
use crate::flash::logic_offset::{fes_logical_sector, spec_fes_logical_sector};
use layout::{extract_bootstrap, spec_extract_bootstrap};
use vstd::prelude::*;

verus! {

pub struct RawImageOptions {
    pub bus: Option<u8>,
    pub port: Option<u8>,
    pub verify: bool,
    /// Post-flash action: "reboot" (default), "poweroff", or "shutdown".
    pub post_action: String,
    /// Sector of u-boot inside the raw image (default `UBOOT_START_SECTOR`).
    pub uboot_sector: usize,
    /// Optional LiveSuit/IMAGEWTY firmware to bootstrap FEL->FES from.
    pub bootstrap: Option<String>,
    /// FES logical-sector compensation (40960 for SD/eMMC, 0 for NAND).
    pub logic_offset: u32,
}

/// The FES tool mode requested after flashing.
#[derive(Debug, Clone, Copy, PartialEq, Eq, Structural)]
pub enum ToolMode {
    Reboot,
    PowerOff,
}

/// "poweroff" and "shutdown" power the device off; anything else reboots it.
pub open spec fn spec_post_action_mode(action: Seq<char>) -> ToolMode {
    if action == "poweroff"@ || action == "shutdown"@ {
        ToolMode::PowerOff
    } else {
        ToolMode::Reboot
    }
}

/// The tool mode for a post-flash action string.
pub fn post_action_mode(action: &str) -> (m: ToolMode)
    ensures
        m == spec_post_action_mode(action@),
{
    let a = action.to_owned();
    if a == "poweroff".to_owned() || a == "shutdown".to_owned() {
        ToolMode::PowerOff
    } else {
        ToolMode::Reboot
    }
}

/// flash-raw: a device in FEL is bootstrapped, from the given firmware when
/// there is one, else from the boot0/u-boot found in the raw image; any other
/// mode is taken as FES.
pub fn plan_raw_fes_entry<'a>(mode: DeviceMode, img: &'a [u8], opts: &RawImageOptions) -> (r:
    Result<FesEntry<'a>, FlashError>)
    ensures
        mode != DeviceMode::Fel ==> r matches Ok(FesEntry::AlreadyInFes),
        mode == DeviceMode::Fel && opts.bootstrap.is_some() ==> (r matches Ok(
            FesEntry::BootstrapFirmware(path),
        ) && path@ == opts.bootstrap.unwrap()@),
        mode == DeviceMode::Fel && opts.bootstrap.is_none() ==> match spec_extract_bootstrap(
            img@,
            opts.uboot_sector as int,
        ) {
            Ok((b0s, b0e, us, ue)) => r matches Ok(FesEntry::BootstrapRawImage(bs))
                && bs.boot0@ == img@.subrange(b0s, b0e) && bs.uboot@ == img@.subrange(us, ue),
            Err(fault) => r == Err::<FesEntry<'a>, FlashError>(
                FlashError::InvalidFirmwareFormat(fault),
            ),
        },
{
    if mode != DeviceMode::Fel {
        return Ok(FesEntry::AlreadyInFes);
    }
    match &opts.bootstrap {
        Some(path) => Ok(FesEntry::BootstrapFirmware(path.clone())),
        None => match extract_bootstrap(img, opts.uboot_sector) {
            Ok(bs) => Ok(FesEntry::BootstrapRawImage(bs)),
            Err(e) => Err(e),
        },
    }
}

/// Where and within what capacity a raw image is written.
#[derive(Debug, Clone, Copy, PartialEq, Eq)]
pub struct RawWritePlan {
    /// FES sector at which image byte 0 is written.
    pub start_sector: u32,
    /// Device capacity in bytes.
    pub capacity: u64,
}

/// The image must fit the device (`flash_sectors` 512-byte sectors); it is
/// written from the FES sector of physical sector 0.
pub fn plan_raw_write(image_len: u64, flash_sectors: u32, logic_offset: u32) -> (r: Result<
    RawWritePlan,
    FlashError,
>)
    ensures
        image_len > flash_sectors * 512 ==> r == Err::<RawWritePlan, FlashError>(
            FlashError::RawImageTooLarge { image: image_len, capacity: (flash_sectors * 512) as u64 },
        ),
        image_len <= flash_sectors * 512 ==> r == Ok::<RawWritePlan, FlashError>(
            RawWritePlan {
                start_sector: spec_fes_logical_sector(0, logic_offset),
                capacity: (flash_sectors * 512) as u64,
            },
        ),
{
    let capacity = (flash_sectors as u64) * 512;
    if image_len > capacity {
        return Err(FlashError::RawImageTooLarge { image: image_len, capacity });
    }
    Ok(RawWritePlan { start_sector: fes_logical_sector(0, logic_offset), capacity })
}

} // verus!
