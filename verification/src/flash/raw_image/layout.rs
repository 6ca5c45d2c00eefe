//! Locate boot0 / u-boot inside a full-disk raw.img at standard sunxi offsets.

use crate::bytes::{bytes_at, read_u32, spec_u32_le};
use crate::config::boot_header::{
    boot0_magic, uboot_magic, BOOT0_HEADER_LEN, BOOT0_LENGTH_OFFSET, MAGIC_OFFSET,
    UBOOT_HEADER_LEN, UBOOT_LENGTH_OFFSET,
};
use crate::error::{FirmwareFault, FlashError};
use vstd::prelude::*;
use vstd::slice::slice_subrange;

verus! {

/// boot0 sits at sector 16 (8 KiB) in the SD/eMMC sunxi layout.
pub const BOOT0_OFFSET: usize = 8192;
/// Standard sunxi start sector of u-boot / toc1.
pub const UBOOT_START_SECTOR: usize = 32800;

/// Extracted bootstrap blobs borrowed from the raw image.
pub struct RawBootstrap<'a> {
    pub boot0: &'a [u8],
    pub uboot: &'a [u8],
}

/// Where boot0 and u-boot lie in `img`, as byte ranges
/// `(boot0_start, boot0_end, uboot_start, uboot_end)`, or why they cannot be
/// found.
pub open spec fn spec_extract_bootstrap(img: Seq<u8>, uboot_sector: int) -> Result<
    (int, int, int, int),
    FirmwareFault,
> {
    let b0 = BOOT0_OFFSET as int;
    if img.len() < b0 + BOOT0_HEADER_LEN {
        Err(FirmwareFault::Boot0TooSmall)
    } else if img.subrange(b0 + MAGIC_OFFSET, b0 + MAGIC_OFFSET + 8) != boot0_magic() {
        Err(FirmwareFault::NoBoot0Magic)
    } else {
        let boot0_len = spec_u32_le(img, b0 + BOOT0_LENGTH_OFFSET);
        if boot0_len == 0 || b0 + boot0_len > img.len() {
            Err(FirmwareFault::BadBoot0Length(boot0_len))
        } else {
            let u0 = uboot_sector * 512;
            if img.len() < u0 + UBOOT_HEADER_LEN {
                Err(FirmwareFault::UbootTooSmall)
            } else if img.subrange(u0 + MAGIC_OFFSET, u0 + MAGIC_OFFSET + 5) != uboot_magic() {
                Err(FirmwareFault::NoUbootMagic { sector: uboot_sector as usize })
            } else {
                let uboot_len = spec_u32_le(img, u0 + UBOOT_LENGTH_OFFSET);
                if uboot_len == 0 || u0 + uboot_len > img.len() {
                    Err(FirmwareFault::BadUbootLength(uboot_len))
                } else {
                    Ok((b0, b0 + boot0_len, u0, u0 + uboot_len))
                }
            }
        }
    }
}

/// Slice boot0 and u-boot out of `img`. `uboot_sector` lets callers override
/// the default UBOOT_START_SECTOR.
pub fn extract_bootstrap(img: &[u8], uboot_sector: usize) -> (r: Result<RawBootstrap<'_>, FlashError>)
    ensures
        match (r, spec_extract_bootstrap(img@, uboot_sector as int)) {
            (Ok(bs), Ok((b0s, b0e, us, ue))) => {
                &&& bs.boot0@ == img@.subrange(b0s, b0e)
                &&& bs.uboot@ == img@.subrange(us, ue)
            },
            (Err(e), Err(fault)) => e == FlashError::InvalidFirmwareFormat(fault),
            _ => false,
        },
{
    // boot0
    if img.len() < BOOT0_OFFSET + BOOT0_HEADER_LEN {
        return Err(FlashError::InvalidFirmwareFormat(FirmwareFault::Boot0TooSmall));
    }
    let magic0: Vec<u8> = vec![0x65u8, 0x47, 0x4f, 0x4e, 0x2e, 0x42, 0x54, 0x30];
    assert(magic0@ == boot0_magic());
    if !bytes_at(img, BOOT0_OFFSET + MAGIC_OFFSET, magic0.as_slice()) {
        return Err(FlashError::InvalidFirmwareFormat(FirmwareFault::NoBoot0Magic));
    }
    let boot0_len = read_u32(img, BOOT0_OFFSET + BOOT0_LENGTH_OFFSET);
    if boot0_len == 0 || boot0_len as u64 > (img.len() - BOOT0_OFFSET) as u64 {
        return Err(FlashError::InvalidFirmwareFormat(FirmwareFault::BadBoot0Length(boot0_len)));
    }
    let boot0 = slice_subrange(img, BOOT0_OFFSET, BOOT0_OFFSET + boot0_len as usize);

    // u-boot
    let uboot_off = match uboot_sector.checked_mul(512) {
        Some(off) => off,
        None => {
            return Err(FlashError::InvalidFirmwareFormat(FirmwareFault::UbootTooSmall));
        },
    };
    if uboot_off > img.len() || img.len() - uboot_off < UBOOT_HEADER_LEN {
        return Err(FlashError::InvalidFirmwareFormat(FirmwareFault::UbootTooSmall));
    }
    let magic1: Vec<u8> = vec![0x75u8, 0x62, 0x6f, 0x6f, 0x74];
    assert(magic1@ == uboot_magic());
    if !bytes_at(img, uboot_off + MAGIC_OFFSET, magic1.as_slice()) {
        return Err(
            FlashError::InvalidFirmwareFormat(FirmwareFault::NoUbootMagic { sector: uboot_sector }),
        );
    }
    let uboot_len = read_u32(img, uboot_off + UBOOT_LENGTH_OFFSET);
    if uboot_len == 0 || uboot_len as u64 > (img.len() - uboot_off) as u64 {
        return Err(FlashError::InvalidFirmwareFormat(FirmwareFault::BadUbootLength(uboot_len)));
    }
    let uboot = slice_subrange(img, uboot_off, uboot_off + uboot_len as usize);
    Ok(RawBootstrap { boot0, uboot })
}

} // verus!
