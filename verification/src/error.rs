//! Errors reported by the library.

use crate::flash::device_session::DeviceMode;
use vstd::prelude::*;

verus! {

/// Why a GPT header or entry array was rejected.
#[derive(Debug, Clone, Copy, PartialEq, Eq)]
pub enum GptFault {
    /// The LBA1 buffer is shorter than the 92-byte header.
    HeaderTooSmall,
    /// Bytes 0..8 are not `EFI PART`.
    BadSignature,
    /// The header's own size field is below 92 or beyond the buffer.
    BadHeaderSize(u32),
    /// The header CRC-32 does not match the header bytes.
    HeaderCrcMismatch { stored: u32, calc: u32 },
    /// The LBA1 buffer handed to the entry parser is shorter than the header.
    Lba1TooSmall,
    /// The entry size is below 128 bytes.
    BadEntrySize(u32),
    /// The entry buffer is shorter than `num_entries * entry_size`.
    EntryBufferTooSmall,
    /// The entry-array CRC-32 does not match the entry bytes.
    EntriesCrcMismatch { stored: u32, calc: u32 },
}

/// Why boot0 / u-boot could not be located inside a raw image.
#[derive(Debug, Clone, Copy, PartialEq, Eq)]
pub enum FirmwareFault {
    /// The image ends before the boot0 header does.
    Boot0TooSmall,
    /// No `eGON.BT0` magic at the boot0 offset.
    NoBoot0Magic,
    /// The boot0 length is zero or runs past the end of the image.
    BadBoot0Length(u32),
    /// The image ends before the u-boot header does.
    UbootTooSmall,
    /// No `uboot` magic at the given u-boot sector.
    NoUbootMagic { sector: usize },
    /// The u-boot length is zero or runs past the end of the image.
    BadUbootLength(u32),
}

/// Errors of the flashing logic.
#[derive(Debug, PartialEq, Eq)]
pub enum FlashError {
    /// The device GPT is not valid.
    GptInvalid(GptFault),
    /// A raw image does not hold a usable boot0 / u-boot.
    InvalidFirmwareFormat(FirmwareFault),
    /// The image is larger than the capacity it is written to.
    RawImageTooLarge { image: u64, capacity: u64 },
    /// No partition of that name in the device GPT.
    PartitionNotFound(String),
    /// The device is not in FES mode and cannot be brought there.
    DeviceNotInFes(DeviceMode),
    /// No device was found on the USB bus.
    DeviceNotFound,
}

} // verus!
