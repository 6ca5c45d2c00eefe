//! Fixed facts about the sunxi boot0 and u-boot headers.

use vstd::prelude::*;

verus! {

/// Magic of an eGON boot0 / fes1 image (header bytes 4..12).
pub const BOOT0_MAGIC: &'static str = "eGON.BT0";
/// Magic prefix of a sunxi u-boot image (header bytes 4..).
pub const UBOOT_MAGIC: &'static str = "uboot";
/// Byte offset of the magic field in both headers.
pub const MAGIC_OFFSET: usize = 4;
/// Byte offset of the `length` field in the boot0 header.
pub const BOOT0_LENGTH_OFFSET: usize = 16;
/// Byte offset of the `length` field in the u-boot base header.
pub const UBOOT_LENGTH_OFFSET: usize = 20;
/// Size of the boot0 standard file header.
pub const BOOT0_HEADER_LEN: usize = 48;
/// Size of the u-boot base header.
pub const UBOOT_HEADER_LEN: usize = 48;

/// The bytes of `BOOT0_MAGIC`.
pub open spec fn boot0_magic() -> Seq<u8> {
    seq![0x65u8, 0x47, 0x4f, 0x4e, 0x2e, 0x42, 0x54, 0x30]
}

/// The bytes of `UBOOT_MAGIC`.
pub open spec fn uboot_magic() -> Seq<u8> {
    seq![0x75u8, 0x62, 0x6f, 0x6f, 0x74]
}

} // verus!
