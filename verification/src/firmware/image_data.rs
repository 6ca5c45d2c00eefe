//! The IMAGEWTY items a FEL -> FES bootstrap needs, and how a file header
//! names them.

use vstd::prelude::*;

verus! {

/// An item kept in a bootstrap firmware.
#[derive(Debug, Clone, Copy, PartialEq, Eq, Structural)]
pub enum BootstrapEntry {
    /// fes1.fex: the DRAM-init blob (required).
    Fes,
    /// u-boot.fex (required).
    Uboot,
    /// config.fex: the binary sys_config.
    SysConfigBin,
    /// board.fex: the board configuration.
    BoardConfig,
    /// sunxi.fex: the device tree.
    Dtb,
}

/// The main type of an item, as its file header holds it once trailing NULs
/// and spaces are trimmed.
pub open spec fn entry_maintype(e: BootstrapEntry) -> Seq<u8> {
    match e {
        // "FES"
        BootstrapEntry::Fes => seq![0x46u8, 0x45, 0x53],
        // "12345678"
        BootstrapEntry::Uboot => seq![0x31u8, 0x32, 0x33, 0x34, 0x35, 0x36, 0x37, 0x38],
        // "COMMON"
        _ => seq![0x43u8, 0x4f, 0x4d, 0x4d, 0x4f, 0x4e],
    }
}

/// The sub type of an item, as its file header holds it once trailing NULs
/// and spaces are trimmed.
pub open spec fn entry_subtype(e: BootstrapEntry) -> Seq<u8> {
    match e {
        // "FES_1-0000000000"
        BootstrapEntry::Fes => seq![
            0x46u8, 0x45, 0x53, 0x5f, 0x31, 0x2d, 0x30, 0x30, 0x30, 0x30, 0x30, 0x30, 0x30, 0x30,
            0x30, 0x30,
        ],
        // "UBOOT_0000000000"
        BootstrapEntry::Uboot => seq![
            0x55u8, 0x42, 0x4f, 0x4f, 0x54, 0x5f, 0x30, 0x30, 0x30, 0x30, 0x30, 0x30, 0x30, 0x30,
            0x30, 0x30,
        ],
        // "SYS_CONFIG_BIN00"
        BootstrapEntry::SysConfigBin => seq![
            0x53u8, 0x59, 0x53, 0x5f, 0x43, 0x4f, 0x4e, 0x46, 0x49, 0x47, 0x5f, 0x42, 0x49, 0x4e,
            0x30, 0x30,
        ],
        // "BOARD_CONFIG_BIN"
        BootstrapEntry::BoardConfig => seq![
            0x42u8, 0x4f, 0x41, 0x52, 0x44, 0x5f, 0x43, 0x4f, 0x4e, 0x46, 0x49, 0x47, 0x5f, 0x42,
            0x49, 0x4e,
        ],
        // "DTB_CONFIG000000"
        BootstrapEntry::Dtb => seq![
            0x44u8, 0x54, 0x42, 0x5f, 0x43, 0x4f, 0x4e, 0x46, 0x49, 0x47, 0x30, 0x30, 0x30, 0x30,
            0x30, 0x30,
        ],
    }
}

/// The item's name in the image data table.
pub open spec fn entry_name(e: BootstrapEntry) -> Seq<char> {
    match e {
        BootstrapEntry::Fes => seq!['f', 'e', 's'],
        BootstrapEntry::Uboot => seq!['u', 'b', 'o', 'o', 't'],
        BootstrapEntry::SysConfigBin => seq![
            's', 'y', 's', '_', 'c', 'o', 'n', 'f', 'i', 'g', '_', 'b', 'i', 'n',
        ],
        BootstrapEntry::BoardConfig => seq![
            'b', 'o', 'a', 'r', 'd', '_', 'c', 'o', 'n', 'f', 'i', 'g',
        ],
        BootstrapEntry::Dtb => seq!['d', 't', 'b'],
    }
}

/// An item is reported under the image data table's name of the file its
/// header names: FES_1-0000000000 as "fes", UBOOT_0000000000 as "uboot",
/// SYS_CONFIG_BIN00 as "sys_config_bin", BOARD_CONFIG_BIN as "board_config"
/// and DTB_CONFIG000000 as "dtb".
pub proof fn lemma_entry_names_follow_subtypes(e: BootstrapEntry)
    ensures
        entry_subtype(e) == seq![
            0x46u8, 0x45, 0x53, 0x5f, 0x31, 0x2d, 0x30, 0x30, 0x30, 0x30, 0x30, 0x30, 0x30, 0x30,
            0x30, 0x30,
        ] ==> entry_name(e) == seq!['f', 'e', 's'],
        entry_subtype(e) == seq![
            0x55u8, 0x42, 0x4f, 0x4f, 0x54, 0x5f, 0x30, 0x30, 0x30, 0x30, 0x30, 0x30, 0x30, 0x30,
            0x30, 0x30,
        ] ==> entry_name(e) == seq!['u', 'b', 'o', 'o', 't'],
        entry_subtype(e) == seq![
            0x53u8, 0x59, 0x53, 0x5f, 0x43, 0x4f, 0x4e, 0x46, 0x49, 0x47, 0x5f, 0x42, 0x49, 0x4e,
            0x30, 0x30,
        ] ==> entry_name(e) == seq![
            's', 'y', 's', '_', 'c', 'o', 'n', 'f', 'i', 'g', '_', 'b', 'i', 'n',
        ],
        entry_subtype(e) == seq![
            0x42u8, 0x4f, 0x41, 0x52, 0x44, 0x5f, 0x43, 0x4f, 0x4e, 0x46, 0x49, 0x47, 0x5f, 0x42,
            0x49, 0x4e,
        ] ==> entry_name(e) == seq!['b', 'o', 'a', 'r', 'd', '_', 'c', 'o', 'n', 'f', 'i', 'g'],
        entry_subtype(e) == seq![
            0x44u8, 0x54, 0x42, 0x5f, 0x43, 0x4f, 0x4e, 0x46, 0x49, 0x47, 0x30, 0x30, 0x30, 0x30,
            0x30, 0x30,
        ] ==> entry_name(e) == seq!['d', 't', 'b'],
{
    let fes = entry_subtype(BootstrapEntry::Fes);
    let uboot = entry_subtype(BootstrapEntry::Uboot);
    let sys = entry_subtype(BootstrapEntry::SysConfigBin);
    let board = entry_subtype(BootstrapEntry::BoardConfig);
    let dtb = entry_subtype(BootstrapEntry::Dtb);
    // Each pair of sub types differs in one of its first bytes.
    assert(fes[0] != uboot[0] && fes[0] != sys[0] && fes[0] != board[0] && fes[0] != dtb[0]);
    assert(uboot[0] != sys[0] && uboot[0] != board[0] && uboot[0] != dtb[0]);
    assert(sys[0] != board[0] && sys[0] != dtb[0] && board[0] != dtb[0]);
}

/// The main type bytes of an item.
pub fn maintype_bytes(e: BootstrapEntry) -> (r: Vec<u8>)
    ensures
        r@ == entry_maintype(e),
{
    let r: Vec<u8> = match e {
        BootstrapEntry::Fes => vec![0x46u8, 0x45, 0x53],
        BootstrapEntry::Uboot => vec![0x31u8, 0x32, 0x33, 0x34, 0x35, 0x36, 0x37, 0x38],
        _ => vec![0x43u8, 0x4f, 0x4d, 0x4d, 0x4f, 0x4e],
    };
    assert(r@ =~= entry_maintype(e));
    r
}

/// The sub type bytes of an item.
pub fn subtype_bytes(e: BootstrapEntry) -> (r: Vec<u8>)
    ensures
        r@ == entry_subtype(e),
{
    let r: Vec<u8> = match e {
        BootstrapEntry::Fes => vec![
            0x46u8, 0x45, 0x53, 0x5f, 0x31, 0x2d, 0x30, 0x30, 0x30, 0x30, 0x30, 0x30, 0x30, 0x30,
            0x30, 0x30,
        ],
        BootstrapEntry::Uboot => vec![
            0x55u8, 0x42, 0x4f, 0x4f, 0x54, 0x5f, 0x30, 0x30, 0x30, 0x30, 0x30, 0x30, 0x30, 0x30,
            0x30, 0x30,
        ],
        BootstrapEntry::SysConfigBin => vec![
            0x53u8, 0x59, 0x53, 0x5f, 0x43, 0x4f, 0x4e, 0x46, 0x49, 0x47, 0x5f, 0x42, 0x49, 0x4e,
            0x30, 0x30,
        ],
        BootstrapEntry::BoardConfig => vec![
            0x42u8, 0x4f, 0x41, 0x52, 0x44, 0x5f, 0x43, 0x4f, 0x4e, 0x46, 0x49, 0x47, 0x5f, 0x42,
            0x49, 0x4e,
        ],
        BootstrapEntry::Dtb => vec![
            0x44u8, 0x54, 0x42, 0x5f, 0x43, 0x4f, 0x4e, 0x46, 0x49, 0x47, 0x30, 0x30, 0x30, 0x30,
            0x30, 0x30,
        ],
    };
    assert(r@ =~= entry_subtype(e));
    r
}

/// The item's name: "fes", "uboot", "sys_config_bin", "board_config" or
/// "dtb", as the image data table spells it.
pub fn entry_name_string(e: BootstrapEntry) -> (r: String)
    ensures
        r@ == entry_name(e),
        e == BootstrapEntry::Fes ==> r@ == seq!['f', 'e', 's'],
        e == BootstrapEntry::Uboot ==> r@ == seq!['u', 'b', 'o', 'o', 't'],
        e == BootstrapEntry::SysConfigBin ==> r@ == seq![
            's', 'y', 's', '_', 'c', 'o', 'n', 'f', 'i', 'g', '_', 'b', 'i', 'n',
        ],
        e == BootstrapEntry::BoardConfig ==> r@ == seq![
            'b', 'o', 'a', 'r', 'd', '_', 'c', 'o', 'n', 'f', 'i', 'g',
        ],
        e == BootstrapEntry::Dtb ==> r@ == seq!['d', 't', 'b'],
{
    match e {
        BootstrapEntry::Fes => {
            let s = "fes".to_owned();
            proof {
                reveal_strlit("fes");
            }
            assert(s@ =~= entry_name(e));
            s
        },
        BootstrapEntry::Uboot => {
            let s = "uboot".to_owned();
            proof {
                reveal_strlit("uboot");
            }
            assert(s@ =~= entry_name(e));
            s
        },
        BootstrapEntry::SysConfigBin => {
            let s = "sys_config_bin".to_owned();
            proof {
                reveal_strlit("sys_config_bin");
            }
            assert(s@ =~= entry_name(e));
            s
        },
        BootstrapEntry::BoardConfig => {
            let s = "board_config".to_owned();
            proof {
                reveal_strlit("board_config");
            }
            assert(s@ =~= entry_name(e));
            s
        },
        BootstrapEntry::Dtb => {
            let s = "dtb".to_owned();
            proof {
                reveal_strlit("dtb");
            }
            assert(s@ =~= entry_name(e));
            s
        },
    }
}

} // verus!
