use openixcli::firmware::bootstrap_pack::{
    firmware_items, item_data, match_header, pack_bootstrap, tag_bytes, version_layout, PackError,
    VersionLayout, HDR_LEN,
};
use openixcli::firmware::image_data::BootstrapEntry;

struct Item<'a> {
    maintype: &'a str,
    subtype: &'a str,
    data: Vec<u8>,
}

fn field(s: &str, width: usize, pad: u8) -> Vec<u8> {
    let mut v = s.as_bytes().to_vec();
    v.resize(width, pad);
    v
}

/// Build an IMAGEWTY container (v1 layout unless `v3`).
fn build_image(items: &[Item], v3: bool) -> Vec<u8> {
    let (nf, ol, dof, ver) = if v3 { (60, 300, 308, 0x0300u32) } else { (56, 40, 44, 0x0100u32) };
    let n = items.len();
    let mut out = vec![0u8; HDR_LEN * (1 + n)];
    out[0..8].copy_from_slice(b"IMAGEWTY");
    out[8..12].copy_from_slice(&ver.to_le_bytes());
    out[nf..nf + 4].copy_from_slice(&(n as u32).to_le_bytes());
    out[100] = 0x77; // some other header byte that must survive
    let mut cur = out.len();
    for (i, it) in items.iter().enumerate() {
        let h = HDR_LEN * (1 + i);
        out[h + 8..h + 16].copy_from_slice(&field(it.maintype, 8, b' '));
        out[h + 16..h + 32].copy_from_slice(&field(it.subtype, 16, 0));
        out[h + ol..h + ol + 4].copy_from_slice(&(it.data.len() as u32).to_le_bytes());
        out[h + dof..h + dof + 4].copy_from_slice(&(cur as u32).to_le_bytes());
        out[h + 600] = i as u8;
        cur += it.data.len();
    }
    for it in items {
        out.extend_from_slice(&it.data);
    }
    out
}

fn full_firmware() -> Vec<Item<'static>> {
    vec![
        Item { maintype: "COMMON", subtype: "SYS_CONFIG100000", data: vec![1; 10] },
        Item { maintype: "12345678", subtype: "UBOOT_0000000000", data: vec![2; 300] },
        Item { maintype: "RFSFAT16", subtype: "ROOTFS_000000000", data: vec![3; 5000] },
        Item { maintype: "FES", subtype: "FES_1-0000000000", data: vec![4; 70] },
        Item { maintype: "COMMON", subtype: "DTB_CONFIG000000", data: vec![5; 33] },
    ]
}

fn u32_at(b: &[u8], off: usize) -> u32 {
    u32::from_le_bytes([b[off], b[off + 1], b[off + 2], b[off + 3]])
}

#[test]
fn pack_keeps_only_bootstrap_items_with_new_offsets() {
    let input = build_image(&full_firmware(), false);
    let (out, summary) = pack_bootstrap(&input).unwrap();
    let names: Vec<(String, u32)> = summary.entries.clone();
    assert_eq!(
        names,
        vec![("uboot".to_string(), 300), ("fes".to_string(), 70), ("dtb".to_string(), 33)]
    );
    let data_start = HDR_LEN * 4;
    assert_eq!(out.len(), data_start + 300 + 70 + 33);
    assert_eq!(summary.output_size, out.len() as u64);
    assert_eq!(&out[0..8], b"IMAGEWTY");
    assert_eq!(u32_at(&out, 56), 3);
    assert_eq!(u32_at(&out, 24), out.len() as u32);
    assert_eq!(out[100], 0x77);
    let expected = [(2u8, 300usize, data_start), (4, 70, data_start + 300), (5, 33, data_start + 370)];
    for (k, (byte, len, off)) in expected.iter().enumerate() {
        let h = HDR_LEN * (1 + k);
        assert_eq!(u32_at(&out, h + 44), *off as u32);
        assert_eq!(u32_at(&out, h + 40), *len as u32);
        assert!(out[*off..*off + *len].iter().all(|b| b == byte));
    }
    // Headers are copied verbatim apart from the data offset.
    assert_eq!(out[HDR_LEN + 600], 1);
    assert_eq!(out[2 * HDR_LEN + 600], 3);
}

#[test]
fn pack_of_a_bootstrap_reproduces_it() {
    let input = build_image(&full_firmware(), true);
    let (once, s1) = pack_bootstrap(&input).unwrap();
    let (twice, s2) = pack_bootstrap(&once).unwrap();
    assert_eq!(once, twice);
    assert_eq!(s1.entries, s2.entries);
    assert_eq!(u32_at(&once, 60), 3);
}

#[test]
fn pack_errors() {
    assert_eq!(pack_bootstrap(&[0u8; 1023]).err(), Some(PackError::Truncated));
    let mut bad = build_image(&full_firmware(), false);
    bad[0..8].copy_from_slice(b"NOTIMG\0 ");
    assert_eq!(pack_bootstrap(&bad).err(), Some(PackError::InvalidMagic(b"NOTIMG".to_vec())));

    let mut items = full_firmware();
    items.remove(3); // no fes
    assert_eq!(
        pack_bootstrap(&build_image(&items, false)).err(),
        Some(PackError::MissingEntry(BootstrapEntry::Fes))
    );
    let mut items = full_firmware();
    items.remove(1); // no uboot
    assert_eq!(
        pack_bootstrap(&build_image(&items, false)).err(),
        Some(PackError::MissingEntry(BootstrapEntry::Uboot))
    );

    let full = build_image(&full_firmware(), false);
    // The data of the last kept item runs past the end.
    assert_eq!(pack_bootstrap(&full[..full.len() - 1]).err(), Some(PackError::Truncated));
    // A file header runs past the end.
    assert_eq!(pack_bootstrap(&full[..HDR_LEN * 3]).err(), Some(PackError::Truncated));
}

#[test]
fn items_are_found_by_type() {
    let input = build_image(&full_firmware(), false);
    let items = firmware_items(&input).unwrap();
    assert_eq!(items.len(), 3);
    assert_eq!(item_data(&items, BootstrapEntry::Fes).unwrap(), &vec![4u8; 70][..]);
    assert_eq!(item_data(&items, BootstrapEntry::Uboot).unwrap().len(), 300);
    assert!(item_data(&items, BootstrapEntry::BoardConfig).is_none());
    assert!(matches!(firmware_items(&input[..10]), Err(PackError::Truncated)));
}

#[test]
fn headers_match_trimmed_tags() {
    let mut fh = vec![0u8; HDR_LEN];
    fh[8..16].copy_from_slice(b"COMMON  ");
    fh[16..32].copy_from_slice(b"BOARD_CONFIG_BIN");
    assert_eq!(match_header(&fh), Some(BootstrapEntry::BoardConfig));
    fh[8..16].copy_from_slice(b"COMMON\0\0");
    assert_eq!(match_header(&fh), Some(BootstrapEntry::BoardConfig));
    fh[8..16].copy_from_slice(b"COMMONX ");
    assert_eq!(match_header(&fh), None);
    fh[8..16].copy_from_slice(b"COMMON  ");
    fh[16..32].copy_from_slice(b"SYS_CONFIG_BIN00");
    assert_eq!(match_header(&fh), Some(BootstrapEntry::SysConfigBin));
}

#[test]
fn tags_lose_trailing_nuls_and_spaces_only() {
    assert_eq!(tag_bytes(b"ab \0 \0"), b"ab".to_vec());
    assert_eq!(tag_bytes(b" a"), b" a".to_vec());
    assert_eq!(tag_bytes(b"\0\0"), Vec::<u8>::new());
}

#[test]
fn layouts_by_version() {
    assert_eq!(version_layout(0x0300), VersionLayout { num_files: 60, orig_len: 300, data_off: 308 });
    assert_eq!(version_layout(0x0100), VersionLayout { num_files: 56, orig_len: 40, data_off: 44 });
    assert_eq!(version_layout(0), VersionLayout { num_files: 56, orig_len: 40, data_off: 44 });
}
