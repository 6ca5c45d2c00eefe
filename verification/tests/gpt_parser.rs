use openixcli::config::gpt_parser::{
    crc32, decode_utf16_lossy, parse_entries, parse_header, Gpt, GptPartition, GPT_HEADER_SIZE,
    GPT_SIGNATURE,
};
use openixcli::error::{FlashError, GptFault};

#[test]
fn crc32_known_vector() {
    // Standard CRC-32 of "123456789" is 0xCBF43926.
    assert_eq!(crc32(b"123456789"), 0xCBF4_3926);
}

// Build a minimal one-entry GPT (header in lba1, 1 entry of 128 bytes) with valid CRCs.
fn build_gpt(name: &str, first: u64, last: u64) -> (Vec<u8>, Vec<u8>) {
    let entry_size = 128usize;
    let num = 1u32;
    let mut entries = vec![0u8; entry_size];
    entries[0] = 1; // non-zero type GUID
    entries[32..40].copy_from_slice(&first.to_le_bytes());
    entries[40..48].copy_from_slice(&last.to_le_bytes());
    for (j, u) in name.encode_utf16().enumerate() {
        entries[56 + j * 2..58 + j * 2].copy_from_slice(&u.to_le_bytes());
    }
    let entries_crc = crc32(&entries);

    let mut lba1 = vec![0u8; 512];
    lba1[0..8].copy_from_slice(GPT_SIGNATURE.as_bytes());
    lba1[12..16].copy_from_slice(&(GPT_HEADER_SIZE as u32).to_le_bytes());
    lba1[72..80].copy_from_slice(&2u64.to_le_bytes()); // entries at LBA2
    lba1[80..84].copy_from_slice(&num.to_le_bytes());
    lba1[84..88].copy_from_slice(&(entry_size as u32).to_le_bytes());
    lba1[88..92].copy_from_slice(&entries_crc.to_le_bytes());
    let hdr_crc = crc32(&lba1[..GPT_HEADER_SIZE]);
    lba1[16..20].copy_from_slice(&hdr_crc.to_le_bytes());
    (lba1, entries)
}

#[test]
fn parses_partition_by_name() {
    let (lba1, entries) = build_gpt("boot", 40, 1063);
    let mut gpt = parse_header(&lba1).unwrap();
    parse_entries(&mut gpt, &lba1, &entries).unwrap();
    let p = gpt.find("boot").expect("boot present");
    assert_eq!(p.first_lba, 40);
    assert_eq!(p.last_lba, 1063);
    assert_eq!(p.sector_count(), 1024);
    assert_eq!(p.size_bytes(), 1024 * 512);
    assert!(gpt.find("missing").is_none());
    assert_eq!(gpt.names(), vec!["boot".to_string()]);
}

#[test]
fn rejects_bad_signature() {
    let mut lba1 = vec![0u8; 512];
    lba1[0..8].copy_from_slice(b"NOTEFIPT");
    assert!(parse_header(&lba1).is_err());
}

#[test]
fn rejects_bad_header_crc() {
    let (mut lba1, _e) = build_gpt("boot", 40, 1063);
    lba1[16] ^= 0xFF; // corrupt stored CRC
    assert!(parse_header(&lba1).is_err());
}

#[test]
fn rejects_bad_entries_crc() {
    let (lba1, mut entries) = build_gpt("boot", 40, 1063);
    let mut gpt = parse_header(&lba1).unwrap();
    entries[0] ^= 0xFF; // corrupt entry data after CRC is stored in lba1
    assert!(parse_entries(&mut gpt, &lba1, &entries).is_err());
}

// ---------------------------------------------------------------------------

#[test]
fn crc32_of_empty_input_is_zero() {
    assert_eq!(crc32(&[]), 0);
}

#[test]
fn crc32_of_single_a() {
    // CRC-32 of "a" is 0xE8B7BE43.
    assert_eq!(crc32(b"a"), 0xE8B7_BE43);
}

#[test]
fn header_fields_are_read_little_endian() {
    let (lba1, _e) = build_gpt("boot", 40, 1063);
    let gpt = parse_header(&lba1).unwrap();
    assert_eq!(gpt.partition_entries_lba, 2);
    assert_eq!(gpt.num_entries, 1);
    assert_eq!(gpt.entry_size, 128);
    assert!(gpt.partitions.is_empty());
}

#[test]
fn header_error_variants() {
    assert_eq!(
        parse_header(&[0u8; 91]).unwrap_err(),
        FlashError::GptInvalid(GptFault::HeaderTooSmall)
    );
    let mut lba1 = vec![0u8; 512];
    lba1[0..8].copy_from_slice(b"NOTEFIPT");
    assert_eq!(parse_header(&lba1).unwrap_err(), FlashError::GptInvalid(GptFault::BadSignature));

    let (mut lba1, _e) = build_gpt("boot", 40, 1063);
    lba1[12..16].copy_from_slice(&91u32.to_le_bytes());
    assert_eq!(parse_header(&lba1).unwrap_err(), FlashError::GptInvalid(GptFault::BadHeaderSize(91)));
    lba1[12..16].copy_from_slice(&513u32.to_le_bytes());
    assert_eq!(parse_header(&lba1).unwrap_err(), FlashError::GptInvalid(GptFault::BadHeaderSize(513)));

    let (mut lba1, _e) = build_gpt("boot", 40, 1063);
    let good = u32::from_le_bytes([lba1[16], lba1[17], lba1[18], lba1[19]]);
    lba1[16] ^= 0xFF;
    let stored = u32::from_le_bytes([lba1[16], lba1[17], lba1[18], lba1[19]]);
    assert_eq!(
        parse_header(&lba1).unwrap_err(),
        FlashError::GptInvalid(GptFault::HeaderCrcMismatch { stored, calc: good })
    );
}

#[test]
fn header_crc_covers_bytes_beyond_the_crc_field() {
    let (mut lba1, _e) = build_gpt("boot", 40, 1063);
    lba1[80] ^= 1; // num_entries changed after the CRC was computed
    assert!(matches!(
        parse_header(&lba1),
        Err(FlashError::GptInvalid(GptFault::HeaderCrcMismatch { .. }))
    ));
}

#[test]
fn entries_error_variants_leave_gpt_unchanged() {
    let (lba1, entries) = build_gpt("boot", 40, 1063);
    let mut gpt = parse_header(&lba1).unwrap();
    assert_eq!(
        parse_entries(&mut gpt, &lba1[..91], &entries).unwrap_err(),
        FlashError::GptInvalid(GptFault::Lba1TooSmall)
    );
    assert_eq!(
        parse_entries(&mut gpt, &lba1, &entries[..127]).unwrap_err(),
        FlashError::GptInvalid(GptFault::EntryBufferTooSmall)
    );
    gpt.entry_size = 64;
    assert_eq!(
        parse_entries(&mut gpt, &lba1, &entries).unwrap_err(),
        FlashError::GptInvalid(GptFault::BadEntrySize(64))
    );
    assert!(gpt.partitions.is_empty());
    gpt.entry_size = 128;
    let mut bad = entries.clone();
    bad[1] = 7;
    let stored = u32::from_le_bytes([lba1[88], lba1[89], lba1[90], lba1[91]]);
    assert_eq!(
        parse_entries(&mut gpt, &lba1, &bad).unwrap_err(),
        FlashError::GptInvalid(GptFault::EntriesCrcMismatch { stored, calc: crc32(&bad) })
    );
    assert!(gpt.partitions.is_empty());
}

fn build_multi(entries_spec: &[(bool, &[u16], u64, u64)]) -> (Vec<u8>, Vec<u8>) {
    let entry_size = 128usize;
    let mut entries = vec![0u8; entry_size * entries_spec.len()];
    for (i, (used, name, first, last)) in entries_spec.iter().enumerate() {
        let e = &mut entries[i * entry_size..(i + 1) * entry_size];
        if *used {
            e[3] = 0xAA;
        }
        e[32..40].copy_from_slice(&first.to_le_bytes());
        e[40..48].copy_from_slice(&last.to_le_bytes());
        for (j, u) in name.iter().enumerate() {
            e[56 + j * 2..58 + j * 2].copy_from_slice(&u.to_le_bytes());
        }
    }
    let mut lba1 = vec![0u8; 512];
    lba1[0..8].copy_from_slice(GPT_SIGNATURE.as_bytes());
    lba1[12..16].copy_from_slice(&(GPT_HEADER_SIZE as u32).to_le_bytes());
    lba1[72..80].copy_from_slice(&2u64.to_le_bytes());
    lba1[80..84].copy_from_slice(&(entries_spec.len() as u32).to_le_bytes());
    lba1[84..88].copy_from_slice(&(entry_size as u32).to_le_bytes());
    lba1[88..92].copy_from_slice(&crc32(&entries).to_le_bytes());
    let hdr_crc = crc32(&lba1[..GPT_HEADER_SIZE]);
    lba1[16..20].copy_from_slice(&hdr_crc.to_le_bytes());
    (lba1, entries)
}

#[test]
fn unused_entries_are_skipped_and_order_kept() {
    let boot: Vec<u16> = "boot".encode_utf16().collect();
    let rootfs: Vec<u16> = "rootfs".encode_utf16().collect();
    let (lba1, entries) = build_multi(&[
        (true, &boot, 40, 1063),
        (false, &[], 0, 0),
        (true, &rootfs, 2048, 4095),
    ]);
    let mut gpt = parse_header(&lba1).unwrap();
    parse_entries(&mut gpt, &lba1, &entries).unwrap();
    assert_eq!(gpt.names(), vec!["boot".to_string(), "rootfs".to_string()]);
    let p = gpt.find("rootfs").unwrap();
    assert_eq!((p.first_lba, p.last_lba), (2048, 4095));
    assert_eq!(gpt.find_index("rootfs"), Some(1));
}

#[test]
fn parse_entries_appends_to_existing_partitions() {
    let (lba1, entries) = build_gpt("boot", 40, 1063);
    let mut gpt = parse_header(&lba1).unwrap();
    parse_entries(&mut gpt, &lba1, &entries).unwrap();
    parse_entries(&mut gpt, &lba1, &entries).unwrap();
    assert_eq!(gpt.names(), vec!["boot".to_string(), "boot".to_string()]);
}

#[test]
fn find_returns_first_of_duplicate_names() {
    let gpt = Gpt {
        partition_entries_lba: 2,
        num_entries: 2,
        entry_size: 128,
        partitions: vec![
            GptPartition { name: "a".to_string(), first_lba: 1, last_lba: 2 },
            GptPartition { name: "a".to_string(), first_lba: 3, last_lba: 4 },
        ],
    };
    assert_eq!(gpt.find("a").unwrap().first_lba, 1);
    assert!(gpt.find("A").is_none());
}

#[test]
fn sector_count_saturates() {
    let p = GptPartition { name: String::new(), first_lba: 10, last_lba: 5 };
    assert_eq!(p.sector_count(), 1);
    let p = GptPartition { name: String::new(), first_lba: 0, last_lba: u64::MAX };
    assert_eq!(p.sector_count(), u64::MAX);
    let p = GptPartition { name: String::new(), first_lba: 7, last_lba: 7 };
    assert_eq!(p.sector_count(), 1);
    assert_eq!(p.size_bytes(), 512);
}

#[test]
fn names_decode_surrogates_lossily() {
    // "😀" is the pair D83D DE00; a lone high surrogate becomes U+FFFD.
    let units: Vec<u16> = vec![0x0041, 0xD83D, 0xDE00, 0xD800, 0x0042, 0xDC00];
    assert_eq!(decode_utf16_lossy(&units), "A😀\u{FFFD}B\u{FFFD}");
    assert_eq!(decode_utf16_lossy(&vec![]), "");
}

#[test]
fn entry_names_stop_at_nul_and_use_all_36_units() {
    let long: Vec<u16> = "abcdefghijklmnopqrstuvwxyz0123456789".encode_utf16().collect();
    assert_eq!(long.len(), 36);
    let cut: Vec<u16> = vec![0x78, 0x79, 0, 0x7A];
    let (lba1, entries) = build_multi(&[(true, &long, 1, 1), (true, &cut, 2, 2)]);
    let mut gpt = parse_header(&lba1).unwrap();
    parse_entries(&mut gpt, &lba1, &entries).unwrap();
    assert_eq!(
        gpt.names(),
        vec!["abcdefghijklmnopqrstuvwxyz0123456789".to_string(), "xy".to_string()]
    );
}

#[test]
fn any_single_covered_byte_change_is_detected() {
    let (lba1, entries) = build_gpt("boot", 40, 1063);
    for k in (8..12).chain(20..GPT_HEADER_SIZE) {
        let mut changed = lba1.clone();
        changed[k] ^= 0x01;
        assert!(matches!(
            parse_header(&changed),
            Err(FlashError::GptInvalid(GptFault::HeaderCrcMismatch { .. }))
        ));
    }
    let mut gpt = parse_header(&lba1).unwrap();
    for k in 0..entries.len() {
        let mut changed = entries.clone();
        changed[k] = changed[k].wrapping_add(0x80);
        assert!(matches!(
            parse_entries(&mut gpt, &lba1, &changed),
            Err(FlashError::GptInvalid(GptFault::EntriesCrcMismatch { .. }))
        ));
    }
    assert!(gpt.partitions.is_empty());
}

#[test]
fn appending_the_crc_gives_the_residue() {
    for msg in [&b""[..], b"123456789", b"EFI PART", &[0xFFu8; 300][..]] {
        let c = crc32(msg);
        let mut with = msg.to_vec();
        with.extend_from_slice(&c.to_le_bytes());
        assert_eq!(crc32(&with), 0x2144_DF1C);
    }
}

#[test]
fn partitions_clone_and_compare() {
    let p = GptPartition { name: "boot".to_string(), first_lba: 1, last_lba: 2 };
    assert_eq!(p.clone(), p);
    let gpt = Gpt { partition_entries_lba: 2, num_entries: 1, entry_size: 128, partitions: vec![p] };
    assert_eq!(gpt.clone().names(), vec!["boot".to_string()]);
}
