use openixcli::flash::logic_offset::{fes_logical_sector, DEFAULT_LOGIC_OFFSET};

#[test]
fn start_of_full_image_matches_openixsuit() {
    // Whole raw.img starts at physical 0; OpenixSuit logs 0xffff6000.
    assert_eq!(fes_logical_sector(0, DEFAULT_LOGIC_OFFSET), 0xffff_6000);
}

#[test]
fn reserve_boundary_wraps_to_zero() {
    // Physical sector == reserve maps to logical 0 (the wrap point).
    assert_eq!(fes_logical_sector(DEFAULT_LOGIC_OFFSET, DEFAULT_LOGIC_OFFSET), 0);
    // One past the reserve is logical 1.
    assert_eq!(fes_logical_sector(DEFAULT_LOGIC_OFFSET + 1, DEFAULT_LOGIC_OFFSET), 1);
}

#[test]
fn gpt_header_and_partition_lbas() {
    // GPT header at physical LBA 1.
    assert_eq!(fes_logical_sector(1, DEFAULT_LOGIC_OFFSET), 0xffff_6001);
    // A partition that starts inside the reserve (boot @ 32768) maps to a
    // negative logical sector, i.e. a high u32.
    assert_eq!(fes_logical_sector(32768, DEFAULT_LOGIC_OFFSET), 0xffff_e000);
}

#[test]
fn zero_offset_is_identity() {
    // NAND / "no compensation": logical == physical.
    assert_eq!(fes_logical_sector(0, 0), 0);
    assert_eq!(fes_logical_sector(32768, 0), 32768);
}

#[test]
fn adding_the_reserve_back_gives_the_physical_sector() {
    for &(p, o) in &[(0u32, 40960u32), (1, 40960), (u32::MAX, 40960), (5, u32::MAX), (7, 7)] {
        assert_eq!(fes_logical_sector(p, o).wrapping_add(o), p);
    }
}

#[test]
fn image_sectors_land_at_their_physical_sector() {
    let start = fes_logical_sector(0, DEFAULT_LOGIC_OFFSET);
    for n in [0u32, 1, 40959, 40960, 100_000] {
        let logical = start.wrapping_add(n);
        assert_eq!(logical.wrapping_add(DEFAULT_LOGIC_OFFSET), n);
    }
}
