use openixcli::flash::raw_writer::{
    chunk_ranges, chunk_sector, note_chunk_verdict, in_metadata_window, judge_chunk, metadata_wrap_offset,
    plan_verify_step, ChunkVerdict, RewriteRegion, VerifyStep, MAX_VERIFY_PASSES, SPRITE_META_BYTES,
};

#[test]
fn chunks_exact_multiple() {
    assert_eq!(chunk_ranges(20, 10), vec![(0, 10), (10, 10)]);
}

#[test]
fn chunks_with_remainder() {
    assert_eq!(chunk_ranges(25, 10), vec![(0, 10), (10, 10), (20, 5)]);
}

#[test]
fn chunks_empty_and_small() {
    assert_eq!(chunk_ranges(0, 10), Vec::<(u64, u64)>::new());
    assert_eq!(chunk_ranges(7, 10), vec![(0, 7)]);
}

#[test]
fn metadata_window_matches_logic0_boundary() {
    // logic_offset=40960 -> start_sector 0xffff6000 -> wrap at 20 MiB.
    let wrap = Some(40960u64 * 512); // 20 MiB
    let w = wrap.unwrap();
    // The observed 22-byte diff at exactly the boundary is benign.
    assert!(in_metadata_window(w, w + 21, wrap));
    // A diff at the very end of the window is still benign.
    assert!(in_metadata_window(w + 100, w + SPRITE_META_BYTES - 1, wrap));
}

#[test]
fn metadata_window_excludes_real_mismatches() {
    let wrap = Some(40960u64 * 512);
    let w = wrap.unwrap();
    // Just past the window is a real mismatch.
    assert!(!in_metadata_window(w, w + SPRITE_META_BYTES, wrap));
    // Before the boundary (e.g. GPT at 512) is a real mismatch.
    assert!(!in_metadata_window(512, 1024, wrap));
    // A diff that straddles the window end is not fully benign.
    assert!(!in_metadata_window(w + 8, w + SPRITE_META_BYTES + 8, wrap));
}

#[test]
fn metadata_window_disabled_without_compensation() {
    // start_sector==0 -> no wrap window -> nothing is benign.
    assert!(!in_metadata_window(0, 21, None));
    assert!(!in_metadata_window(1024, 2048, None));
}

// ---------------------------------------------------------------------------

#[test]
fn chunks_of_one_byte_and_large_chunk() {
    assert_eq!(chunk_ranges(3, 1), vec![(0, 1), (1, 1), (2, 1)]);
    assert_eq!(chunk_ranges(u64::MAX, u64::MAX), vec![(0, u64::MAX)]);
}

#[test]
fn window_near_u64_max_does_not_overflow() {
    let w = u64::MAX - 10;
    assert!(in_metadata_window(w, u64::MAX, Some(w)));
    assert!(!in_metadata_window(w - 1, u64::MAX, Some(w)));
}

#[test]
fn wrap_offset_is_at_the_reserve() {
    assert_eq!(metadata_wrap_offset(0), None);
    assert_eq!(metadata_wrap_offset(0xffff_6000), Some(40960 * 512));
    assert_eq!(metadata_wrap_offset(u32::MAX), Some(512));
    // The wrap offset is addressed at logical sector 0.
    assert_eq!(chunk_sector(0xffff_6000, 40960 * 512), 0);
}

#[test]
fn chunk_sectors_wrap_at_2_pow_32() {
    assert_eq!(chunk_sector(0xffff_6000, 0), 0xffff_6000);
    assert_eq!(chunk_sector(0xffff_6000, 16 * 1024 * 1024), 0xffff_6000 + 32768);
    assert_eq!(chunk_sector(0xffff_6000, 20 * 1024 * 1024 + 512), 1);
    assert_eq!(chunk_sector(5, 1023), 6);
}

#[test]
fn judge_chunk_verdicts() {
    let src = vec![1u8, 2, 3, 4, 5, 6];
    assert_eq!(judge_chunk(&src, &src, 0, None), ChunkVerdict::Match);
    let mut dev = src.clone();
    dev[1] = 9;
    dev[4] = 9;
    assert_eq!(
        judge_chunk(&src, &dev, 100, None),
        ChunkVerdict::Mismatch { first_abs: 101, last_abs: 104, diff_count: 2 }
    );
    assert_eq!(
        judge_chunk(&src, &dev, 100, Some(100)),
        ChunkVerdict::Benign { first_abs: 101, last_abs: 104 }
    );
    assert_eq!(
        judge_chunk(&src, &dev, 100, Some(102)),
        ChunkVerdict::Mismatch { first_abs: 101, last_abs: 104, diff_count: 2 }
    );
}

#[test]
fn verify_steps() {
    assert!(matches!(plan_verify_step(1, &vec![], 0), VerifyStep::Passed));
    match plan_verify_step(1, &vec![(0, 10), (16 * 1024 * 1024, 5)], 0xffff_6000) {
        VerifyStep::Rewrite(r) => assert_eq!(
            r,
            vec![
                RewriteRegion { offset: 0, len: 10, sector: 0xffff_6000 },
                RewriteRegion { offset: 16 * 1024 * 1024, len: 5, sector: 0xffff_e000 },
            ]
        ),
        _ => panic!("expected a rewrite"),
    }
    assert!(matches!(
        plan_verify_step(MAX_VERIFY_PASSES, &vec![(0, 1), (1, 1)], 0),
        VerifyStep::GiveUp { remaining: 2 }
    ));
}

#[test]
fn zero_chunk_size_with_nothing_to_write() {
    assert_eq!(chunk_ranges(0, 0), Vec::<(u64, u64)>::new());
}

#[test]
fn only_mismatches_join_the_bad_list() {
    let mut bad = vec![(0u64, 10u64)];
    note_chunk_verdict(&mut bad, 10, 10, ChunkVerdict::Match);
    note_chunk_verdict(&mut bad, 20, 10, ChunkVerdict::Benign { first_abs: 21, last_abs: 22 });
    assert_eq!(bad, vec![(0, 10)]);
    note_chunk_verdict(&mut bad, 30, 5, ChunkVerdict::Mismatch { first_abs: 31, last_abs: 31, diff_count: 1 });
    assert_eq!(bad, vec![(0, 10), (30, 5)]);
}
