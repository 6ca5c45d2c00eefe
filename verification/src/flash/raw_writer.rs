//! Decisions of the raw sector writer: how a buffer is cut into chunks, at
//! which FES sector each chunk goes, how a read-back chunk is judged, and what
//! each verify pass does next.

use crate::flash::logic_offset::{sector_space, spec_fes_logical_sector};
use vstd::prelude::*;

verus! {

/// Bytes per write chunk.
pub const WRITE_CHUNK: u64 = 16 * 1024 * 1024;
/// Bytes per sector.
pub const SECTOR_BYTES: u64 = 512;
/// Max write+verify passes (re-write mismatched regions, then re-check).
pub const MAX_VERIFY_PASSES: u32 = 3;
/// Size of the device-managed metadata window at FES logical sector 0. With
/// logical-sector compensation on, the device rewrites these bytes while
/// flashing, so they never round-trip on read-back.
pub const SPRITE_META_BYTES: u64 = 16 * 1024;

/// Length of chunk `i` when `total` bytes are cut into `chunk`-byte chunks.
pub open spec fn chunk_len(total: int, chunk: int, i: int) -> int {
    if total - i * chunk < chunk {
        total - i * chunk
    } else {
        chunk
    }
}

/// Number of `chunk`-byte chunks needed for `total` bytes (none for 0 bytes).
pub open spec fn chunk_count(total: int, chunk: int) -> int {
    if total == 0 {
        0
    } else {
        (total + chunk - 1) / chunk
    }
}

/// Split `total` bytes into `(offset, len)` chunks of at most `chunk` bytes.
pub fn chunk_ranges(total: u64, chunk: u64) -> (out: Vec<(u64, u64)>)
    requires
        chunk > 0 || total == 0,
    ensures
        out@.len() == chunk_count(total as int, chunk as int),
        forall|i: int|
            0 <= i < out@.len() ==> (#[trigger] out@[i]).0 == i * chunk && out@[i].1 == chunk_len(
                total as int,
                chunk as int,
                i,
            ),
{
    let mut out: Vec<(u64, u64)> = Vec::new();
    let mut off: u64 = 0;
    assert(0 * chunk == 0) by (nonlinear_arith);
    while off < total
        invariant
            chunk > 0 || total == 0,
            off <= out@.len() * chunk,
            off == out@.len() * chunk || off == total,
            out@.len() > 0 ==> (out@.len() - 1) * chunk < off,
            off <= total,
            forall|i: int|
                0 <= i < out@.len() ==> (#[trigger] out@[i]).0 == i * chunk && out@[i].1
                    == chunk_len(total as int, chunk as int, i),
        decreases total - off,
    {
        let len = if chunk < total - off {
            chunk
        } else {
            total - off
        };
        let ghost n = out@.len();
        assert(off == n * chunk);
        out.push((off, len));
        assert((n + 1) * chunk == n * chunk + chunk) by (nonlinear_arith);
        off = off + len;
    }
    proof {
        let n = out@.len() as int;
        let c = chunk as int;
        let t = total as int;
        if n == 0 {
            assert(t == 0);
        } else {
            assert(chunk_count(t, c) == n) by (nonlinear_arith)
                requires
                    t <= n * c,
                    (n - 1) * c < t,
                    c > 0,
            ;
        }
    }
    out
}

/// Every chunk is non-empty, chunks follow one another without gap or
/// overlap, the first starts at 0 and the last ends at `total`.
pub proof fn lemma_chunks_tile(total: int, chunk: int)
    requires
        total >= 0,
        chunk > 0,
    ensures
        forall|i: int|
            0 <= i < chunk_count(total, chunk) ==> 0 < #[trigger] chunk_len(total, chunk, i) <= chunk
                && i * chunk + chunk_len(total, chunk, i) <= total,
        forall|i: int|
            0 <= i < chunk_count(total, chunk) - 1 ==> i * chunk + #[trigger] chunk_len(
                total,
                chunk,
                i,
            ) == (i + 1) * chunk,
        chunk_count(total, chunk) > 0 ==> (chunk_count(total, chunk) - 1) * chunk + chunk_len(
            total,
            chunk,
            chunk_count(total, chunk) - 1,
        ) == total,
{
    let n = chunk_count(total, chunk);
    assert(n * chunk >= total && (n > 0 ==> (n - 1) * chunk < total)) by (nonlinear_arith)
        requires
            total == 0 ==> n == 0,
            total != 0 ==> n == (total + chunk - 1) / chunk,
            chunk > 0,
            total >= 0,
    ;
    assert forall|i: int| 0 <= i < n implies 0 < #[trigger] chunk_len(total, chunk, i) <= chunk
        && i * chunk + chunk_len(total, chunk, i) <= total by {
        assert(i * chunk <= (n - 1) * chunk) by (nonlinear_arith)
            requires
                i <= n - 1,
                chunk > 0,
        ;
    }
    assert forall|i: int| 0 <= i < n - 1 implies i * chunk + #[trigger] chunk_len(total, chunk, i)
        == (i + 1) * chunk by {
        assert((i + 1) * chunk <= (n - 1) * chunk) by (nonlinear_arith)
            requires
                i + 1 <= n - 1,
                chunk > 0,
        ;
        assert((i + 1) * chunk == i * chunk + chunk) by (nonlinear_arith);
    }
    if n > 0 {
        assert(n * chunk == (n - 1) * chunk + chunk) by (nonlinear_arith);
    }
}

/// The differing range `[first_abs, last_abs]` lies inside the metadata
/// window that starts at `wrap_off`.
pub open spec fn spec_in_metadata_window(first_abs: u64, last_abs: u64, wrap_off: Option<u64>) -> bool {
    match wrap_off {
        Some(w) => first_abs >= w && last_abs < w + SPRITE_META_BYTES,
        None => false,
    }
}

/// True if the differing byte range `[first_abs, last_abs]` lies entirely
/// inside the device-managed metadata window at FES logical sector 0
/// (`wrap_off` is the image offset of that sector, or None when compensation
/// is disabled).
pub fn in_metadata_window(first_abs: u64, last_abs: u64, wrap_off: Option<u64>) -> (r: bool)
    ensures
        r == spec_in_metadata_window(first_abs, last_abs, wrap_off),
        r ==> wrap_off is Some,
        r ==> wrap_off->0 <= first_abs && last_abs < wrap_off->0 + SPRITE_META_BYTES,
        wrap_off is Some && wrap_off->0 <= first_abs && last_abs < wrap_off->0 + SPRITE_META_BYTES
            ==> r,
{
    match wrap_off {
        Some(w) => first_abs >= w && (last_abs < w || last_abs - w < SPRITE_META_BYTES),
        None => false,
    }
}

/// Image offset at which the FES logical address wraps to 0 when writing from
/// `start_sector`; None when writing from sector 0 (no compensation).
pub open spec fn spec_metadata_wrap_offset(start_sector: u32) -> Option<u64> {
    if start_sector == 0 {
        None
    } else {
        Some(((sector_space() - start_sector) * SECTOR_BYTES) as u64)
    }
}

/// Image offset at which the FES logical address wraps to 0.
pub fn metadata_wrap_offset(start_sector: u32) -> (r: Option<u64>)
    ensures
        r == spec_metadata_wrap_offset(start_sector),
{
    if start_sector == 0 {
        None
    } else {
        Some((0u32.wrapping_sub(start_sector) as u64) * SECTOR_BYTES)
    }
}

/// The FES sector of image byte `offset` when the image starts at
/// `start_sector`, modulo 2^32.
pub open spec fn spec_chunk_sector(start_sector: u32, offset: u64) -> u32 {
    ((start_sector + offset / SECTOR_BYTES) % sector_space()) as u32
}

/// The FES sector at which image byte `offset` is addressed.
pub fn chunk_sector(start_sector: u32, offset: u64) -> (s: u32)
    ensures
        s == spec_chunk_sector(start_sector, offset),
{
    let q = ((offset / SECTOR_BYTES) % 0x1_0000_0000) as u32;
    start_sector.wrapping_add(q)
}

/// How a chunk read back from the device compares with what was written.
#[derive(Debug, Clone, Copy, PartialEq, Eq)]
pub enum ChunkVerdict {
    /// The chunk round-tripped.
    Match,
    /// All differences lie in the device-managed metadata window.
    Benign { first_abs: u64, last_abs: u64 },
    /// A real mismatch: the chunk must be rewritten.
    Mismatch { first_abs: u64, last_abs: u64, diff_count: u64 },
}

/// `k` is the first index at which `a` and `b` differ.
pub open spec fn is_first_diff(a: Seq<u8>, b: Seq<u8>, k: int) -> bool {
    0 <= k < a.len() && a[k] != b[k] && forall|j: int| 0 <= j < k ==> a[j] == b[j]
}

/// `k` is the last index at which `a` and `b` differ.
pub open spec fn is_last_diff(a: Seq<u8>, b: Seq<u8>, k: int) -> bool {
    0 <= k < a.len() && a[k] != b[k] && forall|j: int| k < j < a.len() ==> a[j] == b[j]
}

/// Number of indices below `n` at which `a` and `b` differ.
pub open spec fn diff_count(a: Seq<u8>, b: Seq<u8>, n: nat) -> nat
    decreases n,
{
    if n == 0 {
        0
    } else {
        diff_count(a, b, (n - 1) as nat) + if a[n - 1] != b[n - 1] {
            1nat
        } else {
            0nat
        }
    }
}

/// What a read-back chunk at image offset `offset` says.
pub open spec fn chunk_verdict_ok(
    v: ChunkVerdict,
    src: Seq<u8>,
    dev: Seq<u8>,
    offset: u64,
    wrap_off: Option<u64>,
) -> bool {
    match v {
        ChunkVerdict::Match => src == dev,
        ChunkVerdict::Benign { first_abs, last_abs } => {
            &&& is_first_diff(src, dev, first_abs - offset)
            &&& is_last_diff(src, dev, last_abs - offset)
            &&& spec_in_metadata_window(first_abs, last_abs, wrap_off)
        },
        ChunkVerdict::Mismatch { first_abs, last_abs, diff_count: n } => {
            &&& is_first_diff(src, dev, first_abs - offset)
            &&& is_last_diff(src, dev, last_abs - offset)
            &&& !spec_in_metadata_window(first_abs, last_abs, wrap_off)
            &&& n == diff_count(src, dev, src.len())
        },
    }
}

/// Compare the bytes `src` written at image offset `offset` with the bytes
/// `dev` read back. Differences confined to the metadata window are benign.
pub fn judge_chunk(src: &[u8], dev: &[u8], offset: u64, wrap_off: Option<u64>) -> (v: ChunkVerdict)
    requires
        src@.len() == dev@.len(),
        offset + src@.len() <= u64::MAX,
    ensures
        chunk_verdict_ok(v, src@, dev@, offset, wrap_off),
        v is Match <==> src@ == dev@,
        v is Benign ==> wrap_off is Some && forall|i: int|
            0 <= i < src@.len() && #[trigger] src@[i] != dev@[i] ==> wrap_off->0 <= offset + i
                < wrap_off->0 + SPRITE_META_BYTES,
        v is Mismatch ==> exists|i: int|
            0 <= i < src@.len() && #[trigger] src@[i] != dev@[i] && (wrap_off is None || offset + i
                < wrap_off->0 || offset + i >= wrap_off->0 + SPRITE_META_BYTES),
{
    let n = src.len();
    // First difference.
    let mut first: usize = 0;
    while first < n && src[first] == dev[first]
        invariant
            n == src@.len(),
            n == dev@.len(),
            first <= n,
            forall|j: int| 0 <= j < first ==> src@[j] == dev@[j],
        decreases n - first,
    {
        first = first + 1;
    }
    if first == n {
        assert(src@ =~= dev@);
        return ChunkVerdict::Match;
    }
    // Last difference.
    let mut last: usize = n - 1;
    while src[last] == dev[last]
        invariant
            n == src@.len(),
            n == dev@.len(),
            first <= last < n,
            src@[first as int] != dev@[first as int],
            forall|j: int| last < j < n ==> src@[j] == dev@[j],
        decreases last,
    {
        last = last - 1;
    }
    // Number of differing bytes.
    let mut count: u64 = 0;
    let mut k: usize = 0;
    while k < n
        invariant
            n == src@.len(),
            n == dev@.len(),
            k <= n,
            n <= u64::MAX,
            count == diff_count(src@, dev@, k as nat),
            count <= k,
        decreases n - k,
    {
        if src[k] != dev[k] {
            count = count + 1;
        }
        k = k + 1;
    }
    let first_abs = offset + first as u64;
    let last_abs = offset + last as u64;
    if in_metadata_window(first_abs, last_abs, wrap_off) {
        ChunkVerdict::Benign { first_abs, last_abs }
    } else {
        ChunkVerdict::Mismatch { first_abs, last_abs, diff_count: count }
    }
}

/// Record the verdict on chunk `(offset, len)`: only a real mismatch joins
/// the list of bad chunks.
pub fn note_chunk_verdict(bad: &mut Vec<(u64, u64)>, offset: u64, len: u64, verdict: ChunkVerdict)
    ensures
        verdict is Mismatch ==> final(bad)@ == old(bad)@.push((offset, len)),
        !(verdict is Mismatch) ==> final(bad)@ == old(bad)@,
{
    match verdict {
        ChunkVerdict::Mismatch { .. } => bad.push((offset, len)),
        _ => {},
    }
}

/// A region to write again after a failed read-back.
#[derive(Debug, Clone, Copy, PartialEq, Eq)]
pub struct RewriteRegion {
    pub offset: u64,
    pub len: u64,
    pub sector: u32,
}

/// What to do after read-back pass `pass` found the regions `bad`.
#[derive(Debug)]
pub enum VerifyStep {
    /// Everything round-tripped.
    Passed,
    /// The last pass still failed; `remaining` bad regions are left.
    GiveUp { remaining: usize },
    /// Rewrite these regions and read back again.
    Rewrite(Vec<RewriteRegion>),
}

/// Decide the next step of the write/verify cycle.
pub fn plan_verify_step(pass: u32, bad: &Vec<(u64, u64)>, start_sector: u32) -> (step: VerifyStep)
    requires
        1 <= pass <= MAX_VERIFY_PASSES,
    ensures
        bad@.len() == 0 ==> step is Passed,
        bad@.len() > 0 && pass == MAX_VERIFY_PASSES ==> step == (VerifyStep::GiveUp {
            remaining: bad@.len() as usize,
        }),
        bad@.len() > 0 && pass < MAX_VERIFY_PASSES ==> (step matches VerifyStep::Rewrite(regions)
            && regions@.len() == bad@.len() && forall|i: int|
            0 <= i < bad@.len() ==> (#[trigger] regions@[i]) == (RewriteRegion {
                offset: bad@[i].0,
                len: bad@[i].1,
                sector: spec_chunk_sector(start_sector, bad@[i].0),
            })),
{
    if bad.len() == 0 {
        return VerifyStep::Passed;
    }
    if pass == MAX_VERIFY_PASSES {
        return VerifyStep::GiveUp { remaining: bad.len() };
    }
    let mut regions: Vec<RewriteRegion> = Vec::new();
    let mut i: usize = 0;
    while i < bad.len()
        invariant
            i <= bad@.len(),
            regions@.len() == i,
            forall|j: int|
                0 <= j < i ==> (#[trigger] regions@[j]) == (RewriteRegion {
                    offset: bad@[j].0,
                    len: bad@[j].1,
                    sector: spec_chunk_sector(start_sector, bad@[j].0),
                }),
        decreases bad@.len() - i,
    {
        let (offset, len) = bad[i];
        regions.push(RewriteRegion { offset, len, sector: chunk_sector(start_sector, offset) });
        i = i + 1;
    }
    VerifyStep::Rewrite(regions)
}

/// The metadata window starts at the image byte that is addressed at FES
/// logical sector 0; for an image written from the logical sector of
/// physical 0 with reserve `logic_offset`, that is byte `logic_offset * 512`,
/// i.e. physical sector `logic_offset`.
pub proof fn lemma_wrap_offset_is_logical_zero(logic_offset: u32)
    requires
        logic_offset != 0,
    ensures
        ({
            let start = spec_fes_logical_sector(0, logic_offset);
            &&& spec_metadata_wrap_offset(start) == Some((logic_offset * SECTOR_BYTES) as u64)
            &&& spec_chunk_sector(start, (logic_offset * SECTOR_BYTES) as u64) == 0
        }),
{
    let start = spec_fes_logical_sector(0, logic_offset);
    assert(start == sector_space() - logic_offset);
    let w = logic_offset * SECTOR_BYTES;
    assert(w / (SECTOR_BYTES as int) == logic_offset);
}

} // verus!
