//! GPT (GUID Partition Table) parser.
//!
//! Parses a GPT primary header (LBA1) plus its partition entry array; used to
//! locate a partition on the device by name.

use crate::bytes::{le_bytes_u32, bytes_at, read_u32, read_u64, spec_u32_le, spec_u64_le, spec_write_u32, write_u32};
use crate::error::{FlashError, GptFault};
use vstd::slice::{slice_subrange, slice_to_vec};
use vstd::prelude::*;

verus! {

/// `EFI PART`, the signature at the start of a GPT header.
pub const GPT_SIGNATURE: &'static str = "EFI PART";
pub const GPT_HEADER_SIZE: usize = 92;
pub const SECTOR_SIZE: u64 = 512;

// ---------------------------------------------------------------------------
// CRC-32 (IEEE 802.3, reflected, polynomial 0xEDB88320)
// ---------------------------------------------------------------------------

/// One shift of the reflected CRC register.
pub open spec fn crc_bit_step(c: u32) -> u32 {
    if c & 1 == 1 {
        (c >> 1) ^ 0xEDB8_8320u32
    } else {
        c >> 1
    }
}

/// `n` shifts of the CRC register.
pub open spec fn crc_bits(c: u32, n: nat) -> u32
    decreases n,
{
    if n == 0 {
        c
    } else {
        crc_bit_step(crc_bits(c, (n - 1) as nat))
    }
}

/// The register after absorbing one byte.
pub open spec fn crc_byte(c: u32, b: u8) -> u32 {
    crc_bits(c ^ (b as u32), 8)
}

/// The register after absorbing all of `s`, starting from all ones.
pub open spec fn crc_register(s: Seq<u8>) -> u32
    decreases s.len(),
{
    if s.len() == 0 {
        0xFFFF_FFFFu32
    } else {
        crc_byte(crc_register(s.drop_last()), s.last())
    }
}

/// CRC-32 of `s`: the final register, inverted.
pub open spec fn spec_crc32(s: Seq<u8>) -> u32 {
    !crc_register(s)
}

/// CRC-32 (IEEE 802.3, reflected, poly 0xEDB88320).
pub fn crc32(data: &[u8]) -> (crc: u32)
    ensures
        crc == spec_crc32(data@),
{
    let mut crc: u32 = 0xFFFF_FFFF;
    let mut i: usize = 0;
    while i < data.len()
        invariant
            i <= data@.len(),
            crc == crc_register(data@.take(i as int)),
        decreases data@.len() - i,
    {
        crc = crc ^ (data[i] as u32);
        let ghost start = crc;
        let mut k: u32 = 0;
        while k < 8
            invariant
                k <= 8,
                crc == crc_bits(start, k as nat),
            decreases 8 - k,
        {
            crc = if crc & 1 == 1 {
                (crc >> 1) ^ 0xEDB8_8320u32
            } else {
                crc >> 1
            };
            k = k + 1;
        }
        assert(data@.take(i + 1).drop_last() =~= data@.take(i as int));
        i = i + 1;
    }
    assert(data@.take(data@.len() as int) =~= data@);
    !crc
}

// ---------------------------------------------------------------------------
// Partition names: UTF-16LE, decoded with U+FFFD for unpaired surrogates
// ---------------------------------------------------------------------------

pub open spec fn is_high_surrogate(u: u16) -> bool {
    0xD800 <= u <= 0xDBFF
}

pub open spec fn is_low_surrogate(u: u16) -> bool {
    0xDC00 <= u <= 0xDFFF
}

/// The code point of a surrogate pair.
pub open spec fn surrogate_pair_point(hi: u16, lo: u16) -> u32 {
    (0x1_0000 + (hi - 0xD800) * 0x400 + (lo - 0xDC00)) as u32
}

/// UTF-16 decoding into code points, each unpaired surrogate becoming U+FFFD.
pub open spec fn utf16_lossy_points(u: Seq<u16>) -> Seq<u32>
    decreases u.len(),
{
    if u.len() == 0 {
        Seq::empty()
    } else if !is_high_surrogate(u[0]) && !is_low_surrogate(u[0]) {
        seq![u[0] as u32] + utf16_lossy_points(u.drop_first())
    } else if is_high_surrogate(u[0]) && u.len() >= 2 && is_low_surrogate(u[1]) {
        seq![surrogate_pair_point(u[0], u[1])] + utf16_lossy_points(u.skip(2))
    } else {
        seq![0xFFFDu32] + utf16_lossy_points(u.drop_first())
    }
}

/// The code points of a sequence of chars.
pub open spec fn char_points(cs: Seq<char>) -> Seq<u32> {
    cs.map_values(|c: char| c as u32)
}

/// Wraps `char::from_u32`: the char with code point `v`, if `v` is a Unicode
/// scalar value (not a surrogate, at most 0x10FFFF).
#[verifier::external_body]
fn char_from_u32(v: u32) -> (c: Option<char>)
    ensures
        c is Some <==> (v < 0xD800 || (0xE000 <= v && v <= 0x10FFFF)),
        c matches Some(ch) ==> ch as u32 == v,
{
    char::from_u32(v)
}

/// Wraps `String`'s `FromIterator<char>`: the string of exactly these chars,
/// in order.
#[verifier::external_body]
fn string_from_chars(chars: &Vec<char>) -> (s: String)
    ensures
        s@ == chars@,
{
    chars.iter().collect()
}

/// Decode UTF-16 units, replacing each unpaired surrogate with U+FFFD.
pub fn decode_utf16_lossy(units: &Vec<u16>) -> (s: String)
    ensures
        char_points(s@) == utf16_lossy_points(units@),
{
    let mut out: Vec<char> = Vec::new();
    let mut i: usize = 0;
    assert(units@.skip(0) =~= units@);
    assert(char_points(out@) =~= Seq::<u32>::empty());
    while i < units.len()
        invariant
            i <= units@.len(),
            char_points(out@) + utf16_lossy_points(units@.skip(i as int)) == utf16_lossy_points(
                units@,
            ),
        decreases units@.len() - i,
    {
        let ghost rest = units@.skip(i as int);
        let u = units[i];
        let point: u32;
        if u < 0xD800 || u > 0xDFFF {
            point = u as u32;
            i = i + 1;
            assert(rest.drop_first() =~= units@.skip(i as int));
        } else if u <= 0xDBFF && i + 1 < units.len() && units[i + 1] >= 0xDC00 && units[i + 1]
            <= 0xDFFF {
            let lo = units[i + 1];
            point = 0x1_0000 + ((u - 0xD800) as u32) * 0x400 + ((lo - 0xDC00) as u32);
            i = i + 2;
            assert(rest.skip(2) =~= units@.skip(i as int));
        } else {
            point = 0xFFFD;
            i = i + 1;
            assert(rest.drop_first() =~= units@.skip(i as int));
        }
        let c = char_from_u32(point);
        match c {
            Some(ch) => {
                let ghost before = out@;
                out.push(ch);
                assert(char_points(out@) =~= char_points(before) + seq![point]);
            },
            None => {
                assert(false);
            },
        }
    }
    assert(units@.skip(units@.len() as int) =~= Seq::<u16>::empty());
    string_from_chars(&out)
}

// ---------------------------------------------------------------------------
// Partitions
// ---------------------------------------------------------------------------

/// A single parsed GPT partition.
#[derive(Debug, Clone, PartialEq, Eq)]
pub struct GptPartition {
    pub name: String,
    pub first_lba: u64,
    pub last_lba: u64,
}

/// Inclusive sector count of `[first, last]`, saturating; 1 when `last < first`.
pub open spec fn spec_sector_count(first: u64, last: u64) -> u64 {
    if last < first {
        1
    } else if last - first + 1 > u64::MAX {
        u64::MAX
    } else {
        (last - first + 1) as u64
    }
}

impl GptPartition {
    /// Inclusive sector count [first_lba, last_lba].
    pub fn sector_count(&self) -> (n: u64)
        ensures
            n == spec_sector_count(self.first_lba, self.last_lba),
    {
        self.last_lba.saturating_sub(self.first_lba).saturating_add(1)
    }

    /// Capacity in bytes.
    pub fn size_bytes(&self) -> (n: u64)
        requires
            spec_sector_count(self.first_lba, self.last_lba) * SECTOR_SIZE <= u64::MAX,
        ensures
            n == spec_sector_count(self.first_lba, self.last_lba) * SECTOR_SIZE,
    {
        self.sector_count() * SECTOR_SIZE
    }
}

/// Parsed GPT: header fields needed to read entries, and the partitions.
#[derive(Debug, Clone)]
pub struct Gpt {
    pub partition_entries_lba: u64,
    pub num_entries: u32,
    pub entry_size: u32,
    pub partitions: Vec<GptPartition>,
}

/// `i` is the first index of a partition called `name`.
pub open spec fn is_first_named(parts: Seq<GptPartition>, name: Seq<char>, i: int) -> bool {
    &&& 0 <= i < parts.len()
    &&& parts[i].name@ == name
    &&& forall|j: int| 0 <= j < i ==> parts[j].name@ != name
}

/// Some partition is called `name`.
pub open spec fn has_named(parts: Seq<GptPartition>, name: Seq<char>) -> bool {
    exists|j: int| 0 <= j < parts.len() && parts[j].name@ == name
}

impl Gpt {
    /// Index of the first partition with exactly this name (case-sensitive).
    pub fn find_index(&self, name: &str) -> (r: Option<usize>)
        ensures
            r matches Some(i) ==> is_first_named(self.partitions@, name@, i as int),
            r is None <==> !has_named(self.partitions@, name@),
    {
        let target = name.to_owned();
        let mut i: usize = 0;
        while i < self.partitions.len()
            invariant
                i <= self.partitions@.len(),
                target@ == name@,
                forall|j: int| 0 <= j < i ==> self.partitions@[j].name@ != name@,
            decreases self.partitions@.len() - i,
        {
            if self.partitions[i].name == target {
                return Some(i);
            }
            i = i + 1;
        }
        None
    }

    /// Find a partition by exact name (case-sensitive).
    pub fn find(&self, name: &str) -> (r: Option<&GptPartition>)
        ensures
            r matches Some(p) ==> exists|i: int|
                is_first_named(self.partitions@, name@, i) && self.partitions@[i] == *p,
            r is None <==> !has_named(self.partitions@, name@),
    {
        match self.find_index(name) {
            Some(i) => Some(&self.partitions[i]),
            None => None,
        }
    }

    /// All partition names, in table order.
    pub fn names(&self) -> (r: Vec<String>)
        ensures
            r@.len() == self.partitions@.len(),
            forall|i: int| 0 <= i < r@.len() ==> r@[i]@ == self.partitions@[i].name@,
    {
        let mut out: Vec<String> = Vec::new();
        let mut i: usize = 0;
        while i < self.partitions.len()
            invariant
                i <= self.partitions@.len(),
                out@.len() == i,
                forall|k: int| 0 <= k < i ==> out@[k]@ == self.partitions@[k].name@,
            decreases self.partitions@.len() - i,
        {
            out.push(self.partitions[i].name.clone());
            i = i + 1;
        }
        out
    }
}

// ---------------------------------------------------------------------------
// Header
// ---------------------------------------------------------------------------

/// `EFI PART`.
pub open spec fn gpt_signature() -> Seq<u8> {
    seq![0x45u8, 0x46, 0x49, 0x20, 0x50, 0x41, 0x52, 0x54]
}

/// The first `header_size` bytes of LBA1 with the CRC field (bytes 16..20)
/// set to zero: the bytes the header CRC covers.
pub open spec fn crc_covered_header(lba1: Seq<u8>, header_size: int) -> Seq<u8> {
    spec_write_u32(lba1.take(header_size), 16, 0)
}

/// The header fields kept from a valid LBA1:
/// (partition_entries_lba, num_entries, entry_size).
pub open spec fn spec_parse_header(lba1: Seq<u8>) -> Result<(u64, u32, u32), GptFault> {
    if lba1.len() < GPT_HEADER_SIZE {
        Err(GptFault::HeaderTooSmall)
    } else if lba1.take(8) != gpt_signature() {
        Err(GptFault::BadSignature)
    } else {
        let header_size = spec_u32_le(lba1, 12);
        if header_size < GPT_HEADER_SIZE || header_size > lba1.len() {
            Err(GptFault::BadHeaderSize(header_size))
        } else {
            let stored = spec_u32_le(lba1, 16);
            let calc = spec_crc32(crc_covered_header(lba1, header_size as int));
            if calc != stored {
                Err(GptFault::HeaderCrcMismatch { stored, calc })
            } else {
                Ok((spec_u64_le(lba1, 72), spec_u32_le(lba1, 80), spec_u32_le(lba1, 84)))
            }
        }
    }
}

/// Parse the GPT header (LBA1, 512 bytes) without entries.
/// Validates signature and header CRC-32.
pub fn parse_header(lba1: &[u8]) -> (r: Result<Gpt, FlashError>)
    ensures
        match (r, spec_parse_header(lba1@)) {
            (Ok(gpt), Ok((lba, num, size))) => {
                &&& gpt.partition_entries_lba == lba
                &&& gpt.num_entries == num
                &&& gpt.entry_size == size
                &&& gpt.partitions@.len() == 0
            },
            (Err(e), Err(fault)) => e == FlashError::GptInvalid(fault),
            _ => false,
        },
{
    if lba1.len() < GPT_HEADER_SIZE {
        return Err(FlashError::GptInvalid(GptFault::HeaderTooSmall));
    }
    let sig: Vec<u8> = vec![0x45u8, 0x46, 0x49, 0x20, 0x50, 0x41, 0x52, 0x54];
    assert(sig@ == gpt_signature());
    if !bytes_at(lba1, 0, sig.as_slice()) {
        assert(lba1@.subrange(0, 8) =~= lba1@.take(8));
        return Err(FlashError::GptInvalid(GptFault::BadSignature));
    }
    assert(lba1@.subrange(0, 8) =~= lba1@.take(8));
    let header_size = read_u32(lba1, 12);
    if header_size < GPT_HEADER_SIZE as u32 || header_size as usize > lba1.len() {
        return Err(FlashError::GptInvalid(GptFault::BadHeaderSize(header_size)));
    }
    let stored_crc = read_u32(lba1, 16);
    let mut hdr = slice_to_vec(slice_subrange(lba1, 0, header_size as usize));
    assert(hdr@ =~= lba1@.take(header_size as int));
    write_u32(&mut hdr, 16, 0);
    let calc_crc = crc32(hdr.as_slice());
    if calc_crc != stored_crc {
        return Err(
            FlashError::GptInvalid(GptFault::HeaderCrcMismatch { stored: stored_crc, calc: calc_crc }),
        );
    }
    Ok(
        Gpt {
            partition_entries_lba: read_u64(lba1, 72),
            num_entries: read_u32(lba1, 80),
            entry_size: read_u32(lba1, 84),
            partitions: Vec::new(),
        },
    )
}

// ---------------------------------------------------------------------------
// Entry array
// ---------------------------------------------------------------------------

/// What the entry parser checks before reading any entry.
pub open spec fn spec_check_entries(
    entry_size: u32,
    num_entries: u32,
    lba1: Seq<u8>,
    entries: Seq<u8>,
) -> Result<(), GptFault> {
    if lba1.len() < GPT_HEADER_SIZE {
        Err(GptFault::Lba1TooSmall)
    } else if entry_size < 128 {
        Err(GptFault::BadEntrySize(entry_size))
    } else if entries.len() < entry_size * num_entries {
        Err(GptFault::EntryBufferTooSmall)
    } else {
        let stored = spec_u32_le(lba1, 88);
        let calc = spec_crc32(entries.take(entry_size * num_entries));
        if calc != stored {
            Err(GptFault::EntriesCrcMismatch { stored, calc })
        } else {
            Ok(())
        }
    }
}

/// Entry `i` of an array of `entry_size`-byte entries.
pub open spec fn entry_bytes(entries: Seq<u8>, entry_size: int, i: int) -> Seq<u8> {
    entries.subrange(i * entry_size, i * entry_size + entry_size)
}

/// An entry is used unless its type GUID (bytes 0..16) is all zero.
pub open spec fn entry_in_use(e: Seq<u8>) -> bool {
    exists|k: int| 0 <= k < 16 && e[k] != 0
}

/// The 36 UTF-16LE code units of the name field (bytes 56..128).
pub open spec fn entry_name_units(e: Seq<u8>) -> Seq<u16> {
    Seq::new(36, |j: int| (e[56 + 2 * j] + 0x100 * e[57 + 2 * j]) as u16)
}

/// The units before the first zero unit.
pub open spec fn until_nul(u: Seq<u16>) -> Seq<u16>
    decreases u.len(),
{
    if u.len() == 0 || u[0] == 0 {
        Seq::empty()
    } else {
        seq![u[0]] + until_nul(u.drop_first())
    }
}

/// The code points of an entry's name.
pub open spec fn entry_name_points(e: Seq<u8>) -> Seq<u32> {
    utf16_lossy_points(until_nul(entry_name_units(e)))
}

/// `p` is what entry `e` describes.
pub open spec fn describes_entry(p: GptPartition, e: Seq<u8>) -> bool {
    &&& char_points(p.name@) == entry_name_points(e)
    &&& p.first_lba == spec_u64_le(e, 32)
    &&& p.last_lba == spec_u64_le(e, 40)
}

/// Indices, in order, of the used entries among the first `n`.
pub open spec fn used_entries(entries: Seq<u8>, entry_size: int, n: nat) -> Seq<int>
    decreases n,
{
    if n == 0 {
        Seq::empty()
    } else {
        let prev = used_entries(entries, entry_size, (n - 1) as nat);
        if entry_in_use(entry_bytes(entries, entry_size, n - 1)) {
            prev.push(n - 1)
        } else {
            prev
        }
    }
}

/// `parts` is `old` followed by one partition per used entry, in entry order.
pub open spec fn appends_entries(
    old: Seq<GptPartition>,
    parts: Seq<GptPartition>,
    entries: Seq<u8>,
    entry_size: int,
    num_entries: nat,
) -> bool {
    let used = used_entries(entries, entry_size, num_entries);
    &&& parts.len() == old.len() + used.len()
    &&& forall|k: int| 0 <= k < old.len() ==> parts[k] == old[k]
    &&& forall|k: int|
        0 <= k < used.len() ==> describes_entry(
            #[trigger] parts[old.len() + k],
            entry_bytes(entries, entry_size, used[k]),
        )
}

proof fn lemma_until_nul(u: Seq<u16>, j: int)
    requires
        0 <= j <= u.len(),
        j == u.len() || u[j] == 0,
        forall|k: int| 0 <= k < j ==> u[k] != 0,
    ensures
        until_nul(u) == u.take(j),
    decreases j,
{
    if j == 0 {
        assert(u.take(0) =~= Seq::<u16>::empty());
    } else {
        lemma_until_nul(u.drop_first(), j - 1);
        assert(seq![u[0]] + u.drop_first().take(j - 1) =~= u.take(j));
    }
}

/// Decode the partition described by one used entry.
fn parse_one_entry(e: &[u8]) -> (p: GptPartition)
    requires
        e@.len() >= 128,
    ensures
        describes_entry(p, e@),
{
    let first_lba = read_u64(e, 32);
    let last_lba = read_u64(e, 40);
    let ghost all = entry_name_units(e@);
    let mut units: Vec<u16> = Vec::new();
    let mut j: usize = 0;
    while j < 36
        invariant
            j <= 36,
            e@.len() >= 128,
            all == entry_name_units(e@),
            units@ == all.take(j as int),
            forall|k: int| 0 <= k < j ==> all[k] != 0,
        ensures
            j <= 36,
            units@ == all.take(j as int),
            forall|k: int| 0 <= k < j ==> all[k] != 0,
            j == 36 || all[j as int] == 0,
        decreases 36 - j,
    {
        let u: u16 = (e[56 + 2 * j] as u16) + 0x100 * (e[57 + 2 * j] as u16);
        assert(u == all[j as int]);
        if u == 0 {
            break;
        }
        units.push(u);
        assert(units@ =~= all.take(j + 1));
        j = j + 1;
    }
    proof {
        lemma_until_nul(all, j as int);
    }
    let name = decode_utf16_lossy(&units);
    GptPartition { name, first_lba, last_lba }
}

/// Whether the type GUID (bytes 0..16) of an entry is non-zero.
fn entry_used(e: &[u8]) -> (r: bool)
    requires
        e@.len() >= 16,
    ensures
        r == entry_in_use(e@),
{
    let mut k: usize = 0;
    while k < 16
        invariant
            k <= 16,
            e@.len() >= 16,
            forall|j: int| 0 <= j < k ==> e@[j] == 0,
        decreases 16 - k,
    {
        if e[k] != 0 {
            return true;
        }
        k = k + 1;
    }
    false
}

/// Parse the partition entry array into `gpt.partitions`.
/// `entries` must contain at least `num_entries * entry_size` bytes.
/// Validates the entries CRC-32 against the value stored in `lba1`.
pub fn parse_entries(gpt: &mut Gpt, lba1: &[u8], entries: &[u8]) -> (r: Result<(), FlashError>)
    ensures
        match spec_check_entries(old(gpt).entry_size, old(gpt).num_entries, lba1@, entries@) {
            Err(fault) => r == Err::<(), FlashError>(FlashError::GptInvalid(fault)) && *final(gpt)
                == *old(gpt),
            Ok(()) => {
                &&& r is Ok
                &&& final(gpt).partition_entries_lba == old(gpt).partition_entries_lba
                &&& final(gpt).num_entries == old(gpt).num_entries
                &&& final(gpt).entry_size == old(gpt).entry_size
                &&& appends_entries(
                    old(gpt).partitions@,
                    final(gpt).partitions@,
                    entries@,
                    old(gpt).entry_size as int,
                    old(gpt).num_entries as nat,
                )
            },
        },
{
    if lba1.len() < GPT_HEADER_SIZE {
        return Err(FlashError::GptInvalid(GptFault::Lba1TooSmall));
    }
    let entry_size = gpt.entry_size;
    let num = gpt.num_entries;
    if entry_size < 128 {
        return Err(FlashError::GptInvalid(GptFault::BadEntrySize(entry_size)));
    }
    assert((entry_size as u64) * (num as u64) <= u64::MAX) by (nonlinear_arith)
        requires
            entry_size <= u32::MAX,
            num <= u32::MAX,
    ;
    let needed: u64 = (entry_size as u64) * (num as u64);
    if (entries.len() as u64) < needed {
        return Err(FlashError::GptInvalid(GptFault::EntryBufferTooSmall));
    }
    let stored_entries_crc = read_u32(lba1, 88);
    let calc = crc32(slice_subrange(entries, 0, needed as usize));
    assert(entries@.subrange(0, needed as int) =~= entries@.take(needed as int));
    if calc != stored_entries_crc {
        return Err(
            FlashError::GptInvalid(
                GptFault::EntriesCrcMismatch { stored: stored_entries_crc, calc },
            ),
        );
    }
    let ghost es = entry_size as int;
    let ghost old_parts = gpt.partitions@;
    let es_usize = entry_size as usize;
    let mut i: u32 = 0;
    let mut base: usize = 0;
    while i < num
        invariant
            i <= num,
            num == old(gpt).num_entries,
            entry_size == old(gpt).entry_size,
            es == entry_size as int,
            es_usize == entry_size as usize,
            es >= 128,
            base == i * es,
            es * num <= entries.len(),
            gpt.partition_entries_lba == old(gpt).partition_entries_lba,
            gpt.num_entries == old(gpt).num_entries,
            gpt.entry_size == old(gpt).entry_size,
            old_parts == old(gpt).partitions@,
            appends_entries(old_parts, gpt.partitions@, entries@, es, i as nat),
        decreases num - i,
    {
        assert(base + es <= es * num) by (nonlinear_arith)
            requires
                base == i * es,
                i < num,
                es >= 0,
        ;
        let e = slice_subrange(entries, base, base + es_usize);
        assert(e@ == entry_bytes(entries@, es, i as int));
        let ghost before = gpt.partitions@;
        if entry_used(e) {
            let p = parse_one_entry(e);
            gpt.partitions.push(p);
            proof {
                let used = used_entries(entries@, es, (i + 1) as nat);
                assert(used == used_entries(entries@, es, i as nat).push(i as int));
                assert forall|k: int| 0 <= k < used.len() implies describes_entry(
                    #[trigger] gpt.partitions@[old_parts.len() + k],
                    entry_bytes(entries@, es, used[k]),
                ) by {
                    if k < used.len() - 1 {
                        assert(gpt.partitions@[old_parts.len() + k] == before[old_parts.len()
                            + k]);
                    }
                }
            }
        } else {
            assert(used_entries(entries@, es, (i + 1) as nat) == used_entries(
                entries@,
                es,
                i as nat,
            ));
        }
        assert((i + 1) * es == i * es + es) by (nonlinear_arith);
        base = base + es_usize;
        i = i + 1;
    }
    Ok(())
}

/// The stored header CRC (bytes 16..20) is not part of what it checks: a
/// valid header whose stored CRC is changed, and nothing else, is rejected
/// with a header CRC mismatch.
pub proof fn lemma_stored_crc_change_detected(lba1: Seq<u8>, tampered: Seq<u8>)
    requires
        spec_parse_header(lba1) is Ok,
        tampered.len() == lba1.len(),
        forall|k: int| 0 <= k < lba1.len() && !(16 <= k < 20) ==> tampered[k] == lba1[k],
        spec_u32_le(tampered, 16) != spec_u32_le(lba1, 16),
    ensures
        spec_parse_header(tampered) matches Err(GptFault::HeaderCrcMismatch { stored, calc })
            && stored == spec_u32_le(tampered, 16) && calc == spec_crc32(
            crc_covered_header(lba1, spec_u32_le(lba1, 12) as int),
        ),
{
    assert(tampered.take(8) =~= lba1.take(8));
    assert(spec_u32_le(tampered, 12) == spec_u32_le(lba1, 12));
    let hs = spec_u32_le(lba1, 12) as int;
    assert(crc_covered_header(tampered, hs) =~= crc_covered_header(lba1, hs));
}

/// Names without surrogate code units decode unit for unit.
pub proof fn lemma_bmp_units_decode_verbatim(u: Seq<u16>)
    requires
        forall|k: int| 0 <= k < u.len() ==> !(0xD800 <= #[trigger] u[k] <= 0xDFFF),
    ensures
        utf16_lossy_points(u) == u.map_values(|x: u16| x as u32),
    decreases u.len(),
{
    if u.len() > 0 {
        lemma_bmp_units_decode_verbatim(u.drop_first());
        assert(u.map_values(|x: u16| x as u32) =~= seq![u[0] as u32] + u.drop_first().map_values(
            |x: u16| x as u32,
        ));
    } else {
        assert(u.map_values(|x: u16| x as u32) =~= Seq::<u32>::empty());
    }
}

// ---------------------------------------------------------------------------
// CRC-32 detects every single-byte change
// ---------------------------------------------------------------------------

proof fn lemma_bit_step_xor(a: u32, b: u32)
    ensures
        crc_bit_step(a ^ b) == crc_bit_step(a) ^ crc_bit_step(b),
{
    assert(crc_bit_step(a ^ b) == crc_bit_step(a) ^ crc_bit_step(b)) by (bit_vector);
}

proof fn lemma_bit_step_nonzero(a: u32)
    requires
        a != 0,
    ensures
        crc_bit_step(a) != 0,
{
    assert(a != 0 ==> crc_bit_step(a) != 0) by (bit_vector);
}

proof fn lemma_bits_xor(a: u32, b: u32, n: nat)
    ensures
        crc_bits(a ^ b, n) == crc_bits(a, n) ^ crc_bits(b, n),
    decreases n,
{
    if n > 0 {
        lemma_bits_xor(a, b, (n - 1) as nat);
        lemma_bit_step_xor(crc_bits(a, (n - 1) as nat), crc_bits(b, (n - 1) as nat));
    }
}

proof fn lemma_bits_nonzero(a: u32, n: nat)
    requires
        a != 0,
    ensures
        crc_bits(a, n) != 0,
    decreases n,
{
    if n > 0 {
        lemma_bits_nonzero(a, (n - 1) as nat);
        lemma_bit_step_nonzero(crc_bits(a, (n - 1) as nat));
    }
}

/// Absorbing the same byte into two different registers keeps them different.
proof fn lemma_byte_keeps_difference(c1: u32, c2: u32, b1: u8, b2: u8)
    requires
        c1 ^ (b1 as u32) != c2 ^ (b2 as u32),
    ensures
        crc_byte(c1, b1) != crc_byte(c2, b2),
{
    let x = c1 ^ (b1 as u32);
    let y = c2 ^ (b2 as u32);
    lemma_bits_xor(x, y, 8);
    assert(x ^ y != 0) by (bit_vector)
        requires
            x != y,
    ;
    lemma_bits_nonzero(x ^ y, 8);
    assert(crc_bits(x, 8) != crc_bits(y, 8)) by (bit_vector)
        requires
            crc_bits(x, 8) ^ crc_bits(y, 8) != 0,
    ;
}

proof fn lemma_register_differs(s: Seq<u8>, t: Seq<u8>, k: int, j: int)
    requires
        s.len() == t.len(),
        0 <= k < j <= s.len(),
        s[k] != t[k],
        forall|i: int| 0 <= i < s.len() && i != k ==> s[i] == t[i],
    ensures
        crc_register(s.take(j)) != crc_register(t.take(j)),
    decreases j,
{
    assert(s.take(j).drop_last() =~= s.take(j - 1));
    assert(t.take(j).drop_last() =~= t.take(j - 1));
    if j == k + 1 {
        assert(s.take(k) =~= t.take(k));
        let c = crc_register(s.take(k));
        let a = s[k];
        let b = t[k];
        assert(c ^ (a as u32) != c ^ (b as u32)) by (bit_vector)
            requires
                a != b,
        ;
        lemma_byte_keeps_difference(c, c, a, b);
    } else {
        lemma_register_differs(s, t, k, j - 1);
        let c1 = crc_register(s.take(j - 1));
        let c2 = crc_register(t.take(j - 1));
        let b = s[j - 1];
        assert(t[j - 1] == b);
        assert(c1 ^ (b as u32) != c2 ^ (b as u32)) by (bit_vector)
            requires
                c1 != c2,
        ;
        lemma_byte_keeps_difference(c1, c2, b, b);
    }
}

/// CRC-32 tells apart any two equally long byte strings that differ in
/// exactly one byte.
pub proof fn lemma_crc32_detects_single_byte_change(s: Seq<u8>, t: Seq<u8>, k: int)
    requires
        s.len() == t.len(),
        0 <= k < s.len(),
        s[k] != t[k],
        forall|i: int| 0 <= i < s.len() && i != k ==> s[i] == t[i],
    ensures
        spec_crc32(s) != spec_crc32(t),
{
    lemma_register_differs(s, t, k, s.len() as int);
    assert(s.take(s.len() as int) =~= s);
    assert(t.take(t.len() as int) =~= t);
    let a = crc_register(s);
    let b = crc_register(t);
    assert(!a != !b) by (bit_vector)
        requires
            a != b,
    ;
}

/// A valid entry array with one of its CRC-covered bytes changed is rejected
/// with an entries CRC mismatch.
pub proof fn lemma_entry_byte_change_detected(
    entry_size: u32,
    num_entries: u32,
    lba1: Seq<u8>,
    entries: Seq<u8>,
    changed: Seq<u8>,
    k: int,
)
    requires
        spec_check_entries(entry_size, num_entries, lba1, entries) is Ok,
        changed.len() == entries.len(),
        0 <= k < entry_size * num_entries,
        changed[k] != entries[k],
        forall|i: int| 0 <= i < entries.len() && i != k ==> changed[i] == entries[i],
    ensures
        spec_check_entries(entry_size, num_entries, lba1, changed) matches Err(
            GptFault::EntriesCrcMismatch { .. },
        ),
{
    let n = entry_size * num_entries;
    lemma_crc32_detects_single_byte_change(entries.take(n), changed.take(n), k);
}

/// A valid GPT header with one byte changed among those its CRC covers and no
/// other check reads (bytes 8..12 and 20..header_size) is rejected with a
/// header CRC mismatch.
pub proof fn lemma_header_byte_change_detected(lba1: Seq<u8>, changed: Seq<u8>, k: int)
    requires
        spec_parse_header(lba1) is Ok,
        changed.len() == lba1.len(),
        (8 <= k < 12) || (20 <= k < spec_u32_le(lba1, 12)),
        changed[k] != lba1[k],
        forall|i: int| 0 <= i < lba1.len() && i != k ==> changed[i] == lba1[i],
    ensures
        spec_parse_header(changed) matches Err(GptFault::HeaderCrcMismatch { .. }),
{
    assert(changed.take(8) =~= lba1.take(8));
    assert(spec_u32_le(changed, 12) == spec_u32_le(lba1, 12));
    assert(spec_u32_le(changed, 16) == spec_u32_le(lba1, 16));
    let hs = spec_u32_le(lba1, 12) as int;
    let a = crc_covered_header(lba1, hs);
    let b = crc_covered_header(changed, hs);
    assert(a.len() == b.len());
    assert(a[k] == lba1[k] && b[k] == changed[k]);
    assert forall|i: int| 0 <= i < a.len() && i != k implies b[i] == a[i] by {
        if 16 <= i < 20 {
        } else {
            assert(b[i] == changed[i] && a[i] == lba1[i]);
        }
    }
    lemma_crc32_detects_single_byte_change(a, b, k);
}

// ---------------------------------------------------------------------------
// CRC-32 residue
// ---------------------------------------------------------------------------

/// Eight register shifts, written out.
spec fn crc_eight_steps(c: u32) -> u32 {
    crc_bit_step(
        crc_bit_step(
            crc_bit_step(crc_bit_step(crc_bit_step(crc_bit_step(crc_bit_step(crc_bit_step(c)))))),
        ),
    )
}

proof fn lemma_crc_bits_eight(c: u32)
    ensures
        crc_bits(c, 8) == crc_eight_steps(c),
{
    reveal_with_fuel(crc_bits, 9);
}

/// Appending the little-endian CRC-32 of a message to it gives the fixed
/// residue 0x2144DF1C.
pub proof fn lemma_crc32_residue(s: Seq<u8>)
    ensures
        spec_crc32(s + le_bytes_u32(spec_crc32(s))) == 0x2144_DF1Cu32,
{
    let r = crc_register(s);
    let v = spec_crc32(s);
    let le = le_bytes_u32(v);
    let t = s + le;
    assert(t.drop_last() =~= s + le.take(3));
    assert((s + le.take(3)).drop_last() =~= s + le.take(2));
    assert((s + le.take(2)).drop_last() =~= s + le.take(1));
    assert((s + le.take(1)).drop_last() =~= s);
    let y0 = (v % 0x100) as u8;
    let y1 = ((v / 0x100) % 0x100) as u8;
    let y2 = ((v / 0x1_0000) % 0x100) as u8;
    let y3 = (v / 0x100_0000) as u8;
    let q1 = crc_byte(r, y0);
    let q2 = crc_byte(q1, y1);
    let q3 = crc_byte(q2, y2);
    let q4 = crc_byte(q3, y3);
    assert(crc_register(s + le.take(1)) == q1);
    assert(crc_register(s + le.take(2)) == q2);
    assert(crc_register(s + le.take(3)) == q3);
    assert(crc_register(t) == q4);
    lemma_crc_bits_eight(r ^ (y0 as u32));
    lemma_crc_bits_eight(q1 ^ (y1 as u32));
    lemma_crc_bits_eight(q2 ^ (y2 as u32));
    lemma_crc_bits_eight(q3 ^ (y3 as u32));
    assert(v == !r);
    assert(v & 0xFF == v % 0x100) by (bit_vector);
    assert((v >> 8) & 0xFF == (v / 0x100) % 0x100) by (bit_vector);
    assert((v >> 16) & 0xFF == (v / 0x1_0000) % 0x100) by (bit_vector);
    assert(v >> 24 == v / 0x100_0000) by (bit_vector);
    let a0 = r ^ ((!r) & 0xFF);
    let a1 = crc_bit_step(a0);
    let a2 = crc_bit_step(a1);
    let a3 = crc_bit_step(a2);
    let a4 = crc_bit_step(a3);
    let a5 = crc_bit_step(a4);
    let a6 = crc_bit_step(a5);
    let a7 = crc_bit_step(a6);
    let a8 = crc_bit_step(a7);
    assert(crc_eight_steps(a0) == a8);
    let b0 = a8 ^ (((!r) >> 8) & 0xFF);
    let b1 = crc_bit_step(b0);
    let b2 = crc_bit_step(b1);
    let b3 = crc_bit_step(b2);
    let b4 = crc_bit_step(b3);
    let b5 = crc_bit_step(b4);
    let b6 = crc_bit_step(b5);
    let b7 = crc_bit_step(b6);
    let b8 = crc_bit_step(b7);
    assert(crc_eight_steps(b0) == b8);
    let c0 = b8 ^ (((!r) >> 16) & 0xFF);
    let c1 = crc_bit_step(c0);
    let c2 = crc_bit_step(c1);
    let c3 = crc_bit_step(c2);
    let c4 = crc_bit_step(c3);
    let c5 = crc_bit_step(c4);
    let c6 = crc_bit_step(c5);
    let c7 = crc_bit_step(c6);
    let c8 = crc_bit_step(c7);
    assert(crc_eight_steps(c0) == c8);
    let d0 = c8 ^ ((!r) >> 24);
    let d1 = crc_bit_step(d0);
    let d2 = crc_bit_step(d1);
    let d3 = crc_bit_step(d2);
    let d4 = crc_bit_step(d3);
    let d5 = crc_bit_step(d4);
    let d6 = crc_bit_step(d5);
    let d7 = crc_bit_step(d6);
    let d8 = crc_bit_step(d7);
    assert(crc_eight_steps(d0) == d8);
    assert(!d8 == 0x2144_DF1Cu32) by (bit_vector)
        requires
            a0 == r ^ ((!r) & 0xFF),
            a1 == crc_bit_step(a0),
            a2 == crc_bit_step(a1),
            a3 == crc_bit_step(a2),
            a4 == crc_bit_step(a3),
            a5 == crc_bit_step(a4),
            a6 == crc_bit_step(a5),
            a7 == crc_bit_step(a6),
            a8 == crc_bit_step(a7),
            b0 == a8 ^ (((!r) >> 8) & 0xFF),
            b1 == crc_bit_step(b0),
            b2 == crc_bit_step(b1),
            b3 == crc_bit_step(b2),
            b4 == crc_bit_step(b3),
            b5 == crc_bit_step(b4),
            b6 == crc_bit_step(b5),
            b7 == crc_bit_step(b6),
            b8 == crc_bit_step(b7),
            c0 == b8 ^ (((!r) >> 16) & 0xFF),
            c1 == crc_bit_step(c0),
            c2 == crc_bit_step(c1),
            c3 == crc_bit_step(c2),
            c4 == crc_bit_step(c3),
            c5 == crc_bit_step(c4),
            c6 == crc_bit_step(c5),
            c7 == crc_bit_step(c6),
            c8 == crc_bit_step(c7),
            d0 == c8 ^ ((!r) >> 24),
            d1 == crc_bit_step(d0),
            d2 == crc_bit_step(d1),
            d3 == crc_bit_step(d2),
            d4 == crc_bit_step(d3),
            d5 == crc_bit_step(d4),
            d6 == crc_bit_step(d5),
            d7 == crc_bit_step(d6),
            d8 == crc_bit_step(d7),
    ;
}

} // verus!
