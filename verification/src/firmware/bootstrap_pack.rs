//! Build a minimal IMAGEWTY "bootstrap" firmware from a full LiveSuit image.
//!
//! Keeps only the items needed to bring a device from FEL into FES (fes1,
//! u-boot, sys_config, board config, dtb) and lays them out again in an
//! IMAGEWTY container of the same header version, with recomputed offsets.

use crate::bytes::{
    bytes_at, lemma_read_after_write_u32, read_u32, spec_u32_le, spec_write_u32, write_u32,
};
use crate::firmware::image_data::{
    entry_maintype, entry_name, entry_name_string, entry_subtype, maintype_bytes, subtype_bytes,
    BootstrapEntry,
};
use vstd::arithmetic::div_mod::lemma_add_mod_noop;
use vstd::prelude::*;
use vstd::slice::{slice_subrange, slice_to_vec};

verus! {

/// Size of the image header and of each file header.
pub const HDR_LEN: usize = 1024;

/// `IMAGEWTY`.
pub open spec fn imagewty_magic() -> Seq<u8> {
    seq![0x49u8, 0x4d, 0x41, 0x47, 0x45, 0x57, 0x54, 0x59]
}

/// 2^32, the range of the container's 32-bit fields.
pub open spec fn field_range() -> int {
    0x1_0000_0000
}

/// Byte offsets that differ between IMAGEWTY header versions.
#[derive(Debug, Clone, Copy, PartialEq, Eq)]
pub struct VersionLayout {
    /// num_files field offset within the image header
    pub num_files: usize,
    /// data-length field offset within a file header
    pub orig_len: usize,
    /// data offset field within a file header
    pub data_off: usize,
}

/// Version 0x0300 uses the v3 offsets; every other version the v1 offsets.
pub open spec fn spec_version_layout(header_version: u32) -> VersionLayout {
    if header_version == 0x0300 {
        VersionLayout { num_files: 60, orig_len: 300, data_off: 308 }
    } else {
        VersionLayout { num_files: 56, orig_len: 40, data_off: 44 }
    }
}

/// The field offsets of an IMAGEWTY header version.
pub fn version_layout(header_version: u32) -> (l: VersionLayout)
    ensures
        l == spec_version_layout(header_version),
{
    if header_version == 0x0300 {
        VersionLayout { num_files: 60, orig_len: 300, data_off: 308 }
    } else {
        VersionLayout { num_files: 56, orig_len: 40, data_off: 44 }
    }
}

/// A tag with its trailing NULs and spaces removed.
pub open spec fn trim_tag(s: Seq<u8>) -> Seq<u8>
    decreases s.len(),
{
    if s.len() > 0 && (s.last() == 0 || s.last() == 0x20) {
        trim_tag(s.drop_last())
    } else {
        s
    }
}

/// The bytes of a tag field without trailing NULs and spaces.
pub fn tag_bytes(b: &[u8]) -> (r: Vec<u8>)
    ensures
        r@ == trim_tag(b@),
{
    let mut n: usize = b.len();
    assert(b@.take(n as int) =~= b@);
    while n > 0 && (b[n - 1] == 0 || b[n - 1] == 0x20)
        invariant
            n <= b@.len(),
            trim_tag(b@) == trim_tag(b@.take(n as int)),
        decreases n,
    {
        assert(b@.take(n as int).drop_last() =~= b@.take(n - 1));
        n = n - 1;
    }
    let r = slice_to_vec(slice_subrange(b, 0, n));
    assert(r@ =~= b@.take(n as int));
    r
}

/// The file header names item `e`.
pub open spec fn header_names(fh: Seq<u8>, e: BootstrapEntry) -> bool {
    &&& trim_tag(fh.subrange(8, 16)) == entry_maintype(e)
    &&& trim_tag(fh.subrange(16, 32)) == entry_subtype(e)
}

/// The bootstrap item a file header names, looked up in the order fes,
/// uboot, sys_config_bin, board_config, dtb.
#[verifier::opaque]
pub open spec fn header_entry(fh: Seq<u8>) -> Option<BootstrapEntry> {
    if header_names(fh, BootstrapEntry::Fes) {
        Some(BootstrapEntry::Fes)
    } else if header_names(fh, BootstrapEntry::Uboot) {
        Some(BootstrapEntry::Uboot)
    } else if header_names(fh, BootstrapEntry::SysConfigBin) {
        Some(BootstrapEntry::SysConfigBin)
    } else if header_names(fh, BootstrapEntry::BoardConfig) {
        Some(BootstrapEntry::BoardConfig)
    } else if header_names(fh, BootstrapEntry::Dtb) {
        Some(BootstrapEntry::Dtb)
    } else {
        None
    }
}

fn same_bytes(a: &Vec<u8>, b: &Vec<u8>) -> (r: bool)
    ensures
        r == (a@ == b@),
{
    if a.len() != b.len() {
        return false;
    }
    let r = bytes_at(a.as_slice(), 0, b.as_slice());
    assert(a@.subrange(0, b@.len() as int) =~= a@);
    r
}

fn names_entry(mt: &Vec<u8>, st: &Vec<u8>, e: BootstrapEntry) -> (r: bool)
    ensures
        r == (mt@ == entry_maintype(e) && st@ == entry_subtype(e)),
{
    same_bytes(mt, &maintype_bytes(e)) && same_bytes(st, &subtype_bytes(e))
}

/// The bootstrap item a 1024-byte file header names, if any.
pub fn match_header(fh: &[u8]) -> (r: Option<BootstrapEntry>)
    requires
        fh@.len() >= 32,
    ensures
        r == header_entry(fh@),
{
    reveal(header_entry);
    let mt = tag_bytes(slice_subrange(fh, 8, 16));
    let st = tag_bytes(slice_subrange(fh, 16, 32));
    if names_entry(&mt, &st, BootstrapEntry::Fes) {
        Some(BootstrapEntry::Fes)
    } else if names_entry(&mt, &st, BootstrapEntry::Uboot) {
        Some(BootstrapEntry::Uboot)
    } else if names_entry(&mt, &st, BootstrapEntry::SysConfigBin) {
        Some(BootstrapEntry::SysConfigBin)
    } else if names_entry(&mt, &st, BootstrapEntry::BoardConfig) {
        Some(BootstrapEntry::BoardConfig)
    } else if names_entry(&mt, &st, BootstrapEntry::Dtb) {
        Some(BootstrapEntry::Dtb)
    } else {
        None
    }
}

/// A file kept for the bootstrap image: its 1024-byte file header, its data,
/// and the item it is.
pub struct KeptFile {
    pub header: Seq<u8>,
    pub data: Seq<u8>,
    pub entry: BootstrapEntry,
}

/// File header `i` of the container (it follows the image header).
pub open spec fn file_header_at(input: Seq<u8>, i: int) -> Seq<u8> {
    input.subrange(HDR_LEN * (i + 1), HDR_LEN * (i + 2))
}

/// The files kept among the first `n` file headers, in header order; None
/// when a header or the data of a kept file lies beyond the end of `input`.
pub open spec fn scan_files(input: Seq<u8>, lay: VersionLayout, n: nat) -> Option<Seq<KeptFile>>
    decreases n,
{
    if n == 0 {
        Some(Seq::empty())
    } else {
        match scan_files(input, lay, (n - 1) as nat) {
            None => None,
            Some(prev) => {
                let i = n - 1;
                if HDR_LEN * (i + 2) > input.len() {
                    None
                } else {
                    let fh = file_header_at(input, i);
                    match header_entry(fh) {
                        None => Some(prev),
                        Some(e) => {
                            let len = spec_u32_le(fh, lay.orig_len as int);
                            let off = spec_u32_le(fh, lay.data_off as int);
                            if off + len > input.len() {
                                None
                            } else {
                                Some(
                                    prev.push(
                                        KeptFile {
                                            header: fh,
                                            data: input.subrange(off as int, off + len),
                                            entry: e,
                                        },
                                    ),
                                )
                            }
                        },
                    }
                }
            },
        }
    }
}

/// Some kept file is item `e`.
pub open spec fn has_entry(kept: Seq<KeptFile>, e: BootstrapEntry) -> bool {
    exists|k: int| 0 <= k < kept.len() && kept[k].entry == e
}

/// The data of the kept files, one after another.
pub open spec fn data_blob(kept: Seq<KeptFile>) -> Seq<u8>
    decreases kept.len(),
{
    if kept.len() == 0 {
        Seq::empty()
    } else {
        data_blob(kept.drop_last()) + kept.last().data
    }
}

/// The file headers of the kept files, each with its data-offset field set
/// to where its data lands when the data area starts at `data_start`.
pub open spec fn headers_blob(kept: Seq<KeptFile>, lay: VersionLayout, data_start: int) -> Seq<u8>
    decreases kept.len(),
{
    if kept.len() == 0 {
        Seq::empty()
    } else {
        let prev = kept.drop_last();
        headers_blob(prev, lay, data_start) + spec_write_u32(
            kept.last().header,
            lay.data_off as int,
            ((data_start + data_blob(prev).len()) % field_range()) as u32,
        )
    }
}

/// The body of the container before the image-size patch.
#[verifier::opaque]
pub open spec fn packed_body(img_hdr: Seq<u8>, kept: Seq<KeptFile>, lay: VersionLayout) -> Seq<u8> {
    let n = kept.len();
    spec_write_u32(img_hdr, lay.num_files as int, (n as int % field_range()) as u32)
        + headers_blob(kept, lay, HDR_LEN * (1 + n)) + data_blob(kept)
}

/// The bootstrap container: the image header with the file count set, the
/// kept file headers, the kept data, and the image-size field (byte 24) set
/// to the total length.
pub open spec fn packed_image(img_hdr: Seq<u8>, kept: Seq<KeptFile>, lay: VersionLayout) -> Seq<
    u8,
> {
    let body = packed_body(img_hdr, kept, lay);
    spec_write_u32(body, 24, (body.len() as int % field_range()) as u32)
}

/// Why a bootstrap firmware could not be built.
#[derive(Debug, PartialEq, Eq)]
pub enum PackError {
    /// A header or the data of a kept file lies beyond the end of the input.
    Truncated,
    /// The image header does not start with `IMAGEWTY`; holds the trimmed tag.
    InvalidMagic(Vec<u8>),
    /// A required item (fes or uboot) is not in the firmware.
    MissingEntry(BootstrapEntry),
}

/// Summary of a built bootstrap firmware.
pub struct BootstrapSummary {
    /// (entry name, byte size) for each kept entry
    pub entries: Vec<(String, u32)>,
    /// total size of the written file
    pub output_size: u64,
}

/// What the summary of packing `kept` into `image` reports.
pub open spec fn summary_describes(s: BootstrapSummary, kept: Seq<KeptFile>, image: Seq<u8>) -> bool {
    &&& s.entries@.len() == kept.len()
    &&& forall|k: int|
        0 <= k < kept.len() ==> (#[trigger] s.entries@[k]).0@ == entry_name(kept[k].entry)
            && s.entries@[k].1 == (kept[k].data.len() as int % field_range()) as u32
    &&& s.output_size == image.len()
}

/// A file kept while scanning, borrowed from the input.
pub struct Kept<'a> {
    pub header: &'a [u8],
    pub data: &'a [u8],
    pub entry: BootstrapEntry,
}

pub open spec fn kept_view(k: Kept) -> KeptFile {
    KeptFile { header: k.header@, data: k.data@, entry: k.entry }
}

pub open spec fn kept_views(ks: Seq<Kept>) -> Seq<KeptFile> {
    ks.map_values(|k: Kept| kept_view(k))
}

proof fn lemma_scan_stays_none(input: Seq<u8>, lay: VersionLayout, m: nat, n: nat)
    requires
        m <= n,
        scan_files(input, lay, m) is None,
    ensures
        scan_files(input, lay, n) is None,
    decreases n - m,
{
    if m < n {
        lemma_scan_stays_none(input, lay, m, (n - 1) as nat);
    }
}

/// Scan the file headers and borrow the files kept for the bootstrap.
fn scan_kept<'a>(input: &'a [u8], lay: VersionLayout, num_files: u32) -> (r: Option<Vec<Kept<'a>>>)
    requires
        lay == spec_version_layout(0x0300) || lay == spec_version_layout(0),
    ensures
        match (r, scan_files(input@, lay, num_files as nat)) {
            (Some(ks), Some(kv)) => {
                &&& kept_views(ks@) == kv
                &&& ks@.len() <= num_files
                &&& forall|k: int| 0 <= k < ks@.len() ==> (#[trigger] ks@[k]).header@.len() == HDR_LEN
            },
            (None, None) => true,
            _ => false,
        },
{
    let mut kept: Vec<Kept<'a>> = Vec::new();
    let mut i: u32 = 0;
    while i < num_files
        invariant
            i <= num_files,
            lay == spec_version_layout(0x0300) || lay == spec_version_layout(0),
            scan_files(input@, lay, i as nat) == Some(kept_views(kept@)),
            kept@.len() <= i,
            forall|k: int| 0 <= k < kept@.len() ==> (#[trigger] kept@[k]).header@.len() == HDR_LEN,
        decreases num_files - i,
    {
        let start: u64 = (i as u64 + 1) * 1024;
        let end: u64 = start + 1024;
        if end > input.len() as u64 {
            proof {
                lemma_scan_stays_none(input@, lay, (i + 1) as nat, num_files as nat);
            }
            return None;
        }
        let fh = slice_subrange(input, start as usize, end as usize);
        assert(fh@ == file_header_at(input@, i as int));
        match match_header(fh) {
            None => {},
            Some(e) => {
                let len = read_u32(fh, lay.orig_len);
                let off = read_u32(fh, lay.data_off);
                if off as u64 + len as u64 > input.len() as u64 {
                    proof {
                        lemma_scan_stays_none(input@, lay, (i + 1) as nat, num_files as nat);
                    }
                    return None;
                }
                let data = slice_subrange(input, off as usize, off as usize + len as usize);
                let ghost before = kept@;
                kept.push(Kept { header: fh, data, entry: e });
                assert(kept_views(kept@) =~= kept_views(before).push(
                    KeptFile { header: fh@, data: data@, entry: e },
                ));
            },
        }
        i = i + 1;
    }
    Some(kept)
}

/// Whether some kept file is item `e`.
fn kept_has(kept: &Vec<Kept>, e: BootstrapEntry) -> (r: bool)
    ensures
        r == has_entry(kept_views(kept@), e),
{
    let mut k: usize = 0;
    while k < kept.len()
        invariant
            k <= kept@.len(),
            forall|j: int| 0 <= j < k ==> kept@[j].entry != e,
        decreases kept@.len() - k,
    {
        if kept[k].entry == e {
            assert(kept_views(kept@)[k as int].entry == e);
            return true;
        }
        k = k + 1;
    }
    false
}

/// The bootstrap items of the IMAGEWTY firmware `input`, borrowed from it in
/// header order; fails when the input is cut short or is not an IMAGEWTY
/// container.
pub fn firmware_items<'a>(input: &'a [u8]) -> (r: Result<Vec<Kept<'a>>, PackError>)
    ensures
        input@.len() < HDR_LEN ==> r == Err::<Vec<Kept<'a>>, PackError>(PackError::Truncated),
        input@.len() >= HDR_LEN && input@.take(8) != imagewty_magic() ==> (r matches Err(
            PackError::InvalidMagic(tag),
        ) && tag@ == trim_tag(input@.take(8))),
        input@.len() >= HDR_LEN && input@.take(8) == imagewty_magic() ==> {
            let lay = spec_version_layout(spec_u32_le(input@, 8));
            let num_files = spec_u32_le(input@, lay.num_files as int);
            match scan_files(input@, lay, num_files as nat) {
                None => r == Err::<Vec<Kept<'a>>, PackError>(PackError::Truncated),
                Some(kept) => r matches Ok(ks) && kept_views(ks@) == kept,
            }
        },
{
    if input.len() < HDR_LEN {
        return Err(PackError::Truncated);
    }
    let magic: Vec<u8> = vec![0x49u8, 0x4d, 0x41, 0x47, 0x45, 0x57, 0x54, 0x59];
    assert(magic@ == imagewty_magic());
    assert(input@.subrange(0, 8) =~= input@.take(8));
    if !bytes_at(input, 0, magic.as_slice()) {
        return Err(PackError::InvalidMagic(tag_bytes(slice_subrange(input, 0, 8))));
    }
    let header_version = read_u32(input, 8);
    let lay = version_layout(header_version);
    let num_files = read_u32(input, lay.num_files);
    match scan_kept(input, lay, num_files) {
        Some(k) => Ok(k),
        None => Err(PackError::Truncated),
    }
}

/// The data of the first item `e` among `items`.
pub fn item_data<'a>(items: &Vec<Kept<'a>>, e: BootstrapEntry) -> (r: Option<&'a [u8]>)
    ensures
        r is None <==> !has_entry(kept_views(items@), e),
        r matches Some(d) ==> exists|k: int|
            0 <= k < items@.len() && items@[k].entry == e && d@ == items@[k].data@ && forall|j: int|
                0 <= j < k ==> items@[j].entry != e,
{
    let mut k: usize = 0;
    while k < items.len()
        invariant
            k <= items@.len(),
            forall|j: int| 0 <= j < k ==> items@[j].entry != e,
        decreases items@.len() - k,
    {
        if items[k].entry == e {
            assert(kept_views(items@)[k as int].entry == e);
            return Some(items[k].data);
        }
        k = k + 1;
    }
    None
}

/// Lay the kept files out after a copy of the image header.
fn assemble(img_hdr: &[u8], kept: &Vec<Kept>, lay: VersionLayout) -> (r: (Vec<u8>, BootstrapSummary))
    requires
        img_hdr@.len() == HDR_LEN,
        lay == spec_version_layout(0x0300) || lay == spec_version_layout(0),
        kept@.len() <= u32::MAX,
        forall|k: int| 0 <= k < kept@.len() ==> (#[trigger] kept@[k]).header@.len() == HDR_LEN,
    ensures
        r.0@ == packed_image(img_hdr@, kept_views(kept@), lay),
        summary_describes(r.1, kept_views(kept@), r.0@),
{
    let ghost kv = kept_views(kept@);
    let n = kept.len();
    let data_start: u64 = 1024 * (1 + n as u64);
    let mut out = slice_to_vec(img_hdr);
    write_u32(&mut out, lay.num_files, n as u32);
    let ghost new_hdr = out@;
    assert(new_hdr == spec_write_u32(img_hdr@, lay.num_files as int, (n as int % field_range()) as u32));
    let mut blob: Vec<u8> = Vec::new();
    let mut cur: u32 = (data_start % 0x1_0000_0000) as u32;
    let mut entries: Vec<(String, u32)> = Vec::new();
    let mut j: usize = 0;
    assert(kv.take(0) =~= Seq::<KeptFile>::empty());
    assert(new_hdr + headers_blob(kv.take(0), lay, data_start as int) =~= new_hdr);
    while j < n
        invariant
            j <= n,
            n == kept@.len(),
            kv == kept_views(kept@),
            data_start == HDR_LEN * (1 + n),
            lay == spec_version_layout(0x0300) || lay == spec_version_layout(0),
            forall|k: int| 0 <= k < kept@.len() ==> (#[trigger] kept@[k]).header@.len() == HDR_LEN,
            out@ == new_hdr + headers_blob(kv.take(j as int), lay, data_start as int),
            blob@ == data_blob(kv.take(j as int)),
            cur == (data_start + blob@.len()) % field_range(),
            entries@.len() == j,
            forall|k: int|
                0 <= k < j ==> (#[trigger] entries@[k]).0@ == entry_name(kv[k].entry)
                    && entries@[k].1 == (kv[k].data.len() as int % field_range()) as u32,
        decreases n - j,
    {
        let item = &kept[j];
        let ghost prefix = kv.take(j as int);
        let ghost next = kv.take(j + 1);
        assert(next.drop_last() =~= prefix);
        assert(next.last() == kv[j as int]);
        let mut fh = slice_to_vec(item.header);
        write_u32(&mut fh, lay.data_off, cur);
        out.append(&mut fh);
        assert(out@ =~= new_hdr + headers_blob(next, lay, data_start as int));
        let dlen = item.data.len();
        entries.push((entry_name_string(item.entry), (dlen as u64 % 0x1_0000_0000) as u32));
        let ghost old_len = blob@.len();
        let mut d = slice_to_vec(item.data);
        blob.append(&mut d);
        assert(blob@ =~= data_blob(next));
        proof {
            lemma_add_mod_noop(data_start + old_len, dlen as int, field_range());
            lemma_add_mod_noop(dlen as int, 0, field_range());
        }
        cur = ((cur as u64 + (dlen as u64 % 0x1_0000_0000)) % 0x1_0000_0000) as u32;
        j = j + 1;
    }
    assert(kv.take(n as int) =~= kv);
    out.append(&mut blob);
    let total = (out.len() as u64 % 0x1_0000_0000) as u32;
    write_u32(&mut out, 24, total);
    let size = out.len() as u64;
    proof {
        reveal(packed_body);
    }
    (out, BootstrapSummary { entries, output_size: size })
}

/// Repack the IMAGEWTY firmware `input` into a bootstrap firmware holding
/// only the FEL -> FES items. Fails when the input is cut short, is not an
/// IMAGEWTY container, or lacks fes or uboot.
pub fn pack_bootstrap(input: &[u8]) -> (r: Result<(Vec<u8>, BootstrapSummary), PackError>)
    ensures
        input@.len() < HDR_LEN ==> r == Err::<(Vec<u8>, BootstrapSummary), PackError>(
            PackError::Truncated,
        ),
        input@.len() >= HDR_LEN && input@.take(8) != imagewty_magic() ==> (r matches Err(
            PackError::InvalidMagic(tag),
        ) && tag@ == trim_tag(input@.take(8))),
        input@.len() >= HDR_LEN && input@.take(8) == imagewty_magic() ==> {
            let lay = spec_version_layout(spec_u32_le(input@, 8));
            let num_files = spec_u32_le(input@, lay.num_files as int);
            match scan_files(input@, lay, num_files as nat) {
                None => r == Err::<(Vec<u8>, BootstrapSummary), PackError>(PackError::Truncated),
                Some(kept) => if !has_entry(kept, BootstrapEntry::Fes) {
                    r == Err::<(Vec<u8>, BootstrapSummary), PackError>(
                        PackError::MissingEntry(BootstrapEntry::Fes),
                    )
                } else if !has_entry(kept, BootstrapEntry::Uboot) {
                    r == Err::<(Vec<u8>, BootstrapSummary), PackError>(
                        PackError::MissingEntry(BootstrapEntry::Uboot),
                    )
                } else {
                    r matches Ok((image, summary)) && image@ == packed_image(
                        input@.take(HDR_LEN as int),
                        kept,
                        lay,
                    ) && summary_describes(summary, kept, image@)
                },
            }
        },
{
    if input.len() < HDR_LEN {
        return Err(PackError::Truncated);
    }
    let magic: Vec<u8> = vec![0x49u8, 0x4d, 0x41, 0x47, 0x45, 0x57, 0x54, 0x59];
    assert(magic@ == imagewty_magic());
    assert(input@.subrange(0, 8) =~= input@.take(8));
    if !bytes_at(input, 0, magic.as_slice()) {
        return Err(PackError::InvalidMagic(tag_bytes(slice_subrange(input, 0, 8))));
    }
    let header_version = read_u32(input, 8);
    let lay = version_layout(header_version);
    let num_files = read_u32(input, lay.num_files);
    let kept = match scan_kept(input, lay, num_files) {
        Some(k) => k,
        None => {
            return Err(PackError::Truncated);
        },
    };
    if !kept_has(&kept, BootstrapEntry::Fes) {
        return Err(PackError::MissingEntry(BootstrapEntry::Fes));
    }
    if !kept_has(&kept, BootstrapEntry::Uboot) {
        return Err(PackError::MissingEntry(BootstrapEntry::Uboot));
    }
    let img_hdr = slice_subrange(input, 0, HDR_LEN);
    Ok(assemble(img_hdr, &kept, lay))
}

proof fn lemma_data_blob_at(kept: Seq<KeptFile>, k: int)
    requires
        0 <= k < kept.len(),
    ensures
        ({
            let at = data_blob(kept.take(k)).len();
            &&& at + kept[k].data.len() <= data_blob(kept).len()
            &&& data_blob(kept).subrange(at as int, at + kept[k].data.len() as int) == kept[k].data
        }),
    decreases kept.len(),
{
    let prev = kept.drop_last();
    let n = kept.len() - 1;
    assert(kept.take(n) =~= prev);
    if k < n {
        lemma_data_blob_at(prev, k);
        assert(kept.take(k) =~= prev.take(k));
        let at = data_blob(prev.take(k)).len();
        assert(data_blob(kept).subrange(at as int, at + kept[k].data.len() as int)
            =~= data_blob(prev).subrange(at as int, at + kept[k].data.len() as int));
    } else {
        assert(data_blob(kept).subrange(data_blob(prev).len() as int, data_blob(kept).len() as int)
            =~= kept[k].data);
    }
}

proof fn lemma_headers_blob_len(kept: Seq<KeptFile>, lay: VersionLayout, data_start: int)
    requires
        lay == spec_version_layout(0x0300) || lay == spec_version_layout(0),
        forall|k: int| 0 <= k < kept.len() ==> (#[trigger] kept[k]).header.len() == HDR_LEN,
    ensures
        headers_blob(kept, lay, data_start).len() == HDR_LEN * kept.len(),
    decreases kept.len(),
{
    if kept.len() > 0 {
        let prev = kept.drop_last();
        lemma_headers_blob_len(prev, lay, data_start);
        assert(kept.last().header.len() == HDR_LEN);
        assert(HDR_LEN * kept.len() == HDR_LEN * prev.len() + HDR_LEN) by (nonlinear_arith)
            requires
                kept.len() == prev.len() + 1,
        ;
    }
}

proof fn lemma_headers_blob_at(kept: Seq<KeptFile>, lay: VersionLayout, data_start: int, k: int)
    requires
        lay == spec_version_layout(0x0300) || lay == spec_version_layout(0),
        forall|j: int| 0 <= j < kept.len() ==> (#[trigger] kept[j]).header.len() == HDR_LEN,
        0 <= k < kept.len(),
    ensures
        HDR_LEN * k + HDR_LEN <= headers_blob(kept, lay, data_start).len(),
        headers_blob(kept, lay, data_start).subrange(HDR_LEN * k, HDR_LEN * k + HDR_LEN)
            == spec_write_u32(
            kept[k].header,
            lay.data_off as int,
            ((data_start + data_blob(kept.take(k)).len()) % field_range()) as u32,
        ),
    decreases kept.len(),
{
    let prev = kept.drop_last();
    let n = kept.len() - 1;
    lemma_headers_blob_len(prev, lay, data_start);
    lemma_headers_blob_len(kept, lay, data_start);
    assert(kept.take(n) =~= prev);
    let hb = headers_blob(kept, lay, data_start);
    assert(HDR_LEN * k + HDR_LEN <= HDR_LEN * n + HDR_LEN && HDR_LEN * kept.len() == HDR_LEN * n
        + HDR_LEN) by (nonlinear_arith)
        requires
            k <= n,
            kept.len() == n + 1,
    ;
    if k < n {
        lemma_headers_blob_at(prev, lay, data_start, k);
        assert(kept.take(k) =~= prev.take(k));
        assert(HDR_LEN * k + HDR_LEN <= HDR_LEN * n) by (nonlinear_arith)
            requires
                k < n,
        ;
        assert(hb.subrange(HDR_LEN * k, HDR_LEN * k + HDR_LEN) =~= headers_blob(
            prev,
            lay,
            data_start,
        ).subrange(HDR_LEN * k, HDR_LEN * k + HDR_LEN));
    } else {
        let last = spec_write_u32(
            kept.last().header,
            lay.data_off as int,
            ((data_start + data_blob(prev).len()) % field_range()) as u32,
        );
        assert(hb.subrange(HDR_LEN * k, HDR_LEN * k + HDR_LEN) =~= last);
    }
}


/// Writing the body length (mod 2^32) into bytes 24..28 keeps the length,
/// stores that value there, and leaves every other byte alone.
proof fn lemma_size_patch(body: Seq<u8>)
    requires
        body.len() >= HDR_LEN,
    ensures
        ({
            let image = spec_write_u32(body, 24, (body.len() as int % field_range()) as u32);
            &&& image.len() == body.len()
            &&& spec_u32_le(image, 24) == body.len() as int % field_range()
            &&& forall|x: int| 0 <= x < body.len() && !(24 <= x < 28) ==> #[trigger] image[x] == body[x]
        }),
{
    let image = spec_write_u32(body, 24, (body.len() as int % field_range()) as u32);
    lemma_read_after_write_u32(body, 24, (body.len() as int % field_range()) as u32);
    assert forall|x: int| 0 <= x < body.len() && !(24 <= x < 28) implies #[trigger] image[x]
        == body[x] by {
        if x < 24 {
            assert(image[x] == body.take(24)[x]);
        } else {
            assert(image[x] == body.skip(28)[x - 28]);
        }
    }
}

proof fn lemma_packed_file(img_hdr: Seq<u8>, kept: Seq<KeptFile>, lay: VersionLayout, k: int)
    requires
        img_hdr.len() == HDR_LEN,
        lay == spec_version_layout(0x0300) || lay == spec_version_layout(0),
        forall|j: int| 0 <= j < kept.len() ==> (#[trigger] kept[j]).header.len() == HDR_LEN,
        0 <= k < kept.len(),
    ensures
        ({
            let image = packed_image(img_hdr, kept, lay);
            let start = HDR_LEN * (1 + kept.len()) + data_blob(kept.take(k)).len();
            &&& spec_u32_le(image, HDR_LEN * (k + 1) + lay.data_off) == start % field_range()
            &&& image.subrange(start, start + kept[k].data.len()) == kept[k].data
        }),
{
    let n = kept.len();
    let data_start = HDR_LEN * (1 + n);
    let hb = headers_blob(kept, lay, data_start);
    let db = data_blob(kept);
    reveal(packed_body);
    let body = packed_body(img_hdr, kept, lay);
    let image = packed_image(img_hdr, kept, lay);
    lemma_headers_blob_len(kept, lay, data_start);
    lemma_headers_blob_at(kept, lay, data_start, k);
    lemma_data_blob_at(kept, k);
    lemma_size_patch(body);
    assert(HDR_LEN * (1 + n) == HDR_LEN + HDR_LEN * n) by (nonlinear_arith);
    let at = data_blob(kept.take(k)).len();
    let start = data_start + at;
    let h = HDR_LEN * k;
    assert(h + HDR_LEN <= HDR_LEN * n && HDR_LEN * (k + 1) == HDR_LEN + h) by (nonlinear_arith)
        requires
            k < n,
            h == HDR_LEN * k,
    ;
    let fh = spec_write_u32(kept[k].header, lay.data_off as int, (start % field_range()) as u32);
    assert(hb.subrange(h, h + HDR_LEN) == fh);
    lemma_read_after_write_u32(kept[k].header, lay.data_off as int, (start % field_range()) as u32);
    let d = lay.data_off as int;
    assert(image[HDR_LEN + h + d] == fh[d]);
    assert(image[HDR_LEN + h + d + 1] == fh[d + 1]);
    assert(image[HDR_LEN + h + d + 2] == fh[d + 2]);
    assert(image[HDR_LEN + h + d + 3] == fh[d + 3]);
    assert(db.subrange(at as int, at + kept[k].data.len() as int) == kept[k].data);
    assert(image.subrange(start, start + kept[k].data.len()) =~= db.subrange(
        at as int,
        at + kept[k].data.len() as int,
    ));
}

/// The bootstrap container is self-consistent: its file-count field holds the
/// number of kept files, its image-size field the container length, and the
/// data-offset field of the `k`-th file header holds the offset at which that
/// file's data lies in the container (all fields modulo 2^32).
pub proof fn lemma_packed_image_consistent(img_hdr: Seq<u8>, kept: Seq<KeptFile>, lay: VersionLayout)
    requires
        img_hdr.len() == HDR_LEN,
        lay == spec_version_layout(0x0300) || lay == spec_version_layout(0),
        forall|k: int| 0 <= k < kept.len() ==> (#[trigger] kept[k]).header.len() == HDR_LEN,
    ensures
        ({
            let image = packed_image(img_hdr, kept, lay);
            let n = kept.len();
            let data_start = HDR_LEN * (1 + n);
            &&& image.len() == data_start + data_blob(kept).len()
            &&& spec_u32_le(image, lay.num_files as int) == n as int % field_range()
            &&& spec_u32_le(image, 24) == image.len() as int % field_range()
            &&& forall|k: int|
                0 <= k < n ==> {
                    let start = data_start + (#[trigger] data_blob(kept.take(k))).len();
                    &&& spec_u32_le(image, HDR_LEN * (k + 1) + lay.data_off) == start
                        % field_range()
                    &&& image.subrange(start, start + kept[k].data.len()) == kept[k].data
                }
        }),
{
    let n = kept.len();
    let data_start = HDR_LEN * (1 + n);
    let hdr = spec_write_u32(img_hdr, lay.num_files as int, (n as int % field_range()) as u32);
    reveal(packed_body);
    let body = packed_body(img_hdr, kept, lay);
    let image = packed_image(img_hdr, kept, lay);
    lemma_headers_blob_len(kept, lay, data_start);
    lemma_size_patch(body);
    lemma_read_after_write_u32(img_hdr, lay.num_files as int, (n as int % field_range()) as u32);
    assert(HDR_LEN * (1 + n) == HDR_LEN + HDR_LEN * n) by (nonlinear_arith);
    let nf = lay.num_files as int;
    assert(image[nf] == hdr[nf] && image[nf + 1] == hdr[nf + 1] && image[nf + 2] == hdr[nf + 2]
        && image[nf + 3] == hdr[nf + 3]);
    assert forall|k: int| 0 <= k < n implies {
        let start = data_start + (#[trigger] data_blob(kept.take(k))).len();
        &&& spec_u32_le(image, HDR_LEN * (k + 1) + lay.data_off) == start % field_range()
        &&& image.subrange(start, start + kept[k].data.len()) == kept[k].data
    } by {
        lemma_packed_file(img_hdr, kept, lay, k);
    }
}

/// Facts every file kept by a scan carries: a full 1024-byte header that
/// names its item, and data as long as the header's data-length field.
pub open spec fn kept_well_formed(kept: Seq<KeptFile>, lay: VersionLayout) -> bool {
    forall|k: int|
        0 <= k < kept.len() ==> {
            &&& (#[trigger] kept[k]).header.len() == HDR_LEN
            &&& header_entry(kept[k].header) == Some(kept[k].entry)
            &&& kept[k].data.len() == spec_u32_le(kept[k].header, lay.orig_len as int)
        }
}

proof fn lemma_scan_well_formed(input: Seq<u8>, lay: VersionLayout, n: nat)
    requires
        lay == spec_version_layout(0x0300) || lay == spec_version_layout(0),
        scan_files(input, lay, n) is Some,
    ensures
        kept_well_formed(scan_files(input, lay, n).unwrap(), lay),
    decreases n,
{
    if n > 0 {
        lemma_scan_well_formed(input, lay, (n - 1) as nat);
    }
}

/// The kept files as they stand in the packed container: same items and
/// data, headers with the rewritten data offset.
pub open spec fn repacked_files(kept: Seq<KeptFile>, lay: VersionLayout) -> Seq<KeptFile> {
    Seq::new(
        kept.len(),
        |k: int|
            KeptFile {
                header: spec_write_u32(
                    kept[k].header,
                    lay.data_off as int,
                    ((HDR_LEN * (1 + kept.len()) + data_blob(kept.take(k)).len()) % field_range()) as u32,
                ),
                data: kept[k].data,
                entry: kept[k].entry,
            },
    )
}

proof fn lemma_rewritten_header_same_item(h: Seq<u8>, lay: VersionLayout, v: u32)
    requires
        h.len() == HDR_LEN,
        lay == spec_version_layout(0x0300) || lay == spec_version_layout(0),
    ensures
        header_entry(spec_write_u32(h, lay.data_off as int, v)) == header_entry(h),
        spec_u32_le(spec_write_u32(h, lay.data_off as int, v), lay.orig_len as int) == spec_u32_le(
            h,
            lay.orig_len as int,
        ),
        spec_write_u32(h, lay.data_off as int, v).len() == HDR_LEN,
{
    reveal(header_entry);
    let w = spec_write_u32(h, lay.data_off as int, v);
    assert(w.subrange(8, 16) =~= h.subrange(8, 16));
    assert(w.subrange(16, 32) =~= h.subrange(16, 32));
    let o = lay.orig_len as int;
    assert(w[o] == h[o] && w[o + 1] == h[o + 1] && w[o + 2] == h[o + 2] && w[o + 3] == h[o + 3]);
}

proof fn lemma_packed_header_fields(img_hdr: Seq<u8>, kept: Seq<KeptFile>, lay: VersionLayout)
    requires
        img_hdr.len() == HDR_LEN,
        lay == spec_version_layout(0x0300) || lay == spec_version_layout(0),
        kept_well_formed(kept, lay),
    ensures
        ({
            let image = packed_image(img_hdr, kept, lay);
            &&& image.len() >= HDR_LEN
            &&& forall|x: int| 0 <= x < 12 ==> image[x] == img_hdr[x]
            &&& spec_u32_le(image, 8) == spec_u32_le(img_hdr, 8)
            &&& spec_u32_le(image, lay.num_files as int) == kept.len() as int % field_range()
        }),
{
    let n = kept.len();
    reveal(packed_body);
    let body = packed_body(img_hdr, kept, lay);
    let image = packed_image(img_hdr, kept, lay);
    lemma_size_patch(body);
    let hdr = spec_write_u32(img_hdr, lay.num_files as int, (n as int % field_range()) as u32);
    lemma_read_after_write_u32(img_hdr, lay.num_files as int, (n as int % field_range()) as u32);
    assert(forall|x: int| 0 <= x < 12 ==> hdr[x] == img_hdr[x]);
    assert(forall|x: int| 0 <= x < 12 ==> image[x] == body[x]);
    assert(forall|x: int| 0 <= x < 12 ==> body[x] == hdr[x]);
    let nf = lay.num_files as int;
    assert(image[nf] == hdr[nf] && image[nf + 1] == hdr[nf + 1] && image[nf + 2] == hdr[nf + 2]
        && image[nf + 3] == hdr[nf + 3]);
    assert(image[8] == img_hdr[8] && image[9] == img_hdr[9] && image[10] == img_hdr[10]
        && image[11] == img_hdr[11]);
}

/// File header `k` of the packed container is the kept header with its data
/// offset rewritten, and the data it points at lies inside the container.
proof fn lemma_header_in_image(img_hdr: Seq<u8>, kept: Seq<KeptFile>, lay: VersionLayout, k: int)
    requires
        img_hdr.len() == HDR_LEN,
        lay == spec_version_layout(0x0300) || lay == spec_version_layout(0),
        forall|j: int| 0 <= j < kept.len() ==> (#[trigger] kept[j]).header.len() == HDR_LEN,
        0 <= k < kept.len(),
    ensures
        ({
            let image = packed_image(img_hdr, kept, lay);
            let start = HDR_LEN * (1 + kept.len()) + data_blob(kept.take(k)).len();
            &&& HDR_LEN * (k + 2) <= image.len()
            &&& file_header_at(image, k) == spec_write_u32(
                kept[k].header,
                lay.data_off as int,
                (start % field_range()) as u32,
            )
            &&& start + kept[k].data.len() <= image.len()
        }),
{
    let n = kept.len();
    let data_start = HDR_LEN * (1 + n);
    reveal(packed_body);
    let body = packed_body(img_hdr, kept, lay);
    let image = packed_image(img_hdr, kept, lay);
    lemma_headers_blob_len(kept, lay, data_start);
    lemma_headers_blob_at(kept, lay, data_start, k);
    lemma_data_blob_at(kept, k);
    lemma_size_patch(body);
    let hb = headers_blob(kept, lay, data_start);
    let h = HDR_LEN * k;
    assert(HDR_LEN * (1 + n) == HDR_LEN + HDR_LEN * n) by (nonlinear_arith);
    assert(h + HDR_LEN <= HDR_LEN * n && HDR_LEN * (k + 1) == HDR_LEN + h && HDR_LEN * (k + 2)
        == HDR_LEN + h + HDR_LEN) by (nonlinear_arith)
        requires
            k < n,
            h == HDR_LEN * k,
    ;
    let start = data_start + data_blob(kept.take(k)).len();
    let fh = spec_write_u32(kept[k].header, lay.data_off as int, (start % field_range()) as u32);
    assert(hb.subrange(h, h + HDR_LEN) == fh);
    assert(file_header_at(image, k) =~= fh);
}

/// File `k` of `files` is found by a scan of `image` at header slot `k`.
pub open spec fn found_at_slot(image: Seq<u8>, lay: VersionLayout, files: Seq<KeptFile>, k: int) -> bool {
    let fh = files[k].header;
    let off = spec_u32_le(fh, lay.data_off as int);
    let len = spec_u32_le(fh, lay.orig_len as int);
    &&& HDR_LEN * (k + 2) <= image.len()
    &&& file_header_at(image, k) == fh
    &&& header_entry(fh) == Some(files[k].entry)
    &&& off + len <= image.len()
    &&& image.subrange(off as int, off + len) == files[k].data
}

proof fn lemma_scan_finds(image: Seq<u8>, lay: VersionLayout, files: Seq<KeptFile>, m: nat)
    requires
        m <= files.len(),
        forall|k: int| 0 <= k < files.len() ==> #[trigger] found_at_slot(image, lay, files, k),
    ensures
        scan_files(image, lay, m) == Some(files.take(m as int)),
    decreases m,
{
    if m == 0 {
        assert(files.take(0) =~= Seq::<KeptFile>::empty());
    } else {
        let k = m - 1;
        lemma_scan_finds(image, lay, files, (m - 1) as nat);
        assert(found_at_slot(image, lay, files, k));
        assert(files.take(m as int) =~= files.take(k).push(files[k]));
    }
}


proof fn lemma_repacked_found(img_hdr: Seq<u8>, kept: Seq<KeptFile>, lay: VersionLayout, k: int)
    requires
        img_hdr.len() == HDR_LEN,
        lay == spec_version_layout(0x0300) || lay == spec_version_layout(0),
        kept_well_formed(kept, lay),
        0 <= k < kept.len(),
        packed_image(img_hdr, kept, lay).len() < field_range(),
    ensures
        found_at_slot(packed_image(img_hdr, kept, lay), lay, repacked_files(kept, lay), k),
{
    let image = packed_image(img_hdr, kept, lay);
    let rk = repacked_files(kept, lay);
    assert(kept[k].header.len() == HDR_LEN);
    lemma_header_in_image(img_hdr, kept, lay, k);
    lemma_packed_file(img_hdr, kept, lay, k);
    let start = HDR_LEN * (1 + kept.len()) + data_blob(kept.take(k)).len();
    lemma_rewritten_header_same_item(kept[k].header, lay, (start % field_range()) as u32);
    lemma_read_after_write_u32(kept[k].header, lay.data_off as int, (start % field_range()) as u32);
    assert(start % field_range() == start);
    assert(rk[k].header == file_header_at(image, k));
}

/// A built bootstrap firmware is itself an IMAGEWTY container that, scanned
/// again, yields the same items with the same data, in the same order (as
/// long as it is under 4 GiB, so that its 32-bit offsets are exact).
pub proof fn lemma_packed_image_rescans(input: Seq<u8>)
    requires
        input.len() >= HDR_LEN,
        input.take(8) == imagewty_magic(),
        ({
            let lay = spec_version_layout(spec_u32_le(input, 8));
            let num_files = spec_u32_le(input, lay.num_files as int);
            scan_files(input, lay, num_files as nat) matches Some(kept) && packed_image(
                input.take(HDR_LEN as int),
                kept,
                lay,
            ).len() < field_range()
        }),
    ensures
        ({
            let lay = spec_version_layout(spec_u32_le(input, 8));
            let kept = scan_files(input, lay, spec_u32_le(input, lay.num_files as int) as nat).unwrap();
            let image = packed_image(input.take(HDR_LEN as int), kept, lay);
            &&& image.len() >= HDR_LEN
            &&& image.take(8) == imagewty_magic()
            &&& spec_version_layout(spec_u32_le(image, 8)) == lay
            &&& spec_u32_le(image, lay.num_files as int) == kept.len()
            &&& scan_files(image, lay, kept.len()) matches Some(again) && again.len() == kept.len()
                && forall|k: int|
                0 <= k < kept.len() ==> (#[trigger] again[k]).entry == kept[k].entry
                    && again[k].data == kept[k].data
        }),
{
    let lay = spec_version_layout(spec_u32_le(input, 8));
    let kept = scan_files(input, lay, spec_u32_le(input, lay.num_files as int) as nat).unwrap();
    let img_hdr = input.take(HDR_LEN as int);
    let image = packed_image(img_hdr, kept, lay);
    let n = kept.len();
    lemma_scan_well_formed(input, lay, spec_u32_le(input, lay.num_files as int) as nat);
    lemma_packed_header_fields(img_hdr, kept, lay);
    assert(image.take(8) =~= input.take(8));
    let rk = repacked_files(kept, lay);
    assert forall|k: int| 0 <= k < rk.len() implies #[trigger] found_at_slot(image, lay, rk, k) by {
        lemma_repacked_found(img_hdr, kept, lay, k);
    }
    lemma_scan_finds(image, lay, rk, n);
    assert(rk.take(n as int) =~= rk);
}

proof fn lemma_write_u32_twice(s: Seq<u8>, off: int, v: u32)
    requires
        0 <= off,
        off + 4 <= s.len(),
    ensures
        spec_write_u32(spec_write_u32(s, off, v), off, v) == spec_write_u32(s, off, v),
{
    assert(spec_write_u32(spec_write_u32(s, off, v), off, v) =~= spec_write_u32(s, off, v));
}

proof fn lemma_same_data_same_blob(a: Seq<KeptFile>, b: Seq<KeptFile>)
    requires
        a.len() == b.len(),
        forall|k: int| 0 <= k < a.len() ==> (#[trigger] a[k]).data == b[k].data,
    ensures
        data_blob(a) == data_blob(b),
    decreases a.len(),
{
    if a.len() > 0 {
        lemma_same_data_same_blob(a.drop_last(), b.drop_last());
    }
}

proof fn lemma_repacked_headers_blob(kept: Seq<KeptFile>, lay: VersionLayout, m: nat)
    requires
        lay == spec_version_layout(0x0300) || lay == spec_version_layout(0),
        forall|k: int| 0 <= k < kept.len() ==> (#[trigger] kept[k]).header.len() == HDR_LEN,
        m <= kept.len(),
    ensures
        headers_blob(repacked_files(kept, lay).take(m as int), lay, HDR_LEN * (1 + kept.len()))
            == headers_blob(kept.take(m as int), lay, HDR_LEN * (1 + kept.len())),
        data_blob(repacked_files(kept, lay).take(m as int)) == data_blob(kept.take(m as int)),
    decreases m,
{
    let rk = repacked_files(kept, lay);
    let ds = HDR_LEN * (1 + kept.len());
    if m > 0 {
        let k = m - 1;
        lemma_repacked_headers_blob(kept, lay, (m - 1) as nat);
        assert(rk.take(m as int).drop_last() =~= rk.take(k));
        assert(kept.take(m as int).drop_last() =~= kept.take(k));
        lemma_same_data_same_blob(rk.take(k), kept.take(k));
        let v = ((ds + data_blob(kept.take(k)).len()) % field_range()) as u32;
        assert(kept[k].header.len() == HDR_LEN);
        lemma_write_u32_twice(kept[k].header, lay.data_off as int, v);
    } else {
        assert(rk.take(0) =~= Seq::<KeptFile>::empty());
        assert(kept.take(0) =~= Seq::<KeptFile>::empty());
    }
}

proof fn lemma_repack_same_image(img_hdr: Seq<u8>, kept: Seq<KeptFile>, lay: VersionLayout)
    requires
        img_hdr.len() == HDR_LEN,
        lay == spec_version_layout(0x0300) || lay == spec_version_layout(0),
        forall|k: int| 0 <= k < kept.len() ==> (#[trigger] kept[k]).header.len() == HDR_LEN,
    ensures
        ({
            let image = packed_image(img_hdr, kept, lay);
            packed_image(image.take(HDR_LEN as int), repacked_files(kept, lay), lay) == image
        }),
{
    let n = kept.len();
    let rk = repacked_files(kept, lay);
    let ds = HDR_LEN * (1 + n);
    lemma_repacked_headers_blob(kept, lay, n);
    assert(rk.take(n as int) =~= rk);
    assert(kept.take(n as int) =~= kept);
    lemma_headers_blob_len(kept, lay, ds);
    reveal(packed_body);
    let hdr = spec_write_u32(img_hdr, lay.num_files as int, (n as int % field_range()) as u32);
    let body = hdr + headers_blob(kept, lay, ds) + data_blob(kept);
    let len = (body.len() as int % field_range()) as u32;
    let image = spec_write_u32(body, 24, len);
    assert(packed_image(img_hdr, kept, lay) == image);
    assert(image.take(HDR_LEN as int) =~= spec_write_u32(hdr, 24, len));
    let hdr2 = spec_write_u32(
        spec_write_u32(hdr, 24, len),
        lay.num_files as int,
        (n as int % field_range()) as u32,
    );
    assert(hdr2 =~= spec_write_u32(hdr, 24, len));
    let body2 = hdr2 + headers_blob(rk, lay, ds) + data_blob(rk);
    assert(body2 =~= spec_write_u32(body, 24, len));
    assert(spec_write_u32(body2, 24, len) =~= image);
}

/// Building a bootstrap firmware from a bootstrap firmware reproduces it
/// byte for byte (as long as it is under 4 GiB).
pub proof fn lemma_pack_idempotent(input: Seq<u8>)
    requires
        input.len() >= HDR_LEN,
        input.take(8) == imagewty_magic(),
        ({
            let lay = spec_version_layout(spec_u32_le(input, 8));
            let num_files = spec_u32_le(input, lay.num_files as int);
            scan_files(input, lay, num_files as nat) matches Some(kept) && packed_image(
                input.take(HDR_LEN as int),
                kept,
                lay,
            ).len() < field_range()
        }),
    ensures
        ({
            let lay = spec_version_layout(spec_u32_le(input, 8));
            let kept = scan_files(input, lay, spec_u32_le(input, lay.num_files as int) as nat).unwrap();
            let image = packed_image(input.take(HDR_LEN as int), kept, lay);
            let again = scan_files(image, lay, spec_u32_le(image, lay.num_files as int) as nat);
            &&& again is Some
            &&& packed_image(image.take(HDR_LEN as int), again.unwrap(), lay) == image
        }),
{
    let lay = spec_version_layout(spec_u32_le(input, 8));
    let kept = scan_files(input, lay, spec_u32_le(input, lay.num_files as int) as nat).unwrap();
    let img_hdr = input.take(HDR_LEN as int);
    let image = packed_image(img_hdr, kept, lay);
    let n = kept.len();
    lemma_scan_well_formed(input, lay, spec_u32_le(input, lay.num_files as int) as nat);
    lemma_packed_header_fields(img_hdr, kept, lay);
    let rk = repacked_files(kept, lay);
    assert forall|k: int| 0 <= k < rk.len() implies #[trigger] found_at_slot(image, lay, rk, k) by {
        lemma_repacked_found(img_hdr, kept, lay, k);
    }
    lemma_scan_finds(image, lay, rk, n);
    assert(rk.take(n as int) =~= rk);
    assert(n < field_range()) by {
        lemma_packed_image_consistent(img_hdr, kept, lay);
        assert(HDR_LEN * (1 + n) >= n) by (nonlinear_arith);
    }
    lemma_repack_same_image(img_hdr, kept, lay);
}

} // verus!
