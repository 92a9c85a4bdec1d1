//! WebP files: the `XMP ` and `EXIF` chunks of a RIFF container.
use vstd::prelude::*;
use crate::types::{PromptRecord, RecordSpec};
use crate::extract::jpeg::{xmp_records, exif_records, push_xmp_record, push_exif_record};
use crate::extract::png::{records_view, byte_range, bytes_equal};

verus! {

/// The little-endian 32-bit number at `b[i..i + 4]`.
pub open spec fn le_u32(b: Seq<u8>, i: int) -> int {
    b[i] + b[i + 1] * 256 + b[i + 2] * 65536 + b[i + 3] * 16777216
}

/// `RIFF`.
pub open spec fn riff_magic() -> Seq<u8> {
    seq![0x52u8, 0x49u8, 0x46u8, 0x46u8]
}

/// `WEBP`.
pub open spec fn webp_magic() -> Seq<u8> {
    seq![0x57u8, 0x45u8, 0x42u8, 0x50u8]
}

/// Chunk id `XMP `.
pub open spec fn chunk_xmp() -> Seq<u8> {
    seq![0x58u8, 0x4Du8, 0x50u8, 0x20u8]
}

/// Chunk id `EXIF`.
pub open spec fn chunk_exif() -> Seq<u8> {
    seq![0x45u8, 0x58u8, 0x49u8, 0x46u8]
}

/// The records of the RIFF chunks from position `pos` on. A chunk is a four-byte id, a
/// little-endian size and the data, padded to an even length. The walk ends where fewer than
/// eight bytes are left, where an `XMP ` or `EXIF` chunk is cut short, or where a chunk's
/// padded end lies past the end of the bytes.
pub open spec fn webp_chunks_from(path: Seq<char>, b: Seq<u8>, pos: int) -> Seq<RecordSpec>
    decreases b.len() - pos,
{
    if pos < 0 || pos + 8 > b.len() {
        Seq::empty()
    } else {
        let size = le_u32(b, pos + 4);
        let next = pos + 8 + size + size % 2;
        let rest = if next <= b.len() {
            webp_chunks_from(path, b, next)
        } else {
            Seq::empty()
        };
        let id = b.subrange(pos, pos + 4);
        if id == chunk_xmp() || id == chunk_exif() {
            if pos + 8 + size > b.len() {
                Seq::empty()
            } else {
                let data = b.subrange(pos + 8, pos + 8 + size);
                let found = if id == chunk_xmp() {
                    xmp_records(path, data)
                } else {
                    exif_records(path, data)
                };
                found + rest
            }
        } else {
            rest
        }
    }
}

/// The records of a WebP file: none unless its twelve-byte header reads `RIFF`, a size and
/// `WEBP`.
pub open spec fn webp_records(path: Seq<char>, b: Seq<u8>) -> Seq<RecordSpec> {
    if b.len() >= 12 && b.take(4) == riff_magic() && b.subrange(8, 12) == webp_magic() {
        webp_chunks_from(path, b, 12)
    } else {
        Seq::empty()
    }
}

/// The prompt records of a WebP file's XMP and EXIF chunks.
pub fn extract(path: &str, bytes: &[u8]) -> (results: Vec<PromptRecord>)
    ensures
        records_view(results@) == webp_records(path@, bytes@),
{
    let mut results: Vec<PromptRecord> = Vec::new();
    assert(records_view(results@) =~= Seq::<RecordSpec>::empty());
    let n = bytes.len();
    let riff: [u8; 4] = [0x52, 0x49, 0x46, 0x46];
    let webp: [u8; 4] = [0x57, 0x45, 0x42, 0x50];
    let xmp_id: [u8; 4] = [0x58, 0x4D, 0x50, 0x20];
    let exif_id: [u8; 4] = [0x45, 0x58, 0x49, 0x46];
    assert(riff@ =~= riff_magic());
    assert(webp@ =~= webp_magic());
    assert(xmp_id@ =~= chunk_xmp());
    assert(exif_id@ =~= chunk_exif());
    if n < 12 {
        return results;
    }
    assert(bytes@.subrange(0, 4) =~= bytes@.take(4));
    if !bytes_equal(bytes, 0, &riff) || !bytes_equal(bytes, 8, &webp) {
        return results;
    }
    let ghost b = bytes@;
    let mut pos: usize = 12;
    loop
        invariant
            n == bytes@.len(),
            b == bytes@,
            12 <= pos <= n,
            xmp_id@ == chunk_xmp(),
            exif_id@ == chunk_exif(),
            webp_records(path@, b) == records_view(results@) + webp_chunks_from(
                path@,
                b,
                pos as int,
            ),
        decreases n - pos,
    {
        if n - pos < 8 {
            assert(records_view(results@) + Seq::empty() =~= records_view(results@));
            return results;
        }
        let size = (bytes[pos + 4] as u64) + (bytes[pos + 5] as u64) * 256 + (bytes[pos + 6] as u64)
            * 65536 + (bytes[pos + 7] as u64) * 16777216;
        assert(size == le_u32(b, pos + 4));
        let pad: u64 = size % 2;
        let room = (n - pos - 8) as u64;
        let ghost next = pos + 8 + size + pad;
        let ghost before = records_view(results@);
        let is_xmp = bytes_equal(bytes, pos, &xmp_id);
        let is_exif = bytes_equal(bytes, pos, &exif_id);
        if is_xmp || is_exif {
            if size > room {
                assert(records_view(results@) + Seq::empty() =~= records_view(results@));
                return results;
            }
            let data = byte_range(bytes, pos + 8, pos + 8 + size as usize);
            if is_xmp {
                push_xmp_record(path, data.as_slice(), &mut results);
            } else {
                push_exif_record(path, data.as_slice(), &mut results);
            }
        }
        if size + pad > room {
            assert(records_view(results@) + Seq::empty() =~= records_view(results@));
            return results;
        }
        proof {
            let rest = webp_chunks_from(path@, b, next);
            if is_xmp || is_exif {
                let data = b.subrange(pos + 8, pos + 8 + size);
                let found = if is_xmp {
                    xmp_records(path@, data)
                } else {
                    exif_records(path@, data)
                };
                assert(webp_chunks_from(path@, b, pos as int) == found + rest);
                assert(before + (found + rest) =~= records_view(results@) + rest);
            } else {
                assert(webp_chunks_from(path@, b, pos as int) == rest);
            }
        }
        pos = pos + 8 + (size + pad) as usize;
    }
}

/// Every chunk whose id is neither `XMP ` nor `EXIF` is stepped over by its size rounded up
/// to an even number (the RIFF pad byte of an odd-sized chunk is skipped with it): the
/// records from the chunk's start are those from the first byte past its padding.
pub proof fn webp_skips_other_chunk_with_padding(path: Seq<char>, b: Seq<u8>, pos: int, size: int)
    requires
        0 <= pos,
        size == b[pos + 4] + b[pos + 5] * 256 + b[pos + 6] * 65536 + b[pos + 7] * 16777216,
        pos + 8 + size + size % 2 <= b.len(),
        b.subrange(pos, pos + 4) != seq![0x58u8, 0x4Du8, 0x50u8, 0x20u8],
        b.subrange(pos, pos + 4) != seq![0x45u8, 0x58u8, 0x49u8, 0x46u8],
    ensures
        webp_chunks_from(path, b, pos) == webp_chunks_from(path, b, pos + 8 + size + size % 2),
{
    assert(chunk_xmp() =~= seq![0x58u8, 0x4Du8, 0x50u8, 0x20u8]);
    assert(chunk_exif() =~= seq![0x45u8, 0x58u8, 0x49u8, 0x46u8]);
    assert(le_u32(b, pos + 4) == size);
}

/// A WebP file that holds, after its twelve-byte `RIFF`/`WEBP` header, one chunk of any other
/// id and of any size `s1` (an odd size followed by its pad byte) and then an `XMP ` chunk of
/// size `s2` (padded likewise): its records are exactly those of the XMP data.
pub proof fn webp_xmp_after_other_chunk(path: Seq<char>, b: Seq<u8>, s1: int, s2: int)
    requires
        b.len() == 28 + s1 + s1 % 2 + s2 + s2 % 2,
        b.take(4) == seq![0x52u8, 0x49u8, 0x46u8, 0x46u8],
        b.subrange(8, 12) == seq![0x57u8, 0x45u8, 0x42u8, 0x50u8],
        b.subrange(12, 16) != seq![0x58u8, 0x4Du8, 0x50u8, 0x20u8],
        b.subrange(12, 16) != seq![0x45u8, 0x58u8, 0x49u8, 0x46u8],
        s1 == b[16] + b[17] * 256 + b[18] * 65536 + b[19] * 16777216,
        b.subrange(20 + s1 + s1 % 2, 24 + s1 + s1 % 2) == seq![0x58u8, 0x4Du8, 0x50u8, 0x20u8],
        s2 == b[24 + s1 + s1 % 2] + b[25 + s1 + s1 % 2] * 256 + b[26 + s1 + s1 % 2] * 65536 + b[27
            + s1 + s1 % 2] * 16777216,
    ensures
        webp_records(path, b) == xmp_records(
            path,
            b.subrange(28 + s1 + s1 % 2, 28 + s1 + s1 % 2 + s2),
        ),
{
    assert(riff_magic() =~= seq![0x52u8, 0x49u8, 0x46u8, 0x46u8]);
    assert(webp_magic() =~= seq![0x57u8, 0x45u8, 0x42u8, 0x50u8]);
    assert(chunk_xmp() =~= seq![0x58u8, 0x4Du8, 0x50u8, 0x20u8]);
    webp_skips_other_chunk_with_padding(path, b, 12, s1);
    let q = 20 + s1 + s1 % 2;
    assert(le_u32(b, q + 4) == s2);
    let end = q + 8 + s2 + s2 % 2;
    assert(webp_chunks_from(path, b, end) == Seq::<RecordSpec>::empty());
    let found = xmp_records(path, b.subrange(q + 8, q + 8 + s2));
    assert(webp_chunks_from(path, b, q) == found + Seq::<RecordSpec>::empty());
    assert(found + Seq::<RecordSpec>::empty() =~= found);
}

/// An `XMP ` or `EXIF` chunk gives the records of its data, and the walk goes on past the
/// data rounded up to an even length, as for any other chunk.
pub proof fn webp_metadata_chunk_then_padding(path: Seq<char>, b: Seq<u8>, pos: int, size: int)
    requires
        0 <= pos,
        size == b[pos + 4] + b[pos + 5] * 256 + b[pos + 6] * 65536 + b[pos + 7] * 16777216,
        pos + 8 + size + size % 2 <= b.len(),
        b.subrange(pos, pos + 4) == seq![0x58u8, 0x4Du8, 0x50u8, 0x20u8] || b.subrange(pos, pos + 4)
            == seq![0x45u8, 0x58u8, 0x49u8, 0x46u8],
    ensures
        webp_chunks_from(path, b, pos) == (if b.subrange(pos, pos + 4) == seq![
            0x58u8,
            0x4Du8,
            0x50u8,
            0x20u8,
        ] {
            xmp_records(path, b.subrange(pos + 8, pos + 8 + size))
        } else {
            exif_records(path, b.subrange(pos + 8, pos + 8 + size))
        }) + webp_chunks_from(path, b, pos + 8 + size + size % 2),
{
    assert(chunk_xmp() =~= seq![0x58u8, 0x4Du8, 0x50u8, 0x20u8]);
    assert(chunk_exif() =~= seq![0x45u8, 0x58u8, 0x49u8, 0x46u8]);
    assert(le_u32(b, pos + 4) == size);
}

} // verus!
