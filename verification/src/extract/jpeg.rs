//! JPEG segments (COM, APP1 XMP, APP1 EXIF) and the XMP description they may carry.
use vstd::prelude::*;
use crate::text::{
    utf8_lossy, from_utf8_lossy, find, contains, contains_str, to_chars, find_chars, slice_from,
    is_blank, blank, copy_str,
};
use crate::types::{Generator, PromptRecord, RecordSpec, record_with, opt_str};
use crate::extract::a1111::{a1111_details, extract_details};
use crate::extract::comfyui::{non_empty_spec, non_empty};
use crate::extract::exif::{user_comment, extract_user_comment, exif_prefix};
use crate::extract::png::{records_view, byte_range};

verus! {

/// The first `rdf:li` text of the `dc:description` of an XMP text, trimmed, when non-empty.
pub open spec fn xmp_description_text(t: Seq<char>) -> Option<Seq<char>> {
    match find(t, "<dc:description"@) {
        None => None,
        Some(d) => {
            let a = t.skip(d);
            match find(a, "<rdf:li"@) {
                None => None,
                Some(l) => {
                    let b = a.skip(l);
                    match find(b, seq!['>']) {
                        None => None,
                        Some(g) => {
                            let c = b.skip(g + 1);
                            match find(c, "</rdf:li>"@) {
                                None => None,
                                Some(e) => non_empty_spec(c.take(e)),
                            }
                        },
                    }
                },
            }
        },
    }
}

/// The description of an XMP packet, read as lossy UTF-8.
pub open spec fn xmp_description(data: Seq<u8>) -> Option<Seq<char>> {
    xmp_description_text(utf8_lossy(data))
}

/// The generator an XMP packet names: InvokeAI when it uses the `invokeai:` namespace.
pub open spec fn xmp_generator(data: Seq<u8>) -> Generator {
    if contains(utf8_lossy(data), "invokeai:"@) {
        Generator::InvokeAI
    } else {
        Generator::Unknown
    }
}

/// The first `<rdf:li>` text inside `<dc:description>` of an XMP packet, trimmed, when it is
/// not empty.
pub fn extract_xmp_description(data: &[u8]) -> (r: Option<String>)
    ensures
        opt_str(r) == xmp_description(data@),
{
    let text = from_utf8_lossy(data);
    let t = to_chars(text.as_str());
    let m1 = to_chars("<dc:description");
    let d = match find_chars(&t, &m1, 0) {
        Some(d) => d,
        None => return None,
    };
    let a = slice_from(&t, d);
    let m2 = to_chars("<rdf:li");
    let l = match find_chars(&a, &m2, 0) {
        Some(l) => l,
        None => return None,
    };
    let b = slice_from(&a, l);
    let bl = b.len();
    let gt: Vec<char> = vec!['>'];
    assert(gt@ =~= seq!['>']);
    let g = match find_chars(&b, &gt, 0) {
        Some(g) => g,
        None => return None,
    };
    let c = slice_from(&b, g + 1);
    let m3 = to_chars("</rdf:li>");
    let e = match find_chars(&c, &m3, 0) {
        Some(e) => e,
        None => return None,
    };
    let inner = crate::text::from_char_range(&c, 0, e);
    assert(c@.subrange(0, e as int) =~= c@.take(e as int));
    non_empty(inner.as_str())
}

/// InvokeAI when the XMP packet uses the `invokeai:` namespace, else Unknown.
pub fn detect_xmp_generator(data: &[u8]) -> (g: Generator)
    ensures
        g == xmp_generator(data@),
{
    let text = from_utf8_lossy(data);
    if contains_str(text.as_str(), "invokeai:") {
        Generator::InvokeAI
    } else {
        Generator::Unknown
    }
}

/// The record of an XMP packet, when it has a description.
pub open spec fn xmp_records(path: Seq<char>, data: Seq<u8>) -> Seq<RecordSpec> {
    match xmp_description(data) {
        Some(p) => seq![record_with(path, p, xmp_generator(data), "XMP"@, a1111_details(p))],
        None => Seq::empty(),
    }
}

/// The record of an EXIF block, when it has a user comment.
pub open spec fn exif_records(path: Seq<char>, data: Seq<u8>) -> Seq<RecordSpec> {
    match user_comment(data) {
        Some(p) => seq![record_with(path, p, Generator::Unknown, "UserComment"@, a1111_details(p))],
        None => Seq::empty(),
    }
}

/// Append the record of an XMP packet, when it has a description.
pub fn push_xmp_record(path: &str, data: &[u8], results: &mut Vec<PromptRecord>)
    ensures
        records_view(final(results)@) == records_view(old(results)@) + xmp_records(path@, data@),
{
    let ghost before = records_view(results@);
    if let Some(prompt) = extract_xmp_description(data) {
        let generator = detect_xmp_generator(data);
        let details = extract_details(prompt.as_str());
        results.push(PromptRecord::with_details(copy_str(path), prompt, generator, "XMP", details));
    }
    assert(records_view(results@) =~= before + xmp_records(path@, data@));
}

/// Append the record of an EXIF block, when it has a user comment.
pub fn push_exif_record(path: &str, data: &[u8], results: &mut Vec<PromptRecord>)
    ensures
        records_view(final(results)@) == records_view(old(results)@) + exif_records(path@, data@),
{
    let ghost before = records_view(results@);
    if let Some(prompt) = extract_user_comment(data) {
        let details = extract_details(prompt.as_str());
        results.push(
            PromptRecord::with_details(
                copy_str(path),
                prompt,
                Generator::Unknown,
                "UserComment",
                details,
            ),
        );
    }
    assert(records_view(results@) =~= before + exif_records(path@, data@));
}

// ---------------------------------------------------------------------------------------------
// JPEG segments.
// ---------------------------------------------------------------------------------------------
/// The records of a JPEG segment body: a comment (`0xFE`) that is not blank, or an APP1
/// (`0xE1`) body holding EXIF (after `Exif\0\0`) or XMP.
pub open spec fn segment_records(path: Seq<char>, marker: u8, body: Seq<u8>) -> Seq<RecordSpec> {
    if marker == 0xFE {
        let text = utf8_lossy(body);
        if is_blank(text) {
            Seq::empty()
        } else {
            seq![record_with(path, text, Generator::A1111, "COM"@, a1111_details(text))]
        }
    } else if marker == 0xE1 {
        if body.len() >= 6 && body.take(6) == exif_prefix() {
            exif_records(path, body)
        } else {
            xmp_records(path, body)
        }
    } else {
        Seq::empty()
    }
}

/// The records of the JPEG segments from position `pos` on: each segment is `0xFF`, a marker
/// and a big-endian length that counts itself; the walk ends at start of scan (`0xDA`), end of
/// image (`0xD9`), a lost marker sync, a length below 2 or a segment that the bytes cut short.
pub open spec fn segments_from(path: Seq<char>, b: Seq<u8>, pos: int) -> Seq<RecordSpec>
    decreases b.len() - pos,
{
    if pos < 0 || pos + 4 > b.len() || b[pos] != 0xFF || b[pos + 1] == 0xDA || b[pos + 1] == 0xD9 {
        Seq::empty()
    } else {
        let len = b[pos + 2] * 256 + b[pos + 3];
        if len < 2 || pos + 2 + len > b.len() {
            Seq::empty()
        } else {
            segment_records(path, b[pos + 1], b.subrange(pos + 4, pos + 2 + len)) + segments_from(
                path,
                b,
                pos + 2 + len,
            )
        }
    }
}

/// The records of a JPEG file: none unless it starts with start of image (`0xFF 0xD8`).
pub open spec fn jpeg_records(path: Seq<char>, b: Seq<u8>) -> Seq<RecordSpec> {
    if b.len() >= 2 && b[0] == 0xFF && b[1] == 0xD8 {
        segments_from(path, b, 2)
    } else {
        Seq::empty()
    }
}

/// The prompt records of a JPEG file's comment, XMP and EXIF segments, read up to the image
/// data.
pub fn extract(path: &str, bytes: &[u8]) -> (results: Vec<PromptRecord>)
    ensures
        records_view(results@) == jpeg_records(path@, bytes@),
{
    let mut results: Vec<PromptRecord> = Vec::new();
    assert(records_view(results@) =~= Seq::<RecordSpec>::empty());
    let n = bytes.len();
    if n < 2 || bytes[0] != 0xFF || bytes[1] != 0xD8 {
        return results;
    }
    let exif: [u8; 6] = [0x45, 0x78, 0x69, 0x66, 0, 0];
    assert(exif@ =~= exif_prefix());
    let ghost b = bytes@;
    let mut pos: usize = 2;
    loop
        invariant
            n == bytes@.len(),
            b == bytes@,
            2 <= pos <= n,
            exif@ == exif_prefix(),
            jpeg_records(path@, b) == records_view(results@) + segments_from(path@, b, pos as int),
        decreases n - pos,
    {
        if n - pos < 4 || bytes[pos] != 0xFF || bytes[pos + 1] == 0xDA || bytes[pos + 1] == 0xD9 {
            assert(records_view(results@) + Seq::empty() =~= records_view(results@));
            return results;
        }
        let marker = bytes[pos + 1];
        let len = (bytes[pos + 2] as usize) * 256 + (bytes[pos + 3] as usize);
        if len < 2 || len > n - pos - 2 {
            assert(records_view(results@) + Seq::empty() =~= records_view(results@));
            return results;
        }
        let body = byte_range(bytes, pos + 4, pos + 2 + len);
        let ghost before = records_view(results@);
        let ghost next = pos + 2 + len;
        if marker == 0xFE {
            let text = from_utf8_lossy(body.as_slice());
            if !blank(text.as_str()) {
                let details = extract_details(text.as_str());
                let t2 = text.clone();
                results.push(PromptRecord::with_details(copy_str(path), t2, Generator::A1111, "COM", details));
            }
        } else if marker == 0xE1 {
            let is_exif = body.len() >= 6 && body[0] == exif[0] && body[1] == exif[1] && body[2]
                == exif[2] && body[3] == exif[3] && body[4] == exif[4] && body[5] == exif[5];
            proof {
                if body@.len() >= 6 {
                    if is_exif {
                        assert(body@.take(6) =~= exif_prefix());
                    } else {
                        assert(body@.take(6) != exif_prefix()) by {
                            if body@.take(6) == exif_prefix() {
                                assert(body@.take(6)[0] == body@[0]);
                            }
                        }
                    }
                }
            }
            if is_exif {
                push_exif_record(path, body.as_slice(), &mut results);
            } else {
                push_xmp_record(path, body.as_slice(), &mut results);
            }
        }
        assert(records_view(results@) =~= before + segment_records(path@, marker, body@));
        assert(segments_from(path@, b, pos as int) == segment_records(path@, marker, body@)
            + segments_from(path@, b, next));
        assert(before + (segment_records(path@, marker, body@) + segments_from(path@, b, next))
            =~= records_view(results@) + segments_from(path@, b, next));
        pos = pos + 2 + len;
    }
}

/// A segment whose marker is neither a comment (`0xFE`) nor APP1 (`0xE1`), and which is not
/// start of scan or end of image, gives no records and the walk goes on right after it: the
/// records from its `0xFF` are those from two bytes plus its length further on.
pub proof fn jpeg_skips_other_segment(path: Seq<char>, b: Seq<u8>, pos: int, len: int)
    requires
        0 <= pos,
        pos + 4 <= b.len(),
        b[pos] == 0xFF,
        b[pos + 1] != 0xFE && b[pos + 1] != 0xE1 && b[pos + 1] != 0xDA && b[pos + 1] != 0xD9,
        len == b[pos + 2] * 256 + b[pos + 3],
        2 <= len,
        pos + 2 + len <= b.len(),
    ensures
        segments_from(path, b, pos) == segments_from(path, b, pos + 2 + len),
{
    let rest = segments_from(path, b, pos + 2 + len);
    assert(segment_records(path, b[pos + 1], b.subrange(pos + 4, pos + 2 + len)) == Seq::<
        RecordSpec,
    >::empty());
    assert(Seq::<RecordSpec>::empty() + rest =~= rest);
}

/// A JPEG file made of start of image, one segment of any other kind (such as an APP0 JFIF
/// header) of length `l1`, a comment segment of length `l2` whose text is not blank, and end
/// of image: its one record is the comment, an A1111 record under the key `COM`.
pub proof fn jpeg_comment_after_other_segment(path: Seq<char>, b: Seq<u8>, l1: int, l2: int)
    requires
        b.len() == 2 + 2 + l1 + 2 + l2 + 2,
        b[0] == 0xFF && b[1] == 0xD8,
        b[2] == 0xFF,
        b[3] != 0xFE && b[3] != 0xE1 && b[3] != 0xDA && b[3] != 0xD9,
        l1 == b[4] * 256 + b[5],
        2 <= l1,
        b[4 + l1] == 0xFF && b[5 + l1] == 0xFE,
        l2 == b[6 + l1] * 256 + b[7 + l1],
        2 <= l2,
        b[6 + l1 + l2] == 0xFF && b[7 + l1 + l2] == 0xD9,
        !is_blank(utf8_lossy(b.subrange(8 + l1, 6 + l1 + l2))),
    ensures
        jpeg_records(path, b) == seq![
            record_with(
                path,
                utf8_lossy(b.subrange(8 + l1, 6 + l1 + l2)),
                Generator::A1111,
                "COM"@,
                a1111_details(utf8_lossy(b.subrange(8 + l1, 6 + l1 + l2))),
            ),
        ],
{
    jpeg_skips_other_segment(path, b, 2, l1);
    let q = 4 + l1;
    let end = q + 2 + l2;
    assert(segments_from(path, b, end) == Seq::<RecordSpec>::empty());
    let found = segment_records(path, 0xFEu8, b.subrange(q + 4, q + 2 + l2));
    assert(segments_from(path, b, q) == found + Seq::<RecordSpec>::empty());
    assert(found + Seq::<RecordSpec>::empty() =~= found);
}

} // verus!
