//! EXIF `UserComment`: a minimal TIFF IFD walk over an EXIF block, without an EXIF library.
use vstd::prelude::*;
use crate::text::{utf8_lossy, utf16_lossy, from_utf8_lossy, from_utf16_lossy};
use crate::extract::comfyui::{non_empty_spec, non_empty};
use crate::extract::png::byte_range;

verus! {

/// Tag of the EXIF sub-IFD pointer.
pub open spec fn exif_ifd_tag() -> int {
    0x8769
}

/// Tag of `UserComment`.
pub open spec fn user_comment_tag() -> int {
    0x9286
}

/// How many IFD pointers a walk follows below IFD0.
pub open spec fn max_ifd_depth() -> nat {
    4
}

/// A 16-bit number at `b[i..i + 2]`, little-endian when `le`.
pub open spec fn rd16(b: Seq<u8>, i: int, le: bool) -> int {
    if le {
        b[i] + b[i + 1] * 256
    } else {
        b[i] * 256 + b[i + 1]
    }
}

/// A 32-bit number at `b[i..i + 4]`, little-endian when `le`.
pub open spec fn rd32(b: Seq<u8>, i: int, le: bool) -> int {
    if le {
        b[i] + b[i + 1] * 256 + b[i + 2] * 65536 + b[i + 3] * 16777216
    } else {
        b[i] * 16777216 + b[i + 1] * 65536 + b[i + 2] * 256 + b[i + 3]
    }
}

/// The `Exif\0\0` prefix of an EXIF block.
pub open spec fn exif_prefix() -> Seq<u8> {
    seq![0x45u8, 0x78u8, 0x69u8, 0x66u8, 0u8, 0u8]
}

/// The character code prefix `ASCII\0\0\0`.
pub open spec fn ascii_code() -> Seq<u8> {
    seq![0x41u8, 0x53u8, 0x43u8, 0x49u8, 0x49u8, 0u8, 0u8, 0u8]
}

/// The character code prefix `UNICODE\0`.
pub open spec fn unicode_code() -> Seq<u8> {
    seq![0x55u8, 0x4Eu8, 0x49u8, 0x43u8, 0x4Fu8, 0x44u8, 0x45u8, 0u8]
}

/// The TIFF data of an EXIF block: what follows `Exif\0\0`, or the whole block.
pub open spec fn tiff_of(d: Seq<u8>) -> Seq<u8> {
    if d.len() >= 6 && d.take(6) == exif_prefix() {
        d.skip(6)
    } else {
        d
    }
}

/// The byte order of a TIFF header (`true` for little-endian "II", `false` for big-endian
/// "MM"), when the header is one with the magic number 42.
pub open spec fn tiff_order(t: Seq<u8>) -> Option<bool> {
    if t.len() < 8 {
        None
    } else if t[0] == 0x49 && t[1] == 0x49 && rd16(t, 2, true) == 42 {
        Some(true)
    } else if t[0] == 0x4D && t[1] == 0x4D && rd16(t, 2, false) == 42 {
        Some(false)
    } else {
        None
    }
}

/// 16-bit code units from pairs of bytes (a trailing odd byte is dropped).
pub open spec fn utf16_units(b: Seq<u8>, le: bool) -> Seq<u16> {
    Seq::new(b.len() / 2, |i: int| rd16(b, 2 * i, le) as u16)
}

/// UTF-16 text with an optional byte order mark; without one, in the TIFF byte order.
pub open spec fn decode_utf16(b: Seq<u8>, le: bool) -> Seq<char> {
    if b.len() >= 2 && b[0] == 0xFE && b[1] == 0xFF {
        utf16_lossy(utf16_units(b.skip(2), false))
    } else if b.len() >= 2 && b[0] == 0xFF && b[1] == 0xFE {
        utf16_lossy(utf16_units(b.skip(2), true))
    } else {
        utf16_lossy(utf16_units(b, le))
    }
}

/// `s` without trailing NUL characters.
pub open spec fn trim_end_nul(s: Seq<char>) -> Seq<char>
    decreases s.len(),
{
    if s.len() > 0 && s.last() == '\0' {
        trim_end_nul(s.drop_last())
    } else {
        s
    }
}

/// The text of a `UserComment` value: after an `ASCII` code as lossy UTF-8, after a `UNICODE`
/// code as UTF-16, otherwise the whole value as lossy UTF-8; without trailing NULs and
/// trimmed, when non-empty.
pub open spec fn decode_comment(p: Seq<u8>, le: bool) -> Option<Seq<char>> {
    let text = if p.len() >= 8 && p.take(8) == ascii_code() {
        utf8_lossy(p.skip(8))
    } else if p.len() >= 8 && p.take(8) == unicode_code() {
        decode_utf16(p.skip(8), le)
    } else {
        utf8_lossy(p)
    };
    non_empty_spec(trim_end_nul(text))
}

/// The value of the IFD entry at `e` as far as the bytes hold it: `count` bytes, inline when
/// they fit in four, else at the offset the entry gives.
pub open spec fn entry_value(t: Seq<u8>, e: int, le: bool) -> Seq<u8> {
    let count = rd32(t, e + 4, le);
    let at = if count <= 4 {
        e + 8
    } else {
        rd32(t, e + 8, le)
    };
    if at > t.len() {
        Seq::empty()
    } else if at + count > t.len() {
        t.skip(at)
    } else {
        t.subrange(at, at + count)
    }
}

/// The first user comment found among entries `k..n` of the IFD at `off`, following EXIF IFD
/// pointers while `fuel` lasts; an entry that the bytes do not hold ends the walk of its IFD.
pub open spec fn scan_entries(t: Seq<u8>, le: bool, off: int, n: int, k: int, fuel: nat) -> Option<
    Seq<char>,
>
    decreases fuel, n - k,
{
    if k >= n || off < 0 {
        None
    } else {
        let e = off + 2 + 12 * k;
        if e + 12 > t.len() {
            None
        } else {
            let tag = rd16(t, e, le);
            if tag == user_comment_tag() && decode_comment(entry_value(t, e, le), le) is Some {
                decode_comment(entry_value(t, e, le), le)
            } else if tag == exif_ifd_tag() && fuel > 0 {
                let sub = rd32(t, e + 8, le);
                let found = if sub + 2 > t.len() {
                    None
                } else {
                    scan_entries(t, le, sub, rd16(t, sub, le), 0, (fuel - 1) as nat)
                };
                match found {
                    Some(c) => Some(c),
                    None => scan_entries(t, le, off, n, k + 1, fuel),
                }
            } else {
                scan_entries(t, le, off, n, k + 1, fuel)
            }
        }
    }
}

/// The `UserComment` text of an EXIF block, found from IFD0 through EXIF IFD pointers.
pub open spec fn user_comment(d: Seq<u8>) -> Option<Seq<char>> {
    let t = tiff_of(d);
    match tiff_order(t) {
        None => None,
        Some(le) => {
            let ifd0 = rd32(t, 4, le);
            if ifd0 + 2 > t.len() {
                None
            } else {
                scan_entries(t, le, ifd0, rd16(t, ifd0, le), 0, max_ifd_depth())
            }
        },
    }
}

fn read16(b: &[u8], i: usize, le: bool) -> (r: u64)
    requires
        i + 2 <= b@.len(),
    ensures
        r == rd16(b@, i as int, le),
{
    if le {
        (b[i] as u64) + (b[i + 1] as u64) * 256
    } else {
        (b[i] as u64) * 256 + (b[i + 1] as u64)
    }
}

fn read32(b: &[u8], i: usize, le: bool) -> (r: u64)
    requires
        i + 4 <= b@.len(),
    ensures
        r == rd32(b@, i as int, le),
{
    if le {
        (b[i] as u64) + (b[i + 1] as u64) * 256 + (b[i + 2] as u64) * 65536 + (b[i + 3] as u64)
            * 16777216
    } else {
        (b[i] as u64) * 16777216 + (b[i + 1] as u64) * 65536 + (b[i + 2] as u64) * 256 + (b[i
            + 3] as u64)
    }
}

fn has_prefix(b: &[u8], p: &[u8]) -> (r: bool)
    ensures
        r == (b@.len() >= p@.len() && b@.take(p@.len() as int) == p@),
{
    if b.len() < p.len() {
        return false;
    }
    let mut i: usize = 0;
    while i < p.len()
        invariant
            p@.len() <= b@.len(),
            i <= p@.len(),
            forall|j: int| 0 <= j < i ==> b@[j] == p@[j],
        decreases p@.len() - i,
    {
        if b[i] != p[i] {
            assert(b@.take(p@.len() as int)[i as int] != p@[i as int]);
            return false;
        }
        i += 1;
    }
    assert(b@.take(p@.len() as int) =~= p@);
    true
}

fn units_of(b: &[u8], from: usize, le: bool) -> (r: Vec<u16>)
    requires
        from <= b@.len(),
    ensures
        r@ == utf16_units(b@.skip(from as int), le),
{
    let ghost s = b@.skip(from as int);
    let mut r: Vec<u16> = Vec::new();
    let mut i: usize = 0;
    let bl = b.len();
    let half = (bl - from) / 2;
    while i < half
        invariant
            bl == b@.len(),
            half == (bl - from) / 2,
            from <= b@.len(),
            s == b@.skip(from as int),
            half == s.len() / 2,
            i <= half,
            r@.len() == i,
            forall|j: int| 0 <= j < i ==> r@[j] == rd16(s, 2 * j, le) as u16,
        decreases half - i,
    {
        assert(from + 2 * i + 2 <= bl) by (nonlinear_arith)
            requires
                i < half,
                half == (bl - from) / 2,
                from <= bl,
        ;
        let v = read16(b, from + 2 * i, le);
        assert(v == rd16(s, 2 * i, le));
        r.push(v as u16);
        i += 1;
    }
    assert(r@ =~= utf16_units(s, le));
    r
}

fn decode_utf16_bytes(b: &[u8], from: usize, le: bool) -> (r: String)
    requires
        from <= b@.len(),
    ensures
        r@ == decode_utf16(b@.skip(from as int), le),
{
    let ghost s = b@.skip(from as int);
    if b.len() - from >= 2 && b[from] == 0xFE && b[from + 1] == 0xFF {
        assert(s.skip(2) =~= b@.skip(from + 2));
        let u = units_of(b, from + 2, false);
        from_utf16_lossy(u.as_slice())
    } else if b.len() - from >= 2 && b[from] == 0xFF && b[from + 1] == 0xFE {
        assert(s.skip(2) =~= b@.skip(from + 2));
        let u = units_of(b, from + 2, true);
        from_utf16_lossy(u.as_slice())
    } else {
        let u = units_of(b, from, le);
        from_utf16_lossy(u.as_slice())
    }
}

fn without_trailing_nul(s: &str) -> (r: String)
    ensures
        r@ == trim_end_nul(s@),
{
    let v = crate::text::to_chars(s);
    let mut end = v.len();
    assert(v@.take(v@.len() as int) =~= v@);
    while end > 0 && v[end - 1] == '\0'
        invariant
            end <= v@.len(),
            trim_end_nul(v@) == trim_end_nul(v@.take(end as int)),
        decreases end,
    {
        assert(v@.take(end as int).drop_last() =~= v@.take(end - 1));
        end -= 1;
    }
    let r = crate::text::from_char_range(&v, 0, end);
    assert(v@.subrange(0, end as int) =~= v@.take(end as int));
    r
}

/// The text of a `UserComment` value.
fn decode_comment_bytes(p: &[u8], le: bool) -> (r: Option<String>)
    ensures
        crate::types::opt_str(r) == decode_comment(p@, le),
{
    let ascii: [u8; 8] = [0x41, 0x53, 0x43, 0x49, 0x49, 0, 0, 0];
    let unicode: [u8; 8] = [0x55, 0x4E, 0x49, 0x43, 0x4F, 0x44, 0x45, 0];
    assert(ascii@ =~= ascii_code());
    assert(unicode@ =~= unicode_code());
    let text = if has_prefix(p, &ascii) {
        let rest = byte_range(p, 8, p.len());
        assert(rest@ =~= p@.skip(8));
        from_utf8_lossy(rest.as_slice())
    } else if has_prefix(p, &unicode) {
        decode_utf16_bytes(p, 8, le)
    } else {
        from_utf8_lossy(p)
    };
    let stripped = without_trailing_nul(text.as_str());
    non_empty(stripped.as_str())
}

fn entry_value_bytes(t: &[u8], e: usize, le: bool) -> (r: Vec<u8>)
    requires
        e + 12 <= t@.len(),
    ensures
        r@ == entry_value(t@, e as int, le),
{
    let tl = t.len();
    let count = read32(t, e + 4, le);
    let at: u64 = if count <= 4 {
        (e + 8) as u64
    } else {
        read32(t, e + 8, le)
    };
    if at > tl as u64 {
        let r: Vec<u8> = Vec::new();
        assert(r@ =~= Seq::<u8>::empty());
        return r;
    }
    let at = at as usize;
    if count > (tl - at) as u64 {
        let r = byte_range(t, at, tl);
        assert(r@ =~= t@.skip(at as int));
        r
    } else {
        byte_range(t, at, at + count as usize)
    }
}

fn scan_ifd_entries(t: &[u8], le: bool, off: usize, n: u64, k: u64, fuel: u64) -> (r: Option<
    String,
>)
    requires
        n <= 0xFFFF,
        k <= n,
    ensures
        crate::types::opt_str(r) == scan_entries(t@, le, off as int, n as int, k as int, fuel as nat),
    decreases fuel, n - k,
{
    let tl = t.len();
    if k >= n {
        return None;
    }
    if off > tl || tl - off < 2 || (tl - off - 2) / 12 < k as usize {
        assert(off + 2 + 12 * k + 12 > t@.len()) by (nonlinear_arith)
            requires
                off > tl || tl - off < 2 || (tl - off - 2) / 12 < k,
                tl == t@.len(),
        ;
        return None;
    }
    let e = off + 2 + 12 * (k as usize);
    if tl - e < 12 {
        return None;
    }
    let tag = read16(t, e, le);
    if tag == 0x9286 {
        let value = entry_value_bytes(t, e, le);
        if let Some(c) = decode_comment_bytes(value.as_slice(), le) {
            return Some(c);
        }
    } else if tag == 0x8769 && fuel > 0 {
        let sub = read32(t, e + 8, le);
        let found = if sub > tl as u64 || (tl as u64) - sub < 2 {
            None
        } else {
            let sub = sub as usize;
            let count = read16(t, sub, le);
            scan_ifd_entries(t, le, sub, count, 0, fuel - 1)
        };
        if found.is_some() {
            return found;
        }
    }
    scan_ifd_entries(t, le, off, n, k + 1, fuel)
}

/// The text of the `UserComment` tag of an EXIF block (with or without its `Exif\0\0` prefix),
/// found from IFD0 through EXIF IFD pointers; every read stays within the block, and a value
/// longer than the block is read as far as the block goes.
pub fn extract_user_comment(data: &[u8]) -> (r: Option<String>)
    ensures
        crate::types::opt_str(r) == user_comment(data@),
{
    let prefix: [u8; 6] = [0x45, 0x78, 0x69, 0x66, 0, 0];
    assert(prefix@ =~= exif_prefix());
    let t = if has_prefix(data, &prefix) {
        let r = byte_range(data, 6, data.len());
        assert(r@ =~= data@.skip(6));
        r
    } else {
        byte_range(data, 0, data.len())
    };
    assert(data@.subrange(0, data@.len() as int) =~= data@);
    let tl = t.len();
    if tl < 8 {
        return None;
    }
    let le = if t[0] == 0x49 && t[1] == 0x49 && read16(t.as_slice(), 2, true) == 42 {
        true
    } else if t[0] == 0x4D && t[1] == 0x4D && read16(t.as_slice(), 2, false) == 42 {
        false
    } else {
        return None;
    };
    let ifd0 = read32(t.as_slice(), 4, le);
    if ifd0 > tl as u64 || (tl as u64) - ifd0 < 2 {
        return None;
    }
    let ifd0 = ifd0 as usize;
    let count = read16(t.as_slice(), ifd0, le);
    scan_ifd_entries(t.as_slice(), le, ifd0, count, 0, 4)
}

/// Entry `i` of the IFD at `off` lies within the bytes and its tag (the 16 bits that open
/// its twelve bytes) is neither `UserComment` (`0x9286`) nor an EXIF IFD pointer (`0x8769`).
pub open spec fn other_ifd_entry(t: Seq<u8>, off: int, i: int, le: bool) -> bool {
    &&& off + 2 + 12 * i + 12 <= t.len()
    &&& rd16(t, off + 2 + 12 * i, le) != 0x9286
    &&& rd16(t, off + 2 + 12 * i, le) != 0x8769
}

proof fn lemma_scan_passes_other_tags(t: Seq<u8>, le: bool, off: int, n: int, k: int, j: int, fuel: nat)
    requires
        0 <= off,
        0 <= k <= j < n,
        forall|i: int| k <= i < j ==> #[trigger] other_ifd_entry(t, off, i, le),
    ensures
        scan_entries(t, le, off, n, k, fuel) == scan_entries(t, le, off, n, j, fuel),
    decreases j - k,
{
    if k < j {
        assert(other_ifd_entry(t, off, k, le));
        lemma_scan_passes_other_tags(t, le, off, n, k + 1, j, fuel);
    }
}

/// The `UserComment` of the EXIF sub-IFD is found through IFD0's EXIF IFD pointer: when
/// entry `j` of IFD0 carries tag `0x8769` pointing at an IFD whose first entry is a
/// `UserComment` (tag `0x9286`) with text `c`, and no earlier entry of IFD0 is a
/// `UserComment` or another EXIF IFD pointer, the block's user comment is `c`.
pub proof fn user_comment_through_exif_ifd(d: Seq<u8>, le: bool, j: int, c: Seq<char>)
    requires
        tiff_order(tiff_of(d)) == Some(le),
        ({
            let t = tiff_of(d);
            let ifd0 = rd32(t, 4, le);
            let e = ifd0 + 2 + 12 * j;
            let sub = rd32(t, e + 8, le);
            &&& ifd0 + 2 <= t.len()
            &&& 0 <= j < rd16(t, ifd0, le)
            &&& forall|i: int| 0 <= i < j ==> #[trigger] other_ifd_entry(t, ifd0, i, le)
            &&& e + 12 <= t.len()
            &&& rd16(t, e, le) == 0x8769
            &&& sub + 14 <= t.len()
            &&& rd16(t, sub, le) >= 1
            &&& rd16(t, sub + 2, le) == 0x9286
            &&& decode_comment(entry_value(t, sub + 2, le), le) == Some(c)
        }),
    ensures
        user_comment(d) == Some(c),
{
    let t = tiff_of(d);
    let ifd0 = rd32(t, 4, le);
    let n = rd16(t, ifd0, le);
    let e = ifd0 + 2 + 12 * j;
    let sub = rd32(t, e + 8, le);
    lemma_scan_passes_other_tags(t, le, ifd0, n, 0, j, max_ifd_depth());
    assert(scan_entries(t, le, sub, rd16(t, sub, le), 0, 3) == Some(c));
    assert(scan_entries(t, le, ifd0, n, j, max_ifd_depth()) == Some(c));
}

} // verus!
