//! PNG text chunks (`tEXt`, `iTXt`) and the records their keywords yield.
use vstd::prelude::*;
use crate::json::{Json, get_str, json_parse, parse_json};
use crate::text::{utf8_lossy, from_utf8_lossy, is_blank, blank, copy_str, str_equal};
use crate::types::{
    Generator, PromptRecord, RecordSpec, record_with,
};
use crate::extract::a1111::{a1111_details, extract_details};
use crate::extract::comfyui::{
    workflow_prompt, details_of, extractable, extract_workflow, has_extractable_content,
    normalized,
};

verus! {

// ---------------------------------------------------------------------------------------------
// Byte-level helpers.
// ---------------------------------------------------------------------------------------------
/// The position of the first zero byte of `d`.
pub open spec fn zero_pos(d: Seq<u8>) -> Option<int>
    decreases d.len(),
{
    if d.len() == 0 {
        None
    } else if d[0] == 0 {
        Some(0)
    } else {
        match zero_pos(d.drop_first()) {
            Some(i) => Some(i + 1),
            None => None,
        }
    }
}

/// The position of the first zero byte of `d` at or after `from`.
pub fn find_zero(d: &[u8], from: usize) -> (r: Option<usize>)
    requires
        from <= d@.len(),
    ensures
        match r {
            Some(i) => from <= i < d@.len() && zero_pos(d@.skip(from as int)) == Some(i - from),
            None => zero_pos(d@.skip(from as int)) is None,
        },
{
    let mut i = from;
    while i < d.len()
        invariant
            from <= i <= d@.len(),
            zero_pos(d@.skip(from as int)) == match zero_pos(d@.skip(i as int)) {
                Some(k) => Some(k + (i - from)),
                None => None,
            },
        decreases d@.len() - i,
    {
        assert(d@.skip(i as int).drop_first() =~= d@.skip(i + 1));
        if d[i] == 0 {
            return Some(i);
        }
        i += 1;
    }
    None
}

/// The bytes of `d` in positions `from..to`.
pub fn byte_range(d: &[u8], from: usize, to: usize) -> (r: Vec<u8>)
    requires
        from <= to <= d@.len(),
    ensures
        r@ == d@.subrange(from as int, to as int),
{
    let mut r: Vec<u8> = Vec::new();
    let mut i = from;
    while i < to
        invariant
            from <= i <= to <= d@.len(),
            r@ == d@.subrange(from as int, i as int),
        decreases to - i,
    {
        r.push(d[i]);
        assert(d@.subrange(from as int, i + 1) =~= d@.subrange(from as int, i as int).push(
            d@[i as int],
        ));
        i += 1;
    }
    r
}

/// Text of the bytes `d[from..to]`, invalid UTF-8 replaced.
pub fn lossy_range(d: &[u8], from: usize, to: usize) -> (r: String)
    requires
        from <= to <= d@.len(),
    ensures
        r@ == utf8_lossy(d@.subrange(from as int, to as int)),
{
    let b = byte_range(d, from, to);
    from_utf8_lossy(b.as_slice())
}

// ---------------------------------------------------------------------------------------------
// Text chunk payloads.
// ---------------------------------------------------------------------------------------------
/// Model of an optional keyword / value pair.
pub open spec fn opt_pair_view(r: Option<(String, String)>) -> Option<(Seq<char>, Seq<char>)> {
    match r {
        Some((k, v)) => Some((k@, v@)),
        None => None,
    }
}

/// A `tEXt` payload `keyword\0value`: keyword and value as lossy UTF-8.
pub open spec fn text_chunk(d: Seq<u8>) -> Option<(Seq<char>, Seq<char>)> {
    match zero_pos(d) {
        None => None,
        Some(n) => Some((utf8_lossy(d.take(n)), utf8_lossy(d.skip(n + 1)))),
    }
}

/// An uncompressed `iTXt` payload: `keyword\0`, compression flag and method, `language\0`,
/// `translated keyword\0`, then the text.
pub open spec fn itxt_chunk(d: Seq<u8>) -> Option<(Seq<char>, Seq<char>)> {
    match zero_pos(d) {
        None => None,
        Some(kw) => {
            let p = kw + 3;
            if p > d.len() {
                None
            } else {
                match zero_pos(d.skip(p)) {
                    None => None,
                    Some(lang) => {
                        let q = p + lang + 1;
                        match zero_pos(d.skip(q)) {
                            None => None,
                            Some(tr) => Some((utf8_lossy(d.take(kw)), utf8_lossy(d.skip(q + tr + 1)))),
                        }
                    },
                }
            }
        },
    }
}

/// Keyword and value of a `tEXt` chunk.
pub fn parse_text_chunk(data: &[u8]) -> (r: Option<(String, String)>)
    ensures
        opt_pair_view(r) == text_chunk(data@),
{
    let null_pos = match find_zero(data, 0) {
        Some(n) => n,
        None => {
            assert(data@.skip(0) =~= data@);
            return None;
        },
    };
    assert(data@.skip(0) =~= data@);
    let dl = data.len();
    let keyword = lossy_range(data, 0, null_pos);
    let value = lossy_range(data, null_pos + 1, data.len());
    assert(data@.subrange(0, null_pos as int) =~= data@.take(null_pos as int));
    assert(data@.subrange(null_pos + 1, data@.len() as int) =~= data@.skip(null_pos + 1));
    Some((keyword, value))
}

/// Keyword and text of an uncompressed `iTXt` chunk.
pub fn parse_itxt_chunk(data: &[u8]) -> (r: Option<(String, String)>)
    ensures
        opt_pair_view(r) == itxt_chunk(data@),
{
    assert(data@.skip(0) =~= data@);
    let kw_end = match find_zero(data, 0) {
        Some(n) => n,
        None => return None,
    };
    let keyword = lossy_range(data, 0, kw_end);
    assert(data@.subrange(0, kw_end as int) =~= data@.take(kw_end as int));
    let dl = data.len();
    if dl - kw_end < 3 {
        return None;
    }
    let mut pos = kw_end + 3;
    let lang_end = match find_zero(data, pos) {
        Some(n) => n,
        None => return None,
    };
    pos = lang_end + 1;
    let trans_end = match find_zero(data, pos) {
        Some(n) => n,
        None => return None,
    };
    pos = trans_end + 1;
    let value = lossy_range(data, pos, data.len());
    assert(data@.subrange(pos as int, data@.len() as int) =~= data@.skip(pos as int));
    Some((keyword, value))
}

// ---------------------------------------------------------------------------------------------
// Chunk stream.
// ---------------------------------------------------------------------------------------------
/// The PNG signature.
pub open spec fn png_signature() -> Seq<u8> {
    seq![0x89u8, 0x50u8, 0x4Eu8, 0x47u8, 0x0Du8, 0x0Au8, 0x1Au8, 0x0Au8]
}

/// The big-endian 32-bit number at `b[i..i + 4]`.
pub open spec fn be_u32(b: Seq<u8>, i: int) -> int {
    b[i] * 16777216 + b[i + 1] * 65536 + b[i + 2] * 256 + b[i + 3]
}

/// Chunk type `tEXt`.
pub open spec fn type_text() -> Seq<u8> {
    seq![0x74u8, 0x45u8, 0x58u8, 0x74u8]
}

/// Chunk type `iTXt`.
pub open spec fn type_itxt() -> Seq<u8> {
    seq![0x69u8, 0x54u8, 0x58u8, 0x74u8]
}

/// Chunk type `IDAT`.
pub open spec fn type_idat() -> Seq<u8> {
    seq![0x49u8, 0x44u8, 0x41u8, 0x54u8]
}

/// The keyword / value pairs of the text chunks from position `pos` on: chunks are read one
/// after the other (length, type, data, CRC) until the first `IDAT` chunk or the first chunk
/// that the bytes do not hold whole.
pub open spec fn text_chunks_from(b: Seq<u8>, pos: int) -> Seq<(Seq<char>, Seq<char>)>
    decreases b.len() - pos,
{
    if pos < 0 || pos + 8 > b.len() {
        Seq::empty()
    } else {
        let len = be_u32(b, pos);
        let ty = b.subrange(pos + 4, pos + 8);
        if ty == type_idat() || pos + 12 + len > b.len() {
            Seq::empty()
        } else {
            let data = b.subrange(pos + 8, pos + 8 + len);
            let entry = if ty == type_text() {
                text_chunk(data)
            } else if ty == type_itxt() {
                itxt_chunk(data)
            } else {
                None
            };
            let rest = text_chunks_from(b, pos + 12 + len);
            match entry {
                Some(e) => seq![e] + rest,
                None => rest,
            }
        }
    }
}

/// Whether the chunk stream from `pos` on ends in a chunk whose data the bytes cut short.
pub open spec fn truncated_from(b: Seq<u8>, pos: int) -> bool
    decreases b.len() - pos,
{
    if pos < 0 || pos + 8 > b.len() {
        false
    } else {
        let len = be_u32(b, pos);
        if b.subrange(pos + 4, pos + 8) == type_idat() {
            false
        } else if pos + 8 + len > b.len() {
            true
        } else if pos + 12 + len > b.len() {
            false
        } else {
            truncated_from(b, pos + 12 + len)
        }
    }
}

/// The text chunks of a PNG file, when it starts with the PNG signature.
pub open spec fn png_text_chunks(b: Seq<u8>) -> Option<Seq<(Seq<char>, Seq<char>)>> {
    if b.len() >= 8 && b.take(8) == png_signature() {
        Some(text_chunks_from(b, 8))
    } else {
        None
    }
}

/// The result of reading a PNG file's text chunks.
#[derive(Debug)]
pub struct PngText {
    /// Keyword / value pairs, in file order.
    pub chunks: Vec<(String, String)>,
    /// Whether the chunk stream ended in a chunk cut short.
    pub truncated: bool,
}

/// Model of a list of keyword / value pairs.
pub open spec fn pairs_view(v: Seq<(String, String)>) -> Seq<(Seq<char>, Seq<char>)> {
    Seq::new(v.len(), |i: int| (v[i].0@, v[i].1@))
}

pub(crate) fn bytes_equal(b: &[u8], at: usize, expected: &[u8]) -> (r: bool)
    requires
        at + expected@.len() <= b@.len(),
    ensures
        r == (b@.subrange(at as int, at + expected@.len()) == expected@),
{
    let bl = b.len();
    let mut i: usize = 0;
    while i < expected.len()
        invariant
            bl == b@.len(),
            at + expected@.len() <= b@.len(),
            i <= expected@.len(),
            forall|j: int| 0 <= j < i ==> b@[at + j] == expected@[j],
        decreases expected@.len() - i,
    {
        if b[at + i] != expected[i] {
            assert(b@.subrange(at as int, at + expected@.len())[i as int] != expected@[i as int]);
            return false;
        }
        i += 1;
    }
    assert(b@.subrange(at as int, at + expected@.len()) =~= expected@);
    true
}

/// Read the text chunks of a PNG file: `None` when the bytes do not start with the PNG
/// signature; else every `tEXt` and `iTXt` keyword / value pair before the image data, and
/// whether a chunk was cut short.
pub fn read_text_chunks(bytes: &[u8]) -> (r: Option<PngText>)
    ensures
        match r {
            Some(t) => png_text_chunks(bytes@) == Some(pairs_view(t.chunks@)) && t.truncated
                == truncated_from(bytes@, 8),
            None => png_text_chunks(bytes@) is None,
        },
{
    let n = bytes.len();
    let signature: [u8; 8] = [0x89, 0x50, 0x4E, 0x47, 0x0D, 0x0A, 0x1A, 0x0A];
    assert(signature@ =~= png_signature());
    if n < 8 || !bytes_equal(bytes, 0, &signature) {
        proof {
            if n >= 8 {
                assert(bytes@.subrange(0, 8) =~= bytes@.take(8));
            }
        }
        return None;
    }
    assert(bytes@.subrange(0, 8) =~= bytes@.take(8));
    let text_type: [u8; 4] = [0x74, 0x45, 0x58, 0x74];
    let itxt_type: [u8; 4] = [0x69, 0x54, 0x58, 0x74];
    let idat_type: [u8; 4] = [0x49, 0x44, 0x41, 0x54];
    assert(text_type@ =~= type_text());
    assert(itxt_type@ =~= type_itxt());
    assert(idat_type@ =~= type_idat());
    let mut chunks: Vec<(String, String)> = Vec::new();
    let mut pos: usize = 8;
    let mut truncated = false;
    let ghost b = bytes@;
    loop
        invariant_except_break
            8 <= pos <= n,
            text_chunks_from(b, 8) == pairs_view(chunks@) + text_chunks_from(b, pos as int),
            truncated_from(b, 8) == truncated_from(b, pos as int),
            !truncated,
        invariant
            n == bytes@.len(),
            b == bytes@,
            text_type@ == type_text(),
            itxt_type@ == type_itxt(),
            idat_type@ == type_idat(),
        ensures
            text_chunks_from(b, 8) == pairs_view(chunks@),
            truncated == truncated_from(b, 8),
        decreases n - pos,
    {
        if n - pos < 8 {
            assert(pairs_view(chunks@) + Seq::empty() =~= pairs_view(chunks@));
            break;
        }
        let len = (bytes[pos] as u64) * 16777216 + (bytes[pos + 1] as u64) * 65536
            + (bytes[pos + 2] as u64) * 256 + (bytes[pos + 3] as u64);
        assert(len == be_u32(b, pos as int));
        assert(b.subrange(pos + 4, pos + 8) == b.subrange(pos + 4, pos + 4 + idat_type@.len()));
        if bytes_equal(bytes, pos + 4, &idat_type) {
            assert(pairs_view(chunks@) + Seq::empty() =~= pairs_view(chunks@));
            break;
        }
        if len > (n - pos - 8) as u64 {
            truncated = true;
            assert(pairs_view(chunks@) + Seq::empty() =~= pairs_view(chunks@));
            break;
        }
        let len = len as usize;
        if len + 12 > n - pos {
            assert(pairs_view(chunks@) + Seq::empty() =~= pairs_view(chunks@));
            break;
        }
        let data_start = pos + 8;
        let data = byte_range(bytes, data_start, data_start + len);
        let entry = if bytes_equal(bytes, pos + 4, &text_type) {
            parse_text_chunk(data.as_slice())
        } else if bytes_equal(bytes, pos + 4, &itxt_type) {
            parse_itxt_chunk(data.as_slice())
        } else {
            None
        };
        let ghost before = pairs_view(chunks@);
        let ghost next = pos + 12 + len;
        match entry {
            Some(e) => {
                chunks.push(e);
                assert(pairs_view(chunks@) =~= before + seq![(e.0@, e.1@)]);
                assert(text_chunks_from(b, pos as int) == seq![(e.0@, e.1@)] + text_chunks_from(
                    b,
                    next,
                ));
                assert(before + (seq![(e.0@, e.1@)] + text_chunks_from(b, next)) =~= pairs_view(
                    chunks@,
                ) + text_chunks_from(b, next));
            },
            None => {},
        }
        pos = pos + 12 + len;
    }
    Some(PngText { chunks, truncated })
}

// ---------------------------------------------------------------------------------------------
// Keyword routing.
// ---------------------------------------------------------------------------------------------
/// Model of a list of records.
pub open spec fn records_view(v: Seq<PromptRecord>) -> Seq<RecordSpec> {
    Seq::new(v.len(), |i: int| v[i]@)
}

/// The record of a text that A1111 parsing explains, when the text is not blank.
pub open spec fn text_record(path: Seq<char>, value: Seq<char>, g: Generator, key: Seq<char>) -> Seq<
    RecordSpec,
> {
    if is_blank(value) {
        Seq::empty()
    } else {
        seq![record_with(path, value, g, key, a1111_details(value))]
    }
}

/// The records that a PNG text chunk yields. `json` is its value parsed as JSON, when it
/// parses: `parameters` is A1111 text; `prompt` is a ComfyUI workflow (kept when it yields
/// anything) or, not being JSON, plain text; `Comment` is NovelAI JSON whose `prompt` string
/// is the prompt or, not being JSON, plain text; `Description` is NovelAI plain text.
pub open spec fn keyword_records(
    path: Seq<char>,
    keyword: Seq<char>,
    value: Seq<char>,
    json: Option<Json>,
) -> Seq<RecordSpec> {
    if keyword == "parameters"@ {
        seq![record_with(path, value, Generator::A1111, keyword, a1111_details(value))]
    } else if keyword == "prompt"@ {
        match json {
            Some(j) => {
                let p = workflow_prompt(j);
                let d = details_of(normalized(j));
                if extractable(p, d) {
                    seq![record_with(path, p, Generator::ComfyUI, keyword, d)]
                } else {
                    Seq::empty()
                }
            },
            None => text_record(path, value, Generator::Unknown, keyword),
        }
    } else if keyword == "Comment"@ {
        match json {
            Some(j) => match get_str(j, "prompt"@) {
                Some(p) => seq![record_with(path, p, Generator::NovelAI, keyword, a1111_details(p))],
                None => Seq::empty(),
            },
            None => text_record(path, value, Generator::Unknown, keyword),
        }
    } else if keyword == "Description"@ {
        text_record(path, value, Generator::NovelAI, keyword)
    } else {
        Seq::empty()
    }
}


fn push_text_record(
    path: &str,
    value: &str,
    generator: Generator,
    keyword: &str,
    results: &mut Vec<PromptRecord>,
)
    ensures
        records_view(final(results)@) == records_view(old(results)@) + text_record(
            path@,
            value@,
            generator,
            keyword@,
        ),
{
    let ghost before = records_view(results@);
    if !blank(value) {
        let r = PromptRecord::with_details(
            copy_str(path),
            copy_str(value),
            generator,
            keyword,
            extract_details(value),
        );
        results.push(r);
        assert(records_view(results@) =~= before + text_record(path@, value@, generator, keyword@));
    } else {
        assert(records_view(results@) =~= before + text_record(path@, value@, generator, keyword@));
    }
}

/// Append the records that one PNG text chunk yields; `json` is its value parsed as JSON,
/// when it parses.
pub fn process_keyword(path: &str, keyword: &str, value: &str, results: &mut Vec<PromptRecord>)
    ensures
        records_view(final(results)@) == records_view(old(results)@) + keyword_records(
            path@,
            keyword@,
            value@,
            json_parse(value@),
        ),
{
    let ghost before = records_view(results@);
    if str_equal(keyword, "parameters") {
        let r = PromptRecord::with_details(
            copy_str(path),
            copy_str(value),
            Generator::A1111,
            keyword,
            extract_details(value),
        );
        results.push(r);
        assert(records_view(results@) =~= before + keyword_records(
            path@,
            keyword@,
            value@,
            json_parse(value@),
        ));
    } else if str_equal(keyword, "prompt") {
        match parse_json(value) {
            Some(j) => {
                let (prompt, details) = extract_workflow(&j);
                if has_extractable_content(prompt.as_str(), &details) {
                    let r = PromptRecord::with_details(
                        copy_str(path),
                        prompt,
                        Generator::ComfyUI,
                        keyword,
                        details,
                    );
                    results.push(r);
                }
                assert(records_view(results@) =~= before + keyword_records(
                    path@,
                    keyword@,
                    value@,
                    json_parse(value@),
                ));
            },
            None => {
                push_text_record(path, value, Generator::Unknown, keyword, results);
            },
        }
    } else if str_equal(keyword, "Comment") {
        match parse_json(value) {
            Some(j) => {
                match j.get("prompt") {
                    Some(p) => match p.as_str() {
                        Some(prompt) => {
                            let r = PromptRecord::with_details(
                                copy_str(path),
                                prompt.clone(),
                                Generator::NovelAI,
                                keyword,
                                extract_details(prompt.as_str()),
                            );
                            results.push(r);
                        },
                        None => {},
                    },
                    None => {},
                }
                assert(records_view(results@) =~= before + keyword_records(
                    path@,
                    keyword@,
                    value@,
                    json_parse(value@),
                ));
            },
            None => {
                push_text_record(path, value, Generator::Unknown, keyword, results);
            },
        }
    } else if str_equal(keyword, "Description") {
        push_text_record(path, value, Generator::NovelAI, keyword, results);
    } else {
        assert(records_view(results@) =~= before + keyword_records(
            path@,
            keyword@,
            value@,
            json_parse(value@),
        ));
    }
}

/// The records of text chunks, in order.
pub open spec fn chunk_records(path: Seq<char>, chunks: Seq<(Seq<char>, Seq<char>)>) -> Seq<
    RecordSpec,
>
    decreases chunks.len(),
{
    if chunks.len() == 0 {
        Seq::empty()
    } else {
        chunk_records(path, chunks.drop_last()) + keyword_records(
            path,
            chunks.last().0,
            chunks.last().1,
            json_parse(chunks.last().1),
        )
    }
}

/// The records of a PNG file: those of its text chunks, none when it is not a PNG file.
pub open spec fn png_records(path: Seq<char>, b: Seq<u8>) -> Seq<RecordSpec> {
    match png_text_chunks(b) {
        Some(cs) => chunk_records(path, cs),
        None => Seq::empty(),
    }
}

/// The prompt records of a PNG file's `tEXt` and `iTXt` chunks, in chunk order.
pub fn extract(path: &str, bytes: &[u8]) -> (results: Vec<PromptRecord>)
    ensures
        records_view(results@) == png_records(path@, bytes@),
{
    let mut results: Vec<PromptRecord> = Vec::new();
    let text = match read_text_chunks(bytes) {
        Some(t) => t,
        None => {
            assert(records_view(results@) =~= Seq::<RecordSpec>::empty());
            return results;
        },
    };
    let chunks = &text.chunks;
    let ghost cs = pairs_view(chunks@);
    let mut i: usize = 0;
    assert(records_view(results@) =~= chunk_records(path@, cs.take(0)));
    while i < chunks.len()
        invariant
            i <= chunks@.len(),
            cs == pairs_view(chunks@),
            records_view(results@) == chunk_records(path@, cs.take(i as int)),
        decreases chunks@.len() - i,
    {
        assert(cs.take(i + 1).drop_last() =~= cs.take(i as int));
        process_keyword(path, chunks[i].0.as_str(), chunks[i].1.as_str(), &mut results);
        i += 1;
    }
    assert(cs.take(cs.len() as int) =~= cs);
    results
}

} // verus!
