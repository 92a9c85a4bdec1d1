//! Prompt extraction from image metadata, and the parsing of A1111-style parameter text.
pub mod a1111;
pub mod comfyui;
pub mod png;
pub mod exif;
pub mod jpeg;
pub mod webp;

use vstd::prelude::*;
use crate::json::{JsonValue, json_parse, parse_json};
use crate::text::{
    find, find_chars, starts_with, starts_with_chars, trim, trim_start, trim_bounds, to_chars,
    from_char_range, slice_from, slice_range, is_float, is_float_text, lemma_find_from, is_ws,
};
use crate::types::{LoraInfo, LoraSpec, loras_view, opt_str};
use crate::extract::comfyui::{
    add_lora, has_lora_named, details_of, extract_details_from_workflow, distinct_names,
    lemma_add_lora_distinct,
};
use crate::text::{str_lowercase, lowercase_str, str_equal};
use crate::extract::a1111::{parse_model, extract_model};
use crate::json::{key_lt, key_less};
use crate::types::{PromptRecord, RecordSpec};
use crate::extract::png::{records_view, png_records};
use crate::extract::jpeg::jpeg_records;
use crate::extract::webp::webp_records;

verus! {

// ---------------------------------------------------------------------------------------------
// Line markers and settings.
// ---------------------------------------------------------------------------------------------
/// Where `marker` starts a line of `t`: at its start, or right after a new line.
pub open spec fn line_marker(t: Seq<char>, marker: Seq<char>) -> Option<int> {
    if starts_with(t, marker) {
        Some(0)
    } else {
        match find(t, seq!['\n'] + marker) {
            Some(i) => Some(i + 1),
            None => None,
        }
    }
}

/// Find line marker (either at start or after newline); the position counts characters.
pub fn find_line_marker(text: &[char], marker: &[char]) -> (r: Option<usize>)
    ensures
        match r {
            Some(i) => line_marker(text@, marker@) == Some(i as int) && i <= text@.len(),
            None => line_marker(text@, marker@) is None,
        },
{
    let tl = text.len();
    if starts_with_chars(text, marker) {
        return Some(0);
    }
    let mut pattern: Vec<char> = Vec::new();
    pattern.push('\n');
    let mut j: usize = 0;
    while j < marker.len()
        invariant
            j <= marker@.len(),
            pattern@ == seq!['\n'] + marker@.take(j as int),
        decreases marker@.len() - j,
    {
        pattern.push(marker[j]);
        assert(marker@.take(j + 1) =~= marker@.take(j as int).push(marker@[j as int]));
        assert(pattern@ =~= seq!['\n'] + marker@.take(j + 1));
        j += 1;
    }
    assert(marker@.take(marker@.len() as int) =~= marker@);
    match find_chars(text, &pattern, 0) {
        Some(i) => {
            proof {
                lemma_find_from(text@, pattern@, 0);
            }
            Some(i + 1)
        },
        None => None,
    }
}

/// Extract model name from settings text (e.g. `Steps: 30, Model: base.safetensors, Seed: 1`):
/// the value after `, Model:` (or a line starting `Model:`, or any `Model:`), up to the next
/// comma or new line, or the quoted text when the value is quoted.
pub fn extract_model_from_settings(settings: &str) -> (r: Option<String>)
    ensures
        opt_str(r) == parse_model(settings@),
{
    extract_model(settings)
}

// ---------------------------------------------------------------------------------------------
// Positive / negative prompt split.
// ---------------------------------------------------------------------------------------------
/// Model of an optional string triple.
pub open spec fn opt_triple(r: (Option<String>, Option<String>, Option<String>)) -> (
    Option<Seq<char>>,
    Option<Seq<char>>,
    Option<Seq<char>>,
) {
    (opt_str(r.0), opt_str(r.1), opt_str(r.2))
}

/// Positive prompt, negative prompt and model of a parameters text. The text before a line
/// starting with `Steps:` is the body; the body splits at `Negative prompt:`. The model comes
/// from the settings, or from the whole text when there are none.
pub open spec fn prompt_and_model(t: Seq<char>) -> (
    Option<Seq<char>>,
    Option<Seq<char>>,
    Option<Seq<char>>,
) {
    if trim(t).len() == 0 {
        (None, None, None)
    } else {
        let body = match line_marker(t, "Steps:"@) {
            Some(i) => t.take(i),
            None => t,
        };
        let model = match line_marker(t, "Steps:"@) {
            Some(i) => parse_model(trim(t.skip(i))),
            None => parse_model(t),
        };
        match find(body, "Negative prompt:"@) {
            Some(i) => (Some(trim(body.take(i))), Some(trim(body.skip(i + 16))), model),
            None => (
                Some(
                    if starts_with(trim_start(body), "Steps:"@) {
                        Seq::empty()
                    } else {
                        trim(body)
                    },
                ),
                None,
                model,
            ),
        }
    }
}

/// The trimmed text of `v`.
fn trimmed(v: &[char]) -> (r: String)
    ensures
        r@ == trim(v@),
{
    let (a, b) = trim_bounds(v);
    from_char_range(v, a, b)
}

/// Whether `v` begins with `marker` once its leading white space is dropped.
fn starts_after_space(v: &[char], marker: &[char]) -> (r: bool)
    ensures
        r == starts_with(trim_start(v@), marker@),
{
    let mut a: usize = 0;
    assert(v@.skip(0) =~= v@);
    while a < v.len() && crate::text::is_whitespace(v[a])
        invariant
            a <= v@.len(),
            trim_start(v@) == trim_start(v@.skip(a as int)),
        decreases v@.len() - a,
    {
        assert(v@.skip(a as int).drop_first() =~= v@.skip(a + 1));
        a += 1;
    }
    let rest = slice_from(v, a);
    assert(trim_start(rest@) == rest@);
    starts_with_chars(&rest, marker)
}

/// Parse prompt text and extract positive/negative prompts and model.
pub fn parse_prompt_and_model(text: &str) -> (r: (Option<String>, Option<String>, Option<String>))
    ensures
        opt_triple(r) == prompt_and_model(text@),
{
    let t = to_chars(text);
    let (a, b) = trim_bounds(&t);
    if a == b {
        return (None, None, None);
    }
    let steps = to_chars("Steps:");
    let marker = find_line_marker(&t, &steps);
    let (body, settings) = match marker {
        Some(idx) => (slice_range(&t, 0, idx), Some(slice_from(&t, idx))),
        None => (slice_from(&t, 0), None),
    };
    proof {
        if marker is Some {
            assert(body@ =~= t@.take(marker.unwrap() as int));
        } else {
            assert(body@ =~= t@);
        }
    }
    let model = match &settings {
        Some(s) => {
            let st = trimmed(s);
            extract_model_from_settings(st.as_str())
        },
        None => extract_model_from_settings(text),
    };
    let negative = to_chars("Negative prompt:");
    let body_len = body.len();
    match find_chars(&body, &negative, 0) {
        Some(idx) => {
            proof {
                reveal_strlit("Negative prompt:");
            }
            let positive = trimmed(&slice_range(&body, 0, idx));
            let negative_text = trimmed(&slice_from(&body, idx + 16));
            proof {
                assert(body@.subrange(0, idx as int) =~= body@.take(idx as int));
            }
            (Some(positive), Some(negative_text), model)
        },
        None => {
            let positive = if starts_after_space(&body, &steps) {
                String::new()
            } else {
                trimmed(&body)
            };
            (Some(positive), None, model)
        },
    }
}

// ---------------------------------------------------------------------------------------------
// LoRA tags.
// ---------------------------------------------------------------------------------------------
/// The position of the last `c` in `s`.
pub open spec fn last_index(s: Seq<char>, c: char) -> Option<int>
    decreases s.len(),
{
    if s.len() == 0 {
        None
    } else if s.last() == c {
        Some(s.len() - 1)
    } else {
        last_index(s.drop_last(), c)
    }
}

/// Name and weight of a tag body `name:weight`, split at its last colon and trimmed; a body
/// without a colon is all weight and no name.
pub open spec fn tag_parts(tag: Seq<char>) -> (Seq<char>, Seq<char>) {
    match last_index(tag, ':') {
        Some(k) => (trim(tag.take(k)), trim(tag.skip(k + 1))),
        None => (Seq::empty(), trim(tag)),
    }
}

/// `acc` with the LoRA `name` of weight `weight` appended when both are non-empty, the name is
/// new and the weight reads as a float.
pub open spec fn add_tag(acc: Seq<LoraSpec>, name: Seq<char>, weight: Seq<char>) -> Seq<LoraSpec> {
    if name.len() > 0 && weight.len() > 0 && !has_lora_named(acc, name) && is_float_text(weight) {
        acc.push(LoraSpec { name, weight })
    } else {
        acc
    }
}

/// The LoRAs of the tags `{open}name:weight{close}` in `rest`, after those in `acc`; an
/// unclosed tag ends the scan.
pub open spec fn loras_from(acc: Seq<LoraSpec>, rest: Seq<char>, open: Seq<char>, close: char) -> Seq<
    LoraSpec,
>
    decreases rest.len(),
{
    match find(rest, open) {
        None => acc,
        Some(st) => {
            proof {
                lemma_find_from(rest, open, 0);
            }
            let after = rest.skip(st + open.len());
            match find(after, seq![close]) {
                None => acc,
                Some(e) => {
                    proof {
                        lemma_find_from(after, seq![close], 0);
                    }
                    let (name, weight) = tag_parts(after.take(e));
                    loras_from(add_tag(acc, name, weight), after.skip(e + 1), open, close)
                },
            }
        },
    }
}

/// Whether `c` can be part of the name in a `name:(weight)` tag.
pub open spec fn name_char(c: char) -> bool {
    !is_ws(c) && c != '(' && c != ')' && c != ',' && c != '<' && c != '>' && c != ':'
}

/// Where the name that ends `s` begins: the start of the run of name characters at its end.
pub open spec fn word_start(s: Seq<char>) -> int
    decreases s.len(),
{
    if s.len() == 0 || !name_char(s.last()) {
        s.len() as int
    } else {
        word_start(s.drop_last())
    }
}

/// The LoRAs of the tags `name:(weight)` in `rest`, after those in `acc`: the name is the run
/// of name characters right before `:(`, the weight the trimmed text up to `)`; an unclosed tag
/// ends the scan.
pub open spec fn colon_loras(acc: Seq<LoraSpec>, rest: Seq<char>) -> Seq<LoraSpec>
    decreases rest.len(),
{
    match find(rest, seq![':', '(']) {
        None => acc,
        Some(st) => {
            proof {
                lemma_find_from(rest, seq![':', '('], 0);
            }
            let after = rest.skip(st + 2);
            match find(after, seq![')']) {
                None => acc,
                Some(e) => {
                    proof {
                        lemma_find_from(after, seq![')'], 0);
                    }
                    let before = rest.take(st);
                    let name = before.skip(word_start(before));
                    colon_loras(add_tag(acc, name, trim(after.take(e))), after.skip(e + 1))
                },
            }
        },
    }
}

/// The LoRAs that a prompt names, each once: first its `<lora:name:weight>` tags, then its
/// `(name:weight)` groups, then its `name:(weight)` tags, in text order within each form; a
/// LoRA counts when its name and weight are non-empty, its name is new and its weight reads as
/// a float.
pub open spec fn lora_tags_of(t: Seq<char>) -> Seq<LoraSpec> {
    colon_loras(loras_from(loras_from(Seq::empty(), t, "<lora:"@, '>'), t, seq!['('], ')'), t)
}

/// Name and weight of a tag body.
fn split_tag(tag: &[char]) -> (r: (String, String))
    ensures
        (r.0@, r.1@) == tag_parts(tag@),
{
    let mut k: usize = tag.len();
    assert(tag@.take(tag@.len() as int) =~= tag@);
    while k > 0 && tag[k - 1] != ':'
        invariant
            k <= tag@.len(),
            last_index(tag@, ':') == last_index(tag@.take(k as int), ':'),
        decreases k,
    {
        assert(tag@.take(k as int).drop_last() =~= tag@.take(k - 1));
        k -= 1;
    }
    proof {
        assert(tag@.take(tag@.len() as int) =~= tag@);
    }
    if k == 0 {
        assert(last_index(tag@.take(0), ':') is None);
        (String::new(), trimmed(tag))
    } else {
        assert(tag@.take(k as int).last() == ':');
        let name = trimmed(&slice_range(tag, 0, k - 1));
        let weight = trimmed(&slice_from(tag, k));
        assert(tag@.subrange(0, k - 1) =~= tag@.take(k - 1));
        (name, weight)
    }
}

/// Append a LoRA when its name and weight are non-empty, its name is new and its weight reads
/// as a float.
fn push_tag(loras: &mut Vec<LoraInfo>, name: String, weight: String)
    ensures
        loras_view(final(loras)@) == add_tag(loras_view(old(loras)@), name@, weight@),
{
    let ghost before = loras_view(loras@);
    if !name.as_str().is_empty() && !weight.as_str().is_empty() {
        let mut dup = false;
        let mut j: usize = 0;
        while j < loras.len()
            invariant
                j <= loras@.len(),
                before == loras_view(loras@),
                dup == exists|k: int| 0 <= k < j && #[trigger] loras@[k].name@ == name@,
            decreases loras@.len() - j,
        {
            if loras[j].name == name {
                dup = true;
            }
            j += 1;
        }
        assert(dup == has_lora_named(before, name@)) by {
            if has_lora_named(before, name@) {
                let k = choose|k: int| 0 <= k < before.len() && before[k].name == name@;
                assert(loras@[k].name@ == name@);
            }
            if dup {
                let k = choose|k: int| 0 <= k < loras@.len() && #[trigger] loras@[k].name@ == name@;
                assert(before[k].name == name@);
            }
        }
        if !dup && is_float(weight.as_str()) {
            loras.push(LoraInfo { name, weight });
            assert(loras_view(loras@) =~= before.push(loras@.last()@));
        }
    }
}

/// Append the LoRAs of the tags `{open}name:weight{close}` of `text`.
fn scan_delimited(loras: &mut Vec<LoraInfo>, text: &Vec<char>, open: &Vec<char>, close: char)
    ensures
        loras_view(final(loras)@) == loras_from(loras_view(old(loras)@), text@, open@, close),
{
    let close_v: Vec<char> = vec![close];
    assert(close_v@ =~= seq![close]);
    let mut rest = text.clone();
    assert(rest@ == text@);
    loop
        invariant
            close_v@ == seq![close],
            loras_from(loras_view(old(loras)@), text@, open@, close) == loras_from(
                loras_view(loras@),
                rest@,
                open@,
                close,
            ),
        decreases rest@.len(),
    {
        let rl = rest.len();
        let start = match find_chars(&rest, open, 0) {
            Some(s) => s,
            None => return,
        };
        let after = slice_from(&rest, start + open.len());
        let end = match find_chars(&after, &close_v, 0) {
            Some(e) => e,
            None => return,
        };
        proof {
            lemma_find_from(after@, close_v@, 0);
        }
        let tag = slice_range(&after, 0, end);
        assert(tag@ =~= after@.take(end as int));
        let (name, weight) = split_tag(&tag);
        let ghost old_rest = rest@;
        push_tag(loras, name, weight);
        rest = slice_from(&after, end + 1);
        assert(loras_from(loras_view(old(loras)@), text@, open@, close) == loras_from(
            loras_view(loras@),
            rest@,
            open@,
            close,
        ));
    }
}

/// Where the run of name characters at the end of `v[..to]` begins.
fn find_word_start(v: &[char], to: usize) -> (r: usize)
    requires
        to <= v@.len(),
    ensures
        r == word_start(v@.take(to as int)),
        r <= to,
{
    let mut k = to;
    assert(v@.take(to as int).take(to as int) =~= v@.take(to as int));
    while k > 0 && name_char_exec(v[k - 1])
        invariant
            k <= to <= v@.len(),
            word_start(v@.take(to as int)) == word_start(v@.take(k as int)),
        decreases k,
    {
        assert(v@.take(k as int).drop_last() =~= v@.take(k - 1));
        k -= 1;
    }
    k
}

fn name_char_exec(c: char) -> (r: bool)
    ensures
        r == name_char(c),
{
    !crate::text::is_whitespace(c) && c != '(' && c != ')' && c != ',' && c != '<' && c != '>'
        && c != ':'
}

/// Append the LoRAs of the tags `name:(weight)` of `text`.
fn scan_colon(loras: &mut Vec<LoraInfo>, text: &Vec<char>)
    ensures
        loras_view(final(loras)@) == colon_loras(loras_view(old(loras)@), text@),
{
    let open: Vec<char> = vec![':', '('];
    assert(open@ =~= seq![':', '(']);
    let close_v: Vec<char> = vec![')'];
    assert(close_v@ =~= seq![')']);
    let mut rest = text.clone();
    assert(rest@ == text@);
    loop
        invariant
            open@ == seq![':', '('],
            close_v@ == seq![')'],
            colon_loras(loras_view(old(loras)@), text@) == colon_loras(loras_view(loras@), rest@),
        decreases rest@.len(),
    {
        let rl = rest.len();
        let start = match find_chars(&rest, &open, 0) {
            Some(s) => s,
            None => return,
        };
        let after = slice_from(&rest, start + 2);
        let end = match find_chars(&after, &close_v, 0) {
            Some(e) => e,
            None => return,
        };
        proof {
            lemma_find_from(after@, close_v@, 0);
        }
        let ws = find_word_start(&rest, start);
        let name = from_char_range(&rest, ws, start);
        assert(rest@.subrange(ws as int, start as int) =~= rest@.take(start as int).skip(ws as int));
        let weight = trimmed(&slice_range(&after, 0, end));
        assert(after@.subrange(0, end as int) =~= after@.take(end as int));
        let ghost old_rest = rest@;
        push_tag(loras, name, weight);
        rest = slice_from(&after, end + 1);
        assert(colon_loras(loras_view(old(loras)@), text@) == colon_loras(loras_view(loras@), rest@));
    }
}

/// Parse LoRA weights from prompt string. Supports formats: "<lora:name:weight>",
/// "(name:weight)", "name:(weight)"; each LoRA is kept once, when its weight reads as a float.
pub fn parse_loras(prompt: &str) -> (loras: Vec<LoraInfo>)
    ensures
        loras_view(loras@) == lora_tags_of(prompt@),
{
    let v = to_chars(prompt);
    let mut loras: Vec<LoraInfo> = Vec::new();
    assert(loras_view(loras@) =~= Seq::<LoraSpec>::empty());
    let angle = to_chars("<lora:");
    scan_delimited(&mut loras, &v, &angle, '>');
    let paren: Vec<char> = vec!['('];
    assert(paren@ =~= seq!['(']);
    scan_delimited(&mut loras, &v, &paren, ')');
    scan_colon(&mut loras, &v);
    loras
}

// ---------------------------------------------------------------------------------------------
// Prompt components.
// ---------------------------------------------------------------------------------------------
/// Model of the component tuple: model, LoRAs, positive prompt, negative prompt.
pub open spec fn components_view(r: (Option<String>, Vec<LoraInfo>, Option<String>, Option<String>)) -> (
    Option<Seq<char>>,
    Seq<LoraSpec>,
    Option<Seq<char>>,
    Option<Seq<char>>,
) {
    (opt_str(r.0), loras_view(r.1@), opt_str(r.2), opt_str(r.3))
}

/// The components of a prompt text: from its workflow when it parsed as JSON, else from the
/// text, with LoRAs taken from the whole text.
pub open spec fn components_of(prompt: Seq<char>, json: Option<crate::json::Json>) -> (
    Option<Seq<char>>,
    Seq<LoraSpec>,
    Option<Seq<char>>,
    Option<Seq<char>>,
) {
    match json {
        Some(j) => {
            let d = details_of(j);
            (d.model, d.loras, d.positive_prompt, d.negative_prompt)
        },
        None => {
            let (p, n, m) = prompt_and_model(prompt);
            (m, lora_tags_of(prompt), p, n)
        },
    }
}

/// Parse ComfyUI workflow JSON and extract model, loras, positive/negative prompts.
fn parse_comfyui_json(json: &JsonValue) -> (r: (
    Option<String>,
    Vec<LoraInfo>,
    Option<String>,
    Option<String>,
))
    ensures
        components_view(r) == components_of(Seq::empty(), Some(json@)),
{
    let details = extract_details_from_workflow(json);
    (details.model, details.loras, details.positive_prompt, details.negative_prompt)
}

/// Parse prompt components from extracted metadata: a prompt that parses as JSON is a ComfyUI
/// workflow; any other is A1111-style parameter text, whose LoRA tags come from the whole text.
pub fn parse_prompt_components(prompt: &str) -> (r: (
    Option<String>,
    Vec<LoraInfo>,
    Option<String>,
    Option<String>,
))
    ensures
        components_view(r) == components_of(prompt@, json_parse(prompt@)),
{
    if let Some(j) = parse_json(prompt) {
        return parse_comfyui_json(&j);
    }
    let (positive, negative, model) = parse_prompt_and_model(prompt);
    let loras = parse_loras(prompt);
    (model, loras, positive, negative)
}

// ---------------------------------------------------------------------------------------------
// Image formats.
// ---------------------------------------------------------------------------------------------
/// The image formats whose metadata is read.
#[derive(Debug, Clone, Copy, PartialEq, Eq, Structural)]
pub enum ImageFormat {
    Png,
    Jpeg,
    Webp,
}

/// The format of a file whose extension, lowercased, is `lower`: `png`, `jpg` or `jpeg`,
/// `webp`; none for any other.
pub open spec fn format_of(lower: Seq<char>) -> Option<ImageFormat> {
    if lower == "png"@ {
        Some(ImageFormat::Png)
    } else if lower == "jpg"@ || lower == "jpeg"@ {
        Some(ImageFormat::Jpeg)
    } else if lower == "webp"@ {
        Some(ImageFormat::Webp)
    } else {
        None
    }
}

/// The format of a file with extension `ext`, compared without regard to case.
pub fn image_format(ext: &str) -> (r: Option<ImageFormat>)
    ensures
        r == format_of(str_lowercase(ext@)),
{
    let lower = lowercase_str(ext);
    if str_equal(lower.as_str(), "png") {
        Some(ImageFormat::Png)
    } else if str_equal(lower.as_str(), "jpg") || str_equal(lower.as_str(), "jpeg") {
        Some(ImageFormat::Jpeg)
    } else if str_equal(lower.as_str(), "webp") {
        Some(ImageFormat::Webp)
    } else {
        None
    }
}

// ---------------------------------------------------------------------------------------------
// Extraction by file type, records in metadata key order.
// ---------------------------------------------------------------------------------------------
/// The records that a file of format `f` holds, in file order; none for no format.
pub open spec fn format_records(f: Option<ImageFormat>, path: Seq<char>, b: Seq<u8>) -> Seq<
    RecordSpec,
> {
    match f {
        Some(ImageFormat::Png) => png_records(path, b),
        Some(ImageFormat::Jpeg) => jpeg_records(path, b),
        Some(ImageFormat::Webp) => webp_records(path, b),
        None => Seq::empty(),
    }
}

/// `s` with `x` put after every record whose metadata key is not greater than its own.
pub open spec fn insert_by_key(s: Seq<RecordSpec>, x: RecordSpec) -> Seq<RecordSpec>
    decreases s.len(),
{
    if s.len() == 0 {
        seq![x]
    } else if !key_lt(x.metadata_key, s.last().metadata_key) {
        s.push(x)
    } else {
        insert_by_key(s.drop_last(), x).push(s.last())
    }
}

/// The records in order of their metadata key; records with equal keys keep their order (a
/// stable sort by key).
pub open spec fn sort_by_key(rs: Seq<RecordSpec>) -> Seq<RecordSpec>
    decreases rs.len(),
{
    if rs.len() == 0 {
        Seq::empty()
    } else {
        insert_by_key(sort_by_key(rs.drop_last()), rs.last())
    }
}

/// Where `x` goes in `s` when it is put after every record whose key is not greater.
pub open spec fn key_insert_pos(s: Seq<RecordSpec>, x: RecordSpec) -> int
    decreases s.len(),
{
    if s.len() == 0 {
        0
    } else if !key_lt(x.metadata_key, s.last().metadata_key) {
        s.len() as int
    } else {
        key_insert_pos(s.drop_last(), x)
    }
}

proof fn lemma_insert_by_key(s: Seq<RecordSpec>, x: RecordSpec)
    ensures
        0 <= key_insert_pos(s, x) <= s.len(),
        insert_by_key(s, x) == s.insert(key_insert_pos(s, x), x),
        forall|m: int|
            key_insert_pos(s, x) <= m < s.len() ==> key_lt(x.metadata_key, (#[trigger] s[m]).metadata_key),
        key_insert_pos(s, x) > 0 ==> !key_lt(x.metadata_key, s[key_insert_pos(s, x) - 1].metadata_key),
    decreases s.len(),
{
    if s.len() == 0 {
        assert(seq![x] =~= s.insert(0, x));
    } else if !key_lt(x.metadata_key, s.last().metadata_key) {
        assert(s.push(x) =~= s.insert(s.len() as int, x));
    } else {
        lemma_insert_by_key(s.drop_last(), x);
        let j = key_insert_pos(s.drop_last(), x);
        assert(s.drop_last().insert(j, x).push(s.last()) =~= s.insert(j, x));
        assert forall|m: int| j <= m < s.len() implies key_lt(x.metadata_key, (#[trigger] s[m]).metadata_key) by {
            if m < s.len() - 1 {
                assert(s.drop_last()[m] == s[m]);
            }
        }
    }
}

proof fn lemma_key_insert_pos_unique(s: Seq<RecordSpec>, x: RecordSpec, j: int)
    requires
        0 <= j <= s.len(),
        forall|m: int| j <= m < s.len() ==> key_lt(x.metadata_key, (#[trigger] s[m]).metadata_key),
        j > 0 ==> !key_lt(x.metadata_key, s[j - 1].metadata_key),
    ensures
        key_insert_pos(s, x) == j,
{
    lemma_insert_by_key(s, x);
    let p = key_insert_pos(s, x);
    if p < j {
        assert(key_lt(x.metadata_key, s[j - 1].metadata_key));
    } else if p > j {
        assert(key_lt(x.metadata_key, s[p - 1].metadata_key));
    }
}

/// Sort records by metadata key, keeping the order of records with equal keys.
pub fn sort_records(records: Vec<PromptRecord>) -> (r: Vec<PromptRecord>)
    ensures
        records_view(r@) == sort_by_key(records_view(records@)),
{
    let ghost rs = records_view(records@);
    let mut sorted: Vec<PromptRecord> = Vec::new();
    let rest = records;
    let n = rest.len();
    let mut i: usize = 0;
    assert(rs.take(0) =~= Seq::<RecordSpec>::empty());
    assert(records_view(sorted@) =~= Seq::<RecordSpec>::empty());
    while i < n
        invariant
            n == rest@.len(),
            rs == records_view(rest@),
            i <= n,
            records_view(sorted@) == sort_by_key(rs.take(i as int)),
        decreases n - i,
    {
        let x = rest[i].clone();
        let mut j: usize = sorted.len();
        while j > 0 && key_less(x.metadata_key.as_str(), sorted[j - 1].metadata_key.as_str())
            invariant
                j <= sorted@.len(),
                forall|m: int|
                    j <= m < sorted@.len() ==> key_lt(x@.metadata_key, (#[trigger] records_view(sorted@)[m]).metadata_key),
            decreases j,
        {
            j -= 1;
        }
        let ghost before = records_view(sorted@);
        proof {
            lemma_key_insert_pos_unique(before, x@, j as int);
            lemma_insert_by_key(before, x@);
            assert(rs.take(i + 1).drop_last() =~= rs.take(i as int));
            assert(rs.take(i + 1).last() == x@);
        }
        sorted.insert(j, x);
        assert(records_view(sorted@) =~= before.insert(j as int, x@));
        i += 1;
    }
    assert(rs.take(n as int) =~= rs);
    sorted
}

/// The prompt records of an image file with the given extension and contents: a PNG, JPEG or
/// WebP file is read by its format (the extension compared without regard to case), any other
/// file gives none; the records come in order of their metadata key.
pub fn extract_prompt(path: &str, extension: &str, bytes: &[u8]) -> (r: Vec<PromptRecord>)
    ensures
        records_view(r@) == sort_by_key(
            format_records(format_of(str_lowercase(extension@)), path@, bytes@),
        ),
{
    let records = match image_format(extension) {
        Some(ImageFormat::Png) => crate::extract::png::extract(path, bytes),
        Some(ImageFormat::Jpeg) => crate::extract::jpeg::extract(path, bytes),
        Some(ImageFormat::Webp) => crate::extract::webp::extract(path, bytes),
        None => {
            let v: Vec<PromptRecord> = Vec::new();
            assert(records_view(v@) =~= Seq::<RecordSpec>::empty());
            v
        },
    };
    sort_records(records)
}

// ---------------------------------------------------------------------------------------------
// Laws.
// ---------------------------------------------------------------------------------------------
/// Whether every LoRA has a non-empty name and a weight that reads as a float.
pub open spec fn well_formed_tags(ls: Seq<LoraSpec>) -> bool {
    forall|i: int|
        0 <= i < ls.len() ==> (#[trigger] ls[i]).name.len() > 0 && ls[i].weight.len() > 0
            && is_float_text(ls[i].weight)
}

proof fn lemma_add_tag(acc: Seq<LoraSpec>, name: Seq<char>, weight: Seq<char>)
    requires
        distinct_names(acc),
        well_formed_tags(acc),
    ensures
        distinct_names(add_tag(acc, name, weight)),
        well_formed_tags(add_tag(acc, name, weight)),
{
    if name.len() > 0 && weight.len() > 0 && !has_lora_named(acc, name) && is_float_text(weight) {
        lemma_add_lora_distinct(acc, name, weight);
        let acc2 = acc.push(LoraSpec { name, weight });
        assert(add_lora(acc, name, weight) == acc2);
        assert forall|i: int| 0 <= i < acc2.len() implies (#[trigger] acc2[i]).name.len() > 0
            && acc2[i].weight.len() > 0 && is_float_text(acc2[i].weight) by {
            if i < acc.len() {
                assert(acc2[i] == acc[i]);
            }
        }
    }
}

proof fn lemma_loras_from(acc: Seq<LoraSpec>, rest: Seq<char>, open: Seq<char>, close: char)
    requires
        distinct_names(acc),
        well_formed_tags(acc),
    ensures
        distinct_names(loras_from(acc, rest, open, close)),
        well_formed_tags(loras_from(acc, rest, open, close)),
    decreases rest.len(),
{
    if let Some(st) = find(rest, open) {
        lemma_find_from(rest, open, 0);
        let after = rest.skip(st + open.len());
        if let Some(e) = find(after, seq![close]) {
            lemma_find_from(after, seq![close], 0);
            let (name, weight) = tag_parts(after.take(e));
            lemma_add_tag(acc, name, weight);
            lemma_loras_from(add_tag(acc, name, weight), after.skip(e + 1), open, close);
        }
    }
}

proof fn lemma_colon_loras(acc: Seq<LoraSpec>, rest: Seq<char>)
    requires
        distinct_names(acc),
        well_formed_tags(acc),
    ensures
        distinct_names(colon_loras(acc, rest)),
        well_formed_tags(colon_loras(acc, rest)),
    decreases rest.len(),
{
    if let Some(st) = find(rest, seq![':', '(']) {
        lemma_find_from(rest, seq![':', '('], 0);
        let after = rest.skip(st + 2);
        if let Some(e) = find(after, seq![')']) {
            lemma_find_from(after, seq![')'], 0);
            let before = rest.take(st);
            let name = before.skip(word_start(before));
            lemma_add_tag(acc, name, trim(after.take(e)));
            lemma_colon_loras(add_tag(acc, name, trim(after.take(e))), after.skip(e + 1));
        }
    }
}

/// The LoRA tags read from a prompt name each LoRA once, each with a non-empty name and a
/// weight that reads as a float.
pub proof fn prompt_loras_well_formed(prompt: Seq<char>)
    ensures
        distinct_names(lora_tags_of(prompt)),
        well_formed_tags(lora_tags_of(prompt)),
{
    let e = Seq::<LoraSpec>::empty();
    lemma_loras_from(e, prompt, "<lora:"@, '>');
    let a = loras_from(e, prompt, "<lora:"@, '>');
    lemma_loras_from(a, prompt, seq!['('], ')');
    lemma_colon_loras(loras_from(a, prompt, seq!['('], ')'), prompt);
}

/// Whether the records come in order of their metadata key.
pub open spec fn sorted_by_key(s: Seq<RecordSpec>) -> bool {
    forall|i: int, j: int|
        0 <= i < j < s.len() ==> !key_lt((#[trigger] s[j]).metadata_key, (#[trigger] s[i]).metadata_key)
}

proof fn lemma_key_le_transitive(a: Seq<char>, b: Seq<char>, c: Seq<char>)
    requires
        !key_lt(b, a),
        !key_lt(c, b),
    ensures
        !key_lt(c, a),
{
    if key_lt(c, a) {
        if a == b {
        } else {
            crate::json::lemma_key_lt_total(a, b);
            crate::json::lemma_key_lt_transitive(c, a, b);
        }
    }
}

/// Sorting records by metadata key orders them by key and keeps every record, each as often as
/// it occurs; so a file's records come out in `metadata_key` order.
pub proof fn sort_by_key_sorts(rs: Seq<RecordSpec>)
    ensures
        sorted_by_key(sort_by_key(rs)),
        sort_by_key(rs).to_multiset() == rs.to_multiset(),
    decreases rs.len(),
{
    broadcast use vstd::seq_lib::group_to_multiset_ensures;

    if rs.len() > 0 {
        let s = sort_by_key(rs.drop_last());
        let x = rs.last();
        sort_by_key_sorts(rs.drop_last());
        lemma_insert_by_key(s, x);
        let p = key_insert_pos(s, x);
        let t = s.insert(p, x);
        vstd::seq_lib::to_multiset_insert(s, p, x);
        assert(rs.drop_last().push(x) =~= rs);
        assert forall|i: int, j: int| 0 <= i < j < t.len() implies !key_lt(
            (#[trigger] t[j]).metadata_key,
            (#[trigger] t[i]).metadata_key,
        ) by {
            if j < p {
            } else if j == p {
                if p > 0 && i < p - 1 {
                    lemma_key_le_transitive(s[i].metadata_key, s[p - 1].metadata_key, x.metadata_key);
                }
            } else if i < p {
                assert(!key_lt(s[j - 1].metadata_key, s[i].metadata_key));
            } else if i == p {
                assert(key_lt(x.metadata_key, s[j - 1].metadata_key));
                if key_lt(s[j - 1].metadata_key, x.metadata_key) {
                    crate::json::lemma_key_lt_transitive(
                        x.metadata_key,
                        s[j - 1].metadata_key,
                        x.metadata_key,
                    );
                    crate::json::lemma_key_lt_irreflexive(x.metadata_key);
                }
            } else {
                assert(!key_lt(s[j - 1].metadata_key, s[i - 1].metadata_key));
            }
        }
    } else {
        assert(sort_by_key(rs) =~= rs);
    }
}

} // verus!
