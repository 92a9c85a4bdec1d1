//! A1111 / Forge parameter text: positive and negative prompt, model and LoRA tags.
//!
//! The text has the shape
//! `{positive}\nNegative prompt: {negative}\nSteps: 30, Sampler: ..., Model: foo, ...`;
//! the negative prompt and the settings line are optional.
use vstd::prelude::*;
use crate::text::{
    find, find_chars, trim_start, trim_end, trim, is_ws, occurs_at, starts_with, lemma_find_from,
    to_chars, slice_from, slice_range,
};
use crate::types::{PromptDetails, DetailsSpec, opt_str};
use crate::extract::comfyui::{non_empty_spec, non_empty};
use crate::extract::{line_marker, find_line_marker, lora_tags_of, parse_loras};

verus! {

/// Where the model value starts: after ", Model:", else after "\nModel:", else after "Model:".
pub open spec fn model_start(s: Seq<char>) -> Option<int> {
    match find(s, ", Model:"@) {
        Some(i) => Some(i + 8),
        None => match find(s, "\nModel:"@) {
            Some(i) => Some(i + 7),
            None => match find(s, "Model:"@) {
                Some(i) => Some(i + 6),
                None => None,
            },
        },
    }
}

/// Length of the text before the first comma or new line.
pub open spec fn stop_pos(v: Seq<char>) -> int
    decreases v.len(),
{
    if v.len() == 0 || v[0] == ',' || v[0] == '\n' {
        0
    } else {
        1 + stop_pos(v.drop_first())
    }
}

/// A model value: the text inside double quotes when it starts with one (up to the closing
/// quote, or the end), else the text up to the first comma or new line.
pub open spec fn model_value(v: Seq<char>) -> Seq<char> {
    if v.len() > 0 && v[0] == '"' {
        let w = v.drop_first();
        match find(w, seq!['"']) {
            Some(q) => w.take(q),
            None => w,
        }
    } else {
        v.take(stop_pos(v))
    }
}

/// The model that a parameters text names, when it names one.
pub open spec fn parse_model(s: Seq<char>) -> Option<Seq<char>> {
    match model_start(s) {
        None => None,
        Some(k) => non_empty_spec(model_value(trim_start(s.skip(k)))),
    }
}

/// The details of an A1111 parameters text: the body before a line starting with `Steps:`
/// splits at `Negative prompt:` into positive and negative prompt (each kept when non-empty
/// after trimming); the model comes from the settings (the whole text when there are none);
/// the LoRAs are the LoRA tags of the whole text.
pub open spec fn a1111_details(t: Seq<char>) -> DetailsSpec {
    let body = match line_marker(t, "Steps:"@) {
        Some(i) => t.take(i),
        None => t,
    };
    let settings = match line_marker(t, "Steps:"@) {
        Some(i) => t.skip(i),
        None => t,
    };
    let (positive, negative) = match find(body, "Negative prompt:"@) {
        Some(i) => (non_empty_spec(body.take(i)), non_empty_spec(body.skip(i + 16))),
        None => (non_empty_spec(body), None),
    };
    DetailsSpec {
        model: parse_model(settings),
        loras: lora_tags_of(t),
        positive_prompt: positive,
        negative_prompt: negative,
    }
}

fn find_model_start(s: &[char]) -> (r: Option<usize>)
    ensures
        match r {
            Some(k) => model_start(s@) == Some(k as int) && k <= s@.len(),
            None => model_start(s@) is None,
        },
{
    let sl = s.len();
    let m1 = to_chars(", Model:");
    if let Some(i) = find_chars(s, &m1, 0) {
        proof {
            reveal_strlit(", Model:");
        }
        return Some(i + 8);
    }
    let m2 = to_chars("\nModel:");
    if let Some(i) = find_chars(s, &m2, 0) {
        proof {
            reveal_strlit("\nModel:");
        }
        return Some(i + 7);
    }
    let m3 = to_chars("Model:");
    if let Some(i) = find_chars(s, &m3, 0) {
        proof {
            reveal_strlit("Model:");
        }
        return Some(i + 6);
    }
    None
}

/// The model that a parameters text names: after `, Model:` (or a line starting `Model:`, or
/// any `Model:`), the quoted text or the text up to a comma or new line, trimmed.
pub fn extract_model(s: &str) -> (r: Option<String>)
    ensures
        opt_str(r) == parse_model(s@),
{
    let v = to_chars(s);
    let k = match find_model_start(&v) {
        Some(k) => k,
        None => return None,
    };
    let mut a = k;
    assert(v@.skip(k as int).skip(0) =~= v@.skip(k as int));
    while a < v.len() && crate::text::is_whitespace(v[a])
        invariant
            k <= a <= v@.len(),
            trim_start(v@.skip(k as int)) == trim_start(v@.skip(a as int)),
        decreases v@.len() - a,
    {
        assert(v@.skip(a as int).drop_first() =~= v@.skip(a + 1));
        a += 1;
    }
    let w = slice_from(&v, a);
    assert(trim_start(w@) == w@);
    let value: Vec<char> = if w.len() > 0 && w[0] == '"' {
        let inner = slice_from(&w, 1);
        assert(inner@ =~= w@.drop_first());
        let quote: Vec<char> = vec!['"'];
        assert(quote@ =~= seq!['"']);
        match find_chars(&inner, &quote, 0) {
            Some(q) => {
                let r = slice_range(&inner, 0, q);
                assert(r@ =~= inner@.take(q as int));
                r
            },
            None => inner,
        }
    } else {
        let mut e: usize = 0;
        assert(w@.skip(0) =~= w@);
        while e < w.len() && w[e] != ',' && w[e] != '\n'
            invariant
                e <= w@.len(),
                stop_pos(w@) == e + stop_pos(w@.skip(e as int)),
            decreases w@.len() - e,
        {
            assert(w@.skip(e as int).drop_first() =~= w@.skip(e + 1));
            e += 1;
        }
        let r = slice_range(&w, 0, e);
        assert(r@ =~= w@.take(e as int));
        r
    };
    let text = crate::text::from_chars(&value);
    non_empty(text.as_str())
}

/// Structured details (model, LoRAs, positive and negative prompt) of an A1111 parameters
/// text; also used for NovelAI descriptions, JPEG comments, XMP descriptions and EXIF user
/// comments.
pub fn extract_details(text: &str) -> (d: PromptDetails)
    ensures
        d@ == a1111_details(text@),
{
    let t = to_chars(text);
    let steps = to_chars("Steps:");
    let marker = find_line_marker(&t, &steps);
    let (body, settings) = match marker {
        Some(idx) => (slice_range(&t, 0, idx), slice_from(&t, idx)),
        None => (slice_from(&t, 0), slice_from(&t, 0)),
    };
    proof {
        assert(t@.skip(0) =~= t@);
        if marker is Some {
            assert(body@ =~= t@.take(marker.unwrap() as int));
        }
    }
    let negative_marker = to_chars("Negative prompt:");
    let body_len = body.len();
    let (positive, negative) = match find_chars(&body, &negative_marker, 0) {
        Some(idx) => {
            proof {
                reveal_strlit("Negative prompt:");
            }
            let p = crate::text::from_chars(&slice_range(&body, 0, idx));
            let n = crate::text::from_chars(&slice_from(&body, idx + 16));
            assert(body@.subrange(0, idx as int) =~= body@.take(idx as int));
            (non_empty(p.as_str()), non_empty(n.as_str()))
        },
        None => {
            let p = crate::text::from_chars(&body);
            (non_empty(p.as_str()), None)
        },
    };
    let settings_text = crate::text::from_chars(&settings);
    let model = extract_model(settings_text.as_str());
    let loras = parse_loras(text);
    let d = PromptDetails { model, loras, positive_prompt: positive, negative_prompt: negative };
    assert(d@ =~= a1111_details(text@));
    d
}

proof fn lemma_trim_start_piece(s: Seq<char>) -> (k: int)
    ensures
        0 <= k <= s.len(),
        trim_start(s) == s.subrange(k, s.len() as int),
    decreases s.len(),
{
    if s.len() > 0 && is_ws(s[0]) {
        let k1 = lemma_trim_start_piece(s.drop_first());
        assert(s.drop_first().subrange(k1, s.drop_first().len() as int) =~= s.subrange(
            k1 + 1,
            s.len() as int,
        ));
        k1 + 1
    } else {
        assert(s.subrange(0, s.len() as int) =~= s);
        0
    }
}

proof fn lemma_trim_end_piece(s: Seq<char>) -> (k: int)
    ensures
        0 <= k <= s.len(),
        trim_end(s) == s.subrange(0, k),
    decreases s.len(),
{
    if s.len() > 0 && is_ws(s.last()) {
        let k1 = lemma_trim_end_piece(s.drop_last());
        assert(s.drop_last().subrange(0, k1) =~= s.subrange(0, k1));
        k1
    } else {
        assert(s.subrange(0, s.len() as int) =~= s);
        s.len() as int
    }
}

/// The trimmed text of `s` is the piece `s[a..b]` for some bounds `a <= b`.
proof fn lemma_trim_piece(s: Seq<char>) -> (r: (int, int))
    ensures
        0 <= r.0 <= r.1 <= s.len(),
        trim(s) == s.subrange(r.0, r.1),
{
    let a = lemma_trim_start_piece(s);
    let u = s.subrange(a, s.len() as int);
    let b = lemma_trim_end_piece(u);
    assert(u.subrange(0, b) =~= s.subrange(a, a + b));
    (a, a + b)
}

/// The prompts of a parameters text never reach into its settings: when a line of `t`
/// starts with `Steps:` at position `i`, the negative prompt (and the positive one), when
/// there is one, is a piece of `t` that ends at or before `i`.
pub proof fn a1111_prompts_end_before_settings(t: Seq<char>, i: int)
    requires
        0 <= i,
        i + 6 <= t.len(),
        t.subrange(i, i + 6) == "Steps:"@,
        i == 0 || t[i - 1] == '\n',
    ensures
        a1111_details(t).negative_prompt matches Some(n) ==> exists|a: int, b: int|
            0 <= a <= b <= i && n == t.subrange(a, b),
        a1111_details(t).positive_prompt matches Some(p) ==> exists|a: int, b: int|
            0 <= a <= b <= i && p == t.subrange(a, b),
{
    reveal_strlit("Steps:");
    reveal_strlit("Negative prompt:");
    let steps = "Steps:"@;
    // The first line that starts with `Steps:` lies at or before `i`.
    let m: int = if starts_with(t, steps) {
        0
    } else {
        let nl = seq!['\n'] + steps;
        assert(occurs_at(t, nl, i - 1)) by {
            if i == 0 {
                assert(t.take(6) =~= t.subrange(0, 6));
            }
            assert(t.subrange(i - 1, i - 1 + nl.len()) =~= nl);
        }
        lemma_find_from(t, nl, 0);
        let f = find(t, nl).unwrap();
        assert(f <= i - 1);
        f + 1
    };
    assert(line_marker(t, steps) == Some(m));
    assert(m <= i);
    let body = t.take(m);
    let neg = "Negative prompt:"@;
    match find(body, neg) {
        Some(j) => {
            lemma_find_from(body, neg, 0);
            let rest = body.skip(j + 16);
            let (a, b) = lemma_trim_piece(rest);
            assert(rest.subrange(a, b) =~= t.subrange(j + 16 + a, j + 16 + b));
            let head = body.take(j);
            let (c, d) = lemma_trim_piece(head);
            assert(head.subrange(c, d) =~= t.subrange(c, d));
        },
        None => {
            let (c, d) = lemma_trim_piece(body);
            assert(body.subrange(c, d) =~= t.subrange(c, d));
        },
    }
}

} // verus!
