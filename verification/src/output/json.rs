//! The JSON output: one record per match.
use vstd::prelude::*;
use crate::types::{MatchResult, MatchSpec, LoraInfo, LoraSpec, generator_name, details_or_empty, opt_str, loras_view};
use crate::output::results_view;

verus! {

// ---------------------------------------------------------------------------------------------
// JSON records.
// ---------------------------------------------------------------------------------------------
/// Model of a JSON output record.
pub struct JsonSpec {
    pub path: Seq<char>,
    pub generator: Seq<char>,
    pub score: Option<i64>,
    pub model: Option<Seq<char>>,
    pub loras: Seq<LoraSpec>,
    pub positive_prompt: Option<Seq<char>>,
    pub negative_prompt: Option<Seq<char>>,
}

/// One match as the JSON output writes it.
#[derive(Debug)]
pub struct JsonRecord {
    pub path: String,
    pub generator: String,
    pub score: Option<i64>,
    pub model: Option<String>,
    pub loras: Vec<LoraInfo>,
    pub positive_prompt: Option<String>,
    pub negative_prompt: Option<String>,
}

impl View for JsonRecord {
    type V = JsonSpec;

    open spec fn view(&self) -> JsonSpec {
        JsonSpec {
            path: self.path@,
            generator: self.generator@,
            score: self.score,
            model: opt_str(self.model),
            loras: loras_view(self.loras@),
            positive_prompt: opt_str(self.positive_prompt),
            negative_prompt: opt_str(self.negative_prompt),
        }
    }
}

/// An optional text, with an empty text counted as none.
pub open spec fn present(o: Option<Seq<char>>) -> Option<Seq<char>> {
    match o {
        Some(t) => if t.len() == 0 {
            None
        } else {
            Some(t)
        },
        None => None,
    }
}

/// The JSON record of the match `m`: its path, generator tag and score with the fields of its
/// record's details, an empty model or prompt counting as none (so that it is left out).
pub open spec fn json_spec(m: MatchSpec) -> JsonSpec {
    let d = details_or_empty(m.record);
    JsonSpec {
        path: m.record.path,
        generator: generator_name(m.record.generator),
        score: m.score,
        model: present(d.model),
        loras: d.loras,
        positive_prompt: present(d.positive_prompt),
        negative_prompt: present(d.negative_prompt),
    }
}

fn present_text(o: Option<String>) -> (r: Option<String>)
    ensures
        opt_str(r) == present(opt_str(o)),
{
    match o {
        Some(t) => if t.as_str().is_empty() {
            None
        } else {
            Some(t)
        },
        None => None,
    }
}

/// The JSON record of one match.
pub fn json_record(r: &MatchResult) -> (j: JsonRecord)
    ensures
        j@ == json_spec(r@),
{
    let d = r.record.details_or_default();
    JsonRecord {
        path: r.record.path.clone(),
        generator: r.record.generator.to_string(),
        score: r.score,
        model: present_text(d.model),
        loras: d.loras,
        positive_prompt: present_text(d.positive_prompt),
        negative_prompt: present_text(d.negative_prompt),
    }
}


/// The JSON records of the matches, in order.
pub fn output(results: &[MatchResult]) -> (records: Vec<JsonRecord>)
    ensures
        Seq::new(records@.len(), |i: int| records@[i]@) == Seq::new(
            results@.len(),
            |i: int| json_spec(results_view(results@)[i]),
        ),
{
    let ghost ms = results_view(results@);
    let n = results.len();
    let mut records: Vec<JsonRecord> = Vec::new();
    let mut i: usize = 0;
    while i < n
        invariant
            n == results@.len(),
            ms == results_view(results@),
            i <= n,
            records@.len() == i,
            forall|k: int| 0 <= k < i ==> (#[trigger] records@[k])@ == json_spec(ms[k]),
        decreases n - i,
    {
        records.push(json_record(&results[i]));
        i += 1;
    }
    assert(Seq::new(records@.len(), |k: int| records@[k]@) =~= Seq::new(
        results@.len(),
        |k: int| json_spec(ms[k]),
    ));
    records
}

} // verus!
