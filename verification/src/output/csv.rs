//! The CSV output: a header row, then one row per match.
use vstd::prelude::*;
use crate::text::{copy_str, signed_decimal, i64_to_decimal};
use crate::types::{MatchResult, MatchSpec, generator_name, details_or_empty, opt_str};
use crate::extract::comfyui::strs;
use crate::output::{results_view, tables_view};

verus! {

// ---------------------------------------------------------------------------------------------
// CSV rows.
// ---------------------------------------------------------------------------------------------
/// The CSV header.
pub open spec fn csv_header_spec() -> Seq<Seq<char>> {
    seq!["path"@, "generator"@, "positive_prompt"@, "negative_prompt"@, "score"@]
}

/// The CSV header row.
pub fn csv_header() -> (row: Vec<String>)
    ensures
        strs(row@) == csv_header_spec(),
{
    let mut row: Vec<String> = Vec::new();
    row.push(copy_str("path"));
    row.push(copy_str("generator"));
    row.push(copy_str("positive_prompt"));
    row.push(copy_str("negative_prompt"));
    row.push(copy_str("score"));
    assert(strs(row@) =~= csv_header_spec());
    row
}

/// The text of an optional string, empty when there is none.
pub open spec fn or_empty(o: Option<Seq<char>>) -> Seq<char> {
    match o {
        Some(s) => s,
        None => Seq::empty(),
    }
}

/// The CSV row of the match `m`: path, generator tag, positive and negative prompt (empty when
/// missing) and the score in decimal (empty without one).
pub open spec fn csv_spec(m: MatchSpec) -> Seq<Seq<char>> {
    let d = details_or_empty(m.record);
    seq![
        m.record.path,
        generator_name(m.record.generator),
        or_empty(d.positive_prompt),
        or_empty(d.negative_prompt),
        match m.score {
            Some(s) => signed_decimal(s as int),
            None => Seq::empty(),
        },
    ]
}

fn text_or_empty(o: Option<String>) -> (r: String)
    ensures
        r@ == or_empty(opt_str(o)),
{
    match o {
        Some(s) => s,
        None => String::new(),
    }
}

/// The CSV row of one match.
pub fn csv_row(r: &MatchResult) -> (row: Vec<String>)
    ensures
        strs(row@) == csv_spec(r@),
{
    let d = r.record.details_or_default();
    let score = match r.score {
        Some(s) => i64_to_decimal(s),
        None => String::new(),
    };
    let mut row: Vec<String> = Vec::new();
    row.push(r.record.path.clone());
    row.push(r.record.generator.to_string());
    row.push(text_or_empty(d.positive_prompt));
    row.push(text_or_empty(d.negative_prompt));
    row.push(score);
    assert(strs(row@) =~= csv_spec(r@));
    row
}

/// The rows that the CSV output writes for the matches `ms`: the header, then one row each.
pub open spec fn csv_rows(ms: Seq<MatchSpec>) -> Seq<Seq<Seq<char>>> {
    seq![csv_header_spec()] + Seq::new(ms.len(), |i: int| csv_spec(ms[i]))
}

/// The CSV rows of the matches: the header, then one row per match, in order.
pub fn output(results: &[MatchResult]) -> (rows: Vec<Vec<String>>)
    ensures
        tables_view(rows@) == csv_rows(results_view(results@)),
{
    let ghost ms = results_view(results@);
    let n = results.len();
    let mut rows: Vec<Vec<String>> = Vec::new();
    rows.push(csv_header());
    let mut i: usize = 0;
    while i < n
        invariant
            n == results@.len(),
            ms == results_view(results@),
            i <= n,
            rows@.len() == i + 1,
            strs(rows@[0]@) == csv_header_spec(),
            forall|k: int| 0 <= k < i ==> strs((#[trigger] rows@[k + 1])@) == csv_spec(ms[k]),
        decreases n - i,
    {
        rows.push(csv_row(&results[i]));
        i += 1;
    }
    let ghost expected = csv_rows(ms);
    assert forall|k: int| 0 <= k < rows@.len() implies tables_view(rows@)[k] == expected[k] by {
        if k > 0 {
            assert(rows@[(k - 1) + 1] == rows@[k]);
        }
    }
    assert(tables_view(rows@) =~= expected);
    rows
}

} // verus!
