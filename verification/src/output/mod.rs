//! What a search writes for its matches, in each output format.
pub mod console;
pub mod csv;
pub mod json;

use vstd::prelude::*;
use crate::text::ranges_on_boundaries;
use crate::types::{Config, OutputFormat, MatchResult, MatchSpec};
use crate::extract::comfyui::strs;
use crate::output::console::{
    ConsoleEntry, ConsoleSpec, StructuredEntry, StructuredSpecEntry, console_spec, structured_spec,
};
use crate::output::json::{JsonRecord, JsonSpec, json_spec};
use crate::output::csv::csv_rows;

verus! {

/// Model of an output plan.
pub enum PlanSpec {
    Paths(Seq<Seq<char>>),
    Console(Seq<ConsoleSpec>),
    Structured(Seq<StructuredSpecEntry>),
    Json(Seq<JsonSpec>),
    Csv(Seq<Seq<Seq<char>>>),
}

/// What to write for the matches: only their paths (console with `path_only`), console
/// entries, structured console entries (with `full` or `structured`), JSON records, or CSV rows
/// after a header row.
#[derive(Debug)]
pub enum OutputPlan {
    Paths(Vec<String>),
    Console(Vec<ConsoleEntry>),
    Structured(Vec<StructuredEntry>),
    Json(Vec<JsonRecord>),
    Csv(Vec<Vec<String>>),
}

/// Model of a list of lists of strings.
pub open spec fn tables_view(v: Seq<Vec<String>>) -> Seq<Seq<Seq<char>>> {
    Seq::new(v.len(), |i: int| strs(v[i]@))
}

impl View for OutputPlan {
    type V = PlanSpec;

    open spec fn view(&self) -> PlanSpec {
        match self {
            OutputPlan::Paths(v) => PlanSpec::Paths(strs(v@)),
            OutputPlan::Console(v) => PlanSpec::Console(Seq::new(v@.len(), |i: int| v@[i]@)),
            OutputPlan::Structured(v) => PlanSpec::Structured(Seq::new(v@.len(), |i: int| v@[i]@)),
            OutputPlan::Json(v) => PlanSpec::Json(Seq::new(v@.len(), |i: int| v@[i]@)),
            OutputPlan::Csv(v) => PlanSpec::Csv(tables_view(v@)),
        }
    }
}

/// Model of a list of match results.
pub open spec fn results_view(v: Seq<MatchResult>) -> Seq<MatchSpec> {
    Seq::new(v.len(), |i: int| v[i]@)
}

/// Whether every result's ranges fall on character boundaries of its prompt, so that the
/// console can cut the prompt at them.
pub open spec fn results_fit(v: Seq<MatchResult>) -> bool {
    forall|i: int|
        0 <= i < v.len() ==> ranges_on_boundaries(
            (#[trigger] v[i]).record.prompt@,
            v[i].match_ranges@,
        )
}

/// What the search writes for the matches `ms` under `c`.
pub open spec fn plan_spec(ms: Seq<MatchSpec>, c: Config) -> PlanSpec {
    match c.format {
        OutputFormat::Console => if c.path_only {
            PlanSpec::Paths(Seq::new(ms.len(), |i: int| ms[i].record.path))
        } else if c.full || c.structured {
            PlanSpec::Structured(Seq::new(ms.len(), |i: int| structured_spec(ms[i], c.full)))
        } else {
            PlanSpec::Console(Seq::new(ms.len(), |i: int| console_spec(ms[i], c.full)))
        },
        OutputFormat::Json => PlanSpec::Json(Seq::new(ms.len(), |i: int| json_spec(ms[i]))),
        OutputFormat::Csv => PlanSpec::Csv(csv_rows(ms)),
    }
}

/// What to write for the matches, in the configured format. The console cuts prompts at the
/// match ranges, so for it they must fall on character boundaries.
pub fn output_results(results: &[MatchResult], config: &Config) -> (plan: OutputPlan)
    requires
        config.format == OutputFormat::Console ==> results_fit(results@),
    ensures
        plan@ == plan_spec(results_view(results@), *config),
{
    let ghost ms = results_view(results@);
    match config.format {
        OutputFormat::Console => {
            if config.path_only {
                let n = results.len();
                let mut paths: Vec<String> = Vec::new();
                let mut i: usize = 0;
                while i < n
                    invariant
                        n == results@.len(),
                        ms == results_view(results@),
                        i <= n,
                        paths@.len() == i,
                        forall|k: int| 0 <= k < i ==> (#[trigger] paths@[k])@ == ms[k].record.path,
                    decreases n - i,
                {
                    paths.push(results[i].record.path.clone());
                    i += 1;
                }
                let plan = OutputPlan::Paths(paths);
                assert(strs(paths@) =~= Seq::new(ms.len(), |k: int| ms[k].record.path));
                plan
            } else if config.full || config.structured {
                OutputPlan::Structured(console::output_structured(results, config))
            } else {
                OutputPlan::Console(console::output(results, config))
            }
        },
        OutputFormat::Json => OutputPlan::Json(json::output(results)),
        OutputFormat::Csv => OutputPlan::Csv(csv::output(results)),
    }
}

} // verus!
