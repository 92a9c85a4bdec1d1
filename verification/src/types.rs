//! The records that extraction produces, the results that matching produces, and the search
//! configuration, each with its mathematical model.
use vstd::prelude::*;
use crate::text::copy_str;

verus! {

/// Model of an optional string.
pub open spec fn opt_str(o: Option<String>) -> Option<Seq<char>> {
    match o {
        Some(s) => Some(s@),
        None => None,
    }
}

/// A copy of an optional string.
pub fn copy_opt(o: &Option<String>) -> (r: Option<String>)
    ensures
        opt_str(r) == opt_str(*o),
{
    match o {
        Some(s) => Some(s.clone()),
        None => None,
    }
}

/// Model of a LoRA reference.
pub struct LoraSpec {
    pub name: Seq<char>,
    pub weight: Seq<char>,
}

/// LoRA info from ComfyUI workflow or A1111 prompt tags.
#[derive(Debug, PartialEq)]
pub struct LoraInfo {
    pub name: String,
    pub weight: String,
}

impl View for LoraInfo {
    type V = LoraSpec;

    open spec fn view(&self) -> LoraSpec {
        LoraSpec { name: self.name@, weight: self.weight@ }
    }
}

impl Clone for LoraInfo {
    fn clone(&self) -> (r: Self)
        ensures
            r@ == self@,
    {
        LoraInfo { name: self.name.clone(), weight: self.weight.clone() }
    }
}

/// Model of a list of LoRA references.
pub open spec fn loras_view(v: Seq<LoraInfo>) -> Seq<LoraSpec> {
    Seq::new(v.len(), |i: int| v[i]@)
}

/// A copy of a list of LoRA references.
pub fn copy_loras(v: &Vec<LoraInfo>) -> (r: Vec<LoraInfo>)
    ensures
        loras_view(r@) == loras_view(v@),
{
    let mut r: Vec<LoraInfo> = Vec::new();
    let mut i: usize = 0;
    while i < v.len()
        invariant
            i <= v@.len(),
            r@.len() == i,
            forall|j: int| 0 <= j < i ==> r@[j]@ == v@[j]@,
        decreases v@.len() - i,
    {
        r.push(v[i].clone());
        i += 1;
    }
    assert(loras_view(r@) =~= loras_view(v@));
    r
}

/// Model of the structured prompt details.
pub struct DetailsSpec {
    pub model: Option<Seq<char>>,
    pub loras: Seq<LoraSpec>,
    pub positive_prompt: Option<Seq<char>>,
    pub negative_prompt: Option<Seq<char>>,
}

/// The details with every field empty.
pub open spec fn empty_details() -> DetailsSpec {
    DetailsSpec { model: None, loras: Seq::empty(), positive_prompt: None, negative_prompt: None }
}

/// Prompt details extracted from metadata (ComfyUI workflow, A1111 parameters, etc.)
#[derive(Debug)]
pub struct PromptDetails {
    pub model: Option<String>,
    pub loras: Vec<LoraInfo>,
    pub positive_prompt: Option<String>,
    pub negative_prompt: Option<String>,
}

impl View for PromptDetails {
    type V = DetailsSpec;

    open spec fn view(&self) -> DetailsSpec {
        DetailsSpec {
            model: opt_str(self.model),
            loras: loras_view(self.loras@),
            positive_prompt: opt_str(self.positive_prompt),
            negative_prompt: opt_str(self.negative_prompt),
        }
    }
}

impl Clone for PromptDetails {
    fn clone(&self) -> (r: Self)
        ensures
            r@ == self@,
    {
        PromptDetails {
            model: copy_opt(&self.model),
            loras: copy_loras(&self.loras),
            positive_prompt: copy_opt(&self.positive_prompt),
            negative_prompt: copy_opt(&self.negative_prompt),
        }
    }
}

impl Default for PromptDetails {
    fn default() -> (r: Self)
        ensures
            r@ == empty_details(),
    {
        let r = PromptDetails {
            model: None,
            loras: Vec::new(),
            positive_prompt: None,
            negative_prompt: None,
        };
        assert(r@.loras =~= Seq::<LoraSpec>::empty());
        r
    }
}

/// The generator that most likely wrote a piece of metadata.
#[derive(Debug, Clone, Copy, PartialEq, Eq, Structural)]
pub enum Generator {
    A1111,
    ComfyUI,
    NovelAI,
    InvokeAI,
    Unknown,
}

/// The lowercase tag of a generator.
pub open spec fn generator_name(g: Generator) -> Seq<char> {
    match g {
        Generator::A1111 => seq!['a', '1', '1', '1', '1'],
        Generator::ComfyUI => seq!['c', 'o', 'm', 'f', 'y', 'u', 'i'],
        Generator::NovelAI => seq!['n', 'o', 'v', 'e', 'l', 'a', 'i'],
        Generator::InvokeAI => seq!['i', 'n', 'v', 'o', 'k', 'e', 'a', 'i'],
        Generator::Unknown => seq!['u', 'n', 'k', 'n', 'o', 'w', 'n'],
    }
}

fn string_of(cs: &[char]) -> (s: String)
    ensures
        s@ == cs@,
{
    crate::text::from_chars(cs)
}

impl Generator {
    /// The lowercase tag of this generator, as the console, JSON and CSV output print it.
    pub fn to_string(&self) -> (s: String)
        ensures
            s@ == generator_name(*self),
    {
        let cs: Vec<char> = match self {
            Generator::A1111 => vec!['a', '1', '1', '1', '1'],
            Generator::ComfyUI => vec!['c', 'o', 'm', 'f', 'y', 'u', 'i'],
            Generator::NovelAI => vec!['n', 'o', 'v', 'e', 'l', 'a', 'i'],
            Generator::InvokeAI => vec!['i', 'n', 'v', 'o', 'k', 'e', 'a', 'i'],
            Generator::Unknown => vec!['u', 'n', 'k', 'n', 'o', 'w', 'n'],
        };
        let s = string_of(&cs);
        assert(s@ =~= generator_name(*self));
        s
    }
}

/// Model of a prompt record.
pub struct RecordSpec {
    pub path: Seq<char>,
    pub prompt: Seq<char>,
    pub generator: Generator,
    pub metadata_key: Seq<char>,
    pub details: Option<DetailsSpec>,
}

/// A prompt extracted from a single image file.
#[derive(Debug)]
pub struct PromptRecord {
    pub path: String,
    pub prompt: String,
    pub generator: Generator,
    pub metadata_key: String,
    /// Extracted prompt details (model, loras, positive/negative prompts)
    pub details: Option<PromptDetails>,
}

impl View for PromptRecord {
    type V = RecordSpec;

    open spec fn view(&self) -> RecordSpec {
        RecordSpec {
            path: self.path@,
            prompt: self.prompt@,
            generator: self.generator,
            metadata_key: self.metadata_key@,
            details: match self.details {
                Some(d) => Some(d@),
                None => None,
            },
        }
    }
}

impl Clone for PromptRecord {
    fn clone(&self) -> (r: Self)
        ensures
            r@ == self@,
    {
        PromptRecord {
            path: self.path.clone(),
            prompt: self.prompt.clone(),
            generator: self.generator,
            metadata_key: self.metadata_key.clone(),
            details: match &self.details {
                Some(d) => Some(d.clone()),
                None => None,
            },
        }
    }
}

/// The record that `with_details` builds.
pub open spec fn record_with(
    path: Seq<char>,
    prompt: Seq<char>,
    generator: Generator,
    key: Seq<char>,
    details: DetailsSpec,
) -> RecordSpec {
    RecordSpec { path, prompt, generator, metadata_key: key, details: Some(details) }
}

/// Model of a structured record.
pub struct StructuredSpec {
    pub path: Seq<char>,
    pub generator: Generator,
    pub model: Option<Seq<char>>,
    pub loras: Seq<LoraSpec>,
    pub positive: Option<Seq<char>>,
    pub negative: Option<Seq<char>>,
}

/// A structured prompt record with parsed components.
#[derive(Debug, Clone)]
pub struct StructuredPromptRecord {
    pub path: String,
    pub generator: Generator,
    pub model: Option<String>,
    pub loras: Vec<LoraInfo>,
    pub positive: Option<String>,
    pub negative: Option<String>,
}

impl View for StructuredPromptRecord {
    type V = StructuredSpec;

    open spec fn view(&self) -> StructuredSpec {
        StructuredSpec {
            path: self.path@,
            generator: self.generator,
            model: opt_str(self.model),
            loras: loras_view(self.loras@),
            positive: opt_str(self.positive),
            negative: opt_str(self.negative),
        }
    }
}

/// The details of a record, or empty details when it has none.
pub open spec fn details_or_empty(r: RecordSpec) -> DetailsSpec {
    match r.details {
        Some(d) => d,
        None => empty_details(),
    }
}

/// The structured form of a record: its path and generator with its details' fields.
pub open spec fn structured_of(r: RecordSpec) -> StructuredSpec {
    let d = details_or_empty(r);
    StructuredSpec {
        path: r.path,
        generator: r.generator,
        model: d.model,
        loras: d.loras,
        positive: d.positive_prompt,
        negative: d.negative_prompt,
    }
}

impl PromptRecord {
    /// A record carrying the given details.
    pub fn with_details(
        path: String,
        prompt: String,
        generator: Generator,
        metadata_key: &str,
        details: PromptDetails,
    ) -> (r: Self)
        ensures
            r@ == record_with(path@, prompt@, generator, metadata_key@, details@),
    {
        PromptRecord {
            path,
            prompt,
            generator,
            metadata_key: copy_str(metadata_key),
            details: Some(details),
        }
    }

    /// A copy of the record's details, or empty details when it has none.
    pub fn details_or_default(&self) -> (d: PromptDetails)
        ensures
            d@ == details_or_empty(self@),
    {
        match &self.details {
            Some(d) => d.clone(),
            None => PromptDetails::default(),
        }
    }

    /// The record's path and generator together with its parsed details.
    pub fn to_structured(&self) -> (s: StructuredPromptRecord)
        ensures
            s@ == structured_of(self@),
    {
        let details = self.details_or_default();
        StructuredPromptRecord {
            path: self.path.clone(),
            generator: self.generator,
            model: details.model,
            loras: details.loras,
            positive: details.positive_prompt,
            negative: details.negative_prompt,
        }
    }
}

/// Model of a match result.
pub struct MatchSpec {
    pub record: RecordSpec,
    pub score: Option<i64>,
    pub match_ranges: Seq<(usize, usize)>,
}

/// A matched result ready for output.
#[derive(Debug, Clone)]
pub struct MatchResult {
    pub record: PromptRecord,
    pub score: Option<i64>,
    /// Byte ranges in the prompt string.
    pub match_ranges: Vec<(usize, usize)>,
}

impl View for MatchResult {
    type V = MatchSpec;

    open spec fn view(&self) -> MatchSpec {
        MatchSpec { record: self.record@, score: self.score, match_ranges: self.match_ranges@ }
    }
}

/// How results are written.
#[derive(Debug, Clone, Copy, PartialEq, Eq, Structural)]
pub enum OutputFormat {
    Console,
    Json,
    Csv,
}

/// The output format that a `--format` name selects: `json`, `csv`, else the console.
pub open spec fn format_named(name: Seq<char>) -> OutputFormat {
    if name == "json"@ {
        OutputFormat::Json
    } else if name == "csv"@ {
        OutputFormat::Csv
    } else {
        OutputFormat::Console
    }
}

impl OutputFormat {
    /// The format a `--format` name selects; unknown names select the console.
    pub fn from_name(name: &str) -> (f: OutputFormat)
        ensures
            f == format_named(name@),
    {
        if crate::text::str_equal(name, "json") {
            OutputFormat::Json
        } else if crate::text::str_equal(name, "csv") {
            OutputFormat::Csv
        } else {
            OutputFormat::Console
        }
    }
}

/// How the query is compared with prompts.
#[derive(Debug, Clone, Copy, PartialEq, Eq, Structural)]
pub enum MatchMode {
    Exact,
    Fuzzy,
    Regex,
}

impl MatchMode {
    /// The mode that the `--regex` and `--fuzzy` flags select: a regular expression wins over
    /// fuzzy matching, and exact matching is the default.
    pub fn from_flags(regex: bool, fuzzy: bool) -> (m: MatchMode)
        ensures
            m == (if regex {
                MatchMode::Regex
            } else if fuzzy {
                MatchMode::Fuzzy
            } else {
                MatchMode::Exact
            }),
    {
        if regex {
            MatchMode::Regex
        } else if fuzzy {
            MatchMode::Fuzzy
        } else {
            MatchMode::Exact
        }
    }
}

/// The search configuration.
#[derive(Debug, Clone)]
pub struct Config {
    pub query: String,
    pub path: String,
    pub format: OutputFormat,
    pub match_mode: MatchMode,
    pub min_score: i64,
    pub full: bool,
    pub structured: bool,
    pub depth: Option<usize>,
    pub no_recursive: bool,
    pub threads: Option<usize>,
    pub verbose: bool,
    pub no_color: bool,
    pub path_only: bool,
}

impl Config {
    /// How deep the directory walk goes below the search path (1 is the files directly in
    /// it): one level without recursion, else the `--depth` limit, if any.
    pub fn max_depth(&self) -> (d: Option<usize>)
        ensures
            d == (if self.no_recursive {
                Some(1usize)
            } else {
                self.depth
            }),
    {
        if self.no_recursive {
            Some(1)
        } else {
            self.depth
        }
    }
}

} // verus!
