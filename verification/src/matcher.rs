//! Matching a record's prompt against the query: exact (a case-insensitive substring), fuzzy
//! (skim scoring) or a regular expression.
use vstd::prelude::*;
use fuzzy_matcher::FuzzyMatcher;
use crate::text::{
    char_lowercase, lowercase_char, chars_equal, to_chars, byte_offset, byte_len, str_byte_len,
    offset_of, char_boundary, copy_str, occurs_at, lemma_byte_len_mono, ordered_ranges,
    ranges_on_boundaries,
};
use crate::types::{Config, MatchMode, MatchResult, MatchSpec, PromptRecord, RecordSpec};
use crate::output::{results_view, results_fit};
use crate::extract::png::records_view;

verus! {

// ---------------------------------------------------------------------------------------------
// Outside matchers.
// ---------------------------------------------------------------------------------------------
/// The score and matched character positions that `SkimMatcherV2::default().fuzzy_indices`
/// gives for `choice` and `pattern`.
pub uninterp spec fn skim_fuzzy_indices(choice: Seq<char>, pattern: Seq<char>) -> Option<
    (i64, Seq<usize>),
>;

/// Whether `regex::Regex::new` accepts `pattern`.
pub uninterp spec fn regex_valid(pattern: Seq<char>) -> bool;

/// The byte range of the first match of `pattern` in `haystack`, as `Regex::find` reports it.
pub uninterp spec fn regex_first_match(pattern: Seq<char>, haystack: Seq<char>) -> Option<
    (usize, usize),
>;

/// Trusted: the regex crate's compiled expression `regex::Regex`, held opaque.
#[verifier::external_type_specification]
#[verifier::external_body]
pub struct ExRegex(regex::Regex);

/// Trusted: the regex crate's compile error `regex::Error`, held opaque.
#[verifier::external_type_specification]
#[verifier::external_body]
pub struct ExRegexError(regex::Error);

/// Model of a fuzzy outcome.
pub open spec fn fuzzy_view(o: Option<(i64, Vec<usize>)>) -> Option<(i64, Seq<usize>)> {
    match o {
        Some((score, idx)) => Some((score, idx@)),
        None => None,
    }
}

/// Trusted: `SkimMatcherV2::default().fuzzy_indices(choice, pattern)` (fuzzy-matcher). Its
/// result, a score with the matched character positions of `choice`, is named
/// `skim_fuzzy_indices`; for an empty pattern the source returns a zero score and no positions.
#[verifier::external_body]
fn skim_indices(choice: &str, pattern: &str) -> (r: Option<(i64, Vec<usize>)>)
    ensures
        fuzzy_view(r) == skim_fuzzy_indices(choice@, pattern@),
        pattern@.len() == 0 ==> fuzzy_view(r) == Some((0i64, Seq::<usize>::empty())),
{
    fuzzy_matcher::skim::SkimMatcherV2::default().fuzzy_indices(choice, pattern)
}

/// Trusted: `regex::Regex::new(pattern)`; it succeeds exactly when `regex_valid(pattern@)`.
#[verifier::external_body]
fn regex_new(pattern: &str) -> (r: Result<regex::Regex, regex::Error>)
    ensures
        r is Ok <==> regex_valid(pattern@),
{
    regex::Regex::new(pattern)
}

/// A regular expression compiled from its pattern. Its fields are private: the only way to
/// build one is `CompiledRegex::new`, which compiles `pattern` into `re`.
#[derive(Debug)]
pub struct CompiledRegex {
    pattern: String,
    re: regex::Regex,
}

impl View for CompiledRegex {
    type V = Seq<char>;

    /// The pattern the expression was compiled from.
    closed spec fn view(&self) -> Seq<char> {
        self.pattern@
    }
}

/// Trusted: `Regex::find` on the expression of `c`, as a byte range; the result is named
/// `regex_first_match` of `c`'s pattern and the haystack (the expression was compiled from that
/// pattern, see `CompiledRegex`). The regex documentation guarantees `start <= end` and that
/// both fall on character boundaries of the haystack.
#[verifier::external_body]
fn regex_find(c: &CompiledRegex, haystack: &str) -> (r: Option<(usize, usize)>)
    ensures
        r == regex_first_match(c@, haystack@),
        r matches Some((s, e)) ==> s <= e && char_boundary(haystack@, s as int) && char_boundary(
            haystack@,
            e as int,
        ),
{
    match c.re.find(haystack) {
        Some(m) => Some((m.start(), m.end())),
        None => None,
    }
}

impl CompiledRegex {
    /// Compile `pattern`; the error is the regex crate's when the pattern is refused.
    pub fn new(pattern: &str) -> (r: Result<CompiledRegex, regex::Error>)
        ensures
            r is Ok <==> regex_valid(pattern@),
            r matches Ok(c) ==> c@ == pattern@,
    {
        match regex_new(pattern) {
            Ok(re) => Ok(CompiledRegex { pattern: copy_str(pattern), re }),
            Err(e) => Err(e),
        }
    }

    /// The byte range of the first match in `haystack`.
    pub fn find(&self, haystack: &str) -> (r: Option<(usize, usize)>)
        ensures
            r == regex_first_match(self@, haystack@),
            r matches Some((s, e)) ==> s <= e && char_boundary(haystack@, s as int)
                && char_boundary(haystack@, e as int),
    {
        regex_find(self, haystack)
    }
}

// ---------------------------------------------------------------------------------------------
// Results.
// ---------------------------------------------------------------------------------------------
/// Model of an optional match result.
pub open spec fn match_view(r: Option<MatchResult>) -> Option<MatchSpec> {
    match r {
        Some(m) => Some(m@),
        None => None,
    }
}

/// The result for `r` with one highlighted byte range and no score.
pub open spec fn ranged(r: RecordSpec, start: int, end: int) -> MatchSpec {
    MatchSpec { record: r, score: None, match_ranges: seq![(start as usize, end as usize)] }
}

/// Whether a result's byte ranges each start no later than they end and fall on character
/// boundaries of its prompt, so that the prompt can be cut at them.
pub open spec fn fits_prompt(r: Option<MatchResult>) -> bool {
    r matches Some(m) ==> ordered_ranges(m.match_ranges@) && ranges_on_boundaries(
        m.record.prompt@,
        m.match_ranges@,
    )
}

// ---------------------------------------------------------------------------------------------
// Exact matching.
// ---------------------------------------------------------------------------------------------
/// Whether two characters are equal or have the same lowercase form.
pub open spec fn chars_match(a: char, b: char) -> bool {
    a == b || char_lowercase(a) == char_lowercase(b)
}

/// Whether `w` equals `q` character by character, ignoring case.
pub open spec fn same_ignoring_case(w: Seq<char>, q: Seq<char>) -> bool {
    w.len() == q.len() && forall|k: int| 0 <= k < q.len() ==> #[trigger] chars_match(w[k], q[k])
}

/// The first character position, from `i` on, where `q` occurs in `p` ignoring case.
pub open spec fn first_match_from(p: Seq<char>, q: Seq<char>, i: int) -> Option<int>
    decreases p.len() - i,
{
    if q.len() == 0 || i < 0 || i + q.len() > p.len() {
        None
    } else if same_ignoring_case(p.subrange(i, i + q.len()), q) {
        Some(i)
    } else {
        first_match_from(p, q, i + 1)
    }
}

/// The exact match of `q` in the record `r`: the byte range of the first occurrence of `q` in
/// the prompt, ignoring case; none for an empty query.
pub open spec fn exact_match_spec(r: RecordSpec, q: Seq<char>) -> Option<MatchSpec> {
    match first_match_from(r.prompt, q, 0) {
        Some(i) => Some(ranged(r, byte_offset(r.prompt, i) as int, byte_offset(r.prompt, i + q.len()) as int)),
        None => None,
    }
}

/// Whether two characters are equal ignoring case.
pub fn chars_eq_ignore_case(a: char, b: char) -> (r: bool)
    ensures
        r == chars_match(a, b),
{
    if a == b {
        return true;
    }
    let la = lowercase_char(a);
    let lb = lowercase_char(b);
    chars_equal(&la, &lb)
}

fn window_matches(p: &[char], q: &[char], i: usize) -> (r: bool)
    requires
        i + q@.len() <= p@.len(),
    ensures
        r == same_ignoring_case(p@.subrange(i as int, i + q@.len()), q@),
{
    let ghost w = p@.subrange(i as int, i + q@.len());
    let pl = p.len();
    let mut k: usize = 0;
    while k < q.len()
        invariant
            pl == p@.len(),
            i + q@.len() <= p@.len(),
            w == p@.subrange(i as int, i + q@.len()),
            k <= q@.len(),
            forall|j: int| 0 <= j < k ==> #[trigger] chars_match(w[j], q@[j]),
        decreases q@.len() - k,
    {
        if !chars_eq_ignore_case(p[i + k], q[k]) {
            assert(!chars_match(w[k as int], q@[k as int]));
            return false;
        }
        k += 1;
    }
    true
}

/// The first case-insensitive occurrence of the query in the prompt, as one byte range.
pub fn match_exact(record: &PromptRecord, config: &Config) -> (r: Option<MatchResult>)
    ensures
        fits_prompt(r),
        match_view(r) == exact_match_spec(record@, config.query@),
{
    let q = to_chars(config.query.as_str());
    if q.len() == 0 {
        return None;
    }
    let p = to_chars(record.prompt.as_str());
    let total = str_byte_len(record.prompt.as_str());
    if q.len() > p.len() {
        return None;
    }
    let last = p.len() - q.len();
    let mut i: usize = 0;
    while i <= last
        invariant
            q@ == config.query@,
            p@ == record.prompt@,
            total == byte_len(p@),
            q@.len() > 0,
            last == p@.len() - q@.len(),
            i <= last + 1,
            first_match_from(p@, q@, 0) == first_match_from(p@, q@, i as int),
        decreases last + 1 - i,
    {
        if window_matches(&p, &q, i) {
            let start = offset_of(&p, i);
            let end = offset_of(&p, i + q.len());
            proof {
                lemma_byte_len_mono(p@, i as int, i + q@.len());
                lemma_byte_len_mono(p@, i + q@.len(), p@.len() as int);
                assert(p@.take(p@.len() as int) =~= p@);
                assert(char_boundary(p@, start as int));
                assert(char_boundary(p@, end as int));
            }
            let mut ranges: Vec<(usize, usize)> = Vec::new();
            ranges.push((start, end));
            let m = MatchResult { record: record.clone(), score: None, match_ranges: ranges };
            assert(m@.match_ranges =~= seq![(start, end)]);
            return Some(m);
        }
        i += 1;
    }
    None
}

// ---------------------------------------------------------------------------------------------
// Fuzzy matching.
// ---------------------------------------------------------------------------------------------
/// The byte range of the character at position `c` of `p`.
pub open spec fn char_range(p: Seq<char>, c: int) -> (usize, usize) {
    (byte_offset(p, c) as usize, byte_offset(p, c + 1) as usize)
}

/// Whether `x` is the byte range of one of the characters of `p`.
pub open spec fn is_char_range(p: Seq<char>, x: (usize, usize)) -> bool {
    exists|c: int| 0 <= c < p.len() && #[trigger] char_range(p, c) == x
}

/// The byte ranges of the characters at positions `idx` of `p`, skipping positions past its end.
pub open spec fn index_ranges(p: Seq<char>, idx: Seq<usize>) -> Seq<(usize, usize)>
    decreases idx.len(),
{
    if idx.len() == 0 {
        Seq::empty()
    } else {
        let rest = index_ranges(p, idx.drop_last());
        let c = idx.last() as int;
        if c < p.len() {
            rest.push(char_range(p, c))
        } else {
            rest
        }
    }
}

/// The fuzzy result for the record `r` given the matcher's outcome: none without a match or
/// below `min_score`; else the score and the byte ranges of the matched characters.
pub open spec fn fuzzy_match_spec(
    r: RecordSpec,
    min_score: i64,
    outcome: Option<(i64, Seq<usize>)>,
) -> Option<MatchSpec> {
    match outcome {
        None => None,
        Some((score, idx)) => if score < min_score {
            None
        } else {
            Some(
                MatchSpec {
                    record: r,
                    score: Some(score),
                    match_ranges: index_ranges(r.prompt, idx),
                },
            )
        },
    }
}

/// The result of fuzzy matching `record`, given the matcher's outcome for its prompt.
pub fn fuzzy_result(
    record: &PromptRecord,
    config: &Config,
    outcome: Option<(i64, Vec<usize>)>,
) -> (r: Option<MatchResult>)
    ensures
        match_view(r) == fuzzy_match_spec(record@, config.min_score, fuzzy_view(outcome)),
        fits_prompt(r),
{
    let (score, indices) = match outcome {
        Some(o) => o,
        None => return None,
    };
    if score < config.min_score {
        return None;
    }
    let p = to_chars(record.prompt.as_str());
    let total = str_byte_len(record.prompt.as_str());
    let mut ranges: Vec<(usize, usize)> = Vec::new();
    let mut i: usize = 0;
    assert(indices@.take(0) =~= Seq::<usize>::empty());
    while i < indices.len()
        invariant
            p@ == record.prompt@,
            total == byte_len(p@),
            i <= indices@.len(),
            ranges@ == index_ranges(p@, indices@.take(i as int)),
            ordered_ranges(ranges@),
            ranges_on_boundaries(p@, ranges@),
        decreases indices@.len() - i,
    {
        let c = indices[i];
        assert(indices@.take(i + 1).drop_last() =~= indices@.take(i as int));
        if c < p.len() {
            let start = offset_of(&p, c);
            let end = offset_of(&p, c + 1);
            proof {
                lemma_byte_len_mono(p@, c as int, c + 1);
                lemma_byte_len_mono(p@, c + 1, p@.len() as int);
                assert(p@.take(p@.len() as int) =~= p@);
                assert(char_boundary(p@, start as int));
                assert(char_boundary(p@, end as int));
            }
            ranges.push((start, end));
        }
        i += 1;
    }
    assert(indices@.take(indices@.len() as int) =~= indices@);
    Some(MatchResult { record: record.clone(), score: Some(score), match_ranges: ranges })
}

/// Fuzzy matching with the skim matcher, kept when its score reaches `config.min_score`.
pub fn match_fuzzy(record: &PromptRecord, config: &Config) -> (r: Option<MatchResult>)
    ensures
        fits_prompt(r),
        match_view(r) == fuzzy_match_spec(
            record@,
            config.min_score,
            skim_fuzzy_indices(record.prompt@, config.query@),
        ),
{
    let outcome = skim_indices(record.prompt.as_str(), config.query.as_str());
    fuzzy_result(record, config, outcome)
}

// ---------------------------------------------------------------------------------------------
// Regular expressions.
// ---------------------------------------------------------------------------------------------
/// The regex result for the record `r` given the byte range of the first match, if any.
pub open spec fn regex_match_spec(r: RecordSpec, found: Option<(usize, usize)>) -> Option<
    MatchSpec,
> {
    match found {
        Some((s, e)) => Some(ranged(r, s as int, e as int)),
        None => None,
    }
}

/// The result of regex matching `record`, given the first match in its prompt.
pub fn regex_result(record: &PromptRecord, found: Option<(usize, usize)>) -> (r: Option<
    MatchResult,
>)
    ensures
        match_view(r) == regex_match_spec(record@, found),
        (found matches Some((s, e)) ==> s <= e && char_boundary(record.prompt@, s as int)
            && char_boundary(record.prompt@, e as int)) ==> fits_prompt(r),
{
    match found {
        Some((s, e)) => {
            let mut ranges: Vec<(usize, usize)> = Vec::new();
            ranges.push((s, e));
            let m = MatchResult { record: record.clone(), score: None, match_ranges: ranges };
            assert(m@.match_ranges =~= seq![(s, e)]);
            proof {
                if s <= e && char_boundary(record.prompt@, s as int) && char_boundary(
                    record.prompt@,
                    e as int,
                ) {
                    let ks = choose|k: int|
                        0 <= k <= record.prompt@.len() && #[trigger] byte_offset(record.prompt@, k)
                            == s;
                    let ke = choose|k: int|
                        0 <= k <= record.prompt@.len() && #[trigger] byte_offset(record.prompt@, k)
                            == e;
                    lemma_byte_len_mono(record.prompt@, ks, record.prompt@.len() as int);
                    lemma_byte_len_mono(record.prompt@, ke, record.prompt@.len() as int);
                    assert(record.prompt@.take(record.prompt@.len() as int) =~= record.prompt@);
                }
            }
            Some(m)
        },
        None => None,
    }
}

/// Regex matching with an expression compiled once.
pub fn match_regex_with(record: &PromptRecord, re: &CompiledRegex) -> (r: Option<MatchResult>)
    ensures
        fits_prompt(r),
        match_view(r) == regex_match_spec(record@, regex_first_match(re@, record.prompt@)),
{
    let found = re.find(record.prompt.as_str());
    regex_result(record, found)
}

/// The regex result for the record `r` and pattern `q`: none when the pattern does not compile.
pub open spec fn regex_outcome(r: RecordSpec, q: Seq<char>) -> Option<MatchSpec> {
    if regex_valid(q) {
        regex_match_spec(r, regex_first_match(q, r.prompt))
    } else {
        None
    }
}

/// Regex matching: the first match of the query, compiled as a regular expression, in the
/// prompt; no match when the query does not compile.
pub fn match_regex(record: &PromptRecord, config: &Config) -> (r: Option<MatchResult>)
    ensures
        fits_prompt(r),
        match_view(r) == regex_outcome(record@, config.query@),
{
    match CompiledRegex::new(config.query.as_str()) {
        Ok(re) => match_regex_with(record, &re),
        Err(_) => None,
    }
}

// ---------------------------------------------------------------------------------------------
// Dispatch.
// ---------------------------------------------------------------------------------------------
/// What matching `r` under `config`'s mode gives.
pub open spec fn match_spec(r: RecordSpec, config: Config) -> Option<MatchSpec> {
    match config.match_mode {
        MatchMode::Exact => exact_match_spec(r, config.query@),
        MatchMode::Fuzzy => fuzzy_match_spec(
            r,
            config.min_score,
            skim_fuzzy_indices(r.prompt, config.query@),
        ),
        MatchMode::Regex => regex_outcome(r, config.query@),
    }
}

/// Match one record against the query in the configured mode.
pub fn match_record(record: &PromptRecord, config: &Config) -> (r: Option<MatchResult>)
    ensures
        fits_prompt(r),
        match_view(r) == match_spec(record@, *config),
{
    match config.match_mode {
        MatchMode::Exact => match_exact(record, config),
        MatchMode::Fuzzy => match_fuzzy(record, config),
        MatchMode::Regex => match_regex(record, config),
    }
}


/// The matches among the records `rs`, in order: each record that matches, with its result.
pub open spec fn matches_of(rs: Seq<RecordSpec>, config: Config) -> Seq<MatchSpec>
    decreases rs.len(),
{
    if rs.len() == 0 {
        Seq::empty()
    } else {
        let before = matches_of(rs.drop_last(), config);
        match match_spec(rs.last(), config) {
            Some(m) => before.push(m),
            None => before,
        }
    }
}

/// Match every record, keeping the results of those that match, in order. A regular
/// expression is compiled once for all records.
pub fn match_records(records: &[PromptRecord], config: &Config) -> (r: Vec<MatchResult>)
    ensures
        results_view(r@) == matches_of(records_view(records@), *config),
        results_fit(r@),
{
    let compiled = match config.match_mode {
        MatchMode::Regex => match CompiledRegex::new(config.query.as_str()) {
            Ok(re) => Some(re),
            Err(_) => None,
        },
        _ => None,
    };
    let mut out: Vec<MatchResult> = Vec::new();
    let mut i: usize = 0;
    let ghost rs = records_view(records@);
    assert(rs.take(0) =~= Seq::<RecordSpec>::empty());
    assert(results_view(out@) =~= Seq::<MatchSpec>::empty());
    while i < records.len()
        invariant
            rs == records_view(records@),
            i <= records@.len(),
            results_view(out@) == matches_of(rs.take(i as int), *config),
            results_fit(out@),
            config.match_mode == MatchMode::Regex ==> (compiled is Some <==> regex_valid(
                config.query@,
            )),
            compiled matches Some(re) ==> re@ == config.query@,
        decreases records@.len() - i,
    {
        assert(rs.take(i + 1).drop_last() =~= rs.take(i as int));
        assert(rs.take(i + 1).last() == records@[i as int]@);
        let result = match config.match_mode {
            MatchMode::Regex => match &compiled {
                Some(re) => match_regex_with(&records[i], re),
                None => None,
            },
            _ => match_record(&records[i], config),
        };
        assert(match_view(result) == match_spec(records@[i as int]@, *config));
        match result {
            Some(m) => {
                let ghost before = results_view(out@);
                out.push(m);
                assert(results_view(out@) =~= before.push(out@.last()@));
            },
            None => {},
        }
        i += 1;
    }
    assert(rs.take(rs.len() as int) =~= rs);
    out
}

// ---------------------------------------------------------------------------------------------
// Laws.
// ---------------------------------------------------------------------------------------------
/// What `first_match_from` returns: a position at or after `i` where the query occurs ignoring
/// case, with no such position between `i` and it.
pub proof fn lemma_first_match_from(p: Seq<char>, q: Seq<char>, i: int)
    requires
        0 <= i,
    ensures
        first_match_from(p, q, i) matches Some(j) ==> i <= j && j + q.len() <= p.len()
            && same_ignoring_case(p.subrange(j, j + q.len()), q),
        first_match_from(p, q, i) matches Some(j) ==> forall|k: int|
            i <= k < j ==> !same_ignoring_case(#[trigger] p.subrange(k, k + q.len()), q),
        first_match_from(p, q, i) is None ==> forall|k: int|
            i <= k && k + q.len() <= p.len() && q.len() > 0 ==> !same_ignoring_case(
                #[trigger] p.subrange(k, k + q.len()),
                q,
            ),
    decreases p.len() - i,
{
    if q.len() == 0 || i + q.len() > p.len() {
    } else if same_ignoring_case(p.subrange(i, i + q.len()), q) {
    } else {
        lemma_first_match_from(p, q, i + 1);
    }
}

/// Exact matching finds every prompt that holds the query in any letter case: when the query
/// occurs at character position `i` ignoring case, the match is the first such occurrence, at
/// `i` or before, and its byte range spans exactly that occurrence.
pub proof fn exact_match_finds_occurrence(r: RecordSpec, q: Seq<char>, i: int)
    requires
        q.len() > 0,
        0 <= i,
        i + q.len() <= r.prompt.len(),
        same_ignoring_case(r.prompt.subrange(i, i + q.len()), q),
    ensures
        exact_match_spec(r, q) is Some,
        exists|j: int|
            0 <= j <= i && same_ignoring_case(#[trigger] r.prompt.subrange(j, j + q.len()), q)
                && exact_match_spec(r, q) == Some(
                ranged(r, byte_offset(r.prompt, j) as int, byte_offset(r.prompt, j + q.len()) as int),
            ),
{
    lemma_first_match_from(r.prompt, q, 0);
    let j = first_match_from(r.prompt, q, 0)->0;
    assert(r.prompt.subrange(j, j + q.len()) == r.prompt.subrange(j, j + q.len()));
}

/// A prompt that holds the query verbatim always matches exactly.
pub proof fn exact_match_finds_substring(r: RecordSpec, q: Seq<char>, i: int)
    requires
        q.len() > 0,
        occurs_at(r.prompt, q, i),
    ensures
        exact_match_spec(r, q) is Some,
{
    assert forall|k: int| 0 <= k < q.len() implies #[trigger] chars_match(
        r.prompt.subrange(i, i + q.len())[k],
        q[k],
    ) by {}
    exact_match_finds_occurrence(r, q, i);
}

/// An exact match reports one byte range: it starts and ends on character boundaries of the
/// prompt, lies within it, and the text it spans equals the query ignoring case. (The prompt is
/// a string in memory, so its byte length fits in `usize`.)
pub proof fn exact_match_range(r: RecordSpec, q: Seq<char>)
    requires
        exact_match_spec(r, q) is Some,
        byte_len(r.prompt) <= usize::MAX,
    ensures
        ({
            let m = exact_match_spec(r, q)->0;
            &&& m.record == r
            &&& m.score is None
            &&& m.match_ranges.len() == 1
            &&& exists|j: int|
                0 <= j && j + q.len() <= r.prompt.len() && same_ignoring_case(
                    #[trigger] r.prompt.subrange(j, j + q.len()),
                    q,
                ) && m.match_ranges[0].0 == byte_offset(r.prompt, j) && m.match_ranges[0].1
                    == byte_offset(r.prompt, j + q.len())
            &&& m.match_ranges[0].0 <= m.match_ranges[0].1 <= byte_len(r.prompt)
            &&& char_boundary(r.prompt, m.match_ranges[0].0 as int)
            &&& char_boundary(r.prompt, m.match_ranges[0].1 as int)
        }),
{
    lemma_first_match_from(r.prompt, q, 0);
    let j = first_match_from(r.prompt, q, 0)->0;
    let p = r.prompt;
    lemma_byte_len_mono(p, j, j + q.len());
    lemma_byte_len_mono(p, j + q.len(), p.len() as int);
    assert(p.take(p.len() as int) =~= p);
    assert(p.subrange(j, j + q.len()) == p.subrange(j, j + q.len()));
    assert(byte_offset(p, j) == byte_len(p.take(j)));
    assert(byte_offset(p, j + q.len()) == byte_len(p.take(j + q.len())));
    let m = exact_match_spec(r, q)->0;
    assert(m.match_ranges[0].0 == byte_offset(p, j));
    assert(m.match_ranges[0].1 == byte_offset(p, j + q.len()));
    assert(char_boundary(p, byte_offset(p, j) as int));
    assert(char_boundary(p, byte_offset(p, j + q.len()) as int));
}

/// Every match, whatever the mode, carries the record it was made for.
pub proof fn match_keeps_record(r: RecordSpec, config: Config)
    ensures
        match_spec(r, config) matches Some(m) ==> m.record == r,
{
}

/// A fuzzy match is kept only with a score of at least `min_score`; it reports at most one
/// byte range per matched position, each a character's range within the prompt.
pub proof fn fuzzy_match_respects_min_score(
    r: RecordSpec,
    min_score: i64,
    outcome: Option<(i64, Seq<usize>)>,
)
    ensures
        fuzzy_match_spec(r, min_score, outcome) is Some ==> outcome is Some,
        fuzzy_match_spec(r, min_score, outcome) matches Some(m) ==> (outcome matches Some(
            (score, idx),
        ) ==> {
            &&& m.score == Some(score)
            &&& score >= min_score
            &&& m.match_ranges.len() <= idx.len()
            &&& forall|k: int|
                0 <= k < m.match_ranges.len() ==> is_char_range(r.prompt, #[trigger] m.match_ranges[k])
        }),
{
    if let Some((score, idx)) = outcome {
        lemma_index_ranges(r.prompt, idx);
    }
}

proof fn lemma_index_ranges(p: Seq<char>, idx: Seq<usize>)
    ensures
        index_ranges(p, idx).len() <= idx.len(),
        forall|k: int|
            0 <= k < index_ranges(p, idx).len() ==> is_char_range(p, #[trigger] index_ranges(p, idx)[k]),
    decreases idx.len(),
{
    if idx.len() > 0 {
        lemma_index_ranges(p, idx.drop_last());
        let rest = index_ranges(p, idx.drop_last());
        let c = idx.last() as int;
        if c < p.len() {
            assert forall|k: int| 0 <= k < index_ranges(p, idx).len() implies is_char_range(
                p,
                #[trigger] index_ranges(p, idx)[k],
            ) by {
                if k < rest.len() {
                    assert(index_ranges(p, idx)[k] == rest[k]);
                } else {
                    assert(index_ranges(p, idx)[k] == char_range(p, c));
                }
            }
        }
    }
}

/// With a pattern that does not compile, regex matching matches no record.
pub proof fn invalid_regex_matches_nothing(r: RecordSpec, q: Seq<char>)
    requires
        !regex_valid(q),
    ensures
        regex_outcome(r, q) is None,
{
}

/// A score is reported in fuzzy mode only: exact and regex matches carry none.
pub proof fn score_only_in_fuzzy_mode(r: RecordSpec, config: Config)
    ensures
        match_spec(r, config) matches Some(m) ==> (m.score is Some <==> config.match_mode
            == MatchMode::Fuzzy),
{
}

/// Whether a match happens, and the score and ranges it reports, depend on the prompt and the
/// configuration alone: the path, generator and metadata of the record play no part.
pub proof fn matching_reads_only_the_prompt(r1: RecordSpec, r2: RecordSpec, config: Config)
    requires
        r1.prompt == r2.prompt,
    ensures
        match_spec(r1, config) is Some <==> match_spec(r2, config) is Some,
        match_spec(r1, config) matches Some(m1) ==> (match_spec(r2, config) matches Some(m2)
            ==> m1.score == m2.score && m1.match_ranges == m2.match_ranges),
{
}

} // verus!
