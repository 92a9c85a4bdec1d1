use ips::matcher::{
    chars_eq_ignore_case, match_exact, match_fuzzy, match_record, match_records, match_regex,
    match_regex_with, CompiledRegex,
};
use ips::types::{Config, Generator, MatchMode, OutputFormat, PromptDetails, PromptRecord};

fn make_record(prompt: &str) -> PromptRecord {
    PromptRecord::with_details(
        "test.png".to_string(),
        prompt.to_string(),
        Generator::Unknown,
        "parameters",
        PromptDetails::default(),
    )
}

fn config(query: &str, mode: MatchMode) -> Config {
    Config {
        query: query.to_string(),
        path: ".".to_string(),
        format: OutputFormat::Console,
        match_mode: mode,
        min_score: 50,
        full: false,
        structured: false,
        depth: None,
        no_recursive: false,
        threads: None,
        verbose: false,
        no_color: true,
        path_only: false,
    }
}

#[test]
fn exact_match_found() {
    let record = make_record("masterpiece, 1girl, cyberpunk");
    let result = match_exact(&record, &config("cyberpunk", MatchMode::Exact));
    assert!(result.is_some());
    let r = result.unwrap();
    assert_eq!(r.match_ranges, vec![(20, 29)]);
}

#[test]
fn exact_match_case_insensitive() {
    let record = make_record("Masterpiece, 1girl");
    let result = match_exact(&record, &config("masterpiece", MatchMode::Exact));
    assert!(result.is_some());
}

#[test]
fn exact_match_unicode() {
    let record = make_record("杰作 masterpiece 测试");
    let result = match_exact(&record, &config("杰作", MatchMode::Exact));
    assert!(result.is_some());
    let r = result.unwrap();
    let matched = &record.prompt[r.match_ranges[0].0..r.match_ranges[0].1];
    assert_eq!(matched, "杰作");
}

#[test]
fn exact_match_not_found() {
    let record = make_record("landscape, mountains");
    let result = match_exact(&record, &config("cyberpunk", MatchMode::Exact));
    assert!(result.is_none());
}

#[test]
fn fuzzy_match_found() {
    let record = make_record("a beautiful cyberpunk cityscape");
    let result = match_fuzzy(&record, &config("cyber", MatchMode::Fuzzy));
    assert!(result.is_some());
}

#[test]
fn regex_match_found() {
    let record = make_record("1girl, masterpiece, detailed background");
    let result = match_regex(&record, &config(r"\d+girl", MatchMode::Regex));
    assert!(result.is_some());
    let r = result.unwrap();
    assert_eq!(r.match_ranges[0], (0, 5));
}

#[test]
fn regex_no_match() {
    let record = make_record("landscape, trees");
    let result = match_regex(&record, &config(r"\d+girl", MatchMode::Regex));
    assert!(result.is_none());
}

#[test]
fn fuzzy_matching_finds_approximate() {
    let record = PromptRecord {
        path: "test.png".to_string(),
        prompt: "masterpiece, 1girl, detailed background, cyberpunk".to_string(),
        generator: Generator::A1111,
        metadata_key: "parameters".to_string(),
        details: None,
    };
    let mut c = config("cybrpnk", MatchMode::Fuzzy);
    c.min_score = 10;
    let result = match_record(&record, &c);
    assert!(result.is_some());
    assert!(result.unwrap().score.is_some());
}

#[test]
fn regex_matching() {
    let record = PromptRecord {
        path: "test.png".to_string(),
        prompt: "1girl, masterpiece, 4k resolution".to_string(),
        generator: Generator::A1111,
        metadata_key: "parameters".to_string(),
        details: None,
    };
    let c = config(r"\dk\s+resolution", MatchMode::Regex);
    let result = match_record(&record, &c);
    assert!(result.is_some());
}

#[test]
fn exact_match_reports_first_occurrence_in_bytes() {
    let record = make_record("cat dog cat");
    let r = match_exact(&record, &config("CAT", MatchMode::Exact)).unwrap();
    assert_eq!(r.match_ranges, vec![(0, 3)]);
    assert_eq!(r.score, None);
    assert_eq!(r.record.prompt, "cat dog cat");
}

#[test]
fn exact_match_counts_multibyte_characters() {
    let record = make_record("héllo Wörld");
    let r = match_exact(&record, &config("wÖrld", MatchMode::Exact)).unwrap();
    assert_eq!(r.match_ranges, vec![(7, 13)]);
    assert_eq!(&record.prompt[7..13], "Wörld");
}

#[test]
fn exact_match_empty_query_matches_nothing() {
    let record = make_record("anything");
    assert!(match_exact(&record, &config("", MatchMode::Exact)).is_none());
}

#[test]
fn exact_match_query_longer_than_prompt() {
    let record = make_record("cat");
    assert!(match_exact(&record, &config("cats", MatchMode::Exact)).is_none());
}

#[test]
fn chars_compare_ignoring_case() {
    assert!(chars_eq_ignore_case('A', 'a'));
    assert!(chars_eq_ignore_case('Ä', 'ä'));
    assert!(chars_eq_ignore_case('x', 'x'));
    assert!(!chars_eq_ignore_case('a', 'b'));
}

#[test]
fn fuzzy_below_min_score_is_dropped() {
    let record = make_record("a beautiful cyberpunk cityscape");
    let mut c = config("cyber", MatchMode::Fuzzy);
    c.min_score = i64::MAX;
    assert!(match_fuzzy(&record, &c).is_none());
}

#[test]
fn fuzzy_ranges_are_character_ranges() {
    let record = make_record("a beautiful cyberpunk cityscape");
    let r = match_fuzzy(&record, &config("cyber", MatchMode::Fuzzy)).unwrap();
    assert!(r.score.unwrap() >= 50);
    assert_eq!(r.match_ranges.len(), 5);
    for (s, e) in r.match_ranges.iter() {
        assert_eq!(e - s, 1);
    }
    assert_eq!(r.match_ranges[0], (12, 13));
}

#[test]
fn fuzzy_empty_query_scores_zero() {
    let record = make_record("anything");
    let mut c = config("", MatchMode::Fuzzy);
    c.min_score = 0;
    let r = match_fuzzy(&record, &c).unwrap();
    assert_eq!(r.score, Some(0));
    assert!(r.match_ranges.is_empty());
    c.min_score = 1;
    assert!(match_fuzzy(&record, &c).is_none());
}

#[test]
fn invalid_regex_matches_no_record() {
    let record = make_record("(anything)");
    assert!(CompiledRegex::new("(").is_err());
    assert!(match_regex(&record, &config("(", MatchMode::Regex)).is_none());
}

#[test]
fn compiled_regex_finds_byte_range() {
    let re = CompiledRegex::new("wör+ld").unwrap();
    let record = make_record("héllo wörld");
    let r = match_regex_with(&record, &re).unwrap();
    assert_eq!(r.match_ranges, vec![(7, 13)]);
    assert_eq!(re.find("nothing here"), None);
}

#[test]
fn match_record_follows_the_mode() {
    let record = make_record("Masterpiece");
    assert!(match_record(&record, &config("master", MatchMode::Exact)).is_some());
    assert!(match_record(&record, &config("^master", MatchMode::Regex)).is_none());
    assert!(match_record(&record, &config("^Master", MatchMode::Regex)).is_some());
    let fuzzy = match_record(&record, &config("mstr", MatchMode::Fuzzy));
    assert!(fuzzy.is_none() || fuzzy.unwrap().score.is_some());
}

#[test]
fn match_records_keeps_matches_in_order() {
    let records = vec![make_record("1girl"), make_record("landscape"), make_record("2girls")];
    let results = match_records(&records, &config(r"\dgirl", MatchMode::Regex));
    let prompts: Vec<&str> = results.iter().map(|r| r.record.prompt.as_str()).collect();
    assert_eq!(prompts, vec!["1girl", "2girls"]);
    assert!(match_records(&records, &config("(", MatchMode::Regex)).is_empty());
    let exact = match_records(&records, &config("GIRL", MatchMode::Exact));
    assert_eq!(exact.len(), 2);
    assert_eq!(exact[1].match_ranges, vec![(1, 5)]);
}

#[test]
fn configuration_rules() {
    assert_eq!(OutputFormat::from_name("json"), OutputFormat::Json);
    assert_eq!(OutputFormat::from_name("csv"), OutputFormat::Csv);
    assert_eq!(OutputFormat::from_name("JSON"), OutputFormat::Console);
    assert_eq!(MatchMode::from_flags(true, true), MatchMode::Regex);
    assert_eq!(MatchMode::from_flags(false, true), MatchMode::Fuzzy);
    assert_eq!(MatchMode::from_flags(false, false), MatchMode::Exact);
    let mut c = config("q", MatchMode::Exact);
    c.depth = Some(3);
    assert_eq!(c.max_depth(), Some(3));
    c.no_recursive = true;
    assert_eq!(c.max_depth(), Some(1));
}

#[test]
fn matching_reads_only_the_prompt() {
    let a = make_record("neon city at night");
    let b = PromptRecord {
        path: "elsewhere/other.jpg".to_string(),
        prompt: "neon city at night".to_string(),
        generator: Generator::NovelAI,
        metadata_key: "Comment".to_string(),
        details: None,
    };
    for mode in [MatchMode::Exact, MatchMode::Fuzzy, MatchMode::Regex] {
        let c = config("city", mode);
        let ra = match_record(&a, &c).unwrap();
        let rb = match_record(&b, &c).unwrap();
        assert_eq!(ra.score, rb.score);
        assert_eq!(ra.match_ranges, rb.match_ranges);
        assert_eq!(rb.record.path, "elsewhere/other.jpg");
        assert_eq!(ra.score.is_some(), mode == MatchMode::Fuzzy);
    }
}
