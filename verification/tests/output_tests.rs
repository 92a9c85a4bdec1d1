use ips::output::console::{
    ceil_char_boundary, compute_display_window, console_entry, floor_char_boundary,
    highlight_segments, ranges_fit, sort_ranges, structured_lines, Segment,
};
use ips::output::json::JsonRecord;
use ips::output::csv::{csv_header, csv_row};
use ips::output::json::json_record;
use ips::output::{console, csv, json, output_results, OutputPlan};
use ips::text::{i64_to_decimal, ranges_ordered};
use ips::types::{
    Config, Generator, LoraInfo, MatchMode, MatchResult, OutputFormat, PromptDetails, PromptRecord,
};

fn config(full: bool) -> Config {
    Config {
        query: "q".to_string(),
        path: ".".to_string(),
        format: OutputFormat::Console,
        match_mode: MatchMode::Exact,
        min_score: 50,
        full,
        structured: false,
        depth: None,
        no_recursive: false,
        threads: None,
        verbose: false,
        no_color: true,
        path_only: false,
    }
}

fn seg(s: &Segment) -> (String, bool) {
    (s.text.clone(), s.highlighted)
}

fn detailed_result(score: Option<i64>) -> MatchResult {
    let details = PromptDetails {
        model: Some("base.safetensors".to_string()),
        loras: vec![LoraInfo { name: "style".to_string(), weight: "0.7".to_string() }],
        positive_prompt: Some("a cat, \"quoted\"".to_string()),
        negative_prompt: None,
    };
    MatchResult {
        record: PromptRecord::with_details(
            "dir/cat.png".to_string(),
            "a cat".to_string(),
            Generator::ComfyUI,
            "prompt",
            details,
        ),
        score,
        match_ranges: vec![(2, 5)],
    }
}

#[test]
fn short_prompt_is_shown_whole() {
    let (text, ranges, pre, post) = compute_display_window("a cat", &[(2, 5)], &config(false));
    assert_eq!(text, "a cat");
    assert_eq!(ranges, vec![(2, 5)]);
    assert!(!pre && !post);
}

#[test]
fn long_prompt_is_cut_around_first_match() {
    let prompt = format!("{}cyberpunk{}", "a".repeat(300), "b".repeat(300));
    let (text, ranges, pre, post) = compute_display_window(&prompt, &[(300, 309)], &config(false));
    assert_eq!(text, prompt[220..460].to_string());
    assert_eq!(ranges, vec![(80, 89)]);
    assert!(pre && post);
    let (full_text, full_ranges, pre2, post2) =
        compute_display_window(&prompt, &[(300, 309)], &config(true));
    assert_eq!(full_text, prompt);
    assert_eq!(full_ranges, vec![(300, 309)]);
    assert!(!pre2 && !post2);
}

#[test]
fn window_cuts_on_character_boundaries() {
    let prompt = format!("{}acat", "é".repeat(600));
    let (text, ranges, pre, post) = compute_display_window(&prompt, &[(1201, 1204)], &config(false));
    assert_eq!(text, prompt[1042..1204].to_string());
    assert_eq!(ranges, vec![(159, 162)]);
    assert!(pre);
    assert!(!post);
}

#[test]
fn window_length_counts_characters() {
    let prompt = "杰".repeat(300);
    let (text, ranges, pre, post) = compute_display_window(&prompt, &[(0, 3)], &config(false));
    assert_eq!(text, prompt);
    assert_eq!(ranges, vec![(0, 3)]);
    assert!(!pre && !post);
}

#[test]
fn window_accepts_reversed_ranges() {
    let prompt = "a".repeat(600);
    let (text, ranges, pre, post) = compute_display_window(&prompt, &[(300, 250), (10, 5)], &config(false));
    assert_eq!(text.len(), 240);
    assert_eq!(ranges, vec![(80, 30)]);
    assert!(pre && post);
}

#[test]
fn window_drops_ranges_outside_it() {
    let prompt = format!("{}x{}y", "a".repeat(300), "b".repeat(300));
    let (_, ranges, _, _) = compute_display_window(&prompt, &[(300, 301), (601, 602)], &config(false));
    assert_eq!(ranges, vec![(80, 81)]);
}

#[test]
fn char_boundary_rounding() {
    assert_eq!(floor_char_boundary("aé", 2), 1);
    assert_eq!(ceil_char_boundary("aé", 2), 3);
    assert_eq!(floor_char_boundary("aé", 1), 1);
    assert_eq!(floor_char_boundary("aé", 100), 3);
    assert_eq!(ceil_char_boundary("aé", 100), 3);
    assert_eq!(ceil_char_boundary("", 0), 0);
}

#[test]
fn highlight_in_order_of_start() {
    let segs = highlight_segments("a cat and a dog", &[(12, 15), (2, 5)]);
    let got: Vec<(String, bool)> = segs.iter().map(seg).collect();
    assert_eq!(
        got,
        vec![
            ("a ".to_string(), false),
            ("cat".to_string(), true),
            (" and a ".to_string(), false),
            ("dog".to_string(), true),
        ]
    );
}

#[test]
fn highlight_without_ranges_is_plain() {
    let segs = highlight_segments("plain", &[]);
    let got: Vec<(String, bool)> = segs.iter().map(seg).collect();
    assert_eq!(got, vec![("plain".to_string(), false)]);
}

#[test]
fn highlight_clamps_and_repeats_overlaps() {
    let segs = highlight_segments("abcd", &[(0, 3), (1, 2)]);
    let got: Vec<(String, bool)> = segs.iter().map(seg).collect();
    assert_eq!(
        got,
        vec![("abc".to_string(), true), ("b".to_string(), true), ("cd".to_string(), false)]
    );
    let segs2 = highlight_segments("abc", &[(1, 10)]);
    let got2: Vec<(String, bool)> = segs2.iter().map(seg).collect();
    assert_eq!(got2, vec![("a".to_string(), false), ("bc".to_string(), true)]);
}

#[test]
fn range_checks() {
    assert!(!ranges_fit("aé", &[(2, 3)]));
    assert!(ranges_fit("aé", &[(1, 3)]));
    assert!(ranges_fit("aé", &[(1, 50)]));
    assert!(ranges_ordered(&[(1, 2), (3, 3)]));
    assert!(!ranges_ordered(&[(2, 1)]));
}

#[test]
fn stable_sort_by_start() {
    assert_eq!(sort_ranges(&[(5, 6), (1, 9), (5, 5), (0, 1)]), vec![(0, 1), (1, 9), (5, 6), (5, 5)]);
}

#[test]
fn console_entry_of_a_match() {
    let r = detailed_result(None);
    let e = console_entry(&r, &config(false));
    assert_eq!(e.path, "dir/cat.png");
    assert_eq!(e.generator, "comfyui");
    assert!(!e.prefix_dots && !e.suffix_dots);
    let got: Vec<(String, bool)> = e.segments.iter().map(seg).collect();
    assert_eq!(got, vec![("a ".to_string(), false), ("cat".to_string(), true)]);
}

#[test]
fn json_and_csv_records() {
    let r = detailed_result(Some(-5));
    let j = json_record(&r);
    assert_eq!(j.path, "dir/cat.png");
    assert_eq!(j.generator, "comfyui");
    assert_eq!(j.score, Some(-5));
    assert_eq!(j.model.as_deref(), Some("base.safetensors"));
    assert_eq!(j.loras.len(), 1);
    assert_eq!(j.negative_prompt, None);
    assert_eq!(
        csv_header(),
        vec!["path", "generator", "positive_prompt", "negative_prompt", "score"]
    );
    assert_eq!(csv_row(&r), vec!["dir/cat.png", "comfyui", "a cat, \"quoted\"", "", "-5"]);
    let unscored = detailed_result(None);
    assert_eq!(csv_row(&unscored)[4], "");
}

#[test]
fn signed_decimal_text() {
    assert_eq!(i64_to_decimal(0), "0");
    assert_eq!(i64_to_decimal(1234), "1234");
    assert_eq!(i64_to_decimal(-7), "-7");
    assert_eq!(i64_to_decimal(i64::MIN), "-9223372036854775808");
}

#[test]
fn structured_console_lines() {
    let r = detailed_result(None);
    let lines = structured_lines(&r.record.to_structured());
    assert_eq!(
        lines,
        vec!["Model: base.safetensors", "LoRAs: lora:style:0.7", "Positive: a cat, \"quoted\""]
    );
}

#[test]
fn output_plan_follows_format() {
    let results = vec![detailed_result(Some(3))];
    let mut c = config(false);
    match output_results(&results, &c) {
        OutputPlan::Console(entries) => assert_eq!(entries.len(), 1),
        other => panic!("unexpected plan {:?}", other),
    }
    c.path_only = true;
    match output_results(&results, &c) {
        OutputPlan::Paths(paths) => assert_eq!(paths, vec!["dir/cat.png".to_string()]),
        other => panic!("unexpected plan {:?}", other),
    }
    c.path_only = false;
    c.structured = true;
    match output_results(&results, &c) {
        OutputPlan::Structured(entries) => {
            assert_eq!(entries[0].fields[0], "Model: base.safetensors");
            assert_eq!(entries[0].entry.generator, "comfyui");
        },
        other => panic!("unexpected plan {:?}", other),
    }
    c.structured = false;
    c.full = true;
    assert!(matches!(output_results(&results, &c), OutputPlan::Structured(_)));
    c.format = OutputFormat::Json;
    match output_results(&results, &c) {
        OutputPlan::Json(records) => assert_eq!(records[0].score, Some(3)),
        other => panic!("unexpected plan {:?}", other),
    }
    c.format = OutputFormat::Csv;
    match output_results(&results, &c) {
        OutputPlan::Csv(rows) => {
            assert_eq!(rows.len(), 2);
            assert_eq!(rows[1][4], "3");
        },
        other => panic!("unexpected plan {:?}", other),
    }
}

#[test]
fn per_format_outputs() {
    let results = vec![detailed_result(None), detailed_result(Some(7))];
    let entries = console::output(&results, &config(false));
    assert_eq!(entries.len(), 2);
    assert_eq!(entries[1].generator, "comfyui");
    let structured = console::output_structured(&results, &config(false));
    assert_eq!(structured.len(), 2);
    assert_eq!(structured[0].entry.path, "dir/cat.png");
    assert_eq!(structured[1].fields.len(), 3);
    let records = json::output(&results);
    assert_eq!(records.len(), 2);
    assert_eq!(records[0].score, None);
    assert_eq!(records[1].score, Some(7));
    let rows = csv::output(&results);
    assert_eq!(rows.len(), 3);
    assert_eq!(rows[0][0], "path");
    assert_eq!(rows[2][4], "7");
    assert!(csv::output(&[]).len() == 1);
}

#[test]
fn highlighting_spells_the_text_once() {
    let text = "a cat and a dog";
    let segs = highlight_segments(text, &[(12, 15), (2, 5)]);
    let joined: String = segs.iter().map(|s| s.text.as_str()).collect();
    assert_eq!(joined, text);
}

#[test]
fn json_leaves_out_empty_fields() {
    let details = PromptDetails {
        model: Some(String::new()),
        loras: vec![],
        positive_prompt: Some("".to_string()),
        negative_prompt: Some("blurry".to_string()),
    };
    let r = MatchResult {
        record: PromptRecord::with_details("a.png".to_string(), "x".to_string(), Generator::A1111, "parameters", details),
        score: None,
        match_ranges: vec![],
    };
    let j: JsonRecord = json_record(&r);
    assert_eq!(j.model, None);
    assert_eq!(j.positive_prompt, None);
    assert_eq!(j.negative_prompt.as_deref(), Some("blurry"));
}
