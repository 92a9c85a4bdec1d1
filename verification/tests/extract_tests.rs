use ips::extract::a1111::{extract_details, extract_model};
use ips::extract::exif::extract_user_comment;
use ips::extract::jpeg::{detect_xmp_generator, extract_xmp_description};
use ips::extract::png::{parse_itxt_chunk, parse_text_chunk, process_keyword, read_text_chunks};
use ips::extract::{
    extract_model_from_settings, extract_prompt, find_line_marker, image_format, parse_loras,
    parse_prompt_and_model, parse_prompt_components, ImageFormat,
};
use ips::types::LoraInfo;
use ips::extract::{jpeg, png, webp};
use ips::matcher::match_record;
use ips::types::{Config, Generator, MatchMode, OutputFormat, PromptRecord};

const PNG_SIGNATURE: &[u8; 8] = b"\x89PNG\r\n\x1a\n";

fn make_png_chunk(chunk_type: &[u8; 4], data: &[u8]) -> Vec<u8> {
    let length = (data.len() as u32).to_be_bytes();
    let mut chunk = Vec::new();
    chunk.extend_from_slice(&length);
    chunk.extend_from_slice(chunk_type);
    chunk.extend_from_slice(data);
    chunk.extend_from_slice(&[0u8; 4]);
    chunk
}

fn make_png_with_chunks(chunks: &[Vec<u8>]) -> Vec<u8> {
    let mut png = Vec::new();
    png.extend_from_slice(PNG_SIGNATURE);
    for chunk in chunks {
        png.extend_from_slice(chunk);
    }
    png.extend_from_slice(&make_png_chunk(b"IEND", &[]));
    png
}

fn png_records(path: &str, bytes: &[u8]) -> Vec<PromptRecord> {
    png::extract(path, bytes)
}

fn config(query: &str, mode: MatchMode) -> Config {
    Config {
        query: query.to_string(),
        path: ".".to_string(),
        format: OutputFormat::Console,
        match_mode: mode,
        min_score: 50,
        full: false,
        structured: false,
        depth: None,
        no_recursive: false,
        threads: None,
        verbose: false,
        no_color: true,
        path_only: false,
    }
}

fn build_png_with_text(keyword: &str, value: &str) -> Vec<u8> {
    let mut text_data = keyword.as_bytes().to_vec();
    text_data.push(0);
    text_data.extend_from_slice(value.as_bytes());
    let ihdr_data = [0, 0, 0, 1, 0, 0, 0, 1, 8, 2, 0, 0, 0];
    let mut png = Vec::new();
    png.extend_from_slice(PNG_SIGNATURE);
    png.extend_from_slice(&make_png_chunk(b"IHDR", &ihdr_data));
    png.extend_from_slice(&make_png_chunk(b"tEXt", &text_data));
    png.extend_from_slice(&make_png_chunk(b"IDAT", b"\x00"));
    png.extend_from_slice(&make_png_chunk(b"IEND", b""));
    png
}

fn build_jpeg_with_com(comment: &str) -> Vec<u8> {
    let mut jpeg = Vec::new();
    jpeg.extend_from_slice(&[0xFF, 0xD8]);
    jpeg.extend_from_slice(&[0xFF, 0xFE]);
    let body = comment.as_bytes();
    let len = (body.len() as u16 + 2).to_be_bytes();
    jpeg.extend_from_slice(&len);
    jpeg.extend_from_slice(body);
    jpeg.extend_from_slice(&[0xFF, 0xD9]);
    jpeg
}

fn make_webp_with_chunk(id: &[u8; 4], data: &[u8]) -> Vec<u8> {
    let chunk_size = data.len() as u32;
    let padded_size = (data.len() + (data.len() & 1)) as u32;
    let riff_size = (4 + 8 + padded_size).to_le_bytes();
    let mut webp = Vec::new();
    webp.extend_from_slice(b"RIFF");
    webp.extend_from_slice(&riff_size);
    webp.extend_from_slice(b"WEBP");
    webp.extend_from_slice(id);
    webp.extend_from_slice(&chunk_size.to_le_bytes());
    webp.extend_from_slice(data);
    if data.len() % 2 != 0 {
        webp.push(0);
    }
    webp
}

/// A little-endian EXIF block whose IFD0 holds one `UserComment` entry.
fn exif_with_comment(comment: &[u8]) -> Vec<u8> {
    let mut d = b"Exif\0\0".to_vec();
    d.extend_from_slice(b"II");
    d.extend_from_slice(&42u16.to_le_bytes());
    d.extend_from_slice(&8u32.to_le_bytes());
    d.extend_from_slice(&1u16.to_le_bytes());
    d.extend_from_slice(&0x9286u16.to_le_bytes());
    d.extend_from_slice(&7u16.to_le_bytes());
    d.extend_from_slice(&(comment.len() as u32).to_le_bytes());
    d.extend_from_slice(&26u32.to_le_bytes());
    d.extend_from_slice(&0u32.to_le_bytes());
    d.extend_from_slice(comment);
    d
}

const XMP: &str = r#"<rdf:RDF>
  <rdf:Description>
    <dc:description>
      <rdf:Alt>
        <rdf:li xml:lang="x-default">sunset landscape, watercolor</rdf:li>
      </rdf:Alt>
    </dc:description>
  </rdf:Description>
</rdf:RDF>"#;

#[test]
fn extracts_a1111_model_from_parameters() {
    let text = "masterpiece\nNegative prompt: blurry\nSteps: 30, Model: base.safetensors, Seed: 1";
    let mut chunk_data = b"parameters\x00".to_vec();
    chunk_data.extend_from_slice(text.as_bytes());
    let png_bytes = make_png_with_chunks(&[make_png_chunk(b"tEXt", &chunk_data)]);
    let records = png_records("test.png", &png_bytes);
    assert_eq!(records[0].details_or_default().model.as_deref(), Some("base.safetensors"));
}

#[test]
fn falls_back_to_a1111_when_prompt_json_invalid() {
    let text = "masterpiece\nNegative prompt: blurry\nSteps: 30, Model: base.safetensors, Seed: 1";
    let mut data = b"prompt\x00".to_vec();
    data.extend_from_slice(text.as_bytes());
    let png_bytes = make_png_with_chunks(&[make_png_chunk(b"tEXt", &data)]);
    let records = png_records("test.png", &png_bytes);
    assert_eq!(records[0].generator, Generator::Unknown);
    assert_eq!(records[0].details_or_default().model.as_deref(), Some("base.safetensors"));
}

#[test]
fn extracts_xmp_from_webp() {
    let webp_bytes = make_webp_with_chunk(b"XMP ", XMP.as_bytes());
    let records = webp::extract("test.webp", &webp_bytes);
    assert_eq!(records.len(), 1);
    assert_eq!(records[0].prompt, "sunset landscape, watercolor");
}

#[test]
fn end_to_end_a1111_png_exact() {
    let bytes = build_png_with_text("parameters", "masterpiece, 1girl, cyberpunk city");
    let records = png_records("a1111.png", &bytes);
    assert_eq!(records.len(), 1);
    assert_eq!(records[0].generator, Generator::A1111);
    let result = match_record(&records[0], &config("cyberpunk", MatchMode::Exact));
    assert!(result.is_some());
}

#[test]
fn end_to_end_jpeg_com_no_match() {
    let bytes = build_jpeg_with_com("peaceful forest landscape");
    let records = jpeg::extract("img.jpg", &bytes);
    let results: Vec<_> =
        records.iter().filter_map(|r| match_record(r, &config("cyberpunk", MatchMode::Exact))).collect();
    assert!(results.is_empty());
    assert_eq!(records.len(), 1);
    assert_eq!(records[0].generator, Generator::A1111);
    assert_eq!(records[0].metadata_key, "COM");
}

#[test]
fn png_text_chunks_stop_at_image_data() {
    let bytes = build_png_with_text("parameters", "a cat");
    let text = read_text_chunks(&bytes).unwrap();
    assert_eq!(text.chunks, vec![("parameters".to_string(), "a cat".to_string())]);
    assert!(!text.truncated);
    assert!(read_text_chunks(b"not a png").is_none());
}

#[test]
fn png_truncated_chunk_is_reported() {
    let mut bytes = PNG_SIGNATURE.to_vec();
    bytes.extend_from_slice(&100u32.to_be_bytes());
    bytes.extend_from_slice(b"tEXt");
    bytes.extend_from_slice(b"parameters\0short");
    let text = read_text_chunks(&bytes).unwrap();
    assert!(text.chunks.is_empty());
    assert!(text.truncated);
}

#[test]
fn png_keyword_routing() {
    let mut records: Vec<PromptRecord> = Vec::new();
    process_keyword("p.png", "Description", "a fox", &mut records);
    process_keyword("p.png", "Comment", "  ", &mut records);
    process_keyword("p.png", "Software", "x", &mut records);
    process_keyword("p.png", "Comment", "plain words", &mut records);
    process_keyword("p.png", "Comment", "{\"prompt\": \"a json cat\"}", &mut records);
    process_keyword("p.png", "workflow", "{\"1\": {}}", &mut records);
    assert_eq!(records.len(), 3);
    assert_eq!(records[0].generator, Generator::NovelAI);
    assert_eq!(records[0].metadata_key, "Description");
    assert_eq!(records[1].generator, Generator::Unknown);
    assert_eq!(records[1].prompt, "plain words");
    assert_eq!(records[1].path, "p.png");
    assert_eq!(records[2].generator, Generator::NovelAI);
    assert_eq!(records[2].prompt, "a json cat");
}

#[test]
fn png_prompt_chunk_with_workflow_json() {
    let workflow = r#"{"3": {"class_type": "CLIPTextEncode", "inputs": {"text": "a comfy cat"}}}"#;
    let mut records: Vec<PromptRecord> = Vec::new();
    process_keyword("w.png", "prompt", workflow, &mut records);
    assert_eq!(records.len(), 1);
    assert_eq!(records[0].generator, Generator::ComfyUI);
    assert_eq!(records[0].prompt, "a comfy cat");
    let mut none: Vec<PromptRecord> = Vec::new();
    process_keyword("w.png", "prompt", "{\"1\": {\"inputs\": {}}}", &mut none);
    assert!(none.is_empty());
}

#[test]
fn records_come_in_metadata_key_order() {
    let bytes = make_png_with_chunks(&[
        make_png_chunk(b"tEXt", b"prompt\0a cat"),
        make_png_chunk(b"tEXt", b"parameters\0a dog"),
    ]);
    let records = extract_prompt("x.png", "PNG", &bytes);
    assert_eq!(records.len(), 2);
    assert_eq!(records[0].metadata_key, "parameters");
    assert_eq!(records[1].metadata_key, "prompt");
    assert!(extract_prompt("x.gif", "gif", &bytes).is_empty());
    assert!(extract_prompt("x", "", &bytes).is_empty());
}

#[test]
fn text_and_itxt_chunk_parsing() {
    assert_eq!(
        parse_text_chunk(b"parameters\0a cat"),
        Some(("parameters".to_string(), "a cat".to_string()))
    );
    assert_eq!(parse_text_chunk(b"no separator"), None);
    assert_eq!(
        parse_itxt_chunk(b"prompt\0\0\0en\0\0hello"),
        Some(("prompt".to_string(), "hello".to_string()))
    );
    assert_eq!(parse_itxt_chunk(b"prompt\0"), None);
}

#[test]
fn jpeg_xmp_segment_with_invokeai_namespace() {
    let xmp = format!("<x><invokeai:meta/>{}</x>", XMP);
    let mut jpeg = vec![0xFF, 0xD8, 0xFF, 0xE1];
    jpeg.extend_from_slice(&((xmp.len() + 2) as u16).to_be_bytes());
    jpeg.extend_from_slice(xmp.as_bytes());
    jpeg.extend_from_slice(&[0xFF, 0xDA, 0x00, 0x02]);
    let records = jpeg::extract("x.jpg", &jpeg);
    assert_eq!(records.len(), 1);
    assert_eq!(records[0].generator, Generator::InvokeAI);
    assert_eq!(records[0].metadata_key, "XMP");
    assert_eq!(records[0].prompt, "sunset landscape, watercolor");
}

#[test]
fn jpeg_exif_user_comment() {
    let exif = exif_with_comment(b"ASCII\0\0\0a cat, Steps: 20");
    let mut jpeg = vec![0xFF, 0xD8, 0xFF, 0xE1];
    jpeg.extend_from_slice(&((exif.len() + 2) as u16).to_be_bytes());
    jpeg.extend_from_slice(&exif);
    let records = jpeg::extract("x.jpg", &jpeg);
    assert_eq!(records.len(), 1);
    assert_eq!(records[0].metadata_key, "UserComment");
    assert_eq!(records[0].generator, Generator::Unknown);
    assert_eq!(records[0].prompt, "a cat, Steps: 20");
}

#[test]
fn jpeg_without_start_marker_yields_nothing() {
    assert!(jpeg::extract("x.jpg", &[0x00, 0x01, 0xFF, 0xFE]).is_empty());
}

#[test]
fn exif_unicode_user_comment() {
    let mut comment = b"UNICODE\0".to_vec();
    for u in "猫 cat".encode_utf16() {
        comment.extend_from_slice(&u.to_le_bytes());
    }
    let exif = exif_with_comment(&comment);
    assert_eq!(extract_user_comment(&exif), Some("猫 cat".to_string()));
    assert_eq!(extract_user_comment(b"Exif\0\0XX"), None);
}

#[test]
fn webp_exif_chunk_and_bad_header() {
    let exif = exif_with_comment(b"ASCII\0\0\0a dog");
    let bytes = make_webp_with_chunk(b"EXIF", &exif);
    let records = webp::extract("d.webp", &bytes);
    assert_eq!(records.len(), 1);
    assert_eq!(records[0].prompt, "a dog");
    assert!(webp::extract("d.webp", b"RIFF\0\0\0\0WEBX").is_empty());
}

#[test]
fn xmp_description_and_generator() {
    assert_eq!(
        extract_xmp_description(XMP.as_bytes()),
        Some("sunset landscape, watercolor".to_string())
    );
    assert_eq!(extract_xmp_description(b"<dc:description></dc:description>"), None);
    assert_eq!(detect_xmp_generator(XMP.as_bytes()), Generator::Unknown);
    assert_eq!(detect_xmp_generator(b"invokeai:positive"), Generator::InvokeAI);
}

#[test]
fn a1111_text_parsing() {
    let text = "masterpiece <lora:style:0.7>\nNegative prompt: blurry\nSteps: 30, Model: base, Seed: 1";
    let (positive, negative, model) = parse_prompt_and_model(text);
    assert_eq!(positive.as_deref(), Some("masterpiece <lora:style:0.7>"));
    assert_eq!(negative.as_deref(), Some("blurry"));
    assert_eq!(model.as_deref(), Some("base"));
    let d = extract_details(text);
    assert_eq!(d.model.as_deref(), Some("base"));
    assert_eq!(d.loras.len(), 1);
    assert_eq!(d.loras[0].name, "style");
    assert_eq!(d.loras[0].weight, "0.7");
    assert_eq!(extract_model("Steps: 4, Model: \"my model\", Seed: 2"), Some("my model".to_string()));
}

#[test]
fn settings_only_text_has_no_fields() {
    let d = extract_details("Steps: 4, Sampler: Euler");
    assert_eq!(d.positive_prompt, None);
    assert_eq!(d.negative_prompt, None);
    assert!(d.loras.is_empty());
}

#[test]
fn lora_tags() {
    let loras = parse_loras("<lora:a:0.5> <lora:a:0.9> <lora:b:x> <lora::1> <lora:c:1e-3> <lora:d:2");
    let names: Vec<&str> = loras.iter().map(|l| l.name.as_str()).collect();
    assert_eq!(names, vec!["a", "c"]);
    assert_eq!(loras[1].weight, "1e-3");
}

#[test]
fn line_markers_and_settings() {
    let t: Vec<char> = "abc\nSteps: 1".chars().collect();
    let m: Vec<char> = "Steps:".chars().collect();
    assert_eq!(find_line_marker(&t, &m), Some(4));
    let t2: Vec<char> = "no marker here".chars().collect();
    assert_eq!(find_line_marker(&t2, &m), None);
    assert_eq!(extract_model_from_settings("Model: base,,\", x"), Some("base".to_string()));
    assert_eq!(extract_model_from_settings("Model: base"), Some("base".to_string()));
    assert_eq!(
        extract_model_from_settings("Steps: 30, Model hash: abc123, Model: RealModel, Seed: 1"),
        Some("RealModel".to_string())
    );
    assert_eq!(extract_model_from_settings("Steps: 4"), None);
}

#[test]
fn prompt_components_from_a1111_text() {
    let (model, loras, positive, negative) =
        parse_prompt_components("a cat <lora:fur:0.8>\nNegative prompt: dog\nSteps: 20, Model: m");
    assert_eq!(model.as_deref(), Some("m"));
    assert_eq!(loras.len(), 1);
    assert_eq!(positive.as_deref(), Some("a cat <lora:fur:0.8>"));
    assert_eq!(negative.as_deref(), Some("dog"));
}

#[test]
fn image_formats_by_extension() {
    assert_eq!(image_format("PNG"), Some(ImageFormat::Png));
    assert_eq!(image_format("jpeg"), Some(ImageFormat::Jpeg));
    assert_eq!(image_format("Jpg"), Some(ImageFormat::Jpeg));
    assert_eq!(image_format("webp"), Some(ImageFormat::Webp));
    assert_eq!(image_format("gif"), None);
}

#[test]
fn settings_line_model() {
    let (p, n, m) = parse_prompt_and_model(
        "masterpiece\nNegative prompt: blurry\nSteps: 30, Model: base.safetensors, Seed: 1",
    );
    assert_eq!(p.as_deref(), Some("masterpiece"));
    assert_eq!(n.as_deref(), Some("blurry"));
    assert_eq!(m.as_deref(), Some("base.safetensors"));
    let (_, n2, m2) = parse_prompt_and_model("a cat\nSteps: 20, Model: cats");
    assert_eq!(n2, None);
    assert_eq!(m2.as_deref(), Some("cats"));
}

#[test]
fn lora_forms() {
    assert_eq!(
        parse_loras("(style:0.8)"),
        vec![LoraInfo { name: "style".into(), weight: "0.8".into() }]
    );
    assert_eq!(
        parse_loras("detail:(0.5), <lora:x:1>"),
        vec![
            LoraInfo { name: "x".into(), weight: "1".into() },
            LoraInfo { name: "detail".into(), weight: "0.5".into() },
        ]
    );
    assert!(parse_loras("(plain words) word:(x)").is_empty());
}

#[test]
fn prompt_components_take_loras_from_whole_text() {
    let (model, loras, positive, negative) =
        parse_prompt_components("a cat <lora:x:0.5>\nNegative prompt: blurry <lora:y:0.7>\nSteps: 20");
    assert_eq!(model, None);
    assert_eq!(
        loras,
        vec![
            LoraInfo { name: "x".into(), weight: "0.5".into() },
            LoraInfo { name: "y".into(), weight: "0.7".into() },
        ]
    );
    assert_eq!(positive.as_deref(), Some("a cat <lora:x:0.5>"));
    assert_eq!(negative.as_deref(), Some("blurry <lora:y:0.7>"));
    let (m, _, p, _) = parse_prompt_components(
        r#"{"1": {"class_type": "CheckpointLoaderSimple", "inputs": {"ckpt_name": "base"}}}"#,
    );
    assert_eq!(m.as_deref(), Some("base"));
    assert_eq!(p, None);
}
