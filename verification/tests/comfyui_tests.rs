use ips::extract::comfyui::{
    extract_details_from_workflow, extract_from_workflow, extract_workflow, format_lora_weight,
    has_extractable_content, is_generation_model_node, is_sampler_node, is_text_encode_node,
    normalize_workflow, push_lora,
};
use ips::json::{insert_entry, JsonNumber, JsonValue};
use ips::types::{LoraInfo, PromptDetails};

fn s(x: &str) -> JsonValue {
    JsonValue::Str(x.to_string())
}

fn n(x: u64) -> JsonValue {
    JsonValue::unsigned(x)
}

fn f(text: &str) -> JsonValue {
    JsonValue::Number(JsonNumber { text: text.to_string(), unsigned: None })
}

fn arr(items: Vec<JsonValue>) -> JsonValue {
    JsonValue::Array(items)
}

/// An object whose entries are kept in key order, as a sorted map keeps them.
fn obj(entries: Vec<(&str, JsonValue)>) -> JsonValue {
    let mut es: Vec<(String, JsonValue)> = Vec::new();
    for (k, v) in entries {
        insert_entry(&mut es, k.to_string(), v);
    }
    JsonValue::Object(es)
}

fn node(class_type: &str, inputs: Vec<(&str, JsonValue)>) -> JsonValue {
    obj(vec![("class_type", s(class_type)), ("inputs", obj(inputs))])
}

#[test]
fn extracts_clip_text_encode() {
    let workflow = obj(vec![
        ("1", node("CLIPTextEncode", vec![("text", s("a beautiful sunset over the ocean"))])),
        ("2", node("CLIPTextEncode", vec![("text", s("ugly, blurry, low quality"))])),
    ]);
    let prompts = extract_from_workflow(&workflow);
    assert_eq!(prompts.len(), 2);
    assert!(prompts.contains(&"a beautiful sunset over the ocean".to_string()));
    assert!(prompts.contains(&"ugly, blurry, low quality".to_string()));
}

#[test]
fn extracts_sdxl_text_g_and_l() {
    let workflow = obj(vec![(
        "3",
        node(
            "CLIPTextEncodeSDXL",
            vec![("text_g", s("a detailed landscape")), ("text_l", s("soft lighting, 4k"))],
        ),
    )]);
    let prompts = extract_from_workflow(&workflow);
    assert_eq!(prompts.len(), 2);
}

#[test]
fn deduplicates_identical_prompts() {
    let workflow = obj(vec![
        ("1", node("CLIPTextEncode", vec![("text", s("same prompt"))])),
        ("2", node("CLIPTextEncode", vec![("text", s("same prompt"))])),
    ]);
    let prompts = extract_from_workflow(&workflow);
    assert_eq!(prompts.len(), 1);
}

#[test]
fn ignores_non_text_nodes() {
    let workflow = obj(vec![("1", node("KSampler", vec![("steps", n(20)), ("cfg", f("7.0"))]))]);
    let prompts = extract_from_workflow(&workflow);
    assert!(prompts.is_empty());
}

#[test]
fn extracts_qwen_prompt_field() {
    let workflow =
        obj(vec![("1", node("TextEncodeQwenImageEditPlus", vec![("prompt", s("edit prompt text"))]))]);
    let prompts = extract_from_workflow(&workflow);
    assert_eq!(prompts, vec!["edit prompt text".to_string()]);
}

#[test]
fn extracts_qwen_workflow_with_kontext_and_lora() {
    let workflow = obj(vec![
        ("37", node("UNETLoader", vec![("unet_name", s("qwen_aio_v23.safetensors"))])),
        (
            "40",
            node(
                "LoraLoaderModelOnly",
                vec![
                    ("lora_name", s("qwen\\image_edit_f2p_qwen.safetensors")),
                    ("strength_model", f("0.35")),
                ],
            ),
        ),
        ("76", node("TextEncodeQwenImageEditPlus", vec![("prompt", s("qwen positive prompt"))])),
        (
            "78",
            node("FluxKontextMultiReferenceLatentMethod", vec![("conditioning", arr(vec![s("76"), n(0)]))]),
        ),
        ("80", node("ConditioningZeroOut", vec![("conditioning", arr(vec![s("77"), n(0)]))])),
        (
            "3",
            node(
                "KSampler",
                vec![("positive", arr(vec![s("78"), n(0)])), ("negative", arr(vec![s("80"), n(0)]))],
            ),
        ),
    ]);

    let (prompt, details) = extract_workflow(&workflow);
    assert!(prompt.contains("qwen positive prompt"));
    assert_eq!(details.model.as_deref(), Some("qwen_aio_v23.safetensors"));
    assert_eq!(details.loras.len(), 1);
    assert_eq!(details.loras[0].name, "qwen\\image_edit_f2p_qwen.safetensors");
    assert_eq!(details.positive_prompt.as_deref(), Some("qwen positive prompt"));
    assert_eq!(details.negative_prompt, None);
}

#[test]
fn unwraps_wrapped_prompt_object() {
    let workflow = obj(vec![
        ("client_id", s("abc")),
        (
            "prompt",
            obj(vec![(
                "1",
                node("TextEncodeQwenImageEditPlus", vec![("prompt", s("wrapped qwen prompt"))]),
            )]),
        ),
    ]);
    let prompts = extract_from_workflow(&workflow);
    assert_eq!(prompts, vec!["wrapped qwen prompt".to_string()]);
}

#[test]
fn parses_ui_workflow_nodes_array() {
    let workflow = obj(vec![
        (
            "nodes",
            arr(vec![
                obj(vec![
                    ("id", n(1)),
                    ("type", s("TextEncodeQwenImageEditPlus")),
                    ("widgets_values", arr(vec![s("ui qwen prompt")])),
                ]),
                obj(vec![
                    ("id", n(2)),
                    ("type", s("UNETLoader")),
                    ("widgets_values", arr(vec![s("qwen_aio_v23.safetensors"), s("default")])),
                ]),
            ]),
        ),
        ("links", arr(vec![])),
    ]);

    let (prompt, details) = extract_workflow(&workflow);
    assert_eq!(prompt, "ui qwen prompt");
    assert_eq!(details.model.as_deref(), Some("qwen_aio_v23.safetensors"));
}

#[test]
fn comfyui_workflow_extraction() {
    let workflow = obj(vec![
        ("10", node("CLIPTextEncode", vec![("text", s("anime girl, cherry blossoms, spring"))])),
        ("11", node("CLIPTextEncode", vec![("text", s("worst quality, blurry"))])),
        ("5", node("KSampler", vec![("steps", n(30))])),
    ]);

    let prompts = extract_from_workflow(&workflow);
    assert_eq!(prompts.len(), 2);
    assert!(prompts.iter().any(|p| p.contains("cherry blossoms")));
    assert!(prompts.iter().any(|p| p.contains("worst quality")));
}

#[test]
fn sampler_prompts_follow_conditioning_links() {
    let workflow = obj(vec![
        ("1", node("CheckpointLoaderSimple", vec![("ckpt_name", s("base.safetensors"))])),
        ("6", node("CLIPTextEncode", vec![("text", s("  a cat on a sofa "))])),
        ("7", node("CLIPTextEncode", vec![("text", s("blurry"))])),
        (
            "3",
            node(
                "KSampler",
                vec![("positive", arr(vec![s("6"), n(0)])), ("negative", arr(vec![s("7"), n(0)]))],
            ),
        ),
    ]);
    let details = extract_details_from_workflow(&workflow);
    assert_eq!(details.model.as_deref(), Some("base.safetensors"));
    assert_eq!(details.positive_prompt.as_deref(), Some("a cat on a sofa"));
    assert_eq!(details.negative_prompt.as_deref(), Some("blurry"));
    let (prompt, _) = extract_workflow(&workflow);
    assert_eq!(prompt, "a cat on a sofa | blurry");
}

#[test]
fn lora_loader_weights_and_duplicates() {
    let workflow = obj(vec![
        (
            "1",
            node(
                "LoraLoader",
                vec![
                    ("lora_name", s("style.safetensors")),
                    ("strength_model", f("0.7")),
                    ("strength_clip", f("0.5")),
                ],
            ),
        ),
        (
            "2",
            node(
                "LoraLoader",
                vec![("lora_name", s("style.safetensors")), ("strength_model", f("0.9"))],
            ),
        ),
        ("3", node("LoraLoader", vec![("lora_name", s("detail.safetensors"))])),
    ]);
    let details = extract_details_from_workflow(&workflow);
    assert_eq!(details.loras.len(), 2);
    assert_eq!(details.loras[0].name, "style.safetensors");
    assert_eq!(details.loras[0].weight, "0.7 / 0.5");
    assert_eq!(details.loras[1].name, "detail.safetensors");
    assert_eq!(details.loras[1].weight, "1");
}

#[test]
fn node_classes() {
    assert!(is_text_encode_node("CLIPTextEncode"));
    assert!(!is_text_encode_node("KSampler"));
    assert!(is_sampler_node("KSampler"));
    assert!(is_sampler_node("KSamplerAdvanced"));
    assert!(!is_sampler_node("CLIPTextEncode"));
    assert!(is_generation_model_node("CheckpointLoaderSimple"));
    assert!(!is_generation_model_node("KSampler"));
}

#[test]
fn lora_weight_formatting() {
    assert_eq!(format_lora_weight(Some("0.5"), Some("0.5")), Some("0.5".to_string()));
    assert_eq!(format_lora_weight(Some("0.5"), Some("0.7")), Some("0.5 / 0.7".to_string()));
    assert_eq!(format_lora_weight(None, Some("0.7")), Some("0.7".to_string()));
    assert_eq!(format_lora_weight(None, None), None);
}

#[test]
fn push_lora_keeps_first_of_a_name() {
    let mut loras: Vec<LoraInfo> = Vec::new();
    push_lora(&mut loras, "a".to_string(), "1".to_string());
    push_lora(&mut loras, "b".to_string(), "2".to_string());
    push_lora(&mut loras, "a".to_string(), "3".to_string());
    assert_eq!(loras.len(), 2);
    assert_eq!(loras[0].weight, "1");
}

#[test]
fn extractable_content() {
    assert!(!has_extractable_content("   ", &PromptDetails::default()));
    assert!(has_extractable_content("x", &PromptDetails::default()));
    let mut d = PromptDetails::default();
    d.model = Some("m".to_string());
    assert!(has_extractable_content("", &d));
}

#[test]
fn normalizes_wrapped_and_plain_workflows_alike() {
    let inner = obj(vec![("1", node("CLIPTextEncode", vec![("text", s("hello"))]))]);
    let wrapped = obj(vec![("prompt", obj(vec![("1", node("CLIPTextEncode", vec![("text", s("hello"))]))]))]);
    let a = normalize_workflow(&inner);
    let b = normalize_workflow(&wrapped);
    assert_eq!(extract_from_workflow(&a), extract_from_workflow(&b));
    assert_eq!(extract_from_workflow(&a), vec!["hello".to_string()]);
}

#[test]
fn normalizing_twice_changes_nothing() {
    let ui = obj(vec![
        (
            "nodes",
            arr(vec![
                obj(vec![
                    ("id", n(2)),
                    ("type", s("CLIPTextEncode")),
                    ("widgets_values", arr(vec![s("a red fox")])),
                ]),
                obj(vec![
                    ("id", n(1)),
                    ("type", s("CheckpointLoaderSimple")),
                    ("widgets_values", arr(vec![s("fox.safetensors")])),
                ]),
            ]),
        ),
        ("links", arr(vec![])),
    ]);
    let once = normalize_workflow(&ui);
    let twice = normalize_workflow(&once);
    assert_eq!(extract_from_workflow(&once), extract_from_workflow(&twice));
    assert_eq!(extract_from_workflow(&twice), vec!["a red fox".to_string()]);
    let keys: Vec<String> = twice.as_object().unwrap().iter().map(|(k, _)| k.clone()).collect();
    assert_eq!(keys, vec!["1".to_string(), "2".to_string()]);
    let d = extract_details_from_workflow(&twice);
    assert_eq!(d.model.as_deref(), Some("fox.safetensors"));
}

#[test]
fn ui_nodes_without_type_are_skipped() {
    let workflow = obj(vec![
        (
            "nodes",
            arr(vec![
                obj(vec![
                    ("id", n(1)),
                    ("type", s("CLIPTextEncode")),
                    ("widgets_values", arr(vec![s("a cat")])),
                ]),
                obj(vec![("id", n(2))]),
            ]),
        ),
        ("links", arr(vec![])),
    ]);
    let api = ips::extract::comfyui::ui_workflow_to_api(&workflow).unwrap();
    let nodes = api.as_object().unwrap();
    assert_eq!(nodes.len(), 1);
    assert_eq!(nodes[0].0, "1");
    let inputs = nodes[0].1.get("inputs").unwrap();
    assert_eq!(inputs.get("text").and_then(|v| v.as_str()).map(|s| s.as_str()), Some("a cat"));
    assert_eq!(extract_from_workflow(&workflow), vec!["a cat".to_string()]);
}
