//! ComfyUI workflow extraction: normalising the API, wrapped and UI forms of a workflow,
//! collecting its text prompts, and tracing model, LoRAs and sampler prompts.
use vstd::prelude::*;
use crate::json::{
    keys_increasing, lemma_entry_insert_sorted, lemma_entry_insert_last, entry_insert_then_get,
    Json, JsonValue, get, get_str, as_array, as_object, item, entry_get, entries_view,
    values_view, entry_insert, insert_entry, as_u64, as_bool, get_object,
    get_array, entries_get, as_str,
};
use crate::text::{
    contains, contains_str, str_equal, trim, trim_string, blank, is_blank, decimal,
    u64_to_decimal, copy_str, lowercase_str, str_lowercase,
};
use crate::types::{opt_str, LoraInfo, LoraSpec, loras_view, PromptDetails, DetailsSpec};

verus! {

// ---------------------------------------------------------------------------------------------
// Node classification.
// ---------------------------------------------------------------------------------------------
/// Class types of nodes that encode prompt text.
pub open spec fn is_text_encode(ct: Seq<char>) -> bool {
    ||| ct == "CLIPTextEncode"@
    ||| ct == "CLIPTextEncodeSDXL"@
    ||| ct == "CLIPTextEncodeFlux"@
    ||| ct == "TextEncodeQwenImageEdit"@
    ||| ct == "TextEncodeQwenImageEditPlus"@
    ||| contains(ct, "Prompt"@)
    ||| contains(ct, "TextEncode"@)
}

/// Class types of sampler nodes.
pub open spec fn is_sampler(ct: Seq<char>) -> bool {
    ||| contains(ct, "KSampler"@)
    ||| contains(ct, "SamplerCustom"@)
    ||| ct == "SamplerCustomAdvanced"@
}

/// Class types of nodes that load the generation model.
pub open spec fn is_generation_model(ct: Seq<char>) -> bool {
    ||| ct == "CheckpointLoaderSimple"@
    ||| ct == "CheckpointLoader"@
    ||| ct == "CheckpointLoaderNF4"@
    ||| ct == "UNETLoader"@
    ||| ct == "UnetLoaderGGUF"@
}

/// Whether a node of this class encodes prompt text.
pub fn is_text_encode_node(class_type: &str) -> (r: bool)
    ensures
        r == is_text_encode(class_type@),
{
    str_equal(class_type, "CLIPTextEncode") || str_equal(class_type, "CLIPTextEncodeSDXL")
        || str_equal(class_type, "CLIPTextEncodeFlux") || str_equal(
        class_type,
        "TextEncodeQwenImageEdit",
    ) || str_equal(class_type, "TextEncodeQwenImageEditPlus") || contains_str(
        class_type,
        "Prompt",
    ) || contains_str(class_type, "TextEncode")
}

/// Whether a node of this class is a sampler.
pub fn is_sampler_node(class_type: &str) -> (r: bool)
    ensures
        r == is_sampler(class_type@),
{
    contains_str(class_type, "KSampler") || contains_str(class_type, "SamplerCustom") || str_equal(
        class_type,
        "SamplerCustomAdvanced",
    )
}

/// Whether a node of this class loads the generation model.
pub fn is_generation_model_node(class_type: &str) -> (r: bool)
    ensures
        r == is_generation_model(class_type@),
{
    str_equal(class_type, "CheckpointLoaderSimple") || str_equal(class_type, "CheckpointLoader")
        || str_equal(class_type, "CheckpointLoaderNF4") || str_equal(class_type, "UNETLoader")
        || str_equal(class_type, "UnetLoaderGGUF")
}

// ---------------------------------------------------------------------------------------------
// Small value conversions.
// ---------------------------------------------------------------------------------------------
/// The trimmed text, unless it is empty.
pub open spec fn non_empty_spec(s: Seq<char>) -> Option<Seq<char>> {
    if trim(s).len() == 0 {
        None
    } else {
        Some(trim(s))
    }
}

/// `non_empty_spec` applied inside an option.
pub open spec fn non_empty_opt(o: Option<Seq<char>>) -> Option<Seq<char>> {
    match o {
        Some(s) => non_empty_spec(s),
        None => None,
    }
}

/// The text of a string or number value.
pub open spec fn value_text(v: Json) -> Option<Seq<char>> {
    match v {
        Json::Str(s) => Some(s),
        Json::Number(t, _) => Some(t),
        _ => None,
    }
}

/// `value_text` applied inside an option.
pub open spec fn value_text_opt(o: Option<Json>) -> Option<Seq<char>> {
    match o {
        Some(v) => value_text(v),
        None => None,
    }
}

/// A node id: a string, or a non-negative integer written in decimal.
pub open spec fn node_id_text(v: Json) -> Option<Seq<char>> {
    match v {
        Json::Number(_, Some(u)) => Some(decimal(u as nat)),
        Json::Str(s) => Some(s),
        _ => None,
    }
}

/// The node id that a `["id", slot]` reference names.
pub open spec fn ref_id(v: Json) -> Option<Seq<char>> {
    match as_array(v) {
        Some(items) => match item(items, 0) {
            Some(first) => non_empty_opt(value_text(first)),
            None => None,
        },
        None => None,
    }
}

/// The trimmed text, unless it is empty.
pub fn non_empty(value: &str) -> (r: Option<String>)
    ensures
        opt_str(r) == non_empty_spec(value@),
{
    let t = trim_string(value);
    if t.as_str().is_empty() {
        None
    } else {
        Some(t)
    }
}

/// The text of a string or number value.
pub fn value_to_string(value: &JsonValue) -> (r: Option<String>)
    ensures
        opt_str(r) == value_text(value@),
{
    match value {
        JsonValue::Str(s) => Some(s.clone()),
        JsonValue::Number(n) => Some(n.text.clone()),
        _ => None,
    }
}

/// A node id: a string, or a non-negative integer written in decimal.
pub fn node_id_string(id: &JsonValue) -> (r: Option<String>)
    ensures
        opt_str(r) == node_id_text(id@),
{
    match id {
        JsonValue::Number(n) => match n.unsigned {
            Some(u) => Some(u64_to_decimal(u)),
            None => None,
        },
        JsonValue::Str(s) => Some(s.clone()),
        _ => None,
    }
}

/// The node id that a `["id", slot]` reference names.
pub fn ref_node_id(value: &JsonValue) -> (r: Option<String>)
    ensures
        opt_str(r) == ref_id(value@),
{
    let array = match value.as_array() {
        Some(a) => a,
        None => return None,
    };
    if array.len() == 0 {
        return None;
    }
    match value_to_string(&array[0]) {
        Some(s) => non_empty(s.as_str()),
        None => None,
    }
}

/// The text of `v[key]` when it is a string or number.
pub fn get_text(v: &JsonValue, key: &str) -> (r: Option<String>)
    ensures
        opt_str(r) == value_text_opt(get(v@, key@)),
{
    match v.get(key) {
        Some(x) => value_to_string(x),
        None => None,
    }
}

/// The class type of a node, or the empty string when it has none.
pub open spec fn class_or_empty(node: Json) -> Seq<char> {
    match get_str(node, "class_type"@) {
        Some(s) => s,
        None => Seq::empty(),
    }
}

/// The class type of a node, or the empty string when it has none.
pub fn class_type_of(node: &JsonValue) -> (r: String)
    ensures
        r@ == class_or_empty(node@),
{
    match node.get("class_type") {
        Some(v) => match v.as_str() {
            Some(s) => s.clone(),
            None => String::new(),
        },
        None => String::new(),
    }
}

// ---------------------------------------------------------------------------------------------
// LoRA weights.
// ---------------------------------------------------------------------------------------------
/// The weight text of a LoRA from its model and clip strengths.
pub open spec fn lora_weight(model: Option<Seq<char>>, clip: Option<Seq<char>>) -> Option<
    Seq<char>,
> {
    match (model, clip) {
        (Some(m), Some(c)) => if m == c {
            Some(m)
        } else {
            Some(m + " / "@ + c)
        },
        (Some(m), None) => Some(m),
        (None, Some(c)) => Some(c),
        (None, None) => None,
    }
}

/// The weight text of a LoRA: one strength when both agree or only one is given,
/// else "model / clip".
pub fn format_lora_weight(model_weight: Option<&str>, clip_weight: Option<&str>) -> (r: Option<
    String,
>)
    ensures
        opt_str(r) == lora_weight(
            match model_weight {
                Some(m) => Some(m@),
                None => None,
            },
            match clip_weight {
                Some(c) => Some(c@),
                None => None,
            },
        ),
{
    match (model_weight, clip_weight) {
        (Some(model), Some(clip)) => {
            if str_equal(model, clip) {
                Some(copy_str(model))
            } else {
                let mut s = copy_str(model);
                s.append(" / ");
                s.append(clip);
                Some(s)
            }
        },
        (Some(model), None) => Some(copy_str(model)),
        (None, Some(clip)) => Some(copy_str(clip)),
        (None, None) => None,
    }
}

/// Whether some LoRA in `ls` has the given name.
pub open spec fn has_lora_named(ls: Seq<LoraSpec>, name: Seq<char>) -> bool {
    exists|i: int| 0 <= i < ls.len() && ls[i].name == name
}

/// `ls` with a LoRA appended, unless one of that name is already there.
pub open spec fn add_lora(ls: Seq<LoraSpec>, name: Seq<char>, weight: Seq<char>) -> Seq<LoraSpec> {
    if has_lora_named(ls, name) {
        ls
    } else {
        ls.push(LoraSpec { name, weight })
    }
}

/// Append a LoRA unless one of the same name is already listed.
pub fn push_lora(loras: &mut Vec<LoraInfo>, name: String, weight: String)
    ensures
        loras_view(final(loras)@) == add_lora(loras_view(old(loras)@), name@, weight@),
{
    let mut i: usize = 0;
    while i < loras.len()
        invariant
            i <= loras@.len(),
            loras@ == old(loras)@,
            forall|j: int| 0 <= j < i ==> loras@[j].name@ != name@,
        decreases loras@.len() - i,
    {
        if loras[i].name == name {
            assert(loras_view(loras@)[i as int].name == name@);
            return;
        }
        i += 1;
    }
    let ghost before = loras_view(loras@);
    assert(!has_lora_named(before, name@)) by {
        if has_lora_named(before, name@) {
            let k = choose|k: int| 0 <= k < before.len() && before[k].name == name@;
            assert(loras@[k].name@ == name@);
        }
    }
    loras.push(LoraInfo { name, weight });
    assert(loras_view(loras@) =~= before.push(loras@.last()@));
}

/// Whether a workflow yielded anything worth a record.
pub open spec fn extractable(prompt: Seq<char>, d: DetailsSpec) -> bool {
    ||| !is_blank(prompt)
    ||| d.model is Some
    ||| d.loras.len() > 0
    ||| d.positive_prompt is Some
    ||| d.negative_prompt is Some
}

/// Whether a workflow yielded prompt text, a model, LoRAs or sampler prompts.
pub fn has_extractable_content(prompt: &str, details: &PromptDetails) -> (r: bool)
    ensures
        r == extractable(prompt@, details@),
{
    !blank(prompt) || details.model.is_some() || details.loras.len() > 0
        || details.positive_prompt.is_some() || details.negative_prompt.is_some()
}


// ---------------------------------------------------------------------------------------------
// UI workflow form: links and widget values.
// ---------------------------------------------------------------------------------------------
/// Model of a resolved link: the source node id and output slot.
pub open spec fn link_view(r: Option<(String, u64)>) -> Option<(Seq<char>, u64)> {
    match r {
        Some((s, n)) => Some((s@, n)),
        None => None,
    }
}

/// The source of the link with id `id` among `links`: the first link whose first item is `id`
/// gives its second item (a node id) and third (a slot). A link that is not an array, or whose
/// first item is not an integer, ends the search with nothing found.
pub open spec fn resolve_in(links: Seq<Json>, id: u64) -> Option<(Seq<char>, u64)>
    decreases links.len(),
{
    if links.len() == 0 {
        None
    } else {
        match as_array(links[0]) {
            None => None,
            Some(arr) => match item(arr, 0) {
                None => None,
                Some(first) => match as_u64(first) {
                    None => None,
                    Some(fid) => if fid != id {
                        resolve_in(links.drop_first(), id)
                    } else {
                        match item(arr, 1) {
                            None => None,
                            Some(src) => match node_id_text(src) {
                                None => None,
                                Some(src_id) => match item(arr, 2) {
                                    None => None,
                                    Some(slot) => match as_u64(slot) {
                                        None => None,
                                        Some(n) => Some((src_id, n)),
                                    },
                                },
                            },
                        }
                    },
                },
            },
        }
    }
}

/// `resolve_in` when the workflow has a link list.
pub open spec fn resolve_link_spec(links: Option<Seq<Json>>, id: u64) -> Option<(Seq<char>, u64)> {
    match links {
        Some(ls) => resolve_in(ls, id),
        None => None,
    }
}

/// Model of an optional list of values.
pub open spec fn opt_values(links: Option<&Vec<JsonValue>>) -> Option<Seq<Json>> {
    match links {
        Some(v) => Some(values_view(v@)),
        None => None,
    }
}

/// The source node id and slot of the link with the given id.
pub fn resolve_link(links: Option<&Vec<JsonValue>>, link_id: u64) -> (r: Option<(String, u64)>)
    ensures
        link_view(r) == resolve_link_spec(opt_values(links), link_id),
{
    let list = match links {
        Some(l) => l,
        None => return None,
    };
    let ghost ls = values_view(list@);
    let mut i: usize = 0;
    assert(ls.skip(0) =~= ls);
    while i < list.len()
        invariant
            i <= list@.len(),
            ls == values_view(list@),
            opt_values(links) == Some(ls),
            resolve_in(ls, link_id) == resolve_in(ls.skip(i as int), link_id),
        decreases list@.len() - i,
    {
        assert(ls.skip(i as int).drop_first() =~= ls.skip(i + 1));
        assert(ls.skip(i as int)[0] == list@[i as int]@);
        assert(ls.skip(i as int).len() > 0);
        let arr = match list[i].as_array() {
            Some(a) => a,
            None => {
                assert(as_array(ls.skip(i as int)[0]) is None);
                assert(resolve_in(ls.skip(i as int), link_id) is None);
                return None;
            },
        };
        if arr.len() == 0 {
            assert(item(as_array(ls.skip(i as int)[0]).unwrap(), 0) is None);
            assert(resolve_in(ls.skip(i as int), link_id) is None);
            return None;
        }
        let first = match arr[0].as_u64() {
            Some(f) => f,
            None => return None,
        };
        if first != link_id {
            i += 1;
            continue;
        }
        if arr.len() < 2 {
            return None;
        }
        let src_id = match node_id_string(&arr[1]) {
            Some(s) => s,
            None => return None,
        };
        if arr.len() < 3 {
            return None;
        }
        let src_slot = match arr[2].as_u64() {
            Some(n) => n,
            None => return None,
        };
        return Some((src_id, src_slot));
    }
    None
}

/// A widget value at position `i` that is a non-empty string, trimmed.
pub open spec fn widget_str(ws: Seq<Json>, i: int) -> Option<Seq<char>> {
    match item(ws, i) {
        Some(v) => match as_str(v) {
            Some(s) => non_empty_spec(s),
            None => None,
        },
        None => None,
    }
}

/// `es` with `value` under `key` when `key` is absent and `value` is given.
pub open spec fn put_absent(es: Seq<(Seq<char>, Json)>, key: Seq<char>, value: Option<Json>) -> Seq<
    (Seq<char>, Json),
> {
    match value {
        Some(v) => if entry_get(es, key) is None {
            entry_insert(es, key, v)
        } else {
            es
        },
        None => es,
    }
}

/// A string value built from optional text.
pub open spec fn str_value(s: Option<Seq<char>>) -> Option<Json> {
    match s {
        Some(t) => Some(Json::Str(t)),
        None => None,
    }
}

/// The inputs of a UI node after its widget values fill the inputs they stand for.
pub open spec fn widgets_applied(
    ct: Seq<char>,
    widgets: Option<Json>,
    inputs: Seq<(Seq<char>, Json)>,
) -> Seq<(Seq<char>, Json)> {
    let ws = match widgets {
        Some(w) => as_array(w),
        None => None,
    };
    match ws {
        None => inputs,
        Some(ws) => if is_text_encode(ct) {
            put_absent(
                put_absent(inputs, "text"@, str_value(widget_str(ws, 0))),
                "prompt"@,
                str_value(widget_str(ws, 0)),
            )
        } else if ct == "CheckpointLoaderSimple"@ || ct == "CheckpointLoader"@ || ct
            == "CheckpointLoaderNF4"@ {
            put_absent(inputs, "ckpt_name"@, str_value(widget_str(ws, 0)))
        } else if ct == "UNETLoader"@ || ct == "UnetLoaderGGUF"@ {
            put_absent(inputs, "unet_name"@, str_value(widget_str(ws, 0)))
        } else if ct == "LoraLoader"@ {
            put_absent(
                put_absent(
                    put_absent(inputs, "lora_name"@, str_value(widget_str(ws, 0))),
                    "strength_model"@,
                    item(ws, 1),
                ),
                "strength_clip"@,
                item(ws, 2),
            )
        } else if ct == "LoraLoaderModelOnly"@ {
            put_absent(
                put_absent(inputs, "lora_name"@, str_value(widget_str(ws, 0))),
                "strength_model"@,
                item(ws, 1),
            )
        } else {
            inputs
        },
    }
}

/// Model of an optional value.
pub open spec fn opt_json(o: Option<JsonValue>) -> Option<Json> {
    match o {
        Some(v) => Some(v@),
        None => None,
    }
}

/// Insert `value` under `key` when `key` is absent and `value` is given.
pub fn put_if_absent(inputs: &mut Vec<(String, JsonValue)>, key: &str, value: Option<JsonValue>)
    ensures
        entries_view(final(inputs)@) == put_absent(entries_view(old(inputs)@), key@, opt_json(value)),
{
    match value {
        Some(v) => {
            if entries_get(inputs, key).is_none() {
                insert_entry(inputs, copy_str(key), v);
            }
        },
        None => {},
    }
}

/// A widget value at position `idx` that is a non-empty string, trimmed.
pub fn widget_string(ws: &Vec<JsonValue>, idx: usize) -> (r: Option<JsonValue>)
    ensures
        opt_json(r) == str_value(widget_str(values_view(ws@), idx as int)),
{
    if idx >= ws.len() {
        return None;
    }
    assert(values_view(ws@)[idx as int] == ws@[idx as int]@);
    match ws[idx].as_str() {
        Some(s) => match non_empty(s.as_str()) {
            Some(t) => Some(JsonValue::string(t)),
            None => None,
        },
        None => None,
    }
}

/// A copy of the widget value at position `idx`.
pub fn widget_raw(ws: &Vec<JsonValue>, idx: usize) -> (r: Option<JsonValue>)
    ensures
        opt_json(r) == item(values_view(ws@), idx as int),
{
    if idx >= ws.len() {
        return None;
    }
    assert(values_view(ws@)[idx as int] == ws@[idx as int]@);
    Some(ws[idx].deep_copy())
}

/// Fill the inputs of a UI node from its widget values: prompt text for text encoders, the
/// model file for loaders, and name and strengths for LoRA loaders, each only when absent.
pub fn apply_widgets_values(
    class_type: &str,
    widgets: Option<&JsonValue>,
    inputs: &mut Vec<(String, JsonValue)>,
)
    ensures
        entries_view(final(inputs)@) == widgets_applied(
            class_type@,
            match widgets {
                Some(w) => Some(w@),
                None => None,
            },
            entries_view(old(inputs)@),
        ),
{
    let widgets = match widgets {
        Some(w) => match w.as_array() {
            Some(a) => a,
            None => return ,
        },
        None => return ,
    };
    if is_text_encode_node(class_type) {
        put_if_absent(inputs, "text", widget_string(widgets, 0));
        put_if_absent(inputs, "prompt", widget_string(widgets, 0));
        return ;
    }
    if str_equal(class_type, "CheckpointLoaderSimple") || str_equal(class_type, "CheckpointLoader")
        || str_equal(class_type, "CheckpointLoaderNF4") {
        put_if_absent(inputs, "ckpt_name", widget_string(widgets, 0));
    } else if str_equal(class_type, "UNETLoader") || str_equal(class_type, "UnetLoaderGGUF") {
        put_if_absent(inputs, "unet_name", widget_string(widgets, 0));
    } else if str_equal(class_type, "LoraLoader") {
        put_if_absent(inputs, "lora_name", widget_string(widgets, 0));
        put_if_absent(inputs, "strength_model", widget_raw(widgets, 1));
        put_if_absent(inputs, "strength_clip", widget_raw(widgets, 2));
    } else if str_equal(class_type, "LoraLoaderModelOnly") {
        put_if_absent(inputs, "lora_name", widget_string(widgets, 0));
        put_if_absent(inputs, "strength_model", widget_raw(widgets, 1));
    }
}


// ---------------------------------------------------------------------------------------------
// Normalising a workflow to the API form.
// ---------------------------------------------------------------------------------------------
/// The value that stands for a link's source: `[source id, slot]`.
pub open spec fn link_ref(src: Seq<char>, slot: u64) -> Json {
    Json::Array(seq![Json::Str(src), Json::Number(decimal(slot as nat), Some(slot))])
}

/// The inputs of a UI node that are connected by a resolvable link, each under its name.
pub open spec fn linked_inputs(inputs: Seq<Json>, links: Option<Seq<Json>>) -> Seq<
    (Seq<char>, Json),
>
    decreases inputs.len(),
{
    if inputs.len() == 0 {
        Seq::empty()
    } else {
        let acc = linked_inputs(inputs.drop_last(), links);
        let input = inputs.last();
        match get_str(input, "name"@) {
            None => acc,
            Some(name) => match get(input, "link"@) {
                None => acc,
                Some(l) => match as_u64(l) {
                    None => acc,
                    Some(id) => match resolve_link_spec(links, id) {
                        None => acc,
                        Some((src, slot)) => entry_insert(acc, name, link_ref(src, slot)),
                    },
                },
            },
        }
    }
}

/// The class type of a UI node: its `type`, else its `class_type`, when that is a string.
pub open spec fn ui_node_type(node: Json) -> Option<Seq<char>> {
    let t = match get(node, "type"@) {
        Some(x) => Some(x),
        None => get(node, "class_type"@),
    };
    match t {
        Some(x) => as_str(x),
        None => None,
    }
}

/// A UI node in API form, under its id: its class type and its inputs from links and widgets.
pub open spec fn ui_node_entry(node: Json, links: Option<Seq<Json>>) -> Option<(Seq<char>, Json)> {
    match get(node, "id"@) {
        None => None,
        Some(idv) => match node_id_text(idv) {
            None => None,
            Some(id) => match ui_node_type(node) {
                None => None,
                Some(ct) => {
                    let linked = match get_array(node, "inputs"@) {
                        Some(ins) => linked_inputs(ins, links),
                        None => Seq::empty(),
                    };
                    let inputs = widgets_applied(ct, get(node, "widgets_values"@), linked);
                    Some(
                        (
                            id,
                            Json::Object(
                                entry_insert(
                                    entry_insert(Seq::empty(), "class_type"@, Json::Str(ct)),
                                    "inputs"@,
                                    Json::Object(inputs),
                                ),
                            ),
                        ),
                    )
                },
            },
        },
    }
}

/// All UI nodes in API form; a node that lacks an id or a class type is skipped.
pub open spec fn ui_nodes(nodes: Seq<Json>, links: Option<Seq<Json>>) -> Seq<(Seq<char>, Json)>
    decreases nodes.len(),
{
    if nodes.len() == 0 {
        Seq::empty()
    } else {
        let acc = ui_nodes(nodes.drop_last(), links);
        match ui_node_entry(nodes.last(), links) {
            None => acc,
            Some((id, n)) => entry_insert(acc, id, n),
        }
    }
}

/// A UI workflow (`nodes` and `links` arrays) in API form, when it has nodes to convert.
pub open spec fn ui_to_api(json: Json) -> Option<Json> {
    match get_array(json, "nodes"@) {
        None => None,
        Some(nodes) => {
            let api = ui_nodes(nodes, get_array(json, "links"@));
            if api.len() == 0 {
                None
            } else {
                Some(Json::Object(api))
            }
        },
    }
}

/// The linked inputs of a UI node.
fn linked_inputs_of(inputs: &Vec<JsonValue>, links: Option<&Vec<JsonValue>>) -> (r: Vec<
    (String, JsonValue),
>)
    ensures
        entries_view(r@) == linked_inputs(values_view(inputs@), opt_values(links)),
{
    let ghost ins = values_view(inputs@);
    let mut acc: Vec<(String, JsonValue)> = Vec::new();
    let mut i: usize = 0;
    assert(entries_view(acc@) =~= linked_inputs(ins.take(0), opt_values(links)));
    while i < inputs.len()
        invariant
            i <= inputs@.len(),
            ins == values_view(inputs@),
            entries_view(acc@) == linked_inputs(ins.take(i as int), opt_values(links)),
        decreases inputs@.len() - i,
    {
        assert(ins.take(i + 1).drop_last() =~= ins.take(i as int));
        assert(ins.take(i + 1).last() == inputs@[i as int]@);
        let input = &inputs[i];
        i += 1;
        let name = match input.get("name") {
            Some(n) => match n.as_str() {
                Some(s) => s.clone(),
                None => continue,
            },
            None => continue,
        };
        let link_id = match input.get("link") {
            Some(l) => match l.as_u64() {
                Some(id) => id,
                None => continue,
            },
            None => continue,
        };
        match resolve_link(links, link_id) {
            Some((src_id, src_slot)) => {
                let ghost sv = src_id@;
                let mut pair: Vec<JsonValue> = Vec::new();
                pair.push(JsonValue::string(src_id));
                pair.push(JsonValue::unsigned(src_slot));
                assert(values_view(pair@) =~= seq![
                    Json::Str(sv),
                    Json::Number(decimal(src_slot as nat), Some(src_slot)),
                ]);
                let v = JsonValue::array(pair);
                assert(v@ == link_ref(sv, src_slot));
                insert_entry(&mut acc, name, v);
            },
            None => {},
        }
    }
    assert(ins.take(inputs@.len() as int) =~= ins);
    acc
}

/// A UI node in API form, under its id.
fn ui_node_to_api(node: &JsonValue, links: Option<&Vec<JsonValue>>) -> (r: Option<
    (String, JsonValue),
>)
    ensures
        match r {
            Some((id, n)) => ui_node_entry(node@, opt_values(links)) == Some((id@, n@)),
            None => ui_node_entry(node@, opt_values(links)) is None,
        },
{
    let id = match node.get("id") {
        Some(v) => match node_id_string(v) {
            Some(s) => s,
            None => return None,
        },
        None => return None,
    };
    let type_value = match node.get("type") {
        Some(t) => Some(t),
        None => node.get("class_type"),
    };
    let class_type = match type_value {
        Some(t) => match t.as_str() {
            Some(s) => s.clone(),
            None => return None,
        },
        None => return None,
    };
    let mut inputs: Vec<(String, JsonValue)> = match node.get("inputs") {
        Some(v) => match v.as_array() {
            Some(a) => linked_inputs_of(a, links),
            None => Vec::new(),
        },
        None => Vec::new(),
    };
    proof {
        if get_array(node@, "inputs"@) is None {
            assert(entries_view(inputs@) =~= Seq::empty());
        }
    }
    apply_widgets_values(class_type.as_str(), node.get("widgets_values"), &mut inputs);
    let mut node_obj: Vec<(String, JsonValue)> = Vec::new();
    assert(entries_view(node_obj@) =~= Seq::empty());
    insert_entry(&mut node_obj, copy_str("class_type"), JsonValue::string(class_type));
    insert_entry(&mut node_obj, copy_str("inputs"), JsonValue::object(inputs));
    Some((id, JsonValue::object(node_obj)))
}

/// A UI workflow (`nodes` and `links` arrays) converted to the API form; nodes without an id or
/// a class type are skipped, and a workflow with no node left gives none.
pub fn ui_workflow_to_api(json: &JsonValue) -> (r: Option<JsonValue>)
    ensures
        opt_json(r) == ui_to_api(json@),
{
    let nodes_arr = match json.get("nodes") {
        Some(n) => match n.as_array() {
            Some(a) => a,
            None => return None,
        },
        None => return None,
    };
    let links_arr: Option<&Vec<JsonValue>> = match json.get("links") {
        Some(l) => l.as_array(),
        None => None,
    };
    let ghost nodes = values_view(nodes_arr@);
    let ghost links = opt_values(links_arr);
    assert(links == get_array(json@, "links"@));
    let mut api: Vec<(String, JsonValue)> = Vec::new();
    let mut i: usize = 0;
    assert(entries_view(api@) =~= Seq::empty());
    assert(nodes.take(0) =~= Seq::<Json>::empty());
    while i < nodes_arr.len()
        invariant
            i <= nodes_arr@.len(),
            nodes == values_view(nodes_arr@),
            links == opt_values(links_arr),
            get_array(json@, "nodes"@) == Some(nodes),
            links == get_array(json@, "links"@),
            ui_nodes(nodes.take(i as int), links) == entries_view(api@),
        decreases nodes_arr@.len() - i,
    {
        assert(nodes.take(i + 1).drop_last() =~= nodes.take(i as int));
        assert(nodes.take(i + 1).last() == nodes_arr@[i as int]@);
        match ui_node_to_api(&nodes_arr[i], links_arr) {
            Some((id, n)) => {
                insert_entry(&mut api, id, n);
            },
            None => {},
        }
        i += 1;
    }
    assert(nodes.take(nodes.len() as int) =~= nodes);
    if api.len() == 0 {
        None
    } else {
        Some(JsonValue::object(api))
    }
}

/// Whether an entry's value is a node, that is, has a `class_type`.
pub open spec fn is_api_node(e: (Seq<char>, Json)) -> bool {
    get(e.1, "class_type"@) is Some
}

/// The entries that are nodes, collected into an object.
pub open spec fn api_collect(es: Seq<(Seq<char>, Json)>) -> Seq<(Seq<char>, Json)>
    decreases es.len(),
{
    if es.len() == 0 {
        Seq::empty()
    } else if is_api_node(es.last()) {
        entry_insert(api_collect(es.drop_last()), es.last().0, es.last().1)
    } else {
        api_collect(es.drop_last())
    }
}

/// The node entries of an object, when there are any.
pub open spec fn api_nodes(json: Json) -> Option<Seq<(Seq<char>, Json)>> {
    match as_object(json) {
        None => None,
        Some(es) => {
            let c = api_collect(es);
            if c.len() == 0 {
                None
            } else {
                Some(c)
            }
        },
    }
}

/// Model of optional entries.
pub open spec fn opt_entries(o: Option<Vec<(String, JsonValue)>>) -> Option<Seq<(Seq<char>, Json)>> {
    match o {
        Some(v) => Some(entries_view(v@)),
        None => None,
    }
}

/// The entries of an object that are nodes (have a `class_type`), when there are any.
pub fn extract_api_nodes(json: &JsonValue) -> (r: Option<Vec<(String, JsonValue)>>)
    ensures
        opt_entries(r) == api_nodes(json@),
{
    let obj = match json.as_object() {
        Some(o) => o,
        None => return None,
    };
    let ghost es = entries_view(obj@);
    let mut nodes: Vec<(String, JsonValue)> = Vec::new();
    let mut i: usize = 0;
    assert(entries_view(nodes@) =~= api_collect(es.take(0)));
    while i < obj.len()
        invariant
            i <= obj@.len(),
            es == entries_view(obj@),
            entries_view(nodes@) == api_collect(es.take(i as int)),
        decreases obj@.len() - i,
    {
        assert(es.take(i + 1).drop_last() =~= es.take(i as int));
        assert(es.take(i + 1).last() == (obj@[i as int].0@, obj@[i as int].1@));
        if obj[i].1.get("class_type").is_some() {
            insert_entry(&mut nodes, obj[i].0.clone(), obj[i].1.deep_copy());
        }
        i += 1;
    }
    assert(es.take(es.len() as int) =~= es);
    if nodes.len() == 0 {
        None
    } else {
        Some(nodes)
    }
}

/// A workflow in API form: its own nodes, else the nodes of its `prompt` member (as API nodes
/// or converted from the UI form), else its UI form converted, else the value unchanged.
pub open spec fn normalized(json: Json) -> Json {
    match api_nodes(json) {
        Some(api) => Json::Object(api),
        None => {
            let inner = match get(json, "prompt"@) {
                Some(p) => match api_nodes(p) {
                    Some(api) => Some(Json::Object(api)),
                    None => ui_to_api(p),
                },
                None => None,
            };
            match inner {
                Some(v) => v,
                None => match ui_to_api(json) {
                    Some(v) => v,
                    None => json,
                },
            }
        },
    }
}

/// Normalize ComfyUI JSON from API prompt, wrapped prompt, or UI workflow format.
pub fn normalize_workflow(json: &JsonValue) -> (r: JsonValue)
    ensures
        r@ == normalized(json@),
{
    if let Some(api) = extract_api_nodes(json) {
        return JsonValue::object(api);
    }
    if let Some(inner) = json.get("prompt") {
        if let Some(api) = extract_api_nodes(inner) {
            return JsonValue::object(api);
        }
        if let Some(converted) = ui_workflow_to_api(inner) {
            return converted;
        }
    }
    if let Some(converted) = ui_workflow_to_api(json) {
        return converted;
    }
    json.deep_copy()
}


// ---------------------------------------------------------------------------------------------
// Prompt text of text-encode nodes.
// ---------------------------------------------------------------------------------------------
/// Model of a list of strings.
pub open spec fn strs(v: Seq<String>) -> Seq<Seq<char>> {
    Seq::new(v.len(), |i: int| v[i]@)
}

/// `ps` with the trimmed text appended, unless it is empty or already listed.
pub open spec fn add_text(ps: Seq<Seq<char>>, t: Option<Seq<char>>) -> Seq<Seq<char>> {
    match t {
        Some(x) => if trim(x).len() > 0 && !ps.contains(trim(x)) {
            ps.push(trim(x))
        } else {
            ps
        },
        None => ps,
    }
}

/// The string stored under `field` among the inputs.
pub open spec fn field_text(inputs: Seq<(Seq<char>, Json)>, field: Seq<char>) -> Option<Seq<char>> {
    match entry_get(inputs, field) {
        Some(v) => as_str(v),
        None => None,
    }
}

/// `ps` with the texts of a text-encode node's `text_g`, `text_l`, `text` and `prompt` inputs.
pub open spec fn add_node_texts(ps: Seq<Seq<char>>, inputs: Seq<(Seq<char>, Json)>) -> Seq<
    Seq<char>,
> {
    add_text(
        add_text(
            add_text(add_text(ps, field_text(inputs, "text_g"@)), field_text(inputs, "text_l"@)),
            field_text(inputs, "text"@),
        ),
        field_text(inputs, "prompt"@),
    )
}

/// The distinct texts of all text-encode nodes among `nodes`, in node order.
pub open spec fn prompts_in(nodes: Seq<(Seq<char>, Json)>) -> Seq<Seq<char>>
    decreases nodes.len(),
{
    if nodes.len() == 0 {
        Seq::empty()
    } else {
        let ps = prompts_in(nodes.drop_last());
        let node = nodes.last().1;
        match get_str(node, "class_type"@) {
            None => ps,
            Some(ct) => if !is_text_encode(ct) {
                ps
            } else {
                match get_object(node, "inputs"@) {
                    None => ps,
                    Some(inputs) => add_node_texts(ps, inputs),
                }
            },
        }
    }
}

/// The distinct prompt texts of a workflow.
pub open spec fn workflow_prompts(json: Json) -> Seq<Seq<char>> {
    match as_object(normalized(json)) {
        Some(nodes) => prompts_in(nodes),
        None => Seq::empty(),
    }
}

/// Whether `ps` lists the text `t`.
fn lists(ps: &Vec<String>, t: &String) -> (r: bool)
    ensures
        r == strs(ps@).contains(t@),
{
    let mut i: usize = 0;
    while i < ps.len()
        invariant
            i <= ps@.len(),
            forall|j: int| 0 <= j < i ==> ps@[j]@ != t@,
        decreases ps@.len() - i,
    {
        if ps[i] == *t {
            assert(strs(ps@)[i as int] == t@);
            return true;
        }
        i += 1;
    }
    proof {
        if strs(ps@).contains(t@) {
            let k = choose|k: int| 0 <= k < strs(ps@).len() && strs(ps@)[k] == t@;
            assert(ps@[k]@ == t@);
        }
    }
    false
}

/// Append the trimmed text of the input `field`, unless it is empty or already listed.
fn add_field_text(ps: &mut Vec<String>, inputs: &Vec<(String, JsonValue)>, field: &str)
    ensures
        strs(final(ps)@) == add_text(strs(old(ps)@), field_text(entries_view(inputs@), field@)),
{
    let text = match entries_get(inputs, field) {
        Some(v) => match v.as_str() {
            Some(s) => trim_string(s.as_str()),
            None => return ,
        },
        None => return ,
    };
    if text.as_str().is_empty() {
        return ;
    }
    if !lists(ps, &text) {
        let ghost before = strs(ps@);
        ps.push(text);
        assert(strs(ps@) =~= before.push(ps@.last()@));
    }
}

/// Append the texts of a text-encode node's inputs.
fn add_node_field_texts(ps: &mut Vec<String>, inputs: &Vec<(String, JsonValue)>)
    ensures
        strs(final(ps)@) == add_node_texts(strs(old(ps)@), entries_view(inputs@)),
{
    add_field_text(ps, inputs, "text_g");
    add_field_text(ps, inputs, "text_l");
    add_field_text(ps, inputs, "text");
    add_field_text(ps, inputs, "prompt");
}

/// Extract text prompts from a ComfyUI workflow JSON object.
///
/// ComfyUI stores the workflow as a JSON object where each value is a node
/// with `class_type` and `inputs` fields. Text prompts live inside
/// CLIPTextEncode (and similar) nodes.
pub fn extract_from_workflow(json: &JsonValue) -> (prompts: Vec<String>)
    ensures
        strs(prompts@) == workflow_prompts(json@),
{
    let normalized_json = normalize_workflow(json);
    let mut prompts: Vec<String> = Vec::new();
    let nodes = match normalized_json.as_object() {
        Some(o) => o,
        None => {
            assert(strs(prompts@) =~= Seq::empty());
            return prompts;
        },
    };
    let ghost es = entries_view(nodes@);
    assert(strs(prompts@) =~= prompts_in(es.take(0)));
    let mut i: usize = 0;
    while i < nodes.len()
        invariant
            i <= nodes@.len(),
            es == entries_view(nodes@),
            strs(prompts@) == prompts_in(es.take(i as int)),
        decreases nodes@.len() - i,
    {
        assert(es.take(i + 1).drop_last() =~= es.take(i as int));
        assert(es.take(i + 1).last().1 == nodes@[i as int].1@);
        let node = &nodes[i].1;
        i += 1;
        let class_type = match node.get("class_type") {
            Some(v) => match v.as_str() {
                Some(s) => s,
                None => continue,
            },
            None => continue,
        };
        if !is_text_encode_node(class_type.as_str()) {
            continue;
        }
        let inputs = match node.get("inputs") {
            Some(v) => match v.as_object() {
                Some(o) => o,
                None => continue,
            },
            None => continue,
        };
        add_node_field_texts(&mut prompts, inputs);
    }
    assert(es.take(es.len() as int) =~= es);
    prompts
}

/// The texts of `list` joined by `sep`.
pub open spec fn join(list: Seq<Seq<char>>, sep: Seq<char>) -> Seq<char>
    decreases list.len(),
{
    if list.len() == 0 {
        Seq::empty()
    } else if list.len() == 1 {
        list[0]
    } else {
        join(list.drop_last(), sep) + sep + list.last()
    }
}

/// The strings of `list` joined by `sep`.
pub fn join_strings(list: &Vec<String>, sep: &str) -> (r: String)
    ensures
        r@ == join(strs(list@), sep@),
{
    let mut r = String::new();
    let ghost l = strs(list@);
    let mut i: usize = 0;
    assert(r@ =~= join(l.take(0), sep@));
    while i < list.len()
        invariant
            i <= list@.len(),
            l == strs(list@),
            r@ == join(l.take(i as int), sep@),
        decreases list@.len() - i,
    {
        assert(l.take(i + 1).drop_last() =~= l.take(i as int));
        if i != 0 {
            r.append(sep);
        } else {
            assert(l.take(1) =~= seq![l[0]]);
        }
        r.append(list[i].as_str());
        i += 1;
    }
    assert(l.take(l.len() as int) =~= l);
    r
}

/// The joined texts of a node's text inputs, when it has any.
pub open spec fn node_text(node: Json) -> Option<Seq<char>> {
    match get_object(node, "inputs"@) {
        None => None,
        Some(inputs) => {
            let parts = add_node_texts(Seq::empty(), inputs);
            if parts.len() == 0 {
                None
            } else {
                Some(join(parts, "\n"@))
            }
        },
    }
}

/// The distinct texts of a node's text inputs, joined by new lines.
fn extract_text_from_node(node: &JsonValue) -> (r: Option<String>)
    ensures
        opt_str(r) == node_text(node@),
{
    let inputs = match node.get("inputs") {
        Some(v) => match v.as_object() {
            Some(o) => o,
            None => return None,
        },
        None => return None,
    };
    let mut parts: Vec<String> = Vec::new();
    assert(strs(parts@) =~= Seq::empty());
    add_node_field_texts(&mut parts, inputs);
    if parts.len() == 0 {
        None
    } else {
        Some(join_strings(&parts, "\n"))
    }
}

// ---------------------------------------------------------------------------------------------
// Model and LoRAs.
// ---------------------------------------------------------------------------------------------
/// The non-empty text of a node's input `field`.
pub open spec fn field_model(node: Json, field: Seq<char>) -> Option<Seq<char>> {
    match get(node, "inputs"@) {
        None => None,
        Some(inputs) => non_empty_opt(value_text_opt(get(inputs, field))),
    }
}

/// The first model name found in input `field`, among loader nodes only or among all nodes.
pub open spec fn model_scan(nodes: Seq<(Seq<char>, Json)>, field: Seq<char>, loaders: bool) -> Option<
    Seq<char>,
>
    decreases nodes.len(),
{
    if nodes.len() == 0 {
        None
    } else {
        let node = nodes[0].1;
        if (!loaders || is_generation_model(class_or_empty(node))) && field_model(node, field) is Some {
            field_model(node, field)
        } else {
            model_scan(nodes.drop_first(), field, loaders)
        }
    }
}

/// The model of a workflow: `ckpt_name`, then `unet_name`, of a loader node; else of any node.
pub open spec fn model_of(json: Json) -> Option<Seq<char>> {
    match as_object(json) {
        None => None,
        Some(nodes) => if model_scan(nodes, "ckpt_name"@, true) is Some {
            model_scan(nodes, "ckpt_name"@, true)
        } else if model_scan(nodes, "unet_name"@, true) is Some {
            model_scan(nodes, "unet_name"@, true)
        } else if model_scan(nodes, "ckpt_name"@, false) is Some {
            model_scan(nodes, "ckpt_name"@, false)
        } else {
            model_scan(nodes, "unet_name"@, false)
        },
    }
}

/// The non-empty text of a node's input `field`.
fn field_model_of(node: &JsonValue, field: &str) -> (r: Option<String>)
    ensures
        opt_str(r) == field_model(node@, field@),
{
    match node.get("inputs") {
        Some(inputs) => match get_text(inputs, field) {
            Some(t) => non_empty(t.as_str()),
            None => None,
        },
        None => None,
    }
}

fn scan_model(nodes: &Vec<(String, JsonValue)>, field: &str, loaders: bool) -> (r: Option<String>)
    ensures
        opt_str(r) == model_scan(entries_view(nodes@), field@, loaders),
{
    let ghost es = entries_view(nodes@);
    let mut i: usize = 0;
    assert(es.skip(0) =~= es);
    while i < nodes.len()
        invariant
            i <= nodes@.len(),
            es == entries_view(nodes@),
            model_scan(es, field@, loaders) == model_scan(es.skip(i as int), field@, loaders),
        decreases nodes@.len() - i,
    {
        assert(es.skip(i as int).drop_first() =~= es.skip(i + 1));
        assert(es.skip(i as int)[0].1 == nodes@[i as int].1@);
        let node = &nodes[i].1;
        let eligible = if loaders {
            let ct = class_type_of(node);
            is_generation_model_node(ct.as_str())
        } else {
            true
        };
        if eligible {
            if let Some(model) = field_model_of(node, field) {
                return Some(model);
            }
        }
        i += 1;
    }
    None
}

/// The model file of a workflow in API form.
fn extract_model(json: &JsonValue) -> (r: Option<String>)
    ensures
        opt_str(r) == model_of(json@),
{
    let nodes = match json.as_object() {
        Some(o) => o,
        None => return None,
    };
    if let Some(m) = scan_model(nodes, "ckpt_name", true) {
        return Some(m);
    }
    if let Some(m) = scan_model(nodes, "unet_name", true) {
        return Some(m);
    }
    if let Some(m) = scan_model(nodes, "ckpt_name", false) {
        return Some(m);
    }
    scan_model(nodes, "unet_name", false)
}

/// The weight text, or "1" when there is none.
pub open spec fn weight_or_one(w: Option<Seq<char>>) -> Seq<char> {
    match w {
        Some(x) => x,
        None => "1"@,
    }
}

/// LoRAs of a stack loader: every object-valued input with a `lora` name that is not switched
/// off, weighted by its `strength` or `strength_model`.
pub open spec fn stacked_loras(acc: Seq<LoraSpec>, inputs: Seq<(Seq<char>, Json)>) -> Seq<LoraSpec>
    decreases inputs.len(),
{
    if inputs.len() == 0 {
        acc
    } else {
        let a = stacked_loras(acc, inputs.drop_last());
        let value = inputs.last().1;
        match as_object(value) {
            None => a,
            Some(_) => if as_bool_of(get(value, "on"@)) == Some(false) {
                a
            } else {
                match non_empty_opt(value_text_opt(get(value, "lora"@))) {
                    None => a,
                    Some(name) => {
                        let w = match value_text_opt(get(value, "strength"@)) {
                            Some(x) => Some(x),
                            None => value_text_opt(get(value, "strength_model"@)),
                        };
                        add_lora(a, name, weight_or_one(w))
                    },
                }
            },
        }
    }
}

/// `as_bool` inside an option.
pub open spec fn as_bool_of(o: Option<Json>) -> Option<bool> {
    match o {
        Some(v) => as_bool(v),
        None => None,
    }
}

/// LoRAs of a node's inputs: its `lora_name` with model and clip strengths, then its stack.
pub open spec fn node_loras(acc: Seq<LoraSpec>, inputs: Seq<(Seq<char>, Json)>) -> Seq<LoraSpec> {
    let a = match non_empty_opt(value_text_opt(entry_get(inputs, "lora_name"@))) {
        Some(name) => add_lora(
            acc,
            name,
            weight_or_one(
                lora_weight(
                    value_text_opt(entry_get(inputs, "strength_model"@)),
                    value_text_opt(entry_get(inputs, "strength_clip"@)),
                ),
            ),
        ),
        None => acc,
    };
    stacked_loras(a, inputs)
}

/// The distinct LoRAs of all nodes whose class type mentions "lora" in any case.
pub open spec fn loras_in(nodes: Seq<(Seq<char>, Json)>) -> Seq<LoraSpec>
    decreases nodes.len(),
{
    if nodes.len() == 0 {
        Seq::empty()
    } else {
        let acc = loras_in(nodes.drop_last());
        let node = nodes.last().1;
        if !contains(str_lowercase(class_or_empty(node)), "lora"@) {
            acc
        } else {
            match get_object(node, "inputs"@) {
                None => acc,
                Some(inputs) => node_loras(acc, inputs),
            }
        }
    }
}

/// The LoRAs of a workflow in API form.
pub open spec fn loras_of(json: Json) -> Seq<LoraSpec> {
    match as_object(json) {
        None => Seq::empty(),
        Some(nodes) => loras_in(nodes),
    }
}

/// The text of `v[key]` for an optional object `v`.
fn text_at(v: &JsonValue, key: &str) -> (r: Option<String>)
    ensures
        opt_str(r) == value_text_opt(get(v@, key@)),
{
    get_text(v, key)
}

fn add_stacked_loras(loras: &mut Vec<LoraInfo>, inputs: &Vec<(String, JsonValue)>)
    ensures
        loras_view(final(loras)@) == stacked_loras(loras_view(old(loras)@), entries_view(inputs@)),
{
    let ghost es = entries_view(inputs@);
    let ghost start = loras_view(loras@);
    let mut i: usize = 0;
    assert(stacked_loras(start, es.take(0)) == start);
    while i < inputs.len()
        invariant
            i <= inputs@.len(),
            es == entries_view(inputs@),
            loras_view(loras@) == stacked_loras(start, es.take(i as int)),
        decreases inputs@.len() - i,
    {
        assert(es.take(i + 1).drop_last() =~= es.take(i as int));
        assert(es.take(i + 1).last().1 == inputs@[i as int].1@);
        let value = &inputs[i].1;
        i += 1;
        if value.as_object().is_none() {
            continue;
        }
        let on = match value.get("on") {
            Some(v) => v.as_bool(),
            None => None,
        };
        if on == Some(false) {
            continue;
        }
        let name = match text_at(value, "lora") {
            Some(t) => match non_empty(t.as_str()) {
                Some(n) => n,
                None => continue,
            },
            None => continue,
        };
        let weight = match text_at(value, "strength") {
            Some(w) => w,
            None => match text_at(value, "strength_model") {
                Some(w) => w,
                None => copy_str("1"),
            },
        };
        push_lora(loras, name, weight);
    }
    assert(es.take(es.len() as int) =~= es);
}

fn entry_text(inputs: &Vec<(String, JsonValue)>, key: &str) -> (r: Option<String>)
    ensures
        opt_str(r) == value_text_opt(entry_get(entries_view(inputs@), key@)),
{
    match entries_get(inputs, key) {
        Some(v) => value_to_string(v),
        None => None,
    }
}

fn add_node_loras(loras: &mut Vec<LoraInfo>, inputs: &Vec<(String, JsonValue)>)
    ensures
        loras_view(final(loras)@) == node_loras(loras_view(old(loras)@), entries_view(inputs@)),
{
    let name = match entry_text(inputs, "lora_name") {
        Some(t) => non_empty(t.as_str()),
        None => None,
    };
    if let Some(name) = name {
        let model_weight = entry_text(inputs, "strength_model");
        let clip_weight = entry_text(inputs, "strength_clip");
        let mw: Option<&str> = match &model_weight {
            Some(w) => Some(w.as_str()),
            None => None,
        };
        let cw: Option<&str> = match &clip_weight {
            Some(w) => Some(w.as_str()),
            None => None,
        };
        let weight = match format_lora_weight(mw, cw) {
            Some(w) => w,
            None => copy_str("1"),
        };
        push_lora(loras, name, weight);
    }
    add_stacked_loras(loras, inputs);
}

/// The distinct LoRAs of a workflow in API form.
fn extract_loras(json: &JsonValue) -> (loras: Vec<LoraInfo>)
    ensures
        loras_view(loras@) == loras_of(json@),
{
    let mut loras: Vec<LoraInfo> = Vec::new();
    let nodes = match json.as_object() {
        Some(o) => o,
        None => {
            assert(loras_view(loras@) =~= Seq::empty());
            return loras;
        },
    };
    let ghost es = entries_view(nodes@);
    assert(loras_view(loras@) =~= loras_in(es.take(0)));
    let mut i: usize = 0;
    while i < nodes.len()
        invariant
            i <= nodes@.len(),
            es == entries_view(nodes@),
            loras_view(loras@) == loras_in(es.take(i as int)),
        decreases nodes@.len() - i,
    {
        assert(es.take(i + 1).drop_last() =~= es.take(i as int));
        assert(es.take(i + 1).last().1 == nodes@[i as int].1@);
        let node = &nodes[i].1;
        i += 1;
        let class_type = class_type_of(node);
        let lower = lowercase_str(class_type.as_str());
        if !contains_str(lower.as_str(), "lora") {
            continue;
        }
        let inputs = match node.get("inputs") {
            Some(v) => match v.as_object() {
                Some(o) => o,
                None => continue,
            },
            None => continue,
        };
        add_node_loras(&mut loras, inputs);
    }
    assert(es.take(es.len() as int) =~= es);
    loras
}


// ---------------------------------------------------------------------------------------------
// Tracing sampler conditioning back to prompt text.
// ---------------------------------------------------------------------------------------------
/// Which conditioning input of a sampler a trace follows.
#[derive(Clone, Copy, Debug, PartialEq, Eq, Structural)]
pub enum PromptRole {
    Positive,
    Negative,
}

/// The input name that carries conditioning of the given role.
pub open spec fn role_field(role: PromptRole) -> Seq<char> {
    match role {
        PromptRole::Positive => "positive"@,
        PromptRole::Negative => "negative"@,
    }
}

/// The keys of an object.
pub open spec fn node_keys(nodes: Seq<(Seq<char>, Json)>) -> Set<Seq<char>> {
    nodes.map_values(|e: (Seq<char>, Json)| e.0).to_set()
}

/// The node id referenced by the input `field`.
pub open spec fn ref_at(inputs: Seq<(Seq<char>, Json)>, field: Seq<char>) -> Option<Seq<char>> {
    match entry_get(inputs, field) {
        Some(v) => ref_id(v),
        None => None,
    }
}

proof fn lemma_entry_get_index(es: Seq<(Seq<char>, Json)>, key: Seq<char>) -> (i: int)
    requires
        entry_get(es, key) is Some,
    ensures
        0 <= i < es.len(),
        es[i].0 == key,
    decreases es.len(),
{
    if es[0].0 == key {
        0
    } else {
        let j = lemma_entry_get_index(es.drop_first(), key);
        j + 1
    }
}

pub proof fn lemma_entry_get_key(es: Seq<(Seq<char>, Json)>, key: Seq<char>)
    requires
        entry_get(es, key) is Some,
    ensures
        node_keys(es).contains(key),
{
    let i = lemma_entry_get_index(es, key);
    let ks = es.map_values(|e: (Seq<char>, Json)| e.0);
    assert(ks[i] == key);
    assert(ks.contains(key));
}

pub proof fn lemma_measure_drop(
    nodes: Seq<(Seq<char>, Json)>,
    id: Seq<char>,
    visited: Set<Seq<char>>,
    later: Set<Seq<char>>,
)
    requires
        entry_get(nodes, id) is Some,
        !visited.contains(id),
        visited.insert(id).subset_of(later),
    ensures
        node_keys(nodes).difference(later).len() < node_keys(nodes).difference(visited).len(),
{
    lemma_entry_get_key(nodes, id);
    let k = node_keys(nodes);
    let a = k.difference(visited);
    let b = k.difference(later);
    vstd::seq_lib::seq_to_set_is_finite(nodes.map_values(|e: (Seq<char>, Json)| e.0));
    vstd::set_lib::lemma_len_subset(a, k);
    assert(b.subset_of(a.remove(id)));
    vstd::set::axiom_set_remove_finite(a, id);
    vstd::set_lib::lemma_len_subset(b, a.remove(id));
    vstd::set::axiom_set_remove_len(a, id);
}

/// The prompt text that conditioning node `id` carries, traced through `role`, `conditioning`
/// and `cond` inputs; `visited` holds the ids seen so far, and the result holds them after.
/// Zero-out nodes carry none; a text-encode node carries its own text.
pub open spec fn resolve_cond(
    nodes: Seq<(Seq<char>, Json)>,
    id: Seq<char>,
    role: PromptRole,
    visited: Set<Seq<char>>,
) -> (Option<Seq<char>>, Set<Seq<char>>)
    decreases node_keys(nodes).difference(visited).len(),
{
    if visited.contains(id) {
        (None, visited)
    } else {
        let v1 = visited.insert(id);
        match entry_get(nodes, id) {
            None => (None, v1),
            Some(node) => {
                let ct = class_or_empty(node);
                if contains(ct, "ZeroOut"@) {
                    (None, v1)
                } else if is_text_encode(ct) && node_text(node) is Some {
                    (node_text(node), v1)
                } else {
                    match get_object(node, "inputs"@) {
                        None => (None, v1),
                        Some(inputs) => {
                            proof {
                                lemma_measure_drop(nodes, id, visited, v1);
                            }
                            let (r1, w1) = match ref_at(inputs, role_field(role)) {
                                Some(n) => resolve_cond(nodes, n, role, v1),
                                None => (None, v1),
                            };
                            if r1 is Some {
                                (r1, w1)
                            } else {
                                proof {
                                    lemma_measure_drop(nodes, id, visited, w1.union(v1));
                                }
                                let (r2, w2) = match ref_at(inputs, "conditioning"@) {
                                    Some(n) => resolve_cond(nodes, n, role, w1.union(v1)),
                                    None => (None, w1),
                                };
                                if r2 is Some {
                                    (r2, w2)
                                } else {
                                    proof {
                                        lemma_measure_drop(nodes, id, visited, w2.union(v1));
                                    }
                                    match ref_at(inputs, "cond"@) {
                                        Some(n) => resolve_cond(nodes, n, role, w2.union(v1)),
                                        None => (None, w2),
                                    }
                                }
                            }
                        },
                    }
                }
            },
        }
    }
}

/// The set of texts in a list of strings.
pub open spec fn str_set(v: Seq<String>) -> Set<Seq<char>> {
    Set::new(|s: Seq<char>| exists|i: int| 0 <= i < v.len() && v[i]@ == s)
}

fn listed(v: &Vec<String>, s: &str) -> (r: bool)
    ensures
        r == str_set(v@).contains(s@),
{
    let mut i: usize = 0;
    while i < v.len()
        invariant
            i <= v@.len(),
            forall|j: int| 0 <= j < i ==> v@[j]@ != s@,
        decreases v@.len() - i,
    {
        if str_equal(v[i].as_str(), s) {
            return true;
        }
        i += 1;
    }
    false
}

fn ref_in(inputs: &Vec<(String, JsonValue)>, field: &str) -> (r: Option<String>)
    ensures
        opt_str(r) == ref_at(entries_view(inputs@), field@),
{
    match entries_get(inputs, field) {
        Some(v) => ref_node_id(v),
        None => None,
    }
}

fn role_name(role: PromptRole) -> (r: &'static str)
    ensures
        r@ == role_field(role),
{
    match role {
        PromptRole::Positive => "positive",
        PromptRole::Negative => "negative",
    }
}

fn resolve_conditioning_text_inner(
    nodes: &Vec<(String, JsonValue)>,
    node_id: &str,
    role: PromptRole,
    visited: &mut Vec<String>,
) -> (r: Option<String>)
    ensures
        opt_str(r) == resolve_cond(entries_view(nodes@), node_id@, role, str_set(old(visited)@)).0,
        str_set(final(visited)@) == resolve_cond(
            entries_view(nodes@),
            node_id@,
            role,
            str_set(old(visited)@),
        ).1,
        str_set(old(visited)@).subset_of(str_set(final(visited)@)),
    decreases node_keys(entries_view(nodes@)).difference(str_set(old(visited)@)).len(),
{
    let ghost es = entries_view(nodes@);
    let ghost start = str_set(visited@);
    if listed(visited, node_id) {
        return None;
    }
    let ghost v1 = start.insert(node_id@);
    visited.push(copy_str(node_id));
    assert(str_set(visited@) =~= v1) by {
        assert forall|s: Seq<char>| v1.contains(s) implies str_set(visited@).contains(s) by {
            if s == node_id@ {
                assert(visited@[visited@.len() - 1]@ == s);
            } else {
                let i = choose|i: int| 0 <= i < old(visited)@.len() && old(visited)@[i]@ == s;
                assert(visited@[i]@ == s);
            }
        }
        assert forall|s: Seq<char>| str_set(visited@).contains(s) implies v1.contains(s) by {
            let i = choose|i: int| 0 <= i < visited@.len() && visited@[i]@ == s;
            if i < old(visited)@.len() {
                assert(old(visited)@[i]@ == s);
            }
        }
    }
    let node = match entries_get(nodes, node_id) {
        Some(n) => n,
        None => return None,
    };
    let class_type = class_type_of(node);
    if contains_str(class_type.as_str(), "ZeroOut") {
        return None;
    }
    if is_text_encode_node(class_type.as_str()) {
        if let Some(text) = extract_text_from_node(node) {
            return Some(text);
        }
    }
    let inputs = match node.get("inputs") {
        Some(v) => match v.as_object() {
            Some(o) => o,
            None => return None,
        },
        None => return None,
    };
    proof {
        lemma_measure_drop(es, node_id@, start, v1);
    }
    let ghost w0 = str_set(visited@);
    let first = match ref_in(inputs, role_name(role)) {
        Some(next_id) => resolve_conditioning_text_inner(nodes, next_id.as_str(), role, visited),
        None => None,
    };
    if first.is_some() {
        return first;
    }
    let ghost w1 = str_set(visited@);
    proof {
        assert(w1.union(v1) =~= w1);
        lemma_measure_drop(es, node_id@, start, w1);
    }
    let second = match ref_in(inputs, "conditioning") {
        Some(next_id) => resolve_conditioning_text_inner(nodes, next_id.as_str(), role, visited),
        None => None,
    };
    if second.is_some() {
        return second;
    }
    let ghost w2 = str_set(visited@);
    proof {
        assert(w2.union(v1) =~= w2);
        lemma_measure_drop(es, node_id@, start, w2);
    }
    match ref_in(inputs, "cond") {
        Some(next_id) => resolve_conditioning_text_inner(nodes, next_id.as_str(), role, visited),
        None => None,
    }
}

/// The prompt text that conditioning node `node_id` carries for the given role.
fn resolve_conditioning_text(nodes: &Vec<(String, JsonValue)>, node_id: &str, role: PromptRole) -> (r:
    Option<String>)
    ensures
        opt_str(r) == resolve_cond(entries_view(nodes@), node_id@, role, Set::empty()).0,
{
    let mut visited: Vec<String> = Vec::new();
    assert(str_set(visited@) =~= Set::<Seq<char>>::empty());
    resolve_conditioning_text_inner(nodes, node_id, role, &mut visited)
}

/// The text that a sampler's conditioning input `field` traces back to.
pub open spec fn cond_text(
    nodes: Seq<(Seq<char>, Json)>,
    inputs: Seq<(Seq<char>, Json)>,
    field: Seq<char>,
    role: PromptRole,
) -> Option<Seq<char>> {
    match ref_at(inputs, field) {
        Some(id) => resolve_cond(nodes, id, role, Set::empty()).0,
        None => None,
    }
}

/// Whether a node of this class is a sampler or a guider.
pub open spec fn is_sampling(ct: Seq<char>) -> bool {
    is_sampler(ct) || ct == "CFGGuider"@ || ct == "BasicGuider"@
}

/// Positive and negative prompt of the first sampler (or guider) among `scan` that traces
/// back to either.
pub open spec fn sampler_prompts(nodes: Seq<(Seq<char>, Json)>, scan: Seq<(Seq<char>, Json)>) -> (
    Option<Seq<char>>,
    Option<Seq<char>>,
)
    decreases scan.len(),
{
    if scan.len() == 0 {
        (None, None)
    } else {
        let node = scan[0].1;
        if !is_sampling(class_or_empty(node)) {
            sampler_prompts(nodes, scan.drop_first())
        } else {
            match get_object(node, "inputs"@) {
                None => sampler_prompts(nodes, scan.drop_first()),
                Some(inputs) => {
                    let p = cond_text(nodes, inputs, "positive"@, PromptRole::Positive);
                    let n = cond_text(nodes, inputs, "negative"@, PromptRole::Negative);
                    if p is Some || n is Some {
                        (p, n)
                    } else {
                        sampler_prompts(nodes, scan.drop_first())
                    }
                },
            }
        }
    }
}

/// The structured details of a workflow: model, LoRAs, and the sampler's prompts.
pub open spec fn details_of(json: Json) -> DetailsSpec {
    let n = normalized(json);
    match as_object(n) {
        None => DetailsSpec {
            model: None,
            loras: Seq::empty(),
            positive_prompt: None,
            negative_prompt: None,
        },
        Some(nodes) => {
            let (p, q) = sampler_prompts(nodes, nodes);
            DetailsSpec {
                model: model_of(n),
                loras: loras_of(n),
                positive_prompt: p,
                negative_prompt: q,
            }
        },
    }
}

fn cond_text_of(nodes: &Vec<(String, JsonValue)>, inputs: &Vec<(String, JsonValue)>, field: &str, role: PromptRole) -> (r: Option<String>)
    ensures
        opt_str(r) == cond_text(entries_view(nodes@), entries_view(inputs@), field@, role),
{
    match ref_in(inputs, field) {
        Some(id) => resolve_conditioning_text(nodes, id.as_str(), role),
        None => None,
    }
}

/// Extract model, LoRAs and the sampler's positive and negative prompts from a workflow.
pub fn extract_details_from_workflow(json: &JsonValue) -> (d: PromptDetails)
    ensures
        d@ == details_of(json@),
{
    let normalized_json = normalize_workflow(json);
    let nodes = match normalized_json.as_object() {
        Some(o) => o,
        None => {
            let d = PromptDetails::default();
            assert(d@ =~= details_of(json@));
            return d;
        },
    };
    let model = extract_model(&normalized_json);
    let loras = extract_loras(&normalized_json);
    let mut positive_prompt: Option<String> = None;
    let mut negative_prompt: Option<String> = None;
    let ghost es = entries_view(nodes@);
    let mut i: usize = 0;
    assert(es.skip(0) =~= es);
    while i < nodes.len()
        invariant_except_break
            positive_prompt is None,
            negative_prompt is None,
            sampler_prompts(es, es) == sampler_prompts(es, es.skip(i as int)),
        invariant
            i <= nodes@.len(),
            es == entries_view(nodes@),
        ensures
            opt_str(positive_prompt) == sampler_prompts(es, es).0,
            opt_str(negative_prompt) == sampler_prompts(es, es).1,
        decreases nodes@.len() - i,
    {
        assert(es.skip(i as int).drop_first() =~= es.skip(i + 1));
        assert(es.skip(i as int)[0].1 == nodes@[i as int].1@);
        let node = &nodes[i].1;
        i += 1;
        let class_type = class_type_of(node);
        if !is_sampler_node(class_type.as_str()) && !str_equal(class_type.as_str(), "CFGGuider")
            && !str_equal(class_type.as_str(), "BasicGuider") {
            continue;
        }
        let inputs = match node.get("inputs") {
            Some(v) => match v.as_object() {
                Some(o) => o,
                None => continue,
            },
            None => continue,
        };
        positive_prompt = cond_text_of(nodes, inputs, "positive", PromptRole::Positive);
        negative_prompt = cond_text_of(nodes, inputs, "negative", PromptRole::Negative);
        if positive_prompt.is_some() || negative_prompt.is_some() {
            break;
        }
    }
    let d = PromptDetails { model, loras, positive_prompt, negative_prompt };
    assert(d@ =~= details_of(json@));
    d
}

/// The searchable prompt of a workflow: its distinct prompt texts joined by " | ", or, when
/// there are none, its sampler's positive and negative prompts joined the same way.
pub open spec fn workflow_prompt(json: Json) -> Seq<char> {
    let n = normalized(json);
    let prompts = workflow_prompts(n);
    let d = details_of(n);
    if prompts.len() > 0 {
        join(prompts, " | "@)
    } else {
        join(opt_pair(d.positive_prompt, d.negative_prompt), " | "@)
    }
}

/// The texts that are present, in order.
pub open spec fn opt_pair(a: Option<Seq<char>>, b: Option<Seq<char>>) -> Seq<Seq<char>> {
    match (a, b) {
        (Some(x), Some(y)) => seq![x, y],
        (Some(x), None) => seq![x],
        (None, Some(y)) => seq![y],
        (None, None) => Seq::empty(),
    }
}

/// Extract searchable prompt text and structured details from a ComfyUI workflow.
pub fn extract_workflow(json: &JsonValue) -> (r: (String, PromptDetails))
    ensures
        r.0@ == workflow_prompt(json@),
        r.1@ == details_of(normalized(json@)),
{
    let normalized_json = normalize_workflow(json);
    let prompts = extract_from_workflow(&normalized_json);
    let details = extract_details_from_workflow(&normalized_json);
    let prompt = if prompts.len() > 0 {
        join_strings(&prompts, " | ")
    } else {
        let mut parts: Vec<String> = Vec::new();
        if let Some(p) = &details.positive_prompt {
            parts.push(p.clone());
        }
        if let Some(n) = &details.negative_prompt {
            parts.push(n.clone());
        }
        assert(strs(parts@) =~= opt_pair(details@.positive_prompt, details@.negative_prompt));
        join_strings(&parts, " | ")
    };
    (prompt, details)
}

// ---------------------------------------------------------------------------------------------
// Laws.
// ---------------------------------------------------------------------------------------------
/// Whether no two LoRAs in `ls` share a name.
pub open spec fn distinct_names(ls: Seq<LoraSpec>) -> bool {
    forall|i: int, j: int| 0 <= i < j < ls.len() ==> (#[trigger] ls[i]).name != (#[trigger] ls[j]).name
}

/// Adding a LoRA keeps the names distinct.
pub proof fn lemma_add_lora_distinct(ls: Seq<LoraSpec>, name: Seq<char>, weight: Seq<char>)
    requires
        distinct_names(ls),
    ensures
        distinct_names(add_lora(ls, name, weight)),
        forall|i: int| 0 <= i < ls.len() ==> add_lora(ls, name, weight)[i] == ls[i],
        add_lora(ls, name, weight).len() >= ls.len(),
{
    if !has_lora_named(ls, name) {
        let r = ls.push(LoraSpec { name, weight });
        assert forall|i: int, j: int| 0 <= i < j < r.len() implies (#[trigger] r[i]).name != (
        #[trigger] r[j]).name by {
            if j == ls.len() {
                assert(ls[i].name != name);
            }
        }
    }
}

proof fn lemma_stacked_distinct(acc: Seq<LoraSpec>, inputs: Seq<(Seq<char>, Json)>)
    requires
        distinct_names(acc),
    ensures
        distinct_names(stacked_loras(acc, inputs)),
    decreases inputs.len(),
{
    if inputs.len() > 0 {
        lemma_stacked_distinct(acc, inputs.drop_last());
        let a = stacked_loras(acc, inputs.drop_last());
        let value = inputs.last().1;
        match non_empty_opt(value_text_opt(get(value, "lora"@))) {
            Some(name) => {
                let w = match value_text_opt(get(value, "strength"@)) {
                    Some(x) => Some(x),
                    None => value_text_opt(get(value, "strength_model"@)),
                };
                lemma_add_lora_distinct(a, name, weight_or_one(w));
            },
            None => {},
        }
    }
}

proof fn lemma_loras_in_distinct(nodes: Seq<(Seq<char>, Json)>)
    ensures
        distinct_names(loras_in(nodes)),
    decreases nodes.len(),
{
    if nodes.len() > 0 {
        lemma_loras_in_distinct(nodes.drop_last());
        let acc = loras_in(nodes.drop_last());
        let node = nodes.last().1;
        match get_object(node, "inputs"@) {
            Some(inputs) => {
                let a = match non_empty_opt(value_text_opt(entry_get(inputs, "lora_name"@))) {
                    Some(name) => {
                        let w = weight_or_one(
                            lora_weight(
                                value_text_opt(entry_get(inputs, "strength_model"@)),
                                value_text_opt(entry_get(inputs, "strength_clip"@)),
                            ),
                        );
                        lemma_add_lora_distinct(acc, name, w);
                        add_lora(acc, name, w)
                    },
                    None => acc,
                };
                lemma_stacked_distinct(a, inputs);
            },
            None => {},
        }
    }
}

/// The LoRAs of a workflow never list one name twice.
pub proof fn workflow_loras_distinct(json: Json)
    ensures
        distinct_names(loras_of(json)),
        distinct_names(details_of(json).loras),
{
    if let Some(nodes) = as_object(json) {
        lemma_loras_in_distinct(nodes);
    }
    if let Some(nodes) = as_object(normalized(json)) {
        lemma_loras_in_distinct(nodes);
    }
}

/// Whether the texts are distinct and none is empty.
pub open spec fn distinct_texts(ps: Seq<Seq<char>>) -> bool {
    ps.no_duplicates() && forall|i: int| 0 <= i < ps.len() ==> (#[trigger] ps[i]).len() > 0
}

proof fn lemma_add_text_distinct(ps: Seq<Seq<char>>, t: Option<Seq<char>>)
    requires
        distinct_texts(ps),
    ensures
        distinct_texts(add_text(ps, t)),
{
    if let Some(x) = t {
        if trim(x).len() > 0 && !ps.contains(trim(x)) {
            let r = ps.push(trim(x));
            assert forall|i: int, j: int| 0 <= i < r.len() && 0 <= j < r.len() && i != j implies r[i]
                != r[j] by {
                if i == ps.len() {
                    assert(ps[j] != trim(x));
                } else if j == ps.len() {
                    assert(ps[i] != trim(x));
                }
            }
        }
    }
}

proof fn lemma_prompts_in_distinct(nodes: Seq<(Seq<char>, Json)>)
    ensures
        distinct_texts(prompts_in(nodes)),
    decreases nodes.len(),
{
    if nodes.len() > 0 {
        lemma_prompts_in_distinct(nodes.drop_last());
        let ps = prompts_in(nodes.drop_last());
        if let Some(inputs) = get_object(nodes.last().1, "inputs"@) {
            let a = add_text(ps, field_text(inputs, "text_g"@));
            let b = add_text(a, field_text(inputs, "text_l"@));
            let c = add_text(b, field_text(inputs, "text"@));
            lemma_add_text_distinct(ps, field_text(inputs, "text_g"@));
            lemma_add_text_distinct(a, field_text(inputs, "text_l"@));
            lemma_add_text_distinct(b, field_text(inputs, "text"@));
            lemma_add_text_distinct(c, field_text(inputs, "prompt"@));
        }
    } else {
        assert(prompts_in(nodes) =~= Seq::<Seq<char>>::empty());
    }
}

/// The prompt texts of a workflow are distinct and none is empty: a text that several nodes
/// encode is listed once.
pub proof fn workflow_prompts_distinct(json: Json)
    ensures
        distinct_texts(workflow_prompts(json)),
{
    if let Some(nodes) = as_object(normalized(json)) {
        lemma_prompts_in_distinct(nodes);
    }
}

/// Whether every entry is a node, that is, has a `class_type`.
pub open spec fn all_nodes(es: Seq<(Seq<char>, Json)>) -> bool {
    forall|i: int| 0 <= i < es.len() ==> is_api_node(#[trigger] es[i])
}

proof fn lemma_insert_node(es: Seq<(Seq<char>, Json)>, key: Seq<char>, value: Json)
    requires
        keys_increasing(es),
        all_nodes(es),
        is_api_node((key, value)),
    ensures
        keys_increasing(entry_insert(es, key, value)),
        all_nodes(entry_insert(es, key, value)),
{
    lemma_entry_insert_sorted(es, key, value);
    let r = entry_insert(es, key, value);
    assert forall|i: int| 0 <= i < r.len() implies is_api_node(#[trigger] r[i]) by {
        if r[i] != (key, value) {
            assert(es.contains(r[i]));
            let m = choose|m: int| 0 <= m < es.len() && es[m] == r[i];
            assert(is_api_node(es[m]));
        }
    }
}

proof fn lemma_api_collect_sorted(es: Seq<(Seq<char>, Json)>)
    ensures
        keys_increasing(api_collect(es)),
        all_nodes(api_collect(es)),
    decreases es.len(),
{
    if es.len() > 0 {
        lemma_api_collect_sorted(es.drop_last());
        if is_api_node(es.last()) {
            lemma_insert_node(api_collect(es.drop_last()), es.last().0, es.last().1);
        }
    }
}

proof fn lemma_api_collect_fixed(es: Seq<(Seq<char>, Json)>)
    requires
        keys_increasing(es),
        all_nodes(es),
    ensures
        api_collect(es) == es,
    decreases es.len(),
{
    if es.len() > 0 {
        let t = es.drop_last();
        assert forall|i: int, j: int| 0 <= i < j < t.len() implies crate::json::key_lt(
            #[trigger] t[i].0,
            #[trigger] t[j].0,
        ) by {
            assert(t[i] == es[i] && t[j] == es[j]);
        }
        assert forall|i: int| 0 <= i < t.len() implies is_api_node(#[trigger] t[i]) by {
            assert(t[i] == es[i]);
        }
        lemma_api_collect_fixed(t);
        assert(is_api_node(es[es.len() - 1]));
        assert forall|i: int| 0 <= i < t.len() implies crate::json::key_lt(
            #[trigger] t[i].0,
            es.last().0,
        ) by {
            assert(t[i] == es[i]);
        }
        lemma_entry_insert_last(t, es.last().0, es.last().1);
        assert(t.push(es.last()) =~= es);
    }
}

/// A UI node in API form is a node: it has its class type.
proof fn lemma_ui_node_entry(node: Json, links: Option<Seq<Json>>)
    ensures
        ui_node_entry(node, links) matches Some(e) ==> is_api_node(e),
{
    if let Some((id, n)) = ui_node_entry(node, links) {
        let ct = ui_node_type(node)->0;
        let linked = match get_array(node, "inputs"@) {
            Some(ins) => linked_inputs(ins, links),
            None => Seq::empty(),
        };
        let inputs = widgets_applied(ct, get(node, "widgets_values"@), linked);
        let inner = entry_insert(Seq::empty(), "class_type"@, Json::Str(ct));
        reveal_strlit("class_type");
        reveal_strlit("inputs");
        assert("class_type"@ != "inputs"@) by {
            assert("class_type"@[0] != "inputs"@[0]);
        }
        entry_insert_then_get(Seq::empty(), "class_type"@, Json::Str(ct), "inputs"@);
        entry_insert_then_get(inner, "inputs"@, Json::Object(inputs), "class_type"@);
    }
}

proof fn lemma_ui_nodes_sorted(nodes: Seq<Json>, links: Option<Seq<Json>>)
    ensures
        keys_increasing(ui_nodes(nodes, links)),
        all_nodes(ui_nodes(nodes, links)),
    decreases nodes.len(),
{
    if nodes.len() > 0 {
        lemma_ui_nodes_sorted(nodes.drop_last(), links);
        let acc = ui_nodes(nodes.drop_last(), links);
        lemma_ui_node_entry(nodes.last(), links);
        if let Some((id, n)) = ui_node_entry(nodes.last(), links) {
            lemma_insert_node(acc, id, n);
        }
    }
}

proof fn lemma_api_object_normal(api: Seq<(Seq<char>, Json)>)
    requires
        api.len() > 0,
        keys_increasing(api),
        all_nodes(api),
    ensures
        normalized(Json::Object(api)) == Json::Object(api),
{
    lemma_api_collect_fixed(api);
}

/// Normalizing a workflow is idempotent: a workflow in API form is its own normal form, so
/// normalizing twice gives what normalizing once gives.
pub proof fn normalize_idempotent(json: Json)
    ensures
        normalized(normalized(json)) == normalized(json),
{
    match api_nodes(json) {
        Some(api) => {
            lemma_api_collect_sorted(as_object(json)->0);
            lemma_api_object_normal(api);
        },
        None => {
            let from_prompt = match get(json, "prompt"@) {
                Some(p) => match api_nodes(p) {
                    Some(api) => Some(Json::Object(api)),
                    None => ui_to_api(p),
                },
                None => None,
            };
            if let Some(p) = get(json, "prompt"@) {
                if let Some(api) = api_nodes(p) {
                    lemma_api_collect_sorted(as_object(p)->0);
                    lemma_api_object_normal(api);
                } else if let Some(nodes) = get_array(p, "nodes"@) {
                    lemma_ui_nodes_sorted(nodes, get_array(p, "links"@));
                    let api = ui_nodes(nodes, get_array(p, "links"@));
                    if api.len() > 0 {
                        lemma_api_object_normal(api);
                    }
                }
            }
            if from_prompt is None {
                if let Some(nodes) = get_array(json, "nodes"@) {
                    lemma_ui_nodes_sorted(nodes, get_array(json, "links"@));
                    let api = ui_nodes(nodes, get_array(json, "links"@));
                    if api.len() > 0 {
                        lemma_api_object_normal(api);
                    }
                }
            }
        },
    }
}

/// What normalizing gives: the workflow itself, or a non-empty object whose entries are nodes
/// (each has a `class_type`), with keys in increasing order.
pub proof fn normalize_shape(json: Json)
    ensures
        normalized(json) == json || (normalized(json) matches Json::Object(es) && es.len() > 0
            && all_nodes(es) && keys_increasing(es)),
{
    match api_nodes(json) {
        Some(api) => {
            lemma_api_collect_sorted(as_object(json)->0);
        },
        None => {
            if let Some(p) = get(json, "prompt"@) {
                if let Some(api) = api_nodes(p) {
                    lemma_api_collect_sorted(as_object(p)->0);
                } else if let Some(nodes) = get_array(p, "nodes"@) {
                    lemma_ui_nodes_sorted(nodes, get_array(p, "links"@));
                }
            }
            if let Some(nodes) = get_array(json, "nodes"@) {
                lemma_ui_nodes_sorted(nodes, get_array(json, "links"@));
            }
        },
    }
}

/// A conditioning node that neither encodes text nor zeroes conditioning passes its input
/// named after the role (`positive` or `negative`) through: when that input links to a
/// text-encode node with text `text`, the text traced for the role from the node is `text`.
pub proof fn conditioning_follows_role_input(
    nodes: Seq<(Seq<char>, Json)>,
    id: Seq<char>,
    role: PromptRole,
    visited: Set<Seq<char>>,
    next: Seq<char>,
    text: Seq<char>,
)
    requires
        !visited.contains(id),
        !visited.contains(next),
        next != id,
        entry_get(nodes, id) matches Some(node) && {
            let ct = class_or_empty(node);
            &&& !contains(ct, "ZeroOut"@)
            &&& !is_text_encode(ct)
            &&& get_object(node, "inputs"@) matches Some(inputs) && ref_at(
                inputs,
                match role {
                    PromptRole::Positive => "positive"@,
                    PromptRole::Negative => "negative"@,
                },
            ) == Some(next)
        },
        entry_get(nodes, next) matches Some(enc) && {
            let ct = class_or_empty(enc);
            &&& !contains(ct, "ZeroOut"@)
            &&& is_text_encode(ct)
            &&& node_text(enc) == Some(text)
        },
    ensures
        resolve_cond(nodes, id, role, visited).0 == Some(text),
{
    let v1 = visited.insert(id);
    assert(role_field(role) == match role {
        PromptRole::Positive => "positive"@,
        PromptRole::Negative => "negative"@,
    });
    assert(!v1.contains(next));
    assert(resolve_cond(nodes, next, role, v1).0 == Some(text));
}

} // verus!
