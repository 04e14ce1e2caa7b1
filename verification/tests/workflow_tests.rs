use game_engine::json::{parse_json, Json};
use game_engine::workflow::{
    inject_prompt, is_api_format, json_file_stem, validate_api_workflow, workflow_file_name,
    workflow_names,
};

fn s(text: &str) -> Json {
    Json::Str(text.to_string())
}

fn obj(members: Vec<(&str, Json)>) -> Json {
    Json::Object(members.into_iter().map(|(k, v)| (k.to_string(), v)).collect())
}

fn node(class_type: &str, inputs: Json) -> Json {
    obj(vec![("class_type", s(class_type)), ("inputs", inputs)])
}

fn text_of(w: &Json, node_id: &str, key: &str) -> Option<String> {
    let inputs = w.get(node_id)?.get("inputs")?;
    inputs.get(key)?.as_str().cloned()
}

#[test]
fn workflow_file_name_appends_json_once() {
    assert_eq!(workflow_file_name("sprite"), "sprite.json");
    assert_eq!(workflow_file_name("sprite.json"), "sprite.json");
    assert_eq!(workflow_file_name(workflow_file_name("a.b").as_str()), "a.b.json");
    assert_eq!(workflow_file_name(""), ".json");
}

#[test]
fn json_file_stem_follows_path_rules() {
    assert_eq!(json_file_stem("my_sprite_workflow.json"), Some("my_sprite_workflow".to_string()));
    assert_eq!(json_file_stem("a.b.json"), Some("a.b".to_string()));
    assert_eq!(json_file_stem("..json"), Some(".".to_string()));
    assert_eq!(json_file_stem(".json"), None);
    assert_eq!(json_file_stem("json"), None);
    assert_eq!(json_file_stem("notes.txt"), None);
    assert_eq!(json_file_stem("data.JSON"), None);
    assert_eq!(json_file_stem("x.json.bak"), None);
}

#[test]
fn workflow_names_sorted_json_stems() {
    let files: Vec<String> = ["zeta.json", "README.md", "alpha.json", "Beta.json", ".json", "alpha.json.txt", "ä.json"]
        .iter()
        .map(|n| n.to_string())
        .collect();
    let names = workflow_names(&files);
    assert_eq!(names, vec!["Beta", "alpha", "zeta", "ä"]);
    let mut sorted = names.clone();
    sorted.sort();
    assert_eq!(names, sorted);
    assert!(workflow_names(&Vec::new()).is_empty());
}

#[test]
fn api_format_detection() {
    let api = obj(vec![("3", node("KSampler", obj(vec![]))), ("4", node("CLIPTextEncode", obj(vec![])))]);
    assert!(is_api_format(&api));
    let web = obj(vec![("links", Json::Array(vec![])), ("nodes", Json::Array(vec![]))]);
    assert!(!is_api_format(&web));
    // Members named extra, version or config are skipped.
    let skipped = obj(vec![("config", node("X", obj(vec![]))), ("extra", obj(vec![]))]);
    assert!(!is_api_format(&skipped));
    // The first deciding member wins: "nodes" before any node definition.
    let nodes_first = obj(vec![("nodes", Json::Null), ("z", node("X", obj(vec![])))]);
    assert!(!is_api_format(&nodes_first));
    let node_first = obj(vec![("a", node("X", obj(vec![]))), ("nodes", Json::Null)]);
    assert!(is_api_format(&node_first));
    assert!(!is_api_format(&Json::Array(vec![])));
    assert!(!is_api_format(&obj(vec![])));
}

#[test]
fn validate_rejects_subgraph_nodes() {
    let ok = obj(vec![("1", node("KSampler", obj(vec![]))), ("2", node("a-b-c-d", obj(vec![])))]);
    assert!(validate_api_workflow(&ok).is_ok());
    let uuid = "7b34ab90-36f9-45ba-a665-71d418f0df18";
    let bad = obj(vec![("1", node("KSampler", obj(vec![]))), ("9", node(uuid, obj(vec![]))), ("10", node(uuid, obj(vec![])))]);
    match validate_api_workflow(&bad) {
        Err(n) => {
            assert_eq!(n.node_id, "9");
            assert_eq!(n.class_type, uuid);
        }
        Ok(()) => panic!("subgraph node not found"),
    }
    // 36 bytes but five hyphens.
    let other = obj(vec![("1", node("7b34ab90-36f9-45ba-a665-71d418f0-f18", obj(vec![])))]);
    assert!(validate_api_workflow(&other).is_ok());
    assert!(validate_api_workflow(&Json::Null).is_ok());
}

#[test]
fn inject_prompt_fills_positive_text_node() {
    let mut w = obj(vec![
        ("6", node("CLIPTextEncode", obj(vec![("text", s("ugly, blurry")), ("clip", Json::Null)]))),
        ("7", node("CLIPTextEncode", obj(vec![("text", s("a knight")), ("clip", Json::Null)]))),
        ("8", node("CLIPTextEncode", obj(vec![("text", s("a castle"))]))),
    ]);
    inject_prompt(&mut w, "a red dragon");
    assert_eq!(text_of(&w, "6", "text"), Some("ugly, blurry".to_string()));
    assert_eq!(text_of(&w, "7", "text"), Some("a red dragon".to_string()));
    assert_eq!(text_of(&w, "8", "text"), Some("a castle".to_string()));
}

#[test]
fn inject_prompt_adds_missing_text() {
    let mut w = obj(vec![("5", node("CLIPTextEncode", obj(vec![("clip", Json::Null)])))]);
    inject_prompt(&mut w, "hero");
    assert_eq!(text_of(&w, "5", "text"), Some("hero".to_string()));
}

#[test]
fn inject_prompt_falls_back_to_string_node() {
    let mut w = obj(vec![
        ("1", node("CLIPTextEncode", obj(vec![("text", s("worst quality"))]))),
        ("2", node("PrimitiveString", obj(vec![("value", s("old"))]))),
        ("3", node("PrimitiveStringMultiline", obj(vec![("value", s("keep"))]))),
    ]);
    inject_prompt(&mut w, "tree");
    assert_eq!(text_of(&w, "1", "text"), Some("worst quality".to_string()));
    assert_eq!(text_of(&w, "2", "value"), Some("tree".to_string()));
    assert_eq!(text_of(&w, "3", "value"), Some("keep".to_string()));
}

#[test]
fn inject_prompt_stops_at_node_with_non_object_inputs() {
    let mut w = obj(vec![
        ("1", node("CLIPTextEncode", s("not an object"))),
        ("2", node("CLIPTextEncode", obj(vec![("text", s("x"))]))),
    ]);
    inject_prompt(&mut w, "p");
    assert_eq!(text_of(&w, "2", "text"), Some("x".to_string()));
    assert!(matches!(w.get("1").unwrap().get("inputs"), Some(Json::Str(t)) if t == "not an object"));
}

#[test]
fn inject_prompt_leaves_other_workflows() {
    let mut w = obj(vec![("1", node("KSampler", obj(vec![("seed", Json::Number("5".to_string()))])))]);
    inject_prompt(&mut w, "p");
    assert!(matches!(w.get("1").unwrap().get("inputs").unwrap().get("seed"), Some(Json::Number(n)) if n == "5"));
    assert!(w.get("1").unwrap().get("inputs").unwrap().get("text").is_none());
}

#[test]
fn json_set_member_replaces_or_appends() {
    let mut o = obj(vec![("a", s("1")), ("b", s("2"))]);
    o.set_member("b", s("3"));
    o.set_member("c", s("4"));
    match &o {
        Json::Object(m) => {
            let keys: Vec<&str> = m.iter().map(|(k, _)| k.as_str()).collect();
            assert_eq!(keys, vec!["a", "b", "c"]);
        }
        _ => panic!("not an object"),
    }
    assert!(matches!(o.get("b"), Some(Json::Str(t)) if t == "3"));
    let mut n = Json::Bool(true);
    n.set_member("x", Json::Null);
    assert!(matches!(n, Json::Bool(true)));
}

#[test]
fn json_into_member_takes_value() {
    let o = obj(vec![("a", s("1")), ("b", Json::Bool(false))]);
    assert!(matches!(o.into_member("b"), Some(Json::Bool(false))));
    let o = obj(vec![("a", s("1"))]);
    assert!(o.into_member("z").is_none());
}

fn render(j: &Json) -> String {
    match j {
        Json::Null => "null".to_string(),
        Json::Bool(b) => b.to_string(),
        Json::Number(n) => n.clone(),
        Json::Str(t) => format!("{:?}", t),
        Json::Array(items) => format!("[{}]", items.iter().map(render).collect::<Vec<_>>().join(",")),
        Json::Object(m) => format!(
            "{{{}}}",
            m.iter().map(|(k, v)| format!("{:?}:{}", k, render(v))).collect::<Vec<_>>().join(",")
        ),
    }
}

#[test]
fn inject_prompt_fills_text_input_of_any_node() {
    let mut w = obj(vec![("7", node("TextInput", obj(vec![("text", s("old"))])))]);
    inject_prompt(&mut w, "hero");
    assert_eq!(text_of(&w, "7", "text"), Some("hero".to_string()));
}

#[test]
fn inject_prompt_prefers_text_input_to_string_node() {
    let mut w = obj(vec![
        ("1", node("PrimitiveString", obj(vec![("value", s("v"))]))),
        ("2", node("CLIPTextEncode", obj(vec![("text", s("bad anatomy"))]))),
        ("3", node("TextInput", obj(vec![("text", s("x"))]))),
        ("4", node("Other", obj(vec![("text", s("y"))]))),
    ]);
    inject_prompt(&mut w, "castle");
    assert_eq!(text_of(&w, "1", "value"), Some("v".to_string()));
    assert_eq!(text_of(&w, "2", "text"), Some("bad anatomy".to_string()));
    assert_eq!(text_of(&w, "3", "text"), Some("castle".to_string()));
    assert_eq!(text_of(&w, "4", "text"), Some("y".to_string()));
}

#[test]
fn inject_prompt_skips_negative_text_input() {
    let mut w = obj(vec![
        ("1", node("TextInput", obj(vec![("text", s("negative: blur"))]))),
        ("2", node("PrimitiveStringMultiline", obj(vec![("value", s("v"))]))),
    ]);
    inject_prompt(&mut w, "castle");
    assert_eq!(text_of(&w, "1", "text"), Some("negative: blur".to_string()));
    assert_eq!(text_of(&w, "2", "value"), Some("castle".to_string()));
}

#[test]
fn inject_prompt_twice_is_once() {
    let make = || {
        obj(vec![
            ("1", node("CLIPTextEncode", obj(vec![("text", s("ugly"))]))),
            ("2", node("TextInput", obj(vec![("other", s("o"))]))),
            ("3", node("PrimitiveString", obj(vec![("value", s("v"))]))),
        ])
    };
    let mut once = make();
    inject_prompt(&mut once, "a knight");
    let mut twice = make();
    inject_prompt(&mut twice, "a knight");
    inject_prompt(&mut twice, "a knight");
    assert_eq!(render(&once), render(&twice));
    assert_eq!(text_of(&once, "3", "value"), Some("a knight".to_string()));
}

#[test]
fn listed_name_loads_its_file() {
    for file in ["sprite.json", "a.b.json", "..json"] {
        let name = json_file_stem(file).unwrap();
        assert_eq!(workflow_file_name(&name), file);
    }
    // A name that itself ends in .json selects the file without the
    // second extension.
    let name = json_file_stem("x.json.json").unwrap();
    assert_eq!(workflow_file_name(&name), "x.json");
}

#[test]
fn parse_json_reads_document() {
    let w = parse_json(r#"{"3": {"class_type": "KSampler", "inputs": {"seed": 42, "cfg": 7.5, "on": true, "x": null, "l": [1, "a"]}}}"#)
        .ok()
        .unwrap();
    assert_eq!(
        render(&w),
        r#"{"3":{"class_type":"KSampler","inputs":{"cfg":7.5,"l":[1,"a"],"on":true,"seed":42,"x":null}}}"#
    );
    assert!(is_api_format(&w));
}

#[test]
fn parse_json_rejects_malformed_text() {
    assert!(parse_json("{\"a\": ").is_err());
    assert!(parse_json("").is_err());
    match parse_json("[1, 2,]") {
        Err(m) => assert_eq!(m, serde_json::from_str::<serde_json::Value>("[1, 2,]").err().unwrap().to_string()),
        Ok(_) => panic!("expected a parse error"),
    }
    assert!(parse_json("[1, 2,]").is_err());
}

#[test]
fn inject_prompt_keeps_member_names_distinct() {
    let mut w = parse_json(r#"{"1": {"class_type": "TextInput", "inputs": {"text": "a", "x": 1}}}"#).ok().unwrap();
    inject_prompt(&mut w, "hero");
    assert_eq!(render(&w), r#"{"1":{"class_type":"TextInput","inputs":{"text":"hero","x":1}}}"#);
    let mut w = parse_json(r#"{"2": {"class_type": "PrimitiveString", "inputs": {}}}"#).ok().unwrap();
    inject_prompt(&mut w, "hero");
    inject_prompt(&mut w, "hero");
    assert_eq!(render(&w), r#"{"2":{"class_type":"PrimitiveString","inputs":{"value":"hero"}}}"#);
}
