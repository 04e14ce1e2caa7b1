use game_engine::comfy::{first_output_image, ComfyServer, ImageInfo, OutputNode, PromptHistory};
use game_engine::json::Json;
use game_engine::sprite_job::{
    SpriteAction, SpriteError, SpriteEvent, SpriteJob, SpriteStage, WorkflowRead, MAX_POLL_ATTEMPTS,
};

fn s(text: &str) -> Json {
    Json::Str(text.to_string())
}

fn obj(members: Vec<(&str, Json)>) -> Json {
    Json::Object(members.into_iter().map(|(k, v)| (k.to_string(), v)).collect())
}

fn api_workflow() -> String {
    r#"{"6": {"class_type": "CLIPTextEncode", "inputs": {"text": "placeholder"}}}"#.to_string()
}

fn found(contents: &str) -> SpriteEvent {
    SpriteEvent::WorkflowRead(WorkflowRead::Found { contents: contents.to_string() })
}

fn fetched(body: &str) -> SpriteEvent {
    SpriteEvent::HistoryFetched { body: body.to_string() }
}

fn image(filename: &str, subfolder: &str, kind: &str) -> ImageInfo {
    ImageInfo { filename: filename.to_string(), subfolder: subfolder.to_string(), image_type: kind.to_string() }
}

fn history(outputs: Vec<(&str, Option<Vec<ImageInfo>>)>) -> PromptHistory {
    PromptHistory {
        outputs: outputs.into_iter().map(|(k, images)| (k.to_string(), OutputNode { images })).collect(),
    }
}

fn started() -> SpriteJob {
    let (job, action) = SpriteJob::start(ComfyServer::local(), "sprites", "a red dragon");
    match action {
        SpriteAction::ReadWorkflow { file_name } => assert_eq!(file_name, "sprites.json"),
        _ => panic!("expected ReadWorkflow"),
    }
    job
}

fn submitted() -> SpriteJob {
    let mut job = started();
    match job.step(found(&api_workflow())) {
        SpriteAction::PostPrompt { url, body } => {
            assert_eq!(url, "http://127.0.0.1:8188/prompt");
            let text = body.get("prompt").unwrap().get("6").unwrap().get("inputs").unwrap().get("text");
            assert!(matches!(text, Some(Json::Str(t)) if t == "a red dragon"));
        }
        _ => panic!("expected PostPrompt"),
    }
    job
}

fn polling() -> SpriteJob {
    let mut job = submitted();
    let a = job.step(SpriteEvent::PromptPosted {
        success: true,
        status: "200 OK".to_string(),
        body: "{\"prompt_id\":\"abc\"}".to_string(),
        prompt_id: Ok("abc".to_string()),
    });
    match a {
        SpriteAction::FetchHistory { url } => assert_eq!(url, "http://127.0.0.1:8188/history/abc"),
        _ => panic!("expected FetchHistory"),
    }
    job
}

fn error_of(a: SpriteAction) -> SpriteError {
    match a {
        SpriteAction::Finish(Err(e)) => e,
        _ => panic!("expected an error"),
    }
}

#[test]
fn generation_runs_to_image() {
    let mut job = polling();
    assert!(matches!(job.step(SpriteEvent::HistoryNotReady), SpriteAction::FetchHistory { .. }));
    // History without the prompt yet: ask again.
    assert!(matches!(job.step(fetched("{}")), SpriteAction::FetchHistory { .. }));
    let a = job.step(fetched(r#"{"zzz": null, "abc": {"outputs": {}}}"#));
    match a {
        SpriteAction::DecodeOutputs { entry } => assert!(entry.get("outputs").is_some()),
        _ => panic!("expected DecodeOutputs"),
    }
    let a = job.step(SpriteEvent::OutputsDecoded(Ok(history(vec![
        ("9", None),
        ("10", Some(vec![])),
        ("11", Some(vec![image("out 1.png", "a/b", "output"), image("second.png", "", "output")])),
    ]))));
    match a {
        SpriteAction::FetchImage { url } => assert_eq!(
            url,
            "http://127.0.0.1:8188/view?filename=out%201.png&subfolder=a%2Fb&type=output"
        ),
        _ => panic!("expected FetchImage"),
    }
    match job.step(SpriteEvent::ImageFetched(vec![1, 2, 3])) {
        SpriteAction::Finish(Ok(bytes)) => assert_eq!(bytes, vec![1, 2, 3]),
        _ => panic!("expected the image"),
    }
    assert!(matches!(job.stage, SpriteStage::Finished));
    assert!(!job.awaits_event(&SpriteEvent::HistoryNotReady));
}

#[test]
fn outputs_without_images_poll_again() {
    let mut job = polling();
    job.step(fetched(r#"{"abc": {}}"#));
    let a = job.step(SpriteEvent::OutputsDecoded(Ok(history(vec![("1", None)]))));
    assert!(matches!(a, SpriteAction::FetchHistory { .. }));
    assert!(matches!(job.stage, SpriteStage::Polling { attempt: 1, .. }));
}

#[test]
fn polling_times_out() {
    let mut job = polling();
    let mut fetches = 1;
    loop {
        match job.step(SpriteEvent::HistoryNotReady) {
            SpriteAction::FetchHistory { .. } => fetches += 1,
            a => {
                assert!(matches!(error_of(a), SpriteError::TimedOut));
                break;
            }
        }
    }
    assert_eq!(fetches, MAX_POLL_ATTEMPTS);
    assert_eq!(
        SpriteError::TimedOut.message(),
        "Timed out waiting for ComfyUI to generate the image"
    );
}

#[test]
fn web_format_is_refused() {
    let mut job = started();
    let e = error_of(job.step(found(r#"{"nodes": [], "links": []}"#)));
    assert!(matches!(e, SpriteError::WebFormat));
    assert!(e.message().starts_with("This workflow is in ComfyUI web/graph format (not API format). Please re-export"));
    assert!(e.message().contains("Settings \u{2192} Enable Dev Mode Options"));
}

#[test]
fn unclear_format_is_sent_as_is() {
    let mut job = started();
    assert!(matches!(job.step(found(r#"{"1": {"inputs": {}}}"#)), SpriteAction::PostPrompt { .. }));
}

#[test]
fn subgraph_is_refused() {
    let mut job = started();
    let uuid = "7b34ab90-36f9-45ba-a665-71d418f0df18";
    let w = format!(r#"{{"5": {{"class_type": "{uuid}", "inputs": {{}}}}}}"#);
    let e = error_of(job.step(found(&w)));
    assert_eq!(
        e.message(),
        format!("Node '5' has subgraph type '{uuid}'. This workflow uses ComfyUI subgraphs which cannot be sent directly via the API. Please export the workflow using 'Save (API Format)' in ComfyUI (enable Dev Mode in settings first).")
    );
}

#[test]
fn missing_workflow_file() {
    let mut job = started();
    let e = error_of(job.step(SpriteEvent::WorkflowRead(WorkflowRead::NotFound { path: "workflows/sprites.json".to_string() })));
    assert_eq!(
        e.message(),
        "Workflow file not found: workflows/sprites.json. Place ComfyUI API-format JSON files in the 'workflows/' directory."
    );
    let mut job = started();
    let e = error_of(job.step(SpriteEvent::WorkflowRead(WorkflowRead::Failed { message: "bad json".to_string() })));
    assert_eq!(e.message(), "bad json");
    let mut job = started();
    let e = error_of(job.step(found("{\"6\": ")));
    assert!(matches!(e, SpriteError::WorkflowUnreadable { .. }));
    assert_eq!(e.message(), serde_json::from_str::<serde_json::Value>("{\"6\": ").err().unwrap().to_string());
}

#[test]
fn prompt_errors() {
    let mut job = submitted();
    let e = error_of(job.step(SpriteEvent::PromptPosted {
        success: false,
        status: "400 Bad Request".to_string(),
        body: "nope".to_string(),
        prompt_id: Err("x".to_string()),
    }));
    assert_eq!(e.message(), "ComfyUI returned HTTP 400 Bad Request: nope");
    let mut job = submitted();
    let e = error_of(job.step(SpriteEvent::PromptPosted {
        success: true,
        status: "200 OK".to_string(),
        body: "{}".to_string(),
        prompt_id: Err("missing field `prompt_id`".to_string()),
    }));
    assert_eq!(e.message(), "Failed to parse prompt response: missing field `prompt_id` \u{2014} body: {}");
    let mut job = submitted();
    let e = error_of(job.step(SpriteEvent::RequestFailed { message: "refused".to_string() }));
    assert!(matches!(e, SpriteError::Transport { .. }));
    assert_eq!(e.message(), "refused");
}

#[test]
fn history_errors() {
    let mut job = polling();
    let e = error_of(job.step(fetched("{\"abc\"")));
    assert!(matches!(e, SpriteError::BadHistory { .. }));
    assert_eq!(e.message(), serde_json::from_str::<serde_json::Value>("{\"abc\"").err().unwrap().to_string());
    let mut job = polling();
    assert!(matches!(job.step(fetched(r#"{"abc": null}"#)), SpriteAction::DecodeOutputs { entry: Json::Null }));
    let e = error_of(job.step(SpriteEvent::OutputsDecoded(Err("invalid type".to_string()))));
    assert_eq!(e.message(), "invalid type");
}

#[test]
fn awaits_matching_events() {
    let job = started();
    assert!(job.awaits_event(&SpriteEvent::WorkflowRead(WorkflowRead::Failed { message: String::new() })));
    assert!(!job.awaits_event(&SpriteEvent::HistoryNotReady));
    let job = polling();
    assert!(job.awaits_event(&SpriteEvent::HistoryNotReady));
    assert!(job.awaits_event(&SpriteEvent::RequestFailed { message: String::new() }));
    assert!(!job.awaits_event(&SpriteEvent::ImageFetched(vec![])));
}

#[test]
fn server_endpoints() {
    let server = ComfyServer::local();
    assert_eq!(server.url, "http://127.0.0.1:8188");
    assert_eq!(server.prompt_url(), "http://127.0.0.1:8188/prompt");
    assert_eq!(server.history_url("x-1"), "http://127.0.0.1:8188/history/x-1");
    let url = server.view_url(&image("ä b~c.png", "s/t", "temp&x"));
    assert_eq!(url, "http://127.0.0.1:8188/view?filename=%C3%A4%20b~c.png&subfolder=s%2Ft&type=temp%26x");
}

#[test]
fn first_output_image_picks_first_non_empty() {
    let h = history(vec![("1", Some(vec![])), ("2", Some(vec![image("a", "", "o")])), ("3", Some(vec![image("b", "", "o")]))]);
    assert_eq!(first_output_image(&h).unwrap().filename, "a");
    assert!(first_output_image(&history(vec![("1", None)])).is_none());
}

#[test]
fn duplicate_output_ids_are_not_awaited() {
    let mut job = polling();
    job.step(fetched(r#"{"abc": {"outputs": {}}}"#));
    let dup = history(vec![("1", None), ("1", Some(vec![image("a", "", "o")]))]);
    assert!(!dup.names_distinct());
    assert!(!job.awaits_event(&SpriteEvent::OutputsDecoded(Ok(dup))));
    let ok = history(vec![("1", None), ("2", Some(vec![image("a", "", "o")]))]);
    assert!(ok.names_distinct());
    assert!(job.awaits_event(&SpriteEvent::OutputsDecoded(Ok(ok))));
}
