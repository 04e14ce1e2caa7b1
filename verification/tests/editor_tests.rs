use game_engine::gui::GuiEditor;
use game_engine::input::{InputEvent, InputHandler, Key};
use game_engine::scene::Scene;
use game_engine::text::{contains_str, count_char, decimal_string, ends_with_str, str_equal, str_le};

#[test]
fn editor_starts_empty() {
    let g = GuiEditor::new();
    assert_eq!(g.ai_output, "");
    assert!(!g.generate_requested && !g.show_3d && !g.loading_workflows && !g.workflows_loaded);
    assert!(g.available_workflows.is_empty());
}

#[test]
fn take_generate_request_once() {
    let mut g = GuiEditor::new();
    assert!(!g.take_generate_request());
    g.generate_requested = true;
    assert!(g.take_generate_request());
    assert!(!g.take_generate_request());
}

#[test]
fn generate_button_needs_workflow_and_prompt() {
    let mut g = GuiEditor::new();
    g.press_generate();
    assert!(!g.generate_requested);
    g.workflow_name = "wf".to_string();
    g.press_generate();
    assert!(!g.generate_requested);
    g.prompt_text = "cat".to_string();
    g.press_generate();
    assert!(g.generate_requested);
}

#[test]
fn workflow_refresh_messages() {
    let mut g = GuiEditor::new();
    assert!(!g.begin_workflow_refresh());
    g.loading_workflows = true;
    assert!(g.begin_workflow_refresh());
    assert!(!g.loading_workflows);
    assert_eq!(g.ai_output, "Loading workflows...");
    g.finish_workflow_refresh(Ok(vec!["a".to_string(), "b".to_string()]));
    assert_eq!(g.ai_output, "Loaded 2 workflows");
    assert!(g.workflows_loaded);
    assert_eq!(g.available_workflows, vec!["a", "b"]);
    g.finish_workflow_refresh(Err("denied".to_string()));
    assert_eq!(g.ai_output, "Error loading workflows: denied");
    assert_eq!(g.available_workflows, vec!["a", "b"]);
}

#[test]
fn generation_messages() {
    let mut g = GuiEditor::new();
    assert!(g.begin_generation().is_none());
    g.workflow_name = "wf".to_string();
    g.prompt_text = "dog".to_string();
    g.press_generate();
    assert_eq!(g.begin_generation(), Some(("wf".to_string(), "dog".to_string())));
    assert_eq!(g.ai_output, "Generating sprite...");
    assert!(!g.generate_requested);
    g.finish_generation(Ok(12345));
    assert_eq!(g.ai_output, "Sprite generated (12345 bytes)");
    g.finish_generation(Err("boom".to_string()));
    assert_eq!(g.ai_output, "Error: boom");
    g.set_ai_output("x".to_string());
    assert_eq!(g.ai_output, "x");
}

#[test]
fn keys_set_movement() {
    let mut h = InputHandler::new();
    assert_eq!(h.get_velocity(), [0, 0]);
    assert!(h.handle_event(InputEvent::Keyboard { key: Some(Key::A), pressed: true }));
    assert_eq!(h.get_velocity(), [-1, 0]);
    assert!(h.handle_event(InputEvent::Keyboard { key: Some(Key::D), pressed: true }));
    assert_eq!(h.get_velocity(), [0, 0]);
    assert!(h.handle_event(InputEvent::Keyboard { key: Some(Key::W), pressed: true }));
    assert_eq!(h.get_velocity(), [0, 1]);
    assert!(h.handle_event(InputEvent::Keyboard { key: Some(Key::S), pressed: true }));
    assert!(h.handle_event(InputEvent::Keyboard { key: Some(Key::W), pressed: false }));
    assert_eq!(h.get_velocity(), [0, -1]);
    assert!(h.handle_event(InputEvent::Keyboard { key: Some(Key::Other), pressed: true }));
    assert!(!h.handle_event(InputEvent::Keyboard { key: None, pressed: true }));
    h.update();
    assert!(h.left && h.right && h.down && !h.up);
}

#[test]
fn mouse_buttons_drag() {
    let mut h = InputHandler::new();
    assert!(!h.handle_event(InputEvent::MouseButton { left: false, pressed: true }));
    assert!(!h.dragging);
    assert!(h.handle_event(InputEvent::MouseButton { left: true, pressed: true }));
    assert!(h.dragging && h.mouse_left_pressed);
    assert!(h.handle_event(InputEvent::CursorMoved));
    assert!(h.handle_event(InputEvent::MouseButton { left: true, pressed: false }));
    assert!(!h.dragging && !h.mouse_left_pressed);
    assert!(!h.handle_event(InputEvent::Other));
}

#[test]
fn scene_drags_while_pressed() {
    let mut scene: Scene<&str, u8> = Scene::new("sprite", 7);
    assert_eq!(scene.sprites, vec!["sprite"]);
    assert_eq!(scene.models_3d, vec![7]);
    assert!(!scene.dragging);
    scene.update(true);
    assert!(scene.dragging);
    scene.update(true);
    assert!(scene.dragging);
    scene.update(false);
    assert!(!scene.dragging);
}

#[test]
fn text_helpers() {
    assert_eq!(decimal_string(0), "0");
    assert_eq!(decimal_string(7), "7");
    assert_eq!(decimal_string(10), "10");
    assert_eq!(decimal_string(9876543210), "9876543210");
    assert!(contains_str("very bad image", "bad"));
    assert!(!contains_str("b a d", "bad"));
    assert!(contains_str("x", ""));
    assert!(!contains_str("", "x"));
    assert!(ends_with_str("a.json", ".json"));
    assert!(!ends_with_str("json", ".json"));
    assert_eq!(count_char("a-b-c", '-'), 2);
    assert!(str_equal("abc", "abc"));
    assert!(!str_equal("abc", "abd"));
    assert!(str_le("abc", "abd"));
    assert!(str_le("ab", "abc"));
    assert!(!str_le("b", "abc"));
    assert!(str_le("Z", "a"));
}

#[test]
fn scene_set_sprite_replaces_existing_only() {
    let mut scene: Scene<u8, ()> = Scene::new(1, ());
    scene.set_sprite(0, 7);
    assert_eq!(scene.sprites, vec![7]);
    scene.set_sprite(3, 9);
    assert_eq!(scene.sprites, vec![7]);
    scene.update(true);
    assert!(scene.dragging);
    scene.set_sprite(0, 2);
    assert!(scene.dragging);
}
