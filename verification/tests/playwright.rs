use base64::Engine;

use claurst::playwright::{
    clicked, closed, context_ready, filled, invalid_input, launched, navigated, new_context_id, page_ready,
    plan_action, screenshot_taken, step_failed, text_found, BrowserAction, BrowserStep, PermissionLevel,
    PlaywrightInput, PlaywrightTool,
};

fn input(action: &str) -> PlaywrightInput {
    PlaywrightInput { action: action.to_string(), url: None, selector: None, text: None, context_id: None }
}

fn refusal(i: &PlaywrightInput) -> String {
    match plan_action(i) {
        Err(r) => {
            assert!(r.is_error);
            r.content
        }
        Ok(_) => panic!("expected a refusal"),
    }
}

#[test]
fn test_playwright_tool_name() {
    let tool = PlaywrightTool::new();
    assert_eq!(tool.name(), "playwright");
    assert_eq!(tool.permission_level(), PermissionLevel::ReadOnly);
}

#[test]
fn description_and_schema() {
    let tool = PlaywrightTool::new();
    assert!(tool.description().starts_with("Browser automation using Playwright"));
    let schema: serde_json::Value = serde_json::from_str(&tool.input_schema()).unwrap();
    assert_eq!(schema["type"], "object");
    assert_eq!(schema["required"][0], "action");
    assert_eq!(schema["properties"]["action"]["enum"].as_array().unwrap().len(), 7);
    assert_eq!(schema["properties"]["context_id"]["type"], "string");
}

#[test]
fn plan_checks_required_fields() {
    assert!(matches!(plan_action(&input("launch")), Ok(BrowserAction::Launch)));
    assert_eq!(refusal(&input("navigate")), "context_id required");
    let mut nav = input("navigate");
    nav.context_id = Some("br_1".to_string());
    assert_eq!(refusal(&nav), "url required");
    nav.url = Some("https://example.com".to_string());
    match plan_action(&nav) {
        Ok(BrowserAction::Navigate { context_id, url }) => {
            assert_eq!(context_id, "br_1");
            assert_eq!(url, "https://example.com");
        }
        _ => panic!("expected navigate"),
    }
    let mut fill = input("fill");
    fill.context_id = Some("c".to_string());
    assert_eq!(refusal(&fill), "selector required");
    fill.selector = Some("#q".to_string());
    assert_eq!(refusal(&fill), "text required");
    fill.text = Some("hi".to_string());
    assert!(matches!(plan_action(&fill), Ok(BrowserAction::Fill { .. })));
    let mut shot = input("screenshot");
    shot.context_id = Some("c".to_string());
    assert!(matches!(plan_action(&shot), Ok(BrowserAction::Screenshot { .. })));
    let mut close = input("close");
    assert_eq!(refusal(&close), "context_id required");
    close.context_id = Some("c".to_string());
    assert!(matches!(plan_action(&close), Ok(BrowserAction::Close { .. })));
    let mut text = input("text");
    text.context_id = Some("c".to_string());
    text.selector = Some("h1".to_string());
    assert!(matches!(plan_action(&text), Ok(BrowserAction::Text { .. })));
    assert_eq!(refusal(&input("dance")), "Unknown action: dance");
}

#[test]
fn results_are_small_json_objects() {
    assert_eq!(launched("br_x").content, r#"{"context_id":"br_x"}"#);
    assert_eq!(navigated("https://e.com").content, r#"{"navigated":"https://e.com"}"#);
    assert_eq!(clicked(".b").content, r#"{"clicked":".b"}"#);
    assert_eq!(filled(".f").content, r#"{"filled":".f"}"#);
    assert_eq!(text_found(&Some("Example".to_string())).content, r#"{"text":"Example"}"#);
    assert_eq!(text_found(&None).content, r#"{"text":""}"#);
    let shot = screenshot_taken(&[1, 2, 3]);
    assert!(!shot.is_error);
    assert_eq!(shot.content, format!(r#"{{"screenshot":"{}"}}"#, base64::engine::general_purpose::STANDARD.encode([1u8, 2, 3])));
    assert_eq!(closed().content, r#"{"closed":"true"}"#);
}

#[test]
fn failures() {
    let f = step_failed(BrowserStep::BrowserLaunch, "no chromium");
    assert!(f.is_error);
    assert_eq!(f.content, "Browser launch failed: no chromium");
    assert_eq!(step_failed(BrowserStep::Screenshot, "x").content, "Screenshot failed: x");
    assert_eq!(invalid_input("missing field `action`").content, "Invalid input: missing field `action`");
    assert_eq!(context_ready(None).unwrap_err().content, "Context not found");
    assert_eq!(context_ready(Some(false)).unwrap_err().content, "Context None");
    assert!(context_ready(Some(true)).is_ok());
    assert_eq!(page_ready(None).unwrap_err().content, "Context not found");
    assert_eq!(page_ready(Some(false)).unwrap_err().content, "No page");
    assert!(page_ready(Some(true)).is_ok());
}

#[test]
fn context_ids_are_fresh() {
    let a = new_context_id();
    let b = new_context_id();
    assert_eq!(a.len(), 36);
    assert!(uuid::Uuid::parse_str(&a).is_ok());
    assert_ne!(a, b);
}
