//! End-to-end drives of the agent session state machine and the provider
//! wire translation, with scripted provider turns in place of a live model.

use delegant::a11y::A11yNode;
use delegant::action::{ActionResult, AgentAction};
use delegant::agent::{extract_estimated_seconds, initial_user_message, Session, StepAction};
use delegant::error::AppError;
use delegant::history::trim_history;
use delegant::json::Json;
use delegant::msg::{ContentBlock, Message, Role, StopReason};
use delegant::tools::{build_anthropic_tools, build_openai_tools, build_tool_definitions};
use delegant::wire::{build_chat_request, build_local_request, build_native_request,
    parse_chat_response, parse_local_response, parse_native_response};

fn obj(entries: Vec<(&str, Json)>) -> Json {
    Json::Obj(entries.into_iter().map(|(k, v)| (k.to_string(), v)).collect())
}

fn s(x: &str) -> Json {
    Json::Str(x.to_string())
}

fn tool_use(id: &str, name: &str, input: Json) -> ContentBlock {
    ContentBlock::ToolUse { id: id.to_string(), name: name.to_string(), input }
}

fn stub_nodes() -> Vec<A11yNode> {
    vec![
        A11yNode { id: 1, name: "One".into(), control_type: "button".into(), rect: (0, 0, 10, 10) },
        A11yNode { id: 2, name: "Two".into(), control_type: "link".into(), rect: (0, 0, 20, 20) },
        A11yNode {
            id: 3,
            name: "Three".into(),
            control_type: "button".into(),
            rect: (100, 200, 300, 400),
        },
    ]
}

fn screenshot_result(nodes: Vec<A11yNode>) -> ActionResult {
    ActionResult {
        text: "Screenshot taken.".to_string(),
        base64: Some("QUJD".to_string()),
        nodes: Some(nodes),
    }
}

#[test]
fn seed_message_text() {
    let m = initial_user_message("Say hi", 1280, 800);
    assert!(matches!(m.role, Role::User));
    assert_eq!(m.content.len(), 1);
    match &m.content[0] {
        ContentBlock::Text { text } => assert_eq!(
            text.as_str(),
            "Task: Say hi\n\nThe screen resolution is 1280x800 pixels. Coordinates are [x, y] from the top-left corner. Please start by taking a screenshot to see the current state of the screen.",
        ),
        _ => panic!("expected the task text"),
    }
}

#[test]
fn instant_completion_turn() {
    // the provider answers with prose only and stops of its own accord
    let mut session = Session::new("Say hi", 1280, 800);
    let act = session.step(ContentBlock::Text { text: "Done".to_string() }).unwrap();
    assert!(matches!(act, StepAction::Noted));
    let done = session.end_turn(StopReason::EndTurn);
    assert!(done);
    assert_eq!(session.messages.len(), 2);
    assert!(matches!(session.messages[1].role, Role::Assistant));
    match &session.messages[1].content[0] {
        ContentBlock::Text { text } => assert_eq!(text.as_str(), "Done"),
        _ => panic!("expected the prose block"),
    }
    assert_eq!(session.iteration, 1);
}

#[test]
fn screenshot_then_click_element() {
    let mut session = Session::new("Click the third thing", 1280, 800);
    // turn one: the model asks for a screenshot
    let act = session
        .step(tool_use("tu_1", "computer", obj(vec![("action", s("screenshot"))])))
        .unwrap();
    match act {
        StepAction::Execute(AgentAction::Screenshot) => {},
        _ => panic!("expected a screenshot to execute"),
    }
    session.report(Ok(screenshot_result(stub_nodes())));
    let done = session.end_turn(StopReason::ToolUse);
    assert!(!done);
    // the screenshot answer holds the tree text and then the image
    let user_msg = session.messages.last().unwrap();
    assert!(matches!(user_msg.role, Role::User));
    assert_eq!(user_msg.content.len(), 2);
    match &user_msg.content[0] {
        ContentBlock::ToolResult { tool_use_id, content, is_error } => {
            assert_eq!(tool_use_id.as_str(), "tu_1");
            assert!(content.as_str().starts_with(
                "Screenshot taken.\n\nAccessibility Tree (UI Elements):\n",
            ));
            assert!(content.as_str().contains("[3] button \"Three\""));
            assert!(is_error.is_none());
        },
        _ => panic!("expected the tree text first"),
    }
    assert!(matches!(&user_msg.content[1], ContentBlock::Image { .. }));
    // turn two: click element three resolves to its center
    let act = session
        .step(tool_use(
            "tu_2",
            "computer",
            obj(vec![("action", s("click_element")), ("id", Json::Int(3))]),
        ))
        .unwrap();
    match act {
        StepAction::Execute(AgentAction::LeftClick { x, y }) => {
            assert_eq!((x, y), (200, 300));
        },
        _ => panic!("expected a resolved left click"),
    }
    session.report(Ok(ActionResult {
        text: "Left clicked".to_string(),
        base64: None,
        nodes: None,
    }));
    assert!(!session.end_turn(StopReason::ToolUse));
    let user_msg = session.messages.last().unwrap();
    match &user_msg.content[0] {
        ContentBlock::ToolResult { tool_use_id, content, .. } => {
            assert_eq!(tool_use_id.as_str(), "tu_2");
            assert_eq!(content.as_str(), "Left clicked");
        },
        _ => panic!("expected the click result"),
    }
    // turn three: prose, end
    session.step(ContentBlock::Text { text: "done".to_string() }).unwrap();
    assert!(session.end_turn(StopReason::EndTurn));
}

#[test]
fn unknown_tool_is_answered_not_fatal() {
    let mut session = Session::new("t", 1280, 800);
    let act = session.step(tool_use("tu_9", "pizza", obj(vec![]))).unwrap();
    assert!(matches!(act, StepAction::Synthetic));
    assert!(!session.end_turn(StopReason::ToolUse));
    let user_msg = session.messages.last().unwrap();
    match &user_msg.content[0] {
        ContentBlock::ToolResult { tool_use_id, content, is_error } => {
            assert_eq!(tool_use_id.as_str(), "tu_9");
            assert_eq!(content.as_str(), "Unknown tool: pizza");
            assert_eq!(*is_error, Some(true));
        },
        _ => panic!("expected an error result"),
    }
}

#[test]
fn click_element_without_snapshot_is_an_error_result() {
    let mut session = Session::new("t", 1280, 800);
    let act = session
        .step(tool_use(
            "tu_4",
            "computer",
            obj(vec![("action", s("click_element")), ("id", Json::Int(3))]),
        ))
        .unwrap();
    assert!(matches!(act, StepAction::Synthetic));
    assert!(!session.end_turn(StopReason::ToolUse));
    match &session.messages.last().unwrap().content[0] {
        ContentBlock::ToolResult { content, is_error, .. } => {
            assert_eq!(
                content.as_str(),
                "Error: Element [3] not found in the current accessibility tree. Take a screenshot first.",
            );
            assert_eq!(*is_error, Some(true));
        },
        _ => panic!("expected an error result"),
    }
}

#[test]
fn get_element_position_is_intercepted() {
    let mut session = Session::new("t", 1280, 800);
    session
        .step(tool_use("tu_s", "computer", obj(vec![("action", s("screenshot"))])))
        .unwrap();
    session.report(Ok(screenshot_result(stub_nodes())));
    let act = session
        .step(tool_use("tu_p", "get_element_position", obj(vec![("id", Json::Int(3))])))
        .unwrap();
    assert!(matches!(act, StepAction::Synthetic));
    assert!(!session.end_turn(StopReason::ToolUse));
    match &session.messages.last().unwrap().content[2] {
        ContentBlock::ToolResult { tool_use_id, content, is_error } => {
            assert_eq!(tool_use_id.as_str(), "tu_p");
            assert_eq!(
                content.as_str(),
                "Element ID 3 position:\nBounding Box: [left: 100, top: 200, right: 300, bottom: 400]\nCenter: [cx: 200, cy: 300]",
            );
            assert!(is_error.is_none());
        },
        _ => panic!("expected the position text"),
    }
}

#[test]
fn wait_action_and_cancellation_state() {
    let mut session = Session::new("t", 1280, 800);
    let act = session
        .step(tool_use(
            "tu_w",
            "computer",
            obj(vec![("action", s("wait")), ("duration", Json::Int(5000))]),
        ))
        .unwrap();
    match act {
        StepAction::Execute(AgentAction::Wait { duration_ms }) => assert_eq!(duration_ms, 5000),
        _ => panic!("expected a wait"),
    }
    // the host asks to stop while the wait runs; the state flips at once and
    // the loop exits at its next checkpoint
    let mut st = delegant::state::AgentState::default();
    st.start_run("t".to_string()).unwrap();
    st.stop_run();
    assert!(st.cancel_requested);
    assert!(matches!(st.status, delegant::state::AgentStatus::Idle));
    session.report(Ok(ActionResult { text: "Waited 5000ms".to_string(), base64: None, nodes: None }));
    session.end_turn(StopReason::ToolUse);
}

#[test]
fn failed_action_becomes_error_result() {
    let mut session = Session::new("t", 1280, 800);
    session
        .step(tool_use("tu_b", "bash", obj(vec![("command", s("frob"))])))
        .unwrap();
    session.report(Err(AppError::Shell("boom".to_string())));
    session.end_turn(StopReason::ToolUse);
    match &session.messages.last().unwrap().content[0] {
        ContentBlock::ToolResult { content, is_error, .. } => {
            assert_eq!(content.as_str(), "Error: Shell error: boom");
            assert_eq!(*is_error, Some(true));
        },
        _ => panic!("expected an error result"),
    }
}

#[test]
fn eight_screenshot_turns_keep_five_images() {
    let mut session = Session::new("t", 1280, 800);
    for turn in 0..8 {
        let id = format!("tu_{}", turn);
        session
            .step(tool_use(&id, "computer", obj(vec![("action", s("screenshot"))])))
            .unwrap();
        session.report(Ok(screenshot_result(stub_nodes())));
        assert!(!session.end_turn(StopReason::ToolUse));
    }
    let imaged = session.messages.iter().skip(1).filter(|m| {
        m.content.iter().any(|b| matches!(b, ContentBlock::Image { .. }))
    });
    assert_eq!(imaged.count(), 5);
    // the first message is the untouched task text
    match &session.messages[0].content[0] {
        ContentBlock::Text { text } => assert!(text.as_str().starts_with("Task: t")),
        _ => panic!("expected the task text"),
    }
    // trimmed screenshot answers keep their tool results
    let early_user = &session.messages[2];
    assert!(matches!(early_user.role, Role::User));
    assert_eq!(early_user.content.len(), 1);
    assert!(matches!(&early_user.content[0], ContentBlock::ToolResult { .. }));
}

#[test]
fn trim_leaves_short_histories_alone() {
    let mut messages = vec![
        initial_user_message("t", 10, 10),
        Message { role: Role::Assistant, content: vec![] },
    ];
    trim_history(&mut messages);
    assert_eq!(messages.len(), 2);
    assert_eq!(messages[1].content.len(), 0);
}

#[test]
fn trim_is_idempotent_after_one_pass() {
    let mut session = Session::new("t", 1280, 800);
    for turn in 0..8 {
        let id = format!("tu_i{}", turn);
        session
            .step(tool_use(&id, "computer", obj(vec![("action", s("screenshot"))])))
            .unwrap();
        session.report(Ok(screenshot_result(stub_nodes())));
        session.end_turn(StopReason::ToolUse);
    }
    let before: Vec<usize> = session.messages.iter().map(|m| m.content.len()).collect();
    trim_history(&mut session.messages);
    let after: Vec<usize> = session.messages.iter().map(|m| m.content.len()).collect();
    assert_eq!(before, after);
}

#[test]
fn estimate_extraction() {
    assert_eq!(
        extract_estimated_seconds("working {\"estimated_seconds\": 45} more"),
        Some(45),
    );
    assert_eq!(extract_estimated_seconds("no estimate here"), None);
    assert_eq!(extract_estimated_seconds("{\"estimated_seconds\": oops}"), None);
}

#[test]
fn native_request_shape() {
    let messages = vec![initial_user_message("hi", 16, 9)];
    let tools = build_anthropic_tools(16, 9);
    let body = build_native_request("model-a", "sys", &messages, &tools);
    assert_eq!(body.get_str("model").unwrap().as_str(), "model-a");
    assert_eq!(body.get_i64("max_tokens"), Some(4096));
    assert_eq!(body.get_str("system").unwrap().as_str(), "sys");
    let tool_arr = body.get("tools").unwrap().as_arr().unwrap();
    assert_eq!(tool_arr.len(), 3);
    assert_eq!(tool_arr[0].get_str("type").unwrap().as_str(), "computer_20250124");
    assert_eq!(tool_arr[0].get_i64("display_width_px"), Some(16));
    assert_eq!(tool_arr[0].get_i64("display_number"), Some(1));
    let msg_arr = body.get("messages").unwrap().as_arr().unwrap();
    assert_eq!(msg_arr.len(), 1);
    assert_eq!(msg_arr[0].get_str("role").unwrap().as_str(), "user");
}

#[test]
fn native_tool_result_marks_errors() {
    let messages = vec![Message {
        role: Role::User,
        content: vec![ContentBlock::ToolResult {
            tool_use_id: "tu".to_string(),
            content: "bad".to_string(),
            is_error: Some(true),
        }],
    }];
    let body = build_native_request("m", "s", &messages, &Vec::new());
    let msg_arr = body.get("messages").unwrap().as_arr().unwrap();
    let content = msg_arr[0].get("content").unwrap().as_arr().unwrap();
    assert_eq!(content[0].get_str("type").unwrap().as_str(), "tool_result");
    assert_eq!(content[0].get("is_error").unwrap().as_i64(), None);
    assert!(matches!(content[0].get("is_error"), Some(Json::Bool(true))));
}

#[test]
fn chat_request_flattens_messages() {
    let messages = vec![
        Message {
            role: Role::Assistant,
            content: vec![
                ContentBlock::Text { text: "a".to_string() },
                ContentBlock::Text { text: "b".to_string() },
                tool_use("tu_1", "computer", obj(vec![("action", s("screenshot"))])),
            ],
        },
        Message {
            role: Role::User,
            content: vec![
                ContentBlock::ToolResult {
                    tool_use_id: "tu_1".to_string(),
                    content: "Screenshot taken.".to_string(),
                    is_error: None,
                },
                ContentBlock::Image {
                    source: delegant::msg::ImageSource {
                        source_type: "base64".to_string(),
                        media_type: "image/jpeg".to_string(),
                        data: "QUJD".to_string(),
                    },
                },
            ],
        },
    ];
    let tools = build_openai_tools(16, 9);
    let body = build_chat_request("gpt-x", "sys", &messages, &tools);
    let msgs = body.get("messages").unwrap().as_arr().unwrap();
    // system, assistant, tool result, then the image-bearing user entry
    assert_eq!(msgs.len(), 4);
    assert_eq!(msgs[0].get_str("role").unwrap().as_str(), "system");
    assert_eq!(msgs[1].get_str("role").unwrap().as_str(), "assistant");
    assert_eq!(msgs[1].get_str("content").unwrap().as_str(), "a\nb");
    let calls = msgs[1].get("tool_calls").unwrap().as_arr().unwrap();
    assert_eq!(calls[0].get_str("id").unwrap().as_str(), "tu_1");
    assert_eq!(
        calls[0].get("function").unwrap().get_str("arguments").unwrap().as_str(),
        "{\"action\":\"screenshot\"}",
    );
    assert_eq!(msgs[2].get_str("role").unwrap().as_str(), "tool");
    assert_eq!(msgs[2].get_str("tool_call_id").unwrap().as_str(), "tu_1");
    assert_eq!(msgs[3].get_str("role").unwrap().as_str(), "user");
    let parts = msgs[3].get("content").unwrap().as_arr().unwrap();
    assert_eq!(parts.len(), 1);
    assert_eq!(parts[0].get_str("type").unwrap().as_str(), "image_url");
    assert_eq!(
        parts[0].get("image_url").unwrap().get_str("url").unwrap().as_str(),
        "data:image/jpeg;base64,QUJD",
    );
    // the chat dialects declare every tool with a schema
    assert_eq!(body.get("tools").unwrap().as_arr().unwrap().len(), 4);
    // the configurable-endpoint variant is the same but non-streaming
    let local = build_local_request("m", "sys", &messages, &tools);
    assert!(matches!(local.get("stream"), Some(Json::Bool(false))));
    assert!(local.get("max_completion_tokens").is_none());
}

#[test]
fn native_response_parsing() {
    let v = obj(vec![
        ("stop_reason", s("tool_use")),
        (
            "content",
            Json::Arr(vec![
                obj(vec![("type", s("text")), ("text", s("thinking"))]),
                obj(vec![
                    ("type", s("tool_use")),
                    ("id", s("tu_1")),
                    ("name", s("computer")),
                    ("input", obj(vec![("action", s("screenshot"))])),
                ]),
            ]),
        ),
    ]);
    let resp = parse_native_response(&v).unwrap();
    assert!(matches!(resp.stop_reason, StopReason::ToolUse));
    assert_eq!(resp.content.len(), 2);
    match &resp.content[1] {
        ContentBlock::ToolUse { id, name, input } => {
            assert_eq!(id.as_str(), "tu_1");
            assert_eq!(name.as_str(), "computer");
            assert_eq!(input.get_str("action").unwrap().as_str(), "screenshot");
        },
        _ => panic!("expected the tool use"),
    }
    let bad = obj(vec![("stop_reason", s("end_turn"))]);
    match parse_native_response(&bad).unwrap_err() {
        AppError::AiProvider(m) => assert_eq!(m.as_str(), "No content in response"),
        _ => panic!("expected a provider error"),
    }
}

#[test]
fn chat_response_parsing() {
    let v = obj(vec![(
        "choices",
        Json::Arr(vec![obj(vec![
            ("finish_reason", s("tool_calls")),
            (
                "message",
                obj(vec![
                    ("content", s("on it")),
                    (
                        "tool_calls",
                        Json::Arr(vec![obj(vec![
                            ("id", s("call_7")),
                            (
                                "function",
                                obj(vec![
                                    ("name", s("bash")),
                                    ("arguments", s("{\"command\":\"ls\"}")),
                                ]),
                            ),
                        ])]),
                    ),
                ]),
            ),
        ])]),
    )]);
    let resp = parse_chat_response(&v);
    assert!(matches!(resp.stop_reason, StopReason::ToolUse));
    assert_eq!(resp.content.len(), 2);
    match &resp.content[0] {
        ContentBlock::Text { text } => assert_eq!(text.as_str(), "on it"),
        _ => panic!("expected the prose"),
    }
    match &resp.content[1] {
        ContentBlock::ToolUse { id, name, input } => {
            assert_eq!(id.as_str(), "call_7");
            assert_eq!(name.as_str(), "bash");
            assert_eq!(input.get_str("command").unwrap().as_str(), "ls");
        },
        _ => panic!("expected the call"),
    }
    let empty = obj(vec![]);
    let resp2 = parse_chat_response(&empty);
    assert!(matches!(resp2.stop_reason, StopReason::EndTurn));
    assert_eq!(resp2.content.len(), 0);
}

#[test]
fn local_response_fills_blank_ids() {
    let v = obj(vec![(
        "choices",
        Json::Arr(vec![obj(vec![
            ("finish_reason", s("stop")),
            (
                "message",
                obj(vec![
                    (
                        "content",
                        Json::Arr(vec![
                            obj(vec![("text", s("part one"))]),
                            obj(vec![("text", s("part two"))]),
                        ]),
                    ),
                    (
                        "tool_calls",
                        Json::Arr(vec![obj(vec![(
                            "function",
                            obj(vec![
                                ("name", s("computer")),
                                ("arguments", obj(vec![("action", s("screenshot"))])),
                            ]),
                        )])]),
                    ),
                ]),
            ),
        ])]),
    )]);
    let resp = parse_local_response(&v);
    // tool calls present means the turn wants tools, whatever finish says
    assert!(matches!(resp.stop_reason, StopReason::ToolUse));
    match &resp.content[0] {
        ContentBlock::Text { text } => assert_eq!(text.as_str(), "part one\npart two"),
        _ => panic!("expected the joined prose"),
    }
    match &resp.content[1] {
        ContentBlock::ToolUse { id, name, input } => {
            // a blank id gets a generated one
            assert_eq!(id.len(), 41);
            assert!(id.starts_with("tool_"));
            assert_eq!(name.as_str(), "computer");
            assert_eq!(input.get_str("action").unwrap().as_str(), "screenshot");
        },
        _ => panic!("expected the call"),
    }
}

#[test]
fn tool_registry_per_provider() {
    let native = build_tool_definitions("anthropic", 1280, 800);
    assert_eq!(native.len(), 3);
    assert_eq!(native[0].name.as_str(), "computer");
    assert_eq!(native[0].tool_type.as_deref(), Some("computer_20250124"));
    assert_eq!(native[0].display_width_px, Some(1280));
    assert!(native[0].input_schema.is_none());
    let chat = build_tool_definitions("openai", 1280, 800);
    assert_eq!(chat.len(), 4);
    assert_eq!(chat[1].name.as_str(), "get_element_position");
    for t in &chat {
        assert!(t.tool_type.is_none());
        assert!(t.input_schema.is_some());
        assert!(t.description.is_some());
    }
    let fallback = build_tool_definitions("anything-else", 800, 600);
    assert_eq!(fallback.len(), 3);
}
