//! Unit tests for the building blocks: text utilities, the JSON codec, the
//! action parser, input planning, output truncation, the snapshot filter and
//! the editor decisions.

use delegant::a11y::{a11y_tree_text, find_node, node_center, snapshot_filter, A11yNode,
    RawElement};
use delegant::action::{parse_computer_action, AgentAction};
use delegant::capture::{clamp_box, label_box, scaled_dims};
use delegant::editor::{editor_replace, editor_view_text, old_str_missing_text};
use delegant::error::AppError;
use delegant::json::Json;
use delegant::jsonparse::parse_json;
use delegant::keyboard::{fast_type_steps, parse_key, plan_key_combo, KeyCode, KeyDir,
    KeyEvent, TypeStep};
use delegant::mouse::{button_from_name, plan_path, scroll_click_count, MouseButton, Waypoint};
use delegant::shell::{compose_shell_output, truncate_stream, ShellResult};
use delegant::state::{AgentState, AgentStatus, Settings};
use delegant::text::{i64_str, lower_ascii, trim_spaces, u64_str};
use delegant::wire::normalize_base_url;

fn obj(entries: Vec<(&str, Json)>) -> Json {
    Json::Obj(entries.into_iter().map(|(k, v)| (k.to_string(), v)).collect())
}

fn s(x: &str) -> Json {
    Json::Str(x.to_string())
}

#[test]
fn decimal_rendering() {
    assert_eq!(u64_str(0).as_str(), "0");
    assert_eq!(u64_str(90210).as_str(), "90210");
    assert_eq!(i64_str(-42).as_str(), "-42");
    assert_eq!(i64_str(i64::MIN).as_str(), "-9223372036854775808");
}

#[test]
fn text_utilities() {
    assert_eq!(lower_ascii("Page_Up").as_str(), "page_up");
    assert_eq!(trim_spaces("  ctrl \t").as_str(), "ctrl");
    assert_eq!(trim_spaces("   ").as_str(), "");
}

#[test]
fn json_serialize_exact() {
    let v = obj(vec![
        ("a", Json::Int(-5)),
        ("b", Json::Arr(vec![Json::Null, Json::Bool(true), s("x\"y\n")])),
    ]);
    assert_eq!(v.to_text().as_str(), "{\"a\":-5,\"b\":[null,true,\"x\\\"y\\n\"]}");
}

#[test]
fn json_parse_round_trip() {
    let text = "{\"a\":-5,\"b\":[null,true,\"x\\\"y\\n\"],\"c\":{\"d\":12}}";
    let v = parse_json(text).expect("well-formed document");
    assert_eq!(v.to_text().as_str(), text);
    assert!(parse_json("{\"a\":1").is_none());
    assert!(parse_json("3.5").is_none());
    assert!(parse_json("[1,2] tail").is_none());
    let esc = parse_json("\"a\\u0041\\t\"").expect("escapes");
    match esc {
        Json::Str(t) => assert_eq!(t.as_str(), "aA\t"),
        _ => panic!("expected a string"),
    }
    // the machine range's lower edge: its magnitude has no 64-bit home here
    assert!(parse_json("-9223372036854775808").is_none());
    assert!(matches!(parse_json("-9223372036854775807"), Some(Json::Int(_))));
    assert_eq!(parse_json("  {\"a\": 1}  ").unwrap().to_text().as_str(), "{\"a\":1}");
}

#[test]
fn action_parse_screenshot_and_unknown() {
    let a = parse_computer_action(&obj(vec![("action", s("screenshot"))]), 1, 1).unwrap();
    assert!(matches!(a, AgentAction::Screenshot));
    let e = parse_computer_action(&obj(vec![("action", s("pizza"))]), 1, 1).unwrap_err();
    match e {
        AppError::Agent(m) => assert_eq!(m.as_str(), "Unknown computer action: pizza"),
        _ => panic!("expected an Agent error"),
    }
    let e2 = parse_computer_action(&obj(vec![("x", Json::Int(1))]), 1, 1).unwrap_err();
    assert_eq!(e2.message().as_str(), "Agent error: Missing action field");
}

#[test]
fn action_parse_coordinate_scaling() {
    // scale factor 2: every coordinate is divided by two, truncating
    let input = obj(vec![
        ("action", s("left_click")),
        ("coordinate", Json::Arr(vec![Json::Int(101), Json::Int(57)])),
    ]);
    match parse_computer_action(&input, 2, 1).unwrap() {
        AgentAction::LeftClick { x, y } => {
            assert_eq!((x, y), (50, 28));
        },
        _ => panic!("expected a left click"),
    }
    // missing second coordinate defaults to 0
    let input2 = obj(vec![
        ("action", s("mouse_move")),
        ("coordinate", Json::Arr(vec![Json::Int(7)])),
    ]);
    match parse_computer_action(&input2, 1, 1).unwrap() {
        AgentAction::MouseMove { x, y } => assert_eq!((x, y), (7, 0)),
        _ => panic!("expected a mouse move"),
    }
}

#[test]
fn action_parse_scroll_defaults() {
    let input = obj(vec![
        ("action", s("scroll")),
        ("coordinate", Json::Arr(vec![Json::Int(10), Json::Int(20)])),
    ]);
    match parse_computer_action(&input, 1, 1).unwrap() {
        AgentAction::Scroll { x, y, direction, amount } => {
            assert_eq!((x, y, amount), (10, 20, 3));
            assert_eq!(direction.as_str(), "down");
        },
        _ => panic!("expected a scroll"),
    }
}

#[test]
fn action_parse_wait_and_drag() {
    let w = obj(vec![("action", s("wait"))]);
    match parse_computer_action(&w, 1, 1).unwrap() {
        AgentAction::Wait { duration_ms } => assert_eq!(duration_ms, 1000),
        _ => panic!("expected a wait"),
    }
    let d = obj(vec![
        ("action", s("drag")),
        ("start_coordinate", Json::Arr(vec![Json::Int(1), Json::Int(2)])),
        ("end_coordinate", Json::Arr(vec![Json::Int(3), Json::Int(4)])),
    ]);
    match parse_computer_action(&d, 1, 1).unwrap() {
        AgentAction::Drag { start_x, start_y, end_x, end_y } => {
            assert_eq!((start_x, start_y, end_x, end_y), (1, 2, 3, 4));
        },
        _ => panic!("expected a drag"),
    }
    let bad = obj(vec![("action", s("drag"))]);
    assert_eq!(
        bad_message(parse_computer_action(&bad, 1, 1)),
        "Missing start_coordinate",
    );
}

fn bad_message(r: Result<AgentAction, AppError>) -> String {
    match r.unwrap_err() {
        AppError::Agent(m) => m,
        _ => panic!("expected an Agent error"),
    }
}

#[test]
fn action_descriptions() {
    let a = AgentAction::LeftClick { x: 3, y: -7 };
    assert_eq!(a.description().as_str(), "Left click at (3, -7)");
    let t = AgentAction::Type { text: "x".repeat(50) };
    assert_eq!(t.description().as_str(), format!("Typing: \"{}\"", "x".repeat(40)));
    let w = AgentAction::Wait { duration_ms: 250 };
    assert_eq!(w.description().as_str(), "Waiting 250ms");
}

#[test]
fn key_parsing_and_combo_order() {
    assert_eq!(parse_key("Enter").unwrap(), KeyCode::Return);
    assert_eq!(parse_key("ESC").unwrap(), KeyCode::Escape);
    assert_eq!(parse_key("q").unwrap(), KeyCode::Unicode('q'));
    match parse_key("bogus").unwrap_err() {
        AppError::Input(m) => assert_eq!(m.as_str(), "Unknown key: bogus"),
        _ => panic!("expected an Input error"),
    }
    // press modifiers in order, click the key, release in reverse
    let events = plan_key_combo("ctrl+shift+t").unwrap();
    let expect = vec![
        KeyEvent { key: KeyCode::Control, dir: KeyDir::Press },
        KeyEvent { key: KeyCode::Shift, dir: KeyDir::Press },
        KeyEvent { key: KeyCode::Unicode('t'), dir: KeyDir::Click },
        KeyEvent { key: KeyCode::Shift, dir: KeyDir::Release },
        KeyEvent { key: KeyCode::Control, dir: KeyDir::Release },
    ];
    assert_eq!(events, expect);
    let single = plan_key_combo(" enter ").unwrap();
    assert_eq!(single, vec![KeyEvent { key: KeyCode::Return, dir: KeyDir::Click }]);
}

#[test]
fn fast_type_restores_clipboard() {
    let steps = fast_type_steps("prior contents", "typed text");
    assert_eq!(steps.len(), 5);
    match (&steps[0], &steps[4]) {
        (TypeStep::SetClipboard(a), TypeStep::SetClipboard(b)) => {
            assert_eq!(a.as_str(), "typed text");
            assert_eq!(b.as_str(), "prior contents");
        },
        _ => panic!("expected clipboard writes first and last"),
    }
    assert!(matches!(steps[1], TypeStep::SleepMs(10)));
    assert!(matches!(steps[2], TypeStep::PasteCombo));
    assert!(matches!(steps[3], TypeStep::SleepMs(20)));
}

#[test]
fn mouse_path_lands_exactly() {
    let curve = vec![
        Waypoint { x: 5, y: 5, wait_ms: 1 },
        Waypoint { x: 40, y: 60, wait_ms: 2 },
    ];
    let path = plan_path(0, 0, 100, 120, curve.clone());
    assert_eq!(path.len(), 3);
    assert_eq!(path[0], curve[0]);
    assert_eq!(*path.last().unwrap(), Waypoint { x: 100, y: 120, wait_ms: 0 });
    // a short hop teleports
    let hop = plan_path(10, 10, 11, 12, curve);
    assert_eq!(hop, vec![Waypoint { x: 11, y: 12, wait_ms: 0 }]);
}

#[test]
fn scroll_direction_sign() {
    assert_eq!(scroll_click_count("up", 4), -4);
    assert_eq!(scroll_click_count("down", 4), 4);
    assert_eq!(scroll_click_count("sideways", 4), 4);
    // the one amount whose negation does not exist saturates
    assert_eq!(scroll_click_count("up", i32::MIN), i32::MAX);
    assert_eq!(scroll_click_count("down", i32::MIN), i32::MIN);
    assert_eq!(button_from_name("right"), MouseButton::Right);
    assert_eq!(button_from_name("middle"), MouseButton::Middle);
    assert_eq!(button_from_name("anything"), MouseButton::Left);
}

#[test]
fn shell_truncation_length() {
    let long = vec![b'a'; 15000];
    let out = truncate_stream(long);
    assert_eq!(out.len(), 10014);
    assert!(out.ends_with(b"...[truncated]"));
    let short = truncate_stream(vec![b'b'; 10]);
    assert_eq!(short.len(), 10);
}

#[test]
fn shell_output_composition() {
    let both = ShellResult {
        stdout: "out".to_string(),
        stderr: "err".to_string(),
        exit_code: 0,
    };
    assert_eq!(compose_shell_output(&both).as_str(), "out\nSTDERR: err");
    let neither = ShellResult {
        stdout: String::new(),
        stderr: String::new(),
        exit_code: 3,
    };
    assert_eq!(
        compose_shell_output(&neither).as_str(),
        "Command completed with exit code 3",
    );
    let only_err = ShellResult {
        stdout: String::new(),
        stderr: "boom".to_string(),
        exit_code: 1,
    };
    assert_eq!(compose_shell_output(&only_err).as_str(), "STDERR: boom");
}

fn raw(pid: u32, name: &str, ct: &str, rect: (i32, i32, i32, i32)) -> RawElement {
    RawElement {
        pid,
        name: name.to_string(),
        control_type: ct.to_string(),
        left: rect.0,
        top: rect.1,
        right: rect.2,
        bottom: rect.3,
        offscreen: false,
    }
}

#[test]
fn snapshot_filter_rules() {
    let mut elems = vec![
        raw(7, "Save", "button", (0, 0, 10, 10)),
        raw(99, "Own window", "button", (0, 0, 10, 10)),  // our pid
        raw(7, "   ", "button", (0, 0, 10, 10)),          // blank name
        raw(7, "Pane", "pane", (0, 0, 10, 10)),           // not interactive
        raw(7, "Flat", "button", (0, 0, 10, 0)),          // zero height
        raw(7, "Link", "hyperlink", (5, 6, 15, 16)),
    ];
    elems[5].control_type = "link".to_string();
    let nodes = snapshot_filter(&elems, 99);
    assert_eq!(nodes.len(), 2);
    assert_eq!(nodes[0].id, 1);
    assert_eq!(nodes[0].name.as_str(), "Save");
    assert_eq!(nodes[1].id, 2);
    assert_eq!(nodes[1].rect, (5, 6, 15, 16));
}

#[test]
fn snapshot_filter_caps_at_three_hundred() {
    let mut elems = Vec::new();
    for i in 0..350 {
        elems.push(raw(7, &format!("el{}", i), "button", (0, 0, 4, 4)));
    }
    let nodes = snapshot_filter(&elems, 99);
    assert_eq!(nodes.len(), 300);
    assert_eq!(nodes[299].id, 300);
    for (k, n) in nodes.iter().enumerate() {
        assert_eq!(n.id as usize, k + 1);
        assert!(n.rect.2 - n.rect.0 > 0 && n.rect.3 - n.rect.1 > 0);
        assert!(!n.name.trim().is_empty());
    }
}

#[test]
fn node_lookup_and_center() {
    let nodes = vec![
        A11yNode { id: 1, name: "a".into(), control_type: "button".into(), rect: (0, 0, 10, 10) },
        A11yNode { id: 3, name: "b".into(), control_type: "link".into(), rect: (10, 20, 30, 40) },
    ];
    let n = find_node(&nodes, 3).expect("present");
    assert_eq!(node_center(n), (20, 30));
    assert!(find_node(&nodes, 9).is_none());
    let text = a11y_tree_text(&nodes);
    assert_eq!(
        text.as_str(),
        "Screenshot taken.\n\nAccessibility Tree (UI Elements):\n[1] button \"a\"\n[3] link \"b\"\n",
    );
}

#[test]
fn capture_geometry() {
    assert_eq!(scaled_dims(2560, 1440, 1280, 800), (1280, 720));
    assert_eq!(scaled_dims(1000, 600, 1280, 800), (1000, 600));
    assert_eq!(scaled_dims(1000, 2000, 1280, 800), (400, 800));
    assert_eq!(clamp_box((-5, -2, 3000, 500), 1920, 1080), (0, 0, 1919, 500));
    let (x, y, w, h) = label_box(12, 40, 50);
    assert_eq!((x, y, h), (40, 32, 18));
    assert_eq!(w, ("[12]".len() as u64) * 10 + 4);
    let (_, y2, _, _) = label_box(1, 0, 5);
    assert_eq!(y2, 0);
}

#[test]
fn editor_view_numbering() {
    let content = b"alpha\nbeta\r\n\ngamma".to_vec();
    let out = editor_view_text(&content);
    let text = String::from_utf8(out).unwrap();
    assert_eq!(text, "   1 | alpha\n   2 | beta\n   3 | \n   4 | gamma");
}

#[test]
fn editor_replace_first_occurrence() {
    let r = editor_replace("one two one", "one", "1").unwrap();
    assert_eq!(r.as_str(), "1 two one");
    assert!(editor_replace("abc", "zzz", "1").is_none());
    assert_eq!(
        old_str_missing_text("/tmp/f.txt").as_str(),
        "Error: old_str not found in /tmp/f.txt",
    );
}

#[test]
fn state_machine_start_exclusion() {
    let mut st = AgentState::default();
    assert_eq!(st.status, AgentStatus::Idle);
    st.start_run("first".to_string()).unwrap();
    assert_eq!(st.status, AgentStatus::Running);
    assert_eq!(st.iteration, 0);
    // a second start while running fails and changes nothing
    let err = st.start_run("second".to_string()).unwrap_err();
    match err {
        AppError::Agent(m) => assert_eq!(m.as_str(), "Agent is already running"),
        _ => panic!("expected an Agent error"),
    }
    assert_eq!(st.status, AgentStatus::Running);
    assert_eq!(st.current_task.as_deref(), Some("first"));
    // stop requests cancellation and returns to idle at once
    st.stop_run();
    assert_eq!(st.status, AgentStatus::Idle);
    assert!(st.cancel_requested);
    assert!(st.current_task.is_none());
}

#[test]
fn settings_defaults() {
    let s = Settings::default();
    assert_eq!(s.provider.as_str(), "anthropic");
    assert_eq!((s.display_width, s.display_height), (1280, 800));
    assert_eq!(s.shell_timeout_secs, 30);
    assert!(!s.setup_complete);
}

#[test]
fn error_messages_carry_their_category() {
    let cases = vec![
        (AppError::Screenshot("a".into()), "Screenshot failed: a"),
        (AppError::Input("b".into()), "Input error: b"),
        (AppError::Shell("c".into()), "Shell error: c"),
        (AppError::AiProvider("d".into()), "AI provider error: d"),
        (AppError::Agent("e".into()), "Agent error: e"),
        (AppError::Window("f".into()), "Window error: f"),
        (AppError::Settings("g".into()), "Settings error: g"),
        (AppError::Serialization("h".into()), "Serialization error: h"),
        (AppError::Io("i".into()), "IO error: i"),
        (AppError::Request("j".into()), "Request error: j"),
    ];
    for (e, want) in cases {
        assert_eq!(e.message().as_str(), want);
    }
}

#[test]
fn url_normalization() {
    assert_eq!(normalize_base_url("").as_str(), "http://127.0.0.1:11434");
    assert_eq!(normalize_base_url("  myhost:11434/ ").as_str(), "http://myhost:11434");
    assert_eq!(normalize_base_url("https://x.example/v1/").as_str(), "https://x.example");
    assert_eq!(normalize_base_url("http://h//").as_str(), "http://h");
}
