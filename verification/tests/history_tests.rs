use yushi::history::{
    build_messages_from_history, clear_history_actions, create_intent_delta, create_summary_delta,
    create_thought_delta, create_toolcall_delta, create_workspace_delta, create_workspace_delta_with,
    current_progress_in_order, extract_text_content, generate_tools_xml, get_current_progress_xml, get_history_actions_xml,
    get_merged_memory_xml, get_next_number, get_structural_memory_xml, history_event, init, merge_history,
    save_schedule_result, scan_history_files, should_generate_summary, update_workspace_delta, ChatMessage,
    HistoryEvent, ToolInfo, ToolMessage, ToolUse, WorkspaceChange, WorkspaceInit,
};
use yushi::ynode::YNode;

fn names(v: &[&str]) -> Vec<String> {
    v.iter().map(|s| s.to_string()).collect()
}

fn files(v: &[&str]) -> Vec<(u32, String)> {
    scan_history_files(&names(v))
}

/// The history directory after a first workspace file was written.
fn after_init() -> Vec<(u32, String)> {
    match create_workspace_delta_with(&vec![], "test prompt", "", "", "", "id-1", "2024-01-01T00:00:00Z") {
        WorkspaceInit::Created(d) => files(&[d.name.as_str()]),
        WorkspaceInit::Existing(_) => panic!("expected a new workspace"),
    }
}

#[test]
fn test_init_memory() {
    match init(&vec![], "test prompt", "", "", "") {
        WorkspaceInit::Created(d) => {
            assert_eq!(d.name, "0_workspace.xml");
            assert!(d.content.contains("<system-prompt>test prompt</system-prompt>"));
        },
        WorkspaceInit::Existing(_) => panic!("expected a new workspace"),
    }
    // A second start keeps the workspace there is.
    match init(&files(&["0_workspace.xml", "1_intent.xml"]), "x", "", "", "") {
        WorkspaceInit::Existing(n) => assert_eq!(n, "0_workspace.xml"),
        WorkspaceInit::Created(_) => panic!("expected the existing workspace"),
    }
}

#[test]
fn test_create_intent_delta() {
    let d = create_intent_delta(&after_init(), "测试意图");
    assert_eq!(d.name, "1_intent.xml");
    assert_eq!(
        d.content,
        "<?xml version=\"1.0\" encoding=\"UTF-8\"?>\n<Memory xmlns:x=\"xdsl.xdef\" x:extends=\"0_workspace.xml\">\n    <user-intent>测试意图</user-intent>\n</Memory>\n"
    );
}

#[test]
fn test_create_toolcall_delta() {
    let tool_use = ToolUse { id: "call-001".to_string(), name: "Bash".to_string(), arguments: r#"{"cmd": "ls"}"#.to_string() };
    let tool_message = ToolMessage::new_content("file1\nfile2".to_string(), "call-001".to_string());
    let d = create_toolcall_delta(&after_init(), &tool_use, &tool_message);
    assert_eq!(d.name, "1_toolcall.xml");
}

#[test]
fn test_should_generate_summary() {
    let mut fs = after_init();
    for i in 1..=11 {
        let d = create_intent_delta(&fs, &format!("intent {}", i));
        let mut all: Vec<String> = fs.iter().map(|(_, n)| n.clone()).collect();
        all.push(d.name);
        fs = scan_history_files(&all);
    }
    assert!(should_generate_summary(&fs));
    fs.pop();
    assert!(!should_generate_summary(&fs));
}

#[test]
fn test_thought_format() {
    let d = create_thought_delta(&after_init(), "今天温度是25摄氏度");
    assert_eq!(d.name, "1_thought.xml");
    assert!(d.content.contains("<thought id=\"1\" content=\""));
    assert!(d.content.contains("今天温度是25摄氏度"));
}

#[test]
fn test_toolcall_format() {
    let tool_use = ToolUse {
        id: "call-001".to_string(),
        name: "Bash".to_string(),
        arguments: r#"{\"cmd\": \"ls -al\"}"#.to_string(),
    };
    let tool_message = ToolMessage::new_content("a.pdf\nb.pdf".to_string(), "call-001".to_string());
    let d = create_toolcall_delta(&after_init(), &tool_use, &tool_message);
    assert_eq!(d.name, "1_toolcall.xml");
    assert!(d.content.contains("<toolcall id=\"1\" tool-call-id=\"call-001\" name=\"Bash\""));
    assert!(d.content.contains("status=\"success\""));
    assert!(d.content.contains("result=\""));
}

#[test]
fn test_toolcall_error_format() {
    let tool_use = ToolUse {
        id: "call-002".to_string(),
        name: "Bash".to_string(),
        arguments: r#"{\"cmd\": \"cat test.md\"}"#.to_string(),
    };
    let tool_message = ToolMessage::from_error("文件不存在".to_string(), "call-002".to_string());
    let d = create_toolcall_delta(&after_init(), &tool_use, &tool_message);
    assert!(d.content.contains("tool-call-id=\"call-002\""));
    assert!(d.content.contains("status=\"failed\""));
    assert!(d.content.contains("error=\""));
}

#[test]
fn history_files_are_ordered_by_number() {
    let fs = files(&["10_intent.xml", "current.xml", "2_thought.xml", "x_intent.xml", "2_a.xml", "0_workspace.xml", "3_b.txt"]);
    let ns: Vec<&str> = fs.iter().map(|(_, n)| n.as_str()).collect();
    assert_eq!(ns, vec!["0_workspace.xml", "2_thought.xml", "2_a.xml", "10_intent.xml"]);
    assert_eq!(get_next_number(&fs), 11);
    assert_eq!(get_next_number(&vec![]), 0);
}

#[test]
fn deltas_extend_the_right_file() {
    let fs = files(&["0_workspace.xml", "1_intent.xml", "2_workspace.xml", "3_thought.xml"]);
    let d = create_summary_delta(&fs, "s<", 1, 3);
    assert_eq!(d.name, "4_summary.xml");
    assert!(d.content.contains("x:extends=\"3_thought.xml\""));
    assert!(d.content.contains("<summary id=\"4\" begin_action=\"1\" end_action=\"3\" content=\"s&lt;\" />"));
    let w = update_workspace_delta(&fs, &WorkspaceChange::ToolAdded { name: "Bash".to_string(), description: "run".to_string() });
    assert_eq!(w.name, "4_workspace.xml");
    assert_eq!(
        w.content,
        "<?xml version=\"1.0\" encoding=\"UTF-8\"?>\n<Memory xmlns:x=\"xdsl.xdef\" x:extends=\"2_workspace.xml\">\n    <available-tools>\n        <tool name=\"Bash\" description=\"run\" x:override=\"append\" />\n    </available-tools>\n</Memory>\n"
    );
    let p = update_workspace_delta(&vec![], &WorkspaceChange::SystemPromptUpdated { content: "a&b".to_string() });
    assert_eq!(p.name, "0_workspace.xml");
    assert!(p.content.contains("x:extends=\"0_workspace.xml\""));
    assert!(p.content.contains("    <system-prompt>a&amp;b</system-prompt>\n"));
    let s = save_schedule_result(&fs, "<current-progress>p</current-progress>");
    assert_eq!(s.name, "4_summary.xml");
    assert!(s.content.contains("x:extends=\"2_workspace.xml\""));
    assert!(s.content.contains("    <current-progress>p</current-progress>\n</Memory>\n"));
}

#[test]
fn first_workspace_text() {
    let tools = vec![ToolInfo { name: "Bash".to_string(), description: "Run <cmd>".to_string(), input_schema: "{ \"type\" :\n \"object\" }".to_string() }];
    let tools_xml = generate_tools_xml(&tools);
    assert_eq!(
        tools_xml,
        "<available-tools>\n    <tool name=\"Bash\" description=\"Run &lt;cmd&gt;\" input-schema='{&quot;type&quot;:&quot;object&quot;}' />\n</available-tools>\n"
    );
    assert_eq!(generate_tools_xml(&vec![]), "");
    match create_workspace_delta_with(&vec![], "", "<skills></skills>", &tools_xml, "<available-agents>\n</available-agents>", "i", "t") {
        WorkspaceInit::Created(d) => assert_eq!(
            d.content,
            format!(
                "<?xml version=\"1.0\" encoding=\"UTF-8\"?>\n<Memory id=\"i\" created-at=\"t\">\n    <skills></skills>\n{}<available-agents>\n</available-agents></Memory>\n",
                tools_xml
            )
        ),
        WorkspaceInit::Existing(_) => panic!("expected a new workspace"),
    }
    match create_workspace_delta(&vec![], "p", "", "", "") {
        WorkspaceInit::Created(d) => assert!(d.content.contains("<system-prompt>p</system-prompt>")),
        WorkspaceInit::Existing(_) => panic!("expected a new workspace"),
    }
}

fn node(xml: &str) -> YNode {
    YNode::from_str(xml).unwrap()
}

#[test]
fn reading_the_memory_back() {
    let base = "<Memory id=\"m\"><system-prompt>sp</system-prompt><thought id=\"1\" content=\"t\"/></Memory>".to_string();
    let last = "<Memory xmlns:x=\"xdsl.xdef\" x:extends=\"0_workspace.xml\"><toolcall id=\"2\" name=\"Bash\"/></Memory>";
    let merged = merge_history(last, &vec![("0_workspace.xml".to_string(), base)]).unwrap();
    let actions = get_history_actions_xml(Some(&merged));
    assert!(actions.starts_with("<history-actions>"));
    assert!(actions.contains("toolcall"));
    assert!(!actions.contains("thought"));
    assert_eq!(get_history_actions_xml(None), "<history-actions />");
    assert_eq!(get_history_actions_xml(Some(&node("<Memory><thought id=\"1\"/></Memory>"))), "<history-actions />");
    let structural = get_structural_memory_xml(Some(&merged)).unwrap();
    assert!(structural.contains("system-prompt"));
    assert!(!structural.contains("toolcall"));
    assert!(!structural.contains("thought"));
    assert_eq!(get_structural_memory_xml(None).unwrap_err(), "No memory files found");
    assert_eq!(get_merged_memory_xml(None).unwrap_err(), "No memory files found");
    assert!(get_merged_memory_xml(Some(&merged)).unwrap().contains("toolcall"));
    assert!(merge_history("<Memory>", &vec![]).unwrap_err().starts_with("Failed to parse XML: XML parse error: "));
    let bad_base = merge_history(last, &vec![("0_workspace.xml".to_string(), "<a>".to_string())]).unwrap_err();
    assert!(bad_base.starts_with("Failed to merge: XML parse error: "));
    assert!(clear_history_actions().is_ok());
}

#[test]
fn current_progress_is_cut_out() {
    assert_eq!(get_current_progress_xml("a<current-progress>x</current-progress>b"), "<current-progress>x</current-progress>");
    assert_eq!(get_current_progress_xml("<current-progress>x"), "");
    assert_eq!(get_current_progress_xml("nothing"), "");
}

#[test]
fn events_of_history_files() {
    let intent = node("<Memory><user-intent>  hello  </user-intent></Memory>");
    match history_event("1_intent.xml", &intent) {
        Some(HistoryEvent::Intent(t)) => assert_eq!(t, "hello"),
        other => panic!("{:?}", other),
    }
    assert!(history_event("1_intent.xml", &node("<Memory><user-intent> </user-intent></Memory>")).is_none());
    let tc = node("<Memory><toolcall id=\"3\" name=\"Bash\" arguments=\"{}\" status=\"failed\" error=\"boom\" result=\"r\"/></Memory>");
    match history_event("3_toolcall.xml", &tc) {
        Some(HistoryEvent::Toolcall(c)) => {
            assert_eq!(c.tool_call_id, "call_3");
            assert_eq!(c.status, "failed");
            assert_eq!(c.result_or_error, "boom");
        },
        other => panic!("{:?}", other),
    }
    assert!(matches!(history_event("0_workspace.xml", &node("<Memory/>")), Some(HistoryEvent::Workspace)));
    assert!(matches!(history_event("5_summary.xml", &node("<Memory/>")), Some(HistoryEvent::Summary)));
    assert!(history_event("5_other.xml", &node("<Memory/>")).is_none());
    assert_eq!(extract_text_content(&node("<a> x </a>")), "x");
}

#[test]
fn conversation_from_history() {
    let docs = vec![
        ("0_workspace.xml".to_string(), Some(node("<Memory/>"))),
        ("1_intent.xml".to_string(), Some(node("<Memory><user-intent>list files</user-intent></Memory>"))),
        ("2_thought.xml".to_string(), Some(node("<Memory><thought id=\"2\" content=\"Let me look\"/></Memory>"))),
        ("3_toolcall.xml".to_string(), Some(node("<Memory><toolcall id=\"3\" tool-call-id=\"c1\" name=\"Bash\" arguments=\"ls\" status=\"success\" result=\"a b\"/></Memory>"))),
        ("4_toolcall.xml".to_string(), Some(node("<Memory><toolcall id=\"4\" tool-call-id=\"c2\" name=\"Bash\" arguments=\"pwd\" status=\"failed\" error=\"no\"/></Memory>"))),
        ("5_broken.xml".to_string(), None),
        ("6_thought.xml".to_string(), Some(node("<Memory><thought id=\"6\" content=\"Done\"/></Memory>"))),
        ("7_intent.xml".to_string(), Some(node("<Memory><user-intent>again</user-intent></Memory>"))),
        ("8_toolcall.xml".to_string(), Some(node("<Memory><toolcall id=\"8\" name=\"X\"/></Memory>"))),
    ];
    let ms = build_messages_from_history(&docs);
    assert_eq!(ms.len(), 8);
    assert!(matches!(&ms[0], ChatMessage::User(c) if c == "list files"));
    match &ms[1] {
        ChatMessage::Assistant { content, tool_uses: Some(us) } => {
            assert_eq!(content, "Let me look");
            assert_eq!(us.len(), 2);
            assert_eq!(us[0].id, "c1");
            assert_eq!(us[1].arguments, "pwd");
        },
        other => panic!("{:?}", other),
    }
    assert!(matches!(&ms[2], ChatMessage::Tool(t) if t.content == "a b" && t.tool_use_id == "c1" && !t.is_error));
    assert!(matches!(&ms[3], ChatMessage::Tool(t) if t.content == "no" && t.is_error));
    assert!(matches!(&ms[4], ChatMessage::Assistant { content, tool_uses: None } if content == "Done"));
    assert!(matches!(&ms[5], ChatMessage::User(c) if c == "again"));
    assert!(matches!(&ms[6], ChatMessage::Assistant { content, tool_uses: Some(us) } if content.is_empty() && us[0].id == "call_8"));
    assert!(matches!(&ms[7], ChatMessage::Tool(t) if t.tool_use_id == "call_8" && t.content.is_empty()));
    assert!(build_messages_from_history(&vec![]).is_empty());
}

#[test]
fn merged_memory_follows_the_whole_chain() {
    let files = vec![
        ("0_workspace.xml".to_string(), "<Memory><system-prompt>p</system-prompt></Memory>".to_string()),
        ("1_intent.xml".to_string(), "<Memory xmlns:x=\"x\" x:extends=\"0_workspace.xml\"><user-intent>i</user-intent></Memory>".to_string()),
        ("2_thought.xml".to_string(), "<Memory xmlns:x=\"x\" x:extends=\"1_intent.xml\"><thought content=\"t\"/></Memory>".to_string()),
    ];
    let merged = merge_history(&files[2].1, &files).unwrap();
    let xml = get_merged_memory_xml(Some(&merged)).unwrap();
    assert!(xml.contains("<system-prompt>"));
    assert!(xml.contains("<user-intent>"));
    assert!(xml.contains("<thought"));
    let missing = merge_history(&files[2].1, &files[2..].to_vec()).unwrap_err();
    assert_eq!(missing, "Failed to merge: IO error: file not found: 1_intent.xml");
}

#[test]
fn progress_element_order_is_checked() {
    assert!(current_progress_in_order("<a><current-progress>p</current-progress></a>"));
    assert!(current_progress_in_order("no progress here"));
    assert!(!current_progress_in_order("</current-progress> and later <current-progress>"));
}
