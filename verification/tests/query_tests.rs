use yushi::history::{ToolMessage, ToolUse};
use yushi::query::{
    query_start, query_step, subagent_start, subagent_step, SubagentAction, SubagentEvent, TurnAction, TurnEvent,
};

fn listing(n: u32) -> Vec<(u32, String)> {
    let mut v = vec![(0, "0_workspace.xml".to_string())];
    for i in 1..=n {
        v.push((i, format!("{}_toolcall.xml", i)));
    }
    v
}

fn tool(id: &str) -> ToolUse {
    ToolUse { id: id.to_string(), name: "Bash".to_string(), arguments: "{}".to_string() }
}

#[test]
fn a_turn_records_runs_and_asks_again() {
    let (s, a) = query_start();
    assert!(matches!(a, TurnAction::Ask));
    let files = listing(0);
    let (s, a) = query_step(s, &files, TurnEvent::Replied { content: "thinking".to_string(), tool_uses: Some(vec![tool("t1")]) });
    match a {
        TurnAction::Record(d) => {
            assert_eq!(d.name, "1_thought.xml");
            assert!(d.content.contains("thinking"));
        }
        other => panic!("unexpected {:?}", other),
    }
    let (s, a) = query_step(s, &files, TurnEvent::Recorded);
    assert!(matches!(a, TurnAction::Emit(ref t) if t == "thinking"));
    let (s, a) = query_step(s, &files, TurnEvent::Emitted);
    assert!(matches!(a, TurnAction::RunTool(ref u) if u.id == "t1"));
    let msg = ToolMessage::new_content("ok".to_string(), "t1".to_string());
    let (s, a) = query_step(s, &files, TurnEvent::ToolDone(msg));
    match a {
        TurnAction::Record(d) => assert_eq!(d.name, "1_toolcall.xml"),
        other => panic!("unexpected {:?}", other),
    }
    let (s, a) = query_step(s, &listing(1), TurnEvent::Recorded);
    assert!(matches!(a, TurnAction::Ask));
    // The further turn answers without tools: its (empty) text is shown and everything ends.
    let (s, a) = query_step(s, &listing(1), TurnEvent::Replied { content: String::new(), tool_uses: None });
    assert!(matches!(a, TurnAction::Emit(ref t) if t.is_empty()));
    let (_, a) = query_step(s, &listing(1), TurnEvent::Emitted);
    assert!(matches!(a, TurnAction::Done));
}

#[test]
fn a_long_history_is_summarised_before_the_next_turn() {
    let (s, _) = query_start();
    let (s, _) = query_step(s, &listing(0), TurnEvent::Replied { content: String::new(), tool_uses: Some(vec![tool("a"), tool("b")]) });
    let (s, a) = query_step(s, &listing(0), TurnEvent::Emitted);
    assert!(matches!(a, TurnAction::RunTool(ref u) if u.id == "a"));
    let (s, _) = query_step(s, &listing(10), TurnEvent::ToolDone(ToolMessage::new_content("x".to_string(), "a".to_string())));
    let (s, a) = query_step(s, &listing(11), TurnEvent::Recorded);
    assert!(matches!(a, TurnAction::Schedule));
    let (s, a) = query_step(s, &listing(11), TurnEvent::Scheduled);
    assert!(matches!(a, TurnAction::Ask));
    // The further turn fails: its error is shown, then the outer turn's next tool runs.
    let (s, a) = query_step(s, &listing(11), TurnEvent::AskFailed("timeout".to_string()));
    assert!(matches!(a, TurnAction::Emit(ref t) if t == "LLM query error: timeout"));
    let (s, a) = query_step(s, &listing(11), TurnEvent::Emitted);
    assert!(matches!(a, TurnAction::RunTool(ref u) if u.id == "b"));
    // An event that does not answer the action ends everything.
    let (_, a) = query_step(s, &listing(11), TurnEvent::Scheduled);
    assert!(matches!(a, TurnAction::Done));
}

#[test]
fn a_full_history_gets_a_warning() {
    let (s, _) = query_start();
    let full = vec![(u32::MAX, "x_toolcall.xml".to_string())];
    let (_, a) = query_step(s, &full, TurnEvent::Replied { content: "t".to_string(), tool_uses: None });
    assert!(matches!(a, TurnAction::Warn(ref t) if t == "No history number left"));
}

#[test]
fn a_subagent_asks_until_no_tool_is_called() {
    let (s, a) = subagent_start("do it".to_string());
    assert!(matches!(a, SubagentAction::Ask));
    assert_eq!(s.messages.len(), 1);
    let (s, a) = subagent_step(s, SubagentEvent::Replied { content: "first ".to_string(), tool_uses: Some(vec![tool("x"), tool("y")]) });
    assert!(matches!(a, SubagentAction::RunTool(ref u) if u.id == "x"));
    let (s, a) = subagent_step(s, SubagentEvent::ToolDone(ToolMessage::new_content("1".to_string(), "x".to_string())));
    assert!(matches!(a, SubagentAction::RunTool(ref u) if u.id == "y"));
    let (s, a) = subagent_step(s, SubagentEvent::ToolDone(ToolMessage::new_content("2".to_string(), "y".to_string())));
    assert!(matches!(a, SubagentAction::Ask));
    assert_eq!(s.messages.len(), 4);
    let (_, a) = subagent_step(s, SubagentEvent::Replied { content: "done".to_string(), tool_uses: Some(vec![]) });
    assert!(matches!(a, SubagentAction::Finish(ref t) if t == "first done"));
}
