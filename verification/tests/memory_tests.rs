use yushi::context::{ActionResult, ActionStatus, ActionType, MemoryStatus};
use yushi::json::Json;
use yushi::ynode::OverrideRule;
use yushi::memory::{
    chrono_like_format, days_to_md, days_to_ymd, is_leap_year, Action, ActionList, Memory, ToolDef,
    Tools,
};

#[test]
fn test_action_thought() {
    let action = Action::thought("test-1".to_string(), "这是一个思考".to_string());
    assert_eq!(action.action_type, ActionType::Thought);
    assert!(action.result.is_some());
}

#[test]
fn test_agent_context_new() {
    let ctx = Memory::new("测试意图".to_string());
    assert!(!ctx.id.is_empty());
    assert_eq!(ctx.version, 1);
    assert_eq!(ctx.intent, "测试意图");
    assert_eq!(ctx.status, MemoryStatus::Pending);
}

#[test]
fn test_agent_context_add_action() {
    let mut ctx = Memory::new("测试".to_string());
    let action = Action::thought("action-1".to_string(), "思考内容".to_string());

    ctx.add_action(action);

    assert_eq!(ctx.history.len(), 1);
    assert_eq!(ctx.current.len(), 1);
    assert_eq!(ctx.version, 2);
}

#[test]
fn test_agent_context_current_limit() {
    let mut ctx = Memory::new("测试".to_string());

    for i in 0..12 {
        ctx.add_action(Action::thought(format!("action-{}", i), "思考".to_string()));
    }

    assert_eq!(ctx.history.len(), 12);
    assert_eq!(ctx.current.len(), 10);
}

#[test]
fn test_tool_def() {
    let tool = ToolDef::with_description("bash".to_string(), "执行bash命令".to_string());
    assert_eq!(tool.name, "bash");
    assert_eq!(tool.description, Some("执行bash命令".to_string()));
}

#[test]
fn memory_current_keeps_the_newest_ten() {
    let mut ctx = Memory::new("intent".to_string());
    for i in 0..12 {
        ctx.add_action(Action::thought(format!("a{}", i), "t".to_string()));
    }
    let current = ctx.current.iter();
    assert_eq!(current[0].id, "a2");
    assert_eq!(current[9].id, "a11");
    assert_eq!(ctx.version, 13);
}

#[test]
fn memory_recent_actions_newest_first() {
    let mut ctx = Memory::new("intent".to_string());
    for i in 0..3 {
        ctx.add_action(Action::thought(format!("a{}", i), "t".to_string()));
    }
    let recent = ctx.get_recent_actions(2);
    assert_eq!(recent.len(), 2);
    assert_eq!(recent[0].id, "a2");
    assert_eq!(recent[1].id, "a1");
    assert_eq!(ctx.get_recent_actions(10).len(), 3);
}

#[test]
fn memory_get_action_by_id() {
    let mut ctx = Memory::new("intent".to_string());
    ctx.add_action(Action::thought("x".to_string(), "first".to_string()));
    ctx.add_action(Action::system_message("x".to_string(), "second".to_string()));
    let a = ctx.get_action("x").unwrap();
    assert_eq!(a.name, "thought");
    assert!(ctx.get_action("y").is_none());
}

#[test]
fn memory_status_changes_raise_version() {
    let mut ctx = Memory::with_system_prompt("intent".to_string(), "be brief".to_string());
    assert_eq!(ctx.system_prompt, Some("be brief".to_string()));
    ctx.mark_success();
    assert_eq!(ctx.status, MemoryStatus::Success);
    ctx.mark_failed();
    assert_eq!(ctx.status, MemoryStatus::Failed);
    ctx.set_status(MemoryStatus::Pending);
    assert_eq!(ctx.status, MemoryStatus::Pending);
    assert_eq!(ctx.version, 4);
    let merged = ctx.merge(&Memory::new("other".to_string())).unwrap();
    assert_eq!(merged.version, 5);
    assert_eq!(merged.intent, "intent");
    assert_eq!(merged.id, ctx.id);
}

#[test]
fn memory_window_starts_at_last_summary() {
    let mut ctx = Memory::new("intent".to_string());
    for i in 0..3 {
        ctx.add_action(Action::thought(format!("a{}", i), "t".to_string()));
    }
    ctx.add_action(Action::historical_summary("s".to_string(), "summary".to_string(), 3));
    for i in 0..12 {
        ctx.add_action(Action::thought(format!("b{}", i), "t".to_string()));
    }
    ctx.update_current_from_history();
    let current = ctx.current.iter();
    assert_eq!(current.len(), 10);
    assert_eq!(current[0].id, "s");
    assert_eq!(current[1].id, "b0");
    assert_eq!(current[9].id, "b8");
}

#[test]
fn memory_window_without_summary_is_last_ten() {
    let mut ctx = Memory::new("intent".to_string());
    for i in 0..15 {
        ctx.history.push(Action::thought(format!("a{}", i), "t".to_string()));
    }
    ctx.update_current_from_history();
    let current = ctx.current.iter();
    assert_eq!(current.len(), 10);
    assert_eq!(current[0].id, "a5");
}

#[test]
fn historical_summary_records_count() {
    let a = Action::historical_summary("s".to_string(), "sum".to_string(), 7);
    assert_eq!(a.name, "_historical_summary");
    assert_eq!(a.action_type, ActionType::HistoricalSummary);
    match a.arguments {
        Some(Json::Object(m)) => {
            assert_eq!(m[0].0, "summarized_count");
            assert!(matches!(m[0].1, Json::PosInt(7)));
            assert_eq!(m[1].0, "summary_method");
            assert!(matches!(&m[1].1, Json::Str(s) if s == "llm_summarization"));
        }
        _ => panic!("arguments expected"),
    }
    let r = a.result.unwrap();
    assert!(r.is_summary);
    assert_eq!(r.status, ActionStatus::Succeeded);
}

#[test]
fn action_override_rule() {
    let a = Action::tool("t".to_string(), "bash".to_string(), Json::Null, ActionResult::ok("done".to_string()));
    assert_eq!(a.get_override_rule(), OverrideRule::Merge);
    let a = a.with_override("append".to_string());
    assert_eq!(a.get_override_rule(), OverrideRule::Append);
}

#[test]
fn action_list_drain_and_truncate() {
    let mut l = ActionList::with_override("append");
    assert_eq!(l.x_override, Some("append".to_string()));
    for i in 0..5 {
        l.push(Action::thought(format!("a{}", i), "t".to_string()));
    }
    l.drain_front(2);
    assert_eq!(l.iter()[0].id, "a2");
    assert_eq!(l.skip(2).len(), 1);
    assert_eq!(l.skip(9).len(), 0);
    l.truncate(1);
    assert_eq!(l.len(), 1);
    assert_eq!(l.last().unwrap().id, "a2");
    l.clear();
    assert!(l.is_empty());
}

#[test]
fn tools_from_list() {
    let t = Tools::from(vec![ToolDef::new("bash".to_string())]);
    assert!(!t.is_empty());
    assert_eq!(t.iter()[0].name, "bash");
}

#[test]
fn calendar_dates() {
    assert_eq!(chrono_like_format(0), "1970-01-01T00:00:00");
    assert_eq!(chrono_like_format(951_782_400), "2000-02-29T00:00:00");
    assert_eq!(chrono_like_format(1_700_000_000), "2023-11-14T22:13:20");
    assert_eq!(days_to_ymd(365), (1971, 1, 1));
    assert_eq!(days_to_md(59, true), (2, 29));
    assert_eq!(days_to_md(59, false), (3, 1));
    assert_eq!(days_to_md(400, false), (12, 31));
    assert!(is_leap_year(2000));
    assert!(!is_leap_year(1900));
    assert!(is_leap_year(2024));
}

#[test]
fn merge_keeps_tools_and_skills() {
    let mut ctx = Memory::new("intent".to_string());
    ctx.set_tools(vec![
        ToolDef::with_description("Bash".to_string(), "runs a command".to_string()),
        ToolDef::new("Read".to_string()),
    ]);
    ctx.set_skills(vec![yushi::context::SkillDef::with_description(
        "review".to_string(),
        "reads a diff".to_string(),
    )]);
    let merged = ctx.merge(&Memory::new("other".to_string())).unwrap();
    assert_eq!(merged.tools.items.len(), 2);
    assert_eq!(merged.tools.items[0].name, "Bash");
    assert_eq!(merged.tools.items[0].description.as_deref(), Some("runs a command"));
    assert_eq!(merged.tools.items[1].name, "Read");
    assert!(merged.tools.items[1].description.is_none());
    assert_eq!(merged.skills.items.len(), 1);
    assert_eq!(merged.skills.items[0].name, "review");
    assert_eq!(merged.skills.items[0].description.as_deref(), Some("reads a diff"));
}
