use yushi::context::{
    ActionResult, ActionStatus, ActionType, ContextStatus, FileEntry, MemoryStatus, SkillDef, Skills, Workspace,
};

#[test]
fn test_action_result_ok() {
    let result = ActionResult::ok("成功".to_string());
    assert_eq!(result.status, ActionStatus::Succeeded);
    assert!(result.error.is_none());
}

#[test]
fn test_action_result_error() {
    let result = ActionResult::error("失败".to_string());
    assert_eq!(result.status, ActionStatus::Error);
    assert!(result.error.is_some());
}

#[test]
fn test_workspace_new() {
    let ws = Workspace::new();
    assert!(ws.files.is_empty());
}

#[test]
fn test_workspace_add_file() {
    let mut ws = Workspace::new();
    let file = FileEntry::new("test.txt".to_string());
    ws.add_file(file);
    assert_eq!(ws.files.len(), 1);
    assert!(ws.find_file("test.txt").is_some());
}

#[test]
fn test_file_entry() {
    let file = FileEntry::new("test.txt".to_string());
    assert_eq!(file.name, "test.txt");
    assert!(file.description.is_none());
}

#[test]
fn test_file_entry_with_description() {
    let file = FileEntry::with_description("test.txt".to_string(), "测试文件".to_string());
    assert_eq!(file.description, Some("测试文件".to_string()));
}

#[test]
fn test_skill_def() {
    let skill = SkillDef::with_description("weather".to_string(), "获取天气信息".to_string());
    assert_eq!(skill.name, "weather");
    assert_eq!(skill.description, Some("获取天气信息".to_string()));
}

#[test]
fn workspace_merge_updates_and_appends() {
    let mut ws = Workspace::new()
        .with_file(FileEntry::new("a.txt".to_string()))
        .with_file(FileEntry::with_description("b.txt".to_string(), "old".to_string()));
    let other = Workspace::new()
        .with_file(FileEntry::with_description("b.txt".to_string(), "new".to_string()))
        .with_file(FileEntry::new("a.txt".to_string()))
        .with_file(FileEntry::new("c.txt".to_string()));
    ws.merge(&other);
    assert_eq!(ws.files.len(), 3);
    assert_eq!(ws.files[0].description, None);
    assert_eq!(ws.files[1].description, Some("new".to_string()));
    assert_eq!(ws.files[2].name, "c.txt");
}

#[test]
fn workspace_remove_and_find_mut() {
    let mut ws = Workspace::new().with_file(FileEntry::new("a".to_string())).with_file(FileEntry::new("b".to_string()));
    if let Some(f) = ws.find_file_mut("b") {
        f.set_description("bee".to_string());
    }
    assert_eq!(ws.find_file("b").unwrap().description, Some("bee".to_string()));
    let removed = ws.remove_file("a").unwrap();
    assert_eq!(removed.name, "a");
    assert!(ws.remove_file("a").is_none());
    assert_eq!(ws.files.len(), 1);
}

#[test]
fn action_texts() {
    assert_eq!(ActionType::ToolCall.as_str(), "tool-call");
    assert_eq!(ActionType::HistoricalSummary.as_str(), "historical-summary");
    assert_eq!(ActionStatus::Error.as_str(), "ERROR");
    let r = ActionResult::summary_with_raw("s".to_string(), "raw".to_string());
    assert!(r.is_summary);
    assert_eq!(r.raw_content, Some("raw".to_string()));
    let r = ActionResult::ok("x".to_string()).with_raw_content("full".to_string());
    assert_eq!(r.raw_content, Some("full".to_string()));
    assert!(ActionResult::summary("x".to_string()).is_summary);
}

#[test]
fn statuses_and_skills() {
    assert_eq!(MemoryStatus::from_context(ContextStatus::from_memory(MemoryStatus::Failed)), MemoryStatus::Failed);
    assert_eq!(MemoryStatus::default(), MemoryStatus::Pending);
    let mut skills = Skills::new();
    assert!(skills.is_empty());
    skills.items.push(SkillDef::new("w".to_string()));
    assert_eq!(skills.iter().len(), 1);
}
