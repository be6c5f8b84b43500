use yushi::context::ActionResult;
use yushi::json::Json;
use yushi::manager::{count_numbered_deltas, delta_file_name, extends_file, is_delta_file, last_delta_file, ContextManager};

fn names(v: &[&str]) -> Vec<String> {
    v.iter().map(|s| s.to_string()).collect()
}

#[test]
fn test_context_manager_new() {
    let manager = ContextManager::new("测试任务".to_string());
    assert_eq!(manager.context().intent, "测试任务");
    assert_eq!(manager.context().history.len(), 0);
    assert_eq!(manager.delta_counter, 0);
}

#[test]
fn test_context_manager_add_actions() {
    let mut manager = ContextManager::new("测试".to_string());
    let dir = names(&["base.xml"]);
    let first = manager.add_thought("思考中...".to_string(), &dir);
    assert_eq!(first.extends, "base.xml");
    assert_eq!(first.file_name, format!("001_{}.xml", first.action_id));
    let dir = names(&["base.xml", "current.xml", &first.file_name]);
    let args = Json::Object(vec![("command".to_string(), Json::Str("ls".to_string()))]);
    let second = manager.add_tool_call("bash".to_string(), args, &dir);
    assert_eq!(second.extends, first.file_name);
    assert!(second.file_name.starts_with("002_"));
    manager.add_tool_result("bash".to_string(), ActionResult::ok("成功".to_string()), &dir);
    assert_eq!(manager.context().history.len(), 3);
    assert_eq!(manager.get_current_ids().len(), 3);
    assert_eq!(manager.get_current_ids()[0], first.action_id);
}

#[test]
fn delta_names_and_counts() {
    assert!(is_delta_file("001_a.xml"));
    assert!(!is_delta_file("base.xml"));
    assert!(!is_delta_file("current.xml"));
    assert!(!is_delta_file("notes.txt"));
    assert_eq!(delta_file_name(7, "x"), "007_x.xml");
    assert_eq!(delta_file_name(1234, "x"), "1234_x.xml");
    let dir = names(&["base.xml", "002_b.xml", "010_c.xml", "current.xml", "001_a.xml", "zz.xml"]);
    assert_eq!(last_delta_file(&dir), Some("zz.xml".to_string()));
    assert_eq!(extends_file(1, &dir), "base.xml");
    assert_eq!(extends_file(2, &names(&["base.xml", "002_b.xml", "010_c.xml"])), "010_c.xml");
    assert_eq!(extends_file(2, &names(&["base.xml"])), "base.xml");
    assert_eq!(count_numbered_deltas(&dir), 3);
    let loaded = ContextManager::load(ContextManager::new("i".to_string()).context, &dir);
    assert_eq!(loaded.delta_counter, 3);
}
