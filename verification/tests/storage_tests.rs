use std::path::PathBuf;
use yushi::rule::{Rule, RulePatch};
use yushi::source::EventSource;
use yushi::storage::{
    last_file_name, next_sequence_number, plan_document, scan_xml_files, PlanStep, Storage,
};

fn names(v: &[&str]) -> Vec<String> {
    v.iter().map(|s| s.to_string()).collect()
}

#[test]
fn test_storage_dirs() {
    let dir = PathBuf::from("/tmp/automation");
    let storage = Storage::new(dir.to_string_lossy().to_string());
    assert_eq!(PathBuf::from(storage.rules_dir()), dir.join("rules"));
    assert_eq!(PathBuf::from(storage.sources_dir()), dir.join("sources"));
}

#[test]
fn test_next_sequence_number_empty_dir() {
    let seq = next_sequence_number(&Vec::new());
    assert_eq!(seq, 1);
}

#[test]
fn test_scan_xml_files() {
    let files = scan_xml_files(&names(&["0_base.xml", "1_add_test.xml", "ignore.txt"]));
    assert_eq!(files.len(), 2);
    assert!(files.contains(&"0_base.xml".to_string()));
    assert!(files.contains(&"1_add_test.xml".to_string()));
}

#[test]
fn test_last_file_name() {
    let last = last_file_name(&names(&["1_add_r1.xml", "2_update_r1.xml", "0_base.xml"]));
    assert_eq!(last, Some("2_update_r1.xml".to_string()));
}

fn steps() -> Vec<PlanStep> {
    vec![
        PlanStep { tool: "Bash".to_string(), arguments: r#"{"command":"curl -s wttr.in/?format=%t"}"#.to_string() },
        PlanStep { tool: "FileRead".to_string(), arguments: r#"{"path":"/tmp/test.txt"}"#.to_string() },
    ]
}

#[test]
fn test_save_and_read_plan() {
    let storage = Storage::new("/tmp/auto".to_string());
    let file = storage.save_plan("rule_001", &steps(), "sessions/rule_001_123");
    assert_eq!(file.path, "/tmp/auto/plans/rule_001.task.xml");
    let loaded = storage.read_plan(Some(&file.content)).unwrap();
    assert_eq!(loaded.len(), 2);
    assert_eq!(loaded[0].tool, "Bash");
    assert!(loaded[0].arguments.contains("curl"));
    assert_eq!(loaded[1].tool, "FileRead");
}

#[test]
fn test_read_plan_nonexistent() {
    let storage = Storage::new("/tmp/auto".to_string());
    assert!(storage.read_plan(None).is_none());
}

#[test]
fn test_plan_xml_escape() {
    let storage = Storage::new("/tmp/auto".to_string());
    let s = vec![PlanStep { tool: "Bash".to_string(), arguments: r#"{"cmd":"echo '<test>' && echo \"done\""}"#.to_string() }];
    let file = storage.save_plan("rule_special", &s, "sessions/test");
    let loaded = storage.read_plan(Some(&file.content)).unwrap();
    assert_eq!(loaded.len(), 1);
    assert!(loaded[0].arguments.contains("<test>"));
    assert!(loaded[0].arguments.contains("\""));
}

#[test]
fn plan_document_exact_text() {
    let doc = plan_document(&vec![PlanStep { tool: "T\"".to_string(), arguments: "a<b \"q\"".to_string() }], "s", 42);
    assert_eq!(
        doc,
        "<?xml version=\"1.0\" encoding=\"UTF-8\"?>\n<task xmlns:x=\"/nop/schema/xdsl.xdef\"\n      source-session=\"s\"\n      created-at-ms=\"42\">\n    <step tool=\"T&quot;\">\n        <arguments>a&lt;b \"q\"</arguments>\n    </step>\n</task>\n"
    );
}

#[test]
fn plan_status_counts_steps() {
    let storage = Storage::new("/x".to_string());
    let content = "<task created-at-ms=\"99\"><step tool=\"a\" arguments=\"{}\" /><step tool=\"b\" arguments=\"{}\" /></task>";
    let st = storage.get_plan_status("r1", Some(content));
    assert!(st.exists);
    assert_eq!(st.path, "plans/r1.task.xml");
    assert_eq!(st.created_at_ms, Some(99));
    assert_eq!(st.steps_count, 2);
    let none = storage.get_plan_status("r1", None);
    assert!(!none.exists);
    assert_eq!(none.steps_count, 0);
    let old_form = storage.read_plan(Some(content)).unwrap();
    assert_eq!(old_form.len(), 2);
    assert_eq!(old_form[1].tool, "b");
}

#[test]
fn next_sequence_follows_largest() {
    assert_eq!(next_sequence_number(&names(&["0_base.xml", "7_add_x.xml", "3_add_y.xml", "notes.xml"])), 8);
}

#[test]
fn delta_files_are_numbered_and_extend_the_last() {
    let storage = Storage::new("/a".to_string());
    let existing = names(&["0_base.xml", "1_add_r1.xml"]);
    let rule = Rule::new("r2".to_string(), "n".to_string(), "clock".to_string(), "m".to_string());
    let add = storage.create_rule_add_delta(&rule, &existing);
    assert_eq!(add.path, "/a/rules/2_add_r2.xml");
    assert!(add.content.contains("x:extends=\"1_add_r1.xml\""));
    let upd = storage.create_rule_update_delta_by_id("r2", &RulePatch { name: Some("z".to_string()), ..Default::default() }, &existing);
    assert_eq!(upd.path, "/a/rules/2_update_r2.xml");
    assert!(upd.content.starts_with("<?xml version=\"1.0\" encoding=\"UTF-8\"?>\n<Rules xmlns:x=\"/nop/schema/xdsl.xdef\" x:extends=\"1_add_r1.xml\">\n    <rule id=\"r2\" x:override=\"merge\" name=\"z\" />"));
    let rm = storage.create_rule_remove_delta("r2", &existing);
    assert_eq!(rm.path, "/a/rules/2_remove_r2.xml");
    assert!(rm.content.ends_with("    <rule id=\"r2\" x:override=\"remove\" />\n</Rules>"));
    let src = storage.create_source_add_delta(&EventSource::clock(), &Vec::new());
    assert_eq!(src.path, "/a/sources/1_add_clock.xml");
    assert!(src.content.contains("x:extends=\"0_base.xml\""));
}

#[test]
fn merged_rules_from_chain() {
    let storage = Storage::new("/a".to_string());
    let base = storage.base_rules_file().content;
    let rule = Rule::new("r1".to_string(), "n".to_string(), "clock".to_string(), "m".to_string());
    let delta = storage.create_rule_add_delta(&rule, &names(&["0_base.xml"])).content;
    let rules = storage.load_merged_rules(Some(&delta), &vec![("0_base.xml".to_string(), base)]).unwrap();
    assert_eq!(rules.len(), 1);
    assert_eq!(rules[0].id, "r1");
    assert!(storage.load_merged_rules(None, &Vec::new()).unwrap().is_empty());
}

#[test]
fn unescape_attr_undoes_escape() {
    let s = "a&b<c>d\"e'f &lt;";
    let e = yushi::storage::escape_xml_attr(s);
    assert_eq!(yushi::storage::unescape_xml_attr(&e), s);
}

#[test]
fn plan_status_counts_saved_steps() {
    let storage = Storage::new("/x".to_string());
    let file = storage.save_plan("r1", &steps(), "s");
    let st = storage.get_plan_status("r1", Some(&file.content));
    assert!(st.exists);
    assert_eq!(st.path, "plans/r1.task.xml");
    assert!(st.created_at_ms.is_some());
    assert_eq!(st.steps_count, 2);
}

#[test]
fn removed_rule_stays_removed_after_loading() {
    let storage = Storage::new("/a".to_string());
    let base = storage.base_rules_file().content;
    let r1 = Rule::new("r1".to_string(), "n".to_string(), "clock".to_string(), "m".to_string());
    let r2 = Rule::new("r2".to_string(), "n".to_string(), "clock".to_string(), "m".to_string());
    let add1 = storage.create_rule_add_delta(&r1, &names(&["0_base.xml"])).content;
    let add2 = storage.create_rule_add_delta(&r2, &names(&["0_base.xml", "1_add_r1.xml"])).content;
    let rm1 = storage.create_rule_remove_delta("r1", &names(&["0_base.xml", "1_add_r1.xml", "2_add_r2.xml"])).content;
    let dir = vec![
        ("0_base.xml".to_string(), base),
        ("1_add_r1.xml".to_string(), add1),
        ("2_add_r2.xml".to_string(), add2.clone()),
        ("3_remove_r1.xml".to_string(), rm1.clone()),
    ];
    let before = storage.load_merged_rules(Some(&add2), &dir).unwrap();
    assert_eq!(before.iter().map(|r| r.id.as_str()).collect::<Vec<_>>(), vec!["r1", "r2"]);
    let after = storage.load_merged_rules(Some(&rm1), &dir).unwrap();
    assert_eq!(after.iter().map(|r| r.id.as_str()).collect::<Vec<_>>(), vec!["r2"]);
}

#[test]
fn updated_rule_loads_once_with_its_changes() {
    let storage = Storage::new("/a".to_string());
    let base = storage.base_rules_file().content;
    let r1 = Rule::new("r1".to_string(), "old".to_string(), "clock".to_string(), "m".to_string());
    let add1 = storage.create_rule_add_delta(&r1, &names(&["0_base.xml"])).content;
    let patch = RulePatch { name: Some("new".to_string()), ..Default::default() };
    let upd = storage.create_rule_update_delta_by_id("r1", &patch, &names(&["0_base.xml", "1_add_r1.xml"])).content;
    let dir = vec![
        ("0_base.xml".to_string(), base),
        ("1_add_r1.xml".to_string(), add1),
        ("2_update_r1.xml".to_string(), upd.clone()),
    ];
    let rules = storage.load_merged_rules(Some(&upd), &dir).unwrap();
    assert_eq!(rules.len(), 1);
    assert_eq!(rules[0].id, "r1");
    assert_eq!(rules[0].name, "new");
    assert_eq!(rules[0].message, "m");
}

#[test]
fn plan_tools_with_markup_read_back() {
    let storage = Storage::new("/x".to_string());
    let s = vec![PlanStep { tool: "A&B <\"q\"> 'x' &lt;".to_string(), arguments: "{}".to_string() }];
    let file = storage.save_plan("r", &s, "sess");
    let loaded = storage.read_plan(Some(&file.content)).unwrap();
    assert_eq!(loaded.len(), 1);
    assert_eq!(loaded[0].tool, "A&B <\"q\"> 'x' &lt;");
}
