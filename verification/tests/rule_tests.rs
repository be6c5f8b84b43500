use yushi::rule::{Condition, ConditionGroup, MatchMode, Op, Rule, RulePatch, RuleStatus, Rules, DocError};

fn rule(id: &str, name: &str, source: &str, message: &str) -> Rule {
    Rule::new(id.to_string(), name.to_string(), source.to_string(), message.to_string())
}

#[test]
fn test_simple_rule_roundtrip() {
    let r = rule("rule_001", "测试规则", "clock", "执行任务");
    let rules = Rules { rules: vec![r] };
    let xml = rules.to_xml();
    let parsed = Rules::from_xml(&xml).unwrap();

    assert_eq!(parsed.rules.len(), 1);
    assert_eq!(parsed.rules[0].id, "rule_001");
    assert_eq!(parsed.rules[0].name, "测试规则");
    assert_eq!(parsed.rules[0].message, "执行任务");
    assert!(parsed.rules[0].enabled);
}

#[test]
fn test_rule_with_conditions_roundtrip() {
    let mut r = rule("rule_002", "带条件规则", "clock", "检查天气");
    r.conditions.push(Condition {
        field: "time".to_string(),
        op: Op::CronMatch,
        value: "0 8 * * *".to_string(),
        duration_seconds: None,
    });
    r.groups.push(ConditionGroup {
        match_mode: MatchMode::Any,
        conditions: vec![
            Condition { field: "temperature".to_string(), op: Op::Gt, value: "30".to_string(), duration_seconds: Some(60) },
            Condition { field: "humidity".to_string(), op: Op::Lt, value: "20".to_string(), duration_seconds: None },
        ],
        groups: vec![],
    });

    let rules = Rules { rules: vec![r] };
    let xml = rules.to_xml();
    let parsed = Rules::from_xml(&xml).unwrap();

    assert_eq!(parsed.rules.len(), 1);
    let r = &parsed.rules[0];
    assert_eq!(r.conditions.len(), 1);
    assert_eq!(r.conditions[0].field, "time");
    assert_eq!(r.conditions[0].op, Op::CronMatch);
    assert_eq!(r.groups.len(), 1);
    assert_eq!(r.groups[0].match_mode, MatchMode::Any);
    assert_eq!(r.groups[0].conditions.len(), 2);
    assert_eq!(r.groups[0].conditions[0].duration_seconds, Some(60));
}

#[test]
fn test_delta_xml() {
    let r = rule("rule_004", "差量规则", "clock", "更新");
    let rules = Rules { rules: vec![r] };
    let xml = rules.to_delta_xml("base_rules.xml");
    assert!(xml.contains("x:extends=\"base_rules.xml\""));
}

#[test]
fn test_merge_xml_element() {
    let r = rule("rule_005", "原名", "clock", "原消息");
    let patch = RulePatch { name: Some("新名".to_string()), message: Some("新消息".to_string()), ..Default::default() };
    let xml = r.to_merge_xml_element(&patch);
    assert!(xml.contains("x:override=\"merge\""));
    assert!(xml.contains("name=\"新名\""));
    assert!(xml.contains("message=\"新消息\""));
}

#[test]
fn test_remove_xml_element() {
    let r = rule("rule_006", "要删除", "clock", "删除");
    let xml = r.to_remove_xml_element();
    assert!(xml.contains("x:override=\"remove\""));
    assert!(xml.contains("id=\"rule_006\""));
}

#[test]
fn test_apply_patch() {
    let mut r = rule("rule_007", "原名", "clock", "原消息");
    let patch = RulePatch { name: Some("新名".to_string()), enabled: Some(false), timeout_seconds: Some(600), ..Default::default() };
    r.apply_patch(patch);
    assert_eq!(r.name, "新名");
    assert!(!r.enabled);
    assert_eq!(r.timeout_seconds, 600);
    assert_eq!(r.message, "原消息");
}

#[test]
fn test_nested_groups() {
    let mut r = rule("rule_008", "嵌套组", "sensor", "复杂条件");
    r.groups.push(ConditionGroup {
        match_mode: MatchMode::All,
        conditions: vec![Condition { field: "a".to_string(), op: Op::Eq, value: "1".to_string(), duration_seconds: None }],
        groups: vec![ConditionGroup {
            match_mode: MatchMode::Any,
            conditions: vec![
                Condition { field: "b".to_string(), op: Op::Gt, value: "2".to_string(), duration_seconds: None },
                Condition { field: "c".to_string(), op: Op::Lt, value: "3".to_string(), duration_seconds: None },
            ],
            groups: vec![],
        }],
    });
    let rules = Rules { rules: vec![r] };
    let xml = rules.to_xml();
    let parsed = Rules::from_xml(&xml).unwrap();
    let r = &parsed.rules[0];
    assert_eq!(r.groups.len(), 1);
    assert_eq!(r.groups[0].groups.len(), 1);
    assert_eq!(r.groups[0].groups[0].match_mode, MatchMode::Any);
    assert_eq!(r.groups[0].groups[0].conditions.len(), 2);
}

#[test]
fn test_xml_escape() {
    let r = rule("rule_009", "名称<>&\"'测试", "clock", "消息含<特殊>字符");
    let rules = Rules { rules: vec![r] };
    let xml = rules.to_xml();
    assert!(xml.contains("&lt;"));
    assert!(xml.contains("&gt;"));
    assert!(xml.contains("&amp;"));
    assert!(xml.contains("&quot;"));
    let parsed = Rules::from_xml(&xml).unwrap();
    assert_eq!(parsed.rules[0].name, "名称<>&\"'测试");
}

#[test]
fn rule_to_xml_exact_text() {
    let r = rule("r1", "n", "clock", "m");
    assert_eq!(
        r.to_xml_element(),
        "    <rule id=\"r1\" name=\"n\" source-id=\"clock\" match=\"all\" message=\"m\" timeout-seconds=\"300\" />"
    );
    let rules = Rules { rules: vec![] };
    assert_eq!(rules.to_xml(), "<Rules xmlns:x=\"/nop/schema/xdsl.xdef\"></Rules>");
}

#[test]
fn condition_without_valid_op_is_an_error() {
    let xml = "<Rules><rule id=\"a\"><condition field=\"x\" op=\"bogus\" value=\"1\" /></rule></Rules>";
    assert_eq!(Rules::from_xml(xml).unwrap_err(), DocError::InvalidOp);
}

#[test]
fn malformed_rules_document_is_an_xml_error() {
    let xml = "<Rules><rule id=\"a\"></wrong></Rules>";
    assert!(matches!(Rules::from_xml(xml), Err(DocError::Xml(_))));
}

#[test]
fn status_and_op_texts_round_trip() {
    for st in [RuleStatus::Succeeded, RuleStatus::Error, RuleStatus::Skipped] {
        assert_eq!(RuleStatus::from_str(st.as_str()), Some(st));
    }
    for op in [Op::Gt, Op::Lt, Op::Gte, Op::Lte, Op::Eq, Op::Ne, Op::Contains, Op::CronMatch] {
        assert_eq!(Op::from_str(op.as_str()), Some(op));
    }
    assert_eq!(MatchMode::from_str("any"), Some(MatchMode::Any));
    assert_eq!(MatchMode::from_str("ANY"), None);
}

#[test]
fn empty_patch_keeps_rule() {
    let mut r = rule("r", "n", "clock", "m");
    r.apply_patch(RulePatch::new());
    assert_eq!(r.name, "n");
    assert_eq!(r.message, "m");
    assert!(r.enabled);
    assert_eq!(r.timeout_seconds, 300);
}

#[test]
fn unescape_applies_entities_in_order() {
    assert_eq!(yushi::rule::xml_unescape("a&amp;lt;b"), "a<b");
    assert_eq!(yushi::rule::xml_unescape("&quot;x&apos;"), "\"x'");
}

#[test]
fn merge_element_without_children_is_self_closing() {
    let patch = RulePatch { enabled: Some(false), timeout_seconds: Some(5), ..Default::default() };
    assert_eq!(
        yushi::rule::rule_merge_xml_element("r1", &patch),
        "    <rule id=\"r1\" x:override=\"merge\" enabled=\"false\" timeout-seconds=\"5\" />"
    );
}

#[test]
fn rule_as_task_definition() {
    let rule = Rule::new("r<1>".to_string(), String::new(), "clock".to_string(), "say \"hi\"".to_string());
    let xml = rule.task_xdef_at("s1", -5);
    assert!(xml.starts_with("<?xml version=\"1.0\" encoding=\"UTF-8\"?>\n<task xmlns:x=\"/nop/schema/xdsl.xdef\" name=\"rule_r&lt;1&gt;\" source-session=\"s1\" created-at-ms=\"-5\">\n"));
    assert!(xml.contains("<source xdef:value=\"Rule r&lt;1&gt; execution\" />"));
    assert!(xml.contains("<source xdef:value=\"say &quot;hi&quot;\" />"));
    assert!(xml.ends_with("    </call-tool>\n  </sequence>\n</task>\n"));
    let named = Rule::new("a".to_string(), "Daily".to_string(), "clock".to_string(), "m".to_string());
    assert!(named.to_task_xdef("s").contains("<source xdef:value=\"Daily\" />"));
}

#[test]
fn rule_texts_with_markup_read_back() {
    let mut r = rule("r<1>", "say \"hi\" 'there'", "clock", "a > b < c");
    r.conditions.push(Condition { field: "x\"y".to_string(), op: Op::Eq, value: "<v>".to_string(), duration_seconds: None });
    let rules = Rules { rules: vec![r] };
    let parsed = Rules::from_xml(&rules.to_xml()).unwrap();
    assert_eq!(parsed.rules.len(), 1);
    assert_eq!(parsed.rules[0].id, "r<1>");
    assert_eq!(parsed.rules[0].name, "say \"hi\" 'there'");
    assert_eq!(parsed.rules[0].message, "a > b < c");
    assert_eq!(parsed.rules[0].conditions[0].field, "x\"y");
    assert_eq!(parsed.rules[0].conditions[0].value, "<v>");
}
