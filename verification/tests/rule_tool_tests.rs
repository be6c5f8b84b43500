use yushi::engine::{EngineStatus, LastRunStatus, PlanCacheStatus, RuleStatusInfo};
use yushi::json::Json;
use yushi::rule::{MatchMode, Op, Rule};
use yushi::rule_tool::{
    clears_plan, command_reply, list_document, parse_conditions_from_json, parse_groups_from_json,
    parse_patch_from_json, parse_rule_from_json, request_of, request_with_id, rule_from_json, sources_document,
    status_document, CommandResult, RuleRequest, ToolReply,
};
use yushi::source::{EventSource, SourceType};

fn s(t: &str) -> Json {
    Json::Str(t.to_string())
}

fn obj(members: Vec<(&str, Json)>) -> Json {
    Json::Object(members.into_iter().map(|(k, v)| (k.to_string(), v)).collect())
}

fn member<'a>(j: &'a Json, key: &str) -> &'a Json {
    j.get(key).expect("member")
}

#[test]
fn test_parse_rule_from_json() {
    let input = obj(vec![
        ("name", s("测试规则")),
        ("source_id", s("clock")),
        ("message", s("执行任务")),
        ("conditions", Json::Array(vec![obj(vec![
            ("field", s("time")),
            ("op", s("cron-match")),
            ("value", s("0 8 * * *")),
        ])])),
    ]);

    let rule = parse_rule_from_json(&input).unwrap();
    assert_eq!(rule.name, "测试规则");
    assert_eq!(rule.source_id, "clock");
    assert_eq!(rule.message, "执行任务");
    assert_eq!(rule.conditions.len(), 1);
    assert_eq!(rule.conditions[0].op, Op::CronMatch);
}

#[test]
fn test_parse_patch_from_json() {
    let input = obj(vec![("id", s("rule_001")), ("name", s("新名称")), ("enabled", Json::Bool(false))]);

    let patch = parse_patch_from_json(&input);
    assert_eq!(patch.name, Some("新名称".to_string()));
    assert_eq!(patch.enabled, Some(false));
    assert!(patch.message.is_none());
}

#[test]
fn test_parse_conditions() {
    let conditions = vec![
        obj(vec![
            ("field", s("temperature")),
            ("op", s("gt")),
            ("value", s("30")),
            ("duration_seconds", Json::PosInt(60)),
        ]),
        obj(vec![("field", s("humidity")), ("op", s("lt")), ("value", s("20"))]),
    ];

    let parsed = parse_conditions_from_json(&conditions);
    assert_eq!(parsed.len(), 2);
    assert_eq!(parsed[0].field, "temperature");
    assert_eq!(parsed[0].op, Op::Gt);
    assert_eq!(parsed[0].duration_seconds, Some(60));
    assert_eq!(parsed[1].field, "humidity");
    assert_eq!(parsed[1].op, Op::Lt);
    assert!(parsed[1].duration_seconds.is_none());
}

#[test]
fn test_parse_groups() {
    let groups = vec![obj(vec![
        ("match", s("any")),
        ("conditions", Json::Array(vec![obj(vec![("field", s("a")), ("op", s("eq")), ("value", s("1"))])])),
        ("groups", Json::Array(vec![])),
    ])];

    let parsed = parse_groups_from_json(&groups);
    assert_eq!(parsed.len(), 1);
    assert_eq!(parsed[0].match_mode, MatchMode::Any);
    assert_eq!(parsed[0].conditions.len(), 1);
}

#[test]
fn conditions_without_a_valid_op_or_field_are_skipped() {
    let conditions = vec![
        obj(vec![("field", s("a")), ("op", s("between")), ("value", s("1"))]),
        obj(vec![("op", s("eq")), ("value", s("1"))]),
        obj(vec![("field", s("b")), ("op", s("ne")), ("value", s("2"))]),
    ];
    let parsed = parse_conditions_from_json(&conditions);
    assert_eq!(parsed.len(), 1);
    assert_eq!(parsed[0].field, "b");
    assert_eq!(parsed[0].op, Op::Ne);
}

#[test]
fn nested_groups_default_to_all() {
    let groups = vec![obj(vec![
        ("match", s("sometimes")),
        ("groups", Json::Array(vec![obj(vec![("match", s("any"))])])),
    ])];
    let parsed = parse_groups_from_json(&groups);
    assert_eq!(parsed[0].match_mode, MatchMode::All);
    assert_eq!(parsed[0].groups.len(), 1);
    assert_eq!(parsed[0].groups[0].match_mode, MatchMode::Any);
    assert!(parsed[0].conditions.is_empty());
}

#[test]
fn rule_input_defaults_and_errors() {
    let input = obj(vec![("name", s("n")), ("message", s("m")), ("timeout_seconds", Json::PosInt(60))]);
    let rule = rule_from_json(&input, "r1".to_string()).unwrap();
    assert_eq!(rule.id, "r1");
    assert_eq!(rule.source_id, "clock");
    assert_eq!(rule.timeout_seconds, 60);
    assert!(rule.enabled);

    let no_name = obj(vec![("message", s("m"))]);
    assert_eq!(rule_from_json(&no_name, "r".to_string()).unwrap_err(), "Missing required parameter: name");
    let no_message = obj(vec![("name", s("n"))]);
    assert_eq!(rule_from_json(&no_message, "r".to_string()).unwrap_err(), "Missing required parameter: message");
}

#[test]
fn patch_description_null_clears() {
    let input = obj(vec![("description", Json::Null), ("timeout_seconds", Json::PosInt(5))]);
    let patch = parse_patch_from_json(&input);
    assert_eq!(patch.description, Some(None));
    assert_eq!(patch.timeout_seconds, Some(5));
    let input = obj(vec![("description", s("d"))]);
    assert_eq!(parse_patch_from_json(&input).description, Some(Some("d".to_string())));
}

fn error_of(r: ToolReply) -> String {
    match r {
        ToolReply::Error(e) => e,
        ToolReply::Content(j) => panic!("expected an error, got {:?}", j),
    }
}

#[test]
fn requests_by_action() {
    let add = obj(vec![("action", s("add")), ("name", s("n")), ("message", s("m"))]);
    match request_with_id(&add, "new".to_string()) {
        RuleRequest::Add(r) => assert_eq!(r.id, "new"),
        other => panic!("{:?}", other),
    }
    let bad_add = obj(vec![("action", s("add")), ("message", s("m"))]);
    match request_with_id(&bad_add, "new".to_string()) {
        RuleRequest::Refused(e) => assert_eq!(e, "Invalid rule parameters: Missing required parameter: name"),
        other => panic!("{:?}", other),
    }
    let update = obj(vec![("action", s("update")), ("id", s("r1")), ("message", s("x"))]);
    let req = request_with_id(&update, String::new());
    assert!(clears_plan(&req));
    match req {
        RuleRequest::Update(id, p) => {
            assert_eq!(id, "r1");
            assert_eq!(p.message, Some("x".to_string()));
        },
        other => panic!("{:?}", other),
    }
    for action in ["update", "remove", "run"] {
        match request_with_id(&obj(vec![("action", s(action))]), String::new()) {
            RuleRequest::Refused(e) => assert_eq!(e, "Missing required parameter: id"),
            other => panic!("{:?}", other),
        }
    }
    assert!(matches!(request_with_id(&obj(vec![("action", s("status"))]), String::new()), RuleRequest::Status));
    assert!(matches!(request_with_id(&obj(vec![("action", s("list"))]), String::new()), RuleRequest::List));
    assert!(matches!(
        request_with_id(&obj(vec![("action", s("list-sources"))]), String::new()),
        RuleRequest::ListSources
    ));
    match request_with_id(&obj(vec![("action", s("jump"))]), String::new()) {
        RuleRequest::Refused(e) => assert_eq!(e, "Unknown action: jump"),
        other => panic!("{:?}", other),
    }
    match request_with_id(&obj(vec![]), String::new()) {
        RuleRequest::Refused(e) => assert_eq!(e, "Unknown action: "),
        other => panic!("{:?}", other),
    }
    let remove = obj(vec![("action", s("remove")), ("id", s("r2"))]);
    assert!(!clears_plan(&request_with_id(&remove, String::new())));
}

#[test]
fn new_rules_get_distinct_ids() {
    let add = obj(vec![("action", s("add")), ("name", s("n")), ("message", s("m"))]);
    let a = match request_of(&add) {
        RuleRequest::Add(r) => r.id,
        other => panic!("{:?}", other),
    };
    let b = match request_of(&add) {
        RuleRequest::Add(r) => r.id,
        other => panic!("{:?}", other),
    };
    assert!(!a.is_empty());
    assert_ne!(a, b);
}

fn remove_req() -> RuleRequest {
    RuleRequest::Remove("r9".to_string())
}

#[test]
fn replies_for_each_outcome() {
    let ok = command_reply(&remove_req(), CommandResult::Answered(Ok(())));
    match ok {
        ToolReply::Content(j) => {
            assert_eq!(member(&j, "success").as_bool(), Some(true));
            assert_eq!(member(&j, "id").as_str(), Some("r9"));
            assert_eq!(member(&j, "message").as_str(), Some("规则删除成功"));
        },
        ToolReply::Error(e) => panic!("{}", e),
    }
    assert_eq!(
        error_of(command_reply(&remove_req(), CommandResult::NotPersisted("disk full".to_string()))),
        "Failed to persist rule removal: disk full"
    );
    assert_eq!(
        error_of(command_reply(&remove_req(), CommandResult::NotSent)),
        "Rule removal persisted but failed to send command"
    );
    assert_eq!(
        error_of(command_reply(&remove_req(), CommandResult::NoReply("closed".to_string()))),
        "Rule removal persisted but channel error: closed"
    );
    assert_eq!(
        error_of(command_reply(&remove_req(), CommandResult::Answered(Err("Rule not found: r9".to_string())))),
        "Rule removal persisted but engine error: Rule not found: r9"
    );
    let run = RuleRequest::Run("r1".to_string());
    assert_eq!(error_of(command_reply(&run, CommandResult::NotSent)), "Failed to send run command");
    assert_eq!(
        error_of(command_reply(&run, CommandResult::Answered(Err("busy".to_string())))),
        "Failed to run rule: busy"
    );
    let add = RuleRequest::Add(Rule::new("a".to_string(), "n".to_string(), "clock".to_string(), "m".to_string()));
    assert_eq!(
        error_of(command_reply(&add, CommandResult::NotPersisted("e".to_string()))),
        "Failed to persist rule: e"
    );
    match command_reply(&add, CommandResult::Answered(Ok(()))) {
        ToolReply::Content(j) => assert_eq!(member(&j, "message").as_str(), Some("规则创建成功")),
        ToolReply::Error(e) => panic!("{}", e),
    }
    assert_eq!(error_of(command_reply(&RuleRequest::Status, CommandResult::NotSent)), "Failed to send status command");
    assert_eq!(
        error_of(command_reply(&RuleRequest::List, CommandResult::NoReply("x".to_string()))),
        "Failed to list rules: x"
    );
    assert_eq!(
        error_of(command_reply(&RuleRequest::Refused("no".to_string()), CommandResult::NotSent)),
        "no"
    );
}

#[test]
fn query_documents() {
    let status = EngineStatus {
        total_rules: 2,
        enabled_rules: 1,
        next_clock_wake_ms: None,
        active_sources: 3,
        rules: vec![RuleStatusInfo {
            id: "r1".to_string(),
            name: "n".to_string(),
            enabled: true,
            plan: Some(PlanCacheStatus {
                exists: true,
                path: "/p".to_string(),
                created_at_ms: Some(5),
                steps_count: 2,
            }),
            last_run: Some(LastRunStatus {
                source: "llm".to_string(),
                status: "ok".to_string(),
                duration_ms: -1,
                started_at_ms: 0,
            }),
        }],
    };
    let j = status_document(&status);
    assert_eq!(member(&j, "total_rules").as_u64(), Some(2));
    assert!(member(&j, "next_clock_wake_ms").is_null());
    let rules = member(&j, "rules").as_array().unwrap();
    assert_eq!(rules.len(), 1);
    let plan = member(&rules[0], "plan");
    assert_eq!(member(plan, "steps_count").as_u64(), Some(2));
    assert_eq!(member(member(&rules[0], "last_run"), "duration_ms").as_i64(), Some(-1));

    let mut r = Rule::new("a".to_string(), "n".to_string(), "clock".to_string(), "m".to_string());
    r.description = Some("d".to_string());
    let j = list_document(&vec![r]);
    assert_eq!(member(&j, "count").as_u64(), Some(1));
    let item = &member(&j, "rules").as_array().unwrap()[0];
    assert_eq!(member(item, "description").as_str(), Some("d"));
    assert_eq!(member(item, "timeout_seconds").as_u64(), Some(300));

    let src = EventSource {
        id: "s".to_string(),
        name: "S".to_string(),
        source_type: SourceType::Mqtt,
        endpoint: Some("tcp://h".to_string()),
        topic: None,
        format: None,
        poll_interval_ms: None,
    };
    let j = sources_document(&vec![src]);
    let item = &member(&j, "sources").as_array().unwrap()[0];
    assert_eq!(member(item, "type").as_str(), Some("mqtt"));
    assert!(member(item, "topic").is_null());
}
