use yushi::executor::{
    delivery_for, llm_outcome, Delivery, ExecAction, ExecEvent, ExecStage, ExecutionRequest, ExecutionRun,
    ExecutionStatus, Executor, PlanReplay, StepResult, session_workspace_with,
};
use yushi::history::ToolInfo;
use yushi::json::Json;

#[test]
fn test_extract_successful_toolcalls() {
    let merged_xml = r#"<?xml version="1.0" encoding="UTF-8"?>
<Memory id="test">
    <toolcall id="3" name="Skill" arguments="{&quot;name&quot;: &quot;weather&quot;}" status="success" />
    <toolcall id="5" name="Bash" arguments="{&quot;cmd&quot;: &quot;curl&quot;}" status="success" />
    <toolcall id="7" name="Bash" arguments="{&quot;cmd&quot;: &quot;ls&quot;}" status="failed" />
</Memory>
"#;
    let executor = Executor::new("/tmp/test".to_string());
    let steps = executor.extract_successful_toolcalls(merged_xml);
    assert_eq!(steps.len(), 2);
    assert_eq!(steps[0].tool, "Skill");
    assert_eq!(steps[1].tool, "Bash");
    assert!(steps[0].arguments.contains("weather"));
}

fn request() -> ExecutionRequest {
    ExecutionRequest {
        rule_id: "r1".to_string(),
        rule_name: "name".to_string(),
        rule_description: None,
        message: "do it".to_string(),
        timeout_seconds: 30,
        context: Some("ctx".to_string()),
        trigger_source: "manual".to_string(),
    }
}

#[test]
fn run_without_plan_asks_the_model() {
    let ex = Executor::new("/auto".to_string());
    let mut run = ExecutionRun::new(&ex, request(), 100);
    match run.step(ExecEvent::PlanRead(None)) {
        ExecAction::Prepare(d) => assert_eq!(d, "/auto/sessions/r1"),
        other => panic!("unexpected {:?}", other),
    }
    match run.step(ExecEvent::WorkspaceReady(Ok("/auto/sessions/r1".to_string()), 110)) {
        ExecAction::RunModel(_, m, c) => {
            assert_eq!(m, "do it\n\n## 触发上下文\nctx");
            assert_eq!(c.trigger_source, "manual");
        },
        other => panic!("unexpected {:?}", other),
    }
    match run.step(ExecEvent::LlmDone(true, 200)) {
        ExecAction::LogAndFinish(res) => {
            assert_eq!(res.status, ExecutionStatus::Timeout);
            assert_eq!(res.error, Some("Task timed out after 30 seconds".to_string()));
            assert_eq!(res.started_at_ms, 100);
            assert_eq!(res.finished_at_ms, 200);
        },
        other => panic!("unexpected {:?}", other),
    }
    assert_eq!(run.stage, ExecStage::Done);
    assert!(matches!(run.step(ExecEvent::LlmDone(false, 300)), ExecAction::Ignore));
}

#[test]
fn failed_replay_falls_back_and_workspace_error_is_not_logged() {
    let ex = Executor::new("/auto".to_string());
    let mut run = ExecutionRun::new(&ex, request(), 1);
    assert!(matches!(run.step(ExecEvent::PlanRead(Some(vec![]))), ExecAction::ReplayPlan(_)));
    assert!(matches!(run.step(ExecEvent::ReplayDone(false, 2)), ExecAction::ClearPlanAndPrepare(_)));
    match run.step(ExecEvent::WorkspaceReady(Err("denied".to_string()), 3)) {
        ExecAction::Finish(res) => {
            assert_eq!(res.status, ExecutionStatus::Error);
            assert_eq!(res.error, Some("Failed to create session workspace: denied".to_string()));
            assert_eq!(res.source, "llm");
        },
        other => panic!("unexpected {:?}", other),
    }
}

#[test]
fn successful_replay_is_logged_as_plan() {
    let ex = Executor::new("/auto".to_string());
    let mut run = ExecutionRun::new(&ex, request(), 5);
    let _ = run.step(ExecEvent::PlanRead(Some(vec![])));
    match run.step(ExecEvent::ReplayDone(true, 9)) {
        ExecAction::LogAndFinish(res) => {
            assert_eq!(res.status, ExecutionStatus::Succeeded);
            assert_eq!(res.source, "plan");
        },
        other => panic!("unexpected {:?}", other),
    }
    let ok = llm_outcome(false, 10, 0, 1);
    assert_eq!(ok.error, None);
}

#[test]
fn last_run_from_record() {
    let ex = Executor::new("/auto".to_string());
    let rec = Json::Object(vec![
        ("status".to_string(), Json::Str("ok".to_string())),
        ("started_at_ms".to_string(), Json::PosInt(1000)),
        ("finished_at_ms".to_string(), Json::PosInt(1500)),
    ]);
    let info = ex.get_last_run(Some(&rec)).unwrap();
    assert_eq!(info.source, "llm");
    assert_eq!(info.status, "ok");
    assert_eq!(info.duration_ms, 500);
    assert_eq!(info.started_at_ms, 1000);
    assert!(ex.get_last_run(None).is_none());
}

#[test]
fn deliveries() {
    assert!(matches!(delivery_for("stdout", ""), Delivery::Log));
    assert!(matches!(delivery_for("file", "/tmp/x"), Delivery::File(t) if t == "/tmp/x"));
    assert!(matches!(delivery_for("file", ""), Delivery::Nothing));
    assert!(matches!(delivery_for("none", "x"), Delivery::Nothing));
}

#[test]
fn plan_replay_joins_outputs() {
    let mut replay = PlanReplay::new();
    assert!(replay.step(StepResult::Answered { output: "one".to_string(), is_error: false }));
    assert!(replay.step(StepResult::Answered { output: "two".to_string(), is_error: false }));
    assert_eq!(replay.finish(), "one\ntwo");
}

#[test]
fn plan_replay_stops_on_failure() {
    let mut replay = PlanReplay::new();
    assert!(!replay.step(StepResult::ToolMissing));
    assert!(!replay.step(StepResult::BadArguments));
    assert!(!replay.step(StepResult::Answered { output: "x".to_string(), is_error: true }));
    assert_eq!(replay.finish(), "");
}

#[test]
fn plan_replay_ids() {
    assert_eq!(PlanReplay::step_call_id("r1", 3), "plan-r1-3");
    assert_eq!(PlanReplay::agent_id("r1"), "plan-replay-r1");
}

#[test]
fn automation_workspace_lists_compact_tools() {
    let tools = vec![ToolInfo {
        name: "Bash".to_string(),
        description: "Run <cmd>".to_string(),
        input_schema: "{ \"type\": \"object\" }".to_string(),
    }];
    let text = session_workspace_with(&tools, "id1", "2024-01-01T00:00:00+00:00");
    assert_eq!(
        text,
        "<?xml version=\"1.0\" encoding=\"UTF-8\"?>\n<Memory id=\"id1\" created-at=\"2024-01-01T00:00:00+00:00\">\n    <available-tools>\n        <tool name=\"Bash\" description=\"Run &lt;cmd&gt;\" input-schema='{&quot;type&quot;:&quot;object&quot;}' />\n    </available-tools>\n</Memory>\n"
    );
    let empty = session_workspace_with(&Vec::new(), "i", "t");
    assert_eq!(empty, "<?xml version=\"1.0\" encoding=\"UTF-8\"?>\n<Memory id=\"i\" created-at=\"t\">\n</Memory>\n");
}
