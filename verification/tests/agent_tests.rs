use yushi::agent::{
    automation_system_prompt, automation_tools, bad_arguments, build_execution_mode_prompt, extract_schedule_progress,
    full_system_prompt, is_script_message, keeps_thought, llm_query_error, model_name, schedule_prompt, tool_not_found,
    TaskTool,
};
use yushi::executor::AutomationContext;
use yushi::frontmatter::AgentConfig;
use yushi::json::Json;

#[test]
fn scripts_and_goals() {
    assert!(is_script_message("  #!/bin/bash\necho hi"));
    assert!(is_script_message("curl http://x\ncurl http://y\nthen done"));
    assert!(!is_script_message("please echo the weather\nand summarize it\nfor me\nthanks"));
    assert!(!is_script_message("check the weather and tell me"));
    assert!(is_script_message("```bash\nls"));
    assert!(!is_script_message("```bash\nls\n```"));
}

fn ctx(desc: Option<&str>) -> AutomationContext {
    AutomationContext {
        rule_name: "morning".to_string(),
        rule_description: desc.map(|d| d.to_string()),
        trigger_source: "clock".to_string(),
    }
}

#[test]
fn execution_prompt_text() {
    let p = build_execution_mode_prompt(&ctx(Some("daily")), "check the weather");
    assert!(p.starts_with("# 自动化任务执行器\n\n"));
    assert!(p.contains("- 规则名称：morning\n- 规则描述：daily\n- 触发来源：clock\n\n## 执行要求"));
    assert!(p.ends_with("## 任务类型：意图执行\n\n以下是任务目标描述，请理解后执行：\n1. 分析任务目标\n2. 规划执行步骤\n3. 调用工具完成各步骤\n4. 汇报执行结果\n"));
    let s = build_execution_mode_prompt(&ctx(None), "#!/bin/sh\nls");
    assert!(!s.contains("规则描述"));
    assert!(s.contains("## 任务类型：脚本执行"));
    assert!(automation_system_prompt("base", &ctx(None), "x").starts_with("base\n\n# 自动化任务执行器"));
}

#[test]
fn query_texts() {
    let parts = vec!["a".to_string(), "b".to_string()];
    assert_eq!(full_system_prompt(&parts, None), "a\nb");
    assert_eq!(full_system_prompt(&parts, Some("<Memory/>")), "a\nb\n\n<Memory/>");
    assert_eq!(model_name(None), "main");
    assert_eq!(model_name(Some("fast")), "fast");
    assert_eq!(llm_query_error("timeout"), "LLM query error: timeout");
    assert_eq!(tool_not_found("X"), "Tool X not found");
    assert_eq!(bad_arguments("Bash", "eof"), "Failed to parse \"Bash\" call arguments: eof");
    assert!(keeps_thought("x"));
    assert!(!keeps_thought(""));
    assert_eq!(
        automation_tools(&vec!["Bash".to_string(), "Rule".to_string(), "Task".to_string()]),
        vec!["Bash".to_string(), "Task".to_string()]
    );
}

#[test]
fn schedule_agent_texts() {
    assert_eq!(
        schedule_prompt("SYS", "P", "A"),
        "SYS\n请根据以下信息进行上下文整理：\n\n<current_progress>\nP\n</current_progress>\n\n<history-actions>\nA\n</history-actions>\n\n请直接输出 <current-progress> XML 内容。"
    );
    assert_eq!(extract_schedule_progress("x<current-progress>y</current-progress>z").unwrap(), "<current-progress>y</current-progress>");
    assert_eq!(extract_schedule_progress("none").unwrap_err(), "Missing current-progress in response");
    assert_eq!(extract_schedule_progress("<current-progress>y").unwrap_err(), "Invalid current-progress XML");
}

#[test]
fn task_tool_texts() {
    let a = AgentConfig {
        agent_type: "checker".to_string(),
        description: "Checks".to_string(),
        model_name: String::new(),
        tools: vec!["Bash".to_string(), "FileRead".to_string()],
        system_prompt: "S".to_string(),
    };
    assert_eq!(TaskTool::agent_description(&a), "- checker: Checks (Tools: Bash, FileRead)");
    let p = TaskTool::prompt(&vec![a]);
    assert!(p.starts_with("启动一个新代理以自主处理复杂的多步骤任务。\n\n可用代理类型及其可访问的工具：\n   - checker: Checks (Tools: Bash, FileRead)\n\n使用该工具时"));
    let input = Json::Object(vec![("subagent_type".to_string(), Json::Str("r".to_string())), ("prompt".to_string(), Json::Str("p".to_string()))]);
    assert_eq!(TaskTool::task_request(&input).unwrap(), ("r".to_string(), "p".to_string()));
    assert_eq!(TaskTool::task_request(&Json::Object(vec![])).unwrap_err(), "missing or non-string subagent_type");
    let no_prompt = Json::Object(vec![("subagent_type".to_string(), Json::Str("r".to_string()))]);
    assert_eq!(TaskTool::task_request(&no_prompt).unwrap_err(), "missing or non-string prompt");
    assert_eq!(TaskTool::effective_prompt("S", "do"), "S\ndo");
    let names = vec!["Bash".to_string(), "Task".to_string(), "Ghost".to_string()];
    let registered = vec!["Bash".to_string(), "Task".to_string()];
    assert_eq!(TaskTool::get_task_tools(&names, &registered), vec!["Bash".to_string()]);
}
