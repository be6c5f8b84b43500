//! Running an agent: the prompts it is given, how a scripted task is told from a described one,
//! and the texts of the steps of a model query.

use vstd::prelude::*;
use crate::executor::AutomationContext;
use crate::frontmatter::{AgentConfig, AgentView};
use crate::rule::{copy_string, push, text_of};
use crate::text::{contains_seq, contains_text, find_seq, find_text, join_lines, lines_of, str_eq, texts_of, trim};

verus! {

// ---------------------------------------------------------------------------
// Scripted or described tasks
// ---------------------------------------------------------------------------

/// The marks of a script, in the order they are tried.
pub open spec fn script_indicators() -> Seq<Seq<char>> {
    seq![
        "#!/bin/"@, "#!/usr/bin/"@, "$ "@, "curl "@, "wget "@, "echo "@, "if [ "@, "for "@, "while "@,
        "exit "@, "function "@, "() {"@, "```bash"@, "```sh"@, "```python"@, "```javascript"@,
    ]
}

/// The number of lines that contain `pat`.
pub open spec fn lines_containing(ls: Seq<Seq<char>>, pat: Seq<char>) -> nat
    decreases ls.len(),
{
    if ls.len() == 0 {
        0
    } else {
        lines_containing(ls.drop_last(), pat) + if contains_seq(ls.last(), pat) { 1nat } else { 0nat }
    }
}

/// Whether a mark makes a text a script: the text contains it, on more than a third of its lines.
pub open spec fn marks_script(t: Seq<char>, ind: Seq<char>) -> bool {
    contains_seq(t, ind) && lines_containing(lines_of(t), ind) > lines_of(t).len() / 3
}

/// Whether a task text is a script: trimmed, it starts with `#!`, or one of the script marks
/// makes it one.
pub open spec fn is_script_of(message: Seq<char>) -> bool {
    let t = trim(message);
    (t.len() >= 2 && t[0] == '#' && t[1] == '!')
        || exists|k: int| 0 <= k < script_indicators().len() && #[trigger] marks_script(t, script_indicators()[k])
}

fn count_lines_containing(ls: &Vec<String>, pat: &str) -> (r: usize)
    ensures
        r == lines_containing(texts_of(ls@), pat@),
{
    let ghost lv = texts_of(ls@);
    let mut n: usize = 0;
    let mut i: usize = 0;
    proof {
        assert(lv.take(0) =~= Seq::<Seq<char>>::empty());
    }
    while i < ls.len()
        invariant
            i <= ls@.len(),
            lv == texts_of(ls@),
            n == lines_containing(lv.take(i as int), pat@),
            n <= i,
        decreases ls.len() - i,
    {
        proof {
            let u = lv.take(i + 1);
            assert(u.drop_last() =~= lv.take(i as int));
            assert(u.last() == ls@[i as int]@);
        }
        if contains_text(ls[i].as_str(), pat) {
            n = n + 1;
        }
        i = i + 1;
    }
    proof {
        assert(lv.take(i as int) =~= lv);
    }
    n
}

/// Whether a task text is a script (see `is_script_of`).
pub fn is_script_message(message: &str) -> (b: bool)
    ensures
        b == is_script_of(message@),
{
    let t = crate::text::trim_str(message);
    let cs = crate::text::chars_of(t.as_str());
    if cs.len() >= 2 && cs[0] == '#' && cs[1] == '!' {
        return true;
    }
    let inds: Vec<&str> = vec![
        "#!/bin/", "#!/usr/bin/", "$ ", "curl ", "wget ", "echo ", "if [ ", "for ", "while ", "exit ",
        "function ", "() {", "```bash", "```sh", "```python", "```javascript",
    ];
    proof {
        assert(inds@.len() == 16);
        assert forall|k: int| 0 <= k < 16 implies #[trigger] inds@[k]@ == script_indicators()[k] by {}
    }
    let lines = crate::text::text_lines(t.as_str());
    let total = lines.len();
    let mut k: usize = 0;
    while k < inds.len()
        invariant
            k <= inds@.len(),
            inds@.len() == 16,
            forall|q: int| 0 <= q < 16 ==> #[trigger] inds@[q]@ == script_indicators()[q],
            texts_of(lines@) == lines_of(t@),
            total == lines@.len(),
            t@ == trim(message@),
            !(t@.len() >= 2 && t@[0] == '#' && t@[1] == '!'),
            forall|q: int| 0 <= q < k ==> !#[trigger] marks_script(t@, script_indicators()[q]),
        decreases inds.len() - k,
    {
        let ind = inds[k];
        if contains_text(t.as_str(), ind) {
            let c = count_lines_containing(&lines, ind);
            if c > total / 3 {
                proof {
                    assert(marks_script(t@, script_indicators()[k as int]));
                }
                return true;
            }
        }
        k = k + 1;
    }
    false
}

// ---------------------------------------------------------------------------
// The prompt of an automated run
// ---------------------------------------------------------------------------

/// The guidance for a script.
pub open spec fn script_guidance() -> Seq<char> {
    "## 任务类型：脚本执行\n\n以下是待执行的脚本/命令序列，请按要求执行：\n1. 按脚本内容逐步执行\n2. 如需环境变量或参数，使用合理的默认值\n3. 执行结果按脚本输出的格式呈现\n"@
}

/// The guidance for a described goal.
pub open spec fn intent_guidance() -> Seq<char> {
    "## 任务类型：意图执行\n\n以下是任务目标描述，请理解后执行：\n1. 分析任务目标\n2. 规划执行步骤\n3. 调用工具完成各步骤\n4. 汇报执行结果\n"@
}

/// The rules of an automated run.
pub open spec fn execution_rules() -> Seq<char> {
    "## 执行要求\n\n1. **直接执行**：理解任务内容后立即执行，不要询问\"你想让我做什么\"\n2. **工具调用**：使用可用工具完成任务\n3. **禁止配置**：不要创建、修改或删除自动化规则\n4. **简洁汇报**：执行完成后简要说明结果\n\n"@
}

/// The system prompt part of an automated run: who the model is, the rule and trigger, the
/// rules of the run, and the guidance for a script or a described goal.
pub open spec fn execution_prompt_of(name: Seq<char>, description: Option<Seq<char>>, source: Seq<char>, message: Seq<char>) -> Seq<char> {
    "# 自动化任务执行器\n\n你是一个自动化任务执行器，负责执行预定义的任务。\n\n## 执行上下文\n\n- 规则名称："@ + name + "\n"@
        + match description {
        Some(d) => "- 规则描述："@ + d + "\n"@,
        None => Seq::empty(),
    } + "- 触发来源："@ + source + "\n\n"@ + execution_rules() + if is_script_of(message) {
        script_guidance()
    } else {
        intent_guidance()
    }
}

/// The system prompt part of an automated run (see `execution_prompt_of`).
pub fn build_execution_mode_prompt(ctx: &AutomationContext, message: &str) -> (r: String)
    ensures
        r@ == execution_prompt_of(ctx.rule_name@, crate::source::opt_text(ctx.rule_description), ctx.trigger_source@, message@),
{
    let is_script = is_script_message(message);
    let mut p = text_of("# 自动化任务执行器\n\n你是一个自动化任务执行器，负责执行预定义的任务。\n\n## 执行上下文\n\n- 规则名称：");
    push(&mut p, ctx.rule_name.as_str());
    push(&mut p, "\n");
    match &ctx.rule_description {
        Some(d) => {
            push(&mut p, "- 规则描述：");
            push(&mut p, d.as_str());
            push(&mut p, "\n");
        },
        None => {},
    }
    push(&mut p, "- 触发来源：");
    push(&mut p, ctx.trigger_source.as_str());
    push(&mut p, "\n\n");
    push(&mut p, "## 执行要求\n\n1. **直接执行**：理解任务内容后立即执行，不要询问\"你想让我做什么\"\n2. **工具调用**：使用可用工具完成任务\n3. **禁止配置**：不要创建、修改或删除自动化规则\n4. **简洁汇报**：执行完成后简要说明结果\n\n");
    if is_script {
        push(&mut p, "## 任务类型：脚本执行\n\n以下是待执行的脚本/命令序列，请按要求执行：\n1. 按脚本内容逐步执行\n2. 如需环境变量或参数，使用合理的默认值\n3. 执行结果按脚本输出的格式呈现\n");
    } else {
        push(&mut p, "## 任务类型：意图执行\n\n以下是任务目标描述，请理解后执行：\n1. 分析任务目标\n2. 规划执行步骤\n3. 调用工具完成各步骤\n4. 汇报执行结果\n");
    }
    p
}

/// The system prompt of an automated run: the base prompt, a blank line, and the run's part.
pub fn automation_system_prompt(base: &str, ctx: &AutomationContext, message: &str) -> (r: String)
    ensures
        r@ == base@ + "\n\n"@ + execution_prompt_of(ctx.rule_name@, crate::source::opt_text(ctx.rule_description), ctx.trigger_source@, message@),
{
    let mut p = text_of(base);
    push(&mut p, "\n\n");
    push(&mut p, build_execution_mode_prompt(ctx, message).as_str());
    p
}

/// The tools an automated run may use: all but the rule tool, in order.
pub open spec fn automation_tools_of(names: Seq<Seq<char>>) -> Seq<Seq<char>>
    decreases names.len(),
{
    if names.len() == 0 {
        Seq::empty()
    } else {
        let p = automation_tools_of(names.drop_last());
        if names.last() == "Rule"@ { p } else { p.push(names.last()) }
    }
}

/// The tools an automated run may use (see `automation_tools_of`).
pub fn automation_tools(names: &Vec<String>) -> (r: Vec<String>)
    ensures
        texts_of(r@) == automation_tools_of(texts_of(names@)),
{
    let ghost nv = texts_of(names@);
    let mut out: Vec<String> = Vec::new();
    let mut i: usize = 0;
    proof {
        assert(nv.take(0) =~= Seq::<Seq<char>>::empty());
        assert(texts_of(out@) =~= Seq::<Seq<char>>::empty());
    }
    while i < names.len()
        invariant
            i <= names@.len(),
            nv == texts_of(names@),
            texts_of(out@) == automation_tools_of(nv.take(i as int)),
        decreases names.len() - i,
    {
        proof {
            let u = nv.take(i + 1);
            assert(u.drop_last() =~= nv.take(i as int));
            assert(u.last() == names@[i as int]@);
        }
        if !str_eq(names[i].as_str(), "Rule") {
            let ghost prev = out@;
            out.push(copy_string(&names[i]));
            proof {
                assert(texts_of(out@) =~= texts_of(prev).push(names@[i as int]@));
            }
        }
        i = i + 1;
    }
    proof {
        assert(nv.take(i as int) =~= nv);
    }
    out
}

// ---------------------------------------------------------------------------
// The steps of a model query
// ---------------------------------------------------------------------------

/// The system prompt of a query: its parts joined with `\n`, then, when the memory's
/// configuration could be read, a blank line and that configuration.
pub open spec fn full_system_prompt_of(parts: Seq<Seq<char>>, structural: Option<Seq<char>>) -> Seq<char> {
    join_lines(parts) + match structural {
        Some(x) => "\n\n"@ + x,
        None => Seq::empty(),
    }
}

/// The system prompt of a query (see `full_system_prompt_of`).
pub fn full_system_prompt(parts: &Vec<String>, structural: Option<&str>) -> (r: String)
    ensures
        r@ == full_system_prompt_of(texts_of(parts@), match structural {
            Some(x) => Some(x@),
            None => None,
        }),
{
    let mut p = crate::llm::join_prompt(parts);
    match structural {
        Some(x) => {
            push(&mut p, "\n\n");
            push(&mut p, x);
        },
        None => {},
    }
    p
}

/// The model a query uses: the one named in its context, else `main`.
pub fn model_name(model: Option<&str>) -> (r: String)
    ensures
        r@ == match model {
            Some(m) => m@,
            None => "main"@,
        },
{
    match model {
        Some(m) => text_of(m),
        None => text_of("main"),
    }
}

/// The assistant text of a failed query.
pub fn llm_query_error(e: &str) -> (r: String)
    ensures
        r@ == "LLM query error: "@ + e@,
{
    let mut t = text_of("LLM query error: ");
    push(&mut t, e);
    t
}

/// The answer of a call to a tool that is not registered.
pub fn tool_not_found(name: &str) -> (r: String)
    ensures
        r@ == "Tool "@ + name@ + " not found"@,
{
    let mut t = text_of("Tool ");
    push(&mut t, name);
    push(&mut t, " not found");
    t
}

/// The answer of a call whose arguments are not JSON.
pub fn bad_arguments(name: &str, error: &str) -> (r: String)
    ensures
        r@ == "Failed to parse \""@ + name@ + "\" call arguments: "@ + error@,
{
    let mut t = text_of("Failed to parse \"");
    push(&mut t, name);
    push(&mut t, "\" call arguments: ");
    push(&mut t, error);
    t
}

/// Whether a reply's text is kept as a thought: when it is not empty.
pub fn keeps_thought(content: &str) -> (b: bool)
    ensures
        b == (content@.len() > 0),
{
    content.unicode_len() > 0
}

/// The prompt the schedule agent gets: its own system prompt, then the request to order the
/// context, with the current progress and the history actions.
pub open spec fn schedule_prompt_of(agent_prompt: Seq<char>, progress: Seq<char>, actions: Seq<char>) -> Seq<char> {
    agent_prompt + "\n"@ + "请根据以下信息进行上下文整理：\n\n<current_progress>\n"@ + progress
        + "\n</current_progress>\n\n<history-actions>\n"@ + actions
        + "\n</history-actions>\n\n请直接输出 <current-progress> XML 内容。"@
}

/// The prompt the schedule agent gets (see `schedule_prompt_of`).
pub fn schedule_prompt(agent_prompt: &str, progress: &str, actions: &str) -> (r: String)
    ensures
        r@ == schedule_prompt_of(agent_prompt@, progress@, actions@),
{
    let mut t = text_of(agent_prompt);
    push(&mut t, "\n");
    push(&mut t, "请根据以下信息进行上下文整理：\n\n<current_progress>\n");
    push(&mut t, progress);
    push(&mut t, "\n</current_progress>\n\n<history-actions>\n");
    push(&mut t, actions);
    push(&mut t, "\n</history-actions>\n\n请直接输出 <current-progress> XML 内容。");
    t
}

/// The progress plan in the schedule agent's answer: from the first opening tag to the end of
/// the first closing tag; an error when either is missing.
pub open spec fn schedule_progress_of(content: Seq<char>) -> Result<Seq<char>, Seq<char>> {
    match find_seq(content, "<current-progress>"@) {
        None => Err("Missing current-progress in response"@),
        Some(a) => match find_seq(content, "</current-progress>"@) {
            None => Err("Invalid current-progress XML"@),
            Some(b) => Ok(content.subrange(a, b + 19)),
        },
    }
}

/// The progress plan in the schedule agent's answer (see `schedule_progress_of`); where both
/// tags are found the closing one does not start before the opening one ends minus nineteen
/// characters, as cutting the text needs.
pub fn extract_schedule_progress(content: &str) -> (r: Result<String, String>)
    requires
        crate::history::progress_in_order(content@),
    ensures
        match r {
            Ok(p) => schedule_progress_of(content@) == Ok::<Seq<char>, Seq<char>>(p@),
            Err(e) => schedule_progress_of(content@) == Err::<Seq<char>, Seq<char>>(e@),
        },
{
    match find_text(content, "<current-progress>") {
        None => Err(text_of("Missing current-progress in response")),
        Some(_) => match find_text(content, "</current-progress>") {
            None => Err(text_of("Invalid current-progress XML")),
            Some(_) => Ok(crate::history::get_current_progress_xml(content)),
        },
    }
}

// ---------------------------------------------------------------------------
// The task tool
// ---------------------------------------------------------------------------

/// The task tool: hands a task to a sub-agent.
#[derive(Debug)]
pub struct TaskTool;

/// The line describing an agent: its type, description and tools.
pub open spec fn agent_line(a: AgentView) -> Seq<char> {
    "- "@ + a.agent_type + ": "@ + a.description + " (Tools: "@ + join_with(a.tools, ", "@) + ")"@
}

/// Texts joined with a separator.
pub open spec fn join_with(ts: Seq<Seq<char>>, sep: Seq<char>) -> Seq<char>
    decreases ts.len(),
{
    if ts.len() == 0 {
        Seq::empty()
    } else if ts.len() == 1 {
        ts[0]
    } else {
        join_with(ts.drop_last(), sep) + sep + ts.last()
    }
}

/// The lines describing agents, joined with `\n`.
pub open spec fn agent_lines(agents: Seq<AgentView>) -> Seq<char> {
    join_with(agents.map_values(|a: AgentView| agent_line(a)), "\n"@)
}

/// The task tool's prompt, listing the agents.
pub open spec fn task_prompt_of(agents: Seq<AgentView>) -> Seq<char> {
    task_prompt_head() + agent_lines(agents) + task_prompt_tail()
}

/// The text of the task prompt before the agents.
pub open spec fn task_prompt_head() -> Seq<char> {
    "启动一个新代理以自主处理复杂的多步骤任务。\n\n可用代理类型及其可访问的工具：\n   "@
}

/// The text of the task prompt after the agents.
pub open spec fn task_prompt_tail() -> Seq<char> {
    "\n\n使用该工具时，必须指定 'subagent_type' 参数来选择要使用的代理类型。\n\n何时使用代理工具：\n- 当收行自定义斜杠命令的指示时。使用代理工具，并将整个斜杠命令调用作为提示内容。斜杠命令可以接受参数。例如：Task(description=\"检查文件\", prompt=\"/check-file path/to/file.py\")\n\n何时不应使用代理工具：\n- 与上理描述无关的其他任务\n\n使用说明：\n1. 代完成任务后，会向您返回单条消息。代理返回的结果对用户不可见。如需向用户展示结果，您应向用户发送一条包含结果简要摘要的文本消息。\n2. 每代理调用都是无状态的。您无法向代理发送额外消息，代理也无法在其最终报告之外与您通信。因此，您的提示应包含高度详细的任务描述供代理自主执行，并明确指定代理应在其最终且唯一的消息中向您返回哪些信息。\n3. 通常应信任代理的输出\n4. 若理描述中提到应主动使用该代理，则应尽量在用户未主动要求的情况下率先使用。请自行判断。\n        "@
}

fn join_texts(ts: &Vec<String>, sep: &str) -> (r: String)
    ensures
        r@ == join_with(texts_of(ts@), sep@),
{
    let ghost tv = texts_of(ts@);
    let mut out = String::new();
    let mut i: usize = 0;
    proof {
        assert(tv.take(0) =~= Seq::<Seq<char>>::empty());
    }
    while i < ts.len()
        invariant
            i <= ts@.len(),
            tv == texts_of(ts@),
            out@ == join_with(tv.take(i as int), sep@),
        decreases ts.len() - i,
    {
        proof {
            let u = tv.take(i + 1);
            assert(u.drop_last() =~= tv.take(i as int));
            assert(u.last() == ts@[i as int]@);
        }
        if i > 0 {
            push(&mut out, sep);
        }
        push(&mut out, ts[i].as_str());
        i = i + 1;
    }
    proof {
        assert(tv.take(i as int) =~= tv);
    }
    out
}

impl TaskTool {
    /// The line describing an agent (see `agent_line`).
    pub fn agent_description(a: &AgentConfig) -> (r: String)
        ensures
            r@ == agent_line(a@),
    {
        let mut t = text_of("- ");
        push(&mut t, a.agent_type.as_str());
        push(&mut t, ": ");
        push(&mut t, a.description.as_str());
        push(&mut t, " (Tools: ");
        push(&mut t, join_texts(&a.tools, ", ").as_str());
        push(&mut t, ")");
        t
    }

    /// The task tool's prompt (see `task_prompt_of`).
    pub fn prompt(agents: &Vec<AgentConfig>) -> (r: String)
        ensures
            r@ == task_prompt_of(agents@.map_values(|a: AgentConfig| a@)),
    {
        let ghost av = agents@.map_values(|a: AgentConfig| a@);
        let mut lines: Vec<String> = Vec::new();
        let mut i: usize = 0;
        proof {
            assert(texts_of(lines@) =~= av.take(0).map_values(|a: AgentView| agent_line(a)));
        }
        while i < agents.len()
            invariant
                i <= agents@.len(),
                av == agents@.map_values(|a: AgentConfig| a@),
                texts_of(lines@) =~= av.take(i as int).map_values(|a: AgentView| agent_line(a)),
            decreases agents.len() - i,
        {
            let ghost prev = lines@;
            lines.push(TaskTool::agent_description(&agents[i]));
            proof {
                assert(texts_of(lines@) =~= texts_of(prev).push(agent_line(av[i as int])));
                assert(av.take(i + 1) =~= av.take(i as int).push(av[i as int]));
            }
            i = i + 1;
        }
        proof {
            assert(av.take(i as int) =~= av);
        }
        let mut t = text_of("启动一个新代理以自主处理复杂的多步骤任务。\n\n可用代理类型及其可访问的工具：\n   ");
        push(&mut t, join_texts(&lines, "\n").as_str());
        push(&mut t, "\n\n使用该工具时，必须指定 'subagent_type' 参数来选择要使用的代理类型。\n\n何时使用代理工具：\n- 当收行自定义斜杠命令的指示时。使用代理工具，并将整个斜杠命令调用作为提示内容。斜杠命令可以接受参数。例如：Task(description=\"检查文件\", prompt=\"/check-file path/to/file.py\")\n\n何时不应使用代理工具：\n- 与上理描述无关的其他任务\n\n使用说明：\n1. 代完成任务后，会向您返回单条消息。代理返回的结果对用户不可见。如需向用户展示结果，您应向用户发送一条包含结果简要摘要的文本消息。\n2. 每代理调用都是无状态的。您无法向代理发送额外消息，代理也无法在其最终报告之外与您通信。因此，您的提示应包含高度详细的任务描述供代理自主执行，并明确指定代理应在其最终且唯一的消息中向您返回哪些信息。\n3. 通常应信任代理的输出\n4. 若理描述中提到应主动使用该代理，则应尽量在用户未主动要求的情况下率先使用。请自行判断。\n        ");
        t
    }

    /// The sub-agent and prompt a task input names, or the error when one is missing.
    pub fn task_request(input: &crate::json::Json) -> (r: Result<(String, String), String>)
        ensures
            match r {
                Ok((t, p)) => crate::json::json_str(crate::json::json_get(input@, "subagent_type"@)) == Some(t@)
                    && crate::json::json_str(crate::json::json_get(input@, "prompt"@)) == Some(p@),
                Err(e) => (crate::json::json_str(crate::json::json_get(input@, "subagent_type"@)) is None
                    && e@ == "missing or non-string subagent_type"@) || (crate::json::json_str(
                    crate::json::json_get(input@, "subagent_type"@),
                ) is Some && crate::json::json_str(crate::json::json_get(input@, "prompt"@)) is None
                    && e@ == "missing or non-string prompt"@),
            },
    {
        let t = match crate::json::get_string(input, "subagent_type") {
            Some(t) => t,
            None => return Err(text_of("missing or non-string subagent_type")),
        };
        let p = match crate::json::get_string(input, "prompt") {
            Some(p) => p,
            None => return Err(text_of("missing or non-string prompt")),
        };
        Ok((t, p))
    }

    /// The sub-agent's first message: its system prompt, a new line, and the task.
    pub fn effective_prompt(system_prompt: &str, prompt: &str) -> (r: String)
        ensures
            r@ == system_prompt@ + "\n"@ + prompt@,
    {
        let mut t = text_of(system_prompt);
        push(&mut t, "\n");
        push(&mut t, prompt);
        t
    }

    /// The tools a sub-agent gets: those it names that are registered, but the task tool.
    pub fn get_task_tools(names: &Vec<String>, registered: &Vec<String>) -> (r: Vec<String>)
        ensures
            texts_of(r@) == task_tools_of(texts_of(names@), texts_of(registered@)),
    {
        let ghost nv = texts_of(names@);
        let ghost rv = texts_of(registered@);
        let mut out: Vec<String> = Vec::new();
        let mut i: usize = 0;
        proof {
            assert(nv.take(0) =~= Seq::<Seq<char>>::empty());
            assert(texts_of(out@) =~= Seq::<Seq<char>>::empty());
        }
        while i < names.len()
            invariant
                i <= names@.len(),
                nv == texts_of(names@),
                rv == texts_of(registered@),
                texts_of(out@) == task_tools_of(nv.take(i as int), rv),
            decreases names.len() - i,
        {
            proof {
                let u = nv.take(i + 1);
                assert(u.drop_last() =~= nv.take(i as int));
                assert(u.last() == names@[i as int]@);
            }
            let known = contains_name(registered, names[i].as_str());
            if !str_eq(names[i].as_str(), "Task") && known {
                let ghost prev = out@;
                out.push(copy_string(&names[i]));
                proof {
                    assert(texts_of(out@) =~= texts_of(prev).push(names@[i as int]@));
                }
            }
            i = i + 1;
        }
        proof {
            assert(nv.take(i as int) =~= nv);
        }
        out
    }
}

/// The tools a sub-agent gets (see `TaskTool::get_task_tools`).
pub open spec fn task_tools_of(names: Seq<Seq<char>>, registered: Seq<Seq<char>>) -> Seq<Seq<char>>
    decreases names.len(),
{
    if names.len() == 0 {
        Seq::empty()
    } else {
        let p = task_tools_of(names.drop_last(), registered);
        let n = names.last();
        if n != "Task"@ && registered.contains(n) { p.push(n) } else { p }
    }
}

fn contains_name(names: &Vec<String>, n: &str) -> (b: bool)
    ensures
        b == texts_of(names@).contains(n@),
{
    let ghost nv = texts_of(names@);
    let mut i: usize = 0;
    while i < names.len()
        invariant
            i <= names@.len(),
            nv == texts_of(names@),
            forall|k: int| 0 <= k < i ==> nv[k] != n@,
        decreases names.len() - i,
    {
        if str_eq(names[i].as_str(), n) {
            proof {
                assert(nv[i as int] == n@);
            }
            return true;
        }
        i = i + 1;
    }
    false
}

} // verus!
