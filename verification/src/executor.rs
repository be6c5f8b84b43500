//! Running a rule's task: replaying a cached plan or asking the model, with a time limit; the
//! result, the run log record and the delivery of the result.
//!
//! The replay, the model session and the clock are the caller's: `ExecutionRun` says at each step
//! what to do next, given what the previous step gave.

use vstd::prelude::*;
use crate::json::{get_i64, get_str, json_get, json_i64, json_str, Json, JsonView};
use crate::rule::{copy_string, push, text_of, Rule, RuleView};
use crate::source::opt_text;
use crate::storage::{
    join_path, path_join, plan_rel_path, plan_status_read, steps_view, PlanStatus, PlanStep, Storage,
};
use crate::text::{str_eq, u64_to_string, decimal};
use crate::xml_token::quick_xml_tokens;
use crate::ynode::{entries_get, nodes_view, parse_tokens, NodeView, YNode};
use crate::xml_token::xml_rs_read;

verus! {

/// How a run ended.
#[derive(Debug, Clone, Copy, PartialEq, Eq, Structural)]
pub enum ExecutionStatus {
    /// It finished (`ok`).
    Succeeded,
    /// It failed (`error`).
    Error,
    /// It ran out of time (`timeout`).
    Timeout,
}

/// The text of a run status.
pub open spec fn execution_status_text(s: ExecutionStatus) -> Seq<char> {
    match s {
        ExecutionStatus::Succeeded => "ok"@,
        ExecutionStatus::Error => "error"@,
        ExecutionStatus::Timeout => "timeout"@,
    }
}

impl ExecutionStatus {
    /// The text of this status in run logs.
    pub fn as_str(&self) -> (r: &'static str)
        ensures
            r@ == execution_status_text(*self),
    {
        match self {
            ExecutionStatus::Succeeded => "ok",
            ExecutionStatus::Error => "error",
            ExecutionStatus::Timeout => "timeout",
        }
    }
}

/// What to run for a rule.
#[derive(Debug)]
pub struct ExecutionRequest {
    /// The rule (its session directory is named after it).
    pub rule_id: String,
    pub rule_name: String,
    pub rule_description: Option<String>,
    /// The instruction to carry out.
    pub message: String,
    pub timeout_seconds: u32,
    /// What triggered the run (event data, trigger time, ...).
    pub context: Option<String>,
    /// `clock`, `event` or `manual`.
    pub trigger_source: String,
}

/// The mathematical value of a request.
pub struct RequestView {
    pub rule_id: Seq<char>,
    pub rule_name: Seq<char>,
    pub rule_description: Option<Seq<char>>,
    pub message: Seq<char>,
    pub timeout_seconds: u32,
    pub context: Option<Seq<char>>,
    pub trigger_source: Seq<char>,
}

/// The view of a request.
pub open spec fn request_view(r: ExecutionRequest) -> RequestView {
    RequestView {
        rule_id: r.rule_id@,
        rule_name: r.rule_name@,
        rule_description: opt_text(r.rule_description),
        message: r.message@,
        timeout_seconds: r.timeout_seconds,
        context: opt_text(r.context),
        trigger_source: r.trigger_source@,
    }
}

/// The request that runs a rule.
pub open spec fn rule_request(r: RuleView, context: Option<Seq<char>>, trigger: Seq<char>) -> RequestView {
    RequestView {
        rule_id: r.id,
        rule_name: r.name,
        rule_description: r.description,
        message: r.message,
        timeout_seconds: r.timeout_seconds,
        context,
        trigger_source: trigger,
    }
}

/// The request that runs a rule, with what triggered it.
pub fn request_for_rule(rule: &Rule, context: Option<String>, trigger: &str) -> (r: ExecutionRequest)
    ensures
        request_view(r) == rule_request(rule@, opt_text(context), trigger@),
{
    ExecutionRequest {
        rule_id: copy_string(&rule.id),
        rule_name: copy_string(&rule.name),
        rule_description: match &rule.description {
            Some(d) => Some(copy_string(d)),
            None => None,
        },
        message: copy_string(&rule.message),
        timeout_seconds: rule.timeout_seconds,
        context,
        trigger_source: text_of(trigger),
    }
}

/// The outcome of a run.
#[derive(Debug)]
pub struct ExecutionResult {
    pub status: ExecutionStatus,
    pub error: Option<String>,
    pub started_at_ms: i64,
    pub finished_at_ms: i64,
    /// `plan` or `llm`.
    pub source: String,
}

/// The last run of a rule, as its run log tells.
#[derive(Debug)]
pub struct LastRunInfo {
    /// `plan` or `llm`.
    pub source: String,
    /// `ok`, `error` or `timeout`.
    pub status: String,
    pub duration_ms: i64,
    pub started_at_ms: i64,
}

/// The facts the context of a model run carries.
#[derive(Debug)]
pub struct AutomationContext {
    pub rule_name: String,
    pub rule_description: Option<String>,
    pub trigger_source: String,
}

/// Runs rules' tasks for one automation directory.
#[derive(Debug)]
pub struct Executor {
    automation_dir: String,
    storage: Storage,
}

impl View for Executor {
    type V = Seq<char>;

    closed spec fn view(&self) -> Seq<char> {
        self.automation_dir@
    }
}

/// The message the model is given: the rule's message, and the trigger context under its own
/// heading when there is one.
pub open spec fn full_message(message: Seq<char>, context: Option<Seq<char>>) -> Seq<char> {
    match context {
        Some(c) => message + "\n\n## 触发上下文\n"@ + c,
        None => message,
    }
}

/// The text of a timeout error.
pub open spec fn timeout_text(seconds: u32) -> Seq<char> {
    "Task timed out after "@ + decimal(seconds as nat) + " seconds"@
}

impl Executor {
    /// An executor for the automation directory `automation_dir`.
    pub fn new(automation_dir: String) -> (r: Executor)
        ensures
            r@ == automation_dir@,
    {
        let storage = Storage::new(copy_string(&automation_dir));
        Executor { automation_dir, storage }
    }

    /// The directory of run sessions.
    pub fn sessions_dir(&self) -> (r: String)
        ensures
            r@ == path_join(self@, "sessions"@),
    {
        join_path(self.automation_dir.as_str(), "sessions")
    }

    /// The session directory of a rule, shared by all its model runs.
    pub fn session_dir(&self, rule_id: &str) -> (r: String)
        ensures
            r@ == path_join(path_join(self@, "sessions"@), rule_id@),
    {
        let d = self.sessions_dir();
        join_path(d.as_str(), rule_id)
    }

    /// The run log file of a rule.
    pub fn run_log_path(&self, rule_id: &str) -> (r: String)
        ensures
            r@ == path_join(path_join(path_join(self@, "sessions"@), "runs"@), rule_id@ + ".jsonl"@),
    {
        let d = self.sessions_dir();
        let runs = join_path(d.as_str(), "runs");
        let mut n = text_of(rule_id);
        push(&mut n, ".jsonl");
        join_path(runs.as_str(), n.as_str())
    }

    /// The status of a rule's cached plan, from the text of its file (see `Storage::get_plan_status`).
    pub fn get_plan_status(&self, rule_id: &str, content: Option<&str>) -> (r: PlanStatus)
        ensures
            r.path@ == plan_rel_path(rule_id@),
            r.exists == content.is_some(),
            content is None ==> r.created_at_ms is None && r.steps_count == 0,
            content matches Some(c) ==> r.created_at_ms == plan_status_read(quick_xml_tokens(c@, true)).0
                && r.steps_count as nat == plan_status_read(quick_xml_tokens(c@, true)).1,
    {
        self.storage.get_plan_status(rule_id, content)
    }

    /// The last run of a rule from the last record of its run log (`None` without one): its
    /// `source` (`llm` when missing), `status` (empty when missing), start and duration (missing
    /// times count as 0).
    pub fn get_last_run(&self, last_record: Option<&Json>) -> (r: Option<LastRunInfo>)
        requires
            last_record matches Some(j) ==> {
                let s = match json_i64(json_get(j@, "started_at_ms"@)) { Some(v) => v as int, None => 0 };
                let f = match json_i64(json_get(j@, "finished_at_ms"@)) { Some(v) => v as int, None => 0 };
                i64::MIN <= f - s <= i64::MAX
            },
        ensures
            last_record is None ==> r is None,
            last_record matches Some(j) ==> (r matches Some(info) && {
                let s = match json_i64(json_get(j@, "started_at_ms"@)) { Some(v) => v as int, None => 0 };
                let f = match json_i64(json_get(j@, "finished_at_ms"@)) { Some(v) => v as int, None => 0 };
                &&& info.source@ == match json_str(json_get(j@, "source"@)) { Some(x) => x, None => "llm"@ }
                &&& info.status@ == match json_str(json_get(j@, "status"@)) { Some(x) => x, None => Seq::<char>::empty() }
                &&& info.started_at_ms == s
                &&& info.duration_ms == f - s
            }),
    {
        match last_record {
            None => None,
            Some(j) => {
                let source = match get_str(j, "source") {
                    Some(x) => text_of(x),
                    None => text_of("llm"),
                };
                let status = match get_str(j, "status") {
                    Some(x) => text_of(x),
                    None => String::new(),
                };
                let started = match get_i64(j, "started_at_ms") {
                    Some(v) => v,
                    None => 0,
                };
                let finished = match get_i64(j, "finished_at_ms") {
                    Some(v) => v,
                    None => 0,
                };
                Some(LastRunInfo { source, status, duration_ms: finished - started, started_at_ms: started })
            },
        }
    }
}

/// The message the model is given for a request.
pub fn execution_message(request: &ExecutionRequest) -> (r: String)
    ensures
        r@ == full_message(request.message@, opt_text(request.context)),
{
    let mut s = copy_string(&request.message);
    match &request.context {
        Some(c) => {
            push(&mut s, "\n\n## 触发上下文\n");
            push(&mut s, c.as_str());
        },
        None => {},
    }
    s
}

/// The context of a model run for a request.
pub fn automation_context(request: &ExecutionRequest) -> (r: AutomationContext)
    ensures
        r.rule_name@ == request.rule_name@,
        opt_text(r.rule_description) == opt_text(request.rule_description),
        r.trigger_source@ == request.trigger_source@,
{
    AutomationContext {
        rule_name: copy_string(&request.rule_name),
        rule_description: match &request.rule_description {
            Some(d) => Some(copy_string(d)),
            None => None,
        },
        trigger_source: copy_string(&request.trigger_source),
    }
}

// ---------------------------------------------------------------------------
// Plans from a session's history
// ---------------------------------------------------------------------------

/// The step a `toolcall` node gives: when its `status` (default `success`) is `success` and its
/// `name` and `arguments` are both non-empty.
pub open spec fn toolcall_step(c: NodeView) -> Seq<(Seq<char>, Seq<char>)> {
    let status = match entries_get(c.attrs, "status"@) {
        Some(s) => s,
        None => "success"@,
    };
    let name = match entries_get(c.attrs, "name"@) {
        Some(s) => s,
        None => Seq::<char>::empty(),
    };
    let args = match entries_get(c.attrs, "arguments"@) {
        Some(s) => s,
        None => Seq::<char>::empty(),
    };
    if status == "success"@ && name.len() > 0 && args.len() > 0 {
        seq![(name, args)]
    } else {
        Seq::empty()
    }
}

/// The steps of the successful tool calls under a node: `toolcall` children give their step,
/// other children are searched in turn, in document order.
pub open spec fn toolcalls_of(n: NodeView) -> Seq<(Seq<char>, Seq<char>)>
    decreases n, 1nat,
{
    toolcalls_in(n.children, n.children.len())
}

/// The steps under the first `k` children.
pub open spec fn toolcalls_in(cs: Seq<NodeView>, k: nat) -> Seq<(Seq<char>, Seq<char>)>
    decreases cs, k,
{
    if k == 0 || k > cs.len() {
        Seq::empty()
    } else {
        toolcalls_in(cs, (k - 1) as nat) + if cs[k - 1].tag == "toolcall"@ {
            toolcall_step(cs[k - 1])
        } else {
            toolcalls_of(cs[k - 1])
        }
    }
}

fn attr_or(n: &YNode, key: &str, default: &str) -> (r: String)
    ensures
        r@ == match entries_get(n@.attrs, key@) {
            Some(s) => s,
            None => default@,
        },
{
    match n.attr(key) {
        Some(v) => v,
        None => text_of(default),
    }
}

fn find_toolcalls(node: &YNode, steps: &mut Vec<PlanStep>)
    ensures
        steps_view(final(steps)@) == steps_view(old(steps)@) + toolcalls_of(node@),
    decreases node,
{
    proof {
        crate::ynode::lemma_nodes_view_index(node.children@);
    }
    let ghost cv = node@.children;
    let ghost start = steps_view(steps@);
    let mut i: usize = 0;
    proof {
        assert(steps_view(steps@) =~= start + toolcalls_in(cv, 0));
    }
    while i < node.children.len()
        invariant
            i <= node.children@.len(),
            cv == node@.children,
            cv.len() == node.children@.len(),
            forall|k: int| 0 <= k < node.children@.len() ==> #[trigger] cv[k] == node.children@[k]@,
            steps_view(steps@) == start + toolcalls_in(cv, i as nat),
        decreases node.children.len() - i,
    {
        let child = &node.children[i];
        let ghost before = steps_view(steps@);
        if str_eq(child.tag(), "toolcall") {
            let status = attr_or(child, "status", "success");
            let name = attr_or(child, "name", "");
            let arguments = attr_or(child, "arguments", "");
            proof {
                reveal_strlit("");
            }
            if str_eq(status.as_str(), "success") && name.as_str().unicode_len() > 0 && arguments.as_str().unicode_len() > 0 {
                let ghost prev = steps@;
                let st = PlanStep { tool: name, arguments };
                steps.push(st);
                proof {
                    assert(steps_view(steps@) =~= steps_view(prev).push(st@));
                    assert(steps_view(steps@) =~= before + toolcall_step(cv[i as int]));
                }
            } else {
                proof {
                    assert(steps_view(steps@) =~= before + toolcall_step(cv[i as int]));
                }
            }
        } else {
            proof {
                assert(decreases_to!(node => node.children@[i as int]));
            }
            find_toolcalls(child, steps);
        }
        proof {
            assert(steps_view(steps@) =~= start + toolcalls_in(cv, (i + 1) as nat));
        }
        i = i + 1;
    }
}

impl Executor {
    /// The steps of a session's successful tool calls, from its merged history document (read
    /// with xml-rs, events named by `xml_rs_read`); none when the document cannot be read.
    pub fn extract_successful_toolcalls(&self, xml: &str) -> (r: Vec<PlanStep>)
        ensures
            match parse_tokens(xml_rs_read(xml@)) {
                Ok(root) => steps_view(r@) == toolcalls_of(root),
                Err(_) => r@.len() == 0,
            },
    {
        let mut steps: Vec<PlanStep> = Vec::new();
        match YNode::from_str(xml) {
            Ok(root) => {
                proof {
                    assert(steps_view(steps@) =~= Seq::<(Seq<char>, Seq<char>)>::empty());
                }
                find_toolcalls(&root, &mut steps);
                proof {
                    assert(steps_view(steps@) =~= toolcalls_of(root@));
                }
                steps
            },
            Err(_) => steps,
        }
    }
}

// ---------------------------------------------------------------------------
// Results
// ---------------------------------------------------------------------------

/// A run that replayed its plan successfully.
pub fn plan_success(started_at_ms: i64, finished_at_ms: i64) -> (r: ExecutionResult)
    ensures
        r.status == ExecutionStatus::Succeeded,
        r.error is None,
        r.started_at_ms == started_at_ms,
        r.finished_at_ms == finished_at_ms,
        r.source@ == "plan"@,
{
    ExecutionResult { status: ExecutionStatus::Succeeded, error: None, started_at_ms, finished_at_ms, source: text_of("plan") }
}

/// A run whose session workspace could not be made.
pub fn workspace_failure(err: &str, started_at_ms: i64, finished_at_ms: i64) -> (r: ExecutionResult)
    ensures
        r.status == ExecutionStatus::Error,
        opt_text(r.error) == Some("Failed to create session workspace: "@ + err@),
        r.started_at_ms == started_at_ms,
        r.finished_at_ms == finished_at_ms,
        r.source@ == "llm"@,
{
    let mut e = text_of("Failed to create session workspace: ");
    push(&mut e, err);
    ExecutionResult { status: ExecutionStatus::Error, error: Some(e), started_at_ms, finished_at_ms, source: text_of("llm") }
}

/// A model run that finished, or ran out of time.
pub fn llm_outcome(timed_out: bool, timeout_seconds: u32, started_at_ms: i64, finished_at_ms: i64) -> (r: ExecutionResult)
    ensures
        r.status == if timed_out { ExecutionStatus::Timeout } else { ExecutionStatus::Succeeded },
        opt_text(r.error) == if timed_out { Some(timeout_text(timeout_seconds)) } else { None },
        r.started_at_ms == started_at_ms,
        r.finished_at_ms == finished_at_ms,
        r.source@ == "llm"@,
{
    if timed_out {
        let mut e = text_of("Task timed out after ");
        let n = u64_to_string(timeout_seconds as u64);
        push(&mut e, n.as_str());
        push(&mut e, " seconds");
        ExecutionResult { status: ExecutionStatus::Timeout, error: Some(e), started_at_ms, finished_at_ms, source: text_of("llm") }
    } else {
        ExecutionResult { status: ExecutionStatus::Succeeded, error: None, started_at_ms, finished_at_ms, source: text_of("llm") }
    }
}

// ---------------------------------------------------------------------------
// A run, step by step
// ---------------------------------------------------------------------------

/// Where a run stands.
#[derive(Debug, Clone, Copy, PartialEq, Eq, Structural)]
pub enum ExecStage {
    /// The plan cache is to be read.
    Start,
    /// The cached plan is being replayed.
    Replaying,
    /// The session workspace is being made.
    Preparing,
    /// The model is running.
    Running,
    /// The run is over.
    Done,
}

/// What the caller reports back.
#[derive(Debug)]
pub enum ExecEvent {
    /// The cached plan of the rule, if there is one.
    PlanRead(Option<Vec<PlanStep>>),
    /// The replay ended (successfully or not) at a time.
    ReplayDone(bool, i64),
    /// The session workspace: its directory, or why it could not be made; and the time.
    WorkspaceReady(Result<String, String>, i64),
    /// The model run ended: whether it ran out of time, and the time.
    LlmDone(bool, i64),
}

/// What the caller is to do next.
#[derive(Debug)]
pub enum ExecAction {
    /// Replay these steps within the time limit.
    ReplayPlan(Vec<PlanStep>),
    /// Delete the cached plan, then make the session workspace in this directory.
    ClearPlanAndPrepare(String),
    /// Make the session workspace in this directory.
    Prepare(String),
    /// Run the model in this session with this message and context, within the time limit.
    RunModel(String, String, AutomationContext),
    /// Extract a plan from this session's history, then log the result and hand it back.
    SavePlanAndFinish(String, ExecutionResult),
    /// Log the result and hand it back.
    LogAndFinish(ExecutionResult),
    /// Hand the result back without logging it.
    Finish(ExecutionResult),
    /// Nothing: the event does not fit the stage.
    Ignore,
}

/// A run of one request.
#[derive(Debug)]
pub struct ExecutionRun {
    pub request: ExecutionRequest,
    pub session_dir: String,
    pub started_at_ms: i64,
    pub stage: ExecStage,
}

impl ExecutionRun {
    /// A run of a request begun at a time, in the rule's session directory.
    pub fn new(executor: &Executor, request: ExecutionRequest, started_at_ms: i64) -> (r: ExecutionRun)
        ensures
            r.stage == ExecStage::Start,
            r.started_at_ms == started_at_ms,
            request_view(r.request) == request_view(request),
            r.session_dir@ == path_join(path_join(executor@, "sessions"@), request.rule_id@),
    {
        let session_dir = executor.session_dir(request.rule_id.as_str());
        ExecutionRun { request, session_dir, started_at_ms, stage: ExecStage::Start }
    }

    /// The next step: a plan is replayed when there is one; a failed replay clears the plan and
    /// falls back to the model; a workspace that cannot be made ends the run with an error (not
    /// logged); a model run that ends saves a plan from the session, one that runs out of time
    /// ends with a timeout; every other end is logged.
    pub fn step(&mut self, event: ExecEvent) -> (a: ExecAction)
        ensures
            request_view(final(self).request) == request_view(old(self).request),
            final(self).session_dir == old(self).session_dir,
            final(self).started_at_ms == old(self).started_at_ms,
            match (old(self).stage, event) {
                (ExecStage::Start, ExecEvent::PlanRead(Some(steps))) => final(self).stage == ExecStage::Replaying
                    && (a matches ExecAction::ReplayPlan(s) && steps_view(s@) == steps_view(steps@)),
                (ExecStage::Start, ExecEvent::PlanRead(None)) => final(self).stage == ExecStage::Preparing
                    && (a matches ExecAction::Prepare(d) && d@ == old(self).session_dir@),
                (ExecStage::Replaying, ExecEvent::ReplayDone(true, now)) => final(self).stage == ExecStage::Done
                    && (a matches ExecAction::LogAndFinish(res) && res.status == ExecutionStatus::Succeeded
                    && res.source@ == "plan"@ && res.error is None
                    && res.started_at_ms == old(self).started_at_ms && res.finished_at_ms == now),
                (ExecStage::Replaying, ExecEvent::ReplayDone(false, _)) => final(self).stage == ExecStage::Preparing
                    && (a matches ExecAction::ClearPlanAndPrepare(d) && d@ == old(self).session_dir@),
                (ExecStage::Preparing, ExecEvent::WorkspaceReady(Err(e), now)) => final(self).stage == ExecStage::Done
                    && (a matches ExecAction::Finish(res) && res.status == ExecutionStatus::Error
                    && opt_text(res.error) == Some("Failed to create session workspace: "@ + e@)
                    && res.source@ == "llm"@ && res.started_at_ms == old(self).started_at_ms && res.finished_at_ms == now),
                (ExecStage::Preparing, ExecEvent::WorkspaceReady(Ok(dir), _)) => final(self).stage == ExecStage::Running
                    && (a matches ExecAction::RunModel(d, m, c) && d@ == dir@
                    && m@ == full_message(old(self).request.message@, opt_text(old(self).request.context))
                    && c.rule_name@ == old(self).request.rule_name@
                    && opt_text(c.rule_description) == opt_text(old(self).request.rule_description)
                    && c.trigger_source@ == old(self).request.trigger_source@),
                (ExecStage::Running, ExecEvent::LlmDone(false, now)) => final(self).stage == ExecStage::Done
                    && (a matches ExecAction::SavePlanAndFinish(d, res) && d@ == old(self).session_dir@
                    && res.status == ExecutionStatus::Succeeded && res.error is None && res.source@ == "llm"@
                    && res.started_at_ms == old(self).started_at_ms && res.finished_at_ms == now),
                (ExecStage::Running, ExecEvent::LlmDone(true, now)) => final(self).stage == ExecStage::Done
                    && (a matches ExecAction::LogAndFinish(res) && res.status == ExecutionStatus::Timeout
                    && opt_text(res.error) == Some(timeout_text(old(self).request.timeout_seconds))
                    && res.source@ == "llm"@ && res.started_at_ms == old(self).started_at_ms && res.finished_at_ms == now),
                _ => final(self).stage == old(self).stage && a is Ignore,
            },
    {
        match (self.stage, event) {
            (ExecStage::Start, ExecEvent::PlanRead(Some(steps))) => {
                self.stage = ExecStage::Replaying;
                ExecAction::ReplayPlan(steps)
            },
            (ExecStage::Start, ExecEvent::PlanRead(None)) => {
                self.stage = ExecStage::Preparing;
                ExecAction::Prepare(copy_string(&self.session_dir))
            },
            (ExecStage::Replaying, ExecEvent::ReplayDone(ok, now)) => {
                if ok {
                    self.stage = ExecStage::Done;
                    ExecAction::LogAndFinish(plan_success(self.started_at_ms, now))
                } else {
                    self.stage = ExecStage::Preparing;
                    ExecAction::ClearPlanAndPrepare(copy_string(&self.session_dir))
                }
            },
            (ExecStage::Preparing, ExecEvent::WorkspaceReady(ready, now)) => {
                match ready {
                    Err(e) => {
                        self.stage = ExecStage::Done;
                        ExecAction::Finish(workspace_failure(e.as_str(), self.started_at_ms, now))
                    },
                    Ok(dir) => {
                        self.stage = ExecStage::Running;
                        let m = execution_message(&self.request);
                        let c = automation_context(&self.request);
                        ExecAction::RunModel(dir, m, c)
                    },
                }
            },
            (ExecStage::Running, ExecEvent::LlmDone(timed_out, now)) => {
                self.stage = ExecStage::Done;
                let res = llm_outcome(timed_out, self.request.timeout_seconds, self.started_at_ms, now);
                if timed_out {
                    ExecAction::LogAndFinish(res)
                } else {
                    ExecAction::SavePlanAndFinish(copy_string(&self.session_dir), res)
                }
            },
            _ => ExecAction::Ignore,
        }
    }
}

// ---------------------------------------------------------------------------
// Logging and delivery
// ---------------------------------------------------------------------------

/// A JSON number for an `i64`.
pub open spec fn json_of_i64(v: i64) -> JsonView {
    if v >= 0 { JsonView::PosInt(v as u64) } else { JsonView::NegInt(v) }
}

/// The JSON number for an `i64`.
pub fn json_i64_value(v: i64) -> (r: Json)
    ensures
        r@ == json_of_i64(v),
{
    if v >= 0 { Json::PosInt(v as u64) } else { Json::NegInt(v) }
}

/// The run log record of a result, written at `ts`: time, rule, status, error (or null),
/// source, start, end and duration.
pub fn run_log_record(rule_id: &str, result: &ExecutionResult, ts: i64) -> (r: Json)
    requires
        i64::MIN <= result.finished_at_ms - result.started_at_ms <= i64::MAX,
    ensures
        r@ == JsonView::Object(seq![
            ("ts"@, json_of_i64(ts)),
            ("rule_id"@, JsonView::Str(rule_id@)),
            ("status"@, JsonView::Str(execution_status_text(result.status))),
            ("error"@, match result.error {
                Some(e) => JsonView::Str(e@),
                None => JsonView::Null,
            }),
            ("source"@, JsonView::Str(result.source@)),
            ("started_at_ms"@, json_of_i64(result.started_at_ms)),
            ("finished_at_ms"@, json_of_i64(result.finished_at_ms)),
            ("duration_ms"@, json_of_i64((result.finished_at_ms - result.started_at_ms) as i64)),
        ]),
{
    let mut m: Vec<(String, Json)> = Vec::new();
    m.push((text_of("ts"), json_i64_value(ts)));
    m.push((text_of("rule_id"), Json::Str(text_of(rule_id))));
    m.push((text_of("status"), Json::Str(text_of(result.status.as_str()))));
    m.push((text_of("error"), match &result.error {
        Some(e) => Json::Str(copy_string(e)),
        None => Json::Null,
    }));
    m.push((text_of("source"), Json::Str(copy_string(&result.source))));
    m.push((text_of("started_at_ms"), json_i64_value(result.started_at_ms)));
    m.push((text_of("finished_at_ms"), json_i64_value(result.finished_at_ms)));
    m.push((text_of("duration_ms"), json_i64_value(result.finished_at_ms - result.started_at_ms)));
    proof {
        crate::json::lemma_members_view_index(m@);
        reveal_with_fuel(crate::json::json_view, 2);
    }
    let ghost mm = m@;
    let r = Json::Object(m);
    proof {
        assert(r@ == JsonView::Object(crate::json::members_view(mm)));
        assert(crate::json::members_view(mm) =~= seq![
            ("ts"@, json_of_i64(ts)),
            ("rule_id"@, JsonView::Str(rule_id@)),
            ("status"@, JsonView::Str(execution_status_text(result.status))),
            ("error"@, match result.error {
                Some(e) => JsonView::Str(e@),
                None => JsonView::Null,
            }),
            ("source"@, JsonView::Str(result.source@)),
            ("started_at_ms"@, json_of_i64(result.started_at_ms)),
            ("finished_at_ms"@, json_of_i64(result.finished_at_ms)),
            ("duration_ms"@, json_of_i64((result.finished_at_ms - result.started_at_ms) as i64)),
        ]);
    }
    r
}

/// Where a result is delivered.
#[derive(Debug)]
pub enum Delivery {
    /// Nowhere (`none`, or an unknown channel, or a file channel without target).
    Nothing,
    /// To the log (`stdout`).
    Log,
    /// Appended to this file (`file`).
    File(String),
}

/// How a result is delivered for a channel and target.
pub fn delivery_for(channel: &str, target: &str) -> (r: Delivery)
    ensures
        channel@ == "stdout"@ ==> r is Log,
        channel@ == "file"@ && target@.len() > 0 ==> (r matches Delivery::File(t) && t@ == target@),
        !(channel@ == "stdout"@) && !(channel@ == "file"@ && target@.len() > 0) ==> r is Nothing,
{
    proof {
        reveal_strlit("stdout");
        reveal_strlit("file");
        assert("file"@.len() != "stdout"@.len());
    }
    if str_eq(channel, "stdout") {
        Delivery::Log
    } else if str_eq(channel, "file") && target.unicode_len() > 0 {
        Delivery::File(text_of(target))
    } else {
        Delivery::Nothing
    }
}


// ---------------------------------------------------------------------------
// Replaying a plan
// ---------------------------------------------------------------------------

/// How one step of a plan went.
#[derive(Debug)]
pub enum StepResult {
    /// Its tool is not registered.
    ToolMissing,
    /// Its arguments are not JSON.
    BadArguments,
    /// The tool answered: the text of its answers, and whether one was an error.
    Answered { output: String, is_error: bool },
}

/// A plan being replayed: the outputs of the steps done so far.
#[derive(Debug)]
pub struct PlanReplay {
    outputs: Vec<String>,
}

/// Whether a step's result lets the replay go on: the tool was there, the arguments read, and
/// no answer was an error.
pub open spec fn step_ok(r: StepResult) -> bool {
    r matches StepResult::Answered { is_error, .. } && !is_error
}

impl View for PlanReplay {
    type V = Seq<Seq<char>>;

    closed spec fn view(&self) -> Seq<Seq<char>> {
        crate::text::texts_of(self.outputs@)
    }
}

impl PlanReplay {
    /// A replay with no step done.
    pub fn new() -> (r: PlanReplay)
        ensures
            r@ == Seq::<Seq<char>>::empty(),
    {
        let r = PlanReplay { outputs: Vec::new() };
        proof {
            assert(r@ =~= Seq::<Seq<char>>::empty());
        }
        r
    }

    /// The id of the tool call of step `idx` of a rule's plan.
    pub fn step_call_id(rule_id: &str, idx: usize) -> (r: String)
        ensures
            r@ == "plan-"@ + rule_id@ + "-"@ + crate::text::decimal(idx as nat),
    {
        let mut t = text_of("plan-");
        push(&mut t, rule_id);
        push(&mut t, "-");
        push(&mut t, crate::text::u64_to_string(idx as u64).as_str());
        t
    }

    /// The agent a replay runs as.
    pub fn agent_id(rule_id: &str) -> (r: String)
        ensures
            r@ == "plan-replay-"@ + rule_id@,
    {
        let mut t = text_of("plan-replay-");
        push(&mut t, rule_id);
        t
    }

    /// Records a step: its output is kept when it went well; false when the replay fails here.
    pub fn step(&mut self, r: StepResult) -> (ok: bool)
        ensures
            ok == step_ok(r),
            ok ==> (r matches StepResult::Answered { output, .. } && final(self)@ == old(self)@.push(output@)),
            !ok ==> final(self)@ == old(self)@,
    {
        match r {
            StepResult::Answered { output, is_error } => {
                if is_error {
                    false
                } else {
                    let ghost prev = self.outputs@;
                    let ghost ov = output@;
                    self.outputs.push(output);
                    proof {
                        assert(crate::text::texts_of(self.outputs@) =~= crate::text::texts_of(prev).push(ov));
                    }
                    true
                }
            },
            _ => false,
        }
    }

    /// The replay's output: the steps' outputs joined with `\n`.
    pub fn finish(&self) -> (r: String)
        ensures
            r@ == crate::text::join_lines(self@),
    {
        proof {
            assert(crate::text::texts_of(self.outputs@).skip(0) =~= crate::text::texts_of(self.outputs@));
        }
        crate::text::join_lines_from(&self.outputs, 0)
    }
}

// ---------------------------------------------------------------------------
// The workspace of an automated run
// ---------------------------------------------------------------------------

/// The line of a tool in an automated run's workspace: name, description and compacted schema,
/// each escaped.
pub open spec fn session_tool_line(name: Seq<char>, description: Seq<char>, schema: Seq<char>) -> Seq<char> {
    "        <tool name=\""@ + crate::text::escape_seq(name) + "\" description=\""@
        + crate::text::escape_seq(description) + "\" input-schema='"@
        + crate::text::escape_seq(crate::history::strip_ws(schema)) + "' />\n"@
}

/// The lines of tools, in order.
pub open spec fn session_tool_lines(ts: Seq<(Seq<char>, Seq<char>, Seq<char>)>) -> Seq<char>
    decreases ts.len(),
{
    if ts.len() == 0 {
        Seq::empty()
    } else {
        session_tool_lines(ts.drop_last()) + session_tool_line(ts.last().0, ts.last().1, ts.last().2)
    }
}

/// The tools part: nothing without tools, else their lines inside `<available-tools>` lines.
pub open spec fn session_tools_of(ts: Seq<(Seq<char>, Seq<char>, Seq<char>)>) -> Seq<char> {
    if ts.len() == 0 {
        Seq::empty()
    } else {
        "    <available-tools>\n"@ + session_tool_lines(ts) + "    </available-tools>\n"@
    }
}

/// The first history file of an automated run: a memory with an id and a creation time holding
/// only the tools.
pub open spec fn session_workspace_text(ts: Seq<(Seq<char>, Seq<char>, Seq<char>)>, id: Seq<char>, created_at: Seq<char>) -> Seq<char> {
    "<?xml version=\"1.0\" encoding=\"UTF-8\"?>\n<Memory id=\""@ + id + "\" created-at=\""@ + created_at + "\">\n"@
        + session_tools_of(ts) + "</Memory>\n"@
}

/// The first history file of an automated run, with this id and time.
pub fn session_workspace_with(tools: &Vec<crate::history::ToolInfo>, id: &str, created_at: &str) -> (r: String)
    ensures
        r@ == session_workspace_text(crate::history::tools_view(tools@), id@, created_at@),
{
    let ghost tv = crate::history::tools_view(tools@);
    let mut lines = String::new();
    let mut i: usize = 0;
    proof {
        assert(tv.take(0) =~= Seq::<(Seq<char>, Seq<char>, Seq<char>)>::empty());
    }
    while i < tools.len()
        invariant
            i <= tools@.len(),
            tv == crate::history::tools_view(tools@),
            lines@ == session_tool_lines(tv.take(i as int)),
        decreases tools.len() - i,
    {
        let t = &tools[i];
        push(&mut lines, "        <tool name=\"");
        push(&mut lines, crate::text::xml_escape(t.name.as_str()).as_str());
        push(&mut lines, "\" description=\"");
        push(&mut lines, crate::text::xml_escape(t.description.as_str()).as_str());
        push(&mut lines, "\" input-schema='");
        let compact = crate::history::strip_whitespace(t.input_schema.as_str());
        push(&mut lines, crate::text::xml_escape(compact.as_str()).as_str());
        push(&mut lines, "' />\n");
        proof {
            let k = tv.take(i + 1);
            assert(k.drop_last() =~= tv.take(i as int));
            assert(k.last() == tv[i as int]);
            assert(tv[i as int] == (t.name@, t.description@, t.input_schema@));
            assert(lines@ =~= session_tool_lines(k));
        }
        i = i + 1;
    }
    proof {
        assert(tv.take(tools@.len() as int) =~= tv);
    }
    let mut r = text_of("<?xml version=\"1.0\" encoding=\"UTF-8\"?>\n<Memory id=\"");
    push(&mut r, id);
    push(&mut r, "\" created-at=\"");
    push(&mut r, created_at);
    push(&mut r, "\">\n");
    if tools.len() > 0 {
        push(&mut r, "    <available-tools>\n");
        push(&mut r, lines.as_str());
        push(&mut r, "    </available-tools>\n");
    }
    push(&mut r, "</Memory>\n");
    proof {
        assert(r@ =~= session_workspace_text(tv, id@, created_at@));
    }
    r
}

/// std's `SystemTime::now()` as whole seconds since the epoch and the nanoseconds past them
/// (`(0, 0)` for a clock before the epoch). Trusted for: the nanoseconds are below a second.
#[verifier::external_body]
fn now_secs_nanos() -> (r: (i64, u32))
    ensures
        r.1 < 1_000_000_000,
{
    let d = std::time::SystemTime::now().duration_since(std::time::UNIX_EPOCH).unwrap_or_default();
    (d.as_secs() as i64, d.subsec_nanos())
}

/// What chrono's `DateTime::<Utc>::from_timestamp(secs, nanos)` then `to_rfc3339()` writes for a
/// time given as seconds since the epoch and nanoseconds; `None` where chrono holds no such time.
pub uninterp spec fn rfc3339_of(secs: i64, nanos: u32) -> Option<Seq<char>>;

/// chrono's `DateTime::<Utc>::from_timestamp` then `to_rfc3339`. Trusted for: the text is
/// `rfc3339_of` of the time.
#[verifier::external_body]
fn rfc3339_text(secs: i64, nanos: u32) -> (r: Option<String>)
    ensures
        match r {
            Some(t) => rfc3339_of(secs, nanos) == Some(t@),
            None => rfc3339_of(secs, nanos) is None,
        },
{
    chrono::DateTime::<chrono::Utc>::from_timestamp(secs, nanos).map(|d| d.to_rfc3339())
}

/// The current time in RFC 3339, to the nanosecond as chrono writes it (`chrono_timestamp`'s form
/// for a clock chrono cannot hold).
fn now_rfc3339() -> (r: String)
    ensures
        (exists|secs: i64, nanos: u32| #[trigger] rfc3339_of(secs, nanos) == Some(r@))
            || (exists|secs: nat| r@ == #[trigger] crate::memory::datetime_text(secs) + "Z"@),
{
    let (secs, nanos) = now_secs_nanos();
    match rfc3339_text(secs, nanos) {
        Some(t) => t,
        None => crate::memory::chrono_timestamp(),
    }
}

impl Executor {
    /// The first history file of an automated run (see `session_workspace_text`), with a new
    /// random id and the current time.
    pub fn create_automation_workspace(&self, tools: &Vec<crate::history::ToolInfo>) -> (r: String)
        ensures
            exists|id: Seq<char>, at: Seq<char>| r@ == #[trigger] session_workspace_text(crate::history::tools_view(tools@), id, at),
    {
        let id = crate::rule_tool::new_uuid();
        let at = now_rfc3339();
        session_workspace_with(tools, id.as_str(), at.as_str())
    }
}

} // verus!

