//! The agent's turns as a state machine: the model is asked, its thought recorded, its text
//! shown, and each tool it calls run and recorded (with a summary once the history grows long),
//! each tool call followed by a further turn. The caller performs each action and reports back
//! what happened.

use vstd::prelude::*;
use crate::agent::{keeps_thought, llm_query_error};
use crate::history::{
    action_count, chain_base, create_thought_delta, create_toolcall_delta, delta_name, files_view,
    next_number_of, number_room, should_generate_summary, thought_text, toolcall_text, uses_view,
    messages_view, ChatMessage, HistoryDelta, MessageView, ToolMessage, ToolUse, UseView,
};
use crate::llm::copy_uses;
use crate::rule::{copy_string, text_of};

verus! {

/// A listing of history files by view.
pub type FilesView = Seq<(u32, Seq<char>)>;

/// Where a turn stands.
#[derive(Debug)]
pub enum Phase {
    /// The model has been asked.
    AwaitReply,
    /// The thought of a reply is being recorded; its text and tool calls follow.
    Thought { content: String, tool_uses: Vec<ToolUse> },
    /// The text of a reply is being shown; its tool calls follow.
    Shown { tool_uses: Vec<ToolUse> },
    /// The error of a failed request is being shown.
    Failed,
    /// A tool is running.
    AwaitTool { tool_use: ToolUse },
    /// A tool call is being recorded.
    Toolcall,
    /// The schedule agent is summarising the history.
    Scheduling,
    /// Every turn is over.
    Finished,
}

/// The state of the turns: where they stand, and for each open turn, outermost first, the tool
/// calls it still has to run.
#[derive(Debug)]
pub struct TurnState {
    pub phase: Phase,
    pub pending: Vec<Vec<ToolUse>>,
}

/// What happened since the last action.
#[derive(Debug)]
pub enum TurnEvent {
    /// The model answered, with its text and the tools it calls.
    Replied { content: String, tool_uses: Option<Vec<ToolUse>> },
    /// The request to the model failed, with the error's text.
    AskFailed(String),
    /// A text was shown.
    Emitted,
    /// A history file was written (or the warning given).
    Recorded,
    /// The tool answered.
    ToolDone(ToolMessage),
    /// The schedule agent is done.
    Scheduled,
}

/// What to do next.
#[derive(Debug)]
pub enum TurnAction {
    /// Rebuild the messages from the history and ask the model.
    Ask,
    /// Show a text.
    Emit(String),
    /// Write a history file.
    Record(HistoryDelta),
    /// Warn that the history has no file number left (nothing is written).
    Warn(String),
    /// Run a tool.
    RunTool(ToolUse),
    /// Ask the schedule agent to summarise the history.
    Schedule,
    /// Stop.
    Done,
}

pub enum PhaseView {
    AwaitReply,
    Thought(Seq<char>, Seq<UseView>),
    Shown(Seq<UseView>),
    Failed,
    AwaitTool(UseView),
    Toolcall,
    Scheduling,
    Finished,
}

pub struct TurnView {
    pub phase: PhaseView,
    pub pending: Seq<Seq<UseView>>,
}

pub enum EventView {
    Replied(Seq<char>, Seq<UseView>),
    AskFailed(Seq<char>),
    Emitted,
    Recorded,
    ToolDone(Seq<char>, Seq<char>, bool),
    Scheduled,
}

pub enum ActionView {
    Ask,
    Emit(Seq<char>),
    Record(Seq<char>, Seq<char>),
    Warn(Seq<char>),
    RunTool(UseView),
    Schedule,
    Done,
}

pub open spec fn use_view(u: ToolUse) -> UseView {
    (u.id@, u.name@, u.arguments@)
}

/// The views of the tool calls each open turn still has to run.
pub open spec fn pending_view(p: Seq<Vec<ToolUse>>) -> Seq<Seq<UseView>> {
    p.map_values(|v: Vec<ToolUse>| uses_view(v@))
}

impl View for TurnState {
    type V = TurnView;

    open spec fn view(&self) -> TurnView {
        TurnView {
            phase: match &self.phase {
                Phase::AwaitReply => PhaseView::AwaitReply,
                Phase::Thought { content, tool_uses } => PhaseView::Thought(content@, uses_view(tool_uses@)),
                Phase::Shown { tool_uses } => PhaseView::Shown(uses_view(tool_uses@)),
                Phase::Failed => PhaseView::Failed,
                Phase::AwaitTool { tool_use } => PhaseView::AwaitTool(use_view(*tool_use)),
                Phase::Toolcall => PhaseView::Toolcall,
                Phase::Scheduling => PhaseView::Scheduling,
                Phase::Finished => PhaseView::Finished,
            },
            pending: pending_view(self.pending@),
        }
    }
}

impl View for TurnEvent {
    type V = EventView;

    open spec fn view(&self) -> EventView {
        match self {
            TurnEvent::Replied { content, tool_uses } => EventView::Replied(content@, match tool_uses {
                Some(v) => uses_view(v@),
                None => Seq::empty(),
            }),
            TurnEvent::AskFailed(e) => EventView::AskFailed(e@),
            TurnEvent::Emitted => EventView::Emitted,
            TurnEvent::Recorded => EventView::Recorded,
            TurnEvent::ToolDone(m) => EventView::ToolDone(m.content@, m.tool_use_id@, m.is_error),
            TurnEvent::Scheduled => EventView::Scheduled,
        }
    }
}

impl View for TurnAction {
    type V = ActionView;

    open spec fn view(&self) -> ActionView {
        match self {
            TurnAction::Ask => ActionView::Ask,
            TurnAction::Emit(t) => ActionView::Emit(t@),
            TurnAction::Record(d) => ActionView::Record(d.name@, d.content@),
            TurnAction::Warn(t) => ActionView::Warn(t@),
            TurnAction::RunTool(u) => ActionView::RunTool(use_view(*u)),
            TurnAction::Schedule => ActionView::Schedule,
            TurnAction::Done => ActionView::Done,
        }
    }
}

/// The warning when the history has no file number left.
pub open spec fn no_room_text() -> Seq<char> {
    "No history number left"@
}

/// The next tool call to run: the first one left in the innermost open turn that has one (turns
/// with none left close); when no turn is left, everything is over.
pub open spec fn next_tool(pending: Seq<Seq<UseView>>) -> (TurnView, ActionView)
    decreases pending.len(),
{
    if pending.len() == 0 {
        (TurnView { phase: PhaseView::Finished, pending }, ActionView::Done)
    } else if pending.last().len() > 0 {
        let u = pending.last()[0];
        (
            TurnView { phase: PhaseView::AwaitTool(u), pending: pending.drop_last().push(pending.last().drop_first()) },
            ActionView::RunTool(u),
        )
    } else {
        next_tool(pending.drop_last())
    }
}

/// The thought file of a reply's text, or the warning when there is no file number left.
pub open spec fn thought_record(files: FilesView, content: Seq<char>) -> ActionView {
    if number_room(files) {
        ActionView::Record(delta_name(files, "thought"@), thought_text(chain_base(files), next_number_of(files) as nat, content))
    } else {
        ActionView::Warn(no_room_text())
    }
}

/// The toolcall file of a tool's answer, or the warning when there is no file number left.
pub open spec fn toolcall_record(files: FilesView, u: UseView, content: Seq<char>, is_error: bool) -> ActionView {
    if number_room(files) {
        ActionView::Record(
            delta_name(files, "toolcall"@),
            toolcall_text(chain_base(files), next_number_of(files) as nat, u.0, u.1, u.2, is_error, content),
        )
    } else {
        ActionView::Warn(no_room_text())
    }
}

/// One step of the turns, given the history's files as they are now:
/// - a reply: its thought is recorded when its text is not empty, then its text is shown;
/// - a failed request: the error is shown, and the turn it was for is over;
/// - once a reply's text is shown, its tool calls are run one by one, each after the last is
///   over (see `next_tool`);
/// - a tool's answer is recorded; then the schedule agent summarises the history when it holds
///   more than ten actions; then the model is asked again, for a further turn;
/// - any other event ends everything, the state unchanged.
pub open spec fn turn_next(s: TurnView, files: FilesView, e: EventView) -> (TurnView, ActionView) {
    match (s.phase, e) {
        (PhaseView::AwaitReply, EventView::Replied(c, us)) => if c.len() > 0 {
            (TurnView { phase: PhaseView::Thought(c, us), ..s }, thought_record(files, c))
        } else {
            (TurnView { phase: PhaseView::Shown(us), ..s }, ActionView::Emit(c))
        },
        (PhaseView::AwaitReply, EventView::AskFailed(m)) =>
            (TurnView { phase: PhaseView::Failed, ..s }, ActionView::Emit("LLM query error: "@ + m)),
        (PhaseView::Thought(c, us), EventView::Recorded) =>
            (TurnView { phase: PhaseView::Shown(us), ..s }, ActionView::Emit(c)),
        (PhaseView::Shown(us), EventView::Emitted) => next_tool(s.pending.push(us)),
        (PhaseView::Failed, EventView::Emitted) => next_tool(s.pending),
        (PhaseView::AwaitTool(u), EventView::ToolDone(content, _id, is_error)) =>
            (TurnView { phase: PhaseView::Toolcall, ..s }, toolcall_record(files, u, content, is_error)),
        (PhaseView::Toolcall, EventView::Recorded) => if action_count(files) > 10 {
            (TurnView { phase: PhaseView::Scheduling, ..s }, ActionView::Schedule)
        } else {
            (TurnView { phase: PhaseView::AwaitReply, ..s }, ActionView::Ask)
        },
        (PhaseView::Scheduling, EventView::Scheduled) =>
            (TurnView { phase: PhaseView::AwaitReply, ..s }, ActionView::Ask),
        _ => (s, ActionView::Done),
    }
}

/// Every tool call is recorded before anything else: the answer of a running tool is written as
/// a toolcall file (where the history has a number left) and nothing else happens first.
pub proof fn lemma_tool_answer_recorded(s: TurnView, files: FilesView, u: UseView, content: Seq<char>, id: Seq<char>, is_error: bool)
    requires
        s.phase == PhaseView::AwaitTool(u),
        number_room(files),
    ensures
        turn_next(s, files, EventView::ToolDone(content, id, is_error)) == (
            TurnView { phase: PhaseView::Toolcall, ..s },
            ActionView::Record(
                delta_name(files, "toolcall"@),
                toolcall_text(chain_base(files), next_number_of(files) as nat, u.0, u.1, u.2, is_error, content),
            ),
        ),
{
}

/// Once a tool call is recorded, the history is summarised exactly when it holds more than ten
/// actions, and only then does the next turn ask the model.
pub proof fn lemma_summary_before_next_turn(s: TurnView, files: FilesView)
    requires
        s.phase == PhaseView::Toolcall,
    ensures
        action_count(files) > 10 ==> turn_next(s, files, EventView::Recorded).1 == ActionView::Schedule,
        action_count(files) <= 10 ==> turn_next(s, files, EventView::Recorded).1 == ActionView::Ask,
        turn_next(turn_next(s, files, EventView::Recorded).0, files, EventView::Scheduled).1
            == (if action_count(files) > 10 { ActionView::Ask } else { ActionView::Done }),
{
}

/// A reply's thought is recorded exactly when its text is not empty, and its text is shown
/// either way before any of its tools runs.
pub proof fn lemma_thought_then_text(s: TurnView, files: FilesView, c: Seq<char>, us: Seq<UseView>)
    requires
        s.phase == PhaseView::AwaitReply,
        number_room(files),
    ensures
        c.len() > 0 ==> turn_next(s, files, EventView::Replied(c, us)).1
            == ActionView::Record(delta_name(files, "thought"@), thought_text(chain_base(files), next_number_of(files) as nat, c)),
        c.len() > 0 ==> turn_next(turn_next(s, files, EventView::Replied(c, us)).0, files, EventView::Recorded).1
            == ActionView::Emit(c),
        c.len() == 0 ==> turn_next(s, files, EventView::Replied(c, us)).1 == ActionView::Emit(c),
{
}

/// A failed request shows the error, and then the turn it was for is over.
pub proof fn lemma_failure_shown(s: TurnView, files: FilesView, m: Seq<char>)
    requires
        s.phase == PhaseView::AwaitReply,
    ensures
        turn_next(s, files, EventView::AskFailed(m)).1 == ActionView::Emit("LLM query error: "@ + m),
        turn_next(turn_next(s, files, EventView::AskFailed(m)).0, files, EventView::Emitted) == next_tool(s.pending),
{
}

/// Whether the history has a file number left (see `number_room`).
fn has_number_room(files: &Vec<(u32, String)>) -> (b: bool)
    ensures
        b == number_room(files_view(files@)),
{
    files.len() == 0 || files[files.len() - 1].0 < u32::MAX
}

fn copy_use(u: &ToolUse) -> (r: ToolUse)
    ensures
        use_view(r) == use_view(*u),
{
    ToolUse { id: copy_string(&u.id), name: copy_string(&u.name), arguments: copy_string(&u.arguments) }
}

fn next_tool_exec(pending: Vec<Vec<ToolUse>>) -> (r: (TurnState, TurnAction))
    ensures
        (r.0@, r.1@) == next_tool(pending_view(pending@)),
    decreases pending@.len(),
{
    let mut pending = pending;
    let ghost pv = pending_view(pending@);
    match pending.pop() {
        None => {
            proof {
                assert(pv.len() == 0);
            }
            (TurnState { phase: Phase::Finished, pending }, TurnAction::Done)
        },
        Some(mut last) => {
            proof {
                assert(pending_view(pending@) =~= pv.drop_last());
                assert(uses_view(last@) == pv.last());
            }
            if last.len() > 0 {
                let ghost lv = uses_view(last@);
                let u = last.remove(0);
                let act = copy_use(&u);
                proof {
                    assert(uses_view(last@) =~= lv.drop_first());
                    assert(use_view(u) == lv[0]);
                }
                let ghost before = pending@;
                pending.push(last);
                proof {
                    assert(pending_view(pending@) =~= pv.drop_last().push(lv.drop_first()));
                }
                (TurnState { phase: Phase::AwaitTool { tool_use: u }, pending }, TurnAction::RunTool(act))
            } else {
                next_tool_exec(pending)
            }
        },
    }
}

/// The first step of the turns: the model is asked.
pub fn query_start() -> (r: (TurnState, TurnAction))
    ensures
        r.0@ == (TurnView { phase: PhaseView::AwaitReply, pending: Seq::empty() }),
        r.1@ == ActionView::Ask,
{
    let r = TurnState { phase: Phase::AwaitReply, pending: Vec::new() };
    proof {
        assert(pending_view(r.pending@) =~= Seq::<Seq<UseView>>::empty());
    }
    (r, TurnAction::Ask)
}

/// One step of the turns (see `turn_next`), given the history's files as they are now.
pub fn query_step(state: TurnState, files: &Vec<(u32, String)>, event: TurnEvent) -> (r: (TurnState, TurnAction))
    ensures
        (r.0@, r.1@) == turn_next(state@, files_view(files@), event@),
{
    let ghost sv = state@;
    let ghost ev = event@;
    let TurnState { phase, pending } = state;
    match (phase, event) {
        (Phase::AwaitReply, TurnEvent::Replied { content, tool_uses }) => {
            let uses = match tool_uses {
                Some(v) => v,
                None => {
                    let v: Vec<ToolUse> = Vec::new();
                    proof {
                        assert(uses_view(v@) =~= Seq::<UseView>::empty());
                    }
                    v
                },
            };
            assert(uses_view(uses@) == ev->Replied_1);
            if keeps_thought(content.as_str()) {
                let action = if has_number_room(files) {
                    TurnAction::Record(create_thought_delta(files, content.as_str()))
                } else {
                    TurnAction::Warn(text_of("No history number left"))
                };
                (TurnState { phase: Phase::Thought { content, tool_uses: uses }, pending }, action)
            } else {
                let shown = copy_string(&content);
                (TurnState { phase: Phase::Shown { tool_uses: uses }, pending }, TurnAction::Emit(shown))
            }
        },
        (Phase::AwaitReply, TurnEvent::AskFailed(e)) => {
            let t = llm_query_error(e.as_str());
            (TurnState { phase: Phase::Failed, pending }, TurnAction::Emit(t))
        },
        (Phase::Thought { content, tool_uses }, TurnEvent::Recorded) => {
            (TurnState { phase: Phase::Shown { tool_uses }, pending }, TurnAction::Emit(content))
        },
        (Phase::Shown { tool_uses }, TurnEvent::Emitted) => {
            let mut pending = pending;
            let ghost pv = pending_view(pending@);
            pending.push(tool_uses);
            proof {
                assert(pending_view(pending@) =~= pv.push(sv.phase->Shown_0));
            }
            next_tool_exec(pending)
        },
        (Phase::Failed, TurnEvent::Emitted) => next_tool_exec(pending),
        (Phase::AwaitTool { tool_use }, TurnEvent::ToolDone(message)) => {
            let action = if has_number_room(files) {
                TurnAction::Record(create_toolcall_delta(files, &tool_use, &message))
            } else {
                TurnAction::Warn(text_of("No history number left"))
            };
            (TurnState { phase: Phase::Toolcall, pending }, action)
        },
        (Phase::Toolcall, TurnEvent::Recorded) => {
            if should_generate_summary(files) {
                (TurnState { phase: Phase::Scheduling, pending }, TurnAction::Schedule)
            } else {
                (TurnState { phase: Phase::AwaitReply, pending }, TurnAction::Ask)
            }
        },
        (Phase::Scheduling, TurnEvent::Scheduled) => {
            (TurnState { phase: Phase::AwaitReply, pending }, TurnAction::Ask)
        },
        (phase, _) => (TurnState { phase, pending }, TurnAction::Done),
    }
}

// ---------------------------------------------------------------------------
// A sub-agent's conversation
// ---------------------------------------------------------------------------

/// Where a sub-agent's conversation stands.
#[derive(Debug, Clone, Copy, PartialEq, Eq, Structural)]
pub enum SubagentPhase {
    /// The model has been asked.
    AwaitReply,
    /// A tool is running.
    AwaitTool,
    /// The answer is given.
    Finished,
}

/// A sub-agent's conversation: the messages so far, the answer so far (the texts of the replies,
/// joined), and the tool calls of the last reply still to run.
#[derive(Debug)]
pub struct SubagentState {
    pub phase: SubagentPhase,
    pub messages: Vec<ChatMessage>,
    pub answer: String,
    pub tool_uses: Vec<ToolUse>,
}

/// What happened since the last action of a sub-agent.
#[derive(Debug)]
pub enum SubagentEvent {
    /// The model answered, with its text and the tools it calls.
    Replied { content: String, tool_uses: Option<Vec<ToolUse>> },
    /// The tool answered.
    ToolDone(ToolMessage),
}

/// What a sub-agent does next.
#[derive(Debug)]
pub enum SubagentAction {
    /// Ask the model with the messages so far.
    Ask,
    /// Run a tool.
    RunTool(ToolUse),
    /// Give the answer.
    Finish(String),
    /// Stop: the event does not answer the last action.
    Stop,
}

pub struct SubagentView {
    pub phase: SubagentPhase,
    pub messages: Seq<MessageView>,
    pub answer: Seq<char>,
    pub tool_uses: Seq<UseView>,
}

pub enum SubagentActionView {
    Ask,
    RunTool(UseView),
    Finish(Seq<char>),
    Stop,
}

impl View for SubagentState {
    type V = SubagentView;

    open spec fn view(&self) -> SubagentView {
        SubagentView {
            phase: self.phase,
            messages: messages_view(self.messages@),
            answer: self.answer@,
            tool_uses: uses_view(self.tool_uses@),
        }
    }
}

impl View for SubagentEvent {
    type V = EventView;

    open spec fn view(&self) -> EventView {
        match self {
            SubagentEvent::Replied { content, tool_uses } => EventView::Replied(content@, match tool_uses {
                Some(v) => uses_view(v@),
                None => Seq::empty(),
            }),
            SubagentEvent::ToolDone(m) => EventView::ToolDone(m.content@, m.tool_use_id@, m.is_error),
        }
    }
}

impl View for SubagentAction {
    type V = SubagentActionView;

    open spec fn view(&self) -> SubagentActionView {
        match self {
            SubagentAction::Ask => SubagentActionView::Ask,
            SubagentAction::RunTool(u) => SubagentActionView::RunTool(use_view(*u)),
            SubagentAction::Finish(t) => SubagentActionView::Finish(t@),
            SubagentAction::Stop => SubagentActionView::Stop,
        }
    }
}

/// One step of a sub-agent's conversation:
/// - a reply adds its text to the answer; without tool calls the answer is given; else the reply
///   joins the messages and its tool calls run one by one;
/// - a tool's answer joins the messages; the next tool call runs, or the model is asked again
///   once none is left;
/// - any other event stops it, the state unchanged.
pub open spec fn subagent_next(s: SubagentView, e: EventView) -> (SubagentView, SubagentActionView) {
    match (s.phase, e) {
        (SubagentPhase::AwaitReply, EventView::Replied(c, us)) => if us.len() == 0 {
            (SubagentView { phase: SubagentPhase::Finished, answer: s.answer + c, ..s }, SubagentActionView::Finish(s.answer + c))
        } else {
            (
                SubagentView {
                    phase: SubagentPhase::AwaitTool,
                    messages: s.messages.push(MessageView::Assistant(c, Some(us))),
                    answer: s.answer + c,
                    tool_uses: us.drop_first(),
                },
                SubagentActionView::RunTool(us[0]),
            )
        },
        (SubagentPhase::AwaitTool, EventView::ToolDone(content, id, is_error)) => {
            let ms = s.messages.push(MessageView::Tool(content, id, is_error));
            if s.tool_uses.len() > 0 {
                (SubagentView { messages: ms, tool_uses: s.tool_uses.drop_first(), ..s }, SubagentActionView::RunTool(s.tool_uses[0]))
            } else {
                (SubagentView { phase: SubagentPhase::AwaitReply, messages: ms, ..s }, SubagentActionView::Ask)
            }
        },
        _ => (s, SubagentActionView::Stop),
    }
}

/// The start of a sub-agent's conversation: the prompt as the one user message; the model is asked.
pub fn subagent_start(prompt: String) -> (r: (SubagentState, SubagentAction))
    ensures
        r.0@ == (SubagentView {
            phase: SubagentPhase::AwaitReply,
            messages: seq![MessageView::User(prompt@)],
            answer: Seq::empty(),
            tool_uses: Seq::empty(),
        }),
        r.1@ == SubagentActionView::Ask,
{
    let ghost p = prompt@;
    let messages = vec![ChatMessage::User(prompt)];
    let tool_uses: Vec<ToolUse> = Vec::new();
    let s = SubagentState { phase: SubagentPhase::AwaitReply, messages, answer: String::new(), tool_uses };
    proof {
        assert(messages_view(s.messages@) =~= seq![MessageView::User(p)]);
        assert(uses_view(s.tool_uses@) =~= Seq::<UseView>::empty());
        assert(s.answer@ =~= Seq::<char>::empty());
    }
    (s, SubagentAction::Ask)
}

/// One step of a sub-agent's conversation (see `subagent_next`).
pub fn subagent_step(state: SubagentState, event: SubagentEvent) -> (r: (SubagentState, SubagentAction))
    ensures
        (r.0@, r.1@) == subagent_next(state@, event@),
{
    let ghost sv = state@;
    let ghost ev = event@;
    let SubagentState { phase, messages, answer, tool_uses } = state;
    match (phase, event) {
        (SubagentPhase::AwaitReply, SubagentEvent::Replied { content, tool_uses: uses }) => {
            let uses = match uses {
                Some(v) => v,
                None => {
                    let v: Vec<ToolUse> = Vec::new();
                    proof {
                        assert(uses_view(v@) =~= Seq::<UseView>::empty());
                    }
                    v
                },
            };
            assert(uses_view(uses@) == ev->Replied_1);
            let mut answer = answer;
            crate::rule::push(&mut answer, content.as_str());
            if uses.len() == 0 {
                let given = copy_string(&answer);
                return (SubagentState { phase: SubagentPhase::Finished, messages, answer, tool_uses }, SubagentAction::Finish(given));
            }
            let mut rest = copy_uses(&uses);
            let ghost rv = uses_view(rest@);
            let first = rest.remove(0);
            proof {
                assert(uses_view(rest@) =~= rv.drop_first());
                assert(use_view(first) == rv[0]);
            }
            let mut messages = messages;
            let ghost mv = messages_view(messages@);
            messages.push(ChatMessage::Assistant { content, tool_uses: Some(uses) });
            proof {
                assert(messages_view(messages@) =~= mv.push(MessageView::Assistant(ev->Replied_0, Some(ev->Replied_1))));
            }
            (SubagentState { phase: SubagentPhase::AwaitTool, messages, answer, tool_uses: rest }, SubagentAction::RunTool(first))
        },
        (SubagentPhase::AwaitTool, SubagentEvent::ToolDone(message)) => {
            let mut messages = messages;
            let ghost mv = messages_view(messages@);
            messages.push(ChatMessage::Tool(message));
            proof {
                assert(messages_view(messages@) =~= mv.push(MessageView::Tool(ev->ToolDone_0, ev->ToolDone_1, ev->ToolDone_2)));
            }
            let mut tool_uses = tool_uses;
            if tool_uses.len() > 0 {
                let ghost tv = uses_view(tool_uses@);
                let next = tool_uses.remove(0);
                proof {
                    assert(uses_view(tool_uses@) =~= tv.drop_first());
                    assert(use_view(next) == tv[0]);
                }
                (SubagentState { phase: SubagentPhase::AwaitTool, messages, answer, tool_uses }, SubagentAction::RunTool(next))
            } else {
                (SubagentState { phase: SubagentPhase::AwaitReply, messages, answer, tool_uses }, SubagentAction::Ask)
            }
        },
        (phase, _) => (SubagentState { phase, messages, answer, tool_uses }, SubagentAction::Stop),
    }
}

} // verus!
