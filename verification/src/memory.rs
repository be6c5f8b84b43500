//! The memory document of an agent: its actions, the window of recent actions shown to the model,
//! its tools and skills, and the timestamps it is stamped with.

use vstd::prelude::*;
use crate::context::{
    action_status_text, ActionResult, ActionResultView, ActionStatus, ActionType, MemoryStatus,
    SkillDef, Skills, Workspace,
};
use crate::json::{push_member, Json, JsonView};
use crate::llm::copy_json;
use crate::rule::{copy_string, push, text_of};
use crate::rule_tool::new_uuid;
use crate::source::opt_text;
use crate::text::{chars_of, decimal, u64_to_string};
use crate::ynode::{override_from_text, OverrideRule};

verus! {

// ---------------------------------------------------------------------------
// Calendar
// ---------------------------------------------------------------------------

/// Whether a year of the proleptic Gregorian calendar is a leap year.
pub open spec fn leap(year: int) -> bool {
    (year % 4 == 0 && year % 100 != 0) || year % 400 == 0
}

/// The number of days of a year.
pub open spec fn year_len(year: int) -> int {
    if leap(year) { 366 } else { 365 }
}

/// The number of days from 1970-01-01 to the first day of `year` (from 1970 on).
pub open spec fn days_before_year(year: int) -> int
    decreases year - 1970,
{
    if year <= 1970 {
        0
    } else {
        days_before_year(year - 1) + year_len(year - 1)
    }
}

/// The number of days of month `m` (0 for January).
pub open spec fn month_len(m: int, is_leap: bool) -> int {
    if m == 1 {
        if is_leap { 29 } else { 28 }
    } else if m == 3 || m == 5 || m == 8 || m == 10 {
        30
    } else {
        31
    }
}

/// Month and day of the `rem`-th day (counting from 1) from the start of month `m`; past December,
/// December 31.
pub open spec fn month_day_from(rem: int, m: int, is_leap: bool) -> (u32, u32)
    decreases 12 - m,
{
    if m >= 12 || m < 0 {
        (12, 31)
    } else if rem <= month_len(m, is_leap) {
        ((m + 1) as u32, rem as u32)
    } else {
        month_day_from(rem - month_len(m, is_leap), m + 1, is_leap)
    }
}

proof fn lemma_days_before_year_grows(a: int, b: int)
    requires
        1970 <= a <= b,
    ensures
        days_before_year(a) + 365 * (b - a) <= days_before_year(b),
    decreases b - a,
{
    if a < b {
        lemma_days_before_year_grows(a, b - 1);
    }
}

/// Whether a year is a leap year.
pub fn is_leap_year(year: i32) -> (b: bool)
    ensures
        b == leap(year as int),
{
    (year % 4 == 0 && year % 100 != 0) || (year % 400 == 0)
}

fn month_length(m: usize, is_leap: bool) -> (r: u32)
    requires
        m < 12,
    ensures
        r == month_len(m as int, is_leap),
{
    if m == 1 {
        if is_leap { 29 } else { 28 }
    } else if m == 3 || m == 5 || m == 8 || m == 10 {
        30
    } else {
        31
    }
}

/// Month (from 1) and day of month (from 1) of the day `days` (from 0) of a year.
pub fn days_to_md(days: u32, is_leap: bool) -> (r: (u32, u32))
    requires
        days < u32::MAX,
    ensures
        r == month_day_from(days + 1, 0, is_leap),
{
    let mut remaining: u32 = days + 1;
    let mut i: usize = 0;
    while i < 12
        invariant
            i <= 12,
            month_day_from(remaining as int, i as int, is_leap) == month_day_from(days + 1, 0, is_leap),
        decreases 12 - i,
    {
        let len = month_length(i, is_leap);
        if remaining <= len {
            return ((i + 1) as u32, remaining);
        }
        remaining = remaining - len;
        i = i + 1;
    }
    (12, 31)
}

/// The year of the day `days` (from 0, 1970-01-01), with its month and day of month.
pub fn days_to_ymd(days: u64) -> (r: (i32, u32, u32))
    requires
        days < days_before_year(0x8000_0000),
    ensures
        1970 <= r.0,
        days_before_year(r.0 as int) <= days < days_before_year(r.0 as int) + year_len(r.0 as int),
        (r.1, r.2) == month_day_from(days - days_before_year(r.0 as int) + 1, 0, leap(r.0 as int)),
{
    let mut year: i32 = 1970;
    let mut remaining: u64 = days;
    loop
        invariant
            1970 <= year,
            days_before_year(year as int) <= days,
            remaining == days - days_before_year(year as int),
            days < days_before_year(0x8000_0000),
        ensures
            1970 <= year,
            days_before_year(year as int) <= days,
            remaining == days - days_before_year(year as int),
            remaining < year_len(year as int),
        decreases remaining,
    {
        let days_in_year: u64 = if is_leap_year(year) { 366 } else { 365 };
        if remaining < days_in_year {
            break;
        }
        remaining = remaining - days_in_year;
        proof {
            if year + 1 >= 0x8000_0000 {
                lemma_days_before_year_grows(year as int + 1, 0x8000_0000);
            }
        }
        year = year + 1;
    }
    let (month, day) = days_to_md(remaining as u32, is_leap_year(year));
    (year, month, day)
}

/// `n` in decimal, left-padded with zeros to `w` characters.
pub open spec fn zero_padded(n: nat, w: nat) -> Seq<char> {
    if decimal(n).len() < w {
        Seq::new((w - decimal(n).len()) as nat, |i: int| '0') + decimal(n)
    } else {
        decimal(n)
    }
}

pub(crate) fn push_padded(s: &mut String, n: u64, w: usize)
    ensures
        final(s)@ == old(s)@ + zero_padded(n as nat, w as nat),
{
    let d = u64_to_string(n);
    let len = chars_of(d.as_str()).len();
    let ghost start = s@;
    let mut k: usize = len;
    while k < w
        invariant
            len == decimal(n as nat).len(),
            len <= k,
            k <= w || len >= w,
            len >= w ==> k == len,
            s@ == start + Seq::new((k - len) as nat, |i: int| '0'),
        decreases w - k,
    {
        push(s, "0");
        proof {
            reveal_strlit("0");
            assert(s@ =~= start + Seq::new((k + 1 - len) as nat, |i: int| '0'));
        }
        k = k + 1;
    }
    push(s, d.as_str());
    proof {
        if len < w {
            assert(s@ =~= start + zero_padded(n as nat, w as nat));
        } else {
            assert(Seq::new((k - len) as nat, |i: int| '0') =~= Seq::<char>::empty());
            assert(s@ =~= start + zero_padded(n as nat, w as nat));
        }
    }
}

/// The date and time of `secs` seconds after 1970-01-01T00:00:00 UTC, written
/// `YYYY-MM-DDTHH:MM:SS`.
pub open spec fn datetime_text(secs: nat) -> Seq<char> {
    let days = secs / 86400;
    let rest = secs % 86400;
    let year = choose|y: int| 1970 <= y && #[trigger] days_before_year(y) <= days < days_before_year(y) + year_len(y);
    let md = month_day_from(days - days_before_year(year) + 1, 0, leap(year));
    zero_padded(year as nat, 4) + "-"@ + zero_padded(md.0 as nat, 2) + "-"@ + zero_padded(md.1 as nat, 2)
        + "T"@ + zero_padded(rest / 3600, 2) + ":"@ + zero_padded((rest % 3600) / 60, 2) + ":"@
        + zero_padded(rest % 60, 2)
}

proof fn lemma_year_unique(days: int, y1: int, y2: int)
    requires
        1970 <= y1,
        1970 <= y2,
        days_before_year(y1) <= days < days_before_year(y1) + year_len(y1),
        days_before_year(y2) <= days < days_before_year(y2) + year_len(y2),
    ensures
        y1 == y2,
{
    if y1 < y2 {
        lemma_days_before_year_grows(y1 + 1, y2);
        assert(days_before_year(y1 + 1) == days_before_year(y1) + year_len(y1));
    } else if y2 < y1 {
        lemma_days_before_year_grows(y2 + 1, y1);
        assert(days_before_year(y2 + 1) == days_before_year(y2) + year_len(y2));
    }
}

/// The text of a time given in seconds since the epoch.
pub fn chrono_like_format(secs: u64) -> (r: String)
    requires
        secs / 86400 < days_before_year(0x8000_0000),
    ensures
        r@ == datetime_text(secs as nat),
{
    let days = secs / 86400;
    let remaining = secs % 86400;
    let hours = remaining / 3600;
    let minutes = (remaining % 3600) / 60;
    let seconds = remaining % 60;
    let (year, month, day) = days_to_ymd(days);
    let mut s = String::new();
    push_padded(&mut s, year as u64, 4);
    push(&mut s, "-");
    push_padded(&mut s, month as u64, 2);
    push(&mut s, "-");
    push_padded(&mut s, day as u64, 2);
    push(&mut s, "T");
    push_padded(&mut s, hours, 2);
    push(&mut s, ":");
    push_padded(&mut s, minutes, 2);
    push(&mut s, ":");
    push_padded(&mut s, seconds, 2);
    proof {
        let d = secs as nat / 86400;
        let y = choose|y: int| 1970 <= y && #[trigger] days_before_year(y) <= d < days_before_year(y) + year_len(y);
        assert(1970 <= year as int && days_before_year(year as int) <= d < days_before_year(year as int) + year_len(year as int));
        lemma_year_unique(d as int, y, year as int);
        assert(s@ =~= datetime_text(secs as nat));
    }
    s
}

/// std's `SystemTime::now()` as whole seconds since the epoch (0 for a clock before it). Trusted
/// for nothing: the value depends on the clock.
#[verifier::external_body]
fn unix_now_secs() -> u64 {
    std::time::SystemTime::now().duration_since(std::time::UNIX_EPOCH).unwrap_or_default().as_secs()
}

/// The current time as `YYYY-MM-DDTHH:MM:SSZ`. A clock later than day 783,830,812,105 after the
/// epoch (near the end of the years an `i32` holds) is written as that day's last second.
pub fn chrono_timestamp() -> (r: String)
    ensures
        exists|secs: nat| r@ == datetime_text(secs) + "Z"@,
{
    let max_days: u64 = 783_830_812_105;
    let mut secs = unix_now_secs();
    if secs / 86400 > max_days {
        secs = max_days * 86400 + 86399;
    }
    proof {
        lemma_days_before_year_grows(1970, 0x8000_0000);
    }
    let mut s = chrono_like_format(secs);
    push(&mut s, "Z");
    s
}

// ---------------------------------------------------------------------------
// Actions
// ---------------------------------------------------------------------------

/// One step of an agent: a thought, a tool call with its result, a system message or a summary
/// of earlier history.
#[derive(Debug)]
pub struct Action {
    pub id: String,
    /// The tool's name, or `thought`, `system`, `_historical_summary`.
    pub name: String,
    pub action_type: ActionType,
    /// How the action merges into a memory document (`x:override`).
    pub override_rule: Option<String>,
    /// The tool's arguments.
    pub arguments: Option<Json>,
    pub result: Option<ActionResult>,
}

/// The mathematical value of an action.
pub struct ActionView {
    pub id: Seq<char>,
    pub name: Seq<char>,
    pub action_type: ActionType,
    pub override_rule: Option<Seq<char>>,
    pub arguments: Option<JsonView>,
    pub result: Option<ActionResultView>,
}

impl View for Action {
    type V = ActionView;

    open spec fn view(&self) -> ActionView {
        ActionView {
            id: self.id@,
            name: self.name@,
            action_type: self.action_type,
            override_rule: opt_text(self.override_rule),
            arguments: match self.arguments {
                Some(j) => Some(j@),
                None => None,
            },
            result: match self.result {
                Some(r) => Some(r@),
                None => None,
            },
        }
    }
}

/// A copy of an action result, equal in view.
pub fn copy_result(r: &ActionResult) -> (c: ActionResult)
    ensures
        c@ == r@,
{
    ActionResult {
        is_summary: r.is_summary,
        status: r.status,
        output: copy_string(&r.output),
        error: match &r.error {
            Some(e) => Some(copy_string(e)),
            None => None,
        },
        raw_content: match &r.raw_content {
            Some(c) => Some(copy_string(c)),
            None => None,
        },
    }
}

/// The successful, non-summary result with this output.
pub open spec fn ok_result(output: Seq<char>, is_summary: bool) -> ActionResultView {
    ActionResultView { is_summary, status: ActionStatus::Succeeded, output, error: None, raw_content: None }
}

/// The arguments recorded with a summary of `n` actions.
pub open spec fn summary_arguments(n: nat) -> JsonView {
    JsonView::Object(seq![
        ("summarized_count"@, JsonView::PosInt(n as u64)),
        ("summary_method"@, JsonView::Str("llm_summarization"@)),
    ])
}

impl Action {
    /// An action with an id, a name and a type, and nothing else.
    pub fn new(id: String, name: String, action_type: ActionType) -> (r: Action)
        ensures
            r@ == (ActionView {
                id: id@,
                name: name@,
                action_type,
                override_rule: None,
                arguments: None,
                result: None,
            }),
    {
        Action { id, name, action_type, override_rule: None, arguments: None, result: None }
    }

    /// A thought: named `thought`, its content as a successful result.
    pub fn thought(id: String, content: String) -> (r: Action)
        ensures
            r@ == (ActionView {
                id: id@,
                name: "thought"@,
                action_type: ActionType::Thought,
                override_rule: None,
                arguments: None,
                result: Some(ok_result(content@, false)),
            }),
    {
        let mut action = Action::new(id, text_of("thought"), ActionType::Thought);
        action.result = Some(ActionResult {
            is_summary: false,
            status: ActionStatus::Succeeded,
            output: content,
            error: None,
            raw_content: None,
        });
        action
    }

    /// A tool call with its arguments and its result.
    pub fn tool(id: String, tool_name: String, arguments: Json, result: ActionResult) -> (r: Action)
        ensures
            r@ == (ActionView {
                id: id@,
                name: tool_name@,
                action_type: ActionType::ToolCall,
                override_rule: None,
                arguments: Some(arguments@),
                result: Some(result@),
            }),
    {
        let mut action = Action::new(id, tool_name, ActionType::ToolCall);
        action.arguments = Some(arguments);
        action.result = Some(result);
        action
    }

    /// A system message: named `system`, its content as a successful result.
    pub fn system_message(id: String, content: String) -> (r: Action)
        ensures
            r@ == (ActionView {
                id: id@,
                name: "system"@,
                action_type: ActionType::SystemMessage,
                override_rule: None,
                arguments: None,
                result: Some(ok_result(content@, false)),
            }),
    {
        let mut action = Action::new(id, text_of("system"), ActionType::SystemMessage);
        action.result = Some(ActionResult {
            is_summary: false,
            status: ActionStatus::Succeeded,
            output: content,
            error: None,
            raw_content: None,
        });
        action
    }

    /// A summary of `summarized_count` earlier actions: named `_historical_summary`, with the
    /// count and method as arguments and the summary as a successful summary result.
    pub fn historical_summary(id: String, content: String, summarized_count: usize) -> (r: Action)
        ensures
            r@ == (ActionView {
                id: id@,
                name: "_historical_summary"@,
                action_type: ActionType::HistoricalSummary,
                override_rule: None,
                arguments: Some(summary_arguments(summarized_count as nat)),
                result: Some(ok_result(content@, true)),
            }),
    {
        let mut action = Action::new(id, text_of("_historical_summary"), ActionType::HistoricalSummary);
        let mut members: Vec<(String, Json)> = Vec::new();
        proof {
            assert(crate::json::members_view(members@) =~= Seq::<(Seq<char>, JsonView)>::empty());
        }
        let count = Json::PosInt(summarized_count as u64);
        let method = Json::Str(text_of("llm_summarization"));
        proof {
            reveal_with_fuel(crate::json::json_view, 2);
            assert(count@ == JsonView::PosInt(summarized_count as u64));
            assert(method@ == JsonView::Str("llm_summarization"@));
        }
        push_member(&mut members, "summarized_count", count);
        push_member(&mut members, "summary_method", method);
        let args = crate::json::object_of(members);
        proof {
            assert(crate::json::members_view(members@) =~= seq![
                ("summarized_count"@, JsonView::PosInt(summarized_count as u64)),
                ("summary_method"@, JsonView::Str("llm_summarization"@)),
            ]);
        }
        action.arguments = Some(args);
        action.result = Some(ActionResult {
            is_summary: true,
            status: ActionStatus::Succeeded,
            output: content,
            error: None,
            raw_content: None,
        });
        action
    }

    /// The same action with a merge rule.
    pub fn with_override(self, rule: String) -> (r: Action)
        ensures
            r@ == (ActionView { override_rule: Some(rule@), ..self@ }),
    {
        let mut me = self;
        me.override_rule = Some(rule);
        me
    }

    /// The merge rule of the action; `merge` without one.
    pub fn get_override_rule(&self) -> (r: OverrideRule)
        ensures
            r == match self@.override_rule {
                Some(s) => override_from_text(s),
                None => OverrideRule::Merge,
            },
    {
        match &self.override_rule {
            Some(s) => OverrideRule::from_str(s.as_str()),
            None => OverrideRule::Merge,
        }
    }

    /// A copy, equal in view.
    pub fn copy(&self) -> (r: Action)
        ensures
            r@ == self@,
    {
        Action {
            id: copy_string(&self.id),
            name: copy_string(&self.name),
            action_type: self.action_type,
            override_rule: match &self.override_rule {
                Some(o) => Some(copy_string(o)),
                None => None,
            },
            arguments: match &self.arguments {
                Some(j) => Some(copy_json(j)),
                None => None,
            },
            result: match &self.result {
                Some(r) => Some(copy_result(r)),
                None => None,
            },
        }
    }
}

impl Clone for Action {
    fn clone(&self) -> (r: Self)
        ensures
            r@ == self@,
    {
        self.copy()
    }
}

/// The views of a list of actions.
pub open spec fn actions_view(s: Seq<Action>) -> Seq<ActionView> {
    s.map_values(|a: Action| a@)
}

/// The actions of a memory document, with the merge rule of the list.
#[derive(Debug)]
pub struct ActionList {
    /// How the list merges (`x:override`).
    pub x_override: Option<String>,
    pub actions: Vec<Action>,
}

impl View for ActionList {
    type V = Seq<ActionView>;

    open spec fn view(&self) -> Seq<ActionView> {
        actions_view(self.actions@)
    }
}

/// The last (at most) `n` items of a sequence.
pub open spec fn last_n<A>(s: Seq<A>, n: nat) -> Seq<A> {
    if s.len() > n {
        s.subrange(s.len() - n, s.len() as int)
    } else {
        s
    }
}

impl ActionList {
    /// An empty list without merge rule.
    pub fn new() -> (r: ActionList)
        ensures
            r@ == Seq::<ActionView>::empty(),
            r.x_override is None,
    {
        let r = ActionList { x_override: None, actions: Vec::new() };
        proof {
            assert(r@ =~= Seq::<ActionView>::empty());
        }
        r
    }

    /// An empty list with a merge rule.
    pub fn with_override(rule: &str) -> (r: ActionList)
        ensures
            r@ == Seq::<ActionView>::empty(),
            opt_text(r.x_override) == Some(rule@),
    {
        let r = ActionList { x_override: Some(text_of(rule)), actions: Vec::new() };
        proof {
            assert(r@ =~= Seq::<ActionView>::empty());
        }
        r
    }

    /// Adds an action at the end.
    pub fn push(&mut self, action: Action)
        ensures
            final(self)@ == old(self)@.push(action@),
            final(self).x_override == old(self).x_override,
    {
        self.actions.push(action);
        proof {
            assert(self@ =~= old(self)@.push(action@));
        }
    }

    /// The number of actions.
    pub fn len(&self) -> (r: usize)
        ensures
            r == self@.len(),
    {
        self.actions.len()
    }

    /// Whether there is no action.
    pub fn is_empty(&self) -> (b: bool)
        ensures
            b == (self@.len() == 0),
    {
        self.actions.len() == 0
    }

    /// The actions, in order.
    pub fn iter(&self) -> (r: &Vec<Action>)
        ensures
            actions_view(r@) == self@,
    {
        &self.actions
    }

    /// The last action.
    pub fn last(&self) -> (r: Option<&Action>)
        ensures
            match r {
                Some(a) => self@.len() > 0 && a@ == self@.last(),
                None => self@.len() == 0,
            },
    {
        if self.actions.len() == 0 {
            None
        } else {
            Some(&self.actions[self.actions.len() - 1])
        }
    }

    /// Keeps the first `len` actions.
    pub fn truncate(&mut self, len: usize)
        ensures
            final(self)@ == old(self)@.take(if len < old(self)@.len() { len as int } else { old(self)@.len() as int }),
            final(self).x_override == old(self).x_override,
    {
        self.actions.truncate(len);
        proof {
            assert(self@ =~= old(self)@.take(if len < old(self)@.len() { len as int } else { old(self)@.len() as int }));
        }
    }

    /// Drops the first `n` actions.
    pub fn drain_front(&mut self, n: usize)
        requires
            n <= old(self)@.len(),
        ensures
            final(self)@ == old(self)@.subrange(n as int, old(self)@.len() as int),
            final(self).x_override == old(self).x_override,
    {
        let rest = self.actions.split_off(n);
        self.actions = rest;
        proof {
            assert(self@ =~= old(self)@.subrange(n as int, old(self)@.len() as int));
        }
    }

    /// Drops every action.
    pub fn clear(&mut self)
        ensures
            final(self)@ == Seq::<ActionView>::empty(),
            final(self).x_override == old(self).x_override,
    {
        self.actions.clear();
        proof {
            assert(self@ =~= Seq::<ActionView>::empty());
        }
    }

    /// Copies of the actions after the first `n`.
    pub fn skip(&self, n: usize) -> (r: Vec<Action>)
        ensures
            actions_view(r@) == self@.subrange(if n < self@.len() { n as int } else { self@.len() as int }, self@.len() as int),
    {
        let start: usize = if n < self.actions.len() { n } else { self.actions.len() };
        let mut out: Vec<Action> = Vec::new();
        let mut i: usize = start;
        proof {
            assert(actions_view(out@) =~= self@.subrange(start as int, start as int));
        }
        while i < self.actions.len()
            invariant
                start <= i <= self.actions@.len(),
                self@ == actions_view(self.actions@),
                actions_view(out@) == self@.subrange(start as int, i as int),
            decreases self.actions.len() - i,
        {
            let c = self.actions[i].copy();
            let ghost prev = out@;
            out.push(c);
            proof {
                assert(out@ == prev.push(c));
                assert(c@ == self@[i as int]);
                assert forall|k: int| 0 <= k < prev.len() implies #[trigger] actions_view(out@)[k] == actions_view(prev)[k] by {
                    assert(out@[k] == prev[k]);
                }
                assert(actions_view(out@)[prev.len() as int] == c@);
                assert(actions_view(prev).len() == prev.len());
                assert(actions_view(out@) =~= self@.subrange(start as int, i + 1));
            }
            i = i + 1;
        }
        out
    }

    /// Copies of all actions.
    pub fn to_vec(&self) -> (r: Vec<Action>)
        ensures
            actions_view(r@) == self@,
    {
        let r = self.skip(0);
        proof {
            assert(self@.subrange(0, self@.len() as int) =~= self@);
        }
        r
    }

    /// A copy of the list.
    pub fn copy(&self) -> (r: ActionList)
        ensures
            r@ == self@,
            opt_text(r.x_override) == opt_text(self.x_override),
    {
        ActionList {
            x_override: match &self.x_override {
                Some(o) => Some(copy_string(o)),
                None => None,
            },
            actions: self.to_vec(),
        }
    }
}

// ---------------------------------------------------------------------------
// Tools
// ---------------------------------------------------------------------------

/// A tool the agent can call.
#[derive(Debug)]
pub struct ToolDef {
    pub name: String,
    pub description: Option<String>,
    /// The JSON schema of the tool's input.
    pub input_schema: Option<Json>,
}

impl ToolDef {
    /// A tool with a name only.
    pub fn new(name: String) -> (r: ToolDef)
        ensures
            r.name@ == name@,
            r.description is None,
            r.input_schema is None,
    {
        ToolDef { name, description: None, input_schema: None }
    }

    /// A tool with a name and a description.
    pub fn with_description(name: String, description: String) -> (r: ToolDef)
        ensures
            r.name@ == name@,
            opt_text(r.description) == Some(description@),
            r.input_schema is None,
    {
        ToolDef { name, description: Some(description), input_schema: None }
    }

    /// A copy, with the same texts and schema.
    pub fn copy(&self) -> (r: ToolDef)
        ensures
            r.name@ == self.name@,
            opt_text(r.description) == opt_text(self.description),
            match (r.input_schema, self.input_schema) {
                (Some(a), Some(b)) => a@ == b@,
                (None, None) => true,
                _ => false,
            },
    {
        ToolDef {
            name: copy_string(&self.name),
            description: match &self.description {
                Some(d) => Some(copy_string(d)),
                None => None,
            },
            input_schema: match &self.input_schema {
                Some(j) => Some(copy_json(j)),
                None => None,
            },
        }
    }
}

/// The tools of an agent.
#[derive(Debug)]
pub struct Tools {
    pub items: Vec<ToolDef>,
}

impl Tools {
    /// No tool.
    pub fn new() -> (r: Tools)
        ensures
            r.items@.len() == 0,
    {
        Tools { items: Vec::new() }
    }

    /// Whether there is no tool.
    pub fn is_empty(&self) -> (b: bool)
        ensures
            b == (self.items@.len() == 0),
    {
        self.items.len() == 0
    }

    /// Adds a tool at the end.
    pub fn push(&mut self, tool: ToolDef)
        ensures
            final(self).items@ == old(self).items@.push(tool),
    {
        self.items.push(tool);
    }

    /// The tools, in order.
    pub fn iter(&self) -> (r: &Vec<ToolDef>)
        ensures
            r@ == self.items@,
    {
        &self.items
    }
}

impl From<Vec<ToolDef>> for Tools {
    fn from(items: Vec<ToolDef>) -> (r: Tools) {
        Tools { items }
    }
}

impl vstd::std_specs::convert::FromSpecImpl<Vec<ToolDef>> for Tools {
    open spec fn obeys_from_spec() -> bool {
        true
    }

    open spec fn from_spec(v: Vec<ToolDef>) -> Tools {
        Tools { items: v }
    }
}

/// What a tool description holds: its name, its description and its schema.
pub open spec fn tool_view(t: ToolDef) -> (Seq<char>, Option<Seq<char>>, Option<JsonView>) {
    (
        t.name@,
        opt_text(t.description),
        match t.input_schema {
            Some(j) => Some(j@),
            None => None,
        },
    )
}

/// The tools of a list, each by `tool_view`, in order.
pub open spec fn tools_view(s: Seq<ToolDef>) -> Seq<(Seq<char>, Option<Seq<char>>, Option<JsonView>)> {
    s.map_values(|t: ToolDef| tool_view(t))
}

/// What a skill description holds: its name and its description.
pub open spec fn skill_view(d: SkillDef) -> (Seq<char>, Option<Seq<char>>) {
    (d.name@, opt_text(d.description))
}

/// The skills of a list, each by `skill_view`, in order.
pub open spec fn skills_view(s: Seq<SkillDef>) -> Seq<(Seq<char>, Option<Seq<char>>)> {
    s.map_values(|d: SkillDef| skill_view(d))
}

fn copy_tools(t: &Tools) -> (r: Tools)
    ensures
        tools_view(r.items@) == tools_view(t.items@),
{
    let mut items: Vec<ToolDef> = Vec::new();
    let mut i: usize = 0;
    while i < t.items.len()
        invariant
            i <= t.items@.len(),
            tools_view(items@) == tools_view(t.items@).take(i as int),
        decreases t.items.len() - i,
    {
        let c = t.items[i].copy();
        let ghost prev = items@;
        items.push(c);
        proof {
            assert(tool_view(c) == tool_view(t.items@[i as int]));
            assert(tools_view(items@) =~= tools_view(t.items@).take(i + 1)) by {
                assert(items@ == prev.push(c));
                assert(tools_view(prev).len() == prev.len());
            }
        }
        i = i + 1;
    }
    proof {
        assert(tools_view(t.items@).take(t.items@.len() as int) =~= tools_view(t.items@));
    }
    Tools { items }
}

fn copy_skills(s: &Skills) -> (r: Skills)
    ensures
        skills_view(r.items@) == skills_view(s.items@),
{
    let mut items: Vec<SkillDef> = Vec::new();
    let mut i: usize = 0;
    while i < s.items.len()
        invariant
            i <= s.items@.len(),
            skills_view(items@) == skills_view(s.items@).take(i as int),
        decreases s.items.len() - i,
    {
        let d = &s.items[i];
        let c = SkillDef {
            name: copy_string(&d.name),
            description: match &d.description {
                Some(x) => Some(copy_string(x)),
                None => None,
            },
        };
        let ghost prev = items@;
        items.push(c);
        proof {
            assert(skill_view(c) == skill_view(s.items@[i as int]));
            assert(skills_view(items@) =~= skills_view(s.items@).take(i + 1)) by {
                assert(items@ == prev.push(c));
                assert(skills_view(prev).len() == prev.len());
            }
        }
        i = i + 1;
    }
    proof {
        assert(skills_view(s.items@).take(s.items@.len() as int) =~= skills_view(s.items@));
    }
    Skills { items }
}

fn copy_workspace(w: &Workspace) -> (r: Workspace)
    ensures
        crate::context::files_view(r.files@) == crate::context::files_view(w.files@),
{
    let mut files: Vec<crate::context::FileEntry> = Vec::new();
    let mut i: usize = 0;
    while i < w.files.len()
        invariant
            i <= w.files@.len(),
            crate::context::files_view(files@) == crate::context::files_view(w.files@).take(i as int),
        decreases w.files.len() - i,
    {
        let f = w.files[i].clone();
        let ghost prev = files@;
        files.push(f);
        proof {
            assert(files@ == prev.push(f));
            assert forall|k: int| 0 <= k < prev.len() implies #[trigger] crate::context::files_view(files@)[k] == crate::context::files_view(prev)[k] by {
                assert(files@[k] == prev[k]);
            }
            assert(crate::context::files_view(files@)[prev.len() as int] == f@);
            assert(f@ == crate::context::files_view(w.files@)[i as int]);
            assert(crate::context::files_view(prev).len() == prev.len());
            assert(crate::context::files_view(files@) =~= crate::context::files_view(w.files@).take(i + 1));
        }
        i = i + 1;
    }
    proof {
        assert(crate::context::files_view(w.files@).take(w.files@.len() as int) =~= crate::context::files_view(w.files@));
    }
    Workspace { files }
}

// ---------------------------------------------------------------------------
// Memory documents
// ---------------------------------------------------------------------------

/// The number of recent actions a memory shows the model.
pub const CURRENT_WINDOW: usize = 10;

/// The memory of one task of an agent.
#[derive(Debug)]
pub struct Memory {
    pub id: String,
    /// Raised by each change.
    pub version: u32,
    pub created_at: String,
    pub status: MemoryStatus,
    /// The namespace declaration of the delta attributes.
    pub xmlns_x: Option<String>,
    /// The document this one extends.
    pub x_extends: Option<String>,
    /// What the user asked for.
    pub intent: String,
    pub system_prompt: Option<String>,
    pub workspace: Workspace,
    pub tools: Tools,
    pub skills: Skills,
    /// The recent actions shown to the model.
    pub current: ActionList,
    /// Every action.
    pub history: ActionList,
}

/// The window of actions shown to the model: from the last summary of history on (at most ten
/// actions), or without a summary the last ten.
pub open spec fn window_of(h: Seq<ActionView>) -> Seq<ActionView> {
    match last_summary(h) {
        Some(i) => h.subrange(i, if i + 10 < h.len() { i + 10 } else { h.len() as int }),
        None => last_n(h, 10),
    }
}

/// The position of the last summary action.
pub open spec fn last_summary(h: Seq<ActionView>) -> Option<int>
    decreases h.len(),
{
    if h.len() == 0 {
        None
    } else if h.last().action_type == ActionType::HistoricalSummary {
        Some(h.len() - 1)
    } else {
        last_summary(h.drop_last())
    }
}

/// The position of the first action with this id.
pub open spec fn first_with_id(h: Seq<ActionView>, id: Seq<char>) -> Option<int>
    decreases h.len(),
{
    if h.len() == 0 {
        None
    } else {
        match first_with_id(h.drop_last(), id) {
            Some(i) => Some(i),
            None => if h.last().id == id { Some(h.len() - 1) } else { None },
        }
    }
}

proof fn lemma_last_summary(h: Seq<ActionView>)
    ensures
        match last_summary(h) {
            Some(i) => 0 <= i < h.len() && h[i].action_type == ActionType::HistoricalSummary
                && forall|j: int| i < j < h.len() ==> h[j].action_type != ActionType::HistoricalSummary,
            None => forall|j: int| 0 <= j < h.len() ==> h[j].action_type != ActionType::HistoricalSummary,
        },
    decreases h.len(),
{
    if h.len() > 0 {
        lemma_last_summary(h.drop_last());
        assert forall|j: int| 0 <= j < h.len() - 1 implies h.drop_last()[j] == h[j] by {}
    }
}

proof fn lemma_first_with_id(h: Seq<ActionView>, id: Seq<char>)
    ensures
        match first_with_id(h, id) {
            Some(i) => 0 <= i < h.len() && h[i].id == id && forall|j: int| 0 <= j < i ==> h[j].id != id,
            None => forall|j: int| 0 <= j < h.len() ==> h[j].id != id,
        },
    decreases h.len(),
{
    if h.len() > 0 {
        lemma_first_with_id(h.drop_last(), id);
        assert forall|j: int| 0 <= j < h.len() - 1 implies h.drop_last()[j] == h[j] by {}
    }
}

impl Memory {
    /// A new pending memory of an intent: a random id, version 1, stamped with the current time,
    /// with no action, tool, skill or file.
    pub fn new(intent: String) -> (r: Memory)
        ensures
            r.id@.len() == 36,
            r.version == 1,
            r.status == MemoryStatus::Pending,
            r.intent@ == intent@,
            r.system_prompt is None,
            r.xmlns_x is None,
            r.x_extends is None,
            exists|secs: nat| r.created_at@ == datetime_text(secs) + "Z"@,
            r.workspace.files@.len() == 0,
            r.tools.items@.len() == 0,
            r.skills.items@.len() == 0,
            r.current@ == Seq::<ActionView>::empty(),
            r.history@ == Seq::<ActionView>::empty(),
    {
        Memory {
            id: new_uuid(),
            version: 1,
            created_at: chrono_timestamp(),
            status: MemoryStatus::Pending,
            xmlns_x: None,
            x_extends: None,
            intent,
            system_prompt: None,
            workspace: Workspace::new(),
            tools: Tools::new(),
            skills: Skills::new(),
            current: ActionList::new(),
            history: ActionList::new(),
        }
    }

    /// A new memory (see `new`) with a system prompt.
    pub fn with_system_prompt(intent: String, system_prompt: String) -> (r: Memory)
        ensures
            r.id@.len() == 36,
            r.version == 1,
            r.status == MemoryStatus::Pending,
            r.intent@ == intent@,
            opt_text(r.system_prompt) == Some(system_prompt@),
            r.current@ == Seq::<ActionView>::empty(),
            r.history@ == Seq::<ActionView>::empty(),
    {
        let mut memory = Memory::new(intent);
        memory.system_prompt = Some(system_prompt);
        memory
    }

    /// Records an action: it is added to the history and to the recent actions, of which the
    /// last ten are kept, and the version is raised.
    pub fn add_action(&mut self, action: Action)
        requires
            old(self).version < u32::MAX,
        ensures
            final(self).history@ == old(self).history@.push(action@),
            final(self).current@ == last_n(old(self).current@.push(action@), 10),
            old(self).current@ == last_n(old(self).history@, 10)
                ==> final(self).current@ == last_n(final(self).history@, 10),
            final(self).version == old(self).version + 1,
            final(self).status == old(self).status,
            final(self).id == old(self).id,
            final(self).intent == old(self).intent,
            final(self).history.x_override == old(self).history.x_override,
            final(self).current.x_override == old(self).current.x_override,
    {
        self.history.push(action.copy());
        self.current.push(action);
        if self.current.len() > CURRENT_WINDOW {
            let extra = self.current.len() - CURRENT_WINDOW;
            self.current.drain_front(extra);
        }
        self.version = self.version + 1;
        proof {
            if old(self).current@ == last_n(old(self).history@, 10) {
                lemma_current_window_kept(old(self).history@, old(self).current@, action@);
            }
        }
    }

    /// The last `count` actions of the history, newest first.
    pub fn get_recent_actions(&self, count: usize) -> (r: Vec<&Action>)
        ensures
            r@.len() == if count < self.history@.len() { count as int } else { self.history@.len() as int },
            forall|i: int| 0 <= i < r@.len() ==> #[trigger] r@[i]@ == self.history@[self.history@.len() - 1 - i],
    {
        let n = self.history.actions.len();
        let mut out: Vec<&Action> = Vec::new();
        let mut i: usize = 0;
        while i < count && i < n
            invariant
                n == self.history.actions@.len(),
                self.history@ == actions_view(self.history.actions@),
                i <= n,
                i <= count,
                out@.len() == i,
                forall|k: int| 0 <= k < i ==> #[trigger] out@[k]@ == self.history@[n - 1 - k],
            decreases n - i,
        {
            out.push(&self.history.actions[n - 1 - i]);
            i = i + 1;
        }
        out
    }

    /// The first action of the history with this id.
    pub fn get_action(&self, id: &str) -> (r: Option<&Action>)
        ensures
            match r {
                Some(a) => exists|i: int| first_with_id(self.history@, id@) == Some(i) && a@ == self.history@[i],
                None => first_with_id(self.history@, id@) is None,
            },
    {
        let mut i: usize = 0;
        while i < self.history.actions.len()
            invariant
                i <= self.history.actions@.len(),
                self.history@ == actions_view(self.history.actions@),
                forall|k: int| 0 <= k < i ==> #[trigger] self.history@[k].id != id@,
            decreases self.history.actions.len() - i,
        {
            if crate::text::str_eq(self.history.actions[i].id.as_str(), id) {
                proof {
                    let h = self.history@;
                    lemma_first_with_id(h, id@);
                    assert(h[i as int].id == id@);
                    match first_with_id(h, id@) {
                        Some(j) => {
                            if j < i {
                                assert(h[j].id != id@);
                            } else if j > i {
                                assert(h[i as int].id == id@);
                            }
                        },
                        None => {
                            assert(h[i as int].id == id@);
                        },
                    }
                }
                return Some(&self.history.actions[i]);
            }
            i = i + 1;
        }
        proof {
            lemma_first_with_id(self.history@, id@);
        }
        None
    }

    /// Replaces the tools.
    pub fn set_tools(&mut self, tools: Vec<ToolDef>)
        ensures
            final(self).tools.items@ == tools@,
            final(self).version == old(self).version,
            final(self).history@ == old(self).history@,
    {
        self.tools = Tools::from(tools);
    }

    /// Replaces the skills.
    pub fn set_skills(&mut self, skills: Vec<SkillDef>)
        ensures
            final(self).skills.items@ == skills@,
            final(self).version == old(self).version,
            final(self).history@ == old(self).history@,
    {
        self.skills = Skills { items: skills };
    }

    /// Sets the status and raises the version.
    pub fn set_status(&mut self, status: MemoryStatus)
        requires
            old(self).version < u32::MAX,
        ensures
            final(self).status == status,
            final(self).version == old(self).version + 1,
            final(self).history@ == old(self).history@,
            final(self).current@ == old(self).current@,
    {
        self.status = status;
        self.version = self.version + 1;
    }

    /// Marks the task done and raises the version.
    pub fn mark_success(&mut self)
        requires
            old(self).version < u32::MAX,
        ensures
            final(self).status == MemoryStatus::Success,
            final(self).version == old(self).version + 1,
            final(self).history@ == old(self).history@,
            final(self).current@ == old(self).current@,
    {
        self.status = MemoryStatus::Success;
        self.version = self.version + 1;
    }

    /// Marks the task failed and raises the version.
    pub fn mark_failed(&mut self)
        requires
            old(self).version < u32::MAX,
        ensures
            final(self).status == MemoryStatus::Failed,
            final(self).version == old(self).version + 1,
            final(self).history@ == old(self).history@,
            final(self).current@ == old(self).current@,
    {
        self.status = MemoryStatus::Failed;
        self.version = self.version + 1;
    }

    /// Merging a delta memory: for now a copy of this memory with its version raised; the delta is
    /// not read.
    pub fn merge(&self, _delta: &Memory) -> (r: Result<Memory, String>)
        requires
            self.version < u32::MAX,
        ensures
            match r {
                Ok(m) => m.version == self.version + 1
                    && m.id@ == self.id@
                    && m.intent@ == self.intent@
                    && m.created_at@ == self.created_at@
                    && m.status == self.status
                    && opt_text(m.system_prompt) == opt_text(self.system_prompt)
                    && opt_text(m.xmlns_x) == opt_text(self.xmlns_x)
                    && opt_text(m.x_extends) == opt_text(self.x_extends)
                    && crate::context::files_view(m.workspace.files@) == crate::context::files_view(self.workspace.files@)
                    && tools_view(m.tools.items@) == tools_view(self.tools.items@)
                    && skills_view(m.skills.items@) == skills_view(self.skills.items@)
                    && m.current@ == self.current@
                    && m.history@ == self.history@,
                Err(_) => false,
            },
    {
        let copy_opt = |o: &Option<String>| -> (c: Option<String>)
            ensures
                opt_text(c) == opt_text(*o),
        {
            match o {
                Some(t) => Some(copy_string(t)),
                None => None,
            }
        };
        Ok(Memory {
            id: copy_string(&self.id),
            version: self.version + 1,
            created_at: copy_string(&self.created_at),
            status: self.status,
            xmlns_x: copy_opt(&self.xmlns_x),
            x_extends: copy_opt(&self.x_extends),
            intent: copy_string(&self.intent),
            system_prompt: copy_opt(&self.system_prompt),
            workspace: copy_workspace(&self.workspace),
            tools: copy_tools(&self.tools),
            skills: copy_skills(&self.skills),
            current: self.current.copy(),
            history: self.history.copy(),
        })
    }

    /// Rebuilds the recent actions from the history (see `window_of`).
    pub fn update_current_from_history(&mut self)
        ensures
            final(self).current@ == window_of(old(self).history@),
            final(self).current.x_override == old(self).current.x_override,
            final(self).history@ == old(self).history@,
            final(self).version == old(self).version,
    {
        let ghost h = self.history@;
        proof {
            lemma_last_summary(h);
        }
        let n = self.history.actions.len();
        let mut found = false;
        let mut j: usize = n;
        while j > 0 && !found
            invariant
                j <= n,
                n == self.history.actions@.len(),
                h == self.history@,
                h == actions_view(self.history.actions@),
                !found ==> forall|k: int| j <= k < n ==> #[trigger] h[k].action_type != ActionType::HistoricalSummary,
                found ==> j < n && h[j as int].action_type == ActionType::HistoricalSummary
                    && forall|k: int| j < k < n ==> #[trigger] h[k].action_type != ActionType::HistoricalSummary,
            decreases j,
        {
            if self.history.actions[j - 1].action_type == ActionType::HistoricalSummary {
                found = true;
            }
            j = j - 1;
        }
        let idx: Option<usize> = if found { Some(j) } else { None };
        proof {
            lemma_last_summary(h);
        }
        let mut actions: Vec<Action> = Vec::new();
        match idx {
            Some(i) => {
                let end: usize = if n - i > 10 { i + 10 } else { n };
                let mut k: usize = i;
                proof {
                    assert(actions_view(actions@) =~= h.subrange(i as int, i as int));
                }
                while k < end
                    invariant
                        i <= k <= end <= n,
                        n == self.history.actions@.len(),
                        h == actions_view(self.history.actions@),
                        actions_view(actions@) == h.subrange(i as int, k as int),
                    decreases end - k,
                {
                    let c = self.history.actions[k].copy();
                    let ghost prev = actions@;
                    actions.push(c);
                    proof {
                        assert(actions@ == prev.push(c));
                        assert forall|q: int| 0 <= q < prev.len() implies #[trigger] actions_view(actions@)[q] == actions_view(prev)[q] by {
                            assert(actions@[q] == prev[q]);
                        }
                        assert(actions_view(actions@)[prev.len() as int] == c@);
                        assert(c@ == h[k as int]);
                        assert(actions_view(prev).len() == prev.len());
                        assert(actions_view(actions@) =~= h.subrange(i as int, k + 1));
                    }
                    k = k + 1;
                }
                proof {
                    match last_summary(h) {
                        Some(s) => {
                            if s > i as int {
                                assert(h[s].action_type == ActionType::HistoricalSummary);
                            } else if s < i as int {
                                assert(h[i as int].action_type == ActionType::HistoricalSummary);
                            }
                        },
                        None => {
                            assert(h[i as int].action_type == ActionType::HistoricalSummary);
                        },
                    }
                }
            },
            None => {
                let start: usize = if n > 10 { n - 10 } else { 0 };
                let rest = self.history.skip(start);
                actions = rest;
                proof {
                    assert(!found);
                    assert(j == 0);
                    match last_summary(h) {
                        Some(s) => {
                            assert(h[s].action_type == ActionType::HistoricalSummary);
                        },
                        None => {},
                    }
                }
            },
        }
        self.current.clear();
        let mut q: usize = 0;
        let ghost target = actions_view(actions@);
        while q < actions.len()
            invariant
                q <= actions@.len(),
                target == actions_view(actions@),
                self.current@ == target.take(q as int),
                self.current.x_override == old(self).current.x_override,
                self.history@ == h,
                self.version == old(self).version,
            decreases actions.len() - q,
        {
            self.current.push(actions[q].copy());
            proof {
                assert(target.take(q + 1) =~= target.take(q as int).push(target[q as int]));
            }
            q = q + 1;
        }
        proof {
            assert(target.take(actions@.len() as int) =~= target);
        }
    }
}

// ---------------------------------------------------------------------------
// Laws
// ---------------------------------------------------------------------------

/// The recent actions of a memory stay the last ten of its history: when they are before an
/// action is added, they are after.
pub proof fn lemma_current_window_kept(history: Seq<ActionView>, current: Seq<ActionView>, a: ActionView)
    requires
        current == last_n(history, 10),
    ensures
        last_n(current.push(a), 10) == last_n(history.push(a), 10),
{
    if history.len() > 10 {
        assert(last_n(current.push(a), 10) =~= last_n(history.push(a), 10));
    } else {
        assert(last_n(current.push(a), 10) =~= last_n(history.push(a), 10));
    }
}

/// Without a summary in the history, the window shown to the model is the last ten actions.
pub proof fn lemma_window_without_summary(h: Seq<ActionView>)
    requires
        forall|j: int| 0 <= j < h.len() ==> #[trigger] h[j].action_type != ActionType::HistoricalSummary,
    ensures
        window_of(h) == last_n(h, 10),
{
    lemma_last_summary(h);
    match last_summary(h) {
        Some(i) => {
            assert(h[i].action_type == ActionType::HistoricalSummary);
        },
        None => {},
    }
}

/// The window shown to the model holds at most ten actions.
pub proof fn lemma_window_at_most_ten(h: Seq<ActionView>)
    ensures
        window_of(h).len() <= 10,
{
    lemma_last_summary(h);
}

} // verus!
