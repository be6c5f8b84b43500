//! The rule engine's state and decisions: which rules exist, which clock rules wake when, which
//! rules run, and whether an event triggers a rule (conditions that must hold for a while).
//!
//! The engine's loop, the waiting and the running of tasks are the caller's; each decision here
//! takes the engine state and what happened, and says what changes and what to do.

use vstd::prelude::*;
use crate::executor::{request_for_rule, rule_request, ExecutionRequest, LastRunInfo, request_view, RequestView};
use crate::rule::{
    copy_string, patched, text_of, Condition, ConditionGroup, ConditionView, GroupView, MatchMode, Op, Rule,
    RulePatch, RuleView, conditions_view, groups_view, rules_view,
};
use crate::source::{sources_view, EventSource, SourceView};
use crate::storage::PlanStatus;
use crate::text::str_eq;

verus! {

// ---------------------------------------------------------------------------
// Counting conditions and finding cron expressions
// ---------------------------------------------------------------------------

/// The number of conditions of a group, its nested groups' included.
pub open spec fn group_count(g: GroupView) -> nat
    decreases g, 1nat,
{
    g.conditions.len() + groups_count(g.groups, g.groups.len())
}

/// The number of conditions of the first `k` groups.
pub open spec fn groups_count(gs: Seq<GroupView>, k: nat) -> nat
    decreases gs, k,
{
    if k == 0 || k > gs.len() {
        0
    } else {
        groups_count(gs, (k - 1) as nat) + group_count(gs[k - 1])
    }
}

/// The number of conditions of a rule, its groups' included.
pub open spec fn rule_count(r: RuleView) -> nat {
    r.conditions.len() + groups_count(r.groups, r.groups.len())
}

proof fn lemma_groups_view_index(gs: Seq<ConditionGroup>)
    ensures
        groups_view(gs).len() == gs.len(),
        forall|i: int| 0 <= i < gs.len() ==> #[trigger] groups_view(gs)[i] == gs[i]@,
    decreases gs.len(),
{
    if gs.len() > 0 {
        lemma_groups_view_index(gs.drop_last());
        assert forall|i: int| 0 <= i < gs.len() implies #[trigger] groups_view(gs)[i] == gs[i]@ by {
            if i < gs.len() - 1 {
                assert(gs.drop_last()[i] == gs[i]);
            }
        }
    }
}

fn count_group_conditions(g: &ConditionGroup) -> (n: usize)
    requires
        group_count(g@) <= usize::MAX,
    ensures
        n == group_count(g@),
    decreases g,
{
    let ghost gv = g@;
    proof {
        lemma_groups_view_index(g.groups@);
    }
    let mut n: usize = g.conditions.len();
    let mut i: usize = 0;
    while i < g.groups.len()
        invariant
            i <= g.groups@.len(),
            gv == g@,
            gv.groups.len() == g.groups@.len(),
            forall|k: int| 0 <= k < g.groups@.len() ==> #[trigger] gv.groups[k] == g.groups@[k]@,
            group_count(gv) <= usize::MAX,
            n == gv.conditions.len() + groups_count(gv.groups, i as nat),
        decreases g.groups.len() - i,
    {
        proof {
            assert(decreases_to!(g => g.groups@[i as int]));
            lemma_groups_count_mono(gv.groups, (i + 1) as nat, gv.groups.len());
        }
        let c = count_group_conditions(&g.groups[i]);
        n = n + c;
        i = i + 1;
    }
    n
}

proof fn lemma_groups_count_mono(gs: Seq<GroupView>, a: nat, b: nat)
    requires
        a <= b <= gs.len(),
    ensures
        groups_count(gs, a) <= groups_count(gs, b),
    decreases b - a,
{
    if a < b {
        lemma_groups_count_mono(gs, a, (b - 1) as nat);
    }
}

/// The number of conditions of a rule, its groups' included.
pub fn count_conditions(rule: &Rule) -> (n: usize)
    requires
        rule_count(rule@) <= usize::MAX,
    ensures
        n == rule_count(rule@),
{
    let ghost rv = rule@;
    proof {
        lemma_groups_view_index(rule.groups@);
    }
    let mut n: usize = rule.conditions.len();
    let mut i: usize = 0;
    while i < rule.groups.len()
        invariant
            i <= rule.groups@.len(),
            rv == rule@,
            rv.groups.len() == rule.groups@.len(),
            forall|k: int| 0 <= k < rule.groups@.len() ==> #[trigger] rv.groups[k] == rule.groups@[k]@,
            rule_count(rv) <= usize::MAX,
            n == rv.conditions.len() + groups_count(rv.groups, i as nat),
        decreases rule.groups.len() - i,
    {
        proof {
            lemma_groups_count_mono(rv.groups, (i + 1) as nat, rv.groups.len());
        }
        let c = count_group_conditions(&rule.groups[i]);
        n = n + c;
        i = i + 1;
    }
    n
}

/// The value of the first `cron-match` condition of a list.
pub open spec fn cron_in_conditions(cs: Seq<ConditionView>) -> Option<Seq<char>>
    decreases cs.len(),
{
    if cs.len() == 0 {
        None
    } else {
        match cron_in_conditions(cs.drop_last()) {
            Some(v) => Some(v),
            None => if cs.last().op == Op::CronMatch { Some(cs.last().value) } else { None },
        }
    }
}

/// The first cron expression of a group: its own conditions first, then its groups in order.
pub open spec fn cron_in_group(g: GroupView) -> Option<Seq<char>>
    decreases g, 1nat,
{
    match cron_in_conditions(g.conditions) {
        Some(v) => Some(v),
        None => cron_in_groups(g.groups, g.groups.len()),
    }
}

/// The first cron expression of the first `k` groups.
pub open spec fn cron_in_groups(gs: Seq<GroupView>, k: nat) -> Option<Seq<char>>
    decreases gs, k,
{
    if k == 0 || k > gs.len() {
        None
    } else {
        match cron_in_groups(gs, (k - 1) as nat) {
            Some(v) => Some(v),
            None => cron_in_group(gs[k - 1]),
        }
    }
}

/// The first cron expression of a rule: its conditions first, then its groups.
pub open spec fn cron_of_rule(r: RuleView) -> Option<Seq<char>> {
    match cron_in_conditions(r.conditions) {
        Some(v) => Some(v),
        None => cron_in_groups(r.groups, r.groups.len()),
    }
}

fn find_cron_in_conditions(cs: &Vec<Condition>) -> (r: Option<String>)
    ensures
        match r {
            Some(v) => cron_in_conditions(conditions_view(cs@)) == Some(v@),
            None => cron_in_conditions(conditions_view(cs@)) is None,
        },
{
    let ghost cv = conditions_view(cs@);
    let mut i: usize = 0;
    proof {
        assert(cv.take(0) =~= Seq::<ConditionView>::empty());
    }
    while i < cs.len()
        invariant
            i <= cs@.len(),
            cv == conditions_view(cs@),
            cron_in_conditions(cv.take(i as int)) is None,
        decreases cs.len() - i,
    {
        proof {
            let t = cv.take(i + 1);
            assert(t.drop_last() =~= cv.take(i as int));
            assert(t.last() == cs@[i as int]@);
        }
        if cs[i].op == Op::CronMatch {
            proof {
                lemma_cron_prefix(cv, i as int + 1);
            }
            return Some(copy_string(&cs[i].value));
        }
        i = i + 1;
    }
    proof {
        assert(cv.take(cs@.len() as int) =~= cv);
    }
    None
}

proof fn lemma_cron_prefix(cv: Seq<ConditionView>, k: int)
    requires
        0 < k <= cv.len(),
        cron_in_conditions(cv.take(k - 1)) is None,
        cv[k - 1].op == Op::CronMatch,
    ensures
        cron_in_conditions(cv) == Some(cv[k - 1].value),
    decreases cv.len() - k,
{
    if k < cv.len() {
        assert(cv.drop_last().take(k - 1) =~= cv.take(k - 1));
        assert(cv.drop_last()[k - 1] == cv[k - 1]);
        lemma_cron_prefix(cv.drop_last(), k);
    } else {
        assert(cv.drop_last() =~= cv.take(k - 1));
    }
}

proof fn lemma_cron_groups_found(gs: Seq<GroupView>, k: nat, n: nat)
    requires
        k <= n <= gs.len(),
        cron_in_groups(gs, k) is Some,
    ensures
        cron_in_groups(gs, n) == cron_in_groups(gs, k),
    decreases n - k,
{
    if k < n {
        lemma_cron_groups_found(gs, k, (n - 1) as nat);
    }
}

fn find_cron_in_group(g: &ConditionGroup) -> (r: Option<String>)
    ensures
        match r {
            Some(v) => cron_in_group(g@) == Some(v@),
            None => cron_in_group(g@) is None,
        },
    decreases g,
{
    match find_cron_in_conditions(&g.conditions) {
        Some(v) => { return Some(v); },
        None => {},
    }
    let ghost gv = g@;
    proof {
        lemma_groups_view_index(g.groups@);
    }
    let mut i: usize = 0;
    while i < g.groups.len()
        invariant
            i <= g.groups@.len(),
            gv == g@,
            gv.groups.len() == g.groups@.len(),
            forall|k: int| 0 <= k < g.groups@.len() ==> #[trigger] gv.groups[k] == g.groups@[k]@,
            cron_in_conditions(gv.conditions) is None,
            cron_in_groups(gv.groups, i as nat) is None,
        decreases g.groups.len() - i,
    {
        proof {
            assert(decreases_to!(g => g.groups@[i as int]));
        }
        match find_cron_in_group(&g.groups[i]) {
            Some(v) => {
                proof {
                    assert(cron_in_groups(gv.groups, (i + 1) as nat) == Some(v@));
                    lemma_cron_groups_found(gv.groups, (i + 1) as nat, gv.groups.len());
                }
                return Some(v);
            },
            None => {},
        }
        i = i + 1;
    }
    None
}

/// The first cron expression of a rule: its conditions first, then its groups.
pub fn find_cron_expression(rule: &Rule) -> (r: Option<String>)
    ensures
        match r {
            Some(v) => cron_of_rule(rule@) == Some(v@),
            None => cron_of_rule(rule@) is None,
        },
{
    match find_cron_in_conditions(&rule.conditions) {
        Some(v) => { return Some(v); },
        None => {},
    }
    let ghost rv = rule@;
    proof {
        lemma_groups_view_index(rule.groups@);
    }
    let mut i: usize = 0;
    while i < rule.groups.len()
        invariant
            i <= rule.groups@.len(),
            rv == rule@,
            rv.groups.len() == rule.groups@.len(),
            forall|k: int| 0 <= k < rule.groups@.len() ==> #[trigger] rv.groups[k] == rule.groups@[k]@,
            cron_in_conditions(rv.conditions) is None,
            cron_in_groups(rv.groups, i as nat) is None,
        decreases rule.groups.len() - i,
    {
        match find_cron_in_group(&rule.groups[i]) {
            Some(v) => {
                proof {
                    assert(cron_in_groups(rv.groups, (i + 1) as nat) == Some(v@));
                    lemma_cron_groups_found(rv.groups, (i + 1) as nat, rv.groups.len());
                }
                return Some(v);
            },
            None => {},
        }
        i = i + 1;
    }
    None
}

/// What croner's `Cron::new(expr).parse()` followed by `find_next_occurrence(start, inclusive)`
/// gives, in milliseconds since the epoch, for a start given in milliseconds since the epoch
/// (UTC); `None` where the start is no time chrono can hold, the expression does not parse, or
/// no match is found. croner works in whole seconds, so the answer depends on the start only
/// through its second.
pub uninterp spec fn cron_next_after(expr: Seq<char>, start_ms: i64, inclusive: bool) -> Option<i64>;

/// The start of year 5000 (UTC) in milliseconds: croner searches no further.
pub const CRON_SEARCH_LIMIT_MS: i64 = 95_617_584_000_000;

/// chrono's `DateTime::from_timestamp_millis`, then croner's `Cron::new(..).parse()` and
/// `find_next_occurrence`, read back with `timestamp_millis`. Trusted for: the answer is
/// `cron_next_after` of the expression, the start and whether the start itself may match.
/// Only called with a start before year 5000, where croner's search cannot run past the dates
/// chrono holds.
#[verifier::external_body]
fn next_cron_match(expr: &str, start_ms: i64, inclusive: bool) -> (r: Option<i64>)
    requires
        start_ms < CRON_SEARCH_LIMIT_MS,
    ensures
        r == cron_next_after(expr@, start_ms, inclusive),
{
    let start = chrono::DateTime::from_timestamp_millis(start_ms)?;
    let cron = croner::Cron::new(expr).parse().ok()?;
    let next = cron.find_next_occurrence(&start, inclusive).ok()?;
    Some(next.timestamp_millis())
}

/// The next match after `now_ms` of a rule's cron expression: none without an expression or
/// from year 5000 on (where croner stops searching), else what the cron library finds.
pub open spec fn next_cron_of(rule: RuleView, now_ms: i64) -> Option<i64> {
    match cron_of_rule(rule) {
        Some(e) => if now_ms < CRON_SEARCH_LIMIT_MS { cron_next_after(e, now_ms, false) } else { None },
        None => None,
    }
}

/// The next time after `now_ms` that a rule's cron expression matches, if it has one and it
/// parses.
pub fn next_cron_match_at(rule: &Rule, now_ms: i64) -> (r: Option<i64>)
    ensures
        r == next_cron_of(rule@, now_ms),
{
    match find_cron_expression(rule) {
        Some(e) => if now_ms < CRON_SEARCH_LIMIT_MS {
            next_cron_match(e.as_str(), now_ms, false)
        } else {
            None
        },
        None => None,
    }
}

/// The next time a rule's cron expression matches, from the current time, if it has one and it
/// parses.
pub fn compute_next_cron_match(rule: &Rule) -> (r: Option<i64>)
    ensures
        exists|now_ms: i64| r == next_cron_of(rule@, now_ms),
        cron_of_rule(rule@) is None ==> r is None,
{
    let now = crate::storage::now_millis();
    next_cron_match_at(rule, now)
}

/// How a condition compares a field's text with its value where a number is not compared:
/// `eq` and `ne` compare the texts, `contains` looks for the value in the field's text; the
/// other operators do not hold on texts.
pub open spec fn text_condition_holds(op: Op, field: Seq<char>, value: Seq<char>) -> bool {
    match op {
        Op::Eq => field == value,
        Op::Ne => field != value,
        Op::Contains => crate::text::contains_seq(field, value),
        _ => false,
    }
}

/// Whether a condition holds on a field's text (see `text_condition_holds`).
pub fn text_condition(op: Op, field: &str, value: &str) -> (b: bool)
    ensures
        b == text_condition_holds(op, field@, value@),
{
    match op {
        Op::Eq => str_eq(field, value),
        Op::Ne => !str_eq(field, value),
        Op::Contains => crate::text::contains_text(field, value),
        _ => false,
    }
}

/// Whole seconds of a time in milliseconds, rounded down (chrono's `timestamp`).
pub open spec fn secs_of(ms: int) -> int {
    ms / 1000
}

fn floor_secs(ms: i64) -> (r: i64)
    ensures
        r == secs_of(ms as int),
{
    if ms >= 0 {
        ms / 1000
    } else {
        let m = -(ms + 1);
        let q = m / 1000;
        assert(-(q + 1) == (ms as int) / 1000) by (nonlinear_arith)
            requires
                ms < 0,
                m == -(ms + 1),
                q == m / 1000,
                m >= 0,
        {
        }
        -q - 1
    }
}

/// Whether a cron expression matches the moment `now_ms`: the first match from the start of
/// that second on lies less than a minute from it (in whole seconds); never from year 5000 on.
pub open spec fn cron_matches_at(expr: Seq<char>, now_ms: i64) -> bool {
    now_ms < CRON_SEARCH_LIMIT_MS && match cron_next_after(expr, now_ms, true) {
        Some(t) => -60 < secs_of(t as int) - secs_of(now_ms as int) < 60,
        None => false,
    }
}

/// Whether a `cron-match` condition holds at `now_ms` (see `cron_matches_at`).
pub fn cron_condition_holds(expr: &str, now_ms: i64) -> (b: bool)
    ensures
        b == cron_matches_at(expr@, now_ms),
{
    if now_ms >= CRON_SEARCH_LIMIT_MS {
        return false;
    }
    match next_cron_match(expr, now_ms, true) {
        Some(t) => {
            let a = floor_secs(t);
            let n = floor_secs(now_ms);
            let d = a as i128 - n as i128;
            -60 < d && d < 60
        },
        None => false,
    }
}

/// The wake time an added rule is scheduled at, from the clock reading `now_ms`: its next cron
/// match when it is an enabled clock rule, else none.
pub open spec fn added_next(rule: RuleView, now_ms: i64) -> Option<i64> {
    if rule.source_id == "clock"@ && rule.enabled {
        next_cron_of(rule, now_ms)
    } else {
        None
    }
}

/// The wake time a patched rule is scheduled at, from the clock reading `now_ms`: its next cron
/// match when it is a clock rule that the patch leaves enabled or enables, else none.
pub open spec fn patched_next(rule: RuleView, patch: crate::rule::PatchView, now_ms: i64) -> Option<i64> {
    if rule.source_id == "clock"@ && (patch.enabled is None || patch.enabled == Some(true)) {
        next_cron_of(rule, now_ms)
    } else {
        None
    }
}

// ---------------------------------------------------------------------------
// Engine state
// ---------------------------------------------------------------------------

/// When a clock rule next wakes.
#[derive(Debug)]
pub struct ClockRuleState {
    pub rule_id: String,
    pub next_match_at_ms: i64,
}

/// How long each condition of a rule has held, and when the rule last fired.
#[derive(Debug)]
pub struct RuleEvalState {
    pub rule_id: String,
    /// For each condition (in the rule's order), since when it has held without break.
    pub condition_start_times: Vec<Option<i64>>,
    pub last_triggered_at: Option<i64>,
}

/// The mathematical value of an evaluation state.
pub struct EvalView {
    pub rule_id: Seq<char>,
    pub starts: Seq<Option<i64>>,
    pub last_triggered_at: Option<i64>,
}

impl View for RuleEvalState {
    type V = EvalView;

    open spec fn view(&self) -> EvalView {
        EvalView { rule_id: self.rule_id@, starts: self.condition_start_times@, last_triggered_at: self.last_triggered_at }
    }
}

/// The rules, sources and bookkeeping of the engine.
#[derive(Debug)]
pub struct RuleEngine {
    pub rules: Vec<Rule>,
    pub sources: Vec<EventSource>,
    pub clock_states: Vec<ClockRuleState>,
    pub eval_states: Vec<RuleEvalState>,
    /// The rules running now.
    pub running: Vec<String>,
}

/// The mathematical value of the engine state.
pub struct EngineView {
    pub rules: Seq<RuleView>,
    pub sources: Seq<SourceView>,
    pub clock: Seq<(Seq<char>, i64)>,
    pub evals: Seq<EvalView>,
    pub running: Seq<Seq<char>>,
}

/// The views of clock states.
pub open spec fn clock_view(cs: Seq<ClockRuleState>) -> Seq<(Seq<char>, i64)> {
    cs.map_values(|c: ClockRuleState| (c.rule_id@, c.next_match_at_ms))
}

/// The views of evaluation states.
pub open spec fn evals_view(es: Seq<RuleEvalState>) -> Seq<EvalView> {
    es.map_values(|e: RuleEvalState| e@)
}

/// The texts of a list of strings.
pub open spec fn ids_view(v: Seq<String>) -> Seq<Seq<char>> {
    v.map_values(|s: String| s@)
}

impl View for RuleEngine {
    type V = EngineView;

    open spec fn view(&self) -> EngineView {
        EngineView {
            rules: rules_view(self.rules@),
            sources: sources_view(self.sources@),
            clock: clock_view(self.clock_states@),
            evals: evals_view(self.eval_states@),
            running: ids_view(self.running@),
        }
    }
}

/// Ids occur at most once among the rules, among the evaluation states and among the running,
/// and every evaluation state and clock state belongs to a rule the engine holds.
pub open spec fn engine_ok(s: EngineView) -> bool {
    &&& forall|i: int, j: int| 0 <= i < j < s.rules.len() ==> s.rules[i].id != s.rules[j].id
    &&& forall|i: int, j: int| 0 <= i < j < s.evals.len() ==> s.evals[i].rule_id != s.evals[j].rule_id
    &&& forall|i: int, j: int| 0 <= i < j < s.running.len() ==> s.running[i] != s.running[j]
    &&& states_owned(s)
}

/// Every evaluation state and clock state belongs to a rule the engine holds.
pub open spec fn states_owned(s: EngineView) -> bool {
    &&& forall|k: int| 0 <= k < s.evals.len() ==> #[trigger] rule_index(s.rules, s.evals[k].rule_id) is Some
    &&& forall|k: int| 0 <= k < s.clock.len() ==> #[trigger] rule_index(s.rules, s.clock[k].0) is Some
}

proof fn lemma_rule_present(rs: Seq<RuleView>, id: Seq<char>, j: int)
    requires
        0 <= j < rs.len(),
        rs[j].id == id,
    ensures
        rule_index(rs, id) is Some,
{
    lemma_rule_index(rs, id);
}

/// A rule id other than the one at `i` is still found after removing position `i`.
proof fn lemma_remove_keeps(rs: Seq<RuleView>, i: int, id: Seq<char>)
    requires
        0 <= i < rs.len(),
        rs[i].id != id,
        rule_index(rs, id) is Some,
    ensures
        rule_index(rs.remove(i), id) is Some,
{
    lemma_rule_index(rs, id);
    let j = rule_index(rs, id)->0;
    if j < i {
        assert(rs.remove(i)[j] == rs[j]);
        lemma_rule_present(rs.remove(i), id, j);
    } else {
        assert(rs.remove(i)[j - 1] == rs[j]);
        lemma_rule_present(rs.remove(i), id, j - 1);
    }
}

/// The clock states left without those of `id` have other ids, and each belongs to a rule if
/// every one before did.
proof fn lemma_clock_without_owned(cs: Seq<(Seq<char>, i64)>, id: Seq<char>, rs: Seq<RuleView>)
    requires
        forall|k: int| 0 <= k < cs.len() ==> #[trigger] rule_index(rs, cs[k].0) is Some,
    ensures
        forall|k: int| 0 <= k < clock_without(cs, id).len() ==> #[trigger] rule_index(rs, clock_without(cs, id)[k].0) is Some
            && clock_without(cs, id)[k].0 != id,
    decreases cs.len(),
{
    if cs.len() > 0 {
        let d = cs.drop_last();
        assert forall|k: int| 0 <= k < d.len() implies #[trigger] rule_index(rs, d[k].0) is Some by {
            assert(d[k] == cs[k]);
        }
        lemma_clock_without_owned(d, id, rs);
        assert(rule_index(rs, cs[cs.len() - 1].0) is Some);
    }
}

proof fn lemma_clock_set_first_ids(cs: Seq<(Seq<char>, i64)>, id: Seq<char>, next: i64)
    ensures
        clock_set_first(cs, id, next).len() == cs.len(),
        forall|k: int| 0 <= k < cs.len() ==> #[trigger] clock_set_first(cs, id, next)[k].0 == cs[k].0,
    decreases cs.len(),
{
    if cs.len() > 0 {
        let d = cs.drop_last();
        lemma_clock_set_first_ids(d, id, next);
        assert forall|k: int| 0 <= k < cs.len() implies #[trigger] clock_set_first(cs, id, next)[k].0 == cs[k].0 by {
            if k < d.len() {
                assert(d[k] == cs[k]);
            }
        }
    }
}

/// Adding a rule keeps every state owned.
proof fn lemma_add_owned(s: EngineView, r: RuleView, next: Option<i64>)
    requires
        states_owned(s),
    ensures
        states_owned(add_rule_view(s, r, next)),
{
    let t = add_rule_view(s, r, next);
    let ri = rule_index(s.rules, r.id);
    lemma_rule_index(s.rules, r.id);
    // every old id, and the new one, is still found
    assert forall|x: Seq<char>| rule_index(s.rules, x) is Some || x == r.id implies #[trigger] rule_index(t.rules, x) is Some by {
        if x == r.id {
            match ri {
                Some(k) => lemma_rule_present(t.rules, x, k),
                None => lemma_rule_present(t.rules, x, s.rules.len() as int),
            }
        } else {
            lemma_rule_index(s.rules, x);
            let j = rule_index(s.rules, x)->0;
            assert(t.rules[j] == s.rules[j]);
            lemma_rule_present(t.rules, x, j);
        }
    }
    let ei = eval_index(s.evals, r.id);
    lemma_eval_index(s.evals, r.id);
    assert forall|k: int| 0 <= k < t.evals.len() implies #[trigger] rule_index(t.rules, t.evals[k].rule_id) is Some by {
        match ei {
            Some(m) => {
                if k != m {
                    assert(t.evals[k] == s.evals[k]);
                }
            },
            None => {
                if k < s.evals.len() {
                    assert(t.evals[k] == s.evals[k]);
                }
            },
        }
        assert(rule_index(s.rules, t.evals[k].rule_id) is Some || t.evals[k].rule_id == r.id);
    }
    assert forall|k: int| 0 <= k < t.clock.len() implies #[trigger] rule_index(t.rules, t.clock[k].0) is Some by {
        if k < s.clock.len() {
            assert(t.clock[k] == s.clock[k]);
        }
        assert(rule_index(s.rules, t.clock[k].0) is Some || t.clock[k].0 == r.id);
    }
}

/// Patching a rule keeps every state owned.
proof fn lemma_update_owned(s: EngineView, i: int, p: crate::rule::PatchView, next: Option<i64>)
    requires
        states_owned(s),
        0 <= i < s.rules.len(),
    ensures
        states_owned(update_rule_view(s, i, p, next)),
{
    let t = update_rule_view(s, i, p, next);
    crate::rule::lemma_patch_keeps_identity(s.rules[i], p);
    assert forall|x: Seq<char>| rule_index(s.rules, x) is Some implies #[trigger] rule_index(t.rules, x) is Some by {
        lemma_rule_index(s.rules, x);
        let j = rule_index(s.rules, x)->0;
        assert(t.rules[j].id == s.rules[j].id);
        lemma_rule_present(t.rules, x, j);
    }
    assert forall|k: int| 0 <= k < t.evals.len() implies #[trigger] rule_index(t.rules, t.evals[k].rule_id) is Some by {
        assert(rule_index(s.rules, s.evals[k].rule_id) is Some);
    }
    lemma_clock_without_owned(s.clock, s.rules[i].id, s.rules);
    lemma_rule_present(s.rules, s.rules[i].id, i);
    assert forall|k: int| 0 <= k < t.clock.len() implies #[trigger] rule_index(t.rules, t.clock[k].0) is Some by {
        let cw = clock_without(s.clock, s.rules[i].id);
        if t.clock == cw {
            assert(rule_index(s.rules, cw[k].0) is Some);
        } else if k < s.clock.len() {
            assert(t.clock[k] == s.clock[k]);
            assert(rule_index(s.rules, s.clock[k].0) is Some);
        } else {
            assert(t.clock[k].0 == s.rules[i].id);
        }
    }
}

/// Removing a rule keeps every state owned, and leaves no state for its id.
proof fn lemma_remove_owned(s: EngineView, i: int)
    requires
        engine_ok(s),
        0 <= i < s.rules.len(),
    ensures
        states_owned(remove_rule_view(s, i)),
        forall|k: int| 0 <= k < remove_rule_view(s, i).evals.len() ==> #[trigger] remove_rule_view(s, i).evals[k].rule_id != s.rules[i].id,
        forall|k: int| 0 <= k < remove_rule_view(s, i).clock.len() ==> #[trigger] remove_rule_view(s, i).clock[k].0 != s.rules[i].id,
{
    let t = remove_rule_view(s, i);
    let id = s.rules[i].id;
    lemma_eval_index(s.evals, id);
    assert forall|k: int| 0 <= k < t.evals.len() implies #[trigger] t.evals[k].rule_id != id
        && rule_index(s.rules, t.evals[k].rule_id) is Some by {
        match eval_index(s.evals, id) {
            Some(m) => {
                if k < m {
                    assert(t.evals[k] == s.evals[k]);
                } else {
                    assert(t.evals[k] == s.evals[k + 1]);
                }
            },
            None => {},
        }
    }
    assert forall|k: int| 0 <= k < t.evals.len() implies #[trigger] rule_index(t.rules, t.evals[k].rule_id) is Some by {
        lemma_remove_keeps(s.rules, i, t.evals[k].rule_id);
    }
    lemma_clock_without_owned(s.clock, id, s.rules);
    assert forall|k: int| 0 <= k < t.clock.len() implies #[trigger] rule_index(t.rules, t.clock[k].0) is Some
        && t.clock[k].0 != id by {
        assert(rule_index(s.rules, t.clock[k].0) is Some);
        lemma_remove_keeps(s.rules, i, t.clock[k].0);
    }
    assert forall|k: int| 0 <= k < t.clock.len() implies #[trigger] t.clock[k].0 != id by {
        assert(rule_index(s.rules, t.clock[k].0) is Some);
    }
}

/// The position of the rule with an id.
pub open spec fn rule_index(rs: Seq<RuleView>, id: Seq<char>) -> Option<int>
    decreases rs.len(),
{
    if rs.len() == 0 {
        None
    } else if rs.last().id == id {
        Some(rs.len() - 1)
    } else {
        rule_index(rs.drop_last(), id)
    }
}

/// The position of the evaluation state of a rule.
pub open spec fn eval_index(es: Seq<EvalView>, id: Seq<char>) -> Option<int>
    decreases es.len(),
{
    if es.len() == 0 {
        None
    } else if es.last().rule_id == id {
        Some(es.len() - 1)
    } else {
        eval_index(es.drop_last(), id)
    }
}

proof fn lemma_rule_index(rs: Seq<RuleView>, id: Seq<char>)
    ensures
        match rule_index(rs, id) {
            Some(i) => 0 <= i < rs.len() && rs[i].id == id,
            None => forall|j: int| 0 <= j < rs.len() ==> rs[j].id != id,
        },
    decreases rs.len(),
{
    if rs.len() > 0 {
        lemma_rule_index(rs.drop_last(), id);
        assert forall|j: int| 0 <= j < rs.len() - 1 implies rs.drop_last()[j] == rs[j] by {}
        if let Some(i) = rule_index(rs.drop_last(), id) {
            if rs.last().id != id {
                assert(rs.drop_last()[i] == rs[i]);
            }
        }
    }
}

proof fn lemma_eval_index(es: Seq<EvalView>, id: Seq<char>)
    ensures
        match eval_index(es, id) {
            Some(i) => 0 <= i < es.len() && es[i].rule_id == id,
            None => forall|j: int| 0 <= j < es.len() ==> es[j].rule_id != id,
        },
    decreases es.len(),
{
    if es.len() > 0 {
        lemma_eval_index(es.drop_last(), id);
        assert forall|j: int| 0 <= j < es.len() - 1 implies es.drop_last()[j] == es[j] by {}
        if let Some(i) = eval_index(es.drop_last(), id) {
            if es.last().rule_id != id {
                assert(es.drop_last()[i] == es[i]);
            }
        }
    }
}

/// A list with the entry at a position replaced, or added at the end when there is none.
pub open spec fn put_at<T>(s: Seq<T>, i: Option<int>, x: T) -> Seq<T> {
    match i {
        Some(k) => s.update(k, x),
        None => s.push(x),
    }
}

/// A list without the entry at a position.
pub open spec fn drop_at<T>(s: Seq<T>, i: Option<int>) -> Seq<T> {
    match i {
        Some(k) => s.remove(k),
        None => s,
    }
}

/// The clock states without those of a rule.
pub open spec fn clock_without(cs: Seq<(Seq<char>, i64)>, id: Seq<char>) -> Seq<(Seq<char>, i64)>
    decreases cs.len(),
{
    if cs.len() == 0 {
        cs
    } else if cs.last().0 == id {
        clock_without(cs.drop_last(), id)
    } else {
        clock_without(cs.drop_last(), id).push(cs.last())
    }
}

/// A fresh evaluation state for a rule: no condition holding, never fired.
pub open spec fn fresh_eval(r: RuleView) -> EvalView {
    EvalView { rule_id: r.id, starts: Seq::new(rule_count(r), |i: int| None::<i64>), last_triggered_at: None }
}

/// The state after adding a rule, given the next time its cron expression matches (`next`
/// matters only for an enabled clock rule with a cron expression).
pub open spec fn add_rule_view(s: EngineView, r: RuleView, next: Option<i64>) -> EngineView {
    let is_clock = r.source_id == "clock"@;
    EngineView {
        rules: put_at(s.rules, rule_index(s.rules, r.id), r),
        evals: put_at(s.evals, eval_index(s.evals, r.id), fresh_eval(r)),
        clock: if is_clock && r.enabled && cron_of_rule(r) is Some && next is Some {
            s.clock.push((r.id, next.unwrap()))
        } else {
            s.clock
        },
        ..s
    }
}

/// The state after patching the rule at position `i`, given the next cron match of the patched
/// rule (used only when it becomes an enabled clock rule).
pub open spec fn update_rule_view(s: EngineView, i: int, p: crate::rule::PatchView, next: Option<i64>) -> EngineView {
    let old_r = s.rules[i];
    let new_r = patched(old_r, p);
    let was_clock = old_r.source_id == "clock"@;
    let is_clock = new_r.source_id == "clock"@;
    EngineView {
        rules: s.rules.update(i, new_r),
        clock: if was_clock && (!is_clock || !new_r.enabled) {
            clock_without(s.clock, new_r.id)
        } else if is_clock && new_r.enabled && (!was_clock || !old_r.enabled) && cron_of_rule(new_r) is Some
            && next is Some {
            s.clock.push((new_r.id, next.unwrap()))
        } else {
            s.clock
        },
        ..s
    }
}

/// The state after removing the rule at position `i`.
pub open spec fn remove_rule_view(s: EngineView, i: int) -> EngineView {
    let id = s.rules[i].id;
    EngineView {
        rules: s.rules.remove(i),
        evals: drop_at(s.evals, eval_index(s.evals, id)),
        clock: clock_without(s.clock, id),
        ..s
    }
}

/// The text of the error for an unknown rule.
pub open spec fn not_found_text(id: Seq<char>) -> Seq<char> {
    "Rule not found: "@ + id
}

fn not_found(id: &str) -> (r: String)
    ensures
        r@ == not_found_text(id@),
{
    let mut s = text_of("Rule not found: ");
    crate::rule::push(&mut s, id);
    s
}

impl RuleEngine {
    /// An empty engine: no rule, no source, no clock or evaluation state, nothing running.
    pub fn new() -> (r: RuleEngine)
        ensures
            r@.rules.len() == 0,
            r@.sources.len() == 0,
            r@.clock.len() == 0,
            r@.evals.len() == 0,
            r@.running.len() == 0,
            engine_ok(r@),
    {
        RuleEngine { rules: Vec::new(), sources: Vec::new(), clock_states: Vec::new(), eval_states: Vec::new(), running: Vec::new() }
    }

    /// Replaces the event sources; the rules and their states are kept.
    pub fn set_sources(&mut self, sources: Vec<EventSource>)
        requires
            engine_ok(old(self)@),
        ensures
            final(self)@ == (EngineView { sources: sources_view(sources@), ..old(self)@ }),
            engine_ok(final(self)@),
    {
        self.sources = sources;
    }

    fn find_rule(&self, id: &str) -> (r: Option<usize>)
        ensures
            match r {
                Some(i) => rule_index(self@.rules, id@) == Some(i as int) && i < self.rules@.len(),
                None => rule_index(self@.rules, id@) is None,
            },
    {
        let ghost rv = self@.rules;
        let mut i: usize = self.rules.len();
        proof {
            assert(rv.take(i as int) =~= rv);
        }
        while i > 0
            invariant
                i <= self.rules@.len(),
                rv == self@.rules,
                rv.len() == self.rules@.len(),
                rule_index(rv, id@) == rule_index(rv.take(i as int), id@),
            decreases i,
        {
            let ghost t = rv.take(i as int);
            proof {
                assert(t.drop_last() =~= rv.take(i - 1));
                assert(t.last() == self.rules@[i - 1]@);
            }
            if str_eq(self.rules[i - 1].id.as_str(), id) {
                return Some(i - 1);
            }
            i = i - 1;
        }
        None
    }

    fn find_eval(&self, id: &str) -> (r: Option<usize>)
        ensures
            match r {
                Some(i) => eval_index(self@.evals, id@) == Some(i as int) && i < self.eval_states@.len(),
                None => eval_index(self@.evals, id@) is None,
            },
    {
        let ghost ev = self@.evals;
        let mut i: usize = self.eval_states.len();
        proof {
            assert(ev.take(i as int) =~= ev);
        }
        while i > 0
            invariant
                i <= self.eval_states@.len(),
                ev == self@.evals,
                ev.len() == self.eval_states@.len(),
                eval_index(ev, id@) == eval_index(ev.take(i as int), id@),
            decreases i,
        {
            let ghost t = ev.take(i as int);
            proof {
                assert(t.drop_last() =~= ev.take(i - 1));
                assert(t.last() == self.eval_states@[i - 1]@);
            }
            if str_eq(self.eval_states[i - 1].rule_id.as_str(), id) {
                return Some(i - 1);
            }
            i = i - 1;
        }
        None
    }

    /// Whether a rule is running now.
    pub fn is_running(&self, id: &str) -> (b: bool)
        ensures
            b == self@.running.contains(id@),
    {
        let mut i: usize = 0;
        while i < self.running.len()
            invariant
                i <= self.running@.len(),
                forall|j: int| 0 <= j < i ==> self.running@[j]@ != id@,
            decreases self.running.len() - i,
        {
            if str_eq(self.running[i].as_str(), id) {
                proof {
                    assert(self@.running[i as int] == id@);
                }
                return true;
            }
            i = i + 1;
        }
        proof {
            if self@.running.contains(id@) {
                let k = choose|k: int| 0 <= k < self@.running.len() && self@.running[k] == id@;
                assert(self.running@[k]@ == id@);
            }
        }
        false
    }

    fn remove_clock_states(&mut self, id: &str)
        ensures
            final(self)@ == (EngineView { clock: clock_without(old(self)@.clock, id@), ..old(self)@ }),
            final(self).rules == old(self).rules,
            final(self).eval_states == old(self).eval_states,
            final(self).running == old(self).running,
            final(self).sources == old(self).sources,
    {
        let ghost cv = clock_view(self.clock_states@);
        let mut kept: Vec<ClockRuleState> = Vec::new();
        let mut i: usize = 0;
        proof {
            assert(cv.take(0) =~= Seq::<(Seq<char>, i64)>::empty());
            assert(clock_view(kept@) =~= Seq::<(Seq<char>, i64)>::empty());
        }
        while i < self.clock_states.len()
            invariant
                i <= self.clock_states@.len(),
                cv == clock_view(self.clock_states@),
                clock_view(kept@) == clock_without(cv.take(i as int), id@),
            decreases self.clock_states.len() - i,
        {
            let c = &self.clock_states[i];
            proof {
                let t = cv.take(i + 1);
                assert(t.drop_last() =~= cv.take(i as int));
                assert(t.last() == (c.rule_id@, c.next_match_at_ms));
            }
            if !str_eq(c.rule_id.as_str(), id) {
                let ghost prev = kept@;
                let k = ClockRuleState { rule_id: copy_string(&c.rule_id), next_match_at_ms: c.next_match_at_ms };
                kept.push(k);
                proof {
                    assert(clock_view(kept@) =~= clock_view(prev).push((c.rule_id@, c.next_match_at_ms)));
                }
            }
            i = i + 1;
        }
        proof {
            assert(cv.take(cv.len() as int) =~= cv);
        }
        self.clock_states = kept;
    }

    /// Adds (or replaces) a rule: a fresh evaluation state for it and, for an enabled clock rule
    /// with a cron expression, a clock state at its next match (`next` is that time, as the
    /// cron library computed it, `None` when it could not).
    pub fn add_rule_with(&mut self, rule: Rule, next: Option<i64>)
        requires
            engine_ok(old(self)@),
            rule_count(rule@) <= usize::MAX,
        ensures
            final(self)@ == add_rule_view(old(self)@, rule@, next),
            engine_ok(final(self)@),
    {
        let ghost s = self@;
        let ghost r = rule@;
        let n = count_conditions(&rule);
        let mut starts: Vec<Option<i64>> = Vec::new();
        let mut k: usize = 0;
        while k < n
            invariant
                k <= n,
                starts@ == Seq::new(k as nat, |i: int| None::<i64>),
            decreases n - k,
        {
            starts.push(None);
            proof {
                assert(starts@ =~= Seq::new((k + 1) as nat, |i: int| None::<i64>));
            }
            k = k + 1;
        }
        let eval = RuleEvalState { rule_id: copy_string(&rule.id), condition_start_times: starts, last_triggered_at: None };
        proof {
            lemma_eval_index(s.evals, r.id);
            lemma_rule_index(s.rules, r.id);
        }
        match self.find_eval(rule.id.as_str()) {
            Some(i) => {
                let ghost prev = self.eval_states@;
                self.eval_states.set(i, eval);
                proof {
                    assert(evals_view(self.eval_states@) =~= evals_view(prev).update(i as int, eval@));
                }
            },
            None => {
                let ghost prev = self.eval_states@;
                self.eval_states.push(eval);
                proof {
                    assert(evals_view(self.eval_states@) =~= evals_view(prev).push(eval@));
                }
            },
        }
        let is_clock = rule.is_clock_rule();
        if is_clock && rule.enabled && next.is_some() {
            match find_cron_expression(&rule) {
                Some(_) => {
                    let st = ClockRuleState { rule_id: copy_string(&rule.id), next_match_at_ms: next.unwrap() };
                    let ghost prev = self.clock_states@;
                    self.clock_states.push(st);
                    proof {
                        assert(clock_view(self.clock_states@) =~= clock_view(prev).push((r.id, next.unwrap())));
                    }
                },
                None => {},
            }
        }
        match self.find_rule(rule.id.as_str()) {
            Some(i) => {
                let ghost prev = self.rules@;
                self.rules.set(i, rule);
                proof {
                    assert(rules_view(self.rules@) =~= rules_view(prev).update(i as int, r));
                }
            },
            None => {
                let ghost prev = self.rules@;
                self.rules.push(rule);
                proof {
                    assert(rules_view(self.rules@) =~= rules_view(prev).push(r));
                }
            },
        }
        proof {
            let f = self@;
            assert(f == add_rule_view(s, r, next));
            lemma_add_owned(s, r, next);
            assert forall|i: int, j: int| 0 <= i < j < f.rules.len() implies f.rules[i].id != f.rules[j].id by {
                match rule_index(s.rules, r.id) {
                    Some(k) => {
                        if i != k && j != k {
                            assert(f.rules[i] == s.rules[i] && f.rules[j] == s.rules[j]);
                        }
                    },
                    None => {
                        if j == s.rules.len() {
                            assert(f.rules[i] == s.rules[i]);
                        } else {
                            assert(f.rules[i] == s.rules[i] && f.rules[j] == s.rules[j]);
                        }
                    },
                }
            }
            assert forall|i: int, j: int| 0 <= i < j < f.evals.len() implies f.evals[i].rule_id != f.evals[j].rule_id by {
                match eval_index(s.evals, r.id) {
                    Some(k) => {
                        if i != k && j != k {
                            assert(f.evals[i] == s.evals[i] && f.evals[j] == s.evals[j]);
                        }
                    },
                    None => {
                        if j == s.evals.len() {
                            assert(f.evals[i] == s.evals[i]);
                        } else {
                            assert(f.evals[i] == s.evals[i] && f.evals[j] == s.evals[j]);
                        }
                    },
                }
            }
        }
    }

    /// Adds (or replaces) a rule, asking the cron library for its next match when it is an
    /// enabled clock rule with a cron expression.
    pub fn add_rule(&mut self, rule: Rule)
        requires
            engine_ok(old(self)@),
            rule_count(rule@) <= usize::MAX,
        ensures
            exists|now_ms: i64| final(self)@ == add_rule_view(old(self)@, rule@, added_next(rule@, now_ms)),
            engine_ok(final(self)@),
    {
        let now = crate::storage::now_millis();
        let next = if rule.is_clock_rule() && rule.enabled {
            next_cron_match_at(&rule, now)
        } else {
            None
        };
        assert(next == added_next(rule@, now));
        self.add_rule_with(rule, next);
    }

    /// Patches a rule, keeping its clock state in step: a clock rule that stops being an enabled
    /// clock rule loses it; one that becomes one gets it at `next` (its next cron match, as the
    /// cron library computed it). An unknown id is an error.
    pub fn update_rule_with(&mut self, id: &str, patch: RulePatch, next: Option<i64>) -> (r: Result<(), String>)
        requires
            engine_ok(old(self)@),
        ensures
            match rule_index(old(self)@.rules, id@) {
                Some(i) => r is Ok && final(self)@ == update_rule_view(old(self)@, i, patch@, next),
                None => r matches Err(e) && e@ == not_found_text(id@) && final(self)@ == old(self)@,
            },
            engine_ok(final(self)@),
    {
        let ghost s = self@;
        let ghost pv = patch@;
        match self.find_rule(id) {
            None => Err(not_found(id)),
            Some(i) => {
                proof {
                    lemma_rule_index(s.rules, id@);
                }
                let mut rule = self.rules[i].clone();
                let ghost old_r = rule@;
                let was_clock = rule.is_clock_rule();
                let was_enabled = rule.enabled;
                rule.apply_patch(patch);
                let is_clock = rule.is_clock_rule();
                let is_enabled = rule.enabled;
                let ghost new_r = rule@;
                if was_clock && (!is_clock || !is_enabled) {
                    self.remove_clock_states(rule.id.as_str());
                } else if is_clock && is_enabled && (!was_clock || !was_enabled) && next.is_some() {
                    match find_cron_expression(&rule) {
                        Some(_) => {
                            let st = ClockRuleState { rule_id: copy_string(&rule.id), next_match_at_ms: next.unwrap() };
                            let ghost prev = self.clock_states@;
                            self.clock_states.push(st);
                            proof {
                                assert(clock_view(self.clock_states@) =~= clock_view(prev).push((new_r.id, next.unwrap())));
                            }
                        },
                        None => {},
                    }
                }
                let ghost prev = self.rules@;
                self.rules.set(i, rule);
                proof {
                    assert(rules_view(self.rules@) =~= s.rules.update(i as int, new_r));
                    let f = self@;
                    assert(f.evals == s.evals);
                    assert(f.running == s.running);
                    assert(new_r.id == old_r.id);
                    assert(old_r == s.rules[i as int]);
                    assert forall|a: int, b: int| 0 <= a < b < f.rules.len() implies f.rules[a].id != f.rules[b].id by {
                        if a != i && b != i {
                            assert(f.rules[a] == s.rules[a] && f.rules[b] == s.rules[b]);
                        } else if a == i {
                            assert(f.rules[b] == s.rules[b]);
                        } else {
                            assert(f.rules[a] == s.rules[a]);
                        }
                    }
                    assert(f == update_rule_view(s, i as int, pv, next));
                    lemma_update_owned(s, i as int, pv, next);
                }
                Ok(())
            },
        }
    }

    /// Patches a rule, asking the cron library for the next match when it becomes an enabled
    /// clock rule.
    pub fn update_rule(&mut self, id: &str, patch: RulePatch) -> (r: Result<(), String>)
        requires
            engine_ok(old(self)@),
        ensures
            match rule_index(old(self)@.rules, id@) {
                Some(i) => r is Ok && exists|now_ms: i64| final(self)@ == update_rule_view(old(self)@, i, patch@, patched_next(old(self)@.rules[i], patch@, now_ms)),
                None => r matches Err(e) && e@ == not_found_text(id@) && final(self)@ == old(self)@,
            },
            engine_ok(final(self)@),
    {
        let now = crate::storage::now_millis();
        let ghost s = self@;
        let next = match self.find_rule(id) {
            Some(i) => {
                if self.rules[i].is_clock_rule() && (patch.enabled.is_none() || patch.enabled == Some(true)) {
                    next_cron_match_at(&self.rules[i], now)
                } else {
                    None
                }
            },
            None => None,
        };
        assert(rule_index(s.rules, id@) matches Some(i) ==> next == patched_next(s.rules[i], patch@, now));
        self.update_rule_with(id, patch, next)
    }

    /// Removes a rule with its evaluation and clock states. An unknown id is an error.
    pub fn remove_rule(&mut self, id: &str) -> (r: Result<(), String>)
        requires
            engine_ok(old(self)@),
        ensures
            match rule_index(old(self)@.rules, id@) {
                Some(i) => r is Ok && final(self)@ == remove_rule_view(old(self)@, i),
                None => r matches Err(e) && e@ == not_found_text(id@) && final(self)@ == old(self)@,
            },
            engine_ok(final(self)@),
            forall|k: int| 0 <= k < final(self)@.evals.len() ==> #[trigger] final(self)@.evals[k].rule_id != id@,
            forall|k: int| 0 <= k < final(self)@.clock.len() ==> #[trigger] final(self)@.clock[k].0 != id@,
    {
        let ghost s = self@;
        match self.find_rule(id) {
            None => {
                proof {
                    lemma_rule_index(s.rules, id@);
                    assert forall|k: int| 0 <= k < s.evals.len() implies #[trigger] s.evals[k].rule_id != id@ by {
                        assert(rule_index(s.rules, s.evals[k].rule_id) is Some);
                    }
                    assert forall|k: int| 0 <= k < s.clock.len() implies #[trigger] s.clock[k].0 != id@ by {
                        assert(rule_index(s.rules, s.clock[k].0) is Some);
                    }
                }
                Err(not_found(id))
            },
            Some(i) => {
                proof {
                    lemma_rule_index(s.rules, id@);
                }
                let ghost prev = self.rules@;
                let _removed = self.rules.remove(i);
                proof {
                    assert(rules_view(self.rules@) =~= s.rules.remove(i as int));
                }
                let ghost ev0 = self@.evals;
                match self.find_eval(id) {
                    Some(k) => {
                        let ghost pe = self.eval_states@;
                        let _e = self.eval_states.remove(k);
                        proof {
                            assert(evals_view(self.eval_states@) =~= evals_view(pe).remove(k as int));
                        }
                    },
                    None => {},
                }
                self.remove_clock_states(id);
                proof {
                    let f = self@;
                    assert(f.running == s.running);
                    assert(f.rules == s.rules.remove(i as int));
                    assert(f.evals == drop_at(s.evals, eval_index(s.evals, id@)));
                    assert forall|a: int, b: int| 0 <= a < b < f.rules.len() implies f.rules[a].id != f.rules[b].id by {
                        let a0 = if a < i { a } else { a + 1 };
                        let b0 = if b < i { b } else { b + 1 };
                        assert(f.rules[a] == s.rules[a0] && f.rules[b] == s.rules[b0]);
                    }
                    assert forall|a: int, b: int| 0 <= a < b < f.evals.len() implies f.evals[a].rule_id != f.evals[b].rule_id by {
                        match eval_index(s.evals, id@) {
                            Some(k) => {
                                let a0 = if a < k { a } else { a + 1 };
                                let b0 = if b < k { b } else { b + 1 };
                                assert(f.evals[a] == s.evals[a0] && f.evals[b] == s.evals[b0]);
                            },
                            None => {
                                assert(f.evals[a] == s.evals[a] && f.evals[b] == s.evals[b]);
                            },
                        }
                    }
                    assert(f == remove_rule_view(s, i as int));
                    lemma_remove_owned(s, i as int);
                }
                Ok(())
            },
        }
    }
}

// ---------------------------------------------------------------------------
// Running rules
// ---------------------------------------------------------------------------

/// The running ids without `id`.
pub open spec fn ids_without(rs: Seq<Seq<char>>, id: Seq<char>) -> Seq<Seq<char>>
    decreases rs.len(),
{
    if rs.len() == 0 {
        rs
    } else if rs.last() == id {
        ids_without(rs.drop_last(), id)
    } else {
        ids_without(rs.drop_last(), id).push(rs.last())
    }
}

/// The text of the error for a rule that is running already.
pub open spec fn already_running_text(id: Seq<char>) -> Seq<char> {
    "Rule "@ + id + " is already running"@
}

proof fn lemma_ids_without(rs: Seq<Seq<char>>, id: Seq<char>)
    requires
        forall|i: int, j: int| 0 <= i < j < rs.len() ==> rs[i] != rs[j],
    ensures
        forall|i: int, j: int| 0 <= i < j < ids_without(rs, id).len() ==> ids_without(rs, id)[i] != ids_without(rs, id)[j],
        forall|x: Seq<char>| #[trigger] ids_without(rs, id).contains(x) <==> (rs.contains(x) && x != id),
    decreases rs.len(),
{
    if rs.len() > 0 {
        let d = rs.drop_last();
        assert forall|i: int, j: int| 0 <= i < j < d.len() implies d[i] != d[j] by {
            assert(d[i] == rs[i] && d[j] == rs[j]);
        }
        lemma_ids_without(d, id);
        let w = ids_without(d, id);
        assert forall|x: Seq<char>| rs.contains(x) <==> (d.contains(x) || x == rs.last()) by {
            if rs.contains(x) {
                let k = choose|k: int| 0 <= k < rs.len() && rs[k] == x;
                if k < rs.len() - 1 {
                    assert(d[k] == x);
                }
            }
            if d.contains(x) {
                let k = choose|k: int| 0 <= k < d.len() && d[k] == x;
                assert(rs[k] == x);
            }
            if x == rs.last() {
                assert(rs[rs.len() - 1] == x);
            }
        }
        if rs.last() != id {
            let r = w.push(rs.last());
            assert(!d.contains(rs.last())) by {
                if d.contains(rs.last()) {
                    let k = choose|k: int| 0 <= k < d.len() && d[k] == rs.last();
                    assert(rs[k] == rs[rs.len() - 1]);
                }
            }
            assert forall|x: Seq<char>| r.contains(x) <==> (w.contains(x) || x == rs.last()) by {
                if r.contains(x) {
                    let k = choose|k: int| 0 <= k < r.len() && r[k] == x;
                    if k < w.len() {
                        assert(w[k] == x);
                    }
                }
                if w.contains(x) {
                    let k = choose|k: int| 0 <= k < w.len() && w[k] == x;
                    assert(r[k] == x);
                }
                if x == rs.last() {
                    assert(r[r.len() - 1] == x);
                }
            }
            assert forall|i: int, j: int| 0 <= i < j < r.len() implies r[i] != r[j] by {
                if j == r.len() - 1 {
                    assert(w.contains(r[i])) by {
                        assert(w[i] == r[i]);
                    }
                } else {
                    assert(r[i] == w[i] && r[j] == w[j]);
                }
            }
        }
    }
}

impl RuleEngine {
    fn mark_running(&mut self, id: &str)
        requires
            engine_ok(old(self)@),
            !old(self)@.running.contains(id@),
        ensures
            final(self)@ == (EngineView { running: old(self)@.running.push(id@), ..old(self)@ }),
            engine_ok(final(self)@),
    {
        let ghost s = self@;
        let ghost prev = self.running@;
        self.running.push(text_of(id));
        proof {
            assert(ids_view(self.running@) =~= ids_view(prev).push(id@));
            let f = self@;
            assert forall|i: int, j: int| 0 <= i < j < f.running.len() implies f.running[i] != f.running[j] by {
                if j == f.running.len() - 1 {
                    assert(f.running[i] == s.running[i]);
                    assert(s.running.contains(f.running[i]));
                } else {
                    assert(f.running[i] == s.running[i] && f.running[j] == s.running[j]);
                }
            }
        }
    }

    /// Takes a rule off the running list.
    pub fn finish_run(&mut self, id: &str)
        requires
            engine_ok(old(self)@),
        ensures
            final(self)@ == (EngineView { running: ids_without(old(self)@.running, id@), ..old(self)@ }),
            !final(self)@.running.contains(id@),
            engine_ok(final(self)@),
    {
        let ghost s = self@;
        let ghost rv = ids_view(self.running@);
        let mut kept: Vec<String> = Vec::new();
        let mut i: usize = 0;
        proof {
            assert(rv.take(0) =~= Seq::<Seq<char>>::empty());
            assert(ids_view(kept@) =~= Seq::<Seq<char>>::empty());
        }
        while i < self.running.len()
            invariant
                i <= self.running@.len(),
                rv == ids_view(self.running@),
                ids_view(kept@) == ids_without(rv.take(i as int), id@),
            decreases self.running.len() - i,
        {
            proof {
                let t = rv.take(i + 1);
                assert(t.drop_last() =~= rv.take(i as int));
                assert(t.last() == self.running@[i as int]@);
            }
            if !str_eq(self.running[i].as_str(), id) {
                let ghost prev = kept@;
                kept.push(copy_string(&self.running[i]));
                proof {
                    assert(ids_view(kept@) =~= ids_view(prev).push(self.running@[i as int]@));
                }
            }
            i = i + 1;
        }
        proof {
            assert(rv.take(rv.len() as int) =~= rv);
            lemma_ids_without(rv, id@);
        }
        self.running = kept;
        proof {
            assert(self@.running == ids_without(rv, id@));
            assert(rv == s.running);
            lemma_ids_without(rv, id@);
            assert(!ids_without(rv, id@).contains(id@));
        }
    }

    /// Starts a manual run of a rule: refused when it is running already or unknown; otherwise
    /// it is marked running and the request is given (context `手动触发`, trigger `manual`).
    pub fn begin_run_now(&mut self, id: &str) -> (r: Result<ExecutionRequest, String>)
        requires
            engine_ok(old(self)@),
        ensures
            engine_ok(final(self)@),
            old(self)@.running.contains(id@) ==> (r matches Err(e) && e@ == already_running_text(id@)
                && final(self)@ == old(self)@),
            !old(self)@.running.contains(id@) ==> match rule_index(old(self)@.rules, id@) {
                Some(i) => r matches Ok(req) && request_view(req) == rule_request(old(self)@.rules[i], Some("手动触发"@), "manual"@)
                    && final(self)@ == (EngineView { running: old(self)@.running.push(id@), ..old(self)@ }),
                None => r matches Err(e) && e@ == not_found_text(id@) && final(self)@ == old(self)@,
            },
    {
        if self.is_running(id) {
            let mut e = text_of("Rule ");
            crate::rule::push(&mut e, id);
            crate::rule::push(&mut e, " is already running");
            return Err(e);
        }
        match self.find_rule(id) {
            None => Err(not_found(id)),
            Some(i) => {
                proof {
                    lemma_rule_index(self@.rules, id@);
                }
                let req = request_for_rule(&self.rules[i], Some(text_of("手动触发")), "manual");
                self.mark_running(id);
                Ok(req)
            },
        }
    }

    /// A copy of every rule.
    pub fn list_rules(&self) -> (r: Vec<Rule>)
        ensures
            rules_view(r@) == self@.rules,
    {
        let mut out: Vec<Rule> = Vec::new();
        let mut i: usize = 0;
        while i < self.rules.len()
            invariant
                i <= self.rules@.len(),
                rules_view(out@) == rules_view(self.rules@.take(i as int)),
            decreases self.rules.len() - i,
        {
            let ghost prev = out@;
            let c = self.rules[i].clone();
            out.push(c);
            proof {
                assert(self.rules@.take(i + 1) =~= self.rules@.take(i as int).push(self.rules@[i as int]));
                assert(rules_view(out@) =~= rules_view(prev).push(c@));
                assert(rules_view(self.rules@.take(i + 1)) =~= rules_view(self.rules@.take(i as int)).push(self.rules@[i as int]@));
            }
            i = i + 1;
        }
        proof {
            assert(self.rules@.take(self.rules@.len() as int) =~= self.rules@);
        }
        out
    }

    /// A copy of every source.
    pub fn list_sources(&self) -> (r: Vec<EventSource>)
        ensures
            sources_view(r@) == self@.sources,
    {
        let mut out: Vec<EventSource> = Vec::new();
        let mut i: usize = 0;
        while i < self.sources.len()
            invariant
                i <= self.sources@.len(),
                sources_view(out@) == sources_view(self.sources@.take(i as int)),
            decreases self.sources.len() - i,
        {
            let ghost prev = out@;
            let c = self.sources[i].clone();
            out.push(c);
            proof {
                assert(self.sources@.take(i + 1) =~= self.sources@.take(i as int).push(self.sources@[i as int]));
                assert(sources_view(out@) =~= sources_view(prev).push(c@));
                assert(sources_view(self.sources@.take(i + 1)) =~= sources_view(self.sources@.take(i as int)).push(self.sources@[i as int]@));
            }
            i = i + 1;
        }
        proof {
            assert(self.sources@.take(self.sources@.len() as int) =~= self.sources@);
        }
        out
    }
}

// ---------------------------------------------------------------------------
// Clock rules
// ---------------------------------------------------------------------------

/// The earliest wake time among clock states.
pub open spec fn min_wake(cs: Seq<(Seq<char>, i64)>) -> Option<i64>
    decreases cs.len(),
{
    if cs.len() == 0 {
        None
    } else {
        match min_wake(cs.drop_last()) {
            Some(m) => if cs.last().1 < m { Some(cs.last().1) } else { Some(m) },
            None => Some(cs.last().1),
        }
    }
}

/// The rules whose clock states are due at `now`, in order.
pub open spec fn due_ids(cs: Seq<(Seq<char>, i64)>, now: i64) -> Seq<Seq<char>>
    decreases cs.len(),
{
    if cs.len() == 0 {
        Seq::empty()
    } else if cs.last().1 <= now {
        due_ids(cs.drop_last(), now).push(cs.last().0)
    } else {
        due_ids(cs.drop_last(), now)
    }
}

/// The clock states with the first one of a rule moved to `next`.
pub open spec fn clock_set_first(cs: Seq<(Seq<char>, i64)>, id: Seq<char>, next: i64) -> Seq<(Seq<char>, i64)>
    decreases cs.len(),
{
    if cs.len() == 0 {
        cs
    } else {
        let d = cs.drop_last();
        if (exists|k: int| 0 <= k < d.len() && d[k].0 == id) {
            clock_set_first(d, id, next).push(cs.last())
        } else if cs.last().0 == id {
            d.push((id, next))
        } else {
            d.push(cs.last())
        }
    }
}

impl RuleEngine {
    /// When the engine next wakes for a clock rule: the earliest clock state.
    pub fn compute_next_clock_wake(&self) -> (r: Option<i64>)
        ensures
            r == min_wake(self@.clock),
    {
        let ghost cv = self@.clock;
        let mut best: Option<i64> = None;
        let mut i: usize = 0;
        proof {
            assert(cv.take(0) =~= Seq::<(Seq<char>, i64)>::empty());
        }
        while i < self.clock_states.len()
            invariant
                i <= self.clock_states@.len(),
                cv == self@.clock,
                best == min_wake(cv.take(i as int)),
            decreases self.clock_states.len() - i,
        {
            let t = self.clock_states[i].next_match_at_ms;
            proof {
                let tk = cv.take(i + 1);
                assert(tk.drop_last() =~= cv.take(i as int));
                assert(tk.last().1 == t);
            }
            best = match best {
                Some(m) => if t < m { Some(t) } else { Some(m) },
                None => Some(t),
            };
            i = i + 1;
        }
        proof {
            assert(cv.take(cv.len() as int) =~= cv);
        }
        best
    }

    /// The rules whose clock states are due at `now`, in order.
    pub fn due_clock_rules(&self, now: i64) -> (r: Vec<String>)
        ensures
            ids_view(r@) == due_ids(self@.clock, now),
    {
        let ghost cv = self@.clock;
        let mut out: Vec<String> = Vec::new();
        let mut i: usize = 0;
        proof {
            assert(cv.take(0) =~= Seq::<(Seq<char>, i64)>::empty());
            assert(ids_view(out@) =~= Seq::<Seq<char>>::empty());
        }
        while i < self.clock_states.len()
            invariant
                i <= self.clock_states@.len(),
                cv == self@.clock,
                ids_view(out@) == due_ids(cv.take(i as int), now),
            decreases self.clock_states.len() - i,
        {
            proof {
                let tk = cv.take(i + 1);
                assert(tk.drop_last() =~= cv.take(i as int));
                assert(tk.last() == (self.clock_states@[i as int].rule_id@, self.clock_states@[i as int].next_match_at_ms));
            }
            if self.clock_states[i].next_match_at_ms <= now {
                let ghost prev = out@;
                out.push(copy_string(&self.clock_states[i].rule_id));
                proof {
                    assert(ids_view(out@) =~= ids_view(prev).push(self.clock_states@[i as int].rule_id@));
                }
            }
            i = i + 1;
        }
        proof {
            assert(cv.take(cv.len() as int) =~= cv);
        }
        out
    }

    /// Starts a due clock rule: skipped (`None`) when it is running, unknown or disabled;
    /// otherwise marked running, with its request (the trigger time as context, trigger `clock`).
    pub fn begin_clock_run(&mut self, id: &str, trigger_context: String) -> (r: Option<ExecutionRequest>)
        requires
            engine_ok(old(self)@),
        ensures
            engine_ok(final(self)@),
            match r {
                Some(req) => !old(self)@.running.contains(id@) && (rule_index(old(self)@.rules, id@) matches Some(i)
                    && old(self)@.rules[i].enabled
                    && request_view(req) == rule_request(old(self)@.rules[i], Some(trigger_context@), "clock"@)
                    && final(self)@ == (EngineView { running: old(self)@.running.push(id@), ..old(self)@ })),
                None => final(self)@ == old(self)@ && (old(self)@.running.contains(id@)
                    || rule_index(old(self)@.rules, id@) is None
                    || !old(self)@.rules[rule_index(old(self)@.rules, id@).unwrap()].enabled),
            },
    {
        if self.is_running(id) {
            return None;
        }
        match self.find_rule(id) {
            None => None,
            Some(i) => {
                proof {
                    lemma_rule_index(self@.rules, id@);
                }
                if !self.rules[i].enabled {
                    return None;
                }
                let req = request_for_rule(&self.rules[i], Some(trigger_context), "clock");
                self.mark_running(id);
                Some(req)
            },
        }
    }

    /// Ends a clock run: the rule is off the running list, and its first clock state moves to
    /// `next` (its next cron match, as the cron library computed it), when the rule still has a
    /// cron expression and `next` is known.
    pub fn finish_clock_run_with(&mut self, id: &str, next: Option<i64>)
        requires
            engine_ok(old(self)@),
        ensures
            engine_ok(final(self)@),
            final(self)@.running == ids_without(old(self)@.running, id@),
            final(self)@.rules == old(self)@.rules,
            final(self)@.evals == old(self)@.evals,
            final(self)@.clock == match (rule_index(old(self)@.rules, id@), next) {
                (Some(i), Some(n)) => if cron_of_rule(old(self)@.rules[i]) is Some {
                    clock_set_first(old(self)@.clock, id@, n)
                } else {
                    old(self)@.clock
                },
                _ => old(self)@.clock,
            },
    {
        self.finish_run(id);
        let ghost s = self@;
        match (self.find_rule(id), next) {
            (Some(i), Some(n)) => {
                if find_cron_expression(&self.rules[i]).is_some() {
                    self.set_first_clock(id, n);
                    proof {
                        lemma_clock_set_first_ids(s.clock, id@, n);
                        assert forall|k: int| 0 <= k < self@.clock.len() implies #[trigger] rule_index(self@.rules, self@.clock[k].0) is Some by {
                            assert(self@.clock[k].0 == s.clock[k].0);
                        }
                    }
                }
            },
            _ => {},
        }
    }

    fn set_first_clock(&mut self, id: &str, next: i64)
        ensures
            final(self)@ == (EngineView { clock: clock_set_first(old(self)@.clock, id@, next), ..old(self)@ }),
            final(self).rules == old(self).rules,
            final(self).eval_states == old(self).eval_states,
            final(self).running == old(self).running,
    {
        let ghost cv = self@.clock;
        let mut i: usize = 0;
        while i < self.clock_states.len()
            invariant
                i <= self.clock_states@.len(),
                cv == clock_view(self.clock_states@),
                cv == old(self)@.clock,
                self.clock_states@ == old(self).clock_states@,
                self.rules == old(self).rules,
                self.eval_states == old(self).eval_states,
                self.running == old(self).running,
                self.sources == old(self).sources,
                forall|k: int| 0 <= k < i ==> cv[k].0 != id@,
            decreases self.clock_states.len() - i,
        {
            if str_eq(self.clock_states[i].rule_id.as_str(), id) {
                let st = ClockRuleState { rule_id: copy_string(&self.clock_states[i].rule_id), next_match_at_ms: next };
                self.clock_states.set(i, st);
                proof {
                    lemma_clock_set_first_at(cv, id@, next, i as int);
                    assert(clock_view(self.clock_states@) =~= cv.update(i as int, (id@, next)));
                }
                return;
            }
            i = i + 1;
        }
        proof {
            lemma_clock_set_first_none(cv, id@, next);
        }
    }
}

proof fn lemma_clock_set_first_none(cs: Seq<(Seq<char>, i64)>, id: Seq<char>, next: i64)
    requires
        forall|k: int| 0 <= k < cs.len() ==> cs[k].0 != id,
    ensures
        clock_set_first(cs, id, next) == cs,
    decreases cs.len(),
{
    if cs.len() > 0 {
        let d = cs.drop_last();
        assert(!(exists|k: int| 0 <= k < d.len() && d[k].0 == id)) by {
            if exists|k: int| 0 <= k < d.len() && d[k].0 == id {
                let k = choose|k: int| 0 <= k < d.len() && d[k].0 == id;
                assert(cs[k] == d[k]);
            }
        }
        assert(d.push(cs.last()) =~= cs);
    }
}

proof fn lemma_clock_set_first_at(cs: Seq<(Seq<char>, i64)>, id: Seq<char>, next: i64, i: int)
    requires
        0 <= i < cs.len(),
        cs[i].0 == id,
        forall|k: int| 0 <= k < i ==> cs[k].0 != id,
    ensures
        clock_set_first(cs, id, next) == cs.update(i, (id, next)),
    decreases cs.len(),
{
    let d = cs.drop_last();
    if i < cs.len() - 1 {
        assert(d[i] == cs[i]);
        assert forall|k: int| 0 <= k < i implies d[k].0 != id by {
            assert(d[k] == cs[k]);
        }
        lemma_clock_set_first_at(d, id, next, i);
        assert(exists|k: int| 0 <= k < d.len() && d[k].0 == id);
        assert(d.update(i, (id, next)).push(cs.last()) =~= cs.update(i, (id, next)));
    } else {
        assert(!(exists|k: int| 0 <= k < d.len() && d[k].0 == id)) by {
            if exists|k: int| 0 <= k < d.len() && d[k].0 == id {
                let k = choose|k: int| 0 <= k < d.len() && d[k].0 == id;
                assert(cs[k] == d[k]);
            }
        }
        assert(d.push((id, next)) =~= cs.update(i, (id, next)));
    }
}

// ---------------------------------------------------------------------------
// Evaluating rules against an event
// ---------------------------------------------------------------------------

/// Whether the results combine to true: all of them, or any of them.
pub open spec fn combine(rs: Seq<bool>, mode: MatchMode) -> bool {
    match mode {
        MatchMode::All => forall|i: int| 0 <= i < rs.len() ==> rs[i],
        MatchMode::Any => exists|i: int| 0 <= i < rs.len() && rs[i],
    }
}

/// The result of the condition at position `idx` of the rule, whose immediate result is `imm`,
/// and the start times after it. A condition with a duration holds only once it has held without
/// break for that long: the first time it holds its start is recorded and it does not hold yet;
/// when it fails its start is cleared. Without start times, or past their end, the immediate
/// result is the result.
pub open spec fn cond_result(c: ConditionView, imm: bool, starts: Option<Seq<Option<i64>>>, idx: int, now: i64)
    -> (bool, Option<Seq<Option<i64>>>)
{
    match c.duration_seconds {
        None => (imm, starts),
        Some(d) => match starts {
            None => (imm, starts),
            Some(st) => if 0 <= idx < st.len() {
                if imm {
                    match st[idx] {
                        Some(t0) => (now - t0 >= d * 1000, starts),
                        None => (false, Some(st.update(idx, Some(now)))),
                    }
                } else {
                    (false, Some(st.update(idx, None)))
                }
            } else {
                (imm, starts)
            },
        },
    }
}

/// The results of the first `k` conditions of a list placed from position `base`, and the start
/// times after them.
pub open spec fn conds_results(cs: Seq<ConditionView>, imm: Seq<bool>, starts: Option<Seq<Option<i64>>>, now: i64, base: int, k: nat)
    -> (Seq<bool>, Option<Seq<Option<i64>>>)
    decreases k,
{
    if k == 0 || k > cs.len() {
        (Seq::empty(), starts)
    } else {
        let p = conds_results(cs, imm, starts, now, base, (k - 1) as nat);
        let q = cond_result(cs[k - 1], imm[base + k - 1], p.1, base + k - 1, now);
        (p.0.push(q.0), q.1)
    }
}

/// The value of a condition list (true when it is empty) and the start times after it.
pub open spec fn conds_value(cs: Seq<ConditionView>, imm: Seq<bool>, starts: Option<Seq<Option<i64>>>, now: i64, base: int, mode: MatchMode)
    -> (bool, Option<Seq<Option<i64>>>)
{
    if cs.len() == 0 {
        (true, starts)
    } else {
        let p = conds_results(cs, imm, starts, now, base, cs.len());
        (combine(p.0, mode), p.1)
    }
}

/// How a condition list and a group list combine: `all` wants both, `any` either (and holds
/// when both are empty).
pub open spec fn combine_parts(c: bool, g: bool, mode: MatchMode, empty: bool) -> bool {
    match mode {
        MatchMode::All => c && g,
        MatchMode::Any => if empty { true } else { c || g },
    }
}

/// The value of a group whose conditions start at position `base`, and the start times after it.
pub open spec fn group_value(g: GroupView, imm: Seq<bool>, starts: Option<Seq<Option<i64>>>, now: i64, base: int)
    -> (bool, Option<Seq<Option<i64>>>)
    decreases g, 1nat,
{
    let c = conds_value(g.conditions, imm, starts, now, base, g.match_mode);
    let gr = if g.groups.len() == 0 {
        (true, c.1)
    } else {
        let p = groups_results(g.groups, imm, c.1, now, base + g.conditions.len(), g.groups.len());
        (combine(p.0, g.match_mode), p.1)
    };
    (combine_parts(c.0, gr.0, g.match_mode, g.conditions.len() == 0 && g.groups.len() == 0), gr.1)
}

/// The values of the first `k` groups, placed one after the other from position `base`, and the
/// start times after them.
pub open spec fn groups_results(gs: Seq<GroupView>, imm: Seq<bool>, starts: Option<Seq<Option<i64>>>, now: i64, base: int, k: nat)
    -> (Seq<bool>, Option<Seq<Option<i64>>>)
    decreases gs, k,
{
    if k == 0 || k > gs.len() {
        (Seq::empty(), starts)
    } else {
        let p = groups_results(gs, imm, starts, now, base, (k - 1) as nat);
        let q = group_value(gs[k - 1], imm, p.1, now, base + groups_count(gs, (k - 1) as nat));
        (p.0.push(q.0), q.1)
    }
}

/// Whether a rule fires, given the immediate result of each condition (in the rule's order:
/// its conditions, then each group's conditions and nested groups in turn), and the start times
/// after the evaluation.
pub open spec fn rule_value(r: RuleView, imm: Seq<bool>, starts: Option<Seq<Option<i64>>>, now: i64)
    -> (bool, Option<Seq<Option<i64>>>)
{
    let c = conds_value(r.conditions, imm, starts, now, 0, r.match_mode);
    let gr = if r.groups.len() == 0 {
        (true, c.1)
    } else {
        let p = groups_results(r.groups, imm, c.1, now, r.conditions.len() as int, r.groups.len());
        (combine(p.0, r.match_mode), p.1)
    };
    (combine_parts(c.0, gr.0, r.match_mode, r.conditions.len() == 0 && r.groups.len() == 0), gr.1)
}

fn combine_results(rs: &Vec<bool>, mode: MatchMode) -> (b: bool)
    ensures
        b == combine(rs@, mode),
{
    let mut i: usize = 0;
    match mode {
        MatchMode::All => {
            while i < rs.len()
                invariant
                    i <= rs@.len(),
                    mode == MatchMode::All,
                    forall|j: int| 0 <= j < i ==> rs@[j],
                decreases rs.len() - i,
            {
                if !rs[i] {
                    proof {
                        assert(!rs@[i as int]);
                        assert(!(forall|j: int| 0 <= j < rs@.len() ==> rs@[j]));
                    }
                    return false;
                }
                i = i + 1;
            }
            true
        },
        MatchMode::Any => {
            while i < rs.len()
                invariant
                    i <= rs@.len(),
                    mode == MatchMode::Any,
                    forall|j: int| 0 <= j < i ==> !rs@[j],
                decreases rs.len() - i,
            {
                if rs[i] {
                    proof {
                        assert(rs@[i as int]);
                        assert(exists|j: int| 0 <= j < rs@.len() && rs@[j]);
                    }
                    return true;
                }
                i = i + 1;
            }
            false
        },
    }
}

fn one_condition(c: &Condition, imm: bool, starts: &mut Option<Vec<Option<i64>>>, idx: usize, now: i64) -> (b: bool)
    ensures
        (b, match *final(starts) {
            Some(v) => Some(v@),
            None => None,
        }) == cond_result(c@, imm, match *old(starts) {
            Some(v) => Some(v@),
            None => None,
        }, idx as int, now),
{
    match c.duration_seconds {
        None => imm,
        Some(d) => {
            match starts {
                None => imm,
                Some(st) => {
                    if idx < st.len() {
                        if imm {
                            match st[idx] {
                                Some(t0) => (now as i128) - (t0 as i128) >= (d as i128) * 1000,
                                None => {
                                    st.set(idx, Some(now));
                                    false
                                },
                            }
                        } else {
                            st.set(idx, None);
                            false
                        }
                    } else {
                        imm
                    }
                },
            }
        },
    }
}

/// The view of optional start times.
pub open spec fn starts_view(s: Option<Vec<Option<i64>>>) -> Option<Seq<Option<i64>>> {
    match s {
        Some(v) => Some(v@),
        None => None,
    }
}

fn conditions_value(cs: &Vec<Condition>, imm: &Vec<bool>, starts: &mut Option<Vec<Option<i64>>>, now: i64, base: usize, mode: MatchMode) -> (b: bool)
    requires
        base + cs@.len() <= imm@.len(),
    ensures
        (b, starts_view(*final(starts))) == conds_value(conditions_view(cs@), imm@, starts_view(*old(starts)), now, base as int, mode),
{
    let ghost cv = conditions_view(cs@);
    if cs.len() == 0 {
        return true;
    }
    let mut results: Vec<bool> = Vec::new();
    let mut i: usize = 0;
    while i < cs.len()
        invariant
            i <= cs@.len(),
            base + cs@.len() <= imm@.len(),
            imm@.len() == imm.len(),
            cv == conditions_view(cs@),
            (results@, starts_view(*starts)) == conds_results(cv, imm@, starts_view(*old(starts)), now, base as int, i as nat),
        decreases cs.len() - i,
    {
        let b = one_condition(&cs[i], imm[base + i], starts, base + i, now);
        results.push(b);
        i = i + 1;
    }
    combine_results(&results, mode)
}

fn group_value_exec(g: &ConditionGroup, imm: &Vec<bool>, starts: &mut Option<Vec<Option<i64>>>, now: i64, base: usize) -> (b: bool)
    requires
        base + group_count(g@) <= imm@.len(),
    ensures
        (b, starts_view(*final(starts))) == group_value(g@, imm@, starts_view(*old(starts)), now, base as int),
    decreases g,
{
    let ghost gv = g@;
    proof {
        assert(gv.conditions.len() == g.conditions@.len());
        assert(group_count(gv) == gv.conditions.len() + groups_count(gv.groups, gv.groups.len()));
    }
    let c = conditions_value(&g.conditions, imm, starts, now, base, g.match_mode);
    let ghost after_c = starts_view(*starts);
    let gr: bool;
    if g.groups.len() == 0 {
        gr = true;
    } else {
        proof {
            lemma_groups_view_index(g.groups@);
        }
        proof {
            assert(imm@.len() == imm.len());
        }
        let nested = base + g.conditions.len();
        let mut results: Vec<bool> = Vec::new();
        let mut idx: usize = nested;
        let mut i: usize = 0;
        while i < g.groups.len()
            invariant
                i <= g.groups@.len(),
                gv == g@,
                gv.groups.len() == g.groups@.len(),
                forall|k: int| 0 <= k < g.groups@.len() ==> #[trigger] gv.groups[k] == g.groups@[k]@,
                nested == base + gv.conditions.len(),
                base + group_count(gv) <= imm@.len(),
                idx == nested + groups_count(gv.groups, i as nat),
                (results@, starts_view(*starts)) == groups_results(gv.groups, imm@, after_c, now, nested as int, i as nat),
            decreases g.groups.len() - i,
        {
            proof {
                assert(decreases_to!(g => g.groups@[i as int]));
                lemma_groups_count_mono(gv.groups, (i + 1) as nat, gv.groups.len());
                assert(groups_count(gv.groups, (i + 1) as nat) == groups_count(gv.groups, i as nat) + group_count(gv.groups[i as int]));
                assert(imm@.len() == imm.len());
            }
            let b = group_value_exec(&g.groups[i], imm, starts, now, idx);
            results.push(b);
            let n = count_group_conditions(&g.groups[i]);
            idx = idx + n;
            i = i + 1;
        }
        gr = combine_results(&results, g.match_mode);
    }
    let both_empty = g.conditions.len() == 0 && g.groups.len() == 0;
    match g.match_mode {
        MatchMode::All => c && gr,
        MatchMode::Any => if both_empty { true } else { c || gr },
    }
}

impl RuleEngine {
    /// Evaluates a rule against an event at `now`, given the immediate result of each of its
    /// conditions in the rule's order; the rule's evaluation state (if it has one) records when
    /// conditions with a duration started to hold.
    pub fn evaluate_rule(&mut self, rule: &Rule, imm: &Vec<bool>, now: i64) -> (b: bool)
        requires
            engine_ok(old(self)@),
            rule_count(rule@) <= imm@.len(),
        ensures
            engine_ok(final(self)@),
            final(self)@.rules == old(self)@.rules,
            final(self)@.clock == old(self)@.clock,
            final(self)@.running == old(self)@.running,
            final(self)@.sources == old(self)@.sources,
            match eval_index(old(self)@.evals, rule@.id) {
                Some(k) => {
                    let v = rule_value(rule@, imm@, Some(old(self)@.evals[k].starts), now);
                    &&& b == v.0
                    &&& final(self)@.evals == match v.1 {
                        Some(st) => old(self)@.evals.update(k, EvalView { starts: st, ..old(self)@.evals[k] }),
                        None => old(self)@.evals,
                    }
                },
                None => b == rule_value(rule@, imm@, None, now).0 && final(self)@.evals == old(self)@.evals,
            },
    {
        let ghost s = self@;
        let ghost rv = rule@;
        let k = self.find_eval(rule.id.as_str());
        proof {
            lemma_eval_index(s.evals, rv.id);
        }
        let mut starts: Option<Vec<Option<i64>>> = match k {
            Some(k) => {
                let mut copy: Vec<Option<i64>> = Vec::new();
                let src = &self.eval_states[k].condition_start_times;
                let mut j: usize = 0;
                while j < src.len()
                    invariant
                        j <= src@.len(),
                        copy@ == src@.take(j as int),
                    decreases src.len() - j,
                {
                    copy.push(src[j]);
                    proof {
                        assert(src@.take(j + 1) =~= src@.take(j as int).push(src@[j as int]));
                    }
                    j = j + 1;
                }
                proof {
                    assert(src@.take(src@.len() as int) =~= src@);
                }
                Some(copy)
            },
            None => None,
        };
        let ghost st0 = starts_view(starts);
        proof {
            assert(rv.conditions.len() == rule.conditions@.len());
            assert(imm@.len() == imm.len());
        }
        let c = conditions_value(&rule.conditions, imm, &mut starts, now, 0, rule.match_mode);
        let ghost after_c = starts_view(starts);
        let gr: bool;
        if rule.groups.len() == 0 {
            gr = true;
        } else {
            proof {
                lemma_groups_view_index(rule.groups@);
            }
            let nested = rule.conditions.len();
            let mut results: Vec<bool> = Vec::new();
            let mut idx: usize = nested;
            let mut i: usize = 0;
            while i < rule.groups.len()
                invariant
                    i <= rule.groups@.len(),
                    rv == rule@,
                    rv.groups.len() == rule.groups@.len(),
                    forall|q: int| 0 <= q < rule.groups@.len() ==> #[trigger] rv.groups[q] == rule.groups@[q]@,
                    nested == rv.conditions.len(),
                    rule_count(rv) <= imm@.len(),
                    idx == nested + groups_count(rv.groups, i as nat),
                    (results@, starts_view(starts)) == groups_results(rv.groups, imm@, after_c, now, nested as int, i as nat),
                decreases rule.groups.len() - i,
            {
                proof {
                    lemma_groups_count_mono(rv.groups, (i + 1) as nat, rv.groups.len());
                    assert(groups_count(rv.groups, (i + 1) as nat) == groups_count(rv.groups, i as nat) + group_count(rv.groups[i as int]));
                    assert(imm@.len() == imm.len());
                }
                let b = group_value_exec(&rule.groups[i], imm, &mut starts, now, idx);
                results.push(b);
                let n = count_group_conditions(&rule.groups[i]);
                idx = idx + n;
                i = i + 1;
            }
            gr = combine_results(&results, rule.match_mode);
        }
        let both_empty = rule.conditions.len() == 0 && rule.groups.len() == 0;
        let result = match rule.match_mode {
            MatchMode::All => c && gr,
            MatchMode::Any => if both_empty { true } else { c || gr },
        };
        match (k, starts) {
            (Some(k), Some(v)) => {
                let old_e = &self.eval_states[k];
                let e = RuleEvalState { rule_id: copy_string(&old_e.rule_id), condition_start_times: v, last_triggered_at: old_e.last_triggered_at };
                let ghost prev = self.eval_states@;
                proof {
                    assert(e@.rule_id == s.evals[k as int].rule_id);
                    assert(prev == old(self).eval_states@);
                }
                self.eval_states.set(k, e);
                proof {
                    assert(evals_view(self.eval_states@) =~= evals_view(prev).update(k as int, e@));
                    let f = self@;
                    assert(f.rules == s.rules && f.running == s.running);
                    assert forall|a: int, b2: int| 0 <= a < b2 < f.evals.len() implies f.evals[a].rule_id != f.evals[b2].rule_id by {
                        assert(f.evals[a].rule_id == s.evals[a].rule_id);
                        assert(f.evals[b2].rule_id == s.evals[b2].rule_id);
                    }
                }
            },
            _ => {},
        }
        result
    }

    /// The enabled rules listening to a source, in order.
    pub fn matching_rules(&self, source_id: &str) -> (r: Vec<String>)
        ensures
            ids_view(r@) == self@.rules.filter(|x: RuleView| x.enabled && x.source_id == source_id@).map_values(|x: RuleView| x.id),
    {
        let ghost rv = self@.rules;
        let ghost f = |x: RuleView| x.enabled && x.source_id == source_id@;
        let mut out: Vec<String> = Vec::new();
        let mut i: usize = 0;
        proof {
            reveal(Seq::filter);
            assert(rv.take(0).filter(f) =~= Seq::<RuleView>::empty());
            assert(ids_view(out@) =~= Seq::<Seq<char>>::empty());
        }
        while i < self.rules.len()
            invariant
                i <= self.rules@.len(),
                rv == self@.rules,
                f == (|x: RuleView| x.enabled && x.source_id == source_id@),
                ids_view(out@) == rv.take(i as int).filter(f).map_values(|x: RuleView| x.id),
            decreases self.rules.len() - i,
        {
            proof {
                reveal(Seq::filter);
                let t = rv.take(i + 1);
                assert(t.drop_last() =~= rv.take(i as int));
                assert(t.last() == self.rules@[i as int]@);
            }
            if self.rules[i].enabled && str_eq(self.rules[i].source_id.as_str(), source_id) {
                let ghost prev = out@;
                out.push(copy_string(&self.rules[i].id));
                proof {
                    assert(ids_view(out@) =~= ids_view(prev).push(self.rules@[i as int]@.id));
                    assert(rv.take(i + 1).filter(f) == rv.take(i as int).filter(f).push(self.rules@[i as int]@));
                    assert(rv.take(i + 1).filter(f).map_values(|x: RuleView| x.id) =~= rv.take(i as int).filter(f).map_values(|x: RuleView| x.id).push(self.rules@[i as int]@.id));
                }
            } else {
                proof {
                    assert(rv.take(i + 1).filter(f) == rv.take(i as int).filter(f));
                }
            }
            i = i + 1;
        }
        proof {
            assert(rv.take(rv.len() as int) =~= rv);
        }
        out
    }

    /// Starts an event run of a rule: skipped (`None`) when it is running or unknown; otherwise
    /// marked running, with its request (the event data as context, trigger `event`).
    pub fn begin_event_run(&mut self, id: &str, context: Option<String>) -> (r: Option<ExecutionRequest>)
        requires
            engine_ok(old(self)@),
        ensures
            engine_ok(final(self)@),
            match r {
                Some(req) => !old(self)@.running.contains(id@) && (rule_index(old(self)@.rules, id@) matches Some(i)
                    && request_view(req) == rule_request(old(self)@.rules[i], opt_text_of(context), "event"@)
                    && final(self)@ == (EngineView { running: old(self)@.running.push(id@), ..old(self)@ })),
                None => final(self)@ == old(self)@ && (old(self)@.running.contains(id@)
                    || rule_index(old(self)@.rules, id@) is None),
            },
    {
        if self.is_running(id) {
            return None;
        }
        match self.find_rule(id) {
            None => None,
            Some(i) => {
                proof {
                    lemma_rule_index(self@.rules, id@);
                }
                let req = request_for_rule(&self.rules[i], context, "event");
                self.mark_running(id);
                Some(req)
            },
        }
    }

    /// Ends an event run: the rule is off the running list and its last firing is recorded.
    pub fn finish_event_run(&mut self, id: &str, timestamp_ms: i64)
        requires
            engine_ok(old(self)@),
        ensures
            engine_ok(final(self)@),
            final(self)@.running == ids_without(old(self)@.running, id@),
            final(self)@.rules == old(self)@.rules,
            final(self)@.clock == old(self)@.clock,
            final(self)@.evals == match eval_index(old(self)@.evals, id@) {
                Some(k) => old(self)@.evals.update(k, EvalView { last_triggered_at: Some(timestamp_ms), ..old(self)@.evals[k] }),
                None => old(self)@.evals,
            },
    {
        self.finish_run(id);
        let ghost s = self@;
        proof {
            lemma_eval_index(s.evals, id@);
        }
        match self.find_eval(id) {
            Some(k) => {
                let old_e = &self.eval_states[k];
                let mut st: Vec<Option<i64>> = Vec::new();
                let mut j: usize = 0;
                while j < old_e.condition_start_times.len()
                    invariant
                        j <= old_e.condition_start_times@.len(),
                        st@ == old_e.condition_start_times@.take(j as int),
                    decreases old_e.condition_start_times.len() - j,
                {
                    st.push(old_e.condition_start_times[j]);
                    proof {
                        assert(old_e.condition_start_times@.take(j + 1) =~= old_e.condition_start_times@.take(j as int).push(old_e.condition_start_times@[j as int]));
                    }
                    j = j + 1;
                }
                proof {
                    assert(old_e.condition_start_times@.take(old_e.condition_start_times@.len() as int) =~= old_e.condition_start_times@);
                }
                let e = RuleEvalState { rule_id: copy_string(&old_e.rule_id), condition_start_times: st, last_triggered_at: Some(timestamp_ms) };
                let ghost prev = self.eval_states@;
                self.eval_states.set(k, e);
                proof {
                    assert(evals_view(self.eval_states@) =~= evals_view(prev).update(k as int, e@));
                    let f = self@;
                    assert forall|a: int, b2: int| 0 <= a < b2 < f.evals.len() implies f.evals[a].rule_id != f.evals[b2].rule_id by {
                        assert(f.evals[a].rule_id == s.evals[a].rule_id);
                        assert(f.evals[b2].rule_id == s.evals[b2].rule_id);
                    }
                }
            },
            None => {},
        }
    }
}

/// The view of an optional text.
pub open spec fn opt_text_of(s: Option<String>) -> Option<Seq<char>> {
    match s {
        Some(t) => Some(t@),
        None => None,
    }
}

// ---------------------------------------------------------------------------
// Status and commands
// ---------------------------------------------------------------------------

/// What is known of a rule's cached plan.
#[derive(Debug)]
pub struct PlanCacheStatus {
    pub exists: bool,
    pub path: String,
    pub created_at_ms: Option<i64>,
    pub steps_count: usize,
}

/// What is known of a rule's last run.
#[derive(Debug)]
pub struct LastRunStatus {
    /// `plan` or `llm`.
    pub source: String,
    /// `ok`, `error` or `timeout`.
    pub status: String,
    pub duration_ms: i64,
    pub started_at_ms: i64,
}

/// The state of one rule.
#[derive(Debug)]
pub struct RuleStatusInfo {
    pub id: String,
    pub name: String,
    pub enabled: bool,
    /// Its cached plan, when there is one.
    pub plan: Option<PlanCacheStatus>,
    /// Its last run, when there was one.
    pub last_run: Option<LastRunStatus>,
}

/// The state of the engine.
#[derive(Debug)]
pub struct EngineStatus {
    pub total_rules: usize,
    pub enabled_rules: usize,
    pub next_clock_wake_ms: Option<i64>,
    pub active_sources: usize,
    pub rules: Vec<RuleStatusInfo>,
}

/// The number of enabled rules.
pub open spec fn enabled_count(rs: Seq<RuleView>) -> nat
    decreases rs.len(),
{
    if rs.len() == 0 {
        0
    } else {
        enabled_count(rs.drop_last()) + if rs.last().enabled { 1nat } else { 0nat }
    }
}

proof fn lemma_enabled_count_bound(rs: Seq<RuleView>)
    ensures
        enabled_count(rs) <= rs.len(),
    decreases rs.len(),
{
    if rs.len() > 0 {
        lemma_enabled_count_bound(rs.drop_last());
    }
}

/// The status of a rule tells its id, name and whether it is enabled, has its plan when the
/// plan exists, and its last run when there was one.
pub open spec fn info_matches(info: RuleStatusInfo, r: RuleView, plan: PlanStatus, last: Option<LastRunInfo>) -> bool {
    &&& info.id@ == r.id
    &&& info.name@ == r.name
    &&& info.enabled == r.enabled
    &&& info.plan.is_some() == plan.exists
    &&& (info.plan matches Some(p) ==> p.exists && p.path@ == plan.path@ && p.created_at_ms == plan.created_at_ms
            && p.steps_count == plan.steps_count)
    &&& info.last_run.is_some() == last.is_some()
    &&& (info.last_run matches Some(l) ==> (last matches Some(x) && l.source@ == x.source@ && l.status@ == x.status@
            && l.duration_ms == x.duration_ms && l.started_at_ms == x.started_at_ms))
}

fn rule_status_info(rule: &Rule, plan: &PlanStatus, last: &Option<LastRunInfo>) -> (r: RuleStatusInfo)
    ensures
        info_matches(r, rule@, *plan, *last),
{
    let p = if plan.exists {
        Some(PlanCacheStatus {
            exists: true,
            path: copy_string(&plan.path),
            created_at_ms: plan.created_at_ms,
            steps_count: plan.steps_count,
        })
    } else {
        None
    };
    let l = match last {
        Some(x) => Some(LastRunStatus {
            source: copy_string(&x.source),
            status: copy_string(&x.status),
            duration_ms: x.duration_ms,
            started_at_ms: x.started_at_ms,
        }),
        None => None,
    };
    RuleStatusInfo { id: copy_string(&rule.id), name: copy_string(&rule.name), enabled: rule.enabled, plan: p, last_run: l }
}

impl RuleEngine {
    /// The engine's state, given each rule's plan status and last run (in the rules' order).
    pub fn status(&self, plans: &Vec<PlanStatus>, last_runs: &Vec<Option<LastRunInfo>>) -> (r: EngineStatus)
        requires
            plans@.len() == self.rules@.len(),
            last_runs@.len() == self.rules@.len(),
        ensures
            r.total_rules == self@.rules.len(),
            r.enabled_rules == enabled_count(self@.rules),
            r.next_clock_wake_ms == min_wake(self@.clock),
            r.active_sources == self@.sources.len(),
            r.rules@.len() == self@.rules.len(),
            forall|i: int| 0 <= i < r.rules@.len() ==> info_matches(#[trigger] r.rules@[i], self@.rules[i], plans@[i], last_runs@[i]),
    {
        let ghost rv = self@.rules;
        let mut infos: Vec<RuleStatusInfo> = Vec::new();
        let mut enabled: usize = 0;
        let mut i: usize = 0;
        proof {
            assert(rv.take(0) =~= Seq::<RuleView>::empty());
        }
        while i < self.rules.len()
            invariant
                i <= self.rules@.len(),
                rv == self@.rules,
                rv.len() == self.rules@.len(),
                plans@.len() == self.rules@.len(),
                last_runs@.len() == self.rules@.len(),
                enabled == enabled_count(rv.take(i as int)),
                enabled <= i,
                infos@.len() == i,
                forall|k: int| 0 <= k < i ==> info_matches(#[trigger] infos@[k], rv[k], plans@[k], last_runs@[k]),
            decreases self.rules.len() - i,
        {
            let info = rule_status_info(&self.rules[i], &plans[i], &last_runs[i]);
            proof {
                assert(rv[i as int] == self.rules@[i as int]@);
            }
            proof {
                let t = rv.take(i + 1);
                assert(t.drop_last() =~= rv.take(i as int));
                assert(t.last() == self.rules@[i as int]@);
            }
            if self.rules[i].enabled {
                enabled = enabled + 1;
            }
            proof {
                assert(rv[i as int] == self.rules@[i as int]@);
            }
            let ghost prev = infos@;
            infos.push(info);
            proof {
                assert forall|k: int| 0 <= k < i + 1 implies info_matches(#[trigger] infos@[k], rv[k], plans@[k], last_runs@[k]) by {
                    if k < i {
                        assert(infos@[k] == prev[k]);
                    } else {
                        assert(infos@[k] == info);
                    }
                }
            }
            i = i + 1;
        }
        proof {
            assert(rv.take(rv.len() as int) =~= rv);
        }
        EngineStatus {
            total_rules: self.rules.len(),
            enabled_rules: enabled,
            next_clock_wake_ms: self.compute_next_clock_wake(),
            active_sources: self.sources.len(),
            rules: infos,
        }
    }
}

/// A command to the engine.
#[derive(Debug)]
pub enum RuleCommand {
    Add(Rule),
    Update(String, RulePatch),
    Remove(String),
    RunNow(String),
    List,
    ListSources,
    Status,
    Shutdown,
}

/// What a command comes to.
#[derive(Debug)]
pub enum CommandOutcome {
    /// The reply to an add, update or remove.
    Reply(Result<(), String>),
    /// A manual run is refused.
    RunRefused(String),
    /// Run this request; when it is done, deliver its result, take the rule off the running
    /// list (`finish_run`) and reply success.
    Execute(ExecutionRequest),
    /// The rules.
    Rules(Vec<Rule>),
    /// The sources.
    Sources(Vec<EventSource>),
    /// Gather each rule's plan status and last run, then ask `status`.
    GatherStatus,
    /// Stop the engine.
    Shutdown,
}

impl RuleEngine {
    /// Handles a command: adds, updates and removes change the rules and reply; a manual run is
    /// started or refused; lists copy the rules or sources; a status asks for the per-rule facts
    /// first; a shutdown stops the engine.
    pub fn handle_command(&mut self, cmd: RuleCommand) -> (r: CommandOutcome)
        requires
            engine_ok(old(self)@),
        ensures
            engine_ok(final(self)@),
            match cmd {
                RuleCommand::Add(rule) => {
                    &&& r matches CommandOutcome::Reply(Ok(()))
                    &&& rule_count(rule@) <= usize::MAX ==> exists|now_ms: i64| final(self)@ == add_rule_view(old(self)@, rule@, added_next(rule@, now_ms))
                },
                RuleCommand::Update(id, p) => match rule_index(old(self)@.rules, id@) {
                    Some(i) => (r matches CommandOutcome::Reply(Ok(())))
                        && exists|now_ms: i64| final(self)@ == update_rule_view(old(self)@, i, p@, patched_next(old(self)@.rules[i], p@, now_ms)),
                    None => (r matches CommandOutcome::Reply(Err(e)) && e@ == not_found_text(id@)) && final(self)@ == old(self)@,
                },
                RuleCommand::Remove(id) => {
                    &&& match rule_index(old(self)@.rules, id@) {
                        Some(i) => (r matches CommandOutcome::Reply(Ok(()))) && final(self)@ == remove_rule_view(old(self)@, i),
                        None => (r matches CommandOutcome::Reply(Err(e)) && e@ == not_found_text(id@)) && final(self)@ == old(self)@,
                    }
                    &&& forall|k: int| 0 <= k < final(self)@.evals.len() ==> #[trigger] final(self)@.evals[k].rule_id != id@
                    &&& forall|k: int| 0 <= k < final(self)@.clock.len() ==> #[trigger] final(self)@.clock[k].0 != id@
                },
                RuleCommand::RunNow(id) => {
                    &&& old(self)@.running.contains(id@) ==> (r matches CommandOutcome::RunRefused(e) && e@ == already_running_text(id@))
                    &&& !old(self)@.running.contains(id@) ==> match rule_index(old(self)@.rules, id@) {
                        Some(i) => r matches CommandOutcome::Execute(req)
                            && request_view(req) == rule_request(old(self)@.rules[i], Some("手动触发"@), "manual"@)
                            && final(self)@ == (EngineView { running: old(self)@.running.push(id@), ..old(self)@ }),
                        None => r matches CommandOutcome::RunRefused(e) && e@ == not_found_text(id@),
                    }
                },
                RuleCommand::List => (r matches CommandOutcome::Rules(v) && rules_view(v@) == old(self)@.rules)
                    && final(self)@ == old(self)@,
                RuleCommand::ListSources => (r matches CommandOutcome::Sources(v) && sources_view(v@) == old(self)@.sources)
                    && final(self)@ == old(self)@,
                RuleCommand::Status => r is GatherStatus && final(self)@ == old(self)@,
                RuleCommand::Shutdown => r is Shutdown && final(self)@ == old(self)@,
            },
    {
        match cmd {
            RuleCommand::Add(rule) => {
                if count_fits(&rule) {
                    self.add_rule(rule);
                }
                CommandOutcome::Reply(Ok(()))
            },
            RuleCommand::Update(id, patch) => CommandOutcome::Reply(self.update_rule(id.as_str(), patch)),
            RuleCommand::Remove(id) => CommandOutcome::Reply(self.remove_rule(id.as_str())),
            RuleCommand::RunNow(id) => match self.begin_run_now(id.as_str()) {
                Ok(req) => CommandOutcome::Execute(req),
                Err(e) => CommandOutcome::RunRefused(e),
            },
            RuleCommand::List => CommandOutcome::Rules(self.list_rules()),
            RuleCommand::ListSources => CommandOutcome::Sources(self.list_sources()),
            RuleCommand::Status => CommandOutcome::GatherStatus,
            RuleCommand::Shutdown => CommandOutcome::Shutdown,
        }
    }
}

/// Whether a rule's condition count fits a `usize` (it always does for a rule held in memory).
fn count_fits(rule: &Rule) -> (b: bool)
    ensures
        b == (rule_count(rule@) <= usize::MAX),
{
    proof {
        lemma_groups_view_index(rule.groups@);
    }
    let mut total: u128 = rule.conditions.len() as u128;
    let ghost rv = rule@;
    let mut i: usize = 0;
    while i < rule.groups.len()
        invariant
            i <= rule.groups@.len(),
            rv == rule@,
            rv.groups.len() == rule.groups@.len(),
            forall|k: int| 0 <= k < rule.groups@.len() ==> #[trigger] rv.groups[k] == rule.groups@[k]@,
            total <= usize::MAX ==> total == rv.conditions.len() + groups_count(rv.groups, i as nat),
            total > usize::MAX ==> rv.conditions.len() + groups_count(rv.groups, i as nat) > usize::MAX,
        decreases rule.groups.len() - i,
    {
        if total > usize::MAX as u128 {
            proof {
                lemma_groups_count_mono(rv.groups, i as nat, (i + 1) as nat);
            }
        } else {
            match group_count_checked(&rule.groups[i]) {
                Some(n) => {
                    total = total + n as u128;
                },
                None => {
                    total = usize::MAX as u128 + 1;
                },
            }
        }
        i = i + 1;
    }
    total <= usize::MAX as u128
}

fn group_count_checked(g: &ConditionGroup) -> (r: Option<usize>)
    ensures
        match r {
            Some(n) => n == group_count(g@),
            None => group_count(g@) > usize::MAX,
        },
    decreases g,
{
    proof {
        lemma_groups_view_index(g.groups@);
    }
    let ghost gv = g@;
    let mut total: usize = g.conditions.len();
    let mut i: usize = 0;
    while i < g.groups.len()
        invariant
            i <= g.groups@.len(),
            gv == g@,
            gv.groups.len() == g.groups@.len(),
            forall|k: int| 0 <= k < g.groups@.len() ==> #[trigger] gv.groups[k] == g.groups@[k]@,
            total == gv.conditions.len() + groups_count(gv.groups, i as nat),
        decreases g.groups.len() - i,
    {
        proof {
            assert(decreases_to!(g => g.groups@[i as int]));
            lemma_groups_count_mono(gv.groups, (i + 1) as nat, gv.groups.len());
        }
        match group_count_checked(&g.groups[i]) {
            Some(n) => {
                match total.checked_add(n) {
                    Some(t) => { total = t; },
                    None => {
                        proof {
                            lemma_groups_count_mono(gv.groups, (i + 1) as nat, gv.groups.len());
                        }
                        return None;
                    },
                }
            },
            None => {
                proof {
                    lemma_groups_count_mono(gv.groups, (i + 1) as nat, gv.groups.len());
                }
                return None;
            },
        }
        i = i + 1;
    }
    Some(total)
}

// ---------------------------------------------------------------------------
// Laws
// ---------------------------------------------------------------------------

/// After a rule is added, the engine holds it: the rule with its id is the added one, and it has
/// a fresh evaluation state.
pub proof fn lemma_add_then_find(s: EngineView, r: RuleView, next: Option<i64>)
    requires
        engine_ok(s),
    ensures
        add_rule_view(s, r, next).rules[rule_index(add_rule_view(s, r, next).rules, r.id).unwrap()] == r,
        rule_index(add_rule_view(s, r, next).rules, r.id) is Some,
        eval_index(add_rule_view(s, r, next).evals, r.id) is Some,
{
    lemma_rule_index(s.rules, r.id);
    lemma_eval_index(s.evals, r.id);
    let t = add_rule_view(s, r, next);
    lemma_rule_index(t.rules, r.id);
    lemma_eval_index(t.evals, r.id);
    match rule_index(s.rules, r.id) {
        Some(k) => {
            assert(t.rules[k].id == r.id);
            lemma_rule_index_unique(t.rules, r.id, k);
        },
        None => {
            assert(t.rules[s.rules.len() as int].id == r.id);
            lemma_rule_index_unique(t.rules, r.id, s.rules.len() as int);
        },
    }
    match eval_index(s.evals, r.id) {
        Some(k) => { assert(t.evals[k].rule_id == r.id); },
        None => { assert(t.evals[s.evals.len() as int].rule_id == r.id); },
    }
}

proof fn lemma_rule_index_unique(rs: Seq<RuleView>, id: Seq<char>, k: int)
    requires
        0 <= k < rs.len(),
        rs[k].id == id,
        forall|j: int| 0 <= j < rs.len() && j != k ==> rs[j].id != id,
    ensures
        rule_index(rs, id) == Some(k),
    decreases rs.len(),
{
    if k < rs.len() - 1 {
        assert(rs.drop_last()[k] == rs[k]);
        assert forall|j: int| 0 <= j < rs.drop_last().len() && j != k implies rs.drop_last()[j].id != id by {
            assert(rs.drop_last()[j] == rs[j]);
        }
        lemma_rule_index_unique(rs.drop_last(), id, k);
    }
}

/// After a rule is removed, the engine no longer knows its id, and no clock state is left for it.
pub proof fn lemma_remove_then_gone(s: EngineView, i: int)
    requires
        engine_ok(s),
        0 <= i < s.rules.len(),
    ensures
        rule_index(remove_rule_view(s, i).rules, s.rules[i].id) is None,
        forall|k: int| 0 <= k < remove_rule_view(s, i).clock.len() ==> remove_rule_view(s, i).clock[k].0 != s.rules[i].id,
{
    let id = s.rules[i].id;
    let t = remove_rule_view(s, i);
    lemma_rule_index(t.rules, id);
    assert forall|j: int| 0 <= j < t.rules.len() implies t.rules[j].id != id by {
        let j0 = if j < i { j } else { j + 1 };
        assert(t.rules[j] == s.rules[j0]);
    }
    lemma_clock_without(s.clock, id);
}

proof fn lemma_clock_without(cs: Seq<(Seq<char>, i64)>, id: Seq<char>)
    ensures
        forall|k: int| 0 <= k < clock_without(cs, id).len() ==> clock_without(cs, id)[k].0 != id,
    decreases cs.len(),
{
    if cs.len() > 0 {
        lemma_clock_without(cs.drop_last(), id);
        let w = clock_without(cs.drop_last(), id);
        if cs.last().0 != id {
            assert forall|k: int| 0 <= k < w.push(cs.last()).len() implies w.push(cs.last())[k].0 != id by {
                if k < w.len() {
                    assert(w.push(cs.last())[k] == w[k]);
                }
            }
        }
    }
}

/// With every condition holding at once and no duration to wait for, a rule whose conditions are
/// all flat (no groups) fires under `all`.
pub proof fn lemma_all_true_fires(r: RuleView, imm: Seq<bool>, now: i64)
    requires
        r.match_mode == MatchMode::All,
        r.groups.len() == 0,
        r.conditions.len() <= imm.len(),
        forall|i: int| 0 <= i < r.conditions.len() ==> imm[i] && (#[trigger] r.conditions[i]).duration_seconds is None,
    ensures
        rule_value(r, imm, None, now).0,
{
    lemma_conds_all_true(r.conditions, imm, now, r.conditions.len());
}

proof fn lemma_conds_all_true(cs: Seq<ConditionView>, imm: Seq<bool>, now: i64, k: nat)
    requires
        k <= cs.len() <= imm.len(),
        forall|i: int| 0 <= i < cs.len() ==> imm[i] && (#[trigger] cs[i]).duration_seconds is None,
    ensures
        conds_results(cs, imm, None, now, 0, k).1 is None,
        conds_results(cs, imm, None, now, 0, k).0.len() == k,
        forall|i: int| 0 <= i < k ==> #[trigger] conds_results(cs, imm, None, now, 0, k).0[i],
    decreases k,
{
    if k > 0 {
        lemma_conds_all_true(cs, imm, now, (k - 1) as nat);
        assert(cs[k - 1].duration_seconds is None);
        assert(imm[k - 1]);
        let p = conds_results(cs, imm, None, now, 0, (k - 1) as nat);
        assert forall|i: int| 0 <= i < k implies #[trigger] conds_results(cs, imm, None, now, 0, k).0[i] by {
            if i < k - 1 {
                assert(conds_results(cs, imm, None, now, 0, k).0[i] == p.0[i]);
            }
        }
    }
}

proof fn lemma_groups_results_len(gs: Seq<GroupView>, imm: Seq<bool>, starts: Option<Seq<Option<i64>>>, now: i64, base: int, k: nat)
    requires
        k <= gs.len(),
    ensures
        groups_results(gs, imm, starts, now, base, k).0.len() == k,
    decreases k,
{
    if k > 0 {
        lemma_groups_results_len(gs, imm, starts, now, base, (k - 1) as nat);
    }
}

/// Under `all` a rule fires only when its own conditions hold and every one of its groups holds:
/// a group that evaluates to false keeps the rule from firing.
pub proof fn lemma_all_rule_needs_groups(r: RuleView, imm: Seq<bool>, starts: Option<Seq<Option<i64>>>, now: i64)
    requires
        r.match_mode == MatchMode::All,
    ensures
        ({
            let c = conds_value(r.conditions, imm, starts, now, 0, MatchMode::All);
            let gs = groups_results(r.groups, imm, c.1, now, r.conditions.len() as int, r.groups.len());
            rule_value(r, imm, starts, now).0 ==> c.0 && forall|j: int| 0 <= j < r.groups.len() ==> #[trigger] gs.0[j]
        }),
{
    let c = conds_value(r.conditions, imm, starts, now, 0, MatchMode::All);
    lemma_groups_results_len(r.groups, imm, c.1, now, r.conditions.len() as int, r.groups.len());
}

/// Under `all` a group holds only when its own conditions hold and every one of its nested groups
/// holds.
pub proof fn lemma_all_group_needs_groups(g: GroupView, imm: Seq<bool>, starts: Option<Seq<Option<i64>>>, now: i64, base: int)
    requires
        g.match_mode == MatchMode::All,
    ensures
        ({
            let c = conds_value(g.conditions, imm, starts, now, base, MatchMode::All);
            let gs = groups_results(g.groups, imm, c.1, now, base + g.conditions.len(), g.groups.len());
            group_value(g, imm, starts, now, base).0 ==> c.0 && forall|j: int| 0 <= j < g.groups.len() ==> #[trigger] gs.0[j]
        }),
{
    let c = conds_value(g.conditions, imm, starts, now, base, MatchMode::All);
    lemma_groups_results_len(g.groups, imm, c.1, now, base + g.conditions.len(), g.groups.len());
}

/// A `contains` condition holds exactly when the value occurs somewhere in the field's text; in
/// particular when the text starts with the value, and when the text is the value.
pub proof fn lemma_contains_condition(field: Seq<char>, value: Seq<char>)
    ensures
        text_condition_holds(Op::Contains, field, value) <==> exists|i: int|
            0 <= i && i + value.len() <= field.len() && #[trigger] field.subrange(i, i + value.len()) == value,
        value.len() <= field.len() && field.subrange(0, value.len() as int) == value ==> text_condition_holds(Op::Contains, field, value),
        text_condition_holds(Op::Contains, field, field),
{
    if text_condition_holds(Op::Contains, field, value) {
        let i = choose|i: int| crate::text::occurs_at(field, value, i);
        assert(field.subrange(i, i + value.len()) == value);
    }
    if exists|i: int| 0 <= i && i + value.len() <= field.len() && #[trigger] field.subrange(i, i + value.len()) == value {
        let i = choose|i: int| 0 <= i && i + value.len() <= field.len() && #[trigger] field.subrange(i, i + value.len()) == value;
        assert(crate::text::occurs_at(field, value, i));
    }
    if value.len() <= field.len() && field.subrange(0, value.len() as int) == value {
        assert(crate::text::occurs_at(field, value, 0));
    }
    assert(field.subrange(0, field.len() as int) =~= field);
    assert(crate::text::occurs_at(field, field, 0));
}

} // verus!
