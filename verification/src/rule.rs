//! Automation rules: conditions, condition groups, rules and their XML form.

use vstd::prelude::*;
use crate::text::{
    decode_pieces, entity_char, entity_text, escape_piece, EscPiece,
    chars_of, decimal, escape_seq, parse_u32, parse_unsigned, replace_chars, replace_seq, str_eq, string_of,
    u64_to_string, xml_escape,
};
use crate::xml_token::{attrs_view, read_quick_xml, quick_xml_tokens, tokens_view, AttrView, TokenView, XmlAttr, XmlToken};

verus! {

// ---------------------------------------------------------------------------
// Operators and match modes
// ---------------------------------------------------------------------------

/// Comparison operator of a condition.
#[derive(Debug, Clone, Copy, PartialEq, Eq, Structural)]
pub enum Op {
    Gt,
    Lt,
    Gte,
    Lte,
    Eq,
    Ne,
    Contains,
    CronMatch,
}

/// The attribute text of an operator.
pub open spec fn op_text(op: Op) -> Seq<char> {
    match op {
        Op::Gt => "gt"@,
        Op::Lt => "lt"@,
        Op::Gte => "gte"@,
        Op::Lte => "lte"@,
        Op::Eq => "eq"@,
        Op::Ne => "ne"@,
        Op::Contains => "contains"@,
        Op::CronMatch => "cron-match"@,
    }
}

/// The operator named by an attribute text, if any.
pub open spec fn op_from_text(t: Seq<char>) -> Option<Op> {
    if t == "gt"@ {
        Some(Op::Gt)
    } else if t == "lt"@ {
        Some(Op::Lt)
    } else if t == "gte"@ {
        Some(Op::Gte)
    } else if t == "lte"@ {
        Some(Op::Lte)
    } else if t == "eq"@ {
        Some(Op::Eq)
    } else if t == "ne"@ {
        Some(Op::Ne)
    } else if t == "contains"@ {
        Some(Op::Contains)
    } else if t == "cron-match"@ {
        Some(Op::CronMatch)
    } else {
        None
    }
}

impl Op {
    /// The XML attribute value of this operator.
    pub fn as_str(&self) -> (r: &'static str)
        ensures
            r@ == op_text(*self),
    {
        match self {
            Op::Gt => "gt",
            Op::Lt => "lt",
            Op::Gte => "gte",
            Op::Lte => "lte",
            Op::Eq => "eq",
            Op::Ne => "ne",
            Op::Contains => "contains",
            Op::CronMatch => "cron-match",
        }
    }

    /// Parses an operator from its attribute text.
    pub fn from_str(s: &str) -> (r: Option<Op>)
        ensures
            r == op_from_text(s@),
    {
        if str_eq(s, "gt") {
            Some(Op::Gt)
        } else if str_eq(s, "lt") {
            Some(Op::Lt)
        } else if str_eq(s, "gte") {
            Some(Op::Gte)
        } else if str_eq(s, "lte") {
            Some(Op::Lte)
        } else if str_eq(s, "eq") {
            Some(Op::Eq)
        } else if str_eq(s, "ne") {
            Some(Op::Ne)
        } else if str_eq(s, "contains") {
            Some(Op::Contains)
        } else if str_eq(s, "cron-match") {
            Some(Op::CronMatch)
        } else {
            None
        }
    }
}

/// How the members of a condition list or group combine.
#[derive(Debug, Clone, Copy, PartialEq, Eq, Structural)]
pub enum MatchMode {
    All,
    Any,
}

/// The attribute text of a match mode.
pub open spec fn mode_text(m: MatchMode) -> Seq<char> {
    match m {
        MatchMode::All => "all"@,
        MatchMode::Any => "any"@,
    }
}

/// The match mode named by an attribute text, if any.
pub open spec fn mode_from_text(t: Seq<char>) -> Option<MatchMode> {
    if t == "all"@ {
        Some(MatchMode::All)
    } else if t == "any"@ {
        Some(MatchMode::Any)
    } else {
        None
    }
}

impl MatchMode {
    /// The XML attribute value of this mode.
    pub fn as_str(&self) -> (r: &'static str)
        ensures
            r@ == mode_text(*self),
    {
        match self {
            MatchMode::All => "all",
            MatchMode::Any => "any",
        }
    }

    /// Parses a match mode from its attribute text.
    pub fn from_str(s: &str) -> (r: Option<MatchMode>)
        ensures
            r == mode_from_text(s@),
    {
        if str_eq(s, "all") {
            Some(MatchMode::All)
        } else if str_eq(s, "any") {
            Some(MatchMode::Any)
        } else {
            None
        }
    }

    /// The default mode, `all`.
    pub fn default_mode() -> (r: MatchMode)
        ensures
            r == MatchMode::All,
    {
        MatchMode::All
    }
}

/// Outcome of a rule run.
#[derive(Debug, Clone, Copy, PartialEq, Eq, Structural)]
pub enum RuleStatus {
    Succeeded,
    Error,
    Skipped,
}

/// The attribute text of a rule status.
pub open spec fn status_text(s: RuleStatus) -> Seq<char> {
    match s {
        RuleStatus::Succeeded => "ok"@,
        RuleStatus::Error => "error"@,
        RuleStatus::Skipped => "skipped"@,
    }
}

/// The rule status named by an attribute text, if any.
pub open spec fn status_from_text(t: Seq<char>) -> Option<RuleStatus> {
    if t == "ok"@ {
        Some(RuleStatus::Succeeded)
    } else if t == "error"@ {
        Some(RuleStatus::Error)
    } else if t == "skipped"@ {
        Some(RuleStatus::Skipped)
    } else {
        None
    }
}

impl RuleStatus {
    /// The XML attribute value of this status.
    pub fn as_str(&self) -> (r: &'static str)
        ensures
            r@ == status_text(*self),
    {
        match self {
            RuleStatus::Succeeded => "ok",
            RuleStatus::Error => "error",
            RuleStatus::Skipped => "skipped",
        }
    }

    /// Parses a status from its attribute text.
    pub fn from_str(s: &str) -> (r: Option<RuleStatus>)
        ensures
            r == status_from_text(s@),
    {
        if str_eq(s, "ok") {
            Some(RuleStatus::Succeeded)
        } else if str_eq(s, "error") {
            Some(RuleStatus::Error)
        } else if str_eq(s, "skipped") {
            Some(RuleStatus::Skipped)
        } else {
            None
        }
    }
}


// ---------------------------------------------------------------------------
// Conditions and groups
// ---------------------------------------------------------------------------

/// A leaf predicate over one data field.
#[derive(Debug)]
pub struct Condition {
    /// Data field path, such as `temperature` or `time`.
    pub field: String,
    /// Comparison operator.
    pub op: Op,
    /// Value compared with (a cron expression for `cron-match`).
    pub value: String,
    /// Seconds for which the condition must hold without interruption.
    pub duration_seconds: Option<u32>,
}

/// The mathematical value of a condition.
pub struct ConditionView {
    pub field: Seq<char>,
    pub op: Op,
    pub value: Seq<char>,
    pub duration_seconds: Option<u32>,
}

impl View for Condition {
    type V = ConditionView;

    open spec fn view(&self) -> ConditionView {
        ConditionView {
            field: self.field@,
            op: self.op,
            value: self.value@,
            duration_seconds: self.duration_seconds,
        }
    }
}

/// A group of conditions and nested groups.
#[derive(Debug)]
pub struct ConditionGroup {
    /// How members combine: all (AND) or any (OR).
    pub match_mode: MatchMode,
    /// Conditions of the group.
    pub conditions: Vec<Condition>,
    /// Nested groups.
    pub groups: Vec<ConditionGroup>,
}

/// The mathematical value of a condition group.
pub struct GroupView {
    pub match_mode: MatchMode,
    pub conditions: Seq<ConditionView>,
    pub groups: Seq<GroupView>,
}

/// The views of a list of conditions.
pub open spec fn conditions_view(cs: Seq<Condition>) -> Seq<ConditionView> {
    cs.map_values(|c: Condition| c@)
}

/// The view of a group.
pub open spec fn group_view(g: ConditionGroup) -> GroupView
    decreases g, 1nat,
{
    GroupView {
        match_mode: g.match_mode,
        conditions: conditions_view(g.conditions@),
        groups: groups_view(g.groups@),
    }
}

/// The views of a list of groups.
pub open spec fn groups_view(gs: Seq<ConditionGroup>) -> Seq<GroupView>
    decreases gs, 0nat,
{
    if gs.len() == 0 {
        Seq::empty()
    } else {
        groups_view(gs.drop_last()).push(group_view(gs.last()))
    }
}

impl View for ConditionGroup {
    type V = GroupView;

    open spec fn view(&self) -> GroupView {
        group_view(*self)
    }
}

/// The self-closing `<condition .../>` element of a condition, after `indent`.
pub open spec fn condition_xml(c: ConditionView, indent: Seq<char>) -> Seq<char> {
    indent + "<condition field=\""@ + escape_seq(c.field) + "\" op=\""@ + op_text(c.op)
        + "\" value=\""@ + escape_seq(c.value) + "\""@ + match c.duration_seconds {
        Some(d) => " duration-seconds=\""@ + decimal(d as nat) + "\""@,
        None => Seq::<char>::empty(),
    } + " />"@
}

/// The newline-led elements of a list of conditions.
pub open spec fn conditions_xml(cs: Seq<ConditionView>, indent: Seq<char>) -> Seq<char>
    decreases cs.len(),
{
    if cs.len() == 0 {
        Seq::empty()
    } else {
        conditions_xml(cs.drop_last(), indent) + "\n"@ + condition_xml(cs.last(), indent)
    }
}

/// The `<group>` element of a group, after `indent`, members indented four more spaces.
pub open spec fn group_xml(g: GroupView, indent: Seq<char>) -> Seq<char>
    decreases g, 1nat,
{
    let child = indent + "    "@;
    indent + "<group match=\""@ + mode_text(g.match_mode) + "\">"@ + conditions_xml(g.conditions, child)
        + groups_xml(g.groups, child) + "\n"@ + indent + "</group>"@
}

/// The newline-led elements of a list of groups.
pub open spec fn groups_xml(gs: Seq<GroupView>, indent: Seq<char>) -> Seq<char>
    decreases gs, 0nat,
{
    if gs.len() == 0 {
        Seq::empty()
    } else {
        groups_xml(gs.drop_last(), indent) + "\n"@ + group_xml(gs.last(), indent)
    }
}

/// Appends `t` to `s`.
pub fn push(s: &mut String, t: &str)
    ensures
        final(s)@ == old(s)@ + t@,
{
    s.append(t);
}

/// A copy of a string, equal in text.
pub fn copy_string(s: &String) -> (r: String)
    ensures
        r@ == s@,
{
    s.clone()
}

fn copy_opt_string(s: &Option<String>) -> (r: Option<String>)
    ensures
        r.is_some() == s.is_some(),
        r.is_some() ==> r.unwrap()@ == s.unwrap()@,
{
    match s {
        Some(t) => Some(t.clone()),
        None => None,
    }
}

impl Clone for Condition {
    fn clone(&self) -> (r: Self)
        ensures
            r@ == self@,
    {
        Condition {
            field: self.field.clone(),
            op: self.op,
            value: self.value.clone(),
            duration_seconds: self.duration_seconds,
        }
    }
}

/// A copy of a list of conditions with the same views.
pub fn copy_conditions(cs: &Vec<Condition>) -> (r: Vec<Condition>)
    ensures
        conditions_view(r@) == conditions_view(cs@),
{
    let mut out: Vec<Condition> = Vec::new();
    let mut i: usize = 0;
    while i < cs.len()
        invariant
            i <= cs@.len(),
            out@.len() == i,
            forall|j: int| 0 <= j < i ==> out@[j]@ == cs@[j]@,
        decreases cs.len() - i,
    {
        out.push(cs[i].clone());
        i = i + 1;
    }
    proof {
        assert(conditions_view(out@) =~= conditions_view(cs@));
    }
    out
}

impl ConditionGroup {
    /// A deep copy of the group, equal in view.
    pub fn deep_copy(&self) -> (r: ConditionGroup)
        ensures
            r@ == self@,
        decreases self,
    {
        let conditions = copy_conditions(&self.conditions);
        let mut groups: Vec<ConditionGroup> = Vec::new();
        let mut i: usize = 0;
        while i < self.groups.len()
            invariant
                i <= self.groups@.len(),
                groups_view(groups@) == groups_view(self.groups@.take(i as int)),
            decreases self.groups.len() - i,
        {
            proof {
                assert(decreases_to!(self => self.groups@[i as int]));
            }
            let g = self.groups[i].deep_copy();
            let ghost prev = groups@;
            groups.push(g);
            proof {
                let t = self.groups@.take(i + 1);
                assert(t.drop_last() =~= self.groups@.take(i as int));
                assert(groups@.drop_last() =~= prev);
                assert(groups_view(groups@) =~= groups_view(t));
            }
            i = i + 1;
        }
        proof {
            assert(self.groups@.take(self.groups@.len() as int) =~= self.groups@);
        }
        ConditionGroup { match_mode: self.match_mode, conditions, groups }
    }
}

impl Clone for ConditionGroup {
    fn clone(&self) -> (r: Self)
        ensures
            r@ == self@,
    {
        self.deep_copy()
    }
}

impl Condition {
    /// Serialises the condition as a self-closing XML element.
    pub fn to_xml_element(&self, indent: &str) -> (r: String)
        ensures
            r@ == condition_xml(self@, indent@),
    {
        let mut s = String::new();
        push(&mut s, indent);
        push(&mut s, "<condition field=\"");
        let f = xml_escape(self.field.as_str());
        push(&mut s, f.as_str());
        push(&mut s, "\" op=\"");
        push(&mut s, self.op.as_str());
        push(&mut s, "\" value=\"");
        let v = xml_escape(self.value.as_str());
        push(&mut s, v.as_str());
        push(&mut s, "\"");
        match self.duration_seconds {
            Some(d) => {
                push(&mut s, " duration-seconds=\"");
                let ds = u64_to_string(d as u64);
                push(&mut s, ds.as_str());
                push(&mut s, "\"");
            },
            None => {},
        }
        push(&mut s, " />");
        proof {
            assert(s@ =~= condition_xml(self@, indent@));
        }
        s
    }
}

fn push_conditions(s: &mut String, cs: &Vec<Condition>, indent: &str)
    ensures
        final(s)@ == old(s)@ + conditions_xml(conditions_view(cs@), indent@),
{
    let mut i: usize = 0;
    while i < cs.len()
        invariant
            i <= cs@.len(),
            s@ == old(s)@ + conditions_xml(conditions_view(cs@.take(i as int)), indent@),
        decreases cs.len() - i,
    {
        push(s, "\n");
        let e = cs[i].to_xml_element(indent);
        push(s, e.as_str());
        proof {
            let t = cs@.take(i + 1);
            assert(conditions_view(t).drop_last() =~= conditions_view(cs@.take(i as int)));
            assert(conditions_view(t).last() == cs@[i as int]@);
            assert(s@ =~= old(s)@ + conditions_xml(conditions_view(t), indent@));
        }
        i = i + 1;
    }
    proof {
        assert(cs@.take(cs@.len() as int) =~= cs@);
    }
}

fn push_groups(s: &mut String, gs: &Vec<ConditionGroup>, indent: &str)
    ensures
        final(s)@ == old(s)@ + groups_xml(groups_view(gs@), indent@),
{
    let mut i: usize = 0;
    while i < gs.len()
        invariant
            i <= gs@.len(),
            s@ == old(s)@ + groups_xml(groups_view(gs@.take(i as int)), indent@),
        decreases gs.len() - i,
    {
        push(s, "\n");
        let e = gs[i].to_xml_element(indent);
        push(s, e.as_str());
        proof {
            let t = gs@.take(i + 1);
            assert(t.drop_last() =~= gs@.take(i as int));
            assert(t.last() == gs@[i as int]);
            let v = groups_view(t);
            assert(v.drop_last() =~= groups_view(gs@.take(i as int)));
            assert(v.last() == gs@[i as int]@);
            assert(s@ =~= old(s)@ + groups_xml(groups_view(t), indent@));
        }
        i = i + 1;
    }
    proof {
        assert(gs@.take(gs@.len() as int) =~= gs@);
    }
}

impl ConditionGroup {
    /// Serialises the group (and, recursively, its nested groups) as an XML element.
    pub fn to_xml_element(&self, indent: &str) -> (r: String)
        ensures
            r@ == group_xml(self@, indent@),
        decreases self,
    {
        let mut child = String::new();
        push(&mut child, indent);
        push(&mut child, "    ");
        let mut s = String::new();
        push(&mut s, indent);
        push(&mut s, "<group match=\"");
        push(&mut s, self.match_mode.as_str());
        push(&mut s, "\">");
        push_conditions(&mut s, &self.conditions, child.as_str());
        let ghost mid = s@;
        let mut i: usize = 0;
        while i < self.groups.len()
            invariant
                i <= self.groups@.len(),
                s@ == mid + groups_xml(groups_view(self.groups@.take(i as int)), child@),
            decreases self.groups.len() - i,
        {
            push(&mut s, "\n");
            proof {
                assert(decreases_to!(self => self.groups@[i as int]));
            }
            let e = self.groups[i].to_xml_element(child.as_str());
            push(&mut s, e.as_str());
            proof {
                let t = self.groups@.take(i + 1);
                assert(t.drop_last() =~= self.groups@.take(i as int));
                assert(t.last() == self.groups@[i as int]);
                let v = groups_view(t);
                assert(v.drop_last() =~= groups_view(self.groups@.take(i as int)));
                assert(v.last() == self.groups@[i as int]@);
                assert(s@ =~= mid + groups_xml(groups_view(t), child@));
            }
            i = i + 1;
        }
        proof {
            assert(self.groups@.take(self.groups@.len() as int) =~= self.groups@);
        }
        push(&mut s, "\n");
        push(&mut s, indent);
        push(&mut s, "</group>");
        proof {
            assert(s@ =~= group_xml(self@, indent@));
        }
        s
    }
}

// ---------------------------------------------------------------------------
// Rules
// ---------------------------------------------------------------------------

/// An automation rule.
#[derive(Debug)]
pub struct Rule {
    pub id: String,
    pub name: String,
    pub description: Option<String>,
    pub enabled: bool,
    /// The event source the rule listens to (`clock` for time-driven rules).
    pub source_id: String,
    /// How the top-level conditions and groups combine.
    pub match_mode: MatchMode,
    /// Seconds of data captured before the trigger.
    pub capture_pre_seconds: Option<u32>,
    /// The message (instruction) executed when the rule fires.
    pub message: String,
    pub timeout_seconds: u32,
    /// Delivery channel: `stdout`, `file` or `none`.
    pub delivery_channel: String,
    /// Delivery target (a file path for `file`).
    pub delivery_target: String,
    pub conditions: Vec<Condition>,
    pub groups: Vec<ConditionGroup>,
}

/// The text of an optional string.
pub open spec fn opt_view(s: Option<String>) -> Option<Seq<char>> {
    match s {
        Some(t) => Some(t@),
        None => None,
    }
}

/// The mathematical value of a rule.
pub struct RuleView {
    pub id: Seq<char>,
    pub name: Seq<char>,
    pub description: Option<Seq<char>>,
    pub enabled: bool,
    pub source_id: Seq<char>,
    pub match_mode: MatchMode,
    pub capture_pre_seconds: Option<u32>,
    pub message: Seq<char>,
    pub timeout_seconds: u32,
    pub delivery_channel: Seq<char>,
    pub delivery_target: Seq<char>,
    pub conditions: Seq<ConditionView>,
    pub groups: Seq<GroupView>,
}

impl View for Rule {
    type V = RuleView;

    open spec fn view(&self) -> RuleView {
        RuleView {
            id: self.id@,
            name: self.name@,
            description: opt_view(self.description),
            enabled: self.enabled,
            source_id: self.source_id@,
            match_mode: self.match_mode,
            capture_pre_seconds: self.capture_pre_seconds,
            message: self.message@,
            timeout_seconds: self.timeout_seconds,
            delivery_channel: self.delivery_channel@,
            delivery_target: self.delivery_target@,
            conditions: conditions_view(self.conditions@),
            groups: groups_view(self.groups@),
        }
    }
}

/// A rule with every field at its default, but for the four given ones.
pub open spec fn new_rule_view(id: Seq<char>, name: Seq<char>, source_id: Seq<char>, message: Seq<char>) -> RuleView {
    RuleView {
        id,
        name,
        description: None,
        enabled: true,
        source_id,
        match_mode: MatchMode::All,
        capture_pre_seconds: None,
        message,
        timeout_seconds: 300,
        delivery_channel: "none"@,
        delivery_target: Seq::empty(),
        conditions: Seq::empty(),
        groups: Seq::empty(),
    }
}

/// `attr="text"` led by a space, the text escaped.
pub open spec fn attr_xml(name: Seq<char>, text: Seq<char>) -> Seq<char> {
    " "@ + name + "=\""@ + escape_seq(text) + "\""@
}

/// `attr="n"` led by a space, for a number.
pub open spec fn num_attr_xml(name: Seq<char>, n: nat) -> Seq<char> {
    " "@ + name + "=\""@ + decimal(n) + "\""@
}

/// The opening part of a rule element, up to (not including) its closing.
pub open spec fn rule_head_xml(r: RuleView, indent: Seq<char>) -> Seq<char> {
    indent + "<rule"@ + attr_xml("id"@, r.id) + attr_xml("name"@, r.name)
        + match r.description {
        Some(d) => attr_xml("description"@, d),
        None => Seq::<char>::empty(),
    } + (if !r.enabled { " enabled=\"false\""@ } else { Seq::<char>::empty() })
        + attr_xml("source-id"@, r.source_id) + " match=\""@ + mode_text(r.match_mode) + "\""@
        + match r.capture_pre_seconds {
        Some(c) => num_attr_xml("capture-pre-seconds"@, c as nat),
        None => Seq::<char>::empty(),
    } + attr_xml("message"@, r.message) + num_attr_xml("timeout-seconds"@, r.timeout_seconds as nat)
        + (if r.delivery_channel != "none"@ { attr_xml("delivery-channel"@, r.delivery_channel) } else { Seq::<char>::empty() })
        + (if r.delivery_target.len() > 0 { attr_xml("delivery-target"@, r.delivery_target) } else { Seq::<char>::empty() })
}

/// The XML element of a rule at `indent`; members indented four more spaces.
pub open spec fn rule_xml(r: RuleView, indent: Seq<char>) -> Seq<char> {
    rule_head_xml(r, indent) + if r.conditions.len() == 0 && r.groups.len() == 0 {
        " />"@
    } else {
        ">"@ + conditions_xml(r.conditions, indent + "    "@) + groups_xml(r.groups, indent + "    "@) + "\n"@
            + indent + "</rule>"@
    }
}

/// Appends an escaped attribute.
pub(crate) fn push_attr(s: &mut String, name: &str, text: &str)
    ensures
        final(s)@ == old(s)@ + attr_xml(name@, text@),
{
    push(s, " ");
    push(s, name);
    push(s, "=\"");
    let e = xml_escape(text);
    push(s, e.as_str());
    push(s, "\"");
    proof {
        assert(final(s)@ =~= old(s)@ + attr_xml(name@, text@));
    }
}

/// Appends a numeric attribute.
pub(crate) fn push_num_attr(s: &mut String, name: &str, n: u64)
    ensures
        final(s)@ == old(s)@ + num_attr_xml(name@, n as nat),
{
    push(s, " ");
    push(s, name);
    push(s, "=\"");
    let e = u64_to_string(n);
    push(s, e.as_str());
    push(s, "\"");
    proof {
        assert(final(s)@ =~= old(s)@ + num_attr_xml(name@, n as nat));
    }
}

/// Creates a string holding the text of a literal.
pub fn text_of(t: &str) -> (r: String)
    ensures
        r@ == t@,
{
    String::from_str(t)
}

impl Rule {
    /// A new rule: enabled, `all` match, 300 s timeout, delivery `none`, no conditions.
    pub fn new(id: String, name: String, source_id: String, message: String) -> (r: Rule)
        ensures
            r@ == new_rule_view(id@, name@, source_id@, message@),
    {
        let r = Rule {
            id,
            name,
            description: None,
            enabled: true,
            source_id,
            match_mode: MatchMode::All,
            capture_pre_seconds: None,
            message,
            timeout_seconds: 300,
            delivery_channel: text_of("none"),
            delivery_target: String::new(),
            conditions: Vec::new(),
            groups: Vec::new(),
        };
        proof {
            assert(r@.conditions =~= Seq::<ConditionView>::empty());
            assert(r@.groups =~= Seq::<GroupView>::empty());
            assert(r@ == new_rule_view(id@, name@, source_id@, message@));
        }
        r
    }

    /// Whether the rule is driven by the built-in clock source.
    pub fn is_clock_rule(&self) -> (b: bool)
        ensures
            b == (self.source_id@ == "clock"@),
    {
        str_eq(self.source_id.as_str(), "clock")
    }

    fn head_string(&self, indent: &str) -> (r: String)
        ensures
            r@ == rule_head_xml(self@, indent@),
    {
        let mut s = String::new();
        push(&mut s, indent);
        proof { assert(s@ =~= indent@); }
        push(&mut s, "<rule");
        push_attr(&mut s, "id", self.id.as_str());
        push_attr(&mut s, "name", self.name.as_str());
        let ghost p1 = s@;
        match &self.description {
            Some(d) => push_attr(&mut s, "description", d.as_str()),
            None => { proof { assert(s@ =~= p1 + Seq::<char>::empty()); } },
        }
        let ghost p2 = s@;
        if !self.enabled {
            push(&mut s, " enabled=\"false\"");
        } else {
            proof { assert(s@ =~= p2 + Seq::<char>::empty()); }
        }
        push_attr(&mut s, "source-id", self.source_id.as_str());
        push(&mut s, " match=\"");
        push(&mut s, self.match_mode.as_str());
        push(&mut s, "\"");
        let ghost p3 = s@;
        match self.capture_pre_seconds {
            Some(c) => push_num_attr(&mut s, "capture-pre-seconds", c as u64),
            None => { proof { assert(s@ =~= p3 + Seq::<char>::empty()); } },
        }
        push_attr(&mut s, "message", self.message.as_str());
        push_num_attr(&mut s, "timeout-seconds", self.timeout_seconds as u64);
        let ghost p4 = s@;
        if !str_eq(self.delivery_channel.as_str(), "none") {
            push_attr(&mut s, "delivery-channel", self.delivery_channel.as_str());
        } else {
            proof { assert(s@ =~= p4 + Seq::<char>::empty()); }
        }
        let ghost p5 = s@;
        if self.delivery_target.as_str().unicode_len() > 0 {
            push_attr(&mut s, "delivery-target", self.delivery_target.as_str());
        } else {
            proof { assert(s@ =~= p5 + Seq::<char>::empty()); }
        }
        s
    }

    fn to_xml_element_with_indent(&self, indent: &str) -> (r: String)
        ensures
            r@ == rule_xml(self@, indent@),
    {
        let mut child = String::new();
        push(&mut child, indent);
        push(&mut child, "    ");
        let mut s = self.head_string(indent);
        if self.conditions.len() == 0 && self.groups.len() == 0 {
            push(&mut s, " />");
        } else {
            push(&mut s, ">");
            push_conditions(&mut s, &self.conditions, child.as_str());
            push_groups(&mut s, &self.groups, child.as_str());
            push(&mut s, "\n");
            push(&mut s, indent);
            push(&mut s, "</rule>");
        }
        proof {
            assert(s@ =~= rule_xml(self@, indent@));
        }
        s
    }

    /// Serialises the rule as an XML element indented four spaces.
    pub fn to_xml_element(&self) -> (r: String)
        ensures
            r@ == rule_xml(self@, "    "@),
    {
        self.to_xml_element_with_indent("    ")
    }

    /// Serialises the rule as a removal delta element.
    pub fn to_remove_xml_element(&self) -> (r: String)
        ensures
            r@ == "    <rule"@ + attr_xml("id"@, self.id@) + " x:override=\"remove\" />"@,
    {
        let mut s = text_of("    <rule");
        push_attr(&mut s, "id", self.id.as_str());
        push(&mut s, " x:override=\"remove\" />");
        s
    }
}

/// A copy of a list of groups with the same views.
pub fn copy_groups(gs: &Vec<ConditionGroup>) -> (r: Vec<ConditionGroup>)
    ensures
        groups_view(r@) == groups_view(gs@),
{
    let mut out: Vec<ConditionGroup> = Vec::new();
    let mut i: usize = 0;
    while i < gs.len()
        invariant
            i <= gs@.len(),
            groups_view(out@) == groups_view(gs@.take(i as int)),
        decreases gs.len() - i,
    {
        let g = gs[i].deep_copy();
        let ghost prev = out@;
        out.push(g);
        proof {
            let t = gs@.take(i + 1);
            assert(t.drop_last() =~= gs@.take(i as int));
            assert(out@.drop_last() =~= prev);
        }
        i = i + 1;
    }
    proof {
        assert(gs@.take(gs@.len() as int) =~= gs@);
    }
    out
}

impl Clone for Rule {
    fn clone(&self) -> (r: Self)
        ensures
            r@ == self@,
    {
        Rule {
            id: self.id.clone(),
            name: self.name.clone(),
            description: copy_opt_string(&self.description),
            enabled: self.enabled,
            source_id: self.source_id.clone(),
            match_mode: self.match_mode,
            capture_pre_seconds: self.capture_pre_seconds,
            message: self.message.clone(),
            timeout_seconds: self.timeout_seconds,
            delivery_channel: self.delivery_channel.clone(),
            delivery_target: self.delivery_target.clone(),
            conditions: copy_conditions(&self.conditions),
            groups: copy_groups(&self.groups),
        }
    }
}

impl Default for Rule {
    fn default() -> (r: Rule)
        ensures
            r@ == new_rule_view(Seq::empty(), Seq::empty(), "clock"@, Seq::empty()),
    {
        Rule::new(String::new(), String::new(), text_of("clock"), String::new())
    }
}

// ---------------------------------------------------------------------------
// Patches
// ---------------------------------------------------------------------------

/// An update of some fields of a rule; `None` leaves a field as it is.
#[derive(Debug)]
pub struct RulePatch {
    pub name: Option<String>,
    /// `Some(None)` clears the description.
    pub description: Option<Option<String>>,
    pub enabled: Option<bool>,
    pub message: Option<String>,
    pub timeout_seconds: Option<u32>,
    pub delivery_channel: Option<String>,
    pub delivery_target: Option<String>,
    pub conditions: Option<Vec<Condition>>,
    pub groups: Option<Vec<ConditionGroup>>,
}

/// The mathematical value of a patch.
pub struct PatchView {
    pub name: Option<Seq<char>>,
    pub description: Option<Option<Seq<char>>>,
    pub enabled: Option<bool>,
    pub message: Option<Seq<char>>,
    pub timeout_seconds: Option<u32>,
    pub delivery_channel: Option<Seq<char>>,
    pub delivery_target: Option<Seq<char>>,
    pub conditions: Option<Seq<ConditionView>>,
    pub groups: Option<Seq<GroupView>>,
}

impl View for RulePatch {
    type V = PatchView;

    open spec fn view(&self) -> PatchView {
        PatchView {
            name: opt_view(self.name),
            description: match self.description {
                Some(d) => Some(opt_view(d)),
                None => None,
            },
            enabled: self.enabled,
            message: opt_view(self.message),
            timeout_seconds: self.timeout_seconds,
            delivery_channel: opt_view(self.delivery_channel),
            delivery_target: opt_view(self.delivery_target),
            conditions: match self.conditions {
                Some(cs) => Some(conditions_view(cs@)),
                None => None,
            },
            groups: match self.groups {
                Some(gs) => Some(groups_view(gs@)),
                None => None,
            },
        }
    }
}

/// The patch that changes nothing.
pub open spec fn empty_patch() -> PatchView {
    PatchView {
        name: None,
        description: None,
        enabled: None,
        message: None,
        timeout_seconds: None,
        delivery_channel: None,
        delivery_target: None,
        conditions: None,
        groups: None,
    }
}

/// `o` if it is set, otherwise `d`.
pub open spec fn or_keep<T>(o: Option<T>, d: T) -> T {
    match o {
        Some(v) => v,
        None => d,
    }
}

/// A rule with a patch applied.
pub open spec fn patched(r: RuleView, p: PatchView) -> RuleView {
    RuleView {
        name: or_keep(p.name, r.name),
        description: or_keep(p.description, r.description),
        enabled: or_keep(p.enabled, r.enabled),
        message: or_keep(p.message, r.message),
        timeout_seconds: or_keep(p.timeout_seconds, r.timeout_seconds),
        delivery_channel: or_keep(p.delivery_channel, r.delivery_channel),
        delivery_target: or_keep(p.delivery_target, r.delivery_target),
        conditions: or_keep(p.conditions, r.conditions),
        groups: or_keep(p.groups, r.groups),
        ..r
    }
}

impl RulePatch {
    /// The patch that changes nothing.
    pub fn new() -> (p: RulePatch)
        ensures
            p@ == empty_patch(),
    {
        RulePatch {
            name: None,
            description: None,
            enabled: None,
            message: None,
            timeout_seconds: None,
            delivery_channel: None,
            delivery_target: None,
            conditions: None,
            groups: None,
        }
    }
}

impl Default for RulePatch {
    fn default() -> (p: RulePatch)
        ensures
            p@ == empty_patch(),
    {
        RulePatch::new()
    }
}

impl Rule {
    /// Applies a patch: every field the patch sets is replaced, the others stay.
    pub fn apply_patch(&mut self, patch: RulePatch)
        ensures
            final(self)@ == patched(old(self)@, patch@),
    {
        let RulePatch { name, description, enabled, message, timeout_seconds, delivery_channel, delivery_target, conditions, groups } = patch;
        if let Some(v) = name {
            self.name = v;
        }
        if let Some(v) = description {
            self.description = v;
        }
        if let Some(v) = enabled {
            self.enabled = v;
        }
        if let Some(v) = message {
            self.message = v;
        }
        if let Some(v) = timeout_seconds {
            self.timeout_seconds = v;
        }
        if let Some(v) = delivery_channel {
            self.delivery_channel = v;
        }
        if let Some(v) = delivery_target {
            self.delivery_target = v;
        }
        if let Some(v) = conditions {
            self.conditions = v;
        }
        if let Some(v) = groups {
            self.groups = v;
        }
    }

    /// Serialises a patch of this rule as a merge delta element.
    pub fn to_merge_xml_element(&self, patch: &RulePatch) -> (r: String)
        ensures
            r@ == rule_merge_xml(self.id@, patch@),
    {
        rule_merge_xml_element(self.id.as_str(), patch)
    }
}

/// The opening part of a merge delta element for a rule id and a patch.
pub open spec fn rule_merge_head_xml(id: Seq<char>, p: PatchView) -> Seq<char> {
    "    <rule"@ + attr_xml("id"@, id) + " x:override=\"merge\""@
        + match p.name { Some(n) => attr_xml("name"@, n), None => Seq::<char>::empty() }
        + match p.description { Some(Some(d)) => attr_xml("description"@, d), _ => Seq::<char>::empty() }
        + match p.enabled { Some(false) => " enabled=\"false\""@, _ => Seq::<char>::empty() }
        + match p.message { Some(m) => attr_xml("message"@, m), None => Seq::<char>::empty() }
        + match p.timeout_seconds { Some(t) => num_attr_xml("timeout-seconds"@, t as nat), None => Seq::<char>::empty() }
        + match p.delivery_channel { Some(c) => attr_xml("delivery-channel"@, c), None => Seq::<char>::empty() }
        + match p.delivery_target { Some(t) => attr_xml("delivery-target"@, t), None => Seq::<char>::empty() }
}

/// The merge delta element (`x:override="merge"`) of a rule id and a patch.
pub open spec fn rule_merge_xml(id: Seq<char>, p: PatchView) -> Seq<char> {
    rule_merge_head_xml(id, p) + if p.conditions.is_none() && p.groups.is_none() {
        " />"@
    } else {
        ">"@ + match p.conditions {
            Some(cs) => conditions_xml(cs, "        "@),
            None => Seq::<char>::empty(),
        } + match p.groups {
            Some(gs) => groups_xml(gs, "        "@),
            None => Seq::<char>::empty(),
        } + "\n"@ + "    "@ + "</rule>"@
    }
}

fn merge_head(rule_id: &str, patch: &RulePatch) -> (r: String)
    ensures
        r@ == rule_merge_head_xml(rule_id@, patch@),
{
    let mut s = text_of("    <rule");
    push_attr(&mut s, "id", rule_id);
    push(&mut s, " x:override=\"merge\"");
    let ghost p0 = s@;
    match &patch.name {
        Some(n) => push_attr(&mut s, "name", n.as_str()),
        None => { proof { assert(s@ =~= p0 + Seq::<char>::empty()); } },
    }
    let ghost p1 = s@;
    match &patch.description {
        Some(Some(d)) => push_attr(&mut s, "description", d.as_str()),
        _ => { proof { assert(s@ =~= p1 + Seq::<char>::empty()); } },
    }
    let ghost p2 = s@;
    match patch.enabled {
        Some(false) => push(&mut s, " enabled=\"false\""),
        _ => { proof { assert(s@ =~= p2 + Seq::<char>::empty()); } },
    }
    let ghost p3 = s@;
    match &patch.message {
        Some(m) => push_attr(&mut s, "message", m.as_str()),
        None => { proof { assert(s@ =~= p3 + Seq::<char>::empty()); } },
    }
    let ghost p4 = s@;
    match patch.timeout_seconds {
        Some(t) => push_num_attr(&mut s, "timeout-seconds", t as u64),
        None => { proof { assert(s@ =~= p4 + Seq::<char>::empty()); } },
    }
    let ghost p5 = s@;
    match &patch.delivery_channel {
        Some(c) => push_attr(&mut s, "delivery-channel", c.as_str()),
        None => { proof { assert(s@ =~= p5 + Seq::<char>::empty()); } },
    }
    let ghost p6 = s@;
    match &patch.delivery_target {
        Some(t) => push_attr(&mut s, "delivery-target", t.as_str()),
        None => { proof { assert(s@ =~= p6 + Seq::<char>::empty()); } },
    }
    s
}

/// Serialises the merge delta element of a patch for the rule `rule_id`.
pub fn rule_merge_xml_element(rule_id: &str, patch: &RulePatch) -> (r: String)
    ensures
        r@ == rule_merge_xml(rule_id@, patch@),
{
    let mut s = merge_head(rule_id, patch);
    if patch.conditions.is_none() && patch.groups.is_none() {
        push(&mut s, " />");
    } else {
        push(&mut s, ">");
        let ghost q0 = s@;
        match &patch.conditions {
            Some(cs) => push_conditions(&mut s, cs, "        "),
            None => { proof { assert(s@ =~= q0 + Seq::<char>::empty()); } },
        }
        let ghost q1 = s@;
        match &patch.groups {
            Some(gs) => push_groups(&mut s, gs, "        "),
            None => { proof { assert(s@ =~= q1 + Seq::<char>::empty()); } },
        }
        push(&mut s, "\n");
        push(&mut s, "    ");
        push(&mut s, "</rule>");
    }
    s
}

// ---------------------------------------------------------------------------
// Rule sets
// ---------------------------------------------------------------------------

/// A set of rules.
#[derive(Debug)]
pub struct Rules {
    pub rules: Vec<Rule>,
}

/// The views of a list of rules.
pub open spec fn rules_view(rs: Seq<Rule>) -> Seq<RuleView> {
    rs.map_values(|r: Rule| r@)
}

/// The newline-led rule elements of a list of rules.
pub open spec fn rules_elements_xml(rs: Seq<RuleView>) -> Seq<char>
    decreases rs.len(),
{
    if rs.len() == 0 {
        Seq::empty()
    } else {
        rules_elements_xml(rs.drop_last()) + "\n"@ + rule_xml(rs.last(), "    "@)
    }
}

/// A `<Rules>` document with the given opening tag.
pub open spec fn rules_doc_xml(open_tag: Seq<char>, rs: Seq<RuleView>) -> Seq<char> {
    open_tag + rules_elements_xml(rs) + (if rs.len() > 0 { "\n"@ } else { Seq::<char>::empty() }) + "</Rules>"@
}

fn push_rules(s: &mut String, rs: &Vec<Rule>)
    ensures
        final(s)@ == old(s)@ + rules_elements_xml(rules_view(rs@)),
{
    let mut i: usize = 0;
    while i < rs.len()
        invariant
            i <= rs@.len(),
            s@ == old(s)@ + rules_elements_xml(rules_view(rs@.take(i as int))),
        decreases rs.len() - i,
    {
        push(s, "\n");
        let e = rs[i].to_xml_element();
        push(s, e.as_str());
        proof {
            let t = rs@.take(i + 1);
            assert(rules_view(t).drop_last() =~= rules_view(rs@.take(i as int)));
            assert(rules_view(t).last() == rs@[i as int]@);
            assert(s@ =~= old(s)@ + rules_elements_xml(rules_view(t)));
        }
        i = i + 1;
    }
    proof {
        assert(rs@.take(rs@.len() as int) =~= rs@);
    }
}

impl Rules {
    fn doc(&self, s: String) -> (r: String)
        ensures
            r@ == rules_doc_xml(s@, rules_view(self.rules@)),
    {
        let mut s = s;
        push_rules(&mut s, &self.rules);
        let ghost p = s@;
        if self.rules.len() > 0 {
            push(&mut s, "\n");
        } else {
            proof { assert(s@ =~= p + Seq::<char>::empty()); }
        }
        push(&mut s, "</Rules>");
        s
    }

    /// Serialises the whole rule set.
    pub fn to_xml(&self) -> (r: String)
        ensures
            r@ == rules_doc_xml("<Rules xmlns:x=\"/nop/schema/xdsl.xdef\">"@, rules_view(self.rules@)),
    {
        self.doc(text_of("<Rules xmlns:x=\"/nop/schema/xdsl.xdef\">"))
    }

    /// Serialises the rule set as a delta extending `extends_file`.
    pub fn to_delta_xml(&self, extends_file: &str) -> (r: String)
        ensures
            r@ == rules_doc_xml(
                "<Rules xmlns:x=\"/nop/schema/xdsl.xdef\""@ + attr_xml("x:extends"@, extends_file@) + ">"@,
                rules_view(self.rules@),
            ),
    {
        let mut s = text_of("<Rules xmlns:x=\"/nop/schema/xdsl.xdef\"");
        push_attr(&mut s, "x:extends", extends_file);
        push(&mut s, ">");
        self.doc(s)
    }
}

// ---------------------------------------------------------------------------
// Unescaping
// ---------------------------------------------------------------------------

/// The rules' attribute unescaping: `&amp;`, `&lt;`, `&gt;`, `&quot;`, `&apos;` replaced in turn.
pub open spec fn unescape_seq(s: Seq<char>) -> Seq<char> {
    replace_seq(
        replace_seq(
            replace_seq(replace_seq(replace_seq(s, "&amp;"@, "&"@), "&lt;"@, "<"@), "&gt;"@, ">"@),
            "&quot;"@,
            "\""@,
        ),
        "&apos;"@,
        "'"@,
    )
}

fn replace_in(s: Vec<char>, pat: &str, rep: &str) -> (r: Vec<char>)
    requires
        pat@.len() > 0,
    ensures
        r@ == replace_seq(s@, pat@, rep@),
{
    let p = chars_of(pat);
    let q = chars_of(rep);
    replace_chars(&s, &p, &q)
}

/// Undoes the XML escaping of an attribute value, one entity at a time in the order
/// `&amp;`, `&lt;`, `&gt;`, `&quot;`, `&apos;`.
pub fn xml_unescape(s: &str) -> (r: String)
    ensures
        r@ == unescape_seq(s@),
{
    proof {
        reveal_strlit("&amp;");
        reveal_strlit("&lt;");
        reveal_strlit("&gt;");
        reveal_strlit("&quot;");
        reveal_strlit("&apos;");
    }
    let v = chars_of(s);
    let v = replace_in(v, "&amp;", "&");
    let v = replace_in(v, "&lt;", "<");
    let v = replace_in(v, "&gt;", ">");
    let v = replace_in(v, "&quot;", "\"");
    let v = replace_in(v, "&apos;", "'");
    string_of(&v)
}

// ---------------------------------------------------------------------------
// Reading rules back
// ---------------------------------------------------------------------------

/// Why a rules or sources document could not be read.
#[derive(Debug, PartialEq, Eq)]
pub enum DocError {
    /// The XML reader failed, with its message.
    Xml(String),
    /// A condition without a valid `op`.
    InvalidOp,
    /// A source whose `type` is not known.
    InvalidSourceType(String),
    /// A source whose `format` is not known.
    InvalidFormat(String),
    /// A source whose `poll-interval-ms` is not a number.
    InvalidNumber(String),
    /// A source without an `id`.
    MissingId,
    /// A source without a `name`.
    MissingName,
}

/// The mathematical value of a document error.
pub enum DocErrorView {
    Xml(Seq<char>),
    InvalidOp,
    InvalidSourceType(Seq<char>),
    InvalidFormat(Seq<char>),
    InvalidNumber(Seq<char>),
    MissingId,
    MissingName,
}

impl View for DocError {
    type V = DocErrorView;

    open spec fn view(&self) -> DocErrorView {
        match self {
            DocError::Xml(m) => DocErrorView::Xml(m@),
            DocError::InvalidOp => DocErrorView::InvalidOp,
            DocError::InvalidSourceType(t) => DocErrorView::InvalidSourceType(t@),
            DocError::InvalidFormat(t) => DocErrorView::InvalidFormat(t@),
            DocError::InvalidNumber(t) => DocErrorView::InvalidNumber(t@),
            DocError::MissingId => DocErrorView::MissingId,
            DocError::MissingName => DocErrorView::MissingName,
        }
    }
}

/// A rule with one attribute read (the value unescaped first).
pub open spec fn rule_set_attr(r: RuleView, key: Seq<char>, raw: Seq<char>) -> RuleView {
    let v = unescape_seq(raw);
    if key == "id"@ {
        RuleView { id: v, ..r }
    } else if key == "name"@ {
        RuleView { name: v, ..r }
    } else if key == "description"@ {
        RuleView { description: Some(v), ..r }
    } else if key == "enabled"@ {
        RuleView { enabled: v != "false"@, ..r }
    } else if key == "source-id"@ {
        RuleView { source_id: v, ..r }
    } else if key == "match"@ {
        RuleView { match_mode: or_keep(mode_from_text(v), MatchMode::All), ..r }
    } else if key == "capture-pre-seconds"@ {
        RuleView {
            capture_pre_seconds: match parse_unsigned(v, u32::MAX as nat) {
                Some(n) => Some(n as u32),
                None => None,
            },
            ..r
        }
    } else if key == "message"@ {
        RuleView { message: v, ..r }
    } else if key == "timeout-seconds"@ {
        RuleView {
            timeout_seconds: match parse_unsigned(v, u32::MAX as nat) {
                Some(n) => n as u32,
                None => 300,
            },
            ..r
        }
    } else if key == "delivery-channel"@ {
        RuleView { delivery_channel: v, ..r }
    } else if key == "delivery-target"@ {
        RuleView { delivery_target: v, ..r }
    } else {
        r
    }
}

/// The rule a tag's attributes describe, the others at their defaults.
pub open spec fn rule_from_attrs(attrs: Seq<AttrView>) -> RuleView
    decreases attrs.len(),
{
    if attrs.len() == 0 {
        new_rule_view(Seq::empty(), Seq::empty(), "clock"@, Seq::empty())
    } else {
        rule_set_attr(rule_from_attrs(attrs.drop_last()), attrs.last().0, attrs.last().1)
    }
}

/// The parts of a condition read so far: field, operator, value, duration.
pub type ConditionParts = (Seq<char>, Option<Op>, Seq<char>, Option<u32>);

/// The condition parts a tag's attributes give.
pub open spec fn condition_parts(attrs: Seq<AttrView>) -> ConditionParts
    decreases attrs.len(),
{
    if attrs.len() == 0 {
        (Seq::empty(), None, Seq::empty(), None)
    } else {
        let p = condition_parts(attrs.drop_last());
        let k = attrs.last().0;
        let v = unescape_seq(attrs.last().1);
        if k == "field"@ {
            (v, p.1, p.2, p.3)
        } else if k == "op"@ {
            (p.0, op_from_text(v), p.2, p.3)
        } else if k == "value"@ {
            (p.0, p.1, v, p.3)
        } else if k == "duration-seconds"@ {
            (p.0, p.1, p.2, match parse_unsigned(v, u32::MAX as nat) {
                Some(n) => Some(n as u32),
                None => None,
            })
        } else {
            p
        }
    }
}

/// The condition a tag's attributes describe; `None` when it has no valid `op`.
pub open spec fn condition_from_attrs(attrs: Seq<AttrView>) -> Option<ConditionView> {
    let p = condition_parts(attrs);
    match p.1 {
        Some(op) => Some(ConditionView { field: p.0, op, value: p.2, duration_seconds: p.3 }),
        None => None,
    }
}

/// The match mode a group tag's `match` attribute (read raw) gives; `all` by default.
pub open spec fn group_mode(attrs: Seq<AttrView>) -> MatchMode
    decreases attrs.len(),
{
    if attrs.len() == 0 {
        MatchMode::All
    } else if attrs.last().0 == "match"@ {
        or_keep(mode_from_text(attrs.last().1), MatchMode::All)
    } else {
        group_mode(attrs.drop_last())
    }
}

/// What a reader of a rules document holds between two tokens.
pub struct RulesReadView {
    /// Rules read completely.
    pub rules: Seq<RuleView>,
    /// The rule whose element is open.
    pub cur: Option<RuleView>,
    /// The groups whose elements are open, innermost last.
    pub stack: Seq<GroupView>,
    /// The error that stopped the reading.
    pub error: Option<DocErrorView>,
}

/// A group with one more condition.
pub open spec fn group_add_condition(g: GroupView, c: ConditionView) -> GroupView {
    GroupView { conditions: g.conditions.push(c), ..g }
}

/// A group with one more nested group.
pub open spec fn group_add_group(g: GroupView, n: GroupView) -> GroupView {
    GroupView { groups: g.groups.push(n), ..g }
}

/// The rule with one more condition.
pub open spec fn rule_add_condition(r: RuleView, c: ConditionView) -> RuleView {
    RuleView { conditions: r.conditions.push(c), ..r }
}

/// The rule with one more group.
pub open spec fn rule_add_group(r: RuleView, g: GroupView) -> RuleView {
    RuleView { groups: r.groups.push(g), ..r }
}

/// Closes the innermost open group, adding it to its parent (the next group out, or the rule).
pub open spec fn close_group(s: RulesReadView) -> RulesReadView {
    let g = s.stack.last();
    let rest = s.stack.drop_last();
    if rest.len() > 0 {
        RulesReadView { stack: rest.drop_last().push(group_add_group(rest.last(), g)), ..s }
    } else {
        RulesReadView { stack: rest, cur: Some(rule_add_condition_group(s.cur, g)), ..s }
    }
}

/// The open rule with one more group (the rule stays open).
pub open spec fn rule_add_condition_group(r: Option<RuleView>, g: GroupView) -> RuleView {
    rule_add_group(r.unwrap(), g)
}

/// One token of a rules document read.
pub open spec fn rules_step(s: RulesReadView, t: TokenView) -> RulesReadView {
    if s.error.is_some() {
        s
    } else {
        match t {
            TokenView::Tag(name, attrs, empty) => {
                if s.cur.is_none() {
                    if name == "rule"@ {
                        if empty {
                            RulesReadView { rules: s.rules.push(rule_from_attrs(attrs)), ..s }
                        } else {
                            RulesReadView { cur: Some(rule_from_attrs(attrs)), ..s }
                        }
                    } else {
                        s
                    }
                } else if !empty && name == "group"@ {
                    RulesReadView {
                        stack: s.stack.push(GroupView { match_mode: group_mode(attrs), conditions: Seq::empty(), groups: Seq::empty() }),
                        ..s
                    }
                } else if empty && name == "condition"@ {
                    match condition_from_attrs(attrs) {
                        Some(c) => if s.stack.len() > 0 {
                            RulesReadView { stack: s.stack.drop_last().push(group_add_condition(s.stack.last(), c)), ..s }
                        } else {
                            RulesReadView { cur: Some(rule_add_condition(s.cur.unwrap(), c)), ..s }
                        },
                        None => RulesReadView { error: Some(DocErrorView::InvalidOp), ..s },
                    }
                } else {
                    s
                }
            },
            TokenView::End(name) => {
                if s.cur.is_none() {
                    s
                } else if s.stack.len() > 0 {
                    if name == "group"@ { close_group(s) } else { s }
                } else if name == "rule"@ {
                    RulesReadView { rules: s.rules.push(s.cur.unwrap()), cur: None, ..s }
                } else {
                    s
                }
            },
            TokenView::Failure(m) => RulesReadView { error: Some(DocErrorView::Xml(m)), ..s },
            _ => s,
        }
    }
}

/// The reader state after a list of tokens.
pub open spec fn rules_read(ts: Seq<TokenView>) -> RulesReadView
    decreases ts.len(),
{
    if ts.len() == 0 {
        RulesReadView { rules: Seq::empty(), cur: None, stack: Seq::empty(), error: None }
    } else {
        rules_step(rules_read(ts.drop_last()), ts.last())
    }
}

/// Closes every open group and the open rule (what the end of the document does).
pub open spec fn rules_close_all(s: RulesReadView) -> Seq<RuleView>
    decreases s.stack.len(),
{
    if s.stack.len() > 0 {
        rules_close_all(close_group(s))
    } else {
        match s.cur {
            Some(r) => s.rules.push(r),
            None => s.rules,
        }
    }
}

/// The rules a token list describes, or the error that stops the reading.
pub open spec fn rules_from_tokens(ts: Seq<TokenView>) -> Result<Seq<RuleView>, DocErrorView> {
    let s = rules_read(ts);
    match s.error {
        Some(e) => Err(e),
        None => Ok(rules_close_all(s)),
    }
}

/// Sets one attribute of a rule, as `rule_set_attr` describes.
fn set_rule_attr(r: &mut Rule, key: &str, raw: &str)
    ensures
        final(r)@ == rule_set_attr(old(r)@, key@, raw@),
{
    let v = xml_unescape(raw);
    if str_eq(key, "id") {
        r.id = v;
    } else if str_eq(key, "name") {
        r.name = v;
    } else if str_eq(key, "description") {
        r.description = Some(v);
    } else if str_eq(key, "enabled") {
        r.enabled = !str_eq(v.as_str(), "false");
    } else if str_eq(key, "source-id") {
        r.source_id = v;
    } else if str_eq(key, "match") {
        r.match_mode = match MatchMode::from_str(v.as_str()) {
            Some(m) => m,
            None => MatchMode::All,
        };
    } else if str_eq(key, "capture-pre-seconds") {
        r.capture_pre_seconds = parse_u32(v.as_str());
    } else if str_eq(key, "message") {
        r.message = v;
    } else if str_eq(key, "timeout-seconds") {
        r.timeout_seconds = match parse_u32(v.as_str()) {
            Some(n) => n,
            None => 300,
        };
    } else if str_eq(key, "delivery-channel") {
        r.delivery_channel = v;
    } else if str_eq(key, "delivery-target") {
        r.delivery_target = v;
    }
}

/// The rule a tag's attributes describe.
fn rule_of_attrs(attrs: &Vec<XmlAttr>) -> (r: Rule)
    ensures
        r@ == rule_from_attrs(attrs_view(attrs@)),
{
    let mut r = Rule::default();
    let ghost av = attrs_view(attrs@);
    let mut i: usize = 0;
    proof {
        assert(av.take(0) =~= Seq::<AttrView>::empty());
    }
    while i < attrs.len()
        invariant
            i <= attrs@.len(),
            av == attrs_view(attrs@),
            r@ == rule_from_attrs(av.take(i as int)),
        decreases attrs.len() - i,
    {
        set_rule_attr(&mut r, attrs[i].0.as_str(), attrs[i].1.as_str());
        proof {
            let t = av.take(i + 1);
            assert(t.drop_last() =~= av.take(i as int));
            assert(t.last() == av[i as int]);
        }
        i = i + 1;
    }
    proof {
        assert(av.take(attrs@.len() as int) =~= av);
    }
    r
}

/// The condition a tag's attributes describe; `None` when it has no valid `op`.
fn condition_of_attrs(attrs: &Vec<XmlAttr>) -> (r: Option<Condition>)
    ensures
        match r {
            Some(c) => condition_from_attrs(attrs_view(attrs@)) == Some(c@),
            None => condition_from_attrs(attrs_view(attrs@)) is None,
        },
{
    let ghost av = attrs_view(attrs@);
    let mut field = String::new();
    let mut op: Option<Op> = None;
    let mut value = String::new();
    let mut duration: Option<u32> = None;
    let mut i: usize = 0;
    proof {
        assert(av.take(0) =~= Seq::<AttrView>::empty());
    }
    while i < attrs.len()
        invariant
            i <= attrs@.len(),
            av == attrs_view(attrs@),
            condition_parts(av.take(i as int)) == (field@, op, value@, duration),
        decreases attrs.len() - i,
    {
        let key = attrs[i].0.as_str();
        let v = xml_unescape(attrs[i].1.as_str());
        if str_eq(key, "field") {
            field = v;
        } else if str_eq(key, "op") {
            op = Op::from_str(v.as_str());
        } else if str_eq(key, "value") {
            value = v;
        } else if str_eq(key, "duration-seconds") {
            duration = parse_u32(v.as_str());
        }
        proof {
            let t = av.take(i + 1);
            assert(t.drop_last() =~= av.take(i as int));
            assert(t.last() == av[i as int]);
        }
        i = i + 1;
    }
    proof {
        assert(av.take(attrs@.len() as int) =~= av);
    }
    match op {
        Some(o) => Some(Condition { field, op: o, value, duration_seconds: duration }),
        None => None,
    }
}

/// The match mode of a group tag: its last `match` attribute read raw, `all` by default.
fn mode_of_attrs(attrs: &Vec<XmlAttr>) -> (m: MatchMode)
    ensures
        m == group_mode(attrs_view(attrs@)),
{
    let ghost av = attrs_view(attrs@);
    let mut m = MatchMode::All;
    let mut i: usize = 0;
    proof {
        assert(av.take(0) =~= Seq::<AttrView>::empty());
    }
    while i < attrs.len()
        invariant
            i <= attrs@.len(),
            av == attrs_view(attrs@),
            m == group_mode(av.take(i as int)),
        decreases attrs.len() - i,
    {
        if str_eq(attrs[i].0.as_str(), "match") {
            m = match MatchMode::from_str(attrs[i].1.as_str()) {
                Some(x) => x,
                None => MatchMode::All,
            };
        }
        proof {
            let t = av.take(i + 1);
            assert(t.drop_last() =~= av.take(i as int));
            assert(t.last() == av[i as int]);
        }
        i = i + 1;
    }
    proof {
        assert(av.take(attrs@.len() as int) =~= av);
    }
    m
}

/// What a rules reader holds between two tokens.
struct RulesReader {
    rules: Vec<Rule>,
    cur: Option<Rule>,
    stack: Vec<ConditionGroup>,
    error: Option<DocError>,
}

spec fn reader_view(r: &RulesReader) -> RulesReadView {
    RulesReadView {
        rules: rules_view(r.rules@),
        cur: match r.cur {
            Some(x) => Some(x@),
            None => None,
        },
        stack: groups_view(r.stack@),
        error: match r.error {
            Some(e) => Some(e@),
            None => None,
        },
    }
}

proof fn lemma_groups_view_push(gs: Seq<ConditionGroup>, g: ConditionGroup)
    ensures
        groups_view(gs.push(g)) == groups_view(gs).push(group_view(g)),
{
    assert(gs.push(g).drop_last() =~= gs);
}

proof fn lemma_groups_view_pop(gs: Seq<ConditionGroup>)
    requires
        gs.len() > 0,
    ensures
        groups_view(gs).drop_last() == groups_view(gs.drop_last()),
        groups_view(gs).last() == group_view(gs.last()),
        groups_view(gs).len() > 0,
{
}

spec fn reader_ok(r: &RulesReader) -> bool {
    r.stack@.len() > 0 ==> r.cur.is_some()
}

impl RulesReader {
    /// Closes the innermost open group into its parent.
    fn close_group(&mut self)
        requires
            old(self).stack@.len() > 0,
            reader_ok(old(self)),
        ensures
            reader_view(final(self)) == close_group(reader_view(old(self))),
            reader_ok(final(self)),
            final(self).stack@.len() == old(self).stack@.len() - 1,
    {
        let ghost s = reader_view(self);
        let ghost st0 = self.stack@;
        let g = self.stack.pop().unwrap();
        proof {
            lemma_groups_view_pop(st0);
            assert(groups_view(self.stack@) == s.stack.drop_last());
        }
        if self.stack.len() > 0 {
            let ghost st1 = self.stack@;
            let mut parent = self.stack.pop().unwrap();
            let ghost pg = parent.groups@;
            parent.groups.push(g);
            proof {
                lemma_groups_view_pop(st1);
                lemma_groups_view_push(pg, g);
                assert(groups_view(parent.groups@) == s.stack.drop_last().last().groups.push(g@));
            }
            self.stack.push(parent);
            proof {
                lemma_groups_view_push(st1.drop_last(), parent);
                assert(group_view(parent) == group_add_group(s.stack.drop_last().last(), g@));
                assert(groups_view(self.stack@) == s.stack.drop_last().drop_last().push(
                    group_add_group(s.stack.drop_last().last(), g@)));
                assert(reader_view(self) == close_group(s));
            }
        } else {
            let mut r = self.cur.take().unwrap();
            let ghost rg = r.groups@;
            r.groups.push(g);
            proof {
                lemma_groups_view_push(rg, g);
                assert(groups_view(r.groups@) == s.cur.unwrap().groups.push(g@));
                assert(r@ == rule_add_condition_group(s.cur, g@));
            }
            self.cur = Some(r);
            proof {
                assert(reader_view(self) == close_group(s));
            }
        }
    }

    /// Reads one token, as `rules_step` describes.
    fn step(&mut self, t: &XmlToken)
        requires
            reader_ok(old(self)),
        ensures
            reader_view(final(self)) == rules_step(reader_view(old(self)), t@),
            reader_ok(final(self)),
    {
        let ghost s = reader_view(self);
        if self.error.is_some() {
            return;
        }
        match t {
            XmlToken::Tag(name, attrs, empty) => {
                if self.cur.is_none() {
                    if str_eq(name.as_str(), "rule") {
                        let r = rule_of_attrs(attrs);
                        if *empty {
                            self.rules.push(r);
                            proof {
                                assert(rules_view(self.rules@) =~= s.rules.push(r@));
                            }
                        } else {
                            self.cur = Some(r);
                        }
                    }
                } else if !*empty && str_eq(name.as_str(), "group") {
                    let m = mode_of_attrs(attrs);
                    let g = ConditionGroup { match_mode: m, conditions: Vec::new(), groups: Vec::new() };
                    let ghost st0 = self.stack@;
                    self.stack.push(g);
                    proof {
                        assert(g@.conditions =~= Seq::<ConditionView>::empty());
                        assert(g@.groups =~= Seq::<GroupView>::empty());
                        lemma_groups_view_push(st0, g);
                    }
                } else if *empty && str_eq(name.as_str(), "condition") {
                    match condition_of_attrs(attrs) {
                        Some(c) => {
                            if self.stack.len() > 0 {
                                let ghost st0 = self.stack@;
                                let mut g = self.stack.pop().unwrap();
                                proof {
                                    lemma_groups_view_pop(st0);
                                }
                                g.conditions.push(c);
                                proof {
                                    assert(conditions_view(g.conditions@) =~= s.stack.last().conditions.push(c@));
                                }
                                self.stack.push(g);
                                proof {
                                    lemma_groups_view_push(st0.drop_last(), g);
                                    assert(groups_view(self.stack@) =~= s.stack.drop_last().push(
                                        group_add_condition(s.stack.last(), c@)));
                                }
                            } else {
                                let mut r = self.cur.take().unwrap();
                                r.conditions.push(c);
                                proof {
                                    assert(conditions_view(r.conditions@) =~= s.cur.unwrap().conditions.push(c@));
                                    assert(r@ == rule_add_condition(s.cur.unwrap(), c@));
                                }
                                self.cur = Some(r);
                            }
                        },
                        None => {
                            self.error = Some(DocError::InvalidOp);
                        },
                    }
                }
            },
            XmlToken::End(name) => {
                if self.cur.is_none() {
                } else if self.stack.len() > 0 {
                    if str_eq(name.as_str(), "group") {
                        self.close_group();
                    }
                } else if str_eq(name.as_str(), "rule") {
                    let r = self.cur.take().unwrap();
                    self.rules.push(r);
                    proof {
                        assert(rules_view(self.rules@) =~= s.rules.push(s.cur.unwrap()));
                    }
                }
            },
            XmlToken::Failure(m) => {
                self.error = Some(DocError::Xml(copy_string(m)));
            },
            _ => {},
        }
    }

    /// Closes every open group and the open rule, giving all rules read.
    fn close_all(self) -> (r: Vec<Rule>)
        requires
            reader_ok(&self),
        ensures
            rules_view(r@) == rules_close_all(reader_view(&self)),
        decreases self.stack@.len(),
    {
        let mut me = self;
        if me.stack.len() > 0 {
            me.close_group();
            return me.close_all();
        }
        let ghost s = reader_view(&me);
        match me.cur {
            Some(r) => {
                me.rules.push(r);
                proof {
                    assert(rules_view(me.rules@) =~= s.rules.push(s.cur.unwrap()));
                }
                me.rules
            },
            None => me.rules,
        }
    }
}

/// Reads the rules a token list describes, or the error that stops the reading.
pub fn rules_of_tokens(ts: &Vec<XmlToken>) -> (r: Result<Vec<Rule>, DocError>)
    ensures
        match r {
            Ok(rs) => rules_from_tokens(tokens_view(ts@)) == Ok::<Seq<RuleView>, DocErrorView>(rules_view(rs@)),
            Err(e) => rules_from_tokens(tokens_view(ts@)) == Err::<Seq<RuleView>, DocErrorView>(e@),
        },
{
    let ghost tv = tokens_view(ts@);
    let mut rd = RulesReader { rules: Vec::new(), cur: None, stack: Vec::new(), error: None };
    let mut i: usize = 0;
    proof {
        assert(tv.take(0) =~= Seq::<TokenView>::empty());
        assert(rules_view(rd.rules@) =~= Seq::<RuleView>::empty());
        assert(groups_view(rd.stack@) =~= Seq::<GroupView>::empty());
    }
    while i < ts.len()
        invariant
            i <= ts@.len(),
            tv == tokens_view(ts@),
            reader_ok(&rd),
            reader_view(&rd) == rules_read(tv.take(i as int)),
        decreases ts.len() - i,
    {
        rd.step(&ts[i]);
        proof {
            let t = tv.take(i + 1);
            assert(t.drop_last() =~= tv.take(i as int));
            assert(t.last() == ts@[i as int]@);
        }
        i = i + 1;
    }
    proof {
        assert(tv.take(ts@.len() as int) =~= tv);
    }
    let ghost s = reader_view(&rd);
    match rd.error {
        Some(e) => Err(e),
        None => {
            let rd2 = RulesReader { rules: rd.rules, cur: rd.cur, stack: rd.stack, error: None };
            proof {
                assert(reader_view(&rd2) == s);
            }
            Ok(rd2.close_all())
        },
    }
}

impl Rules {
    /// Reads a rules document: every `<rule>` element with its conditions and nested groups.
    /// The outside XML reader's events are named by `quick_xml_tokens`; the first of its errors,
    /// or a condition without a valid `op`, makes the result an error.
    pub fn from_xml(xml: &str) -> (r: Result<Rules, DocError>)
        ensures
            match r {
                Ok(rs) => rules_from_tokens(quick_xml_tokens(xml@, false)) == Ok::<Seq<RuleView>, DocErrorView>(rules_view(rs.rules@)),
                Err(e) => rules_from_tokens(quick_xml_tokens(xml@, false)) == Err::<Seq<RuleView>, DocErrorView>(e@),
            },
    {
        let ts = read_quick_xml(xml, false);
        match rules_of_tokens(&ts) {
            Ok(rules) => Ok(Rules { rules }),
            Err(e) => Err(e),
        }
    }
}


// ---------------------------------------------------------------------------
// Laws
// ---------------------------------------------------------------------------

/// Reading back the text of an operator gives the operator.
pub proof fn lemma_op_text_roundtrip(op: Op)
    ensures
        op_from_text(op_text(op)) == Some(op),
{
    reveal_strlit("gt");
    reveal_strlit("lt");
    reveal_strlit("gte");
    reveal_strlit("lte");
    reveal_strlit("eq");
    reveal_strlit("ne");
    reveal_strlit("contains");
    reveal_strlit("cron-match");
    match op {
        Op::Gt => {
        },
        Op::Lt => {
            assert("lt"@[0] != "gt"@[0]);
        },
        Op::Gte => {
            assert("gte"@.len() != "gt"@.len());
            assert("gte"@.len() != "lt"@.len());
        },
        Op::Lte => {
            assert("lte"@.len() != "gt"@.len());
            assert("lte"@.len() != "lt"@.len());
            assert("lte"@[0] != "gte"@[0]);
        },
        Op::Eq => {
            assert("eq"@[0] != "gt"@[0]);
            assert("eq"@[0] != "lt"@[0]);
            assert("eq"@.len() != "gte"@.len());
            assert("eq"@.len() != "lte"@.len());
        },
        Op::Ne => {
            assert("ne"@[0] != "gt"@[0]);
            assert("ne"@[0] != "lt"@[0]);
            assert("ne"@.len() != "gte"@.len());
            assert("ne"@.len() != "lte"@.len());
            assert("ne"@[0] != "eq"@[0]);
        },
        Op::Contains => {
            assert("contains"@.len() != "gt"@.len());
            assert("contains"@.len() != "lt"@.len());
            assert("contains"@.len() != "gte"@.len());
            assert("contains"@.len() != "lte"@.len());
            assert("contains"@.len() != "eq"@.len());
            assert("contains"@.len() != "ne"@.len());
        },
        Op::CronMatch => {
            assert("cron-match"@.len() != "gt"@.len());
            assert("cron-match"@.len() != "lt"@.len());
            assert("cron-match"@.len() != "gte"@.len());
            assert("cron-match"@.len() != "lte"@.len());
            assert("cron-match"@.len() != "eq"@.len());
            assert("cron-match"@.len() != "ne"@.len());
            assert("cron-match"@.len() != "contains"@.len());
        },
    }
}

/// Reading back the text of a match mode gives the mode.
pub proof fn lemma_mode_text_roundtrip(m: MatchMode)
    ensures
        mode_from_text(mode_text(m)) == Some(m),
{
    reveal_strlit("all");
    reveal_strlit("any");
    assert("any"@[1] != "all"@[1]);
}

/// Reading back the text of a rule status gives the status.
pub proof fn lemma_status_text_roundtrip(st: RuleStatus)
    ensures
        status_from_text(status_text(st)) == Some(st),
{
    reveal_strlit("ok");
    reveal_strlit("error");
    reveal_strlit("skipped");
    assert("error"@.len() != "ok"@.len() && "skipped"@.len() != "ok"@.len());
    assert("skipped"@.len() != "error"@.len());
}

/// A patch that sets nothing leaves a rule as it is.
pub proof fn lemma_empty_patch_keeps_rule(r: RuleView)
    ensures
        patched(r, empty_patch()) == r,
{
}

/// Applying the same patch twice is applying it once.
pub proof fn lemma_patch_idempotent(r: RuleView, p: PatchView)
    ensures
        patched(patched(r, p), p) == patched(r, p),
{
}

/// A patch never changes a rule's id, source or match mode.
pub proof fn lemma_patch_keeps_identity(r: RuleView, p: PatchView)
    ensures
        patched(r, p).id == r.id,
        patched(r, p).source_id == r.source_id,
        patched(r, p).match_mode == r.match_mode,
        patched(r, p).capture_pre_seconds == r.capture_pre_seconds,
{
}

// ---------------------------------------------------------------------------
// A rule as a task definition
// ---------------------------------------------------------------------------

/// The description of a rule's task: its name, or `Rule <id> execution` without one.
pub open spec fn task_description(id: Seq<char>, name: Seq<char>) -> Seq<char> {
    if name.len() == 0 { "Rule "@ + id + " execution"@ } else { name }
}

/// A rule as a task definition: one call of the task tool, with the rule's description and
/// message, run by the `schedule` agent.
pub open spec fn task_xdef_text(id: Seq<char>, name: Seq<char>, message: Seq<char>, session: Seq<char>, created_at_ms: i64) -> Seq<char> {
    "<?xml version=\"1.0\" encoding=\"UTF-8\"?>\n<task xmlns:x=\"/nop/schema/xdsl.xdef\" name=\"rule_"@ + escape_seq(id)
        + "\" source-session=\""@ + escape_seq(session) + "\" created-at-ms=\""@
        + crate::text::signed_decimal(created_at_ms as int) + "\">\n  <sequence name=\"main\">\n    <call-tool name=\""@
        + escape_seq(id) + "\" tool=\"Task\">\n      <input name=\"description\" type=\"string\">\n        <source xdef:value=\""@
        + escape_seq(task_description(id, name))
        + "\" />\n      </input>\n      <input name=\"prompt\" type=\"string\">\n        <source xdef:value=\""@
        + escape_seq(message)
        + "\" />\n      </input>\n      <input name=\"subagent_type\" type=\"string\">\n        <source xdef:value=\"schedule\" />\n      </input>\n    </call-tool>\n  </sequence>\n</task>\n"@
}

impl Rule {
    /// The rule as a task definition made at `created_at_ms` (see `task_xdef_text`).
    pub fn task_xdef_at(&self, source_session: &str, created_at_ms: i64) -> (r: String)
        ensures
            r@ == task_xdef_text(self.id@, self.name@, self.message@, source_session@, created_at_ms),
    {
        let description = if self.name.as_str().unicode_len() == 0 {
            let mut d = text_of("Rule ");
            push(&mut d, self.id.as_str());
            push(&mut d, " execution");
            d
        } else {
            copy_string(&self.name)
        };
        let mut xml = text_of("<?xml version=\"1.0\" encoding=\"UTF-8\"?>\n<task xmlns:x=\"/nop/schema/xdsl.xdef\" name=\"rule_");
        push(&mut xml, xml_escape(self.id.as_str()).as_str());
        push(&mut xml, "\" source-session=\"");
        push(&mut xml, xml_escape(source_session).as_str());
        push(&mut xml, "\" created-at-ms=\"");
        push(&mut xml, crate::text::i64_to_string(created_at_ms).as_str());
        push(&mut xml, "\">\n  <sequence name=\"main\">\n    <call-tool name=\"");
        push(&mut xml, xml_escape(self.id.as_str()).as_str());
        push(&mut xml, "\" tool=\"Task\">\n      <input name=\"description\" type=\"string\">\n        <source xdef:value=\"");
        push(&mut xml, xml_escape(description.as_str()).as_str());
        push(&mut xml, "\" />\n      </input>\n      <input name=\"prompt\" type=\"string\">\n        <source xdef:value=\"");
        push(&mut xml, xml_escape(self.message.as_str()).as_str());
        push(&mut xml, "\" />\n      </input>\n      <input name=\"subagent_type\" type=\"string\">\n        <source xdef:value=\"schedule\" />\n      </input>\n    </call-tool>\n  </sequence>\n</task>\n");
        proof {
            assert(description@ == task_description(self.id@, self.name@));
            assert(xml@ =~= task_xdef_text(self.id@, self.name@, self.message@, source_session@, created_at_ms));
        }
        xml
    }

    /// The rule as a task definition made now (see `task_xdef_at`).
    pub fn to_task_xdef(&self, source_session: &str) -> (r: String)
        ensures
            exists|ms: i64| r@ == #[trigger] task_xdef_text(self.id@, self.name@, self.message@, source_session@, ms),
    {
        let ms = crate::storage::now_millis();
        self.task_xdef_at(source_session, ms)
    }
}

// ---------------------------------------------------------------------------
// Reading back a written rules document
// ---------------------------------------------------------------------------

/// Whether a text holds no `&` (so that unescaping leaves it as it is).
pub open spec fn no_amp(s: Seq<char>) -> bool {
    forall|i: int| 0 <= i < s.len() ==> s[i] != '&'
}

proof fn lemma_unescape_no_amp(s: Seq<char>)
    requires
        no_amp(s),
    ensures
        unescape_seq(s) == s,
{
    reveal_strlit("&amp;");
    reveal_strlit("&lt;");
    reveal_strlit("&gt;");
    reveal_strlit("&quot;");
    reveal_strlit("&apos;");
    crate::text::lemma_replace_absent(s, "&amp;"@, "&"@);
    crate::text::lemma_replace_absent(s, "&lt;"@, "<"@);
    crate::text::lemma_replace_absent(s, "&gt;"@, ">"@);
    crate::text::lemma_replace_absent(s, "&quot;"@, "\""@);
    crate::text::lemma_replace_absent(s, "&apos;"@, "'"@);
}

/// A text without `&` reads back as it was written: unescaping (`&amp;` first) undoes escaping.
proof fn lemma_plain_reads_back(t: Seq<char>)
    requires
        no_amp(t),
    ensures
        unescape_seq(escape_seq(t)) == t,
{
    reveal_strlit("&apos;");
    reveal_strlit("&quot;");
    reveal_strlit("&gt;");
    reveal_strlit("&lt;");
    reveal_strlit("&amp;");
    reveal_strlit("'");
    reveal_strlit("\"");
    reveal_strlit(">");
    reveal_strlit("<");
    reveal_strlit("&");
    assert("&apos;"@ =~= entity_text(4) && "'"@ =~= seq![entity_char(4)]);
    assert("&quot;"@ =~= entity_text(3) && "\""@ =~= seq![entity_char(3)]);
    assert("&gt;"@ =~= entity_text(2) && ">"@ =~= seq![entity_char(2)]);
    assert("&lt;"@ =~= entity_text(1) && "<"@ =~= seq![entity_char(1)]);
    assert("&amp;"@ =~= entity_text(0) && "&"@ =~= seq![entity_char(0)]);
    let p0 = t.map_values(|c: char| escape_piece(c));
    crate::text::lemma_escape_render(t);
    crate::text::lemma_escape_pieces_ok(t);
    crate::text::lemma_replace_entity(p0, 0);
    let p1 = decode_pieces(p0, 0);
    assert(p1.len() == p0.len());
    assert forall|i: int| 0 <= i < p0.len() implies p1[i] == p0[i] by {
        assert(p0[i] == escape_piece(t[i]));
        assert(t[i] != '&');
    }
    assert(p1 =~= p0);
    crate::text::lemma_replace_entity(p1, 1);
    let p2 = decode_pieces(p1, 1);
    crate::text::lemma_decode_ok(p1, 1);
    crate::text::lemma_replace_entity(p2, 2);
    let p3 = decode_pieces(p2, 2);
    crate::text::lemma_decode_ok(p2, 2);
    crate::text::lemma_replace_entity(p3, 3);
    let p4 = decode_pieces(p3, 3);
    crate::text::lemma_decode_ok(p3, 3);
    crate::text::lemma_replace_entity(p4, 4);
    let p5 = decode_pieces(p4, 4);
    let tp = crate::text::plain_pieces(t);
    crate::text::lemma_render_plain(t);
    assert(p0.len() == t.len());
    assert(p2.len() == p1.len());
    assert(p3.len() == p2.len());
    assert(p4.len() == p3.len());
    assert(p5.len() == p4.len());
    assert forall|i: int| 0 <= i < t.len() implies p5[i] == tp[i] by {
        assert(p0[i] == escape_piece(t[i]));
        assert(p2[i] == (if p1[i] == EscPiece::Entity(1) { EscPiece::Plain(entity_char(1)) } else { p1[i] }));
        assert(p3[i] == (if p2[i] == EscPiece::Entity(2) { EscPiece::Plain(entity_char(2)) } else { p2[i] }));
        assert(p4[i] == (if p3[i] == EscPiece::Entity(3) { EscPiece::Plain(entity_char(3)) } else { p3[i] }));
        assert(p5[i] == (if p4[i] == EscPiece::Entity(4) { EscPiece::Plain(entity_char(4)) } else { p4[i] }));
        assert(tp[i] == EscPiece::Plain(t[i]));
    }
    assert(p5 =~= tp);
}

proof fn lemma_decimal_reads_back(n: nat)
    ensures
        unescape_seq(decimal(n)) == decimal(n),
        parse_unsigned(decimal(n), u32::MAX as nat) == (if n <= u32::MAX { Some(n) } else { None::<nat> }),
{
    crate::text::lemma_decimal_digits(n);
    let d = decimal(n);
    assert(crate::text::is_digit(d[0]));
    assert(crate::text::unsigned_body(d) == d);
    assert(no_amp(d)) by {
        assert forall|i: int| 0 <= i < d.len() implies d[i] != '&' by {
            assert(crate::text::is_digit(d[i]));
        }
    }
    lemma_unescape_no_amp(d);
}

proof fn lemma_op_text_no_amp(op: Op)
    ensures
        no_amp(op_text(op)),
{
    reveal_strlit("gt");
    reveal_strlit("lt");
    reveal_strlit("gte");
    reveal_strlit("lte");
    reveal_strlit("eq");
    reveal_strlit("ne");
    reveal_strlit("contains");
    reveal_strlit("cron-match");
}

proof fn lemma_mode_text_no_amp(m: MatchMode)
    ensures
        no_amp(mode_text(m)),
{
    reveal_strlit("all");
    reveal_strlit("any");
}

/// Whether no text of a condition holds `&`.
pub open spec fn condition_plain(c: ConditionView) -> bool {
    no_amp(c.field) && no_amp(c.value)
}

/// Whether no text of a group's conditions, or of its nested groups, holds `&`.
pub open spec fn group_plain(g: GroupView) -> bool
    decreases g, 1nat,
{
    &&& forall|i: int| 0 <= i < g.conditions.len() ==> condition_plain(#[trigger] g.conditions[i])
    &&& groups_plain(g.groups)
}

/// Whether every group of a list is plain (see `group_plain`).
pub open spec fn groups_plain(gs: Seq<GroupView>) -> bool
    decreases gs, 0nat,
{
    if gs.len() == 0 {
        true
    } else {
        groups_plain(gs.drop_last()) && group_plain(gs.last())
    }
}

/// Whether no text of a rule holds `&`.
pub open spec fn rule_plain(r: RuleView) -> bool {
    &&& no_amp(r.id)
    &&& no_amp(r.name)
    &&& (r.description matches Some(d) ==> no_amp(d))
    &&& no_amp(r.source_id)
    &&& no_amp(r.message)
    &&& no_amp(r.delivery_channel)
    &&& no_amp(r.delivery_target)
    &&& forall|i: int| 0 <= i < r.conditions.len() ==> condition_plain(#[trigger] r.conditions[i])
    &&& groups_plain(r.groups)
}

/// The attributes of a `<condition>` element as written (see `condition_xml`), values raw.
pub open spec fn condition_attrs(c: ConditionView) -> Seq<AttrView> {
    seq![("field"@, escape_seq(c.field)), ("op"@, op_text(c.op)), ("value"@, escape_seq(c.value))]
        + match c.duration_seconds {
        Some(d) => seq![("duration-seconds"@, decimal(d as nat))],
        None => Seq::<AttrView>::empty(),
    }
}

proof fn lemma_condition_attrs(c: ConditionView)
    requires
        condition_plain(c),
    ensures
        condition_from_attrs(condition_attrs(c)) == Some(c),
{
    reveal_strlit("field");
    reveal_strlit("op");
    reveal_strlit("value");
    reveal_strlit("duration-seconds");
    lemma_plain_reads_back(c.field);
    lemma_plain_reads_back(c.value);
    lemma_op_text_no_amp(c.op);
    lemma_unescape_no_amp(op_text(c.op));
    lemma_op_text_roundtrip(c.op);
    let a3 = seq![("field"@, escape_seq(c.field)), ("op"@, op_text(c.op)), ("value"@, escape_seq(c.value))];
    assert(a3.drop_last().drop_last().drop_last() =~= Seq::<AttrView>::empty());
    assert(a3.drop_last().drop_last() =~= seq![("field"@, escape_seq(c.field))]);
    assert(a3.drop_last() =~= seq![("field"@, escape_seq(c.field)), ("op"@, op_text(c.op))]);
    assert("value"@[0] != "field"@[0]);
    assert("op"@.len() != "field"@.len() && "op"@.len() != "value"@.len());
    assert("duration-seconds"@.len() != "field"@.len() && "duration-seconds"@.len() != "value"@.len() && "duration-seconds"@.len() != "op"@.len());
    assert(condition_parts(Seq::<AttrView>::empty()) == (Seq::<char>::empty(), None::<Op>, Seq::<char>::empty(), None::<u32>));
    assert(condition_parts(a3.drop_last().drop_last()) == (c.field, None::<Op>, Seq::<char>::empty(), None::<u32>));
    assert(condition_parts(a3.drop_last()) == (c.field, Some(c.op), Seq::<char>::empty(), None::<u32>));
    assert(condition_parts(a3) == (c.field, Some(c.op), c.value, None::<u32>));
    match c.duration_seconds {
        Some(d) => {
            lemma_decimal_reads_back(d as nat);
            let a4 = condition_attrs(c);
            assert(a4.drop_last() =~= a3);
            assert(condition_parts(a4) == (c.field, Some(c.op), c.value, Some(d)));
        },
        None => {
            assert(condition_attrs(c) =~= a3);
        },
    }
}

/// The attributes of a `<rule>` element as written (see `rule_head_xml`), values raw.
pub open spec fn rule_attrs(r: RuleView) -> Seq<AttrView> {
    seq![("id"@, escape_seq(r.id)), ("name"@, escape_seq(r.name))]
        + match r.description {
        Some(d) => seq![("description"@, escape_seq(d))],
        None => Seq::<AttrView>::empty(),
    } + (if !r.enabled { seq![("enabled"@, "false"@)] } else { Seq::<AttrView>::empty() })
        + seq![("source-id"@, escape_seq(r.source_id)), ("match"@, mode_text(r.match_mode))]
        + match r.capture_pre_seconds {
        Some(c) => seq![("capture-pre-seconds"@, decimal(c as nat))],
        None => Seq::<AttrView>::empty(),
    } + seq![("message"@, escape_seq(r.message)), ("timeout-seconds"@, decimal(r.timeout_seconds as nat))]
        + (if r.delivery_channel != "none"@ { seq![("delivery-channel"@, escape_seq(r.delivery_channel))] } else { Seq::<AttrView>::empty() })
        + (if r.delivery_target.len() > 0 { seq![("delivery-target"@, escape_seq(r.delivery_target))] } else { Seq::<AttrView>::empty() })
}

proof fn lemma_rfa_push(a: Seq<AttrView>, x: AttrView)
    ensures
        rule_from_attrs(a.push(x)) == rule_set_attr(rule_from_attrs(a), x.0, x.1),
{
    assert(a.push(x).drop_last() =~= a);
}

/// Appends an attribute when there is one.
pub open spec fn push_opt(a: Seq<AttrView>, x: Option<AttrView>) -> Seq<AttrView> {
    match x {
        Some(v) => a.push(v),
        None => a,
    }
}

proof fn lemma_set_id(r: RuleView, raw: Seq<char>)
    ensures
        rule_set_attr(r, "id"@, raw) == (RuleView { id: unescape_seq(raw), ..r }),
{
    reveal_strlit("id");

}

proof fn lemma_set_name(r: RuleView, raw: Seq<char>)
    ensures
        rule_set_attr(r, "name"@, raw) == (RuleView { name: unescape_seq(raw), ..r }),
{
    reveal_strlit("id");
    reveal_strlit("name");
    assert("name"@.len() != "id"@.len());
}

proof fn lemma_set_description(r: RuleView, raw: Seq<char>)
    ensures
        rule_set_attr(r, "description"@, raw) == (RuleView { description: Some(unescape_seq(raw)), ..r }),
{
    reveal_strlit("id");
    reveal_strlit("name");
    reveal_strlit("description");
    assert("description"@.len() != "id"@.len());
    assert("description"@.len() != "name"@.len());
}

proof fn lemma_set_enabled(r: RuleView, raw: Seq<char>)
    ensures
        rule_set_attr(r, "enabled"@, raw) == (RuleView { enabled: unescape_seq(raw) != "false"@, ..r }),
{
    reveal_strlit("id");
    reveal_strlit("name");
    reveal_strlit("description");
    reveal_strlit("enabled");
    assert("enabled"@.len() != "id"@.len());
    assert("enabled"@.len() != "name"@.len());
    assert("enabled"@.len() != "description"@.len());
}

proof fn lemma_set_source_id(r: RuleView, raw: Seq<char>)
    ensures
        rule_set_attr(r, "source-id"@, raw) == (RuleView { source_id: unescape_seq(raw), ..r }),
{
    reveal_strlit("id");
    reveal_strlit("name");
    reveal_strlit("description");
    reveal_strlit("enabled");
    reveal_strlit("source-id");
    assert("source-id"@.len() != "id"@.len());
    assert("source-id"@.len() != "name"@.len());
    assert("source-id"@.len() != "description"@.len());
    assert("source-id"@.len() != "enabled"@.len());
}

proof fn lemma_set_match(r: RuleView, raw: Seq<char>)
    ensures
        rule_set_attr(r, "match"@, raw) == (RuleView { match_mode: or_keep(mode_from_text(unescape_seq(raw)), MatchMode::All), ..r }),
{
    reveal_strlit("id");
    reveal_strlit("name");
    reveal_strlit("description");
    reveal_strlit("enabled");
    reveal_strlit("source-id");
    reveal_strlit("match");
    assert("match"@.len() != "id"@.len());
    assert("match"@.len() != "name"@.len());
    assert("match"@.len() != "description"@.len());
    assert("match"@.len() != "enabled"@.len());
    assert("match"@.len() != "source-id"@.len());
}

proof fn lemma_set_capture_pre_seconds(r: RuleView, raw: Seq<char>)
    ensures
        rule_set_attr(r, "capture-pre-seconds"@, raw) == (RuleView { capture_pre_seconds: match parse_unsigned(unescape_seq(raw), u32::MAX as nat) { Some(n) => Some(n as u32), None => None }, ..r }),
{
    reveal_strlit("id");
    reveal_strlit("name");
    reveal_strlit("description");
    reveal_strlit("enabled");
    reveal_strlit("source-id");
    reveal_strlit("match");
    reveal_strlit("capture-pre-seconds");
    assert("capture-pre-seconds"@.len() != "id"@.len());
    assert("capture-pre-seconds"@.len() != "name"@.len());
    assert("capture-pre-seconds"@.len() != "description"@.len());
    assert("capture-pre-seconds"@.len() != "enabled"@.len());
    assert("capture-pre-seconds"@.len() != "source-id"@.len());
    assert("capture-pre-seconds"@.len() != "match"@.len());
}

proof fn lemma_set_message(r: RuleView, raw: Seq<char>)
    ensures
        rule_set_attr(r, "message"@, raw) == (RuleView { message: unescape_seq(raw), ..r }),
{
    reveal_strlit("id");
    reveal_strlit("name");
    reveal_strlit("description");
    reveal_strlit("enabled");
    reveal_strlit("source-id");
    reveal_strlit("match");
    reveal_strlit("capture-pre-seconds");
    reveal_strlit("message");
    assert("message"@.len() != "id"@.len());
    assert("message"@.len() != "name"@.len());
    assert("message"@.len() != "description"@.len());
    assert("message"@[0] != "enabled"@[0]);
    assert("message"@.len() != "source-id"@.len());
    assert("message"@.len() != "match"@.len());
    assert("message"@.len() != "capture-pre-seconds"@.len());
}

proof fn lemma_set_timeout_seconds(r: RuleView, raw: Seq<char>)
    ensures
        rule_set_attr(r, "timeout-seconds"@, raw) == (RuleView { timeout_seconds: match parse_unsigned(unescape_seq(raw), u32::MAX as nat) { Some(n) => n as u32, None => 300 }, ..r }),
{
    reveal_strlit("id");
    reveal_strlit("name");
    reveal_strlit("description");
    reveal_strlit("enabled");
    reveal_strlit("source-id");
    reveal_strlit("match");
    reveal_strlit("capture-pre-seconds");
    reveal_strlit("message");
    reveal_strlit("timeout-seconds");
    assert("timeout-seconds"@.len() != "id"@.len());
    assert("timeout-seconds"@.len() != "name"@.len());
    assert("timeout-seconds"@.len() != "description"@.len());
    assert("timeout-seconds"@.len() != "enabled"@.len());
    assert("timeout-seconds"@.len() != "source-id"@.len());
    assert("timeout-seconds"@.len() != "match"@.len());
    assert("timeout-seconds"@.len() != "capture-pre-seconds"@.len());
    assert("timeout-seconds"@.len() != "message"@.len());
}

proof fn lemma_set_delivery_channel(r: RuleView, raw: Seq<char>)
    ensures
        rule_set_attr(r, "delivery-channel"@, raw) == (RuleView { delivery_channel: unescape_seq(raw), ..r }),
{
    reveal_strlit("id");
    reveal_strlit("name");
    reveal_strlit("description");
    reveal_strlit("enabled");
    reveal_strlit("source-id");
    reveal_strlit("match");
    reveal_strlit("capture-pre-seconds");
    reveal_strlit("message");
    reveal_strlit("timeout-seconds");
    reveal_strlit("delivery-channel");
    assert("delivery-channel"@.len() != "id"@.len());
    assert("delivery-channel"@.len() != "name"@.len());
    assert("delivery-channel"@.len() != "description"@.len());
    assert("delivery-channel"@.len() != "enabled"@.len());
    assert("delivery-channel"@.len() != "source-id"@.len());
    assert("delivery-channel"@.len() != "match"@.len());
    assert("delivery-channel"@.len() != "capture-pre-seconds"@.len());
    assert("delivery-channel"@.len() != "message"@.len());
    assert("delivery-channel"@.len() != "timeout-seconds"@.len());
}

proof fn lemma_set_delivery_target(r: RuleView, raw: Seq<char>)
    ensures
        rule_set_attr(r, "delivery-target"@, raw) == (RuleView { delivery_target: unescape_seq(raw), ..r }),
{
    reveal_strlit("id");
    reveal_strlit("name");
    reveal_strlit("description");
    reveal_strlit("enabled");
    reveal_strlit("source-id");
    reveal_strlit("match");
    reveal_strlit("capture-pre-seconds");
    reveal_strlit("message");
    reveal_strlit("timeout-seconds");
    reveal_strlit("delivery-channel");
    reveal_strlit("delivery-target");
    assert("delivery-target"@.len() != "id"@.len());
    assert("delivery-target"@.len() != "name"@.len());
    assert("delivery-target"@.len() != "description"@.len());
    assert("delivery-target"@.len() != "enabled"@.len());
    assert("delivery-target"@.len() != "source-id"@.len());
    assert("delivery-target"@.len() != "match"@.len());
    assert("delivery-target"@.len() != "capture-pre-seconds"@.len());
    assert("delivery-target"@.len() != "message"@.len());
    assert("delivery-target"@[0] != "timeout-seconds"@[0]);
    assert("delivery-target"@.len() != "delivery-channel"@.len());
}

#[verifier::spinoff_prover]
#[verifier::rlimit(40)]
proof fn lemma_rule_attrs(r: RuleView)
    requires
        rule_plain(r),
    ensures
        rule_from_attrs(rule_attrs(r)) == (RuleView { conditions: Seq::empty(), groups: Seq::empty(), ..r }),
{
    reveal_strlit("false");
    reveal_strlit("none");
    reveal_strlit("clock");
    lemma_plain_reads_back(r.id);
    lemma_plain_reads_back(r.name);
    lemma_plain_reads_back(r.source_id);
    lemma_plain_reads_back(r.message);
    lemma_plain_reads_back(r.delivery_channel);
    lemma_plain_reads_back(r.delivery_target);
    lemma_mode_text_no_amp(r.match_mode);
    lemma_unescape_no_amp(mode_text(r.match_mode));
    lemma_mode_text_roundtrip(r.match_mode);
    lemma_decimal_reads_back(r.timeout_seconds as nat);
    assert(no_amp("false"@));
    lemma_unescape_no_amp("false"@);
    let a0 = Seq::<AttrView>::empty();
    let a1 = a0.push(("id"@, escape_seq(r.id)));
    let a2 = a1.push(("name"@, escape_seq(r.name)));
    let a3 = push_opt(a2, match r.description { Some(d) => Some(("description"@, escape_seq(d))), None => None });
    let a4 = push_opt(a3, if !r.enabled { Some(("enabled"@, "false"@)) } else { None });
    let a5 = a4.push(("source-id"@, escape_seq(r.source_id)));
    let a6 = a5.push(("match"@, mode_text(r.match_mode)));
    let a7 = push_opt(a6, match r.capture_pre_seconds { Some(c) => Some(("capture-pre-seconds"@, decimal(c as nat))), None => None });
    let a8 = a7.push(("message"@, escape_seq(r.message)));
    let a9 = a8.push(("timeout-seconds"@, decimal(r.timeout_seconds as nat)));
    let a10 = push_opt(a9, if r.delivery_channel != "none"@ { Some(("delivery-channel"@, escape_seq(r.delivery_channel))) } else { None });
    let a11 = push_opt(a10, if r.delivery_target.len() > 0 { Some(("delivery-target"@, escape_seq(r.delivery_target))) } else { None });
    assert(a11 =~= rule_attrs(r));
    let v0 = new_rule_view(Seq::empty(), Seq::empty(), "clock"@, Seq::empty());
    assert(rule_from_attrs(a0) == v0);
    lemma_rfa_push(a0, ("id"@, escape_seq(r.id)));
    lemma_set_id(v0, escape_seq(r.id));
    let v1 = RuleView { id: r.id, ..v0 };
    assert(rule_from_attrs(a1) == v1);
    lemma_rfa_push(a1, ("name"@, escape_seq(r.name)));
    lemma_set_name(v1, escape_seq(r.name));
    let v2 = RuleView { name: r.name, ..v1 };
    assert(rule_from_attrs(a2) == v2);
    let v3 = RuleView { description: r.description, ..v2 };
    match r.description {
        Some(d) => {
            lemma_plain_reads_back(d);
            lemma_rfa_push(a2, ("description"@, escape_seq(d)));
            lemma_set_description(v2, escape_seq(d));
        },
        None => {},
    }
    assert(rule_from_attrs(a3) == v3);
    let v4 = RuleView { enabled: r.enabled, ..v3 };
    if !r.enabled {
        lemma_rfa_push(a3, ("enabled"@, "false"@));
        lemma_set_enabled(v3, "false"@);
    }
    assert(rule_from_attrs(a4) == v4);
    lemma_rfa_push(a4, ("source-id"@, escape_seq(r.source_id)));
    lemma_set_source_id(v4, escape_seq(r.source_id));
    let v5 = RuleView { source_id: r.source_id, ..v4 };
    assert(rule_from_attrs(a5) == v5);
    lemma_rfa_push(a5, ("match"@, mode_text(r.match_mode)));
    lemma_set_match(v5, mode_text(r.match_mode));
    let v6 = RuleView { match_mode: r.match_mode, ..v5 };
    assert(rule_from_attrs(a6) == v6);
    let v7 = RuleView { capture_pre_seconds: r.capture_pre_seconds, ..v6 };
    match r.capture_pre_seconds {
        Some(c) => {
            lemma_decimal_reads_back(c as nat);
            lemma_rfa_push(a6, ("capture-pre-seconds"@, decimal(c as nat)));
            lemma_set_capture_pre_seconds(v6, decimal(c as nat));
        },
        None => {},
    }
    assert(rule_from_attrs(a7) == v7);
    lemma_rfa_push(a7, ("message"@, escape_seq(r.message)));
    lemma_set_message(v7, escape_seq(r.message));
    let v8 = RuleView { message: r.message, ..v7 };
    assert(rule_from_attrs(a8) == v8);
    lemma_rfa_push(a8, ("timeout-seconds"@, decimal(r.timeout_seconds as nat)));
    lemma_set_timeout_seconds(v8, decimal(r.timeout_seconds as nat));
    let v9 = RuleView { timeout_seconds: r.timeout_seconds, ..v8 };
    assert(rule_from_attrs(a9) == v9);
    let v10 = RuleView { delivery_channel: r.delivery_channel, ..v9 };
    if r.delivery_channel != "none"@ {
        lemma_rfa_push(a9, ("delivery-channel"@, escape_seq(r.delivery_channel)));
        lemma_set_delivery_channel(v9, escape_seq(r.delivery_channel));
    }
    assert(rule_from_attrs(a10) == v10);
    let v11 = RuleView { delivery_target: r.delivery_target, ..v10 };
    if r.delivery_target.len() > 0 {
        lemma_rfa_push(a10, ("delivery-target"@, escape_seq(r.delivery_target)));
        lemma_set_delivery_target(v10, escape_seq(r.delivery_target));
    } else {
        assert(r.delivery_target =~= Seq::<char>::empty());
    }
    assert(rule_from_attrs(a11) == v11);
}

/// The event an XML reader reports for a `<condition>` element as written.
pub open spec fn condition_token(c: ConditionView) -> TokenView {
    TokenView::Tag("condition"@, condition_attrs(c), true)
}

/// The events of a list of `<condition>` elements.
pub open spec fn conditions_tokens(cs: Seq<ConditionView>) -> Seq<TokenView>
    decreases cs.len(),
{
    if cs.len() == 0 {
        Seq::empty()
    } else {
        conditions_tokens(cs.drop_last()).push(condition_token(cs.last()))
    }
}

/// The events an XML reader reports for a `<group>` element as written (see `group_xml`),
/// leaving out the whitespace between elements.
pub open spec fn group_tokens(g: GroupView) -> Seq<TokenView>
    decreases g, 1nat,
{
    seq![TokenView::Tag("group"@, seq![("match"@, mode_text(g.match_mode))], false)]
        + conditions_tokens(g.conditions) + groups_tokens(g.groups) + seq![TokenView::End("group"@)]
}

/// The events of a list of `<group>` elements.
pub open spec fn groups_tokens(gs: Seq<GroupView>) -> Seq<TokenView>
    decreases gs, 0nat,
{
    if gs.len() == 0 {
        Seq::empty()
    } else {
        groups_tokens(gs.drop_last()) + group_tokens(gs.last())
    }
}

/// The events an XML reader reports for a `<rule>` element as written (see `rule_xml`),
/// leaving out the whitespace between elements.
pub open spec fn rule_tokens(r: RuleView) -> Seq<TokenView> {
    if r.conditions.len() == 0 && r.groups.len() == 0 {
        seq![TokenView::Tag("rule"@, rule_attrs(r), true)]
    } else {
        seq![TokenView::Tag("rule"@, rule_attrs(r), false)] + conditions_tokens(r.conditions)
            + groups_tokens(r.groups) + seq![TokenView::End("rule"@)]
    }
}

/// The events of a list of `<rule>` elements.
pub open spec fn rules_tokens(rs: Seq<RuleView>) -> Seq<TokenView>
    decreases rs.len(),
{
    if rs.len() == 0 {
        Seq::empty()
    } else {
        rules_tokens(rs.drop_last()) + rule_tokens(rs.last())
    }
}

/// The events an XML reader reports for a rules document as `Rules::to_xml` writes it, leaving
/// out the whitespace between elements.
pub open spec fn rules_doc_tokens(rs: Seq<RuleView>) -> Seq<TokenView> {
    seq![TokenView::Tag("Rules"@, seq![("xmlns:x"@, "/nop/schema/xdsl.xdef"@)], false)] + rules_tokens(rs)
        + seq![TokenView::End("Rules"@), TokenView::Eof]
}

/// A token list without its text events.
pub open spec fn without_texts(ts: Seq<TokenView>) -> Seq<TokenView>
    decreases ts.len(),
{
    if ts.len() == 0 {
        ts
    } else if ts.last() is Text {
        without_texts(ts.drop_last())
    } else {
        without_texts(ts.drop_last()).push(ts.last())
    }
}

/// The reader state after more tokens.
pub open spec fn rules_fold(s: RulesReadView, ts: Seq<TokenView>) -> RulesReadView
    decreases ts.len(),
{
    if ts.len() == 0 {
        s
    } else {
        rules_step(rules_fold(s, ts.drop_last()), ts.last())
    }
}

/// The reader's state before any token.
pub open spec fn rules_start() -> RulesReadView {
    RulesReadView { rules: Seq::empty(), cur: None, stack: Seq::empty(), error: None }
}

proof fn lemma_rules_read_fold(ts: Seq<TokenView>)
    ensures
        rules_read(ts) == rules_fold(rules_start(), ts),
    decreases ts.len(),
{
    if ts.len() > 0 {
        lemma_rules_read_fold(ts.drop_last());
    }
}

proof fn lemma_rules_fold_concat(s: RulesReadView, a: Seq<TokenView>, b: Seq<TokenView>)
    ensures
        rules_fold(s, a + b) == rules_fold(rules_fold(s, a), b),
    decreases b.len(),
{
    if b.len() > 0 {
        assert((a + b).drop_last() =~= a + b.drop_last());
        lemma_rules_fold_concat(s, a, b.drop_last());
    } else {
        assert(a + b =~= a);
    }
}

proof fn lemma_fold_without_texts(s: RulesReadView, ts: Seq<TokenView>)
    ensures
        rules_fold(s, ts) == rules_fold(s, without_texts(ts)),
    decreases ts.len(),
{
    if ts.len() > 0 {
        lemma_fold_without_texts(s, ts.drop_last());
        if !(ts.last() is Text) {
            let w = without_texts(ts.drop_last());
            assert(w.push(ts.last()).drop_last() =~= w);
        }
    }
}

/// The reader state with conditions added where they belong: to the innermost open group, else
/// to the open rule.
pub open spec fn add_conds(s: RulesReadView, cs: Seq<ConditionView>) -> RulesReadView {
    if s.stack.len() > 0 {
        RulesReadView {
            stack: s.stack.drop_last().push(GroupView { conditions: s.stack.last().conditions + cs, ..s.stack.last() }),
            ..s
        }
    } else {
        RulesReadView { cur: Some(RuleView { conditions: s.cur.unwrap().conditions + cs, ..s.cur.unwrap() }), ..s }
    }
}

/// The reader state with groups added where they belong: to the innermost open group, else to
/// the open rule.
pub open spec fn add_groups(s: RulesReadView, gs: Seq<GroupView>) -> RulesReadView {
    if s.stack.len() > 0 {
        RulesReadView {
            stack: s.stack.drop_last().push(GroupView { groups: s.stack.last().groups + gs, ..s.stack.last() }),
            ..s
        }
    } else {
        RulesReadView { cur: Some(RuleView { groups: s.cur.unwrap().groups + gs, ..s.cur.unwrap() }), ..s }
    }
}

proof fn lemma_read_conditions(s: RulesReadView, cs: Seq<ConditionView>)
    requires
        s.error is None,
        s.cur is Some,
        forall|i: int| 0 <= i < cs.len() ==> condition_plain(#[trigger] cs[i]),
    ensures
        rules_fold(s, conditions_tokens(cs)) == add_conds(s, cs),
    decreases cs.len(),
{
    reveal_strlit("condition");
    reveal_strlit("rule");
    if cs.len() == 0 {
        if s.stack.len() > 0 {
            assert(s.stack.last().conditions + cs =~= s.stack.last().conditions);
            assert(s.stack.drop_last().push(s.stack.last()) =~= s.stack);
        } else {
            assert(s.cur.unwrap().conditions + cs =~= s.cur.unwrap().conditions);
        }
    } else {
        let d = cs.drop_last();
        let c = cs.last();
        assert forall|i: int| 0 <= i < d.len() implies condition_plain(#[trigger] d[i]) by {
            assert(d[i] == cs[i]);
        }
        lemma_read_conditions(s, d);
        lemma_condition_attrs(c);
        let s1 = add_conds(s, d);
        assert(conditions_tokens(cs).drop_last() == conditions_tokens(d));
        if s.stack.len() > 0 {
            assert(s1.stack.len() > 0 && s1.stack.drop_last() =~= s.stack.drop_last());
            assert(s.stack.last().conditions + d + seq![c] =~= s.stack.last().conditions + cs);
            assert(s.stack.last().conditions + d.push(c) =~= s.stack.last().conditions + cs);
            assert(d.push(c) =~= cs);
            assert((s.stack.last().conditions + d).push(c) =~= s.stack.last().conditions + cs);
        } else {
            assert((s.cur.unwrap().conditions + d).push(c) =~= s.cur.unwrap().conditions + cs);
        }
    }
}

proof fn lemma_fold_one(s: RulesReadView, t: TokenView)
    ensures
        rules_fold(s, seq![t]) == rules_step(s, t),
{
    assert(seq![t].drop_last() =~= Seq::<TokenView>::empty());
    assert(rules_fold(s, seq![t].drop_last()) == s);
}

proof fn lemma_read_group(s: RulesReadView, g: GroupView)
    requires
        s.error is None,
        s.cur is Some,
        group_plain(g),
    ensures
        rules_fold(s, group_tokens(g)) == add_groups(s, seq![g]),
    decreases g, 1nat,
{
    reveal_strlit("group");
    reveal_strlit("condition");
    reveal_strlit("rule");
    reveal_strlit("match");
    assert("group"@.len() != "rule"@.len() && "group"@.len() != "condition"@.len());
    let t0 = TokenView::Tag("group"@, seq![("match"@, mode_text(g.match_mode))], false);
    let t1 = TokenView::End("group"@);
    let ct = conditions_tokens(g.conditions);
    let gt = groups_tokens(g.groups);
    assert(group_tokens(g) == seq![t0] + ct + gt + seq![t1]);
    lemma_rules_fold_concat(s, seq![t0] + ct + gt, seq![t1]);
    lemma_rules_fold_concat(s, seq![t0] + ct, gt);
    lemma_rules_fold_concat(s, seq![t0], ct);
    let gm = seq![("match"@, mode_text(g.match_mode))];
    assert(gm.drop_last() =~= Seq::<AttrView>::empty());
    lemma_mode_text_roundtrip(g.match_mode);
    assert(group_mode(gm) == g.match_mode);
    lemma_fold_one(s, t0);
    let g0 = GroupView { match_mode: g.match_mode, conditions: Seq::empty(), groups: Seq::empty() };
    let s1 = RulesReadView { stack: s.stack.push(g0), ..s };
    assert(rules_fold(s, seq![t0]) == s1);
    lemma_read_conditions(s1, g.conditions);
    let s2 = add_conds(s1, g.conditions);
    let g1 = GroupView { conditions: g.conditions, ..g0 };
    assert(g0.conditions + g.conditions =~= g.conditions);
    assert(s1.stack.drop_last() =~= s.stack);
    assert(s2 == RulesReadView { stack: s.stack.push(g1), ..s });
    lemma_read_groups(s2, g.groups);
    let s3 = add_groups(s2, g.groups);
    assert(g1.groups + g.groups =~= g.groups);
    assert(s.stack.push(g1).drop_last() =~= s.stack);
    assert(s3 == RulesReadView { stack: s.stack.push(g), ..s });
    lemma_fold_one(s3, t1);
    let s4 = rules_step(s3, t1);
    assert(s4 == close_group(s3));
    assert(s.stack.push(g).drop_last() =~= s.stack);
    if s.stack.len() > 0 {
        assert(s.stack.last().groups + seq![g] =~= s.stack.last().groups.push(g));
    } else {
        assert(s.cur.unwrap().groups + seq![g] =~= s.cur.unwrap().groups.push(g));
    }
}

proof fn lemma_read_groups(s: RulesReadView, gs: Seq<GroupView>)
    requires
        s.error is None,
        s.cur is Some,
        groups_plain(gs),
    ensures
        rules_fold(s, groups_tokens(gs)) == add_groups(s, gs),
    decreases gs, 0nat,
{
    if gs.len() == 0 {
        if s.stack.len() > 0 {
            assert(s.stack.last().groups + gs =~= s.stack.last().groups);
            assert(s.stack.drop_last().push(s.stack.last()) =~= s.stack);
        } else {
            assert(s.cur.unwrap().groups + gs =~= s.cur.unwrap().groups);
        }
    } else {
        let d = gs.drop_last();
        let g = gs.last();
        lemma_read_groups(s, d);
        lemma_rules_fold_concat(s, groups_tokens(d), group_tokens(g));
        let s1 = add_groups(s, d);
        lemma_read_group(s1, g);
        assert(d.push(g) =~= gs);
        if s.stack.len() > 0 {
            assert(s1.stack.drop_last() =~= s.stack.drop_last());
            assert(s.stack.last().groups + d + seq![g] =~= s.stack.last().groups + gs);
        } else {
            assert(s.cur.unwrap().groups + d + seq![g] =~= s.cur.unwrap().groups + gs);
        }
    }
}

proof fn lemma_read_rule(s: RulesReadView, r: RuleView)
    requires
        s.error is None,
        s.cur is None,
        s.stack.len() == 0,
        rule_plain(r),
    ensures
        rules_fold(s, rule_tokens(r)) == (RulesReadView { rules: s.rules.push(r), ..s }),
{
    reveal_strlit("rule");
    lemma_rule_attrs(r);
    let r0 = RuleView { conditions: Seq::empty(), groups: Seq::empty(), ..r };
    if r.conditions.len() == 0 && r.groups.len() == 0 {
        assert(r0 == r) by {
            assert(r.conditions =~= Seq::<ConditionView>::empty());
            assert(r.groups =~= Seq::<GroupView>::empty());
        }
        let t = TokenView::Tag("rule"@, rule_attrs(r), true);
        lemma_fold_one(s, t);
    } else {
        let t0 = TokenView::Tag("rule"@, rule_attrs(r), false);
        let t1 = TokenView::End("rule"@);
        let ct = conditions_tokens(r.conditions);
        let gt = groups_tokens(r.groups);
        assert(rule_tokens(r) == seq![t0] + ct + gt + seq![t1]);
        lemma_rules_fold_concat(s, seq![t0] + ct + gt, seq![t1]);
        lemma_rules_fold_concat(s, seq![t0] + ct, gt);
        lemma_rules_fold_concat(s, seq![t0], ct);
        lemma_fold_one(s, t0);
        let s1 = RulesReadView { cur: Some(r0), ..s };
        assert(rules_fold(s, seq![t0]) == s1);
        lemma_read_conditions(s1, r.conditions);
        let s2 = add_conds(s1, r.conditions);
        let r1 = RuleView { conditions: r.conditions, ..r0 };
        assert(r0.conditions + r.conditions =~= r.conditions);
        assert(s2 == RulesReadView { cur: Some(r1), ..s });
        lemma_read_groups(s2, r.groups);
        let s3 = add_groups(s2, r.groups);
        assert(r1.groups + r.groups =~= r.groups);
        assert(s3 == RulesReadView { cur: Some(r), ..s });
        lemma_fold_one(s3, t1);
    }
}

proof fn lemma_read_rules(s: RulesReadView, rs: Seq<RuleView>)
    requires
        s.error is None,
        s.cur is None,
        s.stack.len() == 0,
        forall|i: int| 0 <= i < rs.len() ==> rule_plain(#[trigger] rs[i]),
    ensures
        rules_fold(s, rules_tokens(rs)) == (RulesReadView { rules: s.rules + rs, ..s }),
    decreases rs.len(),
{
    if rs.len() == 0 {
        assert(s.rules + rs =~= s.rules);
    } else {
        let d = rs.drop_last();
        assert forall|i: int| 0 <= i < d.len() implies rule_plain(#[trigger] d[i]) by {
            assert(d[i] == rs[i]);
        }
        lemma_read_rules(s, d);
        lemma_rules_fold_concat(s, rules_tokens(d), rule_tokens(rs.last()));
        lemma_read_rule(RulesReadView { rules: s.rules + d, ..s }, rs.last());
        assert((s.rules + d).push(rs.last()) =~= s.rules + rs);
    }
}

/// A rules document reads back as the rules written: whatever whitespace text comes between
/// the elements, the events of the document `Rules::to_xml` writes (see `rules_doc_tokens`) read
/// as the same rules, in order, conditions, groups, match modes and durations included, where no
/// text of a rule holds `&`.
pub proof fn lemma_rules_read_back(rs: Seq<RuleView>, ts: Seq<TokenView>)
    requires
        forall|i: int| 0 <= i < rs.len() ==> rule_plain(#[trigger] rs[i]),
        without_texts(ts) == rules_doc_tokens(rs),
    ensures
        rules_from_tokens(ts) == Ok::<Seq<RuleView>, DocErrorView>(rs),
{
    reveal_strlit("Rules");
    reveal_strlit("rule");
    assert("Rules"@[0] != "rule"@[0]);
    lemma_rules_read_fold(ts);
    lemma_fold_without_texts(rules_start(), ts);
    let t0 = TokenView::Tag("Rules"@, seq![("xmlns:x"@, "/nop/schema/xdsl.xdef"@)], false);
    let tail = seq![TokenView::End("Rules"@), TokenView::Eof];
    let body = rules_tokens(rs);
    assert(rules_doc_tokens(rs) == seq![t0] + body + tail);
    lemma_rules_fold_concat(rules_start(), seq![t0] + body, tail);
    lemma_rules_fold_concat(rules_start(), seq![t0], body);
    lemma_fold_one(rules_start(), t0);
    assert(rules_fold(rules_start(), seq![t0]) == rules_start());
    lemma_read_rules(rules_start(), rs);
    let s2 = RulesReadView { rules: Seq::<RuleView>::empty() + rs, ..rules_start() };
    assert(Seq::<RuleView>::empty() + rs =~= rs);
    reveal_with_fuel(rules_fold, 3);
    assert(tail.drop_last().drop_last() =~= Seq::<TokenView>::empty());
    assert(rules_fold(s2, tail) == s2);
}

} // verus!
