//! The rule management tool: reading its JSON input into a request for the engine, and the
//! replies it gives for each outcome.

use vstd::prelude::*;
use crate::engine::{EngineStatus, LastRunStatus, PlanCacheStatus, RuleStatusInfo};
use crate::executor::{json_i64_value, json_of_i64};
use crate::json::{
    get_array, get_bool, get_str, get_string, get_u64, json_array, json_bool, json_get, json_str, json_u64,
    jsons_view, lemma_jsons_view_index, lemma_member_index, member_index, Json, JsonView,
};
use crate::rule::{
    conditions_view, copy_string, groups_view, mode_from_text, new_rule_view, op_from_text, or_keep, push,
    text_of, Condition, ConditionGroup, ConditionView, GroupView, MatchMode, Op, PatchView, Rule, RulePatch,
    RuleView,
};
use crate::json::{array_of, object_of, opt_str_value, push_item, push_member};
use crate::source::{source_type_text, EventSource, SourceView};
use crate::text::str_eq;

verus! {

// ---------------------------------------------------------------------------
// Conditions and groups from JSON
// ---------------------------------------------------------------------------

/// The condition a JSON object describes: `field`, a valid `op` and `value` are needed;
/// `duration_seconds` is kept when it is a non-negative integer (cut to 32 bits).
pub open spec fn condition_of_json(v: JsonView) -> Option<ConditionView> {
    let f = json_str(json_get(v, "field"@));
    let o = json_str(json_get(v, "op"@));
    let x = json_str(json_get(v, "value"@));
    if f is Some && o is Some && op_from_text(o.unwrap()) is Some && x is Some {
        Some(ConditionView {
            field: f.unwrap(),
            op: op_from_text(o.unwrap()).unwrap(),
            value: x.unwrap(),
            duration_seconds: match json_u64(json_get(v, "duration_seconds"@)) {
                Some(d) => Some(d as u32),
                None => None,
            },
        })
    } else {
        None
    }
}

/// The conditions of a JSON array: the elements that describe one, in order.
pub open spec fn conditions_of_json(vs: Seq<JsonView>) -> Seq<ConditionView>
    decreases vs.len(),
{
    if vs.len() == 0 {
        Seq::empty()
    } else {
        let p = conditions_of_json(vs.drop_last());
        match condition_of_json(vs.last()) {
            Some(c) => p.push(c),
            None => p,
        }
    }
}

/// The member of an object at the position of the first member with a key.
pub open spec fn member_at(v: JsonView, key: Seq<char>) -> Option<JsonView> {
    match v {
        JsonView::Object(m) => match member_index(m, key) {
            Some(i) => if 0 <= i < m.len() { Some(m[i].1) } else { None },
            None => None,
        },
        _ => None,
    }
}

/// The group a JSON object describes: `match` (`all` by default), its `conditions` and its
/// nested `groups`.
pub open spec fn group_of_json(v: JsonView) -> GroupView
    decreases v, 0nat,
{
    let mode = or_keep(mode_from_text(or_keep(json_str(json_get(v, "match"@)), "all"@)), MatchMode::All);
    let conds = match json_array(json_get(v, "conditions"@)) {
        Some(a) => conditions_of_json(a),
        None => Seq::empty(),
    };
    let groups = match v {
        JsonView::Object(m) => match member_index(m, "groups"@) {
            Some(i) => if 0 <= i < m.len() {
                match m[i].1 {
                    JsonView::Array(items) => groups_of_json(items, items.len()),
                    _ => Seq::empty(),
                }
            } else {
                Seq::empty()
            },
            None => Seq::empty(),
        },
        _ => Seq::empty(),
    };
    GroupView { match_mode: mode, conditions: conds, groups }
}

/// The groups of the first `k` elements of a JSON array.
pub open spec fn groups_of_json(items: Seq<JsonView>, k: nat) -> Seq<GroupView>
    decreases items, k,
{
    if k == 0 || k > items.len() {
        Seq::empty()
    } else {
        groups_of_json(items, (k - 1) as nat).push(group_of_json(items[k - 1]))
    }
}

fn condition_from_json(v: &Json) -> (r: Option<Condition>)
    ensures
        match r {
            Some(c) => condition_of_json(v@) == Some(c@),
            None => condition_of_json(v@) is None,
        },
{
    let field = get_string(v, "field");
    let op = match get_str(v, "op") {
        Some(o) => Op::from_str(o),
        None => None,
    };
    let value = get_string(v, "value");
    let duration = match get_u64(v, "duration_seconds") {
        Some(d) => Some(#[verifier::truncate] (d as u32)),
        None => None,
    };
    match (field, op, value) {
        (Some(f), Some(o), Some(x)) => Some(Condition { field: f, op: o, value: x, duration_seconds: duration }),
        _ => None,
    }
}

/// The conditions a JSON array describes; elements that describe none are skipped.
pub fn parse_conditions_from_json(arr: &Vec<Json>) -> (r: Vec<Condition>)
    ensures
        conditions_view(r@) == conditions_of_json(jsons_view(arr@)),
{
    let ghost av = jsons_view(arr@);
    proof {
        lemma_jsons_view_index(arr@);
    }
    let mut out: Vec<Condition> = Vec::new();
    let mut i: usize = 0;
    proof {
        assert(av.take(0) =~= Seq::<JsonView>::empty());
        assert(conditions_view(out@) =~= Seq::<ConditionView>::empty());
    }
    while i < arr.len()
        invariant
            i <= arr@.len(),
            av == jsons_view(arr@),
            av.len() == arr@.len(),
            forall|k: int| 0 <= k < arr@.len() ==> #[trigger] av[k] == arr@[k]@,
            conditions_view(out@) == conditions_of_json(av.take(i as int)),
        decreases arr.len() - i,
    {
        proof {
            let t = av.take(i + 1);
            assert(t.drop_last() =~= av.take(i as int));
            assert(t.last() == arr@[i as int]@);
        }
        match condition_from_json(&arr[i]) {
            Some(c) => {
                let ghost prev = out@;
                out.push(c);
                proof {
                    assert(conditions_view(out@) =~= conditions_view(prev).push(c@));
                }
            },
            None => {},
        }
        i = i + 1;
    }
    proof {
        assert(av.take(arr@.len() as int) =~= av);
    }
    out
}

fn find_member(m: &Vec<(String, Json)>, key: &str) -> (r: Option<usize>)
    ensures
        match r {
            Some(i) => member_index(crate::json::members_view(m@), key@) == Some(i as int) && i < m@.len(),
            None => member_index(crate::json::members_view(m@), key@) is None,
        },
{
    let ghost mv = crate::json::members_view(m@);
    proof {
        crate::json::lemma_members_view_index(m@);
        assert(mv.take(0) =~= Seq::<(Seq<char>, JsonView)>::empty());
    }
    let mut i: usize = 0;
    while i < m.len()
        invariant
            i <= m@.len(),
            mv == crate::json::members_view(m@),
            mv.len() == m@.len(),
            forall|j: int| 0 <= j < m@.len() ==> #[trigger] mv[j] == (m@[j].0@, m@[j].1@),
            member_index(mv.take(i as int), key@) is None,
        decreases m.len() - i,
    {
        proof {
            let t = mv.take(i + 1);
            assert(t.drop_last() =~= mv.take(i as int));
            assert(t.last() == mv[i as int]);
        }
        if str_eq(m[i].0.as_str(), key) {
            proof {
                crate::json::lemma_member_index_prefix(mv, i + 1, key@);
            }
            return Some(i);
        }
        i = i + 1;
    }
    proof {
        assert(mv.take(m@.len() as int) =~= mv);
    }
    None
}

fn group_from_json(v: &Json) -> (r: ConditionGroup)
    ensures
        r@ == group_of_json(v@),
    decreases v, 1nat, 0nat,
{
    let mode = match get_str(v, "match") {
        Some(t) => match MatchMode::from_str(t) {
            Some(m) => m,
            None => MatchMode::All,
        },
        None => match MatchMode::from_str("all") {
            Some(m) => m,
            None => MatchMode::All,
        },
    };
    let conditions = match get_array(v, "conditions") {
        Some(a) => parse_conditions_from_json(a),
        None => Vec::new(),
    };
    let groups = groups_member(v);
    proof {
        assert(conditions_view(conditions@) == match json_array(json_get(v@, "conditions"@)) {
            Some(a) => conditions_of_json(a),
            None => Seq::<ConditionView>::empty(),
        });
    }
    ConditionGroup { match_mode: mode, conditions, groups }
}

/// The groups of a group object's `groups` member (none when it is missing or no array).
fn groups_member(v: &Json) -> (r: Vec<ConditionGroup>)
    ensures
        groups_view(r@) == group_of_json(v@).groups,
    decreases v, 0nat, 1nat,
{
    match v {
        Json::Object(m) => {
            proof {
                reveal_with_fuel(crate::json::json_view, 2);
                crate::json::lemma_members_view_index(m@);
                assert(v@ == JsonView::Object(crate::json::members_view(m@)));
            }
            match find_member(m, "groups") {
                Some(i) => {
                    proof {
                        assert(crate::json::members_view(m@)[i as int].1 == m@[i as int].1@);
                    }
                    match &m[i].1 {
                        Json::Array(items) => {
                            proof {
                                assert(decreases_to!(*v => *m));
                                assert(decreases_to!(*m => m@[i as int]));
                                assert(decreases_to!(m@[i as int] => m@[i as int].1));
                                assert(decreases_to!(m@[i as int].1 => *items));
                                assert(m@[i as int].1@ == JsonView::Array(jsons_view(items@)));
                                lemma_jsons_view_index(items@);
                            }
                            parse_groups_rec(items, v)
                        },
                        _ => {
                            let e: Vec<ConditionGroup> = Vec::new();
                            proof {
                                assert(!(m@[i as int].1@ is Array));
                                assert(groups_view(e@) =~= Seq::<GroupView>::empty());
                            }
                            e
                        },
                    }
                },
                None => {
                    let e: Vec<ConditionGroup> = Vec::new();
                    proof {
                        assert(groups_view(e@) =~= Seq::<GroupView>::empty());
                    }
                    e
                },
            }
        },
        _ => {
            let e: Vec<ConditionGroup> = Vec::new();
            proof {
                reveal_with_fuel(crate::json::json_view, 2);
                assert(!(v@ is Object));
                assert(groups_view(e@) =~= Seq::<GroupView>::empty());
            }
            e
        },
    }
}

fn parse_groups_rec(items: &Vec<Json>, parent: &Json) -> (r: Vec<ConditionGroup>)
    requires
        decreases_to!(*parent => *items),
    ensures
        groups_view(r@) == groups_of_json(jsons_view(items@), items@.len()),
    decreases parent, 0nat, 0nat,
{
    proof {
        lemma_jsons_view_index(items@);
    }
    let ghost iv = jsons_view(items@);
    let mut out: Vec<ConditionGroup> = Vec::new();
    let mut i: usize = 0;
    while i < items.len()
        invariant
            i <= items@.len(),
            iv == jsons_view(items@),
            iv.len() == items@.len(),
            forall|k: int| 0 <= k < items@.len() ==> #[trigger] iv[k] == items@[k]@,
            groups_view(out@) == groups_of_json(iv, i as nat),
            decreases_to!(*parent => *items),
        decreases items.len() - i,
    {
        proof {
            assert(decreases_to!(*items => items@[i as int]));
        }
        let g = group_from_json(&items[i]);
        let ghost prev = out@;
        out.push(g);
        proof {
            assert(out@.drop_last() =~= prev);
        }
        i = i + 1;
    }
    out
}

/// The groups a JSON array describes.
pub fn parse_groups_from_json(arr: &Vec<Json>) -> (r: Vec<ConditionGroup>)
    ensures
        groups_view(r@) == groups_of_json(jsons_view(arr@), jsons_view(arr@).len()),
{
    proof {
        lemma_jsons_view_index(arr@);
    }
    let ghost iv = jsons_view(arr@);
    let mut out: Vec<ConditionGroup> = Vec::new();
    let mut i: usize = 0;
    while i < arr.len()
        invariant
            i <= arr@.len(),
            iv == jsons_view(arr@),
            iv.len() == arr@.len(),
            forall|k: int| 0 <= k < arr@.len() ==> #[trigger] iv[k] == arr@[k]@,
            groups_view(out@) == groups_of_json(iv, i as nat),
        decreases arr.len() - i,
    {
        let g = group_from_json(&arr[i]);
        let ghost prev = out@;
        out.push(g);
        proof {
            assert(out@.drop_last() =~= prev);
        }
        i = i + 1;
    }
    out
}

// ---------------------------------------------------------------------------
// Rules and patches from JSON
// ---------------------------------------------------------------------------

/// The rule a tool input describes, with the given id: `name` and `message` are needed; the
/// source is `clock` unless given; every other field the input sets (with the right JSON type)
/// replaces the default; integers are cut to 32 bits.
pub open spec fn rule_of_json(input: JsonView, id: Seq<char>) -> Result<RuleView, Seq<char>> {
    let name = json_str(json_get(input, "name"@));
    let message = json_str(json_get(input, "message"@));
    if name is None {
        Err("Missing required parameter: name"@)
    } else if message is None {
        Err("Missing required parameter: message"@)
    } else {
        let source = or_keep(json_str(json_get(input, "source_id"@)), "clock"@);
        let r = new_rule_view(id, name.unwrap(), source, message.unwrap());
        Ok(RuleView {
            description: match json_str(json_get(input, "description"@)) {
                Some(d) => Some(d),
                None => r.description,
            },
            enabled: or_keep(json_bool(json_get(input, "enabled"@)), r.enabled),
            match_mode: match json_str(json_get(input, "match"@)) {
                Some(m) => or_keep(mode_from_text(m), MatchMode::All),
                None => r.match_mode,
            },
            capture_pre_seconds: match json_u64(json_get(input, "capture_pre_seconds"@)) {
                Some(c) => Some(c as u32),
                None => r.capture_pre_seconds,
            },
            timeout_seconds: match json_u64(json_get(input, "timeout_seconds"@)) {
                Some(t) => t as u32,
                None => r.timeout_seconds,
            },
            delivery_channel: or_keep(json_str(json_get(input, "delivery_channel"@)), r.delivery_channel),
            delivery_target: or_keep(json_str(json_get(input, "delivery_target"@)), r.delivery_target),
            conditions: match json_array(json_get(input, "conditions"@)) {
                Some(a) => conditions_of_json(a),
                None => r.conditions,
            },
            groups: match json_array(json_get(input, "groups"@)) {
                Some(a) => groups_of_json(a, a.len()),
                None => r.groups,
            },
            ..r
        })
    }
}

/// The rule a tool input describes, with the given id (see `rule_of_json`).
pub fn rule_from_json(input: &Json, id: String) -> (r: Result<Rule, String>)
    ensures
        match r {
            Ok(rule) => rule_of_json(input@, id@) == Ok::<RuleView, Seq<char>>(rule@),
            Err(e) => rule_of_json(input@, id@) == Err::<RuleView, Seq<char>>(e@),
        },
{
    let name = match get_string(input, "name") {
        Some(n) => n,
        None => { return Err(text_of("Missing required parameter: name")); },
    };
    let source = match get_string(input, "source_id") {
        Some(s) => s,
        None => text_of("clock"),
    };
    let message = match get_string(input, "message") {
        Some(m) => m,
        None => { return Err(text_of("Missing required parameter: message")); },
    };
    let ghost base = new_rule_view(id@, name@, source@, message@);
    let description = get_string(input, "description");
    let enabled = match get_bool(input, "enabled") {
        Some(b) => b,
        None => true,
    };
    let match_mode = match get_str(input, "match") {
        Some(m) => match MatchMode::from_str(m) {
            Some(x) => x,
            None => MatchMode::All,
        },
        None => MatchMode::All,
    };
    let capture_pre_seconds = match get_u64(input, "capture_pre_seconds") {
        Some(c) => Some(#[verifier::truncate] (c as u32)),
        None => None,
    };
    let timeout_seconds = match get_u64(input, "timeout_seconds") {
        Some(t) => #[verifier::truncate] (t as u32),
        None => 300,
    };
    let delivery_channel = match get_string(input, "delivery_channel") {
        Some(c) => c,
        None => text_of("none"),
    };
    let delivery_target = match get_string(input, "delivery_target") {
        Some(t) => t,
        None => String::new(),
    };
    let conditions = match get_array(input, "conditions") {
        Some(a) => parse_conditions_from_json(a),
        None => {
            let e: Vec<Condition> = Vec::new();
            proof {
                assert(conditions_view(e@) =~= Seq::<ConditionView>::empty());
            }
            e
        },
    };
    let groups = match get_array(input, "groups") {
        Some(a) => parse_groups_from_json(a),
        None => {
            let e: Vec<ConditionGroup> = Vec::new();
            proof {
                assert(groups_view(e@) =~= Seq::<GroupView>::empty());
            }
            e
        },
    };
    let rule = Rule {
        id,
        name,
        description,
        enabled,
        source_id: source,
        match_mode,
        capture_pre_seconds,
        message,
        timeout_seconds,
        delivery_channel,
        delivery_target,
        conditions,
        groups,
    };
    proof {
        let spec = rule_of_json(input@, id@);
        assert(spec is Ok);
        let sr = spec->Ok_0;
        assert(rule@.id == sr.id);
        assert(rule@.name == sr.name);
        assert(rule@.description == sr.description);
        assert(rule@.enabled == sr.enabled);
        assert(rule@.source_id == sr.source_id);
        assert(rule@.match_mode == sr.match_mode);
        assert(rule@.capture_pre_seconds == sr.capture_pre_seconds);
        assert(rule@.message == sr.message);
        assert(rule@.timeout_seconds == sr.timeout_seconds);
        assert(rule@.delivery_channel == sr.delivery_channel);
        assert(rule@.delivery_target == sr.delivery_target);
        assert(rule@.conditions == sr.conditions);
        assert(rule@.groups == sr.groups);
        assert(rule@ == sr);
    }
    Ok(rule)
}

/// uuid's `Uuid::new_v4().to_string()`. Trusted: the id is random, and written in uuid's hyphenated
/// form, which is 36 characters long (`Hyphenated::LENGTH`).
#[verifier::external_body]
pub(crate) fn new_uuid() -> (r: String)
    ensures
        r@.len() == 36,
{
    uuid::Uuid::new_v4().to_string()
}

/// The rule a tool input describes, with a new random id.
pub fn parse_rule_from_json(input: &Json) -> (r: Result<Rule, String>)
    ensures
        exists|id: Seq<char>| #[trigger] rule_of_json(input@, id) == match r {
            Ok(rule) => Ok::<RuleView, Seq<char>>(rule@),
            Err(e) => Err::<RuleView, Seq<char>>(e@),
        },
{
    let id = new_uuid();
    let ghost idv = id@;
    let r = rule_from_json(input, id);
    proof {
        assert(rule_of_json(input@, idv) == match r {
            Ok(rule) => Ok::<RuleView, Seq<char>>(rule@),
            Err(e) => Err::<RuleView, Seq<char>>(e@),
        });
    }
    r
}

/// The patch a tool input describes: each field the input sets (with the right JSON type);
/// `description` set to `null` clears the description.
pub open spec fn patch_of_json(input: JsonView) -> PatchView {
    PatchView {
        name: json_str(json_get(input, "name"@)),
        description: match json_get(input, "description"@) {
            Some(JsonView::Null) => Some(None),
            Some(JsonView::Str(s)) => Some(Some(s)),
            _ => None,
        },
        enabled: json_bool(json_get(input, "enabled"@)),
        message: json_str(json_get(input, "message"@)),
        timeout_seconds: match json_u64(json_get(input, "timeout_seconds"@)) {
            Some(t) => Some(t as u32),
            None => None,
        },
        delivery_channel: json_str(json_get(input, "delivery_channel"@)),
        delivery_target: json_str(json_get(input, "delivery_target"@)),
        conditions: match json_array(json_get(input, "conditions"@)) {
            Some(a) => Some(conditions_of_json(a)),
            None => None,
        },
        groups: match json_array(json_get(input, "groups"@)) {
            Some(a) => Some(groups_of_json(a, a.len())),
            None => None,
        },
    }
}

/// The patch a tool input describes (see `patch_of_json`).
pub fn parse_patch_from_json(input: &Json) -> (r: RulePatch)
    ensures
        r@ == patch_of_json(input@),
{
    let description = patch_description(input);
    let timeout_seconds = match get_u64(input, "timeout_seconds") {
        Some(t) => Some(#[verifier::truncate] (t as u32)),
        None => None,
    };
    let conditions = match get_array(input, "conditions") {
        Some(a) => Some(parse_conditions_from_json(a)),
        None => None,
    };
    let groups = match get_array(input, "groups") {
        Some(a) => Some(parse_groups_from_json(a)),
        None => None,
    };
    let patch = RulePatch {
        name: get_string(input, "name"),
        description,
        enabled: get_bool(input, "enabled"),
        message: get_string(input, "message"),
        timeout_seconds,
        delivery_channel: get_string(input, "delivery_channel"),
        delivery_target: get_string(input, "delivery_target"),
        conditions,
        groups,
    };
    proof {
        let sp = patch_of_json(input@);
        assert(patch@.name == sp.name);
        assert(patch@.description == sp.description);
        assert(patch@.conditions == sp.conditions);
        assert(patch@.groups == sp.groups);
        assert(patch@ == sp);
    }
    patch
}

fn patch_description(input: &Json) -> (r: Option<Option<String>>)
    ensures
        match r {
            Some(Some(s)) => patch_of_json(input@).description == Some(Some(s@)),
            Some(None) => patch_of_json(input@).description == Some(None::<Seq<char>>),
            None => patch_of_json(input@).description is None,
        },
{
    match input.get("description") {
        Some(d) => {
            proof {
                reveal_with_fuel(crate::json::json_view, 1);
            }
            if d.is_null() {
                Some(None)
            } else {
                match d.as_str() {
                    Some(s) => Some(Some(text_of(s))),
                    None => None,
                }
            }
        },
        None => None,
    }
}


// ---------------------------------------------------------------------------
// The request a tool call makes
// ---------------------------------------------------------------------------

/// What a call of the rule tool asks for.
#[derive(Debug)]
pub enum RuleRequest {
    /// The engine's status.
    Status,
    /// All rules.
    List,
    /// A new rule, to be written to storage and then added to the engine.
    Add(Rule),
    /// A change to the rule with this id.
    Update(String, RulePatch),
    /// The removal of the rule with this id.
    Remove(String),
    /// A run of the rule with this id, now.
    Run(String),
    /// All event sources.
    ListSources,
    /// Nothing can be asked: the call is answered with this error.
    Refused(String),
}

/// The mathematical value of a request.
pub enum RequestView {
    Status,
    List,
    Add(RuleView),
    Update(Seq<char>, PatchView),
    Remove(Seq<char>),
    Run(Seq<char>),
    ListSources,
    Refused(Seq<char>),
}

impl View for RuleRequest {
    type V = RequestView;

    open spec fn view(&self) -> RequestView {
        match self {
            RuleRequest::Status => RequestView::Status,
            RuleRequest::List => RequestView::List,
            RuleRequest::Add(r) => RequestView::Add(r@),
            RuleRequest::Update(id, p) => RequestView::Update(id@, p@),
            RuleRequest::Remove(id) => RequestView::Remove(id@),
            RuleRequest::Run(id) => RequestView::Run(id@),
            RuleRequest::ListSources => RequestView::ListSources,
            RuleRequest::Refused(e) => RequestView::Refused(e@),
        }
    }
}

/// The `action` of a tool input (empty when it has none).
pub open spec fn action_of(input: JsonView) -> Seq<char> {
    or_keep(json_str(json_get(input, "action"@)), ""@)
}

/// The error of a call that needs an `id` and has none.
pub open spec fn missing_id_text() -> Seq<char> {
    "Missing required parameter: id"@
}

/// A request that needs the input's `id`, or the refusal when it has none.
pub open spec fn with_id(input: JsonView, f: spec_fn(Seq<char>) -> RequestView) -> RequestView {
    match json_str(json_get(input, "id"@)) {
        Some(id) => f(id),
        None => RequestView::Refused(missing_id_text()),
    }
}

/// The request a tool input makes, where a new rule gets the id `new_id`.
pub open spec fn request_spec(input: JsonView, new_id: Seq<char>) -> RequestView {
    let a = action_of(input);
    if a == "status"@ {
        RequestView::Status
    } else if a == "list"@ {
        RequestView::List
    } else if a == "add"@ {
        match rule_of_json(input, new_id) {
            Ok(r) => RequestView::Add(r),
            Err(e) => RequestView::Refused("Invalid rule parameters: "@ + e),
        }
    } else if a == "update"@ {
        with_id(input, |id: Seq<char>| RequestView::Update(id, patch_of_json(input)))
    } else if a == "remove"@ {
        with_id(input, |id: Seq<char>| RequestView::Remove(id))
    } else if a == "run"@ {
        with_id(input, |id: Seq<char>| RequestView::Run(id))
    } else if a == "list-sources"@ {
        RequestView::ListSources
    } else {
        RequestView::Refused("Unknown action: "@ + a)
    }
}

/// A text made of `a` and then `b`.
fn joined(a: &str, b: &str) -> (r: String)
    ensures
        r@ == a@ + b@,
{
    let mut s = text_of(a);
    push(&mut s, b);
    s
}

/// The request a tool input makes, where a new rule gets the id `new_id` (see `request_spec`).
pub fn request_with_id(input: &Json, new_id: String) -> (r: RuleRequest)
    ensures
        r@ == request_spec(input@, new_id@),
{
    proof {
        reveal_strlit("status");
        reveal_strlit("list");
        reveal_strlit("add");
        reveal_strlit("update");
        reveal_strlit("remove");
        reveal_strlit("run");
        reveal_strlit("list-sources");
        reveal_strlit("");
    }
    let action: &str = match get_str(input, "action") {
        Some(a) => a,
        None => "",
    };
    let ghost a = action_of(input@);
    assert(action@ == a);
    if str_eq(action, "status") {
        RuleRequest::Status
    } else if str_eq(action, "list") {
        RuleRequest::List
    } else if str_eq(action, "add") {
        match rule_from_json(input, new_id) {
            Ok(rule) => RuleRequest::Add(rule),
            Err(e) => RuleRequest::Refused(joined("Invalid rule parameters: ", e.as_str())),
        }
    } else if str_eq(action, "update") || str_eq(action, "remove") || str_eq(action, "run") {
        match get_string(input, "id") {
            Some(id) => {
                if str_eq(action, "update") {
                    RuleRequest::Update(id, parse_patch_from_json(input))
                } else if str_eq(action, "remove") {
                    RuleRequest::Remove(id)
                } else {
                    RuleRequest::Run(id)
                }
            },
            None => RuleRequest::Refused(text_of("Missing required parameter: id")),
        }
    } else if str_eq(action, "list-sources") {
        RuleRequest::ListSources
    } else {
        RuleRequest::Refused(joined("Unknown action: ", action))
    }
}

/// The request a tool input makes; a new rule gets a new random id.
pub fn request_of(input: &Json) -> (r: RuleRequest)
    ensures
        exists|id: Seq<char>| #[trigger] request_spec(input@, id) == r@,
{
    let id = new_uuid();
    let ghost idv = id@;
    let r = request_with_id(input, id);
    proof {
        assert(request_spec(input@, idv) == r@);
    }
    r
}

/// Whether a request, once the engine has taken it, makes the rule's cached plan stale:
/// an update that changes the message.
pub fn clears_plan(req: &RuleRequest) -> (b: bool)
    ensures
        b == (req@ matches RequestView::Update(_, p) && p.message is Some),
{
    match req {
        RuleRequest::Update(_, p) => p.message.is_some(),
        _ => false,
    }
}


// ---------------------------------------------------------------------------
// The replies of a tool call
// ---------------------------------------------------------------------------

/// What the tool answers: a JSON document, or an error text.
#[derive(Debug)]
pub enum ToolReply {
    Content(Json),
    Error(String),
}

/// The mathematical value of a reply.
pub enum ReplyView {
    Content(JsonView),
    Error(Seq<char>),
}

impl View for ToolReply {
    type V = ReplyView;

    open spec fn view(&self) -> ReplyView {
        match self {
            ToolReply::Content(j) => ReplyView::Content(j@),
            ToolReply::Error(e) => ReplyView::Error(e@),
        }
    }
}

/// How the work a request needs went, up to the engine's answer.
#[derive(Debug)]
pub enum CommandResult {
    /// The change could not be written to storage (this error).
    NotPersisted(String),
    /// The command could not be sent to the engine.
    NotSent,
    /// The engine's answer never came (this channel error).
    NoReply(String),
    /// The engine answered.
    Answered(Result<(), String>),
}

/// The mathematical value of a command result.
pub enum ResultView {
    NotPersisted(Seq<char>),
    NotSent,
    NoReply(Seq<char>),
    Answered(Result<(), Seq<char>>),
}

impl View for CommandResult {
    type V = ResultView;

    open spec fn view(&self) -> ResultView {
        match self {
            CommandResult::NotPersisted(e) => ResultView::NotPersisted(e@),
            CommandResult::NotSent => ResultView::NotSent,
            CommandResult::NoReply(e) => ResultView::NoReply(e@),
            CommandResult::Answered(Ok(())) => ResultView::Answered(Ok(())),
            CommandResult::Answered(Err(e)) => ResultView::Answered(Err(e@)),
        }
    }
}

/// Whether a result can come of a request: only changes are written to storage, and the
/// engine's answer to a query is its data, not a result.
pub open spec fn result_fits(req: RequestView, res: ResultView) -> bool {
    match req {
        RequestView::Add(_) | RequestView::Update(_, _) | RequestView::Remove(_) => true,
        RequestView::Run(_) => !(res is NotPersisted),
        RequestView::Status | RequestView::List | RequestView::ListSources => res is NotSent || res is NoReply,
        RequestView::Refused(_) => true,
    }
}

/// The error when a change could not be written.
pub open spec fn persist_prefix(req: RequestView) -> Seq<char> {
    match req {
        RequestView::Update(_, _) => "Failed to persist rule update: "@,
        RequestView::Remove(_) => "Failed to persist rule removal: "@,
        _ => "Failed to persist rule: "@,
    }
}

/// The error when the command could not be sent.
pub open spec fn send_failure(req: RequestView) -> Seq<char> {
    match req {
        RequestView::Status => "Failed to send status command"@,
        RequestView::List => "Failed to send list command"@,
        RequestView::ListSources => "Failed to send list-sources command"@,
        RequestView::Update(_, _) => "Rule update persisted but failed to send command"@,
        RequestView::Remove(_) => "Rule removal persisted but failed to send command"@,
        RequestView::Run(_) => "Failed to send run command"@,
        _ => "Rule persisted but failed to send command"@,
    }
}

/// The error before the engine's own error text.
pub open spec fn engine_prefix(req: RequestView) -> Seq<char> {
    match req {
        RequestView::Update(_, _) => "Rule update persisted but engine error: "@,
        RequestView::Remove(_) => "Rule removal persisted but engine error: "@,
        RequestView::Run(_) => "Failed to run rule: "@,
        _ => "Rule persisted but engine error: "@,
    }
}

/// The error before the text of a channel error.
pub open spec fn channel_prefix(req: RequestView) -> Seq<char> {
    match req {
        RequestView::Status => "Failed to get status: "@,
        RequestView::List => "Failed to list rules: "@,
        RequestView::ListSources => "Failed to list sources: "@,
        RequestView::Update(_, _) => "Rule update persisted but channel error: "@,
        RequestView::Remove(_) => "Rule removal persisted but channel error: "@,
        RequestView::Run(_) => "Failed to run rule: "@,
        _ => "Rule persisted but channel error: "@,
    }
}

/// The message of a change that went through.
pub open spec fn success_message(req: RequestView) -> Seq<char> {
    match req {
        RequestView::Update(_, _) => "规则更新成功"@,
        RequestView::Remove(_) => "规则删除成功"@,
        RequestView::Run(_) => "规则已触发执行"@,
        _ => "规则创建成功"@,
    }
}

/// The id of the rule a request is about.
pub open spec fn request_id(req: RequestView) -> Seq<char> {
    match req {
        RequestView::Add(r) => r.id,
        RequestView::Update(id, _) => id,
        RequestView::Remove(id) => id,
        RequestView::Run(id) => id,
        _ => Seq::empty(),
    }
}

/// The document of a change that went through: `success`, the rule's `id`, and a `message`.
pub open spec fn success_json(id: Seq<char>, message: Seq<char>) -> JsonView {
    JsonView::Object(seq![
        ("success"@, JsonView::Bool(true)),
        ("id"@, JsonView::Str(id)),
        ("message"@, JsonView::Str(message)),
    ])
}

/// The reply to a request, given how its work went.
pub open spec fn reply_spec(req: RequestView, res: ResultView) -> ReplyView {
    match req {
        RequestView::Refused(e) => ReplyView::Error(e),
        _ => match res {
            ResultView::NotPersisted(e) => ReplyView::Error(persist_prefix(req) + e),
            ResultView::NotSent => ReplyView::Error(send_failure(req)),
            ResultView::NoReply(e) => ReplyView::Error(channel_prefix(req) + e),
            ResultView::Answered(Err(e)) => ReplyView::Error(engine_prefix(req) + e),
            ResultView::Answered(Ok(())) => ReplyView::Content(success_json(request_id(req), success_message(req))),
        },
    }
}

fn persist_prefix_text(req: &RuleRequest) -> (r: &'static str)
    ensures
        r@ == persist_prefix(req@),
{
    match req {
        RuleRequest::Update(_, _) => "Failed to persist rule update: ",
        RuleRequest::Remove(_) => "Failed to persist rule removal: ",
        _ => "Failed to persist rule: ",
    }
}

fn send_failure_text(req: &RuleRequest) -> (r: &'static str)
    ensures
        r@ == send_failure(req@),
{
    match req {
        RuleRequest::Status => "Failed to send status command",
        RuleRequest::List => "Failed to send list command",
        RuleRequest::ListSources => "Failed to send list-sources command",
        RuleRequest::Update(_, _) => "Rule update persisted but failed to send command",
        RuleRequest::Remove(_) => "Rule removal persisted but failed to send command",
        RuleRequest::Run(_) => "Failed to send run command",
        _ => "Rule persisted but failed to send command",
    }
}

fn engine_prefix_text(req: &RuleRequest) -> (r: &'static str)
    ensures
        r@ == engine_prefix(req@),
{
    match req {
        RuleRequest::Update(_, _) => "Rule update persisted but engine error: ",
        RuleRequest::Remove(_) => "Rule removal persisted but engine error: ",
        RuleRequest::Run(_) => "Failed to run rule: ",
        _ => "Rule persisted but engine error: ",
    }
}

fn channel_prefix_text(req: &RuleRequest) -> (r: &'static str)
    ensures
        r@ == channel_prefix(req@),
{
    match req {
        RuleRequest::Status => "Failed to get status: ",
        RuleRequest::List => "Failed to list rules: ",
        RuleRequest::ListSources => "Failed to list sources: ",
        RuleRequest::Update(_, _) => "Rule update persisted but channel error: ",
        RuleRequest::Remove(_) => "Rule removal persisted but channel error: ",
        RuleRequest::Run(_) => "Failed to run rule: ",
        _ => "Rule persisted but channel error: ",
    }
}

fn success_message_text(req: &RuleRequest) -> (r: &'static str)
    ensures
        r@ == success_message(req@),
{
    match req {
        RuleRequest::Update(_, _) => "规则更新成功",
        RuleRequest::Remove(_) => "规则删除成功",
        RuleRequest::Run(_) => "规则已触发执行",
        _ => "规则创建成功",
    }
}

fn request_id_text(req: &RuleRequest) -> (r: String)
    ensures
        r@ == request_id(req@),
{
    match req {
        RuleRequest::Add(rule) => copy_string(&rule.id),
        RuleRequest::Update(id, _) => copy_string(id),
        RuleRequest::Remove(id) => copy_string(id),
        RuleRequest::Run(id) => copy_string(id),
        _ => String::new(),
    }
}

/// The document of a change that went through (see `success_json`).
pub fn success_document(id: String, message: &str) -> (r: Json)
    ensures
        r@ == success_json(id@, message@),
{
    let mut m: Vec<(String, Json)> = Vec::new();
    proof {
        assert(crate::json::members_view(m@) =~= Seq::empty());
    }
    crate::json::push_member(&mut m, "success", Json::Bool(true));
    crate::json::push_member(&mut m, "id", Json::Str(id));
    crate::json::push_member(&mut m, "message", Json::Str(text_of(message)));
    proof {
        assert(crate::json::members_view(m@) =~= seq![
            ("success"@, JsonView::Bool(true)),
            ("id"@, JsonView::Str(id@)),
            ("message"@, JsonView::Str(message@)),
        ]);
    }
    crate::json::object_of(m)
}

/// The reply to a request, given how its work went (see `reply_spec`).
pub fn command_reply(req: &RuleRequest, res: CommandResult) -> (r: ToolReply)
    requires
        result_fits(req@, res@),
    ensures
        r@ == reply_spec(req@, res@),
{
    match req {
        RuleRequest::Refused(e) => ToolReply::Error(copy_string(e)),
        _ => match res {
            CommandResult::NotPersisted(e) => ToolReply::Error(joined(persist_prefix_text(req), e.as_str())),
            CommandResult::NotSent => ToolReply::Error(text_of(send_failure_text(req))),
            CommandResult::NoReply(e) => ToolReply::Error(joined(channel_prefix_text(req), e.as_str())),
            CommandResult::Answered(Err(e)) => ToolReply::Error(joined(engine_prefix_text(req), e.as_str())),
            CommandResult::Answered(Ok(())) => {
                ToolReply::Content(success_document(request_id_text(req), success_message_text(req)))
            },
        },
    }
}


// ---------------------------------------------------------------------------
// The documents of the queries
// ---------------------------------------------------------------------------

/// An optional integer as JSON: the number, or `null`.
pub open spec fn opt_i64_json(v: Option<i64>) -> JsonView {
    match v {
        Some(x) => json_of_i64(x),
        None => JsonView::Null,
    }
}

/// An optional text as JSON: the string, or `null`.
pub open spec fn opt_text_json(v: Option<Seq<char>>) -> JsonView {
    match v {
        Some(t) => JsonView::Str(t),
        None => JsonView::Null,
    }
}

/// A count as JSON.
pub open spec fn count_json(n: usize) -> JsonView {
    JsonView::PosInt(n as u64)
}

/// A cached plan's state: `exists`, `path`, `created_at_ms`, `steps_count`.
pub open spec fn plan_json(p: PlanCacheStatus) -> JsonView {
    JsonView::Object(seq![
        ("exists"@, JsonView::Bool(p.exists)),
        ("path"@, JsonView::Str(p.path@)),
        ("created_at_ms"@, opt_i64_json(p.created_at_ms)),
        ("steps_count"@, count_json(p.steps_count)),
    ])
}

/// A last run: `source`, `status`, `duration_ms`.
pub open spec fn last_run_json(l: LastRunStatus) -> JsonView {
    JsonView::Object(seq![
        ("source"@, JsonView::Str(l.source@)),
        ("status"@, JsonView::Str(l.status@)),
        ("duration_ms"@, json_of_i64(l.duration_ms)),
    ])
}

/// A rule's state: `id`, `name`, `enabled`, `plan` and `last_run` (each `null` when unknown).
pub open spec fn rule_status_json(r: RuleStatusInfo) -> JsonView {
    JsonView::Object(seq![
        ("id"@, JsonView::Str(r.id@)),
        ("name"@, JsonView::Str(r.name@)),
        ("enabled"@, JsonView::Bool(r.enabled)),
        ("plan"@, match r.plan {
            Some(p) => plan_json(p),
            None => JsonView::Null,
        }),
        ("last_run"@, match r.last_run {
            Some(l) => last_run_json(l),
            None => JsonView::Null,
        }),
    ])
}

/// The answer to `status`: the counts, the next clock wake, and each rule's state.
pub open spec fn status_json(s: EngineStatus) -> JsonView {
    JsonView::Object(seq![
        ("total_rules"@, count_json(s.total_rules)),
        ("enabled_rules"@, count_json(s.enabled_rules)),
        ("next_clock_wake_ms"@, opt_i64_json(s.next_clock_wake_ms)),
        ("active_sources"@, count_json(s.active_sources)),
        ("rules"@, JsonView::Array(s.rules@.map_values(|r: RuleStatusInfo| rule_status_json(r)))),
    ])
}

/// A rule as `list` shows it.
pub open spec fn rule_list_json(r: RuleView) -> JsonView {
    JsonView::Object(seq![
        ("id"@, JsonView::Str(r.id)),
        ("name"@, JsonView::Str(r.name)),
        ("description"@, opt_text_json(r.description)),
        ("enabled"@, JsonView::Bool(r.enabled)),
        ("source_id"@, JsonView::Str(r.source_id)),
        ("message"@, JsonView::Str(r.message)),
        ("timeout_seconds"@, JsonView::PosInt(r.timeout_seconds as u64)),
    ])
}

/// The answer to `list`: the count and each rule.
pub open spec fn list_json(rules: Seq<Rule>) -> JsonView {
    JsonView::Object(seq![
        ("count"@, JsonView::PosInt(rules.len() as u64)),
        ("rules"@, JsonView::Array(rules.map_values(|r: Rule| rule_list_json(r@)))),
    ])
}

/// A source as `list-sources` shows it.
pub open spec fn source_json(s: SourceView) -> JsonView {
    JsonView::Object(seq![
        ("id"@, JsonView::Str(s.id)),
        ("name"@, JsonView::Str(s.name)),
        ("type"@, JsonView::Str(source_type_text(s.source_type))),
        ("endpoint"@, opt_text_json(s.endpoint)),
        ("topic"@, opt_text_json(s.topic)),
    ])
}

/// The answer to `list-sources`: the count and each source.
pub open spec fn sources_json(sources: Seq<EventSource>) -> JsonView {
    JsonView::Object(seq![
        ("count"@, JsonView::PosInt(sources.len() as u64)),
        ("sources"@, JsonView::Array(sources.map_values(|s: EventSource| source_json(s@)))),
    ])
}

fn opt_i64_value(v: Option<i64>) -> (r: Json)
    ensures
        r@ == opt_i64_json(v),
{
    match v {
        Some(x) => json_i64_value(x),
        None => Json::Null,
    }
}

fn count_value(n: usize) -> (r: Json)
    ensures
        r@ == count_json(n),
{
    Json::PosInt(n as u64)
}

fn plan_document(p: &PlanCacheStatus) -> (r: Json)
    ensures
        r@ == plan_json(*p),
{
    let mut m: Vec<(String, Json)> = Vec::new();
    proof {
        assert(crate::json::members_view(m@) =~= Seq::empty());
    }
    push_member(&mut m, "exists", Json::Bool(p.exists));
    push_member(&mut m, "path", Json::Str(copy_string(&p.path)));
    push_member(&mut m, "created_at_ms", opt_i64_value(p.created_at_ms));
    push_member(&mut m, "steps_count", count_value(p.steps_count));
    proof {
        assert(crate::json::members_view(m@) =~= seq![
            ("exists"@, JsonView::Bool(p.exists)),
            ("path"@, JsonView::Str(p.path@)),
            ("created_at_ms"@, opt_i64_json(p.created_at_ms)),
            ("steps_count"@, count_json(p.steps_count)),
        ]);
    }
    object_of(m)
}

fn last_run_document(l: &LastRunStatus) -> (r: Json)
    ensures
        r@ == last_run_json(*l),
{
    let mut m: Vec<(String, Json)> = Vec::new();
    proof {
        assert(crate::json::members_view(m@) =~= Seq::empty());
    }
    push_member(&mut m, "source", Json::Str(copy_string(&l.source)));
    push_member(&mut m, "status", Json::Str(copy_string(&l.status)));
    push_member(&mut m, "duration_ms", json_i64_value(l.duration_ms));
    proof {
        assert(crate::json::members_view(m@) =~= seq![
            ("source"@, JsonView::Str(l.source@)),
            ("status"@, JsonView::Str(l.status@)),
            ("duration_ms"@, json_of_i64(l.duration_ms)),
        ]);
    }
    object_of(m)
}

fn rule_status_document(r: &RuleStatusInfo) -> (j: Json)
    ensures
        j@ == rule_status_json(*r),
{
    let mut m: Vec<(String, Json)> = Vec::new();
    proof {
        assert(crate::json::members_view(m@) =~= Seq::empty());
    }
    push_member(&mut m, "id", Json::Str(copy_string(&r.id)));
    push_member(&mut m, "name", Json::Str(copy_string(&r.name)));
    push_member(&mut m, "enabled", Json::Bool(r.enabled));
    let plan = match &r.plan {
        Some(p) => plan_document(p),
        None => Json::Null,
    };
    push_member(&mut m, "plan", plan);
    let last = match &r.last_run {
        Some(l) => last_run_document(l),
        None => Json::Null,
    };
    push_member(&mut m, "last_run", last);
    proof {
        assert(crate::json::members_view(m@) =~= seq![
            ("id"@, JsonView::Str(r.id@)),
            ("name"@, JsonView::Str(r.name@)),
            ("enabled"@, JsonView::Bool(r.enabled)),
            ("plan"@, match r.plan {
                Some(p) => plan_json(p),
                None => JsonView::Null,
            }),
            ("last_run"@, match r.last_run {
                Some(l) => last_run_json(l),
                None => JsonView::Null,
            }),
        ]);
    }
    object_of(m)
}

/// The answer to `status` (see `status_json`).
pub fn status_document(s: &EngineStatus) -> (r: Json)
    ensures
        r@ == status_json(*s),
{
    let mut items: Vec<Json> = Vec::new();
    let mut i: usize = 0;
    while i < s.rules.len()
        invariant
            i <= s.rules@.len(),
            crate::json::jsons_view(items@)
                =~= s.rules@.take(i as int).map_values(|r: RuleStatusInfo| rule_status_json(r)),
        decreases s.rules.len() - i,
    {
        let x = rule_status_document(&s.rules[i]);
        push_item(&mut items, x);
        proof {
            assert(s.rules@.take(i + 1) =~= s.rules@.take(i as int).push(s.rules@[i as int]));
        }
        i = i + 1;
    }
    proof {
        assert(s.rules@.take(i as int) =~= s.rules@);
    }
    let rules = array_of(items);
    let mut m: Vec<(String, Json)> = Vec::new();
    proof {
        assert(crate::json::members_view(m@) =~= Seq::empty());
    }
    push_member(&mut m, "total_rules", count_value(s.total_rules));
    push_member(&mut m, "enabled_rules", count_value(s.enabled_rules));
    push_member(&mut m, "next_clock_wake_ms", opt_i64_value(s.next_clock_wake_ms));
    push_member(&mut m, "active_sources", count_value(s.active_sources));
    push_member(&mut m, "rules", rules);
    proof {
        assert(crate::json::members_view(m@) =~= seq![
            ("total_rules"@, count_json(s.total_rules)),
            ("enabled_rules"@, count_json(s.enabled_rules)),
            ("next_clock_wake_ms"@, opt_i64_json(s.next_clock_wake_ms)),
            ("active_sources"@, count_json(s.active_sources)),
            ("rules"@, JsonView::Array(s.rules@.map_values(|r: RuleStatusInfo| rule_status_json(r)))),
        ]);
    }
    object_of(m)
}

fn rule_list_document(r: &Rule) -> (j: Json)
    ensures
        j@ == rule_list_json(r@),
{
    let mut m: Vec<(String, Json)> = Vec::new();
    proof {
        assert(crate::json::members_view(m@) =~= Seq::empty());
    }
    push_member(&mut m, "id", Json::Str(copy_string(&r.id)));
    push_member(&mut m, "name", Json::Str(copy_string(&r.name)));
    push_member(&mut m, "description", opt_str_value(&r.description));
    push_member(&mut m, "enabled", Json::Bool(r.enabled));
    push_member(&mut m, "source_id", Json::Str(copy_string(&r.source_id)));
    push_member(&mut m, "message", Json::Str(copy_string(&r.message)));
    push_member(&mut m, "timeout_seconds", Json::PosInt(r.timeout_seconds as u64));
    proof {
        assert(crate::json::members_view(m@) =~= seq![
            ("id"@, JsonView::Str(r@.id)),
            ("name"@, JsonView::Str(r@.name)),
            ("description"@, opt_text_json(r@.description)),
            ("enabled"@, JsonView::Bool(r@.enabled)),
            ("source_id"@, JsonView::Str(r@.source_id)),
            ("message"@, JsonView::Str(r@.message)),
            ("timeout_seconds"@, JsonView::PosInt(r@.timeout_seconds as u64)),
        ]);
    }
    object_of(m)
}

/// The answer to `list` (see `list_json`).
pub fn list_document(rules: &Vec<Rule>) -> (r: Json)
    ensures
        r@ == list_json(rules@),
{
    let mut items: Vec<Json> = Vec::new();
    let mut i: usize = 0;
    while i < rules.len()
        invariant
            i <= rules@.len(),
            crate::json::jsons_view(items@) =~= rules@.take(i as int).map_values(|r: Rule| rule_list_json(r@)),
        decreases rules.len() - i,
    {
        let x = rule_list_document(&rules[i]);
        push_item(&mut items, x);
        proof {
            assert(rules@.take(i + 1) =~= rules@.take(i as int).push(rules@[i as int]));
        }
        i = i + 1;
    }
    proof {
        assert(rules@.take(i as int) =~= rules@);
    }
    let arr = array_of(items);
    let mut m: Vec<(String, Json)> = Vec::new();
    proof {
        assert(crate::json::members_view(m@) =~= Seq::empty());
    }
    push_member(&mut m, "count", Json::PosInt(rules.len() as u64));
    push_member(&mut m, "rules", arr);
    proof {
        assert(crate::json::members_view(m@) =~= seq![
            ("count"@, JsonView::PosInt(rules@.len() as u64)),
            ("rules"@, JsonView::Array(rules@.map_values(|r: Rule| rule_list_json(r@)))),
        ]);
    }
    object_of(m)
}

fn source_document(s: &EventSource) -> (j: Json)
    ensures
        j@ == source_json(s@),
{
    let mut m: Vec<(String, Json)> = Vec::new();
    proof {
        assert(crate::json::members_view(m@) =~= Seq::empty());
    }
    push_member(&mut m, "id", Json::Str(copy_string(&s.id)));
    push_member(&mut m, "name", Json::Str(copy_string(&s.name)));
    push_member(&mut m, "type", Json::Str(text_of(s.source_type.as_str())));
    push_member(&mut m, "endpoint", opt_str_value(&s.endpoint));
    push_member(&mut m, "topic", opt_str_value(&s.topic));
    proof {
        assert(crate::json::members_view(m@) =~= seq![
            ("id"@, JsonView::Str(s@.id)),
            ("name"@, JsonView::Str(s@.name)),
            ("type"@, JsonView::Str(source_type_text(s@.source_type))),
            ("endpoint"@, opt_text_json(s@.endpoint)),
            ("topic"@, opt_text_json(s@.topic)),
        ]);
    }
    object_of(m)
}

/// The answer to `list-sources` (see `sources_json`).
pub fn sources_document(sources: &Vec<EventSource>) -> (r: Json)
    ensures
        r@ == sources_json(sources@),
{
    let mut items: Vec<Json> = Vec::new();
    let mut i: usize = 0;
    while i < sources.len()
        invariant
            i <= sources@.len(),
            crate::json::jsons_view(items@) =~= sources@.take(i as int).map_values(|s: EventSource| source_json(s@)),
        decreases sources.len() - i,
    {
        let x = source_document(&sources[i]);
        push_item(&mut items, x);
        proof {
            assert(sources@.take(i + 1) =~= sources@.take(i as int).push(sources@[i as int]));
        }
        i = i + 1;
    }
    proof {
        assert(sources@.take(i as int) =~= sources@);
    }
    let arr = array_of(items);
    let mut m: Vec<(String, Json)> = Vec::new();
    proof {
        assert(crate::json::members_view(m@) =~= Seq::empty());
    }
    push_member(&mut m, "count", Json::PosInt(sources.len() as u64));
    push_member(&mut m, "sources", arr);
    proof {
        assert(crate::json::members_view(m@) =~= seq![
            ("count"@, JsonView::PosInt(sources@.len() as u64)),
            ("sources"@, JsonView::Array(sources@.map_values(|s: EventSource| source_json(s@)))),
        ]);
    }
    object_of(m)
}

} // verus!
