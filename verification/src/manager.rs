//! A memory kept as a base file and one delta file per recorded action: what each new delta file
//! is called, which file it extends, and how many deltas a history directory holds.

use vstd::prelude::*;
use crate::context::{ActionResult, ContextStatus, MemoryStatus};
use crate::json::Json;
use crate::memory::{last_n, zero_padded, Action, ActionView, Memory};
use crate::rule::{copy_string, push, text_of};
use crate::rule_tool::new_uuid;
use crate::storage::{file_seq, file_sequence};
use crate::text::{chars_of, str_eq, texts_of};

verus! {

/// Whether a file name ends with `.xml`.
pub open spec fn ends_with_xml(n: Seq<char>) -> bool {
    n.len() >= 4 && n.subrange(n.len() - 4, n.len() as int) == ".xml"@
}

/// Whether a file of the history directory is a delta: an XML file other than `base.xml` and
/// `current.xml`.
pub open spec fn is_delta_name(n: Seq<char>) -> bool {
    ends_with_xml(n) && n != "base.xml"@ && n != "current.xml"@
}

/// Whether one name comes before another, character by character (the order `str` sorts by).
pub open spec fn text_lt(a: Seq<char>, b: Seq<char>) -> bool
    decreases a.len(),
{
    if a.len() == 0 {
        b.len() > 0
    } else if b.len() == 0 {
        false
    } else if a[0] != b[0] {
        (a[0] as u32) < (b[0] as u32)
    } else {
        text_lt(a.drop_first(), b.drop_first())
    }
}

/// The delta file that sorts last among a directory's names, if there is one.
pub open spec fn last_delta(ns: Seq<Seq<char>>) -> Option<Seq<char>>
    decreases ns.len(),
{
    if ns.len() == 0 {
        None
    } else {
        let g = last_delta(ns.drop_last());
        let n = ns.last();
        if !is_delta_name(n) {
            g
        } else {
            match g {
                None => Some(n),
                Some(x) => if text_lt(n, x) { Some(x) } else { Some(n) },
            }
        }
    }
}

/// The file the `counter`-th delta extends: `base.xml` for the first, else the delta file that
/// sorts last in the directory (`base.xml` when there is none).
pub open spec fn extends_for(counter: nat, ns: Seq<Seq<char>>) -> Seq<char> {
    if counter == 1 {
        "base.xml"@
    } else {
        match last_delta(ns) {
            Some(n) => n,
            None => "base.xml"@,
        }
    }
}

/// The name of the `counter`-th delta file, for the action `id`: `{counter:03}_{id}.xml`.
pub open spec fn delta_name(counter: nat, id: Seq<char>) -> Seq<char> {
    zero_padded(counter, 3) + "_"@ + id + ".xml"@
}

/// How many delta files of a directory carry a sequence number.
pub open spec fn numbered_deltas(ns: Seq<Seq<char>>) -> nat
    decreases ns.len(),
{
    if ns.len() == 0 {
        0
    } else {
        numbered_deltas(ns.drop_last()) + if is_delta_name(ns.last()) && file_seq(ns.last()) is Some { 1nat } else { 0nat }
    }
}

proof fn lemma_numbered_deltas_len(ns: Seq<Seq<char>>)
    ensures
        numbered_deltas(ns) <= ns.len(),
    decreases ns.len(),
{
    if ns.len() > 0 {
        lemma_numbered_deltas_len(ns.drop_last());
    }
}

fn ends_with_xml_exec(n: &str) -> (b: bool)
    ensures
        b == ends_with_xml(n@),
{
    let cs = chars_of(n);
    let len = cs.len();
    if len < 4 {
        return false;
    }
    let b = cs[len - 4] == '.' && cs[len - 3] == 'x' && cs[len - 2] == 'm' && cs[len - 1] == 'l';
    proof {
        reveal_strlit(".xml");
        let t = n@.subrange(len - 4, len as int);
        if b {
            assert(t =~= ".xml"@);
        } else {
            assert(t != ".xml"@) by {
                if t == ".xml"@ {
                    assert(t[0] == cs@[len - 4] && t[1] == cs@[len - 3] && t[2] == cs@[len - 2] && t[3] == cs@[len - 1]);
                }
            }
        }
    }
    b
}

/// Whether a file name is a delta of the history directory (see `is_delta_name`).
pub fn is_delta_file(n: &str) -> (b: bool)
    ensures
        b == is_delta_name(n@),
{
    ends_with_xml_exec(n) && !str_eq(n, "base.xml") && !str_eq(n, "current.xml")
}

fn text_less(a: &str, b: &str) -> (r: bool)
    ensures
        r == text_lt(a@, b@),
{
    let x = chars_of(a);
    let y = chars_of(b);
    let mut i: usize = 0;
    proof {
        assert(x@.skip(0) =~= x@);
        assert(y@.skip(0) =~= y@);
    }
    while i < x.len() && i < y.len()
        invariant
            i <= x@.len(),
            i <= y@.len(),
            text_lt(a@, b@) == text_lt(x@.skip(i as int), y@.skip(i as int)),
        decreases x.len() - i,
    {
        let p = x[i];
        let q = y[i];
        proof {
            assert(x@.skip(i as int).len() > 0 && y@.skip(i as int).len() > 0);
            assert(x@.skip(i as int)[0] == p);
            assert(y@.skip(i as int)[0] == q);
            assert(x@.skip(i as int).drop_first() =~= x@.skip(i + 1));
            assert(y@.skip(i as int).drop_first() =~= y@.skip(i + 1));
        }
        if p != q {
            return (p as u32) < (q as u32);
        }
        i = i + 1;
    }
    proof {
        assert(x@.skip(i as int).len() == x@.len() - i);
        assert(y@.skip(i as int).len() == y@.len() - i);
    }
    i == x.len() && i < y.len()
}

/// The delta file that sorts last among a directory's names (see `last_delta`).
pub fn last_delta_file(names: &Vec<String>) -> (r: Option<String>)
    ensures
        match r {
            Some(n) => last_delta(texts_of(names@)) == Some(n@),
            None => last_delta(texts_of(names@)) is None,
        },
{
    let ghost nv = texts_of(names@);
    let mut best: Option<String> = None;
    let mut i: usize = 0;
    proof {
        assert(nv.take(0) =~= Seq::<Seq<char>>::empty());
    }
    while i < names.len()
        invariant
            i <= names@.len(),
            nv == texts_of(names@),
            match best {
                Some(n) => last_delta(nv.take(i as int)) == Some(n@),
                None => last_delta(nv.take(i as int)) is None,
            },
        decreases names.len() - i,
    {
        let n = &names[i];
        proof {
            let t = nv.take(i + 1);
            assert(t.drop_last() =~= nv.take(i as int));
            assert(t.last() == n@);
        }
        if is_delta_file(n.as_str()) {
            let replace = match &best {
                None => true,
                Some(x) => !text_less(n.as_str(), x.as_str()),
            };
            if replace {
                best = Some(copy_string(n));
            }
        }
        i = i + 1;
    }
    proof {
        assert(nv.take(names@.len() as int) =~= nv);
    }
    best
}

/// The file the `counter`-th delta extends (see `extends_for`).
pub fn extends_file(counter: u32, names: &Vec<String>) -> (r: String)
    ensures
        r@ == extends_for(counter as nat, texts_of(names@)),
{
    if counter == 1 {
        return text_of("base.xml");
    }
    match last_delta_file(names) {
        Some(n) => n,
        None => text_of("base.xml"),
    }
}

/// The name of the `counter`-th delta file for an action (see `delta_name`).
pub fn delta_file_name(counter: u32, id: &str) -> (r: String)
    ensures
        r@ == delta_name(counter as nat, id@),
{
    let mut t = String::new();
    proof {
        assert(t@ == Seq::<char>::empty());
    }
    crate::memory::push_padded(&mut t, counter as u64, 3);
    push(&mut t, "_");
    push(&mut t, id);
    push(&mut t, ".xml");
    t
}

/// How many delta files of a directory carry a sequence number (see `numbered_deltas`).
pub fn count_numbered_deltas(names: &Vec<String>) -> (r: usize)
    ensures
        r == numbered_deltas(texts_of(names@)),
{
    let ghost nv = texts_of(names@);
    let mut count: usize = 0;
    let mut i: usize = 0;
    proof {
        assert(nv.take(0) =~= Seq::<Seq<char>>::empty());
    }
    while i < names.len()
        invariant
            i <= names@.len(),
            nv == texts_of(names@),
            count == numbered_deltas(nv.take(i as int)),
            count <= i,
        decreases names.len() - i,
    {
        let n = &names[i];
        proof {
            let t = nv.take(i + 1);
            assert(t.drop_last() =~= nv.take(i as int));
            assert(t.last() == n@);
        }
        if is_delta_file(n.as_str()) && file_sequence(n.as_str()).is_some() {
            count = count + 1;
        }
        i = i + 1;
    }
    proof {
        assert(nv.take(names@.len() as int) =~= nv);
    }
    count
}

/// A delta file to write for a recorded action: the action's id, the file's name and the file
/// it extends. Its text is the memory's id and version with the action appended to the history.
#[derive(Debug)]
pub struct DeltaPlan {
    pub action_id: String,
    pub file_name: String,
    pub extends: String,
}

/// A memory together with the number of delta files written for it.
#[derive(Debug)]
pub struct ContextManager {
    pub context: Memory,
    pub delta_counter: u32,
}

impl ContextManager {
    /// A manager of a new memory of an intent, with no delta yet.
    pub fn new(intent: String) -> (r: ContextManager)
        ensures
            r.context.intent@ == intent@,
            r.context.version == 1,
            r.context.status == MemoryStatus::Pending,
            r.context.history@ == Seq::<ActionView>::empty(),
            r.context.current@ == Seq::<ActionView>::empty(),
            r.delta_counter == 0,
    {
        ContextManager { context: Memory::new(intent), delta_counter: 0 }
    }

    /// A manager of a memory read back from a history directory, counting the numbered delta
    /// files among the directory's names.
    pub fn load(context: Memory, names: &Vec<String>) -> (r: ContextManager)
        requires
            names@.len() <= u32::MAX,
        ensures
            r.context == context,
            r.delta_counter == numbered_deltas(texts_of(names@)),
    {
        let n = count_numbered_deltas(names);
        proof {
            lemma_numbered_deltas_len(texts_of(names@));
        }
        ContextManager { context, delta_counter: n as u32 }
    }

    /// The managed memory.
    pub fn context(&self) -> (r: &Memory)
        ensures
            r == &self.context,
    {
        &self.context
    }

    /// Records an action and names its delta file: the action is added to the memory, the
    /// counter goes up, and the file is `delta_name(counter, id)`, extending `extends_for`.
    fn record(&mut self, action: Action, names: &Vec<String>) -> (r: DeltaPlan)
        requires
            old(self).context.version < u32::MAX,
            old(self).delta_counter < u32::MAX,
        ensures
            final(self).context.history@ == old(self).context.history@.push(action@),
            final(self).context.current@ == last_n(old(self).context.current@.push(action@), 10),
            final(self).context.version == old(self).context.version + 1,
            final(self).context.status == old(self).context.status,
            final(self).delta_counter == old(self).delta_counter + 1,
            r.action_id@ == action@.id,
            r.file_name@ == delta_name(final(self).delta_counter as nat, action@.id),
            r.extends@ == extends_for(final(self).delta_counter as nat, texts_of(names@)),
    {
        let id = copy_string(&action.id);
        self.context.add_action(action);
        self.delta_counter = self.delta_counter + 1;
        let file_name = delta_file_name(self.delta_counter, id.as_str());
        let extends = extends_file(self.delta_counter, names);
        DeltaPlan { action_id: id, file_name, extends }
    }

    /// Records a thought with a new id (see `record`).
    pub fn add_thought(&mut self, content: String, names: &Vec<String>) -> (r: DeltaPlan)
        requires
            old(self).context.version < u32::MAX,
            old(self).delta_counter < u32::MAX,
        ensures
            final(self).context.history@ == old(self).context.history@.push(ActionView {
                id: r.action_id@,
                name: "thought"@,
                action_type: crate::context::ActionType::Thought,
                override_rule: None,
                arguments: None,
                result: Some(crate::memory::ok_result(content@, false)),
            }),
            final(self).context.version == old(self).context.version + 1,
            final(self).delta_counter == old(self).delta_counter + 1,
            r.action_id@.len() == 36,
            r.file_name@ == delta_name(final(self).delta_counter as nat, r.action_id@),
            r.extends@ == extends_for(final(self).delta_counter as nat, texts_of(names@)),
    {
        let id = new_uuid();
        let action = Action::thought(id, content);
        self.record(action, names)
    }

    /// Records a tool call with its arguments and an empty successful result, with a new id.
    pub fn add_tool_call(&mut self, tool_name: String, arguments: Json, names: &Vec<String>) -> (r: DeltaPlan)
        requires
            old(self).context.version < u32::MAX,
            old(self).delta_counter < u32::MAX,
        ensures
            final(self).context.history@ == old(self).context.history@.push(ActionView {
                id: r.action_id@,
                name: tool_name@,
                action_type: crate::context::ActionType::ToolCall,
                override_rule: None,
                arguments: Some(arguments@),
                result: Some(crate::memory::ok_result(Seq::<char>::empty(), false)),
            }),
            final(self).context.version == old(self).context.version + 1,
            final(self).delta_counter == old(self).delta_counter + 1,
            r.action_id@.len() == 36,
            r.file_name@ == delta_name(final(self).delta_counter as nat, r.action_id@),
            r.extends@ == extends_for(final(self).delta_counter as nat, texts_of(names@)),
    {
        let id = new_uuid();
        let action = Action::tool(id, tool_name, arguments, ActionResult::ok(String::new()));
        self.record(action, names)
    }

    /// Records a tool's result (with no arguments), with a new id.
    pub fn add_tool_result(&mut self, tool_name: String, result: ActionResult, names: &Vec<String>) -> (r: DeltaPlan)
        requires
            old(self).context.version < u32::MAX,
            old(self).delta_counter < u32::MAX,
        ensures
            final(self).context.history@ == old(self).context.history@.push(ActionView {
                id: r.action_id@,
                name: tool_name@,
                action_type: crate::context::ActionType::ToolCall,
                override_rule: None,
                arguments: Some(crate::json::JsonView::Null),
                result: Some(result@),
            }),
            final(self).context.version == old(self).context.version + 1,
            final(self).delta_counter == old(self).delta_counter + 1,
            r.action_id@.len() == 36,
            r.file_name@ == delta_name(final(self).delta_counter as nat, r.action_id@),
            r.extends@ == extends_for(final(self).delta_counter as nat, texts_of(names@)),
    {
        let id = new_uuid();
        let action = Action::tool(id, tool_name, Json::Null, result);
        self.record(action, names)
    }

    /// Records a system message with a new id.
    pub fn add_system_message(&mut self, content: String, names: &Vec<String>) -> (r: DeltaPlan)
        requires
            old(self).context.version < u32::MAX,
            old(self).delta_counter < u32::MAX,
        ensures
            final(self).context.history@ == old(self).context.history@.push(ActionView {
                id: r.action_id@,
                name: "system"@,
                action_type: crate::context::ActionType::SystemMessage,
                override_rule: None,
                arguments: None,
                result: Some(crate::memory::ok_result(content@, false)),
            }),
            final(self).context.version == old(self).context.version + 1,
            final(self).delta_counter == old(self).delta_counter + 1,
            r.action_id@.len() == 36,
            r.file_name@ == delta_name(final(self).delta_counter as nat, r.action_id@),
            r.extends@ == extends_for(final(self).delta_counter as nat, texts_of(names@)),
    {
        let id = new_uuid();
        let action = Action::system_message(id, content);
        self.record(action, names)
    }

    /// The ids of the recent actions, oldest first.
    pub fn get_current_ids(&self) -> (r: Vec<String>)
        ensures
            texts_of(r@) == self.context.current@.map_values(|a: ActionView| a.id),
    {
        let acts = self.context.current.iter();
        let mut out: Vec<String> = Vec::new();
        let mut i: usize = 0;
        while i < acts.len()
            invariant
                i <= acts@.len(),
                crate::memory::actions_view(acts@) == self.context.current@,
                texts_of(out@) =~= self.context.current@.map_values(|a: ActionView| a.id).take(i as int),
            decreases acts.len() - i,
        {
            let ghost prev = out@;
            out.push(copy_string(&acts[i].id));
            proof {
                assert(self.context.current@[i as int] == acts@[i as int]@);
                assert(texts_of(out@) =~= texts_of(prev).push(acts@[i as int]@.id));
            }
            i = i + 1;
        }
        proof {
            assert(self.context.current@.map_values(|a: ActionView| a.id).take(acts@.len() as int)
                =~= self.context.current@.map_values(|a: ActionView| a.id));
        }
        out
    }

    /// Sets the memory's status, named as the context names it.
    pub fn set_status(&mut self, status: ContextStatus)
        requires
            old(self).context.version < u32::MAX,
        ensures
            final(self).context.status == crate::context::memory_of_context(status),
            final(self).context.history@ == old(self).context.history@,
            final(self).delta_counter == old(self).delta_counter,
    {
        self.context.set_status(MemoryStatus::from_context(status));
    }
}

} // verus!
