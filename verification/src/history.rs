//! An agent's memory as a numbered chain of delta files (`N_kind.xml`), each extending the one
//! before: which files there are, the delta each step writes, and what is read back from them.

use vstd::prelude::*;
use crate::rule::{copy_string, push, text_of};
use crate::storage::{file_seq, file_sequence, is_delta_file_name, is_delta_name};
use crate::ynode::{
    empty_node, entries_insert_all, extends_chain, named_texts, names_of, node_text, nodes_view, parse_tokens, yerror_text, NodeView,
    YErrorView, YNode,
};
use crate::xml_token::xml_rs_read;
use crate::text::{contains_seq, contains_text, decimal, escape_seq, str_eq, texts_of, u64_to_string, xml_escape};

verus! {

// ---------------------------------------------------------------------------
// The history files
// ---------------------------------------------------------------------------

/// Whether a directory entry is a history file: `N_….xml` with `N` a `u32`, other than
/// `current.xml`.
pub open spec fn is_history_name(name: Seq<char>) -> bool {
    is_delta_name(name) && name != "current.xml"@ && file_seq(name) is Some
}

/// The history files among directory entries, with their numbers, in directory order.
pub open spec fn history_entries(names: Seq<Seq<char>>) -> Seq<(u32, Seq<char>)>
    decreases names.len(),
{
    if names.len() == 0 {
        Seq::empty()
    } else {
        let p = history_entries(names.drop_last());
        let n = names.last();
        if is_history_name(n) {
            p.push((file_seq(n).unwrap() as u32, n))
        } else {
            p
        }
    }
}

/// `x` put into `s` after every entry whose number is not greater than its own.
pub open spec fn insert_by_number(s: Seq<(u32, Seq<char>)>, x: (u32, Seq<char>)) -> Seq<(u32, Seq<char>)>
    decreases s.len(),
{
    if s.len() == 0 {
        seq![x]
    } else if s.last().0 <= x.0 {
        s.push(x)
    } else {
        insert_by_number(s.drop_last(), x).push(s.last())
    }
}

/// The stable sort of files by number: files with equal numbers keep their order.
pub open spec fn sort_by_number(s: Seq<(u32, Seq<char>)>) -> Seq<(u32, Seq<char>)>
    decreases s.len(),
{
    if s.len() == 0 {
        Seq::empty()
    } else {
        insert_by_number(sort_by_number(s.drop_last()), s.last())
    }
}

/// The history files of a directory, ordered by number.
pub open spec fn history_files_of(names: Seq<Seq<char>>) -> Seq<(u32, Seq<char>)> {
    sort_by_number(history_entries(names))
}

/// The view of a list of numbered files.
pub open spec fn files_view(v: Seq<(u32, String)>) -> Seq<(u32, Seq<char>)> {
    v.map_values(|f: (u32, String)| (f.0, f.1@))
}

/// Whether files are ordered by number.
pub open spec fn numbers_sorted(s: Seq<(u32, Seq<char>)>) -> bool {
    forall|i: int, j: int| 0 <= i < j < s.len() ==> s[i].0 <= s[j].0
}

proof fn lemma_insert_at(s: Seq<(u32, Seq<char>)>, x: (u32, Seq<char>), k: int)
    requires
        0 <= k <= s.len(),
        forall|j: int| k <= j < s.len() ==> s[j].0 > x.0,
        k == 0 || s[k - 1].0 <= x.0,
    ensures
        insert_by_number(s, x) == s.insert(k, x),
    decreases s.len(),
{
    if s.len() == 0 {
        assert(s.insert(k, x) =~= seq![x]);
    } else if k == s.len() {
        assert(s.insert(k, x) =~= s.push(x));
    } else {
        lemma_insert_at(s.drop_last(), x, k);
        assert(s.drop_last().insert(k, x).push(s.last()) =~= s.insert(k, x));
    }
}

/// Sorting by number gives files in order of their numbers, and keeps every file.
pub proof fn lemma_sort_by_number_sorted(s: Seq<(u32, Seq<char>)>)
    ensures
        numbers_sorted(sort_by_number(s)),
        sort_by_number(s).to_multiset() == s.to_multiset(),
    decreases s.len(),
{
    if s.len() == 0 {
        assert(sort_by_number(s) =~= s);
    } else {
        let q = s.drop_last();
        let p = sort_by_number(q);
        lemma_sort_by_number_sorted(q);
        lemma_insert_sorted(p, s.last());
        q.to_multiset_ensures();
        assert(q.push(s.last()) =~= s);
    }
}

proof fn lemma_insert_sorted(s: Seq<(u32, Seq<char>)>, x: (u32, Seq<char>))
    requires
        numbers_sorted(s),
    ensures
        numbers_sorted(insert_by_number(s, x)),
        insert_by_number(s, x).to_multiset() == s.to_multiset().insert(x),
    decreases s.len(),
{
    s.to_multiset_ensures();
    if s.len() == 0 {
        assert(seq![x] =~= s.push(x));
    } else if s.last().0 <= x.0 {
        assert forall|i: int, j: int| 0 <= i < j < s.push(x).len() implies s.push(x)[i].0 <= s.push(x)[j].0 by {
            if j == s.len() && i < s.len() - 1 {
                assert(s[i].0 <= s[s.len() - 1].0);
            }
        }
    } else {
        let q = s.drop_last();
        let l = s.last();
        assert(numbers_sorted(q));
        lemma_insert_sorted(q, x);
        let r = insert_by_number(q, x);
        r.to_multiset_ensures();
        q.to_multiset_ensures();
        assert(q.push(l) =~= s);
        assert(r.push(l).to_multiset() =~= s.to_multiset().insert(x));
        assert forall|i: int, j: int| 0 <= i < j < r.push(l).len() implies r.push(l)[i].0 <= r.push(l)[j].0 by {
            if j == r.len() {
                let y = r[i];
                assert(r.contains(y));
                assert(r.to_multiset().count(y) > 0);
                if y != x {
                    assert(q.to_multiset().count(y) > 0);
                    assert(q.contains(y));
                    let k = choose|k: int| 0 <= k < q.len() && q[k] == y;
                    assert(s[k] == q[k]);
                    assert(s[k].0 <= s[s.len() - 1].0);
                }
            }
        }
    }
}

/// The history files among directory entry names, ordered by number (see `history_files_of`).
pub fn scan_history_files(entries: &Vec<String>) -> (r: Vec<(u32, String)>)
    ensures
        files_view(r@) == history_files_of(texts_of(entries@)),
{
    let ghost ev = texts_of(entries@);
    let mut out: Vec<(u32, String)> = Vec::new();
    let mut i: usize = 0;
    proof {
        assert(ev.take(0) =~= Seq::<Seq<char>>::empty());
        assert(files_view(out@) =~= Seq::<(u32, Seq<char>)>::empty());
    }
    while i < entries.len()
        invariant
            i <= entries@.len(),
            ev == texts_of(entries@),
            files_view(out@) == sort_by_number(history_entries(ev.take(i as int))),
        decreases entries.len() - i,
    {
        proof {
            let t = ev.take(i + 1);
            assert(t.drop_last() =~= ev.take(i as int));
            assert(t.last() == entries@[i as int]@);
        }
        proof {
            reveal_strlit("current.xml");
        }
        let ghost h = history_entries(ev.take(i as int));
        let name = entries[i].as_str();
        let ok = is_delta_file_name(name) && !str_eq(name, "current.xml");
        if ok {
            match file_sequence(name) {
                Some(num) => {
                    proof {
                        assert(is_history_name(name@));
                        let e = (num, name@);
                        assert(history_entries(ev.take(i + 1)) == h.push(e));
                        assert(h.push(e).drop_last() =~= h);
                    }
                    insert_file(&mut out, num, copy_string(&entries[i]));
                },
                None => {
                    assert(history_entries(ev.take(i + 1)) == h);
                },
            }
        } else {
            assert(history_entries(ev.take(i + 1)) == h);
        }
        i = i + 1;
    }
    proof {
        assert(ev.take(i as int) =~= ev);
    }
    out
}

/// Puts a file after every file whose number is not greater than its own.
fn insert_file(out: &mut Vec<(u32, String)>, num: u32, name: String)
    ensures
        files_view(final(out)@) == insert_by_number(files_view(old(out)@), (num, name@)),
{
    let ghost fv = files_view(out@);
    let mut k: usize = out.len();
    while k > 0 && out[k - 1].0 > num
        invariant
            k <= out@.len(),
            fv == files_view(out@),
            forall|j: int| k <= j < fv.len() ==> fv[j].0 > num,
        decreases k,
    {
        k = k - 1;
    }
    proof {
        lemma_insert_at(fv, (num, name@), k as int);
    }
    let ghost nv = name@;
    out.insert(k, (num, name));
    proof {
        assert(files_view(out@) =~= fv.insert(k as int, (num, nv)));
    }
}

/// The number the next history file gets: one more than the last, 0 when there is none.
pub open spec fn next_number_of(files: Seq<(u32, Seq<char>)>) -> int {
    if files.len() == 0 { 0 } else { files.last().0 + 1 }
}

/// Whether the last file's number leaves room for one more.
pub open spec fn number_room(files: Seq<(u32, Seq<char>)>) -> bool {
    files.len() == 0 || files.last().0 < u32::MAX
}

/// The number the next history file gets (see `next_number_of`).
pub fn get_next_number(files: &Vec<(u32, String)>) -> (r: u32)
    requires
        number_room(files_view(files@)),
    ensures
        r == next_number_of(files_view(files@)),
{
    let n = files.len();
    if n == 0 {
        0
    } else {
        files[n - 1].0 + 1
    }
}

/// The name of the last history file, if any.
pub fn get_latest_file(files: &Vec<(u32, String)>) -> (r: Option<String>)
    ensures
        match r {
            Some(s) => files@.len() > 0 && s@ == files_view(files@).last().1,
            None => files@.len() == 0,
        },
{
    let n = files.len();
    if n == 0 {
        None
    } else {
        Some(copy_string(&files[n - 1].1))
    }
}

/// Whether a history file holds workspace configuration.
pub open spec fn is_workspace_file(name: Seq<char>) -> bool {
    contains_seq(name, "_workspace"@)
}

/// The last workspace file's name, if any.
pub open spec fn last_workspace_of(files: Seq<(u32, Seq<char>)>) -> Option<Seq<char>>
    decreases files.len(),
{
    if files.len() == 0 {
        None
    } else if is_workspace_file(files.last().1) {
        Some(files.last().1)
    } else {
        last_workspace_of(files.drop_last())
    }
}

/// The last workspace file's name (see `last_workspace_of`).
pub fn last_workspace_file(files: &Vec<(u32, String)>) -> (r: Option<String>)
    ensures
        match r {
            Some(s) => last_workspace_of(files_view(files@)) == Some(s@),
            None => last_workspace_of(files_view(files@)) is None,
        },
{
    let ghost fv = files_view(files@);
    let mut i: usize = files.len();
    proof {
        assert(fv.take(i as int) =~= fv);
    }
    while i > 0
        invariant
            i <= files@.len(),
            fv == files_view(files@),
            last_workspace_of(fv) == last_workspace_of(fv.take(i as int)),
        decreases i,
    {
        proof {
            let t = fv.take(i as int);
            assert(t.drop_last() =~= fv.take(i - 1));
            assert(t.last() == (files@[i - 1].0, files@[i - 1].1@));
        }
        if contains_text(files[i - 1].1.as_str(), "_workspace") {
            return Some(copy_string(&files[i - 1].1));
        }
        i = i - 1;
    }
    None
}

/// The number of history files that are not workspace files.
pub open spec fn action_count(files: Seq<(u32, Seq<char>)>) -> nat
    decreases files.len(),
{
    if files.len() == 0 {
        0
    } else {
        action_count(files.drop_last()) + if is_workspace_file(files.last().1) { 0nat } else { 1nat }
    }
}

/// Whether the history is long enough to be summarized: more than ten action files.
pub fn should_generate_summary(files: &Vec<(u32, String)>) -> (b: bool)
    ensures
        b == (action_count(files_view(files@)) > 10),
{
    let ghost fv = files_view(files@);
    let mut count: usize = 0;
    let mut i: usize = 0;
    proof {
        assert(fv.take(0) =~= Seq::<(u32, Seq<char>)>::empty());
    }
    while i < files.len()
        invariant
            i <= files@.len(),
            fv == files_view(files@),
            count == action_count(fv.take(i as int)),
            count <= i,
        decreases files.len() - i,
    {
        proof {
            let t = fv.take(i + 1);
            assert(t.drop_last() =~= fv.take(i as int));
            assert(t.last() == (files@[i as int].0, files@[i as int].1@));
        }
        if !contains_text(files[i].1.as_str(), "_workspace") {
            count = count + 1;
        }
        i = i + 1;
    }
    proof {
        assert(fv.take(i as int) =~= fv);
    }
    count > 10
}


// ---------------------------------------------------------------------------
// The delta each step writes
// ---------------------------------------------------------------------------

/// A history file to write: its name in the history directory, and its text.
#[derive(Debug)]
pub struct HistoryDelta {
    pub name: String,
    pub content: String,
}

/// A change to the workspace configuration.
#[derive(Debug)]
pub enum WorkspaceChange {
    ToolAdded { name: String, description: String },
    SkillAdded { name: String, description: String },
    AgentAdded { name: String, description: String },
    SystemPromptUpdated { content: String },
}

/// A tool call the model made: its id, the tool's name and the arguments text.
#[derive(Debug)]
pub struct ToolUse {
    pub id: String,
    pub name: String,
    pub arguments: String,
}

/// What a tool answered: its text, the call it answers, and whether it is an error.
#[derive(Debug)]
pub struct ToolMessage {
    pub content: String,
    pub tool_use_id: String,
    pub is_error: bool,
}

impl ToolMessage {
    /// A successful answer.
    pub fn new_content(content: String, tool_use_id: String) -> (r: ToolMessage)
        ensures
            r.content@ == content@,
            r.tool_use_id@ == tool_use_id@,
            !r.is_error,
    {
        ToolMessage { content, tool_use_id, is_error: false }
    }

    /// An error answer.
    pub fn from_error(content: String, tool_use_id: String) -> (r: ToolMessage)
        ensures
            r.content@ == content@,
            r.tool_use_id@ == tool_use_id@,
            r.is_error,
    {
        ToolMessage { content, tool_use_id, is_error: true }
    }
}

/// The first file of a history.
pub open spec fn first_workspace_name() -> Seq<char> {
    "0_workspace.xml"@
}

/// The file a new action delta extends: the last history file, else the first workspace file.
pub open spec fn chain_base(files: Seq<(u32, Seq<char>)>) -> Seq<char> {
    if files.len() == 0 { first_workspace_name() } else { files.last().1 }
}

/// The file a workspace delta extends: the last workspace file, else the first.
pub open spec fn workspace_base(files: Seq<(u32, Seq<char>)>) -> Seq<char> {
    match last_workspace_of(files) {
        Some(n) => n,
        None => first_workspace_name(),
    }
}

/// The opening of a delta file that extends `base`.
pub open spec fn delta_header(base: Seq<char>) -> Seq<char> {
    "<?xml version=\"1.0\" encoding=\"UTF-8\"?>\n<Memory xmlns:x=\"xdsl.xdef\" x:extends=\""@ + base + "\">\n"@
}

/// The end of a memory file.
pub open spec fn memory_end() -> Seq<char> {
    "</Memory>\n"@
}

/// The name of the next delta file of a kind: its number, `_`, the kind and `.xml`.
pub open spec fn delta_name(files: Seq<(u32, Seq<char>)>, kind: Seq<char>) -> Seq<char> {
    decimal(next_number_of(files) as nat) + "_"@ + kind + ".xml"@
}

/// The intent delta: the user's words.
pub open spec fn intent_text(base: Seq<char>, intent: Seq<char>) -> Seq<char> {
    delta_header(base) + "    <user-intent>"@ + escape_seq(intent) + "</user-intent>\n"@ + memory_end()
}

/// The thought delta: the model's text, under the file's number.
pub open spec fn thought_text(base: Seq<char>, n: nat, content: Seq<char>) -> Seq<char> {
    delta_header(base) + "    <thought id=\""@ + decimal(n) + "\" content=\""@ + escape_seq(content) + "\" />\n"@
        + memory_end()
}

/// The toolcall delta: the call and its answer, as `result` or, for an error, `error`.
pub open spec fn toolcall_text(
    base: Seq<char>,
    n: nat,
    call_id: Seq<char>,
    name: Seq<char>,
    arguments: Seq<char>,
    is_error: bool,
    content: Seq<char>,
) -> Seq<char> {
    delta_header(base) + "    <toolcall id=\""@ + decimal(n) + "\" tool-call-id=\""@ + escape_seq(call_id)
        + "\" name=\""@ + escape_seq(name) + "\" arguments=\""@ + escape_seq(arguments) + (if is_error {
        "\" status=\"failed\" error=\""@
    } else {
        "\" status=\"success\" result=\""@
    }) + escape_seq(content) + "\" />\n"@ + memory_end()
}

/// The summary delta: the summary text and the actions it covers.
pub open spec fn summary_text(base: Seq<char>, n: nat, content: Seq<char>, begin: nat, end: nat) -> Seq<char> {
    delta_header(base) + "    <summary id=\""@ + decimal(n) + "\" begin_action=\""@ + decimal(begin)
        + "\" end_action=\""@ + decimal(end) + "\" content=\""@ + escape_seq(content) + "\" />\n"@ + memory_end()
}

/// An appended entry of a workspace listing.
pub open spec fn listing_append(list: Seq<char>, item: Seq<char>, name: Seq<char>, description: Seq<char>) -> Seq<char> {
    "    <"@ + list + ">\n        <"@ + item + " name=\""@ + escape_seq(name) + "\" description=\""@
        + escape_seq(description) + "\" x:override=\"append\" />\n    </"@ + list + ">\n"@
}

/// The mathematical value of a workspace change.
pub enum ChangeView {
    ToolAdded(Seq<char>, Seq<char>),
    SkillAdded(Seq<char>, Seq<char>),
    AgentAdded(Seq<char>, Seq<char>),
    SystemPromptUpdated(Seq<char>),
}

impl View for WorkspaceChange {
    type V = ChangeView;

    open spec fn view(&self) -> ChangeView {
        match self {
            WorkspaceChange::ToolAdded { name, description } => ChangeView::ToolAdded(name@, description@),
            WorkspaceChange::SkillAdded { name, description } => ChangeView::SkillAdded(name@, description@),
            WorkspaceChange::AgentAdded { name, description } => ChangeView::AgentAdded(name@, description@),
            WorkspaceChange::SystemPromptUpdated { content } => ChangeView::SystemPromptUpdated(content@),
        }
    }
}

/// The body of a workspace change.
pub open spec fn change_body(c: ChangeView) -> Seq<char> {
    match c {
        ChangeView::ToolAdded(n, d) => listing_append("available-tools"@, "tool"@, n, d),
        ChangeView::SkillAdded(n, d) => listing_append("available-skills"@, "skill"@, n, d),
        ChangeView::AgentAdded(n, d) => listing_append("available-agents"@, "agent"@, n, d),
        ChangeView::SystemPromptUpdated(t) => "    <system-prompt>"@ + escape_seq(t) + "</system-prompt>\n"@,
    }
}

/// The workspace delta of a change.
pub open spec fn workspace_change_text(base: Seq<char>, c: ChangeView) -> Seq<char> {
    delta_header(base) + change_body(c) + memory_end()
}

/// The delta that keeps a progress plan.
pub open spec fn schedule_text(base: Seq<char>, progress: Seq<char>) -> Seq<char> {
    delta_header(base) + "    "@ + progress + "\n"@ + memory_end()
}

fn header_for(base: &str) -> (r: String)
    ensures
        r@ == delta_header(base@),
{
    let mut t = text_of("<?xml version=\"1.0\" encoding=\"UTF-8\"?>\n<Memory xmlns:x=\"xdsl.xdef\" x:extends=\"");
    push(&mut t, base);
    push(&mut t, "\">\n");
    t
}

fn chain_base_name(files: &Vec<(u32, String)>) -> (r: String)
    ensures
        r@ == chain_base(files_view(files@)),
{
    match get_latest_file(files) {
        Some(n) => n,
        None => text_of("0_workspace.xml"),
    }
}

fn workspace_base_name(files: &Vec<(u32, String)>) -> (r: String)
    ensures
        r@ == workspace_base(files_view(files@)),
{
    match last_workspace_file(files) {
        Some(n) => n,
        None => text_of("0_workspace.xml"),
    }
}

fn delta_file_name(files: &Vec<(u32, String)>, kind: &str) -> (r: (u32, String))
    requires
        number_room(files_view(files@)),
    ensures
        r.0 == next_number_of(files_view(files@)),
        r.1@ == delta_name(files_view(files@), kind@),
{
    let n = get_next_number(files);
    let mut t = u64_to_string(n as u64);
    push(&mut t, "_");
    push(&mut t, kind);
    push(&mut t, ".xml");
    (n, t)
}

/// The delta that keeps the user's intent.
pub fn create_intent_delta(files: &Vec<(u32, String)>, intent: &str) -> (r: HistoryDelta)
    requires
        number_room(files_view(files@)),
    ensures
        r.name@ == delta_name(files_view(files@), "intent"@),
        r.content@ == intent_text(chain_base(files_view(files@)), intent@),
{
    let (_, name) = delta_file_name(files, "intent");
    let mut t = header_for(chain_base_name(files).as_str());
    push(&mut t, "    <user-intent>");
    push(&mut t, xml_escape(intent).as_str());
    push(&mut t, "</user-intent>\n");
    push(&mut t, "</Memory>\n");
    HistoryDelta { name, content: t }
}

/// The delta that keeps a thought of the model.
pub fn create_thought_delta(files: &Vec<(u32, String)>, content: &str) -> (r: HistoryDelta)
    requires
        number_room(files_view(files@)),
    ensures
        r.name@ == delta_name(files_view(files@), "thought"@),
        r.content@ == thought_text(
            chain_base(files_view(files@)),
            next_number_of(files_view(files@)) as nat,
            content@,
        ),
{
    let (n, name) = delta_file_name(files, "thought");
    let mut t = header_for(chain_base_name(files).as_str());
    push(&mut t, "    <thought id=\"");
    push(&mut t, u64_to_string(n as u64).as_str());
    push(&mut t, "\" content=\"");
    push(&mut t, xml_escape(content).as_str());
    push(&mut t, "\" />\n");
    push(&mut t, "</Memory>\n");
    HistoryDelta { name, content: t }
}

/// The delta that keeps a tool call and its answer.
pub fn create_toolcall_delta(files: &Vec<(u32, String)>, tool_use: &ToolUse, message: &ToolMessage) -> (r: HistoryDelta)
    requires
        number_room(files_view(files@)),
    ensures
        r.name@ == delta_name(files_view(files@), "toolcall"@),
        r.content@ == toolcall_text(
            chain_base(files_view(files@)),
            next_number_of(files_view(files@)) as nat,
            tool_use.id@,
            tool_use.name@,
            tool_use.arguments@,
            message.is_error,
            message.content@,
        ),
{
    let (n, name) = delta_file_name(files, "toolcall");
    let mut t = header_for(chain_base_name(files).as_str());
    push(&mut t, "    <toolcall id=\"");
    push(&mut t, u64_to_string(n as u64).as_str());
    push(&mut t, "\" tool-call-id=\"");
    push(&mut t, xml_escape(tool_use.id.as_str()).as_str());
    push(&mut t, "\" name=\"");
    push(&mut t, xml_escape(tool_use.name.as_str()).as_str());
    push(&mut t, "\" arguments=\"");
    push(&mut t, xml_escape(tool_use.arguments.as_str()).as_str());
    if message.is_error {
        push(&mut t, "\" status=\"failed\" error=\"");
    } else {
        push(&mut t, "\" status=\"success\" result=\"");
    }
    push(&mut t, xml_escape(message.content.as_str()).as_str());
    push(&mut t, "\" />\n");
    push(&mut t, "</Memory>\n");
    HistoryDelta { name, content: t }
}

/// The delta that keeps a summary of actions `begin..=end`.
pub fn create_summary_delta(files: &Vec<(u32, String)>, content: &str, begin_action: u32, end_action: u32) -> (r: HistoryDelta)
    requires
        number_room(files_view(files@)),
    ensures
        r.name@ == delta_name(files_view(files@), "summary"@),
        r.content@ == summary_text(
            chain_base(files_view(files@)),
            next_number_of(files_view(files@)) as nat,
            content@,
            begin_action as nat,
            end_action as nat,
        ),
{
    let (n, name) = delta_file_name(files, "summary");
    let mut t = header_for(chain_base_name(files).as_str());
    push(&mut t, "    <summary id=\"");
    push(&mut t, u64_to_string(n as u64).as_str());
    push(&mut t, "\" begin_action=\"");
    push(&mut t, u64_to_string(begin_action as u64).as_str());
    push(&mut t, "\" end_action=\"");
    push(&mut t, u64_to_string(end_action as u64).as_str());
    push(&mut t, "\" content=\"");
    push(&mut t, xml_escape(content).as_str());
    push(&mut t, "\" />\n");
    push(&mut t, "</Memory>\n");
    HistoryDelta { name, content: t }
}

fn push_listing_append(t: &mut String, list: &str, item: &str, name: &str, description: &str)
    ensures
        final(t)@ == old(t)@ + listing_append(list@, item@, name@, description@),
{
    push(t, "    <");
    push(t, list);
    push(t, ">\n        <");
    push(t, item);
    push(t, " name=\"");
    push(t, xml_escape(name).as_str());
    push(t, "\" description=\"");
    push(t, xml_escape(description).as_str());
    push(t, "\" x:override=\"append\" />\n    </");
    push(t, list);
    push(t, ">\n");
}

/// The delta that records a change to the workspace configuration.
pub fn update_workspace_delta(files: &Vec<(u32, String)>, change: &WorkspaceChange) -> (r: HistoryDelta)
    requires
        number_room(files_view(files@)),
    ensures
        r.name@ == delta_name(files_view(files@), "workspace"@),
        r.content@ == workspace_change_text(workspace_base(files_view(files@)), change@),
{
    let (_, name) = delta_file_name(files, "workspace");
    let mut t = header_for(workspace_base_name(files).as_str());
    match change {
        WorkspaceChange::ToolAdded { name, description } => {
            push_listing_append(&mut t, "available-tools", "tool", name.as_str(), description.as_str());
        },
        WorkspaceChange::SkillAdded { name, description } => {
            push_listing_append(&mut t, "available-skills", "skill", name.as_str(), description.as_str());
        },
        WorkspaceChange::AgentAdded { name, description } => {
            push_listing_append(&mut t, "available-agents", "agent", name.as_str(), description.as_str());
        },
        WorkspaceChange::SystemPromptUpdated { content } => {
            push(&mut t, "    <system-prompt>");
            push(&mut t, xml_escape(content.as_str()).as_str());
            push(&mut t, "</system-prompt>\n");
        },
    }
    push(&mut t, "</Memory>\n");
    HistoryDelta { name, content: t }
}

/// The delta that keeps a progress plan (a `summary` file extending the last workspace file).
pub fn save_schedule_result(files: &Vec<(u32, String)>, progress_xml: &str) -> (r: HistoryDelta)
    requires
        number_room(files_view(files@)),
    ensures
        r.name@ == delta_name(files_view(files@), "summary"@),
        r.content@ == schedule_text(workspace_base(files_view(files@)), progress_xml@),
{
    let (_, name) = delta_file_name(files, "summary");
    let mut t = header_for(workspace_base_name(files).as_str());
    push(&mut t, "    ");
    push(&mut t, progress_xml);
    push(&mut t, "\n");
    push(&mut t, "</Memory>\n");
    HistoryDelta { name, content: t }
}


// ---------------------------------------------------------------------------
// The first workspace file
// ---------------------------------------------------------------------------

/// A tool as the workspace lists it: its name, description and JSON input schema.
#[derive(Debug)]
pub struct ToolInfo {
    pub name: String,
    pub description: String,
    pub input_schema: String,
}

/// A text without any whitespace.
pub open spec fn strip_ws(s: Seq<char>) -> Seq<char>
    decreases s.len(),
{
    if s.len() == 0 {
        Seq::empty()
    } else {
        strip_ws(s.drop_last()) + if crate::text::is_ws(s.last()) { Seq::empty() } else { seq![s.last()] }
    }
}

/// The listing line of a tool: its name, escaped description and escaped, compacted schema.
pub open spec fn tool_line(name: Seq<char>, description: Seq<char>, schema: Seq<char>) -> Seq<char> {
    "    <tool name=\""@ + name + "\" description=\""@ + escape_seq(description) + "\" input-schema='"@
        + escape_seq(strip_ws(schema)) + "' />\n"@
}

/// The lines of tools, in order.
pub open spec fn tool_lines(ts: Seq<(Seq<char>, Seq<char>, Seq<char>)>) -> Seq<char>
    decreases ts.len(),
{
    if ts.len() == 0 {
        Seq::empty()
    } else {
        tool_lines(ts.drop_last()) + tool_line(ts.last().0, ts.last().1, ts.last().2)
    }
}

/// The tools listing: empty without tools, else their lines inside `<available-tools>` lines.
pub open spec fn tools_listing_of(ts: Seq<(Seq<char>, Seq<char>, Seq<char>)>) -> Seq<char> {
    if ts.len() == 0 {
        Seq::empty()
    } else {
        "<available-tools>\n"@ + tool_lines(ts) + "</available-tools>\n"@
    }
}

/// The views of tools.
pub open spec fn tools_view(ts: Seq<ToolInfo>) -> Seq<(Seq<char>, Seq<char>, Seq<char>)> {
    ts.map_values(|t: ToolInfo| (t.name@, t.description@, t.input_schema@))
}

pub(crate) fn strip_whitespace(s: &str) -> (r: String)
    ensures
        r@ == strip_ws(s@),
{
    let cs = crate::text::chars_of(s);
    let mut out: Vec<char> = Vec::new();
    let mut i: usize = 0;
    proof {
        assert(cs@.take(0) =~= Seq::<char>::empty());
    }
    while i < cs.len()
        invariant
            i <= cs@.len(),
            cs@ == s@,
            out@ == strip_ws(cs@.take(i as int)),
        decreases cs.len() - i,
    {
        proof {
            let t = cs@.take(i + 1);
            assert(t.drop_last() =~= cs@.take(i as int));
        }
        if !crate::text::is_ws_char(cs[i]) {
            out.push(cs[i]);
        }
        proof {
            let t = cs@.take(i + 1);
            if crate::text::is_ws(cs@[i as int]) {
                assert(out@ =~= strip_ws(t));
            } else {
                assert(out@ =~= strip_ws(t));
            }
        }
        i = i + 1;
    }
    proof {
        assert(cs@.take(i as int) =~= cs@);
    }
    crate::text::string_of(out.as_slice())
}

/// The tools listing (see `tools_listing_of`).
pub fn generate_tools_xml(tools: &Vec<ToolInfo>) -> (r: String)
    ensures
        r@ == tools_listing_of(tools_view(tools@)),
{
    if tools.len() == 0 {
        return String::new();
    }
    let ghost tv = tools_view(tools@);
    let mut out = text_of("<available-tools>\n");
    let ghost head = out@;
    let mut i: usize = 0;
    proof {
        assert(tv.take(0) =~= Seq::<(Seq<char>, Seq<char>, Seq<char>)>::empty());
        assert(out@ =~= head + tool_lines(tv.take(0)));
    }
    while i < tools.len()
        invariant
            i <= tools@.len(),
            tv == tools_view(tools@),
            out@ == head + tool_lines(tv.take(i as int)),
        decreases tools.len() - i,
    {
        let t = &tools[i];
        proof {
            let u = tv.take(i + 1);
            assert(u.drop_last() =~= tv.take(i as int));
            assert(u.last() == (t.name@, t.description@, t.input_schema@));
        }
        push(&mut out, "    <tool name=\"");
        push(&mut out, t.name.as_str());
        push(&mut out, "\" description=\"");
        push(&mut out, xml_escape(t.description.as_str()).as_str());
        push(&mut out, "\" input-schema='");
        push(&mut out, xml_escape(strip_whitespace(t.input_schema.as_str()).as_str()).as_str());
        push(&mut out, "' />\n");
        proof {
            assert(out@ =~= head + tool_lines(tv.take(i + 1)));
        }
        i = i + 1;
    }
    proof {
        assert(tv.take(i as int) =~= tv);
    }
    push(&mut out, "</available-tools>\n");
    out
}

/// The first workspace file: its id and creation time, the system prompt (escaped, when there
/// is one), the skills listing (when there is one), then the tools and agents listings.
pub open spec fn workspace_text(
    id: Seq<char>,
    created_at: Seq<char>,
    system_prompt: Seq<char>,
    skills: Seq<char>,
    tools: Seq<char>,
    agents: Seq<char>,
) -> Seq<char> {
    "<?xml version=\"1.0\" encoding=\"UTF-8\"?>\n<Memory id=\""@ + id + "\" created-at=\""@ + created_at + "\">\n"@
        + (if system_prompt.len() > 0 {
        "    <system-prompt>"@ + escape_seq(system_prompt) + "</system-prompt>\n"@
    } else {
        Seq::empty()
    }) + (if skills.len() > 0 { "    "@ + skills + "\n"@ } else { Seq::empty() }) + tools + agents + memory_end()
}

/// What starting a memory gives: the workspace file there already is, or the first one to write.
#[derive(Debug)]
pub enum WorkspaceInit {
    Existing(String),
    Created(HistoryDelta),
}

/// Starting a memory with the given id and time: the last workspace file when there is one,
/// else `0_workspace.xml` with the configuration (see `workspace_text`).
pub fn create_workspace_delta_with(
    files: &Vec<(u32, String)>,
    system_prompt: &str,
    skills_xml: &str,
    tools_xml: &str,
    agents_xml: &str,
    id: &str,
    created_at: &str,
) -> (r: WorkspaceInit)
    ensures
        match last_workspace_of(files_view(files@)) {
            Some(n) => r matches WorkspaceInit::Existing(e) && e@ == n,
            None => r matches WorkspaceInit::Created(d) && d.name@ == first_workspace_name()
                && d.content@ == workspace_text(id@, created_at@, system_prompt@, skills_xml@, tools_xml@, agents_xml@),
        },
{
    match last_workspace_file(files) {
        Some(n) => WorkspaceInit::Existing(n),
        None => {
            let mut t = text_of("<?xml version=\"1.0\" encoding=\"UTF-8\"?>\n<Memory id=\"");
            push(&mut t, id);
            push(&mut t, "\" created-at=\"");
            push(&mut t, created_at);
            push(&mut t, "\">\n");
            let ghost before_prompt = t@;
            if system_prompt.unicode_len() > 0 {
                push(&mut t, "    <system-prompt>");
                push(&mut t, xml_escape(system_prompt).as_str());
                push(&mut t, "</system-prompt>\n");
            }
            let ghost before_skills = t@;
            if skills_xml.unicode_len() > 0 {
                push(&mut t, "    ");
                push(&mut t, skills_xml);
                push(&mut t, "\n");
            }
            push(&mut t, tools_xml);
            push(&mut t, agents_xml);
            push(&mut t, "</Memory>\n");
            WorkspaceInit::Created(HistoryDelta { name: text_of("0_workspace.xml"), content: t })
        },
    }
}

/// Starting a memory (see `create_workspace_delta_with`), with a new random id and the current time.
pub fn create_workspace_delta(
    files: &Vec<(u32, String)>,
    system_prompt: &str,
    skills_xml: &str,
    tools_xml: &str,
    agents_xml: &str,
) -> (r: WorkspaceInit)
    ensures
        match last_workspace_of(files_view(files@)) {
            Some(n) => r matches WorkspaceInit::Existing(e) && e@ == n,
            None => r matches WorkspaceInit::Created(d) && d.name@ == first_workspace_name()
                && exists|id: Seq<char>, at: Seq<char>| #[trigger] workspace_text(id, at, system_prompt@, skills_xml@, tools_xml@, agents_xml@)
                    == d.content@,
        },
{
    let id = crate::rule_tool::new_uuid();
    let at = crate::memory::chrono_timestamp();
    create_workspace_delta_with(files, system_prompt, skills_xml, tools_xml, agents_xml, id.as_str(), at.as_str())
}


proof fn lemma_first_workspace_is_workspace()
    ensures
        is_workspace_file(first_workspace_name()),
{
    reveal_strlit("0_workspace.xml");
    reveal_strlit("_workspace");
    assert("0_workspace.xml"@.subrange(1, 11) =~= "_workspace"@);
    assert(crate::text::occurs_at("0_workspace.xml"@, "_workspace"@, 1));
}

proof fn lemma_only_workspace(s: Seq<(u32, Seq<char>)>, k: int, x: (u32, Seq<char>))
    requires
        0 <= k <= s.len(),
        last_workspace_of(s) is None,
        is_workspace_file(x.1),
    ensures
        last_workspace_of(s.insert(k, x)) == Some(x.1),
    decreases s.len(),
{
    if k < s.len() {
        let t = s.insert(k, x);
        assert(t.last() == s.last());
        assert(t.drop_last() =~= s.drop_last().insert(k, x));
        lemma_only_workspace(s.drop_last(), k, x);
    }
}

/// Starting a memory twice keeps one workspace file: where a history has no workspace file,
/// `init` makes `0_workspace.xml`, and once that file is listed (wherever it stands) the next
/// `init` finds it and makes none.
pub proof fn lemma_init_reuses_workspace(files: Seq<(u32, Seq<char>)>, k: int, n: u32)
    requires
        last_workspace_of(files) is None,
        0 <= k <= files.len(),
    ensures
        last_workspace_of(files.insert(k, (n, first_workspace_name()))) == Some(first_workspace_name()),
{
    lemma_first_workspace_is_workspace();
    lemma_only_workspace(files, k, (n, first_workspace_name()));
}

/// Starts a memory: the same as `create_workspace_delta`.
pub fn init(
    files: &Vec<(u32, String)>,
    system_prompt: &str,
    skills_xml: &str,
    tools_xml: &str,
    agents_xml: &str,
) -> (r: WorkspaceInit)
    ensures
        match last_workspace_of(files_view(files@)) {
            Some(n) => r matches WorkspaceInit::Existing(e) && e@ == n,
            None => r matches WorkspaceInit::Created(d) && d.name@ == first_workspace_name()
                && exists|id: Seq<char>, at: Seq<char>| #[trigger] workspace_text(id, at, system_prompt@, skills_xml@, tools_xml@, agents_xml@)
                    == d.content@,
        },
{
    create_workspace_delta(files, system_prompt, skills_xml, tools_xml, agents_xml)
}


// ---------------------------------------------------------------------------
// Reading the memory back
// ---------------------------------------------------------------------------

/// The merged memory of a history: its last file's node read, with its whole `x:extends` chain
/// applied over the history's files (see `extends_chain`); the error says which step failed.
pub open spec fn merged_history_of(last_text: Seq<char>, files: Seq<(Seq<char>, Seq<char>)>) -> Result<NodeView, Seq<char>> {
    match parse_tokens(xml_rs_read(last_text)) {
        Err(m) => Err("Failed to parse XML: "@ + yerror_text(YErrorView::XmlParseError(m))),
        Ok(n) => match extends_chain(n, files) {
            Ok(m) => Ok(m),
            Err(e) => Err("Failed to merge: "@ + yerror_text(e)),
        },
    }
}

/// The merged memory of a history (see `merged_history_of`), given the text of its last file and
/// the history's files, each with its name: the whole `x:extends` chain is applied.
pub fn merge_history(last_text: &str, files: &Vec<(String, String)>) -> (r: Result<YNode, String>)
    ensures
        match r {
            Ok(n) => merged_history_of(last_text@, named_texts(files@)) == Ok::<NodeView, Seq<char>>(n@),
            Err(e) => merged_history_of(last_text@, named_texts(files@)) == Err::<NodeView, Seq<char>>(e@),
        },
{
    match YNode::from_str(last_text) {
        Err(e) => {
            let mut t = text_of("Failed to parse XML: ");
            push(&mut t, e.message().as_str());
            Err(t)
        },
        Ok(node) => match node.process_extends(files) {
            Ok(m) => Ok(m),
            Err(e) => {
                let mut t = text_of("Failed to merge: ");
                push(&mut t, e.message().as_str());
                Err(t)
            },
        },
    }
}

/// The children that are history actions kept for the model: tool calls and summaries.
pub open spec fn history_children(cs: Seq<NodeView>) -> Seq<NodeView>
    decreases cs.len(),
{
    if cs.len() == 0 {
        Seq::empty()
    } else {
        let p = history_children(cs.drop_last());
        let t = cs.last().tag;
        if t == "toolcall"@ || t == "summary"@ { p.push(cs.last()) } else { p }
    }
}

/// The children that are configuration: all but thoughts, tool calls and summaries.
pub open spec fn config_children(cs: Seq<NodeView>) -> Seq<NodeView>
    decreases cs.len(),
{
    if cs.len() == 0 {
        Seq::empty()
    } else {
        let p = config_children(cs.drop_last());
        let t = cs.last().tag;
        if t == "thought"@ || t == "toolcall"@ || t == "summary"@ { p } else { p.push(cs.last()) }
    }
}

/// The history actions of a merged memory: `<history-actions />` when it has none, else a
/// `history-actions` element holding them.
pub open spec fn history_actions_text(m: Option<NodeView>) -> Seq<char> {
    match m {
        None => "<history-actions />"@,
        Some(n) => {
            let h = history_children(n.children);
            if h.len() == 0 {
                "<history-actions />"@
            } else {
                node_text(NodeView { children: h, ..empty_node("history-actions"@) }, 0)
            }
        },
    }
}

/// The configuration of a merged memory: a `Memory` element with its attributes and its
/// configuration children.
pub open spec fn structural_node(m: NodeView) -> NodeView {
    NodeView {
        attrs: entries_insert_all(Seq::empty(), m.attrs),
        children: config_children(m.children),
        ..empty_node("Memory"@)
    }
}

/// The error when a history has no files.
pub open spec fn no_memory_text() -> Seq<char> {
    "No memory files found"@
}

fn copy_tagged(src: &Vec<YNode>, dst: &mut YNode, history: bool)
    requires
        old(dst)@.children.len() == 0,
    ensures
        final(dst)@ == (NodeView {
            children: if history { history_children(nodes_view(src@)) } else { config_children(nodes_view(src@)) },
            ..old(dst)@
        }),
{
    let ghost cv = nodes_view(src@);
    let ghost start = dst@;
    let mut i: usize = 0;
    proof {
        crate::ynode::lemma_nodes_view_index(src@);
        assert(cv.take(0) =~= Seq::<NodeView>::empty());
        assert(dst@.children =~= Seq::<NodeView>::empty());
    }
    while i < src.len()
        invariant
            i <= src@.len(),
            cv == nodes_view(src@),
            cv.len() == src@.len(),
            forall|k: int| 0 <= k < src@.len() ==> #[trigger] cv[k] == src@[k]@,
            dst@ == (NodeView {
                children: if history { history_children(cv.take(i as int)) } else { config_children(cv.take(i as int)) },
                ..start
            }),
        decreases src.len() - i,
    {
        let c = &src[i];
        proof {
            let t = cv.take(i + 1);
            assert(t.drop_last() =~= cv.take(i as int));
            assert(t.last() == c@);
        }
        let tag = c.tag();
        let is_history = str_eq(tag, "toolcall") || str_eq(tag, "summary");
        let is_action = is_history || str_eq(tag, "thought");
        let keep = if history { is_history } else { !is_action };
        if keep {
            dst.add_child(c.deep_copy());
        }
        i = i + 1;
    }
    proof {
        assert(cv.take(i as int) =~= cv);
    }
}

/// The history actions of a merged memory, or of none (see `history_actions_text`).
pub fn get_history_actions_xml(merged: Option<&YNode>) -> (r: String)
    ensures
        r@ == history_actions_text(match merged {
            Some(m) => Some(m@),
            None => None,
        }),
{
    match merged {
        None => text_of("<history-actions />"),
        Some(m) => {
            let mut h = YNode::new(text_of("history-actions"));
            copy_tagged(m.children(), &mut h, true);
            if h.children().len() == 0 {
                text_of("<history-actions />")
            } else {
                h.to_xml()
            }
        },
    }
}

/// The whole merged memory as XML; an error when the history has no files.
pub fn get_merged_memory_xml(merged: Option<&YNode>) -> (r: Result<String, String>)
    ensures
        match merged {
            Some(m) => r matches Ok(t) && t@ == node_text(m@, 0),
            None => r matches Err(e) && e@ == no_memory_text(),
        },
{
    match merged {
        Some(m) => Ok(m.to_xml()),
        None => Err(text_of("No memory files found")),
    }
}

/// The configuration of the merged memory as XML (see `structural_node`); an error when the
/// history has no files.
pub fn get_structural_memory_xml(merged: Option<&YNode>) -> (r: Result<String, String>)
    ensures
        match merged {
            Some(m) => r matches Ok(t) && t@ == node_text(structural_node(m@), 0),
            None => r matches Err(e) && e@ == no_memory_text(),
        },
{
    match merged {
        None => Err(text_of("No memory files found")),
        Some(m) => {
            let mut node = YNode::new(text_of("Memory"));
            let attrs = m.attributes();
            let ghost av = crate::xml_token::attrs_view(attrs@);
            let mut i: usize = 0;
            proof {
                assert(av.take(0) =~= Seq::<(Seq<char>, Seq<char>)>::empty());
            }
            while i < attrs.len()
                invariant
                    i <= attrs@.len(),
                    av == crate::xml_token::attrs_view(attrs@),
                    av == m@.attrs,
                    node@ == (NodeView { attrs: entries_insert_all(Seq::empty(), av.take(i as int)), ..empty_node("Memory"@) }),
                decreases attrs.len() - i,
            {
                proof {
                    assert(av.take(i + 1).drop_last() =~= av.take(i as int));
                    assert(av.take(i + 1).last() == av[i as int]);
                    assert(av[i as int] == (attrs@[i as int].0@, attrs@[i as int].1@));
                }
                node = node.with_attr(copy_string(&attrs[i].0), copy_string(&attrs[i].1));
                i = i + 1;
            }
            proof {
                assert(av.take(i as int) =~= av);
            }
            copy_tagged(m.children(), &mut node, false);
            Ok(node.to_xml())
        },
    }
}

/// The `<current-progress>` element of a workspace file's text: from the first opening tag to
/// the end of the first closing tag; empty when either is missing.
pub open spec fn current_progress_of(content: Seq<char>) -> Seq<char> {
    match (crate::text::find_seq(content, "<current-progress>"@), crate::text::find_seq(content, "</current-progress>"@)) {
        (Some(a), Some(b)) => content.subrange(a, b + 19),
        _ => Seq::empty(),
    }
}

/// Whether the closing tag comes after the opening one, where both are found (else the
/// element cannot be cut out).
pub open spec fn progress_in_order(content: Seq<char>) -> bool {
    match (crate::text::find_seq(content, "<current-progress>"@), crate::text::find_seq(content, "</current-progress>"@)) {
        (Some(a), Some(b)) => a <= b + 19,
        _ => true,
    }
}

/// Whether the `<current-progress>` element can be cut out of a text (see `progress_in_order`).
pub fn current_progress_in_order(content: &str) -> (b: bool)
    ensures
        b == progress_in_order(content@),
{
    match (crate::text::find_text(content, "<current-progress>"), crate::text::find_text(content, "</current-progress>")) {
        (Some(a), Some(b)) => if a <= b { true } else { a - b <= 19 },
        _ => true,
    }
}

/// The `<current-progress>` element of a workspace file's text (see `current_progress_of`).
pub fn get_current_progress_xml(content: &str) -> (r: String)
    requires
        progress_in_order(content@),
    ensures
        r@ == current_progress_of(content@),
{
    proof {
        reveal_strlit("</current-progress>");
    }
    match (crate::text::find_text(content, "<current-progress>"), crate::text::find_text(content, "</current-progress>")) {
        (Some(a), Some(b)) => {
            let cs = crate::text::chars_of(content);
            proof {
                assert("</current-progress>"@.len() == 19);
                assert(crate::text::occurs_at(content@, "</current-progress>"@, b as int));
                assert(b + 19 <= cs@.len());
                assert(cs@.len() == cs.len());
            }
            let mut out: Vec<char> = Vec::new();
            let mut i: usize = a;
            let end = b + 19;
            while i < end
                invariant
                    a <= i <= end,
                    end == b + 19,
                    end <= cs@.len(),
                    cs@ == content@,
                    out@ == cs@.subrange(a as int, i as int),
                decreases end - i,
            {
                out.push(cs[i]);
                proof {
                    assert(cs@.subrange(a as int, i + 1) =~= cs@.subrange(a as int, i as int).push(cs@[i as int]));
                }
                i = i + 1;
            }
            crate::text::string_of(out.as_slice())
        },
        _ => String::new(),
    }
}

/// Clearing the history after a summary keeps every file: there is nothing to do.
pub fn clear_history_actions() -> (r: Result<(), String>)
    ensures
        r is Ok,
{
    Ok(())
}


// ---------------------------------------------------------------------------
// The conversation a history stands for
// ---------------------------------------------------------------------------

/// A tool call as a history file keeps it.
#[derive(Debug)]
pub struct CallRecord {
    pub tool_call_id: String,
    pub name: String,
    pub arguments: String,
    /// `success` or `failed`.
    pub status: String,
    pub result_or_error: String,
}

/// What one history file holds for the conversation.
#[derive(Debug)]
pub enum HistoryEvent {
    Workspace,
    Intent(String),
    Thought(String),
    Toolcall(CallRecord),
    Summary,
}

/// The mathematical value of a tool call record.
pub struct CallView {
    pub tool_call_id: Seq<char>,
    pub name: Seq<char>,
    pub arguments: Seq<char>,
    pub status: Seq<char>,
    pub result_or_error: Seq<char>,
}

/// The mathematical value of a history event.
pub enum EventView {
    Workspace,
    Intent(Seq<char>),
    Thought(Seq<char>),
    Toolcall(CallView),
    Summary,
}

impl View for CallRecord {
    type V = CallView;

    open spec fn view(&self) -> CallView {
        CallView {
            tool_call_id: self.tool_call_id@,
            name: self.name@,
            arguments: self.arguments@,
            status: self.status@,
            result_or_error: self.result_or_error@,
        }
    }
}

impl View for HistoryEvent {
    type V = EventView;

    open spec fn view(&self) -> EventView {
        match self {
            HistoryEvent::Workspace => EventView::Workspace,
            HistoryEvent::Intent(c) => EventView::Intent(c@),
            HistoryEvent::Thought(c) => EventView::Thought(c@),
            HistoryEvent::Toolcall(r) => EventView::Toolcall(r@),
            HistoryEvent::Summary => EventView::Summary,
        }
    }
}

/// A message of a chat with the model.
#[derive(Debug)]
pub enum ChatMessage {
    User(String),
    Assistant { content: String, tool_uses: Option<Vec<ToolUse>> },
    Tool(ToolMessage),
}

/// The mathematical value of a tool use: id, name and arguments.
pub type UseView = (Seq<char>, Seq<char>, Seq<char>);

/// The mathematical value of a message.
pub enum MessageView {
    User(Seq<char>),
    Assistant(Seq<char>, Option<Seq<UseView>>),
    /// The content, the call answered, and whether it is an error.
    Tool(Seq<char>, Seq<char>, bool),
}

/// The views of tool uses.
pub open spec fn uses_view(us: Seq<ToolUse>) -> Seq<UseView> {
    us.map_values(|u: ToolUse| (u.id@, u.name@, u.arguments@))
}

impl View for ChatMessage {
    type V = MessageView;

    open spec fn view(&self) -> MessageView {
        match self {
            ChatMessage::User(c) => MessageView::User(c@),
            ChatMessage::Assistant { content, tool_uses } => MessageView::Assistant(content@, match tool_uses {
                Some(us) => Some(uses_view(us@)),
                None => None,
            }),
            ChatMessage::Tool(m) => MessageView::Tool(m.content@, m.tool_use_id@, m.is_error),
        }
    }
}

/// The views of messages.
pub open spec fn messages_view(ms: Seq<ChatMessage>) -> Seq<MessageView> {
    ms.map_values(|m: ChatMessage| m@)
}

/// The views of events.
pub open spec fn events_view(es: Seq<HistoryEvent>) -> Seq<EventView> {
    es.map_values(|e: HistoryEvent| e@)
}

/// The tool use of a recorded call.
pub open spec fn use_of(c: CallView) -> UseView {
    (c.tool_call_id, c.name, c.arguments)
}

/// The tool message of a recorded call: an error when the call failed.
pub open spec fn tool_message_of(c: CallView) -> MessageView {
    MessageView::Tool(c.result_or_error, c.tool_call_id, c.status == "failed"@)
}

/// The end of the run of tool calls that starts at `k`.
pub open spec fn run_end(es: Seq<EventView>, k: nat) -> nat
    decreases es.len() - k,
{
    if k >= es.len() {
        k
    } else if es[k as int] is Toolcall {
        run_end(es, k + 1)
    } else {
        k
    }
}

/// A run of tool calls ends at or after its start, and within the events.
pub proof fn lemma_run_end(es: Seq<EventView>, k: nat)
    requires
        k <= es.len(),
    ensures
        k <= run_end(es, k) <= es.len(),
        forall|j: int| k <= j < run_end(es, k) ==> #[trigger] es[j] is Toolcall,
        run_end(es, k) < es.len() ==> !(es[run_end(es, k) as int] is Toolcall),
    decreases es.len() - k,
{
    if k < es.len() && es[k as int] is Toolcall {
        lemma_run_end(es, k + 1);
    }
}

/// The calls of a run of tool call events.
pub open spec fn calls_of(run: Seq<EventView>) -> Seq<CallView> {
    run.map_values(|e: EventView| match e {
        EventView::Toolcall(c) => c,
        _ => CallView {
            tool_call_id: Seq::empty(),
            name: Seq::empty(),
            arguments: Seq::empty(),
            status: Seq::empty(),
            result_or_error: Seq::empty(),
        },
    })
}

/// The messages of a thought followed by tool calls: the assistant's text alone when there are
/// none, else the text with the calls, then each call's answer.
pub open spec fn thought_messages(content: Seq<char>, calls: Seq<CallView>) -> Seq<MessageView> {
    if calls.len() == 0 {
        seq![MessageView::Assistant(content, None)]
    } else {
        seq![MessageView::Assistant(content, Some(calls.map_values(|c: CallView| use_of(c))))]
            + calls.map_values(|c: CallView| tool_message_of(c))
    }
}

/// The conversation from event `i` on: workspace and summary events say nothing; an intent is
/// the user speaking; a thought and the tool calls right after it are one assistant turn; a tool
/// call with no thought before it is an assistant turn with empty text.
pub open spec fn messages_from(es: Seq<EventView>, i: nat) -> Seq<MessageView>
    decreases es.len() - i,
{
    if i >= es.len() {
        Seq::empty()
    } else {
        match es[i as int] {
            EventView::Intent(c) => seq![MessageView::User(c)] + messages_from(es, i + 1),
            EventView::Thought(c) => {
                proof {
                    lemma_run_end(es, i + 1);
                }
                let j = run_end(es, i + 1);
                thought_messages(c, calls_of(es.subrange(i + 1 as int, j as int))) + messages_from(es, j)
            },
            EventView::Toolcall(c) => seq![
                MessageView::Assistant(Seq::empty(), Some(seq![use_of(c)])),
                tool_message_of(c),
            ] + messages_from(es, i + 1),
            _ => messages_from(es, i + 1),
        }
    }
}

fn call_use(c: &CallRecord) -> (r: ToolUse)
    ensures
        (r.id@, r.name@, r.arguments@) == use_of(c@),
{
    ToolUse { id: copy_string(&c.tool_call_id), name: copy_string(&c.name), arguments: copy_string(&c.arguments) }
}

fn call_answer(c: &CallRecord) -> (r: ChatMessage)
    ensures
        r@ == tool_message_of(c@),
{
    proof {
        reveal_strlit("failed");
    }
    if str_eq(c.status.as_str(), "failed") {
        ChatMessage::Tool(ToolMessage::from_error(copy_string(&c.result_or_error), copy_string(&c.tool_call_id)))
    } else {
        ChatMessage::Tool(ToolMessage::new_content(copy_string(&c.result_or_error), copy_string(&c.tool_call_id)))
    }
}

fn push_message(out: &mut Vec<ChatMessage>, m: ChatMessage)
    ensures
        messages_view(final(out)@) == messages_view(old(out)@).push(m@),
{
    let ghost prev = out@;
    out.push(m);
    proof {
        assert(messages_view(out@) =~= messages_view(prev).push(m@));
    }
}

/// The conversation a list of history events stands for (see `messages_from`).
pub fn messages_from_events(events: &Vec<HistoryEvent>) -> (r: Vec<ChatMessage>)
    ensures
        messages_view(r@) == messages_from(events_view(events@), 0),
{
    let ghost ev = events_view(events@);
    let n = events.len();
    let mut out: Vec<ChatMessage> = Vec::new();
    let mut i: usize = 0;
    proof {
        assert(messages_view(out@) + messages_from(ev, 0) =~= messages_from(ev, 0));
    }
    while i < n
        invariant
            i <= n,
            n == events@.len(),
            ev == events_view(events@),
            ev.len() == n,
            messages_view(out@) + messages_from(ev, i as nat) == messages_from(ev, 0),
        decreases n - i,
    {
        let ghost before = messages_view(out@);
        assert(ev[i as int] == events@[i as int]@);
        match &events[i] {
            HistoryEvent::Intent(c) => {
                push_message(&mut out, ChatMessage::User(copy_string(c)));
                proof {
                    assert(messages_view(out@) + messages_from(ev, (i + 1) as nat) =~= before + messages_from(ev, i as nat));
                }
                i = i + 1;
            },
            HistoryEvent::Thought(c) => {
                let mut j: usize = i + 1;
                proof {
                    lemma_run_end(ev, (i + 1) as nat);
                }
                while j < n && is_call(&events[j])
                    invariant
                        i + 1 <= j <= n,
                        n == events@.len(),
                        ev == events_view(events@),
                        ev.len() == n,
                        run_end(ev, (i + 1) as nat) == run_end(ev, j as nat),
                        forall|k: int| i + 1 <= k < j ==> #[trigger] ev[k] is Toolcall,
                    decreases n - j,
                {
                    assert(ev[j as int] == events@[j as int]@);
                    j = j + 1;
                }
                proof {
                    if j < n {
                        assert(ev[j as int] == events@[j as int]@);
                    }
                    assert(run_end(ev, j as nat) == j);
                }
                let ghost calls = calls_of(ev.subrange(i + 1, j as int));
                if j == i + 1 {
                    push_message(&mut out, ChatMessage::Assistant { content: copy_string(c), tool_uses: None });
                    proof {
                        assert(calls.len() == 0);
                        assert(messages_view(out@) + messages_from(ev, j as nat) =~= before + messages_from(ev, i as nat));
                    }
                } else {
                    let mut uses: Vec<ToolUse> = Vec::new();
                    let mut k: usize = i + 1;
                    proof {
                        assert(uses_view(uses@) =~= calls.take(0).map_values(|x: CallView| use_of(x)));
                    }
                    while k < j
                        invariant
                            i + 1 <= k <= j <= n,
                            n == events@.len(),
                            ev == events_view(events@),
                            calls == calls_of(ev.subrange(i + 1, j as int)),
                            calls.len() == j - i - 1,
                            forall|q: int| i + 1 <= q < j ==> #[trigger] ev[q] is Toolcall,
                            uses_view(uses@) == calls.take(k - i - 1).map_values(|x: CallView| use_of(x)),
                        decreases j - k,
                    {
                        assert(ev[k as int] == events@[k as int]@);
                        match &events[k] {
                            HistoryEvent::Toolcall(rc) => {
                                let ghost prev = uses@;
                                uses.push(call_use(rc));
                                proof {
                                    assert(calls[k - i - 1] == rc@);
                                    assert(uses_view(uses@) =~= uses_view(prev).push(use_of(rc@)));
                                    assert(calls.take(k + 1 - i - 1).map_values(|x: CallView| use_of(x))
                                        =~= calls.take(k - i - 1).map_values(|x: CallView| use_of(x)).push(use_of(calls[k - i - 1])));
                                }
                            },
                            _ => {
                                assert(false);
                            },
                        }
                        k = k + 1;
                    }
                    proof {
                        assert(calls.take(j - i - 1) =~= calls);
                    }
                    push_message(&mut out, ChatMessage::Assistant { content: copy_string(c), tool_uses: Some(uses) });
                    let ghost head = messages_view(out@);
                    let mut k: usize = i + 1;
                    proof {
                        assert(messages_view(out@) =~= head + calls.take(0).map_values(|x: CallView| tool_message_of(x)));
                    }
                    while k < j
                        invariant
                            i + 1 <= k <= j <= n,
                            n == events@.len(),
                            ev == events_view(events@),
                            calls == calls_of(ev.subrange(i + 1, j as int)),
                            calls.len() == j - i - 1,
                            forall|q: int| i + 1 <= q < j ==> #[trigger] ev[q] is Toolcall,
                            messages_view(out@) == head + calls.take(k - i - 1).map_values(|x: CallView| tool_message_of(x)),
                        decreases j - k,
                    {
                        assert(ev[k as int] == events@[k as int]@);
                        match &events[k] {
                            HistoryEvent::Toolcall(rc) => {
                                push_message(&mut out, call_answer(rc));
                                proof {
                                    assert(calls[k - i - 1] == rc@);
                                    assert(calls.take(k + 1 - i - 1).map_values(|x: CallView| tool_message_of(x))
                                        =~= calls.take(k - i - 1).map_values(|x: CallView| tool_message_of(x)).push(tool_message_of(calls[k - i - 1])));
                                }
                            },
                            _ => {
                                assert(false);
                            },
                        }
                        k = k + 1;
                    }
                    proof {
                        assert(calls.take(j - i - 1) =~= calls);
                        assert(messages_view(out@) + messages_from(ev, j as nat) =~= before + messages_from(ev, i as nat));
                    }
                }
                i = j;
            },
            HistoryEvent::Toolcall(rc) => {
                let mut uses: Vec<ToolUse> = Vec::new();
                uses.push(call_use(rc));
                proof {
                    assert(uses_view(uses@) =~= seq![use_of(rc@)]);
                }
                push_message(&mut out, ChatMessage::Assistant { content: String::new(), tool_uses: Some(uses) });
                push_message(&mut out, call_answer(rc));
                proof {
                    assert(messages_view(out@) + messages_from(ev, (i + 1) as nat) =~= before + messages_from(ev, i as nat));
                }
                i = i + 1;
            },
            _ => {
                i = i + 1;
            },
        }
    }
    proof {
        assert(messages_view(out@) =~= messages_view(out@) + messages_from(ev, i as nat));
    }
    out
}

fn is_call(e: &HistoryEvent) -> (b: bool)
    ensures
        b == (e@ is Toolcall),
{
    match e {
        HistoryEvent::Toolcall(_) => true,
        _ => false,
    }
}


/// The first child with a tag.
pub open spec fn first_tagged(cs: Seq<NodeView>, tag: Seq<char>) -> Option<NodeView>
    decreases cs.len(),
{
    if cs.len() == 0 {
        None
    } else if cs[0].tag == tag {
        Some(cs[0])
    } else {
        first_tagged(cs.skip(1), tag)
    }
}

/// The text of the text-node children, in order.
pub open spec fn child_texts(cs: Seq<NodeView>) -> Seq<char>
    decreases cs.len(),
{
    if cs.len() == 0 {
        Seq::empty()
    } else {
        child_texts(cs.drop_last()) + if cs.last().tag == "#text"@ {
            match cs.last().content {
                Some(c) => c,
                None => Seq::empty(),
            }
        } else {
            Seq::empty()
        }
    }
}

/// A node's text: its own content and its text children's, trimmed.
pub open spec fn text_content_of(n: NodeView) -> Seq<char> {
    crate::text::trim(
        match n.content {
            Some(c) => c,
            None => Seq::empty(),
        } + child_texts(n.children),
    )
}

/// An attribute's value, or the empty text.
pub open spec fn attr_or_empty(n: NodeView, k: Seq<char>) -> Seq<char> {
    match crate::ynode::entries_get(n.attrs, k) {
        Some(v) => v,
        None => Seq::empty(),
    }
}

/// The call a `toolcall` element records: a missing `tool-call-id` is made of `call_` and the
/// `id`; a missing status is `success`; the answer is `error` for a failed call, else `result`.
pub open spec fn call_of(c: NodeView) -> CallView {
    let status = match crate::ynode::entries_get(c.attrs, "status"@) {
        Some(s) => s,
        None => "success"@,
    };
    CallView {
        tool_call_id: match crate::ynode::entries_get(c.attrs, "tool-call-id"@) {
            Some(t) => t,
            None => "call_"@ + attr_or_empty(c, "id"@),
        },
        name: attr_or_empty(c, "name"@),
        arguments: attr_or_empty(c, "arguments"@),
        status,
        result_or_error: if status == "failed"@ { attr_or_empty(c, "error"@) } else { attr_or_empty(c, "result"@) },
    }
}

/// What a history file holds for the conversation, by the kind its name gives: a workspace or
/// summary file is only marked; an intent file gives its `user-intent` text (when not empty); a
/// thought file its `thought`'s `content`; a toolcall file its `toolcall`. Other files, and
/// files without the element, give nothing.
pub open spec fn event_of(name: Seq<char>, n: NodeView) -> Option<EventView> {
    if contains_seq(name, "_workspace"@) {
        Some(EventView::Workspace)
    } else if contains_seq(name, "_intent"@) {
        match first_tagged(n.children, "user-intent"@) {
            Some(c) => if text_content_of(c).len() > 0 { Some(EventView::Intent(text_content_of(c))) } else { None },
            None => None,
        }
    } else if contains_seq(name, "_thought"@) {
        match first_tagged(n.children, "thought"@) {
            Some(c) => match crate::ynode::entries_get(c.attrs, "content"@) {
                Some(v) => Some(EventView::Thought(v)),
                None => None,
            },
            None => None,
        }
    } else if contains_seq(name, "_toolcall"@) {
        match first_tagged(n.children, "toolcall"@) {
            Some(c) => Some(EventView::Toolcall(call_of(c))),
            None => None,
        }
    } else if contains_seq(name, "_summary"@) {
        Some(EventView::Summary)
    } else {
        None
    }
}

/// The events of history files in order; a file that could not be read gives none.
pub open spec fn events_of(docs: Seq<(Seq<char>, Option<NodeView>)>) -> Seq<EventView>
    decreases docs.len(),
{
    if docs.len() == 0 {
        Seq::empty()
    } else {
        let p = events_of(docs.drop_last());
        match docs.last().1 {
            Some(n) => match event_of(docs.last().0, n) {
                Some(e) => p.push(e),
                None => p,
            },
            None => p,
        }
    }
}

fn first_child_tagged<'a>(n: &'a YNode, tag: &str) -> (r: Option<&'a YNode>)
    ensures
        match r {
            Some(c) => first_tagged(n@.children, tag@) == Some(c@),
            None => first_tagged(n@.children, tag@) is None,
        },
{
    let cs = n.children();
    let ghost cv = nodes_view(cs@);
    proof {
        crate::ynode::lemma_nodes_view_index(cs@);
        assert(cv.skip(0) =~= cv);
    }
    let mut i: usize = 0;
    while i < cs.len()
        invariant
            i <= cs@.len(),
            cv == nodes_view(cs@),
            cv == n@.children,
            cv.len() == cs@.len(),
            forall|k: int| 0 <= k < cs@.len() ==> #[trigger] cv[k] == cs@[k]@,
            first_tagged(cv, tag@) == first_tagged(cv.skip(i as int), tag@),
        decreases cs.len() - i,
    {
        proof {
            assert(cv.skip(i as int)[0] == cv[i as int]);
            assert(cv.skip(i as int).skip(1) =~= cv.skip(i + 1));
        }
        if str_eq(cs[i].tag(), tag) {
            return Some(&cs[i]);
        }
        i = i + 1;
    }
    proof {
        assert(cv.skip(i as int) =~= Seq::<NodeView>::empty());
    }
    None
}

/// A node's text (see `text_content_of`).
pub fn extract_text_content(n: &YNode) -> (r: String)
    ensures
        r@ == text_content_of(n@),
{
    let mut t = String::new();
    match n.content_str() {
        Some(c) => push(&mut t, c),
        None => {},
    }
    let ghost own = t@;
    let cs = n.children();
    let ghost cv = nodes_view(cs@);
    proof {
        crate::ynode::lemma_nodes_view_index(cs@);
        assert(cv.take(0) =~= Seq::<NodeView>::empty());
        assert(t@ =~= own + child_texts(cv.take(0)));
    }
    let mut i: usize = 0;
    while i < cs.len()
        invariant
            i <= cs@.len(),
            cv == nodes_view(cs@),
            cv.len() == cs@.len(),
            forall|k: int| 0 <= k < cs@.len() ==> #[trigger] cv[k] == cs@[k]@,
            t@ == own + child_texts(cv.take(i as int)),
        decreases cs.len() - i,
    {
        proof {
            let u = cv.take(i + 1);
            assert(u.drop_last() =~= cv.take(i as int));
            assert(u.last() == cs@[i as int]@);
        }
        if cs[i].is_text_node() {
            match cs[i].content_str() {
                Some(c) => push(&mut t, c),
                None => {},
            }
        }
        proof {
            assert(t@ =~= own + child_texts(cv.take(i + 1)));
        }
        i = i + 1;
    }
    proof {
        assert(cv.take(i as int) =~= cv);
    }
    crate::text::trim_str(t.as_str())
}

fn attr_text(n: &YNode, k: &str) -> (r: String)
    ensures
        r@ == attr_or_empty(n@, k@),
{
    match n.attr(k) {
        Some(v) => v,
        None => String::new(),
    }
}

fn call_record(c: &YNode) -> (r: CallRecord)
    ensures
        r@ == call_of(c@),
{
    proof {
        reveal_strlit("failed");
    }
    let status = match c.attr("status") {
        Some(s) => s,
        None => text_of("success"),
    };
    let tool_call_id = match c.attr("tool-call-id") {
        Some(t) => t,
        None => {
            let mut t = text_of("call_");
            push(&mut t, attr_text(c, "id").as_str());
            t
        },
    };
    let result_or_error = if str_eq(status.as_str(), "failed") {
        attr_text(c, "error")
    } else {
        attr_text(c, "result")
    };
    CallRecord { tool_call_id, name: attr_text(c, "name"), arguments: attr_text(c, "arguments"), status, result_or_error }
}

/// What a history file holds for the conversation (see `event_of`).
pub fn history_event(name: &str, n: &YNode) -> (r: Option<HistoryEvent>)
    ensures
        match r {
            Some(e) => event_of(name@, n@) == Some(e@),
            None => event_of(name@, n@) is None,
        },
{
    if contains_text(name, "_workspace") {
        Some(HistoryEvent::Workspace)
    } else if contains_text(name, "_intent") {
        match first_child_tagged(n, "user-intent") {
            Some(c) => {
                let t = extract_text_content(c);
                if t.as_str().unicode_len() > 0 {
                    Some(HistoryEvent::Intent(t))
                } else {
                    None
                }
            },
            None => None,
        }
    } else if contains_text(name, "_thought") {
        match first_child_tagged(n, "thought") {
            Some(c) => match c.attr("content") {
                Some(v) => Some(HistoryEvent::Thought(v)),
                None => None,
            },
            None => None,
        }
    } else if contains_text(name, "_toolcall") {
        match first_child_tagged(n, "toolcall") {
            Some(c) => Some(HistoryEvent::Toolcall(call_record(c))),
            None => None,
        }
    } else if contains_text(name, "_summary") {
        Some(HistoryEvent::Summary)
    } else {
        None
    }
}

/// The views of read history files: each name, with its node when it could be read.
pub open spec fn docs_view(docs: Seq<(String, Option<YNode>)>) -> Seq<(Seq<char>, Option<NodeView>)> {
    docs.map_values(|d: (String, Option<YNode>)| (d.0@, match d.1 {
        Some(n) => Some(n@),
        None => None,
    }))
}

/// The conversation a history stands for, from its files in order, each with its node when it
/// could be read (see `events_of` and `messages_from`).
pub fn build_messages_from_history(docs: &Vec<(String, Option<YNode>)>) -> (r: Vec<ChatMessage>)
    ensures
        messages_view(r@) == messages_from(events_of(docs_view(docs@)), 0),
{
    let ghost dv = docs_view(docs@);
    let mut events: Vec<HistoryEvent> = Vec::new();
    let mut i: usize = 0;
    proof {
        assert(dv.take(0) =~= Seq::<(Seq<char>, Option<NodeView>)>::empty());
        assert(events_view(events@) =~= Seq::<EventView>::empty());
    }
    while i < docs.len()
        invariant
            i <= docs@.len(),
            dv == docs_view(docs@),
            events_view(events@) == events_of(dv.take(i as int)),
        decreases docs.len() - i,
    {
        proof {
            let u = dv.take(i + 1);
            assert(u.drop_last() =~= dv.take(i as int));
        }
        let ghost prev = events@;
        match &docs[i].1 {
            Some(n) => match history_event(docs[i].0.as_str(), n) {
                Some(e) => {
                    events.push(e);
                    proof {
                        assert(events_view(events@) =~= events_view(prev).push(e@));
                    }
                },
                None => {},
            },
            None => {},
        }
        i = i + 1;
    }
    proof {
        assert(dv.take(i as int) =~= dv);
    }
    messages_from_events(&events)
}


// ---------------------------------------------------------------------------
// Every tool call is answered
// ---------------------------------------------------------------------------

/// The tool calls a message makes.
pub open spec fn tool_calls_of(m: MessageView) -> Seq<UseView> {
    match m {
        MessageView::Assistant(_, Some(us)) => us,
        _ => Seq::empty(),
    }
}

/// Whether a message answers the call with an id.
pub open spec fn answers_call(m: MessageView, id: Seq<char>) -> bool {
    m matches MessageView::Tool(_, i, _) && i == id
}

/// Whether the message at `k` has each of its tool calls answered right after it, in order.
pub open spec fn answered_at(ms: Seq<MessageView>, k: int) -> bool {
    forall|j: int| 0 <= j < tool_calls_of(ms[k]).len() ==> #[trigger] call_answered_at(ms, k, j)
}

/// Whether the `j`-th tool call of the message at `k` is answered by the message `j + 1` after it.
pub open spec fn call_answered_at(ms: Seq<MessageView>, k: int, j: int) -> bool {
    k + 1 + j < ms.len() && answers_call(ms[k + 1 + j], tool_calls_of(ms[k])[j].0)
}

/// Whether every assistant message that makes tool calls is followed, right after it, by one
/// tool message per call, answering the calls in order.
pub open spec fn calls_answered(ms: Seq<MessageView>) -> bool {
    forall|k: int| 0 <= k < ms.len() ==> #[trigger] answered_at(ms, k)
}

proof fn lemma_calls_answered_concat(a: Seq<MessageView>, b: Seq<MessageView>)
    requires
        calls_answered(a),
        calls_answered(b),
    ensures
        calls_answered(a + b),
{
    assert forall|k: int| 0 <= k < (a + b).len() implies #[trigger] answered_at(a + b, k) by {
        lemma_answered_at_concat(a, b, k);
    }
}

proof fn lemma_answered_at_concat(a: Seq<MessageView>, b: Seq<MessageView>, k: int)
    requires
        calls_answered(a),
        calls_answered(b),
        0 <= k < a.len() + b.len(),
    ensures
        answered_at(a + b, k),
{
    let c = a + b;
    if k < a.len() {
        assert(answered_at(a, k));
        assert(c[k] == a[k]);
        assert forall|j: int| 0 <= j < tool_calls_of(c[k]).len() implies #[trigger] call_answered_at(c, k, j) by {
            assert(call_answered_at(a, k, j));
            assert(c[k + 1 + j] == a[k + 1 + j]);
        }
    } else {
        let q = k - a.len();
        assert(answered_at(b, q));
        assert(c[k] == b[q]);
        assert forall|j: int| 0 <= j < tool_calls_of(c[k]).len() implies #[trigger] call_answered_at(c, k, j) by {
            assert(call_answered_at(b, q, j));
            assert(c[k + 1 + j] == b[q + 1 + j]);
        }
    }
}

proof fn lemma_thought_messages_answered(content: Seq<char>, calls: Seq<CallView>)
    ensures
        calls_answered(thought_messages(content, calls)),
{
    let ms = thought_messages(content, calls);
    let us = calls.map_values(|c: CallView| use_of(c));
    let ts = calls.map_values(|c: CallView| tool_message_of(c));
    assert forall|k: int| 0 <= k < ms.len() implies #[trigger] answered_at(ms, k) by {
        if calls.len() > 0 {
            if k == 0 {
                assert(ms[0] == MessageView::Assistant(content, Some(us)));
                assert forall|j: int| 0 <= j < tool_calls_of(ms[k]).len() implies #[trigger] call_answered_at(ms, k, j) by {
                    assert(ms[1 + j] == ts[j]);
                }
            } else {
                assert(ms[k] == ts[k - 1]);
            }
        } else {
            assert(ms[0] == MessageView::Assistant(content, None));
        }
    }
}

/// The conversation a history stands for answers every tool call it makes: each assistant
/// message with tool calls is followed by one tool message per call, in the calls' order.
pub proof fn lemma_messages_answer_calls(es: Seq<EventView>, i: nat)
    ensures
        calls_answered(messages_from(es, i)),
    decreases es.len() - i,
{
    if i < es.len() {
        match es[i as int] {
            EventView::Intent(c) => {
                lemma_messages_answer_calls(es, i + 1);
                lemma_calls_answered_concat(seq![MessageView::User(c)], messages_from(es, i + 1));
            },
            EventView::Thought(c) => {
                lemma_run_end(es, i + 1);
                let j = run_end(es, i + 1);
                lemma_messages_answer_calls(es, j);
                lemma_thought_messages_answered(c, calls_of(es.subrange(i + 1 as int, j as int)));
                lemma_calls_answered_concat(thought_messages(c, calls_of(es.subrange(i + 1 as int, j as int))), messages_from(es, j));
            },
            EventView::Toolcall(c) => {
                lemma_messages_answer_calls(es, i + 1);
                let head = seq![MessageView::Assistant(Seq::empty(), Some(seq![use_of(c)])), tool_message_of(c)];
                assert(calls_answered(head)) by {
                    assert forall|k: int| 0 <= k < head.len() implies #[trigger] answered_at(head, k) by {
                        if k == 0 {
                            assert(head[1] == tool_message_of(c));
                        }
                    }
                }
                lemma_calls_answered_concat(head, messages_from(es, i + 1));
            },
            _ => {
                lemma_messages_answer_calls(es, i + 1);
            },
        }
    }
}

} // verus!
