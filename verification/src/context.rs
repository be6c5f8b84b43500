//! What an agent remembers of a session: action results, the files of its workspace, the skills it
//! has, and the status of a memory.

use vstd::prelude::*;
use crate::rule::{copy_string, text_of};
use crate::source::opt_text;
use crate::text::str_eq;

verus! {

// ---------------------------------------------------------------------------
// Actions
// ---------------------------------------------------------------------------

/// The kind of an action.
#[derive(Debug, Clone, Copy, PartialEq, Eq, Structural)]
pub enum ActionType {
    /// A thought of the model.
    Thought,
    /// A tool call.
    ToolCall,
    /// A tool result.
    ToolResult,
    /// A system message.
    SystemMessage,
    /// A summary of earlier history.
    HistoricalSummary,
}

/// The text of an action type.
pub open spec fn action_type_text(t: ActionType) -> Seq<char> {
    match t {
        ActionType::Thought => "thought"@,
        ActionType::ToolCall => "tool-call"@,
        ActionType::ToolResult => "tool-result"@,
        ActionType::SystemMessage => "system-message"@,
        ActionType::HistoricalSummary => "historical-summary"@,
    }
}

impl ActionType {
    /// The text of this type, as used in memory documents.
    pub fn as_str(&self) -> (r: &'static str)
        ensures
            r@ == action_type_text(*self),
    {
        match self {
            ActionType::Thought => "thought",
            ActionType::ToolCall => "tool-call",
            ActionType::ToolResult => "tool-result",
            ActionType::SystemMessage => "system-message",
            ActionType::HistoricalSummary => "historical-summary",
        }
    }
}

/// Whether an action succeeded.
#[derive(Debug, Clone, Copy, PartialEq, Eq, Structural)]
pub enum ActionStatus {
    /// It succeeded (`OK`).
    Succeeded,
    /// It failed (`ERROR`).
    Error,
}

/// The text of an action status.
pub open spec fn action_status_text(s: ActionStatus) -> Seq<char> {
    match s {
        ActionStatus::Succeeded => "OK"@,
        ActionStatus::Error => "ERROR"@,
    }
}

impl ActionStatus {
    /// The text of this status, as used in memory documents.
    pub fn as_str(&self) -> (r: &'static str)
        ensures
            r@ == action_status_text(*self),
    {
        match self {
            ActionStatus::Succeeded => "OK",
            ActionStatus::Error => "ERROR",
        }
    }
}

impl Default for ActionStatus {
    fn default() -> (r: ActionStatus)
        ensures
            r == ActionStatus::Succeeded,
    {
        ActionStatus::Succeeded
    }
}

/// The result of an action.
#[derive(Debug)]
pub struct ActionResult {
    /// Whether the output is a summary.
    pub is_summary: bool,
    pub status: ActionStatus,
    /// The (summarised) output.
    pub output: String,
    /// The error message of a failed action.
    pub error: Option<String>,
    /// The full output of the tool.
    pub raw_content: Option<String>,
}

/// The mathematical value of an action result.
pub struct ActionResultView {
    pub is_summary: bool,
    pub status: ActionStatus,
    pub output: Seq<char>,
    pub error: Option<Seq<char>>,
    pub raw_content: Option<Seq<char>>,
}

impl View for ActionResult {
    type V = ActionResultView;

    open spec fn view(&self) -> ActionResultView {
        ActionResultView {
            is_summary: self.is_summary,
            status: self.status,
            output: self.output@,
            error: opt_text(self.error),
            raw_content: opt_text(self.raw_content),
        }
    }
}

impl ActionResult {
    /// A successful result with its output.
    pub fn ok(output: String) -> (r: ActionResult)
        ensures
            r@ == (ActionResultView {
                is_summary: false,
                status: ActionStatus::Succeeded,
                output: output@,
                error: None,
                raw_content: None,
            }),
    {
        ActionResult { is_summary: false, status: ActionStatus::Succeeded, output, error: None, raw_content: None }
    }

    /// A failed result with its error message and no output.
    pub fn error(error: String) -> (r: ActionResult)
        ensures
            r@ == (ActionResultView {
                is_summary: false,
                status: ActionStatus::Error,
                output: Seq::empty(),
                error: Some(error@),
                raw_content: None,
            }),
    {
        ActionResult { is_summary: false, status: ActionStatus::Error, output: String::new(), error: Some(error), raw_content: None }
    }

    /// A successful result whose output is a summary.
    pub fn summary(output: String) -> (r: ActionResult)
        ensures
            r@ == (ActionResultView {
                is_summary: true,
                status: ActionStatus::Succeeded,
                output: output@,
                error: None,
                raw_content: None,
            }),
    {
        ActionResult { is_summary: true, status: ActionStatus::Succeeded, output, error: None, raw_content: None }
    }

    /// A summary result that keeps the full output.
    pub fn summary_with_raw(output: String, raw_content: String) -> (r: ActionResult)
        ensures
            r@ == (ActionResultView {
                is_summary: true,
                status: ActionStatus::Succeeded,
                output: output@,
                error: None,
                raw_content: Some(raw_content@),
            }),
    {
        ActionResult { is_summary: true, status: ActionStatus::Succeeded, output, error: None, raw_content: Some(raw_content) }
    }

    /// The same result with its full output set.
    pub fn with_raw_content(self, raw_content: String) -> (r: ActionResult)
        ensures
            r@ == (ActionResultView { raw_content: Some(raw_content@), ..self@ }),
    {
        let mut me = self;
        me.raw_content = Some(raw_content);
        me
    }
}

// ---------------------------------------------------------------------------
// Workspace
// ---------------------------------------------------------------------------

/// A file of the working directory and what it is for.
#[derive(Debug)]
pub struct FileEntry {
    pub name: String,
    pub description: Option<String>,
}

/// The mathematical value of a file entry.
pub struct FileView {
    pub name: Seq<char>,
    pub description: Option<Seq<char>>,
}

impl View for FileEntry {
    type V = FileView;

    open spec fn view(&self) -> FileView {
        FileView { name: self.name@, description: opt_text(self.description) }
    }
}

impl Clone for FileEntry {
    fn clone(&self) -> (r: Self)
        ensures
            r@ == self@,
    {
        FileEntry {
            name: self.name.clone(),
            description: match &self.description {
                Some(d) => Some(d.clone()),
                None => None,
            },
        }
    }
}

impl FileEntry {
    /// A file entry without description.
    pub fn new(name: String) -> (r: FileEntry)
        ensures
            r@ == (FileView { name: name@, description: None }),
    {
        FileEntry { name, description: None }
    }

    /// A file entry with a description.
    pub fn with_description(name: String, description: String) -> (r: FileEntry)
        ensures
            r@ == (FileView { name: name@, description: Some(description@) }),
    {
        FileEntry { name, description: Some(description) }
    }

    /// Sets the description.
    pub fn set_description(&mut self, description: String)
        ensures
            final(self)@ == (FileView { description: Some(description@), ..old(self)@ }),
    {
        self.description = Some(description);
    }
}

/// The files of the working directory the agent is told about.
#[derive(Debug)]
pub struct Workspace {
    pub files: Vec<FileEntry>,
}

/// The views of a list of file entries.
pub open spec fn files_view(fs: Seq<FileEntry>) -> Seq<FileView> {
    fs.map_values(|f: FileEntry| f@)
}

/// The position of the first file named `name`, if any.
pub open spec fn first_named(fs: Seq<FileView>, name: Seq<char>) -> Option<int>
    decreases fs.len(),
{
    if fs.len() == 0 {
        None
    } else {
        match first_named(fs.drop_last(), name) {
            Some(i) => Some(i),
            None => if fs.last().name == name { Some(fs.len() - 1) } else { None },
        }
    }
}

/// The files after merging in one more file: an existing file of that name takes its
/// description (when it has one); otherwise the file is added at the end.
pub open spec fn merge_file(fs: Seq<FileView>, f: FileView) -> Seq<FileView> {
    match first_named(fs, f.name) {
        Some(i) => if f.description.is_some() {
            fs.update(i, FileView { description: f.description, ..fs[i] })
        } else {
            fs
        },
        None => fs.push(f),
    }
}

/// The files after merging in a list of files, in order.
pub open spec fn merge_files(fs: Seq<FileView>, other: Seq<FileView>) -> Seq<FileView>
    decreases other.len(),
{
    if other.len() == 0 {
        fs
    } else {
        merge_file(merge_files(fs, other.drop_last()), other.last())
    }
}

proof fn lemma_first_named(fs: Seq<FileView>, name: Seq<char>)
    ensures
        match first_named(fs, name) {
            Some(i) => 0 <= i < fs.len() && fs[i].name == name
                && forall|j: int| 0 <= j < i ==> fs[j].name != name,
            None => forall|j: int| 0 <= j < fs.len() ==> fs[j].name != name,
        },
    decreases fs.len(),
{
    if fs.len() > 0 {
        lemma_first_named(fs.drop_last(), name);
        let d = fs.drop_last();
        assert forall|j: int| 0 <= j < d.len() implies d[j] == fs[j] by {}
    }
}

impl Workspace {
    /// An empty workspace.
    pub fn new() -> (r: Workspace)
        ensures
            r.files@.len() == 0,
    {
        Workspace { files: Vec::new() }
    }

    /// Adds a file at the end.
    pub fn add_file(&mut self, file: FileEntry)
        ensures
            files_view(final(self).files@) == files_view(old(self).files@).push(file@),
    {
        let ghost prev = self.files@;
        self.files.push(file);
        proof {
            assert(files_view(self.files@) =~= files_view(prev).push(file@));
        }
    }

    /// The workspace with one more file at the end.
    pub fn with_file(self, file: FileEntry) -> (r: Workspace)
        ensures
            files_view(r.files@) == files_view(self.files@).push(file@),
    {
        let mut me = self;
        me.add_file(file);
        me
    }

    /// The position of the first file named `name`.
    fn position(&self, name: &str) -> (r: Option<usize>)
        ensures
            match r {
                Some(i) => first_named(files_view(self.files@), name@) == Some(i as int) && i < self.files@.len(),
                None => first_named(files_view(self.files@), name@) is None,
            },
    {
        let ghost fv = files_view(self.files@);
        let mut i: usize = 0;
        proof {
            assert(fv.take(0) =~= Seq::<FileView>::empty());
        }
        while i < self.files.len()
            invariant
                i <= self.files@.len(),
                fv == files_view(self.files@),
                first_named(fv.take(i as int), name@) is None,
            decreases self.files.len() - i,
        {
            proof {
                let t = fv.take(i + 1);
                assert(t.drop_last() =~= fv.take(i as int));
                assert(t.last() == self.files@[i as int]@);
            }
            if str_eq(self.files[i].name.as_str(), name) {
                proof {
                    lemma_first_named_prefix(fv, i as int + 1, name@);
                }
                return Some(i);
            }
            i = i + 1;
        }
        proof {
            assert(fv.take(self.files@.len() as int) =~= fv);
        }
        None
    }

    /// The first file named `name`.
    pub fn find_file(&self, name: &str) -> (r: Option<&FileEntry>)
        ensures
            match r {
                Some(f) => first_named(files_view(self.files@), name@) matches Some(i)
                    && f@ == files_view(self.files@)[i],
                None => first_named(files_view(self.files@), name@) is None,
            },
    {
        match self.position(name) {
            Some(i) => Some(&self.files[i]),
            None => None,
        }
    }

    /// The first file named `name`, to change it.
    pub fn find_file_mut(&mut self, name: &str) -> (r: Option<&mut FileEntry>)
        ensures
            match r {
                Some(f) => first_named(files_view(old(self).files@), name@) matches Some(i)
                    && *f == old(self).files@[i]
                    && final(self).files@ == old(self).files@.update(i, *final(f)),
                None => first_named(files_view(old(self).files@), name@) is None
                    && final(self).files@ == old(self).files@,
            },
    {
        match self.position(name) {
            Some(i) => Some(&mut self.files[i]),
            None => None,
        }
    }

    /// Removes the first file named `name` and gives it back.
    pub fn remove_file(&mut self, name: &str) -> (r: Option<FileEntry>)
        ensures
            match r {
                Some(f) => first_named(files_view(old(self).files@), name@) matches Some(i)
                    && f@ == files_view(old(self).files@)[i]
                    && files_view(final(self).files@) == files_view(old(self).files@).remove(i),
                None => first_named(files_view(old(self).files@), name@) is None
                    && files_view(final(self).files@) == files_view(old(self).files@),
            },
    {
        match self.position(name) {
            Some(i) => {
                let ghost prev = self.files@;
                let f = self.files.remove(i);
                proof {
                    assert(files_view(self.files@) =~= files_view(prev).remove(i as int));
                }
                Some(f)
            },
            None => None,
        }
    }

    /// Merges another workspace in: known files take the other's description when it has one,
    /// new files are added at the end, in order.
    pub fn merge(&mut self, other: &Workspace)
        ensures
            files_view(final(self).files@) == merge_files(files_view(old(self).files@), files_view(other.files@)),
    {
        let ghost ov = files_view(other.files@);
        let ghost start = files_view(self.files@);
        let mut k: usize = 0;
        proof {
            assert(ov.take(0) =~= Seq::<FileView>::empty());
        }
        while k < other.files.len()
            invariant
                k <= other.files@.len(),
                ov == files_view(other.files@),
                files_view(self.files@) == merge_files(start, ov.take(k as int)),
            decreases other.files.len() - k,
        {
            let file = &other.files[k];
            let ghost before = files_view(self.files@);
            match self.position(file.name.as_str()) {
                Some(i) => {
                    if file.description.is_some() {
                        let d = match &file.description {
                            Some(d) => copy_string(d),
                            None => String::new(),
                        };
                        let mut e = self.files.remove(i);
                        e.description = Some(d);
                        self.files.insert(i, e);
                        proof {
                            lemma_first_named(before, file.name@);
                            assert(files_view(self.files@) =~= before.update(i as int,
                                FileView { description: file@.description, ..before[i as int] }));
                        }
                    }
                },
                None => {
                    self.files.push(file.clone());
                    proof {
                        assert(files_view(self.files@) =~= before.push(file@));
                    }
                },
            }
            proof {
                let t = ov.take(k + 1);
                assert(t.drop_last() =~= ov.take(k as int));
                assert(t.last() == file@);
            }
            k = k + 1;
        }
        proof {
            assert(ov.take(other.files@.len() as int) =~= ov);
        }
    }
}

proof fn lemma_first_named_prefix(fv: Seq<FileView>, k: int, name: Seq<char>)
    requires
        0 < k <= fv.len(),
        first_named(fv.take(k - 1), name) is None,
        fv[k - 1].name == name,
    ensures
        first_named(fv, name) == Some(k - 1),
    decreases fv.len() - k,
{
    if k < fv.len() {
        lemma_first_named_prefix_step(fv, k, name);
        lemma_first_named_prefix(fv.drop_last(), k, name);
        assert(fv.drop_last().take(k - 1) =~= fv.take(k - 1));
    } else {
        assert(fv.drop_last() =~= fv.take(k - 1));
    }
}

proof fn lemma_first_named_prefix_step(fv: Seq<FileView>, k: int, name: Seq<char>)
    requires
        0 < k < fv.len(),
    ensures
        fv.drop_last().take(k - 1) == fv.take(k - 1),
        fv.drop_last()[k - 1] == fv[k - 1],
{
    assert(fv.drop_last().take(k - 1) =~= fv.take(k - 1));
}

// ---------------------------------------------------------------------------
// Skills
// ---------------------------------------------------------------------------

/// A skill the agent can use.
#[derive(Debug)]
pub struct SkillDef {
    pub name: String,
    pub description: Option<String>,
}

impl SkillDef {
    /// A skill without description.
    pub fn new(name: String) -> (r: SkillDef)
        ensures
            r.name@ == name@,
            r.description is None,
    {
        SkillDef { name, description: None }
    }

    /// A skill with a description.
    pub fn with_description(name: String, description: String) -> (r: SkillDef)
        ensures
            r.name@ == name@,
            opt_text(r.description) == Some(description@),
    {
        SkillDef { name, description: Some(description) }
    }
}

/// The skills of an agent.
#[derive(Debug)]
pub struct Skills {
    pub items: Vec<SkillDef>,
}

impl Skills {
    /// No skill.
    pub fn new() -> (r: Skills)
        ensures
            r.items@.len() == 0,
    {
        Skills { items: Vec::new() }
    }

    /// Whether there is no skill.
    pub fn is_empty(&self) -> (b: bool)
        ensures
            b == (self.items@.len() == 0),
    {
        self.items.len() == 0
    }

    /// The skills, in order.
    pub fn iter(&self) -> (r: &Vec<SkillDef>)
        ensures
            r@ == self.items@,
    {
        &self.items
    }
}

// ---------------------------------------------------------------------------
// Statuses
// ---------------------------------------------------------------------------

/// The status of a memory.
#[derive(Debug, Clone, Copy, PartialEq, Eq, Structural)]
pub enum MemoryStatus {
    Success,
    Pending,
    Failed,
}

/// The status of an agent context (the older name of a memory status).
#[derive(Debug, Clone, Copy, PartialEq, Eq, Structural)]
pub enum ContextStatus {
    Success,
    Pending,
    Failed,
}

impl Default for MemoryStatus {
    fn default() -> (r: MemoryStatus)
        ensures
            r == MemoryStatus::Pending,
    {
        MemoryStatus::Pending
    }
}

impl Default for ContextStatus {
    fn default() -> (r: ContextStatus)
        ensures
            r == ContextStatus::Pending,
    {
        ContextStatus::Pending
    }
}

/// The context status of the same name as a memory status.
pub open spec fn context_of_memory(s: MemoryStatus) -> ContextStatus {
    match s {
        MemoryStatus::Success => ContextStatus::Success,
        MemoryStatus::Pending => ContextStatus::Pending,
        MemoryStatus::Failed => ContextStatus::Failed,
    }
}

/// The memory status of the same name as a context status.
pub open spec fn memory_of_context(s: ContextStatus) -> MemoryStatus {
    match s {
        ContextStatus::Success => MemoryStatus::Success,
        ContextStatus::Pending => MemoryStatus::Pending,
        ContextStatus::Failed => MemoryStatus::Failed,
    }
}

impl ContextStatus {
    /// The context status of the same name.
    pub fn from_memory(s: MemoryStatus) -> (r: ContextStatus)
        ensures
            r == context_of_memory(s),
    {
        match s {
            MemoryStatus::Success => ContextStatus::Success,
            MemoryStatus::Pending => ContextStatus::Pending,
            MemoryStatus::Failed => ContextStatus::Failed,
        }
    }
}

impl MemoryStatus {
    /// The memory status of the same name.
    pub fn from_context(s: ContextStatus) -> (r: MemoryStatus)
        ensures
            r == memory_of_context(s),
    {
        match s {
            ContextStatus::Success => MemoryStatus::Success,
            ContextStatus::Pending => MemoryStatus::Pending,
            ContextStatus::Failed => MemoryStatus::Failed,
        }
    }
}

// ---------------------------------------------------------------------------
// Laws
// ---------------------------------------------------------------------------

/// Converting a status to the other naming and back gives it back.
pub proof fn lemma_status_conversions_invert(m: MemoryStatus, c: ContextStatus)
    ensures
        memory_of_context(context_of_memory(m)) == m,
        context_of_memory(memory_of_context(c)) == c,
{
}

/// Merging a workspace with no files changes nothing.
pub proof fn lemma_merge_empty(fs: Seq<FileView>)
    ensures
        merge_files(fs, Seq::empty()) == fs,
{
}

/// After a merge every file of the other workspace is known by name, and no file is lost.
pub proof fn lemma_merge_keeps_and_adds(fs: Seq<FileView>, other: Seq<FileView>)
    ensures
        merge_files(fs, other).len() >= fs.len(),
        forall|j: int| 0 <= j < fs.len() ==> merge_files(fs, other)[j].name == fs[j].name,
        forall|j: int| 0 <= j < other.len() ==> first_named(merge_files(fs, other), other[j].name) is Some,
    decreases other.len(),
{
    if other.len() > 0 {
        let prev = merge_files(fs, other.drop_last());
        lemma_merge_keeps_and_adds(fs, other.drop_last());
        let f = other.last();
        lemma_first_named(prev, f.name);
        let next = merge_file(prev, f);
        assert forall|j: int| 0 <= j < prev.len() implies next[j].name == prev[j].name by {}
        lemma_first_named(next, f.name);
        assert forall|j: int| 0 <= j < other.len() implies first_named(next, other[j].name) is Some by {
            if j < other.len() - 1 {
                assert(other.drop_last()[j] == other[j]);
                lemma_first_named(prev, other[j].name);
                let i = first_named(prev, other[j].name).unwrap();
                assert(next[i].name == other[j].name);
                lemma_first_named(next, other[j].name);
            } else {
                match first_named(prev, f.name) {
                    Some(i) => { assert(next[i].name == f.name); },
                    None => { assert(next[next.len() - 1].name == f.name); },
                }
            }
        }
    }
}

} // verus!
