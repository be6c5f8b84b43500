//! Markdown files with a `---` front matter block: agent definitions and skills.

use vstd::prelude::*;
use crate::rule::{copy_string, push, text_of};
use crate::text::{
    escape_seq, xml_escape, chars_of, join_lines, join_lines_from, lines_of, split_on, split_text, str_eq, string_of, text_lines,
    texts_of, trim, trim_char, trim_matches_char, trim_str,
};

verus! {

// ---------------------------------------------------------------------------
// The front matter block
// ---------------------------------------------------------------------------

/// std's `str::find(c)` for a character: the first position of `c`.
pub open spec fn first_index_of(s: Seq<char>, c: char) -> Option<int>
    decreases s.len(),
{
    if s.len() == 0 {
        None
    } else {
        match first_index_of(s.drop_last(), c) {
            Some(i) => Some(i),
            None => if s.last() == c { Some(s.len() - 1) } else { None },
        }
    }
}

/// The `key: value` entry of a metadata line: both trimmed, split at the first `:`. Blank
/// lines, lines starting with `#` and lines without `:` have none.
pub open spec fn meta_entry(line: Seq<char>) -> Option<(Seq<char>, Seq<char>)> {
    let t = trim(line);
    if t.len() == 0 || t[0] == '#' {
        None
    } else {
        match first_index_of(t, ':') {
            Some(p) => Some((trim(t.take(p)), trim(t.skip(p + 1)))),
            None => None,
        }
    }
}

/// The entries of metadata lines, in order.
pub open spec fn meta_entries(ls: Seq<Seq<char>>) -> Seq<(Seq<char>, Seq<char>)>
    decreases ls.len(),
{
    if ls.len() == 0 {
        Seq::empty()
    } else {
        let p = meta_entries(ls.drop_last());
        match meta_entry(ls.last()) {
            Some(e) => p.push(e),
            None => p,
        }
    }
}

/// The first line from `i` on that is a `---` fence.
pub open spec fn fence_from(ls: Seq<Seq<char>>, i: nat) -> Option<nat>
    decreases ls.len() - i,
{
    if i >= ls.len() {
        None
    } else if trim(ls[i as int]) == "---"@ {
        Some(i)
    } else {
        fence_from(ls, i + 1)
    }
}

/// The error of a text that does not start with a fence.
pub open spec fn missing_opening_text() -> Seq<char> {
    "Invalid frontmatter format: missing opening ---"@
}

/// The error of a block that is never closed.
pub open spec fn missing_closing_text() -> Seq<char> {
    "Invalid frontmatter format: missing closing ---"@
}

/// A text's front matter entries and body: it needs at least three lines, a first line that is
/// a fence, and a later fence; the entries come from the lines between, the body is the rest
/// joined with `\n`.
pub open spec fn frontmatter_of(content: Seq<char>) -> Result<(Seq<(Seq<char>, Seq<char>)>, Seq<char>), Seq<char>> {
    let ls = lines_of(content);
    if ls.len() < 3 || trim(ls[0]) != "---"@ {
        Err(missing_opening_text())
    } else {
        match fence_from(ls, 1) {
            None => Err(missing_closing_text()),
            Some(e) => Ok((meta_entries(ls.subrange(1, e as int)), join_lines(ls.skip(e + 1 as int)))),
        }
    }
}

/// The value of `key`: the last entry that sets it wins.
pub open spec fn meta_lookup(es: Seq<(Seq<char>, Seq<char>)>, key: Seq<char>) -> Option<Seq<char>>
    decreases es.len(),
{
    if es.len() == 0 {
        None
    } else if es.last().0 == key {
        Some(es.last().1)
    } else {
        meta_lookup(es.drop_last(), key)
    }
}

/// The metadata of a front matter block: its entries, where a later one for a key replaces an
/// earlier.
#[derive(Debug)]
pub struct Frontmatter {
    entries: Vec<(String, String)>,
}

/// The texts of entries.
pub open spec fn entries_view(es: Seq<(String, String)>) -> Seq<(Seq<char>, Seq<char>)> {
    es.map_values(|e: (String, String)| (e.0@, e.1@))
}

impl View for Frontmatter {
    type V = Seq<(Seq<char>, Seq<char>)>;

    closed spec fn view(&self) -> Seq<(Seq<char>, Seq<char>)> {
        entries_view(self.entries@)
    }
}

impl Frontmatter {
    /// The value set for `key`.
    pub fn get(&self, key: &str) -> (r: Option<&String>)
        ensures
            match r {
                Some(v) => meta_lookup(self@, key@) == Some(v@),
                None => meta_lookup(self@, key@) is None,
            },
    {
        let ghost es = entries_view(self.entries@);
        let mut i: usize = self.entries.len();
        proof {
            assert(es.take(i as int) =~= es);
        }
        while i > 0
            invariant
                i <= self.entries@.len(),
                es == entries_view(self.entries@),
                meta_lookup(es, key@) == meta_lookup(es.take(i as int), key@),
            decreases i,
        {
            let ghost t = es.take(i as int);
            proof {
                assert(t.drop_last() =~= es.take(i - 1));
                assert(t.last() == (self.entries@[i - 1].0@, self.entries@[i - 1].1@));
            }
            if str_eq(self.entries[i - 1].0.as_str(), key) {
                return Some(&self.entries[i - 1].1);
            }
            i = i - 1;
        }
        None
    }
}

/// A text's front matter and body (see `frontmatter_of`); the error is the reason it has none.
pub fn parse_frontmatter(content: &str) -> (r: Result<(Frontmatter, String), String>)
    ensures
        match r {
            Ok((m, body)) => frontmatter_of(content@) == Ok::<(Seq<(Seq<char>, Seq<char>)>, Seq<char>), Seq<char>>((m@, body@)),
            Err(e) => frontmatter_of(content@) == Err::<(Seq<(Seq<char>, Seq<char>)>, Seq<char>), Seq<char>>(e@),
        },
{
    proof {
        reveal_strlit("---");
    }
    let lines = text_lines(content);
    let ghost ls = lines_of(content@);
    assert(texts_of(lines@) == ls);
    let n = lines.len();
    if n < 3 {
        return Err(text_of("Invalid frontmatter format: missing opening ---"));
    }
    let first = trim_str(lines[0].as_str());
    assert(first@ == trim(ls[0]));
    if !str_eq(first.as_str(), "---") {
        return Err(text_of("Invalid frontmatter format: missing opening ---"));
    }
    let mut end: usize = 1;
    while end < n && !is_fence(&lines[end])
        invariant
            1 <= end <= n,
            n == lines@.len(),
            texts_of(lines@) == ls,
            fence_from(ls, 1) == fence_from(ls, end as nat),
        decreases n - end,
    {
        end = end + 1;
    }
    if end == n {
        return Err(text_of("Invalid frontmatter format: missing closing ---"));
    }
    assert(fence_from(ls, 1) == Some(end as nat));
    let mut entries: Vec<(String, String)> = Vec::new();
    let mut i: usize = 1;
    proof {
        assert(ls.subrange(1, 1) =~= Seq::<Seq<char>>::empty());
        assert(entries_view(entries@) =~= Seq::<(Seq<char>, Seq<char>)>::empty());
    }
    while i < end
        invariant
            1 <= i <= end < n,
            n == lines@.len(),
            texts_of(lines@) == ls,
            entries_view(entries@) == meta_entries(ls.subrange(1, i as int)),
        decreases end - i,
    {
        let ghost prev = entries@;
        proof {
            assert(ls.subrange(1, i + 1).drop_last() =~= ls.subrange(1, i as int));
            assert(ls.subrange(1, i + 1).last() == ls[i as int]);
        }
        match line_entry(lines[i].as_str()) {
            Some(e) => {
                entries.push(e);
                proof {
                    assert(entries_view(entries@) =~= entries_view(prev).push((e.0@, e.1@)));
                }
            },
            None => {},
        }
        i = i + 1;
    }
    let body = join_lines_from(&lines, end + 1);
    Ok((Frontmatter { entries }, body))
}

/// Whether a line is a `---` fence.
fn is_fence(line: &String) -> (b: bool)
    ensures
        b == (trim(line@) == "---"@),
{
    let t = trim_str(line.as_str());
    str_eq(t.as_str(), "---")
}

/// The entry of one metadata line (see `meta_entry`).
fn line_entry(line: &str) -> (r: Option<(String, String)>)
    ensures
        match r {
            Some(e) => meta_entry(line@) == Some((e.0@, e.1@)),
            None => meta_entry(line@) is None,
        },
{
    let t = trim_str(line);
    let cs = chars_of(t.as_str());
    if cs.len() == 0 || cs[0] == '#' {
        return None;
    }
    let mut p: usize = 0;
    while p < cs.len() && cs[p] != ':'
        invariant
            p <= cs@.len(),
            cs@ == trim(line@),
            forall|j: int| 0 <= j < p ==> cs@[j] != ':',
        decreases cs.len() - p,
    {
        p = p + 1;
    }
    proof {
        lemma_first_index(cs@, ':', p as int);
    }
    if p == cs.len() {
        return None;
    }
    let key_chars = slice_chars(&cs, 0, p);
    let value_chars = slice_chars(&cs, p + 1, cs.len());
    let key = trim_str(string_of(key_chars.as_slice()).as_str());
    let value = trim_str(string_of(value_chars.as_slice()).as_str());
    proof {
        assert(cs@.subrange(0, p as int) =~= cs@.take(p as int));
        assert(cs@.subrange(p + 1, cs@.len() as int) =~= cs@.skip(p + 1));
    }
    Some((key, value))
}

proof fn lemma_first_index(s: Seq<char>, c: char, p: int)
    requires
        0 <= p <= s.len(),
        forall|j: int| 0 <= j < p ==> s[j] != c,
        p == s.len() || s[p] == c,
    ensures
        first_index_of(s, c) == (if p == s.len() { None } else { Some(p) }),
    decreases s.len(),
{
    if s.len() > 0 {
        if p == s.len() {
            lemma_first_index(s.drop_last(), c, p - 1);
        } else if p < s.len() - 1 {
            lemma_first_index(s.drop_last(), c, p);
        } else {
            lemma_first_index(s.drop_last(), c, p);
        }
    }
}

/// The characters `v[from..to]`.
fn slice_chars(v: &Vec<char>, from: usize, to: usize) -> (r: Vec<char>)
    requires
        from <= to <= v@.len(),
    ensures
        r@ == v@.subrange(from as int, to as int),
{
    let mut out: Vec<char> = Vec::new();
    let mut i: usize = from;
    while i < to
        invariant
            from <= i <= to <= v@.len(),
            out@ == v@.subrange(from as int, i as int),
        decreases to - i,
    {
        out.push(v[i]);
        proof {
            assert(v@.subrange(from as int, i + 1) =~= v@.subrange(from as int, i as int).push(v@[i as int]));
        }
        i = i + 1;
    }
    out
}

// ---------------------------------------------------------------------------
// Agents
// ---------------------------------------------------------------------------

/// The tool names of a `tools` value: split at `,`, each trimmed and stripped of quotes.
pub open spec fn tool_names(s: Seq<char>) -> Seq<Seq<char>> {
    split_on(s, ',').map_values(|p: Seq<char>| trim_char(trim(p), '"'))
}

/// The tool names of a `tools` value (see `tool_names`).
pub fn parse_tools(tools_str: &str) -> (r: Vec<String>)
    ensures
        texts_of(r@) == tool_names(tools_str@),
{
    let pieces = split_text(tools_str, ',');
    let ghost p = split_on(tools_str@, ',');
    let mut out: Vec<String> = Vec::new();
    let mut i: usize = 0;
    while i < pieces.len()
        invariant
            i <= pieces@.len(),
            texts_of(pieces@) == p,
            texts_of(out@) == p.take(i as int).map_values(|q: Seq<char>| trim_char(trim(q), '"')),
        decreases pieces.len() - i,
    {
        let ghost prev = out@;
        let t = trim_str(pieces[i].as_str());
        let name = trim_matches_char(t.as_str(), '"');
        out.push(name);
        proof {
            assert(p[i as int] == pieces@[i as int]@);
            assert(texts_of(out@) =~= texts_of(prev).push(trim_char(trim(p[i as int]), '"')));
            assert(p.take(i + 1).map_values(|q: Seq<char>| trim_char(trim(q), '"'))
                =~= p.take(i as int).map_values(|q: Seq<char>| trim_char(trim(q), '"')).push(
                trim_char(trim(p[i as int]), '"'),
            ));
        }
        i = i + 1;
    }
    proof {
        assert(p.take(i as int) =~= p);
    }
    out
}

/// An agent: its type, description, model, tools and system prompt.
#[derive(Debug)]
pub struct AgentConfig {
    pub agent_type: String,
    pub description: String,
    pub model_name: String,
    pub tools: Vec<String>,
    pub system_prompt: String,
}

/// The mathematical value of an agent.
pub struct AgentView {
    pub agent_type: Seq<char>,
    pub description: Seq<char>,
    pub model_name: Seq<char>,
    pub tools: Seq<Seq<char>>,
    pub system_prompt: Seq<char>,
}

impl View for AgentConfig {
    type V = AgentView;

    open spec fn view(&self) -> AgentView {
        AgentView {
            agent_type: self.agent_type@,
            description: self.description@,
            model_name: self.model_name@,
            tools: texts_of(self.tools@),
            system_prompt: self.system_prompt@,
        }
    }
}

/// A value, or the empty text.
pub open spec fn or_empty(v: Option<Seq<char>>) -> Seq<char> {
    match v {
        Some(t) => t,
        None => Seq::empty(),
    }
}

/// The agent an agent file describes: `name`, `description`, `model` and `tools` from its front
/// matter (empty when missing), and its trimmed body as system prompt. None without front matter.
pub open spec fn agent_of(content: Seq<char>) -> Option<AgentView> {
    match frontmatter_of(content) {
        Ok((es, body)) => Some(AgentView {
            agent_type: or_empty(meta_lookup(es, "name"@)),
            description: or_empty(meta_lookup(es, "description"@)),
            model_name: or_empty(meta_lookup(es, "model"@)),
            tools: match meta_lookup(es, "tools"@) {
                Some(t) => tool_names(t),
                None => Seq::empty(),
            },
            system_prompt: trim(body),
        }),
        Err(_) => None,
    }
}

fn value_or_empty(m: &Frontmatter, key: &str) -> (r: String)
    ensures
        r@ == or_empty(meta_lookup(m@, key@)),
{
    match m.get(key) {
        Some(v) => copy_string(v),
        None => String::new(),
    }
}

/// The agent an agent file describes (see `agent_of`).
pub fn parse_agent_config(content: &str) -> (r: Option<AgentConfig>)
    ensures
        match r {
            Some(a) => agent_of(content@) == Some(a@),
            None => agent_of(content@) is None,
        },
{
    match parse_frontmatter(content) {
        Ok((meta, body)) => {
            let tools = match meta.get("tools") {
                Some(t) => parse_tools(t.as_str()),
                None => {
                    let e: Vec<String> = Vec::new();
                    proof {
                        assert(texts_of(e@) =~= Seq::<Seq<char>>::empty());
                    }
                    e
                },
            };
            Some(AgentConfig {
                agent_type: value_or_empty(&meta, "name"),
                description: value_or_empty(&meta, "description"),
                model_name: value_or_empty(&meta, "model"),
                tools,
                system_prompt: trim_str(body.as_str()),
            })
        },
        Err(_) => None,
    }
}


// ---------------------------------------------------------------------------
// Listings of skills and agents
// ---------------------------------------------------------------------------

/// The listing entry of a skill file: its `name` and `description` (as written), when its front
/// matter has both.
pub open spec fn skill_entry_of(content: Seq<char>) -> Option<Seq<char>> {
    match frontmatter_of(content) {
        Ok((es, _)) => match (meta_lookup(es, "name"@), meta_lookup(es, "description"@)) {
            (Some(n), Some(d)) => Some(
                "  <skill>\n    <name>"@ + n + "</name>\n    <description>"@ + d + "</description>\n  </skill>\n"@,
            ),
            _ => None,
        },
        Err(_) => None,
    }
}

/// The listing entry of an agent file: its escaped `name` and `description`, when its front
/// matter has both.
pub open spec fn agent_entry_of(content: Seq<char>) -> Option<Seq<char>> {
    match frontmatter_of(content) {
        Ok((es, _)) => match (meta_lookup(es, "name"@), meta_lookup(es, "description"@)) {
            (Some(n), Some(d)) => Some(
                "    <agent name=\""@ + escape_seq(n) + "\" description=\""@ + escape_seq(d) + "\" />\n"@,
            ),
            _ => None,
        },
        Err(_) => None,
    }
}

/// The entries of a list of files, in order, each file giving its entry or nothing.
pub open spec fn entries_text(cs: Seq<Seq<char>>, entry: spec_fn(Seq<char>) -> Option<Seq<char>>) -> Seq<char>
    decreases cs.len(),
{
    if cs.len() == 0 {
        Seq::empty()
    } else {
        entries_text(cs.drop_last(), entry) + match entry(cs.last()) {
            Some(t) => t,
            None => Seq::empty(),
        }
    }
}

/// The skills listing: `<skills></skills>` without a skills directory, else each skill file's
/// entry inside `<skills>` lines.
pub open spec fn skills_listing_of(files: Option<Seq<Seq<char>>>) -> Seq<char> {
    match files {
        None => "<skills></skills>"@,
        Some(cs) => "<skills>\n"@ + entries_text(cs, |c: Seq<char>| skill_entry_of(c)) + "</skills>"@,
    }
}

/// The agents listing: empty without an agents directory, else each agent file's entry inside
/// `<available-agents>` lines.
pub open spec fn agents_listing_of(files: Option<Seq<Seq<char>>>) -> Seq<char> {
    match files {
        None => Seq::empty(),
        Some(cs) => "<available-agents>\n"@ + entries_text(cs, |c: Seq<char>| agent_entry_of(c))
            + "</available-agents>"@,
    }
}

/// The listing entry of a skill file (see `skill_entry_of`).
pub fn skill_entry(content: &str) -> (r: Option<String>)
    ensures
        match r {
            Some(t) => skill_entry_of(content@) == Some(t@),
            None => skill_entry_of(content@) is None,
        },
{
    match parse_frontmatter(content) {
        Ok((meta, _)) => match (meta.get("name"), meta.get("description")) {
            (Some(n), Some(d)) => {
                let mut t = text_of("  <skill>\n    <name>");
                push(&mut t, n.as_str());
                push(&mut t, "</name>\n    <description>");
                push(&mut t, d.as_str());
                push(&mut t, "</description>\n  </skill>\n");
                Some(t)
            },
            _ => None,
        },
        Err(_) => None,
    }
}

/// The listing entry of an agent file (see `agent_entry_of`).
pub fn agent_entry(content: &str) -> (r: Option<String>)
    ensures
        match r {
            Some(t) => agent_entry_of(content@) == Some(t@),
            None => agent_entry_of(content@) is None,
        },
{
    match parse_frontmatter(content) {
        Ok((meta, _)) => match (meta.get("name"), meta.get("description")) {
            (Some(n), Some(d)) => {
                let mut t = text_of("    <agent name=\"");
                push(&mut t, xml_escape(n.as_str()).as_str());
                push(&mut t, "\" description=\"");
                push(&mut t, xml_escape(d.as_str()).as_str());
                push(&mut t, "\" />\n");
                Some(t)
            },
            _ => None,
        },
        Err(_) => None,
    }
}

/// The skills listing for the skill files found (see `skills_listing_of`).
fn skills_listing(files: Option<&Vec<String>>) -> (r: String)
    ensures
        r@ == skills_listing_of(match files {
            Some(v) => Some(texts_of(v@)),
            None => None,
        }),
{
    match files {
        None => text_of("<skills></skills>"),
        Some(v) => {
            let ghost cs = texts_of(v@);
            let mut out = text_of("<skills>\n");
            let ghost head = out@;
            let mut i: usize = 0;
            proof {
                assert(cs.take(0) =~= Seq::<Seq<char>>::empty());
                assert(out@ =~= head + entries_text(cs.take(0), |c: Seq<char>| skill_entry_of(c)));
            }
            while i < v.len()
                invariant
                    i <= v@.len(),
                    cs == texts_of(v@),
                    out@ == head + entries_text(cs.take(i as int), |c: Seq<char>| skill_entry_of(c)),
                decreases v.len() - i,
            {
                let ghost before = out@;
                proof {
                    assert(cs.take(i + 1).drop_last() =~= cs.take(i as int));
                    assert(cs.take(i + 1).last() == v@[i as int]@);
                }
                match skill_entry(v[i].as_str()) {
                    Some(t) => push(&mut out, t.as_str()),
                    None => {},
                }
                proof {
                    assert(out@ =~= head + entries_text(cs.take(i + 1), |c: Seq<char>| skill_entry_of(c)));
                }
                i = i + 1;
            }
            proof {
                assert(cs.take(i as int) =~= cs);
            }
            push(&mut out, "</skills>");
            out
        },
    }
}

/// The agents listing for the agent files found (see `agents_listing_of`).
pub fn load_agents(files: Option<&Vec<String>>) -> (r: String)
    ensures
        r@ == agents_listing_of(match files {
            Some(v) => Some(texts_of(v@)),
            None => None,
        }),
{
    match files {
        None => String::new(),
        Some(v) => {
            let ghost cs = texts_of(v@);
            let mut out = text_of("<available-agents>\n");
            let ghost head = out@;
            let mut i: usize = 0;
            proof {
                assert(cs.take(0) =~= Seq::<Seq<char>>::empty());
                assert(out@ =~= head + entries_text(cs.take(0), |c: Seq<char>| agent_entry_of(c)));
            }
            while i < v.len()
                invariant
                    i <= v@.len(),
                    cs == texts_of(v@),
                    out@ == head + entries_text(cs.take(i as int), |c: Seq<char>| agent_entry_of(c)),
                decreases v.len() - i,
            {
                proof {
                    assert(cs.take(i + 1).drop_last() =~= cs.take(i as int));
                    assert(cs.take(i + 1).last() == v@[i as int]@);
                }
                match agent_entry(v[i].as_str()) {
                    Some(t) => push(&mut out, t.as_str()),
                    None => {},
                }
                proof {
                    assert(out@ =~= head + entries_text(cs.take(i + 1), |c: Seq<char>| agent_entry_of(c)));
                }
                i = i + 1;
            }
            proof {
                assert(cs.take(i as int) =~= cs);
            }
            push(&mut out, "</available-agents>");
            out
        },
    }
}

// ---------------------------------------------------------------------------
// The skill tool
// ---------------------------------------------------------------------------

/// The skill tool: loads a skill's guide by name.
#[derive(Debug)]
pub struct SkillTool;

/// What became of reading a skill's `SKILL.md`.
#[derive(Debug)]
pub enum SkillFile {
    /// There is no such file.
    Missing,
    /// It could not be read (this error).
    Unreadable(String),
    /// Its content.
    Content(String),
}

/// The skill a tool input names, or the error when it names none.
pub open spec fn skill_name_of(input: crate::json::JsonView) -> Result<Seq<char>, Seq<char>> {
    match crate::json::json_str(crate::json::json_get(input, "name"@)) {
        Some(n) => Ok(n),
        None => Err("Missing 'name' field in input"@),
    }
}

/// The answer to a skill request for `name`, given its file: its guide document (the name from
/// the front matter, else the one asked for, and the trimmed body), or an error.
pub open spec fn skill_reply_of(name: Seq<char>, file: SkillFileView) -> Result<Seq<char>, Seq<char>> {
    match file {
        SkillFileView::Missing => Err("Skill '"@ + name + "' not found"@),
        SkillFileView::Unreadable(e) => Err("Failed to read skill file: "@ + e),
        SkillFileView::Content(c) => match frontmatter_of(c) {
            Ok((es, body)) => Ok(
                "<skill><name>"@ + match meta_lookup(es, "name"@) {
                    Some(n) => n,
                    None => name,
                } + "</name><guide>"@ + trim(body) + "</guide></skill>"@,
            ),
            Err(_) => Err("Failed to parse skill metadata"@),
        },
    }
}

/// The mathematical value of a skill file.
pub enum SkillFileView {
    Missing,
    Unreadable(Seq<char>),
    Content(Seq<char>),
}

impl View for SkillFile {
    type V = SkillFileView;

    open spec fn view(&self) -> SkillFileView {
        match self {
            SkillFile::Missing => SkillFileView::Missing,
            SkillFile::Unreadable(e) => SkillFileView::Unreadable(e@),
            SkillFile::Content(c) => SkillFileView::Content(c@),
        }
    }
}

impl SkillTool {
    /// The skills listing for the skill files found (see `skills_listing_of`): the contents of
    /// each skill directory's `SKILL.md`, none without a skills directory.
    pub fn load_skills(files: Option<&Vec<String>>) -> (r: String)
        ensures
            r@ == skills_listing_of(match files {
                Some(v) => Some(texts_of(v@)),
                None => None,
            }),
    {
        skills_listing(files)
    }

    /// The skill a tool input names (see `skill_name_of`).
    pub fn requested_skill(input: &crate::json::Json) -> (r: Result<String, String>)
        ensures
            match r {
                Ok(n) => skill_name_of(input@) == Ok::<Seq<char>, Seq<char>>(n@),
                Err(e) => skill_name_of(input@) == Err::<Seq<char>, Seq<char>>(e@),
            },
    {
        match crate::json::get_string(input, "name") {
            Some(n) => Ok(n),
            None => Err(text_of("Missing 'name' field in input")),
        }
    }

    /// The answer to a skill request (see `skill_reply_of`).
    pub fn reply(name: &str, file: &SkillFile) -> (r: Result<String, String>)
        ensures
            match r {
                Ok(t) => skill_reply_of(name@, file@) == Ok::<Seq<char>, Seq<char>>(t@),
                Err(e) => skill_reply_of(name@, file@) == Err::<Seq<char>, Seq<char>>(e@),
            },
    {
        match file {
            SkillFile::Missing => {
                let mut t = text_of("Skill '");
                push(&mut t, name);
                push(&mut t, "' not found");
                Err(t)
            },
            SkillFile::Unreadable(e) => {
                let mut t = text_of("Failed to read skill file: ");
                push(&mut t, e.as_str());
                Err(t)
            },
            SkillFile::Content(c) => match parse_frontmatter(c.as_str()) {
                Ok((meta, body)) => {
                    let mut t = text_of("<skill><name>");
                    match meta.get("name") {
                        Some(n) => push(&mut t, n.as_str()),
                        None => push(&mut t, name),
                    }
                    push(&mut t, "</name><guide>");
                    push(&mut t, trim_str(body.as_str()).as_str());
                    push(&mut t, "</guide></skill>");
                    Ok(t)
                },
                Err(_) => Err(text_of("Failed to parse skill metadata")),
            },
        }
    }
}

} // verus!
