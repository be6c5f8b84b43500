//! The application: where its files are, its prompts, and the agents it knows.

use vstd::prelude::*;
use crate::frontmatter::{agent_of, parse_agent_config, AgentConfig, AgentView};
use crate::rule::{copy_string, push, text_of};
use crate::storage::{join_path, path_join};
use crate::text::{str_eq, texts_of};

verus! {

/// The agents by type: a later one of a type replaces an earlier.
pub open spec fn agents_map(v: Seq<AgentView>) -> Map<Seq<char>, AgentView>
    decreases v.len(),
{
    if v.len() == 0 {
        Map::empty()
    } else {
        agents_map(v.drop_last()).insert(v.last().agent_type, v.last())
    }
}

/// No two agents have the same type.
pub open spec fn types_distinct(v: Seq<AgentView>) -> bool {
    forall|i: int, j: int| 0 <= i < j < v.len() ==> v[i].agent_type != v[j].agent_type
}

/// The types of agents, in order.
pub open spec fn agent_types(v: Seq<AgentView>) -> Seq<Seq<char>> {
    v.map_values(|a: AgentView| a.agent_type)
}

/// The views of agents.
pub open spec fn agents_view(v: Seq<AgentConfig>) -> Seq<AgentView> {
    v.map_values(|a: AgentConfig| a@)
}

/// The application: its name, the directory it lives in, its prompts, and its agents.
#[derive(Debug)]
pub struct App {
    name: String,
    root: String,
    system_prompt: String,
    agent_prompt: String,
    agents: Vec<AgentConfig>,
}

/// The mathematical value of the application.
pub struct AppView {
    pub name: Seq<char>,
    pub root: Seq<char>,
    pub system_prompt: Seq<char>,
    pub agent_prompt: Seq<char>,
    pub agents: Map<Seq<char>, AgentView>,
}

impl View for App {
    type V = AppView;

    closed spec fn view(&self) -> AppView {
        AppView {
            name: self.name@,
            root: self.root@,
            system_prompt: self.system_prompt@,
            agent_prompt: self.agent_prompt@,
            agents: agents_map(agents_view(self.agents@)),
        }
    }
}

proof fn lemma_agents_map_update(v: Seq<AgentView>, i: int, a: AgentView)
    requires
        0 <= i < v.len(),
        types_distinct(v),
        v[i].agent_type == a.agent_type,
    ensures
        agents_map(v.update(i, a)) == agents_map(v).insert(a.agent_type, a),
        types_distinct(v.update(i, a)),
    decreases v.len(),
{
    let w = v.update(i, a);
    if i == v.len() - 1 {
        assert(w.drop_last() =~= v.drop_last());
        assert(agents_map(w) =~= agents_map(v).insert(a.agent_type, a));
    } else {
        let d = v.drop_last();
        assert(types_distinct(d));
        lemma_agents_map_update(d, i, a);
        assert(w.drop_last() =~= d.update(i, a));
        assert(w.last() == v.last());
        assert(v.last().agent_type != a.agent_type) by {
            assert(v[i].agent_type != v[v.len() - 1].agent_type);
        }
        assert(agents_map(w) =~= agents_map(v).insert(a.agent_type, a));
    }
    assert forall|p: int, q: int| 0 <= p < q < w.len() implies w[p].agent_type != w[q].agent_type by {
        if p == i {
            assert(v[q].agent_type != v[i].agent_type);
        } else if q == i {
            assert(v[p].agent_type != v[i].agent_type);
        }
    }
}

proof fn lemma_agents_map_push(v: Seq<AgentView>, a: AgentView)
    requires
        types_distinct(v),
        forall|k: int| 0 <= k < v.len() ==> v[k].agent_type != a.agent_type,
    ensures
        agents_map(v.push(a)) == agents_map(v).insert(a.agent_type, a),
        types_distinct(v.push(a)),
{
    assert(v.push(a).drop_last() =~= v);
}

/// The paths of the application's files under its directory.
pub open spec fn app_path(root: Seq<char>, name: Seq<char>) -> Seq<char> {
    path_join(root, name)
}

/// The system prompt at start: the `YUSHI.md` text, a new line and the skills listing when that
/// file could be read, else the skills listing alone.
pub open spec fn startup_prompt_of(yushi_md: Option<Seq<char>>, skills: Seq<char>) -> Seq<char> {
    match yushi_md {
        Some(p) => p + "\n"@ + skills,
        None => skills,
    }
}

impl App {
    /// Whether no two agents have the same type.
    pub closed spec fn well_formed(&self) -> bool {
        types_distinct(agents_view(self.agents@))
    }

    /// An application named `DaYuHai` living in `root`, with empty prompts and no agents.
    pub fn new(root: String) -> (r: App)
        ensures
            r.well_formed(),
            r@.name == "DaYuHai"@,
            r@.root == root@,
            r@.system_prompt == Seq::<char>::empty(),
            r@.agent_prompt == Seq::<char>::empty(),
            r@.agents == Map::<Seq<char>, AgentView>::empty(),
    {
        let r = App { name: text_of("DaYuHai"), root, system_prompt: String::new(), agent_prompt: String::new(), agents: Vec::new() };
        proof {
            assert(agents_view(r.agents@) =~= Seq::<AgentView>::empty());
        }
        r
    }

    /// The application's directory.
    pub fn root_path(&self) -> (r: String)
        ensures
            r@ == self@.root,
    {
        copy_string(&self.root)
    }

    /// The path of `AGENTS.md`.
    pub fn agents_md(&self) -> (r: String)
        ensures
            r@ == app_path(self@.root, "AGENTS.md"@),
    {
        join_path(self.root.as_str(), "AGENTS.md")
    }

    /// The path of the agents directory.
    pub fn agents_dir(&self) -> (r: String)
        ensures
            r@ == app_path(self@.root, "agents"@),
    {
        join_path(self.root.as_str(), "agents")
    }

    /// The path of the history directory.
    pub fn history_dir(&self) -> (r: String)
        ensures
            r@ == app_path(self@.root, "history"@),
    {
        join_path(self.root.as_str(), "history")
    }

    /// Sets the system prompt.
    pub fn add_prompt(&mut self, prompt: &str)
        requires
            old(self).well_formed(),
        ensures
            final(self).well_formed(),
            final(self)@ == (AppView { system_prompt: prompt@, ..old(self)@ }),
    {
        self.system_prompt = text_of(prompt);
    }

    /// Sets the prompt every agent gets.
    pub fn add_agent_prompt(&mut self, prompt: &str)
        requires
            old(self).well_formed(),
        ensures
            final(self).well_formed(),
            final(self)@ == (AppView { agent_prompt: prompt@, ..old(self)@ }),
    {
        self.agent_prompt = text_of(prompt);
    }

    /// The system prompt.
    pub fn system_prompt(&self) -> (r: String)
        ensures
            r@ == self@.system_prompt,
    {
        copy_string(&self.system_prompt)
    }

    /// The prompt every agent gets.
    pub fn agent_prompt(&self) -> (r: String)
        ensures
            r@ == self@.agent_prompt,
    {
        copy_string(&self.agent_prompt)
    }

    /// Registers the agent an agent file describes (replacing one of the same type); a file
    /// without front matter changes nothing.
    pub fn add_agent(&mut self, agent_config: &str)
        requires
            old(self).well_formed(),
        ensures
            final(self).well_formed(),
            final(self)@ == (AppView {
                agents: match agent_of(agent_config@) {
                    Some(a) => old(self)@.agents.insert(a.agent_type, a),
                    None => old(self)@.agents,
                },
                ..old(self)@
            }),
    {
        match parse_agent_config(agent_config) {
            Some(a) => self.insert_agent(a),
            None => {},
        }
    }

    fn insert_agent(&mut self, a: AgentConfig)
        requires
            old(self).well_formed(),
        ensures
            final(self).well_formed(),
            final(self)@ == (AppView { agents: old(self)@.agents.insert(a@.agent_type, a@), ..old(self)@ }),
    {
        let ghost av = agents_view(self.agents@);
        let mut i: usize = 0;
        while i < self.agents.len()
            invariant
                i <= self.agents@.len(),
                av == agents_view(self.agents@),
                types_distinct(av),
                *self == *old(self),
                forall|k: int| 0 <= k < i ==> av[k].agent_type != a@.agent_type,
            decreases self.agents.len() - i,
        {
            if str_eq(self.agents[i].agent_type.as_str(), a.agent_type.as_str()) {
                let ghost aa = a@;
                proof {
                    lemma_agents_map_update(av, i as int, aa);
                }
                self.agents.set(i, a);
                proof {
                    assert(agents_view(self.agents@) =~= av.update(i as int, aa));
                }
                return;
            }
            i = i + 1;
        }
        let ghost aa = a@;
        proof {
            lemma_agents_map_push(av, aa);
        }
        self.agents.push(a);
        proof {
            assert(agents_view(self.agents@) =~= av.push(aa));
        }
    }

    /// The agent of a type.
    pub fn get_agent(&self, agent_type: &str) -> (r: Option<&AgentConfig>)
        requires
            self.well_formed(),
        ensures
            match r {
                Some(a) => self@.agents.contains_key(agent_type@) && self@.agents[agent_type@] == a@,
                None => !self@.agents.contains_key(agent_type@),
            },
    {
        let ghost av = agents_view(self.agents@);
        let mut i: usize = 0;
        while i < self.agents.len()
            invariant
                i <= self.agents@.len(),
                av == agents_view(self.agents@),
                types_distinct(av),
                forall|k: int| 0 <= k < i ==> av[k].agent_type != agent_type@,
            decreases self.agents.len() - i,
        {
            if str_eq(self.agents[i].agent_type.as_str(), agent_type) {
                proof {
                    lemma_agents_map_lookup(av, i as int);
                }
                return Some(&self.agents[i]);
            }
            i = i + 1;
        }
        proof {
            lemma_agents_map_absent(av, agent_type@);
        }
        None
    }

    /// The types of the known agents.
    pub fn get_all_agent_types(&self) -> (r: Vec<String>)
        requires
            self.well_formed(),
        ensures
            forall|t: Seq<char>| #[trigger] texts_of(r@).contains(t) <==> self@.agents.contains_key(t),
            r@.len() == self@.agents.len(),
    {
        let ghost av = agents_view(self.agents@);
        let mut out: Vec<String> = Vec::new();
        let mut i: usize = 0;
        while i < self.agents.len()
            invariant
                i <= self.agents@.len(),
                av == agents_view(self.agents@),
                types_distinct(av),
                texts_of(out@) =~= agent_types(av.take(i as int)),
            decreases self.agents.len() - i,
        {
            let ghost prev = out@;
            out.push(copy_string(&self.agents[i].agent_type));
            proof {
                assert(texts_of(out@) =~= texts_of(prev).push(av[i as int].agent_type));
                assert(av.take(i + 1) =~= av.take(i as int).push(av[i as int]));
            }
            i = i + 1;
        }
        proof {
            assert(av.take(i as int) =~= av);
            lemma_agents_map_keys(av);
        }
        out
    }

    /// The system prompt at start (see `startup_prompt_of`).
    pub fn startup_prompt(yushi_md: Option<&str>, skills: &str) -> (r: String)
        ensures
            r@ == startup_prompt_of(match yushi_md {
                Some(p) => Some(p@),
                None => None,
            }, skills@),
    {
        match yushi_md {
            Some(p) => {
                let mut t = text_of(p);
                push(&mut t, "\n");
                push(&mut t, skills);
                t
            },
            None => text_of(skills),
        }
    }
}

proof fn lemma_agents_map_lookup(v: Seq<AgentView>, i: int)
    requires
        0 <= i < v.len(),
        types_distinct(v),
    ensures
        agents_map(v).contains_key(v[i].agent_type),
        agents_map(v)[v[i].agent_type] == v[i],
    decreases v.len(),
{
    if i < v.len() - 1 {
        lemma_agents_map_lookup(v.drop_last(), i);
        assert(v.drop_last()[i] == v[i]);
        assert(v[i].agent_type != v[v.len() - 1].agent_type);
    }
}

proof fn lemma_agents_map_absent(v: Seq<AgentView>, t: Seq<char>)
    requires
        forall|k: int| 0 <= k < v.len() ==> v[k].agent_type != t,
    ensures
        !agents_map(v).contains_key(t),
    decreases v.len(),
{
    if v.len() > 0 {
        lemma_agents_map_absent(v.drop_last(), t);
    }
}

proof fn lemma_agents_map_keys(v: Seq<AgentView>)
    requires
        types_distinct(v),
    ensures
        forall|t: Seq<char>| #[trigger] agent_types(v).contains(t) <==> agents_map(v).contains_key(t),
        agents_map(v).len() == v.len(),
        agents_map(v).dom().finite(),
    decreases v.len(),
{
    if v.len() > 0 {
        let d = v.drop_last();
        lemma_agents_map_keys(d);
        let ts = agent_types(v);
        let ds = agent_types(d);
        assert(ts =~= ds.push(v.last().agent_type));
        assert(!agents_map(d).contains_key(v.last().agent_type)) by {
            if agents_map(d).contains_key(v.last().agent_type) {
                assert(ds.contains(v.last().agent_type));
                let k = choose|k: int| 0 <= k < ds.len() && ds[k] == v.last().agent_type;
                assert(v[k].agent_type != v[v.len() - 1].agent_type);
            }
        }
        assert forall|t: Seq<char>| #[trigger] ts.contains(t) <==> agents_map(v).contains_key(t) by {
            if ts.contains(t) {
                let k = choose|k: int| 0 <= k < ts.len() && ts[k] == t;
                if k < ds.len() {
                    assert(ds[k] == t);
                    assert(ds.contains(t));
                }
            }
            if agents_map(v).contains_key(t) && t != v.last().agent_type {
                assert(ds.contains(t));
                let k = choose|k: int| 0 <= k < ds.len() && ds[k] == t;
                assert(ts[k] == t);
            }
            if t == v.last().agent_type {
                assert(ts[ts.len() - 1] == t);
            }
        }
    }
}


/// An agent registered from a file is the one found under its type afterwards, and the other
/// agents stay as they were.
pub proof fn lemma_added_agent_found(agents: Map<Seq<char>, AgentView>, content: Seq<char>, other: Seq<char>)
    requires
        agent_of(content) is Some,
    ensures
        ({
            let a = agent_of(content).unwrap();
            let after = agents.insert(a.agent_type, a);
            &&& after.contains_key(a.agent_type)
            &&& after[a.agent_type] == a
            &&& other != a.agent_type ==> (after.contains_key(other) == agents.contains_key(other)
                && (agents.contains_key(other) ==> after[other] == agents[other]))
        }),
{
}

} // verus!
