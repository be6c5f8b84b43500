//! Delta-chain storage of rules and sources, and the plan cache.
//!
//! Every change to the rule or source set is a new numbered XML file extending the last one.
//! This module decides the names and contents of those files and reads plan files back; the
//! reading and writing of files themselves are left to the caller.

use vstd::prelude::*;
use crate::rule::{
    attr_xml, copy_string, push, push_attr, rule_merge_xml, rule_merge_xml_element, rules_doc_xml, rules_view,
    text_of, Rule, RulePatch, RuleView, PatchView, Rules,
};
use crate::source::{sources_doc_xml, sources_view, EventSource, EventSources, SourceView};
use crate::text::{
    decode_pieces, entity_char, entity_text, escape_piece, EscPiece,
    chars_of, decimal, escape_content_seq, escape_seq, escape_xml_content, i64_to_string, parse_i64,
    parse_i64_spec, parse_u32, parse_unsigned, replace_chars, replace_seq, signed_decimal, str_eq,
    string_of, u64_to_string, xml_escape,
};
use crate::rule::{rules_from_tokens, DocError, DocErrorView};
use crate::source::sources_from_tokens;
use crate::ynode::{entries_get, extends_chain, merge_view, OverrideRule, lemma_nodes_view_index, lemma_nodes_view_push, named_texts, node_text, nodes_view, NodeView, parse_tokens, YError, YErrorView, YNode};
use crate::xml_token::{xml_rs_read, attrs_view, quick_xml_tokens, read_quick_xml, tokens_view, AttrView, TokenView, XmlAttr, XmlToken};

verus! {

// ---------------------------------------------------------------------------
// Paths
// ---------------------------------------------------------------------------

/// std's `Path::join` on Unix for these names: an absolute name replaces the directory,
/// otherwise the two are joined by one `/` (none is added after a trailing `/` or to an empty
/// directory).
pub open spec fn path_join(dir: Seq<char>, name: Seq<char>) -> Seq<char> {
    if name.len() > 0 && name[0] == '/' {
        name
    } else if dir.len() == 0 {
        name
    } else if dir.last() == '/' {
        dir + name
    } else {
        dir + "/"@ + name
    }
}

/// Joins a path and a name as `path_join` describes.
pub fn join_path(dir: &str, name: &str) -> (r: String)
    ensures
        r@ == path_join(dir@, name@),
{
    let d = chars_of(dir);
    let n = chars_of(name);
    if n.len() > 0 && n[0] == '/' {
        return text_of(name);
    }
    if d.len() == 0 {
        return text_of(name);
    }
    let mut s = text_of(dir);
    if d[d.len() - 1] != '/' {
        push(&mut s, "/");
    }
    push(&mut s, name);
    s
}

// ---------------------------------------------------------------------------
// Delta file names
// ---------------------------------------------------------------------------

/// The text before the first `_` of a file name (all of it when there is none).
pub open spec fn before_underscore(s: Seq<char>) -> Seq<char>
    decreases s.len(),
{
    if s.len() == 0 || s[0] == '_' {
        Seq::empty()
    } else {
        seq![s[0]] + before_underscore(s.skip(1))
    }
}

/// The sequence number of a delta file `N_action_id.xml`, if `N` is a `u32`.
pub open spec fn file_seq(name: Seq<char>) -> Option<nat> {
    parse_unsigned(before_underscore(name), u32::MAX as nat)
}

/// The number files are ordered by: the sequence number, 0 when there is none.
pub open spec fn seq_key(name: Seq<char>) -> nat {
    match file_seq(name) {
        Some(n) => n,
        None => 0,
    }
}

/// The largest sequence number among the names, if any has one.
pub open spec fn max_seq(names: Seq<Seq<char>>) -> Option<nat>
    decreases names.len(),
{
    if names.len() == 0 {
        None
    } else {
        let m = max_seq(names.drop_last());
        match file_seq(names.last()) {
            Some(n) => match m {
                Some(k) => if n > k { Some(n) } else { Some(k) },
                None => Some(n),
            },
            None => m,
        }
    }
}

/// The number the next delta file gets: one more than the largest, 1 in an empty directory.
pub open spec fn next_seq(names: Seq<Seq<char>>) -> nat {
    match max_seq(names) {
        Some(m) => m + 1,
        None => 1,
    }
}

/// The position of the file a stable sort by `seq_key` puts last: the last of those with the
/// largest key.
pub open spec fn last_index(names: Seq<Seq<char>>) -> int
    decreases names.len(),
{
    if names.len() <= 1 {
        0
    } else {
        let b = last_index(names.drop_last());
        if seq_key(names.last()) >= seq_key(names[b]) {
            names.len() - 1
        } else {
            b
        }
    }
}

/// The texts of a list of strings.
pub open spec fn names_view(v: Seq<String>) -> Seq<Seq<char>> {
    v.map_values(|s: String| s@)
}

/// Whether a directory entry name is a delta file: it ends with `.xml` (and not `.xml.tmp`).
pub open spec fn is_delta_name(name: Seq<char>) -> bool {
    name.len() >= 4 && name.subrange(name.len() - 4, name.len() as int) == ".xml"@
}

/// The text before the first `_` of a name.
pub fn prefix_before_underscore(s: &str) -> (r: String)
    ensures
        r@ == before_underscore(s@),
{
    let cs = chars_of(s);
    let mut i: usize = 0;
    while i < cs.len() && cs[i] != '_'
        invariant
            i <= cs@.len(),
            cs@ == s@,
            forall|j: int| 0 <= j < i ==> cs@[j] != '_',
        decreases cs.len() - i,
    {
        i = i + 1;
    }
    proof {
        lemma_before_underscore(cs@, i as int);
    }
    let v: Vec<char> = slice_prefix(&cs, i);
    string_of(v.as_slice())
}

proof fn lemma_before_underscore(s: Seq<char>, i: int)
    requires
        0 <= i <= s.len(),
        forall|j: int| 0 <= j < i ==> s[j] != '_',
        i == s.len() || s[i] == '_',
    ensures
        before_underscore(s) == s.take(i),
    decreases i,
{
    if i > 0 {
        lemma_before_underscore(s.skip(1), i - 1);
        assert(s.take(i) =~= seq![s[0]] + s.skip(1).take(i - 1));
    } else {
        assert(s.take(0) =~= Seq::<char>::empty());
    }
}

fn slice_prefix(v: &Vec<char>, n: usize) -> (r: Vec<char>)
    requires
        n <= v@.len(),
    ensures
        r@ == v@.take(n as int),
{
    let mut out: Vec<char> = Vec::new();
    let mut i: usize = 0;
    while i < n
        invariant
            i <= n,
            n <= v@.len(),
            out@ == v@.take(i as int),
        decreases n - i,
    {
        out.push(v[i]);
        proof {
            assert(v@.take(i + 1) =~= v@.take(i as int).push(v@[i as int]));
        }
        i = i + 1;
    }
    out
}

/// The sequence number of a delta file name, if its part before `_` is a `u32`.
pub fn file_sequence(name: &str) -> (r: Option<u32>)
    ensures
        match r {
            Some(n) => file_seq(name@) == Some(n as nat),
            None => file_seq(name@) is None,
        },
{
    let p = prefix_before_underscore(name);
    parse_u32(p.as_str())
}

/// Whether a directory entry is a delta file (its name ends with `.xml`).
pub fn is_delta_file_name(name: &str) -> (b: bool)
    ensures
        b == is_delta_name(name@),
{
    let cs = chars_of(name);
    let n = cs.len();
    if n < 4 {
        return false;
    }
    let b = cs[n - 4] == '.' && cs[n - 3] == 'x' && cs[n - 2] == 'm' && cs[n - 1] == 'l';
    proof {
        reveal_strlit(".xml");
        let t = cs@.subrange(n - 4, n as int);
        if b {
            assert(t =~= ".xml"@);
        } else {
            if t == ".xml"@ {
                assert(t[0] == cs@[n - 4] && t[1] == cs@[n - 3] && t[2] == cs@[n - 2] && t[3] == cs@[n - 1]);
            }
        }
    }
    b
}

/// The delta files among directory entry names, in their order.
pub fn scan_xml_files(entries: &Vec<String>) -> (r: Vec<String>)
    ensures
        names_view(r@) == names_view(entries@).filter(|n: Seq<char>| is_delta_name(n)),
{
    let ghost ev = names_view(entries@);
    let mut out: Vec<String> = Vec::new();
    let mut i: usize = 0;
    proof {
        assert(ev.take(0) =~= Seq::<Seq<char>>::empty());
        reveal(Seq::filter);
        assert(ev.take(0).filter(|n: Seq<char>| is_delta_name(n)) =~= Seq::<Seq<char>>::empty());
        assert(names_view(out@) =~= Seq::<Seq<char>>::empty());
    }
    while i < entries.len()
        invariant
            i <= entries@.len(),
            ev == names_view(entries@),
            names_view(out@) == ev.take(i as int).filter(|n: Seq<char>| is_delta_name(n)),
        decreases entries.len() - i,
    {
        let ghost prev = out@;
        let keep = is_delta_file_name(entries[i].as_str());
        if keep {
            out.push(copy_string(&entries[i]));
        }
        proof {
            let t = ev.take(i + 1);
            assert(t.drop_last() =~= ev.take(i as int));
            assert(t.last() == entries@[i as int]@);
            reveal(Seq::filter);
            if keep {
                assert(names_view(out@) =~= names_view(prev).push(entries@[i as int]@));
            } else {
                assert(names_view(out@) =~= names_view(prev));
            }
        }
        i = i + 1;
    }
    proof {
        assert(ev.take(entries@.len() as int) =~= ev);
    }
    out
}

/// Whether no delta file already has the largest sequence number (so one more fits a `u32`).
pub open spec fn seq_room(names: Seq<Seq<char>>) -> bool {
    forall|i: int| 0 <= i < names.len() ==> file_seq(#[trigger] names[i]) != Some(u32::MAX as nat)
}

proof fn lemma_max_seq_bound(names: Seq<Seq<char>>)
    requires
        seq_room(names),
    ensures
        max_seq(names) matches Some(m) ==> m < u32::MAX,
    decreases names.len(),
{
    if names.len() > 0 {
        assert(seq_room(names.drop_last())) by {
            assert forall|i: int| 0 <= i < names.drop_last().len() implies
                file_seq(#[trigger] names.drop_last()[i]) != Some(u32::MAX as nat) by {
                assert(names.drop_last()[i] == names[i]);
            }
        }
        lemma_max_seq_bound(names.drop_last());
        assert(file_seq(names[names.len() - 1]) != Some(u32::MAX as nat));
        match file_seq(names.last()) {
            Some(n) => {
                assert(n <= u32::MAX);
            },
            None => {},
        }
    }
}

/// The sequence number for the next delta file among the given delta file names.
pub fn next_sequence_number(names: &Vec<String>) -> (r: u32)
    requires
        seq_room(names_view(names@)),
    ensures
        r as nat == next_seq(names_view(names@)),
{
    let ghost nv = names_view(names@);
    let mut best: Option<u32> = None;
    let mut i: usize = 0;
    proof {
        assert(nv.take(0) =~= Seq::<Seq<char>>::empty());
    }
    while i < names.len()
        invariant
            i <= names@.len(),
            nv == names_view(names@),
            match best {
                Some(b) => max_seq(nv.take(i as int)) == Some(b as nat),
                None => max_seq(nv.take(i as int)) is None,
            },
        decreases names.len() - i,
    {
        let f = file_sequence(names[i].as_str());
        proof {
            let t = nv.take(i + 1);
            assert(t.drop_last() =~= nv.take(i as int));
            assert(t.last() == names@[i as int]@);
        }
        match f {
            Some(n) => {
                best = match best {
                    Some(b) => if n > b { Some(n) } else { Some(b) },
                    None => Some(n),
                };
            },
            None => {},
        }
        i = i + 1;
    }
    proof {
        assert(nv.take(names@.len() as int) =~= nv);
        lemma_max_seq_bound(nv);
    }
    match best {
        Some(b) => b + 1,
        None => 1,
    }
}

fn key_of(name: &str) -> (k: u32)
    ensures
        k as nat == seq_key(name@),
{
    match file_sequence(name) {
        Some(n) => n,
        None => 0,
    }
}

/// The delta file a stable sort by sequence number puts last, if there is any file.
pub fn last_file_name(names: &Vec<String>) -> (r: Option<String>)
    ensures
        names@.len() == 0 ==> r is None,
        names@.len() > 0 ==> (r matches Some(n) && n@ == names@[last_index(names_view(names@))]@),
{
    if names.len() == 0 {
        return None;
    }
    let ghost nv = names_view(names@);
    let mut best: usize = 0;
    let mut best_key: u32 = key_of(names[0].as_str());
    let mut i: usize = 1;
    proof {
        assert(nv.take(1).len() == 1);
    }
    while i < names.len()
        invariant
            1 <= i <= names@.len(),
            nv == names_view(names@),
            best < i,
            best as int == last_index(nv.take(i as int)),
            best_key as nat == seq_key(nv[best as int]),
        decreases names.len() - i,
    {
        let k = key_of(names[i].as_str());
        proof {
            let t = nv.take(i + 1);
            assert(t.drop_last() =~= nv.take(i as int));
            assert(t.last() == nv[i as int]);
            assert(nv.take(i as int)[best as int] == nv[best as int]);
        }
        if k >= best_key {
            best = i;
            best_key = k;
        }
        i = i + 1;
    }
    proof {
        assert(nv.take(names@.len() as int) =~= nv);
    }
    Some(copy_string(&names[best]))
}

/// The file a delta extends: the last delta file, or `0_base.xml` in an empty directory.
pub open spec fn extends_name(names: Seq<Seq<char>>) -> Seq<char> {
    if names.len() == 0 {
        "0_base.xml"@
    } else {
        names[last_index(names)]
    }
}

proof fn lemma_last_index_range(names: Seq<Seq<char>>)
    requires
        names.len() > 0,
    ensures
        0 <= last_index(names) < names.len(),
    decreases names.len(),
{
    if names.len() > 1 {
        lemma_last_index_range(names.drop_last());
    }
}

fn extends_of(names: &Vec<String>) -> (r: String)
    ensures
        r@ == extends_name(names_view(names@)),
{
    proof {
        let nv = names_view(names@);
        assert(nv.len() == names@.len());
        if nv.len() > 0 {
            lemma_last_index_range(nv);
            assert(nv[last_index(nv)] == names@[last_index(nv)]@);
        }
    }
    match last_file_name(names) {
        Some(n) => n,
        None => text_of("0_base.xml"),
    }
}

// ---------------------------------------------------------------------------
// The storage
// ---------------------------------------------------------------------------

/// One step of a cached plan: a tool and its JSON arguments.
#[derive(Debug)]
pub struct PlanStep {
    pub tool: String,
    pub arguments: String,
}

impl View for PlanStep {
    type V = (Seq<char>, Seq<char>);

    open spec fn view(&self) -> (Seq<char>, Seq<char>) {
        (self.tool@, self.arguments@)
    }
}

/// What is known of a cached plan.
#[derive(Debug)]
pub struct PlanStatus {
    pub exists: bool,
    /// Path of the plan file relative to the automation directory.
    pub path: String,
    pub created_at_ms: Option<i64>,
    pub steps_count: usize,
}

/// A file to write: its path and its whole content.
#[derive(Debug)]
pub struct DeltaFile {
    pub path: String,
    pub content: String,
}

/// The storage of one automation directory.
#[derive(Debug)]
pub struct Storage {
    automation_dir: String,
}

impl View for Storage {
    type V = Seq<char>;

    closed spec fn view(&self) -> Seq<char> {
        self.automation_dir@
    }
}

/// A delta's file name: `{seq}_{action}_{id}.xml`.
pub open spec fn delta_file_name(seq: nat, action: Seq<char>, id: Seq<char>) -> Seq<char> {
    decimal(seq) + "_"@ + action + "_"@ + id + ".xml"@
}

/// The XML declaration line every update and removal delta starts with.
pub open spec fn xml_decl() -> Seq<char> {
    "<?xml version=\"1.0\" encoding=\"UTF-8\"?>\n"@
}

/// The opening line of a rules delta extending `extends` (not escaped).
pub open spec fn rules_delta_open(extends: Seq<char>) -> Seq<char> {
    "<Rules xmlns:x=\"/nop/schema/xdsl.xdef\" x:extends=\""@ + extends + "\">\n"@
}

fn delta_name(seq: u32, action: &str, id: &str) -> (r: String)
    ensures
        r@ == delta_file_name(seq as nat, action@, id@),
{
    let mut s = u64_to_string(seq as u64);
    push(&mut s, "_");
    push(&mut s, action);
    push(&mut s, "_");
    push(&mut s, id);
    push(&mut s, ".xml");
    s
}

impl Storage {
    /// A storage rooted at `automation_dir`.
    pub fn new(automation_dir: String) -> (r: Storage)
        ensures
            r@ == automation_dir@,
    {
        Storage { automation_dir }
    }

    /// The directory of rule deltas.
    pub fn rules_dir(&self) -> (r: String)
        ensures
            r@ == path_join(self@, "rules"@),
    {
        join_path(self.automation_dir.as_str(), "rules")
    }

    /// The directory of source deltas.
    pub fn sources_dir(&self) -> (r: String)
        ensures
            r@ == path_join(self@, "sources"@),
    {
        join_path(self.automation_dir.as_str(), "sources")
    }

    /// The directory of cached plans.
    pub fn plans_dir(&self) -> (r: String)
        ensures
            r@ == path_join(self@, "plans"@),
    {
        join_path(self.automation_dir.as_str(), "plans")
    }

    /// The directory of run sessions.
    pub fn sessions_dir(&self) -> (r: String)
        ensures
            r@ == path_join(self@, "sessions"@),
    {
        join_path(self.automation_dir.as_str(), "sessions")
    }

    /// The file of a rule's cached plan.
    pub fn plan_path(&self, rule_id: &str) -> (r: String)
        ensures
            r@ == path_join(path_join(self@, "plans"@), rule_id@ + ".task.xml"@),
    {
        let d = self.plans_dir();
        let mut n = text_of(rule_id);
        push(&mut n, ".task.xml");
        join_path(d.as_str(), n.as_str())
    }

    /// The first sources file: the clock alone.
    pub fn base_sources_file(&self) -> (r: DeltaFile)
        ensures
            r.path@ == path_join(path_join(self@, "sources"@), "0_base.xml"@),
            r.content@ == sources_doc_xml(
                "<EventSources xmlns:x=\"/nop/schema/xdsl.xdef\">"@,
                seq![crate::source::clock_view()],
            ),
    {
        let d = self.sources_dir();
        let path = join_path(d.as_str(), "0_base.xml");
        let sources = EventSources::default_with_clock();
        DeltaFile { path, content: sources.to_xml() }
    }

    /// The first rules file: no rule.
    pub fn base_rules_file(&self) -> (r: DeltaFile)
        ensures
            r.path@ == path_join(path_join(self@, "rules"@), "0_base.xml"@),
            r.content@ == rules_doc_xml("<Rules xmlns:x=\"/nop/schema/xdsl.xdef\">"@, Seq::<RuleView>::empty()),
    {
        let d = self.rules_dir();
        let path = join_path(d.as_str(), "0_base.xml");
        let rules = Rules { rules: Vec::new() };
        proof {
            assert(rules_view(rules.rules@) =~= Seq::<RuleView>::empty());
        }
        DeltaFile { path, content: rules.to_xml() }
    }

    /// The delta file that adds a rule, given the delta files already in the rules directory.
    pub fn create_rule_add_delta(&self, rule: &Rule, names: &Vec<String>) -> (r: DeltaFile)
        requires
            seq_room(names_view(names@)),
        ensures
            r.path@ == path_join(
                path_join(self@, "rules"@),
                delta_file_name(next_seq(names_view(names@)), "add"@, rule.id@),
            ),
            r.content@ == rules_doc_xml(
                "<Rules xmlns:x=\"/nop/schema/xdsl.xdef\""@ + attr_xml("x:extends"@, extends_name(names_view(names@)))
                    + ">"@,
                seq![rule@],
            ),
    {
        let dir = self.rules_dir();
        let seq = next_sequence_number(names);
        let extends = extends_of(names);
        let mut v: Vec<Rule> = Vec::new();
        v.push(rule.clone());
        let rules = Rules { rules: v };
        proof {
            assert(rules_view(rules.rules@) =~= seq![rule@]);
        }
        let xml = rules.to_delta_xml(extends.as_str());
        let name = delta_name(seq, "add", rule.id.as_str());
        DeltaFile { path: join_path(dir.as_str(), name.as_str()), content: xml }
    }

    /// The delta file that updates a rule.
    pub fn create_rule_update_delta(&self, rule: &Rule, patch: &RulePatch, names: &Vec<String>) -> (r: DeltaFile)
        requires
            seq_room(names_view(names@)),
        ensures
            r.path@ == path_join(
                path_join(self@, "rules"@),
                delta_file_name(next_seq(names_view(names@)), "update"@, rule.id@),
            ),
            r.content@ == xml_decl() + rules_delta_open(extends_name(names_view(names@)))
                + rule_merge_xml(rule.id@, patch@) + "\n</Rules>"@,
    {
        self.create_rule_update_delta_by_id(rule.id.as_str(), patch, names)
    }

    /// The delta file that updates the rule with id `rule_id`: only the patched attributes,
    /// marked `x:override="merge"`.
    pub fn create_rule_update_delta_by_id(&self, rule_id: &str, patch: &RulePatch, names: &Vec<String>) -> (r: DeltaFile)
        requires
            seq_room(names_view(names@)),
        ensures
            r.path@ == path_join(
                path_join(self@, "rules"@),
                delta_file_name(next_seq(names_view(names@)), "update"@, rule_id@),
            ),
            r.content@ == xml_decl() + rules_delta_open(extends_name(names_view(names@)))
                + rule_merge_xml(rule_id@, patch@) + "\n</Rules>"@,
    {
        let dir = self.rules_dir();
        let seq = next_sequence_number(names);
        let extends = extends_of(names);
        let elem = rule_merge_xml_element(rule_id, patch);
        let mut xml = text_of("<?xml version=\"1.0\" encoding=\"UTF-8\"?>\n");
        push(&mut xml, "<Rules xmlns:x=\"/nop/schema/xdsl.xdef\" x:extends=\"");
        push(&mut xml, extends.as_str());
        push(&mut xml, "\">\n");
        push(&mut xml, elem.as_str());
        push(&mut xml, "\n</Rules>");
        proof {
            assert(xml@ =~= xml_decl() + rules_delta_open(extends@) + elem@ + "\n</Rules>"@);
        }
        let name = delta_name(seq, "update", rule_id);
        DeltaFile { path: join_path(dir.as_str(), name.as_str()), content: xml }
    }

    /// The delta file that removes the rule with id `rule_id`.
    pub fn create_rule_remove_delta(&self, rule_id: &str, names: &Vec<String>) -> (r: DeltaFile)
        requires
            seq_room(names_view(names@)),
        ensures
            r.path@ == path_join(
                path_join(self@, "rules"@),
                delta_file_name(next_seq(names_view(names@)), "remove"@, rule_id@),
            ),
            r.content@ == xml_decl() + rules_delta_open(extends_name(names_view(names@)))
                + "    <rule id=\""@ + rule_id@ + "\" x:override=\"remove\" />\n</Rules>"@,
    {
        let dir = self.rules_dir();
        let seq = next_sequence_number(names);
        let extends = extends_of(names);
        let mut xml = text_of("<?xml version=\"1.0\" encoding=\"UTF-8\"?>\n");
        push(&mut xml, "<Rules xmlns:x=\"/nop/schema/xdsl.xdef\" x:extends=\"");
        push(&mut xml, extends.as_str());
        push(&mut xml, "\">\n");
        push(&mut xml, "    <rule id=\"");
        push(&mut xml, rule_id);
        push(&mut xml, "\" x:override=\"remove\" />\n</Rules>");
        proof {
            assert(xml@ =~= xml_decl() + rules_delta_open(extends@) + "    <rule id=\""@ + rule_id@
                + "\" x:override=\"remove\" />\n</Rules>"@);
        }
        let name = delta_name(seq, "remove", rule_id);
        DeltaFile { path: join_path(dir.as_str(), name.as_str()), content: xml }
    }

    /// The delta file that adds an event source.
    pub fn create_source_add_delta(&self, source: &EventSource, names: &Vec<String>) -> (r: DeltaFile)
        requires
            seq_room(names_view(names@)),
        ensures
            r.path@ == path_join(
                path_join(self@, "sources"@),
                delta_file_name(next_seq(names_view(names@)), "add"@, source.id@),
            ),
            r.content@ == sources_doc_xml(
                "<EventSources xmlns:x=\"/nop/schema/xdsl.xdef\""@ + attr_xml("x:extends"@, extends_name(names_view(names@)))
                    + ">"@,
                seq![source@],
            ),
    {
        let dir = self.sources_dir();
        let seq = next_sequence_number(names);
        let extends = extends_of(names);
        let mut v: Vec<EventSource> = Vec::new();
        v.push(source.clone());
        let sources = EventSources { sources: v };
        proof {
            assert(sources_view(sources.sources@) =~= seq![source@]);
        }
        let xml = sources.to_delta_xml(extends.as_str());
        let name = delta_name(seq, "add", source.id.as_str());
        DeltaFile { path: join_path(dir.as_str(), name.as_str()), content: xml }
    }
}

// ---------------------------------------------------------------------------
// Plans
// ---------------------------------------------------------------------------

/// Attribute unescaping of plan files: `&apos;`, `&quot;`, `&gt;`, `&lt;`, `&amp;` replaced in turn.
pub open spec fn unescape_attr_seq(s: Seq<char>) -> Seq<char> {
    replace_seq(
        replace_seq(
            replace_seq(replace_seq(replace_seq(s, "&apos;"@, "'"@), "&quot;"@, "\""@), "&gt;"@, ">"@),
            "&lt;"@,
            "<"@,
        ),
        "&amp;"@,
        "&"@,
    )
}

fn replace_text(s: Vec<char>, pat: &str, rep: &str) -> (r: Vec<char>)
    requires
        pat@.len() > 0,
    ensures
        r@ == replace_seq(s@, pat@, rep@),
{
    let p = chars_of(pat);
    let q = chars_of(rep);
    replace_chars(&s, &p, &q)
}

/// Escapes every XML special character of an attribute value.
pub fn escape_xml_attr(s: &str) -> (r: String)
    ensures
        r@ == escape_seq(s@),
{
    xml_escape(s)
}

/// Undoes `escape_xml_attr`, one entity at a time, `&amp;` last.
pub fn unescape_xml_attr(s: &str) -> (r: String)
    ensures
        r@ == unescape_attr_seq(s@),
{
    proof {
        reveal_strlit("&apos;");
        reveal_strlit("&quot;");
        reveal_strlit("&gt;");
        reveal_strlit("&lt;");
        reveal_strlit("&amp;");
    }
    let v = chars_of(s);
    let v = replace_text(v, "&apos;", "'");
    let v = replace_text(v, "&quot;", "\"");
    let v = replace_text(v, "&gt;", ">");
    let v = replace_text(v, "&lt;", "<");
    let v = replace_text(v, "&amp;", "&");
    string_of(v.as_slice())
}

/// The element of one plan step: the tool as an attribute, the arguments as content.
pub open spec fn plan_step_xml(step: (Seq<char>, Seq<char>)) -> Seq<char> {
    "    <step tool=\""@ + escape_seq(step.0) + "\">\n        <arguments>"@ + escape_content_seq(step.1)
        + "</arguments>\n    </step>\n"@
}

/// The elements of a list of plan steps.
pub open spec fn plan_steps_xml(steps: Seq<(Seq<char>, Seq<char>)>) -> Seq<char>
    decreases steps.len(),
{
    if steps.len() == 0 {
        Seq::empty()
    } else {
        plan_steps_xml(steps.drop_last()) + plan_step_xml(steps.last())
    }
}

/// A whole plan file.
pub open spec fn plan_xml(steps: Seq<(Seq<char>, Seq<char>)>, session: Seq<char>, created_at_ms: int) -> Seq<char> {
    xml_decl() + "<task xmlns:x=\"/nop/schema/xdsl.xdef\"\n      source-session=\""@ + session
        + "\"\n      created-at-ms=\""@ + signed_decimal(created_at_ms) + "\">\n"@ + plan_steps_xml(steps) + "</task>\n"@
}

/// The views of a list of plan steps.
pub open spec fn steps_view(steps: Seq<PlanStep>) -> Seq<(Seq<char>, Seq<char>)> {
    steps.map_values(|p: PlanStep| p@)
}

/// The text of a plan file (source session not escaped; arguments escaped as element content).
pub fn plan_document(steps: &Vec<PlanStep>, source_session: &str, created_at_ms: i64) -> (r: String)
    ensures
        r@ == plan_xml(steps_view(steps@), source_session@, created_at_ms as int),
{
    let mut xml = text_of("<?xml version=\"1.0\" encoding=\"UTF-8\"?>\n");
    push(&mut xml, "<task xmlns:x=\"/nop/schema/xdsl.xdef\"\n      source-session=\"");
    push(&mut xml, source_session);
    push(&mut xml, "\"\n      created-at-ms=\"");
    let ms = i64_to_string(created_at_ms);
    push(&mut xml, ms.as_str());
    push(&mut xml, "\">\n");
    let ghost head = xml@;
    let ghost sv = steps_view(steps@);
    let mut i: usize = 0;
    proof {
        assert(sv.take(0) =~= Seq::<(Seq<char>, Seq<char>)>::empty());
        assert(xml@ =~= head + plan_steps_xml(sv.take(0)));
    }
    while i < steps.len()
        invariant
            i <= steps@.len(),
            sv == steps_view(steps@),
            xml@ == head + plan_steps_xml(sv.take(i as int)),
        decreases steps.len() - i,
    {
        let ghost before = xml@;
        push(&mut xml, "    <step tool=\"");
        let t = escape_xml_attr(steps[i].tool.as_str());
        push(&mut xml, t.as_str());
        push(&mut xml, "\">\n        <arguments>");
        let a = escape_xml_content(steps[i].arguments.as_str());
        push(&mut xml, a.as_str());
        push(&mut xml, "</arguments>\n    </step>\n");
        proof {
            let tk = sv.take(i + 1);
            assert(tk.drop_last() =~= sv.take(i as int));
            assert(tk.last() == steps@[i as int]@);
            assert(xml@ =~= before + plan_step_xml(steps@[i as int]@));
        }
        i = i + 1;
    }
    proof {
        assert(sv.take(steps@.len() as int) =~= sv);
    }
    push(&mut xml, "</task>\n");
    proof {
        assert(xml@ =~= plan_xml(sv, source_session@, created_at_ms as int));
    }
    xml
}

/// std's `SystemTime::now()` as milliseconds since the epoch (0 for a clock before it). Trusted
/// for nothing: the value depends on the clock.
#[verifier::external_body]
pub(crate) fn now_millis() -> i64 {
    std::time::SystemTime::now().duration_since(std::time::UNIX_EPOCH).unwrap_or_default().as_millis() as i64
}

impl Storage {
    /// The plan file of a rule, stamped with the current time.
    pub fn save_plan(&self, rule_id: &str, steps: &Vec<PlanStep>, source_session: &str) -> (r: DeltaFile)
        ensures
            r.path@ == path_join(path_join(self@, "plans"@), rule_id@ + ".task.xml"@),
            exists|ms: i64| r.content@ == plan_xml(steps_view(steps@), source_session@, ms as int),
    {
        let path = self.plan_path(rule_id);
        let ms = now_millis();
        let content = plan_document(steps, source_session, ms);
        DeltaFile { path, content }
    }
}

/// The raw value of the last attribute named `key`, if any.
pub open spec fn last_attr(attrs: Seq<AttrView>, key: Seq<char>) -> Option<Seq<char>>
    decreases attrs.len(),
{
    if attrs.len() == 0 {
        None
    } else if attrs.last().0 == key {
        Some(attrs.last().1)
    } else {
        last_attr(attrs.drop_last(), key)
    }
}

/// The raw value of the last attribute named `key`.
pub fn last_attr_value(attrs: &Vec<XmlAttr>, key: &str) -> (r: Option<String>)
    ensures
        match r {
            Some(v) => last_attr(attrs_view(attrs@), key@) == Some(v@),
            None => last_attr(attrs_view(attrs@), key@) is None,
        },
{
    let ghost av = attrs_view(attrs@);
    let mut found: Option<String> = None;
    let mut i: usize = 0;
    proof {
        assert(av.take(0) =~= Seq::<AttrView>::empty());
    }
    while i < attrs.len()
        invariant
            i <= attrs@.len(),
            av == attrs_view(attrs@),
            match found {
                Some(v) => last_attr(av.take(i as int), key@) == Some(v@),
                None => last_attr(av.take(i as int), key@) is None,
            },
        decreases attrs.len() - i,
    {
        if str_eq(attrs[i].0.as_str(), key) {
            found = Some(copy_string(&attrs[i].1));
        }
        proof {
            let t = av.take(i + 1);
            assert(t.drop_last() =~= av.take(i as int));
            assert(t.last() == av[i as int]);
        }
        i = i + 1;
    }
    proof {
        assert(av.take(attrs@.len() as int) =~= av);
    }
    found
}

/// What a plan reader holds between two tokens.
pub struct PlanReadView {
    /// Steps read completely.
    pub steps: Seq<(Seq<char>, Seq<char>)>,
    /// The open `<step>`: its tool, and its arguments once they are closed.
    pub current: Option<(Seq<char>, Option<Seq<char>>)>,
    /// Whether an `<arguments>` element of the open step is open.
    pub in_args: bool,
    /// The text of the open `<arguments>` element so far.
    pub args: Seq<char>,
}

/// One token of a plan file read.
pub open spec fn plan_step(s: PlanReadView, t: TokenView) -> PlanReadView {
    match t {
        TokenView::Tag(n, a, empty) => if !empty {
            if n == "step"@ {
                match last_attr(a, "tool"@) {
                    Some(raw) => PlanReadView { current: Some((unescape_attr_seq(raw), None)), ..s },
                    None => s,
                }
            } else if n == "arguments"@ && s.current.is_some() {
                PlanReadView { in_args: true, args: Seq::empty(), ..s }
            } else {
                s
            }
        } else if n == "step"@ {
            match (last_attr(a, "tool"@), last_attr(a, "arguments"@)) {
                (Some(tl), Some(ar)) => PlanReadView {
                    steps: s.steps.push((unescape_attr_seq(tl), unescape_attr_seq(ar))),
                    ..s
                },
                _ => s,
            }
        } else {
            s
        },
        TokenView::Text(x) => if s.in_args { PlanReadView { args: s.args + x, ..s } } else { s },
        TokenView::End(n) => if n == "arguments"@ && s.in_args {
            PlanReadView {
                in_args: false,
                current: match s.current {
                    Some(c) => Some((c.0, Some(s.args))),
                    None => None,
                },
                ..s
            }
        } else if n == "step"@ {
            match s.current {
                Some(c) => match c.1 {
                    Some(ar) => PlanReadView { steps: s.steps.push((c.0, ar)), current: None, ..s },
                    None => PlanReadView { current: None, ..s },
                },
                None => s,
            }
        } else {
            s
        },
        _ => s,
    }
}

/// The plan reader's state after a list of tokens.
pub open spec fn plan_read(ts: Seq<TokenView>) -> PlanReadView
    decreases ts.len(),
{
    if ts.len() == 0 {
        PlanReadView { steps: Seq::empty(), current: None, in_args: false, args: Seq::empty() }
    } else {
        plan_step(plan_read(ts.drop_last()), ts.last())
    }
}

/// The steps a plan file's tokens describe; `None` when there is none.
pub open spec fn plan_from_tokens(ts: Seq<TokenView>) -> Option<Seq<(Seq<char>, Seq<char>)>> {
    let s = plan_read(ts);
    if s.steps.len() == 0 {
        None
    } else {
        Some(s.steps)
    }
}

struct PlanReader {
    steps: Vec<PlanStep>,
    current: Option<(String, Option<String>)>,
    in_args: bool,
    args: String,
}

spec fn plan_reader_view(r: &PlanReader) -> PlanReadView {
    PlanReadView {
        steps: steps_view(r.steps@),
        current: match r.current {
            Some(c) => Some((c.0@, match c.1 {
                Some(a) => Some(a@),
                None => None,
            })),
            None => None,
        },
        in_args: r.in_args,
        args: r.args@,
    }
}

impl PlanReader {
    fn on_tag(&mut self, name: &String, attrs: &Vec<XmlAttr>, empty: bool)
        ensures
            plan_reader_view(final(self)) == plan_step(plan_reader_view(old(self)),
                TokenView::Tag(name@, attrs_view(attrs@), empty)),
    {
        let ghost s = plan_reader_view(self);
        if !empty {
            if str_eq(name.as_str(), "step") {
                match last_attr_value(attrs, "tool") {
                    Some(raw) => {
                        self.current = Some((unescape_xml_attr(raw.as_str()), None));
                    },
                    None => {},
                }
            } else if str_eq(name.as_str(), "arguments") && self.current.is_some() {
                self.in_args = true;
                self.args = String::new();
            }
        } else if str_eq(name.as_str(), "step") {
            let tool = last_attr_value(attrs, "tool");
            let arguments = last_attr_value(attrs, "arguments");
            match (tool, arguments) {
                (Some(t), Some(a)) => {
                    let step = PlanStep { tool: unescape_xml_attr(t.as_str()), arguments: unescape_xml_attr(a.as_str()) };
                    let ghost prev = self.steps@;
                    self.steps.push(step);
                    proof {
                        assert(steps_view(self.steps@) =~= steps_view(prev).push(step@));
                    }
                },
                _ => {},
            }
        }
    }

    fn on_end(&mut self, name: &String)
        ensures
            plan_reader_view(final(self)) == plan_step(plan_reader_view(old(self)), TokenView::End(name@)),
    {
        let ghost s = plan_reader_view(self);
        if str_eq(name.as_str(), "arguments") && self.in_args {
            self.in_args = false;
            let cur = self.current.take();
            match cur {
                Some((tool, _)) => {
                    self.current = Some((tool, Some(copy_string(&self.args))));
                },
                None => {},
            }
        } else if str_eq(name.as_str(), "step") {
            let cur = self.current.take();
            match cur {
                Some((tool, Some(arguments))) => {
                    let step = PlanStep { tool, arguments };
                    let ghost prev = self.steps@;
                    self.steps.push(step);
                    proof {
                        assert(steps_view(self.steps@) =~= steps_view(prev).push(step@));
                    }
                },
                Some((_, None)) => {},
                None => {},
            }
        }
    }

    fn step(&mut self, t: &XmlToken)
        ensures
            plan_reader_view(final(self)) == plan_step(plan_reader_view(old(self)), t@),
    {
        match t {
            XmlToken::Tag(name, attrs, empty) => self.on_tag(name, attrs, *empty),
            XmlToken::Text(x) => {
                if self.in_args {
                    push(&mut self.args, x.as_str());
                }
            },
            XmlToken::End(name) => self.on_end(name),
            _ => {},
        }
    }
}

/// Reads the steps of a plan file's tokens: `<step tool=".."><arguments>..</arguments></step>`
/// elements, and self-closing `<step tool=".." arguments=".." />` ones; `None` when there is none.
pub fn plan_of_tokens(ts: &Vec<XmlToken>) -> (r: Option<Vec<PlanStep>>)
    ensures
        match r {
            Some(v) => plan_from_tokens(tokens_view(ts@)) == Some(steps_view(v@)),
            None => plan_from_tokens(tokens_view(ts@)) is None,
        },
{
    let ghost tv = tokens_view(ts@);
    let mut rd = PlanReader { steps: Vec::new(), current: None, in_args: false, args: String::new() };
    let mut i: usize = 0;
    proof {
        assert(tv.take(0) =~= Seq::<TokenView>::empty());
        assert(steps_view(rd.steps@) =~= Seq::<(Seq<char>, Seq<char>)>::empty());
    }
    while i < ts.len()
        invariant
            i <= ts@.len(),
            tv == tokens_view(ts@),
            plan_reader_view(&rd) == plan_read(tv.take(i as int)),
        decreases ts.len() - i,
    {
        rd.step(&ts[i]);
        proof {
            let t = tv.take(i + 1);
            assert(t.drop_last() =~= tv.take(i as int));
            assert(t.last() == ts@[i as int]@);
        }
        i = i + 1;
    }
    proof {
        assert(tv.take(ts@.len() as int) =~= tv);
    }
    if rd.steps.len() == 0 {
        None
    } else {
        Some(rd.steps)
    }
}

/// What a plan file's tokens tell of it: the `created-at-ms` of its `<task>` element (the last
/// such attribute read, `None` when it is not a number) and the number of `<step>` elements,
/// written with a body or self-closing.
pub open spec fn plan_status_read(ts: Seq<TokenView>) -> (Option<i64>, nat)
    decreases ts.len(),
{
    if ts.len() == 0 {
        (None, 0)
    } else {
        let p = plan_status_read(ts.drop_last());
        match ts.last() {
            TokenView::Tag(n, a, empty) => if !empty && n == "task"@ {
                match last_attr(a, "created-at-ms"@) {
                    Some(raw) => (match parse_i64_spec(raw) {
                        Some(v) => Some(v as i64),
                        None => None,
                    }, p.1),
                    None => p,
                }
            } else if n == "step"@ {
                (p.0, p.1 + 1)
            } else {
                p
            },
            _ => p,
        }
    }
}

/// The relative path of a rule's plan file: `plans/{rule_id}.task.xml`.
pub open spec fn plan_rel_path(rule_id: Seq<char>) -> Seq<char> {
    "plans/"@ + rule_id + ".task.xml"@
}

/// Reads the plan status from a plan file's tokens.
pub fn plan_status_of_tokens(rule_id: &str, ts: &Vec<XmlToken>) -> (r: PlanStatus)
    ensures
        r.exists,
        r.path@ == plan_rel_path(rule_id@),
        r.created_at_ms == plan_status_read(tokens_view(ts@)).0,
        r.steps_count as nat == plan_status_read(tokens_view(ts@)).1,
{
    let ghost tv = tokens_view(ts@);
    let mut created: Option<i64> = None;
    let mut count: usize = 0;
    let mut i: usize = 0;
    proof {
        assert(tv.take(0) =~= Seq::<TokenView>::empty());
    }
    while i < ts.len()
        invariant
            i <= ts@.len(),
            count <= i,
            tv == tokens_view(ts@),
            plan_status_read(tv.take(i as int)) == (created, count as nat),
        decreases ts.len() - i,
    {
        match &ts[i] {
            XmlToken::Tag(name, attrs, empty) => {
                if !*empty && str_eq(name.as_str(), "task") {
                    match last_attr_value(attrs, "created-at-ms") {
                        Some(raw) => {
                            created = parse_i64(raw.as_str());
                        },
                        None => {},
                    }
                } else if str_eq(name.as_str(), "step") {
                    count = count + 1;
                }
            },
            _ => {},
        }
        proof {
            let t = tv.take(i + 1);
            assert(t.drop_last() =~= tv.take(i as int));
            assert(t.last() == ts@[i as int]@);
        }
        i = i + 1;
    }
    proof {
        assert(tv.take(ts@.len() as int) =~= tv);
    }
    let mut path = text_of("plans/");
    push(&mut path, rule_id);
    push(&mut path, ".task.xml");
    PlanStatus { exists: true, path, created_at_ms: created, steps_count: count }
}

impl Storage {
    /// Reads a cached plan from the text of its file (`None` when there is no readable file).
    /// The outside XML reader's events (text trimmed) are named by `quick_xml_tokens`; reading
    /// stops at its end or first error, and a plan without steps is `None`.
    pub fn read_plan(&self, content: Option<&str>) -> (r: Option<Vec<PlanStep>>)
        ensures
            content is None ==> r is None,
            content matches Some(c) ==> match r {
                Some(v) => plan_from_tokens(quick_xml_tokens(c@, true)) == Some(steps_view(v@)),
                None => plan_from_tokens(quick_xml_tokens(c@, true)) is None,
            },
    {
        match content {
            Some(c) => {
                let ts = read_quick_xml(c, true);
                plan_of_tokens(&ts)
            },
            None => None,
        }
    }

    /// The status of a rule's cached plan, from the text of its file (`None` when there is no
    /// readable file).
    pub fn get_plan_status(&self, rule_id: &str, content: Option<&str>) -> (r: PlanStatus)
        ensures
            r.path@ == plan_rel_path(rule_id@),
            r.exists == content.is_some(),
            content is None ==> r.created_at_ms is None && r.steps_count == 0,
            content matches Some(c) ==> r.created_at_ms == plan_status_read(quick_xml_tokens(c@, true)).0
                && r.steps_count as nat == plan_status_read(quick_xml_tokens(c@, true)).1,
    {
        match content {
            Some(c) => {
                let ts = read_quick_xml(c, true);
                plan_status_of_tokens(rule_id, &ts)
            },
            None => {
                let mut path = text_of("plans/");
                push(&mut path, rule_id);
                push(&mut path, ".task.xml");
                PlanStatus { exists: false, path, created_at_ms: None, steps_count: 0 }
            },
        }
    }
}

// ---------------------------------------------------------------------------
// Laws
// ---------------------------------------------------------------------------

/// A new delta file is numbered after every delta file already there.
pub proof fn lemma_next_seq_after_all(names: Seq<Seq<char>>, i: int)
    requires
        0 <= i < names.len(),
        file_seq(names[i]) is Some,
    ensures
        file_seq(names[i]).unwrap() < next_seq(names),
    decreases names.len(),
{
    if i < names.len() - 1 {
        assert(names.drop_last()[i] == names[i]);
        lemma_next_seq_after_all(names.drop_last(), i);
    }
}

/// The file a delta extends has the largest sequence number, and every file after it in the
/// listing has a smaller one (a stable sort keeps it last).
pub proof fn lemma_last_index_is_last_max(names: Seq<Seq<char>>)
    requires
        names.len() > 0,
    ensures
        0 <= last_index(names) < names.len(),
        forall|j: int| 0 <= j < names.len() ==> seq_key(#[trigger] names[j]) <= seq_key(names[last_index(names)]),
        forall|j: int| last_index(names) < j < names.len() ==> seq_key(#[trigger] names[j]) < seq_key(names[last_index(names)]),
    decreases names.len(),
{
    lemma_last_index_range(names);
    if names.len() > 1 {
        let d = names.drop_last();
        lemma_last_index_is_last_max(d);
        assert forall|j: int| 0 <= j < d.len() implies #[trigger] d[j] == names[j] by {}
        let b = last_index(d);
        assert(d[b] == names[b]);
        assert forall|j: int| 0 <= j < names.len() implies seq_key(#[trigger] names[j]) <= seq_key(names[last_index(names)]) by {
            if j < names.len() - 1 {
                assert(d[j] == names[j]);
            }
        }
        assert forall|j: int| last_index(names) < j < names.len() implies seq_key(#[trigger] names[j]) < seq_key(names[last_index(names)]) by {
            if j < names.len() - 1 {
                assert(d[j] == names[j]);
            }
        }
    }
}

// ---------------------------------------------------------------------------
// Loading the merged sets
// ---------------------------------------------------------------------------

/// Why a merged rule or source set could not be loaded.
#[derive(Debug)]
pub enum LoadError {
    /// A delta file could not be read as a node, or its chain could not be applied.
    Node(YError),
    /// The merged document could not be read as rules or sources.
    Doc(DocError),
}

/// The `id` of a child element, if it has one.
pub open spec fn child_id(c: NodeView) -> Option<Seq<char>> {
    entries_get(c.attrs, "id"@)
}

/// Whether a child element is a removal: `x:override="remove"`.
pub open spec fn is_removal(c: NodeView) -> bool {
    entries_get(c.attrs, "x:override"@) == Some("remove"@)
}

/// The children without those whose `id` is `id` (present or absent alike).
pub open spec fn drop_id(cs: Seq<NodeView>, id: Option<Seq<char>>) -> Seq<NodeView>
    decreases cs.len(),
{
    if cs.len() == 0 {
        cs
    } else if child_id(cs.last()) == id {
        drop_id(cs.drop_last(), id)
    } else {
        drop_id(cs.drop_last(), id).push(cs.last())
    }
}

/// Whether a child element updates an earlier one: `x:override="merge"` with an `id`.
pub open spec fn is_update(c: NodeView) -> bool {
    entries_get(c.attrs, "x:override"@) == Some("merge"@) && child_id(c) is Some
}

/// The position of the last child with an `id`, if there is one.
pub open spec fn last_with_id(cs: Seq<NodeView>, id: Option<Seq<char>>) -> Option<int>
    decreases cs.len(),
{
    if cs.len() == 0 {
        None
    } else if child_id(cs.last()) == id {
        Some(cs.len() - 1)
    } else {
        last_with_id(cs.drop_last(), id)
    }
}

/// The children with every removal and update applied, in order: a removal takes away the
/// children before it with its `id`, and itself; an update is merged (see `merge_view`) into the
/// last child before it with its `id`, and stands alone when there is none; the others stay.
pub open spec fn apply_removals(cs: Seq<NodeView>) -> Seq<NodeView>
    decreases cs.len(),
{
    if cs.len() == 0 {
        cs
    } else {
        let k = apply_removals(cs.drop_last());
        let c = cs.last();
        if is_removal(c) {
            drop_id(k, child_id(c))
        } else if is_update(c) && last_with_id(k, child_id(c)) is Some {
            let j = last_with_id(k, child_id(c))->0;
            k.update(j, merge_view(k[j], c))
        } else {
            k.push(c)
        }
    }
}

/// A merged document with its removals and updates applied to its elements.
pub open spec fn with_removals(n: NodeView) -> NodeView {
    NodeView { children: apply_removals(n.children), ..n }
}

proof fn lemma_last_with_id(cs: Seq<NodeView>, id: Option<Seq<char>>)
    ensures
        match last_with_id(cs, id) {
            Some(j) => 0 <= j < cs.len() && child_id(cs[j]) == id,
            None => true,
        },
    decreases cs.len(),
{
    if cs.len() > 0 {
        lemma_last_with_id(cs.drop_last(), id);
    }
}

proof fn lemma_drop_id(cs: Seq<NodeView>, id: Option<Seq<char>>)
    ensures
        forall|k: int| 0 <= k < drop_id(cs, id).len() ==> child_id(#[trigger] drop_id(cs, id)[k]) != id,
    decreases cs.len(),
{
    if cs.len() > 0 {
        lemma_drop_id(cs.drop_last(), id);
    }
}

/// A removal takes its rule away for good: after a removal of an `id`, no element with that
/// `id` is left, whatever came before it.
pub proof fn lemma_removal_leaves_no_element(cs: Seq<NodeView>, c: NodeView)
    requires
        is_removal(c),
    ensures
        forall|k: int| 0 <= k < apply_removals(cs.push(c)).len()
            ==> child_id(#[trigger] apply_removals(cs.push(c))[k]) != child_id(c),
{
    assert(cs.push(c).drop_last() =~= cs);
    lemma_drop_id(apply_removals(cs), child_id(c));
}

/// The position of the last node with an `id` (see `last_with_id`).
fn find_last_with_id(ns: &Vec<YNode>, id: &Option<String>) -> (r: Option<usize>)
    ensures
        match r {
            Some(j) => last_with_id(nodes_view(ns@), crate::source::opt_text(*id)) == Some(j as int) && j < ns@.len(),
            None => last_with_id(nodes_view(ns@), crate::source::opt_text(*id)) is None,
        },
{
    let ghost nv = nodes_view(ns@);
    proof {
        lemma_nodes_view_index(ns@);
        assert(nv.take(nv.len() as int) =~= nv);
    }
    let mut i: usize = ns.len();
    while i > 0
        invariant
            i <= ns@.len(),
            nv == nodes_view(ns@),
            nv.len() == ns@.len(),
            forall|k: int| 0 <= k < ns@.len() ==> #[trigger] nv[k] == ns@[k]@,
            last_with_id(nv, crate::source::opt_text(*id)) == last_with_id(nv.take(i as int), crate::source::opt_text(*id)),
        decreases i,
    {
        let c = &ns[i - 1];
        let cid = c.attr("id");
        let same = match (&cid, id) {
            (Some(a), Some(b)) => str_eq(a.as_str(), b.as_str()),
            (None, None) => true,
            _ => false,
        };
        proof {
            let t = nv.take(i as int);
            assert(t.drop_last() =~= nv.take(i - 1));
            assert(t.last() == c@);
        }
        if same {
            return Some(i - 1);
        }
        i = i - 1;
    }
    None
}

/// The text of the merged document: the last delta file read, its whole `x:extends` chain
/// applied over the directory's files (see `extends_chain`), its removals and updates applied
/// (see `with_removals`), then written out; or the error.
pub open spec fn merged_text(last: Seq<char>, files: Seq<(Seq<char>, Seq<char>)>) -> Result<Seq<char>, YErrorView> {
    match parse_tokens(xml_rs_read(last)) {
        Err(m) => Err(YErrorView::XmlParseError(m)),
        Ok(n) => match extends_chain(n, files) {
            Ok(x) => Ok(node_text(with_removals(x), 0)),
            Err(e) => Err(e),
        },
    }
}

fn drop_with_id(ns: &Vec<YNode>, id: &Option<String>) -> (r: Vec<YNode>)
    ensures
        nodes_view(r@) == drop_id(nodes_view(ns@), crate::source::opt_text(*id)),
{
    let ghost nv = nodes_view(ns@);
    proof {
        lemma_nodes_view_index(ns@);
    }
    let mut out: Vec<YNode> = Vec::new();
    let mut i: usize = 0;
    proof {
        assert(nv.take(0) =~= Seq::<NodeView>::empty());
    }
    while i < ns.len()
        invariant
            i <= ns@.len(),
            nv == nodes_view(ns@),
            nv.len() == ns@.len(),
            forall|k: int| 0 <= k < ns@.len() ==> #[trigger] nv[k] == ns@[k]@,
            nodes_view(out@) == drop_id(nv.take(i as int), crate::source::opt_text(*id)),
        decreases ns.len() - i,
    {
        let c = &ns[i];
        let cid = c.attr("id");
        let same = match (&cid, id) {
            (Some(a), Some(b)) => str_eq(a.as_str(), b.as_str()),
            (None, None) => true,
            _ => false,
        };
        proof {
            let t = nv.take(i + 1);
            assert(t.drop_last() =~= nv.take(i as int));
            assert(t.last() == c@);
        }
        if !same {
            let ghost prev = out@;
            let d = c.deep_copy();
            out.push(d);
            proof {
                lemma_nodes_view_push(prev, d);
            }
        }
        i = i + 1;
    }
    proof {
        assert(nv.take(ns@.len() as int) =~= nv);
    }
    out
}

/// A merged document with its removals and updates applied (see `with_removals`).
fn removals_applied(node: YNode) -> (r: YNode)
    ensures
        r@ == with_removals(node@),
{
    let ghost nv = node@;
    let ghost cv = nodes_view(node.children@);
    proof {
        lemma_nodes_view_index(node.children@);
        assert(cv == nv.children);
    }
    let mut kept: Vec<YNode> = Vec::new();
    let mut i: usize = 0;
    proof {
        assert(cv.take(0) =~= Seq::<NodeView>::empty());
    }
    while i < node.children.len()
        invariant
            i <= node.children@.len(),
            cv == nodes_view(node.children@),
            cv.len() == node.children@.len(),
            forall|k: int| 0 <= k < node.children@.len() ==> #[trigger] cv[k] == node.children@[k]@,
            nodes_view(kept@) == apply_removals(cv.take(i as int)),
        decreases node.children.len() - i,
    {
        let c = &node.children[i];
        let over = c.attr("x:override");
        let removal = match &over {
            Some(v) => str_eq(v.as_str(), "remove"),
            None => false,
        };
        proof {
            let t = cv.take(i + 1);
            assert(t.drop_last() =~= cv.take(i as int));
            assert(t.last() == c@);
        }
        let update = match &over {
            Some(v) => str_eq(v.as_str(), "merge"),
            None => false,
        };
        let id = c.attr("id");
        let target = if !removal && update && id.is_some() { find_last_with_id(&kept, &id) } else { None };
        if removal {
            kept = drop_with_id(&kept, &id);
        } else if target.is_some() {
            let j = target.unwrap();
            let ghost prev = kept@;
            proof {
                lemma_nodes_view_index(prev);
                lemma_last_with_id(nodes_view(prev), crate::source::opt_text(id));
            }
            let merged = kept[j].merge_with(c, OverrideRule::Merge);
            kept.set(j, merged);
            proof {
                lemma_nodes_view_index(kept@);
                assert(nodes_view(kept@) =~= nodes_view(prev).update(j as int, merge_view(nodes_view(prev)[j as int], c@)));
            }
        } else {
            let ghost prev = kept@;
            let d = c.deep_copy();
            kept.push(d);
            proof {
                lemma_nodes_view_push(prev, d);
            }
        }
        i = i + 1;
    }
    proof {
        assert(cv.take(node.children@.len() as int) =~= cv);
    }
    YNode { tag_name: node.tag_name, children: kept, content: node.content, attributes: node.attributes }
}

fn merged_document(last: &str, files: &Vec<(String, String)>) -> (r: Result<String, YError>)
    ensures
        match r {
            Ok(t) => merged_text(last@, named_texts(files@)) == Ok::<Seq<char>, YErrorView>(t@),
            Err(e) => merged_text(last@, named_texts(files@)) == Err::<Seq<char>, YErrorView>(e@),
        },
{
    let node = match YNode::from_str(last) {
        Ok(n) => n,
        Err(e) => { return Err(e); },
    };
    match node.process_extends(files) {
        Ok(merged) => Ok(removals_applied(merged).to_xml()),
        Err(e) => Err(e),
    }
}

impl Storage {
    /// The current rules: the last rules delta file (its text, `None` when the directory has
    /// none) with its whole `x:extends` chain applied over the directory's files (each with its
    /// name), written out and read back as a rule set.
    pub fn load_merged_rules(&self, last: Option<&str>, files: &Vec<(String, String)>) -> (r: Result<Vec<Rule>, LoadError>)
        ensures
            last is None ==> (r matches Ok(v) && v@.len() == 0),
            last matches Some(t) ==> match merged_text(t@, named_texts(files@)) {
                Err(m) => r matches Err(LoadError::Node(e)) && e@ == m,
                Ok(doc) => match r {
                    Ok(v) => rules_from_tokens(quick_xml_tokens(doc, false)) == Ok::<Seq<RuleView>, DocErrorView>(rules_view(v@)),
                    Err(LoadError::Doc(e)) => rules_from_tokens(quick_xml_tokens(doc, false)) == Err::<Seq<RuleView>, DocErrorView>(e@),
                    Err(LoadError::Node(_)) => false,
                },
            },
    {
        match last {
            None => Ok(Vec::new()),
            Some(t) => match merged_document(t, files) {
                Err(e) => Err(LoadError::Node(e)),
                Ok(doc) => match Rules::from_xml(doc.as_str()) {
                    Ok(rs) => Ok(rs.rules),
                    Err(e) => Err(LoadError::Doc(e)),
                },
            },
        }
    }

    /// The current sources, merged as `load_merged_rules` merges rules.
    pub fn load_merged_sources(&self, last: Option<&str>, files: &Vec<(String, String)>) -> (r: Result<Vec<EventSource>, LoadError>)
        ensures
            last is None ==> (r matches Ok(v) && v@.len() == 0),
            last matches Some(t) ==> match merged_text(t@, named_texts(files@)) {
                Err(m) => r matches Err(LoadError::Node(e)) && e@ == m,
                Ok(doc) => match r {
                    Ok(v) => sources_from_tokens(quick_xml_tokens(doc, true)) == Ok::<Seq<SourceView>, DocErrorView>(sources_view(v@)),
                    Err(LoadError::Doc(e)) => sources_from_tokens(quick_xml_tokens(doc, true)) == Err::<Seq<SourceView>, DocErrorView>(e@),
                    Err(LoadError::Node(_)) => false,
                },
            },
    {
        match last {
            None => Ok(Vec::new()),
            Some(t) => match merged_document(t, files) {
                Err(e) => Err(LoadError::Node(e)),
                Ok(doc) => match EventSources::from_xml(doc.as_str()) {
                    Ok(ss) => Ok(ss.sources),
                    Err(e) => Err(LoadError::Doc(e)),
                },
            },
        }
    }
}

// ---------------------------------------------------------------------------
// Reading back what was written
// ---------------------------------------------------------------------------

/// Every text written as an attribute reads back as it was: unescaping (`&amp;` last) undoes
/// escaping.
pub proof fn lemma_attr_text_reads_back(t: Seq<char>)
    ensures
        unescape_attr_seq(escape_seq(t)) == t,
{
    reveal_strlit("&apos;");
    reveal_strlit("&quot;");
    reveal_strlit("&gt;");
    reveal_strlit("&lt;");
    reveal_strlit("&amp;");
    reveal_strlit("'");
    reveal_strlit("\"");
    reveal_strlit(">");
    reveal_strlit("<");
    reveal_strlit("&");
    assert("&apos;"@ =~= entity_text(4) && "'"@ =~= seq![entity_char(4)]);
    assert("&quot;"@ =~= entity_text(3) && "\""@ =~= seq![entity_char(3)]);
    assert("&gt;"@ =~= entity_text(2) && ">"@ =~= seq![entity_char(2)]);
    assert("&lt;"@ =~= entity_text(1) && "<"@ =~= seq![entity_char(1)]);
    assert("&amp;"@ =~= entity_text(0) && "&"@ =~= seq![entity_char(0)]);
    let p0 = t.map_values(|c: char| escape_piece(c));
    crate::text::lemma_escape_render(t);
    crate::text::lemma_escape_pieces_ok(t);
    crate::text::lemma_replace_entity(p0, 4);
    let p1 = decode_pieces(p0, 4);
    crate::text::lemma_decode_ok(p0, 4);
    crate::text::lemma_replace_entity(p1, 3);
    let p2 = decode_pieces(p1, 3);
    crate::text::lemma_decode_ok(p1, 3);
    crate::text::lemma_replace_entity(p2, 2);
    let p3 = decode_pieces(p2, 2);
    crate::text::lemma_decode_ok(p2, 2);
    crate::text::lemma_replace_entity(p3, 1);
    let p4 = decode_pieces(p3, 1);
    crate::text::lemma_decode_ok(p3, 1);
    crate::text::lemma_replace_entity(p4, 0);
    let p5 = decode_pieces(p4, 0);
    assert forall|i: int| 0 <= i < t.len() implies #[trigger] p5[i] == EscPiece::Plain(t[i]) by {
        assert(p0[i] == escape_piece(t[i]));
        assert(p1[i] == (if p0[i] == EscPiece::Entity(4) { EscPiece::Plain(entity_char(4)) } else { p0[i] }));
        assert(p2[i] == (if p1[i] == EscPiece::Entity(3) { EscPiece::Plain(entity_char(3)) } else { p1[i] }));
        assert(p3[i] == (if p2[i] == EscPiece::Entity(2) { EscPiece::Plain(entity_char(2)) } else { p2[i] }));
        assert(p4[i] == (if p3[i] == EscPiece::Entity(1) { EscPiece::Plain(entity_char(1)) } else { p3[i] }));
        assert(p5[i] == (if p4[i] == EscPiece::Entity(0) { EscPiece::Plain(entity_char(0)) } else { p4[i] }));
    }
    let tp = crate::text::plain_pieces(t);
    crate::text::lemma_render_plain(t);
    assert(p0.len() == t.len());
    assert(p1.len() == p0.len());
    assert(p2.len() == p1.len());
    assert(p3.len() == p2.len());
    assert(p4.len() == p3.len());
    assert(p5.len() == p4.len());
    assert(tp.len() == t.len());
    assert forall|i: int| 0 <= i < t.len() implies p5[i] == tp[i] by {
        assert(p5[i] == EscPiece::Plain(t[i]));
        assert(tp[i] == EscPiece::Plain(t[i]));
    }
    assert(p5 =~= tp);
}

proof fn lemma_parse_signed_decimal(v: i64)
    ensures
        parse_i64_spec(signed_decimal(v as int)) == Some(v as int),
{
    if v < 0 {
        let m = (-(v as int)) as nat;
        crate::text::lemma_decimal_digits(m);
        let s = signed_decimal(v as int);
        assert(s.skip(1) =~= decimal(m));
    } else {
        crate::text::lemma_decimal_digits(v as nat);
        let d = decimal(v as nat);
        assert(crate::text::is_digit(d[0]));
        assert(crate::text::unsigned_body(d) == d);
    }
}

/// The events an XML reader reports, text trimmed, for one step of a plan file (see
/// `plan_step_xml`): the `step` tag with its tool as written (escaped), the
/// `arguments` tag, the arguments as text (none when they are empty), and the two closing tags.
pub open spec fn plan_step_tokens(step: (Seq<char>, Seq<char>)) -> Seq<TokenView> {
    seq![
        TokenView::Tag("step"@, seq![("tool"@, escape_seq(step.0))], false),
        TokenView::Tag("arguments"@, Seq::empty(), false),
    ] + (if step.1.len() > 0 { seq![TokenView::Text(step.1)] } else { Seq::empty() })
        + seq![TokenView::End("arguments"@), TokenView::End("step"@)]
}

/// The events of the steps of a plan file, in order.
pub open spec fn plan_steps_tokens(steps: Seq<(Seq<char>, Seq<char>)>) -> Seq<TokenView>
    decreases steps.len(),
{
    if steps.len() == 0 {
        Seq::empty()
    } else {
        plan_steps_tokens(steps.drop_last()) + plan_step_tokens(steps.last())
    }
}

/// The events an XML reader reports, text trimmed, for a plan file (see `plan_xml`): the
/// declaration, the `task` tag with its three attributes, the steps, the closing tag, the end.
pub open spec fn plan_tokens(steps: Seq<(Seq<char>, Seq<char>)>, session: Seq<char>, created_at_ms: int) -> Seq<TokenView> {
    seq![
        TokenView::Other,
        TokenView::Tag("task"@, seq![
            ("xmlns:x"@, "/nop/schema/xdsl.xdef"@),
            ("source-session"@, session),
            ("created-at-ms"@, signed_decimal(created_at_ms)),
        ], false),
    ] + plan_steps_tokens(steps) + seq![TokenView::End("task"@), TokenView::Eof]
}

/// The plan reader's state after more tokens.
pub open spec fn plan_fold(s: PlanReadView, ts: Seq<TokenView>) -> PlanReadView
    decreases ts.len(),
{
    if ts.len() == 0 {
        s
    } else {
        plan_step(plan_fold(s, ts.drop_last()), ts.last())
    }
}

proof fn lemma_plan_read_concat(a: Seq<TokenView>, b: Seq<TokenView>)
    ensures
        plan_read(a + b) == plan_fold(plan_read(a), b),
    decreases b.len(),
{
    if b.len() > 0 {
        assert((a + b).drop_last() =~= a + b.drop_last());
        lemma_plan_read_concat(a, b.drop_last());
    } else {
        assert(a + b =~= a);
    }
}

proof fn lemma_plan_fold_concat(s: PlanReadView, a: Seq<TokenView>, b: Seq<TokenView>)
    ensures
        plan_fold(s, a + b) == plan_fold(plan_fold(s, a), b),
    decreases b.len(),
{
    if b.len() > 0 {
        assert((a + b).drop_last() =~= a + b.drop_last());
        lemma_plan_fold_concat(s, a, b.drop_last());
    } else {
        assert(a + b =~= a);
    }
}

proof fn lemma_plan_one_step(s: PlanReadView, step: (Seq<char>, Seq<char>))
    requires
        s.current is None,
        !s.in_args,
    ensures
        plan_fold(s, plan_step_tokens(step)).steps == s.steps.push(step),
        plan_fold(s, plan_step_tokens(step)).current is None,
        !plan_fold(s, plan_step_tokens(step)).in_args,
{
    reveal_strlit("step");
    reveal_strlit("arguments");
    reveal_strlit("tool");
    assert("step"@.len() != "arguments"@.len());
    lemma_attr_text_reads_back(step.0);
    let ts = plan_step_tokens(step);
    let t0 = TokenView::Tag("step"@, seq![("tool"@, escape_seq(step.0))], false);
    let t1 = TokenView::Tag("arguments"@, Seq::<AttrView>::empty(), false);
    let s1 = plan_step(s, t0);
    assert(last_attr(seq![("tool"@, escape_seq(step.0))], "tool"@) == Some(escape_seq(step.0)));
    assert(s1.current == Some((step.0, None::<Seq<char>>)));
    let s2 = plan_step(s1, t1);
    assert(s2.in_args && s2.args == Seq::<char>::empty());
    let s3 = if step.1.len() > 0 { plan_step(s2, TokenView::Text(step.1)) } else { s2 };
    assert(s3.args == step.1);
    let s4 = plan_step(s3, TokenView::End("arguments"@));
    assert(s4.current == Some((step.0, Some(step.1))));
    let s5 = plan_step(s4, TokenView::End("step"@));
    assert(s5.steps == s.steps.push(step));
    if step.1.len() > 0 {
        assert(ts =~= seq![t0, t1, TokenView::Text(step.1), TokenView::End("arguments"@), TokenView::End("step"@)]);
        reveal_with_fuel(plan_fold, 6);
        assert(ts.drop_last().drop_last().drop_last().drop_last().drop_last() =~= Seq::<TokenView>::empty());
    } else {
        assert(ts =~= seq![t0, t1, TokenView::End("arguments"@), TokenView::End("step"@)]);
        reveal_with_fuel(plan_fold, 5);
        assert(ts.drop_last().drop_last().drop_last().drop_last() =~= Seq::<TokenView>::empty());
    }
}

proof fn lemma_plan_steps(s: PlanReadView, steps: Seq<(Seq<char>, Seq<char>)>)
    requires
        s.current is None,
        !s.in_args,
    ensures
        plan_fold(s, plan_steps_tokens(steps)).steps == s.steps + steps,
        plan_fold(s, plan_steps_tokens(steps)).current is None,
        !plan_fold(s, plan_steps_tokens(steps)).in_args,
    decreases steps.len(),
{
    if steps.len() == 0 {
        assert(s.steps + steps =~= s.steps);
    } else {
        let d = steps.drop_last();
        lemma_plan_steps(s, d);
        lemma_plan_fold_concat(s, plan_steps_tokens(d), plan_step_tokens(steps.last()));
        lemma_plan_one_step(plan_fold(s, plan_steps_tokens(d)), steps.last());
        assert(s.steps + d.push(steps.last()) =~= (s.steps + d).push(steps.last()));
        assert(d.push(steps.last()) =~= steps);
    }
}

/// Reading a saved plan gives back its steps: the events of a plan file (see `plan_tokens`)
/// read as its steps, in order, whatever characters the tools hold.
pub proof fn lemma_plan_read_back(steps: Seq<(Seq<char>, Seq<char>)>, session: Seq<char>, created_at_ms: int)
    requires
        steps.len() > 0,
    ensures
        plan_from_tokens(plan_tokens(steps, session, created_at_ms)) == Some(steps),
{
    reveal_strlit("task");
    reveal_strlit("step");
    reveal_strlit("arguments");
    let head = seq![
        TokenView::Other,
        TokenView::Tag("task"@, seq![
            ("xmlns:x"@, "/nop/schema/xdsl.xdef"@),
            ("source-session"@, session),
            ("created-at-ms"@, signed_decimal(created_at_ms)),
        ], false),
    ];
    let tail = seq![TokenView::End("task"@), TokenView::Eof];
    let body = plan_steps_tokens(steps);
    let ts = plan_tokens(steps, session, created_at_ms);
    assert(ts == head + body + tail);
    assert("task"@[0] != "step"@[0]);
    assert("task"@.len() != "arguments"@.len());
    reveal_with_fuel(plan_read, 3);
    assert(head.drop_last().drop_last() =~= Seq::<TokenView>::empty());
    let s0 = plan_read(head);
    assert(s0.steps == Seq::<(Seq<char>, Seq<char>)>::empty() && s0.current is None && !s0.in_args);
    lemma_plan_read_concat(head + body, tail);
    lemma_plan_read_concat(head, body);
    lemma_plan_steps(s0, steps);
    assert(s0.steps + steps =~= steps);
    reveal_with_fuel(plan_fold, 3);
    assert(tail.drop_last().drop_last() =~= Seq::<TokenView>::empty());
}

/// What one token of a plan file tells of its status (see `plan_status_read`).
pub open spec fn status_one(p: (Option<i64>, nat), t: TokenView) -> (Option<i64>, nat) {
    match t {
        TokenView::Tag(n, a, empty) => if !empty && n == "task"@ {
            match last_attr(a, "created-at-ms"@) {
                Some(raw) => (match parse_i64_spec(raw) {
                    Some(v) => Some(v as i64),
                    None => None,
                }, p.1),
                None => p,
            }
        } else if n == "step"@ {
            (p.0, p.1 + 1)
        } else {
            p
        },
        _ => p,
    }
}

/// The status read on from `p` over more tokens.
pub open spec fn status_fold(p: (Option<i64>, nat), ts: Seq<TokenView>) -> (Option<i64>, nat)
    decreases ts.len(),
{
    if ts.len() == 0 {
        p
    } else {
        status_one(status_fold(p, ts.drop_last()), ts.last())
    }
}

proof fn lemma_status_read_fold(ts: Seq<TokenView>)
    ensures
        plan_status_read(ts) == status_fold((None, 0), ts),
    decreases ts.len(),
{
    if ts.len() > 0 {
        lemma_status_read_fold(ts.drop_last());
    }
}

proof fn lemma_status_fold_concat(p: (Option<i64>, nat), a: Seq<TokenView>, b: Seq<TokenView>)
    ensures
        status_fold(p, a + b) == status_fold(status_fold(p, a), b),
    decreases b.len(),
{
    if b.len() > 0 {
        assert((a + b).drop_last() =~= a + b.drop_last());
        lemma_status_fold_concat(p, a, b.drop_last());
    } else {
        assert(a + b =~= a);
    }
}

proof fn lemma_status_steps(p: (Option<i64>, nat), steps: Seq<(Seq<char>, Seq<char>)>)
    ensures
        status_fold(p, plan_steps_tokens(steps)) == (p.0, p.1 + steps.len()),
    decreases steps.len(),
{
    reveal_strlit("step");
    reveal_strlit("task");
    reveal_strlit("arguments");
    if steps.len() > 0 {
        let d = steps.drop_last();
        let step = steps.last();
        lemma_status_steps(p, d);
        lemma_status_fold_concat(p, plan_steps_tokens(d), plan_step_tokens(step));
        let q = (p.0, p.1 + d.len());
        let ts = plan_step_tokens(step);
        let t0 = TokenView::Tag("step"@, seq![("tool"@, escape_seq(step.0))], false);
        let t1 = TokenView::Tag("arguments"@, Seq::<AttrView>::empty(), false);
        assert("arguments"@.len() != "step"@.len() && "arguments"@.len() != "task"@.len());
        assert("step"@[0] != "task"@[0]);
        assert(status_one(q, t0) == (p.0, p.1 + d.len() + 1));
        if step.1.len() > 0 {
            assert(ts =~= seq![t0, t1, TokenView::Text(step.1), TokenView::End("arguments"@), TokenView::End("step"@)]);
            reveal_with_fuel(status_fold, 6);
            assert(ts.drop_last().drop_last().drop_last().drop_last().drop_last() =~= Seq::<TokenView>::empty());
        } else {
            assert(ts =~= seq![t0, t1, TokenView::End("arguments"@), TokenView::End("step"@)]);
            reveal_with_fuel(status_fold, 5);
            assert(ts.drop_last().drop_last().drop_last().drop_last() =~= Seq::<TokenView>::empty());
        }
    } else {
        assert(plan_steps_tokens(steps) =~= Seq::<TokenView>::empty());
    }
}

/// A saved plan's status tells its time and how many steps it has: the events of a plan file
/// (see `plan_tokens`) give the time it was stamped with and the number of its steps.
pub proof fn lemma_plan_status_after_save(steps: Seq<(Seq<char>, Seq<char>)>, session: Seq<char>, created_at_ms: i64)
    ensures
        plan_status_read(plan_tokens(steps, session, created_at_ms as int)) == (Some(created_at_ms), steps.len()),
{
    reveal_strlit("task");
    reveal_strlit("step");
    reveal_strlit("created-at-ms");
    reveal_strlit("source-session");
    reveal_strlit("xmlns:x");
    let attrs = seq![
        ("xmlns:x"@, "/nop/schema/xdsl.xdef"@),
        ("source-session"@, session),
        ("created-at-ms"@, signed_decimal(created_at_ms as int)),
    ];
    let head = seq![TokenView::Other, TokenView::Tag("task"@, attrs, false)];
    let tail = seq![TokenView::End("task"@), TokenView::Eof];
    let body = plan_steps_tokens(steps);
    let ts = plan_tokens(steps, session, created_at_ms as int);
    assert(ts == head + body + tail);
    lemma_status_read_fold(ts);
    lemma_status_fold_concat((None, 0), head + body, tail);
    lemma_status_fold_concat((None, 0), head, body);
    lemma_parse_signed_decimal(created_at_ms);
    assert(last_attr(attrs, "created-at-ms"@) == Some(signed_decimal(created_at_ms as int)));
    reveal_with_fuel(status_fold, 3);
    assert(head.drop_last().drop_last() =~= Seq::<TokenView>::empty());
    assert(status_fold((None, 0), head) == (Some(created_at_ms), 0nat));
    lemma_status_steps((Some(created_at_ms), 0nat), steps);
    assert(tail.drop_last().drop_last() =~= Seq::<TokenView>::empty());
}

} // verus!
