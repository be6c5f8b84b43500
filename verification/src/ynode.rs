//! XML nodes with ordered attributes, read from and written to XML text.

use vstd::prelude::*;
use hashlink::LinkedHashMap;
use std::collections::hash_map::RandomState;
use crate::rule::{copy_string, push, text_of};
use crate::text::{chars_of, str_eq, string_of, trim, trim_chars};
use crate::xml_token::{attrs_view, read_xml_rs, tokens_view, xml_rs_read, AttrView, TokenView, XmlAttr, XmlToken};

verus! {

// ---------------------------------------------------------------------------
// Ordered attribute maps
// ---------------------------------------------------------------------------

#[verifier::external_type_specification]
#[verifier::external_body]
#[verifier::reject_recursive_types(K)]
#[verifier::reject_recursive_types(V)]
#[verifier::reject_recursive_types(S)]
pub struct ExLinkedHashMap<K, V, S>(LinkedHashMap<K, V, S>);

/// The entries of an attribute map, in its order: key and value texts.
pub uninterp spec fn attr_entries(m: LinkedHashMap<String, String, RandomState>) -> Seq<(Seq<char>, Seq<char>)>;

/// The entries without the one whose key is `k`.
pub open spec fn entries_remove(es: Seq<(Seq<char>, Seq<char>)>, k: Seq<char>) -> Seq<(Seq<char>, Seq<char>)>
    decreases es.len(),
{
    if es.len() == 0 {
        es
    } else if es.last().0 == k {
        entries_remove(es.drop_last(), k)
    } else {
        entries_remove(es.drop_last(), k).push(es.last())
    }
}

/// hashlink's `insert`: the entry of `k` moves to the back with the new value.
pub open spec fn entries_insert(es: Seq<(Seq<char>, Seq<char>)>, k: Seq<char>, v: Seq<char>) -> Seq<(Seq<char>, Seq<char>)> {
    entries_remove(es, k).push((k, v))
}

/// The value of the entry whose key is `k`.
pub open spec fn entries_get(es: Seq<(Seq<char>, Seq<char>)>, k: Seq<char>) -> Option<Seq<char>>
    decreases es.len(),
{
    if es.len() == 0 {
        None
    } else if es.last().0 == k {
        Some(es.last().1)
    } else {
        entries_get(es.drop_last(), k)
    }
}

/// Every key occurs once.
pub open spec fn keys_distinct(es: Seq<(Seq<char>, Seq<char>)>) -> bool {
    forall|i: int, j: int| 0 <= i < j < es.len() ==> es[i].0 != es[j].0
}

/// hashlink's `LinkedHashMap::with_hasher` (std's `RandomState`). Trusted: the map is empty.
#[verifier::external_body]
fn attrs_new() -> (m: LinkedHashMap<String, String, RandomState>)
    ensures
        attr_entries(m) == Seq::<(Seq<char>, Seq<char>)>::empty(),
{
    LinkedHashMap::with_hasher(RandomState::new())
}

/// hashlink's `LinkedHashMap::insert`. Trusted: a new key is added at the back; an existing key
/// gets the new value and its entry moves to the back (the source calls `to_back` on it).
#[verifier::external_body]
fn attrs_insert(m: &mut LinkedHashMap<String, String, RandomState>, k: String, v: String)
    ensures
        attr_entries(*final(m)) == entries_insert(attr_entries(*old(m)), k@, v@),
{
    m.insert(k, v);
}

/// hashlink's `LinkedHashMap::get`, the value copied. Trusted: the value of the entry of `k`.
#[verifier::external_body]
fn attrs_get(m: &LinkedHashMap<String, String, RandomState>, k: &str) -> (r: Option<String>)
    ensures
        match r {
            Some(v) => entries_get(attr_entries(*m), k@) == Some(v@),
            None => entries_get(attr_entries(*m), k@) is None,
        },
{
    m.get(k).cloned()
}

/// hashlink's `LinkedHashMap::iter`, each entry copied. Trusted: the entries in the map's order;
/// no key occurs twice.
#[verifier::external_body]
fn attrs_entries(m: &LinkedHashMap<String, String, RandomState>) -> (r: Vec<(String, String)>)
    ensures
        attrs_view(r@) == attr_entries(*m),
        keys_distinct(attrs_view(r@)),
{
    m.iter().map(|(k, v)| (k.clone(), v.clone())).collect()
}

/// hashlink's `LinkedHashMap::len`. Trusted: the number of entries.
#[verifier::external_body]
fn attrs_len(m: &LinkedHashMap<String, String, RandomState>) -> (r: usize)
    ensures
        r == attr_entries(*m).len(),
{
    m.len()
}

/// hashlink's `LinkedHashMap::clone`. Trusted: the same entries in the same order.
#[verifier::external_body]
fn attrs_clone(m: &LinkedHashMap<String, String, RandomState>) -> (r: LinkedHashMap<String, String, RandomState>)
    ensures
        attr_entries(r) == attr_entries(*m),
{
    m.clone()
}

/// The entries after inserting each of `add` in order.
pub open spec fn entries_insert_all(es: Seq<(Seq<char>, Seq<char>)>, add: Seq<(Seq<char>, Seq<char>)>) -> Seq<(Seq<char>, Seq<char>)>
    decreases add.len(),
{
    if add.len() == 0 {
        es
    } else {
        let p = entries_insert_all(es, add.drop_last());
        entries_insert(p, add.last().0, add.last().1)
    }
}

/// The entries after inserting each of `add` in order but the `x:override` one.
pub open spec fn entries_insert_but_override(es: Seq<(Seq<char>, Seq<char>)>, add: Seq<(Seq<char>, Seq<char>)>) -> Seq<(Seq<char>, Seq<char>)>
    decreases add.len(),
{
    if add.len() == 0 {
        es
    } else {
        let p = entries_insert_but_override(es, add.drop_last());
        if add.last().0 == "x:override"@ {
            p
        } else {
            entries_insert(p, add.last().0, add.last().1)
        }
    }
}

pub(crate) fn insert_all(m: &mut LinkedHashMap<String, String, RandomState>, add: &Vec<(String, String)>, skip_override: bool)
    ensures
        attr_entries(*final(m)) == if skip_override {
            entries_insert_but_override(attr_entries(*old(m)), attrs_view(add@))
        } else {
            entries_insert_all(attr_entries(*old(m)), attrs_view(add@))
        },
{
    let ghost av = attrs_view(add@);
    let ghost start = attr_entries(*m);
    let mut i: usize = 0;
    proof {
        assert(av.take(0) =~= Seq::<(Seq<char>, Seq<char>)>::empty());
    }
    while i < add.len()
        invariant
            i <= add@.len(),
            av == attrs_view(add@),
            attr_entries(*m) == if skip_override {
                entries_insert_but_override(start, av.take(i as int))
            } else {
                entries_insert_all(start, av.take(i as int))
            },
        decreases add.len() - i,
    {
        proof {
            let t = av.take(i + 1);
            assert(t.drop_last() =~= av.take(i as int));
            assert(t.last() == av[i as int]);
        }
        if !(skip_override && str_eq(add[i].0.as_str(), "x:override")) {
            attrs_insert(m, copy_string(&add[i].0), copy_string(&add[i].1));
        }
        i = i + 1;
    }
    proof {
        assert(av.take(add@.len() as int) =~= av);
    }
}

// ---------------------------------------------------------------------------
// Constants and override rules
// ---------------------------------------------------------------------------

/// The names the node model reserves.
pub struct CoreConstants;

impl CoreConstants {
    /// Tag of text nodes.
    pub const TEXT_TAG_NAME: &'static str = "#text";
    /// Namespace prefix of the delta attributes.
    pub const XDSL_NS_PREFIX: &'static str = "x";
    /// The attribute naming the files a document extends.
    pub const X_EXTENDS: &'static str = "x:extends";
    /// The attribute naming how a node merges.
    pub const X_OVERRIDE: &'static str = "x:override";
    pub const OVERRIDE_MERGE: &'static str = "merge";
    pub const OVERRIDE_APPEND: &'static str = "append";
    pub const OVERRIDE_PREPEND: &'static str = "prepend";
    pub const OVERRIDE_REPLACE: &'static str = "replace";
    pub const OVERRIDE_DELETE: &'static str = "delete";
}

/// Where a value came from (no position is recorded).
#[derive(Debug, Clone, Copy, PartialEq, Eq, Structural)]
pub struct SourceLocation {}

/// How a delta node combines with its base.
#[derive(Debug, Clone, Copy, PartialEq, Eq, Structural)]
pub enum OverrideRule {
    /// Attributes and children merged (the default).
    Merge,
    /// Children added at the end.
    Append,
    /// Children added at the front.
    Prepend,
    /// The delta replaces the base.
    Replace,
    /// The node is marked deleted; the base is kept.
    Delete,
}

/// The override rule an attribute text names; `merge` for any other text.
pub open spec fn override_from_text(s: Seq<char>) -> OverrideRule {
    if s == "append"@ {
        OverrideRule::Append
    } else if s == "prepend"@ {
        OverrideRule::Prepend
    } else if s == "replace"@ {
        OverrideRule::Replace
    } else if s == "delete"@ {
        OverrideRule::Delete
    } else {
        OverrideRule::Merge
    }
}

impl OverrideRule {
    /// Parses an override rule; any unknown text is `Merge`.
    pub fn from_str(s: &str) -> (r: OverrideRule)
        ensures
            r == override_from_text(s@),
    {
        if str_eq(s, "append") {
            OverrideRule::Append
        } else if str_eq(s, "prepend") {
            OverrideRule::Prepend
        } else if str_eq(s, "replace") {
            OverrideRule::Replace
        } else if str_eq(s, "delete") {
            OverrideRule::Delete
        } else {
            OverrideRule::Merge
        }
    }
}

impl Default for OverrideRule {
    fn default() -> (r: OverrideRule)
        ensures
            r == OverrideRule::Merge,
    {
        OverrideRule::Merge
    }
}

// ---------------------------------------------------------------------------
// Nodes
// ---------------------------------------------------------------------------

/// An XML element: tag, ordered attributes, optional text content and child nodes. Text appears
/// as child nodes tagged `#text`.
#[derive(Debug)]
pub struct YNode {
    pub tag_name: String,
    pub children: Vec<YNode>,
    pub content: Option<String>,
    pub attributes: LinkedHashMap<String, String, RandomState>,
}

/// The mathematical value of a node.
pub struct NodeView {
    pub tag: Seq<char>,
    pub attrs: Seq<(Seq<char>, Seq<char>)>,
    pub content: Option<Seq<char>>,
    pub children: Seq<NodeView>,
}

/// The view of a node.
pub open spec fn node_view(n: YNode) -> NodeView
    decreases n, 1nat,
{
    NodeView {
        tag: n.tag_name@,
        attrs: attr_entries(n.attributes),
        content: match n.content {
            Some(c) => Some(c@),
            None => None,
        },
        children: nodes_view(n.children@),
    }
}

/// The views of a list of nodes.
pub open spec fn nodes_view(ns: Seq<YNode>) -> Seq<NodeView>
    decreases ns, 0nat,
{
    if ns.len() == 0 {
        Seq::empty()
    } else {
        nodes_view(ns.drop_last()).push(node_view(ns.last()))
    }
}

impl View for YNode {
    type V = NodeView;

    open spec fn view(&self) -> NodeView {
        node_view(*self)
    }
}

pub(crate) proof fn lemma_nodes_view_push(ns: Seq<YNode>, n: YNode)
    ensures
        nodes_view(ns.push(n)) == nodes_view(ns).push(node_view(n)),
{
    assert(ns.push(n).drop_last() =~= ns);
}

/// The views of a list of nodes, element by element.
pub proof fn lemma_nodes_view_index(ns: Seq<YNode>)
    ensures
        nodes_view(ns).len() == ns.len(),
        forall|i: int| 0 <= i < ns.len() ==> #[trigger] nodes_view(ns)[i] == node_view(ns[i]),
    decreases ns.len(),
{
    if ns.len() > 0 {
        lemma_nodes_view_index(ns.drop_last());
        assert forall|i: int| 0 <= i < ns.len() implies #[trigger] nodes_view(ns)[i] == node_view(ns[i]) by {
            if i < ns.len() - 1 {
                assert(ns.drop_last()[i] == ns[i]);
            }
        }
    }
}

pub(crate) proof fn lemma_nodes_view_ext(a: Seq<YNode>, b: Seq<YNode>)
    requires
        a.len() == b.len(),
        forall|i: int| 0 <= i < a.len() ==> node_view(#[trigger] a[i]) == node_view(b[i]),
    ensures
        nodes_view(a) == nodes_view(b),
{
    lemma_nodes_view_index(a);
    lemma_nodes_view_index(b);
    assert(nodes_view(a) =~= nodes_view(b));
}

/// A node with a tag only.
pub open spec fn empty_node(tag: Seq<char>) -> NodeView {
    NodeView { tag, attrs: Seq::empty(), content: None, children: Seq::empty() }
}

/// A text node.
pub open spec fn text_node(t: Seq<char>) -> NodeView {
    NodeView { content: Some(t), ..empty_node("#text"@) }
}

/// Whether a node has children or content.
pub open spec fn has_body(n: NodeView) -> bool {
    n.children.len() > 0 || n.content.is_some()
}

impl YNode {
    /// A node with a tag and nothing else.
    pub fn new(tag_name: String) -> (r: YNode)
        ensures
            r@ == empty_node(tag_name@),
    {
        let r = YNode { tag_name, children: Vec::new(), content: None, attributes: attrs_new() };
        proof {
            assert(nodes_view(r.children@) =~= Seq::<NodeView>::empty());
        }
        r
    }

    /// The value of an attribute.
    pub fn attr(&self, name: &str) -> (r: Option<String>)
        ensures
            match r {
                Some(v) => entries_get(self@.attrs, name@) == Some(v@),
                None => entries_get(self@.attrs, name@) is None,
            },
    {
        attrs_get(&self.attributes, name)
    }

    /// The tag.
    pub fn tag(&self) -> (r: &str)
        ensures
            r@ == self@.tag,
    {
        self.tag_name.as_str()
    }

    /// A copy of the tag.
    pub fn tag_name(&self) -> (r: String)
        ensures
            r@ == self@.tag,
    {
        copy_string(&self.tag_name)
    }

    /// The attributes, in order.
    pub fn attributes(&self) -> (r: Vec<(String, String)>)
        ensures
            attrs_view(r@) == self@.attrs,
            keys_distinct(self@.attrs),
    {
        attrs_entries(&self.attributes)
    }

    /// The children.
    pub fn children(&self) -> (r: &Vec<YNode>)
        ensures
            nodes_view(r@) == self@.children,
    {
        &self.children
    }

    /// The number of attributes.
    pub fn attr_count(&self) -> (r: usize)
        ensures
            r == self@.attrs.len(),
    {
        attrs_len(&self.attributes)
    }

    /// The node with an attribute set (moved to the end if it was there).
    pub fn with_attr(self, key: String, value: String) -> (r: YNode)
        ensures
            r@ == (NodeView { attrs: entries_insert(self@.attrs, key@, value@), ..self@ }),
    {
        let mut me = self;
        attrs_insert(&mut me.attributes, key, value);
        me
    }

    /// The node with its content set.
    pub fn with_content(self, content: String) -> (r: YNode)
        ensures
            r@ == (NodeView { content: Some(content@), ..self@ }),
    {
        let mut me = self;
        me.content = Some(content);
        me
    }

    /// The content.
    pub fn content(&self) -> (r: &Option<String>)
        ensures
            match *r {
                Some(c) => self@.content == Some(c@),
                None => self@.content is None,
            },
    {
        &self.content
    }

    /// The content as text.
    pub fn content_str(&self) -> (r: Option<&str>)
        ensures
            match r {
                Some(c) => self@.content == Some(c@),
                None => self@.content is None,
            },
    {
        match &self.content {
            Some(c) => Some(c.as_str()),
            None => None,
        }
    }

    /// Adds a child at the end.
    pub fn add_child(&mut self, child: YNode)
        ensures
            final(self)@ == (NodeView { children: old(self)@.children.push(child@), ..old(self)@ }),
    {
        let ghost prev = self.children@;
        self.children.push(child);
        proof {
            lemma_nodes_view_push(prev, child);
        }
    }

    /// Whether the node has children.
    pub fn has_child(&self) -> (b: bool)
        ensures
            b == (self@.children.len() > 0),
    {
        proof {
            lemma_nodes_view_index(self.children@);
        }
        self.children.len() > 0
    }

    /// Whether the node has children or content.
    pub fn has_body(&self) -> (b: bool)
        ensures
            b == has_body(self@),
    {
        self.has_child() || self.content.is_some()
    }

    /// Whether this is a text node.
    pub fn is_text_node(&self) -> (b: bool)
        ensures
            b == (self@.tag == "#text"@),
    {
        str_eq(self.tag_name.as_str(), "#text")
    }

    /// A deep copy, equal in view.
    pub fn deep_copy(&self) -> (r: YNode)
        ensures
            r@ == self@,
        decreases self,
    {
        let mut children: Vec<YNode> = Vec::new();
        let mut i: usize = 0;
        while i < self.children.len()
            invariant
                i <= self.children@.len(),
                nodes_view(children@) == nodes_view(self.children@.take(i as int)),
            decreases self.children.len() - i,
        {
            proof {
                assert(decreases_to!(self => self.children@[i as int]));
            }
            let c = self.children[i].deep_copy();
            let ghost prev = children@;
            children.push(c);
            proof {
                let t = self.children@.take(i + 1);
                assert(t.drop_last() =~= self.children@.take(i as int));
                lemma_nodes_view_push(prev, c);
            }
            i = i + 1;
        }
        proof {
            assert(self.children@.take(self.children@.len() as int) =~= self.children@);
        }
        let content = match &self.content {
            Some(c) => Some(copy_string(c)),
            None => None,
        };
        YNode { tag_name: copy_string(&self.tag_name), children, content, attributes: attrs_clone(&self.attributes) }
    }
}

impl Clone for YNode {
    fn clone(&self) -> (r: Self)
        ensures
            r@ == self@,
    {
        self.deep_copy()
    }
}

// ---------------------------------------------------------------------------
// Merging
// ---------------------------------------------------------------------------

/// The override rule a node's `x:override` attribute names; `merge` without one.
pub open spec fn override_of(n: NodeView) -> OverrideRule {
    match entries_get(n.attrs, "x:override"@) {
        Some(s) => override_from_text(s),
        None => OverrideRule::Merge,
    }
}

/// Whether two children with the same tag are the same node by key: the first of `id`, `name`,
/// `key` that both have must be equal; with none in common they match.
pub open spec fn keys_match(c: NodeView, d: NodeView) -> bool {
    let ci = entries_get(c.attrs, "id"@);
    let di = entries_get(d.attrs, "id"@);
    let cn = entries_get(c.attrs, "name"@);
    let dn = entries_get(d.attrs, "name"@);
    let ck = entries_get(c.attrs, "key"@);
    let dk = entries_get(d.attrs, "key"@);
    if ci.is_some() && di.is_some() {
        ci == di
    } else if cn.is_some() && dn.is_some() {
        cn == dn
    } else if ck.is_some() && dk.is_some() {
        ck == dk
    } else {
        true
    }
}

/// Whether a base child is merged with a delta child: same tag, no `x:override` on the delta
/// child, and matching keys.
pub open spec fn child_matches(c: NodeView, d: NodeView) -> bool {
    c.tag == d.tag && entries_get(d.attrs, "x:override"@) is None && keys_match(c, d)
}

/// The position of the first base child a delta child merges with.
pub open spec fn first_match(cs: Seq<NodeView>, d: NodeView) -> Option<int>
    decreases cs.len(),
{
    if cs.len() == 0 {
        None
    } else {
        match first_match(cs.drop_last(), d) {
            Some(i) => Some(i),
            None => if child_matches(cs.last(), d) { Some(cs.len() - 1) } else { None },
        }
    }
}

/// A base node with a delta applied by a rule.
pub open spec fn merge_with_view(base: NodeView, delta: NodeView, rule: OverrideRule) -> NodeView
    decreases delta, 2nat,
{
    match rule {
        OverrideRule::Merge => merge_view(base, delta),
        OverrideRule::Append => NodeView {
            attrs: entries_insert_but_override(base.attrs, delta.attrs),
            children: base.children + delta.children,
            ..base
        },
        OverrideRule::Prepend => NodeView {
            attrs: entries_insert_but_override(base.attrs, delta.attrs),
            children: delta.children + base.children,
            ..base
        },
        OverrideRule::Replace => delta,
        OverrideRule::Delete => base,
    }
}

/// The `merge` rule: delta attributes set in order, each delta child merged into the first base
/// child it matches (by its own rule) or added at the end, the delta's content when it has one.
pub open spec fn merge_view(base: NodeView, delta: NodeView) -> NodeView
    decreases delta, 1nat,
{
    NodeView {
        tag: base.tag,
        attrs: entries_insert_all(base.attrs, delta.attrs),
        content: if delta.content.is_some() { delta.content } else { base.content },
        children: merge_children(base.children, delta.children, delta.children.len()),
    }
}

/// Base children with the first `k` delta children merged in.
pub open spec fn merge_children(cs: Seq<NodeView>, dcs: Seq<NodeView>, k: nat) -> Seq<NodeView>
    decreases dcs, k,
{
    if k == 0 || k > dcs.len() {
        cs
    } else {
        let prev = merge_children(cs, dcs, (k - 1) as nat);
        let d = dcs[k - 1];
        match first_match(prev, d) {
            Some(i) => if 0 <= i < prev.len() {
                prev.update(i, merge_with_view(prev[i], d, override_of(d)))
            } else {
                prev
            },
            None => prev.push(d),
        }
    }
}

fn key_of_attr(n: &YNode, key: &str) -> (r: Option<String>)
    ensures
        match r {
            Some(v) => entries_get(n@.attrs, key@) == Some(v@),
            None => entries_get(n@.attrs, key@) is None,
        },
{
    attrs_get(&n.attributes, key)
}

fn opt_eq(a: &Option<String>, b: &Option<String>) -> (r: bool)
    ensures
        r == (match (*a, *b) {
            (Some(x), Some(y)) => x@ == y@,
            (None, None) => true,
            _ => false,
        }),
{
    match (a, b) {
        (Some(x), Some(y)) => str_eq(x.as_str(), y.as_str()),
        (None, None) => true,
        _ => false,
    }
}

fn matches_child(c: &YNode, d: &YNode) -> (b: bool)
    ensures
        b == child_matches(c@, d@),
{
    if !str_eq(c.tag_name.as_str(), d.tag_name.as_str()) {
        return false;
    }
    if key_of_attr(d, "x:override").is_some() {
        return false;
    }
    let ci = key_of_attr(c, "id");
    let di = key_of_attr(d, "id");
    if ci.is_some() && di.is_some() {
        return opt_eq(&ci, &di);
    }
    let cn = key_of_attr(c, "name");
    let dn = key_of_attr(d, "name");
    if cn.is_some() && dn.is_some() {
        return opt_eq(&cn, &dn);
    }
    let ck = key_of_attr(c, "key");
    let dk = key_of_attr(d, "key");
    if ck.is_some() && dk.is_some() {
        return opt_eq(&ck, &dk);
    }
    true
}

fn find_match(cs: &Vec<YNode>, d: &YNode) -> (r: Option<usize>)
    ensures
        match r {
            Some(i) => first_match(nodes_view(cs@), d@) == Some(i as int) && i < cs@.len(),
            None => first_match(nodes_view(cs@), d@) is None,
        },
{
    let ghost cv = nodes_view(cs@);
    proof {
        lemma_nodes_view_index(cs@);
    }
    let mut i: usize = 0;
    proof {
        assert(cv.take(0) =~= Seq::<NodeView>::empty());
    }
    while i < cs.len()
        invariant
            i <= cs@.len(),
            cv == nodes_view(cs@),
            cv.len() == cs@.len(),
            forall|j: int| 0 <= j < cs@.len() ==> #[trigger] cv[j] == node_view(cs@[j]),
            first_match(cv.take(i as int), d@) is None,
        decreases cs.len() - i,
    {
        proof {
            let t = cv.take(i + 1);
            assert(t.drop_last() =~= cv.take(i as int));
            assert(t.last() == cv[i as int]);
        }
        if matches_child(&cs[i], d) {
            proof {
                lemma_first_match_prefix(cv, i as int + 1, d@);
            }
            return Some(i);
        }
        i = i + 1;
    }
    proof {
        assert(cv.take(cs@.len() as int) =~= cv);
    }
    None
}

proof fn lemma_first_match_prefix(cv: Seq<NodeView>, k: int, d: NodeView)
    requires
        0 < k <= cv.len(),
        first_match(cv.take(k - 1), d) is None,
        child_matches(cv[k - 1], d),
    ensures
        first_match(cv, d) == Some(k - 1),
    decreases cv.len() - k,
{
    if k < cv.len() {
        assert(cv.drop_last().take(k - 1) =~= cv.take(k - 1));
        assert(cv.drop_last()[k - 1] == cv[k - 1]);
        lemma_first_match_prefix(cv.drop_last(), k, d);
    } else {
        assert(cv.drop_last() =~= cv.take(k - 1));
    }
}

/// The attribute `x:override` of a node read as a rule; `merge` without one.
fn override_rule_of(n: &YNode) -> (r: OverrideRule)
    ensures
        r == override_of(n@),
{
    match attrs_get(&n.attributes, "x:override") {
        Some(s) => OverrideRule::from_str(s.as_str()),
        None => OverrideRule::Merge,
    }
}

fn copy_nodes(ns: &Vec<YNode>) -> (r: Vec<YNode>)
    ensures
        nodes_view(r@) == nodes_view(ns@),
{
    let mut out: Vec<YNode> = Vec::new();
    let mut i: usize = 0;
    while i < ns.len()
        invariant
            i <= ns@.len(),
            nodes_view(out@) == nodes_view(ns@.take(i as int)),
        decreases ns.len() - i,
    {
        let c = ns[i].clone();
        let ghost prev = out@;
        out.push(c);
        proof {
            let t = ns@.take(i + 1);
            assert(t.drop_last() =~= ns@.take(i as int));
            lemma_nodes_view_push(prev, c);
        }
        i = i + 1;
    }
    proof {
        assert(ns@.take(ns@.len() as int) =~= ns@);
    }
    out
}

proof fn lemma_nodes_view_concat(a: Seq<YNode>, b: Seq<YNode>)
    ensures
        nodes_view(a + b) == nodes_view(a) + nodes_view(b),
{
    lemma_nodes_view_index(a);
    lemma_nodes_view_index(b);
    lemma_nodes_view_index(a + b);
    assert(nodes_view(a + b) =~= nodes_view(a) + nodes_view(b));
}

impl YNode {
    /// Applies a delta node by a rule.
    pub fn merge_with(&self, other: &YNode, rule: OverrideRule) -> (r: YNode)
        ensures
            r@ == merge_with_view(self@, other@, rule),
        decreases other, 2nat,
    {
        match rule {
            OverrideRule::Merge => merge_nodes(self, other),
            OverrideRule::Append => {
                let mut result = self.clone();
                let es = attrs_entries(&other.attributes);
                insert_all(&mut result.attributes, &es, true);
                let mut extra = copy_nodes(&other.children);
                let ghost a = result.children@;
                let ghost b = extra@;
                result.children.append(&mut extra);
                proof {
                    lemma_nodes_view_concat(a, b);
                }
                result
            },
            OverrideRule::Prepend => {
                let mut result = self.clone();
                let es = attrs_entries(&other.attributes);
                insert_all(&mut result.attributes, &es, true);
                let mut front = copy_nodes(&other.children);
                let mut rest = copy_nodes(&result.children);
                let ghost a = front@;
                let ghost b = rest@;
                front.append(&mut rest);
                proof {
                    lemma_nodes_view_concat(a, b);
                }
                result.children = front;
                result
            },
            OverrideRule::Replace => other.clone(),
            OverrideRule::Delete => self.clone(),
        }
    }
}

/// The `merge` rule (see `merge_view`).
fn merge_nodes(base: &YNode, delta: &YNode) -> (r: YNode)
    ensures
        r@ == merge_view(base@, delta@),
    decreases delta, 1nat,
{
    let mut result = base.clone();
    let es = attrs_entries(&delta.attributes);
    insert_all(&mut result.attributes, &es, false);
    let ghost bcs = base@.children;
    let ghost dcs = delta@.children;
    proof {
        lemma_nodes_view_index(delta.children@);
    }
    let mut j: usize = 0;
    while j < delta.children.len()
        invariant
            j <= delta.children@.len(),
            dcs == nodes_view(delta.children@),
            dcs.len() == delta.children@.len(),
            forall|k: int| 0 <= k < delta.children@.len() ==> #[trigger] dcs[k] == node_view(delta.children@[k]),
            nodes_view(result.children@) == merge_children(bcs, dcs, j as nat),
            result@.tag == base@.tag,
            result@.content == base@.content,
            result@.attrs == entries_insert_all(base@.attrs, delta@.attrs),
        decreases delta.children.len() - j,
    {
        let d = &delta.children[j];
        proof {
            assert(decreases_to!(delta => delta.children@[j as int]));
        }
        let ghost prev = nodes_view(result.children@);
        match find_match(&result.children, d) {
            Some(i) => {
                let rule = override_rule_of(d);
                let merged = result.children[i].merge_with(d, rule);
                let ghost before = result.children@;
                let _old = result.children.remove(i);
                result.children.insert(i, merged);
                proof {
                    lemma_nodes_view_index(before);
                    lemma_nodes_view_index(result.children@);
                    assert(nodes_view(result.children@) =~= prev.update(i as int, merge_with_view(prev[i as int], d@, override_of(d@))));
                }
            },
            None => {
                let c = d.clone();
                let ghost before = result.children@;
                result.children.push(c);
                proof {
                    lemma_nodes_view_push(before, c);
                }
            },
        }
        j = j + 1;
    }
    match &delta.content {
        Some(c) => {
            result.content = Some(copy_string(c));
        },
        None => {},
    }
    result
}

// ---------------------------------------------------------------------------
// Writing XML
// ---------------------------------------------------------------------------

/// `n` copies of two spaces.
pub open spec fn indent_of(n: nat) -> Seq<char>
    decreases n,
{
    if n == 0 {
        Seq::empty()
    } else {
        indent_of((n - 1) as nat) + "  "@
    }
}

/// The attributes written ` key="value"` in order (values as they are).
pub open spec fn attrs_text(es: Seq<(Seq<char>, Seq<char>)>) -> Seq<char>
    decreases es.len(),
{
    if es.len() == 0 {
        Seq::empty()
    } else {
        attrs_text(es.drop_last()) + " "@ + es.last().0 + "=\""@ + es.last().1 + "\""@
    }
}

/// The text of a node at an indentation level.
pub open spec fn node_text(n: NodeView, level: nat) -> Seq<char>
    decreases n, 1nat,
{
    if n.tag == "#text"@ {
        match n.content {
            Some(c) => c,
            None => Seq::empty(),
        }
    } else {
        let head = indent_of(level) + "<"@ + n.tag + attrs_text(n.attrs);
        if !has_body(n) {
            head + "/>\n"@
        } else {
            let content = match n.content {
                Some(c) => c,
                None => Seq::<char>::empty(),
            };
            if n.children.len() > 0 {
                head + ">"@ + content + "\n"@ + children_text(n.children, level + 1, n.children.len())
                    + indent_of(level) + "</"@ + n.tag + ">\n"@
            } else {
                head + ">"@ + content + "</"@ + n.tag + ">\n"@
            }
        }
    }
}

/// The texts of the first `k` children at a level.
pub open spec fn children_text(cs: Seq<NodeView>, level: nat, k: nat) -> Seq<char>
    decreases cs, k,
{
    if k == 0 || k > cs.len() {
        Seq::empty()
    } else {
        children_text(cs, level, (k - 1) as nat) + node_text(cs[k - 1], level)
    }
}

fn push_attrs(s: &mut String, es: &Vec<(String, String)>)
    ensures
        final(s)@ == old(s)@ + attrs_text(attrs_view(es@)),
{
    let ghost av = attrs_view(es@);
    let mut i: usize = 0;
    proof {
        assert(av.take(0) =~= Seq::<(Seq<char>, Seq<char>)>::empty());
        assert(s@ =~= old(s)@ + attrs_text(av.take(0)));
    }
    while i < es.len()
        invariant
            i <= es@.len(),
            av == attrs_view(es@),
            s@ == old(s)@ + attrs_text(av.take(i as int)),
        decreases es.len() - i,
    {
        push(s, " ");
        push(s, es[i].0.as_str());
        push(s, "=\"");
        push(s, es[i].1.as_str());
        push(s, "\"");
        proof {
            let t = av.take(i + 1);
            assert(t.drop_last() =~= av.take(i as int));
            assert(t.last() == av[i as int]);
            assert(s@ =~= old(s)@ + attrs_text(t));
        }
        i = i + 1;
    }
    proof {
        assert(av.take(es@.len() as int) =~= av);
    }
}

#[verifier::rlimit(30)]
fn write_node(node: &YNode, indent: &String, Ghost(level): Ghost<nat>, s: &mut String)
    requires
        indent@ == indent_of(level),
    ensures
        final(s)@ == old(s)@ + node_text(node@, level),
    decreases node,
{
    if node.is_text_node() {
        match &node.content {
            Some(c) => push(s, c.as_str()),
            None => {},
        }
        proof {
            assert(final(s)@ =~= old(s)@ + node_text(node@, level));
        }
        return;
    }
    push(s, indent.as_str());
    push(s, "<");
    push(s, node.tag_name.as_str());
    let es = attrs_entries(&node.attributes);
    push_attrs(s, &es);
    if !node.has_body() {
        push(s, "/>\n");
        return;
    }
    push(s, ">");
    match &node.content {
        Some(c) => push(s, c.as_str()),
        None => {},
    }
    if node.has_child() {
        push(s, "\n");
        proof {
            lemma_nodes_view_index(node.children@);
        }
        let mut child_indent = copy_string(indent);
        push(&mut child_indent, "  ");
        let ghost cv = node@.children;
        let ghost start = s@;
        let mut i: usize = 0;
        while i < node.children.len()
            invariant
                i <= node.children@.len(),
                cv == node@.children,
                cv.len() == node.children@.len(),
                forall|k: int| 0 <= k < node.children@.len() ==> #[trigger] cv[k] == node_view(node.children@[k]),
                child_indent@ == indent_of(level + 1),
                s@ == start + children_text(cv, level + 1, i as nat),
            decreases node.children.len() - i,
        {
            proof {
                assert(decreases_to!(node => node.children@[i as int]));
            }
            write_node(&node.children[i], &child_indent, Ghost(level + 1), s);
            i = i + 1;
        }
        push(s, indent.as_str());
        push(s, "</");
        push(s, node.tag_name.as_str());
        push(s, ">\n");
        proof {
            assert(final(s)@ =~= old(s)@ + node_text(node@, level));
        }
    } else {
        push(s, "</");
        push(s, node.tag_name.as_str());
        push(s, ">\n");
        proof {
            assert(final(s)@ =~= old(s)@ + node_text(node@, level));
        }
    }
}

impl YNode {
    /// Writes the node as indented XML (two spaces a level, attribute values as they are).
    pub fn to_xml(&self) -> (r: String)
        ensures
            r@ == node_text(self@, 0),
    {
        let mut s = String::new();
        let indent = String::new();
        write_node(self, &indent, Ghost(0), &mut s);
        proof {
            assert(s@ =~= node_text(self@, 0));
        }
        s
    }
}

// ---------------------------------------------------------------------------
// Reading XML
// ---------------------------------------------------------------------------

/// Why a node could not be read or extended.
#[derive(Debug)]
pub enum YError {
    /// A file could not be read, with the reason.
    IoError(String),
    /// The XML text is not a document, with the reason.
    XmlParseError(String),
    /// Another failure, with its message.
    ParseError(String),
}

/// The mathematical value of a node error.
pub enum YErrorView {
    IoError(Seq<char>),
    XmlParseError(Seq<char>),
    ParseError(Seq<char>),
}

impl View for YError {
    type V = YErrorView;

    open spec fn view(&self) -> YErrorView {
        match self {
            YError::IoError(m) => YErrorView::IoError(m@),
            YError::XmlParseError(m) => YErrorView::XmlParseError(m@),
            YError::ParseError(m) => YErrorView::ParseError(m@),
        }
    }
}

/// The text of a node error, as it is displayed.
pub open spec fn yerror_text(e: YErrorView) -> Seq<char> {
    match e {
        YErrorView::IoError(m) => "IO error: "@ + m,
        YErrorView::XmlParseError(m) => "XML parse error: "@ + m,
        YErrorView::ParseError(m) => m,
    }
}

impl YError {
    /// The text of the error (see `yerror_text`).
    pub fn message(&self) -> (r: String)
        ensures
            r@ == yerror_text(self@),
    {
        match self {
            YError::IoError(m) => {
                let mut t = text_of("IO error: ");
                push(&mut t, m.as_str());
                t
            },
            YError::XmlParseError(m) => {
                let mut t = text_of("XML parse error: ");
                push(&mut t, m.as_str());
                t
            },
            YError::ParseError(m) => copy_string(m),
        }
    }
}

/// What a reader of a document holds between two events.
pub struct ParseView {
    /// The elements open, innermost last.
    pub stack: Seq<NodeView>,
    /// The last element closed at the outermost level.
    pub root: Option<NodeView>,
    /// The message of the error that stopped the reading.
    pub error: Option<Seq<char>>,
}

/// A node with one more child.
pub open spec fn with_child(n: NodeView, c: NodeView) -> NodeView {
    NodeView { children: n.children.push(c), ..n }
}

/// One event of a document read.
pub open spec fn parse_step(s: ParseView, t: TokenView) -> ParseView {
    if s.error.is_some() {
        s
    } else {
        match t {
            TokenView::Tag(n, a, _) => ParseView {
                stack: s.stack.push(NodeView { attrs: entries_insert_all(Seq::empty(), a), ..empty_node(n) }),
                ..s
            },
            TokenView::End(_) => if s.stack.len() == 0 {
                ParseView { error: Some("Unexpected end element"@), ..s }
            } else {
                let node = s.stack.last();
                let rest = s.stack.drop_last();
                if rest.len() == 0 {
                    ParseView { stack: rest, root: Some(node), ..s }
                } else {
                    ParseView { stack: rest.drop_last().push(with_child(rest.last(), node)), ..s }
                }
            },
            TokenView::Text(x) => if s.stack.len() > 0 {
                ParseView { stack: s.stack.drop_last().push(with_child(s.stack.last(), text_node(x))), ..s }
            } else {
                s
            },
            TokenView::Failure(m) => ParseView { error: Some(m), ..s },
            _ => s,
        }
    }
}

/// The reader's state after a list of events.
pub open spec fn parse_read(ts: Seq<TokenView>) -> ParseView
    decreases ts.len(),
{
    if ts.len() == 0 {
        ParseView { stack: Seq::empty(), root: None, error: None }
    } else {
        parse_step(parse_read(ts.drop_last()), ts.last())
    }
}

/// The node a list of events describes, or the message of the error.
pub open spec fn parse_tokens(ts: Seq<TokenView>) -> Result<NodeView, Seq<char>> {
    let s = parse_read(ts);
    match s.error {
        Some(m) => Err(m),
        None => match s.root {
            Some(r) => Ok(r),
            None => Err("Empty XML document"@),
        },
    }
}

struct NodeReader {
    stack: Vec<YNode>,
    root: Option<YNode>,
    error: Option<String>,
}

spec fn node_reader_view(r: &NodeReader) -> ParseView {
    ParseView {
        stack: nodes_view(r.stack@),
        root: match r.root {
            Some(n) => Some(n@),
            None => None,
        },
        error: match r.error {
            Some(m) => Some(m@),
            None => None,
        },
    }
}

impl NodeReader {
    fn step(&mut self, t: &XmlToken)
        ensures
            node_reader_view(final(self)) == parse_step(node_reader_view(old(self)), t@),
    {
        let ghost s = node_reader_view(self);
        if self.error.is_some() {
            return;
        }
        let ghost st0 = self.stack@;
        proof {
            lemma_nodes_view_index(st0);
        }
        match t {
            XmlToken::Tag(name, attrs, _) => {
                let mut node = YNode::new(copy_string(name));
                insert_all(&mut node.attributes, attrs, false);
                self.stack.push(node);
                proof {
                    lemma_nodes_view_push(st0, node);
                }
            },
            XmlToken::End(_) => {
                if self.stack.len() == 0 {
                    self.error = Some(text_of("Unexpected end element"));
                } else {
                    let node = self.stack.pop().unwrap();
                    proof {
                        assert(st0.drop_last() == self.stack@);
                        assert(nodes_view(st0).drop_last() == nodes_view(self.stack@));
                    }
                    if self.stack.len() == 0 {
                        self.root = Some(node);
                    } else {
                        let ghost st1 = self.stack@;
                        let mut parent = self.stack.pop().unwrap();
                        parent.add_child(node);
                        self.stack.push(parent);
                        proof {
                            assert(nodes_view(st1).drop_last() == nodes_view(st1.drop_last()));
                            assert(nodes_view(st1).last() == node_view(st1.last()));
                            lemma_nodes_view_push(st1.drop_last(), parent);
                        }
                    }
                }
            },
            XmlToken::Text(x) => {
                if self.stack.len() > 0 {
                    let mut parent = self.stack.pop().unwrap();
                    let tn = YNode::new(text_of("#text")).with_content(copy_string(x));
                    parent.add_child(tn);
                    self.stack.push(parent);
                    proof {
                        assert(nodes_view(st0).drop_last() == nodes_view(st0.drop_last()));
                        lemma_nodes_view_push(st0.drop_last(), parent);
                    }
                }
            },
            XmlToken::Failure(m) => {
                self.error = Some(copy_string(m));
            },
            _ => {},
        }
    }
}

/// Reads the node a list of events describes.
pub fn node_of_tokens(ts: &Vec<XmlToken>) -> (r: Result<YNode, YError>)
    ensures
        match r {
            Ok(n) => parse_tokens(tokens_view(ts@)) == Ok::<NodeView, Seq<char>>(n@),
            Err(e) => parse_tokens(tokens_view(ts@)) matches Err(m) && e@ == YErrorView::XmlParseError(m),
        },
{
    let ghost tv = tokens_view(ts@);
    let mut rd = NodeReader { stack: Vec::new(), root: None, error: None };
    let mut i: usize = 0;
    proof {
        assert(tv.take(0) =~= Seq::<TokenView>::empty());
        assert(nodes_view(rd.stack@) =~= Seq::<NodeView>::empty());
    }
    while i < ts.len()
        invariant
            i <= ts@.len(),
            tv == tokens_view(ts@),
            node_reader_view(&rd) == parse_read(tv.take(i as int)),
        decreases ts.len() - i,
    {
        rd.step(&ts[i]);
        proof {
            let t = tv.take(i + 1);
            assert(t.drop_last() =~= tv.take(i as int));
            assert(t.last() == ts@[i as int]@);
        }
        i = i + 1;
    }
    proof {
        assert(tv.take(ts@.len() as int) =~= tv);
    }
    match rd.error {
        Some(m) => Err(YError::XmlParseError(m)),
        None => match rd.root {
            Some(n) => Ok(n),
            None => Err(YError::XmlParseError(text_of("Empty XML document"))),
        },
    }
}

impl YNode {
    /// Reads a document with xml-rs (events named by `xml_rs_read`): the root element with its
    /// attributes, children and text nodes; comments and whitespace-only text are passed over.
    pub fn from_str(xml: &str) -> (r: Result<YNode, YError>)
        ensures
            match r {
                Ok(n) => parse_tokens(xml_rs_read(xml@)) == Ok::<NodeView, Seq<char>>(n@),
                Err(e) => parse_tokens(xml_rs_read(xml@)) matches Err(m) && e@ == YErrorView::XmlParseError(m),
            },
    {
        let ts = read_xml_rs(xml);
        node_of_tokens(&ts)
    }
}

// ---------------------------------------------------------------------------
// Extends and override attributes
// ---------------------------------------------------------------------------

/// std's `str::split(',')`: the pieces between commas (one more than the commas).
pub open spec fn split_commas(s: Seq<char>) -> Seq<Seq<char>>
    decreases s.len(),
{
    if s.len() == 0 {
        seq![Seq::empty()]
    } else {
        let p = split_commas(s.drop_last());
        if s.last() == ',' {
            p.push(Seq::empty())
        } else {
            p.update(p.len() - 1, p.last().push(s.last()))
        }
    }
}

/// The trimmed pieces that are not empty, in order.
pub open spec fn nonempty_trimmed(ps: Seq<Seq<char>>) -> Seq<Seq<char>>
    decreases ps.len(),
{
    if ps.len() == 0 {
        Seq::empty()
    } else {
        let p = nonempty_trimmed(ps.drop_last());
        let t = trim(ps.last());
        if t.len() > 0 { p.push(t) } else { p }
    }
}

/// The files an `x:extends` value names: comma-separated, trimmed, empty ones dropped.
pub open spec fn extends_list(s: Seq<char>) -> Seq<Seq<char>> {
    nonempty_trimmed(split_commas(s))
}

proof fn lemma_split_len(s: Seq<char>)
    ensures
        split_commas(s).len() >= 1,
    decreases s.len(),
{
    if s.len() > 0 {
        lemma_split_len(s.drop_last());
    }
}

/// The files an `x:extends` value names.
pub fn extends_paths(value: &str) -> (r: Vec<String>)
    ensures
        names_of(r@) == extends_list(value@),
{
    let cs = chars_of(value);
    let mut out: Vec<String> = Vec::new();
    let mut cur: Vec<char> = Vec::new();
    let mut i: usize = 0;
    proof {
        assert(cs@.take(0) =~= Seq::<char>::empty());
        assert(names_of(out@) =~= Seq::<Seq<char>>::empty());
    }
    while i < cs.len()
        invariant
            i <= cs@.len(),
            cs@ == value@,
            split_commas(cs@.take(i as int)).len() >= 1,
            cur@ == split_commas(cs@.take(i as int)).last(),
            names_of(out@) == nonempty_trimmed(split_commas(cs@.take(i as int)).drop_last()),
        decreases cs.len() - i,
    {
        let ghost p = split_commas(cs@.take(i as int));
        proof {
            let t = cs@.take(i + 1);
            assert(t.drop_last() =~= cs@.take(i as int));
            assert(t.last() == cs@[i as int]);
            lemma_split_len(t);
        }
        if cs[i] == ',' {
            let tr = trim_chars(&cur);
            if tr.len() > 0 {
                let ghost prev = out@;
                out.push(string_of(tr.as_slice()));
                proof {
                    assert(names_of(out@) =~= names_of(prev).push(tr@));
                }
            }
            cur = Vec::new();
            proof {
                let q = p.push(Seq::empty());
                assert(q.drop_last() =~= p);
                assert(p.drop_last().push(p.last()) =~= p);
                assert(nonempty_trimmed(p).drop_last() == nonempty_trimmed(p).drop_last());
            }
        } else {
            cur.push(cs[i]);
            proof {
                let q = p.update(p.len() - 1, p.last().push(cs@[i as int]));
                assert(q.drop_last() =~= p.drop_last());
            }
        }
        i = i + 1;
    }
    proof {
        assert(cs@.take(cs@.len() as int) =~= cs@);
    }
    let ghost p = split_commas(cs@);
    let tr = trim_chars(&cur);
    if tr.len() > 0 {
        let ghost prev = out@;
        out.push(string_of(tr.as_slice()));
        proof {
            assert(names_of(out@) =~= names_of(prev).push(tr@));
        }
    }
    proof {
        assert(p.drop_last().push(p.last()) =~= p);
    }
    out
}

/// The texts of a list of strings.
pub open spec fn names_of(v: Seq<String>) -> Seq<Seq<char>> {
    v.map_values(|s: String| s@)
}

impl YNode {
    /// The rule of the node's `x:override` attribute; `Merge` without one.
    pub fn get_override_rule(&self) -> (r: OverrideRule)
        ensures
            r == override_of(self@),
    {
        override_rule_of(self)
    }

    /// The files of the node's `x:extends` attribute; `None` without one.
    pub fn get_extends_paths(&self) -> (r: Option<Vec<String>>)
        ensures
            match r {
                Some(v) => entries_get(self@.attrs, "x:extends"@) matches Some(x) && names_of(v@) == extends_list(x),
                None => entries_get(self@.attrs, "x:extends"@) is None,
            },
    {
        match attrs_get(&self.attributes, "x:extends") {
            Some(x) => Some(extends_paths(x.as_str())),
            None => None,
        }
    }
}

/// The texts of a directory's files, each with its name.
pub open spec fn named_texts(files: Seq<(String, String)>) -> Seq<(Seq<char>, Seq<char>)> {
    files.map_values(|f: (String, String)| (f.0@, f.1@))
}

/// The text of the file with a name (the last one listed under it), if there is one.
pub open spec fn file_text(files: Seq<(Seq<char>, Seq<char>)>, name: Seq<char>) -> Option<Seq<char>>
    decreases files.len(),
{
    if files.len() == 0 {
        None
    } else if files.last().0 == name {
        Some(files.last().1)
    } else {
        file_text(files.drop_last(), name)
    }
}

/// The error for a file an `x:extends` names that is not there.
pub open spec fn missing_file_text(name: Seq<char>) -> Seq<char> {
    "file not found: "@ + name
}

/// The error for an `x:extends` chain that comes back to a file it has passed.
pub open spec fn endless_chain_text() -> Seq<char> {
    "x:extends chain does not end"@
}

/// A node with its `x:extends` chain applied, going at most `depth` files deep: without
/// `x:extends` the node itself; else each file it names, in order, is read, has its own chain
/// applied, and the node so far is merged onto it.
pub open spec fn resolve_chain(n: NodeView, files: Seq<(Seq<char>, Seq<char>)>, depth: nat) -> Result<NodeView, YErrorView>
    decreases depth, 1nat, 0nat,
{
    match entries_get(n.attrs, "x:extends"@) {
        None => Ok(n),
        Some(x) => chain_fold(n, extends_list(x), files, depth),
    }
}

/// The node so far merged onto the files of `paths`, in order, each with its chain applied.
pub open spec fn chain_fold(start: NodeView, paths: Seq<Seq<char>>, files: Seq<(Seq<char>, Seq<char>)>, depth: nat) -> Result<NodeView, YErrorView>
    decreases depth, 0nat, paths.len(),
{
    if paths.len() == 0 {
        Ok(start)
    } else {
        match chain_fold(start, paths.drop_last(), files, depth) {
            Err(e) => Err(e),
            Ok(acc) => match file_text(files, paths.last()) {
                None => Err(YErrorView::IoError(missing_file_text(paths.last()))),
                Some(t) => match parse_tokens(xml_rs_read(t)) {
                    Err(m) => Err(YErrorView::XmlParseError(m)),
                    Ok(b) => if depth == 0 {
                        Err(YErrorView::ParseError(endless_chain_text()))
                    } else {
                        match resolve_chain(b, files, (depth - 1) as nat) {
                            Err(e) => Err(e),
                            Ok(base) => Ok(merge_view(base, acc)),
                        }
                    },
                },
            },
        }
    }
}

/// A node with its whole `x:extends` chain applied over a directory's files. A chain without a
/// loop never goes deeper than the number of files.
pub open spec fn extends_chain(n: NodeView, files: Seq<(Seq<char>, Seq<char>)>) -> Result<NodeView, YErrorView> {
    resolve_chain(n, files, files.len())
}

proof fn lemma_chain_fold_error(start: NodeView, paths: Seq<Seq<char>>, files: Seq<(Seq<char>, Seq<char>)>, depth: nat, k: int, e: YErrorView)
    requires
        0 <= k <= paths.len(),
        chain_fold(start, paths.take(k), files, depth) == Err::<NodeView, YErrorView>(e),
    ensures
        chain_fold(start, paths, files, depth) == Err::<NodeView, YErrorView>(e),
    decreases paths.len() - k,
{
    if k < paths.len() {
        assert(paths.take(k + 1).drop_last() =~= paths.take(k));
        lemma_chain_fold_error(start, paths, files, depth, k + 1, e);
    } else {
        assert(paths.take(k) =~= paths);
    }
}

/// The text of the file with a name among a directory's files.
fn find_file<'a>(files: &'a Vec<(String, String)>, name: &str) -> (r: Option<&'a String>)
    ensures
        match r {
            Some(t) => file_text(named_texts(files@), name@) == Some(t@),
            None => file_text(named_texts(files@), name@) is None,
        },
{
    let ghost fv = named_texts(files@);
    let mut i: usize = files.len();
    proof {
        assert(fv.take(fv.len() as int) =~= fv);
    }
    while i > 0
        invariant
            i <= files@.len(),
            fv == named_texts(files@),
            file_text(fv, name@) == file_text(fv.take(i as int), name@),
        decreases i,
    {
        let ghost t = fv.take(i as int);
        proof {
            assert(t.drop_last() =~= fv.take(i - 1));
            assert(t.last() == (files@[i - 1].0@, files@[i - 1].1@));
        }
        if str_eq(files[i - 1].0.as_str(), name) {
            return Some(&files[i - 1].1);
        }
        i = i - 1;
    }
    None
}

fn resolve_chain_exec(node: &YNode, files: &Vec<(String, String)>, depth: usize) -> (r: Result<YNode, YError>)
    ensures
        match r {
            Ok(n) => resolve_chain(node@, named_texts(files@), depth as nat) == Ok::<NodeView, YErrorView>(n@),
            Err(e) => resolve_chain(node@, named_texts(files@), depth as nat) == Err::<NodeView, YErrorView>(e@),
        },
    decreases depth,
{
    let ghost fv = named_texts(files@);
    let paths = match node.get_extends_paths() {
        None => { return Ok(node.clone()); },
        Some(p) => p,
    };
    let ghost pv = names_of(paths@);
    let mut result = node.clone();
    let mut i: usize = 0;
    proof {
        assert(pv.take(0) =~= Seq::<Seq<char>>::empty());
    }
    while i < paths.len()
        invariant
            i <= paths@.len(),
            pv == names_of(paths@),
            fv == named_texts(files@),
            entries_get(node@.attrs, "x:extends"@) matches Some(x) && pv == extends_list(x),
            chain_fold(node@, pv.take(i as int), fv, depth as nat) == Ok::<NodeView, YErrorView>(result@),
        decreases paths.len() - i,
    {
        let ghost acc = result@;
        let ghost t = pv.take(i + 1);
        proof {
            assert(t.drop_last() =~= pv.take(i as int));
            assert(t.last() == paths@[i as int]@);
        }
        let step: Result<YNode, YError> = match find_file(files, paths[i].as_str()) {
            None => {
                let mut m = text_of("file not found: ");
                push(&mut m, paths[i].as_str());
                Err(YError::IoError(m))
            },
            Some(text) => match YNode::from_str(text.as_str()) {
                Err(e) => Err(e),
                Ok(b) => if depth == 0 {
                    Err(YError::ParseError(text_of("x:extends chain does not end")))
                } else {
                    match resolve_chain_exec(&b, files, depth - 1) {
                        Err(e) => Err(e),
                        Ok(base) => Ok(base.merge_with(&result, OverrideRule::Merge)),
                    }
                },
            },
        };
        match step {
            Ok(n) => {
                result = n;
            },
            Err(e) => {
                proof {
                    lemma_chain_fold_error(node@, pv, fv, depth as nat, i + 1, e@);
                }
                return Err(e);
            },
        }
        i = i + 1;
    }
    proof {
        assert(pv.take(paths@.len() as int) =~= pv);
    }
    Ok(result)
}

impl YNode {
    /// Applies the node's whole `x:extends` chain over a directory's files (each with its name):
    /// each file the node names is read, has its own chain applied, and the node so far is merged
    /// onto it. Without `x:extends` the node is given back as it is; a file that is not there, a
    /// file that is no XML document, and a chain that loops are errors.
    pub fn process_extends(&self, files: &Vec<(String, String)>) -> (r: Result<YNode, YError>)
        ensures
            entries_get(self@.attrs, "x:extends"@) is None ==> (r matches Ok(n) && n@ == self@),
            match r {
                Ok(n) => extends_chain(self@, named_texts(files@)) == Ok::<NodeView, YErrorView>(n@),
                Err(e) => extends_chain(self@, named_texts(files@)) == Err::<NodeView, YErrorView>(e@),
            },
    {
        resolve_chain_exec(self, files, files.len())
    }
}

// ---------------------------------------------------------------------------
// Laws
// ---------------------------------------------------------------------------

/// Reading back the text of every rule but `merge` gives the rule; `merge` is the default.
pub proof fn lemma_override_texts()
    ensures
        override_from_text("append"@) == OverrideRule::Append,
        override_from_text("prepend"@) == OverrideRule::Prepend,
        override_from_text("replace"@) == OverrideRule::Replace,
        override_from_text("delete"@) == OverrideRule::Delete,
        override_from_text("merge"@) == OverrideRule::Merge,
{
    reveal_strlit("append");
    reveal_strlit("prepend");
    reveal_strlit("replace");
    reveal_strlit("delete");
    reveal_strlit("merge");
    assert("prepend"@.len() != "append"@.len());
    assert("replace"@.len() != "append"@.len());
    assert("replace"@[0] != "prepend"@[0]);
    assert("delete"@[0] != "append"@[0]);
    assert("delete"@.len() != "prepend"@.len());
    assert("delete"@.len() != "replace"@.len());
    assert("merge"@.len() != "append"@.len());
    assert("merge"@.len() != "prepend"@.len());
    assert("merge"@.len() != "replace"@.len());
    assert("merge"@.len() != "delete"@.len());
}

/// Merging a delta that holds nothing (no attribute, child or content) gives the base back.
pub proof fn lemma_merge_empty_delta(base: NodeView, tag: Seq<char>)
    ensures
        merge_view(base, empty_node(tag)) == base,
{
}

proof fn lemma_get_remove(es: Seq<(Seq<char>, Seq<char>)>, k: Seq<char>, q: Seq<char>)
    ensures
        entries_get(entries_remove(es, k), q) == if q == k { None } else { entries_get(es, q) },
    decreases es.len(),
{
    if es.len() > 0 {
        lemma_get_remove(es.drop_last(), k, q);
        let p = entries_remove(es.drop_last(), k);
        if es.last().0 != k {
            assert(p.push(es.last()).drop_last() =~= p);
        }
    }
}

proof fn lemma_get_insert(es: Seq<(Seq<char>, Seq<char>)>, k: Seq<char>, v: Seq<char>, q: Seq<char>)
    ensures
        entries_get(entries_insert(es, k, v), q) == if q == k { Some(v) } else { entries_get(es, q) },
{
    let p = entries_remove(es, k);
    assert(p.push((k, v)).drop_last() =~= p);
    lemma_get_remove(es, k, q);
}

/// After `merge`, an attribute the delta has takes the delta's value, and one it lacks keeps
/// the base's value.
pub proof fn lemma_merge_attrs(base: NodeView, delta: NodeView, q: Seq<char>)
    ensures
        entries_get(merge_view(base, delta).attrs, q) == match entries_get(delta.attrs, q) {
            Some(v) => Some(v),
            None => entries_get(base.attrs, q),
        },
{
    lemma_insert_all_get(base.attrs, delta.attrs, q);
}

/// Under `merge` the node keeps the base's tag, and its text is the delta's text when the delta has
/// one, the base's text otherwise.
pub proof fn lemma_merge_content(base: NodeView, delta: NodeView)
    ensures
        merge_with_view(base, delta, OverrideRule::Merge).tag == base.tag,
        delta.content is Some ==> merge_with_view(base, delta, OverrideRule::Merge).content == delta.content,
        delta.content is None ==> merge_with_view(base, delta, OverrideRule::Merge).content == base.content,
{
}

/// A delta child with the tag of the base's only child, no `x:override` and no key that tells them
/// apart merges into that child: the result has one child, whose text is the delta child's text
/// when it has one.
pub proof fn lemma_merge_child_content(base: NodeView, delta: NodeView)
    requires
        base.children.len() == 1,
        delta.children.len() == 1,
        base.children[0].tag == delta.children[0].tag,
        entries_get(delta.children[0].attrs, "x:override"@) is None,
        keys_match(base.children[0], delta.children[0]),
    ensures
        merge_with_view(base, delta, OverrideRule::Merge).children.len() == 1,
        delta.children[0].content is Some ==> merge_with_view(base, delta, OverrideRule::Merge).children[0].content
            == delta.children[0].content,
        delta.children[0].content is None ==> merge_with_view(base, delta, OverrideRule::Merge).children[0].content
            == base.children[0].content,
{
    let cs = base.children;
    let d = delta.children[0];
    assert(merge_children(cs, delta.children, 0) == cs);
    assert(cs.drop_last().len() == 0);
    assert(first_match(cs.drop_last(), d) is None);
    assert(child_matches(cs.last(), d));
    assert(first_match(cs, d) == Some(0int));
    assert(override_of(d) == OverrideRule::Merge);
    let m = merge_with_view(cs[0], d, OverrideRule::Merge);
    assert(merge_children(cs, delta.children, 1) == cs.update(0, m));
    lemma_merge_content(cs[0], d);
}

proof fn lemma_insert_all_get(es: Seq<(Seq<char>, Seq<char>)>, add: Seq<(Seq<char>, Seq<char>)>, q: Seq<char>)
    ensures
        entries_get(entries_insert_all(es, add), q) == match entries_get(add, q) {
            Some(v) => Some(v),
            None => entries_get(es, q),
        },
    decreases add.len(),
{
    if add.len() > 0 {
        lemma_insert_all_get(es, add.drop_last(), q);
        lemma_get_insert(entries_insert_all(es, add.drop_last()), add.last().0, add.last().1, q);
    }
}

} // verus!
