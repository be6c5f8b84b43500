//! Differences between two XML nodes, and applying a difference to a node.

use vstd::prelude::*;
use crate::rule::copy_string;
use crate::text::str_eq;
use crate::xml_token::attrs_view;
use crate::ynode::{
    entries_get, entries_insert_all, keys_distinct, keys_match, lemma_nodes_view_ext, lemma_nodes_view_index,
    lemma_nodes_view_push, node_view, nodes_view, NodeView, YError, YNode,
};

verus! {

// ---------------------------------------------------------------------------
// Deltas
// ---------------------------------------------------------------------------

/// A node that changed: where, what it was and what it became.
#[derive(Debug)]
pub struct YModification {
    pub path: String,
    pub old_value: YNode,
    pub new_value: YNode,
}

/// The mathematical value of a modification.
pub struct ModView {
    pub path: Seq<char>,
    pub old_value: NodeView,
    pub new_value: NodeView,
}

impl View for YModification {
    type V = ModView;

    open spec fn view(&self) -> ModView {
        ModView { path: self.path@, old_value: self.old_value@, new_value: self.new_value@ }
    }
}

/// The views of a list of modifications.
pub open spec fn mods_view(s: Seq<YModification>) -> Seq<ModView> {
    s.map_values(|m: YModification| m@)
}

impl YModification {
    /// A modification.
    pub fn new(path: String, old_value: YNode, new_value: YNode) -> (r: YModification)
        ensures
            r@ == (ModView { path: path@, old_value: old_value@, new_value: new_value@ }),
    {
        YModification { path, old_value, new_value }
    }
}

/// The difference between two nodes: children added and removed, nodes modified.
#[derive(Debug)]
pub struct YDelta {
    pub added: Vec<YNode>,
    pub removed: Vec<YNode>,
    pub modified: Vec<YModification>,
    /// Where the delta applies.
    pub path: String,
}

/// The mathematical value of a delta.
pub struct DeltaView {
    pub added: Seq<NodeView>,
    pub removed: Seq<NodeView>,
    pub modified: Seq<ModView>,
    pub path: Seq<char>,
}

impl View for YDelta {
    type V = DeltaView;

    open spec fn view(&self) -> DeltaView {
        DeltaView {
            added: nodes_view(self.added@),
            removed: nodes_view(self.removed@),
            modified: mods_view(self.modified@),
            path: self.path@,
        }
    }
}

/// The delta that changes nothing.
pub open spec fn empty_delta() -> DeltaView {
    DeltaView { added: Seq::empty(), removed: Seq::empty(), modified: Seq::empty(), path: Seq::empty() }
}

/// Whether a delta adds, removes and modifies nothing.
pub open spec fn delta_is_empty(d: DeltaView) -> bool {
    d.added.len() == 0 && d.removed.len() == 0 && d.modified.len() == 0
}

// ---------------------------------------------------------------------------
// Matching nodes
// ---------------------------------------------------------------------------

/// Whether two nodes do not disagree on attribute `k` (one of them lacks it, or both have the
/// same value).
pub open spec fn key_agrees(a: NodeView, b: NodeView, k: Seq<char>) -> bool {
    !(entries_get(a.attrs, k) is Some && entries_get(b.attrs, k) is Some
        && entries_get(a.attrs, k) != entries_get(b.attrs, k))
}

/// Whether a node is the one a delta names: same tag, and no disagreement on `id`, `name` or
/// `key`.
pub open spec fn node_matches(n: NodeView, p: NodeView) -> bool {
    n.tag == p.tag && key_agrees(n, p, "id"@) && key_agrees(n, p, "name"@) && key_agrees(n, p, "key"@)
}

/// Whether two children are the same node across two versions: same tag, and for elements the
/// first of `id`, `name`, `key` that both have must be equal (with none in common they are).
pub open spec fn can_match(a: NodeView, b: NodeView) -> bool {
    a.tag == b.tag && (a.tag == "#text"@ || keys_match(a, b))
}

// ---------------------------------------------------------------------------
// Computing a delta
// ---------------------------------------------------------------------------

/// The keys of `es` whose value in `to` differs (or is missing), in order.
pub open spec fn changed_from(es: Seq<(Seq<char>, Seq<char>)>, to: Seq<(Seq<char>, Seq<char>)>) -> Seq<Seq<char>>
    decreases es.len(),
{
    if es.len() == 0 {
        Seq::empty()
    } else {
        let p = changed_from(es.drop_last(), to);
        if entries_get(to, es.last().0) == Some(es.last().1) {
            p
        } else {
            p.push(es.last().0)
        }
    }
}

/// The keys of `ts` that `from` lacks, in order.
pub open spec fn new_keys(ts: Seq<(Seq<char>, Seq<char>)>, from: Seq<(Seq<char>, Seq<char>)>) -> Seq<Seq<char>>
    decreases ts.len(),
{
    if ts.len() == 0 {
        Seq::empty()
    } else {
        let p = new_keys(ts.drop_last(), from);
        if entries_get(from, ts.last().0) is None {
            p.push(ts.last().0)
        } else {
            p
        }
    }
}

/// The attribute keys that differ between two nodes.
pub open spec fn changed_attributes(from: Seq<(Seq<char>, Seq<char>)>, to: Seq<(Seq<char>, Seq<char>)>) -> Seq<Seq<char>> {
    changed_from(from, to) + new_keys(to, from)
}

/// A node with the tag and attributes of `n` only.
pub open spec fn attr_node(n: NodeView) -> NodeView {
    NodeView {
        tag: n.tag,
        attrs: entries_insert_all(Seq::empty(), n.attrs),
        content: None,
        children: Seq::empty(),
    }
}

/// The first of the first `n` new children that is not matched yet and can match `c`.
pub open spec fn first_free(tcs: Seq<NodeView>, matched: Seq<bool>, c: NodeView, n: nat) -> Option<int>
    decreases n,
{
    if n == 0 {
        None
    } else {
        match first_free(tcs, matched, c, (n - 1) as nat) {
            Some(i) => Some(i),
            None => if !matched[n - 1] && can_match(c, tcs[n - 1]) { Some(n - 1) } else { None },
        }
    }
}

/// The state of the walk over the old children.
pub struct ChildWalk {
    /// Which new children were matched.
    pub matched: Seq<bool>,
    /// Old children with no match.
    pub removed: Seq<NodeView>,
    /// Matched children that differ.
    pub modified: Seq<ModView>,
}

/// The walk after the first `k` old children: each is matched to the first free new child that can
/// match it; it is removed when there is none, and modified when the pair differs and their own
/// delta is not empty.
pub open spec fn walk_children(fcs: Seq<NodeView>, tcs: Seq<NodeView>, k: nat) -> ChildWalk
    decreases fcs, k,
{
    if k == 0 || k > fcs.len() {
        ChildWalk { matched: Seq::new(tcs.len(), |i: int| false), removed: Seq::empty(), modified: Seq::empty() }
    } else {
        let prev = walk_children(fcs, tcs, (k - 1) as nat);
        let c = fcs[k - 1];
        match first_free(tcs, prev.matched, c, tcs.len()) {
            Some(i) => if 0 <= i < tcs.len() {
                let m2 = prev.matched.update(i, true);
                if c == tcs[i] {
                    ChildWalk { matched: m2, ..prev }
                } else if delta_is_empty(diff_view(c, tcs[i])) {
                    ChildWalk { matched: m2, ..prev }
                } else {
                    ChildWalk {
                        matched: m2,
                        modified: prev.modified.push(ModView { path: c.tag, old_value: c, new_value: tcs[i] }),
                        ..prev
                    }
                }
            } else {
                prev
            },
            None => ChildWalk { removed: prev.removed.push(c), ..prev },
        }
    }
}

/// The first `n` new children that were not matched, in order.
pub open spec fn unmatched(tcs: Seq<NodeView>, matched: Seq<bool>, n: nat) -> Seq<NodeView>
    decreases n,
{
    if n == 0 {
        Seq::empty()
    } else {
        let p = unmatched(tcs, matched, (n - 1) as nat);
        if !matched[n - 1] {
            p.push(tcs[n - 1])
        } else {
            p
        }
    }
}

/// The delta from one node to another. Nodes of different tags give one modification of the whole
/// node; otherwise a modification of the attributes when any differ, then the walk over the
/// children, then the new children no old child matched. Content is not compared.
pub open spec fn diff_view(from: NodeView, to: NodeView) -> DeltaView
    decreases from, 0nat,
{
    if from.tag != to.tag {
        DeltaView {
            added: Seq::empty(),
            removed: Seq::empty(),
            modified: seq![ModView { path: Seq::empty(), old_value: from, new_value: to }],
            path: Seq::empty(),
        }
    } else {
        let base = if changed_attributes(from.attrs, to.attrs).len() > 0 {
            seq![ModView { path: Seq::empty(), old_value: attr_node(from), new_value: attr_node(to) }]
        } else {
            Seq::empty()
        };
        let w = walk_children(from.children, to.children, from.children.len());
        DeltaView {
            added: unmatched(to.children, w.matched, to.children.len()),
            removed: w.removed,
            modified: base + w.modified,
            path: Seq::empty(),
        }
    }
}

// ---------------------------------------------------------------------------
// Applying a delta
// ---------------------------------------------------------------------------

/// The children without those a removed node names.
pub open spec fn drop_matching(cs: Seq<NodeView>, p: NodeView) -> Seq<NodeView>
    decreases cs.len(),
{
    if cs.len() == 0 {
        cs
    } else {
        let q = drop_matching(cs.drop_last(), p);
        if node_matches(cs.last(), p) {
            q
        } else {
            q.push(cs.last())
        }
    }
}

/// The children after dropping those each removed node names, in order.
pub open spec fn drop_all(cs: Seq<NodeView>, rs: Seq<NodeView>) -> Seq<NodeView>
    decreases rs.len(),
{
    if rs.len() == 0 {
        cs
    } else {
        drop_matching(drop_all(cs, rs.drop_last()), rs.last())
    }
}

/// The position of the first child a node names.
pub open spec fn first_node_match(cs: Seq<NodeView>, p: NodeView) -> Option<int>
    decreases cs.len(),
{
    if cs.len() == 0 {
        None
    } else {
        match first_node_match(cs.drop_last(), p) {
            Some(i) => Some(i),
            None => if node_matches(cs.last(), p) { Some(cs.len() - 1) } else { None },
        }
    }
}

/// The children after each modification replaced the first child its old value names.
pub open spec fn replace_all(cs: Seq<NodeView>, ms: Seq<ModView>) -> Seq<NodeView>
    decreases ms.len(),
{
    if ms.len() == 0 {
        cs
    } else {
        let q = replace_all(cs, ms.drop_last());
        match first_node_match(q, ms.last().old_value) {
            Some(i) => if 0 <= i < q.len() { q.update(i, ms.last().new_value) } else { q },
            None => q,
        }
    }
}

/// A node with a delta applied: removed children dropped, added children appended, modified
/// children replaced.
pub open spec fn apply_view(d: DeltaView, t: NodeView) -> NodeView {
    NodeView { children: replace_all(drop_all(t.children, d.removed) + d.added, d.modified), ..t }
}

// ---------------------------------------------------------------------------
// Executable matching
// ---------------------------------------------------------------------------

fn attrs_equal(a: &Vec<(String, String)>, b: &Vec<(String, String)>) -> (r: bool)
    ensures
        r == (attrs_view(a@) == attrs_view(b@)),
{
    if a.len() != b.len() {
        proof {
            assert(attrs_view(a@).len() != attrs_view(b@).len());
        }
        return false;
    }
    let mut i: usize = 0;
    while i < a.len()
        invariant
            i <= a@.len(),
            a@.len() == b@.len(),
            forall|k: int| 0 <= k < i ==> #[trigger] attrs_view(a@)[k] == attrs_view(b@)[k],
        decreases a.len() - i,
    {
        if !str_eq(a[i].0.as_str(), b[i].0.as_str()) || !str_eq(a[i].1.as_str(), b[i].1.as_str()) {
            proof {
                assert(attrs_view(a@)[i as int] != attrs_view(b@)[i as int]);
            }
            return false;
        }
        i = i + 1;
    }
    proof {
        assert(attrs_view(a@) =~= attrs_view(b@));
    }
    true
}

fn opt_text_eq(a: &Option<String>, b: &Option<String>) -> (r: bool)
    ensures
        r == (match *a {
            Some(x) => Some(x@),
            None => None::<Seq<char>>,
        } == match *b {
            Some(y) => Some(y@),
            None => None::<Seq<char>>,
        }),
{
    match (a, b) {
        (Some(x), Some(y)) => str_eq(x.as_str(), y.as_str()),
        (None, None) => true,
        _ => false,
    }
}

/// Whether two nodes are equal: tag, attributes in order, content and children.
fn nodes_equal(a: &YNode, b: &YNode) -> (r: bool)
    ensures
        r == (a@ == b@),
    decreases a,
{
    if !str_eq(a.tag_name.as_str(), b.tag_name.as_str()) {
        return false;
    }
    let ea = a.attributes();
    let eb = b.attributes();
    if !attrs_equal(&ea, &eb) {
        return false;
    }
    proof {
        lemma_nodes_view_index(a.children@);
        lemma_nodes_view_index(b.children@);
    }
    if a.children.len() != b.children.len() {
        return false;
    }
    if !opt_text_eq(&a.content, &b.content) {
        return false;
    }
    let mut i: usize = 0;
    while i < a.children.len()
        invariant
            i <= a.children@.len(),
            a.children@.len() == b.children@.len(),
            forall|k: int| 0 <= k < i ==> node_view(#[trigger] a.children@[k]) == node_view(b.children@[k]),
        decreases a.children.len() - i,
    {
        proof {
            assert(decreases_to!(a => a.children@[i as int]));
        }
        if !nodes_equal(&a.children[i], &b.children[i]) {
            proof {
                lemma_nodes_view_index(a.children@);
                lemma_nodes_view_index(b.children@);
                assert(a@.children[i as int] != b@.children[i as int]);
            }
            return false;
        }
        i = i + 1;
    }
    proof {
        lemma_nodes_view_ext(a.children@, b.children@);
    }
    true
}

fn opt_differs(a: &Option<String>, b: &Option<String>) -> (r: bool)
    ensures
        r == (a.is_some() && b.is_some() && a.unwrap()@ != b.unwrap()@),
{
    match (a, b) {
        (Some(x), Some(y)) => !str_eq(x.as_str(), y.as_str()),
        _ => false,
    }
}

/// Whether a node is the one a delta names (see `node_matches`).
fn node_matches_exec(n: &YNode, p: &YNode) -> (r: bool)
    ensures
        r == node_matches(n@, p@),
{
    if !str_eq(n.tag_name.as_str(), p.tag_name.as_str()) {
        return false;
    }
    if opt_differs(&n.attr("id"), &p.attr("id")) {
        return false;
    }
    if opt_differs(&n.attr("name"), &p.attr("name")) {
        return false;
    }
    if opt_differs(&n.attr("key"), &p.attr("key")) {
        return false;
    }
    true
}

/// Whether two children are the same node across versions (see `can_match`).
fn nodes_can_match(a: &YNode, b: &YNode) -> (r: bool)
    ensures
        r == can_match(a@, b@),
{
    if !str_eq(a.tag_name.as_str(), b.tag_name.as_str()) {
        return false;
    }
    if a.is_text_node() && b.is_text_node() {
        return true;
    }
    let ai = a.attr("id");
    let bi = b.attr("id");
    if ai.is_some() && bi.is_some() {
        return opt_text_eq(&ai, &bi);
    }
    let an = a.attr("name");
    let bn = b.attr("name");
    if an.is_some() && bn.is_some() {
        return opt_text_eq(&an, &bn);
    }
    let ak = a.attr("key");
    let bk = b.attr("key");
    if ak.is_some() && bk.is_some() {
        return opt_text_eq(&ak, &bk);
    }
    true
}

/// The attribute keys that differ between two nodes (see `changed_attributes`).
fn diff_attributes(from: &YNode, to: &YNode) -> (r: Vec<String>)
    ensures
        r@.map_values(|s: String| s@) == changed_attributes(from@.attrs, to@.attrs),
{
    let fe = from.attributes();
    let te = to.attributes();
    let ghost fa = from@.attrs;
    let ghost ta = to@.attrs;
    let mut changed: Vec<String> = Vec::new();
    let mut i: usize = 0;
    proof {
        assert(attrs_view(fe@).take(0) =~= Seq::<(Seq<char>, Seq<char>)>::empty());
        assert(changed@.map_values(|s: String| s@) =~= Seq::<Seq<char>>::empty());
    }
    while i < fe.len()
        invariant
            i <= fe@.len(),
            attrs_view(fe@) == fa,
            attrs_view(te@) == ta,
            fa == from@.attrs,
            ta == to@.attrs,
            changed@.map_values(|s: String| s@) == changed_from(fa.take(i as int), ta),
        decreases fe.len() - i,
    {
        let v = to.attr(fe[i].0.as_str());
        let same = match &v {
            Some(x) => str_eq(x.as_str(), fe[i].1.as_str()),
            None => false,
        };
        let ghost prev = changed@;
        proof {
            let t = fa.take(i + 1);
            assert(t.drop_last() =~= fa.take(i as int));
            assert(t.last() == fa[i as int]);
            assert(fa[i as int] == (fe@[i as int].0@, fe@[i as int].1@));
        }
        if !same {
            changed.push(copy_string(&fe[i].0));
            proof {
                assert(changed@.map_values(|s: String| s@) =~= prev.map_values(|s: String| s@).push(fe@[i as int].0@));
            }
        }
        i = i + 1;
    }
    let ghost part = changed@.map_values(|s: String| s@);
    proof {
        assert(fa.take(fe@.len() as int) =~= fa);
        assert(ta.take(0) =~= Seq::<(Seq<char>, Seq<char>)>::empty());
        assert(part + new_keys(ta.take(0), fa) =~= part);
    }
    let mut j: usize = 0;
    while j < te.len()
        invariant
            j <= te@.len(),
            attrs_view(te@) == ta,
            fa == from@.attrs,
            ta == to@.attrs,
            part == changed_from(fa, ta),
            changed@.map_values(|s: String| s@) == part + new_keys(ta.take(j as int), fa),
        decreases te.len() - j,
    {
        let v = from.attr(te[j].0.as_str());
        let ghost prev = changed@;
        proof {
            let t = ta.take(j + 1);
            assert(t.drop_last() =~= ta.take(j as int));
            assert(t.last() == ta[j as int]);
        }
        if v.is_none() {
            changed.push(copy_string(&te[j].0));
            proof {
                assert(changed@.map_values(|s: String| s@) =~= prev.map_values(|s: String| s@).push(te@[j as int].0@));
                assert(part + new_keys(ta.take(j + 1), fa) =~= (part + new_keys(ta.take(j as int), fa)).push(te@[j as int].0@));
            }
        } else {
            proof {
                assert(part + new_keys(ta.take(j + 1), fa) =~= part + new_keys(ta.take(j as int), fa));
            }
        }
        j = j + 1;
    }
    proof {
        assert(ta.take(te@.len() as int) =~= ta);
    }
    changed
}

proof fn lemma_first_free_extends(tcs: Seq<NodeView>, matched: Seq<bool>, c: NodeView, k: nat, m: nat, i: int)
    requires
        k <= m,
        first_free(tcs, matched, c, k) == Some(i),
    ensures
        first_free(tcs, matched, c, m) == Some(i),
    decreases m - k,
{
    if k < m {
        lemma_first_free_extends(tcs, matched, c, k, (m - 1) as nat, i);
    }
}

proof fn lemma_first_free_none(tcs: Seq<NodeView>, matched: Seq<bool>, c: NodeView, k: nat)
    requires
        first_free(tcs, matched, c, k) is None,
    ensures
        forall|j: int| 0 <= j < k ==> !(!matched[j] && #[trigger] can_match(c, tcs[j])),
    decreases k,
{
    if k > 0 {
        lemma_first_free_none(tcs, matched, c, (k - 1) as nat);
    }
}

proof fn lemma_first_free_range(tcs: Seq<NodeView>, matched: Seq<bool>, c: NodeView, k: nat)
    ensures
        match first_free(tcs, matched, c, k) {
            Some(i) => 0 <= i < k && !matched[i] && can_match(c, tcs[i]),
            None => true,
        },
    decreases k,
{
    if k > 0 {
        lemma_first_free_range(tcs, matched, c, (k - 1) as nat);
    }
}

/// The first new child that is free and can match `c`.
fn find_free(tcs: &Vec<YNode>, matched: &Vec<bool>, c: &YNode) -> (r: Option<usize>)
    requires
        matched@.len() == tcs@.len(),
    ensures
        match r {
            Some(j) => first_free(nodes_view(tcs@), matched@, c@, tcs@.len() as nat) == Some(j as int) && j < tcs@.len(),
            None => first_free(nodes_view(tcs@), matched@, c@, tcs@.len() as nat) is None,
        },
{
    let ghost tv = nodes_view(tcs@);
    proof {
        lemma_nodes_view_index(tcs@);
    }
    let mut i: usize = 0;
    while i < tcs.len()
        invariant
            i <= tcs@.len(),
            matched@.len() == tcs@.len(),
            tv == nodes_view(tcs@),
            tv.len() == tcs@.len(),
            forall|k: int| 0 <= k < tcs@.len() ==> #[trigger] tv[k] == node_view(tcs@[k]),
            first_free(tv, matched@, c@, i as nat) is None,
        decreases tcs.len() - i,
    {
        if !matched[i] && nodes_can_match(c, &tcs[i]) {
            proof {
                assert(tv[i as int] == node_view(tcs@[i as int]));
                assert(first_free(tv, matched@, c@, (i + 1) as nat) == Some(i as int));
                lemma_first_free_extends(tv, matched@, c@, (i + 1) as nat, tcs@.len() as nat, i as int);
            }
            return Some(i);
        }
        proof {
            assert(tv[i as int] == node_view(tcs@[i as int]));
        }
        i = i + 1;
    }
    None
}

/// The text of a node's tag.
fn tag_copy(n: &YNode) -> (r: String)
    ensures
        r@ == n@.tag,
{
    copy_string(&n.tag_name)
}

proof fn lemma_mods_push(ms: Seq<YModification>, m: YModification)
    ensures
        mods_view(ms.push(m)) == mods_view(ms).push(m@),
{
    assert(mods_view(ms.push(m)) =~= mods_view(ms).push(m@));
}

/// Appends the walk over the children of `from` and the unmatched children of `to` to a delta.
fn diff_children(from: &YNode, to: &YNode, delta: &mut YDelta)
    ensures
        ({
            let w = walk_children(from@.children, to@.children, from@.children.len());
            final(delta)@ == (DeltaView {
                added: old(delta)@.added + unmatched(to@.children, w.matched, to@.children.len()),
                removed: old(delta)@.removed + w.removed,
                modified: old(delta)@.modified + w.modified,
                path: old(delta)@.path,
            })
        }),
    decreases from, 0nat,
{
    let ghost fcs = from@.children;
    let ghost tcs = to@.children;
    let ghost start = delta@;
    proof {
        lemma_nodes_view_index(from.children@);
        lemma_nodes_view_index(to.children@);
    }
    let n = to.children.len();
    let mut matched: Vec<bool> = Vec::new();
    let mut z: usize = 0;
    while z < n
        invariant
            z <= n,
            matched@ == Seq::new(z as nat, |i: int| false),
        decreases n - z,
    {
        matched.push(false);
        proof {
            assert(matched@ =~= Seq::new((z + 1) as nat, |i: int| false));
        }
        z = z + 1;
    }
    proof {
        assert(start.added + Seq::<NodeView>::empty() =~= start.added);
        assert(start.removed + Seq::<NodeView>::empty() =~= start.removed);
        assert(start.modified + Seq::<ModView>::empty() =~= start.modified);
    }
    let mut i: usize = 0;
    while i < from.children.len()
        invariant
            i <= from.children@.len(),
            n == to.children@.len(),
            fcs == from@.children,
            tcs == to@.children,
            fcs == nodes_view(from.children@),
            tcs == nodes_view(to.children@),
            fcs.len() == from.children@.len(),
            tcs.len() == n,
            forall|k: int| 0 <= k < from.children@.len() ==> #[trigger] fcs[k] == node_view(from.children@[k]),
            forall|k: int| 0 <= k < n ==> #[trigger] tcs[k] == node_view(to.children@[k]),
            matched@ == walk_children(fcs, tcs, i as nat).matched,
            matched@.len() == n,
            delta@.added == start.added,
            delta@.path == start.path,
            delta@.removed == start.removed + walk_children(fcs, tcs, i as nat).removed,
            delta@.modified == start.modified + walk_children(fcs, tcs, i as nat).modified,
        decreases from.children.len() - i,
    {
        let fc = &from.children[i];
        proof {
            assert(decreases_to!(from => from.children@[i as int]));
            assert(fcs[i as int] == fc@);
        }
        let ghost prev = walk_children(fcs, tcs, i as nat);
        match find_free(&to.children, &matched, fc) {
            Some(j) => {
                matched.set(j, true);
                let tc = &to.children[j];
                proof {
                    assert(tcs[j as int] == tc@);
                }
                if !nodes_equal(fc, tc) {
                    let child = match diff(fc, tc) {
                        Ok(d) => d,
                        Err(_) => YDelta::new(),
                    };
                    if !child.is_empty() {
                        let m = YModification::new(tag_copy(fc), fc.clone(), tc.clone());
                        let ghost before = delta.modified@;
                        delta.modified.push(m);
                        proof {
                            lemma_mods_push(before, m);
                            assert(delta@.modified =~= start.modified + walk_children(fcs, tcs, (i + 1) as nat).modified);
                        }
                    }
                }
            },
            None => {
                let c = fc.clone();
                let ghost before = delta.removed@;
                delta.removed.push(c);
                proof {
                    lemma_nodes_view_push(before, c);
                    assert(delta@.removed =~= start.removed + walk_children(fcs, tcs, (i + 1) as nat).removed);
                }
            },
        }
        proof {
            assert(matched@ == walk_children(fcs, tcs, (i + 1) as nat).matched);
            assert(delta@.removed =~= start.removed + walk_children(fcs, tcs, (i + 1) as nat).removed);
            assert(delta@.modified =~= start.modified + walk_children(fcs, tcs, (i + 1) as nat).modified);
        }
        i = i + 1;
    }
    let ghost w = walk_children(fcs, tcs, fcs.len());
    let mut j: usize = 0;
    proof {
        assert(start.added + unmatched(tcs, w.matched, 0) =~= start.added);
    }
    while j < n
        invariant
            j <= n,
            n == to.children@.len(),
            tcs == to@.children,
            tcs == nodes_view(to.children@),
            tcs.len() == n,
            forall|k: int| 0 <= k < n ==> #[trigger] tcs[k] == node_view(to.children@[k]),
            matched@ == w.matched,
            matched@.len() == n,
            w == walk_children(fcs, tcs, fcs.len()),
            delta@.added == start.added + unmatched(tcs, w.matched, j as nat),
            delta@.path == start.path,
            delta@.removed == start.removed + w.removed,
            delta@.modified == start.modified + w.modified,
        decreases n - j,
    {
        if !matched[j] {
            let c = to.children[j].clone();
            let ghost before = delta.added@;
            delta.added.push(c);
            proof {
                lemma_nodes_view_push(before, c);
                assert(tcs[j as int] == c@);
                assert(delta@.added =~= start.added + unmatched(tcs, w.matched, (j + 1) as nat));
            }
        } else {
            proof {
                assert(unmatched(tcs, w.matched, (j + 1) as nat) == unmatched(tcs, w.matched, j as nat));
            }
        }
        j = j + 1;
    }
}

/// The delta from `from` to `to` (see `diff_view`); computing it never fails.
pub fn diff(from: &YNode, to: &YNode) -> (r: Result<YDelta, YError>)
    ensures
        r matches Ok(d) && d@ == diff_view(from@, to@),
    decreases from, 1nat,
{
    let mut delta = YDelta::new();
    if !str_eq(from.tag_name.as_str(), to.tag_name.as_str()) {
        let m = YModification::new(String::new(), from.clone(), to.clone());
        delta.modified.push(m);
        proof {
            lemma_mods_push(Seq::empty(), m);
            assert(delta@.modified =~= seq![ModView { path: Seq::empty(), old_value: from@, new_value: to@ }]);
        }
        return Ok(delta);
    }
    let changed = diff_attributes(from, to);
    if changed.len() > 0 {
        let mut old_node = YNode::new(tag_copy(from));
        let mut new_node = YNode::new(tag_copy(to));
        let fe = from.attributes();
        let te = to.attributes();
        crate::ynode::insert_all(&mut old_node.attributes, &fe, false);
        crate::ynode::insert_all(&mut new_node.attributes, &te, false);
        proof {
            assert(old_node@ == attr_node(from@));
            assert(new_node@ == attr_node(to@));
        }
        let m = YModification::new(String::new(), old_node, new_node);
        delta.modified.push(m);
        proof {
            lemma_mods_push(Seq::empty(), m);
        }
    }
    let ghost base = if changed_attributes(from@.attrs, to@.attrs).len() > 0 {
        seq![ModView { path: Seq::empty(), old_value: attr_node(from@), new_value: attr_node(to@) }]
    } else {
        Seq::<ModView>::empty()
    };
    proof {
        assert(changed@.map_values(|s: String| s@).len() == changed@.len());
        if changed@.len() > 0 {
            assert(delta@.modified =~= base);
        } else {
            assert(delta@.modified =~= base);
        }
        assert(delta@.added == Seq::<NodeView>::empty());
        assert(delta@.removed == Seq::<NodeView>::empty());
        assert(delta@.path == Seq::<char>::empty());
    }
    let ghost before = delta@;
    diff_children(from, to, &mut delta);
    proof {
        let w = walk_children(from@.children, to@.children, from@.children.len());
        assert(Seq::<NodeView>::empty() + unmatched(to@.children, w.matched, to@.children.len()) =~= unmatched(to@.children, w.matched, to@.children.len()));
        assert(Seq::<NodeView>::empty() + w.removed =~= w.removed);
        assert(delta@.modified == base + w.modified);
        assert(delta@ == diff_view(from@, to@));
    }
    Ok(delta)
}

// ---------------------------------------------------------------------------
// Executable application
// ---------------------------------------------------------------------------

fn keep_unmatched(cs: &Vec<YNode>, p: &YNode) -> (r: Vec<YNode>)
    ensures
        nodes_view(r@) == drop_matching(nodes_view(cs@), p@),
{
    let ghost cv = nodes_view(cs@);
    proof {
        lemma_nodes_view_index(cs@);
        assert(cv.take(0) =~= Seq::<NodeView>::empty());
        assert(nodes_view(Seq::<YNode>::empty()) =~= Seq::<NodeView>::empty());
    }
    let mut out: Vec<YNode> = Vec::new();
    let mut i: usize = 0;
    while i < cs.len()
        invariant
            i <= cs@.len(),
            cv == nodes_view(cs@),
            cv.len() == cs@.len(),
            forall|k: int| 0 <= k < cs@.len() ==> #[trigger] cv[k] == node_view(cs@[k]),
            nodes_view(out@) == drop_matching(cv.take(i as int), p@),
        decreases cs.len() - i,
    {
        proof {
            let t = cv.take(i + 1);
            assert(t.drop_last() =~= cv.take(i as int));
            assert(t.last() == cv[i as int]);
        }
        if !node_matches_exec(&cs[i], p) {
            let c = cs[i].clone();
            let ghost before = out@;
            out.push(c);
            proof {
                lemma_nodes_view_push(before, c);
            }
        }
        i = i + 1;
    }
    proof {
        assert(cv.take(cs@.len() as int) =~= cv);
    }
    out
}

proof fn lemma_first_node_match_prefix(cv: Seq<NodeView>, k: int, p: NodeView)
    requires
        0 < k <= cv.len(),
        first_node_match(cv.take(k - 1), p) is None,
        node_matches(cv[k - 1], p),
    ensures
        first_node_match(cv, p) == Some(k - 1),
    decreases cv.len() - k,
{
    if k < cv.len() {
        assert(cv.drop_last().take(k - 1) =~= cv.take(k - 1));
        assert(cv.drop_last()[k - 1] == cv[k - 1]);
        lemma_first_node_match_prefix(cv.drop_last(), k, p);
    } else {
        assert(cv.drop_last() =~= cv.take(k - 1));
    }
}

fn find_node_match(cs: &Vec<YNode>, p: &YNode) -> (r: Option<usize>)
    ensures
        match r {
            Some(i) => first_node_match(nodes_view(cs@), p@) == Some(i as int) && i < cs@.len(),
            None => first_node_match(nodes_view(cs@), p@) is None,
        },
{
    let ghost cv = nodes_view(cs@);
    proof {
        lemma_nodes_view_index(cs@);
        assert(cv.take(0) =~= Seq::<NodeView>::empty());
    }
    let mut i: usize = 0;
    while i < cs.len()
        invariant
            i <= cs@.len(),
            cv == nodes_view(cs@),
            cv.len() == cs@.len(),
            forall|k: int| 0 <= k < cs@.len() ==> #[trigger] cv[k] == node_view(cs@[k]),
            first_node_match(cv.take(i as int), p@) is None,
        decreases cs.len() - i,
    {
        proof {
            let t = cv.take(i + 1);
            assert(t.drop_last() =~= cv.take(i as int));
            assert(t.last() == cv[i as int]);
        }
        if node_matches_exec(&cs[i], p) {
            proof {
                lemma_first_node_match_prefix(cv, i as int + 1, p@);
            }
            return Some(i);
        }
        i = i + 1;
    }
    proof {
        assert(cv.take(cs@.len() as int) =~= cv);
    }
    None
}

impl YDelta {
    /// The delta that changes nothing.
    pub fn new() -> (r: YDelta)
        ensures
            r@ == empty_delta(),
    {
        let r = YDelta { added: Vec::new(), removed: Vec::new(), modified: Vec::new(), path: String::new() };
        proof {
            assert(nodes_view(r.added@) =~= Seq::<NodeView>::empty());
            assert(nodes_view(r.removed@) =~= Seq::<NodeView>::empty());
            assert(mods_view(r.modified@) =~= Seq::<ModView>::empty());
        }
        r
    }

    /// Whether the delta adds, removes and modifies nothing.
    pub fn is_empty(&self) -> (b: bool)
        ensures
            b == delta_is_empty(self@),
    {
        proof {
            lemma_nodes_view_index(self.added@);
            lemma_nodes_view_index(self.removed@);
        }
        self.added.len() == 0 && self.removed.len() == 0 && self.modified.len() == 0
    }

    /// The target with the delta applied (see `apply_view`); applying never fails.
    pub fn apply(&self, target: &YNode) -> (r: Result<YNode, YError>)
        ensures
            r matches Ok(n) && n@ == apply_view(self@, target@),
    {
        let mut result = target.clone();
        let ghost rv = nodes_view(self.removed@);
        proof {
            lemma_nodes_view_index(self.removed@);
            assert(rv.take(0) =~= Seq::<NodeView>::empty());
        }
        let mut i: usize = 0;
        while i < self.removed.len()
            invariant
                i <= self.removed@.len(),
                rv == nodes_view(self.removed@),
                rv.len() == self.removed@.len(),
                forall|k: int| 0 <= k < self.removed@.len() ==> #[trigger] rv[k] == node_view(self.removed@[k]),
                nodes_view(result.children@) == drop_all(target@.children, rv.take(i as int)),
                result@.tag == target@.tag,
                result@.attrs == target@.attrs,
                result@.content == target@.content,
            decreases self.removed.len() - i,
        {
            let kept = keep_unmatched(&result.children, &self.removed[i]);
            result.children = kept;
            proof {
                let t = rv.take(i + 1);
                assert(t.drop_last() =~= rv.take(i as int));
                assert(t.last() == rv[i as int]);
            }
            i = i + 1;
        }
        proof {
            assert(rv.take(self.removed@.len() as int) =~= rv);
        }
        let ghost dropped = nodes_view(result.children@);
        let ghost av = nodes_view(self.added@);
        proof {
            lemma_nodes_view_index(self.added@);
            assert(av.take(0) =~= Seq::<NodeView>::empty());
            assert(dropped + av.take(0) =~= dropped);
        }
        let mut j: usize = 0;
        while j < self.added.len()
            invariant
                j <= self.added@.len(),
                av == nodes_view(self.added@),
                av.len() == self.added@.len(),
                forall|k: int| 0 <= k < self.added@.len() ==> #[trigger] av[k] == node_view(self.added@[k]),
                nodes_view(result.children@) == dropped + av.take(j as int),
                result@.tag == target@.tag,
                result@.attrs == target@.attrs,
                result@.content == target@.content,
            decreases self.added.len() - j,
        {
            let c = self.added[j].clone();
            let ghost before = result.children@;
            result.children.push(c);
            proof {
                lemma_nodes_view_push(before, c);
                assert(dropped + av.take(j + 1) =~= (dropped + av.take(j as int)).push(av[j as int]));
            }
            j = j + 1;
        }
        proof {
            assert(av.take(self.added@.len() as int) =~= av);
        }
        let ghost base = nodes_view(result.children@);
        let ghost mv = mods_view(self.modified@);
        proof {
            assert(mv.take(0) =~= Seq::<ModView>::empty());
        }
        let mut q: usize = 0;
        while q < self.modified.len()
            invariant
                q <= self.modified@.len(),
                mv == mods_view(self.modified@),
                nodes_view(result.children@) == replace_all(base, mv.take(q as int)),
                result@.tag == target@.tag,
                result@.attrs == target@.attrs,
                result@.content == target@.content,
            decreases self.modified.len() - q,
        {
            let m = &self.modified[q];
            proof {
                let t = mv.take(q + 1);
                assert(t.drop_last() =~= mv.take(q as int));
                assert(t.last() == mv[q as int]);
                assert(mv[q as int] == m@);
            }
            match find_node_match(&result.children, &m.old_value) {
                Some(k) => {
                    let ghost prev = nodes_view(result.children@);
                    let fresh = m.new_value.clone();
                    let ghost before = result.children@;
                    let _gone = result.children.remove(k);
                    result.children.insert(k, fresh);
                    proof {
                        lemma_nodes_view_index(before);
                        lemma_nodes_view_index(result.children@);
                        assert(nodes_view(result.children@) =~= prev.update(k as int, m@.new_value));
                    }
                },
                None => {},
            }
            q = q + 1;
        }
        proof {
            assert(mv.take(self.modified@.len() as int) =~= mv);
            assert(result@ == apply_view(self@, target@));
        }
        Ok(result)
    }
}

impl Default for YDelta {
    fn default() -> (r: YDelta)
        ensures
            r@ == empty_delta(),
    {
        YDelta::new()
    }
}

// ---------------------------------------------------------------------------
// Laws
// ---------------------------------------------------------------------------

proof fn lemma_entries_get_distinct(a: Seq<(Seq<char>, Seq<char>)>, i: int)
    requires
        keys_distinct(a),
        0 <= i < a.len(),
    ensures
        entries_get(a, a[i].0) == Some(a[i].1),
    decreases a.len(),
{
    if i < a.len() - 1 {
        let d = a.drop_last();
        assert(a.last() == a[a.len() - 1]);
        assert(a[i].0 != a[a.len() - 1].0);
        assert(keys_distinct(d)) by {
            assert forall|p: int, q: int| 0 <= p < q < d.len() implies d[p].0 != d[q].0 by {
                assert(d[p] == a[p] && d[q] == a[q]);
            }
        }
        assert(d[i] == a[i]);
        lemma_entries_get_distinct(d, i);
    }
}

proof fn lemma_changed_from_none(es: Seq<(Seq<char>, Seq<char>)>, to: Seq<(Seq<char>, Seq<char>)>)
    requires
        forall|i: int| 0 <= i < es.len() ==> entries_get(to, #[trigger] es[i].0) == Some(es[i].1),
    ensures
        changed_from(es, to) == Seq::<Seq<char>>::empty(),
    decreases es.len(),
{
    if es.len() > 0 {
        let d = es.drop_last();
        assert forall|i: int| 0 <= i < d.len() implies entries_get(to, #[trigger] d[i].0) == Some(d[i].1) by {
            assert(d[i] == es[i]);
        }
        lemma_changed_from_none(d, to);
        assert(es.last() == es[es.len() - 1]);
    }
}

proof fn lemma_new_keys_none(ts: Seq<(Seq<char>, Seq<char>)>, from: Seq<(Seq<char>, Seq<char>)>)
    requires
        forall|i: int| 0 <= i < ts.len() ==> entries_get(from, #[trigger] ts[i].0) is Some,
    ensures
        new_keys(ts, from) == Seq::<Seq<char>>::empty(),
    decreases ts.len(),
{
    if ts.len() > 0 {
        let d = ts.drop_last();
        assert forall|i: int| 0 <= i < d.len() implies entries_get(from, #[trigger] d[i].0) is Some by {
            assert(d[i] == ts[i]);
        }
        lemma_new_keys_none(d, from);
        assert(ts.last() == ts[ts.len() - 1]);
    }
}

/// The walk of a list of children against itself: the first `k` are matched, each to itself.
proof fn lemma_walk_self(cs: Seq<NodeView>, k: nat)
    requires
        k <= cs.len(),
    ensures
        walk_children(cs, cs, k).matched == Seq::new(cs.len(), |j: int| j < k),
        walk_children(cs, cs, k).removed == Seq::<NodeView>::empty(),
        walk_children(cs, cs, k).modified == Seq::<ModView>::empty(),
    decreases k,
{
    if k == 0 {
        assert(Seq::new(cs.len(), |j: int| false) =~= Seq::new(cs.len(), |j: int| j < 0));
    } else {
        lemma_walk_self(cs, (k - 1) as nat);
        let prev = walk_children(cs, cs, (k - 1) as nat);
        let c = cs[k - 1];
        assert(can_match(c, c));
        lemma_first_free_self(cs, prev.matched, (k - 1) as nat, cs.len());
        assert(prev.matched.update(k - 1, true) =~= Seq::new(cs.len(), |j: int| j < k));
    }
}

proof fn lemma_first_free_self(cs: Seq<NodeView>, matched: Seq<bool>, i: nat, n: nat)
    requires
        i < n <= cs.len(),
        matched == Seq::new(cs.len(), |j: int| j < i),
        can_match(cs[i as int], cs[i as int]),
    ensures
        first_free(cs, matched, cs[i as int], n) == Some(i as int),
    decreases n,
{
    if n > i + 1 {
        lemma_first_free_self(cs, matched, i, (n - 1) as nat);
    } else {
        lemma_first_free_prefix_none(cs, matched, cs[i as int], i);
    }
}

proof fn lemma_first_free_prefix_none(cs: Seq<NodeView>, matched: Seq<bool>, c: NodeView, n: nat)
    requires
        n <= matched.len(),
        forall|j: int| 0 <= j < n ==> #[trigger] matched[j],
    ensures
        first_free(cs, matched, c, n) is None,
    decreases n,
{
    if n > 0 {
        lemma_first_free_prefix_none(cs, matched, c, (n - 1) as nat);
    }
}

proof fn lemma_unmatched_all(cs: Seq<NodeView>, matched: Seq<bool>, n: nat)
    requires
        n <= matched.len(),
        forall|j: int| 0 <= j < n ==> #[trigger] matched[j],
    ensures
        unmatched(cs, matched, n) == Seq::<NodeView>::empty(),
    decreases n,
{
    if n > 0 {
        lemma_unmatched_all(cs, matched, (n - 1) as nat);
    }
}

/// A node differs from itself in nothing: its delta adds, removes and modifies nothing.
pub proof fn lemma_diff_self_empty(n: NodeView)
    requires
        keys_distinct(n.attrs),
    ensures
        delta_is_empty(diff_view(n, n)),
{
    assert forall|i: int| 0 <= i < n.attrs.len() implies entries_get(n.attrs, #[trigger] n.attrs[i].0) == Some(n.attrs[i].1) by {
        lemma_entries_get_distinct(n.attrs, i);
    }
    lemma_changed_from_none(n.attrs, n.attrs);
    lemma_new_keys_none(n.attrs, n.attrs);
    assert(changed_attributes(n.attrs, n.attrs) =~= Seq::<Seq<char>>::empty());
    lemma_walk_self(n.children, n.children.len());
    let w = walk_children(n.children, n.children, n.children.len());
    lemma_unmatched_all(n.children, w.matched, n.children.len());
}

/// Applying a delta that adds, removes and modifies nothing gives the target back.
pub proof fn lemma_apply_empty(d: DeltaView, t: NodeView)
    requires
        delta_is_empty(d),
    ensures
        apply_view(d, t) == t,
{
    assert(d.removed =~= Seq::<NodeView>::empty());
    assert(d.added =~= Seq::<NodeView>::empty());
    assert(d.modified =~= Seq::<ModView>::empty());
    assert(t.children + d.added =~= t.children);
}

/// A delta that only adds children appends them, in order, after the target's children.
pub proof fn lemma_apply_added(d: DeltaView, t: NodeView)
    requires
        d.removed.len() == 0,
        d.modified.len() == 0,
    ensures
        apply_view(d, t) == (NodeView { children: t.children + d.added, ..t }),
{
    assert(d.removed =~= Seq::<NodeView>::empty());
    assert(d.modified =~= Seq::<ModView>::empty());
}

proof fn lemma_changed_from_has(es: Seq<(Seq<char>, Seq<char>)>, to: Seq<(Seq<char>, Seq<char>)>, k: Seq<char>)
    requires
        entries_get(es, k) is Some,
        entries_get(to, k) != entries_get(es, k),
    ensures
        changed_from(es, to).len() > 0,
    decreases es.len(),
{
    if es.last().0 != k {
        lemma_changed_from_has(es.drop_last(), to, k);
    }
}

proof fn lemma_new_keys_has(ts: Seq<(Seq<char>, Seq<char>)>, from: Seq<(Seq<char>, Seq<char>)>, k: Seq<char>)
    requires
        entries_get(ts, k) is Some,
        entries_get(from, k) is None,
    ensures
        new_keys(ts, from).len() > 0,
    decreases ts.len(),
{
    if ts.last().0 != k {
        lemma_new_keys_has(ts.drop_last(), from, k);
    }
}

/// Two nodes of one tag whose attributes differ on some key (it is missing on one side, or the
/// values differ) have a delta that is not empty: its first modification takes the attributes of
/// the one to those of the other.
pub proof fn lemma_diff_attr_change(from: NodeView, to: NodeView, k: Seq<char>)
    requires
        from.tag == to.tag,
        entries_get(from.attrs, k) != entries_get(to.attrs, k),
    ensures
        !delta_is_empty(diff_view(from, to)),
        diff_view(from, to).modified.len() > 0,
        diff_view(from, to).modified[0] == (ModView { path: Seq::empty(), old_value: attr_node(from), new_value: attr_node(to) }),
{
    if entries_get(from.attrs, k) is Some {
        lemma_changed_from_has(from.attrs, to.attrs, k);
    } else {
        lemma_new_keys_has(to.attrs, from.attrs, k);
    }
    assert(changed_attributes(from.attrs, to.attrs).len() > 0);
}

proof fn lemma_drop_matching_keeps(cs: Seq<NodeView>, p: NodeView, c: NodeView)
    requires
        cs.contains(c),
        !node_matches(c, p),
    ensures
        drop_matching(cs, p).contains(c),
    decreases cs.len(),
{
    let q = drop_matching(cs.drop_last(), p);
    if cs.last() == c {
        assert(q.push(c)[q.len() as int] == c);
    } else {
        let i = choose|i: int| 0 <= i < cs.len() && cs[i] == c;
        assert(cs.drop_last()[i] == c);
        lemma_drop_matching_keeps(cs.drop_last(), p, c);
        if !node_matches(cs.last(), p) {
            let j = choose|j: int| 0 <= j < q.len() && q[j] == c;
            assert(q.push(cs.last())[j] == c);
        }
    }
}

proof fn lemma_drop_all_keeps(cs: Seq<NodeView>, rs: Seq<NodeView>, c: NodeView)
    requires
        cs.contains(c),
        forall|j: int| 0 <= j < rs.len() ==> !node_matches(c, #[trigger] rs[j]),
    ensures
        drop_all(cs, rs).contains(c),
    decreases rs.len(),
{
    if rs.len() > 0 {
        assert forall|j: int| 0 <= j < rs.drop_last().len() implies !node_matches(c, #[trigger] rs.drop_last()[j]) by {
            assert(rs.drop_last()[j] == rs[j]);
        }
        lemma_drop_all_keeps(cs, rs.drop_last(), c);
        assert(rs.last() == rs[rs.len() - 1]);
        lemma_drop_matching_keeps(drop_all(cs, rs.drop_last()), rs.last(), c);
    }
}

/// Applying a delta that removes nodes (and modifies none) keeps a child whose value for `id`,
/// `name` or `key` differs from that of every removed node that carries the attribute too.
pub proof fn lemma_apply_keeps_other_key(d: DeltaView, t: NodeView, i: int, k: Seq<char>)
    requires
        k == "id"@ || k == "name"@ || k == "key"@,
        d.modified.len() == 0,
        0 <= i < t.children.len(),
        entries_get(t.children[i].attrs, k) is Some,
        forall|j: int| 0 <= j < d.removed.len() ==> entries_get((#[trigger] d.removed[j]).attrs, k) is Some
            && entries_get(d.removed[j].attrs, k) != entries_get(t.children[i].attrs, k),
    ensures
        apply_view(d, t).children.contains(t.children[i]),
{
    let c = t.children[i];
    assert forall|j: int| 0 <= j < d.removed.len() implies !node_matches(c, #[trigger] d.removed[j]) by {
        assert(!key_agrees(c, d.removed[j], k));
    }
    lemma_drop_all_keeps(t.children, d.removed, c);
    let kept = drop_all(t.children, d.removed);
    let w = choose|w: int| 0 <= w < kept.len() && kept[w] == c;
    assert((kept + d.added)[w] == c);
    assert(d.modified =~= Seq::<ModView>::empty());
    assert(replace_all(kept + d.added, d.modified) == kept + d.added);
}

} // verus!
